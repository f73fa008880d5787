use le_grinder::config::Config;
use le_grinder::settle::Outcome;
use le_grinder::state::GrinderState;

fn nano(x: f64) -> i64 {
    (x * 1e9).round() as i64
}

fn started(stack: f64) -> GrinderState {
    GrinderState::fresh(nano(stack))
}

#[test]
fn a_win_compounds() {
    let cfg = Config::default_for_tests();
    let mut st = started(1.0);
    st.settle(&cfg, Outcome::Win, nano(1.0), nano(1.05), 1000);
    assert_eq!(st.stack, nano(1.05));
    assert_eq!(st.streak, 1);
    assert_eq!(st.best_streak, 1);
    assert_eq!(st.best_stack, nano(1.05));
    assert_eq!(st.realized_pnl, nano(0.05));
    assert_eq!(st.windows_played, 1);
    assert_eq!(st.run_id, 1);
    st.settle(&cfg, Outcome::Secure, nano(1.05), nano(1.04), 1000);
    assert_eq!(st.stack, nano(1.04));
    assert_eq!(st.streak, 1);
    assert_eq!(st.best_stack, nano(1.05));
}

#[test]
fn a_sale_that_saves_the_base_keeps_the_run() {
    let cfg = Config::default_for_tests();
    let mut st = started(3.0);
    st.streak = 4;
    st.best_streak = 4;
    st.settle(&cfg, Outcome::Panic, nano(3.0), nano(1.0), 1000);
    assert_eq!(st.stack, nano(1.0));
    assert_eq!(st.streak, 0);
    assert_eq!(st.best_streak, 4);
    assert_eq!(st.run_id, 1);
    assert!(st.reset_ts.is_empty());
}

#[test]
fn a_wipe_begins_a_new_run_from_the_base() {
    let cfg = Config::default_for_tests();
    let mut st = started(3.0);
    st.streak = 2;
    st.settle(&cfg, Outcome::Loss, nano(3.0), 0, 1000);
    assert_eq!(st.stack, nano(1.0));
    assert_eq!(st.streak, 0);
    assert_eq!(st.run_id, 2);
    assert_eq!(st.realized_pnl, nano(-3.0));
    assert_eq!(st.reset_ts, vec![1000]);
    assert!(!st.halted);
}

#[test]
fn a_lost_window_is_a_wipe_whatever_was_not_spent() {
    let mut cfg = Config::default_for_tests();
    cfg.grind_base = nano(2.0);
    cfg.paper_wallet0 = nano(1000.0);
    let mut st = GrinderState::fresh(nano(2.0));
    st.stack = nano(10.0);
    st.streak = 3;
    st.settle(&cfg, Outcome::Loss, nano(10.0), nano(4.0), 1000);
    assert_eq!(st.stack, nano(2.0));
    assert_eq!(st.run_id, 2);
    assert_eq!(st.streak, 0);
    assert_eq!(st.realized_pnl, nano(-6.0));
}

#[test]
fn a_negative_part_of_a_gain_puts_nothing_aside() {
    let mut cfg = Config::default_for_tests();
    cfg.stack_skim_gain = nano(-0.3);
    assert!(cfg.is_valid());
    let mut st = started(10.0);
    st.settle(&cfg, Outcome::Win, nano(10.0), nano(11.0), 1000);
    assert_eq!((st.banked, st.stack), (0, nano(11.0)));
}

#[test]
fn a_wipe_goes_back_to_the_base_whatever_the_wallet_holds() {
    let mut cfg = Config::default_for_tests();
    cfg.grind_base = nano(10.0);
    for wallet in [0.0, 20.0, 1000.0] {
        cfg.paper_wallet0 = nano(wallet);
        let mut st = started(10.0);
        st.settle(&cfg, Outcome::Loss, nano(10.0), 0, 1000);
        assert_eq!((st.stack, st.run_id, st.streak), (nano(10.0), 2, 0));
        assert_eq!(st.realized_pnl, nano(-10.0));
    }
    let mut st = started(30.0);
    st.settle(&cfg, Outcome::Panic, nano(30.0), nano(9.99), 1000);
    assert_eq!((st.stack, st.run_id), (nano(10.0), 2));
    // Only the cap makes the next stake smaller.
    cfg.paper_wallet0 = nano(20.0);
    cfg.stack_cap_fraction = nano(0.5);
    let mut st = started(10.0);
    st.settle(&cfg, Outcome::Loss, nano(10.0), 0, 1000);
    assert_eq!((st.stack, st.banked), (nano(5.0), nano(5.0)));
}

#[test]
fn a_wipe_can_stop_play() {
    let mut cfg = Config::default_for_tests();
    cfg.halt_on_wipe = true;
    let mut st = started(3.0);
    st.settle(&cfg, Outcome::Loss, nano(3.0), nano(0.5), 1000);
    assert!(st.halted);
    cfg.grind_base = nano(5.0);
    let mut st = started(6.0);
    st.settle(&cfg, Outcome::Panic, nano(6.0), nano(1.0), 1000);
    assert!(!st.halted);
    let mut st = started(6.0);
    st.settle(&cfg, Outcome::Panic, nano(6.0), nano(0.99), 1000);
    assert!(st.halted);
    // A win does not lift it.
    st.settle(&cfg, Outcome::Win, nano(6.0), nano(6.5), 1000);
    assert!(st.halted);
}

#[test]
fn too_many_resets_stop_live_play_only() {
    let mut cfg = Config::default_for_tests();
    cfg.max_resets = 2;
    cfg.reset_window_s = 100;
    cfg.mode = "live".to_string();
    let mut st = started(1.0);
    st.settle(&cfg, Outcome::Loss, nano(1.0), 0, 1000);
    assert!(!st.halted);
    // The first reset is out of the window by now.
    st.settle(&cfg, Outcome::Loss, nano(1.0), 0, 1100);
    assert!(!st.halted);
    assert_eq!(st.reset_ts, vec![1100]);
    st.settle(&cfg, Outcome::Loss, nano(1.0), 0, 1199);
    assert!(st.halted);
    assert_eq!(st.reset_ts, vec![1100, 1199]);
    cfg.mode = "paper".to_string();
    let mut st = started(1.0);
    for now in 0..10 {
        st.settle(&cfg, Outcome::Loss, nano(1.0), 0, now);
    }
    assert!(!st.halted);
    assert_eq!(st.reset_ts.len(), 10);
}

#[test]
fn part_of_a_gain_is_put_aside() {
    let mut cfg = Config::default_for_tests();
    cfg.stack_skim_gain = nano(0.3);
    let mut st = started(10.0);
    st.settle(&cfg, Outcome::Win, nano(10.0), nano(11.0), 1000);
    assert_eq!(st.banked, nano(0.3));
    assert_eq!(st.stack, nano(10.7));
    assert_eq!(st.best_stack, nano(11.0));
    // Nothing is put aside of a sale near the end.
    st.settle(&cfg, Outcome::Secure, nano(10.7), nano(11.0), 1000);
    assert_eq!(st.banked, nano(0.3));
}

#[test]
fn the_stack_is_capped_in_simulation() {
    let mut cfg = Config::default_for_tests();
    cfg.stack_cap_fraction = nano(0.25);
    cfg.paper_wallet0 = nano(30.0);
    let mut st = started(10.0);
    st.settle(&cfg, Outcome::Win, nano(10.0), nano(12.0), 1000);
    // The wallet is 32 dollars, a quarter of which is 8.
    assert_eq!(st.stack, nano(8.0));
    assert_eq!(st.banked, nano(4.0));
    assert_eq!(st.stack + st.banked, nano(12.0));
    // A wallet that is gone caps nothing.
    cfg.paper_wallet0 = 0;
    let mut st = started(10.0);
    st.settle(&cfg, Outcome::Secure, nano(10.0), nano(5.0), 1000);
    assert_eq!(st.stack, nano(5.0));
}

#[test]
fn the_stack_is_capped_by_the_real_wallet() {
    let mut cfg = Config::default_for_tests();
    cfg.stack_cap_fraction = nano(0.5);
    let mut st = started(10.0);
    st.settle_live_cap(&cfg, nano(12.0));
    assert_eq!(st.stack, nano(6.0));
    assert_eq!(st.banked, nano(4.0));
    st.settle_live_cap(&cfg, nano(12.0));
    assert_eq!(st.stack, nano(6.0));
}

#[test]
fn outcomes_have_their_words() {
    assert_eq!(Outcome::Win.as_str(), "win");
    assert_eq!(Outcome::Loss.as_str(), "loss");
    assert_eq!(Outcome::Panic.as_str(), "panic");
    assert_eq!(Outcome::Secure.as_str(), "secure");
}
