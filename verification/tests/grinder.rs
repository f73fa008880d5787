use le_grinder::book::{Level, PolyBook};
use le_grinder::config::Config;
use le_grinder::fixed::NANO;
use le_grinder::grinder::closing::Closing;
use le_grinder::grinder::entry::{EntryScan, EntryStep};
use le_grinder::grinder::exits::ExitOrder;
use le_grinder::grinder::housekeeping::{Reconcile, ReconcileStep, Stage};
use le_grinder::grinder::wallet::WalletWindow;
use le_grinder::grinder::{check_start, Grinder, StartError, Wall};
use le_grinder::paper::Fill;
use le_grinder::position::{Market, Phase, Position, Reason};
use le_grinder::remote_guard::RemoteState;
use le_grinder::settle::Outcome;
use le_grinder::state::GrinderState;
use le_grinder::tokyo::GuardState;

fn nano(x: f64) -> i64 {
    (x * 1e9).round() as i64
}

fn log_ratio(spot: f64, strike: f64) -> i64 {
    ((spot / strike).ln() * 1e12) as i64
}

const WINDOW: i64 = 1_784_000_100;
const END: i64 = (WINDOW + 300) * 1000;

fn book(bids: &[(f64, f64)], asks: &[(f64, f64)]) -> PolyBook {
    PolyBook {
        bids: bids.iter().map(|&(p, s)| Level { price: nano(p), size: nano(s) }).collect(),
        asks: asks.iter().map(|&(p, s)| Level { price: nano(p), size: nano(s) }).collect(),
    }
}

fn market() -> Market {
    Market {
        slug: "btc-updown-5m-1784000100".to_string(),
        up_token_id: "111".to_string(),
        down_token_id: "222".to_string(),
        window_ts: WINDOW,
        end_ms: END,
    }
}

fn guard(ts_ms: i64, spot: f64) -> GuardState {
    GuardState {
        ts_ms: ts_ms as u64,
        spot: nano(spot),
        drift: 0,
        sigma: nano(0.5),
        obi: 0,
        velocity: 0,
        kill: false,
    }
}

/// A bot that has found its window, a hundred seconds before the end, with the
/// spot a hundred dollars over the strike.
fn ready(cfg: Config) -> (Grinder, i64) {
    let now = END - 100_000;
    let base = cfg.grind_base;
    let mut g = Grinder::new(cfg, GrinderState::fresh(base), Vec::new(), None, false);
    assert_eq!(g.on_market(Some(market())), Some(vec!["111".to_string(), "222".to_string()]));
    g.on_strike(Some(nano(60000.0)));
    g.guard.state = guard(now, 60100.0);
    (g, now)
}

fn scan(step: EntryStep) -> EntryScan {
    match step {
        EntryStep::FetchBook(s) => s,
        other => panic!("{:?}", other),
    }
}

fn position(g: &Grinder) -> Position {
    match &g.phase {
        Phase::InPosition(p) => p.clone(),
        Phase::Scanning => panic!("no position"),
    }
}

/// A bot that holds ten dollars of the favourite.
fn holding() -> (Grinder, i64) {
    let mut cfg = Config::default_for_tests();
    cfg.grind_base = nano(10.0);
    let (mut g, now) = ready(cfg);
    let l = log_ratio(60100.0, 60000.0);
    let s = scan(g.try_enter(now, l));
    let b = book(&[], &[(0.95, 100.0)]);
    let (s, z) = match g.entry_book(s, Some(&b)) {
        EntryStep::Buy(s, z) => (s, z),
        other => panic!("{:?}", other),
    };
    let fill = g.exec_buy(&b);
    assert!(matches!(g.entry_fill(s, z, Some(fill)), EntryStep::Done));
    (g, now)
}

#[test]
fn the_favourite_is_bought_with_the_whole_stack() {
    let (g, _) = holding();
    let p = position(&g);
    assert!(p.side_up);
    assert_eq!(p.token_id, "111");
    assert_eq!(p.cost, nano(10.0));
    assert_eq!(p.shares, nano(10.52));
    assert_eq!(p.entry_price, nano(0.95));
    // 0.07 * 0.95 * 0.05 * 10.52, which the rest of the stack does not cover.
    assert_eq!(p.entry_fees, nano(0.034979));
    assert_eq!(p.cash_left, 0);
    assert_eq!(p.remaining_s_at_entry, 100);
    assert_eq!(p.spot_at_entry, nano(60100.0));
    assert_eq!(p.strike, nano(60000.0));
    assert_eq!(p.end_ms, END);
    assert!(!p.ride);
    assert_eq!(g.last_played_window, WINDOW);
    let exact = (60100.0f64 / 60000.0).ln() / (0.5 / 31_536_000f64.sqrt() * 10.0);
    assert!((p.z_at_entry as f64 / 1e9 - exact).abs() < 1e-6);
    assert!(p.is_valid());
    assert_eq!((p.dir(), p.side_str()), (1, "up"));
}

#[test]
fn what_the_depth_leaves_is_kept() {
    let (mut g, now) = ready(Config::default_for_tests());
    let s = scan(g.try_enter(now, log_ratio(60100.0, 60000.0)));
    let b = book(&[], &[(0.95, 0.5)]);
    match g.entry_book(s, Some(&b)) {
        EntryStep::Buy(s, z) => {
            let fill = g.exec_buy(&b);
            g.entry_fill(s, z, Some(fill));
        }
        other => panic!("{:?}", other),
    }
    let p = position(&g);
    assert_eq!(p.cash_left, nano(1.0) - nano(0.475) - p.entry_fees);
    assert_eq!(p.cost, nano(1.0));
}

#[test]
fn the_other_side_is_looked_at_second() {
    let (mut g, now) = ready(Config::default_for_tests());
    g.guard.state = guard(now, 59900.0);
    let l = log_ratio(59900.0, 60000.0);
    let s = scan(g.try_enter(now, l));
    assert!(s.side_up);
    let s = scan(g.entry_book(s, Some(&book(&[], &[(0.05, 100.0)]))));
    assert!(!s.side_up);
    let b = book(&[], &[(0.96, 100.0)]);
    match g.entry_book(s, Some(&b)) {
        EntryStep::Buy(s, z) => {
            assert!(z > g.cfg.z_entry);
            let fill = g.exec_buy(&b);
            g.entry_fill(s, z, Some(fill));
        }
        other => panic!("{:?}", other),
    }
    let p = position(&g);
    assert!(!p.side_up);
    assert_eq!(p.token_id, "222");
    assert_eq!((p.dir(), p.side_str()), (-1, "down"));
}

#[test]
fn without_a_side_in_the_band_nothing_is_bought() {
    let (mut g, now) = ready(Config::default_for_tests());
    let s = scan(g.try_enter(now, 0));
    let s = scan(g.entry_book(s, None));
    assert!(matches!(g.entry_book(s, Some(&book(&[], &[]))), EntryStep::Done));
    assert_eq!(g.dash.last_block_reason, "aucun côté dans [0.95, 0.99]");
}

#[test]
fn the_guard_must_confirm_the_market() {
    let (mut g, now) = ready(Config::default_for_tests());
    // Twenty dollars over the strike is not enough of a margin.
    g.guard.state = guard(now, 60020.0);
    let l = log_ratio(60020.0, 60000.0);
    let s = scan(g.try_enter(now, l));
    let s = scan(g.entry_book(s, Some(&book(&[], &[(0.95, 100.0)]))));
    assert_eq!(g.dash.last_block_reason, "z insuffisant (0.37 < 1.5)");
    assert!(s.any_in_band && !s.side_up);
    // The reason stays though the other side is not in the band.
    assert!(matches!(g.entry_book(s, Some(&book(&[], &[(0.05, 100.0)]))), EntryStep::Done));
    assert_eq!(g.dash.last_block_reason, "z insuffisant (0.37 < 1.5)");
}

#[test]
fn nothing_is_bought_against_the_drift() {
    let (mut g, now) = ready(Config::default_for_tests());
    g.guard.state.drift = -30_000_001;
    let l = log_ratio(60100.0, 60000.0);
    let s = scan(g.try_enter(now, l));
    g.entry_book(s, Some(&book(&[], &[(0.95, 100.0)])));
    assert_eq!(g.dash.last_block_reason, "drift à contre-sens");
    g.guard.state.drift = -30_000_000;
    let s = scan(g.try_enter(now, l));
    assert!(matches!(g.entry_book(s, Some(&book(&[], &[(0.95, 100.0)]))), EntryStep::Buy(_, _)));
}

#[test]
fn an_order_that_obtains_nothing_is_no_entry() {
    let (mut g, now) = ready(Config::default_for_tests());
    let l = log_ratio(60100.0, 60000.0);
    let b = book(&[], &[(0.95, 100.0)]);
    let s = scan(g.try_enter(now, l));
    let (s, z) = match g.entry_book(s, Some(&b)) {
        EntryStep::Buy(s, z) => (s, z),
        other => panic!("{:?}", other),
    };
    let next = scan(g.entry_fill(s, z, Some(Fill::none())));
    assert!(!next.side_up && next.any_in_band);
    assert_eq!(g.dash.last_block_reason, "profondeur ask insuffisante (ou dry-run live)");
    assert!(matches!(g.phase, Phase::Scanning));
    // An order that failed is passed over without a word.
    g.dash.last_block_reason.clear();
    assert!(matches!(g.entry_fill(next, z, None), EntryStep::Done));
    assert_eq!(g.dash.last_block_reason, "");
}

#[test]
fn what_keeps_a_search_from_beginning() {
    let l = log_ratio(60100.0, 60000.0);
    let (mut g, now) = ready(Config::default_for_tests());
    g.st.halted = true;
    assert!(matches!(g.try_enter(now, l), EntryStep::Done));
    assert_eq!(
        g.dash.last_block_reason,
        "HALTED après wipe — relance manuelle requise (state.halted)"
    );
    let (mut g, now) = ready(Config::default_for_tests());
    g.strike = None;
    assert!(matches!(g.try_enter(now, l), EntryStep::Done));
    assert_eq!(g.dash.last_block_reason, "strike indisponible");
    let (mut g, now) = ready(Config::default_for_tests());
    g.guard.state.ts_ms -= 3000;
    assert!(matches!(g.try_enter(now, l), EntryStep::Done));
    assert_eq!(g.dash.last_block_reason, "garde Tokyo aveugle (flux Binance périmé)");
    let (mut g, now) = ready(Config::default_for_tests());
    g.guard.state.kill = true;
    assert!(matches!(g.try_enter(now, l), EntryStep::Done));
    assert_eq!(g.dash.last_block_reason, "KILL radar actif");
    // No reason is given for a window that is played, or too early, or too late.
    for now in [END - 241_000, END - 14_999, END] {
        let (mut g, _) = ready(Config::default_for_tests());
        g.guard.state.ts_ms = now as u64;
        assert!(matches!(g.try_enter(now, l), EntryStep::Done));
        assert_eq!(g.dash.last_block_reason, "");
    }
    let (mut g, now) = ready(Config::default_for_tests());
    g.market = None;
    assert!(matches!(g.try_enter(now, l), EntryStep::Done));
}

#[test]
fn a_window_is_entered_once_and_one_position_is_held() {
    let (mut g, now) = holding();
    let l = log_ratio(60100.0, 60000.0);
    assert!(matches!(g.try_enter(now, l), EntryStep::Done));
    let order = ExitOrder { reason: Reason::ZFloor, z: 0, gs: guard(now, 60100.0) };
    let fill = g.exec_sell(Some(&book(&[(0.5, 1000.0)], &[])), nano(10.52));
    assert!(g.panic_exit(order, fill, WINDOW).is_some());
    assert!(matches!(g.phase, Phase::Scanning));
    assert!(matches!(g.try_enter(now, l), EntryStep::Done));
}

#[test]
fn the_guard_sells_for_its_reasons() {
    let (mut g, _) = holding();
    let now = END - 90_000;
    let l = log_ratio(60100.0, 60000.0);
    let calm = guard(now, 60100.0);
    assert_eq!(g.check_exits(calm, now, l), None);
    let kill = GuardState { kill: true, ..calm };
    assert_eq!(g.check_exits(kill, now, l).unwrap().reason, Reason::RadarKill);
    let near = guard(now, 60010.0);
    let near_l = log_ratio(60010.0, 60000.0);
    assert_eq!(g.check_exits(near, now, near_l).unwrap().reason, Reason::ZFloor);
    g.cfg.dist_exit_usd = nano(15.0);
    assert_eq!(g.check_exits(near, now, near_l).unwrap().reason, Reason::DistFloor);
    let adverse = GuardState { drift: -30_000_001, ..calm };
    let order = g.check_exits(adverse, now, l).unwrap();
    assert_eq!(order.reason, Reason::DriftAgainst);
    assert_eq!(order.gs, adverse);
    assert_eq!(order.z, calm.margin_z(nano(60000.0), 1, 90_000, l));
}

#[test]
fn a_brush_with_the_strike_is_tolerated() {
    let (mut g, _) = holding();
    g.cfg.dist_exit_usd = nano(30.0);
    // Twenty dollars from the strike, ten seconds before the end.
    let now = END - 10_000;
    let l = log_ratio(60020.0, 60000.0);
    let gs = guard(now, 60020.0);
    assert!(gs.margin_z(nano(60000.0), 1, 10_000, l) > nano(1.0));
    assert_eq!(g.check_exits(gs, now, l), None);
}

#[test]
fn nothing_is_sold_right_after_the_entry_or_after_the_end() {
    let (g, entered) = holding();
    let kill = GuardState { kill: true, ..guard(entered, 60100.0) };
    assert_eq!(g.check_exits(kill, entered + 2_999, 0), None);
    assert!(g.check_exits(kill, entered + 3_000, 0).is_some());
    assert_eq!(g.check_exits(kill, END, 0), None);
    assert!(g.check_exits(kill, END - 1, 0).is_some());
}

#[test]
fn under_the_floor_the_position_is_held_to_the_end() {
    let (mut g, _) = holding();
    g.cfg.panic_floor = nano(0.2);
    g.cfg.guard_stale_exit_s = 5;
    g.cfg.secure_wall_usdc = nano(1e6);
    g.cfg.secure_last_s = 60;
    let now = END - 20_000;
    g.last_wall = Some(Wall { ts_ms: now, usdc: 0 });
    assert!(g.wants_to_secure(now));
    assert!(g.stale_exit(now, 0).is_some());
    assert!(g.confirm_exit(None));
    assert!(g.confirm_exit(Some(&book(&[], &[]))));
    assert!(g.confirm_exit(Some(&book(&[(0.2, 1.0)], &[]))));
    assert!(!g.confirm_exit(Some(&book(&[(0.19, 1.0)], &[]))));
    assert!(position(&g).ride);
    let kill = GuardState { kill: true, ..guard(now, 60100.0) };
    assert_eq!(g.check_exits(kill, now, 0), None);
    assert_eq!(g.stale_exit(now, 0), None);
    assert!(!g.wants_to_secure(now));
}

#[test]
fn an_emergency_sale_closes_the_window() {
    let (mut g, now) = holding();
    let p = position(&g);
    let order = ExitOrder { reason: Reason::RadarKill, z: nano(0.3), gs: guard(now, 60050.0) };
    // Nothing sold: the position stays.
    assert!(g.panic_exit(order, Fill::none(), WINDOW).is_none());
    assert!(matches!(g.phase, Phase::InPosition(_)));
    assert_eq!(g.st.panic_exits, 0);
    // Half of the bids are there: 10 shares at 0.9 and 0.52 at 0.5.
    let fill = g.exec_sell(Some(&book(&[(0.9, 20.0), (0.5, 20.0)], &[])), p.shares);
    assert_eq!(fill.shares, nano(10.52));
    assert_eq!(fill.notional, nano(9.26));
    let c = g.panic_exit(order, fill, WINDOW).unwrap();
    assert_eq!(c.outcome, Outcome::Panic);
    assert_eq!(c.reason, Reason::RadarKill);
    assert_eq!(c.proceeds, fill.notional - fill.fees);
    assert_eq!(c.exit_fees, fill.fees);
    assert_eq!(g.st.panic_exits, 1);
    assert_eq!(g.st.windows_played, 1);
    // Less than the base of ten dollars was saved.
    assert_eq!(g.st.run_id, 2);
    assert_eq!(g.st.realized_pnl, c.proceeds - nano(10.0));
}

#[test]
fn an_unreadable_book_sells_nothing() {
    let (g, _) = holding();
    assert_eq!(g.exec_sell(None, nano(10.0)), Fill::none());
}

#[test]
fn a_blind_guard_sells() {
    let (mut g, seen) = holding();
    assert_eq!(g.stale_exit(seen + 2_999, 0), None);
    let order = g.stale_exit(seen + 3_000, 0).unwrap();
    assert_eq!(order.reason, Reason::GuardStale);
    assert_eq!(g.housekeeping(Stage::Start, seen + 3_000, WINDOW), Stage::Stale);
    assert_eq!(g.stale_exit(END, 0), None);
    // A limit of its own for positions can only be tighter.
    g.cfg.guard_stale_exit_s = 2;
    assert_eq!(g.stale_exit(seen + 1_999, 0), None);
    assert!(g.stale_exit(seen + 2_000, 0).is_some());
    g.cfg.guard_stale_exit_s = 50;
    assert!(g.stale_exit(seen + 3_000, 0).is_some());
}

#[test]
fn the_close_of_the_candle_decides() {
    let (mut g, _) = holding();
    assert!(g.on_close(Some(nano(60001.0)), END + 2_999, WINDOW, 0).is_none());
    assert!(g.on_close(None, END + 89_999, WINDOW, 0).is_none());
    assert!(matches!(g.phase, Phase::InPosition(_)));
    let c = g.on_close(Some(nano(60000.01)), END + 3_000, WINDOW, 0).unwrap();
    assert_eq!(c.outcome, Outcome::Win);
    assert_eq!(c.reason, Reason::ResolutionKline);
    assert_eq!(c.proceeds, nano(10.52));
    assert!(c.booked_up_won());
    assert_eq!(g.st.wins, 1);
    assert_eq!(g.st.losses, 0);
    assert_eq!(g.st.stack, nano(10.52));
    assert_eq!(g.st.streak, 1);
    assert!(matches!(g.phase, Phase::Scanning));
}

#[test]
fn the_spot_decides_after_ninety_seconds() {
    let (mut g, _) = holding();
    let c = g.on_close(None, END + 90_000, WINDOW, 0).unwrap();
    assert_eq!(c.reason, Reason::ResolutionProxy);
    assert_eq!(c.outcome, Outcome::Win);
    assert_eq!(c.spot_exit, nano(60100.0));
    let (mut g, _) = holding();
    g.guard.state.spot = nano(59999.0);
    let c = g.on_close(None, END + 90_000, WINDOW, 0).unwrap();
    assert_eq!(c.outcome, Outcome::Loss);
    assert_eq!(g.st.losses, 1);
    assert_eq!(g.st.stack, nano(10.0));
    assert!(!c.booked_up_won());
}

#[test]
fn a_tie_loses_on_either_side() {
    let (mut g, _) = holding();
    let c = g.on_close(Some(nano(60000.0)), END + 3_000, WINDOW, 0).unwrap();
    assert_eq!(c.outcome, Outcome::Loss);
    assert_eq!(c.proceeds, 0);
    assert!(!c.booked_up_won());
    let (mut g, _) = holding();
    let mut p = position(&g);
    p.side_up = false;
    g.phase = Phase::InPosition(p);
    let c = g.on_close(Some(nano(60000.0)), END + 3_000, WINDOW, 0).unwrap();
    assert_eq!(c.outcome, Outcome::Loss);
    assert!(c.booked_up_won());
}

#[test]
fn a_close_is_recorded() {
    let (mut g, _) = holding();
    g.guard.state.drift = 5;
    let c: Closing = g.on_close(Some(nano(60001.0)), END + 3_000, WINDOW, 7).unwrap();
    let rec = g.record(&c, 1_784_000_403, 500_000_000);
    assert_eq!(rec.ts, "2026-07-14T03:40:03.500+00:00");
    assert_eq!(rec.slug, "btc-updown-5m-1784000100");
    assert_eq!(rec.side, "up");
    assert_eq!(rec.outcome, "win");
    assert_eq!(rec.reason, "resolution_kline");
    assert_eq!(rec.cost, nano(10.0));
    assert_eq!(rec.pnl, nano(0.52));
    assert_eq!(rec.fees, c.pos.entry_fees);
    assert_eq!(rec.stack_after, nano(10.52));
    assert_eq!(rec.streak_after, 1);
    assert_eq!(rec.dist_at_entry, nano(100.0));
    assert_eq!(rec.drift_at_exit, 5);
    assert_eq!(rec.spot_at_exit, nano(60100.0));
    assert!(rec.is_valid());
    assert_eq!(g.dash.windows.len(), 1);
    assert_eq!(g.dash.windows[0].ts, rec.ts);
    // An instant outside the calendar has no text.
    assert_eq!(g.record(&c, i64::MAX, 0).ts, "");
    assert_eq!(c.window_record("when".to_string(), &g.st).ts, "when");
}

#[test]
fn reasons_have_their_words() {
    let words = [
        (Reason::RadarKill, "radar_kill"),
        (Reason::DistFloor, "dist_floor"),
        (Reason::ZFloor, "z_floor"),
        (Reason::DriftAgainst, "drift_against"),
        (Reason::GuardStale, "guard_stale"),
        (Reason::ResolutionKline, "resolution_kline"),
        (Reason::ResolutionProxy, "resolution_proxy"),
        (Reason::SecureWall, "secure_wall"),
    ];
    for (r, w) in words {
        assert_eq!(r.as_str(), w);
    }
}

#[test]
fn a_thin_wall_near_the_end_is_cashed_in() {
    let (mut g, _) = holding();
    g.cfg.secure_wall_usdc = nano(50_000.0);
    g.cfg.secure_last_s = 30;
    g.cfg.secure_min_price = nano(0.9);
    let now = END - 20_000;
    let q = g.record_wall(now).unwrap();
    assert_eq!((q.low, q.high, q.use_asks), (nano(60000.0), nano(60100.0), false));
    assert_eq!(g.record_wall(now + 1_999), None);
    assert_eq!(g.on_wall(&q, nano(40_000.0)), nano(400.0) as i128);
    assert!(g.wants_to_secure(now));
    assert!(g.wants_to_secure(now + 5_999));
    assert!(!g.wants_to_secure(now + 6_000));
    assert!(!g.can_secure(None));
    assert!(!g.can_secure(Some(&book(&[(0.89, 10.0)], &[]))));
    let b = book(&[(0.9, 100.0)], &[]);
    assert!(g.can_secure(Some(&b)));
    assert!(g.secure_exit(Fill::none(), now, WINDOW, 0).is_none());
    let fill = g.exec_sell(Some(&b), nano(10.52));
    let c = g.secure_exit(fill, now, WINDOW, 0).unwrap();
    assert_eq!(c.outcome, Outcome::Secure);
    assert_eq!(c.reason, Reason::SecureWall);
    assert_eq!(c.proceeds, fill.notional - fill.fees);
    assert_eq!(g.st.stack, c.proceeds);
    assert_eq!((g.st.wins, g.st.losses, g.st.panic_exits), (0, 0, 0));
}

#[test]
fn a_thick_or_far_wall_is_left_alone() {
    let (mut g, _) = holding();
    g.cfg.secure_wall_usdc = nano(50_000.0);
    g.cfg.secure_last_s = 30;
    let thick = Wall { ts_ms: END - 20_000, usdc: nano(50_000.0) };
    g.last_wall = Some(thick);
    assert!(!g.wants_to_secure(END - 20_000));
    g.last_wall = Some(Wall { ts_ms: END - 31_000, usdc: 0 });
    assert!(!g.wants_to_secure(END - 31_000));
    assert!(g.wants_to_secure(END - 30_000));
    g.last_wall = Some(Wall { ts_ms: END - 4_000, usdc: 0 });
    assert!(g.wants_to_secure(END - 4_000));
    assert!(!g.wants_to_secure(END - 3_999));
    // A wall at the strike is measured over a cent.
    let q = g.record_wall(END - 1).unwrap();
    let q = le_grinder::grinder::exits::WallQuery { spot: q.strike, ..q };
    assert_eq!(g.on_wall(&q, NANO), 100 * NANO as i128);
}

#[test]
fn the_slow_loop_goes_in_order() {
    let (mut g, now) = ready(Config::default_for_tests());
    let now_s = now / 1000;
    // Nothing is due but an entry and the dashboard.
    assert_eq!(g.housekeeping(Stage::Start, now, now_s), Stage::Enter);
    assert_eq!(g.housekeeping(Stage::Enter, now, now_s), Stage::Publish);
    assert_eq!(g.housekeeping(Stage::Publish, now, now_s), Stage::Start);
    g.strike = None;
    assert_eq!(g.housekeeping(Stage::Start, now, now_s), Stage::Strike);
    assert_eq!(g.housekeeping(Stage::Start, now, WINDOW - 1), Stage::Enter);
    g.market = None;
    g.reconcile_halt = true;
    assert_eq!(g.housekeeping(Stage::Start, now, now_s), Stage::Reconcile);
    assert_eq!(g.housekeeping(Stage::Reconcile, now, now_s), Stage::Market);
    let (mut g, _) = holding();
    g.cfg.guard_stale_exit_s = 1;
    g.cfg.secure_wall_usdc = 1;
    g.cfg.secure_last_s = 100;
    g.last_wall = Some(Wall { ts_ms: END - 50_000, usdc: 0 });
    let now = END - 50_000;
    assert_eq!(g.housekeeping(Stage::Start, now, now / 1000), Stage::Stale);
    assert_eq!(g.housekeeping(Stage::Stale, now, now / 1000), Stage::Wall);
    assert_eq!(g.housekeeping(Stage::Wall, now, now / 1000), Stage::Secure);
    assert_eq!(g.housekeeping(Stage::Secure, now, now / 1000), Stage::Publish);
    let late = END + 3_000;
    assert_eq!(g.housekeeping(Stage::Start, late, late / 1000), Stage::Resolve);
    assert_eq!(g.housekeeping(Stage::Secure, late, late / 1000), Stage::Market);
}

#[test]
fn a_contradicted_resolution_stops_live_play_only() {
    let (mut g, _) = ready(Config::default_for_tests());
    g.reconcile_halt = true;
    assert!(!g.on_reconcile());
    assert!(!g.st.halted && !g.reconcile_halt);
    g.cfg.mode = "live".to_string();
    assert!(!g.on_reconcile());
    assert!(!g.st.halted);
    g.reconcile_halt = true;
    assert!(g.on_reconcile());
    assert!(g.st.halted && !g.reconcile_halt);
}

#[test]
fn the_official_verdict_is_waited_for() {
    let mut r = Reconcile::new("slug".to_string(), true);
    for _ in 0..39 {
        assert_eq!(r.on_verdict(None), ReconcileStep::Wait);
    }
    assert_eq!(r.on_verdict(None), ReconcileStep::GivenUp);
    let mut r = Reconcile::new("slug".to_string(), true);
    assert_eq!(r.on_verdict(None), ReconcileStep::Wait);
    assert_eq!(r.on_verdict(Some(true)), ReconcileStep::Confirmed);
    let mut r = Reconcile::new("slug".to_string(), true);
    assert_eq!(r.on_verdict(Some(false)), ReconcileStep::Diverged);
}

#[test]
fn a_window_that_is_found_resets_the_strike() {
    let (mut g, now) = ready(Config::default_for_tests());
    assert!(g.strike.is_some());
    assert_eq!(g.on_market(None), None);
    assert!(g.strike.is_some());
    assert!(g.on_market(Some(market())).is_some());
    assert_eq!(g.strike, None);
    g.on_strike(None);
    assert_eq!(g.strike, None);
    assert_eq!(g.market.as_ref().unwrap().time_remaining_sec(now), 100);
    assert_eq!(g.market.as_ref().unwrap().time_remaining_sec(END + 1_500), -1);
}

#[test]
fn the_remote_radar_speaks_while_it_is_fresh() {
    let mut cfg = Config::default_for_tests();
    cfg.remote_max_age_ms = 1_000;
    let (mut g, now) = ready(cfg);
    assert_eq!(g.guard_now(now), guard(now, 60100.0));
    let mut r = RemoteState::new();
    r.ts_ms_local = now as u64 - 999;
    r.spot = nano(60200.0);
    r.sigma = nano(0.9);
    r.kill_until_ms = now as u64 + 1;
    g.remote = Some(r);
    let gs = g.guard_now(now);
    assert_eq!(gs.spot, nano(60200.0));
    assert_eq!(gs.sigma, nano(0.5));
    assert!(gs.kill);
    assert!(!g.guard_now(now + 1).kill);
    // Past its age, the local guard speaks.
    assert_eq!(g.guard_now(now + 1), guard(now, 60100.0));
    // The local alarm is heard too.
    g.guard.state.kill = true;
    g.remote = Some(RemoteState { kill_until_ms: 0, ..r });
    assert!(g.guard_now(now).kill);
}

#[test]
fn ticks_are_kept_while_a_position_is_open() {
    let (mut g, now) = ready(Config::default_for_tests());
    g.remote = Some(RemoteState::new());
    assert!(g.record_tick().is_none());
    let (mut g, _) = holding();
    assert!(g.record_tick().is_none());
    g.remote = Some(RemoteState {
        ts_ms_local: now as u64,
        spot: 5,
        ofi: 0.5f64.to_bits(),
        kill_until_ms: now as u64 + 1,
        ..RemoteState::new()
    });
    let t = g.record_tick().unwrap();
    assert_eq!((t.ts_ms, t.window_ts, t.side.as_str()), (now as u64, WINDOW, "up"));
    assert_eq!((t.spot, f64::from_bits(t.ofi), t.kill), (5, 0.5, true));
}

#[test]
fn the_dashboard_shows_the_bot() {
    let (mut g, now) = holding();
    let up = book(&[], &[(0.97, 1.0), (0.96, 1.0)]);
    let l = log_ratio(60100.0, 60000.0);
    g.publish_dash(now + 500, Some(&up), None, None, l);
    let d = &g.dash;
    assert!(d.binance_connected);
    assert_eq!(d.guard_age_ms, 500);
    assert_eq!(d.spot, nano(60100.0));
    assert_eq!(d.market_slug, "btc-updown-5m-1784000100");
    assert_eq!(d.remaining_s, 99);
    assert_eq!(d.strike, nano(60000.0));
    assert_eq!((d.up_ask, d.down_ask), (nano(0.96), 0));
    assert_eq!((d.phase.as_str(), d.mode.as_str()), ("in_position", "paper"));
    assert_eq!((d.pos_side.as_str(), d.pos_shares, d.pos_cost), ("up", nano(10.52), nano(10.0)));
    assert_eq!(d.pos_entry_price, nano(0.95));
    assert_eq!(d.pos_z, guard(now, 60100.0).margin_z(nano(60000.0), 1, 99_500, l));
    assert_eq!(d.stack, nano(10.0));
    g.phase = Phase::Scanning;
    g.publish_dash(now + 4_000, None, None, Some(false), 0);
    assert!(!g.dash.binance_connected);
    assert_eq!((g.dash.phase.as_str(), g.dash.mode.as_str()), ("scanning", "live (dry-run)"));
    assert_eq!((g.dash.pos_side.as_str(), g.dash.pos_shares, g.dash.pos_z), ("", 0, 0));
    assert_eq!((g.dash.up_ask, g.dash.down_ask), (0, 0));
    g.dash.up_ask = 7;
    g.market = None;
    g.strike = None;
    g.publish_dash(now, None, None, Some(true), 0);
    assert_eq!((g.dash.phase.as_str(), g.dash.mode.as_str()), ("waiting_market", "live"));
    assert_eq!((g.dash.market_slug.as_str(), g.dash.remaining_s, g.dash.strike), ("", 0, 0));
    assert_eq!(g.dash.up_ask, 7);
}

#[test]
fn the_bot_starts_from_what_it_remembers() {
    let cfg = Config::default_for_tests();
    let g = Grinder::new(cfg, GrinderState::fresh(nano(5.0)), Vec::new(), Some(nano(3.0)), true);
    assert_eq!(g.st.stack, nano(3.0));
    assert_eq!(g.st.best_stack, nano(5.0));
    assert_eq!(g.dash.stack, nano(3.0));
    assert_eq!(g.dash.phase, "waiting_market");
    assert_eq!(g.remote, Some(RemoteState::new()));
    let cfg = Config::default_for_tests();
    let g = Grinder::new(cfg, GrinderState::fresh(nano(5.0)), Vec::new(), Some(nano(9.0)), false);
    assert_eq!(g.st.stack, nano(5.0));
    assert_eq!(g.remote, None);
}

#[test]
fn live_play_needs_its_program_and_its_base() {
    let mut cfg = Config::default_for_tests();
    assert_eq!(check_start(&cfg, false, None), Ok(()));
    cfg.mode = "live".to_string();
    let e = check_start(&cfg, false, None).unwrap_err();
    assert_eq!(e, StartError::LiveNotBuilt);
    assert_eq!(e.message(), "TRADING_MODE=live mais binaire compilé SANS --features live");
    let e = check_start(&cfg, true, Some(nano(0.5))).unwrap_err();
    assert_eq!(e.message(), "collatéral 0.50$ < mise de base 1$ — dépôt requis");
    assert_eq!(check_start(&cfg, true, Some(nano(1.0))), Ok(()));
}

#[test]
fn the_wallet_is_the_highest_of_the_last_readings() {
    let mut w = WalletWindow::new();
    assert_eq!(w.on_balance(0), None);
    assert_eq!(w.on_balance(50), Some(50));
    for _ in 0..8 {
        assert_eq!(w.on_balance(40), Some(50));
    }
    assert_eq!(w.on_balance(-1), None);
    assert_eq!(w.on_balance(40), Some(40));
    assert_eq!(w.readings.len(), 9);
}

#[test]
fn the_real_wallet_caps_the_stack() {
    let (mut g, _) = ready(Config::default_for_tests());
    g.st.stack = nano(30.0);
    g.cfg.stack_cap_fraction = nano(0.5);
    // Not in simulation, and not on a reading of nothing.
    g.apply_live_cap(nano(10.0), nano(20.0));
    assert_eq!(g.st.stack, nano(30.0));
    g.cfg.mode = "live".to_string();
    g.apply_live_cap(nano(10.0), 0);
    assert_eq!(g.st.stack, nano(30.0));
    g.apply_live_cap(nano(10.0), nano(40.0));
    assert_eq!(g.st.stack, nano(25.0));
    assert_eq!(g.st.banked, nano(5.0));
    assert_eq!(g.dash.live_collateral, nano(50.0));
    // A lower reading is not believed at once.
    g.apply_live_cap(0, nano(20.0));
    assert_eq!(g.st.stack, nano(25.0));
    g.apply_live_cap(0, nano(20.0));
    g.apply_live_cap(0, nano(20.0));
    assert_eq!(g.wallet_evals, vec![nano(20.0); 3]);
    assert_eq!(g.st.stack, nano(10.0));
    assert_eq!(g.st.stack + g.st.banked, nano(30.0));
}

#[test]
fn a_win_at_ninety_five_cents_gains_a_nineteenth() {
    let mut cfg = Config::default_for_tests();
    cfg.grind_base = nano(95.0);
    cfg.taker_fee_rate = 0;
    let (mut g, now) = ready(cfg);
    let s = scan(g.try_enter(now, log_ratio(60100.0, 60000.0)));
    let b = book(&[], &[(0.95, 1000.0)]);
    if let EntryStep::Buy(s, z) = g.entry_book(s, Some(&b)) {
        let fill = g.exec_buy(&b);
        g.entry_fill(s, z, Some(fill));
    }
    let c = g.on_close(Some(nano(60001.0)), END + 3_000, WINDOW, 0).unwrap();
    assert_eq!(c.proceeds, nano(100.0));
    assert_eq!(g.st.stack, nano(100.0));
    // 5.26 % before fees.
    assert_eq!(g.st.realized_pnl * 10_000 / nano(95.0), 526);
}

#[test]
fn a_reading_of_the_wallet_is_shown() {
    let (mut g, _) = ready(Config::default_for_tests());
    g.on_wallet(nano(46.0));
    assert_eq!((g.wallet_live, g.dash.live_collateral), (nano(46.0), nano(46.0)));
}

#[test]
fn the_wallet_is_estimated() {
    let mut cfg = Config::default_for_tests();
    cfg.paper_wallet0 = nano(50.0);
    let (mut g, _) = ready(cfg);
    g.st.realized_pnl = nano(-10.0);
    assert_eq!(g.wallet_estimate(), nano(40.0));
    g.st.realized_pnl = nano(-60.0);
    assert_eq!(g.wallet_estimate(), 0);
    g.on_wallet(nano(7.0));
    assert_eq!(g.wallet_estimate(), nano(7.0));
    g.on_wallet(0);
    g.cfg.mode = "live".to_string();
    assert_eq!(g.wallet_estimate(), 0);
}
