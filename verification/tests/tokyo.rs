use le_grinder::config::Config;
use le_grinder::fixed::NANO;
use le_grinder::tokyo::{GuardState, TokyoGuard};
use le_grinder::types::{BinanceOrderBook, BookUpdate};

fn nano(x: f64) -> i64 {
    (x * 1e9).round() as i64
}

fn log_ratio(spot: f64, strike: f64) -> i64 {
    ((spot / strike).ln() * 1e12) as i64
}

fn quiet() -> GuardState {
    GuardState { ts_ms: 0, spot: 0, drift: 0, sigma: 0, obi: 0, velocity: 0, kill: false }
}

fn update(ts_ms: u64, bid: (f64, f64), ask: (f64, f64)) -> BookUpdate {
    let mut book = BinanceOrderBook::new();
    book.set_bid(nano(bid.0), nano(bid.1));
    book.set_ask(nano(ask.0), nano(ask.1));
    BookUpdate { book, ts_ms }
}

#[test]
fn margin_z_sign_follows_side() {
    let s = GuardState { spot: nano(60100.0), sigma: nano(0.5), ts_ms: 1, ..quiet() };
    let l = log_ratio(60100.0, 60000.0);
    assert!(s.margin_z(nano(60000.0), 1, 60_000, l) > 0);
    assert!(s.margin_z(nano(60000.0), -1, 60_000, l) < 0);
}

#[test]
fn kill_latches_for_configured_duration() {
    let cfg = Config::default_for_tests();
    let mut g = TokyoGuard::new(&cfg);
    g.update(&update(0, (100000.0, 10.0), (100001.0, 10.0)), 0, 0);
    g.update(&update(500, (99000.0, 1.0), (99001.0, 99.0)), 0, 0);
    let st = g.update(&update(600, (98900.0, 1.0), (98901.0, 99.0)), 0, 0);
    assert!(st.kill, "kill doit être actif pendant le crash");
    let st = g.update(&update(600 + cfg.kill_latch_ms - 1, (98900.0, 10.0), (98901.0, 10.0)), 0, 0);
    assert!(st.kill, "kill doit rester latché");
    let st = g.update(&update(700 + cfg.kill_latch_ms, (98900.0, 10.0), (98901.0, 10.0)), 0, 0);
    assert!(!st.kill, "kill doit être relâché après le latch");
}

#[test]
fn the_margin_counts_expected_moves() {
    // With a volatility of 0.5 a year, one second moves the price by
    // 0.5 / sqrt(31 536 000), and a hundred seconds by ten times that.
    let s = GuardState { spot: nano(60100.0), sigma: nano(0.5), ts_ms: 1, ..quiet() };
    assert_eq!(s.sigma_per_sec(), 89_036_217);
    let l = log_ratio(60100.0, 60000.0);
    let exact = (60100.0f64 / 60000.0).ln() / (0.5 / 31_536_000f64.sqrt() * 10.0);
    let z = s.margin_z(nano(60000.0), 1, 100_000, l);
    assert!((z as f64 / 1e9 - exact).abs() < 1e-6, "{} {}", z, exact);
    // Less than a second counts as one.
    assert_eq!(s.margin_z(nano(60000.0), 1, 0, l), s.margin_z(nano(60000.0), 1, 1000, l));
}

#[test]
fn there_is_no_margin_without_prices_or_volatility() {
    let s = GuardState { spot: nano(60100.0), sigma: 0, ts_ms: 1, ..quiet() };
    assert_eq!(s.margin_z(nano(60000.0), 1, 60_000, 1_000_000), 0);
    let s = GuardState { spot: 0, sigma: nano(0.5), ts_ms: 1, ..quiet() };
    assert_eq!(s.margin_z(nano(60000.0), 1, 60_000, 1_000_000), 0);
    let s = GuardState { spot: nano(60100.0), sigma: nano(0.5), ts_ms: 1, ..quiet() };
    assert_eq!(s.margin_z(0, 1, 60_000, 1_000_000), 0);
}

#[test]
fn a_guard_that_saw_nothing_is_not_fresh() {
    assert!(!quiet().is_fresh(0, 3000));
    let s = GuardState { ts_ms: 1000, ..quiet() };
    assert!(s.is_fresh(3999, 3000));
    assert!(!s.is_fresh(4000, 3000));
    assert!(s.is_fresh(500, 3000));
    assert!(!s.is_fresh(500, 0));
}

#[test]
fn the_guard_publishes_what_it_sees() {
    let cfg = Config::default_for_tests();
    let mut g = TokyoGuard::new(&cfg);
    let st = g.update(&update(1000, (100.0, 30.0), (102.0, 10.0)), 7, nano(0.4));
    assert_eq!(st.ts_ms, 1000);
    // The thin side of the book draws the price: 100 * 10 + 102 * 30 over 40.
    assert_eq!(st.spot, nano(101.5));
    assert_eq!(st.obi, NANO / 2);
    assert_eq!(st.drift, 7);
    assert_eq!(st.sigma, nano(0.4));
    assert_eq!(st.velocity, 0);
    assert!(!st.kill);
    assert_eq!(g.state(), st);
    // Without asks there is no micro-price, and the last spot stays.
    let mut book = BinanceOrderBook::new();
    book.set_bid(nano(50.0), nano(1.0));
    let st = g.update(&BookUpdate { book, ts_ms: 1100 }, 0, 0);
    assert_eq!(st.spot, nano(101.5));
    assert_eq!(st.obi, NANO);
}

#[test]
fn guard_states_are_checked() {
    assert!(quiet().is_valid());
    assert!(!GuardState { sigma: -1, ..quiet() }.is_valid());
    assert!(!GuardState { spot: i64::MAX, ..quiet() }.is_valid());
}

#[test]
fn a_margin_keeps_its_sign_and_halves_with_four_times_the_time() {
    let s = GuardState { spot: nano(60000.1), sigma: nano(0.5), ts_ms: 1, ..quiet() };
    // However small the move and however long the time, there is a margin.
    assert_eq!(s.margin_z(nano(60000.0), 1, 300_000, 1), 1);
    assert_eq!(s.margin_z(nano(60000.0), -1, 300_000, 1), -1);
    assert_eq!(s.margin_z(nano(60000.0), 1, 300_000, 0), 0);
    let near = s.margin_z(nano(60000.0), 1, 60_000, 1_000_000_000);
    let far = s.margin_z(nano(60000.0), 1, 240_000, 1_000_000_000);
    assert!(far < near);
    assert_eq!(far, (near + 1) / 2);
    let wrong = s.margin_z(nano(60000.0), -1, 240_000, 1_000_000_000);
    assert_eq!(wrong, -far);
    // A margin beyond the limit of a quantity is cut off there.
    let calm = GuardState { sigma: 1, ..s };
    assert_eq!(calm.margin_z(nano(60000.0), 1, 1000, 1_000_000_000_000_000), 1_000_000_000_000_000_000);
}
