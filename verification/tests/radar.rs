use le_grinder::engines::radar::{RadarEngine, Sample};
use le_grinder::types::BinanceOrderBook;

fn nano(x: f64) -> i64 {
    (x * 1e9).round() as i64
}

fn book(bids: &[(f64, f64)], asks: &[(f64, f64)]) -> BinanceOrderBook {
    let mut b = BinanceOrderBook::new();
    for (p, q) in bids {
        b.set_bid(nano(*p), nano(*q));
    }
    for (p, q) in asks {
        b.set_ask(nano(*p), nano(*q));
    }
    b
}

#[test]
fn obi_balanced_is_zero() {
    let r = RadarEngine::new(5, nano(0.8), nano(1.0));
    let b = book(&[(100.0, 10.0)], &[(101.0, 10.0)]);
    assert_eq!(r.calculate_obi(&b), 0);
}

#[test]
fn kill_fires_on_imbalance_plus_velocity() {
    let mut r = RadarEngine::new(5, nano(0.8), nano(1.0));
    let b0 = book(&[(99.0, 5.0)], &[(100.0, 95.0)]);
    assert!(!r.tick(0, &b0));
    let b1 = book(&[(90.0, 5.0)], &[(91.0, 95.0)]);
    assert!(r.tick(500, &b1));
}

#[test]
fn no_kill_when_calm() {
    let mut r = RadarEngine::new(5, nano(0.8), nano(1.0));
    let b0 = book(&[(100.0, 10.0)], &[(101.0, 10.0)]);
    let b1 = book(&[(100.0, 11.0)], &[(101.0, 10.0)]);
    r.tick(0, &b0);
    assert!(!r.tick(500, &b1));
}

#[test]
fn obi_is_the_surplus_over_the_whole() {
    let r = RadarEngine::new(2, nano(0.8), nano(1.0));
    // The third bid is beyond the two levels that count.
    let b = book(&[(100.0, 3.0), (99.0, 3.0), (98.0, 50.0)], &[(101.0, 1.0), (102.0, 1.0)]);
    assert_eq!(r.calculate_obi(&b), nano(0.5));
    assert_eq!(r.calculate_obi(&BinanceOrderBook::new()), 0);
}

#[test]
fn a_threshold_that_is_just_reached_fires() {
    // The imbalance is -0.9 and the displacement exactly one dollar.
    let mut r = RadarEngine::new(5, nano(0.9), nano(1.0));
    assert!(!r.tick(0, &book(&[(100.0, 5.0)], &[(101.0, 95.0)])));
    assert!(r.tick(1, &book(&[(99.0, 5.0)], &[(100.0, 95.0)])));
    let mut r = RadarEngine::new(5, nano(0.9), nano(1.0) + 1);
    assert!(!r.tick(0, &book(&[(100.0, 5.0)], &[(101.0, 95.0)])));
    assert!(!r.tick(1, &book(&[(99.0, 5.0)], &[(100.0, 95.0)])));
}

#[test]
fn samples_older_than_a_second_leave_the_window() {
    let mut r = RadarEngine::new(5, nano(0.8), nano(1.0));
    let b0 = book(&[(100.0, 10.0)], &[(102.0, 10.0)]);
    let b1 = book(&[(90.0, 10.0)], &[(92.0, 10.0)]);
    r.tick(0, &b0);
    r.tick(1000, &b1);
    assert_eq!(r.velocity(), nano(-10.0));
    r.tick(1001, &b1);
    assert_eq!(r.velocity(), 0);
    assert_eq!(r.history[0], Sample { ts_ms: 1000, price: nano(91.0) });
    assert_eq!(r.history.len(), 2);
}

#[test]
fn a_book_without_a_micro_price_is_passed_over() {
    let mut r = RadarEngine::new(5, nano(0.0), nano(0.0));
    assert!(!r.tick(0, &book(&[(100.0, 10.0)], &[])));
    assert_eq!(r.history.len(), 0);
    assert_eq!(r.velocity(), 0);
}
