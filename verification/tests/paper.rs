use le_grinder::book::{is_recent, Level, PolyBook};
use le_grinder::paper::{round_size, sweep_buy, sweep_sell_panic, Fill};

fn nano(x: f64) -> i64 {
    (x * 1e9).round() as i64
}

fn book(bids: &[(f64, f64)], asks: &[(f64, f64)]) -> PolyBook {
    PolyBook {
        bids: bids.iter().map(|&(p, s)| Level { price: nano(p), size: nano(s) }).collect(),
        asks: asks.iter().map(|&(p, s)| Level { price: nano(p), size: nano(s) }).collect(),
    }
}

#[test]
fn buy_sweeps_cheapest_first_and_respects_cap() {
    let b = book(&[], &[(0.97, 100.0), (0.96, 2.0), (1.00, 500.0)]);
    let f = sweep_buy(&b, nano(10.0), nano(0.99), 0);
    assert!(f.shares > nano(10.0) && f.shares < nano(10.5), "shares={}", f.shares);
    assert!(f.avg_price > nano(0.96) && f.avg_price < nano(0.97));
    assert!((f.notional - nano(10.0)).abs() < nano(0.05));
    // 2 shares at 0.96, and 8.32 at 0.97 for the 8.08 dollars that are left.
    assert_eq!(f.shares, nano(10.32));
    assert_eq!(f.notional, nano(9.9904));
}

#[test]
fn buy_limited_by_depth() {
    let b = book(&[], &[(0.95, 3.0)]);
    let f = sweep_buy(&b, nano(100.0), nano(0.99), 0);
    assert_eq!(f.shares, nano(3.0));
}

#[test]
fn panic_sell_applies_haircut_and_leaves_residual() {
    let b = book(&[(0.90, 10.0), (0.50, 4.0)], &[]);
    let f = sweep_sell_panic(&b, nano(10.0), nano(0.5), 0);
    assert_eq!(f.shares, nano(7.0));
    assert_eq!(f.notional, nano(5.0 * 0.90 + 2.0 * 0.50));
}

#[test]
fn fees_scale_with_p_one_minus_p() {
    let b = book(&[], &[(0.95, 100.0)]);
    let f = sweep_buy(&b, nano(95.0), nano(0.99), nano(0.07));
    assert!((f.fees - nano(0.3325)).abs() < nano(1e-3), "fees={}", f.fees);
    assert_eq!(f.fees, nano(0.3325));
}

#[test]
fn round_size_two_decimals_floor() {
    assert_eq!(round_size(nano(1.0599)), nano(1.05));
    assert_eq!(round_size(nano(0.009)), 0);
}

#[test]
fn sizes_below_zero_are_rounded_down_too() {
    assert_eq!(round_size(nano(-0.001)), nano(-0.01));
    assert_eq!(round_size(nano(-1.0)), nano(-1.0));
}

#[test]
fn nothing_is_bought_above_the_cap_or_without_cash() {
    let b = book(&[], &[(1.00, 5.0)]);
    assert_eq!(sweep_buy(&b, nano(10.0), nano(0.99), 0), Fill::none());
    let b = book(&[], &[(0.95, 5.0)]);
    assert_eq!(sweep_buy(&b, nano(0.009), nano(0.99), 0).shares, 0);
}

#[test]
fn a_sale_never_exceeds_the_shares() {
    let b = book(&[(0.90, 1000.0)], &[]);
    let f = sweep_sell_panic(&b, nano(10.0), nano(1.0), nano(0.07));
    assert_eq!(f.shares, nano(10.0));
    assert_eq!(f.notional, nano(9.0));
    assert_eq!(f.fees, nano(0.07 * 0.9 * 0.1 * 10.0));
    assert_eq!(f.avg_price, nano(0.9));
    assert_eq!(sweep_sell_panic(&PolyBook::empty(), nano(10.0), nano(1.0), 0), Fill::none());
}

#[test]
fn a_sale_takes_the_dearest_bid_first() {
    let b = book(&[(0.50, 10.0), (0.90, 2.0)], &[]);
    let f = sweep_sell_panic(&b, nano(3.0), nano(1.0), 0);
    assert_eq!(f.notional, nano(2.0 * 0.90 + 0.50));
}

#[test]
fn books_are_checked() {
    assert!(book(&[(0.5, 10.0)], &[(0.6, 10.0)]).is_valid());
    assert!(!book(&[(1.5, 10.0)], &[]).is_valid());
    assert!(!book(&[], &[(0.5, -1.0)]).is_valid());
    assert!(!book(&[], &[(0.5, 200_000_000.0), (0.5, 200_000_000.0)]).is_valid());
}

#[test]
fn the_best_prices_are_found_wherever_they_stand() {
    let b = book(&[(0.3, 1.0), (0.5, 1.0), (0.4, 1.0)], &[(0.7, 1.0), (0.6, 1.0), (0.8, 1.0)]);
    assert_eq!(b.best_bid(), Some(nano(0.5)));
    assert_eq!(b.best_ask(), Some(nano(0.6)));
    assert_eq!(PolyBook::empty().best_bid(), None);
    assert_eq!(PolyBook::empty().best_ask(), None);
}

#[test]
fn a_book_is_recent_up_to_its_age() {
    assert!(is_recent(1000, 6000, 5000));
    assert!(!is_recent(1000, 6001, 5000));
    assert!(is_recent(1000, 500, 0));
}

#[test]
fn a_level_without_a_lot_is_passed_over() {
    let b = book(&[], &[(0.95, 0.005), (0.96, 3.0)]);
    let f = sweep_buy(&b, nano(100.0), nano(0.99), 0);
    assert_eq!((f.shares, f.notional), (nano(3.0), nano(2.88)));
    let b = book(&[(0.9, 0.005), (0.8, 3.0)], &[]);
    let f = sweep_sell_panic(&b, nano(3.0), nano(1.0), 0);
    assert_eq!((f.shares, f.notional), (nano(3.0), nano(2.4)));
}

#[test]
fn the_order_of_the_book_does_not_matter() {
    let asks = [(0.96, 2.0), (0.95, 1.5), (0.96, 4.25), (0.97, 1.0), (0.95, 0.75)];
    let mut turned = asks;
    turned.reverse();
    for cash in [0.5, 2.0, 3.3, 7.77, 100.0] {
        let a = sweep_buy(&book(&[], &asks), nano(cash), nano(0.99), nano(0.07));
        let b = sweep_buy(&book(&[], &turned), nano(cash), nano(0.99), nano(0.07));
        assert_eq!(a, b);
        let a = sweep_sell_panic(&book(&asks, &[]), nano(cash), nano(0.5), nano(0.07));
        let b = sweep_sell_panic(&book(&turned, &[]), nano(cash), nano(0.5), nano(0.07));
        assert_eq!(a, b);
    }
}

#[test]
fn a_purchase_is_the_largest_and_the_cheapest() {
    // Two dollars buy 1.5 shares at 0.95 and 0.59 at 0.96, and no hundredth more.
    let b = book(&[], &[(0.96, 2.0), (0.95, 1.5)]);
    let f = sweep_buy(&b, nano(2.0), nano(0.99), 0);
    assert_eq!(f.shares, nano(2.09));
    assert_eq!(f.notional, nano(1.5 * 0.95 + 0.59 * 0.96));
    assert!(nano(2.0) - f.notional < nano(0.0096));
}

#[test]
fn a_sale_takes_what_the_haircut_leaves() {
    // Of each level half is there, in whole hundredths: 0.62 and 1.01 shares.
    let b = book(&[(0.5, 2.03), (0.9, 1.25)], &[]);
    let f = sweep_sell_panic(&b, nano(10.0), nano(0.5), 0);
    assert_eq!(f.shares, nano(1.63));
    assert_eq!(f.notional, nano(0.62 * 0.9 + 1.01 * 0.5));
    let f = sweep_sell_panic(&b, nano(0.629), nano(0.5), 0);
    assert_eq!((f.shares, f.avg_price), (nano(0.62), nano(0.9)));
}
