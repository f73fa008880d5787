use le_grinder::fixed::{fixed_from_bits, sqrt_floor, Wide, NANO, PICO};
use le_grinder::types::{BinanceOrderBook, Quote};

#[test]
fn quotes_are_kept_in_order_and_replaced() {
    let mut b = BinanceOrderBook::new();
    b.set_bid(100, 1);
    b.set_bid(102, 2);
    b.set_bid(101, 3);
    b.set_bid(102, 5);
    assert_eq!(
        b.bids,
        vec![
            Quote { price: 102, qty: 5 },
            Quote { price: 101, qty: 3 },
            Quote { price: 100, qty: 1 }
        ]
    );
    b.set_ask(105, 1);
    b.set_ask(103, 2);
    assert_eq!(b.asks, vec![Quote { price: 103, qty: 2 }, Quote { price: 105, qty: 1 }]);
    assert_eq!(b.best_bid(), Some(102));
    assert_eq!(b.best_ask(), Some(103));
    assert!(b.is_valid());
}

#[test]
fn the_micro_price_needs_both_sides_and_a_quantity() {
    let mut b = BinanceOrderBook::new();
    assert_eq!(b.best_bid(), None);
    assert_eq!(b.calculate_micro_price(), None);
    b.set_bid(100 * NANO, 1);
    assert_eq!(b.calculate_micro_price(), None);
    b.set_ask(102 * NANO, 3);
    // 100 weighted with the asks, 102 weighted with the bids.
    assert_eq!(b.calculate_micro_price(), Some(100_500_000_000));
    let mut empty = BinanceOrderBook::new();
    empty.set_bid(100, 0);
    empty.set_ask(102, 0);
    assert_eq!(empty.calculate_micro_price(), None);
}

#[test]
fn doubles_become_the_nearest_fixed_point_number() {
    assert_eq!(fixed_from_bits(1.5f64.to_bits(), NANO), Some(1_500_000_000));
    assert_eq!(fixed_from_bits((-0.1f64).to_bits(), NANO), Some(-100_000_000));
    assert_eq!(fixed_from_bits(3e-5f64.to_bits(), PICO), Some(30_000_000));
    assert_eq!(fixed_from_bits(0f64.to_bits(), NANO), Some(0));
    assert_eq!(fixed_from_bits(f64::NAN.to_bits(), NANO), None);
    assert_eq!(fixed_from_bits(1e9f64.to_bits(), NANO), Some(1_000_000_000_000_000_000));
    assert_eq!(fixed_from_bits(1.1e9f64.to_bits(), NANO), None);
    assert_eq!(fixed_from_bits(5e-324f64.to_bits(), NANO), Some(0));
}

#[test]
fn square_roots_are_rounded_down() {
    assert_eq!(sqrt_floor(0), 0);
    assert_eq!(sqrt_floor(24), 4);
    assert_eq!(sqrt_floor(25), 5);
    assert_eq!(sqrt_floor(1_000_000_000_000_000_000_000_000_000_000_000_000), 1_000_000_000_000_000_000);
}

#[test]
fn wide_products_keep_all_their_bits() {
    assert_eq!(Wide::product(6, 7), Wide { high: 0, low: 42 });
    assert_eq!(Wide::product(1 << 100, 1 << 100), Wide { high: 1 << 72, low: 0 });
    assert_eq!(Wide::product(u128::MAX, u128::MAX), Wide { high: u128::MAX - 1, low: 1 });
    assert_eq!(Wide::product(u128::MAX, 3), Wide { high: 2, low: u128::MAX - 2 });
    let a = Wide { high: 1, low: 0 };
    let b = Wide { high: 0, low: u128::MAX };
    assert!(a.at_least(&b) && a.at_least(&a) && !b.at_least(&a));
}
