//! Fixed-point numbers.
//!
//! Dollars, prices, shares, volatilities, scores and fractions are counted in
//! billionths ([`NANO`] units make one). Drifts, impulses and logarithms, which
//! are small, are counted in trillionths ([`PICO`] units make one). Products and
//! quotients round towards zero unless they say otherwise.

use vstd::arithmetic::power2::{lemma_pow2_pos, lemma_pow2_strictly_increases, lemma_pow2_unfold, pow2};
use vstd::prelude::*;

verus! {

/// One, in billionths.
pub const NANO: i64 = 1_000_000_000;

/// One, in trillionths.
pub const PICO: i64 = 1_000_000_000_000;

/// The smallest quantity of shares that can change hands: a hundredth.
pub const LOT: i64 = 10_000_000;

/// The largest magnitude that an amount may have: one billion, in billionths.
pub const LIMIT: i64 = 1_000_000_000_000_000_000;

/// The largest stake, in billionths: a quarter of [`LIMIT`], so that what a
/// window returns stays within [`LIMIT`].
pub const STAKE_LIMIT: i64 = 250_000_000_000_000_000;

/// The latest instant that is told apart, in milliseconds since the epoch.
pub const TIME_LIMIT: i64 = 10_000_000_000_000;

/// A quantity that cannot be negative and stays within [`LIMIT`].
pub open spec fn amount(x: i64) -> bool {
    0 <= x <= LIMIT
}

/// A quantity that can be staked on one window.
pub open spec fn stake(x: i64) -> bool {
    0 <= x <= STAKE_LIMIT
}

/// A signed quantity within [`LIMIT`].
pub open spec fn signed(x: i64) -> bool {
    -LIMIT <= x <= LIMIT
}

/// An instant (or a count of milliseconds) that is told apart.
pub open spec fn instant(t: i64) -> bool {
    0 <= t <= TIME_LIMIT
}

/// Checks that `x` is an [`amount`].
pub fn is_amount(x: i64) -> (r: bool)
    ensures
        r == amount(x),
{
    0 <= x && x <= LIMIT
}

/// Checks that `x` is a [`stake`].
pub fn is_stake(x: i64) -> (r: bool)
    ensures
        r == stake(x),
{
    0 <= x && x <= STAKE_LIMIT
}

/// Checks that `x` is [`signed`].
pub fn is_signed(x: i64) -> (r: bool)
    ensures
        r == signed(x),
{
    -LIMIT <= x && x <= LIMIT
}

/// Checks that `t` is an [`instant`].
pub fn is_instant(t: i64) -> (r: bool)
    ensures
        r == instant(t),
{
    0 <= t && t <= TIME_LIMIT
}

pub open spec fn abs(x: int) -> int {
    if x < 0 {
        -x
    } else {
        x
    }
}

pub open spec fn min(a: int, b: int) -> int {
    if a <= b {
        a
    } else {
        b
    }
}

pub open spec fn max(a: int, b: int) -> int {
    if a >= b {
        a
    } else {
        b
    }
}

/// The quotient rounded towards zero.
pub open spec fn quotient(a: int, b: int) -> int
    recommends
        b > 0,
{
    if a >= 0 {
        a / b
    } else {
        -((-a) / b)
    }
}

/// The product of two fixed-point numbers, in the unit of `a`.
pub open spec fn product(a: int, b: int) -> int {
    quotient(a * b, NANO as int)
}

/// The quotient of two wide integers, rounded towards zero.
pub fn div_trunc(a: i128, b: i128) -> (r: i128)
    requires
        b > 0,
        a > i128::MIN,
    ensures
        r == quotient(a as int, b as int),
        abs(r as int) <= abs(a as int),
{
    proof {
        lemma_quotient_small(a as int, b as int);
    }
    if a >= 0 {
        a / b
    } else {
        -((-a) / b)
    }
}

/// A quotient rounded towards zero is no larger than its dividend.
pub proof fn lemma_quotient_small(a: int, b: int)
    requires
        b > 0,
    ensures
        abs(quotient(a, b)) <= abs(a),
        a >= 0 ==> 0 <= quotient(a, b) <= a,
        a <= 0 ==> a <= quotient(a, b) <= 0,
{
    let m = abs(a);
    assert(0 <= m / b <= m) by (nonlinear_arith)
        requires
            b > 0,
            m >= 0,
    ;
}

/// A product of two amounts is within the range of `i128`.
pub proof fn lemma_wide_product(a: int, b: int)
    requires
        -LIMIT <= a <= LIMIT,
        -LIMIT <= b <= LIMIT,
    ensures
        -LIMIT * LIMIT <= a * b <= LIMIT * LIMIT,
        a >= 0 && b >= 0 ==> a * b >= 0,
        LIMIT * LIMIT == 1_000_000_000_000_000_000_000_000_000_000_000_000int,
{
    assert(-LIMIT * LIMIT <= a * b <= LIMIT * LIMIT) by (nonlinear_arith)
        requires
            -LIMIT <= a <= LIMIT,
            -LIMIT <= b <= LIMIT,
            LIMIT == 1_000_000_000_000_000_000,
    ;
    assert(a >= 0 && b >= 0 ==> a * b >= 0) by (nonlinear_arith);
}

/// The product of a quantity and a fraction of it that is at most one.
pub fn fraction_of(x: i64, fraction: i64) -> (r: i64)
    requires
        amount(x),
        0 <= fraction <= NANO,
    ensures
        r == product(fraction as int, x as int),
        0 <= r <= x,
{
    proof {
        lemma_wide_product(fraction as int, x as int);
        assert(fraction * x <= NANO * x) by (nonlinear_arith)
            requires
                0 <= fraction <= NANO,
                x >= 0,
        ;
        assert(0 <= (fraction * x) / (NANO as int) <= x) by (nonlinear_arith)
            requires
                0 <= fraction * x <= NANO * x,
                NANO == 1_000_000_000,
        ;
    }
    ((fraction as i128) * (x as i128) / (NANO as i128)) as i64
}

/// The larger of two integers.
pub fn max_of(a: i64, b: i64) -> (r: i64)
    ensures
        r == max(a as int, b as int),
{
    if a >= b {
        a
    } else {
        b
    }
}

/// The smaller of two integers.
pub fn min_of(a: i64, b: i64) -> (r: i64)
    ensures
        r == min(a as int, b as int),
{
    if a <= b {
        a
    } else {
        b
    }
}

/// `r` is the integer square root of `n`.
pub open spec fn is_sqrt(r: int, n: int) -> bool {
    &&& 0 <= r
    &&& r * r <= n
    &&& n < (r + 1) * (r + 1)
}

/// Two integer square roots of the same number are equal.
pub proof fn lemma_sqrt_unique(a: int, b: int, n: int)
    requires
        is_sqrt(a, n),
        is_sqrt(b, n),
    ensures
        a == b,
{
    if a < b {
        assert((a + 1) * (a + 1) <= b * b) by (nonlinear_arith)
            requires
                0 <= a < b,
        ;
    }
    if b < a {
        assert((b + 1) * (b + 1) <= a * a) by (nonlinear_arith)
            requires
                0 <= b < a,
        ;
    }
}

/// The integer square root of `n`.
pub open spec fn sqrt_of(n: int) -> int {
    choose|r: int| is_sqrt(r, n)
}

/// Every natural number has a square root, rounded down.
pub proof fn lemma_sqrt_of(n: int)
    requires
        0 <= n,
    ensures
        is_sqrt(sqrt_of(n), n),
    decreases n,
{
    if n == 0 {
        assert(is_sqrt(0, 0));
    } else {
        lemma_sqrt_of(n - 1);
        let r = sqrt_of(n - 1);
        assert((r + 1) * (r + 1) == r * r + 2 * r + 1) by (nonlinear_arith);
        assert((r + 2) * (r + 2) == r * r + 4 * r + 4) by (nonlinear_arith);
        if (r + 1) * (r + 1) <= n {
            assert(is_sqrt(r + 1, n));
        } else {
            assert(is_sqrt(r, n));
        }
    }
}

/// The integer square root.
pub fn sqrt_floor(n: u128) -> (r: u64)
    requires
        n < 0x4000_0000_0000_0000_0000_0000_0000_0000,
    ensures
        is_sqrt(r as int, n as int),
        r == sqrt_of(n as int),
        r < 0x8000_0000_0000_0000,
{
    let mut low: u64 = 0;
    let mut high: u64 = 0x8000_0000_0000_0000;
    proof {
        assert(n < (high as int) * (high as int)) by (nonlinear_arith)
            requires
                n < 0x4000_0000_0000_0000_0000_0000_0000_0000,
                high == 0x8000_0000_0000_0000,
        ;
        assert((low as int) * (low as int) <= n) by (nonlinear_arith)
            requires
                low == 0,
                n >= 0,
        ;
    }
    while high - low > 1
        invariant
            low < high <= 0x8000_0000_0000_0000,
            (low as int) * (low as int) <= n,
            n < (high as int) * (high as int),
        decreases high - low,
    {
        let mid: u64 = low + (high - low) / 2;
        proof {
            assert((mid as int) * (mid as int) < 0x4000_0000_0000_0000_0000_0000_0000_0000) by (nonlinear_arith)
                requires
                    0 <= mid < 0x8000_0000_0000_0000,
            ;
        }
        let square: u128 = (mid as u128) * (mid as u128);
        if square <= n {
            low = mid;
        } else {
            high = mid;
        }
    }
    proof {
        assert(high == low + 1);
        assert(is_sqrt(low as int, n as int));
        lemma_sqrt_unique(low as int, sqrt_of(n as int), n as int);
    }
    low
}

/// A product that may take 256 bits, in two halves.
#[derive(Debug, Clone, Copy, PartialEq, Eq, Structural)]
pub struct Wide {
    pub high: u128,
    pub low: u128,
}

impl Wide {
    pub open spec fn value(self) -> int {
        self.high * 0x1_0000_0000_0000_0000_0000_0000_0000_0000int + self.low
    }

    /// The product of two numbers of 128 bits.
    pub fn product(a: u128, b: u128) -> (r: Self)
        ensures
            r.value() == a * b,
    {
        let half: u128 = 0x1_0000_0000_0000_0000;
        let a1: u128 = a / half;
        let a0: u128 = a % half;
        let b1: u128 = b / half;
        let b0: u128 = b % half;
        proof {
            lemma_half_product(a0 as int, b0 as int);
            lemma_half_product(a0 as int, b1 as int);
            lemma_half_product(a1 as int, b0 as int);
            lemma_half_product(a1 as int, b1 as int);
        }
        let p00: u128 = a0 * b0;
        let p01: u128 = a0 * b1;
        let p10: u128 = a1 * b0;
        let p11: u128 = a1 * b1;
        let mid: u128 = p10 + p00 / half;
        let carry: u128 = p01 + mid % half;
        let high: u128 = p11 + mid / half + carry / half;
        let low: u128 = (carry % half) * half + p00 % half;
        proof {
            lemma_four_products(a1 as int, a0 as int, b1 as int, b0 as int, half as int);
            assert(a == a1 * half + a0);
            assert(b == b1 * half + b0);
            assert(half * half == 0x1_0000_0000_0000_0000_0000_0000_0000_0000int);
            assert(p00 == (p00 / half) * half + p00 % half);
            assert(mid == (mid / half) * half + mid % half);
            assert(carry == (carry / half) * half + carry % half);
        }
        Wide { high, low }
    }

    /// Whether a number is at least another.
    pub fn at_least(&self, other: &Wide) -> (r: bool)
        ensures
            r == (self.value() >= other.value()),
    {
        self.high > other.high || (self.high == other.high && self.low >= other.low)
    }
}

/// A product of two numbers, each given by a high and a low part.
proof fn lemma_four_products(x1: int, x0: int, y1: int, y0: int, h: int)
    ensures
        (x1 * h + x0) * (y1 * h + y0) == (x1 * y1) * (h * h) + (x1 * y0) * h + (x0 * y1) * h + x0 * y0,
{
    let w = y1 * h + y0;
    let u = x1 * h;
    let v = y1 * h;
    assert((u + x0) * w == u * w + x0 * w) by (nonlinear_arith);
    assert(u * (v + y0) == u * v + u * y0) by (nonlinear_arith);
    assert(x0 * (v + y0) == x0 * v + x0 * y0) by (nonlinear_arith);
    assert((x1 * h) * (y1 * h) == (x1 * y1) * (h * h)) by (nonlinear_arith);
    assert((x1 * h) * y0 == (x1 * y0) * h) by (nonlinear_arith);
    assert(x0 * (y1 * h) == (x0 * y1) * h) by (nonlinear_arith);
}

/// The product of two numbers of 64 bits leaves room for two more of them.
proof fn lemma_half_product(a: int, b: int)
    requires
        0 <= a < 0x1_0000_0000_0000_0000,
        0 <= b < 0x1_0000_0000_0000_0000,
    ensures
        0 <= a * b <= 0xffff_ffff_ffff_fffe_0000_0000_0000_0001,
{
    assert(0 <= a * b <= 0xffff_ffff_ffff_ffff * 0xffff_ffff_ffff_ffff) by (nonlinear_arith)
        requires
            0 <= a <= 0xffff_ffff_ffff_ffff,
            0 <= b <= 0xffff_ffff_ffff_ffff,
    ;
}

/// `a / b` rounded to the nearest integer, halves away from zero.
pub open spec fn nearest(a: int, b: int) -> int
    recommends
        a >= 0,
        b > 0,
{
    (2 * a + b) / (2 * b)
}

/// The sign bit of a binary64 value given by its bits.
pub open spec fn float_negative(bits: u64) -> bool {
    bits >= 0x8000_0000_0000_0000
}

/// The biased exponent of a binary64 value given by its bits.
pub open spec fn float_exponent(bits: u64) -> int {
    (bits as int / 0x10_0000_0000_0000) % 0x800
}

/// The integer significand of a finite binary64 value given by its bits.
pub open spec fn float_significand(bits: u64) -> int {
    let fraction = bits as int % 0x10_0000_0000_0000;
    if float_exponent(bits) == 0 {
        fraction
    } else {
        fraction + 0x10_0000_0000_0000
    }
}

/// How many times the significand of a finite binary64 value is halved. Where
/// this is negative the significand is doubled instead.
pub open spec fn float_halvings(bits: u64) -> int {
    if float_exponent(bits) == 0 {
        1074
    } else {
        1075 - float_exponent(bits)
    }
}

/// The magnitude of a binary64 value below `2^53`, in units of `1 / scale`,
/// rounded to the nearest unit.
pub open spec fn float_magnitude(bits: u64, scale: int) -> int {
    nearest(float_significand(bits) * scale, pow2(float_halvings(bits) as nat) as int)
}

/// The fixed-point number nearest to the binary64 value with these bits, or
/// nothing where the value is not finite or its magnitude is out of range.
pub open spec fn fixed_of_bits(bits: u64, scale: int) -> Option<int> {
    if float_exponent(bits) == 0x7ff || float_halvings(bits) <= 0 {
        None
    } else {
        let magnitude = float_magnitude(bits, scale);
        if magnitude > LIMIT {
            None
        } else if float_negative(bits) {
            Some(-magnitude)
        } else {
            Some(magnitude)
        }
    }
}

proof fn lemma_nearest_zero(a: int, b: int)
    requires
        0 <= 2 * a < b,
    ensures
        nearest(a, b) == 0,
{
    assert((2 * a + b) / (2 * b) == 0) by (nonlinear_arith)
        requires
            0 <= 2 * a < b,
    ;
}

/// Converts a binary64 value, given by its bits, to fixed point with `scale`
/// units to one. Values that are not finite, or too large, give nothing.
pub fn fixed_from_bits(bits: u64, scale: i64) -> (r: Option<i64>)
    requires
        scale == NANO || scale == PICO,
    ensures
        match r {
            Some(x) => fixed_of_bits(bits, scale as int) == Some(x as int) && signed(x),
            None => fixed_of_bits(bits, scale as int) is None,
        },
{
    let negative: bool = bits >= 0x8000_0000_0000_0000;
    let exponent: u64 = (bits / 0x10_0000_0000_0000) % 0x800;
    let fraction: u64 = bits % 0x10_0000_0000_0000;
    if exponent == 0x7ff {
        return None;
    }
    let significand: u64 = if exponent == 0 {
        fraction
    } else {
        fraction + 0x10_0000_0000_0000
    };
    let halvings: i64 = if exponent == 0 {
        1074
    } else {
        1075 - (exponent as i64)
    };
    if halvings <= 0 {
        return None;
    }
    proof {
        assert(0 <= significand * scale < 0x20_0000_0000_0000 * 0x100_0000_0000) by (nonlinear_arith)
            requires
                0 <= significand < 0x20_0000_0000_0000,
                0 <= scale < 0x100_0000_0000,
        ;
    }
    let numerator: u128 = (significand as u128) * (scale as u128);
    if halvings > 96 {
        proof {
            lemma_pow2_strictly_increases(96, halvings as nat);
            assert(pow2(96) == 0x1_0000_0000_0000_0000_0000_0000) by {
                vstd::arithmetic::power2::lemma2_to64();
                vstd::arithmetic::power2::lemma_pow2_adds(64, 32);
            }
            lemma_nearest_zero(numerator as int, pow2(halvings as nat) as int);
        }
        return Some(0);
    }
    let mut divisor: u128 = 1;
    let mut done: i64 = 0;
    proof {
        vstd::arithmetic::power2::lemma2_to64();
    }
    while done < halvings
        invariant
            0 <= done <= halvings <= 96,
            divisor == pow2(done as nat),
            divisor <= 0x1_0000_0000_0000_0000_0000_0000,
        decreases halvings - done,
    {
        proof {
            lemma_pow2_unfold((done + 1) as nat);
            assert(pow2((done + 1) as nat) <= 0x1_0000_0000_0000_0000_0000_0000) by {
                vstd::arithmetic::power2::lemma2_to64();
                vstd::arithmetic::power2::lemma_pow2_adds(64, 32);
                if done + 1 < 96 {
                    lemma_pow2_strictly_increases((done + 1) as nat, 96);
                }
            }
        }
        divisor = divisor * 2;
        done = done + 1;
    }
    proof {
        lemma_pow2_pos(halvings as nat);
    }
    let magnitude: u128 = (2 * numerator + divisor) / (2 * divisor);
    if magnitude > LIMIT as u128 {
        return None;
    }
    if negative {
        Some(-(magnitude as i64))
    } else {
        Some(magnitude as i64)
    }
}

/// The bits of a binary64 value that is no number.
pub open spec fn is_nan_bits(bits: u64) -> bool {
    float_exponent(bits) == 0x7ff && bits as int % 0x10_0000_0000_0000 != 0
}

/// The fixed-point number nearest to the binary64 value with these bits, brought
/// into the range of a [`signed`] quantity; zero for what is no number.
pub open spec fn bounded_of_bits(bits: u64, scale: int) -> int {
    match fixed_of_bits(bits, scale) {
        Some(x) => x,
        None => if is_nan_bits(bits) {
            0
        } else if float_negative(bits) {
            -LIMIT as int
        } else {
            LIMIT as int
        },
    }
}

/// Converts a binary64 value, given by its bits, to fixed point with `scale`
/// units to one. Values that are too large become the largest; what is no
/// number becomes zero.
pub fn bounded_from_bits(bits: u64, scale: i64) -> (r: i64)
    requires
        scale == NANO || scale == PICO,
    ensures
        r == bounded_of_bits(bits, scale as int),
        signed(r),
{
    match fixed_from_bits(bits, scale) {
        Some(x) => x,
        None => {
            let exponent: u64 = (bits / 0x10_0000_0000_0000) % 0x800;
            let fraction: u64 = bits % 0x10_0000_0000_0000;
            if exponent == 0x7ff && fraction != 0 {
                0
            } else if bits >= 0x8000_0000_0000_0000 {
                -LIMIT
            } else {
                LIMIT
            }
        },
    }
}

/// The size of a number, the lesser and the greater of two.
pub proof fn sizes_are_compared(a: int, b: int)
    ensures
        a >= 0 ==> abs(a) == a,
        a <= 0 ==> abs(a) == -a,
        a <= b ==> min(a, b) == a && max(a, b) == b && min(b, a) == a && max(b, a) == b,
{
}

/// A quotient is rounded towards zero: what it leaves is less than the divisor,
/// and it changes its sign with the dividend.
pub proof fn quotients_round_towards_zero(a: int, b: int)
    requires
        b > 0,
    ensures
        a >= 0 ==> 0 <= quotient(a, b) && b * quotient(a, b) <= a < b * (quotient(a, b) + 1),
        quotient(-a, b) == -quotient(a, b),
{
    if a >= 0 {
        let q = a / b;
        assert(0 <= q && b * q <= a && a < b * (q + 1)) by (nonlinear_arith)
            requires
                q == a / b,
                a >= 0,
                b > 0,
        ;
    }
    if a == 0 {
        assert(0int / b == 0) by (nonlinear_arith)
            requires
                b > 0,
        ;
    }
}

/// A product of fixed-point numbers is that of the numbers, rounded down where it
/// is not negative.
pub proof fn products_are_rounded(a: int, b: int)
    requires
        a * b >= 0,
    ensures
        0 <= product(a, b),
        product(a, b) * 1_000_000_000 <= a * b < (product(a, b) + 1) * 1_000_000_000,
{
}

/// A double becomes the nearest fixed-point number: for a normal double with the
/// exponent and the fraction given, below the limit, twice the error is at most
/// one unit. A sign bit changes the sign.
pub proof fn doubles_become_the_nearest_number(
    bits: u64,
    exponent: int,
    fraction: int,
    scale: int,
)
    requires
        1 <= exponent <= 1074,
        0 <= fraction < 0x10_0000_0000_0000,
        bits == exponent * 0x10_0000_0000_0000 + fraction,
        scale > 0,
    ensures
        ({
            let unit = pow2((1075 - exponent) as nat) as int;
            let value = (fraction + 0x10_0000_0000_0000) * scale;
            &&& fixed_of_bits(bits, scale) matches Some(x) ==> {
                &&& 0 <= x <= 1_000_000_000_000_000_000
                &&& 2 * value - unit <= 2 * (x * unit) <= 2 * value + unit
            }
            &&& fixed_of_bits(bits, scale) is None ==> 2 * value + unit
                > 2 * (1_000_000_000_000_000_000 * unit)
            &&& forall|other: u64|
                other == bits + 0x8000_0000_0000_0000 ==> (match fixed_of_bits(bits, scale) {
                    Some(x) => #[trigger] fixed_of_bits(other, scale) == Some(-x),
                    None => fixed_of_bits(other, scale) is None,
                })
        }),
{
    let unit = pow2((1075 - exponent) as nat) as int;
    let value = (fraction + 0x10_0000_0000_0000) * scale;
    lemma_pow2_pos((1075 - exponent) as nat);
    assert(float_exponent(bits) == exponent);
    assert(bits as int % 0x10_0000_0000_0000 == fraction);
    assert(float_significand(bits) == fraction + 0x10_0000_0000_0000);
    assert(float_halvings(bits) == 1075 - exponent);
    assert(0 < value) by (nonlinear_arith)
        requires
            value == (fraction + 0x10_0000_0000_0000) * scale,
            fraction >= 0,
            scale > 0,
    ;
    let m = nearest(value, unit);
    assert(0 <= m && 2 * (m * unit) <= 2 * value + unit && 2 * value + unit < 2 * (m * unit) + 2 * unit)
        by (nonlinear_arith)
        requires
            m == (2 * value + unit) / (2 * unit),
            0 < value,
            0 < unit,
    ;
    if m > LIMIT {
        assert(m * unit >= (LIMIT + 1) * unit) by (nonlinear_arith)
            requires
                m >= LIMIT + 1,
                unit > 0,
        ;
        assert((LIMIT + 1) * unit == LIMIT * unit + unit) by (nonlinear_arith);
    }
    assert forall|other: u64| other == bits + 0x8000_0000_0000_0000 implies (match fixed_of_bits(
        bits,
        scale,
    ) {
        Some(x) => #[trigger] fixed_of_bits(other, scale) == Some(-x),
        None => fixed_of_bits(other, scale) is None,
    }) by {
        assert(float_exponent(other) == exponent);
        assert(other as int % 0x10_0000_0000_0000 == fraction);
        assert(float_significand(other) == float_significand(bits));
    }
}

/// What is no number becomes zero, and what is too large the largest number of
/// its sign.
pub proof fn readings_are_bounded(bits: u64, scale: int)
    ensures
        fixed_of_bits(bits, scale) matches Some(x) ==> bounded_of_bits(bits, scale) == x,
        fixed_of_bits(bits, scale) is None ==> bounded_of_bits(bits, scale) == 0 || bounded_of_bits(
            bits,
            scale,
        ) == 1_000_000_000_000_000_000 || bounded_of_bits(bits, scale)
            == -1_000_000_000_000_000_000,
        0x7ff0_0000_0000_0000 < bits < 0x8000_0000_0000_0000 || 0xfff0_0000_0000_0000 < bits
            ==> bounded_of_bits(bits, scale) == 0,
        bits == 0x7ff0_0000_0000_0000 ==> bounded_of_bits(bits, scale) == 1_000_000_000_000_000_000,
        bits == 0xfff0_0000_0000_0000 ==> bounded_of_bits(bits, scale)
            == -1_000_000_000_000_000_000,
{
}

} // verus!
