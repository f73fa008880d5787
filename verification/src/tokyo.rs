//! The local guard: what the engines make of the spot exchange's book, and
//! whether an alarm is on.

use vstd::prelude::*;

use crate::config::Config;
use crate::engines::radar::{book_imbalance, displacement, fires, next_history, RadarEngine};
use crate::fixed::{
    abs, is_signed, lemma_sqrt_of, lemma_wide_product, max, min, signed, sqrt_floor, sqrt_of, Wide, LIMIT,
    TIME_LIMIT,
};
use crate::types::BookUpdate;

verus! {

/// The largest volatility that is told apart: a thousand a year.
pub const SIGMA_LIMIT: i64 = 1_000_000_000_000;

/// What the guard says at an instant.
#[derive(Debug, Clone, Copy, PartialEq, Eq, Structural)]
pub struct GuardState {
    /// When the book was seen; zero before the first.
    pub ts_ms: u64,
    /// The micro-price of the spot exchange.
    pub spot: i64,
    /// The logarithmic drift a second, in trillionths.
    pub drift: i64,
    /// The volatility a year.
    pub sigma: i64,
    /// The imbalance of the book.
    pub obi: i64,
    /// The move of the micro-price over the last second.
    pub velocity: i64,
    /// The radar's alarm is on.
    pub kill: bool,
}

/// The move, in trillionths of a logarithm, that the volatility `sigma` lets
/// expect over `horizon_ms`: the volatility a second times the square root of
/// the seconds. A year has 31 536 000 seconds.
pub open spec fn expected_move(sigma: int, horizon_ms: int) -> int {
    sqrt_of((sigma * sigma * horizon_ms) / 31_536)
}

/// Whether `z` expected moves cover the distance `log_ratio` from the strike: an
/// expected move is the volatility `sigma` a second, times the square root of the
/// seconds that remain. Both sides are squared, which leaves integers.
pub open spec fn covers(z: int, sigma: int, horizon_ms: int, log_ratio: int) -> bool {
    (z * z) * (sigma * sigma * horizon_ms) >= (log_ratio * log_ratio)
        * 31_536_000_000_000_000_000_000
}

/// `z` is the least number of expected moves that covers the distance.
pub open spec fn is_cover(z: int, sigma: int, horizon_ms: int, log_ratio: int) -> bool {
    &&& 0 <= z
    &&& covers(z, sigma, horizon_ms, log_ratio)
    &&& z > 0 ==> !covers(z - 1, sigma, horizon_ms, log_ratio)
}

/// The distance from the strike in expected moves, rounded up, once, to the next
/// billionth.
pub open spec fn cover(sigma: int, horizon_ms: int, log_ratio: int) -> int {
    choose|z: int| is_cover(z, sigma, horizon_ms, log_ratio)
}

/// The margin of the side played, in expected moves: how far the spot is past
/// the strike on the way that `dir` points, over the time that remains, which is
/// at least a second. It is zero where a price is missing or nothing moves, is
/// rounded away from zero, and is cut off at the limit of a quantity.
pub open spec fn margin(
    spot: int,
    strike: int,
    sigma: int,
    dir: int,
    remaining_ms: int,
    log_ratio: int,
) -> int {
    let size = cover(sigma, max(remaining_ms, 1000), log_ratio);
    if strike <= 0 || spot <= 0 || sigma <= 0 {
        0
    } else if log_ratio * dir >= 0 {
        min(size, LIMIT as int)
    } else {
        -min(size, LIMIT as int)
    }
}

/// More moves cover what fewer do.
proof fn lemma_covers_more(a: int, b: int, sigma: int, horizon_ms: int, log_ratio: int)
    requires
        0 <= a <= b,
        0 <= horizon_ms,
        covers(a, sigma, horizon_ms, log_ratio),
    ensures
        covers(b, sigma, horizon_ms, log_ratio),
{
    let v = sigma * sigma * horizon_ms;
    assert(0 <= sigma * sigma) by (nonlinear_arith);
    assert(0 <= v) by (nonlinear_arith)
        requires
            v == sigma * sigma * horizon_ms,
            0 <= sigma * sigma,
            0 <= horizon_ms,
    ;
    assert(a * a <= b * b) by (nonlinear_arith)
        requires
            0 <= a <= b,
    ;
    assert((a * a) * v <= (b * b) * v) by (nonlinear_arith)
        requires
            a * a <= b * b,
            0 <= v,
    ;
}

/// Some number of moves covers any distance, where anything moves.
proof fn lemma_cover(sigma: int, horizon_ms: int, log_ratio: int)
    requires
        0 < sigma,
        0 < horizon_ms,
    ensures
        is_cover(cover(sigma, horizon_ms, log_ratio), sigma, horizon_ms, log_ratio),
{
    let d = (log_ratio * log_ratio) * 31_536_000_000_000_000_000_000;
    let v = sigma * sigma * horizon_ms;
    assert(0 <= log_ratio * log_ratio) by (nonlinear_arith);
    assert(1 <= v) by (nonlinear_arith)
        requires
            v == sigma * sigma * horizon_ms,
            1 <= sigma,
            1 <= horizon_ms,
    ;
    assert((d * d) * v >= d) by (nonlinear_arith)
        requires
            1 <= v,
            0 <= d,
    ;
    let z = lemma_least_cover(sigma, horizon_ms, log_ratio, d);
    assert(is_cover(z, sigma, horizon_ms, log_ratio));
}

proof fn lemma_least_cover(sigma: int, horizon_ms: int, log_ratio: int, n: int) -> (z: int)
    requires
        0 <= n,
        covers(n, sigma, horizon_ms, log_ratio),
    ensures
        is_cover(z, sigma, horizon_ms, log_ratio),
    decreases n,
{
    if n > 0 && covers(n - 1, sigma, horizon_ms, log_ratio) {
        lemma_least_cover(sigma, horizon_ms, log_ratio, n - 1)
    } else {
        n
    }
}

/// There is one least number.
proof fn lemma_cover_unique(a: int, b: int, sigma: int, horizon_ms: int, log_ratio: int)
    requires
        is_cover(a, sigma, horizon_ms, log_ratio),
        is_cover(b, sigma, horizon_ms, log_ratio),
        0 <= horizon_ms,
    ensures
        a == b,
{
    if a < b {
        lemma_covers_more(a, b - 1, sigma, horizon_ms, log_ratio);
    }
    if b < a {
        lemma_covers_more(b, a - 1, sigma, horizon_ms, log_ratio);
    }
}

/// The distance from the strike in expected moves, but no more than the limit.
fn cover_of(sigma: i64, horizon_ms: i64, log_ratio: i64) -> (r: i64)
    requires
        0 < sigma <= SIGMA_LIMIT,
        0 < horizon_ms <= TIME_LIMIT,
        signed(log_ratio),
    ensures
        r == min(cover(sigma as int, horizon_ms as int, log_ratio as int), LIMIT as int),
        0 <= r <= LIMIT,
{
    let ghost (s, t, d) = (sigma as int, horizon_ms as int, log_ratio as int);
    let size: u128 = if log_ratio >= 0 {
        log_ratio as u128
    } else {
        (-log_ratio) as u128
    };
    proof {
        lemma_cover(s, t, d);
        lemma_wide_product(size as int, size as int);
        assert(size * size == d * d) by (nonlinear_arith)
            requires
                size == d || size == -d,
        ;
        assert(0 <= s * s <= 1_000_000_000_000_000_000_000_000) by (nonlinear_arith)
            requires
                0 <= s <= 1_000_000_000_000,
        ;
        assert(0 <= s * s * t <= 10_000_000_000_000_000_000_000_000_000_000_000_000)
            by (nonlinear_arith)
            requires
                0 <= s * s <= 1_000_000_000_000_000_000_000_000,
                0 <= t <= 10_000_000_000_000,
        ;
    }
    let distance = Wide::product(size * size, 31_536_000_000_000_000_000_000);
    let variance: u128 = (sigma as u128) * (sigma as u128) * (horizon_ms as u128);
    let mut low: i64 = 0;
    let mut high: i64 = LIMIT;
    while low < high
        invariant
            0 <= low <= high <= LIMIT,
            s > 0,
            t > 0,
            distance.value() == (d * d) * 31_536_000_000_000_000_000_000,
            variance == s * s * t,
            low > 0 ==> !covers(low - 1, s, t, d),
            high < LIMIT ==> covers(high as int, s, t, d),
        decreases high - low,
    {
        let mid: i64 = low + (high - low) / 2;
        proof {
            lemma_wide_product(mid as int, mid as int);
        }
        let square: u128 = (mid as u128) * (mid as u128);
        let moved = Wide::product(square, variance);
        if moved.at_least(&distance) {
            high = mid;
        } else {
            low = mid + 1;
        }
    }
    proof {
        let z = cover(s, t, d);
        if low < LIMIT {
            assert(is_cover(low as int, s, t, d));
            lemma_cover_unique(low as int, z, s, t, d);
        } else if z < LIMIT {
            lemma_covers_more(z, LIMIT - 1, s, t, d);
        }
    }
    low
}

fn expected_move_of(sigma: i64, horizon_ms: i64) -> (r: i64)
    requires
        0 <= sigma <= SIGMA_LIMIT,
        0 <= horizon_ms <= TIME_LIMIT,
    ensures
        r == expected_move(sigma as int, horizon_ms as int),
        r >= 0,
{
    proof {
        assert(0 <= sigma * sigma <= 1_000_000_000_000_000_000_000_000) by (nonlinear_arith)
            requires
                0 <= sigma <= 1_000_000_000_000,
        ;
        assert(0 <= sigma * sigma * horizon_ms
            <= 10_000_000_000_000_000_000_000_000_000_000_000_000) by (nonlinear_arith)
            requires
                0 <= sigma * sigma <= 1_000_000_000_000_000_000_000_000,
                0 <= horizon_ms <= 10_000_000_000_000,
        ;
    }
    let scaled: u128 = (sigma as u128) * (sigma as u128) * (horizon_ms as u128) / 31_536;
    sqrt_floor(scaled) as i64
}

impl GuardState {
    pub open spec fn wf(self) -> bool {
        &&& signed(self.spot)
        &&& signed(self.drift)
        &&& 0 <= self.sigma <= SIGMA_LIMIT
        &&& signed(self.obi)
        &&& signed(self.velocity)
    }

    /// The state before anything was seen.
    pub open spec fn blank() -> GuardState {
        GuardState { ts_ms: 0, spot: 0, drift: 0, sigma: 0, obi: 0, velocity: 0, kill: false }
    }

    /// The book was seen, and less than `max_age_ms` before `now_ms`.
    pub open spec fn fresh(self, now_ms: int, max_age_ms: int) -> bool {
        self.ts_ms > 0 && max(now_ms - self.ts_ms, 0) < max_age_ms
    }

    /// Checks [`GuardState::wf`].
    pub fn is_valid(&self) -> (r: bool)
        ensures
            r == self.wf(),
    {
        is_signed(self.spot) && is_signed(self.drift) && 0 <= self.sigma && self.sigma
            <= SIGMA_LIMIT && is_signed(self.obi) && is_signed(self.velocity)
    }

    /// The volatility a second, in trillionths.
    pub fn sigma_per_sec(&self) -> (r: i64)
        requires
            self.wf(),
        ensures
            r == expected_move(self.sigma as int, 1000),
    {
        expected_move_of(self.sigma, 1000)
    }

    /// The margin of the side played, given the natural logarithm of the spot
    /// over the strike in trillionths. Negative means that the spot is on the
    /// wrong side of the strike.
    pub fn margin_z(&self, strike: i64, dir: i64, remaining_ms: i64, log_ratio: i64) -> (r: i64)
        requires
            self.wf(),
            dir == 1 || dir == -1,
            remaining_ms <= TIME_LIMIT,
            signed(log_ratio),
        ensures
            r == margin(
                self.spot as int,
                strike as int,
                self.sigma as int,
                dir as int,
                remaining_ms as int,
                log_ratio as int,
            ),
            signed(r),
            strike <= 0 || self.spot <= 0 || self.sigma <= 0 ==> r == 0,
            strike > 0 && self.spot > 0 && self.sigma > 0 && -LIMIT < r < LIMIT ==> (r * r) * (self.sigma
                * self.sigma * (if remaining_ms >= 1000 {
                remaining_ms
            } else {
                1000
            })) >= (log_ratio * log_ratio) * 31_536_000_000_000_000_000_000,
    {
        proof {
            if strike > 0 && self.spot > 0 && self.sigma > 0 {
                margin_counts_expected_moves(
                    self.spot as int,
                    strike as int,
                    self.sigma as int,
                    dir as int,
                    remaining_ms as int,
                    log_ratio as int,
                    max(remaining_ms as int, 1000),
                );
            }
        }
        if strike <= 0 || self.spot <= 0 || self.sigma <= 0 {
            return 0;
        }
        let horizon: i64 = if remaining_ms >= 1000 {
            remaining_ms
        } else {
            1000
        };
        let size = cover_of(self.sigma, horizon, log_ratio);
        let past = if dir == 1 {
            log_ratio >= 0
        } else {
            log_ratio <= 0
        };
        assert(log_ratio * dir == if dir == 1 {
            log_ratio as int
        } else {
            -log_ratio
        }) by (nonlinear_arith)
            requires
                dir == 1 || dir == -1,
        ;
        if past {
            size
        } else {
            -size
        }
    }

    /// Whether the book was seen, and less than `max_age_ms` before `now_ms`.
    pub fn is_fresh(&self, now_ms: u64, max_age_ms: u64) -> (r: bool)
        ensures
            r == self.fresh(now_ms as int, max_age_ms as int),
    {
        self.ts_ms > 0 && now_ms.saturating_sub(self.ts_ms) < max_age_ms
    }
}

/// The instant until which the alarm is on, after a tick at `ts`.
pub open spec fn next_latch(until: int, fired: bool, ts: int, latch_ms: int) -> int {
    if fired {
        ts + latch_ms
    } else {
        until
    }
}

/// The radar, the state that was last published, and the latch of the alarm.
#[derive(Debug)]
pub struct TokyoGuard {
    pub radar: RadarEngine,
    pub state: GuardState,
    pub kill_latch_until_ms: u64,
    pub kill_latch_ms: u64,
}

impl TokyoGuard {
    pub open spec fn wf(self) -> bool {
        self.radar.wf() && self.state.wf()
    }

    /// A guard that has seen nothing.
    pub fn new(cfg: &Config) -> (r: Self)
        ensures
            r.wf(),
            r.radar.lookback_ms == 1000,
            r.radar.history@.len() == 0,
            r.radar.obi_depth_levels == cfg.obi_depth_levels,
            r.radar.obi_threshold == cfg.obi_threshold,
            r.radar.velocity_threshold == cfg.velocity_threshold,
            r.state == GuardState::blank(),
            r.kill_latch_until_ms == 0,
            r.kill_latch_ms == cfg.kill_latch_ms,
    {
        TokyoGuard {
            radar: RadarEngine::new(cfg.obi_depth_levels, cfg.obi_threshold, cfg.velocity_threshold),
            state: GuardState {
                ts_ms: 0,
                spot: 0,
                drift: 0,
                sigma: 0,
                obi: 0,
                velocity: 0,
                kill: false,
            },
            kill_latch_until_ms: 0,
            kill_latch_ms: cfg.kill_latch_ms,
        }
    }

    /// Takes in a snapshot, with the readings of the drift and volatility
    /// estimates after it, and returns the state of the guard.
    pub fn update(&mut self, u: &BookUpdate, drift: i64, sigma: i64) -> (r: GuardState)
        requires
            old(self).wf(),
            u.book.wf(),
            u.ts_ms + old(self).kill_latch_ms <= u64::MAX,
            signed(drift),
            0 <= sigma <= SIGMA_LIMIT,
        ensures
            final(self).wf(),
            r == final(self).state,
            final(self).kill_latch_ms == old(self).kill_latch_ms,
            final(self).radar.lookback_ms == old(self).radar.lookback_ms,
            final(self).radar.obi_depth_levels == old(self).radar.obi_depth_levels,
            final(self).radar.obi_threshold == old(self).radar.obi_threshold,
            final(self).radar.velocity_threshold == old(self).radar.velocity_threshold,
            final(self).radar.history@ == next_history(
                old(self).radar.history@,
                u.ts_ms,
                u.book,
                old(self).radar.lookback_ms as int,
            ),
            final(self).kill_latch_until_ms == next_latch(
                old(self).kill_latch_until_ms as int,
                u.book.micro() is Some && fires(
                    final(self).radar.history@,
                    book_imbalance(u.book, old(self).radar.obi_depth_levels as int),
                    old(self).radar.obi_threshold as int,
                    old(self).radar.velocity_threshold as int,
                ),
                u.ts_ms as int,
                old(self).kill_latch_ms as int,
            ),
            r.ts_ms == u.ts_ms,
            r.spot == (match u.book.micro() {
                Some(p) => p,
                None => old(self).state.spot as int,
            }),
            r.drift == drift,
            r.sigma == sigma,
            r.obi == book_imbalance(u.book, old(self).radar.obi_depth_levels as int),
            r.velocity == displacement(final(self).radar.history@),
            r.kill == (u.ts_ms < final(self).kill_latch_until_ms),
    {
        let fired = self.radar.tick(u.ts_ms, &u.book);
        if fired {
            self.kill_latch_until_ms = u.ts_ms + self.kill_latch_ms;
        }
        let spot: i64 = match u.book.calculate_micro_price() {
            Some(micro) => micro,
            None => self.state.spot,
        };
        let obi = self.radar.calculate_obi(&u.book);
        let velocity = self.radar.velocity();
        self.state =
        GuardState {
            ts_ms: u.ts_ms,
            spot,
            drift,
            sigma,
            obi,
            velocity,
            kill: u.ts_ms < self.kill_latch_until_ms,
        };
        self.state
    }

    /// The state that was last published.
    pub fn state(&self) -> (r: GuardState)
        ensures
            r == self.state,
    {
        self.state
    }
}

/// A distance takes no move to cover exactly if there is none.
proof fn lemma_cover_zero(sigma: int, horizon_ms: int, log_ratio: int)
    requires
        0 < sigma,
        0 < horizon_ms,
    ensures
        0 <= cover(sigma, horizon_ms, log_ratio),
        cover(sigma, horizon_ms, log_ratio) == 0 <==> log_ratio == 0,
{
    let v = sigma * sigma * horizon_ms;
    let square = log_ratio * log_ratio;
    lemma_cover(sigma, horizon_ms, log_ratio);
    assert((0int * 0int) * v == 0) by (nonlinear_arith);
    if log_ratio == 0 {
        assert(is_cover(0, sigma, horizon_ms, log_ratio));
        lemma_cover_unique(0, cover(sigma, horizon_ms, log_ratio), sigma, horizon_ms, log_ratio);
    } else {
        assert(square > 0) by (nonlinear_arith)
            requires
                square == log_ratio * log_ratio,
                log_ratio != 0,
        ;
    }
}

/// The sign of the margin follows the side that is played: past the strike is
/// positive for one side exactly where it is negative for the other. It is zero
/// exactly where the spot has not moved from the strike. Without prices or
/// without volatility there is no margin.
pub proof fn margin_follows_the_side(
    spot: int,
    strike: int,
    sigma: int,
    dir: int,
    remaining_ms: int,
    log_ratio: int,
)
    requires
        dir == 1 || dir == -1,
        log_ratio > 0 <==> spot > strike,
        log_ratio < 0 <==> spot < strike,
    ensures
        ({
            let z = margin(spot, strike, sigma, dir, remaining_ms, log_ratio);
            &&& margin(spot, strike, sigma, -dir, remaining_ms, log_ratio) == -z
            &&& strike <= 0 || spot <= 0 || sigma <= 0 ==> z == 0
            &&& strike > 0 && spot > 0 && sigma > 0 ==> {
                &&& z < 0 <==> (spot - strike) * dir < 0
                &&& z > 0 <==> (spot - strike) * dir > 0
                &&& z == 0 <==> spot == strike
            }
        }),
{
    if sigma > 0 {
        lemma_cover_zero(sigma, max(remaining_ms, 1000), log_ratio);
    }
    assert(log_ratio * -dir == -(log_ratio * dir)) by (nonlinear_arith);
    if dir == 1 {
        assert(log_ratio * dir == log_ratio && (spot - strike) * dir == spot - strike) by (nonlinear_arith)
            requires
                dir == 1,
        ;
    } else {
        assert(log_ratio * dir == -log_ratio && (spot - strike) * dir == strike - spot)
            by (nonlinear_arith)
            requires
                dir == -1,
        ;
    }
}

/// Less than a second counts as one.
pub proof fn less_than_a_second_counts_as_one(
    spot: int,
    strike: int,
    sigma: int,
    dir: int,
    remaining_ms: int,
    log_ratio: int,
)
    requires
        remaining_ms <= 1000,
    ensures
        margin(spot, strike, sigma, dir, remaining_ms, log_ratio) == margin(
            spot,
            strike,
            sigma,
            dir,
            1000,
            log_ratio,
        ),
{
}

/// Half of a number, rounded away from zero.
pub open spec fn half_away(z: int) -> int {
    if z >= 0 {
        (z + 1) / 2
    } else {
        -((1 - z) / 2)
    }
}

/// A margin shrinks as the horizon grows: it is never larger over a longer time.
/// Over four times the time it is half as large, rounded as every margin is, as
/// long as it is not cut off at the limit.
pub proof fn margins_shrink_with_time(
    spot: int,
    strike: int,
    sigma: int,
    dir: int,
    shorter_ms: int,
    longer_ms: int,
    log_ratio: int,
)
    requires
        1000 <= shorter_ms <= longer_ms,
    ensures
        ({
            let near = margin(spot, strike, sigma, dir, shorter_ms, log_ratio);
            let far = margin(spot, strike, sigma, dir, longer_ms, log_ratio);
            &&& abs(far) <= abs(near)
            &&& longer_ms == 4 * shorter_ms && abs(near) < LIMIT ==> far == half_away(near)
            &&& longer_ms == 4 * shorter_ms && 0 <= near < LIMIT ==> 2 * far == near || 2 * far == near
                + 1
            &&& longer_ms == 4 * shorter_ms && -LIMIT < near <= 0 ==> 2 * far == near || 2 * far == near
                - 1
        }),
{
    if sigma > 0 {
        let near = cover(sigma, shorter_ms, log_ratio);
        let far = cover(sigma, longer_ms, log_ratio);
        lemma_cover_zero(sigma, shorter_ms, log_ratio);
        lemma_cover_zero(sigma, longer_ms, log_ratio);
        lemma_cover(sigma, shorter_ms, log_ratio);
        lemma_cover(sigma, longer_ms, log_ratio);
        lemma_covers_longer(near, sigma, shorter_ms, longer_ms, log_ratio);
        if far > near {
            lemma_covers_more(near, far - 1, sigma, longer_ms, log_ratio);
        }
        if longer_ms == 4 * shorter_ms {
            let half = (near + 1) / 2;
            lemma_covers_fourfold(half, sigma, shorter_ms, log_ratio);
            lemma_covers_fourfold(half - 1, sigma, shorter_ms, log_ratio);
            lemma_covers_more(near, 2 * half, sigma, shorter_ms, log_ratio);
            if half > 0 && covers(half - 1, sigma, longer_ms, log_ratio) {
                lemma_covers_more(2 * (half - 1), near - 1, sigma, shorter_ms, log_ratio);
            }
            assert(is_cover(half, sigma, longer_ms, log_ratio));
            lemma_cover_unique(half, far, sigma, longer_ms, log_ratio);
        }
    }
}

/// What covers a distance over some time covers it over a longer one.
proof fn lemma_covers_longer(z: int, sigma: int, shorter_ms: int, longer_ms: int, log_ratio: int)
    requires
        shorter_ms <= longer_ms,
        covers(z, sigma, shorter_ms, log_ratio),
    ensures
        covers(z, sigma, longer_ms, log_ratio),
{
    let v = sigma * sigma;
    let a = v * shorter_ms;
    let b = v * longer_ms;
    assert(0 <= z * z && 0 <= v) by (nonlinear_arith)
        requires
            v == sigma * sigma,
    ;
    assert(a <= b) by (nonlinear_arith)
        requires
            a == v * shorter_ms,
            b == v * longer_ms,
            0 <= v,
            shorter_ms <= longer_ms,
    ;
    assert((z * z) * a <= (z * z) * b) by (nonlinear_arith)
        requires
            0 <= z * z,
            a <= b,
    ;
}

/// Over four times the time, half as many moves cover a distance.
proof fn lemma_covers_fourfold(z: int, sigma: int, horizon_ms: int, log_ratio: int)
    ensures
        covers(z, sigma, 4 * horizon_ms, log_ratio) == covers(2 * z, sigma, horizon_ms, log_ratio),
{
    assert((z * z) * (sigma * sigma * (4 * horizon_ms)) == ((2 * z) * (2 * z)) * (sigma * sigma
        * horizon_ms)) by (nonlinear_arith);
}

/// A tick of the radar: when it came, and whether the detector fired.
pub struct RadarTick {
    pub ts: int,
    pub fired: bool,
}

/// The instant until which the alarm is on, after `ticks`.
pub open spec fn latch_after(until: int, ticks: Seq<RadarTick>, latch_ms: int) -> int
    decreases ticks.len(),
{
    if ticks.len() == 0 {
        until
    } else {
        next_latch(
            latch_after(until, ticks.drop_last(), latch_ms),
            ticks.last().fired,
            ticks.last().ts,
            latch_ms,
        )
    }
}

/// An alarm stays on for the whole latch: whatever comes after a tick that
/// fired, as long as time does not run backwards, the latch does not end
/// earlier.
pub proof fn alarm_holds_for_the_latch(until: int, start: int, ticks: Seq<RadarTick>, latch_ms: int)
    requires
        forall|i: int| 0 <= i < ticks.len() ==> (#[trigger] ticks[i]).ts >= start,
    ensures
        latch_after(next_latch(until, true, start, latch_ms), ticks, latch_ms) >= start + latch_ms,
    decreases ticks.len(),
{
    if ticks.len() > 0 {
        assert(ticks[ticks.len() - 1].ts >= start);
        assert forall|i: int| 0 <= i < ticks.drop_last().len() implies (
        #[trigger] ticks.drop_last()[i]).ts >= start by {
            assert(ticks[i].ts >= start);
        }
        alarm_holds_for_the_latch(until, start, ticks.drop_last(), latch_ms);
    }
}

/// An alarm ends with its latch: while the detector does not fire again, the
/// end of the latch stays where it is.
pub proof fn alarm_ends_with_the_latch(until: int, start: int, ticks: Seq<RadarTick>, latch_ms: int)
    requires
        forall|i: int| 0 <= i < ticks.len() ==> !(#[trigger] ticks[i]).fired,
    ensures
        latch_after(next_latch(until, true, start, latch_ms), ticks, latch_ms) == start + latch_ms,
    decreases ticks.len(),
{
    if ticks.len() > 0 {
        assert(!ticks[ticks.len() - 1].fired);
        assert forall|i: int| 0 <= i < ticks.drop_last().len() implies !(
        #[trigger] ticks.drop_last()[i]).fired by {
            assert(!ticks[i].fired);
        }
        alarm_ends_with_the_latch(until, start, ticks.drop_last(), latch_ms);
    }
}

/// The margin is the distance from the strike, counted in expected moves: with
/// the volatility and the time as they are given, it is the least number `z` for
/// which `z` times the volatility a second times the square root of the seconds
/// reaches the logarithm of the spot over the strike. Everything is squared, and
/// counted in billionths and trillionths. The horizon is the time that remains,
/// or a second where less remains.
pub proof fn margin_counts_expected_moves(
    spot: int,
    strike: int,
    sigma: int,
    dir: int,
    remaining_ms: int,
    log_ratio: int,
    horizon_ms: int,
)
    requires
        spot > 0,
        strike > 0,
        sigma > 0,
        dir == 1 || dir == -1,
        horizon_ms >= remaining_ms,
        horizon_ms >= 1000,
        horizon_ms == remaining_ms || horizon_ms == 1000,
    ensures
        ({
            let z = margin(spot, strike, sigma, dir, remaining_ms, log_ratio);
            let less = if z > 0 {
                z - 1
            } else {
                z + 1
            };
            &&& -1_000_000_000_000_000_000 <= z <= 1_000_000_000_000_000_000
            &&& dir == 1 && log_ratio >= 0 || dir == -1 && log_ratio <= 0 ==> z >= 0
            &&& dir == 1 && log_ratio <= 0 || dir == -1 && log_ratio >= 0 ==> z <= 0
            &&& -1_000_000_000_000_000_000 < z < 1_000_000_000_000_000_000 ==> (z * z) * (sigma
                * sigma * horizon_ms) >= (log_ratio * log_ratio) * 31_536_000_000_000_000_000_000
            &&& z != 0 ==> (less * less) * (sigma * sigma * horizon_ms) < (log_ratio * log_ratio)
                * 31_536_000_000_000_000_000_000
        }),
{
    let size = cover(sigma, horizon_ms, log_ratio);
    lemma_cover(sigma, horizon_ms, log_ratio);
    lemma_cover_zero(sigma, horizon_ms, log_ratio);
    let z = margin(spot, strike, sigma, dir, remaining_ms, log_ratio);
    assert(log_ratio * dir == if dir == 1 {
        log_ratio
    } else {
        -log_ratio
    }) by (nonlinear_arith)
        requires
            dir == 1 || dir == -1,
    ;
    let cut = min(size, LIMIT as int);
    assert((-cut) * (-cut) == cut * cut) by (nonlinear_arith);
    assert((1 - cut) * (1 - cut) == (cut - 1) * (cut - 1)) by (nonlinear_arith);
    if size > LIMIT && covers(LIMIT - 1, sigma, horizon_ms, log_ratio) {
        lemma_covers_more(LIMIT - 1, size - 1, sigma, horizon_ms, log_ratio);
    }
}

/// Twice the volatility halves the margin, rounded away from zero, as long as it
/// is not cut off at the limit; and more volatility never makes it larger.
pub proof fn margins_shrink_with_volatility(
    spot: int,
    strike: int,
    lower: int,
    higher: int,
    dir: int,
    remaining_ms: int,
    log_ratio: int,
)
    requires
        0 < lower <= higher,
    ensures
        ({
            let calm = margin(spot, strike, lower, dir, remaining_ms, log_ratio);
            let wild = margin(spot, strike, higher, dir, remaining_ms, log_ratio);
            &&& calm >= 0 ==> 0 <= wild <= calm
            &&& calm <= 0 ==> calm <= wild <= 0
            &&& higher == 2 * lower && 0 <= calm < 1_000_000_000_000_000_000 ==> 2 * wild == calm || 2
                * wild == calm + 1
            &&& higher == 2 * lower && -1_000_000_000_000_000_000 < calm <= 0 ==> 2 * wild == calm
                || 2 * wild == calm - 1
        }),
{
    let h = max(remaining_ms, 1000);
    let calm = cover(lower, h, log_ratio);
    let wild = cover(higher, h, log_ratio);
    lemma_cover(lower, h, log_ratio);
    lemma_cover(higher, h, log_ratio);
    lemma_cover_zero(lower, h, log_ratio);
    lemma_cover_zero(higher, h, log_ratio);
    assert(lower * lower * h <= higher * higher * h) by (nonlinear_arith)
        requires
            0 < lower <= higher,
            0 < h,
    ;
    assert(covers(calm, higher, h, log_ratio)) by {
        let a = lower * lower * h;
        let b = higher * higher * h;
        assert(0 <= calm * calm) by (nonlinear_arith);
        assert((calm * calm) * a <= (calm * calm) * b) by (nonlinear_arith)
            requires
                0 <= calm * calm,
                a <= b,
        ;
    }
    if wild > calm {
        lemma_covers_more(calm, wild - 1, higher, h, log_ratio);
    }
    if higher == 2 * lower {
        let half = (calm + 1) / 2;
        assert forall|z: int| #[trigger] covers(z, higher, h, log_ratio) == covers(
            2 * z,
            lower,
            h,
            log_ratio,
        ) by {
            assert((z * z) * ((2 * lower) * (2 * lower) * h) == ((2 * z) * (2 * z)) * (lower * lower
                * h)) by (nonlinear_arith);
        }
        assert(covers(half, higher, h, log_ratio) == covers(2 * half, lower, h, log_ratio));
        assert(covers(half - 1, higher, h, log_ratio) == covers(2 * (half - 1), lower, h, log_ratio));
        lemma_covers_more(calm, 2 * half, lower, h, log_ratio);
        if half > 0 && covers(half - 1, higher, h, log_ratio) {
            lemma_covers_more(2 * (half - 1), calm - 1, lower, h, log_ratio);
        }
        assert(is_cover(half, higher, h, log_ratio));
        lemma_cover_unique(half, wild, higher, h, log_ratio);
    }
}

/// A margin is a ratio: a distance and a volatility that are both several times
/// as large give the same margin.
pub proof fn margins_are_ratios(
    spot: int,
    strike: int,
    sigma: int,
    dir: int,
    remaining_ms: int,
    log_ratio: int,
    times: int,
)
    requires
        sigma > 0,
        times > 0,
        dir == 1 || dir == -1,
    ensures
        margin(spot, strike, times * sigma, dir, remaining_ms, times * log_ratio) == margin(
            spot,
            strike,
            sigma,
            dir,
            remaining_ms,
            log_ratio,
        ),
{
    let h = max(remaining_ms, 1000);
    let k = times * times;
    assert(times * sigma > 0) by (nonlinear_arith)
        requires
            times > 0,
            sigma > 0,
    ;
    assert(k > 0) by (nonlinear_arith)
        requires
            k == times * times,
            times > 0,
    ;
    assert forall|z: int| #[trigger] covers(z, times * sigma, h, times * log_ratio) == covers(
        z,
        sigma,
        h,
        log_ratio,
    ) by {
        let a = (z * z) * (sigma * sigma * h);
        let b = (log_ratio * log_ratio) * 31_536_000_000_000_000_000_000;
        assert((z * z) * ((times * sigma) * (times * sigma) * h) == k * a) by (nonlinear_arith)
            requires
                k == times * times,
                a == (z * z) * (sigma * sigma * h),
        ;
        assert(((times * log_ratio) * (times * log_ratio)) * 31_536_000_000_000_000_000_000 == k * b)
            by (nonlinear_arith)
            requires
                k == times * times,
                b == (log_ratio * log_ratio) * 31_536_000_000_000_000_000_000,
        ;
        assert(k * a >= k * b <==> a >= b) by (nonlinear_arith)
            requires
                k > 0,
        ;
    }
    let z = cover(sigma, h, log_ratio);
    lemma_cover(sigma, h, log_ratio);
    lemma_cover(times * sigma, h, times * log_ratio);
    assert(covers(z, times * sigma, h, times * log_ratio) == covers(z, sigma, h, log_ratio));
    assert(covers(z - 1, times * sigma, h, times * log_ratio) == covers(
        z - 1,
        sigma,
        h,
        log_ratio,
    ));
    lemma_cover_unique(
        z,
        cover(times * sigma, h, times * log_ratio),
        times * sigma,
        h,
        times * log_ratio,
    );
    assert((times * log_ratio) * dir >= 0 <==> log_ratio * dir >= 0) by (nonlinear_arith)
        requires
            times > 0,
            dir == 1 || dir == -1,
    ;
}

/// The move that is expected over a time, squared, is the volatility squared
/// times the part of a year that the time is, rounded down.
pub proof fn moves_are_volatility_times_root_of_time(sigma: int, horizon_ms: int)
    requires
        0 <= horizon_ms,
    ensures
        ({
            let m = expected_move(sigma, horizon_ms);
            &&& 0 <= m
            &&& m * m * 31_536 <= sigma * sigma * horizon_ms
            &&& sigma * sigma * horizon_ms < (m + 1) * (m + 1) * 31_536
        }),
{
    let v = sigma * sigma * horizon_ms;
    assert(0 <= sigma * sigma) by (nonlinear_arith);
    assert(0 <= v) by (nonlinear_arith)
        requires
            v == sigma * sigma * horizon_ms,
            0 <= sigma * sigma,
            0 <= horizon_ms,
    ;
    lemma_sqrt_of(v / 31_536);
}

/// Sight is fresh exactly if something was seen and less than the limit ago; what
/// comes from the future is as good as new.
pub proof fn sight_grows_stale(gs: GuardState, now_ms: int, max_age_ms: int)
    ensures
        gs.fresh(now_ms, max_age_ms) <==> gs.ts_ms > 0 && max_age_ms > 0 && now_ms < gs.ts_ms
            + max_age_ms,
{
}

/// A latch is moved by a tick that fires, to its whole length from then, and by
/// nothing else.
pub proof fn a_latch_is_moved_by_firing_only(until: int, ticks: Seq<RadarTick>, last: RadarTick, latch_ms: int)
    ensures
        latch_after(until, Seq::empty(), latch_ms) == until,
        last.fired ==> latch_after(until, ticks.push(last), latch_ms) == last.ts + latch_ms,
        !last.fired ==> latch_after(until, ticks.push(last), latch_ms) == latch_after(
            until,
            ticks,
            latch_ms,
        ),
{
    assert(ticks.push(last).drop_last() =~= ticks);
}

} // verus!
