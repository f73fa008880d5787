//! The runaway detector: an extreme imbalance of the book together with a
//! violent move of the micro-price over the last second.

use std::collections::VecDeque;

use vstd::prelude::*;

use crate::fixed::{abs, amount, quotient, NANO};
use crate::types::{top, top_volume, volume, BinanceOrderBook};

verus! {

/// A micro-price and when it was seen.
#[derive(Debug, Clone, Copy, PartialEq, Eq, Structural)]
pub struct Sample {
    pub ts_ms: u64,
    pub price: i64,
}

/// The detector: a sliding window of micro-prices and the two thresholds.
#[derive(Debug)]
pub struct RadarEngine {
    pub lookback_ms: u64,
    pub history: VecDeque<Sample>,
    pub obi_depth_levels: usize,
    pub obi_threshold: i64,
    pub velocity_threshold: i64,
}

/// The imbalance of two volumes, between minus one and one: the surplus of bids
/// as a fraction of the whole, and zero where there is nothing.
pub open spec fn imbalance(bid_volume: int, ask_volume: int) -> int {
    if bid_volume + ask_volume == 0 {
        0
    } else {
        quotient((bid_volume - ask_volume) * NANO, bid_volume + ask_volume)
    }
}

/// The imbalance of a book over its first `levels` quotes on each side.
pub open spec fn book_imbalance(book: BinanceOrderBook, levels: int) -> int {
    imbalance(volume(top(book.bids@, levels)), volume(top(book.asks@, levels)))
}

/// `history` without the samples at its front that are older than `lookback`
/// at `now`.
pub open spec fn purged(history: Seq<Sample>, now: int, lookback: int) -> Seq<Sample>
    decreases history.len(),
{
    if history.len() > 0 && now - history.first().ts_ms > lookback {
        purged(history.drop_first(), now, lookback)
    } else {
        history
    }
}

/// How far the price went from the oldest sample to the newest.
pub open spec fn displacement(history: Seq<Sample>) -> int {
    if history.len() == 0 {
        0
    } else {
        history.last().price - history.first().price
    }
}

/// The history after a tick that shows `book` at `now`.
pub open spec fn next_history(
    history: Seq<Sample>,
    now: u64,
    book: BinanceOrderBook,
    lookback: int,
) -> Seq<Sample> {
    match book.micro() {
        Some(p) => purged(history.push(Sample { ts_ms: now, price: p as i64 }), now as int, lookback),
        None => history,
    }
}

/// The detector fires: two samples at least, an imbalance and a displacement
/// that both reach their thresholds.
pub open spec fn fires(
    history: Seq<Sample>,
    obi: int,
    obi_threshold: int,
    velocity_threshold: int,
) -> bool {
    &&& history.len() >= 2
    &&& abs(obi) >= obi_threshold
    &&& abs(displacement(history)) >= velocity_threshold
}

/// Time does not run backwards along `history`.
pub open spec fn chronological(history: Seq<Sample>) -> bool {
    forall|i: int, j: int|
        0 <= i <= j < history.len() ==> (#[trigger] history[i]).ts_ms <= (#[trigger] history[j]).ts_ms
}

impl RadarEngine {
    pub open spec fn wf(self) -> bool {
        forall|i: int| 0 <= i < self.history@.len() ==> amount((#[trigger] self.history@[i]).price)
    }

    /// A detector with an empty window of one second.
    pub fn new(obi_depth_levels: usize, obi_threshold: i64, velocity_threshold: i64) -> (r: Self)
        ensures
            r.wf(),
            r.lookback_ms == 1000,
            r.history@ == Seq::<Sample>::empty(),
            r.obi_depth_levels == obi_depth_levels,
            r.obi_threshold == obi_threshold,
            r.velocity_threshold == velocity_threshold,
    {
        RadarEngine {
            lookback_ms: 1000,
            history: VecDeque::new(),
            obi_depth_levels,
            obi_threshold,
            velocity_threshold,
        }
    }

    /// The imbalance of the book over the levels that the detector looks at.
    pub fn calculate_obi(&self, book: &BinanceOrderBook) -> (r: i64)
        requires
            book.wf(),
        ensures
            r == book_imbalance(*book, self.obi_depth_levels as int),
            -NANO <= r <= NANO,
    {
        let bid_volume = top_volume(&book.bids, self.obi_depth_levels);
        let ask_volume = top_volume(&book.asks, self.obi_depth_levels);
        if bid_volume + ask_volume == 0 {
            return 0;
        }
        proof {
            imbalance_is_a_fraction(bid_volume as int, ask_volume as int);
        }
        let surplus: i128 = ((bid_volume - ask_volume) as i128) * (NANO as i128);
        crate::fixed::div_trunc(surplus, (bid_volume + ask_volume) as i128) as i64
    }

    /// How far the micro-price went over the window.
    pub fn velocity(&self) -> (r: i64)
        requires
            self.wf(),
        ensures
            r == displacement(self.history@),
            crate::fixed::signed(r),
    {
        let n = self.history.len();
        if n == 0 {
            0
        } else {
            proof {
                assert(amount(self.history@[0].price));
                assert(amount(self.history@[n - 1].price));
            }
            self.history[n - 1].price - self.history[0].price
        }
    }

    /// Takes in the book at `current_time_ms`, and tells whether the detector
    /// fires.
    pub fn tick(&mut self, current_time_ms: u64, book: &BinanceOrderBook) -> (r: bool)
        requires
            old(self).wf(),
            book.wf(),
        ensures
            final(self).wf(),
            final(self).lookback_ms == old(self).lookback_ms,
            final(self).obi_depth_levels == old(self).obi_depth_levels,
            final(self).obi_threshold == old(self).obi_threshold,
            final(self).velocity_threshold == old(self).velocity_threshold,
            final(self).history@ == next_history(
                old(self).history@,
                current_time_ms,
                *book,
                old(self).lookback_ms as int,
            ),
            r == (book.micro() is Some && fires(
                final(self).history@,
                book_imbalance(*book, old(self).obi_depth_levels as int),
                old(self).obi_threshold as int,
                old(self).velocity_threshold as int,
            )),
            r ==> final(self).history@.len() >= 2,
            final(self).history@.len() >= 2 && book.micro() is Some ==> {
                let obi = book_imbalance(*book, old(self).obi_depth_levels as int);
                let move_up = final(self).history@.last().price - final(self).history@.first().price;
                r <==> (obi >= old(self).obi_threshold || -obi >= old(self).obi_threshold) && (move_up
                    >= old(self).velocity_threshold || -move_up >= old(self).velocity_threshold)
            },
    {
        let micro = match book.calculate_micro_price() {
            Some(p) => p,
            None => {
                return false;
            },
        };
        self.history.push_back(Sample { ts_ms: current_time_ms, price: micro });
        let ghost pushed = self.history@;
        let ghost lookback = self.lookback_ms as int;
        assert(forall|i: int| 0 <= i < pushed.len() ==> amount((#[trigger] pushed[i]).price));
        while self.history.len() > 0 && current_time_ms.saturating_sub(self.history[0].ts_ms)
            > self.lookback_ms
            invariant
                self.wf(),
                self.lookback_ms == lookback,
                self.obi_depth_levels == old(self).obi_depth_levels,
                self.obi_threshold == old(self).obi_threshold,
                self.velocity_threshold == old(self).velocity_threshold,
                purged(self.history@, current_time_ms as int, lookback) == purged(
                    pushed,
                    current_time_ms as int,
                    lookback,
                ),
            decreases self.history.len(),
        {
            let ghost before = self.history@;
            let _ = self.history.pop_front();
            proof {
                assert(self.history@ =~= before.drop_first());
                assert forall|i: int| 0 <= i < self.history@.len() implies amount(
                    (#[trigger] self.history@[i]).price,
                ) by {
                    assert(amount(before[i + 1].price));
                }
            }
        }
        if self.history.len() < 2 {
            return false;
        }
        let velocity = self.velocity();
        let obi = self.calculate_obi(book);
        let obi_size: i64 = if obi < 0 {
            -obi
        } else {
            obi
        };
        let velocity_size: i64 = if velocity < 0 {
            -velocity
        } else {
            velocity
        };
        obi_size >= self.obi_threshold && velocity_size >= self.velocity_threshold
    }
}

/// An imbalance lies between minus one and one.
pub proof fn imbalance_is_a_fraction(bid_volume: int, ask_volume: int)
    requires
        0 <= bid_volume,
        0 <= ask_volume,
    ensures
        -NANO <= imbalance(bid_volume, ask_volume) <= NANO,
{
    let total = bid_volume + ask_volume;
    if total > 0 {
        let size = abs(bid_volume - ask_volume) * NANO;
        assert(0 <= size <= total * NANO);
        assert(0 <= size / total <= NANO) by (nonlinear_arith)
            requires
                0 <= size <= total * NANO,
                total > 0,
        ;
        assert((ask_volume - bid_volume) * NANO == -((bid_volume - ask_volume) * NANO));
    }
}

/// Rounding an imbalance does not change whether it reaches a threshold: it does
/// exactly when the surplus, as a fraction of the whole, does.
pub proof fn imbalance_reaches_exactly(bid_volume: int, ask_volume: int, threshold: int)
    requires
        0 <= bid_volume,
        0 <= ask_volume,
        0 < bid_volume + ask_volume,
        0 <= threshold,
    ensures
        abs(imbalance(bid_volume, ask_volume)) >= threshold <==> abs(bid_volume - ask_volume) * NANO
            >= threshold * (bid_volume + ask_volume),
{
    let total = bid_volume + ask_volume;
    let size = abs(bid_volume - ask_volume) * NANO;
    assert((ask_volume - bid_volume) * NANO == -((bid_volume - ask_volume) * NANO));
    assert(abs(imbalance(bid_volume, ask_volume)) == size / total) by {
        assert(0 <= size / total) by (nonlinear_arith)
            requires
                0 <= size,
                total > 0,
        ;
    }
    assert(size / total >= threshold <==> size >= threshold * total) by (nonlinear_arith)
        requires
            0 <= size,
            total > 0,
            0 <= threshold,
    ;
}

/// Only samples of the last `lookback` milliseconds survive a purge, where time
/// does not run backwards; and the newest sample always does.
pub proof fn purge_keeps_the_window(history: Seq<Sample>, now: int, lookback: int)
    requires
        chronological(history),
        history.len() > 0,
        history.last().ts_ms == now,
        0 <= lookback,
    ensures
        chronological(purged(history, now, lookback)),
        purged(history, now, lookback).len() > 0,
        purged(history, now, lookback).last() == history.last(),
        forall|i: int|
            0 <= i < purged(history, now, lookback).len() ==> now - (#[trigger] purged(
                history,
                now,
                lookback,
            )[i]).ts_ms <= lookback,
        forall|i: int|
            0 <= i < history.len() && now - (#[trigger] history[i]).ts_ms <= lookback ==> purged(
                history,
                now,
                lookback,
            ).contains(history[i]),
    decreases history.len(),
{
    if now - history.first().ts_ms > lookback {
        let rest = history.drop_first();
        assert(rest.last() == history.last()) by {
            assert(history.len() > 1);
        }
        assert forall|i: int, j: int| 0 <= i <= j < rest.len() implies (#[trigger] rest[i]).ts_ms
            <= (#[trigger] rest[j]).ts_ms by {
            assert(history[i + 1].ts_ms <= history[j + 1].ts_ms);
        }
        purge_keeps_the_window(rest, now, lookback);
        assert forall|i: int|
            0 <= i < history.len() && now - (#[trigger] history[i]).ts_ms <= lookback implies purged(
            history,
            now,
            lookback,
        ).contains(history[i]) by {
            assert(rest[i - 1] == history[i]);
        }
    } else {
        assert(purged(history, now, lookback) == history);
        assert forall|i: int| 0 <= i < history.len() implies now - (#[trigger] history[i]).ts_ms
            <= lookback by {
            assert(history[0].ts_ms <= history[i].ts_ms);
        }
    }
}

/// The detector fires exactly if it has two samples at least, one side of the book
/// outweighs the other by the threshold, and the price went up or down by the
/// threshold from the first sample to the last.
pub proof fn the_detector_fires_either_way(
    history: Seq<Sample>,
    obi: int,
    obi_threshold: int,
    velocity_threshold: int,
)
    ensures
        history.len() < 2 ==> !fires(history, obi, obi_threshold, velocity_threshold),
        history.len() >= 2 ==> {
            let first = history[0].price;
            let last = history[history.len() - 1].price;
            fires(history, obi, obi_threshold, velocity_threshold) <==> (obi >= obi_threshold || -obi
                >= obi_threshold) && (last - first >= velocity_threshold || first - last
                >= velocity_threshold)
        },
{
}

/// The direction of a move does not matter: a history with all its prices
/// mirrored, and a book with its sides exchanged, fire alike.
pub proof fn the_detector_is_symmetric(
    history: Seq<Sample>,
    mirrored: Seq<Sample>,
    mirror: int,
    obi: int,
    obi_threshold: int,
    velocity_threshold: int,
)
    requires
        history.len() == mirrored.len(),
        forall|i: int|
            0 <= i < history.len() ==> (#[trigger] history[i]).price + (#[trigger] mirrored[i]).price
                == mirror,
    ensures
        fires(mirrored, obi, obi_threshold, velocity_threshold) == fires(
            history,
            obi,
            obi_threshold,
            velocity_threshold,
        ),
        fires(history, -obi, obi_threshold, velocity_threshold) == fires(
            history,
            obi,
            obi_threshold,
            velocity_threshold,
        ),
        displacement(mirrored) == -displacement(history),
{
    if history.len() > 0 {
        let n = history.len() - 1;
        assert(history[0].price + mirrored[0].price == mirror);
        assert(history[n].price + mirrored[n].price == mirror);
    }
}

/// How far the price went: the last price less the first, and nothing where there
/// is no sample.
pub proof fn displacements_go_from_first_to_last(history: Seq<Sample>)
    ensures
        history.len() == 0 ==> displacement(history) == 0,
        history.len() > 0 ==> history[0].price + displacement(history) == history[history.len()
            - 1].price,
{
}

/// An imbalance is the surplus of the bids as a fraction of the whole, rounded
/// towards zero: exchanging the sides changes its sign.
pub proof fn imbalance_is_the_surplus(bid_volume: int, ask_volume: int)
    requires
        0 <= bid_volume,
        0 <= ask_volume,
    ensures
        imbalance(ask_volume, bid_volume) == -imbalance(bid_volume, ask_volume),
        bid_volume == ask_volume ==> imbalance(bid_volume, ask_volume) == 0,
        bid_volume > ask_volume ==> {
            let z = imbalance(bid_volume, ask_volume);
            &&& z >= 0
            &&& z * (bid_volume + ask_volume) <= (bid_volume - ask_volume) * 1_000_000_000
            &&& (bid_volume - ask_volume) * 1_000_000_000 < (z + 1) * (bid_volume + ask_volume)
        },
{
    let total = bid_volume + ask_volume;
    let surplus = (bid_volume - ask_volume) * NANO;
    assert((ask_volume - bid_volume) * NANO == -surplus);
    if total > 0 {
        crate::fixed::quotients_round_towards_zero(surplus, total);
        let z = quotient(surplus, total);
        assert(total * z == z * total && total * (z + 1) == (z + 1) * total) by (nonlinear_arith);
        if surplus == 0 {
            assert(0int / total == 0) by (nonlinear_arith)
                requires
                    total > 0,
            ;
        }
    }
}

/// The imbalance of a book goes by its first quotes on each side: books that agree
/// in those, and hold anything beyond, have the same.
pub proof fn only_the_first_quotes_count(a: BinanceOrderBook, b: BinanceOrderBook, levels: int)
    requires
        0 <= levels <= a.bids@.len(),
        levels <= a.asks@.len(),
        levels <= b.bids@.len(),
        levels <= b.asks@.len(),
        forall|i: int| 0 <= i < levels ==> #[trigger] a.bids@[i] == b.bids@[i],
        forall|i: int| 0 <= i < levels ==> #[trigger] a.asks@[i] == b.asks@[i],
    ensures
        book_imbalance(a, levels) == book_imbalance(b, levels),
        book_imbalance(a, levels) == imbalance(
            volume(a.bids@.take(levels)),
            volume(a.asks@.take(levels)),
        ),
{
    assert(a.bids@.take(levels) =~= b.bids@.take(levels));
    assert(a.asks@.take(levels) =~= b.asks@.take(levels));
    assert(a.bids@.take(a.bids@.len() as int) =~= a.bids@);
    assert(b.bids@.take(b.bids@.len() as int) =~= b.bids@);
    assert(a.asks@.take(a.asks@.len() as int) =~= a.asks@);
    assert(b.asks@.take(b.asks@.len() as int) =~= b.asks@);
}

/// A purge takes samples from the front only: those that are too old, up to the
/// first that is not.
pub proof fn a_purge_takes_from_the_front(history: Seq<Sample>, now: int, lookback: int) -> (k: int)
    ensures
        0 <= k <= history.len(),
        purged(history, now, lookback) == history.skip(k),
        forall|i: int| 0 <= i < k ==> now - (#[trigger] history[i]).ts_ms > lookback,
        k < history.len() ==> now - history[k].ts_ms <= lookback,
    decreases history.len(),
{
    if history.len() > 0 && now - history.first().ts_ms > lookback {
        let rest = history.drop_first();
        let k = a_purge_takes_from_the_front(rest, now, lookback);
        assert(rest.skip(k) =~= history.skip(k + 1));
        assert forall|i: int| 0 <= i < k + 1 implies now - (#[trigger] history[i]).ts_ms > lookback by {
            if i > 0 {
                assert(rest[i - 1] == history[i]);
            }
        }
        if k + 1 < history.len() {
            assert(rest[k] == history[k + 1]);
        }
        k + 1
    } else {
        assert(history.skip(0) =~= history);
        0
    }
}

/// A tick adds the micro-price of its book as the newest sample, and a book
/// without one changes nothing.
pub proof fn a_tick_adds_the_micro_price(
    history: Seq<Sample>,
    now: u64,
    book: BinanceOrderBook,
    lookback: int,
)
    requires
        0 <= lookback,
    ensures
        book.micro() is None ==> next_history(history, now, book, lookback) == history,
        book.micro() matches Some(p) ==> {
            let after = next_history(history, now, book, lookback);
            &&& 1 <= after.len() <= history.len() + 1
            &&& after[after.len() - 1] == Sample { ts_ms: now, price: p as i64 }
            &&& forall|i: int|
                0 <= i < after.len() - 1 ==> #[trigger] after[i] == history[i + (history.len() + 1
                    - after.len())]
        },
{
    if let Some(p) = book.micro() {
        let all = history.push(Sample { ts_ms: now, price: p as i64 });
        let k = a_purge_takes_from_the_front(all, now as int, lookback);
        assert(all[all.len() - 1].ts_ms == now);
        if k == all.len() {
            assert(now - all[all.len() - 1].ts_ms > lookback);
        }
    }
}

/// The imbalance of a book is that of the quantities of its first quotes, or of all
/// where there are fewer.
pub proof fn the_imbalance_of_a_book(book: BinanceOrderBook, levels: int)
    requires
        0 <= levels,
    ensures
        ({
            let bids = if levels <= book.bids@.len() {
                volume(book.bids@.take(levels))
            } else {
                volume(book.bids@)
            };
            let asks = if levels <= book.asks@.len() {
                volume(book.asks@.take(levels))
            } else {
                volume(book.asks@)
            };
            &&& bids == asks ==> book_imbalance(book, levels) == 0
            &&& book_imbalance(book, levels) == imbalance(bids, asks)
        }),
{
    assert(book.bids@.take(book.bids@.len() as int) =~= book.bids@);
    assert(book.asks@.take(book.asks@.len() as int) =~= book.asks@);
    let bids = volume(top(book.bids@, levels));
    let asks = volume(top(book.asks@, levels));
    if bids == asks && bids + asks != 0 {
        assert(quotient(0, bids + asks) == 0) by (nonlinear_arith)
            requires
                bids + asks != 0,
                quotient(0, bids + asks) == 0int / (bids + asks),
        ;
    }
}

} // verus!
