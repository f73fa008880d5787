//! The order book of an outcome token, as the venue quotes it: levels in no
//! particular order.

use vstd::prelude::*;

use crate::fixed::{stake, NANO, STAKE_LIMIT};

verus! {

/// One price level: `size` shares at `price` dollars each.
#[derive(Debug, Clone, Copy, PartialEq, Eq, Structural)]
pub struct Level {
    pub price: i64,
    pub size: i64,
}

/// Both sides of the book.
#[derive(Debug, Clone)]
pub struct PolyBook {
    pub bids: Vec<Level>,
    pub asks: Vec<Level>,
}

impl Level {
    /// An outcome token pays one dollar or nothing, so its price is between
    /// zero and one.
    pub open spec fn wf(self) -> bool {
        0 <= self.price <= NANO && stake(self.size)
    }
}

/// The shares that `levels` hold in all.
pub open spec fn depth(levels: Seq<Level>) -> int
    decreases levels.len(),
{
    if levels.len() == 0 {
        0
    } else {
        depth(levels.drop_last()) + levels.last().size
    }
}

/// Every level is well formed, and the shares in all stay within [`STAKE_LIMIT`].
pub open spec fn levels_wf(levels: Seq<Level>) -> bool {
    &&& forall|i: int| 0 <= i < levels.len() ==> (#[trigger] levels[i]).wf()
    &&& depth(levels) <= STAKE_LIMIT
}

/// `p` is the highest price of `levels`, or nothing where there is no level.
pub open spec fn is_highest(levels: Seq<Level>, p: Option<i64>) -> bool {
    match p {
        Some(x) => {
            &&& exists|i: int| 0 <= i < levels.len() && (#[trigger] levels[i]).price == x
            &&& forall|i: int| 0 <= i < levels.len() ==> (#[trigger] levels[i]).price <= x
        },
        None => levels.len() == 0,
    }
}

/// `p` is the lowest price of `levels`, or nothing where there is no level.
pub open spec fn is_lowest(levels: Seq<Level>, p: Option<i64>) -> bool {
    match p {
        Some(x) => {
            &&& exists|i: int| 0 <= i < levels.len() && (#[trigger] levels[i]).price == x
            &&& forall|i: int| 0 <= i < levels.len() ==> (#[trigger] levels[i]).price >= x
        },
        None => levels.len() == 0,
    }
}

/// The highest price of `levels`.
pub open spec fn highest(levels: Seq<Level>) -> Option<i64>
    decreases levels.len(),
{
    if levels.len() == 0 {
        None
    } else {
        match highest(levels.drop_last()) {
            Some(p) if p >= levels.last().price => Some(p),
            _ => Some(levels.last().price),
        }
    }
}

/// The lowest price of `levels`.
pub open spec fn lowest(levels: Seq<Level>) -> Option<i64>
    decreases levels.len(),
{
    if levels.len() == 0 {
        None
    } else {
        match lowest(levels.drop_last()) {
            Some(p) if p <= levels.last().price => Some(p),
            _ => Some(levels.last().price),
        }
    }
}

/// [`highest`] is what its name says: the price of some level, and no level's
/// price is above it.
pub proof fn highest_is_highest(levels: Seq<Level>)
    ensures
        is_highest(levels, highest(levels)),
    decreases levels.len(),
{
    if levels.len() > 0 {
        let front = levels.drop_last();
        highest_is_highest(front);
        let n = levels.len() - 1;
        assert(levels[n] == levels.last());
        match highest(front) {
            Some(p) if p >= levels.last().price => {
                let i = choose|i: int| 0 <= i < front.len() && (#[trigger] front[i]).price == p;
                assert(levels[i].price == p);
            },
            _ => {},
        }
        assert forall|i: int| 0 <= i < levels.len() implies (#[trigger] levels[i]).price
            <= highest(levels)->0 by {
            if i < n {
                assert(front[i] == levels[i]);
            }
        }
    }
}

/// [`lowest`] is what its name says: the price of some level, and no level's
/// price is below it.
pub proof fn lowest_is_lowest(levels: Seq<Level>)
    ensures
        is_lowest(levels, lowest(levels)),
    decreases levels.len(),
{
    if levels.len() > 0 {
        let front = levels.drop_last();
        lowest_is_lowest(front);
        let n = levels.len() - 1;
        assert(levels[n] == levels.last());
        match lowest(front) {
            Some(p) if p <= levels.last().price => {
                let i = choose|i: int| 0 <= i < front.len() && (#[trigger] front[i]).price == p;
                assert(levels[i].price == p);
            },
            _ => {},
        }
        assert forall|i: int| 0 <= i < levels.len() implies (#[trigger] levels[i]).price
            >= lowest(levels)->0 by {
            if i < n {
                assert(front[i] == levels[i]);
            }
        }
    }
}

pub proof fn lemma_depth_nonnegative(levels: Seq<Level>)
    requires
        forall|i: int| 0 <= i < levels.len() ==> (#[trigger] levels[i]).wf(),
    ensures
        0 <= depth(levels),
    decreases levels.len(),
{
    if levels.len() > 0 {
        assert(levels.last().wf());
        assert forall|i: int| 0 <= i < levels.drop_last().len() implies (
        #[trigger] levels.drop_last()[i]).wf() by {
            assert(levels[i].wf());
        }
        lemma_depth_nonnegative(levels.drop_last());
    }
}

/// A prefix holds no more shares than the whole.
pub proof fn lemma_depth_prefix(levels: Seq<Level>, n: int)
    requires
        0 <= n <= levels.len(),
        forall|i: int| 0 <= i < levels.len() ==> (#[trigger] levels[i]).wf(),
    ensures
        0 <= depth(levels.take(n)) <= depth(levels),
    decreases levels.len() - n,
{
    assert forall|i: int| 0 <= i < levels.take(n).len() implies (#[trigger] levels.take(
        n,
    )[i]).wf() by {
        assert(levels[i].wf());
    }
    lemma_depth_nonnegative(levels.take(n));
    if n == levels.len() {
        assert(levels.take(n) =~= levels);
    } else {
        assert(levels.take(n + 1).drop_last() =~= levels.take(n));
        assert(levels.take(n + 1).last() == levels[n]);
        assert(levels[n].wf());
        lemma_depth_prefix(levels, n + 1);
    }
}

/// Checks [`levels_wf`].
pub fn check_levels(levels: &Vec<Level>) -> (r: bool)
    ensures
        r == levels_wf(levels@),
{
    let mut total: i64 = 0;
    let mut i: usize = 0;
    while i < levels.len()
        invariant
            i <= levels.len(),
            total == depth(levels@.take(i as int)),
            0 <= total <= STAKE_LIMIT,
            forall|j: int| 0 <= j < i ==> (#[trigger] levels@[j]).wf(),
        decreases levels.len() - i,
    {
        let l = levels[i];
        if l.price < 0 || l.price > NANO || l.size < 0 || l.size > STAKE_LIMIT {
            assert(!levels@[i as int].wf());
            return false;
        }
        proof {
            assert(levels@.take(i + 1).drop_last() =~= levels@.take(i as int));
            assert(levels@.take(i + 1).last() == l);
        }
        if total > STAKE_LIMIT - l.size {
            proof {
                if levels_wf(levels@) {
                    lemma_depth_prefix(levels@, i + 1);
                }
            }
            return false;
        }
        total = total + l.size;
        i = i + 1;
    }
    assert(levels@.take(levels.len() as int) =~= levels@);
    true
}

/// Whether a book that was seen at `ts_ms` may still be used.
pub fn is_recent(ts_ms: u64, now_ms: u64, max_age_ms: u64) -> (r: bool)
    ensures
        r == (now_ms - ts_ms <= max_age_ms),
{
    now_ms.saturating_sub(ts_ms) <= max_age_ms
}

impl PolyBook {
    pub open spec fn wf(self) -> bool {
        levels_wf(self.bids@) && levels_wf(self.asks@)
    }

    /// A book without levels.
    pub fn empty() -> (r: Self)
        ensures
            r.bids@ == Seq::<Level>::empty(),
            r.asks@ == Seq::<Level>::empty(),
            r.wf(),
    {
        PolyBook { bids: Vec::new(), asks: Vec::new() }
    }

    /// Checks [`PolyBook::wf`].
    pub fn is_valid(&self) -> (r: bool)
        ensures
            r == self.wf(),
    {
        check_levels(&self.bids) && check_levels(&self.asks)
    }

    /// The highest price that a buyer offers.
    pub fn best_bid(&self) -> (r: Option<i64>)
        ensures
            r == highest(self.bids@),
            is_highest(self.bids@, r),
    {
        let mut best: Option<i64> = None;
        let mut i: usize = 0;
        while i < self.bids.len()
            invariant
                i <= self.bids.len(),
                best == highest(self.bids@.take(i as int)),
            decreases self.bids.len() - i,
        {
            let price: i64 = self.bids[i].price;
            proof {
                assert(self.bids@.take(i + 1).drop_last() =~= self.bids@.take(i as int));
                assert(self.bids@.take(i + 1).last() == self.bids@[i as int]);
            }
            best = match best {
                Some(p) if p >= price => Some(p),
                _ => Some(price),
            };
            i = i + 1;
        }
        proof {
            assert(self.bids@.take(self.bids.len() as int) =~= self.bids@);
            highest_is_highest(self.bids@);
        }
        best
    }

    /// The lowest price that a seller asks.
    pub fn best_ask(&self) -> (r: Option<i64>)
        ensures
            r == lowest(self.asks@),
            is_lowest(self.asks@, r),
    {
        let mut best: Option<i64> = None;
        let mut i: usize = 0;
        while i < self.asks.len()
            invariant
                i <= self.asks.len(),
                best == lowest(self.asks@.take(i as int)),
            decreases self.asks.len() - i,
        {
            let price: i64 = self.asks[i].price;
            proof {
                assert(self.asks@.take(i + 1).drop_last() =~= self.asks@.take(i as int));
                assert(self.asks@.take(i + 1).last() == self.asks@[i as int]);
            }
            best = match best {
                Some(p) if p <= price => Some(p),
                _ => Some(price),
            };
            i = i + 1;
        }
        proof {
            assert(self.asks@.take(self.asks.len() as int) =~= self.asks@);
            lowest_is_lowest(self.asks@);
        }
        best
    }
}

/// The depth of some levels is the sum of their sizes.
pub proof fn depths_add_up(levels: Seq<Level>, l: Level)
    ensures
        depth(Seq::empty()) == 0,
        depth(levels.push(l)) == depth(levels) + l.size,
{
    assert(levels.push(l).drop_last() =~= levels);
}

} // verus!
