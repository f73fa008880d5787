//! Simulated execution against a real book. Orders take what the book shows,
//! level by level, in whole lots; each fill pays a taker fee of
//! `rate * p * (1 - p)` per share; an emergency sale finds only a part of the
//! depth that is displayed.

use vstd::prelude::*;

use crate::book::{
    depth, lemma_depth_nonnegative, levels_wf, Level, PolyBook,
};
use crate::fixed::{
    amount, is_amount, is_stake, max, min, signed, stake, LIMIT, LOT, NANO, STAKE_LIMIT,
};

verus! {

/// What an order obtained: shares bought or sold, dollars paid or received
/// before fees, the fees, and the mean price.
#[derive(Debug, Clone, Copy, PartialEq, Eq, Structural)]
pub struct Fill {
    pub shares: i64,
    pub notional: i64,
    pub fees: i64,
    pub avg_price: i64,
}

impl Fill {
    /// The amounts of a fill are in range.
    pub open spec fn wf(self) -> bool {
        stake(self.shares) && stake(self.notional) && stake(self.fees) && amount(self.avg_price)
    }

    pub open spec fn zero() -> Fill {
        Fill { shares: 0, notional: 0, fees: 0, avg_price: 0 }
    }

    /// An order that obtained nothing.
    pub fn none() -> (r: Self)
        ensures
            r == Fill::zero(),
            r.wf(),
    {
        Fill { shares: 0, notional: 0, fees: 0, avg_price: 0 }
    }

    /// Checks [`Fill::wf`].
    pub fn is_valid(&self) -> (r: bool)
        ensures
            r == self.wf(),
    {
        is_stake(self.shares) && is_stake(self.notional) && is_stake(self.fees) && is_amount(
            self.avg_price,
        )
    }
}

/// A size brought down to a whole number of lots.
pub open spec fn rounded(sz: int) -> int {
    (sz / LOT as int) * LOT
}

/// Brings a size down to a whole number of lots: two decimals, never more.
pub fn round_size(sz: i64) -> (r: i64)
    requires
        signed(sz),
    ensures
        r == rounded(sz as int),
        sz - LOT < r <= sz,
        sz >= 0 ==> r >= 0,
{
    if sz >= 0 {
        (sz / LOT) * LOT
    } else {
        let q: i64 = (LOT - 1 - sz) / LOT;
        proof {
            assert((sz as int) / (LOT as int) == -q) by (nonlinear_arith)
                requires
                    q == (LOT - 1 - sz) / (LOT as int),
                    LOT == 10_000_000,
            ;
        }
        -(q * LOT)
    }
}

/// What a sweep of the book adds up to, exactly: the lots, what they cost in
/// hundredths of a billionth of a dollar, and the fees in such units too, times
/// the square of [`NANO`].
#[verifier::ext_equal]
pub struct Sweep {
    pub lots: int,
    pub cost: int,
    pub fees: int,
}

pub open spec fn no_sweep() -> Sweep {
    Sweep { lots: 0, cost: 0, fees: 0 }
}

/// The taker fee on one lot at `price`: the rate, times the price, times its
/// complement to one.
pub open spec fn lot_fee(rate: int, price: int) -> int {
    rate * price * (NANO - price)
}

/// A sweep that takes `lots` at `price` and then does `rest`.
pub open spec fn then_sweep(rate: int, price: int, lots: int, rest: Sweep) -> Sweep {
    Sweep {
        lots: lots + rest.lots,
        cost: lots * price + rest.cost,
        fees: lot_fee(rate, price) * lots + rest.fees,
    }
}

/// The fill that a sweep comes to. Dollars and the mean price are rounded down,
/// once, at the end.
pub open spec fn sweep_fill(s: Sweep, fill: Fill) -> bool {
    &&& fill.shares == s.lots * LOT
    &&& fill.notional == s.cost / 100
    &&& fill.fees == s.fees / 100_000_000_000_000_000_000
    &&& fill.avg_price == (if s.lots > 0 {
        s.cost / s.lots
    } else {
        0
    })
}

/// `s`, sorted by rising price, with `l` added after the levels of its price.
pub open spec fn insert_rising(s: Seq<Level>, l: Level) -> Seq<Level>
    decreases s.len(),
{
    if s.len() == 0 || s.last().price <= l.price {
        s.push(l)
    } else {
        insert_rising(s.drop_last(), l).push(s.last())
    }
}

/// `s`, sorted by falling price, with `l` added after the levels of its price.
pub open spec fn insert_falling(s: Seq<Level>, l: Level) -> Seq<Level>
    decreases s.len(),
{
    if s.len() == 0 || s.last().price >= l.price {
        s.push(l)
    } else {
        insert_falling(s.drop_last(), l).push(s.last())
    }
}

/// The levels priced at most `cap`, cheapest first; levels of one price stay in
/// the order of the book.
pub open spec fn cheapest_first(levels: Seq<Level>, cap: int) -> Seq<Level>
    decreases levels.len(),
{
    if levels.len() == 0 {
        Seq::empty()
    } else if levels.last().price <= cap {
        insert_rising(cheapest_first(levels.drop_last(), cap), levels.last())
    } else {
        cheapest_first(levels.drop_last(), cap)
    }
}

/// The levels, dearest first; levels of one price stay in the order of the
/// book.
pub open spec fn dearest_first(levels: Seq<Level>) -> Seq<Level>
    decreases levels.len(),
{
    if levels.len() == 0 {
        Seq::empty()
    } else {
        insert_falling(dearest_first(levels.drop_last()), levels.last())
    }
}

/// The whole lots of a level.
pub open spec fn held_lots(l: Level) -> int {
    l.size as int / LOT as int
}

/// The lots that `cash` buys at a level: as many as it pays for and the level
/// holds.
pub open spec fn affordable_lots(l: Level, cash: int) -> int {
    if l.price <= 0 {
        held_lots(l)
    } else {
        min(cash / l.price as int, held_lots(l))
    }
}

/// The purchase from `levels` in turn with `cash`, in the unit of
/// [`Sweep::cost`]. A level without a whole lot is passed over. The purchase
/// ends where at most a billionth of a dollar is left, or where the cash does
/// not buy one lot.
pub open spec fn buy_from(levels: Seq<Level>, cash: int, rate: int) -> Sweep
    decreases levels.len(),
{
    if levels.len() == 0 || cash <= 100 {
        no_sweep()
    } else {
        let l = levels.first();
        let rest = levels.drop_first();
        let lots = affordable_lots(l, cash);
        if held_lots(l) <= 0 {
            buy_from(rest, cash, rate)
        } else if lots <= 0 {
            no_sweep()
        } else {
            then_sweep(rate, l.price as int, lots, buy_from(rest, cash - lots * l.price, rate))
        }
    }
}

/// The purchase of `cash` dollars' worth at prices of at most `cap`.
pub open spec fn purchase(asks: Seq<Level>, cash: int, cap: int, rate: int) -> Sweep {
    buy_from(cheapest_first(asks, cap), cash * 100, rate)
}

/// The fraction `haircut` brought between zero and one.
pub open spec fn unit_fraction(haircut: int) -> int {
    if haircut < 0 {
        0
    } else if haircut > NANO {
        NANO as int
    } else {
        haircut
    }
}

/// The lots of a level that are still there in a crash.
pub open spec fn there_lots(l: Level, haircut: int) -> int {
    (l.size * unit_fraction(haircut)) / (NANO * LOT)
}

/// The sale of `wanted` lots to `levels` in turn.
pub open spec fn sell_to(levels: Seq<Level>, wanted: int, haircut: int, rate: int) -> Sweep
    decreases levels.len(),
{
    if levels.len() == 0 || wanted <= 0 {
        no_sweep()
    } else {
        let l = levels.first();
        let lots = min(wanted, there_lots(l, haircut));
        then_sweep(
            rate,
            l.price as int,
            lots,
            sell_to(levels.drop_first(), wanted - lots, haircut, rate),
        )
    }
}

/// The emergency sale of `shares`.
pub open spec fn sale(bids: Seq<Level>, shares: int, haircut: int, rate: int) -> Sweep {
    sell_to(dearest_first(bids), shares / LOT as int, haircut, rate)
}

/// Prices rise along `s`.
pub open spec fn rising(s: Seq<Level>) -> bool {
    forall|i: int, j: int| 0 <= i <= j < s.len() ==> (#[trigger] s[i]).price <= (#[trigger] s[j]).price
}

/// Prices fall along `s`.
pub open spec fn falling(s: Seq<Level>) -> bool {
    forall|i: int, j: int| 0 <= i <= j < s.len() ==> (#[trigger] s[i]).price >= (#[trigger] s[j]).price
}

proof fn lemma_insert_rising_at(s: Seq<Level>, l: Level, k: int)
    requires
        0 <= k <= s.len(),
        forall|j: int| k <= j < s.len() ==> (#[trigger] s[j]).price > l.price,
        k > 0 ==> s[k - 1].price <= l.price,
    ensures
        insert_rising(s, l) == s.insert(k, l),
    decreases s.len(),
{
    if s.len() == 0 || s.last().price <= l.price {
        assert(k == s.len());
        assert(s.insert(k, l) =~= s.push(l));
    } else {
        assert forall|j: int| k <= j < s.drop_last().len() implies (#[trigger] s.drop_last()[j]).price
            > l.price by {
            assert(s[j].price > l.price);
        }
        lemma_insert_rising_at(s.drop_last(), l, k);
        assert(s.insert(k, l) =~= s.drop_last().insert(k, l).push(s.last()));
    }
}

proof fn lemma_insert_falling_at(s: Seq<Level>, l: Level, k: int)
    requires
        0 <= k <= s.len(),
        forall|j: int| k <= j < s.len() ==> (#[trigger] s[j]).price < l.price,
        k > 0 ==> s[k - 1].price >= l.price,
    ensures
        insert_falling(s, l) == s.insert(k, l),
    decreases s.len(),
{
    if s.len() == 0 || s.last().price >= l.price {
        assert(k == s.len());
        assert(s.insert(k, l) =~= s.push(l));
    } else {
        assert forall|j: int| k <= j < s.drop_last().len() implies (#[trigger] s.drop_last()[j]).price
            < l.price by {
            assert(s[j].price < l.price);
        }
        lemma_insert_falling_at(s.drop_last(), l, k);
        assert(s.insert(k, l) =~= s.drop_last().insert(k, l).push(s.last()));
    }
}

proof fn lemma_push_level(s: Seq<Level>, l: Level)
    ensures
        depth(s.push(l)) == depth(s) + l.size,
        s.push(l).to_multiset() == s.to_multiset().insert(l),
{
    broadcast use vstd::seq_lib::group_to_multiset_ensures;

    assert(s.push(l).drop_last() =~= s);
}

pub(crate) proof fn lemma_insert_rising(s: Seq<Level>, l: Level)
    ensures
        depth(insert_rising(s, l)) == depth(s) + l.size,
        insert_rising(s, l).to_multiset() == s.to_multiset().insert(l),
        rising(s) ==> rising(insert_rising(s, l)),
    decreases s.len(),
{
    if s.len() == 0 || s.last().price <= l.price {
        lemma_push_level(s, l);
    } else {
        let front = insert_rising(s.drop_last(), l);
        lemma_insert_rising(s.drop_last(), l);
        lemma_push_level(front, s.last());
        lemma_push_level(s.drop_last(), s.last());
        assert(s.drop_last().push(s.last()) =~= s);
        assert(insert_rising(s, l).to_multiset() =~= s.to_multiset().insert(l));
        if rising(s) {
            assert(rising(s.drop_last()));
            assert forall|i: int| 0 <= i < front.len() implies (#[trigger] front[i]).price
                <= s.last().price by {
                broadcast use vstd::seq_lib::group_to_multiset_ensures;

                assert(front.to_multiset().count(front[i]) > 0) by {
                    assert(front.contains(front[i]));
                }
                if front[i] != l {
                    assert(s.drop_last().to_multiset().count(front[i]) > 0);
                    assert(s.drop_last().contains(front[i]));
                    let j = s.drop_last().index_of(front[i]);
                    assert(s[j] == front[i]);
                }
            }
        }
    }
}

proof fn lemma_insert_falling(s: Seq<Level>, l: Level)
    ensures
        depth(insert_falling(s, l)) == depth(s) + l.size,
        insert_falling(s, l).to_multiset() == s.to_multiset().insert(l),
        falling(s) ==> falling(insert_falling(s, l)),
    decreases s.len(),
{
    if s.len() == 0 || s.last().price >= l.price {
        lemma_push_level(s, l);
    } else {
        let front = insert_falling(s.drop_last(), l);
        lemma_insert_falling(s.drop_last(), l);
        lemma_push_level(front, s.last());
        lemma_push_level(s.drop_last(), s.last());
        assert(s.drop_last().push(s.last()) =~= s);
        assert(insert_falling(s, l).to_multiset() =~= s.to_multiset().insert(l));
        if falling(s) {
            assert(falling(s.drop_last()));
            assert forall|i: int| 0 <= i < front.len() implies (#[trigger] front[i]).price
                >= s.last().price by {
                broadcast use vstd::seq_lib::group_to_multiset_ensures;

                assert(front.to_multiset().count(front[i]) > 0) by {
                    assert(front.contains(front[i]));
                }
                if front[i] != l {
                    assert(s.drop_last().to_multiset().count(front[i]) > 0);
                    assert(s.drop_last().contains(front[i]));
                    let j = s.drop_last().index_of(front[i]);
                    assert(s[j] == front[i]);
                }
            }
        }
    }
}

/// A buyer meets the levels that its price limit admits, all of them and no
/// other, and meets cheaper levels before dearer ones.
pub proof fn cheapest_first_sorts(levels: Seq<Level>, cap: int)
    ensures
        rising(cheapest_first(levels, cap)),
        cheapest_first(levels, cap).to_multiset() == levels.filter(|l: Level| l.price <= cap).to_multiset(),
        forall|i: int|
            0 <= i < cheapest_first(levels, cap).len() ==> {
                &&& (#[trigger] cheapest_first(levels, cap)[i]).price <= cap
                &&& levels.contains(cheapest_first(levels, cap)[i])
            },
    decreases levels.len(),
{
    broadcast use {vstd::seq_lib::group_to_multiset_ensures, vstd::seq_lib::group_filter_ensures};

    let within = |l: Level| l.price <= cap;
    reveal(Seq::filter);
    if levels.len() > 0 {
        let front = levels.drop_last();
        cheapest_first_sorts(front, cap);
        lemma_insert_rising(cheapest_first(front, cap), levels.last());
        if levels.last().price <= cap {
            lemma_push_level(front.filter(within), levels.last());
        }
    }
    let sorted = cheapest_first(levels, cap);
    assert forall|i: int| 0 <= i < sorted.len() implies {
        &&& (#[trigger] sorted[i]).price <= cap
        &&& levels.contains(sorted[i])
    } by {
        assert(sorted.contains(sorted[i]));
        assert(sorted.to_multiset().count(sorted[i]) > 0);
        assert(levels.filter(within).contains(sorted[i]));
        let j = levels.filter(within).index_of(sorted[i]);
        assert(within(levels.filter(within)[j]));
        assert(levels.contains(levels.filter(within)[j]));
    }
}

/// A seller meets every level of the book, and meets dearer levels before
/// cheaper ones.
pub proof fn dearest_first_sorts(levels: Seq<Level>)
    ensures
        falling(dearest_first(levels)),
        dearest_first(levels).to_multiset() == levels.to_multiset(),
    decreases levels.len(),
{
    if levels.len() > 0 {
        let front = levels.drop_last();
        dearest_first_sorts(front);
        lemma_insert_falling(dearest_first(front), levels.last());
        lemma_push_level(front, levels.last());
        assert(front.push(levels.last()) =~= levels);
    } else {
        assert(levels =~= Seq::empty());
    }
}

proof fn lemma_cheapest_first_depth(levels: Seq<Level>, cap: int)
    requires
        forall|i: int| 0 <= i < levels.len() ==> (#[trigger] levels[i]).wf(),
    ensures
        0 <= depth(cheapest_first(levels, cap)) <= depth(levels),
        forall|i: int|
            0 <= i < cheapest_first(levels, cap).len() ==> (#[trigger] cheapest_first(
                levels,
                cap,
            )[i]).wf(),
    decreases levels.len(),
{
    cheapest_first_sorts(levels, cap);
    let sorted = cheapest_first(levels, cap);
    assert forall|i: int| 0 <= i < sorted.len() implies (#[trigger] sorted[i]).wf() by {
        assert(levels.contains(sorted[i]));
        let j = levels.index_of(sorted[i]);
        assert(levels[j].wf());
    }
    lemma_depth_nonnegative(sorted);
    if levels.len() > 0 {
        let front = levels.drop_last();
        assert forall|i: int| 0 <= i < front.len() implies (#[trigger] front[i]).wf() by {
            assert(levels[i].wf());
        }
        assert(levels.last().wf());
        lemma_cheapest_first_depth(front, cap);
        lemma_insert_rising(cheapest_first(front, cap), levels.last());
    }
}

proof fn lemma_dearest_first_depth(levels: Seq<Level>)
    requires
        forall|i: int| 0 <= i < levels.len() ==> (#[trigger] levels[i]).wf(),
    ensures
        depth(dearest_first(levels)) == depth(levels),
        forall|i: int|
            0 <= i < dearest_first(levels).len() ==> (#[trigger] dearest_first(levels)[i]).wf(),
    decreases levels.len(),
{
    broadcast use vstd::seq_lib::group_to_multiset_ensures;

    dearest_first_sorts(levels);
    let sorted = dearest_first(levels);
    assert forall|i: int| 0 <= i < sorted.len() implies (#[trigger] sorted[i]).wf() by {
        assert(sorted.contains(sorted[i]));
        assert(sorted.to_multiset().count(sorted[i]) > 0);
        assert(levels.contains(sorted[i]));
        let j = levels.index_of(sorted[i]);
        assert(levels[j].wf());
    }
    if levels.len() > 0 {
        let front = levels.drop_last();
        assert forall|i: int| 0 <= i < front.len() implies (#[trigger] front[i]).wf() by {
            assert(levels[i].wf());
        }
        lemma_dearest_first_depth(front);
        lemma_insert_falling(dearest_first(front), levels.last());
    }
}

/// The shares of the first level and of the others.
proof fn lemma_depth_first(levels: Seq<Level>)
    requires
        levels.len() > 0,
    ensures
        depth(levels) == levels.first().size + depth(levels.drop_first()),
    decreases levels.len(),
{
    if levels.len() == 1 {
        assert(levels.drop_first() =~= Seq::empty());
        assert(levels.drop_last() =~= Seq::empty());
    } else {
        lemma_depth_first(levels.drop_last());
        assert(levels.drop_last().drop_first() =~= levels.drop_first().drop_last());
    }
}

/// The worth and the fee of some lots: a fee never exceeds what the lots are
/// worth, and that is at most one dollar a share.
proof fn lemma_fill_bounds(rate: int, price: int, lots: int)
    requires
        0 <= rate <= NANO,
        0 <= price <= NANO,
        0 <= lots <= STAKE_LIMIT / LOT,
    ensures
        0 <= rate * price <= NANO * NANO,
        0 <= lot_fee(rate, price) <= NANO * NANO * price,
        lot_fee(rate, price) <= NANO * NANO * NANO,
        0 <= lots * price <= lots * NANO,
        0 <= lot_fee(rate, price) * lots <= NANO * NANO * (lots * price),
{
    let rest = NANO - price;
    assert(0 <= rate * price <= NANO * price) by (nonlinear_arith)
        requires
            0 <= rate <= NANO,
            0 <= price,
    ;
    assert(NANO * price <= NANO * NANO) by (nonlinear_arith)
        requires
            0 <= price <= NANO,
            NANO == 1_000_000_000,
    ;
    assert(0 <= rate * price * rest <= NANO * price * NANO) by (nonlinear_arith)
        requires
            0 <= rate * price <= NANO * price,
            0 <= rest <= NANO,
    ;
    assert(NANO * price * NANO == NANO * NANO * price) by (nonlinear_arith);
    assert(NANO * NANO * price <= NANO * NANO * NANO) by (nonlinear_arith)
        requires
            0 <= price <= NANO,
            NANO == 1_000_000_000,
    ;
    assert(0 <= lots * price <= lots * NANO) by (nonlinear_arith)
        requires
            0 <= price <= NANO,
            0 <= lots,
    ;
    let fee = lot_fee(rate, price);
    assert(0 <= fee * lots <= NANO * NANO * price * lots) by (nonlinear_arith)
        requires
            0 <= fee <= NANO * NANO * price,
            0 <= lots,
    ;
    assert(NANO * NANO * price * lots == NANO * NANO * (lots * price)) by (nonlinear_arith);
}

/// What a purchase can come to: no more than the cash, nor more shares than
/// there are; fees no larger than the cost; and, where no level is priced above
/// `cap`, no more than `cap` a share.
pub proof fn purchase_is_bounded(levels: Seq<Level>, cash: int, rate: int, cap: int)
    requires
        forall|i: int| 0 <= i < levels.len() ==> (#[trigger] levels[i]).wf(),
        forall|i: int| 0 <= i < levels.len() ==> (#[trigger] levels[i]).price <= cap,
        0 <= rate <= NANO,
        0 <= cap,
    ensures
        ({
            let s = buy_from(levels, cash, rate);
            &&& 0 <= s.lots
            &&& s.lots * LOT <= depth(levels)
            &&& 0 <= s.cost <= max(cash, 0)
            &&& s.cost <= cap * s.lots
            &&& s.cost <= NANO * s.lots
            &&& 0 <= s.fees <= NANO * NANO * s.cost
        }),
    decreases levels.len(),
{
    lemma_depth_nonnegative(levels);
    if levels.len() == 0 || cash <= 100 {
        assert(cap * 0 == 0);
    } else {
        let l = levels.first();
        let rest = levels.drop_first();
        let lots = affordable_lots(l, cash);
        let price = l.price as int;
        assert(levels[0].wf());
        lemma_depth_first(levels);
        assert forall|i: int| 0 <= i < rest.len() implies (#[trigger] rest[i]).wf() && rest[i].price
            <= cap by {
            assert(levels[i + 1].wf());
            assert(levels[i + 1].price <= cap);
        }
        if held_lots(l) <= 0 {
            purchase_is_bounded(rest, cash, rate, cap);
        } else if lots <= 0 {
            assert(cap * 0 == 0);
        } else {
            assert(lots <= held_lots(l) <= STAKE_LIMIT / LOT);
            lemma_fill_bounds(rate, price, lots);
            lemma_paid(l, cash);
            purchase_is_bounded(rest, cash - lots * price, rate, cap);
            let tail = buy_from(rest, cash - lots * price, rate);
            assert(lots * price <= cap * lots) by (nonlinear_arith)
                requires
                    0 <= price <= cap,
                    0 <= lots,
            ;
            assert(cap * (lots + tail.lots) == cap * lots + cap * tail.lots) by (nonlinear_arith);
        }
    }
}

/// What is bought at a level is paid for.
pub(crate) proof fn lemma_paid(l: Level, cash: int)
    requires
        l.wf(),
        0 <= cash,
    ensures
        0 <= affordable_lots(l, cash),
        0 <= affordable_lots(l, cash) * l.price <= cash,
        l.price > 0 && affordable_lots(l, cash) < held_lots(l) ==> cash - affordable_lots(l, cash)
            * l.price < l.price,
{
    let lots = affordable_lots(l, cash);
    let price = l.price as int;
    if price > 0 {
        let k = cash / price;
        assert(0 <= k && k * price <= cash && cash - k * price < price) by (nonlinear_arith)
            requires
                k == cash / price,
                0 <= cash,
                0 < price,
        ;
        assert(0 <= lots * price <= k * price) by (nonlinear_arith)
            requires
                0 <= lots <= k,
                0 < price,
        ;
    } else {
        assert(lots * price == 0) by (nonlinear_arith)
            requires
                price == 0,
        ;
    }
}

/// What is there of a level.
pub(crate) proof fn lemma_there(l: Level, haircut: int)
    requires
        l.wf(),
    ensures
        0 <= there_lots(l, haircut),
        there_lots(l, haircut) * LOT * NANO <= l.size * unit_fraction(haircut) <= l.size * NANO,
        there_lots(l, haircut) * LOT <= l.size,
        there_lots(l, haircut) <= STAKE_LIMIT / LOT,
        0 <= l.size * unit_fraction(haircut),
{
    let h = unit_fraction(haircut);
    let size = l.size as int;
    let lots = there_lots(l, haircut);
    assert(0 <= size * h <= size * NANO) by (nonlinear_arith)
        requires
            0 <= size,
            0 <= h <= NANO,
    ;
    assert(0 <= lots && lots * (NANO * LOT) <= size * h) by (nonlinear_arith)
        requires
            lots == (size * h) / (NANO * LOT),
            0 <= size * h,
            NANO == 1_000_000_000,
            LOT == 10_000_000,
    ;
    assert(lots * LOT * NANO == lots * (NANO * LOT)) by (nonlinear_arith);
}

/// What an emergency sale can come to: no more than what is wanted, nor more
/// than the part of the depth that the haircut leaves; fees no larger than the
/// cost; and at most one dollar a share.
pub proof fn sale_is_bounded(levels: Seq<Level>, wanted: int, haircut: int, rate: int)
    requires
        forall|i: int| 0 <= i < levels.len() ==> (#[trigger] levels[i]).wf(),
        0 <= rate <= NANO,
    ensures
        ({
            let s = sell_to(levels, wanted, haircut, rate);
            &&& 0 <= s.lots <= max(wanted, 0)
            &&& s.lots * LOT * NANO <= depth(levels) * unit_fraction(haircut)
            &&& s.lots * LOT <= depth(levels)
            &&& 0 <= s.cost <= NANO * s.lots
            &&& 0 <= s.fees <= NANO * NANO * s.cost
        }),
    decreases levels.len(),
{
    lemma_depth_nonnegative(levels);
    let h = unit_fraction(haircut);
    let total = depth(levels);
    assert(0 <= total * h) by (nonlinear_arith)
        requires
            0 <= total,
            0 <= h,
    ;
    if levels.len() > 0 && wanted > 0 {
        let l = levels.first();
        let rest = levels.drop_first();
        let there = there_lots(l, haircut);
        let lots = min(wanted, there);
        let size = l.size as int;
        let tail_depth = depth(rest);
        assert(levels[0].wf());
        lemma_there(l, haircut);
        lemma_depth_first(levels);
        assert(total * h == size * h + tail_depth * h) by (nonlinear_arith)
            requires
                total == size + tail_depth,
        ;
        assert forall|i: int| 0 <= i < rest.len() implies (#[trigger] rest[i]).wf() by {
            assert(levels[i + 1].wf());
        }
        lemma_fill_bounds(rate, l.price as int, lots);
        sale_is_bounded(rest, wanted - lots, haircut, rate);
    }
}

/// The fee on one lot at `price`.
fn fee_of_lot(rate: i64, price: i64) -> (r: i128)
    requires
        0 <= rate <= NANO,
        0 <= price <= NANO,
    ensures
        r == lot_fee(rate as int, price as int),
{
    proof {
        lemma_fill_bounds(rate as int, price as int, 0);
    }
    (rate as i128) * (price as i128) * ((NANO - price) as i128)
}

/// The levels priced at most `cap`, cheapest first.
fn sort_asks(levels: &Vec<Level>, cap: i64) -> (r: Vec<Level>)
    ensures
        r@ == cheapest_first(levels@, cap as int),
{
    let mut sorted: Vec<Level> = Vec::new();
    let mut i: usize = 0;
    while i < levels.len()
        invariant
            i <= levels.len(),
            sorted@ == cheapest_first(levels@.take(i as int), cap as int),
        decreases levels.len() - i,
    {
        let l = levels[i];
        proof {
            assert(levels@.take(i + 1).drop_last() =~= levels@.take(i as int));
            assert(levels@.take(i + 1).last() == l);
        }
        if l.price <= cap {
            let mut k: usize = sorted.len();
            while k > 0 && sorted[k - 1].price > l.price
                invariant
                    k <= sorted.len(),
                    forall|j: int| k <= j < sorted.len() ==> (#[trigger] sorted@[j]).price > l.price,
                decreases k,
            {
                k = k - 1;
            }
            proof {
                lemma_insert_rising_at(sorted@, l, k as int);
            }
            sorted.insert(k, l);
        }
        i = i + 1;
    }
    assert(levels@.take(levels.len() as int) =~= levels@);
    sorted
}

/// The levels, dearest first.
fn sort_bids(levels: &Vec<Level>) -> (r: Vec<Level>)
    ensures
        r@ == dearest_first(levels@),
{
    let mut sorted: Vec<Level> = Vec::new();
    let mut i: usize = 0;
    while i < levels.len()
        invariant
            i <= levels.len(),
            sorted@ == dearest_first(levels@.take(i as int)),
        decreases levels.len() - i,
    {
        let l = levels[i];
        proof {
            assert(levels@.take(i + 1).drop_last() =~= levels@.take(i as int));
            assert(levels@.take(i + 1).last() == l);
        }
        let mut k: usize = sorted.len();
        while k > 0 && sorted[k - 1].price < l.price
            invariant
                k <= sorted.len(),
                forall|j: int| k <= j < sorted.len() ==> (#[trigger] sorted@[j]).price < l.price,
            decreases k,
        {
            k = k - 1;
        }
        proof {
            lemma_insert_falling_at(sorted@, l, k as int);
        }
        sorted.insert(k, l);
        i = i + 1;
    }
    assert(levels@.take(levels.len() as int) =~= levels@);
    sorted
}

/// The fill of a sweep that took `lots`.
fn fill_of(lots: i64, cost: i128, fees: i128) -> (r: Fill)
    requires
        0 <= lots <= STAKE_LIMIT / LOT,
        0 <= cost <= NANO * lots,
        0 <= fees <= NANO * NANO * cost,
    ensures
        sweep_fill((Sweep { lots: lots as int, cost: cost as int, fees: fees as int }), r),
        r.wf(),
        r.avg_price <= NANO,
        r.fees <= r.notional <= r.shares,
{
    let shares: i64 = lots * LOT;
    let avg_price: i64 = if lots > 0 {
        proof {
            assert(0 <= cost as int / lots as int <= NANO) by (nonlinear_arith)
                requires
                    0 <= cost <= NANO * lots,
                    lots > 0,
            ;
        }
        (cost / lots as i128) as i64
    } else {
        0
    };
    proof {
        assert(NANO * NANO * cost == 1_000_000_000_000_000_000 * cost) by (nonlinear_arith)
            requires
                NANO == 1_000_000_000,
        ;
    }
    let notional: i64 = (cost / 100) as i64;
    let paid: i64 = (fees / 100_000_000_000_000_000_000) as i64;
    Fill { shares, notional, fees: paid, avg_price }
}

/// A taker purchase: sweeps the asks from the cheapest up, while the price stays
/// within `price_cap` and cash remains.
pub fn sweep_buy(book: &PolyBook, cash: i64, price_cap: i64, fee_rate: i64) -> (r: Fill)
    requires
        levels_wf(book.asks@),
        cash <= LIMIT,
        0 <= fee_rate <= NANO,
    ensures
        sweep_fill(
            purchase(book.asks@, cash as int, price_cap as int, fee_rate as int),
            r,
        ),
        r.wf(),
        r.fees <= r.notional <= r.shares,
        cash >= 0 ==> r.notional <= cash,
        r.shares > 0 ==> r.avg_price <= price_cap,
{
    let asks = sort_asks(&book.asks, price_cap);
    let ghost cap: int = max(price_cap as int, 0);
    let ghost rate = fee_rate as int;
    proof {
        lemma_cheapest_first_depth(book.asks@, price_cap as int);
        cheapest_first_sorts(book.asks@, price_cap as int);
        purchase_is_bounded(asks@, cash * 100, rate, cap);
    }
    let ghost whole = buy_from(asks@, cash * 100, rate);
    let mut remaining: i128 = (cash as i128) * 100;
    let mut lots: i64 = 0;
    let mut cost: i128 = 0;
    let mut fees: i128 = 0;
    let mut i: usize = 0;
    let mut stop: bool = false;
    assert(asks@.skip(0) =~= asks@);
    while i < asks.len() && !stop
        invariant
            i <= asks.len(),
            remaining <= LIMIT * 100,
            rate == fee_rate,
            0 <= fee_rate <= NANO,
            forall|j: int| 0 <= j < asks@.len() ==> (#[trigger] asks@[j]).wf(),
            forall|j: int| 0 <= j < asks@.len() ==> (#[trigger] asks@[j]).price <= cap,
            0 <= cap,
            whole.lots * LOT <= STAKE_LIMIT,
            whole.cost <= NANO * whole.lots,
            whole.fees <= NANO * NANO * whole.cost,
            0 <= lots,
            0 <= fees,
            0 <= cost,
            ({
                let rest = if stop {
                    no_sweep()
                } else {
                    buy_from(asks@.skip(i as int), remaining as int, rate)
                };
                &&& whole.lots == lots + rest.lots
                &&& whole.cost == cost + rest.cost
                &&& whole.fees == fees + rest.fees
            }),
        decreases
            asks.len() - i,
            if stop {
                0int
            } else {
                1int
            },
    {
        let l = asks[i];
        let ghost tail = asks@.skip(i as int);
        let ghost next = asks@.skip(i + 1);
        proof {
            assert(tail.first() == l);
            assert(tail.drop_first() =~= next);
            assert(asks@[i as int].wf());
            assert forall|j: int| 0 <= j < tail.len() implies (#[trigger] tail[j]).wf()
                && tail[j].price <= cap by {
                assert(asks@[i + j].wf());
            }
            assert forall|j: int| 0 <= j < next.len() implies (#[trigger] next[j]).wf()
                && next[j].price <= cap by {
                assert(asks@[i + 1 + j].wf());
            }
            purchase_is_bounded(tail, remaining as int, rate, cap);
        }
        if remaining <= 100 {
            stop = true;
        } else {
            let held: i64 = l.size / LOT;
            let take: i64 = if l.price <= 0 {
                held
            } else {
                let affordable: i128 = remaining / (l.price as i128);
                if affordable <= held as i128 {
                    affordable as i64
                } else {
                    held
                }
            };
            if held <= 0 {
                i = i + 1;
            } else if take <= 0 {
                stop = true;
            } else {
                let per_lot = fee_of_lot(fee_rate, l.price);
                proof {
                    lemma_paid(l, remaining as int);
                    lemma_fill_bounds(rate, l.price as int, take as int);
                    purchase_is_bounded(next, remaining - take * l.price, rate, cap);
                    assert(NANO * NANO * (take * l.price) <= NANO * NANO * (take * NANO))
                        by (nonlinear_arith)
                        requires
                            take * l.price <= take * NANO,
                            NANO == 1_000_000_000,
                    ;
                    assert(NANO * NANO * (take * NANO) == 1_000_000_000_000_000_000_000_000_000 * take)
                        by (nonlinear_arith)
                        requires
                            NANO == 1_000_000_000,
                    ;
                }
                let paid: i128 = (take as i128) * (l.price as i128);
                lots = lots + take;
                cost = cost + paid;
                proof {
                    assert(fees + lot_fee(rate, l.price as int) * take <= whole.fees);
                    assert(NANO * NANO * whole.cost <= NANO * NANO * (NANO * whole.lots))
                        by (nonlinear_arith)
                        requires
                            whole.cost <= NANO * whole.lots,
                            NANO == 1_000_000_000,
                    ;
                    assert(NANO * NANO * (NANO * whole.lots)
                        == 1_000_000_000_000_000_000_000_000_000 * whole.lots) by (nonlinear_arith)
                        requires
                            NANO == 1_000_000_000,
                    ;
                }
                fees = fees + per_lot * (take as i128);
                remaining = remaining - paid;
                i = i + 1;
            }
        }
    }
    proof {
        if !stop {
            assert(asks@.skip(i as int).len() == 0);
        }
        assert(whole.lots == lots);
        if lots > 0 {
            assert(cost as int / lots as int <= cap) by (nonlinear_arith)
                requires
                    0 <= cost <= cap * lots,
                    lots > 0,
            ;
            assert(asks@.len() > 0);
            assert(asks@[0].price <= price_cap);
        }
    }
    fill_of(lots, cost, fees)
}

/// An emergency taker sale: sweeps the bids from the dearest down to get rid of
/// `shares`. Of each level only the fraction `haircut` is supposed to be still
/// there. What the book cannot take is lost.
pub fn sweep_sell_panic(book: &PolyBook, shares: i64, haircut: i64, fee_rate: i64) -> (r: Fill)
    requires
        levels_wf(book.bids@),
        signed(shares),
        0 <= fee_rate <= NANO,
    ensures
        sweep_fill(sale(book.bids@, shares as int, haircut as int, fee_rate as int), r),
        r.wf(),
        r.fees <= r.notional <= r.shares,
        shares >= 0 ==> r.shares <= shares,
{
    let bids = sort_bids(&book.bids);
    let fraction: i64 = if haircut < 0 {
        0
    } else if haircut > NANO {
        NANO
    } else {
        haircut
    };
    let ghost rate = fee_rate as int;
    let mut wanted: i64 = round_size(shares) / LOT;
    proof {
        lemma_dearest_first_depth(book.bids@);
        sale_is_bounded(bids@, shares as int / LOT as int, haircut as int, rate);
    }
    let ghost whole = sell_to(bids@, shares as int / LOT as int, haircut as int, rate);
    let mut lots: i64 = 0;
    let mut cost: i128 = 0;
    let mut fees: i128 = 0;
    let mut i: usize = 0;
    assert(bids@.skip(0) =~= bids@);
    while i < bids.len() && wanted > 0
        invariant
            i <= bids.len(),
            rate == fee_rate,
            0 <= fee_rate <= NANO,
            fraction == unit_fraction(haircut as int),
            forall|j: int| 0 <= j < bids@.len() ==> (#[trigger] bids@[j]).wf(),
            whole.lots * LOT <= STAKE_LIMIT,
            whole.cost <= NANO * whole.lots,
            whole.fees <= NANO * NANO * whole.cost,
            0 <= lots,
            0 <= fees,
            0 <= cost,
            ({
                let rest = sell_to(bids@.skip(i as int), wanted as int, haircut as int, rate);
                &&& whole.lots == lots + rest.lots
                &&& whole.cost == cost + rest.cost
                &&& whole.fees == fees + rest.fees
            }),
        decreases bids.len() - i,
    {
        let l = bids[i];
        let ghost tail = bids@.skip(i as int);
        let ghost next = bids@.skip(i + 1);
        proof {
            assert(tail.first() == l);
            assert(tail.drop_first() =~= next);
            assert(bids@[i as int].wf());
            assert forall|j: int| 0 <= j < next.len() implies (#[trigger] next[j]).wf() by {
                assert(bids@[i + 1 + j].wf());
            }
            lemma_there(l, haircut as int);
        }
        let there: i64 = ((l.size as i128) * (fraction as i128) / ((NANO as i128) * (LOT as i128))) as i64;
        let take: i64 = if wanted <= there {
            wanted
        } else {
            there
        };
        let per_lot = fee_of_lot(fee_rate, l.price);
        proof {
            lemma_fill_bounds(rate, l.price as int, take as int);
            sale_is_bounded(next, wanted - take, haircut as int, rate);
            assert(fees + lot_fee(rate, l.price as int) * take <= whole.fees);
            assert(NANO * NANO * whole.cost <= NANO * NANO * (NANO * whole.lots)) by (nonlinear_arith)
                requires
                    whole.cost <= NANO * whole.lots,
                    NANO == 1_000_000_000,
            ;
            assert(NANO * NANO * (NANO * whole.lots)
                == 1_000_000_000_000_000_000_000_000_000 * whole.lots) by (nonlinear_arith)
                requires
                    NANO == 1_000_000_000,
            ;
        }
        lots = lots + take;
        cost = cost + (take as i128) * (l.price as i128);
        fees = fees + per_lot * (take as i128);
        wanted = wanted - take;
        i = i + 1;
    }
    fill_of(lots, cost, fees)
}

} // verus!
