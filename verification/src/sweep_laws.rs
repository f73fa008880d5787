//! What simulated execution is worth: a purchase is the largest that its cash
//! allows and the cheapest of its size, a sale is all that is there at the best
//! prices, and neither depends on the order of the book.

use vstd::prelude::*;

use crate::book::Level;
use crate::fixed::{max, min, LOT, NANO};
use crate::paper::{
    affordable_lots, buy_from, cheapest_first, cheapest_first_sorts, dearest_first,
    dearest_first_sorts, falling, held_lots, insert_falling, insert_rising, lemma_insert_rising,
    lemma_paid, lemma_there, lot_fee, no_sweep, purchase, purchase_is_bounded, rising, rounded, sale,
    sell_to, sweep_fill, then_sweep, there_lots, unit_fraction, Fill, Sweep,
};

verus! {

/// The lots of a level that a buyer with the price limit `cap` can have.
pub open spec fn on_offer(l: Level, cap: int) -> int {
    if l.price <= cap {
        held_lots(l)
    } else {
        0
    }
}

/// The sum of some numbers.
pub open spec fn total(x: Seq<int>) -> int
    decreases x.len(),
{
    if x.len() == 0 {
        0
    } else {
        total(x.drop_last()) + x.last()
    }
}

/// What `x` lots of each level are worth, in the unit of a sweep's cost.
pub open spec fn worth(levels: Seq<Level>, x: Seq<int>) -> int
    decreases x.len(),
{
    if x.len() == 0 {
        0
    } else {
        worth(levels.drop_last(), x.drop_last()) + x.last() * levels.last().price
    }
}

/// A choice of lots from the levels: of each no more than there is room for.
pub open spec fn allocates(levels: Seq<Level>, x: Seq<int>, room: spec_fn(Level) -> int) -> bool {
    &&& x.len() == levels.len()
    &&& forall|i: int| 0 <= i < x.len() ==> 0 <= #[trigger] x[i] <= room(levels[i])
}

/// The room of all levels.
pub open spec fn rooms(levels: Seq<Level>, room: spec_fn(Level) -> int) -> int
    decreases levels.len(),
{
    if levels.len() == 0 {
        0
    } else {
        rooms(levels.drop_last(), room) + room(levels.last())
    }
}

/// What a level saves to a buyer who would pay `q` for each lot; never positive.
spec fn saving(l: Level, room: spec_fn(Level) -> int, q: int) -> int {
    if l.price < q {
        room(l) * (l.price - q)
    } else {
        0
    }
}

spec fn savings(levels: Seq<Level>, room: spec_fn(Level) -> int, q: int) -> int
    decreases levels.len(),
{
    if levels.len() == 0 {
        0
    } else {
        savings(levels.drop_last(), room, q) + saving(levels.last(), room, q)
    }
}

/// What a level gains to a seller who would take `q` for each lot; never
/// negative.
spec fn gain(l: Level, room: spec_fn(Level) -> int, q: int) -> int {
    if l.price > q {
        room(l) * (l.price - q)
    } else {
        0
    }
}

spec fn gains(levels: Seq<Level>, room: spec_fn(Level) -> int, q: int) -> int
    decreases levels.len(),
{
    if levels.len() == 0 {
        0
    } else {
        gains(levels.drop_last(), room, q) + gain(levels.last(), room, q)
    }
}

/// No choice of lots costs less than `q` a lot and the savings.
proof fn lemma_choice(levels: Seq<Level>, x: Seq<int>, room: spec_fn(Level) -> int, q: int)
    requires
        allocates(levels, x, room),
    ensures
        worth(levels, x) - q * total(x) >= savings(levels, room, q),
        worth(levels, x) - q * total(x) <= gains(levels, room, q),
    decreases x.len(),
{
    if x.len() > 0 {
        let n = x.len() - 1;
        assert(0 <= x[n] <= room(levels[n]));
        assert forall|i: int| 0 <= i < x.drop_last().len() implies 0 <= #[trigger] x.drop_last()[i]
            <= room(levels.drop_last()[i]) by {
            assert(0 <= x[i] <= room(levels[i]));
        }
        lemma_choice(levels.drop_last(), x.drop_last(), room, q);
        let k = x.last();
        let p = levels.last().price as int;
        let r = room(levels.last());
        assert(k * p - q * k == k * (p - q)) by (nonlinear_arith);
        assert(q * (total(x.drop_last()) + k) == q * total(x.drop_last()) + q * k) by (nonlinear_arith);
        if p < q {
            assert(k * (p - q) >= r * (p - q) && k * (p - q) <= 0) by (nonlinear_arith)
                requires
                    0 <= k <= r,
                    p < q,
            ;
        } else {
            assert(0 <= k * (p - q) <= r * (p - q)) by (nonlinear_arith)
                requires
                    0 <= k <= r,
                    p >= q,
            ;
            if p == q {
                assert(k * (p - q) == 0) by (nonlinear_arith)
                    requires
                        p == q,
                ;
            }
        }
    }
}

proof fn lemma_push_sums(s: Seq<Level>, l: Level, room: spec_fn(Level) -> int, q: int)
    ensures
        savings(s.push(l), room, q) == savings(s, room, q) + saving(l, room, q),
        gains(s.push(l), room, q) == gains(s, room, q) + gain(l, room, q),
        rooms(s.push(l), room) == rooms(s, room) + room(l),
{
    assert(s.push(l).drop_last() =~= s);
}

proof fn lemma_insert_sums(s: Seq<Level>, l: Level, room: spec_fn(Level) -> int, q: int)
    ensures
        savings(insert_rising(s, l), room, q) == savings(s, room, q) + saving(l, room, q),
        gains(insert_falling(s, l), room, q) == gains(s, room, q) + gain(l, room, q),
        rooms(insert_falling(s, l), room) == rooms(s, room) + room(l),
    decreases s.len(),
{
    lemma_push_sums(s, l, room, q);
    if s.len() > 0 {
        let front = s.drop_last();
        lemma_insert_sums(front, l, room, q);
        lemma_push_sums(insert_rising(front, l), s.last(), room, q);
        lemma_push_sums(insert_falling(front, l), s.last(), room, q);
    }
}

/// Sorting the asks changes no savings.
proof fn lemma_sorted_savings(asks: Seq<Level>, cap: int, q: int)
    ensures
        savings(cheapest_first(asks, cap), |l: Level| on_offer(l, cap), q) == savings(
            asks,
            |l: Level| on_offer(l, cap),
            q,
        ),
    decreases asks.len(),
{
    if asks.len() > 0 {
        let room = |l: Level| on_offer(l, cap);
        lemma_sorted_savings(asks.drop_last(), cap, q);
        lemma_insert_sums(cheapest_first(asks.drop_last(), cap), asks.last(), room, q);
        if asks.last().price > cap {
            let p = asks.last().price as int;
            assert(0 * (p - q) == 0);
        }
    }
}

/// Sorting the bids changes no gains and no rooms.
proof fn lemma_sorted_gains(bids: Seq<Level>, room: spec_fn(Level) -> int, q: int)
    ensures
        gains(dearest_first(bids), room, q) == gains(bids, room, q),
        rooms(dearest_first(bids), room) == rooms(bids, room),
    decreases bids.len(),
{
    if bids.len() > 0 {
        lemma_sorted_gains(bids.drop_last(), room, q);
        lemma_insert_sums(dearest_first(bids.drop_last()), bids.last(), room, q);
    }
}

/// The sums of the first level and of the others.
proof fn lemma_first_sums(levels: Seq<Level>, room: spec_fn(Level) -> int, q: int)
    requires
        levels.len() > 0,
    ensures
        savings(levels, room, q) == saving(levels.first(), room, q) + savings(
            levels.drop_first(),
            room,
            q,
        ),
        gains(levels, room, q) == gain(levels.first(), room, q) + gains(
            levels.drop_first(),
            room,
            q,
        ),
        rooms(levels, room) == room(levels.first()) + rooms(levels.drop_first(), room),
    decreases levels.len(),
{
    if levels.len() == 1 {
        assert(levels.drop_first() =~= Seq::empty());
        assert(levels.drop_last() =~= Seq::empty());
    } else {
        lemma_first_sums(levels.drop_last(), room, q);
        assert(levels.drop_last().drop_first() =~= levels.drop_first().drop_last());
    }
}

/// Where no level is cheaper than `q` nothing is saved, and where none is dearer
/// nothing is gained.
proof fn lemma_no_sums(levels: Seq<Level>, room: spec_fn(Level) -> int, q: int)
    ensures
        (forall|i: int| 0 <= i < levels.len() ==> (#[trigger] levels[i]).price >= q) ==> savings(
            levels,
            room,
            q,
        ) == 0,
        (forall|i: int| 0 <= i < levels.len() ==> (#[trigger] levels[i]).price <= q) ==> gains(
            levels,
            room,
            q,
        ) == 0,
    decreases levels.len(),
{
    if levels.len() > 0 {
        let front = levels.drop_last();
        lemma_no_sums(front, room, q);
        if forall|i: int| 0 <= i < levels.len() ==> (#[trigger] levels[i]).price >= q {
            assert(levels[levels.len() - 1].price >= q);
            assert forall|i: int| 0 <= i < front.len() implies (#[trigger] front[i]).price >= q by {
                assert(levels[i].price >= q);
            }
        }
        if forall|i: int| 0 <= i < levels.len() ==> (#[trigger] levels[i]).price <= q {
            assert(levels[levels.len() - 1].price <= q);
            assert forall|i: int| 0 <= i < front.len() implies (#[trigger] front[i]).price <= q by {
                assert(levels[i].price <= q);
            }
        }
    }
}

/// Levels that can be bought from: none is priced under `low`.
spec fn buyable(s: Seq<Level>, low: int) -> bool {
    &&& forall|i: int| 0 <= i < s.len() ==> (#[trigger] s[i]).wf()
    &&& forall|i: int| 0 <= i < s.len() ==> (#[trigger] s[i]).price >= low
    &&& rising(s)
}

proof fn lemma_buyable_rest(s: Seq<Level>, low: int)
    requires
        buyable(s, low),
        s.len() > 0,
    ensures
        buyable(s.drop_first(), s.first().price as int),
        s.first().wf(),
        s.first().price >= low,
        forall|i: int| 0 <= i < s.len() ==> (#[trigger] s[i]).price >= s.first().price,
{
    let rest = s.drop_first();
    assert(s[0].wf());
    assert forall|i: int| 0 <= i < rest.len() implies (#[trigger] rest[i]).wf() && rest[i].price
        >= s.first().price by {
        assert(s[i + 1].wf());
        assert(s[0].price <= s[i + 1].price);
    }
    assert forall|i: int, j: int| 0 <= i <= j < rest.len() implies (#[trigger] rest[i]).price <= (
    #[trigger] rest[j]).price by {
        assert(s[i + 1].price <= s[j + 1].price);
    }
    assert forall|i: int| 0 <= i < s.len() implies (#[trigger] s[i]).price >= s.first().price by {
        assert(s[0].price <= s[i].price);
    }
}

/// Cash that does not buy a lot of the cheapest level buys nothing.
proof fn lemma_buys_nothing(s: Seq<Level>, cash: int, rate: int, low: int)
    requires
        buyable(s, low),
        cash < low,
        0 < low,
    ensures
        buy_from(s, cash, rate) == no_sweep(),
    decreases s.len(),
{
    if s.len() > 0 && cash > 100 {
        let l = s.first();
        lemma_buyable_rest(s, low);
        if held_lots(l) <= 0 {
            assert(buyable(s.drop_first(), low));
            lemma_buys_nothing(s.drop_first(), cash, rate, low);
        } else {
            assert(cash / l.price as int == 0) by (nonlinear_arith)
                requires
                    0 <= cash < l.price,
            ;
        }
    }
}

/// The price at which a purchase stops: what it takes costs this much a lot but
/// for the savings, and what is left does not pay it.
proof fn lemma_purchase_margin(
    s: Seq<Level>,
    cash: int,
    rate: int,
    cap: int,
    low: int,
) -> (q: int)
    requires
        buyable(s, low),
        forall|i: int| 0 <= i < s.len() ==> (#[trigger] s[i]).price <= cap,
        100 < low,
    ensures
        q >= low,
        q > cash - buy_from(s, cash, rate).cost,
        buy_from(s, cash, rate).cost - q * buy_from(s, cash, rate).lots == savings(
            s,
            |l: Level| on_offer(l, cap),
            q,
        ),
    decreases s.len(),
{
    let room = |l: Level| on_offer(l, cap);
    if s.len() == 0 {
        assert(max(cash + 1, low) * 0 == 0);
        max(cash + 1, low)
    } else if cash <= 100 {
        lemma_no_sums(s, room, low);
        assert(low * 0 == 0);
        low
    } else {
        let l = s.first();
        let rest = s.drop_first();
        let p = l.price as int;
        lemma_buyable_rest(s, low);
        assert forall|i: int| 0 <= i < rest.len() implies (#[trigger] rest[i]).price <= cap by {
            assert(s[i + 1].price <= cap);
        }
        assert(s[0].price <= cap);
        let lots = affordable_lots(l, cash);
        let held = held_lots(l);
        lemma_paid(l, cash);
        if held <= 0 {
            let q = lemma_purchase_margin(rest, cash, rate, cap, p);
            lemma_first_sums(s, room, q);
            assert(held == 0);
            assert(0 * (p - q) == 0);
            q
        } else if lots <= 0 {
            lemma_no_sums(s, room, p);
            assert(cash < p) by (nonlinear_arith)
                requires
                    cash / p <= 0,
                    0 < p,
            ;
            assert(p * 0 == 0);
            p
        } else if lots == held {
            let q = lemma_purchase_margin(rest, cash - lots * p, rate, cap, p);
            lemma_first_sums(s, room, q);
            let tail = buy_from(rest, cash - lots * p, rate);
            assert(lots * p - q * lots == lots * (p - q)) by (nonlinear_arith);
            assert(q * (lots + tail.lots) == q * lots + q * tail.lots) by (nonlinear_arith);
            if p == q {
                assert(lots * (p - q) == 0) by (nonlinear_arith)
                    requires
                        p == q,
                ;
            }
            q
        } else {
            lemma_buys_nothing(rest, cash - lots * p, rate, p);
            lemma_no_sums(s, room, p);
            assert(p * lots == lots * p) by (nonlinear_arith);
            p
        }
    }
}

/// A purchase buys the most lots that its cash pays for, and buys them at the
/// least cost: no choice of lots within the price limit that costs no more than
/// the cash has more lots, and none with as many costs less. A lot has to cost
/// more than the billionth of a dollar at which a purchase ends.
pub proof fn a_purchase_is_the_best(
    asks: Seq<Level>,
    cash: int,
    cap: int,
    rate: int,
    x: Seq<int>,
)
    requires
        forall|i: int| 0 <= i < asks.len() ==> (#[trigger] asks[i]).wf(),
        forall|i: int|
            0 <= i < asks.len() ==> (#[trigger] asks[i]).price <= cap ==> asks[i].price > 100,
        allocates(asks, x, |l: Level| on_offer(l, cap)),
    ensures
        worth(asks, x) <= cash * 100 ==> total(x) <= purchase(asks, cash, cap, rate).lots,
        total(x) == purchase(asks, cash, cap, rate).lots ==> worth(asks, x) >= purchase(
            asks,
            cash,
            cap,
            rate,
        ).cost,
{
    let room = |l: Level| on_offer(l, cap);
    let s = cheapest_first(asks, cap);
    lemma_sorted_asks(asks, cap);
    let q = lemma_purchase_margin(s, cash * 100, rate, cap, 101);
    lemma_sorted_savings(asks, cap, q);
    lemma_choice(asks, x, room, q);
    let g = purchase(asks, cash, cap, rate);
    if total(x) > g.lots {
        let more = total(x) - g.lots;
        assert(q * total(x) - q * g.lots >= q) by (nonlinear_arith)
            requires
                more == total(x) - g.lots,
                more >= 1,
                q > 0,
        ;
    }
}

proof fn lemma_sorted_asks(asks: Seq<Level>, cap: int)
    requires
        forall|i: int| 0 <= i < asks.len() ==> (#[trigger] asks[i]).wf(),
        forall|i: int|
            0 <= i < asks.len() ==> (#[trigger] asks[i]).price <= cap ==> asks[i].price > 100,
    ensures
        buyable(cheapest_first(asks, cap), 101),
        forall|i: int|
            0 <= i < cheapest_first(asks, cap).len() ==> (#[trigger] cheapest_first(asks, cap)[i]).price
                <= cap,
{
    let s = cheapest_first(asks, cap);
    cheapest_first_sorts(asks, cap);
    assert forall|i: int| 0 <= i < s.len() implies (#[trigger] s[i]).wf() && s[i].price >= 101 by {
        assert(asks.contains(s[i]));
        let j = asks.index_of(s[i]);
        assert(asks[j].wf());
        assert(asks[j].price > 100);
    }
}

/// Two levels of one price are bought from as if they were one.
proof fn lemma_buy_two(x: Level, y: Level, rest: Seq<Level>, cash: int, rate: int)
    requires
        x.wf(),
        y.wf(),
        x.price == y.price,
        100 < x.price,
        buyable(rest, x.price as int),
    ensures
        ({
            let p = x.price as int;
            let held = held_lots(x) + held_lots(y);
            let all = seq![x, y] + rest;
            if cash <= 100 {
                buy_from(all, cash, rate) == no_sweep()
            } else if cash / p >= held {
                buy_from(all, cash, rate) == then_sweep(
                    rate,
                    p,
                    held,
                    buy_from(rest, cash - held * p, rate),
                )
            } else {
                buy_from(all, cash, rate) == then_sweep(rate, p, cash / p, no_sweep())
            }
        }),
{
    let p = x.price as int;
    let hx = held_lots(x);
    let hy = held_lots(y);
    let all = seq![x, y] + rest;
    let second = seq![y] + rest;
    assert(all.drop_first() =~= second);
    assert(second.drop_first() =~= rest);
    assert(all.first() == x);
    assert(second.first() == y);
    if cash > 100 {
        let k = cash / p;
        assert(0 <= k && k * p <= cash && cash - k * p < p) by (nonlinear_arith)
            requires
                k == cash / p,
                0 <= cash,
                0 < p,
        ;
        let a = min(k, hx);
        let c1 = cash - a * p;
        let k1 = c1 / p;
        assert(k1 == k - a) by (nonlinear_arith)
            requires
                c1 == cash - a * p,
                k1 == c1 / p,
                k == cash / p,
                0 < p,
        ;
        let b = min(k1, hy);
        let c2 = c1 - b * p;
        let fee = lot_fee(rate, p);
        assert(c2 == cash - (a + b) * p) by (nonlinear_arith)
            requires
                c2 == c1 - b * p,
                c1 == cash - a * p,
        ;
        assert((a + b) * p == a * p + b * p) by (nonlinear_arith);
        assert(fee * (a + b) == fee * a + fee * b) by (nonlinear_arith);
        assert(0 * p == 0 && fee * 0 == 0);
        if k >= hx + hy {
            assert(k1 >= hy);
            if hy > 0 {
                assert(c1 >= p) by (nonlinear_arith)
                    requires
                        c1 / p >= 1,
                        0 < p,
                ;
            }
            // With `a` lots of `x` and `b` of `y` both levels are exhausted.
            assert(a == hx && b == hy);
            if hx == 0 {
                assert(c1 == cash);
            }
            if c1 <= 100 {
                assert(hy == 0);
                assert(c2 == c1);
            }
            if c2 <= 100 {
                assert(buy_from(rest, c2, rate) == no_sweep());
            }
            assert(buy_from(second, c1, rate) == then_sweep(rate, p, b, buy_from(rest, c2, rate)));
            assert(buy_from(all, cash, rate) == then_sweep(
                rate,
                p,
                a + b,
                buy_from(rest, c2, rate),
            ));
        } else {
            assert(a + b == k);
            lemma_buys_nothing(rest, c2, rate, p);
            if c1 < p {
                assert(k1 == 0) by (nonlinear_arith)
                    requires
                        0 <= c1 < p,
                        k1 == c1 / p,
                ;
            }
            if b == 0 {
                assert(c1 == c2);
            }
            assert(buy_from(second, c1, rate) == then_sweep(rate, p, b, no_sweep()));
            assert(buy_from(all, cash, rate) == then_sweep(rate, p, a + b, no_sweep()));
        }
    }
}

/// A level among those of the lowest price may be bought from first.
proof fn lemma_buy_first(s: Seq<Level>, j: int, cash: int, rate: int)
    requires
        0 <= j < s.len(),
        buyable(s, s.first().price as int),
        s.first().price > 100,
        s[j].price == s.first().price,
    ensures
        buy_from(seq![s[j]] + s.remove(j), cash, rate) == buy_from(s, cash, rate),
        buyable(s.remove(j), s.first().price as int),
    decreases j,
{
    let p = s.first().price as int;
    let others = s.remove(j);
    assert forall|i: int| 0 <= i < others.len() implies (#[trigger] others[i]).wf()
        && others[i].price >= p by {
        let k = if i < j {
            i
        } else {
            i + 1
        };
        assert(others[i] == s[k]);
        assert(s[k].wf());
        assert(s[k].price >= p);
    }
    assert forall|i: int, k: int| 0 <= i <= k < others.len() implies (#[trigger] others[i]).price <= (
    #[trigger] others[k]).price by {
        let i2 = if i < j {
            i
        } else {
            i + 1
        };
        let k2 = if k < j {
            k
        } else {
            k + 1
        };
        assert(s[i2].price <= s[k2].price);
    }
    if j == 0 {
        assert(seq![s[0]] + s.remove(0) =~= s);
    } else {
        let x = s.first();
        let y = s[j];
        let t = s.drop_first();
        lemma_buyable_rest(s, p);
        assert(t[j - 1] == y);
        assert(s[0].price <= s[1].price <= s[j].price);
        assert(t.first().price == p);
        let rest = t.remove(j - 1);
        let lots = affordable_lots(x, cash);
        lemma_buy_first(t, j - 1, cash, rate);
        lemma_buy_first(t, j - 1, cash - lots * p, rate);
        let yt = seq![y] + rest;
        let xyt = seq![x, y] + rest;
        assert(xyt.drop_first() =~= yt);
        assert(xyt.first() == x);
        assert(buy_from(xyt, cash, rate) == buy_from(s, cash, rate));
        assert(s[j].wf());
        lemma_buy_two(x, y, rest, cash, rate);
        lemma_buy_two(y, x, rest, cash, rate);
        assert(seq![y] + others =~= seq![y, x] + rest);
        assert(held_lots(x) + held_lots(y) == held_lots(y) + held_lots(x));
    }
}

/// Levels in order of price are bought from alike, however those of one price
/// are arranged.
proof fn lemma_buy_any_order(a: Seq<Level>, b: Seq<Level>, cash: int, rate: int, low: int)
    requires
        buyable(a, low),
        buyable(b, low),
        100 < low,
        a.to_multiset() == b.to_multiset(),
    ensures
        buy_from(a, cash, rate) == buy_from(b, cash, rate),
    decreases a.len(),
{
    broadcast use vstd::seq_lib::group_to_multiset_ensures;

    assert(a.len() == b.len()) by {
        vstd::seq_lib::to_multiset_len(a);
        vstd::seq_lib::to_multiset_len(b);
    }
    if a.len() > 0 {
        let l = a.first();
        let rest = a.drop_first();
        assert(b.to_multiset().count(l) > 0) by {
            assert(a.contains(a[0]));
        }
        assert(b.contains(l));
        let j = b.index_of(l);
        assert(b[j] == l);
        assert(a.contains(b[0])) by {
            assert(b.contains(b[0]));
            assert(a.to_multiset().count(b[0]) > 0);
        }
        let k = a.index_of(b[0]);
        lemma_buyable_rest(a, low);
        lemma_buyable_rest(b, low);
        assert(a[k].price >= l.price);
        assert(b[j].price >= b.first().price);
        assert(b.first().price == l.price);
        assert(buyable(b, b.first().price as int));
        lemma_buy_first(b, j, cash, rate);
        let others = b.remove(j);
        assert(a.remove(0) =~= rest);
        assert(rest.to_multiset() =~= a.to_multiset().remove(l)) by {
            vstd::seq_lib::to_multiset_remove(a, 0);
        }
        assert(others.to_multiset() =~= b.to_multiset().remove(l)) by {
            vstd::seq_lib::to_multiset_remove(b, j);
        }
        let lots = affordable_lots(l, cash);
        lemma_buy_any_order(rest, others, cash, rate, l.price as int);
        lemma_buy_any_order(rest, others, cash - lots * l.price, rate, l.price as int);
        let moved = seq![l] + others;
        assert(moved.drop_first() =~= others);
        assert(moved.first() == l);
    }
}

/// Sorting keeps the levels within the limit, each as often as it comes.
proof fn lemma_sorted_counts(asks: Seq<Level>, cap: int, l: Level)
    ensures
        cheapest_first(asks, cap).to_multiset().count(l) == if l.price <= cap {
            asks.to_multiset().count(l)
        } else {
            0
        },
    decreases asks.len(),
{
    broadcast use vstd::seq_lib::group_to_multiset_ensures;

    if asks.len() > 0 {
        let front = asks.drop_last();
        lemma_sorted_counts(front, cap, l);
        lemma_insert_rising(cheapest_first(front, cap), asks.last());
        assert(front.push(asks.last()) =~= asks);
        assert(asks.to_multiset() == front.to_multiset().insert(asks.last()));
    } else {
        assert(asks =~= Seq::empty());
    }
}

/// The order of the asks does not matter: books with the same asks, in whatever
/// order, sell the same lots for the same cost and fees.
pub proof fn a_purchase_ignores_the_order(
    a: Seq<Level>,
    b: Seq<Level>,
    cash: int,
    cap: int,
    rate: int,
)
    requires
        forall|i: int| 0 <= i < a.len() ==> (#[trigger] a[i]).wf(),
        forall|i: int| 0 <= i < a.len() ==> (#[trigger] a[i]).price <= cap ==> a[i].price > 100,
        a.to_multiset() == b.to_multiset(),
    ensures
        purchase(a, cash, cap, rate) == purchase(b, cash, cap, rate),
{
    broadcast use vstd::seq_lib::group_to_multiset_ensures;

    assert forall|i: int| 0 <= i < b.len() implies (#[trigger] b[i]).wf() && (b[i].price <= cap
        ==> b[i].price > 100) by {
        assert(b.contains(b[i]));
        assert(a.to_multiset().count(b[i]) > 0);
        assert(a.contains(b[i]));
        let j = a.index_of(b[i]);
        assert(a[j].wf());
    }
    lemma_sorted_asks(a, cap);
    lemma_sorted_asks(b, cap);
    let x = cheapest_first(a, cap);
    let y = cheapest_first(b, cap);
    assert forall|l: Level| x.to_multiset().count(l) == y.to_multiset().count(l) by {
        lemma_sorted_counts(a, cap, l);
        lemma_sorted_counts(b, cap, l);
    }
    assert(x.to_multiset() =~= y.to_multiset());
    lemma_buy_any_order(x, y, cash * 100, rate, 101);
}

/// Levels that can be sold to: none is priced above `high`.
spec fn sellable(s: Seq<Level>, high: int) -> bool {
    &&& forall|i: int| 0 <= i < s.len() ==> (#[trigger] s[i]).wf()
    &&& forall|i: int| 0 <= i < s.len() ==> (#[trigger] s[i]).price <= high
    &&& falling(s)
}

proof fn lemma_sellable_rest(s: Seq<Level>, high: int)
    requires
        sellable(s, high),
        s.len() > 0,
    ensures
        sellable(s.drop_first(), s.first().price as int),
        s.first().wf(),
        s.first().price <= high,
        forall|i: int| 0 <= i < s.len() ==> (#[trigger] s[i]).price <= s.first().price,
{
    let rest = s.drop_first();
    assert(s[0].wf());
    assert forall|i: int| 0 <= i < rest.len() implies (#[trigger] rest[i]).wf() && rest[i].price
        <= s.first().price by {
        assert(s[i + 1].wf());
        assert(s[0].price >= s[i + 1].price);
    }
    assert forall|i: int, j: int| 0 <= i <= j < rest.len() implies (#[trigger] rest[i]).price >= (
    #[trigger] rest[j]).price by {
        assert(s[i + 1].price >= s[j + 1].price);
    }
    assert forall|i: int| 0 <= i < s.len() implies (#[trigger] s[i]).price <= s.first().price by {
        assert(s[0].price >= s[i].price);
    }
}

/// The price at which a sale stops: what it sells brings this much a lot and the
/// gains.
proof fn lemma_sale_margin(s: Seq<Level>, wanted: int, haircut: int, rate: int, high: int) -> (q: int)
    requires
        sellable(s, high),
    ensures
        q <= high,
        sell_to(s, wanted, haircut, rate).cost - q * sell_to(s, wanted, haircut, rate).lots
            == gains(s, |l: Level| there_lots(l, haircut), q),
    decreases s.len(),
{
    let room = |l: Level| there_lots(l, haircut);
    if s.len() == 0 || wanted <= 0 {
        lemma_no_sums(s, room, high);
        assert(high * 0 == 0);
        high
    } else {
        let l = s.first();
        let rest = s.drop_first();
        let p = l.price as int;
        lemma_sellable_rest(s, high);
        lemma_there(l, haircut);
        let there = there_lots(l, haircut);
        if there <= wanted {
            let q = lemma_sale_margin(rest, wanted - there, haircut, rate, p);
            let tail = sell_to(rest, wanted - there, haircut, rate);
            lemma_first_sums(s, room, q);
            assert(there * p - q * there == there * (p - q)) by (nonlinear_arith);
            assert(q * (there + tail.lots) == q * there + q * tail.lots) by (nonlinear_arith);
            if p == q {
                assert(there * (p - q) == 0) by (nonlinear_arith)
                    requires
                        p == q,
                ;
            }
            q
        } else {
            lemma_no_sums(s, room, p);
            assert(sell_to(rest, 0, haircut, rate) == no_sweep());
            assert(p * wanted == wanted * p) by (nonlinear_arith);
            p
        }
    }
}

proof fn lemma_sale_lots(s: Seq<Level>, wanted: int, haircut: int, rate: int)
    requires
        forall|i: int| 0 <= i < s.len() ==> (#[trigger] s[i]).wf(),
    ensures
        sell_to(s, wanted, haircut, rate).lots == max(
            min(wanted, rooms(s, |l: Level| there_lots(l, haircut))),
            0,
        ),
        rooms(s, |l: Level| there_lots(l, haircut)) >= 0,
    decreases s.len(),
{
    let room = |l: Level| there_lots(l, haircut);
    if s.len() > 0 {
        let l = s.first();
        let rest = s.drop_first();
        assert(s[0].wf());
        assert forall|i: int| 0 <= i < rest.len() implies (#[trigger] rest[i]).wf() by {
            assert(s[i + 1].wf());
        }
        lemma_there(l, haircut);
        lemma_first_sums(s, room, 0);
        let lots = min(wanted, there_lots(l, haircut));
        lemma_sale_lots(rest, wanted - lots, haircut, rate);
        lemma_sale_lots(rest, wanted, haircut, rate);
    }
}

proof fn lemma_sorted_bids(bids: Seq<Level>)
    requires
        forall|i: int| 0 <= i < bids.len() ==> (#[trigger] bids[i]).wf(),
    ensures
        sellable(dearest_first(bids), NANO as int),
{
    broadcast use vstd::seq_lib::group_to_multiset_ensures;

    let s = dearest_first(bids);
    dearest_first_sorts(bids);
    assert forall|i: int| 0 <= i < s.len() implies (#[trigger] s[i]).wf() by {
        assert(s.contains(s[i]));
        assert(s.to_multiset().count(s[i]) > 0);
        assert(bids.contains(s[i]));
        let j = bids.index_of(s[i]);
        assert(bids[j].wf());
    }
}

/// A sale sells all that is wanted, in whole lots, as far as the haircut leaves
/// anything.
pub proof fn a_sale_takes_all_there_is(bids: Seq<Level>, shares: int, haircut: int, rate: int)
    requires
        forall|i: int| 0 <= i < bids.len() ==> (#[trigger] bids[i]).wf(),
        0 <= shares,
    ensures
        sale(bids, shares, haircut, rate).lots == min(
            shares / LOT as int,
            rooms(bids, |l: Level| there_lots(l, haircut)),
        ),
{
    let room = |l: Level| there_lots(l, haircut);
    let s = dearest_first(bids);
    lemma_sorted_bids(bids);
    lemma_sorted_gains(bids, room, 0);
    lemma_sale_lots(s, shares / LOT as int, haircut, rate);
}

/// A sale brings the most: no choice of as many of the lots that the haircut
/// leaves is worth more.
pub proof fn a_sale_is_the_best(
    bids: Seq<Level>,
    shares: int,
    haircut: int,
    rate: int,
    x: Seq<int>,
)
    requires
        forall|i: int| 0 <= i < bids.len() ==> (#[trigger] bids[i]).wf(),
        allocates(bids, x, |l: Level| there_lots(l, haircut)),
        total(x) == sale(bids, shares, haircut, rate).lots,
    ensures
        worth(bids, x) <= sale(bids, shares, haircut, rate).cost,
{
    let room = |l: Level| there_lots(l, haircut);
    let s = dearest_first(bids);
    lemma_sorted_bids(bids);
    let q = lemma_sale_margin(s, shares / LOT as int, haircut, rate, NANO as int);
    lemma_sorted_gains(bids, room, q);
    lemma_choice(bids, x, room, q);
}

/// Two levels of one price are sold to as if they were one.
proof fn lemma_sell_two(
    x: Level,
    y: Level,
    rest: Seq<Level>,
    wanted: int,
    haircut: int,
    rate: int,
)
    requires
        x.wf(),
        y.wf(),
        x.price == y.price,
    ensures
        ({
            let lots = min(wanted, there_lots(x, haircut) + there_lots(y, haircut));
            sell_to(seq![x, y] + rest, wanted, haircut, rate) == if wanted <= 0 {
                no_sweep()
            } else {
                then_sweep(
                    rate,
                    x.price as int,
                    lots,
                    sell_to(rest, wanted - lots, haircut, rate),
                )
            }
        }),
{
    let p = x.price as int;
    let all = seq![x, y] + rest;
    let second = seq![y] + rest;
    assert(all.drop_first() =~= second);
    assert(second.drop_first() =~= rest);
    assert(all.first() == x);
    assert(second.first() == y);
    lemma_there(x, haircut);
    lemma_there(y, haircut);
    if wanted > 0 {
        let a = min(wanted, there_lots(x, haircut));
        let b = if wanted - a <= 0 {
            0
        } else {
            min(wanted - a, there_lots(y, haircut))
        };
        let fee = lot_fee(rate, p);
        assert((a + b) * p == a * p + b * p) by (nonlinear_arith);
        assert(fee * (a + b) == fee * a + fee * b) by (nonlinear_arith);
        assert(0 * p == 0 && fee * 0 == 0);
        let tail = sell_to(rest, wanted - a - b, haircut, rate);
        if wanted - a <= 0 {
            assert(tail == no_sweep());
        }
        assert(sell_to(second, wanted - a, haircut, rate) == then_sweep(rate, p, b, tail));
    }
}

/// A level among those of the highest price may be sold to first.
proof fn lemma_sell_first(s: Seq<Level>, j: int, wanted: int, haircut: int, rate: int)
    requires
        0 <= j < s.len(),
        sellable(s, s.first().price as int),
        s[j].price == s.first().price,
    ensures
        sell_to(seq![s[j]] + s.remove(j), wanted, haircut, rate) == sell_to(
            s,
            wanted,
            haircut,
            rate,
        ),
        sellable(s.remove(j), s.first().price as int),
    decreases j,
{
    let p = s.first().price as int;
    let others = s.remove(j);
    assert forall|i: int| 0 <= i < others.len() implies (#[trigger] others[i]).wf()
        && others[i].price <= p by {
        let k = if i < j {
            i
        } else {
            i + 1
        };
        assert(others[i] == s[k]);
        assert(s[k].wf());
        assert(s[k].price <= p);
    }
    assert forall|i: int, k: int| 0 <= i <= k < others.len() implies (#[trigger] others[i]).price >= (
    #[trigger] others[k]).price by {
        let i2 = if i < j {
            i
        } else {
            i + 1
        };
        let k2 = if k < j {
            k
        } else {
            k + 1
        };
        assert(s[i2].price >= s[k2].price);
    }
    if j == 0 {
        assert(seq![s[0]] + s.remove(0) =~= s);
    } else {
        let x = s.first();
        let y = s[j];
        let t = s.drop_first();
        lemma_sellable_rest(s, p);
        assert(t[j - 1] == y);
        assert(s[0].price >= s[1].price >= s[j].price);
        assert(t.first().price == p);
        let rest = t.remove(j - 1);
        let lots = min(wanted, there_lots(x, haircut));
        lemma_sell_first(t, j - 1, wanted - lots, haircut, rate);
        let yt = seq![y] + rest;
        let xyt = seq![x, y] + rest;
        assert(xyt.drop_first() =~= yt);
        assert(xyt.first() == x);
        assert(sell_to(xyt, wanted, haircut, rate) == sell_to(s, wanted, haircut, rate));
        assert(s[j].wf());
        lemma_sell_two(x, y, rest, wanted, haircut, rate);
        lemma_sell_two(y, x, rest, wanted, haircut, rate);
        assert(seq![y] + others =~= seq![y, x] + rest);
    }
}

proof fn lemma_sell_any_order(
    a: Seq<Level>,
    b: Seq<Level>,
    wanted: int,
    haircut: int,
    rate: int,
    high: int,
)
    requires
        sellable(a, high),
        sellable(b, high),
        a.to_multiset() == b.to_multiset(),
    ensures
        sell_to(a, wanted, haircut, rate) == sell_to(b, wanted, haircut, rate),
    decreases a.len(),
{
    broadcast use vstd::seq_lib::group_to_multiset_ensures;

    assert(a.len() == b.len()) by {
        vstd::seq_lib::to_multiset_len(a);
        vstd::seq_lib::to_multiset_len(b);
    }
    if a.len() > 0 {
        let l = a.first();
        let rest = a.drop_first();
        assert(b.to_multiset().count(l) > 0) by {
            assert(a.contains(a[0]));
        }
        assert(b.contains(l));
        let j = b.index_of(l);
        assert(b[j] == l);
        assert(a.contains(b[0])) by {
            assert(b.contains(b[0]));
            assert(a.to_multiset().count(b[0]) > 0);
        }
        let k = a.index_of(b[0]);
        lemma_sellable_rest(a, high);
        lemma_sellable_rest(b, high);
        assert(a[k].price <= l.price);
        assert(b[j].price <= b.first().price);
        assert(b.first().price == l.price);
        assert(sellable(b, b.first().price as int));
        lemma_sell_first(b, j, wanted, haircut, rate);
        let others = b.remove(j);
        assert(a.remove(0) =~= rest);
        assert(rest.to_multiset() =~= a.to_multiset().remove(l)) by {
            vstd::seq_lib::to_multiset_remove(a, 0);
        }
        assert(others.to_multiset() =~= b.to_multiset().remove(l)) by {
            vstd::seq_lib::to_multiset_remove(b, j);
        }
        let lots = min(wanted, there_lots(l, haircut));
        lemma_sell_any_order(rest, others, wanted - lots, haircut, rate, l.price as int);
        let moved = seq![l] + others;
        assert(moved.drop_first() =~= others);
        assert(moved.first() == l);
    }
}

/// The order of the bids does not matter: books with the same bids, in whatever
/// order, buy the same lots for the same price and fees.
pub proof fn a_sale_ignores_the_order(
    a: Seq<Level>,
    b: Seq<Level>,
    shares: int,
    haircut: int,
    rate: int,
)
    requires
        forall|i: int| 0 <= i < a.len() ==> (#[trigger] a[i]).wf(),
        a.to_multiset() == b.to_multiset(),
    ensures
        sale(a, shares, haircut, rate) == sale(b, shares, haircut, rate),
{
    broadcast use vstd::seq_lib::group_to_multiset_ensures;

    assert forall|i: int| 0 <= i < b.len() implies (#[trigger] b[i]).wf() by {
        assert(b.contains(b[i]));
        assert(a.to_multiset().count(b[i]) > 0);
        assert(a.contains(b[i]));
        let j = a.index_of(b[i]);
        assert(a[j].wf());
    }
    lemma_sorted_bids(a);
    lemma_sorted_bids(b);
    dearest_first_sorts(a);
    dearest_first_sorts(b);
    lemma_sell_any_order(
        dearest_first(a),
        dearest_first(b),
        shares / LOT as int,
        haircut,
        rate,
        NANO as int,
    );
}

/// The fees on `x` lots of each level: for each lot the rate, times the price, times
/// its complement to one.
pub open spec fn charged(levels: Seq<Level>, x: Seq<int>, rate: int) -> int
    decreases x.len(),
{
    if x.len() == 0 {
        0
    } else {
        charged(levels.drop_last(), x.drop_last(), rate) + x.last() * (rate * levels.last().price * (
        1_000_000_000 - levels.last().price))
    }
}

/// A choice of lots that comes to a sweep.
spec fn comes_to(
    levels: Seq<Level>,
    x: Seq<int>,
    room: spec_fn(Level) -> int,
    rate: int,
    s: Sweep,
) -> bool {
    &&& allocates(levels, x, room)
    &&& total(x) == s.lots
    &&& worth(levels, x) == s.cost
    &&& charged(levels, x, rate) == s.fees
}

proof fn lemma_push_choice(levels: Seq<Level>, x: Seq<int>, l: Level, k: int, rate: int)
    ensures
        total(x.push(k)) == total(x) + k,
        worth(levels.push(l), x.push(k)) == worth(levels, x) + k * l.price,
        charged(levels.push(l), x.push(k), rate) == charged(levels, x, rate) + k * (rate * l.price * (
        1_000_000_000 - l.price)),
{
    assert(x.push(k).drop_last() =~= x);
    assert(levels.push(l).drop_last() =~= levels);
}

/// The sums of a choice, level by level from the front.
proof fn lemma_first_choice(levels: Seq<Level>, k: int, y: Seq<int>, rate: int)
    requires
        levels.len() == y.len() + 1,
    ensures
        total(seq![k] + y) == k + total(y),
        worth(levels, seq![k] + y) == k * levels.first().price + worth(levels.drop_first(), y),
        charged(levels, seq![k] + y, rate) == k * (rate * levels.first().price * (1_000_000_000
            - levels.first().price)) + charged(levels.drop_first(), y, rate),
    decreases y.len(),
{
    let x = seq![k] + y;
    if y.len() == 0 {
        assert(x =~= seq![k]);
        assert(x.drop_last() =~= Seq::empty());
        assert(levels.first() == levels.last());
        assert(total(x.drop_last()) == 0);
        assert(worth(levels.drop_last(), x.drop_last()) == 0);
        assert(charged(levels.drop_last(), x.drop_last(), rate) == 0);
        assert(x.last() == k);
    } else {
        lemma_first_choice(levels.drop_last(), k, y.drop_last(), rate);
        assert(x.drop_last() =~= seq![k] + y.drop_last());
        assert(levels.drop_last().drop_first() =~= levels.drop_first().drop_last());
        assert(levels.drop_first().last() == levels.last());
        assert(levels.drop_last().first() == levels.first());
        assert(x.last() == y.last());
    }
}

/// To choose nothing comes to nothing.
proof fn lemma_no_choice(levels: Seq<Level>, x: Seq<int>, rate: int)
    requires
        levels.len() == x.len(),
        forall|i: int| 0 <= i < x.len() ==> #[trigger] x[i] == 0,
    ensures
        total(x) == 0,
        worth(levels, x) == 0,
        charged(levels, x, rate) == 0,
    decreases x.len(),
{
    if x.len() > 0 {
        assert forall|i: int| 0 <= i < x.drop_last().len() implies #[trigger] x.drop_last()[i] == 0 by {
            assert(x[i] == 0);
        }
        assert(x[x.len() - 1] == 0);
        lemma_no_choice(levels.drop_last(), x.drop_last(), rate);
        let p = levels.last().price as int;
        assert(0 * p == 0);
        assert(0 * (rate * p * (1_000_000_000 - p)) == 0);
    }
}

/// One more level in front, of which `k` lots are taken.
proof fn lemma_choice_with_first(
    levels: Seq<Level>,
    k: int,
    y: Seq<int>,
    room: spec_fn(Level) -> int,
    rate: int,
    rest: Sweep,
)
    requires
        levels.len() > 0,
        comes_to(levels.drop_first(), y, room, rate, rest),
        0 <= k <= room(levels.first()),
    ensures
        comes_to(
            levels,
            seq![k] + y,
            room,
            rate,
            then_sweep(rate, levels.first().price as int, k, rest),
        ),
{
    let x = seq![k] + y;
    let p = levels.first().price as int;
    lemma_first_choice(levels, k, y, rate);
    assert forall|i: int| 0 <= i < x.len() implies 0 <= #[trigger] x[i] <= room(levels[i]) by {
        if i > 0 {
            assert(x[i] == y[i - 1]);
            assert(levels.drop_first()[i - 1] == levels[i]);
        }
    }
    assert(lot_fee(rate, p) * k == k * (rate * p * (1_000_000_000 - p))) by (nonlinear_arith)
        requires
            lot_fee(rate, p) == rate * p * (1_000_000_000 - p),
    ;
}

proof fn lemma_choice_of_none(levels: Seq<Level>, room: spec_fn(Level) -> int, rate: int) -> (x: Seq<
    int,
>)
    requires
        forall|i: int| 0 <= i < levels.len() ==> room(#[trigger] levels[i]) >= 0,
    ensures
        comes_to(levels, x, room, rate, no_sweep()),
{
    let x = Seq::new(levels.len(), |i: int| 0int);
    lemma_no_choice(levels, x, rate);
    assert forall|i: int| 0 <= i < x.len() implies 0 <= #[trigger] x[i] <= room(levels[i]) by {
        assert(room(levels[i]) >= 0);
    }
    x
}

/// What a purchase in order takes of each level.
proof fn lemma_buy_choice(s: Seq<Level>, cash: int, rate: int, cap: int) -> (x: Seq<int>)
    requires
        forall|i: int| 0 <= i < s.len() ==> (#[trigger] s[i]).wf(),
        forall|i: int| 0 <= i < s.len() ==> (#[trigger] s[i]).price <= cap,
    ensures
        comes_to(s, x, |l: Level| on_offer(l, cap), rate, buy_from(s, cash, rate)),
    decreases s.len(),
{
    let room = |l: Level| on_offer(l, cap);
    assert forall|i: int| 0 <= i < s.len() implies room(#[trigger] s[i]) >= 0 by {
        assert(s[i].wf());
    }
    if s.len() == 0 || cash <= 100 {
        lemma_choice_of_none(s, room, rate)
    } else {
        let l = s.first();
        let rest = s.drop_first();
        let lots = affordable_lots(l, cash);
        assert(s[0].wf() && s[0].price <= cap);
        assert forall|i: int| 0 <= i < rest.len() implies (#[trigger] rest[i]).wf() && rest[i].price
            <= cap by {
            assert(s[i + 1].wf());
            assert(s[i + 1].price <= cap);
        }
        lemma_paid(l, cash);
        if held_lots(l) <= 0 {
            let y = lemma_buy_choice(rest, cash, rate, cap);
            lemma_choice_with_first(s, 0, y, room, rate, buy_from(rest, cash, rate));
            let p = l.price as int;
            assert(0 * p == 0);
            assert(lot_fee(rate, p) * 0 == 0);
            seq![0int] + y
        } else if lots <= 0 {
            lemma_choice_of_none(s, room, rate)
        } else {
            let y = lemma_buy_choice(rest, cash - lots * l.price, rate, cap);
            lemma_choice_with_first(
                s,
                lots,
                y,
                room,
                rate,
                buy_from(rest, cash - lots * l.price, rate),
            );
            seq![lots] + y
        }
    }
}

/// What a sale in order takes of each level.
proof fn lemma_sell_choice(s: Seq<Level>, wanted: int, haircut: int, rate: int) -> (x: Seq<int>)
    requires
        forall|i: int| 0 <= i < s.len() ==> (#[trigger] s[i]).wf(),
    ensures
        comes_to(
            s,
            x,
            |l: Level| there_lots(l, haircut),
            rate,
            sell_to(s, wanted, haircut, rate),
        ),
    decreases s.len(),
{
    let room = |l: Level| there_lots(l, haircut);
    assert forall|i: int| 0 <= i < s.len() implies room(#[trigger] s[i]) >= 0 by {
        assert(s[i].wf());
        lemma_there(s[i], haircut);
    }
    if s.len() == 0 || wanted <= 0 {
        lemma_choice_of_none(s, room, rate)
    } else {
        let l = s.first();
        let rest = s.drop_first();
        let lots = min(wanted, there_lots(l, haircut));
        assert(s[0].wf());
        lemma_there(l, haircut);
        assert forall|i: int| 0 <= i < rest.len() implies (#[trigger] rest[i]).wf() by {
            assert(s[i + 1].wf());
        }
        let y = lemma_sell_choice(rest, wanted - lots, haircut, rate);
        lemma_choice_with_first(
            s,
            lots,
            y,
            room,
            rate,
            sell_to(rest, wanted - lots, haircut, rate),
        );
        seq![lots] + y
    }
}

/// A choice with one level more at its end, or without it.
proof fn lemma_choice_end(
    levels: Seq<Level>,
    x: Seq<int>,
    l: Level,
    k: int,
    room: spec_fn(Level) -> int,
)
    ensures
        allocates(levels, x, room) && 0 <= k <= room(l) ==> allocates(
            levels.push(l),
            x.push(k),
            room,
        ),
        allocates(levels.push(l), x.push(k), room) ==> allocates(levels, x, room) && 0 <= k <= room(l),
{
    let (a, y) = (levels.push(l), x.push(k));
    if allocates(levels, x, room) && 0 <= k <= room(l) {
        assert forall|i: int| 0 <= i < y.len() implies 0 <= #[trigger] y[i] <= room(a[i]) by {
            if i < x.len() {
                assert(x[i] == y[i]);
            }
        }
    }
    if allocates(a, y, room) {
        assert(0 <= y[x.len() as int] <= room(a[x.len() as int]));
        assert forall|i: int| 0 <= i < x.len() implies 0 <= #[trigger] x[i] <= room(levels[i]) by {
            assert(0 <= y[i] <= room(a[i]));
        }
    }
}

/// Takes a level out of a choice from levels among which it was put.
proof fn lemma_take_out(
    s: Seq<Level>,
    l: Level,
    y: Seq<int>,
    room: spec_fn(Level) -> int,
    rate: int,
    rises: bool,
) -> (out: (Seq<int>, int))
    requires
        allocates(
            if rises {
                insert_rising(s, l)
            } else {
                insert_falling(s, l)
            },
            y,
            room,
        ),
    ensures
        ({
            let all = if rises {
                insert_rising(s, l)
            } else {
                insert_falling(s, l)
            };
            let (x, k) = out;
            &&& allocates(s, x, room)
            &&& 0 <= k <= room(l)
            &&& total(y) == total(x) + k
            &&& worth(all, y) == worth(s, x) + k * l.price
            &&& charged(all, y, rate) == charged(s, x, rate) + k * (rate * l.price * (1_000_000_000
                - l.price))
        }),
    decreases s.len(),
{
    let all = if rises {
        insert_rising(s, l)
    } else {
        insert_falling(s, l)
    };
    let front = y.drop_last();
    let last = s.len() == 0 || (if rises {
        s.last().price <= l.price
    } else {
        s.last().price >= l.price
    });
    if last {
        assert(all == s.push(l));
        assert(front.push(y.last()) =~= y);
        lemma_choice_end(s, front, l, y.last(), room);
        lemma_push_choice(s, front, l, y.last(), rate);
        (front, y.last())
    } else {
        let inner = if rises {
            insert_rising(s.drop_last(), l)
        } else {
            insert_falling(s.drop_last(), l)
        };
        assert(all == inner.push(s.last()));
        assert(front.push(y.last()) =~= y);
        lemma_choice_end(inner, front, s.last(), y.last(), room);
        let (x, k) = lemma_take_out(s.drop_last(), l, front, room, rate, rises);
        lemma_push_choice(inner, front, s.last(), y.last(), rate);
        lemma_push_choice(s.drop_last(), x, s.last(), y.last(), rate);
        assert(s.drop_last().push(s.last()) =~= s);
        lemma_choice_end(s.drop_last(), x, s.last(), y.last(), room);
        (x.push(y.last()), k)
    }
}

/// A choice from the sorted asks is one from the asks as they stand.
proof fn lemma_unsort_asks(asks: Seq<Level>, cap: int, y: Seq<int>, rate: int) -> (x: Seq<int>)
    requires
        forall|i: int| 0 <= i < asks.len() ==> (#[trigger] asks[i]).wf(),
        allocates(cheapest_first(asks, cap), y, |l: Level| on_offer(l, cap)),
    ensures
        allocates(asks, x, |l: Level| on_offer(l, cap)),
        total(x) == total(y),
        worth(asks, x) == worth(cheapest_first(asks, cap), y),
        charged(asks, x, rate) == charged(cheapest_first(asks, cap), y, rate),
    decreases asks.len(),
{
    let room = |l: Level| on_offer(l, cap);
    if asks.len() == 0 {
        y
    } else {
        let front = asks.drop_last();
        let l = asks.last();
        assert(asks[asks.len() - 1].wf());
        assert forall|i: int| 0 <= i < front.len() implies (#[trigger] front[i]).wf() by {
            assert(asks[i].wf());
        }
        assert(front.push(l) =~= asks);
        let (y0, k) = if l.price <= cap {
            lemma_take_out(cheapest_first(front, cap), l, y, room, rate, true)
        } else {
            (y, 0int)
        };
        let x0 = lemma_unsort_asks(front, cap, y0, rate);
        lemma_push_choice(front, x0, l, k, rate);
        lemma_choice_end(front, x0, l, k, room);
        let p = l.price as int;
        assert(0 * p == 0 && 0 * (rate * p * (1_000_000_000 - p)) == 0);
        x0.push(k)
    }
}

/// A choice from the sorted bids is one from the bids as they stand.
proof fn lemma_unsort_bids(bids: Seq<Level>, room: spec_fn(Level) -> int, y: Seq<int>, rate: int) -> (x: Seq<
    int,
>)
    requires
        allocates(dearest_first(bids), y, room),
    ensures
        allocates(bids, x, room),
        total(x) == total(y),
        worth(bids, x) == worth(dearest_first(bids), y),
        charged(bids, x, rate) == charged(dearest_first(bids), y, rate),
    decreases bids.len(),
{
    if bids.len() == 0 {
        y
    } else {
        let front = bids.drop_last();
        let l = bids.last();
        assert(front.push(l) =~= bids);
        let (y0, k) = lemma_take_out(dearest_first(front), l, y, room, rate, false);
        let x0 = lemma_unsort_bids(front, room, y0, rate);
        lemma_push_choice(front, x0, l, k, rate);
        lemma_choice_end(front, x0, l, k, room);
        x0.push(k)
    }
}

/// A purchase can be made: it is a choice of lots that are on offer within the
/// price limit, it costs what those lots cost and no more than the cash, and its
/// fees are those of its lots.
pub proof fn a_purchase_is_a_choice(asks: Seq<Level>, cash: int, cap: int, rate: int) -> (x: Seq<int>)
    requires
        forall|i: int| 0 <= i < asks.len() ==> (#[trigger] asks[i]).wf(),
        0 <= cash,
        0 <= rate <= NANO,
    ensures
        x.len() == asks.len(),
        forall|i: int| 0 <= i < x.len() ==> 0 <= #[trigger] x[i] && x[i] * 10_000_000 <= asks[i].size,
        forall|i: int| 0 <= i < x.len() && (#[trigger] asks[i]).price > cap ==> x[i] == 0,
        purchase(asks, cash, cap, rate).lots == total(x),
        purchase(asks, cash, cap, rate).cost == worth(asks, x),
        purchase(asks, cash, cap, rate).fees == charged(asks, x, rate),
        worth(asks, x) <= cash * 100,
{
    let s = cheapest_first(asks, cap);
    cheapest_first_sorts(asks, cap);
    assert forall|i: int| 0 <= i < s.len() implies (#[trigger] s[i]).wf() by {
        assert(asks.contains(s[i]));
        let j = asks.index_of(s[i]);
        assert(asks[j].wf());
    }
    let y = lemma_buy_choice(s, cash * 100, rate, cap);
    let x = lemma_unsort_asks(asks, cap, y, rate);
    assert forall|i: int| 0 <= i < x.len() implies 0 <= #[trigger] x[i] && x[i] * 10_000_000
        <= asks[i].size by {
        assert(asks[i].wf());
    }
    assert forall|i: int| 0 <= i < x.len() && (#[trigger] asks[i]).price > cap implies x[i] == 0 by {
        assert(0 <= x[i]);
    }
    assert forall|i: int| 0 <= i < s.len() implies (#[trigger] s[i]).price <= max(cap, 0) by {
        assert(s[i].price <= cap);
    }
    purchase_is_bounded(s, cash * 100, rate, max(cap, 0));
    x
}

/// A sale can be made: it is a choice of lots that the haircut leaves, it brings
/// what those lots bring, and its fees are those of its lots.
pub proof fn a_sale_is_a_choice(bids: Seq<Level>, shares: int, haircut: int, rate: int) -> (x: Seq<int>)
    requires
        forall|i: int| 0 <= i < bids.len() ==> (#[trigger] bids[i]).wf(),
        0 <= haircut <= 1_000_000_000,
        0 <= shares,
    ensures
        x.len() == bids.len(),
        forall|i: int|
            0 <= i < x.len() ==> 0 <= #[trigger] x[i] && x[i] * 10_000_000_000_000_000 <= bids[i].size
                * haircut,
        sale(bids, shares, haircut, rate).lots == total(x),
        sale(bids, shares, haircut, rate).cost == worth(bids, x),
        sale(bids, shares, haircut, rate).fees == charged(bids, x, rate),
        total(x) * 10_000_000 <= shares,
{
    let room = |l: Level| there_lots(l, haircut);
    lemma_sorted_bids(bids);
    let s = dearest_first(bids);
    let y = lemma_sell_choice(s, shares / LOT as int, haircut, rate);
    let x = lemma_unsort_bids(bids, room, y, rate);
    assert forall|i: int| 0 <= i < x.len() implies 0 <= #[trigger] x[i] && x[i]
        * 10_000_000_000_000_000 <= bids[i].size * haircut by {
        assert(bids[i].wf());
        lemma_there(bids[i], haircut);
        let t = there_lots(bids[i], haircut);
        assert(t * LOT * NANO == t * 10_000_000_000_000_000) by (nonlinear_arith)
            requires
                LOT == 10_000_000,
                NANO == 1_000_000_000,
        ;
    }
    a_sale_takes_all_there_is(bids, shares, haircut, rate);
    x
}

/// What the haircut leaves of a level, in whole lots: the fraction of its size,
/// rounded down. A fraction below zero leaves nothing, and one above one leaves
/// all.
pub proof fn a_haircut_leaves_its_fraction(l: Level, haircut: int)
    requires
        l.wf(),
    ensures
        0 <= haircut <= 1_000_000_000 ==> there_lots(l, haircut) * 10_000_000_000_000_000 <= l.size
            * haircut < (there_lots(l, haircut) + 1) * 10_000_000_000_000_000,
        haircut <= 0 ==> there_lots(l, haircut) == 0,
        haircut >= 1_000_000_000 ==> there_lots(l, haircut) * 10_000_000 <= l.size < (there_lots(
            l,
            haircut,
        ) + 1) * 10_000_000,
{
    let h = unit_fraction(haircut);
    let n = l.size * h;
    if haircut >= NANO {
        assert(n == l.size * 1_000_000_000);
    }
    if haircut <= 0 {
        assert(n == 0) by (nonlinear_arith)
            requires
                n == l.size * h,
                h == 0,
        ;
    }
    assert(NANO * LOT == 10_000_000_000_000_000);
}

/// A level holds as many lots as its size covers.
pub proof fn a_level_holds_whole_lots(l: Level, cap: int)
    requires
        l.wf(),
    ensures
        l.price <= cap ==> on_offer(l, cap) * 10_000_000 <= l.size < (on_offer(l, cap) + 1)
            * 10_000_000,
        l.price > cap ==> on_offer(l, cap) == 0,
{
}

/// A fill is what its sweep comes to: a hundredth of a share for each lot, and the
/// dollars, the fees and the mean price rounded down.
pub proof fn a_fill_is_what_was_swept(s: Sweep, fill: Fill)
    requires
        sweep_fill(s, fill),
        0 <= s.lots,
        0 <= s.cost,
        0 <= s.fees,
    ensures
        fill.shares == s.lots * 10_000_000,
        fill.notional * 100 <= s.cost < (fill.notional + 1) * 100,
        fill.fees * 100_000_000_000_000_000_000 <= s.fees < (fill.fees + 1)
            * 100_000_000_000_000_000_000,
        s.lots == 0 ==> fill.avg_price == 0,
        s.lots > 0 ==> fill.avg_price * s.lots <= s.cost < (fill.avg_price + 1) * s.lots,
{
    if s.lots > 0 {
        let a = s.cost / s.lots;
        assert(a * s.lots <= s.cost && s.cost < (a + 1) * s.lots) by (nonlinear_arith)
            requires
                a == s.cost / s.lots,
                s.lots > 0,
        ;
    }
}

/// Sizes are brought down to hundredths, never up.
pub proof fn sizes_are_brought_down(sz: int)
    ensures
        rounded(sz) <= sz < rounded(sz) + 10_000_000,
        rounded(sz) % 10_000_000 == 0,
{
}

} // verus!
