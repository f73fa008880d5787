//! The spot exchange's order book: bids from the dearest down, asks from the
//! cheapest up, one quote for each price.

use vstd::prelude::*;

use crate::fixed::{amount, is_amount, LIMIT};

verus! {

/// The quantity `qty` quoted at `price`.
#[derive(Debug, Clone, Copy, PartialEq, Eq, Structural)]
pub struct Quote {
    pub price: i64,
    pub qty: i64,
}

/// The local copy of the spot exchange's book.
#[derive(Debug, Clone)]
pub struct BinanceOrderBook {
    pub last_update_id: u64,
    pub bids: Vec<Quote>,
    pub asks: Vec<Quote>,
}

/// A snapshot of the book and when it was taken.
#[derive(Debug, Clone)]
pub struct BookUpdate {
    pub book: BinanceOrderBook,
    pub ts_ms: u64,
}

impl Quote {
    pub open spec fn wf(self) -> bool {
        amount(self.price) && amount(self.qty)
    }
}

/// The quantity that `quotes` hold in all.
pub open spec fn volume(quotes: Seq<Quote>) -> int
    decreases quotes.len(),
{
    if quotes.len() == 0 {
        0
    } else {
        volume(quotes.drop_last()) + quotes.last().qty
    }
}

/// The first `n` quotes, or all of them where there are fewer.
pub open spec fn top(quotes: Seq<Quote>, n: int) -> Seq<Quote> {
    if n < quotes.len() {
        quotes.take(n)
    } else {
        quotes
    }
}

/// The quantity quoted at price `p`.
pub open spec fn qty_at(quotes: Seq<Quote>, p: int) -> Option<i64>
    decreases quotes.len(),
{
    if quotes.len() == 0 {
        None
    } else if quotes.last().price == p {
        Some(quotes.last().qty)
    } else {
        qty_at(quotes.drop_last(), p)
    }
}

/// Prices fall along `quotes`, and no price comes twice.
pub open spec fn strictly_falling(quotes: Seq<Quote>) -> bool {
    forall|i: int, j: int|
        0 <= i < j < quotes.len() ==> (#[trigger] quotes[i]).price > (#[trigger] quotes[j]).price
}

/// Prices rise along `quotes`, and no price comes twice.
pub open spec fn strictly_rising(quotes: Seq<Quote>) -> bool {
    forall|i: int, j: int|
        0 <= i < j < quotes.len() ==> (#[trigger] quotes[i]).price < (#[trigger] quotes[j]).price
}

pub open spec fn quotes_wf(quotes: Seq<Quote>) -> bool {
    &&& forall|i: int| 0 <= i < quotes.len() ==> (#[trigger] quotes[i]).wf()
    &&& volume(quotes) <= LIMIT
}

/// The price at which the two best quotes balance: each is weighted by the
/// quantity on the other side.
pub open spec fn micro_price(bid: Quote, ask: Quote) -> int {
    (bid.price * ask.qty + ask.price * bid.qty) / (bid.qty + ask.qty)
}

proof fn lemma_qty_present(quotes: Seq<Quote>, i: int)
    requires
        0 <= i < quotes.len(),
        forall|j: int|
            0 <= j < quotes.len() && j != i ==> (#[trigger] quotes[j]).price != quotes[i].price,
    ensures
        qty_at(quotes, quotes[i].price as int) == Some(quotes[i].qty),
    decreases quotes.len(),
{
    if i < quotes.len() - 1 {
        assert(quotes[quotes.len() - 1].price != quotes[i].price);
        lemma_qty_present(quotes.drop_last(), i);
    }
}

proof fn lemma_qty_found(quotes: Seq<Quote>, p: int) -> (i: int)
    requires
        qty_at(quotes, p) is Some,
    ensures
        0 <= i < quotes.len(),
        quotes[i].price == p,
        quotes[i].qty == qty_at(quotes, p)->0,
    decreases quotes.len(),
{
    if quotes.last().price == p {
        quotes.len() - 1
    } else {
        lemma_qty_found(quotes.drop_last(), p)
    }
}

proof fn lemma_volume_nonnegative(quotes: Seq<Quote>)
    requires
        forall|i: int| 0 <= i < quotes.len() ==> (#[trigger] quotes[i]).wf(),
    ensures
        0 <= volume(quotes),
    decreases quotes.len(),
{
    if quotes.len() > 0 {
        assert(quotes[quotes.len() - 1].wf());
        assert forall|i: int| 0 <= i < quotes.drop_last().len() implies (
        #[trigger] quotes.drop_last()[i]).wf() by {
            assert(quotes[i].wf());
        }
        lemma_volume_nonnegative(quotes.drop_last());
    }
}

/// A prefix holds no more than the whole.
pub proof fn lemma_volume_prefix(quotes: Seq<Quote>, n: int)
    requires
        0 <= n <= quotes.len(),
        forall|i: int| 0 <= i < quotes.len() ==> (#[trigger] quotes[i]).wf(),
    ensures
        0 <= volume(quotes.take(n)) <= volume(quotes),
    decreases quotes.len() - n,
{
    assert forall|i: int| 0 <= i < quotes.take(n).len() implies (#[trigger] quotes.take(
        n,
    )[i]).wf() by {
        assert(quotes[i].wf());
    }
    lemma_volume_nonnegative(quotes.take(n));
    if n == quotes.len() {
        assert(quotes.take(n) =~= quotes);
    } else {
        assert(quotes.take(n + 1).drop_last() =~= quotes.take(n));
        assert(quotes.take(n + 1).last() == quotes[n]);
        assert(quotes[n].wf());
        lemma_volume_prefix(quotes, n + 1);
    }
}

/// The quantity that the first `n` quotes hold.
pub fn top_volume(quotes: &Vec<Quote>, n: usize) -> (r: i64)
    requires
        quotes_wf(quotes@),
    ensures
        r == volume(top(quotes@, n as int)),
        amount(r),
{
    let count: usize = if n < quotes.len() {
        n
    } else {
        quotes.len()
    };
    let mut total: i64 = 0;
    let mut i: usize = 0;
    while i < count
        invariant
            i <= count <= quotes.len(),
            quotes_wf(quotes@),
            total == volume(quotes@.take(i as int)),
            amount(total),
        decreases count - i,
    {
        proof {
            assert(quotes@.take(i + 1).drop_last() =~= quotes@.take(i as int));
            assert(quotes@.take(i + 1).last() == quotes@[i as int]);
            lemma_volume_prefix(quotes@, i + 1);
        }
        total = total + quotes[i].qty;
        i = i + 1;
    }
    assert(quotes@.take(count as int) =~= top(quotes@, n as int));
    total
}

fn check_quotes(quotes: &Vec<Quote>) -> (r: bool)
    ensures
        r == quotes_wf(quotes@),
{
    let mut total: i64 = 0;
    let mut i: usize = 0;
    while i < quotes.len()
        invariant
            i <= quotes.len(),
            total == volume(quotes@.take(i as int)),
            amount(total),
            forall|j: int| 0 <= j < i ==> (#[trigger] quotes@[j]).wf(),
        decreases quotes.len() - i,
    {
        let q = quotes[i];
        if !is_amount(q.price) || !is_amount(q.qty) {
            assert(!quotes@[i as int].wf());
            return false;
        }
        proof {
            assert(quotes@.take(i + 1).drop_last() =~= quotes@.take(i as int));
            assert(quotes@.take(i + 1).last() == q);
        }
        if total > LIMIT - q.qty {
            proof {
                if quotes_wf(quotes@) {
                    lemma_volume_prefix(quotes@, i + 1);
                }
            }
            return false;
        }
        total = total + q.qty;
        i = i + 1;
    }
    assert(quotes@.take(quotes.len() as int) =~= quotes@);
    true
}

impl BinanceOrderBook {
    /// The sides are in order.
    pub open spec fn ordered(self) -> bool {
        strictly_falling(self.bids@) && strictly_rising(self.asks@)
    }

    /// The sides are in order and their amounts in range.
    pub open spec fn wf(self) -> bool {
        self.ordered() && quotes_wf(self.bids@) && quotes_wf(self.asks@)
    }

    /// The micro-price of the two best quotes, if both sides have one and they
    /// hold anything.
    pub open spec fn micro(self) -> Option<int> {
        if self.bids@.len() == 0 || self.asks@.len() == 0 || self.bids@[0].qty + self.asks@[0].qty
            == 0 {
            None
        } else {
            Some(micro_price(self.bids@[0], self.asks@[0]))
        }
    }

    /// An empty book.
    pub fn new() -> (r: Self)
        ensures
            r.last_update_id == 0,
            r.bids@ == Seq::<Quote>::empty(),
            r.asks@ == Seq::<Quote>::empty(),
            r.wf(),
    {
        BinanceOrderBook { last_update_id: 0, bids: Vec::new(), asks: Vec::new() }
    }

    /// Checks that the amounts of a book in order are in range.
    pub fn is_valid(&self) -> (r: bool)
        requires
            self.ordered(),
        ensures
            r == self.wf(),
    {
        check_quotes(&self.bids) && check_quotes(&self.asks)
    }

    /// Quotes `qty` for purchase at `price`, in place of what was quoted there.
    pub fn set_bid(&mut self, price: i64, qty: i64)
        requires
            old(self).ordered(),
        ensures
            final(self).ordered(),
            final(self).asks == old(self).asks,
            final(self).last_update_id == old(self).last_update_id,
            forall|p: int| #[trigger]
                qty_at(final(self).bids@, p) == if p == price {
                    Some(qty)
                } else {
                    qty_at(old(self).bids@, p)
                },
    {
        let ghost before = self.bids@;
        let mut k: usize = 0;
        while k < self.bids.len() && self.bids[k].price > price
            invariant
                k <= self.bids.len(),
                self.bids@ == before,
                forall|j: int| 0 <= j < k ==> (#[trigger] before[j]).price > price,
            decreases self.bids.len() - k,
        {
            k = k + 1;
        }
        let q = Quote { price, qty };
        if k < self.bids.len() && self.bids[k].price == price {
            self.bids.set(k, q);
        } else {
            self.bids.insert(k, q);
        }
        proof {
            lemma_set_quote(before, self.bids@, q, k as int);
        }
    }

    /// Quotes `qty` for sale at `price`, in place of what was quoted there.
    pub fn set_ask(&mut self, price: i64, qty: i64)
        requires
            old(self).ordered(),
        ensures
            final(self).ordered(),
            final(self).bids == old(self).bids,
            final(self).last_update_id == old(self).last_update_id,
            forall|p: int| #[trigger]
                qty_at(final(self).asks@, p) == if p == price {
                    Some(qty)
                } else {
                    qty_at(old(self).asks@, p)
                },
    {
        let ghost before = self.asks@;
        let mut k: usize = 0;
        while k < self.asks.len() && self.asks[k].price < price
            invariant
                k <= self.asks.len(),
                self.asks@ == before,
                forall|j: int| 0 <= j < k ==> (#[trigger] before[j]).price < price,
            decreases self.asks.len() - k,
        {
            k = k + 1;
        }
        let q = Quote { price, qty };
        if k < self.asks.len() && self.asks[k].price == price {
            self.asks.set(k, q);
        } else {
            self.asks.insert(k, q);
        }
        proof {
            lemma_set_quote(before, self.asks@, q, k as int);
        }
    }

    /// The best price of a buyer: the highest bid.
    pub fn best_bid(&self) -> (r: Option<i64>)
        requires
            self.ordered(),
        ensures
            match r {
                Some(p) => self.bids@.len() > 0 && p == self.bids@[0].price && forall|i: int|
                    0 <= i < self.bids@.len() ==> (#[trigger] self.bids@[i]).price <= p,
                None => self.bids@.len() == 0,
            },
    {
        if self.bids.len() == 0 {
            None
        } else {
            Some(self.bids[0].price)
        }
    }

    /// The best price of a seller: the lowest ask.
    pub fn best_ask(&self) -> (r: Option<i64>)
        requires
            self.ordered(),
        ensures
            match r {
                Some(p) => self.asks@.len() > 0 && p == self.asks@[0].price && forall|i: int|
                    0 <= i < self.asks@.len() ==> (#[trigger] self.asks@[i]).price >= p,
                None => self.asks@.len() == 0,
            },
    {
        if self.asks.len() == 0 {
            None
        } else {
            Some(self.asks[0].price)
        }
    }

    /// The micro-price of the top of the book, rounded down.
    pub fn calculate_micro_price(&self) -> (r: Option<i64>)
        requires
            self.wf(),
        ensures
            match r {
                Some(p) => self.micro() == Some(p as int) && amount(p),
                None => self.micro() is None,
            },
    {
        if self.bids.len() == 0 || self.asks.len() == 0 {
            return None;
        }
        let bid = self.bids[0];
        let ask = self.asks[0];
        proof {
            assert(self.bids@[0].wf() && self.asks@[0].wf());
        }
        if bid.qty + ask.qty == 0 {
            return None;
        }
        proof {
            micro_price_is_between(bid, ask);
            crate::fixed::lemma_wide_product(bid.price as int, ask.qty as int);
            crate::fixed::lemma_wide_product(ask.price as int, bid.qty as int);
        }
        let weighted: i128 = (bid.price as i128) * (ask.qty as i128) + (ask.price as i128) * (
        bid.qty as i128);
        Some((weighted / ((bid.qty + ask.qty) as i128)) as i64)
    }
}

/// Replacing the quote at `k`, or inserting before it, changes what is quoted at
/// one price only.
proof fn lemma_set_quote(before: Seq<Quote>, after: Seq<Quote>, q: Quote, k: int)
    requires
        0 <= k <= before.len(),
        strictly_falling(before) || strictly_rising(before),
        k < before.len() && before[k].price == q.price ==> after == before.update(k, q),
        !(k < before.len() && before[k].price == q.price) ==> after == before.insert(k, q),
        forall|j: int| 0 <= j < k ==> (#[trigger] before[j]).price != q.price,
        forall|j: int| k < j < before.len() ==> (#[trigger] before[j]).price != q.price,
    ensures
        forall|p: int| #[trigger]
            qty_at(after, p) == if p == q.price {
                Some(q.qty)
            } else {
                qty_at(before, p)
            },
{
    let replaced = k < before.len() && before[k].price == q.price;
    assert(after[k] == q);
    assert forall|j: int| 0 <= j < after.len() && j != k implies (#[trigger] after[j]).price
        != q.price by {
        if replaced || j < k {
            assert(after[j] == before[j]);
        } else {
            assert(after[j] == before[j - 1]);
        }
    }
    lemma_qty_present(after, k);
    assert forall|p: int| p != q.price implies #[trigger] qty_at(after, p) == qty_at(before, p) by {
        if qty_at(before, p) is Some {
            let i = lemma_qty_found(before, p);
            let at = if replaced || i < k {
                i
            } else {
                i + 1
            };
            assert(after[at] == before[i]);
            assert forall|j: int| 0 <= j < after.len() && j != at implies (#[trigger] after[j]).price
                != after[at].price by {
                if j != k {
                    let b = if replaced || j < k {
                        j
                    } else {
                        j - 1
                    };
                    assert(after[j] == before[b]);
                    assert(b != i);
                }
            }
            lemma_qty_present(after, at);
        } else {
            if qty_at(after, p) is Some {
                let a = lemma_qty_found(after, p);
                let b = if replaced || a < k {
                    a
                } else {
                    a - 1
                };
                assert(after[a] == before[b]);
                assert forall|j: int| 0 <= j < before.len() && j != b implies (
                #[trigger] before[j]).price != before[b].price by {
                }
                lemma_qty_present(before, b);
            }
        }
    }
}

/// The micro-price lies between the best bid and the best ask.
pub proof fn micro_price_is_between(bid: Quote, ask: Quote)
    requires
        bid.wf(),
        ask.wf(),
        bid.qty + ask.qty > 0,
    ensures
        crate::fixed::min(bid.price as int, ask.price as int) <= micro_price(bid, ask)
            <= crate::fixed::max(bid.price as int, ask.price as int),
{
    let low = crate::fixed::min(bid.price as int, ask.price as int);
    let high = crate::fixed::max(bid.price as int, ask.price as int);
    let total = bid.qty + ask.qty;
    let weighted = bid.price * ask.qty + ask.price * bid.qty;
    assert(low * total <= weighted <= high * total) by (nonlinear_arith)
        requires
            low <= bid.price <= high,
            low <= ask.price <= high,
            bid.qty >= 0,
            ask.qty >= 0,
            total == bid.qty + ask.qty,
            weighted == bid.price * ask.qty + ask.price * bid.qty,
    ;
    assert(low <= weighted / total <= high) by (nonlinear_arith)
        requires
            low * total <= weighted <= high * total,
            total > 0,
    ;
}

/// The micro-price weighs each side with the quantity of the other, rounded down.
pub proof fn micro_price_weighs_the_sides(bid: Quote, ask: Quote)
    requires
        bid.wf(),
        ask.wf(),
        bid.qty + ask.qty > 0,
    ensures
        ({
            let m = micro_price(bid, ask);
            let weighed = bid.price * ask.qty + ask.price * bid.qty;
            m * (bid.qty + ask.qty) <= weighed < (m + 1) * (bid.qty + ask.qty)
        }),
{
    let total = bid.qty + ask.qty;
    let weighed = bid.price * ask.qty + ask.price * bid.qty;
    let m = weighed / total;
    assert(m * total <= weighed && weighed < (m + 1) * total) by (nonlinear_arith)
        requires
            m == weighed / total,
            total > 0,
    ;
}

/// A book has a micro-price exactly if both sides are quoted and the best quotes
/// hold something; it is that of the best quotes.
pub proof fn the_best_quotes_make_the_micro_price(book: BinanceOrderBook)
    ensures
        book.micro() is Some <==> book.bids@.len() > 0 && book.asks@.len() > 0 && book.bids@[0].qty
            + book.asks@[0].qty != 0,
        book.micro() matches Some(p) ==> p == micro_price(book.bids@[0], book.asks@[0]),
{
}

/// Quantities are added up: over none it is nothing, over one its own, and over
/// two lists together the sum of both.
pub proof fn quantities_add_up(a: Seq<Quote>, b: Seq<Quote>, q: Quote)
    ensures
        volume(Seq::empty()) == 0,
        volume(seq![q]) == q.qty,
        volume(a + b) == volume(a) + volume(b),
    decreases b.len(),
{
    assert(seq![q].drop_last() =~= Seq::empty());
    if b.len() == 0 {
        assert(a + b =~= a);
    } else {
        quantities_add_up(a, b.drop_last(), q);
        assert((a + b).drop_last() =~= a + b.drop_last());
    }
}

/// The first quotes of a list, in their order.
pub proof fn the_top_is_the_front(quotes: Seq<Quote>, n: int)
    requires
        0 <= n,
    ensures
        top(quotes, n).len() == if n <= quotes.len() {
            n
        } else {
            quotes.len() as int
        },
        forall|i: int| 0 <= i < top(quotes, n).len() ==> #[trigger] top(quotes, n)[i] == quotes[i],
{
}

/// What is quoted at a price is found wherever it stands, and nothing is where no
/// quote has that price.
pub proof fn quotes_are_found_by_price(quotes: Seq<Quote>, p: int)
    requires
        strictly_rising(quotes) || strictly_falling(quotes),
    ensures
        forall|i: int|
            0 <= i < quotes.len() && (#[trigger] quotes[i]).price == p ==> qty_at(quotes, p) == Some(
                quotes[i].qty,
            ),
        (forall|i: int| 0 <= i < quotes.len() ==> (#[trigger] quotes[i]).price != p) ==> qty_at(
            quotes,
            p,
        ) is None,
    decreases quotes.len(),
{
    if quotes.len() > 0 {
        let n = quotes.len() - 1;
        let front = quotes.drop_last();
        assert(strictly_rising(quotes) ==> strictly_rising(front));
        assert(strictly_falling(quotes) ==> strictly_falling(front));
        quotes_are_found_by_price(front, p);
        assert forall|i: int| 0 <= i < quotes.len() && (#[trigger] quotes[i]).price == p implies qty_at(
            quotes,
            p,
        ) == Some(quotes[i].qty) by {
            if i < n {
                assert(front[i] == quotes[i]);
            }
        }
        if forall|i: int| 0 <= i < quotes.len() ==> (#[trigger] quotes[i]).price != p {
            assert(quotes[n].price != p);
            assert forall|i: int| 0 <= i < front.len() implies (#[trigger] front[i]).price != p by {
                assert(quotes[i].price != p);
            }
        }
    }
}

} // verus!
