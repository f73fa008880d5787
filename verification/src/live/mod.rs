//! Playing with real orders. The state machines here decide each step; whoever
//! runs them signs, sends and reads.

pub mod orders;

use vstd::prelude::*;

use self::orders::{
    checked, lemma_mean_price, place_fak, startup, token_number, Account, FakArgs, Order,
    PlaceResult,
};
use crate::fixed::{
    amount, lemma_quotient_small, lemma_wide_product, product, stake, LIMIT, NANO, STAKE_LIMIT,
};
use crate::paper::{round_size, rounded, Fill};
use crate::text::{
    fixed_text, fixed_text_of, hundredths, is_switched_on, switched_on, two_decimals,
    two_decimals_of,
};

verus! {

/// What real orders need to know of the account.
#[derive(Debug)]
pub struct LiveCredentials {
    pub private_key: String,
    pub funder: String,
    pub api_key: String,
    pub api_secret: String,
    pub passphrase: String,
    /// The kind of signature.
    pub sig_type: i64,
}

/// Why a real order cannot be placed.
#[derive(Debug)]
pub enum LiveError {
    /// There are no complete credentials.
    Credentials,
    /// The kind of signature is not supported.
    SignatureType,
    /// The private key cannot be read, for the reason given.
    PrivateKey(String),
    /// The address that pays cannot be read, for the reason given.
    Funder(String),
    /// The cash does not buy one share at the price.
    TooSmall(i64, i64),
    /// The name of the token is no number, for the reason given.
    TokenId(String),
    Price(i64),
    Size(i64),
    /// The signature is not of the kind that a deposit wallet needs.
    Unwrapped,
    /// The exchange refused the order.
    Refused(String),
}

impl LiveError {
    pub open spec fn text(self) -> Seq<char> {
        match self {
            LiveError::Credentials => "credentials POLY_* incomplètes dans le .env"@,
            LiveError::SignatureType => "seul POLY_SIG_TYPE=3 (deposit wallet POLY_1271) est supporté"@,
            LiveError::PrivateKey(e) => "POLY_PRIVATE_KEY: "@ + e@,
            LiveError::Funder(e) => "funder: "@ + e@,
            LiveError::TooSmall(cash, cap) => "cash "@ + two_decimals(cash as int)
                + " < 1 part entière à "@ + fixed_text(cap as int) + " (minimum CLOB)"@,
            LiveError::TokenId(e) => "token_id: "@ + e@,
            LiveError::Price(v) => "price invalide: "@ + fixed_text(v as int),
            LiveError::Size(v) => "size invalide: "@ + fixed_text(v as int),
            LiveError::Unwrapped => "signature POLY_1271 inattendue (attendu ERC-7739 Wrapped) — vérifier le SDK"@,
            LiveError::Refused(m) => "ordre refusé par le CLOB: "@ + m@,
        }
    }

    /// What is said of the error.
    pub fn message(&self) -> (r: String)
        ensures
            r@ == self.text(),
    {
        match self {
            LiveError::Credentials => "credentials POLY_* incomplètes dans le .env".to_owned(),
            LiveError::SignatureType => "seul POLY_SIG_TYPE=3 (deposit wallet POLY_1271) est supporté".to_owned(),
            LiveError::PrivateKey(e) => "POLY_PRIVATE_KEY: ".to_owned().concat(e.as_str()),
            LiveError::Funder(e) => "funder: ".to_owned().concat(e.as_str()),
            LiveError::TooSmall(cash, cap) => "cash ".to_owned().concat(
                two_decimals_of(*cash).as_str(),
            ).concat(" < 1 part entière à ").concat(fixed_text_of(*cap).as_str()).concat(
                " (minimum CLOB)",
            ),
            LiveError::TokenId(e) => "token_id: ".to_owned().concat(e.as_str()),
            LiveError::Price(v) => "price invalide: ".to_owned().concat(fixed_text_of(*v).as_str()),
            LiveError::Size(v) => "size invalide: ".to_owned().concat(fixed_text_of(*v).as_str()),
            LiveError::Unwrapped => "signature POLY_1271 inattendue (attendu ERC-7739 Wrapped) — vérifier le SDK".to_owned(),
            LiveError::Refused(m) => "ordre refusé par le CLOB: ".to_owned().concat(m.as_str()),
        }
    }
}

/// The execution of real orders.
#[derive(Debug)]
pub struct LiveExec {
    pub creds: LiveCredentials,
    /// Orders are sent; otherwise they are signed and dropped.
    pub armed: bool,
}

/// The shares that `cash` buys at `price_cap`: whole ones only.
pub open spec fn whole_shares(cash: int, price_cap: int) -> int {
    cash / price_cap
}

impl LiveExec {
    /// Checks the credentials, if there are any, and reads whether orders are
    /// armed.
    pub fn startup(creds: Option<LiveCredentials>, armed: Option<&str>) -> (r: Result<
        (LiveExec, Account),
        LiveError,
    >)
        ensures
            match creds {
                None => r == Err::<(LiveExec, Account), LiveError>(LiveError::Credentials),
                Some(c) => match r {
                    Ok(started) => {
                        &&& checked(c, Ok(started.1))
                        &&& started.0.creds == c
                        &&& started.0.armed == (armed matches Some(t) && switched_on(t@))
                    },
                    Err(e) => checked(c, Err(e)),
                },
            },
    {
        let creds = match creds {
            None => return Err(LiveError::Credentials),
            Some(c) => c,
        };
        let armed = match armed {
            Some(t) => is_switched_on(t),
            None => false,
        };
        match startup(&creds) {
            Ok(account) => Ok((LiveExec { creds, armed }, account)),
            Err(e) => Err(e),
        }
    }

    /// The size of the order that spends the cash: the price has two decimals,
    /// so a whole number of shares makes an amount with two decimals, which the
    /// exchange asks for. At a price of zero there is no such size, and the
    /// order will be refused for its price.
    pub fn buy_args(cash: i64, price_cap: i64) -> (r: Result<FakArgs, LiveError>)
        requires
            amount(cash),
            price_cap > 0 ==> cash <= price_cap * 1_000_000_000,
        ensures
            price_cap == 0 ==> r == Ok::<FakArgs, LiveError>(
                FakArgs { price: 0, size: 0, is_sell: false },
            ),
            price_cap < 0 || 0 <= cash < price_cap ==> r == Err::<FakArgs, LiveError>(
                LiveError::TooSmall(cash, price_cap),
            ),
            0 < price_cap <= cash ==> r == Ok::<FakArgs, LiveError>(
                FakArgs {
                    price: price_cap,
                    size: (whole_shares(cash as int, price_cap as int) * NANO) as i64,
                    is_sell: false,
                },
            ) && r->Ok_0.size == whole_shares(cash as int, price_cap as int) * NANO
                && r->Ok_0.size >= NANO,
    {
        if price_cap == 0 {
            return Ok(FakArgs { price: 0, size: 0, is_sell: false });
        }
        if price_cap < 0 || cash < price_cap {
            return Err(LiveError::TooSmall(cash, price_cap));
        }
        let shares: i64 = cash / price_cap;
        proof {
            assert(1 <= cash / price_cap <= 1_000_000_000) by (nonlinear_arith)
                requires
                    0 < price_cap <= cash,
                    cash <= price_cap * 1_000_000_000,
            ;
        }
        Ok(FakArgs { price: price_cap, size: shares * NANO, is_sell: false })
    }

    /// The order that spends the cash on a token, ready to be signed.
    pub fn buy_all(&self, token_id: &str, cash: i64, price_cap: i64) -> (r: Result<Order, LiveError>)
        requires
            amount(cash),
            price_cap > 0 ==> cash <= price_cap * 1_000_000_000,
        ensures
            if price_cap < 0 || 0 <= cash < price_cap {
                r == Err::<Order, LiveError>(LiveError::TooSmall(cash, price_cap))
            } else {
                match token_number(token_id@) {
                    Err(text) => r matches Err(LiveError::TokenId(e)) && e@ == text,
                    Ok(words) => if price_cap == 0 {
                        r == Err::<Order, LiveError>(LiveError::Price(price_cap))
                    } else {
                        &&& r matches Ok(o)
                        &&& o.token@ == words
                        &&& o.price == hundredths(price_cap as int)
                        &&& o.size == 100 * whole_shares(cash as int, price_cap as int)
                        &&& !o.is_sell
                    },
                }
            },
    {
        match Self::buy_args(cash, price_cap) {
            Err(e) => Err(e),
            Ok(args) => place_fak(token_id, args),
        }
    }

    /// Begins a sale of the shares that are thought to be held.
    pub fn sell_all(&self, shares_hint: i64) -> (r: SellAll)
        requires
            stake(shares_hint),
        ensures
            r == (SellAll {
                hint: shares_hint,
                reads: 0,
                orders: 0,
                remaining: 0,
                sold: 0,
                received: 0,
            }),
            r.wf(),
    {
        SellAll { hint: shares_hint, reads: 0, orders: 0, remaining: 0, sold: 0, received: 0 }
    }

    /// What a purchase obtained; the fees are in the amounts.
    pub fn buy_fill(res: &PlaceResult) -> (r: Fill)
        requires
            res.wf(),
        ensures
            r == (Fill {
                shares: res.shares() as i64,
                notional: res.dollars() as i64,
                fees: 0,
                avg_price: res.price() as i64,
            }),
            r.wf(),
            r.shares == res.shares(),
            r.notional == res.dollars(),
    {
        let (shares, price) = res.figures();
        let notional = dollars_of(shares, price);
        Fill { shares, notional, fees: 0, avg_price: price }
    }

    /// Whether a signed order is sent: it is not if orders are not armed, and
    /// it must carry the signature of a deposit wallet.
    pub fn sends(&self, wrapped: bool) -> (r: Result<bool, LiveError>)
        ensures
            r == (if wrapped {
                Ok::<bool, LiveError>(self.armed)
            } else {
                Err::<bool, LiveError>(LiveError::Unwrapped)
            }),
    {
        if !wrapped {
            Err(LiveError::Unwrapped)
        } else {
            Ok(self.armed)
        }
    }
}

/// The dollars that `shares` at `price` are worth.
fn dollars_of(shares: i64, price: i64) -> (r: i64)
    requires
        stake(shares),
        amount(price),
        product(shares as int, price as int) <= STAKE_LIMIT,
    ensures
        r == product(shares as int, price as int),
        r >= 0,
{
    proof {
        lemma_wide_product(shares as int, price as int);
        lemma_quotient_small(shares * price, NANO as int);
    }
    ((shares as i128) * (price as i128) / (NANO as i128)) as i64
}

/// The lowest price that can be asked for: an emergency sale takes every bid.
pub const PRICE_FLOOR: i64 = 10_000_000;

/// What is to be done next in a sale of everything.
#[derive(Debug, Clone, Copy, PartialEq, Eq, Structural)]
pub enum SellStep {
    /// Read how many shares the wallet holds.
    ReadBalance,
    /// Have the exchange look at the wallet again, then read.
    RefreshBalance,
    /// Place this order.
    Place(FakArgs),
    /// The sale is over.
    Done(Fill),
}

/// A sale of everything. What the wallet really holds is asked for first, twice
/// if need be; then at most two orders are placed, the second for what the
/// first left.
#[derive(Debug)]
pub struct SellAll {
    /// What is sold if the wallet cannot be read.
    pub hint: i64,
    /// How often the wallet was read.
    pub reads: u32,
    /// How many orders were placed.
    pub orders: u32,
    /// What is left to sell.
    pub remaining: i64,
    pub sold: i64,
    pub received: i64,
}

impl SellAll {
    pub open spec fn wf(self) -> bool {
        &&& stake(self.hint)
        &&& self.reads <= 2
        &&& self.orders <= 2
        &&& -LIMIT <= self.remaining <= STAKE_LIMIT
        &&& stake(self.sold)
        &&& stake(self.received)
        &&& self.received <= self.sold * NANO
    }

    /// What the sale obtained so far.
    pub open spec fn obtained(self) -> Fill {
        Fill {
            shares: self.sold,
            notional: self.received,
            fees: 0,
            avg_price: if self.sold > 0 {
                ((self.received * NANO) / self.sold as int) as i64
            } else {
                0
            },
        }
    }

    /// The next order, or the end of the sale.
    pub open spec fn next_step(self) -> SellStep {
        if self.remaining > 0 && self.orders < 2 {
            SellStep::Place(FakArgs { price: PRICE_FLOOR, size: self.remaining, is_sell: true })
        } else {
            SellStep::Done(self.obtained())
        }
    }

    fn step(&self) -> (r: SellStep)
        requires
            self.wf(),
        ensures
            r == self.next_step(),
            r matches SellStep::Done(f) ==> f.wf(),
    {
        if self.remaining > 0 && self.orders < 2 {
            SellStep::Place(FakArgs { price: PRICE_FLOOR, size: self.remaining, is_sell: true })
        } else {
            proof {
                if self.sold > 0 {
                    lemma_mean_price(self.received as int, self.sold as int);
                }
            }
            let avg_price: i64 = if self.sold > 0 {
                ((self.received as i128) * (NANO as i128) / (self.sold as i128)) as i64
            } else {
                0
            };
            SellStep::Done(
                Fill { shares: self.sold, notional: self.received, fees: 0, avg_price },
            )
        }
    }

    /// Takes in what the wallet holds, if that could be read. A wallet that
    /// seems empty is looked at once more; after that, what is thought to be
    /// held is sold.
    pub fn on_balance(&mut self, balance: Option<i64>) -> (r: SellStep)
        requires
            old(self).wf(),
            old(self).reads < 2,
            old(self).orders == 0,
            old(self).sold == 0,
            old(self).received == 0,
            balance matches Some(b) ==> b <= STAKE_LIMIT,
        ensures
            final(self).wf(),
            r matches SellStep::Done(f) ==> f.wf(),
            ({
                let truth = match balance {
                    Some(b) if b > 0 => b,
                    _ => old(self).hint,
                };
                if old(self).reads == 0 && (balance matches Some(b) && b <= 0) {
                    &&& r == SellStep::RefreshBalance
                    &&& *final(self) == (SellAll { reads: 1, ..*old(self) })
                } else {
                    &&& *final(self) == (SellAll {
                        reads: (old(self).reads + 1) as u32,
                        remaining: rounded(truth as int) as i64,
                        ..*old(self)
                    })
                    &&& final(self).remaining == rounded(truth as int)
                    &&& r == final(self).next_step()
                }
            }),
    {
        let first = self.reads == 0;
        self.reads = self.reads + 1;
        let truth: i64 = match balance {
            Some(b) => if b > 0 {
                b
            } else if first {
                return SellStep::RefreshBalance;
            } else {
                self.hint
            },
            None => self.hint,
        };
        self.remaining = round_size(truth);
        self.step()
    }

    /// The figures of an order can be added up without going out of range.
    pub open spec fn fits(self, res: PlaceResult) -> bool {
        &&& res.wf()
        &&& self.sold + res.shares() <= STAKE_LIMIT
        &&& self.received + res.dollars() <= STAKE_LIMIT
        &&& self.received + res.dollars() <= (self.sold + res.shares()) * NANO
    }

    /// Checks [`SellAll::fits`].
    pub fn takes(&self, res: &PlaceResult) -> (r: bool)
        requires
            self.wf(),
        ensures
            r == self.fits(*res),
    {
        if !res.is_valid() {
            return false;
        }
        let (shares, price) = res.figures();
        let dollars = dollars_of(shares, price);
        self.sold + shares <= STAKE_LIMIT && self.received + dollars <= STAKE_LIMIT && (self.received
            + dollars) as i128 <= (self.sold + shares) as i128 * NANO as i128
    }

    /// Takes in what became of the order. An order that was not sent ends the
    /// sale with nothing.
    pub fn on_placed(&mut self, res: &PlaceResult) -> (r: SellStep)
        requires
            old(self).wf(),
            old(self).orders < 2,
            old(self).remaining > 0,
            old(self).fits(*res),
        ensures
            final(self).wf(),
            r matches SellStep::Done(f) ==> f.wf(),
            match *res {
                PlaceResult::DryRun => r == SellStep::Done(Fill::zero()) && *final(self) == *old(
                    self,
                ),
                PlaceResult::Placed { .. } => {
                    &&& final(self).sold == old(self).sold + res.shares()
                    &&& final(self).received == old(self).received + res.dollars()
                    &&& final(self).remaining == rounded(old(self).remaining - res.shares())
                    &&& final(self).orders == old(self).orders + 1
                    &&& final(self).hint == old(self).hint
                    &&& final(self).reads == old(self).reads
                    &&& r == final(self).next_step()
                },
            },
    {
        match res {
            PlaceResult::DryRun => SellStep::Done(Fill::none()),
            PlaceResult::Placed { .. } => {
                let (shares, price) = res.figures();
                let dollars = dollars_of(shares, price);
                self.sold = self.sold + shares;
                self.received = self.received + dollars;
                self.remaining = round_size(self.remaining - shares);
                self.orders = self.orders + 1;
                self.step()
            },
        }
    }
}

/// A sale never asks for more than is held: while what was sold and what is left
/// are at most what was held, an order is for at most what was held less what
/// was sold, and this stays so after an order that sold no more than it asked
/// for.
pub proof fn a_sale_is_covered(before: SellAll, after: SellAll, held: int, shares: int)
    requires
        before.sold + before.remaining <= held,
        0 <= shares <= before.remaining,
        after.sold == before.sold + shares,
        after.remaining == rounded(before.remaining - shares),
    ensures
        before.next_step() matches SellStep::Place(args) ==> args.is_sell && 0 < args.size <= held
            - before.sold,
        after.sold + after.remaining <= held,
        after.next_step() matches SellStep::Place(args) ==> args.is_sell && 0 < args.size <= held
            - after.sold,
{
}

/// The whole shares that cash buys are the most that it pays for.
pub proof fn whole_shares_are_paid_for(cash: int, price_cap: int)
    requires
        0 <= cash,
        0 < price_cap,
    ensures
        whole_shares(cash, price_cap) * price_cap <= cash < (whole_shares(cash, price_cap) + 1)
            * price_cap,
{
    let n = cash / price_cap;
    assert(n * price_cap <= cash && cash < (n + 1) * price_cap) by (nonlinear_arith)
        requires
            n == cash / price_cap,
            0 < price_cap,
    ;
}

/// A sale goes on, at the lowest price there is, exactly while something is left and
/// fewer than two orders were placed; it ends with what was sold and received, at
/// the mean price, rounded down.
pub proof fn how_a_sale_goes_on(s: SellAll)
    requires
        s.wf(),
    ensures
        s.next_step() is Place <==> s.remaining > 0 && s.orders < 2,
        s.next_step() matches SellStep::Place(args) ==> args.price == 10_000_000 && args.size
            == s.remaining && args.is_sell,
        s.remaining <= 0 || s.orders >= 2 ==> (s.next_step() matches SellStep::Done(f) && f.shares
            == s.sold && f.notional == s.received && f.fees == 0 && (s.sold == 0 ==> f.avg_price == 0)
            && (s.sold > 0 ==> f.avg_price * s.sold <= s.received * 1_000_000_000 < (f.avg_price + 1)
            * s.sold)),
{
    if s.sold > 0 {
        lemma_mean_price(s.received as int, s.sold as int);
        let n = s.received * NANO;
        let p = n / s.sold as int;
        assert(p * s.sold <= n && n < (p + 1) * s.sold) by (nonlinear_arith)
            requires
                p == n / s.sold as int,
                s.sold > 0,
        ;
    }
}

} // verus!
