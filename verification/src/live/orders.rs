//! Real orders: what is checked before one is signed, and what a reply means.

use std::str::FromStr;

use vstd::prelude::*;

use super::{LiveCredentials, LiveError};
use crate::fixed::{is_stake, lemma_wide_product, product, stake, LIMIT, NANO, STAKE_LIMIT};
use crate::text::{hundredths, hundredths_of};

verus! {

/// An order that is filled at once, as far as it can be, and never rests.
#[derive(Debug, Clone, Copy, PartialEq, Eq, Structural)]
pub struct FakArgs {
    /// The limit: the highest price to buy at, or the lowest to sell at.
    pub price: i64,
    /// The shares.
    pub size: i64,
    pub is_sell: bool,
}

/// What became of an order.
#[derive(Debug, PartialEq)]
pub enum PlaceResult {
    /// It was signed, and not sent.
    DryRun,
    /// It was sent and taken.
    Placed {
        order_id: String,
        /// The shares that changed hands, where the reply says so.
        filled_size: Option<i64>,
        /// The mean price, where shares changed hands.
        avg_price: Option<i64>,
        /// How long sending it took.
        post_ms: u64,
    },
}

impl PlaceResult {
    /// The shares that changed hands.
    pub open spec fn shares(self) -> int {
        match self {
            PlaceResult::Placed { filled_size: Some(s), .. } => s as int,
            _ => 0,
        }
    }

    /// Their mean price.
    pub open spec fn price(self) -> int {
        match self {
            PlaceResult::Placed { avg_price: Some(p), .. } => p as int,
            _ => 0,
        }
    }

    /// The dollars that changed hands.
    pub open spec fn dollars(self) -> int {
        product(self.shares(), self.price())
    }

    /// The figures are in range.
    pub open spec fn wf(self) -> bool {
        &&& 0 <= self.shares() <= STAKE_LIMIT
        &&& 0 <= self.price() <= LIMIT
        &&& self.dollars() <= STAKE_LIMIT
    }

    /// The shares that changed hands, and their mean price.
    pub fn figures(&self) -> (r: (i64, i64))
        ensures
            r.0 == self.shares(),
            r.1 == self.price(),
    {
        match self {
            PlaceResult::DryRun => (0, 0),
            PlaceResult::Placed { filled_size, avg_price, .. } => {
                let shares: i64 = match filled_size {
                    Some(s) => *s,
                    None => 0,
                };
                let price: i64 = match avg_price {
                    Some(p) => *p,
                    None => 0,
                };
                (shares, price)
            },
        }
    }

    /// Checks [`PlaceResult::wf`].
    pub fn is_valid(&self) -> (r: bool)
        ensures
            r == self.wf(),
    {
        let (shares, price) = self.figures();
        if !is_stake(shares) || price < 0 || price > LIMIT {
            return false;
        }
        proof {
            lemma_wide_product(shares as int, price as int);
        }
        (shares as i128) * (price as i128) / (NANO as i128) <= STAKE_LIMIT as i128
    }
}

/// The number that a token's name stands for, in four words, the least
/// significant first; or what is said of a name that is no number of 256 bits.
pub uninterp spec fn token_number(text: Seq<char>) -> Result<Seq<u64>, Seq<char>>;

/// `alloy::primitives::U256::from_str`: what it returns depends on the text
/// alone, and is four words of 64 bits where there is a number. An error is
/// given by its text.
#[verifier::external_body]
fn parse_token(text: &str) -> (r: Result<Vec<u64>, String>)
    ensures
        match r {
            Ok(words) => token_number(text@) == Ok::<Seq<u64>, Seq<char>>(words@) && words@.len() == 4,
            Err(e) => token_number(text@) == Err::<Seq<u64>, Seq<char>>(e@),
        },
{
    let parsed = alloy::primitives::U256::from_str(text);
    parsed.map(|n| n.as_limbs().to_vec()).map_err(|e| e.to_string())
}

/// The address of the account that a private key signs for; or what is said of a
/// text that is no private key.
pub uninterp spec fn signer_address(text: Seq<char>) -> Result<Seq<u8>, Seq<char>>;

/// `alloy::signers::local::PrivateKeySigner::from_str`, and the address of the
/// signer that it gives: it depends on the text alone, and has twenty bytes. An
/// error is given by its text.
#[verifier::external_body]
fn parse_signer(text: &str) -> (r: Result<Vec<u8>, String>)
    ensures
        match r {
            Ok(bytes) => signer_address(text@) == Ok::<Seq<u8>, Seq<char>>(bytes@) && bytes@.len()
                == 20,
            Err(e) => signer_address(text@) == Err::<Seq<u8>, Seq<char>>(e@),
        },
{
    let parsed = alloy::signers::local::PrivateKeySigner::from_str(text);
    parsed.map(|s| s.address().to_vec()).map_err(|e| e.to_string())
}

/// A hexadecimal digit, in either case.
pub open spec fn is_hex(c: char) -> bool {
    48 <= c as u32 <= 57 || 65 <= c as u32 <= 70 || 97 <= c as u32 <= 102
}

/// The value of a hexadecimal digit.
pub open spec fn hex_value(c: char) -> int {
    if c as u32 <= 57 {
        c as u32 - 48
    } else if c as u32 <= 70 {
        c as u32 - 55
    } else {
        c as u32 - 87
    }
}

/// A text without the mark of hexadecimal notation.
pub open spec fn without_mark(text: Seq<char>) -> Seq<char> {
    if text.len() >= 2 && text[0] == '0' && (text[1] == 'x' || text[1] == 'X') {
        text.skip(2)
    } else {
        text
    }
}

/// The bytes of an address: forty hexadecimal digits, with the mark of their
/// notation or without.
pub open spec fn address_bytes(text: Seq<char>) -> Option<Seq<u8>> {
    let h = without_mark(text);
    if h.len() == 40 && forall|i: int| 0 <= i < 40 ==> is_hex(#[trigger] h[i]) {
        Some(Seq::new(20, |i: int| (16 * hex_value(h[2 * i]) + hex_value(h[2 * i + 1])) as u8))
    } else {
        None
    }
}

/// What is said of a text that is no address.
pub uninterp spec fn address_error(text: Seq<char>) -> Seq<char>;

/// `alloy::primitives::Address::from_str`: forty hexadecimal digits in either
/// case, after `0x` or `0X` or nothing, are an address, and nothing else is. The
/// text of the error depends on the text alone.
#[verifier::external_body]
fn parse_address(text: &str) -> (r: Result<Vec<u8>, String>)
    ensures
        match r {
            Ok(bytes) => address_bytes(text@) == Some(bytes@),
            Err(e) => address_bytes(text@) is None && e@ == address_error(text@),
        },
{
    let parsed = alloy::primitives::Address::from_str(text);
    parsed.map(|a| a.to_vec()).map_err(|e| e.to_string())
}

/// An account that orders can be signed for.
#[derive(Debug)]
pub struct Account {
    /// The address that signs.
    pub signer: Vec<u8>,
    /// The address that pays.
    pub funder: Vec<u8>,
}

/// The one kind of signature that is supported.
pub const DEPOSIT_WALLET: i64 = 3;

/// What the credentials give, where reading the private key gave `signer` and
/// reading the funder gave `funder`: the kind of signature is checked first, then
/// the key, then the funder.
pub fn account(sig_type: i64, signer: Result<Vec<u8>, String>, funder: Result<Vec<u8>, String>) -> (r:
    Result<Account, LiveError>)
    ensures
        r == (if sig_type != DEPOSIT_WALLET {
            Err::<Account, LiveError>(LiveError::SignatureType)
        } else {
            match (signer, funder) {
                (Err(e), _) => Err(LiveError::PrivateKey(e)),
                (Ok(_), Err(e)) => Err(LiveError::Funder(e)),
                (Ok(s), Ok(f)) => Ok(Account { signer: s, funder: f }),
            }
        }),
{
    if sig_type != DEPOSIT_WALLET {
        return Err(LiveError::SignatureType);
    }
    match signer {
        Err(e) => Err(LiveError::PrivateKey(e)),
        Ok(signer) => match funder {
            Err(e) => Err(LiveError::Funder(e)),
            Ok(funder) => Ok(Account { signer, funder }),
        },
    }
}

/// What checking the credentials gives.
pub open spec fn checked(creds: LiveCredentials, r: Result<Account, LiveError>) -> bool {
    let signer = signer_address(creds.private_key@);
    let funder = address_bytes(creds.funder@);
    if creds.sig_type != DEPOSIT_WALLET {
        r == Err::<Account, LiveError>(LiveError::SignatureType)
    } else if signer is Err {
        r matches Err(LiveError::PrivateKey(e)) && e@ == signer->Err_0
    } else if funder is None {
        r matches Err(LiveError::Funder(e)) && e@ == address_error(creds.funder@)
    } else {
        r matches Ok(a) && a.signer@ == signer->Ok_0 && a.funder@ == funder->0
    }
}

/// The account of the credentials, if they are sound.
pub fn startup(creds: &LiveCredentials) -> (r: Result<Account, LiveError>)
    ensures
        checked(*creds, r),
{
    account(
        creds.sig_type,
        parse_signer(creds.private_key.as_str()),
        parse_address(creds.funder.as_str()),
    )
}

/// An order that can be signed: the price and the size are in hundredths.
#[derive(Debug)]
pub struct Order {
    pub token: Vec<u64>,
    pub price: u64,
    pub size: u64,
    pub is_sell: bool,
}

/// Turns a positive quantity into hundredths, rounded to the nearest, halves to
/// the even one.
pub fn decimal_from(v: i64) -> (r: Option<u64>)
    ensures
        match r {
            Some(h) => v > 0 && h == hundredths(v as int),
            None => v <= 0,
        },
{
    if v <= 0 {
        None
    } else {
        Some(hundredths_of(v as u64))
    }
}

/// The order for a token whose name was read as `token`: the token is checked
/// first, then the price, then the size.
pub fn order(token: Result<Vec<u64>, String>, args: FakArgs) -> (r: Result<Order, LiveError>)
    ensures
        r == (match token {
            Err(e) => Err::<Order, LiveError>(LiveError::TokenId(e)),
            Ok(words) => if args.price <= 0 {
                Err(LiveError::Price(args.price))
            } else if args.size <= 0 {
                Err(LiveError::Size(args.size))
            } else {
                Ok(
                    Order {
                        token: words,
                        price: hundredths(args.price as int) as u64,
                        size: hundredths(args.size as int) as u64,
                        is_sell: args.is_sell,
                    },
                )
            },
        }),
{
    match token {
        Err(e) => Err(LiveError::TokenId(e)),
        Ok(token) => match decimal_from(args.price) {
            None => Err(LiveError::Price(args.price)),
            Some(price) => match decimal_from(args.size) {
                None => Err(LiveError::Size(args.size)),
                Some(size) => Ok(Order { token, price, size, is_sell: args.is_sell }),
            },
        },
    }
}

/// Begins to place an order for the token of the given name: what is to be
/// signed.
pub fn place_fak(token_id: &str, args: FakArgs) -> (r: Result<Order, LiveError>)
    ensures
        match token_number(token_id@) {
            Err(text) => r matches Err(LiveError::TokenId(e)) && e@ == text,
            Ok(words) => if args.price <= 0 {
                r == Err::<Order, LiveError>(LiveError::Price(args.price))
            } else if args.size <= 0 {
                r == Err::<Order, LiveError>(LiveError::Size(args.size))
            } else {
                &&& r matches Ok(o)
                &&& o.token@ == words
                &&& o.price == hundredths(args.price as int)
                &&& o.size == hundredths(args.size as int)
                &&& o.is_sell == args.is_sell
            },
        },
{
    order(parse_token(token_id), args)
}

/// What the exchange replied to an order.
#[derive(Debug)]
pub struct OrderReply {
    pub order_id: String,
    pub success: bool,
    pub error_msg: Option<String>,
    /// What the order gave, where that is a number.
    pub making: Option<i64>,
    /// What the order got, where that is a number.
    pub taking: Option<i64>,
}

impl OrderReply {
    /// The order was refused: a reply can carry an error without saying so.
    pub open spec fn refuses(self) -> bool {
        !self.success || (self.error_msg matches Some(m) && m@.len() > 0)
    }

    /// The shares and the dollars: a purchase gives dollars and gets shares, a
    /// sale the other way round.
    pub open spec fn exchanged(self, is_sell: bool) -> Option<(int, int)> {
        match (self.making, self.taking) {
            (Some(m), Some(t)) => Some(
                if is_sell {
                    (m as int, t as int)
                } else {
                    (t as int, m as int)
                },
            ),
            _ => None,
        }
    }

    /// The amounts are in range, and so is the price that they make, where they
    /// make one.
    pub open spec fn wf(self) -> bool {
        match (self.making, self.taking) {
            (Some(m), Some(t)) => stake(m) && stake(t) && (m > 0 && t > 0 ==> m <= t * NANO && t <= m
                * NANO),
            _ => true,
        }
    }

    /// Checks [`OrderReply::wf`].
    pub fn is_valid(&self) -> (r: bool)
        ensures
            r == self.wf(),
    {
        match (self.making, self.taking) {
            (Some(m), Some(t)) => is_stake(m) && is_stake(t) && (m == 0 || t == 0 || (m as i128
                <= t as i128 * NANO as i128 && t as i128 <= m as i128 * NANO as i128)),
            _ => true,
        }
    }
}

/// What a reply means: the shares, and the mean price where there are any.
pub open spec fn filled(reply: OrderReply, is_sell: bool) -> (Option<i64>, Option<i64>) {
    match reply.exchanged(is_sell) {
        Some((shares, usdc)) => if shares > 0 {
            (Some(shares as i64), Some(((usdc * NANO) / shares) as i64))
        } else {
            (Some(0i64), None)
        },
        None => (None, None),
    }
}

/// What became of an order that was sent, going by the reply.
pub fn place_result(reply: OrderReply, is_sell: bool, post_ms: u64) -> (r: Result<
    PlaceResult,
    LiveError,
>)
    requires
        reply.wf(),
    ensures
        if reply.refuses() {
            r matches Err(LiveError::Refused(m)) && m@ == match reply.error_msg {
                Some(text) => text@,
                None => Seq::empty(),
            }
        } else {
            &&& r == Ok::<PlaceResult, LiveError>(
                PlaceResult::Placed {
                    order_id: reply.order_id,
                    filled_size: filled(reply, is_sell).0,
                    avg_price: filled(reply, is_sell).1,
                    post_ms,
                },
            )
            &&& r->Ok_0.wf()
        },
{
    let has_error = match &reply.error_msg {
        Some(m) => m.as_str().unicode_len() > 0,
        None => false,
    };
    if !reply.success || has_error {
        let text = match reply.error_msg {
            Some(m) => m,
            None => {
                let empty = String::new();
                assert(empty@ =~= Seq::empty());
                empty
            },
        };
        return Err(LiveError::Refused(text));
    }
    let (filled_size, avg_price): (Option<i64>, Option<i64>) = match (reply.making, reply.taking) {
        (Some(m), Some(t)) => {
            let (shares, usdc): (i64, i64) = if is_sell {
                (m, t)
            } else {
                (t, m)
            };
            if shares > 0 {
                let avg: i128 = (usdc as i128) * (NANO as i128) / (shares as i128);
                proof {
                    lemma_mean_price(usdc as int, shares as int);
                }
                (Some(shares), Some(avg as i64))
            } else {
                (Some(0), None)
            }
        },
        _ => (None, None),
    };
    Ok(PlaceResult::Placed { order_id: reply.order_id, filled_size, avg_price, post_ms })
}

/// The mean price of some shares, rounded down: it is in range, and the shares
/// at that price are worth no more than what was paid.
pub(crate) proof fn lemma_mean_price(usdc: int, shares: int)
    requires
        0 <= usdc <= shares * NANO,
        usdc <= STAKE_LIMIT,
        0 < shares,
    ensures
        0 <= (usdc * NANO) / shares <= LIMIT,
        0 <= product(shares, (usdc * NANO) / shares) <= usdc,
{
    let price = (usdc * NANO) / shares;
    assert(0 <= price && price * shares <= usdc * NANO) by (nonlinear_arith)
        requires
            price == (usdc * NANO) / shares,
            0 <= usdc,
            0 < shares,
            NANO == 1_000_000_000,
    ;
    assert(price <= LIMIT) by (nonlinear_arith)
        requires
            price * shares <= usdc * NANO,
            usdc <= shares * NANO,
            0 < shares,
            NANO == 1_000_000_000,
            LIMIT == 1_000_000_000_000_000_000,
    ;
    assert(shares * price == price * shares) by (nonlinear_arith);
    assert(0 <= shares * price) by (nonlinear_arith)
        requires
            0 <= price,
            0 < shares,
    ;
    assert(0 <= (shares * price) / NANO as int <= usdc) by (nonlinear_arith)
        requires
            0 <= shares * price <= usdc * NANO,
            NANO == 1_000_000_000,
    ;
}

/// What became of an order: an order that was not sent, or whose reply does not say,
/// counts as nothing; the dollars are the shares at their mean price, rounded down.
pub proof fn what_an_order_came_to(res: PlaceResult)
    ensures
        res is DryRun ==> res.shares() == 0 && res.price() == 0,
        res matches PlaceResult::Placed { filled_size, avg_price, .. } ==> {
            &&& filled_size matches Some(s) ==> res.shares() == s
            &&& filled_size is None ==> res.shares() == 0
            &&& avg_price matches Some(p) ==> res.price() == p
            &&& avg_price is None ==> res.price() == 0
        },
        res.shares() >= 0 && res.price() >= 0 ==> res.dollars() * 1_000_000_000 <= res.shares()
            * res.price() < (res.dollars() + 1) * 1_000_000_000,
{
    if res.shares() >= 0 && res.price() >= 0 {
        let (s, p) = (res.shares(), res.price());
        assert(s * p >= 0) by (nonlinear_arith)
            requires
                s >= 0,
                p >= 0,
        ;
    }
}

/// A reply refuses an order exactly if it does not report success, or carries a
/// message.
pub proof fn what_a_refusal_is(reply: OrderReply)
    ensures
        !reply.success ==> reply.refuses(),
        reply.success && reply.error_msg is None ==> !reply.refuses(),
        reply.success ==> (reply.error_msg matches Some(m) ==> (reply.refuses() <==> m@.len() > 0)),
{
}

/// A purchase gives dollars and gets shares, and a sale the other way round: the
/// mean price is the dollars over the shares, rounded down, where there are any
/// shares. A reply without both amounts tells nothing.
pub proof fn a_reply_tells_the_trade(reply: OrderReply, is_sell: bool)
    requires
        reply.wf(),
    ensures
        reply.making is None || reply.taking is None ==> filled(reply, is_sell) == (
            None::<i64>,
            None::<i64>,
        ),
        reply.making matches Some(m) ==> (reply.taking matches Some(t) ==> {
            let shares = if is_sell {
                m
            } else {
                t
            };
            let dollars = if is_sell {
                t
            } else {
                m
            };
            &&& shares == 0 ==> filled(reply, is_sell) == (Some(0i64), None::<i64>)
            &&& shares > 0 ==> {
                &&& filled(reply, is_sell) matches (Some(s), Some(p))
                &&& s == shares
                &&& p * shares <= dollars * 1_000_000_000 < (p + 1) * shares
            }
        }),
{
    if let (Some(m), Some(t)) = (reply.making, reply.taking) {
        let shares = if is_sell {
            m as int
        } else {
            t as int
        };
        let dollars = if is_sell {
            t as int
        } else {
            m as int
        };
        if shares > 0 {
            lemma_mean_price(dollars, shares);
            let n = dollars * NANO;
            let p = n / shares;
            assert(p * shares <= n && n < (p + 1) * shares) by (nonlinear_arith)
                requires
                    p == n / shares,
                    shares > 0,
            ;
        }
    }
}

/// The hexadecimal digit of a value, in lower case.
pub open spec fn hex_digit(v: int) -> char {
    if v < 10 {
        (48 + v) as char
    } else {
        (87 + v) as char
    }
}

/// The digits of some bytes.
pub open spec fn hex_of(bytes: Seq<u8>) -> Seq<char> {
    Seq::new(
        2 * bytes.len(),
        |i: int|
            hex_digit(
                if i % 2 == 0 {
                    bytes[i / 2] as int / 16
                } else {
                    bytes[i / 2] as int % 16
                },
            ),
    )
}

/// An address is read back from its digits, with the mark of their notation or
/// without.
pub proof fn addresses_are_read_back(bytes: Seq<u8>)
    requires
        bytes.len() == 20,
    ensures
        address_bytes(hex_of(bytes)) == Some(bytes),
        address_bytes(seq!['0', 'x'] + hex_of(bytes)) == Some(bytes),
        address_bytes(seq!['0', 'X'] + hex_of(bytes)) == Some(bytes),
{
    let h = hex_of(bytes);
    let x = seq!['0', 'x'] + h;
    let y = seq!['0', 'X'] + h;
    assert(h[1] != 'x' && h[1] != 'X');
    assert(without_mark(h) == h);
    assert(x.skip(2) =~= h);
    assert(y.skip(2) =~= h);
    assert forall|i: int| 0 <= i < 40 implies is_hex(#[trigger] h[i]) by {}
    let read = Seq::new(20, |i: int| (16 * hex_value(h[2 * i]) + hex_value(h[2 * i + 1])) as u8);
    assert forall|i: int| 0 <= i < 20 implies read[i] == bytes[i] by {
        assert(hex_value(h[2 * i]) == bytes[i] as int / 16);
        assert(hex_value(h[2 * i + 1]) == bytes[i] as int % 16);
    }
    assert(read =~= bytes);
}

/// Credentials are sound exactly if the signature is that of a deposit wallet, the
/// key can be read, and the funder is an address; the first that fails is told.
pub proof fn what_sound_credentials_are(creds: LiveCredentials, r: Result<Account, LiveError>)
    requires
        checked(creds, r),
    ensures
        r is Ok <==> creds.sig_type == 3 && signer_address(creds.private_key@) is Ok && address_bytes(
            creds.funder@,
        ) is Some,
        r is Err && creds.sig_type != 3 ==> r->Err_0 is SignatureType,
        r is Err && creds.sig_type == 3 && signer_address(creds.private_key@) is Err ==> r->Err_0
            is PrivateKey,
        r is Err && creds.sig_type == 3 && signer_address(creds.private_key@) is Ok ==> r->Err_0
            is Funder,
        r matches Ok(a) ==> signer_address(creds.private_key@) == Ok::<Seq<u8>, Seq<char>>(a.signer@)
            && address_bytes(creds.funder@) == Some(a.funder@),
{
}

} // verus!
