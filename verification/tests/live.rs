use le_grinder::live::orders::{
    account, order, place_result, place_fak, startup, FakArgs, Order, OrderReply, PlaceResult,
};
use le_grinder::live::{LiveCredentials, LiveError, LiveExec, SellStep};
use le_grinder::paper::Fill;

fn nano(x: f64) -> i64 {
    (x * 1e9).round() as i64
}

const KEY: &str = "0x0000000000000000000000000000000000000000000000000000000000000001";
const FUNDER: &str = "0x7E5F4552091A69125d5DfCb7b8C2659029395Bdf";

fn creds() -> LiveCredentials {
    LiveCredentials {
        private_key: KEY.to_string(),
        funder: FUNDER.to_string(),
        api_key: String::new(),
        api_secret: String::new(),
        passphrase: String::new(),
        sig_type: 3,
    }
}

fn exec(armed: bool) -> LiveExec {
    LiveExec { creds: creds(), armed }
}

fn reply(success: bool, error: Option<&str>, making: Option<f64>, taking: Option<f64>) -> OrderReply {
    OrderReply {
        order_id: "id".to_string(),
        success,
        error_msg: error.map(|m| m.to_string()),
        making: making.map(nano),
        taking: taking.map(nano),
    }
}

fn placed(filled: Option<f64>, avg: Option<f64>) -> PlaceResult {
    PlaceResult::Placed {
        order_id: "id".to_string(),
        filled_size: filled.map(nano),
        avg_price: avg.map(nano),
        post_ms: 5,
    }
}

fn sell(size: f64) -> SellStep {
    SellStep::Place(FakArgs { price: nano(0.01), size: nano(size), is_sell: true })
}

#[test]
fn the_account_comes_from_the_private_key() {
    // The address of the private key one is well known.
    let a = startup(&creds()).unwrap();
    assert_eq!(a.signer.len(), 20);
    assert_eq!(a.signer, a.funder);
    assert_eq!(a.signer[..4], [0x7e, 0x5f, 0x45, 0x52]);
}

#[test]
fn unsound_credentials_are_refused() {
    let mut c = creds();
    c.sig_type = 1;
    c.private_key = "no key".to_string();
    assert!(matches!(startup(&c), Err(LiveError::SignatureType)));
    c.sig_type = 3;
    assert!(matches!(startup(&c), Err(LiveError::PrivateKey(_))));
    c.private_key = KEY.replace('1', "0");
    assert!(matches!(startup(&c), Err(LiveError::PrivateKey(_))));
    c.private_key = KEY.to_string();
    c.funder = "0x12".to_string();
    assert!(matches!(startup(&c), Err(LiveError::Funder(_))));
    assert!(matches!(account(3, Err("k".to_string()), Err("f".to_string())), Err(LiveError::PrivateKey(_))));
    assert!(matches!(account(3, Ok(vec![1]), Err("f".to_string())), Err(LiveError::Funder(_))));
    assert_eq!(account(3, Ok(vec![1]), Ok(vec![2])).unwrap().funder, vec![2]);
}

#[test]
fn live_play_starts_with_credentials() {
    assert!(matches!(LiveExec::startup(None, Some("true")), Err(LiveError::Credentials)));
    let (l, a) = LiveExec::startup(Some(creds()), Some("TRUE")).unwrap();
    assert!(l.armed);
    assert_eq!(a.signer.len(), 20);
    assert!(LiveExec::startup(Some(creds()), Some("1")).unwrap().0.armed);
    assert!(!LiveExec::startup(Some(creds()), Some("yes")).unwrap().0.armed);
    assert!(!LiveExec::startup(Some(creds()), None).unwrap().0.armed);
}

#[test]
fn a_purchase_is_of_whole_shares() {
    let args = LiveExec::buy_args(nano(10.0), nano(0.99)).unwrap();
    assert_eq!(args, FakArgs { price: nano(0.99), size: nano(10.0), is_sell: false });
    assert!(matches!(LiveExec::buy_args(nano(0.98), nano(0.99)), Err(LiveError::TooSmall(_, _))));
    assert!(matches!(LiveExec::buy_args(nano(1.0), -1), Err(LiveError::TooSmall(_, _))));
    let o = exec(true).buy_all("12345", nano(10.0), nano(0.99)).unwrap();
    assert_eq!((o.price, o.size, o.is_sell), (99, 1000, false));
    assert_eq!(o.token, vec![12345, 0, 0, 0]);
    let bad = exec(true).buy_all("x", nano(10.0), 0);
    assert!(matches!(bad, Err(LiveError::TokenId(_))));
    let bad = exec(true).buy_all("12345", nano(10.0), 0);
    assert!(matches!(bad, Err(LiveError::Price(0))));
}

#[test]
fn orders_are_checked_before_they_are_signed() {
    let args = FakArgs { price: nano(0.505), size: nano(2.345), is_sell: true };
    let o = place_fak("0x10000000000000000", args).unwrap();
    // Halves go to the even hundredth.
    assert_eq!((o.price, o.size, o.is_sell), (50, 234, true));
    assert_eq!(o.token, vec![0, 1, 0, 0]);
    assert!(matches!(place_fak("", FakArgs { price: 0, size: 0, is_sell: true }), Err(_)));
    assert!(matches!(place_fak("no", args), Err(LiveError::TokenId(_))));
    let bad = FakArgs { price: 0, ..args };
    assert!(matches!(place_fak("1", bad), Err(LiveError::Price(0))));
    let bad = FakArgs { size: -1, ..args };
    assert!(matches!(place_fak("1", bad), Err(LiveError::Size(-1))));
    let o: Order = order(Ok(vec![7, 0, 0, 0]), args).unwrap();
    assert_eq!(o.token, vec![7, 0, 0, 0]);
    assert!(matches!(order(Err("why".to_string()), args), Err(LiveError::TokenId(_))));
}

#[test]
fn only_armed_orders_are_sent() {
    assert!(matches!(exec(true).sends(true), Ok(true)));
    assert!(matches!(exec(false).sends(true), Ok(false)));
    assert!(matches!(exec(true).sends(false), Err(LiveError::Unwrapped)));
}

#[test]
fn replies_are_understood() {
    // A purchase gives dollars and gets shares.
    let r = place_result(reply(true, None, Some(9.5), Some(10.0)), false, 5).unwrap();
    assert_eq!(r, placed(Some(10.0), Some(0.95)));
    // A sale gives shares and gets dollars.
    let r = place_result(reply(true, Some(""), Some(10.0), Some(9.0)), true, 5).unwrap();
    assert_eq!(r, placed(Some(10.0), Some(0.9)));
    let r = place_result(reply(true, None, Some(0.0), Some(0.0)), true, 5).unwrap();
    assert_eq!(r, placed(Some(0.0), None));
    let r = place_result(reply(true, None, None, Some(1.0)), true, 5).unwrap();
    assert_eq!(r, placed(None, None));
}

#[test]
fn replies_with_one_empty_side_are_understood() {
    // Shares for nothing have a price of zero; dollars for no shares have none.
    let r = reply(true, None, Some(0.0), Some(3.0));
    assert!(r.is_valid());
    assert_eq!(place_result(r, false, 5).unwrap(), placed(Some(3.0), Some(0.0)));
    let r = reply(true, None, Some(2.0), Some(0.0));
    assert!(r.is_valid());
    assert_eq!(place_result(r, false, 5).unwrap(), placed(Some(0.0), None));
    assert!(!reply(true, None, Some(200_000_000.0), Some(1e-9)).is_valid());
}

#[test]
fn outside_errors_are_told() {
    let mut c = creds();
    c.private_key = "0x12".to_string();
    let said = startup(&c).unwrap_err().message();
    assert!(said.starts_with("POLY_PRIVATE_KEY: ") && said.len() > 18, "{}", said);
    let mut c = creds();
    c.funder = "0x12".to_string();
    let said = startup(&c).unwrap_err().message();
    assert!(said.starts_with("funder: ") && said.len() > 8, "{}", said);
    let args = FakArgs { price: 1, size: 1, is_sell: true };
    let said = place_fak("12z", args).unwrap_err().message();
    assert!(said.starts_with("token_id: ") && said.len() > 10, "{}", said);
}

#[test]
fn addresses_are_forty_hexadecimal_digits() {
    let bytes = vec![0xde, 0xad, 0xbe, 0xef, 0, 1, 2, 3, 4, 5, 6, 7, 8, 9, 0x0a, 0x1b, 0x2c, 0x3d, 0x4e, 0xff];
    let digits = "DeadBEEF000102030405060708090a1b2C3d4eFF";
    for funder in [digits.to_string(), format!("0x{}", digits), format!("0X{}", digits)] {
        let c = LiveCredentials { funder, ..creds() };
        assert_eq!(startup(&c).unwrap().funder, bytes);
    }
    for funder in [digits[1..].to_string(), format!("{}00", digits), digits.replace('D', "g"), format!(" {}", &digits[1..]), format!("0x0x{}", digits)] {
        let c = LiveCredentials { funder, ..creds() };
        assert!(matches!(startup(&c), Err(LiveError::Funder(_))));
    }
}

#[test]
fn refusals_are_found_in_any_reply() {
    let r = place_result(reply(true, Some("not enough balance"), Some(1.0), Some(1.0)), true, 5);
    assert_eq!(r.unwrap_err().message(), "ordre refusé par le CLOB: not enough balance");
    let r = place_result(reply(false, None, Some(1.0), Some(1.0)), true, 5);
    assert_eq!(r.unwrap_err().message(), "ordre refusé par le CLOB: ");
}

#[test]
fn what_a_purchase_obtained() {
    let f = LiveExec::buy_fill(&placed(Some(10.0), Some(0.95)));
    assert_eq!(f, Fill { shares: nano(10.0), notional: nano(9.5), fees: 0, avg_price: nano(0.95) });
    assert_eq!(LiveExec::buy_fill(&PlaceResult::DryRun), Fill::none());
    assert_eq!(LiveExec::buy_fill(&placed(None, None)), Fill::none());
}

#[test]
fn a_sale_goes_by_what_the_wallet_holds() {
    let l = exec(true);
    let mut s = l.sell_all(nano(5.0));
    assert_eq!(s.on_balance(Some(nano(4.999))), sell(4.99));
    assert!(s.takes(&placed(Some(3.0), Some(0.5))));
    assert_eq!(s.on_placed(&placed(Some(3.0), Some(0.5))), sell(1.99));
    let done = s.on_placed(&placed(Some(1.0), Some(0.3)));
    assert_eq!(
        done,
        SellStep::Done(Fill {
            shares: nano(4.0),
            notional: nano(1.8),
            fees: 0,
            avg_price: nano(0.45)
        })
    );
}

#[test]
fn an_empty_wallet_is_looked_at_twice() {
    let l = exec(true);
    let mut s = l.sell_all(nano(5.0));
    assert_eq!(s.on_balance(Some(0)), SellStep::RefreshBalance);
    assert_eq!(s.on_balance(Some(0)), sell(5.0));
    let mut s = l.sell_all(nano(5.0));
    assert_eq!(s.on_balance(Some(0)), SellStep::RefreshBalance);
    assert_eq!(s.on_balance(Some(nano(2.0))), sell(2.0));
    let mut s = l.sell_all(nano(5.0));
    assert_eq!(s.on_balance(None), sell(5.0));
}

#[test]
fn a_sale_ends_when_all_is_sold_or_nothing_is_sent() {
    let l = exec(true);
    let mut s = l.sell_all(nano(5.0));
    s.on_balance(None);
    assert_eq!(
        s.on_placed(&placed(Some(5.0), Some(0.5))),
        SellStep::Done(Fill { shares: nano(5.0), notional: nano(2.5), fees: 0, avg_price: nano(0.5) })
    );
    let mut s = l.sell_all(nano(5.0));
    s.on_balance(None);
    assert_eq!(s.on_placed(&PlaceResult::DryRun), SellStep::Done(Fill::none()));
    let mut s = l.sell_all(nano(0.005));
    assert_eq!(s.on_balance(None), SellStep::Done(Fill::none()));
    assert!(!s.takes(&placed(Some(300_000_000.0), Some(0.5))));
}

#[test]
fn errors_have_their_messages() {
    let cases = [
        (LiveError::Credentials, "credentials POLY_* incomplètes dans le .env"),
        (LiveError::SignatureType, "seul POLY_SIG_TYPE=3 (deposit wallet POLY_1271) est supporté"),
        (LiveError::TooSmall(nano(0.5), nano(0.99)), "cash 0.50 < 1 part entière à 0.99 (minimum CLOB)"),
        (LiveError::Price(0), "price invalide: 0"),
        (LiveError::Size(nano(-1.5)), "size invalide: -1.5"),
        (LiveError::PrivateKey("a".to_string()), "POLY_PRIVATE_KEY: a"),
        (LiveError::Funder("b".to_string()), "funder: b"),
        (LiveError::TokenId("c".to_string()), "token_id: c"),
    ];
    for (e, text) in cases {
        assert_eq!(e.message(), text);
    }
    assert!(LiveError::Unwrapped.message().starts_with("signature POLY_1271 inattendue"));
}
