use le_grinder::text::{
    comes_before, decimal_of, equal_but_case, fixed_text_of, hundredths_of, is_switched_on,
    parse_integer, prefix_of, same, two_decimals_of,
};

#[test]
fn integers_are_written_and_read_back() {
    for x in [0, 7, -7, 10, 8095, i64::MAX, i64::MIN] {
        assert_eq!(decimal_of(x), format!("{}", x));
        assert_eq!(parse_integer(&decimal_of(x)), Some(x));
    }
    assert_eq!(parse_integer("+12"), Some(12));
    assert_eq!(parse_integer("-0"), Some(0));
    assert_eq!(parse_integer("00012"), Some(12));
    for bad in ["", "+", "-", "1.0", " 1", "1 ", "12a", "9223372036854775808", "-9223372036854775809"] {
        assert_eq!(parse_integer(bad), None, "{}", bad);
        assert!(bad.parse::<i64>().is_err());
    }
}

#[test]
fn fixed_point_numbers_are_written_short() {
    assert_eq!(fixed_text_of(950_000_000), "0.95");
    assert_eq!(fixed_text_of(1_500_000_000), "1.5");
    assert_eq!(fixed_text_of(2_000_000_000), "2");
    assert_eq!(fixed_text_of(0), "0");
    assert_eq!(fixed_text_of(-30_000), "-0.00003");
}

#[test]
fn two_decimals_are_rounded_to_the_nearest() {
    assert_eq!(two_decimals_of(1_234_000_000), "1.23");
    assert_eq!(two_decimals_of(1_236_000_000), "1.24");
    assert_eq!(two_decimals_of(125_000_000), "0.12");
    assert_eq!(two_decimals_of(135_000_000), "0.14");
    assert_eq!(two_decimals_of(-1_000_000), "-0.00");
    assert_eq!(two_decimals_of(-2_500_000_000), "-2.50");
    assert_eq!(hundredths_of(995_000_000), 100);
    assert_eq!(hundredths_of(985_000_000), 98);
}

#[test]
fn texts_are_compared() {
    assert!(same("live", "live"));
    assert!(!same("live", "Live"));
    assert!(comes_before("2026-07-14", "2026-07-15"));
    assert!(comes_before("2026", "2026-07"));
    assert!(!comes_before("b", "a"));
    assert_eq!(prefix_of("2026-07-15T00:00:00Z", 10), "2026-07-15");
    assert_eq!(prefix_of("short", 10), "short");
    assert!(equal_but_case("TrUe", "true"));
    assert!(!equal_but_case("true ", "true"));
    assert!(!equal_but_case("trUé", "true"));
}

#[test]
fn switches_are_on_for_true_and_one() {
    for on in ["true", "TRUE", "True", "1"] {
        assert!(is_switched_on(on), "{}", on);
    }
    for off in ["", "0", "yes", "on", "11", " true"] {
        assert!(!is_switched_on(off), "{}", off);
    }
}
