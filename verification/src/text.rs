//! Strings: comparison, decimal notation and composition.

use vstd::prelude::*;

use crate::fixed::abs;

verus! {

/// `a` comes before `b` in the order of a dictionary, by code points.
pub open spec fn before(a: Seq<char>, b: Seq<char>) -> bool
    decreases a.len(),
{
    if b.len() == 0 {
        false
    } else if a.len() == 0 {
        true
    } else if a[0] != b[0] {
        a[0] < b[0]
    } else {
        before(a.drop_first(), b.drop_first())
    }
}

pub proof fn before_is_irreflexive(a: Seq<char>)
    ensures
        !before(a, a),
    decreases a.len(),
{
    if a.len() > 0 {
        before_is_irreflexive(a.drop_first());
    }
}

pub proof fn before_is_total(a: Seq<char>, b: Seq<char>)
    ensures
        before(a, b) || before(b, a) || a == b,
    decreases a.len(),
{
    if a.len() == 0 && b.len() == 0 {
        assert(a =~= b);
    } else if a.len() > 0 && b.len() > 0 && a[0] == b[0] {
        before_is_total(a.drop_first(), b.drop_first());
        if a.drop_first() == b.drop_first() {
            assert(a =~= seq![a[0]] + a.drop_first());
            assert(b =~= seq![b[0]] + b.drop_first());
        }
    }
}

pub proof fn before_is_transitive(a: Seq<char>, b: Seq<char>, c: Seq<char>)
    requires
        before(a, b),
        before(b, c),
    ensures
        before(a, c),
    decreases a.len(),
{
    if a.len() > 0 && b.len() > 0 && c.len() > 0 && a[0] == b[0] && b[0] == c[0] {
        before_is_transitive(a.drop_first(), b.drop_first(), c.drop_first());
    }
}

/// Whether two strings are equal.
pub fn same(a: &str, b: &str) -> (r: bool)
    ensures
        r == (a@ == b@),
{
    a.to_owned() == b.to_owned()
}

/// Whether `a` comes before `b` in the order of a dictionary.
pub fn comes_before(a: &str, b: &str) -> (r: bool)
    ensures
        r == before(a@, b@),
{
    let n = a.unicode_len();
    let m = b.unicode_len();
    let mut i: usize = 0;
    assert(a@.skip(0) =~= a@);
    assert(b@.skip(0) =~= b@);
    while i < n && i < m
        invariant
            n == a@.len(),
            m == b@.len(),
            i <= n,
            i <= m,
            before(a@, b@) == before(a@.skip(i as int), b@.skip(i as int)),
        decreases n - i,
    {
        let x = a.get_char(i);
        let y = b.get_char(i);
        assert(a@.skip(i as int).drop_first() =~= a@.skip(i + 1));
        assert(b@.skip(i as int).drop_first() =~= b@.skip(i + 1));
        if x != y {
            return x < y;
        }
        i = i + 1;
    }
    i < m
}

/// The code of a character, in lower case if it is an ASCII letter.
pub open spec fn ascii_lower(c: char) -> int {
    if 65 <= c as u32 <= 90 {
        c as u32 + 32
    } else {
        c as u32 as int
    }
}

/// A character, in lower case if it is an ASCII letter.
pub open spec fn lower_letter(c: char) -> char {
    if 65 <= c as u32 <= 90 {
        (c as u32 + 32) as char
    } else {
        c
    }
}

/// Two texts that differ at most in the case of ASCII letters.
pub open spec fn same_but_case(a: Seq<char>, b: Seq<char>) -> bool {
    a.len() == b.len() && forall|i: int|
        0 <= i < a.len() ==> ascii_lower(#[trigger] a[i]) == ascii_lower(b[i])
}

fn lower_of(c: char) -> (r: u32)
    ensures
        r == ascii_lower(c),
{
    let code: u32 = c as u32;
    if 65 <= code && code <= 90 {
        code + 32
    } else {
        code
    }
}

/// Whether two texts differ at most in the case of ASCII letters.
pub fn equal_but_case(a: &str, b: &str) -> (r: bool)
    ensures
        r == same_but_case(a@, b@),
{
    let n: usize = a.unicode_len();
    if n != b.unicode_len() {
        return false;
    }
    let mut i: usize = 0;
    while i < n
        invariant
            i <= n,
            n == a@.len(),
            n == b@.len(),
            forall|j: int| 0 <= j < i ==> ascii_lower(#[trigger] a@[j]) == ascii_lower(b@[j]),
        decreases n - i,
    {
        let x = a.get_char(i);
        let y = b.get_char(i);
        if lower_of(x) != lower_of(y) {
            assert(ascii_lower(a@[i as int]) != ascii_lower(b@[i as int]));
            return false;
        }
        i = i + 1;
    }
    true
}

/// A setting that is on: `true` in any case, or `1`.
pub open spec fn switched_on(t: Seq<char>) -> bool {
    same_but_case(t, "true"@) || t == "1"@
}

/// Whether a setting is on.
pub fn is_switched_on(t: &str) -> (r: bool)
    ensures
        r == switched_on(t@),
{
    equal_but_case(t, "true") || same(t, "1")
}

/// The first `n` characters, or all of them where there are fewer.
pub open spec fn prefix(s: Seq<char>, n: int) -> Seq<char> {
    if n < s.len() {
        s.take(n)
    } else {
        s
    }
}

/// The first `n` characters of a string.
pub fn prefix_of(s: &str, n: usize) -> (r: String)
    ensures
        r@ == prefix(s@, n as int),
{
    let len = s.unicode_len();
    if n < len {
        s.substring_char(0, n).to_owned()
    } else {
        s.to_owned()
    }
}

/// The decimal digits of a number.
pub open spec fn digits(n: nat) -> Seq<char>
    decreases n,
{
    if n < 10 {
        seq![(48 + n) as char]
    } else {
        digits(n / 10).push((48 + n % 10) as char)
    }
}

/// The decimal notation of an integer.
pub open spec fn decimal(x: int) -> Seq<char> {
    if x < 0 {
        "-"@ + digits((-x) as nat)
    } else {
        digits(x as nat)
    }
}

fn digit(d: u64) -> (r: &'static str)
    requires
        d < 10,
    ensures
        r@ == seq![(48 + d) as char],
{
    proof {
        reveal_strlit("0");
        reveal_strlit("1");
        reveal_strlit("2");
        reveal_strlit("3");
        reveal_strlit("4");
        reveal_strlit("5");
        reveal_strlit("6");
        reveal_strlit("7");
        reveal_strlit("8");
        reveal_strlit("9");
    }
    if d == 0 {
        "0"
    } else if d == 1 {
        "1"
    } else if d == 2 {
        "2"
    } else if d == 3 {
        "3"
    } else if d == 4 {
        "4"
    } else if d == 5 {
        "5"
    } else if d == 6 {
        "6"
    } else if d == 7 {
        "7"
    } else if d == 8 {
        "8"
    } else {
        "9"
    }
}

/// The decimal digits of a number.
pub fn digits_of(n: u64) -> (r: String)
    ensures
        r@ == digits(n as nat),
    decreases n,
{
    if n < 10 {
        digit(n).to_owned()
    } else {
        let r = digits_of(n / 10).concat(digit(n % 10));
        assert(r@ =~= digits((n / 10) as nat).push((48 + n % 10) as char));
        r
    }
}

/// The decimal notation of an integer.
pub fn decimal_of(x: i64) -> (r: String)
    ensures
        r@ == decimal(x as int),
{
    if x < 0 {
        let magnitude: u64 = (-(x as i128)) as u64;
        "-".to_owned().concat(digits_of(magnitude).as_str())
    } else {
        digits_of(x as u64)
    }
}

/// A decimal digit.
pub open spec fn is_digit(c: char) -> bool {
    48 <= c as u32 <= 57
}

/// A text of decimal digits only.
pub open spec fn all_digits(s: Seq<char>) -> bool {
    forall|i: int| 0 <= i < s.len() ==> is_digit(#[trigger] s[i])
}

/// The number that a text of decimal digits stands for.
pub open spec fn number_of(s: Seq<char>) -> nat
    decreases s.len(),
{
    if s.len() == 0 {
        0
    } else {
        number_of(s.drop_last()) * 10 + (s.last() as u32 - 48) as nat
    }
}

/// Where the digits of an integer begin: after its sign, if it has one.
pub open spec fn sign_len(s: Seq<char>) -> int {
    if s.len() > 0 && (s[0] == '+' || s[0] == '-') {
        1
    } else {
        0
    }
}

/// The integer of 64 bits that a text stands for: a sign or none, and at least
/// one digit.
pub open spec fn integer_of(s: Seq<char>) -> Option<int> {
    let rest = s.skip(sign_len(s));
    let value = if s.len() > 0 && s[0] == '-' {
        -(number_of(rest) as int)
    } else {
        number_of(rest) as int
    };
    if rest.len() > 0 && all_digits(rest) && i64::MIN <= value <= i64::MAX {
        Some(value)
    } else {
        None
    }
}

proof fn lemma_number_grows(s: Seq<char>, n: int)
    requires
        0 <= n <= s.len(),
        all_digits(s),
    ensures
        number_of(s.take(n)) <= number_of(s),
    decreases s.len(),
{
    if n < s.len() {
        assert(s.drop_last().take(n) =~= s.take(n));
        assert forall|i: int| 0 <= i < s.drop_last().len() implies is_digit(
            #[trigger] s.drop_last()[i],
        ) by {
            assert(is_digit(s[i]));
        }
        assert(is_digit(s[s.len() - 1]));
        lemma_number_grows(s.drop_last(), n);
    } else {
        assert(s.take(n) =~= s);
    }
}

/// The integer of 64 bits that a text stands for, if it stands for one.
pub fn parse_integer(s: &str) -> (r: Option<i64>)
    ensures
        match r {
            Some(x) => integer_of(s@) == Some(x as int),
            None => integer_of(s@) is None,
        },
{
    let n: usize = s.unicode_len();
    if n == 0 {
        return None;
    }
    let first = s.get_char(0);
    let start: usize = if first == '+' || first == '-' {
        1
    } else {
        0
    };
    let ghost rest = s@.skip(start as int);
    if start == n {
        return None;
    }
    let mut i: usize = start;
    let mut value: i128 = 0;
    while i < n
        invariant
            start <= i <= n,
            start <= 1,
            n == s@.len(),
            rest == s@.skip(start as int),
            start == sign_len(s@),
            all_digits(rest.take(i - start)),
            value == number_of(rest.take(i - start)),
            value <= 9_223_372_036_854_775_808,
        decreases n - i,
    {
        let c = s.get_char(i);
        let code: u32 = c as u32;
        assert(rest[i - start] == c);
        if code < 48 || code > 57 {
            assert(!is_digit(rest[i - start]));
            assert(!all_digits(rest));
            return None;
        }
        let ghost longer = rest.take(i + 1 - start);
        proof {
            assert(longer.drop_last() =~= rest.take(i - start));
            assert(longer.last() == c);
            assert forall|j: int| 0 <= j < longer.len() implies is_digit(#[trigger] longer[j]) by {
                if j < i - start {
                    assert(rest.take(i - start)[j] == longer[j]);
                }
            }
        }
        value = value * 10 + (code - 48) as i128;
        if value > 9_223_372_036_854_775_808 {
            proof {
                if all_digits(rest) {
                    lemma_number_grows(rest, i + 1 - start);
                }
            }
            return None;
        }
        i = i + 1;
    }
    assert(rest.take(n - start) =~= rest);
    let signed_value: i128 = if first == '-' {
        -value
    } else {
        value
    };
    if signed_value > i64::MAX as i128 {
        None
    } else {
        Some(signed_value as i64)
    }
}

proof fn lemma_digits(n: nat)
    ensures
        digits(n).len() > 0,
        all_digits(digits(n)),
        number_of(digits(n)) == n,
        digits(n)[0] != '+',
        digits(n)[0] != '-',
    decreases n,
{
    if n >= 10 {
        lemma_digits(n / 10);
        let rest = digits(n / 10);
        let all = digits(n);
        assert(all == rest.push((48 + n % 10) as char));
        assert(all.drop_last() =~= rest);
        assert forall|i: int| 0 <= i < all.len() implies is_digit(#[trigger] all[i]) by {
            if i < rest.len() {
                assert(all[i] == rest[i]);
                assert(is_digit(rest[i]));
            }
        }
        assert(all[0] == rest[0]);
    } else {
        let all = digits(n);
        assert(all.drop_last() =~= Seq::<char>::empty());
        assert(number_of(all.drop_last()) == 0);
        assert(all.last() == (48 + n) as char);
    }
}

/// Reading an integer gives back the one that was written.
pub proof fn integers_are_read_back(x: i64)
    ensures
        integer_of(decimal(x as int)) == Some(x as int),
{
    let s = decimal(x as int);
    if x < 0 {
        reveal_strlit("-");
        lemma_digits((-x) as nat);
        assert(s.skip(1) =~= digits((-x) as nat));
    } else {
        lemma_digits(x as nat);
        assert(s.skip(0) =~= s);
    }
}

/// The last `places` decimal digits of a number.
pub open spec fn padded(n: nat, places: nat) -> Seq<char>
    decreases places,
{
    if places == 0 {
        Seq::empty()
    } else {
        padded(n / 10, (places - 1) as nat).push((48 + n % 10) as char)
    }
}

/// `n` as `places` digits behind a point, without the zeros at the end.
pub open spec fn trimmed(n: nat, places: nat) -> Seq<char>
    decreases places,
{
    if places == 0 || n == 0 {
        Seq::empty()
    } else if n % 10 == 0 {
        trimmed(n / 10, (places - 1) as nat)
    } else {
        padded(n, places)
    }
}

pub open spec fn sign_text(x: int) -> Seq<char> {
    if x < 0 {
        "-"@
    } else {
        Seq::empty()
    }
}

/// The shortest decimal notation of a fixed-point number.
pub open spec fn fixed_text(x: int) -> Seq<char> {
    let size = abs(x) as nat;
    let whole = sign_text(x) + digits(size / 1_000_000_000);
    if size % 1_000_000_000 == 0 {
        whole
    } else {
        whole + "."@ + trimmed(size % 1_000_000_000, 9)
    }
}

/// The nearest whole number of hundredths, the even one of two that are as
/// near.
pub open spec fn hundredths(size: int) -> int {
    let low = size / 10_000_000;
    let rest = size % 10_000_000;
    if rest > 5_000_000 || (rest == 5_000_000 && low % 2 == 1) {
        low + 1
    } else {
        low
    }
}

/// A fixed-point number with two decimals.
pub open spec fn two_decimals(x: int) -> Seq<char> {
    let h = hundredths(abs(x)) as nat;
    sign_text(x) + digits(h / 100) + "."@ + padded(h % 100, 2)
}

fn padded_of(n: u64, places: u64) -> (r: String)
    ensures
        r@ == padded(n as nat, places as nat),
    decreases places,
{
    if places == 0 {
        String::new()
    } else {
        let r = padded_of(n / 10, places - 1).concat(digit(n % 10));
        assert(r@ =~= padded((n / 10) as nat, (places - 1) as nat).push((48 + n % 10) as char));
        r
    }
}

fn trimmed_of(n: u64, places: u64) -> (r: String)
    ensures
        r@ == trimmed(n as nat, places as nat),
    decreases places,
{
    if places == 0 || n == 0 {
        String::new()
    } else if n % 10 == 0 {
        trimmed_of(n / 10, places - 1)
    } else {
        padded_of(n, places)
    }
}

fn sign_of(x: i64) -> (r: String)
    ensures
        r@ == sign_text(x as int),
{
    if x < 0 {
        "-".to_owned()
    } else {
        String::new()
    }
}

fn size_of(x: i64) -> (r: u64)
    ensures
        r == abs(x as int),
{
    if x < 0 {
        (-(x as i128)) as u64
    } else {
        x as u64
    }
}

/// The shortest decimal notation of a fixed-point number.
pub fn fixed_text_of(x: i64) -> (r: String)
    ensures
        r@ == fixed_text(x as int),
{
    let size = size_of(x);
    let whole = sign_of(x).concat(digits_of(size / 1_000_000_000).as_str());
    if size % 1_000_000_000 == 0 {
        whole
    } else {
        whole.concat(".").concat(trimmed_of(size % 1_000_000_000, 9).as_str())
    }
}

/// Rounds to the nearest whole number of hundredths, to the even one of two that
/// are as near.
pub fn hundredths_of(size: u64) -> (r: u64)
    ensures
        r == hundredths(size as int),
{
    let low: u64 = size / 10_000_000;
    let rest: u64 = size % 10_000_000;
    if rest > 5_000_000 || (rest == 5_000_000 && low % 2 == 1) {
        low + 1
    } else {
        low
    }
}

/// A fixed-point number with two decimals.
pub fn two_decimals_of(x: i64) -> (r: String)
    ensures
        r@ == two_decimals(x as int),
{
    let h = hundredths_of(size_of(x));
    sign_of(x).concat(digits_of(h / 100).as_str()).concat(".").concat(
        padded_of(h % 100, 2).as_str(),
    )
}

/// Texts are ordered by the first character in which they differ, and a text comes
/// before those that it begins.
pub proof fn before_is_lexicographic(a: Seq<char>, b: Seq<char>)
    ensures
        before(a, b) <==> exists|k: int|
            0 <= k <= a.len() && k <= b.len() && #[trigger] a.take(k) == b.take(k) && (k == a.len() && k
                < b.len() || k < a.len() && k < b.len() && a[k] < b[k]),
    decreases a.len(),
{
    if a.len() > 0 && b.len() > 0 && a[0] == b[0] {
        let (x, y) = (a.drop_first(), b.drop_first());
        before_is_lexicographic(x, y);
        if before(a, b) {
            let k = choose|k: int|
                0 <= k <= x.len() && k <= y.len() && #[trigger] x.take(k) == y.take(k) && (k == x.len()
                    && k < y.len() || k < x.len() && k < y.len() && x[k] < y[k]);
            assert(a.take(k + 1) =~= b.take(k + 1)) by {
                assert forall|i: int| 0 <= i < k + 1 implies a[i] == b[i] by {
                    if i > 0 {
                        assert(x.take(k)[i - 1] == y.take(k)[i - 1]);
                    }
                }
            }
        }
        if exists|k: int|
            0 <= k <= a.len() && k <= b.len() && #[trigger] a.take(k) == b.take(k) && (k == a.len() && k
                < b.len() || k < a.len() && k < b.len() && a[k] < b[k]) {
            let k = choose|k: int|
                0 <= k <= a.len() && k <= b.len() && #[trigger] a.take(k) == b.take(k) && (k == a.len()
                    && k < b.len() || k < a.len() && k < b.len() && a[k] < b[k]);
            assert(k > 0);
            assert(x.take(k - 1) =~= y.take(k - 1)) by {
                assert forall|i: int| 0 <= i < k - 1 implies x[i] == y[i] by {
                    assert(a.take(k)[i + 1] == b.take(k)[i + 1]);
                }
            }
        }
    } else {
        if before(a, b) {
            assert(a.take(0) =~= b.take(0));
        }
        assert forall|k: int|
            0 < k <= a.len() && k <= b.len() implies #[trigger] a.take(k) != b.take(k) by {
            assert(a.take(k)[0] == a[0]);
            assert(b.take(k)[0] == b[0]);
        }
    }
}

/// A prefix is the beginning of a text.
pub proof fn a_prefix_is_the_beginning(s: Seq<char>, n: int)
    requires
        0 <= n,
    ensures
        s.len() <= n ==> prefix(s, n) == s,
        s.len() > n ==> prefix(s, n).len() == n,
        forall|i: int| 0 <= i < prefix(s, n).len() ==> #[trigger] prefix(s, n)[i] == s[i],
{
}

/// Ten to the power of `n`.
pub open spec fn pow10(n: nat) -> nat
    decreases n,
{
    if n == 0 {
        1
    } else {
        10 * pow10((n - 1) as nat)
    }
}

/// Digits that are padded to some places have that many, and are read back.
pub proof fn padded_digits_are_read_back(n: nat, places: nat)
    requires
        n < pow10(places),
    ensures
        padded(n, places).len() == places,
        all_digits(padded(n, places)),
        number_of(padded(n, places)) == n,
    decreases places,
{
    if places > 0 {
        let rest = padded(n / 10, (places - 1) as nat);
        let all = padded(n, places);
        padded_digits_are_read_back(n / 10, (places - 1) as nat);
        assert(all.drop_last() =~= rest);
        assert forall|i: int| 0 <= i < all.len() implies is_digit(#[trigger] all[i]) by {
            if i < rest.len() {
                assert(all[i] == rest[i]);
                assert(is_digit(rest[i]));
            }
        }
    }
}

/// Decimals without the zeros at their end are read back, with those zeros put
/// back, and end in no zero.
pub proof fn trimmed_digits_are_read_back(n: nat, places: nat)
    requires
        0 < n < pow10(places),
    ensures
        0 < trimmed(n, places).len() <= places,
        all_digits(trimmed(n, places)),
        number_of(trimmed(n, places)) * pow10((places - trimmed(n, places).len()) as nat) == n,
        trimmed(n, places).last() != '0',
    decreases places,
{
    if n % 10 == 0 {
        trimmed_digits_are_read_back(n / 10, (places - 1) as nat);
        let t = trimmed(n / 10, (places - 1) as nat);
        let k = (places - t.len()) as nat;
        let p = pow10((k - 1) as nat);
        assert(trimmed(n, places) == t);
        assert(number_of(t) * p == n / 10) by {
            assert((places - 1) - t.len() == k - 1);
        }
        assert(pow10(k) == 10 * p);
        assert(number_of(t) * (10 * p) == 10 * (number_of(t) * p)) by (nonlinear_arith);
    } else {
        padded_digits_are_read_back(n, places);
        assert(padded(n, places).last() == (48 + n % 10) as char);
        assert(pow10(0) == 1);
        assert(places - padded(n, places).len() == 0);
        assert(number_of(padded(n, places)) * 1 == n);
    }
}

/// A number is rounded to the nearest hundredth, and between two that are as near
/// to the even one.
pub proof fn hundredths_are_the_nearest(size: int)
    ensures
        10_000_000 * hundredths(size) - 5_000_000 <= size <= 10_000_000 * hundredths(size) + 5_000_000,
        size == 10_000_000 * hundredths(size) - 5_000_000 || size == 10_000_000 * hundredths(size)
            + 5_000_000 ==> hundredths(size) % 2 == 0,
{
}

/// A number with two decimals is written as its whole part, a point, and its two
/// decimals, which are its nearest hundredths; below zero, after a sign.
pub proof fn two_decimals_are_read_back(x: int) -> (parts: (Seq<char>, Seq<char>))
    requires
        0 <= x,
    ensures
        ({
            let (whole, cents) = parts;
            &&& two_decimals(x) == whole + "."@ + cents
            &&& all_digits(whole) && all_digits(cents)
            &&& cents.len() == 2
            &&& number_of(whole) * 100 + number_of(cents) == hundredths(x)
        }),
        x > 0 ==> two_decimals(-x) == "-"@ + two_decimals(x),
{
    let h = hundredths(x) as nat;
    lemma_digits(h / 100);
    assert(pow10(2) == 100) by {
        reveal_with_fuel(pow10, 3);
    }
    padded_digits_are_read_back(h % 100, 2);
    let whole = digits(h / 100);
    let cents = padded(h % 100, 2);
    assert(sign_text(x) + whole =~= whole);
    assert("-"@ + (whole + "."@ + cents) =~= "-"@ + whole + "."@ + cents);
    (whole, cents)
}

/// A fixed-point number is written as its whole part, and behind a point the
/// decimals that it needs, without a zero at the end; below zero, after a sign.
pub proof fn fixed_texts_are_read_back(x: int) -> (parts: (Seq<char>, Seq<char>))
    requires
        0 <= x,
    ensures
        ({
            let (whole, decimals) = parts;
            &&& all_digits(whole) && all_digits(decimals)
            &&& decimals.len() <= 9
            &&& number_of(whole) * 1_000_000_000 + number_of(decimals) * pow10(
                (9 - decimals.len()) as nat,
            ) == x
            &&& decimals.len() == 0 ==> fixed_text(x) == whole
            &&& decimals.len() > 0 ==> fixed_text(x) == whole + "."@ + decimals && decimals.last() != '0'
        }),
        x > 0 ==> fixed_text(-x) == "-"@ + fixed_text(x),
{
    let size = x as nat;
    let n = size % 1_000_000_000;
    let whole = digits(size / 1_000_000_000);
    lemma_digits(size / 1_000_000_000);
    assert(pow10(9) == 1_000_000_000) by {
        reveal_with_fuel(pow10, 10);
    }
    assert(sign_text(x) + whole =~= whole);
    if n == 0 {
        let none = Seq::<char>::empty();
        assert(number_of(none) == 0);
        assert(0 * pow10(9) == 0);
        (whole, none)
    } else {
        trimmed_digits_are_read_back(n, 9);
        let decimals = trimmed(n, 9);
        assert("-"@ + (whole + "."@ + decimals) =~= "-"@ + whole + "."@ + decimals);
        (whole, decimals)
    }
}

/// A switch is on exactly for the four letters of `true`, each in either case, or
/// for the digit one.
pub proof fn what_switches_on(t: Seq<char>)
    ensures
        switched_on(t) <==> {
            ||| t.len() == 4 && (t[0] == 't' || t[0] == 'T') && (t[1] == 'r' || t[1] == 'R') && (t[2]
                == 'u' || t[2] == 'U') && (t[3] == 'e' || t[3] == 'E')
            ||| t.len() == 1 && t[0] == '1'
        },
{
    reveal_strlit("true");
    reveal_strlit("1");
    let w = "true"@;
    if t.len() == 4 {
        assert(same_but_case(t, w) <==> ascii_lower(t[0]) == ascii_lower(w[0]) && ascii_lower(t[1])
            == ascii_lower(w[1]) && ascii_lower(t[2]) == ascii_lower(w[2]) && ascii_lower(t[3])
            == ascii_lower(w[3])) by {
            if same_but_case(t, w) {
                assert(ascii_lower(t[0]) == ascii_lower(w[0]));
                assert(ascii_lower(t[1]) == ascii_lower(w[1]));
                assert(ascii_lower(t[2]) == ascii_lower(w[2]));
                assert(ascii_lower(t[3]) == ascii_lower(w[3]));
            }
        }
        lemma_letter(t[0], 't', 'T');
        lemma_letter(t[1], 'r', 'R');
        lemma_letter(t[2], 'u', 'U');
        lemma_letter(t[3], 'e', 'E');
    }
    if t.len() == 1 && t[0] == '1' {
        assert(t =~= "1"@);
    }
}

proof fn lemma_letter(c: char, lower: char, upper: char)
    requires
        97 <= lower as u32 <= 122,
        upper as u32 + 32 == lower as u32,
    ensures
        ascii_lower(c) == ascii_lower(lower) <==> c == lower || c == upper,
{
}

/// What is no integer: nothing but a sign, or anything but digits after it.
pub proof fn what_is_no_integer(s: Seq<char>)
    ensures
        s.len() == 0 ==> integer_of(s) is None,
        s.len() == 1 && (s[0] == '+' || s[0] == '-') ==> integer_of(s) is None,
        forall|i: int|
            0 < i < s.len() && !(48 <= (#[trigger] s[i]) as u32 <= 57) ==> integer_of(s) is None,
        s.len() > 0 && !(48 <= s[0] as u32 <= 57) && s[0] != '+' && s[0] != '-' ==> integer_of(s)
            is None,
{
    let k = sign_len(s);
    let rest = s.skip(k);
    assert forall|i: int| 0 < i < s.len() && !(48 <= (#[trigger] s[i]) as u32 <= 57) implies integer_of(
        s,
    ) is None by {
        assert(rest[i - k] == s[i]);
        assert(!is_digit(rest[i - k]));
    }
    if s.len() > 0 && !(48 <= s[0] as u32 <= 57) && s[0] != '+' && s[0] != '-' {
        assert(rest[0] == s[0]);
        assert(!is_digit(rest[0]));
    }
}

/// An integer is the number of its digits, with their sign.
pub proof fn an_integer_is_its_digits(s: Seq<char>)
    requires
        s.len() > 0,
        all_digits(s),
        number_of(s) <= i64::MAX,
    ensures
        integer_of(s) == Some(number_of(s) as int),
        integer_of(seq!['+'] + s) == Some(number_of(s) as int),
        integer_of(seq!['-'] + s) == Some(-(number_of(s) as int)),
{
    assert(is_digit(s[0]));
    assert(s.skip(0) =~= s);
    assert((seq!['+'] + s).skip(1) =~= s);
    assert((seq!['-'] + s).skip(1) =~= s);
}

/// The number of some digits: each further digit counts once, and what stands before
/// it ten times as much.
pub proof fn digits_count_in_tens(s: Seq<char>, d: int)
    requires
        0 <= d < 10,
    ensures
        number_of(Seq::empty()) == 0,
        number_of(s.push((48 + d) as char)) == 10 * number_of(s) + d,
        digits(d as nat) == seq![(48 + d) as char],
{
    assert(s.push((48 + d) as char).drop_last() =~= s);
}

/// The letters from A to Z are put in lower case, and nothing else is changed.
pub proof fn letters_are_lowered(c: char)
    ensures
        c == 'A' ==> lower_letter(c) == 'a',
        c == 'Z' ==> lower_letter(c) == 'z',
        65 <= c as u32 <= 90 ==> lower_letter(c) as u32 == c as u32 + 32,
        !(65 <= c as u32 <= 90) ==> lower_letter(c) == c,
{
}

} // verus!
