//! Issue identifiers of the form `TEAM-123`, and the signed decimal integers
//! they end in.

use vstd::prelude::*;
use crate::text::{decimal, decimal_digits, before_first, chars_of, index_of_char, is_first_index, lemma_before_first, split_on};

verus! {

broadcast use vstd::string::group_string_axioms;

pub open spec fn is_digit(c: char) -> bool {
    '0' <= c && c <= '9'
}

pub open spec fn all_digits(s: Seq<char>) -> bool {
    forall|i: int| 0 <= i < s.len() ==> is_digit(#[trigger] s[i])
}

/// The value of a string of decimal digits.
pub open spec fn digits_value(s: Seq<char>) -> int
    decreases s.len(),
{
    if s.len() == 0 {
        0
    } else {
        10 * digits_value(s.drop_last()) + (s.last() as int - '0' as int)
    }
}

/// The sign and the digits of an integer literal: an optional leading `+` or `-`.
pub open spec fn sign_and_digits(s: Seq<char>) -> (bool, Seq<char>) {
    if s.len() > 0 && s[0] == '-' {
        (true, s.drop_first())
    } else if s.len() > 0 && s[0] == '+' {
        (false, s.drop_first())
    } else {
        (false, s)
    }
}

/// What `i64::from_str` accepts: an optional sign, then at least one ASCII digit
/// and nothing else, with a value within the range of `i64`.
pub open spec fn parse_i64_spec(s: Seq<char>) -> Option<i64> {
    let (negative, digits) = sign_and_digits(s);
    if digits.len() == 0 || !all_digits(digits) {
        None
    } else {
        let v = if negative {
            -digits_value(digits)
        } else {
            digits_value(digits)
        };
        if i64::MIN <= v <= i64::MAX {
            Some(v as i64)
        } else {
            None
        }
    }
}

/// An identifier splits at `-` into exactly a team key and a number.
pub open spec fn parse_identifier_spec(s: Seq<char>) -> Option<(Seq<char>, i64)> {
    let parts = split_on(s, '-');
    if parts.len() != 2 {
        None
    } else {
        match parse_i64_spec(parts[1]) {
            Some(n) => Some((parts[0], n)),
            None => None,
        }
    }
}

proof fn lemma_digits_value_nonneg(s: Seq<char>)
    requires
        all_digits(s),
    ensures
        digits_value(s) >= 0,
    decreases s.len(),
{
    if s.len() > 0 {
        assert(all_digits(s.drop_last())) by {
            assert forall|i: int| 0 <= i < s.drop_last().len() implies is_digit(
                #[trigger] s.drop_last()[i],
            ) by {
                assert(s.drop_last()[i] == s[i]);
            }
        }
        lemma_digits_value_nonneg(s.drop_last());
        assert(is_digit(s[s.len() - 1]));
    }
}

/// A prefix of a digit string is worth no more than the whole string.
proof fn lemma_digits_value_prefix(s: Seq<char>, i: int)
    requires
        all_digits(s),
        0 <= i <= s.len(),
    ensures
        digits_value(s.take(i)) <= digits_value(s),
    decreases s.len(),
{
    if i < s.len() {
        let t = s.drop_last();
        assert(all_digits(t)) by {
            assert forall|k: int| 0 <= k < t.len() implies is_digit(#[trigger] t[k]) by {
                assert(t[k] == s[k]);
            }
        }
        lemma_digits_value_prefix(t, i);
        assert(t.take(i) =~= s.take(i));
        lemma_digits_value_nonneg(t);
        assert(is_digit(s[s.len() - 1]));
    } else {
        assert(s.take(i) =~= s);
    }
}

/// Parses the characters of `s` from position `from` on as `i64::from_str` does.
pub fn parse_i64_chars(s: &Vec<char>, from: usize) -> (res: Option<i64>)
    requires
        from <= s.len(),
    ensures
        res == parse_i64_spec(s@.skip(from as int)),
{
    let ghost t = s@.skip(from as int);
    let mut start = from;
    let mut negative = false;
    if from < s.len() && s[from] == '-' {
        negative = true;
        start = from + 1;
    } else if from < s.len() && s[from] == '+' {
        start = from + 1;
    }
    let ghost digits = s@.skip(start as int);
    assert(sign_and_digits(t) == (negative, digits)) by {
        if from < s.len() {
            assert(t[0] == s@[from as int]);
        }
        if start > from {
            assert(t.drop_first() =~= digits);
        } else {
            assert(t =~= digits);
        }
    }
    if start == s.len() {
        return None;
    }
    let mut mag: u64 = 0;
    let mut i: usize = start;
    while i < s.len()
        invariant
            start <= i <= s.len(),
            start < s.len(),
            digits == s@.skip(start as int),
            t == s@.skip(from as int),
            sign_and_digits(t) == (negative, digits),
            all_digits(digits.take(i - start)),
            mag as int == digits_value(digits.take(i - start)),
        decreases s.len() - i,
    {
        let c = s[i];
        let ghost k = i - start;
        assert(digits[k] == c);
        if !('0' <= c && c <= '9') {
            assert(!is_digit(digits[k]));
            return None;
        }
        let d = (c as u32 - '0' as u32) as u64;
        assert(digits.take(k + 1).drop_last() =~= digits.take(k));
        assert(all_digits(digits.take(k + 1))) by {
            assert forall|j: int| 0 <= j < k + 1 implies is_digit(#[trigger] digits.take(k + 1)[j]) by {
                if j < k {
                    assert(digits.take(k + 1)[j] == digits.take(k)[j]);
                }
            }
        }
        let next = match mag.checked_mul(10) {
            Some(m) => m.checked_add(d),
            None => None,
        };
        match next {
            Some(n) => {
                mag = n;
            },
            None => {
                proof {
                    assert(digits_value(digits.take(k + 1)) > u64::MAX);
                    if all_digits(digits) {
                        lemma_digits_value_prefix(digits, k + 1);
                    }
                }
                return None;
            },
        }
        i = i + 1;
    }
    assert(digits.take(i - start) =~= digits);
    if negative {
        if mag <= 9223372036854775807 {
            Some(-(mag as i64))
        } else if mag == 9223372036854775808 {
            Some(i64::MIN)
        } else {
            None
        }
    } else {
        if mag <= 9223372036854775807 {
            Some(mag as i64)
        } else {
            None
        }
    }
}

proof fn lemma_split_on_nonempty(s: Seq<char>, c: char)
    ensures
        split_on(s, c).len() >= 1,
        split_on(s, c)[0] == before_first(s, c),
        before_first(s, c).len() < s.len() ==> split_on(s, c).len() >= 2,
{
    lemma_before_first_len(s, c);
    if before_first(s, c).len() < s.len() {
        let rest = s.skip(before_first(s, c).len() + 1 as int);
        assert(split_on(s, c) == seq![before_first(s, c)] + split_on(rest, c));
    } else {
        assert(before_first(s, c) =~= s);
    }
}

pub proof fn lemma_before_first_len(s: Seq<char>, c: char)
    ensures
        before_first(s, c).len() <= s.len(),
        before_first(s, c).len() == s.len() ==> before_first(s, c) == s,
    decreases s.len(),
{
    if s.len() > 0 && s[0] != c {
        lemma_before_first_len(s.drop_first(), c);
        if before_first(s, c).len() == s.len() {
            assert(before_first(s, c) =~= s);
        }
    }
}

/// Parses an issue identifier such as `ENG-123` into its team key and number.
/// The identifier must split at `-` into exactly two parts, the second of which
/// is a signed decimal `i64`.
pub fn parse_identifier(identifier: &str) -> (res: Option<(String, i64)>)
    ensures
        res is Some <==> parse_identifier_spec(identifier@) is Some,
        res matches Some((key, number)) ==> parse_identifier_spec(identifier@) == Some((key@, number)),
{
    let v = chars_of(identifier);
    let dash = index_of_char(&v, '-');
    proof {
        lemma_before_first(v@, '-', dash as int);
        lemma_split_on_nonempty(v@, '-');
    }
    if dash == v.len() {
        assert(v@.take(dash as int) =~= v@);
        assert(split_on(v@, '-') == seq![v@]);
        return None;
    }
    let ghost rest = v@.skip(dash + 1);
    assert(split_on(v@, '-') == seq![v@.take(dash as int)] + split_on(rest, '-'));
    let mut tail: Vec<char> = Vec::new();
    let mut i = dash + 1;
    while i < v.len()
        invariant
            dash < i <= v.len(),
            tail@ == v@.subrange(dash + 1, i as int),
        decreases v.len() - i,
    {
        tail.push(v[i]);
        i = i + 1;
    }
    assert(tail@ =~= rest);
    let second = index_of_char(&tail, '-');
    proof {
        lemma_before_first(tail@, '-', second as int);
        lemma_split_on_nonempty(rest, '-');
    }
    if second < tail.len() {
        return None;
    }
    assert(tail@.take(second as int) =~= tail@);
    assert(split_on(rest, '-') == seq![rest]);
    assert(split_on(v@, '-') =~= seq![v@.take(dash as int), rest]);
    assert(tail@.skip(0) =~= tail@);
    match parse_i64_chars(&tail, 0) {
        Some(n) => {
            let key = identifier.substring_char(0, dash);
            Some((key.to_string(), n))
        },
        None => None,
    }
}

proof fn lemma_digit_values()
    ensures
        forall|k: int|
            0 <= k < 10 ==> (#[trigger] decimal_digits()[k]) as int - '0' as int == k && is_digit(
                decimal_digits()[k],
            ),
{
    let t = decimal_digits();
    assert(t[0] == '0' && t[1] == '1' && t[2] == '2' && t[3] == '3' && t[4] == '4');
    assert(t[5] == '5' && t[6] == '6' && t[7] == '7' && t[8] == '8' && t[9] == '9');
}

proof fn lemma_decimal_digits(n: nat)
    ensures
        decimal(n).len() > 0,
        all_digits(decimal(n)),
        digits_value(decimal(n)) == n,
    decreases n,
{
    let d = decimal(n);
    lemma_digit_values();
    if n >= 10 {
        assert(n == 10 * (n / 10) + n % 10);
        lemma_decimal_digits(n / 10);
        let high = decimal(n / 10);
        assert(d == high.push(decimal_digits()[(n % 10) as int]));
        assert(d.drop_last() =~= high);
        let last = decimal_digits()[(n % 10) as int];
        assert(d.last() == last);
        assert(last as int - '0' as int == n % 10);
        assert(digits_value(d) == 10 * digits_value(high) + (last as int - '0' as int));
        assert forall|i: int| 0 <= i < d.len() implies is_digit(#[trigger] d[i]) by {
            if i < high.len() {
                assert(d[i] == high[i]);
            }
        }
    } else {
        assert(d.drop_last() =~= Seq::<char>::empty());
        assert(d[0] == decimal_digits()[n as int]);
        assert(d.last() as int - '0' as int == n);
        assert(digits_value(d) == 10 * digits_value(d.drop_last()) + (d.last() as int - '0' as int));
    }
}

proof fn lemma_no_dash_before_first(s: Seq<char>)
    requires
        !s.contains('-'),
    ensures
        before_first(s, '-') == s,
{
    lemma_before_first(s, '-', s.len() as int);
    assert(s.take(s.len() as int) =~= s);
}

/// An identifier made of a team key without `-`, a `-` and the decimal
/// rendering of a number in range parses back into that key and number.
pub proof fn law_identifier_round_trip(key: Seq<char>, number: nat)
    requires
        !key.contains('-'),
        number <= i64::MAX,
    ensures
        parse_identifier_spec(key + seq!['-'] + decimal(number)) == Some((key, number as i64)),
{
    let d = decimal(number);
    lemma_decimal_digits(number);
    let s = key + seq!['-'] + d;
    assert(!d.contains('-')) by {
        if d.contains('-') {
            let k = choose|k: int| 0 <= k < d.len() && d[k] == '-';
            assert(is_digit(d[k]));
        }
    }
    assert(is_first_index(s, '-', key.len() as int)) by {
        assert forall|j: int| 0 <= j < key.len() implies s[j] != '-' by {
            assert(s[j] == key[j]);
        }
    }
    lemma_before_first(s, '-', key.len() as int);
    assert(s.take(key.len() as int) =~= key);
    assert(s.skip(key.len() + 1 as int) =~= d);
    lemma_no_dash_before_first(d);
    assert(split_on(d, '-') == seq![d]);
    assert(split_on(s, '-') =~= seq![key, d]);
    assert(is_digit(d[0]));
    assert(sign_and_digits(d) == (false, d));
}

/// Signed decimals parse to their value, and only within the range of `i64`:
/// a bare or `+`-signed rendering of `n` gives `n` up to `i64::MAX`, a
/// `-`-signed one gives `-n` down to `i64::MIN`, and beyond those the parse
/// fails; an empty text or a lone sign never parses.
pub proof fn law_parse_i64(n: nat)
    ensures
        n <= i64::MAX ==> parse_i64_spec(decimal(n)) == Some(n as i64),
        n <= i64::MAX ==> parse_i64_spec(seq!['+'] + decimal(n)) == Some(n as i64),
        n <= 0x8000_0000_0000_0000 ==> parse_i64_spec(seq!['-'] + decimal(n)) == Some(
            (-n) as i64,
        ),
        n > i64::MAX ==> parse_i64_spec(decimal(n)) is None,
        n > 0x8000_0000_0000_0000 ==> parse_i64_spec(seq!['-'] + decimal(n)) is None,
        parse_i64_spec(Seq::empty()) is None,
        parse_i64_spec(seq!['-']) is None,
        parse_i64_spec(seq!['+']) is None,
{
    let d = decimal(n);
    lemma_decimal_digits(n);
    assert(is_digit(d[0]));
    assert((seq!['+'] + d).drop_first() =~= d);
    assert((seq!['-'] + d).drop_first() =~= d);
    assert(sign_and_digits(d) == (false, d));
    assert(seq!['-'].drop_first().len() == 0);
    assert(seq!['+'].drop_first().len() == 0);
}

} // verus!
