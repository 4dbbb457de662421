//! Characters, digit strings and decimal literals: the lexical ground under
//! the chart format.

use vstd::prelude::*;
use crate::fixed::{saturate, saturate_wide, Fixed, SCALE};

verus! {

/// Whether `c` separates atoms: the characters Unicode lists as white space.
pub open spec fn is_whitespace(c: char) -> bool {
    ||| '\u{0009}' <= c <= '\u{000D}'
    ||| c == '\u{0020}'
    ||| c == '\u{0085}'
    ||| c == '\u{00A0}'
    ||| c == '\u{1680}'
    ||| '\u{2000}' <= c <= '\u{200A}'
    ||| c == '\u{2028}'
    ||| c == '\u{2029}'
    ||| c == '\u{202F}'
    ||| c == '\u{205F}'
    ||| c == '\u{3000}'
}

/// Whether `c` is one of the ten decimal digits.
pub open spec fn is_digit(c: char) -> bool {
    '0' <= c <= '9'
}

/// The number a decimal digit stands for.
pub open spec fn digit_value(c: char) -> int {
    c as int - '0' as int
}

/// Whether `s` holds decimal digits only.
pub open spec fn all_digits(s: Seq<char>) -> bool {
    forall|i: int| 0 <= i < s.len() ==> is_digit(#[trigger] s[i])
}

/// The number a string of decimal digits stands for; zero for the empty
/// string.
pub open spec fn digits_value(s: Seq<char>) -> int
    decreases s.len(),
{
    if s.len() == 0 {
        0
    } else {
        digits_value(s.drop_last()) * 10 + digit_value(s.last())
    }
}

/// The value of the digits after a decimal point, where the first digit
/// counts `unit` and each later one a tenth of the one before; digits that
/// would count less than one are dropped.
pub open spec fn fraction_value(s: Seq<char>, unit: int) -> int
    decreases s.len(),
{
    if s.len() == 0 || unit <= 0 {
        0
    } else {
        digit_value(s[0]) * unit + fraction_value(s.drop_first(), unit / 10)
    }
}

/// An unsigned integer in decimal: an optional `+`, then one or more digits,
/// of a value that fits in 32 bits.
pub open spec fn spec_unsigned(s: Seq<char>) -> Option<u32> {
    let digits = if s.len() > 0 && s[0] == '+' {
        s.skip(1)
    } else {
        s
    };
    if digits.len() > 0 && all_digits(digits) && digits_value(digits) <= u32::MAX {
        Some(digits_value(digits) as u32)
    } else {
        None
    }
}

/// A decimal literal: an optional sign, then digits with at most one
/// decimal point among them, and at least one digit. Its value is cut off
/// below a millionth and saturated.
pub open spec fn spec_number(s: Seq<char>) -> Option<Fixed> {
    let signed = s.len() > 0 && (s[0] == '+' || s[0] == '-');
    let negative = s.len() > 0 && s[0] == '-';
    let body = if signed {
        s.skip(1)
    } else {
        s
    };
    let (whole, fraction) = match body.index_of_first('.') {
        Some(dot) => (body.take(dot), body.skip(dot + 1)),
        None => (body, Seq::empty()),
    };
    if whole.len() + fraction.len() > 0 && all_digits(whole) && all_digits(fraction) {
        let magnitude = digits_value(whole) * SCALE + fraction_value(fraction, SCALE / 10);
        Some(
            Fixed {
                raw: saturate(
                    if negative {
                        -magnitude
                    } else {
                        magnitude
                    },
                ),
            },
        )
    } else {
        None
    }
}

/// A string of digits is worth at least as much as any of its prefixes.
proof fn lemma_digits_value_grows(s: Seq<char>, k: int)
    requires
        all_digits(s),
        0 <= k <= s.len(),
    ensures
        0 <= digits_value(s.take(k)) <= digits_value(s),
    decreases s.len(),
{
    if k == s.len() {
        assert(s.take(k) =~= s);
        if s.len() > 0 {
            lemma_digits_value_grows(s.drop_last(), k - 1);
            assert(s.drop_last().take(k - 1) =~= s.drop_last());
            assert(is_digit(s.last()));
        }
    } else {
        lemma_digits_value_grows(s.drop_last(), k);
        assert(s.drop_last().take(k) =~= s.take(k));
        assert(is_digit(s.last()));
    }
}

/// The digits after a decimal point are worth less than ten units.
proof fn lemma_fraction_value_bound(s: Seq<char>, unit: int)
    requires
        all_digits(s),
        unit == 100_000 || unit == 10_000 || unit == 1_000 || unit == 100 || unit == 10 || unit
            == 1 || unit == 0,
    ensures
        0 <= fraction_value(s, unit) < 10 * unit || (unit == 0 && fraction_value(s, unit) == 0),
    decreases s.len(),
{
    if s.len() > 0 && unit > 0 {
        assert(is_digit(s[0]));
        assert forall|i: int| 0 <= i < s.drop_first().len() implies is_digit(
            #[trigger] s.drop_first()[i],
        ) by {
            assert(s.drop_first()[i] == s[i + 1]);
        }
        lemma_fraction_value_bound(s.drop_first(), unit / 10);
        assert(0 <= digit_value(s[0]) * unit <= 9 * unit) by (nonlinear_arith)
            requires
                0 <= digit_value(s[0]) <= 9,
                unit > 0,
        ;
    }
}

/// The characters of `s`, in order.
pub(crate) fn chars_of(s: &str) -> (chars: Vec<char>)
    ensures
        chars@ == s@,
{
    let mut chars: Vec<char> = Vec::new();
    for c in it: s.chars()
        invariant
            chars@ == it.seq().take(it.index() as int),
            it.seq() == s@,
    {
        chars.push(c);
        assert(it.seq().take(it.index() + 1) =~= it.seq().take(it.index() as int).push(c));
    }
    assert(s@.take(s@.len() as int) =~= s@);
    chars
}

pub(crate) fn is_space(c: char) -> (b: bool)
    ensures
        b == is_whitespace(c),
{
    ('\u{0009}' <= c && c <= '\u{000D}') || c == '\u{0020}' || c == '\u{0085}' || c == '\u{00A0}'
        || c == '\u{1680}' || ('\u{2000}' <= c && c <= '\u{200A}') || c == '\u{2028}' || c
        == '\u{2029}' || c == '\u{202F}' || c == '\u{205F}' || c == '\u{3000}'
}

/// The place of the first `needle` in `chars[start..end]`, counted from the
/// start of `chars`.
pub(crate) fn find_char(chars: &Vec<char>, start: usize, end: usize, needle: char) -> (found:
    Option<usize>)
    requires
        start <= end <= chars.len(),
    ensures
        match found {
            Some(at) => start <= at < end && chars@.subrange(
                start as int,
                end as int,
            ).index_of_first(needle) == Some(at - start),
            None => chars@.subrange(start as int, end as int).index_of_first(needle) is None,
        },
{
    let ghost part = chars@.subrange(start as int, end as int);
    proof {
        part.index_of_first_ensures(needle);
    }
    let mut i: usize = start;
    while i < end
        invariant
            start <= i <= end <= chars.len(),
            part == chars@.subrange(start as int, end as int),
            forall|j: int| 0 <= j < i - start ==> part[j] != needle,
        decreases end - i,
    {
        if chars[i] == needle {
            proof {
                assert(part[i - start] == needle);
                assert(part.contains(needle));
                part.index_of_first_ensures(needle);
            }
            return Some(i);
        }
        i = i + 1;
    }
    proof {
        if part.contains(needle) {
            let j = choose|j: int| 0 <= j < part.len() && part[j] == needle;
            assert(part[j] != needle);
        }
        part.index_of_first_ensures(needle);
    }
    None
}

/// Reads `chars[start..end]` as an unsigned integer.
#[verifier::loop_isolation(false)]
pub(crate) fn parse_unsigned(chars: &Vec<char>, start: usize, end: usize) -> (value: Option<u32>)
    requires
        start <= end <= chars.len(),
    ensures
        value == spec_unsigned(chars@.subrange(start as int, end as int)),
{
    let ghost part = chars@.subrange(start as int, end as int);
    let first: usize = if start < end && chars[start] == '+' {
        start + 1
    } else {
        start
    };
    let ghost digits = chars@.subrange(first as int, end as int);
    proof {
        assert(part.len() > 0 ==> part[0] == chars@[start as int]);
        if first == start {
            assert(digits =~= part);
        } else {
            assert(digits =~= part.skip(1));
        }
    }
    if first == end {
        return None;
    }
    let mut total: u64 = 0;
    let mut i: usize = first;
    while i < end
        invariant
            first <= i <= end <= chars.len(),
            digits == chars@.subrange(first as int, end as int),
            all_digits(digits.take(i - first)),
            total == digits_value(digits.take(i - first)),
            total <= u32::MAX,
        decreases end - i,
    {
        let c = chars[i];
        if !('0' <= c && c <= '9') {
            proof {
                assert(digits[i - first] == c);
            }
            return None;
        }
        let ghost before = digits.take(i - first);
        let ghost after = digits.take(i - first + 1);
        proof {
            assert(after.drop_last() =~= before);
            assert(after.last() == c);
            assert forall|j: int| 0 <= j < after.len() implies is_digit(#[trigger] after[j]) by {
                if j < before.len() {
                    assert(after[j] == before[j]);
                }
            }
        }
        total = total * 10 + (c as u64 - '0' as u64);
        if total > u32::MAX as u64 {
            proof {
                if all_digits(digits) {
                    lemma_digits_value_grows(digits, i - first + 1);
                }
            }
            return None;
        }
        i = i + 1;
    }
    proof {
        assert(digits.take(end - first) =~= digits);
    }
    Some(total as u32)
}

/// Reads `chars[start..end]` as the digits before a decimal point. Their
/// value is exact below a bound and only known to reach it above.
fn read_whole(chars: &Vec<char>, start: usize, end: usize) -> (value: Option<u128>)
    requires
        start <= end <= chars.len(),
    ensures
        match value {
            Some(total) => {
                let digits = chars@.subrange(start as int, end as int);
                &&& all_digits(digits)
                &&& total < 100_000_000_000_000_000_000 ==> total == digits_value(digits)
                &&& total >= 100_000_000_000_000_000_000 ==> digits_value(digits)
                    >= 100_000_000_000_000_000_000
                &&& total < 1_000_000_000_000_000_000_000
            },
            None => !all_digits(chars@.subrange(start as int, end as int)),
        },
{
    let ghost digits = chars@.subrange(start as int, end as int);
    let mut total: u128 = 0;
    let mut i: usize = start;
    while i < end
        invariant
            start <= i <= end <= chars.len(),
            digits == chars@.subrange(start as int, end as int),
            all_digits(digits.take(i - start)),
            total < 100_000_000_000_000_000_000 ==> total == digits_value(digits.take(i - start)),
            total >= 100_000_000_000_000_000_000 ==> digits_value(digits.take(i - start))
                >= 100_000_000_000_000_000_000,
            total < 1_000_000_000_000_000_000_000,
        decreases end - i,
    {
        let c = chars[i];
        if !('0' <= c && c <= '9') {
            proof {
                assert(digits[i - start] == c);
            }
            return None;
        }
        let ghost before = digits.take(i - start);
        let ghost after = digits.take(i - start + 1);
        proof {
            assert(after.drop_last() =~= before);
            assert(after.last() == c);
            assert forall|j: int| 0 <= j < after.len() implies is_digit(#[trigger] after[j]) by {
                if j < before.len() {
                    assert(after[j] == before[j]);
                }
            }
        }
        if total < 100_000_000_000_000_000_000 {
            total = total * 10 + (c as u128 - '0' as u128);
        }
        i = i + 1;
    }
    proof {
        assert(digits.take(end - start) =~= digits);
    }
    Some(total)
}

/// Reads `chars[start..end]` as the digits after a decimal point, in
/// millionths.
fn read_fraction(chars: &Vec<char>, start: usize, end: usize) -> (value: Option<u64>)
    requires
        start <= end <= chars.len(),
    ensures
        match value {
            Some(millionths) => {
                let digits = chars@.subrange(start as int, end as int);
                &&& all_digits(digits)
                &&& millionths == fraction_value(digits, 100_000)
                &&& millionths < 1_000_000
            },
            None => !all_digits(chars@.subrange(start as int, end as int)),
        },
{
    let ghost digits = chars@.subrange(start as int, end as int);
    let mut millionths: u64 = 0;
    let mut unit: u64 = 100_000;
    let mut i: usize = start;
    proof {
        assert(digits.skip(0) =~= digits);
    }
    while i < end
        invariant
            start <= i <= end <= chars.len(),
            digits == chars@.subrange(start as int, end as int),
            all_digits(digits.take(i - start)),
            unit == 100_000 || unit == 10_000 || unit == 1_000 || unit == 100 || unit == 10
                || unit == 1 || unit == 0,
            millionths + 10 * unit <= 1_000_000,
            unit == 0 ==> millionths < 1_000_000,
            fraction_value(digits, 100_000) == millionths + fraction_value(
                digits.skip(i - start),
                unit as int,
            ),
        decreases end - i,
    {
        let c = chars[i];
        if !('0' <= c && c <= '9') {
            proof {
                assert(digits[i - start] == c);
            }
            return None;
        }
        let ghost before = digits.take(i - start);
        let ghost after = digits.take(i - start + 1);
        let ghost rest = digits.skip(i - start);
        proof {
            assert(after.last() == c);
            assert forall|k: int| 0 <= k < after.len() implies is_digit(#[trigger] after[k]) by {
                if k < before.len() {
                    assert(after[k] == before[k]);
                }
            }
            assert(rest[0] == c);
            assert(rest.drop_first() =~= digits.skip(i - start + 1));
        }
        let digit: u64 = c as u64 - '0' as u64;
        assert(digit * unit <= 9 * unit) by (nonlinear_arith)
            requires
                digit <= 9,
        ;
        millionths = millionths + digit * unit;
        unit = unit / 10;
        i = i + 1;
    }
    proof {
        assert(digits.take(end - start) =~= digits);
        assert(digits.skip(end - start).len() == 0);
        lemma_fraction_value_bound(digits, 100_000);
    }
    Some(millionths)
}

/// Reads `chars[start..end]` as a decimal literal.
pub(crate) fn parse_number(chars: &Vec<char>, start: usize, end: usize) -> (value: Option<Fixed>)
    requires
        start <= end <= chars.len(),
    ensures
        value == spec_number(chars@.subrange(start as int, end as int)),
{
    let ghost part = chars@.subrange(start as int, end as int);
    let negative = start < end && chars[start] == '-';
    let first: usize = if start < end && (chars[start] == '+' || chars[start] == '-') {
        start + 1
    } else {
        start
    };
    let ghost body = chars@.subrange(first as int, end as int);
    proof {
        assert(part.len() > 0 ==> part[0] == chars@[start as int]);
        if first == start {
            assert(body =~= part);
        } else {
            assert(body =~= part.skip(1));
        }
    }
    let dot = find_char(chars, first, end, '.');
    let (whole_end, fraction_start): (usize, usize) = match dot {
        Some(at) => (at, at + 1),
        None => (end, end),
    };
    let ghost whole = chars@.subrange(first as int, whole_end as int);
    let ghost fraction = chars@.subrange(fraction_start as int, end as int);
    proof {
        match dot {
            Some(at) => {
                assert(whole =~= body.take(at - first));
                assert(fraction =~= body.skip(at - first + 1));
            },
            None => {
                assert(whole =~= body);
                assert(fraction =~= Seq::<char>::empty());
            },
        }
    }
    if whole_end - first + (end - fraction_start) == 0 {
        return None;
    }
    let total: u128 = match read_whole(chars, first, whole_end) {
        Some(total) => total,
        None => {
            return None;
        },
    };
    let millionths: u64 = match read_fraction(chars, fraction_start, end) {
        Some(millionths) => millionths,
        None => {
            return None;
        },
    };
    if total >= 100_000_000_000_000_000_000 {
        proof {
            assert(digits_value(whole) * SCALE >= 100_000_000_000_000_000_000 * 1_000_000)
                by (nonlinear_arith)
                requires
                    digits_value(whole) >= 100_000_000_000_000_000_000,
                    SCALE == 1_000_000,
            ;
        }
        if negative {
            Some(Fixed::from_raw(i64::MIN))
        } else {
            Some(Fixed::from_raw(i64::MAX))
        }
    } else {
        let magnitude: i128 = (total * 1_000_000 + millionths as u128) as i128;
        if negative {
            Some(saturate_wide(-magnitude))
        } else {
            Some(saturate_wide(magnitude))
        }
    }
}

} // verus!
