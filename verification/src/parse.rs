//! Reading numbers from text: whole numbers and decimal numbers.
//!
//! A whole number is an optional sign and one or more digits. A decimal number
//! is an optional sign, digits with at most one point among them and at least
//! one digit, and after that, optionally, the letter `e` or `E` and a whole
//! number: the power of ten by which the digits are multiplied. Words, such as
//! those for infinity, are no numbers.
//!
//! A number is read exactly or not at all. A whole number must fit 32 bits
//! with a sign. A decimal number must fit a [`Quantity`]: its digits, read as
//! one whole number, and its exponent decide that (see [`held`]).

use vstd::prelude::*;
use vstd::string::*;
use crate::errors::ParseError;
use crate::quantity::{
    lemma_pow10_19, lemma_pow10_20, lemma_pow10_increases, lemma_pow10_positive, pow10, power_of_ten,
    Quantity, Ratio,
};
use crate::text::{all_digits, append_value, chars_of, digit_run, digit_value, digits_value, is_digit, is_digit_char};

verus! {

/// How many characters the sign at the start of `s` takes: 1 or 0.
pub open spec fn sign_len(s: Seq<char>) -> int {
    if s.len() > 0 && (s[0] == '+' || s[0] == '-') {
        1
    } else {
        0
    }
}

/// Whether `s` starts with a minus sign.
pub open spec fn has_minus(s: Seq<char>) -> bool {
    s.len() > 0 && s[0] == '-'
}

/// Whether `s` is an optional sign and one or more digits.
pub open spec fn is_integer_text(s: Seq<char>) -> bool {
    let digits = s.skip(sign_len(s));
    digits.len() > 0 && all_digits(digits)
}

/// The whole number that `s` writes.
pub open spec fn integer_value(s: Seq<char>) -> int
    recommends
        is_integer_text(s),
{
    let magnitude = digits_value(s.skip(sign_len(s)));
    if has_minus(s) {
        -magnitude
    } else {
        magnitude as int
    }
}

/// What [`parse_integer`] returns for `s`.
pub open spec fn parsed_integer(s: Seq<char>) -> Result<i32, ParseError> {
    if s.len() == 0 {
        Err(ParseError::Empty)
    } else if !is_integer_text(s) {
        Err(ParseError::Invalid)
    } else if i32::MIN <= integer_value(s) <= i32::MAX {
        Ok(integer_value(s) as i32)
    } else {
        Err(ParseError::OutOfRange)
    }
}

/// Where the digits before the point end.
pub open spec fn whole_end(s: Seq<char>) -> int {
    digit_run(s, sign_len(s))
}

/// Whether a point follows the digits before it.
pub open spec fn has_point(s: Seq<char>) -> bool {
    whole_end(s) < s.len() && s[whole_end(s)] == '.'
}

/// Where the digits after the point start.
pub open spec fn fraction_start(s: Seq<char>) -> int {
    if has_point(s) {
        whole_end(s) + 1
    } else {
        whole_end(s)
    }
}

/// Where the digits after the point end.
pub open spec fn fraction_end(s: Seq<char>) -> int {
    digit_run(s, fraction_start(s))
}

/// Whether the letter that starts an exponent follows the digits.
pub open spec fn has_exponent(s: Seq<char>) -> bool {
    fraction_end(s) < s.len() && (s[fraction_end(s)] == 'e' || s[fraction_end(s)] == 'E')
}

/// What follows the letter that starts the exponent.
pub open spec fn exponent_text(s: Seq<char>) -> Seq<char> {
    s.skip(fraction_end(s) + 1)
}

/// Whether `s` is a decimal number: an optional sign, digits with at most one
/// point among them and at least one digit, then nothing more or an exponent.
pub open spec fn is_decimal_text(s: Seq<char>) -> bool {
    &&& (whole_end(s) - sign_len(s)) + (fraction_end(s) - fraction_start(s)) >= 1
    &&& if has_exponent(s) {
        is_integer_text(exponent_text(s))
    } else {
        fraction_end(s) == s.len()
    }
}

/// The digits of `s` before and after the point, read as one whole number.
pub open spec fn significand(s: Seq<char>) -> nat {
    digits_value(
        s.subrange(sign_len(s), whole_end(s)) + s.subrange(fraction_start(s), fraction_end(s)),
    )
}

/// The exponent that `s` writes; 0 where it writes none.
pub open spec fn written_exponent(s: Seq<char>) -> int {
    if has_exponent(s) {
        integer_value(exponent_text(s))
    } else {
        0
    }
}

/// The power of ten by which the significand is multiplied.
pub open spec fn power(s: Seq<char>) -> int {
    written_exponent(s) - (fraction_end(s) - fraction_start(s))
}

/// The value `m * 10^e` with the sign `negative`, where a [`Quantity`] can
/// hold it: either it is a whole number below 2^64, or `m` is below 2^64 and
/// the value has at most 19 decimal places.
pub open spec fn held(negative: bool, m: nat, e: int) -> Option<Ratio> {
    if e >= 0 {
        if m * pow10(e as nat) <= u64::MAX {
            Some(Ratio { negative, numerator: m * pow10(e as nat), denominator: 1 })
        } else {
            None
        }
    } else if m <= u64::MAX && -e <= 19 {
        Some(Ratio { negative, numerator: m, denominator: pow10((-e) as nat) })
    } else {
        None
    }
}

/// The value of the decimal number `s`, where its written exponent fits 32
/// bits with a sign and a [`Quantity`] can hold the value.
pub open spec fn decimal_value(s: Seq<char>) -> Option<Ratio>
    recommends
        is_decimal_text(s),
{
    if i32::MIN <= written_exponent(s) <= i32::MAX {
        held(has_minus(s), significand(s), power(s))
    } else {
        None
    }
}

/// What [`parse_decimal`] returns for `s`, as a value.
pub open spec fn parsed_decimal(s: Seq<char>) -> Result<Ratio, ParseError> {
    if s.len() == 0 {
        Err(ParseError::Empty)
    } else if !is_decimal_text(s) {
        Err(ParseError::Invalid)
    } else {
        match decimal_value(s) {
            Some(v) => Ok(v),
            None => Err(ParseError::OutOfRange),
        }
    }
}

/// The text made of a sign, digits, a point with more digits, and the letter
/// of an exponent with a whole number, each of them optional but for one
/// digit at least.
pub open spec fn decimal_text(
    sign: Seq<char>,
    whole: Seq<char>,
    point: bool,
    fraction: Seq<char>,
    exponent: Option<(char, Seq<char>)>,
) -> Seq<char> {
    sign + whole + (if point {
        seq!['.'] + fraction
    } else {
        Seq::<char>::empty()
    }) + (match exponent {
        Some((letter, x)) => seq![letter] + x,
        None => Seq::<char>::empty(),
    })
}

/// Every text put together by the grammar is a decimal number, and its parts
/// are found again: its sign, its digits as one whole number, and the power
/// of ten, which is the written exponent less the number of digits after the
/// point.
pub proof fn lemma_decimal_text_is_read(
    sign: Seq<char>,
    whole: Seq<char>,
    point: bool,
    fraction: Seq<char>,
    exponent: Option<(char, Seq<char>)>,
)
    requires
        sign == Seq::<char>::empty() || sign == seq!['+'] || sign == seq!['-'],
        all_digits(whole),
        all_digits(fraction),
        !point ==> fraction.len() == 0,
        whole.len() + fraction.len() >= 1,
        exponent matches Some((letter, x)) ==> (letter == 'e' || letter == 'E') && is_integer_text(
            x,
        ),
    ensures
        is_decimal_text(decimal_text(sign, whole, point, fraction, exponent)),
        has_minus(decimal_text(sign, whole, point, fraction, exponent)) == (sign == seq!['-']),
        significand(decimal_text(sign, whole, point, fraction, exponent)) == digits_value(
            whole + fraction,
        ),
        power(decimal_text(sign, whole, point, fraction, exponent)) == (match exponent {
            Some((_, x)) => integer_value(x),
            None => 0,
        }) - fraction.len(),
{
    let s = decimal_text(sign, whole, point, fraction, exponent);
    let tail = match exponent {
        Some((letter, x)) => seq![letter] + x,
        None => Seq::<char>::empty(),
    };
    let middle = if point {
        seq!['.'] + fraction
    } else {
        Seq::<char>::empty()
    };
    let i0 = sign.len() as int;
    let i1 = i0 + whole.len();
    let f0 = if point {
        i1 + 1
    } else {
        i1
    };
    let f1 = f0 + fraction.len();
    assert(s.len() == f1 + tail.len());
    assert forall|k: int| i0 <= k < i1 implies is_digit(#[trigger] s[k]) by {
        assert(s[k] == whole[k - i0]);
    }
    assert forall|k: int| f0 <= k < f1 implies is_digit(#[trigger] s[k]) by {
        assert(s[k] == fraction[k - f0]);
    }
    if sign.len() == 0 {
        assert(s[0] == if whole.len() > 0 {
            whole[0]
        } else {
            '.'
        });
        if whole.len() > 0 {
            assert(is_digit(whole[0]));
        }
    } else {
        assert(s[0] == sign[0]);
    }
    assert(sign_len(s) == i0);
    let letter = match exponent {
        Some((letter, _)) => letter,
        None => 'e',
    };
    let written = match exponent {
        Some((_, x)) => x,
        None => Seq::<char>::empty(),
    };
    if point {
        assert(s[i1] == '.');
    } else if exponent is Some {
        assert(s[i1] == letter);
    }
    lemma_digit_run_is(s, i0, i1);
    assert(has_point(s) == point);
    if exponent is Some {
        assert(s[f1] == letter);
    }
    lemma_digit_run_is(s, f0, f1);
    assert(has_exponent(s) == (exponent is Some));
    if exponent is Some {
        assert(exponent_text(s) =~= written);
    }
    assert(s.subrange(i0, i1) =~= whole);
    assert(s.subrange(f0, f1) =~= fraction);
}

/// The denominator of a decimal number that was read is a power of ten from
/// 1 to 10^19.
pub proof fn lemma_decimal_denominator(s: Seq<char>)
    ensures
        parsed_decimal(s) matches Ok(v) ==> 1 <= v.denominator <= 10_000_000_000_000_000_000,
{
    if parsed_decimal(s) is Ok {
        let e = power(s);
        if e < 0 {
            lemma_pow10_positive((-e) as nat);
            lemma_pow10_increases((-e) as nat, 19);
            lemma_pow10_19();
        }
    }
}

/// The longest run of digits from `from` holds digits only, and ends at the
/// end of `s` or before a character that is no digit.
pub proof fn lemma_digit_run(s: Seq<char>, from: int)
    requires
        0 <= from <= s.len(),
    ensures
        from <= digit_run(s, from) <= s.len(),
        forall|k: int| from <= k < digit_run(s, from) ==> is_digit(#[trigger] s[k]),
        digit_run(s, from) == s.len() || !is_digit(s[digit_run(s, from)]),
    decreases s.len() - from,
{
    if from < s.len() && is_digit(s[from]) {
        lemma_digit_run(s, from + 1);
    }
}

/// A run of digits that ends at the end of `s` or before a character that is
/// no digit is the longest one.
pub proof fn lemma_digit_run_is(s: Seq<char>, from: int, end: int)
    requires
        0 <= from <= end <= s.len(),
        forall|k: int| from <= k < end ==> is_digit(#[trigger] s[k]),
        end == s.len() || !is_digit(s[end]),
    ensures
        digit_run(s, from) == end,
    decreases end - from,
{
    if from < end {
        lemma_digit_run_is(s, from + 1, end);
    }
}

/// Digits read after digits are the digits of the two runs together.
pub proof fn lemma_append_value_concat(acc: nat, x: Seq<char>, y: Seq<char>)
    ensures
        append_value(append_value(acc, x), y) == append_value(acc, x + y),
    decreases y.len(),
{
    if y.len() == 0 {
        assert(x + y =~= x);
    } else {
        lemma_append_value_concat(acc, x, y.drop_last());
        assert((x + y).drop_last() =~= x + y.drop_last());
        assert((x + y).last() == y.last());
    }
}

/// Reading more digits never gives less.
pub proof fn lemma_append_value_grows(acc: nat, s: Seq<char>)
    ensures
        append_value(acc, s) >= acc,
    decreases s.len(),
{
    if s.len() > 0 {
        lemma_append_value_grows(acc, s.drop_last());
    }
}

/// Reads the digits of `v` from `start` on, after digits that gave `acc`:
/// where the run ends, the number read, and whether it is too wide for 64
/// bits (`over` says so of `acc`).
fn scan_digits(v: &Vec<char>, start: usize, acc: u64, over: bool) -> (r: (usize, u64, bool))
    requires
        start <= v.len(),
    ensures
        r.0 == digit_run(v@, start as int),
        start <= r.0 <= v.len(),
        r.2 == (over || append_value(acc as nat, v@.subrange(start as int, r.0 as int))
            > u64::MAX),
        !r.2 ==> r.1 == append_value(acc as nat, v@.subrange(start as int, r.0 as int)),
{
    let n = v.len();
    let mut i: usize = start;
    let mut value: u64 = acc;
    let mut wide: bool = over;
    while i < n && is_digit_char(v[i])
        invariant
            start <= i <= n,
            n == v.len(),
            forall|k: int| start <= k < i ==> is_digit(#[trigger] v@[k]),
            wide == (over || append_value(acc as nat, v@.subrange(start as int, i as int))
                > u64::MAX),
            !wide ==> value == append_value(acc as nat, v@.subrange(start as int, i as int)),
        decreases n - i,
    {
        let d: u64 = (v[i] as u32 - '0' as u32) as u64;
        proof {
            let longer = v@.subrange(start as int, i + 1);
            assert(longer.drop_last() =~= v@.subrange(start as int, i as int));
            assert(longer.last() == v@[i as int]);
            assert(d == digit_value(v@[i as int]));
        }
        if !wide {
            let next: u128 = value as u128 * 10 + d as u128;
            if next > u64::MAX as u128 {
                wide = true;
            } else {
                value = next as u64;
            }
        }
        i += 1;
    }
    proof {
        lemma_digit_run_is(v@, start as int, i as int);
    }
    (i, value, wide)
}

/// Reads the whole number that `v` holds from `start` on.
fn integer_at(v: &Vec<char>, start: usize) -> (r: Result<i32, ParseError>)
    requires
        start <= v.len(),
    ensures
        r == parsed_integer(v@.skip(start as int)),
{
    let n = v.len();
    let ghost t = v@.skip(start as int);
    if start == n {
        return Err(ParseError::Empty);
    }
    assert(t[0] == v@[start as int]);
    let negative = v[start] == '-';
    let first: usize = if v[start] == '-' || v[start] == '+' {
        start + 1
    } else {
        start
    };
    let (end, magnitude, over) = scan_digits(v, first, 0, false);
    proof {
        let digits = t.skip(sign_len(t));
        assert(digits =~= v@.subrange(first as int, n as int));
        lemma_digit_run(v@, first as int);
        if end == n {
            assert forall|k: int| 0 <= k < digits.len() implies is_digit(#[trigger] digits[k]) by {
                assert(digits[k] == v@[first + k]);
            }
        } else {
            assert(digits[end - first] == v@[end as int]);
        }
    }
    if first == n || end != n {
        return Err(ParseError::Invalid);
    }
    if over {
        return Err(ParseError::OutOfRange);
    }
    if negative {
        if magnitude > 2_147_483_648 {
            Err(ParseError::OutOfRange)
        } else if magnitude == 2_147_483_648 {
            Ok(i32::MIN)
        } else {
            Ok(-(magnitude as i32))
        }
    } else if magnitude > 2_147_483_647 {
        Err(ParseError::OutOfRange)
    } else {
        Ok(magnitude as i32)
    }
}

/// Reads a whole number of 32 bits with a sign: an optional `+` or `-`, then
/// one or more digits.
pub fn parse_integer(s: &str) -> (r: Result<i32, ParseError>)
    ensures
        r == parsed_integer(s@),
{
    let v = chars_of(s);
    assert(v@.skip(0) =~= s@);
    integer_at(&v, 0)
}

/// Reads a decimal number exactly: an optional sign, digits with at most one
/// point among them, and optionally an exponent.
pub fn parse_decimal(s: &str) -> (r: Result<Quantity, ParseError>)
    ensures
        match r {
            Ok(q) => parsed_decimal(s@) == Ok::<Ratio, ParseError>(q@),
            Err(e) => parsed_decimal(s@) == Err::<Ratio, ParseError>(e),
        },
{
    let v = chars_of(s);
    let n = v.len();
    if n == 0 {
        return Err(ParseError::Empty);
    }
    let negative = v[0] == '-';
    let first: usize = if v[0] == '-' || v[0] == '+' {
        1
    } else {
        0
    };
    let (point, whole, whole_over) = scan_digits(&v, first, 0, false);
    let after: usize = if point < n && v[point] == '.' {
        point + 1
    } else {
        point
    };
    let (end, digits, over) = scan_digits(&v, after, whole, whole_over);
    proof {
        let a = v@.subrange(first as int, point as int);
        let b = v@.subrange(after as int, end as int);
        lemma_append_value_concat(0, a, b);
        lemma_append_value_grows(append_value(0, a), b);
    }
    assert(over == (significand(v@) > u64::MAX));
    assert(!over ==> digits == significand(v@));
    if (point - first) + (end - after) == 0 {
        return Err(ParseError::Invalid);
    }
    let exponent: i32 = if end < n && (v[end] == 'e' || v[end] == 'E') {
        match integer_at(&v, end + 1) {
            Ok(x) => x,
            Err(ParseError::OutOfRange) => {
                return Err(ParseError::OutOfRange);
            },
            Err(_) => {
                return Err(ParseError::Invalid);
            },
        }
    } else if end != n {
        return Err(ParseError::Invalid);
    } else {
        0
    };
    assert(is_decimal_text(v@));
    assert(exponent == written_exponent(v@));
    let places: usize = end - after;
    match hold(negative, digits, over, exponent as i128 - places as i128, Ghost(significand(v@))) {
        Some(q) => Ok(q),
        None => Err(ParseError::OutOfRange),
    }
}

/// The quantity `m * 10^e` with the sign `negative`, where it can be held.
/// The number `m` comes as `digits`, or as `over` where it is too wide for 64
/// bits.
fn hold(negative: bool, digits: u64, over: bool, e: i128, Ghost(m): Ghost<nat>) -> (r: Option<Quantity>)
    requires
        over == (m > u64::MAX),
        !over ==> digits == m,
    ensures
        match r {
            Some(q) => held(negative, m, e as int) == Some(q@),
            None => held(negative, m, e as int) is None,
        },
{
    if e >= 0 {
        proof {
            lemma_pow10_positive(e as nat);
            assert(m * pow10(e as nat) >= m) by (nonlinear_arith)
                requires
                    pow10(e as nat) >= 1,
            ;
        }
        if over {
            None
        } else if digits == 0 {
            assert(m * pow10(e as nat) == 0) by (nonlinear_arith)
                requires
                    m == 0,
            ;
            Some(Quantity::from_fraction(negative, 0, 1))
        } else if e > 19 {
            proof {
                lemma_pow10_increases(20, e as nat);
                lemma_pow10_20();
                assert(m * pow10(e as nat) >= pow10(e as nat)) by (nonlinear_arith)
                    requires
                        m >= 1,
                ;
            }
            None
        } else {
            let scale = power_of_ten(e as u8);
            proof {
                lemma_pow10_increases(e as nat, 19);
                lemma_pow10_19();
                assert(digits * scale <= u64::MAX * 10_000_000_000_000_000_000) by (nonlinear_arith)
                    requires
                        digits <= u64::MAX,
                        scale <= 10_000_000_000_000_000_000,
                ;
            }
            let product: u128 = digits as u128 * scale;
            if product > u64::MAX as u128 {
                None
            } else {
                Some(Quantity::from_fraction(negative, product as u64, 1))
            }
        }
    } else if over || e < -19 {
        None
    } else {
        let scale = power_of_ten((-e) as u8);
        Some(Quantity::from_fraction(negative, digits, scale))
    }
}

} // verus!
