//! Exact quantities: a reading is a fraction with a sign, never an approximation.
//!
//! A sensor file holds a decimal number, and every conversion to natural units
//! divides by a power of ten, so a fraction of two integers holds each value
//! exactly. Rounding happens once, when a value is written with a fixed number
//! of decimal places, and a tie goes to the even neighbour.

use vstd::prelude::*;
use vstd::string::*;
use crate::text::{
    all_plain, decimal_digits, lemma_decimal_digits_plain, lemma_padded_digits_plain, padded_digits,
    push_decimal, push_padded,
};

verus! {

/// Ten to the power `k`.
pub open spec fn pow10(k: nat) -> nat
    decreases k,
{
    if k == 0 {
        1
    } else {
        10 * pow10((k - 1) as nat)
    }
}

/// The integer nearest to `n / d`; of two equally near ones, the even one.
pub open spec fn round_half_even(n: nat, d: nat) -> nat
    recommends
        d > 0,
{
    let q = n / d;
    let r = n % d;
    if 2 * r < d || (2 * r == d && q % 2 == 0) {
        q
    } else {
        q + 1
    }
}

/// The text of `scaled / 10^places` with exactly `places` decimal places, a
/// minus sign first where `negative` holds, and no point where `places` is 0.
pub open spec fn fixed_text(negative: bool, scaled: nat, places: nat) -> Seq<char> {
    let sign = if negative {
        seq!['-']
    } else {
        Seq::<char>::empty()
    };
    let whole = decimal_digits(scaled / pow10(places));
    if places == 0 {
        sign + whole
    } else {
        sign + whole + seq!['.'] + padded_digits(scaled % pow10(places), places)
    }
}

/// The value of a [`Quantity`]: `numerator / denominator`, below zero where
/// `negative` holds. A zero keeps its sign.
pub struct Ratio {
    pub negative: bool,
    pub numerator: nat,
    pub denominator: nat,
}

impl Ratio {
    /// This value multiplied by `k`.
    pub open spec fn times(self, k: nat) -> Ratio {
        Ratio { negative: self.negative, numerator: self.numerator * k, denominator: self.denominator }
    }

    /// This value divided by `k`.
    pub open spec fn over(self, k: nat) -> Ratio {
        Ratio { negative: self.negative, numerator: self.numerator, denominator: self.denominator * k }
    }

    /// Whether this value is `t` or more.
    pub open spec fn at_least(self, t: nat) -> bool {
        !self.negative && self.numerator >= t * self.denominator
    }

    /// This value times `10^places`, rounded to an integer, without its sign.
    pub open spec fn rounded(self, places: nat) -> nat {
        round_half_even(self.numerator * pow10(places), self.denominator)
    }

    /// This value written with `places` decimal places.
    pub open spec fn fixed(self, places: nat) -> Seq<char> {
        fixed_text(self.negative, self.rounded(places), places)
    }
}

/// Ten to the power `k`, for the `k` whose power fits.
pub fn power_of_ten(k: u8) -> (p: u128)
    requires
        k <= 38,
    ensures
        p == pow10(k as nat),
        1 <= p <= 100_000_000_000_000_000_000_000_000_000_000_000_000,
{
    let mut p: u128 = 1;
    let mut i: u8 = 0;
    proof {
        lemma_pow10_38();
    }
    while i < k
        invariant
            i <= k <= 38,
            p == pow10(i as nat),
            p * pow10((38 - i) as nat) == 100_000_000_000_000_000_000_000_000_000_000_000_000,
            p >= 1,
        decreases k - i,
    {
        proof {
            reveal_with_fuel(pow10, 2);
            assert(pow10((38 - i) as nat) == 10 * pow10((38 - i - 1) as nat));
            lemma_pow10_positive((38 - i - 1) as nat);
            assert(p * 10 * pow10((38 - i - 1) as nat)
                == 100_000_000_000_000_000_000_000_000_000_000_000_000) by (nonlinear_arith)
                requires
                    p * (10 * pow10((38 - i - 1) as nat))
                        == 100_000_000_000_000_000_000_000_000_000_000_000_000,
            ;
            assert(p * 10 <= 100_000_000_000_000_000_000_000_000_000_000_000_000)
                by (nonlinear_arith)
                requires
                    p * 10 * pow10((38 - i - 1) as nat)
                        == 100_000_000_000_000_000_000_000_000_000_000_000_000,
                    pow10((38 - i - 1) as nat) >= 1,
            ;
        }
        p = p * 10;
        i += 1;
    }
    proof {
        lemma_pow10_positive((38 - k) as nat);
        assert(p <= 100_000_000_000_000_000_000_000_000_000_000_000_000) by (nonlinear_arith)
            requires
                p * pow10((38 - k) as nat) == 100_000_000_000_000_000_000_000_000_000_000_000_000,
                pow10((38 - k) as nat) >= 1,
                p >= 1,
        ;
    }
    p
}

/// A power of ten is at least 1.
pub proof fn lemma_pow10_positive(k: nat)
    ensures
        pow10(k) >= 1,
    decreases k,
{
    if k > 0 {
        lemma_pow10_positive((k - 1) as nat);
    }
}

/// Ten to the power 2, written out.
pub proof fn lemma_pow10_2()
    ensures
        pow10(2) == 100,
{
    reveal_with_fuel(pow10, 3);
}

/// Ten to the power 18, written out.
pub proof fn lemma_pow10_18()
    ensures
        pow10(18) == 1_000_000_000_000_000_000,
{
    reveal_with_fuel(pow10, 19);
}

/// Ten to the power 19, written out.
pub proof fn lemma_pow10_19()
    ensures
        pow10(19) == 10_000_000_000_000_000_000,
{
    reveal_with_fuel(pow10, 20);
}

/// Ten to the power 20, written out.
pub proof fn lemma_pow10_20()
    ensures
        pow10(20) == 100_000_000_000_000_000_000,
{
    reveal_with_fuel(pow10, 21);
}

/// Ten to the power 38, written out.
pub proof fn lemma_pow10_38()
    ensures
        pow10(38) == 100_000_000_000_000_000_000_000_000_000_000_000_000,
{
    reveal_with_fuel(pow10, 39);
}

/// A larger exponent gives a larger power of ten.
pub proof fn lemma_pow10_increases(a: nat, b: nat)
    requires
        a <= b,
    ensures
        pow10(a) <= pow10(b),
    decreases b,
{
    if a < b {
        lemma_pow10_increases(a, (b - 1) as nat);
    }
}

/// A number written with a fixed number of decimal places holds plain
/// characters only: digits, a point, a minus sign.
pub proof fn lemma_fixed_text_plain(negative: bool, scaled: nat, places: nat)
    ensures
        all_plain(fixed_text(negative, scaled, places)),
{
    lemma_decimal_digits_plain(scaled / pow10(places));
    lemma_padded_digits_plain(scaled % pow10(places), places);
}

/// The integer nearest to `n / d`; of two equally near ones, the even one.
pub fn round_to_nearest(n: u128, d: u128) -> (q: u128)
    requires
        d >= 1,
    ensures
        q == round_half_even(n as nat, d as nat),
{
    let q = n / d;
    let r = n % d;
    if r < d - r || (r == d - r && q % 2 == 0) {
        q
    } else {
        proof {
            assert(d >= 2);
            assert(q <= n / 2) by (nonlinear_arith)
                requires
                    q == n / d,
                    d >= 2,
            ;
        }
        q + 1
    }
}

/// The text of `numerator / denominator` with `places` decimal places, a tie
/// rounded to the even neighbour.
pub fn fixed_point(negative: bool, numerator: u128, denominator: u128, places: u8) -> (s: String)
    requires
        denominator >= 1,
        places <= 38,
        numerator * pow10(places as nat) <= u128::MAX,
    ensures
        s@ == (Ratio {
            negative,
            numerator: numerator as nat,
            denominator: denominator as nat,
        }).fixed(places as nat),
{
    let unit = power_of_ten(places);
    let scaled = round_to_nearest(numerator * unit, denominator);
    let mut s = String::new();
    if negative {
        s.append("-");
        proof {
            reveal_strlit("-");
            assert(s@ =~= seq!['-']);
        }
    }
    push_decimal(&mut s, scaled / unit);
    if places > 0 {
        s.append(".");
        proof {
            reveal_strlit(".");
        }
        push_padded(&mut s, scaled % unit, places);
    }
    assert(s@ =~= fixed_text(negative, scaled as nat, places as nat));
    s
}

/// A reading in its natural unit, held exactly.
#[derive(Clone, Copy, Debug)]
pub struct Quantity {
    negative: bool,
    numerator: u64,
    denominator: u128,
}

impl View for Quantity {
    type V = Ratio;

    closed spec fn view(&self) -> Ratio {
        Ratio {
            negative: self.negative,
            numerator: self.numerator as nat,
            denominator: self.denominator as nat,
        }
    }
}

impl Quantity {
    #[verifier::type_invariant]
    spec fn well_formed(self) -> bool {
        self.denominator >= 1
    }

    /// The quantity `numerator / denominator`, below zero where `negative`
    /// holds; none where `denominator` is 0.
    pub fn new(negative: bool, numerator: u64, denominator: u128) -> (q: Option<Quantity>)
        ensures
            denominator == 0 ==> q is None,
            denominator != 0 ==> q is Some && q->0@ == (Ratio {
                negative,
                numerator: numerator as nat,
                denominator: denominator as nat,
            }),
    {
        if denominator == 0 {
            None
        } else {
            Some(Quantity { negative, numerator, denominator })
        }
    }

    /// The quantity `numerator / denominator`, below zero where `negative` holds.
    pub(crate) fn from_fraction(negative: bool, numerator: u64, denominator: u128) -> (q: Quantity)
        requires
            denominator >= 1,
        ensures
            q@ == (Ratio {
                negative,
                numerator: numerator as nat,
                denominator: denominator as nat,
            }),
    {
        Quantity { negative, numerator, denominator }
    }

    /// Whether the quantity carries a minus sign.
    pub fn is_negative(&self) -> (b: bool)
        ensures
            b == self@.negative,
    {
        self.negative
    }

    /// The numerator of the fraction.
    pub fn numerator(&self) -> (n: u64)
        ensures
            n == self@.numerator,
    {
        self.numerator
    }

    /// The denominator of the fraction, never 0.
    pub fn denominator(&self) -> (d: u128)
        ensures
            d == self@.denominator,
            d >= 1,
    {
        proof {
            use_type_invariant(self);
        }
        self.denominator
    }

    /// The quantity written with `places` decimal places.
    pub fn to_fixed(&self, places: u8) -> (s: String)
        requires
            places <= 18,
        ensures
            s@ == self@.fixed(places as nat),
    {
        proof {
            use_type_invariant(self);
            lemma_pow10_increases(places as nat, 18);
            lemma_pow10_18();
            assert(self.numerator * pow10(places as nat) <= u128::MAX) by (nonlinear_arith)
                requires
                    self.numerator <= u64::MAX,
                    pow10(places as nat) <= 1_000_000_000_000_000_000,
            ;
        }
        fixed_point(self.negative, self.numerator as u128, self.denominator, places)
    }
}

} // verus!
