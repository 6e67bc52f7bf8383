//! Formatting of readings by unit: temperature, memory, load, power and
//! frequency.

use vstd::prelude::*;
use vstd::string::*;
use crate::quantity::{
    fixed_point, fixed_text, lemma_fixed_text_plain, lemma_pow10_2, pow10, Quantity, Ratio,
};
use crate::text::{all_plain, decimal_digits, digit_char, padded_digits};

verus! {

/// Units of measurement for formatting.
#[derive(Debug, Copy, Clone, Eq, PartialEq, Hash, Structural)]
pub enum Units {
    /// Degrees Celsius.
    Temperature,
    /// Bytes, scaled by powers of 1024.
    Memory,
    /// A ratio from 0 to 1, shown as a percentage.
    Gpu,
    /// Watts.
    Power,
    /// Hertz, scaled by powers of 1000.
    Frequency,
}

/// The suffixes for bytes with the number of bytes in each, largest first.
pub open spec fn byte_table() -> Seq<(&'static str, u64)> {
    seq![
        ("TB", 1_099_511_627_776u64),
        ("GB", 1_073_741_824u64),
        ("MB", 1_048_576u64),
        ("KB", 1_024u64),
        ("B", 1u64),
    ]
}

/// The suffixes for hertz with the number of hertz in each, largest first.
pub open spec fn hertz_table() -> Seq<(&'static str, u64)> {
    seq![("GHz", 1_000_000_000u64), ("MHz", 1_000_000u64), ("kHz", 1_000u64), ("Hz", 1u64)]
}

/// Whether every threshold of `table` is at least 1.
pub open spec fn thresholds_positive(table: Seq<(&str, u64)>) -> bool {
    forall|i: int| 0 <= i < table.len() ==> (#[trigger] table[i]).1 >= 1
}

/// `v` in the first unit of `table` that it reaches, with two decimal places,
/// a space and the suffix; below every threshold, `v` as a whole number alone.
pub open spec fn scaled_text(v: Ratio, table: Seq<(&str, u64)>) -> Seq<char>
    decreases table.len(),
{
    if table.len() == 0 {
        v.fixed(0)
    } else if v.at_least(table[0].1 as nat) {
        v.over(table[0].1 as nat).fixed(2) + seq![' '] + table[0].0@
    } else {
        scaled_text(v, table.drop_first())
    }
}

/// What [`format_units`] writes for `v` in `unit`.
pub open spec fn unit_text(unit: Units, v: Ratio) -> Seq<char> {
    match unit {
        Units::Temperature => v.fixed(1) + " °C"@,
        Units::Gpu => v.times(100).fixed(1) + "%"@,
        Units::Power => v.fixed(1) + " W"@,
        Units::Memory => scaled_text(v, byte_table()),
        Units::Frequency => scaled_text(v, hertz_table()),
    }
}

/// The suffixes for bytes, largest first.
pub fn byte_suffixes() -> (table: Vec<(&'static str, u64)>)
    ensures
        table@ == byte_table(),
{
    let mut table: Vec<(&'static str, u64)> = Vec::new();
    table.push(("TB", 1_099_511_627_776u64));
    table.push(("GB", 1_073_741_824u64));
    table.push(("MB", 1_048_576u64));
    table.push(("KB", 1_024u64));
    table.push(("B", 1u64));
    assert(table@ =~= byte_table());
    table
}

/// The suffixes for hertz, largest first.
pub fn hertz_suffixes() -> (table: Vec<(&'static str, u64)>)
    ensures
        table@ == hertz_table(),
{
    let mut table: Vec<(&'static str, u64)> = Vec::new();
    table.push(("GHz", 1_000_000_000u64));
    table.push(("MHz", 1_000_000u64));
    table.push(("kHz", 1_000u64));
    table.push(("Hz", 1u64));
    assert(table@ =~= hertz_table());
    table
}

/// Generic scale-and-suffix formatter: `value` divided by the first threshold
/// of `suffixes` that it reaches, with that suffix.
pub fn format_scaled(value: Quantity, suffixes: &[(&str, u64)]) -> (s: String)
    requires
        thresholds_positive(suffixes@),
    ensures
        s@ == scaled_text(value@, suffixes@),
{
    let negative = value.is_negative();
    let n: u128 = value.numerator() as u128;
    let d: u128 = value.denominator();
    let mut i: usize = 0;
    assert(suffixes@.skip(0) =~= suffixes@);
    while i < suffixes.len()
        invariant
            i <= suffixes@.len(),
            thresholds_positive(suffixes@),
            negative == value@.negative,
            n == value@.numerator,
            d == value@.denominator,
            d >= 1,
            n <= u64::MAX,
            scaled_text(value@, suffixes@) == scaled_text(value@, suffixes@.skip(i as int)),
        decreases suffixes@.len() - i,
    {
        let (suffix, threshold) = suffixes[i];
        let t: u128 = threshold as u128;
        let ghost rest = suffixes@.skip(i as int);
        assert(rest[0] == suffixes@[i as int]);
        assert(t >= 1);
        assert((n / d >= t) == (n >= t * d)) by (nonlinear_arith)
            requires
                d >= 1,
        ;
        if !negative && n / d >= t {
            assert(1 <= d * t <= n) by (nonlinear_arith)
                requires
                    n >= t * d,
                    d >= 1,
                    t >= 1,
            ;
            proof {
                lemma_pow10_2();
            }
            let mut s = fixed_point(false, n, d * t, 2);
            s.append(" ");
            s.append(suffix);
            proof {
                reveal_strlit(" ");
                assert(" "@ =~= seq![' ']);
                assert(value@.over(t as nat) == (Ratio {
                    negative: false,
                    numerator: n as nat,
                    denominator: (d * t) as nat,
                }));
            }
            return s;
        }
        assert(rest.drop_first() =~= suffixes@.skip(i + 1));
        i += 1;
    }
    assert(suffixes@.skip(i as int).len() == 0);
    value.to_fixed(0)
}

/// Formats a value in the specified unit, returning a string with the appropriate suffix.
pub fn format_units(unit: Units, value: Quantity) -> (s: String)
    ensures
        s@ == unit_text(unit, value@),
{
    match unit {
        Units::Temperature => {
            let mut s = value.to_fixed(1);
            s.append(" °C");
            s
        },
        Units::Gpu => {
            proof {
                lemma_pow10_2();
                assert(pow10(1) == 10) by {
                    reveal_with_fuel(pow10, 2);
                }
            }
            let mut s = fixed_point(
                value.is_negative(),
                value.numerator() as u128 * 100,
                value.denominator(),
                1,
            );
            s.append("%");
            s
        },
        Units::Power => {
            let mut s = value.to_fixed(1);
            s.append(" W");
            s
        },
        Units::Memory => {
            let table = byte_suffixes();
            format_scaled(value, table.as_slice())
        },
        Units::Frequency => {
            let table = hertz_suffixes();
            format_scaled(value, table.as_slice())
        },
    }
}

/// Whether the thresholds of `table` fall from each entry to the next.
pub open spec fn thresholds_fall(table: Seq<(&str, u64)>) -> bool {
    forall|i: int, j: int| 0 <= i < j < table.len() ==> (#[trigger] table[i]).1 > (#[trigger] table[j]).1
}

/// The first threshold that a value reaches decides: where `v` reaches the
/// threshold at `i` and none before it, `v` is written in the unit at `i`.
pub proof fn lemma_first_reached_threshold(v: Ratio, table: Seq<(&str, u64)>, i: int)
    requires
        0 <= i < table.len(),
        v.at_least(table[i].1 as nat),
        forall|j: int| 0 <= j < i ==> !v.at_least((#[trigger] table[j]).1 as nat),
    ensures
        scaled_text(v, table) == v.over(table[i].1 as nat).fixed(2) + seq![' '] + table[i].0@,
    decreases i,
{
    if i > 0 {
        let rest = table.drop_first();
        assert(!v.at_least(table[0].1 as nat));
        assert forall|j: int| 0 <= j < i - 1 implies !v.at_least((#[trigger] rest[j]).1 as nat) by {
            assert(rest[j] == table[j + 1]);
        }
        lemma_first_reached_threshold(v, rest, i - 1);
    }
}

/// A value below every threshold, or below zero, is written as a whole
/// number without a suffix.
pub proof fn lemma_below_every_threshold(v: Ratio, table: Seq<(&str, u64)>)
    requires
        forall|j: int| 0 <= j < table.len() ==> !v.at_least((#[trigger] table[j]).1 as nat),
    ensures
        scaled_text(v, table) == v.fixed(0),
    decreases table.len(),
{
    if table.len() > 0 {
        let rest = table.drop_first();
        assert(!v.at_least(table[0].1 as nat));
        assert forall|j: int| 0 <= j < rest.len() implies !v.at_least((#[trigger] rest[j]).1 as nat) by {
            assert(rest[j] == table[j + 1]);
        }
        lemma_below_every_threshold(v, rest);
    }
}

/// A value that is exactly a threshold takes the suffix of that threshold,
/// never that of a smaller one, and is written as `1.00`: for every table
/// whose thresholds fall, and every way to write the value as a fraction.
pub proof fn lemma_value_at_threshold(table: Seq<(&str, u64)>, i: int, d: nat)
    requires
        thresholds_positive(table),
        thresholds_fall(table),
        0 <= i < table.len(),
        d >= 1,
    ensures
        scaled_text(
            Ratio { negative: false, numerator: table[i].1 as nat * d, denominator: d },
            table,
        ) == seq!['1', '.', '0', '0', ' '] + table[i].0@,
{
    let t = table[i].1 as nat;
    let v = Ratio { negative: false, numerator: t * d, denominator: d };
    assert forall|j: int| 0 <= j < i implies !v.at_least((#[trigger] table[j]).1 as nat) by {
        let u = table[j].1 as nat;
        assert(t * d < u * d) by (nonlinear_arith)
            requires
                t < u,
                d >= 1,
        ;
    }
    lemma_first_reached_threshold(v, table, i);
    let n = t * d * pow10(2);
    let m = d * t;
    lemma_pow10_2();
    assert(n == 100 * m) by (nonlinear_arith)
        requires
            n == t * d * 100,
            m == d * t,
    ;
    assert(m >= 1) by (nonlinear_arith)
        requires
            m == d * t,
            d >= 1,
            t >= 1,
    ;
    assert(n / m == 100 && n % m == 0) by (nonlinear_arith)
        requires
            n == 100 * m,
            m >= 1,
    ;
    assert(v.over(t).rounded(2) == 100);
    lemma_one_with_two_places();
    assert(seq!['1', '.', '0', '0'] + seq![' '] =~= seq!['1', '.', '0', '0', ' ']);
}

/// One hundred hundredths are written as `1.00`.
proof fn lemma_one_with_two_places()
    ensures
        fixed_text(false, 100, 2) == seq!['1', '.', '0', '0'],
{
    lemma_pow10_2();
    assert(100nat / 100 == 1 && 100nat % 100 == 0);
    assert(decimal_digits(1) =~= seq!['1']);
    assert(padded_digits(0, 0) =~= Seq::<char>::empty());
    assert(padded_digits(0, 1) =~= seq!['0']) by {
        assert(padded_digits(0, 1) == padded_digits(0, 0).push(digit_char(0)));
    }
    assert(padded_digits(0, 2) =~= seq!['0', '0']) by {
        assert(padded_digits(0, 2) == padded_digits(0, 1).push(digit_char(0)));
    }
    assert(Seq::<char>::empty() + seq!['1'] + seq!['.'] + seq!['0', '0'] =~= seq![
        '1',
        '.',
        '0',
        '0',
    ]);
}

/// The thresholds of the two tables are at least 1 and fall.
pub proof fn lemma_tables_fall()
    ensures
        thresholds_positive(byte_table()),
        thresholds_fall(byte_table()),
        thresholds_positive(hertz_table()),
        thresholds_fall(hertz_table()),
{
}

/// Memory of exactly 1024 bytes is written as `1.00 KB`, and so is every
/// value that is exactly a threshold of its unit written as `1.00` with the
/// suffix of that threshold.
pub proof fn lemma_unit_at_threshold(unit: Units, i: int, d: nat)
    requires
        unit == Units::Memory || unit == Units::Frequency,
        0 <= i < (if unit == Units::Memory {
            byte_table()
        } else {
            hertz_table()
        }).len(),
        d >= 1,
    ensures
        ({
            let table = if unit == Units::Memory {
                byte_table()
            } else {
                hertz_table()
            };
            unit_text(
                unit,
                Ratio { negative: false, numerator: table[i].1 as nat * d, denominator: d },
            ) == seq!['1', '.', '0', '0', ' '] + table[i].0@
        }),
{
    lemma_tables_fall();
    if unit == Units::Memory {
        lemma_value_at_threshold(byte_table(), i, d);
    } else {
        lemma_value_at_threshold(hertz_table(), i, d);
    }
}

/// Whether every suffix of `table` holds plain characters only.
pub open spec fn suffixes_plain(table: Seq<(&str, u64)>) -> bool {
    forall|i: int| 0 <= i < table.len() ==> all_plain((#[trigger] table[i]).0@)
}

/// A value written with a table of plain suffixes holds plain characters only.
pub proof fn lemma_scaled_text_plain(v: Ratio, table: Seq<(&str, u64)>)
    requires
        suffixes_plain(table),
    ensures
        all_plain(scaled_text(v, table)),
    decreases table.len(),
{
    if table.len() == 0 {
        lemma_fixed_text_plain(v.negative, v.rounded(0), 0);
    } else if v.at_least(table[0].1 as nat) {
        let w = v.over(table[0].1 as nat);
        lemma_fixed_text_plain(w.negative, w.rounded(2), 2);
        assert(all_plain(table[0].0@));
    } else {
        let rest = table.drop_first();
        assert forall|i: int| 0 <= i < rest.len() implies all_plain((#[trigger] rest[i]).0@) by {
            assert(rest[i] == table[i + 1]);
        }
        lemma_scaled_text_plain(v, rest);
    }
}

/// Whatever the unit and the value, the text of a value in its unit holds
/// plain characters only: a JSON string can hold it without escaping.
pub proof fn lemma_unit_text_plain(unit: Units, v: Ratio)
    ensures
        all_plain(unit_text(unit, v)),
{
    match unit {
        Units::Temperature => {
            reveal_strlit(" °C");
            lemma_fixed_text_plain(v.negative, v.rounded(1), 1);
        },
        Units::Gpu => {
            reveal_strlit("%");
            lemma_fixed_text_plain(v.negative, v.times(100).rounded(1), 1);
        },
        Units::Power => {
            reveal_strlit(" W");
            lemma_fixed_text_plain(v.negative, v.rounded(1), 1);
        },
        Units::Memory => {
            reveal_strlit("TB");
            reveal_strlit("GB");
            reveal_strlit("MB");
            reveal_strlit("KB");
            reveal_strlit("B");
            lemma_scaled_text_plain(v, byte_table());
        },
        Units::Frequency => {
            reveal_strlit("GHz");
            reveal_strlit("MHz");
            reveal_strlit("kHz");
            reveal_strlit("Hz");
            lemma_scaled_text_plain(v, hertz_table());
        },
    }
}

} // verus!
