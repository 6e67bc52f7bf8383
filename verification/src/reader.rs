//! The six readings of a card: which file holds each, how its text becomes a
//! value, and how the six values become one record.

use vstd::prelude::*;
use vstd::string::*;
use crate::discovery::TEMPERATURE_FILE;
use crate::errors::{Failure, ParseError, TelemetryError};
use crate::parse::{lemma_decimal_denominator, parse_decimal, parse_integer, parsed_decimal, parsed_integer};
use crate::quantity::{Quantity, Ratio};
use crate::serialize::{json_object, text_pairs, write_object, Json};
use crate::text::{all_plain, trim, trimmed};
use crate::usage::{format_units, lemma_unit_text_plain, unit_text, Units};

verus! {

/// How the number in a sensor file is written.
#[derive(Debug, Copy, Clone, Eq, PartialEq, Structural)]
pub enum Representation {
    /// A whole number of 32 bits with a sign.
    Integer,
    /// A decimal number, with or without a point and an exponent.
    Decimal,
}

/// What was found when a file was read: its text, or the description of the
/// failure to read it.
pub open spec fn content_view(content: Result<String, String>) -> Result<Seq<char>, Seq<char>> {
    match content {
        Ok(text) => Ok(text@),
        Err(description) => Err(description@),
    }
}

/// The whole number `m` as a value.
pub open spec fn whole(m: int) -> Ratio {
    Ratio { negative: m < 0, numerator: (if m < 0 { -m } else { m }) as nat, denominator: 1 }
}

/// The value that `text` holds in `representation`, divided by `divisor`.
pub open spec fn reading(text: Seq<char>, representation: Representation, divisor: nat) -> Result<
    Ratio,
    ParseError,
> {
    match representation {
        Representation::Integer => match parsed_integer(trimmed(text)) {
            Ok(m) => Ok(whole(m as int).over(divisor)),
            Err(e) => Err(e),
        },
        Representation::Decimal => match parsed_decimal(trimmed(text)) {
            Ok(v) => Ok(v.over(divisor)),
            Err(e) => Err(e),
        },
    }
}

/// What [`read_metric`] returns: the failure to read the file, or what
/// [`reading`] makes of its text.
pub open spec fn metric_outcome(
    content: Result<Seq<char>, Seq<char>>,
    representation: Representation,
    divisor: nat,
) -> Result<Ratio, Failure> {
    match content {
        Err(description) => Err(Failure::Io(description)),
        Ok(text) => match reading(text, representation, divisor) {
            Ok(v) => Ok(v),
            Err(e) => Err(Failure::Parse(e)),
        },
    }
}

/// Parses one metric from the outcome of reading its file, and converts it to
/// its natural unit by dividing it by `divisor`.
pub fn read_metric(content: &Result<String, String>, representation: Representation, divisor: u32) -> (r:
    Result<Quantity, TelemetryError>)
    requires
        divisor >= 1,
    ensures
        match r {
            Ok(q) => metric_outcome(content_view(*content), representation, divisor as nat) == Ok::<
                Ratio,
                Failure,
            >(q@),
            Err(e) => metric_outcome(content_view(*content), representation, divisor as nat)
                == Err::<Ratio, Failure>(e@),
        },
{
    match content {
        Err(description) => Err(TelemetryError::Io(description.clone())),
        Ok(text) => {
            let t = trim(text.as_str());
            match representation {
                Representation::Integer => match parse_integer(t) {
                    Ok(m) => {
                        let magnitude: u64 = if m < 0 {
                            (-(m as i64)) as u64
                        } else {
                            m as u64
                        };
                        let q = Quantity::from_fraction(m < 0, magnitude, divisor as u128);
                        assert(whole(m as int).denominator * (divisor as nat) == divisor)
                            by (nonlinear_arith)
                            requires
                                whole(m as int).denominator == 1,
                        ;
                        Ok(q)
                    },
                    Err(e) => Err(TelemetryError::Parse(e)),
                },
                Representation::Decimal => match parse_decimal(t) {
                    Ok(v) => {
                        let d = v.denominator();
                        proof {
                            lemma_decimal_denominator(t@);
                        }
                        assert(1 <= d * divisor <= u128::MAX) by (nonlinear_arith)
                            requires
                                1 <= d <= 10_000_000_000_000_000_000,
                                1 <= divisor <= u32::MAX,
                        ;
                        let q = Quantity::from_fraction(
                            v.is_negative(),
                            v.numerator(),
                            d * (divisor as u128),
                        );
                        Ok(q)
                    },
                    Err(e) => Err(TelemetryError::Parse(e)),
                },
            }
        },
    }
}

/// The six readings of a card, in the order in which they are taken.
#[derive(Debug, Copy, Clone, Eq, PartialEq, Structural)]
pub enum Metric {
    Temperature,
    CoreClock,
    Power,
    Load,
    VramUsed,
    VramTotal,
}

impl Metric {
    /// The path of the file, from the directory that holds it.
    pub open spec fn spec_relative_path(self) -> &'static str {
        match self {
            Metric::Temperature => TEMPERATURE_FILE,
            Metric::CoreClock => "freq1_input",
            Metric::Power => "power1_average",
            Metric::Load => "device/gpu_busy_percent",
            Metric::VramUsed => "device/mem_info_vram_used",
            Metric::VramTotal => "device/mem_info_vram_total",
        }
    }

    /// Whether the file lies in the sensor directory; the others lie in the
    /// directory of the card.
    pub open spec fn spec_in_sensor_directory(self) -> bool {
        self == Metric::Temperature || self == Metric::CoreClock || self == Metric::Power
    }

    /// How the number in the file is written.
    pub open spec fn spec_representation(self) -> Representation {
        match self {
            Metric::Temperature => Representation::Integer,
            _ => Representation::Decimal,
        }
    }

    /// By what the number in the file is divided to give the natural unit:
    /// millidegrees to degrees, microwatts to watts, percent to a ratio.
    pub open spec fn spec_divisor(self) -> u32 {
        match self {
            Metric::Temperature => 1_000u32,
            Metric::Power => 1_000_000u32,
            Metric::Load => 100u32,
            _ => 1u32,
        }
    }

    /// The unit in which the reading is shown.
    pub open spec fn spec_unit(self) -> Units {
        match self {
            Metric::Temperature => Units::Temperature,
            Metric::CoreClock => Units::Frequency,
            Metric::Power => Units::Power,
            Metric::Load => Units::Gpu,
            Metric::VramUsed => Units::Memory,
            Metric::VramTotal => Units::Memory,
        }
    }

    /// The path of the file, from the directory that holds it.
    #[verifier::when_used_as_spec(spec_relative_path)]
    pub fn relative_path(self) -> (path: &'static str)
        ensures
            path == self.spec_relative_path(),
    {
        match self {
            Metric::Temperature => TEMPERATURE_FILE,
            Metric::CoreClock => "freq1_input",
            Metric::Power => "power1_average",
            Metric::Load => "device/gpu_busy_percent",
            Metric::VramUsed => "device/mem_info_vram_used",
            Metric::VramTotal => "device/mem_info_vram_total",
        }
    }

    /// Whether the file lies in the sensor directory; the others lie in the
    /// directory of the card.
    #[verifier::when_used_as_spec(spec_in_sensor_directory)]
    pub fn in_sensor_directory(self) -> (b: bool)
        ensures
            b == self.spec_in_sensor_directory(),
    {
        match self {
            Metric::Temperature => true,
            Metric::CoreClock => true,
            Metric::Power => true,
            _ => false,
        }
    }

    /// How the number in the file is written.
    #[verifier::when_used_as_spec(spec_representation)]
    pub fn representation(self) -> (r: Representation)
        ensures
            r == self.spec_representation(),
    {
        match self {
            Metric::Temperature => Representation::Integer,
            _ => Representation::Decimal,
        }
    }

    /// By what the number in the file is divided to give the natural unit.
    #[verifier::when_used_as_spec(spec_divisor)]
    pub fn divisor(self) -> (d: u32)
        ensures
            d == self.spec_divisor(),
            d >= 1,
    {
        match self {
            Metric::Temperature => 1_000,
            Metric::Power => 1_000_000,
            Metric::Load => 100,
            _ => 1,
        }
    }

    /// The unit in which the reading is shown.
    #[verifier::when_used_as_spec(spec_unit)]
    pub fn unit(self) -> (u: Units)
        ensures
            u == self.spec_unit(),
    {
        match self {
            Metric::Temperature => Units::Temperature,
            Metric::CoreClock => Units::Frequency,
            Metric::Power => Units::Power,
            Metric::Load => Units::Gpu,
            Metric::VramUsed => Units::Memory,
            Metric::VramTotal => Units::Memory,
        }
    }
}

/// What was found of the files in the sensor directory of a card.
#[derive(Debug)]
pub struct SensorFiles {
    pub temp1_input: Result<String, String>,
    pub freq1_input: Result<String, String>,
    pub power1_average: Result<String, String>,
}

/// What was found of the files in the directory of a card.
#[derive(Debug)]
pub struct DeviceFiles {
    pub gpu_busy_percent: Result<String, String>,
    pub mem_info_vram_used: Result<String, String>,
    pub mem_info_vram_total: Result<String, String>,
}

/// The value of a [`GpuData`]: its six texts.
pub struct Record {
    pub temperature: Seq<char>,
    pub core_clock: Seq<char>,
    pub power_usage: Seq<char>,
    pub gpu_load: Seq<char>,
    pub vram_used: Seq<char>,
    pub vram_total: Seq<char>,
}

/// Struct to hold GPU data.
#[derive(Debug)]
pub struct GpuData {
    pub temperature: String,
    pub core_clock: String,
    pub power_usage: String,
    pub gpu_load: String,
    pub vram_used: String,
    pub vram_total: String,
}

impl View for GpuData {
    type V = Record;

    open spec fn view(&self) -> Record {
        Record {
            temperature: self.temperature@,
            core_clock: self.core_clock@,
            power_usage: self.power_usage@,
            gpu_load: self.gpu_load@,
            vram_used: self.vram_used@,
            vram_total: self.vram_total@,
        }
    }
}

/// The keys of a record's JSON object with their values, in the order in
/// which they are written.
pub open spec fn record_pairs(r: Record) -> Seq<(Seq<char>, Seq<char>)> {
    seq![
        ("GPU Temperature"@, r.temperature),
        ("GPU Load"@, r.gpu_load),
        ("GPU Core Clock"@, r.core_clock),
        ("GPU Power Usage"@, r.power_usage),
        ("GPU VRAM Usage"@, r.vram_used),
        ("GPU VRAM Total"@, r.vram_total),
    ]
}

impl Json for GpuData {
    /// The record as a JSON object on one line: the six keys in their fixed
    /// order, each with its text as a string.
    fn to_json(&self) -> (s: String)
        ensures
            s@ == json_object(record_pairs(self@)),
    {
        let mut pairs: Vec<(&str, &str)> = Vec::new();
        pairs.push(("GPU Temperature", self.temperature.as_str()));
        pairs.push(("GPU Load", self.gpu_load.as_str()));
        pairs.push(("GPU Core Clock", self.core_clock.as_str()));
        pairs.push(("GPU Power Usage", self.power_usage.as_str()));
        pairs.push(("GPU VRAM Usage", self.vram_used.as_str()));
        pairs.push(("GPU VRAM Total", self.vram_total.as_str()));
        assert(text_pairs(pairs@) =~= record_pairs(self@));
        write_object(pairs.as_slice())
    }
}

/// The text of one field of the record: the reading of `metric` from
/// `content`, formatted in its unit; or why there is none.
#[verifier::opaque]
pub open spec fn field_text(content: Result<Seq<char>, Seq<char>>, metric: Metric) -> Result<
    Seq<char>,
    Failure,
> {
    match metric_outcome(content, metric.spec_representation(), metric.spec_divisor() as nat) {
        Ok(v) => Ok(unit_text(metric.spec_unit(), v)),
        Err(f) => Err(f),
    }
}

/// The six fields in the order in which they are read: temperature, core
/// clock, power, load, memory used, memory total.
pub open spec fn field_texts(gpu: DeviceFiles, hwmon: SensorFiles) -> Seq<
    Result<Seq<char>, Failure>,
> {
    seq![
        field_text(content_view(hwmon.temp1_input), Metric::Temperature),
        field_text(content_view(hwmon.freq1_input), Metric::CoreClock),
        field_text(content_view(hwmon.power1_average), Metric::Power),
        field_text(content_view(gpu.gpu_busy_percent), Metric::Load),
        field_text(content_view(gpu.mem_info_vram_used), Metric::VramUsed),
        field_text(content_view(gpu.mem_info_vram_total), Metric::VramTotal),
    ]
}

/// The failure of the first of `fields` that has one.
pub open spec fn first_failure(fields: Seq<Result<Seq<char>, Failure>>) -> Option<Failure>
    decreases fields.len(),
{
    if fields.len() == 0 {
        None
    } else if fields[0] is Err {
        Some(fields[0]->Err_0)
    } else {
        first_failure(fields.drop_first())
    }
}

/// What [`read_gpu_data`] returns: the record of the six fields where each
/// has a text, and else the failure of the first that has none.
pub open spec fn gathered(gpu: DeviceFiles, hwmon: SensorFiles) -> Result<Record, Failure> {
    let fields = field_texts(gpu, hwmon);
    match first_failure(fields) {
        Some(f) => Err(f),
        None => Ok(
            Record {
                temperature: fields[0]->Ok_0,
                core_clock: fields[1]->Ok_0,
                power_usage: fields[2]->Ok_0,
                gpu_load: fields[3]->Ok_0,
                vram_used: fields[4]->Ok_0,
                vram_total: fields[5]->Ok_0,
            },
        ),
    }
}

/// Where the fields before `k` have a text and field `k` has none, the
/// failure of field `k` is the first.
pub proof fn lemma_first_failure_at(fields: Seq<Result<Seq<char>, Failure>>, k: int)
    requires
        0 <= k < fields.len(),
        forall|j: int| 0 <= j < k ==> (#[trigger] fields[j]) is Ok,
        fields[k] is Err,
    ensures
        first_failure(fields) == Some(fields[k]->Err_0),
    decreases k,
{
    if k > 0 {
        let rest = fields.drop_first();
        assert forall|j: int| 0 <= j < k - 1 implies (#[trigger] rest[j]) is Ok by {
            assert(rest[j] == fields[j + 1]);
        }
        lemma_first_failure_at(rest, k - 1);
    }
}

/// There is a first failure exactly where some field has none.
pub proof fn lemma_first_failure_exists(fields: Seq<Result<Seq<char>, Failure>>)
    ensures
        first_failure(fields) is Some <==> exists|k: int|
            0 <= k < fields.len() && (#[trigger] fields[k]) is Err,
    decreases fields.len(),
{
    if fields.len() > 0 {
        let rest = fields.drop_first();
        lemma_first_failure_exists(rest);
        if fields[0] is Ok {
            if first_failure(rest) is Some {
                let k = choose|k: int| 0 <= k < rest.len() && (#[trigger] rest[k]) is Err;
                assert(fields[k + 1] is Err);
            }
            if exists|k: int| 0 <= k < fields.len() && (#[trigger] fields[k]) is Err {
                let k = choose|k: int| 0 <= k < fields.len() && (#[trigger] fields[k]) is Err;
                assert(rest[k - 1] is Err);
            }
        }
    }
}

/// Every text of a record that was read holds plain characters only: its
/// JSON object needs no escaping.
pub proof fn lemma_record_is_plain(gpu: DeviceFiles, hwmon: SensorFiles)
    ensures
        gathered(gpu, hwmon) matches Ok(r) ==> forall|i: int|
            0 <= i < 6 ==> all_plain((#[trigger] record_pairs(r)[i]).1),
{
    if gathered(gpu, hwmon) is Ok {
        let fields = field_texts(gpu, hwmon);
        lemma_first_failure_exists(fields);
        assert(forall|k: int| 0 <= k < 6 ==> (#[trigger] fields[k]) is Ok);
        lemma_field_is_plain(content_view(hwmon.temp1_input), Metric::Temperature);
        lemma_field_is_plain(content_view(hwmon.freq1_input), Metric::CoreClock);
        lemma_field_is_plain(content_view(hwmon.power1_average), Metric::Power);
        lemma_field_is_plain(content_view(gpu.gpu_busy_percent), Metric::Load);
        lemma_field_is_plain(content_view(gpu.mem_info_vram_used), Metric::VramUsed);
        lemma_field_is_plain(content_view(gpu.mem_info_vram_total), Metric::VramTotal);
        assert(fields[0] is Ok && fields[1] is Ok && fields[2] is Ok && fields[3] is Ok
            && fields[4] is Ok && fields[5] is Ok);
    }
}

/// The text of a field holds plain characters only.
pub proof fn lemma_field_is_plain(content: Result<Seq<char>, Seq<char>>, metric: Metric)
    ensures
        field_text(content, metric) matches Ok(text) ==> all_plain(text),
{
    reveal(field_text);
    match metric_outcome(content, metric.spec_representation(), metric.spec_divisor() as nat) {
        Ok(v) => {
            lemma_unit_text_plain(metric.spec_unit(), v);
        },
        Err(_) => {},
    }
}

/// Reads and formats one field of the record.
fn read_field(content: &Result<String, String>, metric: Metric) -> (r: Result<
    String,
    TelemetryError,
>)
    ensures
        match r {
            Ok(s) => field_text(content_view(*content), metric) == Ok::<Seq<char>, Failure>(s@),
            Err(e) => field_text(content_view(*content), metric) == Err::<Seq<char>, Failure>(e@),
        },
{
    reveal(field_text);
    match read_metric(content, metric.representation(), metric.divisor()) {
        Ok(value) => Ok(format_units(metric.unit(), value)),
        Err(e) => Err(e),
    }
}

/// Reads GPU data such as temperature, clocks, power, load, and VRAM, from
/// what was found of the files of the card and of its sensor directory. The
/// record is whole or there is none: the first reading that fails ends the
/// work with its error.
pub fn read_gpu_data(gpu: &DeviceFiles, hwmon: &SensorFiles) -> (r: Result<GpuData, TelemetryError>)
    ensures
        match r {
            Ok(data) => gathered(*gpu, *hwmon) == Ok::<Record, Failure>(data@),
            Err(e) => gathered(*gpu, *hwmon) == Err::<Record, Failure>(e@),
        },
{
    let ghost fields = field_texts(*gpu, *hwmon);
    let temperature = match read_field(&hwmon.temp1_input, Metric::Temperature) {
        Ok(text) => text,
        Err(e) => {
            proof {
                lemma_first_failure_at(fields, 0);
            }
            return Err(e);
        },
    };
    let core_clock = match read_field(&hwmon.freq1_input, Metric::CoreClock) {
        Ok(text) => text,
        Err(e) => {
            proof {
                lemma_first_failure_at(fields, 1);
            }
            return Err(e);
        },
    };
    let power_usage = match read_field(&hwmon.power1_average, Metric::Power) {
        Ok(text) => text,
        Err(e) => {
            proof {
                lemma_first_failure_at(fields, 2);
            }
            return Err(e);
        },
    };
    let gpu_load = match read_field(&gpu.gpu_busy_percent, Metric::Load) {
        Ok(text) => text,
        Err(e) => {
            proof {
                lemma_first_failure_at(fields, 3);
            }
            return Err(e);
        },
    };
    let vram_used = match read_field(&gpu.mem_info_vram_used, Metric::VramUsed) {
        Ok(text) => text,
        Err(e) => {
            proof {
                lemma_first_failure_at(fields, 4);
            }
            return Err(e);
        },
    };
    let vram_total = match read_field(&gpu.mem_info_vram_total, Metric::VramTotal) {
        Ok(text) => text,
        Err(e) => {
            proof {
                lemma_first_failure_at(fields, 5);
            }
            return Err(e);
        },
    };
    proof {
        lemma_first_failure_exists(fields);
    }
    Ok(GpuData { temperature, core_clock, power_usage, gpu_load, vram_used, vram_total })
}

} // verus!
