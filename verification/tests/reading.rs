use amd_gpu_info::errors::{ParseError, TelemetryError};
use amd_gpu_info::quantity::Quantity;
use amd_gpu_info::reader::{
    read_gpu_data, read_metric, DeviceFiles, GpuData, Metric, Representation, SensorFiles,
};
use amd_gpu_info::serialize::{write_object, Json};
use amd_gpu_info::usage::Units;

fn found(text: &str) -> Result<String, String> {
    Ok(text.to_string())
}

fn missing() -> Result<String, String> {
    Err("No such file or directory (os error 2)".to_string())
}

fn parts(q: Quantity) -> (bool, u64, u128) {
    (q.is_negative(), q.numerator(), q.denominator())
}

fn sensor_files() -> SensorFiles {
    SensorFiles {
        temp1_input: found("63400\n"),
        freq1_input: found("2500000000\n"),
        power1_average: found("142000000\n"),
    }
}

fn device_files() -> DeviceFiles {
    DeviceFiles {
        gpu_busy_percent: found("27\n"),
        mem_info_vram_used: found("1048576\n"),
        mem_info_vram_total: found("17163091968\n"),
    }
}

fn is_io(e: &TelemetryError) -> bool {
    matches!(e, TelemetryError::Io(_))
}

fn is_parse(e: &TelemetryError, kind: ParseError) -> bool {
    matches!(e, TelemetryError::Parse(k) if *k == kind)
}

#[test]
fn metric_is_trimmed_parsed_and_divided() {
    let q = read_metric(&found(" 63400\n"), Representation::Integer, 1000).unwrap();
    assert_eq!(parts(q), (false, 63400, 1000));
    let q = read_metric(&found("-5000"), Representation::Integer, 1000).unwrap();
    assert_eq!(parts(q), (true, 5000, 1000));
    let q = read_metric(&found("-2147483648"), Representation::Integer, 1).unwrap();
    assert_eq!(parts(q), (true, 2147483648, 1));
    let q = read_metric(&found("142000000\n"), Representation::Decimal, 1_000_000).unwrap();
    assert_eq!(parts(q), (false, 142000000, 1_000_000));
    let q = read_metric(&found("27.5\n"), Representation::Decimal, 100).unwrap();
    assert_eq!(parts(q), (false, 275, 1000));
    let q = read_metric(&found("\t1e3 "), Representation::Decimal, 1).unwrap();
    assert_eq!(parts(q), (false, 1000, 1));
    let q = read_metric(
        &found("0.0000000000000000001"),
        Representation::Decimal,
        u32::MAX,
    )
    .unwrap();
    assert_eq!(parts(q), (false, 1, 10_000_000_000_000_000_000u128 * u32::MAX as u128));
}

#[test]
fn metric_of_a_missing_file_is_an_io_error() {
    let e = read_metric(&missing(), Representation::Integer, 1000).unwrap_err();
    assert!(is_io(&e));
    assert_eq!(e.message(), "No such file or directory (os error 2)");
    let e = read_metric(&missing(), Representation::Decimal, 1).unwrap_err();
    assert!(is_io(&e));
}

#[test]
fn metric_of_bad_text_is_a_parse_error() {
    let e = read_metric(&found(""), Representation::Integer, 1000).unwrap_err();
    assert!(is_parse(&e, ParseError::Empty));
    let e = read_metric(&found(" \n"), Representation::Decimal, 1).unwrap_err();
    assert!(is_parse(&e, ParseError::Empty));
    let e = read_metric(&found("45.5"), Representation::Integer, 1000).unwrap_err();
    assert!(is_parse(&e, ParseError::Invalid));
    let e = read_metric(&found("4 5"), Representation::Decimal, 1).unwrap_err();
    assert!(is_parse(&e, ParseError::Invalid));
    let e = read_metric(&found("N/A"), Representation::Decimal, 1).unwrap_err();
    assert!(is_parse(&e, ParseError::Invalid));
    let e = read_metric(&found("3000000000"), Representation::Integer, 1000).unwrap_err();
    assert!(is_parse(&e, ParseError::OutOfRange));
    let e = read_metric(&found("1e40"), Representation::Decimal, 1).unwrap_err();
    assert!(is_parse(&e, ParseError::OutOfRange));
    assert_eq!(e.message(), "number out of range");
}

#[test]
fn metrics_name_their_files() {
    assert_eq!(Metric::Temperature.relative_path(), "temp1_input");
    assert_eq!(Metric::CoreClock.relative_path(), "freq1_input");
    assert_eq!(Metric::Power.relative_path(), "power1_average");
    assert_eq!(Metric::Load.relative_path(), "device/gpu_busy_percent");
    assert_eq!(Metric::VramUsed.relative_path(), "device/mem_info_vram_used");
    assert_eq!(Metric::VramTotal.relative_path(), "device/mem_info_vram_total");
    assert!(Metric::Temperature.in_sensor_directory());
    assert!(Metric::CoreClock.in_sensor_directory());
    assert!(Metric::Power.in_sensor_directory());
    assert!(!Metric::Load.in_sensor_directory());
    assert!(!Metric::VramUsed.in_sensor_directory());
    assert!(!Metric::VramTotal.in_sensor_directory());
}

#[test]
fn metrics_name_their_conversions() {
    assert_eq!(Metric::Temperature.representation(), Representation::Integer);
    assert_eq!(Metric::CoreClock.representation(), Representation::Decimal);
    assert_eq!(Metric::Power.representation(), Representation::Decimal);
    assert_eq!(Metric::Load.representation(), Representation::Decimal);
    assert_eq!(Metric::VramUsed.representation(), Representation::Decimal);
    assert_eq!(Metric::VramTotal.representation(), Representation::Decimal);
    assert_eq!(Metric::Temperature.divisor(), 1000);
    assert_eq!(Metric::CoreClock.divisor(), 1);
    assert_eq!(Metric::Power.divisor(), 1_000_000);
    assert_eq!(Metric::Load.divisor(), 100);
    assert_eq!(Metric::VramUsed.divisor(), 1);
    assert_eq!(Metric::VramTotal.divisor(), 1);
    assert_eq!(Metric::Temperature.unit(), Units::Temperature);
    assert_eq!(Metric::CoreClock.unit(), Units::Frequency);
    assert_eq!(Metric::Power.unit(), Units::Power);
    assert_eq!(Metric::Load.unit(), Units::Gpu);
    assert_eq!(Metric::VramUsed.unit(), Units::Memory);
    assert_eq!(Metric::VramTotal.unit(), Units::Memory);
}

#[test]
fn six_good_files_give_a_whole_record() {
    let data = read_gpu_data(&device_files(), &sensor_files()).unwrap();
    assert_eq!(data.temperature, "63.4 °C");
    assert_eq!(data.core_clock, "2.50 GHz");
    assert_eq!(data.power_usage, "142.0 W");
    assert_eq!(data.gpu_load, "27.0%");
    assert_eq!(data.vram_used, "1.00 MB");
    assert_eq!(data.vram_total, "15.98 GB");
}

#[test]
fn negative_temperature_is_read() {
    let mut hwmon = sensor_files();
    hwmon.temp1_input = found("-1500\n");
    let data = read_gpu_data(&device_files(), &hwmon).unwrap();
    assert_eq!(data.temperature, "-1.5 °C");
}

#[test]
fn any_missing_file_leaves_no_record() {
    for k in 0..6 {
        let mut gpu = device_files();
        let mut hwmon = sensor_files();
        match k {
            0 => hwmon.temp1_input = missing(),
            1 => hwmon.freq1_input = missing(),
            2 => hwmon.power1_average = missing(),
            3 => gpu.gpu_busy_percent = missing(),
            4 => gpu.mem_info_vram_used = missing(),
            _ => gpu.mem_info_vram_total = missing(),
        }
        let e = read_gpu_data(&gpu, &hwmon).unwrap_err();
        assert!(is_io(&e), "file {}", k);
    }
}

#[test]
fn any_unparsable_file_leaves_no_record() {
    for k in 0..6 {
        let mut gpu = device_files();
        let mut hwmon = sensor_files();
        match k {
            0 => hwmon.temp1_input = found("warm\n"),
            1 => hwmon.freq1_input = found("fast\n"),
            2 => hwmon.power1_average = found("much\n"),
            3 => gpu.gpu_busy_percent = found("busy\n"),
            4 => gpu.mem_info_vram_used = found("some\n"),
            _ => gpu.mem_info_vram_total = found("all\n"),
        }
        let e = read_gpu_data(&gpu, &hwmon).unwrap_err();
        assert!(is_parse(&e, ParseError::Invalid), "file {}", k);
    }
}

#[test]
fn the_first_failure_in_reading_order_is_reported() {
    let mut gpu = device_files();
    let mut hwmon = sensor_files();
    gpu.mem_info_vram_total = missing();
    gpu.gpu_busy_percent = found("");
    let e = read_gpu_data(&gpu, &hwmon).unwrap_err();
    assert!(is_parse(&e, ParseError::Empty));
    hwmon.power1_average = found("1e99");
    let e = read_gpu_data(&gpu, &hwmon).unwrap_err();
    assert!(is_parse(&e, ParseError::OutOfRange));
    hwmon.freq1_input = missing();
    let e = read_gpu_data(&gpu, &hwmon).unwrap_err();
    assert!(is_io(&e));
    hwmon.temp1_input = found("1.5");
    let e = read_gpu_data(&gpu, &hwmon).unwrap_err();
    assert!(is_parse(&e, ParseError::Invalid));
}

#[test]
fn temperature_is_a_whole_number_and_the_others_are_decimal() {
    let mut gpu = device_files();
    let mut hwmon = sensor_files();
    hwmon.freq1_input = found("2.5e9");
    hwmon.power1_average = found("35449999.5");
    gpu.gpu_busy_percent = found("99.5");
    gpu.mem_info_vram_used = found("1536.0");
    let data = read_gpu_data(&gpu, &hwmon).unwrap();
    assert_eq!(data.core_clock, "2.50 GHz");
    assert_eq!(data.power_usage, "35.4 W");
    assert_eq!(data.gpu_load, "99.5%");
    assert_eq!(data.vram_used, "1.50 KB");
}

#[test]
fn record_is_one_json_object_with_six_keys_in_order() {
    let data = read_gpu_data(&device_files(), &sensor_files()).unwrap();
    assert_eq!(
        data.to_json(),
        "{\"GPU Temperature\": \"63.4 °C\", \"GPU Load\": \"27.0%\", \
         \"GPU Core Clock\": \"2.50 GHz\", \"GPU Power Usage\": \"142.0 W\", \
         \"GPU VRAM Usage\": \"1.00 MB\", \"GPU VRAM Total\": \"15.98 GB\"}"
    );
}

#[test]
fn json_takes_the_fields_as_they_are() {
    let data = GpuData {
        temperature: "t".to_string(),
        core_clock: "c".to_string(),
        power_usage: "p".to_string(),
        gpu_load: "l".to_string(),
        vram_used: "u".to_string(),
        vram_total: "a".to_string(),
    };
    let json = data.to_json();
    assert_eq!(
        json,
        "{\"GPU Temperature\": \"t\", \"GPU Load\": \"l\", \"GPU Core Clock\": \"c\", \
         \"GPU Power Usage\": \"p\", \"GPU VRAM Usage\": \"u\", \"GPU VRAM Total\": \"a\"}"
    );
    assert!(!json.contains('\n'));
}

#[test]
fn write_object_joins_members_with_comma_and_space() {
    assert_eq!(write_object(&[]), "{}");
    assert_eq!(write_object(&[("k", "v")]), "{\"k\": \"v\"}");
    assert_eq!(write_object(&[("a", "1"), ("b", "")]), "{\"a\": \"1\", \"b\": \"\"}");
    assert_eq!(
        write_object(&[("a", "1"), ("b", "2"), ("c", "3")]),
        "{\"a\": \"1\", \"b\": \"2\", \"c\": \"3\"}"
    );
}

struct Pair {
    left: String,
    right: String,
}

impl Json for Pair {
    fn to_json(&self) -> String {
        write_object(&[("left", self.left.as_str()), ("right", self.right.as_str())])
    }
}

#[test]
fn json_can_be_implemented_for_other_records() {
    let pair = Pair { left: "a".to_string(), right: "b".to_string() };
    assert_eq!(pair.to_json(), "{\"left\": \"a\", \"right\": \"b\"}");
}

fn float_way(unit: Units, value: f64) -> String {
    fn scaled(value: f64, table: &[(&str, f64)]) -> String {
        for &(suffix, threshold) in table {
            if value >= threshold {
                return format!("{:.2} {}", value / threshold, suffix);
            }
        }
        format!("{:.0}", value)
    }
    match unit {
        Units::Temperature => format!("{:.1} °C", value),
        Units::Gpu => format!("{:.1}%", value * 100.0),
        Units::Power => format!("{:.1} W", value),
        Units::Memory => scaled(
            value,
            &[
                ("TB", 1_099_511_627_776.0),
                ("GB", 1_073_741_824.0),
                ("MB", 1_048_576.0),
                ("KB", 1_024.0),
                ("B", 1.0),
            ],
        ),
        Units::Frequency => scaled(
            value,
            &[("GHz", 1_000_000_000.0), ("MHz", 1_000_000.0), ("kHz", 1_000.0), ("Hz", 1.0)],
        ),
    }
}

fn exact_way(metric: Metric, text: &str) -> String {
    let value = read_metric(&found(text), metric.representation(), metric.divisor()).unwrap();
    amd_gpu_info::usage::format_units(metric.unit(), value)
}

#[test]
fn temperature_agrees_with_binary_floating_point_away_from_ties() {
    let mut raw: i32 = -60_000;
    while raw < 130_000 {
        if raw % 100 != 50 && raw % 100 != -50 {
            let expected = float_way(Units::Temperature, raw as f64 / 1000.0);
            assert_eq!(exact_way(Metric::Temperature, &format!("{}\n", raw)), expected);
        }
        raw += 7;
    }
}

#[test]
fn power_agrees_with_binary_floating_point_away_from_ties() {
    let mut raw: u64 = 0;
    while raw < 600_000_000 {
        if raw % 100_000 != 50_000 {
            let expected = float_way(Units::Power, raw as f64 / 1_000_000.0);
            assert_eq!(exact_way(Metric::Power, &format!("{}\n", raw)), expected);
        }
        raw += 12_347;
    }
}

#[test]
fn load_agrees_with_binary_floating_point() {
    for raw in 0..=100u32 {
        let expected = float_way(Units::Gpu, raw as f64 / 100.0);
        assert_eq!(exact_way(Metric::Load, &format!("{}\n", raw)), expected);
    }
}

#[test]
fn core_clock_agrees_with_binary_floating_point_away_from_ties() {
    let mut raw: u64 = 0;
    while raw < 6_000_000_000 {
        let unit: u64 = if raw >= 1_000_000_000 {
            1_000_000_000
        } else if raw >= 1_000_000 {
            1_000_000
        } else if raw >= 1_000 {
            1_000
        } else {
            1
        };
        if unit < 1000 || raw % (unit / 100) != unit / 200 {
            let expected = float_way(Units::Frequency, raw as f64);
            assert_eq!(exact_way(Metric::CoreClock, &format!("{}\n", raw)), expected);
        }
        raw = raw + raw / 50 + 1;
    }
}

#[test]
fn memory_agrees_with_binary_floating_point() {
    let mut raw: u64 = 0;
    while raw < (1 << 46) {
        let expected = float_way(Units::Memory, raw as f64);
        assert_eq!(exact_way(Metric::VramUsed, &format!("{}\n", raw)), expected);
        assert_eq!(exact_way(Metric::VramTotal, &format!("{}\n", raw)), expected);
        raw = raw + raw / 40 + 1;
    }
}
