use amd_gpu_info::discovery::HwmonEntry;
use amd_gpu_info::errors::{GpuInfoError, ParseError, TelemetryError};
use amd_gpu_info::pipeline::{DeviceState, Stage, Step};
use amd_gpu_info::reader::{read_gpu_data, DeviceFiles, GpuData, SensorFiles};
use amd_gpu_info::report::{run, Line, Stream};

fn found(text: &str) -> Result<String, String> {
    Ok(text.to_string())
}

fn sensor_files() -> SensorFiles {
    SensorFiles {
        temp1_input: found("63400\n"),
        freq1_input: found("2500000000\n"),
        power1_average: found("142000000\n"),
    }
}

fn device_files() -> DeviceFiles {
    DeviceFiles {
        gpu_busy_percent: found("27\n"),
        mem_info_vram_used: found("1048576\n"),
        mem_info_vram_total: found("17163091968\n"),
    }
}

fn broken_device_files() -> DeviceFiles {
    DeviceFiles {
        gpu_busy_percent: found("27\n"),
        mem_info_vram_used: Err("No such file or directory (os error 2)".to_string()),
        mem_info_vram_total: found("17163091968\n"),
    }
}

fn good() -> Result<GpuData, TelemetryError> {
    read_gpu_data(&device_files(), &sensor_files())
}

fn bad() -> Result<GpuData, TelemetryError> {
    read_gpu_data(&broken_device_files(), &sensor_files())
}

fn shape(line: &Line) -> (Stream, &str) {
    (line.stream, line.text.as_str())
}

const RECORD: &str = "{\"GPU Temperature\": \"63.4 °C\", \"GPU Load\": \"27.0%\", \
    \"GPU Core Clock\": \"2.50 GHz\", \"GPU Power Usage\": \"142.0 W\", \
    \"GPU VRAM Usage\": \"1.00 MB\", \"GPU VRAM Total\": \"15.98 GB\"}";

#[test]
fn one_good_card_gives_one_json_line() {
    let report = run(&Ok(vec![good()]));
    assert_eq!(report.exit_code, 0);
    assert_eq!(report.lines.len(), 1);
    assert_eq!(shape(&report.lines[0]), (Stream::Stdout, RECORD));
    let text = &report.lines[0].text;
    let keys = ["\"GPU Temperature\"", "\"GPU Load\"", "\"GPU Core Clock\"",
        "\"GPU Power Usage\"", "\"GPU VRAM Usage\"", "\"GPU VRAM Total\""];
    let mut from = 0;
    for key in keys {
        let at = text[from..].find(key).unwrap();
        from += at + key.len();
    }
    assert_eq!(text.matches("\": \"").count(), 6);
    assert!(!text.contains('\n'));
}

#[test]
fn no_card_gives_one_line_that_says_so() {
    let report = run(&Ok(vec![]));
    assert_eq!(report.exit_code, 0);
    assert_eq!(report.lines.len(), 1);
    assert_eq!(shape(&report.lines[0]), (Stream::Stdout, "No AMD GPUs detected."));
}

#[test]
fn failed_listing_is_fatal() {
    let report = run(&Err(TelemetryError::Io("Permission denied (os error 13)".to_string())));
    assert_eq!(report.exit_code, 1);
    assert_eq!(report.lines.len(), 1);
    assert_eq!(
        shape(&report.lines[0]),
        (Stream::Stderr, "Fatal: Permission denied (os error 13)")
    );
}

#[test]
fn one_failed_card_among_many_gives_one_error_line() {
    for n in 1..6usize {
        for failing in 0..n {
            let outcomes: Vec<_> =
                (0..n).map(|i| if i == failing { bad() } else { good() }).collect();
            let report = run(&Ok(outcomes));
            assert_eq!(report.exit_code, 0);
            assert_eq!(report.lines.len(), n);
            for (i, line) in report.lines.iter().enumerate() {
                if i == failing {
                    assert_eq!(
                        shape(line),
                        (
                            Stream::Stderr,
                            "Error reading GPU data: No such file or directory (os error 2)"
                        )
                    );
                } else {
                    assert_eq!(shape(line), (Stream::Stdout, RECORD));
                }
            }
            let errors = report.lines.iter().filter(|l| l.stream == Stream::Stderr).count();
            assert_eq!(errors, 1);
        }
    }
}

#[test]
fn error_lines_carry_the_description_of_the_error() {
    let report = run(&Ok(vec![
        Err(TelemetryError::Parse(ParseError::Invalid)),
        Err(TelemetryError::NotFound(GpuInfoError("No hwmon directory found".to_string()))),
        Err(TelemetryError::Parse(ParseError::Empty)),
        Err(TelemetryError::Parse(ParseError::OutOfRange)),
    ]));
    assert_eq!(report.exit_code, 0);
    let lines: Vec<_> = report.lines.iter().map(shape).collect();
    assert_eq!(
        lines,
        vec![
            (Stream::Stderr, "Error reading GPU data: invalid number literal"),
            (Stream::Stderr, "Error reading GPU data: No hwmon directory found"),
            (Stream::Stderr, "Error reading GPU data: cannot parse number from empty string"),
            (Stream::Stderr, "Error reading GPU data: number out of range"),
        ]
    );
}

#[test]
fn errors_describe_themselves() {
    assert_eq!(GpuInfoError("boom".to_string()).message(), "boom");
    assert_eq!(TelemetryError::Io("gone".to_string()).message(), "gone");
    assert_eq!(
        TelemetryError::NotFound(GpuInfoError("nowhere".to_string())).message(),
        "nowhere"
    );
    assert_eq!(
        TelemetryError::Parse(ParseError::Empty).message(),
        "cannot parse number from empty string"
    );
}

fn ended(state: DeviceState) -> Result<GpuData, TelemetryError> {
    match state.next() {
        Step::Done(outcome) => outcome,
        other => panic!("the work has not ended: {:?}", other),
    }
}

#[test]
fn card_goes_from_found_to_assembled() {
    assert!(matches!(DeviceState::Discovered.next(), Step::ListSensors));
    let state = DeviceState::Discovered.locate(&Ok(vec![HwmonEntry::Other, HwmonEntry::Sensor]));
    assert!(matches!(state, DeviceState::SensorLocated(1)));
    assert!(matches!(state.next(), Step::ReadFiles(1)));
    let state = DeviceState::SensorLocated(1).read(&device_files(), &sensor_files());
    assert!(matches!(state, DeviceState::Assembled(_)));
    let data = ended(state).unwrap();
    assert_eq!(data.temperature, "63.4 °C");
    assert_eq!(data.vram_total, "15.98 GB");
}

#[test]
fn card_without_sensor_fails_and_stays_failed() {
    let state = DeviceState::Discovered.locate(&Ok(vec![HwmonEntry::Other]));
    assert!(matches!(
        state,
        DeviceState::Failed(Stage::SensorLookup, TelemetryError::NotFound(_))
    ));
    let state = state.read(&device_files(), &sensor_files());
    assert!(matches!(
        state,
        DeviceState::Failed(Stage::SensorLookup, TelemetryError::NotFound(_))
    ));
    let state = state.locate(&Ok(vec![HwmonEntry::Sensor]));
    let e = ended(state).unwrap_err();
    assert_eq!(e.message(), "No hwmon directory found");
}

#[test]
fn card_whose_sensors_cannot_be_listed_fails() {
    let state = DeviceState::Discovered.locate(&Err("Permission denied".to_string()));
    let e = ended(state).unwrap_err();
    assert!(matches!(e, TelemetryError::NotFound(_)));
}

#[test]
fn card_with_a_bad_file_fails_at_reading() {
    let state = DeviceState::Discovered.locate(&Ok(vec![HwmonEntry::Sensor]));
    let state = state.read(&broken_device_files(), &sensor_files());
    assert!(matches!(state, DeviceState::Failed(Stage::Reading, TelemetryError::Io(_))));
    let state = state.read(&device_files(), &sensor_files());
    assert!(matches!(state, DeviceState::Failed(Stage::Reading, TelemetryError::Io(_))));
    assert!(ended(state).is_err());
}

#[test]
fn steps_out_of_order_change_nothing() {
    let state = DeviceState::Discovered.read(&device_files(), &sensor_files());
    assert!(matches!(state, DeviceState::Discovered));
    let state = DeviceState::SensorLocated(3).locate(&Ok(vec![HwmonEntry::Sensor]));
    assert!(matches!(state, DeviceState::SensorLocated(3)));
    let done = DeviceState::SensorLocated(0).read(&device_files(), &sensor_files());
    let done = done.read(&broken_device_files(), &sensor_files());
    let done = done.locate(&Err("gone".to_string()));
    assert!(matches!(done, DeviceState::Assembled(_)));
}

#[test]
fn outcomes_of_the_steps_feed_the_report() {
    let listings = [
        Ok(vec![HwmonEntry::Sensor]),
        Ok(vec![HwmonEntry::Other]),
        Ok(vec![HwmonEntry::Other, HwmonEntry::Sensor]),
    ];
    let mut outcomes = Vec::new();
    for (k, listing) in listings.iter().enumerate() {
        let mut state = DeviceState::Discovered;
        let outcome = loop {
            state = match state.next() {
                Step::ListSensors => DeviceState::Discovered.locate(listing),
                Step::ReadFiles(i) => {
                    let gpu = if k == 2 { broken_device_files() } else { device_files() };
                    DeviceState::SensorLocated(i).read(&gpu, &sensor_files())
                }
                Step::Done(outcome) => break outcome,
            };
        };
        outcomes.push(outcome);
    }
    let report = run(&Ok(outcomes));
    let lines: Vec<_> = report.lines.iter().map(shape).collect();
    assert_eq!(
        lines,
        vec![
            (Stream::Stdout, RECORD),
            (Stream::Stderr, "Error reading GPU data: No hwmon directory found"),
            (Stream::Stderr, "Error reading GPU data: No such file or directory (os error 2)"),
        ]
    );
    assert_eq!(report.exit_code, 0);
}
