//! The work on one card, step by step: found, sensor located, record
//! assembled; or failed, at the step that failed.

use vstd::prelude::*;
use vstd::string::*;
use crate::discovery::{find_hwmon_dir, first_sensor, lemma_first_sensor, located, HwmonEntry};
use crate::errors::{Failure, TelemetryError};
use crate::reader::{
    field_texts, gathered, lemma_first_failure_exists, read_gpu_data, record_pairs, DeviceFiles,
    GpuData, Record, SensorFiles,
};
use crate::report::{device_line, Stream};
use crate::serialize::json_object;

verus! {

/// The step at which the work on a card failed.
#[derive(Debug, Copy, Clone, Eq, PartialEq, Structural)]
pub enum Stage {
    /// The search for the sensor directory.
    SensorLookup,
    /// The reading of the six files.
    Reading,
}

/// The value of a [`DeviceState`].
pub enum Progress {
    Discovered,
    SensorLocated(int),
    Assembled(Record),
    Failed(Stage, Failure),
}

impl Progress {
    /// The state after the sensor directories of the card were listed: only a
    /// card that was just found moves on.
    pub open spec fn after_listing(self, listing: Result<Vec<HwmonEntry>, String>) -> Progress {
        match self {
            Progress::Discovered => match located(listing) {
                Ok(i) => Progress::SensorLocated(i),
                Err(f) => Progress::Failed(Stage::SensorLookup, f),
            },
            _ => self,
        }
    }

    /// The state after the six files were read: only a card whose sensor
    /// directory is known moves on.
    pub open spec fn after_reading(self, gpu: DeviceFiles, hwmon: SensorFiles) -> Progress {
        match self {
            Progress::SensorLocated(_) => match gathered(gpu, hwmon) {
                Ok(r) => Progress::Assembled(r),
                Err(f) => Progress::Failed(Stage::Reading, f),
            },
            _ => self,
        }
    }

    /// What is to be done next in this state.
    pub open spec fn next_step(self) -> Task {
        match self {
            Progress::Discovered => Task::ListSensors,
            Progress::SensorLocated(i) => Task::ReadFiles(i),
            Progress::Assembled(r) => Task::Done(Ok(r)),
            Progress::Failed(_, f) => Task::Done(Err(f)),
        }
    }

    /// What the work on the card gave, once it has ended.
    pub open spec fn outcome(self) -> Option<Result<Record, Failure>> {
        match self {
            Progress::Assembled(r) => Some(Ok(r)),
            Progress::Failed(_, f) => Some(Err(f)),
            _ => None,
        }
    }
}

/// The value of a [`Step`].
pub enum Task {
    ListSensors,
    ReadFiles(int),
    Done(Result<Record, Failure>),
}

/// What is to be done next for a card.
#[derive(Debug)]
pub enum Step {
    /// List the sensor directories of the card, and hand the listing to
    /// [`DeviceState::locate`].
    ListSensors,
    /// Read the six files, those of the sensors from the directory at this
    /// place of the listing, and hand them to [`DeviceState::read`].
    ReadFiles(usize),
    /// Nothing: the work has ended with this record or this error.
    Done(Result<GpuData, TelemetryError>),
}

impl View for Step {
    type V = Task;

    open spec fn view(&self) -> Task {
        match self {
            Step::ListSensors => Task::ListSensors,
            Step::ReadFiles(i) => Task::ReadFiles(*i as int),
            Step::Done(outcome) => Task::Done(outcome_view(*outcome)),
        }
    }
}

/// How far the work on one card has come.
#[derive(Debug)]
pub enum DeviceState {
    /// The card was found; nothing is known of its sensors.
    Discovered,
    /// The sensor directory is the one at this place of the listing.
    SensorLocated(usize),
    /// The six readings were taken and formatted.
    Assembled(GpuData),
    /// A step failed: there is no record, and there will be none.
    Failed(Stage, TelemetryError),
}

impl View for DeviceState {
    type V = Progress;

    open spec fn view(&self) -> Progress {
        match self {
            DeviceState::Discovered => Progress::Discovered,
            DeviceState::SensorLocated(i) => Progress::SensorLocated(*i as int),
            DeviceState::Assembled(data) => Progress::Assembled(data@),
            DeviceState::Failed(stage, e) => Progress::Failed(*stage, e@),
        }
    }
}

/// What the work on one card gave, as a value.
pub open spec fn outcome_view(outcome: Result<GpuData, TelemetryError>) -> Result<Record, Failure> {
    match outcome {
        Ok(data) => Ok(data@),
        Err(e) => Err(e@),
    }
}

impl DeviceState {
    /// Takes the listing of the sensor directories of the card.
    pub fn locate(self, listing: &Result<Vec<HwmonEntry>, String>) -> (next: DeviceState)
        ensures
            next@ == self@.after_listing(*listing),
    {
        match self {
            DeviceState::Discovered => match find_hwmon_dir(listing) {
                Ok(i) => DeviceState::SensorLocated(i),
                Err(e) => DeviceState::Failed(Stage::SensorLookup, e),
            },
            other => other,
        }
    }

    /// Takes what was found of the six files of the card.
    pub fn read(self, gpu: &DeviceFiles, hwmon: &SensorFiles) -> (next: DeviceState)
        ensures
            next@ == self@.after_reading(*gpu, *hwmon),
    {
        match self {
            DeviceState::SensorLocated(_) => match read_gpu_data(gpu, hwmon) {
                Ok(data) => DeviceState::Assembled(data),
                Err(e) => DeviceState::Failed(Stage::Reading, e),
            },
            other => other,
        }
    }

    /// What is to be done next for the card. A card that has ended gives up
    /// its record or its error.
    pub fn next(self) -> (step: Step)
        ensures
            step@ == self@.next_step(),
    {
        match self {
            DeviceState::Discovered => Step::ListSensors,
            DeviceState::SensorLocated(i) => Step::ReadFiles(i),
            DeviceState::Assembled(data) => Step::Done(Ok(data)),
            DeviceState::Failed(_, e) => Step::Done(Err(e)),
        }
    }
}

/// The work on a card ends after the two steps, whatever was found: with a
/// record, or with an error and no record.
pub proof fn lemma_two_steps_end(
    listing: Result<Vec<HwmonEntry>, String>,
    gpu: DeviceFiles,
    hwmon: SensorFiles,
)
    ensures
        Progress::Discovered.after_listing(listing).after_reading(gpu, hwmon).outcome() is Some,
{
}

/// A failed card stays failed and an assembled record stays as it is: no step
/// turns an error into a record, or a record into another.
pub proof fn lemma_end_states_stay(
    state: Progress,
    listing: Result<Vec<HwmonEntry>, String>,
    gpu: DeviceFiles,
    hwmon: SensorFiles,
)
    requires
        state.outcome() is Some,
    ensures
        state.after_listing(listing) == state,
        state.after_reading(gpu, hwmon) == state,
{
}

/// Where no entry of the sensor listing holds a temperature file, the search
/// fails with `NotFound`, and the card ends without a record.
pub proof fn lemma_no_sensor_no_record(entries: Vec<HwmonEntry>, gpu: DeviceFiles, hwmon: SensorFiles)
    requires
        forall|j: int| 0 <= j < entries@.len() ==> entries@[j] != HwmonEntry::Sensor,
    ensures
        located(Ok(entries)) == Err::<int, Failure>(
            Failure::NotFound("No hwmon directory found"@),
        ),
        Progress::Discovered.after_listing(Ok(entries)).after_reading(gpu, hwmon).outcome()
            == Some(
            Err::<Record, Failure>(Failure::NotFound("No hwmon directory found"@)),
        ),
{
    if first_sensor(entries@) is Some {
        let i = first_sensor(entries@)->0;
        lemma_first_sensor(entries@, i);
    }
}

/// Where one of the six files is missing or holds no number, whichever it
/// is, the card ends with an error and without a record, and its line is an
/// error line: no field of the card is printed.
pub proof fn lemma_one_bad_file_no_record(sensor: int, gpu: DeviceFiles, hwmon: SensorFiles, k: int)
    requires
        0 <= k < 6,
        field_texts(gpu, hwmon)[k] is Err,
    ensures
        gathered(gpu, hwmon) is Err,
        Progress::SensorLocated(sensor).after_reading(gpu, hwmon).outcome() == Some(
            gathered(gpu, hwmon),
        ),
        device_line(gathered(gpu, hwmon)) == (
            Stream::Stderr,
            "Error reading GPU data: "@ + gathered(gpu, hwmon)->Err_0.text(),
        ),
{
    lemma_first_failure_exists(field_texts(gpu, hwmon));
}

/// Where each of the six files holds a number, the card ends with its record,
/// and its line is the JSON object of the record.
pub proof fn lemma_six_good_files_one_record(sensor: int, gpu: DeviceFiles, hwmon: SensorFiles)
    requires
        forall|k: int| 0 <= k < 6 ==> (#[trigger] field_texts(gpu, hwmon)[k]) is Ok,
    ensures
        gathered(gpu, hwmon) is Ok,
        Progress::SensorLocated(sensor).after_reading(gpu, hwmon).outcome() == Some(
            gathered(gpu, hwmon),
        ),
        device_line(gathered(gpu, hwmon)) == (
            Stream::Stdout,
            json_object(record_pairs(gathered(gpu, hwmon)->Ok_0)),
        ),
{
    lemma_first_failure_exists(field_texts(gpu, hwmon));
}

} // verus!
