//! Which entries of the device-class directory are AMD cards, and which
//! sensor directory of a card holds its temperature.

use vstd::prelude::*;
use vstd::string::*;
use crate::errors::{Failure, GpuInfoError, TelemetryError};
use crate::text::{same_text, starts_with, trim, trimmed};

verus! {

/// The device-class directory whose entries are the graphics devices.
pub const DRM_CLASS_DIRECTORY: &'static str = "/sys/class/drm";

/// What the name of a graphics card entry begins with.
pub const CARD_PREFIX: &'static str = "card";

/// The path of the vendor file, from the entry of a device.
pub const VENDOR_FILE: &'static str = "device/vendor";

/// The vendor identifier of AMD, as the vendor file writes it.
pub const AMD_VENDOR_ID: &'static str = "0x1002";

/// The path of the directory that holds the sensor directories, from the
/// entry of a device.
pub const HWMON_DIRECTORY: &'static str = "device/hwmon";

/// The name of the file that a sensor directory must hold.
pub const TEMPERATURE_FILE: &'static str = "temp1_input";

/// One entry of the device-class directory, as it was found.
#[derive(Debug)]
pub struct DrmEntry {
    /// The name of the entry; none where it is not valid Unicode.
    pub name: Option<String>,
    /// The content of the vendor file of the entry; none where it is missing
    /// or cannot be read.
    pub vendor: Option<String>,
}

/// One entry of the sensor directory of a card, as it was found.
#[derive(Debug, Copy, Clone, Eq, PartialEq, Structural)]
pub enum HwmonEntry {
    /// The entry could not be read: the listing ends here.
    Unreadable,
    /// The entry holds no temperature file.
    Other,
    /// The entry holds a temperature file.
    Sensor,
}

/// Whether `name` is the name of a graphics card entry.
pub open spec fn is_card_name(name: Seq<char>) -> bool {
    CARD_PREFIX@.is_prefix_of(name)
}

/// Whether `content`, the text of a vendor file, names AMD: without the white
/// space around it, it is `0x1002`.
pub open spec fn is_amd_vendor(content: Seq<char>) -> bool {
    trimmed(content) == AMD_VENDOR_ID@
}

/// Whether `entry` is an AMD card: its name is that of a card, and its vendor
/// file was read and names AMD.
pub open spec fn is_amd_card(entry: DrmEntry) -> bool {
    &&& entry.name matches Some(name) && is_card_name(name@)
    &&& entry.vendor matches Some(content) && is_amd_vendor(content@)
}

/// Whether `name` is the name of a graphics card entry.
pub fn names_card(name: &str) -> (b: bool)
    ensures
        b == is_card_name(name@),
{
    starts_with(name, CARD_PREFIX)
}

/// Whether `content`, the text of a vendor file, names AMD.
pub fn names_amd(content: &str) -> (b: bool)
    ensures
        b == is_amd_vendor(content@),
{
    same_text(trim(content), AMD_VENDOR_ID)
}

/// Whether `entry` is an AMD card.
pub fn is_amd_gpu(entry: &DrmEntry) -> (b: bool)
    ensures
        b == is_amd_card(*entry),
{
    match &entry.name {
        None => false,
        Some(name) => {
            if !names_card(name.as_str()) {
                false
            } else {
                match &entry.vendor {
                    None => false,
                    Some(content) => names_amd(content.as_str()),
                }
            }
        },
    }
}

/// Whether `gpus` lists, in rising order, exactly the places in `entries` of
/// the AMD cards.
pub open spec fn lists_amd_cards(gpus: Seq<usize>, entries: Seq<DrmEntry>) -> bool {
    &&& forall|k: int| 0 <= k < gpus.len() ==> (#[trigger] gpus[k]) < entries.len() && is_amd_card(entries[gpus[k] as int])
    &&& forall|j: int, k: int| 0 <= j < k < gpus.len() ==> gpus[j] < gpus[k]
    &&& forall|i: int| 0 <= i < entries.len() && is_amd_card(#[trigger] entries[i]) ==> exists|k: int| 0 <= k < gpus.len() && gpus[k] == i
}

/// An entry is listed exactly where it is an AMD card: a card whose vendor
/// file names AMD is in the list, and an entry with any other vendor text, or
/// with none, is not.
pub proof fn lemma_listed_iff_amd(gpus: Seq<usize>, entries: Seq<DrmEntry>, i: int)
    requires
        lists_amd_cards(gpus, entries),
        0 <= i < entries.len(),
    ensures
        (exists|k: int| 0 <= k < gpus.len() && gpus[k] == i) <==> is_amd_card(entries[i]),
        is_amd_card(entries[i]) <==> {
            &&& entries[i].name matches Some(name) && CARD_PREFIX@.is_prefix_of(name@)
            &&& entries[i].vendor matches Some(content) && trimmed(content@) == AMD_VENDOR_ID@
        },
{
    if exists|k: int| 0 <= k < gpus.len() && gpus[k] == i {
        let k = choose|k: int| 0 <= k < gpus.len() && gpus[k] == i;
        assert(is_amd_card(entries[gpus[k] as int]));
    }
}

/// Detects AMD GPUs among the entries of the device-class directory: the
/// places of the cards in the listing, in its order. Fails only where the
/// directory itself could not be listed.
pub fn detect_amd_gpus(listing: &Result<Vec<DrmEntry>, String>) -> (r: Result<Vec<usize>, TelemetryError>)
    ensures
        match *listing {
            Ok(entries) => r matches Ok(gpus) && lists_amd_cards(gpus@, entries@),
            Err(description) => r matches Err(e) && e@ == Failure::Io(description@),
        },
{
    match listing {
        Err(description) => Err(TelemetryError::Io(description.clone())),
        Ok(entries) => {
            let mut gpus: Vec<usize> = Vec::new();
            let mut i: usize = 0;
            while i < entries.len()
                invariant
                    i <= entries.len(),
                    forall|k: int| 0 <= k < gpus@.len() ==> (#[trigger] gpus@[k]) < i && is_amd_card(entries@[gpus@[k] as int]),
                    forall|j: int, k: int| 0 <= j < k < gpus@.len() ==> gpus@[j] < gpus@[k],
                    forall|m: int| 0 <= m < i && is_amd_card(#[trigger] entries@[m]) ==> exists|k: int| 0 <= k < gpus@.len() && gpus@[k] == m,
                decreases entries.len() - i,
            {
                let ghost before = gpus@;
                if is_amd_gpu(&entries[i]) {
                    gpus.push(i);
                }
                proof {
                    assert forall|m: int| 0 <= m < i + 1 && is_amd_card(#[trigger] entries@[m]) implies exists|k: int| 0 <= k < gpus@.len() && gpus@[k] == m by {
                        if m < i {
                            let k = choose|k: int| 0 <= k < before.len() && before[k] == m;
                            assert(gpus@[k] == m);
                        } else {
                            assert(gpus@[gpus@.len() - 1] == m);
                        }
                    }
                }
                i += 1;
            }
            Ok(gpus)
        },
    }
}

/// The place of the first entry of `entries` that holds a temperature file,
/// where the listing reaches one: no unreadable entry comes before it.
pub open spec fn first_sensor(entries: Seq<HwmonEntry>) -> Option<int>
    decreases entries.len(),
{
    if entries.len() == 0 {
        None
    } else {
        match entries[0] {
            HwmonEntry::Sensor => Some(0),
            HwmonEntry::Unreadable => None,
            HwmonEntry::Other => match first_sensor(entries.drop_first()) {
                Some(i) => Some(i + 1),
                None => None,
            },
        }
    }
}

/// What [`find_hwmon_dir`] returns: the place of the first sensor directory,
/// or that none was found, also where the directory could not be listed.
pub open spec fn located(listing: Result<Vec<HwmonEntry>, String>) -> Result<int, Failure> {
    match listing {
        Ok(entries) => match first_sensor(entries@) {
            Some(i) => Ok(i),
            None => Err(Failure::NotFound("No hwmon directory found"@)),
        },
        Err(_) => Err(Failure::NotFound("No hwmon directory found"@)),
    }
}

/// The first sensor lies at `i` exactly where the entry at `i` holds a
/// temperature file and every entry before it was read and holds none.
pub proof fn lemma_first_sensor(entries: Seq<HwmonEntry>, i: int)
    ensures
        first_sensor(entries) == Some(i) <==> (0 <= i < entries.len() && entries[i]
            == HwmonEntry::Sensor && forall|j: int|
            0 <= j < i ==> #[trigger] entries[j] == HwmonEntry::Other),
    decreases entries.len(),
{
    if entries.len() > 0 {
        let rest = entries.drop_first();
        lemma_first_sensor(rest, i - 1);
        if entries[0] == HwmonEntry::Other {
            if first_sensor(rest) == Some(i - 1) {
                assert forall|j: int| 0 <= j < i implies #[trigger] entries[j]
                    == HwmonEntry::Other by {
                    if j > 0 {
                        assert(rest[j - 1] == entries[j]);
                    }
                }
            }
            if 0 < i < entries.len() && entries[i] == HwmonEntry::Sensor && (forall|j: int|
                0 <= j < i ==> #[trigger] entries[j] == HwmonEntry::Other) {
                assert forall|j: int| 0 <= j < i - 1 implies #[trigger] rest[j]
                    == HwmonEntry::Other by {
                    assert(rest[j] == entries[j + 1]);
                }
            }
        } else if i != 0 {
            if 0 < i && (forall|j: int| 0 <= j < i ==> #[trigger] entries[j] == HwmonEntry::Other) {
                assert(entries[0] == HwmonEntry::Other);
            }
        }
    }
}

/// Finds the hwmon directory containing temperature files for a GPU: the
/// place, in the listing of the sensor directories of the card, of the first
/// that holds a temperature file.
pub fn find_hwmon_dir(listing: &Result<Vec<HwmonEntry>, String>) -> (r: Result<usize, TelemetryError>)
    ensures
        match r {
            Ok(i) => located(*listing) == Ok::<int, Failure>(i as int),
            Err(e) => located(*listing) == Err::<int, Failure>(e@),
        },
{
    match listing {
        Ok(entries) => {
            let mut i: usize = 0;
            while i < entries.len()
                invariant
                    i <= entries.len(),
                    *listing == Ok::<Vec<HwmonEntry>, String>(*entries),
                    forall|j: int| 0 <= j < i ==> #[trigger] entries@[j] == HwmonEntry::Other,
                decreases entries.len() - i,
            {
                match entries[i] {
                    HwmonEntry::Sensor => {
                        proof {
                            lemma_first_sensor(entries@, i as int);
                        }
                        return Ok(i);
                    },
                    HwmonEntry::Unreadable => {
                        proof {
                            lemma_no_sensor_before(entries@, i as int);
                        }
                        return Err(
                            TelemetryError::NotFound(
                                GpuInfoError(String::from_str("No hwmon directory found")),
                            ),
                        );
                    },
                    HwmonEntry::Other => {},
                }
                i += 1;
            }
            proof {
                lemma_no_sensor_before(entries@, i as int);
            }
            Err(
                TelemetryError::NotFound(GpuInfoError(String::from_str("No hwmon directory found"))),
            )
        },
        Err(_) => Err(
            TelemetryError::NotFound(GpuInfoError(String::from_str("No hwmon directory found"))),
        ),
    }
}

/// Where the entries before `end` hold no temperature file and the listing
/// ends at `end`, by its length or by an unreadable entry, no sensor is found.
pub proof fn lemma_no_sensor_before(entries: Seq<HwmonEntry>, end: int)
    requires
        0 <= end <= entries.len(),
        forall|j: int| 0 <= j < end ==> #[trigger] entries[j] == HwmonEntry::Other,
        end == entries.len() || entries[end] == HwmonEntry::Unreadable,
    ensures
        first_sensor(entries) is None,
    decreases end,
{
    if end > 0 {
        let rest = entries.drop_first();
        assert(entries[0] == HwmonEntry::Other);
        assert forall|j: int| 0 <= j < end - 1 implies #[trigger] rest[j] == HwmonEntry::Other by {
            assert(rest[j] == entries[j + 1]);
        }
        lemma_no_sensor_before(rest, end - 1);
    }
}

} // verus!
