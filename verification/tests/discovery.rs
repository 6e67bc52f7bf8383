use amd_gpu_info::discovery::{
    detect_amd_gpus, find_hwmon_dir, is_amd_gpu, names_amd, names_card, DrmEntry, HwmonEntry,
    AMD_VENDOR_ID, CARD_PREFIX, DRM_CLASS_DIRECTORY, HWMON_DIRECTORY, TEMPERATURE_FILE, VENDOR_FILE,
};
use amd_gpu_info::reader::Metric;
use amd_gpu_info::errors::TelemetryError;

fn entry(name: &str, vendor: Option<&str>) -> DrmEntry {
    DrmEntry { name: Some(name.to_string()), vendor: vendor.map(|v| v.to_string()) }
}

#[test]
fn card_with_the_amd_vendor_is_included() {
    assert!(is_amd_gpu(&entry("card0", Some("0x1002\n"))));
    assert!(is_amd_gpu(&entry("card0", Some("0x1002"))));
    assert!(is_amd_gpu(&entry("card1", Some("  0x1002 \t\r\n"))));
    assert!(is_amd_gpu(&entry("card", Some("0x1002\n"))));
    assert!(is_amd_gpu(&entry("card0-DP-1", Some("0x1002\n"))));
}

#[test]
fn card_with_another_vendor_is_excluded() {
    for vendor in ["0x10de\n", "0x8086\n", "", "\n", "1002", "0x1002a", "0x 1002", "0X1002",
        "0x1002\n0x1002", "0x01002", "x1002", "0x100"]
    {
        assert!(!is_amd_gpu(&entry("card0", Some(vendor))), "{:?}", vendor);
    }
}

#[test]
fn card_without_a_readable_vendor_file_is_excluded() {
    assert!(!is_amd_gpu(&entry("card0", None)));
}

#[test]
fn entry_that_is_no_card_is_excluded() {
    assert!(!is_amd_gpu(&entry("renderD128", Some("0x1002\n"))));
    assert!(!is_amd_gpu(&entry("version", Some("0x1002\n"))));
    assert!(!is_amd_gpu(&entry("Card0", Some("0x1002\n"))));
    assert!(!is_amd_gpu(&entry("car", Some("0x1002\n"))));
    assert!(!is_amd_gpu(&entry("", Some("0x1002\n"))));
    assert!(!is_amd_gpu(&DrmEntry { name: None, vendor: Some("0x1002\n".to_string()) }));
    assert!(!is_amd_gpu(&DrmEntry { name: None, vendor: None }));
}

#[test]
fn detection_keeps_the_order_of_the_listing() {
    let listing = Ok(vec![
        entry("card1", Some("0x1002\n")),
        entry("renderD128", Some("0x1002\n")),
        entry("card0", Some("0x10de\n")),
        entry("card2", None),
        entry("card3", Some("0x1002")),
        entry("version", None),
        entry("card0-HDMI-A-1", Some(" 0x1002 ")),
    ]);
    assert_eq!(detect_amd_gpus(&listing).unwrap(), vec![0, 4, 6]);
}

#[test]
fn detection_of_nothing_is_no_error() {
    assert_eq!(detect_amd_gpus(&Ok(vec![])).unwrap(), Vec::<usize>::new());
    let listing = Ok(vec![entry("card0", Some("0x8086\n")), entry("card1", None)]);
    assert_eq!(detect_amd_gpus(&listing).unwrap(), Vec::<usize>::new());
}

#[test]
fn detection_fails_where_the_directory_cannot_be_listed() {
    let listing = Err("Permission denied (os error 13)".to_string());
    let e = detect_amd_gpus(&listing).unwrap_err();
    assert!(matches!(e, TelemetryError::Io(_)));
    assert_eq!(e.message(), "Permission denied (os error 13)");
}

#[test]
fn first_directory_with_a_temperature_file_is_the_sensor() {
    assert_eq!(find_hwmon_dir(&Ok(vec![HwmonEntry::Sensor])).unwrap(), 0);
    assert_eq!(
        find_hwmon_dir(&Ok(vec![HwmonEntry::Other, HwmonEntry::Other, HwmonEntry::Sensor]))
            .unwrap(),
        2
    );
    assert_eq!(
        find_hwmon_dir(&Ok(vec![HwmonEntry::Other, HwmonEntry::Sensor, HwmonEntry::Sensor]))
            .unwrap(),
        1
    );
    assert_eq!(
        find_hwmon_dir(&Ok(vec![HwmonEntry::Sensor, HwmonEntry::Unreadable])).unwrap(),
        0
    );
}

#[test]
fn no_directory_with_a_temperature_file_is_not_found() {
    for listing in [
        Ok(vec![]),
        Ok(vec![HwmonEntry::Other]),
        Ok(vec![HwmonEntry::Other, HwmonEntry::Other]),
        Ok(vec![HwmonEntry::Unreadable]),
        Ok(vec![HwmonEntry::Other, HwmonEntry::Unreadable, HwmonEntry::Sensor]),
        Err("No such file or directory (os error 2)".to_string()),
    ] {
        let e = find_hwmon_dir(&listing).unwrap_err();
        assert!(matches!(e, TelemetryError::NotFound(_)));
        assert_eq!(e.message(), "No hwmon directory found");
    }
}

#[test]
fn fixed_paths_and_names() {
    assert_eq!(DRM_CLASS_DIRECTORY, "/sys/class/drm");
    assert_eq!(CARD_PREFIX, "card");
    assert_eq!(VENDOR_FILE, "device/vendor");
    assert_eq!(AMD_VENDOR_ID, "0x1002");
    assert_eq!(HWMON_DIRECTORY, "device/hwmon");
    assert_eq!(TEMPERATURE_FILE, "temp1_input");
    assert_eq!(TEMPERATURE_FILE, Metric::Temperature.relative_path());
}

#[test]
fn names_are_told_apart() {
    assert!(names_card("card0"));
    assert!(!names_card("renderD128"));
    assert!(names_amd("0x1002\n"));
    assert!(names_amd(" 0x1002"));
    assert!(!names_amd("0x10de\n"));
    assert!(!names_amd(""));
}
