use image_crunch::update::is_newer_version;

#[test]
fn test_version_comparison() {
    assert!(is_newer_version("0.2.0", "0.1.0"));
    assert!(is_newer_version("1.0.0", "0.9.9"));
    assert!(is_newer_version("0.1.1", "0.1.0"));
    assert!(!is_newer_version("0.1.0", "0.1.0"));
    assert!(!is_newer_version("0.1.0", "0.2.0"));
    assert!(!is_newer_version("0.0.9", "0.1.0"));
}

#[test]
fn missing_components_count_as_zero() {
    assert!(!is_newer_version("1.0", "1.0.0"));
    assert!(!is_newer_version("1.0.0", "1"));
    assert!(is_newer_version("1.0.1", "1"));
    assert!(!is_newer_version("1", "1.0.1"));
}

#[test]
fn components_compare_as_numbers() {
    assert!(is_newer_version("0.10.0", "0.9.0"));
    assert!(!is_newer_version("0.9.0", "0.10.0"));
    assert!(is_newer_version("+2.0", "1.9"));
}

#[test]
fn pieces_that_are_no_number_are_skipped() {
    assert!(!is_newer_version("1.x.0", "1.0"));
    assert!(is_newer_version("2.beta", "1.9"));
    assert!(!is_newer_version("", ""));
    assert!(!is_newer_version("4294967296", "0"));
    assert!(is_newer_version("4294967295", "0"));
}

use image_crunch::update::{
    no_release_info, release_status, trim_version_prefix, update_info_from_release,
    ReleaseStatus, RELEASES_URL,
};

#[test]
fn leading_v_is_trimmed() {
    assert_eq!(trim_version_prefix("v1.2.3"), "1.2.3");
    assert_eq!(trim_version_prefix("vv0.1"), "0.1");
    assert_eq!(trim_version_prefix("1.0v"), "1.0v");
    assert_eq!(trim_version_prefix("v"), "");
    assert_eq!(trim_version_prefix(""), "");
}

#[test]
fn statuses() {
    assert_eq!(release_status(200), ReleaseStatus::Found);
    assert_eq!(release_status(299), ReleaseStatus::Found);
    assert_eq!(release_status(404), ReleaseStatus::NoRelease);
    assert_eq!(release_status(500), ReleaseStatus::Failed);
    assert_eq!(release_status(301), ReleaseStatus::Failed);
}

#[test]
fn no_release_means_no_update() {
    let info = no_release_info("0.1.0");
    assert!(!info.update_available);
    assert_eq!(info.current_version, "0.1.0");
    assert_eq!(info.latest_version, "0.1.0");
    assert_eq!(info.release_url, RELEASES_URL);
    assert_eq!(info.release_notes, None);
}

#[test]
fn newer_release_is_offered() {
    let info = update_info_from_release(
        "0.1.0",
        "v0.2.0",
        "https://example.org/r/0.2.0".to_string(),
        Some("notes".to_string()),
    );
    assert!(info.update_available);
    assert_eq!(info.latest_version, "0.2.0");
    assert_eq!(info.current_version, "0.1.0");
    assert_eq!(info.release_url, "https://example.org/r/0.2.0");
    assert_eq!(info.release_notes.as_deref(), Some("notes"));
    let same = update_info_from_release("v0.2.0", "v0.2.0", String::new(), None);
    assert!(!same.update_available);
}
