use stardew_mod_manager::version::version_compare;

#[test]
fn newer_minor_version_detected() {
    assert!(version_compare("1.2.0", "1.3.0"));
}

#[test]
fn numeric_segments_not_compared_textually() {
    assert!(!version_compare("1.10", "1.9"));
}

#[test]
fn trailing_zero_padding_is_equivalent() {
    assert!(!version_compare("2.0", "2.0.0"));
    assert!(!version_compare("2.0.0", "2.0"));
}

#[test]
fn equal_strings_short_circuit() {
    assert!(!version_compare("abc", "abc"));
}

#[test]
fn locally_ahead_never_reports_update() {
    assert!(!version_compare("2.0", "1.9.9"));
    assert!(!version_compare("1.2.3", "1.2.2"));
    assert!(!version_compare("3.0.0", "3.0.0"));
}

#[test]
fn major_version_update_detected() {
    assert!(version_compare("1.0.0", "2.0.0"));
    assert!(version_compare("0.9", "1.0"));
}

#[test]
fn unparsable_segment_counts_as_zero() {
    // "x" reads as 0, so "1.x.2" equals "1.0.2".
    assert!(!version_compare("1.x.2", "1.0.2"));
    assert!(version_compare("1.x.2", "1.0.3"));
}

#[test]
fn oversized_segment_counts_as_zero() {
    // A segment beyond the segment width reads as 0.
    assert!(version_compare("1.99999999999", "1.1"));
}

#[test]
fn empty_strings_compare_equal() {
    assert!(!version_compare("", ""));
    assert!(!version_compare("0", ""));
}
