use stardew_mod_manager::replace::{
    is_dir_entry, is_safe_entry_path, replace_start, replace_step, ReplaceAction, ReplaceEvent,
    ReplaceState,
};
use stardew_mod_manager::ModError;

#[test]
fn failed_download_halts_before_any_backup() {
    let (state, action) = replace_start();
    assert_eq!(action, ReplaceAction::FetchArchive);
    let (state, action) = replace_step(state, ReplaceEvent::Status(500));
    assert_eq!(state, ReplaceState::Failed(ModError::DownloadFailed));
    assert_eq!(action, ReplaceAction::Halt);
    assert_ne!(action, ReplaceAction::BackupExisting);
}

#[test]
fn network_failure_is_a_download_failure() {
    let (state, _) = replace_start();
    let (state, action) = replace_step(state, ReplaceEvent::NetFailed);
    assert_eq!(state, ReplaceState::Failed(ModError::DownloadFailed));
    assert_eq!(action, ReplaceAction::Halt);
}

#[test]
fn successful_replacement_runs_every_step_in_order() {
    let (state, action) = replace_start();
    assert_eq!((state, action), (ReplaceState::Fetching, ReplaceAction::FetchArchive));
    let (state, action) = replace_step(state, ReplaceEvent::Status(200));
    assert_eq!((state, action), (ReplaceState::Saving, ReplaceAction::SaveArchive));
    let (state, action) = replace_step(state, ReplaceEvent::Saved);
    assert_eq!((state, action), (ReplaceState::BackingUp, ReplaceAction::BackupExisting));
    let (state, action) = replace_step(state, ReplaceEvent::BackupReady);
    assert_eq!((state, action), (ReplaceState::Extracting, ReplaceAction::ExtractArchive));
    let (state, action) = replace_step(state, ReplaceEvent::Extracted);
    assert_eq!((state, action), (ReplaceState::CleaningUp, ReplaceAction::Cleanup));
    let (state, action) = replace_step(state, ReplaceEvent::CleanedUp);
    assert_eq!((state, action), (ReplaceState::Done, ReplaceAction::Halt));
}

#[test]
fn failed_extraction_halts_with_io_error() {
    let (state, _) = replace_step(ReplaceState::BackingUp, ReplaceEvent::BackupReady);
    let (state, action) = replace_step(state, ReplaceEvent::ExtractFailed);
    assert_eq!(state, ReplaceState::Failed(ModError::IoError));
    assert_eq!(action, ReplaceAction::Halt);
}

#[test]
fn entry_paths_that_stay_inside_are_safe() {
    assert!(is_safe_entry_path("a/b.txt"));
    assert!(is_safe_entry_path("mod/assets/sprite.png"));
    assert!(is_safe_entry_path("a/../b"));
    assert!(is_safe_entry_path("a/./b"));
    assert!(is_safe_entry_path("a//b"));
    assert!(is_safe_entry_path("dir/"));
    assert!(is_safe_entry_path(""));
}

#[test]
fn escaping_entry_paths_are_skipped() {
    assert!(!is_safe_entry_path("../x"));
    assert!(!is_safe_entry_path("a/../../x"));
    assert!(!is_safe_entry_path("/etc/passwd"));
    assert!(!is_safe_entry_path("a/..\u{0}/b"));
    assert!(!is_safe_entry_path(".."));
}

#[test]
fn windows_style_escapes_are_skipped_too() {
    assert!(!is_safe_entry_path("..\\evil"));
    assert!(!is_safe_entry_path("a/..\\..\\b"));
    assert!(!is_safe_entry_path("C:\\evil"));
    assert!(!is_safe_entry_path("C:evil"));
    assert!(!is_safe_entry_path("\\server/share"));
    // Both separator conventions descend, so a mixed path that stays inside
    // is still extracted, and a colon after the first separator is no drive.
    assert!(is_safe_entry_path("a\\b"));
    assert!(is_safe_entry_path("a\\..\\b"));
    assert!(is_safe_entry_path("a/b:c"));
}

#[test]
fn directory_entries_end_with_a_separator() {
    assert!(is_dir_entry("a/"));
    assert!(is_dir_entry("a/b/"));
    assert!(!is_dir_entry("a/b"));
    assert!(!is_dir_entry(""));
}

#[test]
fn failed_archive_save_is_a_download_failure() {
    let (state, _) = replace_step(ReplaceState::Fetching, ReplaceEvent::Status(200));
    let (state, action) = replace_step(state, ReplaceEvent::SaveFailed);
    assert_eq!(state, ReplaceState::Failed(ModError::DownloadFailed));
    assert_eq!(action, ReplaceAction::Halt);
}
