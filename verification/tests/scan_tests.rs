use stardew_mod_manager::manifest::ManifestFile;
use stardew_mod_manager::scan::{scan_records, sort_mods, ScanEntry};
use stardew_mod_manager::ModInfo;

fn named(name: &str) -> ModInfo {
    ModInfo {
        name: name.to_string(),
        version: "1.0".to_string(),
        author: "A".to_string(),
        description: "D".to_string(),
        folder_name: name.to_string(),
        enabled: true,
        update_keys: Vec::new(),
    }
}

#[test]
fn ordering_ignores_tag_and_case_but_display_keeps_tag() {
    let mods = vec![named("Zeta"), named("[CP] Alpha"), named("beta")];
    let sorted = sort_mods(mods);
    let names: Vec<&str> = sorted.iter().map(|m| m.name.as_str()).collect();
    assert_eq!(names, vec!["[CP] Alpha", "beta", "Zeta"]);
}

#[test]
fn equal_keys_both_kept() {
    let mods = vec![named("alpha"), named("Beta"), named("ALPHA")];
    let sorted = sort_mods(mods);
    assert_eq!(sorted.len(), 3);
    assert_eq!(sorted[2].name, "Beta");
    assert!(sorted[0].name.eq_ignore_ascii_case("alpha"));
    assert!(sorted[1].name.eq_ignore_ascii_case("alpha"));
}

#[test]
fn empty_input_sorts_to_empty() {
    assert!(sort_mods(Vec::new()).is_empty());
}

fn entry(folder: &str, manifest: ManifestFile, files: Vec<&str>) -> ScanEntry {
    ScanEntry {
        folder_name: folder.to_string(),
        manifest,
        file_names: files.into_iter().map(|f| f.to_string()).collect(),
    }
}

#[test]
fn scan_collects_and_orders_records() {
    let entries = vec![
        entry(
            "ZetaFolder",
            ManifestFile::Text("{\"Name\": \"Zeta\", \"Version\": \"1.0\"}".to_string()),
            vec![],
        ),
        entry(".git", ManifestFile::Missing, vec!["hooks.dll"]),
        entry("AlphaFolder", ManifestFile::Text("{\"Name\": \"[CP] Alpha\"}".to_string()), vec![]),
        entry("Loose", ManifestFile::Missing, vec!["Loose.dll"]),
        entry("JustFiles", ManifestFile::Missing, vec!["readme.txt"]),
        entry("Broken", ManifestFile::Unreadable, vec![]),
    ];
    let records = scan_records(entries);
    let names: Vec<&str> = records.iter().map(|m| m.name.as_str()).collect();
    assert_eq!(names, vec!["[CP] Alpha", "Loose", "Zeta"]);
    assert_eq!(records[1].version, "Unknown");
    assert_eq!(records[2].folder_name, "ZetaFolder");
}
