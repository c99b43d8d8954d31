use stardew_mod_manager::locate::{
    is_game_directory, locate_installation, CandidateProbe, DirEvidence, HostOs,
};
use stardew_mod_manager::ModError;

fn no_evidence() -> DirEvidence {
    DirEvidence {
        has_known_executable: false,
        is_app_bundle: false,
        contents_binary_dir_exists: false,
        contents_binary_known: false,
        contents_binary_any_file: false,
        contents_dir_exists: false,
        contents_resources_exists: false,
    }
}

#[test]
fn empty_candidate_list_is_an_error() {
    let r = locate_installation(HostOs::Linux, &Vec::new());
    assert_eq!(r.unwrap_err(), ModError::NoCandidatePaths);
}

#[test]
fn no_winner_is_a_normal_outcome() {
    let probes = vec![CandidateProbe {
        path: "/opt/game".to_string(),
        evidence: no_evidence(),
        mods_candidates: Vec::new(),
    }];
    let info = locate_installation(HostOs::Linux, &probes).unwrap();
    assert!(!info.found);
    assert!(info.game_path.is_none());
    assert!(info.mods_path.is_none());
}

#[test]
fn first_winning_candidate_takes_priority() {
    let exe = DirEvidence { has_known_executable: true, ..no_evidence() };
    let probes = vec![
        CandidateProbe {
            path: "/none".to_string(),
            evidence: no_evidence(),
            mods_candidates: Vec::new(),
        },
        CandidateProbe {
            path: "/steam/game".to_string(),
            evidence: exe,
            mods_candidates: vec![
                ("/steam/game/Mods".to_string(), false),
                ("/steam/game/Contents/MacOS/Mods".to_string(), true),
                ("/steam/game/Contents/Resources/Mods".to_string(), true),
            ],
        },
        CandidateProbe {
            path: "/later/game".to_string(),
            evidence: exe,
            mods_candidates: Vec::new(),
        },
    ];
    let info = locate_installation(HostOs::Windows, &probes).unwrap();
    assert!(info.found);
    assert_eq!(info.game_path.as_deref(), Some("/steam/game"));
    assert_eq!(info.mods_path.as_deref(), Some("/steam/game/Contents/MacOS/Mods"));
}

#[test]
fn winner_without_existing_mods_dir() {
    let exe = DirEvidence { has_known_executable: true, ..no_evidence() };
    let probes = vec![CandidateProbe {
        path: "/g".to_string(),
        evidence: exe,
        mods_candidates: vec![("/g/Mods".to_string(), false)],
    }];
    let info = locate_installation(HostOs::Linux, &probes).unwrap();
    assert!(info.found);
    assert!(info.mods_path.is_none());
}

#[test]
fn bundle_heuristic_is_layered() {
    // A bundle wants its nested binary directory, with a known name or any file.
    let bundle_known = DirEvidence {
        is_app_bundle: true,
        contents_binary_dir_exists: true,
        contents_binary_known: true,
        ..no_evidence()
    };
    assert!(is_game_directory(HostOs::MacOs, &bundle_known));

    let bundle_any = DirEvidence {
        is_app_bundle: true,
        contents_binary_dir_exists: true,
        contents_binary_any_file: true,
        ..no_evidence()
    };
    assert!(is_game_directory(HostOs::MacOs, &bundle_any));

    let bundle_empty = DirEvidence {
        is_app_bundle: true,
        contents_binary_dir_exists: true,
        ..no_evidence()
    };
    assert!(!is_game_directory(HostOs::MacOs, &bundle_empty));

    // A plain directory may win through the nested resource directory.
    let resources = DirEvidence {
        contents_dir_exists: true,
        contents_resources_exists: true,
        ..no_evidence()
    };
    assert!(is_game_directory(HostOs::MacOs, &resources));
    // But only under the nested metadata directory.
    let loose = DirEvidence { contents_resources_exists: true, ..no_evidence() };
    assert!(!is_game_directory(HostOs::MacOs, &loose));

    // Windows and Linux want the executable directly.
    assert!(!is_game_directory(HostOs::Windows, &resources));
    assert!(!is_game_directory(HostOs::Linux, &resources));
}

#[test]
fn registry_output_yields_the_install_path_token() {
    let output = "\r\nHKEY_LOCAL_MACHINE\\SOFTWARE\\Valve\\Steam\r\n    InstallPath    REG_SZ    C:\\Steam\r\n\r\n";
    assert_eq!(
        stardew_mod_manager::locate::steam_path_from_registry_output(output).as_deref(),
        Some("C:\\Steam")
    );
}

#[test]
fn registry_output_without_the_value_yields_nothing() {
    assert!(stardew_mod_manager::locate::steam_path_from_registry_output("no such value\n").is_none());
    // The value name alone, with no data token on its line, yields nothing.
    assert!(stardew_mod_manager::locate::steam_path_from_registry_output("  InstallPath\n").is_none());
}
