use stardew_mod_manager::update::{
    classify_update_key, github_api_url, github_result_from_response, has_api_key,
    nexus_api_url, nexus_manual_check, nexus_page_url, nexus_result_from_response,
    plan_update_key, resolve_update_check, KeyPlan, UpdateKey,
};
use stardew_mod_manager::{AppSettings, ModError, UpdateInfo};

#[test]
fn keys_classified_by_prefix_case_insensitively() {
    assert!(matches!(classify_update_key("Nexus:2400"), UpdateKey::Nexus(id) if id == "2400"));
    assert!(matches!(classify_update_key("NEXUS: 123 "), UpdateKey::Nexus(id) if id == "123"));
    assert!(matches!(classify_update_key("gitHub:x/y"), UpdateKey::Github(r) if r == "x/y"));
    assert!(matches!(classify_update_key("GitHub: owner/repo"), UpdateKey::Github(r) if r == "owner/repo"));
    assert!(matches!(classify_update_key("curse:99"), UpdateKey::Unsupported));
    assert!(matches!(classify_update_key("nexus"), UpdateKey::Unsupported));
    assert!(matches!(classify_update_key(""), UpdateKey::Unsupported));
}

#[test]
fn endpoint_urls_built_exactly() {
    assert_eq!(nexus_page_url("2400"), "https://www.nexusmods.com/stardewvalley/mods/2400");
    assert_eq!(nexus_api_url("2400"), "https://api.nexusmods.com/v1/games/stardewvalley/mods/2400");
    assert_eq!(github_api_url("x/y"), "https://api.github.com/repos/x/y/releases/latest");
}

#[test]
fn manual_check_without_credential() {
    let r = nexus_manual_check("77", "1.0.0");
    assert_eq!(r.current_version, "1.0.0");
    assert_eq!(r.latest_version, "Manual check");
    assert!(!r.update_available);
    assert_eq!(r.download_url.as_deref(), Some("https://www.nexusmods.com/stardewvalley/mods/77"));
}

#[test]
fn credential_detection() {
    assert!(!has_api_key(&AppSettings { nexus_api_key: None }));
    assert!(!has_api_key(&AppSettings { nexus_api_key: Some("   ".to_string()) }));
    assert!(has_api_key(&AppSettings { nexus_api_key: Some("k".to_string()) }));
}

#[test]
fn nexus_response_statuses() {
    let none: Option<String> = None;
    assert_eq!(nexus_result_from_response("1", "1.0", 401, &none).unwrap_err(), ModError::InvalidCredential);
    assert_eq!(nexus_result_from_response("1", "1.0", 404, &none).unwrap_err(), ModError::NotFound);
    assert_eq!(nexus_result_from_response("1", "1.0", 500, &none).unwrap_err(), ModError::RemoteError);
    assert_eq!(nexus_result_from_response("1", "1.0", 200, &none).unwrap_err(), ModError::ParseError);
}

#[test]
fn nexus_success_compares_versions() {
    let body = Some("2.0.0".to_string());
    let u = nexus_result_from_response("2400", "1.0.0", 200, &body).unwrap();
    assert_eq!(u.current_version, "1.0.0");
    assert_eq!(u.latest_version, "2.0.0");
    assert!(u.update_available);
    assert_eq!(u.download_url.as_deref(), Some("https://www.nexusmods.com/stardewvalley/mods/2400"));

    let same = Some("1.0.0".to_string());
    let u2 = nexus_result_from_response("2400", "1.0.0", 200, &same).unwrap();
    assert!(!u2.update_available);
}

#[test]
fn github_response_statuses() {
    let none: Option<String> = None;
    assert_eq!(github_result_from_response("1.0", 500, &none, &none).unwrap_err(), ModError::RemoteError);
    assert_eq!(github_result_from_response("1.0", 200, &none, &none).unwrap_err(), ModError::ParseError);
    let tag = Some("v1.2".to_string());
    assert_eq!(github_result_from_response("1.0", 200, &tag, &none).unwrap_err(), ModError::ParseError);
}

#[test]
fn github_tag_loses_one_version_prefix() {
    let tag = Some("v1.2.0".to_string());
    let url = Some("https://example.invalid/release".to_string());
    let u = github_result_from_response("1.0.0", 200, &tag, &url).unwrap();
    assert_eq!(u.latest_version, "1.2.0");
    assert!(u.update_available);
    assert_eq!(u.download_url, url);

    let bare = Some("1.2.0".to_string());
    let u2 = github_result_from_response("1.0.0", 200, &bare, &url).unwrap();
    assert_eq!(u2.latest_version, "1.2.0");
}

#[test]
fn first_erroring_key_falls_through_to_next() {
    let second = UpdateInfo {
        current_version: "1.0".to_string(),
        latest_version: "2.0".to_string(),
        update_available: true,
        download_url: Some("https://example.invalid/page".to_string()),
    };
    let outcomes = vec![Err(ModError::RemoteError), Ok(second)];
    let r = resolve_update_check("1.0", &outcomes);
    assert_eq!(r.latest_version, "2.0");
    assert!(r.update_available);
}

#[test]
fn all_keys_erroring_leaves_no_update() {
    let outcomes: Vec<Result<UpdateInfo, ModError>> =
        vec![Err(ModError::RemoteError), Err(ModError::UnsupportedKeyFormat)];
    let r = resolve_update_check("1.4.2", &outcomes);
    assert_eq!(r.current_version, "1.4.2");
    assert_eq!(r.latest_version, "1.4.2");
    assert!(!r.update_available);
    assert!(r.download_url.is_none());
}

#[test]
fn first_success_wins_over_later_keys() {
    let first = UpdateInfo {
        current_version: "1.0".to_string(),
        latest_version: "1.0".to_string(),
        update_available: false,
        download_url: None,
    };
    let later = UpdateInfo {
        current_version: "1.0".to_string(),
        latest_version: "9.9".to_string(),
        update_available: true,
        download_url: None,
    };
    let outcomes = vec![Ok(first), Ok(later)];
    let r = resolve_update_check("1.0", &outcomes);
    assert_eq!(r.latest_version, "1.0");
    assert!(!r.update_available);
}

#[test]
fn key_plans_cover_all_strategies() {
    let with_key = AppSettings { nexus_api_key: Some("fake-api-key".to_string()) };
    let without = AppSettings { nexus_api_key: None };

    match plan_update_key("Nexus:2400", "1.0", &with_key) {
        KeyPlan::QueryNexus { mod_id, api_url, api_key } => {
            assert_eq!(mod_id, "2400");
            assert_eq!(api_url, "https://api.nexusmods.com/v1/games/stardewvalley/mods/2400");
            assert_eq!(api_key, "fake-api-key");
        },
        _ => panic!("expected a registry query"),
    }

    match plan_update_key("Nexus:2400", "1.0", &without) {
        KeyPlan::Ready(u) => {
            assert_eq!(u.latest_version, "Manual check");
            assert!(!u.update_available);
        },
        _ => panic!("expected the manual-check result"),
    }

    match plan_update_key("GitHub:x/y", "1.0", &without) {
        KeyPlan::QueryGithub { api_url } => {
            assert_eq!(api_url, "https://api.github.com/repos/x/y/releases/latest");
        },
        _ => panic!("expected a repository query"),
    }

    match plan_update_key("modrinth:abc", "1.0", &without) {
        KeyPlan::Fail(e) => assert_eq!(e, ModError::UnsupportedKeyFormat),
        _ => panic!("expected an unsupported key"),
    }
}

#[test]
fn unicode_whitespace_trimmed_from_identifiers() {
    // No-break space and em space count as whitespace around an identifier.
    assert!(matches!(classify_update_key("nexus:\u{a0}123\u{2003}"), UpdateKey::Nexus(id) if id == "123"));
    assert!(!has_api_key(&AppSettings { nexus_api_key: Some("\u{a0}\u{3000}".to_string()) }));
}
