use stardew_mod_manager::manifest::{
    extract_manifest, extract_string_field, extract_update_keys, parse_mod_folder,
    replace_version_field, ManifestFile,
};

#[test]
fn basic_manifest_with_defaults() {
    let text = "{\"Name\": \"Foo\", \"Version\": \"1.0.0\"}";
    let m = extract_manifest("FooFolder", text);
    assert_eq!(m.name, "Foo");
    assert_eq!(m.version, "1.0.0");
    assert_eq!(m.author, "Unknown");
    assert_eq!(m.description, "No description");
    assert_eq!(m.folder_name, "FooFolder");
    assert!(m.enabled);
    assert_eq!(m.update_keys, Vec::<String>::new());
}

#[test]
fn extraction_is_idempotent() {
    let text = "{\"Name\": \"Foo\", \"Version\": \"2.1\", \"Author\": \"A\", \"UpdateKeys\": [\"Nexus:1\"]}";
    let a = extract_manifest("F", text);
    let b = extract_manifest("F", text);
    assert_eq!(a.name, b.name);
    assert_eq!(a.version, b.version);
    assert_eq!(a.author, b.author);
    assert_eq!(a.description, b.description);
    assert_eq!(a.folder_name, b.folder_name);
    assert_eq!(a.enabled, b.enabled);
    assert_eq!(a.update_keys, b.update_keys);
}

#[test]
fn full_manifest_extracted() {
    let text = "{\n  \"Name\": \"Great Mod\",\n  \"Author\" :  \"Someone\",\n  \"Version\": \"1.2.3\",\n  \"Description\": \"Does things\",\n  \"UpdateKeys\": [ \"Nexus:2400\", \"GitHub:x/y\" ]\n}";
    let m = extract_manifest("GreatMod", text);
    assert_eq!(m.name, "Great Mod");
    assert_eq!(m.version, "1.2.3");
    assert_eq!(m.author, "Someone");
    assert_eq!(m.description, "Does things");
    assert_eq!(m.update_keys, vec!["Nexus:2400".to_string(), "GitHub:x/y".to_string()]);
}

#[test]
fn malformed_surroundings_tolerated() {
    let text = "garbage {{{ \"Name\": \"X\" ,,, \"Version\"  :  \"0.1\" not json at all";
    let m = extract_manifest("F", text);
    assert_eq!(m.name, "X");
    assert_eq!(m.version, "0.1");
}

#[test]
fn empty_value_falls_back_to_default() {
    // The first name label has an empty value, so the later one is taken.
    let text = "{\"Name\": \"\", \"Version\": \"1.0\"}";
    let m = extract_manifest("Fallback", text);
    assert_eq!(m.name, "Fallback");
    let text2 = "{\"Name\": \"\", \"Name\": \"Real\"}";
    let m2 = extract_manifest("F", text2);
    assert_eq!(m2.name, "Real");
}

#[test]
fn update_keys_need_closing_bracket() {
    let text = "{\"UpdateKeys\": [\"Nexus:1\", \"Nexus:2\"";
    assert_eq!(extract_update_keys(text), Vec::<String>::new());
    let closed = "{\"UpdateKeys\": [\"Nexus:1\", \"Nexus:2\"]}";
    assert_eq!(extract_update_keys(closed), vec!["Nexus:1".to_string(), "Nexus:2".to_string()]);
}

#[test]
fn field_search_is_leftmost() {
    let text = "\"Version\": \"1.0\" \"Version\": \"2.0\"";
    assert_eq!(extract_string_field(text, "Version"), Some("1.0".to_string()));
    assert_eq!(extract_string_field(text, "Author"), None);
}

#[test]
fn dotted_folder_never_a_record() {
    let text = "{\"Name\": \"X\"}".to_string();
    let files = vec!["a.dll".to_string()];
    assert!(parse_mod_folder(".git", &ManifestFile::Text(text), &files).is_none());
}

#[test]
fn double_underscore_folder_never_a_record() {
    let text = "{\"Name\": \"X\"}".to_string();
    let files = vec!["a.dll".to_string()];
    assert!(parse_mod_folder("__pycache__", &ManifestFile::Text(text), &files).is_none());
}

#[test]
fn missing_manifest_with_code_file_yields_fallback() {
    let files = vec!["readme.txt".to_string(), "SomeMod.dll".to_string()];
    let m = parse_mod_folder("SomeMod", &ManifestFile::Missing, &files).unwrap();
    assert_eq!(m.name, "SomeMod");
    assert_eq!(m.version, "Unknown");
    assert_eq!(m.author, "Unknown");
    assert_eq!(m.description, "No manifest found - detected mod files");
    assert_eq!(m.folder_name, "SomeMod");
    assert!(m.enabled);
    assert!(m.update_keys.is_empty());
}

#[test]
fn missing_manifest_without_code_files_yields_nothing() {
    let files = vec!["readme.txt".to_string(), "notes.md".to_string()];
    assert!(parse_mod_folder("Plain", &ManifestFile::Missing, &files).is_none());
}

#[test]
fn unreadable_manifest_yields_nothing() {
    let files = vec!["SomeMod.dll".to_string()];
    assert!(parse_mod_folder("Broken", &ManifestFile::Unreadable, &files).is_none());
}

#[test]
fn hidden_dotfile_is_no_code_file() {
    // A name that is only an extension has no extension of its own.
    let files = vec![".dll".to_string()];
    assert!(parse_mod_folder("Odd", &ManifestFile::Missing, &files).is_none());
    let files2 = vec!["x.cs".to_string()];
    assert!(parse_mod_folder("Odd", &ManifestFile::Missing, &files2).is_some());
}

#[test]
fn version_field_rewritten_in_place() {
    let text = "{\"Name\": \"X\", \"Version\" : \"1.0.0\", \"Author\": \"A\"}";
    let out = replace_version_field(text, "2.0.0");
    assert_eq!(out, "{\"Name\": \"X\", \"Version\": \"2.0.0\", \"Author\": \"A\"}");
}

#[test]
fn text_without_version_field_unchanged() {
    let text = "{\"Name\": \"X\"}";
    assert_eq!(replace_version_field(text, "2.0.0"), text);
}
