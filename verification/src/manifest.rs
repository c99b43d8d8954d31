//! Lenient manifest-text extraction. A manifest is scanned as raw text, not
//! parsed as a structured document: a field's value is the first quoted
//! string that follows the quoted field label, a colon in between, with
//! optional whitespace; the update-key list is the bracketed span after its
//! label, and every quoted token inside that span is a key. Malformed
//! surrounding content is tolerated; a missing field falls back to a default.

use vstd::prelude::*;
use crate::text::{find_from, find_non_ws, last_index_of};
use crate::ModInfo;

verus! {

/// Whether `"key"` (with its surrounding quotes) occupies `t[i..i+key.len()+2)`.
pub open spec fn quoted_key_at(t: Seq<char>, key: Seq<char>, i: int) -> bool {
    &&& 0 <= i
    &&& i + key.len() + 2 <= t.len()
    &&& t[i] == '"'
    &&& t.subrange(i + 1, i + 1 + key.len()) == key
    &&& t[i + 1 + key.len()] == '"'
}

/// A full field pattern starting at `i`: the quoted key, optional whitespace,
/// a colon, optional whitespace, then `open`, content, `close`. Yields the
/// content span (start inclusive, end exclusive; `t[end] == close`). When
/// `need_content` holds, an empty span is no match.
pub open spec fn field_match_at(
    t: Seq<char>,
    key: Seq<char>,
    open: char,
    close: char,
    need_content: bool,
    i: int,
) -> Option<(int, int)> {
    if quoted_key_at(t, key, i) {
        let a = find_non_ws(t, i + key.len() + 2);
        if a < t.len() && t[a] == ':' {
            let b = find_non_ws(t, a + 1);
            if b < t.len() && t[b] == open {
                let e = find_from(t, close, b + 1);
                if e < t.len() && (!need_content || e > b + 1) {
                    Some((b + 1, e))
                } else {
                    None
                }
            } else {
                None
            }
        } else {
            None
        }
    } else {
        None
    }
}

/// The leftmost field pattern at or after `i`: `(match_start, content_start,
/// content_end)` for the least starting position that matches.
pub open spec fn first_match_from(
    t: Seq<char>,
    key: Seq<char>,
    open: char,
    close: char,
    need_content: bool,
    i: int,
) -> Option<(int, int, int)>
    decreases t.len() - i,
{
    if i < 0 {
        first_match_from(t, key, open, close, need_content, 0)
    } else if i >= t.len() {
        None
    } else {
        match field_match_at(t, key, open, close, need_content, i) {
            Some(p) => Some((i, p.0, p.1)),
            None => first_match_from(t, key, open, close, need_content, i + 1),
        }
    }
}

/// The value of the first quoted, non-empty string field named `key`.
pub open spec fn field_value(t: Seq<char>, key: Seq<char>) -> Option<Seq<char>> {
    match first_match_from(t, key, '"', '"', true, 0) {
        Some(p) => Some(t.subrange(p.1, p.2)),
        None => None,
    }
}

pub open spec fn field_value_or(t: Seq<char>, key: Seq<char>, dflt: Seq<char>) -> Seq<char> {
    match field_value(t, key) {
        Some(v) => v,
        None => dflt,
    }
}

/// Every quoted, non-empty token at or after `i`, leftmost first, each scan
/// resuming after the token's closing quote.
pub open spec fn tokens_from(t: Seq<char>, i: int) -> Seq<Seq<char>>
    decreases t.len() - i,
{
    if i < 0 {
        tokens_from(t, 0)
    } else if i >= t.len() {
        seq![]
    } else if t[i] == '"' {
        let q = find_from(t, '"', i + 1);
        if q < t.len() && q > i + 1 {
            seq![t.subrange(i + 1, q)] + tokens_from(t, q + 1)
        } else {
            tokens_from(t, i + 1)
        }
    } else {
        tokens_from(t, i + 1)
    }
}

/// The update keys of a manifest text: the quoted tokens inside the first
/// bracketed span following the update-key label, or none without the label.
pub open spec fn update_keys_of(t: Seq<char>) -> Seq<Seq<char>> {
    match first_match_from(t, "UpdateKeys"@, '[', ']', false, 0) {
        Some(p) => tokens_from(t.subrange(p.1, p.2), 0),
        None => seq![],
    }
}

/// What `extract_manifest` promises of its record, field by field.
pub open spec fn is_extraction_of(m: &ModInfo, folder: Seq<char>, text: Seq<char>) -> bool {
    &&& m.name@ == field_value_or(text, "Name"@, folder)
    &&& m.version@ == field_value_or(text, "Version"@, "Unknown"@)
    &&& m.author@ == field_value_or(text, "Author"@, "Unknown"@)
    &&& m.description@ == field_value_or(text, "Description"@, "No description"@)
    &&& m.folder_name@ == folder
    &&& m.enabled == true
    &&& m.update_keys.deep_view() == update_keys_of(text)
}

/// Extraction is a function of the folder name and the text alone: two
/// records extracted from the same inputs agree on every field.
pub proof fn lemma_extraction_idempotent(
    m1: &ModInfo,
    m2: &ModInfo,
    folder: Seq<char>,
    text: Seq<char>,
)
    requires
        is_extraction_of(m1, folder, text),
        is_extraction_of(m2, folder, text),
    ensures
        m1.name@ == m2.name@,
        m1.version@ == m2.version@,
        m1.author@ == m2.author@,
        m1.description@ == m2.description@,
        m1.folder_name@ == m2.folder_name@,
        m1.enabled == m2.enabled,
        m1.update_keys.deep_view() == m2.update_keys.deep_view(),
{
}

/// Tries the full field pattern at one starting position.
fn try_match_at(
    s: &str,
    key: &str,
    open: char,
    close: char,
    need_content: bool,
    i: usize,
) -> (r: Option<(usize, usize)>)
    requires
        i < s@.len(),
    ensures
        match r {
            Some(p) => {
                &&& field_match_at(s@, key@, open, close, need_content, i as int) == Some(
                    (p.0 as int, p.1 as int),
                )
                &&& i < p.0 <= p.1 < s@.len()
            },
            None => field_match_at(s@, key@, open, close, need_content, i as int) is None,
        },
{
    let len = s.unicode_len();
    let klen = key.unicode_len();
    if len - i < 2 || klen > len - i - 2 {
        assert(!quoted_key_at(s@, key@, i as int));
        return None;
    }
    if s.get_char(i) != '"' {
        assert(!quoted_key_at(s@, key@, i as int));
        return None;
    }
    let mut j: usize = 0;
    while j < klen
        invariant
            i + klen + 2 <= len,
            len == s@.len(),
            klen == key@.len(),
            0 <= j <= klen,
            forall|x: int| 0 <= x < j ==> s@[i + 1 + x] == key@[x],
        decreases klen - j,
    {
        if s.get_char(i + 1 + j) != key.get_char(j) {
            proof {
                let sub = s@.subrange(i as int + 1, i as int + 1 + klen as int);
                assert(sub[j as int] == s@[i + 1 + j]);
                assert(sub != key@);
            }
            return None;
        }
        j = j + 1;
    }
    if s.get_char(i + 1 + klen) != '"' {
        assert(!quoted_key_at(s@, key@, i as int));
        return None;
    }
    proof {
        assert(s@.subrange(i as int + 1, i as int + 1 + klen as int) =~= key@);
        assert(quoted_key_at(s@, key@, i as int));
    }
    let a = crate::text::skip_ws(s, i + klen + 2);
    if a >= len {
        return None;
    }
    if s.get_char(a) != ':' {
        return None;
    }
    let b = crate::text::skip_ws(s, a + 1);
    if b >= len {
        return None;
    }
    if s.get_char(b) != open {
        return None;
    }
    let e = crate::text::find_char(s, close, b + 1);
    if e >= len {
        return None;
    }
    if need_content && e == b + 1 {
        return None;
    }
    Some((b + 1, e))
}

/// The leftmost full field pattern in `s`.
fn first_field(s: &str, key: &str, open: char, close: char, need_content: bool) -> (r: Option<
    (usize, usize, usize),
>)
    ensures
        match r {
            Some(p) => {
                &&& first_match_from(s@, key@, open, close, need_content, 0) == Some(
                    (p.0 as int, p.1 as int, p.2 as int),
                )
                &&& p.0 < p.1 <= p.2 < s@.len()
            },
            None => first_match_from(s@, key@, open, close, need_content, 0) is None,
        },
{
    let len = s.unicode_len();
    let mut i: usize = 0;
    while i < len
        invariant
            0 <= i <= len,
            len == s@.len(),
            first_match_from(s@, key@, open, close, need_content, 0) == first_match_from(
                s@,
                key@,
                open,
                close,
                need_content,
                i as int,
            ),
        decreases len - i,
    {
        match try_match_at(s, key, open, close, need_content, i) {
            Some(p) => {
                return Some((i, p.0, p.1));
            },
            None => {
                i = i + 1;
            },
        }
    }
    None
}

/// The first quoted, non-empty value of the field named `key`, if any.
pub fn extract_string_field(text: &str, key: &str) -> (r: Option<String>)
    ensures
        match r {
            Some(v) => field_value(text@, key@) == Some(v@),
            None => field_value(text@, key@) is None,
        },
{
    match first_field(text, key, '"', '"', true) {
        Some(p) => Some(String::from_str(text.substring_char(p.1, p.2))),
        None => None,
    }
}

/// Every quoted, non-empty token of `text`, in order of appearance.
pub fn extract_quoted_tokens(text: &str) -> (r: Vec<String>)
    ensures
        r.deep_view() == tokens_from(text@, 0),
{
    let len = text.unicode_len();
    let mut out: Vec<String> = Vec::new();
    let mut i: usize = 0;
    while i < len
        invariant
            0 <= i <= len,
            len == text@.len(),
            out.deep_view() + tokens_from(text@, i as int) == tokens_from(text@, 0),
        decreases len - i,
    {
        let ghost prev = out.deep_view();
        if text.get_char(i) == '"' {
            let q = crate::text::find_char(text, '"', i + 1);
            if q < len && q > i + 1 {
                let tok = String::from_str(text.substring_char(i + 1, q));
                proof {
                    assert(tokens_from(text@, i as int) == seq![text@.subrange(i + 1, q as int)]
                        + tokens_from(text@, q + 1));
                }
                out.push(tok);
                proof {
                    assert(out.deep_view() =~= prev.push(text@.subrange(i + 1, q as int)));
                    assert(out.deep_view() + tokens_from(text@, q + 1) =~= prev + tokens_from(
                        text@,
                        i as int,
                    ));
                }
                i = q + 1;
            } else {
                i = i + 1;
            }
        } else {
            i = i + 1;
        }
    }
    assert(out.deep_view() =~= tokens_from(text@, 0));
    out
}

/// The update keys of a manifest text, in order of appearance.
pub fn extract_update_keys(text: &str) -> (r: Vec<String>)
    ensures
        r.deep_view() == update_keys_of(text@),
{
    match first_field(text, "UpdateKeys", '[', ']', false) {
        Some(p) => {
            let span = text.substring_char(p.1, p.2);
            extract_quoted_tokens(span)
        },
        None => {
            let out: Vec<String> = Vec::new();
            assert(out.deep_view() =~= update_keys_of(text@));
            out
        },
    }
}

/// Builds a mod record from a folder name and its manifest text. Each of the
/// four scalar fields is the first quoted value following its label; a
/// missing name falls back to the folder name, a missing version or author to
/// "Unknown", a missing description to "No description". The record starts
/// enabled.
pub fn extract_manifest(folder_name: &str, text: &str) -> (m: ModInfo)
    ensures
        is_extraction_of(&m, folder_name@, text@),
{
    let name = match extract_string_field(text, "Name") {
        Some(v) => v,
        None => String::from_str(folder_name),
    };
    let version = match extract_string_field(text, "Version") {
        Some(v) => v,
        None => String::from_str("Unknown"),
    };
    let author = match extract_string_field(text, "Author") {
        Some(v) => v,
        None => String::from_str("Unknown"),
    };
    let description = match extract_string_field(text, "Description") {
        Some(v) => v,
        None => String::from_str("No description"),
    };
    let update_keys = extract_update_keys(text);
    ModInfo {
        name,
        version,
        author,
        description,
        folder_name: String::from_str(folder_name),
        enabled: true,
        update_keys,
    }
}

/// Folders whose names begin with a dot or a double underscore are system
/// artifacts, never mods.
pub open spec fn skip_folder(name: Seq<char>) -> bool {
    ||| name.len() >= 1 && name[0] == '.'
    ||| name.len() >= 2 && name[0] == '_' && name[1] == '_'
}

/// The extension of a file name: what follows the last dot, provided that
/// dot is neither absent nor the leading character.
pub open spec fn extension_of(name: Seq<char>) -> Option<Seq<char>> {
    let p = last_index_of(name, '.');
    if p > 0 {
        Some(name.subrange(p + 1, name.len() as int))
    } else {
        None
    }
}

/// Whether a file name carries a compiled-code extension.
pub open spec fn is_code_file(name: Seq<char>) -> bool {
    ||| extension_of(name) == Some(seq!['d', 'l', 'l'])
    ||| extension_of(name) == Some(seq!['c', 's'])
}

pub open spec fn has_code_file(names: Seq<Seq<char>>) -> bool {
    exists|i: int| 0 <= i < names.len() && is_code_file(names[i])
}

/// Index of the last `.` in `s`, if any.
fn last_dot(s: &str) -> (r: Option<usize>)
    ensures
        match r {
            Some(p) => last_index_of(s@, '.') == p as int && p < s@.len(),
            None => last_index_of(s@, '.') == -1,
        },
{
    let len = s.unicode_len();
    let mut i = len;
    assert(s@.subrange(0, len as int) =~= s@);
    while i > 0
        invariant
            0 <= i <= len,
            len == s@.len(),
            last_index_of(s@, '.') == last_index_of(s@.subrange(0, i as int), '.'),
        decreases i,
    {
        proof {
            assert(s@.subrange(0, i as int).drop_last() =~= s@.subrange(0, i - 1));
            assert(s@.subrange(0, i as int).last() == s@[i - 1]);
        }
        if s.get_char(i - 1) == '.' {
            return Some(i - 1);
        }
        i = i - 1;
    }
    assert(s@.subrange(0, 0) =~= Seq::<char>::empty());
    None
}

/// Executable counterpart of `is_code_file`.
pub fn code_file_name(name: &str) -> (r: bool)
    ensures
        r == is_code_file(name@),
{
    match last_dot(name) {
        None => false,
        Some(p) => {
            if p == 0 {
                return false;
            }
            let len = name.unicode_len();
            let ghost ext = name@.subrange(p as int + 1, name@.len() as int);
            if len - p - 1 == 3 {
                let r = name.get_char(p + 1) == 'd' && name.get_char(p + 2) == 'l'
                    && name.get_char(p + 3) == 'l';
                proof {
                    if r {
                        assert(ext =~= seq!['d', 'l', 'l']);
                    } else {
                        assert(ext != seq!['d', 'l', 'l']);
                        assert(ext.len() != 2);
                    }
                }
                r
            } else if len - p - 1 == 2 {
                let r = name.get_char(p + 1) == 'c' && name.get_char(p + 2) == 's';
                proof {
                    if r {
                        assert(ext =~= seq!['c', 's']);
                    } else {
                        assert(ext != seq!['c', 's']);
                        assert(ext.len() != 3);
                    }
                }
                r
            } else {
                assert(ext.len() != 3 && ext.len() != 2);
                false
            }
        },
    }
}

/// Whether any of the folder's immediate files carries a code extension.
pub fn has_mod_code_files(file_names: &Vec<String>) -> (r: bool)
    ensures
        r == has_code_file(file_names.deep_view()),
{
    let mut i: usize = 0;
    while i < file_names.len()
        invariant
            0 <= i <= file_names@.len(),
            forall|j: int| 0 <= j < i ==> !is_code_file(file_names.deep_view()[j]),
        decreases file_names@.len() - i,
    {
        if code_file_name(file_names[i].as_str()) {
            assert(file_names.deep_view()[i as int] == file_names@[i as int]@);
            return true;
        }
        assert(file_names.deep_view()[i as int] == file_names@[i as int]@);
        i = i + 1;
    }
    false
}

/// How the manifest file of a folder presented itself.
pub enum ManifestFile {
    /// No manifest file exists in the folder.
    Missing,
    /// A manifest file exists but could not be read.
    Unreadable,
    /// The manifest file's text.
    Text(String),
}

/// What the fallback record for a manifest-less folder holds.
pub open spec fn is_fallback_record(m: &ModInfo, folder: Seq<char>) -> bool {
    &&& m.name@ == folder
    &&& m.version@ == "Unknown"@
    &&& m.author@ == "Unknown"@
    &&& m.description@ == "No manifest found - detected mod files"@
    &&& m.folder_name@ == folder
    &&& m.enabled == true
    &&& m.update_keys.deep_view() == Seq::<Seq<char>>::empty()
}

/// Turns one directory entry into a mod record, if it is one.
///
/// A skipped folder name never yields a record; a readable manifest is
/// extracted; a folder with no manifest but with a compiled-code file yields
/// the fallback record; anything else, an unreadable manifest included,
/// yields none.
pub fn parse_mod_folder(folder_name: &str, manifest: &ManifestFile, file_names: &Vec<String>) -> (r:
    Option<ModInfo>)
    ensures
        skip_folder(folder_name@) ==> r is None,
        !skip_folder(folder_name@) ==> match manifest {
            ManifestFile::Text(t) => r matches Some(m) && is_extraction_of(&m, folder_name@, t@),
            ManifestFile::Missing => {
                if has_code_file(file_names.deep_view()) {
                    r matches Some(m) && is_fallback_record(&m, folder_name@)
                } else {
                    r is None
                }
            },
            ManifestFile::Unreadable => r is None,
        },
{
    let len = folder_name.unicode_len();
    if len >= 1 && folder_name.get_char(0) == '.' {
        return None;
    }
    if len >= 2 && folder_name.get_char(0) == '_' && folder_name.get_char(1) == '_' {
        return None;
    }
    match manifest {
        ManifestFile::Text(t) => Some(extract_manifest(folder_name, t.as_str())),
        ManifestFile::Unreadable => None,
        ManifestFile::Missing => {
            if has_mod_code_files(file_names) {
                let empty_keys: Vec<String> = Vec::new();
                let m = ModInfo {
                    name: String::from_str(folder_name),
                    version: String::from_str("Unknown"),
                    author: String::from_str("Unknown"),
                    description: String::from_str("No manifest found - detected mod files"),
                    folder_name: String::from_str(folder_name),
                    enabled: true,
                    update_keys: empty_keys,
                };
                assert(m.update_keys.deep_view() =~= Seq::<Seq<char>>::empty());
                Some(m)
            } else {
                None
            }
        },
    }
}

/// Rewrites the first version field of a manifest text to hold
/// `new_version`, leaving a text without that field unchanged.
pub fn replace_version_field(manifest_text: &str, new_version: &str) -> (r: String)
    ensures
        match first_match_from(manifest_text@, "Version"@, '"', '"', true, 0) {
            Some(sp) => r@ == manifest_text@.subrange(0, sp.0) + "\"Version\": \""@ + new_version@
                + "\""@ + manifest_text@.subrange(sp.2 + 1, manifest_text@.len() as int),
            None => r@ == manifest_text@,
        },
{
    match first_field(manifest_text, "Version", '"', '"', true) {
        Some(p) => {
            let len = manifest_text.unicode_len();
            let mut out = String::from_str(manifest_text.substring_char(0, p.0));
            out.append("\"Version\": \"");
            out.append(new_version);
            out.append("\"");
            out.append(manifest_text.substring_char(p.2 + 1, len));
            proof {
                assert(out@ =~= manifest_text@.subrange(0, p.0 as int) + "\"Version\": \""@
                    + new_version@ + "\""@ + manifest_text@.subrange(
                    p.2 + 1,
                    manifest_text@.len() as int,
                ));
            }
            out
        },
        None => String::from_str(manifest_text),
    }
}

} // verus!
