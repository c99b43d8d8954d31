//! Installation locating: deciding, from plain observations about candidate
//! directories, which candidate is the installation and where its mods
//! directory lies. The caller probes the file system and hands the
//! observations in; the first candidate that satisfies the per-system
//! heuristic wins, and its mods directory is the first existing candidate
//! sub-path in priority order.

use vstd::prelude::*;
use crate::text::{find_from, find_non_ws, find_ws_from, last_index_of, skip_ws};
use crate::{ModError, StardewInfo};

verus! {

/// The operating system the heuristic runs under.
#[derive(Clone, Copy, PartialEq, Eq, Structural)]
pub enum HostOs {
    Windows,
    MacOs,
    Linux,
}

/// Observations about one candidate directory.
#[derive(Clone, Copy, PartialEq, Eq, Structural)]
pub struct DirEvidence {
    /// A known game executable name exists directly inside the directory.
    pub has_known_executable: bool,
    /// The directory's name carries the application-bundle extension.
    pub is_app_bundle: bool,
    /// The nested bundle binary directory exists.
    pub contents_binary_dir_exists: bool,
    /// A known executable name exists inside the bundle binary directory.
    pub contents_binary_known: bool,
    /// Any regular file exists inside the bundle binary directory.
    pub contents_binary_any_file: bool,
    /// The nested metadata directory exists.
    pub contents_dir_exists: bool,
    /// The nested resource directory exists.
    pub contents_resources_exists: bool,
}

/// The layered per-system heuristic deciding whether a candidate directory
/// holds the game.
pub open spec fn spec_is_game_dir(os: HostOs, e: DirEvidence) -> bool {
    match os {
        HostOs::Windows => e.has_known_executable,
        HostOs::Linux => e.has_known_executable,
        HostOs::MacOs => {
            if e.is_app_bundle {
                e.contents_binary_dir_exists && (e.contents_binary_known
                    || e.contents_binary_any_file)
            } else {
                e.has_known_executable || (e.contents_dir_exists && ((e.contents_binary_dir_exists
                    && e.contents_binary_any_file) || e.contents_resources_exists))
            }
        },
    }
}

/// Executable counterpart of `spec_is_game_dir`.
pub fn is_game_directory(os: HostOs, e: &DirEvidence) -> (r: bool)
    ensures
        r == spec_is_game_dir(os, *e),
{
    match os {
        HostOs::Windows => e.has_known_executable,
        HostOs::Linux => e.has_known_executable,
        HostOs::MacOs => {
            if e.is_app_bundle {
                e.contents_binary_dir_exists && (e.contents_binary_known
                    || e.contents_binary_any_file)
            } else {
                e.has_known_executable || (e.contents_dir_exists && ((e.contents_binary_dir_exists
                    && e.contents_binary_any_file) || e.contents_resources_exists))
            }
        },
    }
}

/// One probed candidate: its path, the evidence gathered about it, and the
/// mods-directory candidates below it, each with whether it exists, in
/// priority order.
pub struct CandidateProbe {
    pub path: String,
    pub evidence: DirEvidence,
    pub mods_candidates: Vec<(String, bool)>,
}

/// Index of the first winning candidate, or the probe count if none wins.
pub open spec fn first_winner(os: HostOs, ps: Seq<CandidateProbe>, i: int) -> int
    decreases ps.len() - i,
{
    if i < 0 {
        first_winner(os, ps, 0)
    } else if i >= ps.len() {
        ps.len() as int
    } else if spec_is_game_dir(os, ps[i].evidence) {
        i
    } else {
        first_winner(os, ps, i + 1)
    }
}

/// Index of the first existing mods candidate, or the candidate count.
pub open spec fn first_existing(ms: Seq<(String, bool)>, i: int) -> int
    decreases ms.len() - i,
{
    if i < 0 {
        first_existing(ms, 0)
    } else if i >= ms.len() {
        ms.len() as int
    } else if ms[i].1 {
        i
    } else {
        first_existing(ms, i + 1)
    }
}

/// What `locate_installation` promises of a successful result.
pub open spec fn is_located(info: StardewInfo, os: HostOs, ps: Seq<CandidateProbe>) -> bool {
    let w = first_winner(os, ps, 0);
    if w < ps.len() {
        &&& info.found == true
        &&& info.game_path matches Some(g) && g@ == ps[w].path@
        &&& {
            let ms = ps[w].mods_candidates@;
            let m = first_existing(ms, 0);
            if m < ms.len() {
                info.mods_path matches Some(p) && p@ == ms[m].0@
            } else {
                info.mods_path is None
            }
        }
    } else {
        &&& info.found == false
        &&& info.game_path is None
        &&& info.mods_path is None
    }
}

/// Picks the first winning candidate and its first existing mods directory.
///
/// An empty candidate list is an error; finding no winner is a normal
/// outcome with `found` false.
pub fn locate_installation(os: HostOs, probes: &Vec<CandidateProbe>) -> (r: Result<
    StardewInfo,
    ModError,
>)
    ensures
        probes@.len() == 0 <==> r == Result::<StardewInfo, ModError>::Err(
            ModError::NoCandidatePaths,
        ),
        probes@.len() > 0 ==> (r matches Ok(info) && is_located(info, os, probes@)),
{
    if probes.len() == 0 {
        return Err(ModError::NoCandidatePaths);
    }
    let mut i: usize = 0;
    while i < probes.len()
        invariant
            0 <= i <= probes@.len(),
            first_winner(os, probes@, 0) == first_winner(os, probes@, i as int),
        decreases probes@.len() - i,
    {
        let p = &probes[i];
        if is_game_directory(os, &p.evidence) {
            let mods_path = first_existing_mods(&p.mods_candidates);
            return Ok(
                StardewInfo {
                    game_path: Some(p.path.clone()),
                    mods_path,
                    found: true,
                },
            );
        }
        i = i + 1;
    }
    Ok(StardewInfo { game_path: None, mods_path: None, found: false })
}

/// The path of the first existing mods candidate.
fn first_existing_mods(ms: &Vec<(String, bool)>) -> (r: Option<String>)
    ensures
        ({
            let m = first_existing(ms@, 0);
            if m < ms@.len() {
                r matches Some(p) && p@ == ms@[m].0@
            } else {
                r is None
            }
        }),
{
    let mut i: usize = 0;
    while i < ms.len()
        invariant
            0 <= i <= ms@.len(),
            first_existing(ms@, 0) == first_existing(ms@, i as int),
        decreases ms@.len() - i,
    {
        if ms[i].1 {
            return Some(ms[i].0.clone());
        }
        i = i + 1;
    }
    None
}

/// Whether `pat` occupies `t[i..i+pat.len())`.
pub open spec fn pat_at(t: Seq<char>, pat: Seq<char>, i: int) -> bool {
    &&& 0 <= i
    &&& i + pat.len() <= t.len()
    &&& t.subrange(i, i + pat.len()) == pat
}

/// Index of the leftmost occurrence of `pat` at or after `i`, or `t.len()`.
pub open spec fn first_pat_from(t: Seq<char>, pat: Seq<char>, i: int) -> int
    decreases t.len() - i,
{
    if i < 0 {
        first_pat_from(t, pat, 0)
    } else if i >= t.len() {
        t.len() as int
    } else if pat_at(t, pat, i) {
        i
    } else {
        first_pat_from(t, pat, i + 1)
    }
}

/// Bounds of the `k`-th (0-based) whitespace-separated token of `t` at or
/// after `i`, if there is one.
pub open spec fn nth_token(t: Seq<char>, i: int, k: int) -> Option<(int, int)>
    decreases t.len() - i,
{
    if i < 0 || i >= t.len() {
        None
    } else {
        let a = find_non_ws(t, i);
        if a >= t.len() {
            None
        } else {
            let b = find_ws_from(t, a);
            if k <= 0 {
                Some((a, b))
            } else if i < b && b <= t.len() {
                nth_token(t, b, k - 1)
            } else {
                None
            }
        }
    }
}

/// The registry value name whose data holds the installation root.
pub open spec fn registry_value_name() -> Seq<char> {
    "InstallPath"@
}

/// What the registry query's output yields: the third whitespace-separated
/// token of the line holding the first occurrence of the value name, the
/// line taken between the surrounding newlines with one trailing carriage
/// return dropped.
pub open spec fn registry_steam_path(t: Seq<char>) -> Option<Seq<char>> {
    let p = first_pat_from(t, registry_value_name(), 0);
    if p < t.len() {
        let ls = last_index_of(t.subrange(0, p), '\n') + 1;
        let le0 = find_from(t, '\n', p);
        let le = if le0 < t.len() && le0 > ls && t[le0 - 1] == '\r' {
            le0 - 1
        } else {
            le0
        };
        let line = t.subrange(ls, le);
        match nth_token(line, 0, 2) {
            Some(sp) => Some(line.subrange(sp.0, sp.1)),
            None => None,
        }
    } else {
        None
    }
}

/// Whether `pat` occurs in `s` starting at `i`.
fn pattern_at(s: &str, pat: &str, i: usize) -> (r: bool)
    requires
        i <= s@.len(),
    ensures
        r == pat_at(s@, pat@, i as int),
{
    let len = s.unicode_len();
    let plen = pat.unicode_len();
    if plen > len - i {
        assert(!pat_at(s@, pat@, i as int));
        return false;
    }
    let mut j: usize = 0;
    while j < plen
        invariant
            i + plen <= len,
            len == s@.len(),
            plen == pat@.len(),
            0 <= j <= plen,
            forall|x: int| 0 <= x < j ==> s@[i + x] == pat@[x],
        decreases plen - j,
    {
        if s.get_char(i + j) != pat.get_char(j) {
            proof {
                let sub = s@.subrange(i as int, i as int + plen as int);
                assert(sub[j as int] == s@[i + j]);
                assert(sub != pat@);
            }
            return false;
        }
        j = j + 1;
    }
    proof {
        assert(s@.subrange(i as int, i as int + plen as int) =~= pat@);
    }
    true
}

/// Index of the leftmost occurrence of `pat` in `s`, or `s`'s length.
fn find_pattern(s: &str, pat: &str) -> (r: usize)
    ensures
        r == first_pat_from(s@, pat@, 0),
        r <= s@.len(),
{
    let len = s.unicode_len();
    let mut i: usize = 0;
    while i < len
        invariant
            0 <= i <= len,
            len == s@.len(),
            first_pat_from(s@, pat@, 0) == first_pat_from(s@, pat@, i as int),
        decreases len - i,
    {
        if pattern_at(s, pat, i) {
            return i;
        }
        i = i + 1;
    }
    i
}

/// Start of the line that position `p` lies on: one past the last newline
/// before `p`.
fn line_start_before(s: &str, p: usize) -> (r: usize)
    requires
        p <= s@.len(),
    ensures
        r as int == last_index_of(s@.subrange(0, p as int), '\n') + 1,
        r <= p,
{
    let ghost pre = s@.subrange(0, p as int);
    let mut i = p;
    assert(pre.subrange(0, p as int) =~= pre);
    while i > 0
        invariant
            0 <= i <= p,
            p <= s@.len(),
            pre == s@.subrange(0, p as int),
            last_index_of(pre, '\n') == last_index_of(pre.subrange(0, i as int), '\n'),
        decreases i,
    {
        proof {
            assert(pre.subrange(0, i as int).drop_last() =~= pre.subrange(0, i - 1));
            assert(pre.subrange(0, i as int).last() == pre[i - 1]);
            assert(pre[i - 1] == s@[i - 1]);
        }
        if s.get_char(i - 1) == '\n' {
            return i;
        }
        i = i - 1;
    }
    assert(pre.subrange(0, 0) =~= Seq::<char>::empty());
    0
}

/// Bounds of the third whitespace-separated token of `line`.
fn third_token(line: &str) -> (r: Option<(usize, usize)>)
    ensures
        match r {
            Some(sp) => {
                &&& nth_token(line@, 0, 2) == Some((sp.0 as int, sp.1 as int))
                &&& sp.0 <= sp.1 <= line@.len()
            },
            None => nth_token(line@, 0, 2) is None,
        },
{
    let len = line.unicode_len();
    if len == 0 {
        return None;
    }
    let a0 = skip_ws(line, 0);
    if a0 >= len {
        return None;
    }
    let b0 = crate::text::find_ws(line, a0);
    proof {
        crate::text::lemma_find_non_ws_bounds(line@, 0);
        crate::text::lemma_find_ws_bounds(line@, a0 as int);
        if b0 == a0 {
            assert(crate::text::is_ws(line@[a0 as int]));
            assert(false);
        }
        assert(nth_token(line@, 0, 2) == nth_token(line@, b0 as int, 1));
    }
    if b0 >= len {
        return None;
    }
    let a1 = skip_ws(line, b0);
    if a1 >= len {
        return None;
    }
    let b1 = crate::text::find_ws(line, a1);
    proof {
        crate::text::lemma_find_non_ws_bounds(line@, b0 as int);
        crate::text::lemma_find_ws_bounds(line@, a1 as int);
        if b1 == a1 {
            assert(crate::text::is_ws(line@[a1 as int]));
            assert(false);
        }
        assert(nth_token(line@, b0 as int, 1) == nth_token(line@, b1 as int, 0));
    }
    if b1 >= len {
        return None;
    }
    let a2 = skip_ws(line, b1);
    if a2 >= len {
        return None;
    }
    let b2 = crate::text::find_ws(line, a2);
    Some((a2, b2))
}

/// Reads the installation root out of the registry query's output: the
/// third whitespace-separated token of the first line holding the value
/// name, or nothing when the name or the token is absent.
pub fn steam_path_from_registry_output(output: &str) -> (r: Option<String>)
    ensures
        match r {
            Some(path) => registry_steam_path(output@) == Some(path@),
            None => registry_steam_path(output@) is None,
        },
{
    let len = output.unicode_len();
    let p = find_pattern(output, "InstallPath");
    if p >= len {
        return None;
    }
    let ls = line_start_before(output, p);
    let le0 = crate::text::find_char(output, '\n', p);
    let le = if le0 < len && le0 > ls && output.get_char(le0 - 1) == '\r' {
        le0 - 1
    } else {
        le0
    };
    let line = output.substring_char(ls, le);
    match third_token(line) {
        Some(sp) => Some(String::from_str(line.substring_char(sp.0, sp.1))),
        None => None,
    }
}

} // verus!
