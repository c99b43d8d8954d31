//! Package replacement: deciding whether an archive entry's stored path may
//! be extracted under the target directory, and sequencing the download,
//! backup, extraction and cleanup steps of one replacement. The caller
//! performs each step's file-system or network work and reports its outcome;
//! the machine decides what follows.

use vstd::prelude::*;
use crate::update::is_success;
use crate::ModError;

verus! {

/// Both separator conventions count: a stored path is taken apart wherever
/// either one occurs, so an escape under either convention is caught.
pub open spec fn is_sep(c: char) -> bool {
    c == '/' || c == '\\'
}

/// Index of the first path separator in `t` at or after `i`, or `t.len()`.
pub open spec fn find_sep_from(t: Seq<char>, i: int) -> int
    decreases t.len() - i,
{
    if i >= t.len() {
        t.len() as int
    } else if i < 0 {
        find_sep_from(t, 0)
    } else if is_sep(t[i]) {
        i
    } else {
        find_sep_from(t, i + 1)
    }
}

/// The separator-delimited components of an entry path, empty components
/// kept.
pub open spec fn components_from(t: Seq<char>, i: int) -> Seq<Seq<char>>
    decreases t.len() - i,
{
    if i < 0 || i > t.len() {
        seq![]
    } else {
        let j = find_sep_from(t, i);
        if j >= t.len() {
            seq![t.subrange(i, t.len() as int)]
        } else if i <= j < t.len() {
            seq![t.subrange(i, j)] + components_from(t, j + 1)
        } else {
            seq![]
        }
    }
}

/// Walks the components keeping the depth below the target directory:
/// a parent step at depth zero would escape, a normal component descends,
/// empty and current-directory components change nothing.
pub open spec fn depth_walk(cs: Seq<Seq<char>>, depth: int) -> bool
    decreases cs.len(),
{
    if cs.len() == 0 {
        true
    } else {
        let c = cs.first();
        if c == seq!['.', '.'] {
            depth >= 1 && depth_walk(cs.drop_first(), depth - 1)
        } else if c.len() == 0 || c == seq!['.'] {
            depth_walk(cs.drop_first(), depth)
        } else {
            depth_walk(cs.drop_first(), depth + 1)
        }
    }
}

/// Whether an archive entry's stored path resolves safely under the target:
/// no embedded NUL, not absolute under either separator convention, no
/// drive prefix (a colon in the leading component), and no parent step that
/// would climb out.
pub open spec fn spec_safe_entry(t: Seq<char>) -> bool {
    &&& forall|i: int| 0 <= i < t.len() ==> t[i] != '\u{0}'
    &&& !(t.len() > 0 && is_sep(t[0]))
    &&& forall|i: int| 0 <= i < find_sep_from(t, 0) ==> t[i] != ':'
    &&& depth_walk(components_from(t, 0), 0)
}

/// Executable counterpart of `find_sep_from`.
fn find_sep(s: &str, from: usize) -> (r: usize)
    requires
        from <= s@.len(),
    ensures
        r == find_sep_from(s@, from as int),
        from <= r <= s@.len(),
{
    let len = s.unicode_len();
    let mut i = from;
    while i < len
        invariant
            from <= i <= len,
            len == s@.len(),
            find_sep_from(s@, from as int) == find_sep_from(s@, i as int),
        decreases len - i,
    {
        let c = s.get_char(i);
        if c == '/' || c == '\\' {
            return i;
        }
        i = i + 1;
    }
    i
}

/// Decides whether an entry's stored path may be joined onto the target
/// directory. An unsafe path is skipped by the extraction, never written.
pub fn is_safe_entry_path(name: &str) -> (r: bool)
    ensures
        r == spec_safe_entry(name@),
{
    let len = name.unicode_len();
    let mut i: usize = 0;
    while i < len
        invariant
            0 <= i <= len,
            len == name@.len(),
            forall|k: int| 0 <= k < i ==> name@[k] != '\u{0}',
        decreases len - i,
    {
        if name.get_char(i) == '\u{0}' {
            return false;
        }
        i = i + 1;
    }
    if len > 0 {
        let c0 = name.get_char(0);
        if c0 == '/' || c0 == '\\' {
            return false;
        }
    }
    let first_sep = find_sep(name, 0);
    let mut i: usize = 0;
    while i < first_sep
        invariant
            0 <= i <= first_sep,
            first_sep == find_sep_from(name@, 0),
            first_sep <= len,
            len == name@.len(),
            forall|k: int| 0 <= k < i ==> name@[k] != ':',
        decreases first_sep - i,
    {
        if name.get_char(i) == ':' {
            return false;
        }
        i = i + 1;
    }
    let mut pos: usize = 0;
    let mut depth: usize = 0;
    loop
        invariant
            0 <= pos <= len,
            depth <= pos,
            len == name@.len(),
            forall|k: int| 0 <= k < name@.len() ==> name@[k] != '\u{0}',
            !(name@.len() > 0 && is_sep(name@[0])),
            forall|k: int| 0 <= k < find_sep_from(name@, 0) ==> name@[k] != ':',
            depth_walk(components_from(name@, 0), 0) == depth_walk(
                components_from(name@, pos as int),
                depth as int,
            ),
        decreases len - pos,
    {
        let j = find_sep(name, pos);
        let ghost cs = components_from(name@, pos as int);
        let ghost c = name@.subrange(pos as int, j as int);
        let ghost d0 = depth as int;
        proof {
            if j >= len {
                assert(cs =~= seq![name@.subrange(pos as int, len as int)]);
                assert(c =~= cs.first());
                assert(cs.drop_first() =~= Seq::<Seq<char>>::empty());
            } else {
                assert(cs =~= seq![c] + components_from(name@, j + 1));
                assert(c =~= cs.first());
                assert(cs.drop_first() =~= components_from(name@, j + 1));
            }
        }
        let clen = j - pos;
        let parent = clen == 2 && name.get_char(pos) == '.' && name.get_char(pos + 1) == '.';
        let skip = clen == 0 || (clen == 1 && name.get_char(pos) == '.');
        proof {
            if parent {
                assert(c =~= seq!['.', '.']);
            } else {
                if c.len() == 2 {
                    assert(c[0] == name@[pos as int] && c[1] == name@[pos + 1]);
                    assert(c != seq!['.', '.']);
                } else {
                    assert(c.len() != 2);
                    assert(c != seq!['.', '.']);
                }
            }
            if clen == 1 {
                if name@[pos as int] == '.' {
                    assert(c =~= seq!['.']);
                } else {
                    assert(c[0] == name@[pos as int]);
                    assert(c != seq!['.']);
                }
            } else {
                assert(c.len() != 1);
                assert(c != seq!['.']);
            }
        }
        if parent {
            if depth == 0 {
                assert(!depth_walk(cs, d0));
                return false;
            }
            depth = depth - 1;
        } else if skip {
        } else {
            depth = depth + 1;
        }
        if j >= len {
            proof {
                assert(depth_walk(Seq::<Seq<char>>::empty(), d0 - 1));
                assert(depth_walk(Seq::<Seq<char>>::empty(), d0));
                assert(depth_walk(Seq::<Seq<char>>::empty(), d0 + 1));
                assert(depth_walk(cs, d0));
            }
            return true;
        }
        pos = j + 1;
    }
}

/// A stored path naming a directory rather than a file.
pub fn is_dir_entry(name: &str) -> (r: bool)
    ensures
        r == (name@.len() > 0 && name@.last() == '/'),
{
    let len = name.unicode_len();
    len > 0 && name.get_char(len - 1) == '/'
}

/// Where one replacement stands.
#[derive(Clone, Copy, Debug, PartialEq, Eq, Structural)]
pub enum ReplaceState {
    /// Requesting the archive.
    Fetching,
    /// Writing the downloaded body to the temporary archive file.
    Saving,
    /// Moving the existing package directory aside as the backup.
    BackingUp,
    /// Unpacking the archive into the target directory.
    Extracting,
    /// Deleting the temporary archive and the backup.
    CleaningUp,
    /// The replacement succeeded.
    Done,
    /// The replacement failed; nothing further runs.
    Failed(ModError),
}

/// What the caller reports back after performing an action.
#[derive(Clone, Copy, Debug, PartialEq, Eq, Structural)]
pub enum ReplaceEvent {
    /// The archive request answered with this status.
    Status(u16),
    /// The request or the body read failed outright.
    NetFailed,
    Saved,
    SaveFailed,
    BackupReady,
    BackupFailed,
    Extracted,
    ExtractFailed,
    CleanedUp,
}

/// What the caller is to do next.
#[derive(Clone, Copy, Debug, PartialEq, Eq, Structural)]
pub enum ReplaceAction {
    FetchArchive,
    SaveArchive,
    BackupExisting,
    ExtractArchive,
    Cleanup,
    Halt,
}

/// The replacement's transition table. A failed or non-success download,
/// a failed body read and a failed save of the archive all fail the
/// replacement as download failures before any backup step, so the existing
/// package directory is untouched; a failed extraction fails it after the backup
/// step, leaving the backup on disk for manual recovery; an event that does
/// not belong to the state fails the replacement.
pub open spec fn spec_replace_step(s: ReplaceState, e: ReplaceEvent) -> (ReplaceState,
    ReplaceAction,
) {
    match (s, e) {
        (ReplaceState::Fetching, ReplaceEvent::Status(st)) => {
            if is_success(st) {
                (ReplaceState::Saving, ReplaceAction::SaveArchive)
            } else {
                (ReplaceState::Failed(ModError::DownloadFailed), ReplaceAction::Halt)
            }
        },
        (ReplaceState::Fetching, ReplaceEvent::NetFailed) => (
            ReplaceState::Failed(ModError::DownloadFailed),
            ReplaceAction::Halt,
        ),
        (ReplaceState::Saving, ReplaceEvent::Saved) => (
            ReplaceState::BackingUp,
            ReplaceAction::BackupExisting,
        ),
        (ReplaceState::Saving, ReplaceEvent::SaveFailed) => (
            ReplaceState::Failed(ModError::DownloadFailed),
            ReplaceAction::Halt,
        ),
        (ReplaceState::BackingUp, ReplaceEvent::BackupReady) => (
            ReplaceState::Extracting,
            ReplaceAction::ExtractArchive,
        ),
        (ReplaceState::BackingUp, ReplaceEvent::BackupFailed) => (
            ReplaceState::Failed(ModError::IoError),
            ReplaceAction::Halt,
        ),
        (ReplaceState::Extracting, ReplaceEvent::Extracted) => (
            ReplaceState::CleaningUp,
            ReplaceAction::Cleanup,
        ),
        (ReplaceState::Extracting, ReplaceEvent::ExtractFailed) => (
            ReplaceState::Failed(ModError::IoError),
            ReplaceAction::Halt,
        ),
        (ReplaceState::CleaningUp, ReplaceEvent::CleanedUp) => (
            ReplaceState::Done,
            ReplaceAction::Halt,
        ),
        _ => (ReplaceState::Failed(ModError::IoError), ReplaceAction::Halt),
    }
}

/// A replacement starts by requesting the archive.
pub fn replace_start() -> (r: (ReplaceState, ReplaceAction))
    ensures
        r == (ReplaceState::Fetching, ReplaceAction::FetchArchive),
{
    (ReplaceState::Fetching, ReplaceAction::FetchArchive)
}

/// Executable counterpart of `spec_replace_step`.
pub fn replace_step(s: ReplaceState, e: ReplaceEvent) -> (r: (ReplaceState, ReplaceAction))
    ensures
        r == spec_replace_step(s, e),
{
    match (s, e) {
        (ReplaceState::Fetching, ReplaceEvent::Status(st)) => {
            if 200 <= st && st < 300 {
                (ReplaceState::Saving, ReplaceAction::SaveArchive)
            } else {
                (ReplaceState::Failed(ModError::DownloadFailed), ReplaceAction::Halt)
            }
        },
        (ReplaceState::Fetching, ReplaceEvent::NetFailed) => (
            ReplaceState::Failed(ModError::DownloadFailed),
            ReplaceAction::Halt,
        ),
        (ReplaceState::Saving, ReplaceEvent::Saved) => (
            ReplaceState::BackingUp,
            ReplaceAction::BackupExisting,
        ),
        (ReplaceState::Saving, ReplaceEvent::SaveFailed) => (
            ReplaceState::Failed(ModError::DownloadFailed),
            ReplaceAction::Halt,
        ),
        (ReplaceState::BackingUp, ReplaceEvent::BackupReady) => (
            ReplaceState::Extracting,
            ReplaceAction::ExtractArchive,
        ),
        (ReplaceState::BackingUp, ReplaceEvent::BackupFailed) => (
            ReplaceState::Failed(ModError::IoError),
            ReplaceAction::Halt,
        ),
        (ReplaceState::Extracting, ReplaceEvent::Extracted) => (
            ReplaceState::CleaningUp,
            ReplaceAction::Cleanup,
        ),
        (ReplaceState::Extracting, ReplaceEvent::ExtractFailed) => (
            ReplaceState::Failed(ModError::IoError),
            ReplaceAction::Halt,
        ),
        (ReplaceState::CleaningUp, ReplaceEvent::CleanedUp) => (
            ReplaceState::Done,
            ReplaceAction::Halt,
        ),
        _ => (ReplaceState::Failed(ModError::IoError), ReplaceAction::Halt),
    }
}

/// A download that answers with a non-success status fails the replacement
/// with a download error and halts at once: the backup step is never
/// reached, so the existing package directory stays untouched.
pub proof fn lemma_failed_download_preserves_mod(st: u16)
    requires
        !is_success(st),
    ensures
        spec_replace_step(ReplaceState::Fetching, ReplaceEvent::Status(st)) == (
            ReplaceState::Failed(ModError::DownloadFailed),
            ReplaceAction::Halt,
        ),
{
}

} // verus!
