//! Character-level scanning primitives shared by the manifest extractor, the
//! version comparator and the update-key parser: whitespace classification,
//! first-occurrence search, and their executable counterparts.

use vstd::prelude::*;

verus! {

/// The whitespace characters the lenient scanners and trims skip: the
/// Unicode White_Space set.
pub open spec fn is_ws(c: char) -> bool {
    ||| c == ' '
    ||| '\t' <= c && c <= '\r'
    ||| c == '\u{85}'
    ||| c == '\u{a0}'
    ||| c == '\u{1680}'
    ||| '\u{2000}' <= c && c <= '\u{200a}'
    ||| c == '\u{2028}'
    ||| c == '\u{2029}'
    ||| c == '\u{202f}'
    ||| c == '\u{205f}'
    ||| c == '\u{3000}'
}

/// Index of the first occurrence of `c` in `t` at or after `i`, or `t.len()`
/// if there is none.
pub open spec fn find_from(t: Seq<char>, c: char, i: int) -> int
    decreases t.len() - i,
{
    if i >= t.len() {
        t.len() as int
    } else if i < 0 {
        find_from(t, c, 0)
    } else if t[i] == c {
        i
    } else {
        find_from(t, c, i + 1)
    }
}

/// Index of the first non-whitespace character in `t` at or after `i`, or
/// `t.len()` if there is none.
pub open spec fn find_non_ws(t: Seq<char>, i: int) -> int
    decreases t.len() - i,
{
    if i >= t.len() {
        t.len() as int
    } else if i < 0 {
        find_non_ws(t, 0)
    } else if is_ws(t[i]) {
        find_non_ws(t, i + 1)
    } else {
        i
    }
}

/// Index of the first whitespace character in `t` at or after `i`, or
/// `t.len()` if there is none.
pub open spec fn find_ws_from(t: Seq<char>, i: int) -> int
    decreases t.len() - i,
{
    if i >= t.len() {
        t.len() as int
    } else if i < 0 {
        find_ws_from(t, 0)
    } else if is_ws(t[i]) {
        i
    } else {
        find_ws_from(t, i + 1)
    }
}

/// Index of the last occurrence of `c` in `t`, or -1.
pub open spec fn last_index_of(t: Seq<char>, c: char) -> int
    decreases t.len(),
{
    if t.len() == 0 {
        -1
    } else if t.last() == c {
        t.len() - 1
    } else {
        last_index_of(t.drop_last(), c)
    }
}

/// End (exclusive) of the trailing whitespace run that precedes index `i`:
/// the least `b <= i` such that every character in `t[b..i)` is whitespace
/// and `t[b-1]`, if any, is not.
pub open spec fn skip_ws_back(t: Seq<char>, i: int) -> int
    decreases i,
{
    if i <= 0 {
        0
    } else if i > t.len() {
        skip_ws_back(t, t.len() as int)
    } else if is_ws(t[i - 1]) {
        skip_ws_back(t, i - 1)
    } else {
        i
    }
}

pub proof fn lemma_find_from_bounds(t: Seq<char>, c: char, i: int)
    requires
        0 <= i <= t.len(),
    ensures
        i <= find_from(t, c, i) <= t.len(),
        find_from(t, c, i) < t.len() ==> t[find_from(t, c, i)] == c,
        forall|j: int| i <= j < find_from(t, c, i) ==> t[j] != c,
    decreases t.len() - i,
{
    if i < t.len() && t[i] != c {
        lemma_find_from_bounds(t, c, i + 1);
    }
}

pub proof fn lemma_find_non_ws_bounds(t: Seq<char>, i: int)
    requires
        0 <= i <= t.len(),
    ensures
        i <= find_non_ws(t, i) <= t.len(),
        find_non_ws(t, i) < t.len() ==> !is_ws(t[find_non_ws(t, i)]),
        forall|j: int| i <= j < find_non_ws(t, i) ==> is_ws(t[j]),
    decreases t.len() - i,
{
    if i < t.len() && is_ws(t[i]) {
        lemma_find_non_ws_bounds(t, i + 1);
    }
}

pub proof fn lemma_skip_ws_back_bounds(t: Seq<char>, i: int)
    requires
        0 <= i <= t.len(),
    ensures
        0 <= skip_ws_back(t, i) <= i,
        skip_ws_back(t, i) > 0 ==> !is_ws(t[skip_ws_back(t, i) - 1]),
        forall|j: int| skip_ws_back(t, i) <= j < i ==> is_ws(t[j]),
    decreases i,
{
    if i > 0 && is_ws(t[i - 1]) {
        lemma_skip_ws_back_bounds(t, i - 1);
    }
}

/// Executable counterpart of `is_ws`.
pub fn ws_char(c: char) -> (r: bool)
    ensures
        r == is_ws(c),
{
    c == ' ' || ('\t' <= c && c <= '\r') || c == '\u{85}' || c == '\u{a0}' || c == '\u{1680}'
        || ('\u{2000}' <= c && c <= '\u{200a}') || c == '\u{2028}' || c == '\u{2029}'
        || c == '\u{202f}' || c == '\u{205f}' || c == '\u{3000}'
}

/// Executable counterpart of `find_from`.
pub fn find_char(s: &str, c: char, from: usize) -> (r: usize)
    requires
        from <= s@.len(),
    ensures
        r == find_from(s@, c, from as int),
        from <= r <= s@.len(),
{
    let len = s.unicode_len();
    let mut i = from;
    while i < len
        invariant
            from <= i <= len,
            len == s@.len(),
            find_from(s@, c, from as int) == find_from(s@, c, i as int),
        decreases len - i,
    {
        if s.get_char(i) == c {
            return i;
        }
        i = i + 1;
    }
    i
}

pub proof fn lemma_find_ws_bounds(t: Seq<char>, i: int)
    requires
        0 <= i <= t.len(),
    ensures
        i <= find_ws_from(t, i) <= t.len(),
        find_ws_from(t, i) < t.len() ==> is_ws(t[find_ws_from(t, i)]),
        forall|j: int| i <= j < find_ws_from(t, i) ==> !is_ws(t[j]),
    decreases t.len() - i,
{
    if i < t.len() && !is_ws(t[i]) {
        lemma_find_ws_bounds(t, i + 1);
    }
}

/// Executable counterpart of `find_ws_from`.
pub fn find_ws(s: &str, from: usize) -> (r: usize)
    requires
        from <= s@.len(),
    ensures
        r == find_ws_from(s@, from as int),
        from <= r <= s@.len(),
{
    let len = s.unicode_len();
    let mut i = from;
    while i < len
        invariant
            from <= i <= len,
            len == s@.len(),
            find_ws_from(s@, from as int) == find_ws_from(s@, i as int),
        decreases len - i,
    {
        if ws_char(s.get_char(i)) {
            return i;
        }
        i = i + 1;
    }
    i
}

/// Executable counterpart of `find_non_ws`.
pub fn skip_ws(s: &str, from: usize) -> (r: usize)
    requires
        from <= s@.len(),
    ensures
        r == find_non_ws(s@, from as int),
        from <= r <= s@.len(),
{
    let len = s.unicode_len();
    let mut i = from;
    while i < len
        invariant
            from <= i <= len,
            len == s@.len(),
            find_non_ws(s@, from as int) == find_non_ws(s@, i as int),
        decreases len - i,
    {
        if !ws_char(s.get_char(i)) {
            return i;
        }
        i = i + 1;
    }
    i
}

/// Whether the views of two string slices are equal, character by character.
pub fn str_eq(a: &str, b: &str) -> (r: bool)
    ensures
        r == (a@ == b@),
{
    let alen = a.unicode_len();
    let blen = b.unicode_len();
    if alen != blen {
        assert(a@ != b@);
        return false;
    }
    let mut i: usize = 0;
    while i < alen
        invariant
            0 <= i <= alen,
            alen == a@.len(),
            alen == b@.len(),
            forall|j: int| 0 <= j < i ==> a@[j] == b@[j],
        decreases alen - i,
    {
        if a.get_char(i) != b.get_char(i) {
            assert(a@ != b@);
            return false;
        }
        i = i + 1;
    }
    assert(a@ =~= b@);
    true
}

} // verus!
