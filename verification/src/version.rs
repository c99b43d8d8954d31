//! Dotted version-string comparison: both operands are split on `.`, each
//! segment is read as a non-negative integer (a segment that is not a plain
//! number, or does not fit the segment width, counts as 0), and the segment
//! values are compared left to right with the shorter operand padded with
//! zeros.

use vstd::prelude::*;
use crate::text::find_from;

verus! {

pub open spec fn is_digit(c: char) -> bool {
    '0' <= c && c <= '9'
}

pub open spec fn digit_val(c: char) -> int {
    c as int - '0' as int
}

pub open spec fn all_digits(s: Seq<char>) -> bool {
    forall|i: int| 0 <= i < s.len() ==> is_digit(s[i])
}

/// Decimal value of a digit string.
pub open spec fn dec_val(s: Seq<char>) -> int
    decreases s.len(),
{
    if s.len() == 0 {
        0
    } else {
        dec_val(s.drop_last()) * 10 + digit_val(s.last())
    }
}

/// The numeric value of one version segment: its decimal value if it is a
/// non-empty digit string whose value fits the segment width, else 0.
pub open spec fn seg_value(s: Seq<char>) -> int {
    if s.len() > 0 && all_digits(s) && dec_val(s) <= u32::MAX {
        dec_val(s)
    } else {
        0
    }
}

/// The segment values of a version string, in order: the string is split on
/// every `.` and each piece is read with `seg_value`.
pub open spec fn seg_values_from(t: Seq<char>, i: int) -> Seq<int>
    decreases t.len() - i,
{
    if i < 0 || i > t.len() {
        seq![]
    } else {
        let j = find_from(t, '.', i);
        if j >= t.len() {
            seq![seg_value(t.subrange(i, t.len() as int))]
        } else if i <= j < t.len() {
            seq![seg_value(t.subrange(i, j))] + seg_values_from(t, j + 1)
        } else {
            seq![]
        }
    }
}

pub open spec fn version_values(t: Seq<char>) -> Seq<int> {
    seg_values_from(t, 0)
}

/// Comparison of two segment-value sequences from position `i` on, missing
/// trailing segments read as 0: true iff at the first differing position the
/// `latest` side is the greater.
pub open spec fn newer_from(cur: Seq<int>, lat: Seq<int>, i: int) -> bool
    decreases cur.len() + lat.len() - i,
{
    if i < 0 {
        newer_from(cur, lat, 0)
    } else if i >= cur.len() && i >= lat.len() {
        false
    } else {
        let cv = if i < cur.len() { cur[i] } else { 0 };
        let lv = if i < lat.len() { lat[i] } else { 0 };
        if lv > cv {
            true
        } else if lv < cv {
            false
        } else {
            newer_from(cur, lat, i + 1)
        }
    }
}

/// Whether `latest` names a strictly newer version than `current`: equal
/// strings never do, otherwise the zero-padded segment comparison decides.
pub open spec fn spec_is_newer(current: Seq<char>, latest: Seq<char>) -> bool {
    if current == latest {
        false
    } else {
        newer_from(version_values(current), version_values(latest), 0)
    }
}

/// `a` is at least `b` under the ordinal rule: at the first position where
/// the zero-padded segment values differ, `a`'s is the greater, or there is
/// no such position.
pub open spec fn ge_from(a: Seq<int>, b: Seq<int>, i: int) -> bool
    decreases a.len() + b.len() - i,
{
    if i < 0 {
        ge_from(a, b, 0)
    } else if i >= a.len() && i >= b.len() {
        true
    } else {
        let av = if i < a.len() { a[i] } else { 0 };
        let bv = if i < b.len() { b[i] } else { 0 };
        if av > bv {
            true
        } else if av < bv {
            false
        } else {
            ge_from(a, b, i + 1)
        }
    }
}

pub open spec fn version_ge(a: Seq<char>, b: Seq<char>) -> bool {
    ge_from(version_values(a), version_values(b), 0)
}

proof fn lemma_ge_not_newer(a: Seq<int>, b: Seq<int>, i: int)
    requires
        ge_from(a, b, i),
    ensures
        !newer_from(a, b, i),
    decreases a.len() + b.len() - i,
{
    if i < 0 {
        lemma_ge_not_newer(a, b, 0);
    } else if i >= a.len() && i >= b.len() {
    } else {
        let av = if i < a.len() { a[i] } else { 0 };
        let bv = if i < b.len() { b[i] } else { 0 };
        if av == bv {
            lemma_ge_not_newer(a, b, i + 1);
        }
    }
}

/// Whenever `a` is at least `b` under the ordinal rule, `b` is never reported
/// as newer than `a`.
pub proof fn lemma_no_update_when_current_ahead(a: Seq<char>, b: Seq<char>)
    requires
        version_ge(a, b),
    ensures
        !spec_is_newer(a, b),
{
    lemma_ge_not_newer(version_values(a), version_values(b), 0);
}

/// Reads the digit string `s[start..end)` as a segment value.
fn segment_value(s: &str, start: usize, end: usize) -> (v: u32)
    requires
        start <= end <= s@.len(),
    ensures
        v as int == seg_value(s@.subrange(start as int, end as int)),
{
    let ghost seg = s@.subrange(start as int, end as int);
    if start == end {
        assert(seg.len() == 0);
        return 0;
    }
    // First pass: the segment must be all digits.
    let mut i = start;
    while i < end
        invariant
            start <= i <= end <= s@.len(),
            seg == s@.subrange(start as int, end as int),
            forall|j: int| start <= j < i ==> is_digit(s@[j]),
        decreases end - i,
    {
        let c = s.get_char(i);
        if c < '0' || c > '9' {
            assert(!is_digit(seg[i - start as int]));
            return 0;
        }
        i = i + 1;
    }
    assert forall|j: int| 0 <= j < seg.len() implies is_digit(seg[j]) by {
        assert(seg[j] == s@[start as int + j]);
    }
    // Second pass: accumulate, watching the segment width.
    let mut acc: u64 = 0;
    let mut i = start;
    while i < end
        invariant
            start <= i <= end <= s@.len(),
            seg == s@.subrange(start as int, end as int),
            all_digits(seg),
            acc as int == dec_val(s@.subrange(start as int, i as int)),
            acc <= u32::MAX,
        decreases end - i,
    {
        let c = s.get_char(i);
        proof {
            assert(is_digit(seg[i - start as int]));
            assert(s@[i as int] == seg[i - start as int]);
        }
        let d: u64 = (c as u32 as u64) - ('0' as u32 as u64);
        proof {
            assert(s@.subrange(start as int, i + 1).drop_last() =~= s@.subrange(
                start as int,
                i as int,
            ));
            assert(s@.subrange(start as int, i + 1).last() == s@[i as int]);
        }
        let next: u64 = acc * 10 + d;
        if next > u32::MAX as u64 {
            proof {
                lemma_dec_val_grows(seg, i + 1 - start as int);
                assert(seg.subrange(0, i + 1 - start as int) =~= s@.subrange(start as int, i + 1));
            }
            return 0;
        }
        acc = next;
        i = i + 1;
    }
    assert(seg =~= s@.subrange(start as int, end as int));
    acc as u32
}

/// A digit string's decimal value is at least that of any of its prefixes.
proof fn lemma_dec_val_grows(s: Seq<char>, i: int)
    requires
        0 <= i <= s.len(),
        all_digits(s),
    ensures
        dec_val(s) >= dec_val(s.subrange(0, i)),
        dec_val(s) >= 0,
    decreases s.len() - i,
{
    if i == s.len() {
        assert(s.subrange(0, i) =~= s);
        lemma_dec_val_nonneg(s);
    } else {
        lemma_dec_val_grows(s, i + 1);
        let p1 = s.subrange(0, i + 1);
        assert(p1.drop_last() =~= s.subrange(0, i));
        assert(is_digit(p1.last()));
        lemma_dec_val_nonneg(s.subrange(0, i));
    }
}

proof fn lemma_dec_val_nonneg(s: Seq<char>)
    requires
        all_digits(s),
    ensures
        dec_val(s) >= 0,
    decreases s.len(),
{
    if s.len() > 0 {
        assert(all_digits(s.drop_last())) by {
            assert(forall|i: int| 0 <= i < s.len() - 1 ==> s.drop_last()[i] == s[i]);
        }
        lemma_dec_val_nonneg(s.drop_last());
        assert(is_digit(s.last()));
    }
}

/// Splits a version string on `.` and reads each segment's value.
pub fn parse_version_parts(s: &str) -> (parts: Vec<u32>)
    ensures
        parts@.map_values(|v: u32| v as int) == version_values(s@),
{
    let v = parse_parts_from(s, 0);
    v
}

fn parse_parts_from(s: &str, start: usize) -> (parts: Vec<u32>)
    requires
        start <= s@.len(),
    ensures
        parts@.map_values(|v: u32| v as int) == seg_values_from(s@, start as int),
    decreases s@.len() - start,
{
    proof {
        crate::text::lemma_find_from_bounds(s@, '.', start as int);
    }
    let j = crate::text::find_char(s, '.', start);
    let len = s.unicode_len();
    let first = segment_value(s, start, j);
    if j >= len {
        let mut parts: Vec<u32> = Vec::new();
        parts.push(first);
        assert(parts@.map_values(|v: u32| v as int) =~= seg_values_from(s@, start as int));
        parts
    } else {
        let mut rest = parse_parts_from(s, j + 1);
        rest.insert(0, first);
        assert(rest@.map_values(|v: u32| v as int) =~= seg_values_from(s@, start as int));
        rest
    }
}

/// Whether `latest` names a strictly newer version than `current`.
///
/// Equal strings short-circuit to `false`; otherwise the zero-padded
/// left-to-right comparison of segment values decides, and a locally ahead
/// `current` never reports an update.
pub fn version_compare(current: &str, latest: &str) -> (r: bool)
    ensures
        r == spec_is_newer(current@, latest@),
{
    if crate::text::str_eq(current, latest) {
        return false;
    }
    let cur = parse_version_parts(current);
    let lat = parse_version_parts(latest);
    let ghost cs = version_values(current@);
    let ghost ls = version_values(latest@);
    let max_len = if cur.len() > lat.len() {
        cur.len()
    } else {
        lat.len()
    };
    let mut i: usize = 0;
    while i < max_len
        invariant
            0 <= i <= max_len,
            max_len == (if cur.len() > lat.len() {
                cur.len() as int
            } else {
                lat.len() as int
            }),
            cur@.map_values(|v: u32| v as int) == cs,
            lat@.map_values(|v: u32| v as int) == ls,
            cs == version_values(current@),
            ls == version_values(latest@),
            current@ != latest@,
            newer_from(cs, ls, 0) == newer_from(cs, ls, i as int),
        decreases max_len - i,
    {
        let cv: u32 = if i < cur.len() {
            cur[i]
        } else {
            0
        };
        let lv: u32 = if i < lat.len() {
            lat[i]
        } else {
            0
        };
        proof {
            assert(cs.len() == cur@.len());
            assert(ls.len() == lat@.len());
            assert(i < cur@.len() ==> cs[i as int] == cur@[i as int] as int);
            assert(i < lat@.len() ==> ls[i as int] == lat@[i as int] as int);
        }
        if lv > cv {
            assert(newer_from(cs, ls, i as int));
            return true;
        } else if lv < cv {
            assert(!newer_from(cs, ls, i as int));
            return false;
        }
        assert(newer_from(cs, ls, i as int) == newer_from(cs, ls, i + 1));
        i = i + 1;
    }
    assert(!newer_from(cs, ls, i as int));
    false
}

} // verus!
