//! Mod directory scanning: turning directory observations into records and
//! ordering them for display. Records are sorted by a case-insensitive
//! comparison of their names with the content-pack tag stripped for
//! comparison purposes only; the stored name keeps the tag.

use vstd::prelude::*;
use vstd::multiset::Multiset;
use crate::ModInfo;
use crate::manifest::{
    ManifestFile, has_code_file, is_extraction_of, is_fallback_record, parse_mod_folder,
    skip_folder,
};

verus! {

/// What `str::to_lowercase` returns for a given character sequence: the
/// result depends on the characters alone.
pub uninterp spec fn lower_of(s: Seq<char>) -> Seq<char>;

/// Relies on str::to_lowercase: a new string with every character replaced
/// by its lowercase equivalent, a function of the input characters alone.
#[verifier::external_body]
fn lowercase(s: &str) -> (r: String)
    ensures
        r@ == lower_of(s@),
{
    s.to_lowercase()
}

/// The content-pack tag that display sorting ignores.
pub open spec fn cp_tag() -> Seq<char> {
    seq!['[', 'C', 'P', ']', ' ']
}

/// A name with a leading content-pack tag stripped.
pub open spec fn strip_cp(name: Seq<char>) -> Seq<char> {
    if name.len() >= 5 && name.subrange(0, 5) == cp_tag() {
        name.subrange(5, name.len() as int)
    } else {
        name
    }
}

/// The key a record is ordered by: its tag-stripped, lowercased name.
pub open spec fn clean_key(name: Seq<char>) -> Seq<char> {
    lower_of(strip_cp(name))
}

/// Lexicographic order on character sequences, by character code.
pub open spec fn char_seq_le(a: Seq<char>, b: Seq<char>) -> bool
    decreases a.len(),
{
    if a.len() == 0 {
        true
    } else if b.len() == 0 {
        false
    } else if a[0] != b[0] {
        a[0] < b[0]
    } else {
        char_seq_le(a.drop_first(), b.drop_first())
    }
}

pub proof fn lemma_char_seq_le_total(a: Seq<char>, b: Seq<char>)
    ensures
        char_seq_le(a, b) || char_seq_le(b, a),
    decreases a.len(),
{
    if a.len() != 0 && b.len() != 0 && a[0] == b[0] {
        lemma_char_seq_le_total(a.drop_first(), b.drop_first());
    }
}

pub proof fn lemma_char_seq_le_trans(a: Seq<char>, b: Seq<char>, c: Seq<char>)
    requires
        char_seq_le(a, b),
        char_seq_le(b, c),
    ensures
        char_seq_le(a, c),
    decreases a.len(),
{
    if a.len() != 0 && b.len() != 0 && c.len() != 0 && a[0] == b[0] && b[0] == c[0] {
        lemma_char_seq_le_trans(a.drop_first(), b.drop_first(), c.drop_first());
    }
}

/// The display order on records.
pub open spec fn mods_le(a: ModInfo, b: ModInfo) -> bool {
    char_seq_le(clean_key(a.name@), clean_key(b.name@))
}

pub open spec fn sorted_mods(s: Seq<ModInfo>) -> bool {
    forall|i: int, j: int| 0 <= i < j < s.len() ==> mods_le(s[i], s[j])
}

/// Strips a leading content-pack tag.
fn strip_tag<'a>(name: &'a str) -> (r: &'a str)
    ensures
        r@ == strip_cp(name@),
{
    let len = name.unicode_len();
    if len >= 5 && name.get_char(0) == '[' && name.get_char(1) == 'C' && name.get_char(2) == 'P'
        && name.get_char(3) == ']' && name.get_char(4) == ' ' {
        proof {
            assert(name@.subrange(0, 5) =~= cp_tag());
        }
        name.substring_char(5, len)
    } else {
        proof {
            if name@.len() >= 5 && name@.subrange(0, 5) == cp_tag() {
                assert(name@[0] == name@.subrange(0, 5)[0]);
                assert(name@[1] == name@.subrange(0, 5)[1]);
                assert(name@[2] == name@.subrange(0, 5)[2]);
                assert(name@[3] == name@.subrange(0, 5)[3]);
                assert(name@[4] == name@.subrange(0, 5)[4]);
            }
        }
        name
    }
}

/// The executable sort key of a record name.
fn sort_key(name: &str) -> (r: String)
    ensures
        r@ == clean_key(name@),
{
    lowercase(strip_tag(name))
}

/// Executable counterpart of `char_seq_le`.
fn keys_le(a: &str, b: &str) -> (r: bool)
    ensures
        r == char_seq_le(a@, b@),
{
    let alen = a.unicode_len();
    let blen = b.unicode_len();
    let mut i: usize = 0;
    proof {
        assert(a@.skip(0) =~= a@);
        assert(b@.skip(0) =~= b@);
    }
    while i < alen && i < blen
        invariant
            0 <= i <= alen,
            0 <= i <= blen,
            alen == a@.len(),
            blen == b@.len(),
            char_seq_le(a@, b@) == char_seq_le(a@.skip(i as int), b@.skip(i as int)),
        decreases alen - i,
    {
        proof {
            assert(a@.skip(i as int).drop_first() =~= a@.skip(i + 1));
            assert(b@.skip(i as int).drop_first() =~= b@.skip(i + 1));
            assert(a@.skip(i as int)[0] == a@[i as int]);
            assert(b@.skip(i as int)[0] == b@[i as int]);
        }
        let ca = a.get_char(i);
        let cb = b.get_char(i);
        if ca != cb {
            return ca < cb;
        }
        i = i + 1;
    }
    assert(a@.skip(i as int).len() == 0 || b@.skip(i as int).len() == 0);
    i >= alen
}

/// Executable counterpart of `mods_le`.
fn mods_le_exec(a: &ModInfo, b: &ModInfo) -> (r: bool)
    ensures
        r == mods_le(*a, *b),
{
    let ka = sort_key(a.name.as_str());
    let kb = sort_key(b.name.as_str());
    keys_le(ka.as_str(), kb.as_str())
}

proof fn lemma_insert_to_multiset(s: Seq<ModInfo>, j: int, x: ModInfo)
    requires
        0 <= j <= s.len(),
    ensures
        s.insert(j, x).to_multiset() == s.to_multiset().insert(x),
{
    broadcast use vstd::seq_lib::group_to_multiset_ensures;
    broadcast use vstd::seq_lib::lemma_multiset_commutative;
    broadcast use vstd::multiset::group_multiset_axioms;

    let a = s.subrange(0, j);
    let b = s.subrange(j, s.len() as int);
    assert(s =~= a + b);
    assert((a.push(x) + b).to_multiset() =~= a.push(x).to_multiset().add(b.to_multiset()));
    assert(a.push(x).to_multiset() =~= a.to_multiset().insert(x));
    assert((a + b).to_multiset() =~= a.to_multiset().add(b.to_multiset()));
    assert(s.insert(j, x).to_multiset() =~= s.to_multiset().insert(x));
}

/// Inserts one record into an ordered vector, keeping it ordered.
fn insert_sorted(out: &mut Vec<ModInfo>, m: ModInfo)
    requires
        sorted_mods(old(out)@),
    ensures
        sorted_mods(final(out)@),
        final(out)@.to_multiset() == old(out)@.to_multiset().insert(m),
{
    let ghost os = old(out)@;
    let mut j: usize = 0;
    while j < out.len() && mods_le_exec(&out[j], &m)
        invariant
            0 <= j <= out@.len(),
            out@ == os,
            sorted_mods(os),
            forall|k: int| 0 <= k < j ==> mods_le(os[k], m),
        decreases out@.len() - j,
    {
        j = j + 1;
    }
    proof {
        if j < os.len() {
            lemma_char_seq_le_total(clean_key(os[j as int].name@), clean_key(m.name@));
        }
    }
    let ghost jj = j as int;
    out.insert(j, m);
    proof {
        lemma_insert_to_multiset(os, jj, m);
        let ns = os.insert(jj, m);
        assert forall|x: int, y: int| 0 <= x < y < ns.len() implies mods_le(ns[x], ns[y]) by {
            if y < jj {
                assert(ns[x] == os[x] && ns[y] == os[y]);
            } else if x < jj && y == jj {
                assert(ns[x] == os[x] && ns[y] == m);
            } else if x < jj && y > jj {
                assert(ns[x] == os[x] && ns[y] == os[y - 1]);
            } else if x == jj && y > jj {
                assert(ns[x] == m && ns[y] == os[y - 1]);
                if jj < y - 1 {
                    assert(mods_le(os[jj], os[y - 1]));
                    lemma_char_seq_le_trans(
                        clean_key(m.name@),
                        clean_key(os[jj].name@),
                        clean_key(os[y - 1].name@),
                    );
                }
            } else {
                assert(ns[x] == os[x - 1] && ns[y] == os[y - 1]);
            }
        }
    }
}

/// Orders records for display: ascending by tag-stripped, lowercased name.
/// The result is a permutation of the input.
pub fn sort_mods(mods: Vec<ModInfo>) -> (r: Vec<ModInfo>)
    ensures
        sorted_mods(r@),
        r@.to_multiset() == mods@.to_multiset(),
{
    broadcast use vstd::seq_lib::group_to_multiset_ensures;
    broadcast use vstd::multiset::group_multiset_axioms;

    let mut rest = mods;
    let mut out: Vec<ModInfo> = Vec::new();
    proof {
        assert(out@.to_multiset() =~= Multiset::<ModInfo>::empty());
    }
    while rest.len() > 0
        invariant
            sorted_mods(out@),
            out@.to_multiset().add(rest@.to_multiset()) == mods@.to_multiset(),
        decreases rest@.len(),
    {
        broadcast use vstd::seq_lib::group_to_multiset_ensures;
        broadcast use vstd::multiset::group_multiset_axioms;

        let ghost ro = rest@;
        let ghost oo = out@;
        let m = rest.pop().unwrap();
        proof {
            assert(ro =~= rest@.push(m));
            assert(ro.to_multiset() =~= rest@.to_multiset().insert(m));
        }
        insert_sorted(&mut out, m);
        proof {
            assert(out@.to_multiset().add(rest@.to_multiset()) =~= oo.to_multiset().add(
                ro.to_multiset(),
            ));
        }
    }
    proof {
        assert(rest@.to_multiset() =~= Multiset::<ModInfo>::empty());
        assert(out@.to_multiset() =~= mods@.to_multiset());
    }
    out
}

/// One directory entry handed to the scanner: the folder's name, how its
/// manifest presented itself, and the names of its immediate files.
pub struct ScanEntry {
    pub folder_name: String,
    pub manifest: ManifestFile,
    pub file_names: Vec<String>,
}

/// Whether a directory entry yields a record at all.
#[verifier::opaque]
pub open spec fn entry_yields(e: ScanEntry) -> bool {
    &&& !skip_folder(e.folder_name@)
    &&& match e.manifest {
        ManifestFile::Text(_) => true,
        ManifestFile::Missing => has_code_file(e.file_names.deep_view()),
        ManifestFile::Unreadable => false,
    }
}

/// The record an entry yields, described field by field.
#[verifier::opaque]
pub open spec fn record_of_entry(m: ModInfo, e: ScanEntry) -> bool {
    match e.manifest {
        ManifestFile::Text(t) => is_extraction_of(&m, e.folder_name@, t@),
        ManifestFile::Missing => is_fallback_record(&m, e.folder_name@),
        ManifestFile::Unreadable => false,
    }
}

/// How many of the entries yield a record.
pub open spec fn count_records(es: Seq<ScanEntry>) -> int
    decreases es.len(),
{
    if es.len() == 0 {
        0
    } else {
        count_records(es.drop_last()) + if entry_yields(es.last()) {
            1int
        } else {
            0int
        }
    }
}

/// The record stands for one of the first `n` entries.
pub open spec fn from_some_entry(m: ModInfo, es: Seq<ScanEntry>, n: int) -> bool {
    exists|x: int| 0 <= x < n && entry_yields(es[x]) && #[trigger] record_of_entry(m, es[x])
}

/// Some record in `rs` stands for entry `x`.
pub open spec fn entry_represented(es: Seq<ScanEntry>, x: int, rs: Seq<ModInfo>) -> bool {
    exists|k: int| 0 <= k < rs.len() && #[trigger] record_of_entry(rs[k], es[x])
}

/// Turns directory entries into records, one per yielding entry, then orders
/// them for display: every record stands for a yielding entry, and every
/// yielding entry is represented.
#[verifier::rlimit(50)]
pub fn scan_records(entries: Vec<ScanEntry>) -> (r: Vec<ModInfo>)
    ensures
        sorted_mods(r@),
        r@.len() == count_records(entries@),
        forall|k: int| 0 <= k < r@.len() ==> #[trigger] from_some_entry(
            r@[k],
            entries@,
            entries@.len() as int,
        ),
        forall|x: int| 0 <= x < entries@.len() && entry_yields(entries@[x])
            ==> #[trigger] entry_represented(entries@, x, r@),
{
    broadcast use vstd::seq_lib::group_to_multiset_ensures;

    let mut collected: Vec<ModInfo> = Vec::new();
    let mut i: usize = 0;
    while i < entries.len()
        invariant
            0 <= i <= entries@.len(),
            collected@.len() == count_records(entries@.subrange(0, i as int)),
            forall|k: int| 0 <= k < collected@.len() ==> #[trigger] from_some_entry(
                collected@[k],
                entries@,
                i as int,
            ),
            forall|x: int| 0 <= x < i && entry_yields(entries@[x])
                ==> #[trigger] entry_represented(entries@, x, collected@),
        decreases entries@.len() - i,
    {
        let e = &entries[i];
        let ghost pre = collected@;
        let rec = parse_mod_folder(e.folder_name.as_str(), &e.manifest, &e.file_names);
        match rec {
            Some(m) => {
                proof {
                    reveal(entry_yields);
                    reveal(record_of_entry);
                    assert(entry_yields(entries@[i as int]));
                    assert(record_of_entry(m, entries@[i as int]));
                }
                collected.push(m);
                proof {
                    assert forall|k: int| 0 <= k < collected@.len() implies #[trigger] from_some_entry(
                        collected@[k],
                        entries@,
                        i + 1,
                    ) by {
                        if k < pre.len() {
                            assert(collected@[k] == pre[k]);
                            assert(from_some_entry(pre[k], entries@, i as int));
                            let x0 = choose|x0: int|
                                0 <= x0 < i && entry_yields(entries@[x0])
                                    && #[trigger] record_of_entry(pre[k], entries@[x0]);
                            assert(record_of_entry(collected@[k], entries@[x0]));
                        } else {
                            assert(collected@[k] == m);
                            assert(record_of_entry(collected@[k], entries@[i as int]));
                        }
                    }
                    assert forall|x: int|
                        0 <= x < i + 1 && entry_yields(entries@[x]) implies #[trigger] entry_represented(
                        entries@,
                        x,
                        collected@,
                    ) by {
                        if x < i {
                            assert(entry_represented(entries@, x, pre));
                            let k0 = choose|k0: int|
                                0 <= k0 < pre.len() && #[trigger] record_of_entry(
                                    pre[k0],
                                    entries@[x],
                                );
                            assert(collected@[k0] == pre[k0]);
                            assert(record_of_entry(collected@[k0], entries@[x]));
                        } else {
                            assert(collected@[pre.len() as int] == m);
                            assert(record_of_entry(collected@[pre.len() as int], entries@[x]));
                        }
                    }
                }
            },
            None => {
                proof {
                    reveal(entry_yields);
                    assert(!entry_yields(entries@[i as int]));
                    assert forall|k: int| 0 <= k < collected@.len() implies #[trigger] from_some_entry(
                        collected@[k],
                        entries@,
                        i + 1,
                    ) by {
                        assert(from_some_entry(collected@[k], entries@, i as int));
                        let x0 = choose|x0: int|
                            0 <= x0 < i && entry_yields(entries@[x0]) && #[trigger] record_of_entry(
                                collected@[k],
                                entries@[x0],
                            );
                        assert(record_of_entry(collected@[k], entries@[x0]));
                    }
                }
            },
        }
        proof {
            assert(entries@.subrange(0, i + 1).drop_last() =~= entries@.subrange(0, i as int));
            assert(entries@.subrange(0, i + 1).last() == entries@[i as int]);
        }
        i = i + 1;
    }
    proof {
        assert(entries@.subrange(0, entries@.len() as int) =~= entries@);
    }
    let ghost cs = collected@;
    let r = sort_mods(collected);
    proof {
        assert(r@.to_multiset() == cs.to_multiset());
        assert(r@.to_multiset().len() == r@.len());
        assert(cs.to_multiset().len() == cs.len());
        assert forall|k: int| 0 <= k < r@.len() implies #[trigger] from_some_entry(
            r@[k],
            entries@,
            entries@.len() as int,
        ) by {
            assert(r@.contains(r@[k]));
            assert(r@.to_multiset().count(r@[k]) > 0);
            assert(cs.to_multiset().count(r@[k]) > 0);
            assert(cs.contains(r@[k]));
            let k0 = choose|k0: int| 0 <= k0 < cs.len() && cs[k0] == r@[k];
            assert(from_some_entry(cs[k0], entries@, entries@.len() as int));
        }
        assert forall|x: int|
            0 <= x < entries@.len() && entry_yields(entries@[x]) implies #[trigger] entry_represented(
            entries@,
            x,
            r@,
        ) by {
            assert(entry_represented(entries@, x, cs));
            let k0 = choose|k0: int|
                0 <= k0 < cs.len() && #[trigger] record_of_entry(cs[k0], entries@[x]);
            assert(cs.contains(cs[k0]));
            assert(cs.to_multiset().count(cs[k0]) > 0);
            assert(r@.to_multiset().count(cs[k0]) > 0);
            assert(r@.contains(cs[k0]));
            let k = choose|k: int| 0 <= k < r@.len() && r@[k] == cs[k0];
            assert(record_of_entry(r@[k], entries@[x]));
        }
    }
    r
}

} // verus!
