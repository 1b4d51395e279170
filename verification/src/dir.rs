//! The file list of directory mode: which files and folders count, how deep the scan goes, their order, and which files are small enough to open.
use crate::app::DirEntry;
use crate::text::chars_of;
use crate::themes::str_eq;
use vstd::prelude::*;

verus! {

broadcast use vstd::multiset::group_multiset_axioms;

/// The largest file the viewer opens, in bytes: 50 MB.
pub const MAX_FILE_SIZE: u64 = 50 * 1024 * 1024;

/// Whether a file of `len` bytes may be opened: files larger than 50 MB are refused.
pub fn size_allowed(len: u64) -> (b: bool)
    ensures
        b == (len <= 52_428_800),
{
    len <= MAX_FILE_SIZE
}

/// How deep below the folder it opens the scan for Markdown files goes.
pub const MAX_SCAN_DEPTH: usize = 20;

/// Whether the scan reads a folder `depth` levels below the one it opens: no deeper than
/// twenty levels.
pub fn scans_depth(depth: usize) -> (b: bool)
    ensures
        b == (depth <= 20),
{
    depth <= MAX_SCAN_DEPTH
}

/// Whether a file extension marks a Markdown file.
pub fn is_markdown_extension(ext: &str) -> (b: bool)
    ensures
        b == (ext@ == "md"@ || ext@ == "markdown"@),
{
    str_eq(ext, "md") || str_eq(ext, "markdown")
}

/// Whether a folder is left out of the scan: hidden folders and build output.
pub fn skips_directory(name: &str) -> (b: bool)
    ensures
        b == ((name@.len() > 0 && name@[0] == '.') || name@ == "target"@),
{
    let v = chars_of(name);
    if v.len() > 0 && v[0] == '.' {
        return true;
    }
    str_eq(name, "target")
}

/// The entries are in order of modification time, newest first.
pub open spec fn newest_first(s: Seq<DirEntry>) -> bool {
    forall|i: int, j: int| 0 <= i < j < s.len() ==> s[i].modified >= s[j].modified
}

/// Whether an entry was modified at `t`.
pub open spec fn modified_at(t: u64) -> spec_fn(DirEntry) -> bool {
    |e: DirEntry| e.modified == t
}

/// The place of the first newest entry of a non-empty list.
fn newest_index(v: &Vec<DirEntry>) -> (k: usize)
    requires
        v@.len() > 0,
    ensures
        k < v@.len(),
        forall|j: int| 0 <= j < v@.len() ==> v@[j].modified <= v@[k as int].modified,
        forall|j: int| 0 <= j < k ==> v@[j].modified < v@[k as int].modified,
{
    let mut best: usize = 0;
    let mut k: usize = 1;
    while k < v.len()
        invariant
            best < k <= v@.len(),
            forall|j: int| 0 <= j < k ==> v@[j].modified <= v@[best as int].modified,
            forall|j: int| 0 <= j < best ==> v@[j].modified < v@[best as int].modified,
        decreases v@.len() - k,
    {
        if v[k].modified > v[best].modified {
            best = k;
        }
        k = k + 1;
    }
    best
}

/// A one-element list keeps its element where the element passes.
proof fn lemma_filter_single(e: DirEntry, t: u64)
    ensures
        seq![e].filter(modified_at(t)) == (if e.modified == t {
            seq![e]
        } else {
            Seq::<DirEntry>::empty()
        }),
{
    reveal(Seq::filter);
    Seq::<DirEntry>::empty().lemma_filter_push(e, modified_at(t));
    assert(Seq::<DirEntry>::empty().push(e) =~= seq![e]);
    assert(Seq::<DirEntry>::empty().filter(modified_at(t)) =~= Seq::<DirEntry>::empty());
    assert(Seq::<DirEntry>::empty().push(e) =~= seq![e]);
}

/// Taking out the first newest entry takes out the first of its time and no other.
proof fn lemma_take_first_newest(before: Seq<DirEntry>, k: int, t: u64)
    requires
        0 <= k < before.len(),
        forall|j: int| 0 <= j < k ==> before[j].modified < before[k].modified,
    ensures
        before.filter(modified_at(t)) == seq![before[k]].filter(modified_at(t)) + before.remove(k).filter(
            modified_at(t),
        ),
{
    let p = modified_at(t);
    let head = before.take(k);
    let tail = before.skip(k + 1);
    let e = before[k];
    assert(before =~= head + (seq![e] + tail));
    assert(before.remove(k) =~= head + tail);
    Seq::filter_distributes_over_add(head, seq![e] + tail, p);
    Seq::filter_distributes_over_add(seq![e], tail, p);
    Seq::filter_distributes_over_add(head, tail, p);
    lemma_filter_single(e, t);
    if e.modified == t {
        assert(head.all(|x: DirEntry| !p(x))) by {
            assert forall|i: int| 0 <= i < head.len() implies !p(#[trigger] head[i]) by {
                assert(head[i] == before[i]);
            }
        }
        head.lemma_all_neg_filter_empty(p);
        assert(head.filter(p) =~= Seq::<DirEntry>::empty());
        assert(head.filter(p) + tail.filter(p) =~= tail.filter(p));
        assert(head.filter(p) + (seq![e].filter(p) + tail.filter(p)) =~= seq![e].filter(p) + tail.filter(p));
    } else {
        assert(seq![e].filter(p) =~= Seq::<DirEntry>::empty());
        assert(seq![e].filter(p) + tail.filter(p) =~= tail.filter(p));
        assert(seq![e].filter(p) + (head.filter(p) + tail.filter(p)) =~= head.filter(p) + tail.filter(p));
    }
}

/// The entries ordered newest first; entries modified at the same time keep their order.
pub fn sort_newest_first(entries: Vec<DirEntry>) -> (r: Vec<DirEntry>)
    ensures
        r@.to_multiset() == entries@.to_multiset(),
        newest_first(r@),
        forall|t: u64| #[trigger] r@.filter(modified_at(t)) == entries@.filter(modified_at(t)),
{
    let ghost all = entries@;
    let mut rest = entries;
    let mut out: Vec<DirEntry> = Vec::new();
    proof {
        vstd::seq_lib::to_multiset_len(out@);
        vstd::multiset::lemma_multiset_empty_len(out@.to_multiset());
        assert forall|t: u64| #[trigger] all.filter(modified_at(t)) == out@.filter(modified_at(t)) + rest@.filter(modified_at(t)) by {
            reveal(Seq::filter);
            assert(out@.filter(modified_at(t)) =~= Seq::<DirEntry>::empty());
            assert(out@.filter(modified_at(t)) + rest@.filter(modified_at(t)) =~= rest@.filter(modified_at(t)));
        }
    }
    while rest.len() > 0
        invariant
            out@.to_multiset().add(rest@.to_multiset()) == all.to_multiset(),
            newest_first(out@),
            forall|i: int, j: int| 0 <= i < out@.len() && 0 <= j < rest@.len() ==> out@[i].modified >= rest@[j].modified,
            forall|t: u64| #[trigger] all.filter(modified_at(t)) == out@.filter(modified_at(t)) + rest@.filter(modified_at(t)),
        decreases rest@.len(),
    {
        let k = newest_index(&rest);
        let ghost before = rest@;
        let ghost out0 = out@;
        let e = rest.remove(k);
        proof {
            vstd::seq_lib::to_multiset_remove(before, k as int);
            vstd::seq_lib::to_multiset_build(out0, e);
            vstd::seq_lib::to_multiset_contains(before, e);
            assert(before.to_multiset().contains(e));
            assert(out0.push(e).to_multiset().add(before.remove(k as int).to_multiset()) =~= out0.to_multiset().add(before.to_multiset()));
            assert forall|j: int| 0 <= j < rest@.len() implies e.modified >= #[trigger] rest@[j].modified by {
                if j < k {
                    assert(rest@[j] == before[j]);
                } else {
                    assert(rest@[j] == before[j + 1]);
                }
            }
        }
        out.push(e);
        proof {
            assert forall|t: u64| #[trigger] all.filter(modified_at(t)) == out@.filter(modified_at(t)) + rest@.filter(modified_at(t)) by {
                let p = modified_at(t);
                lemma_take_first_newest(before, k as int, t);
                out0.lemma_filter_push(e, p);
                lemma_filter_single(e, t);
                assert(out@ == out0.push(e));
                assert(rest@ == before.remove(k as int));
                if e.modified == t {
                    assert(out0.filter(p).push(e) =~= out0.filter(p) + seq![e]);
                    assert(out0.filter(p) + seq![e] + rest@.filter(p) =~= out0.filter(p) + (seq![e] + rest@.filter(p)));
                } else {
                    assert(seq![e].filter(p) + rest@.filter(p) =~= rest@.filter(p));
                }
            }
            assert forall|i: int, j: int| 0 <= i < out@.len() && 0 <= j < rest@.len() implies out@[i].modified >= rest@[j].modified by {
                if i < out0.len() {
                    assert(out@[i] == out0[i]);
                    if j < k {
                        assert(rest@[j] == before[j]);
                    } else {
                        assert(rest@[j] == before[j + 1]);
                    }
                }
            }
            assert forall|i: int, j: int| 0 <= i < j < out@.len() implies out@[i].modified >= out@[j].modified by {
                if j < out0.len() {
                    assert(out@[i] == out0[i]);
                    assert(out@[j] == out0[j]);
                } else {
                    assert(out@[i] == out0[i]);
                    assert(before[k as int] == e);
                }
            }
        }
    }
    proof {
        vstd::seq_lib::to_multiset_len(rest@);
        vstd::multiset::lemma_multiset_empty_len(rest@.to_multiset());
        assert(out@.to_multiset().add(rest@.to_multiset()) =~= out@.to_multiset());
        assert forall|t: u64| #[trigger] out@.filter(modified_at(t)) == all.filter(modified_at(t)) by {
            reveal(Seq::filter);
            assert(rest@.filter(modified_at(t)) =~= Seq::<DirEntry>::empty());
            assert(out@.filter(modified_at(t)) + rest@.filter(modified_at(t)) =~= out@.filter(modified_at(t)));
        }
    }
    out
}

} // verus!
