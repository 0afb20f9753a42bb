use vstd::prelude::*;

use crate::text::{lemma_text_le_total, lemma_text_le_transitive, starts_with_char, text_le, text_le_exec};

verus! {

broadcast use vstd::seq_lib::group_to_multiset_ensures;

/// A subdirectory as the frontend's directory browser shows it.
#[derive(Debug, Clone)]
pub struct DirEntry {
    pub name: String,
    pub path: String,
}

/// One entry of a directory as read from the file system: its file name, its full
/// path, and whether it is a directory (`false` where the file type could not be read).
#[derive(Debug, Clone)]
pub struct DirCandidate {
    pub name: String,
    pub path: String,
    pub is_dir: bool,
}

/// An entry is listed when it is a directory whose name does not begin with `'.'`.
pub open spec fn is_listed(c: DirCandidate) -> bool {
    c.is_dir && !(c.name@.len() > 0 && c.name@[0] == '.')
}

/// The listing entry of a candidate.
pub open spec fn entry_of(c: DirCandidate) -> DirEntry {
    DirEntry { name: c.name, path: c.path }
}

/// The listed entries of `cs`, in the order in which they were read.
pub open spec fn listed_entries(cs: Seq<DirCandidate>) -> Seq<DirEntry>
    decreases cs.len(),
{
    if cs.len() == 0 {
        Seq::empty()
    } else if is_listed(cs.last()) {
        listed_entries(cs.drop_last()).push(entry_of(cs.last()))
    } else {
        listed_entries(cs.drop_last())
    }
}

/// The entries are in ascending order of their names.
pub open spec fn sorted_by_name(es: Seq<DirEntry>) -> bool {
    forall|i: int, j: int| 0 <= i < j < es.len() ==> text_le(#[trigger] es[i].name@, #[trigger] es[j].name@)
}

/// The entries of `es` named `n`, in their order in `es`.
pub open spec fn named(es: Seq<DirEntry>, n: Seq<char>) -> Seq<DirEntry>
    decreases es.len(),
{
    if es.len() == 0 {
        Seq::empty()
    } else if es.last().name@ == n {
        named(es.drop_last(), n).push(es.last())
    } else {
        named(es.drop_last(), n)
    }
}

proof fn lemma_named_add(a: Seq<DirEntry>, b: Seq<DirEntry>, n: Seq<char>)
    ensures
        named(a + b, n) == named(a, n) + named(b, n),
    decreases b.len(),
{
    if b.len() == 0 {
        assert(a + b =~= a);
        assert(named(a, n) + named(b, n) =~= named(a, n));
    } else {
        lemma_named_add(a, b.drop_last(), n);
        assert((a + b).drop_last() =~= a + b.drop_last());
        assert((a + b).last() == b.last());
        if b.last().name@ == n {
            assert(named(a, n) + named(b.drop_last(), n).push(b.last()) =~= (named(a, n) + named(
                b.drop_last(),
                n,
            )).push(b.last()));
        }
    }
}

proof fn lemma_named_none(b: Seq<DirEntry>, n: Seq<char>)
    requires
        forall|k: int| 0 <= k < b.len() ==> #[trigger] b[k].name@ != n,
    ensures
        named(b, n) == Seq::<DirEntry>::empty(),
    decreases b.len(),
{
    if b.len() > 0 {
        lemma_named_none(b.drop_last(), n);
    }
}

/// Inserting `e` after every entry that sorts before or equal to it, and before
/// entries that sort strictly after it, appends `e` to the entries with its name.
proof fn lemma_named_insert(s: Seq<DirEntry>, pos: int, e: DirEntry, n: Seq<char>)
    requires
        0 <= pos <= s.len(),
        forall|k: int| pos <= k < s.len() ==> #[trigger] s[k].name@ != e.name@,
    ensures
        named(s.insert(pos, e), n) == if e.name@ == n {
            named(s, n).push(e)
        } else {
            named(s, n)
        },
{
    let front = s.take(pos);
    let back = s.skip(pos);
    assert(s =~= front + back);
    assert(s.insert(pos, e) =~= front.push(e) + back);
    lemma_named_add(front, back, n);
    lemma_named_add(front.push(e), back, n);
    assert(front.push(e).drop_last() =~= front);
    if e.name@ == n {
        assert forall|k: int| 0 <= k < back.len() implies #[trigger] back[k].name@ != n by {
            assert(back[k] == s[pos + k]);
        }
        lemma_named_none(back, n);
        assert(named(front, n) + named(back, n) =~= named(front, n));
        assert(named(front.push(e), n) + named(back, n) =~= named(front.push(e), n));
    }
}

proof fn lemma_text_le_reflexive(a: Seq<char>)
    ensures
        text_le(a, a),
    decreases a.len(),
{
    if a.len() > 0 {
        lemma_text_le_reflexive(a.drop_first());
    }
}

/// `e` carries the name and path of a candidate that is a directory whose name does
/// not begin with `'.'`.
pub open spec fn from_visible_directory(e: DirEntry, cs: Seq<DirCandidate>) -> bool {
    exists|j: int|
        0 <= j < cs.len() && e.name == #[trigger] cs[j].name && e.path == cs[j].path
            && cs[j].is_dir && !(cs[j].name@.len() > 0 && cs[j].name@[0] == '.')
}

/// Exactly the directories whose names do not begin with `'.'` are listed: every listed
/// entry carries the name and path of such a candidate, and every such candidate is
/// listed.
pub proof fn law_listed_are_visible_directories(cs: Seq<DirCandidate>)
    ensures
        forall|i: int|
            0 <= i < listed_entries(cs).len() ==> #[trigger] from_visible_directory(
                listed_entries(cs)[i],
                cs,
            ),
        forall|j: int|
            0 <= j < cs.len() && #[trigger] cs[j].is_dir && !(cs[j].name@.len() > 0
                && cs[j].name@[0] == '.') ==> listed_entries(cs).contains(
                (DirEntry { name: cs[j].name, path: cs[j].path }),
            ),
    decreases cs.len(),
{
    if cs.len() > 0 {
        let t = cs.drop_last();
        law_listed_are_visible_directories(t);
        let lt = listed_entries(t);
        let l = listed_entries(cs);
        let c = cs.last();
        assert forall|i: int| 0 <= i < l.len() implies #[trigger] from_visible_directory(l[i], cs) by {
            if i < lt.len() {
                assert(l[i] == lt[i]);
                assert(from_visible_directory(lt[i], t));
                let j = choose|j: int|
                    0 <= j < t.len() && lt[i].name == #[trigger] t[j].name && lt[i].path
                        == t[j].path && t[j].is_dir && !(t[j].name@.len() > 0 && t[j].name@[0]
                        == '.');
                assert(cs[j] == t[j]);
            } else {
                assert(l[i] == entry_of(c));
                assert(cs[cs.len() - 1] == c);
                assert(l[i].name == cs[cs.len() - 1].name);
            }
        }
        assert forall|j: int|
            0 <= j < cs.len() && #[trigger] cs[j].is_dir && !(cs[j].name@.len() > 0
                && cs[j].name@[0] == '.') implies l.contains(
            (DirEntry { name: cs[j].name, path: cs[j].path }),
        ) by {
            let e = DirEntry { name: cs[j].name, path: cs[j].path };
            if j < t.len() {
                assert(t[j] == cs[j]);
                assert(t[j].is_dir);
                assert(lt.contains(e));
                let k = choose|k: int| 0 <= k < lt.len() && lt[k] == e;
                assert(l[k] == e);
            } else {
                assert(cs[j] == c);
                assert(l[l.len() - 1] == e);
            }
        }
    }
}

/// Whether the candidate belongs in the listing.
pub fn is_listed_exec(c: &DirCandidate) -> (r: bool)
    ensures
        r == is_listed(*c),
        r == (c.is_dir && !(c.name@.len() > 0 && c.name@[0] == '.')),
{
    c.is_dir && !starts_with_char(c.name.as_str(), '.')
}

/// The subdirectories of a directory listing: the candidates that are directories and
/// whose names do not begin with `'.'`, sorted by name (a stable sort, so entries with
/// equal names keep the order in which they were read).
pub fn visible_subdirectories(candidates: &Vec<DirCandidate>) -> (r: Vec<DirEntry>)
    ensures
        sorted_by_name(r@),
        r@.to_multiset() == listed_entries(candidates@).to_multiset(),
        forall|n: Seq<char>| #[trigger] named(r@, n) == named(listed_entries(candidates@), n),
        forall|i: int|
            0 <= i < r@.len() ==> #[trigger] from_visible_directory(r@[i], candidates@),
        forall|j: int|
            0 <= j < candidates@.len() && #[trigger] candidates@[j].is_dir && !(
            candidates@[j].name@.len() > 0 && candidates@[j].name@[0] == '.') ==> r@.contains(
                (DirEntry { name: candidates@[j].name, path: candidates@[j].path }),
            ),
{
    let mut out: Vec<DirEntry> = Vec::new();
    let n = candidates.len();
    let mut i: usize = 0;
    while i < n
        invariant
            n == candidates@.len(),
            i <= n,
            sorted_by_name(out@),
            out@.to_multiset() == listed_entries(candidates@.take(i as int)).to_multiset(),
            forall|m: Seq<char>| #[trigger] named(out@, m) == named(listed_entries(candidates@.take(i as int)), m),
        decreases n - i,
    {
        let c = &candidates[i];
        proof {
            assert(candidates@.take(i + 1).drop_last() =~= candidates@.take(i as int));
            assert(candidates@.take(i + 1).last() == *c);
        }
        if is_listed_exec(c) {
            let e = DirEntry { name: c.name.clone(), path: c.path.clone() };
            assert(e == entry_of(*c));
            // the first position whose name sorts strictly after the new name
            let mut pos: usize = 0;
            while pos < out.len() && text_le_exec(out[pos].name.as_str(), e.name.as_str())
                invariant
                    pos <= out@.len(),
                    forall|k: int| 0 <= k < pos ==> text_le(#[trigger] out@[k].name@, e.name@),
                decreases out@.len() - pos,
            {
                pos = pos + 1;
            }
            let ghost before = out@;
            proof {
                assert forall|k: int| pos <= k < before.len() implies text_le(e.name@, #[trigger] before[k].name@) by {
                    lemma_text_le_total(before[pos as int].name@, e.name@);
                    if k > pos {
                        assert(text_le(before[pos as int].name@, before[k].name@));
                        lemma_text_le_transitive(e.name@, before[pos as int].name@, before[k].name@);
                    }
                }
                vstd::seq_lib::to_multiset_insert(before, pos as int, e);
                assert forall|k: int| pos <= k < before.len() implies #[trigger] before[k].name@ != e.name@ by {
                    if before[k].name@ == e.name@ {
                        lemma_text_le_reflexive(e.name@);
                        if k > pos {
                            assert(text_le(before[pos as int].name@, before[k].name@));
                        }
                        assert(text_le(before[pos as int].name@, e.name@));
                    }
                }
                let listed_before = listed_entries(candidates@.take(i as int));
                assert(listed_entries(candidates@.take(i + 1)) == listed_before.push(e));
                assert forall|m: Seq<char>| #[trigger] named(before.insert(pos as int, e), m) == named(listed_before.push(e), m) by {
                    lemma_named_insert(before, pos as int, e, m);
                    assert(listed_before.push(e).drop_last() =~= listed_before);
                }
            }
            out.insert(pos, e);
            proof {
                before.insert_ensures(pos as int, e);
                let after = out@;
                assert forall|a: int, b: int| 0 <= a < b < after.len() implies text_le(#[trigger] after[a].name@, #[trigger] after[b].name@) by {
                    if b < pos {
                        assert(after[a] == before[a] && after[b] == before[b]);
                    } else if b == pos {
                        assert(after[a] == before[a]);
                    } else if a < pos {
                        assert(after[a] == before[a] && after[b] == before[b - 1]);
                        lemma_text_le_transitive(before[a].name@, e.name@, before[b - 1].name@);
                    } else if a == pos {
                        assert(after[b] == before[b - 1]);
                    } else {
                        assert(after[a] == before[a - 1] && after[b] == before[b - 1]);
                    }
                }
            }
        }
        i = i + 1;
    }
    proof {
        assert(candidates@.take(n as int) =~= candidates@);
        let l = listed_entries(candidates@);
        law_listed_are_visible_directories(candidates@);
        assert forall|x: DirEntry| #[trigger] out@.contains(x) <==> l.contains(x) by {
            out@.to_multiset_ensures();
            l.to_multiset_ensures();
            assert(out@.to_multiset().count(x) == l.to_multiset().count(x));
        }
        assert forall|i: int| 0 <= i < out@.len() implies #[trigger] from_visible_directory(out@[i], candidates@) by {
            assert(out@.contains(out@[i]));
            assert(l.contains(out@[i]));
            let k = choose|k: int| 0 <= k < l.len() && l[k] == out@[i];
            assert(from_visible_directory(l[k], candidates@));
        }
    }
    out
}

} // verus!
