use vstd::prelude::*;

use crate::surface_hash::SurfaceHash;

verus! {

/// The surfaces that one window hosts.
pub struct WindowSurfaces {
    label: String,
    hashes: Vec<SurfaceHash>,
}

/// Which surfaces each window hosts, by window label. A window's surfaces are destroyed
/// together with the window, so the map lets the app find them again.
pub struct SurfaceMap {
    windows: Vec<WindowSurfaces>,
}

/// Whether some entry of `ws` carries the label `label`.
pub closed spec fn has_label(ws: Seq<WindowSurfaces>, label: Seq<char>) -> bool {
    exists|i: int| 0 <= i < ws.len() && ws[i].label@ == label
}

/// The position of the entry labelled `label` among `ws`.
closed spec fn slot_of(ws: Seq<WindowSurfaces>, label: Seq<char>) -> int {
    choose|i: int| 0 <= i < ws.len() && ws[i].label@ == label
}

/// Labels are distinct, and no entry lists a surface twice.
closed spec fn entries_wf(ws: Seq<WindowSurfaces>) -> bool {
    &&& forall|i: int, j: int|
        0 <= i < ws.len() && 0 <= j < ws.len() && i != j ==> #[trigger] ws[i].label@
            != #[trigger] ws[j].label@
    &&& forall|i: int| 0 <= i < ws.len() ==> #[trigger] ws[i].hashes@.no_duplicates()
}

/// The map from labels to surface sets that the entries describe.
closed spec fn map_of(ws: Seq<WindowSurfaces>) -> Map<Seq<char>, Set<SurfaceHash>> {
    Map::new(|l: Seq<char>| has_label(ws, l), |l: Seq<char>| ws[slot_of(ws, l)].hashes@.to_set())
}

proof fn lemma_slot(ws: Seq<WindowSurfaces>, i: int)
    requires
        entries_wf(ws),
        0 <= i < ws.len(),
    ensures
        has_label(ws, ws[i].label@),
        slot_of(ws, ws[i].label@) == i,
        map_of(ws).contains_key(ws[i].label@),
        map_of(ws)[ws[i].label@] == ws[i].hashes@.to_set(),
{
    let l = ws[i].label@;
    assert(has_label(ws, l));
    let k = slot_of(ws, l);
    if k != i {
        assert(ws[k].label@ != ws[i].label@);
    }
}

/// Replacing the entry at `i` by one with the same label replaces that label's set.
proof fn lemma_update(ws: Seq<WindowSurfaces>, i: int, e: WindowSurfaces)
    requires
        entries_wf(ws),
        0 <= i < ws.len(),
        e.label@ == ws[i].label@,
        e.hashes@.no_duplicates(),
    ensures
        entries_wf(ws.update(i, e)),
        map_of(ws.update(i, e)) == map_of(ws).insert(e.label@, e.hashes@.to_set()),
{
    let ws2 = ws.update(i, e);
    assert(entries_wf(ws2));
    assert forall|l: Seq<char>| has_label(ws2, l) <==> has_label(ws, l) by {
        if has_label(ws2, l) {
            let k = choose|k: int| 0 <= k < ws2.len() && ws2[k].label@ == l;
            assert(ws[k].label@ == l);
        }
        if has_label(ws, l) {
            let k = choose|k: int| 0 <= k < ws.len() && ws[k].label@ == l;
            assert(ws2[k].label@ == l);
        }
    }
    assert forall|l: Seq<char>| has_label(ws2, l) implies #[trigger] map_of(ws2)[l] == map_of(
        ws,
    ).insert(e.label@, e.hashes@.to_set())[l] by {
        let k = choose|k: int| 0 <= k < ws2.len() && ws2[k].label@ == l;
        lemma_slot(ws2, k);
        lemma_slot(ws, k);
    }
    lemma_slot(ws, i);
    assert(map_of(ws2) =~= map_of(ws).insert(e.label@, e.hashes@.to_set()));
}

/// Appending an entry with a new label adds that label.
proof fn lemma_push(ws: Seq<WindowSurfaces>, e: WindowSurfaces)
    requires
        entries_wf(ws),
        !has_label(ws, e.label@),
        e.hashes@.no_duplicates(),
    ensures
        entries_wf(ws.push(e)),
        map_of(ws.push(e)) == map_of(ws).insert(e.label@, e.hashes@.to_set()),
{
    let ws2 = ws.push(e);
    assert forall|i: int, j: int|
        0 <= i < ws2.len() && 0 <= j < ws2.len() && i != j implies #[trigger] ws2[i].label@
        != #[trigger] ws2[j].label@ by {
        if i == ws.len() {
            assert(ws[j].label@ != e.label@);
        } else if j == ws.len() {
            assert(ws[i].label@ != e.label@);
        }
    }
    assert(entries_wf(ws2));
    assert forall|l: Seq<char>| has_label(ws2, l) <==> (has_label(ws, l) || l == e.label@) by {
        if has_label(ws2, l) {
            let k = choose|k: int| 0 <= k < ws2.len() && ws2[k].label@ == l;
            if k < ws.len() {
                assert(ws[k].label@ == l);
            }
        }
        if has_label(ws, l) {
            let k = choose|k: int| 0 <= k < ws.len() && ws[k].label@ == l;
            assert(ws2[k].label@ == l);
        }
        if l == e.label@ {
            assert(ws2[ws.len() as int].label@ == l);
        }
    }
    assert forall|l: Seq<char>| has_label(ws2, l) implies #[trigger] map_of(ws2)[l] == map_of(
        ws,
    ).insert(e.label@, e.hashes@.to_set())[l] by {
        let k = choose|k: int| 0 <= k < ws2.len() && ws2[k].label@ == l;
        lemma_slot(ws2, k);
        if k < ws.len() {
            lemma_slot(ws, k);
        }
    }
    assert(map_of(ws2) =~= map_of(ws).insert(e.label@, e.hashes@.to_set()));
}

/// Dropping the entry at `i` drops its label.
proof fn lemma_remove(ws: Seq<WindowSurfaces>, i: int)
    requires
        entries_wf(ws),
        0 <= i < ws.len(),
    ensures
        entries_wf(ws.remove(i)),
        map_of(ws.remove(i)) == map_of(ws).remove(ws[i].label@),
{
    let ws2 = ws.remove(i);
    assert forall|a: int| 0 <= a < ws2.len() implies #[trigger] ws2[a] == (if a < i {
        ws[a]
    } else {
        ws[a + 1]
    }) by {}
    assert forall|a: int, b: int|
        0 <= a < ws2.len() && 0 <= b < ws2.len() && a != b implies #[trigger] ws2[a].label@
        != #[trigger] ws2[b].label@ by {
        let a1 = if a < i { a } else { a + 1 };
        let b1 = if b < i { b } else { b + 1 };
        assert(ws[a1].label@ != ws[b1].label@);
    }
    assert forall|a: int| 0 <= a < ws2.len() implies #[trigger] ws2[a].hashes@.no_duplicates() by {
        let a1 = if a < i { a } else { a + 1 };
        assert(ws[a1].hashes@.no_duplicates());
    }
    assert(entries_wf(ws2));
    let li = ws[i].label@;
    assert forall|l: Seq<char>| has_label(ws2, l) <==> (has_label(ws, l) && l != li) by {
        if has_label(ws2, l) {
            let k = choose|k: int| 0 <= k < ws2.len() && ws2[k].label@ == l;
            let k1 = if k < i { k } else { k + 1 };
            assert(ws[k1].label@ == l);
            assert(ws[k1].label@ != ws[i].label@);
        }
        if has_label(ws, l) && l != li {
            let k = choose|k: int| 0 <= k < ws.len() && ws[k].label@ == l;
            if k < i {
                assert(ws2[k].label@ == l);
            } else {
                assert(ws2[k - 1].label@ == l);
            }
        }
    }
    assert forall|l: Seq<char>| has_label(ws2, l) implies #[trigger] map_of(ws2)[l] == map_of(
        ws,
    ).remove(li)[l] by {
        let k = choose|k: int| 0 <= k < ws2.len() && ws2[k].label@ == l;
        let k1 = if k < i { k } else { k + 1 };
        lemma_slot(ws2, k);
        lemma_slot(ws, k1);
    }
    assert(map_of(ws2) =~= map_of(ws).remove(li));
}

/// The set of a duplicate-free sequence after pushing a new element.
proof fn lemma_push_set(s: Seq<SurfaceHash>, h: SurfaceHash)
    requires
        s.no_duplicates(),
        !s.contains(h),
    ensures
        s.push(h).no_duplicates(),
        s.push(h).to_set() == s.to_set().insert(h),
{
    let s2 = s.push(h);
    assert forall|a: int, b: int| 0 <= a < s2.len() && 0 <= b < s2.len() && a != b implies s2[a]
        != s2[b] by {
        if a == s.len() {
            assert(s[b] != h);
        } else if b == s.len() {
            assert(s[a] != h);
        }
    }
    assert forall|x: SurfaceHash| #[trigger] s2.to_set().contains(x) <==> s.to_set().insert(h).contains(x) by {
        if s2.contains(x) && x != h {
            let j = choose|j: int| 0 <= j < s2.len() && s2[j] == x;
            assert(s[j] == x);
        }
        if s.contains(x) {
            let j = choose|j: int| 0 <= j < s.len() && s[j] == x;
            assert(s2[j] == x);
        }
        if x == h {
            assert(s2[s.len() as int] == x);
        }
    }
    assert(s2.to_set() =~= s.to_set().insert(h));
}

/// The set of a duplicate-free sequence after removing the element at `j`.
proof fn lemma_remove_set(s: Seq<SurfaceHash>, j: int)
    requires
        s.no_duplicates(),
        0 <= j < s.len(),
    ensures
        s.remove(j).no_duplicates(),
        s.remove(j).to_set() == s.to_set().remove(s[j]),
{
    let s2 = s.remove(j);
    assert forall|a: int| 0 <= a < s2.len() implies #[trigger] s2[a] == (if a < j {
        s[a]
    } else {
        s[a + 1]
    }) by {}
    assert forall|a: int, b: int| 0 <= a < s2.len() && 0 <= b < s2.len() && a != b implies s2[a]
        != s2[b] by {
        let a1 = if a < j { a } else { a + 1 };
        let b1 = if b < j { b } else { b + 1 };
        assert(s[a1] != s[b1]);
    }
    assert forall|x: SurfaceHash| #[trigger] s2.to_set().contains(x) <==> s.to_set().remove(s[j]).contains(x) by {
        if s2.contains(x) {
            let k = choose|k: int| 0 <= k < s2.len() && s2[k] == x;
            let k1 = if k < j { k } else { k + 1 };
            assert(s[k1] == x);
            assert(s[k1] != s[j]);
        }
        if s.contains(x) && x != s[j] {
            let k = choose|k: int| 0 <= k < s.len() && s[k] == x;
            if k < j {
                assert(s2[k] == x);
            } else {
                assert(s2[k - 1] == x);
            }
        }
    }
    assert(s2.to_set() =~= s.to_set().remove(s[j]));
}

/// The map after recording that the window `label` hosts the surface `h`.
pub open spec fn with_surface(
    m: Map<Seq<char>, Set<SurfaceHash>>,
    label: Seq<char>,
    h: SurfaceHash,
) -> Map<Seq<char>, Set<SurfaceHash>> {
    m.insert(label, if m.contains_key(label) { m[label].insert(h) } else { set![h] })
}

/// The map after recording that the surface `h` is gone from the window `label`.
pub open spec fn without_surface(
    m: Map<Seq<char>, Set<SurfaceHash>>,
    label: Seq<char>,
    h: SurfaceHash,
) -> Map<Seq<char>, Set<SurfaceHash>> {
    m.insert(label, m[label].remove(h))
}

/// A recorded surface is listed under its window (and so is destroyed with it), and
/// the other windows keep their surfaces.
pub proof fn law_recorded_surface_is_listed(
    m: Map<Seq<char>, Set<SurfaceHash>>,
    label: Seq<char>,
    h: SurfaceHash,
)
    ensures
        with_surface(m, label, h).contains_key(label),
        with_surface(m, label, h)[label].contains(h),
        forall|l: Seq<char>|
            l != label ==> (#[trigger] with_surface(m, label, h).contains_key(l) == m.contains_key(l)
                && (m.contains_key(l) ==> with_surface(m, label, h)[l] == m[l])),
{
}

/// Recording the same surface twice is the same as recording it once.
pub proof fn law_record_idempotent(
    m: Map<Seq<char>, Set<SurfaceHash>>,
    label: Seq<char>,
    h: SurfaceHash,
)
    ensures
        with_surface(with_surface(m, label, h), label, h) == with_surface(m, label, h),
{
    let m1 = with_surface(m, label, h);
    assert(m1[label].insert(h) =~= m1[label]);
    assert(with_surface(m1, label, h) =~= m1);
}

/// Destroying a surface undoes recording it, for a known window that did not list it.
pub proof fn law_forget_undoes_record(
    m: Map<Seq<char>, Set<SurfaceHash>>,
    label: Seq<char>,
    h: SurfaceHash,
)
    requires
        m.contains_key(label),
        !m[label].contains(h),
    ensures
        without_surface(with_surface(m, label, h), label, h) == m,
{
    assert(m[label].insert(h).remove(h) =~= m[label]);
    assert(without_surface(with_surface(m, label, h), label, h) =~= m);
}

impl View for SurfaceMap {
    type V = Map<Seq<char>, Set<SurfaceHash>>;

    closed spec fn view(&self) -> Map<Seq<char>, Set<SurfaceHash>> {
        map_of(self.windows@)
    }
}

impl SurfaceMap {
    /// Labels are distinct, and no window lists a surface twice.
    #[verifier::type_invariant]
    spec fn wf(&self) -> bool {
        entries_wf(self.windows@)
    }

    /// A map that knows no window.
    pub fn new() -> (r: SurfaceMap)
        ensures
            r@ == Map::<Seq<char>, Set<SurfaceHash>>::empty(),
    {
        let r = SurfaceMap { windows: Vec::new() };
        assert(r@ =~= Map::<Seq<char>, Set<SurfaceHash>>::empty());
        r
    }

    /// A map that knows one window, which hosts no surface yet.
    pub fn with_window(label: String) -> (r: SurfaceMap)
        ensures
            r@ == Map::<Seq<char>, Set<SurfaceHash>>::empty().insert(label@, Set::empty()),
    {
        let mut windows: Vec<WindowSurfaces> = Vec::new();
        let e = WindowSurfaces { label, hashes: Vec::new() };
        proof {
            assert(e.hashes@.to_set() =~= Set::<SurfaceHash>::empty());
            assert(!has_label(windows@, e.label@));
            lemma_push(windows@, e);
        }
        windows.push(e);
        SurfaceMap { windows }
    }

    /// The position of the window labelled `label`, if it is known.
    fn find(&self, label: &String) -> (r: Option<usize>)
        ensures
            match r {
                Some(i) => i < self.windows@.len() && self.windows@[i as int].label@ == label@,
                None => !has_label(self.windows@, label@),
            },
    {
        proof {
            use_type_invariant(self);
        }
        let mut i: usize = 0;
        while i < self.windows.len()
            invariant
                i <= self.windows@.len(),
                forall|k: int| 0 <= k < i ==> self.windows@[k].label@ != label@,
            decreases self.windows@.len() - i,
        {
            if self.windows[i].label == *label {
                return Some(i);
            }
            i = i + 1;
        }
        None
    }

    /// Whether the window labelled `label` is known.
    pub fn contains_window(&self, label: &String) -> (r: bool)
        ensures
            r == self@.contains_key(label@),
    {
        proof {
            use_type_invariant(self);
        }
        self.find(label).is_some()
    }

    /// Whether no window is known.
    pub fn is_empty(&self) -> (r: bool)
        ensures
            r == (self@ == Map::<Seq<char>, Set<SurfaceHash>>::empty()),
    {
        proof {
            use_type_invariant(self);
        }
        proof {
            if self.windows@.len() > 0 {
                lemma_slot(self.windows@, 0);
                assert(self@.contains_key(self.windows@[0].label@));
            } else {
                assert(self@ =~= Map::<Seq<char>, Set<SurfaceHash>>::empty());
            }
        }
        self.windows.len() == 0
    }

    /// The surfaces of the window labelled `label`, or `None` when it is not known.
    pub fn surfaces_of(&self, label: &String) -> (r: Option<&Vec<SurfaceHash>>)
        ensures
            match r {
                Some(v) => self@.contains_key(label@) && v@.to_set() == self@[label@]
                    && v@.no_duplicates(),
                None => !self@.contains_key(label@),
            },
    {
        proof {
            use_type_invariant(self);
        }
        match self.find(label) {
            Some(i) => {
                proof {
                    lemma_slot(self.windows@, i as int);
                }
                Some(&self.windows[i].hashes)
            },
            None => None,
        }
    }

    /// Records that the window labelled `label` hosts the surface `hash`; a window not
    /// known yet becomes known with that one surface.
    pub fn record_surface(&mut self, label: String, hash: SurfaceHash)
        ensures
            final(self)@ == with_surface(old(self)@, label@, hash),
    {
        proof {
            use_type_invariant(&*self);
        }
        let ghost before = self.windows@;
        let found = self.find(&label);
        let mut windows: Vec<WindowSurfaces> = Vec::new();
        std::mem::swap(&mut windows, &mut self.windows);
        match found {
            Some(i) => {
                proof {
                    lemma_slot(before, i as int);
                    lemma_remove(before, i as int);
                }
                let mut entry = windows.remove(i);
                let ghost old_hashes = entry.hashes@;
                assert(entry == before[i as int]);
                let mut present = false;
                let mut k: usize = 0;
                while k < entry.hashes.len()
                    invariant
                        k <= entry.hashes@.len(),
                        present == (exists|j: int| 0 <= j < k && entry.hashes@[j] == hash),
                    decreases entry.hashes@.len() - k,
                {
                    if entry.hashes[k] == hash {
                        present = true;
                    }
                    k = k + 1;
                }
                if !present {
                    proof {
                        lemma_push_set(old_hashes, hash);
                    }
                    entry.hashes.push(hash);
                } else {
                    proof {
                        let j = choose|j: int| 0 <= j < old_hashes.len() && old_hashes[j] == hash;
                        assert(old_hashes.contains(hash));
                        assert(old_hashes.to_set().insert(hash) =~= old_hashes.to_set());
                    }
                }
                proof {
                    lemma_update(before, i as int, entry);
                    assert(before.remove(i as int).insert(i as int, entry) =~= before.update(
                        i as int,
                        entry,
                    ));
                }
                windows.insert(i, entry);
            },
            None => {
                let mut hashes: Vec<SurfaceHash> = Vec::new();
                proof {
                    assert(hashes@.to_set() =~= Set::<SurfaceHash>::empty());
                    lemma_push_set(hashes@, hash);
                }
                hashes.push(hash);
                let e = WindowSurfaces { label, hashes };
                proof {
                    assert(e.hashes@.to_set() =~= set![hash]);
                    lemma_push(before, e);
                }
                windows.push(e);
            },
        }
        self.windows = windows;
    }

    /// Records that the surface `hash` is gone from the window labelled `label`, which
    /// must be known.
    pub fn forget_surface(&mut self, label: &String, hash: SurfaceHash)
        requires
            old(self)@.contains_key(label@),
        ensures
            final(self)@ == without_surface(old(self)@, label@, hash),
    {
        proof {
            use_type_invariant(&*self);
        }
        let ghost before = self.windows@;
        let i = self.find(label).unwrap();
        proof {
            lemma_slot(before, i as int);
            lemma_remove(before, i as int);
        }
        let mut windows: Vec<WindowSurfaces> = Vec::new();
        std::mem::swap(&mut windows, &mut self.windows);
        let mut entry = windows.remove(i);
        let ghost old_hashes = entry.hashes@;
        assert(entry == before[i as int]);
        let mut k: usize = 0;
        while k < entry.hashes.len() && entry.hashes[k] != hash
            invariant
                entry.hashes@ == old_hashes,
                k <= entry.hashes@.len(),
                forall|j: int| 0 <= j < k ==> entry.hashes@[j] != hash,
            decreases entry.hashes@.len() - k,
        {
            k = k + 1;
        }
        if k < entry.hashes.len() {
            proof {
                lemma_remove_set(old_hashes, k as int);
            }
            let _ = entry.hashes.remove(k);
        } else {
            proof {
                assert(!old_hashes.to_set().contains(hash));
                assert(old_hashes.to_set().remove(hash) =~= old_hashes.to_set());
            }
        }
        proof {
            lemma_update(before, i as int, entry);
            assert(before.remove(i as int).insert(i as int, entry) =~= before.update(i as int, entry));
        }
        windows.insert(i, entry);
        self.windows = windows;
    }

    /// Forgets the window labelled `label`, which must be known, and returns the
    /// surfaces it hosted (each once), so that they can be destroyed with it.
    pub fn close_window(&mut self, label: &String) -> (r: Vec<SurfaceHash>)
        requires
            old(self)@.contains_key(label@),
        ensures
            final(self)@ == old(self)@.remove(label@),
            r@.no_duplicates(),
            r@.to_set() == old(self)@[label@],
    {
        proof {
            use_type_invariant(&*self);
        }
        let ghost before = self.windows@;
        let i = self.find(label).unwrap();
        proof {
            lemma_slot(before, i as int);
            lemma_remove(before, i as int);
        }
        let mut windows: Vec<WindowSurfaces> = Vec::new();
        std::mem::swap(&mut windows, &mut self.windows);
        let entry = windows.remove(i);
        self.windows = windows;
        entry.hashes
    }
}

} // verus!
