//! The arena owning all pages and sections, the hierarchy, the permalink
//! table and the two orderings among pages. Entities are addressed by
//! generation-checked handles; handles stay valid until their entry is
//! replaced.
use vstd::prelude::*;
use vstd::multiset::Multiset;

use crate::page::Page;
use crate::section::Section;
use crate::strtools::{chars_of, eq_str, string_from_chars};

verus! {

/// A handle into an arena: a slot index and the generation it was issued
/// for. A handle is dead once its slot moves to a later generation.
#[derive(Clone, Copy, Debug, PartialEq, Eq, Structural)]
pub struct Key {
    pub idx: usize,
    pub gen: u64,
}

/// An arena of values with stable, generation-checked handles. Slots are
/// never removed; replacing a value bumps its slot's generation, which
/// invalidates old handles to it.
pub struct Arena<T> {
    slots: Vec<(T, u64)>,
}

impl<T> Arena<T> {
    /// The handle points at a live slot.
    pub closed spec fn valid(self, k: Key) -> bool {
        k.idx < self.slots@.len() && self.slots@[k.idx as int].1 == k.gen
    }

    /// The value behind a handle.
    pub closed spec fn at(self, k: Key) -> T {
        self.slots@[k.idx as int].0
    }

    /// Number of slots ever created.
    pub closed spec fn spec_len(self) -> nat {
        self.slots@.len()
    }

    pub fn new() -> (r: Arena<T>)
        ensures
            r.spec_len() == 0,
    {
        Arena { slots: Vec::new() }
    }

    pub fn len(&self) -> (r: usize)
        ensures
            r == self.spec_len(),
    {
        self.slots.len()
    }

    /// Stores a value in a fresh slot; every live handle stays live and
    /// unchanged.
    pub fn insert(&mut self, value: T) -> (k: Key)
        ensures
            final(self).valid(k),
            final(self).at(k) == value,
            k.idx == old(self).spec_len(),
            k.gen == 0,
            final(self).spec_len() == old(self).spec_len() + 1,
            forall|k2: Key|
                old(self).valid(k2) ==> #[trigger] final(self).valid(k2) && final(self).at(k2)
                    == old(self).at(k2),
    {
        let idx = self.slots.len();
        self.slots.push((value, 0));
        Key { idx, gen: 0 }
    }

    /// Reads the value behind a live handle.
    pub fn get(&self, k: Key) -> (r: &T)
        requires
            self.valid(k),
        ensures
            *r == self.at(k),
    {
        &self.slots[k.idx].0
    }

    /// Overwrites the value behind a live handle, keeping the handle live;
    /// all other slots are untouched.
    pub fn set(&mut self, k: Key, value: T)
        requires
            old(self).valid(k),
        ensures
            final(self).valid(k),
            final(self).at(k) == value,
            final(self).spec_len() == old(self).spec_len(),
            forall|k2: Key|
                k2.idx != k.idx ==> #[trigger] final(self).valid(k2) == old(self).valid(k2),
            forall|k2: Key|
                k2.idx != k.idx && old(self).valid(k2) ==> #[trigger] final(self).at(k2)
                    == old(self).at(k2),
            forall|k2: Key| old(self).valid(k2) ==> #[trigger] final(self).valid(k2),
    {
        let g = self.slots[k.idx].1;
        self.slots[k.idx] = (value, g);
        proof {
            assert(self.slots@[k.idx as int].1 == k.gen);
        }
    }

    /// Mutable access to the value behind a live handle; the handle stays
    /// live, every other slot is untouched.
    pub fn borrow_mut(&mut self, k: Key) -> (r: &mut T)
        requires
            old(self).valid(k),
        ensures
            *r == old(self).at(k),
            final(self).valid(k),
            final(self).at(k) == *final(r),
            final(self).spec_len() == old(self).spec_len(),
            forall|k2: Key|
                k2.idx != k.idx ==> #[trigger] final(self).valid(k2) == old(self).valid(k2),
            forall|k2: Key|
                k2.idx != k.idx && old(self).valid(k2) ==> #[trigger] final(self).at(k2)
                    == old(self).at(k2),
            forall|k2: Key| old(self).valid(k2) ==> #[trigger] final(self).valid(k2),
    {
        &mut self.slots[k.idx].0
    }

    /// Replaces the value behind a live handle under a fresh generation:
    /// the old handle is dead, the new one live, other slots untouched.
    pub fn replace(&mut self, k: Key, value: T) -> (k2: Key)
        requires
            old(self).valid(k),
            k.gen < u64::MAX,
        ensures
            k2.idx == k.idx,
            k2.gen == k.gen + 1,
            final(self).valid(k2),
            !final(self).valid(k),
            final(self).at(k2) == value,
            final(self).spec_len() == old(self).spec_len(),
            forall|k3: Key|
                k3.idx != k.idx ==> #[trigger] final(self).valid(k3) == old(self).valid(k3),
            forall|k3: Key|
                k3.idx != k.idx && old(self).valid(k3) ==> #[trigger] final(self).at(k3)
                    == old(self).at(k3),
    {
        let g = self.slots[k.idx].1;
        self.slots[k.idx] = (value, g + 1);
        Key { idx: k.idx, gen: g + 1 }
    }
}

// ---------------------------------------------------------------------------
// The library
// ---------------------------------------------------------------------------

/// The arena of all pages and sections, the key registries, and the
/// permalink table mapping each entity's content-relative identity to its
/// permalink.
pub struct Library {
    pub pages: Arena<Page>,
    pub sections: Arena<Section>,
    /// Keys of every page, in insertion order.
    pub page_keys: Vec<Key>,
    /// Keys of every section, in insertion order.
    pub section_keys: Vec<Key>,
    /// Identity key to permalink, pages first, then sections.
    pub permalinks: Vec<(String, String)>,
}

impl Library {
    /// The key registries hold exactly live, distinct handles.
    pub open spec fn wf(self) -> bool {
        &&& forall|i: int|
            0 <= i < self.page_keys@.len() ==> self.pages.valid(#[trigger] self.page_keys@[i])
        &&& forall|i: int, j: int|
            0 <= i < j < self.page_keys@.len() ==> (#[trigger] self.page_keys@[i]).idx != (
            #[trigger] self.page_keys@[j]).idx
        &&& forall|i: int|
            0 <= i < self.section_keys@.len() ==> self.sections.valid(
                #[trigger] self.section_keys@[i],
            )
        &&& forall|i: int, j: int|
            0 <= i < j < self.section_keys@.len() ==> (#[trigger] self.section_keys@[i]).idx != (
            #[trigger] self.section_keys@[j]).idx
    }

    pub fn new() -> (r: Library)
        ensures
            r.wf(),
            r.page_keys@.len() == 0,
            r.section_keys@.len() == 0,
            r.permalinks@.len() == 0,
    {
        Library {
            pages: Arena::new(),
            sections: Arena::new(),
            page_keys: Vec::new(),
            section_keys: Vec::new(),
            permalinks: Vec::new(),
        }
    }

    /// Stores a page; all earlier handles stay live and unchanged.
    pub fn insert_page(&mut self, p: Page) -> (k: Key)
        requires
            old(self).wf(),
        ensures
            final(self).wf(),
            final(self).pages.valid(k),
            final(self).pages.at(k) == p,
            final(self).page_keys@ == old(self).page_keys@.push(k),
            final(self).section_keys@ == old(self).section_keys@,
            final(self).sections == old(self).sections,
            final(self).permalinks == old(self).permalinks,
            forall|k2: Key|
                old(self).pages.valid(k2) ==> #[trigger] final(self).pages.valid(k2)
                    && final(self).pages.at(k2) == old(self).pages.at(k2),
            k.idx == old(self).pages.spec_len(),
    {
        let k = self.pages.insert(p);
        proof {
            assert forall|i: int| 0 <= i < self.page_keys@.len() implies (
            #[trigger] self.page_keys@[i]).idx < old(self).pages.spec_len() by {
                assert(old(self).pages.valid(self.page_keys@[i]));
            }
        }
        self.page_keys.push(k);
        k
    }

    /// Stores a section; all earlier handles stay live and unchanged.
    pub fn insert_section(&mut self, s: Section) -> (k: Key)
        requires
            old(self).wf(),
        ensures
            final(self).wf(),
            final(self).sections.valid(k),
            final(self).sections.at(k) == s,
            final(self).section_keys@ == old(self).section_keys@.push(k),
            final(self).page_keys@ == old(self).page_keys@,
            final(self).pages == old(self).pages,
            final(self).permalinks == old(self).permalinks,
            forall|k2: Key|
                old(self).sections.valid(k2) ==> #[trigger] final(self).sections.valid(k2)
                    && final(self).sections.at(k2) == old(self).sections.at(k2),
            k.idx == old(self).sections.spec_len(),
    {
        let k = self.sections.insert(s);
        proof {
            assert forall|i: int| 0 <= i < self.section_keys@.len() implies (
            #[trigger] self.section_keys@[i]).idx < old(self).sections.spec_len() by {
                assert(old(self).sections.valid(self.section_keys@[i]));
            }
        }
        self.section_keys.push(k);
        k
    }

    /// Reads a page behind a live handle.
    pub fn get_page_by_key(&self, k: Key) -> (r: &Page)
        requires
            self.pages.valid(k),
        ensures
            *r == self.pages.at(k),
    {
        self.pages.get(k)
    }

    /// Reads a section behind a live handle.
    pub fn get_section_by_key(&self, k: Key) -> (r: &Section)
        requires
            self.sections.valid(k),
        ensures
            *r == self.sections.at(k),
    {
        self.sections.get(k)
    }

    /// The permalink table the library stands for: every page's and then
    /// every section's identity key mapped to its permalink.
    pub open spec fn spec_table(self) -> Seq<(Seq<char>, Seq<char>)> {
        self.page_keys@.map_values(
            |k: Key| (self.pages.at(k).file.relative@, self.pages.at(k).permalink@),
        ) + self.section_keys@.map_values(
            |k: Key| (self.sections.at(k).file.relative@, self.sections.at(k).permalink@),
        )
    }

    /// Rebuilds the permalink table wholesale from the current entities.
    pub fn build_permalinks(&mut self)
        requires
            old(self).wf(),
        ensures
            final(self).wf(),
            *final(self) == (Library { permalinks: final(self).permalinks, ..*old(self) }),
            final(self).permalinks.deep_view() == old(self).spec_table(),
    {
        let mut table: Vec<(String, String)> = Vec::new();
        let ghost pview = self.page_keys@.map_values(
            |k: Key| (self.pages.at(k).file.relative@, self.pages.at(k).permalink@),
        );
        let mut i: usize = 0;
        while i < self.page_keys.len()
            invariant
                self.wf(),
                0 <= i <= self.page_keys@.len(),
                pview == self.page_keys@.map_values(
                    |k: Key| (self.pages.at(k).file.relative@, self.pages.at(k).permalink@),
                ),
                table.deep_view() =~~= pview.take(i as int),
            decreases self.page_keys@.len() - i,
        {
            let k = self.page_keys[i];
            let p = self.pages.get(k);
            let rel = crate::kv::clone_string(&p.file.relative);
            let url = crate::kv::clone_string(&p.permalink);
            let ghost old_dv = table.deep_view();
            table.push((rel, url));
            proof {
                assert(table.deep_view() =~~= old_dv.push(
                    (
                        self.pages.at(self.page_keys@[i as int]).file.relative@,
                        self.pages.at(self.page_keys@[i as int]).permalink@,
                    ),
                ));
                assert(table.deep_view() =~~= pview.take(i + 1));
            }
            i = i + 1;
        }
        let ghost sview = self.section_keys@.map_values(
            |k: Key| (self.sections.at(k).file.relative@, self.sections.at(k).permalink@),
        );
        let mut j: usize = 0;
        while j < self.section_keys.len()
            invariant
                self.wf(),
                0 <= j <= self.section_keys@.len(),
                pview.len() == self.page_keys@.len(),
                sview == self.section_keys@.map_values(
                    |k: Key| (self.sections.at(k).file.relative@, self.sections.at(k).permalink@),
                ),
                table.deep_view() =~~= pview + sview.take(j as int),
            decreases self.section_keys@.len() - j,
        {
            let k = self.section_keys[j];
            let s = self.sections.get(k);
            let rel = crate::kv::clone_string(&s.file.relative);
            let url = crate::kv::clone_string(&s.permalink);
            let ghost old_dv = table.deep_view();
            table.push((rel, url));
            proof {
                assert(table.deep_view() =~~= old_dv.push(
                    (
                        self.sections.at(self.section_keys@[j as int]).file.relative@,
                        self.sections.at(self.section_keys@[j as int]).permalink@,
                    ),
                ));
                assert(table.deep_view() =~~= pview + sview.take(j + 1));
            }
            j = j + 1;
        }
        proof {
            assert(pview.take(pview.len() as int) =~~= pview);
            assert(sview.take(sview.len() as int) =~~= sview);
            assert(table.deep_view() =~~= pview + sview);
        }
        self.permalinks = table;
    }
}

/// One component sequence is a prefix of the other.
pub open spec fn comps_prefix(a: Seq<Seq<char>>, b: Seq<Seq<char>>) -> bool {
    a.len() <= b.len() && a == b.take(a.len() as int)
}

/// Whether the first vector of components is a prefix of the second.
pub fn is_comps_prefix(a: &Vec<String>, b: &Vec<String>) -> (r: bool)
    ensures
        r == comps_prefix(a.deep_view(), b.deep_view()),
{
    if a.len() > b.len() {
        proof {
            assert(a.deep_view().len() == a@.len());
            assert(b.deep_view().len() == b@.len());
        }
        return false;
    }
    let mut i: usize = 0;
    while i < a.len()
        invariant
            a@.len() <= b@.len(),
            0 <= i <= a@.len(),
            forall|j: int| 0 <= j < i ==> a.deep_view()[j] == b.deep_view()[j],
        decreases a@.len() - i,
    {
        if !eq_str(a[i].as_str(), b[i].as_str()) {
            proof {
                assert(a.deep_view()[i as int] =~= a@[i as int]@);
                assert(b.deep_view()[i as int] =~= b@[i as int]@);
                let bi: int = i as int;
                assert(b.deep_view().take(a.deep_view().len() as int)[bi] == b.deep_view()[bi]);
            }
            return false;
        }
        proof {
            assert(a.deep_view()[i as int] =~= a@[i as int]@);
            assert(b.deep_view()[i as int] =~= b@[i as int]@);
        }
        i = i + 1;
    }
    proof {
        assert(a.deep_view() =~~= b.deep_view().take(a.deep_view().len() as int));
    }
    true
}

impl Library {
    /// The section whose components are the longest prefix of the given
    /// components; `None` when no section's components are a prefix.
    pub fn find_parent_section(&self, comps: &Vec<String>) -> (r: Option<Key>)
        requires
            self.wf(),
        ensures
            match r {
                Some(k) => {
                    &&& self.sections.valid(k)
                    &&& self.section_keys@.contains(k)
                    &&& comps_prefix(
                        self.sections.at(k).file.components.deep_view(),
                        comps.deep_view(),
                    )
                    &&& forall|j: int|
                        0 <= j < self.section_keys@.len() && comps_prefix(
                            self.sections.at(#[trigger] self.section_keys@[j]).file.components.deep_view(),
                            comps.deep_view(),
                        ) ==> self.sections.at(
                            self.section_keys@[j],
                        ).file.components.deep_view().len() <= self.sections.at(
                            k,
                        ).file.components.deep_view().len()
                },
                None => forall|j: int|
                    0 <= j < self.section_keys@.len() ==> !comps_prefix(
                        self.sections.at(#[trigger] self.section_keys@[j]).file.components.deep_view(),
                        comps.deep_view(),
                    ),
            },
    {
        let mut best: Option<Key> = None;
        let ghost mut best_j: int = 0;
        let mut i: usize = 0;
        while i < self.section_keys.len()
            invariant
                self.wf(),
                0 <= i <= self.section_keys@.len(),
                match best {
                    Some(k) => {
                        &&& self.sections.valid(k)
                        &&& self.section_keys@.contains(k)
                        &&& comps_prefix(
                            self.sections.at(k).file.components.deep_view(),
                            comps.deep_view(),
                        )
                        &&& forall|j: int|
                            0 <= j < i && comps_prefix(
                                self.sections.at(
                                    #[trigger] self.section_keys@[j],
                                ).file.components.deep_view(),
                                comps.deep_view(),
                            ) ==> self.sections.at(
                                self.section_keys@[j],
                            ).file.components.deep_view().len() <= self.sections.at(
                                k,
                            ).file.components.deep_view().len()
                    },
                    None => forall|j: int|
                        0 <= j < i ==> !comps_prefix(
                            self.sections.at(
                                #[trigger] self.section_keys@[j],
                            ).file.components.deep_view(),
                            comps.deep_view(),
                        ),
                },
            decreases self.section_keys@.len() - i,
        {
            let k = self.section_keys[i];
            let s = self.sections.get(k);
            if is_comps_prefix(&s.file.components, comps) {
                let better: bool = match &best {
                    Some(bk) => {
                        let bs = self.sections.get(*bk);
                        s.file.components.len() > bs.file.components.len()
                    },
                    None => true,
                };
                if better {
                    best = Some(k);
                    proof {
                        assert(self.section_keys@[i as int] == k);
                        assert(self.section_keys@.contains(k));
                    }
                }
            }
            i = i + 1;
        }
        best
    }
}

// ---------------------------------------------------------------------------
// The date-descending ordering
// ---------------------------------------------------------------------------

/// One page of the date ordering: its instant and path for comparison, and
/// its handle.
pub struct RankEntry {
    pub rank: i128,
    pub sub: u32,
    pub path: Vec<char>,
    pub key: Key,
}

/// `a` comes no later than `b` in the ordering: a later date first, ties
/// broken by path ascending.
pub open spec fn entry_le(a: RankEntry, b: RankEntry) -> bool {
    a.rank > b.rank || (a.rank == b.rank && (a.sub > b.sub || (a.sub == b.sub && (
    crate::strtools::lex_lt(a.path@, b.path@) || a.path@ == b.path@))))
}

/// The order is total.
pub proof fn lemma_entry_le_total(a: RankEntry, b: RankEntry)
    ensures
        entry_le(a, b) || entry_le(b, a),
{
    crate::strtools::lemma_lex_total(a.path@, b.path@);
}

/// The order is transitive.
pub proof fn lemma_entry_le_trans(a: RankEntry, b: RankEntry, c: RankEntry)
    requires
        entry_le(a, b),
        entry_le(b, c),
    ensures
        entry_le(a, c),
{
    if a.rank == c.rank && a.sub == c.sub {
        if crate::strtools::lex_lt(a.path@, b.path@) && crate::strtools::lex_lt(
            b.path@,
            c.path@,
        ) {
            crate::strtools::lemma_lex_trans(a.path@, b.path@, c.path@);
        }
    }
}

/// Executable comparison.
fn entry_le_exec(a: &RankEntry, b: &RankEntry) -> (r: bool)
    ensures
        r == entry_le(*a, *b),
{
    a.rank > b.rank || (a.rank == b.rank && (a.sub > b.sub || (a.sub == b.sub && (
    crate::strtools::vec_lex_lt(&a.path, &b.path) || crate::strtools::vec_eq(&a.path, &b.path)))))
}

/// Sorted, date-descending with path tie-break ascending.
pub open spec fn entries_sorted(v: Seq<RankEntry>) -> bool {
    forall|i: int, j: int| 0 <= i < j < v.len() ==> entry_le(#[trigger] v[i], #[trigger] v[j])
}

/// Insertion sort of the date entries: the result is sorted and holds
/// exactly the same entries.
fn sort_entries(v: Vec<RankEntry>) -> (r: Vec<RankEntry>)
    ensures
        entries_sorted(r@),
        r@.to_multiset() == v@.to_multiset(),
        r@.len() == v@.len(),
{
    broadcast use vstd::seq_lib::group_seq_properties;
    broadcast use vstd::seq_lib::group_to_multiset_ensures;
    broadcast use vstd::multiset::group_multiset_axioms;

    let mut out: Vec<RankEntry> = Vec::new();
    let mut src = v;
    proof {
        assert(out@.to_multiset() =~= Seq::<RankEntry>::empty().to_multiset());
        out@.to_multiset_ensures();
        src@.to_multiset_ensures();
    }
    let ghost all = src@;
    loop
        invariant_except_break
            entries_sorted(out@),
            out@.to_multiset().add(src@.to_multiset()) =~= all.to_multiset(),
            out@.len() + src@.len() == all.len(),
        ensures
            entries_sorted(out@),
            out@.to_multiset() =~= all.to_multiset(),
            out@.len() == all.len(),
        decreases src@.len(),
    {
        proof {
            src@.to_multiset_ensures();
            out@.to_multiset_ensures();
        }
        let ghost src_before = src@;
        let next = match src.pop() {
            Some(e) => e,
            None => {
                proof {
                    src@.to_multiset_ensures();
                    vstd::multiset::lemma_multiset_empty_len(src@.to_multiset());
                    assert(src@.to_multiset() =~= Multiset::<RankEntry>::empty());
                }
                break;
            },
        };
        proof {
            src@.to_multiset_ensures();
            assert(src_before =~= src@.push(next));
            assert(src_before.to_multiset() =~= src@.to_multiset().insert(next));
        }
        // find the insertion position
        let mut pos: usize = 0;
        while pos < out.len() && entry_le_exec(&out[pos], &next)
            invariant
                0 <= pos <= out@.len(),
                forall|j: int| 0 <= j < pos ==> entry_le(#[trigger] out@[j], next),
            decreases out@.len() - pos,
        {
            pos = pos + 1;
        }
        proof {
            if pos < out@.len() {
                lemma_entry_le_total(out@[pos as int], next);
            }
            assert forall|j: int| pos <= j < out@.len() implies entry_le(
                next,
                #[trigger] out@[j],
            ) by {
                if pos < out@.len() {
                    if j > pos {
                        assert(entry_le(out@[pos as int], out@[j]));
                    }
                    lemma_entry_le_trans(next, out@[pos as int], out@[j]);
                }
            }
        }
        let ghost before = out@;
        out.insert(pos, next);
        proof {
            assert(out@ == before.insert(pos as int, next));
            vstd::seq_lib::to_multiset_insert(before, pos as int, next);
            assert(out@.to_multiset() =~= before.to_multiset().insert(next));
            assert(before.to_multiset().add(src_before.to_multiset()) =~= all.to_multiset());
            assert(out@.to_multiset().add(src@.to_multiset()) =~= all.to_multiset());
            assert forall|i: int, j: int| 0 <= i < j < out@.len() implies entry_le(
                #[trigger] out@[i],
                #[trigger] out@[j],
            ) by {
                if j < pos {
                    assert(out@[i] == before[i] && out@[j] == before[j]);
                } else if i < pos && j == pos {
                    assert(out@[i] == before[i] && out@[j] == next);
                } else if i < pos && j > pos {
                    assert(out@[i] == before[i] && out@[j] == before[j - 1]);
                } else if i == pos {
                    assert(out@[i] == next && out@[j] == before[j - 1]);
                } else {
                    assert(out@[i] == before[i - 1] && out@[j] == before[j - 1]);
                }
            }
        }
    }
    proof {
        all.to_multiset_ensures();
        out@.to_multiset_ensures();
    }
    out
}

/// The instant ordering between two dated pages, as the chain spec uses it.
pub open spec fn page_date_le(a: Page, b: Page) -> bool {
    let da = a.meta.datetime->Some_0;
    let db = b.meta.datetime->Some_0;
    let ea = crate::datetime::spec_epoch_seconds(da);
    let eb = crate::datetime::spec_epoch_seconds(db);
    ea > eb || (ea == eb && (da.nanosecond > db.nanosecond || (da.nanosecond == db.nanosecond && (
    crate::strtools::lex_lt(a.path@, b.path@) || a.path@ == b.path@))))
}

/// The date ordering is a consistent doubly linked chain: the keys are
/// live and distinct, each page's `later` points to its predecessor and
/// `earlier` to its successor, and dates descend along it.
pub open spec fn date_chain_wf(lib: Library, order: Seq<Key>) -> bool {
    &&& forall|i: int| 0 <= i < order.len() ==> lib.pages.valid(#[trigger] order[i])
    &&& forall|i: int, j: int|
        0 <= i < j < order.len() ==> (#[trigger] order[i]).idx != (#[trigger] order[j]).idx
    &&& forall|i: int|
        0 <= i < order.len() ==> (#[trigger] lib.pages.at(order[i])).later == (if i == 0 {
            None
        } else {
            Some(order[i - 1])
        })
    &&& forall|i: int|
        0 <= i < order.len() ==> (#[trigger] lib.pages.at(order[i])).earlier == (if i == order.len()
            - 1 {
            None
        } else {
            Some(order[i + 1])
        })
    &&& forall|i: int|
        0 <= i < order.len() - 1 ==> page_date_le(
            #[trigger] lib.pages.at(order[i]),
            lib.pages.at(order[i + 1]),
        )
    &&& forall|i: int|
        0 <= i < order.len() ==> (#[trigger] lib.pages.at(order[i])).meta.datetime is Some
}

impl Library {
    /// Builds the date-descending doubly linked ordering across the pages
    /// with a date, ties broken by path ascending. Returns the chain; every
    /// dated page stands in it exactly once, pages without a date are
    /// untouched, and no field but the two links changes on any page.
    #[verifier::rlimit(100)]
    pub fn sort_pages_by_date(&mut self) -> (order: Ghost<Seq<Key>>)
        requires
            old(self).wf(),
            forall|i: int|
                0 <= i < old(self).page_keys@.len() ==> ((#[trigger] old(self).pages.at(
                    old(self).page_keys@[i],
                )).meta.datetime matches Some(dt) ==> dt.wf()),
        ensures
            final(self).wf(),
            final(self).page_keys@ == old(self).page_keys@,
            final(self).section_keys@ == old(self).section_keys@,
            final(self).sections == old(self).sections,
            final(self).permalinks == old(self).permalinks,
            date_chain_wf(*final(self), order@),
            forall|i: int|
                0 <= i < final(self).page_keys@.len() ==> {
                    let k = #[trigger] final(self).page_keys@[i];
                    &&& final(self).pages.valid(k)
                    &&& final(self).pages.at(k) == (Page {
                        earlier: final(self).pages.at(k).earlier,
                        later: final(self).pages.at(k).later,
                        ..old(self).pages.at(k)
                    })
                    &&& (old(self).pages.at(k).meta.datetime is Some <==> order@.contains(k))
                    &&& (old(self).pages.at(k).meta.datetime is None ==> final(self).pages.at(k)
                        == old(self).pages.at(k))
                },
    {
        let entries = self.collect_dated();
        let sorted = sort_entries(entries);
        let ghost pre = *self;
        proof {
            sorted@.to_multiset_ensures();
            entries@.to_multiset_ensures();
            assert forall|j: int| 0 <= j < sorted@.len() implies entry_matches_arena(
                pre.pages,
                #[trigger] sorted@[j],
            ) && entries@.contains(sorted@[j]) by {
                assert(sorted@.to_multiset().count(sorted@[j]) > 0);
                assert(entries@.contains(sorted@[j]));
                let m = choose|m: int| 0 <= m < entries@.len() && entries@[m] == sorted@[j];
            }
            assert forall|j1: int, j2: int|
                0 <= j1 < j2 < sorted@.len() implies (#[trigger] sorted@[j1]).key.idx != (
            #[trigger] sorted@[j2]).key.idx by {
                lemma_sorted_entry_keys_distinct(entries@, sorted@, j1, j2, pre.page_keys@);
            }
            assert forall|j: int| 0 <= j < sorted@.len() implies key_among(
                (#[trigger] sorted@[j]).key,
                pre.page_keys@,
            ) by {
                assert(entries@.contains(sorted@[j]));
                let m = choose|m: int| 0 <= m < entries@.len() && entries@[m] == sorted@[j];
                assert(key_among(entries@[m].key, pre.page_keys@));
            }
        }
        let ghost order_seq = entries_keys(sorted@);
        let ghost orig = self.pages;
        let mut w: usize = 0;
        while w < sorted.len()
            invariant
                pre.wf(),
                self.page_keys@ == pre.page_keys@,
                self.section_keys@ == pre.section_keys@,
                self.sections == pre.sections,
                self.permalinks == pre.permalinks,
                self.pages.spec_len() == orig.spec_len(),
                0 <= w <= sorted@.len(),
                order_seq == entries_keys(sorted@),
                order_seq.len() == sorted@.len(),
                forall|j: int|
                    0 <= j < sorted@.len() ==> order_seq[j] == (#[trigger] sorted@[j]).key,
                entries_sorted(sorted@),
                forall|j: int|
                    0 <= j < sorted@.len() ==> entry_matches_arena(orig, #[trigger] sorted@[j]),
                forall|j1: int, j2: int|
                    0 <= j1 < j2 < sorted@.len() ==> (#[trigger] sorted@[j1]).key.idx != (
                #[trigger] sorted@[j2]).key.idx,
                forall|k2: Key| orig.valid(k2) ==> #[trigger] self.pages.valid(k2),
                forall|k2: Key| #[trigger] self.pages.valid(k2) ==> orig.valid(k2),
                forall|k2: Key|
                    orig.valid(k2) && !seq_contains_idx(order_seq.take(w as int), k2.idx)
                        ==> #[trigger] self.pages.at(k2) == orig.at(k2),
                forall|j: int|
                    0 <= j < w ==> #[trigger] self.pages.at(order_seq[j]) == (Page {
                        later: if j == 0 {
                            None
                        } else {
                            Some(order_seq[j - 1])
                        },
                        earlier: if j == sorted@.len() - 1 {
                            None
                        } else {
                            Some(order_seq[j + 1])
                        },
                        ..orig.at(order_seq[j])
                    }),
            decreases sorted@.len() - w,
        {
            let k = sorted[w].key;
            let later: Option<Key> = if w == 0 {
                None
            } else {
                Some(sorted[w - 1].key)
            };
            let earlier: Option<Key> = if w + 1 == sorted.len() {
                None
            } else {
                Some(sorted[w + 1].key)
            };
            proof {
                assert(entry_matches_arena(orig, sorted@[w as int]));
                assert(orig.valid(k));
                if seq_contains_idx(order_seq.take(w as int), k.idx) {
                    let m = choose|m: int|
                        0 <= m < w && (#[trigger] order_seq.take(w as int)[m]).idx == k.idx;
                    assert(sorted@[m].key.idx == sorted@[w as int].key.idx);
                    assert(false);
                }
                assert(self.pages.at(k) == orig.at(k));
            }
            let pm = self.pages.borrow_mut(k);
            pm.later = later;
            pm.earlier = earlier;
            proof {
                assert forall|k2: Key|
                    orig.valid(k2) && !seq_contains_idx(
                        order_seq.take(w + 1),
                        k2.idx,
                    ) implies #[trigger] self.pages.at(k2) == orig.at(k2) by {
                    if seq_contains_idx(order_seq.take(w as int), k2.idx) {
                        let m = choose|m: int|
                            0 <= m < w && (#[trigger] order_seq.take(w as int)[m]).idx == k2.idx;
                        assert(order_seq.take(w + 1)[m].idx == k2.idx);
                        assert(false);
                    }
                    assert(k2.idx != k.idx) by {
                        if k2.idx == k.idx {
                            assert(order_seq.take(w + 1)[w as int].idx == k2.idx);
                        }
                    }
                }
                assert forall|j: int|
                    0 <= j < w + 1 implies #[trigger] self.pages.at(order_seq[j]) == (Page {
                        later: if j == 0 {
                            None
                        } else {
                            Some(order_seq[j - 1])
                        },
                        earlier: if j == sorted@.len() - 1 {
                            None
                        } else {
                            Some(order_seq[j + 1])
                        },
                        ..orig.at(order_seq[j])
                    }) by {
                    if j < w {
                        assert(order_seq[j].idx != k.idx);
                    }
                }
            }
            w = w + 1;
        }
        proof {
            // the chain is consistent
            assert forall|i: int| 0 <= i < order_seq.len() implies self.pages.valid(
                #[trigger] order_seq[i],
            ) by {
                assert(orig.valid(sorted@[i].key));
            }
            assert forall|i: int|
                0 <= i < order_seq.len() - 1 implies page_date_le(
                #[trigger] self.pages.at(order_seq[i]),
                self.pages.at(order_seq[i + 1]),
            ) by {
                assert(entry_le(sorted@[i], sorted@[i + 1]));
                assert(self.pages.at(order_seq[i]).meta == orig.at(order_seq[i]).meta);
                assert(self.pages.at(order_seq[i]).path == orig.at(order_seq[i]).path);
            }
            // every page: only its links changed, and membership matches dates
            assert forall|i: int| 0 <= i < self.page_keys@.len() implies {
                let k = #[trigger] self.page_keys@[i];
                &&& self.pages.valid(k)
                &&& self.pages.at(k) == (Page {
                    earlier: self.pages.at(k).earlier,
                    later: self.pages.at(k).later,
                    ..pre.pages.at(k)
                })
                &&& (pre.pages.at(k).meta.datetime is Some <==> order_seq.contains(k))
                &&& (pre.pages.at(k).meta.datetime is None ==> self.pages.at(k) == pre.pages.at(
                    k,
                ))
            } by {
                let k = self.page_keys@[i];
                assert(pre.pages.valid(k));
                lemma_membership(pre, entries@, sorted@, order_seq, k, i);
                if order_seq.contains(k) {
                    let j = choose|j: int| 0 <= j < order_seq.len() && order_seq[j] == k;
                    assert(self.pages.at(order_seq[j]) == (Page {
                        later: if j == 0 {
                            None
                        } else {
                            Some(order_seq[j - 1])
                        },
                        earlier: if j == sorted@.len() - 1 {
                            None
                        } else {
                            Some(order_seq[j + 1])
                        },
                        ..orig.at(order_seq[j])
                    }));
                } else {
                    assert(!seq_contains_idx(order_seq.take(order_seq.len() as int), k.idx)) by {
                        if seq_contains_idx(order_seq.take(order_seq.len() as int), k.idx) {
                            let m = choose|m: int|
                                0 <= m < order_seq.len() && (#[trigger] order_seq.take(
                                    order_seq.len() as int,
                                )[m]).idx == k.idx;
                            assert(key_among(sorted@[m].key, pre.page_keys@));
                            let m2 = choose|m2: int|
                                0 <= m2 < pre.page_keys@.len() && (#[trigger] pre.page_keys@[m2])
                                    == sorted@[m].key;
                            assert(pre.page_keys@[m2].idx == pre.page_keys@[i].idx);
                            if m2 != i {
                                assert(pre.page_keys@[m2].idx != pre.page_keys@[i].idx);
                            }
                            assert(order_seq[m] == k);
                            assert(order_seq.contains(k));
                            assert(false);
                        }
                    }
                    assert(self.pages.at(k) == orig.at(k));
                }
            }
        }
        Ghost(order_seq)
    }

    /// The entries of every dated page, unsorted.
    fn collect_dated(&self) -> (entries: Vec<RankEntry>)
        requires
            self.wf(),
            forall|i: int|
                0 <= i < self.page_keys@.len() ==> ((#[trigger] self.pages.at(
                    self.page_keys@[i],
                )).meta.datetime matches Some(dt) ==> dt.wf()),
        ensures
            forall|j: int|
                0 <= j < entries@.len() ==> entry_matches_arena(self.pages, #[trigger] entries@[j]),
            forall|j: int|
                0 <= j < entries@.len() ==> key_among((#[trigger] entries@[j]).key, self.page_keys@),
            forall|j1: int, j2: int|
                0 <= j1 < j2 < entries@.len() ==> (#[trigger] entries@[j1]).key.idx != (
            #[trigger] entries@[j2]).key.idx,
            forall|i: int|
                0 <= i < self.page_keys@.len() ==> ((#[trigger] self.pages.at(
                    self.page_keys@[i],
                )).meta.datetime is Some <==> entries_keys(entries@).contains(self.page_keys@[i])),
    {
        let mut entries: Vec<RankEntry> = Vec::new();
        let mut i: usize = 0;
        while i < self.page_keys.len()
            invariant
                self.wf(),
                0 <= i <= self.page_keys@.len(),
                forall|ii: int|
                    0 <= ii < self.page_keys@.len() ==> ((#[trigger] self.pages.at(
                        self.page_keys@[ii],
                    )).meta.datetime matches Some(dt) ==> dt.wf()),
                forall|j: int|
                    0 <= j < entries@.len() ==> entry_matches_arena(
                        self.pages,
                        #[trigger] entries@[j],
                    ),
                forall|j: int|
                    0 <= j < entries@.len() ==> exists|m: int|
                        0 <= m < i && (#[trigger] entries@[j]).key == self.page_keys@[m],
                forall|j1: int, j2: int|
                    0 <= j1 < j2 < entries@.len() ==> (#[trigger] entries@[j1]).key.idx != (
                #[trigger] entries@[j2]).key.idx,
                forall|ii: int|
                    0 <= ii < i ==> ((#[trigger] self.pages.at(
                        self.page_keys@[ii],
                    )).meta.datetime is Some <==> entries_keys(entries@).contains(
                        self.page_keys@[ii],
                    )),
            decreases self.page_keys@.len() - i,
        {
            let k = self.page_keys[i];
            let p = self.pages.get(k);
            let ghost before = entries@;
            match &p.meta.datetime {
                Some(dtr) => {
                    let dt = *dtr;
                    let secs = dt.epoch_seconds();
                    let path = chars_of(p.path.as_str());
                    let e = RankEntry { rank: secs as i128, sub: dt.nanosecond, path, key: k };
                    entries.push(e);
                    proof {
                        lemma_entries_keys_push(before, e);
                        assert forall|j1: int, j2: int|
                            0 <= j1 < j2 < entries@.len() implies (
                        #[trigger] entries@[j1]).key.idx != (#[trigger] entries@[j2]).key.idx by {
                            if j2 == entries@.len() - 1 {
                                let m = choose|m: int|
                                    0 <= m < i && (#[trigger] before[j1]).key
                                        == self.page_keys@[m];
                                assert(self.page_keys@[m].idx != self.page_keys@[i as int].idx);
                            }
                        }
                        assert forall|ii: int|
                            0 <= ii < i + 1 implies ((#[trigger] self.pages.at(
                            self.page_keys@[ii],
                        )).meta.datetime is Some <==> entries_keys(entries@).contains(
                            self.page_keys@[ii],
                        )) by {
                            if ii < i {
                                if self.pages.at(self.page_keys@[ii]).meta.datetime is Some {
                                    let m = choose|m: int|
                                        0 <= m < entries_keys(before).len() && entries_keys(
                                            before,
                                        )[m] == self.page_keys@[ii];
                                    assert(entries_keys(entries@)[m] == self.page_keys@[ii]);
                                } else {
                                    if entries_keys(entries@).contains(self.page_keys@[ii]) {
                                        let m = choose|m: int|
                                            0 <= m < entries_keys(entries@).len() && entries_keys(
                                                entries@,
                                            )[m] == self.page_keys@[ii];
                                        if m < before.len() {
                                            assert(entries_keys(before)[m]
                                                == self.page_keys@[ii]);
                                            assert(entries_keys(before).contains(
                                                self.page_keys@[ii],
                                            ));
                                        } else {
                                            assert(entries@[m].key == k);
                                            assert(self.page_keys@[ii].idx != k.idx);
                                        }
                                        assert(false);
                                    }
                                }
                            } else {
                                assert(entries_keys(entries@)[entries@.len() - 1] == k);
                            }
                        }
                    }
                },
                None => {
                    proof {
                        assert forall|ii: int|
                            0 <= ii < i + 1 implies ((#[trigger] self.pages.at(
                            self.page_keys@[ii],
                        )).meta.datetime is Some <==> entries_keys(entries@).contains(
                            self.page_keys@[ii],
                        )) by {
                            if ii == i {
                                if entries_keys(entries@).contains(self.page_keys@[i as int]) {
                                    let m = choose|m: int|
                                        0 <= m < entries_keys(entries@).len() && entries_keys(
                                            entries@,
                                        )[m] == self.page_keys@[i as int];
                                    assert(entries@[m].key == self.page_keys@[i as int]);
                                    assert(entry_matches_arena(self.pages, entries@[m]));
                                    assert(false);
                                }
                            }
                        }
                    }
                },
            }
            i = i + 1;
        }
        proof {
            assert forall|j: int| 0 <= j < entries@.len() implies key_among(
                (#[trigger] entries@[j]).key,
                self.page_keys@,
            ) by {
                let m = choose|m: int|
                    0 <= m < self.page_keys@.len() && (#[trigger] entries@[j]).key
                        == self.page_keys@[m];
            }
        }
        entries
    }
}

/// In a registry of distinct slot indexes, equal indexes mean equal keys.
proof fn lemma_same_idx_same_key(keys: Seq<Key>, a: Key, b: Key)
    requires
        forall|i: int, j: int|
            0 <= i < j < keys.len() ==> (#[trigger] keys[i]).idx != (#[trigger] keys[j]).idx,
        key_among(a, keys),
        key_among(b, keys),
        a.idx == b.idx,
    ensures
        a == b,
{
    let i = choose|i: int| 0 <= i < keys.len() && (#[trigger] keys[i]) == a;
    let j = choose|j: int| 0 <= j < keys.len() && (#[trigger] keys[j]) == b;
    if i != j {
        assert(keys[i].idx != keys[j].idx || keys[j].idx != keys[i].idx);
    }
}

/// The key occurs in the registry.
pub open spec fn key_among(k: Key, keys: Seq<Key>) -> bool {
    exists|m: int| 0 <= m < keys.len() && (#[trigger] keys[m]) == k
}

/// Sorted entries keep the distinct slot indexes of the collected ones.
proof fn lemma_sorted_entry_keys_distinct(
    entries: Seq<RankEntry>,
    sorted: Seq<RankEntry>,
    j1: int,
    j2: int,
    keys: Seq<Key>,
)
    requires
        sorted.to_multiset() == entries.to_multiset(),
        sorted.len() == entries.len(),
        entries.no_duplicates(),
        0 <= j1 < j2 < sorted.len(),
        forall|m1: int, m2: int|
            0 <= m1 < m2 < entries.len() ==> (#[trigger] entries[m1]).key.idx != (
            #[trigger] entries[m2]).key.idx,
    ensures
        sorted[j1].key.idx != sorted[j2].key.idx,
{
    sorted.to_multiset_ensures();
    entries.to_multiset_ensures();
    entries.lemma_multiset_has_no_duplicates();
    sorted.lemma_multiset_has_no_duplicates_conv();
    assert(sorted[j1] != sorted[j2]);
    assert(sorted.to_multiset().count(sorted[j1]) > 0);
    assert(entries.contains(sorted[j1]));
    assert(sorted.to_multiset().count(sorted[j2]) > 0);
    assert(entries.contains(sorted[j2]));
    let m1 = choose|m: int| 0 <= m < entries.len() && entries[m] == sorted[j1];
    let m2 = choose|m: int| 0 <= m < entries.len() && entries[m] == sorted[j2];
    if m1 == m2 {
        assert(sorted[j1] == sorted[j2]);
    }
}

/// Membership in the chain matches having a date.
proof fn lemma_membership(
    pre: Library,
    entries: Seq<RankEntry>,
    sorted: Seq<RankEntry>,
    order: Seq<Key>,
    k: Key,
    i: int,
)
    requires
        sorted.to_multiset() == entries.to_multiset(),
        order == entries_keys(sorted),
        0 <= i < pre.page_keys@.len(),
        k == pre.page_keys@[i],
        pre.pages.at(k).meta.datetime is Some <==> entries_keys(entries).contains(k),
    ensures
        pre.pages.at(k).meta.datetime is Some <==> order.contains(k),
{
    sorted.to_multiset_ensures();
    entries.to_multiset_ensures();
    if entries_keys(entries).contains(k) {
        let m = choose|m: int|
            0 <= m < entries_keys(entries).len() && entries_keys(entries)[m] == k;
        assert(entries[m].key == k);
        assert(entries.contains(entries[m]));
        assert(entries.to_multiset().count(entries[m]) > 0);
        assert(sorted.contains(entries[m]));
        let m2 = choose|m2: int| 0 <= m2 < sorted.len() && sorted[m2] == entries[m];
        assert(order[m2] == k);
        assert(order.contains(k));
    }
    if order.contains(k) {
        let m = choose|m: int| 0 <= m < order.len() && order[m] == k;
        assert(sorted[m].key == k);
        assert(sorted.contains(sorted[m]));
        assert(sorted.to_multiset().count(sorted[m]) > 0);
        assert(entries.contains(sorted[m]));
        let m2 = choose|m2: int| 0 <= m2 < entries.len() && entries[m2] == sorted[m];
        assert(entries_keys(entries)[m2] == k);
        assert(entries_keys(entries).contains(k));
    }
}

/// Following a page's `later` link and then that page's `earlier` link
/// leads back to the page: the date ordering is a consistent doubly linked
/// list with no cycles and no duplicate position for two pages.
pub proof fn lemma_date_links_roundtrip(lib: Library, order: Seq<Key>, i: int)
    requires
        date_chain_wf(lib, order),
        0 <= i < order.len(),
        lib.pages.at(order[i]).later is Some,
    ensures
        lib.pages.valid(lib.pages.at(order[i]).later->Some_0),
        lib.pages.at(lib.pages.at(order[i]).later->Some_0).earlier == Some(order[i]),
{
    assert(lib.pages.at(order[i]).later == Some(order[i - 1]));
    assert(lib.pages.at(order[i - 1]).earlier == Some(order[i]));
}

/// Symmetrically: a page's `earlier` neighbor names it as `later`.
pub proof fn lemma_date_links_roundtrip_back(lib: Library, order: Seq<Key>, i: int)
    requires
        date_chain_wf(lib, order),
        0 <= i < order.len(),
        lib.pages.at(order[i]).earlier is Some,
    ensures
        lib.pages.valid(lib.pages.at(order[i]).earlier->Some_0),
        lib.pages.at(lib.pages.at(order[i]).earlier->Some_0).later == Some(order[i]),
{
    assert(lib.pages.at(order[i]).earlier == Some(order[i + 1]));
    assert(lib.pages.at(order[i + 1]).later == Some(order[i]));
}

impl Library {
    /// Takes one page out of the date ordering by patching its two
    /// neighbors toward each other: an O(1) patch; every other page and
    /// every other field is untouched.
    pub fn unlink_page_from_date_chain(&mut self, k: Key)
        requires
            old(self).wf(),
            old(self).pages.valid(k),
            (old(self).pages.at(k).later matches Some(l) ==> old(self).pages.valid(l) && l.idx
                != k.idx),
            (old(self).pages.at(k).earlier matches Some(e) ==> old(self).pages.valid(e) && e.idx
                != k.idx),
            (old(self).pages.at(k).later matches Some(l) && old(self).pages.at(
                k,
            ).earlier matches Some(e) ==> l.idx != e.idx),
        ensures
            final(self).wf(),
            final(self).page_keys@ == old(self).page_keys@,
            final(self).section_keys@ == old(self).section_keys@,
            final(self).sections == old(self).sections,
            final(self).permalinks == old(self).permalinks,
            final(self).pages.valid(k),
            final(self).pages.at(k) == (Page { earlier: None, later: None, ..old(self).pages.at(k) }),
            (old(self).pages.at(k).later matches Some(l) ==> final(self).pages.at(l) == (Page {
                earlier: old(self).pages.at(k).earlier,
                ..old(self).pages.at(l)
            })),
            (old(self).pages.at(k).earlier matches Some(e) ==> final(self).pages.at(e) == (Page {
                later: old(self).pages.at(k).later,
                ..old(self).pages.at(e)
            })),
            forall|k2: Key|
                old(self).pages.valid(k2) ==> #[trigger] final(self).pages.valid(k2),
            forall|k2: Key|
                old(self).pages.valid(k2) && k2.idx != k.idx && (old(self).pages.at(
                    k,
                ).later matches Some(l) ==> k2.idx != l.idx) && (old(self).pages.at(
                    k,
                ).earlier matches Some(e) ==> k2.idx != e.idx) ==> #[trigger] final(self).pages.at(k2) == old(self).pages.at(k2),
    {
        let later = self.pages.get(k).later;
        let earlier = self.pages.get(k).earlier;
        if let Some(l) = later {
            let pl = self.pages.borrow_mut(l);
            pl.earlier = earlier;
        }
        if let Some(e) = earlier {
            let pe = self.pages.borrow_mut(e);
            pe.later = later;
        }
        let pk = self.pages.borrow_mut(k);
        pk.later = None;
        pk.earlier = None;
    }
}

// ---------------------------------------------------------------------------
// The weight-ascending ordering per sibling group
// ---------------------------------------------------------------------------

/// The weight ordering between two weighted pages.
pub open spec fn page_weight_le(a: Page, b: Page) -> bool {
    let wa = a.meta.weight->Some_0;
    let wb = b.meta.weight->Some_0;
    (wa as int) < (wb as int) || (wa == wb && (crate::strtools::lex_lt(a.path@, b.path@) || a.path@
        == b.path@))
}

/// The weight ordering of one sibling group is a consistent doubly linked
/// chain, ascending by weight with path tie-break.
pub open spec fn weight_chain_wf(lib: Library, order: Seq<Key>) -> bool {
    &&& forall|i: int| 0 <= i < order.len() ==> lib.pages.valid(#[trigger] order[i])
    &&& forall|i: int, j: int|
        0 <= i < j < order.len() ==> (#[trigger] order[i]).idx != (#[trigger] order[j]).idx
    &&& forall|i: int|
        0 <= i < order.len() ==> (#[trigger] lib.pages.at(order[i])).lighter == (if i == 0 {
            None
        } else {
            Some(order[i - 1])
        })
    &&& forall|i: int|
        0 <= i < order.len() ==> (#[trigger] lib.pages.at(order[i])).heavier == (if i == order.len()
            - 1 {
            None
        } else {
            Some(order[i + 1])
        })
    &&& forall|i: int|
        0 <= i < order.len() - 1 ==> page_weight_le(
            #[trigger] lib.pages.at(order[i]),
            lib.pages.at(order[i + 1]),
        )
    &&& forall|i: int|
        0 <= i < order.len() ==> (#[trigger] lib.pages.at(order[i])).meta.weight is Some
}

/// A weight entry carries its page's weight and path.
pub open spec fn weight_entry_matches(arena: Arena<Page>, e: RankEntry) -> bool {
    &&& arena.valid(e.key)
    &&& arena.at(e.key).meta.weight is Some
    &&& e.rank as int == -(arena.at(e.key).meta.weight->Some_0 as int)
    &&& e.sub == 0
    &&& e.path@ == arena.at(e.key).path@
}

impl Library {
    /// Builds the weight-ascending doubly linked ordering across the pages
    /// of one sibling group, ties broken by path ascending. Pages of the
    /// group without a weight land in the section's `ignored_pages`; no
    /// other field of any page, and no other section, changes.
    #[verifier::rlimit(100)]
    pub fn sort_section_pages_by_weight(&mut self, ks: Key) -> (order: Ghost<Seq<Key>>)
        requires
            old(self).wf(),
            old(self).sections.valid(ks),
            forall|i: int|
                0 <= i < old(self).sections.at(ks).pages@.len() ==> old(self).pages.valid(
                    #[trigger] old(self).sections.at(ks).pages@[i],
                ),
            forall|i: int, j: int|
                0 <= i < j < old(self).sections.at(ks).pages@.len() ==> (#[trigger] old(
                    self,
                ).sections.at(ks).pages@[i]).idx != (#[trigger] old(self).sections.at(
                    ks,
                ).pages@[j]).idx,
        ensures
            final(self).wf(),
            final(self).page_keys@ == old(self).page_keys@,
            final(self).section_keys@ == old(self).section_keys@,
            final(self).permalinks == old(self).permalinks,
            weight_chain_wf(*final(self), order@),
            // only this section changed, and only its ignored pages
            forall|k2: Key|
                old(self).sections.valid(k2) ==> #[trigger] final(self).sections.valid(k2),
            forall|k2: Key|
                old(self).sections.valid(k2) && k2.idx != ks.idx ==> #[trigger] final(self).sections.at(k2) == old(self).sections.at(k2),
            final(self).sections.at(ks) == (Section {
                ignored_pages: final(self).sections.at(ks).ignored_pages,
                ..old(self).sections.at(ks)
            }),
            // the chain holds exactly the group members with a weight
            forall|i: int|
                0 <= i < old(self).sections.at(ks).pages@.len() ==> {
                    let kp = #[trigger] old(self).sections.at(ks).pages@[i];
                    &&& final(self).pages.valid(kp)
                    &&& final(self).pages.at(kp) == (Page {
                        lighter: final(self).pages.at(kp).lighter,
                        heavier: final(self).pages.at(kp).heavier,
                        ..old(self).pages.at(kp)
                    })
                    &&& (old(self).pages.at(kp).meta.weight is Some <==> order@.contains(kp))
                    &&& (old(self).pages.at(kp).meta.weight is None ==> final(self).pages.at(kp)
                        == old(self).pages.at(kp) && final(self).sections.at(
                        ks,
                    ).ignored_pages@.contains(kp))
                },
            // pages outside the group are untouched
            forall|k2: Key|
                old(self).pages.valid(k2) ==> #[trigger] final(self).pages.valid(k2),
            forall|k2: Key|
                old(self).pages.valid(k2) && !seq_contains_idx(
                    old(self).sections.at(ks).pages@,
                    k2.idx,
                ) ==> #[trigger] final(self).pages.at(k2) == old(self).pages.at(k2),
    {
        let group = copy_keys(&self.sections.get(ks).pages);
        let ghost pre = *self;
        // collect the weighted members
        let mut entries: Vec<RankEntry> = Vec::new();
        let mut ignored: Vec<Key> = Vec::new();
        let mut i: usize = 0;
        while i < group.len()
            invariant
                *self == pre,
                pre.wf(),
                pre.sections.valid(ks),
                group@ == pre.sections.at(ks).pages@,
                forall|ii: int| 0 <= ii < group@.len() ==> pre.pages.valid(#[trigger] group@[ii]),
                forall|i1: int, i2: int|
                    0 <= i1 < i2 < group@.len() ==> (#[trigger] group@[i1]).idx != (
                #[trigger] group@[i2]).idx,
                0 <= i <= group@.len(),
                forall|j: int|
                    0 <= j < entries@.len() ==> weight_entry_matches(
                        pre.pages,
                        #[trigger] entries@[j],
                    ),
                forall|j: int|
                    0 <= j < entries@.len() ==> exists|m: int|
                        0 <= m < i && (#[trigger] entries@[j]).key == group@[m],
                forall|j1: int, j2: int|
                    0 <= j1 < j2 < entries@.len() ==> (#[trigger] entries@[j1]).key.idx != (
                #[trigger] entries@[j2]).key.idx,
                forall|ii: int|
                    0 <= ii < i ==> ((#[trigger] pre.pages.at(group@[ii])).meta.weight is Some
                        <==> entries_keys(entries@).contains(group@[ii])),
                forall|ii: int|
                    0 <= ii < i ==> ((#[trigger] pre.pages.at(group@[ii])).meta.weight is None
                        <==> ignored@.contains(group@[ii])),
                forall|j: int|
                    0 <= j < ignored@.len() ==> exists|m: int|
                        0 <= m < i && (#[trigger] ignored@[j]) == group@[m],
            decreases group@.len() - i,
        {
            let k = group[i];
            let p = self.pages.get(k);
            let ghost before = entries@;
            let ghost before_ig = ignored@;
            match &p.meta.weight {
                Some(w) => {
                    let rank: i128 = -(*w as i128);
                    let path = chars_of(p.path.as_str());
                    let e = RankEntry { rank, sub: 0, path, key: k };
                    entries.push(e);
                    proof {
                        lemma_entries_keys_push(before, e);
                        assert forall|j1: int, j2: int|
                            0 <= j1 < j2 < entries@.len() implies (
                        #[trigger] entries@[j1]).key.idx != (#[trigger] entries@[j2]).key.idx by {
                            if j2 == entries@.len() - 1 {
                                let m = choose|m: int|
                                    0 <= m < i && (#[trigger] before[j1]).key == group@[m];
                                assert(group@[m].idx != group@[i as int].idx);
                            }
                        }
                        assert forall|ii: int|
                            0 <= ii < i + 1 implies ((#[trigger] pre.pages.at(
                            group@[ii],
                        )).meta.weight is Some <==> entries_keys(entries@).contains(
                            group@[ii],
                        )) by {
                            if ii < i {
                                if pre.pages.at(group@[ii]).meta.weight is Some {
                                    let m = choose|m: int|
                                        0 <= m < entries_keys(before).len() && entries_keys(
                                            before,
                                        )[m] == group@[ii];
                                    assert(entries_keys(entries@)[m] == group@[ii]);
                                } else {
                                    if entries_keys(entries@).contains(group@[ii]) {
                                        let m = choose|m: int|
                                            0 <= m < entries_keys(entries@).len() && entries_keys(
                                                entries@,
                                            )[m] == group@[ii];
                                        if m < before.len() {
                                            assert(entries_keys(before)[m] == group@[ii]);
                                            assert(entries_keys(before).contains(group@[ii]));
                                        } else {
                                            assert(entries@[m].key == k);
                                            assert(group@[ii].idx != k.idx);
                                        }
                                        assert(false);
                                    }
                                }
                            } else {
                                assert(entries_keys(entries@)[entries@.len() - 1] == k);
                            }
                        }
                        assert forall|ii: int|
                            0 <= ii < i + 1 implies ((#[trigger] pre.pages.at(
                            group@[ii],
                        )).meta.weight is None <==> ignored@.contains(group@[ii])) by {}
                    }
                },
                None => {
                    ignored.push(k);
                    proof {
                        assert forall|ii: int|
                            0 <= ii < i + 1 implies ((#[trigger] pre.pages.at(
                            group@[ii],
                        )).meta.weight is None <==> ignored@.contains(group@[ii])) by {
                            if ii < i {
                                if pre.pages.at(group@[ii]).meta.weight is None {
                                    let m = choose|m: int|
                                        0 <= m < before_ig.len() && before_ig[m] == group@[ii];
                                    assert(ignored@[m] == group@[ii]);
                                } else {
                                    if ignored@.contains(group@[ii]) {
                                        let m = choose|m: int|
                                            0 <= m < ignored@.len() && ignored@[m] == group@[ii];
                                        if m < before_ig.len() {
                                            assert(before_ig.contains(group@[ii]));
                                        } else {
                                            assert(ignored@[m] == k);
                                            assert(group@[ii].idx != k.idx);
                                        }
                                        assert(false);
                                    }
                                }
                            } else {
                                assert(ignored@[ignored@.len() - 1] == k);
                                if entries_keys(entries@).contains(group@[ii]) {
                                    let m = choose|m: int|
                                        0 <= m < entries_keys(entries@).len() && entries_keys(
                                            entries@,
                                        )[m] == group@[ii];
                                    assert(weight_entry_matches(pre.pages, entries@[m]));
                                    assert(false);
                                }
                            }
                        }
                        assert forall|ii: int|
                            0 <= ii < i + 1 implies ((#[trigger] pre.pages.at(
                            group@[ii],
                        )).meta.weight is Some <==> entries_keys(entries@).contains(
                            group@[ii],
                        )) by {
                            if ii == i {
                                if entries_keys(entries@).contains(group@[i as int]) {
                                    let m = choose|m: int|
                                        0 <= m < entries_keys(entries@).len() && entries_keys(
                                            entries@,
                                        )[m] == group@[i as int];
                                    assert(weight_entry_matches(pre.pages, entries@[m]));
                                    assert(false);
                                }
                            }
                        }
                    }
                },
            }
            i = i + 1;
        }
        // sort and write the links
        let sorted = sort_entries(entries);
        let ghost entries_snapshot = entries@;
        proof {
            sorted@.to_multiset_ensures();
        }
        let ghost order_seq = entries_keys(sorted@);
        proof {
            sorted@.to_multiset_ensures();
            entries_snapshot.to_multiset_ensures();
            assert forall|j: int| 0 <= j < sorted@.len() implies weight_entry_matches(
                pre.pages,
                #[trigger] sorted@[j],
            ) && key_among((#[trigger] sorted@[j]).key, group@) by {
                assert(sorted@.to_multiset().count(sorted@[j]) > 0);
                assert(entries_snapshot.contains(sorted@[j]));
                let m = choose|m: int|
                    0 <= m < entries_snapshot.len() && entries_snapshot[m] == sorted@[j];
                let m2 = choose|m2: int|
                    0 <= m2 < group@.len() && (#[trigger] entries_snapshot[m]).key == group@[m2];
            }
            assert forall|j1: int, j2: int|
                0 <= j1 < j2 < sorted@.len() implies (#[trigger] sorted@[j1]).key.idx != (
            #[trigger] sorted@[j2]).key.idx by {
                lemma_sorted_entry_keys_distinct(
                    entries_snapshot,
                    sorted@,
                    j1,
                    j2,
                    pre.page_keys@,
                );
            }
        }
        let ghost orig = self.pages;
        let mut w: usize = 0;
        while w < sorted.len()
            invariant
                pre.wf(),
                self.page_keys@ == pre.page_keys@,
                self.section_keys@ == pre.section_keys@,
                self.sections == pre.sections,
                self.permalinks == pre.permalinks,
                self.pages.spec_len() == orig.spec_len(),
                0 <= w <= sorted@.len(),
                order_seq == entries_keys(sorted@),
                order_seq.len() == sorted@.len(),
                forall|j: int|
                    0 <= j < sorted@.len() ==> order_seq[j] == (#[trigger] sorted@[j]).key,
                entries_sorted(sorted@),
                forall|j: int|
                    0 <= j < sorted@.len() ==> weight_entry_matches(orig, #[trigger] sorted@[j]),
                forall|j1: int, j2: int|
                    0 <= j1 < j2 < sorted@.len() ==> (#[trigger] sorted@[j1]).key.idx != (
                #[trigger] sorted@[j2]).key.idx,
                forall|k2: Key| orig.valid(k2) ==> #[trigger] self.pages.valid(k2),
                forall|k2: Key| #[trigger] self.pages.valid(k2) ==> orig.valid(k2),
                forall|k2: Key|
                    orig.valid(k2) && !seq_contains_idx(order_seq.take(w as int), k2.idx)
                        ==> #[trigger] self.pages.at(k2) == orig.at(k2),
                forall|j: int|
                    0 <= j < w ==> #[trigger] self.pages.at(order_seq[j]) == (Page {
                        lighter: if j == 0 {
                            None
                        } else {
                            Some(order_seq[j - 1])
                        },
                        heavier: if j == sorted@.len() - 1 {
                            None
                        } else {
                            Some(order_seq[j + 1])
                        },
                        ..orig.at(order_seq[j])
                    }),
            decreases sorted@.len() - w,
        {
            let k = sorted[w].key;
            let lighter: Option<Key> = if w == 0 {
                None
            } else {
                Some(sorted[w - 1].key)
            };
            let heavier: Option<Key> = if w + 1 == sorted.len() {
                None
            } else {
                Some(sorted[w + 1].key)
            };
            proof {
                assert(weight_entry_matches(orig, sorted@[w as int]));
                assert(orig.valid(k));
                if seq_contains_idx(order_seq.take(w as int), k.idx) {
                    let m = choose|m: int|
                        0 <= m < w && (#[trigger] order_seq.take(w as int)[m]).idx == k.idx;
                    assert(sorted@[m].key.idx == sorted@[w as int].key.idx);
                    assert(false);
                }
                assert(self.pages.at(k) == orig.at(k));
            }
            let pm = self.pages.borrow_mut(k);
            pm.lighter = lighter;
            pm.heavier = heavier;
            proof {
                assert forall|k2: Key|
                    orig.valid(k2) && !seq_contains_idx(
                        order_seq.take(w + 1),
                        k2.idx,
                    ) implies #[trigger] self.pages.at(k2) == orig.at(k2) by {
                    if seq_contains_idx(order_seq.take(w as int), k2.idx) {
                        let m = choose|m: int|
                            0 <= m < w && (#[trigger] order_seq.take(w as int)[m]).idx == k2.idx;
                        assert(order_seq.take(w + 1)[m].idx == k2.idx);
                        assert(false);
                    }
                    assert(k2.idx != k.idx) by {
                        if k2.idx == k.idx {
                            assert(order_seq.take(w + 1)[w as int].idx == k2.idx);
                        }
                    }
                }
                assert forall|j: int|
                    0 <= j < w + 1 implies #[trigger] self.pages.at(order_seq[j]) == (Page {
                        lighter: if j == 0 {
                            None
                        } else {
                            Some(order_seq[j - 1])
                        },
                        heavier: if j == sorted@.len() - 1 {
                            None
                        } else {
                            Some(order_seq[j + 1])
                        },
                        ..orig.at(order_seq[j])
                    }) by {
                    if j < w {
                        assert(order_seq[j].idx != k.idx);
                    }
                }
            }
            w = w + 1;
        }
        // record the ignored pages on the section
        let sm = self.sections.borrow_mut(ks);
        sm.ignored_pages = ignored;
        proof {
            assert(order_seq.take(sorted@.len() as int) =~= order_seq);
            assert forall|i2: int| 0 <= i2 < order_seq.len() implies self.pages.valid(
                #[trigger] order_seq[i2],
            ) by {
                assert(orig.valid(sorted@[i2].key));
            }
            assert forall|i2: int|
                0 <= i2 < order_seq.len() - 1 implies page_weight_le(
                #[trigger] self.pages.at(order_seq[i2]),
                self.pages.at(order_seq[i2 + 1]),
            ) by {
                assert(entry_le(sorted@[i2], sorted@[i2 + 1]));
                assert(self.pages.at(order_seq[i2]).meta == orig.at(order_seq[i2]).meta);
                assert(self.pages.at(order_seq[i2]).path == orig.at(order_seq[i2]).path);
            }
            assert forall|i2: int| 0 <= i2 < group@.len() implies {
                let kp = #[trigger] group@[i2];
                &&& self.pages.valid(kp)
                &&& self.pages.at(kp) == (Page {
                    lighter: self.pages.at(kp).lighter,
                    heavier: self.pages.at(kp).heavier,
                    ..pre.pages.at(kp)
                })
                &&& (pre.pages.at(kp).meta.weight is Some <==> order_seq.contains(kp))
                &&& (pre.pages.at(kp).meta.weight is None ==> self.pages.at(kp) == pre.pages.at(
                    kp,
                ) && self.sections.at(ks).ignored_pages@.contains(kp))
            } by {
                let kp = group@[i2];
                assert(pre.pages.valid(kp));
                lemma_weight_membership(pre, entries_snapshot, sorted@, order_seq, group@, kp, i2);
                if order_seq.contains(kp) {
                    let j = choose|j: int| 0 <= j < order_seq.len() && order_seq[j] == kp;
                    assert(self.pages.at(order_seq[j]) == (Page {
                        lighter: if j == 0 {
                            None
                        } else {
                            Some(order_seq[j - 1])
                        },
                        heavier: if j == sorted@.len() - 1 {
                            None
                        } else {
                            Some(order_seq[j + 1])
                        },
                        ..orig.at(order_seq[j])
                    }));
                } else {
                    assert(!seq_contains_idx(order_seq.take(order_seq.len() as int), kp.idx)) by {
                        if seq_contains_idx(order_seq.take(order_seq.len() as int), kp.idx) {
                            let m = choose|m: int|
                                0 <= m < order_seq.len() && (#[trigger] order_seq.take(
                                    order_seq.len() as int,
                                )[m]).idx == kp.idx;
                            assert(key_among(sorted@[m].key, group@));
                            let m2 = choose|m2: int|
                                0 <= m2 < group@.len() && (#[trigger] group@[m2])
                                    == sorted@[m].key;
                            if m2 != i2 {
                                assert(group@[m2].idx != group@[i2].idx);
                            }
                            assert(order_seq[m] == kp);
                            assert(order_seq.contains(kp));
                            assert(false);
                        }
                    }
                    assert(self.pages.at(kp) == orig.at(kp));
                }
            }
            assert forall|k2: Key|
                pre.pages.valid(k2) && !seq_contains_idx(
                    group@,
                    k2.idx,
                ) implies #[trigger] self.pages.at(k2) == pre.pages.at(k2) by {
                if seq_contains_idx(order_seq.take(order_seq.len() as int), k2.idx) {
                    let m = choose|m: int|
                        0 <= m < order_seq.len() && (#[trigger] order_seq.take(
                            order_seq.len() as int,
                        )[m]).idx == k2.idx;
                    assert(key_among(sorted@[m].key, group@));
                    let m2 = choose|m2: int|
                        0 <= m2 < group@.len() && (#[trigger] group@[m2]) == sorted@[m].key;
                    assert(seq_contains_idx(group@, k2.idx));
                    assert(false);
                }
            }
        }
        Ghost(order_seq)
    }
}

impl Library {
    /// Attaches every page to the section whose components are the longest
    /// prefix of the page's components, and every section with components
    /// to the best parent of its components minus the last. Pages keep
    /// their values; sections change only in their child lists, and no page
    /// or section lands under two parents.
    #[verifier::rlimit(100)]
    pub fn populate_sections(&mut self) -> (owners: Ghost<Seq<Option<Key>>>)
        requires
            old(self).wf(),
            forall|j: int|
                0 <= j < old(self).section_keys@.len() ==> (#[trigger] old(self).sections.at(
                    old(self).section_keys@[j],
                )).pages@.len() == 0 && old(self).sections.at(
                    old(self).section_keys@[j],
                ).subsections@.len() == 0,
        ensures
            final(self).wf(),
            final(self).page_keys@ == old(self).page_keys@,
            final(self).section_keys@ == old(self).section_keys@,
            final(self).pages == old(self).pages,
            final(self).permalinks == old(self).permalinks,
            owners@.len() == old(self).page_keys@.len(),
            // every section keeps everything but its page list
            forall|j: int|
                0 <= j < final(self).section_keys@.len() ==> {
                    let ks = #[trigger] final(self).section_keys@[j];
                    final(self).sections.at(ks) == (Section {
                        pages: final(self).sections.at(ks).pages,
                        ..old(self).sections.at(ks)
                    })
                },
            // each page hangs under its longest-prefix section, if any
            forall|i: int|
                0 <= i < old(self).page_keys@.len() ==> match #[trigger] owners@[i] {
                    Some(ks) => {
                        &&& final(self).sections.valid(ks)
                        &&& key_among(ks, final(self).section_keys@)
                        &&& comps_prefix(
                            final(self).sections.at(ks).file.components.deep_view(),
                            final(self).pages.at(old(self).page_keys@[i]).file.components.deep_view(),
                        )
                        &&& final(self).sections.at(ks).pages@.contains(old(self).page_keys@[i])
                        &&& forall|j2: int|
                            0 <= j2 < final(self).section_keys@.len() && comps_prefix(
                                final(self).sections.at(
                                    #[trigger] final(self).section_keys@[j2],
                                ).file.components.deep_view(),
                                final(self).pages.at(
                                    old(self).page_keys@[i],
                                ).file.components.deep_view(),
                            ) ==> final(self).sections.at(
                                final(self).section_keys@[j2],
                            ).file.components.deep_view().len() <= final(self).sections.at(
                                ks,
                            ).file.components.deep_view().len()
                    },
                    None => forall|j: int|
                        0 <= j < final(self).section_keys@.len() ==> !comps_prefix(
                            final(self).sections.at(
                                #[trigger] final(self).section_keys@[j],
                            ).file.components.deep_view(),
                            final(self).pages.at(
                                old(self).page_keys@[i],
                            ).file.components.deep_view(),
                        ),
                },
            // no page under two parents, and child lists are clean
            forall|j: int, x: Key|
                0 <= j < final(self).section_keys@.len() && (#[trigger] final(self).sections.at(
                    final(self).section_keys@[j],
                ).pages@.contains(x)) ==> exists|i: int|
                    0 <= i < old(self).page_keys@.len() && x == old(self).page_keys@[i]
                        && owners@[i] == Some(final(self).section_keys@[j]),
            forall|j: int|
                0 <= j < final(self).section_keys@.len() ==> {
                    let ps = (#[trigger] final(self).sections.at(
                        final(self).section_keys@[j],
                    )).pages@;
                    &&& (forall|m: int| 0 <= m < ps.len() ==> final(self).pages.valid(
                        #[trigger] ps[m],
                    ))
                    &&& (forall|m1: int, m2: int|
                        0 <= m1 < m2 < ps.len() ==> (#[trigger] ps[m1]).idx != (
                        #[trigger] ps[m2]).idx)
                },
    {
        let ghost pre = *self;
        let mut owners: Ghost<Seq<Option<Key>>> = Ghost(Seq::empty());
        let mut i: usize = 0;
        while i < self.page_keys.len()
            invariant
                pre.wf(),
                self.wf(),
                self.page_keys@ == pre.page_keys@,
                self.section_keys@ == pre.section_keys@,
                self.pages == pre.pages,
                self.permalinks == pre.permalinks,
                self.sections.spec_len() == pre.sections.spec_len(),
                forall|k2: Key| pre.sections.valid(k2) ==> #[trigger] self.sections.valid(k2),
                forall|k2: Key| #[trigger] self.sections.valid(k2) ==> pre.sections.valid(k2),
                0 <= i <= self.page_keys@.len(),
                owners@.len() == i,
                forall|j: int|
                    0 <= j < self.section_keys@.len() ==> {
                        let ks = #[trigger] self.section_keys@[j];
                        self.sections.at(ks) == (Section {
                            pages: self.sections.at(ks).pages,
                            ..pre.sections.at(ks)
                        })
                    },
                forall|i2: int|
                    0 <= i2 < i ==> match #[trigger] owners@[i2] {
                        Some(ks) => {
                            &&& self.sections.valid(ks)
                            &&& key_among(ks, self.section_keys@)
                            &&& comps_prefix(
                                self.sections.at(ks).file.components.deep_view(),
                                self.pages.at(self.page_keys@[i2]).file.components.deep_view(),
                            )
                            &&& self.sections.at(ks).pages@.contains(self.page_keys@[i2])
                            &&& forall|j2: int|
                                0 <= j2 < self.section_keys@.len() && comps_prefix(
                                    self.sections.at(
                                        #[trigger] self.section_keys@[j2],
                                    ).file.components.deep_view(),
                                    self.pages.at(
                                        self.page_keys@[i2],
                                    ).file.components.deep_view(),
                                ) ==> self.sections.at(
                                    self.section_keys@[j2],
                                ).file.components.deep_view().len() <= self.sections.at(
                                    ks,
                                ).file.components.deep_view().len()
                        },
                        None => forall|j: int|
                            0 <= j < self.section_keys@.len() ==> !comps_prefix(
                                self.sections.at(
                                    #[trigger] self.section_keys@[j],
                                ).file.components.deep_view(),
                                self.pages.at(self.page_keys@[i2]).file.components.deep_view(),
                            ),
                    },
                forall|j: int, x: Key|
                    0 <= j < self.section_keys@.len() && (#[trigger] self.sections.at(
                        self.section_keys@[j],
                    ).pages@.contains(x)) ==> exists|i2: int|
                        0 <= i2 < i && x == self.page_keys@[i2] && owners@[i2] == Some(
                            self.section_keys@[j],
                        ),
                forall|j: int|
                    0 <= j < self.section_keys@.len() ==> {
                        let ps = (#[trigger] self.sections.at(self.section_keys@[j])).pages@;
                        &&& (forall|m: int| 0 <= m < ps.len() ==> self.pages.valid(
                            #[trigger] ps[m],
                        ))
                        &&& (forall|m1: int, m2: int|
                            0 <= m1 < m2 < ps.len() ==> (#[trigger] ps[m1]).idx != (
                            #[trigger] ps[m2]).idx)
                    },
            decreases self.page_keys@.len() - i,
        {
            let kp = self.page_keys[i];
            let comps = copy_strings(&self.pages.get(kp).file.components);
            let parent = self.find_parent_section(&comps);
            let ghost before_sections = self.sections;
            let ghost owners_before = owners@;
            match parent {
                Some(ks) => {
                    proof {
                        let j0 = choose|j0: int|
                            0 <= j0 < self.section_keys@.len() && (
                            #[trigger] self.section_keys@[j0]) == ks;
                        assert(self.sections.valid(ks));
                    }
                    let sm = self.sections.borrow_mut(ks);
                    let ghost old_list = sm.pages@;
                    sm.pages.push(kp);
                    proof {
                        owners@ = owners_before.push(Some(ks));
                        assert forall|j2: int|
                            0 <= j2 < self.section_keys@.len() implies (#[trigger] self.sections.at(
                            self.section_keys@[j2],
                        )).file == before_sections.at(self.section_keys@[j2]).file by {
                            let ks2 = self.section_keys@[j2];
                            if ks2.idx == ks.idx {
                                lemma_same_idx_same_key(self.section_keys@, ks, ks2);
                            } else {
                                assert(self.sections.at(ks2) == before_sections.at(ks2));
                            }
                        }
                        assert(self.sections.at(ks).pages@ =~= old_list.push(kp));
                        assert(self.sections.at(ks) == (Section {
                            pages: self.sections.at(ks).pages,
                            ..before_sections.at(ks)
                        }));
                        assert forall|j: int|
                            0 <= j < self.section_keys@.len() implies {
                            let ks2 = #[trigger] self.section_keys@[j];
                            self.sections.at(ks2) == (Section {
                                pages: self.sections.at(ks2).pages,
                                ..pre.sections.at(ks2)
                            })
                        } by {
                            let ks2 = self.section_keys@[j];
                            if ks2.idx != ks.idx {
                                assert(self.sections.at(ks2) == before_sections.at(ks2));
                            } else {
                                lemma_same_idx_same_key(self.section_keys@, ks, ks2);
                            }
                        }
                        assert forall|i2: int|
                            0 <= i2 < i + 1 implies match #[trigger] owners@[i2] {
                            Some(ko) => {
                                &&& self.sections.valid(ko)
                                &&& key_among(ko, self.section_keys@)
                                &&& comps_prefix(
                                    self.sections.at(ko).file.components.deep_view(),
                                    self.pages.at(
                                        self.page_keys@[i2],
                                    ).file.components.deep_view(),
                                )
                                &&& self.sections.at(ko).pages@.contains(self.page_keys@[i2])
                                &&& forall|j2: int|
                                    0 <= j2 < self.section_keys@.len() && comps_prefix(
                                        self.sections.at(
                                            #[trigger] self.section_keys@[j2],
                                        ).file.components.deep_view(),
                                        self.pages.at(
                                            self.page_keys@[i2],
                                        ).file.components.deep_view(),
                                    ) ==> self.sections.at(
                                        self.section_keys@[j2],
                                    ).file.components.deep_view().len() <= self.sections.at(
                                        ko,
                                    ).file.components.deep_view().len()
                            },
                            None => forall|j: int|
                                0 <= j < self.section_keys@.len() ==> !comps_prefix(
                                    self.sections.at(
                                        #[trigger] self.section_keys@[j],
                                    ).file.components.deep_view(),
                                    self.pages.at(
                                        self.page_keys@[i2],
                                    ).file.components.deep_view(),
                                ),
                        } by {
                            if i2 < i {
                                match owners_before[i2] {
                                    Some(ko) => {
                                        assert(owners@[i2] == Some(ko));
                                        if ko.idx == ks.idx {
                                            lemma_same_idx_same_key(self.section_keys@, ks, ko);
                                            assert(self.sections.at(ko).file
                                                == before_sections.at(ko).file);
                                            assert(old_list.contains(self.page_keys@[i2]));
                                            let m = choose|m: int|
                                                0 <= m < old_list.len() && old_list[m]
                                                    == self.page_keys@[i2];
                                            assert(self.sections.at(ks).pages@[m]
                                                == self.page_keys@[i2]);
                                        } else {
                                            assert(self.sections.at(ko) == before_sections.at(
                                                ko,
                                            ));
                                        }
                                    },
                                    None => {
                                        assert forall|j: int|
                                            0 <= j < self.section_keys@.len() implies !comps_prefix(
                                            self.sections.at(
                                                #[trigger] self.section_keys@[j],
                                            ).file.components.deep_view(),
                                            self.pages.at(
                                                self.page_keys@[i2],
                                            ).file.components.deep_view(),
                                        ) by {
                                            let ks2 = self.section_keys@[j];
                                            if ks2.idx == ks.idx {
                                                lemma_same_idx_same_key(
                                                    self.section_keys@,
                                                    ks,
                                                    ks2,
                                                );
                                                assert(self.sections.at(ks2).file
                                                    == before_sections.at(ks2).file);
                                            } else {
                                                assert(self.sections.at(ks2)
                                                    == before_sections.at(ks2));
                                            }
                                        }
                                    },
                                }
                            } else {
                                assert(owners@[i2] == Some(ks));
                                assert(self.sections.at(ks).pages@[old_list.len() as int] == kp);
                            }
                        }
                        assert forall|j: int, x: Key|
                            0 <= j < self.section_keys@.len() && (#[trigger] self.sections.at(
                                self.section_keys@[j],
                            ).pages@.contains(x)) implies exists|i2: int|
                            0 <= i2 < i + 1 && x == self.page_keys@[i2] && owners@[i2] == Some(
                                self.section_keys@[j],
                            ) by {
                            let ks2 = self.section_keys@[j];
                            if ks2.idx != ks.idx {
                                assert(self.sections.at(ks2) == before_sections.at(ks2));
                                let i2 = choose|i2: int|
                                    0 <= i2 < i && x == self.page_keys@[i2] && owners_before[i2]
                                        == Some(ks2);
                                assert(owners@[i2] == Some(ks2));
                            } else {
                                lemma_same_idx_same_key(self.section_keys@, ks, ks2);
                                if x == kp {
                                    assert(owners@[i as int] == Some(ks));
                                } else {
                                    let m = choose|m: int|
                                        0 <= m < self.sections.at(ks).pages@.len() && (
                                        #[trigger] self.sections.at(ks).pages@[m]) == x;
                                    assert(old_list[m] == x);
                                    assert(before_sections.at(ks).pages@.contains(x));
                                    let i2 = choose|i2: int|
                                        0 <= i2 < i && x == self.page_keys@[i2]
                                            && owners_before[i2] == Some(ks);
                                    assert(owners@[i2] == Some(ks));
                                }
                            }
                        }
                        assert forall|j: int|
                            0 <= j < self.section_keys@.len() implies {
                            let ps = (#[trigger] self.sections.at(self.section_keys@[j])).pages@;
                            &&& (forall|m: int| 0 <= m < ps.len() ==> self.pages.valid(
                                #[trigger] ps[m],
                            ))
                            &&& (forall|m1: int, m2: int|
                                0 <= m1 < m2 < ps.len() ==> (#[trigger] ps[m1]).idx != (
                                #[trigger] ps[m2]).idx)
                        } by {
                            let ks2 = self.section_keys@[j];
                            if ks2.idx == ks.idx {
                                lemma_same_idx_same_key(self.section_keys@, ks, ks2);
                                let ps = self.sections.at(ks2).pages@;
                                assert(ps =~= old_list.push(kp));
                                assert forall|m: int| 0 <= m < ps.len() implies self.pages.valid(
                                    #[trigger] ps[m],
                                ) by {
                                    if m < old_list.len() {
                                        assert(before_sections.at(ks2).pages@[m] == ps[m]);
                                    }
                                }
                                assert forall|m1: int, m2: int|
                                    0 <= m1 < m2 < ps.len() implies (#[trigger] ps[m1]).idx != (
                                #[trigger] ps[m2]).idx by {
                                    if m2 == ps.len() - 1 {
                                        assert(before_sections.at(ks2).pages@.contains(ps[m1]));
                                        let i2 = choose|i2: int|
                                            0 <= i2 < i && ps[m1] == self.page_keys@[i2]
                                                && owners_before[i2] == Some(ks2);
                                        assert(self.page_keys@[i2].idx
                                            != self.page_keys@[i as int].idx);
                                    }
                                }
                            } else {
                                assert(self.sections.at(ks2) == before_sections.at(ks2));
                            }
                        }
                    }
                },
                None => {
                    proof {
                        owners@ = owners_before.push(None);
                        assert forall|j: int, x: Key|
                            0 <= j < self.section_keys@.len() && (#[trigger] self.sections.at(
                                self.section_keys@[j],
                            ).pages@.contains(x)) implies exists|i2: int|
                            0 <= i2 < i + 1 && x == self.page_keys@[i2] && owners@[i2] == Some(
                                self.section_keys@[j],
                            ) by {
                            let i2 = choose|i2: int|
                                0 <= i2 < i && x == self.page_keys@[i2] && owners_before[i2]
                                    == Some(self.section_keys@[j]);
                            assert(owners@[i2] == Some(self.section_keys@[j]));
                        }
                    }
                },
            }
            i = i + 1;
        }
        owners
    }
}

impl Library {
    /// The root section when one exists: the section without directory
    /// components. When no content-root index file was parsed, an empty
    /// root section is synthesized so every page finds a parent.
    pub fn ensure_root_section(&mut self, config: &crate::config::Config) -> (r: Result<
        Key,
        crate::errors::Error,
    >)
        requires
            old(self).wf(),
        ensures
            final(self).wf(),
            final(self).pages == old(self).pages,
            final(self).page_keys@ == old(self).page_keys@,
            match r {
                Ok(k) => final(self).sections.valid(k) && final(self).sections.at(
                    k,
                ).file.components@.len() == 0 && key_among(k, final(self).section_keys@),
                Err(e) => e is Schema && (crate::kv::toml_of(Seq::<char>::empty()) is None || (
                crate::kv::toml_of(Seq::<char>::empty()) matches Some(t)
                    && !crate::front_matter::section_fm_ok(t))),
            },
    {
        let mut i: usize = 0;
        while i < self.section_keys.len()
            invariant
                self.wf(),
                0 <= i <= self.section_keys@.len(),
            decreases self.section_keys@.len() - i,
        {
            let k = self.section_keys[i];
            if self.sections.get(k).file.components.len() == 0 {
                proof {
                    assert(self.section_keys@[i as int] == k);
                }
                return Ok(k);
            }
            i = i + 1;
        }
        proof {
            reveal_strlit("content/_index.md");
            reveal_strlit("+++\n+++\n");
        }
        let synthesized = match crate::section::Section::parse(
            "content/_index.md",
            "+++\n+++\n",
            config,
        ) {
            Ok(s) => s,
            Err(e) => {
                proof {
                    lemma_root_split();
                }
                return Err(e);
            },
        };
        proof {
            lemma_root_components();
        }
        let k = self.insert_section(synthesized);
        proof {
            assert(self.section_keys@[self.section_keys@.len() - 1] == k);
        }
        Ok(k)
    }
}

/// The synthesized root file's text splits into an empty front-matter
/// block and an empty body.
proof fn lemma_root_split()
    ensures
        crate::front_matter::spec_split_content("+++\n+++\n"@) == Some(
            (Seq::<char>::empty(), Seq::<char>::empty()),
        ),
{
    reveal_strlit("+++\n+++\n");
    reveal_strlit("+++");
    reveal_strlit("\r\n");
    let s = "+++\n+++\n"@;
    assert(s.len() == 8);
    crate::strtools::lemma_leading_ws(s);
    if crate::strtools::leading_ws(s) > 0 {
        assert(crate::strtools::is_ws(s[0]));
        assert(false);
    }
    let t = s.skip(0);
    assert(t =~= s);
    assert(t.take(3) =~= "+++"@);
    let after = t.skip(3);
    assert(after.len() == 5);
    assert(after[0] == '\n');
    if crate::strtools::starts_with(after, "\r\n"@) {
        assert(after.take(2)[0] == '\r');
        assert(false);
    }
    let rest = after.skip(1);
    assert(rest.len() == 4);
    assert(rest.take(3) =~= "+++"@);
    assert(crate::strtools::matches_at(rest, "+++"@, 0));
    crate::strtools::lemma_find_sub_unique(rest, "+++"@, 0);
    let after2 = rest.skip(3);
    assert(after2.len() == 1);
    assert(after2[0] == '\n');
    if crate::strtools::starts_with(after2, "\r\n"@) {
        assert(false);
    }
    assert(rest.take(0) =~= Seq::<char>::empty());
    assert(after2.skip(1) =~= Seq::<char>::empty());
}

/// The synthesized root file sits directly under the content root: it has
/// no directory components.
proof fn lemma_root_components()
    ensures
        crate::file_info::content_components("content/_index.md"@).len() == 0,
{
    reveal_strlit("content/_index.md");
    let s = "content/_index.md"@;
    assert(s.len() == 17);
    crate::strtools::lemma_find_char(s, '/');
    assert(s[7] == '/');
    assert(crate::strtools::find_char(s, '/') == Some(7int)) by {
        crate::strtools::lemma_find_char(s, '/');
        match crate::strtools::find_char(s, '/') {
            Some(i) => {
                if i < 7 {
                    assert(s[i] == '/');
                    assert(false);
                } else if i > 7 {
                    assert(s[7] != '/');
                    assert(false);
                }
            },
            None => {
                assert(s[7] != '/');
                assert(false);
            },
        }
    }
    reveal_strlit("content");
    reveal_strlit("_index.md");
    let tail = s.skip(8);
    crate::strtools::lemma_find_char(tail, '/');
    if crate::strtools::find_char(tail, '/') is Some {
        let i = crate::strtools::find_char(tail, '/')->Some_0;
        assert(tail[i] == '/');
        assert(false);
    }
    assert(crate::strtools::find_char(tail, '/') is None);
    assert(crate::strtools::split_chars(tail, '/') =~~= seq![tail]);
    assert(crate::strtools::split_chars(s, '/') =~~= seq![s.take(7)] + crate::strtools::split_chars(
        tail,
        '/',
    ));
    assert(s.take(7) =~= "content"@);
    assert(tail =~= "_index.md"@);
    let parts = crate::file_info::path_parts(s);
    assert(parts =~~= seq!["content"@, "_index.md"@]);
    assert(parts.take(parts.len() - 1) =~~= seq!["content"@]);
    assert(crate::file_info::after_content_marker(seq!["content"@]) =~~= Seq::<Seq<char>>::empty());
}

/// The would-be parent components of a section: its own components with
/// the last one removed.
pub open spec fn parent_comps_of(lib: Library, kc: Key) -> Seq<Seq<char>> {
    let c = lib.sections.at(kc).file.components.deep_view();
    c.take(c.len() - 1)
}

impl Library {
    /// Attaches every section with directory components to the section
    /// owning the longest prefix of its components minus the last. Pages
    /// and the permalink table are untouched; sections change only in
    /// their subsections lists, and no section lands under two parents.
    #[verifier::rlimit(100)]
    pub fn attach_subsections(&mut self) -> (owners: Ghost<Seq<Option<Key>>>)
        requires
            old(self).wf(),
            forall|j: int|
                0 <= j < old(self).section_keys@.len() ==> (#[trigger] old(self).sections.at(
                    old(self).section_keys@[j],
                )).subsections@.len() == 0,
        ensures
            final(self).wf(),
            final(self).page_keys@ == old(self).page_keys@,
            final(self).section_keys@ == old(self).section_keys@,
            final(self).pages == old(self).pages,
            final(self).permalinks == old(self).permalinks,
            owners@.len() == old(self).section_keys@.len(),
            // every section keeps everything but its subsection list
            forall|j: int|
                0 <= j < final(self).section_keys@.len() ==> {
                    let ks = #[trigger] final(self).section_keys@[j];
                    final(self).sections.at(ks) == (Section {
                        subsections: final(self).sections.at(ks).subsections,
                        ..old(self).sections.at(ks)
                    })
                },
            // each section hangs under the longest prefix of its parent
            // components, if any section is such a prefix
            forall|j: int|
                0 <= j < final(self).section_keys@.len() ==> {
                    let kc = final(self).section_keys@[j];
                    match #[trigger] owners@[j] {
                        Some(ks) => {
                            &&& final(self).sections.at(kc).file.components.deep_view().len() > 0
                            &&& final(self).sections.valid(ks)
                            &&& key_among(ks, final(self).section_keys@)
                            &&& ks.idx != kc.idx
                            &&& comps_prefix(
                                final(self).sections.at(ks).file.components.deep_view(),
                                parent_comps_of(*final(self), kc),
                            )
                            &&& final(self).sections.at(ks).subsections@.contains(kc)
                            &&& forall|j2: int|
                                0 <= j2 < final(self).section_keys@.len() && comps_prefix(
                                    final(self).sections.at(
                                        #[trigger] final(self).section_keys@[j2],
                                    ).file.components.deep_view(),
                                    parent_comps_of(*final(self), kc),
                                ) ==> final(self).sections.at(
                                    final(self).section_keys@[j2],
                                ).file.components.deep_view().len() <= final(self).sections.at(
                                    ks,
                                ).file.components.deep_view().len()
                        },
                        None => final(self).sections.at(kc).file.components.deep_view().len() == 0
                            || (forall|j2: int|
                            0 <= j2 < final(self).section_keys@.len() ==> !comps_prefix(
                                final(self).sections.at(
                                    #[trigger] final(self).section_keys@[j2],
                                ).file.components.deep_view(),
                                parent_comps_of(*final(self), kc),
                            )),
                    }
                },
            // no section under two parents
            forall|j: int, x: Key|
                0 <= j < final(self).section_keys@.len() && (#[trigger] final(self).sections.at(
                    final(self).section_keys@[j],
                ).subsections@.contains(x)) ==> exists|m: int|
                    0 <= m < final(self).section_keys@.len() && x == final(self).section_keys@[m]
                        && owners@[m] == Some(final(self).section_keys@[j]),
            // subsection lists hold live handles
            forall|j: int|
                0 <= j < final(self).section_keys@.len() ==> {
                    let ss = (#[trigger] final(self).sections.at(
                        final(self).section_keys@[j],
                    )).subsections@;
                    forall|m: int| 0 <= m < ss.len() ==> final(self).sections.valid(
                        #[trigger] ss[m],
                    )
                },
    {
        let ghost pre = *self;
        let mut owners: Ghost<Seq<Option<Key>>> = Ghost(Seq::empty());
        let mut i: usize = 0;
        while i < self.section_keys.len()
            invariant
                pre == *old(self),
                pre.wf(),
                self.wf(),
                forall|j: int|
                    0 <= j < pre.section_keys@.len() ==> (#[trigger] pre.sections.at(
                        pre.section_keys@[j],
                    )).subsections@.len() == 0,
                self.page_keys@ == pre.page_keys@,
                self.section_keys@ == pre.section_keys@,
                self.pages == pre.pages,
                self.permalinks == pre.permalinks,
                self.sections.spec_len() == pre.sections.spec_len(),
                forall|k2: Key| pre.sections.valid(k2) ==> #[trigger] self.sections.valid(k2),
                forall|k2: Key| #[trigger] self.sections.valid(k2) ==> pre.sections.valid(k2),
                0 <= i <= self.section_keys@.len(),
                owners@.len() == i,
                forall|j: int|
                    0 <= j < self.section_keys@.len() ==> {
                        let ks = #[trigger] self.section_keys@[j];
                        self.sections.at(ks) == (Section {
                            subsections: self.sections.at(ks).subsections,
                            ..pre.sections.at(ks)
                        })
                    },
                forall|j: int|
                    0 <= j < i ==> {
                        let kc = self.section_keys@[j];
                        match #[trigger] owners@[j] {
                            Some(ks) => {
                                &&& self.sections.at(kc).file.components.deep_view().len() > 0
                                &&& self.sections.valid(ks)
                                &&& key_among(ks, self.section_keys@)
                                &&& ks.idx != kc.idx
                                &&& comps_prefix(
                                    self.sections.at(ks).file.components.deep_view(),
                                    parent_comps_of(*self, kc),
                                )
                                &&& self.sections.at(ks).subsections@.contains(kc)
                                &&& forall|j2: int|
                                    0 <= j2 < self.section_keys@.len() && comps_prefix(
                                        self.sections.at(
                                            #[trigger] self.section_keys@[j2],
                                        ).file.components.deep_view(),
                                        parent_comps_of(*self, kc),
                                    ) ==> self.sections.at(
                                        self.section_keys@[j2],
                                    ).file.components.deep_view().len() <= self.sections.at(
                                        ks,
                                    ).file.components.deep_view().len()
                            },
                            None => self.sections.at(kc).file.components.deep_view().len() == 0
                                || (forall|j2: int|
                                0 <= j2 < self.section_keys@.len() ==> !comps_prefix(
                                    self.sections.at(
                                        #[trigger] self.section_keys@[j2],
                                    ).file.components.deep_view(),
                                    parent_comps_of(*self, kc),
                                )),
                        }
                    },
                forall|j: int, x: Key|
                    0 <= j < self.section_keys@.len() && (#[trigger] self.sections.at(
                        self.section_keys@[j],
                    ).subsections@.contains(x)) ==> exists|m: int|
                        0 <= m < i && x == self.section_keys@[m] && owners@[m] == Some(
                            self.section_keys@[j],
                        ),
                forall|j: int|
                    0 <= j < self.section_keys@.len() ==> {
                        let ss = (#[trigger] self.sections.at(
                            self.section_keys@[j],
                        )).subsections@;
                        forall|m: int| 0 <= m < ss.len() ==> self.sections.valid(
                            #[trigger] ss[m],
                        )
                    },
            decreases self.section_keys@.len() - i,
        {
            let kc = self.section_keys[i];
            let comps = copy_strings(&self.sections.get(kc).file.components);
            let ghost owners_before = owners@;
            if comps.len() == 0 {
                proof {
                    owners@ = owners_before.push(None);
                    assert forall|j: int, x: Key|
                        0 <= j < self.section_keys@.len() && (#[trigger] self.sections.at(
                            self.section_keys@[j],
                        ).subsections@.contains(x)) implies exists|m2: int|
                        0 <= m2 < i + 1 && x == self.section_keys@[m2] && owners@[m2] == Some(
                            self.section_keys@[j],
                        ) by {
                        let m2 = choose|m2: int|
                            0 <= m2 < i && x == self.section_keys@[m2] && owners_before[m2]
                                == Some(self.section_keys@[j]);
                        assert(owners@[m2] == Some(self.section_keys@[j]));
                    }
                }
            } else {
                let last: usize = comps.len() - 1;
                let mut parent_comps: Vec<String> = Vec::new();
                let mut m: usize = 0;
                while m < last
                    invariant
                        comps@.len() >= 1,
                        last == comps@.len() - 1,
                        0 <= m <= last,
                        parent_comps@.len() == m,
                        parent_comps.deep_view() =~~= comps.deep_view().take(m as int),
                    decreases last - m,
                {
                    let part = crate::kv::clone_string(&comps[m]);
                    let ghost old_dv = parent_comps.deep_view();
                    parent_comps.push(part);
                    proof {
                        assert(parent_comps.deep_view() =~~= old_dv.push(comps@[m as int]@));
                        assert(parent_comps.deep_view() =~~= comps.deep_view().take(m + 1));
                    }
                    m = m + 1;
                }
                proof {
                    assert(parent_comps.deep_view() =~~= parent_comps_of(*self, kc));
                }
                let parent = self.find_parent_section(&parent_comps);
                let ghost before_sections = self.sections;
                match parent {
                    Some(kp) => {
                        proof {
                            // a section is never its own parent: its
                            // components are longer than any prefix of
                            // their own front
                            if kp.idx == kc.idx {
                                lemma_same_idx_same_key(self.section_keys@, kp, kc);
                                assert(comps_prefix(
                                    self.sections.at(kc).file.components.deep_view(),
                                    parent_comps_of(*self, kc),
                                ));
                                assert(false);
                            }
                        }
                        let sm = self.sections.borrow_mut(kp);
                        let ghost old_list = sm.subsections@;
                        sm.subsections.push(kc);
                        proof {
                            owners@ = owners_before.push(Some(kp));
                            assert forall|j2: int|
                                0 <= j2 < self.section_keys@.len() implies (
                            #[trigger] self.sections.at(self.section_keys@[j2])).file
                                == before_sections.at(self.section_keys@[j2]).file by {
                                let ks2 = self.section_keys@[j2];
                                if ks2.idx == kp.idx {
                                    lemma_same_idx_same_key(self.section_keys@, kp, ks2);
                                } else {
                                    assert(self.sections.at(ks2) == before_sections.at(ks2));
                                }
                            }
                            assert(self.sections.at(kp).subsections@ =~= old_list.push(kc));
                            assert(self.sections.at(kp) == (Section {
                                subsections: self.sections.at(kp).subsections,
                                ..before_sections.at(kp)
                            }));
                            assert forall|j: int|
                                0 <= j < self.section_keys@.len() implies {
                                let ks = #[trigger] self.section_keys@[j];
                                self.sections.at(ks) == (Section {
                                    subsections: self.sections.at(ks).subsections,
                                    ..pre.sections.at(ks)
                                })
                            } by {
                                let ks2 = self.section_keys@[j];
                                if ks2.idx != kp.idx {
                                    assert(self.sections.at(ks2) == before_sections.at(ks2));
                                } else {
                                    lemma_same_idx_same_key(self.section_keys@, kp, ks2);
                                }
                            }
                            assert forall|j: int, x: Key|
                                0 <= j < self.section_keys@.len() && (
                            #[trigger] self.sections.at(
                                self.section_keys@[j],
                            ).subsections@.contains(x)) implies exists|m2: int|
                                0 <= m2 < i + 1 && x == self.section_keys@[m2] && owners@[m2]
                                    == Some(self.section_keys@[j]) by {
                                let ks2 = self.section_keys@[j];
                                if ks2.idx != kp.idx {
                                    assert(self.sections.at(ks2) == before_sections.at(ks2));
                                    let m2 = choose|m2: int|
                                        0 <= m2 < i && x == self.section_keys@[m2]
                                            && owners_before[m2] == Some(ks2);
                                    assert(owners@[m2] == Some(ks2));
                                } else {
                                    lemma_same_idx_same_key(self.section_keys@, kp, ks2);
                                    if x == kc {
                                        assert(self.section_keys@[i as int] == kc);
                                        assert(owners@[i as int] == Some(kp));
                                    } else {
                                        let m0 = choose|m0: int|
                                            0 <= m0 < self.sections.at(kp).subsections@.len() && (
                                            #[trigger] self.sections.at(
                                                kp,
                                            ).subsections@[m0]) == x;
                                        assert(old_list[m0] == x);
                                        assert(before_sections.at(kp).subsections@.contains(x));
                                        let m2 = choose|m2: int|
                                            0 <= m2 < i && x == self.section_keys@[m2]
                                                && owners_before[m2] == Some(kp);
                                        assert(owners@[m2] == Some(kp));
                                    }
                                }
                            }
                            assert forall|j: int|
                                0 <= j < i + 1 implies match #[trigger] owners@[j] {
                                Some(ks) => {
                                    let kc2 = self.section_keys@[j];
                                    &&& self.sections.at(
                                        kc2,
                                    ).file.components.deep_view().len() > 0
                                    &&& self.sections.valid(ks)
                                    &&& key_among(ks, self.section_keys@)
                                    &&& ks.idx != kc2.idx
                                    &&& comps_prefix(
                                        self.sections.at(ks).file.components.deep_view(),
                                        parent_comps_of(*self, kc2),
                                    )
                                    &&& self.sections.at(ks).subsections@.contains(kc2)
                                    &&& forall|j2: int|
                                        0 <= j2 < self.section_keys@.len() && comps_prefix(
                                            self.sections.at(
                                                #[trigger] self.section_keys@[j2],
                                            ).file.components.deep_view(),
                                            parent_comps_of(*self, kc2),
                                        ) ==> self.sections.at(
                                            self.section_keys@[j2],
                                        ).file.components.deep_view().len() <= self.sections.at(
                                            ks,
                                        ).file.components.deep_view().len()
                                },
                                None => self.sections.at(
                                    self.section_keys@[j],
                                ).file.components.deep_view().len() == 0 || (forall|j2: int|
                                    0 <= j2 < self.section_keys@.len() ==> !comps_prefix(
                                        self.sections.at(
                                            #[trigger] self.section_keys@[j2],
                                        ).file.components.deep_view(),
                                        parent_comps_of(*self, self.section_keys@[j]),
                                    )),
                            } by {
                                let kc2 = self.section_keys@[j];
                                if j < i {
                                    assert(owners@[j] == owners_before[j]);
                                    match owners_before[j] {
                                        Some(ko) => {
                                            if ko.idx == kp.idx {
                                                lemma_same_idx_same_key(
                                                    self.section_keys@,
                                                    kp,
                                                    ko,
                                                );
                                                assert(old_list.contains(kc2));
                                                let m0 = choose|m0: int|
                                                    0 <= m0 < old_list.len() && old_list[m0]
                                                        == kc2;
                                                assert(self.sections.at(kp).subsections@[m0]
                                                    == kc2);
                                            } else {
                                                assert(self.sections.at(ko)
                                                    == before_sections.at(ko));
                                            }
                                        },
                                        None => {},
                                    }
                                } else {
                                    assert(owners@[i as int] == Some(kp));
                                    assert(self.sections.at(
                                        kp,
                                    ).subsections@[old_list.len() as int] == kc);
                                }
                            }
                        }
                    },
                    None => {
                        proof {
                            owners@ = owners_before.push(None);
                            assert forall|j: int, x: Key|
                                0 <= j < self.section_keys@.len() && (
                            #[trigger] self.sections.at(
                                self.section_keys@[j],
                            ).subsections@.contains(x)) implies exists|m2: int|
                                0 <= m2 < i + 1 && x == self.section_keys@[m2] && owners@[m2]
                                    == Some(self.section_keys@[j]) by {
                                let m2 = choose|m2: int|
                                    0 <= m2 < i && x == self.section_keys@[m2]
                                        && owners_before[m2] == Some(self.section_keys@[j]);
                                assert(owners@[m2] == Some(self.section_keys@[j]));
                            }
                        }
                    },
                }
            }
            i = i + 1;
        }
        owners
    }
}

/// A copy of a component list./// A copy of a component list.
pub(crate) fn copy_strings(v: &Vec<String>) -> (r: Vec<String>)
    ensures
        r.deep_view() == v.deep_view(),
        r@.len() == v@.len(),
{
    let mut r: Vec<String> = Vec::new();
    let mut i: usize = 0;
    while i < v.len()
        invariant
            0 <= i <= v@.len(),
            r@.len() == i,
            r.deep_view() =~~= v.deep_view().take(i as int),
        decreases v@.len() - i,
    {
        let sc = crate::kv::clone_string(&v[i]);
        let ghost old_dv = r.deep_view();
        r.push(sc);
        proof {
            assert(r.deep_view() =~~= old_dv.push(v@[i as int]@));
            assert(r.deep_view() =~~= v.deep_view().take(i + 1));
        }
        i = i + 1;
    }
    proof {
        assert(r.deep_view() =~~= v.deep_view());
    }
    r
}

impl Library {
    /// Replaces one page after a content change: the old entry leaves the
    /// arena under a fresh generation, the registry points at the new
    /// handle, and the new page takes the old one's slot. The caller
    /// relinks the orderings afterwards; old handles to this page are dead.
    pub fn replace_page(&mut self, k: Key, page: Page) -> (k2: Key)
        requires
            old(self).wf(),
            old(self).pages.valid(k),
            k.gen < u64::MAX,
            key_among(k, old(self).page_keys@),
        ensures
            final(self).wf(),
            final(self).pages.valid(k2),
            !final(self).pages.valid(k),
            final(self).pages.at(k2) == page,
            k2.idx == k.idx,
            final(self).section_keys@ == old(self).section_keys@,
            final(self).sections == old(self).sections,
            final(self).permalinks == old(self).permalinks,
            final(self).page_keys@.len() == old(self).page_keys@.len(),
            key_among(k2, final(self).page_keys@),
            forall|k3: Key|
                k3.idx != k.idx ==> #[trigger] final(self).pages.valid(k3) == old(
                    self,
                ).pages.valid(k3),
            forall|k3: Key|
                k3.idx != k.idx && old(self).pages.valid(k3) ==> #[trigger] final(self).pages.at(k3)
                    == old(self).pages.at(k3),
            forall|i: int|
                0 <= i < final(self).page_keys@.len() && old(self).page_keys@[i] != k
                    ==> #[trigger] final(self).page_keys@[i] == old(self).page_keys@[i],
    {
        let k2 = self.pages.replace(k, page);
        let ghost before_keys = self.page_keys@;
        let ghost pages_after = self.pages;
        let mut i: usize = 0;
        while i < self.page_keys.len()
            invariant
                before_keys == old(self).page_keys@,
                pages_after == self.pages,
                self.sections == old(self).sections,
                self.permalinks == old(self).permalinks,
                self.section_keys@ == old(self).section_keys@,
                k2.idx == k.idx && k2.gen == k.gen + 1,
                self.pages.valid(k2),
                !self.pages.valid(k),
                self.pages.at(k2) == page,
                forall|k3: Key|
                    k3.idx != k.idx ==> #[trigger] self.pages.valid(k3) == old(self).pages.valid(
                        k3,
                    ),
                forall|k3: Key|
                    k3.idx != k.idx && old(self).pages.valid(k3) ==> #[trigger] self.pages.at(k3)
                        == old(self).pages.at(k3),
                self.page_keys@.len() == before_keys.len(),
                0 <= i <= self.page_keys@.len(),
                forall|j: int|
                    0 <= j < self.page_keys@.len() && before_keys[j] != k
                        ==> #[trigger] self.page_keys@[j] == before_keys[j],
                forall|j: int|
                    0 <= j < self.page_keys@.len() ==> (#[trigger] self.page_keys@[j] == before_keys[j]
                        || (before_keys[j] == k && self.page_keys@[j] == k2)),
                forall|j: int| i <= j < self.page_keys@.len() ==> #[trigger] self.page_keys@[j] == before_keys[j],
                forall|j: int|
                    0 <= j < i && before_keys[j] == k ==> #[trigger] self.page_keys@[j] == k2,
                k2.idx == k.idx,
            decreases self.page_keys@.len() - i,
        {
            let cur = self.page_keys[i];
            if cur.idx == k.idx && cur.gen == k.gen {
                self.page_keys.set(i, k2);
            }
            i = i + 1;
        }
        proof {
            assert(before_keys == old(self).page_keys@);
            assert forall|j: int|
                0 <= j < self.page_keys@.len() implies self.pages.valid(
                #[trigger] self.page_keys@[j],
            ) by {
                if self.page_keys@[j] == before_keys[j] {
                    if before_keys[j].idx == k.idx {
                        let m = choose|m: int|
                            0 <= m < before_keys.len() && (#[trigger] before_keys[m]) == k;
                        if m != j {
                            assert(before_keys[m].idx != before_keys[j].idx);
                            assert(false);
                        }
                        assert(before_keys[j] == k);
                        assert(self.page_keys@[j] == k2);
                    }
                }
            }
            assert forall|j1: int, j2: int|
                0 <= j1 < j2 < self.page_keys@.len() implies (#[trigger] self.page_keys@[j1]).idx
                != (#[trigger] self.page_keys@[j2]).idx by {
                assert(self.page_keys@[j1].idx == before_keys[j1].idx);
                assert(self.page_keys@[j2].idx == before_keys[j2].idx);
            }
            let m = choose|m: int| 0 <= m < before_keys.len() && (#[trigger] before_keys[m]) == k;
            assert(self.page_keys@[m] == k2);
        }
        k2
    }
}

/// Some entity's render fails with this broken link: what `render_all`'s
/// failure pins down.
pub open spec fn some_render_fails(
    lib: Library,
    anchor: crate::front_matter::InsertAnchor,
    link: Seq<char>,
) -> bool {
    (exists|i: int|
        0 <= i < lib.page_keys@.len() && crate::rendering::spec_rendered(
            lib.pages.at(#[trigger] lib.page_keys@[i]).raw_content@,
            lib.permalinks.deep_view(),
            lib.pages.at(lib.page_keys@[i]).permalink@,
            anchor,
        ) == Err::<(Seq<char>, Option<Seq<char>>, Seq<crate::rendering::HeaderSpec>), Seq<char>>(
            link,
        )) || (exists|i: int|
        0 <= i < lib.section_keys@.len() && crate::rendering::spec_rendered(
            lib.sections.at(#[trigger] lib.section_keys@[i]).raw_content@,
            lib.permalinks.deep_view(),
            lib.sections.at(lib.section_keys@[i]).permalink@,
            lib.sections.at(lib.section_keys@[i]).meta.insert_anchor_links,
        ) == Err::<(Seq<char>, Option<Seq<char>>, Seq<crate::rendering::HeaderSpec>), Seq<char>>(
            link,
        ))
}

/// A key list with one handle exchanged for another.
pub open spec fn keys_with_swap(ks: Seq<Key>, old_key: Key, new_key: Key) -> Seq<Key> {
    ks.map_values(
        |k: Key|
            if k == old_key {
                new_key
            } else {
                k
            },
    )
}

impl Library {
    /// Points every section child list at a page's fresh handle after a
    /// replacement: each occurrence of the old handle becomes the new one,
    /// and nothing else changes anywhere.
    #[verifier::rlimit(100)]
    pub fn replace_child_key(&mut self, old_key: Key, new_key: Key)
        requires
            old(self).wf(),
        ensures
            final(self).wf(),
            final(self).page_keys@ == old(self).page_keys@,
            final(self).section_keys@ == old(self).section_keys@,
            final(self).pages == old(self).pages,
            final(self).permalinks == old(self).permalinks,
            forall|j: int|
                0 <= j < final(self).section_keys@.len() ==> {
                    let ks = #[trigger] final(self).section_keys@[j];
                    &&& final(self).sections.at(ks) == (Section {
                        pages: final(self).sections.at(ks).pages,
                        ignored_pages: final(self).sections.at(ks).ignored_pages,
                        ..old(self).sections.at(ks)
                    })
                    &&& final(self).sections.at(ks).pages@ == keys_with_swap(
                        old(self).sections.at(ks).pages@,
                        old_key,
                        new_key,
                    )
                    &&& final(self).sections.at(ks).ignored_pages@ == keys_with_swap(
                        old(self).sections.at(ks).ignored_pages@,
                        old_key,
                        new_key,
                    )
                },
    {
        let ghost pre = *self;
        let mut i: usize = 0;
        while i < self.section_keys.len()
            invariant
                pre == *old(self),
                pre.wf(),
                self.wf(),
                self.page_keys@ == pre.page_keys@,
                self.section_keys@ == pre.section_keys@,
                self.pages == pre.pages,
                self.permalinks == pre.permalinks,
                self.sections.spec_len() == pre.sections.spec_len(),
                forall|k2: Key| pre.sections.valid(k2) ==> #[trigger] self.sections.valid(k2),
                forall|k2: Key| #[trigger] self.sections.valid(k2) ==> pre.sections.valid(k2),
                0 <= i <= self.section_keys@.len(),
                forall|j: int|
                    0 <= j < self.section_keys@.len() ==> {
                        let ks = #[trigger] self.section_keys@[j];
                        self.sections.at(ks) == (Section {
                            pages: self.sections.at(ks).pages,
                            ignored_pages: self.sections.at(ks).ignored_pages,
                            ..pre.sections.at(ks)
                        })
                    },
                forall|j: int|
                    0 <= j < i ==> {
                        let ks = #[trigger] self.section_keys@[j];
                        self.sections.at(ks).pages@ == keys_with_swap(
                            pre.sections.at(ks).pages@,
                            old_key,
                            new_key,
                        ) && self.sections.at(ks).ignored_pages@ == keys_with_swap(
                            pre.sections.at(ks).ignored_pages@,
                            old_key,
                            new_key,
                        )
                    },

                forall|j: int|
                    i <= j < self.section_keys@.len() ==> {
                        let ks = #[trigger] self.section_keys@[j];
                        self.sections.at(ks).pages@ == pre.sections.at(ks).pages@
                            && self.sections.at(ks).ignored_pages@ == pre.sections.at(
                            ks,
                        ).ignored_pages@
                    },

            decreases self.section_keys@.len() - i,
        {
            let ks = self.section_keys[i];
            let ghost before_sections = self.sections;
            let sm = self.sections.borrow_mut(ks);
            swap_keys_in_list(&mut sm.pages, old_key, new_key);
            swap_keys_in_list(&mut sm.ignored_pages, old_key, new_key);
            proof {
                assert forall|j: int|
                    0 <= j < self.section_keys@.len() implies {
                    let ks2 = #[trigger] self.section_keys@[j];
                    self.sections.at(ks2) == (Section {
                        pages: self.sections.at(ks2).pages,
                        ignored_pages: self.sections.at(ks2).ignored_pages,
                        ..pre.sections.at(ks2)
                    })
                } by {
                    let ks2 = self.section_keys@[j];
                    if ks2.idx != ks.idx {
                        assert(self.sections.at(ks2) == before_sections.at(ks2));
                    } else {
                        lemma_same_idx_same_key(self.section_keys@, ks, ks2);
                    }
                }
                assert forall|j: int|
                    0 <= j < i + 1 implies {
                    let ks2 = #[trigger] self.section_keys@[j];
                    self.sections.at(ks2).pages@ == keys_with_swap(
                        pre.sections.at(ks2).pages@,
                        old_key,
                        new_key,
                    ) && self.sections.at(ks2).ignored_pages@ == keys_with_swap(
                        pre.sections.at(ks2).ignored_pages@,
                        old_key,
                        new_key,
                    )
                } by {
                    let ks2 = self.section_keys@[j];
                    if j < i {
                        assert(ks2.idx != ks.idx);
                        assert(self.sections.at(ks2) == before_sections.at(ks2));
                    } else {
                        lemma_same_idx_same_key(self.section_keys@, ks, ks2);
                    }
                }
                assert forall|j: int|
                    i + 1 <= j < self.section_keys@.len() implies {
                    let ks2 = #[trigger] self.section_keys@[j];
                    self.sections.at(ks2).pages@ == pre.sections.at(ks2).pages@
                        && self.sections.at(ks2).ignored_pages@ == pre.sections.at(
                        ks2,
                    ).ignored_pages@
                } by {
                    let ks2 = self.section_keys@[j];
                    assert(ks2.idx != ks.idx);
                    assert(self.sections.at(ks2) == before_sections.at(ks2));
                }
            }
            i = i + 1;
        }
    }
}

/// Replaces every occurrence of one key in a list by another.
fn swap_keys_in_list(list: &mut Vec<Key>, old_key: Key, new_key: Key)
    ensures
        final(list)@ == keys_with_swap(old(list)@, old_key, new_key),
{
    let mut m: usize = 0;
    while m < list.len()
        invariant
            list@.len() == old(list)@.len(),
            0 <= m <= list@.len(),
            forall|j: int|
                0 <= j < m ==> list@[j] == keys_with_swap(old(list)@, old_key, new_key)[j],
            forall|j: int| m <= j < list@.len() ==> list@[j] == old(list)@[j],
        decreases list@.len() - m,
    {
        let cur = list[m];
        if cur.idx == old_key.idx && cur.gen == old_key.gen {
            list.set(m, new_key);
        }
        m = m + 1;
    }
    proof {
        assert(list@ =~= keys_with_swap(old(list)@, old_key, new_key));
    }
}

impl Library {
    /// Renders every page and then every section against the current
    /// permalink table: each entity's content, summary and heading tree
    /// become exactly the pipeline's outcome for its raw body, its own
    /// permalink and the given anchor mode (sections use their own); no
    /// other field changes. The first broken link aborts the pass.
    #[verifier::rlimit(100)]
    pub fn render_all(&mut self, anchor: crate::front_matter::InsertAnchor) -> (r: Result<
        (),
        crate::errors::Error,
    >)
        requires
            old(self).wf(),
        ensures
            final(self).wf(),
            final(self).page_keys@ == old(self).page_keys@,
            final(self).section_keys@ == old(self).section_keys@,
            final(self).permalinks == old(self).permalinks,
            match r {
                Ok(()) => {
                    &&& forall|i: int|
                        0 <= i < final(self).page_keys@.len() ==> {
                            let k = #[trigger] final(self).page_keys@[i];
                            let before = old(self).pages.at(k);
                            let after = final(self).pages.at(k);
                            &&& final(self).pages.valid(k)
                            &&& after == (Page {
                                content: after.content,
                                summary: after.summary,
                                toc: after.toc,
                                ..before
                            })
                            &&& crate::rendering::spec_rendered(
                                before.raw_content@,
                                old(self).permalinks.deep_view(),
                                before.permalink@,
                                anchor,
                            ) == Ok::<
                                (
                                    Seq<char>,
                                    Option<Seq<char>>,
                                    Seq<crate::rendering::HeaderSpec>,
                                ),
                                Seq<char>,
                            >(
                                (
                                    after.content@,
                                    crate::rendering::view_opt_summary(after.summary),
                                    crate::rendering::headers_view(after.toc@),
                                ),
                            )
                        }
                    &&& forall|i: int|
                        0 <= i < final(self).section_keys@.len() ==> {
                            let k = #[trigger] final(self).section_keys@[i];
                            let before = old(self).sections.at(k);
                            let after = final(self).sections.at(k);
                            &&& final(self).sections.valid(k)
                            &&& after == (Section {
                                content: after.content,
                                toc: after.toc,
                                ..before
                            })
                            &&& (crate::rendering::spec_rendered(
                                before.raw_content@,
                                old(self).permalinks.deep_view(),
                                before.permalink@,
                                before.meta.insert_anchor_links,
                            ) matches Ok(out) && after.content@ == out.0
                                && crate::rendering::headers_view(after.toc@) == out.2)
                        }
                },
                Err(e) => e is BrokenLink && some_render_fails(
                    *old(self),
                    anchor,
                    e->BrokenLink_link@,
                ),
            },
    {
        let ghost pre = *self;
        let mut i: usize = 0;
        while i < self.page_keys.len()
            invariant
                pre == *old(self),
                pre.wf(),
                self.page_keys@ == pre.page_keys@,
                self.section_keys@ == pre.section_keys@,
                self.sections == pre.sections,
                self.permalinks == pre.permalinks,
                self.pages.spec_len() == pre.pages.spec_len(),
                forall|k2: Key| pre.pages.valid(k2) ==> #[trigger] self.pages.valid(k2),
                forall|k2: Key| #[trigger] self.pages.valid(k2) ==> pre.pages.valid(k2),
                0 <= i <= self.page_keys@.len(),
                forall|k2: Key|
                    pre.pages.valid(k2) && !seq_contains_idx(
                        self.page_keys@.take(i as int),
                        k2.idx,
                    ) ==> #[trigger] self.pages.at(k2) == pre.pages.at(k2),
                forall|j: int|
                    0 <= j < i ==> {
                        let k = #[trigger] self.page_keys@[j];
                        let before = pre.pages.at(k);
                        let after = self.pages.at(k);
                        &&& after == (Page {
                            content: after.content,
                            summary: after.summary,
                            toc: after.toc,
                            ..before
                        })
                        &&& crate::rendering::spec_rendered(
                            before.raw_content@,
                            pre.permalinks.deep_view(),
                            before.permalink@,
                            anchor,
                        ) == Ok::<
                            (Seq<char>, Option<Seq<char>>, Seq<crate::rendering::HeaderSpec>),
                            Seq<char>,
                        >(
                            (
                                after.content@,
                                crate::rendering::view_opt_summary(after.summary),
                                crate::rendering::headers_view(after.toc@),
                            ),
                        )
                    },
            decreases self.page_keys@.len() - i,
        {
            let k = self.page_keys[i];
            proof {
                assert(pre.pages.valid(k));
                if seq_contains_idx(self.page_keys@.take(i as int), k.idx) {
                    let m = choose|m: int|
                        0 <= m < i && (#[trigger] self.page_keys@.take(i as int)[m]).idx == k.idx;
                    assert(self.page_keys@[m].idx != self.page_keys@[i as int].idx);
                    assert(false);
                }
                assert(self.pages.at(k) == pre.pages.at(k));
            }
            let table = &self.permalinks;
            let pm = self.pages.borrow_mut(k);
            match pm.render_markdown(table, anchor) {
                Ok(()) => {},
                Err(e) => {
                    proof {
                        assert forall|m: int|
                            0 <= m < self.page_keys@.len() implies self.pages.valid(
                            #[trigger] self.page_keys@[m],
                        ) by {
                            assert(pre.pages.valid(self.page_keys@[m]));
                        }
                        assert(self.wf());
                        assert(pre.page_keys@[i as int] == k);
                        assert(crate::rendering::spec_rendered(
                            pre.pages.at(pre.page_keys@[i as int]).raw_content@,
                            pre.permalinks.deep_view(),
                            pre.pages.at(pre.page_keys@[i as int]).permalink@,
                            anchor,
                        ) == Err::<
                            (Seq<char>, Option<Seq<char>>, Seq<crate::rendering::HeaderSpec>),
                            Seq<char>,
                        >(e->BrokenLink_link@));
                        assert(some_render_fails(pre, anchor, e->BrokenLink_link@));
                    }
                    return Err(e);
                },
            }
            proof {
                assert forall|k2: Key|
                    pre.pages.valid(k2) && !seq_contains_idx(
                        self.page_keys@.take(i + 1),
                        k2.idx,
                    ) implies #[trigger] self.pages.at(k2) == pre.pages.at(k2) by {
                    if seq_contains_idx(self.page_keys@.take(i as int), k2.idx) {
                        let m = choose|m: int|
                            0 <= m < i && (#[trigger] self.page_keys@.take(i as int)[m]).idx
                                == k2.idx;
                        assert(self.page_keys@.take(i + 1)[m].idx == k2.idx);
                        assert(false);
                    }
                    assert(k2.idx != k.idx) by {
                        if k2.idx == k.idx {
                            assert(self.page_keys@.take(i + 1)[i as int].idx == k2.idx);
                        }
                    }
                }
            }
            i = i + 1;
        }
        let ghost mid = *self;
        let mut j: usize = 0;
        while j < self.section_keys.len()
            invariant
                pre == *old(self),
                pre.wf(),
                mid.wf(),
                self.page_keys@ == pre.page_keys@,
                self.section_keys@ == pre.section_keys@,
                self.pages == mid.pages,
                self.permalinks == pre.permalinks,
                mid.permalinks == pre.permalinks,
                mid.page_keys@ == pre.page_keys@,
                mid.section_keys@ == pre.section_keys@,
                mid.sections == pre.sections,
                self.sections.spec_len() == pre.sections.spec_len(),
                forall|k2: Key| pre.sections.valid(k2) ==> #[trigger] self.sections.valid(k2),
                forall|k2: Key| #[trigger] self.sections.valid(k2) ==> pre.sections.valid(k2),
                0 <= j <= self.section_keys@.len(),
                forall|k2: Key|
                    pre.sections.valid(k2) && !seq_contains_idx(
                        self.section_keys@.take(j as int),
                        k2.idx,
                    ) ==> #[trigger] self.sections.at(k2) == pre.sections.at(k2),
                forall|m: int|
                    0 <= m < j ==> {
                        let k = #[trigger] self.section_keys@[m];
                        let before = pre.sections.at(k);
                        let after = self.sections.at(k);
                        &&& after == (Section {
                            content: after.content,
                            toc: after.toc,
                            ..before
                        })
                        &&& (crate::rendering::spec_rendered(
                            before.raw_content@,
                            pre.permalinks.deep_view(),
                            before.permalink@,
                            before.meta.insert_anchor_links,
                        ) matches Ok(out) && after.content@ == out.0
                            && crate::rendering::headers_view(after.toc@) == out.2)
                    },
            decreases self.section_keys@.len() - j,
        {
            let k = self.section_keys[j];
            proof {
                assert(pre.sections.valid(k));
                if seq_contains_idx(self.section_keys@.take(j as int), k.idx) {
                    let m = choose|m: int|
                        0 <= m < j && (#[trigger] self.section_keys@.take(j as int)[m]).idx
                            == k.idx;
                    assert(self.section_keys@[m].idx != self.section_keys@[j as int].idx);
                    assert(false);
                }
                assert(self.sections.at(k) == pre.sections.at(k));
            }
            let table = &self.permalinks;
            let sm = self.sections.borrow_mut(k);
            match sm.render_markdown(table) {
                Ok(()) => {},
                Err(e) => {
                    proof {
                        assert forall|m: int|
                            0 <= m < self.section_keys@.len() implies self.sections.valid(
                            #[trigger] self.section_keys@[m],
                        ) by {
                            assert(pre.sections.valid(self.section_keys@[m]));
                        }
                        assert forall|m: int|
                            0 <= m < self.page_keys@.len() implies self.pages.valid(
                            #[trigger] self.page_keys@[m],
                        ) by {
                            assert(mid.pages.valid(self.page_keys@[m]));
                        }
                        assert(self.wf());
                        assert(pre.section_keys@[j as int] == k);
                        assert(crate::rendering::spec_rendered(
                            pre.sections.at(pre.section_keys@[j as int]).raw_content@,
                            pre.permalinks.deep_view(),
                            pre.sections.at(pre.section_keys@[j as int]).permalink@,
                            pre.sections.at(pre.section_keys@[j as int]).meta.insert_anchor_links,
                        ) == Err::<
                            (Seq<char>, Option<Seq<char>>, Seq<crate::rendering::HeaderSpec>),
                            Seq<char>,
                        >(e->BrokenLink_link@));
                        assert(some_render_fails(pre, anchor, e->BrokenLink_link@));
                    }
                    return Err(e);
                },
            }
            proof {
                assert forall|k2: Key|
                    pre.sections.valid(k2) && !seq_contains_idx(
                        self.section_keys@.take(j + 1),
                        k2.idx,
                    ) implies #[trigger] self.sections.at(k2) == pre.sections.at(k2) by {
                    if seq_contains_idx(self.section_keys@.take(j as int), k2.idx) {
                        let m = choose|m: int|
                            0 <= m < j && (#[trigger] self.section_keys@.take(j as int)[m]).idx
                                == k2.idx;
                        assert(self.section_keys@.take(j + 1)[m].idx == k2.idx);
                        assert(false);
                    }
                    assert(k2.idx != k.idx) by {
                        if k2.idx == k.idx {
                            assert(self.section_keys@.take(j + 1)[j as int].idx == k2.idx);
                        }
                    }
                }
            }
            j = j + 1;
        }
        proof {
            assert(self.page_keys@.take(self.page_keys@.len() as int) =~= self.page_keys@);
            assert(self.section_keys@.take(self.section_keys@.len() as int)
                =~= self.section_keys@);
            assert forall|i2: int| 0 <= i2 < self.page_keys@.len() implies self.pages.at(
                #[trigger] self.page_keys@[i2],
            ) == mid.pages.at(self.page_keys@[i2]) by {}
        }
        Ok(())
    }
}

/// A copy of a key list.
fn copy_keys(ks: &Vec<Key>) -> (r: Vec<Key>)
    ensures
        r@ == ks@,
{
    let mut r: Vec<Key> = Vec::new();
    let mut i: usize = 0;
    while i < ks.len()
        invariant
            0 <= i <= ks@.len(),
            r@ =~= ks@.take(i as int),
        decreases ks@.len() - i,
    {
        r.push(ks[i]);
        proof {
            assert(r@ =~= ks@.take(i + 1));
        }
        i = i + 1;
    }
    proof {
        assert(r@ =~= ks@);
    }
    r
}

/// Membership in the weight chain matches having a weight.
proof fn lemma_weight_membership(
    pre: Library,
    entries: Seq<RankEntry>,
    sorted: Seq<RankEntry>,
    order: Seq<Key>,
    group: Seq<Key>,
    k: Key,
    i: int,
)
    requires
        sorted.to_multiset() == entries.to_multiset(),
        order == entries_keys(sorted),
        0 <= i < group.len(),
        k == group[i],
        pre.pages.at(k).meta.weight is Some <==> entries_keys(entries).contains(k),
    ensures
        pre.pages.at(k).meta.weight is Some <==> order.contains(k),
{
    sorted.to_multiset_ensures();
    entries.to_multiset_ensures();
    if entries_keys(entries).contains(k) {
        let m = choose|m: int|
            0 <= m < entries_keys(entries).len() && entries_keys(entries)[m] == k;
        assert(entries[m].key == k);
        assert(entries.contains(entries[m]));
        assert(entries.to_multiset().count(entries[m]) > 0);
        assert(sorted.contains(entries[m]));
        let m2 = choose|m2: int| 0 <= m2 < sorted.len() && sorted[m2] == entries[m];
        assert(order[m2] == k);
        assert(order.contains(k));
    }
    if order.contains(k) {
        let m = choose|m: int| 0 <= m < order.len() && order[m] == k;
        assert(sorted[m].key == k);
        assert(sorted.contains(sorted[m]));
        assert(sorted.to_multiset().count(sorted[m]) > 0);
        assert(entries.contains(sorted[m]));
        let m2 = choose|m2: int| 0 <= m2 < entries.len() && entries[m2] == sorted[m];
        assert(entries_keys(entries)[m2] == k);
        assert(entries_keys(entries).contains(k));
    }
}

/// The keys of the entries, in order.
pub open spec fn entries_keys(v: Seq<RankEntry>) -> Seq<Key> {
    v.map_values(|e: RankEntry| e.key)
}

/// Whether a key sequence holds a key with this slot index.
pub open spec fn seq_contains_idx(s: Seq<Key>, idx: usize) -> bool {
    exists|m: int| 0 <= m < s.len() && (#[trigger] s[m]).idx == idx
}

proof fn lemma_entries_keys_push(v: Seq<RankEntry>, e: RankEntry)
    ensures
        entries_keys(v.push(e)) =~= entries_keys(v).push(e.key),
{
}

/// An entry carries its page's instant and path.
pub open spec fn entry_matches_arena(arena: Arena<Page>, e: RankEntry) -> bool {
    &&& arena.valid(e.key)
    &&& arena.at(e.key).meta.datetime is Some
    &&& e.rank as int == crate::datetime::spec_epoch_seconds(
        arena.at(e.key).meta.datetime->Some_0,
    )
    &&& e.sub == arena.at(e.key).meta.datetime->Some_0.nanosecond
    &&& e.path@ == arena.at(e.key).path@
}

pub open spec fn entry_matches(lib: Library, e: RankEntry) -> bool {
    entry_matches_arena(lib.pages, e)
}

} // verus!
