use vstd::prelude::*;

use crate::ranking::{precedes, rank_desc};
use crate::record::{lemma_key_order, same_launch, Entry, EntryView};
use crate::text::{decimal, decimal_text, same_text};
use vstd::std_specs::cmp::PartialEqSpec;

verus! {

/// The number of records that are kept when the history is stored.
pub const MAX_HISTORY_ENTRIES: usize = 35;

/// The identifier of a record in the history, unique within one run.
#[derive(Debug, Clone, Copy, PartialEq, Eq, Structural, Hash, PartialOrd, Ord)]
pub struct EntryId(usize);

impl View for EntryId {
    type V = nat;

    closed spec fn view(&self) -> nat {
        self.0 as nat
    }
}

impl EntryId {
    /// The identifier with the number `value`.
    pub fn new(value: usize) -> (r: EntryId)
        ensures
            r@ == value,
    {
        EntryId(value)
    }
}

/// What a history holds: its records by identifier, and the number that the
/// next new record will be identified by.
pub struct HistoryView {
    pub entries: Map<EntryId, EntryView>,
    pub next_id: nat,
}

/// No two records of `m` stand for the same launch.
pub open spec fn unique_launches(m: Map<EntryId, EntryView>) -> bool {
    forall|k1: EntryId, k2: EntryId|
        m.contains_key(k1) && m.contains_key(k2) && #[trigger] same_launch(m[k1], m[k2]) ==> k1
            == k2
}

/// `m` holds a record that stands for the same launch as `e`.
pub open spec fn has_launch(m: Map<EntryId, EntryView>, e: EntryView) -> bool {
    exists|k: EntryId| m.contains_key(k) && #[trigger] same_launch(m[k], e)
}

/// `new` and `id` are what an insertion of `e` into `old` gives.
pub open spec fn inserted(old: HistoryView, e: EntryView, new: HistoryView, id: EntryId) -> bool {
    &&& id@ == old.next_id
    &&& !old.entries.contains_key(id)
    &&& new.entries == old.entries.insert(id, e)
    &&& new.next_id == old.next_id + 1
    &&& new.entries.dom().finite()
    &&& new.entries.len() == old.entries.len() + 1
}

/// `new` and `id` are what an upsert of `e` into `old` gives: a record of `old`
/// for the same launch is replaced in place, else `e` is inserted.
pub open spec fn upserted(old: HistoryView, e: EntryView, new: HistoryView, id: EntryId) -> bool {
    if has_launch(old.entries, e) {
        &&& old.entries.contains_key(id)
        &&& same_launch(old.entries[id], e)
        &&& new.entries == old.entries.insert(id, e)
        &&& new.next_id == old.next_id
        &&& new.entries.dom().finite()
        &&& new.entries.len() == old.entries.len()
    } else {
        inserted(old, e, new, id)
    }
}

/// The identifiers of a list of identified records.
pub open spec fn ids_of(s: Seq<(EntryId, Entry)>) -> Seq<EntryId> {
    s.map_values(|p: (EntryId, Entry)| p.0)
}

/// The records of a list with distinct identifiers, by identifier.
pub open spec fn entry_map(s: Seq<(EntryId, Entry)>) -> Map<EntryId, EntryView> {
    Map::new(|k: EntryId| ids_of(s).contains(k), |k: EntryId| s[ids_of(s).index_of(k)].1@)
}

/// The records of previously opened workspaces, by identifier.
pub struct History {
    items: Vec<(EntryId, Entry)>,
    next_id: usize,
}

impl View for History {
    type V = HistoryView;

    closed spec fn view(&self) -> HistoryView {
        HistoryView { entries: entry_map(self.items@), next_id: self.next_id as nat }
    }
}

proof fn lemma_entry_map_at(s: Seq<(EntryId, Entry)>, i: int)
    requires
        ids_of(s).no_duplicates(),
        0 <= i < s.len(),
    ensures
        entry_map(s).contains_key(s[i].0),
        entry_map(s)[s[i].0] == s[i].1@,
{
    assert(ids_of(s)[i] == s[i].0);
    let j = ids_of(s).index_of(s[i].0);
    assert(ids_of(s)[j] == s[i].0);
}

proof fn lemma_entry_map_has(s: Seq<(EntryId, Entry)>, k: EntryId)
    requires
        entry_map(s).contains_key(k),
    ensures
        exists|i: int| 0 <= i < s.len() && s[i].0 == k,
{
    let i = choose|i: int| 0 <= i < ids_of(s).len() && ids_of(s)[i] == k;
    assert(s[i].0 == k);
}

impl History {
    #[verifier::type_invariant]
    closed spec fn well_formed(self) -> bool {
        &&& ids_of(self.items@).no_duplicates()
        &&& forall|i: int| 0 <= i < self.items@.len() ==> (#[trigger] self.items@[i]).0@ < self.next_id
    }

    /// An empty history.
    pub fn new() -> (r: History)
        ensures
            r@.entries == Map::<EntryId, EntryView>::empty(),
            r@.next_id == 0,
    {
        let r = History { items: Vec::new(), next_id: 0 };
        assert(r@.entries =~= Map::<EntryId, EntryView>::empty());
        r
    }

    /// The number of records.
    pub fn len(&self) -> (r: usize)
        ensures
            self@.entries.dom().finite(),
            r == self@.entries.len(),
    {
        proof {
            use_type_invariant(self);
            self.lemma_dom();
        }
        self.items.len()
    }

    proof fn lemma_dom(&self)
        requires
            self.well_formed(),
        ensures
            self@.entries.dom() == ids_of(self.items@).to_set(),
            self@.entries.dom().finite(),
            self@.entries.len() == self.items@.len(),
    {
        assert(self@.entries.dom() =~= ids_of(self.items@).to_set());
        ids_of(self.items@).unique_seq_to_set();
    }

    /// Whether no identifier is left for a new record.
    pub fn ids_exhausted(&self) -> (r: bool)
        ensures
            r == (self@.next_id >= usize::MAX),
    {
        self.next_id == usize::MAX
    }

    /// The record with identifier `id`, if there is one.
    pub fn get(&self, id: EntryId) -> (r: Option<&Entry>)
        ensures
            r is Some <==> self@.entries.contains_key(id),
            r matches Some(e) ==> e@ == self@.entries[id],
    {
        proof {
            use_type_invariant(self);
        }
        match self.position_of(id) {
            Some(p) => Some(&self.items[p].1),
            None => None,
        }
    }

    /// The position of the record with identifier `id` in the list.
    fn position_of(&self, id: EntryId) -> (r: Option<usize>)
        requires
            self.well_formed(),
        ensures
            r is Some <==> self@.entries.contains_key(id),
            r matches Some(p) ==> p < self.items@.len() && self.items@[p as int].0 == id
                && self@.entries[id] == self.items@[p as int].1@,
    {
        let mut p: usize = 0;
        while p < self.items.len()
            invariant
                self.well_formed(),
                p <= self.items@.len(),
                forall|j: int| 0 <= j < p ==> (#[trigger] self.items@[j]).0 != id,
            decreases self.items@.len() - p,
        {
            if self.items[p].0 == id {
                proof {
                    lemma_entry_map_at(self.items@, p as int);
                }
                return Some(p);
            }
            p += 1;
        }
        proof {
            if self@.entries.contains_key(id) {
                lemma_entry_map_has(self.items@, id);
            }
        }
        None
    }

    /// A history holding `entries`, identified by their positions in the list.
    pub fn from_entries(entries: Vec<Entry>) -> (r: History)
        ensures
            r@.next_id == entries@.len(),
            forall|k: EntryId| #[trigger] r@.entries.contains_key(k) <==> k@ < entries@.len(),
            forall|k: EntryId|
                #[trigger] r@.entries.contains_key(k) ==> r@.entries[k] == entries@[k@ as int]@,
    {
        let ghost given = entries@;
        let mut entries = entries;
        let mut reversed: Vec<Entry> = Vec::new();
        while entries.len() > 0
            invariant
                entries@.len() + reversed@.len() == given.len(),
                forall|j: int| 0 <= j < entries@.len() ==> #[trigger] entries@[j] == given[j],
                forall|j: int|
                    0 <= j < reversed@.len() ==> #[trigger] reversed@[j] == given[given.len() - 1 - j],
            decreases entries@.len(),
        {
            let e = entries.pop().unwrap();
            reversed.push(e);
        }
        let n = reversed.len();
        let mut items: Vec<(EntryId, Entry)> = Vec::new();
        while reversed.len() > 0
            invariant
                n == given.len(),
                reversed@.len() + items@.len() == n,
                forall|j: int|
                    0 <= j < reversed@.len() ==> #[trigger] reversed@[j] == given[n - 1 - j],
                forall|j: int| 0 <= j < items@.len() ==> (#[trigger] items@[j]).0@ == j,
                forall|j: int| 0 <= j < items@.len() ==> (#[trigger] items@[j]).1 == given[j],
            decreases reversed@.len(),
        {
            let id = EntryId::new(items.len());
            let e = reversed.pop().unwrap();
            items.push((id, e));
        }
        let r = History { items, next_id: n };
        proof {
            assert(ids_of(r.items@).no_duplicates()) by {
                assert forall|a: int, b: int|
                    0 <= a < b < ids_of(r.items@).len() implies ids_of(r.items@)[a]
                    != ids_of(r.items@)[b] by {
                    assert(r.items@[a].0@ != r.items@[b].0@);
                }
            }
            assert forall|k: EntryId| #[trigger] r@.entries.contains_key(k) <==> k@ < n by {
                if k@ < n {
                    assert(r.items@[k@ as int].0@ == k@);
                    assert(r.items@[k@ as int].0 == k);
                    lemma_entry_map_at(r.items@, k@ as int);
                }
                if r@.entries.contains_key(k) {
                    lemma_entry_map_has(r.items@, k);
                }
            }
            assert forall|k: EntryId| #[trigger] r@.entries.contains_key(k) implies r@.entries[k]
                == given[k@ as int]@ by {
                lemma_entry_map_has(r.items@, k);
                let i = choose|i: int| 0 <= i < r.items@.len() && r.items@[i].0 == k;
                lemma_entry_map_at(r.items@, i);
            }
        }
        r
    }

    /// Moves the list of records out, leaving an empty list behind.
    fn take_items(&mut self) -> (r: Vec<(EntryId, Entry)>)
        ensures
            r@ == old(self).items@,
            final(self).next_id == old(self).next_id,
            ids_of(r@).no_duplicates(),
            forall|i: int| 0 <= i < r@.len() ==> (#[trigger] r@[i]).0@ < old(self).next_id,
    {
        proof {
            use_type_invariant(&*self);
        }
        let mut items: Vec<(EntryId, Entry)> = Vec::new();
        proof {
            assert(ids_of(items@) =~= Seq::<EntryId>::empty());
        }
        std::mem::swap(&mut self.items, &mut items);
        items
    }

    /// Adds `entry` as a new record, without looking for an equal one.
    pub fn insert(&mut self, entry: Entry) -> (r: EntryId)
        requires
            old(self)@.next_id < usize::MAX,
        ensures
            inserted(old(self)@, entry@, final(self)@, r),
    {
        proof {
            use_type_invariant(&*self);
            self.lemma_dom();
        }
        let ghost old_items = self.items@;
        let id = EntryId::new(self.next_id);
        let next_id = self.next_id + 1;
        assert(!ids_of(old_items).contains(id));
        proof {
            assert(ids_of(old_items.push((id, entry))) =~= ids_of(old_items).push(id));
        }
        let mut items = self.take_items();
        items.push((id, entry));
        let ghost s = items@;
        proof {
            assert(forall|i: int| 0 <= i < old_items.len() ==> (#[trigger] old_items[i]).0@ < next_id);
            assert(s[old_items.len() as int].0@ < next_id);
        }
        *self = History { items, next_id };
        proof {
            assert(s == old_items.push((id, entry)));
            assert(entry_map(s) =~= entry_map(old_items).insert(id, entry@)) by {
                assert forall|k: EntryId| #[trigger] entry_map(s).contains_key(k) implies entry_map(
                    old_items,
                ).insert(id, entry@).contains_key(k) && entry_map(s)[k] == entry_map(
                    old_items,
                ).insert(id, entry@)[k] by {
                    lemma_entry_map_has(s, k);
                    let i = choose|i: int| 0 <= i < s.len() && s[i].0 == k;
                    lemma_entry_map_at(s, i);
                    if i < old_items.len() {
                        lemma_entry_map_at(old_items, i);
                    }
                }
                assert forall|k: EntryId| #[trigger] entry_map(old_items).insert(
                    id,
                    entry@,
                ).contains_key(k) implies entry_map(s).contains_key(k) by {
                    if k == id {
                        lemma_entry_map_at(s, old_items.len() as int);
                    } else {
                        lemma_entry_map_has(old_items, k);
                        let i = choose|i: int| 0 <= i < old_items.len() && old_items[i].0 == k;
                        lemma_entry_map_at(s, i);
                    }
                }
            }
        }
        id
    }

    /// Replaces the record `id` by `entry`; gives back the replaced record, or
    /// nothing (and changes nothing) when there is no record `id`.
    pub fn update(&mut self, id: EntryId, entry: Entry) -> (r: Option<Entry>)
        ensures
            r is Some <==> old(self)@.entries.contains_key(id),
            r matches Some(e) ==> e@ == old(self)@.entries[id],
            old(self)@.entries.contains_key(id) ==> final(self)@.entries == old(self)@.entries.insert(
                id,
                entry@,
            ),
            !old(self)@.entries.contains_key(id) ==> final(self)@.entries == old(self)@.entries,
            final(self)@.next_id == old(self)@.next_id,
    {
        proof {
            use_type_invariant(&*self);
        }
        match self.position_of(id) {
            Some(p) => {
                let ghost old_items = self.items@;
                let next_id = self.next_id;
                let mut items = self.take_items();
                let mut e = entry;
                std::mem::swap(&mut items[p].1, &mut e);
                proof {
                    assert(ids_of(items@) =~= ids_of(old_items));
                    assert(forall|i: int| 0 <= i < items@.len() ==> (#[trigger] items@[i]).0 == old_items[i].0);
                }
                *self = History { items, next_id };
                proof {
                    let s = self.items@;
                    assert(s == old_items.update(p as int, (id, entry)));
                    assert(ids_of(s) =~= ids_of(old_items));
                    assert(entry_map(s) =~= entry_map(old_items).insert(id, entry@)) by {
                        assert forall|k: EntryId| #[trigger] entry_map(s).contains_key(k) implies entry_map(
                            old_items,
                        ).insert(id, entry@)[k] == entry_map(s)[k] by {
                            lemma_entry_map_has(s, k);
                            let i = choose|i: int| 0 <= i < s.len() && s[i].0 == k;
                            lemma_entry_map_at(s, i);
                            lemma_entry_map_at(old_items, i);
                            assert(ids_of(old_items)[i] == old_items[i].0);
                            assert(ids_of(old_items)[p as int] == old_items[p as int].0);
                        }
                    }
                }
                Some(e)
            },
            None => None,
        }
    }

    /// Removes the record `id` and gives it back, or nothing when there is none.
    pub fn delete(&mut self, id: EntryId) -> (r: Option<Entry>)
        ensures
            r is Some <==> old(self)@.entries.contains_key(id),
            r matches Some(e) ==> e@ == old(self)@.entries[id],
            final(self)@.entries == old(self)@.entries.remove(id),
            final(self)@.next_id == old(self)@.next_id,
    {
        proof {
            use_type_invariant(&*self);
        }
        match self.position_of(id) {
            Some(p) => {
                let ghost old_items = self.items@;
                proof {
                    assert(ids_of(old_items.remove(p as int)) =~= ids_of(old_items).remove(p as int));
                }
                let next_id = self.next_id;
                let mut items = self.take_items();
                let (_, e) = items.remove(p);
                proof {
                    assert(forall|i: int| 0 <= i < items@.len() ==> (#[trigger] items@[i]).0 == (if i < p { old_items[i].0 } else { old_items[i + 1].0 }));
                }
                *self = History { items, next_id };
                proof {
                    let s = self.items@;
                    assert(s == old_items.remove(p as int));
                    assert(entry_map(s) =~= entry_map(old_items).remove(id)) by {
                        assert forall|k: EntryId| #[trigger] entry_map(s).contains_key(k) implies entry_map(
                            old_items,
                        ).remove(id).contains_key(k) && entry_map(old_items).remove(id)[k]
                            == entry_map(s)[k] by {
                            lemma_entry_map_has(s, k);
                            let i = choose|i: int| 0 <= i < s.len() && s[i].0 == k;
                            lemma_entry_map_at(s, i);
                            assert(ids_of(old_items)[p as int] == old_items[p as int].0);
                            if i < p {
                                lemma_entry_map_at(old_items, i);
                                assert(ids_of(old_items)[i] == old_items[i].0);
                            } else {
                                lemma_entry_map_at(old_items, i + 1);
                                assert(ids_of(old_items)[i + 1] == old_items[i + 1].0);
                            }
                        }
                        assert forall|k: EntryId| #[trigger] entry_map(old_items).remove(
                            id,
                        ).contains_key(k) implies entry_map(s).contains_key(k) by {
                            lemma_entry_map_has(old_items, k);
                            let i = choose|i: int| 0 <= i < old_items.len() && old_items[i].0 == k;
                            if i < p {
                                lemma_entry_map_at(s, i);
                            } else {
                                lemma_entry_map_at(s, i - 1);
                            }
                        }
                    }
                }
                Some(e)
            },
            None => {
                assert(old(self)@.entries.remove(id) =~= old(self)@.entries);
                None
            },
        }
    }

    /// The position of the first record that stands for the same launch as `entry`.
    fn position_of_launch(&self, entry: &Entry) -> (r: Option<usize>)
        requires
            self.well_formed(),
        ensures
            r is Some <==> has_launch(self@.entries, entry@),
            r matches Some(p) ==> p < self.items@.len() && same_launch(
                self.items@[p as int].1@,
                entry@,
            ),
    {
        let mut p: usize = 0;
        while p < self.items.len()
            invariant
                self.well_formed(),
                p <= self.items@.len(),
                forall|j: int| 0 <= j < p ==> !same_launch((#[trigger] self.items@[j]).1@, entry@),
            decreases self.items@.len() - p,
        {
            if self.items[p].1.same_launch_as(entry) {
                proof {
                    lemma_entry_map_at(self.items@, p as int);
                }
                return Some(p);
            }
            p += 1;
        }
        proof {
            if has_launch(self@.entries, entry@) {
                let k = choose|k: EntryId|
                    self@.entries.contains_key(k) && #[trigger] same_launch(self@.entries[k], entry@);
                lemma_entry_map_has(self.items@, k);
                let i = choose|i: int| 0 <= i < self.items@.len() && self.items@[i].0 == k;
                lemma_entry_map_at(self.items@, i);
            }
        }
        None
    }

    /// Replaces the record that stands for the same launch as `entry`, keeping its
    /// identifier, or adds `entry` as a new record when there is none (which needs
    /// a free identifier).
    pub fn upsert(&mut self, entry: Entry) -> (r: EntryId)
        requires
            has_launch(old(self)@.entries, entry@) || old(self)@.next_id < usize::MAX,
        ensures
            upserted(old(self)@, entry@, final(self)@, r),
            unique_launches(old(self)@.entries) ==> unique_launches(final(self)@.entries),
    {
        proof {
            use_type_invariant(&*self);
        }
        let ghost e = entry@;
        let ghost before = self@;
        proof {
            self.lemma_dom();
        }
        let r = match self.position_of_launch(&entry) {
            Some(p) => {
                let id = self.items[p].0;
                proof {
                    lemma_entry_map_at(self.items@, p as int);
                }
                self.update(id, entry);
                proof {
                    assert(self@.entries.dom() =~= before.entries.dom());
                }
                id
            },
            None => self.insert(entry),
        };
        proof {
            lemma_upsert_keeps_unique(before, e, self@, r);
        }
        r
    }

    /// The `max` most recently opened records, latest first; of records opened at
    /// the same time, the one added earlier comes first.
    pub fn most_recent(&self, max: usize) -> (r: Vec<Entry>)
        ensures
            is_most_recent(self@.entries, views(r@), max as nat),
    {
        proof {
            use_type_invariant(self);
            self.lemma_dom();
        }
        let n = self.items.len();
        let mut keys: Vec<Option<i128>> = Vec::new();
        let mut i: usize = 0;
        while i < n
            invariant
                n == self.items@.len(),
                i <= n,
                keys@.len() == i,
                forall|j: int| 0 <= j < i ==> #[trigger] keys@[j] == Some(self.items@[j].1.last_opened.key() as i128),
            decreases n - i,
        {
            keys.push(Some(self.items[i].1.last_opened.recency_key()));
            i += 1;
        }
        let order = rank_desc(&keys);
        let count = if n < max { n } else { max };
        let mut r: Vec<Entry> = Vec::new();
        let mut a: usize = 0;
        while a < count
            invariant
                count <= n,
                n == self.items@.len(),
                order@.len() == n,
                forall|b: int| 0 <= b < n ==> #[trigger] order@[b] < n,
                a <= count,
                r@.len() == a,
                forall|b: int| 0 <= b < a ==> (#[trigger] r@[b])@ == self.items@[order@[b] as int].1@,
            decreases count - a,
        {
            r.push(self.items[order[a]].1.duplicate());
            a += 1;
        }
        proof {
            let m = self@.entries;
            let s = self.items@;
            let rv = views(r@);
            let ks = Seq::new(count as nat, |b: int| s[order@[b] as int].0);
            assert forall|b: int| 0 <= b < count implies m.contains_key(#[trigger] ks[b]) && m[ks[b]]
                == rv[b] by {
                lemma_entry_map_at(s, order@[b] as int);
            }
            assert forall|b: int, c: int| 0 <= b < c < count implies !(#[trigger] rv[c]).last_opened.after(
                (#[trigger] rv[b]).last_opened,
            ) by {
                assert(precedes(keys@, order@[b] as int, order@[c] as int));
                lemma_key_order(s[order@[b] as int].1.last_opened, s[order@[c] as int].1.last_opened);
            }
            assert(ks.no_duplicates()) by {
                assert forall|b: int, c: int| 0 <= b < c < ks.len() implies ks[b] != ks[c] by {
                    assert(precedes(keys@, order@[b] as int, order@[c] as int));
                    assert(ids_of(s)[order@[b] as int] == ks[b]);
                    assert(ids_of(s)[order@[c] as int] == ks[c]);
                }
            }
            assert forall|k: EntryId, b: int|
                #![trigger m[k], rv[b]]
                m.contains_key(k) && !ks.contains(k) && 0 <= b < rv.len() implies !m[k].last_opened.after(
                rv[b].last_opened,
            ) by {
                lemma_entry_map_has(s, k);
                let i = choose|i: int| 0 <= i < s.len() && s[i].0 == k;
                lemma_entry_map_at(s, i);
                assert(keys@[i] is Some);
                let c = choose|c: int| 0 <= c < order@.len() && order@[c] == i as usize;
                if c < count {
                    assert(ks[c] == k);
                }
                assert(precedes(keys@, order@[b] as int, order@[c] as int));
                lemma_key_order(s[order@[b] as int].1.last_opened, s[i].1.last_opened);
            }
            assert(rv.len() == count);
        }
        r
    }

    /// The records, each once, in the order they were added.
    pub fn into_entries(self) -> (r: Vec<Entry>)
        ensures
            r@.len() == self@.entries.len(),
            exists|ks: Seq<EntryId>|
                {
                    &&& ks.len() == r@.len()
                    &&& ks.no_duplicates()
                    &&& forall|a: int|
                        0 <= a < ks.len() ==> self@.entries.contains_key(#[trigger] ks[a])
                            && self@.entries[ks[a]] == r@[a]@
                    &&& forall|k: EntryId| #[trigger] self@.entries.contains_key(k) ==> ks.contains(k)
                },
    {
        proof {
            use_type_invariant(&self);
            self.lemma_dom();
        }
        let mut r: Vec<Entry> = Vec::new();
        let mut i: usize = 0;
        while i < self.items.len()
            invariant
                i <= self.items@.len(),
                r@.len() == i,
                forall|j: int| 0 <= j < i ==> (#[trigger] r@[j])@ == self.items@[j].1@,
            decreases self.items@.len() - i,
        {
            r.push(self.items[i].1.duplicate());
            i += 1;
        }
        proof {
            let s = self.items@;
            let ks = ids_of(s);
            assert forall|a: int| 0 <= a < ks.len() implies self@.entries.contains_key(#[trigger] ks[a])
                && self@.entries[ks[a]] == r@[a]@ by {
                lemma_entry_map_at(s, a);
            }
            assert forall|k: EntryId| #[trigger] self@.entries.contains_key(k) implies ks.contains(k) by {
                lemma_entry_map_has(s, k);
                let i = choose|i: int| 0 <= i < s.len() && s[i].0 == k;
                assert(ks[i] == k);
            }
        }
        r
    }

    /// The records with their identifiers, in the order they were added.
    pub fn to_vec(&self) -> (r: Vec<(EntryId, Entry)>)
        ensures
            ids_of(r@).no_duplicates(),
            entry_map(r@) == self@.entries,
    {
        proof {
            use_type_invariant(self);
        }
        let mut r: Vec<(EntryId, Entry)> = Vec::new();
        let mut i: usize = 0;
        while i < self.items.len()
            invariant
                ids_of(self.items@).no_duplicates(),
                i <= self.items@.len(),
                r@.len() == i,
                forall|j: int| 0 <= j < i ==> (#[trigger] r@[j]).0 == self.items@[j].0 && r@[j].1@ == self.items@[j].1@,
            decreases self.items@.len() - i,
        {
            r.push((self.items[i].0, self.items[i].1.duplicate()));
            i += 1;
        }
        proof {
            assert(ids_of(r@) =~= ids_of(self.items@));
            assert(entry_map(r@) =~= entry_map(self.items@)) by {
                assert forall|k: EntryId| #[trigger] entry_map(r@).contains_key(k) implies entry_map(r@)[k]
                    == entry_map(self.items@)[k] by {
                    lemma_entry_map_has(r@, k);
                    let j = choose|j: int| 0 <= j < r@.len() && r@[j].0 == k;
                    lemma_entry_map_at(r@, j);
                    lemma_entry_map_at(self.items@, j);
                }
            }
        }
        r
    }
}

/// The views of a list of records.
pub open spec fn views(s: Seq<Entry>) -> Seq<EntryView> {
    s.map_values(|e: Entry| e@)
}

/// `r` lists the `max` most recently opened records of `m` (all of them when there
/// are fewer), latest first, each record once: no record of `m` left out was
/// opened after one that `r` holds.
pub open spec fn is_most_recent(m: Map<EntryId, EntryView>, r: Seq<EntryView>, max: nat) -> bool {
    &&& r.len() == if m.len() < max { m.len() } else { max }
    &&& forall|i: int, j: int|
        0 <= i < j < r.len() ==> !(#[trigger] r[j]).last_opened.after((#[trigger] r[i]).last_opened)
    &&& exists|ks: Seq<EntryId>|
        {
            &&& ks.len() == r.len()
            &&& ks.no_duplicates()
            &&& forall|a: int| 0 <= a < ks.len() ==> m.contains_key(#[trigger] ks[a]) && m[ks[a]] == r[a]
            &&& forall|k: EntryId, a: int|
                #![trigger m[k], r[a]]
                m.contains_key(k) && !ks.contains(k) && 0 <= a < r.len() ==> !m[k].last_opened.after(
                    r[a].last_opened,
                )
        }
}

/// An upsert keeps a history free of two records for the same launch.
proof fn lemma_upsert_keeps_unique(old: HistoryView, e: EntryView, new: HistoryView, id: EntryId)
    requires
        upserted(old, e, new, id),
    ensures
        unique_launches(old.entries) ==> unique_launches(new.entries),
{
    if unique_launches(old.entries) {
        assert forall|k1: EntryId, k2: EntryId|
            new.entries.contains_key(k1) && new.entries.contains_key(k2) && #[trigger] same_launch(
                new.entries[k1],
                new.entries[k2],
            ) implies k1 == k2 by {
            if k1 != id && k2 != id {
                assert(same_launch(old.entries[k1], old.entries[k2]));
            } else if k1 == id && k2 != id {
                assert(same_launch(old.entries[k2], e));
                assert(has_launch(old.entries, e));
                assert(same_launch(old.entries[k2], old.entries[id]));
            } else if k2 == id && k1 != id {
                assert(same_launch(old.entries[k1], e));
                assert(has_launch(old.entries, e));
                assert(same_launch(old.entries[k1], old.entries[id]));
            }
        }
    }
}

/// Upserting two records for the same launch, one after the other, into a history
/// that holds at most one record per launch leaves exactly one record for that
/// launch: the second record, under the identifier that the first upsert gave.
pub proof fn lemma_upsert_twice(
    h0: HistoryView,
    h1: HistoryView,
    h2: HistoryView,
    a: EntryView,
    b: EntryView,
    id1: EntryId,
    id2: EntryId,
)
    requires
        unique_launches(h0.entries),
        same_launch(a, b),
        upserted(h0, a, h1, id1),
        upserted(h1, b, h2, id2),
    ensures
        id1 == id2,
        h2.entries.contains_key(id2),
        h2.entries[id2] == b,
        forall|k: EntryId|
            h2.entries.contains_key(k) && #[trigger] same_launch(h2.entries[k], b) ==> k == id2,
        h2.entries.dom() == h1.entries.dom(),
        h2.entries.len() == h1.entries.len(),
        forall|j: EntryId| j != id2 && #[trigger] h1.entries.contains_key(j) ==> h2.entries[j] == h1.entries[j],
{
    lemma_upsert_keeps_unique(h0, a, h1, id1);
    assert(same_launch(h1.entries[id1], b));
    assert(has_launch(h1.entries, b));
    assert(same_launch(h1.entries[id2], h1.entries[id1]));
    lemma_upsert_keeps_unique(h1, b, h2, id2);
    assert(h2.entries.dom() =~= h1.entries.dom());
}

/// Two records that differ only in their names and their time of opening are
/// equal, and upserting the second into a history that holds the first (and at
/// most one record per launch) replaces the first in place: same identifier, same
/// identifiers overall, same number of records.
pub proof fn lemma_volatile_fields_ignored(
    h0: HistoryView,
    h1: HistoryView,
    i0: EntryId,
    a: Entry,
    b: Entry,
    id: EntryId,
)
    requires
        a.workspace_path@ == b.workspace_path@,
        a.config_path@ == b.config_path@,
        a.behavior@ == b.behavior@,
        unique_launches(h0.entries),
        h0.entries.contains_key(i0),
        h0.entries[i0] == a@,
        upserted(h0, b@, h1, id),
    ensures
        a.eq_spec(&b),
        id == i0,
        h1.entries.dom() == h0.entries.dom(),
        h1.entries.len() == h0.entries.len(),
        h1.entries[i0] == b@,
{
    assert(same_launch(h0.entries[i0], b@));
    assert(has_launch(h0.entries, b@));
    assert(same_launch(h0.entries[id], h0.entries[i0]));
    assert(h1.entries.dom() =~= h0.entries.dom());
}

/// The number of names tried for the backup of a broken history file.
pub const BACKUP_PROBE_LIMIT: usize = 10_000;

/// The backup name with number `i`.
pub open spec fn backup_candidate(i: nat) -> Seq<char> {
    ".history_"@ + decimal(i) + ".json.bak"@
}

/// The backup name used when every numbered one is taken.
pub open spec fn fallback_backup_name() -> Seq<char> {
    ".history.json.bak"@
}

/// `name` is one of `taken`.
pub open spec fn is_taken(taken: Seq<String>, name: Seq<char>) -> bool {
    exists|j: int| 0 <= j < taken.len() && (#[trigger] taken[j])@ == name
}

fn contains_text(taken: &Vec<String>, name: &String) -> (r: bool)
    ensures
        r == is_taken(taken@, name@),
{
    let mut j: usize = 0;
    while j < taken.len()
        invariant
            j <= taken@.len(),
            forall|i: int| 0 <= i < j ==> (#[trigger] taken@[i])@ != name@,
        decreases taken@.len() - j,
    {
        if same_text(taken[j].as_str(), name.as_str()) {
            return true;
        }
        j += 1;
    }
    false
}

/// The file name for the backup of a broken history file, beside the files named
/// `taken`: the first free numbered name, or the fallback name when all
/// `BACKUP_PROBE_LIMIT` numbered names are taken.
pub fn backup_file_name(taken: &Vec<String>) -> (r: String)
    ensures
        (exists|i: nat| i < BACKUP_PROBE_LIMIT && !is_taken(taken@, #[trigger] backup_candidate(i)))
            ==> exists|i: nat|
            i < BACKUP_PROBE_LIMIT && r@ == #[trigger] backup_candidate(i) && !is_taken(taken@, r@)
                && forall|j: nat| j < i ==> is_taken(taken@, #[trigger] backup_candidate(j)),
        (forall|i: nat| i < BACKUP_PROBE_LIMIT ==> is_taken(taken@, #[trigger] backup_candidate(i)))
            ==> r@ == fallback_backup_name(),
{
    let mut i: usize = 0;
    while i < BACKUP_PROBE_LIMIT
        invariant
            i <= BACKUP_PROBE_LIMIT,
            forall|j: nat| j < i ==> is_taken(taken@, #[trigger] backup_candidate(j)),
        decreases BACKUP_PROBE_LIMIT - i,
    {
        let mut name = String::from_str(".history_");
        let digits = decimal_text(i);
        name.append(digits.as_str());
        name.append(".json.bak");
        assert(name@ == backup_candidate(i as nat));
        if !contains_text(taken, &name) {
            return name;
        }
        i += 1;
    }
    String::from_str(".history.json.bak")
}

/// The history together with the file it is kept in.
pub struct Tracker {
    /// The file that the history is kept in.
    pub path: String,
    /// The records.
    pub history: History,
}

impl Tracker {
    /// What is written when the history is stored: the file, and the
    /// `MAX_HISTORY_ENTRIES` most recently opened records, latest first.
    pub fn into_stored(self) -> (r: (String, Vec<Entry>))
        ensures
            r.0@ == self.path@,
            is_most_recent(self.history@.entries, views(r.1@), MAX_HISTORY_ENTRIES as nat),
    {
        let entries = self.history.most_recent(MAX_HISTORY_ENTRIES);
        (self.path, entries)
    }
}

} // verus!
