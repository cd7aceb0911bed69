//! Append-only lists of entries, one list per key.

use crate::index::{slot_entries, slots_get, slots_insert, slots_new};
use crate::table::{
    all_below, copy_list, keys_below, lemma_raised, raise_over, raised, HasKey, Keyed, Replica,
};
use crate::types::views;
use dashmap::DashMap;
use vstd::prelude::*;

verus! {

/// One key of a ledger with the entries recorded under it, oldest first.
pub struct Page<E> {
    pub key: u64,
    pub entries: Seq<E>,
}

/// Some page has the key.
pub open spec fn has_page<E>(pages: Seq<Page<E>>, key: u64) -> bool {
    exists|i: int| 0 <= i < pages.len() && (#[trigger] pages[i]).key == key
}

/// The position of a page with the key, where there is one.
pub open spec fn page_index<E>(pages: Seq<Page<E>>, key: u64) -> int {
    choose|i: int| 0 <= i < pages.len() && (#[trigger] pages[i]).key == key
}

/// The entries recorded under `key`: those of the page with that key, or
/// none.
pub open spec fn entries_of<E>(pages: Seq<Page<E>>, key: u64) -> Seq<E> {
    if has_page(pages, key) {
        pages[page_index(pages, key)].entries
    } else {
        Seq::empty()
    }
}

/// No two pages have the same key.
pub open spec fn distinct_pages<E>(pages: Seq<Page<E>>) -> bool {
    forall|i: int, j: int|
        0 <= i < pages.len() && 0 <= j < pages.len() && (#[trigger] pages[i]).key == (
        #[trigger] pages[j]).key ==> i == j
}

/// The pages after `list` is stored as the entries of `key`: in place of the
/// page with the key, or as a new last page.
pub open spec fn with_list<E>(pages: Seq<Page<E>>, key: u64, list: Seq<E>) -> Seq<Page<E>> {
    if has_page(pages, key) {
        pages.update(page_index(pages, key), Page { key, entries: list })
    } else {
        pages.push(Page { key, entries: list })
    }
}

/// The pages after `entry` is recorded as the newest under `key`.
pub open spec fn with_entry<E>(pages: Seq<Page<E>>, key: u64, entry: E) -> Seq<Page<E>> {
    with_list(pages, key, entries_of(pages, key).push(entry))
}

/// The pages with each entry replaced by its view.
pub open spec fn page_views<E: View>(pages: Seq<Page<E>>) -> Seq<Page<E::V>> {
    pages.map_values(|p: Page<E>| Page { key: p.key, entries: views(p.entries) })
}

/// The pages after each list of `groups` is stored under its key, in order.
pub open spec fn with_lists<E>(pages: Seq<Page<E>>, groups: Seq<Page<E>>) -> Seq<Page<E>>
    decreases groups.len(),
{
    if groups.len() == 0 {
        pages
    } else {
        with_list(with_lists(pages, groups.drop_last()), groups.last().key, groups.last().entries)
    }
}

/// Every entry has a key below `bound`.
pub open spec fn entry_keys_below<V: HasKey>(pages: Seq<Page<V>>, bound: u64) -> bool {
    forall|k: u64, j: int|
        0 <= j < entries_of(pages, k).len() ==> (#[trigger] entries_of(pages, k)[j]).key() < bound
}

/// Every entry of every group has a key below `bound`.
pub open spec fn group_keys_below<V: HasKey>(groups: Seq<Page<V>>, bound: u64) -> bool {
    forall|g: int| 0 <= g < groups.len() ==> keys_below((#[trigger] groups[g]).entries, bound)
}

/// The least bound that is at least `bound` and above the key of every entry
/// of `groups`.
pub open spec fn raised_over<V: HasKey>(bound: u64, groups: Seq<Page<V>>) -> u64
    decreases groups.len(),
{
    if groups.len() == 0 {
        bound
    } else {
        raised(raised_over(bound, groups.drop_last()), groups.last().entries)
    }
}

/// A bound raised over groups is at least the bound it was raised from, and
/// above the key of every entry of the groups.
pub proof fn lemma_raised_over<V: HasKey>(bound: u64, groups: Seq<Page<V>>)
    requires
        group_keys_below(groups, u64::MAX),
    ensures
        bound <= raised_over(bound, groups),
        group_keys_below(groups, raised_over(bound, groups)),
    decreases groups.len(),
{
    if groups.len() > 0 {
        let front = groups.drop_last();
        assert forall|g: int| 0 <= g < front.len() implies keys_below(
            (#[trigger] front[g]).entries,
            u64::MAX,
        ) by {
            assert(front[g] == groups[g]);
        }
        lemma_raised_over(bound, front);
        let b = raised_over(bound, front);
        assert(keys_below(groups.last().entries, u64::MAX));
        lemma_raised(b, groups.last().entries);
        assert forall|g: int| 0 <= g < groups.len() implies keys_below(
            (#[trigger] groups[g]).entries,
            raised_over(bound, groups),
        ) by {
            if g < groups.len() - 1 {
                assert(front[g] == groups[g]);
                assert(keys_below(front[g].entries, b));
            }
        }
    }
}

/// The pages that groups of records stand for: each key with the views of
/// its list.
pub open spec fn group_pages<E: View>(groups: Seq<(u64, Vec<E>)>) -> Seq<Page<E::V>> {
    groups.map_values(|g: (u64, Vec<E>)| Page { key: g.0, entries: views(g.1@) })
}

/// Where keys are distinct, the entries of a key are those of the one page
/// that has it.
pub proof fn lemma_entries_of<E>(pages: Seq<Page<E>>, i: int)
    requires
        distinct_pages(pages),
        0 <= i < pages.len(),
    ensures
        has_page(pages, pages[i].key),
        page_index(pages, pages[i].key) == i,
        entries_of(pages, pages[i].key) == pages[i].entries,
{
}

/// Storing a list under a key changes the entries of that key and of no
/// other, and keeps keys distinct.
pub proof fn lemma_with_list<E>(pages: Seq<Page<E>>, key: u64, list: Seq<E>)
    requires
        distinct_pages(pages),
    ensures
        distinct_pages(with_list(pages, key, list)),
        has_page(with_list(pages, key, list), key),
        entries_of(with_list(pages, key, list), key) == list,
        forall|k: u64|
            k != key ==> #[trigger] entries_of(with_list(pages, key, list), k) == entries_of(
                pages,
                k,
            ),
        forall|k: u64|
            k != key ==> #[trigger] has_page(with_list(pages, key, list), k) == has_page(pages, k),
{
    let after = with_list(pages, key, list);
    if has_page(pages, key) {
        let i = page_index(pages, key);
        assert(after[i].key == key);
        assert(distinct_pages(after)) by {
            assert forall|a: int, b: int|
                0 <= a < after.len() && 0 <= b < after.len() && (#[trigger] after[a]).key == (
                #[trigger] after[b]).key implies a == b by {
                assert(pages[a].key == after[a].key);
                assert(pages[b].key == after[b].key);
            }
        }
        lemma_entries_of(after, i);
        assert forall|k: u64| k != key implies entries_of(after, k) == entries_of(pages, k)
            && has_page(after, k) == has_page(pages, k) by {
            if has_page(pages, k) {
                let j = page_index(pages, k);
                assert(after[j].key == k);
                lemma_entries_of(pages, j);
                lemma_entries_of(after, j);
            } else if has_page(after, k) {
                let j = page_index(after, k);
                assert(pages[j].key == k);
            }
        }
    } else {
        let n = pages.len() as int;
        assert(after[n].key == key);
        assert(distinct_pages(after)) by {
            assert forall|a: int, b: int|
                0 <= a < after.len() && 0 <= b < after.len() && (#[trigger] after[a]).key == (
                #[trigger] after[b]).key implies a == b by {
                if a < n {
                    assert(pages[a].key == after[a].key);
                }
                if b < n {
                    assert(pages[b].key == after[b].key);
                }
            }
        }
        lemma_entries_of(after, n);
        assert forall|k: u64| k != key implies entries_of(after, k) == entries_of(pages, k)
            && has_page(after, k) == has_page(pages, k) by {
            if has_page(pages, k) {
                let j = page_index(pages, k);
                assert(after[j].key == k);
                lemma_entries_of(pages, j);
                lemma_entries_of(after, j);
            } else if has_page(after, k) {
                let j = page_index(after, k);
                if j < n {
                    assert(pages[j].key == k);
                }
            }
        }
    }
}

/// Storing pages with distinct keys, in order, in an empty ledger gives the
/// pages.
pub proof fn lemma_with_lists_fresh<E>(pages: Seq<Page<E>>)
    requires
        distinct_pages(pages),
    ensures
        with_lists(Seq::<Page<E>>::empty(), pages) == pages,
    decreases pages.len(),
{
    if pages.len() > 0 {
        let front = pages.drop_last();
        lemma_with_lists_fresh(front);
        if has_page(front, pages.last().key) {
            let i = page_index(front, pages.last().key);
            assert(pages[i].key == pages[pages.len() - 1].key);
        }
        assert(front.push(Page { key: pages.last().key, entries: pages.last().entries })
            =~= pages);
    } else {
        assert(with_lists(Seq::<Page<E>>::empty(), pages) =~= pages);
    }
}

/// Recording an entry whose key is the bound keeps pages distinct and every
/// entry key below the bound raised by one.
pub proof fn lemma_with_entry_below<V: HasKey>(
    pages: Seq<Page<V>>,
    key: u64,
    entry: V,
    bound: u64,
)
    requires
        distinct_pages(pages),
        entry_keys_below(pages, bound),
        entry.key() == bound,
        bound < u64::MAX,
    ensures
        distinct_pages(with_entry(pages, key, entry)),
        entry_keys_below(with_entry(pages, key, entry), (bound + 1) as u64),
        entries_of(with_entry(pages, key, entry), key) == entries_of(pages, key).push(entry),
{
    let list = entries_of(pages, key).push(entry);
    lemma_with_list(pages, key, list);
    let after = with_entry(pages, key, entry);
    assert forall|k: u64, j: int| 0 <= j < entries_of(after, k).len() implies (
    #[trigger] entries_of(after, k)[j]).key() < bound + 1 by {
        if k == key {
            if j < entries_of(pages, key).len() {
                assert(entries_of(pages, key)[j].key() < bound);
            }
        } else {
            assert(entries_of(after, k) == entries_of(pages, k));
            assert(entries_of(pages, k)[j].key() < bound);
        }
    }
}

/// Taking views of the pages keeps keys distinct and turns the entries of
/// each key into their views.
pub proof fn lemma_page_views<E: View>(pages: Seq<Page<E>>, key: u64)
    requires
        distinct_pages(pages),
    ensures
        distinct_pages(page_views(pages)),
        has_page(page_views(pages), key) == has_page(pages, key),
        entries_of(page_views(pages), key) == views(entries_of(pages, key)),
        has_page(pages, key) ==> page_index(page_views(pages), key) == page_index(pages, key),
{
    let vs = page_views(pages);
    assert forall|a: int, b: int|
        0 <= a < vs.len() && 0 <= b < vs.len() && (#[trigger] vs[a]).key == (
        #[trigger] vs[b]).key implies a == b by {
        assert(pages[a].key == pages[b].key);
    }
    if has_page(pages, key) {
        let i = page_index(pages, key);
        assert(vs[i].key == key);
        lemma_entries_of(vs, i);
        lemma_entries_of(pages, i);
    } else {
        if has_page(vs, key) {
            let i = page_index(vs, key);
            assert(pages[i].key == key);
        }
        assert(views(Seq::<E>::empty()) =~= Seq::<E::V>::empty());
    }
}

/// Storing a list and then taking views gives what storing the list's views
/// among the views gives.
pub proof fn lemma_page_views_with_list<E: View>(pages: Seq<Page<E>>, key: u64, list: Seq<E>)
    requires
        distinct_pages(pages),
    ensures
        page_views(with_list(pages, key, list)) == with_list(page_views(pages), key, views(list)),
{
    lemma_page_views(pages, key);
    assert(page_views(with_list(pages, key, list)) =~= with_list(
        page_views(pages),
        key,
        views(list),
    ));
}

/// Recording an entry and then taking views gives what recording the entry's
/// view among the views gives.
pub proof fn lemma_page_views_with_entry<E: View>(pages: Seq<Page<E>>, key: u64, entry: E)
    requires
        distinct_pages(pages),
    ensures
        page_views(with_entry(pages, key, entry)) == with_entry(page_views(pages), key, entry@),
{
    lemma_page_views(pages, key);
    lemma_page_views_with_list(pages, key, entries_of(pages, key).push(entry));
    assert(views(entries_of(pages, key).push(entry)) =~= views(entries_of(pages, key)).push(
        entry@,
    ));
}

/// Whether every entry of every group has a key below `bound`.
pub fn groups_below<E: Keyed + View>(groups: &Vec<(u64, Vec<E>)>, bound: u64) -> (r: bool) where
    E::V: HasKey,

    requires
        forall|x: E| #[trigger] x@.key() == x.key(),
    ensures
        r == group_keys_below(group_pages(groups@), bound),
{
    let mut i: usize = 0;
    while i < groups.len()
        invariant
            i <= groups.len(),
            forall|x: E| #[trigger] x@.key() == x.key(),
            forall|g: int|
                0 <= g < i ==> keys_below((#[trigger] group_pages(groups@)[g]).entries, bound),
        decreases groups.len() - i,
    {
        assert(group_pages(groups@)[i as int].entries == views(groups@[i as int].1@));
        if !all_below(&groups[i].1, bound) {
            return false;
        }
        i += 1;
    }
    true
}

/// Per-key lists of entries that only grow.
pub struct Ledger<E> {
    keys: Vec<u64>,
    lists: Vec<Vec<E>>,
    slots: DashMap<u64, usize>,
}

impl<E> View for Ledger<E> {
    type V = Seq<Page<E>>;

    /// The pages, in the order their keys were first used.
    closed spec fn view(&self) -> Seq<Page<E>> {
        Seq::new(self.keys@.len(), |i: int| Page { key: self.keys@[i], entries: self.lists@[i]@ })
    }
}

impl<E: Keyed + Replica> Ledger<E> where E::V: HasKey {
    /// Copies of all pages, in order: each key with its entries.
    pub fn export(&self) -> (out: Vec<(u64, Vec<E>)>)
        requires
            self.wf(),
        ensures
            group_pages(out@) == page_views(self@),
    {
        let mut out: Vec<(u64, Vec<E>)> = Vec::new();
        let mut i: usize = 0;
        while i < self.keys.len()
            invariant
                self.wf(),
                i <= self.keys.len(),
                group_pages(out@) == page_views(self@).take(i as int),
            decreases self.keys.len() - i,
        {
            let list = copy_list(&self.lists[i]);
            let group = (self.keys[i], list);
            proof {
                let page = Page { key: group.0, entries: views(group.1@) };
                assert(group_pages(out@.push(group)) =~= group_pages(out@).push(page));
                assert(self@[i as int].key == group.0);
                assert(page_views(self@)[i as int] == page);
                assert(page_views(self@).take(i as int).push(page) =~= page_views(self@).take(
                    i + 1,
                ));
            }
            out.push(group);
            i += 1;
        }
        assert(page_views(self@).take(self.keys.len() as int) =~= page_views(self@));
        out
    }

    /// Stores a copy of each list of `groups` under its key, in order, and
    /// raises `bound` above the keys of their entries.
    pub fn absorb(&mut self, groups: &Vec<(u64, Vec<E>)>, bound: u64) -> (next: u64)
        requires
            old(self).wf(),
            forall|x: E| #[trigger] x@.key() == x.key(),
            entry_keys_below(page_views(old(self)@), bound),
            group_keys_below(group_pages(groups@), u64::MAX),
        ensures
            final(self).wf(),
            page_views(final(self)@) == with_lists(page_views(old(self)@), group_pages(groups@)),
            next == raised_over(bound, group_pages(groups@)),
            entry_keys_below(page_views(final(self)@), next),
            bound <= next,
    {
        let mut next: u64 = bound;
        let mut i: usize = 0;
        let ghost gs = group_pages(groups@);
        while i < groups.len()
            invariant
                i <= groups.len(),
                self.wf(),
                gs == group_pages(groups@),
                forall|x: E| #[trigger] x@.key() == x.key(),
                group_keys_below(gs, u64::MAX),
                page_views(self@) == with_lists(page_views(old(self)@), gs.take(i as int)),
                next == raised_over(bound, gs.take(i as int)),
                entry_keys_below(page_views(self@), next),
                bound <= next,
            decreases groups.len() - i,
        {
            let key: u64 = groups[i].0;
            let list = copy_list(&groups[i].1);
            proof {
                assert(gs.take(i + 1).drop_last() =~= gs.take(i as int));
                assert(gs.take(i + 1).last() == gs[i as int]);
                assert(gs[i as int].key == key);
                assert(gs[i as int].entries == views(list@));
                assert(keys_below(gs[i as int].entries, u64::MAX));
                lemma_raised(next, views(list@));
            }
            let raised_next = raise_over(&list, next);
            proof {
                self.lemma_distinct();
                lemma_page_views(self@, key);
                lemma_page_views_with_list(self@, key, list@);
                let before = page_views(self@);
                lemma_with_list(before, key, views(list@));
                let after = with_list(before, key, views(list@));
                assert forall|k: u64, j: int| 0 <= j < entries_of(after, k).len() implies (
                #[trigger] entries_of(after, k)[j]).key() < raised_next by {
                    if k == key {
                        assert(entries_of(after, k) == views(list@));
                    } else {
                        assert(entries_of(after, k) == entries_of(before, k));
                        assert(entries_of(before, k)[j].key() < next);
                    }
                }
            }
            self.set(key, list);
            next = raised_next;
            i += 1;
        }
        assert(gs.take(groups.len() as int) =~= gs);
        next
    }
}

impl<E> Ledger<E> {
    /// The slot map names exactly the pages, each under its key.
    pub closed spec fn wf(&self) -> bool {
        &&& self.keys@.len() == self.lists@.len()
        &&& forall|i: int|
            0 <= i < self.keys@.len() ==> slot_entries(self.slots).contains_key(
                #[trigger] self.keys@[i],
            ) && slot_entries(self.slots)[self.keys@[i]] == i
        &&& forall|k: u64| #[trigger]
            slot_entries(self.slots).contains_key(k) ==> slot_entries(self.slots)[k]
                < self.keys@.len() && self.keys@[slot_entries(self.slots)[k] as int] == k
    }

    /// The pages of a well-formed ledger have distinct keys.
    pub proof fn lemma_distinct(&self)
        requires
            self.wf(),
        ensures
            distinct_pages(self@),
    {
        assert forall|i: int, j: int|
            0 <= i < self@.len() && 0 <= j < self@.len() && (#[trigger] self@[i]).key == (
            #[trigger] self@[j]).key implies i == j by {
            assert(self.keys@[i] == self.keys@[j]);
        }
    }

    /// A ledger without pages.
    pub fn new() -> (l: Self)
        ensures
            l.wf(),
            l@.len() == 0,
    {
        Ledger { keys: Vec::new(), lists: Vec::new(), slots: slots_new() }
    }

    /// The number of pages.
    pub fn len(&self) -> (n: usize)
        requires
            self.wf(),
        ensures
            n == self@.len(),
    {
        self.keys.len()
    }

    /// The key of page `i`.
    pub fn key_at(&self, i: usize) -> (k: u64)
        requires
            self.wf(),
            i < self@.len(),
        ensures
            k == self@[i as int].key,
    {
        self.keys[i]
    }

    /// The entries of page `i`.
    pub fn list_at(&self, i: usize) -> (list: &Vec<E>)
        requires
            self.wf(),
            i < self@.len(),
        ensures
            list@ == self@[i as int].entries,
    {
        &self.lists[i]
    }

    /// The slot of the page with the key.
    fn slot(&self, key: u64) -> (r: Option<usize>)
        requires
            self.wf(),
        ensures
            match r {
                Some(i) => has_page(self@, key) && page_index(self@, key) == i && i < self@.len(),
                None => !has_page(self@, key),
            },
            r is None ==> !slot_entries(self.slots).contains_key(key),
    {
        let r = slots_get(&self.slots, key);
        proof {
            self.lemma_distinct();
            match r {
                Some(i) => {
                    assert(self@[i as int].key == key);
                    lemma_entries_of(self@, i as int);
                },
                None => {
                    assert forall|i: int| 0 <= i < self@.len() implies (#[trigger] self@[i]).key
                        != key by {
                        assert(self.keys@[i] == self@[i].key);
                    }
                },
            }
        }
        r
    }

    /// The entries recorded under `key`, if it has a page.
    pub fn get(&self, key: u64) -> (r: Option<&Vec<E>>)
        requires
            self.wf(),
        ensures
            match r {
                Some(list) => has_page(self@, key) && list@ == entries_of(self@, key),
                None => !has_page(self@, key),
            },
    {
        match self.slot(key) {
            Some(i) => Some(&self.lists[i]),
            None => None,
        }
    }

    /// Records `entry` as the newest under `key`.
    pub fn append(&mut self, key: u64, entry: E)
        requires
            old(self).wf(),
        ensures
            final(self).wf(),
            final(self)@ == with_entry(old(self)@, key, entry),
    {
        match self.slot(key) {
            Some(i) => {
                self.lists[i].push(entry);
                assert(self@ =~= with_entry(old(self)@, key, entry));
            },
            None => {
                let n = self.keys.len();
                self.keys.push(key);
                let mut list: Vec<E> = Vec::new();
                list.push(entry);
                self.lists.push(list);
                let _ = slots_insert(&mut self.slots, key, n);
                assert(list@ =~= Seq::<E>::empty().push(entry));
                assert(self@ =~= with_entry(old(self)@, key, entry));
            },
        }
    }

    /// Stores `list` as the entries of `key`, in place of what was there.
    pub fn set(&mut self, key: u64, list: Vec<E>)
        requires
            old(self).wf(),
        ensures
            final(self).wf(),
            final(self)@ == with_list(old(self)@, key, list@),
    {
        match self.slot(key) {
            Some(i) => {
                self.lists.set(i, list);
                assert(self@ =~= with_list(old(self)@, key, list@));
            },
            None => {
                let n = self.keys.len();
                let ghost l = list@;
                self.keys.push(key);
                self.lists.push(list);
                let _ = slots_insert(&mut self.slots, key, n);
                assert(self@ =~= with_list(old(self)@, key, l));
            },
        }
    }
}

} // verus!
