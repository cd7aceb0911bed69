//! A table of records: the rows in the order they were first stored, and a
//! concurrent map from each row's key to its slot.

use crate::index::{slot_entries, slots_get, slots_insert, slots_new};
use dashmap::DashMap;
use crate::types::views;
use vstd::prelude::*;

verus! {

/// A value that has an integer key.
pub trait HasKey {
    /// The key of the value.
    spec fn key(&self) -> u64;
}

/// A record that is found again by its key.
pub trait Keyed: HasKey {
    /// The key of the record.
    fn key_of(&self) -> (k: u64)
        ensures
            k == self.key(),
    ;
}

/// A record that can be copied so that the copy has the same view.
pub trait Replica: View + Sized {
    /// A copy of the record.
    fn replica(&self) -> (r: Self)
        ensures
            r@ == self@,
    ;
}

/// Every key among `rows` is below `bound`.
pub open spec fn keys_below<V: HasKey>(rows: Seq<V>, bound: u64) -> bool {
    forall|i: int| 0 <= i < rows.len() ==> (#[trigger] rows[i]).key() < bound
}

/// The rows after each of `more` is stored, in order.
pub open spec fn put_all<V: HasKey>(rows: Seq<V>, more: Seq<V>) -> Seq<V>
    decreases more.len(),
{
    if more.len() == 0 {
        rows
    } else {
        put_row(put_all(rows, more.drop_last()), more.last())
    }
}

/// The least bound that is at least `bound` and above every key of `more`.
pub open spec fn raised<V: HasKey>(bound: u64, more: Seq<V>) -> u64
    decreases more.len(),
{
    if more.len() == 0 {
        bound
    } else {
        let b = raised(bound, more.drop_last());
        if more.last().key() >= b {
            (more.last().key() + 1) as u64
        } else {
            b
        }
    }
}

/// A raised bound is at least the bound it was raised from, and above every
/// key it was raised over, as long as no key is the largest integer.
pub proof fn lemma_raised<V: HasKey>(bound: u64, more: Seq<V>)
    requires
        keys_below(more, u64::MAX),
    ensures
        bound <= raised(bound, more),
        keys_below(more, raised(bound, more)),
    decreases more.len(),
{
    if more.len() > 0 {
        lemma_raised(bound, more.drop_last());
        assert forall|i: int| 0 <= i < more.len() implies (#[trigger] more[i]).key() < raised(
            bound,
            more,
        ) by {
            if i < more.len() - 1 {
                assert(more.drop_last()[i] == more[i]);
            }
        }
    }
}

/// Storing rows with distinct keys, in order, in an empty table gives the
/// rows.
pub proof fn lemma_put_all_fresh<V: HasKey>(rows: Seq<V>)
    requires
        distinct_keys(rows),
    ensures
        put_all(Seq::<V>::empty(), rows) == rows,
    decreases rows.len(),
{
    if rows.len() > 0 {
        let front = rows.drop_last();
        lemma_put_all_fresh(front);
        lemma_position_some(front, rows.last().key());
        if position(front, rows.last().key()) is Some {
            let i = position(front, rows.last().key()).unwrap();
            assert(rows[i].key() == rows[rows.len() - 1].key());
        }
        assert(front.push(rows.last()) =~= rows);
    } else {
        assert(put_all(Seq::<V>::empty(), rows) =~= rows);
    }
}

/// Storing a row whose key is below the bound keeps every key below it.
pub proof fn lemma_put_keeps_below<V: HasKey>(rows: Seq<V>, row: V, bound: u64)
    requires
        keys_below(rows, bound),
        row.key() < bound,
    ensures
        keys_below(put_row(rows, row), bound),
{
    lemma_position_some(rows, row.key());
}

/// Copies of the records of a list, in order.
pub fn copy_list<T: Replica>(list: &Vec<T>) -> (out: Vec<T>)
    ensures
        views(out@) == views(list@),
{
    let mut out: Vec<T> = Vec::new();
    let mut i: usize = 0;
    while i < list.len()
        invariant
            i <= list.len(),
            views(out@) == views(list@).take(i as int),
        decreases list.len() - i,
    {
        let copy = list[i].replica();
        proof {
            crate::types::lemma_views_push(out@, copy);
            assert(views(list@).take(i as int).push(copy@) =~= views(list@).take(i + 1));
        }
        out.push(copy);
        i += 1;
    }
    assert(views(list@).take(list.len() as int) =~= views(list@));
    out
}

/// Whether every key of `list` is below `bound`.
pub fn all_below<T: Keyed + View>(list: &Vec<T>, bound: u64) -> (r: bool) where T::V: HasKey
    requires
        forall|x: T| #[trigger] x@.key() == x.key(),
    ensures
        r == keys_below(views(list@), bound),
{
    let mut i: usize = 0;
    while i < list.len()
        invariant
            i <= list.len(),
            forall|x: T| #[trigger] x@.key() == x.key(),
            forall|j: int| 0 <= j < i ==> (#[trigger] views(list@)[j]).key() < bound,
        decreases list.len() - i,
    {
        let k: u64 = list[i].key_of();
        assert(views(list@)[i as int].key() == k);
        if k >= bound {
            return false;
        }
        i += 1;
    }
    true
}

/// The least bound that is at least `bound` and above every key of `list`.
pub fn raise_over<T: Keyed + View>(list: &Vec<T>, bound: u64) -> (next: u64) where T::V: HasKey
    requires
        forall|x: T| #[trigger] x@.key() == x.key(),
        keys_below(views(list@), u64::MAX),
    ensures
        next == raised(bound, views(list@)),
{
    let mut next: u64 = bound;
    let mut i: usize = 0;
    let ghost vs = views(list@);
    while i < list.len()
        invariant
            i <= list.len(),
            vs == views(list@),
            forall|x: T| #[trigger] x@.key() == x.key(),
            keys_below(vs, u64::MAX),
            next == raised(bound, vs.take(i as int)),
        decreases list.len() - i,
    {
        let k: u64 = list[i].key_of();
        proof {
            assert(vs.take(i + 1).drop_last() =~= vs.take(i as int));
            assert(vs.take(i + 1).last() == list@[i as int]@);
            assert(vs[i as int].key() == k);
        }
        if k >= next {
            next = k + 1;
        }
        i += 1;
    }
    assert(vs.take(list.len() as int) =~= vs);
    next
}

/// No two rows have the same key.
pub open spec fn distinct_keys<T: HasKey>(rows: Seq<T>) -> bool {
    forall|i: int, j: int|
        0 <= i < rows.len() && 0 <= j < rows.len() && #[trigger] rows[i].key() == #[trigger] rows[j].key()
            ==> i == j
}

/// Some row has the key `id`.
pub open spec fn has_key<T: HasKey>(rows: Seq<T>, id: u64) -> bool {
    exists|i: int| 0 <= i < rows.len() && #[trigger] rows[i].key() == id
}

/// The position of a row with the key `id`, if there is one.
pub open spec fn position<T: HasKey>(rows: Seq<T>, id: u64) -> Option<int> {
    if has_key(rows, id) {
        Some(choose|i: int| 0 <= i < rows.len() && #[trigger] rows[i].key() == id)
    } else {
        None
    }
}

/// The row with the key `id`, if there is one.
pub open spec fn found<T: HasKey>(rows: Seq<T>, id: u64) -> Option<T> {
    match position(rows, id) {
        Some(i) => Some(rows[i]),
        None => None,
    }
}

/// The rows after `row` is stored: it takes the place of the row with its key,
/// or goes to the end if there is none.
pub open spec fn put_row<T: HasKey>(rows: Seq<T>, row: T) -> Seq<T> {
    match position(rows, row.key()) {
        Some(i) => rows.update(i, row),
        None => rows.push(row),
    }
}

/// Where keys are distinct, the position of a key is the one place it stands.
pub proof fn lemma_position<T: HasKey>(rows: Seq<T>, id: u64, i: int)
    requires
        distinct_keys(rows),
        0 <= i < rows.len(),
        rows[i].key() == id,
    ensures
        position(rows, id) == Some(i),
{
}

/// A position that `position` yields is in range and holds the key.
pub proof fn lemma_position_some<T: HasKey>(rows: Seq<T>, id: u64)
    ensures
        match position(rows, id) {
            Some(i) => 0 <= i < rows.len() && rows[i].key() == id,
            None => forall|j: int| 0 <= j < rows.len() ==> (#[trigger] rows[j].key()) != id,
        },
{
}

/// Storing a row keeps keys distinct.
pub proof fn lemma_put_keeps_distinct<T: HasKey>(rows: Seq<T>, row: T)
    requires
        distinct_keys(rows),
    ensures
        distinct_keys(put_row(rows, row)),
        has_key(put_row(rows, row), row.key()),
        forall|id: u64| has_key(rows, id) ==> has_key(put_row(rows, row), id),
{
    lemma_position_some(rows, row.key());
    let after = put_row(rows, row);
    match position(rows, row.key()) {
        Some(p) => {
            assert(after[p].key() == row.key());
            assert forall|id: u64| has_key(rows, id) implies has_key(after, id) by {
                let i = choose|i: int| 0 <= i < rows.len() && #[trigger] rows[i].key() == id;
                assert(after[i].key() == id);
            }
        },
        None => {
            assert(after[rows.len() as int].key() == row.key());
            assert forall|id: u64| has_key(rows, id) implies has_key(after, id) by {
                let i = choose|i: int| 0 <= i < rows.len() && #[trigger] rows[i].key() == id;
                assert(after[i].key() == id);
            }
        },
    }
}

/// Where a record and its view have the same key, storing a record and then
/// taking views gives what storing the record's view among the views gives.
pub proof fn lemma_views_put<T: View + HasKey>(rows: Seq<T>, row: T) where T::V: HasKey
    requires
        forall|x: T| #[trigger] x@.key() == x.key(),
        distinct_keys(rows),
    ensures
        distinct_keys(views(rows)),
        views(put_row(rows, row)) == put_row(views(rows), row@),
{
    lemma_views_position(rows, row.key());
    match position(rows, row.key()) {
        Some(i) => {
            assert(views(rows.update(i, row)) =~= views(rows).update(i, row@));
        },
        None => {
            assert(views(rows.push(row)) =~= views(rows).push(row@));
        },
    }
}

/// Where a record and its view have the same key, a key stands at the same
/// position among the records and among their views.
pub proof fn lemma_views_position<T: View + HasKey>(rows: Seq<T>, id: u64) where T::V: HasKey
    requires
        forall|x: T| #[trigger] x@.key() == x.key(),
        distinct_keys(rows),
    ensures
        distinct_keys(views(rows)),
        position(views(rows), id) == position(rows, id),
{
    let vs = views(rows);
    assert forall|i: int, j: int|
        0 <= i < vs.len() && 0 <= j < vs.len() && #[trigger] vs[i].key() == #[trigger] vs[j].key() implies i
        == j by {
        assert(rows[i].key() == rows[j].key());
    }
    if has_key(rows, id) {
        let i = choose|i: int| 0 <= i < rows.len() && #[trigger] rows[i].key() == id;
        assert(vs[i].key() == id);
        lemma_position(vs, id, i);
        lemma_position(rows, id, i);
    } else {
        if has_key(vs, id) {
            let i = choose|i: int| 0 <= i < vs.len() && #[trigger] vs[i].key() == id;
            assert(rows[i].key() == id);
        }
    }
}

/// A table of records with distinct keys.
pub struct Table<T> {
    rows: Vec<T>,
    slots: DashMap<u64, usize>,
}

impl<T: Keyed> View for Table<T> {
    type V = Seq<T>;

    /// The rows, in the order they were first stored.
    closed spec fn view(&self) -> Seq<T> {
        self.rows@
    }
}

impl<T: Keyed + Replica> Table<T> where T::V: HasKey {
    /// Copies of all rows, in order.
    pub fn copy_rows(&self) -> (out: Vec<T>)
        ensures
            views(out@) == views(self@),
    {
        let mut out: Vec<T> = Vec::new();
        let mut i: usize = 0;
        while i < self.rows.len()
            invariant
                i <= self.rows.len(),
                views(out@) == views(self.rows@).take(i as int),
            decreases self.rows.len() - i,
        {
            let copy = self.rows[i].replica();
            proof {
                crate::types::lemma_views_push(out@, copy);
                assert(views(self.rows@).take(i as int).push(copy@) =~= views(self.rows@).take(
                    i + 1,
                ));
            }
            out.push(copy);
            i += 1;
        }
        assert(views(self.rows@).take(self.rows.len() as int) =~= views(self.rows@));
        out
    }

    /// Stores a copy of each of `more`, in order, and raises `bound` above
    /// their keys.
    pub fn absorb(&mut self, more: &Vec<T>, bound: u64) -> (next: u64)
        requires
            old(self).wf(),
            forall|x: T| #[trigger] x@.key() == x.key(),
            keys_below(views(old(self)@), bound),
            keys_below(views(more@), u64::MAX),
        ensures
            final(self).wf(),
            views(final(self)@) == put_all(views(old(self)@), views(more@)),
            next == raised(bound, views(more@)),
            keys_below(views(final(self)@), next),
            distinct_keys(views(final(self)@)),
    {
        let mut next: u64 = bound;
        let mut i: usize = 0;
        let ghost vs = views(more@);
        proof {
            self.lemma_distinct();
            lemma_views_position(self@, 0);
        }
        while i < more.len()
            invariant
                i <= more.len(),
                self.wf(),
                vs == views(more@),
                forall|x: T| #[trigger] x@.key() == x.key(),
                keys_below(vs, u64::MAX),
                views(self@) == put_all(views(old(self)@), vs.take(i as int)),
                next == raised(bound, vs.take(i as int)),
                keys_below(views(self@), next),
                distinct_keys(views(self@)),
            decreases more.len() - i,
        {
            let row = more[i].replica();
            let k: u64 = row.key_of();
            proof {
                assert(vs.take(i + 1).drop_last() =~= vs.take(i as int));
                assert(vs.take(i + 1).last() == row@);
                assert(vs[i as int].key() == k);
                self.lemma_distinct();
                lemma_views_put(self@, row);
                lemma_put_keeps_distinct(views(self@), row@);
            }
            if k >= next {
                next = k + 1;
            }
            proof {
                lemma_put_keeps_below(views(self@), row@, next);
            }
            self.put(row);
            i += 1;
        }
        assert(vs.take(more.len() as int) =~= vs);
        next
    }
}

impl<T: Keyed> Table<T> {
    /// The slot map names exactly the rows, each under its key.
    pub closed spec fn wf(&self) -> bool {
        &&& forall|i: int|
            0 <= i < self.rows@.len() ==> slot_entries(self.slots).contains_key(
                #[trigger] self.rows@[i].key(),
            ) && slot_entries(self.slots)[self.rows@[i].key()] == i
        &&& forall|k: u64| #[trigger]
            slot_entries(self.slots).contains_key(k) ==> slot_entries(self.slots)[k]
                < self.rows@.len() && self.rows@[slot_entries(self.slots)[k] as int].key() == k
    }

    /// The rows of a well-formed table have distinct keys.
    pub proof fn lemma_distinct(&self)
        requires
            self.wf(),
        ensures
            distinct_keys(self@),
    {
    }

    /// An empty table.
    pub fn new() -> (t: Self)
        ensures
            t.wf(),
            t@.len() == 0,
    {
        Table { rows: Vec::new(), slots: slots_new() }
    }

    /// The number of rows.
    pub fn len(&self) -> (n: usize)
        ensures
            n == self@.len(),
    {
        self.rows.len()
    }

    /// The slot of the row with the key `id`.
    pub fn slot(&self, id: u64) -> (r: Option<usize>)
        requires
            self.wf(),
        ensures
            match r {
                Some(i) => position(self@, id) == Some(i as int) && i < self@.len()
                    && self@[i as int].key() == id,
                None => position(self@, id) is None,
            },
    {
        let r = slots_get(&self.slots, id);
        proof {
            match r {
                Some(i) => {
                    lemma_position(self@, id, i as int);
                },
                None => {},
            }
        }
        r
    }

    /// The row in slot `i`.
    pub fn row(&self, i: usize) -> (r: &T)
        requires
            i < self@.len(),
        ensures
            *r == self@[i as int],
    {
        &self.rows[i]
    }

    /// The row with the key `id`.
    pub fn get(&self, id: u64) -> (r: Option<&T>)
        requires
            self.wf(),
        ensures
            match r {
                Some(row) => position(self@, id) is Some && *row == self@[position(self@, id).unwrap()],
                None => position(self@, id) is None,
            },
    {
        match self.slot(id) {
            Some(i) => Some(&self.rows[i]),
            None => None,
        }
    }

    /// Stores `row` under its key: in place of the row that has the key, or
    /// as a new last row.
    pub fn put(&mut self, row: T)
        requires
            old(self).wf(),
        ensures
            final(self).wf(),
            final(self)@ == put_row(old(self)@, row),
    {
        let id = row.key_of();
        match self.slot(id) {
            Some(i) => {
                self.rows.set(i, row);
            },
            None => {
                let n = self.rows.len();
                self.rows.push(row);
                let _ = slots_insert(&mut self.slots, id, n);
            },
        }
    }
}

} // verus!
