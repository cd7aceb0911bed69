//! A table of records that are found again by a name their owner chose.

use crate::index::{name_entries, names_get, names_insert, names_new};
use dashmap::DashMap;
use crate::table::Replica;
use crate::types::views;
use vstd::prelude::*;

verus! {

/// A value that has a name.
pub trait HasName {
    /// The name of the value.
    spec fn name(&self) -> Seq<char>;
}

/// A record that is found again by its name.
pub trait Named: HasName {
    /// A copy of the name of the record.
    fn name_of(&self) -> (n: String)
        ensures
            n@ == self.name(),
    ;
}

/// Some row has the name.
pub open spec fn has_name<T: HasName>(rows: Seq<T>, name: Seq<char>) -> bool {
    exists|i: int| 0 <= i < rows.len() && #[trigger] rows[i].name() == name
}

/// The position of a row with the name, if there is one.
pub open spec fn position_of_name<T: HasName>(rows: Seq<T>, name: Seq<char>) -> Option<int> {
    if has_name(rows, name) {
        Some(choose|i: int| 0 <= i < rows.len() && #[trigger] rows[i].name() == name)
    } else {
        None
    }
}

/// No two rows have the same name.
pub open spec fn distinct_names<T: HasName>(rows: Seq<T>) -> bool {
    forall|i: int, j: int|
        0 <= i < rows.len() && 0 <= j < rows.len() && #[trigger] rows[i].name() == #[trigger] rows[j].name()
            ==> i == j
}

/// The rows after `row` is stored: it takes the place of the row with its
/// name, or goes to the end if there is none.
pub open spec fn put_named<T: HasName>(rows: Seq<T>, row: T) -> Seq<T> {
    match position_of_name(rows, row.name()) {
        Some(i) => rows.update(i, row),
        None => rows.push(row),
    }
}

/// The rows after each of `more` is stored, in order.
pub open spec fn put_all_named<T: HasName>(rows: Seq<T>, more: Seq<T>) -> Seq<T>
    decreases more.len(),
{
    if more.len() == 0 {
        rows
    } else {
        put_named(put_all_named(rows, more.drop_last()), more.last())
    }
}

/// Where names are distinct, the position of a name is the one place it
/// stands.
pub proof fn lemma_position_of_name<T: HasName>(rows: Seq<T>, name: Seq<char>, i: int)
    requires
        distinct_names(rows),
        0 <= i < rows.len(),
        rows[i].name() == name,
    ensures
        position_of_name(rows, name) == Some(i),
{
}

/// Where a record and its view have the same name, a name stands at the same
/// position among the records and among their views.
pub proof fn lemma_views_position_of_name<T: View + HasName>(rows: Seq<T>, name: Seq<char>) where
    T::V: HasName,

    requires
        forall|x: T| #[trigger] x@.name() == x.name(),
        distinct_names(rows),
    ensures
        distinct_names(views(rows)),
        position_of_name(views(rows), name) == position_of_name(rows, name),
{
    let vs = views(rows);
    assert forall|i: int, j: int|
        0 <= i < vs.len() && 0 <= j < vs.len() && #[trigger] vs[i].name() == #[trigger] vs[j].name() implies i
        == j by {
        assert(rows[i].name() == rows[j].name());
    }
    if has_name(rows, name) {
        let i = choose|i: int| 0 <= i < rows.len() && #[trigger] rows[i].name() == name;
        assert(vs[i].name() == name);
        lemma_position_of_name(vs, name, i);
        lemma_position_of_name(rows, name, i);
    } else {
        if has_name(vs, name) {
            let i = choose|i: int| 0 <= i < vs.len() && #[trigger] vs[i].name() == name;
            assert(rows[i].name() == name);
        }
    }
}

/// Where a record and its view have the same name, storing a record and then
/// taking views gives what storing the record's view among the views gives.
pub proof fn lemma_views_put_named<T: View + HasName>(rows: Seq<T>, row: T) where T::V: HasName
    requires
        forall|x: T| #[trigger] x@.name() == x.name(),
        distinct_names(rows),
    ensures
        views(put_named(rows, row)) == put_named(views(rows), row@),
{
    lemma_views_position_of_name(rows, row.name());
    match position_of_name(rows, row.name()) {
        Some(i) => {
            assert(views(rows.update(i, row)) =~= views(rows).update(i, row@));
        },
        None => {
            assert(views(rows.push(row)) =~= views(rows).push(row@));
        },
    }
}

/// Storing rows with distinct names, in order, in an empty directory gives
/// the rows.
pub proof fn lemma_put_all_named_fresh<T: HasName>(rows: Seq<T>)
    requires
        distinct_names(rows),
    ensures
        put_all_named(Seq::<T>::empty(), rows) == rows,
    decreases rows.len(),
{
    if rows.len() > 0 {
        let front = rows.drop_last();
        lemma_put_all_named_fresh(front);
        if has_name(front, rows.last().name()) {
            let i = choose|i: int| 0 <= i < front.len() && #[trigger] front[i].name() == rows.last().name();
            assert(rows[i].name() == rows[rows.len() - 1].name());
        }
        assert(front.push(rows.last()) =~= rows);
    } else {
        assert(put_all_named(Seq::<T>::empty(), rows) =~= rows);
    }
}

/// Storing a row keeps names distinct.
pub proof fn lemma_put_named_keeps_distinct<T: HasName>(rows: Seq<T>, row: T)
    requires
        distinct_names(rows),
    ensures
        distinct_names(put_named(rows, row)),
{
    let after = put_named(rows, row);
    match position_of_name(rows, row.name()) {
        Some(p) => {
            assert(after[p].name() == row.name());
        },
        None => {
            assert(after[rows.len() as int].name() == row.name());
        },
    }
}

/// A table of records with distinct names.
pub struct Directory<T> {
    rows: Vec<T>,
    slots: DashMap<String, u64>,
}

impl<T: Named> View for Directory<T> {
    type V = Seq<T>;

    /// The rows, in the order their names were first stored.
    closed spec fn view(&self) -> Seq<T> {
        self.rows@
    }
}

impl<T: Named + Replica> Directory<T> where T::V: HasName {
    /// Copies of all rows, in order.
    pub fn copy_rows(&self) -> (out: Vec<T>)
        ensures
            views(out@) == views(self@),
    {
        crate::table::copy_list(&self.rows)
    }

    /// Stores a copy of each of `more`, in order.
    pub fn absorb(&mut self, more: &Vec<T>)
        requires
            old(self).wf(),
            forall|x: T| #[trigger] x@.name() == x.name(),
        ensures
            final(self).wf(),
            views(final(self)@) == put_all_named(views(old(self)@), views(more@)),
            distinct_names(views(final(self)@)),
    {
        let mut i: usize = 0;
        let ghost vs = views(more@);
        proof {
            self.lemma_distinct();
            lemma_views_position_of_name(self@, Seq::empty());
        }
        while i < more.len()
            invariant
                i <= more.len(),
                self.wf(),
                vs == views(more@),
                forall|x: T| #[trigger] x@.name() == x.name(),
                views(self@) == put_all_named(views(old(self)@), vs.take(i as int)),
                distinct_names(views(self@)),
            decreases more.len() - i,
        {
            let row = more[i].replica();
            proof {
                assert(vs.take(i + 1).drop_last() =~= vs.take(i as int));
                assert(vs.take(i + 1).last() == row@);
                self.lemma_distinct();
                lemma_views_put_named(self@, row);
                lemma_put_named_keeps_distinct(views(self@), row@);
            }
            self.put(row);
            i += 1;
        }
        assert(vs.take(more.len() as int) =~= vs);
    }
}

impl<T: Named> Directory<T> {
    /// The slot map names exactly the rows, each under its name.
    pub closed spec fn wf(&self) -> bool {
        &&& forall|i: int|
            0 <= i < self.rows@.len() ==> name_entries(self.slots).contains_key(
                #[trigger] self.rows@[i].name(),
            ) && name_entries(self.slots)[self.rows@[i].name()] == i
        &&& forall|n: Seq<char>| #[trigger]
            name_entries(self.slots).contains_key(n) ==> name_entries(self.slots)[n]
                < self.rows@.len() && self.rows@[name_entries(self.slots)[n] as int].name() == n
    }

    /// The rows of a well-formed directory have distinct names.
    pub proof fn lemma_distinct(&self)
        requires
            self.wf(),
        ensures
            distinct_names(self@),
    {
    }

    /// An empty directory.
    pub fn new() -> (d: Self)
        ensures
            d.wf(),
            d@.len() == 0,
    {
        Directory { rows: Vec::new(), slots: names_new() }
    }

    /// The number of rows.
    pub fn len(&self) -> (n: usize)
        ensures
            n == self@.len(),
    {
        self.rows.len()
    }

    /// The row in slot `i`.
    pub fn row(&self, i: usize) -> (r: &T)
        requires
            i < self@.len(),
        ensures
            *r == self@[i as int],
    {
        &self.rows[i]
    }

    /// The slot of the row with the name.
    pub fn slot(&self, name: &str) -> (r: Option<usize>)
        requires
            self.wf(),
        ensures
            match r {
                Some(i) => position_of_name(self@, name@) == Some(i as int) && i < self@.len()
                    && self@[i as int].name() == name@,
                None => position_of_name(self@, name@) is None,
            },
    {
        match names_get(&self.slots, name) {
            Some(v) => {
                assert(name_entries(self.slots).contains_key(name@));
                assert(v < self.rows.len());
                proof {
                    lemma_position_of_name(self@, name@, v as int);
                }
                Some(v as usize)
            },
            None => None,
        }
    }

    /// The row with the name.
    pub fn get(&self, name: &str) -> (r: Option<&T>)
        requires
            self.wf(),
        ensures
            match r {
                Some(row) => position_of_name(self@, name@) is Some && *row
                    == self@[position_of_name(self@, name@).unwrap()],
                None => position_of_name(self@, name@) is None,
            },
    {
        match self.slot(name) {
            Some(i) => Some(&self.rows[i]),
            None => None,
        }
    }

    /// Stores `row` under its name: in place of the row that has the name, or
    /// as a new last row.
    pub fn put(&mut self, row: T)
        requires
            old(self).wf(),
        ensures
            final(self).wf(),
            final(self)@ == put_named(old(self)@, row),
    {
        let name = row.name_of();
        match self.slot(name.as_str()) {
            Some(i) => {
                self.rows.set(i, row);
            },
            None => {
                let n = self.rows.len();
                self.rows.push(row);
                let _ = names_insert(&mut self.slots, name, n as u64);
            },
        }
    }
}

} // verus!
