//! A model of the `users` table: rows in insertion order, ids assigned by a
//! serial counter, hard deletes. The handlers are verified against this
//! model; the process around the library points the same decisions at the
//! real relational store.

use vstd::prelude::*;
use crate::types::{Row, RowV};

verus! {

/// The first row of `rows` at or after `i` whose id is `id`, if any.
pub open spec fn lookup_from(rows: Seq<RowV>, i: int, id: i32) -> Option<RowV>
    decreases rows.len() - i,
{
    if i < 0 || i >= rows.len() {
        None
    } else if rows[i].id == id {
        Some(rows[i])
    } else {
        lookup_from(rows, i + 1, id)
    }
}

/// The row of `rows` with id `id`, if any.
pub open spec fn lookup_view(rows: Seq<RowV>, id: i32) -> Option<RowV> {
    lookup_from(rows, 0, id)
}

/// `rows` without the rows whose id is `id`, order kept.
pub open spec fn remove_id(rows: Seq<RowV>, id: i32) -> Seq<RowV>
    decreases rows.len(),
{
    if rows.len() == 0 {
        Seq::empty()
    } else if rows.last().id == id {
        remove_id(rows.drop_last(), id)
    } else {
        remove_id(rows.drop_last(), id).push(rows.last())
    }
}

/// The mathematical view of the store: the persisted rows in insertion
/// order, and the next id the serial counter would assign.
pub struct StoreV {
    pub rows: Seq<RowV>,
    pub next_id: i32,
}

impl StoreV {
    /// Every persisted row carries an id the counter has already passed,
    /// and ids identify rows uniquely.
    pub open spec fn wf(self) -> bool {
        &&& 1 <= self.next_id
        &&& forall|i: int|
            0 <= i < self.rows.len() ==> 1 <= (#[trigger] self.rows[i]).id < self.next_id
        &&& forall|i: int, j: int|
            0 <= i < j < self.rows.len() ==> #[trigger] self.rows[i].id != #[trigger] self.rows[j].id
    }

    /// The store after inserting `(name, email)`: the new row takes the
    /// counter's id and the counter advances.
    pub open spec fn inserted(self, name: Seq<u8>, email: Seq<u8>) -> StoreV
        recommends
            self.next_id < i32::MAX,
    {
        StoreV {
            rows: self.rows.push(RowV { id: self.next_id, name, email }),
            next_id: (self.next_id + 1) as i32,
        }
    }

    /// The store after an unconditional update of the row with id `id`:
    /// a no-op when no row carries that id.
    pub open spec fn updated(self, id: i32, name: Seq<u8>, email: Seq<u8>) -> StoreV {
        StoreV {
            rows: Seq::new(
                self.rows.len(),
                |i: int|
                    if self.rows[i].id == id {
                        RowV { id, name, email }
                    } else {
                        self.rows[i]
                    },
            ),
            next_id: self.next_id,
        }
    }

    /// The store after an unconditional delete of the row with id `id`:
    /// a no-op when no row carries that id.
    pub open spec fn deleted(self, id: i32) -> StoreV {
        StoreV { rows: remove_id(self.rows, id), next_id: self.next_id }
    }
}

/// The in-memory model store.
pub struct Store {
    rows: Vec<Row>,
    next_id: i32,
}

impl View for Store {
    type V = StoreV;

    closed spec fn view(&self) -> StoreV {
        StoreV {
            rows: Seq::new(self.rows@.len(), |i: int| self.rows@[i]@),
            next_id: self.next_id,
        }
    }
}

impl Store {
    /// A fresh, empty table: the counter starts at 1.
    pub fn new() -> (r: Store)
        ensures
            r@.rows.len() == 0,
            r@.next_id == 1,
            r@.wf(),
    {
        Store { rows: Vec::new(), next_id: 1 }
    }

    /// Inserts `(name, email)` and returns the assigned id; fails only when
    /// the serial counter is exhausted.
    pub fn insert(&mut self, name: Vec<u8>, email: Vec<u8>) -> (r: Option<i32>)
        requires
            old(self)@.wf(),
        ensures
            final(self)@.wf(),
            match r {
                Some(id) => {
                    &&& old(self)@.next_id < i32::MAX
                    &&& id == old(self)@.next_id
                    &&& final(self)@ == old(self)@.inserted(name@, email@)
                },
                None => old(self)@.next_id == i32::MAX && final(self)@ == old(self)@,
            },
    {
        if self.next_id == i32::MAX {
            return None;
        }
        let id = self.next_id;
        let ghost prev = self@;
        self.rows.push(Row { id, name, email });
        self.next_id = id + 1;
        proof {
            assert(self@.rows =~= prev.rows.push(RowV { id, name: name@, email: email@ }));
            assert(self@ == prev.inserted(name@, email@));
        }
        Some(id)
    }

    /// Fetches the row with id `id`, if one is persisted.
    pub fn lookup(&self, id: i32) -> (r: Option<Row>)
        ensures
            match r {
                Some(row) => lookup_view(self@.rows, id) == Some(row@),
                None => lookup_view(self@.rows, id) is None,
            },
    {
        let mut i: usize = 0;
        while i < self.rows.len()
            invariant
                0 <= i <= self.rows@.len(),
                lookup_view(self@.rows, id) == lookup_from(self@.rows, i as int, id),
            decreases self.rows@.len() - i,
        {
            if self.rows[i].id == id {
                let row = Row {
                    id: self.rows[i].id,
                    name: vstd::slice::slice_to_vec(self.rows[i].name.as_slice()),
                    email: vstd::slice::slice_to_vec(self.rows[i].email.as_slice()),
                };
                assert(row@ == self@.rows[i as int]);
                return Some(row);
            }
            i = i + 1;
        }
        None
    }

    /// The persisted rows, in insertion order.
    pub fn rows(&self) -> (r: &Vec<Row>)
        ensures
            r@.len() == self@.rows.len(),
            forall|i: int| 0 <= i < r@.len() ==> (#[trigger] r@[i])@ == self@.rows[i],
    {
        &self.rows
    }

    /// Unconditionally updates the row with id `id` to `(name, email)`;
    /// a no-op when no row carries that id.
    pub fn update(&mut self, id: i32, name: &[u8], email: &[u8])
        requires
            old(self)@.wf(),
        ensures
            final(self)@ == old(self)@.updated(id, name@, email@),
            final(self)@.wf(),
    {
        let ghost prev = self@;
        let mut i: usize = 0;
        while i < self.rows.len()
            invariant
                0 <= i <= self.rows@.len(),
                self.rows@.len() == prev.rows.len(),
                self.next_id == prev.next_id,
                forall|k: int|
                    0 <= k < i ==> (#[trigger] self.rows@[k])@ == prev.updated(
                        id,
                        name@,
                        email@,
                    ).rows[k],
                forall|k: int| i <= k < self.rows@.len() ==> (#[trigger] self.rows@[k])@ == prev.rows[k],
            decreases self.rows@.len() - i,
        {
            if self.rows[i].id == id {
                let fresh = Row {
                    id,
                    name: vstd::slice::slice_to_vec(name),
                    email: vstd::slice::slice_to_vec(email),
                };
                self.rows[i] = fresh;
            }
            i = i + 1;
        }
        proof {
            assert(self@.rows =~= prev.updated(id, name@, email@).rows);
            assert(self@ == prev.updated(id, name@, email@));
            assert forall|k: int| 0 <= k < self@.rows.len() implies 1 <= (#[trigger] self@.rows[k]).id
                < self@.next_id by {
                assert(prev.rows[k].id == self@.rows[k].id);
            }
        }
    }

    /// Unconditionally deletes the row with id `id`; a no-op when no row
    /// carries that id.
    pub fn delete(&mut self, id: i32)
        requires
            old(self)@.wf(),
        ensures
            final(self)@ == old(self)@.deleted(id),
            final(self)@.wf(),
    {
        let ghost prev = self@;
        let mut kept: Vec<Row> = Vec::new();
        let mut i: usize = 0;
        while i < self.rows.len()
            invariant
                0 <= i <= self.rows@.len(),
                self@ == prev,
                Seq::new(kept@.len(), |k: int| kept@[k]@) =~= remove_id(
                    prev.rows.subrange(0, i as int),
                    id,
                ),
            decreases self.rows@.len() - i,
        {
            proof {
                assert(prev.rows.subrange(0, i + 1).drop_last() =~= prev.rows.subrange(0, i as int));
                assert(prev.rows.subrange(0, i + 1).last() == prev.rows[i as int]);
            }
            if self.rows[i].id != id {
                let row = Row {
                    id: self.rows[i].id,
                    name: vstd::slice::slice_to_vec(self.rows[i].name.as_slice()),
                    email: vstd::slice::slice_to_vec(self.rows[i].email.as_slice()),
                };
                kept.push(row);
                assert(Seq::new(kept@.len(), |k: int| kept@[k]@) =~= remove_id(
                    prev.rows.subrange(0, i + 1),
                    id,
                ));
            }
            i = i + 1;
        }
        proof {
            assert(prev.rows.subrange(0, prev.rows.len() as int) =~= prev.rows);
        }
        self.rows = kept;
        proof {
            assert(self@.rows =~= remove_id(prev.rows, id));
            assert(self@ == prev.deleted(id));
            lemma_remove_id(prev.rows, id, prev.next_id);
        }
    }
}

/// Every row that `remove_id` keeps was in `rows`.
proof fn lemma_remove_id_membership(rows: Seq<RowV>, id: i32)
    ensures
        forall|k: int|
            0 <= k < remove_id(rows, id).len() ==> exists|j: int|
                0 <= j < rows.len() && (#[trigger] remove_id(rows, id)[k]) == #[trigger] rows[j],
    decreases rows.len(),
{
    if rows.len() > 0 {
        let front = rows.drop_last();
        lemma_remove_id_membership(front, id);
        assert forall|k: int| 0 <= k < remove_id(rows, id).len() implies exists|j: int|
            0 <= j < rows.len() && (#[trigger] remove_id(rows, id)[k]) == #[trigger] rows[j] by {
            if k < remove_id(front, id).len() {
                let j = choose|j: int|
                    0 <= j < front.len() && (#[trigger] remove_id(front, id)[k]) == #[trigger] front[j];
                assert(remove_id(rows, id)[k] == rows[j]);
            } else {
                assert(remove_id(rows, id)[k] == rows[rows.len() - 1]);
            }
        }
    }
}

/// `remove_id` keeps no row with the removed id.
proof fn lemma_remove_id_gone(rows: Seq<RowV>, id: i32)
    ensures
        forall|k: int|
            0 <= k < remove_id(rows, id).len() ==> (#[trigger] remove_id(rows, id)[k]).id != id,
    decreases rows.len(),
{
    if rows.len() > 0 {
        let front = rows.drop_last();
        lemma_remove_id_gone(front, id);
        assert forall|k: int| 0 <= k < remove_id(rows, id).len() implies (#[trigger] remove_id(
            rows,
            id,
        )[k]).id != id by {
            if rows.last().id != id {
                if k < remove_id(front, id).len() {
                    assert(remove_id(rows, id)[k] == remove_id(front, id)[k]);
                } else {
                    assert(remove_id(rows, id)[k] == rows.last());
                }
            } else {
                assert(remove_id(rows, id)[k] == remove_id(front, id)[k]);
            }
        }
    }
}

/// When no row carries the id, `remove_id` keeps everything; when one does,
/// exactly one row leaves.
proof fn lemma_remove_id_len(rows: Seq<RowV>, id: i32)
    requires
        forall|i: int, j: int|
            0 <= i < j < rows.len() ==> #[trigger] rows[i].id != #[trigger] rows[j].id,
    ensures
        lookup_view(rows, id) is Some ==> remove_id(rows, id).len() == rows.len() - 1,
        lookup_view(rows, id) is None ==> remove_id(rows, id) == rows,
    decreases rows.len(),
{
    if rows.len() == 0 {
        assert(remove_id(rows, id) =~= rows);
    } else {
        let front = rows.drop_last();
        lemma_remove_id_len(front, id);
        lemma_lookup_last(rows, id);
        if lookup_view(rows, id) is None {
            assert(remove_id(rows, id) =~= rows);
        } else if rows.last().id == id {
            assert(lookup_view(front, id) is None) by {
                if lookup_view(front, id) is Some {
                    lemma_lookup_some_index(front, 0, id);
                }
            }
        }
    }
}

/// A lookup passes over rows with other ids and returns the row at the
/// first index carrying the looked-up id.
pub proof fn lemma_lookup_found_from(rows: Seq<RowV>, i: int, w: int, id: i32)
    requires
        0 <= i <= w < rows.len(),
        rows[w].id == id,
        forall|k: int| i <= k < w ==> (#[trigger] rows[k]).id != id,
    ensures
        lookup_from(rows, i, id) == Some(rows[w]),
    decreases w - i,
{
    if i < w {
        lemma_lookup_found_from(rows, i + 1, w, id);
    }
}

/// A lookup over rows that all carry other ids finds nothing.
pub proof fn lemma_lookup_absent_from(rows: Seq<RowV>, i: int, id: i32)
    requires
        0 <= i,
        forall|k: int| i <= k < rows.len() ==> (#[trigger] rows[k]).id != id,
    ensures
        lookup_from(rows, i, id) is None,
    decreases rows.len() - i,
{
    if i < rows.len() {
        lemma_lookup_absent_from(rows, i + 1, id);
    }
}

/// A lookup that finds nothing passed over every row: none carries the id.
pub proof fn lemma_lookup_none_means_absent(rows: Seq<RowV>, i: int, id: i32)
    requires
        0 <= i,
        lookup_from(rows, i, id) is None,
    ensures
        forall|k: int| i <= k < rows.len() ==> (#[trigger] rows[k]).id != id,
    decreases rows.len() - i,
{
    if i < rows.len() {
        lemma_lookup_none_means_absent(rows, i + 1, id);
    }
}

/// The row inserted last is the one a lookup by its fresh id returns.
pub proof fn lemma_insert_then_lookup(s: StoreV, name: Seq<u8>, email: Seq<u8>)
    requires
        s.wf(),
        s.next_id < i32::MAX,
    ensures
        lookup_view(s.inserted(name, email).rows, s.next_id) == Some(
            RowV { id: s.next_id, name, email },
        ),
{
    let rows2 = s.inserted(name, email).rows;
    let w = rows2.len() - 1;
    assert forall|k: int| 0 <= k < w implies (#[trigger] rows2[k]).id != s.next_id by {
        assert(rows2[k] == s.rows[k]);
    }
    lemma_lookup_found_from(rows2, 0, w, s.next_id);
}

/// The row a successful lookup returns stands at some index and carries the
/// looked-up id.
pub proof fn lemma_lookup_some_index(rows: Seq<RowV>, i: int, id: i32)
    requires
        0 <= i,
        lookup_from(rows, i, id) is Some,
    ensures
        exists|j: int|
            i <= j < rows.len() && #[trigger] rows[j] == lookup_from(rows, i, id)->Some_0
                && rows[j].id == id,
    decreases rows.len() - i,
{
    if i < rows.len() && rows[i].id != id {
        lemma_lookup_some_index(rows, i + 1, id);
    }
}

/// What `remove_id` keeps: no row with the removed id, only rows that were
/// there, id bounds and uniqueness preserved, and the count down by one
/// exactly when a row with the id was present.
pub proof fn lemma_remove_id(rows: Seq<RowV>, id: i32, bound: i32)
    requires
        forall|i: int| 0 <= i < rows.len() ==> 1 <= (#[trigger] rows[i]).id < bound,
        forall|i: int, j: int|
            0 <= i < j < rows.len() ==> #[trigger] rows[i].id != #[trigger] rows[j].id,
    ensures
        forall|k: int| 0 <= k < remove_id(rows, id).len() ==> (#[trigger] remove_id(rows, id)[k]).id
            != id,
        forall|k: int|
            0 <= k < remove_id(rows, id).len() ==> exists|j: int|
                0 <= j < rows.len() && (#[trigger] remove_id(rows, id)[k]) == #[trigger] rows[j],
        forall|i: int|
            0 <= i < remove_id(rows, id).len() ==> 1 <= (#[trigger] remove_id(rows, id)[i]).id
                < bound,
        forall|i: int, j: int|
            0 <= i < j < remove_id(rows, id).len() ==> #[trigger] remove_id(rows, id)[i].id
                != #[trigger] remove_id(rows, id)[j].id,
        lookup_view(rows, id) is Some ==> remove_id(rows, id).len() == rows.len() - 1,
        lookup_view(rows, id) is None ==> remove_id(rows, id) == rows,
    decreases rows.len(),
{
    lemma_remove_id_membership(rows, id);
    lemma_remove_id_gone(rows, id);
    lemma_remove_id_len(rows, id);
    let kept = remove_id(rows, id);
    assert forall|i: int| 0 <= i < kept.len() implies 1 <= (#[trigger] kept[i]).id < bound by {
        let j = choose|j: int| 0 <= j < rows.len() && kept[i] == #[trigger] rows[j];
    }
    if rows.len() > 0 {
        let front = rows.drop_last();
        lemma_remove_id(front, id, bound);
        if rows.last().id != id {
            lemma_remove_id_membership(front, id);
            assert forall|i: int, j: int| 0 <= i < j < kept.len() implies #[trigger] kept[i].id
                != #[trigger] kept[j].id by {
                if j == kept.len() - 1 {
                    assert(kept[j] == rows.last());
                    assert(kept[i] == remove_id(front, id)[i]);
                    let w = choose|w: int|
                        0 <= w < front.len() && (#[trigger] remove_id(front, id)[i])
                            == #[trigger] front[w];
                    assert(rows[w].id != rows[rows.len() - 1].id);
                } else {
                    assert(kept[i] == remove_id(front, id)[i]);
                    assert(kept[j] == remove_id(front, id)[j]);
                }
            }
        }
    }
}

/// Relates a lookup over all of `rows` to its last row: the last row is
/// found exactly when no earlier row carries the id.
proof fn lemma_lookup_last(rows: Seq<RowV>, id: i32)
    requires
        rows.len() > 0,
    ensures
        lookup_view(rows.drop_last(), id) is Some ==> lookup_view(rows, id) == lookup_view(
            rows.drop_last(),
            id,
        ),
        lookup_view(rows.drop_last(), id) is None && rows.last().id == id ==> lookup_view(rows, id)
            == Some(rows.last()),
        lookup_view(rows.drop_last(), id) is None && rows.last().id != id ==> lookup_view(rows, id)
            is None,
{
    lemma_lookup_last_from(rows, 0, id);
}

proof fn lemma_lookup_last_from(rows: Seq<RowV>, i: int, id: i32)
    requires
        rows.len() > 0,
        0 <= i <= rows.len(),
    ensures
        lookup_from(rows.drop_last(), i, id) is Some ==> lookup_from(rows, i, id) == lookup_from(
            rows.drop_last(),
            i,
            id,
        ),
        lookup_from(rows.drop_last(), i, id) is None && rows.last().id == id && i < rows.len()
            ==> lookup_from(rows, i, id) == Some(rows.last()),
        lookup_from(rows.drop_last(), i, id) is None && (rows.last().id != id || i == rows.len())
            ==> lookup_from(rows, i, id) is None,
    decreases rows.len() - i,
{
    if i < rows.len() {
        lemma_lookup_last_from(rows, i + 1, id);
    }
}

} // verus!
