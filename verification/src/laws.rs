//! The laws the service keeps, stated over the store model that the
//! handlers' contracts speak of: what a create, an update or a delete does
//! to a later read, and how the row count moves.

use vstd::prelude::*;
use crate::store::lemma_insert_then_lookup;
use crate::store::lemma_lookup_absent_from;
use crate::store::lemma_lookup_found_from;
use crate::store::lemma_lookup_none_means_absent;
use crate::store::lemma_lookup_some_index;
use crate::store::lemma_remove_id;
use crate::store::lookup_view;
use crate::store::StoreV;
use crate::types::RowV;

verus! {

/// Create then ReadOne: inserting a pair and looking the returned id up
/// yields a row carrying exactly that pair under the assigned, non-null id.
pub proof fn lemma_create_then_read_one(s: StoreV, name: Seq<u8>, email: Seq<u8>)
    requires
        s.wf(),
        s.next_id < i32::MAX,
    ensures
        s.inserted(name, email).wf(),
        lookup_view(s.inserted(name, email).rows, s.next_id) == Some(
            RowV { id: s.next_id, name, email },
        ),
        1 <= s.next_id,
{
    let s2 = s.inserted(name, email);
    assert forall|i: int| 0 <= i < s2.rows.len() implies 1 <= (#[trigger] s2.rows[i]).id
        < s2.next_id by {
        if i < s.rows.len() {
            assert(s2.rows[i] == s.rows[i]);
        }
    }
    assert forall|i: int, j: int| 0 <= i < j < s2.rows.len() implies #[trigger] s2.rows[i].id
        != #[trigger] s2.rows[j].id by {
        if j < s.rows.len() {
        } else {
            assert(s2.rows[j].id == s.next_id);
            assert(s2.rows[i] == s.rows[i]);
        }
    }
    lemma_insert_then_lookup(s, name, email);
}

/// ReadOne on a never-created id: the counter has not passed it, so no row
/// carries it and the lookup finds nothing.
pub proof fn lemma_read_never_created(s: StoreV, id: i32)
    requires
        s.wf(),
        id >= s.next_id || id < 1,
    ensures
        lookup_view(s.rows, id) is None,
{
    lemma_lookup_absent_from(s.rows, 0, id);
}

/// Update then ReadOne: when a row carries the id, the update gives it the
/// new pair under the same id and a later lookup sees exactly that; when no
/// row carries the id, the update leaves the rows untouched.
pub proof fn lemma_update_then_read_one(s: StoreV, id: i32, name: Seq<u8>, email: Seq<u8>)
    requires
        s.wf(),
    ensures
        s.updated(id, name, email).wf(),
        lookup_view(s.rows, id) is Some ==> lookup_view(s.updated(id, name, email).rows, id)
            == Some(RowV { id, name, email }),
        lookup_view(s.rows, id) is None ==> s.updated(id, name, email).rows == s.rows,
{
    let rows2 = s.updated(id, name, email).rows;
    assert forall|k: int| 0 <= k < rows2.len() implies (#[trigger] rows2[k]).id
        == s.rows[k].id by {}
    assert forall|i: int| 0 <= i < rows2.len() implies 1 <= (#[trigger] rows2[i]).id
        < s.next_id by {
        assert(rows2[i].id == s.rows[i].id);
    }
    assert forall|i: int, j: int| 0 <= i < j < rows2.len() implies #[trigger] rows2[i].id
        != #[trigger] rows2[j].id by {
        assert(rows2[i].id == s.rows[i].id);
        assert(rows2[j].id == s.rows[j].id);
    }
    if lookup_view(s.rows, id) is Some {
        lemma_lookup_some_index(s.rows, 0, id);
        let w = choose|j: int|
            0 <= j < s.rows.len() && #[trigger] s.rows[j] == lookup_view(s.rows, id)->Some_0
                && s.rows[j].id == id;
        assert(rows2[w] == RowV { id, name, email });
        assert forall|k: int| 0 <= k < w implies (#[trigger] rows2[k]).id != id by {
            assert(s.rows[k].id != s.rows[w].id);
        }
        lemma_lookup_found_from(rows2, 0, w, id);
    } else {
        lemma_lookup_none_means_absent(s.rows, 0, id);
        assert(rows2 =~= s.rows);
    }
}

/// Delete then ReadOne: after a delete of the id no row carries it, so the
/// lookup finds nothing.
pub proof fn lemma_delete_then_read_one(s: StoreV, id: i32)
    requires
        s.wf(),
    ensures
        s.deleted(id).wf(),
        lookup_view(s.deleted(id).rows, id) is None,
{
    lemma_remove_id(s.rows, id, s.next_id);
    lemma_lookup_absent_from(s.deleted(id).rows, 0, id);
}

/// How the row count moves, and with it the length of the array ReadAll
/// returns: one more row after a create, one fewer after the delete of a
/// present id, none fewer after the delete of an absent one.
pub proof fn lemma_row_count(s: StoreV, name: Seq<u8>, email: Seq<u8>, id: i32)
    requires
        s.wf(),
    ensures
        s.next_id < i32::MAX ==> s.inserted(name, email).rows.len() == s.rows.len() + 1,
        lookup_view(s.rows, id) is Some ==> s.deleted(id).rows.len() == s.rows.len() - 1,
        lookup_view(s.rows, id) is None ==> s.deleted(id).rows == s.rows,
{
    lemma_remove_id(s.rows, id, s.next_id);
}

/// Update or Delete of an id no row carries changes nothing; the handlers
/// above still owe the success response on that very input.
pub proof fn lemma_missing_id_is_noop(s: StoreV, id: i32, name: Seq<u8>, email: Seq<u8>)
    requires
        s.wf(),
        lookup_view(s.rows, id) is None,
    ensures
        s.updated(id, name, email) == s,
        s.deleted(id) == s,
{
    lemma_update_then_read_one(s, id, name, email);
    lemma_row_count(s, name, email, id);
}

} // verus!
