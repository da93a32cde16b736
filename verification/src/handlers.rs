//! The five handlers and the dispatcher over them, each verified against
//! the model store: Create, ReadOne, ReadAll, Update and Delete, and the
//! route-by-route outcome each request is owed.

use vstd::prelude::*;
use crate::body::body_of;
use crate::body::get_user_request_body;
use crate::body::parse_user;
use crate::http::get_user_id;
use crate::http::is_delete_route;
use crate::http::is_get_all_route;
use crate::http::is_get_one_route;
use crate::http::is_options;
use crate::http::is_post_route;
use crate::http::is_put_route;
use crate::http::parse_i32;
use crate::http::parse_i32_bytes;
use crate::http::spec_user_id;
use crate::http::users_tail_bytes;
use crate::json::row_json;
use crate::json::row_json_bytes;
use crate::json::rows_json;
use crate::json::rows_json_bytes;
use crate::json::views_of;
use crate::store::lemma_insert_then_lookup;
use crate::store::lookup_view;
use crate::store::Store;
use crate::store::StoreV;
use crate::text::ascii_bytes_of;
use crate::text::starts_with;
use crate::text::str_bytes;
use crate::types::Response;
use crate::types::ResponseV;
use crate::types::RowV;
use crate::types::Status;

verus! {

/// The generic failure body.
pub open spec fn internal_error_msg() -> Seq<u8> {
    ascii_bytes_of("Internal Error")
}

/// A response whose body is a literal message.
fn text_response(status: Status, msg: &str) -> (r: Response)
    requires
        msg.is_ascii(),
    ensures
        r@.status == status,
        r@.body == ascii_bytes_of(msg),
{
    Response { status, body: str_bytes(msg) }
}

/// What Create owes: a malformed body is refused with the generic failure
/// and no store change; otherwise the pair is inserted under the fresh id
/// and the persisted row comes back serialized; when the id space is
/// exhausted the insert failure is reported and nothing changes.
pub open spec fn post_outcome(req: Seq<u8>, pre: StoreV, post: StoreV, resp: ResponseV) -> bool {
    match parse_user(body_of(req)) {
        None => {
            &&& post == pre
            &&& resp.status == Status::InternalError
            &&& resp.body == internal_error_msg()
        },
        Some(u) => if pre.next_id < i32::MAX {
            &&& post == pre.inserted(u.name, u.email)
            &&& resp.status == Status::Okay
            &&& resp.body == row_json(RowV { id: pre.next_id, name: u.name, email: u.email })
        } else {
            &&& post == pre
            &&& resp.status == Status::InternalError
            &&& resp.body == ascii_bytes_of("Error: the user id space is exhausted")
        },
    }
}

/// Create: decode the body, insert the pair, read the stored row back and
/// return it serialized.
pub fn handle_post_request(request: &[u8], store: &mut Store) -> (r: Response)
    requires
        old(store)@.wf(),
    ensures
        final(store)@.wf(),
        post_outcome(request@, old(store)@, final(store)@, r@),
{
    proof {
        reveal_strlit("Internal Error");
        reveal_strlit("Error: the user id space is exhausted");
    }
    let user = match get_user_request_body(request) {
        Ok(u) => u,
        Err(_) => {
            return text_response(Status::InternalError, "Internal Error");
        },
    };
    let ghost uv = user@;
    let ghost pre = store@;
    match store.insert(user.name, user.email) {
        Some(id) => {
            proof {
                lemma_insert_then_lookup(pre, uv.name, uv.email);
            }
            match store.lookup(id) {
                Some(row) => {
                    let body = row_json_bytes(&row);
                    Response { status: Status::Okay, body }
                },
                None => {
                    // the freshly inserted row is always found
                    assert(false);
                    Response { status: Status::InternalError, body: Vec::new() }
                },
            }
        },
        None => text_response(Status::InternalError, "Error: the user id space is exhausted"),
    }
}

/// What ReadOne owes: an id that does not parse is the generic failure; a
/// missing row is the not-found response; a present row comes back
/// serialized. The store is never changed.
pub open spec fn get_outcome(req: Seq<u8>, s: StoreV, resp: ResponseV) -> bool {
    match parse_i32(spec_user_id(req)) {
        None => resp.status == Status::InternalError && resp.body == internal_error_msg(),
        Some(id) => match lookup_view(s.rows, id) {
            Some(row) => resp.status == Status::Okay && resp.body == row_json(row),
            None => resp.status == Status::NotFound && resp.body == ascii_bytes_of(
                "404 NOT FOUND",
            ),
        },
    }
}

/// ReadOne: parse the trailing id and fetch that row.
pub fn handle_get_request(request: &[u8], store: &Store) -> (r: Response)
    ensures
        get_outcome(request@, store@, r@),
{
    proof {
        reveal_strlit("Internal Error");
        reveal_strlit("404 NOT FOUND");
    }
    let seg = get_user_id(request);
    let id = match parse_i32_bytes(seg.as_slice()) {
        Some(id) => id,
        None => {
            return text_response(Status::InternalError, "Internal Error");
        },
    };
    match store.lookup(id) {
        Some(row) => Response { status: Status::Okay, body: row_json_bytes(&row) },
        None => text_response(Status::NotFound, "404 NOT FOUND"),
    }
}

/// What ReadAll owes: every persisted row, serialized as one JSON array in
/// insertion order. The store is never changed.
pub open spec fn get_all_outcome(s: StoreV, resp: ResponseV) -> bool {
    resp.status == Status::Okay && resp.body == rows_json(s.rows)
}

/// ReadAll: serialize every persisted row; the id segment is ignored.
pub fn handle_get_all_request(_request: &[u8], store: &Store) -> (r: Response)
    ensures
        get_all_outcome(store@, r@),
{
    let rows = store.rows();
    proof {
        assert(views_of(rows@) =~= store@.rows);
    }
    let body = rows_json_bytes(rows);
    Response { status: Status::Okay, body }
}

/// What Update owes: with a parsed id and a decoded body the row with that
/// id, if any, takes the new pair, and success is reported whether or not a
/// row was there; either parse failing is the generic failure and no store
/// change.
pub open spec fn put_outcome(req: Seq<u8>, pre: StoreV, post: StoreV, resp: ResponseV) -> bool {
    match (parse_i32(spec_user_id(req)), parse_user(body_of(req))) {
        (Some(id), Some(u)) => {
            &&& post == pre.updated(id, u.name, u.email)
            &&& resp.status == Status::Okay
            &&& resp.body == ascii_bytes_of("User updated successfully")
        },
        _ => {
            &&& post == pre
            &&& resp.status == Status::InternalError
            &&& resp.body == internal_error_msg()
        },
    }
}

/// Update: parse the trailing id and the body, then overwrite the pair of
/// the row with that id, a no-op on a missing id.
pub fn handle_put_request(request: &[u8], store: &mut Store) -> (r: Response)
    requires
        old(store)@.wf(),
    ensures
        final(store)@.wf(),
        put_outcome(request@, old(store)@, final(store)@, r@),
{
    proof {
        reveal_strlit("Internal Error");
        reveal_strlit("User updated successfully");
    }
    let seg = get_user_id(request);
    let id_opt = parse_i32_bytes(seg.as_slice());
    let body_res = get_user_request_body(request);
    match (id_opt, body_res) {
        (Some(id), Ok(u)) => {
            store.update(id, u.name.as_slice(), u.email.as_slice());
            text_response(Status::Okay, "User updated successfully")
        },
        _ => text_response(Status::InternalError, "Internal Error"),
    }
}

/// What Delete owes: with a parsed id the row with that id, if any, leaves
/// the store, and success is reported whether or not a row was there; an id
/// that does not parse is refused with its own message and no store change.
pub open spec fn delete_outcome(req: Seq<u8>, pre: StoreV, post: StoreV, resp: ResponseV) -> bool {
    match parse_i32(spec_user_id(req)) {
        Some(id) => {
            &&& post == pre.deleted(id)
            &&& resp.status == Status::Okay
            &&& resp.body == ascii_bytes_of("User deleted successfully")
        },
        None => {
            &&& post == pre
            &&& resp.status == Status::InternalError
            &&& resp.body == ascii_bytes_of("Unable to delete user")
        },
    }
}

/// Delete: parse the trailing id and remove that row, a no-op on a missing
/// id.
pub fn handle_delete_request(request: &[u8], store: &mut Store) -> (r: Response)
    requires
        old(store)@.wf(),
    ensures
        final(store)@.wf(),
        delete_outcome(request@, old(store)@, final(store)@, r@),
{
    proof {
        reveal_strlit("Unable to delete user");
        reveal_strlit("User deleted successfully");
    }
    let seg = get_user_id(request);
    match parse_i32_bytes(seg.as_slice()) {
        Some(id) => {
            store.delete(id);
            text_response(Status::Okay, "User deleted successfully")
        },
        None => text_response(Status::InternalError, "Unable to delete user"),
    }
}

/// What one request is owed, route by route, in the priority order the
/// routes are tried: the preflight answer, the five handlers, and the
/// not-found answer for everything else.
pub open spec fn request_outcome(req: Seq<u8>, pre: StoreV, post: StoreV, resp: ResponseV) -> bool {
    if is_options(req) {
        post == pre && resp.status == Status::Okay && resp.body =~= Seq::<u8>::empty()
    } else if is_post_route(req) {
        post_outcome(req, pre, post, resp)
    } else if is_get_one_route(req) {
        post == pre && get_outcome(req, pre, resp)
    } else if is_get_all_route(req) {
        post == pre && get_all_outcome(pre, resp)
    } else if is_put_route(req) {
        put_outcome(req, pre, post, resp)
    } else if is_delete_route(req) {
        delete_outcome(req, pre, post, resp)
    } else {
        &&& post == pre
        &&& resp.status == Status::NotFound
        &&& resp.body == ascii_bytes_of("This route does not exists on our service")
    }
}

/// Routes one request to its handler, as `request_outcome` describes.
pub fn handle_request(request: &[u8], store: &mut Store) -> (r: Response)
    requires
        old(store)@.wf(),
    ensures
        final(store)@.wf(),
        request_outcome(request@, old(store)@, final(store)@, r@),
{
    proof {
        reveal_strlit("OPTIONS");
        reveal_strlit("POST");
        reveal_strlit("GET");
        reveal_strlit("PUT");
        reveal_strlit("DELETE");
        reveal_strlit("This route does not exists on our service");
    }
    let options_pat = str_bytes("OPTIONS");
    if starts_with(request, options_pat.as_slice()) {
        return Response { status: Status::Okay, body: Vec::new() };
    }
    if users_tail_bytes(request, "POST").is_some() {
        return handle_post_request(request, store);
    }
    match users_tail_bytes(request, "GET") {
        Some(t) => {
            if t < request.len() && request[t] == 47 {
                return handle_get_request(request, &*store);
            }
            return handle_get_all_request(request, &*store);
        },
        None => {},
    }
    match users_tail_bytes(request, "PUT") {
        Some(t) => {
            if t < request.len() && request[t] == 47 {
                return handle_put_request(request, store);
            }
        },
        None => {},
    }
    match users_tail_bytes(request, "DELETE") {
        Some(t) => {
            if t < request.len() && request[t] == 47 {
                return handle_delete_request(request, store);
            }
        },
        None => {},
    }
    text_response(Status::NotFound, "This route does not exists on our service")
}

} // verus!
