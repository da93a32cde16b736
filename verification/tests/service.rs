//! Request-level tests: each one drives `handle_request` against a fresh
//! model store and checks the exact status and body bytes.

use backend::handlers::handle_request;
use backend::http::encode_response;
use backend::store::Store;
use backend::types::Response;
use backend::types::Status;

fn post(store: &mut Store, body: &str) -> Response {
    let mut req = b"POST /api/x/users HTTP/1.1\r\nHost: h\r\n\r\n".to_vec();
    req.extend_from_slice(body.as_bytes());
    handle_request(&req, store)
}

fn get_one(store: &mut Store, id: &str) -> Response {
    let req = format!("GET /api/x/users/{} HTTP/1.1\r\nHost: h\r\n\r\n", id);
    handle_request(req.as_bytes(), store)
}

fn get_all(store: &mut Store) -> Response {
    handle_request(b"GET /api/x/users HTTP/1.1\r\nHost: h\r\n\r\n", store)
}

fn put(store: &mut Store, id: &str, body: &str) -> Response {
    let mut req = format!("PUT /api/x/users/{} HTTP/1.1\r\nHost: h\r\n\r\n", id).into_bytes();
    req.extend_from_slice(body.as_bytes());
    handle_request(&req, store)
}

fn delete(store: &mut Store, id: &str) -> Response {
    let req = format!("DELETE /api/x/users/{} HTTP/1.1\r\nHost: h\r\n\r\n", id);
    handle_request(req.as_bytes(), store)
}

#[test]
fn scenario_full_lifecycle() {
    let mut store = Store::new();
    let r = post(&mut store, "{\"name\":\"Ana\",\"email\":\"ana@x.com\"}");
    assert!(r.status == Status::Okay);
    assert_eq!(r.body, b"{\"id\":1,\"name\":\"Ana\",\"email\":\"ana@x.com\"}".to_vec());

    let r = get_one(&mut store, "1");
    assert!(r.status == Status::Okay);
    assert_eq!(r.body, b"{\"id\":1,\"name\":\"Ana\",\"email\":\"ana@x.com\"}".to_vec());

    let r = put(&mut store, "1", "{\"name\":\"Ana B\",\"email\":\"ana@x.com\"}");
    assert!(r.status == Status::Okay);
    assert_eq!(r.body, b"User updated successfully".to_vec());

    let r = get_one(&mut store, "1");
    assert!(r.status == Status::Okay);
    assert_eq!(r.body, b"{\"id\":1,\"name\":\"Ana B\",\"email\":\"ana@x.com\"}".to_vec());

    let r = delete(&mut store, "1");
    assert!(r.status == Status::Okay);
    assert_eq!(r.body, b"User deleted successfully".to_vec());

    let r = get_one(&mut store, "1");
    assert!(r.status == Status::NotFound);
    assert_eq!(r.body, b"404 NOT FOUND".to_vec());
}

#[test]
fn read_one_never_created_is_not_found() {
    let mut store = Store::new();
    let r = get_one(&mut store, "7");
    assert!(r.status == Status::NotFound);
    assert_eq!(r.body, b"404 NOT FOUND".to_vec());
}

#[test]
fn read_all_tracks_creates_and_deletes() {
    let mut store = Store::new();
    let r = get_all(&mut store);
    assert!(r.status == Status::Okay);
    assert_eq!(r.body, b"[]".to_vec());

    post(&mut store, "{\"name\":\"A\",\"email\":\"a@x\"}");
    post(&mut store, "{\"name\":\"B\",\"email\":\"b@x\"}");
    post(&mut store, "{\"name\":\"C\",\"email\":\"c@x\"}");
    let r = get_all(&mut store);
    assert_eq!(
        r.body,
        b"[{\"id\":1,\"name\":\"A\",\"email\":\"a@x\"},{\"id\":2,\"name\":\"B\",\"email\":\"b@x\"},{\"id\":3,\"name\":\"C\",\"email\":\"c@x\"}]".to_vec()
    );

    delete(&mut store, "2");
    let r = get_all(&mut store);
    assert_eq!(
        r.body,
        b"[{\"id\":1,\"name\":\"A\",\"email\":\"a@x\"},{\"id\":3,\"name\":\"C\",\"email\":\"c@x\"}]".to_vec()
    );
}

#[test]
fn serial_ids_are_not_reused() {
    let mut store = Store::new();
    post(&mut store, "{\"name\":\"A\",\"email\":\"a@x\"}");
    delete(&mut store, "1");
    let r = post(&mut store, "{\"name\":\"B\",\"email\":\"b@x\"}");
    assert_eq!(r.body, b"{\"id\":2,\"name\":\"B\",\"email\":\"b@x\"}".to_vec());
}

#[test]
fn update_missing_id_reports_success() {
    let mut store = Store::new();
    let r = put(&mut store, "9", "{\"name\":\"N\",\"email\":\"n@x\"}");
    assert!(r.status == Status::Okay);
    assert_eq!(r.body, b"User updated successfully".to_vec());
    let r = get_all(&mut store);
    assert_eq!(r.body, b"[]".to_vec());
}

#[test]
fn delete_missing_id_reports_success() {
    let mut store = Store::new();
    let r = delete(&mut store, "9");
    assert!(r.status == Status::Okay);
    assert_eq!(r.body, b"User deleted successfully".to_vec());
}

#[test]
fn malformed_body_on_create_mutates_nothing() {
    let mut store = Store::new();
    let r = post(&mut store, "{\"name\":\"Ana\"");
    assert!(r.status == Status::InternalError);
    assert_eq!(r.body, b"Internal Error".to_vec());
    let r = get_all(&mut store);
    assert_eq!(r.body, b"[]".to_vec());
}

#[test]
fn malformed_body_on_update_mutates_nothing() {
    let mut store = Store::new();
    post(&mut store, "{\"name\":\"Ana\",\"email\":\"ana@x.com\"}");
    let r = put(&mut store, "1", "not json");
    assert!(r.status == Status::InternalError);
    assert_eq!(r.body, b"Internal Error".to_vec());
    let r = get_one(&mut store, "1");
    assert_eq!(r.body, b"{\"id\":1,\"name\":\"Ana\",\"email\":\"ana@x.com\"}".to_vec());
}

#[test]
fn unparsable_id_on_read_is_internal_error() {
    let mut store = Store::new();
    let r = get_one(&mut store, "abc");
    assert!(r.status == Status::InternalError);
    assert_eq!(r.body, b"Internal Error".to_vec());
}

#[test]
fn unparsable_id_on_delete_has_its_own_message() {
    let mut store = Store::new();
    let r = delete(&mut store, "abc");
    assert!(r.status == Status::InternalError);
    assert_eq!(r.body, b"Unable to delete user".to_vec());
}

#[test]
fn options_preflight_is_empty_ok() {
    let mut store = Store::new();
    let r = handle_request(b"OPTIONS * HTTP/1.1\r\n\r\n", &mut store);
    assert!(r.status == Status::Okay);
    assert!(r.body.is_empty());
}

#[test]
fn unknown_route_is_not_found() {
    let mut store = Store::new();
    for req in [
        &b"PATCH /api/x/users/1 HTTP/1.1\r\n\r\n"[..],
        &b"GET /health HTTP/1.1\r\n\r\n"[..],
        &b"POST /api/x/things HTTP/1.1\r\n\r\n{}"[..],
        &b"garbage"[..],
        &b""[..],
    ] {
        let r = handle_request(req, &mut store);
        assert!(r.status == Status::NotFound);
        assert_eq!(r.body, b"This route does not exists on our service".to_vec());
    }
}

#[test]
fn response_wire_format() {
    let r = Response { status: Status::NotFound, body: b"404 NOT FOUND".to_vec() };
    assert_eq!(
        encode_response(&r),
        b"HTTP/1.1 404 NOT FOUND\r\n\r\n404 NOT FOUND".to_vec()
    );
    let ok = Response { status: Status::Okay, body: b"[]".to_vec() };
    let wire = encode_response(&ok);
    let expected = b"HTTP/1.1 200 OK\r\nContent-Type: application/json\r\nAccess-Control-Allow-Origin: *\r\nAccess-Control-Allow-Methods: GET, POST, PUT, DELETE\r\nAccess-Control-Allow-Headers: Content-Type\r\n\r\n[]".to_vec();
    assert_eq!(wire, expected);
    let err = Response { status: Status::InternalError, body: b"Internal Error".to_vec() };
    assert_eq!(
        encode_response(&err),
        b"HTTP/1.1 500 INTERNAL ERROR\r\n\r\nInternal Error".to_vec()
    );
}
