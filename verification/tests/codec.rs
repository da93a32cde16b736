//! Codec-level tests: the JSON encoding of users and rows, the body
//! decoder, the id segment of the request line, and the decimal id parse.

use backend::body::get_user_request_body;
use backend::body::parse_user_bytes;
use backend::http::get_user_id;
use backend::http::parse_i32_bytes;
use backend::json::rows_json_bytes;
use backend::json::user_json_bytes;
use backend::types::Row;
use backend::types::User;

fn user(id: Option<i32>, name: &str, email: &str) -> User {
    User { id, name: name.as_bytes().to_vec(), email: email.as_bytes().to_vec() }
}

#[test]
fn encodes_a_plain_user() {
    let u = user(Some(1), "Ana", "ana@x.com");
    assert_eq!(
        user_json_bytes(&u),
        b"{\"id\":1,\"name\":\"Ana\",\"email\":\"ana@x.com\"}".to_vec()
    );
}

#[test]
fn encodes_a_missing_id_as_null() {
    let u = user(None, "A", "a@x");
    assert_eq!(user_json_bytes(&u), b"{\"id\":null,\"name\":\"A\",\"email\":\"a@x\"}".to_vec());
}

#[test]
fn encodes_negative_and_extreme_ids() {
    assert_eq!(
        user_json_bytes(&user(Some(-12), "A", "a")),
        b"{\"id\":-12,\"name\":\"A\",\"email\":\"a\"}".to_vec()
    );
    assert_eq!(
        user_json_bytes(&user(Some(i32::MIN), "A", "a")),
        b"{\"id\":-2147483648,\"name\":\"A\",\"email\":\"a\"}".to_vec()
    );
    assert_eq!(
        user_json_bytes(&user(Some(i32::MAX), "A", "a")),
        b"{\"id\":2147483647,\"name\":\"A\",\"email\":\"a\"}".to_vec()
    );
}

#[test]
fn escapes_string_content() {
    let u = user(Some(1), "a\"b\\c\nd\te\r", "x\u{0001}y");
    assert_eq!(
        user_json_bytes(&u),
        b"{\"id\":1,\"name\":\"a\\\"b\\\\c\\nd\\te\\r\",\"email\":\"x\\u0001y\"}".to_vec()
    );
}

#[test]
fn encodes_rows_as_an_array() {
    let rows = vec![
        Row { id: 1, name: b"A".to_vec(), email: b"a@x".to_vec() },
        Row { id: 2, name: b"B".to_vec(), email: b"b@x".to_vec() },
    ];
    assert_eq!(
        rows_json_bytes(&rows),
        b"[{\"id\":1,\"name\":\"A\",\"email\":\"a@x\"},{\"id\":2,\"name\":\"B\",\"email\":\"b@x\"}]".to_vec()
    );
    let empty: Vec<Row> = Vec::new();
    assert_eq!(rows_json_bytes(&empty), b"[]".to_vec());
}

fn parsed(s: &str) -> Option<User> {
    parse_user_bytes(s.as_bytes())
}

#[test]
fn decodes_a_creation_payload() {
    let u = parsed("{\"name\":\"Ana\",\"email\":\"ana@x.com\"}").unwrap();
    assert_eq!(u.id, None);
    assert_eq!(u.name, b"Ana".to_vec());
    assert_eq!(u.email, b"ana@x.com".to_vec());
}

#[test]
fn decodes_members_in_any_order_with_whitespace() {
    let u = parsed(" { \"email\" : \"e\" , \"id\" : 7 , \"name\" : \"n\" } ").unwrap();
    assert_eq!(u.id, Some(7));
    assert_eq!(u.name, b"n".to_vec());
    assert_eq!(u.email, b"e".to_vec());
}

#[test]
fn decodes_a_null_id_as_absent() {
    let u = parsed("{\"id\":null,\"name\":\"n\",\"email\":\"e\"}").unwrap();
    assert_eq!(u.id, None);
}

#[test]
fn decodes_escape_sequences() {
    let u = parsed("{\"name\":\"a\\\"b\\\\c\\/d\\n\\t\\u0041\\u00e9\\u20ac\",\"email\":\"e\"}")
        .unwrap();
    assert_eq!(u.name, "a\"b\\c/d\n\tA\u{e9}\u{20ac}".as_bytes().to_vec());
}

#[test]
fn rejects_bodies_that_are_not_one_user_object() {
    assert!(parsed("").is_none());
    assert!(parsed("   ").is_none());
    assert!(parsed("{}").is_none());
    assert!(parsed("{\"name\":\"n\"}").is_none());
    assert!(parsed("{\"email\":\"e\"}").is_none());
    assert!(parsed("{\"name\":\"n\",\"email\":\"e\"").is_none());
    assert!(parsed("{\"name\":\"n\",\"email\":\"e\"} trailing").is_none());
    assert!(parsed("{\"name\":\"n\",\"email\":\"e\",\"other\":1}").is_none());
    assert!(parsed("{\"name\":\"n\",\"name\":\"m\",\"email\":\"e\"}").is_none());
    assert!(parsed("{\"name\":1,\"email\":\"e\"}").is_none());
    assert!(parsed("{\"id\":1.5,\"name\":\"n\",\"email\":\"e\"}").is_none());
    assert!(parsed("{\"id\":1e3,\"name\":\"n\",\"email\":\"e\"}").is_none());
    assert!(parsed("{\"id\":2147483648,\"name\":\"n\",\"email\":\"e\"}").is_none());
    assert!(parsed("{\"id\":007,\"name\":\"n\",\"email\":\"e\"}").is_none());
    assert!(parsed("{\"name\":\"\\ud834\\udd1e\",\"email\":\"e\"}").is_none());
    assert!(parsed("[{\"name\":\"n\",\"email\":\"e\"}]").is_none());
}

#[test]
fn body_is_what_follows_the_last_blank_line() {
    let req = b"POST /api/x/users HTTP/1.1\r\nHost: h\r\n\r\n{\"name\":\"n\",\"email\":\"e\"}";
    let u = get_user_request_body(req).unwrap();
    assert_eq!(u.name, b"n".to_vec());
    // with no separator the whole request is the body
    assert!(get_user_request_body(b"GET /api/x/users HTTP/1.1").is_err());
    let ok = get_user_request_body(b"{\"name\":\"n\",\"email\":\"e\"}");
    assert!(ok.is_ok());
}

#[test]
fn id_segment_comes_from_the_request_line() {
    assert_eq!(get_user_id(b"GET /api/rust/users/42 HTTP/1.1\r\n\r\n"), b"42".to_vec());
    assert_eq!(get_user_id(b"DELETE /api/x/users/7/extra HTTP/1.1"), b"7".to_vec());
    // without a fifth path segment the version tail is what follows the
    // fourth slash, as splitting the raw line on slashes gives
    assert_eq!(get_user_id(b"GET /api/x/users HTTP/1.1"), b"1.1".to_vec());
    assert_eq!(get_user_id(b"GET /api/x/users"), b"".to_vec());
    assert_eq!(get_user_id(b"no slashes at all"), b"".to_vec());
}

#[test]
fn parses_decimal_ids() {
    assert_eq!(parse_i32_bytes(b"123"), Some(123));
    assert_eq!(parse_i32_bytes(b"+45"), Some(45));
    assert_eq!(parse_i32_bytes(b"-7"), Some(-7));
    assert_eq!(parse_i32_bytes(b"007"), Some(7));
    assert_eq!(parse_i32_bytes(b"2147483647"), Some(i32::MAX));
    assert_eq!(parse_i32_bytes(b"-2147483648"), Some(i32::MIN));
    assert_eq!(parse_i32_bytes(b"2147483648"), None);
    assert_eq!(parse_i32_bytes(b"-2147483649"), None);
    assert_eq!(parse_i32_bytes(b"99999999999999999999"), None);
    assert_eq!(parse_i32_bytes(b""), None);
    assert_eq!(parse_i32_bytes(b"-"), None);
    assert_eq!(parse_i32_bytes(b"12a"), None);
    assert_eq!(parse_i32_bytes(b" 1"), None);
}
