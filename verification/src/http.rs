//! The HTTP view of a request and a response: pulling the id segment out of
//! the request line, parsing it as a decimal id, matching the request line
//! against the five routes, and encoding a response as status line plus
//! body.

use vstd::prelude::*;
use crate::body::digits_val;
use crate::body::is_digit;
use crate::body::lemma_digits_val_nonneg;
use crate::text::ascii_bytes_of;
use crate::text::find_byte;
use crate::text::find_byte_from;
use crate::text::is_ws;
use crate::text::lemma_find_byte;
use crate::text::matches_at;
use crate::text::starts_with;
use crate::text::str_bytes;
use crate::types::Response;
use crate::types::ResponseV;
use crate::types::Status;

verus! {

/// The position just after the `k`-th slash at or after `i`, if the text
/// holds that many.
pub open spec fn pos_after_slashes(s: Seq<u8>, i: int, k: nat) -> Option<int>
    decreases k,
{
    if k == 0 {
        Some(i)
    } else {
        match find_byte(s, i, 47) {
            Some(j) => pos_after_slashes(s, j + 1, (k - 1) as nat),
            None => None,
        }
    }
}

/// The first position in `[i, end)` holding no whitespace.
pub open spec fn skip_ws_upto(s: Seq<u8>, i: int, end: int) -> int
    decreases end - i,
{
    if i < end && 0 <= i < s.len() && is_ws(s[i]) {
        skip_ws_upto(s, i + 1, end)
    } else {
        i
    }
}

/// The end of the whitespace-free token starting at `i`, within `[i, end)`.
pub open spec fn token_end(s: Seq<u8>, i: int, end: int) -> int
    decreases end - i,
{
    if i < end && 0 <= i < s.len() && !is_ws(s[i]) {
        token_end(s, i + 1, end)
    } else {
        i
    }
}

/// The id segment of the request line: the text after the fourth slash up
/// to the next slash or the end, leading whitespace dropped, cut at the
/// first whitespace; empty when the path has no such segment.
pub open spec fn spec_user_id(s: Seq<u8>) -> Seq<u8> {
    match pos_after_slashes(s, 0, 4) {
        None => Seq::empty(),
        Some(st) => {
            let end = match find_byte(s, st, 47) {
                Some(j) => j,
                None => s.len() as int,
            };
            let a = skip_ws_upto(s, st, end);
            let b = token_end(s, a, end);
            s.subrange(a, b)
        },
    }
}

/// Pulls the id segment out of the request line, as `spec_user_id`
/// describes.
pub fn get_user_id(request: &[u8]) -> (r: Vec<u8>)
    ensures
        r@ == spec_user_id(request@),
{
    let mut pos: usize = 0;
    let mut k: usize = 0;
    while k < 4
        invariant
            0 <= k <= 4,
            pos <= request@.len(),
            pos_after_slashes(request@, 0, 4) == pos_after_slashes(
                request@,
                pos as int,
                (4 - k) as nat,
            ),
        decreases 4 - k,
    {
        proof {
            lemma_find_byte(request@, pos as int, 47);
        }
        match find_byte_from(request, pos, 47) {
            Some(j) => {
                assert(j < request@.len());
                assert(request@.len() == request.len());
                pos = j + 1;
            },
            None => {
                return Vec::new();
            },
        }
        k = k + 1;
    }
    assert(pos_after_slashes(request@, 0, 4) == Some(pos as int));
    let end = match find_byte_from(request, pos, 47) {
        Some(j) => {
            proof {
                lemma_find_byte(request@, pos as int, 47);
            }
            j
        },
        None => request.len(),
    };
    let mut a = pos;
    while a < end && crate::text::is_ws_byte(request[a])
        invariant
            pos <= a <= end <= request@.len(),
            skip_ws_upto(request@, pos as int, end as int) == skip_ws_upto(
                request@,
                a as int,
                end as int,
            ),
        decreases end - a,
    {
        a = a + 1;
    }
    assert(skip_ws_upto(request@, pos as int, end as int) == a as int);
    let mut b = a;
    while b < end && !crate::text::is_ws_byte(request[b])
        invariant
            a <= b <= end <= request@.len(),
            token_end(request@, a as int, end as int) == token_end(
                request@,
                b as int,
                end as int,
            ),
        decreases end - b,
    {
        b = b + 1;
    }
    assert(token_end(request@, a as int, end as int) == b as int);
    let seg = vstd::slice::slice_subrange(request, a, b);
    vstd::slice::slice_to_vec(seg)
}

/// The decimal id a segment denotes: an optional sign, then digits only,
/// the value within the range of an `i32`.
pub open spec fn parse_i32(s: Seq<u8>) -> Option<i32> {
    let d0: int = if s.len() > 0 && (s[0] == 43 || s[0] == 45) {
        1
    } else {
        0
    };
    if s.len() <= d0 {
        None
    } else if exists|k: int| d0 <= k < s.len() && !is_digit(#[trigger] s[k]) {
        None
    } else {
        let v = if s[0] == 45 {
            -digits_val(s, d0, s.len() as int)
        } else {
            digits_val(s, d0, s.len() as int)
        };
        if i32::MIN <= v <= i32::MAX {
            Some(v as i32)
        } else {
            None
        }
    }
}

/// Parses a decimal id, as `parse_i32` describes.
pub fn parse_i32_bytes(s: &[u8]) -> (r: Option<i32>)
    ensures
        r == parse_i32(s@),
{
    let d0: usize = if s.len() > 0 && (s[0] == 43 || s[0] == 45) {
        1
    } else {
        0
    };
    if s.len() <= d0 {
        return None;
    }
    let neg = s[0] == 45;
    let mut acc: u64 = 0;
    let mut big = false;
    let mut k = d0;
    while k < s.len()
        invariant
            d0 <= k <= s@.len(),
            d0 == (if s@.len() > 0 && (s@[0] == 43 || s@[0] == 45) { 1int } else { 0int }),
            forall|m: int| d0 <= m < k ==> is_digit(#[trigger] s@[m]),
            !big ==> acc == digits_val(s@, d0 as int, k as int) && acc <= 2147483649,
            big ==> digits_val(s@, d0 as int, k as int) >= 2147483649,
        decreases s@.len() - k,
    {
        if !(48 <= s[k] && s[k] <= 57) {
            assert(!is_digit(s@[k as int]));
            assert(exists|m: int| d0 <= m < s@.len() && !is_digit(#[trigger] s@[m]));
            assert(parse_i32(s@) is None);
            return None;
        }
        let d = s[k] - 48;
        proof {
            lemma_digits_val_nonneg(s@, d0 as int, k as int);
        }
        if big || acc > 214748364 {
            proof {
                if !big {
                    assert(digits_val(s@, d0 as int, k + 1) == acc * 10 + d);
                }
            }
            big = true;
        } else {
            acc = acc * 10 + (d as u64);
        }
        k = k + 1;
    }
    assert(forall|m: int| d0 <= m < s@.len() ==> is_digit(#[trigger] s@[m]));
    let ghost value: int = if neg {
        -digits_val(s@, d0 as int, s@.len() as int)
    } else {
        digits_val(s@, d0 as int, s@.len() as int)
    };
    if big {
        return None;
    }
    if neg {
        if acc > 2147483648 {
            return None;
        }
        Some((-(acc as i64)) as i32)
    } else {
        if acc > 2147483647 {
            return None;
        }
        Some(acc as i32)
    }
}

/// The index just past `users` when the request line starts with
/// `<method> /api/<segment>/users`, the segment holding no slash.
pub open spec fn users_tail(r: Seq<u8>, method: &str) -> Option<int> {
    let p = ascii_bytes_of(method) + ascii_bytes_of(" /api/");
    if !p.is_prefix_of(r) {
        None
    } else {
        match find_byte(r, p.len() as int, 47) {
            None => None,
            Some(j) => if ascii_bytes_of("/users").is_prefix_of(r.skip(j)) {
                Some(j + 6)
            } else {
                None
            },
        }
    }
}

/// Matches the request line against `<method> /api/<segment>/users`, as
/// `users_tail` describes.
pub fn users_tail_bytes(request: &[u8], method: &str) -> (r: Option<usize>)
    requires
        method.is_ascii(),
    ensures
        match r {
            Some(t) => users_tail(request@, method) == Some(t as int) && t <= request@.len(),
            None => users_tail(request@, method) is None,
        },
{
    proof {
        reveal_strlit(" /api/");
        reveal_strlit("/users");
    }
    let mut p = str_bytes(method);
    let mut tail = str_bytes(" /api/");
    p.append(&mut tail);
    assert(p@ =~= ascii_bytes_of(method) + ascii_bytes_of(" /api/"));
    if !starts_with(request, p.as_slice()) {
        return None;
    }
    assert(p@.len() <= request@.len());
    proof {
        lemma_find_byte(request@, p@.len() as int, 47);
    }
    let j = match find_byte_from(request, p.len(), 47) {
        Some(j) => j,
        None => {
            return None;
        },
    };
    let users = str_bytes("/users");
    if matches_at(request, j, users.as_slice()) {
        assert(ascii_bytes_of("/users").len() == 6);
        assert(j + 6 <= request@.len()) by {
            assert(ascii_bytes_of("/users").is_prefix_of(request@.skip(j as int)));
        }
        assert(request@.len() == request.len());
        Some(j + 6)
    } else {
        None
    }
}

/// The OPTIONS preflight route: the request line starts with the word.
pub open spec fn is_options(r: Seq<u8>) -> bool {
    ascii_bytes_of("OPTIONS").is_prefix_of(r)
}

/// The Create route: `POST /api/<segment>/users`.
pub open spec fn is_post_route(r: Seq<u8>) -> bool {
    users_tail(r, "POST") is Some
}

/// The ReadOne route: `GET /api/<segment>/users/`.
pub open spec fn is_get_one_route(r: Seq<u8>) -> bool {
    match users_tail(r, "GET") {
        Some(t) => t < r.len() && r[t] == 47,
        None => false,
    }
}

/// The ReadAll route: `GET /api/<segment>/users` without a trailing slash.
pub open spec fn is_get_all_route(r: Seq<u8>) -> bool {
    users_tail(r, "GET") is Some
}

/// The Update route: `PUT /api/<segment>/users/`.
pub open spec fn is_put_route(r: Seq<u8>) -> bool {
    match users_tail(r, "PUT") {
        Some(t) => t < r.len() && r[t] == 47,
        None => false,
    }
}

/// The Delete route: `DELETE /api/<segment>/users/`.
pub open spec fn is_delete_route(r: Seq<u8>) -> bool {
    match users_tail(r, "DELETE") {
        Some(t) => t < r.len() && r[t] == 47,
        None => false,
    }
}

/// The status line for each outcome; the successful one carries the
/// content type and the permissive cross-origin headers.
pub open spec fn status_line(st: Status) -> Seq<u8> {
    match st {
        Status::Okay => ascii_bytes_of(
            "HTTP/1.1 200 OK\r\nContent-Type: application/json\r\nAccess-Control-Allow-Origin: *\r\nAccess-Control-Allow-Methods: GET, POST, PUT, DELETE\r\nAccess-Control-Allow-Headers: Content-Type\r\n\r\n",
        ),
        Status::NotFound => ascii_bytes_of("HTTP/1.1 404 NOT FOUND\r\n\r\n"),
        Status::InternalError => ascii_bytes_of("HTTP/1.1 500 INTERNAL ERROR\r\n\r\n"),
    }
}

/// The bytes written back on the connection: the status line, then the
/// body, nothing more.
pub open spec fn response_wire(r: ResponseV) -> Seq<u8> {
    status_line(r.status) + r.body
}

/// Encodes a response for the wire, as `response_wire` describes.
pub fn encode_response(r: &Response) -> (out: Vec<u8>)
    ensures
        out@ == response_wire(r@),
{
    let mut out: Vec<u8> = match r.status {
        Status::Okay => {
            proof {
                reveal_strlit(
                    "HTTP/1.1 200 OK\r\nContent-Type: application/json\r\nAccess-Control-Allow-Origin: *\r\nAccess-Control-Allow-Methods: GET, POST, PUT, DELETE\r\nAccess-Control-Allow-Headers: Content-Type\r\n\r\n",
                );
            }
            str_bytes(
                "HTTP/1.1 200 OK\r\nContent-Type: application/json\r\nAccess-Control-Allow-Origin: *\r\nAccess-Control-Allow-Methods: GET, POST, PUT, DELETE\r\nAccess-Control-Allow-Headers: Content-Type\r\n\r\n",
            )
        },
        Status::NotFound => {
            proof {
                reveal_strlit("HTTP/1.1 404 NOT FOUND\r\n\r\n");
            }
            str_bytes("HTTP/1.1 404 NOT FOUND\r\n\r\n")
        },
        Status::InternalError => {
            proof {
                reveal_strlit("HTTP/1.1 500 INTERNAL ERROR\r\n\r\n");
            }
            str_bytes("HTTP/1.1 500 INTERNAL ERROR\r\n\r\n")
        },
    };
    out.extend_from_slice(r.body.as_slice());
    assert(out@ =~= response_wire(r@));
    out
}

} // verus!
