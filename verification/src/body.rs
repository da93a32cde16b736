//! Parsing a request body into a user: the blank-line separator is located
//! and the tail decoded as a JSON object of the user shape. The grammar
//! accepted here is the JSON object `{"id":..,"name":..,"email":..}` with
//! members in any order, `id` optional or `null`, string escapes including
//! `\uXXXX` for the basic plane, and nothing after the closing brace but
//! whitespace.

use vstd::prelude::*;
use crate::text::ascii_bytes_of;
use crate::text::str_bytes;
use crate::types::User;
use crate::types::UserV;

verus! {

/// The body did not decode to a user.
#[derive(Debug)]
pub struct ParseError;

/// The whitespace bytes JSON allows between tokens.
pub open spec fn is_json_ws(b: u8) -> bool {
    b == 32 || b == 9 || b == 10 || b == 13
}

/// The first position at or after `i` holding no JSON whitespace.
pub open spec fn skip_ws(s: Seq<u8>, i: int) -> int
    decreases s.len() - i,
{
    if 0 <= i < s.len() && is_json_ws(s[i]) {
        skip_ws(s, i + 1)
    } else {
        i
    }
}

/// Skips JSON whitespace from `i`.
pub fn skip_ws_from(s: &[u8], i: usize) -> (r: usize)
    requires
        i <= s@.len(),
    ensures
        r == skip_ws(s@, i as int),
        i <= r <= s@.len(),
{
    let mut p = i;
    while p < s.len() && (s[p] == 32 || s[p] == 9 || s[p] == 10 || s[p] == 13)
        invariant
            i <= p <= s@.len(),
            skip_ws(s@, i as int) == skip_ws(s@, p as int),
        decreases s@.len() - p,
    {
        p = p + 1;
    }
    p
}

/// The value of one hexadecimal digit byte.
pub open spec fn hex_val(b: u8) -> Option<nat> {
    if 48 <= b <= 57 {
        Some((b - 48) as nat)
    } else if 97 <= b <= 102 {
        Some((b - 87) as nat)
    } else if 65 <= b <= 70 {
        Some((b - 55) as nat)
    } else {
        None
    }
}

/// The code point of the four hexadecimal digits at `i`.
pub open spec fn hex4(s: Seq<u8>, i: int) -> Option<nat>
    recommends
        0 <= i,
        i + 4 <= s.len(),
{
    match (hex_val(s[i]), hex_val(s[i + 1]), hex_val(s[i + 2]), hex_val(s[i + 3])) {
        (Some(a), Some(b), Some(c), Some(d)) => Some(a * 4096 + b * 256 + c * 16 + d),
        _ => None,
    }
}

/// The UTF-8 bytes of a basic-plane code point.
pub open spec fn utf8_of(c: nat) -> Seq<u8>
    recommends
        c < 0x10000,
        !(0xD800 <= c < 0xE000),
{
    if c < 0x80 {
        seq![c as u8]
    } else if c < 0x800 {
        seq![(192 + c / 64) as u8, (128 + c % 64) as u8]
    } else {
        seq![(224 + c / 4096) as u8, (128 + (c / 64) % 64) as u8, (128 + c % 64) as u8]
    }
}

/// Prepends already-decoded content to the rest of a string parse.
pub open spec fn str_prepend(p: Seq<u8>, r: Option<(Seq<u8>, int)>) -> Option<(Seq<u8>, int)> {
    match r {
        Some(t) => Some((p + t.0, t.1)),
        None => None,
    }
}

/// Decodes JSON string content from `i` (just after the opening quote) to
/// the closing quote: the unescaped bytes and the position after the quote.
/// Escapes for code points outside the basic plane (surrogate pairs) are
/// not accepted.
pub open spec fn parse_str_body(s: Seq<u8>, i: int) -> Option<(Seq<u8>, int)>
    decreases s.len() - i,
    when 0 <= i <= s.len()
{
    if i >= s.len() {
        None
    } else if s[i] == 34 {
        Some((Seq::empty(), i + 1))
    } else if s[i] == 92 {
        if i + 1 >= s.len() {
            None
        } else {
            let e = s[i + 1];
            if e == 34 || e == 92 || e == 47 {
                str_prepend(seq![e], parse_str_body(s, i + 2))
            } else if e == 98 {
                str_prepend(seq![8u8], parse_str_body(s, i + 2))
            } else if e == 102 {
                str_prepend(seq![12u8], parse_str_body(s, i + 2))
            } else if e == 110 {
                str_prepend(seq![10u8], parse_str_body(s, i + 2))
            } else if e == 114 {
                str_prepend(seq![13u8], parse_str_body(s, i + 2))
            } else if e == 116 {
                str_prepend(seq![9u8], parse_str_body(s, i + 2))
            } else if e == 117 {
                if i + 6 > s.len() {
                    None
                } else {
                    match hex4(s, i + 2) {
                        Some(c) => if 0xD800 <= c < 0xE000 {
                            None
                        } else {
                            str_prepend(utf8_of(c), parse_str_body(s, i + 6))
                        },
                        None => None,
                    }
                }
            } else {
                None
            }
        }
    } else if s[i] >= 32 {
        str_prepend(seq![s[i]], parse_str_body(s, i + 1))
    } else {
        None
    }
}

/// The value of one hexadecimal digit byte.
fn hex_val_exec(b: u8) -> (r: Option<u8>)
    ensures
        match r {
            Some(v) => hex_val(b) == Some(v as nat) && v < 16,
            None => hex_val(b) is None,
        },
{
    if 48 <= b && b <= 57 {
        Some(b - 48)
    } else if 97 <= b && b <= 102 {
        Some(b - 87)
    } else if 65 <= b && b <= 70 {
        Some(b - 55)
    } else {
        None
    }
}

/// Decodes JSON string content from `i`, as `parse_str_body` describes.
fn parse_str_body_exec(s: &[u8], i: usize) -> (r: Option<(Vec<u8>, usize)>)
    requires
        i <= s@.len(),
    ensures
        match r {
            Some(t) => parse_str_body(s@, i as int) == Some((t.0@, t.1 as int)) && t.1 <= s@.len(),
            None => parse_str_body(s@, i as int) is None,
        },
{
    let mut acc: Vec<u8> = Vec::new();
    let mut p = i;
    loop
        invariant
            i <= p <= s@.len(),
            parse_str_body(s@, i as int) == str_prepend(acc@, parse_str_body(s@, p as int)),
        decreases s@.len() - p,
    {
        if p >= s.len() {
            return None;
        }
        let b = s[p];
        if b == 34 {
            proof {
                assert(acc@ + Seq::<u8>::empty() =~= acc@);
            }
            return Some((acc, p + 1));
        } else if b == 92 {
            if p + 1 >= s.len() {
                return None;
            }
            let e = s[p + 1];
            let ghost before = acc@;
            if e == 34 || e == 92 || e == 47 {
                acc.push(e);
                proof {
                    lemma_prepend_step(before, seq![e], s@, p + 2);
                    assert(before.push(e) =~= before + seq![e]);
                }
                p = p + 2;
            } else if e == 98 || e == 102 || e == 110 || e == 114 || e == 116 {
                let decoded: u8 = if e == 98 {
                    8
                } else if e == 102 {
                    12
                } else if e == 110 {
                    10
                } else if e == 114 {
                    13
                } else {
                    9
                };
                acc.push(decoded);
                proof {
                    lemma_prepend_step(before, seq![decoded], s@, p + 2);
                    assert(before.push(decoded) =~= before + seq![decoded]);
                }
                p = p + 2;
            } else if e == 117 {
                if s.len() - p < 6 {
                    return None;
                }
                let (h0, h1, h2, h3) = (
                    hex_val_exec(s[p + 2]),
                    hex_val_exec(s[p + 3]),
                    hex_val_exec(s[p + 4]),
                    hex_val_exec(s[p + 5]),
                );
                match (h0, h1, h2, h3) {
                    (Some(a), Some(bb), Some(c), Some(d)) => {
                        let code: u32 = (a as u32) * 4096 + (bb as u32) * 256 + (c as u32) * 16 + (
                        d as u32);
                        assert(hex4(s@, p + 2) == Some(code as nat));
                        if 0xD800 <= code && code < 0xE000 {
                            return None;
                        }
                        if code < 0x80 {
                            acc.push(code as u8);
                            proof {
                                assert(before.push((code as nat) as u8) =~= before + utf8_of(
                                    code as nat,
                                ));
                            }
                        } else if code < 0x800 {
                            acc.push((192 + code / 64) as u8);
                            acc.push((128 + code % 64) as u8);
                            proof {
                                assert(before.push(((192 + (code as nat) / 64) as nat) as u8).push(
                                    ((128 + (code as nat) % 64) as nat) as u8,
                                ) =~= before + utf8_of(code as nat));
                            }
                        } else {
                            acc.push((224 + code / 4096) as u8);
                            acc.push((128 + (code / 64) % 64) as u8);
                            acc.push((128 + code % 64) as u8);
                            proof {
                                assert(before.push(((224 + (code as nat) / 4096) as nat) as u8).push(
                                    ((128 + ((code as nat) / 64) % 64) as nat) as u8,
                                ).push(((128 + (code as nat) % 64) as nat) as u8) =~= before
                                    + utf8_of(code as nat));
                            }
                        }
                        proof {
                            lemma_prepend_step(before, utf8_of(code as nat), s@, p + 6);
                        }
                        p = p + 6;
                    },
                    _ => {
                        return None;
                    },
                }
            } else {
                return None;
            }
        } else if b >= 32 {
            let ghost before = acc@;
            acc.push(b);
            proof {
                lemma_prepend_step(before, seq![b], s@, p + 1);
                assert(before.push(b) =~= before + seq![b]);
            }
            p = p + 1;
        } else {
            return None;
        }
    }
}

/// Folding one decoded piece into the accumulated prefix commutes with
/// `str_prepend`.
proof fn lemma_prepend_step(acc: Seq<u8>, piece: Seq<u8>, s: Seq<u8>, next: int)
    requires
        0 <= next <= s.len(),
    ensures
        str_prepend(acc, str_prepend(piece, parse_str_body(s, next))) == str_prepend(
            acc + piece,
            parse_str_body(s, next),
        ),
{
    match parse_str_body(s, next) {
        Some(t) => {
            assert(acc + (piece + t.0) =~= (acc + piece) + t.0);
        },
        None => {},
    }
}

/// A decimal digit byte.
pub open spec fn is_digit(b: u8) -> bool {
    48 <= b <= 57
}

/// The first position at or after `i` holding no digit.
pub open spec fn digit_run_end(s: Seq<u8>, i: int) -> int
    decreases s.len() - i,
{
    if 0 <= i < s.len() && is_digit(s[i]) {
        digit_run_end(s, i + 1)
    } else {
        i
    }
}

/// `digit_run_end` stays within bounds, and the run it delimits holds
/// digits and nothing more.
pub proof fn lemma_digit_run_end(s: Seq<u8>, i: int)
    requires
        0 <= i <= s.len(),
    ensures
        i <= digit_run_end(s, i) <= s.len(),
        forall|k: int| i <= k < digit_run_end(s, i) ==> is_digit(#[trigger] s[k]),
        digit_run_end(s, i) == s.len() || !is_digit(s[digit_run_end(s, i)]),
    decreases s.len() - i,
{
    if i < s.len() && is_digit(s[i]) {
        lemma_digit_run_end(s, i + 1);
    }
}

/// The value of the decimal digits `s[i..j]`, most significant first.
pub open spec fn digits_val(s: Seq<u8>, i: int, j: int) -> int
    decreases j - i,
{
    if j <= i {
        0
    } else {
        digits_val(s, i, j - 1) * 10 + (s[j - 1] - 48)
    }
}

/// A run of digits has a non-negative value.
pub proof fn lemma_digits_val_nonneg(s: Seq<u8>, i: int, j: int)
    requires
        forall|k: int| i <= k < j ==> is_digit(#[trigger] s[k]),
    ensures
        digits_val(s, i, j) >= 0,
    decreases j - i,
{
    if j > i {
        lemma_digits_val_nonneg(s, i, j - 1);
    }
}

/// Extending a digit run never shrinks its value.
pub proof fn lemma_digits_val_grows(s: Seq<u8>, i: int, j: int, j2: int)
    requires
        j <= j2,
        forall|k: int| i <= k < j2 ==> is_digit(#[trigger] s[k]),
    ensures
        digits_val(s, i, j) <= digits_val(s, i, j2),
    decreases j2 - j,
{
    if j < j2 {
        lemma_digits_val_grows(s, i, j, j2 - 1);
        lemma_digits_val_nonneg(s, i, j2 - 1);
    }
}

/// Parses a JSON integer at `i`: an optional minus, digits without a
/// superfluous leading zero, and no fraction or exponent after them.
/// Returns the value and the position after the digits.
pub open spec fn parse_json_int(s: Seq<u8>, i: int) -> Option<(int, int)> {
    let d0 = if i < s.len() && s[i] == 45 {
        i + 1
    } else {
        i
    };
    if !(0 <= d0 < s.len() && is_digit(s[d0])) {
        None
    } else {
        let end = digit_run_end(s, d0);
        if s[d0] == 48 && end > d0 + 1 {
            None
        } else if end < s.len() && (s[end] == 46 || s[end] == 101 || s[end] == 69) {
            None
        } else if i < s.len() && s[i] == 45 {
            Some((-digits_val(s, d0, end), end))
        } else {
            Some((digits_val(s, d0, end), end))
        }
    }
}

/// Parses a JSON integer at `i` into an `i32`; fails where the grammar
/// fails or the value does not fit.
fn parse_json_int_exec(s: &[u8], i: usize) -> (r: Option<(i32, usize)>)
    requires
        i <= s@.len(),
    ensures
        match r {
            Some(t) => parse_json_int(s@, i as int) == Some((t.0 as int, t.1 as int)) && t.1 <= s@.len(),
            None => match parse_json_int(s@, i as int) {
                Some(v) => !(i32::MIN <= v.0 <= i32::MAX),
                None => true,
            },
        },
{
    let neg = i < s.len() && s[i] == 45;
    let d0 = if neg {
        i + 1
    } else {
        i
    };
    if d0 >= s.len() || !(48 <= s[d0] && s[d0] <= 57) {
        return None;
    }
    proof {
        lemma_digit_run_end(s@, d0 as int);
    }
    let ghost end = digit_run_end(s@, d0 as int);
    // find the end of the digit run
    let mut e = d0;
    while e < s.len() && 48 <= s[e] && s[e] <= 57
        invariant
            d0 <= e <= s@.len(),
            digit_run_end(s@, d0 as int) == digit_run_end(s@, e as int),
        decreases s@.len() - e,
    {
        e = e + 1;
    }
    assert(e == end);
    if s[d0] == 48 && e > d0 + 1 {
        return None;
    }
    if e < s.len() && (s[e] == 46 || s[e] == 101 || s[e] == 69) {
        return None;
    }
    // accumulate the value, tracking when it has left the i32 range
    let mut acc: u64 = 0;
    let mut big = false;
    let mut k = d0;
    while k < e
        invariant
            d0 <= k <= e == digit_run_end(s@, d0 as int) <= s@.len(),
            end == digit_run_end(s@, d0 as int),
            forall|m: int| d0 <= m < end ==> is_digit(#[trigger] s@[m]),
            !big ==> acc == digits_val(s@, d0 as int, k as int) && acc <= 2147483649,
            big ==> digits_val(s@, d0 as int, k as int) >= 2147483649,
        decreases e - k,
    {
        let d = s[k] - 48;
        proof {
            lemma_digits_val_nonneg(s@, d0 as int, k as int);
        }
        if big || acc > 214748364 {
            proof {
                if !big {
                    assert(digits_val(s@, d0 as int, k + 1) == acc * 10 + d);
                }
            }
            big = true;
        } else {
            acc = acc * 10 + (d as u64);
        }
        k = k + 1;
    }
    proof {
        lemma_digits_val_grows(s@, d0 as int, k as int, end);
    }
    let ghost value: int = if neg {
        -digits_val(s@, d0 as int, end)
    } else {
        digits_val(s@, d0 as int, end)
    };
    proof {
        assert(parse_json_int(s@, i as int) == Some((value, end)));
    }
    if big {
        return None;
    }
    if neg {
        if acc > 2147483648 {
            return None;
        }
        let v: i32 = (-(acc as i64)) as i32;
        Some((v, e))
    } else {
        if acc > 2147483647 {
            return None;
        }
        let v: i32 = acc as i32;
        Some((v, e))
    }
}

/// The fields gathered while parsing the object's members. Each is `None`
/// until its member has been seen; a seen `id` may itself hold `None` for
/// the JSON value `null`.
pub struct FieldsV {
    pub id: Option<Option<i32>>,
    pub name: Option<Seq<u8>>,
    pub email: Option<Seq<u8>>,
}

/// No member seen yet.
pub open spec fn empty_fields() -> FieldsV {
    FieldsV { id: None, name: None, email: None }
}

/// Executable counterpart of `FieldsV`.
pub struct Fields {
    pub id: Option<Option<i32>>,
    pub name: Option<Vec<u8>>,
    pub email: Option<Vec<u8>>,
}

impl View for Fields {
    type V = FieldsV;

    open spec fn view(&self) -> FieldsV {
        FieldsV {
            id: self.id,
            name: match self.name {
                Some(v) => Some(v@),
                None => None,
            },
            email: match self.email {
                Some(v) => Some(v@),
                None => None,
            },
        }
    }
}

/// Parses one `"key": value` member at `i` into `acc`. Only the three user
/// members are accepted, each at most once; `id` takes an integer or
/// `null`, the other two take strings.
pub open spec fn parse_member(s: Seq<u8>, i: int, acc: FieldsV) -> Option<(FieldsV, int)>
    recommends
        0 <= i <= s.len(),
{
    if !(0 <= i < s.len() && s[i] == 34) {
        None
    } else {
        match parse_str_body(s, i + 1) {
            None => None,
            Some(kt) => {
                let k = skip_ws(s, kt.1);
                if !(k < s.len() && s[k] == 58) {
                    None
                } else {
                    let v = skip_ws(s, k + 1);
                    if kt.0 == ascii_bytes_of("name") {
                        if acc.name is Some {
                            None
                        } else if v < s.len() && s[v] == 34 {
                            match parse_str_body(s, v + 1) {
                                Some(t) => Some(
                                    (FieldsV { id: acc.id, name: Some(t.0), email: acc.email }, t.1),
                                ),
                                None => None,
                            }
                        } else {
                            None
                        }
                    } else if kt.0 == ascii_bytes_of("email") {
                        if acc.email is Some {
                            None
                        } else if v < s.len() && s[v] == 34 {
                            match parse_str_body(s, v + 1) {
                                Some(t) => Some(
                                    (FieldsV { id: acc.id, name: acc.name, email: Some(t.0) }, t.1),
                                ),
                                None => None,
                            }
                        } else {
                            None
                        }
                    } else if kt.0 == ascii_bytes_of("id") {
                        if acc.id is Some {
                            None
                        } else if v < s.len() && s[v] == 110 {
                            if ascii_bytes_of("null").is_prefix_of(s.skip(v)) {
                                Some(
                                    (
                                        FieldsV {
                                            id: Some(None),
                                            name: acc.name,
                                            email: acc.email,
                                        },
                                        v + 4,
                                    ),
                                )
                            } else {
                                None
                            }
                        } else {
                            match parse_json_int(s, v) {
                                Some(t) => if i32::MIN <= t.0 <= i32::MAX {
                                    Some(
                                        (
                                            FieldsV {
                                                id: Some(Some(t.0 as i32)),
                                                name: acc.name,
                                                email: acc.email,
                                            },
                                            t.1,
                                        ),
                                    )
                                } else {
                                    None
                                },
                                None => None,
                            }
                        }
                    } else {
                        None
                    }
                }
            },
        }
    }
}

/// Parses members separated by commas until the closing brace. An object of
/// the user shape has at most three members, so the recursion is fuelled:
/// any longer member list repeats or strays and would be refused anyway.
pub open spec fn parse_members(s: Seq<u8>, i: int, acc: FieldsV, fuel: nat) -> Option<
    (FieldsV, int),
>
    decreases fuel,
{
    match parse_member(s, i, acc) {
        None => None,
        Some(t) => {
            let u = skip_ws(s, t.1);
            if u < s.len() && s[u] == 125 {
                Some((t.0, u + 1))
            } else if u < s.len() && s[u] == 44 {
                if fuel == 0 {
                    None
                } else {
                    parse_members(s, skip_ws(s, u + 1), t.0, (fuel - 1) as nat)
                }
            } else {
                None
            }
        },
    }
}

/// The user the gathered fields denote: `name` and `email` are required,
/// a missing or `null` id is an absent one.
pub open spec fn fields_user(acc: FieldsV) -> Option<UserV> {
    match (acc.name, acc.email) {
        (Some(n), Some(e)) => Some(
            UserV {
                id: match acc.id {
                    Some(x) => x,
                    None => None,
                },
                name: n,
                email: e,
            },
        ),
        _ => None,
    }
}

/// The user a byte sequence denotes, when it is one JSON object of the
/// user shape followed by nothing but whitespace.
pub open spec fn parse_user(s: Seq<u8>) -> Option<UserV> {
    let i = skip_ws(s, 0);
    if !(0 <= i < s.len() && s[i] == 123) {
        None
    } else {
        let j = skip_ws(s, i + 1);
        let m = if j < s.len() && s[j] == 125 {
            Some((empty_fields(), j + 1))
        } else {
            parse_members(s, j, empty_fields(), 2)
        };
        match m {
            None => None,
            Some(t) => if 0 <= t.1 <= s.len() && skip_ws(s, t.1) == s.len() {
                fields_user(t.0)
            } else {
                None
            },
        }
    }
}

/// Parses one member at `i`, as `parse_member` describes.
fn parse_member_exec(s: &[u8], i: usize, acc: Fields) -> (r: Option<(Fields, usize)>)
    requires
        i <= s@.len(),
    ensures
        match r {
            Some(t) => parse_member(s@, i as int, acc@) == Some((t.0@, t.1 as int)) && t.1
                <= s@.len(),
            None => parse_member(s@, i as int, acc@) is None,
        },
{
    proof {
        reveal_strlit("name");
        reveal_strlit("email");
        reveal_strlit("id");
        reveal_strlit("null");
    }
    if i >= s.len() || s[i] != 34 {
        return None;
    }
    let kt = match parse_str_body_exec(s, i + 1) {
        Some(t) => t,
        None => {
            return None;
        },
    };
    let k = skip_ws_from(s, kt.1);
    if k >= s.len() || s[k] != 58 {
        return None;
    }
    let v = skip_ws_from(s, k + 1);
    let name_pat = str_bytes("name");
    let email_pat = str_bytes("email");
    let id_pat = str_bytes("id");
    if crate::text::eq_bytes(kt.0.as_slice(), name_pat.as_slice()) {
        if acc.name.is_some() {
            return None;
        }
        if v < s.len() && s[v] == 34 {
            match parse_str_body_exec(s, v + 1) {
                Some(t) => Some((Fields { id: acc.id, name: Some(t.0), email: acc.email }, t.1)),
                None => None,
            }
        } else {
            None
        }
    } else if crate::text::eq_bytes(kt.0.as_slice(), email_pat.as_slice()) {
        if acc.email.is_some() {
            return None;
        }
        if v < s.len() && s[v] == 34 {
            match parse_str_body_exec(s, v + 1) {
                Some(t) => Some((Fields { id: acc.id, name: acc.name, email: Some(t.0) }, t.1)),
                None => None,
            }
        } else {
            None
        }
    } else if crate::text::eq_bytes(kt.0.as_slice(), id_pat.as_slice()) {
        if acc.id.is_some() {
            return None;
        }
        let null_pat = str_bytes("null");
        if v < s.len() && s[v] == 110 {
            if crate::text::matches_at(s, v, null_pat.as_slice()) {
                assert(ascii_bytes_of("null").len() == 4);
                assert(v + 4 <= s@.len()) by {
                    assert(ascii_bytes_of("null").is_prefix_of(s@.skip(v as int)));
                }
                Some((Fields { id: Some(None), name: acc.name, email: acc.email }, v + 4))
            } else {
                None
            }
        } else {
            match parse_json_int_exec(s, v) {
                Some(t) => Some(
                    (Fields { id: Some(Some(t.0)), name: acc.name, email: acc.email }, t.1),
                ),
                None => None,
            }
        }
    } else {
        None
    }
}

/// Parses the member list, as `parse_members` describes.
fn parse_members_exec(s: &[u8], i: usize, acc: Fields, fuel: u8) -> (r: Option<(Fields, usize)>)
    requires
        i <= s@.len(),
    ensures
        match r {
            Some(t) => parse_members(s@, i as int, acc@, fuel as nat) == Some((t.0@, t.1 as int))
                && t.1 <= s@.len(),
            None => parse_members(s@, i as int, acc@, fuel as nat) is None,
        },
    decreases fuel,
{
    let t = match parse_member_exec(s, i, acc) {
        Some(t) => t,
        None => {
            return None;
        },
    };
    let u = skip_ws_from(s, t.1);
    if u < s.len() && s[u] == 125 {
        Some((t.0, u + 1))
    } else if u < s.len() && s[u] == 44 {
        if fuel == 0 {
            None
        } else {
            let n = skip_ws_from(s, u + 1);
            parse_members_exec(s, n, t.0, fuel - 1)
        }
    } else {
        None
    }
}

/// Decodes a byte sequence into a user, as `parse_user` describes.
pub fn parse_user_bytes(s: &[u8]) -> (r: Option<User>)
    ensures
        match r {
            Some(u) => parse_user(s@) == Some(u@),
            None => parse_user(s@) is None,
        },
{
    let i = skip_ws_from(s, 0);
    if i >= s.len() || s[i] != 123 {
        return None;
    }
    let j = skip_ws_from(s, i + 1);
    let m = if j < s.len() && s[j] == 125 {
        Some((Fields { id: None, name: None, email: None }, j + 1))
    } else {
        parse_members_exec(s, j, Fields { id: None, name: None, email: None }, 2)
    };
    match m {
        None => None,
        Some(t) => {
            let e2 = skip_ws_from(s, t.1);
            if e2 != s.len() {
                None
            } else {
                match (t.0.name, t.0.email) {
                    (Some(n), Some(e)) => Some(
                        User {
                            id: match t.0.id {
                                Some(x) => x,
                                None => None,
                            },
                            name: n,
                            email: e,
                        },
                    ),
                    _ => None,
                }
            }
        },
    }
}

/// Whether the blank-line separator stands at `j`.
pub open spec fn sep_at(s: Seq<u8>, j: int) -> bool {
    0 <= j && j + 4 <= s.len() && s[j] == 13 && s[j + 1] == 10 && s[j + 2] == 13 && s[j + 3] == 10
}

/// The last separator position at or before `i`, if any.
pub open spec fn last_sep_from(s: Seq<u8>, i: int) -> Option<int>
    decreases i + 1,
{
    if i < 0 {
        None
    } else if sep_at(s, i) {
        Some(i)
    } else {
        last_sep_from(s, i - 1)
    }
}

/// Where the body begins: just past the last blank-line separator, or at
/// the start when there is none.
pub open spec fn body_start(s: Seq<u8>) -> int {
    match last_sep_from(s, s.len() - 4) {
        Some(j) => j + 4,
        None => 0,
    }
}

/// `body_start` stays within bounds.
pub proof fn lemma_body_start(s: Seq<u8>)
    ensures
        0 <= body_start(s) <= s.len(),
{
    lemma_last_sep_from(s, s.len() - 4);
}

proof fn lemma_last_sep_from(s: Seq<u8>, i: int)
    ensures
        match last_sep_from(s, i) {
            Some(j) => 0 <= j <= i && j + 4 <= s.len(),
            None => true,
        },
    decreases i + 1,
{
    if i >= 0 && !sep_at(s, i) {
        lemma_last_sep_from(s, i - 1);
    }
}

/// The request body: everything after the last blank-line separator, or
/// the whole request when there is none.
pub open spec fn body_of(s: Seq<u8>) -> Seq<u8> {
    s.skip(body_start(s))
}

/// Finds where the body begins, as `body_start` describes.
fn body_start_exec(s: &[u8]) -> (r: usize)
    ensures
        r == body_start(s@),
        r <= s@.len(),
{
    proof {
        lemma_body_start(s@);
    }
    if s.len() < 4 {
        return 0;
    }
    let mut i: usize = s.len() - 4;
    loop
        invariant
            0 <= i <= s@.len() - 4,
            last_sep_from(s@, s@.len() - 4) == last_sep_from(s@, i as int),
        decreases i,
    {
        if s[i] == 13 && s[i + 1] == 10 && s[i + 2] == 13 && s[i + 3] == 10 {
            return i + 4;
        }
        if i == 0 {
            assert(last_sep_from(s@, -1) is None);
            return 0;
        }
        i = i - 1;
    }
}

/// Locates the request body after the blank-line separator and decodes it
/// into a user; fails when the tail is not one JSON object of the user
/// shape.
pub fn get_user_request_body(request: &[u8]) -> (r: Result<User, ParseError>)
    ensures
        match r {
            Ok(u) => parse_user(body_of(request@)) == Some(u@),
            Err(_) => parse_user(body_of(request@)) is None,
        },
{
    let st = body_start_exec(request);
    let tail = vstd::slice::slice_subrange(request, st, request.len());
    assert(tail@ =~= body_of(request@));
    match parse_user_bytes(tail) {
        Some(u) => Ok(u),
        None => Err(ParseError),
    }
}

} // verus!
