//! The JSON codec for the user resource: serializing users and rows, and
//! parsing a request body into a user. The wire shape is
//! `{"id":1,"name":"...","email":"..."}`, with `id` `null` or absent on
//! creation payloads.

use vstd::prelude::*;
use crate::text::ascii_bytes_of;
use crate::text::str_bytes;
use crate::types::Row;
use crate::types::RowV;
use crate::types::User;
use crate::types::UserV;

verus! {

/// The lower-case hexadecimal digit for `d`.
pub open spec fn hex_digit(d: nat) -> u8
    recommends
        d < 16,
{
    if d < 10 {
        (48 + d) as u8
    } else {
        (87 + d) as u8
    }
}

/// The JSON escape of one byte of string content: quote, backslash and the
/// named control bytes get two-byte escapes, other control bytes the
/// `\u00XX` form, everything else stands for itself.
pub open spec fn escape_byte(b: u8) -> Seq<u8> {
    if b == 34 {
        seq![92u8, 34u8]
    } else if b == 92 {
        seq![92u8, 92u8]
    } else if b == 8 {
        seq![92u8, 98u8]
    } else if b == 12 {
        seq![92u8, 102u8]
    } else if b == 10 {
        seq![92u8, 110u8]
    } else if b == 13 {
        seq![92u8, 114u8]
    } else if b == 9 {
        seq![92u8, 116u8]
    } else if b < 32 {
        seq![92u8, 117u8, 48u8, 48u8, hex_digit((b / 16) as nat), hex_digit((b % 16) as nat)]
    } else {
        seq![b]
    }
}

/// String content with every byte escaped.
pub open spec fn escaped(s: Seq<u8>) -> Seq<u8>
    decreases s.len(),
{
    if s.len() == 0 {
        Seq::empty()
    } else {
        escaped(s.drop_last()) + escape_byte(s.last())
    }
}

/// The decimal digits of `n`, most significant first.
pub open spec fn dec_digits(n: nat) -> Seq<u8>
    decreases n,
{
    if n < 10 {
        seq![(48 + n) as u8]
    } else {
        dec_digits(n / 10).push((48 + n % 10) as u8)
    }
}

/// The decimal rendering of `i`, with a leading minus when negative.
pub open spec fn int_bytes(i: int) -> Seq<u8> {
    if i < 0 {
        seq![45u8] + dec_digits((-i) as nat)
    } else {
        dec_digits(i as nat)
    }
}

/// The JSON value for an optional id: a number, or `null`.
pub open spec fn id_json(id: Option<i32>) -> Seq<u8> {
    match id {
        Option::None => ascii_bytes_of("null"),
        Option::Some(i) => int_bytes(i as int),
    }
}

/// The JSON object for a user.
pub open spec fn user_json(u: UserV) -> Seq<u8> {
    ascii_bytes_of("{\"id\":") + id_json(u.id) + ascii_bytes_of(",\"name\":\"") + escaped(u.name)
        + ascii_bytes_of("\",\"email\":\"") + escaped(u.email) + ascii_bytes_of("\"}")
}

/// The JSON object for a persisted row.
pub open spec fn row_json(r: RowV) -> Seq<u8> {
    user_json(UserV { id: Some(r.id), name: r.name, email: r.email })
}

/// The comma-separated objects of a JSON array of rows.
pub open spec fn rows_items(rows: Seq<RowV>) -> Seq<u8>
    decreases rows.len(),
{
    if rows.len() == 0 {
        Seq::empty()
    } else if rows.len() == 1 {
        row_json(rows[0])
    } else {
        rows_items(rows.drop_last()) + ascii_bytes_of(",") + row_json(rows.last())
    }
}

/// The JSON array of persisted rows, in the order given.
pub open spec fn rows_json(rows: Seq<RowV>) -> Seq<u8> {
    ascii_bytes_of("[") + rows_items(rows) + ascii_bytes_of("]")
}

/// The views of a sequence of rows.
pub open spec fn views_of(rows: Seq<Row>) -> Seq<RowV> {
    Seq::new(rows.len(), |i: int| rows[i]@)
}

/// Appends an ASCII literal.
fn push_str(out: &mut Vec<u8>, s: &str)
    requires
        s.is_ascii(),
    ensures
        final(out)@ == old(out)@ + ascii_bytes_of(s),
{
    let mut b = str_bytes(s);
    out.append(&mut b);
}

/// Appends the escaped form of string content.
fn push_escaped(out: &mut Vec<u8>, s: &[u8])
    ensures
        final(out)@ == old(out)@ + escaped(s@),
{
    let ghost base = out@;
    let mut i: usize = 0;
    while i < s.len()
        invariant
            0 <= i <= s@.len(),
            out@ == base + escaped(s@.subrange(0, i as int)),
        decreases s@.len() - i,
    {
        let b = s[i];
        if b == 34 || b == 92 {
            out.push(92);
            out.push(b);
        } else if b == 8 {
            out.push(92);
            out.push(98);
        } else if b == 12 {
            out.push(92);
            out.push(102);
        } else if b == 10 {
            out.push(92);
            out.push(110);
        } else if b == 13 {
            out.push(92);
            out.push(114);
        } else if b == 9 {
            out.push(92);
            out.push(116);
        } else if b < 32 {
            out.push(92);
            out.push(117);
            out.push(48);
            out.push(48);
            let hi = b / 16;
            let lo = b % 16;
            out.push(if hi < 10 { 48 + hi } else { 87 + hi });
            out.push(if lo < 10 { 48 + lo } else { 87 + lo });
        } else {
            out.push(b);
        }
        proof {
            let pre = s@.subrange(0, i + 1);
            assert(pre.drop_last() =~= s@.subrange(0, i as int));
            assert(pre.last() == s@[i as int]);
            assert(out@ =~= base + escaped(pre));
        }
        i = i + 1;
    }
    proof {
        assert(s@.subrange(0, s@.len() as int) =~= s@);
    }
}

/// Appends the decimal digits of `n`.
fn push_dec(out: &mut Vec<u8>, n: u32)
    ensures
        final(out)@ == old(out)@ + dec_digits(n as nat),
    decreases n,
{
    if n < 10 {
        out.push(48 + (n as u8));
        assert(out@ =~= old(out)@ + dec_digits(n as nat));
    } else {
        push_dec(out, n / 10);
        out.push(48 + ((n % 10) as u8));
        assert(out@ =~= old(out)@ + dec_digits(n as nat));
    }
}

/// Appends the decimal rendering of `i`.
fn push_i32(out: &mut Vec<u8>, i: i32)
    ensures
        final(out)@ == old(out)@ + int_bytes(i as int),
{
    if i < 0 {
        out.push(45);
        let m: u32 = (-(i as i64)) as u32;
        assert(m as nat == -(i as int));
        push_dec(out, m);
        assert(out@ =~= old(out)@ + int_bytes(i as int));
    } else {
        push_dec(out, i as u32);
    }
}

/// Appends the JSON object for a user with the given fields.
fn push_user_json(out: &mut Vec<u8>, id: Option<i32>, name: &[u8], email: &[u8])
    ensures
        final(out)@ == old(out)@ + user_json(UserV { id, name: name@, email: email@ }),
{
    proof {
        reveal_strlit("{\"id\":");
        reveal_strlit("null");
        reveal_strlit(",\"name\":\"");
        reveal_strlit("\",\"email\":\"");
        reveal_strlit("\"}");
    }
    push_str(out, "{\"id\":");
    match id {
        Option::Some(i) => push_i32(out, i),
        Option::None => push_str(out, "null"),
    }
    push_str(out, ",\"name\":\"");
    push_escaped(out, name);
    push_str(out, "\",\"email\":\"");
    push_escaped(out, email);
    push_str(out, "\"}");
    assert(out@ =~= old(out)@ + user_json(UserV { id, name: name@, email: email@ }));
}

/// The JSON encoding of a user.
pub fn user_json_bytes(u: &User) -> (r: Vec<u8>)
    ensures
        r@ == user_json(u@),
{
    let mut out: Vec<u8> = Vec::new();
    push_user_json(&mut out, u.id, u.name.as_slice(), u.email.as_slice());
    assert(out@ =~= user_json(u@));
    out
}

/// The JSON encoding of a persisted row.
pub fn row_json_bytes(r: &Row) -> (out: Vec<u8>)
    ensures
        out@ == row_json(r@),
{
    let mut out: Vec<u8> = Vec::new();
    push_user_json(&mut out, Some(r.id), r.name.as_slice(), r.email.as_slice());
    assert(out@ =~= row_json(r@));
    out
}

/// The JSON encoding of the rows, as one array in the order given.
pub fn rows_json_bytes(rows: &Vec<Row>) -> (out: Vec<u8>)
    ensures
        out@ == rows_json(views_of(rows@)),
{
    proof {
        reveal_strlit("[");
        reveal_strlit(",");
        reveal_strlit("]");
    }
    let mut out: Vec<u8> = Vec::new();
    push_str(&mut out, "[");
    let mut i: usize = 0;
    while i < rows.len()
        invariant
            0 <= i <= rows@.len(),
            out@ == ascii_bytes_of("[") + rows_items(views_of(rows@.subrange(0, i as int))),
        decreases rows@.len() - i,
    {
        proof {
            reveal_strlit(",");
        }
        if i > 0 {
            push_str(&mut out, ",");
        }
        let row = &rows[i];
        push_user_json(&mut out, Some(row.id), row.name.as_slice(), row.email.as_slice());
        proof {
            let pre = views_of(rows@.subrange(0, i + 1));
            assert(pre.drop_last() =~= views_of(rows@.subrange(0, i as int)));
            assert(pre.last() == rows@[i as int]@);
            assert(out@ =~= ascii_bytes_of("[") + rows_items(pre));
        }
        i = i + 1;
    }
    push_str(&mut out, "]");
    proof {
        assert(views_of(rows@.subrange(0, rows@.len() as int)) =~= views_of(rows@));
        assert(out@ =~= rows_json(views_of(rows@)));
    }
    out
}

} // verus!
