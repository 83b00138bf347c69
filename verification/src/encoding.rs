//! Percent-encoding of UTF-8 text, for URL query values and for Graph
//! path-addressing segments.

use vstd::prelude::*;
use crate::text::{chars_of, join, join_chars, split_char, split_chars, string_of};

verus! {

/// Upper-case hexadecimal digit of `d` (`d < 16`).
pub open spec fn hex_upper(d: u8) -> char {
    if d < 10 {
        ((d + 0x30) as u8) as char
    } else {
        ((d + 0x37) as u8) as char
    }
}

/// One byte, as `%XX` where `encode` holds of it and as itself otherwise.
pub open spec fn encoded_byte(b: u8, encode: bool) -> Seq<char> {
    if encode {
        seq!['%', hex_upper(b / 16), hex_upper(b % 16)]
    } else {
        seq![b as char]
    }
}

/// A byte string with each byte that `must_encode` selects written as
/// `%XX` (upper-case hex) and every other byte kept.
pub open spec fn percent_encoded(bytes: Seq<u8>, must_encode: spec_fn(u8) -> bool) -> Seq<char>
    decreases bytes.len(),
{
    if bytes.len() == 0 {
        Seq::empty()
    } else {
        percent_encoded(bytes.drop_last(), must_encode) + encoded_byte(
            bytes.last(),
            must_encode(bytes.last()),
        )
    }
}

/// Bytes a query value keeps: ASCII letters, digits and `-_.~`.
pub open spec fn is_unreserved_byte(b: u8) -> bool {
    (0x41 <= b <= 0x5a) || (0x61 <= b <= 0x7a) || (0x30 <= b <= 0x39) || b == 0x2d || b == 0x5f
        || b == 0x2e || b == 0x7e
}

/// Bytes encoded inside one Graph path segment: controls, non-ASCII, and
/// `space " # % / : < > ? backtick { } |`.
pub open spec fn is_graph_segment_byte(b: u8) -> bool {
    b < 0x20 || b >= 0x7f || b == 0x20 || b == 0x22 || b == 0x23 || b == 0x25 || b == 0x2f
        || b == 0x3a || b == 0x3c || b == 0x3e || b == 0x3f || b == 0x60 || b == 0x7b || b
        == 0x7d || b == 0x7c
}

fn hex_digit(d: u8) -> (c: char)
    requires
        d < 16,
    ensures
        c == hex_upper(d),
{
    if d < 10 {
        (d + 0x30) as char
    } else {
        (d + 0x37) as char
    }
}

fn push_encoded(acc: &mut Vec<char>, b: u8, encode: bool)
    ensures
        final(acc)@ == old(acc)@ + encoded_byte(b, encode),
{
    if encode {
        acc.push('%');
        acc.push(hex_digit(b / 16));
        acc.push(hex_digit(b % 16));
        proof {
            assert(acc@ =~= old(acc)@ + encoded_byte(b, encode));
        }
    } else {
        acc.push(b as char);
        proof {
            assert(acc@ =~= old(acc)@ + encoded_byte(b, encode));
        }
    }
}

fn unreserved(b: u8) -> (r: bool)
    ensures
        r == is_unreserved_byte(b),
{
    (0x41 <= b && b <= 0x5a) || (0x61 <= b && b <= 0x7a) || (0x30 <= b && b <= 0x39) || b == 0x2d
        || b == 0x5f || b == 0x2e || b == 0x7e
}

fn graph_segment_byte(b: u8) -> (r: bool)
    ensures
        r == is_graph_segment_byte(b),
{
    b < 0x20 || b >= 0x7f || b == 0x20 || b == 0x22 || b == 0x23 || b == 0x25 || b == 0x2f || b
        == 0x3a || b == 0x3c || b == 0x3e || b == 0x3f || b == 0x60 || b == 0x7b || b == 0x7d
        || b == 0x7c
}

/// Query encoding of `input` (see `is_unreserved_byte`).
pub fn percent_encode_query(input: &str) -> (out: String)
    ensures
        out@ == percent_encoded(
            vstd::utf8::encode_utf8(input@),
            |b: u8| !is_unreserved_byte(b),
        ),
{
    let ghost f = |b: u8| !is_unreserved_byte(b);
    let bytes = input.as_bytes();
    let mut acc: Vec<char> = Vec::new();
    let mut i: usize = 0;
    while i < bytes.len()
        invariant
            i <= bytes.len(),
            bytes@ == vstd::utf8::encode_utf8(input@),
            f == (|b: u8| !is_unreserved_byte(b)),
            acc@ == percent_encoded(bytes@.take(i as int), f),
        decreases bytes.len() - i,
    {
        let b = bytes[i];
        push_encoded(&mut acc, b, !unreserved(b));
        proof {
            let t = bytes@.take(i + 1);
            assert(t.drop_last() =~= bytes@.take(i as int));
            assert(t.last() == b);
        }
        i = i + 1;
    }
    proof {
        assert(bytes@.take(bytes@.len() as int) =~= bytes@);
    }
    string_of(acc.as_slice())
}

/// Encoding of one Graph path segment (see `is_graph_segment_byte`).
pub fn percent_encode_graph_segment(input: &str) -> (out: String)
    ensures
        out@ == percent_encoded(
            vstd::utf8::encode_utf8(input@),
            |b: u8| is_graph_segment_byte(b),
        ),
{
    let ghost f = |b: u8| is_graph_segment_byte(b);
    let bytes = input.as_bytes();
    let mut acc: Vec<char> = Vec::new();
    let mut i: usize = 0;
    while i < bytes.len()
        invariant
            i <= bytes.len(),
            bytes@ == vstd::utf8::encode_utf8(input@),
            f == (|b: u8| is_graph_segment_byte(b)),
            acc@ == percent_encoded(bytes@.take(i as int), f),
        decreases bytes.len() - i,
    {
        let b = bytes[i];
        push_encoded(&mut acc, b, graph_segment_byte(b));
        proof {
            let t = bytes@.take(i + 1);
            assert(t.drop_last() =~= bytes@.take(i as int));
            assert(t.last() == b);
        }
        i = i + 1;
    }
    proof {
        assert(bytes@.take(bytes@.len() as int) =~= bytes@);
    }
    string_of(acc.as_slice())
}

/// One path segment in query encoding.
pub open spec fn query_encoded(seg: Seq<char>) -> Seq<char> {
    percent_encoded(vstd::utf8::encode_utf8(seg), |b: u8| !is_unreserved_byte(b))
}

/// A drive item path with each `/`-separated segment in query encoding
/// and the separators kept.
pub open spec fn encoded_item_path(path: Seq<char>) -> Seq<char> {
    join(split_char(path, '/').map_values(|seg: Seq<char>| query_encoded(seg)), "/"@)
}

/// Encodes each segment of a drive item path, so that names holding
/// spaces, `#` or `&` can stand in a Graph address (see `encoded_item_path`).
pub fn encode_item_path(path: &str) -> (out: String)
    ensures
        out@ == encoded_item_path(path@),
{
    let cs = chars_of(path);
    let parts = split_chars(cs.as_slice(), '/');
    let ghost pv = parts.deep_view();
    let mut enc: Vec<Vec<char>> = Vec::new();
    let mut i: usize = 0;
    proof {
        assert(enc.deep_view() =~= pv.take(0).map_values(|seg: Seq<char>| query_encoded(seg)));
    }
    while i < parts.len()
        invariant
            i <= parts.len(),
            pv == parts.deep_view(),
            enc.deep_view() == pv.take(i as int).map_values(|seg: Seq<char>| query_encoded(seg)),
        decreases parts.len() - i,
    {
        let seg = string_of(parts[i].as_slice());
        let e = percent_encode_query(seg.as_str());
        let ec = chars_of(e.as_str());
        let ghost before = enc.deep_view();
        proof {
            assert(pv[i as int] == parts[i as int]@);
            assert(ec.deep_view() =~= ec@);
        }
        enc.push(ec);
        proof {
            assert(enc.deep_view() =~= before.push(query_encoded(pv[i as int])));
            assert(pv.take(i + 1).map_values(|seg: Seq<char>| query_encoded(seg)) =~= pv.take(
                i as int,
            ).map_values(|seg: Seq<char>| query_encoded(seg)).push(query_encoded(pv[i as int])));
        }
        i = i + 1;
    }
    proof {
        assert(pv.take(parts.len() as int) =~= pv);
    }
    let sep = chars_of("/");
    let out = join_chars(&enc, sep.as_slice());
    string_of(out.as_slice())
}

} // verus!
