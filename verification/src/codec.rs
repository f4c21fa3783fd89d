//! The stream identifier codec.
//!
//! A stream with an explicit id is identified by that id verbatim. A stream
//! without one is identified by the URL-safe, unpadded base64 encoding of its
//! media address, which makes the identifier self-describing: decoding it
//! recovers the address with no playlist lookup.

use vstd::prelude::*;
use vstd::utf8::{decode_utf8, encode_utf8, valid_utf8};

use crate::m3u::{Stream, StreamView};

use base64::Engine;

verus! {

/// One 6-bit group as its byte in the URL-safe base64 alphabet
/// (`A`-`Z`, `a`-`z`, `0`-`9`, `-`, `_`).
pub open spec fn b64_byte(v: int) -> u8 {
    if v < 26 {
        (0x41 + v) as u8
    } else if v < 52 {
        (0x47 + v) as u8
    } else if v < 62 {
        (v - 4) as u8
    } else if v == 62 {
        0x2d
    } else {
        0x5f
    }
}

pub open spec fn b64_char(v: int) -> char {
    ((b64_byte(v) as u32) as char)
}

/// The URL-safe, unpadded base64 encoding: the bytes' bits taken in 6-bit
/// groups, high bits first, one alphabet character per group; one trailing
/// byte yields two characters, two trailing bytes yield three, with the
/// unused low bits of the last group zero.
pub open spec fn b64_encoding(bytes: Seq<u8>) -> Seq<char>
    decreases bytes.len(),
{
    if bytes.len() == 0 {
        Seq::empty()
    } else if bytes.len() == 1 {
        let b0 = bytes[0] as int;
        seq![b64_char(b0 / 4), b64_char((b0 % 4) * 16)]
    } else if bytes.len() == 2 {
        let b0 = bytes[0] as int;
        let b1 = bytes[1] as int;
        seq![b64_char(b0 / 4), b64_char((b0 % 4) * 16 + b1 / 16), b64_char((b1 % 16) * 4)]
    } else {
        let b0 = bytes[0] as int;
        let b1 = bytes[1] as int;
        let b2 = bytes[2] as int;
        seq![
            b64_char(b0 / 4),
            b64_char((b0 % 4) * 16 + b1 / 16),
            b64_char((b1 % 16) * 4 + b2 / 64),
            b64_char(b2 % 64),
        ] + b64_encoding(bytes.skip(3))
    }
}

proof fn lemma_b64_char_injective(u: int, v: int)
    requires
        0 <= u < 64,
        0 <= v < 64,
        b64_char(u) == b64_char(v),
    ensures
        u == v,
{
    assert((b64_byte(u) as u32) < 0xd800);
    assert((b64_byte(v) as u32) < 0xd800);
    assert(((b64_byte(u) as u32) as char) as u32 == b64_byte(u) as u32);
    assert(((b64_byte(v) as u32) as char) as u32 == b64_byte(v) as u32);
    assert(b64_byte(u) == b64_byte(v));
}

proof fn lemma_b64_encoding_len(b: Seq<u8>)
    ensures
        b.len() == 0 ==> b64_encoding(b).len() == 0,
        b.len() == 1 ==> b64_encoding(b).len() == 2,
        b.len() == 2 ==> b64_encoding(b).len() == 3,
        b.len() >= 3 ==> b64_encoding(b).len() >= 4,
{
}

/// No two byte sequences share an encoding: the codec's identifiers are
/// unambiguous.
pub proof fn lemma_b64_encoding_injective(b1: Seq<u8>, b2: Seq<u8>)
    requires
        b64_encoding(b1) == b64_encoding(b2),
    ensures
        b1 == b2,
    decreases b1.len(),
{
    lemma_b64_encoding_len(b1);
    lemma_b64_encoding_len(b2);
    let e1 = b64_encoding(b1);
    let e2 = b64_encoding(b2);
    if b1.len() == 0 {
        assert(b2.len() == 0);
        assert(b1 =~= b2);
    } else if b1.len() == 1 {
        assert(b2.len() == 1);
        let x = b1[0] as int;
        let y = b2[0] as int;
        assert(e1[0] == b64_char(x / 4) && e1[1] == b64_char((x % 4) * 16));
        assert(e2[0] == b64_char(y / 4) && e2[1] == b64_char((y % 4) * 16));
        lemma_b64_char_injective(x / 4, y / 4);
        lemma_b64_char_injective((x % 4) * 16, (y % 4) * 16);
        assert(b1 =~= b2);
    } else if b1.len() == 2 {
        assert(b2.len() == 2);
        let x0 = b1[0] as int;
        let x1 = b1[1] as int;
        let y0 = b2[0] as int;
        let y1 = b2[1] as int;
        lemma_b64_char_injective(x0 / 4, y0 / 4);
        lemma_b64_char_injective((x0 % 4) * 16 + x1 / 16, (y0 % 4) * 16 + y1 / 16);
        lemma_b64_char_injective((x1 % 16) * 4, (y1 % 16) * 4);
        assert(x0 % 4 == y0 % 4 && x1 / 16 == y1 / 16);
        assert(b1[0] == b2[0] && b1[1] == b2[1]);
        assert(b1 =~= b2);
    } else {
        assert(b2.len() >= 3);
        let x0 = b1[0] as int;
        let x1 = b1[1] as int;
        let x2 = b1[2] as int;
        let y0 = b2[0] as int;
        let y1 = b2[1] as int;
        let y2 = b2[2] as int;
        assert(e1[0] == b64_char(x0 / 4) && e1[1] == b64_char((x0 % 4) * 16 + x1 / 16) && e1[2]
            == b64_char((x1 % 16) * 4 + x2 / 64) && e1[3] == b64_char(x2 % 64));
        assert(e2[0] == b64_char(y0 / 4) && e2[1] == b64_char((y0 % 4) * 16 + y1 / 16) && e2[2]
            == b64_char((y1 % 16) * 4 + y2 / 64) && e2[3] == b64_char(y2 % 64));
        lemma_b64_char_injective(x0 / 4, y0 / 4);
        lemma_b64_char_injective((x0 % 4) * 16 + x1 / 16, (y0 % 4) * 16 + y1 / 16);
        lemma_b64_char_injective((x1 % 16) * 4 + x2 / 64, (y1 % 16) * 4 + y2 / 64);
        lemma_b64_char_injective(x2 % 64, y2 % 64);
        assert(b1[0] == b2[0] && b1[1] == b2[1] && b1[2] == b2[2]);
        assert(b64_encoding(b1.skip(3)) =~= e1.skip(4));
        assert(b64_encoding(b2.skip(3)) =~= e2.skip(4));
        lemma_b64_encoding_injective(b1.skip(3), b2.skip(3));
        assert(b1.len() == b1.skip(3).len() + 3);
        assert(b2.len() == b2.skip(3).len() + 3);
        assert forall|i: int| 0 <= i < b1.len() implies b1[i] == b2[i] by {
            if i >= 3 {
                assert(b1[i] == b1.skip(3)[i - 3]);
                assert(b2[i] == b2.skip(3)[i - 3]);
            }
        }
        assert(b1 =~= b2);
    }
}

/// Relies on base64's `URL_SAFE_NO_PAD` engine: `encode` emits the canonical
/// URL-safe, unpadded encoding of the bytes.
#[verifier::external_body]
fn b64_encode(bytes: &[u8]) -> (r: String)
    ensures
        r@ == b64_encoding(bytes@),
{
    base64::engine::general_purpose::URL_SAFE_NO_PAD.encode(bytes)
}

/// Relies on base64's `URL_SAFE_NO_PAD` engine: with padding refused and
/// trailing bits refused, `decode` succeeds exactly on canonical encodings,
/// and inverts `encode`.
#[verifier::external_body]
fn b64_decode(s: &str) -> (r: Option<Vec<u8>>)
    ensures
        (match r {
            Some(b) => s@ == b64_encoding(b@),
            None => forall|b: Seq<u8>| s@ != b64_encoding(b),
        }),
{
    base64::engine::general_purpose::URL_SAFE_NO_PAD.decode(s.as_bytes()).ok()
}

/// Relies on `String::from_utf8`: it succeeds exactly on valid UTF-8 and
/// returns the string of the decoded characters.
#[verifier::external_body]
fn string_from_utf8(bytes: Vec<u8>) -> (r: Option<String>)
    ensures
        (match r {
            Some(s) => valid_utf8(bytes@) && s@ == decode_utf8(bytes@),
            None => !valid_utf8(bytes@),
        }),
{
    String::from_utf8(bytes).ok()
}

/// The identifier of a stream: its explicit id verbatim, else the base64
/// encoding of its media address's UTF-8 bytes.
pub open spec fn spec_encode(s: StreamView) -> Seq<char> {
    match s.id {
        Some(i) => i,
        None => b64_encoding(encode_utf8(s.url)),
    }
}

pub fn encode_stream_id(stream: &Stream) -> (r: String)
    ensures
        r@ == spec_encode(stream@),
{
    match &stream.id {
        Some(i) => i.clone(),
        None => b64_encode(stream.url.as_str().as_bytes()),
    }
}

/// Whether `id` is the encoding of the UTF-8 bytes of some text, and so
/// resolves with no playlist lookup.
pub open spec fn is_b64_of_text(id: Seq<char>, b: Seq<u8>) -> bool {
    id == b64_encoding(b) && valid_utf8(b)
}

/// What decoding an identifier yields: the unique text whose UTF-8 bytes the
/// identifier encodes, if there is one.
pub open spec fn spec_decode(id: Seq<char>) -> Option<Seq<char>> {
    if exists|b: Seq<u8>| is_b64_of_text(id, b) {
        Some(decode_utf8(choose|b: Seq<u8>| is_b64_of_text(id, b)))
    } else {
        None
    }
}

pub fn decode_stream_id(id: &str) -> (r: Option<String>)
    ensures
        (match r {
            Some(u) => spec_decode(id@) == Some(u@),
            None => spec_decode(id@) is None,
        }),
{
    match b64_decode(id) {
        Some(bytes) => {
            let ghost bv = bytes@;
            match string_from_utf8(bytes) {
                Some(s) => {
                    proof {
                        assert(is_b64_of_text(id@, bv));
                        let w = choose|b: Seq<u8>| is_b64_of_text(id@, b);
                        lemma_b64_encoding_injective(w, bv);
                    }
                    Some(s)
                },
                None => {
                    proof {
                        if exists|b: Seq<u8>| is_b64_of_text(id@, b) {
                            let w = choose|b: Seq<u8>| is_b64_of_text(id@, b);
                            lemma_b64_encoding_injective(w, bv);
                        }
                    }
                    None
                },
            }
        },
        None => {
            proof {
                if exists|b: Seq<u8>| is_b64_of_text(id@, b) {
                    let w = choose|b: Seq<u8>| is_b64_of_text(id@, b);
                    assert(id@ == b64_encoding(w));
                }
            }
            None
        },
    }
}

/// Round trip: the identifier minted for a stream without an explicit id
/// decodes back to its media address, with no playlist involved.
pub proof fn lemma_encode_decode(s: StreamView)
    requires
        s.id is None,
    ensures
        spec_decode(spec_encode(s)) == Some(s.url),
{
    broadcast use vstd::utf8::encode_utf8_valid_utf8, vstd::utf8::encode_utf8_decode_utf8;

    let id = spec_encode(s);
    let b = encode_utf8(s.url);
    assert(is_b64_of_text(id, b));
    let w = choose|b2: Seq<u8>| is_b64_of_text(id, b2);
    lemma_b64_encoding_injective(w, b);
}

} // verus!
