use vstd::prelude::*;
use crate::errors::ProxyError;
use base64::Engine;

verus! {

/// The standard (padded) base64 encoding of `b`, as base64's `STANDARD`
/// engine produces it.
pub uninterp spec fn b64_encode_of(b: Seq<u8>) -> Seq<char>;

/// What base64's `STANDARD` engine makes of `s`: the decoded bytes, or
/// `None` when `s` is not canonical padded base64.
pub uninterp spec fn b64_decode_of(s: Seq<char>) -> Option<Seq<u8>>;

/// Relies on base64's `STANDARD.encode`: the output is a function of the
/// input bytes alone, and the same engine's `decode` inverts it (the
/// crate documents the canonical RFC 4648 round trip).
#[verifier::external_body]
fn b64_encode_raw(b: &Vec<u8>) -> (r: String)
    ensures
        r@ == b64_encode_of(b@),
        b64_decode_of(r@) == Some(b@),
{
    base64::engine::general_purpose::STANDARD.encode(b)
}

/// Relies on base64's `STANDARD.decode`: it returns the decoded bytes on
/// canonical padded base64 and an error otherwise, as a function of the
/// input characters alone.
#[verifier::external_body]
fn b64_decode_raw(s: &str) -> (r: Option<Vec<u8>>)
    ensures
        match r {
            Some(v) => b64_decode_of(s@) == Some(v@),
            None => b64_decode_of(s@) is None,
        },
{
    match base64::engine::general_purpose::STANDARD.decode(s) {
        Ok(v) => Some(v),
        Err(_) => None,
    }
}

/// Encode one stored blob in the form sent to a client that asked for
/// `"base64"`.
pub fn encode_client_base64(blob: &Vec<u8>) -> (s: String)
    ensures
        s@ == b64_encode_of(blob@),
        b64_decode_of(s@) == Some(blob@),
{
    b64_encode_raw(blob)
}

/// Decode one embedding string of an upstream response into the raw blob
/// that is stored. Fails exactly on text that is not canonical base64.
pub fn decode_upstream(s: &str) -> (r: Result<Vec<u8>, ProxyError>)
    ensures
        match r {
            Ok(v) => b64_decode_of(s@) == Some(v@),
            Err(e) => b64_decode_of(s@) is None && e == ProxyError::DecodeFailure,
        },
{
    match b64_decode_raw(s) {
        Some(v) => Ok(v),
        None => Err(ProxyError::DecodeFailure),
    }
}

/// The 32-bit word held by four little-endian bytes.
pub open spec fn word_of_bytes(b0: u8, b1: u8, b2: u8, b3: u8) -> u32 {
    (b0 as u32) | ((b1 as u32) << 8) | ((b2 as u32) << 16) | ((b3 as u32) << 24)
}

/// Byte `k` (little-endian, `0 <= k < 4`) of a 32-bit word.
pub open spec fn byte_of_word(w: u32, k: int) -> u8
    recommends
        0 <= k < 4,
{
    if k == 0 {
        (w & 0xff) as u8
    } else if k == 1 {
        ((w >> 8) & 0xff) as u8
    } else if k == 2 {
        ((w >> 16) & 0xff) as u8
    } else {
        ((w >> 24) & 0xff) as u8
    }
}

/// A blob read as little-endian 32-bit words, four bytes at a time.
/// A trailing fragment shorter than four bytes is dropped.
pub open spec fn words_of(b: Seq<u8>) -> Seq<u32> {
    Seq::new(b.len() / 4, |i: int| word_of_bytes(b[4 * i], b[4 * i + 1], b[4 * i + 2], b[4 * i + 3]))
}

/// The little-endian bytes of a sequence of 32-bit words.
pub open spec fn bytes_of_words(w: Seq<u32>) -> Seq<u8> {
    Seq::new(w.len() * 4, |i: int| byte_of_word(w[i / 4], i % 4))
}

proof fn lemma_word_byte_roundtrip(b0: u8, b1: u8, b2: u8, b3: u8)
    ensures
        byte_of_word(word_of_bytes(b0, b1, b2, b3), 0) == b0,
        byte_of_word(word_of_bytes(b0, b1, b2, b3), 1) == b1,
        byte_of_word(word_of_bytes(b0, b1, b2, b3), 2) == b2,
        byte_of_word(word_of_bytes(b0, b1, b2, b3), 3) == b3,
{
    assert((((b0 as u32) | ((b1 as u32) << 8) | ((b2 as u32) << 16) | ((b3 as u32) << 24)) & 0xff)
        as u8 == b0) by (bit_vector);
    assert(((((b0 as u32) | ((b1 as u32) << 8) | ((b2 as u32) << 16) | ((b3 as u32) << 24)) >> 8)
        & 0xff) as u8 == b1) by (bit_vector);
    assert(((((b0 as u32) | ((b1 as u32) << 8) | ((b2 as u32) << 16) | ((b3 as u32) << 24)) >> 16)
        & 0xff) as u8 == b2) by (bit_vector);
    assert(((((b0 as u32) | ((b1 as u32) << 8) | ((b2 as u32) << 16) | ((b3 as u32) << 24)) >> 24)
        & 0xff) as u8 == b3) by (bit_vector);
}

proof fn lemma_byte_word_roundtrip(w: u32)
    ensures
        word_of_bytes(byte_of_word(w, 0), byte_of_word(w, 1), byte_of_word(w, 2), byte_of_word(w, 3))
            == w,
{
    assert((((w & 0xff) as u8 as u32) | ((((w >> 8) & 0xff) as u8 as u32) << 8)
        | ((((w >> 16) & 0xff) as u8 as u32) << 16) | ((((w >> 24) & 0xff) as u8 as u32) << 24))
        == w) by (bit_vector);
}

/// Law, one half of the codec round trip: reading the little-endian bytes
/// of any word sequence gives that sequence back.
pub proof fn lemma_words_of_bytes_of(ws: Seq<u32>)
    ensures
        words_of(bytes_of_words(ws)) == ws,
{
    let bs = bytes_of_words(ws);
    assert forall|i: int| 0 <= i < ws.len() implies words_of(bs)[i] == ws[i] by {
        assert(bs[4 * i] == byte_of_word(ws[(4 * i) / 4], (4 * i) % 4));
        assert(bs[4 * i + 1] == byte_of_word(ws[(4 * i + 1) / 4], (4 * i + 1) % 4));
        assert(bs[4 * i + 2] == byte_of_word(ws[(4 * i + 2) / 4], (4 * i + 2) % 4));
        assert(bs[4 * i + 3] == byte_of_word(ws[(4 * i + 3) / 4], (4 * i + 3) % 4));
        assert((4 * i) / 4 == i && (4 * i) % 4 == 0) by (nonlinear_arith);
        assert((4 * i + 1) / 4 == i && (4 * i + 1) % 4 == 1) by (nonlinear_arith);
        assert((4 * i + 2) / 4 == i && (4 * i + 2) % 4 == 2) by (nonlinear_arith);
        assert((4 * i + 3) / 4 == i && (4 * i + 3) % 4 == 3) by (nonlinear_arith);
        lemma_byte_word_roundtrip(ws[i]);
    }
    assert(words_of(bs) =~= ws);
}

/// Law, the other half of the codec round trip: writing the words read from
/// a blob of whole words gives the blob back.
pub proof fn lemma_bytes_of_words_of(bs: Seq<u8>)
    requires
        bs.len() % 4 == 0,
    ensures
        bytes_of_words(words_of(bs)) == bs,
{
    let ws = words_of(bs);
    assert(ws.len() * 4 == bs.len()) by (nonlinear_arith)
        requires ws.len() == bs.len() / 4 && bs.len() % 4 == 0;
    assert forall|i: int| 0 <= i < bs.len() implies bytes_of_words(ws)[i] == bs[i] by {
        let j = i / 4;
        let k = i % 4;
        assert(0 <= k < 4 && i == 4 * j + k) by (nonlinear_arith)
            requires j == i / 4 && k == i % 4 && 0 <= i;
        assert(0 <= j < ws.len()) by (nonlinear_arith)
            requires i < 4 * ws.len() && i == 4 * j + k && 0 <= k < 4 && 0 <= i;
        assert(ws[j] == word_of_bytes(bs[4 * j], bs[4 * j + 1], bs[4 * j + 2], bs[4 * j + 3]));
        lemma_word_byte_roundtrip(bs[4 * j], bs[4 * j + 1], bs[4 * j + 2], bs[4 * j + 3]);
        assert(bytes_of_words(ws)[i] == byte_of_word(ws[j], k));
    }
    assert(bytes_of_words(ws) =~= bs);
}

/// Reinterpret a stored blob as the 32-bit IEEE-754 bit patterns a client
/// that asked for `"float"` receives; the caller turns each word into the
/// number it encodes.
pub fn encode_client_float_bits(blob: &Vec<u8>) -> (w: Vec<u32>)
    ensures
        w@ == words_of(blob@),
{
    let n = blob.len() / 4;
    proof {
        assert(4 * (blob@.len() / 4) <= blob@.len()) by (nonlinear_arith);
        assert(blob@.len() <= usize::MAX);
    }
    let mut out: Vec<u32> = Vec::new();
    let mut i: usize = 0;
    while i < n
        invariant
            n == blob@.len() / 4,
            4 * n <= blob@.len(),
            blob@.len() <= usize::MAX,
            i <= n,
            out@.len() == i,
            forall|j: int| 0 <= j < i ==> out@[j] == words_of(blob@)[j],
        decreases n - i,
    {
        let base = 4 * i;
        let word = (blob[base] as u32) | ((blob[base + 1] as u32) << 8)
            | ((blob[base + 2] as u32) << 16) | ((blob[base + 3] as u32) << 24);
        out.push(word);
        i += 1;
    }
    proof {
        assert(out@ =~= words_of(blob@));
    }
    out
}

/// Write a sequence of 32-bit words back as the little-endian blob that
/// encodes it.
pub fn le_bytes_of_words(words: &Vec<u32>) -> (b: Vec<u8>)
    ensures
        b@ == bytes_of_words(words@),
{
    let mut out: Vec<u8> = Vec::new();
    let mut i: usize = 0;
    while i < words.len()
        invariant
            out@.len() == 4 * i,
            i <= words@.len(),
            forall|j: int| 0 <= j < 4 * i ==> out@[j] == bytes_of_words(words@)[j],
        decreases words@.len() - i,
    {
        let w = words[i];
        out.push((w & 0xff) as u8);
        out.push(((w >> 8) & 0xff) as u8);
        out.push(((w >> 16) & 0xff) as u8);
        out.push(((w >> 24) & 0xff) as u8);
        proof {
            let ii = i as int;
            assert((4 * ii) / 4 == ii && (4 * ii) % 4 == 0) by (nonlinear_arith);
            assert((4 * ii + 1) / 4 == ii && (4 * ii + 1) % 4 == 1) by (nonlinear_arith);
            assert((4 * ii + 2) / 4 == ii && (4 * ii + 2) % 4 == 2) by (nonlinear_arith);
            assert((4 * ii + 3) / 4 == ii && (4 * ii + 3) % 4 == 3) by (nonlinear_arith);
            assert(out@[4 * ii] == bytes_of_words(words@)[4 * ii]);
            assert(out@[4 * ii + 1] == bytes_of_words(words@)[4 * ii + 1]);
            assert(out@[4 * ii + 2] == bytes_of_words(words@)[4 * ii + 2]);
            assert(out@[4 * ii + 3] == bytes_of_words(words@)[4 * ii + 3]);
        }
        i += 1;
    }
    proof {
        assert(out@ =~= bytes_of_words(words@));
    }
    out
}

} // verus!
