use base64::Engine;
use sha2::Digest;

use embedcache::codec::{decode_upstream, encode_client_base64, encode_client_float_bits,
    le_bytes_of_words};
use embedcache::decimal::u64_to_dec;
use embedcache::errors::ProxyError;
use embedcache::fingerprint::fingerprint;

#[test]
fn decimal_zero() {
    assert_eq!(u64_to_dec(0), "0");
}

#[test]
fn decimal_plain() {
    assert_eq!(u64_to_dec(1536), "1536");
    assert_eq!(u64_to_dec(3072), "3072");
    assert_eq!(u64_to_dec(10), "10");
}

#[test]
fn decimal_max() {
    assert_eq!(u64_to_dec(u64::MAX), "18446744073709551615");
}

#[test]
fn fingerprint_matches_sha256_of_schema_text() {
    let expected = sha2::Sha256::digest("hello-text-embedding-3-small-1536".as_bytes()).to_vec();
    let got = fingerprint("hello", "text-embedding-3-small", 1536);
    assert_eq!(got, expected);
    assert_eq!(got.len(), 32);
}

#[test]
fn fingerprint_deterministic_and_sensitive() {
    let a = fingerprint("hello", "m", 8);
    let b = fingerprint("hello", "m", 8);
    assert_eq!(a, b);
    assert_ne!(fingerprint("hello!", "m", 8), a);
    assert_ne!(fingerprint("hello", "m2", 8), a);
    assert_ne!(fingerprint("hello", "m", 9), a);
}

#[test]
fn base64_encode_matches_standard_engine() {
    let blob: Vec<u8> = vec![0xff, 0xec, 0x20, 0x55, 0x00];
    let ours = encode_client_base64(&blob);
    let theirs = base64::engine::general_purpose::STANDARD.encode(&blob);
    assert_eq!(ours, theirs);
    assert_eq!(ours, "/+wgVQA=");
}

#[test]
fn base64_round_trip_on_raw_blobs() {
    let blob: Vec<u8> = (0u16..300).map(|x| (x % 251) as u8).collect();
    let encoded = encode_client_base64(&blob);
    let decoded = decode_upstream(&encoded).expect("canonical base64 must decode");
    assert_eq!(decoded, blob);
}

#[test]
fn base64_decode_rejects_garbage() {
    assert_eq!(decode_upstream("!!!not base64!!!"), Err(ProxyError::DecodeFailure));
}

#[test]
fn float_words_round_trip() {
    let words: Vec<u32> = vec![0, 1, 0x3f80_0000, 0xdead_beef, u32::MAX];
    let bytes = le_bytes_of_words(&words);
    assert_eq!(bytes.len(), 20);
    let back = encode_client_float_bits(&bytes);
    assert_eq!(back, words);
}

#[test]
fn float_words_are_little_endian() {
    let blob: Vec<u8> = vec![0x00, 0x00, 0x80, 0x3f];
    let words = encode_client_float_bits(&blob);
    assert_eq!(words, vec![0x3f80_0000]);
    assert_eq!(f32::from_bits(words[0]), 1.0f32);
    let le = le_bytes_of_words(&words);
    assert_eq!(le, blob);
}

#[test]
fn float_words_drop_trailing_fragment() {
    let blob: Vec<u8> = vec![1, 0, 0, 0, 9, 9];
    assert_eq!(encode_client_float_bits(&blob), vec![1u32]);
}
