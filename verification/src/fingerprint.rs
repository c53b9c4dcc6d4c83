use vstd::prelude::*;
use crate::decimal::{dec_of, u64_to_dec};
use sha2::Digest;

verus! {

/// The SHA-256 digest of the UTF-8 encoding of `s`. The digest is a pure
/// function of the characters; its value is not spelled out here.
pub uninterp spec fn sha256_of(s: Seq<char>) -> Seq<u8>;

/// Relies on sha2's `Sha256::digest` over the string's UTF-8 bytes: the
/// digest depends on the characters alone and is exactly 32 bytes long.
#[verifier::external_body]
fn sha256_str(s: &str) -> (r: Vec<u8>)
    ensures
        r@ == sha256_of(s@),
        r@.len() == 32,
{
    sha2::Sha256::digest(s.as_bytes()).to_vec()
}

/// The text that is hashed for one request element:
/// `{input}-{model}-{dimensions}`, with `dimensions` in decimal.
pub open spec fn fingerprint_text(input: Seq<char>, model: Seq<char>, dimensions: u64) -> Seq<char> {
    input + seq!['-'] + model + seq!['-'] + dec_of(dimensions as nat)
}

/// The 32-byte cache key for one request element.
pub open spec fn fingerprint_of(input: Seq<char>, model: Seq<char>, dimensions: u64) -> Seq<u8> {
    sha256_of(fingerprint_text(input, model, dimensions))
}

/// Compute the cache key for one request element. The input text is hashed
/// as it stands: no whitespace, case or unicode normalization.
pub fn fingerprint(input: &str, model: &str, dimensions: u64) -> (r: Vec<u8>)
    ensures
        r@ == fingerprint_of(input@, model@, dimensions),
        r@.len() == 32,
{
    proof {
        reveal_strlit("-");
    }
    let mut text = String::from_str(input);
    text.append("-");
    text.append(model);
    text.append("-");
    let dec = u64_to_dec(dimensions);
    text.append(dec.as_str());
    proof {
        assert(text@ =~= fingerprint_text(input@, model@, dimensions));
    }
    sha256_str(text.as_str())
}

/// Law: the fingerprint is deterministic. Equal `(input, model, dimensions)`
/// triples fingerprint to equal 32-byte keys. (That differing triples give
/// differing keys rests on SHA-256 collision resistance and is not stated.)
pub proof fn lemma_fingerprint_deterministic(
    input1: Seq<char>,
    model1: Seq<char>,
    dims1: u64,
    input2: Seq<char>,
    model2: Seq<char>,
    dims2: u64,
)
    requires
        input1 == input2,
        model1 == model2,
        dims1 == dims2,
    ensures
        fingerprint_of(input1, model1, dims1) == fingerprint_of(input2, model2, dims2),
{
}

} // verus!
