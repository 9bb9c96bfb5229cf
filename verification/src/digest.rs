//! SHA-256 digests, as the `sha2` crate computes them.

use vstd::prelude::*;

use crate::text::{hex, hex_text};

verus! {

/// The SHA-256 digest of `bytes`.
pub uninterp spec fn sha256(bytes: Seq<u8>) -> Seq<u8>;

/// `sha2::Sha256::digest`: 32 bytes that are a function of the bytes given.
#[verifier::external_body]
fn digest(bytes: &[u8]) -> (result: Vec<u8>)
    ensures
        result@ == sha256(bytes@),
        result@.len() == 32,
{
    <sha2::Sha256 as sha2::Digest>::digest(bytes).to_vec()
}

/// The digest of `bytes` in digits of base sixteen, as it is shown to the operator.
pub open spec fn sha256_text(bytes: Seq<u8>) -> Seq<char> {
    hex(sha256(bytes), false)
}

/// The digest of `bytes` in digits of base sixteen.
pub fn sha256_hex(bytes: &[u8]) -> (text: String)
    ensures
        text@ == sha256_text(bytes@),
{
    hex_text(digest(bytes).as_slice(), false)
}

} // verus!
