//! Runtime enforcement of user-signed Intent Mandates for AI-agent payments.

pub mod audit;
pub mod crypto;
pub mod engine;
pub mod json;
pub mod laws;
pub mod mandate;
pub mod protocol;
pub mod scenarios;
pub mod scope;
pub mod unique;
pub mod text;
pub mod time;
pub mod token;
pub mod wasm;

pub use crate::text::hex;

use vstd::prelude::*;

verus! {

/// The SHA-256 digest of `bytes`, as a function of the bytes alone.
pub uninterp spec fn spec_sha256(bytes: Seq<u8>) -> Seq<u8>;

/// SHA-256 of `bytes` (sha2's `Sha256` digest).
///
/// Trusted: the result is the digest that sha2 computes, named `spec_sha256`.
#[verifier::external_body]
pub fn sha256(bytes: &[u8]) -> (digest: [u8; 32])
    ensures
        digest@ == spec_sha256(bytes@),
{
    let mut h = <sha2::Sha256 as sha2::Digest>::new();
    sha2::Digest::update(&mut h, bytes);
    sha2::Digest::finalize(h).into()
}

} // verus!
