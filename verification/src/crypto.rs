//! Ed25519 keys and signatures (ed25519-dalek) and Base64 text (base64).

use vstd::prelude::*;

verus! {

/// The Ed25519 public key of a 32-byte secret key, as ed25519-dalek derives it.
pub uninterp spec fn spec_ed25519_public(secret: Seq<u8>) -> Seq<u8>;

/// The Ed25519 signature that ed25519-dalek makes over `msg` with a 32-byte secret key.
pub uninterp spec fn spec_ed25519_sign(secret: Seq<u8>, msg: Seq<u8>) -> Seq<u8>;

/// Whether ed25519-dalek's `verify_strict` accepts `sig` over `msg` under public key `public`.
pub uninterp spec fn spec_ed25519_verify(public: Seq<u8>, msg: Seq<u8>, sig: Seq<u8>) -> bool;

/// The 32-byte encoding of the identity point (the only small-order point a nonce can give).
pub open spec fn identity_encoding() -> Seq<u8> {
    Seq::new(32, |i: int| if i == 0 { 1u8 } else { 0u8 })
}

/// The signature that the 32-byte secret `secret` makes over `msg` is a genuine one: 64 bytes
/// whose nonce point is not the identity. ed25519-dalek's signatures are always 64 bytes, and
/// their nonce point is the identity only where the nonce hash is a multiple of the group
/// order, which `verify_strict` then refuses; every other signature verifies.
pub open spec fn genuine(secret: Seq<u8>, msg: Seq<u8>) -> bool {
    &&& secret.len() == 32
    &&& spec_ed25519_sign(secret, msg).len() == 64
    &&& spec_ed25519_sign(secret, msg).subrange(0, 32) != identity_encoding()
}

/// A character of the URL-safe Base64 alphabet: `A`–`Z`, `a`–`z`, `0`–`9`, `-`, `_`.
pub open spec fn url_safe(c: char) -> bool {
    let v = c as u32;
    ||| 65 <= v <= 90
    ||| 97 <= v <= 122
    ||| 48 <= v <= 57
    ||| v == 45
    ||| v == 95
}

/// An Ed25519 signing key, held as its 32-byte secret.
#[derive(Clone)]
pub struct SigningKey {
    secret: [u8; 32],
}

impl View for SigningKey {
    type V = Seq<u8>;

    closed spec fn view(&self) -> Seq<u8> {
        self.secret@
    }
}

/// An Ed25519 verifying (public) key, held as its 32-byte encoding.
#[derive(Clone, Copy)]
pub struct VerifyingKey {
    bytes: [u8; 32],
}

impl View for VerifyingKey {
    type V = Seq<u8>;

    closed spec fn view(&self) -> Seq<u8> {
        self.bytes@
    }
}

/// The public key of `secret` (`ed25519_dalek::SigningKey::from_bytes(secret).verifying_key()`).
///
/// Trusted: the result is named `spec_ed25519_public`.
#[verifier::external_body]
fn public_of(secret: &[u8; 32]) -> (public: [u8; 32])
    ensures
        public@ == spec_ed25519_public(secret@),
{
    ed25519_dalek::SigningKey::from_bytes(secret).verifying_key().to_bytes()
}

/// The signature over `msg` (`ed25519_dalek::Signer::sign` with the key of `secret`).
///
/// Trusted: the result is named `spec_ed25519_sign`; unless its nonce point is the identity,
/// it verifies (strictly) under the public key of `secret`: `s·B − k·A` gives back `R`, and a
/// public key from a clamped secret is never of small order.
#[verifier::external_body]
fn sign_with(secret: &[u8; 32], msg: &[u8]) -> (sig: [u8; 64])
    ensures
        sig@ == spec_ed25519_sign(secret@, msg@),
        sig@.subrange(0, 32) != identity_encoding() ==> spec_ed25519_verify(spec_ed25519_public(secret@), msg@, sig@),
{
    ed25519_dalek::Signer::sign(&ed25519_dalek::SigningKey::from_bytes(secret), msg).to_bytes()
}

/// `verify_strict` of `sig` over `msg` under the public key `public`; a public key that
/// does not decode to a curve point verifies nothing.
///
/// Trusted: the result is named `spec_ed25519_verify`; a genuine signature over `msg` by
/// a 32-byte secret whose public key is `public` verifies.
#[verifier::external_body]
fn verify_with(public: &[u8; 32], msg: &[u8], sig: &[u8; 64]) -> (ok: bool)
    ensures
        ok == spec_ed25519_verify(public@, msg@, sig@),
        forall|secret: Seq<u8>|
            #![trigger spec_ed25519_sign(secret, msg@)]
            genuine(secret, msg@) && public@ == spec_ed25519_public(secret) && sig@ == spec_ed25519_sign(secret, msg@)
                ==> ok,
{
    match ed25519_dalek::VerifyingKey::from_bytes(public) {
        Ok(vk) => vk.verify_strict(msg, &ed25519_dalek::Signature::from_bytes(sig)).is_ok(),
        Err(_) => false,
    }
}

impl SigningKey {
    /// The signing key whose secret is `secret`.
    pub fn from_bytes(secret: &[u8; 32]) -> (sk: SigningKey)
        ensures
            sk@ == secret@,
    {
        SigningKey { secret: *secret }
    }

    /// The matching verifying key.
    pub fn verifying_key(&self) -> (vk: VerifyingKey)
        ensures
            vk@ == spec_ed25519_public(self@),
    {
        VerifyingKey { bytes: public_of(&self.secret) }
    }

    /// The Ed25519 signature over `msg`.
    pub fn sign(&self, msg: &[u8]) -> (sig: [u8; 64])
        ensures
            sig@ == spec_ed25519_sign(self@, msg@),
            sig@.subrange(0, 32) != identity_encoding() ==> spec_ed25519_verify(spec_ed25519_public(self@), msg@, sig@),
    {
        sign_with(&self.secret, msg)
    }
}

impl VerifyingKey {
    /// Strict Ed25519 verification of `sig` over `msg` (no malleable or small-order forms).
    pub fn verify_strict(&self, msg: &[u8], sig: &[u8; 64]) -> (ok: bool)
        ensures
            ok == spec_ed25519_verify(self@, msg@, sig@),
            forall|secret: Seq<u8>|
                #![trigger spec_ed25519_sign(secret, msg@)]
                genuine(secret, msg@) && self@ == spec_ed25519_public(secret) && sig@ == spec_ed25519_sign(secret, msg@)
                    ==> ok,
    {
        verify_with(&self.bytes, msg, sig)
    }

    /// The 32-byte encoding of the key.
    pub fn to_bytes(&self) -> (b: [u8; 32])
        ensures
            b@ == self@,
    {
        self.bytes
    }
}

/// The deterministic signing key whose 32 secret bytes all equal `seed` (for tests and demos).
pub fn test_key(seed: u8) -> (sk: SigningKey)
    ensures
        sk@ == Seq::new(32, |i: int| seed),
{
    let sk = SigningKey { secret: [seed; 32] };
    assert(sk@ =~= Seq::new(32, |i: int| seed));
    sk
}

/// The standard, padded Base64 text of `bytes`.
pub uninterp spec fn spec_b64_encode(bytes: Seq<u8>) -> Seq<char>;

/// The bytes that the standard, padded Base64 engine decodes from `text`.
pub uninterp spec fn spec_b64_decode(text: Seq<u8>) -> Option<Seq<u8>>;

/// The URL-safe, unpadded Base64 text of `bytes`.
pub uninterp spec fn spec_b64url_encode(bytes: Seq<u8>) -> Seq<char>;

/// The bytes that the URL-safe, unpadded Base64 engine decodes from `text`.
pub uninterp spec fn spec_b64url_decode(text: Seq<u8>) -> Option<Seq<u8>>;

/// `base64::engine::general_purpose::STANDARD.encode(bytes)`.
///
/// Trusted: the result is named `spec_b64_encode`, and the same engine decodes it back
/// to `bytes`.
#[verifier::external_body]
pub(crate) fn b64_encode(bytes: &[u8]) -> (text: String)
    ensures
        text@ == spec_b64_encode(bytes@),
        spec_b64_decode(vstd::utf8::encode_utf8(text@)) == Some(bytes@),
{
    base64::Engine::encode(&base64::engine::general_purpose::STANDARD, bytes)
}

/// `base64::engine::general_purpose::STANDARD.decode(text)`.
///
/// Trusted: the result is named `spec_b64_decode`; the engine decodes its own text back.
#[verifier::external_body]
pub(crate) fn b64_decode(text: &[u8]) -> (bytes: Option<Vec<u8>>)
    ensures
        forall|x: Seq<u8>|
            #![trigger spec_b64_encode(x)]
            text@ == vstd::utf8::encode_utf8(spec_b64_encode(x)) ==> (bytes is Some && bytes->0@ == x),
        bytes matches Some(b) ==> spec_b64_decode(text@) == Some(b@),
        bytes is None ==> spec_b64_decode(text@) is None,
{
    base64::Engine::decode(&base64::engine::general_purpose::STANDARD, text).ok()
}

/// `base64::engine::general_purpose::URL_SAFE_NO_PAD.encode(bytes)`.
///
/// Trusted: the result is named `spec_b64url_encode`, is made of the URL-safe alphabet
/// alone (no padding), and the same engine decodes it back to `bytes`.
#[verifier::external_body]
pub(crate) fn b64url_encode(bytes: &[u8]) -> (text: String)
    ensures
        forall|i: int| 0 <= i < text@.len() ==> url_safe(#[trigger] text@[i]),
        text@ == spec_b64url_encode(bytes@),
        spec_b64url_decode(vstd::utf8::encode_utf8(text@)) == Some(bytes@),
{
    base64::Engine::encode(&base64::engine::general_purpose::URL_SAFE_NO_PAD, bytes)
}

/// `base64::engine::general_purpose::URL_SAFE_NO_PAD.decode(text)`.
///
/// Trusted: the result is named `spec_b64url_decode`; the engine decodes its own text back.
#[verifier::external_body]
pub(crate) fn b64url_decode(text: &[u8]) -> (bytes: Option<Vec<u8>>)
    ensures
        forall|x: Seq<u8>|
            #![trigger spec_b64url_encode(x)]
            text@ == vstd::utf8::encode_utf8(spec_b64url_encode(x)) ==> (bytes is Some && bytes->0@ == x),
        bytes matches Some(b) ==> spec_b64url_decode(text@) == Some(b@),
        bytes is None ==> spec_b64url_decode(text@) is None,
{
    base64::Engine::decode(&base64::engine::general_purpose::URL_SAFE_NO_PAD, text).ok()
}

} // verus!
