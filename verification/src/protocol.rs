//! Protocol adapters — the "neutral control plane" in code.
//!
//! Different agent-payment protocols carry the same authority ("agent X may spend up to N at
//! these merchants until T") in different wire shapes. An adapter parses a protocol-specific
//! wire, verifies its own detached Ed25519 signature over its own canonical bytes, and maps
//! it onto the single neutral [`IntentMandate`]. The gateway then enforces scope, budget,
//! audit and token identically — regardless of which protocol the mandate came from.

use vstd::prelude::*;
use crate::mandate::{verify_signed, verify_signed_result, IntentMandate, MandateKeyRegistry, VerifyError};

verus! {

/// An adapter that turns a protocol-specific signed wire into a verified, neutral
/// [`IntentMandate`].
pub trait MandateAdapter {
    /// The adapter's name.
    spec fn spec_name(&self) -> Seq<char>;

    /// What `parse_verify` may return for a wire and a registry.
    spec fn parse_verify_result(
        &self,
        wire: Seq<u8>,
        reg: Map<Seq<char>, Seq<u8>>,
        r: Result<IntentMandate, VerifyError>,
    ) -> bool;

    fn name(&self) -> (n: &'static str)
        ensures
            n@ == self.spec_name(),
    ;

    fn parse_verify(&self, wire: &[u8], registry: &MandateKeyRegistry) -> (r: Result<IntentMandate, VerifyError>)
        ensures
            self.parse_verify_result(wire@, registry@, r),
    ;
}

/// The demo's own canonical wire.
pub struct Native;

impl MandateAdapter for Native {
    open spec fn spec_name(&self) -> Seq<char> {
        "native"@
    }

    open spec fn parse_verify_result(
        &self,
        wire: Seq<u8>,
        reg: Map<Seq<char>, Seq<u8>>,
        r: Result<IntentMandate, VerifyError>,
    ) -> bool {
        verify_signed_result(wire, reg, r)
    }

    fn name(&self) -> (n: &'static str) {
        "native"
    }

    fn parse_verify(&self, wire: &[u8], registry: &MandateKeyRegistry) -> (r: Result<IntentMandate, VerifyError>)
        ensures
            forall|m: MandateView, sk: Seq<u8>|
                #![trigger crate::mandate::mandate_signature(m, sk)]
                crate::mandate::native_wire(wire@) == Some((m, crate::mandate::mandate_signature(m, sk)))
                    && registry@.contains_key(m.user_id) && registry@[m.user_id] == crate::crypto::spec_ed25519_public(sk)
                    && crate::crypto::genuine(sk, spec_sha256(crate::mandate::payload_bytes(m)))
                    ==> (r is Ok && r->Ok_0@ == m),
            forall|m: MandateView, sk: Seq<u8>|
                #![trigger crate::mandate::wire_text(m, crate::mandate::mandate_signature(m, sk))]
                wire@ == vstd::utf8::encode_utf8(crate::mandate::wire_text(m, crate::mandate::mandate_signature(m, sk)))
                    && crate::time::ts_valid(m.created_at.0, m.created_at.1) && crate::time::ts_valid(m.expires_at.0, m.expires_at.1)
                    && registry@.contains_key(m.user_id) && registry@[m.user_id] == crate::crypto::spec_ed25519_public(sk)
                    && crate::crypto::genuine(sk, spec_sha256(crate::mandate::payload_bytes(m)))
                    ==> (r is Ok && r->Ok_0@ == m),
    {
        verify_signed(wire, registry)
    }
}

} // verus!

use crate::crypto::{b64_encode, spec_b64_encode, spec_ed25519_sign, SigningKey};
use crate::json::{
    document_array, document_array_x, document_object, document_object_x, field, field_x,
    json_string, json_strings, json_u64, keys_of, keys_x, owned_list, push_quoted,
    push_string_list, quoted, spec_json_string, spec_json_strings, spec_json_u64, starts_array,
    starts_array_x, string_list, strings_field, strings_field_x, strings_view, strs_view,
    text_field, text_field_x, u64_field, u64_field_x, Skip, key_text, members_text, object_text, plain_key,
    written_bytes, written_spans, Written,
};
use crate::mandate::{
    bad_key, detached_check, detached_signature, field_problem, frame_problem, not_an_object, verify_detached, Check,
    MandateView,
};
use crate::text::{dec_of, push_str, push_u64};
use crate::time::{parse_rfc3339, spec_parse_rfc3339};
use crate::{sha256, spec_sha256};

verus! {

fn sign_b64(canonical: &[u8], sk: &SigningKey) -> (s: String)
    ensures
        s@ == detached_signature(canonical@, sk@),
{
    let digest = sha256(canonical);
    let sig = sk.sign(&digest);
    b64_encode(&sig)
}

/// After the signature checks out, the two timestamps are read as RFC 3339; the first that does
/// not read makes the whole a `Malformed` error whose text is `bad timestamp: ` and chrono's.
pub open spec fn stamped_result(
    issued: Seq<char>,
    expires: Seq<char>,
    m: spec_fn((i64, u32), (i64, u32)) -> MandateView,
    r: Result<IntentMandate, VerifyError>,
) -> bool {
    match spec_parse_rfc3339(issued) {
        Err(e) => r matches Err(VerifyError::Malformed(msg)) && msg@ == "bad timestamp: "@ + e,
        Ok(c) => match spec_parse_rfc3339(expires) {
            Err(e) => r matches Err(VerifyError::Malformed(msg)) && msg@ == "bad timestamp: "@ + e,
            Ok(x) => r matches Ok(got) && got@ == m(c, x),
        },
    }
}

/// Reads an RFC 3339 timestamp, turning a failure into the adapter's `Malformed` error.
fn stamp(s: &String) -> (r: Result<crate::time::Timestamp, VerifyError>)
    ensures
        match spec_parse_rfc3339(s@) {
            Ok(t) => r matches Ok(got) && got@ == t,
            Err(e) => r matches Err(VerifyError::Malformed(msg)) && msg@ == "bad timestamp: "@ + e,
        },
{
    match parse_rfc3339(s.as_str()) {
        Ok(t) => Ok(t),
        Err(e) => {
            let mut msg = String::new();
            push_str(&mut msg, "bad timestamp: ");
            push_str(&mut msg, e.as_str());
            Err(VerifyError::Malformed(msg))
        },
    }
}

// ── AP2-style Intent Mandate ─────────────────────────────────────────

struct Ap2Body {
    ap2_version: String,
    mandate_type: String,
    mandate_id: String,
    principal: String,
    agent: String,
    max_amount: u64,
    currency: String,
    allowed_merchants: Vec<String>,
    issued_at: String,
    not_after: String,
}

/// The content of an AP2 body as values.
#[verifier::ext_equal]
pub struct Ap2BodyView {
    pub ap2_version: Seq<char>,
    pub mandate_type: Seq<char>,
    pub mandate_id: Seq<char>,
    pub principal: Seq<char>,
    pub agent: Seq<char>,
    pub max_amount: u64,
    pub currency: Seq<char>,
    pub allowed_merchants: Seq<Seq<char>>,
    pub issued_at: Seq<char>,
    pub not_after: Seq<char>,
}

impl View for Ap2Body {
    type V = Ap2BodyView;

    closed spec fn view(&self) -> Ap2BodyView {
        Ap2BodyView {
            ap2_version: self.ap2_version@,
            mandate_type: self.mandate_type@,
            mandate_id: self.mandate_id@,
            principal: self.principal@,
            agent: self.agent@,
            max_amount: self.max_amount,
            currency: self.currency@,
            allowed_merchants: strings_view(self.allowed_merchants@),
            issued_at: self.issued_at@,
            not_after: self.not_after@,
        }
    }
}

/// The canonical text an AP2 signature covers: the body's fields in declaration order.
pub open spec fn ap2_canonical(b: Ap2BodyView) -> Seq<char> {
    "{\"ap2_version\":"@ + quoted(b.ap2_version) + ",\"mandate_type\":"@ + quoted(b.mandate_type)
        + ",\"mandate_id\":"@ + quoted(b.mandate_id) + ",\"principal\":"@ + quoted(b.principal)
        + ",\"agent\":"@ + quoted(b.agent) + ",\"max_amount\":"@ + dec_of(b.max_amount as nat)
        + ",\"currency\":"@ + quoted(b.currency) + ",\"allowed_merchants\":"@ + string_list(
        b.allowed_merchants,
    ) + ",\"issued_at\":"@ + quoted(b.issued_at) + ",\"not_after\":"@ + quoted(b.not_after) + "}"@
}

/// The canonical text of a body, grouped from the right: each opening, then its value, then the
/// rest.
proof fn lemma_ap2_canonical_right(b: Ap2BodyView)
    ensures
        ap2_canonical(b) == ("{\"ap2_version\":"@ + (crate::json::quoted(b.ap2_version) + (",\"mandate_type\":"@ + (crate::json::quoted(b.mandate_type) + (",\"mandate_id\":"@ + (crate::json::quoted(b.mandate_id) + (",\"principal\":"@ + (crate::json::quoted(b.principal) + (",\"agent\":"@ + (crate::json::quoted(b.agent) + (",\"max_amount\":"@ + (dec_of(b.max_amount as nat) + (",\"currency\":"@ + (crate::json::quoted(b.currency) + (",\"allowed_merchants\":"@ + (string_list(b.allowed_merchants) + (",\"issued_at\":"@ + (crate::json::quoted(b.issued_at) + (",\"not_after\":"@ + (crate::json::quoted(b.not_after) + "}"@)))))))))))))))))))),
{
    let r10 = "}"@;
    let r9 = ",\"not_after\":"@ + (crate::json::quoted(b.not_after) + r10);
    let r8 = ",\"issued_at\":"@ + (crate::json::quoted(b.issued_at) + r9);
    let r7 = ",\"allowed_merchants\":"@ + (string_list(b.allowed_merchants) + r8);
    let r6 = ",\"currency\":"@ + (crate::json::quoted(b.currency) + r7);
    let r5 = ",\"max_amount\":"@ + (dec_of(b.max_amount as nat) + r6);
    let r4 = ",\"agent\":"@ + (crate::json::quoted(b.agent) + r5);
    let r3 = ",\"principal\":"@ + (crate::json::quoted(b.principal) + r4);
    let r2 = ",\"mandate_id\":"@ + (crate::json::quoted(b.mandate_id) + r3);
    let r1 = ",\"mandate_type\":"@ + (crate::json::quoted(b.mandate_type) + r2);
    let r0 = "{\"ap2_version\":"@ + (crate::json::quoted(b.ap2_version) + r1);
    let p0 = "{\"ap2_version\":"@ + crate::json::quoted(b.ap2_version);
    let p1 = p0 + ",\"mandate_type\":"@ + crate::json::quoted(b.mandate_type);
    let p2 = p1 + ",\"mandate_id\":"@ + crate::json::quoted(b.mandate_id);
    let p3 = p2 + ",\"principal\":"@ + crate::json::quoted(b.principal);
    let p4 = p3 + ",\"agent\":"@ + crate::json::quoted(b.agent);
    let p5 = p4 + ",\"max_amount\":"@ + dec_of(b.max_amount as nat);
    let p6 = p5 + ",\"currency\":"@ + crate::json::quoted(b.currency);
    let p7 = p6 + ",\"allowed_merchants\":"@ + string_list(b.allowed_merchants);
    let p8 = p7 + ",\"issued_at\":"@ + crate::json::quoted(b.issued_at);
    let p9 = p8 + ",\"not_after\":"@ + crate::json::quoted(b.not_after);
    assert(ap2_canonical(b) == p9 + r10);
    crate::unique::lemma_regroup(p8, ",\"not_after\":"@, crate::json::quoted(b.not_after), r10);
    crate::unique::lemma_regroup(p7, ",\"issued_at\":"@, crate::json::quoted(b.issued_at), r9);
    crate::unique::lemma_regroup(p6, ",\"allowed_merchants\":"@, string_list(b.allowed_merchants), r8);
    crate::unique::lemma_regroup(p5, ",\"currency\":"@, crate::json::quoted(b.currency), r7);
    crate::unique::lemma_regroup(p4, ",\"max_amount\":"@, dec_of(b.max_amount as nat), r6);
    crate::unique::lemma_regroup(p3, ",\"agent\":"@, crate::json::quoted(b.agent), r5);
    crate::unique::lemma_regroup(p2, ",\"principal\":"@, crate::json::quoted(b.principal), r4);
    crate::unique::lemma_regroup(p1, ",\"mandate_id\":"@, crate::json::quoted(b.mandate_id), r3);
    crate::unique::lemma_regroup(p0, ",\"mandate_type\":"@, crate::json::quoted(b.mandate_type), r2);
    crate::unique::lemma_regroup(Seq::<char>::empty(), "{\"ap2_version\":"@, crate::json::quoted(b.ap2_version), r1);
}

/// The text form of [`ap2_canonical`]: the canonical texts of two bodies agree only where the bodies do.
#[verifier::spinoff_prover]
#[verifier::rlimit(100)]
proof fn lemma_ap2_canonical_text(b1: Ap2BodyView, b2: Ap2BodyView)
    requires
        ap2_canonical(b1) == ap2_canonical(b2),
    ensures
        b1 == b2,
{
    reveal_strlit(",\"currency\":");
    let r10_1 = "}"@;
    let r9_1 = ",\"not_after\":"@ + (crate::json::quoted(b1.not_after) + r10_1);
    let r8_1 = ",\"issued_at\":"@ + (crate::json::quoted(b1.issued_at) + r9_1);
    let r7_1 = ",\"allowed_merchants\":"@ + (string_list(b1.allowed_merchants) + r8_1);
    let r6_1 = ",\"currency\":"@ + (crate::json::quoted(b1.currency) + r7_1);
    let r5_1 = ",\"max_amount\":"@ + (dec_of(b1.max_amount as nat) + r6_1);
    let r4_1 = ",\"agent\":"@ + (crate::json::quoted(b1.agent) + r5_1);
    let r3_1 = ",\"principal\":"@ + (crate::json::quoted(b1.principal) + r4_1);
    let r2_1 = ",\"mandate_id\":"@ + (crate::json::quoted(b1.mandate_id) + r3_1);
    let r1_1 = ",\"mandate_type\":"@ + (crate::json::quoted(b1.mandate_type) + r2_1);
    let r0_1 = "{\"ap2_version\":"@ + (crate::json::quoted(b1.ap2_version) + r1_1);
    lemma_ap2_canonical_right(b1);
    let r10_2 = "}"@;
    let r9_2 = ",\"not_after\":"@ + (crate::json::quoted(b2.not_after) + r10_2);
    let r8_2 = ",\"issued_at\":"@ + (crate::json::quoted(b2.issued_at) + r9_2);
    let r7_2 = ",\"allowed_merchants\":"@ + (string_list(b2.allowed_merchants) + r8_2);
    let r6_2 = ",\"currency\":"@ + (crate::json::quoted(b2.currency) + r7_2);
    let r5_2 = ",\"max_amount\":"@ + (dec_of(b2.max_amount as nat) + r6_2);
    let r4_2 = ",\"agent\":"@ + (crate::json::quoted(b2.agent) + r5_2);
    let r3_2 = ",\"principal\":"@ + (crate::json::quoted(b2.principal) + r4_2);
    let r2_2 = ",\"mandate_id\":"@ + (crate::json::quoted(b2.mandate_id) + r3_2);
    let r1_2 = ",\"mandate_type\":"@ + (crate::json::quoted(b2.mandate_type) + r2_2);
    let r0_2 = "{\"ap2_version\":"@ + (crate::json::quoted(b2.ap2_version) + r1_2);
    lemma_ap2_canonical_right(b2);
    crate::unique::lemma_cancel_front("{\"ap2_version\":"@, crate::json::quoted(b1.ap2_version) + r1_1, crate::json::quoted(b2.ap2_version) + r1_2);
    crate::unique::lemma_quoted_front(b1.ap2_version, b2.ap2_version, r1_1, r1_2);
    crate::unique::lemma_cancel_front(",\"mandate_type\":"@, crate::json::quoted(b1.mandate_type) + r2_1, crate::json::quoted(b2.mandate_type) + r2_2);
    crate::unique::lemma_quoted_front(b1.mandate_type, b2.mandate_type, r2_1, r2_2);
    crate::unique::lemma_cancel_front(",\"mandate_id\":"@, crate::json::quoted(b1.mandate_id) + r3_1, crate::json::quoted(b2.mandate_id) + r3_2);
    crate::unique::lemma_quoted_front(b1.mandate_id, b2.mandate_id, r3_1, r3_2);
    crate::unique::lemma_cancel_front(",\"principal\":"@, crate::json::quoted(b1.principal) + r4_1, crate::json::quoted(b2.principal) + r4_2);
    crate::unique::lemma_quoted_front(b1.principal, b2.principal, r4_1, r4_2);
    crate::unique::lemma_cancel_front(",\"agent\":"@, crate::json::quoted(b1.agent) + r5_1, crate::json::quoted(b2.agent) + r5_2);
    crate::unique::lemma_quoted_front(b1.agent, b2.agent, r5_1, r5_2);
    crate::unique::lemma_cancel_front(",\"max_amount\":"@, dec_of(b1.max_amount as nat) + r6_1, dec_of(b2.max_amount as nat) + r6_2);
    assert(r6_1[0] == ',' && r6_2[0] == ',');
    crate::unique::lemma_dec_front(b1.max_amount as nat, b2.max_amount as nat, r6_1, r6_2);
    crate::unique::lemma_cancel_front(",\"currency\":"@, crate::json::quoted(b1.currency) + r7_1, crate::json::quoted(b2.currency) + r7_2);
    crate::unique::lemma_quoted_front(b1.currency, b2.currency, r7_1, r7_2);
    crate::unique::lemma_cancel_front(",\"allowed_merchants\":"@, string_list(b1.allowed_merchants) + r8_1, string_list(b2.allowed_merchants) + r8_2);
    crate::unique::lemma_list_front(b1.allowed_merchants, b2.allowed_merchants, r8_1, r8_2);
    crate::unique::lemma_cancel_front(",\"issued_at\":"@, crate::json::quoted(b1.issued_at) + r9_1, crate::json::quoted(b2.issued_at) + r9_2);
    crate::unique::lemma_quoted_front(b1.issued_at, b2.issued_at, r9_1, r9_2);
    crate::unique::lemma_cancel_front(",\"not_after\":"@, crate::json::quoted(b1.not_after) + r10_1, crate::json::quoted(b2.not_after) + r10_2);
    crate::unique::lemma_quoted_front(b1.not_after, b2.not_after, r10_1, r10_2);
}

/// The bytes an AP2 signature covers determine the whole body: two bodies whose canonical
/// bytes are equal are equal, so a signature over them covers every field, `not_after`
/// included.
pub proof fn law_ap2_canonical_one_to_one(b1: Ap2BodyView, b2: Ap2BodyView)
    requires
        vstd::utf8::encode_utf8(ap2_canonical(b1)) == vstd::utf8::encode_utf8(ap2_canonical(b2)),
    ensures
        b1 == b2,
{
    vstd::utf8::encode_utf8_decode_utf8(ap2_canonical(b1));
    vstd::utf8::encode_utf8_decode_utf8(ap2_canonical(b2));
    lemma_ap2_canonical_text(b1, b2);
}

/// The signed AP2 wire: the body's fields and `signature`, keys sorted.
pub open spec fn ap2_wire_text(b: Ap2BodyView, sig: Seq<char>) -> Seq<char> {
    "{\"agent\":"@ + quoted(b.agent) + ",\"allowed_merchants\":"@ + string_list(b.allowed_merchants)
        + ",\"ap2_version\":"@ + quoted(b.ap2_version) + ",\"currency\":"@ + quoted(b.currency)
        + ",\"issued_at\":"@ + quoted(b.issued_at) + ",\"mandate_id\":"@ + quoted(b.mandate_id)
        + ",\"mandate_type\":"@ + quoted(b.mandate_type) + ",\"max_amount\":"@ + dec_of(
        b.max_amount as nat,
    ) + ",\"not_after\":"@ + quoted(b.not_after) + ",\"principal\":"@ + quoted(b.principal)
        + ",\"signature\":"@ + quoted(sig) + "}"@
}

/// The AP2 body and signature text that a wire holds: one JSON object whose values are all
/// well-formed, whose keys read as strings, with each body field and `signature` exactly once
/// and of its type; other members carry nothing.
pub open spec fn ap2_wire(s: Seq<u8>) -> Option<(Ap2BodyView, Seq<char>)> {
    match document_object(s, Skip::Buffered(126)) {
        None => None,
        Some(ms) => match keys_of(s, ms) {
            None => None,
            Some(keys) => {
                let ap2_version = text_field(s, keys, ms, "ap2_version"@);
                let mandate_type = text_field(s, keys, ms, "mandate_type"@);
                let mandate_id = text_field(s, keys, ms, "mandate_id"@);
                let principal = text_field(s, keys, ms, "principal"@);
                let agent = text_field(s, keys, ms, "agent"@);
                let max_amount = u64_field(s, keys, ms, "max_amount"@);
                let currency = text_field(s, keys, ms, "currency"@);
                let allowed_merchants = strings_field(s, keys, ms, "allowed_merchants"@);
                let issued_at = text_field(s, keys, ms, "issued_at"@);
                let not_after = text_field(s, keys, ms, "not_after"@);
                let signature = text_field(s, keys, ms, "signature"@);
                if ap2_version is Some && mandate_type is Some && mandate_id is Some && principal is Some
                    && agent is Some && max_amount is Some && currency is Some && allowed_merchants is Some
                    && issued_at is Some && not_after is Some && signature is Some {
                    Some(
                        (
                            Ap2BodyView {
                                ap2_version: ap2_version.unwrap(),
                                mandate_type: mandate_type.unwrap(),
                                mandate_id: mandate_id.unwrap(),
                                principal: principal.unwrap(),
                                agent: agent.unwrap(),
                                max_amount: max_amount.unwrap(),
                                currency: currency.unwrap(),
                                allowed_merchants: allowed_merchants.unwrap(),
                                issued_at: issued_at.unwrap(),
                                not_after: not_after.unwrap(),
                            },
                            signature.unwrap(),
                        ),
                    )
                } else {
                    None
                }
            },
        },
    }
}

/// The first AP2 field, in reading order, that does not read.
pub open spec fn ap2_bad_field(s: Seq<u8>) -> Seq<char> {
    let ms = document_object(s, Skip::Buffered(126)).unwrap();
    let keys = keys_of(s, ms).unwrap();
    if text_field(s, keys, ms, "ap2_version"@) is None {
        "ap2_version"@
    } else if text_field(s, keys, ms, "mandate_type"@) is None {
        "mandate_type"@
    } else if text_field(s, keys, ms, "mandate_id"@) is None {
        "mandate_id"@
    } else if text_field(s, keys, ms, "principal"@) is None {
        "principal"@
    } else if text_field(s, keys, ms, "agent"@) is None {
        "agent"@
    } else if u64_field(s, keys, ms, "max_amount"@) is None {
        "max_amount"@
    } else if text_field(s, keys, ms, "currency"@) is None {
        "currency"@
    } else if strings_field(s, keys, ms, "allowed_merchants"@) is None {
        "allowed_merchants"@
    } else if text_field(s, keys, ms, "issued_at"@) is None {
        "issued_at"@
    } else if text_field(s, keys, ms, "not_after"@) is None {
        "not_after"@
    } else {
        "signature"@
    }
}

/// The neutral mandate an AP2 body maps onto, given its two times.
pub open spec fn ap2_mandate(b: Ap2BodyView, created: (i64, u32), expires: (i64, u32)) -> MandateView {
    MandateView {
        mandate_id: b.mandate_id,
        user_id: b.principal,
        agent_id: b.agent,
        intent_description: "ap2:"@ + b.mandate_type,
        max_amount_cents: b.max_amount,
        currency: b.currency,
        allowed_merchants: b.allowed_merchants,
        created_at: created,
        expires_at: expires,
    }
}

/// What the AP2 adapter gives: `Malformed`, with the reason, where the wire does not read; else the outcome of
/// checking the signature over the canonical body bytes with the principal's key; then the
/// times, then the neutral mandate.
pub open spec fn ap2_result(wire: Seq<u8>, reg: Map<Seq<char>, Seq<u8>>, r: Result<IntentMandate, VerifyError>) -> bool {
    match ap2_wire(wire) {
        None => r matches Err(VerifyError::Malformed(msg)) && msg@ == frame_problem(wire, ap2_bad_field(wire)),
        Some(p) => match detached_check(p.0.principal, vstd::utf8::encode_utf8(ap2_canonical(p.0)), p.1, reg) {
            Check::UnknownUser => r matches Err(VerifyError::UnknownUser(u)) && u@ == p.0.principal,
            Check::BadSignature => r matches Err(VerifyError::BadSignature),
            Check::Pass => stamped_result(p.0.issued_at, p.0.not_after, |c: (i64, u32), x: (i64, u32)| ap2_mandate(p.0, c, x), r),
        },
    }
}

impl Ap2Body {
    fn canonical(&self) -> (bytes: Vec<u8>)
        ensures
            bytes@ == vstd::utf8::encode_utf8(ap2_canonical(self@)),
    {
        let mut s = String::new();
        push_str(&mut s, "{\"ap2_version\":");
        push_quoted(&mut s, self.ap2_version.as_str());
        push_str(&mut s, ",\"mandate_type\":");
        push_quoted(&mut s, self.mandate_type.as_str());
        push_str(&mut s, ",\"mandate_id\":");
        push_quoted(&mut s, self.mandate_id.as_str());
        push_str(&mut s, ",\"principal\":");
        push_quoted(&mut s, self.principal.as_str());
        push_str(&mut s, ",\"agent\":");
        push_quoted(&mut s, self.agent.as_str());
        push_str(&mut s, ",\"max_amount\":");
        push_u64(&mut s, self.max_amount);
        push_str(&mut s, ",\"currency\":");
        push_quoted(&mut s, self.currency.as_str());
        push_str(&mut s, ",\"allowed_merchants\":");
        push_string_list(&mut s, &self.allowed_merchants);
        push_str(&mut s, ",\"issued_at\":");
        push_quoted(&mut s, self.issued_at.as_str());
        push_str(&mut s, ",\"not_after\":");
        push_quoted(&mut s, self.not_after.as_str());
        push_str(&mut s, "}");
        assert(s@ =~= ap2_canonical(self@));
        s.as_str().as_bytes_vec()
    }

    fn wire(&self, sig: &str) -> (bytes: Vec<u8>)
        ensures
            bytes@ == vstd::utf8::encode_utf8(ap2_wire_text(self@, sig@)),
    {
        let mut s = String::new();
        push_str(&mut s, "{\"agent\":");
        push_quoted(&mut s, self.agent.as_str());
        push_str(&mut s, ",\"allowed_merchants\":");
        push_string_list(&mut s, &self.allowed_merchants);
        push_str(&mut s, ",\"ap2_version\":");
        push_quoted(&mut s, self.ap2_version.as_str());
        push_str(&mut s, ",\"currency\":");
        push_quoted(&mut s, self.currency.as_str());
        push_str(&mut s, ",\"issued_at\":");
        push_quoted(&mut s, self.issued_at.as_str());
        push_str(&mut s, ",\"mandate_id\":");
        push_quoted(&mut s, self.mandate_id.as_str());
        push_str(&mut s, ",\"mandate_type\":");
        push_quoted(&mut s, self.mandate_type.as_str());
        push_str(&mut s, ",\"max_amount\":");
        push_u64(&mut s, self.max_amount);
        push_str(&mut s, ",\"not_after\":");
        push_quoted(&mut s, self.not_after.as_str());
        push_str(&mut s, ",\"principal\":");
        push_quoted(&mut s, self.principal.as_str());
        push_str(&mut s, ",\"signature\":");
        push_quoted(&mut s, sig);
        push_str(&mut s, "}");
        assert(s@ =~= ap2_wire_text(self@, sig@));
        s.as_str().as_bytes_vec()
    }
}

/// The members of the signed AP2 wire, keys in sorted order.
pub open spec fn ap2_members(b: Ap2BodyView, sig: Seq<char>) -> Seq<(Seq<char>, Written)> {
    seq![
        ("agent"@, Written::Text(b.agent)),
        ("allowed_merchants"@, Written::List(b.allowed_merchants)),
        ("ap2_version"@, Written::Text(b.ap2_version)),
        ("currency"@, Written::Text(b.currency)),
        ("issued_at"@, Written::Text(b.issued_at)),
        ("mandate_id"@, Written::Text(b.mandate_id)),
        ("mandate_type"@, Written::Text(b.mandate_type)),
        ("max_amount"@, Written::Nat(b.max_amount)),
        ("not_after"@, Written::Text(b.not_after)),
        ("principal"@, Written::Text(b.principal)),
        ("signature"@, Written::Text(sig)),
    ]
}

/// The keys of the signed AP2 wire, in sorted order.
pub open spec fn ap2_keys() -> Seq<Seq<char>> {
    seq![
        "agent"@,
        "allowed_merchants"@,
        "ap2_version"@,
        "currency"@,
        "issued_at"@,
        "mandate_id"@,
        "mandate_type"@,
        "max_amount"@,
        "not_after"@,
        "principal"@,
        "signature"@,
    ]
}

/// The AP2 wire keys are plain and all different.
proof fn lemma_ap2_keys()
    ensures
        ap2_keys().len() == 11,
        forall|i: int| 0 <= i < 11 ==> plain_key(#[trigger] ap2_keys()[i]),
        forall|a: int, b: int| 0 <= a < b < 11 ==> ap2_keys()[a] != ap2_keys()[b],
{
    reveal_strlit("agent");
    reveal_strlit("allowed_merchants");
    reveal_strlit("ap2_version");
    reveal_strlit("currency");
    reveal_strlit("issued_at");
    reveal_strlit("mandate_id");
    reveal_strlit("mandate_type");
    reveal_strlit("max_amount");
    reveal_strlit("not_after");
    reveal_strlit("principal");
    reveal_strlit("signature");
    let k = ap2_keys();
    assert forall|i: int| 0 <= i < 11 implies plain_key(#[trigger] k[i]) by {
        assert(k[i] == ap2_keys()[i]);
    }
    assert(k[5][2] != k[7][2]);
    assert forall|a: int, b: int| 0 <= a < b < 11 implies k[a] != k[b] by {
        if a == 5 && b == 7 {
            assert(k[a][2] != k[b][2]);
        } else if k[a].len() == k[b].len() {
            assert(k[a][0] != k[b][0]);
        } else {
            assert(k[a].len() != k[b].len());
        }
    }
}

/// The pieces of the AP2 wire text: each opening is a comma (a brace for the first) and a key's text.
proof fn lemma_ap2_literals()
    ensures
        "{\"agent\":"@ == seq!['{'] + key_text("agent"@),
        ",\"allowed_merchants\":"@ == seq![','] + key_text("allowed_merchants"@),
        ",\"ap2_version\":"@ == seq![','] + key_text("ap2_version"@),
        ",\"currency\":"@ == seq![','] + key_text("currency"@),
        ",\"issued_at\":"@ == seq![','] + key_text("issued_at"@),
        ",\"mandate_id\":"@ == seq![','] + key_text("mandate_id"@),
        ",\"mandate_type\":"@ == seq![','] + key_text("mandate_type"@),
        ",\"max_amount\":"@ == seq![','] + key_text("max_amount"@),
        ",\"not_after\":"@ == seq![','] + key_text("not_after"@),
        ",\"principal\":"@ == seq![','] + key_text("principal"@),
        ",\"signature\":"@ == seq![','] + key_text("signature"@),
        "}"@ == seq!['}'],
{
    reveal_strlit("{\"agent\":");
    reveal_strlit(",\"allowed_merchants\":");
    reveal_strlit(",\"ap2_version\":");
    reveal_strlit(",\"currency\":");
    reveal_strlit(",\"issued_at\":");
    reveal_strlit(",\"mandate_id\":");
    reveal_strlit(",\"mandate_type\":");
    reveal_strlit(",\"max_amount\":");
    reveal_strlit(",\"not_after\":");
    reveal_strlit(",\"principal\":");
    reveal_strlit(",\"signature\":");
    reveal_strlit("}");
    reveal_strlit("agent");
    reveal_strlit("allowed_merchants");
    reveal_strlit("ap2_version");
    reveal_strlit("currency");
    reveal_strlit("issued_at");
    reveal_strlit("mandate_id");
    reveal_strlit("mandate_type");
    reveal_strlit("max_amount");
    reveal_strlit("not_after");
    reveal_strlit("principal");
    reveal_strlit("signature");
    assert("{\"agent\":"@ =~= seq!['{'] + key_text("agent"@));
    assert(",\"allowed_merchants\":"@ =~= seq![','] + key_text("allowed_merchants"@));
    assert(",\"ap2_version\":"@ =~= seq![','] + key_text("ap2_version"@));
    assert(",\"currency\":"@ =~= seq![','] + key_text("currency"@));
    assert(",\"issued_at\":"@ =~= seq![','] + key_text("issued_at"@));
    assert(",\"mandate_id\":"@ =~= seq![','] + key_text("mandate_id"@));
    assert(",\"mandate_type\":"@ =~= seq![','] + key_text("mandate_type"@));
    assert(",\"max_amount\":"@ =~= seq![','] + key_text("max_amount"@));
    assert(",\"not_after\":"@ =~= seq![','] + key_text("not_after"@));
    assert(",\"principal\":"@ =~= seq![','] + key_text("principal"@));
    assert(",\"signature\":"@ =~= seq![','] + key_text("signature"@));
    assert("}"@ =~= seq!['}']);
}

/// The AP2 wire text is the object of the AP2 wire members.
proof fn lemma_ap2_text(b: Ap2BodyView, sig: Seq<char>)
    ensures
        ap2_wire_text(b, sig) == object_text(ap2_members(b, sig)),
{
    lemma_ap2_literals();
    let ms = ap2_members(b, sig);
    crate::json::lemma_members_unfold(ms, 0);
    crate::json::lemma_members_unfold(ms, 1);
    crate::json::lemma_members_unfold(ms, 2);
    crate::json::lemma_members_unfold(ms, 3);
    crate::json::lemma_members_unfold(ms, 4);
    crate::json::lemma_members_unfold(ms, 5);
    crate::json::lemma_members_unfold(ms, 6);
    crate::json::lemma_members_unfold(ms, 7);
    crate::json::lemma_members_unfold(ms, 8);
    crate::json::lemma_members_unfold(ms, 9);
    crate::json::lemma_members_unfold(ms, 10);
    assert(ms.subrange(0, 11) =~= ms);
    let t0 = members_text(ms.subrange(0, 11));
    let t1 = members_text(ms.subrange(1, 11));
    let t2 = members_text(ms.subrange(2, 11));
    let t3 = members_text(ms.subrange(3, 11));
    let t4 = members_text(ms.subrange(4, 11));
    let t5 = members_text(ms.subrange(5, 11));
    let t6 = members_text(ms.subrange(6, 11));
    let t7 = members_text(ms.subrange(7, 11));
    let t8 = members_text(ms.subrange(8, 11));
    let t9 = members_text(ms.subrange(9, 11));
    let t10 = members_text(ms.subrange(10, 11));
    let p0 = "{\"agent\":"@ + quoted(b.agent);
    let p1 = p0 + ",\"allowed_merchants\":"@ + string_list(b.allowed_merchants);
    let p2 = p1 + ",\"ap2_version\":"@ + quoted(b.ap2_version);
    let p3 = p2 + ",\"currency\":"@ + quoted(b.currency);
    let p4 = p3 + ",\"issued_at\":"@ + quoted(b.issued_at);
    let p5 = p4 + ",\"mandate_id\":"@ + quoted(b.mandate_id);
    let p6 = p5 + ",\"mandate_type\":"@ + quoted(b.mandate_type);
    let p7 = p6 + ",\"max_amount\":"@ + dec_of(b.max_amount as nat);
    let p8 = p7 + ",\"not_after\":"@ + quoted(b.not_after);
    let p9 = p8 + ",\"principal\":"@ + quoted(b.principal);
    let p10 = p9 + ",\"signature\":"@ + quoted(sig);
    assert(seq!['{'] + t0 =~= p0 + seq![','] + t1);
    crate::mandate::lemma_wire_step(p0, ",\"allowed_merchants\":"@, "allowed_merchants"@, string_list(b.allowed_merchants), t2);
    crate::mandate::lemma_wire_step(p1, ",\"ap2_version\":"@, "ap2_version"@, quoted(b.ap2_version), t3);
    crate::mandate::lemma_wire_step(p2, ",\"currency\":"@, "currency"@, quoted(b.currency), t4);
    crate::mandate::lemma_wire_step(p3, ",\"issued_at\":"@, "issued_at"@, quoted(b.issued_at), t5);
    crate::mandate::lemma_wire_step(p4, ",\"mandate_id\":"@, "mandate_id"@, quoted(b.mandate_id), t6);
    crate::mandate::lemma_wire_step(p5, ",\"mandate_type\":"@, "mandate_type"@, quoted(b.mandate_type), t7);
    crate::mandate::lemma_wire_step(p6, ",\"max_amount\":"@, "max_amount"@, dec_of(b.max_amount as nat), t8);
    crate::mandate::lemma_wire_step(p7, ",\"not_after\":"@, "not_after"@, quoted(b.not_after), t9);
    crate::mandate::lemma_wire_step(p8, ",\"principal\":"@, "principal"@, quoted(b.principal), t10);
    crate::mandate::lemma_wire_step(p9, ",\"signature\":"@, "signature"@, quoted(sig), Seq::empty());
    assert(ap2_wire_text(b, sig) == p10 + "}"@);
    assert(ap2_wire_text(b, sig) =~= object_text(ms));
}

/// The AP2 wire written for `b`, as bytes, read by the buffering reader: one object whose
/// members hold the AP2 keys and the written values.
proof fn lemma_ap2_object(s: Seq<u8>, b: Ap2BodyView, sig: Seq<char>)
    requires
        s == vstd::utf8::encode_utf8(ap2_wire_text(b, sig)),
        crate::json::skip_ws(s, 0) < s.len() && s[crate::json::skip_ws(s, 0)] == 123 ==> crate::json::members_facts(
            s,
            crate::json::skip_ws(s, crate::json::skip_ws(s, 0) + 1),
            Skip::Buffered(126),
        ),
    ensures
        ({
            let sp = written_spans(ap2_members(b, sig), 1);
            &&& document_object(s, Skip::Buffered(126)) == Some(sp)
            &&& sp.len() == 11
            &&& forall|i: int|
                0 <= i < 11 ==> s.subrange(#[trigger] sp[i].0, sp[i].1) == vstd::utf8::encode_utf8(
                    quoted(ap2_keys()[i]),
                ) && s.subrange(sp[i].2, sp[i].3) == written_bytes(ap2_members(b, sig)[i].1)
        }),
{
    let ms = ap2_members(b, sig);
    lemma_ap2_text(b, sig);
    lemma_ap2_keys();
    assert forall|i: int| 0 <= i < ms.len() implies plain_key(#[trigger] ms[i].0) by {
        assert(ms[i].0 == ap2_keys()[i]);
    }
    assert forall|i: int| 0 <= i < ms.len() implies crate::json::fits(#[trigger] ms[i].1, 126) by {
        assert(!(ms[i].1 is Object));
    }
    crate::json::lemma_written_document(s, ms, 126);
    let sp = written_spans(ms, 1);
    assert forall|i: int| 0 <= i < 11 implies s.subrange(#[trigger] sp[i].0, sp[i].1) == vstd::utf8::encode_utf8(
        quoted(ap2_keys()[i]),
    ) && s.subrange(sp[i].2, sp[i].3) == written_bytes(ms[i].1) by {
        assert(ms[i].0 == ap2_keys()[i]);
    }
}

/// Reads an AP2 wire into its body and signature text; a wire as [`Ap2Body::wire`] writes it
/// reads back as the body and signature text written.
#[verifier::spinoff_prover]
#[verifier::rlimit(60)]
fn read_ap2_wire(s: &[u8]) -> (r: Result<(Ap2Body, String), String>)
    ensures
        r matches Ok(p) ==> ap2_wire(s@) == Some((p.0@, p.1@)),
        r matches Err(e) ==> ap2_wire(s@) is None && e@ == frame_problem(s@, ap2_bad_field(s@)),
        forall|b: Ap2BodyView, sig: Seq<char>|
            #![trigger ap2_wire_text(b, sig)]
            s@ == vstd::utf8::encode_utf8(ap2_wire_text(b, sig)) ==> (r is Ok && r->Ok_0.0@ == b && r->Ok_0.1@ == sig),
{
    let ms = match document_object_x(s, Skip::Buffered(126)) {
        Some(v) => v,
        None => {
            proof {
                assert forall|b: Ap2BodyView, sig: Seq<char>|
                    s@ == vstd::utf8::encode_utf8(#[trigger] ap2_wire_text(b, sig)) implies false by {
                    lemma_ap2_object(s@, b, sig);
                }
            }
            return Err(not_an_object());
        },
    };
    let ghost sp = crate::json::member_spans(ms@);
    let keys = match keys_x(s, &ms) {
        Some(k) => k,
        None => {
            proof {
                assert forall|b: Ap2BodyView, sig: Seq<char>|
                    s@ == vstd::utf8::encode_utf8(#[trigger] ap2_wire_text(b, sig)) implies false by {
                    lemma_ap2_object(s@, b, sig);
                    crate::json::lemma_keys_written(s@, sp, ap2_keys());
                }
            }
            return Err(bad_key());
        },
    };
    let ap2_version_r = text_field_x(s, &keys, &ms, "ap2_version");
    let mandate_type_r = text_field_x(s, &keys, &ms, "mandate_type");
    let mandate_id_r = text_field_x(s, &keys, &ms, "mandate_id");
    let principal_r = text_field_x(s, &keys, &ms, "principal");
    let agent_r = text_field_x(s, &keys, &ms, "agent");
    let max_amount_r = u64_field_x(s, &keys, &ms, "max_amount");
    let currency_r = text_field_x(s, &keys, &ms, "currency");
    let allowed_merchants_r = strings_field_x(s, &keys, &ms, "allowed_merchants");
    let issued_at_r = text_field_x(s, &keys, &ms, "issued_at");
    let not_after_r = text_field_x(s, &keys, &ms, "not_after");
    let signature_r = text_field_x(s, &keys, &ms, "signature");
    proof {
        assert forall|b: Ap2BodyView, sig: Seq<char>|
            s@ == vstd::utf8::encode_utf8(#[trigger] ap2_wire_text(b, sig)) implies {
            &&& ap2_version_r is Some && ap2_version_r->0@ == b.ap2_version
            &&& mandate_type_r is Some && mandate_type_r->0@ == b.mandate_type
            &&& mandate_id_r is Some && mandate_id_r->0@ == b.mandate_id
            &&& principal_r is Some && principal_r->0@ == b.principal
            &&& agent_r is Some && agent_r->0@ == b.agent
            &&& max_amount_r == Some(b.max_amount)
            &&& currency_r is Some && currency_r->0@ == b.currency
            &&& allowed_merchants_r is Some && strings_view(allowed_merchants_r->0@) == b.allowed_merchants
            &&& issued_at_r is Some && issued_at_r->0@ == b.issued_at
            &&& not_after_r is Some && not_after_r->0@ == b.not_after
            &&& signature_r is Some && signature_r->0@ == sig
        } by {
            lemma_ap2_object(s@, b, sig);
            crate::json::lemma_keys_written(s@, sp, ap2_keys());
            lemma_ap2_keys();
            crate::json::lemma_fields_distinct(ap2_keys(), sp);
            reveal(written_bytes);
            assert(ap2_keys()[0] == "agent"@);
            assert(ap2_keys()[1] == "allowed_merchants"@);
            assert(ap2_keys()[2] == "ap2_version"@);
            assert(ap2_keys()[3] == "currency"@);
            assert(ap2_keys()[4] == "issued_at"@);
            assert(ap2_keys()[5] == "mandate_id"@);
            assert(ap2_keys()[6] == "mandate_type"@);
            assert(ap2_keys()[7] == "max_amount"@);
            assert(ap2_keys()[8] == "not_after"@);
            assert(ap2_keys()[9] == "principal"@);
            assert(ap2_keys()[10] == "signature"@);
            assert(s@.subrange(sp[0].0, sp[0].1) == vstd::utf8::encode_utf8(quoted(ap2_keys()[0])));
            assert(s@.subrange(sp[1].0, sp[1].1) == vstd::utf8::encode_utf8(quoted(ap2_keys()[1])));
            assert(s@.subrange(sp[2].0, sp[2].1) == vstd::utf8::encode_utf8(quoted(ap2_keys()[2])));
            assert(s@.subrange(sp[3].0, sp[3].1) == vstd::utf8::encode_utf8(quoted(ap2_keys()[3])));
            assert(s@.subrange(sp[4].0, sp[4].1) == vstd::utf8::encode_utf8(quoted(ap2_keys()[4])));
            assert(s@.subrange(sp[5].0, sp[5].1) == vstd::utf8::encode_utf8(quoted(ap2_keys()[5])));
            assert(s@.subrange(sp[6].0, sp[6].1) == vstd::utf8::encode_utf8(quoted(ap2_keys()[6])));
            assert(s@.subrange(sp[7].0, sp[7].1) == vstd::utf8::encode_utf8(quoted(ap2_keys()[7])));
            assert(s@.subrange(sp[8].0, sp[8].1) == vstd::utf8::encode_utf8(quoted(ap2_keys()[8])));
            assert(s@.subrange(sp[9].0, sp[9].1) == vstd::utf8::encode_utf8(quoted(ap2_keys()[9])));
            assert(s@.subrange(sp[10].0, sp[10].1) == vstd::utf8::encode_utf8(quoted(ap2_keys()[10])));
            assert(strings_view(keys@) == ap2_keys());
            assert(field(ap2_keys(), sp, ap2_keys()[0]) == Some((sp[0].2, sp[0].3)));
            assert(field(ap2_keys(), sp, ap2_keys()[1]) == Some((sp[1].2, sp[1].3)));
            assert(field(ap2_keys(), sp, ap2_keys()[2]) == Some((sp[2].2, sp[2].3)));
            assert(field(ap2_keys(), sp, ap2_keys()[3]) == Some((sp[3].2, sp[3].3)));
            assert(field(ap2_keys(), sp, ap2_keys()[4]) == Some((sp[4].2, sp[4].3)));
            assert(field(ap2_keys(), sp, ap2_keys()[5]) == Some((sp[5].2, sp[5].3)));
            assert(field(ap2_keys(), sp, ap2_keys()[6]) == Some((sp[6].2, sp[6].3)));
            assert(field(ap2_keys(), sp, ap2_keys()[7]) == Some((sp[7].2, sp[7].3)));
            assert(field(ap2_keys(), sp, ap2_keys()[8]) == Some((sp[8].2, sp[8].3)));
            assert(field(ap2_keys(), sp, ap2_keys()[9]) == Some((sp[9].2, sp[9].3)));
            assert(field(ap2_keys(), sp, ap2_keys()[10]) == Some((sp[10].2, sp[10].3)));
            assert(s@.subrange(sp[0].2, sp[0].3) == vstd::utf8::encode_utf8(quoted(b.agent)));
            assert(s@.subrange(sp[1].2, sp[1].3) == vstd::utf8::encode_utf8(string_list(b.allowed_merchants)));
            assert(s@.subrange(sp[2].2, sp[2].3) == vstd::utf8::encode_utf8(quoted(b.ap2_version)));
            assert(s@.subrange(sp[3].2, sp[3].3) == vstd::utf8::encode_utf8(quoted(b.currency)));
            assert(s@.subrange(sp[4].2, sp[4].3) == vstd::utf8::encode_utf8(quoted(b.issued_at)));
            assert(s@.subrange(sp[5].2, sp[5].3) == vstd::utf8::encode_utf8(quoted(b.mandate_id)));
            assert(s@.subrange(sp[6].2, sp[6].3) == vstd::utf8::encode_utf8(quoted(b.mandate_type)));
            assert(s@.subrange(sp[7].2, sp[7].3) == vstd::utf8::encode_utf8(dec_of(b.max_amount as nat)));
            assert(s@.subrange(sp[8].2, sp[8].3) == vstd::utf8::encode_utf8(quoted(b.not_after)));
            assert(s@.subrange(sp[9].2, sp[9].3) == vstd::utf8::encode_utf8(quoted(b.principal)));
            assert(s@.subrange(sp[10].2, sp[10].3) == vstd::utf8::encode_utf8(quoted(sig)));
        }
    }
    let ap2_version = match ap2_version_r { Some(v) => v, None => { return Err(field_problem("ap2_version")); } };
    let mandate_type = match mandate_type_r { Some(v) => v, None => { return Err(field_problem("mandate_type")); } };
    let mandate_id = match mandate_id_r { Some(v) => v, None => { return Err(field_problem("mandate_id")); } };
    let principal = match principal_r { Some(v) => v, None => { return Err(field_problem("principal")); } };
    let agent = match agent_r { Some(v) => v, None => { return Err(field_problem("agent")); } };
    let max_amount = match max_amount_r { Some(v) => v, None => { return Err(field_problem("max_amount")); } };
    let currency = match currency_r { Some(v) => v, None => { return Err(field_problem("currency")); } };
    let allowed_merchants = match allowed_merchants_r { Some(v) => v, None => { return Err(field_problem("allowed_merchants")); } };
    let issued_at = match issued_at_r { Some(v) => v, None => { return Err(field_problem("issued_at")); } };
    let not_after = match not_after_r { Some(v) => v, None => { return Err(field_problem("not_after")); } };
    let signature = match signature_r { Some(v) => v, None => { return Err(field_problem("signature")); } };
    let body = Ap2Body {
        ap2_version,
        mandate_type,
        mandate_id,
        principal,
        agent,
        max_amount,
        currency,
        allowed_merchants,
        issued_at,
        not_after,
    };
    assert(ap2_wire(s@) == Some((body@, signature@)));
    Ok((body, signature))
}

/// The AP2-style Intent Mandate wire.
pub struct Ap2;

impl MandateAdapter for Ap2 {
    open spec fn spec_name(&self) -> Seq<char> {
        "ap2"@
    }

    open spec fn parse_verify_result(
        &self,
        wire: Seq<u8>,
        reg: Map<Seq<char>, Seq<u8>>,
        r: Result<IntentMandate, VerifyError>,
    ) -> bool {
        ap2_result(wire, reg, r)
    }

    fn name(&self) -> (n: &'static str) {
        "ap2"
    }

    fn parse_verify(&self, wire: &[u8], registry: &MandateKeyRegistry) -> (r: Result<IntentMandate, VerifyError>)
        ensures
            forall|b: Ap2BodyView, sk: Seq<u8>|
                #![trigger detached_signature(vstd::utf8::encode_utf8(ap2_canonical(b)), sk)]
                ap2_wire(wire@) == Some((b, detached_signature(vstd::utf8::encode_utf8(ap2_canonical(b)), sk)))
                    && registry@.contains_key(b.principal) && registry@[b.principal] == crate::crypto::spec_ed25519_public(sk)
                    && crate::crypto::genuine(sk, spec_sha256(vstd::utf8::encode_utf8(ap2_canonical(b))))
                    && spec_parse_rfc3339(b.issued_at) is Ok && spec_parse_rfc3339(b.not_after) is Ok
                    ==> (r is Ok && r->Ok_0@ == ap2_mandate(
                        b,
                        spec_parse_rfc3339(b.issued_at)->Ok_0,
                        spec_parse_rfc3339(b.not_after)->Ok_0,
                    )),
            forall|b: Ap2BodyView, sk: Seq<u8>|
                #![trigger ap2_wire_text(b, detached_signature(vstd::utf8::encode_utf8(ap2_canonical(b)), sk))]
                wire@ == vstd::utf8::encode_utf8(ap2_wire_text(b, detached_signature(vstd::utf8::encode_utf8(ap2_canonical(b)), sk)))
                    && registry@.contains_key(b.principal) && registry@[b.principal] == crate::crypto::spec_ed25519_public(sk)
                    && crate::crypto::genuine(sk, spec_sha256(vstd::utf8::encode_utf8(ap2_canonical(b))))
                    && spec_parse_rfc3339(b.issued_at) is Ok && spec_parse_rfc3339(b.not_after) is Ok
                    ==> (r is Ok && r->Ok_0@ == ap2_mandate(
                        b,
                        spec_parse_rfc3339(b.issued_at)->Ok_0,
                        spec_parse_rfc3339(b.not_after)->Ok_0,
                    )),
    {
        let (body, signature) = match read_ap2_wire(wire) {
            Ok(p) => p,
            Err(msg) => { return Err(VerifyError::Malformed(msg)); },
        };
        let canonical = body.canonical();
        match verify_detached(body.principal.as_str(), canonical.as_slice(), signature.as_str(), registry) {
            Ok(()) => {},
            Err(e) => { return Err(e); },
        }
        let created_at = match stamp(&body.issued_at) { Ok(t) => t, Err(e) => { return Err(e); } };
        let expires_at = match stamp(&body.not_after) { Ok(t) => t, Err(e) => { return Err(e); } };
        let mut intent_description = String::new();
        push_str(&mut intent_description, "ap2:");
        push_str(&mut intent_description, body.mandate_type.as_str());
        let m = IntentMandate {
            mandate_id: body.mandate_id,
            user_id: body.principal,
            agent_id: body.agent,
            intent_description,
            max_amount_cents: body.max_amount,
            currency: body.currency,
            allowed_merchants: body.allowed_merchants,
            created_at,
            expires_at,
        };
        Ok(m)
    }
}

/// The AP2 body that [`ap2_sign_wire`] signs.
pub open spec fn ap2_body_of(
    mandate_id: Seq<char>,
    principal: Seq<char>,
    agent: Seq<char>,
    max_amount: u64,
    currency: Seq<char>,
    allowed_merchants: Seq<Seq<char>>,
    issued_at: Seq<char>,
    not_after: Seq<char>,
) -> Ap2BodyView {
    Ap2BodyView {
        ap2_version: "0.1"@,
        mandate_type: "intent"@,
        mandate_id,
        principal,
        agent,
        max_amount,
        currency,
        allowed_merchants,
        issued_at,
        not_after,
    }
}

/// Mint a signed AP2-style Intent Mandate wire (for demos and tests).
pub fn ap2_sign_wire(
    mandate_id: &str,
    principal: &str,
    agent: &str,
    max_amount: u64,
    currency: &str,
    allowed_merchants: &[&str],
    issued_at: &str,
    not_after: &str,
    sk: &SigningKey,
) -> (wire: Vec<u8>)
    ensures
        ({
            let b = ap2_body_of(mandate_id@, principal@, agent@, max_amount, currency@, strs_view(allowed_merchants@), issued_at@, not_after@);
            wire@ == vstd::utf8::encode_utf8(ap2_wire_text(b, detached_signature(vstd::utf8::encode_utf8(ap2_canonical(b)), sk@)))
        }),
{
    let body = Ap2Body {
        ap2_version: "0.1".to_owned(),
        mandate_type: "intent".to_owned(),
        mandate_id: mandate_id.to_owned(),
        principal: principal.to_owned(),
        agent: agent.to_owned(),
        max_amount,
        currency: currency.to_owned(),
        allowed_merchants: owned_list(allowed_merchants),
        issued_at: issued_at.to_owned(),
        not_after: not_after.to_owned(),
    };
    let canonical = body.canonical();
    let signature = sign_b64(canonical.as_slice(), sk);
    body.wire(signature.as_str())
}


// ── ACP-style Intent Mandate (different, nested shape) ────────────────

struct AcpLimit {
    max_cents: u64,
    currency: String,
    merchants: Vec<String>,
}

struct AcpBody {
    protocol: String,
    id: String,
    buyer: String,
    agent_id: String,
    limit: AcpLimit,
    issued_at: String,
    expires_at: String,
}

/// The content of an ACP limit as values.
#[verifier::ext_equal]
pub struct AcpLimitView {
    pub max_cents: u64,
    pub currency: Seq<char>,
    pub merchants: Seq<Seq<char>>,
}

/// The content of an ACP body as values.
#[verifier::ext_equal]
pub struct AcpBodyView {
    pub protocol: Seq<char>,
    pub id: Seq<char>,
    pub buyer: Seq<char>,
    pub agent_id: Seq<char>,
    pub limit: AcpLimitView,
    pub issued_at: Seq<char>,
    pub expires_at: Seq<char>,
}

impl View for AcpLimit {
    type V = AcpLimitView;

    closed spec fn view(&self) -> AcpLimitView {
        AcpLimitView { max_cents: self.max_cents, currency: self.currency@, merchants: strings_view(self.merchants@) }
    }
}

impl View for AcpBody {
    type V = AcpBodyView;

    closed spec fn view(&self) -> AcpBodyView {
        AcpBodyView {
            protocol: self.protocol@,
            id: self.id@,
            buyer: self.buyer@,
            agent_id: self.agent_id@,
            limit: self.limit@,
            issued_at: self.issued_at@,
            expires_at: self.expires_at@,
        }
    }
}

/// The canonical text an ACP signature covers: the body's fields in declaration order, the
/// limit nested.
pub open spec fn acp_canonical(b: AcpBodyView) -> Seq<char> {
    "{\"protocol\":"@ + quoted(b.protocol) + ",\"id\":"@ + quoted(b.id) + ",\"buyer\":"@ + quoted(b.buyer)
        + ",\"agent_id\":"@ + quoted(b.agent_id) + ",\"limit\":{\"max_cents\":"@ + dec_of(
        b.limit.max_cents as nat,
    ) + ",\"currency\":"@ + quoted(b.limit.currency) + ",\"merchants\":"@ + string_list(b.limit.merchants)
        + "},\"issued_at\":"@ + quoted(b.issued_at) + ",\"expires_at\":"@ + quoted(b.expires_at) + "}"@
}

/// The canonical text of a body, grouped from the right: each opening, then its value, then the
/// rest.
proof fn lemma_acp_canonical_right(b: AcpBodyView)
    ensures
        acp_canonical(b) == ("{\"protocol\":"@ + (crate::json::quoted(b.protocol) + (",\"id\":"@ + (crate::json::quoted(b.id) + (",\"buyer\":"@ + (crate::json::quoted(b.buyer) + (",\"agent_id\":"@ + (crate::json::quoted(b.agent_id) + (",\"limit\":{\"max_cents\":"@ + (dec_of(b.limit.max_cents as nat) + (",\"currency\":"@ + (crate::json::quoted(b.limit.currency) + (",\"merchants\":"@ + (string_list(b.limit.merchants) + ("},\"issued_at\":"@ + (crate::json::quoted(b.issued_at) + (",\"expires_at\":"@ + (crate::json::quoted(b.expires_at) + "}"@)))))))))))))))))),
{
    let r9 = "}"@;
    let r8 = ",\"expires_at\":"@ + (crate::json::quoted(b.expires_at) + r9);
    let r7 = "},\"issued_at\":"@ + (crate::json::quoted(b.issued_at) + r8);
    let r6 = ",\"merchants\":"@ + (string_list(b.limit.merchants) + r7);
    let r5 = ",\"currency\":"@ + (crate::json::quoted(b.limit.currency) + r6);
    let r4 = ",\"limit\":{\"max_cents\":"@ + (dec_of(b.limit.max_cents as nat) + r5);
    let r3 = ",\"agent_id\":"@ + (crate::json::quoted(b.agent_id) + r4);
    let r2 = ",\"buyer\":"@ + (crate::json::quoted(b.buyer) + r3);
    let r1 = ",\"id\":"@ + (crate::json::quoted(b.id) + r2);
    let r0 = "{\"protocol\":"@ + (crate::json::quoted(b.protocol) + r1);
    let p0 = "{\"protocol\":"@ + crate::json::quoted(b.protocol);
    let p1 = p0 + ",\"id\":"@ + crate::json::quoted(b.id);
    let p2 = p1 + ",\"buyer\":"@ + crate::json::quoted(b.buyer);
    let p3 = p2 + ",\"agent_id\":"@ + crate::json::quoted(b.agent_id);
    let p4 = p3 + ",\"limit\":{\"max_cents\":"@ + dec_of(b.limit.max_cents as nat);
    let p5 = p4 + ",\"currency\":"@ + crate::json::quoted(b.limit.currency);
    let p6 = p5 + ",\"merchants\":"@ + string_list(b.limit.merchants);
    let p7 = p6 + "},\"issued_at\":"@ + crate::json::quoted(b.issued_at);
    let p8 = p7 + ",\"expires_at\":"@ + crate::json::quoted(b.expires_at);
    assert(acp_canonical(b) == p8 + r9);
    crate::unique::lemma_regroup(p7, ",\"expires_at\":"@, crate::json::quoted(b.expires_at), r9);
    crate::unique::lemma_regroup(p6, "},\"issued_at\":"@, crate::json::quoted(b.issued_at), r8);
    crate::unique::lemma_regroup(p5, ",\"merchants\":"@, string_list(b.limit.merchants), r7);
    crate::unique::lemma_regroup(p4, ",\"currency\":"@, crate::json::quoted(b.limit.currency), r6);
    crate::unique::lemma_regroup(p3, ",\"limit\":{\"max_cents\":"@, dec_of(b.limit.max_cents as nat), r5);
    crate::unique::lemma_regroup(p2, ",\"agent_id\":"@, crate::json::quoted(b.agent_id), r4);
    crate::unique::lemma_regroup(p1, ",\"buyer\":"@, crate::json::quoted(b.buyer), r3);
    crate::unique::lemma_regroup(p0, ",\"id\":"@, crate::json::quoted(b.id), r2);
    crate::unique::lemma_regroup(Seq::<char>::empty(), "{\"protocol\":"@, crate::json::quoted(b.protocol), r1);
}

/// The text form of [`acp_canonical`]: the canonical texts of two bodies agree only where the bodies do.
#[verifier::spinoff_prover]
#[verifier::rlimit(100)]
proof fn lemma_acp_canonical_text(b1: AcpBodyView, b2: AcpBodyView)
    requires
        acp_canonical(b1) == acp_canonical(b2),
    ensures
        b1 == b2,
{
    reveal_strlit(",\"currency\":");
    let r9_1 = "}"@;
    let r8_1 = ",\"expires_at\":"@ + (crate::json::quoted(b1.expires_at) + r9_1);
    let r7_1 = "},\"issued_at\":"@ + (crate::json::quoted(b1.issued_at) + r8_1);
    let r6_1 = ",\"merchants\":"@ + (string_list(b1.limit.merchants) + r7_1);
    let r5_1 = ",\"currency\":"@ + (crate::json::quoted(b1.limit.currency) + r6_1);
    let r4_1 = ",\"limit\":{\"max_cents\":"@ + (dec_of(b1.limit.max_cents as nat) + r5_1);
    let r3_1 = ",\"agent_id\":"@ + (crate::json::quoted(b1.agent_id) + r4_1);
    let r2_1 = ",\"buyer\":"@ + (crate::json::quoted(b1.buyer) + r3_1);
    let r1_1 = ",\"id\":"@ + (crate::json::quoted(b1.id) + r2_1);
    let r0_1 = "{\"protocol\":"@ + (crate::json::quoted(b1.protocol) + r1_1);
    lemma_acp_canonical_right(b1);
    let r9_2 = "}"@;
    let r8_2 = ",\"expires_at\":"@ + (crate::json::quoted(b2.expires_at) + r9_2);
    let r7_2 = "},\"issued_at\":"@ + (crate::json::quoted(b2.issued_at) + r8_2);
    let r6_2 = ",\"merchants\":"@ + (string_list(b2.limit.merchants) + r7_2);
    let r5_2 = ",\"currency\":"@ + (crate::json::quoted(b2.limit.currency) + r6_2);
    let r4_2 = ",\"limit\":{\"max_cents\":"@ + (dec_of(b2.limit.max_cents as nat) + r5_2);
    let r3_2 = ",\"agent_id\":"@ + (crate::json::quoted(b2.agent_id) + r4_2);
    let r2_2 = ",\"buyer\":"@ + (crate::json::quoted(b2.buyer) + r3_2);
    let r1_2 = ",\"id\":"@ + (crate::json::quoted(b2.id) + r2_2);
    let r0_2 = "{\"protocol\":"@ + (crate::json::quoted(b2.protocol) + r1_2);
    lemma_acp_canonical_right(b2);
    crate::unique::lemma_cancel_front("{\"protocol\":"@, crate::json::quoted(b1.protocol) + r1_1, crate::json::quoted(b2.protocol) + r1_2);
    crate::unique::lemma_quoted_front(b1.protocol, b2.protocol, r1_1, r1_2);
    crate::unique::lemma_cancel_front(",\"id\":"@, crate::json::quoted(b1.id) + r2_1, crate::json::quoted(b2.id) + r2_2);
    crate::unique::lemma_quoted_front(b1.id, b2.id, r2_1, r2_2);
    crate::unique::lemma_cancel_front(",\"buyer\":"@, crate::json::quoted(b1.buyer) + r3_1, crate::json::quoted(b2.buyer) + r3_2);
    crate::unique::lemma_quoted_front(b1.buyer, b2.buyer, r3_1, r3_2);
    crate::unique::lemma_cancel_front(",\"agent_id\":"@, crate::json::quoted(b1.agent_id) + r4_1, crate::json::quoted(b2.agent_id) + r4_2);
    crate::unique::lemma_quoted_front(b1.agent_id, b2.agent_id, r4_1, r4_2);
    crate::unique::lemma_cancel_front(",\"limit\":{\"max_cents\":"@, dec_of(b1.limit.max_cents as nat) + r5_1, dec_of(b2.limit.max_cents as nat) + r5_2);
    assert(r5_1[0] == ',' && r5_2[0] == ',');
    crate::unique::lemma_dec_front(b1.limit.max_cents as nat, b2.limit.max_cents as nat, r5_1, r5_2);
    crate::unique::lemma_cancel_front(",\"currency\":"@, crate::json::quoted(b1.limit.currency) + r6_1, crate::json::quoted(b2.limit.currency) + r6_2);
    crate::unique::lemma_quoted_front(b1.limit.currency, b2.limit.currency, r6_1, r6_2);
    crate::unique::lemma_cancel_front(",\"merchants\":"@, string_list(b1.limit.merchants) + r7_1, string_list(b2.limit.merchants) + r7_2);
    crate::unique::lemma_list_front(b1.limit.merchants, b2.limit.merchants, r7_1, r7_2);
    crate::unique::lemma_cancel_front("},\"issued_at\":"@, crate::json::quoted(b1.issued_at) + r8_1, crate::json::quoted(b2.issued_at) + r8_2);
    crate::unique::lemma_quoted_front(b1.issued_at, b2.issued_at, r8_1, r8_2);
    crate::unique::lemma_cancel_front(",\"expires_at\":"@, crate::json::quoted(b1.expires_at) + r9_1, crate::json::quoted(b2.expires_at) + r9_2);
    crate::unique::lemma_quoted_front(b1.expires_at, b2.expires_at, r9_1, r9_2);
}

/// The bytes an ACP signature covers determine the whole body, the nested limit included:
/// two bodies whose canonical bytes are equal are equal, so a signature over them covers every
/// field, `limit.merchants` included.
pub proof fn law_acp_canonical_one_to_one(b1: AcpBodyView, b2: AcpBodyView)
    requires
        vstd::utf8::encode_utf8(acp_canonical(b1)) == vstd::utf8::encode_utf8(acp_canonical(b2)),
    ensures
        b1 == b2,
{
    vstd::utf8::encode_utf8_decode_utf8(acp_canonical(b1));
    vstd::utf8::encode_utf8_decode_utf8(acp_canonical(b2));
    lemma_acp_canonical_text(b1, b2);
}

/// The signed ACP wire: the body's fields and `signature`, keys sorted at each level.
pub open spec fn acp_wire_text(b: AcpBodyView, sig: Seq<char>) -> Seq<char> {
    "{\"agent_id\":"@ + quoted(b.agent_id) + ",\"buyer\":"@ + quoted(b.buyer) + ",\"expires_at\":"@
        + quoted(b.expires_at) + ",\"id\":"@ + quoted(b.id) + ",\"issued_at\":"@ + quoted(b.issued_at)
        + ",\"limit\":{\"currency\":"@ + quoted(b.limit.currency) + ",\"max_cents\":"@ + dec_of(
        b.limit.max_cents as nat,
    ) + ",\"merchants\":"@ + string_list(b.limit.merchants) + "},\"protocol\":"@ + quoted(b.protocol)
        + ",\"signature\":"@ + quoted(sig) + "}"@
}

/// The limit that the bytes of the `limit` value hold: an object with `max_cents`, `currency`
/// and `merchants` each exactly once and of its type (other members carry nothing), or an
/// array of exactly those three values in that order.
pub open spec fn acp_limit_of(s: Seq<u8>) -> Option<AcpLimitView> {
    if starts_array(s) {
        match document_array(s, Skip::Buffered(126)) {
            Some(es) => if es.len() == 3 {
                let max_cents = spec_json_u64(s.subrange(es[0].0, es[0].1));
                let currency = spec_json_string(s.subrange(es[1].0, es[1].1));
                let merchants = spec_json_strings(s.subrange(es[2].0, es[2].1));
                if max_cents is Some && currency is Some && merchants is Some {
                    Some(AcpLimitView { max_cents: max_cents.unwrap(), currency: currency.unwrap(), merchants: merchants.unwrap() })
                } else {
                    None
                }
            } else {
                None
            },
            None => None,
        }
    } else {
        match document_object(s, Skip::Buffered(126)) {
            Some(ms) => match keys_of(s, ms) {
                Some(keys) => {
                    let max_cents = u64_field(s, keys, ms, "max_cents"@);
                    let currency = text_field(s, keys, ms, "currency"@);
                    let merchants = strings_field(s, keys, ms, "merchants"@);
                    if max_cents is Some && currency is Some && merchants is Some {
                        Some(AcpLimitView { max_cents: max_cents.unwrap(), currency: currency.unwrap(), merchants: merchants.unwrap() })
                    } else {
                        None
                    }
                },
                None => None,
            },
            None => None,
        }
    }
}

/// The ACP body and signature text that a wire holds (as for AP2, with the nested limit read
/// from the bytes of the `limit` value).
pub open spec fn acp_wire(s: Seq<u8>) -> Option<(AcpBodyView, Seq<char>)> {
    match document_object(s, Skip::Buffered(126)) {
        None => None,
        Some(ms) => match keys_of(s, ms) {
            None => None,
            Some(keys) => {
                let protocol = text_field(s, keys, ms, "protocol"@);
                let id = text_field(s, keys, ms, "id"@);
                let buyer = text_field(s, keys, ms, "buyer"@);
                let agent_id = text_field(s, keys, ms, "agent_id"@);
                let limit = match field(keys, ms, "limit"@) {
                    Some(sp) => acp_limit_of(s.subrange(sp.0, sp.1)),
                    None => None,
                };
                let issued_at = text_field(s, keys, ms, "issued_at"@);
                let expires_at = text_field(s, keys, ms, "expires_at"@);
                let signature = text_field(s, keys, ms, "signature"@);
                if protocol is Some && id is Some && buyer is Some && agent_id is Some && limit is Some
                    && issued_at is Some && expires_at is Some && signature is Some {
                    Some(
                        (
                            AcpBodyView {
                                protocol: protocol.unwrap(),
                                id: id.unwrap(),
                                buyer: buyer.unwrap(),
                                agent_id: agent_id.unwrap(),
                                limit: limit.unwrap(),
                                issued_at: issued_at.unwrap(),
                                expires_at: expires_at.unwrap(),
                            },
                            signature.unwrap(),
                        ),
                    )
                } else {
                    None
                }
            },
        },
    }
}

/// The first ACP field, in reading order, that does not read.
pub open spec fn acp_bad_field(s: Seq<u8>) -> Seq<char> {
    let ms = document_object(s, Skip::Buffered(126)).unwrap();
    let keys = keys_of(s, ms).unwrap();
    if text_field(s, keys, ms, "protocol"@) is None {
        "protocol"@
    } else if text_field(s, keys, ms, "id"@) is None {
        "id"@
    } else if text_field(s, keys, ms, "buyer"@) is None {
        "buyer"@
    } else if text_field(s, keys, ms, "agent_id"@) is None {
        "agent_id"@
    } else if (match field(keys, ms, "limit"@) {
        Some(sp) => acp_limit_of(s.subrange(sp.0, sp.1)),
        None => None,
    }) is None {
        "limit"@
    } else if text_field(s, keys, ms, "issued_at"@) is None {
        "issued_at"@
    } else if text_field(s, keys, ms, "expires_at"@) is None {
        "expires_at"@
    } else {
        "signature"@
    }
}

/// The neutral mandate an ACP body maps onto, given its two times.
pub open spec fn acp_mandate(b: AcpBodyView, created: (i64, u32), expires: (i64, u32)) -> MandateView {
    MandateView {
        mandate_id: b.id,
        user_id: b.buyer,
        agent_id: b.agent_id,
        intent_description: "acp:"@ + b.protocol,
        max_amount_cents: b.limit.max_cents,
        currency: b.limit.currency,
        allowed_merchants: b.limit.merchants,
        created_at: created,
        expires_at: expires,
    }
}

/// What the ACP adapter gives (as for AP2, with the buyer's key).
pub open spec fn acp_result(wire: Seq<u8>, reg: Map<Seq<char>, Seq<u8>>, r: Result<IntentMandate, VerifyError>) -> bool {
    match acp_wire(wire) {
        None => r matches Err(VerifyError::Malformed(msg)) && msg@ == frame_problem(wire, acp_bad_field(wire)),
        Some(p) => match detached_check(p.0.buyer, vstd::utf8::encode_utf8(acp_canonical(p.0)), p.1, reg) {
            Check::UnknownUser => r matches Err(VerifyError::UnknownUser(u)) && u@ == p.0.buyer,
            Check::BadSignature => r matches Err(VerifyError::BadSignature),
            Check::Pass => stamped_result(p.0.issued_at, p.0.expires_at, |c: (i64, u32), x: (i64, u32)| acp_mandate(p.0, c, x), r),
        },
    }
}

impl AcpBody {
    fn canonical(&self) -> (bytes: Vec<u8>)
        ensures
            bytes@ == vstd::utf8::encode_utf8(acp_canonical(self@)),
    {
        let mut s = String::new();
        push_str(&mut s, "{\"protocol\":");
        push_quoted(&mut s, self.protocol.as_str());
        push_str(&mut s, ",\"id\":");
        push_quoted(&mut s, self.id.as_str());
        push_str(&mut s, ",\"buyer\":");
        push_quoted(&mut s, self.buyer.as_str());
        push_str(&mut s, ",\"agent_id\":");
        push_quoted(&mut s, self.agent_id.as_str());
        push_str(&mut s, ",\"limit\":{\"max_cents\":");
        push_u64(&mut s, self.limit.max_cents);
        push_str(&mut s, ",\"currency\":");
        push_quoted(&mut s, self.limit.currency.as_str());
        push_str(&mut s, ",\"merchants\":");
        push_string_list(&mut s, &self.limit.merchants);
        push_str(&mut s, "},\"issued_at\":");
        push_quoted(&mut s, self.issued_at.as_str());
        push_str(&mut s, ",\"expires_at\":");
        push_quoted(&mut s, self.expires_at.as_str());
        push_str(&mut s, "}");
        assert(s@ =~= acp_canonical(self@));
        s.as_str().as_bytes_vec()
    }

    fn wire(&self, sig: &str) -> (bytes: Vec<u8>)
        ensures
            bytes@ == vstd::utf8::encode_utf8(acp_wire_text(self@, sig@)),
    {
        let mut s = String::new();
        push_str(&mut s, "{\"agent_id\":");
        push_quoted(&mut s, self.agent_id.as_str());
        push_str(&mut s, ",\"buyer\":");
        push_quoted(&mut s, self.buyer.as_str());
        push_str(&mut s, ",\"expires_at\":");
        push_quoted(&mut s, self.expires_at.as_str());
        push_str(&mut s, ",\"id\":");
        push_quoted(&mut s, self.id.as_str());
        push_str(&mut s, ",\"issued_at\":");
        push_quoted(&mut s, self.issued_at.as_str());
        push_str(&mut s, ",\"limit\":{\"currency\":");
        push_quoted(&mut s, self.limit.currency.as_str());
        push_str(&mut s, ",\"max_cents\":");
        push_u64(&mut s, self.limit.max_cents);
        push_str(&mut s, ",\"merchants\":");
        push_string_list(&mut s, &self.limit.merchants);
        push_str(&mut s, "},\"protocol\":");
        push_quoted(&mut s, self.protocol.as_str());
        push_str(&mut s, ",\"signature\":");
        push_quoted(&mut s, sig);
        push_str(&mut s, "}");
        assert(s@ =~= acp_wire_text(self@, sig@));
        s.as_str().as_bytes_vec()
    }
}

/// The members of a written `limit` object, keys in sorted order.
pub open spec fn limit_members(l: AcpLimitView) -> Seq<(Seq<char>, Written)> {
    seq![
        ("currency"@, Written::Text(l.currency)),
        ("max_cents"@, Written::Nat(l.max_cents)),
        ("merchants"@, Written::List(l.merchants)),
    ]
}

/// The keys of a written `limit` object, in sorted order.
pub open spec fn limit_keys() -> Seq<Seq<char>> {
    seq!["currency"@, "max_cents"@, "merchants"@]
}

/// The members of the signed ACP wire, keys in sorted order, the limit nested.
pub open spec fn acp_members(b: AcpBodyView, sig: Seq<char>) -> Seq<(Seq<char>, Written)> {
    seq![
        ("agent_id"@, Written::Text(b.agent_id)),
        ("buyer"@, Written::Text(b.buyer)),
        ("expires_at"@, Written::Text(b.expires_at)),
        ("id"@, Written::Text(b.id)),
        ("issued_at"@, Written::Text(b.issued_at)),
        ("limit"@, Written::Object(limit_members(b.limit))),
        ("protocol"@, Written::Text(b.protocol)),
        ("signature"@, Written::Text(sig)),
    ]
}

/// The keys of the signed ACP wire, in sorted order.
pub open spec fn acp_keys() -> Seq<Seq<char>> {
    seq!["agent_id"@, "buyer"@, "expires_at"@, "id"@, "issued_at"@, "limit"@, "protocol"@, "signature"@]
}

/// The ACP keys, at both levels, are plain and all different.
proof fn lemma_acp_keys()
    ensures
        acp_keys().len() == 8,
        forall|i: int| 0 <= i < 8 ==> plain_key(#[trigger] acp_keys()[i]),
        forall|a: int, b: int| 0 <= a < b < 8 ==> acp_keys()[a] != acp_keys()[b],
        limit_keys().len() == 3,
        forall|i: int| 0 <= i < 3 ==> plain_key(#[trigger] limit_keys()[i]),
        forall|a: int, b: int| 0 <= a < b < 3 ==> limit_keys()[a] != limit_keys()[b],
{
    reveal_strlit("agent_id");
    reveal_strlit("buyer");
    reveal_strlit("expires_at");
    reveal_strlit("id");
    reveal_strlit("issued_at");
    reveal_strlit("limit");
    reveal_strlit("protocol");
    reveal_strlit("signature");
    reveal_strlit("currency");
    reveal_strlit("max_cents");
    reveal_strlit("merchants");
    let k = acp_keys();
    assert forall|i: int| 0 <= i < 8 implies plain_key(#[trigger] k[i]) by {
        assert(k[i] == acp_keys()[i]);
    }
    assert forall|a: int, b: int| 0 <= a < b < 8 implies k[a] != k[b] by {
        if k[a].len() == k[b].len() {
            assert(k[a][0] != k[b][0]);
        } else {
            assert(k[a].len() != k[b].len());
        }
    }
    let l = limit_keys();
    assert forall|i: int| 0 <= i < 3 implies plain_key(#[trigger] l[i]) by {
        assert(l[i] == limit_keys()[i]);
    }
    assert(l[1][1] != l[2][1]);
    assert forall|a: int, b: int| 0 <= a < b < 3 implies l[a] != l[b] by {
        if a == 1 && b == 2 {
            assert(l[a][1] != l[b][1]);
        } else {
            assert(l[a].len() != l[b].len());
        }
    }
}

/// The pieces of the ACP wire text.
proof fn lemma_acp_literals()
    ensures
        "{\"agent_id\":"@ == seq!['{'] + key_text("agent_id"@),
        ",\"buyer\":"@ == seq![','] + key_text("buyer"@),
        ",\"expires_at\":"@ == seq![','] + key_text("expires_at"@),
        ",\"id\":"@ == seq![','] + key_text("id"@),
        ",\"issued_at\":"@ == seq![','] + key_text("issued_at"@),
        ",\"limit\":{\"currency\":"@ == seq![','] + key_text("limit"@) + seq!['{'] + key_text("currency"@),
        ",\"max_cents\":"@ == seq![','] + key_text("max_cents"@),
        ",\"merchants\":"@ == seq![','] + key_text("merchants"@),
        "},\"protocol\":"@ == seq!['}'] + seq![','] + key_text("protocol"@),
        ",\"signature\":"@ == seq![','] + key_text("signature"@),
        "}"@ == seq!['}'],
{
    reveal_strlit("{\"agent_id\":");
    reveal_strlit(",\"buyer\":");
    reveal_strlit(",\"expires_at\":");
    reveal_strlit(",\"id\":");
    reveal_strlit(",\"issued_at\":");
    reveal_strlit(",\"limit\":{\"currency\":");
    reveal_strlit(",\"max_cents\":");
    reveal_strlit(",\"merchants\":");
    reveal_strlit("},\"protocol\":");
    reveal_strlit(",\"signature\":");
    reveal_strlit("}");
    reveal_strlit("agent_id");
    reveal_strlit("buyer");
    reveal_strlit("expires_at");
    reveal_strlit("id");
    reveal_strlit("issued_at");
    reveal_strlit("limit");
    reveal_strlit("protocol");
    reveal_strlit("signature");
    reveal_strlit("currency");
    reveal_strlit("max_cents");
    reveal_strlit("merchants");
    assert("{\"agent_id\":"@ =~= seq!['{'] + key_text("agent_id"@));
    assert(",\"buyer\":"@ =~= seq![','] + key_text("buyer"@));
    assert(",\"expires_at\":"@ =~= seq![','] + key_text("expires_at"@));
    assert(",\"id\":"@ =~= seq![','] + key_text("id"@));
    assert(",\"issued_at\":"@ =~= seq![','] + key_text("issued_at"@));
    assert(",\"limit\":{\"currency\":"@ =~= seq![','] + key_text("limit"@) + seq!['{'] + key_text("currency"@));
    assert(",\"max_cents\":"@ =~= seq![','] + key_text("max_cents"@));
    assert(",\"merchants\":"@ =~= seq![','] + key_text("merchants"@));
    assert("},\"protocol\":"@ =~= seq!['}'] + seq![','] + key_text("protocol"@));
    assert(",\"signature\":"@ =~= seq![','] + key_text("signature"@));
    assert("}"@ =~= seq!['}']);
}

/// The limit and the two members after it, as the ACP wire text has them.
proof fn lemma_acp_limit_step(
    p: Seq<char>,
    kl: Seq<char>,
    kc: Seq<char>,
    vc: Seq<char>,
    km: Seq<char>,
    vm: Seq<char>,
    kr: Seq<char>,
    vr: Seq<char>,
    kp: Seq<char>,
    vp: Seq<char>,
    rest: Seq<char>,
)
    ensures
        p + seq![','] + (kl + (seq!['{'] + (kc + vc + seq![','] + (km + vm + seq![','] + (kr + vr))) + seq!['}'])
            + seq![','] + (kp + vp + seq![','] + rest)) == (p + (seq![','] + kl + seq!['{'] + kc) + vc + (seq![',']
            + km) + vm + (seq![','] + kr) + vr + (seq!['}'] + seq![','] + kp) + vp) + seq![','] + rest,
{
    assert(p + seq![','] + (kl + (seq!['{'] + (kc + vc + seq![','] + (km + vm + seq![','] + (kr + vr))) + seq!['}'])
        + seq![','] + (kp + vp + seq![','] + rest)) =~= (p + (seq![','] + kl + seq!['{'] + kc) + vc + (seq![',']
        + km) + vm + (seq![','] + kr) + vr + (seq!['}'] + seq![','] + kp) + vp) + seq![','] + rest);
}

/// The ACP wire text is the object of the ACP wire members.
proof fn lemma_acp_text(b: AcpBodyView, sig: Seq<char>)
    ensures
        acp_wire_text(b, sig) == object_text(acp_members(b, sig)),
{
    lemma_acp_literals();
    let ms = acp_members(b, sig);
    let lm = limit_members(b.limit);
    crate::json::lemma_members_unfold(lm, 0);
    crate::json::lemma_members_unfold(lm, 1);
    crate::json::lemma_members_unfold(lm, 2);
    assert(lm.subrange(0, 3) =~= lm);
    let u0 = members_text(lm.subrange(0, 3));
    let u1 = members_text(lm.subrange(1, 3));
    let u2 = members_text(lm.subrange(2, 3));
    assert(u0 == key_text("currency"@) + quoted(b.limit.currency) + seq![','] + (key_text("max_cents"@) + dec_of(
        b.limit.max_cents as nat,
    ) + seq![','] + (key_text("merchants"@) + string_list(b.limit.merchants))));
    assert(crate::json::written_text(Written::Object(lm)) == seq!['{'] + u0 + seq!['}']);
    crate::json::lemma_members_unfold(ms, 0);
    crate::json::lemma_members_unfold(ms, 1);
    crate::json::lemma_members_unfold(ms, 2);
    crate::json::lemma_members_unfold(ms, 3);
    crate::json::lemma_members_unfold(ms, 4);
    crate::json::lemma_members_unfold(ms, 5);
    crate::json::lemma_members_unfold(ms, 6);
    crate::json::lemma_members_unfold(ms, 7);
    assert(ms.subrange(0, 8) =~= ms);
    let t0 = members_text(ms.subrange(0, 8));
    let t1 = members_text(ms.subrange(1, 8));
    let t2 = members_text(ms.subrange(2, 8));
    let t3 = members_text(ms.subrange(3, 8));
    let t4 = members_text(ms.subrange(4, 8));
    let t5 = members_text(ms.subrange(5, 8));
    let t6 = members_text(ms.subrange(6, 8));
    let t7 = members_text(ms.subrange(7, 8));
    let p0 = "{\"agent_id\":"@ + quoted(b.agent_id);
    let p1 = p0 + ",\"buyer\":"@ + quoted(b.buyer);
    let p2 = p1 + ",\"expires_at\":"@ + quoted(b.expires_at);
    let p3 = p2 + ",\"id\":"@ + quoted(b.id);
    let p4 = p3 + ",\"issued_at\":"@ + quoted(b.issued_at);
    let p6 = p4 + ",\"limit\":{\"currency\":"@ + quoted(b.limit.currency) + ",\"max_cents\":"@ + dec_of(
        b.limit.max_cents as nat,
    ) + ",\"merchants\":"@ + string_list(b.limit.merchants) + "},\"protocol\":"@ + quoted(b.protocol);
    let p7 = p6 + ",\"signature\":"@ + quoted(sig);
    assert(seq!['{'] + t0 =~= p0 + seq![','] + t1);
    crate::mandate::lemma_wire_step(p0, ",\"buyer\":"@, "buyer"@, quoted(b.buyer), t2);
    crate::mandate::lemma_wire_step(p1, ",\"expires_at\":"@, "expires_at"@, quoted(b.expires_at), t3);
    crate::mandate::lemma_wire_step(p2, ",\"id\":"@, "id"@, quoted(b.id), t4);
    crate::mandate::lemma_wire_step(p3, ",\"issued_at\":"@, "issued_at"@, quoted(b.issued_at), t5);
    lemma_acp_limit_step(
        p4,
        key_text("limit"@),
        key_text("currency"@),
        quoted(b.limit.currency),
        key_text("max_cents"@),
        dec_of(b.limit.max_cents as nat),
        key_text("merchants"@),
        string_list(b.limit.merchants),
        key_text("protocol"@),
        quoted(b.protocol),
        t7,
    );
    crate::mandate::lemma_wire_step(p6, ",\"signature\":"@, "signature"@, quoted(sig), Seq::empty());
    assert(acp_wire_text(b, sig) == p7 + "}"@);
    assert(acp_wire_text(b, sig) =~= object_text(ms));
}

/// The limit members are flat: plain keys, values that are strings, numbers or lists.
proof fn lemma_limit_flat(l: AcpLimitView)
    ensures
        crate::json::flat_members(limit_members(l)),
        forall|i: int| 0 <= i < 3 ==> limit_members(l)[i].0 == #[trigger] limit_keys()[i],
{
    lemma_acp_keys();
    let lm = limit_members(l);
    assert forall|i: int| 0 <= i < lm.len() implies plain_key(#[trigger] lm[i].0) && !(lm[i].1 is Object) by {
        assert(lm[i].0 == limit_keys()[i]);
    }
}

/// The ACP wire written for `b`, as bytes, read by the buffering reader: one object whose
/// members hold the ACP keys and the written values.
proof fn lemma_acp_object(s: Seq<u8>, b: AcpBodyView, sig: Seq<char>)
    requires
        s == vstd::utf8::encode_utf8(acp_wire_text(b, sig)),
        crate::json::skip_ws(s, 0) < s.len() && s[crate::json::skip_ws(s, 0)] == 123 ==> crate::json::members_facts(
            s,
            crate::json::skip_ws(s, crate::json::skip_ws(s, 0) + 1),
            Skip::Buffered(126),
        ),
    ensures
        ({
            let sp = written_spans(acp_members(b, sig), 1);
            &&& document_object(s, Skip::Buffered(126)) == Some(sp)
            &&& sp.len() == 8
            &&& forall|i: int|
                0 <= i < 8 ==> s.subrange(#[trigger] sp[i].0, sp[i].1) == vstd::utf8::encode_utf8(
                    quoted(acp_keys()[i]),
                ) && s.subrange(sp[i].2, sp[i].3) == written_bytes(acp_members(b, sig)[i].1)
        }),
{
    let ms = acp_members(b, sig);
    lemma_acp_text(b, sig);
    lemma_acp_keys();
    lemma_limit_flat(b.limit);
    assert forall|i: int| 0 <= i < ms.len() implies plain_key(#[trigger] ms[i].0) by {
        assert(ms[i].0 == acp_keys()[i]);
    }
    assert forall|i: int| 0 <= i < ms.len() implies crate::json::fits(#[trigger] ms[i].1, 126) by {
        if i != 5 {
            assert(!(ms[i].1 is Object));
        }
    }
    crate::json::lemma_written_document(s, ms, 126);
    let sp = written_spans(ms, 1);
    assert forall|i: int| 0 <= i < 8 implies s.subrange(#[trigger] sp[i].0, sp[i].1) == vstd::utf8::encode_utf8(
        quoted(acp_keys()[i]),
    ) && s.subrange(sp[i].2, sp[i].3) == written_bytes(ms[i].1) by {
        assert(ms[i].0 == acp_keys()[i]);
    }
}

/// The bytes of a written limit, read by the buffering reader: one object whose members hold
/// the limit keys and the written values.
proof fn lemma_limit_object(s: Seq<u8>, l: AcpLimitView)
    requires
        s == vstd::utf8::encode_utf8(object_text(limit_members(l))),
        crate::json::skip_ws(s, 0) < s.len() && s[crate::json::skip_ws(s, 0)] == 123 ==> crate::json::members_facts(
            s,
            crate::json::skip_ws(s, crate::json::skip_ws(s, 0) + 1),
            Skip::Buffered(126),
        ),
    ensures
        !starts_array(s),
        ({
            let sp = written_spans(limit_members(l), 1);
            &&& document_object(s, Skip::Buffered(126)) == Some(sp)
            &&& sp.len() == 3
            &&& forall|i: int|
                0 <= i < 3 ==> s.subrange(#[trigger] sp[i].0, sp[i].1) == vstd::utf8::encode_utf8(
                    quoted(limit_keys()[i]),
                ) && s.subrange(sp[i].2, sp[i].3) == written_bytes(limit_members(l)[i].1)
        }),
{
    let ms = limit_members(l);
    lemma_limit_flat(l);
    assert forall|i: int| 0 <= i < ms.len() implies plain_key(#[trigger] ms[i].0) by {
        assert(ms[i].0 == limit_keys()[i]);
    }
    assert forall|i: int| 0 <= i < ms.len() implies crate::json::fits(#[trigger] ms[i].1, 126) by {
        assert(!(ms[i].1 is Object));
    }
    crate::json::lemma_object_start(ms);
    crate::json::lemma_written_document(s, ms, 126);
    let sp = written_spans(ms, 1);
    assert forall|i: int| 0 <= i < 3 implies s.subrange(#[trigger] sp[i].0, sp[i].1) == vstd::utf8::encode_utf8(
        quoted(limit_keys()[i]),
    ) && s.subrange(sp[i].2, sp[i].3) == written_bytes(ms[i].1) by {
        assert(ms[i].0 == limit_keys()[i]);
    }
}

/// Reads the bytes of a `limit` value; a limit as the writer writes it reads back as that limit.
#[verifier::spinoff_prover]
fn read_acp_limit(s: &[u8]) -> (r: Option<AcpLimit>)
    ensures
        r matches Some(l) ==> acp_limit_of(s@) == Some(l@),
        r is None ==> acp_limit_of(s@) is None,
        forall|l: AcpLimitView|
            #![trigger object_text(limit_members(l))]
            s@ == vstd::utf8::encode_utf8(object_text(limit_members(l))) ==> (r is Some && r->0@ == l),
{
    if starts_array_x(s) {
        proof {
            assert forall|l: AcpLimitView| s@ == vstd::utf8::encode_utf8(#[trigger] object_text(limit_members(l))) implies false by {
                crate::json::lemma_object_start(limit_members(l));
            }
        }
        let es = match document_array_x(s, Skip::Buffered(126)) { Some(v) => v, None => { return None; } };
        if es.len() != 3 {
            return None;
        }
        assert(crate::json::pair_spans(es@)[0] == (es@[0].0 as int, es@[0].1 as int));
        assert(crate::json::pair_spans(es@)[1] == (es@[1].0 as int, es@[1].1 as int));
        assert(crate::json::pair_spans(es@)[2] == (es@[2].0 as int, es@[2].1 as int));
        let max_cents = match json_u64(s, es[0].0, es[0].1) { Some(v) => v, None => { return None; } };
        let currency = match json_string(s, es[1].0, es[1].1) { Some(v) => v, None => { return None; } };
        let merchants = match json_strings(s, es[2].0, es[2].1) { Some(v) => v, None => { return None; } };
        let l = AcpLimit { max_cents, currency, merchants };
        assert(acp_limit_of(s@) == Some(l@));
        Some(l)
    } else {
        let ms = match document_object_x(s, Skip::Buffered(126)) {
            Some(v) => v,
            None => {
                proof {
                    assert forall|l: AcpLimitView| s@ == vstd::utf8::encode_utf8(#[trigger] object_text(limit_members(l))) implies false by {
                        lemma_limit_object(s@, l);
                    }
                }
                return None;
            },
        };
        let ghost sp = crate::json::member_spans(ms@);
        let keys = match keys_x(s, &ms) {
            Some(v) => v,
            None => {
                proof {
                    assert forall|l: AcpLimitView| s@ == vstd::utf8::encode_utf8(#[trigger] object_text(limit_members(l))) implies false by {
                        lemma_limit_object(s@, l);
                        crate::json::lemma_keys_written(s@, sp, limit_keys());
                    }
                }
                return None;
            },
        };
        let max_cents_r = u64_field_x(s, &keys, &ms, "max_cents");
        let currency_r = text_field_x(s, &keys, &ms, "currency");
        let merchants_r = strings_field_x(s, &keys, &ms, "merchants");
        proof {
            assert forall|l: AcpLimitView| s@ == vstd::utf8::encode_utf8(#[trigger] object_text(limit_members(l))) implies {
                &&& max_cents_r == Some(l.max_cents)
                &&& currency_r is Some && currency_r->0@ == l.currency
                &&& merchants_r is Some && strings_view(merchants_r->0@) == l.merchants
            } by {
                lemma_limit_object(s@, l);
                crate::json::lemma_keys_written(s@, sp, limit_keys());
                lemma_acp_keys();
                crate::json::lemma_fields_distinct(limit_keys(), sp);
                reveal(written_bytes);
                assert(limit_keys()[0] == "currency"@);
                assert(limit_keys()[1] == "max_cents"@);
                assert(limit_keys()[2] == "merchants"@);
                assert(s@.subrange(sp[0].0, sp[0].1) == vstd::utf8::encode_utf8(quoted(limit_keys()[0])));
                assert(s@.subrange(sp[1].0, sp[1].1) == vstd::utf8::encode_utf8(quoted(limit_keys()[1])));
                assert(s@.subrange(sp[2].0, sp[2].1) == vstd::utf8::encode_utf8(quoted(limit_keys()[2])));
                assert(strings_view(keys@) == limit_keys());
                assert(field(limit_keys(), sp, limit_keys()[0]) == Some((sp[0].2, sp[0].3)));
                assert(field(limit_keys(), sp, limit_keys()[1]) == Some((sp[1].2, sp[1].3)));
                assert(field(limit_keys(), sp, limit_keys()[2]) == Some((sp[2].2, sp[2].3)));
                assert(s@.subrange(sp[0].2, sp[0].3) == vstd::utf8::encode_utf8(quoted(l.currency)));
                assert(s@.subrange(sp[1].2, sp[1].3) == vstd::utf8::encode_utf8(dec_of(l.max_cents as nat)));
                assert(s@.subrange(sp[2].2, sp[2].3) == vstd::utf8::encode_utf8(string_list(l.merchants)));
            }
        }
        let max_cents = match max_cents_r { Some(v) => v, None => { return None; } };
        let currency = match currency_r { Some(v) => v, None => { return None; } };
        let merchants = match merchants_r { Some(v) => v, None => { return None; } };
        let l = AcpLimit { max_cents, currency, merchants };
        assert(acp_limit_of(s@) == Some(l@));
        Some(l)
    }
}

/// Reads an ACP wire into its body and signature text; a wire as [`AcpBody::wire`] writes it
/// reads back as the body and signature text written.
#[verifier::spinoff_prover]
#[verifier::rlimit(60)]
fn read_acp_wire(s: &[u8]) -> (r: Result<(AcpBody, String), String>)
    ensures
        r matches Ok(p) ==> acp_wire(s@) == Some((p.0@, p.1@)),
        r matches Err(e) ==> acp_wire(s@) is None && e@ == frame_problem(s@, acp_bad_field(s@)),
        forall|b: AcpBodyView, sig: Seq<char>|
            #![trigger acp_wire_text(b, sig)]
            s@ == vstd::utf8::encode_utf8(acp_wire_text(b, sig)) ==> (r is Ok && r->Ok_0.0@ == b && r->Ok_0.1@ == sig),
{
    let ms = match document_object_x(s, Skip::Buffered(126)) {
        Some(v) => v,
        None => {
            proof {
                assert forall|b: AcpBodyView, sig: Seq<char>|
                    s@ == vstd::utf8::encode_utf8(#[trigger] acp_wire_text(b, sig)) implies false by {
                    lemma_acp_object(s@, b, sig);
                }
            }
            return Err(not_an_object());
        },
    };
    let ghost sp = crate::json::member_spans(ms@);
    let keys = match keys_x(s, &ms) {
        Some(k) => k,
        None => {
            proof {
                assert forall|b: AcpBodyView, sig: Seq<char>|
                    s@ == vstd::utf8::encode_utf8(#[trigger] acp_wire_text(b, sig)) implies false by {
                    lemma_acp_object(s@, b, sig);
                    crate::json::lemma_keys_written(s@, sp, acp_keys());
                }
            }
            return Err(bad_key());
        },
    };
    let protocol_r = text_field_x(s, &keys, &ms, "protocol");
    let id_r = text_field_x(s, &keys, &ms, "id");
    let buyer_r = text_field_x(s, &keys, &ms, "buyer");
    let agent_id_r = text_field_x(s, &keys, &ms, "agent_id");
    let limit_r = match field_x(&keys, &ms, "limit") {
        Some(sp2) => {
            proof { crate::json::lemma_field_within(strings_view(keys@), crate::json::member_spans(ms@), "limit"@, s@.len() as int); }
            let sub = &s[sp2.0..sp2.1];
            assert(sub@ =~= s@.subrange(sp2.0 as int, sp2.1 as int));
            let got = read_acp_limit(sub);
            proof {
                assert forall|b: AcpBodyView, sig: Seq<char>|
                    s@ == vstd::utf8::encode_utf8(#[trigger] acp_wire_text(b, sig)) implies (got is Some && got->0@ == b.limit) by {
                    lemma_acp_object(s@, b, sig);
                    crate::json::lemma_keys_written(s@, sp, acp_keys());
                    lemma_acp_keys();
                    crate::json::lemma_fields_distinct(acp_keys(), sp);
                    reveal(written_bytes);
                    assert(acp_keys()[5] == "limit"@);
                    assert(s@.subrange(sp[5].0, sp[5].1) == vstd::utf8::encode_utf8(quoted(acp_keys()[5])));
                    assert(strings_view(keys@) == acp_keys());
                    assert(field(acp_keys(), sp, acp_keys()[5]) == Some((sp[5].2, sp[5].3)));
                    let lm = limit_members(b.limit);
                    assert(acp_members(b, sig)[5].1 == Written::Object(lm));
                    assert(crate::json::written_text(Written::Object(lm)) == object_text(lm));
                    assert(sub@ == vstd::utf8::encode_utf8(object_text(lm)));
                }
            }
            got
        },
        None => {
            proof {
                assert forall|b: AcpBodyView, sig: Seq<char>|
                    s@ == vstd::utf8::encode_utf8(#[trigger] acp_wire_text(b, sig)) implies false by {
                    lemma_acp_object(s@, b, sig);
                    crate::json::lemma_keys_written(s@, sp, acp_keys());
                    lemma_acp_keys();
                    crate::json::lemma_fields_distinct(acp_keys(), sp);
                    assert(acp_keys()[5] == "limit"@);
                    assert(s@.subrange(sp[5].0, sp[5].1) == vstd::utf8::encode_utf8(quoted(acp_keys()[5])));
                    assert(strings_view(keys@) == acp_keys());
                    assert(field(acp_keys(), sp, acp_keys()[5]) == Some((sp[5].2, sp[5].3)));
                }
            }
            None
        },
    };
    let issued_at_r = text_field_x(s, &keys, &ms, "issued_at");
    let expires_at_r = text_field_x(s, &keys, &ms, "expires_at");
    let signature_r = text_field_x(s, &keys, &ms, "signature");
    proof {
        assert forall|b: AcpBodyView, sig: Seq<char>|
            s@ == vstd::utf8::encode_utf8(#[trigger] acp_wire_text(b, sig)) implies {
            &&& protocol_r is Some && protocol_r->0@ == b.protocol
            &&& id_r is Some && id_r->0@ == b.id
            &&& buyer_r is Some && buyer_r->0@ == b.buyer
            &&& agent_id_r is Some && agent_id_r->0@ == b.agent_id
            &&& limit_r is Some && limit_r->0@ == b.limit
            &&& issued_at_r is Some && issued_at_r->0@ == b.issued_at
            &&& expires_at_r is Some && expires_at_r->0@ == b.expires_at
            &&& signature_r is Some && signature_r->0@ == sig
        } by {
            lemma_acp_object(s@, b, sig);
            crate::json::lemma_keys_written(s@, sp, acp_keys());
            lemma_acp_keys();
            crate::json::lemma_fields_distinct(acp_keys(), sp);
            reveal(written_bytes);
            assert(acp_keys()[0] == "agent_id"@);
            assert(acp_keys()[1] == "buyer"@);
            assert(acp_keys()[2] == "expires_at"@);
            assert(acp_keys()[3] == "id"@);
            assert(acp_keys()[4] == "issued_at"@);
            assert(acp_keys()[5] == "limit"@);
            assert(acp_keys()[6] == "protocol"@);
            assert(acp_keys()[7] == "signature"@);
            assert(s@.subrange(sp[0].0, sp[0].1) == vstd::utf8::encode_utf8(quoted(acp_keys()[0])));
            assert(s@.subrange(sp[1].0, sp[1].1) == vstd::utf8::encode_utf8(quoted(acp_keys()[1])));
            assert(s@.subrange(sp[2].0, sp[2].1) == vstd::utf8::encode_utf8(quoted(acp_keys()[2])));
            assert(s@.subrange(sp[3].0, sp[3].1) == vstd::utf8::encode_utf8(quoted(acp_keys()[3])));
            assert(s@.subrange(sp[4].0, sp[4].1) == vstd::utf8::encode_utf8(quoted(acp_keys()[4])));
            assert(s@.subrange(sp[5].0, sp[5].1) == vstd::utf8::encode_utf8(quoted(acp_keys()[5])));
            assert(s@.subrange(sp[6].0, sp[6].1) == vstd::utf8::encode_utf8(quoted(acp_keys()[6])));
            assert(s@.subrange(sp[7].0, sp[7].1) == vstd::utf8::encode_utf8(quoted(acp_keys()[7])));
            assert(strings_view(keys@) == acp_keys());
            assert(field(acp_keys(), sp, acp_keys()[0]) == Some((sp[0].2, sp[0].3)));
            assert(field(acp_keys(), sp, acp_keys()[1]) == Some((sp[1].2, sp[1].3)));
            assert(field(acp_keys(), sp, acp_keys()[2]) == Some((sp[2].2, sp[2].3)));
            assert(field(acp_keys(), sp, acp_keys()[3]) == Some((sp[3].2, sp[3].3)));
            assert(field(acp_keys(), sp, acp_keys()[4]) == Some((sp[4].2, sp[4].3)));
            assert(field(acp_keys(), sp, acp_keys()[5]) == Some((sp[5].2, sp[5].3)));
            assert(field(acp_keys(), sp, acp_keys()[6]) == Some((sp[6].2, sp[6].3)));
            assert(field(acp_keys(), sp, acp_keys()[7]) == Some((sp[7].2, sp[7].3)));
            assert(s@.subrange(sp[0].2, sp[0].3) == vstd::utf8::encode_utf8(quoted(b.agent_id)));
            assert(s@.subrange(sp[1].2, sp[1].3) == vstd::utf8::encode_utf8(quoted(b.buyer)));
            assert(s@.subrange(sp[2].2, sp[2].3) == vstd::utf8::encode_utf8(quoted(b.expires_at)));
            assert(s@.subrange(sp[3].2, sp[3].3) == vstd::utf8::encode_utf8(quoted(b.id)));
            assert(s@.subrange(sp[4].2, sp[4].3) == vstd::utf8::encode_utf8(quoted(b.issued_at)));
            assert(s@.subrange(sp[6].2, sp[6].3) == vstd::utf8::encode_utf8(quoted(b.protocol)));
            assert(s@.subrange(sp[7].2, sp[7].3) == vstd::utf8::encode_utf8(quoted(sig)));
        }
    }
    let protocol = match protocol_r { Some(v) => v, None => { return Err(field_problem("protocol")); } };
    let id = match id_r { Some(v) => v, None => { return Err(field_problem("id")); } };
    let buyer = match buyer_r { Some(v) => v, None => { return Err(field_problem("buyer")); } };
    let agent_id = match agent_id_r { Some(v) => v, None => { return Err(field_problem("agent_id")); } };
    let limit = match limit_r { Some(v) => v, None => { return Err(field_problem("limit")); } };
    let issued_at = match issued_at_r { Some(v) => v, None => { return Err(field_problem("issued_at")); } };
    let expires_at = match expires_at_r { Some(v) => v, None => { return Err(field_problem("expires_at")); } };
    let signature = match signature_r { Some(v) => v, None => { return Err(field_problem("signature")); } };
    let body = AcpBody { protocol, id, buyer, agent_id, limit, issued_at, expires_at };
    assert(acp_wire(s@) == Some((body@, signature@)));
    Ok((body, signature))
}

/// The ACP-style Intent Mandate wire.
pub struct Acp;

impl MandateAdapter for Acp {
    open spec fn spec_name(&self) -> Seq<char> {
        "acp"@
    }

    open spec fn parse_verify_result(
        &self,
        wire: Seq<u8>,
        reg: Map<Seq<char>, Seq<u8>>,
        r: Result<IntentMandate, VerifyError>,
    ) -> bool {
        acp_result(wire, reg, r)
    }

    fn name(&self) -> (n: &'static str) {
        "acp"
    }

    fn parse_verify(&self, wire: &[u8], registry: &MandateKeyRegistry) -> (r: Result<IntentMandate, VerifyError>)
        ensures
            forall|b: AcpBodyView, sk: Seq<u8>|
                #![trigger detached_signature(vstd::utf8::encode_utf8(acp_canonical(b)), sk)]
                acp_wire(wire@) == Some((b, detached_signature(vstd::utf8::encode_utf8(acp_canonical(b)), sk)))
                    && registry@.contains_key(b.buyer) && registry@[b.buyer] == crate::crypto::spec_ed25519_public(sk)
                    && crate::crypto::genuine(sk, spec_sha256(vstd::utf8::encode_utf8(acp_canonical(b))))
                    && spec_parse_rfc3339(b.issued_at) is Ok && spec_parse_rfc3339(b.expires_at) is Ok
                    ==> (r is Ok && r->Ok_0@ == acp_mandate(
                        b,
                        spec_parse_rfc3339(b.issued_at)->Ok_0,
                        spec_parse_rfc3339(b.expires_at)->Ok_0,
                    )),
            forall|b: AcpBodyView, sk: Seq<u8>|
                #![trigger acp_wire_text(b, detached_signature(vstd::utf8::encode_utf8(acp_canonical(b)), sk))]
                wire@ == vstd::utf8::encode_utf8(acp_wire_text(b, detached_signature(vstd::utf8::encode_utf8(acp_canonical(b)), sk)))
                    && registry@.contains_key(b.buyer) && registry@[b.buyer] == crate::crypto::spec_ed25519_public(sk)
                    && crate::crypto::genuine(sk, spec_sha256(vstd::utf8::encode_utf8(acp_canonical(b))))
                    && spec_parse_rfc3339(b.issued_at) is Ok && spec_parse_rfc3339(b.expires_at) is Ok
                    ==> (r is Ok && r->Ok_0@ == acp_mandate(
                        b,
                        spec_parse_rfc3339(b.issued_at)->Ok_0,
                        spec_parse_rfc3339(b.expires_at)->Ok_0,
                    )),
    {
        let (body, signature) = match read_acp_wire(wire) {
            Ok(p) => p,
            Err(msg) => { return Err(VerifyError::Malformed(msg)); },
        };
        let canonical = body.canonical();
        match verify_detached(body.buyer.as_str(), canonical.as_slice(), signature.as_str(), registry) {
            Ok(()) => {},
            Err(e) => { return Err(e); },
        }
        let created_at = match stamp(&body.issued_at) { Ok(t) => t, Err(e) => { return Err(e); } };
        let expires_at = match stamp(&body.expires_at) { Ok(t) => t, Err(e) => { return Err(e); } };
        let mut intent_description = String::new();
        push_str(&mut intent_description, "acp:");
        push_str(&mut intent_description, body.protocol.as_str());
        let m = IntentMandate {
            mandate_id: body.id,
            user_id: body.buyer,
            agent_id: body.agent_id,
            intent_description,
            max_amount_cents: body.limit.max_cents,
            currency: body.limit.currency,
            allowed_merchants: body.limit.merchants,
            created_at,
            expires_at,
        };
        Ok(m)
    }
}

/// The ACP body that [`acp_sign_wire`] signs.
pub open spec fn acp_body_of(
    id: Seq<char>,
    buyer: Seq<char>,
    agent_id: Seq<char>,
    max_cents: u64,
    currency: Seq<char>,
    merchants: Seq<Seq<char>>,
    issued_at: Seq<char>,
    expires_at: Seq<char>,
) -> AcpBodyView {
    AcpBodyView {
        protocol: "acp"@,
        id,
        buyer,
        agent_id,
        limit: AcpLimitView { max_cents, currency, merchants },
        issued_at,
        expires_at,
    }
}

/// Mint a signed ACP-style Intent Mandate wire (for demos and tests).
pub fn acp_sign_wire(
    id: &str,
    buyer: &str,
    agent_id: &str,
    max_cents: u64,
    currency: &str,
    merchants: &[&str],
    issued_at: &str,
    expires_at: &str,
    sk: &SigningKey,
) -> (wire: Vec<u8>)
    ensures
        ({
            let b = acp_body_of(id@, buyer@, agent_id@, max_cents, currency@, strs_view(merchants@), issued_at@, expires_at@);
            wire@ == vstd::utf8::encode_utf8(acp_wire_text(b, detached_signature(vstd::utf8::encode_utf8(acp_canonical(b)), sk@)))
        }),
{
    let body = AcpBody {
        protocol: "acp".to_owned(),
        id: id.to_owned(),
        buyer: buyer.to_owned(),
        agent_id: agent_id.to_owned(),
        limit: AcpLimit { max_cents, currency: currency.to_owned(), merchants: owned_list(merchants) },
        issued_at: issued_at.to_owned(),
        expires_at: expires_at.to_owned(),
    };
    let canonical = body.canonical();
    let signature = sign_b64(canonical.as_slice(), sk);
    body.wire(signature.as_str())
}

} // verus!
