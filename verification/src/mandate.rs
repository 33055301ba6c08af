//! The Intent Mandate, its canonical signed bytes, the trusted-key registry, and the
//! Ed25519 verification core.

use vstd::prelude::*;
use crate::crypto::{
    b64_decode, b64_encode, spec_b64_decode, spec_b64_encode, spec_ed25519_sign,
    spec_ed25519_public, spec_ed25519_verify, genuine, SigningKey, VerifyingKey,
};
pub use crate::crypto::test_key;
use crate::json::{
    document_object, document_object_x, key_text, keys_of, keys_x, members_text, object_text, plain_key,
    push_quoted, push_string_list, quoted, string_list, strings_field, strings_field_x, strings_view,
    text_field, text_field_x, u64_field, u64_field_x, written_bytes, written_spans, written_text, Skip,
    Written,
};
use crate::text::{dec_of, push_str, push_u64};
use crate::time::{parse_datetime, rfc3339, spec_parse_datetime, spec_rfc3339, Timestamp};
use crate::{sha256, spec_sha256};

verus! {

/// A user-signed Intent Mandate: "agent `agent_id` may spend up to `max_amount_cents`
/// `currency` at `allowed_merchants` until `expires_at`."
#[derive(Debug, Clone)]
pub struct IntentMandate {
    pub mandate_id: String,
    pub user_id: String,
    pub agent_id: String,
    pub intent_description: String,
    pub max_amount_cents: u64,
    pub currency: String,
    /// Empty = any merchant the agent chooses.
    pub allowed_merchants: Vec<String>,
    pub created_at: Timestamp,
    pub expires_at: Timestamp,
}

/// The content of a mandate as values.
#[verifier::ext_equal]
pub struct MandateView {
    pub mandate_id: Seq<char>,
    pub user_id: Seq<char>,
    pub agent_id: Seq<char>,
    pub intent_description: Seq<char>,
    pub max_amount_cents: u64,
    pub currency: Seq<char>,
    pub allowed_merchants: Seq<Seq<char>>,
    pub created_at: (i64, u32),
    pub expires_at: (i64, u32),
}

impl View for IntentMandate {
    type V = MandateView;

    open spec fn view(&self) -> MandateView {
        MandateView {
            mandate_id: self.mandate_id@,
            user_id: self.user_id@,
            agent_id: self.agent_id@,
            intent_description: self.intent_description@,
            max_amount_cents: self.max_amount_cents,
            currency: self.currency@,
            allowed_merchants: strings_view(self.allowed_merchants@),
            created_at: self.created_at@,
            expires_at: self.expires_at@,
        }
    }
}

/// The canonical text that a mandate signature covers: compact JSON, fields in the fixed
/// order `mandate_id, user_id, agent_id, intent_description, max_amount_cents, currency,
/// allowed_merchants, created_at, expires_at`, times as RFC 3339 UTC.
pub open spec fn payload_text(m: MandateView) -> Seq<char> {
    "{\"mandate_id\":"@ + quoted(m.mandate_id) + ",\"user_id\":"@ + quoted(m.user_id)
        + ",\"agent_id\":"@ + quoted(m.agent_id) + ",\"intent_description\":"@ + quoted(
        m.intent_description,
    ) + ",\"max_amount_cents\":"@ + dec_of(m.max_amount_cents as nat) + ",\"currency\":"@
        + quoted(m.currency) + ",\"allowed_merchants\":"@ + string_list(m.allowed_merchants)
        + ",\"created_at\":"@ + quoted(spec_rfc3339(m.created_at)) + ",\"expires_at\":"@
        + quoted(spec_rfc3339(m.expires_at)) + "}"@
}

/// The canonical bytes that a mandate signature covers (UTF-8 of [`payload_text`]).
pub open spec fn payload_bytes(m: MandateView) -> Seq<u8> {
    vstd::utf8::encode_utf8(payload_text(m))
}

/// The payload text, grouped from the right: each opening, then its value, then the rest.
proof fn lemma_payload_right(b: MandateView)
    ensures
        payload_text(b) == ("{\"mandate_id\":"@ + (quoted(b.mandate_id) + (",\"user_id\":"@ + (quoted(b.user_id) + (",\"agent_id\":"@ + (quoted(b.agent_id) + (",\"intent_description\":"@ + (quoted(b.intent_description) + (",\"max_amount_cents\":"@ + (dec_of(b.max_amount_cents as nat) + (",\"currency\":"@ + (quoted(b.currency) + (",\"allowed_merchants\":"@ + (string_list(b.allowed_merchants) + (",\"created_at\":"@ + (quoted(spec_rfc3339(b.created_at)) + (",\"expires_at\":"@ + (quoted(spec_rfc3339(b.expires_at)) + "}"@)))))))))))))))))),
{
    let r9 = "}"@;
    let r8 = ",\"expires_at\":"@ + (quoted(spec_rfc3339(b.expires_at)) + r9);
    let r7 = ",\"created_at\":"@ + (quoted(spec_rfc3339(b.created_at)) + r8);
    let r6 = ",\"allowed_merchants\":"@ + (string_list(b.allowed_merchants) + r7);
    let r5 = ",\"currency\":"@ + (quoted(b.currency) + r6);
    let r4 = ",\"max_amount_cents\":"@ + (dec_of(b.max_amount_cents as nat) + r5);
    let r3 = ",\"intent_description\":"@ + (quoted(b.intent_description) + r4);
    let r2 = ",\"agent_id\":"@ + (quoted(b.agent_id) + r3);
    let r1 = ",\"user_id\":"@ + (quoted(b.user_id) + r2);
    let r0 = "{\"mandate_id\":"@ + (quoted(b.mandate_id) + r1);
    let p0 = "{\"mandate_id\":"@ + quoted(b.mandate_id);
    let p1 = p0 + ",\"user_id\":"@ + quoted(b.user_id);
    let p2 = p1 + ",\"agent_id\":"@ + quoted(b.agent_id);
    let p3 = p2 + ",\"intent_description\":"@ + quoted(b.intent_description);
    let p4 = p3 + ",\"max_amount_cents\":"@ + dec_of(b.max_amount_cents as nat);
    let p5 = p4 + ",\"currency\":"@ + quoted(b.currency);
    let p6 = p5 + ",\"allowed_merchants\":"@ + string_list(b.allowed_merchants);
    let p7 = p6 + ",\"created_at\":"@ + quoted(spec_rfc3339(b.created_at));
    let p8 = p7 + ",\"expires_at\":"@ + quoted(spec_rfc3339(b.expires_at));
    assert(payload_text(b) == p8 + r9);
    crate::unique::lemma_regroup(p7, ",\"expires_at\":"@, quoted(spec_rfc3339(b.expires_at)), r9);
    crate::unique::lemma_regroup(p6, ",\"created_at\":"@, quoted(spec_rfc3339(b.created_at)), r8);
    crate::unique::lemma_regroup(p5, ",\"allowed_merchants\":"@, string_list(b.allowed_merchants), r7);
    crate::unique::lemma_regroup(p4, ",\"currency\":"@, quoted(b.currency), r6);
    crate::unique::lemma_regroup(p3, ",\"max_amount_cents\":"@, dec_of(b.max_amount_cents as nat), r5);
    crate::unique::lemma_regroup(p2, ",\"intent_description\":"@, quoted(b.intent_description), r4);
    crate::unique::lemma_regroup(p1, ",\"agent_id\":"@, quoted(b.agent_id), r3);
    crate::unique::lemma_regroup(p0, ",\"user_id\":"@, quoted(b.user_id), r2);
    crate::unique::lemma_regroup(Seq::<char>::empty(), "{\"mandate_id\":"@, quoted(b.mandate_id), r1);
}

/// The bytes a mandate signature covers determine every field of the mandate: two mandates
/// whose canonical bytes are equal agree on every field, and on the RFC 3339 text of each of
/// their two times.
#[verifier::spinoff_prover]
#[verifier::rlimit(100)]
pub proof fn law_payload_covers_every_field(b1: MandateView, b2: MandateView)
    requires
        payload_bytes(b1) == payload_bytes(b2),
    ensures
        b1.mandate_id == b2.mandate_id,
        b1.user_id == b2.user_id,
        b1.agent_id == b2.agent_id,
        b1.intent_description == b2.intent_description,
        b1.max_amount_cents == b2.max_amount_cents,
        b1.currency == b2.currency,
        b1.allowed_merchants == b2.allowed_merchants,
        spec_rfc3339(b1.created_at) == spec_rfc3339(b2.created_at),
        spec_rfc3339(b1.expires_at) == spec_rfc3339(b2.expires_at),
{
    vstd::utf8::encode_utf8_decode_utf8(payload_text(b1));
    vstd::utf8::encode_utf8_decode_utf8(payload_text(b2));
    reveal_strlit(",\"currency\":");
    let r9_1 = "}"@;
    let r8_1 = ",\"expires_at\":"@ + (quoted(spec_rfc3339(b1.expires_at)) + r9_1);
    let r7_1 = ",\"created_at\":"@ + (quoted(spec_rfc3339(b1.created_at)) + r8_1);
    let r6_1 = ",\"allowed_merchants\":"@ + (string_list(b1.allowed_merchants) + r7_1);
    let r5_1 = ",\"currency\":"@ + (quoted(b1.currency) + r6_1);
    let r4_1 = ",\"max_amount_cents\":"@ + (dec_of(b1.max_amount_cents as nat) + r5_1);
    let r3_1 = ",\"intent_description\":"@ + (quoted(b1.intent_description) + r4_1);
    let r2_1 = ",\"agent_id\":"@ + (quoted(b1.agent_id) + r3_1);
    let r1_1 = ",\"user_id\":"@ + (quoted(b1.user_id) + r2_1);
    let r0_1 = "{\"mandate_id\":"@ + (quoted(b1.mandate_id) + r1_1);
    lemma_payload_right(b1);
    let r9_2 = "}"@;
    let r8_2 = ",\"expires_at\":"@ + (quoted(spec_rfc3339(b2.expires_at)) + r9_2);
    let r7_2 = ",\"created_at\":"@ + (quoted(spec_rfc3339(b2.created_at)) + r8_2);
    let r6_2 = ",\"allowed_merchants\":"@ + (string_list(b2.allowed_merchants) + r7_2);
    let r5_2 = ",\"currency\":"@ + (quoted(b2.currency) + r6_2);
    let r4_2 = ",\"max_amount_cents\":"@ + (dec_of(b2.max_amount_cents as nat) + r5_2);
    let r3_2 = ",\"intent_description\":"@ + (quoted(b2.intent_description) + r4_2);
    let r2_2 = ",\"agent_id\":"@ + (quoted(b2.agent_id) + r3_2);
    let r1_2 = ",\"user_id\":"@ + (quoted(b2.user_id) + r2_2);
    let r0_2 = "{\"mandate_id\":"@ + (quoted(b2.mandate_id) + r1_2);
    lemma_payload_right(b2);
    crate::unique::lemma_cancel_front("{\"mandate_id\":"@, quoted(b1.mandate_id) + r1_1, quoted(b2.mandate_id) + r1_2);
    crate::unique::lemma_quoted_front(b1.mandate_id, b2.mandate_id, r1_1, r1_2);
    crate::unique::lemma_cancel_front(",\"user_id\":"@, quoted(b1.user_id) + r2_1, quoted(b2.user_id) + r2_2);
    crate::unique::lemma_quoted_front(b1.user_id, b2.user_id, r2_1, r2_2);
    crate::unique::lemma_cancel_front(",\"agent_id\":"@, quoted(b1.agent_id) + r3_1, quoted(b2.agent_id) + r3_2);
    crate::unique::lemma_quoted_front(b1.agent_id, b2.agent_id, r3_1, r3_2);
    crate::unique::lemma_cancel_front(",\"intent_description\":"@, quoted(b1.intent_description) + r4_1, quoted(b2.intent_description) + r4_2);
    crate::unique::lemma_quoted_front(b1.intent_description, b2.intent_description, r4_1, r4_2);
    crate::unique::lemma_cancel_front(",\"max_amount_cents\":"@, dec_of(b1.max_amount_cents as nat) + r5_1, dec_of(b2.max_amount_cents as nat) + r5_2);
    assert(r5_1[0] == ',' && r5_2[0] == ',');
    crate::unique::lemma_dec_front(b1.max_amount_cents as nat, b2.max_amount_cents as nat, r5_1, r5_2);
    crate::unique::lemma_cancel_front(",\"currency\":"@, quoted(b1.currency) + r6_1, quoted(b2.currency) + r6_2);
    crate::unique::lemma_quoted_front(b1.currency, b2.currency, r6_1, r6_2);
    crate::unique::lemma_cancel_front(",\"allowed_merchants\":"@, string_list(b1.allowed_merchants) + r7_1, string_list(b2.allowed_merchants) + r7_2);
    crate::unique::lemma_list_front(b1.allowed_merchants, b2.allowed_merchants, r7_1, r7_2);
    crate::unique::lemma_cancel_front(",\"created_at\":"@, quoted(spec_rfc3339(b1.created_at)) + r8_1, quoted(spec_rfc3339(b2.created_at)) + r8_2);
    crate::unique::lemma_quoted_front(spec_rfc3339(b1.created_at), spec_rfc3339(b2.created_at), r8_1, r8_2);
    crate::unique::lemma_cancel_front(",\"expires_at\":"@, quoted(spec_rfc3339(b1.expires_at)) + r9_1, quoted(spec_rfc3339(b2.expires_at)) + r9_2);
    crate::unique::lemma_quoted_front(spec_rfc3339(b1.expires_at), spec_rfc3339(b2.expires_at), r9_1, r9_2);
}

/// The signed wire: the mandate's fields and `signature_b64`, keys in sorted order.
pub open spec fn wire_text(m: MandateView, sig_b64: Seq<char>) -> Seq<char> {
    "{\"agent_id\":"@ + quoted(m.agent_id) + ",\"allowed_merchants\":"@ + string_list(
        m.allowed_merchants,
    ) + ",\"created_at\":"@ + quoted(spec_rfc3339(m.created_at)) + ",\"currency\":"@ + quoted(
        m.currency,
    ) + ",\"expires_at\":"@ + quoted(spec_rfc3339(m.expires_at)) + ",\"intent_description\":"@
        + quoted(m.intent_description) + ",\"mandate_id\":"@ + quoted(m.mandate_id)
        + ",\"max_amount_cents\":"@ + dec_of(m.max_amount_cents as nat) + ",\"signature_b64\":"@
        + quoted(sig_b64) + ",\"user_id\":"@ + quoted(m.user_id) + "}"@
}

/// The members of the signed wire, keys in sorted order.
pub open spec fn wire_members(m: MandateView, sig_b64: Seq<char>) -> Seq<(Seq<char>, Written)> {
    seq![
        ("agent_id"@, Written::Text(m.agent_id)),
        ("allowed_merchants"@, Written::List(m.allowed_merchants)),
        ("created_at"@, Written::Text(spec_rfc3339(m.created_at))),
        ("currency"@, Written::Text(m.currency)),
        ("expires_at"@, Written::Text(spec_rfc3339(m.expires_at))),
        ("intent_description"@, Written::Text(m.intent_description)),
        ("mandate_id"@, Written::Text(m.mandate_id)),
        ("max_amount_cents"@, Written::Nat(m.max_amount_cents)),
        ("signature_b64"@, Written::Text(sig_b64)),
        ("user_id"@, Written::Text(m.user_id)),
    ]
}

/// The keys of the signed wire, in sorted order.
pub open spec fn wire_keys() -> Seq<Seq<char>> {
    seq![
        "agent_id"@,
        "allowed_merchants"@,
        "created_at"@,
        "currency"@,
        "expires_at"@,
        "intent_description"@,
        "mandate_id"@,
        "max_amount_cents"@,
        "signature_b64"@,
        "user_id"@,
    ]
}

/// The wire keys are plain and all different.
proof fn lemma_wire_keys()
    ensures
        wire_keys().len() == 10,
        forall|i: int| 0 <= i < 10 ==> plain_key(#[trigger] wire_keys()[i]),
        forall|a: int, b: int| 0 <= a < b < 10 ==> wire_keys()[a] != wire_keys()[b],
{
    reveal_strlit("agent_id");
    reveal_strlit("allowed_merchants");
    reveal_strlit("created_at");
    reveal_strlit("currency");
    reveal_strlit("expires_at");
    reveal_strlit("intent_description");
    reveal_strlit("mandate_id");
    reveal_strlit("max_amount_cents");
    reveal_strlit("signature_b64");
    reveal_strlit("user_id");
    let k = wire_keys();
    assert forall|i: int| 0 <= i < 10 implies plain_key(#[trigger] k[i]) by {
        assert(k[i] == wire_keys()[i]);
    }
    assert(k[0][0] != k[3][0]);
    assert(k[2][0] != k[4][0]);
    assert(k[2][0] != k[6][0]);
    assert(k[4][0] != k[6][0]);
    assert forall|a: int, b: int| 0 <= a < b < 10 implies k[a] != k[b] by {
        if (a == 0 && b == 3) || (a == 2 && b == 4) || (a == 2 && b == 6) || (a == 4 && b == 6) {
            assert(k[a][0] != k[b][0]);
        } else {
            assert(k[a].len() != k[b].len());
        }
    }
}

/// The pieces of the wire text: each opening is a comma (a brace for the first) and a key's text.
proof fn lemma_wire_literals()
    ensures
        "{\"agent_id\":"@ == seq!['{'] + key_text("agent_id"@),
        ",\"allowed_merchants\":"@ == seq![','] + key_text("allowed_merchants"@),
        ",\"created_at\":"@ == seq![','] + key_text("created_at"@),
        ",\"currency\":"@ == seq![','] + key_text("currency"@),
        ",\"expires_at\":"@ == seq![','] + key_text("expires_at"@),
        ",\"intent_description\":"@ == seq![','] + key_text("intent_description"@),
        ",\"mandate_id\":"@ == seq![','] + key_text("mandate_id"@),
        ",\"max_amount_cents\":"@ == seq![','] + key_text("max_amount_cents"@),
        ",\"signature_b64\":"@ == seq![','] + key_text("signature_b64"@),
        ",\"user_id\":"@ == seq![','] + key_text("user_id"@),
        "}"@ == seq!['}'],
{
    reveal_strlit("{\"agent_id\":");
    reveal_strlit(",\"allowed_merchants\":");
    reveal_strlit(",\"created_at\":");
    reveal_strlit(",\"currency\":");
    reveal_strlit(",\"expires_at\":");
    reveal_strlit(",\"intent_description\":");
    reveal_strlit(",\"mandate_id\":");
    reveal_strlit(",\"max_amount_cents\":");
    reveal_strlit(",\"signature_b64\":");
    reveal_strlit(",\"user_id\":");
    reveal_strlit("}");
    reveal_strlit("agent_id");
    reveal_strlit("allowed_merchants");
    reveal_strlit("created_at");
    reveal_strlit("currency");
    reveal_strlit("expires_at");
    reveal_strlit("intent_description");
    reveal_strlit("mandate_id");
    reveal_strlit("max_amount_cents");
    reveal_strlit("signature_b64");
    reveal_strlit("user_id");
    assert("{\"agent_id\":"@ =~= seq!['{'] + key_text("agent_id"@));
    assert(",\"allowed_merchants\":"@ =~= seq![','] + key_text("allowed_merchants"@));
    assert(",\"created_at\":"@ =~= seq![','] + key_text("created_at"@));
    assert(",\"currency\":"@ =~= seq![','] + key_text("currency"@));
    assert(",\"expires_at\":"@ =~= seq![','] + key_text("expires_at"@));
    assert(",\"intent_description\":"@ =~= seq![','] + key_text("intent_description"@));
    assert(",\"mandate_id\":"@ =~= seq![','] + key_text("mandate_id"@));
    assert(",\"max_amount_cents\":"@ =~= seq![','] + key_text("max_amount_cents"@));
    assert(",\"signature_b64\":"@ =~= seq![','] + key_text("signature_b64"@));
    assert(",\"user_id\":"@ =~= seq![','] + key_text("user_id"@));
    assert("}"@ =~= seq!['}']);
}

/// One member more of the wire text, as the object's members have it.
pub(crate) proof fn lemma_wire_step(p: Seq<char>, lit: Seq<char>, key: Seq<char>, v: Seq<char>, rest: Seq<char>)
    requires
        lit == seq![','] + key_text(key),
    ensures
        p + seq![','] + (key_text(key) + v + seq![','] + rest) == (p + lit + v) + seq![','] + rest,
        p + seq![','] + (key_text(key) + v) == p + lit + v,
{
    assert(p + seq![','] + (key_text(key) + v + seq![','] + rest) =~= (p + lit + v) + seq![','] + rest);
    assert(p + seq![','] + (key_text(key) + v) =~= p + lit + v);
}

/// The wire text is the object of the wire members.
proof fn lemma_wire_text(m: MandateView, sig_b64: Seq<char>)
    ensures
        wire_text(m, sig_b64) == object_text(wire_members(m, sig_b64)),
{
    lemma_wire_literals();
    let ms = wire_members(m, sig_b64);
    crate::json::lemma_members_unfold(ms, 0);
    crate::json::lemma_members_unfold(ms, 1);
    crate::json::lemma_members_unfold(ms, 2);
    crate::json::lemma_members_unfold(ms, 3);
    crate::json::lemma_members_unfold(ms, 4);
    crate::json::lemma_members_unfold(ms, 5);
    crate::json::lemma_members_unfold(ms, 6);
    crate::json::lemma_members_unfold(ms, 7);
    crate::json::lemma_members_unfold(ms, 8);
    crate::json::lemma_members_unfold(ms, 9);
    assert(ms.subrange(0, 10) =~= ms);
    let t0 = members_text(ms.subrange(0, 10));
    let t1 = members_text(ms.subrange(1, 10));
    let t2 = members_text(ms.subrange(2, 10));
    let t3 = members_text(ms.subrange(3, 10));
    let t4 = members_text(ms.subrange(4, 10));
    let t5 = members_text(ms.subrange(5, 10));
    let t6 = members_text(ms.subrange(6, 10));
    let t7 = members_text(ms.subrange(7, 10));
    let t8 = members_text(ms.subrange(8, 10));
    let t9 = members_text(ms.subrange(9, 10));
    let p0 = "{\"agent_id\":"@ + quoted(m.agent_id);
    let p1 = p0 + ",\"allowed_merchants\":"@ + string_list(m.allowed_merchants);
    let p2 = p1 + ",\"created_at\":"@ + quoted(spec_rfc3339(m.created_at));
    let p3 = p2 + ",\"currency\":"@ + quoted(m.currency);
    let p4 = p3 + ",\"expires_at\":"@ + quoted(spec_rfc3339(m.expires_at));
    let p5 = p4 + ",\"intent_description\":"@ + quoted(m.intent_description);
    let p6 = p5 + ",\"mandate_id\":"@ + quoted(m.mandate_id);
    let p7 = p6 + ",\"max_amount_cents\":"@ + dec_of(m.max_amount_cents as nat);
    let p8 = p7 + ",\"signature_b64\":"@ + quoted(sig_b64);
    let p9 = p8 + ",\"user_id\":"@ + quoted(m.user_id);
    assert(seq!['{'] + t0 =~= p0 + seq![','] + t1);
    lemma_wire_step(p0, ",\"allowed_merchants\":"@, "allowed_merchants"@, string_list(m.allowed_merchants), t2);
    lemma_wire_step(p1, ",\"created_at\":"@, "created_at"@, quoted(spec_rfc3339(m.created_at)), t3);
    lemma_wire_step(p2, ",\"currency\":"@, "currency"@, quoted(m.currency), t4);
    lemma_wire_step(p3, ",\"expires_at\":"@, "expires_at"@, quoted(spec_rfc3339(m.expires_at)), t5);
    lemma_wire_step(p4, ",\"intent_description\":"@, "intent_description"@, quoted(m.intent_description), t6);
    lemma_wire_step(p5, ",\"mandate_id\":"@, "mandate_id"@, quoted(m.mandate_id), t7);
    lemma_wire_step(p6, ",\"max_amount_cents\":"@, "max_amount_cents"@, dec_of(m.max_amount_cents as nat), t8);
    lemma_wire_step(p7, ",\"signature_b64\":"@, "signature_b64"@, quoted(sig_b64), t9);
    lemma_wire_step(p8, ",\"user_id\":"@, "user_id"@, quoted(m.user_id), Seq::empty());
    assert(wire_text(m, sig_b64) == p9 + "}"@);
    assert(wire_text(m, sig_b64) =~= object_text(ms));
}

impl IntentMandate {
    /// The exact bytes the signature must cover: the mandate content WITHOUT the
    /// signature, in the canonical form.
    pub fn signed_payload(&self) -> (bytes: Vec<u8>)
        ensures
            bytes@ == payload_bytes(self@),
    {
        let s = self.payload_string();
        s.as_str().as_bytes_vec()
    }

    /// A copy of the mandate.
    pub fn clone_mandate(&self) -> (m: IntentMandate)
        ensures
            m@ == self@,
    {
        let mut merchants: Vec<String> = Vec::new();
        let mut i: usize = 0;
        while i < self.allowed_merchants.len()
            invariant
                i <= self.allowed_merchants@.len(),
                strings_view(merchants@) == strings_view(self.allowed_merchants@).take(i as int),
            decreases self.allowed_merchants@.len() - i,
        {
            let ghost prev = strings_view(merchants@);
            merchants.push(self.allowed_merchants[i].clone());
            assert(strings_view(merchants@) =~= prev.push(self.allowed_merchants@[i as int]@));
            assert(strings_view(self.allowed_merchants@).take(i + 1) =~= strings_view(self.allowed_merchants@).take(i as int).push(self.allowed_merchants@[i as int]@));
            i = i + 1;
        }
        assert(strings_view(self.allowed_merchants@).take(self.allowed_merchants@.len() as int) =~= strings_view(self.allowed_merchants@));
        let m = IntentMandate {
            mandate_id: self.mandate_id.clone(),
            user_id: self.user_id.clone(),
            agent_id: self.agent_id.clone(),
            intent_description: self.intent_description.clone(),
            max_amount_cents: self.max_amount_cents,
            currency: self.currency.clone(),
            allowed_merchants: merchants,
            created_at: self.created_at,
            expires_at: self.expires_at,
        };
        assert(m@ =~= self@);
        m
    }

    /// The canonical payload as text.
    pub fn payload_string(&self) -> (s: String)
        ensures
            s@ == payload_text(self@),
    {
        let mut s = String::new();
        push_str(&mut s, "{\"mandate_id\":");
        push_quoted(&mut s, self.mandate_id.as_str());
        push_str(&mut s, ",\"user_id\":");
        push_quoted(&mut s, self.user_id.as_str());
        push_str(&mut s, ",\"agent_id\":");
        push_quoted(&mut s, self.agent_id.as_str());
        push_str(&mut s, ",\"intent_description\":");
        push_quoted(&mut s, self.intent_description.as_str());
        push_str(&mut s, ",\"max_amount_cents\":");
        push_u64(&mut s, self.max_amount_cents);
        push_str(&mut s, ",\"currency\":");
        push_quoted(&mut s, self.currency.as_str());
        push_str(&mut s, ",\"allowed_merchants\":");
        push_string_list(&mut s, &self.allowed_merchants);
        push_str(&mut s, ",\"created_at\":");
        let c = rfc3339(&self.created_at);
        push_quoted(&mut s, c.as_str());
        push_str(&mut s, ",\"expires_at\":");
        let e = rfc3339(&self.expires_at);
        push_quoted(&mut s, e.as_str());
        push_str(&mut s, "}");
        assert(s@ =~= payload_text(self@));
        s
    }
}


/// Errors are deliberately coarse: every variant is a fail-closed Deny.
#[derive(Debug)]
pub enum VerifyError {
    Malformed(String),
    UnknownUser(String),
    BadSignature,
}

/// The text of an error.
pub open spec fn verify_error_text(e: VerifyError) -> Seq<char> {
    match e {
        VerifyError::Malformed(m) => "malformed mandate wire: "@ + m@,
        VerifyError::UnknownUser(u) => "no trusted key registered for user "@ + u@,
        VerifyError::BadSignature => "signature verification failed"@,
    }
}

impl VerifyError {
    /// The error's message, as shown to users.
    pub fn message(&self) -> (s: String)
        ensures
            s@ == verify_error_text(*self),
    {
        let mut s = String::new();
        match self {
            VerifyError::Malformed(m) => {
                push_str(&mut s, "malformed mandate wire: ");
                push_str(&mut s, m.as_str());
            },
            VerifyError::UnknownUser(u) => {
                push_str(&mut s, "no trusted key registered for user ");
                push_str(&mut s, u.as_str());
            },
            VerifyError::BadSignature => {
                push_str(&mut s, "signature verification failed");
            },
        }
        assert(s@ =~= verify_error_text(*self));
        s
    }
}

/// The key registered for `user` in a list of registrations: the last one for that user.
pub open spec fn key_lookup(entries: Seq<(String, VerifyingKey)>, user: Seq<char>) -> Option<Seq<u8>>
    decreases entries.len(),
{
    if entries.len() == 0 {
        None
    } else if entries.last().0@ == user {
        Some(entries.last().1@)
    } else {
        key_lookup(entries.drop_last(), user)
    }
}

/// Trusted `user_id -> Ed25519 verifying key` registry.
///
/// EMPTY = no trusted keys = every mandate is denied (fail-closed).
#[derive(Clone)]
pub struct MandateKeyRegistry {
    keys: Vec<(String, VerifyingKey)>,
}

impl View for MandateKeyRegistry {
    type V = Map<Seq<char>, Seq<u8>>;

    closed spec fn view(&self) -> Map<Seq<char>, Seq<u8>> {
        Map::new(
            |u: Seq<char>| key_lookup(self.keys@, u) is Some,
            |u: Seq<char>| key_lookup(self.keys@, u).unwrap(),
        )
    }
}

impl Default for MandateKeyRegistry {
    fn default() -> (r: MandateKeyRegistry)
        ensures
            r@ == Map::<Seq<char>, Seq<u8>>::empty(),
    {
        MandateKeyRegistry::new()
    }
}

proof fn lemma_lookup_empty(entries: Seq<(String, VerifyingKey)>)
    requires
        entries.len() > 0,
    ensures
        key_lookup(entries, entries.last().0@) is Some,
{
}

impl MandateKeyRegistry {
    /// An empty registry: it trusts no one.
    pub fn new() -> (r: MandateKeyRegistry)
        ensures
            r@ == Map::<Seq<char>, Seq<u8>>::empty(),
    {
        let r = MandateKeyRegistry { keys: Vec::new() };
        assert(r@ =~= Map::<Seq<char>, Seq<u8>>::empty());
        r
    }

    /// Trust `key` for `user_id`, in place of any key trusted for that user before.
    pub fn trust(&mut self, user_id: &str, key: VerifyingKey)
        ensures
            final(self)@ == old(self)@.insert(user_id@, key@),
    {
        self.keys.push((user_id.to_owned(), key));
        proof {
            assert(self.keys@.drop_last() =~= old(self).keys@);
        }
        assert(self@ =~= old(self)@.insert(user_id@, key@));
    }

    /// The key trusted for `user_id`, if any.
    pub fn get(&self, user_id: &str) -> (r: Option<&VerifyingKey>)
        ensures
            r matches Some(k) ==> self@.contains_key(user_id@) && k@ == self@[user_id@],
            r is None ==> !self@.contains_key(user_id@),
    {
        let mut i = self.keys.len();
        assert(self.keys@.take(i as int) =~= self.keys@);
        while i > 0
            invariant
                i <= self.keys@.len(),
                key_lookup(self.keys@, user_id@) == key_lookup(self.keys@.take(i as int), user_id@),
            decreases i,
        {
            assert(self.keys@.take(i as int).drop_last() =~= self.keys@.take(i - 1));
            assert(self.keys@.take(i as int).last() == self.keys@[i - 1]);
            if crate::json::same_text(&self.keys[i - 1].0, user_id) {
                return Some(&self.keys[i - 1].1);
            }
            i = i - 1;
        }
        None
    }

    /// Whether no key is trusted at all.
    pub fn is_empty(&self) -> (r: bool)
        ensures
            r == (self@.dom() == Set::<Seq<char>>::empty()),
    {
        proof {
            if self.keys@.len() > 0 {
                lemma_lookup_empty(self.keys@);
                assert(self@.dom().contains(self.keys@.last().0@));
            } else {
                assert(self@.dom() =~= Set::<Seq<char>>::empty());
            }
        }
        self.keys.len() == 0
    }
}

/// The outcome of checking a detached signature.
pub enum Check {
    Pass,
    UnknownUser,
    BadSignature,
}

/// Checking a detached signature: the user must have a trusted key, the signature text must
/// decode from Base64 to 64 bytes, and those bytes must verify (strictly) over the SHA-256
/// of the canonical bytes under that key.
pub open spec fn detached_check(
    user: Seq<char>,
    canonical: Seq<u8>,
    sig_b64: Seq<char>,
    reg: Map<Seq<char>, Seq<u8>>,
) -> Check {
    if !reg.contains_key(user) {
        Check::UnknownUser
    } else {
        match spec_b64_decode(vstd::utf8::encode_utf8(sig_b64)) {
            None => Check::BadSignature,
            Some(sig) => if sig.len() == 64 && spec_ed25519_verify(reg[user], spec_sha256(canonical), sig) {
                Check::Pass
            } else {
                Check::BadSignature
            },
        }
    }
}

/// The detached signature of canonical bytes with the 32-byte secret `sk`: the standard
/// Base64 of the Ed25519 signature over their SHA-256.
pub open spec fn detached_signature(canonical: Seq<u8>, sk: Seq<u8>) -> Seq<char> {
    spec_b64_encode(spec_ed25519_sign(sk, spec_sha256(canonical)))
}

/// The result that [`detached_check`] gives.
pub open spec fn detached_result(c: Check, user: Seq<char>, r: Result<(), VerifyError>) -> bool {
    match c {
        Check::Pass => r is Ok,
        Check::UnknownUser => r matches Err(VerifyError::UnknownUser(u)) && u@ == user,
        Check::BadSignature => r matches Err(VerifyError::BadSignature),
    }
}

/// Verify a detached Ed25519 signature (standard Base64 text) over the SHA-256 of
/// `canonical` with the key trusted for `user_id`.
///
/// FAIL-CLOSED: an unknown user, a signature that does not decode to 64 bytes, or one that
/// does not verify all return `Err`.
pub fn verify_detached(
    user_id: &str,
    canonical: &[u8],
    signature_b64: &str,
    registry: &MandateKeyRegistry,
) -> (r: Result<(), VerifyError>)
    ensures
        detached_result(detached_check(user_id@, canonical@, signature_b64@, registry@), user_id@, r),
        forall|sk: Seq<u8>|
            #![trigger detached_signature(canonical@, sk)]
            registry@.contains_key(user_id@) && registry@[user_id@] == spec_ed25519_public(sk)
                && signature_b64@ == detached_signature(canonical@, sk) && genuine(sk, spec_sha256(canonical@))
                ==> detached_check(user_id@, canonical@, signature_b64@, registry@) is Pass,
{
    let vk = match registry.get(user_id) {
        Some(k) => k,
        None => {
            return Err(VerifyError::UnknownUser(user_id.to_owned()));
        },
    };
    let sig_bytes = match b64_decode(signature_b64.as_bytes()) {
        Some(b) => b,
        None => {
            return Err(VerifyError::BadSignature);
        },
    };
    if sig_bytes.len() != 64 {
        return Err(VerifyError::BadSignature);
    }
    let mut sig = [0u8; 64];
    let mut i: usize = 0;
    while i < 64
        invariant
            i <= 64,
            sig_bytes@.len() == 64,
            forall|j: int| 0 <= j < i ==> sig@[j] == sig_bytes@[j],
        decreases 64 - i,
    {
        sig[i] = sig_bytes[i];
        i = i + 1;
    }
    assert(sig@ =~= sig_bytes@);
    let digest = sha256(canonical);
    if vk.verify_strict(&digest, &sig) {
        Ok(())
    } else {
        Err(VerifyError::BadSignature)
    }
}


/// The field `name` read as a string and then as a date and time, as `serde` reads a
/// `DateTime<Utc>`.
pub open spec fn time_field(
    s: Seq<u8>,
    keys: Seq<Seq<char>>,
    ms: Seq<crate::json::MemberSpan>,
    name: Seq<char>,
) -> Option<(i64, u32)> {
    match text_field(s, keys, ms, name) {
        Some(t) => spec_parse_datetime(t),
        None => None,
    }
}

/// The mandate and signature text that a native wire holds: one JSON object whose values are
/// all well-formed JSON (nested no deeper than serde_json allows), whose keys all read as
/// strings, and in which each mandate field and `signature_b64` appears exactly once with a
/// value of its type. Other members are allowed and carry nothing.
pub open spec fn native_wire(s: Seq<u8>) -> Option<(MandateView, Seq<char>)> {
    match document_object(s, Skip::Buffered(126)) {
        None => None,
        Some(ms) => match keys_of(s, ms) {
            None => None,
            Some(keys) => {
                let mandate_id = text_field(s, keys, ms, "mandate_id"@);
                let user_id = text_field(s, keys, ms, "user_id"@);
                let agent_id = text_field(s, keys, ms, "agent_id"@);
                let intent_description = text_field(s, keys, ms, "intent_description"@);
                let max_amount_cents = u64_field(s, keys, ms, "max_amount_cents"@);
                let currency = text_field(s, keys, ms, "currency"@);
                let allowed_merchants = strings_field(s, keys, ms, "allowed_merchants"@);
                let created_at = time_field(s, keys, ms, "created_at"@);
                let expires_at = time_field(s, keys, ms, "expires_at"@);
                let signature_b64 = text_field(s, keys, ms, "signature_b64"@);
                if mandate_id is Some && user_id is Some && agent_id is Some && intent_description is Some
                    && max_amount_cents is Some && currency is Some && allowed_merchants is Some
                    && created_at is Some && expires_at is Some && signature_b64 is Some {
                    Some(
                        (
                            MandateView {
                                mandate_id: mandate_id.unwrap(),
                                user_id: user_id.unwrap(),
                                agent_id: agent_id.unwrap(),
                                intent_description: intent_description.unwrap(),
                                max_amount_cents: max_amount_cents.unwrap(),
                                currency: currency.unwrap(),
                                allowed_merchants: allowed_merchants.unwrap(),
                                created_at: created_at.unwrap(),
                                expires_at: expires_at.unwrap(),
                            },
                            signature_b64.unwrap(),
                        ),
                    )
                } else {
                    None
                }
            },
        },
    }
}

/// The message naming a field that is missing, repeated or of the wrong type.
pub open spec fn field_problem_text(name: Seq<char>) -> Seq<char> {
    "field `"@ + name + "` is missing, repeated or of the wrong type"@
}

/// A message naming a field that is missing, repeated or of the wrong type.
pub fn field_problem(name: &str) -> (msg: String)
    ensures
        msg@ == field_problem_text(name@),
{
    let mut msg = String::new();
    push_str(&mut msg, "field `");
    push_str(&mut msg, name);
    push_str(&mut msg, "` is missing, repeated or of the wrong type");
    assert(msg@ =~= field_problem_text(name@));
    msg
}

/// Why a wire does not read as one JSON object with keys that read as strings; `bad` names
/// the first field, in reading order, that is missing, repeated or of the wrong type.
pub open spec fn frame_problem(s: Seq<u8>, bad: Seq<char>) -> Seq<char> {
    match document_object(s, Skip::Buffered(126)) {
        None => "expected one JSON object"@,
        Some(ms) => match keys_of(s, ms) {
            None => "a key does not read as a string"@,
            Some(keys) => field_problem_text(bad),
        },
    }
}

/// The message for a wire that is not one JSON object.
pub fn not_an_object() -> (msg: String)
    ensures
        msg@ == "expected one JSON object"@,
{
    let mut msg = String::new();
    push_str(&mut msg, "expected one JSON object");
    assert(msg@ =~= "expected one JSON object"@);
    msg
}

/// The message for an object with a key that does not read as a string.
pub fn bad_key() -> (msg: String)
    ensures
        msg@ == "a key does not read as a string"@,
{
    let mut msg = String::new();
    push_str(&mut msg, "a key does not read as a string");
    assert(msg@ =~= "a key does not read as a string"@);
    msg
}

/// The first native field, in reading order, that does not read.
pub open spec fn native_bad_field(s: Seq<u8>) -> Seq<char> {
    let ms = document_object(s, Skip::Buffered(126)).unwrap();
    let keys = keys_of(s, ms).unwrap();
    if text_field(s, keys, ms, "mandate_id"@) is None {
        "mandate_id"@
    } else if text_field(s, keys, ms, "user_id"@) is None {
        "user_id"@
    } else if text_field(s, keys, ms, "agent_id"@) is None {
        "agent_id"@
    } else if text_field(s, keys, ms, "intent_description"@) is None {
        "intent_description"@
    } else if u64_field(s, keys, ms, "max_amount_cents"@) is None {
        "max_amount_cents"@
    } else if text_field(s, keys, ms, "currency"@) is None {
        "currency"@
    } else if strings_field(s, keys, ms, "allowed_merchants"@) is None {
        "allowed_merchants"@
    } else if time_field(s, keys, ms, "created_at"@) is None {
        "created_at"@
    } else if time_field(s, keys, ms, "expires_at"@) is None {
        "expires_at"@
    } else {
        "signature_b64"@
    }
}

/// Why a native wire does not read.
pub open spec fn native_problem(s: Seq<u8>) -> Seq<char> {
    frame_problem(s, native_bad_field(s))
}

/// The wire written for `m`, as bytes, read by the buffering reader where [`members_facts`]
/// holds at its first member: one object whose members hold the wire keys and the written
/// values.
proof fn lemma_wire_object(s: Seq<u8>, m: MandateView, sig_b64: Seq<char>)
    requires
        s == vstd::utf8::encode_utf8(wire_text(m, sig_b64)),
        crate::json::skip_ws(s, 0) < s.len() && s[crate::json::skip_ws(s, 0)] == 123 ==> crate::json::members_facts(
            s,
            crate::json::skip_ws(s, crate::json::skip_ws(s, 0) + 1),
            Skip::Buffered(126),
        ),
    ensures
        ({
            let sp = written_spans(wire_members(m, sig_b64), 1);
            &&& document_object(s, Skip::Buffered(126)) == Some(sp)
            &&& sp.len() == 10
            &&& forall|i: int|
                0 <= i < 10 ==> s.subrange(#[trigger] sp[i].0, sp[i].1) == vstd::utf8::encode_utf8(
                    quoted(wire_keys()[i]),
                ) && s.subrange(sp[i].2, sp[i].3) == written_bytes(wire_members(m, sig_b64)[i].1)
        }),
{
    let ms = wire_members(m, sig_b64);
    lemma_wire_text(m, sig_b64);
    lemma_wire_keys();
    assert forall|i: int| 0 <= i < ms.len() implies plain_key(#[trigger] ms[i].0) by {
        assert(ms[i].0 == wire_keys()[i]);
    }
    assert forall|i: int| 0 <= i < ms.len() implies crate::json::fits(#[trigger] ms[i].1, 126) by {
        assert(!(ms[i].1 is Object));
    }
    crate::json::lemma_written_document(s, ms, 126);
    let sp = written_spans(ms, 1);
    assert forall|i: int| 0 <= i < 10 implies s.subrange(#[trigger] sp[i].0, sp[i].1) == vstd::utf8::encode_utf8(
        quoted(wire_keys()[i]),
    ) && s.subrange(sp[i].2, sp[i].3) == written_bytes(ms[i].1) by {
        assert(ms[i].0 == wire_keys()[i]);
    }
}

/// Reads a native wire into the mandate and the signature text it carries; a wire as
/// [`wire_json`] writes it, of times that `DateTime<Utc>` holds, reads back as the mandate and
/// signature text written.
#[verifier::spinoff_prover]
#[verifier::rlimit(60)]
fn read_native_wire(s: &[u8]) -> (r: Result<(IntentMandate, String), String>)
    ensures
        r matches Ok(p) ==> native_wire(s@) == Some((p.0@, p.1@)),
        r matches Err(e) ==> native_wire(s@) is None && e@ == native_problem(s@),
        forall|m: MandateView, sig_b64: Seq<char>|
            #![trigger wire_text(m, sig_b64)]
            s@ == vstd::utf8::encode_utf8(wire_text(m, sig_b64)) && crate::time::ts_valid(m.created_at.0, m.created_at.1)
                && crate::time::ts_valid(m.expires_at.0, m.expires_at.1)
                ==> (r is Ok && r->Ok_0.0@ == m && r->Ok_0.1@ == sig_b64),
{
    let ms = match document_object_x(s, Skip::Buffered(126)) {
        Some(v) => v,
        None => {
            proof {
                assert forall|m: MandateView, sig_b64: Seq<char>|
                    s@ == vstd::utf8::encode_utf8(#[trigger] wire_text(m, sig_b64)) implies false by {
                    lemma_wire_object(s@, m, sig_b64);
                }
            }
            return Err(not_an_object());
        },
    };
    let ghost sp = crate::json::member_spans(ms@);
    let keys = match keys_x(s, &ms) {
        Some(k) => k,
        None => {
            proof {
                assert forall|m: MandateView, sig_b64: Seq<char>|
                    s@ == vstd::utf8::encode_utf8(#[trigger] wire_text(m, sig_b64)) implies false by {
                    lemma_wire_object(s@, m, sig_b64);
                    crate::json::lemma_keys_written(s@, sp, wire_keys());
                }
            }
            return Err(bad_key());
        },
    };
    let mandate_id_r = text_field_x(s, &keys, &ms, "mandate_id");
    let user_id_r = text_field_x(s, &keys, &ms, "user_id");
    let agent_id_r = text_field_x(s, &keys, &ms, "agent_id");
    let intent_description_r = text_field_x(s, &keys, &ms, "intent_description");
    let max_amount_cents_r = u64_field_x(s, &keys, &ms, "max_amount_cents");
    let currency_r = text_field_x(s, &keys, &ms, "currency");
    let allowed_merchants_r = strings_field_x(s, &keys, &ms, "allowed_merchants");
    let created_text = text_field_x(s, &keys, &ms, "created_at");
    let created_at_r = match &created_text {
        Some(t) => parse_datetime(t.as_str()),
        None => None,
    };
    let expires_text = text_field_x(s, &keys, &ms, "expires_at");
    let expires_at_r = match &expires_text {
        Some(t) => parse_datetime(t.as_str()),
        None => None,
    };
    let signature_b64_r = text_field_x(s, &keys, &ms, "signature_b64");
    proof {
        assert forall|m: MandateView, sig_b64: Seq<char>|
            s@ == vstd::utf8::encode_utf8(#[trigger] wire_text(m, sig_b64)) && crate::time::ts_valid(m.created_at.0, m.created_at.1)
                && crate::time::ts_valid(m.expires_at.0, m.expires_at.1) implies {
            &&& mandate_id_r is Some && mandate_id_r->0@ == m.mandate_id
            &&& user_id_r is Some && user_id_r->0@ == m.user_id
            &&& agent_id_r is Some && agent_id_r->0@ == m.agent_id
            &&& intent_description_r is Some && intent_description_r->0@ == m.intent_description
            &&& max_amount_cents_r == Some(m.max_amount_cents)
            &&& currency_r is Some && currency_r->0@ == m.currency
            &&& allowed_merchants_r is Some && strings_view(allowed_merchants_r->0@) == m.allowed_merchants
            &&& created_at_r is Some && created_at_r->0@ == m.created_at
            &&& expires_at_r is Some && expires_at_r->0@ == m.expires_at
            &&& signature_b64_r is Some && signature_b64_r->0@ == sig_b64
        } by {
            lemma_wire_object(s@, m, sig_b64);
            crate::json::lemma_keys_written(s@, sp, wire_keys());
            lemma_wire_keys();
            crate::json::lemma_fields_distinct(wire_keys(), sp);
            reveal(written_bytes);
            let wm = wire_members(m, sig_b64);
            assert(wire_keys()[0] == "agent_id"@);
            assert(wire_keys()[1] == "allowed_merchants"@);
            assert(wire_keys()[2] == "created_at"@);
            assert(wire_keys()[3] == "currency"@);
            assert(wire_keys()[4] == "expires_at"@);
            assert(wire_keys()[5] == "intent_description"@);
            assert(wire_keys()[6] == "mandate_id"@);
            assert(wire_keys()[7] == "max_amount_cents"@);
            assert(wire_keys()[8] == "signature_b64"@);
            assert(wire_keys()[9] == "user_id"@);
            assert(s@.subrange(sp[0].0, sp[0].1) == vstd::utf8::encode_utf8(quoted(wire_keys()[0])));
            assert(s@.subrange(sp[1].0, sp[1].1) == vstd::utf8::encode_utf8(quoted(wire_keys()[1])));
            assert(s@.subrange(sp[2].0, sp[2].1) == vstd::utf8::encode_utf8(quoted(wire_keys()[2])));
            assert(s@.subrange(sp[3].0, sp[3].1) == vstd::utf8::encode_utf8(quoted(wire_keys()[3])));
            assert(s@.subrange(sp[4].0, sp[4].1) == vstd::utf8::encode_utf8(quoted(wire_keys()[4])));
            assert(s@.subrange(sp[5].0, sp[5].1) == vstd::utf8::encode_utf8(quoted(wire_keys()[5])));
            assert(s@.subrange(sp[6].0, sp[6].1) == vstd::utf8::encode_utf8(quoted(wire_keys()[6])));
            assert(s@.subrange(sp[7].0, sp[7].1) == vstd::utf8::encode_utf8(quoted(wire_keys()[7])));
            assert(s@.subrange(sp[8].0, sp[8].1) == vstd::utf8::encode_utf8(quoted(wire_keys()[8])));
            assert(s@.subrange(sp[9].0, sp[9].1) == vstd::utf8::encode_utf8(quoted(wire_keys()[9])));
            assert(strings_view(keys@) == wire_keys());
            assert(crate::json::field(wire_keys(), sp, wire_keys()[0]) == Some((sp[0].2, sp[0].3)));
            assert(crate::json::field(wire_keys(), sp, wire_keys()[1]) == Some((sp[1].2, sp[1].3)));
            assert(crate::json::field(wire_keys(), sp, wire_keys()[2]) == Some((sp[2].2, sp[2].3)));
            assert(crate::json::field(wire_keys(), sp, wire_keys()[3]) == Some((sp[3].2, sp[3].3)));
            assert(crate::json::field(wire_keys(), sp, wire_keys()[4]) == Some((sp[4].2, sp[4].3)));
            assert(crate::json::field(wire_keys(), sp, wire_keys()[5]) == Some((sp[5].2, sp[5].3)));
            assert(crate::json::field(wire_keys(), sp, wire_keys()[6]) == Some((sp[6].2, sp[6].3)));
            assert(crate::json::field(wire_keys(), sp, wire_keys()[7]) == Some((sp[7].2, sp[7].3)));
            assert(crate::json::field(wire_keys(), sp, wire_keys()[8]) == Some((sp[8].2, sp[8].3)));
            assert(crate::json::field(wire_keys(), sp, wire_keys()[9]) == Some((sp[9].2, sp[9].3)));
            assert(s@.subrange(sp[0].2, sp[0].3) == vstd::utf8::encode_utf8(quoted(m.agent_id)));
            assert(s@.subrange(sp[1].2, sp[1].3) == vstd::utf8::encode_utf8(string_list(m.allowed_merchants)));
            assert(s@.subrange(sp[2].2, sp[2].3) == vstd::utf8::encode_utf8(quoted(spec_rfc3339(m.created_at))));
            assert(s@.subrange(sp[3].2, sp[3].3) == vstd::utf8::encode_utf8(quoted(m.currency)));
            assert(s@.subrange(sp[4].2, sp[4].3) == vstd::utf8::encode_utf8(quoted(spec_rfc3339(m.expires_at))));
            assert(s@.subrange(sp[5].2, sp[5].3) == vstd::utf8::encode_utf8(quoted(m.intent_description)));
            assert(s@.subrange(sp[6].2, sp[6].3) == vstd::utf8::encode_utf8(quoted(m.mandate_id)));
            assert(s@.subrange(sp[7].2, sp[7].3) == vstd::utf8::encode_utf8(dec_of(m.max_amount_cents as nat)));
            assert(s@.subrange(sp[8].2, sp[8].3) == vstd::utf8::encode_utf8(quoted(sig_b64)));
            assert(s@.subrange(sp[9].2, sp[9].3) == vstd::utf8::encode_utf8(quoted(m.user_id)));
        }
    }
    let mandate_id = match mandate_id_r {
        Some(v) => v,
        None => { return Err(field_problem("mandate_id")); },
    };
    let user_id = match user_id_r {
        Some(v) => v,
        None => { return Err(field_problem("user_id")); },
    };
    let agent_id = match agent_id_r {
        Some(v) => v,
        None => { return Err(field_problem("agent_id")); },
    };
    let intent_description = match intent_description_r {
        Some(v) => v,
        None => { return Err(field_problem("intent_description")); },
    };
    let max_amount_cents = match max_amount_cents_r {
        Some(v) => v,
        None => { return Err(field_problem("max_amount_cents")); },
    };
    let currency = match currency_r {
        Some(v) => v,
        None => { return Err(field_problem("currency")); },
    };
    let allowed_merchants = match allowed_merchants_r {
        Some(v) => v,
        None => { return Err(field_problem("allowed_merchants")); },
    };
    let created_at = match created_at_r {
        Some(v) => v,
        None => { return Err(field_problem("created_at")); },
    };
    let expires_at = match expires_at_r {
        Some(v) => v,
        None => { return Err(field_problem("expires_at")); },
    };
    let signature_b64 = match signature_b64_r {
        Some(v) => v,
        None => { return Err(field_problem("signature_b64")); },
    };
    let m = IntentMandate {
        mandate_id,
        user_id,
        agent_id,
        intent_description,
        max_amount_cents,
        currency,
        allowed_merchants,
        created_at,
        expires_at,
    };
    assert(native_wire(s@) == Some((m@, signature_b64@)));
    Ok((m, signature_b64))
}

/// What [`verify_signed`] gives for a wire and a registry: `Malformed`, with the reason, where
/// the wire does not read; else the outcome of checking its signature over the canonical bytes of the mandate it
/// holds, and that mandate where the check passes.
pub open spec fn verify_signed_result(
    wire: Seq<u8>,
    reg: Map<Seq<char>, Seq<u8>>,
    r: Result<IntentMandate, VerifyError>,
) -> bool {
    match native_wire(wire) {
        None => r matches Err(VerifyError::Malformed(msg)) && msg@ == native_problem(wire),
        Some(p) => match detached_check(p.0.user_id, payload_bytes(p.0), p.1, reg) {
            Check::Pass => r matches Ok(m) && m@ == p.0,
            Check::UnknownUser => r matches Err(VerifyError::UnknownUser(u)) && u@ == p.0.user_id,
            Check::BadSignature => r matches Err(VerifyError::BadSignature),
        },
    }
}

/// Cryptographically verify a signed mandate wire against the trusted-key registry,
/// returning the parsed mandate only on success.
///
/// FAIL-CLOSED: a malformed wire, an unknown user, a malformed signature, or a signature that
/// does not verify all return `Err`. A wire that [`sign_mandate`] wrote with the key trusted for
/// the mandate's user verifies as that mandate.
pub fn verify_signed(wire_json: &[u8], registry: &MandateKeyRegistry) -> (r: Result<IntentMandate, VerifyError>)
    ensures
        verify_signed_result(wire_json@, registry@, r),
        forall|m: MandateView, sk: Seq<u8>|
            #![trigger mandate_signature(m, sk)]
            native_wire(wire_json@) == Some((m, mandate_signature(m, sk))) && registry@.contains_key(m.user_id)
                && registry@[m.user_id] == spec_ed25519_public(sk) && genuine(sk, spec_sha256(payload_bytes(m)))
                ==> (r is Ok && r->Ok_0@ == m),
        forall|m: MandateView, sk: Seq<u8>|
            #![trigger wire_text(m, mandate_signature(m, sk))]
            wire_json@ == vstd::utf8::encode_utf8(wire_text(m, mandate_signature(m, sk)))
                && crate::time::ts_valid(m.created_at.0, m.created_at.1) && crate::time::ts_valid(m.expires_at.0, m.expires_at.1)
                && registry@.contains_key(m.user_id) && registry@[m.user_id]
                == spec_ed25519_public(sk) && genuine(sk, spec_sha256(payload_bytes(m))) ==> (r is Ok && r->Ok_0@ == m),
{
    let (mandate, signature_b64) = match read_native_wire(wire_json) {
        Ok(p) => p,
        Err(msg) => {
            return Err(VerifyError::Malformed(msg));
        },
    };
    let payload = mandate.signed_payload();
    match verify_detached(mandate.user_id.as_str(), payload.as_slice(), signature_b64.as_str(), registry) {
        Ok(()) => Ok(mandate),
        Err(e) => Err(e),
    }
}

/// The Base64 text of the signature that `sk` makes over the SHA-256 of the mandate's
/// canonical bytes.
pub open spec fn mandate_signature(m: MandateView, sk: Seq<u8>) -> Seq<char> {
    detached_signature(payload_bytes(m), sk)
}

/// Sign a mandate with the user's key, returning the wire JSON bytes (mandate fields +
/// `signature_b64`, keys sorted).
pub fn sign_mandate(mandate: &IntentMandate, sk: &SigningKey) -> (wire: Vec<u8>)
    ensures
        wire@ == vstd::utf8::encode_utf8(wire_text(mandate@, mandate_signature(mandate@, sk@))),
{
    let payload = mandate.signed_payload();
    let digest = sha256(payload.as_slice());
    let sig = sk.sign(&digest);
    let sig_b64 = b64_encode(&sig);
    wire_json(mandate, sig_b64.as_str())
}

/// The wire text for a mandate and a signature text.
pub fn wire_json(m: &IntentMandate, sig_b64: &str) -> (wire: Vec<u8>)
    ensures
        wire@ == vstd::utf8::encode_utf8(wire_text(m@, sig_b64@)),
{
    let mut s = String::new();
    push_str(&mut s, "{\"agent_id\":");
    push_quoted(&mut s, m.agent_id.as_str());
    push_str(&mut s, ",\"allowed_merchants\":");
    push_string_list(&mut s, &m.allowed_merchants);
    push_str(&mut s, ",\"created_at\":");
    let c = rfc3339(&m.created_at);
    push_quoted(&mut s, c.as_str());
    push_str(&mut s, ",\"currency\":");
    push_quoted(&mut s, m.currency.as_str());
    push_str(&mut s, ",\"expires_at\":");
    let e = rfc3339(&m.expires_at);
    push_quoted(&mut s, e.as_str());
    push_str(&mut s, ",\"intent_description\":");
    push_quoted(&mut s, m.intent_description.as_str());
    push_str(&mut s, ",\"mandate_id\":");
    push_quoted(&mut s, m.mandate_id.as_str());
    push_str(&mut s, ",\"max_amount_cents\":");
    push_u64(&mut s, m.max_amount_cents);
    push_str(&mut s, ",\"signature_b64\":");
    push_quoted(&mut s, sig_b64);
    push_str(&mut s, ",\"user_id\":");
    push_quoted(&mut s, m.user_id.as_str());
    push_str(&mut s, "}");
    assert(s@ =~= wire_text(m@, sig_b64@));
    s.as_str().as_bytes_vec()
}

} // verus!
