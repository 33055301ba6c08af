//! The five canonical demo scenarios, built deterministically so the demo, the `mint`
//! subcommand, and the tests all agree.

use vstd::prelude::*;
use crate::crypto::SigningKey;
use crate::json::{owned_list, strs_view};
use crate::mandate::{mandate_signature, sign_mandate, wire_json, wire_text, IntentMandate, MandateView};
use crate::scope::{Charge, ChargeView};
use crate::time::Timestamp;

verus! {

/// The one user whose key the demo gateway trusts (signed with `test_key(7)`).
pub const TRUSTED_USER: &'static str = "alice@example.com";

pub const AGENT: &'static str = "agent-7c3f-shopping";

pub const MERCHANT: &'static str = "acme-store.example";

/// $150 cap, in cents.
pub const CAP_CENTS: u64 = 15_000;

/// 2030-01-01T00:00:00Z.
pub const FAR_FUTURE_SECS: i64 = 1_893_456_000;

/// 2024-01-01T00:00:00Z.
pub const LONG_PAST_SECS: i64 = 1_704_067_200;

/// 2026-01-01T00:00:00Z, when the demo mandates are created.
pub const CREATED_SECS: i64 = 1_767_225_600;

/// The cap that the tampered scenario raises the mandate to after signing.
pub const TAMPERED_CAP_CENTS: u64 = 100_000_000;

fn at(secs: i64) -> (t: Timestamp)
    requires
        crate::time::ts_valid(secs, 0),
    ensures
        t@ == (secs, 0u32),
{
    match Timestamp::from_unix(secs, 0) {
        Some(t) => t,
        None => Timestamp::epoch(),
    }
}

/// The demo mandate with the given cap, allowlist and expiry.
pub open spec fn demo_mandate(max_cents: u64, merchants: Seq<Seq<char>>, expires: i64) -> MandateView {
    MandateView {
        mandate_id: "im_demo_0001"@,
        user_id: TRUSTED_USER@,
        agent_id: AGENT@,
        intent_description: "weekly groceries"@,
        max_amount_cents: max_cents,
        currency: "usd"@,
        allowed_merchants: merchants,
        created_at: (CREATED_SECS, 0u32),
        expires_at: (expires, 0u32),
    }
}

fn mandate(max_cents: u64, merchants: &[&str], expires: i64) -> (m: IntentMandate)
    requires
        crate::time::ts_valid(expires, 0),
    ensures
        m@ == demo_mandate(max_cents, strs_view(merchants@), expires),
{
    IntentMandate {
        mandate_id: "im_demo_0001".to_owned(),
        user_id: TRUSTED_USER.to_owned(),
        agent_id: AGENT.to_owned(),
        intent_description: "weekly groceries".to_owned(),
        max_amount_cents: max_cents,
        currency: "usd".to_owned(),
        allowed_merchants: owned_list(merchants),
        created_at: at(CREATED_SECS),
        expires_at: at(expires),
    }
}

fn charge(merchant: &str, amount_cents: u64) -> (c: Charge)
    ensures
        c@ == (ChargeView { merchant: merchant@, amount_cents, currency: "usd"@ }),
{
    Charge { merchant: merchant.to_owned(), amount_cents, currency: "usd".to_owned() }
}

/// A labelled scenario: a signed (or tampered) wire + the charge to test.
pub struct Scenario {
    /// Short label for the table.
    pub label: String,
    pub wire: Vec<u8>,
    pub charge: Charge,
    pub expect_allow: bool,
}

/// The wire of a mandate signed with `sk`.
pub open spec fn signed_wire(m: MandateView, sk: Seq<u8>) -> Seq<u8> {
    vstd::utf8::encode_utf8(wire_text(m, mandate_signature(m, sk)))
}

/// The wire of a mandate signed with `sk`, with `max_amount_cents` raised after signing so
/// that the signature no longer covers it.
pub open spec fn tampered_wire(m: MandateView, sk: Seq<u8>) -> Seq<u8> {
    vstd::utf8::encode_utf8(wire_text(MandateView { max_amount_cents: TAMPERED_CAP_CENTS, ..m }, mandate_signature(m, sk)))
}

/// The demo's one merchant, as a list.
pub open spec fn merchant_list() -> Seq<Seq<char>> {
    seq![MERCHANT@]
}

/// Raise `max_amount_cents` AFTER signing, so the detached signature is stale.
fn tamper(m: &IntentMandate, sk: &SigningKey) -> (wire: Vec<u8>)
    ensures
        wire@ == tampered_wire(m@, sk@),
{
    let payload = m.signed_payload();
    let digest = crate::sha256(payload.as_slice());
    let sig = sk.sign(&digest);
    let sig_b64 = crate::crypto::b64_encode(&sig);
    let mut raised = m.clone_mandate();
    raised.max_amount_cents = TAMPERED_CAP_CENTS;
    assert(raised@ == MandateView { max_amount_cents: TAMPERED_CAP_CENTS, ..m@ });
    wire_json(&raised, sig_b64.as_str())
}

/// Build all five scenarios, signing the genuine ones with `sk` (which must be `test_key(7)` —
/// the key the demo gateway trusts): a valid mandate ($120 of a $150 cap), the same mandate
/// tampered after signing, an expired mandate, a $5,000 charge, and a merchant off the list.
/// Only the first is expected to be allowed.
pub fn build_all(sk: &SigningKey) -> (all: Vec<Scenario>)
    ensures
        all@.len() == 5,
        all@[0].wire@ == signed_wire(demo_mandate(CAP_CENTS, merchant_list(), FAR_FUTURE_SECS), sk@),
        all@[0].charge@ == (ChargeView { merchant: MERCHANT@, amount_cents: 12_000, currency: "usd"@ }),
        all@[1].wire@ == tampered_wire(demo_mandate(CAP_CENTS, merchant_list(), FAR_FUTURE_SECS), sk@),
        all@[1].charge@ == (ChargeView { merchant: MERCHANT@, amount_cents: 12_000, currency: "usd"@ }),
        all@[2].wire@ == signed_wire(demo_mandate(CAP_CENTS, merchant_list(), LONG_PAST_SECS), sk@),
        all@[2].charge@ == (ChargeView { merchant: MERCHANT@, amount_cents: 12_000, currency: "usd"@ }),
        all@[3].wire@ == signed_wire(demo_mandate(CAP_CENTS, merchant_list(), FAR_FUTURE_SECS), sk@),
        all@[3].charge@ == (ChargeView { merchant: MERCHANT@, amount_cents: 500_000, currency: "usd"@ }),
        all@[4].wire@ == signed_wire(demo_mandate(CAP_CENTS, merchant_list(), FAR_FUTURE_SECS), sk@),
        all@[4].charge@ == (ChargeView { merchant: "evil.sh"@, amount_cents: 12_000, currency: "usd"@ }),
        all@[0].label@ == "valid mandate  ($120, cap $150)"@,
        all@[1].label@ == "tampered signature"@,
        all@[2].label@ == "expired mandate"@,
        all@[3].label@ == "$5,000 charge (cap $150)"@,
        all@[4].label@ == "wrong merchant (->evil.sh)"@,
        all@[0].expect_allow,
        !all@[1].expect_allow && !all@[2].expect_allow && !all@[3].expect_allow && !all@[4].expect_allow,
{
    let merchants: [&str; 1] = [MERCHANT];
    let ms = merchants.as_slice();
    assert(strs_view(ms@) =~= merchant_list());
    let mut all: Vec<Scenario> = Vec::new();
    // 1. In-scope, validly signed -> ALLOW + token.
    all.push(Scenario {
        label: "valid mandate  ($120, cap $150)".to_owned(),
        wire: sign_mandate(&mandate(CAP_CENTS, ms, FAR_FUTURE_SECS), sk),
        charge: charge(MERCHANT, 12_000),
        expect_allow: true,
    });
    // 2. Tampered after signing -> signature no longer authenticates.
    all.push(Scenario {
        label: "tampered signature".to_owned(),
        wire: tamper(&mandate(CAP_CENTS, ms, FAR_FUTURE_SECS), sk),
        charge: charge(MERCHANT, 12_000),
        expect_allow: false,
    });
    // 3. Validly signed but expired.
    all.push(Scenario {
        label: "expired mandate".to_owned(),
        wire: sign_mandate(&mandate(CAP_CENTS, ms, LONG_PAST_SECS), sk),
        charge: charge(MERCHANT, 12_000),
        expect_allow: false,
    });
    // 4. $5,000 charge against a $150 cap.
    all.push(Scenario {
        label: "$5,000 charge (cap $150)".to_owned(),
        wire: sign_mandate(&mandate(CAP_CENTS, ms, FAR_FUTURE_SECS), sk),
        charge: charge(MERCHANT, 500_000),
        expect_allow: false,
    });
    // 5. Merchant outside the allowlist.
    all.push(Scenario {
        label: "wrong merchant (->evil.sh)".to_owned(),
        wire: sign_mandate(&mandate(CAP_CENTS, ms, FAR_FUTURE_SECS), sk),
        charge: charge("evil.sh", 12_000),
        expect_allow: false,
    });
    all
}

} // verus!
