//! Exact values, edge cases and the laws on concrete inputs.

use citadel_mandate_demo::audit::AuditLog;
use base64::Engine;
use citadel_mandate_demo::engine::{Gateway, Metrics, Outcome};
use citadel_mandate_demo::mandate::{
    sign_mandate, test_key, verify_detached, verify_signed, IntentMandate, MandateKeyRegistry,
    VerifyError,
};
use citadel_mandate_demo::scenarios::{AGENT, MERCHANT, TRUSTED_USER};
use citadel_mandate_demo::scope::{check_scope, Charge};
use citadel_mandate_demo::protocol::{acp_sign_wire, ap2_sign_wire, Acp, Ap2, MandateAdapter};
use citadel_mandate_demo::time::Timestamp;
use citadel_mandate_demo::token::{mint_at, verify_token, TokenError};
use citadel_mandate_demo::wasm::decide;
use citadel_mandate_demo::{hex, sha256};
use serde_json::Value;

fn at(secs: i64) -> Timestamp {
    Timestamp::from_unix(secs, 0).unwrap()
}

// 2026-01-01T00:00:00Z and 2100-01-01T00:00:00Z
const JAN_2026: i64 = 1_767_225_600;
const JAN_2100: i64 = 4_102_444_800;

fn mandate(cap: u64, merchants: &[&str], expires: i64) -> IntentMandate {
    IntentMandate {
        mandate_id: "im_lib".into(),
        user_id: TRUSTED_USER.into(),
        agent_id: AGENT.into(),
        intent_description: "library".into(),
        max_amount_cents: cap,
        currency: "usd".into(),
        allowed_merchants: merchants.iter().map(|s| s.to_string()).collect(),
        created_at: at(JAN_2026),
        expires_at: at(expires),
    }
}

fn charge(merchant: &str, cents: u64, currency: &str) -> Charge {
    Charge { merchant: merchant.into(), amount_cents: cents, currency: currency.into() }
}

fn gw() -> Gateway {
    let mut r = MandateKeyRegistry::new();
    r.trust(TRUSTED_USER, test_key(7).verifying_key());
    Gateway::new(r, test_key(200))
}

fn unix_now() -> i64 {
    chrono::Utc::now().timestamp()
}

// ── outside calls through the library ────────────────────────────────

#[test]
fn sha256_of_abc() {
    assert_eq!(
        hex(&sha256(b"abc")),
        "ba7816bf8f01cfea414140de5dae2223b00361a396177a9cb410ff61f20015ad"
    );
}

#[test]
fn hex_is_lowercase_two_digits_per_byte() {
    assert_eq!(hex(&[0x00, 0xff, 0x1a, 0x09]), "00ff1a09");
    assert_eq!(hex(&[]), "");
}

fn b64(bytes: &[u8]) -> String {
    base64::engine::general_purpose::STANDARD.encode(bytes)
}

fn b64url(bytes: &[u8]) -> String {
    base64::engine::general_purpose::URL_SAFE_NO_PAD.encode(bytes)
}

#[test]
fn signature_text_is_standard_base64_of_the_signature() {
    let m = mandate(15_000, &["acme"], JAN_2100);
    let wire: Value = serde_json::from_slice(&sign_mandate(&m, &test_key(7))).unwrap();
    let sig = base64::engine::general_purpose::STANDARD
        .decode(wire["signature_b64"].as_str().unwrap())
        .unwrap();
    assert_eq!(sig, test_key(7).sign(&sha256(&m.signed_payload())).to_vec());
}

#[test]
fn canonical_text_escapes_strings_and_writes_fractions() {
    let mut m = mandate(1, &[], JAN_2100);
    m.mandate_id = "a\"b\\c\n".into();
    m.created_at = Timestamp::from_unix(0, 5_000_000).unwrap();
    let text = String::from_utf8(m.signed_payload()).unwrap();
    assert!(text.starts_with("{\"mandate_id\":\"a\\\"b\\\\c\\n\",\"user_id\""), "{}", text);
    assert!(text.contains("\"allowed_merchants\":[],\"created_at\":\"1970-01-01T00:00:00.005Z\""), "{}", text);
}

#[test]
fn ap2_times_read_as_rfc3339_in_utc() {
    let mut reg = MandateKeyRegistry::new();
    reg.trust("p", test_key(3).verifying_key());
    let w = ap2_sign_wire("id", "p", "a", 5, "usd", &["m"], "2026-01-01T01:00:00+01:00", "2100-01-01T00:00:00Z", &test_key(3));
    let m = Ap2.parse_verify(&w, &reg).unwrap();
    assert_eq!((m.created_at.secs(), m.created_at.nanos()), (JAN_2026, 0));
    assert_eq!(m.expires_at.secs(), JAN_2100);
    assert_eq!(m.intent_description, "ap2:intent");
    assert_eq!(m.allowed_merchants, vec!["m".to_string()]);
    let bad = ap2_sign_wire("id", "p", "a", 5, "usd", &["m"], "yesterday", "2100-01-01T00:00:00Z", &test_key(3));
    match Ap2.parse_verify(&bad, &reg) {
        Err(VerifyError::Malformed(msg)) => assert!(msg.starts_with("bad timestamp: "), "{}", msg),
        other => panic!("expected Malformed, got {:?}", other),
    }
}

#[test]
fn timestamp_range_is_checked() {
    assert!(Timestamp::from_unix(0, 1_000_000_000).is_none());
    assert!(Timestamp::from_unix(i64::MAX, 0).is_none());
    assert_eq!(Timestamp::epoch().secs(), 0);
    assert!(at(10).at_or_after(&at(10)));
    assert!(!at(9).at_or_after(&at(10)));
}

// ── canonical bytes and the signed wire ──────────────────────────────

#[test]
fn canonical_payload_is_the_documented_contract() {
    let m = mandate(15_000, &["acme"], JAN_2100);
    assert_eq!(
        String::from_utf8(m.signed_payload()).unwrap(),
        "{\"mandate_id\":\"im_lib\",\"user_id\":\"alice@example.com\",\"agent_id\":\"agent-7c3f-shopping\",\
         \"intent_description\":\"library\",\"max_amount_cents\":15000,\"currency\":\"usd\",\
         \"allowed_merchants\":[\"acme\"],\"created_at\":\"2026-01-01T00:00:00Z\",\
         \"expires_at\":\"2100-01-01T00:00:00Z\"}"
    );
}

#[test]
fn signed_wire_round_trips_through_verify() {
    let m = mandate(15_000, &["acme", "globex"], JAN_2100);
    let mut reg = MandateKeyRegistry::new();
    reg.trust(TRUSTED_USER, test_key(7).verifying_key());
    let got = verify_signed(&sign_mandate(&m, &test_key(7)), &reg).unwrap();
    assert_eq!(got.mandate_id, m.mandate_id);
    assert_eq!(got.allowed_merchants, m.allowed_merchants);
    assert_eq!(got.max_amount_cents, 15_000);
    assert_eq!(got.expires_at.secs(), JAN_2100);
}

#[test]
fn verify_errors_name_what_failed() {
    let m = mandate(15_000, &["acme"], JAN_2100);
    let wire = sign_mandate(&m, &test_key(7));
    let empty = MandateKeyRegistry::new();
    match verify_signed(&wire, &empty) {
        Err(VerifyError::UnknownUser(u)) => assert_eq!(u, TRUSTED_USER),
        other => panic!("expected UnknownUser, got {:?}", other),
    }
    assert_eq!(
        VerifyError::UnknownUser("bob".into()).message(),
        "no trusted key registered for user bob"
    );
    assert_eq!(VerifyError::BadSignature.message(), "signature verification failed");
    let malformed = |w: &[u8]| match verify_signed(w, &empty) {
        Err(VerifyError::Malformed(msg)) => msg,
        other => panic!("expected Malformed, got {:?}", other),
    };
    assert_eq!(malformed(b"[1,2]"), "expected one JSON object");
    assert_eq!(malformed(b"{\"a\":1} x"), "expected one JSON object");
    let mut v: Value = serde_json::from_slice(&wire).unwrap();
    v.as_object_mut().unwrap().remove("user_id");
    assert_eq!(
        malformed(&serde_json::to_vec(&v).unwrap()),
        "field `user_id` is missing, repeated or of the wrong type"
    );
    v["user_id"] = Value::from(7);
    assert_eq!(
        malformed(&serde_json::to_vec(&v).unwrap()),
        "field `user_id` is missing, repeated or of the wrong type"
    );
    v["user_id"] = Value::from(TRUSTED_USER);
    v["expires_at"] = Value::from("soon");
    assert_eq!(
        malformed(&serde_json::to_vec(&v).unwrap()),
        "field `expires_at` is missing, repeated or of the wrong type"
    );
    assert_eq!(
        VerifyError::Malformed("x".into()).message(),
        "malformed mandate wire: x"
    );
}

#[test]
fn detached_signature_must_be_64_bytes_of_base64() {
    let mut reg = MandateKeyRegistry::new();
    reg.trust("u", test_key(1).verifying_key());
    assert!(matches!(verify_detached("u", b"x", "not base64!", &reg), Err(VerifyError::BadSignature)));
    assert!(matches!(verify_detached("u", b"x", "AAAA", &reg), Err(VerifyError::BadSignature)));
    assert!(matches!(verify_detached("v", b"x", "AAAA", &reg), Err(VerifyError::UnknownUser(_))));
    let sig = test_key(1).sign(&sha256(b"x"));
    assert!(verify_detached("u", b"x", &b64(&sig), &reg).is_ok());
    assert!(verify_detached("u", b"y", &b64(&sig), &reg).is_err());
}

#[test]
fn registry_last_trust_wins() {
    let mut reg = MandateKeyRegistry::new();
    assert!(reg.is_empty());
    reg.trust("u", test_key(1).verifying_key());
    reg.trust("u", test_key(2).verifying_key());
    assert!(!reg.is_empty());
    assert_eq!(reg.get("u").unwrap().to_bytes(), test_key(2).verifying_key().to_bytes());
    assert!(reg.get("w").is_none());
}

// ── scope ────────────────────────────────────────────────────────────

#[test]
fn scope_reasons_in_order() {
    let m = mandate(10_000, &["acme"], JAN_2100);
    let now = at(JAN_2026);
    assert!(check_scope(&m, &charge("acme", 10_000, "USD"), now).is_ok());
    assert_eq!(
        check_scope(&m, &charge("acme", 100, "usd"), at(JAN_2100)).unwrap_err(),
        "mandate expired 2100-01-01"
    );
    assert_eq!(
        check_scope(&m, &charge("acme", 100, "eur"), now).unwrap_err(),
        "currency mismatch: eur != usd"
    );
    assert_eq!(
        check_scope(&m, &charge("acme", 10_001, "usd"), now).unwrap_err(),
        "over cap: 10001c > 10000c"
    );
    assert_eq!(
        check_scope(&m, &charge("evil.sh", 1, "usd"), now).unwrap_err(),
        "merchant not in allowlist: evil.sh"
    );
    // Expiry is checked before everything else.
    assert!(check_scope(&m, &charge("evil.sh", u64::MAX, "eur"), at(JAN_2100))
        .unwrap_err()
        .starts_with("mandate expired"));
}

#[test]
fn empty_allowlist_any_merchant_law_on_values() {
    let m = mandate(10_000, &[], JAN_2100);
    let now = at(JAN_2026);
    for merchant in ["acme", "evil.sh", ""] {
        assert!(check_scope(&m, &charge(merchant, 5, "usd"), now).is_ok());
        assert_eq!(
            check_scope(&m, &charge(merchant, 10_001, "usd"), now).unwrap_err(),
            "over cap: 10001c > 10000c"
        );
    }
}

// ── gateway laws on concrete values ──────────────────────────────────

#[test]
fn budget_accumulates_and_deny_spends_nothing() {
    let mut g = gw();
    let wire = sign_mandate(&mandate(15_000, &[MERCHANT], JAN_2100), &test_key(7));
    assert!(g.authorize(&wire, &charge(MERCHANT, 12_000, "usd")).is_allow());
    match g.authorize(&wire, &charge(MERCHANT, 12_000, "usd")) {
        Outcome::Deny { reason, audit_seq } => {
            assert_eq!(reason, "over cumulative budget: 24000c spent+now > 15000c cap");
            assert_eq!(audit_seq, 2);
        }
        other => panic!("expected Deny, got {:?}", other),
    }
    // The deny recorded no spend: the remaining 3000c are still available.
    assert!(g.authorize(&wire, &charge(MERCHANT, 3_000, "usd")).is_allow());
    assert!(!g.authorize(&wire, &charge(MERCHANT, 1, "usd")).is_allow());
    assert_eq!((g.metrics.allowed, g.metrics.denied), (2, 2));
    assert_eq!(g.audit.len(), 4);
    assert!(g.audit.verify());
}

#[test]
fn allow_token_verifies_and_binds_the_action() {
    let mut g = gw();
    let wire = sign_mandate(&mandate(15_000, &[MERCHANT], JAN_2100), &test_key(7));
    let out = g.authorize(&wire, &charge(MERCHANT, 100, "usd"));
    let (token_id, token, seq) = match out {
        Outcome::Allow { token_id, token, audit_seq } => (token_id, token, audit_seq),
        other => panic!("expected Allow, got {:?}", other),
    };
    assert_eq!(seq, 1);
    assert!(token_id.starts_with("ct_") && token_id.len() == 15);
    assert_eq!(token_id, format!("ct_{}", &hex(&sha256(token.as_bytes()))[..12]));
    let claims = verify_token(&g.token_verifying_key(), &token, unix_now()).unwrap();
    assert_eq!(claims.agent_id, AGENT);
    assert_eq!(claims.action_hash, hex(&sha256(format!("{}|100|usd", MERCHANT).as_bytes())));
    assert!(claims.exp > unix_now() && claims.exp <= unix_now() + 301);
    // Another gateway's key does not verify it.
    assert!(matches!(
        verify_token(&test_key(201).verifying_key(), &token, unix_now()),
        Err(TokenError::BadSignature)
    ));
    let summary = &g.audit.entries()[0].summary;
    assert!(summary.starts_with("ALLOW [im_lib] acme-store.example 100c usd token=ct_"));
    assert!(summary.ends_with(" (budget 100/15000c)"));
}

#[test]
fn audit_records_chain_from_zero() {
    let mut log = AuditLog::new();
    assert!(log.is_empty());
    assert_eq!(log.head_hex(), "0".repeat(64));
    assert_eq!(log.append("first".into()), 1);
    assert_eq!(log.append("second".into()), 2);
    let es = log.entries();
    assert_eq!(es[0].prev_hash, [0u8; 32]);
    let mut buf = vec![0u8; 32];
    buf.extend_from_slice(b"first");
    assert_eq!(es[0].entry_hash, sha256(&buf));
    assert_eq!(es[1].prev_hash, es[0].entry_hash);
    assert_eq!(log.head_hex(), hex(&es[1].entry_hash));
    assert!(log.verify());
}

#[test]
fn prometheus_text_is_exact() {
    let m = Metrics { allowed: 3, denied: 2 };
    assert_eq!(
        m.prometheus(),
        "# HELP citadel_decisions_total Authorization decisions by outcome.\n\
         # TYPE citadel_decisions_total counter\n\
         citadel_decisions_total{decision=\"allow\"} 3\n\
         citadel_decisions_total{decision=\"deny\"} 2\n"
    );
}

// ── tokens ───────────────────────────────────────────────────────────

#[test]
fn token_round_trip_expiry_and_bitflips() {
    let sk = test_key(42);
    let vk = sk.verifying_key();
    let tok = mint_at(&sk, "agent", &[42u8; 32], 2_000, "jti-1".into());
    let c = verify_token(&vk, &tok.compact, 1_999).unwrap();
    assert_eq!((c.jti.as_str(), c.agent_id.as_str(), c.exp), ("jti-1", "agent", 2_000));
    assert_eq!(c.action_hash, "2a".repeat(32));
    assert!(matches!(verify_token(&vk, &tok.compact, 2_000), Err(TokenError::Expired)));
    for pos in 0..tok.compact.len() {
        let mut bytes = tok.compact.clone().into_bytes();
        if bytes[pos] == b'.' {
            continue;
        }
        bytes[pos] ^= 0x01;
        if let Ok(flipped) = String::from_utf8(bytes) {
            assert!(verify_token(&vk, &flipped, 1_999).is_err(), "flip at {}", pos);
        }
    }
    assert_eq!(TokenError::Expired.message(), "token expired");
}

#[test]
fn token_shape_errors() {
    let vk = test_key(1).verifying_key();
    assert!(matches!(verify_token(&vk, "no-dot", 0), Err(TokenError::Malformed)));
    assert!(matches!(verify_token(&vk, "!!.AAAA", 0), Err(TokenError::Malformed)));
    assert!(matches!(verify_token(&vk, "e30.!!", 0), Err(TokenError::BadSignature)));
    assert!(matches!(verify_token(&vk, "e30.AAAA", 0), Err(TokenError::BadSignature)));
}

fn signed_compact(sk_seed: u8, claims: &[u8]) -> String {
    let sig = test_key(sk_seed).sign(claims);
    format!("{}.{}", b64url(claims), b64url(&sig))
}

#[test]
fn token_claims_read_as_serde_reads_a_struct() {
    let vk = test_key(5).verifying_key();
    // The sequence form of the claims struct.
    let arr = signed_compact(5, b"[\"j\",\"a\",\"h\",99]");
    let c = verify_token(&vk, &arr, 0).unwrap();
    assert_eq!((c.jti.as_str(), c.agent_id.as_str(), c.action_hash.as_str(), c.exp), ("j", "a", "h", 99));
    // Too few elements.
    let short = signed_compact(5, b"[\"j\",\"a\",\"h\"]");
    assert!(matches!(verify_token(&vk, &short, 0), Err(TokenError::Malformed)));
    // Unknown members are skipped, however nested.
    let extra = signed_compact(
        5,
        b"{\"x\":{\"deep\":[1,[2,{}]]},\"jti\":\"j\",\"agent_id\":\"a\",\"action_hash\":\"h\",\"exp\":99}",
    );
    assert_eq!(verify_token(&vk, &extra, 0).unwrap().exp, 99);
    // A repeated member is refused.
    let dup = signed_compact(
        5,
        b"{\"jti\":\"j\",\"agent_id\":\"a\",\"action_hash\":\"h\",\"exp\":99,\"exp\":100}",
    );
    assert!(matches!(verify_token(&vk, &dup, 0), Err(TokenError::Malformed)));
    // A member of the wrong type is refused.
    let wrong = signed_compact(5, b"{\"jti\":1,\"agent_id\":\"a\",\"action_hash\":\"h\",\"exp\":99}");
    assert!(matches!(verify_token(&vk, &wrong, 0), Err(TokenError::Malformed)));
}

// ── playground ───────────────────────────────────────────────────────

fn field(v: &Value, k: &str) -> Value {
    v.get(k).cloned().unwrap_or(Value::Null)
}

#[test]
fn playground_allows_in_scope_with_action_bound_token_id() {
    let out: Value = serde_json::from_str(&decide(15_000, " acme , , globex", "globex", 100, JAN_2100, JAN_2026, false)).unwrap();
    assert_eq!(field(&out, "decision"), Value::from("allow"));
    assert_eq!(field(&out, "reason"), Value::from(""));
    let expect = format!("ct_{}", &hex(&sha256(b"globex|100|usd"))[..12]);
    assert_eq!(field(&out, "token_id"), Value::from(expect));
    let canonical = field(&out, "canonical");
    let canonical = canonical.as_str().unwrap();
    assert!(canonical.contains("\"allowed_merchants\":[\"acme\",\"globex\"]"));
    assert!(canonical.contains("\"created_at\":\"1970-01-01T00:00:00Z\""));
}

#[test]
fn playground_denials() {
    let tampered: Value = serde_json::from_str(&decide(15_000, "acme", "acme", 100, JAN_2100, JAN_2026, true)).unwrap();
    assert_eq!(field(&tampered, "decision"), Value::from("deny"));
    assert_eq!(field(&tampered, "reason"), Value::from("signature verification failed"));
    assert_eq!(field(&tampered, "token_id"), Value::Null);

    let off_list: Value = serde_json::from_str(&decide(15_000, "acme", "evil", 100, JAN_2100, JAN_2026, false)).unwrap();
    assert_eq!(field(&off_list, "reason"), Value::from("merchant not in allowlist: evil"));

    let expired: Value = serde_json::from_str(&decide(15_000, "", "any", 100, 1_000_000_000, 2_000_000_000, false)).unwrap();
    assert_eq!(field(&expired, "reason"), Value::from("mandate expired 2001-09-09"));
}

#[test]
fn each_allow_carries_a_fresh_uuid_jti() {
    let mut g = gw();
    let wire = sign_mandate(&mandate(15_000, &[MERCHANT], JAN_2100), &test_key(7));
    let mut jtis = Vec::new();
    for _ in 0..2 {
        match g.authorize(&wire, &charge(MERCHANT, 100, "usd")) {
            Outcome::Allow { token, .. } => {
                let c = verify_token(&g.token_verifying_key(), &token, unix_now()).unwrap();
                assert_eq!(c.jti.len(), 36);
                assert_eq!(c.jti.matches('-').count(), 4);
                jtis.push(c.jti);
            }
            other => panic!("expected Allow, got {:?}", other),
        }
    }
    assert_ne!(jtis[0], jtis[1]);
}

#[test]
fn arbitrary_bytes_are_never_allowed() {
    let mut x: u64 = 0x9e37_79b9_7f4a_7c15;
    for n in 0..300usize {
        let mut bytes = Vec::with_capacity(n * 7 % 600);
        for _ in 0..(n * 7 % 600) {
            x ^= x << 13;
            x ^= x >> 7;
            x ^= x << 17;
            bytes.push((x & 0xff) as u8);
        }
        let out = gw().authorize(&bytes, &charge("m", 1, "usd"));
        assert!(!out.is_allow());
    }
}

#[test]
fn allow_implies_in_scope_on_a_grid() {
    let merchants = ["acme", "globex"];
    for cap in [1u64, 999, 15_000, 1_000_000] {
        for amount in [0u64, 1, 998, 999, 1_000, 15_000, 15_001, 2_000_000] {
            for merchant in ["acme", "globex", "evil.sh"] {
                for expires in [LONG_AGO, JAN_2100] {
                    let wire = sign_mandate(&mandate(cap, &merchants, expires), &test_key(7));
                    let out = gw().authorize(&wire, &charge(merchant, amount, "usd"));
                    let in_scope = amount <= cap && merchants.contains(&merchant) && expires == JAN_2100;
                    assert_eq!(out.is_allow(), in_scope, "{} {} {} {}", cap, amount, merchant, expires);
                }
            }
        }
    }
}

// 2000-01-01T00:00:00Z
const LONG_AGO: i64 = 946_684_800;

#[test]
fn scenario_labels_and_room() {
    let labels: Vec<String> = citadel_mandate_demo::scenarios::build_all(&test_key(7))
        .into_iter()
        .map(|s| s.label)
        .collect();
    assert_eq!(
        labels,
        vec![
            "valid mandate  ($120, cap $150)",
            "tampered signature",
            "expired mandate",
            "$5,000 charge (cap $150)",
            "wrong merchant (->evil.sh)",
        ]
    );
    assert!(gw().has_room());
}

#[test]
fn hex_of_concatenation_law_on_values() {
    let (a, b) = ([0x01u8, 0xab], [0xff_u8, 0x00, 0x10]);
    assert_eq!(hex(&[a.as_slice(), b.as_slice()].concat()), hex(&a) + &hex(&b));
    assert_ne!(hex(&[0x10]), hex(&[0x01]));
}

#[test]
fn playground_trims_unicode_white_space() {
    let out: Value = serde_json::from_str(&decide(15_000, "\u{3000}acme\u{a0},\t x \u{2028},\u{85}", "x", 1, JAN_2100, JAN_2026, false)).unwrap();
    assert_eq!(field(&out, "decision"), Value::from("allow"));
    let canonical = field(&out, "canonical");
    assert!(canonical.as_str().unwrap().contains("\"allowed_merchants\":[\"acme\",\"x\"]"));
}

#[test]
fn canonical_text_escapes_control_characters() {
    let mut m = mandate(1, &[], JAN_2100);
    m.intent_description = "\u{8}\u{c}\r\t\u{1}\u{1f}/é".into();
    let text = String::from_utf8(m.signed_payload()).unwrap();
    assert!(text.contains("\"intent_description\":\"\\b\\f\\r\\t\\u0001\\u001f/é\""), "{}", text);
    let via_serde = serde_json::to_string(&m.intent_description).unwrap();
    assert!(text.contains(&via_serde));
}

#[test]
fn signed_wire_with_awkward_text_reads_back_whole() {
    let mut m = mandate(u64::MAX, &["a\"b", "c\\d", "tab\there", "ünï ☃ 𝄞", ""], JAN_2100);
    m.mandate_id = "id\u{1}\u{1f}\n\r".into();
    m.intent_description = "quote \" slash \\ / bell \u{7}".into();
    m.currency = "€".into();
    m.created_at = Timestamp::from_unix(JAN_2026 + 59, 1_500_000_000).unwrap();
    m.expires_at = Timestamp::from_unix(JAN_2100, 123_000).unwrap();
    let mut reg = MandateKeyRegistry::new();
    reg.trust(TRUSTED_USER, test_key(7).verifying_key());
    let got = verify_signed(&sign_mandate(&m, &test_key(7)), &reg).unwrap();
    assert_eq!(got.mandate_id, m.mandate_id);
    assert_eq!(got.user_id, m.user_id);
    assert_eq!(got.agent_id, m.agent_id);
    assert_eq!(got.intent_description, m.intent_description);
    assert_eq!(got.max_amount_cents, u64::MAX);
    assert_eq!(got.currency, m.currency);
    assert_eq!(got.allowed_merchants, m.allowed_merchants);
    assert_eq!(got.created_at.secs(), JAN_2026 + 59);
    assert_eq!(got.created_at.nanos(), 1_500_000_000);
    assert_eq!(got.expires_at.secs(), JAN_2100);
    assert_eq!(got.expires_at.nanos(), 123_000);
}

#[test]
fn signed_wire_with_no_merchants_and_zero_cap_reads_back() {
    let m = mandate(0, &[], JAN_2100);
    let mut reg = MandateKeyRegistry::new();
    reg.trust(TRUSTED_USER, test_key(7).verifying_key());
    let got = verify_signed(&sign_mandate(&m, &test_key(7)), &reg).unwrap();
    assert_eq!(got.max_amount_cents, 0);
    assert!(got.allowed_merchants.is_empty());
    assert_eq!(got.created_at.secs(), JAN_2026);
}

#[test]
fn ap2_wire_with_awkward_text_reads_back_whole() {
    let mut reg = MandateKeyRegistry::new();
    reg.trust("p\"\u{2}ünï", test_key(3).verifying_key());
    let w = ap2_sign_wire(
        "id\\x",
        "p\"\u{2}ünï",
        "agent ☃",
        u64::MAX,
        "€",
        &["m\"1", "", "𝄞"],
        "2026-01-01T00:00:00.5Z",
        "2100-01-01T00:00:00Z",
        &test_key(3),
    );
    let got = Ap2.parse_verify(&w, &reg).unwrap();
    assert_eq!(got.mandate_id, "id\\x");
    assert_eq!(got.user_id, "p\"\u{2}ünï");
    assert_eq!(got.agent_id, "agent ☃");
    assert_eq!(got.intent_description, "ap2:intent");
    assert_eq!(got.max_amount_cents, u64::MAX);
    assert_eq!(got.currency, "€");
    assert_eq!(got.allowed_merchants, vec!["m\"1".to_string(), String::new(), "𝄞".to_string()]);
    assert_eq!(got.created_at.secs(), JAN_2026);
    assert_eq!(got.created_at.nanos(), 500_000_000);
    assert_eq!(got.expires_at.secs(), JAN_2100);
}

#[test]
fn acp_wire_with_awkward_text_reads_back_whole() {
    let mut reg = MandateKeyRegistry::new();
    reg.trust("b\\uyer\u{3}", test_key(4).verifying_key());
    let w = acp_sign_wire(
        "id \"x\"",
        "b\\uyer\u{3}",
        "agent ☃",
        u64::MAX,
        "€",
        &["m\"1", "", "𝄞"],
        "2026-01-01T00:00:00Z",
        "2100-01-01T00:00:00.25Z",
        &test_key(4),
    );
    let got = Acp.parse_verify(&w, &reg).unwrap();
    assert_eq!(got.mandate_id, "id \"x\"");
    assert_eq!(got.user_id, "b\\uyer\u{3}");
    assert_eq!(got.agent_id, "agent ☃");
    assert_eq!(got.intent_description, "acp:acp");
    assert_eq!(got.max_amount_cents, u64::MAX);
    assert_eq!(got.currency, "€");
    assert_eq!(got.allowed_merchants, vec!["m\"1".to_string(), String::new(), "𝄞".to_string()]);
    assert_eq!(got.created_at.secs(), JAN_2026);
    assert_eq!(got.expires_at.secs(), JAN_2100);
    assert_eq!(got.expires_at.nanos(), 250_000_000);
}

#[test]
fn signed_wire_with_signed_years_reads_back() {
    let mut m = mandate(1, &["acme"], JAN_2100);
    // -0001-01-01T00:00:00Z and +10000-01-01T00:00:00Z
    m.created_at = Timestamp::from_unix(-62_198_755_200, 7).unwrap();
    m.expires_at = Timestamp::from_unix(253_402_300_800, 0).unwrap();
    let mut reg = MandateKeyRegistry::new();
    reg.trust(TRUSTED_USER, test_key(7).verifying_key());
    let got = verify_signed(&sign_mandate(&m, &test_key(7)), &reg).unwrap();
    assert_eq!(got.created_at.secs(), -62_198_755_200);
    assert_eq!(got.created_at.nanos(), 7);
    assert_eq!(got.expires_at.secs(), 253_402_300_800);
}
