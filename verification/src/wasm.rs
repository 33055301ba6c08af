//! The browser playground's decision: the real verification + scope core, deterministic
//! (signing and verification need no randomness, and time is passed in).

use vstd::prelude::*;
use crate::crypto::{spec_ed25519_public, test_key};
use crate::engine::{action_hash, action_text, sat_add};
use crate::json::{push_quoted, quoted, strings_view};
use crate::mandate::{
    mandate_signature, payload_text, verify_error_text, verify_signed, verify_signed_result,
    wire_json, wire_text, IntentMandate, MandateKeyRegistry, MandateView, VerifyError,
};
use crate::scope::{check_scope, scope_error, Charge, ChargeView};
use crate::text::{hex, hex_of, push_str, push_u64};
use crate::time::{ts_valid, Timestamp};

verus! {

/// A character with the Unicode `White_Space` property, as std's `char::is_whitespace` reads
/// it: U+0009 to U+000D, U+0020, U+0085, U+00A0, U+1680, U+2000 to U+200A, U+2028, U+2029,
/// U+202F, U+205F and U+3000.
pub open spec fn is_white(c: char) -> bool {
    let v = c as u32;
    ||| 9 <= v <= 13
    ||| v == 32
    ||| v == 0x85
    ||| v == 0xa0
    ||| v == 0x1680
    ||| 0x2000 <= v <= 0x200a
    ||| v == 0x2028
    ||| v == 0x2029
    ||| v == 0x202f
    ||| v == 0x205f
    ||| v == 0x3000
}

/// `s` without the white space at its start.
pub open spec fn trim_start(s: Seq<char>) -> Seq<char>
    decreases s.len(),
{
    if s.len() > 0 && is_white(s[0]) {
        trim_start(s.drop_first())
    } else {
        s
    }
}

/// `s` without the white space at its end.
pub open spec fn trim_end(s: Seq<char>) -> Seq<char>
    decreases s.len(),
{
    if s.len() > 0 && is_white(s.last()) {
        trim_end(s.drop_last())
    } else {
        s
    }
}

/// `s` without white space at either end (std's `str::trim`).
pub open spec fn trimmed(s: Seq<char>) -> Seq<char> {
    trim_end(trim_start(s))
}

fn white(c: char) -> (r: bool)
    ensures
        r == is_white(c),
{
    let v = c as u32;
    (9 <= v && v <= 13) || v == 32 || v == 0x85 || v == 0xa0 || v == 0x1680 || (0x2000 <= v && v <= 0x200a)
        || v == 0x2028 || v == 0x2029 || v == 0x202f || v == 0x205f || v == 0x3000
}

/// `s` with white space trimmed at both ends, as std's `str::trim` trims it.
fn trim(s: &str) -> (r: String)
    ensures
        r@ == trimmed(s@),
{
    let n = s.unicode_len();
    let mut i: usize = 0;
    assert(s@.subrange(0, n as int) =~= s@);
    while i < n && white(s.get_char(i))
        invariant
            i <= n == s@.len(),
            trim_start(s@) == trim_start(s@.subrange(i as int, n as int)),
        decreases n - i,
    {
        assert(s@.subrange(i as int, n as int).drop_first() =~= s@.subrange(i + 1, n as int));
        i = i + 1;
    }
    let mut j: usize = n;
    while j > i && white(s.get_char(j - 1))
        invariant
            i <= j <= n == s@.len(),
            trim_start(s@) == s@.subrange(i as int, n as int),
            trimmed(s@) == trim_end(s@.subrange(i as int, j as int)),
        decreases j - i,
    {
        assert(s@.subrange(i as int, j as int).drop_last() =~= s@.subrange(i as int, j - 1));
        j = j - 1;
    }
    let t = s.substring_char(i, j);
    t.to_owned()
}

/// The pieces of `s` between commas (`str::split(',')`): one more piece than commas.
pub open spec fn csv_pieces(s: Seq<char>) -> Seq<Seq<char>>
    decreases s.len(),
{
    if s.len() == 0 {
        seq![Seq::empty()]
    } else {
        let p = csv_pieces(s.drop_last());
        if s.last() == ',' {
            p.push(Seq::empty())
        } else {
            p.update(p.len() - 1, p.last().push(s.last()))
        }
    }
}

/// The pieces trimmed, the empty ones dropped.
pub open spec fn kept(pieces: Seq<Seq<char>>) -> Seq<Seq<char>>
    decreases pieces.len(),
{
    if pieces.len() == 0 {
        Seq::empty()
    } else {
        let k = kept(pieces.drop_last());
        let t = trimmed(pieces.last());
        if t.len() == 0 {
            k
        } else {
            k.push(t)
        }
    }
}

/// The merchants of a comma-separated list: trimmed, empty ones dropped.
fn merchants_of(csv: &str) -> (v: Vec<String>)
    ensures
        strings_view(v@) == kept(csv_pieces(csv@)),
{
    let n = csv.unicode_len();
    let mut pieces: Vec<String> = Vec::new();
    let mut cur = String::new();
    let mut i: usize = 0;
    while i < n
        invariant
            i <= n == csv@.len(),
            strings_view(pieces@).push(cur@) == csv_pieces(csv@.take(i as int)),
        decreases n - i,
    {
        let c = csv.get_char(i);
        let ghost before = csv_pieces(csv@.take(i as int));
        assert(csv@.take(i + 1).drop_last() =~= csv@.take(i as int));
        assert(csv@.take(i + 1).last() == c);
        if c == ',' {
            let ghost prev = strings_view(pieces@);
            let done = cur;
            pieces.push(done);
            cur = String::new();
            assert(strings_view(pieces@) =~= prev.push(done@));
            assert(strings_view(pieces@).push(cur@) =~= before.push(Seq::empty()));
        } else {
            crate::text::push_char(&mut cur, c);
            assert(strings_view(pieces@).push(cur@) =~= before.update(before.len() - 1, before.last().push(c)));
        }
        i = i + 1;
    }
    assert(csv@.take(n as int) =~= csv@);
    let ghost all = csv_pieces(csv@);
    pieces.push(cur);
    assert(strings_view(pieces@) =~= all);
    let mut out: Vec<String> = Vec::new();
    let mut j: usize = 0;
    while j < pieces.len()
        invariant
            j <= pieces@.len(),
            strings_view(pieces@) == all,
            strings_view(out@) == kept(all.take(j as int)),
        decreases pieces@.len() - j,
    {
        assert(all.take(j + 1).drop_last() =~= all.take(j as int));
        assert(all.take(j + 1).last() == pieces@[j as int]@);
        let t = trim(pieces[j].as_str());
        if t.unicode_len() > 0 {
            let ghost prev = strings_view(out@);
            let ghost tv = t@;
            out.push(t);
            assert(strings_view(out@) =~= prev.push(tv));
        }
        j = j + 1;
    }
    assert(all.take(pieces@.len() as int) =~= all);
    out
}

/// The point `secs` seconds after the epoch, or the epoch where chrono cannot hold it.
pub open spec fn ts_or_epoch(secs: i64) -> (i64, u32) {
    if ts_valid(secs, 0) {
        (secs, 0u32)
    } else {
        (0i64, 0u32)
    }
}

fn ts(secs: i64) -> (t: Timestamp)
    ensures
        t@ == ts_or_epoch(secs),
{
    match Timestamp::from_unix(secs, 0) {
        Some(t) => t,
        None => Timestamp::epoch(),
    }
}

/// The playground's mandate.
pub open spec fn playground_mandate(cap_cents: u64, merchants: Seq<Seq<char>>, expires_unix: i64) -> MandateView {
    MandateView {
        mandate_id: "im_playground"@,
        user_id: "alice@example.com"@,
        agent_id: "agent-x"@,
        intent_description: "playground"@,
        max_amount_cents: cap_cents,
        currency: "usd"@,
        allowed_merchants: merchants,
        created_at: (0i64, 0u32),
        expires_at: ts_or_epoch(expires_unix),
    }
}

/// The secret bytes of `test_key(7)`.
pub open spec fn seed7() -> Seq<u8> {
    Seq::new(32, |i: int| 7u8)
}

/// The wire the playground presents: the mandate signed with `test_key(7)`; with `tamper`,
/// the cap raised by 1,000,000 (saturating) after signing.
pub open spec fn playground_wire(m: MandateView, tamper: bool) -> Seq<u8> {
    let sig = mandate_signature(m, seed7());
    if tamper {
        vstd::utf8::encode_utf8(wire_text(MandateView { max_amount_cents: sat_add(m.max_amount_cents, 1_000_000), ..m }, sig))
    } else {
        vstd::utf8::encode_utf8(wire_text(m, sig))
    }
}

/// The JSON answer: keys sorted, `token_id` null where there is none.
pub open spec fn answer_text(decision: Seq<char>, reason: Seq<char>, token_id: Option<Seq<char>>, canonical: Seq<char>) -> Seq<char> {
    "{\"canonical\":"@ + quoted(canonical) + ",\"decision\":"@ + quoted(decision) + ",\"reason\":"@ + quoted(reason)
        + ",\"token_id\":"@ + match token_id {
        Some(t) => quoted(t),
        None => "null"@,
    } + "}"@
}

fn answer(decision: &str, reason: &str, token_id: Option<&str>, canonical: &str) -> (s: String)
    ensures
        s@ == answer_text(decision@, reason@, match token_id {
            Some(t) => Some(t@),
            None => None,
        }, canonical@),
{
    let mut s = String::new();
    push_str(&mut s, "{\"canonical\":");
    push_quoted(&mut s, canonical);
    push_str(&mut s, ",\"decision\":");
    push_quoted(&mut s, decision);
    push_str(&mut s, ",\"reason\":");
    push_quoted(&mut s, reason);
    push_str(&mut s, ",\"token_id\":");
    match token_id {
        Some(t) => push_quoted(&mut s, t),
        None => push_str(&mut s, "null"),
    }
    push_str(&mut s, "}");
    s
}

/// The verification result is a mandate within whose scope the charge falls.
pub open spec fn answer_allows(c: ChargeView, now_unix: i64, vr: Result<IntentMandate, VerifyError>) -> bool {
    vr matches Ok(v) && scope_error(v@, c, ts_or_epoch(now_unix)) is None
}

/// The playground's answer for a given verification result of the wire.
pub open spec fn decide_answer(m: MandateView, c: ChargeView, now_unix: i64, vr: Result<IntentMandate, VerifyError>) -> Seq<char> {
    match vr {
        Err(e) => answer_text("deny"@, verify_error_text(e), None, payload_text(m)),
        Ok(v) => match scope_error(v@, c, ts_or_epoch(now_unix)) {
            Some(reason) => answer_text("deny"@, reason, None, payload_text(m)),
            None => answer_text("allow"@, Seq::empty(), Some("ct_"@ + hex_of(action_hash(c)).take(12)), payload_text(m)),
        },
    }
}

/// Run a tweakable mandate + charge through verify → scope and return a JSON string
/// `{ canonical, decision, reason, token_id }`. The mandate is signed with the demo's trusted
/// "alice" key (seed 7); `tamper` corrupts it after signing to demonstrate the signature check.
pub fn decide(
    cap_cents: u64,
    allowed_merchants_csv: &str,
    charge_merchant: &str,
    charge_cents: u64,
    expires_unix: i64,
    now_unix: i64,
    tamper: bool,
) -> (out: String)
    ensures
        ({
            let m = playground_mandate(cap_cents, kept(csv_pieces(allowed_merchants_csv@)), expires_unix);
            let c = ChargeView { merchant: charge_merchant@, amount_cents: charge_cents, currency: "usd"@ };
            let reg = Map::<Seq<char>, Seq<u8>>::empty().insert("alice@example.com"@, spec_ed25519_public(seed7()));
            exists|vr: Result<IntentMandate, VerifyError>|
                #[trigger] verify_signed_result(playground_wire(m, tamper), reg, vr) && out@ == decide_answer(m, c, now_unix, vr)
                    && (answer_allows(c, now_unix, vr) ==> ("ct_"@ + hex_of(action_hash(c)).take(12)).len() == 15)
        }),
{
    let merchants = merchants_of(allowed_merchants_csv);
    let mandate = IntentMandate {
        mandate_id: "im_playground".to_owned(),
        user_id: "alice@example.com".to_owned(),
        agent_id: "agent-x".to_owned(),
        intent_description: "playground".to_owned(),
        max_amount_cents: cap_cents,
        currency: "usd".to_owned(),
        allowed_merchants: merchants,
        created_at: ts(0),
        expires_at: ts(expires_unix),
    };
    let canonical = mandate.payload_string();
    let key = test_key(7);
    assert(key@ =~= seed7());
    let payload = mandate.signed_payload();
    let digest = crate::sha256(payload.as_slice());
    let sig = key.sign(&digest);
    let sig_b64 = crate::crypto::b64_encode(&sig);
    let wire = if tamper {
        let mut raised = mandate.clone_mandate();
        raised.max_amount_cents = cap_cents.saturating_add(1_000_000);
        wire_json(&raised, sig_b64.as_str())
    } else {
        wire_json(&mandate, sig_b64.as_str())
    };
    let mut registry = MandateKeyRegistry::new();
    registry.trust("alice@example.com", key.verifying_key());
    let charge = Charge { merchant: charge_merchant.to_owned(), amount_cents: charge_cents, currency: "usd".to_owned() };
    let ghost m = playground_mandate(cap_cents, kept(csv_pieces(allowed_merchants_csv@)), expires_unix);
    let ghost c = ChargeView { merchant: charge_merchant@, amount_cents: charge_cents, currency: "usd"@ };
    let ghost reg = Map::<Seq<char>, Seq<u8>>::empty().insert("alice@example.com"@, spec_ed25519_public(seed7()));
    assert(mandate@ =~= m);
    assert(registry@ =~= reg);
    assert(wire@ == playground_wire(m, tamper));
    assert(charge@ == c);
    assert(canonical@ == payload_text(m));
    let vr = verify_signed(wire.as_slice(), &registry);
    let ghost vr0 = vr;
    let out = match vr {
        Err(e) => {
            let msg = e.message();
            let o = answer("deny", msg.as_str(), None, canonical.as_str());
            assert(o@ == decide_answer(m, c, now_unix, vr0));
            o
        },
        Ok(verified) => match check_scope(&verified, &charge, ts(now_unix)) {
            Err(reason) => {
                let o = answer("deny", reason.as_str(), None, canonical.as_str());
                assert(o@ == decide_answer(m, c, now_unix, vr0));
                o
            },
            Ok(()) => {
                let mut action = String::new();
                push_str(&mut action, charge.merchant.as_str());
                push_str(&mut action, "|");
                push_u64(&mut action, charge.amount_cents);
                push_str(&mut action, "|");
                push_str(&mut action, charge.currency.as_str());
                assert(action@ =~= action_text(charge@));
                let digest = crate::sha256(action.as_str().as_bytes());
                let short = hex(&digest[0..6]);
                proof {
                    crate::text::lemma_hex_prefix(digest@, 6);
                    assert(digest@.subrange(0, 6) =~= digest@.take(6));
                }
                let mut token_id = String::new();
                push_str(&mut token_id, "ct_");
                push_str(&mut token_id, short.as_str());
                let o = answer("allow", "", Some(token_id.as_str()), canonical.as_str());
                proof {
                    reveal_strlit("");
                    assert(""@ =~= Seq::<char>::empty());
                }
                assert(token_id@ =~= "ct_"@ + hex_of(action_hash(c)).take(12));
                proof {
                    crate::text::lemma_hex_len(digest@);
                    reveal_strlit("ct_");
                }
                assert(("ct_"@ + hex_of(action_hash(c)).take(12)).len() == 15);
                assert(o@ == decide_answer(m, c, now_unix, vr0));
                o
            },
        },
    };
    assert(verify_signed_result(playground_wire(m, tamper), reg, vr0));
    out
}

} // verus!
