//! DPoP-style proof token, minted ONLY on Allow — and verifiable by a resource server.
//!
//! The token binds the agent and the action hash, carries a unique `jti` and an expiry, and
//! is Ed25519-signed by the gateway.

use vstd::prelude::*;
use crate::crypto::{
    b64url_decode, b64url_encode, genuine, spec_b64url_decode, spec_b64url_encode,
    spec_ed25519_public, spec_ed25519_sign, spec_ed25519_verify, url_safe, SigningKey, VerifyingKey,
};
use crate::json::{
    document_array, document_array_x, document_object, document_object_x, i64_field,
    i64_field_x, json_i64, json_string, key_text, keys_of, keys_x, lemma_member_in, members_facts,
    plain_key, push_quoted, quoted, string_fact, i64_fact, written_value, MemberSpan, spec_json_i64,
    spec_json_string, starts_array, starts_array_x, text_field, text_field_x, Skip,
};
use crate::text::{hex, hex_of, idec_of, push_i64, push_str};
use crate::time::{now, MAX_SECS, MIN_SECS};
use crate::{sha256, spec_sha256};

verus! {

pub struct Token {
    /// Short, human-friendly id (e.g. `ct_3f9a1c2b4d5e`).
    pub id: String,
    pub jti: String,
    pub exp: i64,
    /// `base64url(claims).base64url(signature)` — verifiable with the gateway key.
    pub compact: String,
    /// The second the token's lifetime counts from: for [`mint`], the clock's second when it
    /// minted the token; for [`mint_at`], which is given the expiry itself, the expiry.
    pub issued: Ghost<i64>,
}

/// The content of a token as values.
pub struct TokenView {
    pub id: Seq<char>,
    pub jti: Seq<char>,
    pub exp: i64,
    pub compact: Seq<char>,
}

impl View for Token {
    type V = TokenView;

    open spec fn view(&self) -> TokenView {
        TokenView { id: self.id@, jti: self.jti@, exp: self.exp, compact: self.compact@ }
    }
}

/// The claims text of a token: compact JSON, keys sorted.
pub open spec fn claims_text(action_hash: Seq<u8>, agent_id: Seq<char>, exp: i64, jti: Seq<char>) -> Seq<char> {
    seq!['{'] + key_text("action_hash"@) + quoted(hex_of(action_hash)) + seq![','] + key_text("agent_id"@)
        + quoted(agent_id) + seq![','] + key_text("exp"@) + idec_of(exp as int) + seq![','] + key_text("jti"@)
        + quoted(jti) + seq!['}']
}

/// The compact form: the URL-safe Base64 of the claims bytes, a dot, and the URL-safe Base64
/// of the signature that `sk` makes over those bytes.
pub open spec fn compact_text(sk: Seq<u8>, claims: Seq<u8>) -> Seq<char> {
    spec_b64url_encode(claims) + seq!['.'] + spec_b64url_encode(spec_ed25519_sign(sk, claims))
}

/// The short id of a compact form: `ct_` and the first 12 hex digits of its SHA-256.
pub open spec fn token_id(compact: Seq<char>) -> Seq<char> {
    "ct_"@ + hex_of(spec_sha256(vstd::utf8::encode_utf8(compact))).take(12)
}

/// The token minted with key `sk` for `agent_id` and `action_hash`, expiring at `exp`, with
/// unique id `jti`.
pub open spec fn token_of(sk: Seq<u8>, agent_id: Seq<char>, action_hash: Seq<u8>, exp: i64, jti: Seq<char>) -> TokenView {
    let claims = vstd::utf8::encode_utf8(claims_text(action_hash, agent_id, exp, jti));
    let compact = compact_text(sk, claims);
    TokenView { id: token_id(compact), jti, exp, compact }
}

/// A fresh random UUID (v4), hyphenated (uuid's `Uuid::new_v4().to_string()`).
///
/// Trusted: nothing is claimed of the text, which is random.
#[verifier::external_body]
pub(crate) fn fresh_jti() -> (s: String) {
    uuid::Uuid::new_v4().to_string()
}

/// Mint the token bound to `agent_id` and `action_hash` that expires at `exp` and carries
/// `jti`.
pub fn mint_at(sk: &SigningKey, agent_id: &str, action_hash: &[u8; 32], exp: i64, jti: String) -> (t: Token)
    ensures
        t@ == token_of(sk@, agent_id@, action_hash@, exp, jti@),
        t.id@.len() == 15,
        ({
            let claims = vstd::utf8::encode_utf8(claims_text(action_hash@, agent_id@, exp, jti@));
            first_dot(vstd::utf8::encode_utf8(t.compact@)) == Some(
                vstd::utf8::encode_utf8(spec_b64url_encode(claims)).len() as int,
            )
        }),
{
    let mut c = String::new();
    push_str(&mut c, "{\"action_hash\":");
    let h = hex(action_hash);
    push_quoted(&mut c, h.as_str());
    push_str(&mut c, ",\"agent_id\":");
    push_quoted(&mut c, agent_id);
    push_str(&mut c, ",\"exp\":");
    push_i64(&mut c, exp);
    push_str(&mut c, ",\"jti\":");
    push_quoted(&mut c, jti.as_str());
    push_str(&mut c, "}");
    proof {
        reveal_strlit("{\"action_hash\":");
        reveal_strlit(",\"agent_id\":");
        reveal_strlit(",\"exp\":");
        reveal_strlit(",\"jti\":");
        reveal_strlit("}");
        reveal_strlit("action_hash");
        reveal_strlit("agent_id");
        reveal_strlit("exp");
        reveal_strlit("jti");
        assert("{\"action_hash\":"@ =~= seq!['{'] + key_text("action_hash"@));
        assert(",\"agent_id\":"@ =~= seq![','] + key_text("agent_id"@));
        assert(",\"exp\":"@ =~= seq![','] + key_text("exp"@));
        assert(",\"jti\":"@ =~= seq![','] + key_text("jti"@));
    }
    assert(c@ =~= claims_text(action_hash@, agent_id@, exp, jti@));
    let payload = c.as_str().as_bytes_vec();
    let sig = sk.sign(payload.as_slice());
    let mut compact = b64url_encode(payload.as_slice());
    push_str(&mut compact, ".");
    let s = b64url_encode(&sig);
    push_str(&mut compact, s.as_str());
    proof {
        reveal_strlit(".");
    }
    assert(compact@ =~= compact_text(sk@, payload@));
    proof {
        lemma_compact_bytes(spec_b64url_encode(payload@), spec_b64url_encode(spec_ed25519_sign(sk@, payload@)));
        assert(compact_text(sk@, payload@) == spec_b64url_encode(payload@) + seq!['.'] + spec_b64url_encode(
            spec_ed25519_sign(sk@, payload@),
        ));
    }
    let digest = sha256(compact.as_str().as_bytes());
    let short = hex(&digest[0..6]);
    proof {
        crate::text::lemma_hex_prefix(digest@, 6);
        assert(digest@.subrange(0, 6) =~= digest@.take(6));
    }
    let mut id = String::new();
    push_str(&mut id, "ct_");
    push_str(&mut id, short.as_str());
    assert(id@ =~= token_id(compact@));
    proof {
        crate::text::lemma_hex_len(digest@.subrange(0, 6));
        reveal_strlit("ct_");
    }
    assert(id@.len() == 15);
    Token { id, jti, exp, compact, issued: Ghost(exp) }
}

/// Mint a token bound to `agent_id` and `action_hash`, valid for `ttl_secs` from now, with a
/// fresh random `jti`.
pub fn mint(sk: &SigningKey, agent_id: &str, action_hash: &[u8; 32], ttl_secs: i64) -> (t: Token)
    requires
        MIN_SECS + ttl_secs >= i64::MIN,
        MAX_SECS + ttl_secs <= i64::MAX,
    ensures
        t@ == token_of(sk@, agent_id@, action_hash@, t.exp, t.jti@),
        MIN_SECS + ttl_secs <= t.exp <= MAX_SECS + ttl_secs,
        t.exp == t.issued@ + ttl_secs,
        MIN_SECS <= t.issued@ <= MAX_SECS,
{
    let jti = fresh_jti();
    let clock = now();
    let secs = clock.secs();
    let exp = secs + ttl_secs;
    let mut t = mint_at(sk, agent_id, action_hash, exp, jti);
    t.issued = Ghost(secs);
    t
}

/// The claims carried by a verified token.
#[derive(Debug, Clone)]
pub struct Claims {
    pub jti: String,
    pub agent_id: String,
    pub action_hash: String,
    pub exp: i64,
}

/// The content of claims as values.
#[verifier::ext_equal]
pub struct ClaimsView {
    pub jti: Seq<char>,
    pub agent_id: Seq<char>,
    pub action_hash: Seq<char>,
    pub exp: i64,
}

impl View for Claims {
    type V = ClaimsView;

    open spec fn view(&self) -> ClaimsView {
        ClaimsView { jti: self.jti@, agent_id: self.agent_id@, action_hash: self.action_hash@, exp: self.exp }
    }
}

/// Errors are coarse and fail-closed: a token that does not fully verify is rejected.
#[derive(Debug)]
pub enum TokenError {
    Malformed,
    BadSignature,
    Expired,
}

/// The text of a token error.
pub open spec fn token_error_text(e: TokenError) -> Seq<char> {
    match e {
        TokenError::Malformed => "malformed token"@,
        TokenError::BadSignature => "token signature verification failed"@,
        TokenError::Expired => "token expired"@,
    }
}

impl TokenError {
    /// The error's message, as shown to users.
    pub fn message(&self) -> (s: String)
        ensures
            s@ == token_error_text(*self),
    {
        let mut s = String::new();
        match self {
            TokenError::Malformed => push_str(&mut s, "malformed token"),
            TokenError::BadSignature => push_str(&mut s, "token signature verification failed"),
            TokenError::Expired => push_str(&mut s, "token expired"),
        }
        assert(s@ =~= token_error_text(*self));
        s
    }
}

/// The claims that claims bytes hold: one JSON object with `jti`, `agent_id` and
/// `action_hash` as strings and `exp` as an `i64`, each exactly once (other members are
/// skipped), or one JSON array of exactly those four values in that order.
pub open spec fn claims_of(s: Seq<u8>) -> Option<ClaimsView> {
    if starts_array(s) {
        match document_array(s, Skip::Ignored) {
            Some(es) => if es.len() == 4 {
                let jti = spec_json_string(s.subrange(es[0].0, es[0].1));
                let agent_id = spec_json_string(s.subrange(es[1].0, es[1].1));
                let action_hash = spec_json_string(s.subrange(es[2].0, es[2].1));
                let exp = spec_json_i64(s.subrange(es[3].0, es[3].1));
                if jti is Some && agent_id is Some && action_hash is Some && exp is Some {
                    Some(ClaimsView { jti: jti.unwrap(), agent_id: agent_id.unwrap(), action_hash: action_hash.unwrap(), exp: exp.unwrap() })
                } else {
                    None
                }
            } else {
                None
            },
            None => None,
        }
    } else {
        match document_object(s, Skip::Ignored) {
            Some(ms) => match keys_of(s, ms) {
                Some(keys) => {
                    let jti = text_field(s, keys, ms, "jti"@);
                    let agent_id = text_field(s, keys, ms, "agent_id"@);
                    let action_hash = text_field(s, keys, ms, "action_hash"@);
                    let exp = i64_field(s, keys, ms, "exp"@);
                    if jti is Some && agent_id is Some && action_hash is Some && exp is Some {
                        Some(ClaimsView { jti: jti.unwrap(), agent_id: agent_id.unwrap(), action_hash: action_hash.unwrap(), exp: exp.unwrap() })
                    } else {
                        None
                    }
                },
                None => None,
            },
            None => None,
        }
    }
}

/// Reads claims bytes.
/// The claims that the claims text written for `action_hash`, `agent_id`, `exp`, `jti` holds.
pub open spec fn claims_view(action_hash: Seq<u8>, agent_id: Seq<char>, exp: i64, jti: Seq<char>) -> ClaimsView {
    ClaimsView { jti, agent_id, action_hash: hex_of(action_hash), exp }
}

/// Reads claims bytes; claims as [`claims_text`] writes them read back.
fn read_claims(s: &[u8]) -> (r: Option<Claims>)
    ensures
        r matches Some(c) ==> claims_of(s@) == Some(c@),
        r is None ==> claims_of(s@) is None,
        forall|h: Seq<u8>, a: Seq<char>, e: i64, j: Seq<char>|
            #![trigger claims_text(h, a, e, j)]
            s@ == vstd::utf8::encode_utf8(claims_text(h, a, e, j)) ==> (r is Some && r->0@ == claims_view(h, a, e, j)),
{
    if starts_array_x(s) {
        proof {
            assert forall|h: Seq<u8>, a: Seq<char>, e: i64, j: Seq<char>|
                s@ == vstd::utf8::encode_utf8(#[trigger] claims_text(h, a, e, j)) implies false by {
                lemma_claims_start(h, a, e, j);
            }
        }
        let es = match document_array_x(s, Skip::Ignored) {
            Some(v) => v,
            None => { return None; },
        };
        if es.len() != 4 {
            return None;
        }
        assert(crate::json::pair_spans(es@)[0] == (es@[0].0 as int, es@[0].1 as int));
        assert(crate::json::pair_spans(es@)[1] == (es@[1].0 as int, es@[1].1 as int));
        assert(crate::json::pair_spans(es@)[2] == (es@[2].0 as int, es@[2].1 as int));
        assert(crate::json::pair_spans(es@)[3] == (es@[3].0 as int, es@[3].1 as int));
        let jti = match json_string(s, es[0].0, es[0].1) { Some(v) => v, None => { return None; } };
        let agent_id = match json_string(s, es[1].0, es[1].1) { Some(v) => v, None => { return None; } };
        let action_hash = match json_string(s, es[2].0, es[2].1) { Some(v) => v, None => { return None; } };
        let exp = match json_i64(s, es[3].0, es[3].1) { Some(v) => v, None => { return None; } };
        let c = Claims { jti, agent_id, action_hash, exp };
        assert(claims_of(s@) == Some(c@));
        Some(c)
    } else {
        let ms = match document_object_x(s, Skip::Ignored) {
            Some(v) => v,
            None => {
                proof {
                    assert forall|h: Seq<u8>, a: Seq<char>, e: i64, j: Seq<char>|
                        s@ == vstd::utf8::encode_utf8(#[trigger] claims_text(h, a, e, j)) implies false by {
                        lemma_claims_start(h, a, e, j);
                        let sp = lemma_claims_parse(h, a, e, j);
                    }
                }
                return None;
            },
        };
        let ghost sp = crate::json::member_spans(ms@);
        proof {
            assert forall|h: Seq<u8>, a: Seq<char>, e: i64, j: Seq<char>|
                s@ == vstd::utf8::encode_utf8(#[trigger] claims_text(h, a, e, j)) implies {
                &&& sp.len() == 4
                &&& s@.subrange(sp[0].0, sp[0].1) == vstd::utf8::encode_utf8(quoted("action_hash"@))
                &&& s@.subrange(sp[1].0, sp[1].1) == vstd::utf8::encode_utf8(quoted("agent_id"@))
                &&& s@.subrange(sp[2].0, sp[2].1) == vstd::utf8::encode_utf8(quoted("exp"@))
                &&& s@.subrange(sp[3].0, sp[3].1) == vstd::utf8::encode_utf8(quoted("jti"@))
                &&& s@.subrange(sp[0].2, sp[0].3) == vstd::utf8::encode_utf8(quoted(hex_of(h)))
                &&& s@.subrange(sp[1].2, sp[1].3) == vstd::utf8::encode_utf8(quoted(a))
                &&& s@.subrange(sp[2].2, sp[2].3) == vstd::utf8::encode_utf8(idec_of(e as int))
                &&& s@.subrange(sp[3].2, sp[3].3) == vstd::utf8::encode_utf8(quoted(j))
            } by {
                lemma_claims_start(h, a, e, j);
                let sp2 = lemma_claims_parse(h, a, e, j);
            }
        }
        let keys = match keys_x(s, &ms) {
            Some(v) => v,
            None => {
                proof {
                    assert forall|h: Seq<u8>, a: Seq<char>, e: i64, j: Seq<char>|
                        s@ == vstd::utf8::encode_utf8(#[trigger] claims_text(h, a, e, j)) implies false by {
                        lemma_claims_keys(s@, sp);
                    }
                }
                return None;
            },
        };
        proof {
            assert forall|h: Seq<u8>, a: Seq<char>, e: i64, j: Seq<char>|
                s@ == vstd::utf8::encode_utf8(#[trigger] claims_text(h, a, e, j)) implies strings_view_is(
                keys@,
                sp,
            ) by {
                lemma_claims_keys(s@, sp);
                lemma_claims_fields(sp);
            }
        }
        let jti = match text_field_x(s, &keys, &ms, "jti") { Some(v) => v, None => { return None; } };
        let agent_id = match text_field_x(s, &keys, &ms, "agent_id") { Some(v) => v, None => { return None; } };
        let action_hash = match text_field_x(s, &keys, &ms, "action_hash") { Some(v) => v, None => { return None; } };
        let exp = match i64_field_x(s, &keys, &ms, "exp") { Some(v) => v, None => { return None; } };
        let c = Claims { jti, agent_id, action_hash, exp };
        assert(claims_of(s@) == Some(c@));
        Some(c)
    }
}

/// The keys read are the four claim keys, each found at its member.
spec fn strings_view_is(keys: Seq<String>, sp: Seq<MemberSpan>) -> bool {
    let kv = crate::json::strings_view(keys);
    &&& kv == seq!["action_hash"@, "agent_id"@, "exp"@, "jti"@]
    &&& crate::json::field(kv, sp, "action_hash"@) == Some((sp[0].2, sp[0].3))
    &&& crate::json::field(kv, sp, "agent_id"@) == Some((sp[1].2, sp[1].3))
    &&& crate::json::field(kv, sp, "exp"@) == Some((sp[2].2, sp[2].3))
    &&& crate::json::field(kv, sp, "jti"@) == Some((sp[3].2, sp[3].3))
}

/// The index of the first `.` byte in `b`, if any.
pub open spec fn first_dot(b: Seq<u8>) -> Option<int>
    decreases b.len(),
{
    if b.len() == 0 {
        None
    } else {
        match first_dot(b.drop_last()) {
            Some(i) => Some(i),
            None => if b.last() == 46 {
                Some(b.len() - 1)
            } else {
                None
            },
        }
    }
}

/// How a compact token fails to verify.
pub enum TokenCheck {
    Malformed,
    BadSignature,
    Expired,
    Valid(ClaimsView),
}

/// Verifying a compact token with public key `vk` at time `now_ts`: split at the first dot;
/// the first part must decode (URL-safe Base64) else `Malformed`; the second must decode to
/// 64 bytes that verify (strictly) over the first part's bytes, else `BadSignature`; those
/// bytes must hold claims, else `Malformed`; `now_ts` must come before `exp`, else `Expired`.
pub open spec fn token_check(vk: Seq<u8>, compact: Seq<char>, now_ts: i64) -> TokenCheck {
    let b = vstd::utf8::encode_utf8(compact);
    match first_dot(b) {
        None => TokenCheck::Malformed,
        Some(k) => match spec_b64url_decode(b.subrange(0, k)) {
            None => TokenCheck::Malformed,
            Some(payload) => match spec_b64url_decode(b.subrange(k + 1, b.len() as int)) {
                None => TokenCheck::BadSignature,
                Some(sig) => if sig.len() != 64 || !spec_ed25519_verify(vk, payload, sig) {
                    TokenCheck::BadSignature
                } else {
                    match claims_of(payload) {
                        None => TokenCheck::Malformed,
                        Some(c) => if now_ts >= c.exp {
                            TokenCheck::Expired
                        } else {
                            TokenCheck::Valid(c)
                        },
                    }
                },
            },
        },
    }
}

/// What a token's check comes to once its signature checks out: the claims its bytes hold,
/// unless they hold none (`Malformed`) or have expired at `now_ts`.
pub open spec fn claims_verdict(c: Option<ClaimsView>, now_ts: i64) -> TokenCheck {
    match c {
        None => TokenCheck::Malformed,
        Some(c) => if now_ts >= c.exp {
            TokenCheck::Expired
        } else {
            TokenCheck::Valid(c)
        },
    }
}

/// Copies a 64-byte slice into an array.
fn sig_array(v: &[u8]) -> (a: [u8; 64])
    requires
        v@.len() == 64,
    ensures
        a@ == v@,
{
    let mut a = [0u8; 64];
    let mut i: usize = 0;
    while i < 64
        invariant
            i <= 64,
            v@.len() == 64,
            forall|j: int| 0 <= j < i ==> a@[j] == v@[j],
        decreases 64 - i,
    {
        a[i] = v[i];
        i = i + 1;
    }
    assert(a@ =~= v@);
    a
}

/// Verify a compact token against the gateway's verifying key, returning its claims only if
/// the signature is valid AND it has not expired.
///
/// FAIL-CLOSED: a malformed token, a bad signature, or an expired token all return `Err`.
pub fn verify_token(vk: &VerifyingKey, compact: &str, now_ts: i64) -> (r: Result<Claims, TokenError>)
    ensures
        match token_check(vk@, compact@, now_ts) {
            TokenCheck::Malformed => r matches Err(TokenError::Malformed),
            TokenCheck::BadSignature => r matches Err(TokenError::BadSignature),
            TokenCheck::Expired => r matches Err(TokenError::Expired),
            TokenCheck::Valid(c) => r matches Ok(got) && got@ == c,
        },
        forall|sk: Seq<u8>, claims: Seq<u8>|
            #![trigger compact_text(sk, claims)]
            compact@ == compact_text(sk, claims) && vk@ == spec_ed25519_public(sk) && genuine(sk, claims)
                && first_dot(vstd::utf8::encode_utf8(compact@)) == Some(
                vstd::utf8::encode_utf8(spec_b64url_encode(claims)).len() as int,
            ) ==> token_check(vk@, compact@, now_ts) == claims_verdict(claims_of(claims), now_ts),
        forall|sk: Seq<u8>, h: Seq<u8>, a: Seq<char>, e: i64, j: Seq<char>|
            #![trigger compact_text(sk, vstd::utf8::encode_utf8(claims_text(h, a, e, j)))]
            compact@ == compact_text(sk, vstd::utf8::encode_utf8(claims_text(h, a, e, j))) && vk@ == spec_ed25519_public(sk)
                && genuine(sk, vstd::utf8::encode_utf8(claims_text(h, a, e, j))) && first_dot(
                vstd::utf8::encode_utf8(compact@),
            ) == Some(vstd::utf8::encode_utf8(spec_b64url_encode(vstd::utf8::encode_utf8(claims_text(h, a, e, j)))).len() as int)
                ==> token_check(vk@, compact@, now_ts) == claims_verdict(Some(claims_view(h, a, e, j)), now_ts),
{
    let b = compact.as_bytes();
    let mut k: usize = 0;
    while k < b.len() && b[k] != 46
        invariant
            k <= b@.len(),
            first_dot(b@.take(k as int)) is None,
        decreases b@.len() - k,
    {
        assert(b@.take(k + 1).drop_last() =~= b@.take(k as int));
        k = k + 1;
    }
    proof {
        lemma_first_dot(b@, k as int);
        assert forall|sk: Seq<u8>, claims: Seq<u8>|
            compact@ == #[trigger] compact_text(sk, claims) && first_dot(vstd::utf8::encode_utf8(compact@)) == Some(
                vstd::utf8::encode_utf8(spec_b64url_encode(claims)).len() as int,
            ) implies k < b@.len() && b@.subrange(0, k as int) == vstd::utf8::encode_utf8(spec_b64url_encode(claims))
                && b@.subrange(k + 1, b@.len() as int) == vstd::utf8::encode_utf8(
                spec_b64url_encode(spec_ed25519_sign(sk, claims)),
            ) by {
            let e1 = spec_b64url_encode(claims);
            let e2 = spec_b64url_encode(spec_ed25519_sign(sk, claims));
            lemma_compact_split(e1, e2);
            let a = vstd::utf8::encode_utf8(e1);
            assert(b@ == a + seq![46u8] + vstd::utf8::encode_utf8(e2));
            assert(b@.subrange(0, k as int) =~= a);
            assert(b@.subrange(k + 1, b@.len() as int) =~= vstd::utf8::encode_utf8(e2));
        }
    }
    if k == b.len() {
        return Err(TokenError::Malformed);
    }
    let payload = match b64url_decode(&b[0..k]) {
        Some(p) => p,
        None => { return Err(TokenError::Malformed); },
    };
    let sig_bytes = match b64url_decode(&b[k + 1..b.len()]) {
        Some(s) => s,
        None => { return Err(TokenError::BadSignature); },
    };
    if sig_bytes.len() != 64 {
        return Err(TokenError::BadSignature);
    }
    let sig = sig_array(sig_bytes.as_slice());
    if !vk.verify_strict(payload.as_slice(), &sig) {
        return Err(TokenError::BadSignature);
    }
    let claims = match read_claims(payload.as_slice()) {
        Some(c) => c,
        None => { return Err(TokenError::Malformed); },
    };
    if now_ts >= claims.exp {
        return Err(TokenError::Expired);
    }
    Ok(claims)
}

/// Where the scan for a dot stops: at the first dot, or at the end with none found.
proof fn lemma_first_dot(b: Seq<u8>, k: int)
    requires
        0 <= k <= b.len(),
        first_dot(b.take(k)) is None,
        k < b.len() ==> b[k] == 46,
    ensures
        k == b.len() ==> first_dot(b) is None,
        k < b.len() ==> first_dot(b) == Some(k),
{
    if k == b.len() {
        assert(b.take(k) =~= b);
    } else {
        assert(b.take(k + 1).drop_last() =~= b.take(k));
        lemma_first_dot_extends(b, k + 1);
    }
}

/// The first dot of a prefix is the first dot of the whole.
proof fn lemma_first_dot_extends(b: Seq<u8>, n: int)
    requires
        0 <= n <= b.len(),
        first_dot(b.take(n)) is Some,
    ensures
        first_dot(b) == first_dot(b.take(n)),
    decreases b.len() - n,
{
    if n == b.len() {
        assert(b.take(n) =~= b);
    } else {
        assert(b.take(n + 1).drop_last() =~= b.take(n));
        lemma_first_dot_extends(b, n + 1);
    }
}

/// Text in the URL-safe alphabet encodes as one byte per character, none of them a dot.
proof fn lemma_url_safe_bytes(e: Seq<char>)
    requires
        forall|i: int| 0 <= i < e.len() ==> url_safe(#[trigger] e[i]),
    ensures
        vstd::utf8::encode_utf8(e).len() == e.len(),
        forall|j: int| 0 <= j < e.len() ==> #[trigger] vstd::utf8::encode_utf8(e)[j] != 46,
    decreases e.len(),
{
    if e.len() > 0 {
        let rest = e.drop_first();
        assert forall|i: int| 0 <= i < rest.len() implies url_safe(#[trigger] rest[i]) by {
            assert(rest[i] == e[i + 1]);
        }
        lemma_url_safe_bytes(rest);
        assert(url_safe(e[0]));
        crate::text::lemma_utf8_ascii_char(e[0]);
        assert(e =~= seq![e[0]] + rest);
        crate::text::lemma_utf8_concat(seq![e[0]], rest);
        let b = vstd::utf8::encode_utf8(e);
        assert forall|j: int| 0 <= j < e.len() implies #[trigger] vstd::utf8::encode_utf8(e)[j] != 46 by {
            if j > 0 {
                assert(b[j] == vstd::utf8::encode_utf8(rest)[j - 1]);
            }
        }
    }
}

/// No dot in `a`: the scan finds none.
proof fn lemma_no_dot(a: Seq<u8>)
    requires
        forall|j: int| 0 <= j < a.len() ==> a[j] != 46,
    ensures
        first_dot(a) is None,
    decreases a.len(),
{
    if a.len() > 0 {
        lemma_no_dot(a.drop_last());
    }
}

/// The bytes of two texts joined by a dot.
proof fn lemma_compact_split(e1: Seq<char>, e2: Seq<char>)
    ensures
        vstd::utf8::encode_utf8(e1 + seq!['.'] + e2) == vstd::utf8::encode_utf8(e1) + seq![46u8]
            + vstd::utf8::encode_utf8(e2),
{
    crate::text::lemma_utf8_concat(e1 + seq!['.'], e2);
    crate::text::lemma_utf8_concat(e1, seq!['.']);
    crate::text::lemma_utf8_ascii_char('.');
}

/// The bytes of a compact form split at its first dot into the two encoded parts.
proof fn lemma_compact_bytes(e1: Seq<char>, e2: Seq<char>)
    requires
        forall|i: int| 0 <= i < e1.len() ==> url_safe(#[trigger] e1[i]),
    ensures
        vstd::utf8::encode_utf8(e1 + seq!['.'] + e2) == vstd::utf8::encode_utf8(e1) + seq![46u8]
            + vstd::utf8::encode_utf8(e2),
        first_dot(vstd::utf8::encode_utf8(e1 + seq!['.'] + e2)) == Some(vstd::utf8::encode_utf8(e1).len() as int),
{
    crate::text::lemma_utf8_concat(e1 + seq!['.'], e2);
    crate::text::lemma_utf8_concat(e1, seq!['.']);
    crate::text::lemma_utf8_ascii_char('.');
    lemma_url_safe_bytes(e1);
    let a = vstd::utf8::encode_utf8(e1);
    let x = vstd::utf8::encode_utf8(e1 + seq!['.'] + e2);
    assert(x =~= a + seq![46u8] + vstd::utf8::encode_utf8(e2));
    assert forall|j: int| 0 <= j < a.len() implies a[j] != 46 by {
        assert(vstd::utf8::encode_utf8(e1)[j] != 46);
    }
    lemma_no_dot(a);
    assert(x.take(a.len() as int + 1) =~= a.push(46u8));
    assert(a.push(46u8).drop_last() =~= a);
    lemma_first_dot_extends(x, a.len() as int + 1);
}

/// The four keys of the claims text are plain.
proof fn lemma_claim_keys()
    ensures
        plain_key("action_hash"@),
        plain_key("agent_id"@),
        plain_key("exp"@),
        plain_key("jti"@),
        "action_hash"@.len() == 11,
        "agent_id"@.len() == 8,
        "exp"@.len() == 3,
        "jti"@.len() == 3,
        "action_hash"@ != "agent_id"@,
        "action_hash"@ != "exp"@,
        "action_hash"@ != "jti"@,
        "agent_id"@ != "exp"@,
        "agent_id"@ != "jti"@,
        "exp"@ != "jti"@,
{
    reveal_strlit("action_hash");
    reveal_strlit("agent_id");
    reveal_strlit("exp");
    reveal_strlit("jti");
    assert("action_hash"@[1] != "agent_id"@[1]);
    assert("action_hash"@.len() != "exp"@.len());
    assert("action_hash"@.len() != "jti"@.len());
    assert("agent_id"@.len() != "exp"@.len());
    assert("agent_id"@.len() != "jti"@.len());
    assert("exp"@[0] != "jti"@[0]);
}

/// The bytes of the claims text, piece by piece.
proof fn lemma_claims_bytes(h: Seq<u8>, a: Seq<char>, e: i64, j: Seq<char>)
    ensures
        vstd::utf8::encode_utf8(claims_text(h, a, e, j)) == seq![123u8] + vstd::utf8::encode_utf8(key_text("action_hash"@))
            + written_value(Some(hex_of(h)), 0) + seq![44u8] + vstd::utf8::encode_utf8(key_text("agent_id"@))
            + written_value(Some(a), 0) + seq![44u8] + vstd::utf8::encode_utf8(key_text("exp"@)) + written_value(None, e)
            + seq![44u8] + vstd::utf8::encode_utf8(key_text("jti"@)) + written_value(Some(j), 0) + seq![125u8],
{
    let kt1 = key_text("action_hash"@);
    let kt2 = key_text("agent_id"@);
    let kt3 = key_text("exp"@);
    let kt4 = key_text("jti"@);
    let q1 = quoted(hex_of(h));
    let q2 = quoted(a);
    let d3 = idec_of(e as int);
    let q4 = quoted(j);
    let p1 = seq!['{'] + kt1;
    let p2 = p1 + q1;
    let p3 = p2 + seq![','];
    let p4 = p3 + kt2;
    let p5 = p4 + q2;
    let p6 = p5 + seq![','];
    let p7 = p6 + kt3;
    let p8 = p7 + d3;
    let p9 = p8 + seq![','];
    let p10 = p9 + kt4;
    let p11 = p10 + q4;
    let p12 = p11 + seq!['}'];
    assert(claims_text(h, a, e, j) == p12);
    crate::text::lemma_utf8_concat(seq!['{'], kt1);
    crate::text::lemma_utf8_concat(p1, q1);
    crate::text::lemma_utf8_concat(p2, seq![',']);
    crate::text::lemma_utf8_concat(p3, kt2);
    crate::text::lemma_utf8_concat(p4, q2);
    crate::text::lemma_utf8_concat(p5, seq![',']);
    crate::text::lemma_utf8_concat(p6, kt3);
    crate::text::lemma_utf8_concat(p7, d3);
    crate::text::lemma_utf8_concat(p8, seq![',']);
    crate::text::lemma_utf8_concat(p9, kt4);
    crate::text::lemma_utf8_concat(p10, q4);
    crate::text::lemma_utf8_concat(p11, seq!['}']);
    crate::text::lemma_utf8_ascii_char('{');
    crate::text::lemma_utf8_ascii_char(',');
    crate::text::lemma_utf8_ascii_char('}');
}

/// The bytes of the claims text split around each of its four members.
#[verifier::spinoff_prover]
proof fn lemma_claims_split(h: Seq<u8>, a: Seq<char>, e: i64, j: Seq<char>)
    ensures
        ({
            let s = vstd::utf8::encode_utf8(claims_text(h, a, e, j));
            let c = seq![44u8];
            let v1 = written_value(Some(hex_of(h)), 0);
            let v2 = written_value(Some(a), 0);
            let v3 = written_value(None, e);
            let v4 = written_value(Some(j), 0);
            let e1 = vstd::utf8::encode_utf8(key_text("action_hash"@));
            let e2 = vstd::utf8::encode_utf8(key_text("agent_id"@));
            let e3 = vstd::utf8::encode_utf8(key_text("exp"@));
            let e4 = vstd::utf8::encode_utf8(key_text("jti"@));
            let pre2 = seq![123u8] + e1 + v1 + c;
            let pre3 = pre2 + e2 + v2 + c;
            let pre4 = pre3 + e3 + v3 + c;
            &&& s == seq![123u8] + e1 + v1 + (c + e2 + v2 + c + e3 + v3 + c + e4 + v4 + seq![125u8])
            &&& s == pre2 + e2 + v2 + (c + e3 + v3 + c + e4 + v4 + seq![125u8])
            &&& s == pre3 + e3 + v3 + (c + e4 + v4 + seq![125u8])
            &&& s == pre4 + e4 + v4 + seq![125u8]
        }),
{
    lemma_claims_bytes(h, a, e, j);
    let s = vstd::utf8::encode_utf8(claims_text(h, a, e, j));
    let c = seq![44u8];
    let v1 = written_value(Some(hex_of(h)), 0);
    let v2 = written_value(Some(a), 0);
    let v3 = written_value(None, e);
    let v4 = written_value(Some(j), 0);
    let e1 = vstd::utf8::encode_utf8(key_text("action_hash"@));
    let e2 = vstd::utf8::encode_utf8(key_text("agent_id"@));
    let e3 = vstd::utf8::encode_utf8(key_text("exp"@));
    let e4 = vstd::utf8::encode_utf8(key_text("jti"@));
    let pre2 = seq![123u8] + e1 + v1 + c;
    let pre3 = pre2 + e2 + v2 + c;
    let pre4 = pre3 + e3 + v3 + c;
    assert(s =~= seq![123u8] + e1 + v1 + (c + e2 + v2 + c + e3 + v3 + c + e4 + v4 + seq![125u8]));
    assert(s =~= pre2 + e2 + v2 + (c + e3 + v3 + c + e4 + v4 + seq![125u8]));
    assert(s =~= pre3 + e3 + v3 + (c + e4 + v4 + seq![125u8]));
    assert(s =~= pre4 + e4 + v4 + seq![125u8]);
}

/// The claims text, as bytes, read as an object by the skipping reader: where
/// [`members_facts`] holds from its first member, it is one object of four members, with the
/// keys and values the writer wrote.
#[verifier::rlimit(100)]
#[verifier::spinoff_prover]
proof fn lemma_claims_parse(h: Seq<u8>, a: Seq<char>, e: i64, j: Seq<char>) -> (spans: Seq<MemberSpan>)
    requires
        members_facts(vstd::utf8::encode_utf8(claims_text(h, a, e, j)), 1, Skip::Ignored),
    ensures
        ({
            let s = vstd::utf8::encode_utf8(claims_text(h, a, e, j));
            &&& document_object(s, Skip::Ignored) == Some(spans)
            &&& spans.len() == 4
            &&& s.subrange(spans[0].0, spans[0].1) == vstd::utf8::encode_utf8(quoted("action_hash"@))
            &&& s.subrange(spans[1].0, spans[1].1) == vstd::utf8::encode_utf8(quoted("agent_id"@))
            &&& s.subrange(spans[2].0, spans[2].1) == vstd::utf8::encode_utf8(quoted("exp"@))
            &&& s.subrange(spans[3].0, spans[3].1) == vstd::utf8::encode_utf8(quoted("jti"@))
            &&& s.subrange(spans[0].2, spans[0].3) == vstd::utf8::encode_utf8(quoted(hex_of(h)))
            &&& s.subrange(spans[1].2, spans[1].3) == vstd::utf8::encode_utf8(quoted(a))
            &&& s.subrange(spans[2].2, spans[2].3) == vstd::utf8::encode_utf8(idec_of(e as int))
            &&& s.subrange(spans[3].2, spans[3].3) == vstd::utf8::encode_utf8(quoted(j))
        }),
{
    let s = vstd::utf8::encode_utf8(claims_text(h, a, e, j));
    let b0 = seq![123u8];
    let c = seq![44u8];
    let v1 = written_value(Some(hex_of(h)), 0);
    let v2 = written_value(Some(a), 0);
    let v3 = written_value(None, e);
    let v4 = written_value(Some(j), 0);
    let e1 = vstd::utf8::encode_utf8(key_text("action_hash"@));
    let e2 = vstd::utf8::encode_utf8(key_text("agent_id"@));
    let e3 = vstd::utf8::encode_utf8(key_text("exp"@));
    let e4 = vstd::utf8::encode_utf8(key_text("jti"@));
    let post1 = c + e2 + v2 + c + e3 + v3 + c + e4 + v4 + seq![125u8];
    let pre2 = b0 + e1 + v1 + c;
    let post2 = c + e3 + v3 + c + e4 + v4 + seq![125u8];
    let pre3 = pre2 + e2 + v2 + c;
    let post3 = c + e4 + v4 + seq![125u8];
    let pre4 = pre3 + e3 + v3 + c;
    let post4 = seq![125u8];
    let k1 = 1int;
    let k2 = pre2.len() as int;
    let k3 = pre3.len() as int;
    let k4 = pre4.len() as int;
    let sp = seq![
        (k1, k1 + 13, k1 + 14, k1 + 14 + v1.len()),
        (k2, k2 + 10, k2 + 11, k2 + 11 + v2.len()),
        (k3, k3 + 5, k3 + 6, k3 + 6 + v3.len()),
        (k4, k4 + 5, k4 + 6, k4 + 6 + v4.len()),
    ];
    assert(e1.len() == 14 && e2.len() == 11 && e3.len() == 6 && e4.len() == 6 && e1[0] == 34 && e2[0] == 34
        && e3[0] == 34 && e4[0] == 34) by {
        lemma_claim_keys();
        crate::json::lemma_key_bytes("action_hash"@);
        crate::json::lemma_key_bytes("agent_id"@);
        crate::json::lemma_key_bytes("exp"@);
        crate::json::lemma_key_bytes("jti"@);
    }
    lemma_claims_split(h, a, e, j);
    assert(members_facts(s, k2, Skip::Ignored) && crate::json::members(s, 1, Skip::Ignored) == crate::json::prepend(seq![sp[0]], crate::json::members(s, k2, Skip::Ignored))
        && s.subrange(sp[0].0, sp[0].1) == vstd::utf8::encode_utf8(quoted("action_hash"@))
        && s.subrange(sp[0].2, sp[0].3) == v1) by {
        assert(post1[1] == e2[0]);
        lemma_claim_keys();
        lemma_member_in(s, b0, "action_hash"@, Some(hex_of(h)), 0, post1);
    }
    assert(members_facts(s, k3, Skip::Ignored) && crate::json::members(s, k2, Skip::Ignored) == crate::json::prepend(seq![sp[1]], crate::json::members(s, k3, Skip::Ignored))
        && s.subrange(sp[1].0, sp[1].1) == vstd::utf8::encode_utf8(quoted("agent_id"@))
        && s.subrange(sp[1].2, sp[1].3) == v2) by {
        assert(post2[1] == e3[0]);
        lemma_claim_keys();
        lemma_member_in(s, pre2, "agent_id"@, Some(a), 0, post2);
    }
    assert(members_facts(s, k4, Skip::Ignored) && crate::json::members(s, k3, Skip::Ignored) == crate::json::prepend(seq![sp[2]], crate::json::members(s, k4, Skip::Ignored))
        && s.subrange(sp[2].0, sp[2].1) == vstd::utf8::encode_utf8(quoted("exp"@))
        && s.subrange(sp[2].2, sp[2].3) == v3) by {
        assert(post3[1] == e4[0]);
        lemma_claim_keys();
        lemma_member_in(s, pre3, "exp"@, None, e, post3);
    }
    assert(crate::json::members(s, k4, Skip::Ignored) == Some((seq![sp[3]], s.len() as int))
        && s.subrange(sp[3].0, sp[3].1) == vstd::utf8::encode_utf8(quoted("jti"@))
        && s.subrange(sp[3].2, sp[3].3) == v4) by {
        lemma_claim_keys();
        lemma_member_in(s, pre4, "jti"@, Some(j), 0, post4);
    }
    assert(seq![sp[0]] + (seq![sp[1]] + (seq![sp[2]] + seq![sp[3]])) =~= sp);
    assert(s[0] == 123 && s[1] == 34);
    assert(crate::json::skip_ws(s, 0) == 0);
    assert(crate::json::skip_ws(s, 1) == 1);
    assert(crate::json::skip_ws(s, s.len() as int) == s.len());
    sp
}

/// The claims text opens with a brace and its first member's quote.
proof fn lemma_claims_start(h: Seq<u8>, a: Seq<char>, e: i64, j: Seq<char>)
    ensures
        ({
            let s = vstd::utf8::encode_utf8(claims_text(h, a, e, j));
            &&& s.len() > 1
            &&& s[0] == 123
            &&& s[1] == 34
            &&& crate::json::skip_ws(s, 0) == 0
            &&& crate::json::skip_ws(s, 1) == 1
            &&& !starts_array(s)
        }),
{
    lemma_claims_split(h, a, e, j);
    lemma_claim_keys();
    crate::json::lemma_key_bytes("action_hash"@);
    let s = vstd::utf8::encode_utf8(claims_text(h, a, e, j));
    let e1 = vstd::utf8::encode_utf8(key_text("action_hash"@));
    assert(s[0] == 123);
    assert(s[1] == e1[0]);
}

/// The keys of the claims text read back as its four keys.
proof fn lemma_claims_keys(s: Seq<u8>, sp: Seq<MemberSpan>)
    requires
        sp.len() == 4,
        s.subrange(sp[0].0, sp[0].1) == vstd::utf8::encode_utf8(quoted("action_hash"@)),
        s.subrange(sp[1].0, sp[1].1) == vstd::utf8::encode_utf8(quoted("agent_id"@)),
        s.subrange(sp[2].0, sp[2].1) == vstd::utf8::encode_utf8(quoted("exp"@)),
        s.subrange(sp[3].0, sp[3].1) == vstd::utf8::encode_utf8(quoted("jti"@)),
        forall|i: int|
            0 <= i < sp.len() && (forall|i2: int|
                0 <= i2 < i ==> spec_json_string(s.subrange(sp[i2].0, sp[i2].1)) is Some) ==> #[trigger] string_fact(
                s,
                sp[i].0,
                sp[i].1,
            ),
    ensures
        keys_of(s, sp) == Some(seq!["action_hash"@, "agent_id"@, "exp"@, "jti"@]),
{
    assert(string_fact(s, sp[0].0, sp[0].1));
    assert(spec_json_string(s.subrange(sp[0].0, sp[0].1)) == Some("action_hash"@));
    assert(string_fact(s, sp[1].0, sp[1].1));
    assert(spec_json_string(s.subrange(sp[1].0, sp[1].1)) == Some("agent_id"@));
    assert(string_fact(s, sp[2].0, sp[2].1));
    assert(spec_json_string(s.subrange(sp[2].0, sp[2].1)) == Some("exp"@));
    assert(string_fact(s, sp[3].0, sp[3].1));
    assert(spec_json_string(s.subrange(sp[3].0, sp[3].1)) == Some("jti"@));
    reveal_with_fuel(keys_of, 5);
    assert(sp.drop_last().drop_last().drop_last().drop_last() =~= Seq::<MemberSpan>::empty());
    assert(keys_of(s, sp) =~= Some(seq!["action_hash"@, "agent_id"@, "exp"@, "jti"@]));
}

/// Each claim key is found once among the four keys, at its place.
proof fn lemma_claims_fields(sp: Seq<MemberSpan>)
    requires
        sp.len() == 4,
    ensures
        ({
            let keys = seq!["action_hash"@, "agent_id"@, "exp"@, "jti"@];
            &&& crate::json::field(keys, sp, "action_hash"@) == Some((sp[0].2, sp[0].3))
            &&& crate::json::field(keys, sp, "agent_id"@) == Some((sp[1].2, sp[1].3))
            &&& crate::json::field(keys, sp, "exp"@) == Some((sp[2].2, sp[2].3))
            &&& crate::json::field(keys, sp, "jti"@) == Some((sp[3].2, sp[3].3))
        }),
{
    lemma_claim_keys();
    let keys = seq!["action_hash"@, "agent_id"@, "exp"@, "jti"@];
    reveal_with_fuel(crate::json::key_count, 5);
    reveal_with_fuel(crate::json::key_index, 5);
    assert(keys.drop_last() =~= seq!["action_hash"@, "agent_id"@, "exp"@]);
    assert(keys.drop_last().drop_last() =~= seq!["action_hash"@, "agent_id"@]);
    assert(keys.drop_last().drop_last().drop_last() =~= seq!["action_hash"@]);
    assert(keys.drop_last().drop_last().drop_last().drop_last() =~= Seq::<Seq<char>>::empty());
}

} // verus!
