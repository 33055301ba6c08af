//! The enforcement pipeline: verify signature -> check scope -> budget -> audit + token.
//!
//! Every Deny path is fail-closed and is written to the audit log; a DPoP-style token is
//! minted ONLY on Allow.

use vstd::prelude::*;
use crate::audit::{chain_hash, head_after, AuditLog, EntryView};
use crate::crypto::{spec_ed25519_public, SigningKey, VerifyingKey};
use crate::mandate::{verify_error_text, IntentMandate, MandateKeyRegistry, MandateView, VerifyError};
use crate::protocol::{MandateAdapter, Native};
use crate::scope::{check_scope, scope_error, Charge, ChargeView};
use crate::text::{dec_of, push_str, push_u64};
use crate::time::{now, Timestamp};
use crate::token::{mint_at, token_of};
use crate::{sha256, spec_sha256};

verus! {

/// The outcome of an authorization. A Deny never carries a token.
#[derive(Debug, Clone)]
pub enum Outcome {
    Allow { token_id: String, token: String, audit_seq: u64 },
    Deny { reason: String, audit_seq: u64 },
}

impl Outcome {
    pub fn is_allow(&self) -> (r: bool)
        ensures
            r == (self is Allow),
    {
        match self {
            Outcome::Allow { .. } => true,
            Outcome::Deny { .. } => false,
        }
    }
}

/// Decision counters, exposed for observability (e.g. a Prometheus endpoint).
#[derive(Clone, Debug)]
pub struct Metrics {
    pub allowed: u64,
    pub denied: u64,
}

/// The Prometheus text exposition of the counters.
pub open spec fn prometheus_text(allowed: u64, denied: u64) -> Seq<char> {
    "# HELP citadel_decisions_total Authorization decisions by outcome.\n"@
        + "# TYPE citadel_decisions_total counter\n"@ + "citadel_decisions_total{decision=\"allow\"} "@
        + dec_of(allowed as nat) + "\n"@ + "citadel_decisions_total{decision=\"deny\"} "@ + dec_of(
        denied as nat,
    ) + "\n"@
}

impl Default for Metrics {
    fn default() -> (m: Metrics)
        ensures
            m.allowed == 0 && m.denied == 0,
    {
        Metrics { allowed: 0, denied: 0 }
    }
}

impl Metrics {
    /// Render as Prometheus text exposition.
    pub fn prometheus(&self) -> (s: String)
        ensures
            s@ == prometheus_text(self.allowed, self.denied),
    {
        let mut s = String::new();
        push_str(&mut s, "# HELP citadel_decisions_total Authorization decisions by outcome.\n");
        push_str(&mut s, "# TYPE citadel_decisions_total counter\n");
        push_str(&mut s, "citadel_decisions_total{decision=\"allow\"} ");
        push_u64(&mut s, self.allowed);
        push_str(&mut s, "\n");
        push_str(&mut s, "citadel_decisions_total{decision=\"deny\"} ");
        push_u64(&mut s, self.denied);
        push_str(&mut s, "\n");
        s
    }
}

/// The amount recorded for `id` in a list of records: the last one for that id.
pub open spec fn spend_lookup(entries: Seq<(String, u64)>, id: Seq<char>) -> Option<u64>
    decreases entries.len(),
{
    if entries.len() == 0 {
        None
    } else if entries.last().0@ == id {
        Some(entries.last().1)
    } else {
        spend_lookup(entries.drop_last(), id)
    }
}

/// Cumulative cents authorized per mandate id.
struct SpendLedger {
    entries: Vec<(String, u64)>,
}

impl View for SpendLedger {
    type V = Map<Seq<char>, u64>;

    closed spec fn view(&self) -> Map<Seq<char>, u64> {
        Map::new(
            |id: Seq<char>| spend_lookup(self.entries@, id) is Some,
            |id: Seq<char>| spend_lookup(self.entries@, id).unwrap(),
        )
    }
}

/// The amount spent under `id` so far (zero where nothing was).
pub open spec fn prior_spent(spent: Map<Seq<char>, u64>, id: Seq<char>) -> u64 {
    if spent.contains_key(id) {
        spent[id]
    } else {
        0
    }
}

/// Writing `(id, v)` at the last index whose id is `id` makes the lookup of `id` give `v` and
/// leaves every other lookup alone.
proof fn lemma_spend_update(e: Seq<(String, u64)>, i: int, rec: (String, u64))
    requires
        0 <= i < e.len(),
        e[i].0@ == rec.0@,
        forall|j: int| i < j < e.len() ==> e[j].0@ != rec.0@,
    ensures
        forall|u: Seq<char>|
            spend_lookup(e.update(i, rec), u) == if u == rec.0@ {
                Some(rec.1)
            } else {
                spend_lookup(e, u)
            },
    decreases e.len(),
{
    let e2 = e.update(i, rec);
    if i == e.len() - 1 {
        assert(e2.drop_last() =~= e.drop_last());
        assert(e2.last() == rec);
    } else {
        assert(e2.drop_last() =~= e.drop_last().update(i, rec));
        lemma_spend_update(e.drop_last(), i, rec);
        assert(e2.last() == e.last());
        assert(e.last().0@ != rec.0@);
    }
    assert forall|u: Seq<char>|
        spend_lookup(e2, u) == if u == rec.0@ {
            Some(rec.1)
        } else {
            spend_lookup(e, u)
        } by {
        if i == e.len() - 1 {
            assert(e.last() == e[i]);
            assert(e2.last() == rec);
            assert(e2.drop_last() == e.drop_last());
        } else {
            assert(e2.last() == e.last());
            assert(e2.drop_last() == e.drop_last().update(i, rec));
            assert(e.last() == e[e.len() - 1]);
            assert(e[e.len() - 1].0@ != rec.0@);
            assert(spend_lookup(e.drop_last().update(i, rec), u) == if u == rec.0@ {
                Some(rec.1)
            } else {
                spend_lookup(e.drop_last(), u)
            });
        }
    }
}

impl SpendLedger {
    fn new() -> (l: SpendLedger)
        ensures
            l@ == Map::<Seq<char>, u64>::empty(),
    {
        let l = SpendLedger { entries: Vec::new() };
        assert(l@ =~= Map::<Seq<char>, u64>::empty());
        l
    }

    /// The last index of a record for `id`, if any.
    fn find(&self, id: &str) -> (r: Option<usize>)
        ensures
            r matches Some(i) ==> i < self.entries@.len() && self.entries@[i as int].0@ == id@
                && forall|j: int| i < j < self.entries@.len() ==> self.entries@[j].0@ != id@,
            r matches Some(i) ==> spend_lookup(self.entries@, id@) == Some(self.entries@[i as int].1),
            r is None ==> spend_lookup(self.entries@, id@) is None,
    {
        let mut i = self.entries.len();
        assert(self.entries@.take(i as int) =~= self.entries@);
        while i > 0
            invariant
                i <= self.entries@.len(),
                spend_lookup(self.entries@, id@) == spend_lookup(self.entries@.take(i as int), id@),
                forall|j: int| i <= j < self.entries@.len() ==> self.entries@[j].0@ != id@,
            decreases i,
        {
            assert(self.entries@.take(i as int).drop_last() =~= self.entries@.take(i - 1));
            assert(self.entries@.take(i as int).last() == self.entries@[i - 1]);
            if crate::json::same_text(&self.entries[i - 1].0, id) {
                return Some(i - 1);
            }
            i = i - 1;
        }
        None
    }

    fn get(&self, id: &str) -> (v: u64)
        ensures
            v == prior_spent(self@, id@),
    {
        match self.find(id) {
            Some(i) => self.entries[i].1,
            None => 0,
        }
    }

    fn set(&mut self, id: &str, v: u64)
        ensures
            final(self)@ == old(self)@.insert(id@, v),
    {
        match self.find(id) {
            Some(i) => {
                let rec = (id.to_owned(), v);
                proof {
                    lemma_spend_update(self.entries@, i as int, rec);
                }
                self.entries.set(i, rec);
            },
            None => {
                self.entries.push((id.to_owned(), v));
                proof {
                    assert(self.entries@.drop_last() =~= old(self).entries@);
                }
            },
        }
        assert(self@ =~= old(self)@.insert(id@, v));
    }
}

/// The text that binds a token to a charge: `merchant|amount|currency`.
pub open spec fn action_text(c: ChargeView) -> Seq<char> {
    c.merchant + "|"@ + dec_of(c.amount_cents as nat) + "|"@ + c.currency
}

/// The SHA-256 of the action text.
pub open spec fn action_hash(c: ChargeView) -> Seq<u8> {
    spec_sha256(vstd::utf8::encode_utf8(action_text(c)))
}

/// `a + b`, saturating at `u64::MAX`.
pub open spec fn sat_add(a: u64, b: u64) -> u64 {
    if a + b > u64::MAX {
        u64::MAX
    } else {
        (a + b) as u64
    }
}

/// Why a charge is denied for the budget.
pub open spec fn budget_reason(prospective: u64, cap: u64) -> Seq<char> {
    "over cumulative budget: "@ + dec_of(prospective as nat) + "c spent+now > "@ + dec_of(cap as nat)
        + "c cap"@
}

/// The audit record of an allowed charge.
pub open spec fn allow_summary(m: MandateView, c: ChargeView, token_id: Seq<char>, prospective: u64) -> Seq<char> {
    "ALLOW ["@ + m.mandate_id + "] "@ + c.merchant + " "@ + dec_of(c.amount_cents as nat) + "c "@
        + c.currency + " token="@ + token_id + " (budget "@ + dec_of(prospective as nat) + "/"@
        + dec_of(m.max_amount_cents as nat) + "c)"@
}

/// The audit log after appending one record with `summary`.
pub open spec fn audited(pre: Seq<EntryView>, summary: Seq<char>) -> Seq<EntryView> {
    crate::audit::chain_push(pre, summary)
}

/// How long a minted token lives, in seconds.
pub const TOKEN_TTL_SECS: i64 = 300;

/// A minimal enforcement gateway: a trusted-key registry, a hash-chained audit log, the
/// gateway's own signing key for tokens, per-mandate spend tracking, and decision metrics.
pub struct Gateway {
    pub registry: MandateKeyRegistry,
    pub audit: AuditLog,
    pub metrics: Metrics,
    signing_key: SigningKey,
    /// Cumulative cents authorized per `mandate_id` — turns a mandate into a BUDGET, so
    /// replays and repeated charges accumulate against the cap.
    spent: SpendLedger,
}

/// A Deny: one audit record with `summary`, the deny counter up by one, spending unchanged,
/// and the outcome carrying `reason` and the record's number.
pub open spec fn denied(pre: Gateway, post: Gateway, summary: Seq<char>, reason: Seq<char>, out: Outcome) -> bool {
    &&& post.audit_view() == audited(pre.audit_view(), summary)
    &&& post.denied_count() == pre.denied_count() + 1
    &&& post.allowed_count() == pre.allowed_count()
    &&& post.spent_view() == pre.spent_view()
    &&& out matches Outcome::Deny { reason: r, audit_seq } && r@ == reason && audit_seq == pre.audit_view().len() + 1
}

/// The enforcement core on a verified mandate `m` at time `now`: scope, then the cumulative
/// budget, then Allow with a token (expiring `TOKEN_TTL_SECS` after `now`, carrying `jti`),
/// the new cumulative spend recorded.
pub open spec fn enforced(
    pre: Gateway,
    post: Gateway,
    m: MandateView,
    c: ChargeView,
    now: (i64, u32),
    jti: Seq<char>,
    out: Outcome,
) -> bool {
    match scope_error(m, c, now) {
        Some(r) => denied(pre, post, "DENY scope ["@ + m.mandate_id + "]: "@ + r, r, out),
        None => {
            let p = sat_add(prior_spent(pre.spent_view(), m.mandate_id), c.amount_cents);
            if p > m.max_amount_cents {
                let r = budget_reason(p, m.max_amount_cents);
                denied(pre, post, "DENY budget ["@ + m.mandate_id + "]: "@ + r, r, out)
            } else {
                let tok = token_of(pre.key_view(), m.agent_id, action_hash(c), (now.0 + TOKEN_TTL_SECS) as i64, jti);
                &&& post.audit_view() == audited(pre.audit_view(), allow_summary(m, c, tok.id, p))
                &&& post.allowed_count() == pre.allowed_count() + 1
                &&& post.denied_count() == pre.denied_count()
                &&& post.spent_view() == pre.spent_view().insert(m.mandate_id, p)
                &&& out matches Outcome::Allow { token_id, token, audit_seq } && token_id@ == tok.id && token_id@.len() == 15
                    && token@ == tok.compact && audit_seq == pre.audit_view().len() + 1
            }
        },
    }
}

/// One authorization through `adapter`: the registry and key are unchanged, and the adapter's
/// verification gives some result it may give for this wire, on which [`decided`] holds.
pub open spec fn authorized<A: MandateAdapter>(
    adapter: A,
    pre: Gateway,
    post: Gateway,
    wire: Seq<u8>,
    c: ChargeView,
    now: (i64, u32),
    jti: Seq<char>,
    out: Outcome,
) -> bool {
    &&& post.registry_view() == pre.registry_view()
    &&& post.key_view() == pre.key_view()
    &&& exists|vr: Result<IntentMandate, VerifyError>|
        #[trigger] adapter.parse_verify_result(wire, pre.registry_view(), vr)
            && decided(adapter.spec_name(), pre, post, c, now, jti, vr, out)
}

/// The decision on a verification result `vr` from the adapter named `name`: a failure is a
/// Deny recorded as `DENY verify[<name>]: <error>`, a verified mandate goes through
/// [`enforced`].
pub open spec fn decided(
    name: Seq<char>,
    pre: Gateway,
    post: Gateway,
    c: ChargeView,
    now: (i64, u32),
    jti: Seq<char>,
    vr: Result<IntentMandate, VerifyError>,
    out: Outcome,
) -> bool {
    match vr {
        Err(e) => denied(pre, post, "DENY verify["@ + name + "]: "@ + verify_error_text(e), verify_error_text(e), out),
        Ok(m) => enforced(pre, post, m@, c, now, jti, out),
    }
}

/// Room for one more decision: the audit numbering and both counters can go up by one.
pub open spec fn has_room(g: Gateway) -> bool {
    &&& g.audit_view().len() < u64::MAX
    &&& g.allowed_count() < u64::MAX
    &&& g.denied_count() < u64::MAX
}

impl Gateway {
    /// The audit log's entries.
    pub closed spec fn audit_view(&self) -> Seq<EntryView> {
        self.audit@
    }

    /// The registry's trusted keys.
    pub closed spec fn registry_view(&self) -> Map<Seq<char>, Seq<u8>> {
        self.registry@
    }

    /// The allow counter.
    pub closed spec fn allowed_count(&self) -> u64 {
        self.metrics.allowed
    }

    /// The deny counter.
    pub closed spec fn denied_count(&self) -> u64 {
        self.metrics.denied
    }

    /// Cumulative cents authorized per mandate id.
    pub closed spec fn spent_view(&self) -> Map<Seq<char>, u64> {
        self.spent@
    }

    /// The gateway's token signing key (its secret bytes).
    pub closed spec fn key_view(&self) -> Seq<u8> {
        self.signing_key@
    }

    pub fn new(registry: MandateKeyRegistry, signing_key: SigningKey) -> (g: Gateway)
        ensures
            g.registry_view() == registry@,
            g.audit_view() == Seq::<EntryView>::empty(),
            g.allowed_count() == 0 && g.denied_count() == 0,
            g.spent_view() == Map::<Seq<char>, u64>::empty(),
            g.key_view() == signing_key@,
    {
        Gateway {
            registry,
            audit: AuditLog::new(),
            metrics: Metrics { allowed: 0, denied: 0 },
            signing_key,
            spent: SpendLedger::new(),
        }
    }

    /// Whether there is room for one more decision (see [`has_room`]).
    pub fn has_room(&self) -> (r: bool)
        ensures
            r == has_room(*self),
    {
        (self.audit.len() as u64) < u64::MAX && self.metrics.allowed < u64::MAX && self.metrics.denied < u64::MAX
    }

    /// The public key a resource server uses to verify tokens this gateway mints.
    pub fn token_verifying_key(&self) -> (vk: VerifyingKey)
        ensures
            vk@ == spec_ed25519_public(self.key_view()),
    {
        self.signing_key.verifying_key()
    }

    fn deny(&mut self, log: String, reason: String) -> (out: Outcome)
        requires
            has_room(*old(self)),
        ensures
            denied(*old(self), *final(self), log@, reason@, out),
            final(self).registry_view() == old(self).registry_view(),
            final(self).key_view() == old(self).key_view(),
    {
        let seq = self.audit.append(log);
        self.metrics.denied = self.metrics.denied + 1;
        Outcome::Deny { reason, audit_seq: seq }
    }

    /// Run a mandate + charge through the pipeline using the demo's native wire format.
    /// Returns [`Outcome`] and always records exactly one audit entry.
    pub fn authorize(&mut self, wire_json: &[u8], charge: &Charge) -> (out: Outcome)
        requires
            has_room(*old(self)),
        ensures
            exists|t: (i64, u32), jti: Seq<char>|
                authorized(Native, *old(self), *final(self), wire_json@, charge@, t, jti, out),
    {
        self.authorize_with(&Native, wire_json, charge)
    }

    /// Same pipeline, but the wire is parsed and verified by a protocol [`MandateAdapter`]
    /// (AP2, ACP, …). The enforcement core — scope, budget, audit, token — is identical
    /// regardless of source protocol.
    pub fn authorize_with<A: MandateAdapter>(&mut self, adapter: &A, wire_json: &[u8], charge: &Charge) -> (out: Outcome)
        requires
            has_room(*old(self)),
        ensures
            exists|t: (i64, u32), jti: Seq<char>|
                authorized(*adapter, *old(self), *final(self), wire_json@, charge@, t, jti, out),
    {
        let t = now();
        let jti = crate::token::fresh_jti();
        let ghost tv = t@;
        let ghost jv = jti@;
        let out = self.authorize_at(adapter, wire_json, charge, t, jti);
        assert(authorized(*adapter, *old(self), *final(self), wire_json@, charge@, tv, jv, out));
        out
    }

    /// The pipeline at time `now`, minting (on Allow) a token with id `jti`.
    pub fn authorize_at<A: MandateAdapter>(
        &mut self,
        adapter: &A,
        wire_json: &[u8],
        charge: &Charge,
        now: Timestamp,
        jti: String,
    ) -> (out: Outcome)
        requires
            has_room(*old(self)),
        ensures
            authorized(*adapter, *old(self), *final(self), wire_json@, charge@, now@, jti@, out),
    {
        let vr = adapter.parse_verify(wire_json, &self.registry);
        let ghost vr0 = vr;
        match vr {
            Ok(mandate) => {
                let out = self.enforce(mandate, charge, now, jti);
                assert(adapter.parse_verify_result(wire_json@, old(self).registry_view(), vr0));
                out
            },
            Err(e) => {
                let msg = e.message();
                let mut log = String::new();
                push_str(&mut log, "DENY verify[");
                push_str(&mut log, adapter.name());
                push_str(&mut log, "]: ");
                push_str(&mut log, msg.as_str());
                let out = self.deny(log, msg);
                assert(adapter.parse_verify_result(wire_json@, old(self).registry_view(), vr0));
                out
            },
        }
    }

    /// Scope -> budget -> token -> audit, on an already-verified neutral mandate.
    fn enforce(&mut self, mandate: IntentMandate, charge: &Charge, now: Timestamp, jti: String) -> (out: Outcome)
        requires
            has_room(*old(self)),
        ensures
            enforced(*old(self), *final(self), mandate@, charge@, now@, jti@, out),
            final(self).registry_view() == old(self).registry_view(),
            final(self).key_view() == old(self).key_view(),
    {
        // 1. Scope enforcement — per-charge cap, merchant, currency, expiry.
        match check_scope(&mandate, charge, now) {
            Err(reason) => {
                let mut log = String::new();
                push_str(&mut log, "DENY scope [");
                push_str(&mut log, mandate.mandate_id.as_str());
                push_str(&mut log, "]: ");
                push_str(&mut log, reason.as_str());
                return self.deny(log, reason);
            },
            Ok(()) => {},
        }
        // 2. Budget — cumulative spend under this mandate must not exceed the cap.
        let prior = self.spent.get(mandate.mandate_id.as_str());
        let prospective = prior.saturating_add(charge.amount_cents);
        if prospective > mandate.max_amount_cents {
            let mut reason = String::new();
            push_str(&mut reason, "over cumulative budget: ");
            push_u64(&mut reason, prospective);
            push_str(&mut reason, "c spent+now > ");
            push_u64(&mut reason, mandate.max_amount_cents);
            push_str(&mut reason, "c cap");
            let mut log = String::new();
            push_str(&mut log, "DENY budget [");
            push_str(&mut log, mandate.mandate_id.as_str());
            push_str(&mut log, "]: ");
            push_str(&mut log, reason.as_str());
            return self.deny(log, reason);
        }
        // 3. Allow -> mint an action-bound token, record spend, audit.
        let mut action = String::new();
        push_str(&mut action, charge.merchant.as_str());
        push_str(&mut action, "|");
        push_u64(&mut action, charge.amount_cents);
        push_str(&mut action, "|");
        push_str(&mut action, charge.currency.as_str());
        let action_digest = sha256(action.as_str().as_bytes());
        let exp = now.secs() + TOKEN_TTL_SECS;
        let tok = mint_at(&self.signing_key, mandate.agent_id.as_str(), &action_digest, exp, jti);
        self.spent.set(mandate.mandate_id.as_str(), prospective);
        let mut log = String::new();
        push_str(&mut log, "ALLOW [");
        push_str(&mut log, mandate.mandate_id.as_str());
        push_str(&mut log, "] ");
        push_str(&mut log, charge.merchant.as_str());
        push_str(&mut log, " ");
        push_u64(&mut log, charge.amount_cents);
        push_str(&mut log, "c ");
        push_str(&mut log, charge.currency.as_str());
        push_str(&mut log, " token=");
        push_str(&mut log, tok.id.as_str());
        push_str(&mut log, " (budget ");
        push_u64(&mut log, prospective);
        push_str(&mut log, "/");
        push_u64(&mut log, mandate.max_amount_cents);
        push_str(&mut log, "c)");
        let seq = self.audit.append(log);
        self.metrics.allowed = self.metrics.allowed + 1;
        Outcome::Allow { token_id: tok.id, token: tok.compact, audit_seq: seq }
    }
}

} // verus!
