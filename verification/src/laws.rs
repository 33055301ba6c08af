//! What holds of every authorization the gateway makes, whatever the wire and the protocol.

use vstd::prelude::*;
use crate::audit::{chain_push, chain_valid, lemma_chain_push, EntryView};
use crate::engine::{audited, authorized, decided, prior_spent, sat_add, Gateway, Outcome};
use crate::mandate::{
    detached_check, native_wire, payload_bytes, verify_signed_result, Check, IntentMandate,
    VerifyError,
};
use crate::protocol::{
    acp_canonical, acp_mandate, acp_result, acp_wire, ap2_canonical, ap2_mandate, ap2_result,
    ap2_wire, Acp, Ap2, MandateAdapter, Native,
};
use crate::scope::{in_scope, scope_error, spec_lowercase, ChargeView};
use crate::time::ts_before;

verus! {

/// The verification result on which an authorization was decided.
spec fn verdict<A: MandateAdapter>(
    adapter: A,
    pre: Gateway,
    post: Gateway,
    wire: Seq<u8>,
    c: ChargeView,
    now: (i64, u32),
    jti: Seq<char>,
    out: Outcome,
) -> Result<IntentMandate, VerifyError> {
    choose|vr: Result<IntentMandate, VerifyError>|
        #[trigger] adapter.parse_verify_result(wire, pre.registry_view(), vr)
            && decided(adapter.spec_name(), pre, post, c, now, jti, vr, out)
}

/// Nothing out of scope is ever allowed: an Allow comes only from a mandate that the adapter
/// verified for this wire, that has not expired at `now`, whose currency matches the charge's
/// (in lowercase), whose per-charge cap covers the amount and whose allowlist is empty or
/// names the merchant; and the cumulative spend under that mandate, this charge added to it
/// (saturating at `u64::MAX`), stays within its cap.
pub proof fn law_allow_only_in_scope<A: MandateAdapter>(
    adapter: A,
    pre: Gateway,
    post: Gateway,
    wire: Seq<u8>,
    c: ChargeView,
    now: (i64, u32),
    jti: Seq<char>,
    out: Outcome,
)
    requires
        authorized(adapter, pre, post, wire, c, now, jti, out),
        out is Allow,
    ensures
        exists|m: IntentMandate|
            #[trigger] adapter.parse_verify_result(wire, pre.registry_view(), Ok(m)) && {
                &&& in_scope(m@, c, now)
                &&& ts_before(now, m@.expires_at)
                &&& spec_lowercase(c.currency) == spec_lowercase(m@.currency)
                &&& c.amount_cents <= m@.max_amount_cents
                &&& (m@.allowed_merchants.len() == 0 || m@.allowed_merchants.contains(c.merchant))
                &&& post.spent_view().contains_key(m@.mandate_id)
                &&& post.spent_view()[m@.mandate_id] == sat_add(
                    prior_spent(pre.spent_view(), m@.mandate_id),
                    c.amount_cents,
                )
                &&& post.spent_view()[m@.mandate_id] <= m@.max_amount_cents
            },
{
    let vr = verdict(adapter, pre, post, wire, c, now, jti, out);
    match vr {
        Ok(m) => {
            assert(adapter.parse_verify_result(wire, pre.registry_view(), Ok(m)));
            assert(scope_error(m@, c, now) is None);
            let p = sat_add(prior_spent(pre.spent_view(), m@.mandate_id), c.amount_cents);
            assert(p <= m@.max_amount_cents);
            assert(post.spent_view() == pre.spent_view().insert(m@.mandate_id, p));
        },
        Err(e) => {},
    }
}

/// A Deny spends nothing: the cumulative spend and the allow counter are unchanged, and the
/// deny counter goes up by one.
pub proof fn law_deny_spends_nothing<A: MandateAdapter>(
    adapter: A,
    pre: Gateway,
    post: Gateway,
    wire: Seq<u8>,
    c: ChargeView,
    now: (i64, u32),
    jti: Seq<char>,
    out: Outcome,
)
    requires
        authorized(adapter, pre, post, wire, c, now, jti, out),
        out is Deny,
    ensures
        post.spent_view() == pre.spent_view(),
        post.allowed_count() == pre.allowed_count(),
        post.denied_count() == pre.denied_count() + 1,
{
    let vr = verdict(adapter, pre, post, wire, c, now, jti, out);
}

/// Every decision is audited, exactly once: one record is appended, numbered next, after the
/// records already there, which stay as they were; a valid chain stays valid; the outcome
/// carries the record's number; exactly one of the two counters goes up, the one that matches
/// the outcome, so counters that summed to the number of records still do; the trusted keys
/// and the token key are unchanged.
pub proof fn law_one_record_per_decision<A: MandateAdapter>(
    adapter: A,
    pre: Gateway,
    post: Gateway,
    wire: Seq<u8>,
    c: ChargeView,
    now: (i64, u32),
    jti: Seq<char>,
    out: Outcome,
)
    requires
        authorized(adapter, pre, post, wire, c, now, jti, out),
    ensures
        post.audit_view().len() == pre.audit_view().len() + 1,
        post.audit_view().take(pre.audit_view().len() as int) == pre.audit_view(),
        post.audit_view().last().seq == pre.audit_view().len() + 1,
        chain_valid(pre.audit_view()) ==> chain_valid(post.audit_view()),
        match out {
            Outcome::Allow { audit_seq, .. } => audit_seq == post.audit_view().len()
                && post.allowed_count() == pre.allowed_count() + 1
                && post.denied_count() == pre.denied_count(),
            Outcome::Deny { audit_seq, .. } => audit_seq == post.audit_view().len()
                && post.denied_count() == pre.denied_count() + 1
                && post.allowed_count() == pre.allowed_count(),
        },
        pre.allowed_count() + pre.denied_count() == pre.audit_view().len()
            ==> post.allowed_count() + post.denied_count() == post.audit_view().len(),
        post.registry_view() == pre.registry_view(),
        post.key_view() == pre.key_view(),
{
    let vr = verdict(adapter, pre, post, wire, c, now, jti, out);
    let a = pre.audit_view();
    assert(exists|s: Seq<char>| post.audit_view() == #[trigger] audited(a, s));
    let s = choose|s: Seq<char>| post.audit_view() == #[trigger] audited(a, s);
    let e = post.audit_view().last();
    assert(post.audit_view() == a.push(e));
    assert(post.audit_view().take(a.len() as int) =~= a);
    if chain_valid(a) {
        lemma_chain_push(a, e);
    }
}

/// Spending never goes down: after any authorization, what is recorded as spent under each
/// mandate id is at least what was recorded before.
pub proof fn law_spending_never_decreases<A: MandateAdapter>(
    adapter: A,
    pre: Gateway,
    post: Gateway,
    wire: Seq<u8>,
    c: ChargeView,
    now: (i64, u32),
    jti: Seq<char>,
    out: Outcome,
    id: Seq<char>,
)
    requires
        authorized(adapter, pre, post, wire, c, now, jti, out),
    ensures
        prior_spent(post.spent_view(), id) >= prior_spent(pre.spent_view(), id),
{
    let vr = verdict(adapter, pre, post, wire, c, now, jti, out);
}

/// The audit check catches a dropped record: removing any record but the last from a valid
/// chain leaves a chain that does not verify.
pub proof fn law_dropped_record_breaks_chain(entries: Seq<EntryView>, i: int)
    requires
        chain_valid(entries),
        0 <= i < entries.len() - 1,
    ensures
        !chain_valid(entries.remove(i)),
{
    let r = entries.remove(i);
    assert(r[i] == entries[i + 1]);
    assert(entries[i + 1].seq == i + 2);
}

/// A native wire verifies only as the mandate it holds, and only where the key trusted for
/// that mandate's user verifies its signature over the canonical bytes, which cover every
/// field of the mandate: a field changed after signing is a field the signature did not cover.
pub proof fn law_native_verified_is_signed(wire: Seq<u8>, reg: Map<Seq<char>, Seq<u8>>, m: IntentMandate)
    requires
        verify_signed_result(wire, reg, Ok(m)),
    ensures
        native_wire(wire) matches Some(p) && p.0 == m@ && reg.contains_key(m@.user_id)
            && detached_check(m@.user_id, payload_bytes(m@), p.1, reg) is Pass,
{
}

/// An AP2 wire verifies only where the key trusted for its principal verifies its signature
/// over the body's canonical bytes, and then as the mandate that body carries.
pub proof fn law_ap2_verified_is_signed(wire: Seq<u8>, reg: Map<Seq<char>, Seq<u8>>, m: IntentMandate)
    requires
        ap2_result(wire, reg, Ok(m)),
    ensures
        ap2_wire(wire) matches Some(p) && reg.contains_key(p.0.principal)
            && detached_check(p.0.principal, vstd::utf8::encode_utf8(ap2_canonical(p.0)), p.1, reg) is Pass
            && exists|c: (i64, u32), x: (i64, u32)| m@ == #[trigger] ap2_mandate(p.0, c, x),
{
    let p = ap2_wire(wire).unwrap();
    let c = crate::time::spec_parse_rfc3339(p.0.issued_at)->Ok_0;
    let x = crate::time::spec_parse_rfc3339(p.0.not_after)->Ok_0;
    assert(m@ == ap2_mandate(p.0, c, x));
}

/// An ACP wire verifies only where the key trusted for its buyer verifies its signature over
/// the body's canonical bytes, and then as the mandate that body carries.
pub proof fn law_acp_verified_is_signed(wire: Seq<u8>, reg: Map<Seq<char>, Seq<u8>>, m: IntentMandate)
    requires
        acp_result(wire, reg, Ok(m)),
    ensures
        acp_wire(wire) matches Some(p) && reg.contains_key(p.0.buyer)
            && detached_check(p.0.buyer, vstd::utf8::encode_utf8(acp_canonical(p.0)), p.1, reg) is Pass
            && exists|c: (i64, u32), x: (i64, u32)| m@ == #[trigger] acp_mandate(p.0, c, x),
{
    let p = acp_wire(wire).unwrap();
    let c = crate::time::spec_parse_rfc3339(p.0.issued_at)->Ok_0;
    let x = crate::time::spec_parse_rfc3339(p.0.expires_at)->Ok_0;
    assert(m@ == acp_mandate(p.0, c, x));
}

/// Fail-closed: a gateway that trusts no key denies every native wire.
pub proof fn law_empty_registry_denies_native(
    pre: Gateway,
    post: Gateway,
    wire: Seq<u8>,
    c: ChargeView,
    now: (i64, u32),
    jti: Seq<char>,
    out: Outcome,
)
    requires
        authorized(Native, pre, post, wire, c, now, jti, out),
        pre.registry_view() == Map::<Seq<char>, Seq<u8>>::empty(),
    ensures
        out is Deny,
{
    let vr = verdict(Native, pre, post, wire, c, now, jti, out);
}

/// Fail-closed: a gateway that trusts no key denies every AP2 wire.
pub proof fn law_empty_registry_denies_ap2(
    pre: Gateway,
    post: Gateway,
    wire: Seq<u8>,
    c: ChargeView,
    now: (i64, u32),
    jti: Seq<char>,
    out: Outcome,
)
    requires
        authorized(Ap2, pre, post, wire, c, now, jti, out),
        pre.registry_view() == Map::<Seq<char>, Seq<u8>>::empty(),
    ensures
        out is Deny,
{
    let vr = verdict(Ap2, pre, post, wire, c, now, jti, out);
}

/// Fail-closed: a gateway that trusts no key denies every ACP wire.
pub proof fn law_empty_registry_denies_acp(
    pre: Gateway,
    post: Gateway,
    wire: Seq<u8>,
    c: ChargeView,
    now: (i64, u32),
    jti: Seq<char>,
    out: Outcome,
)
    requires
        authorized(Acp, pre, post, wire, c, now, jti, out),
        pre.registry_view() == Map::<Seq<char>, Seq<u8>>::empty(),
    ensures
        out is Deny,
{
    let vr = verdict(Acp, pre, post, wire, c, now, jti, out);
}

/// An empty allowlist permits any merchant: with no merchant listed, which merchant a charge
/// names makes no difference to the scope check.
pub proof fn law_empty_allowlist_any_merchant(
    m: crate::mandate::MandateView,
    c: ChargeView,
    now: (i64, u32),
    merchant: Seq<char>,
)
    requires
        m.allowed_merchants.len() == 0,
    ensures
        scope_error(m, c, now) == scope_error(m, ChargeView { merchant, ..c }, now),
{
}

/// One core for every protocol: two authorizations from the same gateway state, of the same
/// charge at the same time, through any two adapters whose verification of their wires can
/// only give the same mandate, decide alike: the same outcome, reason or token, the same audit
/// records, counters and spending afterwards.
pub proof fn law_one_core_for_every_protocol<A: MandateAdapter, B: MandateAdapter>(
    a: A,
    wa: Seq<u8>,
    b: B,
    wb: Seq<u8>,
    m: crate::mandate::MandateView,
    pre: Gateway,
    post_a: Gateway,
    post_b: Gateway,
    c: ChargeView,
    now: (i64, u32),
    jti: Seq<char>,
    out_a: Outcome,
    out_b: Outcome,
)
    requires
        authorized(a, pre, post_a, wa, c, now, jti, out_a),
        authorized(b, pre, post_b, wb, c, now, jti, out_b),
        forall|vr: Result<IntentMandate, VerifyError>|
            #[trigger] a.parse_verify_result(wa, pre.registry_view(), vr) ==> (vr matches Ok(x) && x@ == m),
        forall|vr: Result<IntentMandate, VerifyError>|
            #[trigger] b.parse_verify_result(wb, pre.registry_view(), vr) ==> (vr matches Ok(x) && x@ == m),
    ensures
        post_a.audit_view() == post_b.audit_view(),
        post_a.allowed_count() == post_b.allowed_count(),
        post_a.denied_count() == post_b.denied_count(),
        post_a.spent_view() == post_b.spent_view(),
        match (out_a, out_b) {
            (
                Outcome::Allow { token_id: i1, token: t1, audit_seq: s1 },
                Outcome::Allow { token_id: i2, token: t2, audit_seq: s2 },
            ) => i1@ == i2@ && t1@ == t2@ && s1 == s2,
            (Outcome::Deny { reason: r1, audit_seq: s1 }, Outcome::Deny { reason: r2, audit_seq: s2 }) => r1@
                == r2@ && s1 == s2,
            _ => false,
        },
{
    let va = verdict(a, pre, post_a, wa, c, now, jti, out_a);
    let vb = verdict(b, pre, post_b, wb, c, now, jti, out_b);
    assert(va matches Ok(x) && x@ == m);
    assert(vb matches Ok(x) && x@ == m);
}

/// The core denies nothing it should allow: where the adapter can only verify the wire as a
/// mandate within whose scope the charge falls at `now`, and the spending under that mandate
/// with this charge added stays within its cap, the outcome is an Allow.
pub proof fn law_in_scope_within_budget_allowed<A: MandateAdapter>(
    adapter: A,
    m: crate::mandate::MandateView,
    pre: Gateway,
    post: Gateway,
    wire: Seq<u8>,
    c: ChargeView,
    now: (i64, u32),
    jti: Seq<char>,
    out: Outcome,
)
    requires
        authorized(adapter, pre, post, wire, c, now, jti, out),
        forall|vr: Result<IntentMandate, VerifyError>|
            #[trigger] adapter.parse_verify_result(wire, pre.registry_view(), vr) ==> (vr matches Ok(x) && x@ == m),
        in_scope(m, c, now),
        sat_add(prior_spent(pre.spent_view(), m.mandate_id), c.amount_cents) <= m.max_amount_cents,
    ensures
        out is Allow,
{
    let vr = verdict(adapter, pre, post, wire, c, now, jti, out);
    assert(vr matches Ok(x) && x@ == m);
}

/// One decision's audit record: the log after it is the log before with one record appended.
pub open spec fn recorded_once(pre: Gateway, post: Gateway) -> bool {
    exists|s: Seq<char>| post.audit_view() == #[trigger] chain_push(pre.audit_view(), s)
}

/// Every authorization is [`recorded_once`].
pub proof fn law_decision_recorded_once<A: MandateAdapter>(
    adapter: A,
    pre: Gateway,
    post: Gateway,
    wire: Seq<u8>,
    c: ChargeView,
    now: (i64, u32),
    jti: Seq<char>,
    out: Outcome,
)
    requires
        authorized(adapter, pre, post, wire, c, now, jti, out),
    ensures
        recorded_once(pre, post),
{
    let vr = verdict(adapter, pre, post, wire, c, now, jti, out);
    let a = pre.audit_view();
    assert(exists|s: Seq<char>| post.audit_view() == #[trigger] audited(a, s));
    let s = choose|s: Seq<char>| post.audit_view() == #[trigger] audited(a, s);
    assert(post.audit_view() == chain_push(a, s));
}

/// k decisions give k records: along a run of gateway states in which each step records one
/// decision, the log keeps its earlier records, grows by one record per step, and a chain
/// that verified still verifies.
pub proof fn law_decisions_recorded(gs: Seq<Gateway>)
    requires
        gs.len() >= 1,
        forall|j: int| 0 <= j < gs.len() - 1 ==> #[trigger] recorded_once(gs[j], gs[j + 1]),
        gs[0].audit_view().len() + gs.len() <= u64::MAX,
    ensures
        gs.last().audit_view().len() == gs[0].audit_view().len() + gs.len() - 1,
        gs.last().audit_view().take(gs[0].audit_view().len() as int) == gs[0].audit_view(),
        chain_valid(gs[0].audit_view()) ==> chain_valid(gs.last().audit_view()),
    decreases gs.len(),
{
    if gs.len() > 1 {
        let init = gs.drop_last();
        assert forall|j: int| 0 <= j < init.len() - 1 implies #[trigger] recorded_once(init[j], init[j + 1]) by {
            assert(recorded_once(gs[j], gs[j + 1]));
        }
        law_decisions_recorded(init);
        let k = gs.len() - 2;
        assert(recorded_once(gs[k], gs[k + 1]));
        let a = gs[k].audit_view();
        let s = choose|s: Seq<char>| gs[k + 1].audit_view() == #[trigger] chain_push(a, s);
        assert(init.last() == gs[k]);
        assert(gs.last() == gs[k + 1]);
        let n0 = gs[0].audit_view().len() as int;
        assert(gs.last().audit_view().take(n0) =~= a.take(n0));
        if chain_valid(gs[0].audit_view()) {
            let h = crate::audit::head_after(a, a.len() as int);
            lemma_chain_push(
                a,
                EntryView { seq: (a.len() + 1) as u64, summary: s, prev_hash: h, entry_hash: crate::audit::chain_hash(h, s) },
            );
        }
    }
}

/// How one decision changes the spend record: a Deny (`None`) leaves it as it was; an Allow of
/// `a` cents under mandate `id` adds `a` to what `id` had spent, saturating at `u64::MAX`.
pub open spec fn spend_step(
    pre: Map<Seq<char>, u64>,
    post: Map<Seq<char>, u64>,
    step: Option<(Seq<char>, u64)>,
) -> bool {
    match step {
        None => post == pre,
        Some(p) => post == pre.insert(p.0, sat_add(prior_spent(pre, p.0), p.1)),
    }
}

/// Every authorization is a [`spend_step`]: a Deny with no spend, or an Allow of the charge's
/// amount under the verified mandate.
pub proof fn law_decision_spend_step<A: MandateAdapter>(
    adapter: A,
    pre: Gateway,
    post: Gateway,
    wire: Seq<u8>,
    c: ChargeView,
    now: (i64, u32),
    jti: Seq<char>,
    out: Outcome,
)
    requires
        authorized(adapter, pre, post, wire, c, now, jti, out),
    ensures
        exists|step: Option<(Seq<char>, u64)>|
            #[trigger] spend_step(pre.spent_view(), post.spent_view(), step)
                && (step is Some <==> out is Allow)
                && (step matches Some(p) ==> p.1 == c.amount_cents),
{
    let vr = verdict(adapter, pre, post, wire, c, now, jti, out);
    match vr {
        Ok(m) => {
            if out is Allow {
                let step = Some((m@.mandate_id, c.amount_cents));
                assert(spend_step(pre.spent_view(), post.spent_view(), step));
            } else {
                assert(spend_step(pre.spent_view(), post.spent_view(), None::<(Seq<char>, u64)>));
            }
        },
        Err(e) => {
            assert(spend_step(pre.spent_view(), post.spent_view(), None::<(Seq<char>, u64)>));
        },
    }
}

/// The cents allowed under mandate `id` in a run of steps.
pub open spec fn allowed_total(steps: Seq<Option<(Seq<char>, u64)>>, id: Seq<char>) -> nat
    decreases steps.len(),
{
    if steps.len() == 0 {
        0
    } else {
        allowed_total(steps.drop_last(), id) + match steps.last() {
            Some(p) => if p.0 == id {
                p.1 as nat
            } else {
                0nat
            },
            None => 0nat,
        }
    }
}

/// `n`, saturating at `u64::MAX`.
pub open spec fn capped(n: nat) -> u64 {
    if n > u64::MAX {
        u64::MAX
    } else {
        n as u64
    }
}

/// Recorded spend is the sum of the allowed charges: along a run of spend records linked by
/// [`spend_step`]s, what mandate `id` has spent at the end is what it had at the start plus
/// every charge allowed under it, saturating at `u64::MAX`. From a new gateway (nothing spent)
/// it is exactly the sum of the charges allowed under `id`.
pub proof fn law_spend_is_sum(
    spents: Seq<Map<Seq<char>, u64>>,
    steps: Seq<Option<(Seq<char>, u64)>>,
    id: Seq<char>,
)
    requires
        spents.len() == steps.len() + 1,
        forall|j: int| 0 <= j < steps.len() ==> #[trigger] spend_step(spents[j], spents[j + 1], steps[j]),
    ensures
        prior_spent(spents.last(), id) == capped((prior_spent(spents[0], id) + allowed_total(steps, id)) as nat),
    decreases steps.len(),
{
    if steps.len() > 0 {
        let k = steps.len() - 1;
        let init = spents.drop_last();
        assert forall|j: int| 0 <= j < steps.drop_last().len() implies #[trigger] spend_step(
            init[j],
            init[j + 1],
            steps.drop_last()[j],
        ) by {
            assert(spend_step(spents[j], spents[j + 1], steps[j]));
        }
        law_spend_is_sum(init, steps.drop_last(), id);
        assert(spend_step(spents[k], spents[k + 1], steps[k]));
        assert(init.last() == spents[k]);
        assert(spents.last() == spents[k + 1]);
        assert(steps.last() == steps[k]);
    }
}

} // verus!
