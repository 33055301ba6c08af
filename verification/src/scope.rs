//! Scope + limit enforcement: does a concrete charge fall within the mandate?

use vstd::prelude::*;
use crate::mandate::{IntentMandate, MandateView};
use crate::text::{dec_of, push_str, push_u64};
use crate::time::{spec_ymd, ts_before, ymd, Timestamp};

verus! {

/// A concrete payment the agent wants to make under a mandate.
#[derive(Debug, Clone)]
pub struct Charge {
    pub merchant: String,
    pub amount_cents: u64,
    pub currency: String,
}

/// The content of a charge as values.
pub struct ChargeView {
    pub merchant: Seq<char>,
    pub amount_cents: u64,
    pub currency: Seq<char>,
}

impl View for Charge {
    type V = ChargeView;

    open spec fn view(&self) -> ChargeView {
        ChargeView { merchant: self.merchant@, amount_cents: self.amount_cents, currency: self.currency@ }
    }
}

/// std's `str::to_lowercase` of a text (full Unicode lowercase mapping).
pub uninterp spec fn spec_lowercase(s: Seq<char>) -> Seq<char>;

/// The lowercase form of `s` (std's `str::to_lowercase`).
///
/// Trusted: the result is named `spec_lowercase`.
#[verifier::external_body]
pub(crate) fn lowercase(s: &str) -> (r: String)
    ensures
        r@ == spec_lowercase(s@),
{
    s.to_lowercase()
}

/// Why a charge falls outside a mandate at time `now`, checked in order: expiry, currency
/// (compared in lowercase), amount cap, merchant allowlist (empty = any merchant); `None` when
/// it falls within.
pub open spec fn scope_error(m: MandateView, c: ChargeView, now: (i64, u32)) -> Option<Seq<char>> {
    if !ts_before(now, m.expires_at) {
        Some("mandate expired "@ + spec_ymd(m.expires_at))
    } else if spec_lowercase(c.currency) != spec_lowercase(m.currency) {
        Some("currency mismatch: "@ + c.currency + " != "@ + m.currency)
    } else if c.amount_cents > m.max_amount_cents {
        Some("over cap: "@ + dec_of(c.amount_cents as nat) + "c > "@ + dec_of(m.max_amount_cents as nat) + "c"@)
    } else if m.allowed_merchants.len() > 0 && !m.allowed_merchants.contains(c.merchant) {
        Some("merchant not in allowlist: "@ + c.merchant)
    } else {
        None
    }
}

/// The charge falls within the mandate at time `now`.
pub open spec fn in_scope(m: MandateView, c: ChargeView, now: (i64, u32)) -> bool {
    scope_error(m, c, now) is None
}

/// Whether `merchant` is on the list.
fn listed(list: &Vec<String>, merchant: &String) -> (r: bool)
    ensures
        r == crate::json::strings_view(list@).contains(merchant@),
{
    let ghost v = crate::json::strings_view(list@);
    let mut i: usize = 0;
    while i < list.len()
        invariant
            i <= list@.len(),
            v == crate::json::strings_view(list@),
            forall|j: int| 0 <= j < i ==> v[j] != merchant@,
        decreases list@.len() - i,
    {
        if list[i] == *merchant {
            assert(v[i as int] == merchant@);
            return true;
        }
        i = i + 1;
    }
    false
}

/// Enforce the mandate's scope on a charge.
///
/// **FAIL-CLOSED:** any violation returns `Err(reason)`: expiry, currency, amount cap,
/// merchant allowlist, checked in that order.
pub fn check_scope(mandate: &IntentMandate, charge: &Charge, now: Timestamp) -> (r: Result<(), String>)
    ensures
        match scope_error(mandate@, charge@, now@) {
            None => r is Ok,
            Some(reason) => r matches Err(e) && e@ == reason,
        },
{
    if now.at_or_after(&mandate.expires_at) {
        let mut e = String::new();
        push_str(&mut e, "mandate expired ");
        let d = ymd(&mandate.expires_at);
        push_str(&mut e, d.as_str());
        return Err(e);
    }
    let a = lowercase(charge.currency.as_str());
    let b = lowercase(mandate.currency.as_str());
    if a != b {
        let mut e = String::new();
        push_str(&mut e, "currency mismatch: ");
        push_str(&mut e, charge.currency.as_str());
        push_str(&mut e, " != ");
        push_str(&mut e, mandate.currency.as_str());
        return Err(e);
    }
    if charge.amount_cents > mandate.max_amount_cents {
        let mut e = String::new();
        push_str(&mut e, "over cap: ");
        push_u64(&mut e, charge.amount_cents);
        push_str(&mut e, "c > ");
        push_u64(&mut e, mandate.max_amount_cents);
        push_str(&mut e, "c");
        return Err(e);
    }
    if mandate.allowed_merchants.len() > 0 && !listed(&mandate.allowed_merchants, &charge.merchant) {
        let mut e = String::new();
        push_str(&mut e, "merchant not in allowlist: ");
        push_str(&mut e, charge.merchant.as_str());
        return Err(e);
    }
    Ok(())
}

} // verus!
