//! Minimal tamper-evident audit log.
//!
//! Each entry chains the previous one: `entry_hash = sha256(prev_hash || summary)`.
//! Mutating or dropping any entry breaks the chain, which [`AuditLog::verify`] detects.

use vstd::prelude::*;
use crate::{sha256, spec_sha256};

verus! {

#[derive(Debug, Clone)]
pub struct AuditEntry {
    pub seq: u64,
    pub summary: String,
    pub prev_hash: [u8; 32],
    pub entry_hash: [u8; 32],
}

/// The content of an audit entry as values.
pub struct EntryView {
    pub seq: u64,
    pub summary: Seq<char>,
    pub prev_hash: Seq<u8>,
    pub entry_hash: Seq<u8>,
}

impl View for AuditEntry {
    type V = EntryView;

    open spec fn view(&self) -> EntryView {
        EntryView {
            seq: self.seq,
            summary: self.summary@,
            prev_hash: self.prev_hash@,
            entry_hash: self.entry_hash@,
        }
    }
}

/// The hash that chains `summary` onto `prev`: SHA-256 of `prev` followed by the UTF-8
/// bytes of `summary`.
pub open spec fn chain_hash(prev: Seq<u8>, summary: Seq<char>) -> Seq<u8> {
    spec_sha256(prev + vstd::utf8::encode_utf8(summary))
}

/// The 32 zero bytes that the first entry chains onto.
pub open spec fn zero_hash() -> Seq<u8> {
    Seq::new(32, |i: int| 0u8)
}

/// The hash that the entry after the first `n` entries chains onto.
pub open spec fn head_after(entries: Seq<EntryView>, n: int) -> Seq<u8> {
    if n <= 0 {
        zero_hash()
    } else {
        entries[n - 1].entry_hash
    }
}

/// Every entry is numbered from 1 in order, chains onto the entry before it (the first onto
/// the zero hash), and carries the hash of that chaining.
pub open spec fn chain_valid(entries: Seq<EntryView>) -> bool {
    forall|i: int|
        0 <= i < entries.len() ==> {
            &&& (#[trigger] entries[i]).seq == i + 1
            &&& entries[i].prev_hash == head_after(entries, i)
            &&& entries[i].entry_hash == chain_hash(entries[i].prev_hash, entries[i].summary)
        }
}

/// The entries after one record with `summary` is appended: numbered next, chained onto the
/// head.
pub open spec fn chain_push(entries: Seq<EntryView>, summary: Seq<char>) -> Seq<EntryView> {
    let h = head_after(entries, entries.len() as int);
    entries.push(
        EntryView { seq: (entries.len() + 1) as u64, summary, prev_hash: h, entry_hash: chain_hash(h, summary) },
    )
}

/// The entries after records with each of `summaries` are appended, in order.
pub open spec fn appended(entries: Seq<EntryView>, summaries: Seq<Seq<char>>) -> Seq<EntryView>
    decreases summaries.len(),
{
    if summaries.len() == 0 {
        entries
    } else {
        chain_push(appended(entries, summaries.drop_last()), summaries.last())
    }
}

/// The views of a list of entries.
pub open spec fn entries_view(v: Seq<AuditEntry>) -> Seq<EntryView> {
    v.map_values(|e: AuditEntry| e@)
}

pub struct AuditLog {
    entries: Vec<AuditEntry>,
    /// The chain head: the hash of the last entry, or the zero hash for an empty log.
    head: [u8; 32],
}

/// Entries that form a valid chain whose last hash is `head`: what [`AuditLog::verify`]
/// checks, so that a record altered, dropped or cut off the end is caught.
pub open spec fn verified(entries: Seq<EntryView>, head: Seq<u8>) -> bool {
    chain_valid(entries) && head_after(entries, entries.len() as int) == head
}

impl View for AuditLog {
    type V = Seq<EntryView>;

    closed spec fn view(&self) -> Seq<EntryView> {
        entries_view(self.entries@)
    }
}

impl Default for AuditLog {
    fn default() -> (log: AuditLog)
        ensures
            log@ == Seq::<EntryView>::empty(),
    {
        AuditLog::new()
    }
}

/// `sha256(prev || summary)`.
fn chain(prev: &[u8; 32], summary: &str) -> (h: [u8; 32])
    ensures
        h@ == chain_hash(prev@, summary@),
{
    let mut buf = vstd::slice::slice_to_vec(prev.as_slice());
    let mut tail = summary.as_bytes_vec();
    buf.append(&mut tail);
    sha256(buf.as_slice())
}

/// Whether two 32-byte hashes are equal.
fn same_hash(a: &[u8; 32], b: &[u8; 32]) -> (r: bool)
    ensures
        r == (a@ == b@),
{
    let mut i: usize = 0;
    while i < 32
        invariant
            i <= 32,
            a@.len() == 32 && b@.len() == 32,
            forall|j: int| 0 <= j < i ==> a@[j] == b@[j],
        decreases 32 - i,
    {
        if a[i] != b[i] {
            return false;
        }
        i = i + 1;
    }
    assert(a@ =~= b@);
    true
}

impl AuditLog {
    #[verifier::type_invariant]
    spec fn well_formed(self) -> bool {
        verified(entries_view(self.entries@), self.head@)
    }

    /// The stored chain head.
    pub closed spec fn head_view(&self) -> Seq<u8> {
        self.head@
    }

    /// An empty log.
    pub fn new() -> (log: AuditLog)
        ensures
            log@ == Seq::<EntryView>::empty(),
    {
        let z = [0u8; 32];
        assert(z@ =~= zero_hash());
        let log = AuditLog { entries: Vec::new(), head: z };
        assert(log@ =~= Seq::<EntryView>::empty());
        log
    }

    /// The hash the next entry chains onto.
    fn head(&self) -> (h: [u8; 32])
        ensures
            h@ == head_after(self@, self@.len() as int),
            h@ == self.head_view(),
    {
        proof {
            use_type_invariant(self);
        }
        self.head
    }

    /// Append a record and return its sequence number.
    pub fn append(&mut self, summary: String) -> (seq: u64)
        requires
            old(self)@.len() < u64::MAX,
        ensures
            seq == old(self)@.len() + 1,
            final(self)@ == chain_push(old(self)@, summary@),
            final(self)@ == old(self)@.push(
                EntryView {
                    seq,
                    summary: summary@,
                    prev_hash: head_after(old(self)@, old(self)@.len() as int),
                    entry_hash: chain_hash(head_after(old(self)@, old(self)@.len() as int), summary@),
                },
            ),
    {
        proof {
            use_type_invariant(&*self);
        }
        let prev = self.head();
        let entry_hash = chain(&prev, summary.as_str());
        let seq = self.entries.len() as u64 + 1;
        let entry = AuditEntry { seq, summary, prev_hash: prev, entry_hash };
        let ghost old_view = self@;
        let ghost ev = entry@;
        proof {
            lemma_chain_push(old_view, ev);
        }
        let mut log = AuditLog::new();
        std::mem::swap(&mut log, self);
        let AuditLog { entries: mut es, head: _ } = log;
        es.push(entry);
        assert(entries_view(es@) =~= old_view.push(ev));
        *self = AuditLog { entries: es, head: entry_hash };
        seq
    }

    /// The number of entries.
    pub fn len(&self) -> (n: usize)
        ensures
            n == self@.len(),
    {
        self.entries.len()
    }

    /// Whether the log holds no entry.
    pub fn is_empty(&self) -> (r: bool)
        ensures
            r == (self@.len() == 0),
    {
        self.entries.len() == 0
    }

    /// The entries, oldest first.
    pub fn entries(&self) -> (es: &[AuditEntry])
        ensures
            entries_view(es@) == self@,
    {
        self.entries.as_slice()
    }

    /// Current chain head (the "root"), hex-encoded: the hash of the last entry, or the zero
    /// hash for an empty log.
    pub fn head_hex(&self) -> (s: String)
        ensures
            s@ == crate::text::hex_of(head_after(self@, self@.len() as int)),
    {
        let h = self.head();
        crate::text::hex(&h)
    }

    /// Recompute the chain and confirm no entry was altered, dropped or cut off: every link and
    /// hash recomputes, and the last hash is the stored head.
    pub fn verify(&self) -> (ok: bool)
        ensures
            ok == verified(self@, self.head_view()),
            ok,
    {
        proof {
            use_type_invariant(self);
        }
        let ghost v = self@;
        let mut prev = [0u8; 32];
        assert(prev@ =~= zero_hash());
        let mut i: usize = 0;
        while i < self.entries.len()
            invariant
                i <= self.entries@.len(),
                v == entries_view(self.entries@),
                chain_valid(v),
                prev@ == head_after(v, i as int),
            decreases self.entries@.len() - i,
        {
            let e = &self.entries[i];
            assert(v[i as int] == e@);
            if !same_hash(&e.prev_hash, &prev) || !same_hash(&chain(&prev, e.summary.as_str()), &e.entry_hash) {
                return false;
            }
            prev = e.entry_hash;
            i = i + 1;
        }
        same_hash(&prev, &self.head)
    }
}

/// Appending the entry that chains onto the head keeps a valid chain valid.
pub proof fn lemma_chain_push(entries: Seq<EntryView>, e: EntryView)
    requires
        chain_valid(entries),
        e.seq == entries.len() + 1,
        e.prev_hash == head_after(entries, entries.len() as int),
        e.entry_hash == chain_hash(e.prev_hash, e.summary),
    ensures
        chain_valid(entries.push(e)),
{
    let n = entries.push(e);
    assert forall|i: int| 0 <= i < n.len() implies {
        &&& (#[trigger] n[i]).seq == i + 1
        &&& n[i].prev_hash == head_after(n, i)
        &&& n[i].entry_hash == chain_hash(n[i].prev_hash, n[i].summary)
    } by {
        if i < entries.len() {
            assert(n[i] == entries[i]);
            if i > 0 {
                assert(n[i - 1] == entries[i - 1]);
            }
        } else {
            if i > 0 {
                assert(n[i - 1] == entries[i - 1]);
            }
        }
    }
}

/// Appending keeps the chain: a valid chain with any summaries appended in order is still
/// valid, keeps its records, has one more record per summary, and those records hold the
/// summaries in the order given, each numbered next and chained onto the one before.
pub proof fn law_appends_keep_chain(entries: Seq<EntryView>, summaries: Seq<Seq<char>>)
    requires
        chain_valid(entries),
        entries.len() + summaries.len() <= u64::MAX,
    ensures
        chain_valid(appended(entries, summaries)),
        appended(entries, summaries).len() == entries.len() + summaries.len(),
        appended(entries, summaries).take(entries.len() as int) == entries,
        forall|i: int|
            0 <= i < summaries.len() ==> {
                let r = #[trigger] appended(entries, summaries)[entries.len() + i];
                &&& r.summary == summaries[i]
                &&& r.seq == entries.len() + i + 1
            },
    decreases summaries.len(),
{
    if summaries.len() > 0 {
        let prev = summaries.drop_last();
        law_appends_keep_chain(entries, prev);
        let a = appended(entries, prev);
        let h = head_after(a, a.len() as int);
        let e = EntryView { seq: (a.len() + 1) as u64, summary: summaries.last(), prev_hash: h, entry_hash: chain_hash(h, summaries.last()) };
        lemma_chain_push(a, e);
        let n = appended(entries, summaries);
        assert(n == a.push(e));
        assert(n.take(entries.len() as int) =~= a.take(entries.len() as int));
        assert forall|i: int| 0 <= i < summaries.len() implies {
            let r = #[trigger] appended(entries, summaries)[entries.len() + i];
            &&& r.summary == summaries[i]
            &&& r.seq == entries.len() + i + 1
        } by {
            if i < prev.len() {
                assert(n[entries.len() + i] == a[entries.len() + i]);
                assert(prev[i] == summaries[i]);
            }
        }
    }
}

/// A log built from nothing by appending `summaries` in order holds exactly those records:
/// one per summary, in order, numbered from 1, the first chained onto the zero hash and each
/// later one onto the hash of the record before; and it verifies.
pub proof fn law_log_from_appends(summaries: Seq<Seq<char>>)
    requires
        summaries.len() <= u64::MAX,
    ensures
        ({
            let l = appended(Seq::<EntryView>::empty(), summaries);
            &&& l.len() == summaries.len()
            &&& chain_valid(l)
            &&& forall|i: int|
                0 <= i < l.len() ==> {
                    &&& (#[trigger] l[i]).summary == summaries[i]
                    &&& l[i].seq == i + 1
                    &&& l[i].prev_hash == (if i == 0 { zero_hash() } else { l[i - 1].entry_hash })
                    &&& l[i].entry_hash == chain_hash(l[i].prev_hash, l[i].summary)
                }
        }),
{
    law_appends_keep_chain(Seq::<EntryView>::empty(), summaries);
    let l = appended(Seq::<EntryView>::empty(), summaries);
    assert forall|i: int| 0 <= i < l.len() implies {
        &&& (#[trigger] l[i]).summary == summaries[i]
        &&& l[i].seq == i + 1
        &&& l[i].prev_hash == (if i == 0 { zero_hash() } else { l[i - 1].entry_hash })
        &&& l[i].entry_hash == chain_hash(l[i].prev_hash, l[i].summary)
    } by {
        assert(l[0 + i] == l[i]);
    }
}

/// The audit check catches an altered record: in a valid chain, replacing one record by one
/// that differs only in its summary, only in the hash it chains onto, or only in its own
/// hash, leaves a chain that does not verify, provided the altered summary does not hash, on
/// that link, to the record's hash (no SHA-256 collision).
pub proof fn law_altered_record_breaks_chain(entries: Seq<EntryView>, i: int, e: EntryView)
    requires
        chain_valid(entries),
        0 <= i < entries.len(),
        e != entries[i],
        e.seq == entries[i].seq,
        ({
            let o = entries[i];
            ||| (e.prev_hash == o.prev_hash && e.entry_hash == o.entry_hash)
            ||| (e.summary == o.summary && e.entry_hash == o.entry_hash)
            ||| (e.summary == o.summary && e.prev_hash == o.prev_hash)
        }),
        e.summary != entries[i].summary ==> chain_hash(e.prev_hash, e.summary) != entries[i].entry_hash,
    ensures
        !chain_valid(entries.update(i, e)),
{
    let u = entries.update(i, e);
    let o = entries[i];
    assert(u[i] == e);
    if i > 0 {
        assert(u[i - 1] == entries[i - 1]);
    }
    assert(head_after(u, i) == head_after(entries, i));
    if e.summary == o.summary && e.prev_hash == o.prev_hash {
        assert(e.entry_hash != o.entry_hash);
    }
}

/// The audit check catches truncation: cutting a valid chain back to its first `k` records
/// while the stored head stays leaves a log that does not verify, provided the hash the cut
/// log ends on differs from the head (no SHA-256 collision).
pub proof fn law_truncation_breaks_chain(entries: Seq<EntryView>, head: Seq<u8>, k: int)
    requires
        verified(entries, head),
        0 <= k < entries.len(),
        head_after(entries, k) != head,
    ensures
        !verified(entries.take(k), head),
{
    if k > 0 {
        assert(entries.take(k)[k - 1] == entries[k - 1]);
    }
}

/// Each record's hash covers the record before it: in a valid chain, the hash of record `i` is
/// SHA-256 of the previous record's hash (32 zero bytes for the first record) followed by the
/// UTF-8 bytes of record `i`'s summary.
pub proof fn law_record_hash_covers_previous(entries: Seq<EntryView>, i: int)
    requires
        chain_valid(entries),
        0 <= i < entries.len(),
    ensures
        i == 0 ==> entries[i].entry_hash == spec_sha256(
            Seq::new(32, |k: int| 0u8) + vstd::utf8::encode_utf8(entries[i].summary),
        ),
        i > 0 ==> entries[i].entry_hash == spec_sha256(
            entries[i - 1].entry_hash + vstd::utf8::encode_utf8(entries[i].summary),
        ),
{
    assert(entries[i].seq == i + 1);
}

/// Appending chains the new record onto the head: its previous hash is the last record's hash
/// (32 zero bytes for an empty log), and its own hash is SHA-256 of that previous hash followed
/// by the UTF-8 bytes of the summary.
pub proof fn law_append_hashes_head(entries: Seq<EntryView>, summary: Seq<char>)
    ensures
        ({
            let head = if entries.len() == 0 { Seq::new(32, |k: int| 0u8) } else { entries.last().entry_hash };
            let n = chain_push(entries, summary);
            &&& n.len() == entries.len() + 1
            &&& n.last().summary == summary
            &&& n.last().prev_hash == head
            &&& n.last().entry_hash == spec_sha256(head + vstd::utf8::encode_utf8(summary))
        }),
{
    assert(zero_hash() =~= Seq::new(32, |k: int| 0u8));
}

} // verus!
