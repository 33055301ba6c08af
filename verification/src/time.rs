//! Points in time, UTC, at nanosecond resolution: the values that chrono's
//! `DateTime<Utc>` can hold.

use vstd::prelude::*;

verus! {

/// The first second that chrono's `DateTime<Utc>` can hold (-262143-01-01T00:00:00Z).
pub const MIN_SECS: i64 = -8334601315200;

/// The last second that chrono's `DateTime<Utc>` can hold (+262142-12-31T23:59:59Z).
pub const MAX_SECS: i64 = 8210266876799;

/// `(secs, nanos)` is a point that `DateTime<Utc>` can hold: `secs` within range, and
/// `nanos` below one second, or below two within the last second of a minute (a leap second).
pub open spec fn ts_valid(secs: i64, nanos: u32) -> bool {
    &&& MIN_SECS <= secs <= MAX_SECS
    &&& nanos < 2_000_000_000
    &&& nanos >= 1_000_000_000 ==> secs % 60 == 59
}

/// A point in time: seconds since the Unix epoch and the nanoseconds within that second.
#[derive(Clone, Copy, Debug)]
pub struct Timestamp {
    secs: i64,
    nanos: u32,
}

impl View for Timestamp {
    type V = (i64, u32);

    closed spec fn view(&self) -> (i64, u32) {
        (self.secs, self.nanos)
    }
}

/// `t` is a point whose year chrono writes with four digits (0000 to 9999).
pub open spec fn four_digit_year(t: (i64, u32)) -> bool {
    &&& ts_valid(t.0, t.1)
    &&& -62167219200 <= t.0 <= 253402300799
}

/// `a` comes strictly before `b`.
pub open spec fn ts_before(a: (i64, u32), b: (i64, u32)) -> bool {
    a.0 < b.0 || (a.0 == b.0 && a.1 < b.1)
}

proof fn lemma_shift_mod(secs: int, off: int)
    requires
        off == secs - MIN_SECS,
    ensures
        off % 60 == secs % 60,
{
    assert(MIN_SECS == -138910021920 * 60);
    vstd::arithmetic::div_mod::lemma_mod_add_multiples_vanish(secs, 60);
    assert(off == secs + 138910021920 * 60);
    vstd::arithmetic::div_mod::lemma_mod_multiples_vanish(138910021920, secs, 60);
}

impl Timestamp {
    #[verifier::type_invariant]
    spec fn holds(self) -> bool {
        ts_valid(self.secs, self.nanos)
    }

    /// The point `secs` seconds and `nanos` nanoseconds after the epoch, if `DateTime<Utc>`
    /// can hold it.
    pub fn from_unix(secs: i64, nanos: u32) -> (r: Option<Timestamp>)
        ensures
            r is Some <==> ts_valid(secs, nanos),
            r matches Some(t) ==> t@ == (secs, nanos),
    {
        if secs < MIN_SECS || secs > MAX_SECS || nanos >= 2_000_000_000 {
            return None;
        }
        let off = (secs - MIN_SECS) as u64;
        let within_minute = off % 60;
        proof {
            lemma_shift_mod(secs as int, (secs - MIN_SECS) as int);
        }
        if nanos < 1_000_000_000 || within_minute == 59 {
            Some(Timestamp { secs, nanos })
        } else {
            None
        }
    }

    /// The epoch, 1970-01-01T00:00:00Z.
    pub fn epoch() -> (t: Timestamp)
        ensures
            t@ == (0i64, 0u32),
    {
        Timestamp { secs: 0, nanos: 0 }
    }

    /// Whole seconds since the epoch.
    pub fn secs(&self) -> (r: i64)
        ensures
            r == self@.0,
            MIN_SECS <= r <= MAX_SECS,
    {
        proof {
            use_type_invariant(self);
        }
        self.secs
    }

    /// Nanoseconds within the second.
    pub fn nanos(&self) -> (r: u32)
        ensures
            r == self@.1,
            ts_valid(self@.0, r),
    {
        proof {
            use_type_invariant(self);
        }
        self.nanos
    }

    /// `self` comes at or after `other` (chrono's `>=` on `DateTime<Utc>`).
    pub fn at_or_after(&self, other: &Timestamp) -> (r: bool)
        ensures
            r == !ts_before(self@, other@),
    {
        !(self.secs < other.secs || (self.secs == other.secs && self.nanos < other.nanos))
    }
}

/// The current time (chrono's `Utc::now`).
///
/// Trusted: the result is a point that `DateTime<Utc>` holds; nothing more is claimed.
#[verifier::external_body]
pub(crate) fn now() -> (t: Timestamp) {
    let d = chrono::Utc::now();
    Timestamp { secs: d.timestamp(), nanos: d.timestamp_subsec_nanos() }
}

/// chrono's RFC 3339 text of a point (`to_rfc3339_opts(SecondsFormat::AutoSi, true)`),
/// as `serde` writes a `DateTime<Utc>`.
pub uninterp spec fn spec_rfc3339(t: (i64, u32)) -> Seq<char>;

/// The RFC 3339 text of `t` as chrono writes it (fractional digits only where
/// there are nanoseconds; `Z` for UTC).
///
/// Trusted: the result is named `spec_rfc3339`.
#[verifier::external_body]
pub(crate) fn rfc3339(t: &Timestamp) -> (s: String)
    ensures
        s@ == spec_rfc3339(t@),
{
    match chrono::DateTime::from_timestamp(t.secs, t.nanos) {
        Some(d) => d.to_rfc3339_opts(chrono::SecondsFormat::AutoSi, true),
        None => String::new(),
    }
}

/// chrono's `%Y-%m-%d` text of a point.
pub uninterp spec fn spec_ymd(t: (i64, u32)) -> Seq<char>;

/// The calendar date of `t` as `%Y-%m-%d` (chrono's `format`).
///
/// Trusted: the result is named `spec_ymd`.
#[verifier::external_body]
pub(crate) fn ymd(t: &Timestamp) -> (s: String)
    ensures
        s@ == spec_ymd(t@),
{
    match chrono::DateTime::from_timestamp(t.secs, t.nanos) {
        Some(d) => d.format("%Y-%m-%d").to_string(),
        None => String::new(),
    }
}

/// What `s.parse::<DateTime<FixedOffset>>()` reads from `s`, taken to UTC: the way
/// `serde` reads a `DateTime<Utc>`.
pub uninterp spec fn spec_parse_datetime(s: Seq<char>) -> Option<(i64, u32)>;

/// Reads a date and time as chrono's `FromStr` for `DateTime<FixedOffset>` does, and takes
/// it to UTC.
///
/// Trusted: the result is named `spec_parse_datetime`, and is a point that `DateTime<Utc>`
/// holds; the RFC 3339 text that [`rfc3339`] writes of a point reads back as that point (the
/// reader takes a signed year of any width, a leap second as `60`, any fraction and `Z`).
#[verifier::external_body]
pub(crate) fn parse_datetime(s: &str) -> (r: Option<Timestamp>)
    ensures
        r matches Some(t) ==> spec_parse_datetime(s@) == Some(t@),
        r is None ==> spec_parse_datetime(s@) is None,
        forall|t: (i64, u32)|
            #![trigger spec_rfc3339(t)]
            ts_valid(t.0, t.1) && s@ == spec_rfc3339(t) ==> (r is Some && r->0@ == t),
{
    match s.parse::<chrono::DateTime<chrono::FixedOffset>>() {
        Ok(d) => Some(Timestamp { secs: d.timestamp(), nanos: d.timestamp_subsec_nanos() }),
        Err(_) => None,
    }
}

/// What `DateTime::parse_from_rfc3339` reads from `s`, taken to UTC, or the text of its error.
pub uninterp spec fn spec_parse_rfc3339(s: Seq<char>) -> Result<(i64, u32), Seq<char>>;

/// The values of a parse result.
pub open spec fn parsed_view(r: Result<Timestamp, String>) -> Result<(i64, u32), Seq<char>> {
    match r {
        Ok(t) => Ok(t@),
        Err(e) => Err(e@),
    }
}

/// Reads an RFC 3339 date and time with chrono's `DateTime::parse_from_rfc3339`, taken to UTC;
/// on failure, the text of chrono's error.
///
/// Trusted: the result is named `spec_parse_rfc3339`, and is a point that `DateTime<Utc>`
/// holds; the RFC 3339 text that [`rfc3339`] writes of a point with a four-digit year reads
/// back as that point.
#[verifier::external_body]
pub(crate) fn parse_rfc3339(s: &str) -> (r: Result<Timestamp, String>)
    ensures
        spec_parse_rfc3339(s@) == parsed_view(r),
        forall|t: (i64, u32)|
            #![trigger spec_rfc3339(t)]
            four_digit_year(t) && s@ == spec_rfc3339(t) ==> (r is Ok && r->Ok_0@ == t),
{
    match chrono::DateTime::parse_from_rfc3339(s) {
        Ok(d) => Ok(Timestamp { secs: d.timestamp(), nanos: d.timestamp_subsec_nanos() }),
        Err(e) => Err(e.to_string()),
    }
}

} // verus!
