//! The JSON framing of the wire formats: objects and arrays split into member and element
//! spans, with the value grammar of each span checked by serde_json.

use vstd::prelude::*;
use crate::text::{hex_digit, nibble_char, push_char};

verus! {

/// How the value of a member is checked while an object is split.
///
/// `Buffered(b)`: the value must be one JSON value as serde_json reads it into a
/// `serde_json::Value`, with at most `b` arrays or objects open at once inside it.
/// `Ignored`: the value must be one JSON value as serde_json skips it with `IgnoredAny`.
#[derive(Clone, Copy)]
pub enum Skip {
    Buffered(u32),
    Ignored,
}

/// The length of the first JSON value in `rest` (after leading whitespace), as serde_json's
/// stream reader reads it into a `serde_json::Value`; `None` where it reads no value.
pub uninterp spec fn spec_json_value_len(rest: Seq<u8>) -> Option<usize>;

/// The same, where serde_json skips the value as `serde::de::IgnoredAny`.
pub uninterp spec fn spec_json_ignored_len(rest: Seq<u8>) -> Option<usize>;

/// serde_json's reading of a span as a `String`.
pub uninterp spec fn spec_json_string(span: Seq<u8>) -> Option<Seq<char>>;

/// serde_json's reading of a span as a `u64`.
pub uninterp spec fn spec_json_u64(span: Seq<u8>) -> Option<u64>;

/// serde_json's reading of a span as an `i64`.
pub uninterp spec fn spec_json_i64(span: Seq<u8>) -> Option<i64>;

/// serde_json's reading of a span as a `Vec<String>`.
pub uninterp spec fn spec_json_strings(span: Seq<u8>) -> Option<Seq<Seq<char>>>;


/// Reads the first JSON value of `bytes[start..]` with serde_json's stream reader
/// (`serde_json::Deserializer::from_slice(..).into_iter::<serde_json::Value>()`) and
/// returns how many bytes it took.
///
/// Trusted: the result is named `spec_json_value_len`; the reader's offset lies
/// within the input and past at least one byte of it; where the input starts with a string
/// as [`quoted`] writes it, a `u64` as [`crate::text::dec_of`] writes it, a list of
/// strings as [`string_list`] writes it, or an object of such values under plain keys as
/// [`object_text`] writes it, followed by `,` or `}`, the reader takes exactly that value (a
/// string, list or object ends at its closing quote, bracket or brace, a number at the first
/// byte that cannot continue it, which `,` and `}` may follow).
#[verifier::external_body]
fn json_value_len(bytes: &[u8], start: usize) -> (n: Option<usize>)
    requires
        start <= bytes@.len(),
    ensures
        n == spec_json_value_len(bytes@.subrange(start as int, bytes@.len() as int)),
        n matches Some(k) ==> 1 <= k <= bytes@.len() - start,
        forall|t: Seq<char>, tail: Seq<u8>|
            #![trigger vstd::utf8::encode_utf8(quoted(t)) + tail]
            bytes@.subrange(start as int, bytes@.len() as int) == vstd::utf8::encode_utf8(quoted(t)) + tail
                && tail.len() > 0 && (tail[0] == 44 || tail[0] == 125)
                ==> n == Some(vstd::utf8::encode_utf8(quoted(t)).len() as usize),
        forall|v: u64, tail: Seq<u8>|
            #![trigger vstd::utf8::encode_utf8(crate::text::dec_of(v as nat)) + tail]
            bytes@.subrange(start as int, bytes@.len() as int) == vstd::utf8::encode_utf8(crate::text::dec_of(v as nat))
                + tail && tail.len() > 0 && (tail[0] == 44 || tail[0] == 125)
                ==> n == Some(vstd::utf8::encode_utf8(crate::text::dec_of(v as nat)).len() as usize),
        forall|items: Seq<Seq<char>>, tail: Seq<u8>|
            #![trigger vstd::utf8::encode_utf8(string_list(items)) + tail]
            bytes@.subrange(start as int, bytes@.len() as int) == vstd::utf8::encode_utf8(string_list(items)) + tail
                && tail.len() > 0 && (tail[0] == 44 || tail[0] == 125)
                ==> n == Some(vstd::utf8::encode_utf8(string_list(items)).len() as usize),
        forall|ms: Seq<(Seq<char>, Written)>, tail: Seq<u8>|
            #![trigger vstd::utf8::encode_utf8(object_text(ms)) + tail]
            flat_members(ms) && bytes@.subrange(start as int, bytes@.len() as int) == vstd::utf8::encode_utf8(
                object_text(ms),
            ) + tail && tail.len() > 0 && (tail[0] == 44 || tail[0] == 125)
                ==> n == Some(vstd::utf8::encode_utf8(object_text(ms)).len() as usize),
{
    let mut it = serde_json::Deserializer::from_slice(&bytes[start..]).into_iter::<serde_json::Value>();
    match it.next() {
        Some(Ok(_)) => Some(it.byte_offset()),
        _ => None,
    }
}

/// The same with `serde::de::IgnoredAny` in place of `serde_json::Value`.
///
/// Trusted: the result is named `spec_json_ignored_len`; the reader's offset lies
/// within the input and past at least one byte of it; where the input starts with a string
/// as [`quoted`] writes it, or an integer as [`crate::text::idec_of`] writes it, followed by
/// `,` or `}`, the reader takes exactly that value (a string ends at its closing quote, an
/// integer at the first byte that cannot continue it, which `,` and `}` may follow).
#[verifier::external_body]
fn json_ignored_len(bytes: &[u8], start: usize) -> (n: Option<usize>)
    requires
        start <= bytes@.len(),
    ensures
        n == spec_json_ignored_len(bytes@.subrange(start as int, bytes@.len() as int)),
        n matches Some(k) ==> 1 <= k <= bytes@.len() - start,
        forall|t: Seq<char>, tail: Seq<u8>|
            #![trigger vstd::utf8::encode_utf8(quoted(t)) + tail]
            bytes@.subrange(start as int, bytes@.len() as int) == vstd::utf8::encode_utf8(quoted(t)) + tail
                && tail.len() > 0 && (tail[0] == 44 || tail[0] == 125)
                ==> n == Some(vstd::utf8::encode_utf8(quoted(t)).len() as usize),
        forall|i: i64, tail: Seq<u8>|
            #![trigger vstd::utf8::encode_utf8(crate::text::idec_of(i as int)) + tail]
            bytes@.subrange(start as int, bytes@.len() as int) == vstd::utf8::encode_utf8(
                crate::text::idec_of(i as int),
            ) + tail && tail.len() > 0 && (tail[0] == 44 || tail[0] == 125)
                ==> n == Some(vstd::utf8::encode_utf8(crate::text::idec_of(i as int)).len() as usize),
{
    let mut it = serde_json::Deserializer::from_slice(&bytes[start..]).into_iter::<serde::de::IgnoredAny>();
    match it.next() {
        Some(Ok(_)) => Some(it.byte_offset()),
        _ => None,
    }
}

/// `serde_json::from_slice::<String>` on `bytes[start..end]`.
///
/// Trusted: the result is named `spec_json_string`; a string as [`quoted`] writes it reads
/// back as that string.
#[verifier::external_body]
pub(crate) fn json_string(bytes: &[u8], start: usize, end: usize) -> (r: Option<String>)
    requires
        start <= end <= bytes@.len(),
    ensures
        forall|t: Seq<char>|
            #![trigger vstd::utf8::encode_utf8(quoted(t))]
            bytes@.subrange(start as int, end as int) == vstd::utf8::encode_utf8(quoted(t)) ==> (r is Some
                && r->0@ == t),
        r matches Some(s) ==> spec_json_string(bytes@.subrange(start as int, end as int)) == Some(s@),
        r is None ==> spec_json_string(bytes@.subrange(start as int, end as int)) is None,
{
    serde_json::from_slice::<String>(&bytes[start..end]).ok()
}

/// `serde_json::from_slice::<u64>` on `bytes[start..end]`.
///
/// Trusted: the result is named `spec_json_u64`; a number as [`crate::text::dec_of`]
/// writes it reads back as that number.
#[verifier::external_body]
pub(crate) fn json_u64(bytes: &[u8], start: usize, end: usize) -> (r: Option<u64>)
    requires
        start <= end <= bytes@.len(),
    ensures
        r == spec_json_u64(bytes@.subrange(start as int, end as int)),
        forall|v: u64|
            #![trigger vstd::utf8::encode_utf8(crate::text::dec_of(v as nat))]
            bytes@.subrange(start as int, end as int) == vstd::utf8::encode_utf8(crate::text::dec_of(v as nat))
                ==> r == Some(v),
{
    serde_json::from_slice::<u64>(&bytes[start..end]).ok()
}

/// `serde_json::from_slice::<i64>` on `bytes[start..end]`.
///
/// Trusted: the result is named `spec_json_i64`; an integer as [`crate::text::idec_of`]
/// writes it reads back as that integer.
#[verifier::external_body]
pub(crate) fn json_i64(bytes: &[u8], start: usize, end: usize) -> (r: Option<i64>)
    requires
        start <= end <= bytes@.len(),
    ensures
        forall|i: i64|
            #![trigger vstd::utf8::encode_utf8(crate::text::idec_of(i as int))]
            bytes@.subrange(start as int, end as int) == vstd::utf8::encode_utf8(crate::text::idec_of(i as int))
                ==> r == Some(i),
        r == spec_json_i64(bytes@.subrange(start as int, end as int)),
{
    serde_json::from_slice::<i64>(&bytes[start..end]).ok()
}

/// The views of a list of strings.
pub open spec fn strings_view(v: Seq<String>) -> Seq<Seq<char>> {
    v.map_values(|s: String| s@)
}

/// `serde_json::from_slice::<Vec<String>>` on `bytes[start..end]`.
///
/// Trusted: the result is named `spec_json_strings`; a list as [`string_list`] writes it
/// reads back as that list.
#[verifier::external_body]
pub(crate) fn json_strings(bytes: &[u8], start: usize, end: usize) -> (r: Option<Vec<String>>)
    requires
        start <= end <= bytes@.len(),
    ensures
        forall|items: Seq<Seq<char>>|
            #![trigger vstd::utf8::encode_utf8(string_list(items))]
            bytes@.subrange(start as int, end as int) == vstd::utf8::encode_utf8(string_list(items)) ==> (r is Some
                && strings_view(r->0@) == items),
        r matches Some(v) ==> spec_json_strings(bytes@.subrange(start as int, end as int))
            == Some(strings_view(v@)),
        r is None ==> spec_json_strings(bytes@.subrange(start as int, end as int)) is None,
{
    serde_json::from_slice::<Vec<String>>(&bytes[start..end]).ok()
}

pub open spec fn is_ws(b: u8) -> bool {
    b == 32 || b == 9 || b == 10 || b == 13
}

/// The first position at or after `i` that is not JSON whitespace.
pub open spec fn skip_ws(s: Seq<u8>, i: int) -> int
    decreases s.len() - i,
{
    if 0 <= i < s.len() && is_ws(s[i]) {
        skip_ws(s, i + 1)
    } else {
        i
    }
}

/// The position just past the closing quote of a string whose content starts at `j`
/// (a backslash takes the byte after it along).
pub open spec fn str_close(s: Seq<u8>, j: int) -> Option<int>
    decreases s.len() - j,
{
    if j < 0 || j >= s.len() {
        None
    } else if s[j] == 34 {
        Some(j + 1)
    } else if s[j] == 92 {
        if j + 2 > s.len() {
            None
        } else {
            str_close(s, j + 2)
        }
    } else {
        str_close(s, j + 1)
    }
}

/// Scanning `s[i..end]` from the given state, no more than `b` arrays or objects are
/// open at once outside strings.
pub open spec fn nest_within(
    s: Seq<u8>,
    i: int,
    end: int,
    in_str: bool,
    esc: bool,
    d: int,
    b: int,
) -> bool
    decreases end - i,
{
    if i >= end || i < 0 || end > s.len() {
        true
    } else {
        let c = s[i];
        if in_str {
            if esc {
                nest_within(s, i + 1, end, true, false, d, b)
            } else if c == 92 {
                nest_within(s, i + 1, end, true, true, d, b)
            } else if c == 34 {
                nest_within(s, i + 1, end, false, false, d, b)
            } else {
                nest_within(s, i + 1, end, true, false, d, b)
            }
        } else if c == 34 {
            nest_within(s, i + 1, end, true, false, d, b)
        } else if c == 91 || c == 123 {
            d + 1 <= b && nest_within(s, i + 1, end, false, false, d + 1, b)
        } else if c == 93 || c == 125 {
            nest_within(s, i + 1, end, false, false, if d > 0 { d - 1 } else { 0 }, b)
        } else {
            nest_within(s, i + 1, end, false, false, d, b)
        }
    }
}

/// The end of the member or element value that starts at `i`.
pub open spec fn value_end(s: Seq<u8>, i: int, skip: Skip) -> Option<int> {
    if i < 0 || i > s.len() {
        None
    } else {
        match skip {
            Skip::Buffered(b) => match spec_json_value_len(s.subrange(i, s.len() as int)) {
                Some(n) => if i + n <= s.len() && nest_within(s, i, i + n, false, false, 0, b as int) {
                    Some(i + n)
                } else {
                    None
                },
                None => None,
            },
            Skip::Ignored => match spec_json_ignored_len(s.subrange(i, s.len() as int)) {
                Some(n) => if i + n <= s.len() {
                    Some(i + n)
                } else {
                    None
                },
                None => None,
            },
        }
    }
}

/// Where the member or element value at `i` is a string as [`quoted`] writes it, or an
/// integer as [`crate::text::idec_of`] writes it, followed by `,` or `}`, that value is where
/// the skipping reader stops.
#[verifier::opaque]
pub open spec fn ignored_fact(s: Seq<u8>, i: int) -> bool {
    &&& forall|t: Seq<char>, tail: Seq<u8>|
        #![trigger vstd::utf8::encode_utf8(quoted(t)) + tail]
        0 <= i <= s.len() && s.subrange(i, s.len() as int) == vstd::utf8::encode_utf8(quoted(t)) + tail
            && tail.len() > 0 && (tail[0] == 44 || tail[0] == 125)
            ==> value_end(s, i, Skip::Ignored) == Some(i + vstd::utf8::encode_utf8(quoted(t)).len())
    &&& forall|n: i64, tail: Seq<u8>|
        #![trigger vstd::utf8::encode_utf8(crate::text::idec_of(n as int)) + tail]
        0 <= i <= s.len() && s.subrange(i, s.len() as int) == vstd::utf8::encode_utf8(crate::text::idec_of(n as int))
            + tail && tail.len() > 0 && (tail[0] == 44 || tail[0] == 125)
            ==> value_end(s, i, Skip::Ignored) == Some(i + vstd::utf8::encode_utf8(crate::text::idec_of(n as int)).len())
}

/// A span that holds a string as [`quoted`] writes it reads back as that string.
pub open spec fn string_fact(s: Seq<u8>, a: int, b: int) -> bool {
    forall|t: Seq<char>|
        #![trigger vstd::utf8::encode_utf8(quoted(t))]
        s.subrange(a, b) == vstd::utf8::encode_utf8(quoted(t)) ==> spec_json_string(s.subrange(a, b)) == Some(t)
}

/// A span that holds an integer as [`crate::text::idec_of`] writes it reads back as that
/// integer.
pub open spec fn i64_fact(s: Seq<u8>, a: int, b: int) -> bool {
    forall|n: i64|
        #![trigger vstd::utf8::encode_utf8(crate::text::idec_of(n as int))]
        s.subrange(a, b) == vstd::utf8::encode_utf8(crate::text::idec_of(n as int)) ==> spec_json_i64(s.subrange(a, b))
            == Some(n)
}

/// What is known of the reader at the value position `i`: [`ignored_fact`] or
/// [`buffered_fact`], as `skip` says.
pub open spec fn value_fact(s: Seq<u8>, i: int, skip: Skip) -> bool {
    match skip {
        Skip::Ignored => ignored_fact(s, i),
        Skip::Buffered(b) => buffered_fact(s, i, b),
    }
}

/// A span that holds a number as [`crate::text::dec_of`] writes it reads back as that number.
pub open spec fn u64_fact(s: Seq<u8>, a: int, b: int) -> bool {
    forall|v: u64|
        #![trigger vstd::utf8::encode_utf8(crate::text::dec_of(v as nat))]
        s.subrange(a, b) == vstd::utf8::encode_utf8(crate::text::dec_of(v as nat)) ==> spec_json_u64(s.subrange(a, b))
            == Some(v)
}

/// A span that holds a list as [`string_list`] writes it reads back as that list.
pub open spec fn strings_fact(s: Seq<u8>, a: int, b: int) -> bool {
    forall|items: Seq<Seq<char>>|
        #![trigger vstd::utf8::encode_utf8(string_list(items))]
        s.subrange(a, b) == vstd::utf8::encode_utf8(string_list(items)) ==> spec_json_strings(s.subrange(a, b))
            == Some(items)
}

/// [`value_fact`] at every value position that [`members`] reads from `k` on.
#[verifier::opaque]
pub open spec fn members_facts(s: Seq<u8>, k: int, skip: Skip) -> bool
    decreases s.len() - k,
{
    if k < 0 || k >= s.len() || s[k] != 34 {
        true
    } else {
        match str_close(s, k + 1) {
            None => true,
            Some(ke) => {
                let c = skip_ws(s, ke);
                if c < 0 || c >= s.len() || s[c] != 58 {
                    true
                } else {
                    let vs = skip_ws(s, c + 1);
                    value_fact(s, vs, skip) && match value_end(s, vs, skip) {
                        None => true,
                        Some(ve) => {
                            let n = skip_ws(s, ve);
                            if 0 <= n < s.len() && s[n] == 44 {
                                let k2 = skip_ws(s, n + 1);
                                if k2 <= k || k2 > s.len() {
                                    true
                                } else {
                                    members_facts(s, k2, skip)
                                }
                            } else {
                                true
                            }
                        },
                    }
                }
            },
        }
    }
}

/// A member of an object: key span and value span.
pub type MemberSpan = (int, int, int, int);

pub open spec fn prepend<T>(first: Seq<T>, r: Option<(Seq<T>, int)>) -> Option<(Seq<T>, int)> {
    match r {
        Some(p) => Some((first + p.0, p.1)),
        None => None,
    }
}

pub open spec fn items_of<T>(r: Option<(Seq<T>, int)>) -> Seq<T> {
    match r {
        Some(p) => p.0,
        None => Seq::empty(),
    }
}

/// The members of an object from the member that starts at `k` up to the closing brace,
/// and the position after that brace.
pub open spec fn members(s: Seq<u8>, k: int, skip: Skip) -> Option<(Seq<MemberSpan>, int)>
    decreases s.len() - k,
{
    if k < 0 || k >= s.len() || s[k] != 34 {
        None
    } else {
        match str_close(s, k + 1) {
            None => None,
            Some(ke) => {
                let c = skip_ws(s, ke);
                if c < 0 || c >= s.len() || s[c] != 58 {
                    None
                } else {
                    let vs = skip_ws(s, c + 1);
                    match value_end(s, vs, skip) {
                        None => None,
                        Some(ve) => {
                            let n = skip_ws(s, ve);
                            if 0 <= n < s.len() && s[n] == 44 {
                                let k2 = skip_ws(s, n + 1);
                                if k2 <= k || k2 > s.len() {
                                    None
                                } else {
                                    prepend(seq![(k, ke, vs, ve)], members(s, k2, skip))
                                }
                            } else if 0 <= n < s.len() && s[n] == 125 {
                                Some((seq![(k, ke, vs, ve)], n + 1))
                            } else {
                                None
                            }
                        },
                    }
                }
            },
        }
    }
}

/// The members of an object whose opening brace is just before `j`.
pub open spec fn object_body(s: Seq<u8>, j: int, skip: Skip) -> Option<(Seq<MemberSpan>, int)> {
    let k = skip_ws(s, j);
    if 0 <= k < s.len() && s[k] == 125 {
        Some((Seq::empty(), k + 1))
    } else {
        members(s, k, skip)
    }
}

/// The elements of an array from the element that starts at `k` up to the closing bracket.
pub open spec fn elements(s: Seq<u8>, k: int, skip: Skip) -> Option<(Seq<(int, int)>, int)>
    decreases s.len() - k,
{
    if k < 0 || k > s.len() {
        None
    } else {
        match value_end(s, k, skip) {
            None => None,
            Some(e) => {
                let n = skip_ws(s, e);
                if 0 <= n < s.len() && s[n] == 44 {
                    let k2 = skip_ws(s, n + 1);
                    if k2 <= k || k2 > s.len() {
                        None
                    } else {
                        prepend(seq![(k, e)], elements(s, k2, skip))
                    }
                } else if 0 <= n < s.len() && s[n] == 93 {
                    Some((seq![(k, e)], n + 1))
                } else {
                    None
                }
            },
        }
    }
}

/// The elements of an array whose opening bracket is just before `j`.
pub open spec fn array_body(s: Seq<u8>, j: int, skip: Skip) -> Option<(Seq<(int, int)>, int)> {
    let k = skip_ws(s, j);
    if 0 <= k < s.len() && s[k] == 93 {
        Some((Seq::empty(), k + 1))
    } else {
        elements(s, k, skip)
    }
}

pub proof fn lemma_skip_ws(s: Seq<u8>, i: int)
    requires
        0 <= i <= s.len(),
    ensures
        i <= skip_ws(s, i) <= s.len(),
    decreases s.len() - i,
{
    if i < s.len() && is_ws(s[i]) {
        lemma_skip_ws(s, i + 1);
    }
}

/// The first position at or after `i` that is not JSON whitespace.
pub fn skip_ws_x(s: &[u8], i: usize) -> (r: usize)
    requires
        i <= s@.len(),
    ensures
        r as int == skip_ws(s@, i as int),
        i <= r <= s@.len(),
{
    let mut j = i;
    while j < s.len() && (s[j] == 32 || s[j] == 9 || s[j] == 10 || s[j] == 13)
        invariant
            i <= j <= s@.len(),
            skip_ws(s@, i as int) == skip_ws(s@, j as int),
        decreases s@.len() - j,
    {
        j = j + 1;
    }
    j
}

/// The position just past the closing quote of a string whose content starts at `j`.
pub fn str_close_x(s: &[u8], j: usize) -> (r: Option<usize>)
    requires
        j <= s@.len(),
    ensures
        r matches Some(e) ==> str_close(s@, j as int) == Some(e as int) && j < e <= s@.len(),
        r is None ==> str_close(s@, j as int) is None,
{
    let mut k = j;
    while k < s.len()
        invariant
            j <= k <= s@.len(),
            str_close(s@, j as int) == str_close(s@, k as int),
        decreases s@.len() - k,
    {
        if s[k] == 34 {
            return Some(k + 1);
        } else if s[k] == 92 {
            if s.len() - k < 2 {
                return None;
            }
            k = k + 2;
        } else {
            k = k + 1;
        }
    }
    None
}

/// Whether no more than `b` arrays or objects are open at once in `s[start..end]`.
fn nest_within_x(s: &[u8], start: usize, end: usize, b: u32) -> (ok: bool)
    requires
        start <= end <= s@.len(),
    ensures
        ok == nest_within(s@, start as int, end as int, false, false, 0, b as int),
{
    let mut i = start;
    let mut in_str = false;
    let mut esc = false;
    let mut d: u64 = 0;
    while i < end
        invariant
            start <= i <= end <= s@.len(),
            d <= b,
            esc ==> in_str,
            nest_within(s@, start as int, end as int, false, false, 0, b as int)
                == nest_within(s@, i as int, end as int, in_str, esc, d as int, b as int),
        decreases end - i,
    {
        let c = s[i];
        let ghost st = (in_str, esc, d as int);
        if in_str {
            if esc {
                esc = false;
            } else if c == 92 {
                esc = true;
            } else if c == 34 {
                in_str = false;
            }
        } else if c == 34 {
            in_str = true;
        } else if c == 91 || c == 123 {
            if d + 1 > b as u64 {
                return false;
            }
            d = d + 1;
        } else if c == 93 || c == 125 {
            if d > 0 {
                d = d - 1;
            }
        }
        assert(nest_within(s@, i as int, end as int, st.0, st.1, st.2, b as int)
            == nest_within(s@, i + 1, end as int, in_str, esc, d as int, b as int));
        i = i + 1;
    }
    true
}


/// The end of the member or element value that starts at `i`.
pub fn value_end_x(s: &[u8], i: usize, skip: Skip) -> (r: Option<usize>)
    requires
        i <= s@.len(),
    ensures
        r matches Some(e) ==> value_end(s@, i as int, skip) == Some(e as int) && i < e <= s@.len(),
        r is None ==> value_end(s@, i as int, skip) is None,
        skip == Skip::Ignored ==> ignored_fact(s@, i as int),
        skip matches Skip::Buffered(b) ==> buffered_fact(s@, i as int, b),
{
    proof {
        reveal(ignored_fact);
        reveal(buffered_fact);
    }
    let len = s.len();
    match skip {
        Skip::Buffered(b) => {
            let got = json_value_len(s, i);
            proof {
                assert forall|t: Seq<char>, tail: Seq<u8>|
                    0 <= i <= s@.len() && s@.subrange(i as int, s@.len() as int) == #[trigger] (
                    vstd::utf8::encode_utf8(quoted(t)) + tail) && tail.len() > 0 && (tail[0] == 44 || tail[0]
                        == 125) implies value_end(s@, i as int, Skip::Buffered(b)) == Some(
                    i + vstd::utf8::encode_utf8(quoted(t)).len(),
                ) by {
                    let l = vstd::utf8::encode_utf8(quoted(t)).len() as int;
                    assert((vstd::utf8::encode_utf8(quoted(t)) + tail).len() == s@.len() - i);
                    assert(s@.subrange(i as int, i + l) =~= (vstd::utf8::encode_utf8(quoted(t)) + tail).subrange(0, l));
                    assert((vstd::utf8::encode_utf8(quoted(t)) + tail).subrange(0, l) =~= vstd::utf8::encode_utf8(quoted(t)));
                    lemma_nest_quoted(s@, i as int, t, i + l, 0, b as int);
                }
                assert forall|v: u64, tail: Seq<u8>|
                    0 <= i <= s@.len() && s@.subrange(i as int, s@.len() as int) == #[trigger] (
                    vstd::utf8::encode_utf8(crate::text::dec_of(v as nat)) + tail) && tail.len() > 0 && (tail[0]
                        == 44 || tail[0] == 125) implies value_end(s@, i as int, Skip::Buffered(b)) == Some(
                    i + vstd::utf8::encode_utf8(crate::text::dec_of(v as nat)).len(),
                ) by {
                    let w = vstd::utf8::encode_utf8(crate::text::dec_of(v as nat));
                    let l = w.len() as int;
                    assert((w + tail).len() == s@.len() - i);
                    assert(s@.subrange(i as int, i + l) =~= (w + tail).subrange(0, l));
                    assert((w + tail).subrange(0, l) =~= w);
                    lemma_nest_dec(s@, i as int, v as nat, i + l, 0, b as int);
                }
                assert forall|items: Seq<Seq<char>>, tail: Seq<u8>|
                    1 <= b && 0 <= i <= s@.len() && s@.subrange(i as int, s@.len() as int) == #[trigger] (
                    vstd::utf8::encode_utf8(string_list(items)) + tail) && tail.len() > 0 && (tail[0] == 44
                        || tail[0] == 125) implies value_end(s@, i as int, Skip::Buffered(b)) == Some(
                    i + vstd::utf8::encode_utf8(string_list(items)).len(),
                ) by {
                    let w = vstd::utf8::encode_utf8(string_list(items));
                    let l = w.len() as int;
                    assert((w + tail).len() == s@.len() - i);
                    assert(s@.subrange(i as int, i + l) =~= (w + tail).subrange(0, l));
                    assert((w + tail).subrange(0, l) =~= w);
                    lemma_nest_list(s@, i as int, items, i + l, 0, b as int);
                }
                assert forall|ms: Seq<(Seq<char>, Written)>, tail: Seq<u8>|
                    2 <= b && flat_members(ms) && 0 <= i <= s@.len() && s@.subrange(i as int, s@.len() as int)
                        == #[trigger] (vstd::utf8::encode_utf8(object_text(ms)) + tail) && tail.len() > 0 && (tail[0]
                        == 44 || tail[0] == 125) implies value_end(s@, i as int, Skip::Buffered(b)) == Some(
                    i + vstd::utf8::encode_utf8(object_text(ms)).len(),
                ) by {
                    let w = vstd::utf8::encode_utf8(object_text(ms));
                    let l = w.len() as int;
                    assert((w + tail).len() == s@.len() - i);
                    assert(s@.subrange(i as int, i + l) =~= (w + tail).subrange(0, l));
                    assert((w + tail).subrange(0, l) =~= w);
                    lemma_nest_object(s@, i as int, ms, i + l, b as int);
                }
            }
            match got {
                Some(n) => {
                    if nest_within_x(s, i, i + n, b) {
                        Some(i + n)
                    } else {
                        None
                    }
                },
                None => None,
            }
        },
        Skip::Ignored => {
            let got = json_ignored_len(s, i);
            proof {
                assert forall|t: Seq<char>, tail: Seq<u8>|
                    0 <= i <= s@.len() && s@.subrange(i as int, s@.len() as int) == #[trigger] (
                    vstd::utf8::encode_utf8(quoted(t)) + tail) && tail.len() > 0 && (tail[0] == 44 || tail[0]
                        == 125) implies value_end(s@, i as int, Skip::Ignored) == Some(
                    i + vstd::utf8::encode_utf8(quoted(t)).len(),
                ) by {
                    assert((vstd::utf8::encode_utf8(quoted(t)) + tail).len() == s@.len() - i);
                    assert(got == Some(vstd::utf8::encode_utf8(quoted(t)).len() as usize));
                }
                assert forall|m: i64, tail: Seq<u8>|
                    0 <= i <= s@.len() && s@.subrange(i as int, s@.len() as int) == #[trigger] (
                    vstd::utf8::encode_utf8(crate::text::idec_of(m as int)) + tail) && tail.len() > 0 && (tail[0]
                        == 44 || tail[0] == 125) implies value_end(s@, i as int, Skip::Ignored) == Some(
                    i + vstd::utf8::encode_utf8(crate::text::idec_of(m as int)).len(),
                ) by {
                    assert((vstd::utf8::encode_utf8(crate::text::idec_of(m as int)) + tail).len() == s@.len() - i);
                    assert(got == Some(vstd::utf8::encode_utf8(crate::text::idec_of(m as int)).len() as usize));
                }
            }
            match got {
                Some(n) => Some(i + n),
                None => None,
            }
        },
    }
}

/// A member of an object as byte positions: the key's span and the value's span.
#[derive(Clone, Copy)]
pub struct Member {
    pub key_start: usize,
    pub key_end: usize,
    pub val_start: usize,
    pub val_end: usize,
}

impl Member {
    pub open spec fn span(self) -> MemberSpan {
        (self.key_start as int, self.key_end as int, self.val_start as int, self.val_end as int)
    }
}

pub open spec fn member_spans(v: Seq<Member>) -> Seq<MemberSpan> {
    v.map_values(|m: Member| m.span())
}

pub open spec fn pair_spans(v: Seq<(usize, usize)>) -> Seq<(int, int)> {
    v.map_values(|p: (usize, usize)| (p.0 as int, p.1 as int))
}

/// The members of an object whose opening brace is just before `j`, and the position
/// after its closing brace.
pub fn object_body_x(s: &[u8], j: usize, skip: Skip) -> (r: Option<(Vec<Member>, usize)>)
    requires
        j <= s@.len(),
    ensures
        r matches Some(p) ==> object_body(s@, j as int, skip) == Some((member_spans(p.0@), p.1 as int))
            && p.1 <= s@.len(),
        r is None ==> object_body(s@, j as int, skip) is None,
        members_facts(s@, skip_ws(s@, j as int), skip),
{
    proof {
        reveal(members_facts);
    }
    let mut k = skip_ws_x(s, j);
    if k < s.len() && s[k] == 125 {
        assert(member_spans(Seq::<Member>::empty()) =~= Seq::empty());
        return Some((Vec::new(), k + 1));
    }
    let mut acc: Vec<Member> = Vec::new();
    loop
        invariant
            j <= k <= s@.len(),
            object_body(s@, j as int, skip) == prepend(member_spans(acc@), members(s@, k as int, skip)),
            members_facts(s@, k as int, skip) ==> members_facts(s@, skip_ws(s@, j as int), skip),
        decreases s@.len() - k,
    {
        proof {
            reveal(members_facts);
        }
        let ghost acc0 = member_spans(acc@);
        if k >= s.len() || s[k] != 34 {
            return None;
        }
        let ke = match str_close_x(s, k + 1) {
            Some(e) => e,
            None => { return None; },
        };
        let c = skip_ws_x(s, ke);
        if c >= s.len() || s[c] != 58 {
            return None;
        }
        let vs = skip_ws_x(s, c + 1);
        let ve = match value_end_x(s, vs, skip) {
            Some(e) => e,
            None => { return None; },
        };
        let n = skip_ws_x(s, ve);
        let m = Member { key_start: k, key_end: ke, val_start: vs, val_end: ve };
        acc.push(m);
        assert(member_spans(acc@) =~= acc0 + seq![(k as int, ke as int, vs as int, ve as int)]);
        if n < s.len() && s[n] == 44 {
            let k2 = skip_ws_x(s, n + 1);
            assert(acc0 + (seq![(k as int, ke as int, vs as int, ve as int)] + items_of(members(s@, k2 as int, skip)))
                =~= member_spans(acc@) + items_of(members(s@, k2 as int, skip)));
            k = k2;
        } else if n < s.len() && s[n] == 125 {
            assert(acc0 + seq![(k as int, ke as int, vs as int, ve as int)] =~= member_spans(acc@));
            return Some((acc, n + 1));
        } else {
            return None;
        }
    }
}

/// The elements of an array whose opening bracket is just before `j`, and the position
/// after its closing bracket.
pub fn array_body_x(s: &[u8], j: usize, skip: Skip) -> (r: Option<(Vec<(usize, usize)>, usize)>)
    requires
        j <= s@.len(),
    ensures
        r matches Some(p) ==> array_body(s@, j as int, skip) == Some((pair_spans(p.0@), p.1 as int))
            && p.1 <= s@.len(),
        r is None ==> array_body(s@, j as int, skip) is None,
{
    let mut k = skip_ws_x(s, j);
    if k < s.len() && s[k] == 93 {
        assert(pair_spans(Seq::<(usize, usize)>::empty()) =~= Seq::empty());
        return Some((Vec::new(), k + 1));
    }
    let mut acc: Vec<(usize, usize)> = Vec::new();
    loop
        invariant
            j <= k <= s@.len(),
            array_body(s@, j as int, skip) == prepend(pair_spans(acc@), elements(s@, k as int, skip)),
        decreases s@.len() - k,
    {
        let ghost acc0 = pair_spans(acc@);
        let e = match value_end_x(s, k, skip) {
            Some(e) => e,
            None => { return None; },
        };
        let n = skip_ws_x(s, e);
        acc.push((k, e));
        assert(pair_spans(acc@) =~= acc0 + seq![(k as int, e as int)]);
        if n < s.len() && s[n] == 44 {
            let k2 = skip_ws_x(s, n + 1);
            assert(acc0 + (seq![(k as int, e as int)] + items_of(elements(s@, k2 as int, skip)))
                =~= pair_spans(acc@) + items_of(elements(s@, k2 as int, skip)));
            k = k2;
        } else if n < s.len() && s[n] == 93 {
            assert(acc0 + seq![(k as int, e as int)] =~= pair_spans(acc@));
            return Some((acc, n + 1));
        } else {
            return None;
        }
    }
}


/// The members of the one object that makes up all of `s` (whitespace aside).
pub open spec fn document_object(s: Seq<u8>, skip: Skip) -> Option<Seq<MemberSpan>> {
    let i = skip_ws(s, 0);
    if 0 <= i < s.len() && s[i] == 123 {
        match object_body(s, i + 1, skip) {
            Some(p) => if skip_ws(s, p.1) == s.len() {
                Some(p.0)
            } else {
                None
            },
            None => None,
        }
    } else {
        None
    }
}

/// The elements of the one array that makes up all of `s` (whitespace aside).
pub open spec fn document_array(s: Seq<u8>, skip: Skip) -> Option<Seq<(int, int)>> {
    let i = skip_ws(s, 0);
    if 0 <= i < s.len() && s[i] == 91 {
        match array_body(s, i + 1, skip) {
            Some(p) => if skip_ws(s, p.1) == s.len() {
                Some(p.0)
            } else {
                None
            },
            None => None,
        }
    } else {
        None
    }
}

/// Whether `s` begins (after whitespace) with an opening bracket.
pub open spec fn starts_array(s: Seq<u8>) -> bool {
    let i = skip_ws(s, 0);
    0 <= i < s.len() && s[i] == 91
}

/// The members of the object that makes up all of `s`.
pub fn document_object_x(s: &[u8], skip: Skip) -> (r: Option<Vec<Member>>)
    ensures
        r matches Some(v) ==> document_object(s@, skip) == Some(member_spans(v@))
            && spans_within(member_spans(v@), s@.len() as int),
        r is None ==> document_object(s@, skip) is None,
        skip_ws(s@, 0) < s@.len() && s@[skip_ws(s@, 0)] == 123 ==> members_facts(
            s@,
            skip_ws(s@, skip_ws(s@, 0) + 1),
            skip,
        ),
{
    let i = skip_ws_x(s, 0);
    if i < s.len() && s[i] == 123 {
        match object_body_x(s, i + 1, skip) {
            Some(p) => {
                let (v, e) = p;
                if skip_ws_x(s, e) == s.len() {
                    proof { lemma_object_body_within(s@, (i + 1) as int, skip); }
                    Some(v)
                } else {
                    None
                }
            },
            None => None,
        }
    } else {
        None
    }
}

/// Whether `s` begins (after whitespace) with an opening bracket.
pub fn starts_array_x(s: &[u8]) -> (r: bool)
    ensures
        r == starts_array(s@),
{
    let i = skip_ws_x(s, 0);
    i < s.len() && s[i] == 91
}

/// The elements of the array that makes up all of `s`.
pub fn document_array_x(s: &[u8], skip: Skip) -> (r: Option<Vec<(usize, usize)>>)
    ensures
        r matches Some(v) ==> document_array(s@, skip) == Some(pair_spans(v@))
            && pairs_within(pair_spans(v@), s@.len() as int),
        r is None ==> document_array(s@, skip) is None,
{
    let i = skip_ws_x(s, 0);
    if i < s.len() && s[i] == 91 {
        match array_body_x(s, i + 1, skip) {
            Some(p) => {
                let (v, e) = p;
                if skip_ws_x(s, e) == s.len() {
                    proof { lemma_array_body_within(s@, (i + 1) as int, skip); }
                    Some(v)
                } else {
                    None
                }
            },
            None => None,
        }
    } else {
        None
    }
}

/// Every member span lies within `0..n`, key and value each in order.
pub open spec fn spans_within(ms: Seq<MemberSpan>, n: int) -> bool {
    forall|i: int| 0 <= i < ms.len() ==> 0 <= (#[trigger] ms[i]).0 <= ms[i].1 <= n && 0 <= ms[i].2 <= ms[i].3 <= n
}

/// Every span lies within `0..n`, in order.
pub open spec fn pairs_within(ps: Seq<(int, int)>, n: int) -> bool {
    forall|i: int| 0 <= i < ps.len() ==> 0 <= (#[trigger] ps[i]).0 <= ps[i].1 <= n
}

pub proof fn lemma_members_within(s: Seq<u8>, k: int, skip: Skip)
    ensures
        members(s, k, skip) matches Some(p) ==> spans_within(p.0, s.len() as int) && p.1 <= s.len(),
    decreases s.len() - k,
{
    if k < 0 || k >= s.len() || s[k] != 34 {
    } else {
        match str_close(s, k + 1) {
            None => {},
            Some(ke) => {
                lemma_str_close(s, k + 1);
                let c = skip_ws(s, ke);
                lemma_skip_ws(s, ke);
                if c < 0 || c >= s.len() || s[c] != 58 {
                } else {
                    let vs = skip_ws(s, c + 1);
                    lemma_skip_ws(s, c + 1);
                    match value_end(s, vs, skip) {
                        None => {},
                        Some(ve) => {
                            lemma_value_end(s, vs, skip);
                            let n = skip_ws(s, ve);
                            if 0 <= n < s.len() && s[n] == 44 {
                                let k2 = skip_ws(s, n + 1);
                                if k2 <= k || k2 > s.len() {
                                } else {
                                    lemma_members_within(s, k2, skip);
                                    if let Some(r) = members(s, k2, skip) {
                                        let all = seq![(k, ke, vs, ve)] + r.0;
                                        assert forall|i: int| 0 <= i < all.len() implies 0 <= (#[trigger] all[i]).0 <= all[i].1 <= s.len()
                                            && 0 <= all[i].2 <= all[i].3 <= s.len() by {
                                            if i > 0 {
                                                assert(all[i] == r.0[i - 1]);
                                            }
                                        }
                                    }
                                }
                            }
                        },
                    }
                }
            },
        }
    }
}

pub proof fn lemma_str_close(s: Seq<u8>, j: int)
    ensures
        str_close(s, j) matches Some(e) ==> j < e <= s.len(),
    decreases s.len() - j,
{
    if j < 0 || j >= s.len() {
    } else if s[j] == 34 {
    } else if s[j] == 92 {
        if j + 2 <= s.len() {
            lemma_str_close(s, j + 2);
        }
    } else {
        lemma_str_close(s, j + 1);
    }
}

pub proof fn lemma_value_end(s: Seq<u8>, i: int, skip: Skip)
    ensures
        value_end(s, i, skip) matches Some(e) ==> i <= e <= s.len(),
{
}

pub proof fn lemma_object_body_within(s: Seq<u8>, j: int, skip: Skip)
    ensures
        object_body(s, j, skip) matches Some(p) ==> spans_within(p.0, s.len() as int),
{
    lemma_members_within(s, skip_ws(s, j), skip);
}

pub proof fn lemma_elements_within(s: Seq<u8>, k: int, skip: Skip)
    ensures
        elements(s, k, skip) matches Some(p) ==> pairs_within(p.0, s.len() as int),
    decreases s.len() - k,
{
    if k < 0 || k > s.len() {
    } else {
        match value_end(s, k, skip) {
            None => {},
            Some(e) => {
                lemma_value_end(s, k, skip);
                let n = skip_ws(s, e);
                if 0 <= n < s.len() && s[n] == 44 {
                    let k2 = skip_ws(s, n + 1);
                    if k2 <= k || k2 > s.len() {
                    } else {
                        lemma_elements_within(s, k2, skip);
                        if let Some(r) = elements(s, k2, skip) {
                            let all = seq![(k, e)] + r.0;
                            assert forall|i: int| 0 <= i < all.len() implies 0 <= (#[trigger] all[i]).0 <= all[i].1 <= s.len() by {
                                if i > 0 {
                                    assert(all[i] == r.0[i - 1]);
                                }
                            }
                        }
                    }
                }
            },
        }
    }
}

pub proof fn lemma_array_body_within(s: Seq<u8>, j: int, skip: Skip)
    ensures
        array_body(s, j, skip) matches Some(p) ==> pairs_within(p.0, s.len() as int),
{
    lemma_elements_within(s, skip_ws(s, j), skip);
}


/// The keys of the members, each read as a string; `None` where one does not read.
pub open spec fn keys_of(s: Seq<u8>, ms: Seq<MemberSpan>) -> Option<Seq<Seq<char>>>
    decreases ms.len(),
{
    if ms.len() == 0 {
        Some(Seq::empty())
    } else {
        match keys_of(s, ms.drop_last()) {
            None => None,
            Some(ks) => match spec_json_string(s.subrange(ms.last().0, ms.last().1)) {
                None => None,
                Some(k) => Some(ks.push(k)),
            },
        }
    }
}

/// How many keys equal `name`.
pub open spec fn key_count(keys: Seq<Seq<char>>, name: Seq<char>) -> nat
    decreases keys.len(),
{
    if keys.len() == 0 {
        0
    } else {
        key_count(keys.drop_last(), name) + if keys.last() == name {
            1nat
        } else {
            0nat
        }
    }
}

/// The last index whose key equals `name`, or -1.
pub open spec fn key_index(keys: Seq<Seq<char>>, name: Seq<char>) -> int
    decreases keys.len(),
{
    if keys.len() == 0 {
        -1
    } else if keys.last() == name {
        keys.len() - 1
    } else {
        key_index(keys.drop_last(), name)
    }
}

/// The value span of the field `name`: present exactly once, else `None` (missing or
/// duplicate).
pub open spec fn field(keys: Seq<Seq<char>>, ms: Seq<MemberSpan>, name: Seq<char>) -> Option<(int, int)> {
    if keys.len() == ms.len() && key_count(keys, name) == 1 {
        let i = key_index(keys, name);
        Some((ms[i].2, ms[i].3))
    } else {
        None
    }
}

/// The field `name` read as a string.
pub open spec fn text_field(s: Seq<u8>, keys: Seq<Seq<char>>, ms: Seq<MemberSpan>, name: Seq<char>) -> Option<Seq<char>> {
    match field(keys, ms, name) {
        Some(sp) => spec_json_string(s.subrange(sp.0, sp.1)),
        None => None,
    }
}

/// The field `name` read as a `u64`.
pub open spec fn u64_field(s: Seq<u8>, keys: Seq<Seq<char>>, ms: Seq<MemberSpan>, name: Seq<char>) -> Option<u64> {
    match field(keys, ms, name) {
        Some(sp) => spec_json_u64(s.subrange(sp.0, sp.1)),
        None => None,
    }
}

/// The field `name` read as an `i64`.
pub open spec fn i64_field(s: Seq<u8>, keys: Seq<Seq<char>>, ms: Seq<MemberSpan>, name: Seq<char>) -> Option<i64> {
    match field(keys, ms, name) {
        Some(sp) => spec_json_i64(s.subrange(sp.0, sp.1)),
        None => None,
    }
}

/// The field `name` read as a list of strings.
pub open spec fn strings_field(s: Seq<u8>, keys: Seq<Seq<char>>, ms: Seq<MemberSpan>, name: Seq<char>) -> Option<Seq<Seq<char>>> {
    match field(keys, ms, name) {
        Some(sp) => spec_json_strings(s.subrange(sp.0, sp.1)),
        None => None,
    }
}

proof fn lemma_keys_of_prefix(s: Seq<u8>, ms: Seq<MemberSpan>, n: int)
    requires
        0 <= n <= ms.len(),
    ensures
        keys_of(s, ms.take(n)) is None ==> keys_of(s, ms) is None,
    decreases ms.len() - n,
{
    if n < ms.len() {
        assert(ms.take(n + 1).drop_last() =~= ms.take(n));
        lemma_keys_of_prefix(s, ms, n + 1);
    } else {
        assert(ms.take(n) =~= ms);
    }
}

/// The keys of the members, read as strings.
pub fn keys_x(s: &[u8], ms: &Vec<Member>) -> (r: Option<Vec<String>>)
    requires
        spans_within(member_spans(ms@), s@.len() as int),
    ensures
        r matches Some(v) ==> keys_of(s@, member_spans(ms@)) == Some(strings_view(v@))
            && v@.len() == ms@.len(),
        r is None ==> keys_of(s@, member_spans(ms@)) is None,
        forall|i: int|
            0 <= i < ms@.len() && (forall|i2: int|
                0 <= i2 < i ==> spec_json_string(
                    s@.subrange(member_spans(ms@)[i2].0, member_spans(ms@)[i2].1),
                ) is Some) ==> #[trigger] string_fact(s@, member_spans(ms@)[i].0, member_spans(ms@)[i].1),
{
    let mut out: Vec<String> = Vec::new();
    let mut i: usize = 0;
    while i < ms.len()
        invariant
            i <= ms@.len(),
            spans_within(member_spans(ms@), s@.len() as int),
            keys_of(s@, member_spans(ms@).take(i as int)) == Some(strings_view(out@)),
            out@.len() == i,
            forall|i2: int| 0 <= i2 < i ==> #[trigger] string_fact(s@, member_spans(ms@)[i2].0, member_spans(ms@)[i2].1),
            forall|i2: int|
                0 <= i2 < i ==> spec_json_string(#[trigger] s@.subrange(member_spans(ms@)[i2].0, member_spans(ms@)[i2].1))
                    is Some,
        decreases ms@.len() - i,
    {
        let m = ms[i];
        assert(member_spans(ms@)[i as int] == m.span());
        assert(member_spans(ms@).take(i + 1).drop_last() =~= member_spans(ms@).take(i as int));
        let got = json_string(s, m.key_start, m.key_end);
        proof {
            assert(string_fact(s@, member_spans(ms@)[i as int].0, member_spans(ms@)[i as int].1));
        }
        match got {
            Some(k) => {
                let ghost prev = strings_view(out@);
                let ghost kv = k@;
                out.push(k);
                assert(strings_view(out@) =~= prev.push(kv));
            },
            None => {
                proof { lemma_keys_of_prefix(s@, member_spans(ms@), i + 1); }
                return None;
            },
        }
        i = i + 1;
    }
    assert(member_spans(ms@).take(ms@.len() as int) =~= member_spans(ms@));
    Some(out)
}


/// Whether two strings hold the same text.
pub fn same_text(a: &String, b: &str) -> (r: bool)
    ensures
        r == (a@ == b@),
{
    let owned = b.to_owned();
    *a == owned
}

/// The value span of the field `name` (present exactly once).
pub fn field_x(keys: &Vec<String>, ms: &Vec<Member>, name: &str) -> (r: Option<(usize, usize)>)
    requires
        keys@.len() == ms@.len(),
    ensures
        r matches Some(p) ==> field(strings_view(keys@), member_spans(ms@), name@) == Some((p.0 as int, p.1 as int)),
        r is None ==> field(strings_view(keys@), member_spans(ms@), name@) is None,
{
    let ghost ks = strings_view(keys@);
    let mut count: usize = 0;
    let mut idx: usize = 0;
    let mut i: usize = 0;
    while i < keys.len()
        invariant
            i <= keys@.len() == ms@.len(),
            ks == strings_view(keys@),
            count == key_count(ks.take(i as int), name@),
            count <= i,
            count > 0 ==> idx < i && idx as int == key_index(ks.take(i as int), name@),
            count == 0 ==> key_index(ks.take(i as int), name@) == -1,
        decreases keys@.len() - i,
    {
        assert(ks.take(i + 1).drop_last() =~= ks.take(i as int));
        assert(ks.take(i + 1).last() == keys@[i as int]@);
        if same_text(&keys[i], name) {
            count = count + 1;
            idx = i;
        }
        i = i + 1;
    }
    assert(ks.take(keys@.len() as int) =~= ks);
    if count == 1 {
        let m = ms[idx];
        assert(member_spans(ms@)[idx as int] == m.span());
        Some((m.val_start, m.val_end))
    } else {
        None
    }
}

/// The field `name` read as a string.
pub fn text_field_x(s: &[u8], keys: &Vec<String>, ms: &Vec<Member>, name: &str) -> (r: Option<String>)
    requires
        keys@.len() == ms@.len(),
        spans_within(member_spans(ms@), s@.len() as int),
    ensures
        r matches Some(v) ==> text_field(s@, strings_view(keys@), member_spans(ms@), name@) == Some(v@),
        r is None ==> text_field(s@, strings_view(keys@), member_spans(ms@), name@) is None,
        field(strings_view(keys@), member_spans(ms@), name@) matches Some(sp) ==> string_fact(s@, sp.0, sp.1),
{
    match field_x(keys, ms, name) {
        Some(sp) => {
            proof { lemma_field_within(strings_view(keys@), member_spans(ms@), name@, s@.len() as int); }
            json_string(s, sp.0, sp.1)
        },
        None => None,
    }
}

/// The field `name` read as a `u64`.
pub fn u64_field_x(s: &[u8], keys: &Vec<String>, ms: &Vec<Member>, name: &str) -> (r: Option<u64>)
    requires
        keys@.len() == ms@.len(),
        spans_within(member_spans(ms@), s@.len() as int),
    ensures
        r == u64_field(s@, strings_view(keys@), member_spans(ms@), name@),
        field(strings_view(keys@), member_spans(ms@), name@) matches Some(sp) ==> u64_fact(s@, sp.0, sp.1),
{
    match field_x(keys, ms, name) {
        Some(sp) => {
            proof { lemma_field_within(strings_view(keys@), member_spans(ms@), name@, s@.len() as int); }
            json_u64(s, sp.0, sp.1)
        },
        None => None,
    }
}

/// The field `name` read as an `i64`.
pub fn i64_field_x(s: &[u8], keys: &Vec<String>, ms: &Vec<Member>, name: &str) -> (r: Option<i64>)
    requires
        keys@.len() == ms@.len(),
        spans_within(member_spans(ms@), s@.len() as int),
    ensures
        r == i64_field(s@, strings_view(keys@), member_spans(ms@), name@),
        field(strings_view(keys@), member_spans(ms@), name@) matches Some(sp) ==> i64_fact(s@, sp.0, sp.1),
{
    match field_x(keys, ms, name) {
        Some(sp) => {
            proof { lemma_field_within(strings_view(keys@), member_spans(ms@), name@, s@.len() as int); }
            json_i64(s, sp.0, sp.1)
        },
        None => None,
    }
}

/// The field `name` read as a list of strings.
pub fn strings_field_x(s: &[u8], keys: &Vec<String>, ms: &Vec<Member>, name: &str) -> (r: Option<Vec<String>>)
    requires
        keys@.len() == ms@.len(),
        spans_within(member_spans(ms@), s@.len() as int),
    ensures
        r matches Some(v) ==> strings_field(s@, strings_view(keys@), member_spans(ms@), name@) == Some(strings_view(v@)),
        r is None ==> strings_field(s@, strings_view(keys@), member_spans(ms@), name@) is None,
        field(strings_view(keys@), member_spans(ms@), name@) matches Some(sp) ==> strings_fact(s@, sp.0, sp.1),
{
    match field_x(keys, ms, name) {
        Some(sp) => {
            proof { lemma_field_within(strings_view(keys@), member_spans(ms@), name@, s@.len() as int); }
            json_strings(s, sp.0, sp.1)
        },
        None => None,
    }
}

proof fn lemma_key_index(keys: Seq<Seq<char>>, name: Seq<char>)
    ensures
        key_count(keys, name) > 0 ==> 0 <= key_index(keys, name) < keys.len(),
    decreases keys.len(),
{
    if keys.len() > 0 {
        lemma_key_index(keys.drop_last(), name);
    }
}

/// The span of a field lies within the bytes.
pub proof fn lemma_field_within(keys: Seq<Seq<char>>, ms: Seq<MemberSpan>, name: Seq<char>, n: int)
    requires
        spans_within(ms, n),
    ensures
        field(keys, ms, name) matches Some(sp) ==> 0 <= sp.0 <= sp.1 <= n,
{
    lemma_key_index(keys, name);
    if keys.len() == ms.len() && key_count(keys, name) == 1 {
        let i = key_index(keys, name);
        assert(0 <= (ms[i]).0);
    }
}


/// How serde_json writes one character inside a string: `"` and `\` behind a backslash;
/// backspace, form feed, line feed, carriage return and tab as `\b`, `\f`, `\n`, `\r`,
/// `\t`; any other character below U+0020 as `\u00` and two lowercase hex digits; every other
/// character as itself.
pub open spec fn escape_char(c: char) -> Seq<char> {
    let v = c as u32;
    if c == '"' {
        seq!['\\', '"']
    } else if c == '\\' {
        seq!['\\', '\\']
    } else if v == 8 {
        seq!['\\', 'b']
    } else if v == 12 {
        seq!['\\', 'f']
    } else if v == 10 {
        seq!['\\', 'n']
    } else if v == 13 {
        seq!['\\', 'r']
    } else if v == 9 {
        seq!['\\', 't']
    } else if v < 32 {
        seq!['\\', 'u', '0', '0', hex_digit((v / 16) as int), hex_digit((v % 16) as int)]
    } else {
        seq![c]
    }
}

/// The characters of `s`, each written as [`escape_char`] writes it.
pub open spec fn escaped(s: Seq<char>) -> Seq<char>
    decreases s.len(),
{
    if s.len() == 0 {
        Seq::empty()
    } else {
        escaped(s.drop_last()) + escape_char(s.last())
    }
}

/// serde_json's text of a string value: the escaped characters between double quotes.
pub open spec fn quoted(s: Seq<char>) -> Seq<char> {
    seq!['"'] + escaped(s) + seq!['"']
}

/// Appends one character as serde_json writes it inside a string.
fn push_escaped(out: &mut String, c: char)
    ensures
        final(out)@ == old(out)@ + escape_char(c),
{
    let v = c as u32;
    if c == '"' {
        push_char(out, '\\');
        push_char(out, '"');
    } else if c == '\\' {
        push_char(out, '\\');
        push_char(out, '\\');
    } else if v == 8 {
        push_char(out, '\\');
        push_char(out, 'b');
    } else if v == 12 {
        push_char(out, '\\');
        push_char(out, 'f');
    } else if v == 10 {
        push_char(out, '\\');
        push_char(out, 'n');
    } else if v == 13 {
        push_char(out, '\\');
        push_char(out, 'r');
    } else if v == 9 {
        push_char(out, '\\');
        push_char(out, 't');
    } else if v < 32 {
        push_char(out, '\\');
        push_char(out, 'u');
        push_char(out, '0');
        push_char(out, '0');
        push_char(out, nibble_char((v / 16) as u8));
        push_char(out, nibble_char((v % 16) as u8));
    } else {
        push_char(out, c);
    }
    assert(final(out)@ =~= old(out)@ + escape_char(c));
}

/// The quoted, escaped JSON text of a string, as `serde_json::to_string` writes it.
pub fn json_quote(s: &str) -> (q: String)
    ensures
        q@ == quoted(s@),
{
    let mut q = String::new();
    push_char(&mut q, '"');
    let n = s.unicode_len();
    let mut i: usize = 0;
    assert(s@.take(0) =~= Seq::<char>::empty());
    while i < n
        invariant
            i <= n == s@.len(),
            q@ == seq!['"'] + escaped(s@.take(i as int)),
        decreases n - i,
    {
        let c = s.get_char(i);
        assert(s@.take(i + 1).drop_last() =~= s@.take(i as int));
        assert(s@.take(i + 1).last() == c);
        push_escaped(&mut q, c);
        i = i + 1;
    }
    assert(s@.take(n as int) =~= s@);
    push_char(&mut q, '"');
    assert(q@ =~= quoted(s@));
    q
}

/// The quoted items joined by commas (no brackets).
pub open spec fn joined(items: Seq<Seq<char>>) -> Seq<char>
    decreases items.len(),
{
    if items.len() == 0 {
        Seq::empty()
    } else if items.len() == 1 {
        quoted(items[0])
    } else {
        joined(items.drop_last()) + seq![','] + quoted(items.last())
    }
}

/// serde_json's compact text of a list of strings.
pub open spec fn string_list(items: Seq<Seq<char>>) -> Seq<char> {
    seq!['['] + joined(items) + seq![']']
}

/// Appends serde_json's text of the string `v`.
pub fn push_quoted(out: &mut String, v: &str)
    ensures
        final(out)@ == old(out)@ + quoted(v@),
{
    let q = json_quote(v);
    crate::text::push_str(out, q.as_str());
}

/// Appends serde_json's compact text of a list of strings.
pub fn push_string_list(out: &mut String, items: &Vec<String>)
    ensures
        final(out)@ == old(out)@ + string_list(strings_view(items@)),
{
    let ghost start = out@;
    push_char(out, '[');
    let mut i: usize = 0;
    while i < items.len()
        invariant
            i <= items@.len(),
            out@ == start + seq!['['] + joined(strings_view(items@).take(i as int)),
        decreases items@.len() - i,
    {
        let ghost before = out@;
        assert(strings_view(items@).take(i + 1).drop_last() =~= strings_view(items@).take(i as int));
        assert(strings_view(items@).take(i + 1).last() == items@[i as int]@);
        if i > 0 {
            push_char(out, ',');
        }
        push_quoted(out, items[i].as_str());
        if i == 0 {
            assert(strings_view(items@).take(1)[0] == items@[0]@);
            assert(out@ =~= start + seq!['['] + joined(strings_view(items@).take(1)));
        } else {
            assert(out@ =~= start + seq!['['] + joined(strings_view(items@).take(i + 1)));
        }
        i = i + 1;
    }
    assert(strings_view(items@).take(items@.len() as int) =~= strings_view(items@));
    push_char(out, ']');
    assert(out@ =~= start + string_list(strings_view(items@)));
}


/// The views of a list of string slices.
pub open spec fn strs_view(v: Seq<&str>) -> Seq<Seq<char>> {
    v.map_values(|s: &str| s@)
}

/// Owned copies of a list of string slices.
pub fn owned_list(items: &[&str]) -> (v: Vec<String>)
    ensures
        strings_view(v@) == strs_view(items@),
{
    let mut v: Vec<String> = Vec::new();
    let mut i: usize = 0;
    while i < items.len()
        invariant
            i <= items@.len(),
            strings_view(v@) == strs_view(items@).take(i as int),
        decreases items@.len() - i,
    {
        let ghost prev = strings_view(v@);
        let o = items[i].to_owned();
        v.push(o);
        assert(strings_view(v@) =~= prev.push(items@[i as int]@));
        assert(strs_view(items@).take(i + 1) =~= strs_view(items@).take(i as int).push(items@[i as int]@));
        i = i + 1;
    }
    assert(strs_view(items@).take(items@.len() as int) =~= strs_view(items@));
    v
}


/// A key made of lowercase letters, digits and underscores.
pub open spec fn plain_key(key: Seq<char>) -> bool {
    forall|i: int|
        0 <= i < key.len() ==> (97 <= (#[trigger] key[i] as u32) <= 122 || 48 <= key[i] as u32 <= 57 || key[i] as u32
            == 95)
}

/// How a writer opens a member: the quoted key and a colon.
pub open spec fn key_text(key: Seq<char>) -> Seq<char> {
    seq!['"'] + key + seq!['"', ':']
}

/// A string scan over bytes that are neither a quote nor a backslash stops at the quote after
/// them.
pub proof fn lemma_str_close_plain(s: Seq<u8>, j: int, l: int)
    requires
        0 <= j,
        0 <= l,
        j + l < s.len(),
        forall|i: int| j <= i < j + l ==> s[i] != 34 && s[i] != 92,
        s[j + l] == 34,
    ensures
        str_close(s, j) == Some(j + l + 1),
    decreases l,
{
    if l > 0 {
        lemma_str_close_plain(s, j + 1, l - 1);
    }
}

/// The bytes of a key's text: a quote, the key's letters, a quote, a colon.
pub proof fn lemma_key_bytes(key: Seq<char>)
    requires
        plain_key(key),
    ensures
        ({
            let b = vstd::utf8::encode_utf8(key_text(key));
            &&& b.len() == key.len() + 3
            &&& b[0] == 34
            &&& forall|i: int| 1 <= i <= key.len() ==> #[trigger] b[i] != 34 && b[i] != 92
            &&& b[key.len() as int + 1] == 34
            &&& b[key.len() as int + 2] == 58
        }),
{
    let t = key_text(key);
    assert forall|i: int| 0 <= i < t.len() implies (#[trigger] t[i] as u32) < 0x80 by {
        if 1 <= i <= key.len() {
            assert(t[i] == key[i - 1]);
        }
    }
    crate::text::lemma_ascii_bytes(t);
    let b = vstd::utf8::encode_utf8(t);
    assert forall|i: int| 1 <= i <= key.len() implies #[trigger] b[i] != 34 && b[i] != 92 by {
        assert(t[i] == key[i - 1]);
        assert(b[i] == (t[i] as u32) as u8);
    }
    assert(t[0] == '"');
    assert(t[key.len() as int + 1] == '"');
    assert(t[key.len() as int + 2] == ':');
}

/// One member as a writer writes it, at `k`: its key's text, then a value of `vlen` bytes that
/// the reader takes whole, then a comma and the next member's quote, or the closing
/// brace. [`members`] reads that member there, and [`members_facts`] holds there exactly
/// when it holds at the value and, after a comma, from the next member on.
pub proof fn lemma_member_at(s: Seq<u8>, k: int, key: Seq<char>, vlen: int, skip: Skip)
    requires
        0 <= k,
        plain_key(key),
        vlen > 0,
        k + key.len() + 3 + vlen < s.len(),
        s.subrange(k, k + key.len() + 3) == vstd::utf8::encode_utf8(key_text(key)),
        !is_ws(s[k + key.len() + 3]),
    ensures
        ({
            let vs = k + key.len() + 3;
            &&& members_facts(s, k, skip) ==> value_fact(s, vs, skip)
            &&& (value_end(s, vs, skip) == Some(vs + vlen) && s[vs + vlen] == 125) ==> {
                &&& members(s, k, skip) == Some((seq![(k, k + key.len() + 2, vs, vs + vlen)], vs + vlen + 1))
            }
            &&& (value_end(s, vs, skip) == Some(vs + vlen) && s[vs + vlen] == 44 && vs + vlen + 1 < s.len()
                && s[vs + vlen + 1] == 34) ==> {
                &&& members(s, k, skip) == prepend(
                    seq![(k, k + key.len() + 2, vs, vs + vlen)],
                    members(s, vs + vlen + 1, skip),
                )
                &&& members_facts(s, k, skip) ==> members_facts(s, vs + vlen + 1, skip)
            }
        }),
{
    reveal(members_facts);
    lemma_key_bytes(key);
    let b = vstd::utf8::encode_utf8(key_text(key));
    let l = key.len() as int;
    assert forall|i: int| 0 <= i < l + 3 implies s[k + i] == #[trigger] b[i] by {
        assert(s.subrange(k, k + l + 3)[i] == s[k + i]);
    }
    assert(s[k] == 34);
    assert forall|i: int| k + 1 <= i < k + 1 + l implies s[i] != 34 && s[i] != 92 by {
        assert(s[k + (i - k)] == b[i - k]);
    }
    assert(s[k + 1 + l] == b[l + 1]);
    lemma_str_close_plain(s, k + 1, l);
    assert(s[k + l + 2] == b[l + 2]);
    assert(skip_ws(s, k + l + 2) == k + l + 2);
    assert(skip_ws(s, k + l + 3) == k + l + 3);
    let vs = k + l + 3;
    if value_end(s, vs, skip) == Some(vs + vlen) && (s[vs + vlen] == 44 || s[vs + vlen] == 125) {
        assert(skip_ws(s, vs + vlen) == vs + vlen);
        if s[vs + vlen] == 44 && vs + vlen + 1 < s.len() && s[vs + vlen + 1] == 34 {
            assert(skip_ws(s, vs + vlen + 1) == vs + vlen + 1);
        }
    }
}

/// The first byte of the UTF-8 of a text that starts below U+0080 is that character's code.
pub proof fn lemma_first_byte(t: Seq<char>)
    requires
        t.len() > 0,
        (t[0] as u32) < 0x80,
    ensures
        vstd::utf8::encode_utf8(t).len() >= 1,
        vstd::utf8::encode_utf8(t)[0] == (t[0] as u32) as u8,
{
    crate::text::lemma_utf8_ascii_char(t[0]);
    assert(t =~= seq![t[0]] + t.drop_first());
    crate::text::lemma_utf8_concat(seq![t[0]], t.drop_first());
}

/// A written string starts with a quote.
pub proof fn lemma_quoted_first(t: Seq<char>)
    ensures
        vstd::utf8::encode_utf8(quoted(t)).len() >= 1,
        vstd::utf8::encode_utf8(quoted(t))[0] == 34,
{
    assert(quoted(t)[0] == '"');
    lemma_first_byte(quoted(t));
}

/// The decimal text of a number starts with a digit.
pub proof fn lemma_dec_first(n: nat)
    ensures
        crate::text::dec_of(n).len() >= 1,
        48 <= (crate::text::dec_of(n)[0] as u32) <= 57,
    decreases n,
{
    if n >= 10 {
        lemma_dec_first(n / 10);
        assert(crate::text::dec_of(n)[0] == crate::text::dec_of(n / 10)[0]);
    }
}

/// A written integer starts with a minus sign or a digit.
pub proof fn lemma_idec_first(n: int)
    ensures
        vstd::utf8::encode_utf8(crate::text::idec_of(n)).len() >= 1,
        !is_ws(vstd::utf8::encode_utf8(crate::text::idec_of(n))[0]),
{
    let t = crate::text::idec_of(n);
    if n < 0 {
        lemma_dec_first((-n) as nat);
        assert(t[0] == '-');
    } else {
        lemma_dec_first(n as nat);
    }
    lemma_first_byte(t);
}

/// A plain key is written as itself between quotes.
pub proof fn lemma_escaped_plain(key: Seq<char>)
    requires
        plain_key(key),
    ensures
        escaped(key) == key,
    decreases key.len(),
{
    if key.len() > 0 {
        let d = key.drop_last();
        assert forall|i: int| 0 <= i < d.len() implies (97 <= (#[trigger] d[i] as u32) <= 122 || 48 <= d[i] as u32 <= 57
            || d[i] as u32 == 95) by {
            assert(d[i] == key[i]);
        }
        lemma_escaped_plain(d);
        let c = key.last();
        assert(key[key.len() - 1] == c);
        assert(escape_char(c) == seq![c]);
        assert(key =~= d.push(c));
        assert(escaped(key) =~= key);
    }
}

/// A value as the writers write it: a string (`Some(t)`) or an integer (`None`, `n`).
pub open spec fn written_value(t: Option<Seq<char>>, n: i64) -> Seq<u8> {
    match t {
        Some(t) => vstd::utf8::encode_utf8(quoted(t)),
        None => vstd::utf8::encode_utf8(crate::text::idec_of(n as int)),
    }
}

/// A member written between `pre` and `post` (a comma before the next member's quote, or the
/// closing brace): where [`members_facts`] holds at it, [`members`] reads it whole.
pub proof fn lemma_member_in(s: Seq<u8>, pre: Seq<u8>, key: Seq<char>, t: Option<Seq<char>>, n: i64, post: Seq<u8>)
    requires
        plain_key(key),
        s == pre + vstd::utf8::encode_utf8(key_text(key)) + written_value(t, n) + post,
        post.len() > 0,
        post[0] == 44 || post[0] == 125,
        post[0] == 44 ==> post.len() > 1 && post[1] == 34,
        members_facts(s, pre.len() as int, Skip::Ignored),
    ensures
        ({
            let k = pre.len() as int;
            let vs = k + key.len() + 3;
            let ve = vs + written_value(t, n).len();
            &&& post[0] == 125 ==> members(s, k, Skip::Ignored) == Some((seq![(k, k + key.len() + 2, vs, ve)], ve + 1))
            &&& post[0] == 44 ==> members(s, k, Skip::Ignored) == prepend(
                seq![(k, k + key.len() + 2, vs, ve)],
                members(s, ve + 1, Skip::Ignored),
            ) && members_facts(s, ve + 1, Skip::Ignored)
            &&& s.subrange(k, k + key.len() + 2) == vstd::utf8::encode_utf8(quoted(key))
            &&& s.subrange(vs, ve) == written_value(t, n)
        }),
{
    reveal(ignored_fact);
    let k = pre.len() as int;
    let kb = vstd::utf8::encode_utf8(key_text(key));
    let v = written_value(t, n);
    lemma_key_bytes(key);
    match t {
        Some(tt) => lemma_quoted_first(tt),
        None => lemma_idec_first(n as int),
    }
    let vs = k + key.len() + 3;
    assert(s.subrange(k, k + key.len() + 3) =~= kb);
    assert(s[vs] == v[0]);
    assert(s.subrange(vs, s.len() as int) =~= v + post);
    assert(s.subrange(vs, vs + v.len()) =~= v);
    lemma_member_at(s, k, key, v.len() as int, Skip::Ignored);
    assert(ignored_fact(s, vs));
    match t {
        Some(tt) => {
            assert(s.subrange(vs, s.len() as int) == vstd::utf8::encode_utf8(quoted(tt)) + post);
        },
        None => {
            assert(s.subrange(vs, s.len() as int) == vstd::utf8::encode_utf8(crate::text::idec_of(n as int)) + post);
        },
    }
    assert(value_end(s, vs, Skip::Ignored) == Some(vs + v.len()));
    assert(s[vs + v.len()] == post[0]);
    if post[0] == 44 {
        assert(s[vs + v.len() + 1] == post[1]);
    }
    lemma_escaped_plain(key);
    let qk = quoted(key);
    assert(qk =~= key_text(key).subrange(0, key.len() as int + 2));
    assert(key_text(key) =~= qk + seq![':']);
    crate::text::lemma_utf8_concat(qk, seq![':']);
    crate::text::lemma_utf8_ascii_char(':');
    assert(kb.subrange(0, key.len() as int + 2) =~= vstd::utf8::encode_utf8(qk));
    assert(s.subrange(k, k + key.len() + 2) =~= kb.subrange(0, key.len() as int + 2));
}

/// Where the member or element value at `i` is a string as [`quoted`] writes it, a number as
/// [`crate::text::dec_of`] writes it, a list of strings as [`string_list`] writes it (with
/// room for one open bracket), or an object of such values as [`object_text`] writes it (with
/// room for two), followed by `,` or `}`, that value is where the buffering reader stops.
#[verifier::opaque]
pub open spec fn buffered_fact(s: Seq<u8>, i: int, b: u32) -> bool {
    &&& forall|t: Seq<char>, tail: Seq<u8>|
        #![trigger vstd::utf8::encode_utf8(quoted(t)) + tail]
        0 <= i <= s.len() && s.subrange(i, s.len() as int) == vstd::utf8::encode_utf8(quoted(t)) + tail
            && tail.len() > 0 && (tail[0] == 44 || tail[0] == 125)
            ==> value_end(s, i, Skip::Buffered(b)) == Some(i + vstd::utf8::encode_utf8(quoted(t)).len())
    &&& forall|v: u64, tail: Seq<u8>|
        #![trigger vstd::utf8::encode_utf8(crate::text::dec_of(v as nat)) + tail]
        0 <= i <= s.len() && s.subrange(i, s.len() as int) == vstd::utf8::encode_utf8(crate::text::dec_of(v as nat))
            + tail && tail.len() > 0 && (tail[0] == 44 || tail[0] == 125)
            ==> value_end(s, i, Skip::Buffered(b)) == Some(i + vstd::utf8::encode_utf8(crate::text::dec_of(v as nat)).len())
    &&& forall|items: Seq<Seq<char>>, tail: Seq<u8>|
        #![trigger vstd::utf8::encode_utf8(string_list(items)) + tail]
        1 <= b && 0 <= i <= s.len() && s.subrange(i, s.len() as int) == vstd::utf8::encode_utf8(string_list(items)) + tail
            && tail.len() > 0 && (tail[0] == 44 || tail[0] == 125)
            ==> value_end(s, i, Skip::Buffered(b)) == Some(i + vstd::utf8::encode_utf8(string_list(items)).len())
    &&& forall|ms: Seq<(Seq<char>, Written)>, tail: Seq<u8>|
        #![trigger vstd::utf8::encode_utf8(object_text(ms)) + tail]
        2 <= b && flat_members(ms) && 0 <= i <= s.len() && s.subrange(i, s.len() as int) == vstd::utf8::encode_utf8(
            object_text(ms),
        ) + tail && tail.len() > 0 && (tail[0] == 44 || tail[0] == 125)
            ==> value_end(s, i, Skip::Buffered(b)) == Some(i + vstd::utf8::encode_utf8(object_text(ms)).len())
}

/// Inside a string, bytes that are neither a quote nor a backslash leave the scan as it is.
pub proof fn lemma_nest_plain(s: Seq<u8>, i: int, m: int, end: int, d: int, b: int)
    requires
        0 <= i,
        0 <= m,
        i + m <= end <= s.len(),
        forall|k: int| i <= k < i + m ==> s[k] != 34 && s[k] != 92,
    ensures
        nest_within(s, i, end, true, false, d, b) == nest_within(s, i + m, end, true, false, d, b),
    decreases m,
{
    if m > 0 {
        lemma_nest_plain(s, i + 1, m - 1, end, d, b);
    }
}

/// Outside strings, bytes that open or close nothing leave the scan as it is.
pub proof fn lemma_nest_flat(s: Seq<u8>, i: int, m: int, end: int, d: int, b: int)
    requires
        0 <= i,
        0 <= m,
        i + m <= end <= s.len(),
        forall|k: int| i <= k < i + m ==> s[k] != 34 && s[k] != 91 && s[k] != 93 && s[k] != 123 && s[k] != 125,
    ensures
        nest_within(s, i, end, false, false, d, b) == nest_within(s, i + m, end, false, false, d, b),
    decreases m,
{
    if m > 0 {
        lemma_nest_flat(s, i + 1, m - 1, end, d, b);
    }
}

/// A character other than a quote or a backslash encodes as bytes that are neither.
pub proof fn lemma_utf8_plain_char(c: char)
    requires
        c != '"',
        c != '\\',
    ensures
        forall|k: int|
            0 <= k < vstd::utf8::encode_utf8(seq![c]).len() ==> #[trigger] vstd::utf8::encode_utf8(seq![c])[k] != 34
                && vstd::utf8::encode_utf8(seq![c])[k] != 92,
{
    let v = c as u32;
    let one = seq![c];
    assert(one.drop_first() =~= Seq::<char>::empty());
    assert(one[0] == c);
    assert(vstd::utf8::encode_utf8(one.drop_first()) =~= Seq::<u8>::empty());
    assert(vstd::utf8::encode_utf8(one) =~= vstd::utf8::encode_scalar(v));
    if v < 0x80 {
        crate::text::lemma_utf8_ascii_char(c);
        assert(vstd::utf8::encode_utf8(one)[0] == v as u8);
    } else {
        assert(vstd::utf8::leading_byte_width_2(v) >= 0x80) by (bit_vector);
        assert(vstd::utf8::leading_byte_width_3(v) >= 0x80) by (bit_vector);
        assert(vstd::utf8::leading_byte_width_4(v) >= 0x80) by (bit_vector);
        assert(vstd::utf8::last_continuation_byte(v) >= 0x80) by (bit_vector);
        assert(vstd::utf8::second_last_continuation_byte(v) >= 0x80) by (bit_vector);
        assert(vstd::utf8::third_last_continuation_byte(v) >= 0x80) by (bit_vector);
        assert(!vstd::utf8::has_width_1_encoding(v));
    }
}

/// One escaped character, as bytes, leaves a scan inside a string inside it.
pub proof fn lemma_nest_escape_char(s: Seq<u8>, i: int, c: char, end: int, d: int, b: int)
    requires
        0 <= i,
        i + vstd::utf8::encode_utf8(escape_char(c)).len() <= end <= s.len(),
        s.subrange(i, i + vstd::utf8::encode_utf8(escape_char(c)).len()) == vstd::utf8::encode_utf8(escape_char(c)),
    ensures
        nest_within(s, i, end, true, false, d, b) == nest_within(
            s,
            i + vstd::utf8::encode_utf8(escape_char(c)).len(),
            end,
            true,
            false,
            d,
            b,
        ),
{
    let e = escape_char(c);
    let bs = vstd::utf8::encode_utf8(e);
    let v = c as u32;
    if c == '"' || c == '\\' || v == 8 || v == 12 || v == 10 || v == 13 || v == 9 || v < 32 {
        assert forall|k: int| 0 <= k < e.len() implies (#[trigger] e[k] as u32) < 0x80 by {
            if v < 32 && !(v == 8 || v == 12 || v == 10 || v == 13 || v == 9) && k >= 4 {
                assert(v / 16 < 16 && v % 16 < 16);
            }
        }
        crate::text::lemma_ascii_bytes(e);
        assert(s[i] == bs[0]);
        assert(bs[0] == 92);
        assert(s[i + 1] == bs[1]);
        assert(nest_within(s, i, end, true, false, d, b) == nest_within(s, i + 1, end, true, true, d, b));
        assert(nest_within(s, i + 1, end, true, true, d, b) == nest_within(s, i + 2, end, true, false, d, b));
        if e.len() > 2 {
            assert(e.len() == 6);
            assert(v / 16 < 16 && v % 16 < 16);
            assert forall|k: int| i + 2 <= k < i + 6 implies s[k] != 34 && s[k] != 92 by {
                assert(s[k] == bs[k - i]);
                assert(bs[k - i] == (e[k - i] as u32) as u8);
            }
            lemma_nest_plain(s, i + 2, 4, end, d, b);
        }
    } else {
        assert(e == seq![c]);
        lemma_utf8_plain_char(c);
        assert forall|k: int| i <= k < i + bs.len() implies s[k] != 34 && s[k] != 92 by {
            assert(s[k] == bs[k - i]);
        }
        lemma_nest_plain(s, i, bs.len() as int, end, d, b);
    }
}

/// The escaped characters of a text, as bytes, leave a scan inside a string inside it.
pub proof fn lemma_nest_escaped(s: Seq<u8>, i: int, t: Seq<char>, end: int, d: int, b: int)
    requires
        0 <= i,
        i + vstd::utf8::encode_utf8(escaped(t)).len() <= end <= s.len(),
        s.subrange(i, i + vstd::utf8::encode_utf8(escaped(t)).len()) == vstd::utf8::encode_utf8(escaped(t)),
    ensures
        nest_within(s, i, end, true, false, d, b) == nest_within(
            s,
            i + vstd::utf8::encode_utf8(escaped(t)).len(),
            end,
            true,
            false,
            d,
            b,
        ),
    decreases t.len(),
{
    if t.len() > 0 {
        let p = escaped(t.drop_last());
        let q = escape_char(t.last());
        crate::text::lemma_utf8_concat(p, q);
        let bp = vstd::utf8::encode_utf8(p);
        let bq = vstd::utf8::encode_utf8(q);
        assert(escaped(t) == p + q);
        let whole = s.subrange(i, i + bp.len() + bq.len());
        assert(whole == bp + bq);
        assert(s.subrange(i, i + bp.len()) =~= whole.subrange(0, bp.len() as int));
        assert(s.subrange(i + bp.len(), i + bp.len() + bq.len()) =~= whole.subrange(
            bp.len() as int,
            whole.len() as int,
        ));
        assert(s.subrange(i, i + bp.len()) =~= bp);
        assert(s.subrange(i + bp.len(), i + bp.len() + bq.len()) =~= bq);
        lemma_nest_escaped(s, i, t.drop_last(), end, d, b);
        lemma_nest_escape_char(s, i + bp.len(), t.last(), end, d, b);
    } else {
        assert(escaped(t) =~= Seq::<char>::empty());
        assert(vstd::utf8::encode_utf8(escaped(t)) =~= Seq::<u8>::empty());
    }
}

/// The bytes of a written string: a quote, the escaped characters, a quote.
pub proof fn lemma_quoted_bytes(t: Seq<char>)
    ensures
        vstd::utf8::encode_utf8(quoted(t)) == seq![34u8] + vstd::utf8::encode_utf8(escaped(t)) + seq![34u8],
{
    let m = escaped(t);
    crate::text::lemma_utf8_concat(seq!['"'] + m, seq!['"']);
    crate::text::lemma_utf8_concat(seq!['"'], m);
    crate::text::lemma_utf8_ascii_char('"');
}

/// A written string, as bytes, leaves a scan outside strings as it was.
pub proof fn lemma_nest_quoted(s: Seq<u8>, i: int, t: Seq<char>, end: int, d: int, b: int)
    requires
        0 <= i,
        i + vstd::utf8::encode_utf8(quoted(t)).len() <= end <= s.len(),
        s.subrange(i, i + vstd::utf8::encode_utf8(quoted(t)).len()) == vstd::utf8::encode_utf8(quoted(t)),
    ensures
        nest_within(s, i, end, false, false, d, b) == nest_within(
            s,
            i + vstd::utf8::encode_utf8(quoted(t)).len(),
            end,
            false,
            false,
            d,
            b,
        ),
{
    lemma_quoted_bytes(t);
    let bm = vstd::utf8::encode_utf8(escaped(t));
    let bq = vstd::utf8::encode_utf8(quoted(t));
    let n = bm.len() as int;
    let whole = s.subrange(i, i + bq.len());
    assert(whole[0] == s[i]);
    assert(s.subrange(i + 1, i + 1 + n) =~= whole.subrange(1, 1 + n));
    assert(whole.subrange(1, 1 + n) =~= bm);
    lemma_nest_escaped(s, i + 1, t, end, d, b);
    assert(whole[1 + n] == s[i + 1 + n]);
    assert(nest_within(s, i, end, false, false, d, b) == nest_within(s, i + 1, end, true, false, d, b));
    assert(nest_within(s, i + 1 + n, end, true, false, d, b) == nest_within(
        s,
        i + 2 + n,
        end,
        false,
        false,
        d,
        b,
    ));
}

/// Every character of a decimal text is a digit.
pub proof fn lemma_dec_digits(n: nat)
    ensures
        forall|k: int|
            0 <= k < crate::text::dec_of(n).len() ==> 48 <= (#[trigger] crate::text::dec_of(n)[k] as u32) <= 57,
    decreases n,
{
    let t = crate::text::dec_of(n);
    if n < 10 {
        assert(t == seq![crate::text::digit_char(n)]);
        assert((crate::text::digit_char(n) as u32) == n + 48);
    } else {
        lemma_dec_digits(n / 10);
        let p = crate::text::dec_of(n / 10);
        let last = crate::text::digit_char(n % 10);
        assert(t == p.push(last));
        assert((last as u32) == n % 10 + 48);
        assert forall|k: int| 0 <= k < t.len() implies 48 <= (#[trigger] t[k] as u32) <= 57 by {
            if k < p.len() {
                assert(t[k] == p[k]);
            }
        }
    }
}

/// A written number, as bytes, leaves a scan outside strings as it was.
pub proof fn lemma_nest_dec(s: Seq<u8>, i: int, v: nat, end: int, d: int, b: int)
    requires
        0 <= i,
        i + vstd::utf8::encode_utf8(crate::text::dec_of(v)).len() <= end <= s.len(),
        s.subrange(i, i + vstd::utf8::encode_utf8(crate::text::dec_of(v)).len()) == vstd::utf8::encode_utf8(
            crate::text::dec_of(v),
        ),
    ensures
        nest_within(s, i, end, false, false, d, b) == nest_within(
            s,
            i + vstd::utf8::encode_utf8(crate::text::dec_of(v)).len(),
            end,
            false,
            false,
            d,
            b,
        ),
{
    let t = crate::text::dec_of(v);
    lemma_dec_digits(v);
    crate::text::lemma_ascii_bytes(t);
    let bs = vstd::utf8::encode_utf8(t);
    assert forall|k: int| i <= k < i + bs.len() implies s[k] != 34 && s[k] != 91 && s[k] != 93 && s[k] != 123
        && s[k] != 125 by {
        assert(s[k] == bs[k - i]);
        assert(48 <= (t[k - i] as u32) <= 57);
    }
    lemma_nest_flat(s, i, bs.len() as int, end, d, b);
}

/// The bytes of a comma-joined list: the earlier items, a comma, the last item.
pub proof fn lemma_joined_bytes(items: Seq<Seq<char>>)
    requires
        items.len() >= 2,
    ensures
        vstd::utf8::encode_utf8(joined(items)) == vstd::utf8::encode_utf8(joined(items.drop_last())) + seq![44u8]
            + vstd::utf8::encode_utf8(quoted(items.last())),
{
    let p = joined(items.drop_last());
    crate::text::lemma_utf8_concat(p + seq![','], quoted(items.last()));
    crate::text::lemma_utf8_concat(p, seq![',']);
    crate::text::lemma_utf8_ascii_char(',');
}

/// Written strings joined by commas, as bytes, leave a scan outside strings as it was.
pub proof fn lemma_nest_joined(s: Seq<u8>, i: int, items: Seq<Seq<char>>, end: int, d: int, b: int)
    requires
        0 <= i,
        i + vstd::utf8::encode_utf8(joined(items)).len() <= end <= s.len(),
        s.subrange(i, i + vstd::utf8::encode_utf8(joined(items)).len()) == vstd::utf8::encode_utf8(joined(items)),
    ensures
        nest_within(s, i, end, false, false, d, b) == nest_within(
            s,
            i + vstd::utf8::encode_utf8(joined(items)).len(),
            end,
            false,
            false,
            d,
            b,
        ),
    decreases items.len(),
{
    if items.len() == 0 {
        assert(vstd::utf8::encode_utf8(joined(items)) =~= Seq::<u8>::empty());
    } else if items.len() == 1 {
        lemma_nest_quoted(s, i, items[0], end, d, b);
    } else {
        lemma_joined_bytes(items);
        let bp = vstd::utf8::encode_utf8(joined(items.drop_last()));
        let bq = vstd::utf8::encode_utf8(quoted(items.last()));
        let n = bp.len() as int;
        let whole = s.subrange(i, i + vstd::utf8::encode_utf8(joined(items)).len());
        assert(whole == bp + seq![44u8] + bq);
        assert(s.subrange(i, i + n) =~= whole.subrange(0, n));
        assert(whole.subrange(0, n) =~= bp);
        lemma_nest_joined(s, i, items.drop_last(), end, d, b);
        assert(s[i + n] == whole[n]);
        assert(s[i + n] == 44);
        assert(nest_within(s, i + n, end, false, false, d, b) == nest_within(s, i + n + 1, end, false, false, d, b));
        assert(s.subrange(i + n + 1, i + n + 1 + bq.len()) =~= whole.subrange(n + 1, whole.len() as int));
        assert(whole.subrange(n + 1, whole.len() as int) =~= bq);
        lemma_nest_quoted(s, i + n + 1, items.last(), end, d, b);
    }
}

/// The bytes of a written list: a bracket, the joined items, a bracket.
pub proof fn lemma_list_bytes(items: Seq<Seq<char>>)
    ensures
        vstd::utf8::encode_utf8(string_list(items)) == seq![91u8] + vstd::utf8::encode_utf8(joined(items)) + seq![93u8],
{
    let m = joined(items);
    crate::text::lemma_utf8_concat(seq!['['] + m, seq![']']);
    crate::text::lemma_utf8_concat(seq!['['], m);
    crate::text::lemma_utf8_ascii_char('[');
    crate::text::lemma_utf8_ascii_char(']');
}

/// A written list of strings, as bytes, opens one bracket and closes it again.
pub proof fn lemma_nest_list(s: Seq<u8>, i: int, items: Seq<Seq<char>>, end: int, d: int, b: int)
    requires
        0 <= i,
        0 <= d,
        d + 1 <= b,
        i + vstd::utf8::encode_utf8(string_list(items)).len() <= end <= s.len(),
        s.subrange(i, i + vstd::utf8::encode_utf8(string_list(items)).len()) == vstd::utf8::encode_utf8(
            string_list(items),
        ),
    ensures
        nest_within(s, i, end, false, false, d, b) == nest_within(
            s,
            i + vstd::utf8::encode_utf8(string_list(items)).len(),
            end,
            false,
            false,
            d,
            b,
        ),
{
    lemma_list_bytes(items);
    let bj = vstd::utf8::encode_utf8(joined(items));
    let n = bj.len() as int;
    let whole = s.subrange(i, i + vstd::utf8::encode_utf8(string_list(items)).len());
    assert(whole[0] == s[i]);
    assert(s[i] == 91);
    assert(nest_within(s, i, end, false, false, d, b) == nest_within(s, i + 1, end, false, false, d + 1, b));
    assert(s.subrange(i + 1, i + 1 + n) =~= whole.subrange(1, 1 + n));
    assert(whole.subrange(1, 1 + n) =~= bj);
    lemma_nest_joined(s, i + 1, items, end, d + 1, b);
    assert(whole[1 + n] == s[i + 1 + n]);
    assert(s[i + 1 + n] == 93);
    assert(nest_within(s, i + 1 + n, end, false, false, d + 1, b) == nest_within(
        s,
        i + 2 + n,
        end,
        false,
        false,
        d,
        b,
    ));
}

/// A value as the writers write it into a buffered object: a string, a number, a list of
/// strings, or a nested object of such values.
pub enum Written {
    Text(Seq<char>),
    Nat(u64),
    List(Seq<Seq<char>>),
    Object(Seq<(Seq<char>, Written)>),
}

/// The text of a written value.
pub open spec fn written_text(w: Written) -> Seq<char>
    decreases w,
{
    match w {
        Written::Text(t) => quoted(t),
        Written::Nat(v) => crate::text::dec_of(v as nat),
        Written::List(items) => string_list(items),
        Written::Object(ms) => seq!['{'] + members_text(ms) + seq!['}'],
    }
}

/// The bytes of a written value.
#[verifier::opaque]
pub open spec fn written_bytes(w: Written) -> Seq<u8> {
    vstd::utf8::encode_utf8(written_text(w))
}

/// The bytes of a member's key text.
#[verifier::opaque]
pub open spec fn key_bytes(key: Seq<char>) -> Seq<u8> {
    vstd::utf8::encode_utf8(key_text(key))
}

/// Members of a nested object as the writers write them: at least one, keys plain, values
/// strings, numbers or lists of strings.
pub open spec fn flat_members(ms: Seq<(Seq<char>, Written)>) -> bool {
    &&& ms.len() >= 1
    &&& forall|i: int| 0 <= i < ms.len() ==> plain_key(#[trigger] ms[i].0) && !(ms[i].1 is Object)
}

/// A value that the buffering reader with room for `b` open brackets takes whole: a nested
/// object only of flat members, with room for two.
pub open spec fn fits(w: Written, b: u32) -> bool {
    w matches Written::Object(ms) ==> flat_members(ms) && 2 <= b
}

/// A written value starts with a byte that is not whitespace.
pub proof fn lemma_written_first(w: Written)
    ensures
        written_bytes(w).len() >= 1,
        !is_ws(written_bytes(w)[0]),
{
    reveal(written_bytes);
    match w {
        Written::Text(t) => lemma_quoted_first(t),
        Written::Nat(v) => lemma_idec_first(v as int),
        Written::List(items) => lemma_list_bytes(items),
        Written::Object(ms) => {
            let t = written_text(w);
            assert(t[0] == '{');
            lemma_first_byte(t);
        },
    }
}

/// A member written between `pre` and `post` (a comma before the next member's quote, or the
/// closing brace): where [`members_facts`] holds at it for the buffering reader, [`members`]
/// reads it whole.
pub proof fn lemma_member_buffered(s: Seq<u8>, pre: Seq<u8>, key: Seq<char>, w: Written, post: Seq<u8>, b: u32)
    requires
        plain_key(key),
        1 <= b,
        fits(w, b),
        s == pre + key_bytes(key) + written_bytes(w) + post,
        post.len() > 0,
        post[0] == 44 || post[0] == 125,
        post[0] == 44 ==> post.len() > 1 && post[1] == 34,
        members_facts(s, pre.len() as int, Skip::Buffered(b)),
    ensures
        ({
            let k = pre.len() as int;
            let vs = k + key.len() + 3;
            let ve = vs + written_bytes(w).len();
            &&& key_bytes(key).len() == key.len() + 3
            &&& post[0] == 125 ==> members(s, k, Skip::Buffered(b)) == Some(
                (seq![(k, k + key.len() + 2, vs, ve)], ve + 1),
            )
            &&& post[0] == 44 ==> members(s, k, Skip::Buffered(b)) == prepend(
                seq![(k, k + key.len() + 2, vs, ve)],
                members(s, ve + 1, Skip::Buffered(b)),
            ) && members_facts(s, ve + 1, Skip::Buffered(b))
            &&& s.subrange(k, k + key.len() + 2) == vstd::utf8::encode_utf8(quoted(key))
            &&& s.subrange(vs, ve) == written_bytes(w)
        }),
{
    reveal(buffered_fact);
    lemma_written_first(w);
    reveal(written_bytes);
    reveal(key_bytes);
    let k = pre.len() as int;
    let kb = vstd::utf8::encode_utf8(key_text(key));
    let v = written_bytes(w);
    lemma_key_bytes(key);
    let vs = k + key.len() + 3;
    assert(s.subrange(k, k + key.len() + 3) =~= kb);
    assert(s[vs] == v[0]);
    assert(s.subrange(vs, s.len() as int) =~= v + post);
    assert(s.subrange(vs, vs + v.len()) =~= v);
    lemma_member_at(s, k, key, v.len() as int, Skip::Buffered(b));
    assert(buffered_fact(s, vs, b));
    match w {
        Written::Text(t) => {
            assert(s.subrange(vs, s.len() as int) == vstd::utf8::encode_utf8(quoted(t)) + post);
        },
        Written::Nat(x) => {
            assert(s.subrange(vs, s.len() as int) == vstd::utf8::encode_utf8(crate::text::dec_of(x as nat)) + post);
        },
        Written::List(items) => {
            assert(s.subrange(vs, s.len() as int) == vstd::utf8::encode_utf8(string_list(items)) + post);
        },
        Written::Object(ms) => {
            assert(written_text(w) == object_text(ms));
            assert(s.subrange(vs, s.len() as int) == vstd::utf8::encode_utf8(object_text(ms)) + post);
        },
    }
    assert(value_end(s, vs, Skip::Buffered(b)) == Some(vs + v.len()));
    assert(s[vs + v.len()] == post[0]);
    if post[0] == 44 {
        assert(s[vs + v.len() + 1] == post[1]);
    }
    lemma_escaped_plain(key);
    let qk = quoted(key);
    assert(qk =~= key_text(key).subrange(0, key.len() as int + 2));
    assert(key_text(key) =~= qk + seq![':']);
    crate::text::lemma_utf8_concat(qk, seq![':']);
    crate::text::lemma_utf8_ascii_char(':');
    assert(kb.subrange(0, key.len() as int + 2) =~= vstd::utf8::encode_utf8(qk));
    assert(s.subrange(k, k + key.len() + 2) =~= kb.subrange(0, key.len() as int + 2));
}

/// Members as the writers write them, `key:value`, joined by commas.
pub open spec fn members_text(ms: Seq<(Seq<char>, Written)>) -> Seq<char>
    decreases ms,
{
    if ms.len() == 0 {
        Seq::empty()
    } else {
        proof {
            assert(decreases_to!(ms => ms[0]));
            assert(decreases_to!(ms[0] => ms[0].1));
        }
        if ms.len() == 1 {
            key_text(ms[0].0) + written_text(ms[0].1)
        } else {
            key_text(ms[0].0) + written_text(ms[0].1) + seq![','] + members_text(ms.drop_first())
        }
    }
}

/// The bytes of written members.
pub open spec fn members_bytes(ms: Seq<(Seq<char>, Written)>) -> Seq<u8>
    decreases ms.len(),
{
    if ms.len() == 0 {
        Seq::empty()
    } else if ms.len() == 1 {
        key_bytes(ms[0].0) + written_bytes(ms[0].1)
    } else {
        key_bytes(ms[0].0) + written_bytes(ms[0].1) + (seq![44u8] + members_bytes(ms.drop_first()))
    }
}

/// An object as the writers write it: its members between braces.
pub open spec fn object_text(ms: Seq<(Seq<char>, Written)>) -> Seq<char> {
    seq!['{'] + members_text(ms) + seq!['}']
}

/// Where written members lie when the first starts at `k`: key span and value span of each.
pub open spec fn written_spans(ms: Seq<(Seq<char>, Written)>, k: int) -> Seq<MemberSpan>
    decreases ms.len(),
{
    if ms.len() == 0 {
        Seq::empty()
    } else {
        let kl = ms[0].0.len() as int;
        let ve = k + kl + 3 + written_bytes(ms[0].1).len();
        seq![(k, k + kl + 2, k + kl + 3, ve)] + written_spans(ms.drop_first(), ve + 1)
    }
}

/// The UTF-8 of written members is [`members_bytes`], which starts with a quote.
pub proof fn lemma_members_bytes(ms: Seq<(Seq<char>, Written)>)
    ensures
        vstd::utf8::encode_utf8(members_text(ms)) == members_bytes(ms),
        ms.len() >= 1 ==> members_bytes(ms).len() >= 1 && members_bytes(ms)[0] == 34,
    decreases ms.len(),
{
    reveal(written_bytes);
    reveal(key_bytes);
    if ms.len() == 0 {
        assert(vstd::utf8::encode_utf8(members_text(ms)) =~= Seq::<u8>::empty());
    } else {
        let kt = key_text(ms[0].0);
        let wt = written_text(ms[0].1);
        crate::text::lemma_utf8_concat(kt, wt);
        if ms.len() > 1 {
            let rest = members_text(ms.drop_first());
            lemma_members_bytes(ms.drop_first());
            crate::text::lemma_utf8_concat(kt + wt + seq![','], rest);
            crate::text::lemma_utf8_concat(kt + wt, seq![',']);
            crate::text::lemma_utf8_ascii_char(',');
            assert(vstd::utf8::encode_utf8(members_text(ms)) =~= members_bytes(ms));
            assert(members_text(ms) =~= kt + (wt + seq![','] + rest));
        } else {
            assert(members_text(ms) == kt + wt);
        }
        assert(members_text(ms)[0] == '"');
        lemma_first_byte(members_text(ms));
    }
}

/// Written members, read by the buffering reader where [`members_facts`] holds at the first:
/// [`members`] finds them all, at [`written_spans`], up to the closing brace.
#[verifier::spinoff_prover]
pub proof fn lemma_members_written(s: Seq<u8>, pre: Seq<u8>, ms: Seq<(Seq<char>, Written)>, b: u32)
    requires
        ms.len() >= 1,
        1 <= b,
        forall|i: int| 0 <= i < ms.len() ==> plain_key(#[trigger] ms[i].0),
        forall|i: int| 0 <= i < ms.len() ==> fits(#[trigger] ms[i].1, b),
        s == pre + members_bytes(ms) + seq![125u8],
        members_facts(s, pre.len() as int, Skip::Buffered(b)),
    ensures
        members(s, pre.len() as int, Skip::Buffered(b)) == Some((written_spans(ms, pre.len() as int), s.len() as int)),
        written_spans(ms, pre.len() as int).len() == ms.len(),
        forall|i: int|
            0 <= i < ms.len() ==> s.subrange(
                #[trigger] written_spans(ms, pre.len() as int)[i].0,
                written_spans(ms, pre.len() as int)[i].1,
            ) == vstd::utf8::encode_utf8(quoted(ms[i].0)) && s.subrange(
                written_spans(ms, pre.len() as int)[i].2,
                written_spans(ms, pre.len() as int)[i].3,
            ) == written_bytes(ms[i].1),
    decreases ms.len(),
{
    let k = pre.len() as int;
    let key = ms[0].0;
    let w = ms[0].1;
    assert(plain_key(ms[0].0));
    let kb = key_bytes(key);
    let wb = written_bytes(w);
    let sp = written_spans(ms, k);
    let ve = k + key.len() + 3 + wb.len();
    let first = (k, k + key.len() + 2, k + key.len() + 3, ve);
    let rest = ms.drop_first();
    assert(fits(ms[0].1, b));
    assert(sp == seq![first] + written_spans(rest, ve + 1));
    if ms.len() == 1 {
        let post = seq![125u8];
        assert(s == pre + kb + wb + post);
        lemma_member_buffered(s, pre, key, w, post, b);
        assert(written_spans(rest, ve + 1) =~= Seq::<MemberSpan>::empty());
        assert(sp =~= seq![first]);
    } else {
        let rb = members_bytes(rest);
        let pre2 = pre + kb + wb + seq![44u8];
        let post = seq![44u8] + rb + seq![125u8];
        assert(s =~= pre + kb + wb + post);
        lemma_members_bytes(rest);
        assert(post[1] == rb[0]);
        lemma_member_buffered(s, pre, key, w, post, b);
        assert(pre2.len() == ve + 1);
        assert(s =~= pre2 + rb + seq![125u8]);
        assert forall|i: int| 0 <= i < rest.len() implies plain_key(#[trigger] rest[i].0) by {
            assert(rest[i] == ms[i + 1]);
        }
        assert forall|i: int| 0 <= i < rest.len() implies fits(#[trigger] rest[i].1, b) by {
            assert(rest[i] == ms[i + 1]);
        }
        lemma_members_written(s, pre2, rest, b);
        let sp2 = written_spans(rest, ve + 1);
        assert forall|i: int| 0 <= i < ms.len() implies s.subrange(#[trigger] sp[i].0, sp[i].1)
            == vstd::utf8::encode_utf8(quoted(ms[i].0)) && s.subrange(sp[i].2, sp[i].3) == written_bytes(ms[i].1) by {
            if i > 0 {
                assert(sp[i] == sp2[i - 1]);
                assert(ms[i] == rest[i - 1]);
            }
        }
    }
}

/// A written object, as bytes, read by the buffering reader where [`members_facts`] holds at its
/// first member: one object whose members lie at [`written_spans`].
pub proof fn lemma_object_written(ms: Seq<(Seq<char>, Written)>, b: u32)
    requires
        ms.len() >= 1,
        1 <= b,
        forall|i: int| 0 <= i < ms.len() ==> plain_key(#[trigger] ms[i].0),
        forall|i: int| 0 <= i < ms.len() ==> fits(#[trigger] ms[i].1, b),
        members_facts(vstd::utf8::encode_utf8(object_text(ms)), 1, Skip::Buffered(b)),
    ensures
        ({
            let s = vstd::utf8::encode_utf8(object_text(ms));
            let sp = written_spans(ms, 1);
            &&& document_object(s, Skip::Buffered(b)) == Some(sp)
            &&& sp.len() == ms.len()
            &&& forall|i: int|
                0 <= i < ms.len() ==> s.subrange(#[trigger] sp[i].0, sp[i].1) == vstd::utf8::encode_utf8(
                    quoted(ms[i].0),
                ) && s.subrange(sp[i].2, sp[i].3) == written_bytes(ms[i].1)
        }),
{
    let m = members_text(ms);
    crate::text::lemma_utf8_concat(seq!['{'] + m, seq!['}']);
    crate::text::lemma_utf8_concat(seq!['{'], m);
    crate::text::lemma_utf8_ascii_char('{');
    crate::text::lemma_utf8_ascii_char('}');
    let s = vstd::utf8::encode_utf8(object_text(ms));
    lemma_members_bytes(ms);
    let mb = members_bytes(ms);
    assert(s =~= seq![123u8] + mb + seq![125u8]);
    lemma_members_written(s, seq![123u8], ms, b);
    assert(s[0] == 123);
    assert(s[1] == mb[0]);
    assert(skip_ws(s, 0) == 0);
    assert(skip_ws(s, 1) == 1);
    assert(skip_ws(s, s.len() as int) == s.len());
}

/// The document starts with an opening brace, directly.
pub proof fn lemma_object_start(ms: Seq<(Seq<char>, Written)>)
    requires
        ms.len() >= 1,
    ensures
        ({
            let s = vstd::utf8::encode_utf8(object_text(ms));
            &&& s.len() > 1
            &&& skip_ws(s, 0) == 0
            &&& s[0] == 123
            &&& skip_ws(s, 1) == 1
        }),
{
    let m = members_text(ms);
    crate::text::lemma_utf8_concat(seq!['{'] + m, seq!['}']);
    crate::text::lemma_utf8_concat(seq!['{'], m);
    crate::text::lemma_utf8_ascii_char('{');
    crate::text::lemma_utf8_ascii_char('}');
    let s = vstd::utf8::encode_utf8(object_text(ms));
    lemma_members_bytes(ms);
    let mb = members_bytes(ms);
    assert(s =~= seq![123u8] + mb + seq![125u8]);
    assert(s[1] == mb[0]);
}

/// Keys that each hold a written key read back as those keys, where each reads as
/// [`string_fact`] says once the keys before it have read.
pub proof fn lemma_keys_written(s: Seq<u8>, sp: Seq<MemberSpan>, names: Seq<Seq<char>>)
    requires
        sp.len() == names.len(),
        forall|i: int| 0 <= i < sp.len() ==> s.subrange(#[trigger] sp[i].0, sp[i].1) == vstd::utf8::encode_utf8(quoted(names[i])),
        forall|i: int|
            0 <= i < sp.len() && (forall|i2: int|
                0 <= i2 < i ==> spec_json_string(s.subrange(sp[i2].0, sp[i2].1)) is Some) ==> #[trigger] string_fact(
                s,
                sp[i].0,
                sp[i].1,
            ),
    ensures
        keys_of(s, sp) == Some(names),
        forall|i: int| 0 <= i < sp.len() ==> spec_json_string(s.subrange(#[trigger] sp[i].0, sp[i].1)) == Some(names[i]),
    decreases sp.len(),
{
    if sp.len() > 0 {
        let n = sp.len() - 1;
        let sd = sp.drop_last();
        let nd = names.drop_last();
        assert forall|i: int| 0 <= i < sd.len() implies s.subrange(#[trigger] sd[i].0, sd[i].1)
            == vstd::utf8::encode_utf8(quoted(nd[i])) by {
            assert(sd[i] == sp[i]);
        }
        assert forall|i: int|
            0 <= i < sd.len() && (forall|i2: int|
                0 <= i2 < i ==> spec_json_string(s.subrange(sd[i2].0, sd[i2].1)) is Some) implies #[trigger] string_fact(
            s,
            sd[i].0,
            sd[i].1,
        ) by {
            assert(sd[i] == sp[i]);
            assert forall|i2: int| 0 <= i2 < i implies spec_json_string(s.subrange(sp[i2].0, sp[i2].1)) is Some by {
                assert(sd[i2] == sp[i2]);
            }
        }
        lemma_keys_written(s, sd, nd);
        assert forall|i2: int| 0 <= i2 < n implies spec_json_string(s.subrange(sp[i2].0, sp[i2].1)) is Some by {
            assert(sd[i2] == sp[i2]);
        }
        assert(string_fact(s, sp[n].0, sp[n].1));
        assert(spec_json_string(s.subrange(sp[n].0, sp[n].1)) == Some(names[n]));
        assert(nd.push(names[n]) =~= names);
        assert forall|i: int| 0 <= i < sp.len() implies spec_json_string(s.subrange(#[trigger] sp[i].0, sp[i].1))
            == Some(names[i]) by {
            if i < n {
                assert(sd[i] == sp[i]);
            }
        }
    } else {
        assert(names =~= Seq::<Seq<char>>::empty());
    }
}

/// Among keys that are all different, a key is found once, at its place.
pub proof fn lemma_key_distinct(keys: Seq<Seq<char>>, i: int)
    requires
        0 <= i < keys.len(),
        forall|a: int, b: int| 0 <= a < b < keys.len() ==> keys[a] != keys[b],
    ensures
        key_count(keys, keys[i]) == 1,
        key_index(keys, keys[i]) == i,
    decreases keys.len(),
{
    let n = keys.len() - 1;
    let d = keys.drop_last();
    if i == n {
        lemma_key_absent(d, keys[i]);
    } else {
        assert(keys.last() != keys[i]);
        assert(d[i] == keys[i]);
        lemma_key_distinct(d, i);
    }
}

/// A key that no entry holds is counted zero times.
pub proof fn lemma_key_absent(keys: Seq<Seq<char>>, name: Seq<char>)
    requires
        forall|a: int| 0 <= a < keys.len() ==> keys[a] != name,
    ensures
        key_count(keys, name) == 0,
    decreases keys.len(),
{
    if keys.len() > 0 {
        let d = keys.drop_last();
        assert(keys.last() == keys[keys.len() - 1]);
        assert forall|a: int| 0 <= a < d.len() implies d[a] != name by {
            assert(d[a] == keys[a]);
        }
        lemma_key_absent(d, name);
    }
}

/// The members text from member `i` on: member `i`, then (where there are more) a comma and the
/// rest.
pub proof fn lemma_members_unfold(ms: Seq<(Seq<char>, Written)>, i: int)
    requires
        0 <= i < ms.len(),
    ensures
        i + 1 < ms.len() ==> members_text(ms.subrange(i, ms.len() as int)) == key_text(ms[i].0) + written_text(
            ms[i].1,
        ) + seq![','] + members_text(ms.subrange(i + 1, ms.len() as int)),
        i + 1 == ms.len() ==> members_text(ms.subrange(i, ms.len() as int)) == key_text(ms[i].0) + written_text(
            ms[i].1,
        ),
{
    let t = ms.subrange(i, ms.len() as int);
    assert(t[0] == ms[i]);
    assert(t.drop_first() =~= ms.subrange(i + 1, ms.len() as int));
}

/// A written object, as bytes, read by the buffering reader where [`members_facts`] holds at
/// the first member that [`document_object_x`] reaches: one object whose members hold the
/// written keys and values.
pub proof fn lemma_written_document(s: Seq<u8>, ms: Seq<(Seq<char>, Written)>, b: u32)
    requires
        ms.len() >= 1,
        1 <= b,
        forall|i: int| 0 <= i < ms.len() ==> plain_key(#[trigger] ms[i].0),
        forall|i: int| 0 <= i < ms.len() ==> fits(#[trigger] ms[i].1, b),
        s == vstd::utf8::encode_utf8(object_text(ms)),
        skip_ws(s, 0) < s.len() && s[skip_ws(s, 0)] == 123 ==> members_facts(
            s,
            skip_ws(s, skip_ws(s, 0) + 1),
            Skip::Buffered(b),
        ),
    ensures
        ({
            let sp = written_spans(ms, 1);
            &&& document_object(s, Skip::Buffered(b)) == Some(sp)
            &&& sp.len() == ms.len()
            &&& forall|i: int|
                0 <= i < ms.len() ==> s.subrange(#[trigger] sp[i].0, sp[i].1) == vstd::utf8::encode_utf8(
                    quoted(ms[i].0),
                ) && s.subrange(sp[i].2, sp[i].3) == written_bytes(ms[i].1)
        }),
{
    lemma_object_start(ms);
    lemma_object_written(ms, b);
}

/// Among keys that are all different, each is found once, at its place.
pub proof fn lemma_fields_distinct(keys: Seq<Seq<char>>, sp: Seq<MemberSpan>)
    requires
        sp.len() == keys.len(),
        forall|a: int, b: int| 0 <= a < b < keys.len() ==> keys[a] != keys[b],
    ensures
        forall|i: int| 0 <= i < keys.len() ==> field(keys, sp, #[trigger] keys[i]) == Some((sp[i].2, sp[i].3)),
{
    assert forall|i: int| 0 <= i < keys.len() implies field(keys, sp, #[trigger] keys[i]) == Some((sp[i].2, sp[i].3)) by {
        lemma_key_distinct(keys, i);
    }
}

/// A member's key text, as bytes, leaves a scan outside strings as it was.
pub proof fn lemma_nest_key(s: Seq<u8>, i: int, key: Seq<char>, end: int, d: int, b: int)
    requires
        0 <= i,
        plain_key(key),
        i + key_bytes(key).len() <= end <= s.len(),
        s.subrange(i, i + key_bytes(key).len()) == key_bytes(key),
    ensures
        nest_within(s, i, end, false, false, d, b) == nest_within(s, i + key_bytes(key).len(), end, false, false, d, b),
{
    reveal(key_bytes);
    lemma_key_bytes(key);
    let kb = key_bytes(key);
    let l = key.len() as int;
    assert(s[i] == kb[0]);
    assert forall|k: int| i + 1 <= k < i + 1 + l implies s[k] != 34 && s[k] != 92 by {
        assert(s[k] == kb[k - i]);
    }
    lemma_nest_plain(s, i + 1, l, end, d, b);
    assert(s[i + 1 + l] == kb[l + 1]);
    assert(s[i + 2 + l] == kb[l + 2]);
    assert(nest_within(s, i, end, false, false, d, b) == nest_within(s, i + 1, end, true, false, d, b));
    assert(nest_within(s, i + 1 + l, end, true, false, d, b) == nest_within(s, i + 2 + l, end, false, false, d, b));
    assert(nest_within(s, i + 2 + l, end, false, false, d, b) == nest_within(s, i + 3 + l, end, false, false, d, b));
}

/// A written value other than an object, as bytes, leaves a scan outside strings as it was,
/// where one more bracket has room.
pub proof fn lemma_nest_value(s: Seq<u8>, i: int, w: Written, end: int, d: int, b: int)
    requires
        0 <= i,
        0 <= d,
        d + 1 <= b,
        !(w is Object),
        i + written_bytes(w).len() <= end <= s.len(),
        s.subrange(i, i + written_bytes(w).len()) == written_bytes(w),
    ensures
        nest_within(s, i, end, false, false, d, b) == nest_within(s, i + written_bytes(w).len(), end, false, false, d, b),
{
    reveal(written_bytes);
    match w {
        Written::Text(t) => lemma_nest_quoted(s, i, t, end, d, b),
        Written::Nat(v) => lemma_nest_dec(s, i, v as nat, end, d, b),
        Written::List(items) => lemma_nest_list(s, i, items, end, d, b),
        Written::Object(_) => {},
    }
}

/// Flat members, as bytes, leave a scan outside strings as it was, where one more bracket has
/// room.
pub proof fn lemma_nest_members(s: Seq<u8>, i: int, ms: Seq<(Seq<char>, Written)>, end: int, d: int, b: int)
    requires
        0 <= i,
        0 <= d,
        d + 1 <= b,
        forall|k: int| 0 <= k < ms.len() ==> plain_key(#[trigger] ms[k].0) && !(ms[k].1 is Object),
        i + members_bytes(ms).len() <= end <= s.len(),
        s.subrange(i, i + members_bytes(ms).len()) == members_bytes(ms),
    ensures
        nest_within(s, i, end, false, false, d, b) == nest_within(s, i + members_bytes(ms).len(), end, false, false, d, b),
    decreases ms.len(),
{
    if ms.len() > 0 {
        assert(plain_key(ms[0].0) && !(ms[0].1 is Object));
        let kb = key_bytes(ms[0].0);
        let wb = written_bytes(ms[0].1);
        let whole = members_bytes(ms);
        let kl = kb.len() as int;
        let wl = wb.len() as int;
        assert(s.subrange(i, i + kl) =~= whole.subrange(0, kl));
        assert(whole.subrange(0, kl) =~= kb);
        lemma_nest_key(s, i, ms[0].0, end, d, b);
        assert(s.subrange(i + kl, i + kl + wl) =~= whole.subrange(kl, kl + wl));
        assert(whole.subrange(kl, kl + wl) =~= wb);
        lemma_nest_value(s, i + kl, ms[0].1, end, d, b);
        if ms.len() > 1 {
            let rest = ms.drop_first();
            let rb = members_bytes(rest);
            assert(s[i + kl + wl] == whole[kl + wl]);
            assert(whole[kl + wl] == 44);
            assert(nest_within(s, i + kl + wl, end, false, false, d, b) == nest_within(
                s,
                i + kl + wl + 1,
                end,
                false,
                false,
                d,
                b,
            ));
            assert(s.subrange(i + kl + wl + 1, i + kl + wl + 1 + rb.len()) =~= whole.subrange(
                kl + wl + 1,
                whole.len() as int,
            ));
            assert(whole.subrange(kl + wl + 1, whole.len() as int) =~= rb);
            assert forall|k: int| 0 <= k < rest.len() implies plain_key(#[trigger] rest[k].0) && !(rest[k].1 is Object) by {
                assert(rest[k] == ms[k + 1]);
            }
            lemma_nest_members(s, i + kl + wl + 1, rest, end, d, b);
        }
    }
}

/// A written object of flat members, as bytes, opens one brace and closes it again, where two
/// more brackets have room.
#[verifier::spinoff_prover]
pub proof fn lemma_nest_object(s: Seq<u8>, i: int, ms: Seq<(Seq<char>, Written)>, end: int, b: int)
    requires
        0 <= i,
        2 <= b,
        flat_members(ms),
        i + vstd::utf8::encode_utf8(object_text(ms)).len() <= end <= s.len(),
        s.subrange(i, i + vstd::utf8::encode_utf8(object_text(ms)).len()) == vstd::utf8::encode_utf8(object_text(ms)),
    ensures
        nest_within(s, i, end, false, false, 0, b) == nest_within(
            s,
            i + vstd::utf8::encode_utf8(object_text(ms)).len(),
            end,
            false,
            false,
            0,
            b,
        ),
{
    let m = members_text(ms);
    crate::text::lemma_utf8_concat(seq!['{'] + m, seq!['}']);
    crate::text::lemma_utf8_concat(seq!['{'], m);
    crate::text::lemma_utf8_ascii_char('{');
    crate::text::lemma_utf8_ascii_char('}');
    lemma_members_bytes(ms);
    let mb = members_bytes(ms);
    let n = mb.len() as int;
    let whole = vstd::utf8::encode_utf8(object_text(ms));
    assert(whole =~= seq![123u8] + mb + seq![125u8]);
    assert(s[i] == whole[0]);
    assert(nest_within(s, i, end, false, false, 0, b) == nest_within(s, i + 1, end, false, false, 1, b));
    assert(s.subrange(i + 1, i + 1 + n) =~= whole.subrange(1, 1 + n));
    assert(whole.subrange(1, 1 + n) =~= mb);
    assert forall|k: int| 0 <= k < ms.len() implies plain_key(#[trigger] ms[k].0) && !(ms[k].1 is Object) by {
        assert(flat_members(ms));
    }
    lemma_nest_members(s, i + 1, ms, end, 1, b);
    assert(s[i + 1 + n] == whole[1 + n]);
    assert(nest_within(s, i + 1 + n, end, false, false, 1, b) == nest_within(s, i + 2 + n, end, false, false, 0, b));
}

/// JSON whitespace is exactly space, tab, line feed and carriage return: from `i`, the reader
/// passes over such bytes only, and stops at the first byte that is none of them (or at the
/// end).
pub proof fn law_skip_ws(s: Seq<u8>, i: int)
    requires
        0 <= i <= s.len(),
    ensures
        i <= skip_ws(s, i) <= s.len(),
        forall|k: int| i <= k < skip_ws(s, i) ==> s[k] == 32 || s[k] == 9 || s[k] == 10 || s[k] == 13,
        skip_ws(s, i) < s.len() ==> !(s[skip_ws(s, i)] == 32 || s[skip_ws(s, i)] == 9 || s[skip_ws(s, i)] == 10
            || s[skip_ws(s, i)] == 13),
    decreases s.len() - i,
{
    if i < s.len() && is_ws(s[i]) {
        law_skip_ws(s, i + 1);
    }
}

/// Member spans moved `d` bytes on.
pub open spec fn shift_spans(ms: Seq<MemberSpan>, d: int) -> Seq<MemberSpan> {
    ms.map_values(|m: MemberSpan| (m.0 + d, m.1 + d, m.2 + d, m.3 + d))
}

/// A read of members moved `d` bytes on.
pub open spec fn shift_read(r: Option<(Seq<MemberSpan>, int)>, d: int) -> Option<(Seq<MemberSpan>, int)> {
    match r {
        Some(p) => Some((shift_spans(p.0, d), p.1 + d)),
        None => None,
    }
}

proof fn lemma_shift_skip_ws(p: Seq<u8>, s: Seq<u8>, i: int)
    requires
        0 <= i <= s.len(),
    ensures
        skip_ws(p + s, i + p.len()) == skip_ws(s, i) + p.len(),
    decreases s.len() - i,
{
    if i < s.len() {
        assert((p + s)[i + p.len()] == s[i]);
        if is_ws(s[i]) {
            lemma_shift_skip_ws(p, s, i + 1);
        }
    }
}

proof fn lemma_shift_str_close(p: Seq<u8>, s: Seq<u8>, j: int)
    requires
        0 <= j,
    ensures
        str_close(p + s, j + p.len()) == (match str_close(s, j) {
            Some(e) => Some(e + p.len()),
            None => None,
        }),
    decreases s.len() - j,
{
    if j < s.len() {
        assert((p + s)[j + p.len()] == s[j]);
        if s[j] != 34 {
            if s[j] == 92 {
                if j + 2 <= s.len() {
                    lemma_shift_str_close(p, s, j + 2);
                }
            } else {
                lemma_shift_str_close(p, s, j + 1);
            }
        }
    }
}

proof fn lemma_shift_nest(p: Seq<u8>, s: Seq<u8>, i: int, end: int, in_str: bool, esc: bool, d: int, b: int)
    requires
        0 <= i,
    ensures
        nest_within(p + s, i + p.len(), end + p.len(), in_str, esc, d, b) == nest_within(s, i, end, in_str, esc, d, b),
    decreases end - i,
{
    if i < end && end <= s.len() {
        assert((p + s)[i + p.len()] == s[i]);
        let c = s[i];
        if in_str {
            if esc {
                lemma_shift_nest(p, s, i + 1, end, true, false, d, b);
            } else if c == 92 {
                lemma_shift_nest(p, s, i + 1, end, true, true, d, b);
            } else if c == 34 {
                lemma_shift_nest(p, s, i + 1, end, false, false, d, b);
            } else {
                lemma_shift_nest(p, s, i + 1, end, true, false, d, b);
            }
        } else if c == 34 {
            lemma_shift_nest(p, s, i + 1, end, true, false, d, b);
        } else if c == 91 || c == 123 {
            lemma_shift_nest(p, s, i + 1, end, false, false, d + 1, b);
        } else if c == 93 || c == 125 {
            lemma_shift_nest(p, s, i + 1, end, false, false, if d > 0 { d - 1 } else { 0 }, b);
        } else {
            lemma_shift_nest(p, s, i + 1, end, false, false, d, b);
        }
    }
}

proof fn lemma_shift_value_end(p: Seq<u8>, s: Seq<u8>, i: int, skip: Skip)
    requires
        0 <= i,
    ensures
        value_end(p + s, i + p.len(), skip) == (match value_end(s, i, skip) {
            Some(e) => Some(e + p.len()),
            None => None,
        }),
{
    if i <= s.len() {
        let t = p + s;
        assert(t.subrange(i + p.len(), t.len() as int) =~= s.subrange(i, s.len() as int));
        match skip {
            Skip::Buffered(b) => {
                match spec_json_value_len(s.subrange(i, s.len() as int)) {
                    Some(n) => {
                        lemma_shift_nest(p, s, i, i + n, false, false, 0, b as int);
                    },
                    None => {},
                }
            },
            Skip::Ignored => {},
        }
    }
}

proof fn lemma_shift_members(p: Seq<u8>, s: Seq<u8>, k: int, skip: Skip)
    requires
        0 <= k,
    ensures
        members(p + s, k + p.len(), skip) == shift_read(members(s, k, skip), p.len() as int),
    decreases s.len() - k,
{
    let t = p + s;
    let d = p.len() as int;
    if k < s.len() {
        assert(t[k + d] == s[k]);
        if s[k] == 34 {
            lemma_shift_str_close(p, s, k + 1);
            match str_close(s, k + 1) {
                None => {},
                Some(ke) => {
                    lemma_str_close(s, k + 1);
                    lemma_shift_skip_ws(p, s, ke);
                    lemma_skip_ws(s, ke);
                    let c = skip_ws(s, ke);
                    if c < s.len() {
                        assert(t[c + d] == s[c]);
                        if s[c] == 58 {
                            lemma_shift_skip_ws(p, s, c + 1);
                            lemma_skip_ws(s, c + 1);
                            let vs = skip_ws(s, c + 1);
                            lemma_shift_value_end(p, s, vs, skip);
                            match value_end(s, vs, skip) {
                                None => {},
                                Some(ve) => {
                                    lemma_value_end(s, vs, skip);
                                    lemma_shift_skip_ws(p, s, ve);
                                    lemma_skip_ws(s, ve);
                                    let n = skip_ws(s, ve);
                                    if n < s.len() {
                                        assert(t[n + d] == s[n]);
                                        if s[n] == 44 {
                                            lemma_shift_skip_ws(p, s, n + 1);
                                            lemma_skip_ws(s, n + 1);
                                            let k2 = skip_ws(s, n + 1);
                                            if k < k2 && k2 <= s.len() {
                                                lemma_shift_members(p, s, k2, skip);
                                                let first = seq![(k, ke, vs, ve)];
                                                match members(s, k2, skip) {
                                                    Some(r) => {
                                                        assert(shift_spans(first + r.0, d) =~= shift_spans(first, d)
                                                            + shift_spans(r.0, d));
                                                    },
                                                    None => {},
                                                }
                                                assert(shift_spans(first, d) =~= seq![(k + d, ke + d, vs + d, ve + d)]);
                                            }
                                        } else if s[n] == 125 {
                                            assert(shift_spans(seq![(k, ke, vs, ve)], d) =~= seq![
                                                (k + d, ke + d, vs + d, ve + d),
                                            ]);
                                        }
                                    }
                                },
                            }
                        }
                    }
                },
            }
        }
    }
}

/// Whitespace before a document changes nothing but where its members lie: an object read
/// from `s` with space, tab, line feed and carriage return bytes put before it is read as the
/// same members, each moved on by the number of bytes put before it.
pub proof fn law_whitespace_before_object(ws: Seq<u8>, s: Seq<u8>, skip: Skip)
    requires
        forall|k: int| 0 <= k < ws.len() ==> #[trigger] ws[k] == 32 || ws[k] == 9 || ws[k] == 10 || ws[k] == 13,
    ensures
        document_object(ws + s, skip) == (match document_object(s, skip) {
            Some(ms) => Some(shift_spans(ms, ws.len() as int)),
            None => None,
        }),
{
    let t = ws + s;
    let d = ws.len() as int;
    lemma_ws_front(ws, s, 0);
    lemma_shift_skip_ws(ws, s, 0);
    lemma_skip_ws(s, 0);
    let i = skip_ws(s, 0);
    if i < s.len() {
        assert(t[i + d] == s[i]);
        if s[i] == 123 {
            lemma_skip_ws(s, i + 1);
            lemma_shift_skip_ws(ws, s, i + 1);
            lemma_shift_members(ws, s, skip_ws(s, i + 1), skip);
            let k = skip_ws(s, i + 1);
            if k < s.len() {
                assert(t[k + d] == s[k]);
            }
            match object_body(s, i + 1, skip) {
                Some(r) => {
                    lemma_object_body_end(s, i + 1, skip);
                    lemma_shift_skip_ws(ws, s, r.1);
                    lemma_skip_ws(s, r.1);
                },
                None => {},
            }
        }
    }
}

/// Whitespace bytes in front are passed over.
proof fn lemma_ws_front(ws: Seq<u8>, s: Seq<u8>, i: int)
    requires
        0 <= i <= ws.len(),
        forall|k: int| 0 <= k < ws.len() ==> #[trigger] ws[k] == 32 || ws[k] == 9 || ws[k] == 10 || ws[k] == 13,
    ensures
        skip_ws(ws + s, i) == skip_ws(ws + s, ws.len() as int),
    decreases ws.len() - i,
{
    if i < ws.len() {
        assert((ws + s)[i] == ws[i]);
        lemma_ws_front(ws, s, i + 1);
    }
}

/// A read of members ends within the text.
proof fn lemma_members_end(s: Seq<u8>, k: int, skip: Skip)
    ensures
        members(s, k, skip) matches Some(r) ==> 1 <= r.1 <= s.len(),
    decreases s.len() - k,
{
    if 0 <= k < s.len() && s[k] == 34 {
        match str_close(s, k + 1) {
            None => {},
            Some(ke) => {
                let c = skip_ws(s, ke);
                if 0 <= c < s.len() && s[c] == 58 {
                    let vs = skip_ws(s, c + 1);
                    match value_end(s, vs, skip) {
                        None => {},
                        Some(ve) => {
                            let n = skip_ws(s, ve);
                            if 0 <= n < s.len() && s[n] == 44 {
                                let k2 = skip_ws(s, n + 1);
                                if k < k2 && k2 <= s.len() {
                                    lemma_members_end(s, k2, skip);
                                }
                            }
                        },
                    }
                }
            },
        }
    }
}

/// An object body read ends within the text.
proof fn lemma_object_body_end(s: Seq<u8>, j: int, skip: Skip)
    ensures
        object_body(s, j, skip) matches Some(r) ==> 0 <= r.1 <= s.len(),
{
    lemma_members_end(s, skip_ws(s, j), skip);
}

} // verus!
