//! The writers' texts are one-to-one: a written string, number or list of strings can be
//! read off the front of any text that starts with it, so texts built from them in a fixed
//! layout determine every value they were built from.

use vstd::prelude::*;
use crate::json::{escape_char, escaped, joined, quoted, string_list};
use crate::text::{dec_of, hex_digit};

verus! {

/// Where the closing quote of a string's content stands: the scan steps over a backslash and
/// the character after it.
pub open spec fn quote_at(t: Seq<char>) -> int
    decreases t.len(),
{
    if t.len() == 0 {
        0
    } else if t[0] == '"' {
        0
    } else if t[0] == '\\' && t.len() >= 2 {
        2 + quote_at(t.subrange(2, t.len() as int))
    } else {
        1 + quote_at(t.subrange(1, t.len() as int))
    }
}

/// The escaped characters of a text, written from the front: the first character's escape,
/// then the rest.
pub proof fn lemma_escaped_front(a: Seq<char>)
    requires
        a.len() > 0,
    ensures
        escaped(a) == escape_char(a[0]) + escaped(a.drop_first()),
    decreases a.len(),
{
    if a.len() == 1 {
        assert(a.drop_last() =~= Seq::<char>::empty());
        assert(a.drop_first() =~= Seq::<char>::empty());
        assert(escaped(a.drop_first()) =~= Seq::<char>::empty());
        assert(escaped(a) =~= escape_char(a[0]));
    } else {
        let d = a.drop_last();
        lemma_escaped_front(d);
        assert(d[0] == a[0]);
        assert(a.drop_first().drop_last() =~= d.drop_first());
        assert(a.drop_first().last() == a.last());
        assert(escaped(a.drop_first()) == escaped(d.drop_first()) + escape_char(a.last()));
        assert(escaped(a) =~= escape_char(a[0]) + escaped(a.drop_first()));
    }
}

/// A hex digit is neither a quote nor a backslash, and tells its value back.
pub proof fn lemma_hex_digit(n: int)
    requires
        0 <= n < 16,
    ensures
        hex_digit(n) != '"',
        hex_digit(n) != '\\',
        forall|m: int| 0 <= m < 16 && hex_digit(m) == hex_digit(n) ==> m == n,
{
    assert forall|m: int| 0 <= m < 16 && hex_digit(m) == hex_digit(n) implies m == n by {
        assert((hex_digit(m) as u32) == (hex_digit(n) as u32));
    }
}

/// The scan for the closing quote passes over one escaped character whole.
pub proof fn lemma_quote_at_char(c: char, rest: Seq<char>)
    ensures
        quote_at(escape_char(c) + rest) == escape_char(c).len() + quote_at(rest),
{
    let e = escape_char(c);
    let t = e + rest;
    let v = c as u32;
    if c == '"' || c == '\\' || v == 8 || v == 12 || v == 10 || v == 13 || v == 9 {
        assert(t[0] == '\\');
        assert(t.subrange(2, t.len() as int) =~= rest);
    } else if v < 32 {
        lemma_hex_digit((v / 16) as int);
        lemma_hex_digit((v % 16) as int);
        let t2 = t.subrange(2, t.len() as int);
        let t3 = t2.subrange(1, t2.len() as int);
        let t4 = t3.subrange(1, t3.len() as int);
        let t5 = t4.subrange(1, t4.len() as int);
        let t6 = t5.subrange(1, t5.len() as int);
        assert(t6 =~= rest);
        assert(t[0] == '\\');
        assert(t2[0] == '0');
        assert(t3[0] == '0');
        assert(t4[0] == hex_digit((v / 16) as int));
        assert(t5[0] == hex_digit((v % 16) as int));
        assert(quote_at(t5) == 1 + quote_at(t6));
        assert(quote_at(t4) == 1 + quote_at(t5));
        assert(quote_at(t3) == 1 + quote_at(t4));
        assert(quote_at(t2) == 1 + quote_at(t3));
    } else {
        assert(t[0] == c);
        assert(t.subrange(1, t.len() as int) =~= rest);
    }
}

/// The scan for the closing quote passes over escaped text whole.
pub proof fn lemma_quote_at_escaped(a: Seq<char>, rest: Seq<char>)
    ensures
        quote_at(escaped(a) + rest) == escaped(a).len() + quote_at(rest),
    decreases a.len(),
{
    if a.len() == 0 {
        assert(escaped(a) =~= Seq::<char>::empty());
        assert(escaped(a) + rest =~= rest);
    } else {
        lemma_escaped_front(a);
        let e = escape_char(a[0]);
        let r = escaped(a.drop_first());
        assert(escaped(a) + rest =~= e + (r + rest));
        lemma_quote_at_char(a[0], r + rest);
        lemma_quote_at_escaped(a.drop_first(), rest);
    }
}

/// The length of one character's escape, read off its first two characters.
pub open spec fn escape_len(t: Seq<char>) -> int {
    if t.len() == 0 || t[0] != '\\' {
        1
    } else if t.len() >= 2 && t[1] == 'u' {
        6
    } else {
        2
    }
}

/// One character's escape can be read off the front of any text that starts with it.
pub proof fn lemma_escape_char_front(c: char, d: char, x: Seq<char>, y: Seq<char>)
    requires
        escape_char(c) + x == escape_char(d) + y,
    ensures
        c == d,
        x == y,
{
    let e = escape_char(c);
    let f = escape_char(d);
    let t = e + x;
    let vc = c as u32;
    let vd = d as u32;
    assert(t[0] == e[0] && t[0] == f[0]);
    assert(e.len() >= 2 ==> t[1] == e[1]);
    assert(f.len() >= 2 ==> t[1] == f[1]);
    assert(e.len() == escape_len(t));
    assert(f.len() == escape_len(t));
    assert(e =~= t.subrange(0, e.len() as int));
    assert(f =~= t.subrange(0, f.len() as int));
    assert(e == f);
    assert(x =~= t.subrange(e.len() as int, t.len() as int));
    assert(y =~= t.subrange(f.len() as int, t.len() as int));
    if e.len() == 6 {
        lemma_hex_digit((vc / 16) as int);
        lemma_hex_digit((vc % 16) as int);
        lemma_hex_digit((vd / 16) as int);
        lemma_hex_digit((vd % 16) as int);
        assert(e[4] == f[4] && e[5] == f[5]);
        assert(vc / 16 == vd / 16);
        assert(vc % 16 == vd % 16);
        assert(vc == vd);
    } else if e.len() == 2 {
        assert(e[1] == f[1]);
    } else {
        assert(e[0] == f[0]);
    }
}

/// Escaped texts are one-to-one.
pub proof fn lemma_escaped_injective(a: Seq<char>, b: Seq<char>)
    requires
        escaped(a) == escaped(b),
    ensures
        a == b,
    decreases a.len(),
{
    if a.len() == 0 {
        assert(escaped(a) =~= Seq::<char>::empty());
        if b.len() > 0 {
            lemma_escaped_front(b);
        }
        assert(b =~= a);
    } else {
        lemma_escaped_front(a);
        if b.len() == 0 {
            assert(escaped(b) =~= Seq::<char>::empty());
        } else {
            lemma_escaped_front(b);
            lemma_escape_char_front(a[0], b[0], escaped(a.drop_first()), escaped(b.drop_first()));
            lemma_escaped_injective(a.drop_first(), b.drop_first());
            assert(a =~= seq![a[0]] + a.drop_first());
            assert(b =~= seq![b[0]] + b.drop_first());
        }
    }
}

/// A written string can be read off the front of any text that starts with it: the text
/// after it, and the string itself, are determined.
pub proof fn lemma_quoted_front(a: Seq<char>, b: Seq<char>, x: Seq<char>, y: Seq<char>)
    requires
        quoted(a) + x == quoted(b) + y,
    ensures
        a == b,
        x == y,
{
    let t = quoted(a) + x;
    let ea = escaped(a);
    let eb = escaped(b);
    let u = t.subrange(1, t.len() as int);
    assert(u =~= ea + (seq!['"'] + x));
    assert(u =~= eb + (seq!['"'] + y));
    lemma_quote_at_escaped(a, seq!['"'] + x);
    lemma_quote_at_escaped(b, seq!['"'] + y);
    assert((seq!['"'] + x)[0] == '"');
    assert((seq!['"'] + y)[0] == '"');
    assert(ea.len() == eb.len());
    assert(ea =~= u.subrange(0, ea.len() as int));
    assert(eb =~= u.subrange(0, eb.len() as int));
    lemma_escaped_injective(a, b);
    assert(x =~= u.subrange(ea.len() as int + 1, u.len() as int));
    assert(y =~= u.subrange(eb.len() as int + 1, u.len() as int));
}

/// A common front can be taken off two equal texts.
pub proof fn lemma_cancel_front<A>(p: Seq<A>, x: Seq<A>, y: Seq<A>)
    requires
        p + x == p + y,
    ensures
        x == y,
{
    assert(x =~= (p + x).subrange(p.len() as int, (p + x).len() as int));
    assert(y =~= (p + y).subrange(p.len() as int, (p + y).len() as int));
}

/// Whether a character is a decimal digit.
pub open spec fn is_digit(c: char) -> bool {
    48 <= c as u32 <= 57
}

/// How many decimal digits a text starts with.
pub open spec fn digit_run(t: Seq<char>) -> int
    decreases t.len(),
{
    if t.len() > 0 && is_digit(t[0]) {
        1 + digit_run(t.subrange(1, t.len() as int))
    } else {
        0
    }
}

/// The number that a text of decimal digits stands for.
pub open spec fn digits_value(t: Seq<char>) -> int
    decreases t.len(),
{
    if t.len() == 0 {
        0
    } else {
        10 * digits_value(t.drop_last()) + (t.last() as int - 48)
    }
}

/// The decimal text of a number stands for that number.
pub proof fn lemma_dec_value(n: nat)
    ensures
        digits_value(dec_of(n)) == n,
    decreases n,
{
    if n < 10 {
        assert(dec_of(n) == seq![crate::text::digit_char(n)]);
        assert(dec_of(n).drop_last() =~= Seq::<char>::empty());
        assert((crate::text::digit_char(n) as u32) == n + 48);
        assert((crate::text::digit_char(n) as int) == n + 48);
        assert(digits_value(Seq::<char>::empty()) == 0);
    } else {
        lemma_dec_value(n / 10);
        let last = crate::text::digit_char(n % 10);
        assert(dec_of(n) == dec_of(n / 10).push(last));
        assert(dec_of(n).drop_last() =~= dec_of(n / 10));
        assert((last as u32) == n % 10 + 48);
        assert((last as int) == n % 10 + 48);
        assert(dec_of(n).last() == last);
        assert(n == 10 * (n / 10) + n % 10) by (nonlinear_arith);
    }
}

/// A run of digits followed by a non-digit (or nothing) is counted whole.
pub proof fn lemma_digit_run(d: Seq<char>, x: Seq<char>)
    requires
        forall|k: int| 0 <= k < d.len() ==> is_digit(#[trigger] d[k]),
        x.len() == 0 || !is_digit(x[0]),
    ensures
        digit_run(d + x) == d.len(),
    decreases d.len(),
{
    if d.len() == 0 {
        assert(d + x =~= x);
    } else {
        let r = d.subrange(1, d.len() as int);
        assert forall|k: int| 0 <= k < r.len() implies is_digit(#[trigger] r[k]) by {
            assert(r[k] == d[k + 1]);
        }
        lemma_digit_run(r, x);
        assert((d + x).subrange(1, (d + x).len() as int) =~= r + x);
        assert((d + x)[0] == d[0]);
    }
}

/// A written number can be read off the front of a text where a non-digit follows it.
pub proof fn lemma_dec_front(n: nat, m: nat, x: Seq<char>, y: Seq<char>)
    requires
        dec_of(n) + x == dec_of(m) + y,
        x.len() > 0 && !is_digit(x[0]),
        y.len() > 0 && !is_digit(y[0]),
    ensures
        n == m,
        x == y,
{
    crate::json::lemma_dec_digits(n);
    crate::json::lemma_dec_digits(m);
    let a = dec_of(n);
    let b = dec_of(m);
    assert forall|k: int| 0 <= k < a.len() implies is_digit(#[trigger] a[k]) by {}
    assert forall|k: int| 0 <= k < b.len() implies is_digit(#[trigger] b[k]) by {}
    lemma_digit_run(a, x);
    lemma_digit_run(b, y);
    let t = a + x;
    assert(a =~= t.subrange(0, a.len() as int));
    assert(b =~= t.subrange(0, b.len() as int));
    lemma_dec_value(n);
    lemma_dec_value(m);
    assert(x =~= t.subrange(a.len() as int, t.len() as int));
    assert(y =~= t.subrange(b.len() as int, t.len() as int));
}

/// Joined items, written from the front: the first item, then a comma and the rest.
pub proof fn lemma_joined_front(items: Seq<Seq<char>>)
    requires
        items.len() >= 1,
    ensures
        items.len() == 1 ==> joined(items) == quoted(items[0]),
        items.len() >= 2 ==> joined(items) == quoted(items[0]) + seq![','] + joined(items.drop_first()),
    decreases items.len(),
{
    if items.len() >= 2 {
        let d = items.drop_last();
        lemma_joined_front(d);
        assert(d[0] == items[0]);
        let r = items.drop_first();
        if items.len() == 2 {
            assert(d.len() == 1);
            assert(r.len() == 1 && r[0] == items.last());
            assert(joined(items) =~= quoted(items[0]) + seq![','] + joined(r));
        } else {
            assert(r.drop_last() =~= d.drop_first());
            assert(r.last() == items.last());
            assert(joined(r) == joined(d.drop_first()) + seq![','] + quoted(items.last()));
            assert(joined(items) =~= quoted(items[0]) + seq![','] + joined(r));
        }
    }
}

/// A written string starts with a quote.
pub proof fn lemma_quoted_starts(a: Seq<char>)
    ensures
        quoted(a).len() >= 2,
        quoted(a)[0] == '"',
{
}

/// Joined items followed by a closing bracket can be read off the front of a text.
pub proof fn lemma_joined_close(a: Seq<Seq<char>>, b: Seq<Seq<char>>, x: Seq<char>, y: Seq<char>)
    requires
        joined(a) + (seq![']'] + x) == joined(b) + (seq![']'] + y),
    ensures
        a == b,
        x == y,
    decreases a.len(),
{
    let ta = joined(a) + (seq![']'] + x);
    if a.len() == 0 {
        assert(joined(a) =~= Seq::<char>::empty());
        if b.len() > 0 {
            lemma_joined_front(b);
            lemma_quoted_starts(b[0]);
            assert(ta[0] == ']');
            assert(ta[0] == joined(b)[0]);
        }
        assert(joined(b) =~= Seq::<char>::empty());
        assert(b =~= a);
        assert(ta =~= seq![']'] + x);
        lemma_cancel_front(seq![']'], x, y);
    } else {
        lemma_joined_front(a);
        lemma_quoted_starts(a[0]);
        if b.len() == 0 {
            assert(joined(b) =~= Seq::<char>::empty());
            assert(ta[0] == joined(a)[0]);
        } else {
            lemma_joined_front(b);
            let ra = if a.len() >= 2 { seq![','] + joined(a.drop_first()) } else { Seq::<char>::empty() };
            let rb = if b.len() >= 2 { seq![','] + joined(b.drop_first()) } else { Seq::<char>::empty() };
            assert(joined(a) == quoted(a[0]) + ra);
            assert(joined(b) == quoted(b[0]) + rb);
            assert(ta =~= quoted(a[0]) + (ra + (seq![']'] + x)));
            assert(joined(b) + (seq![']'] + y) =~= quoted(b[0]) + (rb + (seq![']'] + y)));
            lemma_quoted_front(a[0], b[0], ra + (seq![']'] + x), rb + (seq![']'] + y));
            let sa = ra + (seq![']'] + x);
            let sb = rb + (seq![']'] + y);
            if a.len() >= 2 && b.len() >= 2 {
                assert(sa =~= seq![','] + (joined(a.drop_first()) + (seq![']'] + x)));
                assert(sb =~= seq![','] + (joined(b.drop_first()) + (seq![']'] + y)));
                lemma_cancel_front(seq![','], joined(a.drop_first()) + (seq![']'] + x), joined(b.drop_first()) + (seq![']'] + y));
                lemma_joined_close(a.drop_first(), b.drop_first(), x, y);
                assert(a =~= seq![a[0]] + a.drop_first());
                assert(b =~= seq![b[0]] + b.drop_first());
            } else if a.len() >= 2 {
                assert(sa[0] == ',');
                assert(sb[0] == ']');
            } else if b.len() >= 2 {
                assert(sa[0] == ']');
                assert(sb[0] == ',');
            } else {
                assert(sa =~= seq![']'] + x);
                assert(sb =~= seq![']'] + y);
                lemma_cancel_front(seq![']'], x, y);
                assert(a =~= b);
            }
        }
    }
}

/// A written list of strings can be read off the front of any text that starts with it.
pub proof fn lemma_list_front(a: Seq<Seq<char>>, b: Seq<Seq<char>>, x: Seq<char>, y: Seq<char>)
    requires
        string_list(a) + x == string_list(b) + y,
    ensures
        a == b,
        x == y,
{
    assert(string_list(a) + x =~= seq!['['] + (joined(a) + (seq![']'] + x)));
    assert(string_list(b) + y =~= seq!['['] + (joined(b) + (seq![']'] + y)));
    lemma_cancel_front(seq!['['], joined(a) + (seq![']'] + x), joined(b) + (seq![']'] + y));
    lemma_joined_close(a, b, x, y);
}

/// Texts joined in order are the same however they are grouped.
pub proof fn lemma_regroup<A>(p: Seq<A>, l: Seq<A>, v: Seq<A>, r: Seq<A>)
    ensures
        p + l + v + r == p + (l + (v + r)),
        l + v + r == l + (v + r),
{
    assert(p + l + v + r =~= p + (l + (v + r)));
    assert(l + v + r =~= l + (v + r));
}

} // verus!
