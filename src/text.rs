//! Text helpers: character views of strings, replacement, decimal notation, and the
//! std conversions the library relies on.

use vstd::prelude::*;

verus! {

/// Relies on `str::chars`: it yields the characters of the string in order.
#[verifier::external_body]
pub(crate) fn chars_of(s: &str) -> (r: Vec<char>)
    ensures
        r@ == s@,
{
    s.chars().collect()
}

/// Relies on `String: FromIterator<char>`: the string holds the characters in order.
#[verifier::external_body]
pub(crate) fn string_of(v: &Vec<char>) -> (r: String)
    ensures
        r@ == v@,
{
    v.iter().collect()
}

/// Every non-overlapping occurrence of `pat` in `s`, scanning from the left, replaced by
/// `rep`.
pub open spec fn replace_all(s: Seq<char>, pat: Seq<char>, rep: Seq<char>) -> Seq<char>
    decreases s.len(),
{
    if pat.len() == 0 || s.len() < pat.len() {
        s
    } else if s.take(pat.len() as int) == pat {
        rep + replace_all(s.skip(pat.len() as int), pat, rep)
    } else {
        seq![s[0]] + replace_all(s.skip(1), pat, rep)
    }
}

pub(crate) fn starts_with_at(s: &Vec<char>, i: usize, pat: &Vec<char>) -> (r: bool)
    requires
        i <= s@.len(),
    ensures
        r == (s@.len() - i >= pat@.len() && s@.skip(i as int).take(pat@.len() as int) == pat@),
{
    if s.len() - i < pat.len() {
        return false;
    }
    let mut j: usize = 0;
    let slen = s.len();
    while j < pat.len()
        invariant
            slen == s@.len(),
            i <= s@.len(),
            s@.len() - i >= pat@.len(),
            j <= pat@.len(),
            forall|q: int| 0 <= q < j ==> s@[i + q] == pat@[q],
        decreases pat@.len() - j,
    {
        if s[i + j] != pat[j] {
            assert(s@.skip(i as int).take(pat@.len() as int)[j as int] != pat@[j as int]);
            return false;
        }
        j = j + 1;
    }
    assert(s@.skip(i as int).take(pat@.len() as int) =~= pat@);
    true
}

fn push_all(out: &mut Vec<char>, extra: &Vec<char>)
    ensures
        final(out)@ == old(out)@ + extra@,
{
    let mut j: usize = 0;
    let ghost start = out@;
    while j < extra.len()
        invariant
            j <= extra@.len(),
            out@ == start + extra@.take(j as int),
        decreases extra@.len() - j,
    {
        out.push(extra[j]);
        j = j + 1;
        assert(out@ =~= start + extra@.take(j as int));
    }
    assert(extra@.take(j as int) =~= extra@);
}

/// Replaces every occurrence of `pat` by `rep`, as `replace_all` describes.
pub(crate) fn replace_chars(s: &Vec<char>, pat: &Vec<char>, rep: &Vec<char>) -> (r: Vec<char>)
    requires
        pat@.len() > 0,
    ensures
        r@ == replace_all(s@, pat@, rep@),
{
    let mut out: Vec<char> = Vec::new();
    let mut i: usize = 0;
    assert(s@.skip(0) =~= s@);
    while i < s.len()
        invariant
            pat@.len() > 0,
            i <= s@.len(),
            replace_all(s@, pat@, rep@) == out@ + replace_all(s@.skip(i as int), pat@, rep@),
        decreases s@.len() - i,
    {
        let ghost rest = s@.skip(i as int);
        let ghost out0 = out@;
        if starts_with_at(s, i, pat) {
            push_all(&mut out, rep);
            assert(rest.skip(pat@.len() as int) =~= s@.skip(i + pat@.len()));
            let ghost tail = replace_all(rest.skip(pat@.len() as int), pat@, rep@);
            assert(out0 + (rep@ + tail) =~= (out0 + rep@) + tail);
            i = i + pat.len();
        } else {
            out.push(s[i]);
            proof {
                assert(rest.skip(1) =~= s@.skip(i + 1));
                if rest.len() >= pat@.len() {
                    assert(rest.take(pat@.len() as int) != pat@);
                }
                assert(rest[0] == s@[i as int]);
                let tail = replace_all(rest.skip(1), pat@, rep@);
                if rest.len() < pat@.len() {
                    assert(replace_all(rest, pat@, rep@) == rest);
                    assert(replace_all(rest.skip(1), pat@, rep@) == rest.skip(1));
                    assert(rest =~= seq![rest[0]] + rest.skip(1));
                }
                assert(out0 + (seq![rest[0]] + tail) =~= out0.push(rest[0]) + tail);
            }
            i = i + 1;
        }
    }
    assert(s@.skip(i as int) =~= Seq::<char>::empty());
    assert(out@ + Seq::<char>::empty() =~= out@);
    out
}

/// Replaces `pat` by `rep` in the text of `s`.
pub(crate) fn replace_str(s: &Vec<char>, pat: &str, rep: &str) -> (r: Vec<char>)
    requires
        pat@.len() > 0,
    ensures
        r@ == replace_all(s@, pat@, rep@),
{
    let p = chars_of(pat);
    let q = chars_of(rep);
    replace_chars(s, &p, &q)
}

/// Character-wise equality of two texts.
pub(crate) fn same_text(a: &Vec<char>, b: &str) -> (r: bool)
    ensures
        r == (a@ == b@),
{
    let bs = chars_of(b);
    if a.len() != bs.len() {
        return false;
    }
    let mut i: usize = 0;
    while i < a.len()
        invariant
            a@.len() == bs@.len(),
            bs@ == b@,
            i <= a@.len(),
            forall|q: int| 0 <= q < i ==> a@[q] == bs@[q],
        decreases a@.len() - i,
    {
        if a[i] != bs[i] {
            return false;
        }
        i = i + 1;
    }
    assert(a@ =~= bs@);
    true
}

} // verus!

verus! {

/// The decimal digit for `d < 10`.
pub open spec fn digit_char(d: nat) -> char {
    ((d + 48) as u32) as char
}

/// Decimal notation of `n`, without leading zeros.
pub open spec fn decimal(n: nat) -> Seq<char>
    decreases n,
{
    if n < 10 {
        seq![digit_char(n)]
    } else {
        decimal(n / 10).push(digit_char(n % 10))
    }
}

/// Decimal notation of `n`.
pub(crate) fn decimal_chars(n: u64) -> (r: Vec<char>)
    ensures
        r@ == decimal(n as nat),
    decreases n,
{
    if n < 10 {
        let mut v: Vec<char> = Vec::new();
        v.push(digit_of(n));
        assert(v@ =~= seq![digit_char(n as nat)]);
        v
    } else {
        let mut v = decimal_chars(n / 10);
        v.push(digit_of(n % 10));
        v
    }
}

fn digit_of(d: u64) -> (c: char)
    requires
        d < 10,
    ensures
        c == digit_char(d as nat),
{
    let c = if d == 0 { '0' } else if d == 1 { '1' } else if d == 2 { '2' } else if d == 3 { '3' } else if d == 4 {
        '4'
    } else if d == 5 { '5' } else if d == 6 { '6' } else if d == 7 { '7' } else if d == 8 { '8' } else { '9' };
    c
}

/// Appends the characters of `s` to `out`.
pub(crate) fn push_str(out: &mut Vec<char>, s: &str)
    ensures
        final(out)@ == old(out)@ + s@,
{
    let cs = chars_of(s);
    push_all(out, &cs);
}

/// Appends `extra` to `out`.
pub(crate) fn push_chars(out: &mut Vec<char>, extra: &Vec<char>)
    ensures
        final(out)@ == old(out)@ + extra@,
{
    push_all(out, extra);
}

} // verus!

verus! {

/// `s` without the leading `pre` and trailing `suf`, when it has both (the suffix looked for
/// after the prefix is removed).
pub open spec fn strip_around(s: Seq<char>, pre: Seq<char>, suf: Seq<char>) -> Option<Seq<char>> {
    if s.len() >= pre.len() && s.take(pre.len() as int) == pre {
        let rest = s.skip(pre.len() as int);
        if rest.len() >= suf.len() && rest.skip(rest.len() - suf.len()) == suf {
            Some(rest.take(rest.len() - suf.len()))
        } else {
            None
        }
    } else {
        None
    }
}

/// Strips `pre` and `suf` from the text of `s`, as `strip_around` describes.
pub(crate) fn strip_text(s: &str, pre: &str, suf: &str) -> (r: Option<Vec<char>>)
    ensures
        match r {
            Some(v) => strip_around(s@, pre@, suf@) == Some(v@),
            None => strip_around(s@, pre@, suf@) is None,
        },
{
    let cs = chars_of(s);
    let p = chars_of(pre);
    let q = chars_of(suf);
    assert(cs@.skip(0) =~= cs@);
    if !starts_with_at(&cs, 0, &p) {
        return None;
    }
    let start = p.len();
    if cs.len() - start < q.len() {
        return None;
    }
    let end = cs.len() - q.len();
    let ghost rest = cs@.skip(start as int);
    assert(rest.skip(rest.len() - q@.len()) =~= cs@.skip(end as int));
    if !starts_with_at(&cs, end, &q) {
        assert(cs@.skip(end as int).take(q@.len() as int) =~= cs@.skip(end as int));
        return None;
    }
    assert(cs@.skip(end as int).take(q@.len() as int) =~= cs@.skip(end as int));
    let mut out: Vec<char> = Vec::new();
    let mut i: usize = start;
    while i < end
        invariant
            start <= i <= end,
            end <= cs@.len(),
            out@ == cs@.subrange(start as int, i as int),
        decreases end - i,
    {
        out.push(cs[i]);
        i = i + 1;
        assert(out@ =~= cs@.subrange(start as int, i as int));
    }
    assert(rest.take(rest.len() - q@.len()) =~= cs@.subrange(start as int, end as int));
    Some(out)
}

/// Relies on `String::from_utf8`: it fails exactly on bytes that are not UTF-8, and
/// otherwise holds the characters they encode.
#[verifier::external_body]
pub(crate) fn string_from_utf8(bytes: Vec<u8>) -> (r: Option<String>)
    ensures
        r is Some <==> vstd::utf8::valid_utf8(bytes@),
        r matches Some(s) ==> s@ == vstd::utf8::decode_utf8(bytes@),
{
    String::from_utf8(bytes).ok()
}

} // verus!

verus! {

/// The contents of a list of character vectors.
pub open spec fn char_views(v: Seq<Vec<char>>) -> Seq<Seq<char>> {
    v.map_values(|b: Vec<char>| b@)
}

} // verus!

verus! {

/// Character-wise equality of two texts.
pub fn texts_equal(a: &str, b: &str) -> (r: bool)
    ensures
        r == (a@ == b@),
{
    let cs = chars_of(a);
    same_text(&cs, b)
}

/// The text of `s`, as a fresh string.
pub(crate) fn copy_string(s: &String) -> (r: String)
    ensures
        r@ == s@,
{
    s.clone()
}

} // verus!
