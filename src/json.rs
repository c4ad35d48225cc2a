//! Reading a flat JSON object whose values are strings or integers.
//!
//! Whitespace may stand around every token, members may come in any order,
//! and strings hold no escapes (claim sets never need them).
use crate::text::{int_text, is_digit, lemma_int_round_trip, parse_int, read_int};
use vstd::prelude::*;

verus! {

/// A member's value, as text.
pub enum ScalarView {
    Text(Seq<u8>),
    Int(i64),
}

/// A member's value.
pub enum Scalar {
    Text(Vec<u8>),
    Int(i64),
}

impl View for Scalar {
    type V = ScalarView;

    open spec fn view(&self) -> ScalarView {
        match self {
            Scalar::Text(t) => ScalarView::Text(t@),
            Scalar::Int(i) => ScalarView::Int(*i),
        }
    }
}

/// A member as text: its key and its value.
pub type MemberView = (Seq<u8>, ScalarView);

pub open spec fn members_view(ms: Seq<(Vec<u8>, Scalar)>) -> Seq<MemberView> {
    ms.map_values(|m: (Vec<u8>, Scalar)| (m.0@, m.1@))
}

pub open spec fn is_ws(b: u8) -> bool {
    b == 32 || b == 9 || b == 10 || b == 13
}

/// How many bytes of whitespace `s` starts with.
pub open spec fn ws_span(s: Seq<u8>) -> nat
    decreases s.len(),
{
    if s.len() > 0 && is_ws(s[0]) {
        1 + ws_span(s.skip(1))
    } else {
        0
    }
}

/// `s` without its leading whitespace.
pub open spec fn trim(s: Seq<u8>) -> Seq<u8> {
    s.skip(ws_span(s) as int)
}

/// How many bytes at the start of `s` may stand inside a string: neither a
/// quote nor a backslash.
pub open spec fn plain_span(s: Seq<u8>) -> nat
    decreases s.len(),
{
    if s.len() > 0 && s[0] != 34u8 && s[0] != 92u8 {
        1 + plain_span(s.skip(1))
    } else {
        0
    }
}

/// How many bytes at the start of `s` are digits or minus signs.
pub open spec fn num_span(s: Seq<u8>) -> nat
    decreases s.len(),
{
    if s.len() > 0 && (is_digit(s[0]) || s[0] == 45u8) {
        1 + num_span(s.skip(1))
    } else {
        0
    }
}

/// A signed decimal integer at the start of `s`, and what follows it.
pub open spec fn int_field(s: Seq<u8>) -> Option<(i64, Seq<u8>)> {
    let k = num_span(s);
    if k <= s.len() {
        match parse_int(s.take(k as int)) {
            Some(v) => Some((v, s.skip(k as int))),
            None => None,
        }
    } else {
        None
    }
}

/// A string at the start of `s`: its contents and what follows it.
pub open spec fn text_tok(s: Seq<u8>) -> Option<(Seq<u8>, Seq<u8>)> {
    if s.len() > 0 && s[0] == 34u8 {
        let t = s.skip(1);
        let k = plain_span(t);
        if k < t.len() && t[k as int] == 34u8 {
            Some((t.take(k as int), t.skip((k + 1) as int)))
        } else {
            None
        }
    } else {
        None
    }
}

/// A value at the start of `s`, and what follows it.
pub open spec fn value_tok(s: Seq<u8>) -> Option<(ScalarView, Seq<u8>)> {
    if s.len() > 0 && s[0] == 34u8 {
        match text_tok(s) {
            Some((x, r)) => Some((ScalarView::Text(x), r)),
            None => None,
        }
    } else {
        match int_field(s) {
            Some((v, r)) => Some((ScalarView::Int(v), r)),
            None => None,
        }
    }
}

/// A member `"key": value` at the start of `s`, and what follows it after
/// whitespace.
pub open spec fn member(s: Seq<u8>) -> Option<(MemberView, Seq<u8>)> {
    match text_tok(s) {
        Some((k, r1)) => {
            let r2 = trim(r1);
            if r2.len() > 0 && r2[0] == 58u8 {
                match value_tok(trim(r2.skip(1))) {
                    Some((v, r3)) => Some(((k, v), trim(r3))),
                    None => None,
                }
            } else {
                None
            }
        },
        None => None,
    }
}

/// Members separated by commas, at most `fuel` of them, and what follows.
pub open spec fn members(s: Seq<u8>, fuel: nat) -> Option<(Seq<MemberView>, Seq<u8>)>
    decreases fuel,
{
    if fuel == 0 {
        None
    } else {
        match member(s) {
            Some((m, r)) => if r.len() > 0 && r[0] == 44u8 {
                match members(trim(r.skip(1)), (fuel - 1) as nat) {
                    Some((ms, r2)) => Some((seq![m] + ms, r2)),
                    None => None,
                }
            } else {
                Some((seq![m], r))
            },
            None => None,
        }
    }
}

/// Whether `s` is a closing brace followed by whitespace alone.
pub open spec fn closes(s: Seq<u8>) -> bool {
    s.len() > 0 && s[0] == 125u8 && trim(s.skip(1)).len() == 0
}

/// The members of the flat object that `s` writes, in order, if it writes one.
pub open spec fn parse_object(s: Seq<u8>) -> Option<Seq<MemberView>> {
    let s1 = trim(s);
    if s1.len() > 0 && s1[0] == 123u8 {
        let s2 = trim(s1.skip(1));
        if closes(s2) {
            Some(Seq::empty())
        } else {
            match members(s2, s2.len()) {
                Some((ms, r)) => if closes(r) {
                    Some(ms)
                } else {
                    None
                },
                None => None,
            }
        }
    } else {
        None
    }
}

/// The value of the first member named `key`.
pub open spec fn lookup(ms: Seq<MemberView>, key: Seq<u8>) -> Option<ScalarView>
    decreases ms.len(),
{
    if ms.len() == 0 {
        None
    } else if ms[0].0 == key {
        Some(ms[0].1)
    } else {
        lookup(ms.skip(1), key)
    }
}

/// Steps over whitespace at `pos`.
fn skip_ws(s: &[u8], pos: usize) -> (r: usize)
    requires
        pos <= s@.len(),
    ensures
        pos <= r <= s@.len(),
        s@.skip(r as int) == trim(s@.skip(pos as int)),
{
    let ghost t = s@.skip(pos as int);
    let mut end: usize = pos;
    while end < s.len() && (s[end] == 32 || s[end] == 9 || s[end] == 10 || s[end] == 13)
        invariant
            pos <= end <= s@.len(),
            t == s@.skip(pos as int),
            ws_span(t) == (end - pos) + ws_span(s@.skip(end as int)),
        decreases s@.len() - end,
    {
        assert(s@.skip(end as int).skip(1) =~= s@.skip(end + 1));
        end = end + 1;
    }
    assert(ws_span(s@.skip(end as int)) == 0);
    assert(t.skip((end - pos) as int) =~= s@.skip(end as int));
    end
}

/// Reads a signed decimal integer at `pos`.
pub fn int_at(s: &[u8], pos: usize) -> (r: Option<(i64, usize)>)
    requires
        pos <= s@.len(),
    ensures
        r is Some <==> int_field(s@.skip(pos as int)) is Some,
        r matches Some((v, p)) ==> pos <= p <= s@.len() && int_field(s@.skip(pos as int)) == Some(
            (v, s@.skip(p as int)),
        ),
{
    let ghost t = s@.skip(pos as int);
    let mut end: usize = pos;
    while end < s.len() && ((48 <= s[end] && s[end] <= 57) || s[end] == 45)
        invariant
            pos <= end <= s@.len(),
            t == s@.skip(pos as int),
            num_span(t) == (end - pos) + num_span(s@.skip(end as int)),
        decreases s@.len() - end,
    {
        assert(s@.skip(end as int).skip(1) =~= s@.skip(end + 1));
        end = end + 1;
    }
    assert(num_span(s@.skip(end as int)) == 0);
    assert(t.take((end - pos) as int) =~= s@.subrange(pos as int, end as int));
    assert(t.skip((end - pos) as int) =~= s@.skip(end as int));
    match read_int(s, pos, end) {
        Some(v) => Some((v, end)),
        None => None,
    }
}

/// Reads a string at `pos`.
fn text_at(s: &[u8], pos: usize) -> (r: Option<(Vec<u8>, usize)>)
    requires
        pos <= s@.len(),
    ensures
        r is Some <==> text_tok(s@.skip(pos as int)) is Some,
        r matches Some((x, p)) ==> pos <= p <= s@.len() && text_tok(s@.skip(pos as int)) == Some(
            (x@, s@.skip(p as int)),
        ),
{
    let ghost t0 = s@.skip(pos as int);
    if pos >= s.len() || s[pos] != 34 {
        return None;
    }
    let start = pos + 1;
    let ghost t = t0.skip(1);
    assert(t =~= s@.skip(start as int));
    let mut end: usize = start;
    let mut out: Vec<u8> = Vec::new();
    while end < s.len() && s[end] != 34 && s[end] != 92
        invariant
            start <= end <= s@.len(),
            t == s@.skip(start as int),
            plain_span(t) == (end - start) + plain_span(s@.skip(end as int)),
            out@ == s@.subrange(start as int, end as int),
        decreases s@.len() - end,
    {
        assert(s@.skip(end as int).skip(1) =~= s@.skip(end + 1));
        out.push(s[end]);
        end = end + 1;
        assert(out@ =~= s@.subrange(start as int, end as int));
    }
    assert(plain_span(s@.skip(end as int)) == 0);
    let k = end - start;
    if end < s.len() && s[end] == 34 {
        assert(t.take(k as int) =~= out@);
        assert(t.skip(k + 1) =~= s@.skip(end + 1));
        Some((out, end + 1))
    } else {
        None
    }
}

/// Reads a value at `pos`.
fn value_at(s: &[u8], pos: usize) -> (r: Option<(Scalar, usize)>)
    requires
        pos <= s@.len(),
    ensures
        r is Some <==> value_tok(s@.skip(pos as int)) is Some,
        r matches Some((v, p)) ==> pos <= p <= s@.len() && value_tok(s@.skip(pos as int)) == Some(
            (v@, s@.skip(p as int)),
        ),
{
    if pos < s.len() && s[pos] == 34 {
        match text_at(s, pos) {
            Some((x, p)) => Some((Scalar::Text(x), p)),
            None => None,
        }
    } else {
        match int_at(s, pos) {
            Some((v, p)) => Some((Scalar::Int(v), p)),
            None => None,
        }
    }
}

/// Reads a member at `pos`, and the whitespace after it.
fn member_at(s: &[u8], pos: usize) -> (r: Option<(Vec<u8>, Scalar, usize)>)
    requires
        pos <= s@.len(),
    ensures
        r is Some <==> member(s@.skip(pos as int)) is Some,
        r matches Some((k, v, p)) ==> pos <= p <= s@.len() && member(s@.skip(pos as int)) == Some(
            ((k@, v@), s@.skip(p as int)),
        ),
{
    let (key, p1) = match text_at(s, pos) {
        Some(x) => x,
        None => return None,
    };
    let p2 = skip_ws(s, p1);
    if p2 >= s.len() || s[p2] != 58 {
        return None;
    }
    assert(s@.skip(p2 as int).skip(1) =~= s@.skip(p2 + 1));
    let p3 = skip_ws(s, p2 + 1);
    let (v, p4) = match value_at(s, p3) {
        Some(x) => x,
        None => return None,
    };
    let p5 = skip_ws(s, p4);
    Some((key, v, p5))
}

/// Reads the members of a flat object.
pub fn read_object(s: &[u8]) -> (r: Option<Vec<(Vec<u8>, Scalar)>>)
    ensures
        r is Some <==> parse_object(s@) is Some,
        r matches Some(ms) ==> parse_object(s@) == Some(members_view(ms@)),
{
    assert(s@.skip(0) =~= s@);
    let p1 = skip_ws(s, 0);
    if p1 >= s.len() || s[p1] != 123 {
        return None;
    }
    assert(s@.skip(p1 as int).skip(1) =~= s@.skip(p1 + 1));
    let p2 = skip_ws(s, p1 + 1);
    let ghost s2 = s@.skip(p2 as int);
    if closes_at(s, p2) {
        let r: Vec<(Vec<u8>, Scalar)> = Vec::new();
        assert(members_view(r@) =~= Seq::<MemberView>::empty());
        return Some(r);
    }
    assert(parse_object(s@) == (match members(s2, s2.len()) {
        Some((ms, r)) => if closes(r) {
            Some(ms)
        } else {
            None::<Seq<MemberView>>
        },
        None => None,
    }));
    let mut out: Vec<(Vec<u8>, Scalar)> = Vec::new();
    let mut cur: usize = p2;
    assert(members_view(out@) + Seq::<MemberView>::empty() =~= Seq::<MemberView>::empty());
    let mut fuel: usize = s.len() - p2;
    loop
        invariant
            p2 <= cur <= s@.len(),
            s2 == s@.skip(p2 as int),
            parse_object(s@) == (match members(s2, s2.len()) {
                Some((ms, r)) => if closes(r) {
                    Some(ms)
                } else {
                    None::<Seq<MemberView>>
                },
                None => None,
            }),
            members(s2, s2.len()) == (match members(s@.skip(cur as int), fuel as nat) {
                Some((ms, r)) => Some((members_view(out@) + ms, r)),
                None => None,
            }),
        decreases fuel,
    {
        if fuel == 0 {
            return None;
        }
        let (k, v, p) = match member_at(s, cur) {
            Some(x) => x,
            None => return None,
        };
        let ghost m = (k@, v@);
        let ghost before = members_view(out@);
        out.push((k, v));
        assert(members_view(out@) =~= before.push(m));
        if p < s.len() && s[p] == 44 {
            assert(s@.skip(p as int).skip(1) =~= s@.skip(p + 1));
            let next = skip_ws(s, p + 1);
            proof {
                match members(s@.skip(next as int), (fuel - 1) as nat) {
                    Some((ms, r)) => {
                        assert(before + (seq![m] + ms) =~= before.push(m) + ms);
                    },
                    None => {},
                }
            }
            cur = next;
            fuel = fuel - 1;
        } else {
            assert(before + seq![m] =~= before.push(m));
            if closes_at(s, p) {
                return Some(out);
            } else {
                return None;
            }
        }
    }
}

/// Whether the text from `pos` on is a closing brace and whitespace.
fn closes_at(s: &[u8], pos: usize) -> (r: bool)
    requires
        pos <= s@.len(),
    ensures
        r == closes(s@.skip(pos as int)),
{
    if pos < s.len() && s[pos] == 125 {
        assert(s@.skip(pos as int).skip(1) =~= s@.skip(pos + 1));
        let e = skip_ws(s, pos + 1);
        e == s.len()
    } else {
        false
    }
}

/// Finds the value of the first member named `key`.
pub fn find_member<'a>(ms: &'a Vec<(Vec<u8>, Scalar)>, key: &[u8]) -> (r: Option<&'a Scalar>)
    ensures
        r is Some <==> lookup(members_view(ms@), key@) is Some,
        r matches Some(v) ==> lookup(members_view(ms@), key@) == Some(v@),
{
    let mut i: usize = 0;
    assert(members_view(ms@).skip(0) =~= members_view(ms@));
    while i < ms.len()
        invariant
            i <= ms@.len(),
            lookup(members_view(ms@), key@) == lookup(members_view(ms@).skip(i as int), key@),
        decreases ms@.len() - i,
    {
        let ghost rest = members_view(ms@).skip(i as int);
        assert(rest.skip(1) =~= members_view(ms@).skip(i + 1));
        if bytes_equal(ms[i].0.as_slice(), key) {
            return Some(&ms[i].1);
        }
        i = i + 1;
    }
    None
}

fn bytes_equal(a: &[u8], b: &[u8]) -> (r: bool)
    ensures
        r == (a@ == b@),
{
    if a.len() != b.len() {
        return false;
    }
    let mut i: usize = 0;
    while i < a.len()
        invariant
            a@.len() == b@.len(),
            i <= a@.len(),
            forall|k: int| 0 <= k < i ==> a@[k] == b@[k],
        decreases a@.len() - i,
    {
        if a[i] != b[i] {
            return false;
        }
        i = i + 1;
    }
    assert(a@ =~= b@);
    true
}

proof fn lemma_num_span(t: Seq<u8>, rest: Seq<u8>)
    requires
        forall|i: int| 0 <= i < t.len() ==> is_digit(#[trigger] t[i]) || t[i] == 45u8,
        rest.len() > 0,
        !is_digit(rest[0]),
        rest[0] != 45u8,
    ensures
        num_span(t + rest) == t.len(),
    decreases t.len(),
{
    if t.len() > 0 {
        let tail = t.skip(1);
        assert forall|i: int| 0 <= i < tail.len() implies is_digit(#[trigger] tail[i]) || tail[i] == 45u8 by {
            assert(tail[i] == t[i + 1]);
        }
        lemma_num_span(tail, rest);
        assert((t + rest).skip(1) =~= tail + rest);
    } else {
        assert(t + rest =~= rest);
    }
}

/// An integer written in decimal is read back, up to the byte after it.
pub proof fn lemma_int_field(v: i64, rest: Seq<u8>)
    requires
        rest.len() > 0,
        !is_digit(rest[0]),
        rest[0] != 45u8,
    ensures
        int_field(int_text(v as int) + rest) == Some((v, rest)),
{
    lemma_int_round_trip(v);
    let t = int_text(v as int);
    lemma_num_span(t, rest);
    assert((t + rest).take(t.len() as int) =~= t);
    assert((t + rest).skip(t.len() as int) =~= rest);
}

/// Whether `t` may stand inside a string as it is.
pub open spec fn is_plain(t: Seq<u8>) -> bool {
    forall|i: int| 0 <= i < t.len() ==> #[trigger] t[i] != 34u8 && t[i] != 92u8
}

proof fn lemma_plain_span(t: Seq<u8>, rest: Seq<u8>)
    requires
        is_plain(t),
        rest.len() > 0,
        rest[0] == 34u8,
    ensures
        plain_span(t + rest) == t.len(),
    decreases t.len(),
{
    if t.len() > 0 {
        let tail = t.skip(1);
        assert forall|i: int| 0 <= i < tail.len() implies #[trigger] tail[i] != 34u8 && tail[i] != 92u8 by {
            assert(tail[i] == t[i + 1]);
        }
        lemma_plain_span(tail, rest);
        assert((t + rest).skip(1) =~= tail + rest);
        assert((t + rest)[0] == t[0]);
    } else {
        assert(t + rest =~= rest);
    }
}

/// Text that does not start with whitespace is its own trim.
pub proof fn lemma_trim_none(s: Seq<u8>)
    requires
        s.len() == 0 || !is_ws(s[0]),
    ensures
        trim(s) == s,
{
    assert(s.skip(0) =~= s);
}

/// A string is read back as written.
pub proof fn lemma_text_tok(t: Seq<u8>, rest: Seq<u8>)
    requires
        is_plain(t),
    ensures
        text_tok(seq![34u8] + t + seq![34u8] + rest) == Some((t, rest)),
{
    let s = seq![34u8] + t + seq![34u8] + rest;
    let u = s.skip(1);
    assert(u =~= t + (seq![34u8] + rest));
    lemma_plain_span(t, seq![34u8] + rest);
    assert(u.take(t.len() as int) =~= t);
    assert(u.skip((t.len() + 1) as int) =~= rest);
}

/// A member with a string value, `"key":"val"`, is read back as written.
pub proof fn lemma_member_text(key: Seq<u8>, val: Seq<u8>, rest: Seq<u8>)
    requires
        is_plain(key),
        is_plain(val),
        rest.len() == 0 || !is_ws(rest[0]),
    ensures
        member(seq![34u8] + key + seq![34u8, 58u8, 34u8] + val + seq![34u8] + rest) == Some(
            ((key, ScalarView::Text(val)), rest),
        ),
{
    let after_key = seq![58u8, 34u8] + val + seq![34u8] + rest;
    let s = seq![34u8] + key + seq![34u8, 58u8, 34u8] + val + seq![34u8] + rest;
    assert(s =~= seq![34u8] + key + seq![34u8] + after_key);
    lemma_text_tok(key, after_key);
    lemma_trim_none(after_key);
    let v = seq![34u8] + val + seq![34u8] + rest;
    assert(after_key.skip(1) =~= v);
    lemma_trim_none(v);
    lemma_text_tok(val, rest);
    lemma_trim_none(rest);
}

/// A member with an integer value, `"key":v`, is read back as written.
pub proof fn lemma_member_int(key: Seq<u8>, v: i64, rest: Seq<u8>)
    requires
        is_plain(key),
        rest.len() > 0,
        !is_digit(rest[0]),
        rest[0] != 45u8,
        !is_ws(rest[0]),
    ensures
        member(seq![34u8] + key + seq![34u8, 58u8] + int_text(v as int) + rest) == Some(
            ((key, ScalarView::Int(v)), rest),
        ),
{
    let after_key = seq![58u8] + int_text(v as int) + rest;
    let s = seq![34u8] + key + seq![34u8, 58u8] + int_text(v as int) + rest;
    assert(s =~= seq![34u8] + key + seq![34u8] + after_key);
    lemma_text_tok(key, after_key);
    lemma_trim_none(after_key);
    let w = int_text(v as int) + rest;
    assert(after_key.skip(1) =~= w);
    lemma_int_round_trip(v);
    assert(w[0] == int_text(v as int)[0]);
    lemma_trim_none(w);
    lemma_int_field(v, rest);
    lemma_trim_none(rest);
}

} // verus!
