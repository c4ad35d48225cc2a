//! The signed payloads: access claims and refresh claims, and their text.
//!
//! A claim set is written as a flat JSON object: ids as 32 lowercase
//! hexadecimal digits, times as whole seconds since the epoch. Reading accepts
//! any flat object with those members, in any order and with any whitespace;
//! members it does not know are ignored.
use crate::ids::Id;
use crate::json::{
    MemberView, Scalar, ScalarView, find_member, is_plain, lemma_member_int, lemma_member_text, lemma_trim_none,
    lookup, members, members_view, parse_object, read_object, trim,
};
use crate::text::{
    hex_byte, hex_digits, int_text, lemma_hex_round_trip, lemma_pow16_32, parse_hex, read_hex32, write_all,
    write_hex, write_int,
};
use vstd::prelude::*;

verus! {

/// `{"sub":"`
pub open spec fn lit_sub() -> Seq<u8> {
    seq![123u8, 34, 115, 117, 98, 34, 58, 34]
}

/// `","exp":`
pub open spec fn lit_exp() -> Seq<u8> {
    seq![34u8, 44, 34, 101, 120, 112, 34, 58]
}

/// `,"iat":`
pub open spec fn lit_iat() -> Seq<u8> {
    seq![44u8, 34, 105, 97, 116, 34, 58]
}

/// `}`
pub open spec fn lit_close() -> Seq<u8> {
    seq![125u8]
}

/// `,"jti":"`
pub open spec fn lit_jti() -> Seq<u8> {
    seq![44u8, 34, 106, 116, 105, 34, 58, 34]
}

/// `","sid":"`
pub open spec fn lit_sid() -> Seq<u8> {
    seq![34u8, 44, 34, 115, 105, 100, 34, 58, 34]
}

/// `"}`
pub open spec fn lit_quote_close() -> Seq<u8> {
    seq![34u8, 125]
}

fn lit_sub_bytes() -> (r: Vec<u8>)
    ensures
        r@ == lit_sub(),
{
    let r = vec![123u8, 34, 115, 117, 98, 34, 58, 34];
    assert(r@ =~= lit_sub());
    r
}

fn lit_exp_bytes() -> (r: Vec<u8>)
    ensures
        r@ == lit_exp(),
{
    let r = vec![34u8, 44, 34, 101, 120, 112, 34, 58];
    assert(r@ =~= lit_exp());
    r
}

fn lit_iat_bytes() -> (r: Vec<u8>)
    ensures
        r@ == lit_iat(),
{
    let r = vec![44u8, 34, 105, 97, 116, 34, 58];
    assert(r@ =~= lit_iat());
    r
}

fn lit_close_bytes() -> (r: Vec<u8>)
    ensures
        r@ == lit_close(),
{
    let r = vec![125u8];
    assert(r@ =~= lit_close());
    r
}

fn lit_jti_bytes() -> (r: Vec<u8>)
    ensures
        r@ == lit_jti(),
{
    let r = vec![44u8, 34, 106, 116, 105, 34, 58, 34];
    assert(r@ =~= lit_jti());
    r
}

fn lit_sid_bytes() -> (r: Vec<u8>)
    ensures
        r@ == lit_sid(),
{
    let r = vec![34u8, 44, 34, 115, 105, 100, 34, 58, 34];
    assert(r@ =~= lit_sid());
    r
}

fn lit_quote_close_bytes() -> (r: Vec<u8>)
    ensures
        r@ == lit_quote_close(),
{
    let r = vec![34u8, 125];
    assert(r@ =~= lit_quote_close());
    r
}

/// The member names of claim sets.
pub open spec fn key_sub() -> Seq<u8> {
    seq![115u8, 117, 98]
}

pub open spec fn key_exp() -> Seq<u8> {
    seq![101u8, 120, 112]
}

pub open spec fn key_iat() -> Seq<u8> {
    seq![105u8, 97, 116]
}

pub open spec fn key_jti() -> Seq<u8> {
    seq![106u8, 116, 105]
}

pub open spec fn key_sid() -> Seq<u8> {
    seq![115u8, 105, 100]
}

fn key_sub_bytes() -> (r: Vec<u8>)
    ensures
        r@ == key_sub(),
{
    let r = vec![115u8, 117, 98];
    assert(r@ =~= key_sub());
    r
}

fn key_exp_bytes() -> (r: Vec<u8>)
    ensures
        r@ == key_exp(),
{
    let r = vec![101u8, 120, 112];
    assert(r@ =~= key_exp());
    r
}

fn key_iat_bytes() -> (r: Vec<u8>)
    ensures
        r@ == key_iat(),
{
    let r = vec![105u8, 97, 116];
    assert(r@ =~= key_iat());
    r
}

fn key_jti_bytes() -> (r: Vec<u8>)
    ensures
        r@ == key_jti(),
{
    let r = vec![106u8, 116, 105];
    assert(r@ =~= key_jti());
    r
}

fn key_sid_bytes() -> (r: Vec<u8>)
    ensures
        r@ == key_sid(),
{
    let r = vec![115u8, 105, 100];
    assert(r@ =~= key_sid());
    r
}

/// Whether `h` is a UUID in its hyphenated form: 36 bytes with dashes
/// after the 8th, 12th, 16th and 20th digit.
pub open spec fn is_hyphenated(h: Seq<u8>) -> bool {
    h.len() == 36 && h[8] == 45u8 && h[13] == 45u8 && h[18] == 45u8 && h[23] == 45u8
}

/// The 32 digits of a hyphenated UUID.
pub open spec fn undash(h: Seq<u8>) -> Seq<u8> {
    h.subrange(0, 8) + h.subrange(9, 13) + h.subrange(14, 18) + h.subrange(19, 23) + h.subrange(24, 36)
}

/// An id member's value: a string of 32 hexadecimal digits, or a UUID in
/// its hyphenated form.
pub open spec fn id_value(v: Option<ScalarView>) -> Option<u128> {
    match v {
        Some(ScalarView::Text(h)) => if h.len() == 32 {
            match parse_hex(h) {
                Some(x) => Some(x as u128),
                None => None,
            }
        } else if is_hyphenated(h) {
            match parse_hex(undash(h)) {
                Some(x) => Some(x as u128),
                None => None,
            }
        } else {
            None
        },
        _ => None,
    }
}

/// Copies `h[from..to]` to the end of `out`.
fn copy_range(out: &mut Vec<u8>, h: &Vec<u8>, from: usize, to: usize)
    requires
        from <= to <= h@.len(),
    ensures
        final(out)@ == old(out)@ + h@.subrange(from as int, to as int),
{
    let mut i: usize = from;
    while i < to
        invariant
            from <= i <= to <= h@.len(),
            out@ == old(out)@ + h@.subrange(from as int, i as int),
        decreases to - i,
    {
        out.push(h[i]);
        i = i + 1;
        assert(out@ =~= old(out)@ + h@.subrange(from as int, i as int));
    }
}

/// A time member's value: an integer.
pub open spec fn int_value(v: Option<ScalarView>) -> Option<i64> {
    match v {
        Some(ScalarView::Int(i)) => Some(i),
        _ => None,
    }
}

/// Reads the id under `key`.
fn id_member(ms: &Vec<(Vec<u8>, Scalar)>, key: &[u8]) -> (r: Option<u128>)
    ensures
        r == id_value(lookup(members_view(ms@), key@)),
{
    match find_member(ms, key) {
        Some(Scalar::Text(h)) => {
            if h.len() == 32 {
                assert(h@.subrange(0, 32) =~= h@);
                read_hex32(h.as_slice(), 0)
            } else if h.len() == 36 && h[8] == 45 && h[13] == 45 && h[18] == 45 && h[23] == 45 {
                let mut digits: Vec<u8> = Vec::new();
                copy_range(&mut digits, h, 0, 8);
                copy_range(&mut digits, h, 9, 13);
                copy_range(&mut digits, h, 14, 18);
                copy_range(&mut digits, h, 19, 23);
                copy_range(&mut digits, h, 24, 36);
                assert(digits@ =~= undash(h@));
                assert(digits@.subrange(0, 32) =~= digits@);
                read_hex32(digits.as_slice(), 0)
            } else {
                None
            }
        },
        _ => None,
    }
}

/// Reads the integer under `key`.
fn int_member(ms: &Vec<(Vec<u8>, Scalar)>, key: &[u8]) -> (r: Option<i64>)
    ensures
        r == int_value(lookup(members_view(ms@), key@)),
{
    match find_member(ms, key) {
        Some(Scalar::Int(i)) => Some(*i),
        _ => None,
    }
}

proof fn lemma_keys_plain()
    ensures
        is_plain(key_sub()),
        is_plain(key_exp()),
        is_plain(key_iat()),
        is_plain(key_jti()),
        is_plain(key_sid()),
{
}

proof fn lemma_keys_distinct()
    ensures
        key_sub() != key_exp(),
        key_sub() != key_iat(),
        key_sub() != key_jti(),
        key_sub() != key_sid(),
        key_exp() != key_iat(),
        key_exp() != key_jti(),
        key_exp() != key_sid(),
        key_iat() != key_jti(),
        key_iat() != key_sid(),
        key_jti() != key_sid(),
{
    assert(key_sub()[0] != key_exp()[0]);
    assert(key_sub()[0] != key_iat()[0]);
    assert(key_sub()[0] != key_jti()[0]);
    assert(key_sub()[1] != key_sid()[1]);
    assert(key_exp()[0] != key_iat()[0]);
    assert(key_exp()[0] != key_jti()[0]);
    assert(key_exp()[0] != key_sid()[0]);
    assert(key_iat()[0] != key_jti()[0]);
    assert(key_iat()[0] != key_sid()[0]);
    assert(key_jti()[0] != key_sid()[0]);
}

proof fn lemma_hex_plain(v: nat, n: nat)
    ensures
        is_plain(hex_digits(v, n)),
        hex_digits(v, n).len() == n,
    decreases n,
{
    if n > 0 {
        lemma_hex_plain(v / 16, (n - 1) as nat);
        let h = hex_digits(v, n);
        assert forall|i: int| 0 <= i < h.len() implies #[trigger] h[i] != 34u8 && h[i] != 92u8 by {
            if i < n - 1 {
                assert(h[i] == hex_digits(v / 16, (n - 1) as nat)[i]);
            } else {
                assert(h[i] == hex_byte(v % 16));
            }
        }
    }
}

/// An id written as 32 hexadecimal digits is read back.
proof fn lemma_id_value(v: u128)
    ensures
        id_value(Some(ScalarView::Text(hex_digits(v as nat, 32)))) == Some(v),
{
    lemma_pow16_32();
    lemma_hex_round_trip(v as nat, 32);
}

/// A comma is followed by what comes after it, when that is no whitespace.
proof fn lemma_after_comma(t: Seq<u8>)
    requires
        t.len() > 0,
        t[0] == 34u8,
    ensures
        trim((seq![44u8] + t).skip(1)) == t,
{
    assert((seq![44u8] + t).skip(1) =~= t);
    lemma_trim_none(t);
}

/// An object `{` members `}` is read back as its members.
#[verifier::rlimit(50)]
pub proof fn lemma_object(t1: Seq<u8>, ms: Seq<MemberView>)
    requires
        t1.len() > 0,
        t1[0] == 34u8,
        members(t1, t1.len()) == Some((ms, seq![125u8])),
    ensures
        parse_object(seq![123u8] + t1) == Some(ms),
{
    let s = seq![123u8] + t1;
    lemma_trim_none(s);
    assert(s.skip(1) =~= t1);
    lemma_trim_none(t1);
    let close = seq![125u8];
    assert(close.skip(1) =~= Seq::<u8>::empty());
    lemma_trim_none(Seq::<u8>::empty());
}

/// `"key":"val"`
pub open spec fn text_member(key: Seq<u8>, val: Seq<u8>) -> Seq<u8> {
    seq![34u8] + key + seq![34u8, 58u8, 34u8] + val + seq![34u8]
}

/// `"key":v`
pub open spec fn int_member_text(key: Seq<u8>, v: i64) -> Seq<u8> {
    seq![34u8] + key + seq![34u8, 58u8] + int_text(v as int)
}

#[verifier::rlimit(50)]
pub proof fn lemma_text_member_cons(
    key: Seq<u8>,
    val: Seq<u8>,
    rest: Seq<u8>,
    fuel: nat,
    ms: Seq<MemberView>,
    r: Seq<u8>,
)
    requires
        is_plain(key),
        is_plain(val),
        rest.len() > 0,
        rest[0] == 34u8,
        fuel > 0,
        members(rest, (fuel - 1) as nat) == Some((ms, r)),
    ensures
        members(text_member(key, val) + seq![44u8] + rest, fuel) == Some(
            (seq![(key, ScalarView::Text(val))] + ms, r),
        ),
{
    lemma_member_text(key, val, seq![44u8] + rest);
    assert(text_member(key, val) + seq![44u8] + rest =~= seq![34u8] + key + seq![34u8, 58u8, 34u8] + val
        + seq![34u8] + (seq![44u8] + rest));
    lemma_after_comma(rest);
}

#[verifier::rlimit(50)]
pub proof fn lemma_text_member_last(key: Seq<u8>, val: Seq<u8>, fuel: nat)
    requires
        is_plain(key),
        is_plain(val),
        fuel > 0,
    ensures
        members(text_member(key, val) + seq![125u8], fuel) == Some(
            (seq![(key, ScalarView::Text(val))], seq![125u8]),
        ),
{
    lemma_member_text(key, val, seq![125u8]);
    assert(text_member(key, val) + seq![125u8] =~= seq![34u8] + key + seq![34u8, 58u8, 34u8] + val
        + seq![34u8] + seq![125u8]);
}

#[verifier::rlimit(50)]
proof fn lemma_int_member_cons(key: Seq<u8>, v: i64, rest: Seq<u8>, fuel: nat, ms: Seq<MemberView>, r: Seq<u8>)
    requires
        is_plain(key),
        rest.len() > 0,
        rest[0] == 34u8,
        fuel > 0,
        members(rest, (fuel - 1) as nat) == Some((ms, r)),
    ensures
        members(int_member_text(key, v) + seq![44u8] + rest, fuel) == Some(
            (seq![(key, ScalarView::Int(v))] + ms, r),
        ),
{
    lemma_member_int(key, v, seq![44u8] + rest);
    assert(int_member_text(key, v) + seq![44u8] + rest =~= seq![34u8] + key + seq![34u8, 58u8] + int_text(
        v as int,
    ) + (seq![44u8] + rest));
    lemma_after_comma(rest);
}

#[verifier::rlimit(50)]
proof fn lemma_int_member_last(key: Seq<u8>, v: i64, fuel: nat)
    requires
        is_plain(key),
        fuel > 0,
    ensures
        members(int_member_text(key, v) + seq![125u8], fuel) == Some(
            (seq![(key, ScalarView::Int(v))], seq![125u8]),
        ),
{
    lemma_member_int(key, v, seq![125u8]);
}

#[verifier::rlimit(50)]
proof fn lemma_access_lookup(hs: Seq<u8>, e: i64, i: i64)
    ensures
        ({
            let ms = seq![(key_sub(), ScalarView::Text(hs))] + (seq![(key_exp(), ScalarView::Int(e))] + seq![
                (key_iat(), ScalarView::Int(i)),
            ]);
            &&& lookup(ms, key_sub()) == Some(ScalarView::Text(hs))
            &&& lookup(ms, key_exp()) == Some(ScalarView::Int(e))
            &&& lookup(ms, key_iat()) == Some(ScalarView::Int(i))
        }),
{
    lemma_keys_distinct();
    let ms = seq![(key_sub(), ScalarView::Text(hs))] + (seq![(key_exp(), ScalarView::Int(e))] + seq![
        (key_iat(), ScalarView::Int(i)),
    ]);
    let m1 = ms.skip(1);
    let m2 = m1.skip(1);
    assert(m1 =~= seq![(key_exp(), ScalarView::Int(e)), (key_iat(), ScalarView::Int(i))]);
    assert(m2 =~= seq![(key_iat(), ScalarView::Int(i))]);
    assert(ms[0] == (key_sub(), ScalarView::Text(hs)));
    assert(m1[0] == (key_exp(), ScalarView::Int(e)));
    assert(m2[0] == (key_iat(), ScalarView::Int(i)));
    assert(lookup(ms, key_sub()) == Some(ScalarView::Text(hs)));
    assert(lookup(m1, key_exp()) == Some(ScalarView::Int(e)));
    assert(lookup(ms, key_exp()) == lookup(m1, key_exp()));
    assert(lookup(m2, key_iat()) == Some(ScalarView::Int(i)));
    assert(lookup(m1, key_iat()) == lookup(m2, key_iat()));
    assert(lookup(ms, key_iat()) == lookup(m1, key_iat()));
}

#[verifier::rlimit(50)]
proof fn lemma_refresh_lookup(hs: Seq<u8>, e: i64, i: i64, hj: Seq<u8>, hd: Seq<u8>)
    ensures
        ({
            let ms = seq![(key_sub(), ScalarView::Text(hs))] + (seq![(key_exp(), ScalarView::Int(e))] + (seq![
                (key_iat(), ScalarView::Int(i)),
            ] + (seq![(key_jti(), ScalarView::Text(hj))] + seq![(key_sid(), ScalarView::Text(hd))])));
            &&& lookup(ms, key_sub()) == Some(ScalarView::Text(hs))
            &&& lookup(ms, key_exp()) == Some(ScalarView::Int(e))
            &&& lookup(ms, key_iat()) == Some(ScalarView::Int(i))
            &&& lookup(ms, key_jti()) == Some(ScalarView::Text(hj))
            &&& lookup(ms, key_sid()) == Some(ScalarView::Text(hd))
        }),
{
    lemma_keys_distinct();
    let ms = seq![(key_sub(), ScalarView::Text(hs))] + (seq![(key_exp(), ScalarView::Int(e))] + (seq![
        (key_iat(), ScalarView::Int(i)),
    ] + (seq![(key_jti(), ScalarView::Text(hj))] + seq![(key_sid(), ScalarView::Text(hd))])));
    let m1 = ms.skip(1);
    let m2 = m1.skip(1);
    let m3 = m2.skip(1);
    let m4 = m3.skip(1);
    assert(m1 =~= seq![
        (key_exp(), ScalarView::Int(e)),
        (key_iat(), ScalarView::Int(i)),
        (key_jti(), ScalarView::Text(hj)),
        (key_sid(), ScalarView::Text(hd)),
    ]);
    assert(m2 =~= seq![(key_iat(), ScalarView::Int(i)), (key_jti(), ScalarView::Text(hj)), (key_sid(), ScalarView::Text(hd))]);
    assert(m3 =~= seq![(key_jti(), ScalarView::Text(hj)), (key_sid(), ScalarView::Text(hd))]);
    assert(m4 =~= seq![(key_sid(), ScalarView::Text(hd))]);
    assert(ms[0] == (key_sub(), ScalarView::Text(hs)));
    assert(m1[0] == (key_exp(), ScalarView::Int(e)));
    assert(m2[0] == (key_iat(), ScalarView::Int(i)));
    assert(m3[0] == (key_jti(), ScalarView::Text(hj)));
    assert(m4[0] == (key_sid(), ScalarView::Text(hd)));
    assert(lookup(ms, key_sub()) == Some(ScalarView::Text(hs)));
    assert(lookup(ms, key_exp()) == lookup(m1, key_exp()));
    assert(lookup(m1, key_exp()) == Some(ScalarView::Int(e)));
    assert(lookup(ms, key_iat()) == lookup(m1, key_iat()));
    assert(lookup(m1, key_iat()) == lookup(m2, key_iat()));
    assert(lookup(m2, key_iat()) == Some(ScalarView::Int(i)));
    assert(lookup(ms, key_jti()) == lookup(m1, key_jti()));
    assert(lookup(m1, key_jti()) == lookup(m2, key_jti()));
    assert(lookup(m2, key_jti()) == lookup(m3, key_jti()));
    assert(lookup(m3, key_jti()) == Some(ScalarView::Text(hj)));
    assert(lookup(ms, key_sid()) == lookup(m1, key_sid()));
    assert(lookup(m1, key_sid()) == lookup(m2, key_sid()));
    assert(lookup(m2, key_sid()) == lookup(m3, key_sid()));
    assert(lookup(m3, key_sid()) == lookup(m4, key_sid()));
    assert(lookup(m4, key_sid()) == Some(ScalarView::Text(hd)));
}

/// The text of refresh claims is read back as its five members, in order.
#[verifier::rlimit(100)]
proof fn lemma_refresh_object(c: RefreshTokenClaims)
    ensures
        parse_object(refresh_json(c)) == Some(
            seq![(key_sub(), ScalarView::Text(hex_digits(c.sub@ as nat, 32)))] + (seq![
                (key_exp(), ScalarView::Int(c.exp)),
            ] + (seq![(key_iat(), ScalarView::Int(c.iat))] + (seq![
                (key_jti(), ScalarView::Text(hex_digits(c.jti@ as nat, 32))),
            ] + seq![(key_sid(), ScalarView::Text(hex_digits(c.sid@ as nat, 32)))]))),
        ),
{
        let hs = hex_digits(c.sub@ as nat, 32);
        let hj = hex_digits(c.jti@ as nat, 32);
        let hd = hex_digits(c.sid@ as nat, 32);
        let t5 = text_member(key_sid(), hd) + seq![125u8];
        let t4 = text_member(key_jti(), hj) + seq![44u8] + t5;
        let t3 = int_member_text(key_iat(), c.iat) + seq![44u8] + t4;
        let t2 = int_member_text(key_exp(), c.exp) + seq![44u8] + t3;
        let t1 = text_member(key_sub(), hs) + seq![44u8] + t2;
        assert(refresh_json(c) =~= seq![123u8] + t1);
        lemma_keys_plain();
        lemma_hex_plain(c.sub@ as nat, 32);
        lemma_hex_plain(c.jti@ as nat, 32);
        lemma_hex_plain(c.sid@ as nat, 32);
        let n = t1.len();
        assert(t5[0] == 34u8);
        assert(t4[0] == 34u8);
        assert(t3[0] == 34u8);
        assert(t2[0] == 34u8);
        assert(t1[0] == 34u8);
        lemma_text_member_last(key_sid(), hd, (n - 4) as nat);
        let e5 = seq![(key_sid(), ScalarView::Text(hd))];
        lemma_text_member_cons(key_jti(), hj, t5, (n - 3) as nat, e5, seq![125u8]);
        let e4 = seq![(key_jti(), ScalarView::Text(hj))] + e5;
        lemma_int_member_cons(key_iat(), c.iat, t4, (n - 2) as nat, e4, seq![125u8]);
        let e3 = seq![(key_iat(), ScalarView::Int(c.iat))] + e4;
        lemma_int_member_cons(key_exp(), c.exp, t3, (n - 1) as nat, e3, seq![125u8]);
        let e2 = seq![(key_exp(), ScalarView::Int(c.exp))] + e3;
        lemma_text_member_cons(key_sub(), hs, t2, n, e2, seq![125u8]);
        let ms = seq![(key_sub(), ScalarView::Text(hs))] + e2;
        lemma_object(t1, ms);
}

/// A claim set that can be signed: it has a text, can be read back from it,
/// and has an expiry.
pub trait Claims: Sized {
    /// The text the claims are signed as.
    spec fn json(&self) -> Seq<u8>;

    /// The claims a text writes, if it writes any.
    spec fn parse(s: Seq<u8>) -> Option<Self>;

    /// Seconds since the epoch at which the claims stop being valid.
    spec fn expiry(&self) -> i64;

    fn write_json(&self, out: &mut Vec<u8>)
        ensures
            final(out)@ == old(out)@ + self.json(),
    ;

    fn read_json(s: &[u8]) -> (r: Option<Self>)
        ensures
            r == Self::parse(s@),
    ;

    fn exp_seconds(&self) -> (r: i64)
        ensures
            r == self.expiry(),
    ;

    /// Reading the text of claims gives back the claims.
    proof fn lemma_json_round_trip(&self)
        ensures
            Self::parse(self.json()) == Some(*self),
    ;
}

/// The claims of a short-lived access token.
#[derive(Debug, Clone, Copy, PartialEq, Eq, Structural)]
pub struct AccessTokenClaims {
    pub sub: Id,
    pub exp: i64,
    pub iat: i64,
}

impl AccessTokenClaims {
    pub fn sub(&self) -> (r: Id)
        ensures
            r == self.sub,
    {
        self.sub
    }

    /// Seconds since the epoch at which the token expires.
    pub fn exp(&self) -> (r: i64)
        ensures
            r == self.exp,
    {
        self.exp
    }

    /// Seconds since the epoch at which the token was issued.
    pub fn iat(&self) -> (r: i64)
        ensures
            r == self.iat,
    {
        self.iat
    }
}

/// `{"sub":"<sub>","exp":<exp>,"iat":<iat>}`
pub open spec fn access_json(c: AccessTokenClaims) -> Seq<u8> {
    lit_sub() + hex_digits(c.sub@ as nat, 32) + lit_exp() + int_text(c.exp as int) + lit_iat() + int_text(
        c.iat as int,
    ) + lit_close()
}

pub open spec fn parse_access(s: Seq<u8>) -> Option<AccessTokenClaims> {
    match parse_object(s) {
        Some(ms) => match (
            id_value(lookup(ms, key_sub())),
            int_value(lookup(ms, key_exp())),
            int_value(lookup(ms, key_iat())),
        ) {
            (Some(sub), Some(exp), Some(iat)) => Some(AccessTokenClaims { sub: Id::spec_from(sub), exp, iat }),
            _ => None,
        },
        None => None,
    }
}

impl Claims for AccessTokenClaims {
    open spec fn json(&self) -> Seq<u8> {
        access_json(*self)
    }

    open spec fn parse(s: Seq<u8>) -> Option<Self> {
        parse_access(s)
    }

    open spec fn expiry(&self) -> i64 {
        self.exp
    }

    fn write_json(&self, out: &mut Vec<u8>) {
        write_all(out, lit_sub_bytes().as_slice());
        write_hex(out, self.sub.as_u128(), 32);
        write_all(out, lit_exp_bytes().as_slice());
        write_int(out, self.exp);
        write_all(out, lit_iat_bytes().as_slice());
        write_int(out, self.iat);
        write_all(out, lit_close_bytes().as_slice());
        assert(final(out)@ =~= old(out)@ + access_json(*self));
    }

    fn read_json(s: &[u8]) -> (r: Option<Self>) {
        let ms = match read_object(s) {
            Some(ms) => ms,
            None => return None,
        };
        let sub = id_member(&ms, key_sub_bytes().as_slice());
        let exp = int_member(&ms, key_exp_bytes().as_slice());
        let iat = int_member(&ms, key_iat_bytes().as_slice());
        match (sub, exp, iat) {
            (Some(sub), Some(exp), Some(iat)) => Some(AccessTokenClaims { sub: Id::from_u128(sub), exp, iat }),
            _ => None,
        }
    }

    fn exp_seconds(&self) -> (r: i64) {
        self.exp
    }

    proof fn lemma_json_round_trip(&self) {
        let c = *self;
        let hs = hex_digits(c.sub@ as nat, 32);
        let t3 = int_member_text(key_iat(), c.iat) + seq![125u8];
        let t2 = int_member_text(key_exp(), c.exp) + seq![44u8] + t3;
        let t1 = text_member(key_sub(), hs) + seq![44u8] + t2;
        assert(access_json(c) =~= seq![123u8] + t1);
        lemma_keys_plain();
        lemma_hex_plain(c.sub@ as nat, 32);
        let n = t1.len();
        assert(t3[0] == 34u8);
        assert(t2[0] == 34u8);
        assert(t1[0] == 34u8);
        lemma_int_member_last(key_iat(), c.iat, (n - 2) as nat);
        let e3 = seq![(key_iat(), ScalarView::Int(c.iat))];
        lemma_int_member_cons(key_exp(), c.exp, t3, (n - 1) as nat, e3, seq![125u8]);
        let e2 = seq![(key_exp(), ScalarView::Int(c.exp))] + e3;
        lemma_text_member_cons(key_sub(), hs, t2, n, e2, seq![125u8]);
        let ms = seq![(key_sub(), ScalarView::Text(hs))] + e2;
        lemma_object(t1, ms);
        lemma_access_lookup(hs, c.exp, c.iat);
        lemma_id_value(c.sub@);
        Id::lemma_spec_from(c.sub);
    }
}

/// The claims of a longer-lived refresh token; `jti` names the token and
/// `sid` the session, for revocation and rotation.
#[derive(Debug, Clone, Copy, PartialEq, Eq, Structural)]
pub struct RefreshTokenClaims {
    pub sub: Id,
    pub exp: i64,
    pub iat: i64,
    pub jti: Id,
    pub sid: Id,
}

impl RefreshTokenClaims {
    pub fn sub(&self) -> (r: Id)
        ensures
            r == self.sub,
    {
        self.sub
    }

    pub fn exp(&self) -> (r: i64)
        ensures
            r == self.exp,
    {
        self.exp
    }

    pub fn iat(&self) -> (r: i64)
        ensures
            r == self.iat,
    {
        self.iat
    }

    pub fn jti(&self) -> (r: Id)
        ensures
            r == self.jti,
    {
        self.jti
    }

    pub fn sid(&self) -> (r: Id)
        ensures
            r == self.sid,
    {
        self.sid
    }
}

/// `{"sub":"<sub>","exp":<exp>,"iat":<iat>,"jti":"<jti>","sid":"<sid>"}`
pub open spec fn refresh_json(c: RefreshTokenClaims) -> Seq<u8> {
    lit_sub() + hex_digits(c.sub@ as nat, 32) + lit_exp() + int_text(c.exp as int) + lit_iat() + int_text(
        c.iat as int,
    ) + lit_jti() + hex_digits(c.jti@ as nat, 32) + lit_sid() + hex_digits(c.sid@ as nat, 32)
        + lit_quote_close()
}

/// The two ids that follow the head of refresh claims.
pub open spec fn parse_refresh(s: Seq<u8>) -> Option<RefreshTokenClaims> {
    match parse_object(s) {
        Some(ms) => match (
            id_value(lookup(ms, key_sub())),
            int_value(lookup(ms, key_exp())),
            int_value(lookup(ms, key_iat())),
            id_value(lookup(ms, key_jti())),
            id_value(lookup(ms, key_sid())),
        ) {
            (Some(sub), Some(exp), Some(iat), Some(jti), Some(sid)) => Some(
                RefreshTokenClaims {
                    sub: Id::spec_from(sub),
                    exp,
                    iat,
                    jti: Id::spec_from(jti),
                    sid: Id::spec_from(sid),
                },
            ),
            _ => None,
        },
        None => None,
    }
}

impl Claims for RefreshTokenClaims {
    open spec fn json(&self) -> Seq<u8> {
        refresh_json(*self)
    }

    open spec fn parse(s: Seq<u8>) -> Option<Self> {
        parse_refresh(s)
    }

    open spec fn expiry(&self) -> i64 {
        self.exp
    }

    fn write_json(&self, out: &mut Vec<u8>) {
        write_all(out, lit_sub_bytes().as_slice());
        write_hex(out, self.sub.as_u128(), 32);
        write_all(out, lit_exp_bytes().as_slice());
        write_int(out, self.exp);
        write_all(out, lit_iat_bytes().as_slice());
        write_int(out, self.iat);
        write_all(out, lit_jti_bytes().as_slice());
        write_hex(out, self.jti.as_u128(), 32);
        write_all(out, lit_sid_bytes().as_slice());
        write_hex(out, self.sid.as_u128(), 32);
        write_all(out, lit_quote_close_bytes().as_slice());
        assert(final(out)@ =~= old(out)@ + refresh_json(*self));
    }

    fn read_json(s: &[u8]) -> (r: Option<Self>) {
        let ms = match read_object(s) {
            Some(ms) => ms,
            None => return None,
        };
        let sub = id_member(&ms, key_sub_bytes().as_slice());
        let exp = int_member(&ms, key_exp_bytes().as_slice());
        let iat = int_member(&ms, key_iat_bytes().as_slice());
        let jti = id_member(&ms, key_jti_bytes().as_slice());
        let sid = id_member(&ms, key_sid_bytes().as_slice());
        match (sub, exp, iat, jti, sid) {
            (Some(sub), Some(exp), Some(iat), Some(jti), Some(sid)) => Some(
                RefreshTokenClaims {
                    sub: Id::from_u128(sub),
                    exp,
                    iat,
                    jti: Id::from_u128(jti),
                    sid: Id::from_u128(sid),
                },
            ),
            _ => None,
        }
    }

    fn exp_seconds(&self) -> (r: i64) {
        self.exp
    }

    proof fn lemma_json_round_trip(&self) {
        let c = *self;
        let hs = hex_digits(c.sub@ as nat, 32);
        let hj = hex_digits(c.jti@ as nat, 32);
        let hd = hex_digits(c.sid@ as nat, 32);
        lemma_refresh_object(c);
        lemma_refresh_lookup(hs, c.exp, c.iat, hj, hd);
        lemma_id_value(c.sub@);
        lemma_id_value(c.jti@);
        lemma_id_value(c.sid@);
        Id::lemma_spec_from(c.sub);
        Id::lemma_spec_from(c.jti);
        Id::lemma_spec_from(c.sid);
    }
}

} // verus!
