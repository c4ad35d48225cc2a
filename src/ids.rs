//! Identifiers: subject ids and per-request correlation ids, both 128-bit.
use crate::text::{hex_byte, hex_digits, lemma_hex_round_trip, lemma_pow16_32, parse_hex, push_char, write_hex};
use vstd::utf8::is_ascii_chars;
use vstd::prelude::*;

verus! {

/// The 32 lowercase hexadecimal digits of a 128-bit value, without dashes.
pub open spec fn simple_text(v: u128) -> Seq<char> {
    hex_digits(v as nat, 32).map_values(|b: u8| b as char)
}

/// What uuid's parser makes of a text: the value of the UUID it reads, if any.
pub uninterp spec fn uuid_parse(s: Seq<char>) -> Option<u128>;

/// The value of a text of exactly 32 ASCII hexadecimal digits (either case),
/// most significant first.
pub open spec fn simple_value(s: Seq<char>) -> Option<nat> {
    if s.len() == 32 && is_ascii_chars(s) {
        parse_hex(s.map_values(|c: char| c as u8))
    } else {
        None
    }
}

/// Relies on uuid::Uuid::parse_str: it accepts the simple, hyphenated, braced
/// and URN forms and yields the 128-bit value, or fails; the outcome depends
/// on the text alone. An input of 32 bytes is read as the simple form: 32
/// hexadecimal digits of either case, the value big-endian (parser.rs
/// `parse_simple`, `decode_hex32`; `as_u128` is `from_be_bytes`).
#[verifier::external_body]
fn parse_uuid(s: &str) -> (r: Option<u128>)
    ensures
        r == uuid_parse(s@),
        simple_value(s@) matches Some(v) ==> r == Some(v as u128),
{
    match uuid::Uuid::parse_str(s) {
        Ok(u) => Some(u.as_u128()),
        Err(_) => None,
    }
}

/// Relies on uuid::Uuid::now_v7: a fresh time-ordered UUID; nothing is
/// promised of its value.
#[verifier::external_body]
fn fresh_v7() -> (r: u128) {
    uuid::Uuid::now_v7().as_u128()
}

/// Writes the 32 lowercase hexadecimal digits of `v` as a `String`.
pub fn simple_string(v: u128) -> (r: String)
    ensures
        r@ == simple_text(v),
{
    let mut digits: Vec<u8> = Vec::new();
    write_hex(&mut digits, v, 32);
    assert(digits@ =~= hex_digits(v as nat, 32));
    let mut out = String::new();
    let mut i: usize = 0;
    while i < digits.len()
        invariant
            i <= digits@.len(),
            digits@ == hex_digits(v as nat, 32),
            out@ =~= digits@.take(i as int).map_values(|b: u8| b as char),
        decreases digits@.len() - i,
    {
        push_char(&mut out, digits[i] as char);
        i = i + 1;
        assert(out@ =~= digits@.take(i as int).map_values(|b: u8| b as char));
    }
    assert(digits@.take(i as int) =~= digits@);
    out
}

/// A source of fresh identifiers.
pub trait IdGenerator<T> {
    fn next_id(&self) -> T;
}

/// Generates time-ordered identifiers from the clock and randomness.
pub struct DefaultIdGenerator;

/// The unique identifier of a subject (a user, a login).
#[derive(Debug, Clone, Copy, PartialEq, Eq, Structural, PartialOrd, Ord, Hash)]
pub struct Id(u128);

impl View for Id {
    type V = u128;

    closed spec fn view(&self) -> u128 {
        self.0
    }
}

impl Id {
    /// The id of a value.
    pub closed spec fn spec_from(value: u128) -> Id {
        Id(value)
    }

    /// An id is determined by its value.
    pub proof fn lemma_spec_from(id: Id)
        ensures
            Id::spec_from(id@) == id,
            forall|v: u128| #[trigger] Id::spec_from(v)@ == v,
    {
    }

    pub fn from_u128(value: u128) -> (r: Id)
        ensures
            r@ == value,
            r == Id::spec_from(value),
    {
        Id(value)
    }

    pub fn as_u128(&self) -> (r: u128)
        ensures
            r == self@,
    {
        self.0
    }

    /// The id as 32 lowercase hexadecimal digits.
    pub fn to_simple(&self) -> (r: String)
        ensures
            r@ == simple_text(self@),
    {
        simple_string(self.0)
    }

    /// Reads an id in any form that a UUID may be written in.
    pub fn parse(s: &str) -> (r: Option<Id>)
        ensures
            r is Some <==> uuid_parse(s@) is Some,
            r matches Some(id) ==> uuid_parse(s@) == Some(id@),
            simple_value(s@) matches Some(v) ==> (r matches Some(id) && id@ == v as u128),
    {
        match parse_uuid(s) {
            Some(v) => Some(Id(v)),
            None => None,
        }
    }
}

impl IdGenerator<Id> for DefaultIdGenerator {
    fn next_id(&self) -> Id {
        Id(fresh_v7())
    }
}

/// The correlation id of one request.
#[derive(Debug, Clone, Copy, PartialEq, Eq, Structural, Hash)]
pub struct TraceId(u128);

impl View for TraceId {
    type V = u128;

    closed spec fn view(&self) -> u128 {
        self.0
    }
}

impl TraceId {
    pub fn from_u128(value: u128) -> (r: TraceId)
        ensures
            r@ == value,
    {
        TraceId(value)
    }

    pub fn as_u128(&self) -> (r: u128)
        ensures
            r == self@,
    {
        self.0
    }

    /// The id as it is written into the response header and the log: 32
    /// lowercase hexadecimal digits.
    pub fn to_simple(&self) -> (r: String)
        ensures
            r@ == simple_text(self@),
    {
        simple_string(self.0)
    }

    pub fn parse(s: &str) -> (r: Option<TraceId>)
        ensures
            r is Some <==> uuid_parse(s@) is Some,
            r matches Some(id) ==> uuid_parse(s@) == Some(id@),
            simple_value(s@) matches Some(v) ==> (r matches Some(id) && id@ == v as u128),
    {
        match parse_uuid(s) {
            Some(v) => Some(TraceId(v)),
            None => None,
        }
    }
}

impl IdGenerator<TraceId> for DefaultIdGenerator {
    fn next_id(&self) -> TraceId {
        TraceId(fresh_v7())
    }
}

/// The 32-digit text of a value reads back as that value.
pub proof fn lemma_simple_round_trip(v: u128)
    ensures
        simple_value(simple_text(v)) == Some(v as nat),
{
    lemma_pow16_32();
    lemma_hex_round_trip(v as nat, 32);
    lemma_hex_ascii(v as nat, 32);
    let h = hex_digits(v as nat, 32);
    let t = simple_text(v);
    assert forall|i: int| 0 <= i < t.len() implies '\0' <= #[trigger] t[i] <= '\u{7f}' by {
        assert(h[i] < 128);
    }
    assert forall|i: int| 0 <= i < h.len() implies #[trigger] ((h[i] as char) as u8) == h[i] by {
        assert(h[i] < 128);
    }
    assert(t.map_values(|c: char| c as u8) =~= h);
}

proof fn lemma_hex_ascii(v: nat, n: nat)
    ensures
        forall|i: int| 0 <= i < hex_digits(v, n).len() ==> #[trigger] hex_digits(v, n)[i] < 128,
        hex_digits(v, n).len() == n,
    decreases n,
{
    if n > 0 {
        lemma_hex_ascii(v / 16, (n - 1) as nat);
        let h = hex_digits(v, n);
        assert forall|i: int| 0 <= i < h.len() implies #[trigger] h[i] < 128 by {
            if i < n - 1 {
                assert(h[i] == hex_digits(v / 16, (n - 1) as nat)[i]);
            } else {
                assert(h[i] == hex_byte(v % 16));
            }
        }
    }
}

} // verus!
