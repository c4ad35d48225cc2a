//! Minting and verifying signed tokens.
//!
//! A token is `<header>.<claims>.<signature>`: the first two segments are the
//! unpadded URL-safe base64 of the header and of the claims' text, the third
//! is the HMAC-SHA512 of the first two (with their dot) under the codec's
//! key, as jsonwebtoken computes it. Tokens are written with the header
//! `{"typ":"JWT","alg":"HS512"}`; any flat header object that names HS512 is
//! read. Access and refresh tokens use independent keys.
use crate::b64::{b64_decode, b64_encode, decode_range, encode_into, is_b64_byte, lemma_b64_round_trip,
    lemma_encode_alphabet};
use crate::claims::{
    AccessTokenClaims, Claims, RefreshTokenClaims, lemma_object, lemma_text_member_cons, lemma_text_member_last,
    text_member,
};
use crate::json::{ScalarView, find_member, is_plain, lookup, parse_object, read_object};
use crate::config::TokenSecretsConfig;
use crate::secret::Secret;
use crate::text::ascii_text;
use vstd::prelude::*;
use vstd::string::StringSliceAdditionalSpecFns;
use vstd::utf8::is_ascii_chars;

verus! {

#[verifier::external_type_specification]
#[verifier::external_body]
pub struct ExJwtError(jsonwebtoken::errors::Error);

/// The HMAC-SHA512 signature, as unpadded URL-safe base64 bytes, that
/// jsonwebtoken computes of `msg` under the secret `key`.
pub uninterp spec fn hs512_sig(key: Seq<char>, msg: Seq<u8>) -> Seq<u8>;

/// Relies on jsonwebtoken::crypto::sign with HS512 and a key made by
/// EncodingKey::from_secret: for HMAC it returns `Ok` with the base64url
/// (no padding) text of the digest of the message under the key's bytes.
#[verifier::external_body]
fn hs512_sign(key: &str, msg: &[u8]) -> (r: Result<Vec<u8>, jsonwebtoken::errors::Error>)
    ensures
        r is Ok,
        r matches Ok(sig) ==> sig@ == hs512_sig(key@, msg@),
        r matches Ok(sig) ==> forall|i: int| 0 <= i < sig@.len() ==> is_b64_byte(#[trigger] sig@[i]),
{
    let k = jsonwebtoken::EncodingKey::from_secret(key.as_bytes());
    match jsonwebtoken::crypto::sign(msg, &k, jsonwebtoken::Algorithm::HS512) {
        Ok(sig) => Ok(sig.into_bytes()),
        Err(e) => Err(e),
    }
}

/// Relies on jsonwebtoken::crypto::verify with HS512 and a key made by
/// DecodingKey::from_secret: for HMAC it signs the message again under the
/// key's bytes and returns `Ok` of whether the given signature has the same
/// bytes.
#[verifier::external_body]
fn hs512_verify(key: &str, msg: &[u8], sig: &str) -> (r: Result<bool, jsonwebtoken::errors::Error>)
    ensures
        r is Ok,
        r matches Ok(b) ==> (b <==> sig.spec_bytes() == hs512_sig(key@, msg@)),
{
    let k = jsonwebtoken::DecodingKey::from_secret(key.as_bytes());
    jsonwebtoken::crypto::verify(sig, msg, &k, jsonwebtoken::Algorithm::HS512)
}

/// Why a token was refused.
#[derive(Debug, Clone, Copy, PartialEq, Eq, Structural)]
pub enum TokenError {
    /// The signature is not the one the key gives.
    InvalidSignature,
    /// The token is not three segments of the expected form.
    Malformed,
    /// The claims expired at or before the time of verification.
    Expired,
}

/// The header every token carries: `{"typ":"JWT","alg":"HS512"}`.
pub open spec fn header_json() -> Seq<u8> {
    seq![
        123u8, 34, 116, 121, 112, 34, 58, 34, 74, 87, 84, 34, 44, 34, 97, 108, 103, 34, 58, 34, 72, 83, 53,
        49, 50, 34, 125,
    ]
}

fn header_bytes() -> (r: Vec<u8>)
    ensures
        r@ == header_json(),
{
    let r = vec![
        123u8, 34, 116, 121, 112, 34, 58, 34, 74, 87, 84, 34, 44, 34, 97, 108, 103, 34, 58, 34, 72, 83, 53,
        49, 50, 34, 125,
    ];
    assert(r@ =~= header_json());
    r
}

/// `alg`
pub open spec fn key_alg() -> Seq<u8> {
    seq![97u8, 108, 103]
}

/// `typ`
pub open spec fn key_typ() -> Seq<u8> {
    seq![116u8, 121, 112]
}

/// `HS512`
pub open spec fn alg_name() -> Seq<u8> {
    seq![72u8, 83, 53, 49, 50]
}

/// `JWT`
pub open spec fn typ_name() -> Seq<u8> {
    seq![74u8, 87, 84]
}

/// Whether a decoded header is a flat object that names the algorithm
/// HS512.
pub open spec fn header_ok(hj: Seq<u8>) -> bool {
    match parse_object(hj) {
        Some(ms) => lookup(ms, key_alg()) == Some(ScalarView::Text(alg_name())),
        None => false,
    }
}

fn check_header(hj: &[u8]) -> (r: bool)
    ensures
        r == header_ok(hj@),
{
    let ms = match read_object(hj) {
        Some(ms) => ms,
        None => return false,
    };
    let key = vec![97u8, 108, 103];
    assert(key@ =~= key_alg());
    let name = vec![72u8, 83, 53, 49, 50];
    assert(name@ =~= alg_name());
    match find_member(&ms, key.as_slice()) {
        Some(crate::json::Scalar::Text(t)) => bytes_eq(t.as_slice(), name.as_slice()),
        _ => false,
    }
}

/// The header this codec writes is one it accepts.
#[verifier::rlimit(50)]
proof fn lemma_header_ok()
    ensures
        header_ok(header_json()),
{
    let t2 = text_member(key_alg(), alg_name()) + seq![125u8];
    let t1 = text_member(key_typ(), typ_name()) + seq![44u8] + t2;
    assert(header_json() =~= seq![123u8] + t1);
    assert(is_plain(key_alg()));
    assert(is_plain(key_typ()));
    assert(is_plain(alg_name()));
    assert(is_plain(typ_name()));
    assert(t2[0] == 34u8);
    assert(t1[0] == 34u8);
    let n = t1.len();
    lemma_text_member_last(key_alg(), alg_name(), (n - 1) as nat);
    let e2 = seq![(key_alg(), ScalarView::Text(alg_name()))];
    lemma_text_member_cons(key_typ(), typ_name(), t2, n, e2, seq![125u8]);
    let ms = seq![(key_typ(), ScalarView::Text(typ_name()))] + e2;
    lemma_object(t1, ms);
    assert(ms[0].0 != key_alg()) by {
        assert(ms[0].0[0] != key_alg()[0]);
    }
    assert(ms.skip(1) =~= e2);
    assert(e2[0].0 == key_alg());
    assert(lookup(e2, key_alg()) == Some(ScalarView::Text(alg_name())));
    assert(lookup(ms, key_alg()) == lookup(ms.skip(1), key_alg()));
    assert(parse_object(header_json()) == Some(ms));
}

/// What is signed: the two encoded segments joined by a dot.
pub open spec fn signing_input<T: Claims>(c: T) -> Seq<u8> {
    b64_encode(header_json()) + seq![46u8] + b64_encode(c.json())
}

/// Whether the signature of claims `c` under `key` is written in the
/// base64url alphabet, as every signature made by signing is.
pub open spec fn sig_is_b64<T: Claims>(key: Seq<char>, c: T) -> bool {
    forall|i: int|
        0 <= i < hs512_sig(key, signing_input(c)).len() ==> is_b64_byte(
            #[trigger] hs512_sig(key, signing_input(c))[i],
        )
}

/// What verifying, at `now`, a token made from claims `c` under the
/// verifier's own key gives: the claims while they have not expired.
pub open spec fn fresh_outcome<T: Claims>(c: T, now: i64) -> Result<T, TokenError> {
    if c.expiry() <= now {
        Err(TokenError::Expired)
    } else {
        Ok(c)
    }
}

/// The token for claims `c` under `key`, as bytes.
pub open spec fn token_bytes<T: Claims>(key: Seq<char>, c: T) -> Seq<u8> {
    signing_input(c) + seq![46u8] + hs512_sig(key, signing_input(c))
}

/// The token for claims `c` under `key`, as text.
pub open spec fn token_text<T: Claims>(key: Seq<char>, c: T) -> Seq<char> {
    token_bytes(key, c).map_values(|b: u8| b as char)
}

/// The position of the first dot in `t`.
pub open spec fn dot_pos(t: Seq<u8>) -> Option<nat>
    decreases t.len(),
{
    if t.len() == 0 {
        None
    } else if t[0] == 46u8 {
        Some(0)
    } else {
        match dot_pos(t.skip(1)) {
            Some(k) => Some(k + 1),
            None => None,
        }
    }
}

/// The three dot-separated segments of `t`, if it has exactly two dots.
pub open spec fn split3(t: Seq<u8>) -> Option<(Seq<u8>, Seq<u8>, Seq<u8>)> {
    match dot_pos(t) {
        Some(i) => {
            let rest = t.skip((i + 1) as int);
            match dot_pos(rest) {
                Some(j) => {
                    let sig = rest.skip((j + 1) as int);
                    if dot_pos(sig) is None {
                        Some((t.take(i as int), rest.take(j as int), sig))
                    } else {
                        None
                    }
                },
                None => None,
            }
        },
        None => None,
    }
}

/// What verifying the token bytes `t` under `key` at time `now` (seconds
/// since the epoch) gives.
pub open spec fn verify_bytes<T: Claims>(key: Seq<char>, t: Seq<u8>, now: i64) -> Result<T, TokenError> {
    match split3(t) {
        None => Err(TokenError::Malformed),
        Some((h, p, sig)) => if sig != hs512_sig(key, h + seq![46u8] + p) {
            Err(TokenError::InvalidSignature)
        } else {
            match (b64_decode(h), b64_decode(p)) {
                (Some(hj), Some(pj)) => if !header_ok(hj) {
                    Err(TokenError::Malformed)
                } else {
                    match T::parse(pj) {
                        Some(c) => if c.expiry() <= now {
                            Err(TokenError::Expired)
                        } else {
                            Ok(c)
                        },
                        None => Err(TokenError::Malformed),
                    }
                },
                _ => Err(TokenError::Malformed),
            }
        },
    }
}

/// What verifying the token text `t` gives: text beyond ASCII is malformed.
pub open spec fn verify_text<T: Claims>(key: Seq<char>, t: Seq<char>, now: i64) -> Result<T, TokenError> {
    if is_ascii_chars(t) {
        verify_bytes::<T>(key, t.map_values(|c: char| c as u8), now)
    } else {
        Err(TokenError::Malformed)
    }
}

/// Finds the first dot at or after `from`.
fn find_dot(s: &[u8], from: usize) -> (r: Option<usize>)
    requires
        from <= s@.len(),
    ensures
        r is None ==> dot_pos(s@.skip(from as int)) is None,
        r matches Some(k) ==> from <= k < s@.len() && s@[k as int] == 46u8 && dot_pos(s@.skip(from as int)) == Some(
            (k - from) as nat,
        ),
{
    let n = s.len();
    let mut i: usize = from;
    while i < n
        invariant
            n == s@.len(),
            from <= i <= n,
            dot_pos(s@.skip(from as int)) == (match dot_pos(s@.skip(i as int)) {
                Some(d) => Some(d + (i - from) as nat),
                None => None::<nat>,
            }),
        decreases n - i,
    {
        if s[i] == 46u8 {
            return Some(i);
        }
        assert(s@.skip(i as int).skip(1) =~= s@.skip(i + 1));
        i = i + 1;
    }
    None
}

fn bytes_eq(a: &[u8], b: &[u8]) -> (r: bool)
    ensures
        r == (a@ == b@),
{
    if a.len() != b.len() {
        return false;
    }
    let mut i: usize = 0;
    while i < a.len()
        invariant
            a@.len() == b@.len(),
            i <= a@.len(),
            forall|k: int| 0 <= k < i ==> a@[k] == b@[k],
        decreases a@.len() - i,
    {
        if a[i] != b[i] {
            return false;
        }
        i = i + 1;
    }
    assert(a@ =~= b@);
    true
}

/// Writes the signing input of claims: the encoded header and claims.
fn signing_input_of<T: Claims>(value: &T) -> (r: Vec<u8>)
    ensures
        r@ == signing_input(*value),
        forall|i: int| 0 <= i < r@.len() ==> is_b64_byte(#[trigger] r@[i]) || r@[i] == 46u8,
{
    let mut json: Vec<u8> = Vec::new();
    value.write_json(&mut json);
    assert(json@ =~= value.json());
    let mut out: Vec<u8> = Vec::new();
    encode_into(&mut out, header_bytes().as_slice());
    out.push(46u8);
    encode_into(&mut out, json.as_slice());
    assert(out@ =~= signing_input(*value));
    out
}

/// Signs claims of type `T` into tokens.
pub struct JwtTokenEncoder<T> {
    key: Secret<String>,
    _d: std::marker::PhantomData<T>,
}

/// Verifies tokens that carry claims of type `T`.
pub struct JwtTokenDecoder<T> {
    key: Secret<String>,
    _d: std::marker::PhantomData<T>,
}

impl<T: Claims> JwtTokenEncoder<T> {
    pub closed spec fn spec_key(&self) -> Seq<char> {
        self.key.inner()@
    }

    /// The token for `value`: always made, since HMAC signing cannot fail.
    pub fn encode(&self, value: &T) -> (r: Result<String, jsonwebtoken::errors::Error>)
        ensures
            r is Ok,
            r matches Ok(t) ==> t@ == token_text(self.spec_key(), *value),
            sig_is_b64(self.spec_key(), *value),
            split3(token_bytes(self.spec_key(), *value)) == Some(
                (
                    b64_encode(header_json()),
                    b64_encode(value.json()),
                    hs512_sig(self.spec_key(), signing_input(*value)),
                ),
            ),
            r matches Ok(t) ==> forall|now: i64|
                #[trigger] verify_text::<T>(self.spec_key(), t@, now) == fresh_outcome(*value, now),
    {
        let input = signing_input_of(value);
        let sig = match hs512_sign(self.key.expose().as_str(), input.as_slice()) {
            Ok(s) => s,
            Err(e) => return Err(e),
        };
        let mut token = input.clone();
        token.push(46u8);
        let mut i: usize = 0;
        while i < sig.len()
            invariant
                i <= sig@.len(),
                token@ == input@ + seq![46u8] + sig@.take(i as int),
            decreases sig@.len() - i,
        {
            token.push(sig[i]);
            i = i + 1;
            assert(token@ =~= input@ + seq![46u8] + sig@.take(i as int));
        }
        assert(sig@.take(i as int) =~= sig@);
        assert(token@ =~= token_bytes(self.spec_key(), *value));
        proof {
            lemma_token_split(self.spec_key(), *value);
            assert forall|now: i64|
                #[trigger] verify_text::<T>(self.spec_key(), token_text(self.spec_key(), *value), now)
                    == fresh_outcome(*value, now) by {
                lemma_expiry(self.spec_key(), *value, now);
            }
        }
        Ok(ascii_text(&token))
    }
}

impl<T: Claims> JwtTokenDecoder<T> {
    pub closed spec fn spec_key(&self) -> Seq<char> {
        self.key.inner()@
    }

    /// The claims of `token` if its signature is right under this key, it
    /// has the expected form, and it has not expired at `now` (seconds since
    /// the epoch; a token whose expiry equals `now` has expired).
    pub fn decode(&self, token: &str, now: i64) -> (r: Result<T, TokenError>)
        ensures
            r == verify_text::<T>(self.spec_key(), token@, now),
    {
        broadcast use vstd::string::is_ascii_spec_bytes;

        if !token.is_ascii() {
            return Err(TokenError::Malformed);
        }
        let bytes = token.as_bytes();
        let ghost t = token@.map_values(|c: char| c as u8);
        assert(bytes@ =~= t);
        let n = bytes.len();
        let i1 = match find_dot(bytes, 0) {
            Some(k) => k,
            None => {
                assert(bytes@.skip(0) =~= t);
                return Err(TokenError::Malformed);
            },
        };
        assert(bytes@.skip(0) =~= t);
        let i2 = match find_dot(bytes, i1 + 1) {
            Some(k) => k,
            None => return Err(TokenError::Malformed),
        };
        let ghost rest = t.skip(i1 + 1);
        assert(rest.skip((i2 - (i1 + 1)) + 1) =~= t.skip(i2 + 1));
        if find_dot(bytes, i2 + 1).is_some() {
            return Err(TokenError::Malformed);
        }
        let ghost h = t.take(i1 as int);
        let ghost p = rest.take((i2 - (i1 + 1)) as int);
        assert(p =~= t.subrange(i1 + 1, i2 as int));
        assert(split3(t) == Some((h, p, t.skip(i2 + 1))));
        let sig = token.substring_ascii(i2 + 1, n);
        let msg = vstd::slice::slice_subrange(bytes, 0, i2);
        assert(msg@ =~= h + seq![46u8] + p);
        assert(sig.spec_bytes() =~= t.skip(i2 + 1));
        match hs512_verify(self.key.expose().as_str(), msg, sig) {
            Ok(true) => {},
            _ => return Err(TokenError::InvalidSignature),
        }
        let hj = match decode_range(bytes, 0, i1) {
            Some(v) => v,
            None => return Err(TokenError::Malformed),
        };
        assert(bytes@.subrange(0, i1 as int) =~= h);
        let pj = match decode_range(bytes, i1 + 1, i2) {
            Some(v) => v,
            None => return Err(TokenError::Malformed),
        };
        if !check_header(hj.as_slice()) {
            return Err(TokenError::Malformed);
        }
        match T::read_json(pj.as_slice()) {
            Some(c) => {
                if c.exp_seconds() <= now {
                    Err(TokenError::Expired)
                } else {
                    Ok(c)
                }
            },
            None => Err(TokenError::Malformed),
        }
    }
}

/// An encoder and a decoder that share one key.
pub struct EncDecPair<T> {
    pub encoder: JwtTokenEncoder<T>,
    pub decoder: JwtTokenDecoder<T>,
}

impl<T: Claims> EncDecPair<T> {
    pub fn from_secret(secret: &str) -> (r: Self)
        ensures
            r.encoder.spec_key() == secret@,
            r.decoder.spec_key() == secret@,
    {
        EncDecPair {
            encoder: JwtTokenEncoder {
                key: Secret::new(String::from_str(secret)),
                _d: std::marker::PhantomData,
            },
            decoder: JwtTokenDecoder {
                key: Secret::new(String::from_str(secret)),
                _d: std::marker::PhantomData,
            },
        }
    }
}

/// The codecs of both kinds of token.
pub struct TokensEncDec {
    pub access: EncDecPair<AccessTokenClaims>,
    pub refresh: EncDecPair<RefreshTokenClaims>,
}

impl TokensEncDec {
    pub fn from_config(config: &TokenSecretsConfig) -> (r: Self)
        ensures
            r.access.encoder.spec_key() == config.spec_access(),
            r.access.decoder.spec_key() == config.spec_access(),
            r.refresh.encoder.spec_key() == config.spec_refresh(),
            r.refresh.decoder.spec_key() == config.spec_refresh(),
    {
        TokensEncDec {
            access: EncDecPair::from_secret(config.access_secret()),
            refresh: EncDecPair::from_secret(config.refresh_secret()),
        }
    }
}

/// Where the first dot stands after a prefix without dots.
proof fn lemma_dot_pos(a: Seq<u8>, rest: Seq<u8>)
    requires
        forall|i: int| 0 <= i < a.len() ==> #[trigger] a[i] != 46u8,
    ensures
        dot_pos(a + seq![46u8] + rest) == Some(a.len()),
        dot_pos(a) is None,
    decreases a.len(),
{
    if a.len() > 0 {
        let tail = a.skip(1);
        assert forall|i: int| 0 <= i < tail.len() implies #[trigger] tail[i] != 46u8 by {
            assert(tail[i] == a[i + 1]);
        }
        lemma_dot_pos(tail, rest);
        assert((a + seq![46u8] + rest).skip(1) =~= tail + seq![46u8] + rest);
        assert((a + seq![46u8] + rest)[0] == a[0]);
    } else {
        assert((a + seq![46u8] + rest)[0] == 46u8);
    }
}

proof fn lemma_no_dot_in_b64(s: Seq<u8>)
    requires
        forall|i: int| 0 <= i < s.len() ==> is_b64_byte(#[trigger] s[i]),
    ensures
        forall|i: int| 0 <= i < s.len() ==> #[trigger] s[i] != 46u8,
{
}

/// How a token made under `key` splits and what its signature is checked
/// against.
pub proof fn lemma_token_split<T: Claims>(key: Seq<char>, c: T)
    requires
        sig_is_b64(key, c),
    ensures
        split3(token_bytes(key, c)) == Some(
            (b64_encode(header_json()), b64_encode(c.json()), hs512_sig(key, signing_input(c))),
        ),
        is_ascii_chars(token_text(key, c)),
        token_text(key, c).map_values(|ch: char| ch as u8) == token_bytes(key, c),
{
    let h = b64_encode(header_json());
    let p = b64_encode(c.json());
    let sig = hs512_sig(key, signing_input(c));
    lemma_encode_alphabet(header_json());
    lemma_encode_alphabet(c.json());
    lemma_no_dot_in_b64(h);
    lemma_no_dot_in_b64(p);
    lemma_no_dot_in_b64(sig);
    let t = token_bytes(key, c);
    assert(t =~= h + seq![46u8] + (p + seq![46u8] + sig));
    lemma_dot_pos(h, p + seq![46u8] + sig);
    assert(t.skip((h.len() + 1) as int) =~= p + seq![46u8] + sig);
    lemma_dot_pos(p, sig);
    assert((p + seq![46u8] + sig).skip((p.len() + 1) as int) =~= sig);
    lemma_dot_pos(sig, Seq::empty());
    assert(t.take(h.len() as int) =~= h);
    assert((p + seq![46u8] + sig).take(p.len() as int) =~= p);
    assert forall|i: int| 0 <= i < t.len() implies #[trigger] t[i] < 128 by {
        if i < h.len() {
            assert(t[i] == h[i]);
            assert(is_b64_byte(h[i]));
        } else if i == h.len() {
        } else if i < h.len() + 1 + p.len() {
            assert(t[i] == p[i - h.len() - 1]);
            assert(is_b64_byte(p[i - h.len() - 1]));
        } else if i == h.len() + 1 + p.len() {
        } else {
            assert(t[i] == sig[i - h.len() - 2 - p.len()]);
            assert(is_b64_byte(sig[i - h.len() - 2 - p.len()]));
        }
    }
    let text = token_text(key, c);
    assert forall|i: int| 0 <= i < text.len() implies '\0' <= #[trigger] text[i] <= '\u{7f}' by {
        assert(t[i] < 128);
    }
    assert forall|i: int| 0 <= i < t.len() implies #[trigger] ((t[i] as char) as u8) == t[i] by {
        assert(t[i] < 128);
    }
    assert(text.map_values(|ch: char| ch as u8) =~= t);
}

/// A token made under a key verifies under the same key, before its expiry,
/// to the very claims it was made from.
pub proof fn lemma_round_trip<T: Claims>(key: Seq<char>, c: T, now: i64)
    requires
        c.expiry() > now,
        sig_is_b64(key, c),
    ensures
        verify_text::<T>(key, token_text(key, c), now) == Ok::<T, TokenError>(c),
{
    lemma_token_split(key, c);
    lemma_b64_round_trip(header_json());
    lemma_header_ok();
    lemma_b64_round_trip(c.json());
    c.lemma_json_round_trip();
}

/// A token made under one key is refused, for its signature, by a codec with
/// another key, whichever kind of claims either side expects, wherever the
/// two keys sign its contents differently.
pub proof fn lemma_other_key_refused<T: Claims, U: Claims>(signer: Seq<char>, verifier: Seq<char>, c: T, now: i64)
    requires
        hs512_sig(signer, signing_input(c)) != hs512_sig(verifier, signing_input(c)),
        sig_is_b64(signer, c),
    ensures
        verify_text::<U>(verifier, token_text(signer, c), now) == Err::<U, TokenError>(TokenError::InvalidSignature),
{
    lemma_token_split(signer, c);
}

/// A token verifies only strictly before its expiry: at or after it, it is
/// refused as expired; before it, it gives its claims.
pub proof fn lemma_expiry<T: Claims>(key: Seq<char>, c: T, now: i64)
    requires
        sig_is_b64(key, c),
    ensures
        c.expiry() <= now ==> verify_text::<T>(key, token_text(key, c), now) == Err::<T, TokenError>(
            TokenError::Expired,
        ),
        c.expiry() > now ==> verify_text::<T>(key, token_text(key, c), now) == Ok::<T, TokenError>(c),
{
    lemma_token_split(key, c);
    lemma_b64_round_trip(header_json());
    lemma_header_ok();
    lemma_b64_round_trip(c.json());
    c.lemma_json_round_trip();
}

} // verus!
