//! Bearer-token authentication of a request.
//!
//! A request is authenticated when its `Authorization` header reads
//! `Bearer <token>` and the token verifies as access claims; otherwise it goes
//! on anonymously. The request is never refused here: the outcome is only made
//! visible, as an optional [`Principal`] and as a "principal" span that carries
//! the subject's id when there is one.
use crate::claims::AccessTokenClaims;
use crate::codec::{
    JwtTokenDecoder, lemma_expiry, lemma_round_trip, sig_is_b64, token_text, verify_text,
};
use crate::ids::{Id, simple_text};
use crate::logs::{FieldView, Level, LogCollector, LogField, SpanData, SpanStack, SpanView};
use vstd::prelude::*;

verus! {

/// The identity of an authenticated caller.
#[derive(Debug, Clone, Copy, PartialEq, Eq, Structural)]
pub struct Principal {
    id: Id,
}

impl Principal {
    pub closed spec fn spec_id(&self) -> Id {
        self.id
    }

    pub closed spec fn spec_new(id: Id) -> Principal {
        Principal { id }
    }

    pub fn new(id: Id) -> (r: Self)
        ensures
            r == Principal::spec_new(id),
            r.spec_id() == id,
    {
        Principal { id }
    }

    pub fn id(&self) -> (r: Id)
        ensures
            r == self.spec_id(),
    {
        self.id
    }
}

/// The token of an `Authorization` header of the bearer scheme.
pub open spec fn bearer_token(h: Seq<char>) -> Option<Seq<char>> {
    if h.len() >= 7 && h.take(7) == "Bearer "@ {
        Some(h.skip(7))
    } else {
        None
    }
}

/// The access claims that a request with this `Authorization` header (if
/// any) carries, at `now` (seconds since the epoch), under the access key
/// `key`: those of its bearer token, if the token verifies.
pub open spec fn claims_of(key: Seq<char>, header: Option<Seq<char>>, now: i64) -> Option<AccessTokenClaims> {
    match header {
        Some(h) => match bearer_token(h) {
            Some(t) => match verify_text::<AccessTokenClaims>(key, t, now) {
                Ok(c) => Some(c),
                Err(_) => None,
            },
            None => None,
        },
        None => None,
    }
}

/// Who a request with this `Authorization` header (if any) is: the subject of
/// the claims it carries.
pub open spec fn caller_of(key: Seq<char>, header: Option<Seq<char>>, now: i64) -> Option<Id> {
    match claims_of(key, header, now) {
        Some(c) => Some(c.sub),
        None => None,
    }
}

/// The message that records the outcome.
pub open spec fn auth_message(caller: Option<Id>) -> Seq<char> {
    match caller {
        Some(id) => "User '"@ + simple_text(id@) + "' has been authenticated"@,
        None => "User hasn't been authenticated"@,
    }
}

/// The text of a header that may be missing.
pub open spec fn header_text(header: Option<&str>) -> Option<Seq<char>> {
    match header {
        Some(h) => Some(h@),
        None => None,
    }
}

/// The span that records the outcome: the subject's id as field `id` when
/// there is a caller, no field otherwise.
pub open spec fn principal_span(caller: Option<Id>) -> SpanView {
    SpanView {
        name: "principal"@,
        fields: match caller {
            Some(id) => seq![("id"@, simple_text(id@))],
            None => Seq::<FieldView>::empty(),
        },
    }
}

/// The token of a bearer `Authorization` header.
pub fn parse_bearer(header: &str) -> (r: Option<&str>)
    ensures
        r is Some <==> bearer_token(header@) is Some,
        r matches Some(t) ==> bearer_token(header@) == Some(t@),
{
    let prefix = "Bearer ";
    proof {
        reveal_strlit("Bearer ");
    }
    let n = header.unicode_len();
    if n < 7 {
        return None;
    }
    let mut i: usize = 0;
    while i < 7
        invariant
            n == header@.len(),
            7 <= n,
            i <= 7,
            prefix@ == "Bearer "@,
            prefix@.len() == 7,
            forall|k: int| 0 <= k < i ==> header@[k] == prefix@[k],
        decreases 7 - i,
    {
        if header.get_char(i) != prefix.get_char(i) {
            assert(header@.take(7)[i as int] != "Bearer "@[i as int]);
            return None;
        }
        i = i + 1;
    }
    assert(header@.take(7) =~= "Bearer "@);
    Some(header.substring_char(7, n))
}

/// The access claims of a request with this `Authorization` header, if it
/// carries a valid, unexpired bearer token.
pub fn parse_token(decoder: &JwtTokenDecoder<AccessTokenClaims>, header: Option<&str>, now: i64) -> (r: Option<
    AccessTokenClaims,
>)
    ensures
        r == claims_of(decoder.spec_key(), header_text(header), now),
{
    match header {
        Some(h) => match parse_bearer(h) {
            Some(t) => match decoder.decode(t, now) {
                Ok(c) => Some(c),
                Err(_) => None,
            },
            None => None,
        },
        None => None,
    }
}

/// Authenticates a request: records whether it succeeded, opens the
/// "principal" span in the request's context, and gives the caller, if any.
pub fn authenticate(
    decoder: &JwtTokenDecoder<AccessTokenClaims>,
    header: Option<&str>,
    now: i64,
    stack: &mut SpanStack,
    logs: &mut LogCollector,
) -> (r: Option<Principal>)
    ensures
        r is Some <==> caller_of(decoder.spec_key(), header_text(header), now) is Some,
        r matches Some(p) ==> caller_of(decoder.spec_key(), header_text(header), now) == Some(p.spec_id()),
        final(stack)@ == old(stack)@.push(
            principal_span(caller_of(decoder.spec_key(), header_text(header), now)),
        ),
        final(logs).entries().len() == old(logs).entries().len() + 1,
        final(logs).entries().drop_last() == old(logs).entries(),
        final(logs).entries().last().spans == old(stack)@,
        final(logs).entries().last().message == auth_message(
            caller_of(decoder.spec_key(), header_text(header), now),
        ),
        final(logs).entries().last().fields.len() == 0,
        final(logs).entries().last().level == Level::Info,
        final(logs).behaviour() == old(logs).behaviour(),
{
    let caller = parse_token(decoder, header, now);
    let ghost who = caller_of(decoder.spec_key(), header_text(header), now);
    match caller {
        Some(c) => {
            let id = c.sub();
            let text = id.to_simple();
            let mut message = String::from_str("User '");
            message.append(text.as_str());
            message.append("' has been authenticated");
            let ghost before = logs.entries();
            logs.record(stack, now.wrapping_mul(1000), Level::Info, "auth", message.as_str(), Vec::new());
            assert(logs.entries().drop_last() =~= before);
            let mut fields: Vec<LogField> = Vec::new();
            fields.push(LogField::from_strings(String::from_str("id"), text));
            let span = SpanData::new("principal", fields);
            assert(span@.fields =~= principal_span(who).fields);
            assert(span@.name == principal_span(who).name);
            stack.enter(span);
            Some(Principal::new(id))
        },
        None => {
            let ghost before = logs.entries();
            logs.record(stack, now.wrapping_mul(1000), Level::Info, "auth", "User hasn't been authenticated", Vec::new());
            assert(logs.entries().drop_last() =~= before);
            let span = SpanData::new("principal", Vec::new());
            assert(span@.fields =~= principal_span(who).fields);
            assert(span@.name == principal_span(who).name);
            stack.enter(span);
            None
        },
    }
}

/// A request whose bearer token was made under the access key from claims
/// that have not expired is authenticated as the claims' subject, and its
/// "principal" span carries that subject's id.
pub proof fn lemma_valid_token_authenticates(key: Seq<char>, c: AccessTokenClaims, now: i64)
    requires
        c.exp > now,
        sig_is_b64(key, c),
    ensures
        caller_of(key, Some("Bearer "@ + token_text(key, c)), now) == Some(c.sub),
        principal_span(caller_of(key, Some("Bearer "@ + token_text(key, c)), now)).fields == seq![
            ("id"@, simple_text(c.sub@)),
        ],
{
    lemma_bearer_of(token_text(key, c));
    lemma_round_trip::<AccessTokenClaims>(key, c, now);
}

/// A request with no `Authorization` header, with a header of another scheme,
/// or with a bearer token that does not verify (expired, signed with another
/// key, malformed) has no caller, and its "principal" span has no field.
pub proof fn lemma_anonymous(key: Seq<char>, header: Option<Seq<char>>, now: i64)
    requires
        header matches Some(h) ==> (bearer_token(h) matches Some(t) ==> verify_text::<AccessTokenClaims>(key, t, now) is Err),
    ensures
        caller_of(key, header, now) is None,
        principal_span(caller_of(key, header, now)).fields.len() == 0,
{
}

/// An expired access token leaves the request anonymous.
pub proof fn lemma_expired_token_anonymous(key: Seq<char>, c: AccessTokenClaims, now: i64)
    requires
        c.exp <= now,
        sig_is_b64(key, c),
    ensures
        caller_of(key, Some("Bearer "@ + token_text(key, c)), now) is None,
        principal_span(caller_of(key, Some("Bearer "@ + token_text(key, c)), now)).fields.len() == 0,
{
    lemma_bearer_of(token_text(key, c));
    lemma_expiry::<AccessTokenClaims>(key, c, now);
}

/// The bearer header of a token is read back as that token.
pub proof fn lemma_bearer_of(t: Seq<char>)
    ensures
        bearer_token("Bearer "@ + t) == Some(t),
{
    reveal_strlit("Bearer ");
    assert(("Bearer "@ + t).take(7) =~= "Bearer "@);
    assert(("Bearer "@ + t).skip(7) =~= t);
}

} // verus!
