use chrono::TimeZone;
use rhfs_core::auth::{Principal, authenticate, parse_bearer};
use rhfs_core::claims::AccessTokenClaims;
use rhfs_core::codec::{EncDecPair, JwtTokenDecoder, TokensEncDec};
use rhfs_core::config::TokenSecretsConfig;
use rhfs_core::ids::{Id, IdGenerator, TraceId};
use rhfs_core::logs::{Level, LogCollector, LogField, SpanStack};
use rhfs_core::trace::{begin_request, finish_request, header_name};

const LOG_MESSAGE: &str = "fsejfosdenrgviunsdouvnslrzvnsdkjnbvisfdnbds";

struct FixedIds(u128);

impl IdGenerator<TraceId> for FixedIds {
    fn next_id(&self) -> TraceId {
        TraceId::from_u128(self.0)
    }
}

fn utc(year: i32, month: u32, day: u32, h: u32, m: u32, s: u32) -> i64 {
    chrono::Utc.with_ymd_and_hms(year, month, day, h, m, s).unwrap().timestamp()
}

fn codecs() -> TokensEncDec {
    TokensEncDec::from_config(&TokenSecretsConfig::new("access-key".to_string(), "refresh-key".to_string()))
}

/// Runs one request through the trace and authentication steps and a handler
/// that logs `message`; gives the caller the handler saw and the response
/// header.
fn run_request(
    decoder: &JwtTokenDecoder<AccessTokenClaims>,
    ids: &FixedIds,
    header: Option<&str>,
    now: i64,
    logs: &mut LogCollector,
    message: &str,
) -> (Option<Principal>, String) {
    let mut stack = SpanStack::new();
    let t = begin_request(ids.next_id(), "/test", "GET", now * 1000, &mut stack, logs);
    let principal = authenticate(decoder, header, now, &mut stack, logs);
    logs.record(&stack, now * 1000, Level::Info, "handler", message, Vec::new());
    stack.exit();
    let h = finish_request(&t, 200, now * 1000 + 7, &mut stack, logs);
    assert_eq!(stack.depth(), 0);
    (principal, h)
}

#[test]
fn principal_is_set_with_good_jwt() {
    let c = codecs();
    let now = utc(2000, 1, 1, 0, 0, 0);
    let principal_id = Id::from_u128(0x999_999);
    let token = c
        .access
        .encoder
        .encode(&AccessTokenClaims { sub: principal_id, exp: utc(2100, 1, 1, 0, 0, 0), iat: utc(1900, 1, 1, 0, 0, 0) })
        .unwrap();
    let mut logs = LogCollector::new();
    let header = format!("Bearer {}", token);
    let (principal, header_trace_id) =
        run_request(&c.access.decoder, &FixedIds(0x1234), Some(&header), now, &mut logs, LOG_MESSAGE);

    let principal = principal.ok_or("Principal is None").unwrap();
    assert_eq!(principal, Principal::new(principal_id));

    let entry = logs.find_message(LOG_MESSAGE).unwrap();
    let spans = entry.spans();
    assert_eq!(spans.len(), 2);
    assert_eq!(spans[0].name(), "req");
    assert_eq!(spans[0].fields(), &vec![LogField::new("trace_id", &header_trace_id)]);
    assert_eq!(spans[1].name(), "principal");
    assert_eq!(spans[1].fields(), &vec![LogField::new("id", &principal_id.to_simple())]);
}

#[test]
fn principal_is_not_set_if_jwt_has_expired() {
    let c = codecs();
    let now = utc(2000, 1, 1, 0, 0, 0);
    let token = c
        .access
        .encoder
        .encode(&AccessTokenClaims {
            sub: Id::from_u128(1),
            exp: utc(1999, 12, 31, 23, 59, 59),
            iat: utc(1900, 1, 1, 0, 0, 0),
        })
        .unwrap();
    let mut logs = LogCollector::new();
    let header = format!("Bearer {}", token);
    let (principal, _) = run_request(&c.access.decoder, &FixedIds(1), Some(&header), now, &mut logs, "/test");
    assert!(principal.is_none(), "Principal is set, but expected none: {:?}", principal);
}

#[test]
fn principal_is_not_set_if_jwt_has_invalid_signature() {
    let c = codecs();
    let now = utc(2000, 1, 1, 0, 0, 0);
    let refresh_token_encoder = EncDecPair::<AccessTokenClaims>::from_secret("refresh-key").encoder;
    let token = refresh_token_encoder
        .encode(&AccessTokenClaims { sub: Id::from_u128(1), exp: utc(2999, 1, 1, 0, 0, 0), iat: utc(1900, 1, 1, 0, 0, 0) })
        .unwrap();
    let mut logs = LogCollector::new();
    let header = format!("Bearer {}", token);
    let (principal, _) = run_request(&c.access.decoder, &FixedIds(1), Some(&header), now, &mut logs, "/test");
    assert!(principal.is_none(), "Principal is set, but expected none: {:?}", principal);
}

#[test]
fn anonymous_requests_have_empty_principal_span() {
    let c = codecs();
    let token = c
        .access
        .encoder
        .encode(&AccessTokenClaims { sub: Id::from_u128(3), exp: 100, iat: 0 })
        .unwrap();
    let lowercase = format!("bearer {}", token);
    let cases: Vec<Option<&str>> = vec![None, Some("Basic abc"), Some(&lowercase), Some("Bearer not-a-token")];
    for header in cases {
        let mut logs = LogCollector::new();
        let (principal, _) = run_request(&c.access.decoder, &FixedIds(9), header, 50, &mut logs, "handled");
        assert!(principal.is_none());
        let entry = logs.find_message("handled").unwrap();
        assert_eq!(entry.spans()[1].name(), "principal");
        assert!(entry.spans()[1].fields().is_empty());
        assert!(entry.span_field("principal", "id").is_none());
        assert!(logs.find_message("User hasn't been authenticated").is_some());
    }
}

#[test]
fn trace_id() {
    let c = codecs();
    const MESSAGE: &str = "feaugfhsreughvserbvushrfkjhrdsg";
    let now = chrono::Utc.with_ymd_and_hms(2023, 12, 1, 2, 3, 4).unwrap().timestamp();
    let mut logs = LogCollector::new();
    let ids = FixedIds(0x0123_4567_89ab_cdef_0011_2233_4455_6677);
    let (_, header) = run_request(&c.access.decoder, &ids, None, now, &mut logs, MESSAGE);

    assert_eq!(header_name(), "x-traceid");
    assert_eq!(header, "0123456789abcdef0011223344556677");
    let header_trace_id = TraceId::parse(&header).unwrap();
    let log_value = logs.find_message(MESSAGE).unwrap().span_field("req", "trace_id").unwrap().value().to_string();
    let log_trace_id = TraceId::parse(&log_value).unwrap();
    assert_eq!(header_trace_id, ids.next_id());
    assert_eq!(header_trace_id.as_u128(), 0x0123_4567_89ab_cdef_0011_2233_4455_6677);
    assert_eq!(header_trace_id, log_trace_id);
}

#[test]
fn request_events_carry_path_method_status_and_time() {
    let c = codecs();
    let mut logs = LogCollector::new();
    run_request(&c.access.decoder, &FixedIds(5), None, 10, &mut logs, "x");
    let all = logs.get_all();
    assert_eq!(all.len(), 4);
    assert_eq!(all[0].message(), "request starting...");
    assert_eq!(all[0].field("path").unwrap().value(), "/test");
    assert_eq!(all[0].field("method").unwrap().value(), "GET");
    let last = &all[3];
    assert_eq!(last.message(), "request finished on 7 ms");
    assert_eq!(last.field("status").unwrap().value(), "200");
    assert_eq!(last.field("elapsed_ms").unwrap().value(), "7");
    assert_eq!(last.spans().len(), 1);
    assert_eq!(last.level(), Level::Info);
    assert_eq!(last.timestamp(), 10_007);
}

#[test]
fn bearer_prefix_is_exact() {
    assert_eq!(parse_bearer("Bearer abc"), Some("abc"));
    assert_eq!(parse_bearer("Bearer "), Some(""));
    assert_eq!(parse_bearer("Bearer"), None);
    assert_eq!(parse_bearer("bearer abc"), None);
    assert_eq!(parse_bearer("Token abc"), None);
    assert_eq!(parse_bearer("Bearer é"), Some("é"));
}
