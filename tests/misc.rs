use rhfs_core::api_error::{ApiError, ErrorCode};
use rhfs_core::config::{AppConfig, SecretsConfig, TokenSecretsConfig, env_source};
use rhfs_core::ids::{DefaultIdGenerator, Id, IdGenerator, TraceId};
use rhfs_core::rights::ContentRight;
use rhfs_core::secret::Secret;
use rhfs_core::timestamps::{MillisecondsTimestampVisitor, SecondsTimestampVisitor};
use rhfs_core::trace::{Time, TimeNow};

#[test]
fn ids_are_written_as_32_lowercase_hex_digits() {
    assert_eq!(Id::from_u128(0x999_999).to_simple(), "00000000000000000000000000999999");
    assert_eq!(Id::from_u128(u128::MAX).to_simple(), "ffffffffffffffffffffffffffffffff");
    assert_eq!(TraceId::from_u128(0xABCDEF).to_simple(), "00000000000000000000000000abcdef");
}

#[test]
fn ids_parse_every_uuid_form() {
    let id = Id::parse("67e55044-10b1-426f-9247-bb680e5fe0c8").unwrap();
    assert_eq!(id.as_u128(), 0x67e5504410b1426f9247bb680e5fe0c8);
    assert_eq!(Id::parse("67e5504410b1426f9247bb680e5fe0c8"), Some(id));
    assert_eq!(TraceId::parse(&TraceId::from_u128(77).to_simple()).unwrap().as_u128(), 77);
    assert!(Id::parse("not an id").is_none());
}

#[test]
fn generated_ids_differ() {
    let g = DefaultIdGenerator;
    let a: Id = g.next_id();
    let b: Id = g.next_id();
    assert_ne!(a, b);
    let t: TraceId = g.next_id();
    assert_eq!(t.to_simple().len(), 32);
}

#[test]
fn error_codes_have_their_statuses() {
    let cases = [
        (ErrorCode::BadRequest, 400),
        (ErrorCode::Unauthorized, 401),
        (ErrorCode::PaymentRequired, 402),
        (ErrorCode::Forbidden, 403),
        (ErrorCode::NotFound, 404),
        (ErrorCode::Conflict, 409),
        (ErrorCode::TooManyRequests, 429),
        (ErrorCode::UnexpectedError, 500),
    ];
    for (code, status) in cases {
        assert_eq!(code.http_status(), status);
        assert_eq!(ApiError::builder(code).build().status_code(), status);
    }
}

#[test]
fn error_builder_keeps_what_it_is_given() {
    let e = ApiError::bad_reques().message("bad".to_string()).details("why".to_string()).build();
    assert_eq!(e.code, ErrorCode::BadRequest);
    assert_eq!(e.message.as_deref(), Some("bad"));
    assert_eq!(e.details.as_deref(), Some("why"));
    let e: ApiError = ApiError::not_found().into();
    assert_eq!(e.code, ErrorCode::NotFound);
    assert!(e.message.is_none() && e.details.is_none());
    assert_eq!(ApiError::unauthorized().build().code, ErrorCode::Unauthorized);
    assert_eq!(ApiError::payment_required().build().code, ErrorCode::PaymentRequired);
    assert_eq!(ApiError::forbidden().build().code, ErrorCode::Forbidden);
    assert_eq!(ApiError::conflict().build().code, ErrorCode::Conflict);
    assert_eq!(ApiError::too_many_requests().build().code, ErrorCode::TooManyRequests);
    assert_eq!(ApiError::unexpected().build().code, ErrorCode::UnexpectedError);
    assert!(ApiError::make_details(Some("x".to_string())).is_none());
    assert_eq!(ApiError::from_details("io failure").code, ErrorCode::UnexpectedError);
    assert!(ApiError::to_details(42).is_none());
}

#[test]
fn config_exposes_the_secrets() {
    let cfg = AppConfig::new(SecretsConfig::new(TokenSecretsConfig::new("a".to_string(), "r".to_string())));
    assert_eq!(cfg.secrets().tokens().access_secret(), "a");
    assert_eq!(cfg.secrets().tokens().refresh_secret(), "r");
    let env = env_source();
    assert_eq!(env.prefix, "RHFS");
    assert_eq!(env.separator, "__");
    assert!(env.try_parsing);
    assert_eq!(Secret::new(5).expose(), &5);
}

#[test]
fn content_rights_combine_as_bits() {
    let rw = ContentRight::read().union(&ContentRight::write());
    assert_eq!(rw.bits(), 3);
    assert!(rw.contains(&ContentRight::read()));
    assert!(!ContentRight::read().contains(&ContentRight::write()));
    assert!(ContentRight::all().contains(&rw));
    assert!(rw.contains(&ContentRight::empty()));
    assert_eq!(ContentRight::from_bits(2), ContentRight::write());
}

#[test]
fn visitors_read_counts() {
    assert_eq!(MillisecondsTimestampVisitor.visit_i64(-5), -5);
    assert_eq!(MillisecondsTimestampVisitor.visit_u64(12), Ok(12));
    assert_eq!(MillisecondsTimestampVisitor.visit_u64(u64::MAX), Err(u64::MAX));
    assert_eq!(SecondsTimestampVisitor.visit_i64(7), 7);
    assert_eq!(SecondsTimestampVisitor.visit_u64(i64::MAX as u64), Ok(i64::MAX));
    assert_eq!(SecondsTimestampVisitor.visit_u64(i64::MAX as u64 + 1), Err(i64::MAX as u64 + 1));
}

#[test]
fn the_system_clock_is_after_the_epoch() {
    let now = TimeNow {}.now();
    assert!(now > chrono::TimeZone::with_ymd_and_hms(&chrono::Utc, 2020, 1, 1, 0, 0, 0).unwrap().timestamp_millis());
}

#[test]
fn a_source_keeps_its_id_and_path() {
    let s = rhfs_core::source::Source::new(Id::from_u128(4), "/data/a".to_string());
    assert_eq!(s.id.as_u128(), 4);
    assert_eq!(s.path, "/data/a");
}
