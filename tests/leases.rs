use rhfs_core::api_error::ApiError;
use rhfs_core::logs::{FieldVisitor, LogField};
use rhfs_core::ports::{MAX_PORT_ATTEMPTS, PortStep, Ports};

#[test]
fn a_leased_port_is_not_lent_again_until_freed() {
    let mut ports = Ports::new();
    assert_eq!(ports.try_lease(Some(8080), 0), PortStep::Leased(8080));
    assert!(ports.is_leased(8080));
    assert_eq!(ports.try_lease(Some(8080), 0), PortStep::Retry);
    assert_eq!(ports.try_lease(Some(8081), 1), PortStep::Leased(8081));
    ports.free(8080);
    assert!(!ports.is_leased(8080));
    assert!(ports.is_leased(8081));
    assert!(ports.claim(8080));
    assert!(!ports.claim(8080));
}

#[test]
fn proposals_are_tried_a_bounded_number_of_times() {
    let mut ports = Ports::new();
    assert_eq!(ports.try_lease(None, 0), PortStep::Retry);
    assert_eq!(ports.try_lease(None, MAX_PORT_ATTEMPTS - 2), PortStep::Retry);
    assert_eq!(ports.try_lease(None, MAX_PORT_ATTEMPTS - 1), PortStep::GiveUp);
    ports.claim(1);
    assert_eq!(ports.try_lease(Some(1), MAX_PORT_ATTEMPTS - 1), PortStep::GiveUp);
    assert_eq!(ports.try_lease(Some(2), MAX_PORT_ATTEMPTS - 1), PortStep::Leased(2));
}

#[test]
fn errors_read_as_code_and_message() {
    assert_eq!(ApiError::bad_reques().build().to_text(), "BadRequest");
    assert_eq!(ApiError::not_found().message("no such item".to_string()).build().to_text(), "NotFound: 'no such item'");
    assert_eq!(ApiError::unexpected().build().code.name(), "UnexpectedError");
}

#[test]
fn the_message_field_is_the_message() {
    let mut v = FieldVisitor::new();
    v.record("b", "11".to_string());
    v.record("message", "hello".to_string());
    v.record("b", "123".to_string());
    assert_eq!(v.message_or_empty(), "hello");
    let span = v.into_span("s");
    assert_eq!(span.name(), "s");
    assert_eq!(
        span.fields(),
        &vec![LogField::new("b", "11"), LogField::new("b", "123"), LogField::new("message", "hello")]
    );
    let mut w = FieldVisitor::new();
    w.record("x", "1".to_string());
    assert_eq!(w.message_or_empty(), "");
    assert_eq!(w.take_fields(), vec![LogField::new("x", "1")]);
}
