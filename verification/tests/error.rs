use astraval::error::{Error, ErrorClass};

#[test]
fn class_round_trips_through_constructors() {
    assert_eq!(Error::command("x").class(), ErrorClass::Command);
    assert_eq!(Error::connection("x").class(), ErrorClass::Connection);
    assert_eq!(
        Error::authentication("x").class(),
        ErrorClass::Authentication
    );
}

#[test]
fn is_helpers_match_their_class() {
    assert!(Error::command("x").is_command());
    assert!(Error::connection("x").is_connection());
    assert!(Error::authentication("x").is_authentication());

    assert!(!Error::command("x").is_connection());
}

#[test]
fn display_renders_message_alone_without_a_cause() {
    let err = Error::command("file not found");
    assert_eq!(err.to_string(), "file not found");
}

#[test]
fn display_appends_the_cause_chain() {
    let inner =
        std::io::Error::new(std::io::ErrorKind::ConnectionRefused, "connection refused");
    let err = Error::connection("cannot reach server").with_source(&inner.to_string());

    assert_eq!(err.to_string(), "cannot reach server: connection refused");
    assert!(err.source().is_some());
}

#[test]
fn every_class_renders_the_error_severity_prefix() {
    for class in [
        ErrorClass::Command,
        ErrorClass::Connection,
        ErrorClass::Authentication,
    ] {
        assert_eq!(class.severity_prefix(), "error");
    }
}

#[test]
fn message_and_source_are_kept_apart() {
    let err = Error::authentication("ticket expired").with_source("login required");
    assert_eq!(err.message(), "ticket expired");
    assert_eq!(err.source(), Some("login required"));
    assert!(err.is_authentication());
    assert_eq!(Error::command("x").source(), None);
}
