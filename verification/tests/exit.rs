use astraval::error::{Error, ErrorClass};
use astraval::exit::{exit_code_for, format_diagnostic};

#[test]
fn command_failure_maps_to_one() {
    assert_eq!(exit_code_for(ErrorClass::Command), 1);
}

#[test]
fn connection_failure_maps_to_sysexits_unavailable() {
    assert_eq!(exit_code_for(ErrorClass::Connection), 69);
}

#[test]
fn authentication_failure_maps_to_sysexits_noperm() {
    assert_eq!(exit_code_for(ErrorClass::Authentication), 77);
}

#[test]
fn each_class_maps_to_a_distinct_nonzero_code() {
    let command = exit_code_for(ErrorClass::Command);
    let connection = exit_code_for(ErrorClass::Connection);
    let authentication = exit_code_for(ErrorClass::Authentication);

    for code in [command, connection, authentication] {
        assert_ne!(code, 0);
    }
    assert_ne!(command, connection);
    assert_ne!(command, authentication);
    assert_ne!(connection, authentication);
}

#[test]
fn diagnostic_uses_the_error_severity_prefix() {
    let err = Error::command("file not found in depot");
    assert_eq!(format_diagnostic(&err), "error: file not found in depot");
}

#[test]
fn diagnostic_includes_the_wrapped_cause() {
    let inner =
        std::io::Error::new(std::io::ErrorKind::ConnectionRefused, "connection refused");
    let err = Error::connection("cannot reach server").with_source(&inner.to_string());

    assert_eq!(
        format_diagnostic(&err),
        "error: cannot reach server: connection refused"
    );
}

#[test]
fn connection_and_authentication_diagnostics_render_their_classes() {
    let connection = Error::connection("no route to host");
    let authentication = Error::authentication("ticket expired");

    assert_eq!(format_diagnostic(&connection), "error: no route to host");
    assert_eq!(format_diagnostic(&authentication), "error: ticket expired");
}
