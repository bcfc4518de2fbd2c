//! Mapping client errors to process exit codes and diagnostic lines.
//!
//! | Code | Meaning                 |
//! |------|-------------------------|
//! | 1    | general command failure |
//! | 69   | connection failure (`EX_UNAVAILABLE` from BSD `sysexits.h`) |
//! | 77   | authentication failure (`EX_NOPERM` from BSD `sysexits.h`) |
use vstd::prelude::*;

use crate::error::{rendered, Error, ErrorClass};
use crate::text::push_str;

verus! {

/// Exit code for a general command failure.
pub const EXIT_COMMAND_FAILURE: u8 = 1;

/// Exit code for a connection failure: the server could not be reached.
pub const EXIT_CONNECTION_FAILURE: u8 = 69;

/// Exit code for an authentication failure: valid credentials were missing.
pub const EXIT_AUTHENTICATION_FAILURE: u8 = 77;

/// The exit code for each error class.
pub open spec fn spec_exit_code(class: ErrorClass) -> u8 {
    match class {
        ErrorClass::Command => EXIT_COMMAND_FAILURE,
        ErrorClass::Connection => EXIT_CONNECTION_FAILURE,
        ErrorClass::Authentication => EXIT_AUTHENTICATION_FAILURE,
    }
}

/// Returns the process exit code for a given error class.
pub fn exit_code_for(class: ErrorClass) -> (code: u8)
    ensures
        code == spec_exit_code(class),
{
    match class {
        ErrorClass::Command => EXIT_COMMAND_FAILURE,
        ErrorClass::Connection => EXIT_CONNECTION_FAILURE,
        ErrorClass::Authentication => EXIT_AUTHENTICATION_FAILURE,
    }
}

/// Formats an error as a single `p4`-style diagnostic line,
/// `<severity>: <message>[: <cause>]`.
pub fn format_diagnostic(error: &Error) -> (s: String)
    ensures
        s@ == "error"@ + ": "@ + rendered(error.spec_message(), error.spec_source()),
{
    let prefix = error.class().severity_prefix();
    let mut s = String::new();
    push_str(&mut s, prefix);
    push_str(&mut s, ": ");
    let body = error.to_string();
    push_str(&mut s, body.as_str());
    assert(s@ =~= "error"@ + ": "@ + rendered(error.spec_message(), error.spec_source()));
    s
}

/// Law: every failure class exits non-zero, and the classes exit with
/// pairwise distinct codes, so scripts can branch on the class.
pub proof fn law_exit_codes_distinct(a: ErrorClass, b: ErrorClass)
    ensures
        spec_exit_code(a) != 0,
        a != b ==> spec_exit_code(a) != spec_exit_code(b),
{
}

} // verus!
