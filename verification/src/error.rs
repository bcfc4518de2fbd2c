//! The error spine shared by every client operation.
//!
//! [`Error`] pairs a human-readable message with an [`ErrorClass`] that
//! drives behavior (the CLI maps each class to a process exit code), and an
//! optional rendered upstream cause that is appended when the error is shown.
use vstd::prelude::*;

use crate::text::push_str;

verus! {

/// The broad failure classes callers and exit codes distinguish.
#[derive(Debug, Clone, Copy, PartialEq, Eq, Hash, Structural)]
#[non_exhaustive]
pub enum ErrorClass {
    /// A general command failure: the request reached the server but could
    /// not be completed.
    Command,
    /// The client could not establish or maintain a connection to the server.
    Connection,
    /// The server was reached but rejected the request for lack of valid
    /// credentials.
    Authentication,
}

impl ErrorClass {
    /// Returns the `p4`-style severity prefix used when rendering this class:
    /// every class is a hard failure and renders as `"error"`.
    pub fn severity_prefix(self) -> (s: &'static str)
        ensures
            s@ == "error"@,
    {
        match self {
            ErrorClass::Command | ErrorClass::Connection | ErrorClass::Authentication => "error",
        }
    }
}

/// The single error type returned by client operations.
#[derive(Debug)]
pub struct Error {
    class: ErrorClass,
    message: String,
    source: Option<String>,
}

impl Error {
    /// The failure class.
    pub closed spec fn spec_class(&self) -> ErrorClass {
        self.class
    }

    /// The human-facing summary message.
    pub closed spec fn spec_message(&self) -> Seq<char> {
        self.message@
    }

    /// The rendered upstream cause, if one was attached.
    pub closed spec fn spec_source(&self) -> Option<Seq<char>> {
        match self.source {
            Some(s) => Some(s@),
            None => None,
        }
    }

    /// Creates an error of the given `class` with a human-readable `message`
    /// and no cause.
    fn new(class: ErrorClass, message: &str) -> (e: Error)
        ensures
            e.spec_class() == class,
            e.spec_message() == message@,
            e.spec_source() is None,
    {
        Error { class, message: message.to_owned(), source: None }
    }

    /// Creates a general command failure ([`ErrorClass::Command`]).
    pub fn command(message: &str) -> (e: Error)
        ensures
            e.spec_class() == ErrorClass::Command,
            e.spec_message() == message@,
            e.spec_source() is None,
    {
        Self::new(ErrorClass::Command, message)
    }

    /// Creates a connection failure ([`ErrorClass::Connection`]).
    pub fn connection(message: &str) -> (e: Error)
        ensures
            e.spec_class() == ErrorClass::Connection,
            e.spec_message() == message@,
            e.spec_source() is None,
    {
        Self::new(ErrorClass::Connection, message)
    }

    /// Creates an authentication failure ([`ErrorClass::Authentication`]).
    pub fn authentication(message: &str) -> (e: Error)
        ensures
            e.spec_class() == ErrorClass::Authentication,
            e.spec_message() == message@,
            e.spec_source() is None,
    {
        Self::new(ErrorClass::Authentication, message)
    }

    /// Attaches an upstream cause, given as its rendered text (the cause's own
    /// message, followed by `": "` and each of its own causes in turn).
    pub fn with_source(self, source: &str) -> (e: Error)
        ensures
            e.spec_class() == self.spec_class(),
            e.spec_message() == self.spec_message(),
            e.spec_source() == Some(source@),
    {
        Error { class: self.class, message: self.message, source: Some(source.to_owned()) }
    }

    /// Returns the [`ErrorClass`] of this error.
    pub fn class(&self) -> (c: ErrorClass)
        ensures
            c == self.spec_class(),
    {
        self.class
    }

    /// Returns the human-readable message describing what went wrong.
    pub fn message(&self) -> (m: &str)
        ensures
            m@ == self.spec_message(),
    {
        self.message.as_str()
    }

    /// Returns the rendered upstream cause, if any.
    pub fn source(&self) -> (s: Option<&str>)
        ensures
            match s {
                Some(t) => self.spec_source() == Some(t@),
                None => self.spec_source() is None,
            },
    {
        match &self.source {
            Some(s) => Some(s.as_str()),
            None => None,
        }
    }

    /// Returns `true` if this is a general command failure.
    pub fn is_command(&self) -> (b: bool)
        ensures
            b == (self.spec_class() == ErrorClass::Command),
    {
        self.class == ErrorClass::Command
    }

    /// Returns `true` if this is a connection failure.
    pub fn is_connection(&self) -> (b: bool)
        ensures
            b == (self.spec_class() == ErrorClass::Connection),
    {
        self.class == ErrorClass::Connection
    }

    /// Returns `true` if this is an authentication failure.
    pub fn is_authentication(&self) -> (b: bool)
        ensures
            b == (self.spec_class() == ErrorClass::Authentication),
    {
        self.class == ErrorClass::Authentication
    }

    /// Renders the error as one line: the message, then `": "` and the cause
    /// when one is attached.
    pub fn to_string(&self) -> (s: String)
        ensures
            s@ == rendered(self.spec_message(), self.spec_source()),
    {
        let mut s = self.message.clone();
        match &self.source {
            Some(cause) => {
                proof {
                    reveal_strlit(": ");
                }
                push_str(&mut s, ": ");
                push_str(&mut s, cause.as_str());
            },
            None => {},
        }
        s
    }
}

/// An error's one-line rendering: the message, then `": "` and the cause.
pub open spec fn rendered(message: Seq<char>, source: Option<Seq<char>>) -> Seq<char> {
    match source {
        Some(cause) => message + ": "@ + cause,
        None => message,
    }
}

} // verus!
