//! Astraval: a Perforce-compatible client library.
//!
//! The library holds the wire codec (`frame`), the protocol handshake
//! (`handshake`), a framed connection over any byte transport (`connection`),
//! configuration resolution (`config`), output rendering (`output`), the error
//! spine (`error`), and the CLI's pure helpers (`cli`, `exit`, `info`,
//! `telemetry`).
use vstd::prelude::*;

pub mod cli;
pub mod config;
pub mod connection;
pub mod directive;
pub mod error;
pub mod exit;
pub mod frame;
pub mod handshake;
pub mod info;
pub mod output;
pub mod telemetry;
pub mod text;

pub use error::{Error, ErrorClass};
pub use frame::{decode, encode, Decoded, Field, FrameError, Message, PREAMBLE_LEN};
pub use connection::{Connection, ConnectionError};
pub use handshake::{
    HandshakeError, Negotiated, Protocol, REQUEST_MAX_SERVER_API_LEVEL, TARGET_CLIENT_API_LEVEL,
};

verus! {

/// The client protocol level this library negotiates first: the client API
/// level advertised in the `protocol` opener.
pub const TARGET_PROTOCOL_LEVEL: u32 = TARGET_CLIENT_API_LEVEL;

/// Returns the Perforce protocol level the client currently targets.
pub fn target_protocol_level() -> (level: u32)
    ensures
        level == TARGET_PROTOCOL_LEVEL,
{
    TARGET_PROTOCOL_LEVEL
}

} // verus!
