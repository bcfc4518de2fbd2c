//! The Perforce protocol-negotiation handshake that opens every session.
//!
//! The client opens with a `protocol` message ([`Protocol`]) declaring its
//! capabilities and API levels; the server's reply, which arrives at the front
//! of the response to the first command, is parsed into [`Negotiated`]. The
//! negotiated server API level is `server2` when present, else `server`.
use vstd::prelude::*;

use crate::connection::{
    connection_error_text, delivered, is_read, lemma_delivered_append, lemma_receive_takes_frame,
    receive_outcome, send_trace, Connection, ConnectionError, ConnectionFailure, TransportCall,
};
use crate::frame::{encodable, names_null_free, spec_encode, spec_value, FieldView, Message};
use crate::text::{
    ascii, ascii_bytes, bytes_eq, decimal, decimal_bytes, parse_u32, push_char, push_str,
    spec_parse_u32,
};

verus! {

/// The client API level this library claims in the `protocol` opener.
pub const TARGET_CLIENT_API_LEVEL: u32 = 100;

/// The server API level the opener requests: the server's maximum.
pub const REQUEST_MAX_SERVER_API_LEVEL: u32 = 99999;

/// Default socket send-buffer hint, in bytes, advertised in `sndbuf`.
pub const DEFAULT_SEND_BUFFER: u32 = 524_288;

/// Default socket receive-buffer hint, in bytes, advertised in `rcvbuf`.
pub const DEFAULT_RECEIVE_BUFFER: u32 = 65_536;

/// The abstract value of a [`Protocol`] opener.
pub struct ProtocolView {
    pub host: Seq<u8>,
    pub port: Seq<u8>,
    pub client_api_level: u32,
    pub server_api_request: u32,
    pub send_buffer: u32,
    pub receive_buffer: u32,
}

/// The client `protocol` opener: capability flags plus client and server levels.
#[derive(Clone, Debug, PartialEq, Eq)]
pub struct Protocol {
    host: Vec<u8>,
    port: Vec<u8>,
    client_api_level: u32,
    server_api_request: u32,
    send_buffer: u32,
    receive_buffer: u32,
}

impl View for Protocol {
    type V = ProtocolView;

    closed spec fn view(&self) -> ProtocolView {
        ProtocolView {
            host: self.host@,
            port: self.port@,
            client_api_level: self.client_api_level,
            server_api_request: self.server_api_request,
            send_buffer: self.send_buffer,
            receive_buffer: self.receive_buffer,
        }
    }
}

/// The field with an empty value named by the ASCII text `name`.
pub open spec fn flag_field(name: Seq<char>) -> FieldView {
    (ascii(name), Seq::empty())
}

/// The exact fields of the `protocol` opener, in wire order: the capability
/// flags (advertised empty) and levels, then `host`, `port`, the buffer hints,
/// `autoTune`, and finally the `func = protocol` selector.
pub open spec fn opener_fields(p: ProtocolView) -> Seq<FieldView> {
    seq![
        flag_field("cmpfile"@),
        flag_field("altSync"@),
        (ascii("client"@), decimal(p.client_api_level as nat)),
        (ascii("api"@), decimal(p.server_api_request as nat)),
        flag_field("enableStreams"@),
        flag_field("enableGraph"@),
        flag_field("expandAndmaps"@),
        flag_field("chunking"@),
        (ascii("host"@), p.host),
        (ascii("port"@), p.port),
        (ascii("sndbuf"@), decimal(p.send_buffer as nat)),
        (ascii("rcvbuf"@), decimal(p.receive_buffer as nat)),
        (ascii("autoTune"@), ascii("1"@)),
        (ascii("func"@), ascii("protocol"@)),
    ]
}

/// Appends a field whose name is the ASCII text `name` and value is `value`.
fn with_named(m: Message, name: &str, value: &[u8]) -> (r: Message)
    requires
        vstd::string::is_ascii(name),
    ensures
        r@ == m@.push((ascii(name@), value@)),
{
    m.with(ascii_bytes(name), value)
}

impl Protocol {
    /// Creates an opener for the given client `host` and server `port`, with
    /// the targeted levels and the captured buffer hints.
    pub fn new(host: &[u8], port: &[u8]) -> (p: Protocol)
        ensures
            p@ == (ProtocolView {
                host: host@,
                port: port@,
                client_api_level: TARGET_CLIENT_API_LEVEL,
                server_api_request: REQUEST_MAX_SERVER_API_LEVEL,
                send_buffer: DEFAULT_SEND_BUFFER,
                receive_buffer: DEFAULT_RECEIVE_BUFFER,
            }),
    {
        Protocol {
            host: vstd::slice::slice_to_vec(host),
            port: vstd::slice::slice_to_vec(port),
            client_api_level: TARGET_CLIENT_API_LEVEL,
            server_api_request: REQUEST_MAX_SERVER_API_LEVEL,
            send_buffer: DEFAULT_SEND_BUFFER,
            receive_buffer: DEFAULT_RECEIVE_BUFFER,
        }
    }

    /// Returns the client host name sent as `host`.
    pub fn host(&self) -> (r: &[u8])
        ensures
            r@ == self@.host,
    {
        self.host.as_slice()
    }

    /// Returns the server port string sent as `port`.
    pub fn port(&self) -> (r: &[u8])
        ensures
            r@ == self@.port,
    {
        self.port.as_slice()
    }

    /// Returns the client API level sent as `client`.
    pub fn client_api_level(&self) -> (r: u32)
        ensures
            r == self@.client_api_level,
    {
        self.client_api_level
    }

    /// Renders this opener as the exact `protocol` [`Message`] sent on the wire.
    pub fn to_message(&self) -> (m: Message)
        ensures
            m@ == opener_fields(self@),
    {
        let empty: [u8; 0] = [];
        let client = decimal_bytes(self.client_api_level);
        let api = decimal_bytes(self.server_api_request);
        let sndbuf = decimal_bytes(self.send_buffer);
        let rcvbuf = decimal_bytes(self.receive_buffer);
        proof {
            reveal_strlit("cmpfile");
            reveal_strlit("altSync");
            reveal_strlit("client");
            reveal_strlit("api");
            reveal_strlit("enableStreams");
            reveal_strlit("enableGraph");
            reveal_strlit("expandAndmaps");
            reveal_strlit("chunking");
            reveal_strlit("host");
            reveal_strlit("port");
            reveal_strlit("sndbuf");
            reveal_strlit("rcvbuf");
            reveal_strlit("autoTune");
            reveal_strlit("1");
            reveal_strlit("func");
            reveal_strlit("protocol");
        }
        let m = Message::new();
        let m = with_named(m, "cmpfile", &empty);
        let m = with_named(m, "altSync", &empty);
        let m = with_named(m, "client", client.as_slice());
        let m = with_named(m, "api", api.as_slice());
        let m = with_named(m, "enableStreams", &empty);
        let m = with_named(m, "enableGraph", &empty);
        let m = with_named(m, "expandAndmaps", &empty);
        let m = with_named(m, "chunking", &empty);
        let m = with_named(m, "host", self.host.as_slice());
        let m = with_named(m, "port", self.port.as_slice());
        let m = with_named(m, "sndbuf", sndbuf.as_slice());
        let m = with_named(m, "rcvbuf", rcvbuf.as_slice());
        let m = with_named(m, "autoTune", ascii_bytes("1"));
        let m = with_named(m, "func", ascii_bytes("protocol"));
        assert(empty@ =~= Seq::<u8>::empty());
        assert(m@ =~= opener_fields(self@));
        m
    }
}

/// The abstract value of a [`Negotiated`] result.
#[derive(Clone, Copy, Debug, PartialEq, Eq)]
pub struct NegotiatedView {
    pub server_api_level: u32,
    pub base_server_level: u32,
    pub security_level: Option<u32>,
    pub max_file_type: Option<u32>,
    pub case_insensitive: bool,
}

/// The protocol levels and capabilities settled during the handshake.
#[derive(Clone, Copy, Debug, PartialEq, Eq)]
pub struct Negotiated {
    server_api_level: u32,
    base_server_level: u32,
    security_level: Option<u32>,
    max_file_type: Option<u32>,
    case_insensitive: bool,
}

impl View for Negotiated {
    type V = NegotiatedView;

    closed spec fn view(&self) -> NegotiatedView {
        NegotiatedView {
            server_api_level: self.server_api_level,
            base_server_level: self.base_server_level,
            security_level: self.security_level,
            max_file_type: self.max_file_type,
            case_insensitive: self.case_insensitive,
        }
    }
}

/// Why a handshake failed, as callers observe it.
pub enum HandshakeFailure {
    /// The reply was not a `protocol` reply (`func` missing or different).
    NotProtocol,
    /// The reply carried neither a `server` nor a `server2` level.
    MissingLevel,
    /// A level field was present but did not parse as a number.
    BadLevel { field: Seq<u8>, value: Seq<u8> },
    /// The underlying connection failed during the handshake.
    Connection(ConnectionFailure),
}

/// The reply is the server's `protocol` reply: its first `func` is `protocol`.
pub open spec fn is_protocol_spec(reply: Seq<FieldView>) -> bool {
    spec_value(reply, ascii("func"@)) == Some(ascii("protocol"@))
}

/// Reads an optional numeric level field named `name`: absent gives `None`,
/// present and numeric gives the number, anything else is a `BadLevel` error.
pub open spec fn spec_parse_level(reply: Seq<FieldView>, name: Seq<u8>) -> Result<
    Option<u32>,
    HandshakeFailure,
> {
    match spec_value(reply, name) {
        None => Ok(None),
        Some(raw) => match spec_parse_u32(raw) {
            Some(n) => Ok(Some(n)),
            None => Err(HandshakeFailure::BadLevel { field: name, value: raw }),
        },
    }
}

/// What parsing a server reply gives: checked in order, a non-`protocol`
/// reply, a bad `server` or `server2` value, no server level at all, then a
/// bad `security` or `xfiles` value; otherwise the negotiated parameters, with
/// `server2` superseding `server` and `nocase` signalled by its presence.
pub open spec fn spec_from_reply(reply: Seq<FieldView>) -> Result<NegotiatedView, HandshakeFailure> {
    if !is_protocol_spec(reply) {
        Err(HandshakeFailure::NotProtocol)
    } else {
        match spec_parse_level(reply, ascii("server"@)) {
            Err(e) => Err(e),
            Ok(base) => match spec_parse_level(reply, ascii("server2"@)) {
                Err(e) => Err(e),
                Ok(extended) => if base is None && extended is None {
                    Err(HandshakeFailure::MissingLevel)
                } else {
                    match spec_parse_level(reply, ascii("security"@)) {
                        Err(e) => Err(e),
                        Ok(security) => match spec_parse_level(reply, ascii("xfiles"@)) {
                            Err(e) => Err(e),
                            Ok(xfiles) => Ok(
                                NegotiatedView {
                                    server_api_level: match extended {
                                        Some(x) => x,
                                        None => base->0,
                                    },
                                    base_server_level: match base {
                                        Some(b) => b,
                                        None => extended->0,
                                    },
                                    security_level: security,
                                    max_file_type: xfiles,
                                    case_insensitive: spec_value(reply, ascii("nocase"@)) is Some,
                                },
                            ),
                        },
                    }
                },
            },
        }
    }
}

#[derive(Debug)]
enum HandshakeErrorKind {
    NotProtocol,
    MissingLevel,
    BadLevel { field: Vec<u8>, value: Vec<u8> },
    Connection(ConnectionError),
}

/// An error from running or parsing the protocol-negotiation handshake.
#[derive(Debug)]
pub struct HandshakeError {
    kind: HandshakeErrorKind,
}

impl View for HandshakeError {
    type V = HandshakeFailure;

    closed spec fn view(&self) -> HandshakeFailure {
        match self.kind {
            HandshakeErrorKind::NotProtocol => HandshakeFailure::NotProtocol,
            HandshakeErrorKind::MissingLevel => HandshakeFailure::MissingLevel,
            HandshakeErrorKind::BadLevel { field, value } => HandshakeFailure::BadLevel {
                field: field@,
                value: value@,
            },
            HandshakeErrorKind::Connection(e) => HandshakeFailure::Connection(e@),
        }
    }
}

/// The text `String::from_utf8_lossy` gives for `value`: the bytes decoded as
/// UTF-8, each invalid sequence replaced by U+FFFD.
pub uninterp spec fn lossy_text(value: Seq<u8>) -> Seq<char>;

/// Decodes bytes as UTF-8, replacing invalid sequences.
///
/// Trusted: calls `String::from_utf8_lossy`. Its documentation says that valid
/// UTF-8 comes back unchanged, which the contract states; otherwise the
/// contract names the text `lossy_text` of the bytes, which depends on the
/// bytes alone.
#[verifier::external_body]
fn lossy_utf8(value: &[u8]) -> (s: String)
    ensures
        s@ == lossy_text(value@),
        vstd::utf8::valid_utf8(value@) ==> s@ == vstd::utf8::decode_utf8(value@),
{
    String::from_utf8_lossy(value).into_owned()
}

/// The text `format!("{:?}", s)` gives for the string `s`: the string as a
/// quoted, escaped literal.
pub uninterp spec fn str_debug_text(s: Seq<char>) -> Seq<char>;

/// Renders a string as a quoted, escaped literal.
///
/// Trusted: formats `s` with `str`'s `Debug`; the contract names that text
/// `str_debug_text` of the string, which depends on the string alone.
#[verifier::external_body]
fn debug_string(s: &str) -> (t: String)
    ensures
        t@ == str_debug_text(s@),
{
    format!("{:?}", s)
}

/// The characters of ASCII bytes.
pub open spec fn ascii_chars(b: Seq<u8>) -> Seq<char> {
    Seq::new(b.len(), |i: int| b[i] as char)
}

/// Appends the characters of ASCII bytes.
fn push_ascii(s: &mut String, b: &[u8])
    ensures
        final(s)@ == old(s)@ + ascii_chars(b@),
{
    let mut i: usize = 0;
    while i < b.len()
        invariant
            i <= b@.len(),
            s@ == old(s)@ + ascii_chars(b@.take(i as int)),
        decreases b@.len() - i,
    {
        push_char(s, b[i] as char);
        i += 1;
        assert(s@ =~= old(s)@ + ascii_chars(b@.take(i as int)));
    }
    assert(b@.take(i as int) =~= b@);
}

/// The one-line diagnostic `text` for a handshake failure. A level field's
/// name is one of the library's ASCII field names and is shown as text.
pub open spec fn handshake_error_text(failure: HandshakeFailure, text: Seq<char>) -> bool {
    match failure {
        HandshakeFailure::NotProtocol => text == "handshake reply was not a `protocol` message"@,
        HandshakeFailure::MissingLevel => text
            == "handshake reply carried no `server` or `server2` protocol level"@,
        HandshakeFailure::BadLevel { field, value } => text == "handshake level field `"@
            + ascii_chars(field) + "` is not a number: "@ + str_debug_text(lossy_text(value)),
        HandshakeFailure::Connection(c) => exists|t: Seq<char>|
            text == "handshake transport failed: "@ + t && connection_error_text(c, t),
    }
}

/// The abstract value of what [`Negotiated::from_reply`] returns.
pub open spec fn negotiated_result_view(r: Result<Negotiated, HandshakeError>) -> Result<
    NegotiatedView,
    HandshakeFailure,
> {
    match r {
        Ok(n) => Ok(n@),
        Err(e) => Err(e@),
    }
}

/// Reads an optional numeric level field from a message.
fn parse_level(message: &Message, name: &[u8]) -> (r: Result<Option<u32>, HandshakeError>)
    ensures
        match r {
            Ok(v) => spec_parse_level(message@, name@) == Ok::<Option<u32>, HandshakeFailure>(v),
            Err(e) => spec_parse_level(message@, name@) == Err::<Option<u32>, HandshakeFailure>(
                e@,
            ),
        },
{
    match message.value(name) {
        None => Ok(None),
        Some(raw) => match parse_u32(raw) {
            Some(level) => Ok(Some(level)),
            None => Err(HandshakeError::bad_level(name, raw)),
        },
    }
}

/// Returns `true` when `reply` is the server's `protocol` reply, the frame the
/// handshake reads up to (frames ahead of it are skipped).
pub fn is_protocol_reply(reply: &Message) -> (b: bool)
    ensures
        b == is_protocol_spec(reply@),
{
    proof {
        reveal_strlit("func");
        reveal_strlit("protocol");
    }
    match reply.value(ascii_bytes("func")) {
        Some(v) => {
            let expected = ascii_bytes("protocol");
            bytes_eq(v, expected)
        },
        None => false,
    }
}

/// What one read of the handshake gives for the frame `received`: a transport
/// or framing failure ends the handshake with that failure; the server's
/// `protocol` reply ends it with what parsing the reply gives; any other frame
/// is skipped (`Ok(None)`), and the caller reads again.
pub open spec fn handshake_step(
    received: Result<Seq<FieldView>, ConnectionFailure>,
    r: Result<Option<NegotiatedView>, HandshakeFailure>,
) -> bool {
    match received {
        Err(c) => r == Err::<Option<NegotiatedView>, HandshakeFailure>(
            HandshakeFailure::Connection(c),
        ),
        Ok(reply) => if is_protocol_spec(reply) {
            match spec_from_reply(reply) {
                Ok(n) => r == Ok::<Option<NegotiatedView>, HandshakeFailure>(Some(n)),
                Err(f) => r == Err::<Option<NegotiatedView>, HandshakeFailure>(f),
            }
        } else {
            r == Ok::<Option<NegotiatedView>, HandshakeFailure>(None)
        },
    }
}

/// The abstract value of a received frame or receive failure.
pub open spec fn received_view(r: Result<Message, ConnectionError>) -> Result<
    Seq<FieldView>,
    ConnectionFailure,
> {
    match r {
        Ok(m) => Ok(m@),
        Err(e) => Err(e@),
    }
}

/// The abstract value of what [`negotiation_step`] returns.
pub open spec fn step_result_view(r: Result<Option<Negotiated>, HandshakeError>) -> Result<
    Option<NegotiatedView>,
    HandshakeFailure,
> {
    match r {
        Ok(Some(n)) => Ok(Some(n@)),
        Ok(None) => Ok(None),
        Err(e) => Err(e@),
    }
}

/// The calls the opening of a handshake makes, `ok` being whether it
/// succeeded: the send of the `opener` frame and, only when that succeeded,
/// the send of the `command` frame; the opening succeeds exactly when both do.
pub open spec fn opening_trace(
    opener: Seq<u8>,
    command: Seq<u8>,
    calls: Seq<TransportCall>,
    ok: bool,
) -> bool {
    ||| send_trace(opener, calls, false) && !ok
    ||| calls.len() >= 2 && send_trace(opener, calls.take(2), true) && send_trace(
        command,
        calls.skip(2),
        ok,
    )
}

/// Opens the handshake: sends the `opener` (the client `protocol` message),
/// then the `command` frame the server needs before it will answer.
///
/// The command is sent only when the opener's send succeeded; the receive
/// buffer is untouched.
pub fn start_negotiation<T: std::io::Read + std::io::Write>(
    conn: &mut Connection<T>,
    opener: &Protocol,
    command: &Message,
) -> (r: Result<(), HandshakeError>)
    requires
        encodable(opener_fields(opener@)),
        encodable(command@),
    ensures
        old(conn).calls().is_prefix_of(final(conn).calls()),
        opening_trace(
            spec_encode(opener_fields(opener@)),
            spec_encode(command@),
            final(conn).calls().skip(old(conn).calls().len() as int),
            r is Ok,
        ),
        final(conn).pending() == old(conn).pending(),
        r matches Err(e) ==> e@ == HandshakeFailure::Connection(ConnectionFailure::Io),
{
    let ghost start = conn.calls();
    let opening = opener.to_message();
    let first = conn.send(&opening);
    let ghost middle = conn.calls();
    let ghost c1 = middle.skip(start.len() as int);
    proof {
        assert(middle =~= start + c1);
    }
    match first {
        Ok(()) => {},
        Err(e) => {
            return Err(HandshakeError::connection(e));
        },
    }
    let second = conn.send(command);
    proof {
        let c2 = conn.calls().skip(middle.len() as int);
        assert(conn.calls() =~= middle + c2);
        let all = conn.calls().skip(start.len() as int);
        assert(all =~= c1 + c2);
        assert(all.take(2) =~= c1);
        assert(all.skip(2) =~= c2);
        assert(start.is_prefix_of(conn.calls())) by {
            assert(conn.calls().subrange(0, start.len() as int) =~= start);
        }
    }
    match second {
        Ok(()) => Ok(()),
        Err(e) => Err(HandshakeError::connection(e)),
    }
}

/// Reads one frame of the server's response and decides the handshake on it:
/// the `protocol` reply is parsed into the negotiated parameters, a frame ahead
/// of it is skipped (`Ok(None)`), and a receive failure ends the handshake.
///
/// Only the one frame is consumed; what follows it stays buffered.
pub fn negotiation_step<T: std::io::Read + std::io::Write>(conn: &mut Connection<T>) -> (r: Result<
    Option<Negotiated>,
    HandshakeError,
>)
    ensures
        old(conn).calls().is_prefix_of(final(conn).calls()),
        exists|received: Result<Message, ConnectionError>|
            receive_outcome(
                old(conn).pending(),
                final(conn).calls().skip(old(conn).calls().len() as int),
                received,
                final(conn).pending(),
            ) && handshake_step(received_view(received), step_result_view(r)),
{
    let received = conn.receive();
    let ghost received_copy = received;
    let r = match received {
        Err(e) => Err(HandshakeError::connection(e)),
        Ok(reply) => {
            if is_protocol_reply(&reply) {
                match Negotiated::from_reply(&reply) {
                    Ok(n) => Ok(Some(n)),
                    Err(e) => Err(e),
                }
            } else {
                Ok(None)
            }
        },
    };
    assert(handshake_step(received_view(received_copy), step_result_view(r)));
    r
}

impl Negotiated {
    /// Parses a server `protocol` reply into the negotiated session parameters.
    pub fn from_reply(reply: &Message) -> (r: Result<Negotiated, HandshakeError>)
        ensures
            negotiated_result_view(r) == spec_from_reply(reply@),
    {
        proof {
            reveal_strlit("server");
            reveal_strlit("server2");
            reveal_strlit("security");
            reveal_strlit("xfiles");
            reveal_strlit("nocase");
        }
        if !is_protocol_reply(reply) {
            return Err(HandshakeError::not_protocol());
        }
        let base = match parse_level(reply, ascii_bytes("server")) {
            Ok(v) => v,
            Err(e) => {
                return Err(e);
            },
        };
        let extended = match parse_level(reply, ascii_bytes("server2")) {
            Ok(v) => v,
            Err(e) => {
                return Err(e);
            },
        };
        let (base_server_level, server_api_level) = match (base, extended) {
            (Some(b), Some(x)) => (b, x),
            (Some(b), None) => (b, b),
            (None, Some(x)) => (x, x),
            (None, None) => {
                return Err(HandshakeError::missing_level());
            },
        };
        let security_level = match parse_level(reply, ascii_bytes("security")) {
            Ok(v) => v,
            Err(e) => {
                return Err(e);
            },
        };
        let max_file_type = match parse_level(reply, ascii_bytes("xfiles")) {
            Ok(v) => v,
            Err(e) => {
                return Err(e);
            },
        };
        let case_insensitive = reply.value(ascii_bytes("nocase")).is_some();
        Ok(
            Negotiated {
                server_api_level,
                base_server_level,
                security_level,
                max_file_type,
                case_insensitive,
            },
        )
    }

    /// Returns the negotiated server API level (`server2`, else `server`).
    pub fn server_api_level(&self) -> (r: u32)
        ensures
            r == self@.server_api_level,
    {
        self.server_api_level
    }

    /// Returns the base server protocol level reported in `server`.
    pub fn base_server_level(&self) -> (r: u32)
        ensures
            r == self@.base_server_level,
    {
        self.base_server_level
    }

    /// Returns the server's security level, if it reported one.
    pub fn security_level(&self) -> (r: Option<u32>)
        ensures
            r == self@.security_level,
    {
        self.security_level
    }

    /// Returns the maximum file type the server supports, if reported.
    pub fn max_file_type(&self) -> (r: Option<u32>)
        ensures
            r == self@.max_file_type,
    {
        self.max_file_type
    }

    /// Returns `true` if the server reported case-insensitive path handling.
    pub fn is_case_insensitive(&self) -> (r: bool)
        ensures
            r == self@.case_insensitive,
    {
        self.case_insensitive
    }
}

impl HandshakeError {
    /// Creates a "reply was not a protocol reply" error.
    fn not_protocol() -> (e: HandshakeError)
        ensures
            e@ == HandshakeFailure::NotProtocol,
    {
        HandshakeError { kind: HandshakeErrorKind::NotProtocol }
    }

    /// Creates a "no server level present" error.
    fn missing_level() -> (e: HandshakeError)
        ensures
            e@ == HandshakeFailure::MissingLevel,
    {
        HandshakeError { kind: HandshakeErrorKind::MissingLevel }
    }

    /// Creates a "level field did not parse" error from the field and raw value.
    fn bad_level(field: &[u8], value: &[u8]) -> (e: HandshakeError)
        ensures
            e@ == (HandshakeFailure::BadLevel { field: field@, value: value@ }),
    {
        HandshakeError {
            kind: HandshakeErrorKind::BadLevel {
                field: vstd::slice::slice_to_vec(field),
                value: vstd::slice::slice_to_vec(value),
            },
        }
    }

    /// The connection error this failure wraps, when the transport failed.
    pub closed spec fn connection_cause(&self) -> Option<ConnectionError> {
        match self.kind {
            HandshakeErrorKind::Connection(e) => Some(e),
            _ => None,
        }
    }

    /// Wraps a connection error encountered during the handshake.
    pub fn connection(error: ConnectionError) -> (e: HandshakeError)
        ensures
            e@ == HandshakeFailure::Connection(error@),
            e.connection_cause() == Some(error),
    {
        HandshakeError { kind: HandshakeErrorKind::Connection(error) }
    }

    /// Renders the handshake error as a single diagnostic line.
    pub fn to_string(&self) -> (s: String)
        ensures
            handshake_error_text(self@, s@),
    {
        let mut s = String::new();
        match &self.kind {
            HandshakeErrorKind::NotProtocol => {
                push_str(&mut s, "handshake reply was not a `protocol` message");
            },
            HandshakeErrorKind::MissingLevel => {
                push_str(&mut s, "handshake reply carried no `server` or `server2` protocol level");
            },
            HandshakeErrorKind::BadLevel { field, value } => {
                push_str(&mut s, "handshake level field `");
                push_ascii(&mut s, field.as_slice());
                push_str(&mut s, "` is not a number: ");
                let decoded = lossy_utf8(value.as_slice());
                let shown = debug_string(decoded.as_str());
                push_str(&mut s, shown.as_str());
            },
            HandshakeErrorKind::Connection(error) => {
                push_str(&mut s, "handshake transport failed: ");
                let text = error.to_string();
                push_str(&mut s, text.as_str());
                assert(s@ == "handshake transport failed: "@ + text@);
            },
        }
        s
    }

    /// Returns the connection error behind the failure, when the transport
    /// failed during the handshake.
    pub fn source(&self) -> (r: Option<&ConnectionError>)
        ensures
            match r {
                Some(c) => self@ == HandshakeFailure::Connection(c@) && self.connection_cause()
                    == Some(*c),
                None => !(self@ is Connection) && self.connection_cause() is None,
            },
    {
        match &self.kind {
            HandshakeErrorKind::Connection(error) => Some(error),
            _ => None,
        }
    }

    /// Returns `true` if the server's reply was not a `protocol` reply.
    pub fn is_not_protocol(&self) -> (b: bool)
        ensures
            b == (self@ is NotProtocol),
    {
        match self.kind {
            HandshakeErrorKind::NotProtocol => true,
            _ => false,
        }
    }

    /// Returns `true` if the reply carried no `server` or `server2` level.
    pub fn is_missing_level(&self) -> (b: bool)
        ensures
            b == (self@ is MissingLevel),
    {
        match self.kind {
            HandshakeErrorKind::MissingLevel => true,
            _ => false,
        }
    }

    /// Returns `true` if a level field was present but did not parse.
    pub fn is_bad_level(&self) -> (b: bool)
        ensures
            b == (self@ is BadLevel),
    {
        match self.kind {
            HandshakeErrorKind::BadLevel { .. } => true,
            _ => false,
        }
    }

    /// Returns `true` if the failure came from the underlying connection.
    pub fn is_connection(&self) -> (b: bool)
        ensures
            b == (self@ is Connection),
    {
        match self.kind {
            HandshakeErrorKind::Connection(_) => true,
            _ => false,
        }
    }
}

/// The bytes of a list of frames, back to back.
pub open spec fn frame_stream(frames: Seq<Seq<FieldView>>) -> Seq<u8>
    decreases frames.len(),
{
    if frames.len() == 0 {
        Seq::empty()
    } else {
        spec_encode(frames[0]) + frame_stream(frames.drop_first())
    }
}

/// The calls of several steps, one step after the other.
pub open spec fn all_calls(steps: Seq<Seq<TransportCall>>) -> Seq<TransportCall>
    decreases steps.len(),
{
    if steps.len() == 0 {
        Seq::empty()
    } else {
        steps[0] + all_calls(steps.drop_first())
    }
}

/// `steps` are the calls of a run of the handshake's read loop: step `j`
/// starts with `buffers[j]` buffered, receives `received[j]`, returns
/// `results[j]` and leaves `buffers[j + 1]`; the loop goes on to the next
/// step only after a step that skipped its frame (`Ok(None)`).
pub open spec fn read_loop(
    buffers: Seq<Seq<u8>>,
    steps: Seq<Seq<TransportCall>>,
    received: Seq<Result<Message, ConnectionError>>,
    results: Seq<Result<Option<NegotiatedView>, HandshakeFailure>>,
) -> bool {
    &&& buffers.len() == steps.len() + 1
    &&& received.len() == steps.len()
    &&& results.len() == steps.len()
    &&& forall|j: int|
        0 <= j < steps.len() ==> receive_outcome(
            buffers[j],
            #[trigger] steps[j],
            received[j],
            buffers[j + 1],
        ) && handshake_step(received_view(received[j]), results[j])
    &&& forall|j: int|
        0 <= j < steps.len() - 1 ==> #[trigger] results[j] == Ok::<
            Option<NegotiatedView>,
            HandshakeFailure,
        >(None)
}

/// The frames are well formed and only the last is the `protocol` reply.
pub open spec fn frames_up_to_reply(frames: Seq<Seq<FieldView>>) -> bool {
    &&& frames.len() >= 1
    &&& forall|j: int|
        0 <= j < frames.len() ==> names_null_free(#[trigger] frames[j]) && encodable(frames[j])
    &&& forall|j: int| 0 <= j < frames.len() - 1 ==> !is_protocol_spec(#[trigger] frames[j])
    &&& is_protocol_spec(frames.last())
}

/// What the handshake ends with on the server's `protocol` reply `reply`.
pub open spec fn reply_result(reply: Seq<FieldView>) -> Result<
    Option<NegotiatedView>,
    HandshakeFailure,
> {
    match spec_from_reply(reply) {
        Ok(n) => Ok(Some(n)),
        Err(f) => Err(f),
    }
}

/// The read loop, step by step over a stream of frames: each step receives
/// the next frame, and after the last one the rest of the stream is buffered.
proof fn lemma_read_loop(
    frames: Seq<Seq<FieldView>>,
    rest: Seq<u8>,
    buffers: Seq<Seq<u8>>,
    steps: Seq<Seq<TransportCall>>,
    received: Seq<Result<Message, ConnectionError>>,
    results: Seq<Result<Option<NegotiatedView>, HandshakeFailure>>,
)
    requires
        frames_up_to_reply(frames),
        steps.len() == frames.len(),
        read_loop(buffers, steps, received, results),
        buffers[0] + delivered(all_calls(steps)) == frame_stream(frames) + rest,
    ensures
        forall|j: int|
            0 <= j < steps.len() ==> #[trigger] received_view(received[j]) == Ok::<
                Seq<FieldView>,
                ConnectionFailure,
            >(frames[j]),
        buffers[steps.len() as int] == rest,
        results[steps.len() - 1] == reply_result(frames.last()),
    decreases steps.len(),
{
    let later = delivered(all_calls(steps.drop_first()));
    let tail = frame_stream(frames.drop_first()) + rest;
    assert(all_calls(steps) == steps[0] + all_calls(steps.drop_first()));
    lemma_delivered_append(steps[0], all_calls(steps.drop_first()));
    assert(frame_stream(frames) == spec_encode(frames[0]) + frame_stream(frames.drop_first()));
    assert(delivered(all_calls(steps)) == delivered(steps[0]) + later);
    assert(buffers[0] + delivered(steps[0]) + later =~= buffers[0] + delivered(all_calls(steps)));
    assert(frame_stream(frames) + rest =~= spec_encode(frames[0]) + tail);
    assert(buffers[0] + delivered(steps[0]) + later == spec_encode(frames[0]) + tail);
    assert(receive_outcome(buffers[0], steps[0], received[0], buffers[1]));
    assert(handshake_step(received_view(received[0]), results[0]));
    if steps.len() == 1 {
        assert(steps.drop_first() =~= Seq::<Seq<TransportCall>>::empty());
        assert(later =~= Seq::<u8>::empty());
        assert(frames.drop_first() =~= Seq::<Seq<FieldView>>::empty());
    } else {
        assert(results[0] == Ok::<Option<NegotiatedView>, HandshakeFailure>(None));
    }
    lemma_receive_takes_frame(
        buffers[0],
        steps[0],
        received[0],
        buffers[1],
        frames[0],
        later,
        tail,
    );
    if steps.len() == 1 {
        assert(buffers[1] + later =~= buffers[1]);
        assert(tail =~= rest);
    } else {
        let f2 = frames.drop_first();
        let b2 = buffers.drop_first();
        let s2 = steps.drop_first();
        let r2 = received.drop_first();
        let o2 = results.drop_first();
        assert(frames_up_to_reply(f2)) by {
            assert forall|j: int| 0 <= j < f2.len() implies names_null_free(#[trigger] f2[j])
                && encodable(f2[j]) by {
                assert(f2[j] == frames[j + 1]);
            }
            assert forall|j: int| 0 <= j < f2.len() - 1 implies !is_protocol_spec(
                #[trigger] f2[j],
            ) by {
                assert(f2[j] == frames[j + 1]);
            }
            assert(f2.last() == frames.last());
        }
        assert(read_loop(b2, s2, r2, o2)) by {
            assert forall|j: int| 0 <= j < s2.len() implies receive_outcome(
                b2[j],
                #[trigger] s2[j],
                r2[j],
                b2[j + 1],
            ) && handshake_step(received_view(r2[j]), o2[j]) by {
                assert(s2[j] == steps[j + 1]);
                assert(receive_outcome(buffers[j + 1], steps[j + 1], received[j + 1], buffers[j + 2]));
            }
            assert forall|j: int| 0 <= j < s2.len() - 1 implies #[trigger] o2[j] == Ok::<
                Option<NegotiatedView>,
                HandshakeFailure,
            >(None) by {
                assert(o2[j] == results[j + 1]);
            }
        }
        lemma_read_loop(f2, rest, b2, s2, r2, o2);
        assert forall|j: int| 0 <= j < steps.len() implies #[trigger] received_view(received[j])
            == Ok::<Seq<FieldView>, ConnectionFailure>(frames[j]) by {
            if j > 0 {
                assert(received[j] == r2[j - 1]);
                assert(received_view(r2[j - 1]) == Ok::<Seq<FieldView>, ConnectionFailure>(
                    f2[j - 1],
                ));
            }
        }
        assert(results[steps.len() - 1] == o2[s2.len() - 1]);
    }
}

/// Law: the whole handshake over a stream of frames. The opener's frame and
/// then the command's frame are written (each followed by a flush) before
/// anything is read; the read loop then receives the frames in order,
/// skipping each one that is not the `protocol` reply, and ends with what
/// parsing the first `protocol` reply gives; every call of the loop is a read,
/// and whatever the transport delivered beyond that reply stays buffered.
///
/// Here `buffers[0]` is what was buffered when the loop began, and everything
/// it and the loop's reads hold is the frames up to the reply, then `rest`.
pub proof fn law_negotiation(
    opener: Seq<u8>,
    command: Seq<u8>,
    opening: Seq<TransportCall>,
    frames: Seq<Seq<FieldView>>,
    rest: Seq<u8>,
    buffers: Seq<Seq<u8>>,
    steps: Seq<Seq<TransportCall>>,
    received: Seq<Result<Message, ConnectionError>>,
    results: Seq<Result<Option<NegotiatedView>, HandshakeFailure>>,
)
    requires
        opening_trace(opener, command, opening, true),
        frames_up_to_reply(frames),
        steps.len() == frames.len(),
        read_loop(buffers, steps, received, results),
        buffers[0] + delivered(all_calls(steps)) == frame_stream(frames) + rest,
    ensures
        opening == seq![
            TransportCall::WriteAll { bytes: opener, ok: true },
            TransportCall::Flush { ok: true },
            TransportCall::WriteAll { bytes: command, ok: true },
            TransportCall::Flush { ok: true },
        ],
        forall|j: int|
            0 <= j < steps.len() ==> #[trigger] received_view(received[j]) == Ok::<
                Seq<FieldView>,
                ConnectionFailure,
            >(frames[j]),
        forall|j: int|
            0 <= j < steps.len() - 1 ==> #[trigger] results[j] == Ok::<
                Option<NegotiatedView>,
                HandshakeFailure,
            >(None),
        results[steps.len() - 1] == reply_result(frames.last()),
        forall|j: int, x: int|
            0 <= j < steps.len() && 0 <= x < steps[j].len() ==> is_read(#[trigger] steps[j][x]),
        buffers[steps.len() as int] == rest,
{
    assert(opening =~= opening.take(2) + opening.skip(2));
    lemma_read_loop(frames, rest, buffers, steps, received, results);
    assert forall|j: int, x: int|
        0 <= j < steps.len() && 0 <= x < steps[j].len() implies is_read(#[trigger] steps[j][x]) by {
        assert(receive_outcome(buffers[j], steps[j], received[j], buffers[j + 1]));
    }
}

/// Field `i` is the first field of `fields` named `name`.
pub open spec fn first_named(fields: Seq<FieldView>, name: Seq<u8>, i: int) -> bool {
    &&& 0 <= i < fields.len()
    &&& fields[i].0 == name
    &&& forall|j: int| 0 <= j < i ==> fields[j].0 != name
}

/// Some field of `fields` is named `name`.
pub open spec fn has_field(fields: Seq<FieldView>, name: Seq<u8>) -> bool {
    exists|i: int| 0 <= i < fields.len() && #[trigger] fields[i].0 == name
}

/// The value looked up by name is that of the first field of that name, and
/// there is none exactly when no field has that name.
proof fn lemma_lookup(fields: Seq<FieldView>, name: Seq<u8>)
    ensures
        spec_value(fields, name) is None <==> !has_field(fields, name),
        forall|i: int| first_named(fields, name, i) ==> spec_value(fields, name) == Some(
            #[trigger] fields[i].1,
        ),
    decreases fields.len(),
{
    if fields.len() > 0 {
        let rest = fields.drop_first();
        lemma_lookup(rest, name);
        if fields[0].0 != name {
            if has_field(fields, name) {
                let i = choose|i: int| 0 <= i < fields.len() && #[trigger] fields[i].0 == name;
                assert(rest[i - 1].0 == name);
            }
            if has_field(rest, name) {
                let i = choose|i: int| 0 <= i < rest.len() && #[trigger] rest[i].0 == name;
                assert(fields[i + 1].0 == name);
            }
            assert forall|i: int| first_named(fields, name, i) implies spec_value(fields, name)
                == Some(#[trigger] fields[i].1) by {
                assert(first_named(rest, name, i - 1)) by {
                    assert forall|j: int| 0 <= j < i - 1 implies rest[j].0 != name by {
                        assert(rest[j] == fields[j + 1]);
                    }
                }
                assert(rest[i - 1] == fields[i]);
            }
        } else {
            assert(fields[0].0 == name);
            assert forall|i: int| first_named(fields, name, i) implies spec_value(fields, name)
                == Some(#[trigger] fields[i].1) by {
                if i > 0 {
                    assert(fields[0].0 != name);
                }
            }
        }
    }
}

/// Law: what a parsed `protocol` reply negotiates comes from the reply's own
/// fields. The server is case-insensitive exactly when some field is named
/// `nocase`, whatever else the reply holds. The negotiated server API level
/// is the number in the first `server2` field, or in the first `server`
/// field when there is no `server2`; the base level is the first `server`
/// number, or the `server2` one when there is no `server`; the security level
/// and the maximum file type are the numbers of the first `security` and
/// `xfiles` fields, and absent exactly when those fields are.
pub proof fn law_negotiated_from_fields(reply: Seq<FieldView>)
    ensures
        spec_from_reply(reply) matches Ok(n) ==> {
            &&& n.case_insensitive <==> has_field(reply, ascii("nocase"@))
            &&& forall|i: int|
                #[trigger] first_named(reply, ascii("server2"@), i) ==> spec_parse_u32(reply[i].1)
                    == Some(n.server_api_level)
            &&& !has_field(reply, ascii("server2"@)) ==> forall|i: int|
                #[trigger] first_named(reply, ascii("server"@), i) ==> spec_parse_u32(reply[i].1)
                    == Some(n.server_api_level)
            &&& forall|i: int|
                #[trigger] first_named(reply, ascii("server"@), i) ==> spec_parse_u32(reply[i].1)
                    == Some(n.base_server_level)
            &&& !has_field(reply, ascii("server"@)) ==> forall|i: int|
                #[trigger] first_named(reply, ascii("server2"@), i) ==> spec_parse_u32(reply[i].1)
                    == Some(n.base_server_level)
            &&& (n.security_level is None <==> !has_field(reply, ascii("security"@)))
            &&& forall|i: int|
                #[trigger] first_named(reply, ascii("security"@), i) ==> spec_parse_u32(reply[i].1)
                    == n.security_level
            &&& (n.max_file_type is None <==> !has_field(reply, ascii("xfiles"@)))
            &&& forall|i: int|
                #[trigger] first_named(reply, ascii("xfiles"@), i) ==> spec_parse_u32(reply[i].1)
                    == n.max_file_type
        },
{
    lemma_lookup(reply, ascii("nocase"@));
    lemma_lookup(reply, ascii("server2"@));
    lemma_lookup(reply, ascii("server"@));
    lemma_lookup(reply, ascii("security"@));
    lemma_lookup(reply, ascii("xfiles"@));
}

} // verus!
