use std::io::{Cursor, Read, Write};

use astraval::connection::Connection;
use astraval::frame::{decode, encode, Field, Message};
use astraval::handshake::{
    is_protocol_reply, negotiation_step, start_negotiation, Negotiated, Protocol,
};

/// An in-memory server: reads drain `inbound`, writes collect into `outbound`.
struct ScriptedServer {
    inbound: Cursor<Vec<u8>>,
    outbound: Vec<u8>,
}

impl Read for ScriptedServer {
    fn read(&mut self, buf: &mut [u8]) -> std::io::Result<usize> {
        self.inbound.read(buf)
    }
}

impl Write for ScriptedServer {
    fn write(&mut self, buf: &[u8]) -> std::io::Result<usize> {
        self.outbound.extend_from_slice(buf);
        Ok(buf.len())
    }

    fn flush(&mut self) -> std::io::Result<()> {
        Ok(())
    }
}

fn scripted(inbound: Vec<u8>) -> Connection<ScriptedServer> {
    Connection::new(ScriptedServer {
        inbound: Cursor::new(inbound),
        outbound: Vec::new(),
    })
}

/// Assembles a frame by hand from the documented byte layout: a preamble
/// whose check byte is the XOR of the little-endian payload length, then each
/// field as `name\0`, a little-endian u32 value length, `value\0`.
fn hand_frame(fields: &[(&str, &str)]) -> Vec<u8> {
    let mut payload = Vec::new();
    for (name, value) in fields {
        payload.extend_from_slice(name.as_bytes());
        payload.push(0);
        payload.extend_from_slice(&(value.len() as u32).to_le_bytes());
        payload.extend_from_slice(value.as_bytes());
        payload.push(0);
    }
    let len = (payload.len() as u32).to_le_bytes();
    let mut frame = vec![len[0] ^ len[1] ^ len[2] ^ len[3]];
    frame.extend_from_slice(&len);
    frame.extend_from_slice(&payload);
    frame
}

/// The real client `protocol` opener for host `Titan`, port
/// `tcp:localhost:1670`, field by field in wire order.
fn golden_client_protocol() -> Vec<u8> {
    hand_frame(&[
        ("cmpfile", ""),
        ("altSync", ""),
        ("client", "100"),
        ("api", "99999"),
        ("enableStreams", ""),
        ("enableGraph", ""),
        ("expandAndmaps", ""),
        ("chunking", ""),
        ("host", "Titan"),
        ("port", "tcp:localhost:1670"),
        ("sndbuf", "524288"),
        ("rcvbuf", "65536"),
        ("autoTune", "1"),
        ("func", "protocol"),
    ])
}

/// A server `protocol` reply with the levels of the captured exchange:
/// server=3, server2=62, security=4, xfiles=7, nocase set.
fn golden_server_protocol() -> Vec<u8> {
    hand_frame(&[
        ("xfiles", "7"),
        ("server", "3"),
        ("server2", "62"),
        ("serverID", ""),
        ("revver", "1"),
        ("nocase", ""),
        ("security", "4"),
        ("func", "protocol"),
    ])
}

#[test]
fn opener_matches_the_real_wire_bytes() {
    let opener = Protocol::new(b"Titan", b"tcp:localhost:1670");
    let golden = golden_client_protocol();
    assert_eq!(golden.len(), 240);
    assert_eq!(encode(&opener.to_message()), golden);
}

#[test]
fn opener_carries_the_targeted_levels() {
    let opener = Protocol::new(b"host", b"tcp:localhost:1666");
    let msg = opener.to_message();
    assert_eq!(msg.value(b"client"), Some(b"100".as_slice()));
    assert_eq!(msg.value(b"api"), Some(b"99999".as_slice()));
    assert_eq!(
        msg.fields().last().map(Field::name),
        Some(b"func".as_slice())
    );
    assert_eq!(msg.value(b"func"), Some(b"protocol".as_slice()));
}

#[test]
fn parses_the_real_server_reply() {
    let bytes = golden_server_protocol();
    let decoded = decode(&bytes).unwrap().expect("a complete frame");
    let negotiated = Negotiated::from_reply(&decoded.message).unwrap();

    assert_eq!(negotiated.server_api_level(), 62);
    assert_eq!(negotiated.base_server_level(), 3);
    assert_eq!(negotiated.security_level(), Some(4));
    assert_eq!(negotiated.max_file_type(), Some(7));
    assert!(negotiated.is_case_insensitive());
}

#[test]
fn server2_supersedes_server_when_both_present() {
    let reply = Message::new()
        .with(b"server", b"3")
        .with(b"server2", b"62")
        .with(b"func", b"protocol");
    let negotiated = Negotiated::from_reply(&reply).unwrap();
    assert_eq!(negotiated.server_api_level(), 62);
    assert_eq!(negotiated.base_server_level(), 3);
}

#[test]
fn falls_back_to_server_without_server2() {
    let reply = Message::new().with(b"server", b"41").with(b"func", b"protocol");
    let negotiated = Negotiated::from_reply(&reply).unwrap();
    assert_eq!(negotiated.server_api_level(), 41);
    assert_eq!(negotiated.base_server_level(), 41);
}

#[test]
fn case_sensitive_when_nocase_absent() {
    let reply = Message::new()
        .with(b"server2", b"62")
        .with(b"func", b"protocol");
    let negotiated = Negotiated::from_reply(&reply).unwrap();
    assert!(!negotiated.is_case_insensitive());
    assert_eq!(negotiated.security_level(), None);
    assert_eq!(negotiated.max_file_type(), None);
}

#[test]
fn rejects_a_non_protocol_reply() {
    let reply = Message::new().with(b"server2", b"62").with(b"func", b"release");
    let err = Negotiated::from_reply(&reply).unwrap_err();
    assert!(err.is_not_protocol());
}

#[test]
fn rejects_a_reply_without_any_server_level() {
    let reply = Message::new()
        .with(b"security", b"4")
        .with(b"func", b"protocol");
    let err = Negotiated::from_reply(&reply).unwrap_err();
    assert!(err.is_missing_level());
}

#[test]
fn rejects_a_non_numeric_level() {
    let reply = Message::new()
        .with(b"server2", b"not-a-number")
        .with(b"func", b"protocol");
    let err = Negotiated::from_reply(&reply).unwrap_err();
    assert!(err.is_bad_level());
}

#[test]
fn only_server2_sets_both_levels() {
    let reply = Message::new().with(b"server2", b"62").with(b"func", b"protocol");
    let negotiated = Negotiated::from_reply(&reply).unwrap();
    assert_eq!(negotiated.server_api_level(), 62);
    assert_eq!(negotiated.base_server_level(), 62);
}

#[test]
fn level_parsing_follows_u32_parse() {
    // An optional `+` sign is accepted; overflow, signs alone, and spaces are not.
    let ok = Message::new().with(b"server", b"+007").with(b"func", b"protocol");
    assert_eq!(Negotiated::from_reply(&ok).unwrap().server_api_level(), 7);

    for bad in [&b"4294967296"[..], b"+", b"", b"-1", b" 1", b"1 "] {
        let reply = Message::new().with(b"server", bad).with(b"func", b"protocol");
        assert!(Negotiated::from_reply(&reply).unwrap_err().is_bad_level());
    }

    let max = Message::new().with(b"server", b"4294967295").with(b"func", b"protocol");
    assert_eq!(Negotiated::from_reply(&max).unwrap().server_api_level(), u32::MAX);
}

#[test]
fn a_bad_security_level_is_reported_after_the_server_levels() {
    let reply = Message::new()
        .with(b"server", b"3")
        .with(b"security", b"high")
        .with(b"func", b"protocol");
    assert!(Negotiated::from_reply(&reply).unwrap_err().is_bad_level());
}

#[test]
fn protocol_reply_detection_uses_the_first_func() {
    let reply = Message::new().with(b"func", b"protocol");
    assert!(is_protocol_reply(&reply));
    let other = Message::new().with(b"func", b"client-Message").with(b"func", b"protocol");
    assert!(!is_protocol_reply(&other));
    assert!(!is_protocol_reply(&Message::new()));
}

#[test]
fn opener_accessors_report_what_is_sent() {
    let opener = Protocol::new(b"Titan", b"tcp:localhost:1666");
    assert_eq!(opener.host(), b"Titan");
    assert_eq!(opener.port(), b"tcp:localhost:1666");
    assert_eq!(opener.client_api_level(), 100);
    let msg = opener.to_message();
    assert_eq!(msg.value(b"sndbuf"), Some(&b"524288"[..]));
    assert_eq!(msg.value(b"rcvbuf"), Some(&b"65536"[..]));
    assert_eq!(msg.fields().len(), 14);
}

#[test]
fn handshake_errors_render_one_line_diagnostics() {
    let not_protocol = Negotiated::from_reply(&Message::new().with(b"func", b"release"))
        .unwrap_err();
    assert_eq!(
        not_protocol.to_string(),
        "handshake reply was not a `protocol` message"
    );

    let missing = Negotiated::from_reply(&Message::new().with(b"func", b"protocol")).unwrap_err();
    assert_eq!(
        missing.to_string(),
        "handshake reply carried no `server` or `server2` protocol level"
    );

    let bad = Negotiated::from_reply(
        &Message::new()
            .with(b"server2", b"not-a-number")
            .with(b"func", b"protocol"),
    )
    .unwrap_err();
    assert_eq!(
        bad.to_string(),
        "handshake level field `server2` is not a number: \"not-a-number\""
    );

    let lossy = Negotiated::from_reply(
        &Message::new()
            .with(b"server", &[0x66, 0xff, b'"'])
            .with(b"func", b"protocol"),
    )
    .unwrap_err();
    assert_eq!(
        lossy.to_string(),
        "handshake level field `server` is not a number: \"f\u{fffd}\\\"\""
    );
}

#[test]
fn levels_written_in_decimal_parse_back() {
    for level in [0u32, 7, 62, 100, 99999, u32::MAX] {
        let digits = astraval::text::decimal_bytes(level);
        assert_eq!(digits, level.to_string().into_bytes());
        let reply = Message::new().with(b"server", &digits).with(b"func", b"protocol");
        assert_eq!(Negotiated::from_reply(&reply).unwrap().server_api_level(), level);
    }
}

#[test]
fn start_negotiation_sends_the_opener_then_the_command() {
    let mut conn = scripted(Vec::new());
    let opener = Protocol::new(b"Titan", b"tcp:localhost:1670");
    let command = Message::new().with(b"func", b"user-info");
    start_negotiation(&mut conn, &opener, &command).unwrap();
    let mut expected = golden_client_protocol();
    expected.extend_from_slice(&hand_frame(&[("func", "user-info")]));
    assert_eq!(conn.transport().outbound, expected);
}

#[test]
fn negotiation_skips_frames_ahead_of_the_protocol_reply() {
    let mut inbound = hand_frame(&[("func", "client-Message"), ("data", "hello")]);
    inbound.extend_from_slice(&golden_server_protocol());
    inbound.extend_from_slice(&hand_frame(&[("func", "client-FstatInfo")]));
    let mut conn = scripted(inbound);

    assert!(negotiation_step(&mut conn).unwrap().is_none());
    let negotiated = negotiation_step(&mut conn).unwrap().expect("the protocol reply");
    assert_eq!(negotiated.server_api_level(), 62);
    assert_eq!(negotiated.base_server_level(), 3);
    assert!(negotiated.is_case_insensitive());

    // The frame after the reply is left for the dispatch layer.
    let rest = conn.receive().unwrap();
    assert_eq!(rest.value(b"func"), Some(&b"client-FstatInfo"[..]));
}

#[test]
fn negotiation_reports_a_bad_protocol_reply() {
    let mut conn = scripted(hand_frame(&[("server2", "x"), ("func", "protocol")]));
    let err = negotiation_step(&mut conn).unwrap_err();
    assert!(err.is_bad_level());
}

#[test]
fn negotiation_reports_a_close_before_the_reply() {
    let mut conn = scripted(hand_frame(&[("func", "client-Message")]));
    assert!(negotiation_step(&mut conn).unwrap().is_none());
    let err = negotiation_step(&mut conn).unwrap_err();
    assert!(err.is_connection());
}

#[test]
fn handshake_errors_expose_a_connection_cause() {
    let mut conn = scripted(Vec::new());
    let err = negotiation_step(&mut conn).unwrap_err();
    assert!(err.source().expect("a connection cause").is_disconnected());

    let reply = Message::new().with(b"func", b"release");
    let err = Negotiated::from_reply(&reply).unwrap_err();
    assert!(err.source().is_none());
}

#[test]
fn a_bad_level_with_invalid_utf8_is_shown_with_replacement() {
    let reply = Message::new()
        .with(b"server2", &[0xff, b'7'])
        .with(b"func", b"protocol");
    let err = Negotiated::from_reply(&reply).unwrap_err();
    assert!(err.is_bad_level());
    assert_eq!(
        err.to_string(),
        "handshake level field `server2` is not a number: \"\u{fffd}7\""
    );
}
