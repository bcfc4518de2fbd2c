use std::io::{Cursor, Read, Write};

use astraval::connection::Connection;
use astraval::frame::{encode, Message};

/// An in-memory transport: reads drain `inbound`, writes collect into `outbound`.
struct MemTransport {
    inbound: Cursor<Vec<u8>>,
    outbound: Vec<u8>,
}

impl MemTransport {
    fn with_inbound(bytes: Vec<u8>) -> Self {
        Self {
            inbound: Cursor::new(bytes),
            outbound: Vec::new(),
        }
    }
}

impl Read for MemTransport {
    fn read(&mut self, buf: &mut [u8]) -> std::io::Result<usize> {
        self.inbound.read(buf)
    }
}

impl Write for MemTransport {
    fn write(&mut self, buf: &[u8]) -> std::io::Result<usize> {
        self.outbound.extend_from_slice(buf);
        Ok(buf.len())
    }

    fn flush(&mut self) -> std::io::Result<()> {
        Ok(())
    }
}

/// A transport that hands out its bytes a few at a time, then fails.
struct Trickle {
    bytes: Vec<u8>,
    at: usize,
    step: usize,
}

impl Read for Trickle {
    fn read(&mut self, buf: &mut [u8]) -> std::io::Result<usize> {
        if self.at >= self.bytes.len() {
            return Err(std::io::Error::new(std::io::ErrorKind::Other, "gone"));
        }
        let n = self.step.min(buf.len()).min(self.bytes.len() - self.at);
        buf[..n].copy_from_slice(&self.bytes[self.at..self.at + n]);
        self.at += n;
        Ok(n)
    }
}

impl Write for Trickle {
    fn write(&mut self, _buf: &[u8]) -> std::io::Result<usize> {
        Err(std::io::Error::new(std::io::ErrorKind::Other, "read-only"))
    }

    fn flush(&mut self) -> std::io::Result<()> {
        Ok(())
    }
}

#[test]
fn send_writes_the_framed_bytes() {
    let message = Message::new().with(b"func", b"release2");
    let mut conn = Connection::new(MemTransport::with_inbound(Vec::new()));

    conn.send(&message).unwrap();
    assert_eq!(conn.transport().outbound, encode(&message));
}

#[test]
fn receive_decodes_a_single_frame() {
    let message = Message::new().with(b"func", b"user-info").with(b"prog", b"p4");
    let mut conn = Connection::new(MemTransport::with_inbound(encode(&message)));

    assert_eq!(conn.receive().unwrap(), message);
}

#[test]
fn receive_drains_two_coalesced_frames() {
    let first = Message::new().with(b"func", b"release2");
    let second = Message::new().with(b"func", b"user-info");
    let mut stream = encode(&first);
    stream.extend_from_slice(&encode(&second));

    let mut conn = Connection::new(MemTransport::with_inbound(stream));
    assert_eq!(conn.receive().unwrap(), first);
    assert_eq!(conn.receive().unwrap(), second);
}

#[test]
fn receive_reports_a_clean_close_as_disconnected() {
    let mut conn = Connection::new(MemTransport::with_inbound(Vec::new()));
    let err = conn.receive().unwrap_err();
    assert!(err.is_disconnected());
}

#[test]
fn receive_reports_a_truncated_frame_as_disconnected() {
    let bytes = encode(&Message::new().with(b"func", b"release2"));
    let mut conn = Connection::new(MemTransport::with_inbound(bytes[..6].to_vec()));
    let err = conn.receive().unwrap_err();
    assert!(err.is_disconnected());
}

#[test]
fn receive_surfaces_a_framing_error() {
    let mut bytes = encode(&Message::new().with(b"func", b"release2"));
    bytes[0] ^= 0xff;
    let mut conn = Connection::new(MemTransport::with_inbound(bytes));

    let err = conn.receive().unwrap_err();
    assert!(err.is_frame());
}

#[test]
fn receive_reassembles_a_frame_split_across_reads() {
    let first = Message::new().with(b"func", b"user-info").with(b"prog", b"p4");
    let second = Message::new().with(b"func", b"release2");
    let mut bytes = encode(&first);
    bytes.extend_from_slice(&encode(&second));
    let mut conn = Connection::new(Trickle { bytes, at: 0, step: 3 });
    assert_eq!(conn.receive().unwrap(), first);
    assert_eq!(conn.receive().unwrap(), second);
    // The transport is exhausted and now errors.
    let err = conn.receive().unwrap_err();
    assert!(err.is_io());
    assert!(!err.is_disconnected());
}

#[test]
fn send_reports_a_write_failure_as_io() {
    let mut conn = Connection::new(Trickle { bytes: Vec::new(), at: 0, step: 1 });
    let err = conn.send(&Message::new().with(b"func", b"release2")).unwrap_err();
    assert!(err.is_io());
    assert!(!err.is_frame());
}

#[test]
fn connection_errors_render_one_line_diagnostics() {
    let mut conn = Connection::new(MemTransport::with_inbound(Vec::new()));
    assert_eq!(
        conn.receive().unwrap_err().to_string(),
        "server closed the connection before a complete message arrived"
    );

    let mut bytes = encode(&Message::new().with(b"func", b"release2"));
    bytes[0] ^= 0xff;
    let mut conn = Connection::new(MemTransport::with_inbound(bytes));
    assert_eq!(
        conn.receive().unwrap_err().to_string(),
        "received a malformed frame: rpc preamble checksum mismatch: expected 0x12, found 0xed"
    );

    let mut conn = Connection::new(Trickle { bytes: Vec::new(), at: 0, step: 1 });
    let text = conn.receive().unwrap_err().to_string();
    assert_eq!(text, "connection i/o error: gone");
}

#[test]
fn connection_errors_expose_their_cause() {
    let mut bytes = encode(&Message::new().with(b"func", b"release2"));
    bytes[0] ^= 0xff;
    let mut conn = Connection::new(MemTransport::with_inbound(bytes));
    let err = conn.receive().unwrap_err();
    assert!(err.frame_source().expect("a framing cause").is_checksum());
    assert!(err.io_source().is_none());

    let mut conn = Connection::new(Trickle { bytes: Vec::new(), at: 0, step: 1 });
    let err = conn.receive().unwrap_err();
    assert_eq!(err.io_source().expect("an i/o cause").to_string(), "gone");
    assert!(err.frame_source().is_none());

    let mut conn = Connection::new(MemTransport::with_inbound(Vec::new()));
    let err = conn.receive().unwrap_err();
    assert!(err.io_source().is_none());
    assert!(err.frame_source().is_none());
}

/// A transport whose writes fail and whose flush must never be reached.
struct BrokenWriter;

impl Read for BrokenWriter {
    fn read(&mut self, _buf: &mut [u8]) -> std::io::Result<usize> {
        Ok(0)
    }
}

impl Write for BrokenWriter {
    fn write(&mut self, _buf: &[u8]) -> std::io::Result<usize> {
        Err(std::io::Error::new(std::io::ErrorKind::Other, "broken pipe"))
    }

    fn flush(&mut self) -> std::io::Result<()> {
        panic!("flush after a failed write");
    }
}

#[test]
fn send_does_not_flush_after_a_failed_write() {
    let mut conn = Connection::new(BrokenWriter);
    let err = conn.send(&Message::new().with(b"func", b"release2")).unwrap_err();
    assert!(err.is_io());
    assert_eq!(err.io_source().expect("an i/o cause").to_string(), "broken pipe");
}
