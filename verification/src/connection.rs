//! A blocking client connection that exchanges framed RPC [`Message`]s.
//!
//! [`Connection`] wraps any `Read + Write` transport and owns the buffer that
//! reassembles frames split across reads. Sending frames a message with
//! [`encode`] and writes it; receiving decodes the frame at the front of the
//! buffer, reading more bytes only while no complete frame is buffered, and
//! keeps whatever follows that frame for the next call.
//!
//! Each connection keeps a ghost log of the calls it has made on its
//! transport ([`TransportCall`]), appended to by the wrappers that make them:
//! every read with the bytes it delivered, every `write_all` with its bytes,
//! every flush, each with its outcome. The contracts of sending and receiving
//! are stated over that log.
use vstd::prelude::*;
use vstd::slice::slice_subrange;
use vstd::slice::slice_to_vec;

use crate::frame::{
    decode, encode, encodable, frame_error_text, spec_decode, spec_encode, FrameError,
    FrameErrorKind, Message,
};
use crate::text::push_str;

verus! {

/// How many bytes to request per read while reassembling a frame.
pub const READ_CHUNK: usize = 8192;

#[verifier::external_type_specification]
#[verifier::external_body]
pub struct ExIoError(std::io::Error);

/// One call this connection made on its transport, with its outcome.
pub enum TransportCall {
    /// A read that delivered these bytes (at least one).
    Read(Seq<u8>),
    /// A read that returned `Ok(0)`: no bytes, the peer has closed.
    ReadNothing,
    /// A read that returned an error.
    ReadFailed,
    /// A `write_all` of these bytes, and whether it returned `Ok`.
    WriteAll { bytes: Seq<u8>, ok: bool },
    /// A `flush`, and whether it returned `Ok`.
    Flush { ok: bool },
}

/// The log entry for a read into `buf` that returned `r`.
pub open spec fn read_call(r: Result<usize, std::io::Error>, buf: Seq<u8>) -> TransportCall {
    match r {
        Ok(n) => if n == 0 {
            TransportCall::ReadNothing
        } else {
            TransportCall::Read(buf.take(n as int))
        },
        Err(_) => TransportCall::ReadFailed,
    }
}

/// Reads some bytes from the connection's transport into the front of `buf`.
///
/// Trusted: calls `std::io::Read::read` on the transport, whose documentation
/// promises that an `Ok(n)` result has `n <= buf.len()` and that the first `n`
/// bytes of `buf` are the bytes read; the buffer keeps its length. The call
/// and its outcome are appended to the connection's call log; nothing else of
/// the connection changes. Which bytes arrive, and whether an error occurs,
/// depend on the transport and are not stated.
#[verifier::external_body]
fn transport_read<T: std::io::Read>(conn: &mut Connection<T>, buf: &mut Vec<u8>) -> (r: Result<
    usize,
    std::io::Error,
>)
    ensures
        final(buf)@.len() == old(buf)@.len(),
        r matches Ok(n) ==> n <= old(buf)@.len(),
        final(conn).pending() == old(conn).pending(),
        final(conn).calls() == old(conn).calls().push(read_call(r, final(buf)@)),
{
    conn.transport.read(buf.as_mut_slice())
}

/// Writes all of `bytes` to the connection's transport.
///
/// Trusted: calls `std::io::Write::write_all` on the transport. The call, its
/// bytes and whether it returned `Ok` are appended to the connection's call
/// log; nothing else of the connection changes. Whether it succeeds depends on
/// the transport and is not stated.
#[verifier::external_body]
fn transport_write_all<T: std::io::Write>(conn: &mut Connection<T>, bytes: &[u8]) -> (r: Result<
    (),
    std::io::Error,
>)
    ensures
        final(conn).pending() == old(conn).pending(),
        final(conn).calls() == old(conn).calls().push(
            TransportCall::WriteAll { bytes: bytes@, ok: r is Ok },
        ),
{
    conn.transport.write_all(bytes)
}

/// Flushes the connection's transport.
///
/// Trusted: calls `std::io::Write::flush` on the transport. The call and
/// whether it returned `Ok` are appended to the connection's call log; nothing
/// else of the connection changes. Whether it succeeds depends on the
/// transport and is not stated.
#[verifier::external_body]
fn transport_flush<T: std::io::Write>(conn: &mut Connection<T>) -> (r: Result<(), std::io::Error>)
    ensures
        final(conn).pending() == old(conn).pending(),
        final(conn).calls() == old(conn).calls().push(TransportCall::Flush { ok: r is Ok }),
{
    conn.transport.flush()
}

/// Renders an I/O error as text.
///
/// Trusted: calls `ToString::to_string` through `std::io::Error`'s `Display`.
/// The text depends on the operating system and is not stated.
#[verifier::external_body]
fn io_error_text(error: &std::io::Error) -> (s: String) {
    error.to_string()
}

/// The one-line diagnostic `text` for a connection failure: transport errors
/// carry the I/O error's own text after a fixed prefix.
pub open spec fn connection_error_text(failure: ConnectionFailure, text: Seq<char>) -> bool {
    match failure {
        ConnectionFailure::Io => exists|t: Seq<char>| text == "connection i/o error: "@ + t,
        ConnectionFailure::Disconnected => text
            == "server closed the connection before a complete message arrived"@,
        ConnectionFailure::Frame(kind) => text == "received a malformed frame: "@
            + frame_error_text(kind),
    }
}

/// What went wrong on a connection, as callers observe it.
#[derive(Clone, Copy, Debug, PartialEq, Eq)]
pub enum ConnectionFailure {
    /// The underlying transport reported an I/O error.
    Io,
    /// The peer closed the connection before a full frame arrived.
    Disconnected,
    /// The bytes received did not form a valid frame.
    Frame(FrameErrorKind),
}

#[derive(Debug)]
enum ConnectionErrorKind {
    Io(std::io::Error),
    Disconnected,
    Frame(FrameError),
}

/// An error from sending or receiving an RPC message over a connection.
#[derive(Debug)]
pub struct ConnectionError {
    kind: ConnectionErrorKind,
}

impl View for ConnectionError {
    type V = ConnectionFailure;

    closed spec fn view(&self) -> ConnectionFailure {
        match self.kind {
            ConnectionErrorKind::Io(_) => ConnectionFailure::Io,
            ConnectionErrorKind::Disconnected => ConnectionFailure::Disconnected,
            ConnectionErrorKind::Frame(e) => ConnectionFailure::Frame(e@),
        }
    }
}

impl ConnectionError {
    /// The I/O error this failure wraps, when it came from the transport.
    pub closed spec fn io_cause(&self) -> Option<std::io::Error> {
        match self.kind {
            ConnectionErrorKind::Io(e) => Some(e),
            _ => None,
        }
    }

    /// Wraps an underlying I/O error.
    pub fn io(error: std::io::Error) -> (e: ConnectionError)
        ensures
            e@ == ConnectionFailure::Io,
            e.io_cause() == Some(error),
    {
        ConnectionError { kind: ConnectionErrorKind::Io(error) }
    }

    /// Creates a disconnected error for an unexpected peer close.
    fn disconnected() -> (e: ConnectionError)
        ensures
            e@ == ConnectionFailure::Disconnected,
    {
        ConnectionError { kind: ConnectionErrorKind::Disconnected }
    }

    /// Wraps a framing error encountered while decoding received bytes.
    fn frame(error: FrameError) -> (e: ConnectionError)
        ensures
            e@ == ConnectionFailure::Frame(error@),
    {
        ConnectionError { kind: ConnectionErrorKind::Frame(error) }
    }

    /// Renders the connection error as a single diagnostic line.
    pub fn to_string(&self) -> (s: String)
        ensures
            connection_error_text(self@, s@),
    {
        let mut s = String::new();
        match &self.kind {
            ConnectionErrorKind::Io(error) => {
                push_str(&mut s, "connection i/o error: ");
                let text = io_error_text(error);
                push_str(&mut s, text.as_str());
                assert(s@ == "connection i/o error: "@ + text@);
            },
            ConnectionErrorKind::Disconnected => {
                push_str(&mut s, "server closed the connection before a complete message arrived");
            },
            ConnectionErrorKind::Frame(error) => {
                push_str(&mut s, "received a malformed frame: ");
                let text = error.to_string();
                push_str(&mut s, text.as_str());
            },
        }
        s
    }

    /// Returns the underlying I/O error, when the failure came from the
    /// transport.
    pub fn io_source(&self) -> (r: Option<&std::io::Error>)
        ensures
            r is Some <==> self@ is Io,
            match r {
                Some(x) => self.io_cause() == Some(*x),
                None => self.io_cause() is None,
            },
    {
        match &self.kind {
            ConnectionErrorKind::Io(error) => Some(error),
            _ => None,
        }
    }

    /// Returns the framing error, when the received bytes were not a valid frame.
    pub fn frame_source(&self) -> (r: Option<&FrameError>)
        ensures
            match r {
                Some(f) => self@ == ConnectionFailure::Frame(f@),
                None => !(self@ is Frame),
            },
    {
        match &self.kind {
            ConnectionErrorKind::Frame(error) => Some(error),
            _ => None,
        }
    }

    /// Returns `true` if the failure came from the underlying transport I/O.
    pub fn is_io(&self) -> (b: bool)
        ensures
            b == (self@ is Io),
    {
        match self.kind {
            ConnectionErrorKind::Io(_) => true,
            _ => false,
        }
    }

    /// Returns `true` if the peer closed the connection before a full frame.
    pub fn is_disconnected(&self) -> (b: bool)
        ensures
            b == (self@ is Disconnected),
    {
        match self.kind {
            ConnectionErrorKind::Disconnected => true,
            _ => false,
        }
    }

    /// Returns `true` if received bytes did not form a valid frame.
    pub fn is_frame(&self) -> (b: bool)
        ensures
            b == (self@ is Frame),
    {
        match self.kind {
            ConnectionErrorKind::Frame(_) => true,
            _ => false,
        }
    }
}

/// The bytes the successful reads among `calls` delivered, in order.
pub open spec fn delivered(calls: Seq<TransportCall>) -> Seq<u8>
    decreases calls.len(),
{
    if calls.len() == 0 {
        Seq::empty()
    } else {
        delivered(calls.drop_last()) + match calls.last() {
            TransportCall::Read(bytes) => bytes,
            _ => Seq::empty(),
        }
    }
}

/// The call is a read, whatever it returned.
pub open spec fn is_read(call: TransportCall) -> bool {
    call is Read || call is ReadNothing || call is ReadFailed
}

/// The outcome of a receive that started with `before` buffered, made the
/// transport calls `calls`, returned `r` and left `after` buffered.
///
/// The calls are reads, each made only while the buffer so far held no
/// complete frame and no malformed bytes; every read but the last delivered
/// bytes. A last read that delivered nothing is a disconnect, one that failed
/// is an I/O error; otherwise the result is what decoding the whole buffer
/// gives, a message (whose frame is then removed from the front of the buffer)
/// or a framing error. With a frame or malformed bytes already buffered,
/// nothing is read.
pub open spec fn receive_outcome(
    before: Seq<u8>,
    calls: Seq<TransportCall>,
    r: Result<Message, ConnectionError>,
    after: Seq<u8>,
) -> bool {
    let buffer = before + delivered(calls);
    &&& forall|k: int| 0 <= k < calls.len() ==> is_read(#[trigger] calls[k])
    &&& forall|k: int| 0 <= k < calls.len() - 1 ==> #[trigger] calls[k] is Read
    &&& forall|k: int|
        0 <= k < calls.len() ==> spec_decode(before + delivered(#[trigger] calls.take(k))) == Ok::<
            Option<(Seq<crate::frame::FieldView>, nat)>,
            FrameErrorKind,
        >(None)
    &&& if calls.len() > 0 && calls.last() is ReadNothing {
        r matches Err(e) && e@ == ConnectionFailure::Disconnected && after == buffer
    } else if calls.len() > 0 && calls.last() is ReadFailed {
        r matches Err(e) && e@ == ConnectionFailure::Io && after == buffer
    } else {
        match spec_decode(buffer) {
            Ok(Some((fields, consumed))) => r matches Ok(m) && m@ == fields && after == buffer.skip(
                consumed as int,
            ),
            Err(kind) => r matches Err(e) && e@ == ConnectionFailure::Frame(kind) && after == buffer,
            Ok(None) => false,
        }
    }
}

/// The calls a send of `frame` makes, `ok` being whether it succeeded: a
/// `write_all` of the frame and, only when that returned `Ok`, one flush; the
/// send succeeds exactly when both do.
pub open spec fn send_trace(frame: Seq<u8>, calls: Seq<TransportCall>, ok: bool) -> bool {
    ||| calls == seq![TransportCall::WriteAll { bytes: frame, ok: false }] && !ok
    ||| calls == seq![TransportCall::WriteAll { bytes: frame, ok: true }, TransportCall::Flush { ok }]
}

/// A blocking transport that sends and receives framed RPC [`Message`]s.
pub struct Connection<T> {
    transport: T,
    pending: Vec<u8>,
    log: Ghost<Seq<TransportCall>>,
}

impl<T> Connection<T> {
    /// The bytes received but not yet consumed by a completed receive.
    pub closed spec fn pending(&self) -> Seq<u8> {
        self.pending@
    }

    /// Every call this connection has made on its transport, in order, with
    /// its outcome.
    pub closed spec fn calls(&self) -> Seq<TransportCall> {
        self.log@
    }

    /// The underlying byte transport.
    pub closed spec fn spec_transport(&self) -> T {
        self.transport
    }

    /// Wraps an existing transport as a connection with nothing buffered.
    pub fn new(transport: T) -> (c: Connection<T>)
        ensures
            c.pending() == Seq::<u8>::empty(),
            c.calls() == Seq::<TransportCall>::empty(),
            c.spec_transport() == transport,
    {
        Connection { transport, pending: Vec::new(), log: Ghost(Seq::empty()) }
    }

    /// Returns a shared reference to the underlying transport.
    pub fn transport(&self) -> (t: &T)
        ensures
            *t == self.spec_transport(),
    {
        &self.transport
    }
}

impl<T: std::io::Read + std::io::Write> Connection<T> {
    /// Frames `message` and writes it to the transport, flushing before return.
    ///
    /// The transport gets one `write_all` of exactly [`encode`]'s frame of the
    /// message and, only when that succeeds, one flush; the send succeeds
    /// exactly when both do. The receive buffer is untouched.
    pub fn send(&mut self, message: &Message) -> (r: Result<(), ConnectionError>)
        requires
            encodable(message@),
        ensures
            old(self).calls().is_prefix_of(final(self).calls()),
            send_trace(
                spec_encode(message@),
                final(self).calls().skip(old(self).calls().len() as int),
                r is Ok,
            ),
            final(self).pending() == old(self).pending(),
            r matches Err(e) ==> e@ == ConnectionFailure::Io,
    {
        let bytes = encode(message);
        match transport_write_all(self, bytes.as_slice()) {
            Ok(()) => {},
            Err(e) => {
                assert(self.calls().skip(old(self).calls().len() as int) =~= seq![
                    TransportCall::WriteAll { bytes: bytes@, ok: false },
                ]);
                return Err(ConnectionError::io(e));
            },
        }
        let flushed = transport_flush(self);
        assert(self.calls().skip(old(self).calls().len() as int) =~= seq![
            TransportCall::WriteAll { bytes: bytes@, ok: true },
            TransportCall::Flush { ok: flushed is Ok },
        ]);
        match flushed {
            Ok(()) => Ok(()),
            Err(e) => Err(ConnectionError::io(e)),
        }
    }

    /// Reads until one complete frame is buffered and returns its [`Message`].
    ///
    /// Nothing is read while a frame (or malformed bytes) is already buffered.
    /// Bytes received beyond the returned frame stay buffered for the next
    /// call.
    pub fn receive(&mut self) -> (r: Result<Message, ConnectionError>)
        ensures
            old(self).calls().is_prefix_of(final(self).calls()),
            receive_outcome(
                old(self).pending(),
                final(self).calls().skip(old(self).calls().len() as int),
                r,
                final(self).pending(),
            ),
    {
        let ghost before = self.pending@;
        let ghost start = self.log@;
        loop
            invariant
                before == old(self).pending@,
                start == old(self).log@,
                start.is_prefix_of(self.log@),
                self.pending@ == before + delivered(self.log@.skip(start.len() as int)),
                forall|k: int|
                    start.len() <= k < self.log@.len() ==> #[trigger] self.log@[k] is Read,
                forall|k: int|
                    0 <= k < self.log@.len() - start.len() ==> spec_decode(
                        before + delivered(#[trigger] self.log@.skip(start.len() as int).take(k)),
                    ) == Ok::<Option<(Seq<crate::frame::FieldView>, nat)>, FrameErrorKind>(None),
            decreases 0x1_0000_2005int - self.pending@.len(),
        {
            let ghost calls = self.log@.skip(start.len() as int);
            proof {
                assert forall|k: int| 0 <= k < calls.len() implies #[trigger] calls[k] is Read by {
                    assert(calls[k] == self.log@[start.len() + k]);
                }
                assert forall|k: int| 0 <= k < calls.len() implies spec_decode(
                    before + delivered(#[trigger] calls.take(k)),
                ) == Ok::<Option<(Seq<crate::frame::FieldView>, nat)>, FrameErrorKind>(None) by {
                }
            }
            match decode(self.pending.as_slice()) {
                Ok(Some(decoded)) => {
                    let rest = slice_to_vec(
                        slice_subrange(self.pending.as_slice(), decoded.consumed, self.pending.len()),
                    );
                    self.pending = rest;
                    assert(self.pending@ =~= (before + delivered(calls)).skip(
                        decoded.consumed as int,
                    ));
                    assert(receive_outcome(before, calls, Ok(decoded.message), self.pending()));
                    return Ok(decoded.message);
                },
                Ok(None) => {},
                Err(e) => {
                    let err = ConnectionError::frame(e);
                    assert(receive_outcome(before, calls, Err(err), self.pending()));
                    return Err(err);
                },
            }
            let ghost buffered = self.pending@;
            let mut chunk: Vec<u8> = vec![0u8; READ_CHUNK];
            let result = transport_read(self, &mut chunk);
            let ghost call = read_call(result, chunk@);
            let ghost grown = self.log@.skip(start.len() as int);
            proof {
                assert(grown =~= calls.push(call));
                assert(grown.drop_last() =~= calls);
                assert(grown.take(calls.len() as int) =~= calls);
                assert forall|k: int| 0 <= k < calls.len() implies #[trigger] grown.take(k)
                    =~= calls.take(k) by {}
                assert(start.is_prefix_of(self.log@)) by {
                    assert(self.log@.subrange(0, start.len() as int) =~= start);
                }
            }
            let read = match result {
                Ok(n) => n,
                Err(e) => {
                    let err = ConnectionError::io(e);
                    assert(delivered(grown) == delivered(calls));
                    assert(receive_outcome(before, grown, Err(err), self.pending()));
                    return Err(err);
                },
            };
            if read == 0 {
                let err = ConnectionError::disconnected();
                assert(delivered(grown) == delivered(calls));
                assert(receive_outcome(before, grown, Err(err), self.pending()));
                return Err(err);
            }
            let ghost log_now = self.log@;
            let mut i: usize = 0;
            while i < read
                invariant
                    i <= read <= chunk@.len(),
                    self.pending@ == buffered + chunk@.take(i as int),
                    self.log@ == log_now,
                decreases read - i,
            {
                self.pending.push(chunk[i]);
                i += 1;
                assert(self.pending@ =~= buffered + chunk@.take(i as int));
            }
            proof {
                assert(delivered(grown) == delivered(calls) + chunk@.take(read as int));
                assert(self.pending@ =~= before + delivered(grown));
                assert(call is Read);
                assert forall|k: int|
                    start.len() <= k < self.log@.len() implies #[trigger] self.log@[k] is Read by {
                    assert(self.log@[k] == grown[k - start.len()]);
                    if k < self.log@.len() - 1 {
                        assert(grown[k - start.len()] == calls[k - start.len()]);
                    } else {
                        assert(grown[k - start.len()] == call);
                    }
                }
                assert forall|k: int|
                    0 <= k < self.log@.len() - start.len() implies spec_decode(
                        before + delivered(#[trigger] self.log@.skip(start.len() as int).take(k)),
                    ) == Ok::<Option<(Seq<crate::frame::FieldView>, nat)>, FrameErrorKind>(None) by {
                    if k == calls.len() {
                        assert(grown.take(k) =~= calls);
                    } else {
                        assert(grown.take(k) =~= calls.take(k));
                    }
                }
            }
        }
    }
}

/// The bytes two runs of calls deliver are those of the first, then those of
/// the second.
pub proof fn lemma_delivered_append(a: Seq<TransportCall>, b: Seq<TransportCall>)
    ensures
        delivered(a + b) == delivered(a) + delivered(b),
    decreases b.len(),
{
    if b.len() == 0 {
        assert(a + b =~= a);
        assert(delivered(a) + delivered(b) =~= delivered(a));
    } else {
        lemma_delivered_append(a, b.drop_last());
        assert((a + b).drop_last() =~= a + b.drop_last());
        assert((a + b).last() == b.last());
        assert(delivered(a + b) =~= delivered(a) + delivered(b));
    }
}

/// A receive takes exactly the frame at the front of the stream: when the
/// bytes buffered before it, those its reads delivered and those delivered
/// later form a frame of `fields` followed by `tail`, and the receive did not
/// fail (or nothing was delivered later), it returns that frame and leaves
/// buffered what, with the later bytes, makes up `tail`.
pub proof fn lemma_receive_takes_frame(
    before: Seq<u8>,
    calls: Seq<TransportCall>,
    received: Result<Message, ConnectionError>,
    after: Seq<u8>,
    fields: Seq<crate::frame::FieldView>,
    later: Seq<u8>,
    tail: Seq<u8>,
)
    requires
        receive_outcome(before, calls, received, after),
        crate::frame::names_null_free(fields),
        encodable(fields),
        before + delivered(calls) + later == spec_encode(fields) + tail,
        received is Ok || later.len() == 0,
    ensures
        received matches Ok(m) && m@ == fields,
        after + later == tail,
{
    let buffer = before + delivered(calls);
    let frame = spec_encode(fields);
    let stream = frame + tail;
    assert(buffer =~= stream.take(buffer.len() as int)) by {
        assert(buffer + later == stream);
        assert forall|x: int| 0 <= x < buffer.len() implies buffer[x] == stream[x] by {
            assert((buffer + later)[x] == buffer[x]);
        }
    }
    if buffer.len() >= frame.len() {
        let extra = buffer.skip(frame.len() as int);
        assert(buffer =~= frame + extra);
        crate::frame::law_decode_encode(fields, extra);
        if calls.len() > 0 && (calls.last() is ReadNothing || calls.last() is ReadFailed) {
            let k = calls.len() - 1;
            assert(calls.take(k) =~= calls.drop_last());
            assert(delivered(calls) == delivered(calls.drop_last()));
            assert(spec_decode(before + delivered(calls.take(k))) == Ok::<
                Option<(Seq<crate::frame::FieldView>, nat)>,
                FrameErrorKind,
            >(None));
            assert(false);
        }
        assert(after =~= extra);
        assert(extra + later =~= tail) by {
            assert(frame + extra + later == frame + tail);
            assert((frame + extra + later).skip(frame.len() as int) =~= extra + later);
            assert((frame + tail).skip(frame.len() as int) =~= tail);
        }
    } else {
        assert(buffer =~= frame.take(buffer.len() as int));
        crate::frame::law_decode_partial_frame(fields, buffer.len() as int);
        if received is Err {
            assert(buffer + later =~= buffer);
            assert(false);
        }
        assert(false);
    }
}

} // verus!
