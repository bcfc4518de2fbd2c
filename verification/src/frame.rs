//! The Perforce RPC framing codec: messages of fields to bytes and back.
//!
//! A message on the wire is a fixed 5-byte preamble followed by a payload of
//! fields:
//!
//! ```text
//! PREAMBLE (5 bytes):
//!   [0]      check = L0 ^ L1 ^ L2 ^ L3        (XOR of the four length bytes)
//!   [1..4]   payload length as little-endian u32
//!
//! FIELD:
//!   <name bytes> 0x00
//!   <4-byte little-endian u32 value length>
//!   <value bytes> 0x00
//! ```
//!
//! The payload is the fields back to back, with no separator and no stored
//! field count. The codec is I/O-agnostic: [`encode`] builds a fresh buffer and
//! [`decode`] reads the frame at the front of a caller-owned slice.
//!
//! The byte layout is stated once, as the spec functions [`spec_encode`] and
//! [`spec_decode`]; the executable codec is proved against them, and the
//! laws at the end of the module relate the two directions.
use vstd::prelude::*;
use vstd::slice::slice_subrange;
use vstd::slice::slice_to_vec;

use crate::text::{append_bytes, bytes_eq, push_char, push_str};

verus! {

/// The fixed size in bytes of an RPC preamble: one check byte plus a u32 length.
pub const PREAMBLE_LEN: usize = 5;

/// The size in bytes of every little-endian length field on the wire.
pub const LENGTH_LEN: usize = 4;

/// The abstract value of a field: its name bytes and its value bytes.
pub type FieldView = (Seq<u8>, Seq<u8>);

// ---------------------------------------------------------------------------
// The wire format, stated as spec functions.
// ---------------------------------------------------------------------------

/// The four little-endian bytes of `v`.
pub open spec fn le_bytes(v: u32) -> Seq<u8> {
    seq![v as u8, (v >> 8u32) as u8, (v >> 16u32) as u8, (v >> 24u32) as u8]
}

/// The `u32` whose little-endian bytes are the first four of `b`.
pub open spec fn le_value(b: Seq<u8>) -> u32
    recommends
        b.len() >= 4,
{
    (b[0] as u32) | ((b[1] as u32) << 8u32) | ((b[2] as u32) << 16u32) | ((b[3] as u32) << 24u32)
}

/// The preamble check byte for the four length bytes `b`: their XOR.
pub open spec fn check_byte(b: Seq<u8>) -> u8
    recommends
        b.len() >= 4,
{
    b[0] ^ b[1] ^ b[2] ^ b[3]
}

/// The 5-byte preamble for the four little-endian length bytes `length`.
pub open spec fn spec_preamble(length: Seq<u8>) -> Seq<u8> {
    seq![check_byte(length)] + length
}

/// The wire bytes of one field.
pub open spec fn spec_field_bytes(f: FieldView) -> Seq<u8> {
    f.0 + seq![0u8] + le_bytes(f.1.len() as u32) + f.1 + seq![0u8]
}

/// The payload bytes of a list of fields: each field's bytes, in order.
pub open spec fn spec_payload(fields: Seq<FieldView>) -> Seq<u8>
    decreases fields.len(),
{
    if fields.len() == 0 {
        Seq::empty()
    } else {
        spec_field_bytes(fields[0]) + spec_payload(fields.drop_first())
    }
}

/// The complete frame for a list of fields: preamble, then payload.
pub open spec fn spec_encode(fields: Seq<FieldView>) -> Seq<u8> {
    spec_preamble(le_bytes(spec_payload(fields).len() as u32)) + spec_payload(fields)
}

/// A message can be framed: its payload length fits the u32 length field.
pub open spec fn encodable(fields: Seq<FieldView>) -> bool {
    spec_payload(fields).len() <= u32::MAX
}

/// No field name holds a null byte (the name's terminator on the wire).
pub open spec fn names_null_free(fields: Seq<FieldView>) -> bool {
    forall|i: int, j: int| 0 <= i < fields.len() && 0 <= j < fields[i].0.len() ==> fields[i].0[j] != 0u8
}

/// `i` is the index of the first null byte of `s`.
pub open spec fn is_first_null(s: Seq<u8>, i: int) -> bool {
    &&& 0 <= i < s.len()
    &&& s[i] == 0u8
    &&& forall|j: int| 0 <= j < i ==> s[j] != 0u8
}

/// Why bytes are not a valid frame.
#[derive(Clone, Copy, Debug, PartialEq, Eq)]
pub enum FrameErrorKind {
    /// The preamble's check byte disagreed with its length bytes.
    Checksum { expected: u8, found: u8 },
    /// A field ended before its name, length, or value was complete.
    TruncatedField,
    /// A field's value was not followed by its required null terminator.
    MissingTerminator { found: u8 },
}

/// Parses one field from the front of payload bytes `p`, giving the field and the rest.
#[verifier::opaque]
pub open spec fn spec_decode_field(p: Seq<u8>) -> Result<(FieldView, Seq<u8>), FrameErrorKind> {
    if !(exists|i: int| is_first_null(p, i)) {
        Err(FrameErrorKind::TruncatedField)
    } else {
        let n = choose|i: int| is_first_null(p, i);
        let after_name = p.skip(n + 1);
        if after_name.len() < 4 {
            Err(FrameErrorKind::TruncatedField)
        } else {
            let value_len = le_value(after_name) as int;
            let after_length = after_name.skip(4);
            if after_length.len() < value_len {
                Err(FrameErrorKind::TruncatedField)
            } else {
                let after_value = after_length.skip(value_len);
                if after_value.len() == 0 {
                    Err(FrameErrorKind::TruncatedField)
                } else if after_value[0] == 0u8 {
                    Ok(((p.take(n), after_length.take(value_len)), after_value.skip(1)))
                } else {
                    Err(FrameErrorKind::MissingTerminator { found: after_value[0] })
                }
            }
        }
    }
}

/// Parses a whole payload into its fields, consuming it exactly.
///
/// (A parsed field always leaves a strictly shorter rest, as
/// `lemma_decode_field_exact` shows; the length test only lets the
/// definition's termination be checked.)
pub open spec fn spec_decode_payload(p: Seq<u8>) -> Result<Seq<FieldView>, FrameErrorKind>
    decreases p.len(),
{
    if p.len() == 0 {
        Ok(Seq::empty())
    } else {
        match spec_decode_field(p) {
            Ok((f, rest)) => if rest.len() < p.len() {
                match spec_decode_payload(rest) {
                    Ok(fs) => Ok(seq![f] + fs),
                    Err(e) => Err(e),
                }
            } else {
                Err(FrameErrorKind::TruncatedField)
            },
            Err(e) => Err(e),
        }
    }
}

/// Reads a preamble from the front of `input`: `None` while fewer than five
/// bytes are present, otherwise the declared payload length, or a checksum error.
pub open spec fn spec_decode_preamble(input: Seq<u8>) -> Result<Option<nat>, FrameErrorKind> {
    if input.len() < 5 {
        Ok(None)
    } else {
        let length = input.subrange(1, 5);
        if input[0] != check_byte(length) {
            Err(FrameErrorKind::Checksum { expected: check_byte(length), found: input[0] })
        } else {
            Ok(Some(le_value(length) as nat))
        }
    }
}

/// Decodes the frame at the front of `input`: `Ok(None)` for an incomplete
/// buffer, otherwise the fields and the number of bytes the frame occupies.
pub open spec fn spec_decode(input: Seq<u8>) -> Result<Option<(Seq<FieldView>, nat)>, FrameErrorKind> {
    match spec_decode_preamble(input) {
        Err(e) => Err(e),
        Ok(None) => Ok(None),
        Ok(Some(payload_len)) => if input.len() < 5 + payload_len {
            Ok(None)
        } else {
            match spec_decode_payload(input.subrange(5, 5 + payload_len as int)) {
                Ok(fs) => Ok(Some((fs, (5 + payload_len) as nat))),
                Err(e) => Err(e),
            }
        },
    }
}

/// A lowercase hexadecimal digit for `n < 16`.
pub open spec fn hex_digit(n: u8) -> char {
    if n < 10 {
        (n + 48) as char
    } else {
        (n + 87) as char
    }
}

/// The `escape_default` rendering of one byte: the common control and quote
/// characters as backslash escapes, printable ASCII as itself, and anything
/// else as `\xNN`.
pub open spec fn escape_byte(b: u8) -> Seq<char> {
    if b == 0x09 {
        seq!['\\', 't']
    } else if b == 0x0d {
        seq!['\\', 'r']
    } else if b == 0x0a {
        seq!['\\', 'n']
    } else if b == 0x27 {
        seq!['\\', '\'']
    } else if b == 0x22 {
        seq!['\\', '"']
    } else if b == 0x5c {
        seq!['\\', '\\']
    } else if 0x20 <= b <= 0x7e {
        seq![b as char]
    } else {
        seq!['\\', 'x', hex_digit(b / 16), hex_digit(b % 16)]
    }
}

/// The escaped rendering of a byte string.
pub open spec fn escape_bytes(s: Seq<u8>) -> Seq<char>
    decreases s.len(),
{
    if s.len() == 0 {
        Seq::empty()
    } else {
        escape_bytes(s.drop_last()) + escape_byte(s.last())
    }
}

/// A byte string shown as escaped text between double quotes.
pub open spec fn quoted(s: Seq<u8>) -> Seq<char> {
    seq!['"'] + escape_bytes(s) + seq!['"']
}

// ---------------------------------------------------------------------------
// Types.
// ---------------------------------------------------------------------------

/// One name/value pair within a [`Message`]; both halves are raw bytes.
#[derive(Clone, Debug, PartialEq, Eq)]
pub struct Field {
    name: Vec<u8>,
    value: Vec<u8>,
}

impl View for Field {
    type V = FieldView;

    closed spec fn view(&self) -> FieldView {
        (self.name@, self.value@)
    }
}

/// A single framed RPC message: an ordered list of [`Field`]s.
#[derive(Clone, Debug, PartialEq, Eq)]
pub struct Message {
    fields: Vec<Field>,
}

/// The abstract value of a list of fields.
pub open spec fn fields_view(fields: Seq<Field>) -> Seq<FieldView> {
    fields.map_values(|f: Field| f@)
}

impl View for Message {
    type V = Seq<FieldView>;

    closed spec fn view(&self) -> Seq<FieldView> {
        fields_view(self.fields@)
    }
}

/// The value of the first field named `name`, in wire order.
pub open spec fn spec_value(fields: Seq<FieldView>, name: Seq<u8>) -> Option<Seq<u8>>
    decreases fields.len(),
{
    if fields.len() == 0 {
        None
    } else if fields[0].0 == name {
        Some(fields[0].1)
    } else {
        spec_value(fields.drop_first(), name)
    }
}

/// A message decoded from a buffer, paired with how many bytes it consumed.
#[derive(Clone, Debug, PartialEq, Eq)]
pub struct Decoded {
    /// The message parsed from the buffer.
    pub message: Message,
    /// How many leading bytes of the input the frame occupied.
    pub consumed: usize,
}

/// An error from decoding malformed RPC frame bytes.
#[derive(Debug)]
pub struct FrameError {
    kind: FrameErrorKind,
}

impl View for FrameError {
    type V = FrameErrorKind;

    closed spec fn view(&self) -> FrameErrorKind {
        self.kind
    }
}

/// The abstract value of what [`decode`] returns.
pub open spec fn decode_result_view(r: Result<Option<Decoded>, FrameError>) -> Result<
    Option<(Seq<FieldView>, nat)>,
    FrameErrorKind,
> {
    match r {
        Ok(Some(d)) => Ok(Some((d.message@, d.consumed as nat))),
        Ok(None) => Ok(None),
        Err(e) => Err(e@),
    }
}

// ---------------------------------------------------------------------------
// Executable code.
// ---------------------------------------------------------------------------

/// Copies `s` into a fresh vector.
fn bytes_to_vec(s: &[u8]) -> (v: Vec<u8>)
    ensures
        v@ == s@,
{
    slice_to_vec(s)
}

/// Appends a lowercase hexadecimal digit for `n < 16`.
fn push_hex_digit(s: &mut String, n: u8)
    requires
        n < 16,
    ensures
        final(s)@ == old(s)@.push(hex_digit(n)),
{
    if n < 10 {
        push_char(s, (n + 48) as char);
    } else {
        push_char(s, (n + 87) as char);
    }
}

/// Appends the `escape_default` rendering of byte `b`.
fn push_escaped(s: &mut String, b: u8)
    ensures
        final(s)@ == old(s)@ + escape_byte(b),
{
    if b == 0x09 {
        push_char(s, '\\');
        push_char(s, 't');
    } else if b == 0x0d {
        push_char(s, '\\');
        push_char(s, 'r');
    } else if b == 0x0a {
        push_char(s, '\\');
        push_char(s, 'n');
    } else if b == 0x27 {
        push_char(s, '\\');
        push_char(s, '\'');
    } else if b == 0x22 {
        push_char(s, '\\');
        push_char(s, '"');
    } else if b == 0x5c {
        push_char(s, '\\');
        push_char(s, '\\');
    } else if 0x20 <= b && b <= 0x7e {
        push_char(s, b as char);
    } else {
        push_char(s, '\\');
        push_char(s, 'x');
        push_hex_digit(s, b / 16);
        push_hex_digit(s, b % 16);
    }
    assert(s@ =~= old(s)@ + escape_byte(b));
}

/// Appends `bytes` as escaped text between double quotes.
fn push_quoted(s: &mut String, bytes: &[u8])
    ensures
        final(s)@ == old(s)@ + quoted(bytes@),
{
    push_char(s, '"');
    let mut i: usize = 0;
    while i < bytes.len()
        invariant
            i <= bytes@.len(),
            s@ == old(s)@ + seq!['"'] + escape_bytes(bytes@.take(i as int)),
        decreases bytes@.len() - i,
    {
        push_escaped(s, bytes[i]);
        proof {
            let t = bytes@.take(i + 1);
            assert(t.drop_last() =~= bytes@.take(i as int));
            assert(t.last() == bytes@[i as int]);
        }
        i += 1;
        assert(s@ =~= old(s)@ + seq!['"'] + escape_bytes(bytes@.take(i as int)));
    }
    assert(bytes@.take(bytes@.len() as int) =~= bytes@);
    push_char(s, '"');
    assert(s@ =~= old(s)@ + quoted(bytes@));
}

impl Field {
    /// Creates a field from a `name` and a `value`.
    pub fn new(name: &[u8], value: &[u8]) -> (f: Field)
        ensures
            f@ == (name@, value@),
    {
        Field { name: bytes_to_vec(name), value: bytes_to_vec(value) }
    }

    /// Returns the field name as raw bytes.
    pub fn name(&self) -> (r: &[u8])
        ensures
            r@ == self@.0,
    {
        self.name.as_slice()
    }

    /// Returns the field value as raw bytes.
    pub fn value(&self) -> (r: &[u8])
        ensures
            r@ == self@.1,
    {
        self.value.as_slice()
    }

    /// Returns the number of payload bytes this field occupies once encoded.
    fn encoded_len(&self) -> (n: usize)
        requires
            spec_field_bytes(self@).len() <= usize::MAX,
        ensures
            n == spec_field_bytes(self@).len(),
    {
        self.name.len() + 1 + LENGTH_LEN + self.value.len() + 1
    }

    /// Appends this field's wire bytes to `out`.
    fn encode_into(&self, out: &mut Vec<u8>)
        requires
            self@.1.len() <= u32::MAX,
        ensures
            final(out)@ == old(out)@ + spec_field_bytes(self@),
    {
        append_bytes(out, self.name.as_slice());
        out.push(0u8);
        let length = encode_u32_le(self.value.len() as u32);
        append_bytes(out, &length);
        append_bytes(out, self.value.as_slice());
        out.push(0u8);
        assert(out@ =~= old(out)@ + spec_field_bytes(self@));
    }

    /// Renders the field readably, as `Field { name: "..", value: ".." }`, each
    /// byte string shown with `escape_default` escapes.
    pub fn debug_text(&self) -> (s: String)
        ensures
            s@ == seq!['F', 'i', 'e', 'l', 'd', ' ', '{', ' ', 'n', 'a', 'm', 'e', ':', ' ']
                + quoted(self@.0) + seq![',', ' ', 'v', 'a', 'l', 'u', 'e', ':', ' ']
                + quoted(self@.1) + seq![' ', '}'],
    {
        let mut s = String::new();
        s.append("Field { name: ");
        proof {
            reveal_strlit("Field { name: ");
        }
        push_quoted(&mut s, self.name.as_slice());
        s.append(", value: ");
        proof {
            reveal_strlit(", value: ");
        }
        push_quoted(&mut s, self.value.as_slice());
        s.append(" }");
        proof {
            reveal_strlit(" }");
        }
        assert(s@ =~= seq!['F', 'i', 'e', 'l', 'd', ' ', '{', ' ', 'n', 'a', 'm', 'e', ':', ' ']
            + quoted(self@.0) + seq![',', ' ', 'v', 'a', 'l', 'u', 'e', ':', ' ']
            + quoted(self@.1) + seq![' ', '}']);
        s
    }
}

impl Message {
    /// Creates an empty message with no fields.
    pub fn new() -> (m: Message)
        ensures
            m@ == Seq::<FieldView>::empty(),
    {
        let m = Message { fields: Vec::new() };
        assert(m@ =~= Seq::<FieldView>::empty());
        m
    }

    /// Appends a field built from `name` and `value` and returns the message.
    pub fn with(self, name: &[u8], value: &[u8]) -> (m: Message)
        ensures
            m@ == self@.push((name@, value@)),
    {
        let mut m = self;
        m.push(Field::new(name, value));
        m
    }

    /// Appends an already-built [`Field`] in place.
    pub fn push(&mut self, field: Field)
        ensures
            final(self)@ == old(self)@.push(field@),
    {
        self.fields.push(field);
        assert(fields_view(self.fields@) =~= fields_view(old(self).fields@).push(field@));
    }

    /// Returns the message's fields in wire order.
    pub fn fields(&self) -> (r: &[Field])
        ensures
            fields_view(r@) == self@,
    {
        self.fields.as_slice()
    }

    /// Returns the value of the first field named `name`, if present.
    pub fn value(&self, name: &[u8]) -> (r: Option<&[u8]>)
        ensures
            match r {
                Some(v) => spec_value(self@, name@) == Some(v@),
                None => spec_value(self@, name@) is None,
            },
    {
        let ghost all = self@;
        let mut i: usize = 0;
        assert(all.skip(0) =~= all);
        while i < self.fields.len()
            invariant
                i <= self.fields@.len(),
                all == fields_view(self.fields@),
                spec_value(all, name@) == spec_value(all.skip(i as int), name@),
            decreases self.fields@.len() - i,
        {
            let field = &self.fields[i];
            assert(all.skip(i as int)[0] == field@);
            assert(all.skip(i as int).drop_first() =~= all.skip(i + 1));
            if bytes_eq(field.name.as_slice(), name) {
                return Some(field.value.as_slice());
            }
            i += 1;
        }
        None
    }

    /// Returns `true` when the message can be framed: its payload fits the
    /// u32 length field.
    pub fn is_encodable(&self) -> (b: bool)
        ensures
            b == encodable(self@),
    {
        let ghost all = self@;
        let mut total: u64 = 0;
        let mut i: usize = 0;
        while i < self.fields.len()
            invariant
                i <= self.fields@.len(),
                all == fields_view(self.fields@),
                total == spec_payload(all.take(i as int)).len(),
                total <= u32::MAX,
            decreases self.fields@.len() - i,
        {
            proof {
                lemma_payload_push(all.take(i as int), all[i as int]);
                assert(all.take(i as int).push(all[i as int]) =~= all.take(i + 1));
            }
            let field = &self.fields[i];
            assert(all[i as int] == field@);
            let name_len = field.name.len();
            let value_len = field.value.len();
            if name_len > 0xffff_ffffusize || value_len > 0xffff_ffffusize {
                proof {
                    lemma_field_len_bound(all, i as int);
                }
                return false;
            }
            let n = name_len as u64 + value_len as u64 + 6;
            if n > 0xffff_ffffu64 - total {
                proof {
                    lemma_payload_prefix_len(all, i + 1);
                }
                return false;
            }
            total = total + n;
            i += 1;
        }
        assert(all.take(i as int) =~= all);
        true
    }

    /// Returns the number of payload bytes this message's fields occupy.
    fn payload_len(&self) -> (n: usize)
        requires
            encodable(self@),
        ensures
            n == spec_payload(self@).len(),
    {
        let ghost all = self@;
        let mut total: usize = 0;
        let mut i: usize = 0;
        while i < self.fields.len()
            invariant
                i <= self.fields@.len(),
                all == fields_view(self.fields@),
                spec_payload(all).len() <= u32::MAX,
                total == spec_payload(all.take(i as int)).len(),
            decreases self.fields@.len() - i,
        {
            proof {
                lemma_payload_push(all.take(i as int), all[i as int]);
                assert(all.take(i as int).push(all[i as int]) =~= all.take(i + 1));
                lemma_payload_prefix_len(all, i + 1);
            }
            total = total + self.fields[i].encoded_len();
            i += 1;
        }
        assert(all.take(i as int) =~= all);
        total
    }
}

/// Encodes a `u32` as four little-endian bytes.
pub fn encode_u32_le(value: u32) -> (b: [u8; 4])
    ensures
        b@ == le_bytes(value),
{
    let b = [value as u8, (value >> 8u32) as u8, (value >> 16u32) as u8, (value >> 24u32) as u8];
    assert(b@ =~= le_bytes(value));
    b
}

/// Decodes four little-endian bytes into a `u32`.
pub fn decode_u32_le(bytes: [u8; 4]) -> (v: u32)
    ensures
        v == le_value(bytes@),
{
    (bytes[0] as u32) | ((bytes[1] as u32) << 8u32) | ((bytes[2] as u32) << 16u32) | ((
    bytes[3] as u32) << 24u32)
}

/// Builds the 5-byte preamble for the little-endian payload length `length`.
pub fn encode_preamble(length: [u8; 4]) -> (p: [u8; 5])
    ensures
        p@ == spec_preamble(length@),
{
    let check = length[0] ^ length[1] ^ length[2] ^ length[3];
    let p = [check, length[0], length[1], length[2], length[3]];
    assert(p@ =~= spec_preamble(length@));
    p
}

/// Reads and validates a preamble, returning the payload length it declares.
pub fn decode_preamble(input: &[u8]) -> (r: Result<Option<usize>, FrameError>)
    ensures
        match r {
            Ok(Some(n)) => spec_decode_preamble(input@) == Ok::<Option<nat>, FrameErrorKind>(
                Some(n as nat),
            ),
            Ok(None) => spec_decode_preamble(input@) == Ok::<Option<nat>, FrameErrorKind>(None),
            Err(e) => spec_decode_preamble(input@) == Err::<Option<nat>, FrameErrorKind>(e@),
        },
{
    if input.len() < PREAMBLE_LEN {
        return Ok(None);
    }
    let check = input[0];
    let length: [u8; 4] = [input[1], input[2], input[3], input[4]];
    assert(length@ =~= input@.subrange(1, 5));
    let expected = length[0] ^ length[1] ^ length[2] ^ length[3];
    if check != expected {
        return Err(FrameError::checksum(expected, check));
    }
    let v = decode_u32_le(length);
    Ok(Some(v as usize))
}

/// Returns the index of the first null byte of `bytes[start..end]`, if any.
fn find_null(bytes: &[u8], start: usize, end: usize) -> (r: Option<usize>)
    requires
        start <= end <= bytes@.len(),
    ensures
        match r {
            Some(k) => start <= k < end && is_first_null(
                bytes@.subrange(start as int, end as int),
                k - start,
            ),
            None => forall|j: int| start <= j < end ==> bytes@[j] != 0u8,
        },
{
    let mut k: usize = start;
    while k < end
        invariant
            start <= k <= end,
            end <= bytes@.len(),
            forall|j: int| start <= j < k ==> bytes@[j] != 0u8,
        decreases end - k,
    {
        if bytes[k] == 0 {
            return Some(k);
        }
        k += 1;
    }
    None
}

/// Parses the field at `bytes[start..end]`, returning it and where the rest begins.
fn decode_field(bytes: &[u8], start: usize, end: usize) -> (r: Result<(Field, usize), FrameError>)
    requires
        start < end <= bytes@.len(),
    ensures
        match r {
            Ok((f, next)) => start < next <= end && spec_decode_field(
                bytes@.subrange(start as int, end as int),
            ) == Ok::<(FieldView, Seq<u8>), FrameErrorKind>(
                (f@, bytes@.subrange(next as int, end as int)),
            ),
            Err(e) => spec_decode_field(bytes@.subrange(start as int, end as int)) == Err::<
                (FieldView, Seq<u8>),
                FrameErrorKind,
            >(e@),
        },
{
    reveal(spec_decode_field);
    let ghost p = bytes@.subrange(start as int, end as int);
    let name_end = match find_null(bytes, start, end) {
        Some(k) => k,
        None => {
            assert forall|i: int| !is_first_null(p, i) by {
                if 0 <= i < p.len() {
                    assert(p[i] == bytes@[start + i]);
                }
            }
            return Err(FrameError::truncated_field());
        },
    };
    let ghost n = name_end - start;
    proof {
        assert(is_first_null(p, n as int));
        let c = choose|i: int| is_first_null(p, i);
        assert(c == n) by {
            if c < n {
                assert(p[c] != 0u8);
            } else if c > n {
                assert(p[n as int] != 0u8);
            }
        }
    }
    let after_name = name_end + 1;
    let ghost an = p.skip(n + 1);
    assert(an =~= bytes@.subrange(after_name as int, end as int));
    if end - after_name < LENGTH_LEN {
        return Err(FrameError::truncated_field());
    }
    let length_bytes: [u8; 4] = [
        bytes[after_name],
        bytes[after_name + 1],
        bytes[after_name + 2],
        bytes[after_name + 3],
    ];
    let value_len = decode_u32_le(length_bytes) as usize;
    assert(le_value(length_bytes@) == le_value(an));
    let after_length = after_name + LENGTH_LEN;
    let ghost al = an.skip(4);
    assert(al =~= bytes@.subrange(after_length as int, end as int));
    if end - after_length < value_len {
        return Err(FrameError::truncated_field());
    }
    let after_value = after_length + value_len;
    let ghost av = al.skip(value_len as int);
    assert(av =~= bytes@.subrange(after_value as int, end as int));
    if after_value == end {
        return Err(FrameError::truncated_field());
    }
    let terminator = bytes[after_value];
    assert(av[0] == terminator);
    if terminator != 0 {
        return Err(FrameError::missing_terminator(terminator));
    }
    let name = bytes_to_vec(slice_subrange(bytes, start, name_end));
    let value = bytes_to_vec(slice_subrange(bytes, after_length, after_value));
    assert(name@ =~= p.take(n as int));
    assert(value@ =~= al.take(value_len as int));
    assert(av.skip(1) =~= bytes@.subrange(after_value + 1, end as int));
    Ok((Field { name, value }, after_value + 1))
}

/// Parses `bytes[start..end]` into a message, requiring it to be consumed exactly.
fn decode_payload(bytes: &[u8], start: usize, end: usize) -> (r: Result<Message, FrameError>)
    requires
        start <= end <= bytes@.len(),
    ensures
        match r {
            Ok(m) => spec_decode_payload(bytes@.subrange(start as int, end as int)) == Ok::<
                Seq<FieldView>,
                FrameErrorKind,
            >(m@),
            Err(e) => spec_decode_payload(bytes@.subrange(start as int, end as int)) == Err::<
                Seq<FieldView>,
                FrameErrorKind,
            >(e@),
        },
{
    let ghost whole = bytes@.subrange(start as int, end as int);
    let mut message = Message::new();
    let mut pos = start;
    while pos < end
        invariant
            start <= pos <= end <= bytes@.len(),
            whole == bytes@.subrange(start as int, end as int),
            match spec_decode_payload(bytes@.subrange(pos as int, end as int)) {
                Ok(fs) => spec_decode_payload(whole) == Ok::<Seq<FieldView>, FrameErrorKind>(
                    message@ + fs,
                ),
                Err(e) => spec_decode_payload(whole) == Err::<Seq<FieldView>, FrameErrorKind>(e),
            },
        decreases end - pos,
    {
        let ghost cur = bytes@.subrange(pos as int, end as int);
        match decode_field(bytes, pos, end) {
            Ok((field, next)) => {
                let ghost old_msg = message@;
                proof {
                    let rest = bytes@.subrange(next as int, end as int);
                    assert(rest.len() < cur.len());
                    match spec_decode_payload(rest) {
                        Ok(fs) => {
                            assert(old_msg + (seq![field@] + fs) =~= old_msg.push(field@) + fs);
                        },
                        Err(e) => {},
                    }
                }
                message.push(field);
                pos = next;
            },
            Err(e) => {
                return Err(e);
            },
        }
    }
    assert(bytes@.subrange(pos as int, end as int) =~= Seq::<u8>::empty());
    assert(message@ + Seq::<FieldView>::empty() =~= message@);
    Ok(message)
}

/// Encodes a [`Message`] into a fresh `Vec<u8>` ready to write to the wire.
///
/// The result is the 5-byte preamble followed by the concatenated field
/// payload. The payload must fit the u32 length field.
pub fn encode(message: &Message) -> (out: Vec<u8>)
    requires
        encodable(message@),
    ensures
        out@ == spec_encode(message@),
{
    let ghost all = message@;
    let payload_len = message.payload_len();
    let length = encode_u32_le(payload_len as u32);
    let preamble = encode_preamble(length);
    let mut out: Vec<u8> = Vec::new();
    append_bytes(&mut out, &preamble);
    let mut i: usize = 0;
    while i < message.fields.len()
        invariant
            i <= message.fields@.len(),
            all == fields_view(message.fields@),
            spec_payload(all).len() <= u32::MAX,
            preamble@ == spec_preamble(le_bytes(spec_payload(all).len() as u32)),
            out@ == preamble@ + spec_payload(all.take(i as int)),
        decreases message.fields@.len() - i,
    {
        proof {
            lemma_payload_push(all.take(i as int), all[i as int]);
            assert(all.take(i as int).push(all[i as int]) =~= all.take(i + 1));
            lemma_payload_prefix_len(all, i + 1);
            lemma_field_len_bound(all.take(i + 1), i as int);
        }
        assert(all[i as int] == message.fields@[i as int]@);
        message.fields[i].encode_into(&mut out);
        i += 1;
        assert(out@ =~= preamble@ + spec_payload(all.take(i as int)));
    }
    assert(all.take(i as int) =~= all);
    out
}

/// Decodes a single framed message from the front of `input`.
///
/// Returns `Ok(None)` when the buffer holds only part of a frame, the decoded
/// message and the bytes it occupied when a whole frame is present, and an
/// error when the bytes present are not a valid frame.
pub fn decode(input: &[u8]) -> (r: Result<Option<Decoded>, FrameError>)
    ensures
        decode_result_view(r) == spec_decode(input@),
{
    let payload_len = match decode_preamble(input) {
        Err(e) => {
            return Err(e);
        },
        Ok(None) => {
            return Ok(None);
        },
        Ok(Some(n)) => n,
    };
    if input.len() - PREAMBLE_LEN < payload_len {
        return Ok(None);
    }
    let frame_len = PREAMBLE_LEN + payload_len;
    match decode_payload(input, PREAMBLE_LEN, frame_len) {
        Ok(message) => Ok(Some(Decoded { message, consumed: frame_len })),
        Err(e) => Err(e),
    }
}

impl FrameError {
    /// Creates a checksum-mismatch error from the expected and found check bytes.
    fn checksum(expected: u8, found: u8) -> (e: FrameError)
        ensures
            e@ == (FrameErrorKind::Checksum { expected, found }),
    {
        FrameError { kind: FrameErrorKind::Checksum { expected, found } }
    }

    /// Creates a truncated-field error.
    fn truncated_field() -> (e: FrameError)
        ensures
            e@ == FrameErrorKind::TruncatedField,
    {
        FrameError { kind: FrameErrorKind::TruncatedField }
    }

    /// Creates a missing-terminator error from the byte found where a null was due.
    fn missing_terminator(found: u8) -> (e: FrameError)
        ensures
            e@ == (FrameErrorKind::MissingTerminator { found }),
    {
        FrameError { kind: FrameErrorKind::MissingTerminator { found } }
    }

    /// Returns `true` if the preamble's check byte did not match its length.
    pub fn is_checksum(&self) -> (b: bool)
        ensures
            b == (self@ is Checksum),
    {
        match self.kind {
            FrameErrorKind::Checksum { .. } => true,
            _ => false,
        }
    }

    /// Returns `true` if a field ended before its name, length, or value was complete.
    pub fn is_truncated_field(&self) -> (b: bool)
        ensures
            b == (self@ is TruncatedField),
    {
        match self.kind {
            FrameErrorKind::TruncatedField => true,
            _ => false,
        }
    }

    /// Returns `true` if a field value lacked its required null terminator.
    pub fn is_missing_terminator(&self) -> (b: bool)
        ensures
            b == (self@ is MissingTerminator),
    {
        match self.kind {
            FrameErrorKind::MissingTerminator { .. } => true,
            _ => false,
        }
    }
}

/// A byte as `{:#04x}` renders it: `0x` and two lowercase hex digits.
pub open spec fn hex_byte(b: u8) -> Seq<char> {
    seq!['0', 'x', hex_digit(b / 16), hex_digit(b % 16)]
}

/// The one-line diagnostic for each framing failure.
pub open spec fn frame_error_text(kind: FrameErrorKind) -> Seq<char> {
    match kind {
        FrameErrorKind::Checksum { expected, found } => "rpc preamble checksum mismatch: expected "@
            + hex_byte(expected) + ", found "@ + hex_byte(found),
        FrameErrorKind::TruncatedField => "rpc field ended before its name, length, or value was complete"@,
        FrameErrorKind::MissingTerminator { found } => "rpc field value missing its null terminator, found "@
            + hex_byte(found),
    }
}

/// Appends `b` as `0x` and two lowercase hex digits.
fn push_hex_byte(s: &mut String, b: u8)
    ensures
        final(s)@ == old(s)@ + hex_byte(b),
{
    push_char(s, '0');
    push_char(s, 'x');
    push_hex_digit(s, b / 16);
    push_hex_digit(s, b % 16);
    assert(s@ =~= old(s)@ + hex_byte(b));
}

impl FrameError {
    /// Renders the frame error as a single diagnostic line.
    pub fn to_string(&self) -> (s: String)
        ensures
            s@ == frame_error_text(self@),
    {
        let mut s = String::new();
        match self.kind {
            FrameErrorKind::Checksum { expected, found } => {
                push_str(&mut s, "rpc preamble checksum mismatch: expected ");
                push_hex_byte(&mut s, expected);
                push_str(&mut s, ", found ");
                push_hex_byte(&mut s, found);
            },
            FrameErrorKind::TruncatedField => {
                push_str(&mut s, "rpc field ended before its name, length, or value was complete");
            },
            FrameErrorKind::MissingTerminator { found } => {
                push_str(&mut s, "rpc field value missing its null terminator, found ");
                push_hex_byte(&mut s, found);
            },
        }
        assert(s@ =~= frame_error_text(self@));
        s
    }
}

// ---------------------------------------------------------------------------
// Lemmas and laws.
// ---------------------------------------------------------------------------

/// Appending a field to a list appends its bytes to the payload.
pub proof fn lemma_payload_push(fields: Seq<FieldView>, f: FieldView)
    ensures
        spec_payload(fields.push(f)) == spec_payload(fields) + spec_field_bytes(f),
    decreases fields.len(),
{
    if fields.len() == 0 {
        assert(fields.push(f).drop_first() =~= Seq::<FieldView>::empty());
        assert(fields.push(f)[0] == f);
        assert(spec_payload(Seq::<FieldView>::empty()) == Seq::<u8>::empty());
        assert(spec_payload(fields) == Seq::<u8>::empty());
        assert(spec_payload(fields.push(f)) =~= spec_field_bytes(f));
    } else {
        lemma_payload_push(fields.drop_first(), f);
        assert(fields.push(f).drop_first() =~= fields.drop_first().push(f));
        assert(spec_payload(fields.push(f)) =~= spec_payload(fields) + spec_field_bytes(f));
    }
}

/// The payload of a prefix of the fields is no longer than the whole payload.
pub proof fn lemma_payload_prefix_len(fields: Seq<FieldView>, k: int)
    requires
        0 <= k <= fields.len(),
    ensures
        spec_payload(fields.take(k)).len() <= spec_payload(fields).len(),
    decreases fields.len(),
{
    if k == fields.len() {
        assert(fields.take(k) =~= fields);
    } else if k == 0 {
        assert(fields.take(k) =~= Seq::<FieldView>::empty());
    } else {
        lemma_payload_prefix_len(fields.drop_first(), k - 1);
        assert(fields.take(k).drop_first() =~= fields.drop_first().take(k - 1));
    }
}

/// Each field's bytes fit inside the payload they belong to.
proof fn lemma_field_len_bound(fields: Seq<FieldView>, i: int)
    requires
        0 <= i < fields.len(),
    ensures
        spec_field_bytes(fields[i]).len() <= spec_payload(fields).len(),
    decreases fields.len(),
{
    if i > 0 {
        lemma_field_len_bound(fields.drop_first(), i - 1);
    }
}

/// The little-endian bytes of a `u32` read back to the same value.
pub proof fn lemma_le_roundtrip(v: u32)
    ensures
        le_value(le_bytes(v)) == v,
{
    let b = le_bytes(v);
    assert(b[0] == v as u8 && b[1] == (v >> 8u32) as u8 && b[2] == (v >> 16u32) as u8 && b[3] == (v
        >> 24u32) as u8);
    assert(((v as u8) as u32) | ((((v >> 8u32) as u8) as u32) << 8u32) | ((((v >> 16u32) as u8)
        as u32) << 16u32) | ((((v >> 24u32) as u8) as u32) << 24u32) == v) by (bit_vector);
}

/// Four bytes read as a little-endian `u32` and written back give the same bytes.
pub proof fn lemma_le_bytes_of_value(b: Seq<u8>)
    requires
        b.len() >= 4,
    ensures
        le_bytes(le_value(b)) == b.take(4),
{
    let (b0, b1, b2, b3) = (b[0], b[1], b[2], b[3]);
    let v = le_value(b);
    assert(v == (b0 as u32) | ((b1 as u32) << 8u32) | ((b2 as u32) << 16u32) | ((b3 as u32)
        << 24u32));
    assert(v as u8 == b0 && (v >> 8u32) as u8 == b1 && (v >> 16u32) as u8 == b2 && (v >> 24u32)
        as u8 == b3) by (bit_vector)
        requires
            v == (b0 as u32) | ((b1 as u32) << 8u32) | ((b2 as u32) << 16u32) | ((b3 as u32)
                << 24u32),
    ;
    assert(le_bytes(v) =~= b.take(4));
}

/// Splitting bytes at the field layout's boundaries and joining the pieces
/// back gives the field's wire bytes followed by the rest.
proof fn lemma_field_pieces(p: Seq<u8>, n: int, value_len: int)
    requires
        0 <= n < p.len(),
        p[n] == 0u8,
        p.skip(n + 1).len() >= 4,
        value_len == le_value(p.skip(n + 1)) as int,
        p.skip(n + 1).skip(4).len() > value_len,
        p.skip(n + 1).skip(4).skip(value_len)[0] == 0u8,
    ensures
        p == spec_field_bytes((p.take(n), p.skip(n + 1).skip(4).take(value_len)))
            + p.skip(n + 1).skip(4).skip(value_len).skip(1),
{
    let after_name = p.skip(n + 1);
    let after_length = after_name.skip(4);
    let value = after_length.take(value_len);
    let after_value = after_length.skip(value_len);
    let rest = after_value.skip(1);
    lemma_le_bytes_of_value(after_name);
    assert(value.len() as u32 == le_value(after_name));
    assert(after_name =~= after_name.take(4) + after_length);
    assert(after_length =~= value + after_value);
    assert(after_value =~= seq![0u8] + rest);
    assert(p =~= p.take(n) + seq![0u8] + after_name);
    assert(p =~= p.take(n) + seq![0u8] + le_bytes(value.len() as u32) + value + seq![0u8] + rest);
}

/// A parsed field is exactly the wire bytes of that field, followed by the
/// rest: its name holds no null byte and its value length fits a `u32`.
pub proof fn lemma_decode_field_exact(p: Seq<u8>)
    ensures
        spec_decode_field(p) matches Ok((f, rest)) ==> p == spec_field_bytes(f) + rest && f.1.len()
            <= u32::MAX && forall|j: int| 0 <= j < f.0.len() ==> f.0[j] != 0u8,
{
    reveal(spec_decode_field);
    if exists|i: int| is_first_null(p, i) {
        let n = choose|i: int| is_first_null(p, i);
        let after_name = p.skip(n + 1);
        if after_name.len() >= 4 {
            let value_len = le_value(after_name) as int;
            let after_length = after_name.skip(4);
            if after_length.len() >= value_len {
                let after_value = after_length.skip(value_len);
                if after_value.len() > 0 && after_value[0] == 0u8 {
                    lemma_field_pieces(p, n, value_len);
                    assert forall|j: int| 0 <= j < p.take(n).len() implies p.take(n)[j] != 0u8 by {
                        assert(p.take(n)[j] == p[j]);
                    }
                }
            }
        }
    }
}

/// Decoding the bytes of a field, followed by anything, gives back that field
/// and the bytes that followed, provided its name holds no null byte.
pub proof fn lemma_decode_field_bytes(f: FieldView, rest: Seq<u8>)
    requires
        forall|j: int| 0 <= j < f.0.len() ==> f.0[j] != 0u8,
        f.1.len() <= u32::MAX,
    ensures
        spec_decode_field(spec_field_bytes(f) + rest) == Ok::<(FieldView, Seq<u8>), FrameErrorKind>(
            (f, rest),
        ),
{
    reveal(spec_decode_field);
    let p = spec_field_bytes(f) + rest;
    let n = f.0.len() as int;
    assert(is_first_null(p, n));
    let c = choose|i: int| is_first_null(p, i);
    assert(c == n) by {
        if c < n {
            assert(p[c] == f.0[c]);
        } else if c > n {
            assert(p[n] == 0u8);
        }
    }
    let after_name = p.skip(n + 1);
    assert(after_name =~= le_bytes(f.1.len() as u32) + f.1 + seq![0u8] + rest);
    lemma_le_roundtrip(f.1.len() as u32);
    assert(le_value(after_name) == le_value(le_bytes(f.1.len() as u32)));
    let after_length = after_name.skip(4);
    assert(after_length =~= f.1 + seq![0u8] + rest);
    let after_value = after_length.skip(f.1.len() as int);
    assert(after_value =~= seq![0u8] + rest);
    assert(p.take(n) =~= f.0);
    assert(after_length.take(f.1.len() as int) =~= f.1);
    assert(after_value.skip(1) =~= rest);
}

/// Decoding an encoded payload gives back exactly its fields.
pub proof fn lemma_decode_payload_of_encoded(fields: Seq<FieldView>)
    requires
        names_null_free(fields),
        encodable(fields),
    ensures
        spec_decode_payload(spec_payload(fields)) == Ok::<Seq<FieldView>, FrameErrorKind>(fields),
    decreases fields.len(),
{
    if fields.len() == 0 {
        assert(spec_payload(fields) == Seq::<u8>::empty());
        assert(fields =~= Seq::<FieldView>::empty());
    } else {
        let f = fields[0];
        let tail = fields.drop_first();
        let p = spec_payload(fields);
        let rest = spec_payload(tail);
        assert(p == spec_field_bytes(f) + rest);
        assert(names_null_free(tail)) by {
            assert forall|i: int, j: int|
                0 <= i < tail.len() && 0 <= j < tail[i].0.len() implies tail[i].0[j] != 0u8 by {
                assert(tail[i] == fields[i + 1]);
            }
        }
        assert(forall|j: int| 0 <= j < f.0.len() ==> f.0[j] != 0u8);
        lemma_field_len_bound(fields, 0);
        lemma_decode_field_bytes(f, rest);
        assert(spec_decode_field(p) == Ok::<(FieldView, Seq<u8>), FrameErrorKind>((f, rest)));
        assert(rest.len() < p.len());
        lemma_decode_payload_of_encoded(tail);
        assert(spec_decode_payload(rest) == Ok::<Seq<FieldView>, FrameErrorKind>(tail));
        assert(seq![f] + tail =~= fields);
    }
}

/// Law: a frame is decoded back to the message it encodes, and decoding stops
/// at that frame's end whatever bytes follow it (coalesced frames are drained
/// one at a time). Holds for every message whose field names hold no null
/// byte and whose payload fits the u32 length field.
pub proof fn law_decode_encode(fields: Seq<FieldView>, rest: Seq<u8>)
    requires
        names_null_free(fields),
        encodable(fields),
    ensures
        spec_decode(spec_encode(fields) + rest) == Ok::<Option<(Seq<FieldView>, nat)>, FrameErrorKind>(
            Some((fields, spec_encode(fields).len()))),
{
    let payload = spec_payload(fields);
    let input = spec_encode(fields) + rest;
    let length = le_bytes(payload.len() as u32);
    assert(input.subrange(1, 5) =~= length);
    lemma_le_roundtrip(payload.len() as u32);
    assert(input.subrange(5, 5 + payload.len() as int) =~= payload);
    lemma_decode_payload_of_encoded(fields);
}

/// A parsed payload is exactly the payload bytes of its fields, none of whose
/// names holds a null byte.
pub proof fn lemma_decode_payload_exact(p: Seq<u8>)
    ensures
        spec_decode_payload(p) matches Ok(fields) ==> spec_payload(fields) == p && names_null_free(
            fields,
        ),
    decreases p.len(),
{
    if p.len() > 0 {
        lemma_decode_field_exact(p);
        if let Ok((f, rest)) = spec_decode_field(p) {
            if rest.len() < p.len() {
                lemma_decode_payload_exact(rest);
                if let Ok(tail) = spec_decode_payload(rest) {
                    let fields = seq![f] + tail;
                    assert(fields[0] == f);
                    assert(fields.drop_first() =~= tail);
                    assert(spec_payload(fields) == spec_field_bytes(f) + spec_payload(tail));
                    assert forall|i: int, j: int|
                        0 <= i < fields.len() && 0 <= j < fields[i].0.len() implies fields[i].0[j]
                        != 0u8 by {
                        if i > 0 {
                            assert(fields[i] == tail[i - 1]);
                        }
                    }
                }
            }
        }
    } else {
        assert(spec_payload(Seq::<FieldView>::empty()) == Seq::<u8>::empty());
        assert(p =~= Seq::<u8>::empty());
    }
}

/// Law: decoding is exact. A decoded frame re-encodes to exactly the bytes
/// it occupied at the front of the input, and its field names hold no null
/// byte, so `encode` and `decode` are inverse in both directions.
pub proof fn law_encode_decode(input: Seq<u8>)
    ensures
        spec_decode(input) matches Ok(Some((fields, consumed))) ==> spec_encode(fields)
            == input.take(consumed as int) && names_null_free(fields) && encodable(fields),
{
    if let Ok(Some((fields, consumed))) = spec_decode(input) {
        let length = input.subrange(1, 5);
        let payload_len = le_value(length) as int;
        let payload = input.subrange(5, 5 + payload_len);
        lemma_decode_payload_exact(payload);
        assert(spec_payload(fields) == payload);
        lemma_le_bytes_of_value(length);
        assert(length.take(4) =~= length);
        assert(spec_payload(fields).len() as u32 == le_value(length));
        assert(spec_preamble(length) =~= input.take(5));
        assert(spec_encode(fields) =~= input.take(5 + payload_len));
    }
}

/// Law: every strict prefix of a frame is reported as incomplete (`Ok(None)`),
/// never as an error, so a reader can wait for more bytes.
pub proof fn law_decode_partial_frame(fields: Seq<FieldView>, k: int)
    requires
        encodable(fields),
        0 <= k < spec_encode(fields).len(),
    ensures
        spec_decode(spec_encode(fields).take(k)) == Ok::<Option<(Seq<FieldView>, nat)>, FrameErrorKind>(
            None),
{
    let payload = spec_payload(fields);
    let input = spec_encode(fields).take(k);
    if k >= 5 {
        let length = le_bytes(payload.len() as u32);
        assert(input.subrange(1, 5) =~= length);
        lemma_le_roundtrip(payload.len() as u32);
    }
}

/// Law: the preamble check byte of every encoded frame is the XOR of its four
/// length bytes, and those bytes give the payload length.
pub proof fn law_preamble_check(fields: Seq<FieldView>)
    requires
        encodable(fields),
    ensures
        spec_encode(fields)[0] == check_byte(spec_encode(fields).subrange(1, 5)),
        le_value(spec_encode(fields).subrange(1, 5)) == spec_payload(fields).len(),
        spec_encode(fields).len() == PREAMBLE_LEN + spec_payload(fields).len(),
{
    let payload = spec_payload(fields);
    let length = le_bytes(payload.len() as u32);
    assert(spec_encode(fields).subrange(1, 5) =~= length);
    lemma_le_roundtrip(payload.len() as u32);
}

} // verus!
