//! Encoder for the subset of Python's `marshal` format that `p4 -G` emits.
//!
//! For one tagged record `p4` writes one marshalled dictionary whose keys and
//! values are all strings:
//!
//! ```text
//! '{'                      TYPE_DICT opens the dict
//! ( <string> <string> )*   key then value, in insertion order
//! '0'                      TYPE_NULL terminates the dict
//! ```
//!
//! and each `<string>` is `'s'`, a little-endian `u32` byte length, then the
//! bytes.
use vstd::prelude::*;
use vstd::utf8::encode_utf8;

use crate::frame::{encode_u32_le, le_bytes, le_value, lemma_le_roundtrip};
use crate::output::{pairs_view, RecordView};
use crate::text::append_bytes;

verus! {

/// `marshal` type tag opening a dictionary (`'{'`).
pub const TYPE_DICT: u8 = 0x7b;

/// `marshal` type tag for a byte string (`'s'`).
pub const TYPE_STRING: u8 = 0x73;

/// `marshal` type tag for `None` (`'0'`), which ends a dictionary's entries.
pub const TYPE_DICT_TERMINATOR: u8 = 0x30;

/// One marshalled string: the `'s'` tag, the little-endian `u32` byte length,
/// then the bytes.
pub open spec fn marshal_string(b: Seq<u8>) -> Seq<u8> {
    seq![TYPE_STRING] + le_bytes(b.len() as u32) + b
}

/// The marshalled key/value entries of a record, in order.
pub open spec fn marshal_entries(fields: RecordView) -> Seq<u8>
    decreases fields.len(),
{
    if fields.len() == 0 {
        Seq::empty()
    } else {
        marshal_entries(fields.drop_last()) + marshal_string(encode_utf8(fields.last().0))
            + marshal_string(encode_utf8(fields.last().1))
    }
}

/// One marshalled dictionary of strings.
pub open spec fn marshal_dict(fields: RecordView) -> Seq<u8> {
    seq![TYPE_DICT] + marshal_entries(fields) + seq![TYPE_DICT_TERMINATOR]
}

/// Every key and value of `fields` has a UTF-8 length that fits the 32-bit
/// length of a marshalled string.
pub open spec fn marshal_fits(fields: RecordView) -> bool {
    forall|i: int|
        0 <= i < fields.len() ==> encode_utf8(#[trigger] fields[i].0).len() <= u32::MAX
            && encode_utf8(fields[i].1).len() <= u32::MAX
}

/// Writes one `marshal` string: the `'s'` tag, a little-endian `u32` length,
/// then the bytes. The length must fit a `u32`.
pub fn write_string(out: &mut Vec<u8>, bytes: &[u8])
    requires
        bytes@.len() <= u32::MAX,
    ensures
        final(out)@ == old(out)@ + marshal_string(bytes@),
{
    out.push(TYPE_STRING);
    let length = encode_u32_le(bytes.len() as u32);
    append_bytes(out, &length);
    append_bytes(out, bytes);
    assert(out@ =~= old(out)@ + marshal_string(bytes@));
}

/// Writes `fields` as one marshalled dictionary of strings, exactly as `p4 -G`.
pub fn write_string_dict(out: &mut Vec<u8>, fields: &[(String, String)])
    requires
        marshal_fits(pairs_view(fields@)),
    ensures
        final(out)@ == old(out)@ + marshal_dict(pairs_view(fields@)),
{
    let ghost all = pairs_view(fields@);
    out.push(TYPE_DICT);
    let ghost start = out@;
    let mut i: usize = 0;
    while i < fields.len()
        invariant
            i <= fields@.len(),
            all == pairs_view(fields@),
            marshal_fits(all),
            out@ == start + marshal_entries(all.take(i as int)),
        decreases fields@.len() - i,
    {
        let key = fields[i].0.as_str().as_bytes();
        let value = fields[i].1.as_str().as_bytes();
        assert(all[i as int] == (fields@[i as int].0@, fields@[i as int].1@));
        assert(encode_utf8(all[i as int].0).len() <= u32::MAX);
        write_string(out, key);
        write_string(out, value);
        proof {
            let t = all.take(i + 1);
            assert(t.drop_last() =~= all.take(i as int));
            assert(t.last() == all[i as int]);
        }
        i += 1;
        assert(out@ =~= start + marshal_entries(all.take(i as int)));
    }
    assert(all.take(i as int) =~= all);
    out.push(TYPE_DICT_TERMINATOR);
    assert(out@ =~= old(out)@ + marshal_dict(all));
}

/// Law: a marshalled string reads back. It is five bytes longer than the
/// string: the `'s'` tag, then four bytes that read, as a little-endian `u32`,
/// as the string's byte length, then the string's bytes unchanged.
pub proof fn law_marshal_string_reads_back(b: Seq<u8>)
    requires
        b.len() <= u32::MAX,
    ensures
        marshal_string(b).len() == 5 + b.len(),
        marshal_string(b)[0] == 0x73u8,
        le_value(marshal_string(b).subrange(1, 5)) == b.len(),
        marshal_string(b).skip(5) == b,
{
    let m = marshal_string(b);
    lemma_le_roundtrip(b.len() as u32);
    assert(m.subrange(1, 5) =~= le_bytes(b.len() as u32));
    assert(m.skip(5) =~= b);
}

} // verus!
