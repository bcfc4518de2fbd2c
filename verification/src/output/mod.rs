//! The output rendering layer: one tagged record, three renderings.
//!
//! Every command produces tagged data, an ordered set of key/value fields per
//! record ([`Record`]), rendered in one of `p4`'s output modes:
//!
//! - [`OutputMode::Human`]: command-specific text, supplied by the command's
//!   own [`HumanReport`].
//! - [`OutputMode::Tagged`] (`p4 -ztag`): each field as a `... <key> <value>`
//!   line ending in CRLF, with a blank CRLF line after each record.
//! - [`OutputMode::Marshalled`] (`p4 -G`): each record as one Python `marshal`
//!   dictionary of strings, records back to back (see [`marshal`]).
use vstd::prelude::*;
use vstd::utf8::{decode_utf8, encode_utf8, valid_utf8};

use crate::text::append_bytes;

pub mod marshal;

use marshal::{marshal_dict, marshal_fits, write_string_dict};

verus! {

/// The abstract value of a record: its key/value fields in insertion order.
pub type RecordView = Seq<(Seq<char>, Seq<char>)>;

/// The abstract value of a list of string pairs.
pub open spec fn pairs_view(pairs: Seq<(String, String)>) -> RecordView {
    pairs.map_values(|p: (String, String)| (p.0@, p.1@))
}

/// One tagged record: an ordered set of key/value string fields.
///
/// Fields keep their insertion order and duplicate keys are kept as distinct
/// fields.
#[derive(Debug, Clone, Default, PartialEq, Eq)]
pub struct Record {
    fields: Vec<(String, String)>,
}

impl View for Record {
    type V = RecordView;

    closed spec fn view(&self) -> RecordView {
        pairs_view(self.fields@)
    }
}

/// The abstract value of a list of records.
pub open spec fn records_view(records: Seq<Record>) -> Seq<RecordView> {
    records.map_values(|r: Record| r@)
}

impl Record {
    /// Creates an empty record with no fields.
    pub fn new() -> (r: Record)
        ensures
            r@ == RecordView::empty(),
    {
        let r = Record { fields: Vec::new() };
        assert(r@ =~= RecordView::empty());
        r
    }

    /// Appends a `key`/`value` field, preserving insertion order.
    pub fn push(&mut self, key: &str, value: &str)
        ensures
            final(self)@ == old(self)@.push((key@, value@)),
    {
        self.fields.push((key.to_owned(), value.to_owned()));
        assert(pairs_view(self.fields@) =~= pairs_view(old(self).fields@).push((key@, value@)));
    }

    /// Returns the fields in insertion order as `(key, value)` pairs.
    pub fn fields(&self) -> (r: &[(String, String)])
        ensures
            pairs_view(r@) == self@,
    {
        self.fields.as_slice()
    }
}

/// Which of `p4`'s three output renderings to produce.
#[derive(Debug, Clone, Copy, PartialEq, Eq, Structural)]
pub enum OutputMode {
    /// Friendly, command-specific text for a person to read (the default).
    Human,
    /// `p4 -ztag`: each field as a `... <key> <value>` line.
    Tagged,
    /// `p4 -G`: each record as one Python `marshal` dictionary of strings.
    Marshalled,
}

impl OutputMode {
    /// Selects the output mode from the `-G` (`marshalled`) and tagged flags:
    /// `-G` wins, then tagged, then the human default.
    pub fn from_flags(marshalled: bool, tagged: bool) -> (m: OutputMode)
        ensures
            m == (if marshalled {
                OutputMode::Marshalled
            } else if tagged {
                OutputMode::Tagged
            } else {
                OutputMode::Human
            }),
    {
        if marshalled {
            OutputMode::Marshalled
        } else if tagged {
            OutputMode::Tagged
        } else {
            OutputMode::Human
        }
    }
}

/// A command's own human-readable rendering of its records.
pub trait HumanReport {
    /// The bytes of the human-readable view of `records`.
    ///
    /// An implementation states its bytes by defining this; left undefined,
    /// they are an unspecified value that no verified `write_human` can meet.
    closed spec fn human_bytes(&self, records: Seq<RecordView>) -> Seq<u8> {
        vstd::pervasive::arbitrary()
    }

    /// Appends the human-readable view of `records` to `out`.
    fn write_human(&self, out: &mut Vec<u8>, records: &[Record])
        ensures
            final(out)@ == old(out)@ + self.human_bytes(records_view(records@)),
    ;
}

/// The marker `p4 -ztag` writes before every tagged field: `"... "`.
pub open spec fn tagged_marker() -> Seq<u8> {
    seq![46u8, 46u8, 46u8, 32u8]
}

/// The CRLF line ending `p4 -ztag` writes.
pub open spec fn crlf() -> Seq<u8> {
    seq![13u8, 10u8]
}

/// One tagged line: `... <key> <value>` then CRLF.
pub open spec fn tagged_line(field: (Seq<char>, Seq<char>)) -> Seq<u8> {
    tagged_marker() + encode_utf8(field.0) + seq![32u8] + encode_utf8(field.1) + crlf()
}

/// The tagged lines of a record's fields, in order.
pub open spec fn tagged_fields(fields: RecordView) -> Seq<u8>
    decreases fields.len(),
{
    if fields.len() == 0 {
        Seq::empty()
    } else {
        tagged_fields(fields.drop_last()) + tagged_line(fields.last())
    }
}

/// The tagged rendering of records: each record's lines, then a blank line.
pub open spec fn spec_tagged(records: Seq<RecordView>) -> Seq<u8>
    decreases records.len(),
{
    if records.len() == 0 {
        Seq::empty()
    } else {
        spec_tagged(records.drop_last()) + tagged_fields(records.last()) + crlf()
    }
}

/// The marshalled rendering of records: one dictionary per record, back to back.
pub open spec fn spec_marshalled(records: Seq<RecordView>) -> Seq<u8>
    decreases records.len(),
{
    if records.len() == 0 {
        Seq::empty()
    } else {
        spec_marshalled(records.drop_last()) + marshal_dict(records.last())
    }
}

/// Every record can be marshalled.
pub open spec fn all_marshal_fit(records: Seq<RecordView>) -> bool {
    forall|i: int| 0 <= i < records.len() ==> marshal_fits(#[trigger] records[i])
}

/// Returns `true` when every key and value of every record fits the 32-bit
/// length of a marshalled string, so the records can be marshalled.
pub fn can_marshal(records: &[Record]) -> (b: bool)
    ensures
        b == all_marshal_fit(records_view(records@)),
{
    let ghost all = records_view(records@);
    let mut i: usize = 0;
    while i < records.len()
        invariant
            i <= records@.len(),
            all == records_view(records@),
            forall|k: int| 0 <= k < i ==> marshal_fits(#[trigger] all[k]),
        decreases records@.len() - i,
    {
        let fields = records[i].fields();
        let ghost fv = pairs_view(fields@);
        assert(all[i as int] == fv);
        let mut j: usize = 0;
        while j < fields.len()
            invariant
                j <= fields@.len(),
                fv == pairs_view(fields@),
                i < records@.len(),
                all == records_view(records@),
                all[i as int] == fv,
                forall|k: int|
                    0 <= k < j ==> encode_utf8(#[trigger] fv[k].0).len() <= u32::MAX
                        && encode_utf8(fv[k].1).len() <= u32::MAX,
            decreases fields@.len() - j,
        {
            assert(fv[j as int] == (fields@[j as int].0@, fields@[j as int].1@));
            let key_len = fields[j].0.as_str().as_bytes().len();
            let value_len = fields[j].1.as_str().as_bytes().len();
            if key_len > 0xffff_ffffusize || value_len > 0xffff_ffffusize {
                assert(encode_utf8(fv[j as int].0).len() > u32::MAX || encode_utf8(fv[j as int].1).len()
                    > u32::MAX);
                assert(!marshal_fits(all[i as int]));
                return false;
            }
            assert(encode_utf8(fv[j as int].0).len() <= u32::MAX && encode_utf8(fv[j as int].1).len()
                <= u32::MAX);
            assert forall|k: int| 0 <= k < j + 1 implies encode_utf8(#[trigger] fv[k].0).len()
                <= u32::MAX && encode_utf8(fv[k].1).len() <= u32::MAX by {
                if k == j {
                    assert(encode_utf8(fv[j as int].0).len() <= u32::MAX);
                }
            }
            j += 1;
        }
        assert(marshal_fits(fv));
        i += 1;
    }
    true
}

/// Appends `bytes` of the UTF-8 encoding of `s`.
fn append_str(out: &mut Vec<u8>, s: &str)
    ensures
        final(out)@ == old(out)@ + encode_utf8(s@),
{
    append_bytes(out, s.as_bytes());
}

/// Appends the tagged lines of one record's fields.
fn write_tagged_fields(out: &mut Vec<u8>, record: &Record)
    ensures
        final(out)@ == old(out)@ + tagged_fields(record@),
{
    let ghost all = record@;
    let ghost start = out@;
    let fields = record.fields();
    let mut i: usize = 0;
    while i < fields.len()
        invariant
            i <= fields@.len(),
            all == pairs_view(fields@),
            out@ == start + tagged_fields(all.take(i as int)),
        decreases fields@.len() - i,
    {
        assert(all[i as int] == (fields@[i as int].0@, fields@[i as int].1@));
        out.push(46u8);
        out.push(46u8);
        out.push(46u8);
        out.push(32u8);
        append_str(out, fields[i].0.as_str());
        out.push(32u8);
        append_str(out, fields[i].1.as_str());
        out.push(13u8);
        out.push(10u8);
        proof {
            let t = all.take(i + 1);
            assert(t.drop_last() =~= all.take(i as int));
            assert(t.last() == all[i as int]);
        }
        i += 1;
        assert(out@ =~= start + tagged_fields(all.take(i as int)));
    }
    assert(all.take(i as int) =~= all);
}

/// Writes records in `p4 -ztag` form: `... <key> <value>` lines, each record
/// followed by a blank line, every line ending in CRLF.
pub fn write_tagged(out: &mut Vec<u8>, records: &[Record])
    ensures
        final(out)@ == old(out)@ + spec_tagged(records_view(records@)),
{
    let ghost all = records_view(records@);
    let ghost start = out@;
    let mut i: usize = 0;
    while i < records.len()
        invariant
            i <= records@.len(),
            all == records_view(records@),
            out@ == start + spec_tagged(all.take(i as int)),
        decreases records@.len() - i,
    {
        write_tagged_fields(out, &records[i]);
        out.push(13u8);
        out.push(10u8);
        proof {
            let t = all.take(i + 1);
            assert(t.drop_last() =~= all.take(i as int));
            assert(t.last() == records@[i as int]@);
        }
        i += 1;
        assert(out@ =~= start + spec_tagged(all.take(i as int)));
    }
    assert(all.take(i as int) =~= all);
}

/// Writes records in `p4 -G` form: one `marshal` string-dict per record, back
/// to back with no separator.
pub fn write_marshalled(out: &mut Vec<u8>, records: &[Record])
    requires
        all_marshal_fit(records_view(records@)),
    ensures
        final(out)@ == old(out)@ + spec_marshalled(records_view(records@)),
{
    let ghost all = records_view(records@);
    let ghost start = out@;
    let mut i: usize = 0;
    while i < records.len()
        invariant
            i <= records@.len(),
            all == records_view(records@),
            all_marshal_fit(all),
            out@ == start + spec_marshalled(all.take(i as int)),
        decreases records@.len() - i,
    {
        assert(all[i as int] == records@[i as int]@);
        write_string_dict(out, records[i].fields());
        proof {
            let t = all.take(i + 1);
            assert(t.drop_last() =~= all.take(i as int));
            assert(t.last() == records@[i as int]@);
        }
        i += 1;
        assert(out@ =~= start + spec_marshalled(all.take(i as int)));
    }
    assert(all.take(i as int) =~= all);
}

/// Renders `records` in the selected `mode`, appending to `out`.
///
/// Human mode writes exactly what the command's own [`HumanReport`] writes;
/// tagged and marshalled modes use the generic renderings pinned to `p4`'s
/// bytes.
pub fn render<H: HumanReport>(mode: OutputMode, records: &[Record], human: &H, out: &mut Vec<u8>)
    requires
        mode == OutputMode::Marshalled ==> all_marshal_fit(records_view(records@)),
    ensures
        mode == OutputMode::Human ==> final(out)@ == old(out)@ + human.human_bytes(
            records_view(records@),
        ),
        mode == OutputMode::Tagged ==> final(out)@ == old(out)@ + spec_tagged(
            records_view(records@),
        ),
        mode == OutputMode::Marshalled ==> final(out)@ == old(out)@ + spec_marshalled(
            records_view(records@),
        ),
{
    match mode {
        OutputMode::Human => human.write_human(out, records),
        OutputMode::Tagged => write_tagged(out, records),
        OutputMode::Marshalled => write_marshalled(out, records),
    }
}

/// Law: rendering two batches of records one after the other gives the same
/// bytes as rendering them together, in both generic modes; marshalled
/// records in particular stream back to back with no separator.
pub proof fn law_render_concatenates(a: Seq<RecordView>, b: Seq<RecordView>)
    ensures
        spec_tagged(a + b) == spec_tagged(a) + spec_tagged(b),
        spec_marshalled(a + b) == spec_marshalled(a) + spec_marshalled(b),
    decreases b.len(),
{
    if b.len() == 0 {
        assert(a + b =~= a);
        assert(spec_tagged(b) == Seq::<u8>::empty());
        assert(spec_marshalled(b) == Seq::<u8>::empty());
        assert(spec_tagged(a) + spec_tagged(b) =~= spec_tagged(a));
        assert(spec_marshalled(a) + spec_marshalled(b) =~= spec_marshalled(a));
    } else {
        law_render_concatenates(a, b.drop_last());
        assert((a + b).drop_last() =~= a + b.drop_last());
        assert((a + b).last() == b.last());
        assert(spec_tagged(a + b) =~= spec_tagged(a) + spec_tagged(b));
        assert(spec_marshalled(a + b) =~= spec_marshalled(a) + spec_marshalled(b));
    }
}

/// Law: a tagged line reads back. It starts with `"... "`, ends with CRLF,
/// and between them holds the key, a space, and the value, each as valid
/// UTF-8 that decodes back to the key and to the value.
pub proof fn law_tagged_line_reads_back(key: Seq<char>, value: Seq<char>)
    ensures
        ({
            let line = tagged_line((key, value));
            let key_end: int = 4 + encode_utf8(key).len() as int;
            &&& line.len() == key_end + 1 + encode_utf8(value).len() + 2
            &&& line.take(4) == seq![46u8, 46u8, 46u8, 32u8]
            &&& line[key_end] == 32u8
            &&& line.subrange(line.len() - 2, line.len() as int) == seq![13u8, 10u8]
            &&& valid_utf8(line.subrange(4, key_end))
            &&& decode_utf8(line.subrange(4, key_end)) == key
            &&& valid_utf8(line.subrange(key_end + 1, line.len() - 2))
            &&& decode_utf8(line.subrange(key_end + 1, line.len() - 2)) == value
        }),
{
    let line = tagged_line((key, value));
    let k = encode_utf8(key);
    let v = encode_utf8(value);
    let key_end: int = 4 + k.len() as int;
    assert(line =~= seq![46u8, 46u8, 46u8, 32u8] + k + seq![32u8] + v + seq![13u8, 10u8]);
    assert(line.subrange(4, key_end as int) =~= k);
    assert(line.subrange(key_end + 1, line.len() - 2) =~= v);
    assert(line.take(4) =~= seq![46u8, 46u8, 46u8, 32u8]);
    assert(line.subrange(line.len() - 2, line.len() as int) =~= seq![13u8, 10u8]);
    vstd::utf8::encode_utf8_valid_utf8(key);
    vstd::utf8::encode_utf8_valid_utf8(value);
    vstd::utf8::encode_utf8_decode_utf8(key);
    vstd::utf8::encode_utf8_decode_utf8(value);
}

} // verus!
