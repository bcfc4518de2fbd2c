//! The `info` command's record and its human-readable rendering.
//!
//! `p4 info` prints facts about the current connection. Until the command
//! reads them from a live server, it emits one representative record whose
//! keys mirror real `p4 info`'s tagged keys and whose values are obvious
//! placeholders; the human view prints `Label: value` lines as `p4 info` does.
use vstd::prelude::*;
use vstd::utf8::encode_utf8;

use crate::output::{pairs_view, records_view, HumanReport, Record, RecordView};
use crate::text::{append_bytes, str_eq};

verus! {

/// The fields of the placeholder `info` record, in order.
pub open spec fn representative_fields() -> RecordView {
    seq![
        ("userName"@, "placeholder-user"@),
        ("clientName"@, "placeholder-client"@),
        ("serverVersion"@, "Astraval (info not implemented yet, see issue #14)"@),
        ("serverLicense"@, "none"@),
    ]
}

/// Builds the placeholder `info` record.
pub fn representative_record() -> (r: Record)
    ensures
        r@ == representative_fields(),
{
    let mut record = Record::new();
    record.push("userName", "placeholder-user");
    record.push("clientName", "placeholder-client");
    record.push("serverVersion", "Astraval (info not implemented yet, see issue #14)");
    record.push("serverLicense", "none");
    assert(record@ =~= representative_fields());
    record
}

/// The label `p4 info` prints for a tagged key; unknown keys keep their name.
pub open spec fn spec_human_label(key: Seq<char>) -> Seq<char> {
    if key == "userName"@ {
        "User name"@
    } else if key == "clientName"@ {
        "Client name"@
    } else if key == "serverVersion"@ {
        "Server version"@
    } else if key == "serverLicense"@ {
        "Server license"@
    } else {
        key
    }
}

/// Maps a tagged field key to the human label `p4 info` prints for it.
pub fn human_label(key: &str) -> (label: &str)
    ensures
        label@ == spec_human_label(key@),
{
    if str_eq(key, "userName") {
        "User name"
    } else if str_eq(key, "clientName") {
        "Client name"
    } else if str_eq(key, "serverVersion") {
        "Server version"
    } else if str_eq(key, "serverLicense") {
        "Server license"
    } else {
        key
    }
}

/// One human line: `<label>: <value>` and a newline.
pub open spec fn human_line(field: (Seq<char>, Seq<char>)) -> Seq<u8> {
    encode_utf8(spec_human_label(field.0)) + seq![58u8, 32u8] + encode_utf8(field.1) + seq![10u8]
}

/// The human lines of a record's fields, in order.
pub open spec fn human_fields(fields: RecordView) -> Seq<u8>
    decreases fields.len(),
{
    if fields.len() == 0 {
        Seq::empty()
    } else {
        human_fields(fields.drop_last()) + human_line(fields.last())
    }
}

/// The human rendering of records: every field's line, record after record.
pub open spec fn spec_info_human(records: Seq<RecordView>) -> Seq<u8>
    decreases records.len(),
{
    if records.len() == 0 {
        Seq::empty()
    } else {
        spec_info_human(records.drop_last()) + human_fields(records.last())
    }
}

/// The human-readable rendering of `info`, mirroring `p4 info`'s labelled lines.
pub struct InfoHuman;

impl InfoHuman {
    /// Appends the labelled lines of `records`.
    pub fn write_lines(&self, out: &mut Vec<u8>, records: &[Record])
        ensures
            final(out)@ == old(out)@ + spec_info_human(records@.map_values(|r: Record| r@)),
    {
        let ghost all = records@.map_values(|r: Record| r@);
        let ghost start = out@;
        let mut i: usize = 0;
        while i < records.len()
            invariant
                i <= records@.len(),
                all == records@.map_values(|r: Record| r@),
                out@ == start + spec_info_human(all.take(i as int)),
            decreases records@.len() - i,
        {
            let ghost before = out@;
            let fields = records[i].fields();
            let ghost fv = pairs_view(fields@);
            let mut j: usize = 0;
            while j < fields.len()
                invariant
                    j <= fields@.len(),
                    fv == pairs_view(fields@),
                    out@ == before + human_fields(fv.take(j as int)),
                decreases fields@.len() - j,
            {
                assert(fv[j as int] == (fields@[j as int].0@, fields@[j as int].1@));
                let label = human_label(fields[j].0.as_str());
                append_bytes(out, label.as_bytes());
                out.push(58u8);
                out.push(32u8);
                append_bytes(out, fields[j].1.as_str().as_bytes());
                out.push(10u8);
                proof {
                    let t = fv.take(j + 1);
                    assert(t.drop_last() =~= fv.take(j as int));
                    assert(t.last() == fv[j as int]);
                }
                j += 1;
                assert(out@ =~= before + human_fields(fv.take(j as int)));
            }
            assert(fv.take(j as int) =~= fv);
            proof {
                let t = all.take(i + 1);
                assert(t.drop_last() =~= all.take(i as int));
                assert(t.last() == records@[i as int]@);
            }
            i += 1;
            assert(out@ =~= start + spec_info_human(all.take(i as int)));
        }
        assert(all.take(i as int) =~= all);
    }
}

impl HumanReport for InfoHuman {
    open spec fn human_bytes(&self, records: Seq<RecordView>) -> Seq<u8> {
        spec_info_human(records)
    }

    fn write_human(&self, out: &mut Vec<u8>, records: &[Record]) {
        self.write_lines(out, records);
        assert(records@.map_values(|r: Record| r@) =~= records_view(records@));
    }
}

} // verus!
