use astraval::output::marshal::{write_string, write_string_dict};
use astraval::output::{render, write_marshalled, write_tagged, HumanReport, OutputMode, Record};

fn sample_record() -> Record {
    let mut record = Record::new();
    record.push("userName", "alice");
    record.push("serverLicense", "none");
    record
}

/// A human view used where a mode other than human is selected.
struct Unused;

impl HumanReport for Unused {
    fn write_human(&self, out: &mut Vec<u8>, _records: &[Record]) {
        out.extend_from_slice(b"human");
    }
}

#[test]
fn mode_selection_follows_p4_precedence() {
    assert_eq!(OutputMode::from_flags(true, true), OutputMode::Marshalled);
    assert_eq!(OutputMode::from_flags(true, false), OutputMode::Marshalled);
    assert_eq!(OutputMode::from_flags(false, true), OutputMode::Tagged);
    assert_eq!(OutputMode::from_flags(false, false), OutputMode::Human);
}

#[test]
fn tagged_rendering_matches_p4_line_format() {
    let mut out = Vec::new();
    write_tagged(&mut out, &[sample_record()]);

    let expected = "... userName alice\r\n... serverLicense none\r\n\r\n";
    assert_eq!(String::from_utf8(out).expect("output is ASCII"), expected);
}

#[test]
fn marshalled_rendering_matches_p4_byte_stream() {
    let mut out = Vec::new();
    write_marshalled(&mut out, &[sample_record()]);

    let mut expected = Vec::new();
    expected.push(b'{');
    for (key, value) in [("userName", "alice"), ("serverLicense", "none")] {
        for field in [key, value] {
            expected.push(b's');
            expected.extend_from_slice(
                &u32::try_from(field.len())
                    .expect("field fits in u32")
                    .to_le_bytes(),
            );
            expected.extend_from_slice(field.as_bytes());
        }
    }
    expected.push(b'0');

    assert_eq!(out, expected);
}

#[test]
fn marshalled_records_stream_without_separators() {
    let mut single = Record::new();
    single.push("k", "v");

    let mut out = Vec::new();
    write_marshalled(&mut out, &[single.clone(), single]);

    let one = [b'{', b's', 1, 0, 0, 0, b'k', b's', 1, 0, 0, 0, b'v', b'0'];
    let mut expected = Vec::new();
    expected.extend_from_slice(&one);
    expected.extend_from_slice(&one);
    assert_eq!(out, expected);
}

#[test]
fn render_human_mode_delegates_to_the_command() {
    struct Labelled;
    impl HumanReport for Labelled {
        fn write_human(&self, out: &mut Vec<u8>, records: &[Record]) {
            for record in records {
                for (key, value) in record.fields() {
                    out.extend_from_slice(format!("{key} -> {value}\n").as_bytes());
                }
            }
        }
    }

    let mut out = Vec::new();
    render(OutputMode::Human, &[sample_record()], &Labelled, &mut out);

    assert_eq!(
        String::from_utf8(out).expect("output is ASCII"),
        "userName -> alice\nserverLicense -> none\n"
    );
}

#[test]
fn render_uses_the_generic_renderings_outside_human_mode() {
    let mut tagged = Vec::new();
    render(OutputMode::Tagged, &[sample_record()], &Unused, &mut tagged);
    let mut direct = Vec::new();
    write_tagged(&mut direct, &[sample_record()]);
    assert_eq!(tagged, direct);

    let mut marshalled = Vec::new();
    render(OutputMode::Marshalled, &[sample_record()], &Unused, &mut marshalled);
    assert_eq!(marshalled[0], b'{');
    assert_eq!(*marshalled.last().unwrap(), b'0');
}

#[test]
fn record_keeps_duplicate_keys_in_order() {
    let mut record = Record::new();
    record.push("k", "1");
    record.push("k", "2");
    let fields: Vec<(&str, &str)> = record
        .fields()
        .iter()
        .map(|(k, v)| (k.as_str(), v.as_str()))
        .collect();
    assert_eq!(fields, vec![("k", "1"), ("k", "2")]);
}

#[test]
fn tagged_rendering_of_no_records_is_empty() {
    let mut out = Vec::new();
    write_tagged(&mut out, &[]);
    assert!(out.is_empty());
    let mut out = Vec::new();
    write_tagged(&mut out, &[Record::new()]);
    assert_eq!(out, b"\r\n");
}

#[test]
fn single_field_dict_has_exact_bytes() {
    let mut buffer = Vec::new();
    write_string_dict(&mut buffer, &[("code".to_string(), "stat".to_string())]);

    let expected = [
        b'{', b's', 4, 0, 0, 0, b'c', b'o', b'd', b'e', b's', 4, 0, 0, 0, b's', b't', b'a',
        b't', b'0',
    ];
    assert_eq!(buffer, expected);
}

#[test]
fn empty_dict_is_open_then_terminator() {
    let mut buffer = Vec::new();
    write_string_dict(&mut buffer, &[]);
    assert_eq!(buffer, [b'{', b'0']);
}

#[test]
fn string_length_is_little_endian_byte_count() {
    let mut buffer = Vec::new();
    write_string(&mut buffer, "é".as_bytes());
    assert_eq!(buffer, [b's', 2, 0, 0, 0, 0xC3, 0xA9]);
}

#[test]
fn multibyte_values_are_marshalled_as_utf8() {
    let mut record = Record::new();
    record.push("名", "é");
    let mut out = Vec::new();
    write_marshalled(&mut out, &[record]);
    assert_eq!(
        out,
        vec![b'{', b's', 3, 0, 0, 0, 0xE5, 0x90, 0x8D, b's', 2, 0, 0, 0, 0xC3, 0xA9, b'0']
    );
}

#[test]
fn tagged_records_render_one_after_another() {
    let mut first = Record::new();
    first.push("a", "1");
    let mut second = Record::new();
    second.push("b", "2");

    let mut together = Vec::new();
    write_tagged(&mut together, &[first.clone(), second.clone()]);
    let mut apart = Vec::new();
    write_tagged(&mut apart, &[first]);
    write_tagged(&mut apart, &[second]);
    assert_eq!(together, apart);
    assert_eq!(together, b"... a 1\r\n\r\n... b 2\r\n\r\n");
}
