use astraval::info::{human_label, representative_record, InfoHuman};
use astraval::output::{render, HumanReport, OutputMode};

#[test]
fn representative_record_has_placeholder_fields() {
    let record = representative_record();
    let fields: Vec<(&str, &str)> = record
        .fields()
        .iter()
        .map(|(k, v)| (k.as_str(), v.as_str()))
        .collect();
    assert_eq!(fields[0], ("userName", "placeholder-user"));
    assert_eq!(fields[3], ("serverLicense", "none"));
}

#[test]
fn human_view_renders_labelled_lines() {
    let mut out = Vec::new();
    InfoHuman.write_human(&mut out, &[representative_record()]);
    let text = String::from_utf8(out).expect("output is UTF-8");

    assert!(text.starts_with("User name: placeholder-user\n"));
    assert!(text.contains("Server license: none\n"));
}

#[test]
fn unknown_key_falls_back_to_its_raw_name() {
    assert_eq!(human_label("peerAddress"), "peerAddress");
}

#[test]
fn known_keys_map_to_p4_labels() {
    assert_eq!(human_label("userName"), "User name");
    assert_eq!(human_label("clientName"), "Client name");
    assert_eq!(human_label("serverVersion"), "Server version");
    assert_eq!(human_label("serverLicense"), "Server license");
    assert_eq!(human_label("username"), "username");
}

#[test]
fn info_renders_in_every_mode() {
    let records = [representative_record()];
    let mut human = Vec::new();
    render(OutputMode::Human, &records, &InfoHuman, &mut human);
    assert_eq!(
        String::from_utf8(human).unwrap(),
        "User name: placeholder-user\nClient name: placeholder-client\nServer version: Astraval (info not implemented yet, see issue #14)\nServer license: none\n"
    );

    let mut tagged = Vec::new();
    render(OutputMode::Tagged, &records, &InfoHuman, &mut tagged);
    assert!(String::from_utf8(tagged)
        .unwrap()
        .starts_with("... userName placeholder-user\r\n"));
}
