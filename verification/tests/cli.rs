use astraval::cli::GlobalOptions;
use astraval::output::OutputMode;

#[test]
fn to_settings_carries_the_connection_flags() {
    let options = GlobalOptions {
        port: Some("tcp:localhost:1666".to_owned()),
        user: Some("alice".to_owned()),
        client: Some("workspace-main".to_owned()),
        dir: Some("/work".to_owned()),
        tag: Some("tag".to_owned()),
        marshalled: true,
        ..GlobalOptions::default()
    };
    let settings = options.to_settings();
    assert_eq!(settings.port.as_deref(), Some("tcp:localhost:1666"));
    assert_eq!(settings.user.as_deref(), Some("alice"));
    assert_eq!(settings.client.as_deref(), Some("workspace-main"));
    assert_eq!(settings.dir.as_deref(), Some("/work"));
    assert_eq!(settings.password, None);
}

#[test]
fn output_mode_follows_the_flags() {
    let mut options = GlobalOptions::default();
    assert_eq!(options.output_mode(), OutputMode::Human);
    options.tag = Some("tag".to_owned());
    assert_eq!(options.output_mode(), OutputMode::Tagged);
    options.marshalled = true;
    assert_eq!(options.output_mode(), OutputMode::Marshalled);
    options.marshalled = false;
    options.tag = Some("other".to_owned());
    assert_eq!(options.output_mode(), OutputMode::Human);
}

#[test]
fn target_protocol_level_is_one_hundred() {
    assert_eq!(astraval::target_protocol_level(), 100);
}
