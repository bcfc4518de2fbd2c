use astraval::config::resolved::env_get;
use astraval::config::{
    config_search, discover_step, parse, resolve, CandidateRead, ConfigFile, ConfigSearch,
    ConfigValue, GlobalSettings, SearchStep, Setting, Source,
};

fn env(pairs: &[(&str, &str)]) -> Vec<(String, String)> {
    pairs
        .iter()
        .map(|(name, value)| ((*name).to_owned(), (*value).to_owned()))
        .collect()
}

#[test]
fn parse_reads_simple_var_value_pairs() {
    let parsed = parse("P4PORT=tcp:host:1666\nP4USER=alice\n");
    assert_eq!(parsed.get("P4PORT"), Some("tcp:host:1666"));
    assert_eq!(parsed.get("P4USER"), Some("alice"));
}

#[test]
fn parse_trims_whitespace_around_name_and_value() {
    let parsed = parse("  P4USER  =   bob  \n");
    assert_eq!(parsed.get("P4USER"), Some("bob"));
}

#[test]
fn parse_skips_blank_lines_and_comments() {
    let parsed = parse("\n# a comment\nP4CLIENT=ws\n   \n");
    assert_eq!(parsed.len(), 1);
    assert_eq!(parsed.get("P4CLIENT"), Some("ws"));
}

#[test]
fn parse_ignores_lines_without_an_equals_sign() {
    let parsed = parse("this is not a setting\nP4PORT=1666\n");
    assert_eq!(parsed.len(), 1);
    assert_eq!(parsed.get("P4PORT"), Some("1666"));
}

#[test]
fn parse_keeps_equals_signs_inside_the_value() {
    let parsed = parse("P4PASSWD=a=b=c\n");
    assert_eq!(parsed.get("P4PASSWD"), Some("a=b=c"));
}

#[test]
fn parse_lets_a_later_definition_win() {
    let parsed = parse("P4USER=first\nP4USER=second\n");
    assert_eq!(parsed.get("P4USER"), Some("second"));
    assert_eq!(parsed.len(), 1);
}

#[test]
fn parse_handles_crlf_tabs_and_empty_names() {
    let parsed = parse("P4PORT=\tssl:h:1666\r\n=orphan\r\n#P4USER=x\nP4HOST= \u{a0}h\u{3000}");
    assert_eq!(parsed.get("P4PORT"), Some("ssl:h:1666"));
    assert_eq!(parsed.get("P4HOST"), Some("h"));
    assert_eq!(parsed.get("P4USER"), None);
    assert_eq!(parsed.get(""), None);
    assert_eq!(parsed.len(), 2);
}

#[test]
fn parse_of_empty_text_defines_nothing() {
    assert_eq!(parse("").len(), 0);
    assert_eq!(parse("P4PORT=").get("P4PORT"), Some(""));
}

#[test]
fn port_falls_back_to_its_compiled_in_default() {
    let config = resolve(&GlobalSettings::default(), &[], None);

    assert_eq!(config.port(), "perforce:1666");
    assert_eq!(
        config.get(Setting::Port).map(ConfigValue::source),
        Some(&Source::Default)
    );
}

#[test]
fn settings_without_a_default_resolve_to_none() {
    let config = resolve(&GlobalSettings::default(), &[], None);

    assert!(config.user().is_none());
    assert!(config.client().is_none());
    assert!(config.password().is_none());
    assert!(config.charset().is_none());
    assert!(config.host().is_none());
}

#[test]
fn environment_beats_the_default() {
    let environment = env(&[("P4PORT", "tcp:envhost:1666")]);

    let config = resolve(&GlobalSettings::default(), &environment, None);

    assert_eq!(config.port(), "tcp:envhost:1666");
    assert_eq!(
        config.get(Setting::Port).map(ConfigValue::source),
        Some(&Source::Environment)
    );
}

#[test]
fn flag_beats_environment() {
    let flags = GlobalSettings {
        user: Some("flaguser".to_owned()),
        ..GlobalSettings::default()
    };
    let environment = env(&[("P4USER", "envuser")]);

    let config = resolve(&flags, &environment, None);

    assert_eq!(config.user(), Some("flaguser"));
    assert_eq!(
        config.get(Setting::User).map(ConfigValue::source),
        Some(&Source::CommandLine)
    );
}

#[test]
fn config_file_beats_environment() {
    let file = ConfigFile::from_contents("/work/.p4config", "P4USER=configuser\n");
    let environment = env(&[("P4CONFIG", ".p4config"), ("P4USER", "envuser")]);

    let config = resolve(&GlobalSettings::default(), &environment, Some(&file));

    assert_eq!(config.user(), Some("configuser"));
    match config.get(Setting::User).map(ConfigValue::source) {
        Some(Source::Config(path)) => assert_eq!(path, "/work/.p4config"),
        other => panic!("expected a config-file source, got {other:?}"),
    }
}

#[test]
fn flag_beats_config_file() {
    let file = ConfigFile::from_contents("/work/.p4config", "P4PORT=tcp:confighost:1666\n");
    let flags = GlobalSettings {
        port: Some("tcp:flaghost:1666".to_owned()),
        ..GlobalSettings::default()
    };
    let environment = env(&[("P4CONFIG", ".p4config")]);

    let config = resolve(&flags, &environment, Some(&file));

    assert_eq!(config.port(), "tcp:flaghost:1666");
    assert_eq!(
        config.get(Setting::Port).map(ConfigValue::source),
        Some(&Source::CommandLine)
    );
}

#[test]
fn dir_override_relocates_the_config_search() {
    let flags = GlobalSettings {
        dir: Some("/work/workspace".to_owned()),
        ..GlobalSettings::default()
    };
    let environment = env(&[("P4CONFIG", ".p4config")]);

    let search = config_search(&flags, &environment, "/tmp").expect("P4CONFIG is set");
    assert_eq!(
        search,
        ConfigSearch {
            start: "/work/workspace".to_owned(),
            filename: ".p4config".to_owned()
        }
    );

    let file = ConfigFile::from_contents("/work/workspace/.p4config", "P4CLIENT=ws-client\n");
    let config = resolve(&flags, &environment, Some(&file));
    assert_eq!(config.client(), Some("ws-client"));
}

#[test]
fn config_search_needs_a_non_empty_p4config() {
    let flags = GlobalSettings::default();
    assert_eq!(config_search(&flags, &[], "/tmp"), None);
    assert_eq!(config_search(&flags, &env(&[("P4CONFIG", "")]), "/tmp"), None);
    assert_eq!(
        config_search(&flags, &env(&[("P4CONFIG", ".p4")]), "/tmp"),
        Some(ConfigSearch {
            start: "/tmp".to_owned(),
            filename: ".p4".to_owned()
        })
    );
}

#[test]
fn environment_lookup_is_exact_and_takes_the_first_match() {
    let environment = env(&[("P4USER", "a"), ("p4user", "b"), ("P4USER", "c")]);
    assert_eq!(env_get(&environment, "P4USER"), Some("a"));
    assert_eq!(env_get(&environment, "p4user"), Some("b"));
    assert_eq!(env_get(&environment, "P4PORT"), None);
}

#[test]
fn settings_have_their_p4_names_and_defaults() {
    let names: Vec<&str> = Setting::ALL.iter().map(|s| s.variable_name()).collect();
    assert_eq!(
        names,
        vec!["P4PORT", "P4USER", "P4CLIENT", "P4PASSWD", "P4CHARSET", "P4HOST"]
    );
    assert_eq!(Setting::Port.default_value(), Some("perforce:1666"));
    assert_eq!(Setting::User.default_value(), None);
}

#[test]
fn source_reports_a_config_path_only_for_config_files() {
    assert!(Source::Environment.config_path().is_none());
    let from_file = Source::Config(".p4config".to_owned());
    assert_eq!(from_file.config_path(), Some(".p4config"));
}

#[test]
fn every_setting_resolves_from_its_own_sources() {
    let file = ConfigFile::from_contents("cfg", "P4CHARSET=utf8\nP4HOST=filehost\n");
    let flags = GlobalSettings {
        password: Some("secret".to_owned()),
        ..GlobalSettings::default()
    };
    let environment = env(&[("P4HOST", "envhost"), ("P4CLIENT", "envclient")]);
    let config = resolve(&flags, &environment, Some(&file));
    assert_eq!(config.password(), Some("secret"));
    assert_eq!(config.charset(), Some("utf8"));
    assert_eq!(config.host(), Some("filehost"));
    assert_eq!(config.client(), Some("envclient"));
    assert_eq!(config.port(), "perforce:1666");
    assert_eq!(file.path(), "cfg");
    assert_eq!(file.get("P4HOST"), Some("filehost"));
    let value = config.get(Setting::Client).unwrap();
    assert_eq!(value.value(), "envclient");
}

#[test]
fn discover_step_ends_the_search_at_a_readable_file() {
    let step = discover_step(
        "/work/.p4config",
        CandidateRead::Contents("P4PORT=tcp:root:1666\n".to_string()),
    );
    match step {
        SearchStep::Found(file) => {
            assert_eq!(file.path(), "/work/.p4config");
            assert_eq!(file.get("P4PORT"), Some("tcp:root:1666"));
        }
        _ => panic!("a readable file ends the search"),
    }
}

#[test]
fn discover_step_goes_on_past_a_missing_file() {
    let step = discover_step("/work/sub/.p4config", CandidateRead::NotFound);
    assert!(matches!(step, SearchStep::Continue));
}

#[test]
fn discover_step_fails_on_an_unreadable_file() {
    let step = discover_step(
        "/work/.p4config",
        CandidateRead::Failed("permission denied".to_string()),
    );
    match step {
        SearchStep::Fail(error) => {
            assert!(error.is_command());
            assert_eq!(error.message(), "failed to read P4CONFIG file '/work/.p4config'");
            assert_eq!(error.source(), Some("permission denied"));
            assert_eq!(
                error.to_string(),
                "failed to read P4CONFIG file '/work/.p4config': permission denied"
            );
        }
        _ => panic!("an unreadable file fails the search"),
    }
}

#[test]
fn the_nearest_readable_file_decides_the_walk() {
    let candidates = ["/w/a/b/.p4config", "/w/a/.p4config", "/w/.p4config"];
    let mut reads = vec![
        CandidateRead::NotFound,
        CandidateRead::Contents("P4USER=near\n".to_string()),
        CandidateRead::Failed("permission denied".to_string()),
    ]
    .into_iter();
    let mut found = None;
    let mut consulted = 0;
    for candidate in candidates {
        consulted += 1;
        match discover_step(candidate, reads.next().unwrap()) {
            SearchStep::Found(file) => {
                found = Some(file);
                break;
            }
            SearchStep::Continue => {}
            SearchStep::Fail(_) => panic!("the walk stops before the broken file"),
        }
    }
    let file = found.expect("a file is found");
    assert_eq!(consulted, 2);
    assert_eq!(file.path(), "/w/a/.p4config");
    assert_eq!(file.get("P4USER"), Some("near"));
}
