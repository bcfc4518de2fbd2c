use astraval::directive::is_readable_directive;
use astraval::telemetry::{filter_choice, level_for_verbosity, FilterChoice, LogLevel};

#[test]
fn zero_verbosity_is_warn() {
    assert_eq!(level_for_verbosity(0), LogLevel::Warn);
}

#[test]
fn verbosity_steps_through_info_and_debug() {
    assert_eq!(level_for_verbosity(1), LogLevel::Info);
    assert_eq!(level_for_verbosity(2), LogLevel::Debug);
}

#[test]
fn verbosity_saturates_at_trace() {
    assert_eq!(level_for_verbosity(3), LogLevel::Trace);
    assert_eq!(level_for_verbosity(10), LogLevel::Trace);
    assert_eq!(level_for_verbosity(u8::MAX), LogLevel::Trace);
}

#[test]
fn verbosity_is_monotonically_louder() {
    let levels: Vec<LogLevel> = (0..=4).map(level_for_verbosity).collect();
    for pair in levels.windows(2) {
        assert!(
            pair[1] >= pair[0],
            "raising verbosity must not lower the level: {:?} then {:?}",
            pair[0],
            pair[1]
        );
    }
}

#[test]
fn astraval_log_directive_wins_over_everything() {
    assert_eq!(
        filter_choice(Some("astraval_proto=trace"), Some("debug"), 3),
        FilterChoice::Directive("astraval_proto=trace".to_string())
    );
}

#[test]
fn rust_log_is_used_when_astraval_log_is_unset() {
    assert_eq!(
        filter_choice(None, Some("astraval_core=debug"), 0),
        FilterChoice::Directive("astraval_core=debug".to_string())
    );
}

#[test]
fn a_malformed_directive_falls_through_to_the_next_source() {
    assert_eq!(
        filter_choice(Some("!!!"), Some("info"), 0),
        FilterChoice::Directive("info".to_string())
    );
    assert_eq!(
        filter_choice(Some("!!!"), Some("!!!"), 2),
        FilterChoice::Verbosity(LogLevel::Debug)
    );
}

#[test]
fn without_directives_the_verbosity_count_decides() {
    assert_eq!(filter_choice(None, None, 0), FilterChoice::Verbosity(LogLevel::Warn));
    assert_eq!(filter_choice(None, None, 7), FilterChoice::Verbosity(LogLevel::Trace));
}

#[test]
fn a_cut_inside_a_character_is_unreadable() {
    assert!(!is_readable_directive(" é=info"));
    assert!(!is_readable_directive("\u{a0}a=info"));
    assert!(!is_readable_directive("info, é=debug"));
    assert!(is_readable_directive("é=info"));
    assert!(is_readable_directive("info, astraval=debug"));
    assert!(is_readable_directive(""));
}

#[test]
fn an_unreadable_directive_stops_the_choice_where_it_is_met() {
    assert_eq!(
        filter_choice(Some(" é=info"), Some("debug"), 0),
        FilterChoice::Unreadable(" é=info".to_string())
    );
    assert_eq!(
        filter_choice(Some("info"), Some(" é=info"), 0),
        FilterChoice::Directive("info".to_string())
    );
    assert_eq!(
        filter_choice(Some("!!!"), Some(" é=info"), 0),
        FilterChoice::Unreadable(" é=info".to_string())
    );
}

#[test]
fn only_cuts_the_parser_makes_can_break_a_directive() {
    // No cut at all: the whole part becomes the target.
    assert!(is_readable_directive(" é"));
    assert!(is_readable_directive(" é]"));
    // The first part fails to parse, so the second is never reached.
    assert!(is_readable_directive("!!!, é=info"));
    // A cut after a leading ASCII space lands on a character boundary.
    assert!(is_readable_directive(" a=info"));
}

#[test]
fn a_directive_without_cuts_inside_characters_is_used() {
    assert_eq!(
        filter_choice(Some(" é"), None, 0),
        FilterChoice::Directive(" é".to_string())
    );
}
