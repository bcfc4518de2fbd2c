//! Turning the repeated `-v` verbosity count into a tracing level.
//!
//! | `-v` count | Level   |
//! |------------|---------|
//! | 0          | `WARN`  |
//! | 1          | `INFO`  |
//! | 2          | `DEBUG` |
//! | 3 or more  | `TRACE` |
//!
//! A filter directive from `ASTRAVAL_LOG` or `RUST_LOG` wins over the `-v`
//! count when it is set and `tracing_subscriber` accepts it
//! ([`filter_choice`]).
use vstd::prelude::*;

use crate::directive::{directive_accepted, directive_parses, directive_readable, is_readable_directive};

verus! {

/// A tracing verbosity level, from quietest to loudest.
#[derive(Debug, Clone, Copy, PartialEq, Eq, PartialOrd, Ord, Hash, Structural)]
pub enum LogLevel {
    Error,
    Warn,
    Info,
    Debug,
    Trace,
}

/// How loud a level is: `Error` is 0, `Trace` is 4.
pub open spec fn loudness(level: LogLevel) -> nat {
    match level {
        LogLevel::Error => 0,
        LogLevel::Warn => 1,
        LogLevel::Info => 2,
        LogLevel::Debug => 3,
        LogLevel::Trace => 4,
    }
}

/// The level for a `-v` count: `WARN` for none, each `-v` one step louder,
/// saturating at `TRACE`.
pub open spec fn spec_level_for_verbosity(verbose: u8) -> LogLevel {
    if verbose == 0 {
        LogLevel::Warn
    } else if verbose == 1 {
        LogLevel::Info
    } else if verbose == 2 {
        LogLevel::Debug
    } else {
        LogLevel::Trace
    }
}

/// Translates a repeated-`-v` count into the matching tracing level.
pub fn level_for_verbosity(verbose: u8) -> (level: LogLevel)
    ensures
        level == spec_level_for_verbosity(verbose),
{
    match verbose {
        0 => LogLevel::Warn,
        1 => LogLevel::Info,
        2 => LogLevel::Debug,
        _ => LogLevel::Trace,
    }
}

/// What the tracing filter is built from.
#[derive(Debug, Clone, PartialEq, Eq)]
pub enum FilterChoice {
    /// A directive taken verbatim from `ASTRAVAL_LOG` or `RUST_LOG`.
    Directive(String),
    /// A single global level implied by the `-v` count.
    Verbosity(LogLevel),
    /// A directive the filter parser cannot read without failing; the caller
    /// stops, as the parser would.
    Unreadable(String),
}

/// The abstract value of a [`FilterChoice`].
pub enum FilterChoiceView {
    Directive(Seq<char>),
    Verbosity(LogLevel),
    Unreadable(Seq<char>),
}

impl View for FilterChoice {
    type V = FilterChoiceView;

    open spec fn view(&self) -> FilterChoiceView {
        match self {
            FilterChoice::Directive(d) => FilterChoiceView::Directive(d@),
            FilterChoice::Verbosity(level) => FilterChoiceView::Verbosity(*level),
            FilterChoice::Unreadable(d) => FilterChoiceView::Unreadable(d@),
        }
    }
}

/// The abstract value of an optional string slice.
pub open spec fn str_opt_view(o: Option<&str>) -> Option<Seq<char>> {
    match o {
        Some(s) => Some(s@),
        None => None,
    }
}

/// A variable's value is present and is an accepted directive.
pub open spec fn usable(var: Option<Seq<char>>) -> bool {
    var matches Some(d) && directive_accepted(d)
}

/// A variable's value is present and the parser cannot read it.
pub open spec fn unreadable(var: Option<Seq<char>>) -> bool {
    var matches Some(d) && !directive_readable(d)
}

/// The filter source, most specific first: `ASTRAVAL_LOG` when set and
/// accepted, else `RUST_LOG` when set and accepted, else the `-v` level. A
/// variable the parser cannot read, met in that order, stops the choice there.
pub open spec fn spec_filter_choice(
    astraval_log: Option<Seq<char>>,
    rust_log: Option<Seq<char>>,
    verbose: u8,
) -> FilterChoiceView {
    if unreadable(astraval_log) {
        FilterChoiceView::Unreadable(astraval_log->0)
    } else if usable(astraval_log) {
        FilterChoiceView::Directive(astraval_log->0)
    } else if unreadable(rust_log) {
        FilterChoiceView::Unreadable(rust_log->0)
    } else if usable(rust_log) {
        FilterChoiceView::Directive(rust_log->0)
    } else {
        FilterChoiceView::Verbosity(spec_level_for_verbosity(verbose))
    }
}

/// Chooses what the tracing filter is built from, given the values of
/// `ASTRAVAL_LOG` and `RUST_LOG` (if set) and the `-v` count. A malformed
/// directive falls through to the next source rather than stopping startup.
pub fn filter_choice(astraval_log: Option<&str>, rust_log: Option<&str>, verbose: u8) -> (c:
    FilterChoice)
    ensures
        c@ == spec_filter_choice(str_opt_view(astraval_log), str_opt_view(rust_log), verbose),
{
    if let Some(directive) = astraval_log {
        if !is_readable_directive(directive) {
            return FilterChoice::Unreadable(directive.to_owned());
        }
        if directive_parses(directive) {
            return FilterChoice::Directive(directive.to_owned());
        }
    }
    if let Some(directive) = rust_log {
        if !is_readable_directive(directive) {
            return FilterChoice::Unreadable(directive.to_owned());
        }
        if directive_parses(directive) {
            return FilterChoice::Directive(directive.to_owned());
        }
    }
    FilterChoice::Verbosity(level_for_verbosity(verbose))
}

/// Law: raising the verbosity never makes the level quieter.
pub proof fn law_verbosity_monotonic(a: u8, b: u8)
    requires
        a <= b,
    ensures
        loudness(spec_level_for_verbosity(a)) <= loudness(spec_level_for_verbosity(b)),
{
}

/// Law: with no usable directive, the filter is the level of the `-v` count
/// itself: no `-v` gives `WARN`, one gives `INFO`, two give `DEBUG`, and three
/// or more give `TRACE`. That is so when neither variable is set, and
/// whenever both are unset or rejected by a parser that can read them.
pub proof fn law_verbosity_fallback(
    astraval_log: Option<Seq<char>>,
    rust_log: Option<Seq<char>>,
    verbose: u8,
)
    ensures
        (astraval_log is None || (directive_readable(astraval_log->0) && !directive_accepted(
            astraval_log->0,
        ))) && (rust_log is None || (directive_readable(rust_log->0) && !directive_accepted(
            rust_log->0,
        ))) ==> spec_filter_choice(astraval_log, rust_log, verbose) is Verbosity,
        spec_filter_choice(astraval_log, rust_log, verbose) matches FilterChoiceView::Verbosity(
            level,
        ) ==> {
            &&& verbose == 0 ==> level == LogLevel::Warn
            &&& verbose == 1 ==> level == LogLevel::Info
            &&& verbose == 2 ==> level == LogLevel::Debug
            &&& verbose >= 3 ==> level == LogLevel::Trace
        },
{
}

/// Law: the `-v` count maps to levels as the table gives: `WARN`, `INFO`,
/// `DEBUG`, then `TRACE` for three or more.
pub proof fn law_verbosity_levels(verbose: u8)
    ensures
        verbose == 0 ==> spec_level_for_verbosity(verbose) == LogLevel::Warn,
        verbose == 1 ==> spec_level_for_verbosity(verbose) == LogLevel::Info,
        verbose == 2 ==> spec_level_for_verbosity(verbose) == LogLevel::Debug,
        verbose >= 3 ==> spec_level_for_verbosity(verbose) == LogLevel::Trace,
{
}

} // verus!
