//! The command-line surface of the `astraval` binary, as plain data.
//!
//! The global options mirror `p4`'s single-dash global flags; the binary
//! parses the process arguments into these types. Here they carry the
//! translation into the configuration resolver's input and the choice of
//! output mode.
use vstd::prelude::*;

use crate::config::resolved::{opt_view, GlobalSettings};
use crate::output::OutputMode;
use crate::text::str_eq;

verus! {

/// The `astraval` command line: global options and the subcommand.
#[derive(Debug, Clone)]
pub struct Cli {
    /// Global options shared by every subcommand.
    pub global: GlobalOptions,
    /// The subcommand to run.
    pub command: Commands,
}

/// Global options that mirror Perforce's `p4` global flags.
#[derive(Debug, Clone, Default)]
pub struct GlobalOptions {
    /// `-p`: server address, e.g. `tcp:localhost:1666` (`P4PORT`).
    pub port: Option<String>,
    /// `-u`: user name (`P4USER`).
    pub user: Option<String>,
    /// `-c`: client/workspace name (`P4CLIENT`).
    pub client: Option<String>,
    /// `-d`: override the current working directory.
    pub dir: Option<String>,
    /// `-H`: override the host name (`P4HOST`).
    pub host: Option<String>,
    /// `-P`: password or ticket (`P4PASSWD`).
    pub password: Option<String>,
    /// `-C`: client character set (`P4CHARSET`).
    pub charset: Option<String>,
    /// `-z`: tagged output mode, e.g. `-ztag`.
    pub tag: Option<String>,
    /// `-G`: marshalled output for scripting.
    pub marshalled: bool,
}

/// The set of subcommands `astraval` understands.
#[derive(Debug, Clone, Copy, PartialEq, Eq, Structural)]
pub enum Commands {
    /// Report connection and client details (`p4 info`).
    Info,
}

/// Copies an optional string.
fn copy_opt(o: &Option<String>) -> (r: Option<String>)
    ensures
        opt_view(r) == opt_view(*o),
{
    match o {
        Some(s) => Some(s.clone()),
        None => None,
    }
}

impl GlobalOptions {
    /// Translates the parsed flags into the resolver's input: the connection
    /// and identity flags carry over, and `-d` names the directory the
    /// `P4CONFIG` search starts from. `-z` and `-G` are output modes and do not.
    pub fn to_settings(&self) -> (s: GlobalSettings)
        ensures
            opt_view(s.port) == opt_view(self.port),
            opt_view(s.user) == opt_view(self.user),
            opt_view(s.client) == opt_view(self.client),
            opt_view(s.password) == opt_view(self.password),
            opt_view(s.charset) == opt_view(self.charset),
            opt_view(s.host) == opt_view(self.host),
            opt_view(s.dir) == opt_view(self.dir),
    {
        GlobalSettings {
            port: copy_opt(&self.port),
            user: copy_opt(&self.user),
            client: copy_opt(&self.client),
            password: copy_opt(&self.password),
            charset: copy_opt(&self.charset),
            host: copy_opt(&self.host),
            dir: copy_opt(&self.dir),
        }
    }

    /// The output mode the flags select: `-G` wins, then `-ztag`, then the
    /// human default.
    pub fn output_mode(&self) -> (m: OutputMode)
        ensures
            m == (if self.marshalled {
                OutputMode::Marshalled
            } else if opt_view(self.tag) == Some("tag"@) {
                OutputMode::Tagged
            } else {
                OutputMode::Human
            }),
    {
        let tagged = match &self.tag {
            Some(t) => str_eq(t.as_str(), "tag"),
            None => false,
        };
        OutputMode::from_flags(self.marshalled, tagged)
    }
}

} // verus!
