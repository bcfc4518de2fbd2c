//! The connection and identity settings the resolver knows, and their names.
use vstd::prelude::*;

verus! {

/// A single connection or identity setting, one per Perforce `P4*` variable.
#[derive(Debug, Clone, Copy, PartialEq, Eq, Hash, Structural)]
#[non_exhaustive]
pub enum Setting {
    /// The server address (`P4PORT`).
    Port,
    /// The user name (`P4USER`).
    User,
    /// The client/workspace name (`P4CLIENT`).
    Client,
    /// The password or login ticket (`P4PASSWD`).
    Password,
    /// The client character set (`P4CHARSET`).
    Charset,
    /// The host name override (`P4HOST`).
    Host,
}

/// The Perforce variable name of each setting.
pub open spec fn spec_variable_name(setting: Setting) -> Seq<char> {
    match setting {
        Setting::Port => "P4PORT"@,
        Setting::User => "P4USER"@,
        Setting::Client => "P4CLIENT"@,
        Setting::Password => "P4PASSWD"@,
        Setting::Charset => "P4CHARSET"@,
        Setting::Host => "P4HOST"@,
    }
}

/// The compiled-in default of each setting: only `P4PORT` has one,
/// `perforce:1666`.
pub open spec fn spec_default_value(setting: Setting) -> Option<Seq<char>> {
    match setting {
        Setting::Port => Some("perforce:1666"@),
        _ => None,
    }
}

impl Setting {
    /// Every setting the resolver knows about, in a stable order.
    pub const ALL: [Setting; 6] = [
        Setting::Port,
        Setting::User,
        Setting::Client,
        Setting::Password,
        Setting::Charset,
        Setting::Host,
    ];

    /// Returns the Perforce variable name for this setting, e.g. `"P4PORT"`.
    pub fn variable_name(self) -> (name: &'static str)
        ensures
            name@ == spec_variable_name(self),
    {
        match self {
            Setting::Port => "P4PORT",
            Setting::User => "P4USER",
            Setting::Client => "P4CLIENT",
            Setting::Password => "P4PASSWD",
            Setting::Charset => "P4CHARSET",
            Setting::Host => "P4HOST",
        }
    }

    /// Returns the compiled-in default for this setting, if one exists.
    pub fn default_value(self) -> (value: Option<&'static str>)
        ensures
            match value {
                Some(v) => spec_default_value(self) == Some(v@),
                None => spec_default_value(self) is None,
            },
    {
        match self {
            Setting::Port => Some("perforce:1666"),
            _ => None,
        }
    }
}

/// Law: distinct settings have distinct variable names, so one name selects
/// exactly one setting in every source.
pub proof fn law_variable_names_distinct(a: Setting, b: Setting)
    requires
        a != b,
    ensures
        spec_variable_name(a) != spec_variable_name(b),
{
    reveal_strlit("P4PORT");
    reveal_strlit("P4USER");
    reveal_strlit("P4CLIENT");
    reveal_strlit("P4PASSWD");
    reveal_strlit("P4CHARSET");
    reveal_strlit("P4HOST");
    assert(spec_variable_name(a)[2] != spec_variable_name(b)[2] || spec_variable_name(a).len()
        != spec_variable_name(b).len() || spec_variable_name(a)[3] != spec_variable_name(b)[3]);
}

} // verus!
