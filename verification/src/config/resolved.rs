//! The resolved configuration and the resolver that produces it.
//!
//! Precedence, highest first:
//!
//! 1. Command-line global flags (`-p`, `-u`, ...).
//! 2. The nearest `P4CONFIG` file found by walking up from the current directory.
//! 3. Process environment variables (`P4PORT`, `P4USER`, ...).
//! 4. Compiled-in defaults (only `P4PORT`, which defaults to `perforce:1666`).
//!
//! The resolver takes all of its inputs explicitly: the flags, the environment
//! as a list of name/value pairs, and the already-discovered `P4CONFIG` file.
//! [`config_search`] says which file to look for and where the walk starts.
use vstd::prelude::*;

use crate::config::config_file::{ConfigFile, ConfigFileView};
use crate::config::setting::{spec_default_value, spec_variable_name, Setting};
use crate::config::source::{Source, SourceView};
use crate::output::{pairs_view, RecordView};
use crate::text::str_eq;

verus! {

/// The abstract value of an optional string.
pub open spec fn opt_view(o: Option<String>) -> Option<Seq<char>> {
    match o {
        Some(s) => Some(s@),
        None => None,
    }
}

/// The value of the first environment entry named `name`.
pub open spec fn env_lookup(env: RecordView, name: Seq<char>) -> Option<Seq<char>>
    decreases env.len(),
{
    if env.len() == 0 {
        None
    } else if env[0].0 == name {
        Some(env[0].1)
    } else {
        env_lookup(env.drop_first(), name)
    }
}

/// Returns the value of the first entry of `environment` named `name`.
pub fn env_get<'a>(environment: &'a [(String, String)], name: &str) -> (r: Option<&'a str>)
    ensures
        match r {
            Some(v) => env_lookup(pairs_view(environment@), name@) == Some(v@),
            None => env_lookup(pairs_view(environment@), name@) is None,
        },
{
    let ghost all = pairs_view(environment@);
    let mut i: usize = 0;
    assert(all.skip(0) =~= all);
    while i < environment.len()
        invariant
            i <= environment@.len(),
            all == pairs_view(environment@),
            env_lookup(all, name@) == env_lookup(all.skip(i as int), name@),
        decreases environment@.len() - i,
    {
        assert(all.skip(i as int)[0] == (environment@[i as int].0@, environment@[i as int].1@));
        assert(all.skip(i as int).drop_first() =~= all.skip(i + 1));
        if str_eq(environment[i].0.as_str(), name) {
            return Some(environment[i].1.as_str());
        }
        i += 1;
    }
    None
}

/// The command-line global options that feed configuration resolution.
///
/// `None` means the flag was not given. `dir` is the `-d` override of the
/// directory the `P4CONFIG` search starts from.
#[derive(Debug, Clone, Default)]
pub struct GlobalSettings {
    /// `-p`: the server address (`P4PORT`).
    pub port: Option<String>,
    /// `-u`: the user name (`P4USER`).
    pub user: Option<String>,
    /// `-c`: the client/workspace name (`P4CLIENT`).
    pub client: Option<String>,
    /// `-P`: the password or ticket (`P4PASSWD`).
    pub password: Option<String>,
    /// `-C`: the client character set (`P4CHARSET`).
    pub charset: Option<String>,
    /// `-H`: the host name override (`P4HOST`).
    pub host: Option<String>,
    /// `-d`: override the directory the `P4CONFIG` search starts from.
    pub dir: Option<String>,
}

/// The flag value given for `setting`, if any.
pub open spec fn spec_flag(flags: GlobalSettings, setting: Setting) -> Option<Seq<char>> {
    match setting {
        Setting::Port => opt_view(flags.port),
        Setting::User => opt_view(flags.user),
        Setting::Client => opt_view(flags.client),
        Setting::Password => opt_view(flags.password),
        Setting::Charset => opt_view(flags.charset),
        Setting::Host => opt_view(flags.host),
    }
}

/// Borrows the text of an optional string.
fn opt_str(o: &Option<String>) -> (r: Option<&str>)
    ensures
        match r {
            Some(s) => opt_view(*o) == Some(s@),
            None => o is None,
        },
{
    match o {
        Some(s) => Some(s.as_str()),
        None => None,
    }
}

impl GlobalSettings {
    /// Returns the flag value for `setting`, if one was supplied.
    pub fn flag_for(&self, setting: Setting) -> (r: Option<&str>)
        ensures
            match r {
                Some(v) => spec_flag(*self, setting) == Some(v@),
                None => spec_flag(*self, setting) is None,
            },
    {
        match setting {
            Setting::Port => opt_str(&self.port),
            Setting::User => opt_str(&self.user),
            Setting::Client => opt_str(&self.client),
            Setting::Password => opt_str(&self.password),
            Setting::Charset => opt_str(&self.charset),
            Setting::Host => opt_str(&self.host),
        }
    }
}

/// The abstract value of a resolved value: the value and where it came from.
pub type ConfigValueView = (Seq<char>, SourceView);

/// A configuration value paired with the source it was resolved from.
#[derive(Debug, Clone, PartialEq, Eq)]
pub struct ConfigValue {
    value: String,
    source: Source,
}

impl View for ConfigValue {
    type V = ConfigValueView;

    closed spec fn view(&self) -> ConfigValueView {
        (self.value@, self.source@)
    }
}

impl ConfigValue {
    /// Returns the resolved value.
    pub fn value(&self) -> (v: &str)
        ensures
            v@ == self@.0,
    {
        self.value.as_str()
    }

    /// Returns the source this value was resolved from.
    pub fn source(&self) -> (s: &Source)
        ensures
            s@ == self@.1,
    {
        &self.source
    }
}

/// The winning value and source of one setting: the flag, else the
/// `P4CONFIG` file's entry, else the environment variable, else the default.
pub open spec fn spec_resolve_one(
    setting: Setting,
    flags: GlobalSettings,
    file: Option<ConfigFileView>,
    env: RecordView,
) -> Option<ConfigValueView> {
    let name = spec_variable_name(setting);
    match spec_flag(flags, setting) {
        Some(v) => Some((v, SourceView::CommandLine)),
        None => if file is Some && file->0.variables.contains_key(name) {
            Some((file->0.variables[name], SourceView::Config(file->0.path)))
        } else {
            match env_lookup(env, name) {
                Some(v) => Some((v, SourceView::Environment)),
                None => match spec_default_value(setting) {
                    Some(d) => Some((d, SourceView::Default)),
                    None => None,
                },
            }
        },
    }
}

/// The abstract value of an optional config file.
pub open spec fn file_view(file: Option<&ConfigFile>) -> Option<ConfigFileView> {
    match file {
        Some(f) => Some(f@),
        None => None,
    }
}

/// The abstract value of an optional resolved value.
pub open spec fn value_view(v: Option<ConfigValue>) -> Option<ConfigValueView> {
    match v {
        Some(c) => Some(c@),
        None => None,
    }
}

/// Resolves a single setting by consulting each source in precedence order.
pub fn resolve_one(
    setting: Setting,
    flags: &GlobalSettings,
    config_file: Option<&ConfigFile>,
    environment: &[(String, String)],
) -> (r: Option<ConfigValue>)
    ensures
        value_view(r) == spec_resolve_one(
            setting,
            *flags,
            file_view(config_file),
            pairs_view(environment@),
        ),
{
    let variable = setting.variable_name();
    if let Some(value) = flags.flag_for(setting) {
        return Some(ConfigValue { value: value.to_owned(), source: Source::CommandLine });
    }
    if let Some(file) = config_file {
        if let Some(value) = file.get(variable) {
            return Some(
                ConfigValue {
                    value: value.to_owned(),
                    source: Source::Config(file.path().to_owned()),
                },
            );
        }
    }
    if let Some(value) = env_get(environment, variable) {
        return Some(ConfigValue { value: value.to_owned(), source: Source::Environment });
    }
    if let Some(value) = setting.default_value() {
        return Some(ConfigValue { value: value.to_owned(), source: Source::Default });
    }
    None
}

/// A fully resolved connection-and-identity configuration.
///
/// `P4PORT` is always present (it has a default); every other setting is
/// present only when some source supplied it.
#[derive(Debug, Clone)]
pub struct ResolvedConfig {
    port: ConfigValue,
    user: Option<ConfigValue>,
    client: Option<ConfigValue>,
    password: Option<ConfigValue>,
    charset: Option<ConfigValue>,
    host: Option<ConfigValue>,
}

impl ResolvedConfig {
    /// The resolved value and source of `setting`, if any.
    pub closed spec fn spec_get(&self, setting: Setting) -> Option<ConfigValueView> {
        match setting {
            Setting::Port => Some(self.port@),
            Setting::User => value_view(self.user),
            Setting::Client => value_view(self.client),
            Setting::Password => value_view(self.password),
            Setting::Charset => value_view(self.charset),
            Setting::Host => value_view(self.host),
        }
    }

    /// Returns the resolved value and source for `setting`, if it has one.
    pub fn get(&self, setting: Setting) -> (r: Option<&ConfigValue>)
        ensures
            match r {
                Some(v) => self.spec_get(setting) == Some(v@),
                None => self.spec_get(setting) is None,
            },
    {
        match setting {
            Setting::Port => Some(&self.port),
            Setting::User => self.user.as_ref(),
            Setting::Client => self.client.as_ref(),
            Setting::Password => self.password.as_ref(),
            Setting::Charset => self.charset.as_ref(),
            Setting::Host => self.host.as_ref(),
        }
    }

    /// Returns the resolved `P4PORT` value, which is always present.
    pub fn port(&self) -> (v: &str)
        ensures
            self.spec_get(Setting::Port) matches Some(p) && v@ == p.0,
    {
        self.port.value()
    }

    /// Returns the resolved `P4USER` value, if any source supplied one.
    pub fn user(&self) -> (v: Option<&str>)
        ensures
            match v {
                Some(s) => self.spec_get(Setting::User) matches Some(u) && s@ == u.0,
                None => self.spec_get(Setting::User) is None,
            },
    {
        match &self.user {
            Some(c) => Some(c.value()),
            None => None,
        }
    }

    /// Returns the resolved `P4CLIENT` value, if any source supplied one.
    pub fn client(&self) -> (v: Option<&str>)
        ensures
            match v {
                Some(s) => self.spec_get(Setting::Client) matches Some(u) && s@ == u.0,
                None => self.spec_get(Setting::Client) is None,
            },
    {
        match &self.client {
            Some(c) => Some(c.value()),
            None => None,
        }
    }

    /// Returns the resolved `P4PASSWD` value, if any source supplied one.
    pub fn password(&self) -> (v: Option<&str>)
        ensures
            match v {
                Some(s) => self.spec_get(Setting::Password) matches Some(u) && s@ == u.0,
                None => self.spec_get(Setting::Password) is None,
            },
    {
        match &self.password {
            Some(c) => Some(c.value()),
            None => None,
        }
    }

    /// Returns the resolved `P4CHARSET` value, if any source supplied one.
    pub fn charset(&self) -> (v: Option<&str>)
        ensures
            match v {
                Some(s) => self.spec_get(Setting::Charset) matches Some(u) && s@ == u.0,
                None => self.spec_get(Setting::Charset) is None,
            },
    {
        match &self.charset {
            Some(c) => Some(c.value()),
            None => None,
        }
    }

    /// Returns the resolved `P4HOST` value, if any source supplied one.
    pub fn host(&self) -> (v: Option<&str>)
        ensures
            match v {
                Some(s) => self.spec_get(Setting::Host) matches Some(u) && s@ == u.0,
                None => self.spec_get(Setting::Host) is None,
            },
    {
        match &self.host {
            Some(c) => Some(c.value()),
            None => None,
        }
    }
}

/// Resolves every setting from `flags`, the discovered `config_file` (if
/// any), and `environment`, in precedence order.
pub fn resolve(
    flags: &GlobalSettings,
    environment: &[(String, String)],
    config_file: Option<&ConfigFile>,
) -> (config: ResolvedConfig)
    ensures
        forall|s: Setting|
            #[trigger] config.spec_get(s) == spec_resolve_one(
                s,
                *flags,
                file_view(config_file),
                pairs_view(environment@),
            ),
{
    let port = match resolve_one(Setting::Port, flags, config_file, environment) {
        Some(v) => v,
        None => {
            proof {
                reveal_strlit("perforce:1666");
            }
            assert(false);
            ConfigValue { value: String::new(), source: Source::Default }
        },
    };
    let config = ResolvedConfig {
        port,
        user: resolve_one(Setting::User, flags, config_file, environment),
        client: resolve_one(Setting::Client, flags, config_file, environment),
        password: resolve_one(Setting::Password, flags, config_file, environment),
        charset: resolve_one(Setting::Charset, flags, config_file, environment),
        host: resolve_one(Setting::Host, flags, config_file, environment),
    };
    assert forall|s: Setting|
        #[trigger] config.spec_get(s) == spec_resolve_one(
            s,
            *flags,
            file_view(config_file),
            pairs_view(environment@),
        ) by {
        match s {
            Setting::Port => {},
            Setting::User => {},
            Setting::Client => {},
            Setting::Password => {},
            Setting::Charset => {},
            Setting::Host => {},
        }
    }
    config
}

/// Where to look for a `P4CONFIG` file: the directory the upward walk starts
/// from, and the filename to find.
#[derive(Debug, Clone, PartialEq, Eq)]
pub struct ConfigSearch {
    /// The directory the search starts from (`-d`, else the current directory).
    pub start: String,
    /// The filename `P4CONFIG` names, e.g. `.p4config`.
    pub filename: String,
}

/// Which `P4CONFIG` file to look for: only when `P4CONFIG` is set to a
/// non-empty filename, starting from the `-d` directory if given, else from
/// `start_dir`. The result is `(start, filename)`.
pub open spec fn spec_config_search(
    flags: GlobalSettings,
    env: RecordView,
    start_dir: Seq<char>,
) -> Option<(Seq<char>, Seq<char>)> {
    match env_lookup(env, "P4CONFIG"@) {
        Some(filename) => if filename.len() > 0 {
            Some(
                (
                    match opt_view(flags.dir) {
                        Some(d) => d,
                        None => start_dir,
                    },
                    filename,
                ),
            )
        } else {
            None
        },
        None => None,
    }
}

/// Decides which `P4CONFIG` file the resolver should read, if any.
pub fn config_search(flags: &GlobalSettings, environment: &[(String, String)], start_dir: &str) -> (r:
    Option<ConfigSearch>)
    ensures
        match r {
            Some(c) => spec_config_search(*flags, pairs_view(environment@), start_dir@) == Some(
                (c.start@, c.filename@),
            ),
            None => spec_config_search(*flags, pairs_view(environment@), start_dir@) is None,
        },
{
    match env_get(environment, "P4CONFIG") {
        Some(filename) => {
            if filename.is_empty() {
                return None;
            }
            let start = match &flags.dir {
                Some(d) => d.clone(),
                None => start_dir.to_owned(),
            };
            Some(ConfigSearch { start, filename: filename.to_owned() })
        },
        None => None,
    }
}

/// Law: a flag always wins; without a flag a `P4CONFIG` entry beats the
/// environment; without either the environment beats the default; a setting
/// that no source supplies and that has no default stays unresolved; and
/// `P4PORT` always resolves, since it has a default.
pub proof fn law_precedence(
    setting: Setting,
    flags: GlobalSettings,
    file: Option<ConfigFileView>,
    env: RecordView,
)
    ensures
        spec_flag(flags, setting) matches Some(v) ==> spec_resolve_one(setting, flags, file, env)
            == Some((v, SourceView::CommandLine)),
        (spec_flag(flags, setting) is None && file is Some && file->0.variables.contains_key(
            spec_variable_name(setting),
        )) ==> spec_resolve_one(setting, flags, file, env) == Some(
            (file->0.variables[spec_variable_name(setting)], SourceView::Config(file->0.path)),
        ),
        (spec_flag(flags, setting) is None && !(file is Some && file->0.variables.contains_key(
            spec_variable_name(setting),
        ))) ==> (env_lookup(env, spec_variable_name(setting)) matches Some(v) ==> spec_resolve_one(
            setting,
            flags,
            file,
            env,
        ) == Some((v, SourceView::Environment))),
        (spec_flag(flags, setting) is None && !(file is Some && file->0.variables.contains_key(
            spec_variable_name(setting),
        )) && env_lookup(env, spec_variable_name(setting)) is None && spec_default_value(setting)
            is None) ==> spec_resolve_one(setting, flags, file, env) is None,
        spec_resolve_one(Setting::Port, flags, file, env) is Some,
{
    reveal_strlit("perforce:1666");
}

/// The resolved value came from a command-line flag.
pub open spec fn from_command_line(r: Option<ConfigValueView>) -> bool {
    r matches Some(cv) && cv.1 is CommandLine
}

/// Law: each setting is taken from its own flag. A value given with `-p`,
/// `-u`, `-c`, `-P`, `-C` or `-H` resolves `P4PORT`, `P4USER`, `P4CLIENT`,
/// `P4PASSWD`, `P4CHARSET` or `P4HOST` respectively to exactly that value,
/// from the command line; and a setting whose own flag is absent never comes
/// from the command line, whatever the other flags hold.
pub proof fn law_each_flag_sets_its_setting(
    flags: GlobalSettings,
    file: Option<ConfigFileView>,
    env: RecordView,
)
    ensures
        flags.port matches Some(v) ==> spec_resolve_one(Setting::Port, flags, file, env) == Some(
            (v@, SourceView::CommandLine),
        ),
        flags.user matches Some(v) ==> spec_resolve_one(Setting::User, flags, file, env) == Some(
            (v@, SourceView::CommandLine),
        ),
        flags.client matches Some(v) ==> spec_resolve_one(Setting::Client, flags, file, env)
            == Some((v@, SourceView::CommandLine)),
        flags.password matches Some(v) ==> spec_resolve_one(Setting::Password, flags, file, env)
            == Some((v@, SourceView::CommandLine)),
        flags.charset matches Some(v) ==> spec_resolve_one(Setting::Charset, flags, file, env)
            == Some((v@, SourceView::CommandLine)),
        flags.host matches Some(v) ==> spec_resolve_one(Setting::Host, flags, file, env) == Some(
            (v@, SourceView::CommandLine),
        ),
        flags.port is None ==> !from_command_line(spec_resolve_one(Setting::Port, flags, file, env)),
        flags.user is None ==> !from_command_line(spec_resolve_one(Setting::User, flags, file, env)),
        flags.client is None ==> !from_command_line(
            spec_resolve_one(Setting::Client, flags, file, env),
        ),
        flags.password is None ==> !from_command_line(
            spec_resolve_one(Setting::Password, flags, file, env),
        ),
        flags.charset is None ==> !from_command_line(
            spec_resolve_one(Setting::Charset, flags, file, env),
        ),
        flags.host is None ==> !from_command_line(spec_resolve_one(Setting::Host, flags, file, env)),
{
}

} // verus!
