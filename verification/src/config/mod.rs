//! Perforce-compatible configuration resolution.
//!
//! Settings (`P4PORT`, `P4USER`, `P4CLIENT`, `P4PASSWD`, `P4CHARSET`,
//! `P4HOST`) resolve from, highest precedence first: command-line flags, the
//! nearest `P4CONFIG` file, environment variables, then compiled-in defaults.
pub mod config_file;
pub mod resolved;
pub mod setting;
pub mod source;

pub use config_file::{discover_step, parse, CandidateRead, ConfigFile, ConfigVariables, SearchStep};
pub use resolved::{config_search, resolve, ConfigSearch, ConfigValue, GlobalSettings, ResolvedConfig};
pub use setting::Setting;
pub use source::Source;
