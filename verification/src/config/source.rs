//! Where a resolved configuration value came from.
use vstd::prelude::*;

verus! {

/// The origin of a resolved configuration value, in precedence order.
#[derive(Debug, Clone, PartialEq, Eq, Hash)]
#[non_exhaustive]
pub enum Source {
    /// A command-line global flag, e.g. `-p tcp:host:1666`. Highest precedence.
    CommandLine,
    /// A `P4CONFIG` file, with the path of the file the value was read from.
    Config(String),
    /// A process environment variable, e.g. `P4PORT`.
    Environment,
    /// A value stored by `p4 set` in the Windows registry (not read yet).
    Registry,
    /// A compiled-in default. Lowest precedence.
    Default,
}

/// The abstract value of a [`Source`].
pub enum SourceView {
    CommandLine,
    Config(Seq<char>),
    Environment,
    Registry,
    Default,
}

impl View for Source {
    type V = SourceView;

    open spec fn view(&self) -> SourceView {
        match self {
            Source::CommandLine => SourceView::CommandLine,
            Source::Config(path) => SourceView::Config(path@),
            Source::Environment => SourceView::Environment,
            Source::Registry => SourceView::Registry,
            Source::Default => SourceView::Default,
        }
    }
}

impl Source {
    /// Returns the `P4CONFIG` file path if this value came from one.
    pub fn config_path(&self) -> (path: Option<&str>)
        ensures
            match path {
                Some(p) => self@ == SourceView::Config(p@),
                None => !(self@ is Config),
            },
    {
        match self {
            Source::Config(path) => Some(path.as_str()),
            _ => None,
        }
    }
}

} // verus!
