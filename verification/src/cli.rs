//! Command-line options.
use vstd::prelude::*;

verus! {

/// The options of the `abar` command.
#[derive(Debug, Clone, PartialEq, Eq)]
pub struct Cli {
    /// Path to `config.toml` (default: the configuration directory's `config.toml`).
    pub config: Option<String>,
    /// Path to `theme.toml` (default: resolved from `[base].theme`).
    pub theme: Option<String>,
}

} // verus!
