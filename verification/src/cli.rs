//! The arguments of the command line, as plain values.

use vstd::prelude::*;

verus! {

/// The arguments of one invocation.
#[derive(Debug, Clone, PartialEq, Eq)]
pub struct VexDocArgs {
    pub subcommands: VexDocSubcommands,
}

/// The commands.
#[derive(Debug, Clone, PartialEq, Eq)]
pub enum VexDocSubcommands {
    /// Writes an empty configuration file.
    Init(InitArgs),
    /// Generates the documentation.
    Generate(GenArgs),
}

/// The arguments of `init`.
#[derive(Debug, Clone, PartialEq, Eq)]
pub struct InitArgs {
    /// The directory in which the configuration file is created.
    pub dir: String,
}

/// The arguments of `generate`.
#[derive(Debug, Clone, PartialEq, Eq)]
pub struct GenArgs {
    /// The files to document; where there are none, the files are discovered.
    pub files: Vec<String>,
    /// Whether each file is announced as it is processed.
    pub verbose: bool,
    /// Whether progress and notices are suppressed.
    pub quiet: bool,
}

} // verus!
