//! The command line of the program, as data: which subcommand was given.
use vstd::prelude::*;

verus! {

/// Documentation builder for documentation embedded in source files.
#[derive(Debug, PartialEq, Eq, Clone)]
pub struct HyperlitCliArgs {
    /// The subcommand, if one was given.
    pub command: Option<HyperlitCliCommands>,
}

/// The subcommands of the program.
#[derive(Debug, PartialEq, Eq, Clone)]
pub enum HyperlitCliCommands {
    /// Create and initialize a new hyperlit project.
    Init {},
    /// Watch for filesystem changes and rebuild automatically.
    Watch {},
}

} // verus!
