//! The command-line surface, as plain data: which command was asked for and
//! with which arguments. The surrounding program parses the real command
//! line into these values.

use vstd::prelude::*;

verus! {

/// One invocation of the program.
pub struct Cli {
    pub command: Commands,
}

/// The commands the program offers.
pub enum Commands {
    /// Launch the interactive wizard, on the given target path.
    Init { path: String },
    /// Apply one or more stacks directly to a target path.
    Config { stacks: Vec<String>, path: Option<String> },
    /// List the stacks of the catalog.
    List,
}

} // verus!
