//! The command line of the program.

use vstd::prelude::*;

use crate::command::Command;

verus! {

/// The parsed command line.
#[derive(Debug)]
pub struct Cli {
    /// Directory to run the command in.
    pub cd: Option<std::path::PathBuf>,
    /// The command to run.
    pub command: Option<Command>,
}

} // verus!
