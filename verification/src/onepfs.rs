//! The command line of `1pfs`, the first version of the program, which has
//! only a mount command without arguments.

use vstd::prelude::*;

verus! {

/// The parsed command line of `1pfs`.
#[derive(Debug)]
pub struct Cli {
    /// Directory to run the command in.
    pub cd: Option<std::path::PathBuf>,
    /// The command to run.
    pub command: Option<Command>,
}

/// What `1pfs` is asked to do.
#[derive(Debug)]
pub enum Command {
    /// Mount the virtual file system.
    Mount(MountArgs),
}

/// Arguments of the `1pfs` mount command: none yet.
#[derive(Debug)]
pub struct MountArgs {}

/// The `1pfs` mount command.
#[derive(Debug)]
pub struct MountCmd {}

} // verus!
