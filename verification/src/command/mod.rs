//! The commands of the program: mount and unmount.

use vstd::prelude::*;

pub mod mount;
pub mod unmount;

use crate::command::mount::MountArgs;
use crate::command::unmount::UnmountArgs;

verus! {

/// A filesystem path, carried through opaquely.
#[verifier::external_type_specification]
#[verifier::external_body]
pub struct ExPathBuf(std::path::PathBuf);

/// How `format!("{:?}", ..)` writes a path: quoted, with escapes.
pub uninterp spec fn path_debug_text(path: std::path::PathBuf) -> Seq<char>;

/// Writes a path as `format!("{:?}", ..)` does, through `Path`'s `Debug`.
/// Claimed: the result is `path_debug_text` of the path, a function of the
/// path alone.
#[verifier::external_body]
pub(crate) fn path_debug(path: &std::path::PathBuf) -> (r: String)
    ensures
        r@ == path_debug_text(*path),
{
    format!("{:?}", path)
}

/// The operating system that the program runs on, as far as the commands
/// depend on it.
#[derive(Debug, Clone, Copy, PartialEq, Eq, Structural)]
pub enum Platform {
    Linux,
    MacOs,
    Other,
}

/// What the program is asked to do.
#[derive(Debug)]
pub enum Command {
    /// Mount the virtual file system.
    Mount(MountArgs),
    /// Unmount the virtual file system.
    Unmount(UnmountArgs),
}

} // verus!
