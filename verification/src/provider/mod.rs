//! Providers of secrets, and the entries they expose as files.

use vstd::prelude::*;
use vstd::utf8::encode_utf8;

use crate::order::bytes_lt;

pub mod json;



verus! {

/// One file of the file system: its flat name and its contents.
#[derive(Debug, Clone)]
pub struct ShhhFsEntry {
    pub name: String,
    pub contents: Vec<u8>,
}

/// A source of secrets, presented as a list of file entries.
pub trait ShhhFsProvider: Send + Sync {
    /// The entries that the provider exposes, in the order it lists them.
    spec fn entry_list(&self) -> Seq<ShhhFsEntry>;

    /// The entries that the provider exposes.
    fn entries(&self) -> (r: &[ShhhFsEntry])
        ensures
            r@ == self.entry_list(),
    ;
}

/// The bytes of a name, as the file system hands them to the kernel.
pub open spec fn name_bytes(name: Seq<char>) -> Seq<u8> {
    encode_utf8(name)
}

/// `a` sorts strictly before `b`, comparing their UTF-8 bytes.
pub open spec fn name_lt(a: Seq<char>, b: Seq<char>) -> bool {
    bytes_lt(name_bytes(a), name_bytes(b))
}

/// A name that can stand as a file directly inside the mount point: not
/// empty, not `.` or `..`, and without a `/`.
pub open spec fn valid_entry_name(name: Seq<char>) -> bool {
    &&& name.len() > 0
    &&& name != seq!['.']
    &&& name != seq!['.', '.']
    &&& !name.contains('/')
}

/// The entries are listed in strictly increasing order of their names.
pub open spec fn sorted_by_name(entries: Seq<ShhhFsEntry>) -> bool {
    forall|i: int, j: int|
        0 <= i < j < entries.len() ==> name_lt(#[trigger] entries[i].name@, #[trigger] entries[j].name@)
}

/// No two entries share a name.
pub open spec fn names_distinct(entries: Seq<ShhhFsEntry>) -> bool {
    forall|i: int, j: int|
        0 <= i < entries.len() && 0 <= j < entries.len() && i != j ==> #[trigger] entries[i].name@
            != #[trigger] entries[j].name@
}

} // verus!
