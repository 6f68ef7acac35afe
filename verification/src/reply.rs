//! Filling the kernel's directory reply buffer with a listing.

use vstd::prelude::*;

use crate::fs::{DirListing, FileKind, ListingView};
use crate::provider::name_bytes;

verus! {

/// The directory reply of `fuser`, which collects listing entries until its
/// buffer is full.
#[verifier::external_type_specification]
#[verifier::external_body]
pub struct ExReplyDirectory(fuser::ReplyDirectory);

/// The entries that a directory reply holds so far, in the order they were
/// added: inode, offset, kind and name bytes.
pub uninterp spec fn reply_directory_items(reply: fuser::ReplyDirectory) -> Seq<
    (u64, u64, FileKind, Seq<u8>),
>;

/// Whether a directory reply has room for one more entry whose name has
/// `name_len` bytes: its buffer, with the entry's header and name padded to
/// 8 bytes added, stays within the size that the kernel asked for. This
/// depends on the reply alone (what it holds and the size it was made
/// with) and on the name's length.
pub uninterp spec fn reply_directory_fits(reply: fuser::ReplyDirectory, name_len: nat) -> bool;

/// What a listing entry becomes in a directory reply.
pub open spec fn reply_item(entry: ListingView) -> (u64, u64, FileKind, Seq<u8>) {
    (entry.ino, entry.offset, entry.kind, name_bytes(entry.name))
}

/// Adds one entry to a directory reply with `fuser::ReplyDirectory::add`.
/// Claimed, as `fuser`'s source shows: when the buffer has no room for the
/// entry (`reply_directory_fits` is false for the name's length) the call
/// returns `true` and the reply is unchanged; otherwise it returns `false`
/// and the entry is appended. The buffer size itself, which the kernel
/// chose, is not stated. A name longer than `u32::MAX` bytes makes `fuser`
/// panic, so it is excluded.
#[verifier::external_body]
fn reply_add(reply: &mut fuser::ReplyDirectory, ino: u64, offset: u64, kind: FileKind, name: &str) -> (full: bool)
    requires
        name_bytes(name@).len() <= u32::MAX,
    ensures
        full == !reply_directory_fits(*old(reply), name_bytes(name@).len()),
        full ==> *final(reply) == *old(reply),
        full ==> reply_directory_items(*final(reply)) == reply_directory_items(*old(reply)),
        !full ==> reply_directory_items(*final(reply)) == reply_directory_items(*old(reply)).push(
            (ino, offset, kind, name_bytes(name@)),
        ),
{
    let kind = match kind {
        FileKind::Directory => fuser::FileType::Directory,
        FileKind::RegularFile => fuser::FileType::RegularFile,
    };
    reply.add(fuser::INodeNo(ino), offset, kind, name)
}

/// Adds the entries of `listing` to `reply` in order, until the reply's
/// buffer has no room for the next one; returns how many were added.
pub fn fill_directory(reply: &mut fuser::ReplyDirectory, listing: &[DirListing<'_>]) -> (added: usize)
    requires
        forall|k: int| 0 <= k < listing@.len() ==> name_bytes(#[trigger] listing@[k].name@).len() <= u32::MAX,
    ensures
        added <= listing@.len(),
        reply_directory_items(*final(reply)) == reply_directory_items(*old(reply)) + listing@.take(
            added as int,
        ).map_values(|e: DirListing<'_>| reply_item(e@)),
        added < listing@.len() ==> !reply_directory_fits(
            *final(reply),
            name_bytes(listing@[added as int].name@).len(),
        ),
{
    let mut added: usize = 0;
    while added < listing.len()
        invariant
            added <= listing@.len(),
            forall|k: int| 0 <= k < listing@.len() ==> name_bytes(#[trigger] listing@[k].name@).len() <= u32::MAX,
            reply_directory_items(*reply) == reply_directory_items(*old(reply)) + listing@.take(
                added as int,
            ).map_values(|e: DirListing<'_>| reply_item(e@)),
        ensures
            added <= listing@.len(),
            reply_directory_items(*reply) == reply_directory_items(*old(reply)) + listing@.take(
                added as int,
            ).map_values(|e: DirListing<'_>| reply_item(e@)),
            added < listing@.len() ==> !reply_directory_fits(
                *reply,
                name_bytes(listing@[added as int].name@).len(),
            ),
        decreases listing@.len() - added,
    {
        let entry = &listing[added];
        let ghost before = reply_directory_items(*reply);
        if reply_add(reply, entry.ino, entry.offset, entry.kind, entry.name) {
            break;
        }
        proof {
            assert(listing@.take(added + 1).map_values(|e: DirListing<'_>| reply_item(e@)) =~= listing@.take(
                added as int,
            ).map_values(|e: DirListing<'_>| reply_item(e@)).push(reply_item(entry@)));
        }
        added = added + 1;
    }
    added
}

} // verus!
