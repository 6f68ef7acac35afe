//! The file system itself: one directory, the mount point, holding one
//! read-only file per entry of the provider, whose contents are read only
//! with the user's approval.

use vstd::prelude::*;
use vstd::slice::slice_subrange;

use crate::order::bytes_equal;
use crate::reply::{fill_directory, reply_directory_fits, reply_directory_items, reply_item};
use crate::provider::{name_bytes, ShhhFsEntry, ShhhFsProvider};

verus! {

/// The inode number of the mount point.
pub const ROOT_INO: u64 = 1;

/// The inode number of the first file; the file at index `i` of the
/// provider's entries has inode number `FIRST_FILE_INO + i`.
pub const FIRST_FILE_INO: u64 = 2;

/// The block size that the file system reports.
pub const BLOCK_SIZE: u32 = 4096;

/// The two kinds of node in the file system.
#[derive(Debug, Clone, Copy, PartialEq, Eq, Structural)]
pub enum FileKind {
    Directory,
    RegularFile,
}

/// A point in time, as the system clock gives it.
#[verifier::external_type_specification]
#[verifier::external_body]
pub struct ExSystemTime(std::time::SystemTime);

/// The attributes of a node.
#[derive(Debug, Clone, Copy, PartialEq, Eq)]
pub struct FileAttrs {
    pub ino: u64,
    pub size: u64,
    pub blocks: u64,
    pub atime: std::time::SystemTime,
    pub mtime: std::time::SystemTime,
    pub ctime: std::time::SystemTime,
    pub crtime: std::time::SystemTime,
    pub kind: FileKind,
    pub perm: u16,
    pub nlink: u32,
    pub uid: u32,
    pub gid: u32,
    pub rdev: u32,
    pub blksize: u32,
    pub flags: u32,
}

/// How a request on the file system fails.
#[derive(Debug, Clone, Copy, PartialEq, Eq, Structural)]
pub enum FsError {
    /// No such node (`ENOENT`).
    NotFound,
    /// The user did not approve access to the file (`EACCES`).
    AccessDenied,
}

/// The user's answer to a request for access to a secret, which the caller
/// obtains from outside (a prompt, a biometric check).
#[derive(Debug, Clone, Copy, PartialEq, Eq, Structural)]
pub enum Approval {
    Granted,
    Denied,
}

/// The file handle that an approved open hands out; reads are served only
/// through it.
pub const APPROVED_HANDLE: u64 = 0;

/// The file that inode `ino` names, with its index, if it names one.
pub open spec fn entry_at_ino(files: Seq<ShhhFsEntry>, ino: u64) -> Option<(int, ShhhFsEntry)> {
    match index_of_ino(files.len() as int, ino as int) {
        Some(i) => Some((i, files[i])),
        None => None,
    }
}

/// The inode number of the file at index `i`.
pub open spec fn ino_of(i: int) -> int {
    FIRST_FILE_INO + i
}

/// The index of the file that inode `ino` names, if it names one.
pub open spec fn index_of_ino(file_count: int, ino: int) -> Option<int> {
    if FIRST_FILE_INO <= ino < FIRST_FILE_INO + file_count {
        Some(ino - FIRST_FILE_INO)
    } else {
        None
    }
}

/// The attributes of the mount point, which was made at `time`.
pub open spec fn root_attrs(uid: u32, gid: u32, time: std::time::SystemTime) -> FileAttrs {
    FileAttrs {
        ino: ROOT_INO,
        size: 0,
        blocks: 0,
        atime: time,
        mtime: time,
        ctime: time,
        crtime: time,
        kind: FileKind::Directory,
        perm: 0o755,
        nlink: 2,
        uid,
        gid,
        rdev: 0,
        blksize: BLOCK_SIZE,
        flags: 0,
    }
}

/// The attributes of a file with inode `ino` and `len` bytes of contents, in
/// a file system made at `time`.
pub open spec fn file_attrs(ino: u64, len: nat, uid: u32, gid: u32, time: std::time::SystemTime) -> FileAttrs {
    FileAttrs {
        ino,
        size: len as u64,
        blocks: 1,
        atime: time,
        mtime: time,
        ctime: time,
        crtime: time,
        kind: FileKind::RegularFile,
        perm: 0o400,
        nlink: 1,
        uid,
        gid,
        rdev: 0,
        blksize: BLOCK_SIZE,
        flags: 0,
    }
}

/// File `i` is the first whose name has the bytes `name`.
pub open spec fn first_named(files: Seq<ShhhFsEntry>, name: Seq<u8>, i: int) -> bool {
    &&& 0 <= i < files.len()
    &&& name_bytes(files[i].name@) == name
    &&& forall|j: int| 0 <= j < i ==> name_bytes(#[trigger] files[j].name@) != name
}

/// What a lookup of `name` in directory `parent` answers.
pub open spec fn lookup_result(
    files: Seq<ShhhFsEntry>,
    uid: u32,
    gid: u32,
    time: std::time::SystemTime,
    parent: u64,
    name: Seq<u8>,
) -> Result<FileAttrs, FsError> {
    if parent == ROOT_INO && exists|i: int| first_named(files, name, i) {
        let i = choose|i: int| first_named(files, name, i);
        Ok(file_attrs(ino_of(i) as u64, files[i].contents@.len(), uid, gid, time))
    } else {
        Err(FsError::NotFound)
    }
}

/// What a request for the attributes of inode `ino` answers.
pub open spec fn getattr_result(
    files: Seq<ShhhFsEntry>,
    uid: u32,
    gid: u32,
    time: std::time::SystemTime,
    ino: u64,
) -> Result<FileAttrs, FsError> {
    if ino == ROOT_INO {
        Ok(root_attrs(uid, gid, time))
    } else {
        match index_of_ino(files.len() as int, ino as int) {
            Some(i) => Ok(file_attrs(ino, files[i].contents@.len(), uid, gid, time)),
            None => Err(FsError::NotFound),
        }
    }
}

/// What asking for approval to open inode `ino` answers: the name of the
/// file to ask about, for a file.
pub open spec fn approval_request_result(files: Seq<ShhhFsEntry>, ino: u64) -> Result<Seq<char>, FsError> {
    match index_of_ino(files.len() as int, ino as int) {
        Some(i) => Ok(files[i].name@),
        None => Err(FsError::NotFound),
    }
}

/// What opening inode `ino` answers, given the user's answer: the approved
/// handle for a file whose access was granted, a refusal for a file whose
/// access was denied.
pub open spec fn open_result(files: Seq<ShhhFsEntry>, ino: u64, approval: Approval) -> Result<u64, FsError> {
    match index_of_ino(files.len() as int, ino as int) {
        Some(_) => if approval == Approval::Granted {
            Ok(APPROVED_HANDLE)
        } else {
            Err(FsError::AccessDenied)
        },
        None => Err(FsError::NotFound),
    }
}

/// The bytes that a read of at most `size` bytes at `offset` gives of
/// `contents`: none past the end.
pub open spec fn read_bytes(contents: Seq<u8>, offset: int, size: int) -> Seq<u8> {
    let start = if offset < contents.len() { offset } else { contents.len() as int };
    let end = if size < contents.len() - start { start + size } else { contents.len() as int };
    contents.subrange(start, end)
}

/// What reading inode `ino` through file handle `fh` answers: the bytes,
/// only through the handle of an approved open.
pub open spec fn read_result(files: Seq<ShhhFsEntry>, ino: u64, fh: u64, offset: u64, size: u32) -> Result<
    Seq<u8>,
    FsError,
> {
    match index_of_ino(files.len() as int, ino as int) {
        Some(i) => if fh == APPROVED_HANDLE {
            Ok(read_bytes(files[i].contents@, offset as int, size as int))
        } else {
            Err(FsError::AccessDenied)
        },
        None => Err(FsError::NotFound),
    }
}

/// What a directory listing shows at one position: the inode, the offset
/// at which the listing goes on after it, the kind and the name.
pub struct ListingView {
    pub ino: u64,
    pub offset: u64,
    pub kind: FileKind,
    pub name: Seq<char>,
}

/// The listing of the mount point at position `pos`: `.` and `..` first,
/// then the files in the order of their inode numbers.
pub open spec fn listing_at(files: Seq<ShhhFsEntry>, pos: int) -> ListingView {
    if pos == 0 {
        ListingView { ino: ROOT_INO, offset: 1, kind: FileKind::Directory, name: seq!['.'] }
    } else if pos == 1 {
        ListingView { ino: ROOT_INO, offset: 2, kind: FileKind::Directory, name: seq!['.', '.'] }
    } else {
        ListingView {
            ino: ino_of(pos - 2) as u64,
            offset: (pos + 1) as u64,
            kind: FileKind::RegularFile,
            name: files[pos - 2].name@,
        }
    }
}

/// The whole listing of the mount point.
pub open spec fn directory_listing(files: Seq<ShhhFsEntry>) -> Seq<ListingView> {
    Seq::new(files.len() + 2, |pos: int| listing_at(files, pos))
}

/// The listing of the mount point from position `offset` on.
pub open spec fn listing_from(files: Seq<ShhhFsEntry>, offset: int) -> Seq<ListingView> {
    let all = directory_listing(files);
    if offset < all.len() {
        all.skip(offset)
    } else {
        Seq::empty()
    }
}

/// One entry of a directory listing.
#[derive(Debug, Clone, Copy)]
pub struct DirListing<'a> {
    pub ino: u64,
    pub offset: u64,
    pub kind: FileKind,
    pub name: &'a str,
}

impl<'a> View for DirListing<'a> {
    type V = ListingView;

    open spec fn view(&self) -> ListingView {
        ListingView { ino: self.ino, offset: self.offset, kind: self.kind, name: self.name@ }
    }
}

/// The file system over the entries of a provider, owned by `uid` and `gid`
/// and made at `created_at`, which every node gives as all its times.
pub struct ShhhFs<P: ShhhFsProvider> {
    pub provider: P,
    pub uid: u32,
    pub gid: u32,
    pub created_at: std::time::SystemTime,
}

impl<P: ShhhFsProvider> ShhhFs<P> {
    /// The files, in the order of their inode numbers.
    pub open spec fn files(&self) -> Seq<ShhhFsEntry> {
        self.provider.entry_list()
    }

    /// A file system over the provider's entries, owned by `uid` and `gid`,
    /// made at `created_at`.
    pub fn new(provider: P, uid: u32, gid: u32, created_at: std::time::SystemTime) -> (r: Self)
        ensures
            r.provider == provider,
            r.uid == uid,
            r.gid == gid,
            r.created_at == created_at,
    {
        ShhhFs { provider, uid, gid, created_at }
    }

    /// The attributes of the mount point: all four times are the time the
    /// file system was made.
    pub fn root_attr(&self) -> (r: FileAttrs)
        ensures
            r == root_attrs(self.uid, self.gid, self.created_at),
            r.atime == self.created_at && r.mtime == self.created_at && r.ctime == self.created_at
                && r.crtime == self.created_at,
    {
        FileAttrs {
            ino: ROOT_INO,
            size: 0,
            blocks: 0,
            atime: self.created_at,
            mtime: self.created_at,
            ctime: self.created_at,
            crtime: self.created_at,
            kind: FileKind::Directory,
            perm: 0o755,
            nlink: 2,
            uid: self.uid,
            gid: self.gid,
            rdev: 0,
            blksize: BLOCK_SIZE,
            flags: 0,
        }
    }

    /// The inode number of the file at `index`.
    pub fn file_ino(index: usize) -> (r: u64)
        requires
            index + FIRST_FILE_INO <= u64::MAX,
        ensures
            r == ino_of(index as int),
    {
        FIRST_FILE_INO + index as u64
    }

    /// The file that inode `ino` names, with its index.
    pub fn entry_by_ino(&self, ino: u64) -> (r: Option<(usize, &ShhhFsEntry)>)
        ensures
            r is Some <==> entry_at_ino(self.files(), ino) is Some,
            r matches Some((i, e)) ==> entry_at_ino(self.files(), ino) == Some((i as int, *e)),
    {
        let entries = self.provider.entries();
        if ino < FIRST_FILE_INO {
            return None;
        }
        let offset: u64 = ino - FIRST_FILE_INO;
        if offset < entries.len() as u64 {
            let index: usize = offset as usize;
            Some((index, &entries[index]))
        } else {
            None
        }
    }

    /// The attributes of file `entry`, with inode number `ino`: all four
    /// times are the time the file system was made.
    pub fn file_attr(&self, ino: u64, entry: &ShhhFsEntry) -> (r: FileAttrs)
        ensures
            r == file_attrs(ino, entry.contents@.len(), self.uid, self.gid, self.created_at),
            r.atime == self.created_at && r.mtime == self.created_at && r.ctime == self.created_at
                && r.crtime == self.created_at,
    {
        FileAttrs {
            ino,
            size: entry.contents.len() as u64,
            blocks: 1,
            atime: self.created_at,
            mtime: self.created_at,
            ctime: self.created_at,
            crtime: self.created_at,
            kind: FileKind::RegularFile,
            perm: 0o400,
            nlink: 1,
            uid: self.uid,
            gid: self.gid,
            rdev: 0,
            blksize: BLOCK_SIZE,
            flags: 0,
        }
    }

    /// Looks up `name` in directory `parent`: only the mount point holds
    /// files, and the first file of that name is found.
    pub fn lookup(&self, parent: u64, name: &[u8]) -> (r: Result<FileAttrs, FsError>)
        requires
            self.files().len() + FIRST_FILE_INO <= u64::MAX + 1,
        ensures
            r == lookup_result(self.files(), self.uid, self.gid, self.created_at, parent, name@),
    {
        if parent != ROOT_INO {
            return Err(FsError::NotFound);
        }
        let entries = self.provider.entries();
        let mut index: usize = 0;
        while index < entries.len()
            invariant
                entries@ == self.files(),
                self.files().len() + FIRST_FILE_INO <= u64::MAX + 1,
                parent == ROOT_INO,
                index <= entries@.len(),
                forall|j: int| 0 <= j < index ==> name_bytes(#[trigger] entries@[j].name@) != name@,
            decreases entries@.len() - index,
        {
            let entry = &entries[index];
            if bytes_equal(name, entry.name.as_str().as_bytes()) {
                let ino: u64 = Self::file_ino(index);
                proof {
                    assert(first_named(self.files(), name@, index as int));
                    let c = choose|i: int| first_named(self.files(), name@, i);
                    if c < index {
                        assert(name_bytes(entries@[c].name@) != name@);
                    } else if c > index {
                        assert(name_bytes(self.files()[index as int].name@) != name@);
                    }
                }
                return Ok(self.file_attr(ino, entry));
            }
            index = index + 1;
        }
        proof {
            assert forall|i: int| !first_named(self.files(), name@, i) by {
                if 0 <= i < entries@.len() {
                    assert(name_bytes(entries@[i].name@) != name@);
                }
            }
        }
        Err(FsError::NotFound)
    }

    /// The attributes of inode `ino`: the mount point or a file.
    pub fn getattr(&self, ino: u64) -> (r: Result<FileAttrs, FsError>)
        ensures
            r == getattr_result(self.files(), self.uid, self.gid, self.created_at, ino),
    {
        if ino == ROOT_INO {
            return Ok(self.root_attr());
        }
        match self.entry_by_ino(ino) {
            Some((_index, entry)) => Ok(self.file_attr(ino, entry)),
            None => Err(FsError::NotFound),
        }
    }

    /// The first step of opening inode `ino`: the name of the file whose
    /// access the user must approve; nothing but a file can be opened.
    pub fn approval_request(&self, ino: u64) -> (r: Result<&str, FsError>)
        ensures
            r matches Ok(name) ==> approval_request_result(self.files(), ino) == Ok::<Seq<char>, FsError>(name@),
            r matches Err(e) ==> approval_request_result(self.files(), ino) == Err::<Seq<char>, FsError>(e),
    {
        match self.entry_by_ino(ino) {
            Some((_index, entry)) => Ok(entry.name.as_str()),
            None => Err(FsError::NotFound),
        }
    }

    /// Opens inode `ino` with the user's answer to the approval request:
    /// a file whose access was granted opens with the approved handle; a
    /// file whose access was denied is refused; nothing else opens.
    pub fn open(&self, ino: u64, approval: Approval) -> (r: Result<u64, FsError>)
        ensures
            r == open_result(self.files(), ino, approval),
    {
        if self.entry_by_ino(ino).is_none() {
            Err(FsError::NotFound)
        } else if approval == Approval::Granted {
            Ok(APPROVED_HANDLE)
        } else {
            Err(FsError::AccessDenied)
        }
    }

    /// Reads at most `size` bytes of file `ino` from `offset` on, through
    /// file handle `fh`: only the handle of an approved open reads; at or
    /// past the end of the file nothing is read.
    pub fn read(&self, ino: u64, fh: u64, offset: u64, size: u32) -> (r: Result<&[u8], FsError>)
        ensures
            r is Ok <==> read_result(self.files(), ino, fh, offset, size) is Ok,
            r matches Ok(data) ==> read_result(self.files(), ino, fh, offset, size) == Ok::<Seq<u8>, FsError>(
                data@,
            ),
            r matches Err(e) ==> read_result(self.files(), ino, fh, offset, size) == Err::<Seq<u8>, FsError>(e),
    {
        let entry = match self.entry_by_ino(ino) {
            Some((_index, entry)) => entry,
            None => return Err(FsError::NotFound),
        };
        if fh != APPROVED_HANDLE {
            return Err(FsError::AccessDenied);
        }
        let contents = entry.contents.as_slice();
        let len: usize = contents.len();
        let start: usize = if offset < len as u64 {
            offset as usize
        } else {
            len
        };
        let remaining: usize = len - start;
        let end: usize = if (size as u64) < remaining as u64 {
            start + size as usize
        } else {
            len
        };
        Ok(slice_subrange(contents, start, end))
    }
    /// Lists directory `ino` from position `offset` on: only the mount point
    /// is a directory; it lists `.` and `..`, then every file.
    pub fn readdir_entries(&self, ino: u64, offset: u64) -> (r: Result<Vec<DirListing<'_>>, FsError>)
        requires
            self.files().len() + 3 <= usize::MAX + 1,
        ensures
            ino != ROOT_INO ==> r == Err::<Vec<DirListing<'_>>, FsError>(FsError::NotFound),
            ino == ROOT_INO ==> (r matches Ok(listing) && listing@.map_values(|e: DirListing<'_>| e@)
                == listing_from(self.files(), offset as int)),
    {
        if ino != ROOT_INO {
            return Err(FsError::NotFound);
        }
        let dot = ".";
        let dot_dot = "..";
        proof {
            reveal_strlit(".");
            reveal_strlit("..");
        }
        let ghost all = directory_listing(self.files());
        let mut listing: Vec<DirListing<'_>> = Vec::new();
        if offset == 0 {
            listing.push(DirListing { ino: ROOT_INO, offset: 1, kind: FileKind::Directory, name: dot });
        }
        if offset <= 1 {
            listing.push(DirListing { ino: ROOT_INO, offset: 2, kind: FileKind::Directory, name: dot_dot });
        }
        let entries = self.provider.entries();
        let file_offset = offset.saturating_sub(2);
        let mut index: usize = if file_offset < entries.len() as u64 {
            file_offset as usize
        } else {
            entries.len()
        };
        let ghost start: int = if offset < 2 { offset as int } else { index + 2 };
        proof {
            assert(dot@ =~= seq!['.']);
            assert(dot_dot@ =~= seq!['.', '.']);
            if offset == 0 {
                assert(listing@[0]@ == all[0]);
                assert(listing@[1]@ == all[1]);
            } else if offset == 1 {
                assert(listing@[0]@ == all[1]);
            }
            assert(listing@.map_values(|e: DirListing<'_>| e@) =~= all.subrange(start, index + 2));
        }
        while index < entries.len()
            invariant
                entries@ == self.files(),
                all == directory_listing(self.files()),
                self.files().len() + 3 <= usize::MAX + 1,
                index <= entries@.len(),
                start <= index + 2,
                0 <= start,
                listing@.map_values(|e: DirListing<'_>| e@) =~= all.subrange(start, index + 2),
            decreases entries@.len() - index,
        {
            let entry = &entries[index];
            let item = DirListing {
                ino: Self::file_ino(index),
                offset: (FIRST_FILE_INO as usize + index + 1) as u64,
                kind: FileKind::RegularFile,
                name: entry.name.as_str(),
            };
            assert(item@ == all[index + 2]);
            let ghost before = listing@.map_values(|e: DirListing<'_>| e@);
            listing.push(item);
            index = index + 1;
            proof {
                assert(listing@.map_values(|e: DirListing<'_>| e@) =~= before.push(item@));
                assert(before.push(item@) =~= all.subrange(start, index + 2));
            }
        }
        proof {
            assert(listing@.map_values(|e: DirListing<'_>| e@) =~= listing_from(self.files(), offset as int));
        }
        Ok(listing)
    }

    /// Answers a request to list directory `ino` from position `offset` on:
    /// the entries of the listing go into `reply` in order until its buffer
    /// has no room for the next one; returns how many went in.
    pub fn readdir(&self, ino: u64, offset: u64, reply: &mut fuser::ReplyDirectory) -> (r: Result<usize, FsError>)
        requires
            self.files().len() + 3 <= usize::MAX + 1,
            forall|i: int|
                0 <= i < self.files().len() && offset <= i + 2 ==> name_bytes(#[trigger] self.files()[i].name@).len()
                    <= u32::MAX,
        ensures
            ino != ROOT_INO ==> r == Err::<usize, FsError>(FsError::NotFound) && reply_directory_items(
                *final(reply),
            ) == reply_directory_items(*old(reply)),
            ino == ROOT_INO ==> (r matches Ok(added) && added <= listing_from(self.files(), offset as int).len()
                && reply_directory_items(*final(reply)) == reply_directory_items(*old(reply))
                + listing_from(self.files(), offset as int).take(added as int).map_values(
                |e: ListingView| reply_item(e),
            ) && (added < listing_from(self.files(), offset as int).len() ==> !reply_directory_fits(
                *final(reply),
                name_bytes(listing_from(self.files(), offset as int)[added as int].name).len(),
            ))),
    {
        let listing = match self.readdir_entries(ino, offset) {
            Ok(listing) => listing,
            Err(e) => return Err(e),
        };
        let ghost shown = listing_from(self.files(), offset as int);
        assert(ino == ROOT_INO);
        assert(listing@.map_values(|e: DirListing<'_>| e@) == shown);
        proof {
            reveal_strlit(".");
            reveal_strlit("..");
            assert forall|k: int| 0 <= k < listing@.len() implies name_bytes(#[trigger] listing@[k].name@).len()
                <= u32::MAX by {
                assert(listing@[k]@ == listing@.map_values(|e: DirListing<'_>| e@)[k]);
                assert(listing@.map_values(|e: DirListing<'_>| e@)[k] == shown[k]);
                assert(offset < directory_listing(self.files()).len());
                let pos = offset + k;
                assert(shown[k] == directory_listing(self.files())[pos]);
                assert(shown[k] == listing_at(self.files(), pos));
                if pos >= 2 {
                } else if pos == 0 {
                    assert(name_bytes(seq!['.']).len() == 1) by {
                        reveal_with_fuel(vstd::utf8::encode_utf8, 2);
                    }
                } else {
                    assert(name_bytes(seq!['.', '.']).len() == 2) by {
                        reveal_with_fuel(vstd::utf8::encode_utf8, 3);
                    }
                }
            }
        }
        let added: usize = fill_directory(reply, listing.as_slice());
        proof {
            assert(listing@.take(added as int).map_values(|e: DirListing<'_>| reply_item(e@)) =~= shown.take(
                added as int,
            ).map_values(|e: ListingView| reply_item(e)));
            if added < shown.len() {
                assert(listing@[added as int]@ == listing@.map_values(|e: DirListing<'_>| e@)[added as int]);
            }
        }
        Ok(added)
    }
}

} // verus!
