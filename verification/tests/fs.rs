use shhhfs::fs::{
    Approval, FileAttrs, FileKind, FsError, ShhhFs, APPROVED_HANDLE, BLOCK_SIZE, FIRST_FILE_INO, ROOT_INO,
};
use shhhfs::provider::json::JsonShhhProvider;
use std::time::{Duration, SystemTime};

fn made_at() -> SystemTime {
    SystemTime::UNIX_EPOCH + Duration::from_secs(1_700_000_000)
}

fn sample() -> ShhhFs<JsonShhhProvider> {
    let provider =
        JsonShhhProvider::from_options(r#"{"password": "hunter2", "api": "k-123", "empty": ""}"#).unwrap();
    ShhhFs::new(provider, 1000, 100, made_at())
}

fn file(ino: u64, size: u64) -> FileAttrs {
    FileAttrs {
        ino,
        size,
        blocks: 1,
        atime: made_at(),
        mtime: made_at(),
        ctime: made_at(),
        crtime: made_at(),
        kind: FileKind::RegularFile,
        perm: 0o400,
        nlink: 1,
        uid: 1000,
        gid: 100,
        rdev: 0,
        blksize: BLOCK_SIZE,
        flags: 0,
    }
}

#[test]
fn root_attributes() {
    let fs = sample();
    assert_eq!(
        fs.root_attr(),
        FileAttrs {
            ino: 1,
            size: 0,
            blocks: 0,
            atime: made_at(),
            mtime: made_at(),
            ctime: made_at(),
            crtime: made_at(),
            kind: FileKind::Directory,
            perm: 0o755,
            nlink: 2,
            uid: 1000,
            gid: 100,
            rdev: 0,
            blksize: 4096,
            flags: 0,
        }
    );
}

#[test]
fn inode_numbers_start_after_root() {
    assert_eq!(ROOT_INO, 1);
    assert_eq!(FIRST_FILE_INO, 2);
    assert_eq!(ShhhFs::<JsonShhhProvider>::file_ino(0), 2);
    assert_eq!(ShhhFs::<JsonShhhProvider>::file_ino(5), 7);
}

#[test]
fn entry_by_inode_number() {
    let fs = sample();
    // Sorted: api, empty, password.
    let (index, entry) = fs.entry_by_ino(2).unwrap();
    assert_eq!((index, entry.name.as_str()), (0, "api"));
    let (index, entry) = fs.entry_by_ino(4).unwrap();
    assert_eq!((index, entry.name.as_str()), (2, "password"));
    for i in 0..3usize {
        let (index, _) = fs.entry_by_ino(ShhhFs::<JsonShhhProvider>::file_ino(i)).unwrap();
        assert_eq!(index, i);
    }
    assert!(fs.entry_by_ino(1).is_none());
    assert!(fs.entry_by_ino(0).is_none());
    assert!(fs.entry_by_ino(5).is_none());
    assert!(fs.entry_by_ino(u64::MAX).is_none());
}

#[test]
fn file_attributes() {
    let fs = sample();
    let (_, entry) = fs.entry_by_ino(4).unwrap();
    assert_eq!(fs.file_attr(4, entry), file(4, 7));
}

#[test]
fn lookup_in_root() {
    let fs = sample();
    assert_eq!(fs.lookup(ROOT_INO, b"password"), Ok(file(4, 7)));
    assert_eq!(fs.lookup(ROOT_INO, b"api"), Ok(file(2, 5)));
    assert_eq!(fs.lookup(ROOT_INO, b"empty"), Ok(file(3, 0)));
}

#[test]
fn lookup_misses() {
    let fs = sample();
    assert_eq!(fs.lookup(ROOT_INO, b"nope"), Err(FsError::NotFound));
    assert_eq!(fs.lookup(ROOT_INO, b"pass"), Err(FsError::NotFound));
    assert_eq!(fs.lookup(ROOT_INO, b""), Err(FsError::NotFound));
    assert_eq!(fs.lookup(ROOT_INO, b"\xff"), Err(FsError::NotFound));
    // Only the mount point holds files.
    assert_eq!(fs.lookup(2, b"password"), Err(FsError::NotFound));
}

#[test]
fn getattr_of_root_files_and_unknown() {
    let fs = sample();
    assert_eq!(fs.getattr(ROOT_INO), Ok(fs.root_attr()));
    assert_eq!(fs.getattr(3), Ok(file(3, 0)));
    assert_eq!(fs.getattr(4), Ok(file(4, 7)));
    assert_eq!(fs.getattr(5), Err(FsError::NotFound));
    assert_eq!(fs.getattr(0), Err(FsError::NotFound));
}

#[test]
fn lookup_and_getattr_agree() {
    let fs = sample();
    let attrs = fs.lookup(ROOT_INO, b"api").unwrap();
    assert_eq!(fs.getattr(attrs.ino), Ok(attrs));
}

#[test]
fn open_only_files_with_approval() {
    let fs = sample();
    assert_eq!(fs.open(2, Approval::Granted), Ok(APPROVED_HANDLE));
    assert_eq!(fs.open(4, Approval::Granted), Ok(APPROVED_HANDLE));
    assert_eq!(fs.open(ROOT_INO, Approval::Granted), Err(FsError::NotFound));
    assert_eq!(fs.open(9, Approval::Granted), Err(FsError::NotFound));
}

#[test]
fn open_denied_without_approval() {
    let fs = sample();
    assert_eq!(fs.open(2, Approval::Denied), Err(FsError::AccessDenied));
    assert_eq!(fs.open(4, Approval::Denied), Err(FsError::AccessDenied));
    assert_eq!(fs.open(9, Approval::Denied), Err(FsError::NotFound));
}

#[test]
fn approval_is_asked_for_the_file_name() {
    let fs = sample();
    assert_eq!(fs.approval_request(4), Ok("password"));
    assert_eq!(fs.approval_request(2), Ok("api"));
    assert_eq!(fs.approval_request(ROOT_INO), Err(FsError::NotFound));
    assert_eq!(fs.approval_request(5), Err(FsError::NotFound));
}

#[test]
fn read_needs_the_approved_handle() {
    let fs = sample();
    assert_eq!(fs.read(4, 1, 0, 4096), Err(FsError::AccessDenied));
    assert_eq!(fs.read(4, 7, 0, 4096), Err(FsError::AccessDenied));
    assert_eq!(fs.read(9, 0, 0, 4096), Err(FsError::NotFound));
    let fh = fs.open(4, Approval::Granted).unwrap();
    assert_eq!(fh, 0);
    assert_eq!(fs.read(4, fh, 0, 4096), Ok(&b"hunter2"[..]));
}

#[test]
fn read_whole_and_parts() {
    let fs = sample();
    assert_eq!(fs.read(4, APPROVED_HANDLE, 0, 4096), Ok(&b"hunter2"[..]));
    assert_eq!(fs.read(4, APPROVED_HANDLE, 0, 3), Ok(&b"hun"[..]));
    assert_eq!(fs.read(4, APPROVED_HANDLE, 3, 2), Ok(&b"te"[..]));
    assert_eq!(fs.read(4, APPROVED_HANDLE, 5, 100), Ok(&b"r2"[..]));
    assert_eq!(fs.read(4, APPROVED_HANDLE, 0, 0), Ok(&b""[..]));
}

#[test]
fn read_at_or_past_end_is_empty() {
    let fs = sample();
    assert_eq!(fs.read(4, APPROVED_HANDLE, 7, 10), Ok(&b""[..]));
    assert_eq!(fs.read(4, APPROVED_HANDLE, 8, 10), Ok(&b""[..]));
    assert_eq!(fs.read(4, APPROVED_HANDLE, u64::MAX, u32::MAX), Ok(&b""[..]));
    assert_eq!(fs.read(3, APPROVED_HANDLE, 0, 10), Ok(&b""[..]));
}

#[test]
fn read_in_pieces_reassembles_file() {
    let fs = sample();
    let mut data = Vec::new();
    let mut offset = 0u64;
    loop {
        let piece = fs.read(4, APPROVED_HANDLE, offset, 3).unwrap();
        if piece.is_empty() {
            break;
        }
        data.extend_from_slice(piece);
        offset += piece.len() as u64;
    }
    assert_eq!(data, b"hunter2".to_vec());
}

#[test]
fn read_of_non_files_fails() {
    let fs = sample();
    assert_eq!(fs.read(ROOT_INO, APPROVED_HANDLE, 0, 10), Err(FsError::NotFound));
    assert_eq!(fs.read(5, APPROVED_HANDLE, 0, 10), Err(FsError::NotFound));
}

fn listing(fs: &ShhhFs<JsonShhhProvider>, offset: u64) -> Vec<(u64, u64, FileKind, String)> {
    fs.readdir_entries(ROOT_INO, offset)
        .unwrap()
        .into_iter()
        .map(|e| (e.ino, e.offset, e.kind, e.name.to_string()))
        .collect()
}

#[test]
fn readdir_lists_dots_then_files() {
    let fs = sample();
    assert_eq!(
        listing(&fs, 0),
        vec![
            (1, 1, FileKind::Directory, ".".to_string()),
            (1, 2, FileKind::Directory, "..".to_string()),
            (2, 3, FileKind::RegularFile, "api".to_string()),
            (3, 4, FileKind::RegularFile, "empty".to_string()),
            (4, 5, FileKind::RegularFile, "password".to_string()),
        ]
    );
}

#[test]
fn readdir_resumes_at_offset() {
    let fs = sample();
    let all = listing(&fs, 0);
    for offset in 0..=5u64 {
        assert_eq!(listing(&fs, offset), all[offset as usize..].to_vec());
    }
    assert!(listing(&fs, 6).is_empty());
    assert!(listing(&fs, u64::MAX).is_empty());
    assert_eq!(listing(&fs, 1)[0].3, "..");
    assert_eq!(listing(&fs, 3)[0].3, "empty");
}

#[test]
fn readdir_of_non_directory_fails() {
    let fs = sample();
    assert!(matches!(fs.readdir_entries(2, 0), Err(FsError::NotFound)));
    assert!(matches!(fs.readdir_entries(0, 0), Err(FsError::NotFound)));
}

#[test]
fn every_listed_file_is_found_by_name() {
    let fs = sample();
    for (ino, _, kind, name) in listing(&fs, 2) {
        assert_eq!(kind, FileKind::RegularFile);
        let attrs = fs.lookup(ROOT_INO, name.as_bytes()).unwrap();
        assert_eq!(attrs.ino, ino);
        assert_eq!(fs.getattr(ino), Ok(attrs));
    }
}

#[test]
fn key_lookup_reads_back_value() {
    let fs = ShhhFs::new(
        JsonShhhProvider::from_options(r#"{"cfg": {"a": 1}, "s": "plain"}"#).unwrap(),
        0,
        0,
        made_at(),
    );
    let attrs = fs.lookup(ROOT_INO, b"cfg").unwrap();
    assert_eq!(fs.read(attrs.ino, APPROVED_HANDLE, 0, 1024), Ok(&b"{\n  \"a\": 1\n}"[..]));
    assert_eq!(attrs.size, 12);
    let attrs = fs.lookup(ROOT_INO, b"s").unwrap();
    assert_eq!(fs.read(attrs.ino, APPROVED_HANDLE, 0, 1024), Ok(&b"plain"[..]));
}

#[test]
fn empty_provider_lists_only_dots() {
    let fs = ShhhFs::new(JsonShhhProvider::from_options("{}").unwrap(), 0, 0, SystemTime::UNIX_EPOCH);
    assert_eq!(listing(&fs, 0).len(), 2);
    assert_eq!(fs.getattr(2), Err(FsError::NotFound));
}

#[test]
fn every_node_carries_the_creation_time() {
    let fs = sample();
    let root = fs.root_attr();
    assert_eq!((root.atime, root.mtime, root.ctime, root.crtime), (made_at(), made_at(), made_at(), made_at()));
    let attrs = fs.getattr(3).unwrap();
    assert_eq!((attrs.atime, attrs.mtime, attrs.ctime, attrs.crtime), (made_at(), made_at(), made_at(), made_at()));
    let other = ShhhFs::new(JsonShhhProvider::from_options("{\"k\": \"v\"}").unwrap(), 0, 0, SystemTime::UNIX_EPOCH);
    assert_eq!(other.created_at, SystemTime::UNIX_EPOCH);
    assert_eq!(other.lookup(ROOT_INO, b"k").unwrap().crtime, SystemTime::UNIX_EPOCH);
}
