//! Properties that relate the operations of the file system to one another
//! and to the provider's entries.

use vstd::prelude::*;

use crate::command::mount::{mount_transition, MountAction, MountEvent, MountPhase};
use crate::fs::{
    directory_listing, entry_at_ino, first_named, getattr_result, index_of_ino, ino_of, listing_at,
    listing_from, lookup_result, open_result, read_bytes, read_result, Approval, FileKind, FsError,
    APPROVED_HANDLE, ROOT_INO,
};
use crate::order::{lemma_bytes_lt_asymmetric, lemma_bytes_lt_irreflexive};
use crate::provider::json::{
    entries_match_object, file_of_parsed, first_invalid_key, has_file_of_parsed, json_object_files,
    json_object_members, json_options_outcome, json_text_accepted, json_value_pretty, json_value_string,
    named_by_some_key, JsonShhhProvider, ProviderError,
};
use crate::fs::{approval_request_result, FileAttrs};
use crate::command::mount::{mount_failure_contexts, macos_fuse_hint_text};
use crate::command::path_debug_text;
use crate::provider::json::{debug_text, provider_error_message};
use crate::reply::reply_item;
use crate::command::unmount::{outcome_error, CommandOutcome, unmount_failure_text, is_trim_of, trim_bounds, trimmed, unicode_white_space, unmount_plan};
use crate::command::Platform;
use crate::provider::valid_entry_name;
use crate::provider::ShhhFsProvider;
use crate::provider::{name_bytes, name_lt, names_distinct, sorted_by_name, ShhhFsEntry};

verus! {

/// Entries sorted strictly by name have pairwise different names.
pub proof fn lemma_sorted_names_distinct(entries: Seq<ShhhFsEntry>)
    requires
        sorted_by_name(entries),
    ensures
        names_distinct(entries),
{
    assert forall|i: int, j: int|
        0 <= i < entries.len() && 0 <= j < entries.len() && i != j implies #[trigger] entries[i].name@
            != #[trigger] entries[j].name@ by {
        if entries[i].name@ == entries[j].name@ {
            if i < j {
                assert(name_lt(entries[i].name@, entries[j].name@));
            } else {
                assert(name_lt(entries[j].name@, entries[i].name@));
            }
            lemma_bytes_lt_irreflexive(name_bytes(entries[i].name@));
        }
    }
}

/// Two names with the same bytes are the same name.
pub proof fn lemma_name_bytes_injective(a: Seq<char>, b: Seq<char>)
    requires
        name_bytes(a) == name_bytes(b),
    ensures
        a == b,
{
    vstd::utf8::encode_utf8_decode_utf8(a);
    vstd::utf8::encode_utf8_decode_utf8(b);
}

/// Inode numbers and file indexes map one to one: the file at index `i`
/// has an inode number that names it and no other file, and that is not
/// the mount point's.
pub proof fn lemma_ino_roundtrip(file_count: int, i: int, ino: int)
    requires
        0 <= i < file_count,
    ensures
        index_of_ino(file_count, ino_of(i)) == Some(i),
        ino_of(i) != ROOT_INO,
        index_of_ino(file_count, ino) == Some(i) ==> ino == ino_of(i),
{
}

/// Every node of the file system gives the time the file system was made as
/// all four of its times.
pub proof fn lemma_times_are_creation_time(
    files: Seq<ShhhFsEntry>,
    uid: u32,
    gid: u32,
    time: std::time::SystemTime,
    ino: u64,
)
    ensures
        getattr_result(files, uid, gid, time, ino) matches Ok(attrs) ==> {
            &&& attrs.atime == time
            &&& attrs.mtime == time
            &&& attrs.ctime == time
            &&& attrs.crtime == time
        },
{
}

/// A file found by name has the attributes that asking for its inode gives.
pub proof fn lemma_lookup_agrees_with_getattr(
    files: Seq<ShhhFsEntry>,
    uid: u32,
    gid: u32,
    time: std::time::SystemTime,
    parent: u64,
    name: Seq<u8>,
)
    requires
        files.len() + 2 <= u64::MAX + 1,
    ensures
        lookup_result(files, uid, gid, time, parent, name) matches Ok(attrs) ==> getattr_result(
            files,
            uid,
            gid,
            time,
            attrs.ino,
        ) == Ok::<_, FsError>(attrs),
{
}

/// With pairwise different names, every file that the listing shows is
/// found by its name, with the inode number that the listing shows.
pub proof fn lemma_listed_files_found(files: Seq<ShhhFsEntry>, uid: u32, gid: u32, time: std::time::SystemTime, pos: int)
    requires
        names_distinct(files),
        files.len() + 2 <= u64::MAX + 1,
        2 <= pos < directory_listing(files).len(),
    ensures
        ({
            let shown = directory_listing(files)[pos];
            &&& lookup_result(files, uid, gid, time, ROOT_INO, name_bytes(shown.name)) matches Ok(attrs)
            &&& attrs.ino == shown.ino
            &&& attrs.kind == FileKind::RegularFile
            &&& getattr_result(files, uid, gid, time, shown.ino) == Ok::<_, FsError>(attrs)
        }),
{
    let shown = directory_listing(files)[pos];
    let i = pos - 2;
    assert(shown == listing_at(files, pos));
    let name = name_bytes(shown.name);
    assert(first_named(files, name, i)) by {
        assert forall|j: int| 0 <= j < i implies name_bytes(#[trigger] files[j].name@) != name by {
            if name_bytes(files[j].name@) == name {
                lemma_name_bytes_injective(files[j].name@, files[i].name@);
            }
        }
    }
    let c = choose|c: int| first_named(files, name, c);
    if c != i {
        lemma_name_bytes_injective(files[c].name@, files[i].name@);
    }
}

/// Reading a file in two consecutive pieces gives the bytes that one read
/// of both sizes gives.
pub proof fn lemma_read_in_pieces(contents: Seq<u8>, offset: int, first: int, second: int)
    requires
        0 <= offset,
        0 <= first,
        0 <= second,
    ensures
        read_bytes(contents, offset, first) + read_bytes(contents, offset + first, second)
            == read_bytes(contents, offset, first + second),
{
    assert(read_bytes(contents, offset, first) + read_bytes(contents, offset + first, second)
        =~= read_bytes(contents, offset, first + second));
}

/// A read from the start of at least the file's size gives the whole file,
/// and a read at the size that the file's attributes report gives nothing.
pub proof fn lemma_read_whole_file(files: Seq<ShhhFsEntry>, uid: u32, gid: u32, time: std::time::SystemTime, ino: u64, size: u32)
    requires
        index_of_ino(files.len() as int, ino as int) is Some,
        files[ino - 2].contents@.len() <= size,
    ensures
        read_result(files, ino, APPROVED_HANDLE, 0, size) == Ok::<_, FsError>(files[ino - 2].contents@),
        getattr_result(files, uid, gid, time, ino) matches Ok(attrs) && read_result(
            files,
            ino,
            APPROVED_HANDLE,
            attrs.size,
            size,
        ) == Ok::<_, FsError>(Seq::<u8>::empty()),
{
    assert(read_bytes(files[ino - 2].contents@, 0, size as int) =~= files[ino - 2].contents@);
    assert(read_bytes(files[ino - 2].contents@, files[ino - 2].contents@.len() as int, size as int)
        =~= Seq::<u8>::empty());
}

/// With the user's approval exactly the files open: opening succeeds on
/// the inodes whose attributes say they are regular files.
pub proof fn lemma_open_iff_regular_file(files: Seq<ShhhFsEntry>, uid: u32, gid: u32, time: std::time::SystemTime, ino: u64)
    ensures
        open_result(files, ino, Approval::Granted) is Ok <==> (getattr_result(files, uid, gid, time, ino) matches Ok(
            attrs,
        ) && attrs.kind == FileKind::RegularFile),
{
}

/// No secret is read without the user's approval: an open that the user
/// denied never succeeds, a denied open of a file is refused as such, and a
/// read succeeds only through the handle that an approved open of the same
/// inode hands out.
pub proof fn lemma_access_needs_approval(files: Seq<ShhhFsEntry>, ino: u64, fh: u64, offset: u64, size: u32)
    ensures
        !(open_result(files, ino, Approval::Denied) is Ok),
        index_of_ino(files.len() as int, ino as int) is Some ==> open_result(files, ino, Approval::Denied)
            == Err::<u64, FsError>(FsError::AccessDenied),
        read_result(files, ino, fh, offset, size) is Ok ==> open_result(files, ino, Approval::Granted) == Ok::<
            u64,
            FsError,
        >(fh),
{
}

/// The inode number of the file at index `i` names that file.
pub proof fn lemma_entry_at_file_ino(files: Seq<ShhhFsEntry>, i: int)
    requires
        0 <= i < files.len(),
        ino_of(i) <= u64::MAX,
    ensures
        entry_at_ino(files, ino_of(i) as u64) == Some((i, files[i])),
{
}

/// The entries of a listing from `offset` carry the offsets that follow it,
/// rising by one: a listing resumed at a returned offset neither repeats
/// nor skips an entry.
pub proof fn lemma_listing_offsets(files: Seq<ShhhFsEntry>, offset: int, j: int)
    requires
        0 <= offset,
        0 <= j < listing_from(files, offset).len(),
        files.len() + 3 <= u64::MAX,
    ensures
        listing_from(files, offset)[j].offset == offset + 1 + j,
{
    assert(listing_from(files, offset)[j] == directory_listing(files)[offset + j]);
}

/// A listing resumed at the offset of one of its entries goes on with the
/// entry after it.
pub proof fn lemma_listing_resumes(files: Seq<ShhhFsEntry>, offset: int, k: int)
    requires
        0 <= offset,
        0 <= k < listing_from(files, offset).len(),
        files.len() + 3 <= u64::MAX,
    ensures
        listing_from(files, listing_from(files, offset)[k].offset as int) == listing_from(
            files,
            offset,
        ).skip(k + 1),
{
    let all = directory_listing(files);
    let e = listing_from(files, offset)[k];
    assert(e == all[offset + k]);
    assert(e.offset == offset + k + 1);
    assert(listing_from(files, e.offset as int) =~= listing_from(files, offset).skip(k + 1));
}

/// A secret stored under a key of the options object is read back from
/// the file of that name: a lookup by the key finds a file of the text's
/// size, the user's approval opens it, and reading all of it through the
/// handle gives the UTF-8 bytes of the string or of the value's JSON.
pub proof fn lemma_secret_readable_by_key(
    entries: Seq<ShhhFsEntry>,
    members: Seq<(Seq<char>, bool, Seq<char>)>,
    k: int,
    uid: u32,
    gid: u32,
    time: std::time::SystemTime,
    size: u32,
)
    requires
        sorted_by_name(entries),
        entries_match_object(entries, members),
        entries.len() + 2 <= u64::MAX + 1,
        0 <= k < members.len(),
        name_bytes(members[k].2).len() <= size,
    ensures
        lookup_result(entries, uid, gid, time, ROOT_INO, name_bytes(members[k].0)) matches Ok(attrs) && ({
            &&& attrs.size == name_bytes(members[k].2).len()
            &&& open_result(entries, attrs.ino, Approval::Granted) == Ok::<u64, FsError>(APPROVED_HANDLE)
            &&& read_result(entries, attrs.ino, APPROVED_HANDLE, 0, size) == Ok::<_, FsError>(
                name_bytes(members[k].2),
            )
        }),
{
    lemma_sorted_names_distinct(entries);
    assert(has_file_of_parsed(entries, members[k]));
    let j = choose|j: int| 0 <= j < entries.len() && #[trigger] file_of_parsed(entries[j], members[k]);
    let name = name_bytes(members[k].0);
    assert(first_named(entries, name, j)) by {
        assert forall|i: int| 0 <= i < j implies name_bytes(#[trigger] entries[i].name@) != name by {
            if name_bytes(entries[i].name@) == name {
                lemma_name_bytes_injective(entries[i].name@, entries[j].name@);
            }
        }
    }
    let c = choose|c: int| first_named(entries, name, c);
    if c != j {
        lemma_name_bytes_injective(entries[c].name@, entries[j].name@);
    }
    assert(read_bytes(entries[j].contents@, 0, size as int) =~= entries[j].contents@);
}

/// What an entry shows: its name and its contents.
pub open spec fn entry_view(entry: ShhhFsEntry) -> (Seq<char>, Seq<u8>) {
    (entry.name@, entry.contents@)
}

/// Some entry of `entries` shows `view`.
pub open spec fn shows(entries: Seq<ShhhFsEntry>, view: (Seq<char>, Seq<u8>)) -> bool {
    exists|k: int| 0 <= k < entries.len() && #[trigger] entry_view(entries[k]) == view
}

/// Two lists sorted by name that show the same entries show them in the
/// same order.
pub proof fn lemma_sorted_same_entries(a: Seq<ShhhFsEntry>, b: Seq<ShhhFsEntry>)
    requires
        sorted_by_name(a),
        sorted_by_name(b),
        forall|j: int| 0 <= j < a.len() ==> shows(b, #[trigger] entry_view(a[j])),
        forall|j: int| 0 <= j < b.len() ==> shows(a, #[trigger] entry_view(b[j])),
    ensures
        a.map_values(|e: ShhhFsEntry| entry_view(e)) == b.map_values(|e: ShhhFsEntry| entry_view(e)),
    decreases a.len(),
{
    if a.len() == 0 {
        if b.len() > 0 {
            assert(shows(a, entry_view(b[0])));
        }
        assert(a.map_values(|e: ShhhFsEntry| entry_view(e)) =~= b.map_values(|e: ShhhFsEntry| entry_view(e)));
        return;
    }
    if b.len() == 0 {
        assert(shows(b, entry_view(a[0])));
    }
    assert(shows(b, entry_view(a[0])));
    let j = choose|k: int| 0 <= k < b.len() && #[trigger] entry_view(b[k]) == entry_view(a[0]);
    assert(shows(a, entry_view(b[0])));
    let i = choose|k: int| 0 <= k < a.len() && #[trigger] entry_view(a[k]) == entry_view(b[0]);
    if j > 0 {
        assert(name_lt(b[0].name@, b[j].name@));
        if i > 0 {
            assert(name_lt(a[0].name@, a[i].name@));
            lemma_bytes_lt_asymmetric(name_bytes(a[0].name@), name_bytes(b[0].name@));
        } else {
            lemma_bytes_lt_irreflexive(name_bytes(b[0].name@));
        }
    }
    assert(j == 0);
    let ta = a.drop_first();
    let tb = b.drop_first();
    assert(sorted_by_name(ta)) by {
        assert forall|x: int, y: int| 0 <= x < y < ta.len() implies name_lt(
            #[trigger] ta[x].name@,
            #[trigger] ta[y].name@,
        ) by {
            assert(ta[x] == a[x + 1] && ta[y] == a[y + 1]);
        }
    }
    assert(sorted_by_name(tb)) by {
        assert forall|x: int, y: int| 0 <= x < y < tb.len() implies name_lt(
            #[trigger] tb[x].name@,
            #[trigger] tb[y].name@,
        ) by {
            assert(tb[x] == b[x + 1] && tb[y] == b[y + 1]);
        }
    }
    assert forall|m: int| 0 <= m < ta.len() implies shows(tb, #[trigger] entry_view(ta[m])) by {
        assert(ta[m] == a[m + 1]);
        assert(shows(b, entry_view(a[m + 1])));
        let n = choose|k: int| 0 <= k < b.len() && #[trigger] entry_view(b[k]) == entry_view(a[m + 1]);
        if n == 0 {
            assert(name_lt(a[0].name@, a[m + 1].name@));
            lemma_bytes_lt_irreflexive(name_bytes(a[0].name@));
        }
        assert(entry_view(tb[n - 1]) == entry_view(ta[m]));
    }
    assert forall|m: int| 0 <= m < tb.len() implies shows(ta, #[trigger] entry_view(tb[m])) by {
        assert(tb[m] == b[m + 1]);
        assert(shows(a, entry_view(b[m + 1])));
        let n = choose|k: int| 0 <= k < a.len() && #[trigger] entry_view(a[k]) == entry_view(b[m + 1]);
        if n == 0 {
            assert(name_lt(b[0].name@, b[m + 1].name@));
            lemma_bytes_lt_irreflexive(name_bytes(b[0].name@));
        }
        assert(entry_view(ta[n - 1]) == entry_view(tb[m]));
    }
    lemma_sorted_same_entries(ta, tb);
    let va = a.map_values(|e: ShhhFsEntry| entry_view(e));
    let vb = b.map_values(|e: ShhhFsEntry| entry_view(e));
    assert(ta.map_values(|e: ShhhFsEntry| entry_view(e)) =~= va.drop_first());
    assert(tb.map_values(|e: ShhhFsEntry| entry_view(e)) =~= vb.drop_first());
    assert(va =~= vb) by {
        assert forall|x: int| 0 <= x < va.len() implies va[x] == vb[x] by {
            if x > 0 {
                assert(va[x] == va.drop_first()[x - 1]);
                assert(vb[x] == vb.drop_first()[x - 1]);
            }
        }
    }
}

proof fn lemma_entry_shown(
    a: Seq<ShhhFsEntry>,
    b: Seq<ShhhFsEntry>,
    members: Seq<(Seq<char>, bool, Seq<char>)>,
    j: int,
)
    requires
        names_distinct(a),
        entries_match_object(a, members),
        entries_match_object(b, members),
        0 <= j < a.len(),
    ensures
        shows(b, entry_view(a[j])),
{
    assert(named_by_some_key(a[j], members));
    let i = choose|i: int| 0 <= i < members.len() && #[trigger] members[i].0 == a[j].name@;
    assert(has_file_of_parsed(a, members[i]));
    let ja = choose|k: int| 0 <= k < a.len() && #[trigger] file_of_parsed(a[k], members[i]);
    if ja != j {
        assert(a[ja].name@ != a[j].name@);
    }
    assert(has_file_of_parsed(b, members[i]));
    let jb = choose|k: int| 0 <= k < b.len() && #[trigger] file_of_parsed(b[k], members[i]);
    assert(entry_view(b[jb]) == entry_view(a[j]));
}

/// Every entry of a sorted list that matches an object's members shows what
/// some entry of any other such list shows.
proof fn lemma_matching_entries_shown(
    a: Seq<ShhhFsEntry>,
    b: Seq<ShhhFsEntry>,
    members: Seq<(Seq<char>, bool, Seq<char>)>,
)
    requires
        sorted_by_name(a),
        entries_match_object(a, members),
        entries_match_object(b, members),
    ensures
        forall|j: int| 0 <= j < a.len() ==> shows(b, #[trigger] entry_view(a[j])),
{
    lemma_sorted_names_distinct(a);
    assert forall|j: int| 0 <= j < a.len() implies shows(b, #[trigger] entry_view(a[j])) by {
        lemma_entry_shown(a, b, members, j);
    }
}

/// Building a provider from an options text has one outcome: two results
/// that both meet the contract succeed or fail alike, succeed with the same
/// files in the same order, and fail with the same kind of error and, for a
/// bad key, the same key. So choosing the `json` provider by its arguments
/// gives what building it from the same options gives.
pub proof fn lemma_options_outcome_determined(
    options: Seq<char>,
    r1: Result<JsonShhhProvider, ProviderError>,
    r2: Result<JsonShhhProvider, ProviderError>,
)
    requires
        json_options_outcome(options, r1),
        json_options_outcome(options, r2),
    ensures
        r1 is Ok <==> r2 is Ok,
        r1 is Ok && r2 is Ok ==> r1->Ok_0.entry_list().map_values(|e: ShhhFsEntry| entry_view(e))
            == r2->Ok_0.entry_list().map_values(|e: ShhhFsEntry| entry_view(e)),
        r1 matches Err(ProviderError::InvalidJson(_)) <==> r2 matches Err(ProviderError::InvalidJson(_)),
        r1 matches Err(ProviderError::NotAnObject) <==> r2 matches Err(ProviderError::NotAnObject),
        r1 matches Err(ProviderError::InvalidKey(k1)) ==> (r2 matches Err(ProviderError::InvalidKey(k2))
            ==> k1@ == k2@),
        r1 matches Err(ProviderError::InvalidKey(_)) <==> r2 matches Err(ProviderError::InvalidKey(_)),
{
    if let Some(members) = json_object_files(options) {
        match (r1, r2) {
            (Ok(p1), Ok(p2)) => {
                let a = p1.entry_list();
                let b = p2.entry_list();
                lemma_matching_entries_shown(a, b, members);
                lemma_matching_entries_shown(b, a, members);
                lemma_sorted_same_entries(a, b);
            },
            (Err(ProviderError::InvalidKey(k1)), Err(ProviderError::InvalidKey(k2))) => {
                let i1 = choose|i: int| first_invalid_key(members, i) && #[trigger] members[i].0 == k1@;
                let i2 = choose|i: int| first_invalid_key(members, i) && #[trigger] members[i].0 == k2@;
                if i1 < i2 {
                    assert(crate::provider::valid_entry_name(members[i1].0));
                } else if i2 < i1 {
                    assert(crate::provider::valid_entry_name(members[i2].0));
                }
            },
            (Ok(_), Err(ProviderError::InvalidKey(k2))) => {
                let i2 = choose|i: int| first_invalid_key(members, i) && #[trigger] members[i].0 == k2@;
            },
            (Err(ProviderError::InvalidKey(k1)), Ok(_)) => {
                let i1 = choose|i: int| first_invalid_key(members, i) && #[trigger] members[i].0 == k1@;
            },
            _ => {},
        }
    }
}

/// The mount command succeeds only when the file system session ended
/// cleanly, and only from a phase that waits for it.
pub proof fn lemma_mount_succeeds_only_on_clean_end(phase: MountPhase, event: MountEvent)
    ensures
        mount_transition(phase, event).1 == MountAction::Succeed ==> {
            &&& event == (MountEvent::SessionEnded { ok: true })
            &&& (phase == MountPhase::Serving || phase == MountPhase::Draining)
        },
{
}

/// The directory is unmounted only after a shutdown signal came while the
/// file system was serving.
pub proof fn lemma_unmount_only_after_signal(phase: MountPhase, event: MountEvent)
    ensures
        mount_transition(phase, event).1 == MountAction::Unmount ==> {
            &&& phase == MountPhase::Serving
            &&& event == (MountEvent::ShutdownSignal { ok: true })
        },
{
}

/// The file system serves only after the provider was built, the mount
/// point was prepared and the mount succeeded, in that order.
pub proof fn lemma_serving_only_after_mount(phase: MountPhase, event: MountEvent)
    ensures
        mount_transition(phase, event).0 == MountPhase::Preparing && phase != MountPhase::Preparing ==> {
            &&& phase == MountPhase::ChoosingProvider
            &&& event == (MountEvent::ProviderBuilt { ok: true })
        },
        mount_transition(phase, event).0 == MountPhase::Serving && phase != MountPhase::Serving ==> {
            &&& phase == MountPhase::Starting
            &&& event == (MountEvent::MountStarted { ok: true })
        },
        mount_transition(phase, event).0 == MountPhase::Starting && phase != MountPhase::Starting ==> {
            &&& phase == MountPhase::Preparing
            &&& event == (MountEvent::DirectoryReady { ok: true })
        },
{
}

/// Once the command is over, no event changes anything.
pub proof fn lemma_finished_is_final(event: MountEvent)
    ensures
        mount_transition(MountPhase::Finished, event) == (MountPhase::Finished, MountAction::Ignore),
{
}

/// A key can stand as a file name exactly when it is not empty, is neither
/// `.` nor `..`, and holds no `/`; any other character may appear.
pub proof fn lemma_flat_file_names(name: Seq<char>)
    ensures
        valid_entry_name(name) <==> (name.len() > 0 && name != seq!['.'] && name != seq!['.', '.']
            && forall|k: int| 0 <= k < name.len() ==> name[k] != '/'),
{
    if valid_entry_name(name) {
        assert forall|k: int| 0 <= k < name.len() implies name[k] != '/' by {
            if name[k] == '/' {
                assert(name.contains('/'));
            }
        }
    }
}

/// An options object whose keys are all non-empty, neither `.` nor `..`
/// and free of `/` always builds a provider.
pub proof fn lemma_flat_keys_build(
    options: Seq<char>,
    r: Result<JsonShhhProvider, ProviderError>,
    members: Seq<(Seq<char>, serde_json::Value)>,
)
    requires
        json_options_outcome(options, r),
        json_text_accepted(options),
        json_object_members(options) == Some(members),
        forall|i: int|
            0 <= i < members.len() ==> {
                let key = #[trigger] members[i].0;
                &&& key.len() > 0
                &&& key != seq!['.']
                &&& key != seq!['.', '.']
                &&& forall|k: int| 0 <= k < key.len() ==> key[k] != '/'
            },
    ensures
        r is Ok,
{
    let files = json_object_files(options).unwrap();
    assert(files.len() == members.len());
    assert forall|i: int| 0 <= i < files.len() implies valid_entry_name(#[trigger] files[i].0) by {
        assert(files[i].0 == members[i].0);
        lemma_flat_file_names(members[i].0);
    }
    if let Err(ProviderError::InvalidKey(key)) = r {
        let i = choose|i: int| first_invalid_key(files, i) && #[trigger] files[i].0 == key@;
        assert(valid_entry_name(files[i].0));
    }
}

/// A member of the options object becomes a file named by its key that holds
/// exactly the UTF-8 bytes of its string value, unchanged, or, for any other
/// value, of its pretty-printed JSON.
pub proof fn lemma_member_file_contents(
    options: Seq<char>,
    r: Result<JsonShhhProvider, ProviderError>,
    members: Seq<(Seq<char>, serde_json::Value)>,
    k: int,
)
    requires
        json_options_outcome(options, r),
        r is Ok,
        json_object_members(options) == Some(members),
        0 <= k < members.len(),
    ensures
        json_value_string(members[k].1) matches Some(text) ==> exists|j: int|
            0 <= j < r->Ok_0.entry_list().len() && #[trigger] r->Ok_0.entry_list()[j].name@ == members[k].0
                && r->Ok_0.entry_list()[j].contents@ == name_bytes(text),
        json_value_string(members[k].1) is None ==> exists|j: int|
            0 <= j < r->Ok_0.entry_list().len() && #[trigger] r->Ok_0.entry_list()[j].name@ == members[k].0
                && r->Ok_0.entry_list()[j].contents@ == name_bytes(json_value_pretty(members[k].1)),
{
    let entries = r->Ok_0.entry_list();
    let files = json_object_files(options).unwrap();
    assert(files[k] == crate::provider::json::member_file_view(members[k]));
    assert(has_file_of_parsed(entries, files[k]));
    let j = choose|j: int| 0 <= j < entries.len() && #[trigger] file_of_parsed(entries[j], files[k]);
    assert(entries[j].name@ == members[k].0);
}

/// A lookup finds a file only in the mount point and only by its exact
/// name, and answers with that file's inode number and size; a name that
/// some file has is always found.
pub proof fn lemma_lookup_exact_name(
    files: Seq<ShhhFsEntry>,
    uid: u32,
    gid: u32,
    time: std::time::SystemTime,
    parent: u64,
    name: Seq<u8>,
)
    requires
        files.len() + 2 <= u64::MAX + 1,
    ensures
        lookup_result(files, uid, gid, time, parent, name) matches Ok(attrs) ==> {
            &&& parent == ROOT_INO
            &&& exists|i: int|
                0 <= i < files.len() && #[trigger] name_bytes(files[i].name@) == name && attrs.ino == i + 2
                    && attrs.size == files[i].contents@.len() as u64 && attrs.kind == FileKind::RegularFile
        },
        (parent == ROOT_INO && exists|i: int| 0 <= i < files.len() && #[trigger] name_bytes(files[i].name@)
            == name) ==> lookup_result(files, uid, gid, time, parent, name) is Ok,
        parent != ROOT_INO ==> lookup_result(files, uid, gid, time, parent, name) == Err::<
            crate::fs::FileAttrs,
            FsError,
        >(FsError::NotFound),
{
    if parent == ROOT_INO && exists|i: int| 0 <= i < files.len() && #[trigger] name_bytes(files[i].name@)
        == name {
        let i0 = choose|i: int| 0 <= i < files.len() && #[trigger] name_bytes(files[i].name@) == name;
        lemma_first_named_exists(files, name, i0);
    }
    if lookup_result(files, uid, gid, time, parent, name) is Ok {
        let i = choose|i: int| first_named(files, name, i);
        let attrs = lookup_result(files, uid, gid, time, parent, name)->Ok_0;
        assert(name_bytes(files[i].name@) == name);
        assert(attrs.ino == i + 2);
        assert(attrs.size == files[i].contents@.len() as u64);
    }
}

proof fn lemma_first_named_exists(files: Seq<ShhhFsEntry>, name: Seq<u8>, i: int)
    requires
        0 <= i < files.len(),
        name_bytes(files[i].name@) == name,
    ensures
        exists|f: int| first_named(files, name, f),
    decreases i,
{
    if forall|j: int| 0 <= j < i ==> name_bytes(#[trigger] files[j].name@) != name {
        assert(first_named(files, name, i));
    } else {
        let j = choose|j: int| 0 <= j < i && name_bytes(#[trigger] files[j].name@) == name;
        lemma_first_named_exists(files, name, j);
    }
}

/// Opening any file inode asks the user about that file's name, whatever
/// the file holds, and an approved open of it succeeds with handle 0;
/// inodes that name no file are not found.
pub proof fn lemma_every_file_can_be_opened(files: Seq<ShhhFsEntry>, ino: u64)
    ensures
        2 <= ino < files.len() + 2 ==> approval_request_result(files, ino) == Ok::<Seq<char>, FsError>(
            files[ino - 2].name@,
        ),
        2 <= ino < files.len() + 2 ==> open_result(files, ino, Approval::Granted) == Ok::<u64, FsError>(0),
        !(2 <= ino < files.len() + 2) ==> approval_request_result(files, ino) == Err::<Seq<char>, FsError>(
            FsError::NotFound,
        ),
        !(2 <= ino < files.len() + 2) ==> open_result(files, ino, Approval::Granted) == Err::<u64, FsError>(
            FsError::NotFound,
        ),
{
}

/// Every unmount program is given the directory exactly as the user wrote
/// it, as its last argument, and there is always a program to try.
pub proof fn lemma_unmount_targets_given_path(path: Seq<char>, platform: Platform)
    ensures
        unmount_plan(path, platform).len() >= 1,
        forall|i: int|
            0 <= i < unmount_plan(path, platform).len() ==> #[trigger] unmount_plan(path, platform)[i].1.len()
                >= 1 && unmount_plan(path, platform)[i].1.last() == path,
        platform == Platform::Linux ==> unmount_plan(path, platform).map_values(
            |c: (Seq<char>, Seq<Seq<char>>)| (c.0, c.1.drop_last()),
        ) == seq![
            ("fusermount3"@, seq!["-u"@]),
            ("fusermount"@, seq!["-u"@]),
            ("fusermount3"@, seq!["-u"@, "-z"@]),
            ("fusermount"@, seq!["-u"@, "-z"@]),
            ("umount"@, Seq::<Seq<char>>::empty()),
            ("umount"@, seq!["-l"@]),
        ],
        platform == Platform::MacOs ==> unmount_plan(path, platform).map_values(
            |c: (Seq<char>, Seq<Seq<char>>)| (c.0, c.1.drop_last()),
        ) == seq![("umount"@, Seq::<Seq<char>>::empty()), ("diskutil"@, seq!["unmount"@])],
        platform == Platform::Other ==> unmount_plan(path, platform).map_values(
            |c: (Seq<char>, Seq<Seq<char>>)| (c.0, c.1.drop_last()),
        ) == seq![("umount"@, Seq::<Seq<char>>::empty())],
{
    let plan = unmount_plan(path, platform);
    let shown = plan.map_values(|c: (Seq<char>, Seq<Seq<char>>)| (c.0, c.1.drop_last()));
    assert forall|i: int| 0 <= i < plan.len() implies #[trigger] plan[i].1.len() >= 1 && plan[i].1.last() == path by {
    }
    match platform {
        Platform::Linux => {
            assert(shown =~= seq![
                ("fusermount3"@, seq!["-u"@]),
                ("fusermount"@, seq!["-u"@]),
                ("fusermount3"@, seq!["-u"@, "-z"@]),
                ("fusermount"@, seq!["-u"@, "-z"@]),
                ("umount"@, Seq::<Seq<char>>::empty()),
                ("umount"@, seq!["-l"@]),
            ]) by {
                assert(plan[0].1.drop_last() =~= seq!["-u"@]);
                assert(plan[1].1.drop_last() =~= seq!["-u"@]);
                assert(plan[2].1.drop_last() =~= seq!["-u"@, "-z"@]);
                assert(plan[3].1.drop_last() =~= seq!["-u"@, "-z"@]);
                assert(plan[4].1.drop_last() =~= Seq::<Seq<char>>::empty());
                assert(plan[5].1.drop_last() =~= seq!["-l"@]);
            }
        },
        Platform::MacOs => {
            assert(shown =~= seq![("umount"@, Seq::<Seq<char>>::empty()), ("diskutil"@, seq!["unmount"@])]) by {
                assert(plan[0].1.drop_last() =~= Seq::<Seq<char>>::empty());
                assert(plan[1].1.drop_last() =~= seq!["unmount"@]);
            }
        },
        Platform::Other => {
            assert(shown =~= seq![("umount"@, Seq::<Seq<char>>::empty())]) by {
                assert(plan[0].1.drop_last() =~= Seq::<Seq<char>>::empty());
            }
        },
    }
}

/// A read through the approved handle gives the file's bytes from `offset`
/// on: as many as `size` asks for, but none past the end of the file, each
/// the byte at its place in the file.
pub proof fn lemma_read_gives_file_bytes(
    files: Seq<ShhhFsEntry>,
    ino: u64,
    offset: u64,
    size: u32,
)
    requires
        2 <= ino < files.len() + 2,
    ensures
        read_result(files, ino, 0, offset, size) matches Ok(data) && {
            let contents = files[ino - 2].contents@;
            &&& offset >= contents.len() ==> data.len() == 0
            &&& offset < contents.len() ==> data.len() == (if size < contents.len() - offset {
                size as int
            } else {
                contents.len() - offset
            })
            &&& forall|k: int| 0 <= k < data.len() ==> #[trigger] data[k] == contents[offset + k]
        },
        forall|fh: u64| fh != 0 ==> #[trigger] read_result(files, ino, fh, offset, size) == Err::<Seq<u8>, FsError>(
            FsError::AccessDenied,
        ),
        forall|fh: u64| #[trigger] read_result(files, 1, fh, offset, size) == Err::<Seq<u8>, FsError>(FsError::NotFound),
{
}

/// The listing of the mount point is `.` and `..` (both the mount point),
/// then every file in the order of its inode number, by its name, each
/// entry carrying the offset of the entry after it.
pub proof fn lemma_listing_shows_every_file(files: Seq<ShhhFsEntry>)
    requires
        files.len() + 3 <= u64::MAX,
    ensures
        directory_listing(files).len() == files.len() + 2,
        directory_listing(files)[0].ino == ROOT_INO && directory_listing(files)[0].name == seq!['.']
            && directory_listing(files)[0].kind == FileKind::Directory,
        directory_listing(files)[1].ino == ROOT_INO && directory_listing(files)[1].name == seq!['.', '.']
            && directory_listing(files)[1].kind == FileKind::Directory,
        forall|pos: int| 0 <= pos < files.len() + 2 ==> #[trigger] directory_listing(files)[pos].offset == pos + 1,
        forall|i: int|
            0 <= i < files.len() ==> {
                let shown = #[trigger] directory_listing(files)[i + 2];
                &&& shown.ino == i + 2
                &&& shown.kind == FileKind::RegularFile
                &&& shown.name == files[i].name@
            },
        forall|offset: int| 0 <= offset < files.len() + 2 ==> #[trigger] listing_from(files, offset).len()
            == files.len() + 2 - offset,
        forall|offset: int| offset >= files.len() + 2 ==> #[trigger] listing_from(files, offset).len() == 0,
{
}

/// A key is reported as not a flat file name only when it is the first key
/// of the object, in the parser's order, that is empty, `.`, `..` or holds
/// a `/`.
pub proof fn lemma_bad_key_is_first_bad_key(
    options: Seq<char>,
    r: Result<JsonShhhProvider, ProviderError>,
    members: Seq<(Seq<char>, serde_json::Value)>,
)
    requires
        json_options_outcome(options, r),
        json_object_members(options) == Some(members),
    ensures
        r matches Err(ProviderError::InvalidKey(key)) ==> exists|i: int|
            0 <= i < members.len() && #[trigger] members[i].0 == key@ && !valid_entry_name(key@) && forall|j: int|
                0 <= j < i ==> valid_entry_name(#[trigger] members[j].0),
        r matches Err(e) ==> !(e is MissingOptions) && !(e is UnknownProvider),
        r matches Err(ProviderError::NotAnObject) ==> false,
{
    let files = json_object_files(options).unwrap();
    if let Err(ProviderError::InvalidKey(key)) = r {
        let i = choose|i: int| first_invalid_key(files, i) && #[trigger] files[i].0 == key@;
        assert(files[i].0 == members[i].0);
        assert forall|j: int| 0 <= j < i implies valid_entry_name(#[trigger] members[j].0) by {
            assert(files[j].0 == members[j].0);
            assert(valid_entry_name(files[j].0));
        }
    }
}

/// `name` is the key of some member.
pub open spec fn is_key_of(members: Seq<(Seq<char>, serde_json::Value)>, name: Seq<char>) -> bool {
    exists|i: int| 0 <= i < members.len() && #[trigger] members[i].0 == name
}

/// A provider built from an object holds one file per member and nothing
/// else: as many files as members, each file named by some member's key,
/// every name a flat file name, and the files in strictly increasing order
/// of their names' UTF-8 bytes.
pub proof fn lemma_provider_files_are_members(
    options: Seq<char>,
    r: Result<JsonShhhProvider, ProviderError>,
)
    requires
        json_options_outcome(options, r),
        r is Ok,
    ensures
        json_text_accepted(options),
        json_object_members(options) is Some,
        r->Ok_0.entry_list().len() == json_object_members(options)->Some_0.len(),
        forall|j: int|
            0 <= j < r->Ok_0.entry_list().len() ==> is_key_of(
                json_object_members(options)->Some_0,
                #[trigger] r->Ok_0.entry_list()[j].name@,
            ),
        forall|j: int| 0 <= j < r->Ok_0.entry_list().len() ==> valid_entry_name(#[trigger] r->Ok_0.entry_list()[j].name@),
        forall|a: int, b: int|
            0 <= a < b < r->Ok_0.entry_list().len() ==> crate::order::bytes_lt(
                name_bytes(#[trigger] r->Ok_0.entry_list()[a].name@),
                name_bytes(#[trigger] r->Ok_0.entry_list()[b].name@),
            ),
{
    let members = json_object_members(options)->Some_0;
    let files = json_object_files(options).unwrap();
    let entries = r->Ok_0.entry_list();
    assert(files.len() == members.len());
    assert(entries.len() == files.len());
    assert(r->Ok_0.wf());
    assert forall|j: int| 0 <= j < entries.len() implies is_key_of(members, #[trigger] entries[j].name@) by {
        assert(named_by_some_key(entries[j], files));
        let i = choose|i: int| 0 <= i < files.len() && #[trigger] files[i].0 == entries[j].name@;
        assert(files[i].0 == members[i].0);
        assert(members[i].0 == entries[j].name@);
    }
    assert forall|j: int| 0 <= j < entries.len() implies valid_entry_name(#[trigger] entries[j].name@) by {
        assert(named_by_some_key(entries[j], files));
        let i = choose|i: int| 0 <= i < files.len() && #[trigger] files[i].0 == entries[j].name@;
    }
    assert forall|a: int, b: int| 0 <= a < b < entries.len() implies crate::order::bytes_lt(
        name_bytes(#[trigger] entries[a].name@),
        name_bytes(#[trigger] entries[b].name@),
    ) by {
        assert(name_lt(entries[a].name@, entries[b].name@));
    }
}

/// Names are ordered by their bytes, lexicographically: a proper prefix
/// sorts first, and otherwise the first differing byte decides.
pub proof fn lemma_byte_order(a: Seq<u8>, b: Seq<u8>, k: int)
    ensures
        a.len() < b.len() && b.take(a.len() as int) == a ==> crate::order::bytes_lt(a, b),
        (0 <= k < a.len() && k < b.len() && a.take(k) == b.take(k) && a[k] != b[k]) ==> (a[k] < b[k] <==> crate::order::bytes_lt(
            a,
            b,
        )),
{
    if a.len() < b.len() && b.take(a.len() as int) == a {
        assert forall|i: int| 0 <= i < a.len() implies #[trigger] a[i] == b[i] by {
            assert(b.take(a.len() as int)[i] == b[i]);
        }
        assert(crate::order::diverge_at(a, b, a.len() as int));
    }
    if 0 <= k < a.len() && k < b.len() && a.take(k) == b.take(k) && a[k] != b[k] {
        assert forall|i: int| 0 <= i < k implies #[trigger] a[i] == b[i] by {
            assert(a.take(k)[i] == b.take(k)[i]);
        }
        if a[k] < b[k] {
            assert(crate::order::diverge_at(a, b, k));
        }
        if crate::order::bytes_lt(a, b) {
            let d = choose|d: int| crate::order::diverge_at(a, b, d);
            if d < k {
                assert(a[d] == b[d]);
            } else if d > k {
                assert(a[k] == b[k]);
            }
        }
    }
}

proof fn first_kept(t: Seq<char>, lo: int) -> (i: int)
    requires
        0 <= lo <= t.len(),
        forall|k: int| 0 <= k < lo ==> unicode_white_space(#[trigger] t[k]),
        exists|k: int| lo <= k < t.len() && !unicode_white_space(#[trigger] t[k]),
    ensures
        lo <= i < t.len(),
        !unicode_white_space(t[i]),
        forall|k: int| 0 <= k < i ==> unicode_white_space(#[trigger] t[k]),
    decreases t.len() - lo,
{
    if !unicode_white_space(t[lo]) {
        lo
    } else {
        first_kept(t, lo + 1)
    }
}

proof fn last_kept(t: Seq<char>, hi: int) -> (j: int)
    requires
        0 <= hi <= t.len(),
        forall|k: int| hi <= k < t.len() ==> unicode_white_space(#[trigger] t[k]),
        exists|k: int| 0 <= k < hi && !unicode_white_space(#[trigger] t[k]),
    ensures
        0 <= j < hi,
        !unicode_white_space(t[j]),
        forall|k: int| j < k < t.len() ==> unicode_white_space(#[trigger] t[k]),
    decreases hi,
{
    if !unicode_white_space(t[hi - 1]) {
        hi - 1
    } else {
        last_kept(t, hi - 1)
    }
}

/// What trimming gives, for every text: the part of the text from its
/// first to its last character that is not white space, everything before
/// and after it being white space; nothing, when all of it is white space.
/// Characters inside the part, white space or not, are kept.
pub proof fn lemma_trimmed_text(t: Seq<char>)
    ensures
        exists|i: int, j: int|
            #![trigger t.subrange(i, j)]
            0 <= i <= j <= t.len() && trimmed(t) == t.subrange(i, j) && (forall|k: int|
                0 <= k < i ==> unicode_white_space(#[trigger] t[k])) && (forall|k: int|
                j <= k < t.len() ==> unicode_white_space(#[trigger] t[k])) && (i < j ==> (
            !unicode_white_space(t[i]) && !unicode_white_space(t[j - 1]))),
        (forall|k: int| 0 <= k < t.len() ==> unicode_white_space(#[trigger] t[k])) ==> trimmed(t).len() == 0,
        (t.len() > 0 && !unicode_white_space(t[0]) && !unicode_white_space(t[t.len() - 1])) ==> trimmed(t) == t,
{
    if forall|k: int| 0 <= k < t.len() ==> unicode_white_space(#[trigger] t[k]) {
        assert(trim_bounds(t, 0, 0));
        assert(is_trim_of(t.subrange(0, 0), t));
    } else {
        let i = first_kept(t, 0);
        let j = last_kept(t, t.len() as int);
        assert(i <= j) by {
            if j < i {
                assert(unicode_white_space(t[j]));
            }
        }
        assert(trim_bounds(t, i, j + 1));
        assert(is_trim_of(t.subrange(i, j + 1), t));
    }
    let p = trimmed(t);
    assert(is_trim_of(p, t));
    let (a, b) = choose|a: int, b: int| #[trigger] trim_bounds(t, a, b) && p == t.subrange(a, b);
    assert(t.subrange(a, b) == p);
    if forall|k: int| 0 <= k < t.len() ==> unicode_white_space(#[trigger] t[k]) {
        if a < b {
            assert(unicode_white_space(t[a]));
        }
    }
    if t.len() > 0 && !unicode_white_space(t[0]) && !unicode_white_space(t[t.len() - 1]) {
        if a > 0 {
            assert(unicode_white_space(t[0]));
        }
        if b < t.len() {
            assert(unicode_white_space(t[t.len() - 1]));
        }
        assert(p =~= t);
    }
}

/// What asking for the attributes of an inode answers: the mount point is
/// a directory with mode 0755 and two links, owned as the file system is;
/// each file inode is a regular file with mode 0400, one link, one block,
/// and its contents' length as size; any other inode is not found. All of
/// them report the block size 4096 and no device or flags.
pub proof fn lemma_getattr_answers(
    files: Seq<ShhhFsEntry>,
    uid: u32,
    gid: u32,
    time: std::time::SystemTime,
    ino: u64,
)
    ensures
        ino == 1 ==> (getattr_result(files, uid, gid, time, ino) matches Ok(a) && a.ino == 1 && a.kind
            == FileKind::Directory && a.perm == 0o755 && a.nlink == 2 && a.size == 0 && a.blocks == 0 && a.uid
            == uid && a.gid == gid),
        2 <= ino < files.len() + 2 ==> (getattr_result(files, uid, gid, time, ino) matches Ok(a) && a.ino == ino
            && a.kind == FileKind::RegularFile && a.perm == 0o400 && a.nlink == 1 && a.blocks == 1 && a.size
            == files[ino - 2].contents@.len() as u64 && a.uid == uid && a.gid == gid),
        (ino == 0 || ino >= files.len() + 2) ==> getattr_result(files, uid, gid, time, ino) == Err::<
            FileAttrs,
            FsError,
        >(FsError::NotFound),
        getattr_result(files, uid, gid, time, ino) matches Ok(a) ==> a.blksize == 4096 && a.rdev == 0 && a.flags
            == 0,
{
}

/// A listing entry goes into a directory reply as its inode, its offset,
/// its kind and the UTF-8 bytes of its name.
pub proof fn lemma_reply_item_carries_entry(entry: crate::fs::ListingView)
    ensures
        reply_item(entry).0 == entry.ino,
        reply_item(entry).1 == entry.offset,
        reply_item(entry).2 == entry.kind,
        reply_item(entry).3 == vstd::utf8::encode_utf8(entry.name),
{
}

/// A failed run of an unmount program is reported by the program's name:
/// a program that could not start, with its error; one that failed with
/// error output, with that output trimmed; one that failed silently, with
/// its exit status. A success or a missing program leaves no error.
pub proof fn lemma_unmount_errors_name_the_program(program: Seq<char>, outcome: CommandOutcome)
    ensures
        outcome is Succeeded ==> outcome_error(program, outcome) is None,
        outcome is NotFound ==> outcome_error(program, outcome) is None,
        outcome matches CommandOutcome::SpawnFailed { error } ==> outcome_error(program, outcome) == Some(
            program + ": "@ + error@,
        ),
        outcome matches CommandOutcome::Failed { stderr, status } ==> outcome_error(program, outcome) == Some(
            if trimmed(crate::command::unmount::utf8_lossy_text(stderr@)).len() == 0 {
                program + " exited with "@ + status@
            } else {
                program + ": "@ + trimmed(crate::command::unmount::utf8_lossy_text(stderr@))
            },
        ),
{
}

/// The message of a failed unmount names the directory, quoted, and then
/// the last error, or that no program was available.
pub proof fn lemma_unmount_failure_message(path: std::path::PathBuf, last_error: Option<Seq<char>>)
    ensures
        last_error matches Some(e) ==> unmount_failure_text(path, last_error) == "failed to unmount "@
            + path_debug_text(path) + ": "@ + e,
        last_error is None ==> unmount_failure_text(path, last_error) == "failed to unmount "@ + path_debug_text(
            path,
        ) + ": no unmount command was available"@,
{
    assert("failed to unmount "@ + path_debug_text(path) + ": "@ + "no unmount command was available"@
        =~= "failed to unmount "@ + path_debug_text(path) + ": no unmount command was available"@) by {
        reveal_strlit(": ");
        reveal_strlit("no unmount command was available");
        reveal_strlit(": no unmount command was available");
    }
}

/// A failure to mount is reported as having failed at the quoted
/// directory, with the advice on macFUSE above that on macOS only.
pub proof fn lemma_mount_failure_messages(path: std::path::PathBuf, platform: Platform)
    ensures
        mount_failure_contexts(path, platform).last() == "failed to mount virtual file system at "@
            + path_debug_text(path),
        platform == Platform::MacOs ==> mount_failure_contexts(path, platform).len() == 2
            && mount_failure_contexts(path, platform)[0] == macos_fuse_hint_text(),
        platform != Platform::MacOs ==> mount_failure_contexts(path, platform).len() == 1,
{
}

/// The messages of provider errors: a bad key and an unknown provider are
/// quoted as `Debug` writes them.
pub proof fn lemma_provider_error_messages(name: String)
    ensures
        provider_error_message(ProviderError::InvalidKey(name)) == "JSON provider keys must be flat file names, got "@
            + debug_text(name@),
        provider_error_message(ProviderError::UnknownProvider(name)) == "unknown provider "@ + debug_text(name@),
        provider_error_message(ProviderError::MissingOptions) == "json provider requires --provider-opts"@,
        provider_error_message(ProviderError::NotAnObject) == "json provider options must be a JSON object"@,
{
}

/// Building a provider fails on text that is not JSON exactly, and on JSON
/// that is not an object exactly.
pub proof fn lemma_options_errors(options: Seq<char>, r: Result<JsonShhhProvider, ProviderError>)
    requires
        json_options_outcome(options, r),
    ensures
        r matches Err(ProviderError::InvalidJson(_)) <==> !json_text_accepted(options),
        r matches Err(ProviderError::NotAnObject) <==> (json_text_accepted(options) && json_object_members(
            options,
        ) is None),
{
}

} // verus!
