//! The JSON provider: a flat JSON object whose members become files.

use vstd::prelude::*;

use crate::order::{
    bytes_less, lemma_bytes_le_transitive, lemma_bytes_lt_asymmetric, lemma_bytes_lt_irreflexive,
    lemma_bytes_lt_total,
};
use crate::provider::{
    name_bytes, name_lt, names_distinct, sorted_by_name, valid_entry_name, ShhhFsEntry,
    ShhhFsProvider,
};

verus! {

/// The error type of `serde_json`, carried through opaquely.
#[verifier::external_type_specification]
#[verifier::external_body]
pub struct ExJsonError(serde_json::Error);

/// Whether `serde_json` accepts a text as one JSON document.
pub uninterp spec fn json_text_accepted(text: Seq<char>) -> bool;

/// A JSON value as `serde_json` holds it, carried through opaquely.
#[verifier::external_type_specification]
#[verifier::external_body]
pub struct ExJsonValue(serde_json::Value);

/// The members of the JSON object that a text holds, each key with its
/// value, in the order in which `serde_json`'s map hands them out; `None`
/// when the document is not an object.
pub uninterp spec fn json_object_members(text: Seq<char>) -> Option<Seq<(Seq<char>, serde_json::Value)>>;

/// The text of a JSON value that is a string; `None` for any other value.
pub uninterp spec fn json_value_string(value: serde_json::Value) -> Option<Seq<char>>;

/// The pretty-printed JSON (`serde_json::to_string_pretty`) of a value.
pub uninterp spec fn json_value_pretty(value: serde_json::Value) -> Seq<char>;

/// A member as parsed: its key, by its text, and its value.
pub open spec fn parsed_member_view(member: (String, serde_json::Value)) -> (Seq<char>, serde_json::Value) {
    (member.0@, member.1)
}

/// Parses a JSON document with `serde_json::from_str` into a
/// `serde_json::Value` and, when it is an object, hands out its members.
/// Claimed: the call succeeds exactly on the texts that `serde_json`
/// accepts; the members are `json_object_members` of the text, a function
/// of the text alone; and the keys are pairwise different, since the map of
/// `serde_json` (a `BTreeMap` here) holds each key once.
#[verifier::external_body]
fn parse_json_object(text: &str) -> (r: Result<Option<Vec<(String, serde_json::Value)>>, serde_json::Error>)
    ensures
        r is Ok <==> json_text_accepted(text@),
        r matches Ok(doc) ==> json_object_members(text@) == match doc {
            Some(members) => Some(members@.map_values(|m: (String, serde_json::Value)| parsed_member_view(m))),
            None => None,
        },
        r matches Ok(Some(members)) ==> forall|i: int, j: int|
            0 <= i < members@.len() && 0 <= j < members@.len() && i != j
                ==> #[trigger] members@[i].0@ != #[trigger] members@[j].0@,
{
    match serde_json::from_str::<serde_json::Value>(text)? {
        serde_json::Value::Object(map) => Ok(Some(map.into_iter().collect())),
        _ => Ok(None),
    }
}

/// The text of a string value, through `serde_json::Value::as_str`.
/// Claimed: the result is `json_value_string` of the value, a function of
/// the value alone.
#[verifier::external_body]
fn json_string_text(value: &serde_json::Value) -> (r: Option<String>)
    ensures
        r is None <==> json_value_string(*value) is None,
        r matches Some(text) ==> json_value_string(*value) == Some(text@),
{
    value.as_str().map(String::from)
}

/// Renders a value with `serde_json::to_string_pretty`.
/// Claimed: the result is `json_value_pretty` of the value, a function of
/// the value alone, and the call succeeds: a `Value` has only string keys
/// and the output goes to memory, so none of the serializer's errors can
/// arise (serde_json 1.0.154, `src/ser.rs`).
#[verifier::external_body]
fn json_pretty_text(value: &serde_json::Value) -> (r: Result<String, serde_json::Error>)
    ensures
        r is Ok,
        r matches Ok(text) ==> text@ == json_value_pretty(*value),
{
    serde_json::to_string_pretty(value)
}

/// The text that the file of a member with value `value` holds: a string's
/// own text, or the pretty-printed JSON of any other value.
pub open spec fn member_file_text(value: serde_json::Value) -> Seq<char> {
    match json_value_string(value) {
        Some(text) => text,
        None => json_value_pretty(value),
    }
}

/// A parsed member as its file sees it: its key, whether its value is a
/// string, and the text that its file holds.
pub open spec fn member_file_view(member: (Seq<char>, serde_json::Value)) -> (Seq<char>, bool, Seq<char>) {
    (member.0, json_value_string(member.1) is Some, member_file_text(member.1))
}

/// The members of the JSON object that a text holds, as their files see
/// them; `None` when the document is not an object.
pub open spec fn json_object_files(text: Seq<char>) -> Option<Seq<(Seq<char>, bool, Seq<char>)>> {
    match json_object_members(text) {
        Some(members) => Some(members.map_values(|m: (Seq<char>, serde_json::Value)| member_file_view(m))),
        None => None,
    }
}

/// Why the provider options could not become file entries.
#[derive(Debug)]
pub enum ProviderError {
    /// The `json` provider was chosen without options.
    MissingOptions,
    /// No provider has this name.
    UnknownProvider(String),
    /// The options are not a JSON document.
    InvalidJson(serde_json::Error),
    /// The options are JSON, but not an object.
    NotAnObject,
    /// A key of the object cannot be a flat file name.
    InvalidKey(String),
}

/// How `format!("{:?}", ..)` writes a string: in quotes, with escapes.
pub uninterp spec fn debug_text(text: Seq<char>) -> Seq<char>;

/// Writes a string as `format!("{:?}", ..)` does, through `str`'s `Debug`.
/// Claimed: the result is `debug_text` of the string, a function of the
/// string alone.
#[verifier::external_body]
fn debug_quoted(text: &str) -> (r: String)
    ensures
        r@ == debug_text(text@),
{
    format!("{:?}", text)
}

/// The message that a provider error is reported with.
pub open spec fn provider_error_message(err: ProviderError) -> Seq<char> {
    match err {
        ProviderError::MissingOptions => "json provider requires --provider-opts"@,
        ProviderError::UnknownProvider(name) => "unknown provider "@ + debug_text(name@),
        ProviderError::InvalidJson(_) => "failed to parse json provider options"@,
        ProviderError::NotAnObject => "json provider options must be a JSON object"@,
        ProviderError::InvalidKey(key) => "JSON provider keys must be flat file names, got "@ + debug_text(
            key@,
        ),
    }
}

impl ProviderError {
    /// The message that the error is reported with; for invalid JSON, the
    /// parser's own error is its cause.
    pub fn message(&self) -> (r: String)
        ensures
            r@ == provider_error_message(*self),
    {
        match self {
            ProviderError::MissingOptions => String::from_str("json provider requires --provider-opts"),
            ProviderError::UnknownProvider(name) => String::from_str("unknown provider ").concat(
                debug_quoted(name.as_str()).as_str(),
            ),
            ProviderError::InvalidJson(_) => String::from_str("failed to parse json provider options"),
            ProviderError::NotAnObject => String::from_str("json provider options must be a JSON object"),
            ProviderError::InvalidKey(key) => String::from_str(
                "JSON provider keys must be flat file names, got ",
            ).concat(debug_quoted(key.as_str()).as_str()),
        }
    }
}

/// What a member of the options object becomes as file contents.
#[derive(Debug)]
pub enum MemberContent {
    /// A JSON string: the file holds the string's text.
    Text(String),
    /// Any other JSON value: the file holds its pretty-printed JSON.
    Rendered(String),
}

/// A member of the options object: its key and what its value becomes.
#[derive(Debug)]
pub struct JsonMember {
    pub key: String,
    pub content: MemberContent,
}

/// A member stops the conversion: its key is not a valid name.
pub open spec fn member_rejected(member: JsonMember) -> bool {
    !valid_entry_name(member.key@)
}

/// The error that a rejected member is reported with.
pub open spec fn member_error(member: JsonMember) -> ProviderError {
    ProviderError::InvalidKey(member.key)
}

/// The text that a member's file holds.
pub open spec fn member_text(member: JsonMember) -> Seq<char> {
    match member.content {
        MemberContent::Text(t) => t@,
        MemberContent::Rendered(t) => t@,
    }
}

/// `entry` is the file that `member` becomes: named by the key, holding the
/// UTF-8 bytes of the member's text.
pub open spec fn entry_of_member(entry: ShhhFsEntry, member: JsonMember) -> bool {
    &&& entry.name@ == member.key@
    &&& entry.contents@ == name_bytes(member_text(member))
}

/// Member `i` is the first one that is rejected.
pub open spec fn first_rejected(members: Seq<JsonMember>, i: int) -> bool {
    &&& 0 <= i < members.len()
    &&& member_rejected(members[i])
    &&& forall|j: int| 0 <= j < i ==> !member_rejected(#[trigger] members[j])
}

/// The keys of the members are pairwise different.
pub open spec fn keys_distinct(members: Seq<JsonMember>) -> bool {
    forall|i: int, j: int|
        0 <= i < members.len() && 0 <= j < members.len() && i != j ==> #[trigger] members[i].key@
            != #[trigger] members[j].key@
}

/// Some entry of `entries` is the file of `member`.
pub open spec fn has_entry_of(entries: Seq<ShhhFsEntry>, member: JsonMember) -> bool {
    exists|j: int| 0 <= j < entries.len() && #[trigger] entry_of_member(entries[j], member)
}

/// `entry` is the file of some member of `members`.
pub open spec fn has_member_of(entry: ShhhFsEntry, members: Seq<JsonMember>) -> bool {
    exists|i: int| 0 <= i < members.len() && #[trigger] entry_of_member(entry, members[i])
}

/// `entries` holds exactly the files of `members`, one for each member.
pub open spec fn entries_of_members(entries: Seq<ShhhFsEntry>, members: Seq<JsonMember>) -> bool {
    &&& entries.len() == members.len()
    &&& forall|i: int| 0 <= i < members.len() ==> has_entry_of(entries, #[trigger] members[i])
    &&& forall|j: int| 0 <= j < entries.len() ==> has_member_of(#[trigger] entries[j], members)
}

/// `sorted` holds the same entries as `unsorted`, each once.
pub open spec fn same_entries(sorted: Seq<ShhhFsEntry>, unsorted: Seq<ShhhFsEntry>) -> bool {
    &&& sorted.len() == unsorted.len()
    &&& forall|i: int| 0 <= i < unsorted.len() ==> sorted.contains(#[trigger] unsorted[i])
    &&& forall|j: int| 0 <= j < sorted.len() ==> unsorted.contains(#[trigger] sorted[j])
}

/// The entries are listed in order of their names: no entry's name sorts
/// below the name of an entry before it.
pub open spec fn ordered_by_name(entries: Seq<ShhhFsEntry>) -> bool {
    forall|i: int, j: int|
        0 <= i < j < entries.len() ==> !name_lt(#[trigger] entries[j].name@, #[trigger] entries[i].name@)
}

/// Position `k` of `sorted` holds entry `perm[k]` of `unsorted`, and no
/// entry of `unsorted` is taken twice.
pub open spec fn permutes(perm: Seq<int>, sorted: Seq<ShhhFsEntry>, unsorted: Seq<ShhhFsEntry>) -> bool {
    &&& perm.len() == sorted.len()
    &&& sorted.len() == unsorted.len()
    &&& forall|k: int| 0 <= k < perm.len() ==> 0 <= #[trigger] perm[k] < unsorted.len()
    &&& forall|k: int| 0 <= k < perm.len() ==> #[trigger] sorted[k] == unsorted[perm[k]]
    &&& forall|k1: int, k2: int| 0 <= k1 < k2 < perm.len() ==> #[trigger] perm[k1] != #[trigger] perm[k2]
}

/// Entries of equal names keep the order that `perm` took them in.
pub open spec fn keeps_equal_names_in_order(perm: Seq<int>, sorted: Seq<ShhhFsEntry>) -> bool {
    forall|k1: int, k2: int|
        0 <= k1 < k2 < perm.len() && #[trigger] sorted[k1].name@ == #[trigger] sorted[k2].name@ ==> perm[k1]
            < perm[k2]
}

/// Some position of `perm` takes entry `j`.
pub open spec fn takes(perm: Seq<int>, j: int) -> bool {
    exists|k: int| 0 <= k < perm.len() && #[trigger] perm[k] == j
}

/// `sorted` is `unsorted` sorted by name, with entries of equal names in
/// their first order.
pub open spec fn stable_sort_of(sorted: Seq<ShhhFsEntry>, unsorted: Seq<ShhhFsEntry>) -> bool {
    &&& ordered_by_name(sorted)
    &&& exists|perm: Seq<int>| #[trigger] permutes(perm, sorted, unsorted) && keeps_equal_names_in_order(perm, sorted)
}

/// Sorts entries by name, in increasing order of their UTF-8 bytes, keeping
/// entries of equal names in their order; with pairwise different names
/// the order is strict.
pub fn sort_entries_by_name(entries: Vec<ShhhFsEntry>) -> (r: Vec<ShhhFsEntry>)
    ensures
        stable_sort_of(r@, entries@),
        same_entries(r@, entries@),
        names_distinct(entries@) ==> sorted_by_name(r@),
{
    let ghost orig = entries@;
    let mut rest = entries;
    let mut sorted: Vec<ShhhFsEntry> = Vec::new();
    let ghost mut idx: Seq<int> = Seq::empty();
    while rest.len() > 0
        invariant
            rest@ == orig.take(rest@.len() as int),
            rest@.len() <= orig.len(),
            sorted@.len() + rest@.len() == orig.len(),
            idx.len() == sorted@.len(),
            forall|k: int| 0 <= k < idx.len() ==> rest@.len() <= #[trigger] idx[k] < orig.len(),
            forall|k: int| 0 <= k < idx.len() ==> #[trigger] sorted@[k] == orig[idx[k]],
            forall|k1: int, k2: int| 0 <= k1 < k2 < idx.len() ==> #[trigger] idx[k1] != #[trigger] idx[k2],
            forall|j: int| rest@.len() <= j < orig.len() ==> #[trigger] takes(idx, j),
            ordered_by_name(sorted@),
            keeps_equal_names_in_order(idx, sorted@),
        decreases rest@.len(),
    {
        let ghost before = sorted@;
        let ghost before_idx = idx;
        let entry = rest.pop().unwrap();
        let ghost at: int = rest@.len() as int;
        assert(entry == orig[at]);
        let mut p: usize = 0;
        while p < sorted.len() && bytes_less(
            sorted[p].name.as_str().as_bytes(),
            entry.name.as_str().as_bytes(),
        )
            invariant
                sorted@ == before,
                p <= sorted@.len(),
                forall|i: int| 0 <= i < p ==> name_lt(#[trigger] sorted@[i].name@, entry.name@),
            decreases sorted@.len() - p,
        {
            p = p + 1;
        }
        sorted.insert(p, entry);
        proof {
            idx = before_idx.insert(p as int, at);
            let now = sorted@;
            assert(now == before.insert(p as int, entry));
            assert forall|k: int| 0 <= k < idx.len() implies rest@.len() <= #[trigger] idx[k] < orig.len()
                && now[k] == orig[idx[k]] by {
                if k < p {
                    assert(idx[k] == before_idx[k]);
                } else if k > p {
                    assert(idx[k] == before_idx[k - 1]);
                }
            }
            assert forall|k: int| 0 <= k < idx.len() implies #[trigger] now[k] == orig[idx[k]] by {
                assert(rest@.len() <= idx[k] < orig.len() && now[k] == orig[idx[k]]);
            }
            assert forall|k1: int, k2: int| 0 <= k1 < k2 < idx.len() implies #[trigger] idx[k1]
                != #[trigger] idx[k2] by {
                if k1 < p && k2 > p {
                    assert(before_idx[k1] != before_idx[k2 - 1]);
                } else if k1 > p {
                    assert(before_idx[k1 - 1] != before_idx[k2 - 1]);
                } else if k1 < p && k2 < p {
                    assert(before_idx[k1] != before_idx[k2]);
                } else if k1 == p {
                    assert(idx[k2] == before_idx[k2 - 1]);
                } else {
                    assert(idx[k1] == before_idx[k1]);
                }
            }
            assert forall|j: int| rest@.len() <= j < orig.len() implies #[trigger] takes(idx, j) by {
                if j == at {
                    assert(idx[p as int] == j);
                } else {
                    assert(takes(before_idx, j));
                    let k = choose|k: int| 0 <= k < before_idx.len() && #[trigger] before_idx[k] == j;
                    if k < p {
                        assert(idx[k] == j);
                    } else {
                        assert(idx[k + 1] == j);
                    }
                }
            }
            assert forall|i: int, j: int| 0 <= i < j < now.len() implies !name_lt(
                #[trigger] now[j].name@,
                #[trigger] now[i].name@,
            ) by {
                if j < p {
                } else if j == p {
                    assert(name_lt(now[i].name@, entry.name@));
                    lemma_bytes_lt_asymmetric(name_bytes(now[i].name@), name_bytes(entry.name@));
                } else if i < p {
                    assert(now[i] == before[i]);
                    assert(now[j] == before[j - 1]);
                } else if i == p {
                    assert(now[j] == before[j - 1]);
                    assert(!name_lt(before[p as int].name@, entry.name@));
                    if j - 1 > p {
                        assert(!name_lt(before[j - 1].name@, before[p as int].name@));
                    }
                    lemma_bytes_le_transitive(
                        name_bytes(entry.name@),
                        name_bytes(before[p as int].name@),
                        name_bytes(before[j - 1].name@),
                    );
                } else {
                    assert(now[i] == before[i - 1]);
                    assert(now[j] == before[j - 1]);
                }
            }
            assert forall|k1: int, k2: int|
                0 <= k1 < k2 < idx.len() && #[trigger] now[k1].name@ == #[trigger] now[k2].name@ implies idx[k1]
                < idx[k2] by {
                if k2 < p {
                    assert(now[k1] == before[k1] && now[k2] == before[k2]);
                } else if k2 == p {
                    assert(name_lt(now[k1].name@, entry.name@));
                    lemma_bytes_lt_irreflexive(name_bytes(entry.name@));
                } else if k1 < p {
                    assert(now[k1] == before[k1] && now[k2] == before[k2 - 1]);
                } else if k1 == p {
                    assert(idx[k2] == before_idx[k2 - 1]);
                } else {
                    assert(now[k1] == before[k1 - 1] && now[k2] == before[k2 - 1]);
                }
            }
            assert(rest@ =~= orig.take(rest@.len() as int));
        }
    }
    proof {
        let r = sorted@;
        assert(permutes(idx, r, orig));
        assert forall|i: int| 0 <= i < orig.len() implies r.contains(#[trigger] orig[i]) by {
            assert(takes(idx, i));
            let k = choose|k: int| 0 <= k < idx.len() && #[trigger] idx[k] == i;
            assert(r[k] == orig[i]);
        }
        assert forall|j: int| 0 <= j < r.len() implies orig.contains(#[trigger] r[j]) by {
            assert(r[j] == orig[idx[j]]);
        }
        if names_distinct(orig) {
            assert forall|i: int, j: int| 0 <= i < j < r.len() implies name_lt(
                #[trigger] r[i].name@,
                #[trigger] r[j].name@,
            ) by {
                assert(idx[i] != idx[j]);
                assert(r[i].name@ != r[j].name@);
                vstd::utf8::encode_utf8_decode_utf8(r[i].name@);
                vstd::utf8::encode_utf8_decode_utf8(r[j].name@);
                lemma_bytes_lt_total(name_bytes(r[i].name@), name_bytes(r[j].name@));
            }
        }
    }
    sorted
}

/// Checks that a key can stand as a flat file name.
pub fn is_valid_entry_name(name: &str) -> (r: bool)
    ensures
        r == valid_entry_name(name@),
{
    let len: usize = name.unicode_len();
    if len == 0 {
        return false;
    }
    if len == 1 && name.get_char(0) == '.' {
        assert(name@ =~= seq!['.']);
        return false;
    }
    if len == 2 && name.get_char(0) == '.' && name.get_char(1) == '.' {
        assert(name@ =~= seq!['.', '.']);
        return false;
    }
    let mut i: usize = 0;
    while i < len
        invariant
            len == name@.len(),
            i <= len,
            forall|j: int| 0 <= j < i ==> name@[j] != '/',
        decreases len - i,
    {
        if name.get_char(i) == '/' {
            assert(name@.contains('/')) by {
                assert(name@[i as int] == '/');
            }
            return false;
        }
        i = i + 1;
    }
    proof {
        if len == 1 {
            assert(name@ != seq!['.', '.']);
            assert(name@ != seq!['.']) by {
                if name@ == seq!['.'] {
                    assert(name@[0] == '.');
                }
            }
        } else if len == 2 {
            assert(name@ != seq!['.']);
            assert(name@ != seq!['.', '.']) by {
                if name@ == seq!['.', '.'] {
                    assert(name@[0] == '.' && name@[1] == '.');
                }
            }
        } else {
            assert(name@ != seq!['.']);
            assert(name@ != seq!['.', '.']);
        }
    }
    true
}

/// Turns the members of the options object into the provider's entries:
/// each member becomes a file named by its key and holding its text, and the
/// files are sorted by name. The first member whose key is not a flat file
/// name stops the conversion with its error.
pub fn entries_from_members(members: Vec<JsonMember>) -> (r: Result<Vec<ShhhFsEntry>, ProviderError>)
    requires
        keys_distinct(members@),
    ensures
        r is Err <==> exists|i: int| first_rejected(members@, i),
        forall|i: int| first_rejected(members@, i) ==> r == Err::<Vec<ShhhFsEntry>, ProviderError>(member_error(members@[i])),
        r matches Ok(entries) ==> {
            &&& sorted_by_name(entries@)
            &&& entries_of_members(entries@, members@)
            &&& forall|i: int| 0 <= i < members@.len() ==> !member_rejected(#[trigger] members@[i])
        },
{
    let ghost orig = members@;
    let mut rest = members;
    let mut built: Vec<ShhhFsEntry> = Vec::new();
    while rest.len() > 0
        invariant
            orig == members@,
            keys_distinct(orig),
            built@.len() + rest@.len() == orig.len(),
            rest@ == orig.skip(built@.len() as int),
            forall|j: int| 0 <= j < built@.len() ==> !member_rejected(#[trigger] orig[j]),
            forall|j: int| 0 <= j < built@.len() ==> entry_of_member(#[trigger] built@[j], orig[j]),
        decreases rest@.len(),
    {
        let ghost at: int = built@.len() as int;
        let member = rest.remove(0);
        assert(member == orig[at]);
        if !is_valid_entry_name(member.key.as_str()) {
            proof {
                assert(first_rejected(orig, at));
                assert forall|i: int| first_rejected(orig, i) implies i == at by {
                    if i < at {
                        assert(!member_rejected(orig[i]));
                    } else if i > at {
                        assert(!member_rejected(orig[at]));
                    }
                }
            }
            return Err(ProviderError::InvalidKey(member.key));
        }
        let contents = match member.content {
            MemberContent::Text(text) => text.as_str().as_bytes_vec(),
            MemberContent::Rendered(text) => text.as_str().as_bytes_vec(),
        };
        built.push(ShhhFsEntry { name: member.key, contents });
        proof {
            assert(rest@ =~= orig.skip(built@.len() as int));
        }
    }
    proof {
        assert forall|i: int| !first_rejected(orig, i) by {
            if 0 <= i < orig.len() {
                assert(!member_rejected(orig[i]));
            }
        }
        assert forall|i: int, j: int|
            0 <= i < built@.len() && 0 <= j < built@.len() && i != j implies #[trigger] built@[i].name@
                != #[trigger] built@[j].name@ by {
            assert(entry_of_member(built@[i], orig[i]));
            assert(entry_of_member(built@[j], orig[j]));
        }
    }
    let sorted = sort_entries_by_name(built);
    proof {
        let b = built@;
        let s = sorted@;
        assert forall|i: int| 0 <= i < orig.len() implies has_entry_of(s, #[trigger] orig[i]) by {
            assert(s.contains(b[i]));
            let j = choose|j: int| 0 <= j < s.len() && s[j] == b[i];
            assert(entry_of_member(s[j], orig[i]));
        }
        assert forall|j: int| 0 <= j < s.len() implies has_member_of(#[trigger] s[j], orig) by {
            assert(b.contains(s[j]));
            let i = choose|i: int| 0 <= i < b.len() && b[i] == s[j];
            assert(entry_of_member(b[i], orig[i]));
        }
        assert(sorted_by_name(s));
        assert(s.len() == b.len());
        assert(b.len() == orig.len());
        assert(entries_of_members(s, orig));
    }
    Ok(sorted)
}


/// The JSON provider: a JSON object whose members are the secrets, one file
/// per member, kept in order of their names.
#[derive(Debug)]
pub struct JsonShhhProvider {
    entries: Vec<ShhhFsEntry>,
}

impl ShhhFsProvider for JsonShhhProvider {
    closed spec fn entry_list(&self) -> Seq<ShhhFsEntry> {
        self.entries@
    }

    fn entries(&self) -> (r: &[ShhhFsEntry]) {
        self.entries.as_slice()
    }
}

impl JsonShhhProvider {
    /// The provider's entries are sorted by name and every name is a flat
    /// file name.
    pub open spec fn wf(&self) -> bool {
        &&& sorted_by_name(self.entry_list())
        &&& forall|i: int|
            0 <= i < self.entry_list().len() ==> valid_entry_name(
                #[trigger] self.entry_list()[i].name@,
            )
    }

    /// Builds the provider from its options, a JSON object: each member
    /// becomes a file named by its key, holding the text of a string value
    /// or the pretty-printed JSON of any other value.
    #[verifier::spinoff_prover]
    pub fn from_options(options: &str) -> (r: Result<Self, ProviderError>)
        ensures
            json_options_outcome(options@, r),
    {
        let members = match parse_json_object(options) {
            Ok(Some(members)) => members,
            Ok(None) => return Err(ProviderError::NotAnObject),
            Err(e) => return Err(ProviderError::InvalidJson(e)),
        };
        assert(json_text_accepted(options@));
        let ghost parsed = members@.map_values(
            |m: (String, serde_json::Value)| member_file_view(parsed_member_view(m)),
        );
        let ghost orig = members@;
        let mut rest = members;
        let mut converted: Vec<JsonMember> = Vec::new();
        while rest.len() > 0
            invariant
                parsed == orig.map_values(
                    |m: (String, serde_json::Value)| member_file_view(parsed_member_view(m)),
                ),
                forall|i: int, j: int|
                    0 <= i < orig.len() && 0 <= j < orig.len() && i != j ==> #[trigger] orig[i].0@
                        != #[trigger] orig[j].0@,
                converted@.len() + rest@.len() == orig.len(),
                rest@ == orig.skip(converted@.len() as int),
                forall|j: int| 0 <= j < converted@.len() ==> converted_from(#[trigger] converted@[j], parsed[j]),
            decreases rest@.len(),
        {
            let ghost at: int = converted@.len() as int;
            let (key, value) = rest.remove(0);
            assert(parsed[at] == member_file_view(parsed_member_view((key, value))));
            let content = match json_string_text(&value) {
                Some(text) => MemberContent::Text(text),
                None => match json_pretty_text(&value) {
                    Ok(text) => MemberContent::Rendered(text),
                    Err(e) => return Err(ProviderError::InvalidJson(e)),
                },
            };
            converted.push(JsonMember { key, content });
            proof {
                assert(rest@ =~= orig.skip(converted@.len() as int));
            }
        }
        proof {
            assert forall|i: int, j: int|
                0 <= i < converted@.len() && 0 <= j < converted@.len() && i != j implies #[trigger] converted@[i].key@
                    != #[trigger] converted@[j].key@ by {
                assert(converted_from(converted@[i], parsed[i]));
                assert(converted_from(converted@[j], parsed[j]));
            }
        }
        let ghost conv = converted@;
        let result = entries_from_members(converted);
        proof {
            lemma_members_outcome(parsed, conv, result);
            assert(json_object_files(options@) == Some(parsed));
        }
        match result {
            Ok(entries) => {
                let provider = JsonShhhProvider { entries };
                assert(provider.entry_list() == entries@);
                assert(provider.wf());
                assert(entries_match_object(provider.entry_list(), parsed));
                let r: Result<Self, ProviderError> = Ok(provider);
                assert(json_options_outcome(options@, r));
                r
            },
            Err(e) => {
                assert(e is InvalidKey);
                assert(json_object_files(options@) == Some(parsed));
                assert(json_text_accepted(options@));
                proof {
                    if let ProviderError::InvalidKey(key) = &e {
                        let i = choose|i: int| first_invalid_key(parsed, i) && #[trigger] parsed[i].0 == key@;
                        let ms = json_object_files(options@).unwrap();
                        assert(ms == parsed);
                        assert(first_invalid_key(ms, i) && ms[i].0 == key@);
                    } else {
                        assert(false);
                    }
                }
                let r: Result<Self, ProviderError> = Err(e);
                assert(json_options_outcome(options@, r));
                r
            },
        }
    }
}

/// `member` is what the conversion makes of the parsed member `parsed`: the
/// same key, and its text, kept as a string's text or as rendered JSON.
pub open spec fn converted_from(member: JsonMember, parsed: (Seq<char>, bool, Seq<char>)) -> bool {
    &&& member.key@ == parsed.0
    &&& if parsed.1 {
        member.content matches MemberContent::Text(t) && t@ == parsed.2
    } else {
        member.content matches MemberContent::Rendered(t) && t@ == parsed.2
    }
}

/// `entry` is the file of the parsed member `member`: named by its key and
/// holding the UTF-8 bytes of its text.
pub open spec fn file_of_parsed(entry: ShhhFsEntry, member: (Seq<char>, bool, Seq<char>)) -> bool {
    &&& entry.name@ == member.0
    &&& entry.contents@ == name_bytes(member.2)
}

/// Some entry of `entries` is the file of the parsed member `member`.
pub open spec fn has_file_of_parsed(entries: Seq<ShhhFsEntry>, member: (Seq<char>, bool, Seq<char>)) -> bool {
    exists|j: int| 0 <= j < entries.len() && #[trigger] file_of_parsed(entries[j], member)
}

/// `entry` is named by the key of some parsed member.
pub open spec fn named_by_some_key(entry: ShhhFsEntry, members: Seq<(Seq<char>, bool, Seq<char>)>) -> bool {
    exists|i: int| 0 <= i < members.len() && #[trigger] members[i].0 == entry.name@
}

/// The entries are the files of the object's members, one per member.
pub open spec fn entries_match_object(
    entries: Seq<ShhhFsEntry>,
    members: Seq<(Seq<char>, bool, Seq<char>)>,
) -> bool {
    &&& entries.len() == members.len()
    &&& forall|i: int| 0 <= i < members.len() ==> #[trigger] has_file_of_parsed(entries, members[i])
    &&& forall|j: int| 0 <= j < entries.len() ==> #[trigger] named_by_some_key(entries[j], members)
}

/// Key `i` is the first key that is not a flat file name.
pub open spec fn first_invalid_key(members: Seq<(Seq<char>, bool, Seq<char>)>, i: int) -> bool {
    &&& 0 <= i < members.len()
    &&& !valid_entry_name(members[i].0)
    &&& forall|j: int| 0 <= j < i ==> valid_entry_name(#[trigger] members[j].0)
}

/// Every key of the members is a flat file name.
pub open spec fn all_keys_valid(members: Seq<(Seq<char>, bool, Seq<char>)>) -> bool {
    forall|i: int| 0 <= i < members.len() ==> valid_entry_name(#[trigger] members[i].0)
}

/// What building a provider from the options text `options` gives: an
/// error exactly when the text is not JSON, or not an object, or when some
/// key is not a flat file name (the first such key is reported); otherwise
/// the files of the object's members, sorted by name, each holding its
/// string's text or its value's pretty-printed JSON.
pub open spec fn json_options_outcome(options: Seq<char>, r: Result<JsonShhhProvider, ProviderError>) -> bool {
    match r {
        Ok(p) => json_text_accepted(options) && match json_object_files(options) {
            Some(members) => p.wf() && entries_match_object(p.entry_list(), members) && all_keys_valid(
                members,
            ),
            None => false,
        },
        Err(e) => match e {
            ProviderError::InvalidJson(_) => !json_text_accepted(options),
            ProviderError::NotAnObject => json_text_accepted(options) && json_object_files(options) is None,
            ProviderError::InvalidKey(key) => json_text_accepted(options) && match json_object_files(
                options,
            ) {
                Some(members) => exists|i: int| first_invalid_key(members, i) && #[trigger] members[i].0 == key@,
                None => false,
            },
            _ => false,
        },
    }
}

proof fn lemma_members_outcome(
    parsed: Seq<(Seq<char>, bool, Seq<char>)>,
    conv: Seq<JsonMember>,
    result: Result<Vec<ShhhFsEntry>, ProviderError>,
)
    requires
        conv.len() == parsed.len(),
        forall|j: int| 0 <= j < conv.len() ==> converted_from(#[trigger] conv[j], parsed[j]),
        result is Err <==> exists|i: int| first_rejected(conv, i),
        forall|i: int| first_rejected(conv, i) ==> result == Err::<Vec<ShhhFsEntry>, ProviderError>(member_error(conv[i])),
        result matches Ok(entries) ==> {
            &&& sorted_by_name(entries@)
            &&& entries_of_members(entries@, conv)
            &&& forall|i: int| 0 <= i < conv.len() ==> !member_rejected(#[trigger] conv[i])
        },
    ensures
        result matches Ok(entries) ==> {
            &&& sorted_by_name(entries@)
            &&& entries_match_object(entries@, parsed)
            &&& forall|i: int| 0 <= i < entries@.len() ==> valid_entry_name(#[trigger] entries@[i].name@)
        },
        result matches Err(e) ==> e is InvalidKey,
        result matches Err(ProviderError::InvalidKey(key)) ==> exists|i: int|
            first_invalid_key(parsed, i) && #[trigger] parsed[i].0 == key@,
        result is Ok <==> all_keys_valid(parsed),
{
    if let Ok(entries) = result {
        let es = entries@;
        assert forall|i: int| 0 <= i < parsed.len() implies has_file_of_parsed(es, #[trigger] parsed[i]) by {
            assert(converted_from(conv[i], parsed[i]));
            assert(has_entry_of(es, conv[i]));
            let j = choose|j: int| 0 <= j < es.len() && #[trigger] entry_of_member(es[j], conv[i]);
            assert(file_of_parsed(es[j], parsed[i]));
        }
        assert forall|j: int| 0 <= j < es.len() implies named_by_some_key(#[trigger] es[j], parsed) by {
            assert(has_member_of(es[j], conv));
            let i = choose|i: int| 0 <= i < conv.len() && #[trigger] entry_of_member(es[j], conv[i]);
            assert(converted_from(conv[i], parsed[i]));
            assert(parsed[i].0 == es[j].name@);
        }
        assert forall|i: int| 0 <= i < es.len() implies valid_entry_name(#[trigger] es[i].name@) by {
            assert(has_member_of(es[i], conv));
            let k = choose|k: int| 0 <= k < conv.len() && #[trigger] entry_of_member(es[i], conv[k]);
            assert(!member_rejected(conv[k]));
        }
        assert forall|i: int| 0 <= i < parsed.len() implies valid_entry_name(#[trigger] parsed[i].0) by {
            assert(!member_rejected(conv[i]));
            assert(converted_from(conv[i], parsed[i]));
        }
    } else {
        let i = choose|i: int| first_rejected(conv, i);
        assert(converted_from(conv[i], parsed[i]));
        assert(first_invalid_key(parsed, i)) by {
            assert forall|j: int| 0 <= j < i implies valid_entry_name(#[trigger] parsed[j].0) by {
                assert(!member_rejected(conv[j]));
                assert(converted_from(conv[j], parsed[j]));
            }
        }
        assert(!valid_entry_name(parsed[i].0));
    }
}

} // verus!
