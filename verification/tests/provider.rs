use shhhfs::provider::json::{
    entries_from_members, is_valid_entry_name, sort_entries_by_name, JsonMember, JsonShhhProvider,
    MemberContent, ProviderError,
};
use shhhfs::provider::{ShhhFsEntry, ShhhFsProvider};

fn names(provider: &JsonShhhProvider) -> Vec<String> {
    provider.entries().iter().map(|e| e.name.clone()).collect()
}

fn entry(name: &str, contents: &[u8]) -> ShhhFsEntry {
    ShhhFsEntry { name: name.to_string(), contents: contents.to_vec() }
}

#[test]
fn string_values_become_their_text() {
    let provider = JsonShhhProvider::from_options(r#"{"token": "s3cr3t", "user": "ann"}"#).unwrap();
    let entries = provider.entries();
    assert_eq!(entries.len(), 2);
    assert_eq!(entries[0].name, "token");
    assert_eq!(entries[0].contents, b"s3cr3t".to_vec());
    assert_eq!(entries[1].name, "user");
    assert_eq!(entries[1].contents, b"ann".to_vec());
}

#[test]
fn other_values_become_pretty_json() {
    let provider =
        JsonShhhProvider::from_options(r#"{"db": {"port": 5432, "hosts": ["a", "b"]}, "n": 42, "f": true, "z": null}"#)
            .unwrap();
    let entries = provider.entries();
    assert_eq!(names(&provider), vec!["db", "f", "n", "z"]);
    assert_eq!(
        String::from_utf8(entries[0].contents.clone()).unwrap(),
        "{\n  \"hosts\": [\n    \"a\",\n    \"b\"\n  ],\n  \"port\": 5432\n}"
    );
    assert_eq!(entries[1].contents, b"true".to_vec());
    assert_eq!(entries[2].contents, b"42".to_vec());
    assert_eq!(entries[3].contents, b"null".to_vec());
}

#[test]
fn string_values_are_not_quoted_and_keep_escapes_decoded() {
    let provider = JsonShhhProvider::from_options(r#"{"k": "line1\nline2 \"q\" é"}"#).unwrap();
    assert_eq!(provider.entries()[0].contents, "line1\nline2 \"q\" é".as_bytes().to_vec());
}

#[test]
fn entries_are_sorted_by_name_bytes() {
    let provider =
        JsonShhhProvider::from_options(r#"{"b": "2", "a": "1", "B": "3", "é": "4", "aa": "5"}"#).unwrap();
    assert_eq!(names(&provider), vec!["B", "a", "aa", "b", "é"]);
}

#[test]
fn empty_object_has_no_entries() {
    let provider = JsonShhhProvider::from_options("{}").unwrap();
    assert!(provider.entries().is_empty());
}

#[test]
fn invalid_json_is_rejected() {
    assert!(matches!(JsonShhhProvider::from_options("{not json"), Err(ProviderError::InvalidJson(_))));
    assert!(matches!(JsonShhhProvider::from_options(""), Err(ProviderError::InvalidJson(_))));
}

#[test]
fn non_object_is_rejected() {
    assert!(matches!(JsonShhhProvider::from_options("[1, 2]"), Err(ProviderError::NotAnObject)));
    assert!(matches!(JsonShhhProvider::from_options("\"text\""), Err(ProviderError::NotAnObject)));
    assert!(matches!(JsonShhhProvider::from_options("7"), Err(ProviderError::NotAnObject)));
}

#[test]
fn keys_that_are_not_flat_names_are_rejected() {
    for key in ["", ".", "..", "a/b", "/"] {
        let options = format!("{{{:?}: \"v\"}}", key);
        match JsonShhhProvider::from_options(&options) {
            Err(ProviderError::InvalidKey(k)) => assert_eq!(k, key),
            other => panic!("unexpected result for {key:?}: {other:?}"),
        }
    }
}

#[test]
fn dots_inside_names_are_allowed() {
    let provider = JsonShhhProvider::from_options(r#"{"...": "a", ".env": "b", "a.b": "c"}"#).unwrap();
    assert_eq!(names(&provider), vec!["...", ".env", "a.b"]);
}

#[test]
fn first_bad_key_in_map_order_is_reported() {
    // The object's members come in key order, so "" is seen before "x/y".
    match JsonShhhProvider::from_options(r#"{"x/y": "1", "": "2", "ok": "3"}"#) {
        Err(ProviderError::InvalidKey(k)) => assert_eq!(k, ""),
        other => panic!("unexpected: {other:?}"),
    }
}

#[test]
fn valid_entry_names() {
    assert!(is_valid_entry_name("token"));
    assert!(is_valid_entry_name(".hidden"));
    assert!(is_valid_entry_name("..."));
    assert!(is_valid_entry_name("ключ"));
    assert!(!is_valid_entry_name(""));
    assert!(!is_valid_entry_name("."));
    assert!(!is_valid_entry_name(".."));
    assert!(!is_valid_entry_name("a/b"));
    assert!(!is_valid_entry_name("trailing/"));
}

#[test]
fn members_become_sorted_entries() {
    let members = vec![
        JsonMember { key: "zeta".to_string(), content: MemberContent::Text("z".to_string()) },
        JsonMember { key: "alpha".to_string(), content: MemberContent::Rendered("[1]".to_string()) },
        JsonMember { key: "mid".to_string(), content: MemberContent::Text("".to_string()) },
    ];
    let entries = entries_from_members(members).unwrap();
    let got: Vec<(String, Vec<u8>)> = entries.into_iter().map(|e| (e.name, e.contents)).collect();
    assert_eq!(
        got,
        vec![
            ("alpha".to_string(), b"[1]".to_vec()),
            ("mid".to_string(), Vec::new()),
            ("zeta".to_string(), b"z".to_vec()),
        ]
    );
}

#[test]
fn first_bad_key_decides_the_error() {
    let members = vec![
        JsonMember { key: "good".to_string(), content: MemberContent::Text("x".to_string()) },
        JsonMember { key: "..".to_string(), content: MemberContent::Rendered("1".to_string()) },
        JsonMember { key: "bad/key".to_string(), content: MemberContent::Text("y".to_string()) },
    ];
    match entries_from_members(members) {
        Err(ProviderError::InvalidKey(k)) => assert_eq!(k, ".."),
        other => panic!("unexpected: {other:?}"),
    }
}

#[test]
fn non_string_values_always_render() {
    // Every JSON value renders, so valid keys are all it takes to succeed.
    let provider =
        JsonShhhProvider::from_options(r#"{"a": [], "b": {}, "c": -1.5e3, "d": [null, {"x": [1]}]}"#).unwrap();
    let entries = provider.entries();
    assert_eq!(entries[0].contents, b"[]".to_vec());
    assert_eq!(entries[1].contents, b"{}".to_vec());
    assert_eq!(entries[2].contents, b"-1500.0".to_vec());
    assert_eq!(
        String::from_utf8(entries[3].contents.clone()).unwrap(),
        "[\n  null,\n  {\n    \"x\": [\n      1\n    ]\n  }\n]"
    );
}

#[test]
fn error_messages() {
    assert_eq!(ProviderError::MissingOptions.message(), "json provider requires --provider-opts");
    assert_eq!(ProviderError::UnknownProvider("vault".to_string()).message(), "unknown provider \"vault\"");
    assert_eq!(ProviderError::NotAnObject.message(), "json provider options must be a JSON object");
    assert_eq!(
        ProviderError::InvalidKey("a/\"b".to_string()).message(),
        "JSON provider keys must be flat file names, got \"a/\\\"b\""
    );
    let err = JsonShhhProvider::from_options("{").unwrap_err();
    assert_eq!(err.message(), "failed to parse json provider options");
}

#[test]
fn no_members_no_entries() {
    assert!(entries_from_members(Vec::new()).unwrap().is_empty());
}

#[test]
fn sorting_orders_by_bytes_and_keeps_every_entry() {
    let sorted = sort_entries_by_name(vec![
        entry("b", b"2"),
        entry("a", b"1"),
        entry("Z", b"0"),
        entry("ab", b"3"),
    ]);
    let got: Vec<(String, Vec<u8>)> = sorted.into_iter().map(|e| (e.name, e.contents)).collect();
    assert_eq!(
        got,
        vec![
            ("Z".to_string(), b"0".to_vec()),
            ("a".to_string(), b"1".to_vec()),
            ("ab".to_string(), b"3".to_vec()),
            ("b".to_string(), b"2".to_vec()),
        ]
    );
}

#[test]
fn sorting_keeps_entries_of_equal_names_in_their_order() {
    let sorted = sort_entries_by_name(vec![
        entry("k", b"first"),
        entry("a", b"x"),
        entry("k", b"second"),
        entry("k", b"third"),
        entry("", b"empty"),
    ]);
    let got: Vec<(String, Vec<u8>)> = sorted.into_iter().map(|e| (e.name, e.contents)).collect();
    assert_eq!(
        got,
        vec![
            ("".to_string(), b"empty".to_vec()),
            ("a".to_string(), b"x".to_vec()),
            ("k".to_string(), b"first".to_vec()),
            ("k".to_string(), b"second".to_vec()),
            ("k".to_string(), b"third".to_vec()),
        ]
    );
    assert!(sort_entries_by_name(Vec::new()).is_empty());
}
