use submerge::document::{Document, Entry};
use submerge::merge::{append_to_array, merge_configs, prepend_to_array, process_prepend_append};

fn text(s: &str) -> Document {
    Document::Str(s.to_string())
}

fn list(items: &[&str]) -> Document {
    Document::Sequence(items.iter().map(|s| text(s)).collect())
}

fn map(entries: Vec<(&str, Document)>) -> Document {
    Document::Mapping(
        entries
            .into_iter()
            .map(|(k, v)| Entry { key: text(k), value: v })
            .collect(),
    )
}

#[test]
fn prepend_and_append_on_same_key() {
    let remote = map(vec![("proxies", list(&["a", "b"]))]);
    let local = map(vec![
        ("prepend-proxies", list(&["x"])),
        ("append-proxies", list(&["y"])),
    ]);
    let merged = merge_configs(remote, &local);
    assert_eq!(merged, map(vec![("proxies", list(&["x", "a", "b", "y"]))]));
}

#[test]
fn append_then_prepend_gives_same_result() {
    let remote = map(vec![("proxies", list(&["a", "b"]))]);
    let local = map(vec![
        ("append-proxies", list(&["y"])),
        ("prepend-proxies", list(&["x"])),
    ]);
    let merged = merge_configs(remote, &local);
    assert_eq!(merged, map(vec![("proxies", list(&["x", "a", "b", "y"]))]));
}

#[test]
fn plain_local_key_is_ignored() {
    let remote = map(vec![("rules", list(&["r1"]))]);
    let local = map(vec![("other", text("ignored"))]);
    let merged = merge_configs(remote, &local);
    assert_eq!(merged, map(vec![("rules", list(&["r1"]))]));
}

#[test]
fn prepend_onto_existing_sequence() {
    let remote = map(vec![("k", list(&["r1", "r2"]))]);
    let local = map(vec![("prepend-k", list(&["p1", "p2"]))]);
    let merged = merge_configs(remote, &local);
    assert_eq!(merged, map(vec![("k", list(&["p1", "p2", "r1", "r2"]))]));
}

#[test]
fn append_onto_existing_sequence() {
    let remote = map(vec![("k", list(&["r1", "r2"]))]);
    let local = map(vec![("append-k", list(&["a1", "a2"]))]);
    let merged = merge_configs(remote, &local);
    assert_eq!(merged, map(vec![("k", list(&["r1", "r2", "a1", "a2"]))]));
}

#[test]
fn absent_target_is_created_by_prepend() {
    let merged = merge_configs(map(vec![]), &map(vec![("prepend-k", list(&["p"]))]));
    assert_eq!(merged, map(vec![("k", list(&["p"]))]));
}

#[test]
fn absent_target_is_created_by_append() {
    let merged = merge_configs(map(vec![]), &map(vec![("append-k", list(&["a"]))]));
    assert_eq!(merged, map(vec![("k", list(&["a"]))]));
}

#[test]
fn created_target_goes_after_existing_keys() {
    let remote = map(vec![("first", text("1"))]);
    let merged = merge_configs(remote, &map(vec![("append-new", list(&["a"]))]));
    assert_eq!(merged, map(vec![("first", text("1")), ("new", list(&["a"]))]));
}

#[test]
fn non_sequence_target_is_kept() {
    let remote = map(vec![("mode", text("rule"))]);
    let local = map(vec![
        ("prepend-mode", list(&["x"])),
        ("append-mode", list(&["y"])),
    ]);
    let merged = merge_configs(remote, &local);
    assert_eq!(merged, map(vec![("mode", text("rule"))]));
}

#[test]
fn non_sequence_directive_is_ignored() {
    let remote = map(vec![("k", list(&["r"]))]);
    let local = map(vec![("prepend-k", text("x")), ("append-missing", text("y"))]);
    let merged = merge_configs(remote, &local);
    assert_eq!(merged, map(vec![("k", list(&["r"]))]));
}

#[test]
fn non_mapping_local_leaves_remote() {
    let remote = map(vec![("k", list(&["r"]))]);
    let merged = merge_configs(remote, &list(&["prepend-k"]));
    assert_eq!(merged, map(vec![("k", list(&["r"]))]));
}

#[test]
fn non_mapping_remote_is_kept() {
    let merged = merge_configs(list(&["r"]), &map(vec![("prepend-k", list(&["p"]))]));
    assert_eq!(merged, list(&["r"]));
}

#[test]
fn nested_directive_is_not_applied() {
    let remote = map(vec![("k", list(&["r"])), ("inner", map(vec![("k", list(&["i"]))]))]);
    let local = map(vec![("inner", map(vec![("prepend-k", list(&["x"]))]))]);
    let merged = merge_configs(remote, &local);
    assert_eq!(
        merged,
        map(vec![("k", list(&["r"])), ("inner", map(vec![("k", list(&["i"]))]))])
    );
}

#[test]
fn plain_key_among_directives_changes_nothing() {
    let remote = map(vec![("k", list(&["r"]))]);
    let with_plain = map(vec![
        ("prepend-k", list(&["p"])),
        ("k", list(&["override"])),
        ("append-k", list(&["a"])),
    ]);
    let without = map(vec![("prepend-k", list(&["p"])), ("append-k", list(&["a"]))]);
    let a = merge_configs(map(vec![("k", list(&["r"]))]), &with_plain);
    let b = merge_configs(remote, &without);
    assert_eq!(a, b);
    assert_eq!(a, map(vec![("k", list(&["p", "r", "a"]))]));
}

#[test]
fn bare_prefix_targets_empty_key() {
    let merged = merge_configs(map(vec![]), &map(vec![("prepend-", list(&["p"]))]));
    assert_eq!(merged, map(vec![("", list(&["p"]))]));
}

#[test]
fn tagged_key_is_a_directive() {
    let remote = map(vec![("k", list(&["r"]))]);
    let local = Document::Mapping(vec![Entry {
        key: Document::Tagged("!t".to_string(), Box::new(text("prepend-k"))),
        value: list(&["x"]),
    }]);
    let merged = merge_configs(remote, &local);
    assert_eq!(merged, map(vec![("k", list(&["x", "r"]))]));
}

#[test]
fn twice_tagged_key_is_a_directive() {
    let remote = map(vec![("k", list(&["r"]))]);
    let key = Document::Tagged(
        "!a".to_string(),
        Box::new(Document::Tagged("!b".to_string(), Box::new(text("append-k")))),
    );
    let local = Document::Mapping(vec![Entry { key, value: list(&["y"]) }]);
    let merged = merge_configs(remote, &local);
    assert_eq!(merged, map(vec![("k", list(&["r", "y"]))]));
}

#[test]
fn tagged_remote_key_is_not_the_target() {
    let remote = Document::Mapping(vec![Entry {
        key: Document::Tagged("!t".to_string(), Box::new(text("k"))),
        value: list(&["r"]),
    }]);
    let merged = merge_configs(remote, &map(vec![("append-k", list(&["a"]))]));
    assert_eq!(
        merged,
        Document::Mapping(vec![
            Entry {
                key: Document::Tagged("!t".to_string(), Box::new(text("k"))),
                value: list(&["r"]),
            },
            Entry { key: text("k"), value: list(&["a"]) },
        ])
    );
}

#[test]
fn nested_items_are_copied_whole() {
    let item = map(vec![("name", text("n")), ("port", Document::Number("443".to_string()))]);
    let local = Document::Mapping(vec![Entry {
        key: text("append-proxies"),
        value: Document::Sequence(vec![item]),
    }]);
    let merged = merge_configs(map(vec![("proxies", list(&[]))]), &local);
    let expected_item = map(vec![("name", text("n")), ("port", Document::Number("443".to_string()))]);
    assert_eq!(
        merged,
        Document::Mapping(vec![Entry {
            key: text("proxies"),
            value: Document::Sequence(vec![expected_item]),
        }])
    );
}

#[test]
fn prepend_to_array_direct() {
    let mut config = map(vec![("k", list(&["b"]))]);
    prepend_to_array(&mut config, "k", &list(&["a"]));
    assert_eq!(config, map(vec![("k", list(&["a", "b"]))]));
}

#[test]
fn append_to_array_direct() {
    let mut config = map(vec![("k", list(&["a"]))]);
    append_to_array(&mut config, "k", &list(&["b"]));
    assert_eq!(config, map(vec![("k", list(&["a", "b"]))]));
}

#[test]
fn process_prepend_append_in_place() {
    let mut remote = map(vec![("x", list(&["1"]))]);
    process_prepend_append(&mut remote, &map(vec![("append-x", list(&["2"]))]));
    assert_eq!(remote, map(vec![("x", list(&["1", "2"]))]));
}

#[test]
fn local_document_is_not_changed_by_merge() {
    let local = map(vec![("prepend-k", list(&["p"]))]);
    let _ = merge_configs(map(vec![("k", list(&["r"]))]), &local);
    assert_eq!(local, map(vec![("prepend-k", list(&["p"]))]));
}

#[test]
fn deep_copy_is_equal() {
    let d = map(vec![
        ("a", Document::Null),
        ("b", Document::Bool(true)),
        ("c", Document::Tagged("!x".to_string(), Box::new(list(&["q"])))),
    ]);
    assert_eq!(d.deep_copy(), d);
}

#[test]
fn empty_mapping_has_no_entries() {
    assert_eq!(Document::empty_mapping(), Document::Mapping(vec![]));
}
