use vstd::prelude::*;
use crate::document::{
    Document, DocModel, Entry, views, entry_views, push_copies, lemma_entry_views,
};

verus! {

/// The key prefix of a directive that puts items in front of a sequence.
pub open spec fn prepend_tag() -> Seq<char> {
    seq!['p', 'r', 'e', 'p', 'e', 'n', 'd', '-']
}

/// The key prefix of a directive that puts items after a sequence.
pub open spec fn append_tag() -> Seq<char> {
    seq!['a', 'p', 'p', 'e', 'n', 'd', '-']
}

/// Whether `s` begins with `prefix`.
pub open spec fn has_prefix(s: Seq<char>, prefix: Seq<char>) -> bool {
    prefix.len() <= s.len() && s.subrange(0, prefix.len() as int) == prefix
}

/// The first position at or after `start` whose key is the string `key`.
pub open spec fn key_index_from(
    entries: Seq<(DocModel, DocModel)>,
    key: Seq<char>,
    start: int,
) -> Option<int>
    decreases entries.len() - start,
{
    if start < 0 || start >= entries.len() {
        None
    } else if entries[start].0 == DocModel::Str(key) {
        Some(start)
    } else {
        key_index_from(entries, key, start + 1)
    }
}

/// The position of the entry whose key is the string `key`, if any.
pub open spec fn key_index(entries: Seq<(DocModel, DocModel)>, key: Seq<char>) -> Option<int> {
    key_index_from(entries, key, 0)
}

/// Whether the keys of a mapping are pairwise distinct (any other document has
/// no keys and qualifies).
pub open spec fn keys_unique(doc: DocModel) -> bool {
    match doc {
        DocModel::Mapping(entries) => forall|a: int, b: int|
            0 <= a < b < entries.len() ==> #[trigger] entries[a].0 != #[trigger] entries[b].0,
        _ => true,
    }
}

/// The value stored under the string key `key` of a mapping.
pub open spec fn lookup(doc: DocModel, key: Seq<char>) -> Option<DocModel> {
    match doc {
        DocModel::Mapping(entries) => match key_index(entries, key) {
            Some(i) => Some(entries[i].1),
            None => None,
        },
        _ => None,
    }
}

/// Grafts the sequence `extra` onto the sequence stored under `target` in `doc`
/// (in front of it when `at_front`, after it otherwise), or stores `extra` under
/// `target` when the mapping has no such key. Anything else leaves `doc` as it is.
pub open spec fn graft(doc: DocModel, target: Seq<char>, extra: DocModel, at_front: bool) -> DocModel {
    match (doc, extra) {
        (DocModel::Mapping(entries), DocModel::Sequence(items)) => match key_index(entries, target) {
            Some(i) => match entries[i].1 {
                DocModel::Sequence(current) => DocModel::Mapping(
                    entries.update(
                        i,
                        (
                            entries[i].0,
                            DocModel::Sequence(
                                if at_front {
                                    items + current
                                } else {
                                    current + items
                                },
                            ),
                        ),
                    ),
                ),
                _ => doc,
            },
            None => DocModel::Mapping(
                entries.push((DocModel::Str(target), DocModel::Sequence(items))),
            ),
        },
        _ => doc,
    }
}

/// The text of a key, looking through any number of tags: `Some` for a string,
/// tagged or not, `None` for any other key.
pub open spec fn key_text(key: DocModel) -> Option<Seq<char>>
    decreases key,
{
    match key {
        DocModel::Str(k) => Some(k),
        DocModel::Tagged(_, inner) => key_text(*inner),
        _ => None,
    }
}

/// Whether a key of the local document is a `prepend-` or `append-` directive.
pub open spec fn is_directive(key: DocModel) -> bool {
    match key_text(key) {
        Some(k) => has_prefix(k, prepend_tag()) || has_prefix(k, append_tag()),
        None => false,
    }
}

/// The effect of one entry of the local document on `doc`.
pub open spec fn apply_directive(doc: DocModel, entry: (DocModel, DocModel)) -> DocModel {
    match key_text(entry.0) {
        Some(k) => if has_prefix(k, prepend_tag()) {
            graft(doc, k.subrange(8, k.len() as int), entry.1, true)
        } else if has_prefix(k, append_tag()) {
            graft(doc, k.subrange(7, k.len() as int), entry.1, false)
        } else {
            doc
        },
        None => doc,
    }
}

/// The effect of a run of local entries, applied in order.
pub open spec fn apply_directives(doc: DocModel, entries: Seq<(DocModel, DocModel)>) -> DocModel
    decreases entries.len(),
{
    if entries.len() == 0 {
        doc
    } else {
        apply_directive(apply_directives(doc, entries.drop_last()), entries.last())
    }
}

/// The remote document with every directive of the local document applied.
pub open spec fn merged(remote: DocModel, local: DocModel) -> DocModel {
    match local {
        DocModel::Mapping(entries) => apply_directives(remote, entries),
        _ => remote,
    }
}

/// The text of a key, looking through its tags.
fn key_string(key: &Document) -> (r: Option<&String>)
    ensures
        match r {
            Some(k) => key_text(key@) == Some(k@),
            None => key_text(key@) is None,
        },
    decreases key,
{
    match key {
        Document::Str(k) => Some(k),
        Document::Tagged(_, inner) => key_string(inner),
        _ => None,
    }
}

/// Whether `s` starts with `prefix`.
fn starts_with(s: &str, prefix: &str) -> (r: bool)
    ensures
        r == has_prefix(s@, prefix@),
{
    let n = prefix.unicode_len();
    if n > s.unicode_len() {
        return false;
    }
    let mut i: usize = 0;
    while i < n
        invariant
            n == prefix@.len(),
            n <= s@.len(),
            i <= n,
            s@.subrange(0, i as int) == prefix@.subrange(0, i as int),
        decreases n - i,
    {
        if s.get_char(i) != prefix.get_char(i) {
            assert(s@.subrange(0, n as int)[i as int] != prefix@[i as int]);
            return false;
        }
        i += 1;
        assert(s@.subrange(0, i as int) =~= prefix@.subrange(0, i as int));
    }
    assert(prefix@.subrange(0, n as int) =~= prefix@);
    true
}

/// The position of the entry whose key is the string `target`.
fn find_key(entries: &Vec<Entry>, target: &str) -> (r: Option<usize>)
    ensures
        match r {
            Some(i) => i < entries@.len() && key_index(entry_views(entries@), target@) == Some(
                i as int,
            ),
            None => key_index(entry_views(entries@), target@) is None,
        },
{
    proof {
        lemma_entry_views(entries@);
    }
    let ghost es = entry_views(entries@);
    let wanted = String::from_str(target);
    let mut i: usize = 0;
    while i < entries.len()
        invariant
            i <= entries@.len(),
            es == entry_views(entries@),
            es.len() == entries@.len(),
            wanted@ == target@,
            key_index_from(es, target@, 0) == key_index_from(es, target@, i as int),
        decreases entries@.len() - i,
    {
        proof {
            lemma_entry_views(entries@);
        }
        let hit = match &entries[i].key {
            Document::Str(k) => k.eq(&wanted),
            _ => false,
        };
        assert(entry_views(entries@)[i as int].0 == entries@[i as int].key@);
        if hit {
            return Some(i);
        }
        i += 1;
    }
    None
}

/// Grafts the sequence `value` onto the sequence under `target` of `config`,
/// in front when `at_front`, after it otherwise.
fn graft_sequence(config: &mut Document, target: &str, value: &Document, at_front: bool)
    ensures
        final(config)@ == graft(old(config)@, target@, value@, at_front),
{
    if let Document::Sequence(extra) = value {
        let mut doc = Document::Null;
        std::mem::swap(config, &mut doc);
        let grafted = graft_items(doc, target, extra, at_front);
        *config = grafted;
    }
}

/// `doc` with the items of `extra` grafted onto its sequence under `target`.
fn graft_items(doc: Document, target: &str, extra: &Vec<Document>, at_front: bool) -> (r: Document)
    ensures
        r@ == graft(doc@, target@, DocModel::Sequence(views(extra@)), at_front),
{
    let ghost old_model = doc@;
    let ghost extra_model = DocModel::Sequence(views(extra@));
    match doc {
        Document::Mapping(mut entries) => {
            proof {
                lemma_entry_views(entries@);
            }
            let ghost es = entry_views(entries@);
            match find_key(&entries, target) {
                Some(i) => {
                    let grown: Option<Vec<Document>> = match &entries[i].value {
                        Document::Sequence(current) => {
                            let mut out: Vec<Document> = Vec::new();
                            proof {
                                assert(views(out@) =~= Seq::empty());
                            }
                            if at_front {
                                push_copies(&mut out, extra);
                                push_copies(&mut out, current);
                            } else {
                                push_copies(&mut out, current);
                                push_copies(&mut out, extra);
                            }
                            proof {
                                lemma_entry_views(entries@);
                                assert(es[i as int].1 == DocModel::Sequence(views(current@)));
                                assert(views(out@) =~= if at_front {
                                    views(extra@) + views(current@)
                                } else {
                                    views(current@) + views(extra@)
                                });
                            }
                            Some(out)
                        },
                        _ => {
                            proof {
                                lemma_entry_views(entries@);
                                assert(es[i as int].1 == entries@[i as int].value@);
                            }
                            None
                        },
                    };
                    if let Some(items) = grown {
                        let key = entries[i].key.deep_copy();
                        entries.set(i, Entry { key, value: Document::Sequence(items) });
                        proof {
                            lemma_entry_views(entries@);
                            assert(entry_views(entries@) =~= es.update(
                                i as int,
                                (es[i as int].0, Document::Sequence(items)@),
                            ));
                            assert(DocModel::Mapping(entry_views(entries@)) == graft(old_model, target@, extra_model, at_front));
                        }
                    } else {
                        assert(DocModel::Mapping(entry_views(entries@)) == graft(old_model, target@, extra_model, at_front));
                    }
                    Document::Mapping(entries)
                },
                None => {
                    let mut out: Vec<Document> = Vec::new();
                    proof {
                        assert(views(out@) =~= Seq::empty());
                    }
                    push_copies(&mut out, extra);
                    let ghost before = entries@;
                    let key_text = String::from_str(target);
                    let entry = Entry { key: Document::Str(key_text), value: Document::Sequence(out) };
                    assert(entry.key@ == DocModel::Str(target@));
                    entries.push(entry);
                    proof {
                        assert(entries@.drop_last() =~= before);
                        assert(entries@.last() == entry);
                        assert(entry_views(entries@) == entry_views(before).push(
                            (entry.key@, entry.value@),
                        ));
                        assert(views(out@) =~= views(extra@));
                        assert(DocModel::Mapping(entry_views(entries@)) == graft(old_model, target@, extra_model, at_front));
                    }
                    Document::Mapping(entries)
                },
            }
        },
        other => other,
    }
}

/// Puts the items of the sequence `prepend_value` in front of the sequence under
/// `target_key` of `config`, or stores them there when the key is absent.
pub fn prepend_to_array(config: &mut Document, target_key: &str, prepend_value: &Document)
    ensures
        final(config)@ == graft(old(config)@, target_key@, prepend_value@, true),
{
    graft_sequence(config, target_key, prepend_value, true);
}

/// Puts the items of the sequence `append_value` after the sequence under
/// `target_key` of `config`, or stores them there when the key is absent.
pub fn append_to_array(config: &mut Document, target_key: &str, append_value: &Document)
    ensures
        final(config)@ == graft(old(config)@, target_key@, append_value@, false),
{
    graft_sequence(config, target_key, append_value, false);
}

/// Applies every `prepend-` and `append-` directive of `local_config` to
/// `remote_config`, in the order of the local entries.
pub fn process_prepend_append(remote_config: &mut Document, local_config: &Document)
    ensures
        final(remote_config)@ == merged(old(remote_config)@, local_config@),
{
    if let Document::Mapping(local_map) = local_config {
        let ghost start = remote_config@;
        let ghost es = entry_views(local_map@);
        proof {
            lemma_entry_views(local_map@);
            reveal_strlit("prepend-");
            reveal_strlit("append-");
            assert("prepend-"@ =~= prepend_tag());
            assert("append-"@ =~= append_tag());
        }
        let mut i: usize = 0;
        while i < local_map.len()
            invariant
                i <= local_map@.len(),
                es == entry_views(local_map@),
                "prepend-"@ == prepend_tag(),
                "append-"@ == append_tag(),
                es.len() == local_map@.len(),
                remote_config@ == apply_directives(start, es.subrange(0, i as int)),
            decreases local_map@.len() - i,
        {
            proof {
                lemma_entry_views(local_map@);
                assert(es.subrange(0, i + 1).drop_last() =~= es.subrange(0, i as int));
                assert(es[i as int] == (local_map@[i as int].key@, local_map@[i as int].value@));
            }
            if let Some(key) = key_string(&local_map[i].key) {
                let key_str = key.as_str();
                if starts_with(key_str, "prepend-") {
                    let len = key_str.unicode_len();
                    let target_key = key_str.substring_char(8, len);
                    prepend_to_array(remote_config, target_key, &local_map[i].value);
                } else if starts_with(key_str, "append-") {
                    let len = key_str.unicode_len();
                    let target_key = key_str.substring_char(7, len);
                    append_to_array(remote_config, target_key, &local_map[i].value);
                }
            }
            i += 1;
        }
        proof {
            assert(es.subrange(0, i as int) =~= es);
        }
    }
}

/// The remote document with the directives of the local document applied.
pub fn merge_configs(remote_config: Document, local_config: &Document) -> (r: Document)
    ensures
        r@ == merged(remote_config@, local_config@),
        keys_unique(remote_config@) ==> keys_unique(r@),
{
    proof {
        if keys_unique(remote_config@) {
            crate::laws::law_merge_keeps_keys_unique(remote_config@, local_config@);
        }
    }
    let mut merged_config = remote_config;
    process_prepend_append(&mut merged_config, local_config);
    merged_config
}

} // verus!
