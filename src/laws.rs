use vstd::prelude::*;
use crate::document::DocModel;
use crate::merge::{
    prepend_tag, append_tag, has_prefix, key_index, key_index_from, lookup, graft, is_directive,
    apply_directive, apply_directives, merged, key_text, keys_unique,
};

verus! {

/// A mapping with the single entry `key: items`.
pub open spec fn single(key: Seq<char>, items: Seq<DocModel>) -> DocModel {
    DocModel::Mapping(seq![(DocModel::Str(key), DocModel::Sequence(items))])
}

proof fn lemma_prefix_split(tag: Seq<char>, k: Seq<char>)
    ensures
        has_prefix(tag + k, tag),
        (tag + k).subrange(tag.len() as int, (tag + k).len() as int) == k,
{
    assert((tag + k).subrange(0, tag.len() as int) =~= tag);
    assert((tag + k).subrange(tag.len() as int, (tag + k).len() as int) =~= k);
}

proof fn lemma_single_directive(d: DocModel, key: Seq<char>, extra: Seq<DocModel>)
    ensures
        merged(d, single(key, extra)) == apply_directive(
            d,
            (DocModel::Str(key), DocModel::Sequence(extra)),
        ),
{
    let local = seq![(DocModel::Str(key), DocModel::Sequence(extra))];
    assert(local.drop_last() =~= Seq::<(DocModel, DocModel)>::empty());
    assert(apply_directives(d, local.drop_last()) == d);
    assert(local.last() == (DocModel::Str(key), DocModel::Sequence(extra)));
}

proof fn lemma_append_key_is_not_prepend(k: Seq<char>)
    ensures
        !has_prefix(append_tag() + k, prepend_tag()),
{
    if has_prefix(append_tag() + k, prepend_tag()) {
        assert((append_tag() + k).subrange(0, 8)[0] == (append_tag() + k)[0]);
    }
}

/// A `prepend-k` directive on a mapping whose `k` holds a sequence puts the
/// directive's items in front of the existing ones.
pub proof fn law_prepend_onto_sequence(k: Seq<char>, remote: Seq<DocModel>, extra: Seq<DocModel>)
    ensures
        merged(single(k, remote), single(prepend_tag() + k, extra)) == single(k, extra + remote),
{
    lemma_prefix_split(prepend_tag(), k);
    let local = seq![(DocModel::Str(prepend_tag() + k), DocModel::Sequence(extra))];
    assert(local.drop_last() =~= Seq::<(DocModel, DocModel)>::empty());
    let es = seq![(DocModel::Str(k), DocModel::Sequence(remote))];
    assert(key_index(es, k) == Some(0int));
    assert(es.update(0, (DocModel::Str(k), DocModel::Sequence(extra + remote))) =~= seq![
        (DocModel::Str(k), DocModel::Sequence(extra + remote)),
    ]);
    let d = single(k, remote);
    assert(apply_directives(d, local.drop_last()) == d);
    assert(local.last() == (DocModel::Str(prepend_tag() + k), DocModel::Sequence(extra)));
    assert(apply_directive(d, local.last()) == graft(d, k, DocModel::Sequence(extra), true));
    assert(merged(d, single(prepend_tag() + k, extra)) == apply_directives(d, local));
}

/// An `append-k` directive on a mapping whose `k` holds a sequence puts the
/// directive's items after the existing ones.
pub proof fn law_append_onto_sequence(k: Seq<char>, remote: Seq<DocModel>, extra: Seq<DocModel>)
    ensures
        merged(single(k, remote), single(append_tag() + k, extra)) == single(k, remote + extra),
{
    lemma_prefix_split(append_tag(), k);
    lemma_append_key_is_not_prepend(k);
    lemma_single_directive(single(k, remote), append_tag() + k, extra);
    let es = seq![(DocModel::Str(k), DocModel::Sequence(remote))];
    assert(key_index(es, k) == Some(0int));
    assert(es.update(0, (DocModel::Str(k), DocModel::Sequence(remote + extra))) =~= seq![
        (DocModel::Str(k), DocModel::Sequence(remote + extra)),
    ]);
}

/// A directive whose target is absent from the remote mapping creates the
/// target with the directive's items, for `prepend-` and `append-` alike.
pub proof fn law_absent_target_is_created(k: Seq<char>, extra: Seq<DocModel>)
    ensures
        merged(DocModel::Mapping(Seq::empty()), single(prepend_tag() + k, extra)) == single(k, extra),
        merged(DocModel::Mapping(Seq::empty()), single(append_tag() + k, extra)) == single(k, extra),
{
    lemma_prefix_split(prepend_tag(), k);
    lemma_prefix_split(append_tag(), k);
    lemma_append_key_is_not_prepend(k);
    let empty = Seq::<(DocModel, DocModel)>::empty();
    assert(key_index(empty, k) is None);
    lemma_single_directive(DocModel::Mapping(empty), prepend_tag() + k, extra);
    lemma_single_directive(DocModel::Mapping(empty), append_tag() + k, extra);
    assert(empty.push((DocModel::Str(k), DocModel::Sequence(extra))) =~= seq![
        (DocModel::Str(k), DocModel::Sequence(extra)),
    ]);
}

proof fn lemma_key_index_found(es: Seq<(DocModel, DocModel)>, k: Seq<char>, start: int)
    ensures
        match key_index_from(es, k, start) {
            Some(i) => start <= i < es.len() && es[i].0 == DocModel::Str(k),
            None => true,
        },
    decreases es.len() - start,
{
    if 0 <= start < es.len() && es[start].0 != DocModel::Str(k) {
        lemma_key_index_found(es, k, start + 1);
    }
}

proof fn lemma_key_index_absent(es: Seq<(DocModel, DocModel)>, k: Seq<char>, start: int)
    requires
        0 <= start,
        key_index_from(es, k, start) is None,
    ensures
        forall|i: int| start <= i < es.len() ==> es[i].0 != DocModel::Str(k),
    decreases es.len() - start,
{
    if start < es.len() {
        lemma_key_index_absent(es, k, start + 1);
    }
}

proof fn lemma_key_index_same_keys(
    a: Seq<(DocModel, DocModel)>,
    b: Seq<(DocModel, DocModel)>,
    k: Seq<char>,
    start: int,
)
    requires
        a.len() == b.len(),
        forall|i: int| 0 <= i < a.len() ==> a[i].0 == b[i].0,
    ensures
        key_index_from(a, k, start) == key_index_from(b, k, start),
    decreases a.len() - start,
{
    if 0 <= start < a.len() {
        lemma_key_index_same_keys(a, b, k, start + 1);
    }
}

proof fn lemma_key_index_push(
    es: Seq<(DocModel, DocModel)>,
    x: (DocModel, DocModel),
    k: Seq<char>,
    start: int,
)
    requires
        key_index_from(es, k, start) is Some,
    ensures
        key_index_from(es.push(x), k, start) == key_index_from(es, k, start),
    decreases es.len() - start,
{
    if 0 <= start < es.len() && es[start].0 != DocModel::Str(k) {
        lemma_key_index_push(es, x, k, start + 1);
    }
}

proof fn lemma_graft_keeps_other_value(
    doc: DocModel,
    target: Seq<char>,
    extra: DocModel,
    at_front: bool,
    k: Seq<char>,
)
    requires
        lookup(doc, k) matches Some(v) && !(v is Sequence),
    ensures
        lookup(graft(doc, target, extra, at_front), k) == lookup(doc, k),
{
    if let (DocModel::Mapping(es), DocModel::Sequence(items)) = (doc, extra) {
        let j = key_index(es, k)->0;
        lemma_key_index_found(es, k, 0);
        lemma_key_index_found(es, target, 0);
        match key_index(es, target) {
            Some(i) => {
                if es[i].1 is Sequence {
                    let current = es[i].1->Sequence_0;
                    let grown = es.update(
                        i,
                        (
                            es[i].0,
                            DocModel::Sequence(
                                if at_front {
                                    items + current
                                } else {
                                    current + items
                                },
                            ),
                        ),
                    );
                    lemma_key_index_same_keys(es, grown, k, 0);
                    assert(i != j);
                }
            },
            None => {
                lemma_key_index_push(es, (DocModel::Str(target), DocModel::Sequence(items)), k, 0);
            },
        }
    }
}

/// A key of the remote mapping whose value is not a sequence keeps its value,
/// whatever the local document holds.
pub proof fn law_non_sequence_value_is_kept(remote: DocModel, local: DocModel, k: Seq<char>)
    requires
        lookup(remote, k) matches Some(v) && !(v is Sequence),
    ensures
        lookup(merged(remote, local), k) == lookup(remote, k),
{
    if let DocModel::Mapping(es) = local {
        lemma_directives_keep_non_sequence(remote, es, k);
    }
}

proof fn lemma_directives_keep_non_sequence(
    remote: DocModel,
    es: Seq<(DocModel, DocModel)>,
    k: Seq<char>,
)
    requires
        lookup(remote, k) matches Some(v) && !(v is Sequence),
    ensures
        lookup(apply_directives(remote, es), k) == lookup(remote, k),
    decreases es.len(),
{
    if es.len() > 0 {
        lemma_directives_keep_non_sequence(remote, es.drop_last(), k);
        let before = apply_directives(remote, es.drop_last());
        let e = es.last();
        if let Some(key) = key_text(e.0) {
            if has_prefix(key, prepend_tag()) {
                lemma_graft_keeps_other_value(before, key.subrange(8, key.len() as int), e.1, true, k);
            } else if has_prefix(key, append_tag()) {
                lemma_graft_keeps_other_value(before, key.subrange(7, key.len() as int), e.1, false, k);
            }
        }
    }
}

proof fn lemma_directives_concat(
    doc: DocModel,
    a: Seq<(DocModel, DocModel)>,
    b: Seq<(DocModel, DocModel)>,
)
    ensures
        apply_directives(doc, a + b) == apply_directives(apply_directives(doc, a), b),
    decreases b.len(),
{
    if b.len() == 0 {
        assert(a + b =~= a);
    } else {
        assert((a + b).drop_last() =~= a + b.drop_last());
        lemma_directives_concat(doc, a, b.drop_last());
    }
}

/// An entry of the local document whose key is not a directive changes nothing
/// in the merged result, wherever it stands among the local entries.
pub proof fn law_plain_local_key_is_ignored(
    remote: DocModel,
    entries: Seq<(DocModel, DocModel)>,
    at: int,
    entry: (DocModel, DocModel),
)
    requires
        0 <= at <= entries.len(),
        !is_directive(entry.0),
    ensures
        merged(remote, DocModel::Mapping(entries.insert(at, entry))) == merged(
            remote,
            DocModel::Mapping(entries),
        ),
{
    let front = entries.subrange(0, at);
    let back = entries.subrange(at, entries.len() as int);
    assert(entries.insert(at, entry) =~= front + seq![entry] + back);
    assert(entries =~= front + back);
    lemma_directives_concat(remote, front + seq![entry], back);
    lemma_directives_concat(remote, front, seq![entry]);
    lemma_directives_concat(remote, front, back);
    let mid = apply_directives(remote, front);
    assert(seq![entry].drop_last() =~= Seq::<(DocModel, DocModel)>::empty());
    assert(apply_directives(mid, seq![entry].drop_last()) == mid);
    assert(seq![entry].last() == entry);
    assert(apply_directive(mid, entry) == mid);
    assert(apply_directives(mid, seq![entry]) == mid);
    assert(apply_directives(remote, front + seq![entry]) == mid);
}

/// A local document without directives leaves the remote document as it is.
pub proof fn law_no_directives_no_change(remote: DocModel, entries: Seq<(DocModel, DocModel)>)
    requires
        forall|i: int| 0 <= i < entries.len() ==> !is_directive(#[trigger] entries[i].0),
    ensures
        merged(remote, DocModel::Mapping(entries)) == remote,
    decreases entries.len(),
{
    if entries.len() > 0 {
        law_no_directives_no_change(remote, entries.drop_last());
        assert(!is_directive(entries[entries.len() - 1].0));
    }
}

proof fn lemma_graft_keeps_keys_unique(
    doc: DocModel,
    target: Seq<char>,
    extra: DocModel,
    at_front: bool,
)
    requires
        keys_unique(doc),
    ensures
        keys_unique(graft(doc, target, extra, at_front)),
{
    if let (DocModel::Mapping(es), DocModel::Sequence(items)) = (doc, extra) {
        match key_index(es, target) {
            Some(i) => {
                lemma_key_index_found(es, target, 0);
            },
            None => {
                lemma_key_index_absent(es, target, 0);
                let grown = es.push((DocModel::Str(target), DocModel::Sequence(items)));
                assert forall|a: int, b: int| 0 <= a < b < grown.len() implies grown[a].0
                    != grown[b].0 by {
                    if b == es.len() {
                        assert(es[a].0 != DocModel::Str(target));
                    }
                }
            },
        }
    }
}

proof fn lemma_directives_keep_keys_unique(remote: DocModel, es: Seq<(DocModel, DocModel)>)
    requires
        keys_unique(remote),
    ensures
        keys_unique(apply_directives(remote, es)),
    decreases es.len(),
{
    if es.len() > 0 {
        lemma_directives_keep_keys_unique(remote, es.drop_last());
        let before = apply_directives(remote, es.drop_last());
        let e = es.last();
        if let Some(key) = key_text(e.0) {
            if has_prefix(key, prepend_tag()) {
                lemma_graft_keeps_keys_unique(before, key.subrange(8, key.len() as int), e.1, true);
            } else if has_prefix(key, append_tag()) {
                lemma_graft_keeps_keys_unique(before, key.subrange(7, key.len() as int), e.1, false);
            }
        }
    }
}

/// Merging keeps the keys of the remote mapping pairwise distinct.
pub proof fn law_merge_keeps_keys_unique(remote: DocModel, local: DocModel)
    requires
        keys_unique(remote),
    ensures
        keys_unique(merged(remote, local)),
{
    if let DocModel::Mapping(es) = local {
        lemma_directives_keep_keys_unique(remote, es);
    }
}

proof fn lemma_key_index_push_new(
    es: Seq<(DocModel, DocModel)>,
    x: (DocModel, DocModel),
    k: Seq<char>,
    start: int,
)
    requires
        0 <= start <= es.len(),
        key_index_from(es, k, start) is None,
        x.0 == DocModel::Str(k),
    ensures
        key_index_from(es.push(x), k, start) == Some(es.len() as int),
    decreases es.len() - start,
{
    if start < es.len() {
        lemma_key_index_push_new(es, x, k, start + 1);
    }
}

proof fn lemma_graft_ends_commute(
    doc: DocModel,
    target: Seq<char>,
    front: DocModel,
    back: DocModel,
)
    ensures
        graft(graft(doc, target, front, true), target, back, false) == graft(
            graft(doc, target, back, false),
            target,
            front,
            true,
        ),
{
    if let (DocModel::Mapping(es), DocModel::Sequence(p), DocModel::Sequence(a)) = (
        doc,
        front,
        back,
    ) {
        match key_index(es, target) {
            Some(i) => {
                lemma_key_index_found(es, target, 0);
                if let DocModel::Sequence(c) = es[i].1 {
                    let left = es.update(i, (es[i].0, DocModel::Sequence(p + c)));
                    let right = es.update(i, (es[i].0, DocModel::Sequence(c + a)));
                    lemma_key_index_same_keys(es, left, target, 0);
                    lemma_key_index_same_keys(es, right, target, 0);
                    assert((p + c) + a =~= p + (c + a));
                    assert(left.update(i, (es[i].0, DocModel::Sequence((p + c) + a)))
                        =~= right.update(i, (es[i].0, DocModel::Sequence(p + (c + a)))));
                }
            },
            None => {
                let left = es.push((DocModel::Str(target), DocModel::Sequence(p)));
                let right = es.push((DocModel::Str(target), DocModel::Sequence(a)));
                lemma_key_index_push_new(es, (DocModel::Str(target), DocModel::Sequence(p)), target, 0);
                lemma_key_index_push_new(es, (DocModel::Str(target), DocModel::Sequence(a)), target, 0);
                let n = es.len() as int;
                assert(left.update(n, (DocModel::Str(target), DocModel::Sequence(p + a)))
                    =~= right.update(n, (DocModel::Str(target), DocModel::Sequence(p + a))));
            },
        }
    }
}

/// A `prepend-k` and an `append-k` directive give the same merge in either
/// order of the local entries.
pub proof fn law_prepend_and_append_commute(
    remote: DocModel,
    k: Seq<char>,
    front: Seq<DocModel>,
    back: Seq<DocModel>,
)
    ensures
        merged(
            remote,
            DocModel::Mapping(
                seq![
                    (DocModel::Str(prepend_tag() + k), DocModel::Sequence(front)),
                    (DocModel::Str(append_tag() + k), DocModel::Sequence(back)),
                ],
            ),
        ) == merged(
            remote,
            DocModel::Mapping(
                seq![
                    (DocModel::Str(append_tag() + k), DocModel::Sequence(back)),
                    (DocModel::Str(prepend_tag() + k), DocModel::Sequence(front)),
                ],
            ),
        ),
{
    lemma_prefix_split(prepend_tag(), k);
    lemma_prefix_split(append_tag(), k);
    lemma_append_key_is_not_prepend(k);
    let pre = (DocModel::Str(prepend_tag() + k), DocModel::Sequence(front));
    let app = (DocModel::Str(append_tag() + k), DocModel::Sequence(back));
    let empty = Seq::<(DocModel, DocModel)>::empty();
    assert(seq![pre, app].drop_last() =~= seq![pre]);
    assert(seq![app, pre].drop_last() =~= seq![app]);
    assert(seq![pre].drop_last() =~= empty);
    assert(seq![app].drop_last() =~= empty);
    assert(apply_directive(remote, pre) == graft(remote, k, DocModel::Sequence(front), true));
    assert(apply_directive(remote, app) == graft(remote, k, DocModel::Sequence(back), false));
    lemma_graft_ends_commute(remote, k, DocModel::Sequence(front), DocModel::Sequence(back));
    let after_pre = graft(remote, k, DocModel::Sequence(front), true);
    let after_app = graft(remote, k, DocModel::Sequence(back), false);
    assert(apply_directives(remote, empty) == remote);
    assert(seq![pre].last() == pre);
    assert(seq![app].last() == app);
    assert(seq![pre, app].last() == app);
    assert(seq![app, pre].last() == pre);
    assert(apply_directives(remote, seq![pre]) == after_pre);
    assert(apply_directives(remote, seq![app]) == after_app);
    assert(apply_directive(after_pre, app) == graft(after_pre, k, DocModel::Sequence(back), false));
    assert(apply_directive(after_app, pre) == graft(after_app, k, DocModel::Sequence(front), true));
    assert(apply_directives(remote, seq![pre, app]) == apply_directive(after_pre, app));
    assert(apply_directives(remote, seq![app, pre]) == apply_directive(after_app, pre));
}

} // verus!
