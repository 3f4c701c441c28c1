use vstd::prelude::*;

verus! {

/// A parsed configuration document: a dynamically typed tree of mappings,
/// sequences and scalars.
#[derive(Debug, PartialEq, Eq)]
pub enum Document {
    Null,
    Bool(bool),
    /// A number, kept as its literal text.
    Number(String),
    Str(String),
    Sequence(Vec<Document>),
    /// Key/value entries in document order.
    Mapping(Vec<Entry>),
    /// A value carrying an explicit tag (`!tag value`).
    Tagged(String, Box<Document>),
}

/// One key/value pair of a mapping.
#[derive(Debug, PartialEq, Eq)]
pub struct Entry {
    pub key: Document,
    pub value: Document,
}

/// The mathematical value of a [`Document`].
pub ghost enum DocModel {
    Null,
    Bool(bool),
    Number(Seq<char>),
    Str(Seq<char>),
    Sequence(Seq<DocModel>),
    Mapping(Seq<(DocModel, DocModel)>),
    Tagged(Seq<char>, Box<DocModel>),
}

impl View for Document {
    type V = DocModel;

    open spec fn view(&self) -> DocModel {
        doc_model(*self)
    }
}

/// The model of a document, built bottom-up.
pub open spec fn doc_model(d: Document) -> DocModel
    decreases d,
{
    match d {
        Document::Null => DocModel::Null,
        Document::Bool(b) => DocModel::Bool(b),
        Document::Number(n) => DocModel::Number(n@),
        Document::Str(s) => DocModel::Str(s@),
        Document::Sequence(items) => DocModel::Sequence(views(items@)),
        Document::Mapping(entries) => DocModel::Mapping(entry_views(entries@)),
        Document::Tagged(tag, inner) => DocModel::Tagged(tag@, Box::new(doc_model(*inner))),
    }
}

/// The models of a run of documents, element by element.
pub open spec fn views(items: Seq<Document>) -> Seq<DocModel>
    decreases items,
{
    if items.len() == 0 {
        Seq::empty()
    } else {
        views(items.drop_last()).push(doc_model(items.last()))
    }
}

/// The models of a run of mapping entries, entry by entry.
pub open spec fn entry_views(entries: Seq<Entry>) -> Seq<(DocModel, DocModel)>
    decreases entries,
{
    if entries.len() == 0 {
        Seq::empty()
    } else {
        entry_views(entries.drop_last()).push(
            (doc_model(entries.last().key), doc_model(entries.last().value)),
        )
    }
}

/// The model of a run of entries has one pair per entry, the models of its
/// key and value.
pub proof fn lemma_entry_views(entries: Seq<Entry>)
    ensures
        entry_views(entries).len() == entries.len(),
        forall|i: int|
            0 <= i < entries.len() ==> #[trigger] entry_views(entries)[i] == (
                entries[i].key@,
                entries[i].value@,
            ),
    decreases entries.len(),
{
    if entries.len() > 0 {
        lemma_entry_views(entries.drop_last());
    }
}

/// Appends a copy of every item of `src` to `out`.
pub fn push_copies(out: &mut Vec<Document>, src: &Vec<Document>)
    ensures
        views(final(out)@) == views(old(out)@) + views(src@),
    decreases src, 0nat,
{
    let ghost start = views(out@);
    let mut i: usize = 0;
    while i < src.len()
        invariant
            i <= src@.len(),
            views(out@) == start + views(src@.subrange(0, i as int)),
        decreases src@.len() - i,
    {
        assert(decreases_to!(src => src@[i as int]));
        let item = src[i].deep_copy();
        let ghost prev = out@;
        out.push(item);
        i += 1;
        proof {
            assert(out@.drop_last() =~= prev);
            assert(src@.subrange(0, i as int).drop_last() =~= src@.subrange(0, i - 1));
            assert(views(out@) =~= start + views(src@.subrange(0, i as int)));
        }
    }
    assert(src@.subrange(0, i as int) =~= src@);
}

/// Appends a copy of every entry of `src` to `out`.
pub fn push_entry_copies(out: &mut Vec<Entry>, src: &Vec<Entry>)
    ensures
        entry_views(final(out)@) == entry_views(old(out)@) + entry_views(src@),
    decreases src, 0nat,
{
    let ghost start = entry_views(out@);
    let mut i: usize = 0;
    while i < src.len()
        invariant
            i <= src@.len(),
            entry_views(out@) == start + entry_views(src@.subrange(0, i as int)),
        decreases src@.len() - i,
    {
        proof {
            assert(decreases_to!(src => src@));
            assert(decreases_to!(src@ => src@[i as int]));
            assert(decreases_to!(src@[i as int] => src@[i as int].key));
            assert(decreases_to!(src@[i as int] => src@[i as int].value));
        }
        let key = src[i].key.deep_copy();
        let value = src[i].value.deep_copy();
        let ghost prev = out@;
        out.push(Entry { key, value });
        i += 1;
        proof {
            assert(out@.drop_last() =~= prev);
            assert(src@.subrange(0, i as int).drop_last() =~= src@.subrange(0, i - 1));
            assert(entry_views(out@) =~= start + entry_views(src@.subrange(0, i as int)));
        }
    }
    assert(src@.subrange(0, i as int) =~= src@);
}

impl Document {
    /// The empty mapping `{}`.
    pub fn empty_mapping() -> (r: Document)
        ensures
            r@ == DocModel::Mapping(Seq::empty()),
    {
        let entries: Vec<Entry> = Vec::new();
        let r = Document::Mapping(entries);
        proof {
            assert(r@ == DocModel::Mapping(entry_views(entries@)));
            assert(entry_views(entries@) =~= Seq::empty());
        }
        r
    }

    /// A copy of the whole tree.
    pub fn deep_copy(&self) -> (r: Document)
        ensures
            r@ == self@,
        decreases self, 1nat,
    {
        match self {
            Document::Null => Document::Null,
            Document::Bool(b) => Document::Bool(*b),
            Document::Number(n) => Document::Number(n.clone()),
            Document::Str(s) => Document::Str(s.clone()),
            Document::Sequence(items) => {
                let mut out: Vec<Document> = Vec::new();
                assert(decreases_to!(self => items));
                push_copies(&mut out, items);
                Document::Sequence(out)
            },
            Document::Mapping(entries) => {
                let mut out: Vec<Entry> = Vec::new();
                push_entry_copies(&mut out, entries);
                Document::Mapping(out)
            },
            Document::Tagged(tag, inner) => {
                let v = inner.deep_copy();
                Document::Tagged(tag.clone(), Box::new(v))
            },
        }
    }
}

} // verus!
