//! A tree of nested key-value documents, the shape in which the sidecar and
//! the manifest leave this crate.

use vstd::prelude::*;
use vstd::string::*;
use crate::text::{decimal, decimal_string, str_eq};

verus! {

/// A document: a scalar, a list of documents, or a record of named documents.
///
/// A record keeps its fields in the order in which they were added.
#[derive(Debug, PartialEq, Eq)]
pub enum Doc {
    Null,
    Bool(bool),
    /// A native unsigned integer.
    Uint(u64),
    /// A binary64 number, held as its bit pattern.
    Real(u64),
    Text(String),
    List(Vec<Doc>),
    Record(Vec<(String, Doc)>),
}

/// The mathematical value of a [`Doc`].
pub ghost enum DocView {
    Null,
    Bool(bool),
    Uint(u64),
    Real(u64),
    Text(Seq<char>),
    List(Seq<DocView>),
    Record(Seq<(Seq<char>, DocView)>),
}

/// The mathematical value of a document.
pub open spec fn doc_view(d: Doc) -> DocView
    decreases d,
{
    match d {
        Doc::Null => DocView::Null,
        Doc::Bool(b) => DocView::Bool(b),
        Doc::Uint(n) => DocView::Uint(n),
        Doc::Real(bits) => DocView::Real(bits),
        Doc::Text(s) => DocView::Text(s@),
        Doc::List(items) => DocView::List(
            Seq::new(
                items@.len(),
                |i: int|
                    if 0 <= i < items@.len() {
                        doc_view(items@[i])
                    } else {
                        DocView::Null
                    },
            ),
        ),
        Doc::Record(fields) => DocView::Record(
            Seq::new(
                fields@.len(),
                |i: int|
                    if 0 <= i < fields@.len() {
                        (fields@[i].0@, doc_view(fields@[i].1))
                    } else {
                        (Seq::empty(), DocView::Null)
                    },
            ),
        ),
    }
}

impl View for Doc {
    type V = DocView;

    open spec fn view(&self) -> DocView {
        doc_view(*self)
    }
}

/// The values of a sequence of documents, in order.
pub open spec fn items_view(items: Seq<Doc>) -> Seq<DocView> {
    Seq::new(items.len(), |i: int| items[i]@)
}

/// The names and values of a sequence of fields, in order.
pub open spec fn fields_view(fields: Seq<(String, Doc)>) -> Seq<(Seq<char>, DocView)> {
    Seq::new(fields.len(), |i: int| (fields[i].0@, fields[i].1@))
}

impl DocView {
    /// The value of the first field named `key`, if this is a record that has one.
    pub open spec fn field(self, key: Seq<char>) -> Option<DocView> {
        match self {
            DocView::Record(fields) => first_named(fields, key),
            _ => None,
        }
    }

    /// True when this is a record with a field named `key`.
    pub open spec fn has_field(self, key: Seq<char>) -> bool {
        self.field(key) is Some
    }
}

/// The value of the first of `fields` named `key`.
pub open spec fn first_named(fields: Seq<(Seq<char>, DocView)>, key: Seq<char>) -> Option<
    DocView,
>
    decreases fields.len(),
{
    if fields.len() == 0 {
        None
    } else if fields[0].0 == key {
        Some(fields[0].1)
    } else {
        first_named(fields.drop_first(), key)
    }
}

/// No field before position `n` is named `key`, so a search may start there.
pub proof fn lemma_first_named_skip(fields: Seq<(Seq<char>, DocView)>, key: Seq<char>, n: int)
    requires
        0 <= n <= fields.len(),
        forall|k: int| 0 <= k < n ==> (#[trigger] fields[k]).0 != key,
    ensures
        first_named(fields, key) == first_named(fields.subrange(n, fields.len() as int), key),
    decreases n,
{
    if n == 0 {
        assert(fields.subrange(0, fields.len() as int) =~= fields);
    } else {
        let rest = fields.drop_first();
        assert forall|k: int| 0 <= k < n - 1 implies (#[trigger] rest[k]).0 != key by {
            assert(rest[k] == fields[k + 1]);
        }
        lemma_first_named_skip(rest, key, n - 1);
        assert(rest.subrange(n - 1, rest.len() as int) =~= fields.subrange(
            n,
            fields.len() as int,
        ));
    }
}

impl Doc {
    /// A text leaf holding a copy of `s`.
    pub fn text(s: &str) -> (d: Doc)
        ensures
            d@ == DocView::Text(s@),
    {
        Doc::Text(String::from_str(s))
    }

    /// A text leaf holding the decimal digits of `v`.
    pub fn decimal(v: u64) -> (d: Doc)
        ensures
            d@ == DocView::Text(decimal(v as nat)),
    {
        Doc::Text(decimal_string(v))
    }

    /// A list of the given documents.
    pub fn list(items: Vec<Doc>) -> (d: Doc)
        ensures
            d@ == DocView::List(items_view(items@)),
    {
        let d = Doc::List(items);
        assert(d@->List_0 =~= items_view(items@));
        d
    }

    /// A record of the given fields.
    pub fn record(fields: Vec<(String, Doc)>) -> (d: Doc)
        ensures
            d@ == DocView::Record(fields_view(fields@)),
    {
        let d = Doc::Record(fields);
        assert(d@->Record_0 =~= fields_view(fields@));
        d
    }

    /// Looks up the first field named `key` in a record.
    pub fn get(&self, key: &str) -> (found: Option<&Doc>)
        ensures
            match found {
                Some(d) => self@.field(key@) == Some(d@),
                None => self@.field(key@) is None,
            },
    {
        match self {
            Doc::Record(fields) => {
                let ghost all = fields_view(fields@);
                assert(self@->Record_0 =~= all);
                let mut i: usize = 0;
                while i < fields.len()
                    invariant
                        i <= fields.len(),
                        all == fields_view(fields@),
                        self@ == DocView::Record(all),
                        forall|k: int| 0 <= k < i ==> (#[trigger] all[k]).0 != key@,
                    decreases fields.len() - i,
                {
                    if str_eq(fields[i].0.as_str(), key) {
                        proof {
                            lemma_first_named_skip(all, key@, i as int);
                            assert(all.subrange(i as int, all.len() as int)[0] == all[i as int]);
                        }
                        return Some(&fields[i].1);
                    }
                    i = i + 1;
                }
                proof {
                    lemma_first_named_skip(all, key@, i as int);
                }
                None
            },
            _ => None,
        }
    }
}

/// An empty list of fields, to be filled with [`put`].
pub fn new_fields() -> (fields: Vec<(String, Doc)>)
    ensures
        fields_view(fields@) == Seq::<(Seq<char>, DocView)>::empty(),
{
    let fields: Vec<(String, Doc)> = Vec::new();
    assert(fields_view(fields@) =~= Seq::<(Seq<char>, DocView)>::empty());
    fields
}

/// Adds the field `key: value` after the fields already there.
pub fn put(fields: &mut Vec<(String, Doc)>, key: &str, value: Doc)
    ensures
        fields_view(final(fields)@) == fields_view(old(fields)@).push((key@, value@)),
{
    fields.push((String::from_str(key), value));
    assert(fields_view(fields@) =~= fields_view(old(fields)@).push((key@, value@)));
}

/// An empty list of documents, to be filled with [`push_item`].
pub fn new_items() -> (items: Vec<Doc>)
    ensures
        items_view(items@) == Seq::<DocView>::empty(),
{
    let items: Vec<Doc> = Vec::new();
    assert(items_view(items@) =~= Seq::<DocView>::empty());
    items
}

/// Adds `item` after the documents already there.
pub fn push_item(items: &mut Vec<Doc>, item: Doc)
    ensures
        items_view(final(items)@) == items_view(old(items)@).push(item@),
{
    items.push(item);
    assert(items_view(items@) =~= items_view(old(items)@).push(item@));
}

} // verus!
