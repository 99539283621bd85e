//! Descriptor documents: the nested text, list and mapping values in which
//! schemas are exchanged.

use vstd::prelude::*;
use crate::table::{has_name, lemma_same_names, position, put, same_names, value_of, Table};

verus! {

broadcast use Table::lemma_value_decreases;

/// A value of a descriptor document.
#[derive(Debug, PartialEq, Eq)]
pub enum Document {
    /// A text value.
    Text(String),
    /// An ordered list of values.
    List(Vec<Document>),
    /// A mapping from names to values, in insertion order.
    Dict(Table<Document>),
    /// Any value that is neither text, a list nor a mapping.
    Other,
}

/// What a `Document` holds.
pub enum DocView {
    Text(Seq<char>),
    List(Seq<DocView>),
    Dict(Seq<(Seq<char>, DocView)>),
    Other,
}

/// What `d` holds, level by level.
pub open spec fn doc_view(d: Document) -> DocView
    decreases d,
{
    match d {
        Document::Text(s) => DocView::Text(s@),
        Document::List(items) => DocView::List(
            Seq::new(
                items.len() as nat,
                |i: int|
                    if 0 <= i < items.len() {
                        doc_view(items[i])
                    } else {
                        DocView::Other
                    },
            ),
        ),
        Document::Dict(entries) => DocView::Dict(
            Seq::new(
                entries@.len(),
                |i: int|
                    if 0 <= i < entries@.len() {
                        (entries@[i].0, doc_view(entries@[i].1))
                    } else {
                        (Seq::empty(), DocView::Other)
                    },
            ),
        ),
        Document::Other => DocView::Other,
    }
}

impl View for Document {
    type V = DocView;

    open spec fn view(&self) -> DocView {
        doc_view(*self)
    }
}

/// The views of a list's items, in order.
pub open spec fn items_view(items: Seq<Document>) -> Seq<DocView> {
    Seq::new(items.len(), |i: int| items[i]@)
}

/// The entries of a mapping, each value by its view.
pub open spec fn entries_view(entries: Seq<(Seq<char>, Document)>) -> Seq<(Seq<char>, DocView)> {
    Seq::new(entries.len(), |i: int| (entries[i].0, entries[i].1@))
}

/// A list is viewed item by item.
pub proof fn lemma_list_view(items: Vec<Document>)
    ensures
        Document::List(items)@ == DocView::List(items_view(items@)),
{
    assert(Document::List(items)@->List_0 =~= items_view(items@));
}

/// A mapping is viewed entry by entry, and a name leads to the same entry in both.
pub proof fn lemma_dict_view(entries: Table<Document>, name: Seq<char>)
    ensures
        Document::Dict(entries)@ == DocView::Dict(entries_view(entries@)),
        same_names(entries@, entries_view(entries@)),
        has_name(entries_view(entries@), name) == has_name(entries@, name),
        position(entries_view(entries@), name) == position(entries@, name),
        has_name(entries@, name) ==> value_of(entries_view(entries@), name) == value_of(
            entries@,
            name,
        )@,
{
    assert(Document::Dict(entries)@->Dict_0 =~= entries_view(entries@));
    lemma_same_names(entries@, entries_view(entries@), name);
    crate::table::lemma_position(entries@, name);
}

/// Putting a value into a mapping puts its view into the mapping's view.
pub proof fn lemma_entries_view_put(
    entries: Seq<(Seq<char>, Document)>,
    name: Seq<char>,
    value: Document,
)
    ensures
        entries_view(put(entries, name, value)) == put(entries_view(entries), name, value@),
{
    lemma_same_names(entries, entries_view(entries), name);
    crate::table::lemma_position(entries, name);
    assert(entries_view(put(entries, name, value)) =~= put(
        entries_view(entries),
        name,
        value@,
    ));
}

impl Document {
    /// A text value holding `s`.
    pub fn text(s: &str) -> (d: Document)
        ensures
            d@ == DocView::Text(s@),
    {
        Document::Text(String::from_str(s))
    }
}

} // verus!
