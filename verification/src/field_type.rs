//! Field types: what a schema says of one field, and the descriptor
//! documents that such a type is read from and written to.

use vstd::prelude::*;
use crate::document::{
    entries_view, items_view, lemma_dict_view, lemma_list_view, DocView, Document,
};
use crate::table::{has_name, lemma_position, value_of, Table};
use crate::text::same_text;

verus! {

broadcast use Table::lemma_value_decreases;

/// The type of one field of a model.
#[derive(Debug, PartialEq, Eq)]
#[allow(inconsistent_fields)]
pub enum FieldType {
    /// A keyed object whose values all have one type.
    Dict { value: Box<FieldType> },
    /// A sequence whose items all have one type.
    List { items: Box<FieldType> },
    /// A sequence of fixed length, with a type for each place.
    Tuple { items: Vec<FieldType> },
    Str,
    Int,
    Float,
    Bool,
    Null,
}

/// What a `FieldType` holds.
#[allow(inconsistent_fields)]
pub enum FieldShape {
    Dict { value: Box<FieldShape> },
    List { items: Box<FieldShape> },
    Tuple { items: Seq<FieldShape> },
    Str,
    Int,
    Float,
    Bool,
    Null,
}

/// Why a descriptor document could not be read.
#[derive(Debug, PartialEq, Eq)]
pub enum SchemaError {
    /// The schema document has no `properties`.
    MissingProperties,
    /// A value that has to be a mapping is none.
    NotAMapping,
    /// A `type` or `title` that is no text.
    NotText,
    /// A model's schema document has no `title`.
    MissingTitle,
}

/// The shape of `t`, level by level.
pub open spec fn shape_of(t: FieldType) -> FieldShape
    decreases t,
{
    match t {
        FieldType::Dict { value } => FieldShape::Dict { value: Box::new(shape_of(*value)) },
        FieldType::List { items } => FieldShape::List { items: Box::new(shape_of(*items)) },
        FieldType::Tuple { items } => FieldShape::Tuple {
            items: Seq::new(
                items.len() as nat,
                |i: int|
                    if 0 <= i < items.len() {
                        shape_of(items[i])
                    } else {
                        FieldShape::Str
                    },
            ),
        },
        FieldType::Str => FieldShape::Str,
        FieldType::Int => FieldShape::Int,
        FieldType::Float => FieldShape::Float,
        FieldType::Bool => FieldShape::Bool,
        FieldType::Null => FieldShape::Null,
    }
}

impl View for FieldType {
    type V = FieldShape;

    open spec fn view(&self) -> FieldShape {
        shape_of(*self)
    }
}

/// The shapes of a run of field types, in order.
pub open spec fn shapes_of(items: Seq<FieldType>) -> Seq<FieldShape> {
    Seq::new(items.len(), |i: int| items[i]@)
}

/// A tuple is viewed place by place.
pub proof fn lemma_tuple_view(items: Vec<FieldType>)
    ensures
        (FieldType::Tuple { items })@ == (FieldShape::Tuple { items: shapes_of(items@) }),
{
    assert((FieldType::Tuple { items })@->Tuple_items =~= shapes_of(items@));
}

/// The descriptor with only a `type` tag.
pub open spec fn tagged(tag: Seq<char>) -> DocView {
    DocView::Dict(seq![("type"@, DocView::Text(tag))])
}

/// The descriptor with a `type` tag and one more entry.
pub open spec fn tagged_with(tag: Seq<char>, name: Seq<char>, value: DocView) -> DocView {
    DocView::Dict(seq![("type"@, DocView::Text(tag)), (name, value)])
}

/// The descriptor document that stands for `t`. A tuple is written as an
/// array whose `items` is the list of its places' descriptors.
pub open spec fn spec_render(t: FieldShape) -> DocView
    decreases t,
{
    match t {
        FieldShape::Str => tagged("string"@),
        FieldShape::Int => tagged("integer"@),
        FieldShape::Float => tagged("number"@),
        FieldShape::Bool => tagged("boolean"@),
        FieldShape::Null => tagged("null"@),
        FieldShape::List { items } => tagged_with("array"@, "items"@, spec_render(*items)),
        FieldShape::Tuple { items } => tagged_with(
            "array"@,
            "items"@,
            DocView::List(
                Seq::new(
                    items.len(),
                    |i: int|
                        if 0 <= i < items.len() {
                            spec_render(items[i])
                        } else {
                            DocView::Other
                        },
                ),
            ),
        ),
        FieldShape::Dict { value } => tagged_with("object"@, "properties"@, spec_render(*value)),
    }
}

/// `tag` names a sequence type.
pub open spec fn is_list_tag(tag: Seq<char>) -> bool {
    tag == "list"@ || tag == "array"@
}

/// The type that a tag without further entries stands for. A tag that is
/// not known stands for `Str`.
pub open spec fn scalar_of(tag: Seq<char>) -> FieldShape {
    if tag == "null"@ {
        FieldShape::Null
    } else if tag == "bool"@ || tag == "boolean"@ {
        FieldShape::Bool
    } else if tag == "number"@ {
        FieldShape::Float
    } else if tag == "int"@ || tag == "integer"@ {
        FieldShape::Int
    } else {
        FieldShape::Str
    }
}

/// The field type that the descriptor `d` stands for.
///
/// A descriptor is a mapping. Without a `type` it stands for `Str`. An
/// `object` takes its value type from `properties`, a list its item type
/// from `items`, and both default to `Str`; an `items` that is itself a list
/// of descriptors makes a tuple.
pub open spec fn spec_parse(d: DocView) -> Result<FieldShape, SchemaError>
    decreases d,
{
    match d {
        DocView::Dict(entries) => {
            if !has_name(entries, "type"@) {
                Ok(FieldShape::Str)
            } else {
                match value_of(entries, "type"@) {
                    DocView::Text(tag) => {
                        if tag == "object"@ {
                            if !has_name(entries, "properties"@) {
                                Ok(FieldShape::Dict { value: Box::new(FieldShape::Str) })
                            } else {
                                proof {
                                    lemma_position(entries, "properties"@);
                                }
                                match spec_parse(value_of(entries, "properties"@)) {
                                    Ok(value) => Ok(FieldShape::Dict { value: Box::new(value) }),
                                    Err(e) => Err(e),
                                }
                            }
                        } else if is_list_tag(tag) {
                            if !has_name(entries, "items"@) {
                                Ok(FieldShape::List { items: Box::new(FieldShape::Str) })
                            } else {
                                proof {
                                    lemma_position(entries, "items"@);
                                }
                                match value_of(entries, "items"@) {
                                    DocView::List(ds) => match spec_parse_all(ds) {
                                        Ok(items) => Ok(FieldShape::Tuple { items }),
                                        Err(e) => Err(e),
                                    },
                                    other => match spec_parse(other) {
                                        Ok(items) => Ok(FieldShape::List { items: Box::new(items) }),
                                        Err(e) => Err(e),
                                    },
                                }
                            }
                        } else {
                            Ok(scalar_of(tag))
                        }
                    },
                    _ => Err(SchemaError::NotText),
                }
            }
        },
        _ => Err(SchemaError::NotAMapping),
    }
}

/// A descriptor without a `type` stands for `Str`, whatever else it holds.
pub proof fn lemma_untyped_is_str(entries: Seq<(Seq<char>, DocView)>)
    requires
        !has_name(entries, "type"@),
    ensures
        spec_parse(DocView::Dict(entries)) == Ok::<FieldShape, SchemaError>(FieldShape::Str),
{
}

/// The field types that a list of descriptors stands for, or what is wrong
/// with the first descriptor that stands for none.
pub open spec fn spec_parse_all(ds: Seq<DocView>) -> Result<Seq<FieldShape>, SchemaError>
    decreases ds,
{
    if ds.len() == 0 {
        Ok(Seq::empty())
    } else {
        match spec_parse_all(ds.drop_last()) {
            Err(e) => Err(e),
            Ok(front) => match spec_parse(ds.last()) {
                Err(e) => Err(e),
                Ok(t) => Ok(front.push(t)),
            },
        }
    }
}

/// The descriptors of a run of field types, in order.
pub open spec fn spec_render_all(items: Seq<FieldShape>) -> Seq<DocView> {
    Seq::new(items.len(), |i: int| spec_render(items[i]))
}

/// What the tags and entry names hold, as far as telling them apart takes.
proof fn lemma_tags_differ()
    ensures
        "type"@ != "items"@,
        "type"@ != "properties"@,
        "string"@ != "object"@,
        "integer"@ != "object"@,
        "number"@ != "object"@,
        "boolean"@ != "object"@,
        "null"@ != "object"@,
        "array"@ != "object"@,
        !is_list_tag("string"@),
        !is_list_tag("integer"@),
        !is_list_tag("number"@),
        !is_list_tag("boolean"@),
        !is_list_tag("null"@),
        !is_list_tag("object"@),
        scalar_of("string"@) == FieldShape::Str,
        scalar_of("integer"@) == FieldShape::Int,
        scalar_of("number"@) == FieldShape::Float,
        scalar_of("boolean"@) == FieldShape::Bool,
        scalar_of("null"@) == FieldShape::Null,
{
    reveal_strlit("type");
    reveal_strlit("items");
    reveal_strlit("properties");
    reveal_strlit("string");
    reveal_strlit("str");
    reveal_strlit("integer");
    reveal_strlit("int");
    reveal_strlit("number");
    reveal_strlit("boolean");
    reveal_strlit("bool");
    reveal_strlit("null");
    reveal_strlit("object");
    reveal_strlit("array");
    reveal_strlit("list");
    assert("type"@.len() == 4 && "type"@[0] == 't');
    assert("items"@.len() == 5 && "items"@[0] == 'i');
    assert("properties"@.len() == 10);
    assert("string"@.len() == 6 && "string"@[0] == 's');
    assert("str"@.len() == 3 && "str"@[0] == 's');
    assert("integer"@.len() == 7 && "integer"@[0] == 'i');
    assert("int"@.len() == 3 && "int"@[0] == 'i');
    assert("number"@.len() == 6 && "number"@[0] == 'n');
    assert("boolean"@.len() == 7 && "boolean"@[0] == 'b');
    assert("bool"@.len() == 4 && "bool"@[0] == 'b');
    assert("null"@.len() == 4 && "null"@[0] == 'n');
    assert("object"@.len() == 6 && "object"@[0] == 'o');
    assert("array"@.len() == 5 && "array"@[0] == 'a');
    assert("list"@.len() == 4 && "list"@[0] == 'l');
}

/// In a descriptor with a tag and one more entry, each name leads to its value.
proof fn lemma_tagged_with(tag: Seq<char>, name: Seq<char>, value: DocView)
    requires
        name != "type"@,
    ensures
        tagged_with(tag, name, value) matches DocView::Dict(entries) && {
            &&& has_name(entries, "type"@)
            &&& value_of(entries, "type"@) == DocView::Text(tag)
            &&& has_name(entries, name)
            &&& value_of(entries, name) == value
        },
{
    let entries = tagged_with(tag, name, value)->Dict_0;
    assert(entries[0].0 == "type"@);
    assert(entries[1].0 == name);
    lemma_position(entries, "type"@);
    lemma_position(entries, name);
}

/// Reading the descriptor that was written for a field type gives that
/// type back, tuples included.
pub proof fn lemma_parse_render(t: FieldShape)
    ensures
        spec_parse(spec_render(t)) == Ok::<FieldShape, SchemaError>(t),
    decreases t,
{
    lemma_tags_differ();
    match t {
        FieldShape::List { items } => {
            lemma_tagged_with("array"@, "items"@, spec_render(*items));
            lemma_parse_render(*items);
        },
        FieldShape::Tuple { items } => {
            let ds = spec_render_all(items);
            assert(spec_render(t) == tagged_with("array"@, "items"@, DocView::List(ds))) by {
                assert(spec_render(t)->Dict_0[1].1->List_0 =~= ds);
            }
            lemma_tagged_with("array"@, "items"@, DocView::List(ds));
            lemma_parse_render_all(items);
        },
        FieldShape::Dict { value } => {
            lemma_tagged_with("object"@, "properties"@, spec_render(*value));
            lemma_parse_render(*value);
        },
        _ => {
            let entries = spec_render(t)->Dict_0;
            assert(entries[0].0 == "type"@);
            lemma_position(entries, "type"@);
        },
    }
}

/// Reading the descriptors that were written for a run of field types
/// gives the run back.
pub proof fn lemma_parse_render_all(items: Seq<FieldShape>)
    ensures
        spec_parse_all(spec_render_all(items)) == Ok::<Seq<FieldShape>, SchemaError>(items),
    decreases items,
{
    let ds = spec_render_all(items);
    if items.len() > 0 {
        assert(ds.drop_last() =~= spec_render_all(items.drop_last()));
        lemma_parse_render_all(items.drop_last());
        lemma_parse_render(items.last());
        assert(items.drop_last().push(items.last()) =~= items);
    } else {
        assert(spec_parse_all(ds)->Ok_0 =~= items);
    }
}

/// An error among the first descriptors of a list is the error of the whole list.
pub proof fn lemma_parse_all_stops(ds: Seq<DocView>, k: int)
    requires
        0 <= k <= ds.len(),
        spec_parse_all(ds.take(k)) is Err,
    ensures
        spec_parse_all(ds) == spec_parse_all(ds.take(k)),
    decreases ds.len() - k,
{
    if k < ds.len() {
        assert(ds.take(k + 1).drop_last() =~= ds.take(k));
        lemma_parse_all_stops(ds, k + 1);
    } else {
        assert(ds.take(k) =~= ds);
    }
}

/// The descriptor that holds only the tag `tag`.
fn tagged_doc(tag: &str) -> (r: Document)
    ensures
        r@ == tagged(tag@),
{
    let mut dict: Table<Document> = Table::new();
    dict.insert(String::from_str("type"), Document::text(tag));
    proof {
        lemma_dict_view(dict, "type"@);
        assert(entries_view(dict@) =~= seq![("type"@, DocView::Text(tag@))]);
    }
    Document::Dict(dict)
}

/// The descriptor that holds the tag `tag` and `value` under `name`.
fn tagged_doc_with(tag: &str, name: &str, value: Document) -> (r: Document)
    requires
        name@ != "type"@,
    ensures
        r@ == tagged_with(tag@, name@, value@),
{
    let mut dict: Table<Document> = Table::new();
    dict.insert(String::from_str("type"), Document::text(tag));
    dict.insert(String::from_str(name), value);
    proof {
        lemma_dict_view(dict, "type"@);
        assert(entries_view(dict@) =~= seq![("type"@, DocView::Text(tag@)), (name@, value@)]);
    }
    Document::Dict(dict)
}

/// A copy of each field type of a run.
fn clone_all(items: &Vec<FieldType>) -> (r: Vec<FieldType>)
    ensures
        shapes_of(r@) == shapes_of(items@),
    decreases items,
{
    let mut out: Vec<FieldType> = Vec::new();
    let mut i: usize = 0;
    while i < items.len()
        invariant
            i <= items.len(),
            out@.len() == i,
            forall|k: int| 0 <= k < i ==> (#[trigger] out@[k])@ == items@[k]@,
        decreases items.len() - i,
    {
        out.push(items[i].clone());
        i += 1;
    }
    proof {
        assert(shapes_of(out@) =~= shapes_of(items@));
    }
    out
}

/// The descriptor of each field type of a run.
fn to_dict_all(items: &Vec<FieldType>) -> (r: Vec<Document>)
    ensures
        items_view(r@) == spec_render_all(shapes_of(items@)),
    decreases items,
{
    let mut list: Vec<Document> = Vec::new();
    let mut i: usize = 0;
    while i < items.len()
        invariant
            i <= items.len(),
            list@.len() == i,
            forall|k: int| 0 <= k < i ==> (#[trigger] list@[k])@ == spec_render(items@[k]@),
        decreases items.len() - i,
    {
        list.push(items[i].to_dict());
        i += 1;
    }
    proof {
        assert(items_view(list@) =~= spec_render_all(shapes_of(items@)));
    }
    list
}

impl Clone for FieldType {
    fn clone(&self) -> (r: Self)
        ensures
            r@ == self@,
        decreases self,
    {
        match self {
            FieldType::Dict { value } => FieldType::Dict { value: Box::new((**value).clone()) },
            FieldType::List { items } => FieldType::List { items: Box::new((**items).clone()) },
            FieldType::Tuple { items } => {
                let out = clone_all(items);
                proof {
                    lemma_tuple_view(out);
                    lemma_tuple_view(*items);
                }
                FieldType::Tuple { items: out }
            },
            FieldType::Str => FieldType::Str,
            FieldType::Int => FieldType::Int,
            FieldType::Float => FieldType::Float,
            FieldType::Bool => FieldType::Bool,
            FieldType::Null => FieldType::Null,
        }
    }
}

impl FieldType {
    /// Reads a field type out of its descriptor.
    pub fn extract_from_py_schema(prop: &Document) -> (r: Result<FieldType, SchemaError>)
        ensures
            r matches Ok(t) ==> spec_parse(prop@) == Ok::<FieldShape, SchemaError>(t@),
            r matches Err(e) ==> spec_parse(prop@) == Err::<FieldShape, SchemaError>(e),
        decreases prop,
    {
        let entries = match prop {
            Document::Dict(entries) => entries,
            _ => {
                return Err(SchemaError::NotAMapping);
            },
        };
        proof {
            lemma_dict_view(*entries, "type"@);
            lemma_dict_view(*entries, "items"@);
            lemma_dict_view(*entries, "properties"@);
            lemma_position(entries@, "items"@);
            lemma_position(entries@, "properties"@);
        }
        proof {
            assert(FieldType::Str@ == FieldShape::Str);
        }
        let tag = match entries.get("type") {
            None => {
                return Ok(FieldType::Str);
            },
            Some(Document::Text(tag)) => tag.as_str(),
            Some(_) => {
                return Err(SchemaError::NotText);
            },
        };
        if same_text(tag, "object") {
            match entries.get("properties") {
                None => Ok(FieldType::Dict { value: Box::new(FieldType::Str) }),
                Some(inner) => {
                    match Self::extract_from_py_schema(inner) {
                        Ok(value) => Ok(FieldType::Dict { value: Box::new(value) }),
                        Err(e) => Err(e),
                    }
                },
            }
        } else if same_text(tag, "list") || same_text(tag, "array") {
            match entries.get("items") {
                None => Ok(FieldType::List { items: Box::new(FieldType::Str) }),
                Some(Document::List(list)) => {
                    proof {
                        lemma_list_view(*list);
                    }
                    match Self::extract_all(list) {
                        Ok(items) => {
                            proof {
                                lemma_tuple_view(items);
                            }
                            Ok(FieldType::Tuple { items })
                        },
                        Err(e) => Err(e),
                    }
                },
                Some(other) => {
                    match Self::extract_from_py_schema(other) {
                        Ok(items) => Ok(FieldType::List { items: Box::new(items) }),
                        Err(e) => Err(e),
                    }
                },
            }
        } else if same_text(tag, "null") {
            Ok(FieldType::Null)
        } else if same_text(tag, "bool") || same_text(tag, "boolean") {
            Ok(FieldType::Bool)
        } else if same_text(tag, "number") {
            Ok(FieldType::Float)
        } else if same_text(tag, "int") || same_text(tag, "integer") {
            Ok(FieldType::Int)
        } else {
            Ok(FieldType::Str)
        }
    }

    /// Reads a field type out of each descriptor of a list, and stops at
    /// the first that holds none.
    pub fn extract_all(list: &Vec<Document>) -> (r: Result<Vec<FieldType>, SchemaError>)
        ensures
            r matches Ok(items) ==> spec_parse_all(items_view(list@)) == Ok::<
                Seq<FieldShape>,
                SchemaError,
            >(shapes_of(items@)),
            r matches Err(e) ==> spec_parse_all(items_view(list@)) == Err::<
                Seq<FieldShape>,
                SchemaError,
            >(e),
        decreases list,
    {
        let ghost ds = items_view(list@);
        let mut out: Vec<FieldType> = Vec::new();
        let mut i: usize = 0;
        assert(spec_parse_all(ds.take(0))->Ok_0 =~= shapes_of(out@));
        while i < list.len()
            invariant
                i <= list.len(),
                ds == items_view(list@),
                spec_parse_all(ds.take(i as int)) == Ok::<Seq<FieldShape>, SchemaError>(
                    shapes_of(out@),
                ),
            decreases list.len() - i,
        {
            proof {
                assert(ds.take(i + 1).drop_last() =~= ds.take(i as int));
                assert(ds.take(i + 1).last() == list@[i as int]@);
            }
            match Self::extract_from_py_schema(&list[i]) {
                Ok(t) => {
                    proof {
                        assert(shapes_of(out@).push(t@) =~= shapes_of(out@.push(t)));
                    }
                    out.push(t);
                },
                Err(e) => {
                    proof {
                        lemma_parse_all_stops(ds, i + 1);
                    }
                    return Err(e);
                },
            }
            i += 1;
        }
        proof {
            assert(ds.take(i as int) =~= ds);
        }
        Ok(out)
    }

    /// Writes the descriptor of this field type.
    pub fn to_dict(&self) -> (r: Document)
        ensures
            r@ == spec_render(self@),
        decreases self,
    {
        proof {
            lemma_tags_differ();
        }
        match self {
            FieldType::Str => tagged_doc("string"),
            FieldType::Int => tagged_doc("integer"),
            FieldType::Float => tagged_doc("number"),
            FieldType::Bool => tagged_doc("boolean"),
            FieldType::Null => tagged_doc("null"),
            FieldType::List { items } => tagged_doc_with("array", "items", items.to_dict()),
            FieldType::Dict { value } => tagged_doc_with("object", "properties", value.to_dict()),
            FieldType::Tuple { items } => {
                let list = to_dict_all(items);
                proof {
                    lemma_list_view(list);
                    lemma_tuple_view(*items);
                    assert(items_view(list@) =~= spec_render(self@)->Dict_0[1].1->List_0);
                }
                tagged_doc_with("array", "items", Document::List(list))
            },
        }
    }
}

} // verus!
