//! Schemas: the named fields of a model with their types, read from and
//! written to descriptor documents, and the descriptor of a model class.

use vstd::prelude::*;
use crate::document::{
    entries_view, lemma_dict_view, lemma_entries_view_put, lemma_list_view, DocView, Document,
};
use crate::field_type::{
    lemma_parse_render, spec_parse, spec_render, FieldShape, FieldType, SchemaError,
};
use crate::table::{distinct_names, has_name, put, same_names, value_of, Table};

verus! {

/// The fields of a model: each name with the type of its values.
#[derive(Debug, PartialEq, Eq)]
pub struct Schema {
    pub mapping: Table<FieldType>,
}

/// What a schema holds: its fields in order, each name with the shape of
/// its type.
pub type Fields = Seq<(Seq<char>, FieldShape)>;

/// The fields of a schema, each type by its shape.
pub open spec fn fields_view(fields: Seq<(Seq<char>, FieldType)>) -> Fields {
    Seq::new(fields.len(), |i: int| (fields[i].0, fields[i].1@))
}

impl View for Schema {
    type V = Fields;

    open spec fn view(&self) -> Fields {
        fields_view(self.mapping@)
    }
}

/// The fields that the entries of a `properties` mapping stand for, or
/// what is wrong with the first entry that stands for none.
pub open spec fn spec_parse_props(props: Seq<(Seq<char>, DocView)>) -> Result<Fields, SchemaError>
    decreases props.len(),
{
    if props.len() == 0 {
        Ok(Seq::empty())
    } else {
        match spec_parse_props(props.drop_last()) {
            Err(e) => Err(e),
            Ok(front) => match spec_parse(props.last().1) {
                Err(e) => Err(e),
                Ok(t) => Ok(front.push((props.last().0, t))),
            },
        }
    }
}

/// The schema that a schema document stands for: the fields under its
/// `properties`. A document without `properties` stands for none.
pub open spec fn spec_parse_schema(d: DocView) -> Result<Fields, SchemaError> {
    match d {
        DocView::Dict(entries) => {
            if !has_name(entries, "properties"@) {
                Err(SchemaError::MissingProperties)
            } else {
                match value_of(entries, "properties"@) {
                    DocView::Dict(props) => spec_parse_props(props),
                    _ => Err(SchemaError::NotAMapping),
                }
            }
        },
        _ => Err(SchemaError::NotAMapping),
    }
}

/// The `properties` entries that stand for `fields`.
pub open spec fn spec_render_props(fields: Fields) -> Seq<
    (Seq<char>, DocView),
> {
    Seq::new(fields.len(), |i: int| (fields[i].0, spec_render(fields[i].1)))
}

/// An error among the first entries is the error of the whole mapping.
pub proof fn lemma_parse_props_stops(props: Seq<(Seq<char>, DocView)>, k: int)
    requires
        0 <= k <= props.len(),
        spec_parse_props(props.take(k)) is Err,
    ensures
        spec_parse_props(props) == spec_parse_props(props.take(k)),
    decreases props.len() - k,
{
    if k < props.len() {
        assert(props.take(k + 1).drop_last() =~= props.take(k));
        lemma_parse_props_stops(props, k + 1);
    } else {
        assert(props.take(k) =~= props);
    }
}

/// Reading the `properties` that were written for a schema gives the
/// schema back.
pub proof fn lemma_parse_render_props(fields: Fields)
    ensures
        spec_parse_props(spec_render_props(fields)) == Ok::<Fields, SchemaError>(fields),
    decreases fields.len(),
{
    let props = spec_render_props(fields);
    if fields.len() > 0 {
        assert(props.drop_last() =~= spec_render_props(fields.drop_last()));
        lemma_parse_render_props(fields.drop_last());
        lemma_parse_render(fields.last().1);
        assert(fields.drop_last().push(fields.last()) =~= fields);
    } else {
        assert(spec_parse_props(props)->Ok_0 =~= fields);
    }
}

impl Schema {
    /// Reads a schema out of a schema document.
    pub fn from_py_schema(ob: &Document) -> (r: Result<Schema, SchemaError>)
        ensures
            r matches Ok(schema) ==> spec_parse_schema(ob@) == Ok::<Fields, SchemaError>(
                schema@,
            ),
            r matches Err(e) ==> spec_parse_schema(ob@) == Err::<Fields, SchemaError>(e),
    {
        let entries = match ob {
            Document::Dict(entries) => entries,
            _ => {
                return Err(SchemaError::NotAMapping);
            },
        };
        proof {
            lemma_dict_view(*entries, "properties"@);
        }
        match entries.get("properties") {
            None => Err(SchemaError::MissingProperties),
            Some(Document::Dict(props)) => {
                proof {
                    lemma_dict_view(*props, "properties"@);
                }
                Schema::from_py_dict(props)
            },
            Some(_) => Err(SchemaError::NotAMapping),
        }
    }

    /// Reads a schema out of the entries of a `properties` mapping.
    pub fn from_py_dict(props: &Table<Document>) -> (r: Result<Schema, SchemaError>)
        ensures
            r matches Ok(schema) ==> spec_parse_props(entries_view(props@)) == Ok::<
                Fields,
                SchemaError,
            >(schema@),
            r matches Err(e) ==> spec_parse_props(entries_view(props@)) == Err::<
                Fields,
                SchemaError,
            >(e),
    {
        let ghost docs = entries_view(props@);
        let mut mapping: Table<FieldType> = Table::new();
        let mut i: usize = 0;
        proof {
            use_type_invariant(props);
            assert(spec_parse_props(docs.take(0))->Ok_0 =~= fields_view(mapping@));
        }
        while i < props.len()
            invariant
                i <= props@.len(),
                docs == entries_view(props@),
                distinct_names(props@),
                same_names(mapping@, props@.take(i as int)),
                spec_parse_props(docs.take(i as int)) == Ok::<Fields, SchemaError>(
                    fields_view(mapping@),
                ),
            decreases props@.len() - i,
        {
            let name = props.name_at(i).clone();
            proof {
                assert(docs.take(i + 1).drop_last() =~= docs.take(i as int));
                assert(docs.take(i + 1).last() == (props@[i as int].0, props@[i as int].1@));
            }
            match FieldType::extract_from_py_schema(props.value_at(i)) {
                Ok(t) => {
                    proof {
                        if has_name(mapping@, name@) {
                            let k = choose|k: int|
                                0 <= k < mapping@.len() && #[trigger] mapping@[k].0 == name@;
                            assert(props@.take(i as int)[k].0 == name@);
                            assert(props@[k].0 != props@[i as int].0);
                        }
                        assert(fields_view(mapping@).push((name@, t@)) =~= fields_view(
                            mapping@.push((name@, t)),
                        ));
                        assert(same_names(
                            mapping@.push((name@, t)),
                            props@.take(i as int + 1),
                        ));
                    }
                    mapping.insert(name, t);
                },
                Err(e) => {
                    proof {
                        lemma_parse_props_stops(docs, i + 1);
                    }
                    return Err(e);
                },
            }
            i += 1;
        }
        proof {
            assert(docs.take(i as int) =~= docs);
        }
        Ok(Schema { mapping })
    }

    /// Writes the `properties` mapping of this schema.
    pub fn to_dict(&self) -> (r: Document)
        ensures
            r@ == DocView::Dict(spec_render_props(self@)),
    {
        let mut props: Table<Document> = Table::new();
        let mut i: usize = 0;
        proof {
            use_type_invariant(&self.mapping);
            assert(entries_view(props@) =~= spec_render_props(self@.take(0)));
        }
        while i < self.mapping.len()
            invariant
                i <= self.mapping@.len(),
                distinct_names(self.mapping@),
                same_names(props@, self.mapping@.take(i as int)),
                entries_view(props@) == spec_render_props(self@.take(i as int)),
            decreases self.mapping@.len() - i,
        {
            let name = self.mapping.name_at(i).clone();
            let value = self.mapping.value_at(i).to_dict();
            proof {
                if has_name(props@, name@) {
                    let k = choose|k: int| 0 <= k < props@.len() && #[trigger] props@[k].0 == name@;
                    assert(self.mapping@.take(i as int)[k].0 == name@);
                    assert(self.mapping@[k].0 != self.mapping@[i as int].0);
                }
                let grown = entries_view(props@.push((name@, value)));
                let wanted = spec_render_props(self@.take(i + 1));
                assert forall|k: int| 0 <= k < grown.len() implies grown[k] == wanted[k] by {
                    if k < i {
                        assert(grown[k] == entries_view(props@)[k]);
                        assert(spec_render_props(self@.take(i as int))[k] == wanted[k]);
                    }
                }
                assert(grown =~= wanted);
                assert(same_names(
                    props@.push((name@, value)),
                    self.mapping@.take(i as int + 1),
                ));
            }
            props.insert(name, value);
            i += 1;
        }
        proof {
            assert(self@.take(i as int) =~= self@);
            lemma_dict_view(props, "properties"@);
        }
        Document::Dict(props)
    }
}

impl Clone for Schema {
    fn clone(&self) -> (r: Self)
        ensures
            r@ == self@,
    {
        let mut mapping: Table<FieldType> = Table::new();
        let mut i: usize = 0;
        proof {
            use_type_invariant(&self.mapping);
        }
        while i < self.mapping.len()
            invariant
                i <= self.mapping@.len(),
                distinct_names(self.mapping@),
                same_names(mapping@, self.mapping@.take(i as int)),
                fields_view(mapping@) == self@.take(i as int),
            decreases self.mapping@.len() - i,
        {
            let name = self.mapping.name_at(i).clone();
            let value = self.mapping.value_at(i).clone();
            proof {
                if has_name(mapping@, name@) {
                    let k = choose|k: int|
                        0 <= k < mapping@.len() && #[trigger] mapping@[k].0 == name@;
                    assert(self.mapping@.take(i as int)[k].0 == name@);
                    assert(self.mapping@[k].0 != self.mapping@[i as int].0);
                }
                assert(fields_view(mapping@.push((name@, value))) =~= self@.take(i + 1));
                assert(same_names(
                    mapping@.push((name@, value)),
                    self.mapping@.take(i as int + 1),
                ));
            }
            mapping.insert(name, value);
            i += 1;
        }
        proof {
            assert(self@.take(i as int) =~= self@);
        }
        Schema { mapping }
    }
}

/// One declared field of a model class: its name, the name of its
/// declared type and, where that type takes arguments, the name of the
/// first of them.
pub struct Annotation {
    pub name: String,
    pub declared_type: String,
    pub first_arg: Option<String>,
}

/// What an `Annotation` holds.
pub struct AnnotationView {
    pub name: Seq<char>,
    pub declared_type: Seq<char>,
    pub first_arg: Option<Seq<char>>,
}

impl View for Annotation {
    type V = AnnotationView;

    open spec fn view(&self) -> AnnotationView {
        AnnotationView {
            name: self.name@,
            declared_type: self.declared_type@,
            first_arg: match self.first_arg {
                Some(arg) => Some(arg@),
                None => None,
            },
        }
    }
}

/// A model class as declared: its name and its fields in order.
pub struct ModelClass {
    pub name: String,
    pub annotations: Vec<Annotation>,
}

/// What a `ModelClass` holds.
pub struct ModelClassView {
    pub name: Seq<char>,
    pub annotations: Seq<AnnotationView>,
}

/// The views of a run of annotations, in order.
pub open spec fn annotations_view(annotations: Seq<Annotation>) -> Seq<AnnotationView> {
    Seq::new(annotations.len(), |i: int| annotations[i]@)
}

impl View for ModelClass {
    type V = ModelClassView;

    open spec fn view(&self) -> ModelClassView {
        ModelClassView { name: self.name@, annotations: annotations_view(self.annotations@) }
    }
}

/// The type name that a field's descriptor carries: the first type
/// argument where the declared type has arguments, else the declared type.
pub open spec fn column_type(a: AnnotationView) -> Seq<char> {
    match a.first_arg {
        Some(arg) => arg,
        None => a.declared_type,
    }
}

/// The descriptor of one declared field.
pub open spec fn column_descriptor(a: AnnotationView) -> DocView {
    DocView::Dict(
        seq![("title"@, DocView::Text(a.name)), ("type"@, DocView::Text(column_type(a)))],
    )
}

/// The `properties` of a model class: a descriptor under each field's
/// name, a later field of the same name replacing the earlier one.
pub open spec fn spec_properties(annotations: Seq<AnnotationView>) -> Seq<(Seq<char>, DocView)>
    decreases annotations.len(),
{
    if annotations.len() == 0 {
        Seq::empty()
    } else {
        put(
            spec_properties(annotations.drop_last()),
            annotations.last().name,
            column_descriptor(annotations.last()),
        )
    }
}

/// The schema document of a model class.
pub open spec fn spec_get_schema(cls: ModelClassView) -> DocView {
    DocView::Dict(
        seq![
            ("title"@, DocView::Text(cls.name)),
            ("type"@, DocView::Text("object"@)),
            ("required"@, DocView::List(Seq::empty())),
            ("properties"@, DocView::Dict(spec_properties(cls.annotations))),
        ],
    )
}

/// The four entry names of a schema document differ from each other.
proof fn lemma_schema_names_differ()
    ensures
        "title"@ != "type"@,
        "title"@ != "required"@,
        "title"@ != "properties"@,
        "type"@ != "required"@,
        "type"@ != "properties"@,
        "required"@ != "properties"@,
{
    reveal_strlit("title");
    reveal_strlit("type");
    reveal_strlit("required");
    reveal_strlit("properties");
    assert("title"@.len() == 5);
    assert("type"@.len() == 4);
    assert("required"@.len() == 8);
    assert("properties"@.len() == 10);
}

/// The descriptor of one declared field.
fn column(a: &Annotation) -> (r: Document)
    ensures
        r@ == column_descriptor(a@),
{
    let col_type = match &a.first_arg {
        Some(arg) => arg.as_str(),
        None => a.declared_type.as_str(),
    };
    let mut col_properties: Table<Document> = Table::new();
    col_properties.insert(String::from_str("title"), Document::text(a.name.as_str()));
    col_properties.insert(String::from_str("type"), Document::text(col_type));
    proof {
        lemma_schema_names_differ();
        lemma_dict_view(col_properties, "type"@);
        assert(entries_view(col_properties@) =~= column_descriptor(a@)->Dict_0);
    }
    Document::Dict(col_properties)
}

/// Describes a model class as a schema document: its name as `title`, the
/// type `object`, an empty `required` list, and under `properties` a
/// descriptor for each declared field.
pub fn get_schema(cls: &ModelClass) -> (r: Document)
    ensures
        r@ == spec_get_schema(cls@),
{
    let mut schema_properties: Table<Document> = Table::new();
    let ghost decls = cls@.annotations;
    let mut i: usize = 0;
    proof {
        assert(entries_view(schema_properties@) =~= spec_properties(decls.take(0)));
    }
    while i < cls.annotations.len()
        invariant
            i <= cls.annotations.len(),
            decls == annotations_view(cls.annotations@),
            entries_view(schema_properties@) == spec_properties(decls.take(i as int)),
        decreases cls.annotations.len() - i,
    {
        let a = &cls.annotations[i];
        let col_properties = column(a);
        proof {
            assert(decls.take(i + 1).drop_last() =~= decls.take(i as int));
            assert(decls.take(i + 1).last() == a@);
            lemma_entries_view_put(schema_properties@, a.name@, col_properties);
        }
        schema_properties.insert(a.name.clone(), col_properties);
        i += 1;
    }
    proof {
        assert(decls.take(i as int) =~= decls);
    }
    let required: Vec<Document> = Vec::new();
    let mut schema: Table<Document> = Table::new();
    schema.insert(String::from_str("title"), Document::text(cls.name.as_str()));
    schema.insert(String::from_str("type"), Document::text("object"));
    proof {
        lemma_list_view(required);
        assert(Document::List(required)@->List_0 =~= Seq::<DocView>::empty());
    }
    schema.insert(String::from_str("required"), Document::List(required));
    proof {
        lemma_dict_view(schema_properties, "type"@);
    }
    schema.insert(String::from_str("properties"), Document::Dict(schema_properties));
    proof {
        lemma_schema_names_differ();
        lemma_dict_view(schema, "type"@);
        assert(entries_view(schema@) =~= spec_get_schema(cls@)->Dict_0);
    }
    Document::Dict(schema)
}

} // verus!
