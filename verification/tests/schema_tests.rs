use aluminum::document::Document;
use aluminum::field_type::{FieldType, SchemaError};
use aluminum::schema::{get_schema, Annotation, ModelClass, Schema};
use aluminum::table::Table;

fn text(s: &str) -> Document {
    Document::Text(s.to_string())
}

fn dict(entries: Vec<(&str, Document)>) -> Document {
    let mut t = Table::new();
    for (k, v) in entries {
        t.insert(k.to_string(), v);
    }
    Document::Dict(t)
}

fn tagged(tag: &str) -> Document {
    dict(vec![("type", text(tag))])
}

fn parse(d: &Document) -> Result<FieldType, SchemaError> {
    FieldType::extract_from_py_schema(d)
}

#[test]
fn parse_scalar_tags() {
    assert_eq!(parse(&tagged("null")), Ok(FieldType::Null));
    assert_eq!(parse(&tagged("bool")), Ok(FieldType::Bool));
    assert_eq!(parse(&tagged("str")), Ok(FieldType::Str));
    assert_eq!(parse(&tagged("number")), Ok(FieldType::Float));
    assert_eq!(parse(&tagged("int")), Ok(FieldType::Int));
}

#[test]
fn parse_written_tags() {
    assert_eq!(parse(&tagged("boolean")), Ok(FieldType::Bool));
    assert_eq!(parse(&tagged("string")), Ok(FieldType::Str));
    assert_eq!(parse(&tagged("integer")), Ok(FieldType::Int));
}

#[test]
fn parse_without_type_is_str() {
    assert_eq!(parse(&dict(vec![])), Ok(FieldType::Str));
    assert_eq!(parse(&dict(vec![("title", text("x"))])), Ok(FieldType::Str));
}

#[test]
fn parse_unknown_tag_is_str() {
    assert_eq!(parse(&tagged("datetime")), Ok(FieldType::Str));
    assert_eq!(parse(&tagged("")), Ok(FieldType::Str));
    assert_eq!(parse(&tagged("Int")), Ok(FieldType::Str));
}

#[test]
fn parse_list_without_items() {
    assert_eq!(
        parse(&tagged("list")),
        Ok(FieldType::List { items: Box::new(FieldType::Str) })
    );
    assert_eq!(
        parse(&tagged("array")),
        Ok(FieldType::List { items: Box::new(FieldType::Str) })
    );
}

#[test]
fn parse_list_with_one_descriptor() {
    let d = dict(vec![("type", text("list")), ("items", tagged("int"))]);
    assert_eq!(parse(&d), Ok(FieldType::List { items: Box::new(FieldType::Int) }));
}

#[test]
fn parse_list_with_descriptor_list_is_tuple() {
    let d = dict(vec![
        ("type", text("list")),
        ("items", Document::List(vec![tagged("str"), tagged("int")])),
    ]);
    assert_eq!(
        parse(&d),
        Ok(FieldType::Tuple { items: vec![FieldType::Str, FieldType::Int] })
    );
}

#[test]
fn parse_empty_descriptor_list_is_empty_tuple() {
    let d = dict(vec![("type", text("list")), ("items", Document::List(vec![]))]);
    assert_eq!(parse(&d), Ok(FieldType::Tuple { items: vec![] }));
}

#[test]
fn parse_object() {
    assert_eq!(
        parse(&tagged("object")),
        Ok(FieldType::Dict { value: Box::new(FieldType::Str) })
    );
    let d = dict(vec![("type", text("object")), ("properties", tagged("int"))]);
    assert_eq!(parse(&d), Ok(FieldType::Dict { value: Box::new(FieldType::Int) }));
}

#[test]
fn parse_errors() {
    assert_eq!(parse(&text("int")), Err(SchemaError::NotAMapping));
    assert_eq!(parse(&Document::Other), Err(SchemaError::NotAMapping));
    assert_eq!(parse(&Document::List(vec![])), Err(SchemaError::NotAMapping));
    assert_eq!(parse(&dict(vec![("type", Document::Other)])), Err(SchemaError::NotText));
    assert_eq!(parse(&dict(vec![("type", tagged("int"))])), Err(SchemaError::NotText));
    let d = dict(vec![("type", text("list")), ("items", text("int"))]);
    assert_eq!(parse(&d), Err(SchemaError::NotAMapping));
    let d = dict(vec![("type", text("object")), ("properties", Document::Other)]);
    assert_eq!(parse(&d), Err(SchemaError::NotAMapping));
}

#[test]
fn parse_tuple_stops_at_first_bad_place() {
    let d = dict(vec![
        ("type", text("list")),
        (
            "items",
            Document::List(vec![
                tagged("int"),
                dict(vec![("type", Document::Other)]),
                text("nothing"),
            ]),
        ),
    ]);
    assert_eq!(parse(&d), Err(SchemaError::NotText));
}

#[test]
fn render_scalars() {
    assert_eq!(FieldType::Str.to_dict(), tagged("string"));
    assert_eq!(FieldType::Int.to_dict(), tagged("integer"));
    assert_eq!(FieldType::Float.to_dict(), tagged("number"));
    assert_eq!(FieldType::Bool.to_dict(), tagged("boolean"));
    assert_eq!(FieldType::Null.to_dict(), tagged("null"));
}

#[test]
fn render_list_and_dict() {
    let list = FieldType::List { items: Box::new(FieldType::Int) };
    assert_eq!(
        list.to_dict(),
        dict(vec![("type", text("array")), ("items", tagged("integer"))])
    );
    let object = FieldType::Dict { value: Box::new(FieldType::Bool) };
    assert_eq!(
        object.to_dict(),
        dict(vec![("type", text("object")), ("properties", tagged("boolean"))])
    );
}

#[test]
fn tuple_renders_as_array_of_descriptors_and_parses_back() {
    let tuple = FieldType::Tuple { items: vec![FieldType::Str, FieldType::Int] };
    let rendered = tuple.to_dict();
    let shape = dict(vec![
        ("type", text("array")),
        ("items", Document::List(vec![tagged("string"), tagged("integer")])),
    ]);
    assert_eq!(rendered, shape);
    assert_eq!(parse(&shape), Ok(tuple));
}

#[test]
fn round_trip_of_nested_types() {
    let types = vec![
        FieldType::Str,
        FieldType::Int,
        FieldType::Float,
        FieldType::Bool,
        FieldType::Null,
        FieldType::List { items: Box::new(FieldType::Float) },
        FieldType::Dict { value: Box::new(FieldType::List { items: Box::new(FieldType::Null) }) },
        FieldType::List {
            items: Box::new(FieldType::Tuple {
                items: vec![FieldType::Bool, FieldType::Dict { value: Box::new(FieldType::Int) }],
            }),
        },
    ];
    for t in types {
        assert_eq!(parse(&t.to_dict()), Ok(t));
    }
}

#[test]
fn field_type_clone_is_equal() {
    let t = FieldType::Tuple {
        items: vec![FieldType::Int, FieldType::List { items: Box::new(FieldType::Str) }],
    };
    assert_eq!(t.clone(), t);
}

fn weather_document() -> Document {
    dict(vec![
        ("title", text("Weather")),
        ("type", text("object")),
        (
            "properties",
            dict(vec![
                ("measurement", tagged("str")),
                ("field", tagged("int")),
                ("tag", tagged("str")),
            ]),
        ),
    ])
}

#[test]
fn schema_from_document() {
    let schema = Schema::from_py_schema(&weather_document()).unwrap();
    assert_eq!(schema.mapping.len(), 3);
    assert_eq!(schema.mapping.name_at(0), "measurement");
    assert_eq!(schema.mapping.name_at(1), "field");
    assert_eq!(schema.mapping.name_at(2), "tag");
    assert_eq!(schema.mapping.get("measurement"), Some(&FieldType::Str));
    assert_eq!(schema.mapping.get("field"), Some(&FieldType::Int));
    assert_eq!(schema.mapping.get("tag"), Some(&FieldType::Str));
    assert_eq!(schema.mapping.get("other"), None);
}

#[test]
fn schema_without_properties_is_refused() {
    let d = dict(vec![("title", text("Weather"))]);
    assert_eq!(Schema::from_py_schema(&d), Err(SchemaError::MissingProperties));
    assert_eq!(Schema::from_py_schema(&dict(vec![])), Err(SchemaError::MissingProperties));
}

#[test]
fn schema_errors() {
    assert_eq!(Schema::from_py_schema(&text("x")), Err(SchemaError::NotAMapping));
    let d = dict(vec![("properties", Document::List(vec![]))]);
    assert_eq!(Schema::from_py_schema(&d), Err(SchemaError::NotAMapping));
    let d = dict(vec![(
        "properties",
        dict(vec![("a", tagged("int")), ("b", text("int")), ("c", Document::Other)]),
    )]);
    assert_eq!(Schema::from_py_schema(&d), Err(SchemaError::NotAMapping));
    let d = dict(vec![("properties", dict(vec![("a", dict(vec![("type", Document::Other)]))]))]);
    assert_eq!(Schema::from_py_schema(&d), Err(SchemaError::NotText));
}

#[test]
fn schema_with_no_fields() {
    let d = dict(vec![("properties", dict(vec![]))]);
    let schema = Schema::from_py_schema(&d).unwrap();
    assert_eq!(schema.mapping.len(), 0);
    assert_eq!(schema.to_dict(), dict(vec![]));
}

#[test]
fn schema_renders_and_parses_back() {
    let schema = Schema::from_py_schema(&weather_document()).unwrap();
    let rendered = schema.to_dict();
    assert_eq!(
        rendered,
        dict(vec![
            ("measurement", tagged("string")),
            ("field", tagged("integer")),
            ("tag", tagged("string")),
        ])
    );
    let props = match &rendered {
        Document::Dict(props) => props,
        _ => panic!("no mapping"),
    };
    assert_eq!(Schema::from_py_dict(props), Ok(schema));
}

#[test]
fn schema_clone_is_equal() {
    let schema = Schema::from_py_schema(&weather_document()).unwrap();
    assert_eq!(schema.clone(), schema);
}

fn annotation(name: &str, declared: &str, first_arg: Option<&str>) -> Annotation {
    Annotation {
        name: name.to_string(),
        declared_type: declared.to_string(),
        first_arg: first_arg.map(|s| s.to_string()),
    }
}

#[test]
fn get_schema_describes_a_model() {
    let cls = ModelClass {
        name: "Weather".to_string(),
        annotations: vec![
            annotation("measurement", "str", None),
            annotation("field", "Mapped", Some("int")),
            annotation("pair", "Dict", Some("str")),
        ],
    };
    let column = |title: &str, tag: &str| dict(vec![("title", text(title)), ("type", text(tag))]);
    assert_eq!(
        get_schema(&cls),
        dict(vec![
            ("title", text("Weather")),
            ("type", text("object")),
            ("required", Document::List(vec![])),
            (
                "properties",
                dict(vec![
                    ("measurement", column("measurement", "str")),
                    ("field", column("field", "int")),
                    ("pair", column("pair", "str")),
                ]),
            ),
        ])
    );
}

#[test]
fn get_schema_of_a_model_without_fields() {
    let cls = ModelClass { name: "Empty".to_string(), annotations: vec![] };
    assert_eq!(
        get_schema(&cls),
        dict(vec![
            ("title", text("Empty")),
            ("type", text("object")),
            ("required", Document::List(vec![])),
            ("properties", dict(vec![])),
        ])
    );
}

#[test]
fn get_schema_later_field_replaces_earlier() {
    let cls = ModelClass {
        name: "M".to_string(),
        annotations: vec![
            annotation("a", "int", None),
            annotation("b", "str", None),
            annotation("a", "List", Some("bool")),
        ],
    };
    let column = |title: &str, tag: &str| dict(vec![("title", text(title)), ("type", text(tag))]);
    let doc = get_schema(&cls);
    let props = match &doc {
        Document::Dict(entries) => entries.get("properties").unwrap(),
        _ => panic!("no mapping"),
    };
    assert_eq!(props, &dict(vec![("a", column("a", "bool")), ("b", column("b", "str"))]));
}

#[test]
fn get_schema_parses_as_schema() {
    let cls = ModelClass {
        name: "Weather".to_string(),
        annotations: vec![
            annotation("measurement", "str", None),
            annotation("field", "Mapped", Some("int")),
        ],
    };
    let schema = Schema::from_py_schema(&get_schema(&cls)).unwrap();
    assert_eq!(schema.mapping.get("measurement"), Some(&FieldType::Str));
    assert_eq!(schema.mapping.get("field"), Some(&FieldType::Int));
}

#[test]
fn document_text_holds_the_text() {
    assert_eq!(Document::text("abc"), Document::Text("abc".to_string()));
}
