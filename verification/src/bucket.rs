//! Buckets: encoding an object into a write record under a schema, building
//! the point that is written, and shaping the rows that a query returns.

use vstd::prelude::*;
use influxdb2::models::data_point::{DataPoint, DataPointBuilder, DataPointError};
use crate::document::{entries_view, lemma_dict_view, DocView, Document};
use crate::schema::{spec_render_props, Fields, Schema};
use crate::table::{has_name, lemma_names_contain, names_of, value_of, Table};
use crate::text::{parse_i32, same_text, spec_parse_i32};

verus! {

/// influxdb2's `DataPoint`: a point as it is written to the server. What
/// it holds is named by `point_measurement`, `point_fields` and `point_tags`.
#[verifier::external_type_specification]
#[verifier::external_body]
pub struct ExDataPoint(DataPoint);

/// influxdb2's `DataPointBuilder`: a point in the making. What it holds is
/// named by `builder_measurement`, `builder_fields` and `builder_tags`.
#[verifier::external_type_specification]
#[verifier::external_body]
pub struct ExDataPointBuilder(DataPointBuilder);

/// influxdb2's `DataPointError`: why a builder gave no point.
#[verifier::external_type_specification]
#[verifier::external_body]
pub struct ExDataPointError(DataPointError);

/// The map from names to strings that holds nothing.
pub open spec fn nothing() -> Map<Seq<char>, Seq<char>> {
    Map::empty()
}

/// The measurement that a point builder was made for.
pub uninterp spec fn builder_measurement(b: DataPointBuilder) -> Seq<char>;

/// The fields that a point builder holds, by name; a string field stands
/// by its characters.
pub uninterp spec fn builder_fields(b: DataPointBuilder) -> Map<Seq<char>, Seq<char>>;

/// The tags that a point builder holds, by name.
pub uninterp spec fn builder_tags(b: DataPointBuilder) -> Map<Seq<char>, Seq<char>>;

/// The measurement of a point.
pub uninterp spec fn point_measurement(p: DataPoint) -> Seq<char>;

/// The fields of a point, by name; a string field stands by its characters.
pub uninterp spec fn point_fields(p: DataPoint) -> Map<Seq<char>, Seq<char>>;

/// The tags of a point, by name.
pub uninterp spec fn point_tags(p: DataPoint) -> Map<Seq<char>, Seq<char>>;

/// `DataPoint::builder`: a builder for the given measurement that holds
/// no field and no tag yet.
#[verifier::external_body]
fn point_builder(measurement: &str) -> (b: DataPointBuilder)
    ensures
        builder_measurement(b) == measurement@,
        builder_fields(b) == nothing(),
        builder_tags(b) == nothing(),
{
    DataPoint::builder(measurement)
}

/// `DataPointBuilder::field` with a string value: sets the field,
/// replacing a field of the same name, and leaves the rest as it was.
#[verifier::external_body]
fn with_field(b: DataPointBuilder, name: &str, value: &str) -> (r: DataPointBuilder)
    ensures
        builder_measurement(r) == builder_measurement(b),
        builder_fields(r) == builder_fields(b).insert(name@, value@),
        builder_tags(r) == builder_tags(b),
{
    b.field(name, value)
}

/// `DataPointBuilder::tag`: sets the tag, replacing a tag of the same
/// name, and leaves the rest as it was.
#[verifier::external_body]
fn with_tag(b: DataPointBuilder, name: &str, value: &str) -> (r: DataPointBuilder)
    ensures
        builder_measurement(r) == builder_measurement(b),
        builder_fields(r) == builder_fields(b),
        builder_tags(r) == builder_tags(b).insert(name@, value@),
{
    b.tag(name, value)
}

/// `DataPointBuilder::build`: fails exactly where the builder holds no
/// field; the point holds what the builder held.
#[verifier::external_body]
fn build_point(b: DataPointBuilder) -> (r: Result<DataPoint, DataPointError>)
    ensures
        r is Err <==> builder_fields(b) == nothing(),
        r matches Ok(p) ==> {
            &&& point_measurement(p) == builder_measurement(b)
            &&& point_fields(p) == builder_fields(b)
            &&& point_tags(p) == builder_tags(b)
        },
{
    b.build()
}

/// An object to be written, as it presents its fields. The values are in
/// the string form in which they are written.
pub enum Item {
    /// The object is itself a mapping from names to values.
    Mapping(Table<String>),
    /// The object is no mapping, but its conversion method gives one.
    Converted(Table<String>),
    /// The object cannot be viewed as a mapping.
    Opaque,
}

impl Item {
    /// The fields of the object, where it has any to show.
    pub open spec fn fields(self) -> Option<Seq<(Seq<char>, String)>> {
        match self {
            Item::Mapping(t) => Some(t@),
            Item::Converted(t) => Some(t@),
            Item::Opaque => None,
        }
    }
}

/// The object cannot be viewed as a mapping from names to values.
#[derive(Debug, PartialEq, Eq)]
pub struct DecodingError;

/// The records of an object under a schema: for each schema field that
/// the object has, in schema order, the field's name and the object's
/// value under it.
pub open spec fn spec_records(names: Seq<Seq<char>>, obj: Seq<(Seq<char>, String)>) -> Seq<
    (Seq<char>, Seq<char>),
>
    decreases names.len(),
{
    if names.len() == 0 {
        Seq::empty()
    } else {
        let front = spec_records(names.drop_last(), obj);
        if has_name(obj, names.last()) {
            front.push((names.last(), value_of(obj, names.last())@))
        } else {
            front
        }
    }
}

/// The measurement name of an object under a schema: the object's value
/// under `measurement` where both know that field, else the empty string.
pub open spec fn spec_measurement(names: Seq<Seq<char>>, obj: Seq<(Seq<char>, String)>) -> Seq<
    char,
> {
    if names.contains("measurement"@) && has_name(obj, "measurement"@) {
        value_of(obj, "measurement"@)@
    } else {
        Seq::empty()
    }
}

/// Whether the object has a field of the given name.
pub open spec fn present_in(obj: Seq<(Seq<char>, String)>) -> spec_fn(Seq<char>) -> bool {
    |name: Seq<char>| has_name(obj, name)
}

/// The names of a run of records, in order.
pub open spec fn record_names(records: Seq<(Seq<char>, Seq<char>)>) -> Seq<Seq<char>> {
    records.map_values(|r: (Seq<char>, Seq<char>)| r.0)
}

/// The records name exactly the schema fields that the object has, in
/// schema order, and each carries the object's value under its name.
pub proof fn lemma_records_select(names: Seq<Seq<char>>, obj: Seq<(Seq<char>, String)>)
    ensures
        record_names(spec_records(names, obj)) == names.filter(present_in(obj)),
        forall|i: int|
            0 <= i < spec_records(names, obj).len() ==> {
                &&& has_name(obj, (#[trigger] spec_records(names, obj)[i]).0)
                &&& names.contains(spec_records(names, obj)[i].0)
                &&& spec_records(names, obj)[i].1 == value_of(obj, spec_records(names, obj)[i].0)@
            },
    decreases names.len(),
{
    reveal(Seq::filter);
    let records = spec_records(names, obj);
    if names.len() > 0 {
        let front = spec_records(names.drop_last(), obj);
        lemma_records_select(names.drop_last(), obj);
        assert forall|i: int| 0 <= i < records.len() implies {
            &&& has_name(obj, (#[trigger] records[i]).0)
            &&& names.contains(records[i].0)
            &&& records[i].1 == value_of(obj, records[i].0)@
        } by {
            if i < front.len() {
                assert(records[i] == front[i]);
                let k = choose|k: int|
                    0 <= k < names.drop_last().len() && names.drop_last()[k] == front[i].0;
                assert(names[k] == front[i].0);
            } else {
                assert(names[names.len() - 1] == records[i].0);
            }
        }
        assert(record_names(records) =~= names.filter(present_in(obj)));
    } else {
        assert(record_names(records) =~= names.filter(present_in(obj)));
    }
}

/// The characters of each pair of a run of name and value strings.
pub open spec fn pairs_view(pairs: Seq<(String, String)>) -> Seq<(Seq<char>, Seq<char>)> {
    Seq::new(pairs.len(), |i: int| (pairs[i].0@, pairs[i].1@))
}

/// Encodes an object under a schema: the measurement name, and a record
/// for each schema field that the object has. Fails where the object
/// cannot be viewed as a mapping.
pub fn transform_point(
    schema: &Schema,
    obj: &Item,
) -> (r: Result<(String, Vec<(String, String)>), DecodingError>)
    ensures
        r is Err <==> obj.fields() is None,
        r matches Ok(out) ==> {
            &&& out.0@ == spec_measurement(names_of(schema@), obj.fields()->0)
            &&& pairs_view(out.1@) == spec_records(names_of(schema@), obj.fields()->0)
        },
{
    let fields = match obj {
        Item::Mapping(fields) => fields,
        Item::Converted(fields) => fields,
        Item::Opaque => {
            return Err(DecodingError);
        },
    };
    let ghost names = names_of(schema.mapping@);
    proof {
        assert(names_of(schema@) =~= names);
    }
    let mut records: Vec<(String, String)> = Vec::new();
    let mut measurement = String::new();
    let mut i: usize = 0;
    proof {
        assert(pairs_view(records@) =~= spec_records(names.take(0), fields@));
        assert(!names.take(0).contains("measurement"@));
    }
    while i < schema.mapping.len()
        invariant
            i <= schema.mapping@.len(),
            names == names_of(schema.mapping@),
            pairs_view(records@) == spec_records(names.take(i as int), fields@),
            measurement@ == spec_measurement(names.take(i as int), fields@),
        decreases schema.mapping@.len() - i,
    {
        let field = schema.mapping.name_at(i);
        proof {
            assert(names.take(i + 1).drop_last() =~= names.take(i as int));
            assert(names.take(i + 1).last() == field@);
            lemma_contains_grows(names, i as int, "measurement"@);
        }
        match fields.get(field.as_str()) {
            Some(value) => {
                if same_text(field.as_str(), "measurement") {
                    measurement = value.clone();
                }
                proof {
                    assert(pairs_view(records@).push((field@, value@)) =~= pairs_view(
                        records@.push((*field, *value)),
                    ));
                }
                records.push((field.clone(), value.clone()));
            },
            None => {},
        }
        i += 1;
    }
    proof {
        assert(names.take(i as int) =~= names);
    }
    Ok((measurement, records))
}

/// A name is among the first `i + 1` names where it is among the first
/// `i` or is the next one.
proof fn lemma_contains_grows(names: Seq<Seq<char>>, i: int, name: Seq<char>)
    requires
        0 <= i < names.len(),
    ensures
        names.take(i + 1).contains(name) <==> names.take(i).contains(name) || names[i] == name,
{
    let short = names.take(i);
    let grown = names.take(i + 1);
    if short.contains(name) {
        let k = choose|k: int| 0 <= k < short.len() && short[k] == name;
        assert(grown[k] == name);
    }
    if names[i] == name {
        assert(grown[i] == name);
    }
    if grown.contains(name) {
        let k = choose|k: int| 0 <= k < grown.len() && grown[k] == name;
        if k < i {
            assert(short[k] == name);
        }
    }
}

/// What is kept with a bucket besides its name: the schema of its model.
#[derive(Debug, PartialEq, Eq)]
pub struct BucketMeta {
    pub schema: Box<Schema>,
}

impl View for BucketMeta {
    type V = Fields;

    open spec fn view(&self) -> Fields {
        self.schema@
    }
}

impl BucketMeta {
    /// Bucket settings around `schema`.
    pub fn new(schema: Box<Schema>) -> (meta: Self)
        ensures
            meta@ == schema@,
    {
        BucketMeta { schema }
    }

    /// The document of this bucket's settings: the schema's `properties`
    /// under `schema`.
    pub fn to_dict(&self) -> (r: Document)
        ensures
            r@ == DocView::Dict(seq![("schema"@, DocView::Dict(spec_render_props(self@)))]),
    {
        let mut dict: Table<Document> = Table::new();
        dict.insert(String::from_str("schema"), self.schema.to_dict());
        proof {
            lemma_dict_view(dict, "schema"@);
            assert(entries_view(dict@) =~= seq![
                ("schema"@, DocView::Dict(spec_render_props(self@))),
            ]);
        }
        Document::Dict(dict)
    }
}

impl Clone for BucketMeta {
    fn clone(&self) -> (r: Self)
        ensures
            r@ == self@,
    {
        BucketMeta { schema: Box::new((*self.schema).clone()) }
    }
}

/// Why an object could not be made into a point.
#[derive(Debug, PartialEq, Eq)]
pub enum AddError {
    /// The object cannot be viewed as a mapping from names to values.
    Decoding,
    /// No record of the object is called `field`, and a point needs a field.
    NoField,
}

/// A row that a query returned, every column as text.
#[derive(Debug)]
pub struct QueryResult {
    pub measurement: String,
    pub tag: String,
    pub field: String,
}

impl Default for QueryResult {
    /// The row whose columns are all empty.
    fn default() -> (r: Self)
        ensures
            r.measurement@ == Seq::<char>::empty(),
            r.tag@ == Seq::<char>::empty(),
            r.field@ == Seq::<char>::empty(),
    {
        Self { measurement: String::new(), tag: String::new(), field: String::new() }
    }
}

/// A row of a query's result, with its field read as an integer.
#[derive(Debug, PartialEq, Eq)]
pub struct QueryRow {
    pub measurement: String,
    pub tag: String,
    pub field: i32,
}

/// The result of a query against a bucket: the bucket's name and the rows.
#[derive(Debug, PartialEq, Eq)]
pub struct QueryData {
    pub name: String,
    pub data: Vec<QueryRow>,
}

/// A row whose field does not spell a 32-bit integer.
#[derive(Debug, PartialEq, Eq)]
pub struct FieldError {
    /// The place of the first such row.
    pub row: usize,
}

/// Every field among the first `n` rows spells a 32-bit integer.
pub open spec fn fields_parse(rows: Seq<QueryResult>, n: int) -> bool {
    forall|k: int| 0 <= k < n ==> spec_parse_i32((#[trigger] rows[k]).field@) is Some
}

/// `row` is `source` with its field read as an integer.
pub open spec fn row_of(row: QueryRow, source: QueryResult) -> bool {
    &&& row.measurement@ == source.measurement@
    &&& row.tag@ == source.tag@
    &&& spec_parse_i32(source.field@) == Some(row.field as int)
}

/// The fields and tags that a run of records attaches under `role`: the
/// value of each record of that name, a later one replacing an earlier.
pub open spec fn spec_attached(records: Seq<(Seq<char>, Seq<char>)>, role: Seq<char>) -> Map<
    Seq<char>,
    Seq<char>,
>
    decreases records.len(),
{
    if records.len() == 0 {
        nothing()
    } else {
        let front = spec_attached(records.drop_last(), role);
        if records.last().0 == role {
            front.insert(role, records.last().1)
        } else {
            front
        }
    }
}

/// Records attach something under `role` exactly where one of them has that name.
pub proof fn lemma_attached(records: Seq<(Seq<char>, Seq<char>)>, role: Seq<char>)
    ensures
        spec_attached(records, role) == nothing() <==> !has_name(records, role),
    decreases records.len(),
{
    if records.len() > 0 {
        let front = records.drop_last();
        lemma_attached(front, role);
        if records.last().0 == role {
            assert(records[records.len() - 1].0 == role);
            assert(spec_attached(records, role).dom().contains(role));
            assert(!nothing().dom().contains(role));
        } else {
            if has_name(records, role) {
                let k = choose|k: int| 0 <= k < records.len() && #[trigger] records[k].0 == role;
                assert(front[k].0 == role);
            }
            if has_name(front, role) {
                let k = choose|k: int| 0 <= k < front.len() && #[trigger] front[k].0 == role;
                assert(records[k].0 == role);
            }
        }
    }
}

/// Builds the point of a measurement and its records: the records called
/// `field` and `tag` are attached as field and tag, the others are left
/// out. Fails where no record is called `field`.
pub fn point_of(
    measurement: &str,
    records: &Vec<(String, String)>,
) -> (r: Result<DataPoint, AddError>)
    ensures
        r is Ok <==> has_name(pairs_view(records@), "field"@),
        r matches Err(e) ==> e == AddError::NoField,
        r matches Ok(p) ==> {
            &&& point_measurement(p) == measurement@
            &&& point_fields(p) == spec_attached(pairs_view(records@), "field"@)
            &&& point_tags(p) == spec_attached(pairs_view(records@), "tag"@)
        },
{
    let ghost pairs = pairs_view(records@);
    let mut point = point_builder(measurement);
    let mut i: usize = 0;
    proof {
        reveal_strlit("field");
        reveal_strlit("tag");
        assert("field"@.len() == 5);
        assert("tag"@.len() == 3);
    }
    while i < records.len()
        invariant
            i <= records.len(),
            pairs == pairs_view(records@),
            "field"@ != "tag"@,
            builder_measurement(point) == measurement@,
            builder_fields(point) == spec_attached(pairs.take(i as int), "field"@),
            builder_tags(point) == spec_attached(pairs.take(i as int), "tag"@),
        decreases records.len() - i,
    {
        let k = records[i].0.as_str();
        let v = records[i].1.as_str();
        proof {
            assert(pairs.take(i + 1).drop_last() =~= pairs.take(i as int));
            assert(pairs.take(i + 1).last() == (k@, v@));
        }
        if same_text(k, "field") {
            point = with_field(point, k, v);
        } else if same_text(k, "tag") {
            point = with_tag(point, k, v);
        }
        i += 1;
    }
    proof {
        assert(pairs.take(i as int) =~= pairs);
        lemma_attached(pairs, "field"@);
    }
    match build_point(point) {
        Ok(p) => Ok(p),
        Err(_) => Err(AddError::NoField),
    }
}

/// A named bucket with the schema of its model.
#[derive(Debug, PartialEq, Eq)]
pub struct _Bucket {
    pub name: String,
    pub meta: BucketMeta,
}

impl _Bucket {
    /// The bucket called `name` with the settings `meta`.
    pub fn new(name: String, meta: BucketMeta) -> (bucket: Self)
        ensures
            bucket.name == name,
            bucket.meta == meta,
    {
        Self { name, meta }
    }

    /// Makes the point that stands for `item` in this bucket: the item is
    /// encoded under the bucket's schema, and its records called `field`
    /// and `tag` are attached to a point of the item's measurement.
    pub fn add(&self, item: &Item) -> (r: Result<DataPoint, AddError>)
        ensures
            r matches Err(e) ==> e == if item.fields() is None {
                AddError::Decoding
            } else {
                AddError::NoField
            },
            r is Ok <==> item.fields() is Some && has_name(self.meta@, "field"@) && has_name(
                item.fields()->0,
                "field"@,
            ),
            r matches Ok(p) ==> {
                let records = spec_records(names_of(self.meta@), item.fields()->0);
                &&& point_measurement(p) == spec_measurement(
                    names_of(self.meta@),
                    item.fields()->0,
                )
                &&& point_fields(p) == spec_attached(records, "field"@)
                &&& point_tags(p) == spec_attached(records, "tag"@)
            },
    {
        match transform_point(&self.meta.schema, item) {
            Err(_) => Err(AddError::Decoding),
            Ok((measurement, records)) => {
                proof {
                    lemma_record_named(names_of(self.meta@), item.fields()->0, "field"@);
                    lemma_names_contain(self.meta@, "field"@);
                }
                point_of(measurement.as_str(), &records)
            },
        }
    }

    /// The document of this bucket: its name and its settings.
    pub fn to_dict(&self) -> (r: Document)
        ensures
            r@ == DocView::Dict(
                seq![
                    ("name"@, DocView::Text(self.name@)),
                    (
                        "meta"@,
                        DocView::Dict(
                            seq![("schema"@, DocView::Dict(spec_render_props(self.meta@)))],
                        ),
                    ),
                ],
            ),
    {
        let mut dict: Table<Document> = Table::new();
        dict.insert(String::from_str("name"), Document::text(self.name.as_str()));
        dict.insert(String::from_str("meta"), self.meta.to_dict());
        proof {
            reveal_strlit("name");
            reveal_strlit("meta");
            assert("name"@[0] == 'n' && "meta"@[0] == 'm');
            lemma_dict_view(dict, "name"@);
            assert(entries_view(dict@) =~= seq![
                ("name"@, DocView::Text(self.name@)),
                (
                    "meta"@,
                    DocView::Dict(seq![("schema"@, DocView::Dict(spec_render_props(self.meta@)))]),
                ),
            ]);
        }
        Document::Dict(dict)
    }

    /// Shapes the rows that a query against this bucket returned: each
    /// row's field is read as a 32-bit integer. Fails at the first row
    /// whose field spells none.
    pub fn raw_query(&self, stream: &Vec<QueryResult>) -> (r: Result<QueryData, FieldError>)
        ensures
            r is Ok <==> fields_parse(stream@, stream@.len() as int),
            r matches Ok(out) ==> {
                &&& out.name@ == self.name@
                &&& out.data@.len() == stream@.len()
                &&& forall|k: int|
                    0 <= k < stream@.len() ==> row_of(#[trigger] out.data@[k], stream@[k])
            },
            r matches Err(e) ==> {
                &&& e.row < stream@.len()
                &&& fields_parse(stream@, e.row as int)
                &&& spec_parse_i32(stream@[e.row as int].field@) is None
            },
    {
        let mut data: Vec<QueryRow> = Vec::new();
        let mut i: usize = 0;
        while i < stream.len()
            invariant
                i <= stream.len(),
                data@.len() == i,
                fields_parse(stream@, i as int),
                forall|k: int| 0 <= k < i ==> row_of(#[trigger] data@[k], stream@[k]),
            decreases stream.len() - i,
        {
            let item = &stream[i];
            match parse_i32(item.field.as_str()) {
                Some(field) => {
                    data.push(
                        QueryRow {
                            measurement: item.measurement.clone(),
                            tag: item.tag.clone(),
                            field,
                        },
                    );
                },
                None => {
                    return Err(FieldError { row: i });
                },
            }
            i += 1;
        }
        Ok(QueryData { name: self.name.clone(), data })
    }
}

/// A record is called `name` exactly where the schema and the object both
/// have a field of that name.
pub proof fn lemma_record_named(
    names: Seq<Seq<char>>,
    obj: Seq<(Seq<char>, String)>,
    name: Seq<char>,
)
    ensures
        has_name(spec_records(names, obj), name) <==> names.contains(name) && has_name(obj, name),
    decreases names.len(),
{
    let records = spec_records(names, obj);
    if names.len() > 0 {
        let front = spec_records(names.drop_last(), obj);
        lemma_record_named(names.drop_last(), obj, name);
        if has_name(records, name) {
            let k = choose|k: int| 0 <= k < records.len() && #[trigger] records[k].0 == name;
            if k < front.len() {
                assert(front[k].0 == name);
                let j = choose|j: int|
                    0 <= j < names.drop_last().len() && names.drop_last()[j] == name;
                assert(names[j] == name);
            } else {
                assert(names[names.len() - 1] == name);
            }
        }
        if names.contains(name) && has_name(obj, name) {
            let j = choose|j: int| 0 <= j < names.len() && names[j] == name;
            if j < names.len() - 1 {
                assert(names.drop_last()[j] == name);
                let k = choose|k: int| 0 <= k < front.len() && #[trigger] front[k].0 == name;
                assert(records[k].0 == name);
            } else {
                assert(records[records.len() - 1].0 == name);
            }
        }
    }
}

} // verus!
