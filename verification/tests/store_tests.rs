use aluminum::document::Document;
use aluminum::engine::{create_engine, PyEngine};
use aluminum::field_type::{FieldType, SchemaError};
use aluminum::store::{
    doomed, load_model, DeleteStep, PostBucket, RemoteBucket, Status, StoreError, _Registry,
    _Store,
};
use aluminum::table::Table;

fn s_text(s: &str) -> Document {
    Document::Text(s.to_string())
}

fn s_dict(entries: Vec<(&str, Document)>) -> Document {
    let mut t = Table::new();
    for (k, v) in entries {
        t.insert(k.to_string(), v);
    }
    Document::Dict(t)
}

fn model_doc(title: &str, fields: &[(&str, &str)]) -> Document {
    let props = fields.iter().map(|(n, t)| (*n, s_dict(vec![("type", s_text(t))]))).collect();
    s_dict(vec![("title", s_text(title)), ("properties", s_dict(props))])
}

fn engine() -> PyEngine {
    create_engine("http://localhost:8086".to_string(), "token".to_string(), "org".to_string())
}

fn listed(name: &str, id: Option<&str>) -> RemoteBucket {
    RemoteBucket { name: name.to_string(), id: id.map(|s| s.to_string()) }
}

#[test]
fn create_engine_keeps_the_parameters() {
    let e = engine();
    assert_eq!(e.host, "http://localhost:8086");
    assert_eq!(e.token, "token");
    assert_eq!(e.org_id, "org");
}

#[test]
fn registry_starts_empty() {
    let registry: _Registry<u32> = _Registry::new();
    assert_eq!(registry.len(), 0);
    assert_eq!(registry.get("Weather"), None);
    assert_eq!(registry.model_type("Weather"), None);
}

#[test]
fn autoload_registers_each_model() {
    let mut registry: _Registry<u32> = _Registry::new();
    let base = vec![
        (model_doc("Weather", &[("temp", "int")]), 1),
        (model_doc("Stock", &[("price", "number"), ("name", "str")]), 2),
    ];
    assert_eq!(registry._autoload(base), Ok(()));
    assert_eq!(registry.len(), 2);
    let weather = registry.get("Weather").unwrap();
    assert_eq!(weather.name, "Weather");
    assert_eq!(weather.meta.schema.mapping.get("temp"), Some(&FieldType::Int));
    let stock = registry.get("Stock").unwrap();
    assert_eq!(stock.meta.schema.mapping.len(), 2);
    assert_eq!(stock.meta.schema.mapping.get("price"), Some(&FieldType::Float));
    assert_eq!(registry.model_type("Weather"), Some(&1));
    assert_eq!(registry.model_type("Stock"), Some(&2));
    assert_eq!(registry.bucket_at(0).name, "Weather");
    assert_eq!(registry.bucket_at(1).name, "Stock");
}

#[test]
fn autoload_same_name_twice_keeps_the_second() {
    let mut registry: _Registry<u32> = _Registry::new();
    let base = vec![
        (model_doc("Weather", &[("temp", "int")]), 1),
        (model_doc("Weather", &[("wind", "number")]), 2),
    ];
    assert_eq!(registry._autoload(base), Ok(()));
    assert_eq!(registry.len(), 1);
    let weather = registry.get("Weather").unwrap();
    assert_eq!(weather.meta.schema.mapping.len(), 1);
    assert_eq!(weather.meta.schema.mapping.get("wind"), Some(&FieldType::Float));
    assert_eq!(weather.meta.schema.mapping.get("temp"), None);
    assert_eq!(registry.model_type("Weather"), Some(&2));
}

#[test]
fn autoload_twice_replaces() {
    let mut registry: _Registry<u32> = _Registry::new();
    assert_eq!(registry._autoload(vec![(model_doc("A", &[("x", "int")]), 1)]), Ok(()));
    assert_eq!(
        registry._autoload(vec![
            (model_doc("B", &[("y", "int")]), 2),
            (model_doc("A", &[("z", "str")]), 3),
        ]),
        Ok(())
    );
    assert_eq!(registry.len(), 2);
    assert_eq!(registry.bucket_at(0).name, "A");
    assert_eq!(registry.bucket_at(1).name, "B");
    assert_eq!(registry.get("A").unwrap().meta.schema.mapping.get("z"), Some(&FieldType::Str));
    assert_eq!(registry.model_type("A"), Some(&3));
}

#[test]
fn autoload_stops_at_the_first_bad_document() {
    let mut registry: _Registry<u32> = _Registry::new();
    let base = vec![
        (model_doc("A", &[("x", "int")]), 1),
        (s_dict(vec![("title", s_text("B"))]), 2),
        (model_doc("C", &[("y", "int")]), 3),
    ];
    assert_eq!(registry._autoload(base), Err(SchemaError::MissingProperties));
    assert_eq!(registry.len(), 1);
    assert!(registry.get("A").is_some());
    assert!(registry.get("C").is_none());
}

#[test]
fn autoload_nothing() {
    let mut registry: _Registry<u32> = _Registry::new();
    assert_eq!(registry._autoload(vec![]), Ok(()));
    assert_eq!(registry.len(), 0);
}

#[test]
fn load_model_reads_title_and_schema() {
    let (name, schema) = load_model(&model_doc("Weather", &[("temp", "int")])).unwrap();
    assert_eq!(name, "Weather");
    assert_eq!(schema.mapping.get("temp"), Some(&FieldType::Int));
}

#[test]
fn load_model_errors() {
    assert_eq!(load_model(&s_text("x")), Err(SchemaError::NotAMapping));
    assert_eq!(
        load_model(&s_dict(vec![("properties", s_dict(vec![]))])),
        Err(SchemaError::MissingTitle)
    );
    assert_eq!(
        load_model(&s_dict(vec![("title", Document::Other), ("properties", s_dict(vec![]))])),
        Err(SchemaError::NotText)
    );
    assert_eq!(
        load_model(&s_dict(vec![("title", s_text("A"))])),
        Err(SchemaError::MissingProperties)
    );
}

#[test]
fn register_and_unregister() {
    let mut registry: _Registry<&str> = _Registry::new();
    let (name, schema) = load_model(&model_doc("Weather", &[("temp", "int")])).unwrap();
    registry.register(name, aluminum::bucket::BucketMeta::new(Box::new(schema)), "handle");
    assert_eq!(registry.len(), 1);
    assert_eq!(registry.model_type("Weather"), Some(&"handle"));
    registry.unregister("Other");
    assert_eq!(registry.len(), 1);
    registry.unregister("Weather");
    assert_eq!(registry.len(), 0);
    assert_eq!(registry.model_type("Weather"), None);
    assert_eq!(registry.get("Weather"), None);
}

fn store_with(models: &[&str]) -> _Store<u32> {
    let mut registry: _Registry<u32> = _Registry::new();
    let base = models.iter().map(|m| (model_doc(m, &[("field", "int")]), 0)).collect();
    registry._autoload(base).unwrap();
    _Store::new(engine(), registry)
}

#[test]
fn store_new_keeps_engine_and_registry() {
    let store = store_with(&["Weather"]);
    assert_eq!(store.engine(), &engine());
}

#[test]
fn healthy_reads_the_status() {
    assert_eq!(_Store::<u32>::healthy(Ok(Status::Pass)), Ok(true));
    assert_eq!(_Store::<u32>::healthy(Ok(Status::Fail)), Ok(false));
    assert_eq!(
        _Store::<u32>::healthy(Err("refused".to_string())),
        Err(StoreError::Transport("refused".to_string()))
    );
}

#[test]
fn get_bucket_of_registered_model() {
    let mut store = store_with(&["Weather", "Stock"]);
    let bucket = store.get_bucket("Stock").unwrap();
    assert_eq!(bucket.name, "Stock");
    assert_eq!(bucket.meta.schema.mapping.get("field"), Some(&FieldType::Int));
}

#[test]
fn get_bucket_of_unknown_model() {
    let mut store = store_with(&["Weather"]);
    let e = store.get_bucket("Stock").unwrap_err();
    assert_eq!(e, StoreError::NotFound("Stock".to_string()));
    assert_eq!(e.message(), "Stock does not exist in the registry");
    assert_eq!(StoreError::Transport("down".to_string()).message(), "down");
}

#[test]
fn get_buckets_lists_all_in_order() {
    let mut store = store_with(&["B", "A", "C"]);
    let names: Vec<String> = store.get_buckets().into_iter().map(|b| b.name).collect();
    assert_eq!(names, vec!["B".to_string(), "A".to_string(), "C".to_string()]);
    assert_eq!(store_with(&[]).get_buckets().len(), 0);
}

#[test]
fn create_bucket_registers_and_asks_for_the_bucket() {
    let mut store = store_with(&[]);
    let request = store
        .create_bucket("Weather".to_string(), &model_doc("Weather", &[("temp", "int")]), 7)
        .unwrap();
    assert_eq!(request, PostBucket { org_id: "org".to_string(), name: "Weather".to_string() });
    let bucket = store.get_bucket("Weather").unwrap();
    assert_eq!(bucket.meta.schema.mapping.get("temp"), Some(&FieldType::Int));
}

#[test]
fn create_bucket_stays_registered_when_the_server_fails() {
    let mut store = store_with(&[]);
    store
        .create_bucket("Weather".to_string(), &model_doc("Weather", &[("temp", "int")]), 7)
        .unwrap();
    assert_eq!(
        _Store::<u32>::settle(Err("no route".to_string())),
        Err(StoreError::Transport("no route".to_string()))
    );
    assert!(store.get_bucket("Weather").is_ok());
}

#[test]
fn create_bucket_with_bad_schema_changes_nothing() {
    let mut store = store_with(&["A"]);
    let r = store.create_bucket("Weather".to_string(), &s_dict(vec![]), 7);
    assert_eq!(r, Err(SchemaError::MissingProperties));
    assert!(store.get_bucket("Weather").is_err());
    assert_eq!(store.get_buckets().len(), 1);
}

#[test]
fn create_bucket_replaces_a_registered_model() {
    let mut store = store_with(&["Weather"]);
    store
        .create_bucket("Weather".to_string(), &model_doc("Weather", &[("wind", "str")]), 7)
        .unwrap();
    assert_eq!(store.get_buckets().len(), 1);
    let bucket = store.get_bucket("Weather").unwrap();
    assert_eq!(bucket.meta.schema.mapping.get("wind"), Some(&FieldType::Str));
    assert_eq!(bucket.meta.schema.mapping.get("field"), None);
}

#[test]
fn delete_bucket_forgets_the_model() {
    let mut store = store_with(&["Weather", "Stock"]);
    store.delete_bucket("Weather");
    assert!(store.get_bucket("Weather").is_err());
    assert!(store.get_bucket("Stock").is_ok());
    store.delete_bucket("Weather");
    assert_eq!(store.get_buckets().len(), 1);
}

#[test]
fn delete_with_matching_remote_bucket() {
    let listing = vec![listed("Stock", Some("id1")), listed("Weather", Some("id2"))];
    assert_eq!(
        _Store::<u32>::delete_listed(Ok(listing), "Weather"),
        DeleteStep::Remove("id2".to_string())
    );
    assert_eq!(_Store::<u32>::settle(Ok(())), Ok(()));
}

#[test]
fn delete_without_matching_remote_bucket_succeeds() {
    let listing = vec![listed("Stock", Some("id1"))];
    assert_eq!(
        _Store::<u32>::delete_listed(Ok(listing), "Weather"),
        DeleteStep::Finished(Ok(()))
    );
    assert_eq!(
        _Store::<u32>::delete_listed(Ok(vec![]), "Weather"),
        DeleteStep::Finished(Ok(()))
    );
}

#[test]
fn delete_takes_the_first_listed_bucket_of_the_name() {
    let listing = vec![listed("Weather", None), listed("Weather", Some("id2"))];
    assert_eq!(
        _Store::<u32>::delete_listed(Ok(listing), "Weather"),
        DeleteStep::Finished(Ok(()))
    );
    let listing = vec![listed("Weather", Some("id1")), listed("Weather", Some("id2"))];
    assert_eq!(doomed(&listing, "Weather"), Some("id1".to_string()));
    assert_eq!(doomed(&listing, "weather"), None);
}

#[test]
fn delete_fails_only_where_the_listing_failed() {
    assert_eq!(
        _Store::<u32>::delete_listed(Err("timeout".to_string()), "Weather"),
        DeleteStep::Finished(Err(StoreError::Transport("timeout".to_string())))
    );
}
