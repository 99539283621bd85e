//! The bucket registry and the store that works on it.
//!
//! The store never talks to the server itself. Each operation changes the
//! registry and says what is to be asked of the server; the caller asks, and
//! hands back what the server said.

use vstd::prelude::*;
use crate::bucket::{BucketMeta, _Bucket};
use crate::document::{lemma_dict_view, DocView, Document};
use crate::engine::PyEngine;
use crate::field_type::SchemaError;
use crate::schema::{spec_parse_schema, Fields, Schema};
use crate::table::{
    distinct_names, has_name, lemma_position, lemma_put, lemma_put_other, lemma_put_same_names,
    lemma_same_names, lemma_without_same_names, lookup, put, same_names, value_of, without, Table,
};
use crate::text::same_text;

verus! {

/// The schemas of a run of named bucket settings.
pub open spec fn metas_view(metas: Seq<(Seq<char>, BucketMeta)>) -> Seq<(Seq<char>, Fields)> {
    Seq::new(metas.len(), |i: int| (metas[i].0, metas[i].1@))
}

/// Putting bucket settings under a name puts their schema under it.
proof fn lemma_metas_view_put(metas: Seq<(Seq<char>, BucketMeta)>, name: Seq<char>, meta: BucketMeta)
    ensures
        metas_view(put(metas, name, meta)) == put(metas_view(metas), name, meta@),
{
    lemma_same_names(metas, metas_view(metas), name);
    lemma_position(metas, name);
    assert(metas_view(put(metas, name, meta)) =~= put(metas_view(metas), name, meta@));
}

/// Dropping a name from bucket settings drops it from their schemas.
proof fn lemma_metas_view_without(metas: Seq<(Seq<char>, BucketMeta)>, name: Seq<char>)
    ensures
        metas_view(without(metas, name)) == without(metas_view(metas), name),
{
    lemma_same_names(metas, metas_view(metas), name);
    lemma_position(metas, name);
    assert(metas_view(without(metas, name)) =~= without(metas_view(metas), name));
}

/// The model name that a schema document carries as its `title`.
pub open spec fn spec_title(d: DocView) -> Result<Seq<char>, SchemaError> {
    match d {
        DocView::Dict(entries) => {
            if !has_name(entries, "title"@) {
                Err(SchemaError::MissingTitle)
            } else {
                match value_of(entries, "title"@) {
                    DocView::Text(title) => Ok(title),
                    _ => Err(SchemaError::NotText),
                }
            }
        },
        _ => Err(SchemaError::NotAMapping),
    }
}

/// The model that a schema document declares: its name and its schema.
pub open spec fn spec_model(d: DocView) -> Result<(Seq<char>, Fields), SchemaError> {
    match spec_title(d) {
        Err(e) => Err(e),
        Ok(title) => match spec_parse_schema(d) {
            Err(e) => Err(e),
            Ok(schema) => Ok((title, schema)),
        },
    }
}

/// How many schema documents at the front of a run declare a model.
pub open spec fn loadable(docs: Seq<DocView>) -> int
    decreases docs.len(),
{
    if docs.len() == 0 {
        0
    } else if spec_model(docs[0]) is Err {
        0
    } else {
        1 + loadable(docs.drop_first())
    }
}

/// The schemas by name after the models of `docs` were registered in
/// order, a later model of a name replacing the earlier one.
pub open spec fn loaded_schemas(
    schemas: Seq<(Seq<char>, Fields)>,
    docs: Seq<DocView>,
) -> Seq<(Seq<char>, Fields)>
    decreases docs.len(),
{
    if docs.len() == 0 {
        schemas
    } else {
        let model = spec_model(docs.last())->Ok_0;
        put(loaded_schemas(schemas, docs.drop_last()), model.0, model.1)
    }
}

/// The type handles by name after the models of `docs` were registered
/// in order with the handles of `handles`.
pub open spec fn loaded_models<T>(
    models: Seq<(Seq<char>, T)>,
    docs: Seq<DocView>,
    handles: Seq<T>,
) -> Seq<(Seq<char>, T)>
    decreases docs.len(),
{
    if docs.len() == 0 {
        models
    } else {
        put(
            loaded_models(models, docs.drop_last(), handles.drop_last()),
            spec_model(docs.last())->Ok_0.0,
            handles.last(),
        )
    }
}

/// `loadable` counts the documents before the first that declares no model.
pub proof fn lemma_loadable(docs: Seq<DocView>)
    ensures
        0 <= loadable(docs) <= docs.len(),
        forall|k: int| 0 <= k < loadable(docs) ==> spec_model(#[trigger] docs[k]) is Ok,
        loadable(docs) < docs.len() ==> spec_model(docs[loadable(docs)]) is Err,
    decreases docs.len(),
{
    if docs.len() > 0 && spec_model(docs[0]) is Ok {
        let rest = docs.drop_first();
        lemma_loadable(rest);
        assert forall|k: int| 0 <= k < loadable(docs) implies spec_model(
            #[trigger] docs[k],
        ) is Ok by {
            if k > 0 {
                assert(rest[k - 1] == docs[k]);
            }
        }
        if loadable(docs) < docs.len() {
            assert(rest[loadable(rest)] == docs[loadable(docs)]);
        }
    }
}

/// Where the first `i` documents declare models and the next one, if
/// there is one, does not, `i` documents are loadable.
pub proof fn lemma_loadable_is(docs: Seq<DocView>, i: int)
    requires
        0 <= i <= docs.len(),
        forall|k: int| 0 <= k < i ==> spec_model(#[trigger] docs[k]) is Ok,
        i < docs.len() ==> spec_model(docs[i]) is Err,
    ensures
        loadable(docs) == i,
{
    lemma_loadable(docs);
    let n = loadable(docs);
    if n < i {
        assert(spec_model(docs[n]) is Ok);
    }
    if n > i {
        assert(spec_model(docs[i]) is Ok);
    }
}

/// Registration under one name twice leaves one entry, and the later
/// schema: after a run of models was registered, no name stands twice,
/// and the model at `i` is the one found under its name unless a later
/// model has the same name.
pub proof fn lemma_last_registration_wins(
    schemas: Seq<(Seq<char>, Fields)>,
    docs: Seq<DocView>,
    i: int,
)
    requires
        distinct_names(schemas),
        0 <= i < docs.len(),
        forall|k: int| 0 <= k < docs.len() ==> spec_model(#[trigger] docs[k]) is Ok,
        forall|j: int|
            i < j < docs.len() ==> spec_model(#[trigger] docs[j])->Ok_0.0 != spec_model(
                docs[i],
            )->Ok_0.0,
    ensures
        distinct_names(loaded_schemas(schemas, docs)),
        lookup(loaded_schemas(schemas, docs), spec_model(docs[i])->Ok_0.0) == Some(
            spec_model(docs[i])->Ok_0.1,
        ),
    decreases docs.len(),
{
    let front = docs.drop_last();
    let last = spec_model(docs.last())->Ok_0;
    lemma_loaded_distinct(schemas, front);
    lemma_put(loaded_schemas(schemas, front), last.0, last.1);
    if i < docs.len() - 1 {
        assert forall|k: int| 0 <= k < front.len() implies spec_model(
            #[trigger] front[k],
        ) is Ok by {
            assert(front[k] == docs[k]);
        }
        assert forall|j: int| i < j < front.len() implies spec_model(
            #[trigger] front[j],
        )->Ok_0.0 != spec_model(front[i])->Ok_0.0 by {
            assert(front[j] == docs[j]);
            assert(front[i] == docs[i]);
        }
        lemma_last_registration_wins(schemas, front, i);
        assert(docs[docs.len() - 1] == docs.last());
        lemma_put_other(
            loaded_schemas(schemas, front),
            last.0,
            last.1,
            spec_model(docs[i])->Ok_0.0,
        );
    }
}

/// Registering models leaves no name twice.
pub proof fn lemma_loaded_distinct(
    schemas: Seq<(Seq<char>, Fields)>,
    docs: Seq<DocView>,
)
    requires
        distinct_names(schemas),
    ensures
        distinct_names(loaded_schemas(schemas, docs)),
    decreases docs.len(),
{
    if docs.len() > 0 {
        let last = spec_model(docs.last())->Ok_0;
        lemma_loaded_distinct(schemas, docs.drop_last());
        lemma_put(loaded_schemas(schemas, docs.drop_last()), last.0, last.1);
    }
}

/// The schema documents of a run of models to load.
pub open spec fn base_docs<T>(base: Seq<(Document, T)>) -> Seq<DocView> {
    Seq::new(base.len(), |i: int| base[i].0@)
}

/// The type handles of a run of models to load.
pub open spec fn base_handles<T>(base: Seq<(Document, T)>) -> Seq<T> {
    Seq::new(base.len(), |i: int| base[i].1)
}

/// The models that are known by name: for each its bucket settings and
/// the handle of its type.
pub struct _Registry<T> {
    buckets_meta: Table<BucketMeta>,
    model_type_map: Table<T>,
}

impl<T> _Registry<T> {
    /// The schema of each model, by the model's name.
    pub closed spec fn schemas(&self) -> Seq<(Seq<char>, Fields)> {
        metas_view(self.buckets_meta@)
    }

    /// The type handle of each model, by the model's name.
    pub closed spec fn models(&self) -> Seq<(Seq<char>, T)> {
        self.model_type_map@
    }

    /// Schemas and type handles are kept under the same names, each name once.
    #[verifier::type_invariant]
    pub open spec fn inv(self) -> bool {
        &&& same_names(self.schemas(), self.models())
        &&& distinct_names(self.schemas())
    }

    /// The registry that knows no model.
    pub fn new() -> (r: Self)
        ensures
            r.schemas() == Seq::<(Seq<char>, Fields)>::empty(),
            r.models() == Seq::<(Seq<char>, T)>::empty(),
    {
        let metas: Table<BucketMeta> = Table::new();
        let models: Table<T> = Table::new();
        proof {
            assert(metas_view(metas@) =~= Seq::<
                (Seq<char>, Fields),
            >::empty());
        }
        _Registry { buckets_meta: metas, model_type_map: models }
    }

    /// Makes a registry of two tables that carry the same names.
    fn assemble(metas: Table<BucketMeta>, models: Table<T>) -> (r: Self)
        requires
            same_names(metas@, models@),
        ensures
            r.schemas() == metas_view(metas@),
            r.models() == models@,
    {
        proof {
            use_type_invariant(&metas);
            lemma_same_names(metas@, metas_view(metas@), Seq::empty());
        }
        _Registry { buckets_meta: metas, model_type_map: models }
    }

    /// Puts a model under `name`, replacing the model that was there.
    pub fn register(&mut self, name: String, meta: BucketMeta, model: T)
        ensures
            final(self).schemas() == put(old(self).schemas(), name@, meta@),
            final(self).models() == put(old(self).models(), name@, model),
    {
        let key = name.clone();
        let mut taken = _Registry::new();
        std::mem::swap(self, &mut taken);
        proof {
            use_type_invariant(&taken);
        }
        let _Registry { buckets_meta: mut metas, model_type_map: mut models } = taken;
        proof {
            lemma_same_names(metas@, metas_view(metas@), name@);
            assert forall|k: int| 0 <= k < metas@.len() implies (#[trigger] metas@[k]).0
                == (#[trigger] models@[k]).0 by {
                assert(metas_view(metas@)[k].0 == metas@[k].0);
            }
            lemma_put_same_names(metas@, models@, name@, meta, model);
            lemma_metas_view_put(metas@, name@, meta);
        }
        metas.insert(name, meta);
        models.insert(key, model);
        *self = Self::assemble(metas, models);
    }

    /// Drops the model called `name`, if there is one.
    pub fn unregister(&mut self, name: &str)
        ensures
            final(self).schemas() == without(old(self).schemas(), name@),
            final(self).models() == without(old(self).models(), name@),
    {
        let mut taken = _Registry::new();
        std::mem::swap(self, &mut taken);
        proof {
            use_type_invariant(&taken);
        }
        let _Registry { buckets_meta: mut metas, model_type_map: mut models } = taken;
        proof {
            lemma_same_names(metas@, metas_view(metas@), name@);
            assert forall|k: int| 0 <= k < metas@.len() implies (#[trigger] metas@[k]).0
                == (#[trigger] models@[k]).0 by {
                assert(metas_view(metas@)[k].0 == metas@[k].0);
            }
            lemma_without_same_names(metas@, models@, name@);
            lemma_metas_view_without(metas@, name@);
        }
        metas.remove(name);
        models.remove(name);
        *self = Self::assemble(metas, models);
    }

    /// How many models are known.
    pub fn len(&self) -> (n: usize)
        ensures
            n == self.schemas().len(),
    {
        self.buckets_meta.len()
    }

    /// The bucket of the model called `name`.
    pub fn get(&self, name: &str) -> (r: Option<_Bucket>)
        ensures
            r is Some <==> has_name(self.schemas(), name@),
            r matches Some(bucket) ==> bucket.name@ == name@ && bucket.meta@ == value_of(
                self.schemas(),
                name@,
            ),
    {
        proof {
            lemma_same_names(self.buckets_meta@, metas_view(self.buckets_meta@), name@);
            lemma_position(self.buckets_meta@, name@);
        }
        match self.buckets_meta.get(name) {
            Some(meta) => Some(_Bucket::new(String::from_str(name), meta.clone())),
            None => None,
        }
    }

    /// The bucket of the model at `i`.
    pub fn bucket_at(&self, i: usize) -> (r: _Bucket)
        requires
            i < self.schemas().len(),
        ensures
            r.name@ == self.schemas()[i as int].0,
            r.meta@ == self.schemas()[i as int].1,
    {
        _Bucket::new(self.buckets_meta.name_at(i).clone(), self.buckets_meta.value_at(i).clone())
    }

    /// The type handle of the model called `name`.
    pub fn model_type(&self, name: &str) -> (r: Option<&T>)
        ensures
            r is Some <==> has_name(self.models(), name@),
            r matches Some(model) ==> *model == value_of(self.models(), name@),
    {
        self.model_type_map.get(name)
    }

    /// Registers each model of `base`, in order, under the `title` of its
    /// schema document, and stops at the first document that declares no
    /// model. The models before it stay registered.
    pub fn _autoload(&mut self, base: Vec<(Document, T)>) -> (r: Result<(), SchemaError>)
        ensures
            r is Ok <==> loadable(base_docs(base@)) == base@.len(),
            r matches Err(e) ==> spec_model(base_docs(base@)[loadable(base_docs(base@))]) == Err::<
                (Seq<char>, Fields),
                SchemaError,
            >(e),
            final(self).schemas() == loaded_schemas(
                old(self).schemas(),
                base_docs(base@).take(loadable(base_docs(base@))),
            ),
            final(self).models() == loaded_models(
                old(self).models(),
                base_docs(base@).take(loadable(base_docs(base@))),
                base_handles(base@).take(loadable(base_docs(base@))),
            ),
    {
        let ghost docs = base_docs(base@);
        let ghost handles = base_handles(base@);
        let ghost all = base@;
        let mut rest = base;
        let mut i: usize = 0;
        let total = rest.len();
        while i < total
            invariant
                i <= total,
                total == all.len(),
                all == base@,
                docs == base_docs(all),
                handles == base_handles(all),
                rest@ == all.skip(i as int),
                forall|k: int| 0 <= k < i ==> spec_model(#[trigger] docs[k]) is Ok,
                self.schemas() == loaded_schemas(old(self).schemas(), docs.take(i as int)),
                self.models() == loaded_models(
                    old(self).models(),
                    docs.take(i as int),
                    handles.take(i as int),
                ),
            decreases total - i,
        {
            let (doc, model) = rest.remove(0);
            proof {
                assert(doc == all[i as int].0);
                assert(model == all[i as int].1);
                assert(rest@ =~= all.skip(i + 1));
                assert(docs.take(i + 1).drop_last() =~= docs.take(i as int));
                assert(handles.take(i + 1).drop_last() =~= handles.take(i as int));
                assert(docs[i as int] == doc@);
                assert(docs.take(i + 1).last() == doc@);
                assert(handles.take(i + 1).last() == model);
            }
            let loaded = match load_model(&doc) {
                Ok(loaded) => loaded,
                Err(e) => {
                    proof {
                        lemma_loadable_is(docs, i as int);
                    }
                    return Err(e);
                },
            };
            let (name, schema) = loaded;
            self.register(name, BucketMeta::new(Box::new(schema)), model);
            i += 1;
        }
        proof {
            lemma_loadable_is(docs, i as int);
            assert(docs.take(i as int) =~= docs);
            assert(handles.take(i as int) =~= handles);
        }
        Ok(())
    }
}

/// Reads the model that a schema document declares.
pub fn load_model(doc: &Document) -> (r: Result<(String, Schema), SchemaError>)
    ensures
        r matches Ok(model) ==> spec_model(doc@) == Ok::<(Seq<char>, Fields), SchemaError>(
            (model.0@, model.1@),
        ),
        r matches Err(e) ==> spec_model(doc@) == Err::<(Seq<char>, Fields), SchemaError>(e),
{
    let entries = match doc {
        Document::Dict(entries) => entries,
        _ => {
            return Err(SchemaError::NotAMapping);
        },
    };
    proof {
        lemma_dict_view(*entries, "title"@);
    }
    let title = match entries.get("title") {
        None => {
            return Err(SchemaError::MissingTitle);
        },
        Some(Document::Text(title)) => title.clone(),
        Some(_) => {
            return Err(SchemaError::NotText);
        },
    };
    match Schema::from_py_schema(doc) {
        Ok(schema) => Ok((title, schema)),
        Err(e) => Err(e),
    }
}

/// What the server says of its health.
#[derive(Clone, Copy, Debug, PartialEq, Eq)]
pub enum Status {
    Pass,
    Fail,
}

/// A bucket as the server lists it.
#[derive(Debug)]
pub struct RemoteBucket {
    pub name: String,
    pub id: Option<String>,
}

/// The request to make a bucket at the server.
#[derive(Debug, PartialEq, Eq)]
pub struct PostBucket {
    pub org_id: String,
    pub name: String,
}

/// Why an operation of the store failed.
#[derive(Debug, PartialEq, Eq)]
pub enum StoreError {
    /// No model of this name is registered.
    NotFound(String),
    /// The server could not be asked, or refused; with what it said.
    Transport(String),
}

impl StoreError {
    /// What went wrong, in words.
    pub fn message(&self) -> (r: String)
        ensures
            r@ == match *self {
                StoreError::NotFound(name) => name@ + " does not exist in the registry"@,
                StoreError::Transport(text) => text@,
            },
    {
        match self {
            StoreError::NotFound(name) => {
                let mut r = name.clone();
                r.append(" does not exist in the registry");
                r
            },
            StoreError::Transport(text) => text.clone(),
        }
    }
}

/// What is left to do at the server once it has listed its buckets.
#[derive(Debug, PartialEq, Eq)]
pub enum DeleteStep {
    /// Delete the bucket with this id.
    Remove(String),
    /// Nothing: the deletion is over, and this is how it ended.
    Finished(Result<(), StoreError>),
}

/// The place of the first listed bucket called `name`, or the length
/// where none is.
pub open spec fn listed_at(listing: Seq<RemoteBucket>, name: Seq<char>) -> int
    decreases listing.len(),
{
    if listing.len() == 0 {
        0
    } else if listing[0].name@ == name {
        0
    } else {
        1 + listed_at(listing.drop_first(), name)
    }
}

/// The id of the remote bucket to delete for the model called `name`: that
/// of the first listed bucket of that name, if there is such a bucket and
/// it has an id.
pub open spec fn spec_doomed(listing: Seq<RemoteBucket>, name: Seq<char>) -> Option<Seq<char>> {
    let at = listed_at(listing, name);
    if at < listing.len() {
        match listing[at].id {
            Some(id) => Some(id@),
            None => None,
        }
    } else {
        None
    }
}

/// `listed_at` finds the first listed bucket of that name.
pub proof fn lemma_listed_at(listing: Seq<RemoteBucket>, name: Seq<char>)
    ensures
        0 <= listed_at(listing, name) <= listing.len(),
        listed_at(listing, name) < listing.len() ==> listing[listed_at(listing, name)].name@
            == name,
        forall|j: int| 0 <= j < listed_at(listing, name) ==> (#[trigger] listing[j]).name@ != name,
    decreases listing.len(),
{
    if listing.len() > 0 && listing[0].name@ != name {
        let rest = listing.drop_first();
        lemma_listed_at(rest, name);
        let p = listed_at(rest, name);
        assert forall|j: int| 0 <= j < p + 1 implies (#[trigger] listing[j]).name@ != name by {
            if j > 0 {
                assert(rest[j - 1] == listing[j]);
            }
        }
        if p < rest.len() {
            assert(rest[p] == listing[p + 1]);
        }
    }
}

/// A deletion does not depend on a bucket at the server: where no listed
/// bucket has the model's name, nothing is to be deleted there; and what
/// is to be deleted is always the id of a listed bucket of that name.
pub proof fn lemma_doomed_is_listed(listing: Seq<RemoteBucket>, name: Seq<char>)
    ensures
        (forall|i: int| 0 <= i < listing.len() ==> (#[trigger] listing[i]).name@ != name)
            ==> spec_doomed(listing, name) is None,
        spec_doomed(listing, name) matches Some(id) ==> exists|i: int|
            0 <= i < listing.len() && (#[trigger] listing[i]).name@ == name && listing[i].id
                is Some && listing[i].id->0@ == id,
{
    lemma_listed_at(listing, name);
    let at = listed_at(listing, name);
    if at < listing.len() {
        assert(listing[at].name@ == name);
    }
}

/// The id of the remote bucket to delete for the model called `name`.
pub fn doomed(listing: &Vec<RemoteBucket>, name: &str) -> (r: Option<String>)
    ensures
        r is Some <==> spec_doomed(listing@, name@) is Some,
        r matches Some(id) ==> spec_doomed(listing@, name@) == Some(id@),
{
    let mut i: usize = 0;
    while i < listing.len()
        invariant
            i <= listing.len(),
            forall|j: int| 0 <= j < i ==> (#[trigger] listing@[j]).name@ != name@,
        decreases listing.len() - i,
    {
        if same_text(listing[i].name.as_str(), name) {
            proof {
                lemma_listed_at(listing@, name@);
                assert(listing@[i as int].name@ == name@);
            }
            return match &listing[i].id {
                Some(id) => Some(id.clone()),
                None => None,
            };
        }
        i += 1;
    }
    proof {
        lemma_listed_at(listing@, name@);
    }
    None
}

/// The store: the connection parameters and the registry.
pub struct _Store<T> {
    bind: PyEngine,
    registry: _Registry<T>,
}

impl<T> _Store<T> {
    /// The connection parameters.
    pub closed spec fn bind(&self) -> PyEngine {
        self.bind
    }

    /// The registry.
    pub closed spec fn registry(&self) -> _Registry<T> {
        self.registry
    }

    /// A store for the server at `bind`, working on `registry`.
    pub fn new(bind: PyEngine, registry: _Registry<T>) -> (r: Self)
        ensures
            r.bind() == bind,
            r.registry() == registry,
    {
        _Store { bind, registry }
    }

    /// The connection parameters.
    pub fn engine(&self) -> (r: &PyEngine)
        ensures
            *r == self.bind(),
    {
        &self.bind
    }

    /// Reads what the server said of its health: healthy where it passed.
    pub fn healthy(outcome: Result<Status, String>) -> (r: Result<bool, StoreError>)
        ensures
            r == match outcome {
                Ok(status) => Ok::<bool, StoreError>(status == Status::Pass),
                Err(text) => Err::<bool, StoreError>(StoreError::Transport(text)),
            },
    {
        match outcome {
            Ok(Status::Pass) => Ok(true),
            Ok(Status::Fail) => Ok(false),
            Err(text) => Err(StoreError::Transport(text)),
        }
    }

    /// The bucket of the model called `model_name`, if it is registered.
    pub fn get_bucket(&mut self, model_name: &str) -> (r: Result<_Bucket, StoreError>)
        ensures
            final(self).bind() == old(self).bind(),
            final(self).registry() == old(self).registry(),
            r is Ok <==> has_name(old(self).registry().schemas(), model_name@),
            r matches Ok(bucket) ==> bucket.name@ == model_name@ && bucket.meta@ == value_of(
                old(self).registry().schemas(),
                model_name@,
            ),
            r matches Err(e) ==> e matches StoreError::NotFound(name) && name@ == model_name@,
    {
        match self.registry.get(model_name) {
            Some(bucket) => Ok(bucket),
            None => Err(StoreError::NotFound(String::from_str(model_name))),
        }
    }

    /// The buckets of all registered models, in the order of registration.
    pub fn get_buckets(&mut self) -> (r: Vec<_Bucket>)
        ensures
            final(self).bind() == old(self).bind(),
            final(self).registry() == old(self).registry(),
            r@.len() == old(self).registry().schemas().len(),
            forall|k: int|
                0 <= k < r@.len() ==> {
                    &&& (#[trigger] r@[k]).name@ == old(self).registry().schemas()[k].0
                    &&& r@[k].meta@ == old(self).registry().schemas()[k].1
                },
    {
        let mut buckets: Vec<_Bucket> = Vec::new();
        let mut i: usize = 0;
        let n = self.registry.len();
        while i < n
            invariant
                i <= n,
                n == self.registry.schemas().len(),
                buckets@.len() == i,
                forall|k: int|
                    0 <= k < i ==> {
                        &&& (#[trigger] buckets@[k]).name@ == self.registry.schemas()[k].0
                        &&& buckets@[k].meta@ == self.registry.schemas()[k].1
                    },
            decreases n - i,
        {
            buckets.push(self.registry.bucket_at(i));
            i += 1;
        }
        buckets
    }

    /// Registers the model called `model_name` with the schema that
    /// `schema` stands for, and gives the request to make its bucket at
    /// the server. The model is registered before the server is asked,
    /// and stays registered whatever the server says. Where `schema`
    /// stands for no schema, nothing changes.
    pub fn create_bucket(
        &mut self,
        model_name: String,
        schema: &Document,
        model: T,
    ) -> (r: Result<PostBucket, SchemaError>)
        ensures
            final(self).bind() == old(self).bind(),
            r matches Err(e) ==> {
                &&& spec_parse_schema(schema@) == Err::<Fields, SchemaError>(e)
                &&& final(self).registry() == old(self).registry()
            },
            r matches Ok(request) ==> {
                &&& spec_parse_schema(schema@) is Ok
                &&& final(self).registry().schemas() == put(
                    old(self).registry().schemas(),
                    model_name@,
                    spec_parse_schema(schema@)->Ok_0,
                )
                &&& final(self).registry().models() == put(
                    old(self).registry().models(),
                    model_name@,
                    model,
                )
                &&& request.org_id@ == old(self).bind().org_id@
                &&& request.name@ == model_name@
            },
    {
        let schema = match Schema::from_py_schema(schema) {
            Ok(schema) => schema,
            Err(e) => {
                return Err(e);
            },
        };
        let request = PostBucket { org_id: self.bind.org_id.clone(), name: model_name.clone() };
        let meta = BucketMeta::new(Box::new(schema));
        self.registry.register(model_name, meta, model);
        Ok(request)
    }

    /// Forgets the model called `model_name`, whether it was registered
    /// or not. The server's buckets are to be listed next.
    pub fn delete_bucket(&mut self, model_name: &str)
        ensures
            final(self).bind() == old(self).bind(),
            final(self).registry().schemas() == without(
                old(self).registry().schemas(),
                model_name@,
            ),
            final(self).registry().models() == without(old(self).registry().models(), model_name@),
    {
        self.registry.unregister(model_name);
    }

    /// Says what is left of a deletion once the server was asked for its
    /// buckets: to delete the first listed bucket called `model_name`,
    /// where there is one and it has an id. A model without a bucket at
    /// the server is deleted already. Only a failed listing fails.
    pub fn delete_listed(
        listing: Result<Vec<RemoteBucket>, String>,
        model_name: &str,
    ) -> (r: DeleteStep)
        ensures
            listing matches Err(text) ==> r == DeleteStep::Finished(
                Err(StoreError::Transport(text)),
            ),
            listing matches Ok(buckets) ==> match spec_doomed(buckets@, model_name@) {
                Some(id) => r matches DeleteStep::Remove(found) && found@ == id,
                None => r == DeleteStep::Finished(Ok(())),
            },
    {
        match listing {
            Err(text) => DeleteStep::Finished(Err(StoreError::Transport(text))),
            Ok(buckets) => match doomed(&buckets, model_name) {
                Some(id) => DeleteStep::Remove(id),
                None => DeleteStep::Finished(Ok(())),
            },
        }
    }

    /// Reads what the server said to a request that gives nothing back:
    /// its failure is handed on as it is.
    pub fn settle(outcome: Result<(), String>) -> (r: Result<(), StoreError>)
        ensures
            r == match outcome {
                Ok(_) => Ok::<(), StoreError>(()),
                Err(text) => Err::<(), StoreError>(StoreError::Transport(text)),
            },
    {
        match outcome {
            Ok(_) => Ok(()),
            Err(text) => Err(StoreError::Transport(text)),
        }
    }
}

} // verus!
