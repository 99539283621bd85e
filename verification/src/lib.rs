//! Object mapping in front of a time-series store: schema descriptors,
//! record encoding, a filter-query builder and a bucket registry.

pub mod engine;
pub mod field_type;
pub mod bucket;
pub mod document;
pub mod schema;
pub mod select;
pub mod store;
pub mod table;
pub mod text;
