//! Query resolution and SQL generation for a multidimensional analytics
//! server: a cube catalog, a metadata cache, a permissive-query resolver, a
//! schema binder and a multi-pass SQL generator.
pub mod text;
pub mod names;
pub mod schema;
pub mod sql;
pub mod query;
pub mod binder;
pub mod config;
pub mod cache;
pub mod resolver;
pub mod probe;
pub mod result;
