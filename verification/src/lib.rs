//! A library for assembling search-engine "dork" queries from structured
//! fields, filtering a catalog of named query templates by category, and
//! keeping a deduplicated, order-preserving history of generated queries.

pub mod builder;
pub mod catalog;
pub mod fields;
pub mod history;
pub mod session;
pub mod web;
