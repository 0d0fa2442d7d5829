//! Indexing and query engine for a catalog of access-control roles and the
//! permissions they grant.

pub mod catalog;
pub mod engine;
pub mod errors;
pub mod fetch;
pub mod keywords;
pub mod models;
pub mod ngram;
pub mod order;
pub mod score;
pub mod segments;
pub mod service;
pub mod table;
pub mod text;
pub mod transformer;
