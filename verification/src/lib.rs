//! Fragmentation of a time-stamped RDF member stream into linked TREE documents.
//!
//! The library holds the decisions: how triples are grouped into members, which
//! fragment receives a member, when caches are flushed and which relations tie
//! the fragments together. Every change to the output directory is described by
//! a [`fragmentation::action::FileAction`]; the caller carries the actions out.

pub mod config;
pub mod error;
pub mod fragmentation;
pub mod member;
pub mod parse_datadump;
pub mod pattern;
pub mod rdf;
pub mod read_datadump;
pub mod text;
pub mod time;
pub mod tree;
