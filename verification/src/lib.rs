//! A cache of the inlay hints that a language server has supplied for the excerpts of an
//! editor.
//!
//! The cache decides which hints to fetch, which fetched hints are new, which cached hints
//! are out of date, and what has to be inserted into or removed from the editor so that it
//! shows exactly the cached hints of the kinds that its settings allow.

pub mod anchor;
pub mod cache;
pub mod clock;
pub mod hint;
pub mod laws;
pub mod maps;
pub mod order;
pub mod query;
mod sequences;
pub mod splice;
pub mod tasks;
pub mod updates;
