//! Heap-side filtering for full-text search results: the decision logic
//! that turns the documents of an indexed search, together with what the
//! heap says about each of them, into the documents that are returned.

pub mod docset;
pub mod filter;
pub mod scorer;
pub mod visibility;
