//! A database table with support for multiple indices, each of which is a B+ tree.
//!
//! A table has a primary index, which holds all of its columns, and any number of auxiliary ones,
//! which hold some of them in another order. This library decides which schemata make a table,
//! in which order the indices are opened and locked, how the values of a row are spread over
//! the indices and gathered again, and which keys of an index lie in a range of rows.
//! Waiting for locks and reading and writing blocks is left to the caller.

pub mod equality;
pub mod error;
pub mod index_map;
pub mod laws;
pub mod plan;
pub mod schema;
pub mod storage;
pub mod table;
pub mod text;
