//! Column-abstraction core of an in-process analytical engine.
//!
//! A type-erased column value ([`series::Series`]) dispatches every operation
//! to a concrete physical column store.  The binary store
//! ([`chunked::BinaryChunked`]) implements the full operation set: chunked
//! storage with validity bitmaps, total equality and total ordering over
//! elements (null included), hashing, sorting, grouping and uniqueness.

pub mod adapters;
pub mod chunked;
pub mod dtype;
pub mod group;
pub mod hash;
pub mod int64;
pub mod ops;
pub mod series;
pub mod sort;
