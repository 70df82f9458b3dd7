//! A persistent storage layer for a small set of typed records, laid out in
//! one growable linear memory that survives process restarts.
//!
//! The layer is built from four primitives: a region allocator that carves
//! the linear memory into disjoint logical regions, a bounded binary codec
//! that every stored record passes through, a persistent scalar cell that
//! mints identifiers, and a persistent ordered map keyed by identifier. The
//! record service composes them into create, fetch, update, delete and
//! aggregate operations.

pub mod record;
pub mod text;
pub mod codec;
pub mod region;
pub mod cell_store;
pub mod map_store;
pub mod service;
