//! A package-management toolkit for a conda-style ecosystem, centred on a
//! repodata gateway: given a set of root package names, it recursively
//! produces every package record in a set of channels and platforms that the
//! roots transitively depend on.
//!
//! The crate models the data (package names, channels, platforms, records),
//! derives sparse-index shard paths, encodes and decodes the binary name and
//! dependency manifests, parses shard bodies, and drives the traversal and the
//! caching HTTP fetcher as explicit state machines. I/O itself (file reads,
//! HTTP requests) is left to the embedding program, which feeds results back
//! into the state machines as plain values.

pub mod channel;
pub mod coalesce;
pub mod fetcher;
pub mod gateway;
pub mod history;
pub mod manifest;
pub mod names;
pub mod outside;
pub mod platform;
pub mod records;
pub mod render;
pub mod shard;
pub mod sparse_index;
pub mod yaml;
