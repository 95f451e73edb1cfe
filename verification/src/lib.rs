//! Governance tooling library for a specification repository.
//!
//! The heart of the crate is the unit registry and dependency-graph
//! subsystem: loading a registry of named units, cross-validating each
//! unit's self-declared metadata against the registry, building the
//! declared dependency graph, and verifying that it forms a DAG,
//! reporting the exact cycle when one exists.  Around that core sit the
//! pure parts of the other governance commands: header validation,
//! no-debt text scanning, report aggregation and manifest hashing.

pub mod enforce;
pub mod graph;
pub mod header;
pub mod manifest;
pub mod report;
pub mod text;
pub mod unit;
