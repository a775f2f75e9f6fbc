//! Core of an interface-description compiler: an in-memory model for a
//! JSON-based service IDL, a recursive type resolver that turns abstract type
//! descriptions into Rust type expressions, a dependency extractor that
//! computes the cross-service symbols each generated module must reference,
//! and a partitioner that recovers classes with methods from a flat list of
//! named procedures.  Reading input files and rendering templates live outside
//! this crate; everything here is pure computation with proved contracts.

pub mod strkit;
pub mod entries;
pub mod model;
pub mod resolve;
pub mod deps;
pub mod partition;
pub mod context;
pub mod brackets;
