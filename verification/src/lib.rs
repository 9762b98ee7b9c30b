//! A declarative field-pipeline engine for schema-driven records: models
//! declare typed fields with visibility flags, defaults and ordered
//! value-transforming pipelines; live objects run those pipelines on
//! assignment and save, validate themselves, persist to an in-memory store,
//! and dispatch lifecycle hooks whose nested saves are bounded; principals
//! authenticate through a credential pipeline against persisted records.

pub mod auth;
pub mod builder;
pub mod laws;
pub mod object;
pub mod outside;
pub mod pipeline;
pub mod schema;
pub mod store;
pub mod value;

use vstd::prelude::*;

verus! {

/// Lifecycle state of a live object.
#[derive(Clone, Copy, PartialEq, Eq, Structural, Debug)]
pub enum Lifecycle {
    New,
    Saving,
    Saved,
}

} // verus!
