//! A small single-user inventory management library: an in-memory product and
//! transaction store with invariant-preserving mutation, a credential store
//! gating the manager-only operations, plain-text reports, and a canonical
//! JSON rendering of both persisted documents.

pub mod auth;
pub mod codec;
pub mod errors;
pub mod fmt;
pub mod models;
pub mod parse;
pub mod reports;
pub mod store;

mod ext;
