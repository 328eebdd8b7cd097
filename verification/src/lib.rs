//! A content-addressed tag store: hashes of opaque content carry sets of
//! string tags.
//!
//! - `digest`, `tag`: the values, and what makes them valid.
//! - `error`: the errors of the operations and the conditions reported for
//!   them.
//! - `config`: the settings of a service and their defaults.
//! - `tables`: the state of the store as three tables of rows, with its
//!   invariant, and what each statement does to it.
//! - `store`: the store in memory, with the resolver of entities.
//! - `plan`: attaching tags as a conversation with a storage engine.
//! - `engine`: the store in memory as such an engine.
//! - `transaction`: attaching tags in one transaction, all or nothing.
//! - `service`: the four operations on what a request holds.
//! - `laws`: what holds of the operations over all states and inputs.

pub mod config;
pub mod digest;
pub mod engine;
pub mod error;
pub mod laws;
pub mod plan;
pub mod service;
pub mod store;
pub mod tables;
pub mod tag;
pub mod transaction;
