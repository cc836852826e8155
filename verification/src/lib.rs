//! A minimal multi-user image store.
//!
//! Callers, identified by an opaque [`candid::Principal`], register a display
//! name, upload named binary blobs, list them, fetch one by identifier and
//! delete the ones they created. All state lives in a single [`store::Store`]
//! value; every operation is one atomic step on it.
//!
//! - [`model`] says what a store holds and what each operation makes of it.
//! - [`store`] is the executable store, with contracts over the model.
//! - [`names`] keeps the display names.
//! - [`principal`] holds what the store relies on from `candid`.
//! - [`laws`] proves what holds of every sequence of requests.

pub mod laws;
pub mod model;
pub mod names;
pub mod principal;
pub mod store;
