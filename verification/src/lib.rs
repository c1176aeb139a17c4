//! An in-memory store of informational resources on eczema care.
//!
//! The store keys resources by a monotonically allocated `u64` id, validates
//! title and description lengths, filters by category, searches by
//! case-insensitive substring, and gates the verification flag behind a
//! single admin identity. `snapshot` / `restore` capture and rebuild the
//! whole store around a host-driven suspend/resume boundary.

pub mod resource;
pub mod search;
pub mod snapshot;
pub mod store;
pub mod time;
