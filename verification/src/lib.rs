//! Content-addressed, deduplicated image storage with a per-owner ordered
//! index, paginated gallery listing, and reference-counted deletion.
//!
//! The index and the set of stored blobs are modelled in memory; the
//! surrounding application performs the physical file writes and deletes
//! that the verified core stages and decides.

pub mod auth;
pub mod blobs;
pub mod bytes;
pub mod errors;
pub mod formats;
pub mod hasher;
pub mod index;
pub mod keys;
pub mod laws;
pub mod pics;
pub mod store;
