//! Indexes per-asset metadata across two asset-tree roots and migrates a
//! chosen subset of assets, together with everything they reference, from a
//! source tree to an export tree, rewriting cross-references so the copied
//! assets stay consistent in their new location.

pub mod dropwatch;
pub mod engine;
pub mod extensions;
pub mod fingerprint;
pub mod index;
pub mod meta_file;
pub mod text;
