//! A per-tenant FAQ resolution engine: an in-memory name index, a
//! trigram-based fuzzy-match fallback, and single-hop alias resolution in
//! front of a keyed document store.

pub mod cache;
pub mod fuzzy;
pub mod normalize;
pub mod ops;
pub mod resolve;
pub mod store;
pub mod util;
