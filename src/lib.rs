//! Content-addressed image storage: a per-token quota ledger, a deduplicating
//! object catalog, a heat-scored cache of derived artifacts and the eviction
//! passes that keep storage usage in bounds.

pub mod accounting;
pub mod auth;
pub mod cache;
pub mod catalog;
pub mod clock;
pub mod digest;
pub mod error;
pub mod eviction;
pub mod images;
pub mod laws;
pub mod mime;
pub mod quota;
pub mod response;
pub mod store;
pub mod text;
pub mod token;
