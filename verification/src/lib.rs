//! Core of a feed ingestion pipeline: a registry of feed sources, an item
//! extractor for syndication documents, a deduplicating entry store, and the
//! refresh worker / scheduler-cycle logic that ties them together.
//!
//! Network fetches and the real database live at the application boundary;
//! this crate holds the decisions: what a fetched document yields, which
//! candidate items are new, and how one feed's failure is kept away from the
//! others.

pub mod errors;
pub mod item;
pub mod store;
pub mod worker;
pub mod laws;
