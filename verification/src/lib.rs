//! Sends entries from RSS and Atom feeds to a read-it-later sink, keeping
//! per-feed state (processed entries, caching validators, tags) so that
//! repeated runs are idempotent and failed deliveries are retried.

pub mod config;
pub mod errors;
pub mod feed;
pub mod pocket;
pub mod reconcile;
pub mod text;
pub mod urls;
