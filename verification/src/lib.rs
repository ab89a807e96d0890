//! Event-data acquisition core: fetch policy for a remote event-data service,
//! a canonical JSON codec for persisted snapshots, and the sync orchestrator
//! that falls back to the local cache when the live fetch fails.
#![allow(unused_imports)]

pub mod dec;
pub mod enc;
pub mod fetch;
pub mod json;
pub mod model;
pub mod round_trip;
pub mod sync;
pub mod text;
