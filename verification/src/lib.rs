//! Scrape orchestration, deduplication and feed materialization for
//! serialized content published by a set of configured sources.
//!
//! The crate holds the decisions of the pipeline: validating what an
//! extraction script returned, the retry state machine of a per-source job,
//! the deduplicating store of chapter records with its canonical ordering,
//! and the rendering of a source's history into a feed document. Driving a
//! browser, talking to a database and moving files are left to the caller.

pub mod extract;
pub mod feed;
pub mod job;
pub mod run;
pub mod source;
pub mod store;
pub mod text;
pub mod time;
