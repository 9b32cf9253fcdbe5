//! Incremental synchronization of a directory tree against a stream of
//! archive entries.
//!
//! The library keeps a persistent record (`FileTree`) of what was last
//! applied, compares each incoming archive entry against that record, and
//! decides which filesystem mutations are needed: write, skip, or delete.
//! The decisions are computed here and handed out as `Mutation` values; an
//! unverified shell performs the actual filesystem calls.

pub mod codec;
pub mod engine;
pub mod filter;
pub mod kinds;
pub mod laws;
pub mod persist;
pub mod record;
pub mod state;
pub mod text;
