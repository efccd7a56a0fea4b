//! Harvests URLs mentioned in IRC channel logs.
//!
//! The crate provides the ingestion pipeline: mapping log files to channel
//! names, inferring absolute timestamps from transcript lines, extracting
//! nick/URL events, and writing them in bounded transactions with a bounded
//! retry policy and a shared change marker for downstream pollers.

pub mod actions;
pub mod channels;
pub mod clock;
pub mod config;
pub mod db_util;
pub mod extract;
pub mod infer;
pub mod lookup;
pub mod mem_store;
pub mod meta_util;
pub mod poll;
pub mod replay;
pub mod scan;
pub mod schedule;
pub mod str_util;
pub mod text;
pub mod web_util;
pub mod writer;

pub use clock::ClockState;
