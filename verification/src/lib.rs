//! Core logic of a live-stream monitoring and auto-capture scheduler.
//!
//! The library holds the decision logic of the engine: time parsing and
//! formatting, filename-template expansion, URL recognition, the trigger
//! pipeline with its admission gates, the bounded capture queue, the
//! recorder state machine with its progress-line parsers, and the two
//! detectors' per-cycle decisions. I/O (network, child processes, files)
//! lives outside; the functions here take plain values and return plain
//! values, with contracts stating exactly what they compute.

use vstd::prelude::*;

pub mod auth;
pub mod config;
pub mod download;
pub mod outside;
pub mod pubsub;
pub mod presets;
pub mod recorder;
pub mod records;
pub mod sched;
pub mod strutil;
pub mod sync;
pub mod template;
pub mod timefmt;
pub mod tools;
pub mod urls;
pub mod youtube;

verus! {

/// Free disk space required before a scheduled download is admitted (500 MiB).
pub const MIN_FREE_BYTES: u64 = 500 * 1024 * 1024;

} // verus!
