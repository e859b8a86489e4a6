//! Download-progress aggregation for a yt-dlp front end.
//!
//! The crate turns free-text progress lines emitted by the external download
//! tool into typed events (`ytdl_line`), and aggregates those events, tagged
//! with the id of the process that produced them, into per-process state
//! machines (`aggregator`) that can be queried for a full snapshot.

use vstd::prelude::*;

pub mod aggregator;
pub mod audio;
pub mod downloader;
pub mod message;
pub mod numeric;
pub mod system_atlas;
pub mod util;
pub mod ytdl_line;

verus! {

/// Identifier of a spawned download child process; the correlation key for
/// all of its events.
pub type ProcessId = u32;

} // verus!
