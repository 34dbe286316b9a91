//! Core of a typing-speed measurement service: a session state machine that
//! collects keystroke edit events while a client types a reference text,
//! splits the text into word-group segments, replays the edit log to time
//! each segment, and derives words-per-minute figures from the timings.

pub mod analyze;
pub mod events;
pub mod ingest;
pub mod metrics;
pub mod models;
pub mod replay;
pub mod segment;
pub mod session;

use vstd::prelude::*;

verus! {

/// The word delimiter of reference texts and of typed input.
pub const SPACE_BYTE: u8 = 32;

/// The synthetic end-of-typing marker appended when a session completes.
pub const SENTINEL_BYTE: u8 = 0;

} // verus!
