//! A verified loader for Standard MIDI Files.
//!
//! The crate turns a parsed MIDI event stream into two artifacts:
//! a tick-indexed timeline mapping every tick of the piece to elapsed
//! time and musical position (measure, beat, time signature, tempo),
//! and per-channel note lists with resolved on/off positions, where
//! notes that straddle a measure boundary are split into per-measure
//! fragments.  A playback-position resolver answers "which timeline
//! entry is in effect after a given elapsed time".
//!
//! Elapsed time is kept exact: instead of floating-point seconds, each
//! timeline entry stores the elapsed seconds multiplied by
//! `division * 1_000_000` (an integer number of microseconds, further
//! scaled by the file's ticks-per-quarter-note division), and the tempo
//! is stored as microseconds per quarter note, exactly as the file
//! records it.

pub mod control;
pub mod loader;
pub mod notes;
pub mod resolve;
pub mod smf;
pub mod split;
pub mod timeline;
pub mod types;
