//! All public constants used across the crate.
//!
//! Centralised here so that per-platform tuning is easy.  A constant that is a
//! binary32 number is given by its bit pattern.

use vstd::prelude::*;

verus! {

// ── Queue sizing ──────────────────────────────────────────────────────────────

/// Default number of seconds worth of decoded samples to keep buffered.
pub const DEFAULT_MAX_QUEUE_SECONDS: usize = 20;

/// Minimum allowed value for `max_queue_seconds`.
pub const MIN_MAX_QUEUE_SECONDS: usize = 1;

/// Maximum allowed value for `max_queue_seconds`.
pub const MAX_MAX_QUEUE_SECONDS: usize = 120;

// ── Decode thread back-pressure ───────────────────────────────────────────────

/// How long (ms) the decode thread sleeps when the queue is full, before
/// retrying.
pub const DECODE_BACKPRESSURE_SLEEP_MS: u64 = 2;

// ── Visualizer ────────────────────────────────────────────────────────────────

/// Number of seconds of audio kept in the visualizer ring buffer.
pub const DEFAULT_VISUALIZER_SECONDS: usize = 2;

/// Size of the transform used by the spectrum visualizer.
pub const VISUALIZER_FFT_SIZE: usize = 2048;

/// Default number of output frequency bars for the spectrum visualizer.
pub const DEFAULT_VISUALIZER_BAR_COUNT: usize = 64;

/// Lowest frequency shown on the visualizer: 35 Hz.
pub const VISUALIZER_MIN_HZ: u32 = 0x420c_0000;

// ── Playback rate ─────────────────────────────────────────────────────────────

/// Minimum allowed playback rate: 0.5, half speed.
pub const MIN_RATE: u32 = 0x3f00_0000;

/// Maximum allowed playback rate: 2, double speed.
pub const MAX_RATE: u32 = 0x4000_0000;

/// Maximum allowed volume: 4.
pub const MAX_VOLUME: u32 = 0x4080_0000;

// ── Device watcher ────────────────────────────────────────────────────────────

/// How frequently (ms) the device watcher polls for device changes.
pub const DEVICE_POLL_INTERVAL_MS: u64 = 2_000;

} // verus!
