//! The events that the engine's components emit.

use crate::error::AudioError;
use crate::ieee::Single;
use std::collections::HashMap;
use vstd::prelude::*;

verus! {

/// Metadata about a track, populated from its tags.
#[derive(Debug, Clone, Default)]
pub struct TrackMetadata {
    pub title: Option<String>,
    pub artist: Option<String>,
    pub album: Option<String>,
    pub track: Option<u32>,
    pub year: Option<u32>,
    pub extra: HashMap<String, String>,
}

/// Device information for device-change events.
#[derive(Debug)]
pub struct DeviceInfo {
    pub name: String,
    /// Whether this is the system default device.
    pub is_default: bool,
}

impl Clone for DeviceInfo {
    fn clone(&self) -> (r: Self)
        ensures
            r == *self,
    {
        DeviceInfo { name: self.name.clone(), is_default: self.is_default }
    }
}

/// The canonical event type that every component emits.  Times are in
/// nanoseconds.
///
/// All variants are `Clone` so events can be fanned out to multiple listeners.
#[derive(Debug, Clone)]
pub enum AudioEvent {
    // ── Playback lifecycle ────────────────────────────────────────────────
    /// Playback of a source has started (or resumed from the beginning).
    PlaybackStarted,
    /// Playback has been paused.
    PlaybackPaused { position: u128 },
    /// Playback has been resumed from a paused state.
    PlaybackResumed { position: u128 },
    /// The audio source reached its end naturally.
    PlaybackFinished,
    /// Playback was explicitly stopped by the caller.
    PlaybackStopped,
    /// A new track has become the active source.
    TrackChanged { metadata: TrackMetadata },
    // ── Queue ─────────────────────────────────────────────────────────────
    /// The playback queue has been exhausted.
    QueueExhausted,
    /// The queue length has changed.
    QueueUpdated { len: usize },
    // ── Errors & diagnostics ──────────────────────────────────────────────
    /// A non-fatal error occurred; playback may continue.
    Error(AudioError),
    /// A buffer underrun occurred; silence was inserted automatically.
    Underrun { count: u32 },
    /// The decoder emitted a non-fatal warning.
    DecoderWarning(String),
    // ── Network streaming ─────────────────────────────────────────────────
    /// The stream is buffering; `percent` runs from 0 to 100.
    Buffering { percent: Single },
    /// Buffering has completed and playback is ready.
    BufferingComplete,
    /// A reconnect attempt is in progress.
    Reconnecting { attempt: u32 },
    /// ICY / Shoutcast stream metadata tags received.
    StreamMetadata(HashMap<String, String>),
    // ── Device hotplug ────────────────────────────────────────────────────
    /// A new audio device was connected to the system.
    DeviceAdded(DeviceInfo),
    /// A previously available device was disconnected.
    DeviceRemoved(DeviceInfo),
    /// The system default device has changed.
    DefaultDeviceChanged(DeviceInfo),
    // ── Position (progress bar) ───────────────────────────────────────────
    /// Periodic position update.
    Position { current: u128, total: Option<u128> },
}

} // verus!
