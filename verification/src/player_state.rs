//! The state shared by the audio callback, the decode thread and the controls.

use crate::effects::{AudioProcessor, Effects};
use crate::enums::{
    DEFAULT_MAX_QUEUE_SECONDS, DEFAULT_VISUALIZER_SECONDS, MAX_MAX_QUEUE_SECONDS, MAX_VOLUME,
    MIN_MAX_QUEUE_SECONDS,
};
use crate::error::AudioError;
use crate::ieee::{Double, Single, MINUS_ONE, ONE};
use crate::math::AudioMath;
use std::collections::VecDeque;
use vstd::prelude::*;

verus! {

// ── PlaybackStatus ────────────────────────────────────────────────────────────

/// Full playback state with more detail than a simple boolean.
#[derive(Debug, Clone, PartialEq)]
pub enum PlaybackStatus {
    /// No source is loaded; the engine is doing nothing.
    Idle,
    /// Audio is actively playing.
    Playing,
    /// Playback is paused — position is preserved.
    Paused,
    /// Waiting for the network / decode buffer to fill.
    Buffering,
    /// The source reached its end naturally.
    Finished,
    /// An error caused playback to stop.
    Error(AudioError),
}

/// Simplified state for the C surface.
#[derive(Debug, Clone, Copy, PartialEq, Eq, Structural)]
pub enum PlayerState {
    Idle,
    Playing,
    Paused,
    Stopped,
}

impl vstd::std_specs::convert::FromSpecImpl<&PlaybackStatus> for PlayerState {
    open spec fn obeys_from_spec() -> bool {
        true
    }

    open spec fn from_spec(status: &PlaybackStatus) -> PlayerState {
        match status {
            PlaybackStatus::Idle => PlayerState::Idle,
            PlaybackStatus::Buffering => PlayerState::Idle,
            PlaybackStatus::Playing => PlayerState::Playing,
            PlaybackStatus::Paused => PlayerState::Paused,
            PlaybackStatus::Finished => PlayerState::Stopped,
            PlaybackStatus::Error(_) => PlayerState::Stopped,
        }
    }
}

impl From<&PlaybackStatus> for PlayerState {
    fn from(status: &PlaybackStatus) -> (r: Self) {
        match status {
            PlaybackStatus::Idle | PlaybackStatus::Buffering => PlayerState::Idle,
            PlaybackStatus::Playing => PlayerState::Playing,
            PlaybackStatus::Paused => PlayerState::Paused,
            PlaybackStatus::Finished | PlaybackStatus::Error(_) => PlayerState::Stopped,
        }
    }
}

// ── ResampleState ─────────────────────────────────────────────────────────────

/// Carries fractional position and boundary samples across decode packets.
///
/// Linear interpolation is used to convert between the source sample rate and
/// the device's native rate (and playback speed).  This state prevents audible
/// glitches at packet boundaries.
pub struct ResampleState {
    /// Current fractional position within the current packet (source frames).
    pub pos: Double,
    /// The last *source* frame of the previous packet, used as the left
    /// neighbour for the first interpolated output sample of the next packet.
    pub carry: Vec<Single>,
}

impl ResampleState {
    pub fn new() -> (r: Self)
        ensures
            r.pos == crate::ieee::origin(),
            r.carry@ == Seq::<Single>::empty(),
    {
        ResampleState { pos: Double { bits: 0 }, carry: Vec::new() }
    }

    pub fn reset(&mut self)
        ensures
            final(self).pos == crate::ieee::origin(),
            final(self).carry@ == Seq::<Single>::empty(),
    {
        self.pos = Double { bits: 0 };
        self.carry.clear();
    }
}

impl Default for ResampleState {
    fn default() -> (r: Self)
        ensures
            r.pos == crate::ieee::origin(),
            r.carry@ == Seq::<Single>::empty(),
    {
        ResampleState::new()
    }
}

// ── Buffer sizing ─────────────────────────────────────────────────────────────

/// `n`, or the largest machine word where `n` is larger.
pub open spec fn saturated(n: int) -> int {
    if n > usize::MAX {
        usize::MAX as int
    } else {
        n
    }
}

/// The interleaved samples of `seconds` seconds.
pub open spec fn samples_in(sample_rate: u32, channels: usize, seconds: usize) -> int {
    saturated(saturated(sample_rate * channels) * seconds)
}

/// Whether a buffer of `seconds` seconds can be allocated: its samples, of four
/// bytes each, take no more than the largest allocation.
pub open spec fn buffer_fits(sample_rate: u32, channels: usize, seconds: usize) -> bool {
    4 * samples_in(sample_rate, channels, seconds) <= isize::MAX
}

fn times(a: usize, b: usize) -> (r: usize)
    ensures
        r == saturated(a * b),
{
    match a.checked_mul(b) {
        Some(r) => r,
        None => usize::MAX,
    }
}

/// The interleaved samples of `seconds` seconds, saturating.
pub fn sample_count(sample_rate: u32, channels: usize, seconds: usize) -> (r: usize)
    ensures
        r == samples_in(sample_rate, channels, seconds),
{
    times(times(sample_rate as usize, channels), seconds)
}

/// Whether a buffer of `seconds` seconds can be allocated.
pub fn can_allocate(sample_rate: u32, channels: usize, seconds: usize) -> (r: bool)
    ensures
        r == buffer_fits(sample_rate, channels, seconds),
{
    sample_count(sample_rate, channels, seconds) <= isize::MAX as usize / 4
}

// ── SharedPlayback ────────────────────────────────────────────────────────────

/// State that is **shared** between the audio-callback thread and any thread
/// that drives the engine.
pub struct SharedPlayback<P> {
    /// Ready-to-play interleaved samples fed by the decode thread and consumed
    /// by the audio callback.
    pub queue: VecDeque<Single>,
    /// Recent samples kept for the visualiser, written by the audio callback
    /// after applying volume and effects.
    pub visualizer_ring: VecDeque<Single>,
    pub max_samples: usize,
    pub max_queue_seconds: usize,
    pub visualizer_max_samples: usize,
    /// Current playback rate; one is normal speed.
    pub playback_rate: Single,
    /// Master volume; zero is silence, one is unity.
    pub volume: Single,
    /// The engine is actively consuming from `queue`.
    pub playing: bool,
    /// The decode thread has written all packets; no more data is coming.
    pub stream_finished: bool,
    /// Total interleaved samples consumed by the audio callback since the last
    /// seek.
    pub emitted_samples: u64,
    /// Absolute source position in interleaved output samples, advanced by
    /// `playback_rate` per emitted sample.
    pub source_position_samples: Double,
    /// Sample rate of the output device (Hz).
    pub sample_rate: u32,
    /// One chain per output channel, indexed by
    /// `emitted_samples % effects.len()`.
    pub effects: Vec<Effects<P>>,
    /// Fine-grained playback status.
    pub status: PlaybackStatus,
    /// Cumulative buffer-underrun count since last reset.
    pub underrun_count: u32,
}

/// The ring `ring` of at most `limit` samples after `sample` has entered it.
pub open spec fn ring_with(ring: Seq<Single>, limit: usize, sample: Single) -> Seq<Single> {
    if limit == 0 {
        ring
    } else if ring.len() >= limit {
        ring.drop_first().push(sample)
    } else {
        ring.push(sample)
    }
}

/// Whether no chain of `effects` holds a processor.
pub open spec fn bypassed<P>(effects: Seq<Effects<P>>) -> bool {
    forall|i: int| 0 <= i < effects.len() ==> (#[trigger] effects[i]).chain@ == Seq::<P>::empty()
}

/// The last `n` items of `s`, or all of them where there are no more.
pub open spec fn newest(s: Seq<Single>, n: int) -> Seq<Single> {
    if s.len() <= n {
        s
    } else {
        s.skip(s.len() - n)
    }
}

/// The allowed queue length, in seconds, that is closest to `seconds`.
pub open spec fn bounded_seconds(seconds: usize) -> usize {
    if seconds < MIN_MAX_QUEUE_SECONDS {
        MIN_MAX_QUEUE_SECONDS
    } else if seconds > MAX_MAX_QUEUE_SECONDS {
        MAX_MAX_QUEUE_SECONDS
    } else {
        seconds
    }
}

/// Whether `after` is `before` with all transient audio state gone.
pub open spec fn cleared<P>(before: SharedPlayback<P>, after: SharedPlayback<P>) -> bool {
    &&& after.queue@ == Seq::<Single>::empty()
    &&& after.visualizer_ring@ == Seq::<Single>::empty()
    &&& after.effects@.len() == before.effects@.len()
    &&& bypassed(after.effects@)
    &&& after == SharedPlayback {
        queue: after.queue,
        visualizer_ring: after.visualizer_ring,
        effects: after.effects,
        emitted_samples: 0,
        source_position_samples: crate::ieee::origin(),
        stream_finished: true,
        underrun_count: 0,
        ..before
    }
}

/// One step of a control operation on the shared state.
#[derive(Clone, Copy, Debug, PartialEq, Eq, Structural)]
pub enum PlaybackUpdate {
    /// Stop consuming and drop what is buffered, before the stream is rebuilt.
    Interrupt,
    /// Stop and forget the old track: a new source is about to be decoded.
    Load,
    /// Forget the track: nothing more will be decoded.
    Halt,
    /// Start or pause consumption.
    SetPlaying(bool),
    /// Change the playback rate.
    SetRate(Single),
    /// Drop what is buffered and continue at `samples` interleaved samples.
    Restart { samples: u64 },
    /// The decode thread is about to run.
    BeginDecode,
    /// The decode thread has written its last sample.
    EndDecode,
}

/// `before` after consumption was started or paused.
pub open spec fn play_set<P>(before: SharedPlayback<P>, playing: bool) -> SharedPlayback<P> {
    if playing {
        SharedPlayback { stream_finished: false, status: PlaybackStatus::Playing, playing: true, ..before }
    } else {
        SharedPlayback { status: PlaybackStatus::Paused, playing: false, ..before }
    }
}

/// Whether `update` may turn `before` into `after`.
pub open spec fn updated<M: AudioMath, P>(
    before: SharedPlayback<P>,
    update: PlaybackUpdate,
    after: SharedPlayback<P>,
) -> bool {
    match update {
        PlaybackUpdate::Interrupt => {
            &&& after.queue@ == Seq::<Single>::empty()
            &&& after.visualizer_ring@ == Seq::<Single>::empty()
            &&& after == SharedPlayback {
                queue: after.queue,
                visualizer_ring: after.visualizer_ring,
                stream_finished: false,
                playing: false,
                ..before
            }
        },
        PlaybackUpdate::Load => cleared(
            SharedPlayback { status: PlaybackStatus::Idle, playing: false, ..before },
            SharedPlayback { stream_finished: true, ..after },
        ) && !after.stream_finished,
        PlaybackUpdate::Halt => cleared(SharedPlayback { status: PlaybackStatus::Idle, ..before }, after),
        PlaybackUpdate::SetPlaying(playing) => after == play_set(before, playing),
        PlaybackUpdate::SetRate(rate) => after == SharedPlayback { playback_rate: rate, ..before },
        PlaybackUpdate::Restart { samples } => {
            &&& after.queue@ == Seq::<Single>::empty()
            &&& after.visualizer_ring@ == Seq::<Single>::empty()
            &&& call_ensures(M::position_of, (samples,), after.source_position_samples)
            &&& after == SharedPlayback {
                queue: after.queue,
                visualizer_ring: after.visualizer_ring,
                emitted_samples: 0,
                source_position_samples: after.source_position_samples,
                stream_finished: false,
                playing: false,
                ..before
            }
        },
        PlaybackUpdate::BeginDecode => after == SharedPlayback { stream_finished: false, ..before },
        PlaybackUpdate::EndDecode => after == SharedPlayback { stream_finished: true, ..before },
    }
}

/// Whether `after` is the chain `before` without its first filter named `name`
/// and with what `make` gives at `sample_rate` at its end.
pub open spec fn chain_set<P: AudioProcessor, F: Fn(u32) -> Option<P>>(
    before: Seq<P>,
    name: Seq<char>,
    make: F,
    sample_rate: u32,
    after: Seq<P>,
) -> bool {
    exists|made: Option<P>| #[trigger]
        call_ensures(make, (sample_rate,), made) && after == match made {
            Some(f) => crate::effects::without_first(before, name).push(f),
            None => crate::effects::without_first(before, name),
        }
}

/// Whether `nanos` is the position of `state` on a device with `channels`
/// channels.
pub open spec fn at_position<M: AudioMath, P>(state: SharedPlayback<P>, channels: usize, nanos: u128) -> bool {
    if state.sample_rate == 0 || channels == 0 {
        nanos == 0
    } else {
        call_ensures(M::elapsed_nanos, (state.source_position_samples, state.sample_rate, channels), nanos)
    }
}

/// Whether `millis` is the position of `state` in whole milliseconds, cut to
/// 32 bits.
pub open spec fn at_position_millis<M: AudioMath, P>(
    state: SharedPlayback<P>,
    channels: usize,
    millis: i32,
) -> bool {
    exists|nanos: u128| #[trigger]
        at_position::<M, P>(state, channels, nanos) && millis == (nanos / 1_000_000) as i32
}

/// Whether the effects `after` are the effects `before` once channel `channel`
/// has turned `sample` into `out`; a channel without a chain hands the sample on.
pub open spec fn channel_processes<P: AudioProcessor>(
    before: Seq<Effects<P>>,
    channel: int,
    sample: Single,
    after: Seq<Effects<P>>,
    out: Single,
) -> bool {
    if channel < before.len() {
        &&& after.len() == before.len()
        &&& forall|i: int| 0 <= i < before.len() && i != channel ==> after[i] == before[i]
        &&& crate::effects::chain_processes(
            before[channel].chain@,
            sample,
            channel as usize,
            after[channel].chain@,
            out,
        )
    } else {
        after == before && out == sample
    }
}

/// Whether the state `before`, which plays and has a queued sample, may emit
/// `r` and become `after`, where `scaled` is the sample after the master volume
/// and `effected` the sample after its channel's chain.
pub open spec fn sounds<M: AudioMath, P: AudioProcessor>(
    before: SharedPlayback<P>,
    after: SharedPlayback<P>,
    scaled: Single,
    effected: Single,
    r: Single,
) -> bool {
    &&& call_ensures(M::scale, (before.queue@[0], before.volume), scaled)
    &&& channel_processes(before.effects@, before.next_channel(), scaled, after.effects@, effected)
    &&& r == effected.clamped(Single { bits: MINUS_ONE }, Single { bits: ONE })
    &&& call_ensures(
        M::advance,
        (before.source_position_samples, before.playback_rate),
        after.source_position_samples,
    )
    &&& after.queue@ == before.queue@.drop_first()
    &&& after.visualizer_ring@ == ring_with(before.visualizer_ring@, before.visualizer_max_samples, r)
    &&& after.emitted_samples == if before.emitted_samples == u64::MAX {
        u64::MAX as int
    } else {
        before.emitted_samples + 1
    }
    &&& after == SharedPlayback {
        queue: after.queue,
        visualizer_ring: after.visualizer_ring,
        effects: after.effects,
        emitted_samples: after.emitted_samples,
        source_position_samples: after.source_position_samples,
        ..before
    }
}

/// Whether one step of the audio callback may turn `before` into `after` and
/// send `r` to the device.
pub open spec fn next_step<M: AudioMath, P: AudioProcessor>(
    before: SharedPlayback<P>,
    after: SharedPlayback<P>,
    r: Single,
) -> bool {
    if !before.playing {
        after == before && r == crate::ieee::silent()
    } else if before.queue@.len() > 0 {
        exists|scaled: Single, effected: Single| #[trigger]
            sounds::<M, P>(before, after, scaled, effected, r)
    } else {
        &&& r == crate::ieee::silent()
        &&& after.queue@ == before.queue@
        &&& if before.stream_finished {
            after == SharedPlayback {
                queue: after.queue,
                playing: false,
                status: PlaybackStatus::Finished,
                ..before
            }
        } else {
            after == SharedPlayback {
                queue: after.queue,
                underrun_count: if before.underrun_count == u32::MAX {
                    u32::MAX
                } else {
                    (before.underrun_count + 1) as u32
                },
                ..before
            }
        }
    }
}

impl<P: AudioProcessor> SharedPlayback<P> {
    /// What every operation keeps: at least one channel, and neither buffer
    /// beyond its limit.
    pub open spec fn well_formed(self) -> bool {
        &&& self.effects@.len() > 0
        &&& self.queue@.len() <= self.max_samples
        &&& self.visualizer_ring@.len() <= self.visualizer_max_samples
    }

    /// The channel that the next sample belongs to.
    pub open spec fn next_channel(self) -> int {
        let channels = if self.effects@.len() == 0 {
            1
        } else {
            self.effects@.len() as int
        };
        (self.emitted_samples as usize) as int % channels
    }

    /// Construct with device-native sample rate and channel count.
    pub fn new(channels: usize, sample_rate: u32) -> (r: Self)
        requires
            buffer_fits(sample_rate, channels, DEFAULT_MAX_QUEUE_SECONDS),
        ensures
            r.queue@ == Seq::<Single>::empty(),
            r.visualizer_ring@ == Seq::<Single>::empty(),
            r.max_samples == samples_in(sample_rate, channels, DEFAULT_MAX_QUEUE_SECONDS),
            r.visualizer_max_samples == samples_in(sample_rate, channels, DEFAULT_VISUALIZER_SECONDS),
            r.max_queue_seconds == DEFAULT_MAX_QUEUE_SECONDS,
            r.playback_rate == (Single { bits: ONE }),
            r.volume == (Single { bits: ONE }),
            !r.playing,
            r.stream_finished,
            r.emitted_samples == 0,
            r.source_position_samples == crate::ieee::origin(),
            r.sample_rate == sample_rate,
            r.effects@.len() == (if channels == 0 { 1 } else { channels as int }),
            bypassed(r.effects@),
            r.status == PlaybackStatus::Idle,
            r.underrun_count == 0,
            r.well_formed(),
    {
        let max_samples: usize = sample_count(sample_rate, channels, DEFAULT_MAX_QUEUE_SECONDS);
        let visualizer_max_samples: usize = sample_count(sample_rate, channels, DEFAULT_VISUALIZER_SECONDS);
        let chains: usize = if channels == 0 { 1 } else { channels };
        let mut effects: Vec<Effects<P>> = Vec::new();
        let mut i: usize = 0;
        while i < chains
            invariant
                i <= chains,
                effects@.len() == i,
                bypassed(effects@),
            decreases chains - i,
        {
            effects.push(Effects::new());
            i = i + 1;
        }
        SharedPlayback {
            queue: VecDeque::with_capacity(max_samples),
            visualizer_ring: VecDeque::with_capacity(visualizer_max_samples),
            visualizer_max_samples,
            max_samples,
            max_queue_seconds: DEFAULT_MAX_QUEUE_SECONDS,
            playback_rate: Single { bits: ONE },
            volume: Single { bits: ONE },
            playing: false,
            stream_finished: true,
            emitted_samples: 0,
            source_position_samples: Double { bits: 0 },
            sample_rate,
            effects,
            status: PlaybackStatus::Idle,
            underrun_count: 0,
        }
    }

    // ── Queue helpers ─────────────────────────────────────────────────────

    /// Push up to `max_samples - queue.len()` samples.  Returns the count
    /// actually pushed; the caller retries the rest after sleeping.
    pub fn push_samples_bounded(&mut self, samples: &[Single]) -> (r: usize)
        ensures
            ({
                let room = if old(self).queue@.len() < old(self).max_samples {
                    old(self).max_samples - old(self).queue@.len()
                } else {
                    0
                };
                r == if samples@.len() < room { samples@.len() as int } else { room }
            }),
            final(self).queue@ == old(self).queue@ + samples@.take(r as int),
            *final(self) == (SharedPlayback { queue: final(self).queue, ..*old(self) }),
            old(self).well_formed() ==> final(self).well_formed(),
    {
        let available: usize = self.max_samples.saturating_sub(self.queue.len());
        let push_count: usize = if samples.len() < available { samples.len() } else { available };
        let mut i: usize = 0;
        while i < push_count
            invariant
                i <= push_count <= samples@.len(),
                self.queue@ == old(self).queue@ + samples@.take(i as int),
                *self == (SharedPlayback { queue: self.queue, ..*old(self) }),
            decreases push_count - i,
        {
            self.queue.push_back(samples[i]);
            assert(samples@.take(i + 1) =~= samples@.take(i as int).push(samples@[i as int]));
            i = i + 1;
        }
        push_count
    }

    /// Resize the queue cap.  Excess samples are dropped from the front.
    pub fn set_max_queue_seconds(&mut self, channels: usize, seconds: usize)
        requires
            buffer_fits(old(self).sample_rate, channels, bounded_seconds(seconds)),
        ensures
            final(self).max_queue_seconds == bounded_seconds(seconds),
            final(self).max_samples == samples_in(old(self).sample_rate, channels, bounded_seconds(seconds)),
            final(self).queue@ == newest(old(self).queue@, final(self).max_samples as int),
            *final(self) == (SharedPlayback {
                max_queue_seconds: final(self).max_queue_seconds,
                max_samples: final(self).max_samples,
                queue: final(self).queue,
                ..*old(self)
            }),
            final(self).queue@.len() <= final(self).max_samples,
    {
        let bounded: usize = if seconds < MIN_MAX_QUEUE_SECONDS {
            MIN_MAX_QUEUE_SECONDS
        } else if seconds > MAX_MAX_QUEUE_SECONDS {
            MAX_MAX_QUEUE_SECONDS
        } else {
            seconds
        };
        self.max_queue_seconds = bounded;
        self.max_samples = sample_count(self.sample_rate, channels, bounded);
        assert(self.queue@.skip(0) =~= self.queue@);
        let ghost mut dropped: int = 0;
        while self.queue.len() > self.max_samples
            invariant
                0 <= dropped <= old(self).queue@.len(),
                dropped == 0 || old(self).queue@.len() - dropped >= self.max_samples,
                self.queue@ == old(self).queue@.skip(dropped),
                *self == (SharedPlayback {
                    max_queue_seconds: self.max_queue_seconds,
                    max_samples: self.max_samples,
                    queue: self.queue,
                    ..*old(self)
                }),
                self.max_queue_seconds == bounded_seconds(seconds),
                self.max_samples == samples_in(old(self).sample_rate, channels, bounded_seconds(seconds)),
            decreases self.queue@.len(),
        {
            self.queue.pop_front();
            proof {
                dropped = dropped + 1;
                assert(self.queue@ =~= old(self).queue@.skip(dropped));
            }
        }
        self.queue.reserve(self.max_samples - self.queue.len());
    }

    // ── Visualiser helpers ────────────────────────────────────────────────

    /// Records a sample that was sent to the device.
    pub fn push_visualizer_sample(&mut self, sample: Single)
        ensures
            final(self).visualizer_ring@ == ring_with(
                old(self).visualizer_ring@,
                old(self).visualizer_max_samples,
                sample,
            ),
            *final(self) == (SharedPlayback { visualizer_ring: final(self).visualizer_ring, ..*old(self) }),
            old(self).well_formed() ==> final(self).well_formed(),
    {
        if self.visualizer_max_samples == 0 {
            return;
        }
        if self.visualizer_ring.len() >= self.visualizer_max_samples {
            self.visualizer_ring.pop_front();
            assert(self.visualizer_ring@ =~= old(self).visualizer_ring@.drop_first());
        }
        self.visualizer_ring.push_back(sample);
    }

    /// Copy the most recent `out.len()` samples from the visualiser ring into
    /// `out`.  Returns the number of samples written.
    pub fn copy_latest_visualizer_samples(&self, out: &mut [Single]) -> (r: usize)
        ensures
            r == if old(out)@.len() < self.visualizer_ring@.len() {
                old(out)@.len()
            } else {
                self.visualizer_ring@.len()
            },
            final(out)@ == newest(self.visualizer_ring@, r as int) + old(out)@.skip(r as int),
    {
        let held: usize = self.visualizer_ring.len();
        let count: usize = if out.len() < held { out.len() } else { held };
        let skip: usize = held - count;
        let mut i: usize = 0;
        while i < count
            invariant
                i <= count <= old(out)@.len(),
                out@.len() == old(out)@.len(),
                skip + count == held,
                held == self.visualizer_ring@.len(),
                forall|k: int| 0 <= k < i ==> out@[k] == self.visualizer_ring@[skip + k],
                forall|k: int| i <= k < out@.len() ==> out@[k] == old(out)@[k],
            decreases count - i,
        {
            out[i] = self.visualizer_ring[skip + i];
            i = i + 1;
        }
        assert(out@ =~= newest(self.visualizer_ring@, count as int) + old(out)@.skip(count as int));
        count
    }

    // ── State reset ───────────────────────────────────────────────────────

    /// Clear all transient audio state without touching volume / rate / device.
    pub fn clear_audio_state(&mut self)
        ensures
            cleared(*old(self), *final(self)),
            old(self).effects@.len() > 0 ==> final(self).well_formed(),
    {
        self.queue.clear();
        self.visualizer_ring.clear();
        self.emitted_samples = 0;
        self.source_position_samples = Double { bits: 0 };
        self.stream_finished = true;
        self.underrun_count = 0;
        self.clear_filters();
    }

    /// Empty the effect chain of every output channel.
    pub fn clear_filters(&mut self)
        ensures
            final(self).effects@.len() == old(self).effects@.len(),
            bypassed(final(self).effects@),
            *final(self) == (SharedPlayback { effects: final(self).effects, ..*old(self) }),
            old(self).well_formed() ==> final(self).well_formed(),
    {
        let n: usize = self.effects.len();
        let mut i: usize = 0;
        while i < n
            invariant
                i <= n,
                n == self.effects@.len() == old(self).effects@.len(),
                forall|k: int| 0 <= k < i ==> (#[trigger] self.effects@[k]).chain@ == Seq::<P>::empty(),
                *self == (SharedPlayback { effects: self.effects, ..*old(self) }),
            decreases n - i,
        {
            self.effects[i].clear();
            i = i + 1;
        }
    }

    // ── Hot-path sample output ────────────────────────────────────────────

    /// Called by the audio callback for every output sample.
    ///
    /// Returns silence if paused, buffering, or the queue is empty.
    /// Applies volume and per-channel effects, then records the sample in the
    /// visualiser ring.
    pub fn next_sample<M: AudioMath>(&mut self) -> (r: Single)
        ensures
            next_step::<M, P>(*old(self), *final(self), r),
            old(self).well_formed() ==> final(self).well_formed(),
    {
        if !self.playing {
            return Single { bits: 0 };
        }
        let channel_count: usize = if self.effects.len() == 0 { 1 } else { self.effects.len() };
        let channel_index: usize = (self.emitted_samples as usize) % channel_count;
        let raw = match self.queue.pop_front() {
            Some(s) => {
                self.emitted_samples = self.emitted_samples.saturating_add(1);
                self.source_position_samples = M::advance(self.source_position_samples, self.playback_rate);
                s
            },
            None => {
                if self.stream_finished {
                    self.playing = false;
                    self.status = PlaybackStatus::Finished;
                } else {
                    self.underrun_count = self.underrun_count.saturating_add(1);
                }
                return Single { bits: 0 };
            },
        };
        let scaled = M::scale(raw, self.volume);
        let mut sample = scaled;
        if channel_index < self.effects.len() {
            sample = self.effects[channel_index].process(sample, channel_index);
        }
        let ghost effected = sample;
        let sample = sample.clamp(Single { bits: MINUS_ONE }, Single { bits: ONE });
        self.push_visualizer_sample(sample);
        assert(self.queue@ =~= old(self).queue@.drop_first());
        assert(sounds::<M, P>(*old(self), *self, scaled, effected, sample));
        sample
    }

    // ── Control ───────────────────────────────────────────────────────────

    /// Start or pause consumption of the queue.
    pub fn set_playing(&mut self, playing: bool)
        ensures
            *final(self) == play_set(*old(self), playing),
            old(self).well_formed() ==> final(self).well_formed(),
    {
        if playing {
            self.stream_finished = false;
            self.status = PlaybackStatus::Playing;
        } else {
            self.status = PlaybackStatus::Paused;
        }
        self.playing = playing;
    }

    /// Set the master volume, at most [`MAX_VOLUME`].
    pub fn set_volume(&mut self, volume: Single)
        ensures
            *final(self) == (SharedPlayback {
                volume: volume.clamped(crate::ieee::silent(), Single { bits: MAX_VOLUME }),
                ..*old(self)
            }),
            old(self).well_formed() ==> final(self).well_formed(),
    {
        self.volume = volume.clamp(Single { bits: 0 }, Single { bits: MAX_VOLUME });
    }

    /// Carry out one step of a control operation.
    pub fn apply<M: AudioMath>(&mut self, update: PlaybackUpdate)
        ensures
            updated::<M, P>(*old(self), update, *final(self)),
            old(self).well_formed() ==> final(self).well_formed(),
    {
        match update {
            PlaybackUpdate::Interrupt => {
                self.stream_finished = false;
                self.playing = false;
                self.queue.clear();
                self.visualizer_ring.clear();
            },
            PlaybackUpdate::Load => {
                self.clear_audio_state();
                self.stream_finished = false;
                self.playing = false;
                self.status = PlaybackStatus::Idle;
            },
            PlaybackUpdate::Halt => {
                self.clear_audio_state();
                self.status = PlaybackStatus::Idle;
            },
            PlaybackUpdate::SetPlaying(playing) => {
                self.set_playing(playing);
            },
            PlaybackUpdate::SetRate(rate) => {
                self.playback_rate = rate;
            },
            PlaybackUpdate::Restart { samples } => {
                self.queue.clear();
                self.visualizer_ring.clear();
                self.emitted_samples = 0;
                self.source_position_samples = M::position_of(samples);
                self.stream_finished = false;
                self.playing = false;
            },
            PlaybackUpdate::BeginDecode => {
                self.stream_finished = false;
            },
            PlaybackUpdate::EndDecode => {
                self.stream_finished = true;
            },
        }
    }

    // ── Filters ───────────────────────────────────────────────────────────

    /// Remove the first filter named `old_name` from every channel's chain,
    /// then push what `make` gives for the device rate, if anything, to the end.
    ///
    /// This provides an idempotent "set" semantic: calling with the same
    /// parameters twice does not double-apply the effect.
    pub fn set_filter_named<F: Fn(u32) -> Option<P>>(&mut self, old_name: &str, make: F)
        requires
            call_requires(make, (old(self).sample_rate,)),
        ensures
            final(self).effects@.len() == old(self).effects@.len(),
            forall|i: int|
                0 <= i < old(self).effects@.len() ==> chain_set(
                    (#[trigger] old(self).effects@[i]).chain@,
                    old_name@,
                    make,
                    old(self).sample_rate,
                    final(self).effects@[i].chain@,
                ),
            *final(self) == (SharedPlayback { effects: final(self).effects, ..*old(self) }),
            old(self).well_formed() ==> final(self).well_formed(),
    {
        let sample_rate: u32 = self.sample_rate;
        let n: usize = self.effects.len();
        let mut i: usize = 0;
        while i < n
            invariant
                i <= n,
                n == self.effects@.len() == old(self).effects@.len(),
                sample_rate == old(self).sample_rate,
                call_requires(make, (sample_rate,)),
                forall|k: int|
                    0 <= k < i ==> chain_set(
                        (#[trigger] old(self).effects@[k]).chain@,
                        old_name@,
                        make,
                        sample_rate,
                        self.effects@[k].chain@,
                    ),
                forall|k: int| i <= k < n ==> self.effects@[k] == old(self).effects@[k],
                *self == (SharedPlayback { effects: self.effects, ..*old(self) }),
            decreases n - i,
        {
            self.effects[i].remove_named(old_name);
            let made = make(sample_rate);
            let ghost made_one = made;
            if let Some(f) = made {
                self.effects[i].push(f);
            }
            assert(call_ensures(make, (sample_rate,), made_one));
            i = i + 1;
        }
    }

    /// Remove the first filter named `name` from every channel's chain.
    pub fn remove_filter_named(&mut self, name: &str)
        ensures
            final(self).effects@.len() == old(self).effects@.len(),
            forall|i: int|
                0 <= i < old(self).effects@.len() ==> final(self).effects@[i].chain@
                    == crate::effects::without_first((#[trigger] old(self).effects@[i]).chain@, name@),
            *final(self) == (SharedPlayback { effects: final(self).effects, ..*old(self) }),
            old(self).well_formed() ==> final(self).well_formed(),
    {
        let n: usize = self.effects.len();
        let mut i: usize = 0;
        while i < n
            invariant
                i <= n,
                n == self.effects@.len() == old(self).effects@.len(),
                forall|k: int|
                    0 <= k < i ==> self.effects@[k].chain@ == crate::effects::without_first(
                        (#[trigger] old(self).effects@[k]).chain@,
                        name@,
                    ),
                forall|k: int| i <= k < n ==> self.effects@[k] == old(self).effects@[k],
                *self == (SharedPlayback { effects: self.effects, ..*old(self) }),
            decreases n - i,
        {
            self.effects[i].remove_named(name);
            i = i + 1;
        }
    }

    /// A copy of the samples kept for the visualiser, the newest last.
    pub fn visualizer_snapshot(&self) -> (r: Vec<Single>)
        ensures
            r@ == self.visualizer_ring@,
    {
        let mut r: Vec<Single> = Vec::new();
        let mut i: usize = 0;
        while i < self.visualizer_ring.len()
            invariant
                i <= self.visualizer_ring@.len(),
                r@ =~= self.visualizer_ring@.take(i as int),
            decreases self.visualizer_ring@.len() - i,
        {
            r.push(self.visualizer_ring[i]);
            i = i + 1;
        }
        r
    }

    // ── Position helpers ──────────────────────────────────────────────────

    /// Current playback position in nanoseconds.
    pub fn position<M: AudioMath>(&self, out_channels: usize) -> (r: u128)
        ensures
            at_position::<M, P>(*self, out_channels, r),
    {
        if self.sample_rate == 0 || out_channels == 0 {
            return 0;
        }
        M::elapsed_nanos(self.source_position_samples, self.sample_rate, out_channels)
    }

    /// Current playback position in milliseconds (for the C surface).
    pub fn position_millis<M: AudioMath>(&self, out_channels: usize) -> (r: i32)
        ensures
            at_position_millis::<M, P>(*self, out_channels, r),
    {
        let nanos: u128 = self.position::<M>(out_channels);
        assert(at_position::<M, P>(*self, out_channels, nanos));
        (nanos / 1_000_000) as i32
    }
}

} // verus!
