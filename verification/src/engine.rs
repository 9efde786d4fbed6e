//! The engine's control logic.
//!
//! [`AudioEngine`] is the central coordinator between the output stream, the
//! decode thread and the shared playback state.  A control method updates the
//! engine and returns the actions that carry it out, in order; the caller, which
//! holds the stream, the thread and the lock on the shared state, performs them.
//!
//! Methods that only read take the shared state as an `Option`: `None` stands
//! for a state that could not be locked.

use crate::device::DeviceManager;
use crate::effects::{make_biquad, AudioProcessor, BiquadFilter, FilterCore, FilterType};
use crate::enums::DEFAULT_VISUALIZER_BAR_COUNT;
use crate::ieee::{Single, ONE};
use crate::math::AudioMath;
use crate::metadata::{TrackInfo, Visual};
use crate::player_state::{chain_set, PlaybackUpdate, PlayerState, SharedPlayback};
use crate::processor::{SpectrumMath, VisualizerProcessor};
use crate::source::AudioSource;
use vstd::arithmetic::power2::pow2;
use vstd::prelude::*;

verus! {

/// One step that carries out a control operation.
#[derive(Clone, Copy, Debug, PartialEq, Eq, Structural)]
pub enum EngineAction {
    /// Signal the decode thread to stop and wait until it exits.
    StopDecode,
    /// Open the output stream if it is not open; a failure ends the operation.
    EnsureStream,
    /// Start the decode thread if none runs; a failure ends the operation.
    StartDecode,
    /// Start the decode thread if none runs; a failure is ignored.
    TryStartDecode,
    /// Update the shared state.
    Update(PlaybackUpdate),
}

/// Whether an operation goes on once `action` had the outcome `outcome`, or ends
/// with an error: opening the stream and starting to decode have to succeed,
/// anything else is only tried.
pub open spec fn goes_on(action: EngineAction, outcome: Result<(), String>) -> Result<(), String> {
    match action {
        EngineAction::EnsureStream => outcome,
        EngineAction::StartDecode => outcome,
        _ => Ok(()),
    }
}

impl EngineAction {
    /// What becomes of an operation once this action had the outcome `outcome`:
    /// it goes on, or ends with an error.
    pub fn go_on(self, outcome: Result<(), String>) -> (r: Result<(), String>)
        ensures
            r == goes_on(self, outcome),
    {
        match self {
            EngineAction::EnsureStream => outcome,
            EngineAction::StartDecode => outcome,
            _ => Ok(()),
        }
    }
}

/// A decode thread that is to be started.
#[derive(Clone, Copy, Debug, PartialEq, Eq, Structural)]
pub struct DecodeStart {
    /// Where in the source the thread starts.
    pub millis: i32,
    /// How the shared state changes before the thread runs.
    pub update: PlaybackUpdate,
}

/// The sample format of an output device.
#[derive(Clone, Copy, Debug, PartialEq, Eq, Structural)]
pub enum SampleFormat {
    F32,
    I16,
    U16,
    /// Any format that the engine cannot write.
    Other,
}

/// A sample format that the engine writes.
#[derive(Clone, Copy, Debug, PartialEq, Eq, Structural)]
pub enum OutputFormat {
    F32,
    I16,
    U16,
}

/// What has come of the last step of opening the output stream.
pub enum StreamEvent {
    /// The stream is wanted.
    Wanted,
    /// A device was chosen and has told its sample format, or there is none.
    Chosen(Result<SampleFormat, String>),
    /// The stream was built, or not.
    Built(Result<(), String>),
    /// The stream was started, or not.
    Started(Result<(), String>),
}

/// The next step of opening the output stream.
pub enum StreamAction {
    /// Choose a device and ask for its format.
    Choose,
    /// Build a stream of this format.
    Build(OutputFormat),
    /// Start the stream.
    Start,
    /// There is nothing more to do.
    Finish(Result<(), String>),
}

/// Whether `event` may turn `before` into `after` and call for `action`.
pub open spec fn stream_step(
    before: AudioEngine,
    event: StreamEvent,
    after: AudioEngine,
    action: StreamAction,
) -> bool {
    match event {
        StreamEvent::Wanted => {
            &&& after == before
            &&& action == if before.stream_started {
                StreamAction::Finish(Ok(()))
            } else {
                StreamAction::Choose
            }
        },
        StreamEvent::Chosen(Err(e)) => after == before && action == StreamAction::Finish(Err(e)),
        StreamEvent::Chosen(Ok(format)) => {
            &&& after == before
            &&& match format {
                SampleFormat::F32 => action == StreamAction::Build(OutputFormat::F32),
                SampleFormat::I16 => action == StreamAction::Build(OutputFormat::I16),
                SampleFormat::U16 => action == StreamAction::Build(OutputFormat::U16),
                SampleFormat::Other => action matches StreamAction::Finish(Err(e)) && e@
                    == "Unsupported sample format"@,
            }
        },
        StreamEvent::Built(Err(e)) => after == before && action == StreamAction::Finish(Err(e)),
        StreamEvent::Built(Ok(_)) => after == before && action == StreamAction::Start,
        StreamEvent::Started(Err(e)) => after == before && action == StreamAction::Finish(Err(e)),
        StreamEvent::Started(Ok(_)) => {
            &&& after == AudioEngine { stream_started: true, ..before }
            &&& action == StreamAction::Finish(Ok(()))
        },
    }
}

/// Main audio engine struct: everything that the engine remembers besides the
/// shared playback state.
pub struct AudioEngine {
    pub stream_started: bool,
    pub out_channels: usize,
    pub out_sample_rate: u32,
    /// Optional preferred device name; `None` = system default.
    pub preferred_device: Option<String>,
    pub source: Option<AudioSource>,
    /// Whether a decode thread was started that was not stopped since, and of
    /// whose end nothing was reported.
    pub decode_running: bool,
    /// The length of the source; `-1` where it is unknown.
    pub source_duration_millis: i32,
    /// Where the next decode thread starts.
    pub decode_start_millis: i32,
    pub visualizer_processor: VisualizerProcessor,
}

/// `n`, or the largest 64-bit number where `n` is larger.
pub open spec fn saturated64(n: int) -> int {
    if n > u64::MAX {
        u64::MAX as int
    } else {
        n
    }
}

fn times64(a: u64, b: u64) -> (r: u64)
    ensures
        r == saturated64(a * b),
{
    match a.checked_mul(b) {
        Some(r) => r,
        None => u64::MAX,
    }
}

/// Whether `after` is the visualizer `before` back at its beginning.
pub open spec fn visualizer_reset(before: VisualizerProcessor, after: VisualizerProcessor) -> bool {
    &&& after.smoothed_bars@ == crate::processor::flat(before.smoothed_bars@.len())
    &&& after.adaptive_level == Single { bits: crate::processor::INITIAL_LEVEL }
    &&& after.fast_energy == crate::ieee::silent()
    &&& after.slow_energy == crate::ieee::silent()
}

/// `millis` within a source of `duration` milliseconds; without an upper bound
/// where the duration is unknown.
pub open spec fn within(millis: i32, duration: i32) -> i32 {
    let low = if millis < 0 {
        0i32
    } else {
        millis
    };
    if duration > 0 && low > duration {
        duration
    } else {
        low
    }
}

/// The actions that continue at `samples`, and resume playback or only decoding
/// as asked.
pub open spec fn restart_actions(samples: u64, decode: bool, play: bool) -> Seq<EngineAction> {
    seq![EngineAction::StopDecode, EngineAction::Update(PlaybackUpdate::Restart { samples })] + (if decode {
        seq![EngineAction::TryStartDecode]
    } else {
        Seq::empty()
    }) + (if play {
        seq![EngineAction::Update(PlaybackUpdate::SetPlaying(true))]
    } else {
        Seq::empty()
    })
}

fn restart(samples: u64, decode: bool, play: bool) -> (r: Vec<EngineAction>)
    ensures
        r@ == restart_actions(samples, decode, play),
{
    let mut r: Vec<EngineAction> = Vec::new();
    r.push(EngineAction::StopDecode);
    r.push(EngineAction::Update(PlaybackUpdate::Restart { samples }));
    if decode {
        r.push(EngineAction::TryStartDecode);
    }
    if play {
        r.push(EngineAction::Update(PlaybackUpdate::SetPlaying(true)));
    }
    assert(r@ =~= restart_actions(samples, decode, play));
    r
}

/// Whether an action drops what the decode thread has queued.
pub open spec fn drops_queue(action: EngineAction) -> bool {
    match action {
        EngineAction::Update(PlaybackUpdate::Interrupt) => true,
        EngineAction::Update(PlaybackUpdate::Load) => true,
        EngineAction::Update(PlaybackUpdate::Halt) => true,
        EngineAction::Update(PlaybackUpdate::Restart { .. }) => true,
        _ => false,
    }
}

pub open spec fn starts_decoding(action: EngineAction) -> bool {
    action == EngineAction::StartDecode || action == EngineAction::TryStartDecode
}

/// Whether the queue is dropped only while no decode thread feeds it: after it
/// was stopped and before one is started.
pub open spec fn drops_only_when_stopped(actions: Seq<EngineAction>) -> bool {
    forall|i: int|
        0 <= i < actions.len() && #[trigger] drops_queue(actions[i]) ==> exists|j: int|
            0 <= j < i && #[trigger] actions[j] == EngineAction::StopDecode && forall|k: int|
                j < k < i ==> !starts_decoding(#[trigger] actions[k])
}

proof fn lemma_stop_first(actions: Seq<EngineAction>, j: int, n: int)
    requires
        0 <= j < n <= actions.len(),
        actions[j] == EngineAction::StopDecode,
        forall|k: int| 0 <= k < j ==> !drops_queue(#[trigger] actions[k]),
        forall|k: int| j < k < n ==> !starts_decoding(#[trigger] actions[k]),
        forall|k: int| n <= k < actions.len() ==> !drops_queue(#[trigger] actions[k]),
    ensures
        drops_only_when_stopped(actions),
{
    assert forall|i: int| 0 <= i < actions.len() && #[trigger] drops_queue(actions[i]) implies exists|q: int|
        0 <= q < i && #[trigger] actions[q] == EngineAction::StopDecode && forall|k: int|
            q < k < i ==> !starts_decoding(#[trigger] actions[k]) by {
        assert(actions[j] == EngineAction::StopDecode);
    }
}

impl AudioEngine {
    // ── Construction ──────────────────────────────────────────────────────

    /// Create a new engine for the system default device, which plays
    /// `channels` channels at `sample_rate`.
    pub fn new(channels: u16, sample_rate: u32) -> (r: Self)
        ensures
            is_new(r, channels, sample_rate),
            r.preferred_device is None,
    {
        AudioEngine::with_device(None, channels, sample_rate)
    }

    /// Create a new engine, preferring `device_name` for output.
    pub fn with_device(device_name: Option<String>, channels: u16, sample_rate: u32) -> (r: Self)
        ensures
            is_new(r, channels, sample_rate),
            r.preferred_device == device_name,
    {
        AudioEngine {
            stream_started: false,
            out_channels: channels as usize,
            out_sample_rate: sample_rate,
            preferred_device: device_name,
            source: None,
            decode_running: false,
            source_duration_millis: -1,
            decode_start_millis: 0,
            visualizer_processor: VisualizerProcessor::new(DEFAULT_VISUALIZER_BAR_COUNT),
        }
    }

    // ── Stream lifecycle ──────────────────────────────────────────────────

    /// Initialise the output stream if not already done, step by step: says what
    /// to do once `event` has happened.
    ///
    /// This is done lazily at the first playback, to avoid issues where the
    /// device isn't ready at startup.
    pub fn ensure_stream(&mut self, event: StreamEvent) -> (r: StreamAction)
        ensures
            stream_step(*old(self), event, *final(self), r),
    {
        match event {
            StreamEvent::Wanted => if self.stream_started {
                StreamAction::Finish(Ok(()))
            } else {
                StreamAction::Choose
            },
            StreamEvent::Chosen(chosen) => match chosen {
                Ok(format) => match AudioEngine::output_format(format) {
                    Ok(written) => StreamAction::Build(written),
                    Err(e) => StreamAction::Finish(Err(e)),
                },
                Err(e) => StreamAction::Finish(Err(e)),
            },
            StreamEvent::Built(built) => match built {
                Ok(_) => StreamAction::Start,
                Err(e) => StreamAction::Finish(Err(e)),
            },
            StreamEvent::Started(started) => match started {
                Ok(_) => {
                    self.stream_started = true;
                    StreamAction::Finish(Ok(()))
                },
                Err(e) => StreamAction::Finish(Err(e)),
            },
        }
    }

    /// The format in which a stream on a device of format `format` is written.
    pub fn output_format(format: SampleFormat) -> (r: Result<OutputFormat, String>)
        ensures
            match format {
                SampleFormat::F32 => r == Ok::<OutputFormat, String>(OutputFormat::F32),
                SampleFormat::I16 => r == Ok::<OutputFormat, String>(OutputFormat::I16),
                SampleFormat::U16 => r == Ok::<OutputFormat, String>(OutputFormat::U16),
                SampleFormat::Other => r matches Err(e) && e@ == "Unsupported sample format"@,
            },
    {
        match format {
            SampleFormat::F32 => Ok(OutputFormat::F32),
            SampleFormat::I16 => Ok(OutputFormat::I16),
            SampleFormat::U16 => Ok(OutputFormat::U16),
            SampleFormat::Other => Err("Unsupported sample format".to_owned()),
        }
    }

    /// Stop, rebuild and resume the stream.  Called when the device reports an
    /// unrecoverable stream error (device disconnected, etc.).
    pub fn reset_stream(&mut self) -> (r: Vec<EngineAction>)
        ensures
            *final(self) == (AudioEngine { stream_started: false, ..*old(self) }),
            r@ == seq![
                EngineAction::StopDecode,
                EngineAction::Update(PlaybackUpdate::Interrupt),
                EngineAction::EnsureStream,
                EngineAction::StartDecode,
                EngineAction::Update(PlaybackUpdate::SetPlaying(true)),
            ],
            drops_only_when_stopped(r@),
    {
        self.stream_started = false;
        let r: Vec<EngineAction> = vec![
            EngineAction::StopDecode,
            EngineAction::Update(PlaybackUpdate::Interrupt),
            EngineAction::EnsureStream,
            EngineAction::StartDecode,
            EngineAction::Update(PlaybackUpdate::SetPlaying(true)),
        ];
        proof {
            lemma_stop_first(r@, 0, 2);
        }
        r
    }

    // ── Source management ─────────────────────────────────────────────────

    /// Load a new audio source of `duration_millis` milliseconds, or `-1` where
    /// that is unknown, stopping any currently playing source.
    pub fn set_source(&mut self, source: AudioSource, duration_millis: i32) -> (r: Vec<EngineAction>)
        ensures
            *final(self) == (AudioEngine {
                source: Some(source),
                source_duration_millis: duration_millis,
                decode_start_millis: 0,
                visualizer_processor: final(self).visualizer_processor,
                ..*old(self)
            }),
            visualizer_reset(old(self).visualizer_processor, final(self).visualizer_processor),
            r@ == seq![EngineAction::StopDecode, EngineAction::Update(PlaybackUpdate::Load)],
            drops_only_when_stopped(r@),
    {
        self.source_duration_millis = duration_millis;
        self.decode_start_millis = 0;
        self.source = Some(source);
        self.visualizer_processor.reset();
        let r: Vec<EngineAction> = vec![EngineAction::StopDecode, EngineAction::Update(PlaybackUpdate::Load)];
        proof {
            lemma_stop_first(r@, 0, 2);
        }
        r
    }

    // ── Playback control ──────────────────────────────────────────────────

    /// Start playback: open the stream, start decoding, then consume.
    pub fn play(&self) -> (r: Vec<EngineAction>)
        ensures
            r@ == seq![
                EngineAction::EnsureStream,
                EngineAction::StartDecode,
                EngineAction::Update(PlaybackUpdate::SetPlaying(true)),
            ],
    {
        vec![
            EngineAction::EnsureStream,
            EngineAction::StartDecode,
            EngineAction::Update(PlaybackUpdate::SetPlaying(true)),
        ]
    }

    /// Start or pause the consumption of decoded samples.
    pub fn set_playing(&self, playing: bool) -> (r: Vec<EngineAction>)
        ensures
            r@ == seq![EngineAction::Update(PlaybackUpdate::SetPlaying(playing))],
    {
        vec![EngineAction::Update(PlaybackUpdate::SetPlaying(playing))]
    }

    /// Stop playback and forget the position.
    pub fn stop(&mut self) -> (r: Vec<EngineAction>)
        ensures
            *final(self) == (AudioEngine {
                visualizer_processor: final(self).visualizer_processor,
                ..*old(self)
            }),
            visualizer_reset(old(self).visualizer_processor, final(self).visualizer_processor),
            r@ == seq![
                EngineAction::Update(PlaybackUpdate::SetPlaying(false)),
                EngineAction::StopDecode,
                EngineAction::Update(PlaybackUpdate::Halt),
            ],
            drops_only_when_stopped(r@),
    {
        self.visualizer_processor.reset();
        let r: Vec<EngineAction> = vec![
            EngineAction::Update(PlaybackUpdate::SetPlaying(false)),
            EngineAction::StopDecode,
            EngineAction::Update(PlaybackUpdate::Halt),
        ];
        proof {
            lemma_stop_first(r@, 1, 3);
        }
        r
    }

    /// Set the master volume.
    pub fn set_volume<P: AudioProcessor>(shared: &mut SharedPlayback<P>, volume: Single)
        ensures
            *final(shared) == (SharedPlayback {
                volume: volume.clamped(crate::ieee::silent(), Single { bits: crate::enums::MAX_VOLUME }),
                ..*old(shared)
            }),
            old(shared).well_formed() ==> final(shared).well_formed(),
    {
        shared.set_volume(volume);
    }

    // ── Seek ──────────────────────────────────────────────────────────────

    /// The interleaved output samples before `millis` milliseconds.
    pub open spec fn samples_before(self, millis: i32) -> u64 {
        (saturated64(saturated64(millis * self.out_sample_rate) * self.out_channels) / 1000) as u64
    }

    fn sample_offset(&self, millis: i32) -> (r: u64)
        requires
            millis >= 0,
        ensures
            r == self.samples_before(millis),
    {
        times64(times64(millis as u64, self.out_sample_rate as u64), self.out_channels as u64) / 1000
    }

    /// Go to `millis` milliseconds, or to the end of a shorter source.
    ///
    /// `playing` is what [`AudioEngine::is_playing`] says.  Without a source
    /// nothing happens.
    pub fn seek(&mut self, millis: i32, playing: i32) -> (r: Vec<EngineAction>)
        ensures
            old(self).source is None ==> *final(self) == *old(self) && r@ == Seq::<EngineAction>::empty(),
            old(self).source is Some ==> {
                let target = within(millis, old(self).source_duration_millis);
                let resume = playing == 1 || millis < old(self).source_duration_millis;
                &&& *final(self) == (AudioEngine {
                    decode_start_millis: target,
                    visualizer_processor: final(self).visualizer_processor,
                    ..*old(self)
                })
                &&& visualizer_reset(old(self).visualizer_processor, final(self).visualizer_processor)
                &&& r@ == restart_actions(old(self).samples_before(target), resume, resume)
            },
            drops_only_when_stopped(r@),
    {
        let mut target: i32 = if millis < 0 { 0 } else { millis };
        if self.source_duration_millis > 0 && target > self.source_duration_millis {
            target = self.source_duration_millis;
        }
        if self.source.is_none() {
            return Vec::new();
        }
        self.decode_start_millis = target;
        let samples: u64 = self.sample_offset(target);
        self.visualizer_processor.reset();
        let resume: bool = playing == 1 || millis < self.source_duration_millis;
        let r = restart(samples, resume, resume);
        proof {
            lemma_stop_first(r@, 0, 2);
        }
        r
    }

    // ── Rate / pitch ──────────────────────────────────────────────────────

    /// Change the playback rate and continue at the current position.
    ///
    /// `playing` and `position_millis` are what [`AudioEngine::is_playing`] and
    /// [`AudioEngine::position_millis`] say.
    pub fn set_rate(&mut self, rate: Single, playing: i32, position_millis: i32) -> (r: Vec<EngineAction>)
        ensures
            ({
                let position = if position_millis < 0 {
                    0i32
                } else {
                    position_millis
                };
                let loaded = old(self).source is Some;
                &&& *final(self) == (AudioEngine {
                    decode_start_millis: position,
                    visualizer_processor: final(self).visualizer_processor,
                    ..*old(self)
                })
                &&& visualizer_reset(old(self).visualizer_processor, final(self).visualizer_processor)
                &&& r@ == seq![
                    EngineAction::Update(PlaybackUpdate::SetRate(crate::decode::asked_rate(Some(rate)))),
                ] + restart_actions(old(self).samples_before(position), loaded, loaded && playing == 1)
            }),
            drops_only_when_stopped(r@),
    {
        let wanted = crate::decode::playback_rate(Some(rate));
        let position: i32 = if position_millis < 0 { 0 } else { position_millis };
        self.decode_start_millis = position;
        let samples: u64 = self.sample_offset(position);
        self.visualizer_processor.reset();
        let loaded: bool = self.source.is_some();
        let mut rest = restart(samples, loaded, loaded && playing == 1);
        let mut r: Vec<EngineAction> = vec![EngineAction::Update(PlaybackUpdate::SetRate(wanted))];
        r.append(&mut rest);
        proof {
            lemma_stop_first(r@, 1, 3);
        }
        r
    }
}

/// The code of a filter check at the device rate `sample_rate`, which is `None`
/// where it cannot be read: `-1` for a quality factor that is not positive and
/// for a frequency from half the device rate on, else `0`.
pub open spec fn filter_code(sample_rate: Option<u32>, cutoff_hz: Single, q: Single) -> int {
    match sample_rate {
        None => -1,
        Some(rate) => if q.at_most(crate::ieee::silent()) {
            -1
        } else if cutoff_hz.at_most(crate::ieee::silent()) {
            0
        } else if reaches_half(cutoff_hz, rate) {
            -1
        } else {
            0
        },
    }
}

/// Whether `frequency` is at least half of `rate`, which counts as a binary32
/// number.
pub open spec fn reaches_half(frequency: Single, rate: u32) -> bool {
    if frequency.finite() {
        2 * frequency.value() >= crate::ieee::rounded(rate as nat) * pow2(149)
    } else {
        !frequency.nan() && frequency.rank() > 0
    }
}

fn reaches_nyquist(frequency: Single, rate: u32) -> (r: bool)
    requires
        !frequency.at_most(crate::ieee::silent()),
    ensures
        r == reaches_half(frequency, rate),
{
    let fs = Single::from_u32(rate);
    if rate == 0 {
        proof {
            assert(fs.steps() == 0);
            if frequency.finite() {
                crate::ieee::order_agrees_with_value(crate::ieee::silent(), frequency);
            }
        }
        return !frequency.is_nan();
    }
    let nyquist = fs.half();
    proof {
        if frequency.finite() {
            crate::ieee::order_agrees_with_value(nyquist, frequency);
        }
    }
    nyquist.le(frequency)
}

/// Whether the effects `after` are the effects `before` without their first
/// filters named `name`.
pub open spec fn filters_removed<P: AudioProcessor>(
    before: Seq<crate::effects::Effects<P>>,
    name: Seq<char>,
    after: Seq<crate::effects::Effects<P>>,
) -> bool {
    &&& after.len() == before.len()
    &&& forall|i: int|
        0 <= i < before.len() ==> after[i].chain@ == crate::effects::without_first(
            (#[trigger] before[i]).chain@,
            name,
        )
}

/// Whether `after` is the chain `before` with `made`, where there is such a
/// filter, in place of its first filter named `name`.
pub open spec fn filter_replaced<P: AudioProcessor + From<BiquadFilter<B>>, B: FilterCore>(
    before: Seq<P>,
    name: Seq<char>,
    made: Option<BiquadFilter<B>>,
    after: Seq<P>,
) -> bool {
    let rest = crate::effects::without_first(before, name);
    match made {
        Some(f) => {
            &&& after.len() == rest.len() + 1
            &&& after.drop_last() == rest
            &&& call_ensures(<P as From<BiquadFilter<B>>>::from, (f,), after.last())
        },
        None => after == rest,
    }
}

/// Whether `after` is the chain `before` with the new filter of kind `kind` in
/// place of the old one.
pub open spec fn filter_set<P: AudioProcessor + From<BiquadFilter<B>>, B: FilterCore>(
    before: Seq<P>,
    kind: FilterType,
    sample_rate: u32,
    cutoff_hz: Single,
    q: Single,
    after: Seq<P>,
) -> bool {
    exists|made: Option<BiquadFilter<B>>| #[trigger]
        crate::effects::is_designed::<B>(kind, sample_rate, cutoff_hz, q, made) && filter_replaced::<P, B>(
            before,
            kind.name(),
            made,
            after,
        )
}

/// Whether setting a filter of kind `kind` may turn `before` into `after`: with
/// bad parameters nothing changes, a frequency that is not positive disables
/// the filter, and otherwise the new filter takes the place of the old one in
/// every channel's chain.
pub open spec fn filter_applied<P: AudioProcessor + From<BiquadFilter<B>>, B: FilterCore>(
    before: SharedPlayback<P>,
    kind: FilterType,
    cutoff_hz: Single,
    q: Single,
    after: SharedPlayback<P>,
) -> bool {
    if filter_code(Some(before.sample_rate), cutoff_hz, q) != 0 {
        after == before
    } else {
        &&& after == SharedPlayback { effects: after.effects, ..before }
        &&& if cutoff_hz.at_most(crate::ieee::silent()) {
            filters_removed(before.effects@, kind.name(), after.effects@)
        } else {
            &&& after.effects@.len() == before.effects@.len()
            &&& forall|i: int|
                0 <= i < before.effects@.len() ==> filter_set::<P, B>(
                    (#[trigger] before.effects@[i]).chain@,
                    kind,
                    before.sample_rate,
                    cutoff_hz,
                    q,
                    after.effects@[i].chain@,
                )
        }
    }
}

/// The new filter of kind `kind` as an element of a chain.
fn filter_element<P: AudioProcessor + From<BiquadFilter<B>>, B: FilterCore>(
    kind: FilterType,
    sample_rate: u32,
    cutoff_hz: Single,
    q: Single,
) -> (r: Option<P>)
    ensures
        exists|made: Option<BiquadFilter<B>>| #[trigger]
            crate::effects::is_designed::<B>(kind, sample_rate, cutoff_hz, q, made) && (match (made, r) {
                (Some(f), Some(p)) => call_ensures(<P as From<BiquadFilter<B>>>::from, (f,), p),
                (None, None) => true,
                _ => false,
            }),
{
    let made = make_biquad::<B>(kind, sample_rate, cutoff_hz, q);
    let ghost designed = made;
    match made {
        Some(f) => {
            let p = P::from(f);
            assert(crate::effects::is_designed::<B>(kind, sample_rate, cutoff_hz, q, designed));
            Some(p)
        },
        None => {
            assert(crate::effects::is_designed::<B>(kind, sample_rate, cutoff_hz, q, designed));
            None
        },
    }
}

impl AudioEngine {
    // ── Decode thread management ──────────────────────────────────────────

    /// Start the decode thread unless one is already running: says where the new
    /// thread starts and how the shared state changes before it runs, if there
    /// is to be one.
    pub fn start_decode_thread_if_needed(&mut self) -> (r: Result<Option<DecodeStart>, String>)
        ensures
            if old(self).decode_running {
                *final(self) == *old(self) && r == Ok::<Option<DecodeStart>, String>(None)
            } else if old(self).source is None {
                *final(self) == *old(self) && (r matches Err(e) && e@
                    == "No source loaded. Call set_source first."@)
            } else {
                *final(self) == (AudioEngine { decode_running: true, ..*old(self) }) && r == Ok::<
                    Option<DecodeStart>,
                    String,
                >(
                    Some(
                        DecodeStart { millis: old(self).decode_start_millis, update: PlaybackUpdate::BeginDecode },
                    ),
                )
            },
    {
        if self.decode_running {
            return Ok(None);
        }
        if self.source.is_none() {
            return Err("No source loaded. Call set_source first.".to_owned());
        }
        self.decode_running = true;
        Ok(Some(DecodeStart { millis: self.decode_start_millis, update: PlaybackUpdate::BeginDecode }))
    }

    /// The decode thread has run to its end by itself, so that another one can be
    /// started.
    pub fn decode_ended(&mut self)
        ensures
            *final(self) == (AudioEngine { decode_running: false, ..*old(self) }),
    {
        self.decode_running = false;
    }

    /// The decode thread is to stop; returns whether there is one to wait for.
    pub fn stop_decode_thread(&mut self) -> (r: bool)
        ensures
            *final(self) == (AudioEngine { decode_running: false, ..*old(self) }),
            r == old(self).decode_running,
    {
        let running: bool = self.decode_running;
        self.decode_running = false;
        running
    }

    // ── Queries ───────────────────────────────────────────────────────────

    pub fn rate<P>(shared: Option<&SharedPlayback<P>>) -> (r: Single)
        ensures
            r == match shared {
                Some(s) => s.playback_rate,
                None => Single { bits: ONE },
            },
    {
        match shared {
            Some(s) => s.playback_rate,
            None => Single { bits: ONE },
        }
    }

    pub fn position_millis<M: AudioMath, P: AudioProcessor>(&self, shared: Option<&SharedPlayback<P>>) -> (r: i32)
        ensures
            match shared {
                Some(s) => crate::player_state::at_position_millis::<M, P>(*s, self.out_channels, r),
                None => r == -1,
            },
    {
        match shared {
            Some(s) => s.position_millis::<M>(self.out_channels),
            None => -1,
        }
    }

    pub fn duration_millis(&self) -> (r: i32)
        ensures
            r == self.source_duration_millis,
    {
        self.source_duration_millis
    }

    pub fn max_queue_seconds<P>(shared: Option<&SharedPlayback<P>>) -> (r: i32)
        ensures
            r == match shared {
                Some(s) => (s.max_queue_seconds as i32) as int,
                None => -1,
            },
    {
        match shared {
            Some(s) => s.max_queue_seconds as i32,
            None => -1,
        }
    }

    /// Resize the queue cap.
    pub fn set_max_queue_seconds<P: AudioProcessor>(&self, shared: &mut SharedPlayback<P>, seconds: usize)
        requires
            crate::player_state::buffer_fits(
                old(shared).sample_rate,
                self.out_channels,
                crate::player_state::bounded_seconds(seconds),
            ),
        ensures
            final(shared).max_queue_seconds == crate::player_state::bounded_seconds(seconds),
            final(shared).max_samples == crate::player_state::samples_in(
                old(shared).sample_rate,
                self.out_channels,
                crate::player_state::bounded_seconds(seconds),
            ),
            final(shared).queue@ == crate::player_state::newest(
                old(shared).queue@,
                final(shared).max_samples as int,
            ),
            *final(shared) == (SharedPlayback {
                max_queue_seconds: final(shared).max_queue_seconds,
                max_samples: final(shared).max_samples,
                queue: final(shared).queue,
                ..*old(shared)
            }),
            old(shared).well_formed() ==> final(shared).well_formed(),
    {
        shared.set_max_queue_seconds(self.out_channels, seconds);
    }

    pub fn buffered_samples<P>(shared: Option<&SharedPlayback<P>>) -> (r: i32)
        ensures
            r == match shared {
                Some(s) => (s.queue@.len() as i32) as int,
                None => -1,
            },
    {
        match shared {
            Some(s) => s.queue.len() as i32,
            None => -1,
        }
    }

    pub fn buffered_millis<M: AudioMath, P>(&self, shared: Option<&SharedPlayback<P>>) -> (r: i32)
        ensures
            match shared {
                Some(s) => if s.sample_rate == 0 {
                    r == 0
                } else {
                    call_ensures(
                        M::queued_millis,
                        (
                            s.queue@.len() as usize,
                            if self.out_channels == 0 { 1usize } else { self.out_channels },
                            s.sample_rate,
                        ),
                        r,
                    )
                },
                None => r == -1,
            },
    {
        match shared {
            Some(s) => {
                if s.sample_rate == 0 {
                    return 0;
                }
                let channels: usize = if self.out_channels == 0 { 1 } else { self.out_channels };
                let queued: usize = s.queue.len();
                assert(queued == s.queue@.len() as usize);
                M::queued_millis(queued, channels, s.sample_rate)
            },
            None => -1,
        }
    }

    /// `1` if the engine consumes samples, `0` if not, `-1` if that cannot be
    /// read.
    pub fn is_playing<P>(shared: Option<&SharedPlayback<P>>) -> (r: i32)
        ensures
            r == match shared {
                Some(s) => if s.playing {
                    1int
                } else {
                    0int
                },
                None => -1,
            },
    {
        match shared {
            Some(s) => if s.playing {
                1
            } else {
                0
            },
            None => -1,
        }
    }

    pub fn get_state<P>(&self, shared: Option<&SharedPlayback<P>>) -> (r: PlayerState)
        ensures
            r == match (self.source, shared) {
                (Some(_), Some(s)) => <PlayerState as vstd::std_specs::convert::FromSpec<
                    &crate::player_state::PlaybackStatus,
                >>::from_spec(&s.status),
                _ => PlayerState::Idle,
            },
    {
        if self.source.is_none() {
            return PlayerState::Idle;
        }
        match shared {
            Some(s) => PlayerState::from(&s.status),
            None => PlayerState::Idle,
        }
    }

    // ── DSP / filters ─────────────────────────────────────────────────────

    /// Empty the effect chain of every output channel.
    pub fn clear_filters<P: AudioProcessor>(shared: &mut SharedPlayback<P>)
        ensures
            final(shared).effects@.len() == old(shared).effects@.len(),
            crate::player_state::bypassed(final(shared).effects@),
            *final(shared) == (SharedPlayback { effects: final(shared).effects, ..*old(shared) }),
            old(shared).well_formed() ==> final(shared).well_formed(),
    {
        shared.clear_filters();
    }

    /// Validate that filter parameters are sensible before creating
    /// coefficients.  Returns `0` on success and `-1` on fatal errors; also `0`
    /// for a frequency that is not positive, with which the caller is to
    /// disable the filter.
    pub fn filter_check<P>(shared: Option<&SharedPlayback<P>>, cutoff_hz: Single, q: Single) -> (r: i8)
        ensures
            r == filter_code(
                match shared {
                    Some(s) => Some(s.sample_rate),
                    None => None,
                },
                cutoff_hz,
                q,
            ),
    {
        let rate: u32 = match shared {
            Some(s) => s.sample_rate,
            None => return -1,
        };
        let zero = Single { bits: 0 };
        if q.le(zero) {
            return -1;
        }
        if cutoff_hz.le(zero) {
            return 0;
        }
        if reaches_nyquist(cutoff_hz, rate) {
            return -1;
        }
        0
    }

    /// Set the filter of kind `kind` in every channel's chain.
    pub fn set_filter<P: AudioProcessor + From<BiquadFilter<B>>, B: FilterCore>(
        shared: &mut SharedPlayback<P>,
        kind: FilterType,
        cutoff_hz: Single,
        q: Single,
    )
        ensures
            filter_applied::<P, B>(*old(shared), kind, cutoff_hz, q, *final(shared)),
            old(shared).well_formed() ==> final(shared).well_formed(),
    {
        if AudioEngine::filter_check(Some(&*shared), cutoff_hz, q) != 0 {
            return;
        }
        if cutoff_hz.le(Single { bits: 0 }) {
            shared.remove_filter_named(kind.label());
            return;
        }
        let make = |sample_rate: u32| -> (made: Option<P>)
            ensures
                exists|f: Option<BiquadFilter<B>>| #[trigger]
                    crate::effects::is_designed::<B>(kind, sample_rate, cutoff_hz, q, f) && (match (f, made) {
                        (Some(f), Some(p)) => call_ensures(<P as From<BiquadFilter<B>>>::from, (f,), p),
                        (None, None) => true,
                        _ => false,
                    }),
            { filter_element::<P, B>(kind, sample_rate, cutoff_hz, q) };
        shared.set_filter_named(kind.label(), make);
        proof {
            let rate = old(shared).sample_rate;
            let old_effects = old(shared).effects@;
            assert forall|i: int| 0 <= i < old_effects.len() implies filter_set::<P, B>(
                (#[trigger] old_effects[i]).chain@,
                kind,
                rate,
                cutoff_hz,
                q,
                shared.effects@[i].chain@,
            ) by {
                let rest = crate::effects::without_first(old_effects[i].chain@, kind.name());
                let after = shared.effects@[i].chain@;
                assert(chain_set(old_effects[i].chain@, kind.name(), make, rate, after));
                let made = choose|made: Option<P>| #[trigger]
                    call_ensures(make, (rate,), made) && after == match made {
                        Some(f) => rest.push(f),
                        None => rest,
                    };
                let f = choose|f: Option<BiquadFilter<B>>| #[trigger]
                    crate::effects::is_designed::<B>(kind, rate, cutoff_hz, q, f) && (match (f, made) {
                        (Some(f), Some(p)) => call_ensures(<P as From<BiquadFilter<B>>>::from, (f,), p),
                        (None, None) => true,
                        _ => false,
                    });
                if made is Some {
                    assert(after.drop_last() =~= rest);
                }
                assert(filter_replaced::<P, B>(old_effects[i].chain@, kind.name(), f, after));
            }
        }
    }

    /// Set the peaking-EQ filter.
    pub fn set_peak_filter<P: AudioProcessor + From<BiquadFilter<B>>, B: FilterCore>(
        shared: &mut SharedPlayback<P>,
        cutoff_hz: Single,
        gain_db: Single,
        q: Single,
    )
        ensures
            filter_applied::<P, B>(*old(shared), FilterType::PeakingEQ(gain_db), cutoff_hz, q, *final(shared)),
            old(shared).well_formed() ==> final(shared).well_formed(),
    {
        AudioEngine::set_filter::<P, B>(shared, FilterType::PeakingEQ(gain_db), cutoff_hz, q);
    }

    /// Set the low-shelf filter.
    pub fn set_low_shelf_filter<P: AudioProcessor + From<BiquadFilter<B>>, B: FilterCore>(
        shared: &mut SharedPlayback<P>,
        cutoff_hz: Single,
        gain_db: Single,
        q: Single,
    )
        ensures
            filter_applied::<P, B>(*old(shared), FilterType::LowShelf(gain_db), cutoff_hz, q, *final(shared)),
            old(shared).well_formed() ==> final(shared).well_formed(),
    {
        AudioEngine::set_filter::<P, B>(shared, FilterType::LowShelf(gain_db), cutoff_hz, q);
    }

    /// Set the high-shelf filter.
    pub fn set_high_shelf_filter<P: AudioProcessor + From<BiquadFilter<B>>, B: FilterCore>(
        shared: &mut SharedPlayback<P>,
        cutoff_hz: Single,
        gain_db: Single,
        q: Single,
    )
        ensures
            filter_applied::<P, B>(*old(shared), FilterType::HighShelf(gain_db), cutoff_hz, q, *final(shared)),
            old(shared).well_formed() ==> final(shared).well_formed(),
    {
        AudioEngine::set_filter::<P, B>(shared, FilterType::HighShelf(gain_db), cutoff_hz, q);
    }

    /// Set the band-pass filter.
    pub fn set_band_pass_filter<P: AudioProcessor + From<BiquadFilter<B>>, B: FilterCore>(
        shared: &mut SharedPlayback<P>,
        center_hz: Single,
        q: Single,
    )
        ensures
            filter_applied::<P, B>(*old(shared), FilterType::BandPass, center_hz, q, *final(shared)),
            old(shared).well_formed() ==> final(shared).well_formed(),
    {
        AudioEngine::set_filter::<P, B>(shared, FilterType::BandPass, center_hz, q);
    }

    /// Set the low-pass filter.
    pub fn set_lowpass_filter<P: AudioProcessor + From<BiquadFilter<B>>, B: FilterCore>(
        shared: &mut SharedPlayback<P>,
        cutoff_hz: Single,
        q: Single,
    )
        ensures
            filter_applied::<P, B>(*old(shared), FilterType::LowPass, cutoff_hz, q, *final(shared)),
            old(shared).well_formed() ==> final(shared).well_formed(),
    {
        AudioEngine::set_filter::<P, B>(shared, FilterType::LowPass, cutoff_hz, q);
    }

    /// Set the high-pass filter.
    pub fn set_high_pass_filter<P: AudioProcessor + From<BiquadFilter<B>>, B: FilterCore>(
        shared: &mut SharedPlayback<P>,
        cutoff_hz: Single,
        q: Single,
    )
        ensures
            filter_applied::<P, B>(*old(shared), FilterType::HighPass, cutoff_hz, q, *final(shared)),
            old(shared).well_formed() ==> final(shared).well_formed(),
    {
        AudioEngine::set_filter::<P, B>(shared, FilterType::HighPass, cutoff_hz, q);
    }

    /// Set the notch filter.
    pub fn set_notch_filter<P: AudioProcessor + From<BiquadFilter<B>>, B: FilterCore>(
        shared: &mut SharedPlayback<P>,
        cutoff_hz: Single,
        q: Single,
    )
        ensures
            filter_applied::<P, B>(*old(shared), FilterType::Notch, cutoff_hz, q, *final(shared)),
            old(shared).well_formed() ==> final(shared).well_formed(),
    {
        AudioEngine::set_filter::<P, B>(shared, FilterType::Notch, cutoff_hz, q);
    }

    // ── Visualizer ────────────────────────────────────────────────────────

    pub fn visualizer_available_samples<P>(shared: Option<&SharedPlayback<P>>) -> (r: i32)
        ensures
            r == match shared {
                Some(s) => (s.visualizer_ring@.len() as i32) as int,
                None => -1,
            },
    {
        match shared {
            Some(s) => s.visualizer_ring.len() as i32,
            None => -1,
        }
    }

    pub fn visualizer_sample_rate(&self) -> (r: i32)
        ensures
            r == self.out_sample_rate as i32,
    {
        self.out_sample_rate as i32
    }

    pub fn visualizer_channels(&self) -> (r: i32)
        ensures
            r == self.out_channels as i32,
    {
        self.out_channels as i32
    }

    /// Copy the newest samples into `out`; returns their number.
    pub fn copy_visualizer_samples<P: AudioProcessor>(
        shared: Option<&SharedPlayback<P>>,
        out: &mut [Single],
    ) -> (r: i32)
        ensures
            match shared {
                Some(s) => {
                    let count = if old(out)@.len() < s.visualizer_ring@.len() {
                        old(out)@.len() as int
                    } else {
                        s.visualizer_ring@.len() as int
                    };
                    r == count as i32 && final(out)@ == crate::player_state::newest(s.visualizer_ring@, count)
                        + old(out)@.skip(count)
                },
                None => r == -1 && final(out)@ == old(out)@,
            },
    {
        match shared {
            Some(s) => s.copy_latest_visualizer_samples(out) as i32,
            None => -1,
        }
    }

    /// Fill `out` with frequency bars; returns their number.  `recent` holds
    /// the visualizer's samples and whether the engine plays.
    pub fn copy_visualizer_spectrum<M: SpectrumMath>(
        &mut self,
        recent: Option<(Vec<Single>, bool)>,
        out: &mut [Single],
    ) -> (r: i32)
        ensures
            match recent {
                None => r == -1 && *final(self) == *old(self) && final(out)@ == old(out)@,
                Some((samples, playing)) => {
                    &&& *final(self) == (AudioEngine {
                        visualizer_processor: final(self).visualizer_processor,
                        ..*old(self)
                    })
                    &&& r == old(out)@.len() as i32
                    &&& crate::processor::computes::<M>(
                        old(self).visualizer_processor,
                        samples@,
                        old(self).out_channels,
                        old(self).out_sample_rate,
                        playing,
                        old(out)@,
                        final(self).visualizer_processor,
                        final(out)@,
                    )
                },
            },
    {
        match recent {
            None => -1,
            Some((samples, playing)) => self.visualizer_processor.compute::<M>(
                samples.as_slice(),
                self.out_channels,
                self.out_sample_rate,
                out,
                playing,
            ),
        }
    }
}

impl AudioEngine {
    // ── Metadata / thumbnail ──────────────────────────────────────────────

    /// Tags and codec info of a media file or URL as a JSON string.
    pub fn get_metadata<M: AudioMath>(
        tags: &Vec<(String, String)>,
        tracks: &Vec<TrackInfo>,
    ) -> (r: Result<String, String>)
        ensures
            match r {
                Ok(text) => exists|i: int| #[trigger]
                    crate::metadata::first_decodable(tracks@, i) && crate::metadata::is_metadata::<M>(
                        tags@,
                        tracks@[i],
                        text@,
                    ),
                Err(e) => e@ == "No decodable audio track found"@ && crate::metadata::none_decodable(tracks@),
            },
    {
        crate::metadata::get_metadata::<M>(tags, tracks)
    }

    /// The first embedded image of a media file or URL; empty if none is
    /// present.
    pub fn get_thumbnail(visuals: &Vec<Visual>) -> (r: Vec<u8>)
        ensures
            crate::metadata::is_thumbnail(visuals@, r@),
    {
        crate::metadata::get_thumbnail(visuals)
    }

    // ── Device info forwarding ────────────────────────────────────────────

    /// The default output device's sample rate, or `-1`.
    pub fn default_output_sample_rate(devices: &DeviceManager) -> (r: i32)
        ensures
            r == default_rate(*devices),
    {
        match &devices.outputs.default_device {
            Some(device) => match device.format {
                Some((rate, _)) => rate as i32,
                None => -1,
            },
            None => -1,
        }
    }

    /// The default output device's channel count, or `-1`.
    pub fn default_output_channels(devices: &DeviceManager) -> (r: i32)
        ensures
            r == default_channels(*devices),
    {
        match &devices.outputs.default_device {
            Some(device) => match device.format {
                Some((_, channels)) => channels as i32,
                None => -1,
            },
            None => -1,
        }
    }

    /// The number of output devices whose name is told.
    pub fn output_device_count(devices: &DeviceManager) -> (r: i32)
        ensures
            r == crate::device::told(devices.outputs.names()).len() as i32,
    {
        devices.output_devices().len() as i32
    }
}

/// The default output device's sample rate, cut to 32 bits, or `-1`.
pub open spec fn default_rate(devices: DeviceManager) -> int {
    match devices.outputs.default_device {
        Some(crate::device::DefaultDevice { format: Some((rate, _)), .. }) => (rate as i32) as int,
        _ => -1,
    }
}

/// The default output device's channel count, or `-1`.
pub open spec fn default_channels(devices: DeviceManager) -> int {
    match devices.outputs.default_device {
        Some(crate::device::DefaultDevice { format: Some((_, channels)), .. }) => channels as int,
        _ => -1,
    }
}

/// The default output device's sample rate, or `-1`.
pub fn default_output_sample_rate(devices: &DeviceManager) -> (r: i32)
    ensures
        r == default_rate(*devices),
{
    AudioEngine::default_output_sample_rate(devices)
}

/// The default output device's channel count, or `-1`.
pub fn default_output_channels(devices: &DeviceManager) -> (r: i32)
    ensures
        r == default_channels(*devices),
{
    AudioEngine::default_output_channels(devices)
}

/// The number of output devices whose name is told.
pub fn output_device_count(devices: &DeviceManager) -> (r: i32)
    ensures
        r == crate::device::told(devices.outputs.names()).len() as i32,
{
    AudioEngine::output_device_count(devices)
}

/// Whether `engine` has just been made for a device of `channels` channels at
/// `sample_rate`.
pub open spec fn is_new(engine: AudioEngine, channels: u16, sample_rate: u32) -> bool {
    &&& !engine.stream_started
    &&& engine.out_channels == channels
    &&& engine.out_sample_rate == sample_rate
    &&& engine.source is None
    &&& !engine.decode_running
    &&& engine.source_duration_millis == -1
    &&& engine.decode_start_millis == 0
    &&& engine.visualizer_processor.smoothed_bars@ == crate::processor::flat(DEFAULT_VISUALIZER_BAR_COUNT as nat)
    &&& visualizer_reset(engine.visualizer_processor, engine.visualizer_processor)
}

} // verus!
