//! What the engine's controls are for: where a seek goes, what a change of speed
//! keeps, which steps carry an operation out, and what the engine tells of
//! itself.

use crate::decode::playback_rate;
use crate::effects::AudioProcessor;
use crate::engine::{AudioEngine, DecodeStart, EngineAction, OutputFormat, SampleFormat, StreamAction, StreamEvent};
use crate::ieee::Single;
use crate::math::AudioMath;
use crate::player_state::{PlaybackUpdate, PlayerState, SharedPlayback};
use crate::processor::{analyses, Analysis, SpectrumMath, VisualizerProcessor, INITIAL_LEVEL};
use crate::source::AudioSource;
use vstd::prelude::*;

verus! {

// ── Steps ─────────────────────────────────────────────────────────────────────

/// An operation ends with an error only where the stream cannot be opened or
/// decoding cannot be started, and then with that very error.
pub proof fn only_two_steps_can_fail(action: EngineAction, outcome: Result<(), String>, r: Result<(), String>)
    requires
        call_ensures(EngineAction::go_on, (action, outcome), r),
    ensures
        r is Err <==> outcome is Err && (action is EnsureStream || action is StartDecode),
        r is Err ==> r->Err_0 == outcome->Err_0,
{
}

/// A stream is opened step by step, each after the one before succeeded, in the
/// format of the device; the engine has a stream once the last step succeeded, and
/// whatever failed ends it with its error.
pub proof fn stream_is_opened_step_by_step(engine: &mut AudioEngine, event: StreamEvent, r: StreamAction)
    requires
        call_ensures(AudioEngine::ensure_stream, (engine, event), r),
    ensures
        *final(engine) == (AudioEngine { stream_started: final(engine).stream_started, ..*old(engine) }),
        final(engine).stream_started <==> old(engine).stream_started || (event matches StreamEvent::Started(s)
            && s is Ok),
        event is Wanted ==> (r is Finish <==> old(engine).stream_started) && (r is Choose <==> !old(
            engine).stream_started),
        r is Choose ==> event is Wanted,
        r is Start <==> (event matches StreamEvent::Built(b) && b is Ok),
        r matches StreamAction::Build(format) ==> event is Chosen && event->Chosen_0 is Ok && (format
            == OutputFormat::F32 <==> event->Chosen_0->Ok_0 == SampleFormat::F32) && (format == OutputFormat::I16
            <==> event->Chosen_0->Ok_0 == SampleFormat::I16) && (format == OutputFormat::U16
            <==> event->Chosen_0->Ok_0 == SampleFormat::U16),
        event matches StreamEvent::Chosen(Ok(format)) ==> (r is Build <==> format != SampleFormat::Other) && (format
            == SampleFormat::Other ==> r is Finish && r->Finish_0 is Err && r->Finish_0->Err_0@
            == "Unsupported sample format"@),
        event matches StreamEvent::Chosen(Err(e)) ==> r == StreamAction::Finish(Err(e)),
        event matches StreamEvent::Built(Err(e)) ==> r == StreamAction::Finish(Err(e)),
        event matches StreamEvent::Started(Err(e)) ==> r == StreamAction::Finish(Err(e)),
        event matches StreamEvent::Started(Ok(_)) ==> r == StreamAction::Finish(Ok(())),
        event is Wanted && r is Finish ==> r->Finish_0 is Ok,
{
}

/// The device's own format is written; a format that cannot be written is refused.
pub proof fn format_of_the_device_is_written(format: SampleFormat, r: Result<OutputFormat, String>)
    requires
        call_ensures(AudioEngine::output_format, (format,), r),
    ensures
        format == SampleFormat::F32 <==> r is Ok && r->Ok_0 == OutputFormat::F32,
        format == SampleFormat::I16 <==> r is Ok && r->Ok_0 == OutputFormat::I16,
        format == SampleFormat::U16 <==> r is Ok && r->Ok_0 == OutputFormat::U16,
        format == SampleFormat::Other <==> r is Err,
        r is Err ==> r->Err_0@ == "Unsupported sample format"@,
{
}

/// Whether the visualizer shows flat bars and has heard nothing, with as many bars
/// as before.
pub open spec fn back_to_flat(before: VisualizerProcessor, after: VisualizerProcessor) -> bool {
    &&& after.smoothed_bars@.len() == before.smoothed_bars@.len()
    &&& forall|i: int| 0 <= i < after.smoothed_bars@.len() ==> (#[trigger] after.smoothed_bars@[i]).bits == 0
    &&& after.adaptive_level.bits == INITIAL_LEVEL
    &&& after.fast_energy.bits == 0
    &&& after.slow_energy.bits == 0
}

/// Playing opens the stream, then starts to decode, then plays.
pub proof fn play_opens_decodes_and_plays(engine: &AudioEngine, r: Vec<EngineAction>)
    requires
        call_ensures(AudioEngine::play, (engine,), r),
    ensures
        r@.len() == 3,
        r@[0] is EnsureStream,
        r@[1] is StartDecode,
        r@[2] == EngineAction::Update(PlaybackUpdate::SetPlaying(true)),
{
}

/// Pausing and resuming is a single update of the shared state.
pub proof fn pausing_is_one_update(engine: &AudioEngine, playing: bool, r: Vec<EngineAction>)
    requires
        call_ensures(AudioEngine::set_playing, (engine, playing), r),
    ensures
        r@.len() == 1,
        r@[0] == EngineAction::Update(PlaybackUpdate::SetPlaying(playing)),
{
}

/// A stream that is rebuilt plays on: decoding stops and what is buffered goes,
/// then the stream is opened anew and everything starts again at the place where
/// decoding last began.
pub proof fn rebuilt_stream_plays_on(engine: &mut AudioEngine, r: Vec<EngineAction>)
    requires
        call_ensures(AudioEngine::reset_stream, (engine,), r),
    ensures
        !final(engine).stream_started,
        *final(engine) == (AudioEngine { stream_started: false, ..*old(engine) }),
        r@.len() == 5,
        r@[0] is StopDecode,
        r@[1] == EngineAction::Update(PlaybackUpdate::Interrupt),
        r@[2] is EnsureStream,
        r@[3] is StartDecode,
        r@[4] == EngineAction::Update(PlaybackUpdate::SetPlaying(true)),
{
}

/// A new source is played from its beginning, after the old one was stopped; the
/// device and the stream stay.
pub proof fn new_source_starts_at_its_beginning(
    engine: &mut AudioEngine,
    source: AudioSource,
    duration_millis: i32,
    r: Vec<EngineAction>,
)
    requires
        call_ensures(AudioEngine::set_source, (engine, source, duration_millis), r),
    ensures
        final(engine).source == Some(source),
        final(engine).source_duration_millis == duration_millis,
        final(engine).decode_start_millis == 0,
        back_to_flat(old(engine).visualizer_processor, final(engine).visualizer_processor),
        final(engine).stream_started == old(engine).stream_started,
        final(engine).out_channels == old(engine).out_channels,
        final(engine).out_sample_rate == old(engine).out_sample_rate,
        final(engine).preferred_device == old(engine).preferred_device,
        final(engine).decode_running == old(engine).decode_running,
        r@.len() == 2,
        r@[0] is StopDecode,
        r@[1] == EngineAction::Update(PlaybackUpdate::Load),
{
}

/// Stopping pauses, stops decoding and forgets the track, in this order; the source
/// stays loaded.
pub proof fn stop_pauses_and_forgets(engine: &mut AudioEngine, r: Vec<EngineAction>)
    requires
        call_ensures(AudioEngine::stop, (engine,), r),
    ensures
        final(engine).source == old(engine).source,
        final(engine).source_duration_millis == old(engine).source_duration_millis,
        final(engine).decode_start_millis == old(engine).decode_start_millis,
        final(engine).stream_started == old(engine).stream_started,
        final(engine).decode_running == old(engine).decode_running,
        back_to_flat(old(engine).visualizer_processor, final(engine).visualizer_processor),
        r@.len() == 3,
        r@[0] == EngineAction::Update(PlaybackUpdate::SetPlaying(false)),
        r@[1] is StopDecode,
        r@[2] == EngineAction::Update(PlaybackUpdate::Halt),
{
}

// ── Where it goes on ──────────────────────────────────────────────────────────

/// Whether `samples` interleaved samples of the device end at `millis`
/// milliseconds: `samples` of `rate * channels` a second, rounded down.
pub open spec fn lasts(samples: u64, rate: u32, channels: usize, millis: i32) -> bool {
    let thousandfold = millis * rate * channels;
    &&& thousandfold <= u64::MAX ==> samples * 1000 <= thousandfold < (samples + 1) * 1000
    &&& millis == 0 ==> samples == 0
    &&& millis >= 0 && thousandfold > u64::MAX ==> samples == u64::MAX / 1000
}

proof fn lemma_lasts(engine: AudioEngine, millis: i32)
    requires
        millis >= 0,
    ensures
        lasts(engine.samples_before(millis), engine.out_sample_rate, engine.out_channels, millis),
{
    let a = millis * engine.out_sample_rate;
    let ch = engine.out_channels as int;
    assert(0 <= a <= 0x7fff_ffff * 0xffff_ffff) by (nonlinear_arith)
        requires
            a == millis * engine.out_sample_rate,
            0 <= millis <= 0x7fff_ffff,
            0 <= engine.out_sample_rate <= 0xffff_ffff,
    ;
    assert(0 <= a * ch) by (nonlinear_arith)
        requires
            a >= 0,
            ch >= 0,
    ;
    if millis == 0 {
        assert(a == 0) by (nonlinear_arith)
            requires
                a == millis * engine.out_sample_rate,
                millis == 0,
        ;
        assert(a * ch == 0) by (nonlinear_arith)
            requires
                a == 0,
        ;
    }
}

/// Whether an operation stops decoding, continues at `millis` milliseconds with
/// nothing buffered, and then decodes where `decode` and plays where `play`, in
/// the steps from `at` on.
pub open spec fn continues(
    engine: AudioEngine,
    actions: Seq<EngineAction>,
    at: int,
    millis: i32,
    decode: bool,
    play: bool,
) -> bool {
    &&& actions.len() == at + 2 + (if decode { 1int } else { 0 }) + (if play { 1int } else { 0 })
    &&& actions[at] is StopDecode
    &&& actions[at + 1] is Update
    &&& actions[at + 1]->Update_0 is Restart
    &&& lasts(
        actions[at + 1]->Update_0->Restart_samples,
        engine.out_sample_rate,
        engine.out_channels,
        millis,
    )
    &&& decode ==> actions[at + 2] is TryStartDecode
    &&& play ==> actions[actions.len() - 1] == EngineAction::Update(PlaybackUpdate::SetPlaying(true))
}

/// A seek goes to the place that is asked for, to the beginning where that lies
/// before it and to the end where it lies behind it: decoding goes on there, at
/// the sample of that time.  It resumes where the engine played or where the
/// place lies before the end.  Without a source nothing happens.
pub proof fn seek_goes_where_it_is_asked(engine: &mut AudioEngine, millis: i32, playing: i32, r: Vec<EngineAction>)
    requires
        call_ensures(AudioEngine::seek, (engine, millis, playing), r),
    ensures
        old(engine).source is None ==> r@.len() == 0 && *final(engine) == *old(engine),
        old(engine).source is Some ==> ({
            let target = final(engine).decode_start_millis;
            let duration = old(engine).source_duration_millis;
            &&& 0 <= target
            &&& duration > 0 ==> target <= duration
            &&& 0 <= millis && (duration <= 0 || millis <= duration) ==> target == millis
            &&& millis < 0 ==> target == 0
            &&& duration > 0 && millis > duration ==> target == duration
            &&& continues(
                *old(engine),
                r@,
                0,
                target,
                playing == 1 || millis < duration,
                playing == 1 || millis < duration,
            )
            &&& back_to_flat(old(engine).visualizer_processor, final(engine).visualizer_processor)
        }),
        final(engine).source == old(engine).source,
        final(engine).source_duration_millis == old(engine).source_duration_millis,
        final(engine).stream_started == old(engine).stream_started,
        final(engine).decode_running == old(engine).decode_running,
        final(engine).out_channels == old(engine).out_channels,
        final(engine).out_sample_rate == old(engine).out_sample_rate,
        final(engine).preferred_device == old(engine).preferred_device,
{
    if old(engine).source is Some {
        lemma_lasts(*old(engine), final(engine).decode_start_millis);
    }
}

/// A change of speed keeps the place: the new speed, within its limits, is set,
/// and decoding goes on at the position of before.  It plays on where it played.
pub proof fn change_of_speed_keeps_the_place(
    engine: &mut AudioEngine,
    rate: Single,
    speed: Single,
    playing: i32,
    position_millis: i32,
    r: Vec<EngineAction>,
)
    requires
        call_ensures(AudioEngine::set_rate, (engine, rate, playing, position_millis), r),
        call_ensures(playback_rate, (Some(rate),), speed),
    ensures
        position_millis >= 0 ==> final(engine).decode_start_millis == position_millis,
        position_millis < 0 ==> final(engine).decode_start_millis == 0,
        r@[0] == EngineAction::Update(PlaybackUpdate::SetRate(speed)),
        continues(
            *old(engine),
            r@,
            1,
            final(engine).decode_start_millis,
            old(engine).source is Some,
            old(engine).source is Some && playing == 1,
        ),
        back_to_flat(old(engine).visualizer_processor, final(engine).visualizer_processor),
        final(engine).source == old(engine).source,
        final(engine).source_duration_millis == old(engine).source_duration_millis,
        final(engine).stream_started == old(engine).stream_started,
        final(engine).decode_running == old(engine).decode_running,
        final(engine).out_channels == old(engine).out_channels,
        final(engine).out_sample_rate == old(engine).out_sample_rate,
{
    lemma_lasts(*old(engine), final(engine).decode_start_millis);
}

/// The volume that the engine sets is the one that the shared state would set.
pub proof fn engine_sets_the_volume<P: AudioProcessor>(
    shared: &mut SharedPlayback<P>,
    other: &mut SharedPlayback<P>,
    volume: Single,
)
    requires
        call_ensures(AudioEngine::set_volume::<P>, (shared, volume), ()),
        call_ensures(SharedPlayback::<P>::set_volume, (other, volume), ()),
        *old(shared) == *old(other),
    ensures
        *final(shared) == *final(other),
{
}

/// The engine sizes the queue for the channels of its device.
pub proof fn engine_sizes_the_queue<P: AudioProcessor>(
    engine: &AudioEngine,
    shared: &mut SharedPlayback<P>,
    other: &mut SharedPlayback<P>,
    seconds: usize,
)
    requires
        call_ensures(AudioEngine::set_max_queue_seconds::<P>, (engine, shared, seconds), ()),
        call_ensures(SharedPlayback::<P>::set_max_queue_seconds, (other, engine.out_channels, seconds), ()),
        *old(shared) == *old(other),
    ensures
        final(shared).max_queue_seconds == final(other).max_queue_seconds,
        final(shared).max_samples == final(other).max_samples,
        final(shared).queue@ == final(other).queue@,
        *final(shared) == (SharedPlayback {
            max_queue_seconds: final(shared).max_queue_seconds,
            max_samples: final(shared).max_samples,
            queue: final(shared).queue,
            ..*old(shared)
        }),
{
}

// ── The decode thread ─────────────────────────────────────────────────────────

/// At most one decode thread runs, and only for a source: it starts where the
/// engine last went, and says before it runs that more is to come.
pub proof fn one_thread_decodes(engine: &mut AudioEngine, r: Result<Option<DecodeStart>, String>)
    requires
        call_ensures(AudioEngine::start_decode_thread_if_needed, (engine,), r),
    ensures
        r is Err <==> !old(engine).decode_running && old(engine).source is None,
        r is Err ==> r->Err_0@ == "No source loaded. Call set_source first."@,
        r is Ok ==> (r->Ok_0 is Some <==> !old(engine).decode_running),
        r is Ok && r->Ok_0 is Some ==> r->Ok_0->0.millis == old(engine).decode_start_millis && r->Ok_0->0.update
            is BeginDecode,
        final(engine).decode_running <==> old(engine).decode_running || r is Ok,
        *final(engine) == (AudioEngine { decode_running: final(engine).decode_running, ..*old(engine) }),
{
}

/// A second start right after the first starts nothing.
pub proof fn second_start_is_none(
    first: &mut AudioEngine,
    second: &mut AudioEngine,
    r: Result<Option<DecodeStart>, String>,
    again: Result<Option<DecodeStart>, String>,
)
    requires
        call_ensures(AudioEngine::start_decode_thread_if_needed, (first,), r),
        call_ensures(AudioEngine::start_decode_thread_if_needed, (second,), again),
        *old(second) == *final(first),
        r is Ok,
    ensures
        again is Ok,
        again->Ok_0 is None,
        *final(second) == *final(first),
{
}

/// Once a thread was stopped or has ended none runs, so that the next start starts
/// one; stopping says whether there was one to wait for.
pub proof fn stopped_thread_can_be_started_again(
    stopped: &mut AudioEngine,
    was_running: bool,
    ended: &mut AudioEngine,
)
    requires
        call_ensures(AudioEngine::stop_decode_thread, (stopped,), was_running),
        call_ensures(AudioEngine::decode_ended, (ended,), ()),
    ensures
        was_running == old(stopped).decode_running,
        !final(stopped).decode_running,
        *final(stopped) == (AudioEngine { decode_running: false, ..*old(stopped) }),
        !final(ended).decode_running,
        *final(ended) == (AudioEngine { decode_running: false, ..*old(ended) }),
{
}

// ── What the engine tells ─────────────────────────────────────────────────────

/// A state that cannot be read is told as such: speed as normal, numbers as minus
/// one, the engine as idle.
pub proof fn unreadable_state_is_told<M: AudioMath, P: AudioProcessor>(
    engine: &AudioEngine,
    rate: Single,
    position: i32,
    seconds: i32,
    samples: i32,
    millis: i32,
    playing: i32,
    state: PlayerState,
    available: i32,
)
    requires
        call_ensures(AudioEngine::rate::<P>, (None,), rate),
        call_ensures(AudioEngine::position_millis::<M, P>, (engine, None), position),
        call_ensures(AudioEngine::max_queue_seconds::<P>, (None,), seconds),
        call_ensures(AudioEngine::buffered_samples::<P>, (None,), samples),
        call_ensures(AudioEngine::buffered_millis::<M, P>, (engine, None), millis),
        call_ensures(AudioEngine::is_playing::<P>, (None,), playing),
        call_ensures(AudioEngine::get_state::<P>, (engine, None), state),
        call_ensures(AudioEngine::visualizer_available_samples::<P>, (None,), available),
    ensures
        rate.bits == 0x3f80_0000,
        position == -1,
        seconds == -1,
        samples == -1,
        millis == -1,
        playing == -1,
        state == PlayerState::Idle,
        available == -1,
{
}

/// What the engine tells of a state is what that state holds.
pub proof fn state_is_told_as_it_is<M: AudioMath, P: AudioProcessor>(
    engine: &AudioEngine,
    s: &SharedPlayback<P>,
    rate: Single,
    seconds: i32,
    samples: i32,
    millis: i32,
    playing: i32,
    state: PlayerState,
    available: i32,
)
    requires
        call_ensures(AudioEngine::rate::<P>, (Some(s),), rate),
        call_ensures(AudioEngine::max_queue_seconds::<P>, (Some(s),), seconds),
        call_ensures(AudioEngine::buffered_samples::<P>, (Some(s),), samples),
        call_ensures(AudioEngine::buffered_millis::<M, P>, (engine, Some(s)), millis),
        call_ensures(AudioEngine::is_playing::<P>, (Some(s),), playing),
        call_ensures(AudioEngine::get_state::<P>, (engine, Some(s)), state),
        call_ensures(AudioEngine::visualizer_available_samples::<P>, (Some(s),), available),
    ensures
        rate == s.playback_rate,
        s.max_queue_seconds <= i32::MAX ==> seconds == s.max_queue_seconds,
        s.queue@.len() <= i32::MAX ==> samples == s.queue@.len(),
        s.visualizer_ring@.len() <= i32::MAX ==> available == s.visualizer_ring@.len(),
        playing == 1 <==> s.playing,
        playing == 0 <==> !s.playing,
        s.sample_rate == 0 ==> millis == 0,
        s.sample_rate > 0 && engine.out_channels > 0 ==> call_ensures(
            M::queued_millis,
            (s.queue@.len() as usize, engine.out_channels, s.sample_rate),
            millis,
        ),
        s.sample_rate > 0 && engine.out_channels == 0 ==> call_ensures(
            M::queued_millis,
            (s.queue@.len() as usize, 1usize, s.sample_rate),
            millis,
        ),
        engine.source is None ==> state == PlayerState::Idle,
        engine.source is Some ==> {
            &&& state == PlayerState::Playing <==> s.status is Playing
            &&& state == PlayerState::Paused <==> s.status is Paused
            &&& state == PlayerState::Stopped <==> s.status is Finished || s.status is Error
            &&& state == PlayerState::Idle <==> s.status is Idle || s.status is Buffering
        },
{
}

/// The engine tells the position of the state on its own device.
pub proof fn position_is_that_of_the_state<M: AudioMath, P: AudioProcessor>(
    engine: &AudioEngine,
    s: &SharedPlayback<P>,
    millis: i32,
)
    requires
        call_ensures(AudioEngine::position_millis::<M, P>, (engine, Some(s)), millis),
    ensures
        s.sample_rate == 0 || engine.out_channels == 0 ==> millis == 0,
        s.sample_rate > 0 && engine.out_channels > 0 ==> exists|n: u128| #[trigger]
            call_ensures(
                M::elapsed_nanos,
                (s.source_position_samples, s.sample_rate, engine.out_channels),
                n,
            ) && (n < 1_000_000 * 0x8000_0000 ==> millis * 1_000_000 <= n < (millis + 1) * 1_000_000),
{
    let n = choose|n: u128| #[trigger]
        crate::player_state::at_position::<M, P>(*s, engine.out_channels, n) && millis == (n / 1_000_000) as i32;
    if s.sample_rate > 0 && engine.out_channels > 0 {
        assert(call_ensures(
            M::elapsed_nanos,
            (s.source_position_samples, s.sample_rate, engine.out_channels),
            n,
        ));
        if n < 1_000_000 * 0x8000_0000 {
            assert(n / 1_000_000 < 0x8000_0000);
        }
    }
}

/// The engine tells the length of its source and the format of its device.
pub proof fn engine_tells_its_device(engine: &AudioEngine, duration: i32, rate: i32, channels: i32)
    requires
        call_ensures(AudioEngine::duration_millis, (engine,), duration),
        call_ensures(AudioEngine::visualizer_sample_rate, (engine,), rate),
        call_ensures(AudioEngine::visualizer_channels, (engine,), channels),
    ensures
        duration == engine.source_duration_millis,
        engine.out_sample_rate <= i32::MAX ==> rate == engine.out_sample_rate,
        engine.out_channels <= i32::MAX ==> channels == engine.out_channels,
{
}

/// A new engine plays nothing, has no stream yet, prefers the device that is named
/// and is set up for the format that it is told.
pub proof fn new_engine_is_ready(
    device_name: Option<String>,
    channels: u16,
    sample_rate: u32,
    engine: AudioEngine,
    default_engine: AudioEngine,
)
    requires
        call_ensures(AudioEngine::with_device, (device_name, channels, sample_rate), engine),
        call_ensures(AudioEngine::new, (channels, sample_rate), default_engine),
    ensures
        engine.preferred_device == device_name,
        default_engine.preferred_device is None,
        !engine.stream_started,
        engine.out_channels == channels,
        engine.out_sample_rate == sample_rate,
        engine.source is None,
        !engine.decode_running,
        engine.source_duration_millis == -1,
        engine.decode_start_millis == 0,
        engine.visualizer_processor.smoothed_bars@.len() == 64,
        back_to_flat(engine.visualizer_processor, engine.visualizer_processor),
        default_engine.source is None,
        !default_engine.stream_started,
        default_engine.out_channels == channels,
        default_engine.out_sample_rate == sample_rate,
        !default_engine.decode_running,
{
}

// ── The visualizer ────────────────────────────────────────────────────────────

/// The newest samples are copied, oldest first; a state that cannot be read leaves
/// the buffer alone.
pub proof fn engine_copies_the_newest<P: AudioProcessor>(
    shared: Option<&SharedPlayback<P>>,
    out: &mut [Single],
    r: i32,
)
    requires
        call_ensures(AudioEngine::copy_visualizer_samples::<P>, (shared, out), r),
        old(out)@.len() <= i32::MAX,
    ensures
        final(out)@.len() == old(out)@.len(),
        shared is None ==> r == -1 && final(out)@ == old(out)@,
        shared matches Some(s) ==> {
            &&& 0 <= r <= old(out)@.len()
            &&& r <= s.visualizer_ring@.len()
            &&& r == old(out)@.len() || r == s.visualizer_ring@.len()
            &&& forall|i: int| 0 <= i < r ==> final(out)@[i] == s.visualizer_ring@[s.visualizer_ring@.len() - r + i]
            &&& forall|i: int| r <= i < old(out)@.len() ==> final(out)@[i] == old(out)@[i]
        },
{
}

/// The spectrum is that of the samples in the format of the engine's device; a
/// state that cannot be read leaves display and visualizer alone, and nothing but
/// the visualizer ever changes.
pub proof fn spectrum_is_in_the_format_of_the_device<M: SpectrumMath>(
    engine: &mut AudioEngine,
    recent: Option<(Vec<Single>, bool)>,
    out: &mut [Single],
    r: i32,
)
    requires
        call_ensures(AudioEngine::copy_visualizer_spectrum::<M>, (engine, recent, out), r),
        0 < old(out)@.len() <= i32::MAX,
        old(out)@.len() <= usize::MAX,
    ensures
        *final(engine) == (AudioEngine {
            visualizer_processor: final(engine).visualizer_processor,
            ..*old(engine)
        }),
        recent is None ==> r == -1 && final(out)@ == old(out)@ && *final(engine) == *old(engine),
        recent is Some ==> r == old(out)@.len() && final(out)@ == final(engine).visualizer_processor.smoothed_bars@,
        recent matches Some((samples, playing)) ==> playing && 0 < old(engine).out_channels <= samples@.len() && old(
            engine).out_sample_rate > 0 ==> exists|a: Analysis| #[trigger]
            analyses::<M>(
                old(engine).visualizer_processor,
                samples@,
                old(engine).out_channels,
                old(engine).out_sample_rate,
                old(out)@.len() as usize,
                a,
                final(engine).visualizer_processor,
            ),
        recent matches Some((samples, playing)) ==> !playing && old(
            engine).visualizer_processor.smoothed_bars@.len() == old(out)@.len() ==> forall|i: int|
            0 <= i < old(out)@.len() ==> call_ensures(
                M::decay_bar,
                (old(engine).visualizer_processor.smoothed_bars@[i],),
                #[trigger] final(out)@[i],
            ),
{
}

/// The engine clears the filters of every channel, and nothing else.
pub proof fn engine_clears_the_filters<P: AudioProcessor>(shared: &mut SharedPlayback<P>)
    requires
        call_ensures(AudioEngine::clear_filters::<P>, (shared,), ()),
    ensures
        final(shared).effects@.len() == old(shared).effects@.len(),
        forall|i: int|
            0 <= i < final(shared).effects@.len() ==> (#[trigger] final(shared).effects@[i]).chain@.len() == 0,
        *final(shared) == (SharedPlayback { effects: final(shared).effects, ..*old(shared) }),
{
}

/// Revising the stream is rebuilding it.
pub proof fn revising_is_rebuilding(
    engine: &mut AudioEngine,
    other: &mut AudioEngine,
    r: Vec<EngineAction>,
    same: Vec<EngineAction>,
)
    requires
        call_ensures(crate::ffi::revise_stream, (engine,), r),
        call_ensures(AudioEngine::reset_stream, (other,), same),
        *old(engine) == *old(other),
    ensures
        *final(engine) == *final(other),
        r@ == same@,
{
}

} // verus!
