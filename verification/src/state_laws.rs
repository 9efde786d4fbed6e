//! What the shared state keeps: the queue in order, the newest samples for the
//! visualizer, and the settings through every control.

use crate::effects::AudioProcessor;
use crate::filter_laws::first_removed;
use crate::ieee::{silent, Single};
use crate::math::AudioMath;
use crate::output::{emits, write_output_f32, write_output_i16, write_output_u16};
use crate::player_state::{
    can_allocate, next_step, sample_count, sounds, PlaybackStatus, PlaybackUpdate, PlayerState, ResampleState,
    SharedPlayback,
};
use vstd::prelude::*;

verus! {

// ── Sizes ─────────────────────────────────────────────────────────────────────

/// The samples of some seconds are frames per second, times channels, times
/// seconds; a number that is too large becomes the largest one.
pub proof fn sizes_multiply(sample_rate: u32, channels: usize, seconds: usize, r: usize)
    requires
        call_ensures(sample_count, (sample_rate, channels, seconds), r),
    ensures
        sample_rate * channels * seconds <= usize::MAX && sample_rate * channels <= usize::MAX ==> r == sample_rate
            * channels * seconds,
        seconds > 0 && sample_rate * channels * seconds > usize::MAX ==> r == usize::MAX,
        seconds == 0 ==> r == 0,
{
    let a = sample_rate * channels;
    if seconds > 0 && a > usize::MAX {
        assert(usize::MAX as int * seconds as int >= usize::MAX as int) by (nonlinear_arith)
            requires
                seconds > 0,
        ;
    }
    if seconds == 0 {
        assert(crate::player_state::saturated(a) * 0 == 0);
    }
}

/// A second more never takes less room, nor does a second channel.
pub proof fn more_takes_no_less(
    sample_rate: u32,
    channels: usize,
    seconds: usize,
    r: usize,
    more_channels: usize,
    more_seconds: usize,
    more: usize,
)
    requires
        call_ensures(sample_count, (sample_rate, channels, seconds), r),
        call_ensures(sample_count, (sample_rate, more_channels, more_seconds), more),
        channels <= more_channels,
        seconds <= more_seconds,
    ensures
        r <= more,
{
    let a = sample_rate * channels;
    let b = sample_rate * more_channels;
    assert(0 <= a <= b) by (nonlinear_arith)
        requires
            a == sample_rate * channels,
            b == sample_rate * more_channels,
            channels <= more_channels,
            0 <= sample_rate,
            0 <= channels,
    ;
    let x = crate::player_state::saturated(a);
    let y = crate::player_state::saturated(b);
    assert(x * seconds <= y * more_seconds) by (nonlinear_arith)
        requires
            0 <= x <= y,
            0 <= seconds <= more_seconds,
    ;
}

/// A buffer can be allocated where its bytes, four a sample, are not more than the
/// largest allocation.
pub proof fn allocation_is_four_bytes_a_sample(
    sample_rate: u32,
    channels: usize,
    seconds: usize,
    samples: usize,
    r: bool,
)
    requires
        call_ensures(sample_count, (sample_rate, channels, seconds), samples),
        call_ensures(can_allocate, (sample_rate, channels, seconds), r),
    ensures
        r <==> 4 * samples <= isize::MAX,
{
}

// ── The queue ─────────────────────────────────────────────────────────────────

/// What is pushed joins the end of the queue, in order, as far as there is room:
/// either all of it or as much as fills the queue.  Nothing queued is lost.
pub proof fn pushed_samples_join_the_end<P: AudioProcessor>(s: &mut SharedPlayback<P>, samples: &[Single], r: usize)
    requires
        call_ensures(SharedPlayback::<P>::push_samples_bounded, (s, samples), r),
    ensures
        r <= samples@.len(),
        final(s).queue@.len() == old(s).queue@.len() + r,
        forall|i: int| 0 <= i < old(s).queue@.len() ==> final(s).queue@[i] == old(s).queue@[i],
        forall|i: int| 0 <= i < r ==> final(s).queue@[old(s).queue@.len() + i] == samples@[i],
        r < samples@.len() ==> final(s).queue@.len() >= old(s).max_samples,
        r > 0 ==> final(s).queue@.len() <= old(s).max_samples,
        *final(s) == (SharedPlayback { queue: final(s).queue, ..*old(s) }),
{
    assert forall|i: int| 0 <= i < r implies final(s).queue@[old(s).queue@.len() + i] == samples@[i] by {
        assert(samples@.take(r as int)[i] == samples@[i]);
    }
}

/// Pushing the rest later gives the queue that pushing everything at once gives
/// where there is room for all of it.
pub proof fn pushing_in_parts_is_pushing_at_once<P: AudioProcessor>(
    at_once: &mut SharedPlayback<P>,
    samples: &[Single],
    pushed: usize,
    part: &mut SharedPlayback<P>,
    first: &[Single],
    some: usize,
    next: &mut SharedPlayback<P>,
    rest: &[Single],
    others: usize,
)
    requires
        call_ensures(SharedPlayback::<P>::push_samples_bounded, (at_once, samples), pushed),
        call_ensures(SharedPlayback::<P>::push_samples_bounded, (part, first), some),
        call_ensures(SharedPlayback::<P>::push_samples_bounded, (next, rest), others),
        *old(at_once) == *old(part),
        *final(part) == *old(next),
        samples@ == first@ + rest@,
        old(at_once).queue@.len() + samples@.len() <= old(at_once).max_samples,
    ensures
        pushed == samples@.len(),
        some + others == pushed,
        final(next).queue@ == final(at_once).queue@,
{
    assert(samples@.take(samples@.len() as int) =~= samples@);
    assert(first@.take(first@.len() as int) =~= first@);
    assert(rest@.take(rest@.len() as int) =~= rest@);
    assert(final(next).queue@ =~= final(at_once).queue@);
}

/// A queue that is cut down keeps its newest samples, no more than the limit
/// allows and no fewer than it must; the limit lies between one second and two
/// minutes, and is what was asked for in between.
pub proof fn cut_queue_keeps_the_newest<P: AudioProcessor>(s: &mut SharedPlayback<P>, channels: usize, seconds: usize)
    requires
        call_ensures(SharedPlayback::<P>::set_max_queue_seconds, (s, channels, seconds), ()),
    ensures
        1 <= final(s).max_queue_seconds <= 120,
        1 <= seconds <= 120 ==> final(s).max_queue_seconds == seconds,
        seconds < 1 ==> final(s).max_queue_seconds == 1,
        seconds > 120 ==> final(s).max_queue_seconds == 120,
        old(s).sample_rate * channels * final(s).max_queue_seconds <= usize::MAX ==> final(s).max_samples == old(s).sample_rate * channels * final(s).max_queue_seconds,
        final(s).queue@.len() <= final(s).max_samples,
        final(s).queue@.len() <= old(s).queue@.len(),
        final(s).queue@.len() < old(s).queue@.len() ==> final(s).queue@.len() == final(s).max_samples,
        forall|age: int|
            1 <= age <= final(s).queue@.len() ==> #[trigger] final(s).queue@[final(s).queue@.len() - age] == old(s).queue@[old(s).queue@.len() - age],
        final(s).visualizer_ring@ == old(s).visualizer_ring@,
        final(s).source_position_samples == old(s).source_position_samples,
        final(s).emitted_samples == old(s).emitted_samples,
        final(s).playing == old(s).playing,
        final(s).volume == old(s).volume,
        final(s).playback_rate == old(s).playback_rate,
        final(s).effects == old(s).effects,
        final(s).status == old(s).status,
{
    let a = old(s).sample_rate * channels;
    let n = final(s).max_queue_seconds as int;
    assert(a * n >= a) by (nonlinear_arith)
        requires
            a >= 0,
            n >= 1,
    ;
}

// ── The visualizer's samples ──────────────────────────────────────────────────

/// A sample that is recorded becomes the newest; the others keep their order, and
/// the oldest leaves only where there is no room.
pub proof fn recorded_sample_is_the_newest<P: AudioProcessor>(s: &mut SharedPlayback<P>, sample: Single)
    requires
        call_ensures(SharedPlayback::<P>::push_visualizer_sample, (s, sample), ()),
        old(s).visualizer_max_samples > 0,
    ensures
        final(s).visualizer_ring@.len() >= 1,
        final(s).visualizer_ring@[final(s).visualizer_ring@.len() - 1] == sample,
        old(s).visualizer_ring@.len() < old(s).visualizer_max_samples ==> final(s).visualizer_ring@.len() == old(s).visualizer_ring@.len() + 1,
        old(s).visualizer_ring@.len() >= old(s).visualizer_max_samples ==> final(s).visualizer_ring@.len() == old(s).visualizer_ring@.len(),
        forall|age: int|
            2 <= age <= final(s).visualizer_ring@.len() ==> #[trigger] final(s).visualizer_ring@[final(s).visualizer_ring@.len() - age] == old(s).visualizer_ring@[old(s).visualizer_ring@.len() - age + 1],
        final(s).queue@ == old(s).queue@,
        *final(s) == (SharedPlayback { visualizer_ring: final(s).visualizer_ring, ..*old(s) }),
{
}

/// A copy for the visualizer holds the newest samples, oldest first, and leaves
/// the rest of the buffer alone.
pub proof fn copy_holds_the_newest<P: AudioProcessor>(s: &SharedPlayback<P>, out: &mut [Single], r: usize)
    requires
        call_ensures(SharedPlayback::<P>::copy_latest_visualizer_samples, (s, out), r),
    ensures
        final(out)@.len() == old(out)@.len(),
        r <= old(out)@.len(),
        r <= s.visualizer_ring@.len(),
        r == old(out)@.len() || r == s.visualizer_ring@.len(),
        forall|i: int| 0 <= i < r ==> final(out)@[i] == s.visualizer_ring@[s.visualizer_ring@.len() - r + i],
        forall|i: int| r <= i < old(out)@.len() ==> final(out)@[i] == old(out)@[i],
{
}

/// A snapshot holds every sample that a copy into a large enough buffer holds.
pub proof fn snapshot_is_the_whole_ring<P: AudioProcessor>(
    s: &SharedPlayback<P>,
    snapshot: Vec<Single>,
    out: &mut [Single],
    r: usize,
)
    requires
        call_ensures(SharedPlayback::<P>::visualizer_snapshot, (s,), snapshot),
        call_ensures(SharedPlayback::<P>::copy_latest_visualizer_samples, (s, out), r),
        old(out)@.len() >= s.visualizer_ring@.len(),
    ensures
        snapshot@.len() == r,
        snapshot@ == final(out)@.take(r as int),
{
    assert(snapshot@ =~= final(out)@.take(r as int));
}

// ── Controls ──────────────────────────────────────────────────────────────────

/// Whether everything that a user sets is in `after` as it is in `before`.
pub open spec fn same_settings<P>(before: SharedPlayback<P>, after: SharedPlayback<P>) -> bool {
    &&& after.volume == before.volume
    &&& after.max_samples == before.max_samples
    &&& after.max_queue_seconds == before.max_queue_seconds
    &&& after.visualizer_max_samples == before.visualizer_max_samples
    &&& after.sample_rate == before.sample_rate
    &&& after.effects@.len() == before.effects@.len()
}

/// Whether no sample is buffered.
pub open spec fn nothing_buffered<P>(s: SharedPlayback<P>) -> bool {
    s.queue@.len() == 0 && s.visualizer_ring@.len() == 0
}

/// Whether what is buffered and where playback stands is the same.
pub open spec fn same_place<P>(before: SharedPlayback<P>, after: SharedPlayback<P>) -> bool {
    &&& after.queue@ == before.queue@
    &&& after.visualizer_ring@ == before.visualizer_ring@
    &&& after.source_position_samples == before.source_position_samples
    &&& after.emitted_samples == before.emitted_samples
    &&& after.effects == before.effects
    &&& after.underrun_count == before.underrun_count
}

/// Starting to play leaves a player that plays, pausing one that is paused; both
/// leave it where it is, and only a start says that more is to come.
pub proof fn playing_is_set<P: AudioProcessor>(s: &mut SharedPlayback<P>, playing: bool)
    requires
        call_ensures(SharedPlayback::<P>::set_playing, (s, playing), ()),
    ensures
        final(s).playing == playing,
        playing ==> final(s).status == PlaybackStatus::Playing && !final(s).stream_finished,
        !playing ==> final(s).status == PlaybackStatus::Paused && final(s).stream_finished == old(s).stream_finished,
        same_settings(*old(s), *final(s)),
        same_place(*old(s), *final(s)),
        final(s).playback_rate == old(s).playback_rate,
{
}

/// The volume lies between zero and four, is what was asked for in between, and
/// is all that changes.
pub proof fn volume_is_set<P: AudioProcessor>(s: &mut SharedPlayback<P>, volume: Single)
    requires
        call_ensures(SharedPlayback::<P>::set_volume, (s, volume), ()),
    ensures
        ({
            let four = Single { bits: 0x4080_0000 };
            &&& !volume.nan() ==> silent().at_most(final(s).volume) && final(s).volume.at_most(four)
            &&& silent().at_most(volume) && volume.at_most(four) ==> final(s).volume == volume
            &&& volume.less(silent()) ==> final(s).volume == silent()
            &&& four.less(volume) ==> final(s).volume == four
        }),
        *final(s) == (SharedPlayback { volume: final(s).volume, ..*old(s) }),
{
}

/// Clearing the audio state leaves nothing buffered, no effect, no underrun and
/// the start of the source; whether it plays, and the settings, stay.
pub proof fn clearing_forgets_the_track<P: AudioProcessor>(s: &mut SharedPlayback<P>)
    requires
        call_ensures(SharedPlayback::<P>::clear_audio_state, (s,), ()),
    ensures
        nothing_buffered(*final(s)),
        final(s).source_position_samples.bits == 0,
        final(s).emitted_samples == 0,
        final(s).underrun_count == 0,
        final(s).stream_finished,
        forall|i: int| 0 <= i < final(s).effects@.len() ==> (#[trigger] final(s).effects@[i]).chain@.len() == 0,
        same_settings(*old(s), *final(s)),
        final(s).playback_rate == old(s).playback_rate,
        final(s).playing == old(s).playing,
        final(s).status == old(s).status,
{
}

/// Clearing the filters empties every chain and touches nothing else.
pub proof fn clearing_filters_bypasses_every_channel<P: AudioProcessor>(s: &mut SharedPlayback<P>)
    requires
        call_ensures(SharedPlayback::<P>::clear_filters, (s,), ()),
    ensures
        final(s).effects@.len() == old(s).effects@.len(),
        forall|i: int| 0 <= i < final(s).effects@.len() ==> (#[trigger] final(s).effects@[i]).chain@.len() == 0,
        *final(s) == (SharedPlayback { effects: final(s).effects, ..*old(s) }),
{
}

/// Removing a filter takes the first of that name out of every channel's chain
/// and touches nothing else.
pub proof fn removing_a_filter_reaches_every_channel<P: AudioProcessor>(
    s: &mut SharedPlayback<P>,
    name: &str,
    i: int,
)
    requires
        call_ensures(SharedPlayback::<P>::remove_filter_named, (s, name), ()),
        0 <= i < old(s).effects@.len(),
    ensures
        final(s).effects@.len() == old(s).effects@.len(),
        first_removed(old(s).effects@[i].chain@, name@, final(s).effects@[i].chain@),
        *final(s) == (SharedPlayback { effects: final(s).effects, ..*old(s) }),
{
    crate::filter_laws::lemma_first_removed(old(s).effects@[i].chain@, name@);
}

/// Each step of a control operation does what its name says, and nothing else: a
/// step that starts anew leaves nothing buffered and does not play; one that
/// forgets the track goes back to the start; settings always stay, and the rate
/// changes only by its own step.
pub proof fn updates_do_what_they_say<M: AudioMath, P: AudioProcessor>(
    s: &mut SharedPlayback<P>,
    update: PlaybackUpdate,
)
    requires
        call_ensures(SharedPlayback::<P>::apply::<M>, (s, update), ()),
    ensures
        same_settings(*old(s), *final(s)),
        update is SetRate ==> final(s).playback_rate == update->SetRate_0,
        !(update is SetRate) ==> final(s).playback_rate == old(s).playback_rate,
        update is Interrupt || update is Load || update is Halt || update is Restart ==> nothing_buffered(*final(s)),
        update is SetPlaying || update is SetRate || update is BeginDecode || update is EndDecode ==> same_place(
            *old(s),
            *final(s),
        ),
        update is Interrupt || update is Load || update is Restart ==> !final(s).playing,
        update is SetPlaying ==> final(s).playing == update->SetPlaying_0,
        update is SetRate || update is BeginDecode || update is EndDecode || update is Halt ==> final(s).playing == old(s).playing,
        update is EndDecode || update is Halt ==> final(s).stream_finished,
        update is Interrupt || update is Load || update is Restart || update is BeginDecode ==> !final(s).stream_finished,
        update is SetRate ==> final(s).stream_finished == old(s).stream_finished,
        update is Load || update is Halt ==> final(s).status == PlaybackStatus::Idle && final(s).emitted_samples == 0
            && final(s).source_position_samples.bits == 0 && final(s).underrun_count == 0,
        update is Load || update is Halt ==> forall|i: int|
            0 <= i < final(s).effects@.len() ==> (#[trigger] final(s).effects@[i]).chain@.len() == 0,
        !(update is Load) && !(update is Halt) ==> final(s).effects == old(s).effects && final(s).underrun_count == old(s).underrun_count,
        update is Interrupt ==> final(s).source_position_samples == old(s).source_position_samples
            && final(s).emitted_samples == old(s).emitted_samples && final(s).status == old(s).status,
        update is Restart ==> final(s).emitted_samples == 0 && call_ensures(
            M::position_of,
            (update->Restart_samples,),
            final(s).source_position_samples,
        ) && final(s).status == old(s).status,
        update is SetPlaying ==> final(s).status == if update->SetPlaying_0 {
            PlaybackStatus::Playing
        } else {
            PlaybackStatus::Paused
        },
        update is SetRate || update is BeginDecode || update is EndDecode ==> final(s).status == old(s).status,
{
}

/// The simple state says whether a player plays, is paused, has come to an end,
/// well or by an error, or has nothing to play yet.
pub proof fn simple_state_follows_the_status(status: &PlaybackStatus, r: PlayerState)
    requires
        call_ensures(<PlayerState as From<&PlaybackStatus>>::from, (status,), r),
    ensures
        r == PlayerState::Playing <==> *status is Playing,
        r == PlayerState::Paused <==> *status is Paused,
        r == PlayerState::Stopped <==> *status is Finished || *status is Error,
        r == PlayerState::Idle <==> *status is Idle || *status is Buffering,
{
}

// ── Position ──────────────────────────────────────────────────────────────────

/// The position is the time that the samples of the source position take at the
/// rate of the device, in nanoseconds, or in whole milliseconds as far as those
/// fit; without a device it is zero.
pub proof fn position_is_told_in_time<M: AudioMath, P: AudioProcessor>(
    s: &SharedPlayback<P>,
    out_channels: usize,
    nanos: u128,
    millis: i32,
)
    requires
        call_ensures(SharedPlayback::<P>::position::<M>, (s, out_channels), nanos),
        call_ensures(SharedPlayback::<P>::position_millis::<M>, (s, out_channels), millis),
    ensures
        s.sample_rate == 0 || out_channels == 0 ==> nanos == 0 && millis == 0,
        s.sample_rate > 0 && out_channels > 0 ==> call_ensures(
            M::elapsed_nanos,
            (s.source_position_samples, s.sample_rate, out_channels),
            nanos,
        ),
        s.sample_rate > 0 && out_channels > 0 ==> exists|n: u128| #[trigger]
            call_ensures(M::elapsed_nanos, (s.source_position_samples, s.sample_rate, out_channels), n) && (n
                < 1_000_000 * 0x8000_0000 ==> millis * 1_000_000 <= n < (millis + 1) * 1_000_000),
{
    let n = choose|n: u128| #[trigger]
        crate::player_state::at_position::<M, P>(*s, out_channels, n) && millis == (n / 1_000_000) as i32;
    if s.sample_rate > 0 && out_channels > 0 {
        assert(call_ensures(M::elapsed_nanos, (s.source_position_samples, s.sample_rate, out_channels), n));
        if n < 1_000_000 * 0x8000_0000 {
            assert(n / 1_000_000 < 0x8000_0000);
        }
    }
}

// ── Filling buffers ───────────────────────────────────────────────────────────

proof fn lemma_run_takes<M: AudioMath, P: AudioProcessor>(
    states: Seq<SharedPlayback<P>>,
    samples: Seq<Single>,
    n: int,
)
    requires
        emits::<M, P>(states, samples),
        0 <= n <= samples.len(),
        states[0].playing,
        states[0].queue@.len() >= n,
    ensures
        states[n].playing,
        states[n].queue@ == states[0].queue@.skip(n),
        states[0].emitted_samples + n <= u64::MAX ==> states[n].emitted_samples == states[0].emitted_samples + n,
        states[n].volume == states[0].volume,
        states[n].playback_rate == states[0].playback_rate,
        states[n].underrun_count == states[0].underrun_count,
    decreases n,
{
    if n == 0 {
        assert(states[0].queue@.skip(0) =~= states[0].queue@);
    } else {
        lemma_run_takes::<M, P>(states, samples, n - 1);
        let before = states[n - 1];
        let after = states[n];
        assert(next_step::<M, P>(states[n - 1], states[n - 1 + 1], samples[n - 1]));
        let (scaled, effected) = choose|scaled: Single, effected: Single| #[trigger]
            sounds::<M, P>(before, after, scaled, effected, samples[n - 1]);
        assert(sounds::<M, P>(before, after, scaled, effected, samples[n - 1]));
        assert(after.queue@ =~= states[0].queue@.skip(n));
    }
}

proof fn lemma_run_is_silent<M: AudioMath, P: AudioProcessor>(
    states: Seq<SharedPlayback<P>>,
    samples: Seq<Single>,
    n: int,
)
    requires
        emits::<M, P>(states, samples),
        0 <= n <= samples.len(),
        !states[0].playing,
    ensures
        states[n] == states[0],
        forall|i: int| 0 <= i < n ==> (#[trigger] samples[i]).bits == 0,
    decreases n,
{
    if n > 0 {
        lemma_run_is_silent::<M, P>(states, samples, n - 1);
        assert(next_step::<M, P>(states[n - 1], states[n - 1 + 1], samples[n - 1]));
    }
}

/// A buffer takes as many queued samples as it holds, from the front of the
/// queue; a player that does not play fills it with silence and stays as it is.
/// Every sample is one step of the player.
pub proof fn buffer_takes_what_it_holds<M: AudioMath, P: AudioProcessor>(
    data: &mut [Single],
    s: &mut SharedPlayback<P>,
)
    requires
        call_ensures(write_output_f32::<M, P>, (data, s), ()),
    ensures
        final(data)@.len() == old(data)@.len(),
        old(s).playing && old(s).queue@.len() >= old(data)@.len() ==> old(s).queue@ == old(s).queue@.take(
            old(data)@.len() as int,
        ) + final(s).queue@ && final(s).playing,
        old(s).playing && old(s).queue@.len() >= old(data)@.len() && old(s).emitted_samples + old(data)@.len()
            <= u64::MAX ==> final(s).emitted_samples == old(s).emitted_samples + old(data)@.len(),
        !old(s).playing ==> *final(s) == *old(s) && forall|i: int|
            0 <= i < final(data)@.len() ==> (#[trigger] final(data)@[i]).bits == 0,
        old(data)@.len() == 0 ==> *final(s) == *old(s),
        exists|states: Seq<SharedPlayback<P>>|
            #![trigger states.len()]
            states.len() == old(data)@.len() + 1 && states[0] == *old(s) && states[states.len() - 1] == *final(s)
                && forall|i: int|
                0 <= i < old(data)@.len() ==> next_step::<M, P>(states[i], states[i + 1], #[trigger] final(data)@[i]),
{
    let samples = final(data)@;
    let states = choose|states: Seq<SharedPlayback<P>>| #[trigger]
        emits::<M, P>(states, samples) && states[0] == *old(s) && states.last() == *final(s);
    let n = samples.len() as int;
    assert(states.len() == n + 1);
    if old(s).playing && old(s).queue@.len() >= n {
        lemma_run_takes::<M, P>(states, samples, n);
        assert(old(s).queue@ =~= old(s).queue@.take(n) + final(s).queue@);
    }
    if !old(s).playing {
        lemma_run_is_silent::<M, P>(states, samples, n);
    }
}

/// A buffer of signed samples holds the signed form of each sample that a buffer
/// of the same length may get, in order, and leaves the player as that one does.
pub proof fn signed_buffer_is_the_same_sound<M: AudioMath, P: AudioProcessor>(
    data: &mut [i16],
    s: &mut SharedPlayback<P>,
)
    requires
        call_ensures(write_output_i16::<M, P>, (data, s), ()),
    ensures
        final(data)@.len() == old(data)@.len(),
        exists|states: Seq<SharedPlayback<P>>, samples: Seq<Single>|
            #![trigger emits::<M, P>(states, samples)]
            states.len() == old(data)@.len() + 1 && samples.len() == old(data)@.len() && states[0] == *old(s)
                && states[states.len() - 1] == *final(s) && (forall|i: int|
                0 <= i < samples.len() ==> next_step::<M, P>(states[i], states[i + 1], #[trigger] samples[i]))
                && forall|i: int|
                0 <= i < samples.len() ==> call_ensures(M::to_signed, (samples[i],), #[trigger] final(data)@[i]),
        old(s).playing && old(s).queue@.len() >= old(data)@.len() ==> old(s).queue@ == old(s).queue@.take(
            old(data)@.len() as int,
        ) + final(s).queue@,
        !old(s).playing ==> *final(s) == *old(s) && forall|i: int|
            0 <= i < final(data)@.len() ==> call_ensures(M::to_signed, (silent(),), #[trigger] final(data)@[i]),
{
    let samples = choose|samples: Seq<Single>| #[trigger]
        crate::output::plays::<M, P>(*old(s), samples, *final(s)) && samples.len() == final(data)@.len() && forall|
            i: int,
        |
            0 <= i < samples.len() ==> call_ensures(M::to_signed, (samples[i],), #[trigger] final(data)@[i]);
    let states = choose|states: Seq<SharedPlayback<P>>| #[trigger]
        emits::<M, P>(states, samples) && states[0] == *old(s) && states.last() == *final(s);
    let n = samples.len() as int;
    assert(emits::<M, P>(states, samples));
    if old(s).playing && old(s).queue@.len() >= n {
        lemma_run_takes::<M, P>(states, samples, n);
        assert(old(s).queue@ =~= old(s).queue@.take(n) + final(s).queue@);
    }
    if !old(s).playing {
        lemma_run_is_silent::<M, P>(states, samples, n);
        assert forall|i: int| 0 <= i < n implies call_ensures(
            M::to_signed,
            (silent(),),
            #[trigger] final(data)@[i],
        ) by {
            assert(samples[i] == silent());
        }
    }
}

/// A buffer of unsigned samples holds the unsigned form of each sample that a
/// buffer of the same length may get, in order, and leaves the player as that one
/// does.
pub proof fn unsigned_buffer_is_the_same_sound<M: AudioMath, P: AudioProcessor>(
    data: &mut [u16],
    s: &mut SharedPlayback<P>,
)
    requires
        call_ensures(write_output_u16::<M, P>, (data, s), ()),
    ensures
        final(data)@.len() == old(data)@.len(),
        exists|states: Seq<SharedPlayback<P>>, samples: Seq<Single>|
            #![trigger emits::<M, P>(states, samples)]
            states.len() == old(data)@.len() + 1 && samples.len() == old(data)@.len() && states[0] == *old(s)
                && states[states.len() - 1] == *final(s) && (forall|i: int|
                0 <= i < samples.len() ==> next_step::<M, P>(states[i], states[i + 1], #[trigger] samples[i]))
                && forall|i: int|
                0 <= i < samples.len() ==> call_ensures(M::to_unsigned, (samples[i],), #[trigger] final(data)@[i]),
        old(s).playing && old(s).queue@.len() >= old(data)@.len() ==> old(s).queue@ == old(s).queue@.take(
            old(data)@.len() as int,
        ) + final(s).queue@,
        !old(s).playing ==> *final(s) == *old(s) && forall|i: int|
            0 <= i < final(data)@.len() ==> call_ensures(M::to_unsigned, (silent(),), #[trigger] final(data)@[i]),
{
    let samples = choose|samples: Seq<Single>| #[trigger]
        crate::output::plays::<M, P>(*old(s), samples, *final(s)) && samples.len() == final(data)@.len() && forall|
            i: int,
        |
            0 <= i < samples.len() ==> call_ensures(M::to_unsigned, (samples[i],), #[trigger] final(data)@[i]);
    let states = choose|states: Seq<SharedPlayback<P>>| #[trigger]
        emits::<M, P>(states, samples) && states[0] == *old(s) && states.last() == *final(s);
    let n = samples.len() as int;
    assert(emits::<M, P>(states, samples));
    if old(s).playing && old(s).queue@.len() >= n {
        lemma_run_takes::<M, P>(states, samples, n);
        assert(old(s).queue@ =~= old(s).queue@.take(n) + final(s).queue@);
    }
    if !old(s).playing {
        lemma_run_is_silent::<M, P>(states, samples, n);
        assert forall|i: int| 0 <= i < n implies call_ensures(
            M::to_unsigned,
            (silent(),),
            #[trigger] final(data)@[i],
        ) by {
            assert(samples[i] == silent());
        }
    }
}

/// A new player holds nothing, stands at the start, does not play, and would play
/// at full volume and normal speed without effects; its queue takes twenty
/// seconds, and the visualizer two.
pub proof fn new_player_is_ready<P: AudioProcessor>(channels: usize, sample_rate: u32, s: SharedPlayback<P>)
    requires
        call_ensures(SharedPlayback::<P>::new, (channels, sample_rate), s),
    ensures
        nothing_buffered(s),
        s.volume.bits == 0x3f80_0000,
        s.playback_rate.bits == 0x3f80_0000,
        !s.playing,
        s.stream_finished,
        s.status is Idle,
        s.emitted_samples == 0,
        s.underrun_count == 0,
        s.source_position_samples.bits == 0,
        s.sample_rate == sample_rate,
        channels > 0 ==> s.effects@.len() == channels,
        channels == 0 ==> s.effects@.len() == 1,
        forall|i: int| 0 <= i < s.effects@.len() ==> (#[trigger] s.effects@[i]).chain@.len() == 0,
        s.max_queue_seconds == 20,
        sample_rate * channels * 20 <= usize::MAX ==> s.max_samples == sample_rate * channels * 20
            && s.visualizer_max_samples == sample_rate * channels * 2,
{
}

/// A sample is not recorded where the visualizer keeps none.
pub proof fn nothing_is_recorded_without_room<P: AudioProcessor>(s: &mut SharedPlayback<P>, sample: Single)
    requires
        call_ensures(SharedPlayback::<P>::push_visualizer_sample, (s, sample), ()),
        old(s).visualizer_max_samples == 0,
    ensures
        final(s).visualizer_ring@ == old(s).visualizer_ring@,
        *final(s) == (SharedPlayback { visualizer_ring: final(s).visualizer_ring, ..*old(s) }),
{
}

/// Setting a filter takes the first one of its name out of every channel's chain,
/// and puts what is made for the device's rate, if anything, at its end.
pub proof fn set_filter_goes_to_the_end<P: AudioProcessor, F: Fn(u32) -> Option<P>>(
    s: &mut SharedPlayback<P>,
    name: &str,
    make: F,
    i: int,
)
    requires
        call_ensures(SharedPlayback::<P>::set_filter_named::<F>, (s, name, make), ()),
        0 <= i < old(s).effects@.len(),
    ensures
        final(s).effects@.len() == old(s).effects@.len(),
        exists|made: Option<P>| #[trigger]
            call_ensures(make, (old(s).sample_rate,), made) && match made {
                Some(f) => final(s).effects@[i].chain@.len() > 0 && final(s).effects@[i].chain@.last() == f
                    && first_removed(
                    old(s).effects@[i].chain@,
                    name@,
                    final(s).effects@[i].chain@.drop_last(),
                ),
                None => first_removed(old(s).effects@[i].chain@, name@, final(s).effects@[i].chain@),
            },
        *final(s) == (SharedPlayback { effects: final(s).effects, ..*old(s) }),
{
    let before = old(s).effects@[i].chain@;
    let after = final(s).effects@[i].chain@;
    crate::filter_laws::lemma_first_removed(before, name@);
    let rest = crate::effects::without_first(before, name@);
    let made = choose|made: Option<P>| #[trigger]
        call_ensures(make, (old(s).sample_rate,), made) && after == match made {
            Some(f) => rest.push(f),
            None => rest,
        };
    assert(call_ensures(make, (old(s).sample_rate,), made));
    if made is Some {
        assert(after.drop_last() =~= rest);
    }
}

/// A resampler begins, and begins again, at the start and with nothing carried.
pub proof fn resampler_begins_at_the_start(fresh: ResampleState, state: &mut ResampleState)
    requires
        call_ensures(ResampleState::new, (), fresh),
        call_ensures(ResampleState::reset, (state,), ()),
    ensures
        fresh.pos.bits == 0,
        fresh.carry@.len() == 0,
        final(state).pos.bits == 0,
        final(state).carry@.len() == 0,
{
}

} // verus!
