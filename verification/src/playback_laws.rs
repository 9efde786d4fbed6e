//! What the audio callback and the queue are for: every queued sample is heard
//! once, in order, at the volume that is set, through its channel's effects, and
//! the position keeps up with it.

use crate::effects::{carries, AudioProcessor};
use crate::ieee::{Double, Single, MINUS_ONE, ONE};
use crate::math::AudioMath;
use crate::player_state::{sounds, SharedPlayback};
use vstd::prelude::*;

verus! {

// ── One sample ────────────────────────────────────────────────────────────────

/// Whether `r` is `x` cut off at full scale: `x` itself within full scale, full
/// scale of the same sign beyond.
pub open spec fn cut_off(x: Single, r: Single) -> bool {
    &&& !x.nan() ==> (Single { bits: MINUS_ONE }).at_most(r) && r.at_most(Single { bits: ONE })
    &&& (Single { bits: MINUS_ONE }).at_most(x) && x.at_most(Single { bits: ONE }) ==> r == x
    &&& (Single { bits: ONE }).less(x) ==> r.bits == ONE
    &&& x.less(Single { bits: MINUS_ONE }) ==> r.bits == MINUS_ONE
    &&& x.nan() ==> r == x
}

/// A player that does not play sends silence and changes nothing.
pub proof fn silent_while_not_playing<M: AudioMath, P: AudioProcessor>(s: &mut SharedPlayback<P>, r: Single)
    requires
        call_ensures(SharedPlayback::<P>::next_sample::<M>, (s,), r),
        !old(s).playing,
    ensures
        r.bits == 0,
        *final(s) == *old(s),
{
}

/// A playing player takes the oldest queued sample, and only that one; what it
/// sends is the newest sample that the visualizer sees.  The position advances by
/// the playback rate; settings stay.
pub proof fn oldest_sample_is_taken<M: AudioMath, P: AudioProcessor>(s: &mut SharedPlayback<P>, r: Single)
    requires
        call_ensures(SharedPlayback::<P>::next_sample::<M>, (s,), r),
        old(s).playing,
        old(s).queue@.len() > 0,
    ensures
        seq![old(s).queue@[0]] + final(s).queue@ == old(s).queue@,
        old(s).emitted_samples < u64::MAX ==> final(s).emitted_samples == old(s).emitted_samples + 1,
        old(s).emitted_samples == u64::MAX ==> final(s).emitted_samples == u64::MAX,
        old(s).visualizer_max_samples > 0 ==> final(s).visualizer_ring@.len() > 0 && final(s).visualizer_ring@.last()
            == r,
        old(s).visualizer_max_samples > 0 ==> forall|age: int|
            2 <= age <= final(s).visualizer_ring@.len() ==> #[trigger] final(s).visualizer_ring@[final(
                s).visualizer_ring@.len() - age] == old(s).visualizer_ring@[old(s).visualizer_ring@.len() - age + 1],
        0 < old(s).visualizer_max_samples <= old(s).visualizer_ring@.len() ==> final(s).visualizer_ring@.len() == old(
            s).visualizer_ring@.len(),
        old(s).visualizer_ring@.len() < old(s).visualizer_max_samples ==> final(s).visualizer_ring@.len() == old(
            s).visualizer_ring@.len() + 1,
        old(s).visualizer_max_samples == 0 ==> final(s).visualizer_ring@ == old(s).visualizer_ring@,
        call_ensures(
            M::advance,
            (old(s).source_position_samples, old(s).playback_rate),
            final(s).source_position_samples,
        ),
        final(s).playing,
        final(s).volume == old(s).volume,
        final(s).playback_rate == old(s).playback_rate,
        final(s).status == old(s).status,
        final(s).stream_finished == old(s).stream_finished,
        final(s).underrun_count == old(s).underrun_count,
        final(s).max_samples == old(s).max_samples,
        final(s).max_queue_seconds == old(s).max_queue_seconds,
        final(s).visualizer_max_samples == old(s).visualizer_max_samples,
        final(s).sample_rate == old(s).sample_rate,
{
    assert(seq![old(s).queue@[0]] + old(s).queue@.drop_first() =~= old(s).queue@);
}

/// The volume is that of the player: without effects, what is sent is the queued
/// sample scaled by the master volume, cut off at full scale.
pub proof fn volume_is_applied<M: AudioMath, P: AudioProcessor>(s: &mut SharedPlayback<P>, r: Single)
    requires
        call_ensures(SharedPlayback::<P>::next_sample::<M>, (s,), r),
        old(s).playing,
        old(s).queue@.len() > 0,
        forall|i: int| 0 <= i < old(s).effects@.len() ==> (#[trigger] old(s).effects@[i]).chain@.len() == 0,
    ensures
        exists|scaled: Single| #[trigger]
            call_ensures(M::scale, (old(s).queue@[0], old(s).volume), scaled) && cut_off(scaled, r),
{
    let (scaled, effected) = choose|scaled: Single, effected: Single| #[trigger]
        sounds::<M, P>(*old(s), *final(s), scaled, effected, r);
    let c = old(s).next_channel();
    lemma_channel(*old(s));
    if c < old(s).effects@.len() {
        let before = old(s).effects@[c].chain@;
        let wire = choose|wire: Seq<Single>| #[trigger]
            carries(before, c as usize, final(s).effects@[c].chain@, wire) && wire[0] == scaled && wire.last()
                == effected;
        assert(effected == scaled);
    }
    assert(call_ensures(M::scale, (old(s).queue@[0], old(s).volume), scaled));
}

proof fn lemma_channel<P: AudioProcessor>(s: SharedPlayback<P>)
    ensures
        0 <= s.next_channel(),
        s.effects@.len() > 0 ==> s.next_channel() < s.effects@.len(),
{
    let n = if s.effects@.len() == 0 {
        1
    } else {
        s.effects@.len() as int
    };
    vstd::arithmetic::div_mod::lemma_mod_bound((s.emitted_samples as usize) as int, n);
}

/// Samples go round the channels: sample number `n` of a stream goes through the
/// effects of channel `n` modulo the number of channels, after the volume, and
/// the effects of the other channels are not touched.  Each effect gets what the
/// one before it gave, and what the last one gives is cut off at full scale.
pub proof fn samples_go_round_the_channels<M: AudioMath, P: AudioProcessor>(s: &mut SharedPlayback<P>, r: Single)
    requires
        call_ensures(SharedPlayback::<P>::next_sample::<M>, (s,), r),
        old(s).playing,
        old(s).queue@.len() > 0,
        old(s).effects@.len() > 0,
        old(s).emitted_samples <= usize::MAX,
    ensures
        final(s).effects@.len() == old(s).effects@.len(),
        forall|i: int|
            0 <= i < old(s).effects@.len() && i != old(s).emitted_samples as int % old(s).effects@.len() as int
                ==> final(s).effects@[i] == old(s).effects@[i],
        ({
            let c = old(s).emitted_samples as int % old(s).effects@.len() as int;
            let before = old(s).effects@[c].chain@;
            let after = final(s).effects@[c].chain@;
            &&& after.len() == before.len()
            &&& exists|given: Seq<Single>|
                #![trigger given.len()]
                {
                    &&& given.len() == before.len() + 1
                    &&& call_ensures(M::scale, (old(s).queue@[0], old(s).volume), given[0])
                    &&& forall|i: int|
                        0 <= i < before.len() ==> (#[trigger] before[i]).processes(
                            given[i],
                            c as usize,
                            after[i],
                            given[i + 1],
                        )
                    &&& cut_off(given[given.len() - 1], r)
                }
        }),
{
    let (scaled, effected) = choose|scaled: Single, effected: Single| #[trigger]
        sounds::<M, P>(*old(s), *final(s), scaled, effected, r);
    let c = old(s).next_channel();
    lemma_channel(*old(s));
    assert(c == old(s).emitted_samples as int % old(s).effects@.len() as int);
    let before = old(s).effects@[c].chain@;
    let after = final(s).effects@[c].chain@;
    let wire = choose|wire: Seq<Single>| #[trigger]
        carries(before, c as usize, after, wire) && wire[0] == scaled && wire.last() == effected;
    assert(wire.len() == before.len() + 1);
    assert forall|i: int| 0 <= i < before.len() implies (#[trigger] before[i]).processes(
        wire[i],
        c as usize,
        after[i],
        wire[i + 1],
    ) by {
        assert(before[i].processes(wire[i], c as usize, after[i], wire[i + 1]));
    }
}

/// A player with an empty queue sends silence.  It counts an underrun while more
/// samples are to come, and finishes once none are.
pub proof fn empty_queue_underruns_or_finishes<M: AudioMath, P: AudioProcessor>(s: &mut SharedPlayback<P>, r: Single)
    requires
        call_ensures(SharedPlayback::<P>::next_sample::<M>, (s,), r),
        old(s).playing,
        old(s).queue@.len() == 0,
    ensures
        r.bits == 0,
        final(s).queue@.len() == 0,
        final(s).emitted_samples == old(s).emitted_samples,
        final(s).source_position_samples == old(s).source_position_samples,
        final(s).visualizer_ring@ == old(s).visualizer_ring@,
        final(s).effects == old(s).effects,
        old(s).stream_finished <==> !final(s).playing,
        old(s).stream_finished ==> final(s).status is Finished && final(s).underrun_count == old(s).underrun_count,
        !old(s).stream_finished ==> final(s).status == old(s).status && (old(s).underrun_count < u32::MAX
            ==> final(s).underrun_count == old(s).underrun_count + 1) && (old(s).underrun_count == u32::MAX
            ==> final(s).underrun_count == u32::MAX),
        final(s).stream_finished == old(s).stream_finished,
        final(s).volume == old(s).volume,
        final(s).playback_rate == old(s).playback_rate,
        final(s).max_samples == old(s).max_samples,
        final(s).sample_rate == old(s).sample_rate,
{
}

// ── Position ──────────────────────────────────────────────────────────────────

/// Positions and rates as whole numbers of one unit.
pub struct Scale {
    pub position: spec_fn(Double) -> int,
    pub rate: spec_fn(Single) -> int,
    /// The largest position that is exact.
    pub limit: int,
}

/// Whether the arithmetic adds rates to positions exactly, as far as `scale`
/// reaches.
pub open spec fn adds_exactly<M: AudioMath>(scale: Scale) -> bool {
    forall|p: Double, rate: Single, q: Double| #[trigger]
        call_ensures(M::advance, (p, rate), q) && 0 <= (scale.position)(p) && 0 <= (scale.rate)(rate) && (
        scale.position)(p) + (scale.rate)(rate) <= scale.limit ==> (scale.position)(q) == (scale.position)(p) + (
        scale.rate)(rate)
}

/// The position keeps up with what is heard: over any run of the callback, it
/// grows by the playback rate for every sample that left the queue, and by
/// nothing else.
pub proof fn position_grows_at_the_playback_rate<M: AudioMath, P: AudioProcessor>(
    scale: Scale,
    calls: Seq<&mut SharedPlayback<P>>,
    results: Seq<Single>,
)
    requires
        adds_exactly::<M>(scale),
        results.len() == calls.len(),
        forall|i: int|
            0 <= i < calls.len() ==> call_ensures(
                SharedPlayback::<P>::next_sample::<M>,
                (calls[i],),
                #[trigger] results[i],
            ),
        forall|i: int| 0 < i < calls.len() ==> *final(calls[i - 1]) == *(#[trigger] calls[i]),
        calls.len() > 0,
        0 <= (scale.position)(calls[0].source_position_samples),
        0 <= (scale.rate)(calls[0].playback_rate),
        (scale.position)(calls[0].source_position_samples) + calls[0].queue@.len() * (scale.rate)(
            calls[0].playback_rate,
        ) <= scale.limit,
    ensures
        ({
            let first = *calls[0];
            let last = *final(calls.last());
            &&& last.playback_rate == first.playback_rate
            &&& last.queue@.len() <= first.queue@.len()
            &&& (scale.position)(last.source_position_samples) == (scale.position)(first.source_position_samples) + (
            first.queue@.len() - last.queue@.len()) * (scale.rate)(first.playback_rate)
        }),
    decreases calls.len(),
{
    let n = calls.len() as int;
    let first = *calls[0];
    let rate = (scale.rate)(first.playback_rate);
    let front = calls.drop_last();
    let at = *calls[n - 1];
    let last = *final(calls[n - 1]);
    if n > 1 {
        assert forall|i: int| 0 <= i < front.len() implies call_ensures(
            SharedPlayback::<P>::next_sample::<M>,
            (front[i],),
            #[trigger] results.drop_last()[i],
        ) by {
            assert(results.drop_last()[i] == results[i]);
        }
        assert forall|i: int| 0 < i < front.len() implies *final(front[i - 1]) == *(#[trigger] front[i]) by {
            assert(front[i] == calls[i]);
        }
        position_grows_at_the_playback_rate::<M, P>(scale, front, results.drop_last());
        assert(*final(calls[n - 1 - 1]) == *calls[n - 1]);
    } else {
        assert((first.queue@.len() - at.queue@.len()) * rate == 0) by (nonlinear_arith)
            requires
                first.queue@.len() == at.queue@.len(),
        ;
    }
    assert(call_ensures(SharedPlayback::<P>::next_sample::<M>, (calls[n - 1],), results[n - 1]));
    let taken = first.queue@.len() - at.queue@.len();
    let q = first.queue@.len() as int;
    if at.playing && at.queue@.len() > 0 {
        assert(taken * rate + rate == (taken + 1) * rate && (taken + 1) * rate <= q * rate && 0 <= taken * rate) by (
        nonlinear_arith)
            requires
                0 <= taken,
                taken + 1 <= q,
                rate >= 0,
        ;
        let (scaled, effected) = choose|scaled: Single, effected: Single| #[trigger]
            sounds::<M, P>(at, last, scaled, effected, results[n - 1]);
        assert(call_ensures(M::advance, (at.source_position_samples, at.playback_rate), last.source_position_samples));
    }
}

/// At double speed the position moves twice as far over as many samples.
pub proof fn double_speed_moves_twice_as_far<M: AudioMath, P: AudioProcessor>(
    scale: Scale,
    slow: Seq<&mut SharedPlayback<P>>,
    slow_results: Seq<Single>,
    fast: Seq<&mut SharedPlayback<P>>,
    fast_results: Seq<Single>,
)
    requires
        adds_exactly::<M>(scale),
        slow_results.len() == slow.len(),
        forall|i: int|
            0 <= i < slow.len() ==> call_ensures(
                SharedPlayback::<P>::next_sample::<M>,
                (slow[i],),
                #[trigger] slow_results[i],
            ),
        forall|i: int| 0 < i < slow.len() ==> *final(slow[i - 1]) == *(#[trigger] slow[i]),
        fast_results.len() == fast.len(),
        forall|i: int|
            0 <= i < fast.len() ==> call_ensures(
                SharedPlayback::<P>::next_sample::<M>,
                (fast[i],),
                #[trigger] fast_results[i],
            ),
        forall|i: int| 0 < i < fast.len() ==> *final(fast[i - 1]) == *(#[trigger] fast[i]),
        slow.len() > 0,
        fast.len() > 0,
        0 <= (scale.position)(slow[0].source_position_samples),
        0 <= (scale.position)(fast[0].source_position_samples),
        0 <= (scale.rate)(slow[0].playback_rate),
        (scale.rate)(fast[0].playback_rate) == 2 * (scale.rate)(slow[0].playback_rate),
        (scale.position)(slow[0].source_position_samples) + slow[0].queue@.len() * (scale.rate)(slow[0].playback_rate)
            <= scale.limit,
        (scale.position)(fast[0].source_position_samples) + fast[0].queue@.len() * (scale.rate)(fast[0].playback_rate)
            <= scale.limit,
        slow[0].queue@.len() - final(slow.last()).queue@.len()
            == fast[0].queue@.len() - final(fast.last()).queue@.len(),
    ensures
        (scale.position)(final(fast.last()).source_position_samples) - (scale.position)(
            fast[0].source_position_samples,
        ) == 2 * ((scale.position)(final(slow.last()).source_position_samples) - (scale.position)(
            slow[0].source_position_samples,
        )),
{
    position_grows_at_the_playback_rate::<M, P>(scale, slow, slow_results);
    position_grows_at_the_playback_rate::<M, P>(scale, fast, fast_results);
    let n = slow[0].queue@.len() - final(slow.last()).queue@.len();
    let r = (scale.rate)(slow[0].playback_rate);
    assert(n * (2 * r) == 2 * (n * r)) by (nonlinear_arith);
}

} // verus!
