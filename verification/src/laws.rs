//! What holds of the library as a whole.

use crate::decode::{ends_run, feeds, takes_packet, DecodeAction, DecodeSession};
use crate::device::{change_events, is_present, missing_from};
use crate::effects::{
    carries, chain_processes, is_designed, labels, without_first, AudioProcessor, BiquadFilter, FilterCore, FilterType,
};
use crate::engine::{
    filter_applied, filter_code, filter_replaced, filter_set, goes_on, saturated64, stream_step, within, AudioEngine,
    EngineAction, SampleFormat, StreamAction, StreamEvent,
};
use crate::events::{AudioEvent, DeviceInfo};
use crate::http_stream::{HttpStream, SeekError, SeekPos};
use crate::ieee::{silent, Double, Single, MINUS_ONE, ONE};
use crate::math::AudioMath;
use crate::output::emits;
use crate::player_state::{
    at_position, at_position_millis, chain_set, newest, next_step, ring_with, sounds, updated, PlaybackStatus, PlaybackUpdate, SharedPlayback,
};
use crate::resample::{converts, frame_at};
use crate::text::{decimal, digits_value, is_digit, parsed_decimal, unsigned_part};
use vstd::arithmetic::div_mod::lemma_fundamental_div_mod;
use vstd::prelude::*;

verus! {

// ── Effect chains ─────────────────────────────────────────────────────────────

/// An empty chain hands every sample on unchanged.
pub proof fn empty_chain_is_bypass<P: AudioProcessor>(sample: Single, channel: usize, out: Single)
    ensures
        chain_processes(Seq::<P>::empty(), sample, channel, Seq::<P>::empty(), out) <==> out == sample,
{
    let none = Seq::<P>::empty();
    if out == sample {
        assert(carries(none, channel, none, seq![sample]));
    }
}

/// Processors apply in insertion order: a chain to which a processor was
/// appended does what the chain did, and then what the processor does.
pub proof fn chain_applies_in_insertion_order<P: AudioProcessor>(
    chain: Seq<P>,
    appended: P,
    sample: Single,
    channel: usize,
    after: Seq<P>,
    out: Single,
)
    ensures
        chain_processes(chain.push(appended), sample, channel, after, out) <==> after.len() == chain.len() + 1
            && exists|between: Single| #[trigger]
            chain_processes(chain, sample, channel, after.drop_last(), between) && appended.processes(
                between,
                channel,
                after.last(),
                out,
            ),
{
    let longer = chain.push(appended);
    if chain_processes(longer, sample, channel, after, out) {
        let wire = choose|wire: Seq<Single>| #[trigger]
            carries(longer, channel, after, wire) && wire[0] == sample && wire.last() == out;
        let front = wire.drop_last();
        assert forall|i: int| 0 <= i < chain.len() implies chain[i].processes(
            #[trigger] front[i],
            channel,
            after.drop_last()[i],
            front[i + 1],
        ) by {
            assert(longer[i].processes(wire[i], channel, after[i], wire[i + 1]));
        }
        assert(carries(chain, channel, after.drop_last(), front));
        assert(chain_processes(chain, sample, channel, after.drop_last(), front.last()));
        assert(longer[chain.len() as int].processes(
            wire[chain.len() as int],
            channel,
            after[chain.len() as int],
            wire[chain.len() as int + 1],
        ));
    }
    if after.len() == chain.len() + 1 && exists|between: Single| #[trigger]
        chain_processes(chain, sample, channel, after.drop_last(), between) && appended.processes(
            between,
            channel,
            after.last(),
            out,
        ) {
        let between = choose|between: Single| #[trigger]
            chain_processes(chain, sample, channel, after.drop_last(), between) && appended.processes(
                between,
                channel,
                after.last(),
                out,
            );
        let front = choose|wire: Seq<Single>| #[trigger]
            carries(chain, channel, after.drop_last(), wire) && wire[0] == sample && wire.last() == between;
        let wire = front.push(out);
        assert forall|i: int| 0 <= i < longer.len() implies longer[i].processes(
            #[trigger] wire[i],
            channel,
            after[i],
            wire[i + 1],
        ) by {
            if i < chain.len() {
                assert(chain[i].processes(front[i], channel, after.drop_last()[i], front[i + 1]));
            }
        }
        assert(carries(longer, channel, after, wire));
    }
}

/// Whether at most one processor of a chain is named `name`.
pub open spec fn at_most_one_named<P: AudioProcessor>(chain: Seq<P>, name: Seq<char>) -> bool {
    forall|i: int, j: int|
        0 <= i < j < chain.len() ==> !((#[trigger] chain[i]).label() == name && (#[trigger] chain[j]).label() == name)
}

/// With at most one processor of a name, none is left once the first is gone.
proof fn lemma_none_left<P: AudioProcessor>(chain: Seq<P>, name: Seq<char>)
    requires
        at_most_one_named(chain, name),
    ensures
        forall|i: int| 0 <= i < without_first(chain, name).len() ==> (#[trigger] without_first(chain, name)[i]).label()
            != name,
{
    let rest = without_first(chain, name);
    let all = labels(chain);
    if all.contains(name) {
        all.index_of_first_ensures(name);
        let at = all.index_of_first(name)->0;
        assert(chain[at].label() == name);
        assert forall|i: int| 0 <= i < rest.len() implies (#[trigger] rest[i]).label() != name by {
            let j = if i < at {
                i
            } else {
                i + 1
            };
            assert(rest[i] == chain[j]);
            if j < at {
                assert(!(chain[j].label() == name && chain[at].label() == name));
            } else {
                assert(!(chain[at].label() == name && chain[j].label() == name));
            }
        }
    } else {
        assert forall|i: int| 0 <= i < rest.len() implies (#[trigger] rest[i]).label() != name by {
            assert(all[i] == chain[i].label());
        }
    }
}

/// `chain` with `made`, if anything, in place of its first processor named
/// `name`.
pub open spec fn replaced<P: AudioProcessor>(chain: Seq<P>, name: Seq<char>, made: Option<P>) -> Seq<P> {
    match made {
        Some(f) => without_first(chain, name).push(f),
        None => without_first(chain, name),
    }
}

/// Whether `again` holds what `chain` holds, but for a processor named `name`,
/// which is in the same place and the only one of that name.
pub open spec fn same_but_for<P: AudioProcessor>(chain: Seq<P>, name: Seq<char>, again: Seq<P>) -> bool {
    &&& at_most_one_named(again, name)
    &&& labels(again) == labels(chain)
    &&& without_first(again, name) == without_first(chain, name)
}

proof fn lemma_without_last<P: AudioProcessor>(rest: Seq<P>, name: Seq<char>, f: P)
    requires
        f.label() == name,
        forall|i: int| 0 <= i < rest.len() ==> (#[trigger] rest[i]).label() != name,
    ensures
        at_most_one_named(rest.push(f), name),
        without_first(rest.push(f), name) == rest,
{
    let chain = rest.push(f);
    let all = labels(chain);
    assert(all[rest.len() as int] == name);
    all.index_of_first_ensures(name);
    let at = all.index_of_first(name)->0;
    assert(at == rest.len()) by {
        if at < rest.len() {
            assert(rest[at].label() == name);
        }
    }
    assert(chain.remove(at) =~= rest);
}

proof fn lemma_replaced_twice<P: AudioProcessor>(
    chain: Seq<P>,
    name: Seq<char>,
    first: Option<P>,
    second: Option<P>,
)
    requires
        at_most_one_named(chain, name),
        first is Some == second is Some,
        first matches Some(f) ==> f.label() == name,
        second matches Some(f) ==> f.label() == name,
    ensures
        same_but_for(replaced(chain, name, first), name, replaced(replaced(chain, name, first), name, second)),
{
    lemma_none_left(chain, name);
    let rest = without_first(chain, name);
    let once = replaced(chain, name, first);
    let twice = replaced(once, name, second);
    match (first, second) {
        (Some(f), Some(g)) => {
            lemma_without_last(rest, name, f);
            lemma_without_last(rest, name, g);
            assert(labels(twice) =~= labels(once));
        },
        _ => {
            assert(!labels(rest).contains(name)) by {
                if labels(rest).contains(name) {
                    let i = choose|i: int| 0 <= i < labels(rest).len() && labels(rest)[i] == name;
                    assert(rest[i].label() == name);
                }
            }
        },
    }
}

/// Setting a filter is idempotent: in a chain with at most one filter of a
/// name, setting it again puts the new filter where the last one was.
///
/// `make` gives filters of that name only, and either always one or never.
pub proof fn setting_a_filter_is_idempotent<P: AudioProcessor, F: Fn(u32) -> Option<P>>(
    chain: Seq<P>,
    name: Seq<char>,
    make: F,
    sample_rate: u32,
    once: Seq<P>,
    twice: Seq<P>,
)
    requires
        at_most_one_named(chain, name),
        forall|f: P| call_ensures(make, (sample_rate,), Some(f)) ==> (#[trigger] f.label()) == name,
        !(call_ensures(make, (sample_rate,), None::<P>) && exists|f: P|
            #![trigger f.label()]
            call_ensures(make, (sample_rate,), Some(f))),
        chain_set(chain, name, make, sample_rate, once),
        chain_set(once, name, make, sample_rate, twice),
    ensures
        same_but_for(once, name, twice),
{
    let first = choose|made: Option<P>| #[trigger]
        call_ensures(make, (sample_rate,), made) && once == match made {
            Some(f) => without_first(chain, name).push(f),
            None => without_first(chain, name),
        };
    let second = choose|made: Option<P>| #[trigger]
        call_ensures(make, (sample_rate,), made) && twice == match made {
            Some(f) => without_first(once, name).push(f),
            None => without_first(once, name),
        };
    if let Some(f) = first {
        assert(f.label() == name);
    }
    if let Some(f) = second {
        assert(f.label() == name);
    }
    lemma_replaced_twice(chain, name, first, second);
}

/// Setting a filter twice with the same parameters does not apply it twice: in
/// every channel, the second filter is where the first one was, and nothing else
/// has changed.
///
/// A filter keeps its name as an element of a chain, and a design either always
/// succeeds or never.
pub proof fn set_filter_does_not_double_apply<P: AudioProcessor + From<BiquadFilter<B>>, B: FilterCore>(
    before: SharedPlayback<P>,
    kind: FilterType,
    cutoff_hz: Single,
    q: Single,
    once: SharedPlayback<P>,
    twice: SharedPlayback<P>,
)
    requires
        forall|i: int|
            0 <= i < before.effects@.len() ==> at_most_one_named((#[trigger] before.effects@[i]).chain@, kind.name()),
        forall|f: BiquadFilter<B>, p: P| #[trigger]
            call_ensures(<P as From<BiquadFilter<B>>>::from, (f,), p) ==> p.label() == f.label@,
        forall|f: Option<BiquadFilter<B>>, g: Option<BiquadFilter<B>>| #[trigger]
            is_designed::<B>(kind, before.sample_rate, cutoff_hz, q, f) && #[trigger] is_designed::<B>(
                kind,
                before.sample_rate,
                cutoff_hz,
                q,
                g,
            ) ==> f is Some == g is Some,
        filter_applied::<P, B>(before, kind, cutoff_hz, q, once),
        filter_applied::<P, B>(once, kind, cutoff_hz, q, twice),
    ensures
        twice == (SharedPlayback { effects: twice.effects, ..once }),
        twice.effects@.len() == once.effects@.len(),
        forall|i: int|
            0 <= i < once.effects@.len() ==> same_but_for(
                (#[trigger] once.effects@[i]).chain@,
                kind.name(),
                twice.effects@[i].chain@,
            ),
{
    let name = kind.name();
    let rate = before.sample_rate;
    if filter_code(Some(rate), cutoff_hz, q) == 0 {
        assert forall|i: int| 0 <= i < once.effects@.len() implies same_but_for(
            (#[trigger] once.effects@[i]).chain@,
            name,
            twice.effects@[i].chain@,
        ) by {
            let chain = before.effects@[i].chain@;
            let second = once.effects@[i].chain@;
            let third = twice.effects@[i].chain@;
            if cutoff_hz.at_most(silent()) {
                lemma_replaced_twice(chain, name, None, None);
            } else {
                assert(filter_set::<P, B>(chain, kind, rate, cutoff_hz, q, second));
                assert(filter_set::<P, B>(second, kind, rate, cutoff_hz, q, third));
                let f = choose|made: Option<BiquadFilter<B>>| #[trigger]
                    is_designed::<B>(kind, rate, cutoff_hz, q, made) && filter_replaced::<P, B>(
                        chain,
                        name,
                        made,
                        second,
                    );
                let g = choose|made: Option<BiquadFilter<B>>| #[trigger]
                    is_designed::<B>(kind, rate, cutoff_hz, q, made) && filter_replaced::<P, B>(
                        second,
                        name,
                        made,
                        third,
                    );
                let first_made = if f is Some { Some(second.last()) } else { None };
                let second_made = if g is Some { Some(third.last()) } else { None };
                if f is Some {
                    assert(second =~= second.drop_last().push(second.last()));
                    assert(third =~= third.drop_last().push(third.last()));
                }
                lemma_replaced_twice(chain, name, first_made, second_made);
            }
        }
    }
}

// ── Audio callback ────────────────────────────────────────────────────────────

/// Whether the callback takes a sample from the queue in this state.
pub open spec fn takes<P>(state: SharedPlayback<P>) -> bool {
    state.playing && state.queue@.len() > 0
}

/// The samples that the callback took from the queue on its way through
/// `states`.
pub open spec fn taken<P>(states: Seq<SharedPlayback<P>>) -> Seq<Single>
    decreases states.len(),
{
    if states.len() < 2 {
        Seq::empty()
    } else {
        let before = states[states.len() - 2];
        if takes(before) {
            taken(states.drop_last()).push(before.queue@[0])
        } else {
            taken(states.drop_last())
        }
    }
}

/// The samples that the callback sent to the device in place of those that it
/// took from the queue.
pub open spec fn sounded<P>(states: Seq<SharedPlayback<P>>, samples: Seq<Single>) -> Seq<Single>
    decreases states.len(),
{
    if states.len() < 2 {
        Seq::empty()
    } else if takes(states[states.len() - 2]) {
        sounded(states.drop_last(), samples.drop_last()).push(samples.last())
    } else {
        sounded(states.drop_last(), samples.drop_last())
    }
}

proof fn lemma_front_emits<M: AudioMath, P: AudioProcessor>(states: Seq<SharedPlayback<P>>, samples: Seq<Single>)
    requires
        emits::<M, P>(states, samples),
        samples.len() > 0,
    ensures
        emits::<M, P>(states.drop_last(), samples.drop_last()),
        next_step::<M, P>(states[states.len() - 2], states.last(), samples.last()),
{
    let n = samples.len() as int;
    assert(next_step::<M, P>(states[n - 1], states[n], samples[n - 1]));
    assert forall|i: int| 0 <= i < samples.len() - 1 implies next_step::<M, P>(
        states.drop_last()[i],
        states.drop_last()[i + 1],
        #[trigger] samples.drop_last()[i],
    ) by {
        assert(next_step::<M, P>(states[i], states[i + 1], samples[i]));
    }
}

/// A paused player sends silence and keeps its whole state, the position
/// included.
pub proof fn pause_keeps_the_state<M: AudioMath, P: AudioProcessor>(
    states: Seq<SharedPlayback<P>>,
    samples: Seq<Single>,
)
    requires
        emits::<M, P>(states, samples),
        !states[0].playing,
    ensures
        states.last() == states[0],
        forall|i: int| 0 <= i < samples.len() ==> #[trigger] samples[i] == silent(),
    decreases samples.len(),
{
    if samples.len() > 0 {
        lemma_front_emits::<M, P>(states, samples);
        pause_keeps_the_state::<M, P>(states.drop_last(), samples.drop_last());
        assert forall|i: int| 0 <= i < samples.len() implies #[trigger] samples[i] == silent() by {
            if i < samples.len() - 1 {
                assert(samples.drop_last()[i] == samples[i]);
            }
        }
    }
}

/// The callback takes samples from the front of the queue, in order: what it
/// took and what is left are the queue as it was.
pub proof fn callback_takes_in_order<M: AudioMath, P: AudioProcessor>(
    states: Seq<SharedPlayback<P>>,
    samples: Seq<Single>,
)
    requires
        emits::<M, P>(states, samples),
    ensures
        taken(states) + states.last().queue@ == states[0].queue@,
    decreases samples.len(),
{
    if samples.len() > 0 {
        lemma_front_emits::<M, P>(states, samples);
        callback_takes_in_order::<M, P>(states.drop_last(), samples.drop_last());
        let before = states[states.len() - 2];
        let after = states.last();
        let earlier = taken(states.drop_last());
        assert(earlier + before.queue@ == states[0].queue@);
        if takes(before) {
            assert(after.queue@ == before.queue@.drop_first());
            assert(earlier.push(before.queue@[0]) + after.queue@ =~= earlier + before.queue@);
        } else {
            assert(after.queue@ == before.queue@);
        }
    } else {
        assert(taken(states) + states.last().queue@ =~= states[0].queue@);
    }
}

/// The visualizer's ring holds the newest samples that sounded, as many as it
/// has room for.
pub proof fn ring_holds_the_newest<M: AudioMath, P: AudioProcessor>(
    states: Seq<SharedPlayback<P>>,
    samples: Seq<Single>,
)
    requires
        emits::<M, P>(states, samples),
        states[0].visualizer_ring@.len() <= states[0].visualizer_max_samples,
    ensures
        states.last().visualizer_max_samples == states[0].visualizer_max_samples,
        states.last().visualizer_ring@ == newest(
            states[0].visualizer_ring@ + sounded(states, samples),
            states[0].visualizer_max_samples as int,
        ),
    decreases samples.len(),
{
    let limit = states[0].visualizer_max_samples;
    let ring = states[0].visualizer_ring@;
    if samples.len() > 0 {
        lemma_front_emits::<M, P>(states, samples);
        ring_holds_the_newest::<M, P>(states.drop_last(), samples.drop_last());
        let before = states[states.len() - 2];
        let after = states.last();
        let earlier = sounded(states.drop_last(), samples.drop_last());
        if takes(before) {
            let r = samples.last();
            let whole = ring + earlier;
            assert(ring + earlier.push(r) =~= whole.push(r));
            if limit == 0 {
                assert(newest(whole, 0) =~= Seq::<Single>::empty());
                assert(newest(whole.push(r), 0) =~= Seq::<Single>::empty());
            } else {
                assert(ring_with(newest(whole, limit as int), limit, r) =~= newest(whole.push(r), limit as int));
            }
        } else {
            assert(after.visualizer_ring@ == before.visualizer_ring@);
        }
    } else {
        assert(ring + sounded(states, samples) =~= ring);
    }
}

/// A player whose stream has ended plays what is queued, sample by sample, and
/// then stops with the status `Finished`.
pub proof fn player_drains_and_finishes<M: AudioMath, P: AudioProcessor>(
    states: Seq<SharedPlayback<P>>,
    samples: Seq<Single>,
)
    requires
        emits::<M, P>(states, samples),
        states[0].playing,
        states[0].stream_finished,
    ensures
        samples.len() <= states[0].queue@.len() ==> states.last().playing && states.last().status == states[0].status
            && taken(states) == states[0].queue@.take(samples.len() as int),
        samples.len() > states[0].queue@.len() ==> !states.last().playing && states.last().status
            == PlaybackStatus::Finished && taken(states) == states[0].queue@,
    decreases samples.len(),
{
    let queue = states[0].queue@;
    lemma_drains::<M, P>(states, samples);
    callback_takes_in_order::<M, P>(states, samples);
    if samples.len() <= queue.len() {
        let n = samples.len() as int;
        assert(taken(states) =~= queue.take(n)) by {
            assert(queue.take(n) + queue.skip(n) =~= queue);
            assert(taken(states) == (taken(states) + states.last().queue@).take(taken(states).len() as int));
        }
    } else {
        assert(taken(states) + states.last().queue@ =~= taken(states));
    }
}

proof fn lemma_drains<M: AudioMath, P: AudioProcessor>(states: Seq<SharedPlayback<P>>, samples: Seq<Single>)
    requires
        emits::<M, P>(states, samples),
        states[0].playing,
        states[0].stream_finished,
    ensures
        samples.len() <= states[0].queue@.len() ==> states.last().playing && states.last().stream_finished
            && states.last().status == states[0].status && states.last().queue@.len() == states[0].queue@.len()
            - samples.len() && taken(states).len() == samples.len(),
        samples.len() > states[0].queue@.len() ==> !states.last().playing && states.last().status
            == PlaybackStatus::Finished && states.last().queue@.len() == 0,
    decreases samples.len(),
{
    if samples.len() > 0 {
        lemma_front_emits::<M, P>(states, samples);
        lemma_drains::<M, P>(states.drop_last(), samples.drop_last());
    }
}

/// The end of a decode run is the end of playback: once a run is over, a playing
/// player plays what is queued and then stops with the status `Finished`.
pub proof fn ended_run_is_played_out<M: AudioMath, P: AudioProcessor>(
    action: DecodeAction,
    before: SharedPlayback<P>,
    states: Seq<SharedPlayback<P>>,
    samples: Seq<Single>,
)
    requires
        ends_run::<M, P>(action, before, states[0]),
        before.playing,
        emits::<M, P>(states, samples),
    ensures
        samples.len() <= before.queue@.len() ==> states.last().playing && taken(states) == before.queue@.take(
            samples.len() as int,
        ),
        samples.len() > before.queue@.len() ==> !states.last().playing && states.last().status
            == PlaybackStatus::Finished && taken(states) == before.queue@,
{
    player_drains_and_finishes::<M, P>(states, samples);
}

/// An underrun sends silence and loses nothing: the queue, the position and
/// every setting stay, and the player goes on once samples arrive.
pub proof fn underrun_loses_nothing<M: AudioMath, P: AudioProcessor>(
    before: SharedPlayback<P>,
    after: SharedPlayback<P>,
    r: Single,
)
    requires
        next_step::<M, P>(before, after, r),
        before.playing,
        before.queue@.len() == 0,
        !before.stream_finished,
    ensures
        r == silent(),
        after.playing,
        after.queue@ == before.queue@,
        after.emitted_samples == before.emitted_samples,
        after.source_position_samples == before.source_position_samples,
        after.status == before.status,
        before.underrun_count < u32::MAX ==> after.underrun_count == before.underrun_count + 1,
{
}

/// What one step sends to the device lies within full scale, unless it is not a
/// number.
pub proof fn output_is_within_full_scale<M: AudioMath, P: AudioProcessor>(
    before: SharedPlayback<P>,
    after: SharedPlayback<P>,
    r: Single,
)
    requires
        next_step::<M, P>(before, after, r),
    ensures
        r.nan() || ((Single { bits: MINUS_ONE }).at_most(r) && r.at_most(Single { bits: ONE })),
{
    if takes(before) {
        let (scaled, effected) = choose|scaled: Single, effected: Single| #[trigger]
            sounds::<M, P>(before, after, scaled, effected, r);
        crate::ieee::clamping_is_idempotent(effected, Single { bits: MINUS_ONE }, Single { bits: ONE });
    }
}

// ── From the decoder to the device ────────────────────────────────────────────

/// A decode thread and the state it feeds, with what has passed through them:
/// every sample that was converted and every sample that the callback took.
pub struct Pipeline<P> {
    pub session: DecodeSession,
    pub shared: SharedPlayback<P>,
    pub converted: Seq<Single>,
    pub played: Seq<Single>,
}

/// The decode thread converts a packet; all of the last one was queued.
pub open spec fn packet_step<M: AudioMath, P>(a: Pipeline<P>, b: Pipeline<P>) -> bool {
    &&& a.session.remaining().len() == 0
    &&& exists|channels: usize, rate: u32, packet: Seq<Single>, speed: Single| #[trigger]
        takes_packet::<M>(a.session, channels, rate, packet, speed, b.session)
    &&& b.converted == a.converted + b.session.pending@
    &&& b.shared == a.shared
    &&& b.played == a.played
}

/// The decode thread queues what fits.
pub open spec fn feed_step<P>(a: Pipeline<P>, b: Pipeline<P>) -> bool {
    &&& feeds(a.session, a.shared, false, b.session, b.shared)
    &&& b.converted == a.converted
    &&& b.played == a.played
}

/// The audio callback asks for a sample.
pub open spec fn callback_step<M: AudioMath, P: AudioProcessor>(a: Pipeline<P>, b: Pipeline<P>) -> bool {
    &&& exists|r: Single| #[trigger] next_step::<M, P>(a.shared, b.shared, r)
    &&& b.session == a.session
    &&& b.converted == a.converted
    &&& b.played == if takes(a.shared) {
        a.played.push(a.shared.queue@[0])
    } else {
        a.played
    }
}

/// The player is paused, resumed or told that decoding begins or ends.
pub open spec fn control_step<M: AudioMath, P>(a: Pipeline<P>, b: Pipeline<P>) -> bool {
    &&& exists|playing: bool| #[trigger] updated::<M, P>(a.shared, PlaybackUpdate::SetPlaying(playing), b.shared)
        || updated::<M, P>(a.shared, PlaybackUpdate::BeginDecode, b.shared) || updated::<M, P>(
        a.shared,
        PlaybackUpdate::EndDecode,
        b.shared,
    )
    &&& b.session == a.session
    &&& b.converted == a.converted
    &&& b.played == a.played
}

pub open spec fn pipeline_step<M: AudioMath, P: AudioProcessor>(a: Pipeline<P>, b: Pipeline<P>) -> bool {
    ||| packet_step::<M, P>(a, b)
    ||| feed_step(a, b)
    ||| callback_step::<M, P>(a, b)
    ||| control_step::<M, P>(a, b)
}

/// `samples` without the first `n`.
pub open spec fn after_skip(samples: Seq<Single>, n: int) -> Seq<Single> {
    if n < samples.len() {
        samples.skip(n)
    } else {
        Seq::empty()
    }
}

/// A pipeline that starts with an empty queue and `skip` samples to drop.
pub open spec fn pipeline_start<P>(a: Pipeline<P>, skip: int) -> bool {
    &&& a.session.remaining().len() == 0
    &&& a.session.skip_output_samples == skip
    &&& a.shared.queue@.len() == 0
    &&& a.converted.len() == 0
    &&& a.played.len() == 0
}

/// What holds of a pipeline at any time.
pub open spec fn nothing_lost<P>(a: Pipeline<P>, skip: int) -> bool {
    &&& a.session.skip_output_samples == if a.converted.len() < skip {
        skip - a.converted.len()
    } else {
        0
    }
    &&& a.played + a.shared.queue@ + a.session.remaining() == after_skip(a.converted, skip)
}

proof fn lemma_nothing_lost_step<M: AudioMath, P: AudioProcessor>(a: Pipeline<P>, b: Pipeline<P>, skip: int)
    requires
        0 <= skip,
        nothing_lost(a, skip),
        pipeline_step::<M, P>(a, b),
    ensures
        nothing_lost(b, skip),
{
    let whole = a.played + a.shared.queue@ + a.session.remaining();
    if packet_step::<M, P>(a, b) {
        let pending = b.session.pending@;
        assert(a.session.remaining() =~= Seq::<Single>::empty());
        assert(whole =~= a.played + a.shared.queue@);
        assert(b.converted.len() == a.converted.len() + pending.len());
        if a.converted.len() < skip {
            assert(after_skip(a.converted, skip) =~= Seq::<Single>::empty());
            assert(a.played.len() == 0 && a.shared.queue@.len() == 0) by {
                assert(whole.len() == a.played.len() + a.shared.queue@.len());
            }
            assert(b.played + b.shared.queue@ + b.session.remaining() =~= b.session.remaining());
            assert(b.session.remaining() =~= after_skip(b.converted, skip));
        } else {
            assert(b.session.remaining() =~= pending);
            assert(b.played + b.shared.queue@ + b.session.remaining() =~= after_skip(b.converted, skip));
        }
    } else if feed_step(a, b) {
        let moved = crate::decode::fitting(a.shared, a.session.remaining().len() as int);
        let rest = a.session.remaining();
        assert(rest.take(moved) + rest.skip(moved) =~= rest);
        assert(b.played + b.shared.queue@ + b.session.remaining() =~= whole);
    } else if callback_step::<M, P>(a, b) {
        let r = choose|r: Single| #[trigger] next_step::<M, P>(a.shared, b.shared, r);
        if takes(a.shared) {
            assert(b.shared.queue@ == a.shared.queue@.drop_first());
        } else {
            assert(b.shared.queue@ == a.shared.queue@);
        }
        assert(b.played + b.shared.queue@ + b.session.remaining() =~= whole);
    } else {
        assert(b.shared.queue@ == a.shared.queue@);
    }
}

/// The listener hears what was decoded, from the start position on, in order,
/// without loss or repetition: whatever the interleaving of decode thread,
/// audio callback and controls, the samples that the callback took, those that
/// are queued and those that wait for room are together the converted samples
/// behind the skipped ones.
pub proof fn stream_passes_in_order<M: AudioMath, P: AudioProcessor>(trace: Seq<Pipeline<P>>, skip: int)
    requires
        0 <= skip,
        trace.len() > 0,
        pipeline_start(trace[0], skip),
        forall|i: int| 0 <= i < trace.len() - 1 ==> #[trigger] pipeline_step::<M, P>(trace[i], trace[i + 1]),
    ensures
        nothing_lost(trace.last(), skip),
        trace.last().played.is_prefix_of(after_skip(trace.last().converted, skip)),
    decreases trace.len(),
{
    let last = trace.last();
    if trace.len() == 1 {
        assert(last.played + last.shared.queue@ + last.session.remaining() =~= after_skip(last.converted, skip));
    } else {
        let front = trace.drop_last();
        assert forall|i: int| 0 <= i < front.len() - 1 implies #[trigger] pipeline_step::<M, P>(
            front[i],
            front[i + 1],
        ) by {
            assert(pipeline_step::<M, P>(trace[i], trace[i + 1]));
        }
        stream_passes_in_order::<M, P>(front, skip);
        assert(pipeline_step::<M, P>(trace[trace.len() - 2], trace[trace.len() - 2 + 1]));
        lemma_nothing_lost_step::<M, P>(front.last(), last, skip);
    }
    let whole = last.played + last.shared.queue@ + last.session.remaining();
    assert(last.played =~= whole.subrange(0, last.played.len() as int));
}

/// Packets join without a gap: the next packet is read behind the last frame of
/// this one, which is all that is carried on.
pub proof fn packets_join<M: AudioMath>(
    packet: Seq<Single>,
    next_packet: Seq<Single>,
    channels: usize,
    src_rate: u32,
    out_channels: usize,
    out_rate: u32,
    pos: Double,
    carry: Seq<Single>,
    next_pos: Double,
    next_carry: Seq<Single>,
    out: Seq<Single>,
)
    requires
        converts::<M>(
            packet,
            channels,
            src_rate,
            out_channels,
            out_rate,
            pos,
            carry,
            next_pos,
            next_carry,
            out,
        ),
        channels > 0,
        out_channels > 0,
        src_rate > 0,
        out_rate > 0,
        (carry + packet).len() as int / channels as int >= 2,
    ensures
        next_carry.len() == channels,
        frame_at(next_carry + next_packet, channels as int, 0) == frame_at(
            carry + packet,
            channels as int,
            (carry + packet).len() as int / channels as int - 1,
        ),
        (next_carry + next_packet).skip(channels as int) == next_packet,
{
    let frames = carry + packet;
    let total = frames.len() as int / channels as int;
    lemma_fundamental_div_mod(frames.len() as int, channels as int);
    assert((total - 1) * channels >= 0 && (total - 1) * channels + channels <= frames.len()) by (nonlinear_arith)
        requires
            total >= 2,
            channels > 0,
            frames.len() == channels * total + frames.len() as int % channels as int,
            0 <= frames.len() as int % channels as int,
    ;
    assert(next_carry.len() == channels);
    assert(frame_at(next_carry + next_packet, channels as int, 0) =~= next_carry);
    assert((next_carry + next_packet).skip(channels as int) =~= next_packet);
}

// ── Controls ──────────────────────────────────────────────────────────────────

/// A seek goes to a place within the source: not before its start, not behind
/// its end, and exactly where it was asked to where that lies in between.
pub proof fn seek_stays_within_the_source(millis: i32, duration: i32)
    ensures
        0 <= within(millis, duration),
        duration > 0 ==> within(millis, duration) <= duration,
        0 <= millis && (duration <= 0 || millis <= duration) ==> within(millis, duration) == millis,
{
}

/// A later place in the source is never at an earlier sample.
pub proof fn later_is_not_earlier(engine: AudioEngine, a: i32, b: i32)
    requires
        0 <= a <= b,
    ensures
        engine.samples_before(a) <= engine.samples_before(b),
{
    let rate = engine.out_sample_rate;
    let channels = engine.out_channels;
    assert(a * rate <= b * rate) by (nonlinear_arith)
        requires
            a <= b,
            rate >= 0,
    ;
    let x = saturated64(a * rate);
    let y = saturated64(b * rate);
    assert(0 <= a * rate) by (nonlinear_arith)
        requires
            a >= 0,
            rate >= 0,
    ;
    assert(0 <= x * channels <= y * channels) by (nonlinear_arith)
        requires
            0 <= x <= y,
            channels >= 0,
    ;
}

/// No control step touches the volume, the device rate or the queue limits, and
/// only loading and stopping touch the filters.
pub proof fn controls_keep_the_settings<M: AudioMath, P>(
    before: SharedPlayback<P>,
    update: PlaybackUpdate,
    after: SharedPlayback<P>,
)
    requires
        updated::<M, P>(before, update, after),
    ensures
        after.volume == before.volume,
        after.sample_rate == before.sample_rate,
        after.max_samples == before.max_samples,
        after.max_queue_seconds == before.max_queue_seconds,
        after.visualizer_max_samples == before.visualizer_max_samples,
        after.effects@.len() == before.effects@.len(),
        !(update is SetRate) ==> after.playback_rate == before.playback_rate,
        !(update is Load) && !(update is Halt) ==> after.effects == before.effects,
{
}

/// Stopping leaves an idle player: nothing queued, nothing counted, at the
/// start of the track, whatever the decode thread did before it ended.
pub proof fn stop_leaves_idle<M: AudioMath, P>(
    before: SharedPlayback<P>,
    paused: SharedPlayback<P>,
    ended: SharedPlayback<P>,
    after: SharedPlayback<P>,
)
    requires
        updated::<M, P>(before, PlaybackUpdate::SetPlaying(false), paused),
        ended.playing == paused.playing,
        updated::<M, P>(ended, PlaybackUpdate::Halt, after),
    ensures
        !after.playing,
        after.status == PlaybackStatus::Idle,
        after.queue@.len() == 0,
        after.emitted_samples == 0,
        after.source_position_samples == crate::ieee::origin(),
{
}

/// Loading a source stops the old one: nothing plays, nothing is queued or kept
/// for the visualizer, and the position is the start; rate and volume stay.
pub proof fn loading_stops_the_old_source<M: AudioMath, P>(before: SharedPlayback<P>, after: SharedPlayback<P>)
    requires
        updated::<M, P>(before, PlaybackUpdate::Load, after),
    ensures
        !after.playing,
        after.status == PlaybackStatus::Idle,
        after.queue@.len() == 0,
        after.visualizer_ring@.len() == 0,
        after.emitted_samples == 0,
        after.source_position_samples == crate::ieee::origin(),
        after.playback_rate == before.playback_rate,
        after.volume == before.volume,
{
}

/// Resuming undoes a pause: a playing player that is paused and resumed is as
/// it was.
pub proof fn resume_undoes_pause<M: AudioMath, P>(
    before: SharedPlayback<P>,
    paused: SharedPlayback<P>,
    resumed: SharedPlayback<P>,
)
    requires
        before.playing,
        before.status == PlaybackStatus::Playing,
        !before.stream_finished,
        updated::<M, P>(before, PlaybackUpdate::SetPlaying(false), paused),
        updated::<M, P>(paused, PlaybackUpdate::SetPlaying(true), resumed),
    ensures
        resumed == before,
{
}

/// Whether an operation of the actions `actions`, which have the outcomes
/// `outcomes`, performs the first `done` of them and ends with `result`.
pub open spec fn performs(
    actions: Seq<EngineAction>,
    outcomes: Seq<Result<(), String>>,
    done: int,
    result: Result<(), String>,
) -> bool {
    &&& outcomes.len() == actions.len()
    &&& 0 <= done <= actions.len()
    &&& forall|i: int| 0 <= i < done - 1 ==> goes_on(#[trigger] actions[i], outcomes[i]) is Ok
    &&& done > 0 ==> goes_on(actions[done - 1], outcomes[done - 1]) == result
    &&& result is Ok ==> done == actions.len()
    &&& done == 0 ==> result is Ok
}

/// A failure to open the stream or to start decoding ends an operation with that
/// failure, and what comes after is not done.  Whatever else fails is passed
/// over.
pub proof fn operation_ends_with_its_first_failure(
    actions: Seq<EngineAction>,
    outcomes: Seq<Result<(), String>>,
    done: int,
    result: Result<(), String>,
    i: int,
)
    requires
        performs(actions, outcomes, done, result),
        0 <= i < actions.len(),
    ensures
        result is Ok <==> forall|k: int|
            0 <= k < actions.len() ==> (#[trigger] actions[k] == EngineAction::EnsureStream || actions[k]
                == EngineAction::StartDecode) ==> outcomes[k] is Ok,
        (actions[i] == EngineAction::EnsureStream || actions[i] == EngineAction::StartDecode) && outcomes[i] is Err
            ==> done <= i + 1,
        (actions[i] == EngineAction::EnsureStream || actions[i] == EngineAction::StartDecode) && outcomes[i] is Err
            && done == i + 1 ==> result == outcomes[i],
{
    if result is Ok {
        assert forall|k: int|
            0 <= k < actions.len() && (#[trigger] actions[k] == EngineAction::EnsureStream || actions[k]
                == EngineAction::StartDecode) implies outcomes[k] is Ok by {
            assert(goes_on(actions[k], outcomes[k]) is Ok);
        }
    } else {
        let k = done - 1;
        assert(goes_on(actions[k], outcomes[k]) == result);
        assert(actions[k] == EngineAction::EnsureStream || actions[k] == EngineAction::StartDecode);
    }
    if done > i + 1 {
        assert(goes_on(actions[i], outcomes[i]) is Ok);
    }
}

/// Playback starts only with an open stream and a decode thread, where it is
/// asked for and after the stream was rebuilt: the step that starts it is the
/// last one, so it is done only if nothing before it has failed.
pub proof fn playback_starts_last(
    actions: Seq<EngineAction>,
    outcomes: Seq<Result<(), String>>,
    done: int,
    result: Result<(), String>,
)
    requires
        performs(actions, outcomes, done, result),
        actions.len() >= 3,
        actions[actions.len() - 3] == EngineAction::EnsureStream,
        actions[actions.len() - 2] == EngineAction::StartDecode,
        actions[actions.len() - 1] == EngineAction::Update(PlaybackUpdate::SetPlaying(true)),
    ensures
        done == actions.len() ==> outcomes[actions.len() - 3] is Ok && outcomes[actions.len() - 2] is Ok && result is Ok,
        outcomes[actions.len() - 3] is Err || outcomes[actions.len() - 2] is Err ==> result is Err && done
            < actions.len(),
{
    let n = actions.len() as int;
    if done == n {
        assert(goes_on(actions[n - 3], outcomes[n - 3]) is Ok);
        assert(goes_on(actions[n - 2], outcomes[n - 2]) is Ok);
        assert(goes_on(actions[n - 1], outcomes[n - 1]) == result);
    }
}

/// Whether the arithmetic tells the time of `samples` interleaved samples at
/// `sample_rate` frames of `channels` samples per second without rounding.
pub open spec fn tells_time<M: AudioMath>(samples: u64, sample_rate: u32, channels: usize) -> bool {
    forall|position: Double, nanos: u128|
        #![trigger call_ensures(M::elapsed_nanos, (position, sample_rate, channels), nanos)]
        call_ensures(M::position_of, (samples,), position) && call_ensures(
            M::elapsed_nanos,
            (position, sample_rate, channels),
            nanos,
        ) ==> nanos * (sample_rate * channels) == samples * 1_000_000_000
}

/// A seek drops what was buffered and shown before; rate, volume, filters and
/// the device stay.
pub proof fn seek_starts_afresh<M: AudioMath, P: AudioProcessor>(
    samples: u64,
    before: SharedPlayback<P>,
    restarted: SharedPlayback<P>,
    begun: SharedPlayback<P>,
    after: SharedPlayback<P>,
)
    requires
        updated::<M, P>(before, PlaybackUpdate::Restart { samples }, restarted),
        begun == restarted || updated::<M, P>(restarted, PlaybackUpdate::BeginDecode, begun),
        after == begun || updated::<M, P>(begun, PlaybackUpdate::SetPlaying(true), after),
    ensures
        after.queue@.len() == 0,
        after.visualizer_ring@.len() == 0,
        after.emitted_samples == 0,
        !after.stream_finished,
        after.playback_rate == before.playback_rate,
        after.volume == before.volume,
        after.effects == before.effects,
        after.sample_rate == before.sample_rate,
{
}

/// A seek goes where it was asked to: until the next sample is played, the
/// position is the place that was sought.
///
/// A millisecond takes a whole number of samples, the samples before the place
/// are few enough to be counted, and the arithmetic tells their time exactly.
pub proof fn seek_arrives<M: AudioMath, P: AudioProcessor>(
    engine: AudioEngine,
    millis: i32,
    before: SharedPlayback<P>,
    restarted: SharedPlayback<P>,
    begun: SharedPlayback<P>,
    after: SharedPlayback<P>,
    position: i32,
)
    requires
        engine.out_sample_rate * engine.out_channels > 0,
        (engine.out_sample_rate * engine.out_channels) % 1000 == 0,
        within(millis, engine.source_duration_millis) * (engine.out_sample_rate * engine.out_channels) <= u64::MAX,
        before.sample_rate == engine.out_sample_rate,
        tells_time::<M>(
            engine.samples_before(within(millis, engine.source_duration_millis)),
            engine.out_sample_rate,
            engine.out_channels,
        ),
        updated::<M, P>(
            before,
            PlaybackUpdate::Restart {
                samples: engine.samples_before(within(millis, engine.source_duration_millis)),
            },
            restarted,
        ),
        begun == restarted || updated::<M, P>(restarted, PlaybackUpdate::BeginDecode, begun),
        after == begun || updated::<M, P>(begun, PlaybackUpdate::SetPlaying(true), after),
        at_position_millis::<M, P>(after, engine.out_channels, position),
    ensures
        position == within(millis, engine.source_duration_millis),
{
    let target = within(millis, engine.source_duration_millis);
    let rate = engine.out_sample_rate;
    let channels = engine.out_channels;
    let per_second = rate * channels;
    let per_milli = per_second / 1000;
    let samples = engine.samples_before(target);
    assert(per_second == 1000 * per_milli);
    assert(rate > 0 && channels > 0) by (nonlinear_arith)
        requires
            rate * channels > 0,
            rate >= 0,
            channels >= 0,
    ;
    assert(target * rate <= target * per_second && (target * rate) * channels == target * per_second) by (
    nonlinear_arith)
        requires
            per_second == rate * channels,
            channels >= 1,
            target >= 0,
            rate >= 0,
    ;
    assert(target * per_second == 1000 * (target * per_milli)) by (nonlinear_arith)
        requires
            per_second == 1000 * per_milli,
    ;
    assert(samples == target * per_milli);
    let nanos = choose|nanos: u128| #[trigger]
        at_position::<M, P>(after, channels, nanos) && position == (nanos / 1_000_000) as i32;
    assert(nanos * per_second == samples * 1_000_000_000);
    assert(nanos == target * 1_000_000) by (nonlinear_arith)
        requires
            nanos * per_second == samples * 1_000_000_000,
            samples == target * per_milli,
            per_second == 1000 * per_milli,
            per_second > 0,
    ;
}

/// What comes of the steps of opening an output stream.
pub struct StreamOutcomes {
    pub chosen: Result<SampleFormat, String>,
    pub built: Result<(), String>,
    pub started: Result<(), String>,
}

/// What happens once `action` is carried out.
pub open spec fn reply(action: StreamAction, outcomes: StreamOutcomes) -> StreamEvent {
    match action {
        StreamAction::Choose => StreamEvent::Chosen(outcomes.chosen),
        StreamAction::Build(_) => StreamEvent::Built(outcomes.built),
        StreamAction::Start => StreamEvent::Started(outcomes.started),
        StreamAction::Finish(_) => StreamEvent::Wanted,
    }
}

/// Whether the engine, through the states `engines`, calls for `actions` from
/// when a stream is wanted to when nothing more is to be done.
pub open spec fn opens_stream(
    engines: Seq<AudioEngine>,
    actions: Seq<StreamAction>,
    outcomes: StreamOutcomes,
) -> bool {
    &&& actions.len() > 0
    &&& engines.len() == actions.len() + 1
    &&& stream_step(engines[0], StreamEvent::Wanted, engines[1], actions[0])
    &&& forall|i: int|
        0 < i < actions.len() ==> !(actions[i - 1] is Finish) && stream_step(
            engines[i],
            reply(actions[i - 1], outcomes),
            engines[i + 1],
            #[trigger] actions[i],
        )
    &&& actions.last() is Finish
}

/// Opening the stream succeeds if and only if a device is found, its format can
/// be written, and the stream is built and started.  After a failure, which is
/// that of the first step that fails, the engine is as it was.  Where the stream
/// is open already, nothing is done.
pub proof fn stream_opens_iff_every_step_succeeds(
    engines: Seq<AudioEngine>,
    actions: Seq<StreamAction>,
    outcomes: StreamOutcomes,
)
    requires
        opens_stream(engines, actions, outcomes),
    ensures
        engines[0].stream_started ==> actions == seq![StreamAction::Finish(Ok(()))] && engines.last() == engines[0],
        !engines[0].stream_started ==> ({
            let result = actions.last()->Finish_0;
            let writable = outcomes.chosen is Ok && outcomes.chosen->Ok_0 != SampleFormat::Other;
            &&& result is Ok <==> writable && outcomes.built is Ok && outcomes.started is Ok
            &&& result is Ok ==> engines.last() == AudioEngine { stream_started: true, ..engines[0] }
            &&& result is Err ==> engines.last() == engines[0]
            &&& outcomes.chosen matches Err(e) ==> result == Err::<(), String>(e)
            &&& outcomes.chosen is Ok && !writable ==> result->Err_0@ == "Unsupported sample format"@
            &&& writable && outcomes.built is Err ==> result == outcomes.built
            &&& writable && outcomes.built is Ok && outcomes.started is Err ==> result == outcomes.started
        }),
{
    assert(stream_step(engines[0], StreamEvent::Wanted, engines[1], actions[0]));
    if actions.len() > 1 {
        assert(stream_step(engines[1], reply(actions[0], outcomes), engines[2], actions[1]));
    }
    if actions.len() > 2 {
        assert(stream_step(engines[2], reply(actions[1], outcomes), engines[3], actions[2]));
    }
    if actions.len() > 3 {
        assert(stream_step(engines[3], reply(actions[2], outcomes), engines[4], actions[3]));
    }
    if actions.len() > 4 {
        assert(!(actions[4 - 1] is Finish) && actions[4] == actions[4]);
    }
    if engines[0].stream_started {
        assert(actions =~= seq![StreamAction::Finish(Ok(()))]);
    }
}

// ── Devices and streams ───────────────────────────────────────────────────────

proof fn lemma_missing(devices: Seq<DeviceInfo>, others: Seq<DeviceInfo>, d: DeviceInfo)
    ensures
        missing_from(devices, others).contains(d) <==> devices.contains(d) && !is_present(others, d.name@),
    decreases devices.len(),
{
    reveal(Seq::filter);
    let kept = missing_from(devices, others);
    if devices.len() > 0 {
        let front = devices.drop_last();
        let early = missing_from(front, others);
        lemma_missing(front, others, d);
        assert(devices =~= front.push(devices.last()));
        if front.contains(d) {
            assert(devices[front.index_of(d)] == d);
        }
        if devices.contains(d) && d != devices.last() {
            assert(front[devices.index_of(d)] == d);
        }
        if devices.last() == d {
            assert(devices[devices.len() - 1] == d);
        }
        if early.contains(d) {
            assert(kept[early.index_of(d)] == d);
        }
        if kept.len() > early.len() {
            assert(kept[kept.len() - 1] == devices.last());
            if kept.contains(d) && d != devices.last() {
                assert(early[kept.index_of(d)] == d);
            }
        }
    }
}

/// A poll that sees the devices that the last one saw gives no event for them.
pub proof fn nothing_new_no_event(devices: Seq<DeviceInfo>)
    ensures
        change_events(devices, devices) == Seq::<AudioEvent>::empty(),
{
    let changed = missing_from(devices, devices);
    if changed.len() > 0 {
        let d = changed[0];
        assert(changed.contains(d));
        lemma_missing(devices, devices, d);
        assert(devices[devices.index_of(d)].name@ == d.name@);
    }
}

/// An event for a device that has come is sent exactly for the devices that are
/// there now under a name that was not there, and an event for a device that has
/// gone exactly for those that were there under a name that is there no more.
pub proof fn events_tell_what_changed(last: Seq<DeviceInfo>, devices: Seq<DeviceInfo>, d: DeviceInfo)
    ensures
        change_events(last, devices).contains(AudioEvent::DeviceAdded(d)) <==> devices.contains(d) && !is_present(
            last,
            d.name@,
        ),
        change_events(last, devices).contains(AudioEvent::DeviceRemoved(d)) <==> last.contains(d) && !is_present(
            devices,
            d.name@,
        ),
{
    let events = change_events(last, devices);
    let come = missing_from(devices, last);
    let gone = missing_from(last, devices);
    lemma_missing(devices, last, d);
    lemma_missing(last, devices, d);
    if come.contains(d) {
        assert(events[come.index_of(d)] == AudioEvent::DeviceAdded(d));
    }
    if gone.contains(d) {
        assert(events[come.len() + gone.index_of(d)] == AudioEvent::DeviceRemoved(d));
    }
    if events.contains(AudioEvent::DeviceAdded(d)) {
        assert(come[events.index_of(AudioEvent::DeviceAdded(d))] == d);
    }
    if events.contains(AudioEvent::DeviceRemoved(d)) {
        assert(gone[events.index_of(AudioEvent::DeviceRemoved(d)) - come.len()] == d);
    }
}

/// A seek never leaves the stream, and seeking to where the stream stands, to
/// its start and to its end is always granted.
pub proof fn seek_stays_within_the_stream(stream: HttpStream, to: SeekPos)
    requires
        stream.len is Some ==> stream.pos <= stream.len->0,
    ensures
        stream.sought(to) is Ok && stream.len is Some ==> stream.sought(to)->Ok_0 <= stream.len->0,
        stream.sought(SeekPos::Current(0)) == Ok::<u64, SeekError>(stream.pos),
        stream.sought(SeekPos::Start(0)) == Ok::<u64, SeekError>(0u64),
        stream.len is Some ==> stream.sought(SeekPos::End(0)) == Ok::<u64, SeekError>(stream.len->0),
        stream.len is None ==> forall|p: i64|
            #[trigger] stream.sought(SeekPos::End(p)) == Err::<u64, SeekError>(SeekError::NoLength),
{
}

/// A stream together with its connection to a server that honours ranges of one
/// resource: `served` is the offset of the byte that an open response gives next.
pub struct Transfer {
    pub stream: HttpStream,
    pub served: int,
}

/// `a` once the server answers the request for everything from `start` on.
pub open spec fn requested_at(a: Transfer, start: u64) -> Transfer {
    Transfer { stream: a.stream.opened_at(start), served: start as int }
}

/// `a` once the request that a read needs, if any, was answered.
pub open spec fn ready(a: Transfer) -> Transfer {
    match a.stream.requested() {
        Some(start) => requested_at(a, start),
        None => a,
    }
}

/// A read into a buffer of `room` bytes gives `bytes` of the resource; offsets
/// are numbers of 64 bits.
pub open spec fn read_step(resource: Seq<u8>, a: Transfer, room: int, bytes: Seq<u8>, b: Transfer) -> bool {
    let from = ready(a).served;
    &&& bytes.len() <= room
    &&& 0 <= from <= from + bytes.len() <= resource.len()
    &&& ready(a).stream.pos + bytes.len() <= u64::MAX
    &&& bytes == resource.subrange(from, from + bytes.len())
    &&& b == Transfer {
        stream: ready(a).stream.after_read(bytes.len() as int),
        served: from + bytes.len(),
    }
}

/// A read fails, before or after its request was answered.
pub open spec fn failed_read_step(a: Transfer, b: Transfer) -> bool {
    b == a || b == ready(a)
}

/// A seek to `to` is refused, fails, or is answered by the server.
pub open spec fn seek_step(a: Transfer, to: SeekPos, b: Transfer) -> bool {
    match a.stream.sought(to) {
        Ok(offset) => b == a || b == requested_at(a, offset),
        Err(_) => b == a,
    }
}

pub open spec fn transfer_step(resource: Seq<u8>, a: Transfer, b: Transfer) -> bool {
    ||| exists|room: int, bytes: Seq<u8>| #[trigger] read_step(resource, a, room, bytes, b)
    ||| failed_read_step(a, b)
    ||| exists|to: SeekPos| #[trigger] seek_step(a, to, b)
}

/// What holds of a transfer at any time: an open response gives the byte at the
/// stream's position next.
pub open spec fn in_place(a: Transfer) -> bool {
    a.stream.open ==> a.served == a.stream.pos
}

proof fn lemma_in_place_step(resource: Seq<u8>, a: Transfer, b: Transfer)
    requires
        in_place(a),
        transfer_step(resource, a, b),
    ensures
        in_place(b),
        b.stream.len == a.stream.len,
{
}

/// Over any run of reads and seeks of one resource, the position of the stream is
/// the offset of the next unread byte, and its length never changes.
pub proof fn position_is_the_next_unread_byte(resource: Seq<u8>, trace: Seq<Transfer>)
    requires
        trace.len() > 0,
        !trace[0].stream.open,
        forall|i: int| 0 <= i < trace.len() - 1 ==> #[trigger] transfer_step(resource, trace[i], trace[i + 1]),
    ensures
        in_place(trace.last()),
        trace.last().stream.len == trace[0].stream.len,
    decreases trace.len(),
{
    if trace.len() > 1 {
        let front = trace.drop_last();
        assert forall|i: int| 0 <= i < front.len() - 1 implies #[trigger] transfer_step(
            resource,
            front[i],
            front[i + 1],
        ) by {
            assert(transfer_step(resource, trace[i], trace[i + 1]));
        }
        position_is_the_next_unread_byte(resource, front);
        assert(transfer_step(resource, trace[trace.len() - 2], trace[trace.len() - 2 + 1]));
        lemma_in_place_step(resource, front.last(), trace.last());
    }
}

/// After any run of reads and seeks of one resource, a read gives the bytes from
/// the position on and moves it behind them; one that gives none leaves the
/// position and closes the response, and one that fails leaves the position.
pub proof fn read_gives_the_next_bytes(
    resource: Seq<u8>,
    trace: Seq<Transfer>,
    room: int,
    bytes: Seq<u8>,
    after: Transfer,
    failed: Transfer,
)
    requires
        trace.len() > 0,
        !trace[0].stream.open,
        forall|i: int| 0 <= i < trace.len() - 1 ==> #[trigger] transfer_step(resource, trace[i], trace[i + 1]),
        read_step(resource, trace.last(), room, bytes, after),
        failed_read_step(trace.last(), failed),
    ensures
        ({
            let pos = trace.last().stream.pos;
            &&& bytes.len() <= room
            &&& pos + bytes.len() <= resource.len()
            &&& bytes == resource.subrange(pos as int, pos + bytes.len())
            &&& after.stream.pos == pos + bytes.len()
            &&& bytes.len() == 0 ==> !after.stream.open
            &&& failed.stream.pos == pos
        }),
{
    position_is_the_next_unread_byte(resource, trace);
}

/// A decimal number reads back as itself.
pub proof fn decimal_reads_back(n: u64)
    ensures
        parsed_decimal(decimal(n as nat)) == Some(n),
{
    lemma_decimal_digits(n as nat);
    let d = decimal(n as nat);
    assert(is_digit(d[0]));
    assert(unsigned_part(d) == d);
}

proof fn lemma_decimal_digits(n: nat)
    ensures
        decimal(n).len() > 0,
        forall|i: int| 0 <= i < decimal(n).len() ==> is_digit(#[trigger] decimal(n)[i]),
        digits_value(decimal(n)) == n,
    decreases n,
{
    if n < 10 {
        assert(decimal(n).drop_last() =~= Seq::<char>::empty());
        assert(digits_value(Seq::<char>::empty()) == 0);
    } else {
        lemma_decimal_digits(n / 10);
        assert(decimal(n).drop_last() =~= decimal(n / 10));
    }
}

} // verus!
