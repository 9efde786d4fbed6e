//! What the equaliser is for: setting a filter puts the filter that was asked for,
//! and no other, into every channel's chain, and samples pass through the chain.

use crate::effects::{
    band_pass_filter, carries, high_shelf_filter, highpass_filter, labels, low_shelf_filter, lowpass_filter, make_biquad,
    notch_filter, peak_filter, without_first, AudioProcessor, BiquadFilter, Effects, FilterCore, FilterType, GainNode,
};
use crate::engine::{filter_applied, filter_replaced, filter_set, reaches_half, AudioEngine};
use crate::ieee::{rounded, silent, Single};
use crate::math::AudioMath;
use crate::player_state::SharedPlayback;
use vstd::arithmetic::power2::pow2;
use vstd::prelude::*;

verus! {

// ── Designing ─────────────────────────────────────────────────────────────────

/// Whether `f` is a filter that has heard nothing yet, with the coefficients that
/// the core designs for `kind` with these parameters, and named `name`.
pub open spec fn fresh_filter<B: FilterCore>(
    kind: FilterType,
    name: Seq<char>,
    sample_rate: u32,
    cutoff_hz: Single,
    q: Single,
    f: BiquadFilter<B>,
) -> bool {
    &&& call_ensures(B::design, (kind, sample_rate, cutoff_hz, q), Some(f.coeffs))
    &&& f.filter is Some
    &&& call_ensures(B::start, (f.coeffs,), f.filter->0)
    &&& f.label@ == name
}

/// Whether `made` is such a filter, or nothing where the core designs nothing.
pub open spec fn made_to_order<B: FilterCore>(
    kind: FilterType,
    name: Seq<char>,
    sample_rate: u32,
    cutoff_hz: Single,
    q: Single,
    made: Option<BiquadFilter<B>>,
) -> bool {
    match made {
        Some(f) => fresh_filter(kind, name, sample_rate, cutoff_hz, q, f),
        None => call_ensures(B::design, (kind, sample_rate, cutoff_hz, q), None::<B::Coeffs>),
    }
}

/// A new peaking-EQ filter is one that the core designs as such.
pub proof fn peak_filter_is_what_it_says<B: FilterCore>(
    sample_rate: u32,
    cutoff_hz: Single,
    gain_db: Single,
    q: Single,
    made: Option<BiquadFilter<B>>,
)
    requires
        call_ensures(peak_filter::<B>, (sample_rate, cutoff_hz, gain_db, q), made),
    ensures
        made_to_order(FilterType::PeakingEQ(gain_db), "PeakEQ"@, sample_rate, cutoff_hz, q, made),
{
}

/// A new low-shelf filter is one that the core designs as such.
pub proof fn low_shelf_filter_is_what_it_says<B: FilterCore>(
    sample_rate: u32,
    cutoff_hz: Single,
    gain_db: Single,
    q: Single,
    made: Option<BiquadFilter<B>>,
)
    requires
        call_ensures(low_shelf_filter::<B>, (sample_rate, cutoff_hz, gain_db, q), made),
    ensures
        made_to_order(FilterType::LowShelf(gain_db), "LowShelf"@, sample_rate, cutoff_hz, q, made),
{
}

/// A new high-shelf filter is one that the core designs as such.
pub proof fn high_shelf_filter_is_what_it_says<B: FilterCore>(
    sample_rate: u32,
    cutoff_hz: Single,
    gain_db: Single,
    q: Single,
    made: Option<BiquadFilter<B>>,
)
    requires
        call_ensures(high_shelf_filter::<B>, (sample_rate, cutoff_hz, gain_db, q), made),
    ensures
        made_to_order(FilterType::HighShelf(gain_db), "HighShelf"@, sample_rate, cutoff_hz, q, made),
{
}

/// A new band-pass filter is one that the core designs as such.
pub proof fn band_pass_filter_is_what_it_says<B: FilterCore>(
    sample_rate: u32,
    cutoff_hz: Single,
    q: Single,
    made: Option<BiquadFilter<B>>,
)
    requires
        call_ensures(band_pass_filter::<B>, (sample_rate, cutoff_hz, q), made),
    ensures
        made_to_order(FilterType::BandPass, "BandPass"@, sample_rate, cutoff_hz, q, made),
{
}

/// A new low-pass filter is one that the core designs as such.
pub proof fn lowpass_filter_is_what_it_says<B: FilterCore>(
    sample_rate: u32,
    cutoff_hz: Single,
    q: Single,
    made: Option<BiquadFilter<B>>,
)
    requires
        call_ensures(lowpass_filter::<B>, (sample_rate, cutoff_hz, q), made),
    ensures
        made_to_order(FilterType::LowPass, "LowPass"@, sample_rate, cutoff_hz, q, made),
{
}

/// A new high-pass filter is one that the core designs as such.
pub proof fn highpass_filter_is_what_it_says<B: FilterCore>(
    sample_rate: u32,
    cutoff_hz: Single,
    q: Single,
    made: Option<BiquadFilter<B>>,
)
    requires
        call_ensures(highpass_filter::<B>, (sample_rate, cutoff_hz, q), made),
    ensures
        made_to_order(FilterType::HighPass, "HighPass"@, sample_rate, cutoff_hz, q, made),
{
}

/// A new notch filter is one that the core designs as such.
pub proof fn notch_filter_is_what_it_says<B: FilterCore>(
    sample_rate: u32,
    cutoff_hz: Single,
    q: Single,
    made: Option<BiquadFilter<B>>,
)
    requires
        call_ensures(notch_filter::<B>, (sample_rate, cutoff_hz, q), made),
    ensures
        made_to_order(FilterType::Notch, "Notch"@, sample_rate, cutoff_hz, q, made),
{
}

/// Filters of different kinds have different coefficients, wherever the core
/// designs them differently.
pub proof fn kinds_are_told_apart<B: FilterCore>(
    kind: FilterType,
    other_kind: FilterType,
    sample_rate: u32,
    cutoff_hz: Single,
    q: Single,
    a: BiquadFilter<B>,
    b: BiquadFilter<B>,
)
    requires
        call_ensures(make_biquad::<B>, (kind, sample_rate, cutoff_hz, q), Some(a)),
        call_ensures(make_biquad::<B>, (other_kind, sample_rate, cutoff_hz, q), Some(b)),
        forall|x: B::Coeffs, y: B::Coeffs| #[trigger]
            call_ensures(B::design, (kind, sample_rate, cutoff_hz, q), Some(x)) && #[trigger] call_ensures(
                B::design,
                (other_kind, sample_rate, cutoff_hz, q),
                Some(y),
            ) ==> x != y,
    ensures
        a.coeffs != b.coeffs,
{
}

// ── Setting ───────────────────────────────────────────────────────────────────

/// Whether the parameters of a filter make sense at the device rate
/// `sample_rate`: a positive quality factor, and a positive frequency below half
/// the rate.  What is no number is left to the core that designs the filter.
pub open spec fn sensible(sample_rate: u32, cutoff_hz: Single, q: Single) -> bool {
    &&& q.nan() || silent().less(q)
    &&& cutoff_hz.nan() || (silent().less(cutoff_hz) && cutoff_hz.finite() && 2 * cutoff_hz.value() < rounded(
        sample_rate as nat,
    ) * pow2(149))
}

/// Whether `rest` is `chain` without its first processor named `name`.
pub open spec fn first_removed<P: AudioProcessor>(chain: Seq<P>, name: Seq<char>, rest: Seq<P>) -> bool {
    if forall|i: int| 0 <= i < chain.len() ==> (#[trigger] chain[i]).label() != name {
        rest == chain
    } else {
        exists|i: int|
            0 <= i < chain.len() && (#[trigger] chain[i]).label() == name && (forall|k: int|
                0 <= k < i ==> (#[trigger] chain[k]).label() != name) && rest == chain.take(i) + chain.skip(i + 1)
    }
}

pub(crate) proof fn lemma_first_removed<P: AudioProcessor>(chain: Seq<P>, name: Seq<char>)
    ensures
        first_removed(chain, name, without_first(chain, name)),
{
    let all = labels(chain);
    if all.contains(name) {
        all.index_of_first_ensures(name);
        let at = all.index_of_first(name)->0;
        assert(all[at] == name);
        assert(chain[at].label() == name);
        assert forall|k: int| 0 <= k < at implies (#[trigger] chain[k]).label() != name by {
            assert(all[k] == chain[k].label());
        }
        assert(chain.remove(at) =~= chain.take(at) + chain.skip(at + 1));
    } else {
        assert forall|i: int| 0 <= i < chain.len() implies (#[trigger] chain[i]).label() != name by {
            assert(all[i] == chain[i].label());
        }
    }
}

/// Whether `after` is `before` with the old filter named `name` gone and the one
/// that was asked for at the end, where the core designs one.
pub open spec fn filtered_anew<P: AudioProcessor + From<BiquadFilter<B>>, B: FilterCore>(
    before: Seq<P>,
    kind: FilterType,
    name: Seq<char>,
    sample_rate: u32,
    cutoff_hz: Single,
    q: Single,
    after: Seq<P>,
) -> bool {
    exists|made: Option<BiquadFilter<B>>| #[trigger]
        made_to_order(kind, name, sample_rate, cutoff_hz, q, made) && match made {
            Some(f) => {
                &&& after.len() > 0
                &&& first_removed(before, name, after.drop_last())
                &&& call_ensures(<P as From<BiquadFilter<B>>>::from, (f,), after.last())
            },
            None => first_removed(before, name, after),
        }
}

proof fn lemma_filter_law<P: AudioProcessor + From<BiquadFilter<B>>, B: FilterCore>(
    before: SharedPlayback<P>,
    kind: FilterType,
    name: Seq<char>,
    cutoff_hz: Single,
    q: Single,
    after: SharedPlayback<P>,
)
    requires
        filter_applied::<P, B>(before, kind, cutoff_hz, q, after),
        kind.name() == name,
    ensures
        filter_law::<P, B>(before, kind, name, cutoff_hz, q, after),
{
    let rate = before.sample_rate;
    if sensible(rate, cutoff_hz, q) {
        assert(!reaches_half(cutoff_hz, rate));
        assert forall|i: int| 0 <= i < before.effects@.len() implies filtered_anew::<P, B>(
            (#[trigger] before.effects@[i]).chain@,
            kind,
            name,
            rate,
            cutoff_hz,
            q,
            after.effects@[i].chain@,
        ) by {
            let chain = before.effects@[i].chain@;
            let next = after.effects@[i].chain@;
            lemma_first_removed(chain, name);
            assert(filter_set::<P, B>(chain, kind, rate, cutoff_hz, q, next));
            let made = choose|made: Option<BiquadFilter<B>>| #[trigger]
                crate::effects::is_designed::<B>(kind, rate, cutoff_hz, q, made) && filter_replaced::<P, B>(
                    chain,
                    kind.name(),
                    made,
                    next,
                );
            assert(made_to_order(kind, name, rate, cutoff_hz, q, made));
        }
    }
    if !q.at_most(silent()) && cutoff_hz.at_most(silent()) {
        assert forall|i: int| 0 <= i < before.effects@.len() implies first_removed(
            (#[trigger] before.effects@[i]).chain@,
            name,
            after.effects@[i].chain@,
        ) by {
            lemma_first_removed(before.effects@[i].chain@, name);
        }
    }
}

/// What setting a filter does: with sensible parameters every channel gets the
/// filter that was asked for in place of the old one; a frequency that is not
/// positive takes the old one away; anything else changes nothing.
pub open spec fn filter_law<P: AudioProcessor + From<BiquadFilter<B>>, B: FilterCore>(
    before: SharedPlayback<P>,
    kind: FilterType,
    name: Seq<char>,
    cutoff_hz: Single,
    q: Single,
    after: SharedPlayback<P>,
) -> bool {
    let rate = before.sample_rate;
    &&& after == SharedPlayback { effects: after.effects, ..before }
    &&& after.effects@.len() == before.effects@.len()
    &&& sensible(rate, cutoff_hz, q) ==> forall|i: int|
        0 <= i < before.effects@.len() ==> filtered_anew::<P, B>(
            (#[trigger] before.effects@[i]).chain@,
            kind,
            name,
            rate,
            cutoff_hz,
            q,
            after.effects@[i].chain@,
        )
    &&& !q.at_most(silent()) && cutoff_hz.at_most(silent()) ==> forall|i: int|
        0 <= i < before.effects@.len() ==> first_removed(
            (#[trigger] before.effects@[i]).chain@,
            name,
            after.effects@[i].chain@,
        )
    &&& q.at_most(silent()) ==> after == before
    &&& silent().less(cutoff_hz) && cutoff_hz.finite() && 2 * cutoff_hz.value() >= rounded(rate as nat) * pow2(149)
        ==> after == before
    &&& silent().less(cutoff_hz) && !cutoff_hz.finite() ==> after == before
}

/// Setting the peaking-EQ filter sets a peaking-EQ filter.
pub proof fn set_peak_filter_sets_that_filter<P: AudioProcessor + From<BiquadFilter<B>>, B: FilterCore>(
    shared: &mut SharedPlayback<P>,
    cutoff_hz: Single,
    gain_db: Single,
    q: Single,
)
    requires
        call_ensures(AudioEngine::set_peak_filter::<P, B>, (shared, cutoff_hz, gain_db, q), ()),
    ensures
        filter_law::<P, B>(
            *old(shared),
            FilterType::PeakingEQ(gain_db),
            "PeakEQ"@,
            cutoff_hz,
            q,
            *final(shared),
        ),
{
    lemma_filter_law::<P, B>(
        *old(shared),
        FilterType::PeakingEQ(gain_db),
        "PeakEQ"@,
        cutoff_hz,
        q,
        *final(shared),
    );
}

/// Setting the low-shelf filter sets a low-shelf filter.
pub proof fn set_low_shelf_filter_sets_that_filter<P: AudioProcessor + From<BiquadFilter<B>>, B: FilterCore>(
    shared: &mut SharedPlayback<P>,
    cutoff_hz: Single,
    gain_db: Single,
    q: Single,
)
    requires
        call_ensures(AudioEngine::set_low_shelf_filter::<P, B>, (shared, cutoff_hz, gain_db, q), ()),
    ensures
        filter_law::<P, B>(
            *old(shared),
            FilterType::LowShelf(gain_db),
            "LowShelf"@,
            cutoff_hz,
            q,
            *final(shared),
        ),
{
    lemma_filter_law::<P, B>(
        *old(shared),
        FilterType::LowShelf(gain_db),
        "LowShelf"@,
        cutoff_hz,
        q,
        *final(shared),
    );
}

/// Setting the high-shelf filter sets a high-shelf filter.
pub proof fn set_high_shelf_filter_sets_that_filter<P: AudioProcessor + From<BiquadFilter<B>>, B: FilterCore>(
    shared: &mut SharedPlayback<P>,
    cutoff_hz: Single,
    gain_db: Single,
    q: Single,
)
    requires
        call_ensures(AudioEngine::set_high_shelf_filter::<P, B>, (shared, cutoff_hz, gain_db, q), ()),
    ensures
        filter_law::<P, B>(
            *old(shared),
            FilterType::HighShelf(gain_db),
            "HighShelf"@,
            cutoff_hz,
            q,
            *final(shared),
        ),
{
    lemma_filter_law::<P, B>(
        *old(shared),
        FilterType::HighShelf(gain_db),
        "HighShelf"@,
        cutoff_hz,
        q,
        *final(shared),
    );
}

/// Setting the band-pass filter sets a band-pass filter.
pub proof fn set_band_pass_filter_sets_that_filter<P: AudioProcessor + From<BiquadFilter<B>>, B: FilterCore>(
    shared: &mut SharedPlayback<P>,
    cutoff_hz: Single,
    q: Single,
)
    requires
        call_ensures(AudioEngine::set_band_pass_filter::<P, B>, (shared, cutoff_hz, q), ()),
    ensures
        filter_law::<P, B>(
            *old(shared),
            FilterType::BandPass,
            "BandPass"@,
            cutoff_hz,
            q,
            *final(shared),
        ),
{
    lemma_filter_law::<P, B>(
        *old(shared),
        FilterType::BandPass,
        "BandPass"@,
        cutoff_hz,
        q,
        *final(shared),
    );
}

/// Setting the low-pass filter sets a low-pass filter.
pub proof fn set_lowpass_filter_sets_that_filter<P: AudioProcessor + From<BiquadFilter<B>>, B: FilterCore>(
    shared: &mut SharedPlayback<P>,
    cutoff_hz: Single,
    q: Single,
)
    requires
        call_ensures(AudioEngine::set_lowpass_filter::<P, B>, (shared, cutoff_hz, q), ()),
    ensures
        filter_law::<P, B>(
            *old(shared),
            FilterType::LowPass,
            "LowPass"@,
            cutoff_hz,
            q,
            *final(shared),
        ),
{
    lemma_filter_law::<P, B>(
        *old(shared),
        FilterType::LowPass,
        "LowPass"@,
        cutoff_hz,
        q,
        *final(shared),
    );
}

/// Setting the high-pass filter sets a high-pass filter.
pub proof fn set_high_pass_filter_sets_that_filter<P: AudioProcessor + From<BiquadFilter<B>>, B: FilterCore>(
    shared: &mut SharedPlayback<P>,
    cutoff_hz: Single,
    q: Single,
)
    requires
        call_ensures(AudioEngine::set_high_pass_filter::<P, B>, (shared, cutoff_hz, q), ()),
    ensures
        filter_law::<P, B>(
            *old(shared),
            FilterType::HighPass,
            "HighPass"@,
            cutoff_hz,
            q,
            *final(shared),
        ),
{
    lemma_filter_law::<P, B>(
        *old(shared),
        FilterType::HighPass,
        "HighPass"@,
        cutoff_hz,
        q,
        *final(shared),
    );
}

/// Setting the notch filter sets a notch filter.
pub proof fn set_notch_filter_sets_that_filter<P: AudioProcessor + From<BiquadFilter<B>>, B: FilterCore>(
    shared: &mut SharedPlayback<P>,
    cutoff_hz: Single,
    q: Single,
)
    requires
        call_ensures(AudioEngine::set_notch_filter::<P, B>, (shared, cutoff_hz, q), ()),
    ensures
        filter_law::<P, B>(
            *old(shared),
            FilterType::Notch,
            "Notch"@,
            cutoff_hz,
            q,
            *final(shared),
        ),
{
    lemma_filter_law::<P, B>(
        *old(shared),
        FilterType::Notch,
        "Notch"@,
        cutoff_hz,
        q,
        *final(shared),
    );
}

/// A filter check refuses, with `-1`, a quality factor that is not positive and a
/// frequency from half the device rate on, and where the rate cannot be read; it
/// accepts sensible parameters, with `0`, and a frequency that is not positive.
pub proof fn filter_check_refuses_what_makes_no_sense<P>(
    shared: SharedPlayback<P>,
    cutoff_hz: Single,
    q: Single,
    r: i8,
    unread: i8,
)
    requires
        call_ensures(AudioEngine::filter_check::<P>, (Some(&shared), cutoff_hz, q), r),
        call_ensures(AudioEngine::filter_check::<P>, (None, cutoff_hz, q), unread),
    ensures
        unread == -1,
        r == 0 || r == -1,
        sensible(shared.sample_rate, cutoff_hz, q) ==> r == 0,
        q.at_most(silent()) ==> r == -1,
        !q.at_most(silent()) && cutoff_hz.at_most(silent()) ==> r == 0,
        silent().less(cutoff_hz) && !cutoff_hz.finite() ==> r == -1,
        silent().less(cutoff_hz) && cutoff_hz.finite() && 2 * cutoff_hz.value() >= rounded(shared.sample_rate as nat)
            * pow2(149) ==> r == -1,
{
}

/// Setting a filter by its kind sets a filter of that kind, under that kind's name.
pub proof fn set_filter_sets_that_kind<P: AudioProcessor + From<BiquadFilter<B>>, B: FilterCore>(
    shared: &mut SharedPlayback<P>,
    kind: FilterType,
    label: &'static str,
    cutoff_hz: Single,
    q: Single,
)
    requires
        call_ensures(AudioEngine::set_filter::<P, B>, (shared, kind, cutoff_hz, q), ()),
        call_ensures(FilterType::label, (kind,), label),
    ensures
        filter_law::<P, B>(*old(shared), kind, label@, cutoff_hz, q, *final(shared)),
{
    lemma_filter_law::<P, B>(*old(shared), kind, label@, cutoff_hz, q, *final(shared));
}

// ── Processing ────────────────────────────────────────────────────────────────

/// A biquad filter hands every sample to its running filter, whatever the
/// channel, and a reset starts that filter anew with the same coefficients.
pub proof fn biquad_filter_runs<B: FilterCore>(
    f: &mut BiquadFilter<B>,
    sample: Single,
    channel: usize,
    out: Single,
    g: &mut BiquadFilter<B>,
    sample_rate: u32,
    channels: u16,
)
    requires
        call_ensures(<BiquadFilter<B> as AudioProcessor>::process_sample, (f, sample, channel), out),
        call_ensures(<BiquadFilter<B> as AudioProcessor>::reset, (g, sample_rate, channels), ()),
        old(f).filter is Some,
    ensures
        final(f).filter is Some,
        call_ensures(B::run, (old(f).filter->0, sample), (final(f).filter->0, out)),
        final(f).coeffs == old(f).coeffs,
        final(f).label == old(f).label,
        final(g).filter is Some,
        call_ensures(B::start, (old(g).coeffs,), final(g).filter->0),
        final(g).coeffs == old(g).coeffs,
        final(g).label == old(g).label,
{
}

/// A gain node scales every sample by its gain.
pub proof fn gain_node_scales<M: AudioMath + Send + 'static>(
    node: &mut GainNode<M>,
    sample: Single,
    channel: usize,
    out: Single,
)
    requires
        call_ensures(<GainNode<M> as AudioProcessor>::process_sample, (node, sample, channel), out),
    ensures
        call_ensures(M::scale, (sample, old(node).gain), out),
        final(node).gain == old(node).gain,
{
}

/// A chain hands a sample from processor to processor, in order: two effects
/// apply one after the other, one effect applies alone, none changes nothing.
pub proof fn effects_apply_in_order<P: AudioProcessor>(
    effects: &mut Effects<P>,
    sample: Single,
    channel: usize,
    out: Single,
)
    requires
        call_ensures(Effects::<P>::process, (effects, sample, channel), out),
    ensures
        final(effects).chain@.len() == old(effects).chain@.len(),
        old(effects).chain@.len() == 0 ==> out == sample,
        old(effects).chain@.len() == 1 ==> old(effects).chain@[0].processes(
            sample,
            channel,
            final(effects).chain@[0],
            out,
        ),
        old(effects).chain@.len() == 2 ==> exists|between: Single| #[trigger]
            old(effects).chain@[0].processes(sample, channel, final(effects).chain@[0], between)
                && old(effects).chain@[1].processes(between, channel, final(effects).chain@[1], out),
{
    let before = old(effects).chain@;
    let after = final(effects).chain@;
    let wire = choose|wire: Seq<Single>| #[trigger]
        carries(before, channel, after, wire) && wire[0] == sample && wire.last() == out;
    if before.len() > 0 {
        assert(before[0].processes(wire[0], channel, after[0], wire[1]));
    }
    if before.len() > 1 {
        assert(before[1].processes(wire[1], channel, after[1], wire[2]));
    }
}

/// Removing by name takes the first processor of that name out of a chain and
/// leaves the others in order; it says whether there was one.
pub proof fn removing_takes_the_first<P: AudioProcessor>(effects: &mut Effects<P>, name: &str, r: bool)
    requires
        call_ensures(Effects::<P>::remove_named, (effects, name), r),
    ensures
        first_removed(old(effects).chain@, name@, final(effects).chain@),
        r <==> exists|i: int| 0 <= i < old(effects).chain@.len() && (#[trigger] old(effects).chain@[i]).label() == name@,
        r <==> final(effects).chain@.len() + 1 == old(effects).chain@.len(),
        !r <==> final(effects).chain@ == old(effects).chain@,
{
    let chain = old(effects).chain@;
    lemma_first_removed(chain, name@);
    let all = labels(chain);
    if r {
        all.index_of_first_ensures(name@);
        let i = choose|i: int| 0 <= i < all.len() && all[i] == name@;
        assert(chain[i].label() == name@);
    } else {
        assert forall|i: int| 0 <= i < chain.len() implies (#[trigger] chain[i]).label() != name@ by {
            assert(all[i] == chain[i].label());
        }
    }
}

/// However long a chain is, each of its processors sees each sample once, gets what
/// the one before it gave, and the last one gives what comes out.
pub proof fn every_effect_applies_once<P: AudioProcessor>(
    effects: &mut Effects<P>,
    sample: Single,
    channel: usize,
    out: Single,
)
    requires
        call_ensures(Effects::<P>::process, (effects, sample, channel), out),
    ensures
        final(effects).chain@.len() == old(effects).chain@.len(),
        exists|given: Seq<Single>|
            #![trigger given.len()]
            given.len() == old(effects).chain@.len() + 1 && given[0] == sample && given[given.len() - 1] == out
                && forall|i: int|
                0 <= i < old(effects).chain@.len() ==> (#[trigger] old(effects).chain@[i]).processes(
                    given[i],
                    channel,
                    final(effects).chain@[i],
                    given[i + 1],
                ),
{
    let before = old(effects).chain@;
    let after = final(effects).chain@;
    let wire = choose|wire: Seq<Single>| #[trigger]
        carries(before, channel, after, wire) && wire[0] == sample && wire.last() == out;
    assert(wire.len() == before.len() + 1);
    assert forall|i: int| 0 <= i < before.len() implies (#[trigger] before[i]).processes(
        wire[i],
        channel,
        after[i],
        wire[i + 1],
    ) by {
        assert(before[i].processes(wire[i], channel, after[i], wire[i + 1]));
    }
}

/// A new chain is empty, what is pushed comes last, and clearing leaves nothing.
pub proof fn chain_grows_at_its_end<P: AudioProcessor>(
    fresh: Effects<P>,
    pushed: &mut Effects<P>,
    processor: P,
    cleared: &mut Effects<P>,
    asked: &Effects<P>,
    empty: bool,
)
    requires
        call_ensures(Effects::<P>::new, (), fresh),
        call_ensures(Effects::<P>::push, (pushed, processor), ()),
        call_ensures(Effects::<P>::clear, (cleared,), ()),
        call_ensures(Effects::<P>::is_empty, (asked,), empty),
    ensures
        fresh.chain@.len() == 0,
        final(pushed).chain@.len() == old(pushed).chain@.len() + 1,
        final(pushed).chain@.last() == processor,
        forall|i: int| 0 <= i < old(pushed).chain@.len() ==> final(pushed).chain@[i] == old(pushed).chain@[i],
        final(cleared).chain@.len() == 0,
        empty <==> asked.chain@.len() == 0,
{
}

/// A change of the stream's format reaches every processor of a chain.
pub proof fn format_change_reaches_every_effect<P: AudioProcessor>(
    effects: &mut Effects<P>,
    sample_rate: u32,
    channels: u16,
    i: int,
)
    requires
        call_ensures(Effects::<P>::reset_all, (effects, sample_rate, channels), ()),
        0 <= i < old(effects).chain@.len(),
    ensures
        final(effects).chain@.len() == old(effects).chain@.len(),
        old(effects).chain@[i].resets(sample_rate, channels, final(effects).chain@[i]),
{
}

/// A new filter has not seen a sample, a new gain node has its gain, and a gain node
/// stays as it is through a change of the format.
pub proof fn new_effects_are_fresh<B: FilterCore, M: AudioMath + Send + 'static>(
    coeffs: B::Coeffs,
    label: &'static str,
    filter: BiquadFilter<B>,
    gain: Single,
    node: GainNode<M>,
    reset: &mut GainNode<M>,
    sample_rate: u32,
    channels: u16,
)
    requires
        call_ensures(BiquadFilter::<B>::new, (coeffs, label), filter),
        call_ensures(GainNode::<M>::new, (gain,), node),
        call_ensures(<GainNode<M> as AudioProcessor>::reset, (reset, sample_rate, channels), ()),
    ensures
        filter.coeffs == coeffs,
        filter.label == label,
        filter.filter is Some,
        call_ensures(B::start, (coeffs,), filter.filter->0),
        node.gain == gain,
        final(reset).gain == old(reset).gain,
{
}

/// Whether two kinds are the same but for a gain.
pub open spec fn same_kind(a: FilterType, b: FilterType) -> bool {
    ||| a is PeakingEQ && b is PeakingEQ
    ||| a is LowShelf && b is LowShelf
    ||| a is HighShelf && b is HighShelf
    ||| a == b
}

/// Filters of one kind share a name, whatever their gain, and filters of two kinds
/// never do.
pub proof fn each_kind_has_its_name(a: FilterType, b: FilterType, x: &'static str, y: &'static str)
    requires
        call_ensures(FilterType::label, (a,), x),
        call_ensures(FilterType::label, (b,), y),
    ensures
        x@ == y@ <==> same_kind(a, b),
{
    reveal_strlit("PeakEQ");
    reveal_strlit("LowShelf");
    reveal_strlit("HighShelf");
    reveal_strlit("BandPass");
    reveal_strlit("LowPass");
    reveal_strlit("HighPass");
    reveal_strlit("Notch");
    assert("PeakEQ"@[0] == 'P');
    assert("LowShelf"@[0] == 'L' && "LowShelf"@[3] == 'S');
    assert("HighShelf"@[0] == 'H' && "HighShelf"@[4] == 'S');
    assert("BandPass"@[0] == 'B');
    assert("LowPass"@[0] == 'L' && "LowPass"@[3] == 'P');
    assert("HighPass"@[0] == 'H' && "HighPass"@[4] == 'P');
    assert("Notch"@[0] == 'N');
}

/// An effect is removed by the name that it gives: a filter's is its label, a gain
/// node's its own.
pub proof fn effects_give_their_names<B: FilterCore, M: AudioMath + Send + 'static>(
    filter: &BiquadFilter<B>,
    name: &'static str,
    node: &GainNode<M>,
    gain_name: &'static str,
)
    requires
        call_ensures(<BiquadFilter<B> as AudioProcessor>::name, (filter,), name),
        call_ensures(<GainNode<M> as AudioProcessor>::name, (node,), gain_name),
    ensures
        name@ == filter.label@,
        gain_name@ == "GainNode"@,
{
}

/// A filter that is not running hands samples on.
pub proof fn idle_filter_is_bypass<B: FilterCore>(
    f: &mut BiquadFilter<B>,
    sample: Single,
    channel: usize,
    out: Single,
)
    requires
        call_ensures(<BiquadFilter<B> as AudioProcessor>::process_sample, (f, sample, channel), out),
        old(f).filter is None,
    ensures
        out == sample,
        *final(f) == *old(f),
{
}

} // verus!
