//! What the visualizer shows: the newest frames, every bin of their spectrum, and
//! bars that settle towards it.

use crate::ieee::{silent, Single, ONE};
use crate::processor::{
    analyses, bar_span, highest, is_input, is_mono, is_target, is_weight, is_windowed, left_of, listens, right_of,
    rises, settles, smooths, Analysis, SpectrumMath, VisualizerProcessor, INITIAL_LEVEL, LEVEL_FLOOR, TWO,
};
use crate::resample::frame_at;
use vstd::arithmetic::div_mod::lemma_fundamental_div_mod;
use vstd::prelude::*;

verus! {

// ── What a step does ──────────────────────────────────────────────────────────

/// A step on samples, while playing, is an analysis, and what it leaves is what is
/// shown.
pub proof fn playing_samples_are_analysed<M: SpectrumMath>(
    v: &mut VisualizerProcessor,
    samples: &[Single],
    channels: usize,
    sample_rate: u32,
    out: &mut [Single],
    r: i32,
)
    requires
        call_ensures(VisualizerProcessor::compute::<M>, (v, samples, channels, sample_rate, out, true), r),
        0 < channels <= samples@.len(),
        sample_rate > 0,
        0 < old(out)@.len() <= i32::MAX,
        old(out)@.len() <= usize::MAX,
    ensures
        r == old(out)@.len(),
        final(out)@.len() == old(out)@.len(),
        final(out)@ == final(v).smoothed_bars@,
        exists|a: Analysis| #[trigger]
            analyses::<M>(
                *old(v),
                samples@,
                channels,
                sample_rate,
                old(out)@.len() as usize,
                a,
                *final(v),
            ),
{
}

/// Without anything to show every bar and both energies decay by one step, and a
/// display of another size starts flat.
pub proof fn nothing_to_show_decays<M: SpectrumMath>(
    v: &mut VisualizerProcessor,
    samples: &[Single],
    channels: usize,
    sample_rate: u32,
    out: &mut [Single],
    playing: bool,
    r: i32,
    i: int,
)
    requires
        call_ensures(VisualizerProcessor::compute::<M>, (v, samples, channels, sample_rate, out, playing), r),
        !playing || channels == 0 || samples@.len() < channels || sample_rate == 0,
        0 <= i < old(out)@.len(),
    ensures
        final(out)@.len() == old(out)@.len(),
        final(out)@[i] == final(v).smoothed_bars@[i],
        old(v).smoothed_bars@.len() == old(out)@.len() ==> call_ensures(
            M::decay_bar,
            (old(v).smoothed_bars@[i],),
            final(out)@[i],
        ),
        old(v).smoothed_bars@.len() != old(out)@.len() ==> call_ensures(M::decay_bar, (silent(),), final(out)@[i])
            && final(v).adaptive_level.bits == INITIAL_LEVEL,
        old(v).smoothed_bars@.len() == old(out)@.len() ==> final(v).adaptive_level == old(v).adaptive_level,
        call_ensures(M::decay_fast, (old(v).fast_energy,), final(v).fast_energy),
        call_ensures(M::decay_slow, (old(v).slow_energy,), final(v).slow_energy),
{
    assert(call_ensures(
        M::decay_bar,
        (crate::processor::resized(old(v).smoothed_bars@, old(out)@.len() as int)[i],),
        final(v).smoothed_bars@[i],
    ));
}

/// A display without bars is left alone, and so is the visualizer.
pub proof fn nothing_is_shown_on_no_bars<M: SpectrumMath>(
    v: &mut VisualizerProcessor,
    samples: &[Single],
    channels: usize,
    sample_rate: u32,
    out: &mut [Single],
    playing: bool,
    r: i32,
)
    requires
        call_ensures(VisualizerProcessor::compute::<M>, (v, samples, channels, sample_rate, out, playing), r),
        old(out)@.len() == 0,
    ensures
        r == 0,
        *final(v) == *old(v),
        final(out)@.len() == 0,
{
}

// ── What is heard ─────────────────────────────────────────────────────────────

/// The number of frames that the transform takes of `frames` frames.
pub open spec fn taken_frames(frames: int) -> int {
    if frames < 2048 {
        frames
    } else {
        2048
    }
}

/// Whether `m` is the mean of the channels of frame `i`.
pub open spec fn is_mean_of_frame<M: SpectrumMath>(samples: Seq<Single>, channels: int, i: int, m: Single) -> bool {
    exists|f: &[Single]|
        f@.len() == channels && (forall|c: int| 0 <= c < channels ==> #[trigger] f@[c] == samples[i * channels + c])
            && #[trigger] call_ensures(M::mono, (f,), m)
}

/// Whether `x` is `m` weighted for place `index` of a window of `len` frames: by
/// the Hann window, cut off at zero and one, or by one in a window of one frame.
pub open spec fn is_weighted<M: SpectrumMath>(m: Single, index: int, len: int, x: Single) -> bool {
    exists|w: Single| #[trigger]
        call_ensures(M::weigh, (m, w), x) && (len <= 1 ==> w.bits == ONE) && (len > 1 ==> exists|h: Single| #[trigger]
            call_ensures(M::hann, (index as usize, len as usize), h) && (h.nan() || (silent().at_most(w) && w.at_most(
                Single { bits: ONE },
            ))) && (silent().at_most(h) && h.at_most(Single { bits: ONE }) ==> w == h) && (h.less(silent()) ==> w
                == silent()) && ((Single { bits: ONE }).less(h) ==> w.bits == ONE))
}

proof fn lemma_weighted<M: SpectrumMath>(m: Single, index: usize, len: usize, x: Single)
    requires
        is_windowed::<M>(m, index, len, x),
    ensures
        is_weighted::<M>(m, index as int, len as int, x),
{
    let w = choose|w: Single| is_weight::<M>(index, len, w) && #[trigger] call_ensures(M::weigh, (m, w), x);
    assert(call_ensures(M::weigh, (m, w), x));
    if len > 1 {
        let h = choose|h: Single| #[trigger]
            call_ensures(M::hann, (index, len), h) && w == crate::processor::to_unit(h);
        assert(call_ensures(M::hann, (index as int as usize, len as int as usize), h));
    }
}

/// The transform sees the newest frames and nothing else: the newest at the end,
/// each older one before it, each the weighted mean of its channels; where there
/// are not enough, silence comes first.
pub proof fn transform_sees_the_newest_frames<M: SpectrumMath>(
    before: VisualizerProcessor,
    samples: Seq<Single>,
    channels: usize,
    sample_rate: u32,
    count: usize,
    a: Analysis,
    after: VisualizerProcessor,
    age: int,
)
    requires
        analyses::<M>(before, samples, channels, sample_rate, count, a, after),
        0 < channels <= samples.len(),
        0 <= age < 2048,
    ensures
        a.input.len() == 2048,
        ({
            let frames = samples.len() as int / channels as int;
            let taken = taken_frames(frames);
            &&& age >= taken ==> a.input[2047 - age].bits == 0
            &&& age < taken ==> exists|m: Single| #[trigger]
                is_mean_of_frame::<M>(samples, channels as int, frames - 1 - age, m) && is_weighted::<M>(
                    m,
                    taken - 1 - age,
                    taken,
                    a.input[2047 - age],
                )
        }),
{
    let ch = channels as int;
    let frames = samples.len() as int / ch;
    let taken = taken_frames(frames);
    lemma_frames(samples.len() as int, ch);
    let (mono, sums) = choose|mono: Seq<Single>, sums: Seq<Single>| #[trigger]
        listens::<M>(samples, ch, frames - taken, mono, sums) && mono.len() == taken && sums.last() == a.sum
            && is_input::<M>(mono, a.input);
    assert(is_input::<M>(mono, a.input));
    if age < taken {
        let i = taken - 1 - age;
        lemma_mean::<M>(samples, ch, frames, frames - taken + i, mono[i]);
        assert(is_windowed::<M>(mono[i], i as usize, taken as usize, a.input[2047 - age]));
        lemma_weighted::<M>(mono[i], i as usize, taken as usize, a.input[2047 - age]);
        assert(is_mean_of_frame::<M>(samples, ch, frames - 1 - age, mono[i]));
    }
}

proof fn lemma_frames(len: int, channels: int)
    requires
        0 < channels <= len,
    ensures
        1 <= len / channels,
        (len / channels) * channels <= len,
{
    lemma_fundamental_div_mod(len, channels);
    let n = len / channels;
    assert(1 <= n && n * channels <= len) by (nonlinear_arith)
        requires
            len == channels * n + len % channels,
            0 <= len % channels < channels,
            len >= channels,
            channels > 0,
    ;
}

proof fn lemma_mean<M: SpectrumMath>(samples: Seq<Single>, channels: int, frames: int, i: int, m: Single)
    requires
        channels > 0,
        frames * channels <= samples.len(),
        0 <= i < frames,
        is_mono::<M>(frame_at(samples, channels, i), m),
    ensures
        is_mean_of_frame::<M>(samples, channels, i, m),
{
    assert(0 <= i * channels && i * channels + channels <= samples.len()) by (nonlinear_arith)
        requires
            0 <= i < frames,
            channels > 0,
            frames * channels <= samples.len(),
    ;
    let f = choose|f: &[Single]|
        f@ == frame_at(samples, channels, i) && #[trigger] call_ensures(M::mono, (f,), m);
    assert forall|c: int| 0 <= c < channels implies #[trigger] f@[c] == samples[i * channels + c] by {}
}

/// The loudness is that of the same frames: the squares of their means are added
/// up, oldest first and from zero on, and both energies follow the root of their
/// mean.
pub proof fn energies_follow_the_loudness<M: SpectrumMath>(
    before: VisualizerProcessor,
    samples: Seq<Single>,
    channels: usize,
    sample_rate: u32,
    count: usize,
    a: Analysis,
    after: VisualizerProcessor,
)
    requires
        analyses::<M>(before, samples, channels, sample_rate, count, a, after),
        0 < channels <= samples.len(),
    ensures
        ({
            let frames = samples.len() as int / channels as int;
            let taken = taken_frames(frames);
            exists|sums: Seq<Single>, rms: Single|
                #![trigger call_ensures(M::rms, (sums[taken], taken as usize), rms)]
                {
                    &&& sums[0].bits == 0
                    &&& forall|i: int|
                        0 <= i < taken ==> #[trigger] adds_up::<M>(
                            samples,
                            channels as int,
                            frames - taken + i,
                            sums[i],
                            sums[i + 1],
                        )
                    &&& call_ensures(M::rms, (sums[taken], taken as usize), rms)
                    &&& call_ensures(M::follow_fast, (before.fast_energy, rms), after.fast_energy)
                    &&& call_ensures(M::follow_slow, (before.slow_energy, rms), after.slow_energy)
                }
        }),
{
    let ch = channels as int;
    let frames = samples.len() as int / ch;
    let taken = taken_frames(frames);
    lemma_frames(samples.len() as int, ch);
    let (mono, sums) = choose|mono: Seq<Single>, sums: Seq<Single>| #[trigger]
        listens::<M>(samples, ch, frames - taken, mono, sums) && mono.len() == taken && sums.last() == a.sum
            && is_input::<M>(mono, a.input);
    assert forall|i: int| 0 <= i < taken implies #[trigger] adds_up::<M>(
        samples,
        ch,
        frames - taken + i,
        sums[i],
        sums[i + 1],
    ) by {
        assert(is_mono::<M>(frame_at(samples, ch, frames - taken + i), mono[i]));
        lemma_mean::<M>(samples, ch, frames, frames - taken + i, mono[i]);
        assert(call_ensures(M::add_square, (sums[i], mono[i]), sums[i + 1]));
    }
    assert(sums[taken] == a.sum);
    assert(call_ensures(M::rms, (sums[taken], taken as usize), a.rms));
}

/// Whether `next` is `sum` and the square of the mean of frame `i`.
pub open spec fn adds_up<M: SpectrumMath>(
    samples: Seq<Single>,
    channels: int,
    i: int,
    sum: Single,
    next: Single,
) -> bool {
    exists|m: Single| #[trigger]
        is_mean_of_frame::<M>(samples, channels, i, m) && call_ensures(M::add_square, (sum, m), next)
}

// ── Which bins a bar shows ────────────────────────────────────────────────────

/// Whether `edge` tells the bins at the edges of `bars` bars.
pub open spec fn tells_edges<M: SpectrumMath>(edge: spec_fn(int) -> int, bars: usize, sample_rate: u32) -> bool {
    forall|i: usize, bin: usize| #[trigger]
        call_ensures(M::bin, (i, bars, sample_rate), bin) ==> bin == edge(i as int)
}

/// Whether bar `bar` is as high as the mean of the bins from `low` up to, but
/// without, `high`, raised by the beat.
pub open spec fn shows_bins<M: SpectrumMath>(a: Analysis, bars: usize, bar: int, low: int, high: int) -> bool {
    exists|b: &[Single], mean: Single|
        #![trigger call_ensures(M::mean, (b,), mean)]
        {
            &&& b@.len() == high - low
            &&& forall|j: int| low <= j < high ==> b@[j - low] == #[trigger] a.magnitudes@[j]
            &&& call_ensures(M::mean, (b,), mean)
            &&& call_ensures(M::boost, (mean, a.beat, bar as usize, bars), a.raw[bar])
        }
}

/// A bar shows the bins between its edges, all of them and no others; the lowest
/// bin of all does not count, and a bar between whose edges there is none shows
/// the one at its lower edge.  Edges beyond the transform stand for its end, and a
/// bar that lies beyond it shows the last bin.
pub proof fn bar_shows_the_bins_between_its_edges<M: SpectrumMath>(
    before: VisualizerProcessor,
    samples: Seq<Single>,
    channels: usize,
    sample_rate: u32,
    count: usize,
    a: Analysis,
    after: VisualizerProcessor,
    edge: spec_fn(int) -> int,
    bar: int,
)
    requires
        analyses::<M>(before, samples, channels, sample_rate, count, a, after),
        tells_edges::<M>(edge, count, sample_rate),
        0 <= bar < count,
        count < usize::MAX,
        a.magnitudes@.len() > 0,
    ensures
        a.raw.len() == count,
        ({
            let bins = a.magnitudes@.len() as int;
            let low = edge(bar);
            let high = edge(bar + 1);
            &&& 1 <= low < high <= bins ==> shows_bins::<M>(a, count, bar, low, high)
            &&& low < 1 < high <= bins ==> shows_bins::<M>(a, count, bar, 1, high)
            &&& 1 <= low < bins && high <= low ==> shows_bins::<M>(a, count, bar, low, low + 1)
            &&& low < 1 && high <= 1 && bins > 1 ==> shows_bins::<M>(a, count, bar, 1, 2)
            &&& 1 <= low < bins < high ==> shows_bins::<M>(a, count, bar, low, bins)
            &&& low < 1 < bins < high ==> shows_bins::<M>(a, count, bar, 1, bins)
            &&& low >= bins || bins == 1 ==> shows_bins::<M>(a, count, bar, bins - 1, bins)
        }),
{
    let level = a.raw[bar];
    let n = a.magnitudes@.len() as int;
    assert(rises::<M>(a.magnitudes@, a.beat, sample_rate, count, bar, level));
    let (low, high, mean) = choose|low: usize, high: usize, mean: Single|
        #![trigger call_ensures(M::bin, (bar as usize, count, sample_rate), low), call_ensures(
            M::bin,
            ((bar + 1) as usize, count, sample_rate),
            high,
        ), call_ensures(M::boost, (mean, a.beat, bar as usize, count), level)]
        {
            let span = bar_span(low as int, high as int, n);
            &&& call_ensures(M::bin, (bar as usize, count, sample_rate), low)
            &&& call_ensures(M::bin, ((bar + 1) as usize, count, sample_rate), high)
            &&& crate::processor::averages::<M>(a.magnitudes@.subrange(span.0, span.1), mean)
            &&& call_ensures(M::boost, (mean, a.beat, bar as usize, count), level)
        };
    assert(low == edge(bar));
    assert(high == edge(bar + 1));
    let span = bar_span(low as int, high as int, n);
    let bins = a.magnitudes@.subrange(span.0, span.1);
    if bins.len() > 0 && 0 <= span.0 <= span.1 <= n {
        let b = choose|b: &[Single]| b@ == bins && #[trigger] call_ensures(M::mean, (b,), mean);
        assert(call_ensures(M::mean, (b,), mean));
        assert forall|j: int| span.0 <= j < span.1 implies b@[j - span.0] == #[trigger] a.magnitudes@[j] by {}
        assert(shows_bins::<M>(a, count, bar, span.0, span.1));
    }
}

/// The bars leave no bin out: where the edges do not decrease and lie within the
/// transform, every bin from the lowest edge, but at least the second bin, up to
/// the highest is one of the bins of some bar.
pub proof fn every_bin_counts_for_a_bar<M: SpectrumMath>(
    before: VisualizerProcessor,
    samples: Seq<Single>,
    channels: usize,
    sample_rate: u32,
    count: usize,
    a: Analysis,
    after: VisualizerProcessor,
    edge: spec_fn(int) -> int,
    bin: int,
) -> (bar: int)
    requires
        analyses::<M>(before, samples, channels, sample_rate, count, a, after),
        tells_edges::<M>(edge, count, sample_rate),
        0 < count < usize::MAX,
        forall|i: int| 0 <= i < count ==> #[trigger] edge(i) <= edge(i + 1),
        0 <= edge(0),
        edge(count as int) <= a.magnitudes@.len(),
        edge(0) <= bin < edge(count as int),
        1 <= bin,
    ensures
        0 <= bar < count,
        edge(bar) <= bin < edge(bar + 1),
        shows_bins::<M>(a, count, bar, if edge(bar) < 1 { 1 } else { edge(bar) }, edge(bar + 1)),
{
    let bar = lemma_find_bar(edge, count as int, bin);
    lemma_edges(edge, count as int, 0, bar);
    lemma_edges(edge, count as int, bar + 1, count as int);
    bar_shows_the_bins_between_its_edges::<M>(
        before,
        samples,
        channels,
        sample_rate,
        count,
        a,
        after,
        edge,
        bar,
    );
    bar
}

proof fn lemma_edges(edge: spec_fn(int) -> int, count: int, i: int, j: int)
    requires
        0 <= i <= j <= count,
        forall|k: int| 0 <= k < count ==> #[trigger] edge(k) <= edge(k + 1),
    ensures
        edge(i) <= edge(j),
    decreases j - i,
{
    if i < j {
        lemma_edges(edge, count, i, j - 1);
        assert(edge(j - 1) <= edge(j - 1 + 1));
    }
}

proof fn lemma_find_bar(edge: spec_fn(int) -> int, count: int, bin: int) -> (bar: int)
    requires
        0 < count,
        edge(0) <= bin < edge(count),
    ensures
        0 <= bar < count,
        edge(bar) <= bin < edge(bar + 1),
    decreases count,
{
    if edge(count - 1) <= bin {
        count - 1
    } else {
        lemma_find_bar(edge, count - 1, bin)
    }
}

/// The beat lies between zero and one, and is how far the fast energy leads in
/// between.
pub proof fn beat_is_the_lead_of_the_fast_energy<M: SpectrumMath>(
    before: VisualizerProcessor,
    samples: Seq<Single>,
    channels: usize,
    sample_rate: u32,
    count: usize,
    a: Analysis,
    after: VisualizerProcessor,
)
    requires
        analyses::<M>(before, samples, channels, sample_rate, count, a, after),
    ensures
        exists|lead: Single| #[trigger]
            call_ensures(M::lead, (after.fast_energy, after.slow_energy), lead) && (lead.nan() || (silent().at_most(
                a.beat,
            ) && a.beat.at_most(Single { bits: ONE }))) && (silent().at_most(lead) && lead.at_most(
                Single { bits: ONE },
            ) ==> a.beat == lead) && (lead.less(silent()) ==> a.beat == silent()) && ((Single { bits: ONE }).less(lead)
                ==> a.beat.bits == ONE),
{
    let lead = choose|lead: Single| #[trigger]
        call_ensures(M::lead, (after.fast_energy, after.slow_energy), lead) && a.beat == crate::processor::to_unit(
            lead,
        );
    assert(call_ensures(M::lead, (after.fast_energy, after.slow_energy), lead));
}

/// The magnitudes are those of the transform of what was heard.
pub proof fn magnitudes_are_of_the_transform<M: SpectrumMath>(
    before: VisualizerProcessor,
    samples: Seq<Single>,
    channels: usize,
    sample_rate: u32,
    count: usize,
    a: Analysis,
    after: VisualizerProcessor,
)
    requires
        analyses::<M>(before, samples, channels, sample_rate, count, a, after),
        0 < channels <= samples.len(),
    ensures
        exists|b: &[Single]|
            b@ == a.input && #[trigger] call_ensures(
                M::magnitudes,
                (b, taken_frames(samples.len() as int / channels as int) as usize),
                a.magnitudes,
            ),
{
    let window = taken_frames(samples.len() as int / channels as int) as usize;
    assert(crate::processor::transforms::<M>(a.input, window, a.magnitudes));
    let b = choose|b: &[Single]|
        b@ == a.input && #[trigger] call_ensures(M::magnitudes, (b, window), a.magnitudes);
    assert(call_ensures(M::magnitudes, (b, window), a.magnitudes));
}

// ── How bars settle ───────────────────────────────────────────────────────────

proof fn lemma_highest_bounds(bars: Seq<Single>)
    ensures
        !highest(bars).nan(),
        silent().at_most(highest(bars)),
        forall|i: int| 0 <= i < bars.len() && !(#[trigger] bars[i]).nan() ==> bars[i].at_most(highest(bars)),
        highest(bars) == silent() || bars.contains(highest(bars)),
    decreases bars.len(),
{
    if bars.len() > 0 {
        let front = bars.drop_last();
        lemma_highest_bounds(front);
        assert(bars[bars.len() - 1] == bars.last());
        assert forall|i: int| 0 <= i < bars.len() && !(#[trigger] bars[i]).nan() implies bars[i].at_most(
            highest(bars),
        ) by {
            if i < bars.len() - 1 {
                assert(front[i] == bars[i]);
            }
        }
        if front.contains(highest(front)) {
            let i = front.index_of(highest(front));
            assert(bars[i] == highest(front));
        }
    }
}

/// The level that a display of `count` bars starts from: the last one, or the
/// initial one where the last display had another size.
pub open spec fn level_before(before: VisualizerProcessor, count: usize) -> Single {
    if before.smoothed_bars@.len() == count {
        before.adaptive_level
    } else {
        Single { bits: INITIAL_LEVEL }
    }
}

/// The adaptive level follows the peak: the highest bar, or the smallest level
/// where no bar is higher.
pub proof fn level_follows_the_peak<M: SpectrumMath>(
    before: VisualizerProcessor,
    samples: Seq<Single>,
    channels: usize,
    sample_rate: u32,
    count: usize,
    a: Analysis,
    after: VisualizerProcessor,
)
    requires
        analyses::<M>(before, samples, channels, sample_rate, count, a, after),
        count > 0,
    ensures
        exists|peak: Single| #[trigger]
            call_ensures(
                M::adapt,
                (level_before(before, count), peak),
                after.adaptive_level,
            ) && (Single { bits: LEVEL_FLOOR }).at_most(peak) && (forall|i: int|
                0 <= i < a.raw.len() && !(#[trigger] a.raw[i]).nan() ==> a.raw[i].at_most(peak)) && (peak.bits
                == LEVEL_FLOOR || a.raw.contains(peak)),
{
    lemma_highest_bounds(a.raw);
    let peak = crate::processor::floored(highest(a.raw));
    assert(call_ensures(M::adapt, (level_before(before, count), peak), after.adaptive_level));
}

/// Whether the bar `current` becomes `next` on its way to the height `mixed` at
/// the level `level`: the height is compared with the level, which counts as at
/// least the smallest one; a bar below the target rises, any other falls.
pub open spec fn moves_on<M: SpectrumMath>(current: Single, mixed: Single, level: Single, next: Single) -> bool {
    exists|base: Single, ratio: Single, clamped: Single, height: Single, target: Single|
        #![trigger call_ensures(M::ratio, (mixed, base), ratio), call_ensures(M::shape, (clamped,), height), limits(
            height,
            Single { bits: ONE },
            target,
        )]
        {
            &&& (Single { bits: LEVEL_FLOOR }).at_most(base)
            &&& (Single { bits: LEVEL_FLOOR }).at_most(level) ==> base.rank() == level.rank()
            &&& !(Single { bits: LEVEL_FLOOR }).at_most(level) ==> base.bits == LEVEL_FLOOR
            &&& call_ensures(M::ratio, (mixed, base), ratio)
            &&& limits(ratio, Single { bits: TWO }, clamped)
            &&& call_ensures(M::shape, (clamped,), height)
            &&& limits(height, Single { bits: ONE }, target)
            &&& current.less(target) ==> call_ensures(M::rise, (current, target), next)
            &&& !current.less(target) ==> call_ensures(M::fall, (current, target), next)
        }
}

/// Whether `r` is `x` cut off at zero and at `high`.
pub open spec fn limits(x: Single, high: Single, r: Single) -> bool {
    &&& !x.nan() ==> silent().at_most(r) && r.at_most(high)
    &&& silent().at_most(x) && x.at_most(high) ==> r == x
    &&& x.nan() ==> r == x
    &&& x.less(silent()) ==> r == silent()
    &&& high.less(x) ==> r == high
}

/// The bar `step` bars beside bar `i` of `count`, or `i` itself where there is
/// none.
pub open spec fn beside(i: int, step: int, count: usize) -> int {
    if 0 <= i + step < count {
        i + step
    } else {
        i
    }
}

/// Every bar settles towards its height mixed with those of the bars on both
/// sides of it; the bar at an edge stands in for the neighbour that it lacks.  A
/// display of another size than the last starts from flat bars.
pub proof fn bars_settle_towards_their_neighbourhood<M: SpectrumMath>(
    before: VisualizerProcessor,
    samples: Seq<Single>,
    channels: usize,
    sample_rate: u32,
    count: usize,
    a: Analysis,
    after: VisualizerProcessor,
    i: int,
)
    requires
        analyses::<M>(before, samples, channels, sample_rate, count, a, after),
        0 <= i < count,
    ensures
        after.smoothed_bars@.len() == count,
        a.raw.len() == count,
        exists|mixed: Single| #[trigger]
            call_ensures(
                M::spread,
                (a.raw[beside(i, -1, count)], a.raw[i], a.raw[beside(i, 1, count)]),
                mixed,
            ) && moves_on::<M>(
                if before.smoothed_bars@.len() == count {
                    before.smoothed_bars@[i]
                } else {
                    silent()
                },
                mixed,
                after.adaptive_level,
                after.smoothed_bars@[i],
            ),
{
    let current = if before.smoothed_bars@.len() == count {
        before.smoothed_bars@[i]
    } else {
        silent()
    };
    let bars = crate::processor::resized(before.smoothed_bars@, count as int);
    assert(bars[i] == current);
    let next = after.smoothed_bars@[i];
    let level = after.adaptive_level;
    assert(settles::<M>(a.raw, level, i, bars[i], next));
    let mixed = choose|s: Single| #[trigger]
        call_ensures(M::spread, (left_of(a.raw, i), a.raw[i], right_of(a.raw, i)), s) && smooths::<M>(
            current,
            s,
            level,
            next,
        );
    assert(left_of(a.raw, i) == a.raw[beside(i, -1, count)]);
    assert(right_of(a.raw, i) == a.raw[beside(i, 1, count)]);
    let target = choose|v: Single| #[trigger]
        is_target::<M>(mixed, level, v) && crate::processor::approaches::<M>(current, v, next);
    let base = crate::processor::floored(level);
    let (ratio, height) = choose|ratio: Single, height: Single|
        #![trigger call_ensures(M::ratio, (mixed, crate::processor::floored(level)), ratio), call_ensures(
            M::shape,
            (ratio.clamped(silent(), Single { bits: TWO }),),
            height,
        )]
        {
            &&& call_ensures(M::ratio, (mixed, crate::processor::floored(level)), ratio)
            &&& call_ensures(M::shape, (ratio.clamped(silent(), Single { bits: TWO }),), height)
            &&& target == crate::processor::to_unit(height)
        };
    let clamped = ratio.clamped(silent(), Single { bits: TWO });
    assert(call_ensures(M::ratio, (mixed, base), ratio));
    assert(call_ensures(M::shape, (clamped,), height));
    assert(limits(height, Single { bits: ONE }, target));
    assert(moves_on::<M>(current, mixed, level, next));
}

// ── Beginning again ───────────────────────────────────────────────────────────

/// Whether a visualizer has heard nothing and shows nothing.
pub open spec fn at_rest(v: VisualizerProcessor) -> bool {
    &&& forall|i: int| 0 <= i < v.smoothed_bars@.len() ==> (#[trigger] v.smoothed_bars@[i]).bits == 0
    &&& v.adaptive_level.bits == INITIAL_LEVEL
    &&& v.fast_energy.bits == 0
    &&& v.slow_energy.bits == 0
}

/// A new visualizer has the bars that it is made with, at least one, and is at
/// rest; a reset brings it to rest again and keeps its bars.
pub proof fn visualizer_begins_at_rest(bar_count: usize, fresh: VisualizerProcessor, v: &mut VisualizerProcessor)
    requires
        call_ensures(VisualizerProcessor::new, (bar_count,), fresh),
        call_ensures(VisualizerProcessor::reset, (v,), ()),
    ensures
        at_rest(fresh),
        bar_count > 0 ==> fresh.smoothed_bars@.len() == bar_count,
        bar_count == 0 ==> fresh.smoothed_bars@.len() == 1,
        at_rest(*final(v)),
        final(v).smoothed_bars@.len() == old(v).smoothed_bars@.len(),
{
}

/// A visualizer keeps its bars where their number stays, and starts with flat bars
/// and the initial level where it changes; there is always a bar, and what was
/// heard stays.
pub proof fn bars_stay_while_their_number_does(v: &mut VisualizerProcessor, count: usize)
    requires
        call_ensures(VisualizerProcessor::ensure_bar_count, (v, count), ()),
    ensures
        count > 0 ==> final(v).smoothed_bars@.len() == count,
        count == 0 ==> final(v).smoothed_bars@.len() == 1,
        final(v).smoothed_bars@.len() == old(v).smoothed_bars@.len() ==> final(v).smoothed_bars@ == old(
            v).smoothed_bars@ && final(v).adaptive_level == old(v).adaptive_level,
        final(v).smoothed_bars@.len() != old(v).smoothed_bars@.len() ==> final(v).adaptive_level.bits == INITIAL_LEVEL
            && forall|i: int|
            0 <= i < final(v).smoothed_bars@.len() ==> (#[trigger] final(v).smoothed_bars@[i]).bits == 0,
        final(v).fast_energy == old(v).fast_energy,
        final(v).slow_energy == old(v).slow_energy,
{
}

/// A step without samples is one of decay, however it is asked for.
pub proof fn decay_is_the_same_step<M: SpectrumMath>(
    v: &mut VisualizerProcessor,
    out: &mut [Single],
    r: i32,
    i: int,
)
    requires
        call_ensures(VisualizerProcessor::decay_only::<M>, (v, out), r),
        0 <= i < old(out)@.len() <= i32::MAX,
    ensures
        r == old(out)@.len(),
        final(out)@.len() == old(out)@.len(),
        final(out)@[i] == final(v).smoothed_bars@[i],
        old(v).smoothed_bars@.len() == old(out)@.len() ==> call_ensures(
            M::decay_bar,
            (old(v).smoothed_bars@[i],),
            final(out)@[i],
        ),
        old(v).smoothed_bars@.len() != old(out)@.len() ==> call_ensures(M::decay_bar, (silent(),), final(out)@[i]),
        call_ensures(M::decay_fast, (old(v).fast_energy,), final(v).fast_energy),
        call_ensures(M::decay_slow, (old(v).slow_energy,), final(v).slow_energy),
{
    assert(call_ensures(
        M::decay_bar,
        (crate::processor::resized(old(v).smoothed_bars@, old(out)@.len() as int)[i],),
        final(v).smoothed_bars@[i],
    ));
}

} // verus!
