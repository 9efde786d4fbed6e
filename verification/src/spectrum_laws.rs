//! What holds of the visualizer over its steps.

use crate::enums::VISUALIZER_FFT_SIZE;
use crate::engine::visualizer_reset;
use crate::ieee::{silent, Single, MINUS_ONE, ONE};
use crate::player_state::newest;
use crate::processor::{
    analyses, approaches, averages, bar_span, bars_kept, computes, decays, flat, floored, hears, highest, is_beat, is_input,
    is_mono, is_quiet, is_target, is_weight, is_windowed, left_of, listens, recounts, resized, right_of, rises, settles,
    smooths, to_unit, transforms, Analysis, SpectrumMath, VisualizerProcessor, INITIAL_LEVEL, LEVEL_FLOOR, TWO,
};
use crate::resample::frame_at;
use vstd::arithmetic::div_mod::{lemma_fundamental_div_mod, lemma_fundamental_div_mod_converse};
use vstd::prelude::*;

verus! {

/// The last `window` of `frames` frames are heard the same without the others.
proof fn lemma_window<M: SpectrumMath>(
    samples: Seq<Single>,
    channels: int,
    frames: int,
    window: int,
    input: Seq<Single>,
    sum: Single,
)
    requires
        channels > 0,
        0 <= window <= frames,
        samples.len() == channels * frames,
    ensures
        hears::<M>(samples, channels, frames - window, window, input, sum) <==> hears::<M>(
            newest(samples, window * channels),
            channels,
            0,
            window,
            input,
            sum,
        ),
{
    let tail = newest(samples, window * channels);
    let start = frames - window;
    assert(window * channels <= samples.len() && samples.len() - window * channels == start * channels) by (
    nonlinear_arith)
        requires
            samples.len() == channels * frames,
            start == frames - window,
            window <= frames,
            channels > 0,
    ;
    assert forall|i: int| 0 <= i < window implies #[trigger] frame_at(samples, channels, start + i) == frame_at(
        tail,
        channels,
        0 + i,
    ) by {
        assert((start + i) * channels == start * channels + i * channels && 0 <= i * channels && i * channels + channels
            <= window * channels && 0 <= start * channels) by (nonlinear_arith)
            requires
                0 <= i < window,
                0 <= start,
                channels > 0,
        ;
        assert(frame_at(samples, channels, start + i) =~= frame_at(tail, channels, 0 + i));
    }
    if hears::<M>(samples, channels, start, window, input, sum) {
        let (mono, sums) = choose|mono: Seq<Single>, sums: Seq<Single>| #[trigger]
            listens::<M>(samples, channels, start, mono, sums) && mono.len() == window && sums.last() == sum
                && is_input::<M>(mono, input);
        assert forall|i: int| 0 <= i < mono.len() implies is_mono::<M>(
            frame_at(tail, channels, 0 + i),
            #[trigger] mono[i],
        ) && call_ensures(M::add_square, (sums[i], mono[i]), sums[i + 1]) by {
            assert(frame_at(samples, channels, start + i) == frame_at(tail, channels, 0 + i));
        }
        assert(listens::<M>(tail, channels, 0, mono, sums));
    }
    if hears::<M>(tail, channels, 0, window, input, sum) {
        let (mono, sums) = choose|mono: Seq<Single>, sums: Seq<Single>| #[trigger]
            listens::<M>(tail, channels, 0, mono, sums) && mono.len() == window && sums.last() == sum
                && is_input::<M>(mono, input);
        assert forall|i: int| 0 <= i < mono.len() implies is_mono::<M>(
            frame_at(samples, channels, start + i),
            #[trigger] mono[i],
        ) && call_ensures(M::add_square, (sums[i], mono[i]), sums[i + 1]) by {
            assert(frame_at(samples, channels, start + i) == frame_at(tail, channels, 0 + i));
        }
        assert(listens::<M>(samples, channels, start, mono, sums));
    }
}

/// Only the newest frames matter to the visualizer, as many as its transform
/// takes: without the older ones a step may do exactly the same.
pub proof fn only_the_newest_frames_matter<M: SpectrumMath>(
    before: VisualizerProcessor,
    samples: Seq<Single>,
    channels: usize,
    sample_rate: u32,
    playing: bool,
    shown: Seq<Single>,
    after: VisualizerProcessor,
    shows: Seq<Single>,
)
    requires
        channels > 0,
        samples.len() % channels as nat == 0,
    ensures
        computes::<M>(before, samples, channels, sample_rate, playing, shown, after, shows) <==> computes::<M>(
            before,
            newest(samples, VISUALIZER_FFT_SIZE * channels),
            channels,
            sample_rate,
            playing,
            shown,
            after,
            shows,
        ),
{
    let limit = VISUALIZER_FFT_SIZE * channels;
    let frames = samples.len() as int / channels as int;
    let tail = newest(samples, limit);
    lemma_fundamental_div_mod(samples.len() as int, channels as int);
    assert(samples.len() == channels * frames);
    if samples.len() > limit {
        assert(frames > VISUALIZER_FFT_SIZE) by (nonlinear_arith)
            requires
                channels * frames > VISUALIZER_FFT_SIZE * channels,
                channels > 0,
        ;
        assert(limit >= channels) by (nonlinear_arith)
            requires
                limit == VISUALIZER_FFT_SIZE * channels,
                VISUALIZER_FFT_SIZE >= 1,
                channels > 0,
        ;
        assert(tail.len() == limit);
        lemma_fundamental_div_mod_converse(limit, channels as int, VISUALIZER_FFT_SIZE as int, 0);
        let count = shown.len() as usize;
        assert forall|a: Analysis|
            #![auto]
            analyses::<M>(before, samples, channels, sample_rate, count, a, after) <==> analyses::<M>(
                before,
                tail,
                channels,
                sample_rate,
                count,
                a,
                after,
            ) by {
            lemma_window::<M>(samples, channels as int, frames, VISUALIZER_FFT_SIZE as int, a.input, a.sum);
        }
        if computes::<M>(before, samples, channels, sample_rate, playing, shown, after, shows) && shown.len() > 0
            && !is_quiet(samples, channels, sample_rate, playing) {
            let a = choose|a: Analysis| #[trigger]
                analyses::<M>(before, samples, channels, sample_rate, count, a, after);
            assert(analyses::<M>(before, tail, channels, sample_rate, count, a, after));
        }
        if computes::<M>(before, tail, channels, sample_rate, playing, shown, after, shows) && shown.len() > 0
            && !is_quiet(tail, channels, sample_rate, playing) {
            let a = choose|a: Analysis| #[trigger]
                analyses::<M>(before, tail, channels, sample_rate, count, a, after);
            assert(analyses::<M>(before, samples, channels, sample_rate, count, a, after));
        }
    }
}

/// Whether the arithmetic gives the same for the same numbers.
pub open spec fn repeatable<M: SpectrumMath>() -> bool {
    &&& forall|a: Single, x: Single, y: Single| #[trigger]
        call_ensures(M::decay_bar, (a,), x) && #[trigger] call_ensures(M::decay_bar, (a,), y) ==> x == y
    &&& forall|a: Single, x: Single, y: Single| #[trigger]
        call_ensures(M::decay_fast, (a,), x) && #[trigger] call_ensures(M::decay_fast, (a,), y) ==> x == y
    &&& forall|a: Single, x: Single, y: Single| #[trigger]
        call_ensures(M::decay_slow, (a,), x) && #[trigger] call_ensures(M::decay_slow, (a,), y) ==> x == y
    &&& forall|a: &[Single], b: &[Single], x: Single, y: Single| #[trigger]
        call_ensures(M::mono, (a,), x) && #[trigger] call_ensures(M::mono, (b,), y) && a@ == b@ ==> x == y
    &&& forall|a: Single, b: Single, x: Single, y: Single| #[trigger]
        call_ensures(M::add_square, (a, b), x) && #[trigger] call_ensures(M::add_square, (a, b), y) ==> x == y
    &&& forall|i: usize, n: usize, x: Single, y: Single| #[trigger]
        call_ensures(M::hann, (i, n), x) && #[trigger] call_ensures(M::hann, (i, n), y) ==> x == y
    &&& forall|a: Single, b: Single, x: Single, y: Single| #[trigger]
        call_ensures(M::weigh, (a, b), x) && #[trigger] call_ensures(M::weigh, (a, b), y) ==> x == y
    &&& forall|a: &[Single], b: &[Single], n: usize, x: Vec<Single>, y: Vec<Single>| #[trigger]
        call_ensures(M::magnitudes, (a, n), x) && #[trigger] call_ensures(M::magnitudes, (b, n), y) && a@ == b@
            ==> x@ == y@
    &&& forall|a: Single, n: usize, x: Single, y: Single| #[trigger]
        call_ensures(M::rms, (a, n), x) && #[trigger] call_ensures(M::rms, (a, n), y) ==> x == y
    &&& forall|a: Single, b: Single, x: Single, y: Single| #[trigger]
        call_ensures(M::follow_fast, (a, b), x) && #[trigger] call_ensures(M::follow_fast, (a, b), y) ==> x == y
    &&& forall|a: Single, b: Single, x: Single, y: Single| #[trigger]
        call_ensures(M::follow_slow, (a, b), x) && #[trigger] call_ensures(M::follow_slow, (a, b), y) ==> x == y
    &&& forall|a: Single, b: Single, x: Single, y: Single| #[trigger]
        call_ensures(M::lead, (a, b), x) && #[trigger] call_ensures(M::lead, (a, b), y) ==> x == y
    &&& forall|i: usize, n: usize, rate: u32, x: usize, y: usize| #[trigger]
        call_ensures(M::bin, (i, n, rate), x) && #[trigger] call_ensures(M::bin, (i, n, rate), y) ==> x == y
    &&& forall|a: &[Single], b: &[Single], x: Single, y: Single| #[trigger]
        call_ensures(M::mean, (a,), x) && #[trigger] call_ensures(M::mean, (b,), y) && a@ == b@ ==> x == y
    &&& forall|a: Single, b: Single, i: usize, n: usize, x: Single, y: Single| #[trigger]
        call_ensures(M::boost, (a, b, i, n), x) && #[trigger] call_ensures(M::boost, (a, b, i, n), y) ==> x == y
    &&& forall|a: Single, b: Single, x: Single, y: Single| #[trigger]
        call_ensures(M::adapt, (a, b), x) && #[trigger] call_ensures(M::adapt, (a, b), y) ==> x == y
    &&& forall|a: Single, b: Single, c: Single, x: Single, y: Single| #[trigger]
        call_ensures(M::spread, (a, b, c), x) && #[trigger] call_ensures(M::spread, (a, b, c), y) ==> x == y
    &&& forall|a: Single, b: Single, x: Single, y: Single| #[trigger]
        call_ensures(M::ratio, (a, b), x) && #[trigger] call_ensures(M::ratio, (a, b), y) ==> x == y
    &&& forall|a: Single, x: Single, y: Single| #[trigger]
        call_ensures(M::shape, (a,), x) && #[trigger] call_ensures(M::shape, (a,), y) ==> x == y
    &&& forall|a: Single, b: Single, x: Single, y: Single| #[trigger]
        call_ensures(M::rise, (a, b), x) && #[trigger] call_ensures(M::rise, (a, b), y) ==> x == y
    &&& forall|a: Single, b: Single, x: Single, y: Single| #[trigger]
        call_ensures(M::fall, (a, b), x) && #[trigger] call_ensures(M::fall, (a, b), y) ==> x == y
}

/// Whether two visualizers are in the same state.
pub open spec fn same_state(a: VisualizerProcessor, b: VisualizerProcessor) -> bool {
    &&& a.smoothed_bars@ == b.smoothed_bars@
    &&& a.adaptive_level == b.adaptive_level
    &&& a.fast_energy == b.fast_energy
    &&& a.slow_energy == b.slow_energy
}

proof fn lemma_same_sums<M: SpectrumMath>(
    samples: Seq<Single>,
    channels: int,
    start: int,
    mono: Seq<Single>,
    sums: Seq<Single>,
    other_mono: Seq<Single>,
    other_sums: Seq<Single>,
    i: int,
)
    requires
        repeatable::<M>(),
        listens::<M>(samples, channels, start, mono, sums),
        listens::<M>(samples, channels, start, other_mono, other_sums),
        mono.len() == other_mono.len(),
        0 <= i <= mono.len(),
    ensures
        sums[i] == other_sums[i],
        i < mono.len() ==> mono[i] == other_mono[i],
    decreases i,
{
    if i > 0 {
        lemma_same_sums::<M>(samples, channels, start, mono, sums, other_mono, other_sums, i - 1);
        assert(call_ensures(M::add_square, (sums[i - 1], mono[i - 1]), sums[i - 1 + 1]));
        assert(call_ensures(M::add_square, (other_sums[i - 1], other_mono[i - 1]), other_sums[i - 1 + 1]));
    }
    if i < mono.len() {
        assert(is_mono::<M>(frame_at(samples, channels, start + i), mono[i]));
        assert(is_mono::<M>(frame_at(samples, channels, start + i), other_mono[i]));
    }
}

proof fn lemma_windowed_same<M: SpectrumMath>(mono: Single, index: usize, len: usize, x: Single, y: Single)
    requires
        repeatable::<M>(),
        is_windowed::<M>(mono, index, len, x),
        is_windowed::<M>(mono, index, len, y),
    ensures
        x == y,
{
    let v = choose|w: Single| is_weight::<M>(index, len, w) && #[trigger] call_ensures(M::weigh, (mono, w), x);
    let w = choose|w: Single| is_weight::<M>(index, len, w) && #[trigger] call_ensures(M::weigh, (mono, w), y);
    assert(v == w);
}

proof fn lemma_heard_same<M: SpectrumMath>(
    samples: Seq<Single>,
    channels: int,
    start: int,
    window: int,
    input: Seq<Single>,
    sum: Single,
    other_input: Seq<Single>,
    other_sum: Single,
)
    requires
        repeatable::<M>(),
        0 <= window <= VISUALIZER_FFT_SIZE,
        hears::<M>(samples, channels, start, window, input, sum),
        hears::<M>(samples, channels, start, window, other_input, other_sum),
    ensures
        input == other_input,
        sum == other_sum,
{
    let (mono, sums) = choose|mono: Seq<Single>, sums: Seq<Single>| #[trigger]
        listens::<M>(samples, channels, start, mono, sums) && mono.len() == window && sums.last() == sum
            && is_input::<M>(mono, input);
    let (other_mono, other_sums) = choose|mono: Seq<Single>, sums: Seq<Single>| #[trigger]
        listens::<M>(samples, channels, start, mono, sums) && mono.len() == window && sums.last() == other_sum
            && is_input::<M>(mono, other_input);
    assert forall|i: int| 0 <= i < mono.len() implies mono[i] == other_mono[i] by {
        lemma_same_sums::<M>(samples, channels, start, mono, sums, other_mono, other_sums, i);
    }
    lemma_same_sums::<M>(samples, channels, start, mono, sums, other_mono, other_sums, window);
    assert(mono =~= other_mono);
    assert forall|i: int| 0 <= i < input.len() implies input[i] == other_input[i] by {
        let lead = VISUALIZER_FFT_SIZE - mono.len();
        if i >= lead {
            lemma_windowed_same::<M>(
                mono[i - lead],
                (i - lead) as usize,
                mono.len() as usize,
                input[i],
                other_input[i],
            );
        }
    }
    assert(input =~= other_input);
}

proof fn lemma_rises_same<M: SpectrumMath>(
    magnitudes: Seq<Single>,
    beat: Single,
    sample_rate: u32,
    bars: usize,
    bar: int,
    x: Single,
    y: Single,
)
    requires
        repeatable::<M>(),
        rises::<M>(magnitudes, beat, sample_rate, bars, bar, x),
        rises::<M>(magnitudes, beat, sample_rate, bars, bar, y),
    ensures
        x == y,
{
    let (low, high, mean) = choose|low: usize, high: usize, mean: Single|
        #![trigger call_ensures(M::bin, (bar as usize, bars, sample_rate), low), call_ensures(
            M::bin,
            ((bar + 1) as usize, bars, sample_rate),
            high,
        ), call_ensures(M::boost, (mean, beat, bar as usize, bars), x)]
        {
            let span = bar_span(low as int, high as int, magnitudes.len() as int);
            &&& call_ensures(M::bin, (bar as usize, bars, sample_rate), low)
            &&& call_ensures(M::bin, ((bar + 1) as usize, bars, sample_rate), high)
            &&& averages::<M>(magnitudes.subrange(span.0, span.1), mean)
            &&& call_ensures(M::boost, (mean, beat, bar as usize, bars), x)
        };
    let (other_low, other_high, other_mean) = choose|low: usize, high: usize, mean: Single|
        #![trigger call_ensures(M::bin, (bar as usize, bars, sample_rate), low), call_ensures(
            M::bin,
            ((bar + 1) as usize, bars, sample_rate),
            high,
        ), call_ensures(M::boost, (mean, beat, bar as usize, bars), y)]
        {
            let span = bar_span(low as int, high as int, magnitudes.len() as int);
            &&& call_ensures(M::bin, (bar as usize, bars, sample_rate), low)
            &&& call_ensures(M::bin, ((bar + 1) as usize, bars, sample_rate), high)
            &&& averages::<M>(magnitudes.subrange(span.0, span.1), mean)
            &&& call_ensures(M::boost, (mean, beat, bar as usize, bars), y)
        };
    assert(low == other_low);
    assert(high == other_high);
    assert(mean == other_mean);
}

proof fn lemma_settles_same<M: SpectrumMath>(
    raw: Seq<Single>,
    level: Single,
    i: int,
    current: Single,
    x: Single,
    y: Single,
)
    requires
        repeatable::<M>(),
        settles::<M>(raw, level, i, current, x),
        settles::<M>(raw, level, i, current, y),
    ensures
        x == y,
{
    let s = choose|s: Single| #[trigger]
        call_ensures(M::spread, (left_of(raw, i), raw[i], right_of(raw, i)), s) && smooths::<M>(current, s, level, x);
    let t = choose|s: Single| #[trigger]
        call_ensures(M::spread, (left_of(raw, i), raw[i], right_of(raw, i)), s) && smooths::<M>(current, s, level, y);
    assert(s == t);
    let v = choose|v: Single| #[trigger] is_target::<M>(s, level, v) && approaches::<M>(current, v, x);
    let w = choose|v: Single| #[trigger] is_target::<M>(s, level, v) && approaches::<M>(current, v, y);
    lemma_target_same::<M>(s, level, v, w);
}

proof fn lemma_target_same<M: SpectrumMath>(raw: Single, level: Single, x: Single, y: Single)
    requires
        repeatable::<M>(),
        is_target::<M>(raw, level, x),
        is_target::<M>(raw, level, y),
    ensures
        x == y,
{
    let (p, g) = choose|ratio: Single, height: Single|
        #![trigger call_ensures(M::ratio, (raw, floored(level)), ratio), call_ensures(
            M::shape,
            (ratio.clamped(silent(), Single { bits: TWO }),),
            height,
        )]
        {
            &&& call_ensures(M::ratio, (raw, floored(level)), ratio)
            &&& call_ensures(M::shape, (ratio.clamped(silent(), Single { bits: TWO }),), height)
            &&& x == to_unit(height)
        };
    let (q, h) = choose|ratio: Single, height: Single|
        #![trigger call_ensures(M::ratio, (raw, floored(level)), ratio), call_ensures(
            M::shape,
            (ratio.clamped(silent(), Single { bits: TWO }),),
            height,
        )]
        {
            &&& call_ensures(M::ratio, (raw, floored(level)), ratio)
            &&& call_ensures(M::shape, (ratio.clamped(silent(), Single { bits: TWO }),), height)
            &&& y == to_unit(height)
        };
    assert(p == q);
    assert(g == h);
}

proof fn lemma_analysed_same<M: SpectrumMath>(
    before: VisualizerProcessor,
    other_before: VisualizerProcessor,
    samples: Seq<Single>,
    channels: usize,
    sample_rate: u32,
    count: usize,
    a: Analysis,
    b: Analysis,
    after: VisualizerProcessor,
    other_after: VisualizerProcessor,
)
    requires
        repeatable::<M>(),
        channels > 0,
        same_state(before, other_before),
        analyses::<M>(before, samples, channels, sample_rate, count, a, after),
        analyses::<M>(other_before, samples, channels, sample_rate, count, b, other_after),
    ensures
        same_state(after, other_after),
{
    let frames = samples.len() as int / channels as int;
    let window = if frames < VISUALIZER_FFT_SIZE {
        frames
    } else {
        VISUALIZER_FFT_SIZE as int
    };
    lemma_fundamental_div_mod(samples.len() as int, channels as int);
    assert(0 <= frames) by (nonlinear_arith)
        requires
            samples.len() == channels * frames + samples.len() as int % channels as int,
            samples.len() as int % channels as int <= channels - 1,
            samples.len() >= 0,
            channels > 0,
    ;
    lemma_heard_same::<M>(samples, channels as int, frames - window, window, a.input, a.sum, b.input, b.sum);
    assert(transforms::<M>(a.input, window as usize, a.magnitudes));
    assert(transforms::<M>(a.input, window as usize, b.magnitudes));
    assert(a.magnitudes@ == b.magnitudes@);
    assert(a.rms == b.rms);
    assert(after.fast_energy == other_after.fast_energy);
    assert(after.slow_energy == other_after.slow_energy);
    assert(a.beat == b.beat);
    assert forall|i: int| 0 <= i < count implies a.raw[i] == b.raw[i] by {
        lemma_rises_same::<M>(a.magnitudes@, a.beat, sample_rate, count, i, a.raw[i], b.raw[i]);
    }
    assert(a.raw =~= b.raw);
    assert(after.adaptive_level == other_after.adaptive_level);
    let bars = crate::processor::resized(before.smoothed_bars@, count as int);
    assert forall|i: int| 0 <= i < count implies after.smoothed_bars@[i] == other_after.smoothed_bars@[i] by {
        lemma_settles_same::<M>(
            a.raw,
            after.adaptive_level,
            i,
            bars[i],
            after.smoothed_bars@[i],
            other_after.smoothed_bars@[i],
        );
    }
    assert(after.smoothed_bars@ =~= other_after.smoothed_bars@);
}

/// The newest frames, as many as the transform takes, decide the bars: where the
/// arithmetic is repeatable, two visualizers in the same state, one on all
/// samples and one on the newest, show the same on displays of the same size and
/// are again in the same state.
pub proof fn newest_frames_decide<M: SpectrumMath>(
    before: VisualizerProcessor,
    other_before: VisualizerProcessor,
    samples: Seq<Single>,
    channels: usize,
    sample_rate: u32,
    playing: bool,
    shown: Seq<Single>,
    other_shown: Seq<Single>,
    after: VisualizerProcessor,
    other_after: VisualizerProcessor,
    shows: Seq<Single>,
    other_shows: Seq<Single>,
)
    requires
        repeatable::<M>(),
        channels > 0,
        samples.len() % channels as nat == 0,
        same_state(before, other_before),
        shown.len() == other_shown.len(),
        shown.len() <= usize::MAX,
        computes::<M>(before, samples, channels, sample_rate, playing, shown, after, shows),
        computes::<M>(
            other_before,
            newest(samples, VISUALIZER_FFT_SIZE * channels),
            channels,
            sample_rate,
            playing,
            other_shown,
            other_after,
            other_shows,
        ),
    ensures
        same_state(after, other_after),
        shown.len() > 0 ==> shows == other_shows,
{
    only_the_newest_frames_matter::<M>(
        other_before,
        samples,
        channels,
        sample_rate,
        playing,
        other_shown,
        other_after,
        other_shows,
    );
    if shown.len() > 0 {
        let count = shown.len() as usize;
        if is_quiet(samples, channels, sample_rate, playing) {
            assert forall|i: int| 0 <= i < after.smoothed_bars@.len() implies after.smoothed_bars@[i]
                == other_after.smoothed_bars@[i] by {
                let bars = crate::processor::resized(before.smoothed_bars@, count as int);
                assert(call_ensures(M::decay_bar, (bars[i],), after.smoothed_bars@[i]));
                assert(call_ensures(M::decay_bar, (bars[i],), other_after.smoothed_bars@[i]));
            }
            assert(after.smoothed_bars@ =~= other_after.smoothed_bars@);
        } else {
            let a = choose|a: Analysis| #[trigger]
                analyses::<M>(before, samples, channels, sample_rate, count, a, after);
            let b = choose|a: Analysis| #[trigger]
                analyses::<M>(other_before, samples, channels, sample_rate, count, a, other_after);
            lemma_analysed_same::<M>(
                before,
                other_before,
                samples,
                channels,
                sample_rate,
                count,
                a,
                b,
                after,
                other_after,
            );
        }
    }
}

// ── Ranges ────────────────────────────────────────────────────────────────────

/// Whether `x` is a number from zero to one.
pub open spec fn in_unit(x: Single) -> bool {
    silent().at_most(x) && x.at_most(Single { bits: ONE })
}

/// Whether `x` is a number within full scale.
pub open spec fn in_full_scale(x: Single) -> bool {
    (Single { bits: MINUS_ONE }).at_most(x) && x.at_most(Single { bits: ONE })
}

pub open spec fn all_in_unit(s: Seq<Single>) -> bool {
    forall|i: int| 0 <= i < s.len() ==> in_unit(#[trigger] s[i])
}

pub open spec fn all_in_full_scale(s: Seq<Single>) -> bool {
    forall|i: int| 0 <= i < s.len() ==> in_full_scale(#[trigger] s[i])
}

/// Ranges of the visualizer's intermediate results.
pub struct Ranges {
    /// Of sums of squares.
    pub sum: spec_fn(Single) -> bool,
    /// Of the loudness of a window.
    pub rms: spec_fn(Single) -> bool,
    /// Of the two energies.
    pub energy: spec_fn(Single) -> bool,
    /// Of the transform's magnitudes and their means.
    pub bin: spec_fn(Single) -> bool,
    /// Of raw heights.
    pub height: spec_fn(Single) -> bool,
    /// Of heights mixed with their neighbours.
    pub mixed: spec_fn(Single) -> bool,
    /// Of the adaptive level.
    pub level: spec_fn(Single) -> bool,
}

pub open spec fn all_within(range: spec_fn(Single) -> bool, s: Seq<Single>) -> bool {
    forall|i: int| 0 <= i < s.len() ==> range(#[trigger] s[i])
}

/// Whether the arithmetic stays within `r`, and gives numbers, for samples within
/// full scale; of one bar's steps it is asked only that they lead from the unit
/// range into the unit range.
pub open spec fn keeps_within<M: SpectrumMath>(r: Ranges) -> bool {
    &&& (r.sum)(silent())
    &&& (r.energy)(silent())
    &&& (r.bin)(silent())
    &&& (r.height)(silent())
    &&& (r.height)(Single { bits: LEVEL_FLOOR })
    &&& (r.level)(Single { bits: INITIAL_LEVEL })
    &&& forall|a: Single, x: Single| #[trigger] call_ensures(M::decay_bar, (a,), x) && in_unit(a) ==> in_unit(x)
    &&& forall|a: Single, x: Single| #[trigger]
        call_ensures(M::decay_fast, (a,), x) && (r.energy)(a) ==> (r.energy)(x)
    &&& forall|a: Single, x: Single| #[trigger]
        call_ensures(M::decay_slow, (a,), x) && (r.energy)(a) ==> (r.energy)(x)
    &&& forall|a: &[Single], x: Single| #[trigger]
        call_ensures(M::mono, (a,), x) && a@.len() > 0 && all_in_full_scale(a@) ==> in_full_scale(x)
    &&& forall|a: Single, b: Single, x: Single| #[trigger]
        call_ensures(M::add_square, (a, b), x) && (r.sum)(a) && in_full_scale(b) ==> (r.sum)(x)
    &&& forall|i: usize, n: usize, x: Single| #[trigger] call_ensures(M::hann, (i, n), x) && i < n ==> !x.nan()
    &&& forall|a: Single, b: Single, x: Single| #[trigger]
        call_ensures(M::weigh, (a, b), x) && in_full_scale(a) && in_unit(b) ==> in_full_scale(x)
    &&& forall|a: &[Single], n: usize, x: Vec<Single>| #[trigger]
        call_ensures(M::magnitudes, (a, n), x) && n > 0 && a@.len() == VISUALIZER_FFT_SIZE && all_in_full_scale(a@)
            ==> all_within(r.bin, x@)
    &&& forall|a: Single, n: usize, x: Single| #[trigger]
        call_ensures(M::rms, (a, n), x) && (r.sum)(a) && n > 0 ==> (r.rms)(x)
    &&& forall|a: Single, b: Single, x: Single| #[trigger]
        call_ensures(M::follow_fast, (a, b), x) && (r.energy)(a) && (r.rms)(b) ==> (r.energy)(x)
    &&& forall|a: Single, b: Single, x: Single| #[trigger]
        call_ensures(M::follow_slow, (a, b), x) && (r.energy)(a) && (r.rms)(b) ==> (r.energy)(x)
    &&& forall|a: Single, b: Single, x: Single| #[trigger]
        call_ensures(M::lead, (a, b), x) && (r.energy)(a) && (r.energy)(b) ==> !x.nan()
    &&& forall|a: &[Single], x: Single| #[trigger]
        call_ensures(M::mean, (a,), x) && a@.len() > 0 && all_within(r.bin, a@) ==> (r.bin)(x)
    &&& forall|a: Single, b: Single, i: usize, n: usize, x: Single| #[trigger]
        call_ensures(M::boost, (a, b, i, n), x) && (r.bin)(a) && in_unit(b) && i < n ==> (r.height)(x)
    &&& forall|a: Single, b: Single, x: Single| #[trigger]
        call_ensures(M::adapt, (a, b), x) && (r.level)(a) && (r.height)(b) ==> (r.level)(x)
    &&& forall|a: Single, b: Single, c: Single, x: Single| #[trigger]
        call_ensures(M::spread, (a, b, c), x) && (r.height)(a) && (r.height)(b) && (r.height)(c) ==> (r.mixed)(x)
    &&& forall|a: Single, b: Single, x: Single| #[trigger]
        call_ensures(M::ratio, (a, floored(b)), x) && (r.mixed)(a) && (r.level)(b) ==> !x.nan()
    &&& forall|a: Single, x: Single| #[trigger]
        call_ensures(M::shape, (a,), x) && silent().at_most(a) && a.at_most(Single { bits: TWO }) ==> !x.nan()
    &&& forall|a: Single, b: Single, x: Single| #[trigger]
        call_ensures(M::rise, (a, b), x) && in_unit(a) && in_unit(b) ==> in_unit(x)
    &&& forall|a: Single, b: Single, x: Single| #[trigger]
        call_ensures(M::fall, (a, b), x) && in_unit(a) && in_unit(b) ==> in_unit(x)
}

/// Whether the state of a visualizer is within `r`, its bars from zero to one.
pub open spec fn state_within(r: Ranges, v: VisualizerProcessor) -> bool {
    &&& all_in_unit(v.smoothed_bars@)
    &&& (r.level)(v.adaptive_level)
    &&& (r.energy)(v.fast_energy)
    &&& (r.energy)(v.slow_energy)
}

proof fn lemma_highest(bars: Seq<Single>)
    ensures
        highest(bars) == silent() || bars.contains(highest(bars)),
    decreases bars.len(),
{
    if bars.len() > 0 {
        let front = bars.drop_last();
        lemma_highest(front);
        assert(bars[bars.len() - 1] == bars.last());
        if front.contains(highest(front)) {
            let i = front.index_of(highest(front));
            assert(bars[i] == highest(front));
        }
    }
}

/// Windows of samples within full scale are transformed within full scale.
proof fn lemma_heard_within<M: SpectrumMath>(
    r: Ranges,
    samples: Seq<Single>,
    channels: int,
    start: int,
    window: int,
    input: Seq<Single>,
    sum: Single,
)
    requires
        keeps_within::<M>(r),
        all_in_full_scale(samples),
        channels > 0,
        0 <= start,
        0 < window <= VISUALIZER_FFT_SIZE,
        (start + window) * channels <= samples.len(),
        hears::<M>(samples, channels, start, window, input, sum),
    ensures
        all_in_full_scale(input),
        (r.sum)(sum),
{
    let (mono, sums) = choose|mono: Seq<Single>, sums: Seq<Single>| #[trigger]
        listens::<M>(samples, channels, start, mono, sums) && mono.len() == window && sums.last() == sum
            && is_input::<M>(mono, input);
    assert forall|i: int| 0 <= i < window implies in_full_scale(#[trigger] mono[i]) by {
        let frame = frame_at(samples, channels, start + i);
        assert(is_mono::<M>(frame, mono[i]));
        assert(0 <= (start + i) * channels && (start + i) * channels + channels <= samples.len()) by (nonlinear_arith)
            requires
                0 <= start,
                0 <= i < window,
                channels > 0,
                (start + window) * channels <= samples.len(),
        ;
        assert forall|j: int| 0 <= j < frame.len() implies in_full_scale(#[trigger] frame[j]) by {
            assert(frame[j] == samples[(start + i) * channels + j]);
        }
        let f = choose|f: &[Single]| f@ == frame && #[trigger] call_ensures(M::mono, (f,), mono[i]);
        assert(all_in_full_scale(f@));
    }
    lemma_sums_within::<M>(r, samples, channels, start, mono, sums, window);
    assert forall|i: int| 0 <= i < input.len() implies in_full_scale(#[trigger] input[i]) by {
        let lead = VISUALIZER_FFT_SIZE - mono.len();
        if i >= lead {
            let index = (i - lead) as usize;
            let len = mono.len() as usize;
            assert(is_windowed::<M>(mono[i - lead], index, len, input[i]));
            let w = choose|w: Single|
                is_weight::<M>(index, len, w) && #[trigger] call_ensures(M::weigh, (mono[i - lead], w), input[i]);
            assert(in_full_scale(mono[i - lead]));
            assert(in_unit(w));
        } else {
            assert(input[i] == silent());
        }
    }
}

proof fn lemma_sums_within<M: SpectrumMath>(
    r: Ranges,
    samples: Seq<Single>,
    channels: int,
    start: int,
    mono: Seq<Single>,
    sums: Seq<Single>,
    i: int,
)
    requires
        keeps_within::<M>(r),
        listens::<M>(samples, channels, start, mono, sums),
        forall|k: int| 0 <= k < mono.len() ==> in_full_scale(#[trigger] mono[k]),
        0 <= i <= mono.len(),
    ensures
        (r.sum)(sums[i]),
    decreases i,
{
    if i > 0 {
        lemma_sums_within::<M>(r, samples, channels, start, mono, sums, i - 1);
        assert(in_full_scale(mono[i - 1]));
        assert(call_ensures(M::add_square, (sums[i - 1], mono[i - 1]), sums[i - 1 + 1]));
    }
}

proof fn lemma_rises_within<M: SpectrumMath>(
    r: Ranges,
    magnitudes: Seq<Single>,
    beat: Single,
    sample_rate: u32,
    bars: usize,
    bar: int,
    level: Single,
)
    requires
        keeps_within::<M>(r),
        all_within(r.bin, magnitudes),
        in_unit(beat),
        0 <= bar < bars,
        rises::<M>(magnitudes, beat, sample_rate, bars, bar, level),
    ensures
        (r.height)(level),
{
    let (low, high, mean) = choose|low: usize, high: usize, mean: Single|
        #![trigger call_ensures(M::bin, (bar as usize, bars, sample_rate), low), call_ensures(
            M::bin,
            ((bar + 1) as usize, bars, sample_rate),
            high,
        ), call_ensures(M::boost, (mean, beat, bar as usize, bars), level)]
        {
            let span = bar_span(low as int, high as int, magnitudes.len() as int);
            &&& call_ensures(M::bin, (bar as usize, bars, sample_rate), low)
            &&& call_ensures(M::bin, ((bar + 1) as usize, bars, sample_rate), high)
            &&& averages::<M>(magnitudes.subrange(span.0, span.1), mean)
            &&& call_ensures(M::boost, (mean, beat, bar as usize, bars), level)
        };
    let span = bar_span(low as int, high as int, magnitudes.len() as int);
    let bins = magnitudes.subrange(span.0, span.1);
    if bins.len() > 0 {
        let b = choose|b: &[Single]| b@ == bins && #[trigger] call_ensures(M::mean, (b,), mean);
        assert forall|j: int| 0 <= j < b@.len() implies (r.bin)(#[trigger] b@[j]) by {
            assert(b@[j] == magnitudes[span.0 + j]);
        }
        assert(all_within(r.bin, b@));
    }
    assert((r.bin)(mean));
}

proof fn lemma_settles_within<M: SpectrumMath>(
    r: Ranges,
    raw: Seq<Single>,
    level: Single,
    i: int,
    current: Single,
    next: Single,
)
    requires
        keeps_within::<M>(r),
        all_within(r.height, raw),
        (r.level)(level),
        0 <= i < raw.len(),
        in_unit(current),
        settles::<M>(raw, level, i, current, next),
    ensures
        in_unit(next),
{
    let mixed = choose|s: Single| #[trigger]
        call_ensures(M::spread, (left_of(raw, i), raw[i], right_of(raw, i)), s) && smooths::<M>(
            current,
            s,
            level,
            next,
        );
    assert((r.mixed)(mixed));
    let target = choose|v: Single| #[trigger] is_target::<M>(mixed, level, v) && approaches::<M>(current, v, next);
    let (ratio, height) = choose|ratio: Single, height: Single|
        #![trigger call_ensures(M::ratio, (mixed, floored(level)), ratio), call_ensures(
            M::shape,
            (ratio.clamped(silent(), Single { bits: TWO }),),
            height,
        )]
        {
            &&& call_ensures(M::ratio, (mixed, floored(level)), ratio)
            &&& call_ensures(M::shape, (ratio.clamped(silent(), Single { bits: TWO }),), height)
            &&& target == to_unit(height)
        };
    assert(!ratio.nan());
    assert(!height.nan());
    assert(in_unit(target));
}

proof fn lemma_analysed_within<M: SpectrumMath>(
    r: Ranges,
    before: VisualizerProcessor,
    samples: Seq<Single>,
    channels: usize,
    sample_rate: u32,
    count: usize,
    a: Analysis,
    after: VisualizerProcessor,
)
    requires
        keeps_within::<M>(r),
        state_within(r, before),
        all_in_full_scale(samples),
        channels > 0,
        samples.len() >= channels,
        count > 0,
        analyses::<M>(before, samples, channels, sample_rate, count, a, after),
    ensures
        state_within(r, after),
{
    let frames = samples.len() as int / channels as int;
    let window = if frames < VISUALIZER_FFT_SIZE {
        frames
    } else {
        VISUALIZER_FFT_SIZE as int
    };
    lemma_fundamental_div_mod(samples.len() as int, channels as int);
    assert(0 < frames && frames * channels <= samples.len()) by (nonlinear_arith)
        requires
            samples.len() == channels * frames + samples.len() as int % channels as int,
            0 <= samples.len() as int % channels as int <= channels - 1,
            samples.len() >= channels,
            channels > 0,
    ;
    assert((frames - window + window) * channels == frames * channels);
    lemma_heard_within::<M>(r, samples, channels as int, frames - window, window, a.input, a.sum);
    let buffer = choose|buffer: &[Single]|
        buffer@ == a.input && #[trigger] call_ensures(M::magnitudes, (buffer, window as usize), a.magnitudes);
    assert(all_in_full_scale(buffer@));
    assert(a.input.len() == VISUALIZER_FFT_SIZE) by {
        let (mono, sums) = choose|mono: Seq<Single>, sums: Seq<Single>| #[trigger]
            listens::<M>(samples, channels as int, frames - window, mono, sums) && mono.len() == window && sums.last()
                == a.sum && is_input::<M>(mono, a.input);
        assert(is_input::<M>(mono, a.input));
    }
    assert(all_within(r.bin, a.magnitudes@));
    assert((r.rms)(a.rms));
    assert((r.energy)(after.fast_energy));
    assert((r.energy)(after.slow_energy));
    assert(is_beat::<M>(after.fast_energy, after.slow_energy, a.beat));
    assert(in_unit(a.beat));
    assert forall|i: int| 0 <= i < a.raw.len() implies (r.height)(#[trigger] a.raw[i]) by {
        lemma_rises_within::<M>(r, a.magnitudes@, a.beat, sample_rate, count, i, a.raw[i]);
    }
    assert(all_within(r.height, a.raw));
    lemma_highest(a.raw);
    if a.raw.contains(highest(a.raw)) {
        assert((r.height)(a.raw[a.raw.index_of(highest(a.raw))]));
    }
    assert((r.height)(floored(highest(a.raw))));
    assert((r.level)(after.adaptive_level));
    let bars = resized(before.smoothed_bars@, count as int);
    assert forall|i: int| 0 <= i < after.smoothed_bars@.len() implies in_unit(#[trigger] after.smoothed_bars@[i]) by {
        assert(in_unit(bars[i]));
        lemma_settles_within::<M>(r, a.raw, after.adaptive_level, i, bars[i], after.smoothed_bars@[i]);
    }
}

/// A step of a visualizer: it is reset, resized, decays, or analyses samples
/// within full scale.
pub open spec fn visualizer_step<M: SpectrumMath>(a: VisualizerProcessor, b: VisualizerProcessor) -> bool {
    ||| visualizer_reset(a, b)
    ||| exists|count: int| #[trigger] recounts(a, count, b)
    ||| exists|count: int| #[trigger] decays::<M>(a, count, b)
    ||| computes_in_scale::<M>(a, b)
}

/// Whether `a` may become `b` by an analysis of samples within full scale.
pub open spec fn computes_in_scale<M: SpectrumMath>(a: VisualizerProcessor, b: VisualizerProcessor) -> bool {
    exists|
        samples: Seq<Single>,
        channels: usize,
        sample_rate: u32,
        playing: bool,
        shown: Seq<Single>,
        shows: Seq<Single>,
    | #[trigger]
        computes::<M>(a, samples, channels, sample_rate, playing, shown, b, shows) && all_in_full_scale(samples)
            && shown.len() <= usize::MAX
}

proof fn lemma_computed_within<M: SpectrumMath>(
    r: Ranges,
    before: VisualizerProcessor,
    samples: Seq<Single>,
    channels: usize,
    sample_rate: u32,
    playing: bool,
    shown: Seq<Single>,
    after: VisualizerProcessor,
    shows: Seq<Single>,
)
    requires
        keeps_within::<M>(r),
        state_within(r, before),
        all_in_full_scale(samples),
        shown.len() <= usize::MAX,
        computes::<M>(before, samples, channels, sample_rate, playing, shown, after, shows),
    ensures
        state_within(r, after),
        shown.len() > 0 ==> all_in_unit(shows),
{
    if shown.len() > 0 {
        if is_quiet(samples, channels, sample_rate, playing) {
            lemma_decays_within::<M>(r, before, shown.len() as int, after);
        } else {
            let count = shown.len() as usize;
            let a = choose|a: Analysis| #[trigger]
                analyses::<M>(before, samples, channels, sample_rate, count, a, after);
            lemma_analysed_within::<M>(r, before, samples, channels, sample_rate, count, a, after);
        }
    }
}

proof fn lemma_decays_within<M: SpectrumMath>(
    r: Ranges,
    before: VisualizerProcessor,
    count: int,
    after: VisualizerProcessor,
)
    requires
        keeps_within::<M>(r),
        state_within(r, before),
        decays::<M>(before, count, after),
    ensures
        state_within(r, after),
{
    let bars = resized(before.smoothed_bars@, count);
    assert forall|i: int| 0 <= i < after.smoothed_bars@.len() implies in_unit(#[trigger] after.smoothed_bars@[i]) by {
        assert(in_unit(bars[i]));
        assert(call_ensures(M::decay_bar, (bars[i],), after.smoothed_bars@[i]));
    }
}

/// Over any run of resets, resizes, decays and analyses of samples within full
/// scale, every bar stays a number from zero to one.
///
/// The arithmetic stays within `r`.
pub proof fn bars_stay_from_zero_to_one<M: SpectrumMath>(r: Ranges, bar_count: usize, trace: Seq<VisualizerProcessor>)
    requires
        keeps_within::<M>(r),
        trace.len() > 0,
        trace[0].smoothed_bars@ == flat(bars_kept(bar_count as int)),
        visualizer_reset(trace[0], trace[0]),
        forall|i: int| 0 <= i < trace.len() - 1 ==> #[trigger] visualizer_step::<M>(trace[i], trace[i + 1]),
    ensures
        state_within(r, trace.last()),
    decreases trace.len(),
{
    if trace.len() > 1 {
        let front = trace.drop_last();
        let a = front.last();
        let b = trace.last();
        assert forall|i: int| 0 <= i < front.len() - 1 implies #[trigger] visualizer_step::<M>(
            front[i],
            front[i + 1],
        ) by {
            assert(visualizer_step::<M>(trace[i], trace[i + 1]));
        }
        bars_stay_from_zero_to_one::<M>(r, bar_count, front);
        assert(visualizer_step::<M>(trace[trace.len() - 2], trace[trace.len() - 2 + 1]));
        if visualizer_reset(a, b) {
        } else if exists|count: int| #[trigger] recounts(a, count, b) {
        } else if exists|count: int| #[trigger] decays::<M>(a, count, b) {
            let count = choose|count: int| #[trigger] decays::<M>(a, count, b);
            lemma_decays_within::<M>(r, a, count, b);
        } else {
            let (samples, channels, sample_rate, playing, shown, shows) = choose|
                samples: Seq<Single>,
                channels: usize,
                sample_rate: u32,
                playing: bool,
                shown: Seq<Single>,
                shows: Seq<Single>,
            | #[trigger]
                computes::<M>(a, samples, channels, sample_rate, playing, shown, b, shows) && all_in_full_scale(samples)
                    && shown.len() <= usize::MAX;
            lemma_computed_within::<M>(r, a, samples, channels, sample_rate, playing, shown, b, shows);
        }
    }
}

/// After any such run, an analysis of samples within full scale fills a display
/// with numbers from zero to one.
pub proof fn display_shows_zero_to_one<M: SpectrumMath>(
    r: Ranges,
    bar_count: usize,
    trace: Seq<VisualizerProcessor>,
    samples: Seq<Single>,
    channels: usize,
    sample_rate: u32,
    playing: bool,
    shown: Seq<Single>,
    after: VisualizerProcessor,
    shows: Seq<Single>,
)
    requires
        keeps_within::<M>(r),
        trace.len() > 0,
        trace[0].smoothed_bars@ == flat(bars_kept(bar_count as int)),
        visualizer_reset(trace[0], trace[0]),
        forall|i: int| 0 <= i < trace.len() - 1 ==> #[trigger] visualizer_step::<M>(trace[i], trace[i + 1]),
        all_in_full_scale(samples),
        shown.len() <= usize::MAX,
        computes::<M>(trace.last(), samples, channels, sample_rate, playing, shown, after, shows),
    ensures
        shows.len() == shown.len(),
        all_in_unit(shows),
{
    bars_stay_from_zero_to_one::<M>(r, bar_count, trace);
    lemma_computed_within::<M>(r, trace.last(), samples, channels, sample_rate, playing, shown, after, shows);
}

} // verus!
