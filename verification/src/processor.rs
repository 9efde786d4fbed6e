//! The spectrum visualizer.

use crate::enums::VISUALIZER_FFT_SIZE;
use crate::ieee::{Single, ONE};
use crate::resample::frame_at;
use vstd::arithmetic::div_mod::lemma_fundamental_div_mod;
use vstd::prelude::*;
use vstd::slice::slice_subrange;

verus! {

/// The arithmetic of the visualizer, supplied by the embedding program.
///
/// As with [`crate::math::AudioMath`], no method carries a contract.
pub trait SpectrumMath {
    /// A bar after one step without new samples.
    fn decay_bar(bar: Single) -> Single;

    /// The fast energy after one step without new samples.
    fn decay_fast(energy: Single) -> Single;

    /// The slow energy after one step without new samples.
    fn decay_slow(energy: Single) -> Single;

    /// The arithmetic mean of the samples of one frame.
    fn mono(frame: &[Single]) -> Single;

    /// `sum + mono * mono`.
    fn add_square(sum: Single, mono: Single) -> Single;

    /// The Hann window of `len` samples, more than one, at `index`.
    fn hann(index: usize, len: usize) -> Single;

    /// `mono * weight`.
    fn weigh(mono: Single, weight: Single) -> Single;

    /// The magnitudes of the lower half of the Fourier transform of `input`,
    /// divided by `window_frames`.
    fn magnitudes(input: &[Single], window_frames: usize) -> Vec<Single>;

    /// The root of the mean of `window_frames` squares with the sum `sum`.
    fn rms(sum: Single, window_frames: usize) -> Single;

    /// The fast energy after a window of loudness `rms`.
    fn follow_fast(energy: Single, rms: Single) -> Single;

    /// The slow energy after a window of loudness `rms`.
    fn follow_slow(energy: Single, rms: Single) -> Single;

    /// How far the fast energy is ahead of the slow one: `(fast - slow) * 11`.
    fn lead(fast: Single, slow: Single) -> Single;

    /// The transform's bin at edge `edge` of `bars` bars, which divide the
    /// audible range evenly by pitch.
    fn bin(edge: usize, bars: usize, sample_rate: u32) -> usize;

    /// The arithmetic mean of `bins`, of which there is at least one.
    fn mean(bins: &[Single]) -> Single;

    /// The height `mean` of bar `bar` of `bars`, raised by the beat the more the
    /// lower the bar is.
    fn boost(mean: Single, beat: Single, bar: usize, bars: usize) -> Single;

    /// The adaptive level after a frame with this peak.
    fn adapt(level: Single, peak: Single) -> Single;

    /// A bar mixed with its neighbours.
    fn spread(left: Single, center: Single, right: Single) -> Single;

    /// `raw / level`.
    fn ratio(raw: Single, level: Single) -> Single;

    /// The height at which `ratio`, from zero to two, is shown.
    fn shape(ratio: Single) -> Single;

    /// The bar `current` after a fast step upwards to `target`.
    fn rise(current: Single, target: Single) -> Single;

    /// The bar `current` after a slow step downwards to `target`.
    fn fall(current: Single, target: Single) -> Single;
}

/// The pattern of the number two.
pub const TWO: u32 = 0x4000_0000;

/// The smallest level that heights are compared with: 0.0001.
pub const LEVEL_FLOOR: u32 = 0x38d1_b717;

/// `level`, but at least [`LEVEL_FLOOR`]; that too where `level` is no number.
pub open spec fn floored(level: Single) -> Single {
    if (Single { bits: LEVEL_FLOOR }).less(level) {
        level
    } else {
        Single { bits: LEVEL_FLOOR }
    }
}

fn at_least_floor(level: Single) -> (r: Single)
    ensures
        r == floored(level),
{
    let lowest = Single { bits: LEVEL_FLOOR };
    if lowest.lt(level) {
        level
    } else {
        lowest
    }
}

/// `x` moved between zero and one; a NaN stays as it is.
pub open spec fn to_unit(x: Single) -> Single {
    x.clamped(crate::ieee::silent(), Single { bits: ONE })
}

fn clamp_to_unit(x: Single) -> (r: Single)
    ensures
        r == to_unit(x),
{
    x.clamp(Single { bits: 0 }, Single { bits: ONE })
}

/// The adaptive level to begin with: 0.08.
pub const INITIAL_LEVEL: u32 = 0x3da3_d70a;

/// Turns recent samples into frequency bars.
pub struct VisualizerProcessor {
    pub smoothed_bars: Vec<Single>,
    pub adaptive_level: Single,
    pub fast_energy: Single,
    pub slow_energy: Single,
}

/// `n` bars of no height.
pub open spec fn flat(n: nat) -> Seq<Single> {
    Seq::new(n, |i: int| crate::ieee::silent())
}

/// The number of bars kept for a display of `count` bars.
pub open spec fn bars_kept(count: int) -> nat {
    if count < 1 {
        1
    } else {
        count as nat
    }
}

/// The bars `bars` for a display of `count` bars: flat where their number has
/// changed.
pub open spec fn resized(bars: Seq<Single>, count: int) -> Seq<Single> {
    if bars.len() == bars_kept(count) {
        bars
    } else {
        flat(bars_kept(count))
    }
}

/// The adaptive level for a display of `count` bars, after `bars`.
pub open spec fn resized_level(level: Single, bars: Seq<Single>, count: int) -> Single {
    if bars.len() == bars_kept(count) {
        level
    } else {
        Single { bits: INITIAL_LEVEL }
    }
}

/// Whether `after` is `before` for a display of `count` bars.
pub open spec fn recounts(before: VisualizerProcessor, count: int, after: VisualizerProcessor) -> bool {
    &&& after.smoothed_bars@ == resized(before.smoothed_bars@, count)
    &&& after == VisualizerProcessor {
        smoothed_bars: after.smoothed_bars,
        adaptive_level: resized_level(before.adaptive_level, before.smoothed_bars@, count),
        ..before
    }
}

/// Whether `after` is `before` after a step without new samples on a display
/// of `count` bars.
pub open spec fn decays<M: SpectrumMath>(
    before: VisualizerProcessor,
    count: int,
    after: VisualizerProcessor,
) -> bool {
    let bars = resized(before.smoothed_bars@, count);
    &&& after.smoothed_bars@.len() == bars.len()
    &&& forall|i: int|
        0 <= i < bars.len() ==> call_ensures(M::decay_bar, (bars[i],), #[trigger] after.smoothed_bars@[i])
    &&& after.adaptive_level == resized_level(before.adaptive_level, before.smoothed_bars@, count)
    &&& call_ensures(M::decay_fast, (before.fast_energy,), after.fast_energy)
    &&& call_ensures(M::decay_slow, (before.slow_energy,), after.slow_energy)
}

fn flat_bars(n: usize) -> (r: Vec<Single>)
    ensures
        r@ == flat(n as nat),
{
    let mut r: Vec<Single> = Vec::new();
    let mut i: usize = 0;
    while i < n
        invariant
            i <= n,
            r@ =~= flat(i as nat),
        decreases n - i,
    {
        r.push(Single { bits: 0 });
        i = i + 1;
    }
    r
}

impl VisualizerProcessor {
    pub fn new(bar_count: usize) -> (r: Self)
        ensures
            r.smoothed_bars@ == flat(bars_kept(bar_count as int)),
            r.adaptive_level == (Single { bits: INITIAL_LEVEL }),
            r.fast_energy == crate::ieee::silent(),
            r.slow_energy == crate::ieee::silent(),
    {
        let count: usize = if bar_count < 1 { 1 } else { bar_count };
        VisualizerProcessor {
            smoothed_bars: flat_bars(count),
            adaptive_level: Single { bits: INITIAL_LEVEL },
            fast_energy: Single { bits: 0 },
            slow_energy: Single { bits: 0 },
        }
    }

    /// Back to the beginning, with as many bars as before.
    pub fn reset(&mut self)
        ensures
            final(self).smoothed_bars@ == flat(old(self).smoothed_bars@.len()),
            final(self).adaptive_level == (Single { bits: INITIAL_LEVEL }),
            final(self).fast_energy == crate::ieee::silent(),
            final(self).slow_energy == crate::ieee::silent(),
    {
        let n: usize = self.smoothed_bars.len();
        self.smoothed_bars = flat_bars(n);
        self.adaptive_level = Single { bits: INITIAL_LEVEL };
        self.fast_energy = Single { bits: 0 };
        self.slow_energy = Single { bits: 0 };
    }

    /// Keep `count` bars, at least one.
    pub fn ensure_bar_count(&mut self, count: usize)
        ensures
            recounts(*old(self), count as int, *final(self)),
    {
        let count: usize = if count < 1 { 1 } else { count };
        if self.smoothed_bars.len() != count {
            self.smoothed_bars = flat_bars(count);
            self.adaptive_level = Single { bits: INITIAL_LEVEL };
        }
    }

    /// A step without new samples.  Fills `out` and returns its length.
    pub fn decay_only<M: SpectrumMath>(&mut self, out: &mut [Single]) -> (r: i32)
        ensures
            decays::<M>(*old(self), old(out)@.len() as int, *final(self)),
            final(out)@ == final(self).smoothed_bars@.take(old(out)@.len() as int),
            r == old(out)@.len() as i32,
    {
        let count: usize = out.len();
        self.ensure_bar_count(count);
        let ghost bars = self.smoothed_bars@;
        let n: usize = self.smoothed_bars.len();
        let mut i: usize = 0;
        while i < n
            invariant
                i <= n,
                n == self.smoothed_bars@.len() == bars.len(),
                self.adaptive_level == resized_level(
                    old(self).adaptive_level,
                    old(self).smoothed_bars@,
                    old(out)@.len() as int,
                ),
                self.fast_energy == old(self).fast_energy,
                self.slow_energy == old(self).slow_energy,
                forall|k: int|
                    0 <= k < i ==> call_ensures(M::decay_bar, (bars[k],), #[trigger] self.smoothed_bars@[k]),
                forall|k: int| i <= k < n ==> self.smoothed_bars@[k] == bars[k],
            decreases n - i,
        {
            let bar = M::decay_bar(self.smoothed_bars[i]);
            self.smoothed_bars.set(i, bar);
            i = i + 1;
        }
        self.fast_energy = M::decay_fast(self.fast_energy);
        self.slow_energy = M::decay_slow(self.slow_energy);
        copy_bars(&self.smoothed_bars, out);
        count as i32
    }
}

// ── Analysis ──────────────────────────────────────────────────────────────────

/// Whether `mono` is the mean of `frame`.
pub open spec fn is_mono<M: SpectrumMath>(frame: Seq<Single>, mono: Single) -> bool {
    exists|f: &[Single]| f@ == frame && #[trigger] call_ensures(M::mono, (f,), mono)
}

/// Whether the frames from `start` on have the means `mono`, and `sums` adds up
/// their squares from zero.
pub open spec fn listens<M: SpectrumMath>(
    samples: Seq<Single>,
    channels: int,
    start: int,
    mono: Seq<Single>,
    sums: Seq<Single>,
) -> bool {
    &&& sums.len() == mono.len() + 1
    &&& sums[0] == crate::ieee::silent()
    &&& forall|i: int|
        0 <= i < mono.len() ==> is_mono::<M>(frame_at(samples, channels, start + i), #[trigger] mono[i])
            && call_ensures(M::add_square, (sums[i], mono[i]), sums[i + 1])
}

/// Whether `weight` is that of place `index` in a window of `len` samples.
pub open spec fn is_weight<M: SpectrumMath>(index: usize, len: usize, weight: Single) -> bool {
    if len <= 1 {
        weight == Single { bits: ONE }
    } else {
        exists|h: Single| #[trigger] call_ensures(M::hann, (index, len), h) && weight == to_unit(h)
    }
}

/// Whether `r` is `mono` weighted for place `index` in a window of `len`
/// samples.
pub open spec fn is_windowed<M: SpectrumMath>(mono: Single, index: usize, len: usize, r: Single) -> bool {
    exists|weight: Single|
        is_weight::<M>(index, len, weight) && #[trigger] call_ensures(M::weigh, (mono, weight), r)
}

fn windowed<M: SpectrumMath>(mono: Single, index: usize, len: usize) -> (r: Single)
    ensures
        is_windowed::<M>(mono, index, len, r),
{
    let weight = if len <= 1 {
        Single { bits: ONE }
    } else {
        clamp_to_unit(M::hann(index, len))
    };
    assert(is_weight::<M>(index, len, weight));
    M::weigh(mono, weight)
}

/// Whether `input` is the transform's input for the means `mono`: weighted by
/// the window, at the end of a buffer of zeros.
pub open spec fn is_input<M: SpectrumMath>(mono: Seq<Single>, input: Seq<Single>) -> bool {
    let lead = VISUALIZER_FFT_SIZE - mono.len();
    &&& input.len() == VISUALIZER_FFT_SIZE
    &&& forall|i: int| 0 <= i < lead ==> #[trigger] input[i] == crate::ieee::silent()
    &&& forall|i: int|
        lead <= i < VISUALIZER_FFT_SIZE ==> is_windowed::<M>(
            mono[i - lead],
            (i - lead) as usize,
            mono.len() as usize,
            #[trigger] input[i],
        )
}

/// Whether the `window` frames from `start` on give the transform input `input`
/// and the sum of squares `sum`.
pub open spec fn hears<M: SpectrumMath>(
    samples: Seq<Single>,
    channels: int,
    start: int,
    window: int,
    input: Seq<Single>,
    sum: Single,
) -> bool {
    exists|mono: Seq<Single>, sums: Seq<Single>| #[trigger]
        listens::<M>(samples, channels, start, mono, sums) && mono.len() == window && sums.last() == sum
            && is_input::<M>(mono, input)
}

/// Mixes the window down and weights it.
fn hear<M: SpectrumMath>(samples: &[Single], channels: usize, start: usize, window: usize) -> (r: (Vec<Single>, Single))
    requires
        channels > 0,
        window <= VISUALIZER_FFT_SIZE,
        (start + window) * channels <= samples@.len(),
    ensures
        hears::<M>(samples@, channels as int, start as int, window as int, r.0@, r.1),
{
    let total: usize = samples.len();
    let lead: usize = VISUALIZER_FFT_SIZE - window;
    let mut input: Vec<Single> = flat_bars(lead);
    let mut sum = Single { bits: 0 };
    let ghost mut mono = Seq::<Single>::empty();
    let ghost mut sums = seq![sum];
    let mut i: usize = 0;
    while i < window
        invariant
            i <= window <= VISUALIZER_FFT_SIZE,
            lead == VISUALIZER_FFT_SIZE - window,
            channels > 0,
            total == samples@.len(),
            (start + window) * channels <= total,
            mono.len() == i,
            sums.last() == sum,
            listens::<M>(samples@, channels as int, start as int, mono, sums),
            input@.len() == lead + i,
            forall|k: int| 0 <= k < lead ==> #[trigger] input@[k] == crate::ieee::silent(),
            forall|k: int|
                lead <= k < lead + i ==> is_windowed::<M>(
                    mono[k - lead],
                    (k - lead) as usize,
                    window,
                    #[trigger] input@[k],
                ),
        decreases window - i,
    {
        assert(start + i <= total && (start + i) * channels + channels <= total) by (nonlinear_arith)
            requires
                (start + window) * channels <= total,
                i < window,
                channels > 0,
        ;
        assert((start + i) * channels >= 0) by (nonlinear_arith)
            requires
                channels > 0,
        ;
        let base: usize = (start + i) * channels;
        let frame = slice_subrange(samples, base, base + channels);
        assert(frame@ == frame_at(samples@, channels as int, start + i));
        let mean = M::mono(frame);
        let next = M::add_square(sum, mean);
        let weighted = windowed::<M>(mean, i, window);
        input.push(weighted);
        proof {
            assert(is_mono::<M>(frame_at(samples@, channels as int, start + i), mean));
            mono = mono.push(mean);
            sums = sums.push(next);
        }
        sum = next;
        i = i + 1;
    }
    (input, sum)
}

/// The bins of a bar between the bins `low` and `high` of its edges, of `bins`
/// bins in all: at least one where there is one, and never the first.
pub open spec fn bar_span(low: int, high: int, bins: int) -> (int, int) {
    let first = if low < 1 {
        1
    } else {
        low
    };
    let past = if high < first + 1 {
        first + 1
    } else {
        high
    };
    let end = if past < bins {
        past
    } else {
        bins
    };
    let start = if first < end - 1 {
        first
    } else if end < 1 {
        0
    } else {
        end - 1
    };
    (start, end)
}

fn span(low: usize, high: usize, bins: usize) -> (r: (usize, usize))
    ensures
        bar_span(low as int, high as int, bins as int) == (r.0 as int, r.1 as int),
        r.0 <= r.1 <= bins,
{
    let first: usize = if low < 1 { 1 } else { low };
    let past: usize = if high <= first { first.saturating_add(1) } else { high };
    let end: usize = if past < bins { past } else { bins };
    let last: usize = end.saturating_sub(1);
    let start: usize = if first < last { first } else { last };
    (start, end)
}

/// Whether `mean` is the mean of `bins`, or zero without bins.
pub open spec fn averages<M: SpectrumMath>(bins: Seq<Single>, mean: Single) -> bool {
    if bins.len() == 0 {
        mean == crate::ieee::silent()
    } else {
        exists|b: &[Single]| b@ == bins && #[trigger] call_ensures(M::mean, (b,), mean)
    }
}

/// Whether `level` is the raw height of bar `bar` of `bars` bars.
pub open spec fn rises<M: SpectrumMath>(
    magnitudes: Seq<Single>,
    beat: Single,
    sample_rate: u32,
    bars: usize,
    bar: int,
    level: Single,
) -> bool {
    exists|low: usize, high: usize, mean: Single|
        #![trigger call_ensures(M::bin, (bar as usize, bars, sample_rate), low), call_ensures(
            M::bin,
            ((bar + 1) as usize, bars, sample_rate),
            high,
        ), call_ensures(M::boost, (mean, beat, bar as usize, bars), level)]
        {
            let span = bar_span(low as int, high as int, magnitudes.len() as int);
            &&& call_ensures(M::bin, (bar as usize, bars, sample_rate), low)
            &&& call_ensures(M::bin, ((bar + 1) as usize, bars, sample_rate), high)
            &&& averages::<M>(magnitudes.subrange(span.0, span.1), mean)
            &&& call_ensures(M::boost, (mean, beat, bar as usize, bars), level)
        }
}

/// The raw heights of the bars.
fn raise<M: SpectrumMath>(magnitudes: &Vec<Single>, beat: Single, sample_rate: u32, bars: usize) -> (r: Vec<Single>)
    ensures
        r@.len() == bars,
        forall|i: int|
            0 <= i < bars ==> rises::<M>(magnitudes@, beat, sample_rate, bars, i, #[trigger] r@[i]),
{
    let mut r: Vec<Single> = Vec::new();
    let mut bar: usize = 0;
    while bar < bars
        invariant
            bar <= bars,
            r@.len() == bar,
            forall|i: int|
                0 <= i < bar ==> rises::<M>(magnitudes@, beat, sample_rate, bars, i, #[trigger] r@[i]),
        decreases bars - bar,
    {
        let low: usize = M::bin(bar, bars, sample_rate);
        let high: usize = M::bin(bar + 1, bars, sample_rate);
        let (start, end) = span(low, high, magnitudes.len());
        let bins = slice_subrange(magnitudes.as_slice(), start, end);
        let mean = if bins.len() == 0 {
            Single { bits: 0 }
        } else {
            M::mean(bins)
        };
        assert(averages::<M>(bins@, mean));
        let level = M::boost(mean, beat, bar, bars);
        assert(rises::<M>(magnitudes@, beat, sample_rate, bars, bar as int, level));
        r.push(level);
        bar = bar + 1;
    }
    r
}

/// The bar to the left of bar `i`, or the bar itself at the edge.
pub open spec fn left_of(bars: Seq<Single>, i: int) -> Single {
    if i > 0 {
        bars[i - 1]
    } else {
        bars[i]
    }
}

/// The bar to the right of bar `i`, or the bar itself at the edge.
pub open spec fn right_of(bars: Seq<Single>, i: int) -> Single {
    if i + 1 < bars.len() {
        bars[i + 1]
    } else {
        bars[i]
    }
}

/// Whether `target` is where a bar of the height `raw` is drawn to at the level
/// `level`, which is at least [`LEVEL_FLOOR`].
pub open spec fn is_target<M: SpectrumMath>(raw: Single, level: Single, target: Single) -> bool {
    exists|ratio: Single, height: Single|
        #![trigger call_ensures(M::ratio, (raw, floored(level)), ratio), call_ensures(
            M::shape,
            (ratio.clamped(crate::ieee::silent(), Single { bits: TWO }),),
            height,
        )]
        {
            &&& call_ensures(M::ratio, (raw, floored(level)), ratio)
            &&& call_ensures(M::shape, (ratio.clamped(crate::ieee::silent(), Single { bits: TWO }),), height)
            &&& target == to_unit(height)
        }
}

/// Whether the bar `current` becomes `next` on its way to `target`.
pub open spec fn approaches<M: SpectrumMath>(current: Single, target: Single, next: Single) -> bool {
    if current.less(target) {
        call_ensures(M::rise, (current, target), next)
    } else {
        call_ensures(M::fall, (current, target), next)
    }
}

/// Whether the bar `current` becomes `next` on its way to the height `raw` at the
/// level `level`: fast upwards, slowly downwards.
pub open spec fn smooths<M: SpectrumMath>(current: Single, raw: Single, level: Single, next: Single) -> bool {
    exists|target: Single| #[trigger]
        is_target::<M>(raw, level, target) && approaches::<M>(current, target, next)
}

fn smooth<M: SpectrumMath>(current: Single, raw: Single, level: Single) -> (r: Single)
    ensures
        smooths::<M>(current, raw, level, r),
{
    let ratio = M::ratio(raw, at_least_floor(level));
    let height = M::shape(ratio.clamp(Single { bits: 0 }, Single { bits: TWO }));
    let target = clamp_to_unit(height);
    assert(is_target::<M>(raw, level, target));
    if current.lt(target) {
        M::rise(current, target)
    } else {
        M::fall(current, target)
    }
}

/// Whether the bar `current` at place `i` becomes `next` under the raw heights
/// `raw`: towards the height mixed with its neighbours.
pub open spec fn settles<M: SpectrumMath>(
    raw: Seq<Single>,
    level: Single,
    i: int,
    current: Single,
    next: Single,
) -> bool {
    exists|mixed: Single| #[trigger]
        call_ensures(M::spread, (left_of(raw, i), raw[i], right_of(raw, i)), mixed) && smooths::<M>(
            current,
            mixed,
            level,
            next,
        )
}

/// Moves every bar towards its raw height.
fn settle<M: SpectrumMath>(bars: &mut Vec<Single>, raw: &Vec<Single>, level: Single)
    requires
        raw@.len() == old(bars)@.len(),
    ensures
        final(bars)@.len() == old(bars)@.len(),
        forall|i: int|
            0 <= i < raw@.len() ==> settles::<M>(raw@, level, i, old(bars)@[i], #[trigger] final(bars)@[i]),
{
    let n: usize = raw.len();
    let mut i: usize = 0;
    while i < n
        invariant
            i <= n == raw@.len(),
            n == bars@.len() == old(bars)@.len(),
            forall|k: int|
                0 <= k < i ==> settles::<M>(raw@, level, k, old(bars)@[k], #[trigger] bars@[k]),
            forall|k: int| i <= k < n ==> bars@[k] == old(bars)@[k],
        decreases n - i,
    {
        let left = if i > 0 { raw[i - 1] } else { raw[i] };
        let right = if i + 1 < n { raw[i + 1] } else { raw[i] };
        let spread = M::spread(left, raw[i], right);
        let next = smooth::<M>(bars[i], spread, level);
        assert(settles::<M>(raw@, level, i as int, old(bars)@[i as int], next));
        bars.set(i, next);
        i = i + 1;
    }
}

/// The intermediate results of one analysis.
pub struct Analysis {
    /// The transform's input.
    pub input: Seq<Single>,
    /// The sum of the squares of the window.
    pub sum: Single,
    /// The transform's magnitudes.
    pub magnitudes: Vec<Single>,
    pub rms: Single,
    pub beat: Single,
    /// The raw heights of the bars.
    pub raw: Seq<Single>,
}

/// Whether `magnitudes` are those of the transform of `input`.
pub open spec fn transforms<M: SpectrumMath>(input: Seq<Single>, window: usize, magnitudes: Vec<Single>) -> bool {
    exists|buffer: &[Single]|
        buffer@ == input && #[trigger] call_ensures(M::magnitudes, (buffer, window), magnitudes)
}

/// The highest of the bars `bars`, zero where none is higher; what is no number
/// does not count.
pub open spec fn highest(bars: Seq<Single>) -> Single
    decreases bars.len(),
{
    if bars.len() == 0 {
        crate::ieee::silent()
    } else if highest(bars.drop_last()).less(bars.last()) {
        bars.last()
    } else {
        highest(bars.drop_last())
    }
}

fn peak(bars: &Vec<Single>) -> (r: Single)
    ensures
        r == highest(bars@),
{
    let mut r = Single { bits: 0 };
    let mut i: usize = 0;
    assert(bars@.take(0) =~= Seq::<Single>::empty());
    while i < bars.len()
        invariant
            i <= bars@.len(),
            r == highest(bars@.take(i as int)),
        decreases bars@.len() - i,
    {
        assert(bars@.take(i + 1).drop_last() =~= bars@.take(i as int));
        if r.lt(bars[i]) {
            r = bars[i];
        }
        i = i + 1;
    }
    assert(bars@.take(bars@.len() as int) =~= bars@);
    r
}

/// Whether `beat` is how far the fast energy is ahead of the slow one, from zero
/// to one.
pub open spec fn is_beat<M: SpectrumMath>(fast: Single, slow: Single, beat: Single) -> bool {
    exists|lead: Single| #[trigger] call_ensures(M::lead, (fast, slow), lead) && beat == to_unit(lead)
}

/// Whether `a` leads from `before` to `after` for a display of `count` bars:
/// the newest frames, as many as the transform takes, are transformed; the
/// energies follow their loudness; each bar takes the level of its bins and
/// settles towards it.
pub open spec fn analyses<M: SpectrumMath>(
    before: VisualizerProcessor,
    samples: Seq<Single>,
    channels: usize,
    sample_rate: u32,
    count: usize,
    a: Analysis,
    after: VisualizerProcessor,
) -> bool {
    let frames = samples.len() as int / channels as int;
    let window = if frames < VISUALIZER_FFT_SIZE {
        frames
    } else {
        VISUALIZER_FFT_SIZE as int
    };
    let bars = resized(before.smoothed_bars@, count as int);
    let level = resized_level(before.adaptive_level, before.smoothed_bars@, count as int);
    &&& hears::<M>(samples, channels as int, frames - window, window, a.input, a.sum)
    &&& transforms::<M>(a.input, window as usize, a.magnitudes)
    &&& call_ensures(M::rms, (a.sum, window as usize), a.rms)
    &&& call_ensures(M::follow_fast, (before.fast_energy, a.rms), after.fast_energy)
    &&& call_ensures(M::follow_slow, (before.slow_energy, a.rms), after.slow_energy)
    &&& is_beat::<M>(after.fast_energy, after.slow_energy, a.beat)
    &&& a.raw.len() == count
    &&& forall|i: int|
        0 <= i < count ==> rises::<M>(a.magnitudes@, a.beat, sample_rate, count, i, #[trigger] a.raw[i])
    &&& call_ensures(M::adapt, (level, floored(highest(a.raw))), after.adaptive_level)
    &&& after.smoothed_bars@.len() == count
    &&& forall|i: int|
        0 <= i < count ==> settles::<M>(
            a.raw,
            after.adaptive_level,
            i,
            bars[i],
            #[trigger] after.smoothed_bars@[i],
        )
}

/// Whether there is nothing to analyse.
pub open spec fn is_quiet(samples: Seq<Single>, channels: usize, sample_rate: u32, playing: bool) -> bool {
    !playing || channels == 0 || sample_rate == 0 || samples.len() < channels
}

/// Whether one step on the samples `samples` turns `before` into `after` and a
/// display that shows `shown` into one that shows `shows`.
pub open spec fn computes<M: SpectrumMath>(
    before: VisualizerProcessor,
    samples: Seq<Single>,
    channels: usize,
    sample_rate: u32,
    playing: bool,
    shown: Seq<Single>,
    after: VisualizerProcessor,
    shows: Seq<Single>,
) -> bool {
    if shown.len() == 0 {
        after == before && shows == shown
    } else {
        &&& shows == after.smoothed_bars@
        &&& shows.len() == shown.len()
        &&& if is_quiet(samples, channels, sample_rate, playing) {
            decays::<M>(before, shown.len() as int, after)
        } else {
            exists|a: Analysis| #[trigger]
                analyses::<M>(before, samples, channels, sample_rate, shown.len() as usize, a, after)
        }
    }
}

impl VisualizerProcessor {
    /// Computes the bars of a display of `out.len()` bars from interleaved
    /// samples, the newest last.  Fills `out` and returns its length.
    pub fn compute<M: SpectrumMath>(
        &mut self,
        samples: &[Single],
        channels: usize,
        sample_rate: u32,
        out: &mut [Single],
        playing: bool,
    ) -> (r: i32)
        ensures
            r == old(out)@.len() as i32,
            computes::<M>(
                *old(self),
                samples@,
                channels,
                sample_rate,
                playing,
                old(out)@,
                *final(self),
                final(out)@,
            ),
    {
        let count: usize = out.len();
        if count == 0 {
            return 0;
        }
        self.ensure_bar_count(count);
        if !playing || samples.len() == 0 || channels == 0 || sample_rate == 0 {
            let r: i32 = self.decay_only::<M>(out);
            assert(self.smoothed_bars@.take(count as int) =~= self.smoothed_bars@);
            return r;
        }
        let frame_count: usize = samples.len() / channels;
        proof {
            lemma_fundamental_div_mod(samples@.len() as int, channels as int);
            let rest = samples@.len() as int % channels as int;
            assert(frame_count * channels <= samples@.len() && (frame_count == 0 <==> samples@.len() < channels))
                by (nonlinear_arith)
                requires
                    samples@.len() == channels * frame_count + rest,
                    0 <= rest < channels,
                    frame_count >= 0,
            ;
        }
        if frame_count == 0 {
            let r: i32 = self.decay_only::<M>(out);
            assert(self.smoothed_bars@.take(count as int) =~= self.smoothed_bars@);
            return r;
        }
        let window: usize = if frame_count < VISUALIZER_FFT_SIZE { frame_count } else { VISUALIZER_FFT_SIZE };
        let start: usize = frame_count - window;
        let (input, sum) = hear::<M>(samples, channels, start, window);
        let magnitudes = M::magnitudes(input.as_slice(), window);
        assert(transforms::<M>(input@, window, magnitudes));
        let rms = M::rms(sum, window);
        self.fast_energy = M::follow_fast(self.fast_energy, rms);
        self.slow_energy = M::follow_slow(self.slow_energy, rms);
        let beat = clamp_to_unit(M::lead(self.fast_energy, self.slow_energy));
        assert(is_beat::<M>(self.fast_energy, self.slow_energy, beat));
        let raw = raise::<M>(&magnitudes, beat, sample_rate, count);
        self.adaptive_level = M::adapt(self.adaptive_level, at_least_floor(peak(&raw)));
        settle::<M>(&mut self.smoothed_bars, &raw, self.adaptive_level);
        copy_bars(&self.smoothed_bars, out);
        assert(self.smoothed_bars@.take(count as int) =~= self.smoothed_bars@);
        proof {
            let a = Analysis { input: input@, sum, magnitudes, rms, beat, raw: raw@ };
            assert(old(out)@.len() as usize == count);
            assert(analyses::<M>(*old(self), samples@, channels, sample_rate, count, a, *self));
        }
        count as i32
    }
}

/// Copies the first bars into `out`.
fn copy_bars(bars: &Vec<Single>, out: &mut [Single])
    requires
        old(out)@.len() <= bars@.len(),
    ensures
        final(out)@ == bars@.take(old(out)@.len() as int),
{
    let n: usize = out.len();
    let mut i: usize = 0;
    while i < n
        invariant
            i <= n == out@.len(),
            n == old(out)@.len(),
            n <= bars@.len(),
            forall|k: int| 0 <= k < i ==> out@[k] == bars@[k],
        decreases n - i,
    {
        out[i] = bars[i];
        i = i + 1;
    }
    assert(out@ =~= bars@.take(n as int));
}

} // verus!
