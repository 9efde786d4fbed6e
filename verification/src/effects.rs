//! Per-channel DSP chains.

use crate::ieee::Single;
use crate::math::AudioMath;
use crate::text::same_text;
use std::marker::PhantomData;
use vstd::prelude::*;

verus! {

/// Per-sample DSP processing trait.
///
/// Every audio effect that can be inserted into the signal chain implements
/// this trait.  All methods are called on the **audio callback thread**, so
/// implementations must not allocate, block or lock.
///
/// The three specification functions describe an implementation to the
/// contracts of [`Effects`], and an implementation gives its own.  One outside
/// of verified code cannot: it is left with the defaults, which describe no
/// implementation, so what the contracts say of a chain through them does not
/// hold of its processors.
pub trait AudioProcessor: Sized + Send + 'static {
    /// The name that [`AudioProcessor::name`] returns.
    open spec fn label(&self) -> Seq<char> {
        arbitrary()
    }

    /// Whether processing `sample` of channel `channel` may turn `self` into
    /// `after` and give `out`.
    open spec fn processes(self, sample: Single, channel: usize, after: Self, out: Single) -> bool {
        arbitrary()
    }

    /// Whether a change of the stream format may turn `self` into `after`.
    open spec fn resets(self, sample_rate: u32, channels: u16, after: Self) -> bool {
        arbitrary()
    }

    /// Process a single sample.
    ///
    /// `channel` is the channel index (0-based) of the sample in the current
    /// interleaved frame.
    fn process_sample(&mut self, sample: Single, channel: usize) -> (out: Single)
        ensures
            old(self).processes(sample, channel, *final(self), out),
    ;

    /// Called when the stream format changes (sample rate or channel count).
    ///
    /// An empty body is right for stateless or rate-agnostic effects.
    fn reset(&mut self, sample_rate: u32, channels: u16)
        ensures
            old(self).resets(sample_rate, channels, *final(self)),
    ;

    /// Human-readable name, useful for debugging and serialisation.
    fn name(&self) -> (r: &'static str)
        ensures
            r@ == self.label(),
    ;
}

// ── Built-in processors ───────────────────────────────────────────────────────

/// The filters that a channel's chain can hold, one of each kind.  The gain of
/// a kind that has one is in decibels.
#[derive(Clone, Copy, Debug, PartialEq, Eq, Structural)]
pub enum FilterType {
    PeakingEQ(Single),
    LowShelf(Single),
    HighShelf(Single),
    BandPass,
    LowPass,
    HighPass,
    Notch,
}

impl FilterType {
    pub open spec fn name(self) -> Seq<char> {
        match self {
            FilterType::PeakingEQ(_) => "PeakEQ"@,
            FilterType::LowShelf(_) => "LowShelf"@,
            FilterType::HighShelf(_) => "HighShelf"@,
            FilterType::BandPass => "BandPass"@,
            FilterType::LowPass => "LowPass"@,
            FilterType::HighPass => "HighPass"@,
            FilterType::Notch => "Notch"@,
        }
    }

    /// The name that a filter of this kind has in a chain.
    pub fn label(self) -> (r: &'static str)
        ensures
            r@ == self.name(),
    {
        match self {
            FilterType::PeakingEQ(_) => "PeakEQ",
            FilterType::LowShelf(_) => "LowShelf",
            FilterType::HighShelf(_) => "HighShelf",
            FilterType::BandPass => "BandPass",
            FilterType::LowPass => "LowPass",
            FilterType::HighPass => "HighPass",
            FilterType::Notch => "Notch",
        }
    }
}

/// A second-order filter in operation, supplied by the embedding program.
///
/// As with [`AudioMath`], no method carries a contract.
pub trait FilterCore: Sized + Send + 'static {
    /// The coefficients of a filter.
    type Coeffs: Copy + Send + 'static;

    /// The coefficients of a filter of kind `kind` at `cutoff_hz` with the
    /// quality factor `q`, where there are any.
    fn design(kind: FilterType, sample_rate: u32, cutoff_hz: Single, q: Single) -> Option<Self::Coeffs>;

    /// A filter that has not seen a sample yet.
    fn start(coeffs: Self::Coeffs) -> Self;

    /// The filter after it has turned `sample` into the sample returned.
    fn run(self, sample: Single) -> (Self, Single);
}

/// A single biquad filter with one coefficient set.
pub struct BiquadFilter<B: FilterCore> {
    pub filter: Option<B>,
    pub coeffs: B::Coeffs,
    pub label: &'static str,
}

/// Whether `filter` is a new filter with the coefficients `coeffs`, named
/// `name`.
pub open spec fn is_new_filter<B: FilterCore>(coeffs: B::Coeffs, name: Seq<char>, filter: BiquadFilter<B>) -> bool {
    &&& filter.filter is Some
    &&& call_ensures(B::start, (coeffs,), filter.filter->0)
    &&& filter.coeffs == coeffs
    &&& filter.label@ == name
}

impl<B: FilterCore> BiquadFilter<B> {
    pub fn new(coeffs: B::Coeffs, label: &'static str) -> (r: Self)
        ensures
            is_new_filter(coeffs, label@, r),
            r.label == label,
    {
        BiquadFilter { filter: Some(B::start(coeffs)), coeffs, label }
    }
}

impl<B: FilterCore> AudioProcessor for BiquadFilter<B> {
    open spec fn label(&self) -> Seq<char> {
        self.label@
    }

    open spec fn processes(self, sample: Single, channel: usize, after: Self, out: Single) -> bool {
        match self.filter {
            Some(f) => {
                &&& after.filter is Some
                &&& call_ensures(B::run, (f, sample), (after.filter->0, out))
                &&& after == BiquadFilter { filter: after.filter, ..self }
            },
            None => after == self && out == sample,
        }
    }

    open spec fn resets(self, sample_rate: u32, channels: u16, after: Self) -> bool {
        is_new_filter(self.coeffs, self.label@, after) && after.label == self.label
    }

    fn process_sample(&mut self, sample: Single, channel: usize) -> (out: Single) {
        match self.filter.take() {
            Some(f) => {
                let (next, out) = f.run(sample);
                self.filter = Some(next);
                out
            },
            None => sample,
        }
    }

    /// Re-initialises the state and keeps the coefficients.
    fn reset(&mut self, sample_rate: u32, channels: u16) {
        self.filter = Some(B::start(self.coeffs));
    }

    fn name(&self) -> (r: &'static str) {
        self.label
    }
}

/// A linear gain / volume node.
pub struct GainNode<M: AudioMath> {
    /// Linear gain factor; one is unity.
    pub gain: Single,
    pub math: PhantomData<M>,
}

impl<M: AudioMath> GainNode<M> {
    pub fn new(gain: Single) -> (r: Self)
        ensures
            r.gain == gain,
    {
        GainNode { gain, math: PhantomData }
    }
}

impl<M: AudioMath + Send + 'static> AudioProcessor for GainNode<M> {
    open spec fn label(&self) -> Seq<char> {
        "GainNode"@
    }

    open spec fn processes(self, sample: Single, channel: usize, after: Self, out: Single) -> bool {
        after == self && call_ensures(M::scale, (sample, self.gain), out)
    }

    open spec fn resets(self, sample_rate: u32, channels: u16, after: Self) -> bool {
        after == self
    }

    fn process_sample(&mut self, sample: Single, channel: usize) -> (out: Single) {
        M::scale(sample, self.gain)
    }

    fn reset(&mut self, sample_rate: u32, channels: u16) {
    }

    fn name(&self) -> (r: &'static str) {
        "GainNode"
    }
}

// ── Convenience constructors for the most common biquad types ─────────────────

/// Whether `filter` may be the new filter of kind `kind` at `cutoff_hz` with
/// the quality factor `q`; `None` where there are no such coefficients.
pub open spec fn is_designed<B: FilterCore>(
    kind: FilterType,
    sample_rate: u32,
    cutoff_hz: Single,
    q: Single,
    filter: Option<BiquadFilter<B>>,
) -> bool {
    match filter {
        Some(f) => call_ensures(B::design, (kind, sample_rate, cutoff_hz, q), Some(f.coeffs)) && is_new_filter(
            f.coeffs,
            kind.name(),
            f,
        ),
        None => call_ensures(B::design, (kind, sample_rate, cutoff_hz, q), None::<B::Coeffs>),
    }
}

/// Build a biquad filter, or return `None` if its parameters allow none.
pub fn make_biquad<B: FilterCore>(kind: FilterType, sample_rate: u32, cutoff_hz: Single, q: Single) -> (r: Option<
    BiquadFilter<B>,
>)
    ensures
        is_designed(kind, sample_rate, cutoff_hz, q, r),
{
    match B::design(kind, sample_rate, cutoff_hz, q) {
        Some(coeffs) => Some(BiquadFilter::new(coeffs, kind.label())),
        None => None,
    }
}

/// Build a peaking-EQ filter (`gain_db` at `cutoff_hz`).
pub fn peak_filter<B: FilterCore>(sample_rate: u32, cutoff_hz: Single, gain_db: Single, q: Single) -> (r: Option<BiquadFilter<B>>)
    ensures
        is_designed(FilterType::PeakingEQ(gain_db), sample_rate, cutoff_hz, q, r),
{
    make_biquad(FilterType::PeakingEQ(gain_db), sample_rate, cutoff_hz, q)
}

/// Build a low-shelf filter.
pub fn low_shelf_filter<B: FilterCore>(sample_rate: u32, cutoff_hz: Single, gain_db: Single, q: Single) -> (r: Option<BiquadFilter<B>>)
    ensures
        is_designed(FilterType::LowShelf(gain_db), sample_rate, cutoff_hz, q, r),
{
    make_biquad(FilterType::LowShelf(gain_db), sample_rate, cutoff_hz, q)
}

/// Build a high-shelf filter.
pub fn high_shelf_filter<B: FilterCore>(sample_rate: u32, cutoff_hz: Single, gain_db: Single, q: Single) -> (r: Option<BiquadFilter<B>>)
    ensures
        is_designed(FilterType::HighShelf(gain_db), sample_rate, cutoff_hz, q, r),
{
    make_biquad(FilterType::HighShelf(gain_db), sample_rate, cutoff_hz, q)
}

/// Build a second-order band-pass filter.
pub fn band_pass_filter<B: FilterCore>(sample_rate: u32, cutoff_hz: Single, q: Single) -> (r: Option<BiquadFilter<B>>)
    ensures
        is_designed(FilterType::BandPass, sample_rate, cutoff_hz, q, r),
{
    make_biquad(FilterType::BandPass, sample_rate, cutoff_hz, q)
}

/// Build a notch (band-reject) filter.
pub fn notch_filter<B: FilterCore>(sample_rate: u32, cutoff_hz: Single, q: Single) -> (r: Option<BiquadFilter<B>>)
    ensures
        is_designed(FilterType::Notch, sample_rate, cutoff_hz, q, r),
{
    make_biquad(FilterType::Notch, sample_rate, cutoff_hz, q)
}

/// Build a second-order low-pass filter.
pub fn lowpass_filter<B: FilterCore>(sample_rate: u32, cutoff_hz: Single, q: Single) -> (r: Option<BiquadFilter<B>>)
    ensures
        is_designed(FilterType::LowPass, sample_rate, cutoff_hz, q, r),
{
    make_biquad(FilterType::LowPass, sample_rate, cutoff_hz, q)
}

/// Build a second-order high-pass filter.
pub fn highpass_filter<B: FilterCore>(sample_rate: u32, cutoff_hz: Single, q: Single) -> (r: Option<BiquadFilter<B>>)
    ensures
        is_designed(FilterType::HighPass, sample_rate, cutoff_hz, q, r),
{
    make_biquad(FilterType::HighPass, sample_rate, cutoff_hz, q)
}

// ── Effects chain ─────────────────────────────────────────────────────────────

/// An ordered chain of [`AudioProcessor`] instances applied to a single
/// output channel, in insertion order.
pub struct Effects<P> {
    pub chain: Vec<P>,
}

/// The names of a chain, in order.
pub open spec fn labels<P: AudioProcessor>(chain: Seq<P>) -> Seq<Seq<char>> {
    Seq::new(chain.len(), |i: int| chain[i].label())
}

/// The chain after its first processor named `name` has left.
pub open spec fn without_first<P: AudioProcessor>(chain: Seq<P>, name: Seq<char>) -> Seq<P> {
    if labels(chain).contains(name) {
        chain.remove(labels(chain).index_of_first(name)->0)
    } else {
        chain
    }
}

/// Whether `wire` carries a sample through the processors of `before` in
/// order: `wire[i]` enters processor `i` and `wire[i + 1]` leaves it, and
/// `after` holds the processors as they are then.
pub open spec fn carries<P: AudioProcessor>(
    before: Seq<P>,
    channel: usize,
    after: Seq<P>,
    wire: Seq<Single>,
) -> bool {
    &&& after.len() == before.len()
    &&& wire.len() == before.len() + 1
    &&& forall|i: int|
        0 <= i < before.len() ==> before[i].processes(#[trigger] wire[i], channel, after[i], wire[i + 1])
}

/// Whether sending `sample` through the chain `before` may leave the chain
/// `after` and give `out`.
pub open spec fn chain_processes<P: AudioProcessor>(
    before: Seq<P>,
    sample: Single,
    channel: usize,
    after: Seq<P>,
    out: Single,
) -> bool {
    exists|wire: Seq<Single>| #[trigger]
        carries(before, channel, after, wire) && wire[0] == sample && wire.last() == out
}

impl<P: AudioProcessor> Effects<P> {
    /// Create an empty effect chain (no processing → unity gain).
    pub fn new() -> (r: Self)
        ensures
            r.chain@ == Seq::<P>::empty(),
    {
        Effects { chain: Vec::new() }
    }

    /// Append a new processor to the end of the chain.
    pub fn push(&mut self, processor: P)
        ensures
            final(self).chain@ == old(self).chain@.push(processor),
    {
        self.chain.push(processor);
    }

    /// Remove all processors, restoring bypass mode.
    pub fn clear(&mut self)
        ensures
            final(self).chain@ == Seq::<P>::empty(),
    {
        self.chain.clear();
    }

    /// Remove the first processor with the given name.
    /// Returns `true` if one was removed.
    pub fn remove_named(&mut self, name: &str) -> (r: bool)
        ensures
            r == labels(old(self).chain@).contains(name@),
            final(self).chain@ == without_first(old(self).chain@, name@),
    {
        let n: usize = self.chain.len();
        let mut i: usize = 0;
        while i < n
            invariant
                i <= n,
                n == self.chain@.len(),
                self.chain@ == old(self).chain@,
                forall|k: int| 0 <= k < i ==> labels(self.chain@)[k] != name@,
            decreases n - i,
        {
            if same_text(self.chain[i].name(), name) {
                proof {
                    let all = labels(self.chain@);
                    assert(all[i as int] == name@);
                    all.index_of_first_ensures(name@);
                }
                self.chain.remove(i);
                return true;
            }
            i = i + 1;
        }
        false
    }

    /// Whether the chain is empty (pure bypass).
    pub fn is_empty(&self) -> (r: bool)
        ensures
            r == (self.chain@.len() == 0),
    {
        self.chain.len() == 0
    }

    /// Process a single sample through the full chain.
    pub fn process(&mut self, sample: Single, channel: usize) -> (r: Single)
        ensures
            chain_processes(old(self).chain@, sample, channel, final(self).chain@, r),
    {
        let mut s = sample;
        let n: usize = self.chain.len();
        let ghost mut wire = seq![sample];
        let mut i: usize = 0;
        while i < n
            invariant
                i <= n,
                n == self.chain@.len() == old(self).chain@.len(),
                wire.len() == i + 1,
                wire[0] == sample,
                wire.last() == s,
                forall|k: int|
                    0 <= k < i ==> old(self).chain@[k].processes(
                        #[trigger] wire[k],
                        channel,
                        self.chain@[k],
                        wire[k + 1],
                    ),
                forall|k: int| i <= k < n ==> self.chain@[k] == old(self).chain@[k],
            decreases n - i,
        {
            s = self.chain[i].process_sample(s, channel);
            proof {
                wire = wire.push(s);
            }
            i = i + 1;
        }
        assert(carries(old(self).chain@, channel, self.chain@, wire));
        s
    }

    /// Propagate a format change to every processor in the chain.
    pub fn reset_all(&mut self, sample_rate: u32, channels: u16)
        ensures
            final(self).chain@.len() == old(self).chain@.len(),
            forall|i: int|
                0 <= i < old(self).chain@.len() ==> (#[trigger] old(self).chain@[i]).resets(
                    sample_rate,
                    channels,
                    final(self).chain@[i],
                ),
    {
        let n: usize = self.chain.len();
        let mut i: usize = 0;
        while i < n
            invariant
                i <= n,
                n == self.chain@.len() == old(self).chain@.len(),
                forall|k: int|
                    0 <= k < i ==> (#[trigger] old(self).chain@[k]).resets(sample_rate, channels, self.chain@[k]),
                forall|k: int| i <= k < n ==> self.chain@[k] == old(self).chain@[k],
            decreases n - i,
        {
            self.chain[i].reset(sample_rate, channels);
            i = i + 1;
        }
    }
}

impl<P: AudioProcessor> Default for Effects<P> {
    fn default() -> (r: Self)
        ensures
            r.chain@ == Seq::<P>::empty(),
    {
        Effects::new()
    }
}

} // verus!
