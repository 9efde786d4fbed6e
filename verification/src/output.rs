//! Filling the device's buffers.
//!
//! Each function is the body of an audio callback for one sample format.  Where
//! the shared state cannot be locked, the callback fills its buffer with
//! [`SILENT_SIGNED`] or [`SILENT_UNSIGNED`], or with zeros, instead.

use crate::effects::AudioProcessor;
use crate::ieee::Single;
use crate::math::AudioMath;
use crate::player_state::SharedPlayback;
use vstd::prelude::*;

verus! {

/// Silence in the signed 16-bit format.
pub const SILENT_SIGNED: i16 = 0;

/// Silence in the unsigned 16-bit format.
pub const SILENT_UNSIGNED: u16 = 32767;

/// Whether `states` lead from `states[0]` to the last state, one emitted sample
/// per step.
pub open spec fn emits<M: AudioMath, P: AudioProcessor>(
    states: Seq<SharedPlayback<P>>,
    samples: Seq<Single>,
) -> bool {
    &&& states.len() == samples.len() + 1
    &&& forall|i: int|
        0 <= i < samples.len() ==> crate::player_state::next_step::<M, P>(
            states[i],
            states[i + 1],
            #[trigger] samples[i],
        )
}

/// Whether `samples` may be the next samples of `before`, which becomes `after`.
pub open spec fn plays<M: AudioMath, P: AudioProcessor>(
    before: SharedPlayback<P>,
    samples: Seq<Single>,
    after: SharedPlayback<P>,
) -> bool {
    exists|states: Seq<SharedPlayback<P>>| #[trigger]
        emits::<M, P>(states, samples) && states[0] == before && states.last() == after
}

/// Fills a buffer of binary32 samples.
pub fn write_output_f32<M: AudioMath, P: AudioProcessor>(data: &mut [Single], shared: &mut SharedPlayback<P>)
    ensures
        final(data)@.len() == old(data)@.len(),
        plays::<M, P>(*old(shared), final(data)@, *final(shared)),
        old(shared).well_formed() ==> final(shared).well_formed(),
{
    let n: usize = data.len();
    let ghost mut states = seq![*shared];
    let mut i: usize = 0;
    while i < n
        invariant
            i <= n,
            n == data@.len() == old(data)@.len(),
            emits::<M, P>(states, data@.take(i as int)),
            states[0] == *old(shared),
            states.last() == *shared,
            old(shared).well_formed() ==> shared.well_formed(),
        decreases n - i,
    {
        let ghost earlier = data@.take(i as int);
        let sample = shared.next_sample::<M>();
        data[i] = sample;
        proof {
            assert(data@.take(i + 1) =~= earlier.push(sample));
            states = states.push(*shared);
        }
        i = i + 1;
    }
    assert(data@.take(n as int) =~= data@);
}

/// Fills a buffer of signed 16-bit samples.
pub fn write_output_i16<M: AudioMath, P: AudioProcessor>(data: &mut [i16], shared: &mut SharedPlayback<P>)
    ensures
        final(data)@.len() == old(data)@.len(),
        exists|samples: Seq<Single>| #[trigger]
            plays::<M, P>(*old(shared), samples, *final(shared)) && samples.len() == final(data)@.len() && forall|
                i: int,
            |
                0 <= i < samples.len() ==> call_ensures(M::to_signed, (samples[i],), #[trigger] final(data)@[i]),
        old(shared).well_formed() ==> final(shared).well_formed(),
{
    let n: usize = data.len();
    let ghost mut states = seq![*shared];
    let ghost mut samples = Seq::<Single>::empty();
    let mut i: usize = 0;
    while i < n
        invariant
            i <= n,
            n == data@.len() == old(data)@.len(),
            samples.len() == i,
            emits::<M, P>(states, samples),
            states[0] == *old(shared),
            states.last() == *shared,
            forall|k: int| 0 <= k < i ==> call_ensures(M::to_signed, (samples[k],), #[trigger] data@[k]),
            old(shared).well_formed() ==> shared.well_formed(),
        decreases n - i,
    {
        let sample = shared.next_sample::<M>();
        data[i] = M::to_signed(sample);
        proof {
            samples = samples.push(sample);
            states = states.push(*shared);
        }
        i = i + 1;
    }
    assert(plays::<M, P>(*old(shared), samples, *shared));
}

/// Fills a buffer of unsigned 16-bit samples.
pub fn write_output_u16<M: AudioMath, P: AudioProcessor>(data: &mut [u16], shared: &mut SharedPlayback<P>)
    ensures
        final(data)@.len() == old(data)@.len(),
        exists|samples: Seq<Single>| #[trigger]
            plays::<M, P>(*old(shared), samples, *final(shared)) && samples.len() == final(data)@.len() && forall|
                i: int,
            |
                0 <= i < samples.len() ==> call_ensures(M::to_unsigned, (samples[i],), #[trigger] final(data)@[i]),
        old(shared).well_formed() ==> final(shared).well_formed(),
{
    let n: usize = data.len();
    let ghost mut states = seq![*shared];
    let ghost mut samples = Seq::<Single>::empty();
    let mut i: usize = 0;
    while i < n
        invariant
            i <= n,
            n == data@.len() == old(data)@.len(),
            samples.len() == i,
            emits::<M, P>(states, samples),
            states[0] == *old(shared),
            states.last() == *shared,
            forall|k: int| 0 <= k < i ==> call_ensures(M::to_unsigned, (samples[k],), #[trigger] data@[k]),
            old(shared).well_formed() ==> shared.well_formed(),
        decreases n - i,
    {
        let sample = shared.next_sample::<M>();
        data[i] = M::to_unsigned(sample);
        proof {
            samples = samples.push(sample);
            states = states.push(*shared);
        }
        i = i + 1;
    }
    assert(plays::<M, P>(*old(shared), samples, *shared));
}

} // verus!
