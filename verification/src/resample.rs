//! Conversion of decoded packets to the device's rate and channel count.

use crate::ieee::{Double, Single};
use crate::math::{AudioMath, Tap};
use crate::player_state::ResampleState;
use vstd::arithmetic::div_mod::{lemma_fundamental_div_mod, lemma_fundamental_div_mod_converse};
use vstd::prelude::*;
use vstd::slice::slice_subrange;

verus! {

/// Frame `i` of interleaved samples with `channels` samples per frame.
pub open spec fn frame_at(samples: Seq<Single>, channels: int, i: int) -> Seq<Single> {
    samples.subrange(i * channels, i * channels + channels)
}

/// Whether `r` is what output channel `out_channel` of `out_channels` plays of
/// a source frame: the mean of all its channels on a mono device, else the
/// channel of the same number, or the last one there is.
pub open spec fn picks<M: AudioMath>(
    frame: Seq<Single>,
    out_channel: int,
    out_channels: int,
    r: Single,
) -> bool {
    if frame.len() == 0 {
        r == crate::ieee::silent()
    } else if out_channels == 1 && frame.len() > 1 {
        exists|mixed: &[Single]| mixed@ == frame && #[trigger] call_ensures(M::mix, (mixed,), r)
    } else if out_channel < frame.len() {
        r == frame[out_channel]
    } else {
        r == frame.last()
    }
}

/// Select the correct source sample for a given output channel.
///
/// Handles mono→stereo up-mix, stereo→mono down-mix, and channel remapping.
pub fn source_frame_sample<M: AudioMath>(
    frames: &[Single],
    src_channels: usize,
    frame: usize,
    out_channel: usize,
    out_channels: usize,
) -> (r: Single)
    requires
        frame * src_channels + src_channels <= frames@.len(),
    ensures
        picks::<M>(frame_at(frames@, src_channels as int, frame as int), out_channel as int, out_channels as int, r),
{
    if src_channels == 0 {
        return Single { bits: 0 };
    }
    let total: usize = frames.len();
    assert(frame * src_channels <= total) by (nonlinear_arith)
        requires
            frame * src_channels + src_channels <= total,
    ;
    let base: usize = frame * src_channels;
    let ghost picked = frame_at(frames@, src_channels as int, frame as int);
    if out_channels == 1 && src_channels > 1 {
        let mixed = slice_subrange(frames, base, base + src_channels);
        assert(mixed@ == picked);
        return M::mix(mixed);
    }
    if src_channels == 1 {
        assert(picked[0] == frames@[base as int]);
        return frames[base];
    }
    let index: usize = if out_channel < src_channels - 1 { out_channel } else { src_channels - 1 };
    assert(picked[index as int] == frames@[base + index]);
    frames[base + index]
}

/// Whether `r` is output channel `out_channel` of `out_channels` read at `tap`
/// from source frames; a tap beyond the last pair of frames reads that pair.
pub open spec fn reads<M: AudioMath>(
    frames: Seq<Single>,
    src_channels: int,
    tap: Tap,
    out_channel: int,
    out_channels: int,
    r: Single,
) -> bool {
    let total = frames.len() as int / src_channels;
    let index = if tap.index < total - 2 {
        tap.index as int
    } else {
        total - 2
    };
    exists|left: Single, right: Single|
        picks::<M>(frame_at(frames, src_channels, index), out_channel, out_channels, left) && picks::<M>(
            frame_at(frames, src_channels, index + 1),
            out_channel,
            out_channels,
            right,
        ) && #[trigger] call_ensures(M::interpolate, (left, right, tap.fraction), r)
}

/// Whether the taps `taps` read `out` from source frames: tap after tap, and
/// for each tap one sample per output channel.
pub open spec fn renders<M: AudioMath>(
    frames: Seq<Single>,
    src_channels: int,
    taps: Seq<Tap>,
    out_channels: int,
    out: Seq<Single>,
) -> bool {
    &&& out.len() == taps.len() * out_channels
    &&& forall|j: int|
        0 <= j < out.len() ==> reads::<M>(
            frames,
            src_channels,
            taps[j / out_channels],
            j % out_channels,
            out_channels,
            #[trigger] out[j],
        )
}

/// Whether `place` has a frame to its right among `frames` frames, is taken
/// apart to `tap`, and is followed by the place `next`.
pub open spec fn hops<M: AudioMath>(
    frames: usize,
    src_rate: u32,
    out_rate: u32,
    place: Double,
    tap: Tap,
    next: Double,
) -> bool {
    &&& call_ensures(M::has_right, (frames, place), true)
    &&& call_ensures(M::split, (place,), tap)
    &&& call_ensures(M::step, (place, src_rate, out_rate), next)
}

/// Whether `places` are the positions at which `frames` source frames are read
/// to turn the rate `src_rate` into `out_rate`, followed by the position that
/// comes next, and `taps` are these positions taken apart.
///
/// Reading ends at the first position without a frame to its right, or where the
/// position does not grow any more.
pub open spec fn walks<M: AudioMath>(
    frames: usize,
    src_rate: u32,
    out_rate: u32,
    places: Seq<Double>,
    taps: Seq<Tap>,
) -> bool {
    &&& places.len() == taps.len() + 1
    &&& forall|i: int|
        0 <= i < taps.len() ==> hops::<M>(frames, src_rate, out_rate, places[i], #[trigger] taps[i], places[i + 1])
    &&& forall|i: int| 0 < i < taps.len() ==> places[i - 1].rank() < (#[trigger] places[i]).rank()
    &&& call_ensures(M::has_right, (frames, places.last()), false) || (taps.len() > 0 && places.last().rank()
        <= places[taps.len() - 1].rank())
}

/// Whether reading from `pos` on has the taps `taps` and goes on, in the next
/// packet, at `next_pos`, which counts from the last of the `frames` frames.
pub open spec fn taps_from<M: AudioMath>(
    frames: usize,
    pos: Double,
    src_rate: u32,
    out_rate: u32,
    taps: Seq<Tap>,
    next_pos: Double,
) -> bool {
    exists|places: Seq<Double>| #[trigger]
        walks::<M>(frames, src_rate, out_rate, places, taps) && places[0] == pos && call_ensures(
            M::rebase,
            (places.last(), (frames - 1) as usize),
            next_pos,
        )
}

/// The places at which `frames` source frames are read from `position` on, and
/// the position at which the next packet is read.
fn find_taps<M: AudioMath>(frames: usize, position: Double, src_rate: u32, out_rate: u32) -> (r: (Vec<Tap>, Double))
    requires
        frames > 0,
    ensures
        taps_from::<M>(frames, position, src_rate, out_rate, r.0@, r.1),
{
    let mut taps: Vec<Tap> = Vec::new();
    let mut pos = position;
    let mut grows: bool = true;
    let mut inside: bool = M::has_right(frames, pos);
    let ghost mut places = seq![position];
    while inside && grows
        invariant
            places.len() == taps@.len() + 1,
            places[0] == position,
            places.last() == pos,
            forall|i: int|
                0 <= i < taps@.len() ==> hops::<M>(
                    frames,
                    src_rate,
                    out_rate,
                    places[i],
                    #[trigger] taps@[i],
                    places[i + 1],
                ),
            forall|i: int| 0 < i < taps@.len() ==> places[i - 1].rank() < (#[trigger] places[i]).rank(),
            grows && taps@.len() > 0 ==> places[taps@.len() - 1].rank() < pos.rank(),
            grows ==> call_ensures(M::has_right, (frames, pos), inside),
            !grows ==> taps@.len() > 0 && pos.rank() <= places[taps@.len() - 1].rank(),
        decreases (if grows { 1int } else { 0int }), crate::ieee::DOUBLE_SIGN_BIT - pos.rank(),
    {
        let tap = M::split(pos);
        taps.push(tap);
        let next = M::step(pos, src_rate, out_rate);
        grows = pos.precedes(next);
        pos = next;
        proof {
            places = places.push(pos);
        }
        inside = grows && M::has_right(frames, pos);
    }
    assert(walks::<M>(frames, src_rate, out_rate, places, taps@));
    (taps, M::rebase(pos, frames - 1))
}

/// Whether converting the packet `packet` may give `out` and turn the resampler
/// from position `pos` and carry `carry` to `next_pos` and `next_carry`.
///
/// The packet is read behind the carry.  With fewer than two frames everything
/// is carried on; otherwise the last whole frame is.
pub open spec fn converts<M: AudioMath>(
    packet: Seq<Single>,
    src_channels: usize,
    src_rate: u32,
    out_channels: usize,
    out_rate: u32,
    pos: Double,
    carry: Seq<Single>,
    next_pos: Double,
    next_carry: Seq<Single>,
    out: Seq<Single>,
) -> bool {
    let frames = carry + packet;
    let total = frames.len() as int / src_channels as int;
    if src_channels == 0 || out_channels == 0 || src_rate == 0 || out_rate == 0 {
        out == Seq::<Single>::empty() && next_pos == pos && next_carry == carry
    } else if total < 2 {
        out == Seq::<Single>::empty() && next_pos == pos && next_carry == frames
    } else {
        &&& next_carry == frame_at(frames, src_channels as int, total - 1)
        &&& exists|taps: Seq<Tap>| #[trigger]
            taps_from::<M>(total as usize, pos, src_rate, out_rate, taps, next_pos) && renders::<M>(
                frames,
                src_channels as int,
                taps,
                out_channels as int,
                out,
            )
    }
}

/// Resample `src_interleaved` from `src_rate` to `out_rate` using linear
/// interpolation, remapping from `src_channels` to `out_channels`.
///
/// Fractional position and boundary carry samples are threaded through
/// `state` across calls so there are no inter-packet discontinuities.
pub fn convert_to_output<M: AudioMath>(
    src_interleaved: &[Single],
    src_channels: usize,
    src_rate: u32,
    out_channels: usize,
    out_rate: u32,
    state: &mut ResampleState,
) -> (out: Vec<Single>)
    requires
        old(state).carry@.len() + src_interleaved@.len() <= usize::MAX,
    ensures
        converts::<M>(
            src_interleaved@,
            src_channels,
            src_rate,
            out_channels,
            out_rate,
            old(state).pos,
            old(state).carry@,
            final(state).pos,
            final(state).carry@,
            out@,
        ),
{
    if src_channels == 0 || out_channels == 0 || src_rate == 0 || out_rate == 0 {
        return Vec::new();
    }
    let mut frames: Vec<Single> = Vec::new();
    frames.extend_from_slice(state.carry.as_slice());
    frames.extend_from_slice(src_interleaved);
    assert(frames@ =~= old(state).carry@ + src_interleaved@);
    let total_frames: usize = frames.len() / src_channels;
    if total_frames < 2 {
        state.carry = frames;
        return Vec::new();
    }
    let (taps, next_pos) = find_taps::<M>(total_frames, state.pos, src_rate, out_rate);
    let mut out: Vec<Single> = Vec::new();
    proof {
        lemma_fundamental_div_mod(frames@.len() as int, src_channels as int);
    }
    let mut t: usize = 0;
    while t < taps.len()
        invariant
            t <= taps@.len(),
            src_channels > 0,
            out_channels > 0,
            total_frames >= 2,
            total_frames == frames@.len() as int / src_channels as int,
            total_frames * src_channels <= frames@.len(),
            out@.len() == t * out_channels,
            forall|j: int|
                0 <= j < out@.len() ==> reads::<M>(
                    frames@,
                    src_channels as int,
                    taps@[j / out_channels as int],
                    j % out_channels as int,
                    out_channels as int,
                    #[trigger] out@[j],
                ),
        decreases taps@.len() - t,
    {
        let tap = taps[t];
        let index: usize = if tap.index < total_frames - 2 { tap.index } else { total_frames - 2 };
        assert(index * src_channels + src_channels <= frames@.len() && (index + 1) * src_channels + src_channels
            <= frames@.len()) by (nonlinear_arith)
            requires
                index + 2 <= total_frames,
                total_frames * src_channels <= frames@.len(),
        ;
        let mut ch: usize = 0;
        while ch < out_channels
            invariant
                ch <= out_channels,
                t < taps@.len(),
                tap == taps@[t as int],
                src_channels > 0,
                out_channels > 0,
                total_frames >= 2,
                total_frames == frames@.len() as int / src_channels as int,
                index == if tap.index < total_frames - 2 { tap.index as int } else { total_frames - 2 },
                index * src_channels + src_channels <= frames@.len(),
                (index + 1) * src_channels + src_channels <= frames@.len(),
                out@.len() == t * out_channels + ch,
                forall|j: int|
                    0 <= j < out@.len() ==> reads::<M>(
                        frames@,
                        src_channels as int,
                        taps@[j / out_channels as int],
                        j % out_channels as int,
                        out_channels as int,
                        #[trigger] out@[j],
                    ),
            decreases out_channels - ch,
        {
            let left = source_frame_sample::<M>(frames.as_slice(), src_channels, index, ch, out_channels);
            let right = source_frame_sample::<M>(frames.as_slice(), src_channels, index + 1, ch, out_channels);
            let sample = M::interpolate(left, right, tap.fraction);
            proof {
                lemma_fundamental_div_mod_converse(out@.len() as int, out_channels as int, t as int, ch as int);
                assert(reads::<M>(
                    frames@,
                    src_channels as int,
                    tap,
                    ch as int,
                    out_channels as int,
                    sample,
                ));
            }
            out.push(sample);
            ch = ch + 1;
        }
        assert(t * out_channels + out_channels == (t + 1) * out_channels) by (nonlinear_arith);
        t = t + 1;
    }
    let keep_frame: usize = total_frames - 1;
    assert(keep_frame * src_channels + src_channels <= frames@.len()) by (nonlinear_arith)
        requires
            keep_frame + 1 == total_frames,
            total_frames * src_channels <= frames@.len(),
    ;
    let keep_base: usize = keep_frame * src_channels;
    state.carry.clear();
    state.carry.extend_from_slice(slice_subrange(frames.as_slice(), keep_base, keep_base + src_channels));
    assert(state.carry@ =~= frame_at(frames@, src_channels as int, keep_frame as int));
    state.pos = next_pos;
    out
}

} // verus!
