//! What converting packets to the device's format is for: every speaker plays
//! its own channel, at the right time and at the right speed.

use crate::continuity::{
    exact, is_count, is_sample, lemma_index, lemma_packet, lemma_quotient, repeatable, Grid,
};
use crate::decode::{asked_rate, converted_packet, playback_rate, DecodeAction, DecodeSession, PacketDecode};
use crate::enums::{MAX_RATE, MIN_RATE};
use crate::ieee::{Single, ONE};
use crate::math::{AudioMath, Tap};
use crate::player_state::ResampleState;
use crate::resample::{
    convert_to_output, converts, frame_at, hops, picks, reads, renders, source_frame_sample, taps_from, walks,
};
use vstd::arithmetic::div_mod::{lemma_fundamental_div_mod, lemma_fundamental_div_mod_converse};
use vstd::prelude::*;

verus! {

// ── Channels ──────────────────────────────────────────────────────────────────

/// A speaker plays the source channel of its number; a device with more channels
/// than the source plays the last channel on the others, and a source of one
/// channel is heard on all.  A mono device plays the mix of all channels.
pub proof fn speaker_plays_its_channel<M: AudioMath>(
    frames: &[Single],
    src_channels: usize,
    frame: usize,
    out_channel: usize,
    out_channels: usize,
    r: Single,
)
    requires
        frame * src_channels + src_channels <= frames@.len(),
        call_ensures(source_frame_sample::<M>, (frames, src_channels, frame, out_channel, out_channels), r),
    ensures
        src_channels == 0 ==> r.bits == 0,
        src_channels == 1 ==> r == frames@[frame as int],
        out_channels != 1 && out_channel < src_channels ==> r == frames@[frame * src_channels + out_channel],
        out_channels != 1 && 0 < src_channels <= out_channel ==> r == frames@[frame * src_channels + src_channels - 1],
        out_channels == 1 && src_channels > 1 ==> exists|mixed: &[Single]|
            mixed@.len() == src_channels && (forall|c: int|
                0 <= c < src_channels ==> #[trigger] mixed@[c] == frames@[frame * src_channels + c]) && #[trigger]
            call_ensures(M::mix, (mixed,), r),
{
    let ch = src_channels as int;
    let base = frame * src_channels;
    let picked = frame_at(frames@, ch, frame as int);
    assert(base >= 0) by (nonlinear_arith)
        requires
            base == frame * src_channels,
            frame >= 0,
            src_channels >= 0,
    ;
    if src_channels == 1 {
        assert(frame * src_channels == frame) by (nonlinear_arith)
            requires
                src_channels == 1,
        ;
    }
    assert forall|c: int| 0 <= c < ch implies #[trigger] picked[c] == frames@[base + c] by {}
}

/// What one speaker plays does not depend on the other channels of the source.
pub proof fn channels_keep_apart<M: AudioMath>(
    a: &[Single],
    b: &[Single],
    src_channels: usize,
    frame: usize,
    out_channel: usize,
    out_channels: usize,
    x: Single,
    y: Single,
)
    requires
        frame * src_channels + src_channels <= a@.len(),
        frame * src_channels + src_channels <= b@.len(),
        out_channel < out_channels,
        1 < out_channels <= src_channels,
        a@[frame * src_channels + out_channel] == b@[frame * src_channels + out_channel],
        call_ensures(source_frame_sample::<M>, (a, src_channels, frame, out_channel, out_channels), x),
        call_ensures(source_frame_sample::<M>, (b, src_channels, frame, out_channel, out_channels), y),
    ensures
        x == y,
{
    speaker_plays_its_channel::<M>(a, src_channels, frame, out_channel, out_channels, x);
    speaker_plays_its_channel::<M>(b, src_channels, frame, out_channel, out_channels, y);
}

// ── Time ──────────────────────────────────────────────────────────────────────

/// The source sample that channel `c` of the device hears of frame `i`.
pub open spec fn heard(frames: Seq<Single>, channels: int, i: int, c: int) -> Single {
    frames[i * channels + if c < channels { c } else { channels - 1 }]
}

proof fn lemma_pick_is_heard<M: AudioMath>(
    frames: Seq<Single>,
    channels: int,
    i: int,
    c: int,
    out_channels: int,
    x: Single,
)
    requires
        channels > 0,
        0 <= i,
        0 <= c < out_channels,
        (i + 1) * channels <= frames.len(),
        out_channels != 1 || channels == 1,
        picks::<M>(frame_at(frames, channels, i), c, out_channels, x),
    ensures
        x == heard(frames, channels, i, c),
{
    assert(0 <= i * channels && i * channels + channels == (i + 1) * channels) by (nonlinear_arith)
        requires
            channels > 0,
            i >= 0,
    ;
    let frame = frame_at(frames, channels, i);
    assert(frame.len() == channels);
}

pub(crate) proof fn lemma_follows_the_source<M: AudioMath>(
    g: Grid,
    packet: Seq<Single>,
    channels: usize,
    src_rate: u32,
    out_channels: usize,
    out_rate: u32,
    before: ResampleState,
    after: ResampleState,
    out: Seq<Single>,
    k: int,
    c: int,
)
    requires
        exact::<M>(g, src_rate, out_rate),
        converts::<M>(
            packet,
            channels,
            src_rate,
            out_channels,
            out_rate,
            before.pos,
            before.carry@,
            after.pos,
            after.carry@,
            out,
        ),
        channels > 0,
        out_channels > 0,
        src_rate > 0,
        out_rate > 0,
        out_channels != 1 || channels == 1,
        before.carry@.len() + packet.len() <= usize::MAX,
        g.covers(before.pos),
        ((before.carry@ + packet).len() as int / channels as int) * g.unit + g.hop <= g.limit,
        0 <= k,
        0 <= c < out_channels,
        k * out_channels + c < out.len(),
    ensures
        ({
            let frames = before.carry@ + packet;
            let place = (g.value)(before.pos) + k * g.hop;
            &&& 0 <= place
            &&& (place / g.unit + 2) * channels <= frames.len()
            &&& call_ensures(
                M::interpolate,
                (
                    heard(frames, channels as int, place / g.unit, c),
                    heard(frames, channels as int, place / g.unit + 1, c),
                    (g.fraction)(place % g.unit),
                ),
                out[k * out_channels + c],
            )
        }),
{
    let ch = channels as int;
    let width = out_channels as int;
    let frames = before.carry@ + packet;
    let total = frames.len() as int / ch;
    let v = (g.value)(before.pos);
    let j = k * out_channels + c;
    lemma_fundamental_div_mod(frames.len() as int, ch);
    assert(total <= frames.len() && total * ch <= frames.len()) by (nonlinear_arith)
        requires
            frames.len() == ch * total + frames.len() as int % ch,
            0 <= frames.len() as int % ch,
            ch >= 1,
            frames.len() >= 0,
    ;
    assert(0 <= j) by (nonlinear_arith)
        requires
            j == k * out_channels + c,
            k >= 0,
            c >= 0,
            out_channels > 0,
    ;
    assert(total >= 2);
    let n = lemma_packet::<M>(
        g,
        packet,
        channels,
        src_rate,
        out_channels,
        out_rate,
        before.pos,
        before.carry@,
        after.pos,
        after.carry@,
        out,
        frames,
        total,
    );
    lemma_fundamental_div_mod_converse(j, width, k, c);
    assert(is_sample::<M>(g, frames, ch, width, v, total, j, out[j]));
    lemma_index(g, v, k, total);
    let place = v + k * g.hop;
    let i = place / g.unit;
    assert(place >= 0) by (nonlinear_arith)
        requires
            place == v + k * g.hop,
            v >= 0,
            k >= 0,
            g.hop > 0,
    ;
    assert((i + 1) * ch <= total * ch && (i + 1 + 1) * ch <= total * ch) by (nonlinear_arith)
        requires
            i + 2 <= total,
            ch > 0,
    ;
    let fraction = (g.fraction)(place % g.unit);
    let (left, right) = choose|left: Single, right: Single|
        picks::<M>(frame_at(frames, ch, i), c, width, left) && picks::<M>(frame_at(frames, ch, i + 1), c, width, right)
            && #[trigger] call_ensures(M::interpolate, (left, right, fraction), out[j]);
    lemma_pick_is_heard::<M>(frames, ch, i, c, width, left);
    lemma_pick_is_heard::<M>(frames, ch, i + 1, c, width, right);
}

/// Output frame `k` is the source at the time of output frame `k`: between the
/// two source frames around that time, as far from the first as the time is, in
/// every channel on its own.
///
/// The device has more than one channel or the source only one.
pub proof fn output_follows_the_source_in_time<M: AudioMath>(
    g: Grid,
    packet: &[Single],
    channels: usize,
    src_rate: u32,
    out_channels: usize,
    out_rate: u32,
    state: &mut ResampleState,
    out: Vec<Single>,
    k: int,
    c: int,
)
    requires
        exact::<M>(g, src_rate, out_rate),
        call_ensures(
            convert_to_output::<M>,
            (packet, channels, src_rate, out_channels, out_rate, state),
            out,
        ),
        channels > 0,
        out_channels > 0,
        src_rate > 0,
        out_rate > 0,
        out_channels != 1 || channels == 1,
        old(state).carry@.len() + packet@.len() <= usize::MAX,
        g.covers(old(state).pos),
        ((old(state).carry@ + packet@).len() as int / channels as int) * g.unit + g.hop <= g.limit,
        0 <= k,
        0 <= c < out_channels,
        k * out_channels + c < out@.len(),
    ensures
        ({
            let frames = old(state).carry@ + packet@;
            let place = (g.value)(old(state).pos) + k * g.hop;
            &&& 0 <= place
            &&& (place / g.unit + 2) * channels <= frames.len()
            &&& call_ensures(
                M::interpolate,
                (
                    heard(frames, channels as int, place / g.unit, c),
                    heard(frames, channels as int, place / g.unit + 1, c),
                    (g.fraction)(place % g.unit),
                ),
                out@[k * out_channels + c],
            )
        }),
{
    lemma_follows_the_source::<M>(
        g,
        packet@,
        channels,
        src_rate,
        out_channels,
        out_rate,
        *old(state),
        *final(state),
        out@,
        k,
        c,
    );
}

/// On a mono device, output sample `k` lies between the mixes of all channels of
/// the two source frames around its time.
pub proof fn mono_device_hears_the_mix<M: AudioMath>(
    g: Grid,
    packet: &[Single],
    channels: usize,
    src_rate: u32,
    out_rate: u32,
    state: &mut ResampleState,
    out: Vec<Single>,
    k: int,
)
    requires
        exact::<M>(g, src_rate, out_rate),
        call_ensures(convert_to_output::<M>, (packet, channels, src_rate, 1usize, out_rate, state), out),
        channels > 1,
        src_rate > 0,
        out_rate > 0,
        old(state).carry@.len() + packet@.len() <= usize::MAX,
        g.covers(old(state).pos),
        ((old(state).carry@ + packet@).len() as int / channels as int) * g.unit + g.hop <= g.limit,
        0 <= k < out@.len(),
    ensures
        ({
            let frames = old(state).carry@ + packet@;
            let place = (g.value)(old(state).pos) + k * g.hop;
            let i = place / g.unit;
            exists|a: &[Single], b: &[Single], left: Single, right: Single|
                #![trigger call_ensures(M::mix, (a,), left), call_ensures(M::mix, (b,), right)]
                {
                    &&& a@ == frames.subrange(i * channels, (i + 1) * channels)
                    &&& b@ == frames.subrange((i + 1) * channels, (i + 2) * channels)
                    &&& call_ensures(M::mix, (a,), left)
                    &&& call_ensures(M::mix, (b,), right)
                    &&& call_ensures(M::interpolate, (left, right, (g.fraction)(place % g.unit)), out@[k])
                }
        }),
{
    let ch = channels as int;
    let frames = old(state).carry@ + packet@;
    let total = frames.len() as int / ch;
    let v = (g.value)(old(state).pos);
    lemma_fundamental_div_mod(frames.len() as int, ch);
    assert(total <= frames.len() && total * ch <= frames.len()) by (nonlinear_arith)
        requires
            frames.len() == ch * total + frames.len() as int % ch,
            0 <= frames.len() as int % ch,
            ch >= 1,
            frames.len() >= 0,
    ;
    assert(total >= 2);
    let n = lemma_packet::<M>(
        g,
        packet@,
        channels,
        src_rate,
        1,
        out_rate,
        old(state).pos,
        old(state).carry@,
        final(state).pos,
        final(state).carry@,
        out@,
        frames,
        total,
    );
    lemma_fundamental_div_mod_converse(k, 1, k, 0);
    assert(is_sample::<M>(g, frames, ch, 1, v, total, k, out@[k]));
    lemma_index(g, v, k, total);
    let place = v + k * g.hop;
    let i = place / g.unit;
    let fraction = (g.fraction)(place % g.unit);
    assert((i + 2) * ch <= total * ch && i * ch >= 0 && i * ch + ch == (i + 1) * ch && (i + 1) * ch + ch == (i + 2)
        * ch) by (nonlinear_arith)
        requires
            0 <= i,
            i + 2 <= total,
            ch > 0,
    ;
    let (left, right) = choose|left: Single, right: Single|
        picks::<M>(frame_at(frames, ch, i), 0, 1, left) && picks::<M>(frame_at(frames, ch, i + 1), 0, 1, right)
            && #[trigger] call_ensures(M::interpolate, (left, right, fraction), out@[k]);
    let a = choose|a: &[Single]| a@ == frame_at(frames, ch, i) && #[trigger] call_ensures(M::mix, (a,), left);
    let b = choose|b: &[Single]| b@ == frame_at(frames, ch, i + 1) && #[trigger] call_ensures(M::mix, (b,), right);
    assert(a@ == frames.subrange(i * ch, (i + 1) * ch));
    assert(b@ == frames.subrange((i + 1) * ch, (i + 2) * ch));
    assert(call_ensures(M::mix, (a,), left));
    assert(call_ensures(M::mix, (b,), right));
}

/// Whether the steps of `g` are those of turning `src_rate` into `out_rate`: so
/// many source frames pass per output frame as the rates say.
pub open spec fn true_to_rates(g: Grid, src_rate: u32, out_rate: u32) -> bool {
    g.hop * out_rate == src_rate * g.unit
}

/// A packet gives as many output frames as lie between its frames at the two
/// rates: frame `k` of them where `k` source periods at the output rate end
/// before the last source frame.
pub proof fn output_has_the_length_of_the_source<M: AudioMath>(
    g: Grid,
    packet: &[Single],
    channels: usize,
    src_rate: u32,
    out_channels: usize,
    out_rate: u32,
    state: &mut ResampleState,
    out: Vec<Single>,
    k: int,
)
    requires
        exact::<M>(g, src_rate, out_rate),
        true_to_rates(g, src_rate, out_rate),
        call_ensures(
            convert_to_output::<M>,
            (packet, channels, src_rate, out_channels, out_rate, state),
            out,
        ),
        channels > 0,
        out_channels > 0,
        src_rate > 0,
        out_rate > 0,
        old(state).carry@.len() == 0,
        (g.value)(old(state).pos) == 0,
        0 <= g.limit,
        packet@.len() <= usize::MAX,
        packet@.len() as int / channels as int >= 1,
        (packet@.len() as int / channels as int) * g.unit + g.hop <= g.limit,
        0 <= k,
    ensures
        out@.len() % out_channels as nat == 0,
        k < out@.len() as int / out_channels as int <==> k * src_rate < (packet@.len() as int / channels as int - 1)
            * out_rate,
{
    let ch = channels as int;
    let width = out_channels as int;
    let frames = old(state).carry@ + packet@;
    assert(frames =~= packet@);
    let total = frames.len() as int / ch;
    lemma_fundamental_div_mod(frames.len() as int, ch);
    assert(total <= frames.len()) by (nonlinear_arith)
        requires
            frames.len() == ch * total + frames.len() as int % ch,
            0 <= frames.len() as int % ch,
            ch >= 1,
            frames.len() >= 0,
    ;
    if total >= 2 {
        let n = lemma_packet::<M>(
            g,
            packet@,
            channels,
            src_rate,
            out_channels,
            out_rate,
            old(state).pos,
            old(state).carry@,
            final(state).pos,
            final(state).carry@,
            out@,
            frames,
            total,
        );
        lemma_fundamental_div_mod_converse(out@.len() as int, width, n, 0);
        lemma_count_in_rates(g, total, n, k, src_rate as int, out_rate as int);
    } else {
        lemma_fundamental_div_mod_converse(0, width, 0, 0);
        assert(0 * out_rate == 0 && k * src_rate >= 0) by (nonlinear_arith)
            requires
                k >= 0,
                src_rate > 0,
        ;
    }
}

/// The count of places from zero on, in terms of the rates.
proof fn lemma_count_in_rates(g: Grid, total: int, n: int, k: int, src_rate: int, out_rate: int)
    requires
        g.unit > 0,
        g.hop > 0,
        src_rate > 0,
        out_rate > 0,
        g.hop * out_rate == src_rate * g.unit,
        is_count(g, 0, total, n),
        k >= 0,
    ensures
        k < n <==> k * src_rate < (total - 1) * out_rate,
{
    let u = g.unit;
    let h = g.hop;
    assert(k * h < (total - 1) * u <==> k * src_rate < (total - 1) * out_rate) by (nonlinear_arith)
        requires
            h * out_rate == src_rate * u,
            u > 0,
            h > 0,
            src_rate > 0,
            out_rate > 0,
    {
        assert((k * h) * out_rate == (k * src_rate) * u);
        assert(((total - 1) * u) * out_rate == ((total - 1) * out_rate) * u);
        assert(k * h < (total - 1) * u <==> (k * h) * out_rate < ((total - 1) * u) * out_rate);
        assert(k * src_rate < (total - 1) * out_rate <==> (k * src_rate) * u < ((total - 1) * out_rate) * u);
    }
    assert((total - 1) * u + u == total * u) by (nonlinear_arith);
    if k < n {
        assert(k * h <= (n - 1) * h) by (nonlinear_arith)
            requires
                k <= n - 1,
                h > 0,
        ;
    } else {
        assert(n * h <= k * h) by (nonlinear_arith)
            requires
                n <= k,
                h > 0,
        ;
    }
}

/// Whether interpolating no way from one sample to another gives the first.
pub open spec fn starts_at_the_left<M: AudioMath>(g: Grid) -> bool {
    forall|left: Single, right: Single, x: Single| #[trigger]
        call_ensures(M::interpolate, (left, right, (g.fraction)(0)), x) ==> x == left
}

/// At equal rates and with as many channels as the device has, a packet passes
/// through unchanged: what comes out are its frames, but for the last one, which
/// waits for the next packet.
pub proof fn equal_formats_pass_through<M: AudioMath>(
    g: Grid,
    packet: &[Single],
    channels: usize,
    rate: u32,
    state: &mut ResampleState,
    out: Vec<Single>,
)
    requires
        exact::<M>(g, rate, rate),
        true_to_rates(g, rate, rate),
        starts_at_the_left::<M>(g),
        call_ensures(convert_to_output::<M>, (packet, channels, rate, channels, rate, state), out),
        channels > 0,
        rate > 0,
        old(state).carry@.len() == 0,
        (g.value)(old(state).pos) == 0,
        0 <= g.limit,
        packet@.len() <= usize::MAX,
        packet@.len() % channels as nat == 0,
        packet@.len() > 0,
        (packet@.len() as int / channels as int) * g.unit + g.hop <= g.limit,
    ensures
        out@ == packet@.take(packet@.len() - channels),
        final(state).carry@ == packet@.skip(packet@.len() - channels),
{
    let ch = channels as int;
    let frames = old(state).carry@ + packet@;
    assert(frames =~= packet@);
    let total = frames.len() as int / ch;
    lemma_fundamental_div_mod(frames.len() as int, ch);
    assert(frames.len() == total * ch && total >= 1 && total <= frames.len() && (total - 1) * ch == frames.len() - ch)
        by (nonlinear_arith)
        requires
            frames.len() == ch * total + frames.len() as int % ch,
            frames.len() as int % ch == 0,
            ch >= 1,
            frames.len() > 0,
    ;
    assert(g.hop == g.unit) by (nonlinear_arith)
        requires
            g.hop * rate == rate * g.unit,
            rate > 0,
    ;
    if total >= 2 {
        let n = lemma_packet::<M>(
            g,
            packet@,
            channels,
            rate,
            channels,
            rate,
            old(state).pos,
            old(state).carry@,
            final(state).pos,
            final(state).carry@,
            out@,
            frames,
            total,
        );
        lemma_count_in_rates(g, total, n, total - 1, rate as int, rate as int);
        lemma_count_in_rates(g, total, n, total - 2, rate as int, rate as int);
        assert((total - 2) * rate < (total - 1) * rate) by (nonlinear_arith)
            requires
                rate > 0,
        ;
        assert(n == total - 1);
        assert forall|j: int| 0 <= j < out@.len() implies #[trigger] out@[j] == packet@[j] by {
            lemma_quotient(j, ch, n);
            let k = j / ch;
            let c = j % ch;
            assert(j == k * channels + c) by (nonlinear_arith)
                requires
                    j == ch * k + c,
                    ch == channels,
            ;
            if channels == 1 {
                assert(c == 0);
            }
            output_follows_the_source_in_time::<M>(g, packet, channels, rate, channels, rate, state, out, k, c);
            let place = 0 + k * g.hop;
            lemma_fundamental_div_mod_converse(place, g.unit, k, 0);
        }
        let kept = packet@.take(packet@.len() - channels);
        assert(out@.len() == n * channels);
        assert(kept.len() == out@.len());
        assert forall|j: int| 0 <= j < out@.len() implies #[trigger] out@[j] == kept[j] by {
            assert(out@[j] == packet@[j]);
        }
        assert(out@ =~= kept);
        assert(final(state).carry@ =~= packet@.skip(packet@.len() - channels));
    } else {
        assert((total - 1) * ch == 0) by (nonlinear_arith)
            requires
                total == 1,
        ;
        assert(out@ =~= packet@.take(packet@.len() - channels));
        assert(final(state).carry@ =~= packet@.skip(packet@.len() - channels));
    }
}

/// Two packets that agree in one channel are heard the same in that channel,
/// whatever their other channels hold.
pub proof fn other_channels_do_not_matter<M: AudioMath>(
    g: Grid,
    a: &[Single],
    b: &[Single],
    channels: usize,
    src_rate: u32,
    out_channels: usize,
    out_rate: u32,
    first: &mut ResampleState,
    second: &mut ResampleState,
    x: Vec<Single>,
    y: Vec<Single>,
    k: int,
    c: int,
)
    requires
        exact::<M>(g, src_rate, out_rate),
        repeatable::<M>(),
        call_ensures(convert_to_output::<M>, (a, channels, src_rate, out_channels, out_rate, first), x),
        call_ensures(convert_to_output::<M>, (b, channels, src_rate, out_channels, out_rate, second), y),
        1 < out_channels <= channels,
        src_rate > 0,
        out_rate > 0,
        old(first).pos == old(second).pos,
        old(first).carry@.len() + a@.len() <= usize::MAX,
        (old(first).carry@ + a@).len() == (old(second).carry@ + b@).len(),
        g.covers(old(first).pos),
        ((old(first).carry@ + a@).len() as int / channels as int) * g.unit + g.hop <= g.limit,
        0 <= k,
        0 <= c < out_channels,
        forall|i: int|
            0 <= i && (i + 1) * channels <= (old(first).carry@ + a@).len() ==> #[trigger] heard(
                old(first).carry@ + a@,
                channels as int,
                i,
                c,
            ) == heard(old(second).carry@ + b@, channels as int, i, c),
        k * out_channels + c < x@.len(),
        k * out_channels + c < y@.len(),
    ensures
        x@[k * out_channels + c] == y@[k * out_channels + c],
{
    output_follows_the_source_in_time::<M>(g, a, channels, src_rate, out_channels, out_rate, first, x, k, c);
    output_follows_the_source_in_time::<M>(g, b, channels, src_rate, out_channels, out_rate, second, y, k, c);
    let ch = channels as int;
    let frames = old(first).carry@ + a@;
    let others = old(second).carry@ + b@;
    let place = (g.value)(old(first).pos) + k * g.hop;
    let i = place / g.unit;
    lemma_fundamental_div_mod(place, g.unit);
    assert(0 <= i) by (nonlinear_arith)
        requires
            place == g.unit * i + place % g.unit,
            place >= 0,
            g.unit > 0,
            place % g.unit < g.unit,
    ;
    assert((i + 1) * ch <= (i + 2) * ch) by (nonlinear_arith)
        requires
            ch > 0,
    ;
    assert(heard(frames, ch, i, c) == heard(others, ch, i, c));
    assert(heard(frames, ch, i + 1, c) == heard(others, ch, i + 1, c));
}

// ── Speed ─────────────────────────────────────────────────────────────────────

/// Whether the arithmetic divides the device rate `out_sample_rate` by the
/// playback rate `rate` without rounding, where `rate` is `speed / scale`.
pub open spec fn divides_by_speed<M: AudioMath>(out_sample_rate: u32, rate: Single, speed: int, scale: int) -> bool {
    &&& speed > 0
    &&& scale > 0
    &&& forall|effective: u32| #[trigger]
        call_ensures(M::effective_rate, (out_sample_rate, rate), effective) ==> effective > 0 && effective * speed
            == out_sample_rate * scale
}

/// Whether there is a grid on which the arithmetic is exact for turning the rate
/// `src_rate` into `effective`, with room for `frames` frames.
pub open spec fn has_grid<M: AudioMath>(
    pos: crate::ieee::Double,
    src_rate: u32,
    effective: u32,
    frames: int,
) -> bool {
    exists|g: Grid| #[trigger]
        exact::<M>(g, src_rate, effective) && true_to_rates(g, src_rate, effective) && (g.value)(pos) == 0 && 0
            <= g.limit && frames * g.unit + g.hop <= g.limit
}

/// The playback rate decides how much is queued: of a packet that begins a
/// track, output frame `k` is queued if and only if `k` frames at the device rate,
/// played at the playback rate, end before the last source frame.
pub proof fn speed_decides_how_much_is_queued<M: AudioMath>(
    session: &mut DecodeSession,
    channels: usize,
    src_rate: u32,
    interleaved: Vec<Single>,
    rate: Single,
    speed: int,
    scale: int,
    action: DecodeAction,
    k: int,
)
    requires
        call_ensures(
            DecodeSession::on_decoded::<M>,
            (
                session,
                PacketDecode::Decoded { channels, rate: src_rate, interleaved },
                false,
                Some(rate),
            ),
            action,
        ),
        (Single { bits: MIN_RATE }).at_most(rate),
        rate.at_most(Single { bits: MAX_RATE }),
        divides_by_speed::<M>(old(session).out_sample_rate, rate, speed, scale),
        forall|effective: u32|
            effective > 0 && #[trigger] call_ensures(M::effective_rate, (old(session).out_sample_rate, rate), effective)
                ==> has_grid::<M>(
                old(session).resample.pos,
                src_rate,
                effective,
                interleaved@.len() as int / channels as int,
            ),
        channels > 0,
        src_rate > 0,
        old(session).out_channels > 0,
        old(session).resample.carry@.len() == 0,
        interleaved@.len() <= usize::MAX,
        interleaved@.len() as int / channels as int >= 1,
        0 <= k,
    ensures
        final(session).pending@.len() % old(session).out_channels as nat == 0,
        k < final(session).pending@.len() as int / old(session).out_channels as int <==> k * (src_rate * speed) < (
        interleaved@.len() as int / channels as int - 1) * (old(session).out_sample_rate * scale),
{
    let ch = channels as int;
    let width = old(session).out_channels as int;
    let packet = interleaved@;
    let total = packet.len() as int / ch;
    lemma_fundamental_div_mod(packet.len() as int, ch);
    assert(total <= packet.len() && packet.len() > 0) by (nonlinear_arith)
        requires
            packet.len() == ch * total + packet.len() as int % ch,
            0 <= packet.len() as int % ch,
            ch >= 1,
            packet.len() >= 0,
            total >= 1,
    ;
    assert(asked_rate(Some(rate)) == rate);
    let effective = choose|effective: u32| #[trigger]
        converted_packet::<M>(*old(session), channels, src_rate, packet, rate, effective, *final(session));
    assert(call_ensures(M::effective_rate, (old(session).out_sample_rate, rate), effective));
    let g = choose|g: Grid| #[trigger]
        exact::<M>(g, src_rate, effective) && true_to_rates(g, src_rate, effective) && (g.value)(
            old(session).resample.pos,
        ) == 0 && 0 <= g.limit && total * g.unit + g.hop <= g.limit;
    let frames = old(session).resample.carry@ + packet;
    assert(frames =~= packet);
    let pending = final(session).pending@;
    let out_rate = old(session).out_sample_rate as int;
    if total >= 2 {
        let n = lemma_packet::<M>(
            g,
            packet,
            channels,
            src_rate,
            old(session).out_channels,
            effective,
            old(session).resample.pos,
            old(session).resample.carry@,
            final(session).resample.pos,
            final(session).resample.carry@,
            pending,
            frames,
            total,
        );
        lemma_fundamental_div_mod_converse(pending.len() as int, width, n, 0);
        lemma_count_in_rates(g, total, n, k, src_rate as int, effective as int);
        lemma_scaled(k * src_rate, (total - 1) * effective, speed);
        assert((k * src_rate) * speed == k * (src_rate * speed) && ((total - 1) * effective) * speed == (total - 1) * (
        out_rate * scale)) by (nonlinear_arith)
            requires
                effective * speed == out_rate * scale,
        ;
    } else {
        lemma_fundamental_div_mod_converse(0, width, 0, 0);
        assert((total - 1) * (out_rate * scale) == 0 && k * (src_rate * speed) >= 0) by (nonlinear_arith)
            requires
                total == 1,
                k >= 0,
                src_rate > 0,
                speed > 0,
        ;
    }
}

proof fn lemma_scaled(x: int, y: int, s: int)
    requires
        s > 0,
    ensures
        x < y <==> x * s < y * s,
{
    assert(x < y <==> x * s < y * s) by (nonlinear_arith)
        requires
            s > 0,
    ;
}

/// Double speed queues half as many frames of a packet as normal speed, rounded
/// up: every other one.
pub proof fn double_speed_queues_half<M: AudioMath>(
    slow: &mut DecodeSession,
    fast: &mut DecodeSession,
    channels: usize,
    src_rate: u32,
    interleaved: Vec<Single>,
    rate: Single,
    double_rate: Single,
    speed: int,
    scale: int,
    slow_action: DecodeAction,
    fast_action: DecodeAction,
)
    requires
        call_ensures(
            DecodeSession::on_decoded::<M>,
            (slow, PacketDecode::Decoded { channels, rate: src_rate, interleaved }, false, Some(rate)),
            slow_action,
        ),
        call_ensures(
            DecodeSession::on_decoded::<M>,
            (fast, PacketDecode::Decoded { channels, rate: src_rate, interleaved }, false, Some(double_rate)),
            fast_action,
        ),
        (Single { bits: MIN_RATE }).at_most(rate),
        rate.at_most(Single { bits: MAX_RATE }),
        (Single { bits: MIN_RATE }).at_most(double_rate),
        double_rate.at_most(Single { bits: MAX_RATE }),
        old(slow).out_sample_rate == old(fast).out_sample_rate,
        old(slow).out_channels == old(fast).out_channels,
        divides_by_speed::<M>(old(slow).out_sample_rate, rate, speed, scale),
        divides_by_speed::<M>(old(slow).out_sample_rate, double_rate, 2 * speed, scale),
        forall|effective: u32|
            effective > 0 && #[trigger] call_ensures(M::effective_rate, (old(slow).out_sample_rate, rate), effective)
                ==> has_grid::<M>(
                old(slow).resample.pos,
                src_rate,
                effective,
                interleaved@.len() as int / channels as int,
            ),
        forall|effective: u32|
            effective > 0 && #[trigger] call_ensures(
                M::effective_rate,
                (old(fast).out_sample_rate, double_rate),
                effective,
            ) ==> has_grid::<M>(
                old(fast).resample.pos,
                src_rate,
                effective,
                interleaved@.len() as int / channels as int,
            ),
        channels > 0,
        src_rate > 0,
        old(slow).out_channels > 0,
        old(slow).resample.carry@.len() == 0,
        old(fast).resample.carry@.len() == 0,
        interleaved@.len() <= usize::MAX,
        interleaved@.len() as int / channels as int >= 1,
    ensures
        ({
            let many = final(slow).pending@.len() as int / old(slow).out_channels as int;
            let few = final(fast).pending@.len() as int / old(slow).out_channels as int;
            many <= 2 * few <= many + 1
        }),
{
    let width = old(slow).out_channels as int;
    let many = final(slow).pending@.len() as int / width;
    let few = final(fast).pending@.len() as int / width;
    lemma_fundamental_div_mod(final(slow).pending@.len() as int, width);
    lemma_fundamental_div_mod(final(fast).pending@.len() as int, width);
    lemma_not_negative(final(slow).pending@.len() as int, width);
    lemma_not_negative(final(fast).pending@.len() as int, width);
    // Frame `few` at double speed is frame `2 * few` at normal speed.
    assert((2 * few) * (src_rate * speed) == few * (src_rate * (2 * speed))) by (nonlinear_arith);
    speed_decides_how_much_is_queued::<M>(
        slow,
        channels,
        src_rate,
        interleaved,
        rate,
        speed,
        scale,
        slow_action,
        2 * few,
    );
    speed_decides_how_much_is_queued::<M>(
        fast,
        channels,
        src_rate,
        interleaved,
        double_rate,
        2 * speed,
        scale,
        fast_action,
        few,
    );
    if few > 0 {
        let k = few - 1;
        assert((2 * k) * (src_rate * speed) == k * (src_rate * (2 * speed))) by (nonlinear_arith);
        speed_decides_how_much_is_queued::<M>(
            slow,
            channels,
            src_rate,
            interleaved,
            rate,
            speed,
            scale,
            slow_action,
            2 * k,
        );
        speed_decides_how_much_is_queued::<M>(
            fast,
            channels,
            src_rate,
            interleaved,
            double_rate,
            2 * speed,
            scale,
            fast_action,
            k,
        );
    }
}

proof fn lemma_not_negative(x: int, d: int)
    requires
        x >= 0,
        d > 0,
    ensures
        x / d >= 0,
{
    lemma_fundamental_div_mod(x, d);
    let q = x / d;
    assert(q >= 0) by (nonlinear_arith)
        requires
            x == d * q + x % d,
            x % d < d,
            x >= 0,
            d > 0,
    ;
}

/// The samples before the start position are dropped, and no others: of each
/// packet as many as are still to be dropped, from its front, until none is.
pub proof fn start_position_is_reached<M: AudioMath>(
    session: &mut DecodeSession,
    channels: usize,
    src_rate: u32,
    interleaved: Vec<Single>,
    rate: Option<Single>,
    action: DecodeAction,
)
    requires
        call_ensures(
            DecodeSession::on_decoded::<M>,
            (session, PacketDecode::Decoded { channels, rate: src_rate, interleaved }, false, rate),
            action,
        ),
        channels > 0,
        src_rate > 0,
        interleaved@.len() > 0,
        old(session).resample.carry@.len() + interleaved@.len() <= usize::MAX,
    ensures
        ({
            let dropped = final(session).pending@.len() - final(session).remaining().len();
            &&& final(session).remaining() == final(session).pending@.skip(dropped)
            &&& dropped + final(session).skip_output_samples == old(session).skip_output_samples
            &&& final(session).skip_output_samples > 0 ==> final(session).remaining().len() == 0
            &&& action is Feed <==> final(session).remaining().len() > 0
            &&& action is Continue <==> final(session).remaining().len() == 0
        }),
{
    let effective = choose|effective: u32| #[trigger]
        converted_packet::<M>(
            *old(session),
            channels,
            src_rate,
            interleaved@,
            asked_rate(rate),
            effective,
            *final(session),
        );
}

/// A playback rate is never below half or above double speed, is the rate that
/// was asked for in between, and is normal speed where none can be read.
pub proof fn speed_stays_within_its_limits(rate: Single, r: Single, unread: Single)
    requires
        call_ensures(playback_rate, (Some(rate),), r),
        call_ensures(playback_rate, (None,), unread),
    ensures
        unread.bits == ONE,
        rate.nan() || ((Single { bits: MIN_RATE }).at_most(r) && r.at_most(Single { bits: MAX_RATE })),
        (Single { bits: MIN_RATE }).at_most(rate) && rate.at_most(Single { bits: MAX_RATE }) ==> r == rate,
        rate.less(Single { bits: MIN_RATE }) ==> r.bits == MIN_RATE,
        (Single { bits: MAX_RATE }).less(rate) ==> r.bits == MAX_RATE,
{
}

// ── Any arithmetic ────────────────────────────────────────────────────────────

/// Whether `sample` is heard on channel `c` of `width` channels at `tap`: between
/// the frame of the tap and the next one, the last two frames for a tap behind
/// them, as far from the first as the tap says.
pub open spec fn heard_at<M: AudioMath>(
    frames: Seq<Single>,
    channels: int,
    tap: Tap,
    c: int,
    width: int,
    sample: Single,
) -> bool {
    let total = frames.len() as int / channels;
    let i = if tap.index <= total - 2 {
        tap.index as int
    } else {
        total - 2
    };
    if width == 1 && channels > 1 {
        exists|a: &[Single], b: &[Single], left: Single, right: Single|
            #![trigger call_ensures(M::mix, (a,), left), call_ensures(M::mix, (b,), right)]
            {
                &&& a@ == frames.subrange(i * channels, (i + 1) * channels)
                &&& b@ == frames.subrange((i + 1) * channels, (i + 2) * channels)
                &&& call_ensures(M::mix, (a,), left)
                &&& call_ensures(M::mix, (b,), right)
                &&& call_ensures(M::interpolate, (left, right, tap.fraction), sample)
            }
    } else {
        call_ensures(
            M::interpolate,
            (heard(frames, channels, i, c), heard(frames, channels, i + 1, c), tap.fraction),
            sample,
        )
    }
}

/// Whether place `k` lies before the last of `total` frames, is taken apart to tap
/// `k`, and the next place lies one step of the two rates further on.
pub open spec fn one_step<M: AudioMath>(
    total: usize,
    src_rate: u32,
    out_rate: u32,
    places: Seq<crate::ieee::Double>,
    taps: Seq<Tap>,
    k: int,
) -> bool {
    &&& call_ensures(M::has_right, (total, places[k]), true)
    &&& call_ensures(M::split, (places[k],), taps[k])
    &&& call_ensures(M::step, (places[k], src_rate, out_rate), places[k + 1])
}

/// Whether `places` goes through `total` frames from `pos` on by steps of the two
/// rates, taken apart to `taps`, up to the last frame, or to where the arithmetic
/// does not get on any more, and `next_pos` is where the next packet is read.
pub open spec fn goes_through<M: AudioMath>(
    total: usize,
    src_rate: u32,
    out_rate: u32,
    pos: crate::ieee::Double,
    places: Seq<crate::ieee::Double>,
    taps: Seq<Tap>,
    next_pos: crate::ieee::Double,
) -> bool {
    &&& places.len() == taps.len() + 1
    &&& places[0] == pos
    &&& forall|k: int| 0 <= k < taps.len() ==> #[trigger] one_step::<M>(total, src_rate, out_rate, places, taps, k)
    &&& forall|k: int| 0 < k < taps.len() ==> places[k - 1].rank() < (#[trigger] places[k]).rank()
    &&& call_ensures(M::has_right, (total, places[places.len() - 1]), false) || (taps.len() > 0
        && places[places.len() - 1].rank() <= places[places.len() - 2].rank())
    &&& call_ensures(M::rebase, (places[places.len() - 1], (total - 1) as usize), next_pos)
}

/// Whatever the arithmetic, a conversion goes through the frames by steps of the
/// two rates and gives, for each step, one sample for each channel of the device.
pub proof fn conversion_goes_through_the_frames<M: AudioMath>(
    packet: &[Single],
    channels: usize,
    src_rate: u32,
    out_channels: usize,
    out_rate: u32,
    state: &mut ResampleState,
    out: Vec<Single>,
)
    requires
        call_ensures(
            convert_to_output::<M>,
            (packet, channels, src_rate, out_channels, out_rate, state),
            out,
        ),
        channels > 0,
        out_channels > 0,
        src_rate > 0,
        out_rate > 0,
        old(state).carry@.len() + packet@.len() <= usize::MAX,
        (old(state).carry@ + packet@).len() as int / channels as int >= 2,
    ensures
        exists|places: Seq<crate::ieee::Double>, taps: Seq<Tap>| #[trigger]
            goes_through::<M>(
                ((old(state).carry@ + packet@).len() as int / channels as int) as usize,
                src_rate,
                out_rate,
                old(state).pos,
                places,
                taps,
                final(state).pos,
            ) && out@.len() == taps.len() * out_channels && forall|j: int|
                0 <= j < out@.len() ==> heard_at::<M>(
                    old(state).carry@ + packet@,
                    channels as int,
                    taps[j / out_channels as int],
                    j % out_channels as int,
                    out_channels as int,
                    #[trigger] out@[j],
                ),
{
    lemma_goes_through::<M>(
        packet@,
        channels,
        src_rate,
        out_channels,
        out_rate,
        *old(state),
        *final(state),
        out@,
    );
}

proof fn lemma_goes_through<M: AudioMath>(
    packet: Seq<Single>,
    channels: usize,
    src_rate: u32,
    out_channels: usize,
    out_rate: u32,
    before: ResampleState,
    after: ResampleState,
    out: Seq<Single>,
)
    requires
        converts::<M>(
            packet,
            channels,
            src_rate,
            out_channels,
            out_rate,
            before.pos,
            before.carry@,
            after.pos,
            after.carry@,
            out,
        ),
        channels > 0,
        out_channels > 0,
        src_rate > 0,
        out_rate > 0,
        before.carry@.len() + packet.len() <= usize::MAX,
        (before.carry@ + packet).len() as int / channels as int >= 2,
    ensures
        exists|places: Seq<crate::ieee::Double>, taps: Seq<Tap>| #[trigger]
            goes_through::<M>(
                ((before.carry@ + packet).len() as int / channels as int) as usize,
                src_rate,
                out_rate,
                before.pos,
                places,
                taps,
                after.pos,
            ) && out.len() == taps.len() * out_channels && forall|j: int|
                0 <= j < out.len() ==> heard_at::<M>(
                    before.carry@ + packet,
                    channels as int,
                    taps[j / out_channels as int],
                    j % out_channels as int,
                    out_channels as int,
                    #[trigger] out[j],
                ),
{
    let ch = channels as int;
    let width = out_channels as int;
    let frames = before.carry@ + packet;
    let total = frames.len() as int / ch;
    lemma_fundamental_div_mod(frames.len() as int, ch);
    assert(total <= frames.len() && total * ch <= frames.len()) by (nonlinear_arith)
        requires
            frames.len() == ch * total + frames.len() as int % ch,
            0 <= frames.len() as int % ch,
            ch >= 1,
            frames.len() >= 0,
    ;
    let taps = choose|taps: Seq<Tap>| #[trigger]
        taps_from::<M>(total as usize, before.pos, src_rate, out_rate, taps, after.pos) && renders::<M>(
            frames,
            ch,
            taps,
            width,
            out,
        );
    let places = choose|places: Seq<crate::ieee::Double>| #[trigger]
        walks::<M>(total as usize, src_rate, out_rate, places, taps) && places[0] == before.pos && call_ensures(
            M::rebase,
            (places.last(), (total - 1) as usize),
            after.pos,
        );
    assert forall|k: int| 0 <= k < taps.len() implies #[trigger] one_step::<M>(
        total as usize,
        src_rate,
        out_rate,
        places,
        taps,
        k,
    ) by {
        assert(hops::<M>(total as usize, src_rate, out_rate, places[k], taps[k], places[k + 1]));
    }
    assert(goes_through::<M>(total as usize, src_rate, out_rate, before.pos, places, taps, after.pos));
    assert forall|j: int| 0 <= j < out.len() implies heard_at::<M>(
        frames,
        ch,
        taps[j / width],
        j % width,
        width,
        #[trigger] out[j],
    ) by {
        lemma_quotient(j, width, taps.len() as int);
        let tap = taps[j / width];
        let c = j % width;
        assert(reads::<M>(frames, ch, tap, c, width, out[j]));
        let i = if tap.index <= total - 2 {
            tap.index as int
        } else {
            total - 2
        };
        let (left, right) = choose|left: Single, right: Single|
            picks::<M>(frame_at(frames, ch, i), c, width, left) && picks::<M>(frame_at(frames, ch, i + 1), c, width, right)
                && #[trigger] call_ensures(M::interpolate, (left, right, tap.fraction), out[j]);
        assert((i + 2) * ch <= total * ch && i * ch >= 0 && i * ch + ch == (i + 1) * ch && (i + 1) * ch + ch == (i + 2)
            * ch && (i + 1 + 1) * ch == (i + 2) * ch) by (nonlinear_arith)
            requires
                0 <= i,
                i + 2 <= total,
                ch > 0,
        ;
        if width == 1 && channels > 1 {
            let a = choose|a: &[Single]| a@ == frame_at(frames, ch, i) && #[trigger] call_ensures(M::mix, (a,), left);
            let b = choose|b: &[Single]|
                b@ == frame_at(frames, ch, i + 1) && #[trigger] call_ensures(M::mix, (b,), right);
            assert(a@ == frames.subrange(i * ch, (i + 1) * ch));
            assert(b@ == frames.subrange((i + 1) * ch, (i + 2) * ch));
            assert(call_ensures(M::mix, (a,), left));
            assert(call_ensures(M::mix, (b,), right));
        } else {
            lemma_pick_is_heard::<M>(frames, ch, i, c, width, left);
            lemma_pick_is_heard::<M>(frames, ch, i + 1, c, width, right);
        }
    }
}

/// A packet of a run goes through its frames by steps of the source rate and of the
/// rate that the device rate and the asked speed make.
pub proof fn run_goes_through_the_frames<M: AudioMath>(
    session: &mut DecodeSession,
    channels: usize,
    src_rate: u32,
    interleaved: Vec<Single>,
    rate: Option<Single>,
    speed: Single,
    action: DecodeAction,
)
    requires
        call_ensures(
            DecodeSession::on_decoded::<M>,
            (session, PacketDecode::Decoded { channels, rate: src_rate, interleaved }, false, rate),
            action,
        ),
        call_ensures(playback_rate, (rate,), speed),
        channels > 0,
        src_rate > 0,
        old(session).out_channels > 0,
        interleaved@.len() > 0,
        old(session).resample.carry@.len() + interleaved@.len() <= usize::MAX,
        (old(session).resample.carry@ + interleaved@).len() as int / channels as int >= 2,
    ensures
        exists|effective: u32| #[trigger]
            call_ensures(M::effective_rate, (old(session).out_sample_rate, speed), effective) && (effective > 0
                ==> exists|places: Seq<crate::ieee::Double>, taps: Seq<Tap>| #[trigger]
                goes_through::<M>(
                    ((old(session).resample.carry@ + interleaved@).len() as int / channels as int) as usize,
                    src_rate,
                    effective,
                    old(session).resample.pos,
                    places,
                    taps,
                    final(session).resample.pos,
                ) && final(session).pending@.len() == taps.len() * old(session).out_channels && forall|j: int|
                    0 <= j < final(session).pending@.len() ==> heard_at::<M>(
                        old(session).resample.carry@ + interleaved@,
                        channels as int,
                        taps[j / old(session).out_channels as int],
                        j % old(session).out_channels as int,
                        old(session).out_channels as int,
                        #[trigger] final(session).pending@[j],
                    )),
{
    let effective = choose|effective: u32| #[trigger]
        converted_packet::<M>(
            *old(session),
            channels,
            src_rate,
            interleaved@,
            asked_rate(rate),
            effective,
            *final(session),
        );
    assert(call_ensures(M::effective_rate, (old(session).out_sample_rate, speed), effective));
    if effective > 0 {
        lemma_goes_through::<M>(
            interleaved@,
            channels,
            src_rate,
            old(session).out_channels,
            effective,
            old(session).resample,
            final(session).resample,
            final(session).pending@,
        );
    }
}

} // verus!
