//! What a run of the decode thread is for: every packet is read on from where the
//! last one ended, at the speed that is asked for, and what it gives is queued
//! whole and in order.

use crate::continuity::{exact, lemma_packet, Grid};
use crate::conversion_laws::heard;
use crate::decode::{
    asked_rate, converted_packet, playback_rate, source_millis_to_output_samples, DecodeAction, DecodeSession, PacketDecode,
    PacketRead,
};
use crate::effects::AudioProcessor;
use crate::ieee::Single;
use crate::math::AudioMath;
use crate::player_state::{ResampleState, SharedPlayback};
use crate::resample::{convert_to_output, converts};
use vstd::arithmetic::div_mod::{lemma_fundamental_div_mod, lemma_fundamental_div_mod_converse};
use vstd::prelude::*;

verus! {

// ── Packets ───────────────────────────────────────────────────────────────────

/// Whether reading `total` frames from the place of `pos` on gives `frames`
/// output frames and goes on at `next_pos`: there is an output frame at each hop
/// from the first place on that lies before the last frame, and reading goes on
/// behind the last of them, counted from the last frame.
pub open spec fn reads_on(
    g: Grid,
    pos: crate::ieee::Double,
    total: int,
    frames: int,
    next_pos: crate::ieee::Double,
) -> bool {
    &&& 0 <= frames
    &&& forall|k: int|
        0 <= k ==> (k < frames <==> #[trigger] ((g.value)(pos) + k * g.hop) < (total - 1) * g.unit)
    &&& (g.value)(next_pos) == (g.value)(pos) + frames * g.hop - (total - 1) * g.unit
}

proof fn lemma_reads_on<M: AudioMath>(
    g: Grid,
    packet: Seq<Single>,
    channels: usize,
    src_rate: u32,
    out_channels: usize,
    out_rate: u32,
    before: ResampleState,
    after: ResampleState,
    out: Seq<Single>,
)
    requires
        exact::<M>(g, src_rate, out_rate),
        converts::<M>(
            packet,
            channels,
            src_rate,
            out_channels,
            out_rate,
            before.pos,
            before.carry@,
            after.pos,
            after.carry@,
            out,
        ),
        channels > 0,
        out_channels > 0,
        src_rate > 0,
        out_rate > 0,
        before.carry@.len() + packet.len() <= usize::MAX,
        g.covers(before.pos),
        (before.carry@.len() + packet.len()) / channels as nat >= 2,
        ((before.carry@.len() + packet.len()) as int / channels as int) * g.unit + g.hop <= g.limit,
    ensures
        out.len() % out_channels as nat == 0,
        reads_on(
            g,
            before.pos,
            (before.carry@.len() + packet.len()) as int / channels as int,
            out.len() as int / out_channels as int,
            after.pos,
        ),
        after.carry@.len() == channels,
        forall|c: int|
            0 <= c < channels ==> #[trigger] after.carry@[c] == (before.carry@ + packet)[((before.carry@.len()
                + packet.len()) as int / channels as int - 1) * channels + c],
{
    let ch = channels as int;
    let frames = before.carry@ + packet;
    let total = frames.len() as int / ch;
    lemma_fundamental_div_mod(frames.len() as int, ch);
    assert(total <= frames.len() && total * ch <= frames.len() && (total - 1) * ch >= 0 && (total - 1) * ch + ch
        == total * ch) by (nonlinear_arith)
        requires
            frames.len() == ch * total + frames.len() as int % ch,
            0 <= frames.len() as int % ch,
            ch >= 1,
            total >= 1,
    ;
    let n = lemma_packet::<M>(
        g,
        packet,
        channels,
        src_rate,
        out_channels,
        out_rate,
        before.pos,
        before.carry@,
        after.pos,
        after.carry@,
        out,
        frames,
        total,
    );
    lemma_fundamental_div_mod_converse(out.len() as int, out_channels as int, n, 0);
    let v = (g.value)(before.pos);
    assert((total - 1) * g.unit + g.unit == total * g.unit) by (nonlinear_arith);
    assert forall|k: int| 0 <= k implies (k < n <==> #[trigger] (v + k * g.hop) < (total - 1) * g.unit) by {
        if k < n {
            assert(k * g.hop <= (n - 1) * g.hop) by (nonlinear_arith)
                requires
                    k <= n - 1,
                    g.hop > 0,
            ;
        } else {
            assert(n * g.hop <= k * g.hop) by (nonlinear_arith)
                requires
                    n <= k,
                    g.hop > 0,
            ;
        }
    }
}

/// A packet is read on from where the last one ended, at the hops of the two
/// rates, and the last frame is kept for the next packet.
pub proof fn packet_is_read_on<M: AudioMath>(
    g: Grid,
    packet: &[Single],
    channels: usize,
    src_rate: u32,
    out_channels: usize,
    out_rate: u32,
    state: &mut ResampleState,
    out: Vec<Single>,
)
    requires
        exact::<M>(g, src_rate, out_rate),
        call_ensures(
            convert_to_output::<M>,
            (packet, channels, src_rate, out_channels, out_rate, state),
            out,
        ),
        channels > 0,
        out_channels > 0,
        src_rate > 0,
        out_rate > 0,
        old(state).carry@.len() + packet@.len() <= usize::MAX,
        g.covers(old(state).pos),
        (old(state).carry@.len() + packet@.len()) / channels as nat >= 2,
        ((old(state).carry@.len() + packet@.len()) as int / channels as int) * g.unit + g.hop <= g.limit,
    ensures
        out@.len() % out_channels as nat == 0,
        reads_on(
            g,
            old(state).pos,
            (old(state).carry@.len() + packet@.len()) as int / channels as int,
            out@.len() as int / out_channels as int,
            final(state).pos,
        ),
        final(state).carry@.len() == channels,
        forall|c: int|
            0 <= c < channels ==> #[trigger] final(state).carry@[c] == (old(state).carry@ + packet@)[((old(
                state).carry@.len() + packet@.len()) as int / channels as int - 1) * channels + c],
{
    lemma_reads_on::<M>(
        g,
        packet@,
        channels,
        src_rate,
        out_channels,
        out_rate,
        *old(state),
        *final(state),
        out@,
    );
}

/// Nothing comes out of what makes no sense, which also changes nothing, nor out
/// of a single frame, which waits for the next packet.
pub proof fn too_little_gives_nothing<M: AudioMath>(
    packet: &[Single],
    channels: usize,
    src_rate: u32,
    out_channels: usize,
    out_rate: u32,
    state: &mut ResampleState,
    out: Vec<Single>,
)
    requires
        call_ensures(
            convert_to_output::<M>,
            (packet, channels, src_rate, out_channels, out_rate, state),
            out,
        ),
        old(state).carry@.len() + packet@.len() <= usize::MAX,
        channels == 0 || out_channels == 0 || src_rate == 0 || out_rate == 0 || old(state).carry@.len() + packet@.len()
            < 2 * channels,
    ensures
        out@.len() == 0,
        final(state).pos == old(state).pos,
        channels == 0 || out_channels == 0 || src_rate == 0 || out_rate == 0 ==> final(state).carry@ == old(
            state).carry@,
        channels > 0 && out_channels > 0 && src_rate > 0 && out_rate > 0 ==> final(state).carry@ == old(state).carry@
            + packet@,
{
    if channels > 0 {
        let ch = channels as int;
        let n = (old(state).carry@.len() + packet@.len()) as int;
        lemma_fundamental_div_mod(n, ch);
        assert(n < 2 * ch ==> n / ch < 2) by (nonlinear_arith)
            requires
                n == ch * (n / ch) + n % ch,
                n % ch >= 0,
                ch >= 1,
        ;
    }
}

/// Every packet of a run is converted at the speed that is asked for: it gives the
/// output frames that lie on its way at the rate that the device rate and the
/// asked speed make, first packet or not, and reading goes on behind them.
pub proof fn packet_is_played_at_the_asked_speed<M: AudioMath>(
    g: Grid,
    session: &mut DecodeSession,
    channels: usize,
    src_rate: u32,
    interleaved: Vec<Single>,
    rate: Option<Single>,
    speed: Single,
    effective: u32,
    action: DecodeAction,
)
    requires
        call_ensures(
            DecodeSession::on_decoded::<M>,
            (session, PacketDecode::Decoded { channels, rate: src_rate, interleaved }, false, rate),
            action,
        ),
        call_ensures(playback_rate, (rate,), speed),
        forall|e: u32| #[trigger]
            call_ensures(M::effective_rate, (old(session).out_sample_rate, speed), e) ==> e == effective,
        effective > 0,
        exact::<M>(g, src_rate, effective),
        channels > 0,
        src_rate > 0,
        old(session).out_channels > 0,
        interleaved@.len() > 0,
        old(session).resample.carry@.len() + interleaved@.len() <= usize::MAX,
        (old(session).resample.carry@.len() + interleaved@.len()) / channels as nat >= 2,
        g.covers(old(session).resample.pos),
        ((old(session).resample.carry@.len() + interleaved@.len()) as int / channels as int) * g.unit + g.hop
            <= g.limit,
    ensures
        reads_on(
            g,
            old(session).resample.pos,
            (old(session).resample.carry@.len() + interleaved@.len()) as int / channels as int,
            final(session).pending@.len() as int / old(session).out_channels as int,
            final(session).resample.pos,
        ),
        final(session).out_channels == old(session).out_channels,
        final(session).out_sample_rate == old(session).out_sample_rate,
{
    let e = choose|e: u32| #[trigger]
        converted_packet::<M>(
            *old(session),
            channels,
            src_rate,
            interleaved@,
            asked_rate(rate),
            e,
            *final(session),
        );
    assert(e == effective);
    lemma_reads_on::<M>(
        g,
        interleaved@,
        channels,
        src_rate,
        old(session).out_channels,
        effective,
        old(session).resample,
        final(session).resample,
        final(session).pending@,
    );
}

/// The samples of a run are those of the source at the time of each output frame,
/// channel by channel, between the two source frames around it.
///
/// The device has more than one channel or the source only one.
pub proof fn run_plays_the_source<M: AudioMath>(
    g: Grid,
    session: &mut DecodeSession,
    channels: usize,
    src_rate: u32,
    interleaved: Vec<Single>,
    rate: Option<Single>,
    speed: Single,
    effective: u32,
    action: DecodeAction,
    k: int,
    c: int,
)
    requires
        call_ensures(
            DecodeSession::on_decoded::<M>,
            (session, PacketDecode::Decoded { channels, rate: src_rate, interleaved }, false, rate),
            action,
        ),
        call_ensures(playback_rate, (rate,), speed),
        forall|e: u32| #[trigger]
            call_ensures(M::effective_rate, (old(session).out_sample_rate, speed), e) ==> e == effective,
        effective > 0,
        exact::<M>(g, src_rate, effective),
        channels > 0,
        src_rate > 0,
        interleaved@.len() > 0,
        old(session).out_channels > 1 || (old(session).out_channels == 1 && channels == 1),
        old(session).resample.carry@.len() + interleaved@.len() <= usize::MAX,
        g.covers(old(session).resample.pos),
        ((old(session).resample.carry@.len() + interleaved@.len()) as int / channels as int) * g.unit + g.hop
            <= g.limit,
        0 <= k,
        0 <= c < old(session).out_channels,
        k * old(session).out_channels + c < final(session).pending@.len(),
    ensures
        ({
            let frames = old(session).resample.carry@ + interleaved@;
            let place = (g.value)(old(session).resample.pos) + k * g.hop;
            &&& (place / g.unit + 2) * channels <= frames.len()
            &&& call_ensures(
                M::interpolate,
                (
                    heard(frames, channels as int, place / g.unit, c),
                    heard(frames, channels as int, place / g.unit + 1, c),
                    (g.fraction)(place % g.unit),
                ),
                final(session).pending@[k * old(session).out_channels + c],
            )
        }),
{
    let e = choose|e: u32| #[trigger]
        converted_packet::<M>(
            *old(session),
            channels,
            src_rate,
            interleaved@,
            asked_rate(rate),
            e,
            *final(session),
        );
    assert(e == effective);
    crate::conversion_laws::lemma_follows_the_source::<M>(
        g,
        interleaved@,
        channels,
        src_rate,
        old(session).out_channels,
        effective,
        old(session).resample,
        final(session).resample,
        final(session).pending@,
        k,
        c,
    );
}

/// A packet of a run is converted as any other: to the channels of the device, and
/// at the rate that the device rate and the asked speed make, behind what the last
/// packet left.  A packet that leaves fewer than two frames gives nothing yet and
/// waits whole.
pub proof fn run_converts_its_packets<M: AudioMath>(
    session: &mut DecodeSession,
    channels: usize,
    src_rate: u32,
    interleaved: Vec<Single>,
    rate: Option<Single>,
    speed: Single,
    action: DecodeAction,
)
    requires
        call_ensures(
            DecodeSession::on_decoded::<M>,
            (session, PacketDecode::Decoded { channels, rate: src_rate, interleaved }, false, rate),
            action,
        ),
        call_ensures(playback_rate, (rate,), speed),
        channels > 0,
        src_rate > 0,
        interleaved@.len() > 0,
        old(session).resample.carry@.len() + interleaved@.len() <= usize::MAX,
    ensures
        exists|effective: u32| #[trigger]
            call_ensures(M::effective_rate, (old(session).out_sample_rate, speed), effective) && converts::<M>(
                interleaved@,
                channels,
                src_rate,
                old(session).out_channels,
                effective,
                old(session).resample.pos,
                old(session).resample.carry@,
                final(session).resample.pos,
                final(session).resample.carry@,
                final(session).pending@,
            ) && (old(session).resample.carry@.len() + interleaved@.len() < 2 * channels && effective > 0 && old(
                session).out_channels > 0 ==> final(session).pending@.len() == 0 && final(session).resample.carry@
                == old(session).resample.carry@ + interleaved@ && final(session).resample.pos == old(
                session).resample.pos),
{
    let effective = choose|effective: u32| #[trigger]
        converted_packet::<M>(
            *old(session),
            channels,
            src_rate,
            interleaved@,
            asked_rate(rate),
            effective,
            *final(session),
        );
    assert(call_ensures(M::effective_rate, (old(session).out_sample_rate, speed), effective));
    let ch = channels as int;
    let n = (old(session).resample.carry@.len() + interleaved@.len()) as int;
    lemma_fundamental_div_mod(n, ch);
    assert(n < 2 * ch ==> n / ch < 2) by (nonlinear_arith)
        requires
            n == ch * (n / ch) + n % ch,
            n % ch >= 0,
            ch >= 1,
    ;
}

// ── Start and end ─────────────────────────────────────────────────────────────

/// A run starts fresh, and drops as many samples as the time to its start takes
/// at the asked speed; a start before the source is its beginning.
pub proof fn run_starts_at_its_start<M: AudioMath>(
    start_millis: i32,
    out_sample_rate: u32,
    out_channels: usize,
    rate: Option<Single>,
    speed: Single,
    session: DecodeSession,
)
    requires
        call_ensures(DecodeSession::new::<M>, (start_millis, out_sample_rate, out_channels, rate), session),
        call_ensures(playback_rate, (rate,), speed),
    ensures
        start_millis >= 0 ==> call_ensures(
            M::output_samples,
            (start_millis, out_sample_rate, out_channels, speed),
            session.skip_output_samples,
        ),
        start_millis < 0 ==> call_ensures(
            M::output_samples,
            (0i32, out_sample_rate, out_channels, speed),
            session.skip_output_samples,
        ),
        session.out_channels == out_channels,
        session.out_sample_rate == out_sample_rate,
        session.resample.pos.bits == 0,
        session.resample.carry@.len() == 0,
        session.remaining().len() == 0,
        session.offset == session.pending@.len(),
{
}

/// A time is told in output samples at a speed within the limits; a time before
/// the source is its beginning.
pub proof fn start_is_told_in_samples<M: AudioMath>(
    start_millis: i32,
    out_sample_rate: u32,
    out_channels: usize,
    rate: Single,
    speed: Single,
    r: usize,
)
    requires
        call_ensures(source_millis_to_output_samples::<M>, (start_millis, out_sample_rate, out_channels, rate), r),
        call_ensures(playback_rate, (Some(rate),), speed),
    ensures
        start_millis >= 0 ==> call_ensures(
            M::output_samples,
            (start_millis, out_sample_rate, out_channels, speed),
            r,
        ),
        start_millis < 0 ==> call_ensures(M::output_samples, (0i32, out_sample_rate, out_channels, speed), r),
{
}

/// A run that is to stop ends well, at the head of the loop and after a packet;
/// otherwise it reads.
pub proof fn stop_ends_the_run(stop: bool, begun: DecodeAction, locked: DecodeAction)
    requires
        call_ensures(DecodeSession::begin, (stop,), begun),
        call_ensures(DecodeSession::locked_out, (stop,), locked),
    ensures
        begun is Finish <==> stop,
        begun is Finish ==> begun->Finish_0 is Ok,
        begun is ReadPacket <==> !stop,
        locked is Continue <==> stop,
        locked is Sleep <==> !stop,
{
}

/// A packet that was read is decoded; the end of the stream ends the run well,
/// anything else ends it with an error that tells what happened.
pub proof fn reading_goes_on_or_ends(read: PacketRead, r: DecodeAction)
    requires
        call_ensures(DecodeSession::on_packet, (read,), r),
    ensures
        r is DecodePacket <==> read is Packet,
        r is Finish <==> !(read is Packet),
        r is Finish ==> (r->Finish_0 is Ok <==> read is IoError),
        read is ResetRequired ==> r->Finish_0->Err_0@ == "Decoder reset required and not supported"@,
        read matches PacketRead::Failed(e) ==> r->Finish_0->Err_0@ == "Failed to read next packet: "@ + e@,
{
}

/// A damaged packet is passed over, and so is one without sound; the end of the
/// stream ends the run well, any other failure with its error.  The run itself
/// stays as it was.
pub proof fn packet_without_sound_changes_nothing<M: AudioMath>(
    session: &mut DecodeSession,
    decoded: PacketDecode,
    stop: bool,
    rate: Option<Single>,
    r: DecodeAction,
)
    requires
        call_ensures(DecodeSession::on_decoded::<M>, (session, decoded, stop, rate), r),
        decoded matches PacketDecode::Decoded { channels, rate: src_rate, interleaved } ==> stop || interleaved@.len()
            == 0 || channels == 0 || src_rate == 0,
    ensures
        *final(session) == *old(session),
        decoded is DecodeError ==> r is Continue,
        decoded is IoError ==> r is Finish && r->Finish_0 is Ok,
        decoded matches PacketDecode::Failed(e) ==> r is Finish && r->Finish_0 is Err && r->Finish_0->Err_0@
            == "Failed to decode packet: "@ + e@,
        decoded matches PacketDecode::Decoded { channels, rate: src_rate, interleaved } ==> (r is Continue
            <==> interleaved@.len() == 0 || channels == 0 || src_rate == 0) && (r is Continue || (r is Finish
            && r->Finish_0 is Ok)),
{
}

/// Feeding moves samples from the run to the queue without losing, repeating or
/// reordering any: queue and rest together stay the same.  It moves what there is
/// room for, and nothing where it is to stop.
pub proof fn feeding_loses_nothing<P: AudioProcessor>(
    session: &mut DecodeSession,
    stop: bool,
    shared: &mut SharedPlayback<P>,
    r: DecodeAction,
)
    requires
        call_ensures(DecodeSession::feed::<P>, (session, stop, shared), r),
        old(session).offset <= old(session).pending@.len(),
        old(session).remaining().len() > 0,
    ensures
        final(shared).queue@ + final(session).remaining() == old(shared).queue@ + old(session).remaining(),
        final(shared).queue@.len() >= old(shared).queue@.len(),
        stop ==> final(shared).queue@ == old(shared).queue@,
        !stop && final(session).remaining().len() > 0 ==> final(shared).queue@.len() >= old(shared).max_samples,
        final(shared).queue@.len() > old(shared).queue@.len() ==> final(shared).queue@.len() <= old(
            shared).max_samples,
        final(session).pending@ == old(session).pending@,
        final(session).remaining() == final(session).pending@.skip(final(session).offset as int),
        final(session).skip_output_samples == old(session).skip_output_samples,
        final(session).resample == old(session).resample,
        final(session).out_channels == old(session).out_channels,
        final(session).out_sample_rate == old(session).out_sample_rate,
        *final(shared) == (SharedPlayback { queue: final(shared).queue, ..*old(shared) }),
        stop ==> r is Continue,
        !stop ==> (r is Sleep <==> final(shared).queue@ == old(shared).queue@),
        !stop ==> (r is Continue <==> final(session).remaining().len() == 0),
        r is Continue || r is Sleep || r is Feed,
{
    let rest = old(session).remaining();
    let moved = if stop {
        0
    } else {
        crate::decode::fitting(*old(shared), rest.len() as int)
    };
    assert(rest.take(moved) + rest.skip(moved) =~= rest);
    assert(final(shared).queue@ + final(session).remaining() =~= old(shared).queue@ + rest);
    if stop {
        assert(final(shared).queue@ =~= old(shared).queue@);
    }
    if moved == 0 {
        assert(final(shared).queue@ =~= old(shared).queue@);
    } else {
        assert(final(shared).queue@.len() == old(shared).queue@.len() + moved);
    }
}

/// The end of a run says that no more samples are coming, hands its result on,
/// and leaves what is queued to be played.
pub proof fn end_of_a_run_leaves_the_queue<M: AudioMath, P: AudioProcessor>(
    result: Result<(), String>,
    shared: &mut SharedPlayback<P>,
    r: Result<(), String>,
)
    requires
        call_ensures(DecodeSession::finish::<M, P>, (result, shared), r),
    ensures
        r == result,
        final(shared).stream_finished,
        *final(shared) == (SharedPlayback { stream_finished: true, ..*old(shared) }),
{
}

} // verus!
