//! The decode thread's decisions.
//!
//! The thread reads a packet, decodes it, converts it to the device's format
//! and feeds it to the shared queue.  [`DecodeSession`] takes the outcome of
//! each of these and says what to do next; the thread does it.

use crate::effects::AudioProcessor;
use crate::enums::{MAX_RATE, MIN_RATE};
use crate::ieee::{Single, ONE};
use crate::math::AudioMath;
use crate::player_state::{PlaybackUpdate, ResampleState, SharedPlayback};
use crate::resample::convert_to_output;
use crate::text::joined;
use vstd::prelude::*;
use vstd::slice::slice_subrange;

verus! {

/// The outcome of reading the next packet of the track.
pub enum PacketRead {
    /// A packet was read.
    Packet,
    /// The track list has changed.
    ResetRequired,
    /// The stream ended or could not be read.
    IoError,
    /// Any other failure, with its text.
    Failed(String),
}

/// The outcome of decoding a packet.
pub enum PacketDecode {
    /// Interleaved samples of `channels` channels at `rate` frames per second.
    Decoded { channels: usize, rate: u32, interleaved: Vec<Single> },
    /// The packet is damaged; the next one may not be.
    DecodeError(String),
    /// The stream ended or could not be read.
    IoError,
    /// Any other failure, with its text.
    Failed(String),
}

/// What the decode thread does next.
pub enum DecodeAction {
    /// Go on with the next packet, if the thread is not to stop.
    Continue,
    /// Read the next packet.
    ReadPacket,
    /// Decode the packet that was read.
    DecodePacket,
    /// Feed the converted samples to the queue.
    Feed,
    /// The queue is full: sleep, then feed again.
    Sleep,
    /// Tell the shared state that the run has ended, see [`DecodeSession::finish`],
    /// and end the thread.
    Finish(Result<(), String>),
}

/// The rate at which the shared state asks to play: within the allowed range,
/// and normal speed where the state cannot be read.
pub open spec fn asked_rate(rate: Option<Single>) -> Single {
    match rate {
        Some(r) => r.clamped(Single { bits: MIN_RATE }, Single { bits: MAX_RATE }),
        None => Single { bits: ONE },
    }
}

pub fn playback_rate(rate: Option<Single>) -> (r: Single)
    ensures
        r == asked_rate(rate),
{
    match rate {
        Some(r) => r.clamp(Single { bits: MIN_RATE }, Single { bits: MAX_RATE }),
        None => Single { bits: ONE },
    }
}

/// Convert a source-time offset into the number of output samples to skip.
pub fn source_millis_to_output_samples<M: AudioMath>(
    start_millis: i32,
    out_sample_rate: u32,
    out_channels: usize,
    playback_rate: Single,
) -> (r: usize)
    ensures
        call_ensures(
            M::output_samples,
            (
                if start_millis < 0 { 0i32 } else { start_millis },
                out_sample_rate,
                out_channels,
                playback_rate.clamped(Single { bits: MIN_RATE }, Single { bits: MAX_RATE }),
            ),
            r,
        ),
{
    let start: i32 = if start_millis < 0 { 0 } else { start_millis };
    let rate = playback_rate.clamp(Single { bits: MIN_RATE }, Single { bits: MAX_RATE });
    M::output_samples(start, out_sample_rate, out_channels, rate)
}

/// The state of one run of the decode thread.
pub struct DecodeSession {
    pub out_channels: usize,
    pub out_sample_rate: u32,
    /// Converted samples that are still to be dropped before the start position
    /// is reached.
    pub skip_output_samples: usize,
    pub resample: ResampleState,
    /// The converted samples of the current packet.
    pub pending: Vec<Single>,
    /// How many samples of `pending` were skipped or queued.
    pub offset: usize,
}

impl DecodeSession {
    pub open spec fn well_formed(self) -> bool {
        self.offset <= self.pending@.len()
    }

    /// The converted samples that are still to be queued.
    pub open spec fn remaining(self) -> Seq<Single> {
        self.pending@.skip(self.offset as int)
    }

    /// Begins a run at `start_millis` of source time.
    pub fn new<M: AudioMath>(
        start_millis: i32,
        out_sample_rate: u32,
        out_channels: usize,
        rate: Option<Single>,
    ) -> (r: Self)
        ensures
            r.well_formed(),
            r.out_channels == out_channels,
            r.out_sample_rate == out_sample_rate,
            r.resample.pos == crate::ieee::origin(),
            r.resample.carry@ == Seq::<Single>::empty(),
            r.remaining() == Seq::<Single>::empty(),
            call_ensures(
                M::output_samples,
                (
                    if start_millis < 0 { 0i32 } else { start_millis },
                    out_sample_rate,
                    out_channels,
                    asked_rate(rate),
                ),
                r.skip_output_samples,
            ),
    {
        let wanted = playback_rate(rate);
        proof {
            if rate is Some {
                crate::ieee::clamping_is_idempotent(
                    rate->0,
                    Single { bits: MIN_RATE },
                    Single { bits: MAX_RATE },
                );
            }
        }
        let skip: usize = source_millis_to_output_samples::<M>(start_millis, out_sample_rate, out_channels, wanted);
        let r = DecodeSession {
            out_channels,
            out_sample_rate,
            skip_output_samples: skip,
            resample: ResampleState::new(),
            pending: Vec::new(),
            offset: 0,
        };
        assert(r.remaining() =~= Seq::<Single>::empty());
        r
    }

    /// The head of the loop.
    pub fn begin(stop: bool) -> (r: DecodeAction)
        ensures
            r == if stop {
                DecodeAction::Finish(Ok(()))
            } else {
                DecodeAction::ReadPacket
            },
    {
        if stop {
            DecodeAction::Finish(Ok(()))
        } else {
            DecodeAction::ReadPacket
        }
    }

    /// A read has ended.
    pub fn on_packet(read: PacketRead) -> (r: DecodeAction)
        ensures
            match read {
                PacketRead::Packet => r is DecodePacket,
                PacketRead::ResetRequired => fails_with(r, "Decoder reset required and not supported"@),
                PacketRead::IoError => r == DecodeAction::Finish(Ok(())),
                PacketRead::Failed(e) => fails_with(r, "Failed to read next packet: "@ + e@),
            },
    {
        match read {
            PacketRead::Packet => DecodeAction::DecodePacket,
            PacketRead::ResetRequired => DecodeAction::Finish(
                Err("Decoder reset required and not supported".to_owned()),
            ),
            PacketRead::IoError => DecodeAction::Finish(Ok(())),
            PacketRead::Failed(e) => DecodeAction::Finish(Err(joined("Failed to read next packet: ", e.as_str()))),
        }
    }

    /// A packet was decoded: convert it and drop what lies before the start
    /// position.
    pub fn on_decoded<M: AudioMath>(&mut self, decoded: PacketDecode, stop: bool, rate: Option<Single>) -> (r:
        DecodeAction)
        requires
            decoded matches PacketDecode::Decoded { interleaved, .. } ==> old(self).resample.carry@.len()
                + interleaved@.len() <= usize::MAX,
        ensures
            final(self).out_channels == old(self).out_channels,
            final(self).out_sample_rate == old(self).out_sample_rate,
            old(self).well_formed() ==> final(self).well_formed(),
            match decoded {
                PacketDecode::DecodeError(_) => *final(self) == *old(self) && r is Continue,
                PacketDecode::IoError => *final(self) == *old(self) && r == DecodeAction::Finish(Ok(())),
                PacketDecode::Failed(e) => *final(self) == *old(self) && fails_with(
                    r,
                    "Failed to decode packet: "@ + e@,
                ),
                PacketDecode::Decoded { channels, rate: src_rate, interleaved } => {
                    if interleaved@.len() == 0 || channels == 0 || src_rate == 0 {
                        *final(self) == *old(self) && r is Continue
                    } else if stop {
                        *final(self) == *old(self) && r == DecodeAction::Finish(Ok(()))
                    } else {
                        takes_packet::<M>(*old(self), channels, src_rate, interleaved@, asked_rate(rate), *final(self))
                            && (if final(self).remaining().len() > 0 {
                            r is Feed
                        } else {
                            r is Continue
                        })
                    }
                },
            },
    {
        match decoded {
            PacketDecode::DecodeError(_) => DecodeAction::Continue,
            PacketDecode::IoError => DecodeAction::Finish(Ok(())),
            PacketDecode::Failed(e) => DecodeAction::Finish(Err(joined("Failed to decode packet: ", e.as_str()))),
            PacketDecode::Decoded { channels, rate: src_rate, interleaved } => {
                if interleaved.len() == 0 || channels == 0 || src_rate == 0 {
                    return DecodeAction::Continue;
                }
                if stop {
                    return DecodeAction::Finish(Ok(()));
                }
                let effective: u32 = M::effective_rate(self.out_sample_rate, playback_rate(rate));
                let out = convert_to_output::<M>(
                    interleaved.as_slice(),
                    channels,
                    src_rate,
                    self.out_channels,
                    effective,
                    &mut self.resample,
                );
                let consumed: usize = if self.skip_output_samples < out.len() {
                    self.skip_output_samples
                } else {
                    out.len()
                };
                self.skip_output_samples = self.skip_output_samples - consumed;
                self.pending = out;
                self.offset = consumed;
                assert(converted_packet::<M>(
                    *old(self),
                    channels,
                    src_rate,
                    interleaved@,
                    asked_rate(rate),
                    effective,
                    *self,
                ));
                if self.offset < self.pending.len() {
                    DecodeAction::Feed
                } else {
                    DecodeAction::Continue
                }
            },
        }
    }

    /// Queue as much as fits.
    pub fn feed<P: AudioProcessor>(&mut self, stop: bool, shared: &mut SharedPlayback<P>) -> (r: DecodeAction)
        requires
            old(self).well_formed(),
            old(self).remaining().len() > 0,
        ensures
            final(self).well_formed(),
            old(shared).well_formed() ==> final(shared).well_formed(),
            feeds(*old(self), *old(shared), stop, *final(self), *final(shared)),
            if stop {
                r is Continue
            } else if old(shared).queue@.len() >= old(shared).max_samples {
                r is Sleep
            } else if final(self).remaining().len() > 0 {
                r is Feed
            } else {
                r is Continue
            },
    {
        if stop {
            assert(shared.queue@ =~= shared.queue@ + self.remaining().take(0));
            assert(self.remaining().skip(0) =~= self.remaining());
            return DecodeAction::Continue;
        }
        let rest = slice_subrange(self.pending.as_slice(), self.offset, self.pending.len());
        let pushed: usize = shared.push_samples_bounded(rest);
        proof {
            assert(rest@ =~= self.remaining());
            assert(self.pending@.skip(self.offset + pushed) =~= self.remaining().skip(pushed as int));
        }
        if pushed == 0 {
            assert(rest@.take(0) =~= Seq::<Single>::empty());
            assert(self.remaining().skip(0) =~= self.remaining());
            return DecodeAction::Sleep;
        }
        self.offset = self.offset + pushed;
        if self.offset < self.pending.len() {
            DecodeAction::Feed
        } else {
            DecodeAction::Continue
        }
    }

    /// The run has ended with `result`: no more samples are coming.
    pub fn finish<M: AudioMath, P: AudioProcessor>(
        result: Result<(), String>,
        shared: &mut SharedPlayback<P>,
    ) -> (r: Result<(), String>)
        ensures
            ends_run::<M, P>(DecodeAction::Finish(result), *old(shared), *final(shared)),
            r == result,
            old(shared).well_formed() ==> final(shared).well_formed(),
    {
        shared.apply::<M>(PlaybackUpdate::EndDecode);
        result
    }

    /// The shared state could not be locked, so nothing was queued.
    pub fn locked_out(stop: bool) -> (r: DecodeAction)
        ensures
            r == if stop {
                DecodeAction::Continue
            } else {
                DecodeAction::Sleep
            },
    {
        if stop {
            DecodeAction::Continue
        } else {
            DecodeAction::Sleep
        }
    }
}

/// Whether carrying out `action`, which ends a run, turns `before` into `after`.
pub open spec fn ends_run<M: AudioMath, P>(
    action: DecodeAction,
    before: SharedPlayback<P>,
    after: SharedPlayback<P>,
) -> bool {
    action is Finish && crate::player_state::updated::<M, P>(before, PlaybackUpdate::EndDecode, after)
}

/// Whether `action` ends the thread with the error text `message`.
pub open spec fn fails_with(action: DecodeAction, message: Seq<char>) -> bool {
    action matches DecodeAction::Finish(Err(e)) && e@ == message
}

/// Whether `after` is `before` once a packet was converted to the output rate
/// `effective`, and the samples before the start position were dropped.
pub open spec fn converted_packet<M: AudioMath>(
    before: DecodeSession,
    channels: usize,
    src_rate: u32,
    packet: Seq<Single>,
    rate: Single,
    effective: u32,
    after: DecodeSession,
) -> bool {
    let skipped = if before.skip_output_samples < after.pending@.len() {
        before.skip_output_samples as int
    } else {
        after.pending@.len() as int
    };
    &&& call_ensures(M::effective_rate, (before.out_sample_rate, rate), effective)
    &&& crate::resample::converts::<M>(
        packet,
        channels,
        src_rate,
        before.out_channels,
        effective,
        before.resample.pos,
        before.resample.carry@,
        after.resample.pos,
        after.resample.carry@,
        after.pending@,
    )
    &&& after.offset == skipped
    &&& after.skip_output_samples == before.skip_output_samples - skipped
    &&& after.out_channels == before.out_channels
    &&& after.out_sample_rate == before.out_sample_rate
}

/// Whether a packet at playback rate `rate` may turn `before` into `after`.
pub open spec fn takes_packet<M: AudioMath>(
    before: DecodeSession,
    channels: usize,
    src_rate: u32,
    packet: Seq<Single>,
    rate: Single,
    after: DecodeSession,
) -> bool {
    exists|effective: u32| #[trigger]
        converted_packet::<M>(before, channels, src_rate, packet, rate, effective, after)
}

/// The samples that fit into the queue of `shared`, of `n` that wait.
pub open spec fn fitting<P>(shared: SharedPlayback<P>, n: int) -> int {
    let room = if shared.queue@.len() < shared.max_samples {
        shared.max_samples - shared.queue@.len()
    } else {
        0
    };
    if n < room {
        n
    } else {
        room
    }
}

/// What one attempt to feed does: unless the thread is to stop, the samples
/// that fit move from the front of what remains to the end of the queue.
pub open spec fn feeds<P>(
    session: DecodeSession,
    shared: SharedPlayback<P>,
    stop: bool,
    next_session: DecodeSession,
    next_shared: SharedPlayback<P>,
) -> bool {
    let moved = if stop {
        0
    } else {
        fitting(shared, session.remaining().len() as int)
    };
    &&& next_shared.queue@ == shared.queue@ + session.remaining().take(moved)
    &&& next_session.remaining() == session.remaining().skip(moved)
    &&& next_session == DecodeSession { offset: (session.offset + moved) as usize, ..session }
    &&& next_shared == SharedPlayback { queue: next_shared.queue, ..shared }
}

} // verus!
