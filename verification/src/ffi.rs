//! The decisions of the C surface: argument checks, reply buffers and status
//! codes.
//!
//! # Error codes
//!
//! * `0`    — success.
//! * `> 0`  — positive result (e.g., byte/sample count).
//! * `-1`   — general engine / operation error.
//! * `-2`   — bad argument (null pointer, invalid range, …).
//! * `-500` — engine mutex poisoned.
//! * `-501` — engine failed to initialise.
//! * `-502` — engine reference missing after init.

use crate::engine::{AudioEngine, EngineAction};
use crate::player_state::{PlaybackUpdate, PlayerState};
use vstd::prelude::*;

verus! {

/// What the place of the singleton engine holds.
#[derive(Clone, Copy, Debug, PartialEq, Eq, Structural)]
pub enum EngineSlot {
    /// Its mutex is poisoned.
    Poisoned,
    /// There is no engine.
    Empty,
    /// There is an engine.
    Filled,
}

/// What a dispatcher does next to run an operation.
#[derive(Clone, Copy, Debug, PartialEq, Eq, Structural)]
pub enum DispatchStep {
    /// Make an engine, then ask again.
    Create,
    /// Run the operation on the engine.
    Run,
    /// Give up with [`Dispatch::Poisoned`].
    RefusePoisoned,
    /// Give up with [`Dispatch::InitFailed`].
    RefuseInitFailed,
    /// Give up with [`Dispatch::Missing`].
    RefuseMissing,
}

/// Acquire the engine, initialising it on the first call.  `created` says
/// whether an attempt to make one succeeded, where there was one.
pub fn dispatch_step(slot: EngineSlot, created: Option<bool>) -> (r: DispatchStep)
    ensures
        r == match (slot, created) {
            (EngineSlot::Poisoned, _) => DispatchStep::RefusePoisoned,
            (EngineSlot::Filled, _) => DispatchStep::Run,
            (EngineSlot::Empty, None) => DispatchStep::Create,
            (EngineSlot::Empty, Some(false)) => DispatchStep::RefuseInitFailed,
            (EngineSlot::Empty, Some(true)) => DispatchStep::RefuseMissing,
        },
{
    match slot {
        EngineSlot::Poisoned => DispatchStep::RefusePoisoned,
        EngineSlot::Filled => DispatchStep::Run,
        EngineSlot::Empty => match created {
            None => DispatchStep::Create,
            Some(false) => DispatchStep::RefuseInitFailed,
            Some(true) => DispatchStep::RefuseMissing,
        },
    }
}

/// What came of running an operation on the singleton engine.
pub enum Dispatch<R> {
    /// The engine's mutex is poisoned.
    Poisoned,
    /// The engine could not be made.
    InitFailed,
    /// There is no engine after one was made.
    Missing,
    /// The operation ran.
    Done(R),
}

/// Rebuild the stream after a device error.
pub fn revise_stream(engine: &mut AudioEngine) -> (r: Vec<EngineAction>)
    ensures
        *final(engine) == (AudioEngine { stream_started: false, ..*old(engine) }),
        r@ == seq![
            EngineAction::StopDecode,
            EngineAction::Update(PlaybackUpdate::Interrupt),
            EngineAction::EnsureStream,
            EngineAction::StartDecode,
            EngineAction::Update(PlaybackUpdate::SetPlaying(true)),
        ],
{
    engine.reset_stream()
}

/// The result of an operation, or `default` where it did not run.
pub fn with_engine<R>(outcome: Dispatch<R>, default: R) -> (r: R)
    ensures
        r == match outcome {
            Dispatch::Done(value) => value,
            _ => default,
        },
{
    match outcome {
        Dispatch::Done(value) => value,
        _ => default,
    }
}

/// The code of an operation that did not run.
pub open spec fn failure_code<R>(outcome: Dispatch<R>) -> int {
    match outcome {
        Dispatch::Poisoned => -500,
        Dispatch::InitFailed => -501,
        _ => -502,
    }
}

/// The code of an operation without a result.
pub fn with_engine_mut(outcome: Dispatch<Result<(), String>>) -> (r: i32)
    ensures
        r == match outcome {
            Dispatch::Done(Ok(_)) => 0,
            Dispatch::Done(Err(_)) => -1,
            _ => failure_code(outcome),
        },
{
    match outcome {
        Dispatch::Done(Ok(_)) => 0,
        Dispatch::Done(Err(_)) => -1,
        Dispatch::Poisoned => -500,
        Dispatch::InitFailed => -501,
        Dispatch::Missing => -502,
    }
}

/// The code of a query.
pub fn with_engine_ref(outcome: Dispatch<i32>) -> (r: i32)
    ensures
        r == match outcome {
            Dispatch::Done(value) => value as int,
            _ => failure_code(outcome),
        },
{
    match outcome {
        Dispatch::Done(value) => value,
        Dispatch::Poisoned => -500,
        Dispatch::InitFailed => -501,
        Dispatch::Missing => -502,
    }
}

/// The code of an operation with a result.
pub fn with_engine_mut_i32(outcome: Dispatch<Result<i32, String>>) -> (r: i32)
    ensures
        r == match outcome {
            Dispatch::Done(Ok(value)) => value as int,
            Dispatch::Done(Err(_)) => -1,
            _ => failure_code(outcome),
        },
{
    match outcome {
        Dispatch::Done(Ok(value)) => value,
        Dispatch::Done(Err(_)) => -1,
        Dispatch::Poisoned => -500,
        Dispatch::InitFailed => -501,
        Dispatch::Missing => -502,
    }
}

/// The code of a player state.
pub fn player_state_code(state: PlayerState) -> (r: i32)
    ensures
        r == match state {
            PlayerState::Idle => 0int,
            PlayerState::Playing => 1,
            PlayerState::Paused => 2,
            PlayerState::Stopped => 3,
        },
{
    match state {
        PlayerState::Idle => 0,
        PlayerState::Playing => 1,
        PlayerState::Paused => 2,
        PlayerState::Stopped => 3,
    }
}

// ── Argument checks ───────────────────────────────────────────────────────────

/// The length of a caller's buffer, or the code of a bad one.
pub fn buffer_len(is_null: bool, len: i32) -> (r: Result<usize, i32>)
    ensures
        r == if is_null || len <= 0 {
            Err::<usize, i32>(-2i32)
        } else {
            Ok::<usize, i32>(len as usize)
        },
{
    if is_null || len <= 0 {
        Err(-2)
    } else {
        Ok(len as usize)
    }
}

/// The queue length that a caller asks for, or the code of a bad one.
pub fn queue_seconds(seconds: i32) -> (r: Result<usize, i32>)
    ensures
        r == if seconds <= 0 {
            Err::<usize, i32>(-2i32)
        } else {
            Ok::<usize, i32>(seconds as usize)
        },
{
    if seconds <= 0 {
        Err(-2)
    } else {
        Ok(seconds as usize)
    }
}

/// The path of a source file, or the code of a bad one: `text` is `None` where
/// the pointer is null or not UTF-8, and `opens` says whether the file opens.
pub fn source_path(text: Option<String>, opens: bool) -> (r: Result<String, i32>)
    ensures
        r == match text {
            None => Err::<String, i32>(-2i32),
            Some(path) => if opens {
                Ok::<String, i32>(path)
            } else {
                Err::<String, i32>(-1i32)
            },
        },
{
    match text {
        None => Err(-2),
        Some(path) => if opens {
            Ok(path)
        } else {
            Err(-1)
        },
    }
}

// ── Replies ───────────────────────────────────────────────────────────────────

/// The answer to a caller that has handed in a buffer.
pub struct Reply {
    /// The bytes to copy to the start of the buffer.
    pub bytes: Vec<u8>,
    pub code: i32,
}

fn copied(bytes: &[u8], n: usize) -> (r: Vec<u8>)
    requires
        n <= bytes@.len(),
    ensures
        r@ == bytes@.take(n as int),
{
    let mut r: Vec<u8> = Vec::new();
    let mut i: usize = 0;
    while i < n
        invariant
            i <= n <= bytes@.len(),
            r@ =~= bytes@.take(i as int),
        decreases n - i,
    {
        r.push(bytes[i]);
        i = i + 1;
    }
    r
}

/// Answers with a metadata text and a terminating zero in a buffer of `max_len`
/// bytes.  The code is the length of the text; `-1` where there is none, `-2`
/// where it is empty or does not fit.
pub fn metadata_reply(json: Result<String, String>, max_len: i32) -> (r: Reply)
    ensures
        match json {
            Err(_) => r.code == -1 && r.bytes@ == Seq::<u8>::empty(),
            Ok(text) => {
                let bytes = vstd::utf8::encode_utf8(text@);
                let len = bytes.len() as i32;
                if len <= 0 || len >= max_len {
                    r.code == -2 && r.bytes@ == Seq::<u8>::empty()
                } else {
                    r.code == len && r.bytes@ == bytes.take(len as int).push(0u8)
                }
            },
        },
        r.bytes@.len() == 0 || r.bytes@.len() <= max_len,
{
    match json {
        Err(_) => Reply { bytes: Vec::new(), code: -1 },
        Ok(text) => {
            let bytes = text.as_str().as_bytes();
            let total: usize = bytes.len();
            let len: i32 = total as i32;
            if len <= 0 || len >= max_len {
                return Reply { bytes: Vec::new(), code: -2 };
            }
            proof {
                lemma_cut_is_smaller(total);
            }
            let mut copy = copied(bytes, len as usize);
            copy.push(0);
            Reply { bytes: copy, code: len }
        },
    }
}

/// Cutting a length to 32 bits does not make it larger.
proof fn lemma_cut_is_smaller(n: usize)
    ensures
        (n as i32) <= n,
{
    assert((n as i32) <= n) by (bit_vector);
}

/// Answers with as much of a picture as a buffer of `max_len` bytes holds.  The
/// code is the number of bytes; `-1` where the source cannot be read.
pub fn thumbnail_reply(picture: Result<Vec<u8>, String>, max_len: i32) -> (r: Reply)
    requires
        max_len > 0,
    ensures
        match picture {
            Err(_) => r.code == -1 && r.bytes@ == Seq::<u8>::empty(),
            Ok(data) => {
                let len = if data@.len() < max_len {
                    data@.len() as int
                } else {
                    max_len as int
                };
                r.code == len && r.bytes@ == data@.take(len)
            },
        },
{
    match picture {
        Err(_) => Reply { bytes: Vec::new(), code: -1 },
        Ok(data) => {
            let limit: usize = max_len as usize;
            let len: usize = if data.len() < limit { data.len() } else { limit };
            Reply { bytes: copied(data.as_slice(), len), code: len as i32 }
        },
    }
}

} // verus!
