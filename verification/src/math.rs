//! The arithmetic that playback needs on binary floating-point numbers.

use crate::ieee::{Double, Single};
use vstd::prelude::*;

verus! {

/// Floating-point arithmetic, supplied by the embedding program.
///
/// No method carries a contract: the crate is verified for every arithmetic,
/// and its contracts say through `call_ensures` which operation was applied to
/// which values.
pub trait AudioMath {
    /// `sample * volume`.
    fn scale(sample: Single, volume: Single) -> Single;

    /// `position + rate`.
    fn advance(position: Double, rate: Single) -> Double;

    /// The count `samples` as a position.
    fn position_of(samples: u64) -> Double;

    /// The time, in nanoseconds, that `position` interleaved samples take at
    /// `sample_rate` frames of `channels` samples per second; zero where the
    /// position is negative.
    fn elapsed_nanos(position: Double, sample_rate: u32, channels: usize) -> u128;

    /// The whole milliseconds that `samples` interleaved samples take at
    /// `sample_rate` frames of `channels` samples per second.
    fn queued_millis(samples: usize, channels: usize, sample_rate: u32) -> i32;

    /// Whether the fractional frame `position` has a frame to its right among
    /// `frames` frames: `position + 1 < frames`.
    fn has_right(frames: usize, position: Double) -> bool;

    /// The whole part of `position`, zero where it is negative, and what is left
    /// of it.
    fn split(position: Double) -> Tap;

    /// `position + src_rate / out_rate`.
    fn step(position: Double, src_rate: u32, out_rate: u32) -> Double;

    /// `position - frames`.
    fn rebase(position: Double, frames: usize) -> Double;

    /// The arithmetic mean of the samples of one frame.
    fn mix(frame: &[Single]) -> Single;

    /// `left + (right - left) * fraction`.
    fn interpolate(left: Single, right: Single, fraction: Single) -> Single;

    /// The whole output rate at which `out_sample_rate` plays at `rate`, at
    /// least one.
    fn effective_rate(out_sample_rate: u32, rate: Single) -> u32;

    /// The number of output samples that `millis` milliseconds of source time
    /// take at `rate`.
    fn output_samples(millis: i32, out_sample_rate: u32, out_channels: usize, rate: Single) -> usize;

    /// The whole milliseconds that `frames` frames take at `sample_rate`.
    fn duration_millis(frames: u64, sample_rate: u32) -> i32;

    /// The seconds that `frames` frames take at `sample_rate`, as text.
    fn duration_text(frames: u64, sample_rate: u32) -> String;

    /// A sample as a signed 16-bit number.
    fn to_signed(sample: Single) -> i16;

    /// A sample as an unsigned 16-bit number around the middle of its range.
    fn to_unsigned(sample: Single) -> u16;
}

/// A place between two source frames: `fraction` of the way from frame `index`
/// to the next.
#[derive(Clone, Copy, Debug, PartialEq, Eq, Structural)]
pub struct Tap {
    pub index: usize,
    pub fraction: Single,
}

} // verus!
