//! The fixed audio format and the buffering parameters.

use vstd::prelude::*;

verus! {

/// Samples per second of every stream and of the output.
pub const SAMPLE_RATE: u32 = 16000;

/// Channels per stream: mono.
pub const CHANNELS: u16 = 1;

/// Bits in one sample.
pub const BITS_PER_SAMPLE: u16 = 16;

/// Samples in one frame: 20 ms at `SAMPLE_RATE`.
pub const FRAME_SIZE: usize = 320;

/// The most samples a queue may hold: one second of audio.
pub const MAX_QUEUE_LEN: usize = 16000;

/// Frames a queue must hold before its source is mixed.
pub const JITTER_FRAMES: usize = 3;

/// Samples a queue must hold before its source is mixed.
pub const JITTER_THRESHOLD: usize = FRAME_SIZE * JITTER_FRAMES;

/// Milliseconds between two ticks of the mixer.
pub const TICK_MILLIS: u64 = 20;

/// The smallest value of a sample.
pub const MIN_SAMPLE: i16 = -32768;

/// The largest value of a sample.
pub const MAX_SAMPLE: i16 = 32767;

/// The parameters agree with each other: a tick lasts as long as a frame
/// plays, a full queue holds one second, and the jitter threshold is a
/// whole number of frames that a queue can hold.
pub proof fn lemma_parameters_agree()
    ensures
        TICK_MILLIS * SAMPLE_RATE == FRAME_SIZE * 1000,
        MAX_QUEUE_LEN == SAMPLE_RATE,
        JITTER_THRESHOLD == FRAME_SIZE * JITTER_FRAMES,
        FRAME_SIZE <= JITTER_THRESHOLD <= MAX_QUEUE_LEN,
        MIN_SAMPLE == i16::MIN,
        MAX_SAMPLE == i16::MAX,
{
}

} // verus!
