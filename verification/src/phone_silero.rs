//! The phone voice detector's settings: 16 kHz input in chunks of 512
//! samples, passed through unchanged, with a stream that is closed after two
//! seconds without data.
use vstd::prelude::*;
use crate::vad::{samples_for_ms, VadLimits};

verus! {

/// Input rate of the phone detector.
pub const SAMPLE_RATE: u32 = 16000;

/// Samples per detector chunk.
pub const CHUNK_SIZE: usize = 512;

/// A stream without data for longer than this is closed, in milliseconds.
pub const STREAM_CLEANUP_TIMEOUT_MS: u64 = 2000;

/// The integer part of the phone detector's configuration (the probability
/// threshold is a float and stays with the model).
pub struct SileroConfig {
    pub silence_frames_to_end: usize,
    pub min_utterance_ms: u32,
    pub max_utterance_ms: u32,
}

/// Silent chunks that end an utterance when the configuration names none.
pub fn d_silence() -> (r: usize)
    ensures
        r == 20,
{
    20
}

/// Shortest utterance kept when the configuration names none, in milliseconds.
pub fn d_min() -> (r: u32)
    ensures
        r == 500,
{
    500
}

/// Longest utterance before it is cut when the configuration names none, in milliseconds.
pub fn d_max() -> (r: u32)
    ensures
        r == 10000,
{
    10000
}

impl Default for SileroConfig {
    fn default() -> (r: Self)
        ensures
            r.silence_frames_to_end == 20,
            r.min_utterance_ms == 500,
            r.max_utterance_ms == 10000,
    {
        SileroConfig { silence_frames_to_end: d_silence(), min_utterance_ms: d_min(), max_utterance_ms: d_max() }
    }
}

impl SileroConfig {
    /// Shortest utterance kept, in samples at 16 kHz.
    pub fn min_samples(&self) -> (r: u64)
        ensures
            r == (self.min_utterance_ms as int * 16000) / 1000,
    {
        samples_for_ms(self.min_utterance_ms, SAMPLE_RATE)
    }

    /// Longest utterance before it is cut, in samples at 16 kHz.
    pub fn max_samples(&self) -> (r: u64)
        ensures
            r == (self.max_utterance_ms as int * 16000) / 1000,
    {
        samples_for_ms(self.max_utterance_ms, SAMPLE_RATE)
    }

    /// The limits the detector holds utterances to.
    pub fn limits(&self) -> (r: VadLimits)
        ensures
            r.silence_frames_to_end == self.silence_frames_to_end,
            r.min_samples == (self.min_utterance_ms as int * 16000) / 1000,
            r.max_samples == (self.max_utterance_ms as int * 16000) / 1000,
    {
        VadLimits {
            silence_frames_to_end: self.silence_frames_to_end,
            min_samples: self.min_samples(),
            max_samples: self.max_samples(),
        }
    }
}

/// Whether the stream is to be closed: it was running, nothing arrived in this
/// cycle, and the last data is more than two seconds old.
pub fn stream_cleanup_due(stream_active: bool, received_this_cycle: bool, idle_ms: u64) -> (r: bool)
    ensures
        r == (stream_active && !received_this_cycle && idle_ms > STREAM_CLEANUP_TIMEOUT_MS),
{
    stream_active && !received_this_cycle && idle_ms > STREAM_CLEANUP_TIMEOUT_MS
}

} // verus!
