//! The microphone voice detector's settings: 48 kHz input in chunks of 1536
//! samples, utterances decimated to 16 kHz for speech-to-text.
use vstd::prelude::*;
use crate::buffers::{decimate, every_nth};
use crate::vad::{samples_for_ms, VadLimits};

verus! {

/// Input rate of the microphone detector.
pub const SAMPLE_RATE: u32 = 48000;

/// Rate speech-to-text expects.
pub const STT_RATE: u32 = 16000;

/// Keep one sample in three to go from 48 kHz to 16 kHz.
pub const DECIMATE: usize = 3;

/// Samples per detector chunk: 512 at 16 kHz, three times over.
pub const CHUNK_SIZE: usize = 1536;

/// The integer part of the microphone detector's configuration (the
/// probability threshold is a float and stays with the model).
pub struct SileroConfig {
    pub silence_frames_to_end: usize,
    pub min_utterance_ms: u32,
    pub max_utterance_ms: u32,
}

/// Silent chunks that end an utterance when the configuration names none.
pub fn d_silence() -> (r: usize)
    ensures
        r == 20,
{
    20
}

/// Shortest utterance kept when the configuration names none, in milliseconds.
pub fn d_min() -> (r: u32)
    ensures
        r == 500,
{
    500
}

/// Longest utterance before it is cut when the configuration names none, in milliseconds.
pub fn d_max() -> (r: u32)
    ensures
        r == 10000,
{
    10000
}

impl Default for SileroConfig {
    fn default() -> (r: Self)
        ensures
            r.silence_frames_to_end == 20,
            r.min_utterance_ms == 500,
            r.max_utterance_ms == 10000,
    {
        SileroConfig { silence_frames_to_end: d_silence(), min_utterance_ms: d_min(), max_utterance_ms: d_max() }
    }
}

impl SileroConfig {
    /// Shortest utterance kept, in samples at 48 kHz.
    pub fn min_samples(&self) -> (r: u64)
        ensures
            r == (self.min_utterance_ms as int * 48000) / 1000,
    {
        samples_for_ms(self.min_utterance_ms, SAMPLE_RATE)
    }

    /// Longest utterance before it is cut, in samples at 48 kHz.
    pub fn max_samples(&self) -> (r: u64)
        ensures
            r == (self.max_utterance_ms as int * 48000) / 1000,
    {
        samples_for_ms(self.max_utterance_ms, SAMPLE_RATE)
    }

    /// The limits the detector holds utterances to.
    pub fn limits(&self) -> (r: VadLimits)
        ensures
            r.silence_frames_to_end == self.silence_frames_to_end,
            r.min_samples == (self.min_utterance_ms as int * 48000) / 1000,
            r.max_samples == (self.max_utterance_ms as int * 48000) / 1000,
    {
        VadLimits {
            silence_frames_to_end: self.silence_frames_to_end,
            min_samples: self.min_samples(),
            max_samples: self.max_samples(),
        }
    }
}

/// An utterance brought from 48 kHz to 16 kHz by keeping every third sample.
pub fn to_stt_rate<T: Copy>(utterance: &[T]) -> (r: Vec<T>)
    ensures
        r@ == every_nth(utterance@, 3),
{
    decimate(utterance, DECIMATE)
}

} // verus!
