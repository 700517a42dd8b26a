//! The voice-activity state machine shared by the microphone and phone
//! detectors: chunks judged speech or not are gathered into utterances, which
//! are published once enough trailing silence follows, or when they grow too
//! long; utterances that end too short are dropped.
use vstd::prelude::*;
use crate::buffers::append_copies;

verus! {

/// Where the detector stands.
pub enum VadState {
    Silence,
    Speech,
    Trailing,
}

/// The limits an utterance is held to, in chunks and samples.
#[derive(Clone, Copy)]
pub struct VadLimits {
    pub silence_frames_to_end: usize,
    pub min_samples: u64,
    pub max_samples: u64,
}

/// What one chunk (or the end of a stream) led to.
pub enum VadEvent<T> {
    /// Nothing to report.
    Quiet,
    /// Speech began with this chunk.
    SpeechStarted,
    /// A finished utterance to publish.
    Published(Vec<T>),
    /// An utterance ended shorter than the minimum and was dropped.
    TooShort,
}

/// The detector: its state, the silent chunks seen while trailing, and the
/// utterance gathered so far.
pub struct VadTracker<T> {
    pub state: VadState,
    pub silence_count: usize,
    pub utterance: Vec<T>,
}

impl<T: Copy> VadTracker<T> {
    /// Well-formed: in silence nothing is gathered; while trailing at least one
    /// silent chunk has been counted, and more than one only while below the
    /// end count.
    pub open spec fn wf(&self, limits: VadLimits) -> bool {
        &&& self.state is Silence ==> self.utterance@.len() == 0
        &&& self.state is Trailing ==> self.silence_count >= 1 && (self.silence_count == 1
            || self.silence_count < limits.silence_frames_to_end)
    }

    /// A detector in silence with nothing gathered.
    pub fn new() -> (r: VadTracker<T>)
        ensures
            r.state is Silence,
            r.silence_count == 0,
            r.utterance@.len() == 0,
    {
        VadTracker { state: VadState::Silence, silence_count: 0, utterance: Vec::new() }
    }

    /// Hands over the gathered utterance, leaving the detector's buffer empty.
    fn take_utterance(&mut self) -> (u: Vec<T>)
        ensures
            u@ == old(self).utterance@,
            final(self).utterance@.len() == 0,
            final(self).state == old(self).state,
            final(self).silence_count == old(self).silence_count,
    {
        let mut u: Vec<T> = Vec::new();
        std::mem::swap(&mut u, &mut self.utterance);
        u
    }

    /// One chunk, judged speech or not.
    ///
    /// In silence, speech starts an utterance with the chunk. In speech, the
    /// chunk is gathered; a silent chunk starts the trailing count at one; an
    /// utterance that reaches the maximum is published and the detector returns
    /// to silence. While trailing, the chunk is gathered; speech returns to
    /// speech, silence counts on, and at the end count the utterance is
    /// published (or dropped when below the minimum) and the detector returns
    /// to silence.
    pub fn step(&mut self, chunk: &[T], speech: bool, limits: VadLimits) -> (e: VadEvent<T>)
        requires
            old(self).wf(limits),
        ensures
            final(self).wf(limits),
            old(self).state is Silence && !speech ==> e is Quiet && *final(self) == *old(self),
            old(self).state is Silence && speech ==> e is SpeechStarted && final(self).state is Speech
                && final(self).utterance@ == chunk@ && final(self).silence_count == old(self).silence_count,
            old(self).state is Speech ==> ({
                let u = old(self).utterance@ + chunk@;
                if u.len() >= limits.max_samples {
                    &&& (e matches VadEvent::Published(p) && p@ == u)
                    &&& final(self).state is Silence
                    &&& final(self).utterance@.len() == 0
                    &&& final(self).silence_count == if speech { old(self).silence_count } else { 1 }
                } else {
                    &&& e is Quiet
                    &&& final(self).utterance@ == u
                    &&& (if speech {
                        final(self).state is Speech && final(self).silence_count == old(self).silence_count
                    } else {
                        final(self).state is Trailing && final(self).silence_count == 1
                    })
                }
            }),
            old(self).state is Trailing && speech ==> e is Quiet && final(self).state is Speech
                && final(self).silence_count == 0 && final(self).utterance@ == old(self).utterance@ + chunk@,
            old(self).state is Trailing && !speech ==> ({
                let u = old(self).utterance@ + chunk@;
                if old(self).silence_count + 1 >= limits.silence_frames_to_end {
                    &&& (if u.len() >= limits.min_samples {
                        e matches VadEvent::Published(p) && p@ == u
                    } else {
                        e is TooShort
                    })
                    &&& final(self).state is Silence
                    &&& final(self).silence_count == 0
                    &&& final(self).utterance@.len() == 0
                } else {
                    &&& e is Quiet
                    &&& final(self).state is Trailing
                    &&& final(self).silence_count == old(self).silence_count + 1
                    &&& final(self).utterance@ == u
                }
            }),
    {
        match self.state {
            VadState::Silence => {
                if speech {
                    self.state = VadState::Speech;
                    self.utterance.clear();
                    append_copies(&mut self.utterance, chunk);
                    assert(self.utterance@ =~= chunk@);
                    VadEvent::SpeechStarted
                } else {
                    VadEvent::Quiet
                }
            },
            VadState::Speech => {
                append_copies(&mut self.utterance, chunk);
                if !speech {
                    self.silence_count = 1;
                    self.state = VadState::Trailing;
                }
                if self.utterance.len() as u64 >= limits.max_samples {
                    let u = self.take_utterance();
                    self.state = VadState::Silence;
                    VadEvent::Published(u)
                } else {
                    VadEvent::Quiet
                }
            },
            VadState::Trailing => {
                append_copies(&mut self.utterance, chunk);
                if speech {
                    self.silence_count = 0;
                    self.state = VadState::Speech;
                    VadEvent::Quiet
                } else {
                    self.silence_count = self.silence_count + 1;
                    if self.silence_count >= limits.silence_frames_to_end {
                        let e = if self.utterance.len() as u64 >= limits.min_samples {
                            VadEvent::Published(self.take_utterance())
                        } else {
                            VadEvent::TooShort
                        };
                        self.state = VadState::Silence;
                        self.silence_count = 0;
                        self.utterance.clear();
                        e
                    } else {
                        VadEvent::Quiet
                    }
                }
            },
        }
    }

    /// The stream ended: an utterance in progress takes in the leftover
    /// samples and is published when it reaches the minimum (dropped
    /// otherwise); the detector returns to silence and the leftovers are cleared.
    pub fn end_stream(&mut self, incoming: &mut Vec<T>, limits: VadLimits) -> (e: VadEvent<T>)
        requires
            old(self).wf(limits),
        ensures
            final(self).wf(limits),
            final(incoming)@.len() == 0,
            old(self).state is Silence ==> e is Quiet && *final(self) == *old(self),
            !(old(self).state is Silence) ==> ({
                let u = old(self).utterance@ + old(incoming)@;
                &&& (if u.len() >= limits.min_samples {
                    e matches VadEvent::Published(p) && p@ == u
                } else if u.len() > 0 {
                    e is TooShort
                } else {
                    e is Quiet
                })
                &&& final(self).state is Silence
                &&& final(self).silence_count == 0
                &&& final(self).utterance@.len() == 0
            }),
    {
        let e = match self.state {
            VadState::Silence => VadEvent::Quiet,
            _ => {
                append_copies(&mut self.utterance, incoming.as_slice());
                let e = if self.utterance.len() as u64 >= limits.min_samples {
                    VadEvent::Published(self.take_utterance())
                } else if self.utterance.len() > 0 {
                    VadEvent::TooShort
                } else {
                    VadEvent::Quiet
                };
                self.state = VadState::Silence;
                self.silence_count = 0;
                self.utterance.clear();
                e
            },
        };
        incoming.clear();
        e
    }
}

/// Samples in `ms` milliseconds at `rate`, rounded down.
pub fn samples_for_ms(ms: u32, rate: u32) -> (r: u64)
    ensures
        r == (ms as int * rate as int) / 1000,
{
    let a = ms as u64;
    let b = rate as u64;
    assert(a * b <= 0xffff_ffff * 0xffff_ffff) by (nonlinear_arith)
        requires
            a <= 0xffff_ffff,
            b <= 0xffff_ffff,
    ;
    (a * b) / 1000
}

} // verus!
