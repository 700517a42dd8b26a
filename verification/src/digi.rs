//! Digi: the phone-to-speech direction's buffering. μ-law bytes from the
//! phone arrive in packets of any size; they leave in fixed chunks, a partial
//! chunk is flushed padded with μ-law silence after a quiet spell, and every
//! stream end is followed by a stretch of silence for the voice detector.
use vstd::prelude::*;
use crate::buffers::{append_copies, take_front};

verus! {

/// Bytes per chunk handed to the resampler: 200 ms at 8 kHz.
pub const PHONE_IN_BUFFER_SIZE: usize = 1600;

/// A quiet spell longer than this ends the stream, in milliseconds.
pub const FLUSH_TIMEOUT_MS: u64 = 300;

/// μ-law silence.
pub const MULAW_SILENCE: u8 = 0xFF;

/// The integer part of the digi configuration (the normalisation peak is a
/// float and stays with the signal path).
pub struct DigiConfig {
    pub tts_rate: u32,
    pub phone_rate: u32,
    pub stt_rate: u32,
    pub vad_closure_silence_ms: u32,
}

/// TTS audio rate when the configuration names none.
pub fn d_tts_rate() -> (r: u32)
    ensures
        r == 24000,
{
    24000
}

/// Phone audio rate when the configuration names none.
pub fn d_phone_rate() -> (r: u32)
    ensures
        r == 8000,
{
    8000
}

/// Speech-to-text audio rate when the configuration names none.
pub fn d_stt_rate() -> (r: u32)
    ensures
        r == 16000,
{
    16000
}

/// Length of the silence after a stream end when the configuration names none.
pub fn d_vad_closure_silence_ms() -> (r: u32)
    ensures
        r == 512,
{
    512
}

impl Default for DigiConfig {
    fn default() -> (r: Self)
        ensures
            r.tts_rate == 24000,
            r.phone_rate == 8000,
            r.stt_rate == 16000,
            r.vad_closure_silence_ms == 512,
    {
        DigiConfig {
            tts_rate: d_tts_rate(),
            phone_rate: d_phone_rate(),
            stt_rate: d_stt_rate(),
            vad_closure_silence_ms: d_vad_closure_silence_ms(),
        }
    }
}

impl DigiConfig {
    /// Samples of silence after a stream end: the closure time at the
    /// speech-to-text rate, rounded down.
    pub fn vad_closure_samples(&self) -> (r: u64)
        ensures
            r == (self.vad_closure_silence_ms as int * self.stt_rate as int) / 1000,
    {
        let a = self.vad_closure_silence_ms as u64;
        let b = self.stt_rate as u64;
        assert(a * b <= 0xffff_ffff * 0xffff_ffff) by (nonlinear_arith)
            requires
                a <= 0xffff_ffff,
                b <= 0xffff_ffff,
        ;
        let product = a * b;
        product / 1000
    }
}

/// What a quiet spell calls for.
pub enum IdleAction {
    Nothing,
    /// Send `chunk` (the pending bytes padded with `padding` silence bytes),
    /// then `silence_samples` samples of silence.
    Flush { chunk: Vec<u8>, padding: usize, silence_samples: u64 },
    /// The stream ended on a chunk boundary: send `silence_samples` samples of silence.
    Close { silence_samples: u64 },
}

/// The phone-to-speech buffer.
pub struct PhoneInBuffer {
    pub buf: Vec<u8>,
    /// Bytes arrived since the buffer was last empty.
    pub has_pending_data: bool,
    /// A stream is running: data has arrived since the last stream end.
    pub stream_active: bool,
}

/// The whole chunks at the front of `buf`, in order.
pub open spec fn full_chunks(buf: Seq<u8>) -> Seq<Seq<u8>> {
    Seq::new(
        buf.len() / (PHONE_IN_BUFFER_SIZE as nat),
        |i: int| buf.subrange(i * PHONE_IN_BUFFER_SIZE, (i + 1) * PHONE_IN_BUFFER_SIZE),
    )
}

/// What remains of `buf` after its whole chunks are taken.
pub open spec fn chunk_remainder(buf: Seq<u8>) -> Seq<u8> {
    buf.skip((buf.len() / (PHONE_IN_BUFFER_SIZE as nat)) * PHONE_IN_BUFFER_SIZE)
}

/// The chunks laid end to end.
pub open spec fn concat_chunks(cs: Seq<Seq<u8>>) -> Seq<u8>
    decreases cs.len(),
{
    if cs.len() == 0 {
        Seq::empty()
    } else {
        concat_chunks(cs.drop_last()) + cs.last()
    }
}

/// `n` silence bytes.
pub open spec fn silence_bytes(n: nat) -> Seq<u8> {
    Seq::new(n, |i: int| MULAW_SILENCE)
}

impl PhoneInBuffer {
    /// An empty buffer with no stream running.
    pub fn new() -> (r: PhoneInBuffer)
        ensures
            r.buf@.len() == 0,
            !r.has_pending_data,
            !r.stream_active,
    {
        PhoneInBuffer { buf: Vec::new(), has_pending_data: false, stream_active: false }
    }

    /// A packet from the phone: non-empty packets are appended and mark the
    /// stream as running; empty ones are ignored.
    pub fn push_packet(&mut self, packet: &[u8])
        ensures
            packet@.len() == 0 ==> *final(self) == *old(self),
            packet@.len() > 0 ==> final(self).buf@ == old(self).buf@ + packet@ && final(self).has_pending_data
                && final(self).stream_active,
    {
        if packet.len() == 0 {
            return;
        }
        append_copies(&mut self.buf, packet);
        self.has_pending_data = true;
        self.stream_active = true;
    }

    /// Takes every whole chunk off the front of the buffer; a buffer left
    /// empty has nothing pending.
    pub fn drain_full_chunks(&mut self) -> (chunks: Vec<Vec<u8>>)
        ensures
            chunks@.map_values(|c: Vec<u8>| c@) == full_chunks(old(self).buf@),
            final(self).buf@ == chunk_remainder(old(self).buf@),
            final(self).buf@.len() < PHONE_IN_BUFFER_SIZE,
            final(self).has_pending_data == (old(self).has_pending_data && final(self).buf@.len() > 0),
            final(self).stream_active == old(self).stream_active,
    {
        let ghost start = self.buf@;
        let mut chunks: Vec<Vec<u8>> = Vec::new();
        while self.buf.len() >= PHONE_IN_BUFFER_SIZE
            invariant
                start.len() == self.buf@.len() + chunks@.len() * PHONE_IN_BUFFER_SIZE,
                self.buf@ == start.skip(chunks@.len() * PHONE_IN_BUFFER_SIZE),
                forall|i: int| 0 <= i < chunks@.len() ==> #[trigger] chunks@[i]@ == start.subrange(
                    i * PHONE_IN_BUFFER_SIZE,
                    (i + 1) * PHONE_IN_BUFFER_SIZE,
                ),
                self.has_pending_data == old(self).has_pending_data,
                self.stream_active == old(self).stream_active,
            decreases self.buf@.len(),
        {
            let ghost k = chunks@.len();
            let chunk = take_front(&mut self.buf, PHONE_IN_BUFFER_SIZE);
            proof {
                assert(chunk@ =~= start.subrange(k * PHONE_IN_BUFFER_SIZE, (k + 1) * PHONE_IN_BUFFER_SIZE));
                assert(self.buf@ =~= start.skip((k + 1) * PHONE_IN_BUFFER_SIZE));
            }
            chunks.push(chunk);
        }
        proof {
            let n = chunks@.len();
            assert(start.len() / (PHONE_IN_BUFFER_SIZE as nat) == n) by (nonlinear_arith)
                requires
                    start.len() == self.buf@.len() + n * PHONE_IN_BUFFER_SIZE,
                    self.buf@.len() < PHONE_IN_BUFFER_SIZE,
            ;
            assert(chunks@.map_values(|c: Vec<u8>| c@) =~= full_chunks(start));
        }
        if self.buf.len() == 0 {
            self.has_pending_data = false;
        }
        chunks
    }

    /// A quiet spell of `idle_ms` milliseconds since the last packet. Past the
    /// timeout, pending bytes are flushed as one padded chunk followed by
    /// silence, and the stream ends; a running stream with nothing pending just
    /// gets its silence and ends.
    pub fn on_idle(&mut self, idle_ms: u64, cfg: &DigiConfig) -> (a: IdleAction)
        requires
            old(self).buf@.len() < PHONE_IN_BUFFER_SIZE,
        ensures
            idle_ms > FLUSH_TIMEOUT_MS && old(self).buf@.len() > 0 && old(self).has_pending_data ==> {
                &&& (a matches IdleAction::Flush { chunk, padding, silence_samples } && chunk@ == old(self).buf@
                    + silence_bytes(padding as nat) && chunk@.len() == PHONE_IN_BUFFER_SIZE
                    && padding == PHONE_IN_BUFFER_SIZE - old(self).buf@.len()
                    && silence_samples == cfg.vad_closure_silence_ms as int * cfg.stt_rate as int / 1000)
                &&& final(self).buf@.len() == 0
                &&& !final(self).has_pending_data
                &&& !final(self).stream_active
            },
            idle_ms > FLUSH_TIMEOUT_MS && old(self).buf@.len() == 0 && !old(self).has_pending_data
                && old(self).stream_active ==> {
                &&& (a matches IdleAction::Close { silence_samples } && silence_samples
                    == cfg.vad_closure_silence_ms as int * cfg.stt_rate as int / 1000)
                &&& final(self).buf@ == old(self).buf@
                &&& final(self).has_pending_data == old(self).has_pending_data
                &&& !final(self).stream_active
            },
            !(idle_ms > FLUSH_TIMEOUT_MS && old(self).buf@.len() > 0 && old(self).has_pending_data)
                && !(idle_ms > FLUSH_TIMEOUT_MS && old(self).buf@.len() == 0 && !old(self).has_pending_data
                && old(self).stream_active) ==> a is Nothing && *final(self) == *old(self),
    {
        if idle_ms > FLUSH_TIMEOUT_MS && self.buf.len() > 0 && self.has_pending_data {
            let padding = PHONE_IN_BUFFER_SIZE - self.buf.len();
            let ghost before = self.buf@;
            while self.buf.len() < PHONE_IN_BUFFER_SIZE
                invariant
                    before.len() + padding == PHONE_IN_BUFFER_SIZE,
                    self.buf@.len() <= PHONE_IN_BUFFER_SIZE,
                    self.buf@ == before + silence_bytes((self.buf@.len() - before.len()) as nat),
                decreases PHONE_IN_BUFFER_SIZE - self.buf@.len(),
            {
                let ghost prev = self.buf@;
                self.buf.push(MULAW_SILENCE);
                assert(self.buf@ =~= before + silence_bytes((self.buf@.len() - before.len()) as nat));
            }
            let chunk = take_front(&mut self.buf, PHONE_IN_BUFFER_SIZE);
            assert(chunk@ =~= before + silence_bytes(padding as nat));
            self.has_pending_data = false;
            self.stream_active = false;
            IdleAction::Flush { chunk, padding, silence_samples: cfg.vad_closure_samples() }
        } else if idle_ms > FLUSH_TIMEOUT_MS && self.buf.len() == 0 && !self.has_pending_data
            && self.stream_active {
            self.stream_active = false;
            IdleAction::Close { silence_samples: cfg.vad_closure_samples() }
        } else {
            IdleAction::Nothing
        }
    }
}

/// Whole chunks followed by the remainder give back the buffer: draining loses
/// and invents no byte.
pub proof fn lemma_drain_conserves(buf: Seq<u8>)
    ensures
        concat_chunks(full_chunks(buf)) + chunk_remainder(buf) == buf,
        forall|i: int| 0 <= i < full_chunks(buf).len() ==> (#[trigger] full_chunks(buf)[i]).len() == PHONE_IN_BUFFER_SIZE,
        chunk_remainder(buf).len() < PHONE_IN_BUFFER_SIZE,
{
    let n = buf.len() / (PHONE_IN_BUFFER_SIZE as nat);
    assert(n * PHONE_IN_BUFFER_SIZE <= buf.len() < (n + 1) * PHONE_IN_BUFFER_SIZE) by (nonlinear_arith)
        requires
            n == buf.len() / (PHONE_IN_BUFFER_SIZE as nat),
    ;
    lemma_concat_prefix(buf, n);
    assert(full_chunks(buf).take(n as int) =~= full_chunks(buf));
    assert(buf.take(n * PHONE_IN_BUFFER_SIZE) + buf.skip(n * PHONE_IN_BUFFER_SIZE) =~= buf);
    assert forall|i: int| 0 <= i < full_chunks(buf).len() implies (#[trigger] full_chunks(buf)[i]).len()
        == PHONE_IN_BUFFER_SIZE by {
        assert((i + 1) * PHONE_IN_BUFFER_SIZE <= n * PHONE_IN_BUFFER_SIZE) by (nonlinear_arith)
            requires
                i + 1 <= n,
        ;
    }
}

proof fn lemma_concat_prefix(buf: Seq<u8>, k: nat)
    requires
        k * PHONE_IN_BUFFER_SIZE <= buf.len(),
        k <= buf.len() / (PHONE_IN_BUFFER_SIZE as nat),
    ensures
        concat_chunks(full_chunks(buf).take(k as int)) == buf.take(k * PHONE_IN_BUFFER_SIZE),
    decreases k,
{
    if k == 0 {
        assert(full_chunks(buf).take(0) =~= Seq::<Seq<u8>>::empty());
        assert(buf.take(0) =~= Seq::<u8>::empty());
    } else {
        let j = (k - 1) as nat;
        assert(j * PHONE_IN_BUFFER_SIZE <= buf.len()) by (nonlinear_arith)
            requires
                k * PHONE_IN_BUFFER_SIZE <= buf.len(),
                j + 1 == k,
        ;
        lemma_concat_prefix(buf, j);
        let t = full_chunks(buf).take(k as int);
        assert(t.drop_last() =~= full_chunks(buf).take(j as int));
        assert(k * PHONE_IN_BUFFER_SIZE == j * PHONE_IN_BUFFER_SIZE + PHONE_IN_BUFFER_SIZE) by (nonlinear_arith)
            requires
                j + 1 == k,
        ;
        assert(t.last() == buf.subrange(j * PHONE_IN_BUFFER_SIZE, k * PHONE_IN_BUFFER_SIZE));
        assert(buf.take(k * PHONE_IN_BUFFER_SIZE) =~= buf.take(j * PHONE_IN_BUFFER_SIZE) + buf.subrange(
            j * PHONE_IN_BUFFER_SIZE,
            k * PHONE_IN_BUFFER_SIZE,
        ));
    }
}

} // verus!
