//! Sample codecs: G.711 μ-law (through `audio_codec_algorithms`) and the
//! little-endian sample-count headers of the worker pipes.
use vstd::prelude::*;
use vstd::arithmetic::power2::pow2;

verus! {

/// The μ-law segment of a biased magnitude: the smallest `s` below 8 with
/// `v < 64 * 2^s`, or 8 where `v` lies past the last segment.
pub open spec fn ulaw_segment(v: int) -> int {
    if v < 64 {
        0
    } else if v < 128 {
        1
    } else if v < 256 {
        2
    } else if v < 512 {
        3
    } else if v < 1024 {
        4
    } else if v < 2048 {
        5
    } else if v < 4096 {
        6
    } else if v < 8192 {
        7
    } else {
        8
    }
}

/// G.711 μ-law encoding of a sample: the sample is taken in steps of four
/// (rounding down), a negative one by its ones' complement; the magnitude
/// biased by 33 gives the segment and the four bits after its leading bit;
/// past the last segment the code is 127. The code with the sign bit (128 for
/// a negative sample) is then inverted.
pub open spec fn ulaw_encoded(linear: i16) -> u8 {
    let quarter = linear as int / 4;
    let magnitude = if linear < 0 { -quarter - 1 } else { quarter };
    let v = magnitude + 33;
    let segment = ulaw_segment(v);
    let code = if segment >= 8 { 127 } else { segment * 16 + (v / (pow2((segment + 1) as nat) as int)) % 16 };
    let sign = if linear < 0 { 128int } else { 0int };
    (255 - (sign + code)) as u8
}

/// G.711 μ-law decoding of a byte: with the byte's bits inverted, the top
/// bit is the sign, the next three the segment and the low four the step;
/// the magnitude is `(step * 8 + 132) * 2^segment - 132`.
pub open spec fn ulaw_decoded(encoded: u8) -> int {
    let u = 255 - encoded;
    let magnitude = ((u % 16) * 8 + 132) * pow2(((u % 128) / 16) as nat) - 132;
    if u >= 128 {
        -magnitude
    } else {
        magnitude
    }
}

/// G.711 μ-law encoding of one sample (`audio_codec_algorithms::encode_ulaw`,
/// which computes exactly `ulaw_encoded`: the crate checks it against the
/// G.191 reference values for every sample).
#[verifier::external_body]
pub(crate) fn mulaw_encode(sample: i16) -> (r: u8)
    ensures
        r == ulaw_encoded(sample),
{
    audio_codec_algorithms::encode_ulaw(sample)
}

/// G.711 μ-law decoding of one byte (`audio_codec_algorithms::decode_ulaw`, a
/// lookup in the crate's 256-entry table, which holds exactly the values of
/// `ulaw_decoded`).
#[verifier::external_body]
pub(crate) fn mulaw_decode(mulaw: u8) -> (r: i16)
    ensures
        r as int == ulaw_decoded(mulaw),
{
    audio_codec_algorithms::decode_ulaw(mulaw)
}

/// Every sample encoded to μ-law, in order.
pub fn encode_mulaw_samples(samples: &[i16]) -> (r: Vec<u8>)
    ensures
        r@.len() == samples@.len(),
        forall|i: int| 0 <= i < samples@.len() ==> r@[i] == ulaw_encoded(#[trigger] samples@[i]),
{
    let mut r: Vec<u8> = Vec::new();
    let mut i: usize = 0;
    while i < samples.len()
        invariant
            i <= samples@.len(),
            r@.len() == i,
            forall|k: int| 0 <= k < i ==> r@[k] == ulaw_encoded(#[trigger] samples@[k]),
        decreases samples.len() - i,
    {
        r.push(mulaw_encode(samples[i]));
        i += 1;
    }
    r
}

/// Every μ-law byte decoded to a linear sample, in order.
pub fn decode_mulaw_samples(bytes: &[u8]) -> (r: Vec<i16>)
    ensures
        r@.len() == bytes@.len(),
        forall|i: int| 0 <= i < bytes@.len() ==> r@[i] as int == ulaw_decoded(#[trigger] bytes@[i]),
{
    let mut r: Vec<i16> = Vec::new();
    let mut i: usize = 0;
    while i < bytes.len()
        invariant
            i <= bytes@.len(),
            r@.len() == i,
            forall|k: int| 0 <= k < i ==> r@[k] as int == ulaw_decoded(#[trigger] bytes@[k]),
        decreases bytes.len() - i,
    {
        r.push(mulaw_decode(bytes[i]));
        i += 1;
    }
    r
}

/// The four little-endian bytes of a 32-bit word.
pub open spec fn le_bytes(x: u32) -> Seq<u8> {
    seq![(x & 0xff) as u8, ((x >> 8u32) & 0xff) as u8, ((x >> 16u32) & 0xff) as u8, ((x >> 24u32) & 0xff) as u8]
}

/// The 32-bit word with the given little-endian bytes.
pub open spec fn le_word(b0: u8, b1: u8, b2: u8, b3: u8) -> u32 {
    (b0 as u32) | ((b1 as u32) << 8u32) | ((b2 as u32) << 16u32) | ((b3 as u32) << 24u32)
}

/// The little-endian bytes of a signed count (`i32::to_le_bytes`).
pub fn count_header(count: i32) -> (r: [u8; 4])
    ensures
        r@ == le_bytes(count as u32),
{
    let x = count as u32;
    let r = [(x & 0xff) as u8, ((x >> 8) & 0xff) as u8, ((x >> 16) & 0xff) as u8, ((x >> 24) & 0xff) as u8];
    assert(r@ =~= le_bytes(count as u32));
    r
}

/// The signed count a little-endian header holds (`i32::from_le_bytes`).
pub fn read_count_header(b: [u8; 4]) -> (r: i32)
    ensures
        r == le_word(b[0], b[1], b[2], b[3]) as i32,
{
    let x = (b[0] as u32) | ((b[1] as u32) << 8) | ((b[2] as u32) << 16) | ((b[3] as u32) << 24);
    x as i32
}

/// Reading a header back gives the count that was written.
pub proof fn lemma_count_header_roundtrip(count: i32)
    ensures
        ({
            let b = le_bytes(count as u32);
            le_word(b[0], b[1], b[2], b[3]) as i32 == count
        }),
{
    let x = count as u32;
    assert(((x & 0xff) as u8 as u32) | ((((x >> 8u32) & 0xff) as u8 as u32) << 8u32) | ((((x >> 16u32) & 0xff)
        as u8 as u32) << 16u32) | ((((x >> 24u32) & 0xff) as u8 as u32) << 24u32) == x) by (bit_vector);
    assert((count as u32) as i32 == count) by (bit_vector);
}

} // verus!
