//! One Twilio media-stream call as the phone gateways see it: which call is
//! active, whether the caller is muted while a reply plays, the stream id,
//! and the queue of mu-law bytes still to be sent back in 20 ms frames.
use vstd::prelude::*;
use crate::dispatch::opt_view;
use crate::plaza::{b64_group, b64_groups, b64_keep, b64_value, base64_decode_seq, is_b64_space};
use vstd::utf8::{encode_scalar, encode_utf8};
use crate::text::{owned, replace_seq, replace_str, str_eq};
use std::collections::VecDeque;

verus! {

/// Bytes of mu-law audio per outbound media frame (20 ms at 8 kHz).
pub const MEDIA_CHUNK_BYTES: usize = 160;

// ---------------------------------------------------------------------------
// Standard base64, as the media frames carry it.
// ---------------------------------------------------------------------------

/// The character of the standard base64 alphabet for a 6-bit value.
pub open spec fn b64_digit(v: int) -> char {
    if v < 26 {
        (v + 65) as char
    } else if v < 52 {
        (v + 71) as char
    } else if v < 62 {
        (v - 4) as char
    } else if v == 62 {
        '+'
    } else {
        '/'
    }
}

/// Standard base64 with `=` padding: each group of three bytes becomes four
/// characters; a final group of one or two bytes is padded to four.
pub open spec fn b64_std_encoded(s: Seq<u8>) -> Seq<char>
    decreases s.len(),
{
    if s.len() == 0 {
        Seq::empty()
    } else if s.len() == 1 {
        seq![b64_digit(s[0] as int / 4), b64_digit((s[0] as int % 4) * 16), '=', '=']
    } else if s.len() == 2 {
        seq![
            b64_digit(s[0] as int / 4),
            b64_digit((s[0] as int % 4) * 16 + s[1] as int / 16),
            b64_digit((s[1] as int % 16) * 4),
            '=',
        ]
    } else {
        seq![
            b64_digit(s[0] as int / 4),
            b64_digit((s[0] as int % 4) * 16 + s[1] as int / 16),
            b64_digit((s[1] as int % 16) * 4 + s[2] as int / 64),
            b64_digit(s[2] as int % 64),
        ] + b64_std_encoded(s.skip(3))
    }
}

/// What the `base64` crate's `STANDARD` engine decodes `text` to, or `None`
/// where it reports an error.
pub uninterp spec fn b64_std_decoded(text: Seq<char>) -> Option<Seq<u8>>;

/// `base64::engine::general_purpose::STANDARD.encode`: the padded standard
/// encoding of `bytes`, which the same engine decodes back to `bytes`.
#[verifier::external_body]
fn b64_std_encode(bytes: &[u8]) -> (r: String)
    ensures
        r@ == b64_std_encoded(bytes@),
        b64_std_decoded(r@) == Some(bytes@),
{
    base64::Engine::encode(&base64::engine::general_purpose::STANDARD, bytes)
}

/// `base64::engine::general_purpose::STANDARD.decode`: the decoded bytes, or
/// `None` where the crate reports a decode error (the error is dropped). Which
/// inputs it accepts is left to the name.
#[verifier::external_body]
fn b64_std_decode(text: &str) -> (r: Option<Vec<u8>>)
    ensures
        match r {
            Some(v) => b64_std_decoded(text@) == Some(v@),
            None => b64_std_decoded(text@) is None,
        },
{
    base64::Engine::decode(&base64::engine::general_purpose::STANDARD, text).ok()
}

// ---------------------------------------------------------------------------
// The dispatcher's decoder reads standard base64 back.
// ---------------------------------------------------------------------------

proof fn lemma_digit_byte(v: int)
    requires
        0 <= v < 64,
    ensures
        (b64_digit(v) as u32) < 128,
        encode_scalar(b64_digit(v) as u32) == seq![(b64_digit(v) as u32) as u8],
        b64_value((b64_digit(v) as u32) as u8) == Some(v as u8),
        !is_b64_space((b64_digit(v) as u32) as u8),
        (b64_digit(v) as u32) as u8 != 0x3d,
{
    let c = b64_digit(v) as u32;
    if v < 26 {
        assert(c == v + 65);
    } else if v < 52 {
        assert(c == v + 71);
    } else if v < 62 {
        assert(c == v - 4);
    } else if v == 62 {
        assert(c == 0x2b);
    } else {
        assert(c == 0x2f);
    }
    assert(encode_scalar(c) == seq![(c & 0x7F) as u8]);
    assert((c & 0x7F) == c) by (bit_vector)
        requires
            c < 128,
    ;
}

proof fn lemma_utf8_cons(c: char, rest: Seq<char>)
    requires
        (c as u32) < 128,
        encode_scalar(c as u32) == seq![(c as u32) as u8],
    ensures
        encode_utf8(seq![c] + rest) == seq![(c as u32) as u8] + encode_utf8(rest),
{
    let s = seq![c] + rest;
    assert(s[0] == c);
    assert(s.drop_first() =~= rest);
}

proof fn lemma_pad_byte()
    ensures
        encode_scalar('=' as u32) == seq![0x3du8],
{
    assert(('=' as u32) == 0x3d);
    assert((0x3du32 & 0x7F) == 0x3d) by (bit_vector);
}

/// The bytes of a group of four characters: each character's byte, then the rest.
proof fn lemma_utf8_group(c0: char, c1: char, c2: char, c3: char, rest: Seq<char>)
    requires
        (c0 as u32) < 128 && encode_scalar(c0 as u32) == seq![(c0 as u32) as u8],
        (c1 as u32) < 128 && encode_scalar(c1 as u32) == seq![(c1 as u32) as u8],
        (c2 as u32) < 128 && encode_scalar(c2 as u32) == seq![(c2 as u32) as u8],
        (c3 as u32) < 128 && encode_scalar(c3 as u32) == seq![(c3 as u32) as u8],
    ensures
        encode_utf8(seq![c0, c1, c2, c3] + rest) == seq![
            (c0 as u32) as u8,
            (c1 as u32) as u8,
            (c2 as u32) as u8,
            (c3 as u32) as u8,
        ] + encode_utf8(rest),
{
    lemma_utf8_cons(c3, rest);
    lemma_utf8_cons(c2, seq![c3] + rest);
    lemma_utf8_cons(c1, seq![c2] + (seq![c3] + rest));
    lemma_utf8_cons(c0, seq![c1] + (seq![c2] + (seq![c3] + rest)));
    assert(seq![c0, c1, c2, c3] + rest =~= seq![c0] + (seq![c1] + (seq![c2] + (seq![c3] + rest))));
    assert(seq![(c0 as u32) as u8] + (seq![(c1 as u32) as u8] + (seq![(c2 as u32) as u8] + (seq![
        (c3 as u32) as u8,
    ] + encode_utf8(rest)))) =~= seq![
        (c0 as u32) as u8,
        (c1 as u32) as u8,
        (c2 as u32) as u8,
        (c3 as u32) as u8,
    ] + encode_utf8(rest));
}

proof fn lemma_no_space_filter(s: Seq<u8>)
    requires
        forall|i: int| 0 <= i < s.len() ==> !is_b64_space(#[trigger] s[i]),
    ensures
        s.filter(b64_keep()) == s,
    decreases s.len(),
{
    reveal_with_fuel(Seq::<_>::filter, 1);
    if s.len() > 0 {
        lemma_no_space_filter(s.drop_last());
        assert(b64_keep()(s.last()));
        assert(s.drop_last().push(s.last()) =~= s);
    } else {
        assert(s.filter(b64_keep()) == s);
    }
}

/// A full group of three bytes decodes back from its four digits.
proof fn lemma_group3(x0: u8, x1: u8, x2: u8)
    ensures
        ({
            let v0 = x0 as int / 4;
            let v1 = (x0 as int % 4) * 16 + x1 as int / 16;
            let v2 = (x1 as int % 16) * 4 + x2 as int / 64;
            let v3 = x2 as int % 64;
            b64_group(
                seq![
                    (b64_digit(v0) as u32) as u8,
                    (b64_digit(v1) as u32) as u8,
                    (b64_digit(v2) as u32) as u8,
                    (b64_digit(v3) as u32) as u8,
                ],
            ) == Some(seq![x0, x1, x2])
        }),
{
    let v0 = x0 as int / 4;
    let v1 = (x0 as int % 4) * 16 + x1 as int / 16;
    let v2 = (x1 as int % 16) * 4 + x2 as int / 64;
    let v3 = x2 as int % 64;
    lemma_digit_byte(v0);
    lemma_digit_byte(v1);
    lemma_digit_byte(v2);
    lemma_digit_byte(v3);
    assert((v0 * 4 + v1 / 16) as u8 == x0);
    assert(((v1 % 16) * 16 + v2 / 4) as u8 == x1);
    assert(((v2 % 4) * 64 + v3) as u8 == x2);
}

/// A final group of two bytes decodes back from its three digits and padding.
proof fn lemma_group2(x0: u8, x1: u8)
    ensures
        ({
            let v0 = x0 as int / 4;
            let v1 = (x0 as int % 4) * 16 + x1 as int / 16;
            let v2 = (x1 as int % 16) * 4;
            b64_group(
                seq![
                    (b64_digit(v0) as u32) as u8,
                    (b64_digit(v1) as u32) as u8,
                    (b64_digit(v2) as u32) as u8,
                    0x3du8,
                ],
            ) == Some(seq![x0, x1])
        }),
{
    let v0 = x0 as int / 4;
    let v1 = (x0 as int % 4) * 16 + x1 as int / 16;
    let v2 = (x1 as int % 16) * 4;
    lemma_digit_byte(v0);
    lemma_digit_byte(v1);
    lemma_digit_byte(v2);
    assert((v0 * 4 + v1 / 16) as u8 == x0);
    assert(((v1 % 16) * 16 + v2 / 4) as u8 == x1);
}

/// A final lone byte decodes back from its two digits and padding.
proof fn lemma_group1(x0: u8)
    ensures
        ({
            let v0 = x0 as int / 4;
            let v1 = (x0 as int % 4) * 16;
            b64_group(seq![(b64_digit(v0) as u32) as u8, (b64_digit(v1) as u32) as u8, 0x3du8, 0x3du8])
                == Some(seq![x0])
        }),
{
    let v0 = x0 as int / 4;
    let v1 = (x0 as int % 4) * 16;
    lemma_digit_byte(v0);
    lemma_digit_byte(v1);
    assert((v0 * 4 + v1 / 16) as u8 == x0);
}

/// What the read-back of an encoding gives: bytes free of white space whose
/// groups decode to `x`.
spec fn reads_back(x: Seq<u8>) -> bool {
    let b = encode_utf8(b64_std_encoded(x));
    &&& forall|i: int| 0 <= i < b.len() ==> !is_b64_space(#[trigger] b[i])
    &&& b64_groups(b) == Some(x)
}

proof fn lemma_read_back_one(x: Seq<u8>)
    requires
        x.len() == 1,
    ensures
        reads_back(x),
{
    let v0 = x[0] as int / 4;
    let v1 = (x[0] as int % 4) * 16;
    lemma_digit_byte(v0);
    lemma_digit_byte(v1);
    lemma_pad_byte();
    let c0 = b64_digit(v0);
    let c1 = b64_digit(v1);
    lemma_utf8_group(c0, c1, '=', '=', Seq::empty());
    assert(b64_std_encoded(x) =~= seq![c0, c1, '=', '='] + Seq::<char>::empty());
    let g = seq![(c0 as u32) as u8, (c1 as u32) as u8, 0x3du8, 0x3du8];
    let b = encode_utf8(b64_std_encoded(x));
    assert(b =~= g);
    assert(b.take(4) =~= g);
    assert(b.skip(4) =~= Seq::<u8>::empty());
    lemma_group1(x[0]);
    assert(b64_groups(b.skip(4)) == Some(Seq::<u8>::empty()));
    assert(seq![x[0]] + Seq::<u8>::empty() =~= x);
    assert(b64_groups(b) == Some(x));
    assert forall|i: int| 0 <= i < b.len() implies !is_b64_space(#[trigger] b[i]) by {
        assert(b[i] == g[i]);
    }
}

proof fn lemma_read_back_two(x: Seq<u8>)
    requires
        x.len() == 2,
    ensures
        reads_back(x),
{
    let v0 = x[0] as int / 4;
    let v1 = (x[0] as int % 4) * 16 + x[1] as int / 16;
    let v2 = (x[1] as int % 16) * 4;
    lemma_digit_byte(v0);
    lemma_digit_byte(v1);
    lemma_digit_byte(v2);
    lemma_pad_byte();
    let c0 = b64_digit(v0);
    let c1 = b64_digit(v1);
    let c2 = b64_digit(v2);
    lemma_utf8_group(c0, c1, c2, '=', Seq::empty());
    assert(b64_std_encoded(x) =~= seq![c0, c1, c2, '='] + Seq::<char>::empty());
    let g = seq![(c0 as u32) as u8, (c1 as u32) as u8, (c2 as u32) as u8, 0x3du8];
    let b = encode_utf8(b64_std_encoded(x));
    assert(b =~= g);
    assert(b.take(4) =~= g);
    assert(b.skip(4) =~= Seq::<u8>::empty());
    lemma_group2(x[0], x[1]);
    assert(b64_groups(b.skip(4)) == Some(Seq::<u8>::empty()));
    assert(seq![x[0], x[1]] + Seq::<u8>::empty() =~= x);
    assert(b64_groups(b) == Some(x));
    assert forall|i: int| 0 <= i < b.len() implies !is_b64_space(#[trigger] b[i]) by {
        assert(b[i] == g[i]);
    }
}

proof fn lemma_read_back_step(x: Seq<u8>)
    requires
        x.len() >= 3,
        reads_back(x.skip(3)),
    ensures
        reads_back(x),
{
    let v0 = x[0] as int / 4;
    let v1 = (x[0] as int % 4) * 16 + x[1] as int / 16;
    let v2 = (x[1] as int % 16) * 4 + x[2] as int / 64;
    let v3 = x[2] as int % 64;
    lemma_digit_byte(v0);
    lemma_digit_byte(v1);
    lemma_digit_byte(v2);
    lemma_digit_byte(v3);
    let c0 = b64_digit(v0);
    let c1 = b64_digit(v1);
    let c2 = b64_digit(v2);
    let c3 = b64_digit(v3);
    let rest = b64_std_encoded(x.skip(3));
    assert(b64_std_encoded(x) == seq![c0, c1, c2, c3] + rest);
    lemma_utf8_group(c0, c1, c2, c3, rest);
    let g = seq![(c0 as u32) as u8, (c1 as u32) as u8, (c2 as u32) as u8, (c3 as u32) as u8];
    let tail = encode_utf8(rest);
    let b = encode_utf8(b64_std_encoded(x));
    assert(b == g + tail);
    assert(b.take(4) =~= g);
    assert(b.skip(4) =~= tail);
    lemma_group3(x[0], x[1], x[2]);
    assert(seq![x[0], x[1], x[2]] + x.skip(3) =~= x);
    assert forall|i: int| 0 <= i < b.len() implies !is_b64_space(#[trigger] b[i]) by {
        if i >= 4 {
            assert(b[i] == tail[i - 4]);
        }
    }
}

/// The standard encoding of `x`, as bytes, is free of white space and its
/// groups decode back to `x`.
proof fn lemma_groups_read_back(x: Seq<u8>)
    ensures
        reads_back(x),
    decreases x.len(),
{
    if x.len() == 0 {
        assert(encode_utf8(b64_std_encoded(x)) =~= Seq::<u8>::empty());
        assert(x =~= Seq::<u8>::empty());
        assert(b64_groups(Seq::<u8>::empty()) == Some(Seq::<u8>::empty()));
    } else if x.len() == 1 {
        lemma_read_back_one(x);
    } else if x.len() == 2 {
        lemma_read_back_two(x);
    } else {
        lemma_groups_read_back(x.skip(3));
        lemma_read_back_step(x);
    }
}

/// Content that a sender encodes with standard base64 is what the
/// dispatcher's decoder gives back: decoding inverts the standard encoding.
pub proof fn lemma_decoder_reads_standard_base64(x: Seq<u8>)
    ensures
        base64_decode_seq(encode_utf8(b64_std_encoded(x))) == Some(x),
{
    lemma_groups_read_back(x);
    lemma_no_space_filter(encode_utf8(b64_std_encoded(x)));
}

/// Standard base64 without the `=` padding: a final group of one or two
/// bytes gives two or three characters.
pub open spec fn b64_unpadded(s: Seq<u8>) -> Seq<char>
    decreases s.len(),
{
    if s.len() == 0 {
        Seq::empty()
    } else if s.len() == 1 {
        seq![b64_digit(s[0] as int / 4), b64_digit((s[0] as int % 4) * 16)]
    } else if s.len() == 2 {
        seq![
            b64_digit(s[0] as int / 4),
            b64_digit((s[0] as int % 4) * 16 + s[1] as int / 16),
            b64_digit((s[1] as int % 16) * 4),
        ]
    } else {
        seq![
            b64_digit(s[0] as int / 4),
            b64_digit((s[0] as int % 4) * 16 + s[1] as int / 16),
            b64_digit((s[1] as int % 16) * 4 + s[2] as int / 64),
            b64_digit(s[2] as int % 64),
        ] + b64_unpadded(s.skip(3))
    }
}

/// The padding that standard base64 puts after the encoding of `n` bytes.
pub open spec fn b64_padding(n: nat) -> Seq<char> {
    if n % 3 == 1 {
        seq!['=', '=']
    } else if n % 3 == 2 {
        seq!['=']
    } else {
        Seq::empty()
    }
}

proof fn lemma_padding_is_dropped(x: Seq<u8>)
    ensures
        b64_std_encoded(x) == b64_unpadded(x) + b64_padding(x.len()),
    decreases x.len(),
{
    if x.len() == 0 {
        assert(b64_std_encoded(x) =~= b64_unpadded(x) + b64_padding(x.len()));
    } else if x.len() == 1 || x.len() == 2 {
        assert(b64_std_encoded(x) =~= b64_unpadded(x) + b64_padding(x.len()));
    } else {
        lemma_padding_is_dropped(x.skip(3));
        assert(x.skip(3).len() % 3 == x.len() % 3);
        let g = seq![
            b64_digit(x[0] as int / 4),
            b64_digit((x[0] as int % 4) * 16 + x[1] as int / 16),
            b64_digit((x[1] as int % 16) * 4 + x[2] as int / 64),
            b64_digit(x[2] as int % 64),
        ];
        assert(g + (b64_unpadded(x.skip(3)) + b64_padding(x.len())) =~= (g + b64_unpadded(x.skip(3)))
            + b64_padding(x.len()));
    }
}

/// What the read-back of an unpadded encoding gives: bytes free of white
/// space whose groups decode to `x`.
spec fn reads_back_unpadded(x: Seq<u8>) -> bool {
    let b = encode_utf8(b64_unpadded(x));
    &&& forall|i: int| 0 <= i < b.len() ==> !is_b64_space(#[trigger] b[i])
    &&& b64_groups(b) == Some(x)
}

proof fn lemma_unpadded_short(x: Seq<u8>)
    requires
        x.len() == 1 || x.len() == 2,
    ensures
        reads_back_unpadded(x),
{
    let v0 = x[0] as int / 4;
    lemma_digit_byte(v0);
    let c0 = b64_digit(v0);
    if x.len() == 1 {
        let v1 = (x[0] as int % 4) * 16;
        lemma_digit_byte(v1);
        let c1 = b64_digit(v1);
        lemma_utf8_cons(c1, Seq::empty());
        lemma_utf8_cons(c0, seq![c1] + Seq::<char>::empty());
        assert(b64_unpadded(x) =~= seq![c0] + (seq![c1] + Seq::<char>::empty()));
        assert(encode_utf8(Seq::<char>::empty()) =~= Seq::<u8>::empty());
        let b = encode_utf8(b64_unpadded(x));
        let g = seq![(c0 as u32) as u8, (c1 as u32) as u8];
        assert(b =~= g);
        assert((v0 * 4 + v1 / 16) as u8 == x[0]);
        assert(b64_group(g) == Some(seq![x[0]]));
        assert(seq![x[0]] =~= x);
        assert forall|i: int| 0 <= i < b.len() implies !is_b64_space(#[trigger] b[i]) by {
            assert(b[i] == g[i]);
        }
    } else {
        let v1 = (x[0] as int % 4) * 16 + x[1] as int / 16;
        let v2 = (x[1] as int % 16) * 4;
        lemma_digit_byte(v1);
        lemma_digit_byte(v2);
        let c1 = b64_digit(v1);
        let c2 = b64_digit(v2);
        lemma_utf8_cons(c2, Seq::empty());
        lemma_utf8_cons(c1, seq![c2] + Seq::<char>::empty());
        lemma_utf8_cons(c0, seq![c1] + (seq![c2] + Seq::<char>::empty()));
        assert(b64_unpadded(x) =~= seq![c0] + (seq![c1] + (seq![c2] + Seq::<char>::empty())));
        assert(encode_utf8(Seq::<char>::empty()) =~= Seq::<u8>::empty());
        let b = encode_utf8(b64_unpadded(x));
        let g = seq![(c0 as u32) as u8, (c1 as u32) as u8, (c2 as u32) as u8];
        assert(b =~= g);
        assert((v0 * 4 + v1 / 16) as u8 == x[0]);
        assert(((v1 % 16) * 16 + v2 / 4) as u8 == x[1]);
        assert(b64_group(g) == Some(seq![x[0], x[1]]));
        assert(seq![x[0], x[1]] =~= x);
        assert forall|i: int| 0 <= i < b.len() implies !is_b64_space(#[trigger] b[i]) by {
            assert(b[i] == g[i]);
        }
    }
}

proof fn lemma_unpadded_step(x: Seq<u8>)
    requires
        x.len() >= 3,
        reads_back_unpadded(x.skip(3)),
    ensures
        reads_back_unpadded(x),
{
    let v0 = x[0] as int / 4;
    let v1 = (x[0] as int % 4) * 16 + x[1] as int / 16;
    let v2 = (x[1] as int % 16) * 4 + x[2] as int / 64;
    let v3 = x[2] as int % 64;
    lemma_digit_byte(v0);
    lemma_digit_byte(v1);
    lemma_digit_byte(v2);
    lemma_digit_byte(v3);
    let c0 = b64_digit(v0);
    let c1 = b64_digit(v1);
    let c2 = b64_digit(v2);
    let c3 = b64_digit(v3);
    let rest = b64_unpadded(x.skip(3));
    assert(b64_unpadded(x) == seq![c0, c1, c2, c3] + rest);
    lemma_utf8_group(c0, c1, c2, c3, rest);
    let g = seq![(c0 as u32) as u8, (c1 as u32) as u8, (c2 as u32) as u8, (c3 as u32) as u8];
    let tail = encode_utf8(rest);
    let b = encode_utf8(b64_unpadded(x));
    assert(b == g + tail);
    assert(b.take(4) =~= g);
    assert(b.skip(4) =~= tail);
    lemma_group3(x[0], x[1], x[2]);
    assert(seq![x[0], x[1], x[2]] + x.skip(3) =~= x);
    assert forall|i: int| 0 <= i < b.len() implies !is_b64_space(#[trigger] b[i]) by {
        if i >= 4 {
            assert(b[i] == tail[i - 4]);
        }
    }
}

proof fn lemma_unpadded_read_back(x: Seq<u8>)
    ensures
        reads_back_unpadded(x),
    decreases x.len(),
{
    if x.len() == 0 {
        assert(encode_utf8(b64_unpadded(x)) =~= Seq::<u8>::empty());
        assert(x =~= Seq::<u8>::empty());
        assert(b64_groups(Seq::<u8>::empty()) == Some(Seq::<u8>::empty()));
    } else if x.len() < 3 {
        lemma_unpadded_short(x);
    } else {
        lemma_unpadded_read_back(x.skip(3));
        lemma_unpadded_step(x);
    }
}

/// Content encoded with standard base64 and its `=` padding left off is read
/// back too: the unpadded form is the standard encoding without its padding,
/// and the dispatcher's decoder turns it into the encoded bytes.
pub proof fn lemma_decoder_reads_unpadded_base64(x: Seq<u8>)
    ensures
        b64_std_encoded(x) == b64_unpadded(x) + b64_padding(x.len()),
        base64_decode_seq(encode_utf8(b64_unpadded(x))) == Some(x),
{
    lemma_padding_is_dropped(x);
    lemma_unpadded_read_back(x);
    lemma_no_space_filter(encode_utf8(b64_unpadded(x)));
}

// ---------------------------------------------------------------------------
// Webhook answers.
// ---------------------------------------------------------------------------

/// The websocket form of the server address: `https://` becomes `wss://`,
/// then `http://` becomes `ws://`.
pub open spec fn ws_url_seq(server: Seq<char>) -> Seq<char> {
    replace_seq(replace_seq(server, "https://"@, "wss://"@), "http://"@, "ws://"@)
}

/// The websocket address that Twilio is told to stream to (see `ws_url_seq`).
pub fn ws_url(server_url: &str) -> (r: String)
    ensures
        r@ == ws_url_seq(server_url@),
{
    proof {
        reveal_strlit("https://");
        reveal_strlit("http://");
    }
    let a = replace_str(server_url, "https://", "wss://");
    replace_str(a.as_str(), "http://", "ws://")
}

/// The TwiML that answers a call: an optional spoken greeting, then a media
/// stream to `<ws>/ws`.
pub open spec fn twiml_seq(ws: Seq<char>, say: Option<Seq<char>>) -> Seq<char> {
    "<?xml version=\"1.0\" encoding=\"UTF-8\"?><Response>"@ + match say {
        Some(t) => "<Say voice=\"Polly.Ruth-Neural\">"@ + t + "</Say>"@,
        None => Seq::<char>::empty(),
    } + "<Connect><Stream url=\""@ + ws + "/ws\" /></Connect></Response>"@
}

/// The TwiML answer for a call (see `twiml_seq`).
pub fn stream_twiml(ws: &str, say: Option<&str>) -> (r: String)
    ensures
        r@ == twiml_seq(ws@, match say {
            Some(t) => Some(t@),
            None => None,
        }),
{
    let mut r = owned("<?xml version=\"1.0\" encoding=\"UTF-8\"?><Response>");
    match say {
        Some(t) => {
            r.append("<Say voice=\"Polly.Ruth-Neural\">");
            r.append(t);
            r.append("</Say>");
        },
        None => {},
    }
    r.append("<Connect><Stream url=\"");
    r.append(ws);
    r.append("/ws\" /></Connect></Response>");
    r
}

// ---------------------------------------------------------------------------
// The call session.
// ---------------------------------------------------------------------------

/// A message from Twilio's media stream, by its `event` field.
pub enum TwilioEvent {
    Connected,
    /// `start.streamSid` and the top-level `streamSid`, where present.
    Start { start_sid: Option<String>, top_sid: Option<String> },
    /// `media.payload`, where present.
    Media { payload: Option<String> },
    /// `mark.name`, where present.
    Mark { name: Option<String> },
    Stop,
    /// No `event`, or one the gateways do not act on.
    Other,
}

/// What the gateway does with an inbound message.
pub enum InboundAction {
    Nothing,
    /// Caller audio (mu-law bytes) to put on the bus.
    Forward { bytes: Vec<u8> },
    /// The reply finished playing: unmute the caller after a short delay.
    ScheduleUnmute,
    /// The stream stopped; the call is over.
    End,
}

/// Which gateway drives the outbound queue.
pub enum Gateway {
    /// Mutes the caller when reply audio is queued; sends only whole frames.
    Twilio,
    /// Mutes the caller while frames go out, flushes a partial frame when
    /// the queue runs low, and follows each reply with a mark.
    Web,
}

/// One turn of the outbound sender.
pub enum OutboundStep {
    /// No call is active: the sender stops.
    Stop,
    /// `media`: stream id and base64 payload of a media frame to send;
    /// `mark`: stream id for a "tts-done" mark to send; `idle`: wait 20 ms.
    Send { media: Option<(String, String)>, mark: Option<String>, idle: bool },
}

/// The state shared by a gateway's websocket handler, its sender and its bus thread.
pub struct CallSession {
    pub call_active: bool,
    /// The caller's audio is dropped while a reply plays (echo gate).
    pub speaking: bool,
    pub stream_sid: Option<String>,
    /// A mark is owed after the queued reply has gone out.
    pub mark_pending: bool,
    pub outbound: VecDeque<u8>,
}

/// A media frame as (stream id, payload) views.
pub open spec fn media_view(m: Option<(String, String)>) -> Option<(Seq<char>, Seq<char>)> {
    match m {
        Some((a, b)) => Some((a@, b@)),
        None => None,
    }
}

/// A sent frame's payload decodes back to the audio it was made from.
pub open spec fn decodes_to(m: Option<(String, String)>, chunk: Seq<u8>) -> bool {
    match m {
        Some((_, p)) => b64_std_decoded(p@) == Some(chunk),
        None => true,
    }
}

/// The frame that carries `chunk` on stream `sid`: none without a stream id.
pub open spec fn frame_for(sid: Option<String>, chunk: Seq<u8>) -> Option<(Seq<char>, Seq<char>)> {
    match sid {
        Some(s) => Some((s@, b64_std_encoded(chunk))),
        None => None,
    }
}

/// The stream id a `start` message sets: `start.streamSid`, else the top-level one.
pub open spec fn started_sid(start_sid: Option<String>, top_sid: Option<String>) -> Option<Seq<char>> {
    match start_sid {
        Some(s) => Some(s@),
        None => opt_view(top_sid),
    }
}

/// The two sessions agree on everything but the stream id.
pub open spec fn same_but_sid(a: CallSession, b: CallSession) -> bool {
    &&& a.call_active == b.call_active
    &&& a.speaking == b.speaking
    &&& a.mark_pending == b.mark_pending
    &&& a.outbound@ == b.outbound@
}

impl CallSession {
    /// No call, nothing queued.
    pub fn new() -> (r: CallSession)
        ensures
            !r.call_active,
            !r.speaking,
            r.stream_sid is None,
            !r.mark_pending,
            r.outbound@.len() == 0,
    {
        CallSession {
            call_active: false,
            speaking: false,
            stream_sid: None,
            mark_pending: false,
            outbound: VecDeque::new(),
        }
    }

    /// A websocket opens: it is taken only when no other call is active, and
    /// then starts without a stream id.
    pub fn accept(&mut self) -> (ok: bool)
        ensures
            ok == !old(self).call_active,
            ok ==> final(self).call_active && final(self).stream_sid is None && final(self).speaking
                == old(self).speaking && final(self).mark_pending == old(self).mark_pending
                && final(self).outbound@ == old(self).outbound@,
            !ok ==> *final(self) == *old(self),
    {
        if self.call_active {
            return false;
        }
        self.call_active = true;
        self.stream_sid = None;
        true
    }

    /// The call is over: no call is active and the caller is no longer muted.
    pub fn end(&mut self)
        ensures
            !final(self).call_active,
            !final(self).speaking,
            final(self).stream_sid == old(self).stream_sid,
            final(self).mark_pending == old(self).mark_pending,
            final(self).outbound@ == old(self).outbound@,
    {
        self.call_active = false;
        self.speaking = false;
    }

    /// The reply has finished playing: the caller is heard again.
    pub fn unmute(&mut self)
        ensures
            !final(self).speaking,
            final(self).call_active == old(self).call_active,
            final(self).stream_sid == old(self).stream_sid,
            final(self).mark_pending == old(self).mark_pending,
            final(self).outbound@ == old(self).outbound@,
    {
        self.speaking = false;
    }

    /// An inbound message: `start` records the stream id; `media` yields the
    /// decoded caller audio unless the caller is muted or the payload does
    /// not decode; the "tts-done" mark schedules the unmute; `stop` ends the call.
    pub fn on_event(&mut self, ev: TwilioEvent) -> (a: InboundAction)
        ensures
            match ev {
                TwilioEvent::Start { start_sid, top_sid } => {
                    &&& a is Nothing
                    &&& opt_view(final(self).stream_sid) == started_sid(start_sid, top_sid)
                    &&& same_but_sid(*final(self), *old(self))
                },
                TwilioEvent::Media { payload } => {
                    &&& *final(self) == *old(self)
                    &&& match (old(self).speaking, payload) {
                        (false, Some(p)) => match b64_std_decoded(p@) {
                            Some(b) => a matches InboundAction::Forward { bytes } && bytes@ == b,
                            None => a is Nothing,
                        },
                        _ => a is Nothing,
                    }
                },
                TwilioEvent::Mark { name } => {
                    &&& *final(self) == *old(self)
                    &&& if name matches Some(n) && n@ == "tts-done"@ {
                        a is ScheduleUnmute
                    } else {
                        a is Nothing
                    }
                },
                TwilioEvent::Stop => {
                    &&& a is End
                    &&& !final(self).call_active
                    &&& !final(self).speaking
                    &&& final(self).stream_sid == old(self).stream_sid
                    &&& final(self).mark_pending == old(self).mark_pending
                    &&& final(self).outbound@ == old(self).outbound@
                },
                _ => a is Nothing && *final(self) == *old(self),
            },
    {
        match ev {
            TwilioEvent::Start { start_sid, top_sid } => {
                self.stream_sid = match start_sid {
                    Some(s) => Some(s),
                    None => top_sid,
                };
                InboundAction::Nothing
            },
            TwilioEvent::Media { payload } => {
                if self.speaking {
                    return InboundAction::Nothing;
                }
                match payload {
                    Some(p) => match b64_std_decode(p.as_str()) {
                        Some(bytes) => InboundAction::Forward { bytes },
                        None => InboundAction::Nothing,
                    },
                    None => InboundAction::Nothing,
                }
            },
            TwilioEvent::Mark { name } => {
                match name {
                    Some(n) => {
                        if str_eq(n.as_str(), "tts-done") {
                            InboundAction::ScheduleUnmute
                        } else {
                            InboundAction::Nothing
                        }
                    },
                    None => InboundAction::Nothing,
                }
            },
            TwilioEvent::Stop => {
                self.end();
                InboundAction::End
            },
            _ => InboundAction::Nothing,
        }
    }

    /// Reply audio for the web gateway: queued behind what is waiting, with a
    /// mark owed once it has gone out. Empty audio changes nothing.
    pub fn queue_marked(&mut self, mulaw: &[u8])
        ensures
            mulaw@.len() == 0 ==> *final(self) == *old(self),
            mulaw@.len() > 0 ==> final(self).outbound@ == old(self).outbound@ + mulaw@,
            mulaw@.len() > 0 ==> final(self).mark_pending,
            mulaw@.len() > 0 ==> final(self).call_active == old(self).call_active,
            mulaw@.len() > 0 ==> final(self).speaking == old(self).speaking,
            mulaw@.len() > 0 ==> final(self).stream_sid == old(self).stream_sid,
    {
        if mulaw.len() == 0 {
            return;
        }
        self.push_all(mulaw);
        self.mark_pending = true;
    }

    /// Reply audio for the Twilio gateway: queued behind what is waiting, and
    /// the caller muted while it plays.
    pub fn queue_muted(&mut self, mulaw: &[u8])
        ensures
            final(self).outbound@ == old(self).outbound@ + mulaw@,
            final(self).speaking,
            final(self).call_active == old(self).call_active,
            final(self).mark_pending == old(self).mark_pending,
            final(self).stream_sid == old(self).stream_sid,
    {
        self.speaking = true;
        self.push_all(mulaw);
    }

    fn push_all(&mut self, bytes: &[u8])
        ensures
            final(self).outbound@ == old(self).outbound@ + bytes@,
            final(self).call_active == old(self).call_active,
            final(self).speaking == old(self).speaking,
            final(self).mark_pending == old(self).mark_pending,
            final(self).stream_sid == old(self).stream_sid,
    {
        let mut i: usize = 0;
        while i < bytes.len()
            invariant
                i <= bytes@.len(),
                self.outbound@ == old(self).outbound@ + bytes@.take(i as int),
                self.call_active == old(self).call_active,
                self.speaking == old(self).speaking,
                self.mark_pending == old(self).mark_pending,
                self.stream_sid == old(self).stream_sid,
            decreases bytes@.len() - i,
        {
            self.outbound.push_back(bytes[i]);
            i += 1;
            assert(bytes@.take(i as int) == bytes@.take(i - 1).push(bytes@[i - 1]));
        }
        assert(bytes@.take(bytes@.len() as int) =~= bytes@);
    }

    fn pop_bytes(&mut self, n: usize) -> (r: Vec<u8>)
        requires
            n <= old(self).outbound@.len(),
        ensures
            r@ == old(self).outbound@.take(n as int),
            final(self).outbound@ == old(self).outbound@.skip(n as int),
            final(self).call_active == old(self).call_active,
            final(self).speaking == old(self).speaking,
            final(self).mark_pending == old(self).mark_pending,
            final(self).stream_sid == old(self).stream_sid,
    {
        let mut r: Vec<u8> = Vec::new();
        let mut i: usize = 0;
        while i < n
            invariant
                i <= n <= old(self).outbound@.len(),
                r@ == old(self).outbound@.take(i as int),
                self.outbound@ == old(self).outbound@.skip(i as int),
                self.call_active == old(self).call_active,
                self.speaking == old(self).speaking,
                self.mark_pending == old(self).mark_pending,
                self.stream_sid == old(self).stream_sid,
            decreases n - i,
        {
            let b = self.outbound.pop_front();
            match b {
                Some(x) => {
                    r.push(x);
                },
                None => {},
            }
            i += 1;
            assert(old(self).outbound@.take(i as int) =~= old(self).outbound@.take(i - 1).push(
                old(self).outbound@[i - 1],
            ));
            assert(self.outbound@ =~= old(self).outbound@.skip(i as int));
        }
        r
    }

    /// The frame for `chunk` on this call's stream, if it has one.
    fn frame(&self, chunk: &Vec<u8>) -> (m: Option<(String, String)>)
        ensures
            media_view(m) == frame_for(self.stream_sid, chunk@),
            decodes_to(m, chunk@),
    {
        match &self.stream_sid {
            Some(sid) => Some((sid.clone(), b64_std_encode(chunk.as_slice()))),
            None => None,
        }
    }

    /// One turn of the outbound sender. With a whole frame queued it is taken
    /// and sent (the web gateway mutes the caller while it plays). Otherwise
    /// the web gateway sends what is left as a last short frame, an owed mark
    /// is sent, and the sender waits. Frames and marks need a stream id;
    /// without one they are dropped.
    pub fn next_outbound(&mut self, gw: Gateway) -> (step: OutboundStep)
        ensures
            !old(self).call_active ==> step is Stop && *final(self) == *old(self),
            old(self).call_active ==> (step matches OutboundStep::Send { media, mark, idle } && {
                let q = old(self).outbound@;
                &&& final(self).call_active
                &&& final(self).stream_sid == old(self).stream_sid
                &&& if q.len() >= MEDIA_CHUNK_BYTES {
                    &&& final(self).outbound@ == q.skip(MEDIA_CHUNK_BYTES as int)
                    &&& media_view(media) == frame_for(old(self).stream_sid, q.take(MEDIA_CHUNK_BYTES as int))
                    &&& decodes_to(media, q.take(MEDIA_CHUNK_BYTES as int))
                    &&& mark is None
                    &&& !idle
                    &&& final(self).mark_pending == old(self).mark_pending
                    &&& final(self).speaking == (gw is Web || old(self).speaking)
                } else {
                    &&& idle
                    &&& !final(self).mark_pending
                    &&& final(self).speaking == old(self).speaking
                    &&& opt_view(mark) == (if old(self).mark_pending {
                        opt_view(old(self).stream_sid)
                    } else {
                        None
                    })
                    &&& gw is Web ==> decodes_to(media, q)
                    &&& gw is Web ==> final(self).outbound@.len() == 0 && media_view(media) == (if q.len()
                        > 0 {
                        frame_for(old(self).stream_sid, q)
                    } else {
                        None
                    })
                    &&& gw is Twilio ==> final(self).outbound@ == q && media is None
                }
            }),
    {
        if !self.call_active {
            return OutboundStep::Stop;
        }
        if self.outbound.len() >= MEDIA_CHUNK_BYTES {
            let chunk = self.pop_bytes(MEDIA_CHUNK_BYTES);
            if let Gateway::Web = gw {
                self.speaking = true;
            }
            let media = self.frame(&chunk);
            return OutboundStep::Send { media, mark: None, idle: false };
        }
        let ghost q = self.outbound@;
        let mut media: Option<(String, String)> = None;
        if let Gateway::Web = gw {
            let n = self.outbound.len();
            if n > 0 {
                let tail = self.pop_bytes(n);
                assert(q.take(n as int) =~= q);
                media = self.frame(&tail);
            }
            proof {
                assert(self.outbound@.len() == 0);
            }
        }
        let owed = self.mark_pending;
        self.mark_pending = false;
        let mark = if owed {
            match &self.stream_sid {
                Some(sid) => Some(sid.clone()),
                None => None,
            }
        } else {
            None
        };
        OutboundStep::Send { media, mark, idle: true }
    }
}

} // verus!
