//! Text-to-speech preparation: text split into chunks the model accepts,
//! token sequences checked and padded, voice prefixes recognised.
use vstd::prelude::*;
use vstd::utf8::*;
use crate::text::{chars_of, decimal, decimal_seq, owned, string_of, string_of_range, str_eq};

verus! {

/// Longest chunk, in UTF-8 bytes, that is grown by adding another piece.
pub const MAX_CHUNK_BYTES: usize = 300;

/// The voice used when the text names none.
pub const DEFAULT_VOICE: &'static str = "af_heart";

/// Style vectors per voice file, and floats per style vector.
pub const STYLE_ROWS: usize = 510;
pub const STYLE_WIDTH: usize = 256;

/// Characters that end a piece: `.` `!` `?` for sentences, `,` `;` `—` for clauses.
pub open spec fn ends_piece(clause: bool, c: char) -> bool {
    if clause {
        c == ',' || c == ';' || c == '—'
    } else {
        c == '.' || c == '!' || c == '?'
    }
}

/// `s` cut after every piece-ending character (what `str::split_inclusive`
/// yields): the pieces are non-empty, lie end to end, and all but possibly the
/// last end with a piece-ending character.
pub open spec fn split_pieces_seq(s: Seq<char>, clause: bool) -> Seq<Seq<char>>
    decreases s.len(),
{
    if s.len() == 0 {
        Seq::empty()
    } else {
        let p = split_pieces_seq(s.drop_last(), clause);
        if p.len() == 0 || ends_piece(clause, p.last().last()) {
            p.push(seq![s.last()])
        } else {
            p.update(p.len() - 1, p.last().push(s.last()))
        }
    }
}

/// UTF-8 length of a character sequence, as `str::len` reports it (a string
/// held in memory is always shorter than `usize::MAX` bytes).
pub open spec fn byte_len(s: Seq<char>) -> nat {
    (encode_utf8(s).len() as usize) as nat
}

/// Adding a clause to the chunk being built: when both together exceed the
/// limit and the chunk is not empty, the chunk is closed and the clause starts
/// the next one.
pub open spec fn add_clause(st: (Seq<Seq<char>>, Seq<char>), sub: Seq<char>) -> (Seq<Seq<char>>, Seq<char>) {
    if byte_len(st.1) + byte_len(sub) > MAX_CHUNK_BYTES && st.1.len() > 0 {
        (st.0.push(st.1), sub)
    } else {
        (st.0, st.1 + sub)
    }
}

/// Clauses added one after another.
pub open spec fn add_clauses(st: (Seq<Seq<char>>, Seq<char>), subs: Seq<Seq<char>>) -> (Seq<Seq<char>>, Seq<char>)
    decreases subs.len(),
{
    if subs.len() == 0 {
        st
    } else {
        add_clause(add_clauses(st, subs.drop_last()), subs.last())
    }
}

/// Adding a sentence to the chunk being built: a sentence that does not fit
/// closes the (non-empty) chunk; a sentence longer than the limit is then
/// added clause by clause.
pub open spec fn add_sentence(st: (Seq<Seq<char>>, Seq<char>), part: Seq<char>) -> (Seq<Seq<char>>, Seq<char>) {
    if byte_len(st.1) + byte_len(part) > MAX_CHUNK_BYTES {
        let closed: (Seq<Seq<char>>, Seq<char>) = if st.1.len() > 0 {
            (st.0.push(st.1), Seq::empty())
        } else {
            st
        };
        if byte_len(part) > MAX_CHUNK_BYTES {
            add_clauses(closed, split_pieces_seq(part, true))
        } else {
            (closed.0, closed.1 + part)
        }
    } else {
        (st.0, st.1 + part)
    }
}

/// Sentences added one after another.
pub open spec fn add_sentences(st: (Seq<Seq<char>>, Seq<char>), parts: Seq<Seq<char>>) -> (Seq<Seq<char>>, Seq<char>)
    decreases parts.len(),
{
    if parts.len() == 0 {
        st
    } else {
        add_sentence(add_sentences(st, parts.drop_last()), parts.last())
    }
}

/// The chunks of `text`: its sentences gathered into chunks as above, the last
/// chunk closed if not empty; text that yields no chunk is one chunk itself.
pub open spec fn split_sentences_seq(text: Seq<char>) -> Seq<Seq<char>> {
    let st = add_sentences((Seq::empty(), Seq::empty()), split_pieces_seq(text, false));
    let chunks = if st.1.len() > 0 { st.0.push(st.1) } else { st.0 };
    if chunks.len() == 0 { seq![text] } else { chunks }
}

/// Chunks put back together, in order.
pub open spec fn joined(cs: Seq<Seq<char>>) -> Seq<char>
    decreases cs.len(),
{
    if cs.len() == 0 {
        Seq::empty()
    } else {
        joined(cs.drop_last()) + cs.last()
    }
}

/// The closed chunks and the open one, put back together.
pub open spec fn joined_state(st: (Seq<Seq<char>>, Seq<char>)) -> Seq<char> {
    joined(st.0) + st.1
}

proof fn lemma_joined_push(cs: Seq<Seq<char>>, c: Seq<char>)
    ensures
        joined(cs.push(c)) == joined(cs) + c,
{
    assert(cs.push(c).drop_last() =~= cs);
}

proof fn lemma_pieces_keep_text(s: Seq<char>, clause: bool)
    ensures
        joined(split_pieces_seq(s, clause)) == s,
    decreases s.len(),
{
    if s.len() > 0 {
        let p = split_pieces_seq(s.drop_last(), clause);
        lemma_pieces_keep_text(s.drop_last(), clause);
        if p.len() == 0 || ends_piece(clause, p.last().last()) {
            lemma_joined_push(p, seq![s.last()]);
        } else {
            let u = p.update(p.len() - 1, p.last().push(s.last()));
            assert(u.drop_last() =~= p.drop_last());
            assert(joined(p) == joined(p.drop_last()) + p.last());
            assert(joined(u) == joined(u.drop_last()) + u.last());
        }
        assert(s.drop_last().push(s.last()) =~= s);
    }
}

proof fn lemma_clauses_keep_text(st: (Seq<Seq<char>>, Seq<char>), subs: Seq<Seq<char>>)
    ensures
        joined_state(add_clauses(st, subs)) == joined_state(st) + joined(subs),
    decreases subs.len(),
{
    if subs.len() == 0 {
        assert(joined_state(st) + joined(subs) =~= joined_state(st));
    } else {
        lemma_clauses_keep_text(st, subs.drop_last());
        let mid = add_clauses(st, subs.drop_last());
        if byte_len(mid.1) + byte_len(subs.last()) > MAX_CHUNK_BYTES && mid.1.len() > 0 {
            lemma_joined_push(mid.0, mid.1);
        }
        assert(joined_state(add_clause(mid, subs.last())) =~= joined_state(mid) + subs.last());
        assert(joined_state(st) + joined(subs) =~= joined_state(st) + joined(subs.drop_last()) + subs.last());
    }
}

proof fn lemma_sentence_keeps_text(st: (Seq<Seq<char>>, Seq<char>), part: Seq<char>)
    ensures
        joined_state(add_sentence(st, part)) == joined_state(st) + part,
{
    if byte_len(st.1) + byte_len(part) > MAX_CHUNK_BYTES {
        let closed: (Seq<Seq<char>>, Seq<char>) = if st.1.len() > 0 {
            (st.0.push(st.1), Seq::empty())
        } else {
            st
        };
        if st.1.len() > 0 {
            lemma_joined_push(st.0, st.1);
        }
        assert(joined_state(closed) =~= joined_state(st));
        if byte_len(part) > MAX_CHUNK_BYTES {
            lemma_clauses_keep_text(closed, split_pieces_seq(part, true));
            lemma_pieces_keep_text(part, true);
        } else {
            assert(joined_state((closed.0, closed.1 + part)) =~= joined_state(closed) + part);
        }
    } else {
        assert(joined_state((st.0, st.1 + part)) =~= joined_state(st) + part);
    }
}

proof fn lemma_sentences_keep_text(st: (Seq<Seq<char>>, Seq<char>), parts: Seq<Seq<char>>)
    ensures
        joined_state(add_sentences(st, parts)) == joined_state(st) + joined(parts),
    decreases parts.len(),
{
    if parts.len() == 0 {
        assert(joined_state(st) + joined(parts) =~= joined_state(st));
    } else {
        lemma_sentences_keep_text(st, parts.drop_last());
        lemma_sentence_keeps_text(add_sentences(st, parts.drop_last()), parts.last());
        assert(joined_state(st) + joined(parts) =~= joined_state(st) + joined(parts.drop_last()) + parts.last());
    }
}

/// Splitting text for speech loses and reorders nothing: the chunks, put
/// back together in order, are the text.
pub proof fn lemma_split_sentences_keeps_text(text: Seq<char>)
    ensures
        joined(split_sentences_seq(text)) == text,
{
    let empty: (Seq<Seq<char>>, Seq<char>) = (Seq::empty(), Seq::empty());
    let pieces = split_pieces_seq(text, false);
    lemma_pieces_keep_text(text, false);
    lemma_sentences_keep_text(empty, pieces);
    assert(joined_state(empty) =~= Seq::<char>::empty());
    let st = add_sentences(empty, pieces);
    assert(joined_state(st) =~= text);
    if st.1.len() > 0 {
        lemma_joined_push(st.0, st.1);
    } else {
        assert(joined(st.0) =~= joined_state(st));
    }
    let chunks = if st.1.len() > 0 { st.0.push(st.1) } else { st.0 };
    if chunks.len() == 0 {
        assert(seq![text].drop_last() =~= Seq::<Seq<char>>::empty());
        assert(joined(seq![text]) =~= text);
    }
}

/// Every chunk holds at least one character.
pub open spec fn all_nonempty(cs: Seq<Seq<char>>) -> bool {
    forall|i: int| 0 <= i < cs.len() ==> #[trigger] cs[i].len() > 0
}

proof fn lemma_clauses_close_nonempty(st: (Seq<Seq<char>>, Seq<char>), subs: Seq<Seq<char>>)
    requires
        all_nonempty(st.0),
    ensures
        all_nonempty(add_clauses(st, subs).0),
    decreases subs.len(),
{
    if subs.len() > 0 {
        lemma_clauses_close_nonempty(st, subs.drop_last());
        let mid = add_clauses(st, subs.drop_last());
        let next = add_clause(mid, subs.last());
        assert forall|i: int| 0 <= i < next.0.len() implies #[trigger] next.0[i].len() > 0 by {
            if i < mid.0.len() {
                assert(next.0[i] == mid.0[i]);
            }
        }
    }
}

proof fn lemma_sentences_close_nonempty(st: (Seq<Seq<char>>, Seq<char>), parts: Seq<Seq<char>>)
    requires
        all_nonempty(st.0),
    ensures
        all_nonempty(add_sentences(st, parts).0),
    decreases parts.len(),
{
    if parts.len() > 0 {
        lemma_sentences_close_nonempty(st, parts.drop_last());
        let mid = add_sentences(st, parts.drop_last());
        let part = parts.last();
        let closed: (Seq<Seq<char>>, Seq<char>) = if mid.1.len() > 0 {
            (mid.0.push(mid.1), Seq::empty())
        } else {
            mid
        };
        assert forall|i: int| 0 <= i < closed.0.len() implies #[trigger] closed.0[i].len() > 0 by {
            if i < mid.0.len() {
                assert(closed.0[i] == mid.0[i]);
            }
        }
        if byte_len(mid.1) + byte_len(part) > MAX_CHUNK_BYTES && byte_len(part) > MAX_CHUNK_BYTES {
            lemma_clauses_close_nonempty(closed, split_pieces_seq(part, true));
        }
    }
}

/// Splitting text for speech always gives at least one chunk: the empty
/// text gives the one empty chunk, and any other text gives chunks that each
/// hold at least one character.
pub proof fn lemma_split_sentences_nonempty(text: Seq<char>)
    ensures
        split_sentences_seq(text).len() > 0,
        text.len() == 0 ==> split_sentences_seq(text) == seq![text],
        text.len() > 0 ==> all_nonempty(split_sentences_seq(text)),
{
    let empty: (Seq<Seq<char>>, Seq<char>) = (Seq::empty(), Seq::empty());
    let pieces = split_pieces_seq(text, false);
    lemma_sentences_close_nonempty(empty, pieces);
    let st = add_sentences(empty, pieces);
    let chunks = if st.1.len() > 0 { st.0.push(st.1) } else { st.0 };
    assert forall|i: int| 0 <= i < chunks.len() implies #[trigger] chunks[i].len() > 0 by {
        if i < st.0.len() {
            assert(chunks[i] == st.0[i]);
        }
    }
    if text.len() == 0 {
        assert(pieces.len() == 0);
        assert(st == empty);
    }
}

/// No piece-ending character of the given kind before the last character.
pub open spec fn calm_before_end(c: Seq<char>, clause: bool) -> bool {
    forall|i: int| 0 <= i < c.len() - 1 ==> !ends_piece(clause, #[trigger] c[i])
}

/// No piece-ending character of the given kind at all.
pub open spec fn calm(c: Seq<char>, clause: bool) -> bool {
    forall|i: int| 0 <= i < c.len() ==> !ends_piece(clause, #[trigger] c[i])
}

/// A chunk the splitter keeps whole: at most `MAX_CHUNK_BYTES` bytes, or
/// with no sentence or clause end before its last character, so that there
/// is nowhere to split it.
pub open spec fn chunk_fits(c: Seq<char>) -> bool {
    byte_len(c) <= MAX_CHUNK_BYTES || (calm_before_end(c, false) && calm_before_end(c, true))
}

/// The closed chunks and the open one all fit.
pub open spec fn state_fits(st: (Seq<Seq<char>>, Seq<char>)) -> bool {
    &&& forall|i: int| 0 <= i < st.0.len() ==> chunk_fits(#[trigger] st.0[i])
    &&& chunk_fits(st.1)
}

proof fn lemma_encode_concat(a: Seq<char>, b: Seq<char>)
    ensures
        encode_utf8(a + b) == encode_utf8(a) + encode_utf8(b),
    decreases a.len(),
{
    if a.len() == 0 {
        assert(a + b =~= b);
        assert(encode_utf8(a) + encode_utf8(b) =~= encode_utf8(b));
    } else {
        lemma_encode_concat(a.drop_first(), b);
        assert((a + b).drop_first() =~= a.drop_first() + b);
        assert((a + b)[0] == a[0]);
        assert(encode_scalar(a[0] as u32) + (encode_utf8(a.drop_first()) + encode_utf8(b)) =~= (
        encode_scalar(a[0] as u32) + encode_utf8(a.drop_first())) + encode_utf8(b));
    }
}

/// Two texts whose byte counts add up to at most the limit make a text of
/// that many bytes, as long as the two together are held in memory.
proof fn lemma_byte_len_concat(a: Seq<char>, b: Seq<char>)
    requires
        encode_utf8(a + b).len() <= usize::MAX,
        byte_len(a) + byte_len(b) <= MAX_CHUNK_BYTES,
    ensures
        byte_len(a + b) <= MAX_CHUNK_BYTES,
{
    lemma_encode_concat(a, b);
}

proof fn lemma_pieces_calm(s: Seq<char>, clause: bool)
    ensures
        forall|i: int| 0 <= i < split_pieces_seq(s, clause).len() ==> {
            &&& #[trigger] split_pieces_seq(s, clause)[i].len() > 0
            &&& calm_before_end(split_pieces_seq(s, clause)[i], clause)
        },
    decreases s.len(),
{
    if s.len() > 0 {
        lemma_pieces_calm(s.drop_last(), clause);
        let p = split_pieces_seq(s.drop_last(), clause);
        let q = split_pieces_seq(s, clause);
        if p.len() == 0 || ends_piece(clause, p.last().last()) {
            assert forall|i: int| 0 <= i < q.len() implies #[trigger] q[i].len() > 0 && calm_before_end(q[i], clause) by {
                if i < p.len() {
                    assert(q[i] == p[i]);
                }
            }
        } else {
            let last = p.last();
            assert(p[p.len() - 1] == last);
            assert forall|i: int| 0 <= i < q.len() implies #[trigger] q[i].len() > 0 && calm_before_end(q[i], clause) by {
                if i < p.len() - 1 {
                    assert(q[i] == p[i]);
                } else {
                    assert(q[i] == last.push(s.last()));
                    assert forall|j: int| 0 <= j < q[i].len() - 1 implies !ends_piece(clause, #[trigger] q[i][j]) by {
                        assert(q[i][j] == last[j]);
                    }
                }
            }
        }
    }
}

proof fn lemma_clause_pieces_stay_calm(s: Seq<char>)
    requires
        calm(s, false),
    ensures
        forall|i: int| 0 <= i < split_pieces_seq(s, true).len() ==> calm(#[trigger] split_pieces_seq(s, true)[i], false),
    decreases s.len(),
{
    if s.len() > 0 {
        assert(calm(s.drop_last(), false)) by {
            assert forall|i: int| 0 <= i < s.drop_last().len() implies !ends_piece(false, #[trigger] s.drop_last()[i]) by {
                assert(s.drop_last()[i] == s[i]);
            }
        }
        lemma_clause_pieces_stay_calm(s.drop_last());
        let p = split_pieces_seq(s.drop_last(), true);
        let q = split_pieces_seq(s, true);
        assert(!ends_piece(false, s[s.len() - 1]));
        assert forall|i: int| 0 <= i < q.len() implies calm(#[trigger] q[i], false) by {
            if i < p.len() && q[i] == p[i] {
            } else if p.len() == 0 || ends_piece(true, p.last().last()) {
                assert(q[i] == seq![s.last()]);
            } else {
                let last = p.last();
                assert(p[p.len() - 1] == last);
                assert(q[i] == last.push(s.last()));
                assert forall|j: int| 0 <= j < q[i].len() implies !ends_piece(false, #[trigger] q[i][j]) by {
                    if j < last.len() {
                        assert(q[i][j] == last[j]);
                    }
                }
            }
        }
    }
}

proof fn lemma_clause_pieces_calm(s: Seq<char>)
    requires
        calm_before_end(s, false),
    ensures
        forall|i: int| 0 <= i < split_pieces_seq(s, true).len() ==> {
            &&& calm_before_end(#[trigger] split_pieces_seq(s, true)[i], false)
            &&& calm_before_end(split_pieces_seq(s, true)[i], true)
        },
{
    lemma_pieces_calm(s, true);
    if s.len() > 0 {
        assert(calm(s.drop_last(), false)) by {
            assert forall|i: int| 0 <= i < s.drop_last().len() implies !ends_piece(false, #[trigger] s.drop_last()[i]) by {
                assert(s.drop_last()[i] == s[i]);
            }
        }
        lemma_clause_pieces_stay_calm(s.drop_last());
        let p = split_pieces_seq(s.drop_last(), true);
        let q = split_pieces_seq(s, true);
        assert forall|i: int| 0 <= i < q.len() implies calm_before_end(#[trigger] q[i], false) by {
            if p.len() == 0 || ends_piece(true, p.last().last()) {
                if i < p.len() {
                    assert(q[i] == p[i]);
                    assert(calm(p[i], false));
                }
            } else {
                let last = p.last();
                assert(p[p.len() - 1] == last);
                if i < p.len() - 1 {
                    assert(q[i] == p[i]);
                    assert(calm(p[i], false));
                } else {
                    assert(calm(last, false));
                    assert(q[i] == last.push(s.last()));
                    assert forall|j: int| 0 <= j < q[i].len() - 1 implies !ends_piece(false, #[trigger] q[i][j]) by {
                        assert(q[i][j] == last[j]);
                    }
                }
            }
        }
    }
}

proof fn lemma_clauses_fit(st: (Seq<Seq<char>>, Seq<char>), subs: Seq<Seq<char>>)
    requires
        state_fits(st),
        forall|i: int| 0 <= i < subs.len() ==> calm_before_end(#[trigger] subs[i], false) && calm_before_end(
            subs[i],
            true,
        ),
        encode_utf8(joined_state(st) + joined(subs)).len() <= usize::MAX,
    ensures
        state_fits(add_clauses(st, subs)),
    decreases subs.len(),
{
    if subs.len() > 0 {
        let rest = subs.drop_last();
        let sub = subs.last();
        assert(joined(subs) == joined(rest) + sub);
        lemma_encode_concat(joined_state(st) + joined(rest), sub);
        assert(joined_state(st) + joined(subs) =~= (joined_state(st) + joined(rest)) + sub);
        assert forall|i: int| 0 <= i < rest.len() implies calm_before_end(#[trigger] rest[i], false)
            && calm_before_end(rest[i], true) by {
            assert(rest[i] == subs[i]);
        }
        lemma_clauses_fit(st, rest);
        let mid = add_clauses(st, rest);
        lemma_clauses_keep_text(st, rest);
        assert(subs[subs.len() - 1] == sub);
        let next = add_clause(mid, sub);
        if byte_len(mid.1) + byte_len(sub) > MAX_CHUNK_BYTES && mid.1.len() > 0 {
            assert forall|i: int| 0 <= i < next.0.len() implies chunk_fits(#[trigger] next.0[i]) by {
                if i < mid.0.len() {
                    assert(next.0[i] == mid.0[i]);
                }
            }
        } else if mid.1.len() == 0 {
            assert(mid.1 + sub =~= sub);
        } else {
            lemma_encode_concat(joined(mid.0), mid.1 + sub);
            assert(joined_state(mid) + sub =~= joined(mid.0) + (mid.1 + sub));
            lemma_byte_len_concat(mid.1, sub);
        }
    }
}

proof fn lemma_sentence_fits(st: (Seq<Seq<char>>, Seq<char>), part: Seq<char>)
    requires
        state_fits(st),
        calm_before_end(part, false),
        encode_utf8(joined_state(st) + part).len() <= usize::MAX,
    ensures
        state_fits(add_sentence(st, part)),
{
    lemma_encode_concat(joined(st.0), st.1 + part);
    assert(joined_state(st) + part =~= joined(st.0) + (st.1 + part));
    lemma_encode_concat(st.1, part);
    if byte_len(st.1) + byte_len(part) > MAX_CHUNK_BYTES {
        let closed: (Seq<Seq<char>>, Seq<char>) = if st.1.len() > 0 {
            (st.0.push(st.1), Seq::empty())
        } else {
            st
        };
        assert forall|i: int| 0 <= i < closed.0.len() implies chunk_fits(#[trigger] closed.0[i]) by {
            if i < st.0.len() {
                assert(closed.0[i] == st.0[i]);
            }
        }
        assert(closed.1.len() == 0);
        assert(byte_len(closed.1) == 0);
        if st.1.len() > 0 {
            lemma_joined_push(st.0, st.1);
        }
        assert(joined_state(closed) =~= joined_state(st));
        if byte_len(part) > MAX_CHUNK_BYTES {
            let subs = split_pieces_seq(part, true);
            lemma_clause_pieces_calm(part);
            lemma_pieces_keep_text(part, true);
            lemma_clauses_fit(closed, subs);
        } else {
            assert(closed.1 + part =~= part);
        }
    } else {
        lemma_byte_len_concat(st.1, part);
    }
}

proof fn lemma_sentences_fit(st: (Seq<Seq<char>>, Seq<char>), parts: Seq<Seq<char>>)
    requires
        state_fits(st),
        forall|i: int| 0 <= i < parts.len() ==> calm_before_end(#[trigger] parts[i], false),
        encode_utf8(joined_state(st) + joined(parts)).len() <= usize::MAX,
    ensures
        state_fits(add_sentences(st, parts)),
    decreases parts.len(),
{
    if parts.len() > 0 {
        let rest = parts.drop_last();
        let part = parts.last();
        assert(joined(parts) == joined(rest) + part);
        lemma_encode_concat(joined_state(st) + joined(rest), part);
        assert(joined_state(st) + joined(parts) =~= (joined_state(st) + joined(rest)) + part);
        assert forall|i: int| 0 <= i < rest.len() implies calm_before_end(#[trigger] rest[i], false) by {
            assert(rest[i] == parts[i]);
        }
        lemma_sentences_fit(st, rest);
        lemma_sentences_keep_text(st, rest);
        assert(parts[parts.len() - 1] == part);
        lemma_sentence_fits(add_sentences(st, rest), part);
    }
}

/// Every chunk of split text is at most `MAX_CHUNK_BYTES` bytes long, or
/// cannot be split: it holds no sentence or clause end before its last
/// character (a clause longer than the limit is sent whole). Stated for any
/// text whose UTF-8 form fits in memory.
pub proof fn lemma_split_sentences_fit(text: Seq<char>)
    requires
        encode_utf8(text).len() <= usize::MAX,
    ensures
        forall|i: int| 0 <= i < split_sentences_seq(text).len() ==> chunk_fits(#[trigger] split_sentences_seq(text)[i]),
{
    let empty: (Seq<Seq<char>>, Seq<char>) = (Seq::empty(), Seq::empty());
    let pieces = split_pieces_seq(text, false);
    lemma_pieces_calm(text, false);
    lemma_pieces_keep_text(text, false);
    assert(joined_state(empty) + joined(pieces) =~= text);
    assert(byte_len(Seq::<char>::empty()) == 0);
    lemma_sentences_fit(empty, pieces);
    lemma_sentences_keep_text(empty, pieces);
    let st = add_sentences(empty, pieces);
    let chunks = if st.1.len() > 0 { st.0.push(st.1) } else { st.0 };
    assert forall|i: int| 0 <= i < chunks.len() implies chunk_fits(#[trigger] chunks[i]) by {
        if i < st.0.len() {
            assert(chunks[i] == st.0[i]);
        }
    }
    if chunks.len() == 0 {
        assert(joined_state(st) =~= Seq::<char>::empty());
        assert(joined_state(empty) + joined(pieces) == joined_state(st));
        assert(text =~= Seq::<char>::empty());
        assert(seq![text][0] == text);
    }
}

proof fn lemma_pieces_end(s: Seq<char>, clause: bool)
    ensures
        forall|i: int| 0 <= i < split_pieces_seq(s, clause).len() - 1 ==> ends_piece(
            clause,
            (#[trigger] split_pieces_seq(s, clause)[i]).last(),
        ),
    decreases s.len(),
{
    if s.len() > 0 {
        lemma_pieces_end(s.drop_last(), clause);
        lemma_pieces_calm(s.drop_last(), clause);
        let p = split_pieces_seq(s.drop_last(), clause);
        let q = split_pieces_seq(s, clause);
        assert forall|i: int| 0 <= i < q.len() - 1 implies ends_piece(clause, (#[trigger] q[i]).last()) by {
            assert(q[i] == p[i]);
            if i == p.len() - 1 {
                assert(p[p.len() - 1] == p.last());
            }
        }
    }
}

/// Sentences end exactly at `.`, `!` and `?`: text is cut after each of them
/// and nowhere else, so no piece holds one before its last character and
/// every piece but the last ends with one.
pub proof fn lemma_sentence_ends(s: Seq<char>)
    ensures
        forall|i: int, j: int|
            #![trigger split_pieces_seq(s, false)[i][j]]
            0 <= i < split_pieces_seq(s, false).len() && 0 <= j < split_pieces_seq(s, false)[i].len() - 1
                ==> split_pieces_seq(s, false)[i][j] != '.' && split_pieces_seq(s, false)[i][j] != '!'
                && split_pieces_seq(s, false)[i][j] != '?',
        forall|i: int|
            #![trigger split_pieces_seq(s, false)[i]]
            0 <= i < split_pieces_seq(s, false).len() - 1 ==> {
                let c = split_pieces_seq(s, false)[i].last();
                c == '.' || c == '!' || c == '?'
            },
{
    lemma_pieces_calm(s, false);
    lemma_pieces_end(s, false);
    let p = split_pieces_seq(s, false);
    assert forall|i: int, j: int| 0 <= i < p.len() && 0 <= j < p[i].len() - 1 implies p[i][j] != '.'
        && p[i][j] != '!' && p[i][j] != '?' by {
        assert(calm_before_end(p[i], false));
        assert(!ends_piece(false, p[i][j]));
    }
}

/// Clauses end exactly at `,`, `;` and `—`, in the same way.
pub proof fn lemma_clause_ends(s: Seq<char>)
    ensures
        forall|i: int, j: int|
            #![trigger split_pieces_seq(s, true)[i][j]]
            0 <= i < split_pieces_seq(s, true).len() && 0 <= j < split_pieces_seq(s, true)[i].len() - 1
                ==> split_pieces_seq(s, true)[i][j] != ',' && split_pieces_seq(s, true)[i][j] != ';'
                && split_pieces_seq(s, true)[i][j] != '—',
        forall|i: int|
            #![trigger split_pieces_seq(s, true)[i]]
            0 <= i < split_pieces_seq(s, true).len() - 1 ==> {
                let c = split_pieces_seq(s, true)[i].last();
                c == ',' || c == ';' || c == '—'
            },
{
    lemma_pieces_calm(s, true);
    lemma_pieces_end(s, true);
    let p = split_pieces_seq(s, true);
    assert forall|i: int, j: int| 0 <= i < p.len() && 0 <= j < p[i].len() - 1 implies p[i][j] != ','
        && p[i][j] != ';' && p[i][j] != '—' by {
        assert(calm_before_end(p[i], true));
        assert(!ends_piece(true, p[i][j]));
    }
}

/// A speech chunk longer than `MAX_CHUNK_BYTES` holds none of `.` `!` `?`
/// `,` `;` `—` before its last character: only a stretch of text with
/// nowhere to split it is sent over the limit.
pub proof fn lemma_long_chunks_hold_no_stop(text: Seq<char>)
    requires
        encode_utf8(text).len() <= usize::MAX,
    ensures
        forall|i: int, j: int|
            #![trigger split_sentences_seq(text)[i][j]]
            0 <= i < split_sentences_seq(text).len() && byte_len(split_sentences_seq(text)[i]) > MAX_CHUNK_BYTES
                && 0 <= j < split_sentences_seq(text)[i].len() - 1 ==> {
                let c = split_sentences_seq(text)[i][j];
                c != '.' && c != '!' && c != '?' && c != ',' && c != ';' && c != '—'
            },
{
    lemma_split_sentences_fit(text);
    let cs = split_sentences_seq(text);
    assert forall|i: int, j: int|
        #![trigger cs[i][j]]
        0 <= i < cs.len() && byte_len(cs[i]) > MAX_CHUNK_BYTES && 0 <= j < cs[i].len() - 1 implies {
        let c = cs[i][j];
        c != '.' && c != '!' && c != '?' && c != ',' && c != ';' && c != '—'
    } by {
        assert(chunk_fits(cs[i]));
        assert(!ends_piece(false, cs[i][j]));
        assert(!ends_piece(true, cs[i][j]));
    }
}

/// The views of a vector of strings.
pub open spec fn views(v: Seq<String>) -> Seq<Seq<char>> {
    v.map_values(|s: String| s@)
}

/// The views of a vector of character vectors.
pub open spec fn char_views(v: Seq<Vec<char>>) -> Seq<Seq<char>> {
    v.map_values(|s: Vec<char>| s@)
}

fn is_piece_end(clause: bool, c: char) -> (r: bool)
    ensures
        r == ends_piece(clause, c),
{
    if clause {
        c == ',' || c == ';' || c == '—'
    } else {
        c == '.' || c == '!' || c == '?'
    }
}

/// The pieces of `v` (see `split_pieces_seq`).
pub fn split_pieces(v: &Vec<char>, clause: bool) -> (r: Vec<Vec<char>>)
    ensures
        char_views(r@) == split_pieces_seq(v@, clause),
{
    let mut r: Vec<Vec<char>> = Vec::new();
    let mut cur: Vec<char> = Vec::new();
    let mut i: usize = 0;
    while i < v.len()
        invariant
            i <= v.len(),
            ({
                let p = split_pieces_seq(v@.take(i as int), clause);
                &&& forall|k: int| 0 <= k < p.len() ==> (#[trigger] p[k]).len() > 0
                &&& if cur@.len() == 0 {
                    char_views(r@) == p && (p.len() == 0 || ends_piece(clause, p.last().last()))
                } else {
                    char_views(r@).push(cur@) == p && !ends_piece(clause, cur@.last())
                }
            }),
        decreases v.len() - i,
    {
        let c = v[i];
        let ghost p = split_pieces_seq(v@.take(i as int), clause);
        let ghost was_empty = cur@.len() == 0;
        let ghost old_cur = cur@;
        let ghost old_r = char_views(r@);
        proof {
            assert(v@.take(i + 1).drop_last() =~= v@.take(i as int));
            assert(v@.take(i + 1).last() == c);
        }
        cur.push(c);
        if is_piece_end(clause, c) {
            let mut done: Vec<char> = Vec::new();
            std::mem::swap(&mut done, &mut cur);
            assert(done@ =~= old_cur.push(c));
            r.push(done);
            proof {
                let q = split_pieces_seq(v@.take(i + 1), clause);
                if was_empty {
                    assert(old_cur.push(c) =~= seq![c]);
                    assert(char_views(r@) =~= old_r.push(seq![c]));
                    assert(q == p.push(seq![c]));
                } else {
                    assert(p.last() == old_cur);
                    assert(q == p.update(p.len() - 1, old_cur.push(c)));
                    assert(char_views(r@) =~= old_r.push(old_cur.push(c)));
                    assert(q =~= old_r.push(old_cur.push(c)));
                }
            }
        } else {
            proof {
                let q = split_pieces_seq(v@.take(i + 1), clause);
                if was_empty {
                    assert(cur@ =~= seq![c]);
                    assert(q == p.push(seq![c]));
                } else {
                    assert(p.last() == old_cur);
                    assert(q =~= old_r.push(old_cur.push(c)));
                }
            }
        }
        proof {
            let q = split_pieces_seq(v@.take(i + 1), clause);
            assert forall|k: int| 0 <= k < q.len() implies (#[trigger] q[k]).len() > 0 by {
                if k < p.len() {
                    assert(q[k] == p[k] || q[k] == p[k].push(c));
                }
            }
        }
        i += 1;
    }
    assert(v@.take(v.len() as int) =~= v@);
    if cur.len() > 0 {
        r.push(cur);
        assert(char_views(r@) =~= split_pieces_seq(v@, clause));
    }
    r
}

/// Whether `a` and `b` together are longer than the limit, in UTF-8 bytes.
fn too_long(a: &String, b: &String) -> (r: bool)
    ensures
        r == (byte_len(a@) + byte_len(b@) > MAX_CHUNK_BYTES),
{
    let la = a.as_str().len();
    let lb = b.as_str().len();
    lb > MAX_CHUNK_BYTES || la > MAX_CHUNK_BYTES - lb
}

/// Split text into sentence-sized chunks that stay under the model's token
/// limit: split on `.` `!` `?`, gather sentences into chunks of at most 300
/// bytes, and split a longer sentence on `,` `;` `—`.
pub fn split_sentences(text: &str) -> (r: Vec<String>)
    ensures
        views(r@) == split_sentences_seq(text@),
{
    let chars = chars_of(text);
    let parts = split_pieces(&chars, false);
    let ghost pv = char_views(parts@);
    let mut chunks: Vec<String> = Vec::new();
    let mut current = String::new();
    let mut i: usize = 0;
    while i < parts.len()
        invariant
            i <= parts@.len(),
            pv == char_views(parts@),
            (views(chunks@), current@) == add_sentences((Seq::empty(), Seq::empty()), pv.take(i as int)),
        decreases parts.len() - i,
    {
        let part = string_of(&parts[i]);
        proof {
            assert(pv.take(i + 1).drop_last() =~= pv.take(i as int));
            assert(pv.take(i + 1).last() == part@);
        }
        let ghost st = (views(chunks@), current@);
        if too_long(&current, &part) {
            if !current.as_str().is_empty() {
                let mut done = String::new();
                std::mem::swap(&mut done, &mut current);
                chunks.push(done);
                assert(views(chunks@) =~= st.0.push(st.1));
            }
            let ghost closed = (views(chunks@), current@);
            if part.as_str().len() > MAX_CHUNK_BYTES {
                let subs = split_pieces(&parts[i], true);
                let ghost sv = char_views(subs@);
                let mut j: usize = 0;
                while j < subs.len()
                    invariant
                        j <= subs@.len(),
                        sv == char_views(subs@),
                        (views(chunks@), current@) == add_clauses(closed, sv.take(j as int)),
                    decreases subs.len() - j,
                {
                    let sub = string_of(&subs[j]);
                    proof {
                        assert(sv.take(j + 1).drop_last() =~= sv.take(j as int));
                        assert(sv.take(j + 1).last() == sub@);
                    }
                    let ghost before = (views(chunks@), current@);
                    if too_long(&current, &sub) && !current.as_str().is_empty() {
                        let mut done = String::new();
                        std::mem::swap(&mut done, &mut current);
                        chunks.push(done);
                        current = sub;
                        assert(views(chunks@) =~= before.0.push(before.1));
                    } else {
                        current.append(sub.as_str());
                        assert(views(chunks@) == before.0);
                    }
                    assert((views(chunks@), current@) == add_clause(before, sub@));
                    j += 1;
                }
                assert(sv.take(subs@.len() as int) =~= sv);
                assert(sv == crate::tts::split_pieces_seq(part@, true));
            } else {
                current.append(part.as_str());
            }
            assert((views(chunks@), current@) == add_sentence(st, part@));
        } else {
            current.append(part.as_str());
            assert((views(chunks@), current@) == add_sentence(st, part@));
        }
        i += 1;
    }
    assert(pv.take(parts@.len() as int) =~= pv);
    let ghost st = (views(chunks@), current@);
    if !current.as_str().is_empty() {
        chunks.push(current);
        assert(views(chunks@) =~= st.0.push(st.1));
    }
    if chunks.len() == 0 {
        chunks.push(owned(text));
        assert(views(chunks@) =~= seq![text@]);
    }
    chunks
}

// ---------------------------------------------------------------------------
// Tokens and voices.
// ---------------------------------------------------------------------------

/// Why a token sequence is refused.
pub enum TokenError {
    /// Fewer than three tokens.
    TooFew,
    /// More than 2000 tokens; the count is kept for the message.
    TooMany(usize),
}

/// The token sequence framed by a zero token on each side, when it holds
/// between 3 and 2000 tokens.
pub fn pad_tokens(ids: &Vec<i64>) -> (r: Result<Vec<i64>, TokenError>)
    ensures
        ids@.len() < 3 ==> r matches Err(TokenError::TooFew),
        ids@.len() > 2000 ==> (r matches Err(TokenError::TooMany(n)) && n == ids@.len()),
        3 <= ids@.len() <= 2000 ==> (r matches Ok(p) && p@ == seq![0i64] + ids@ + seq![0i64]),
{
    if ids.len() < 3 {
        return Err(TokenError::TooFew);
    }
    if ids.len() > 2000 {
        return Err(TokenError::TooMany(ids.len()));
    }
    let mut p: Vec<i64> = Vec::new();
    p.push(0);
    let mut i: usize = 0;
    while i < ids.len()
        invariant
            i <= ids@.len(),
            p@ == seq![0i64] + ids@.take(i as int),
        decreases ids.len() - i,
    {
        p.push(ids[i]);
        i += 1;
        assert(p@ =~= seq![0i64] + ids@.take(i as int));
    }
    p.push(0);
    assert(ids@.take(ids@.len() as int) =~= ids@);
    assert(p@ =~= seq![0i64] + ids@ + seq![0i64]);
    Ok(p)
}

/// The message a refused token sequence is reported with.
pub fn token_error_text(e: &TokenError) -> (r: String)
    ensures
        match *e {
            TokenError::TooFew => r@ == "too few tokens"@,
            TokenError::TooMany(n) => r@ == "too many tokens ("@ + decimal_seq(n as nat) + ") — max 2000"@,
        },
{
    match e {
        TokenError::TooFew => owned("too few tokens"),
        TokenError::TooMany(n) => {
            let mut r = owned("too many tokens (");
            r.append(decimal(*n as u64).as_str());
            r.append(") — max 2000");
            r
        },
    }
}

/// The directory of voice files.
pub const VOICES_DIR: &'static str = "/Users/rocketman/crystalballmini/voices-v1.0";

/// The size in bytes of a voice file: 510 rows of 256 four-byte values.
pub const VOICE_FILE_BYTES: usize = 522240;

/// The file a voice is read from: `<VOICES_DIR>/<name>.bin`.
pub fn voice_path(name: &str) -> (r: String)
    ensures
        r@ == VOICES_DIR@ + "/"@ + name@ + ".bin"@,
{
    let mut r = owned(VOICES_DIR);
    r.append("/");
    r.append(name);
    r.append(".bin");
    r
}

/// A voice file is usable only at its exact size.
pub fn check_voice_size(len: usize) -> (r: Result<(), String>)
    ensures
        len == VOICE_FILE_BYTES ==> r is Ok,
        len != VOICE_FILE_BYTES ==> (r matches Err(e) && e@ == "wrong voice size"@),
{
    if len != VOICE_FILE_BYTES {
        Err(owned("wrong voice size"))
    } else {
        Ok(())
    }
}

/// The style row for a token count: the count itself, at most 509.
pub fn style_row(token_count: usize) -> (r: usize)
    ensures
        r == if token_count < 509 { token_count } else { 509 },
{
    if token_count < 509 { token_count } else { 509 }
}

/// The style vector for a token count: row `style_row(count)` of a voice file
/// holding 510 rows of 256 values.
pub fn style_vector<T: Copy>(voice: &Vec<T>, token_count: usize) -> (r: Vec<T>)
    requires
        voice@.len() == STYLE_ROWS * STYLE_WIDTH,
    ensures
        ({
            let row = if token_count < 509 { token_count as int } else { 509 };
            r@ == voice@.subrange(row * 256, (row + 1) * 256)
        }),
{
    let row = style_row(token_count);
    let start = row * STYLE_WIDTH;
    let mut r: Vec<T> = Vec::new();
    let mut k: usize = 0;
    while k < STYLE_WIDTH
        invariant
            row <= 509,
            start == row * 256,
            voice@.len() == 510 * 256,
            k <= 256,
            r@ == voice@.subrange(start as int, start + k),
        decreases STYLE_WIDTH - k,
    {
        r.push(voice[start + k]);
        k += 1;
        assert(r@ =~= voice@.subrange(start as int, start + k));
    }
    r
}

/// The voice a text names before its first `:`, when that prefix is shorter
/// than 20 bytes and holds no space; the speech is what follows the `:`.
/// Whether such a voice exists is for the caller to check.
pub open spec fn voice_prefix_seq(text: Seq<char>) -> Option<(Seq<char>, Seq<char>)> {
    if exists|i: int| 0 <= i < text.len() && text[i] == ':' {
        let i = choose|i: int| 0 <= i < text.len() && text[i] == ':' && forall|j: int| 0 <= j < i ==> text[j] != ':';
        let prefix = text.take(i);
        if byte_len(prefix) < 20 && !prefix.contains(' ') {
            Some((prefix, text.skip(i + 1)))
        } else {
            None
        }
    } else {
        None
    }
}

/// The voice prefix of `text`, if it has one (see `voice_prefix_seq`).
pub fn voice_prefix(text: &str) -> (r: Option<(String, String)>)
    ensures
        match r {
            Some((p, s)) => voice_prefix_seq(text@) == Some((p@, s@)),
            None => voice_prefix_seq(text@) is None,
        },
{
    let v = chars_of(text);
    let mut i: usize = 0;
    while i < v.len() && v[i] != ':'
        invariant
            i <= v.len(),
            forall|j: int| 0 <= j < i ==> v@[j] != ':',
        decreases v.len() - i,
    {
        i += 1;
    }
    if i == v.len() {
        return None;
    }
    proof {
        let c = choose|k: int| 0 <= k < v@.len() && v@[k] == ':' && forall|j: int| 0 <= j < k ==> v@[j] != ':';
        assert(0 <= i < v@.len() && v@[i as int] == ':' && forall|j: int| 0 <= j < i ==> v@[j] != ':');
        if c != i {
            if c < i {
                assert(v@[c] != ':');
            } else {
                assert(v@[i as int] != ':');
            }
        }
    }
    let prefix = string_of_range(&v, 0, i);
    let mut has_space = false;
    let mut k: usize = 0;
    while k < i
        invariant
            k <= i < v.len(),
            has_space == exists|j: int| 0 <= j < k && v@[j] == ' ',
        decreases i - k,
    {
        if v[k] == ' ' {
            has_space = true;
        }
        k += 1;
    }
    assert(v@.take(i as int) =~= prefix@);
    assert(prefix@.contains(' ') == has_space) by {
        if has_space {
            let j = choose|j: int| 0 <= j < i && v@[j] == ' ';
            assert(prefix@[j] == ' ');
        }
    }
    if prefix.as_str().len() < 20 && !has_space {
        let speech = string_of_range(&v, i + 1, v.len());
        assert(speech@ =~= v@.skip(i + 1));
        Some((prefix, speech))
    } else {
        None
    }
}

/// The voice and speech for a text: the prefix voice when the text has one and
/// it names an existing voice file, the default voice and the whole text otherwise.
pub fn select_voice(text: &str, prefix_voice_exists: bool) -> (r: (String, String))
    ensures
        match voice_prefix_seq(text@) {
            Some((p, s)) => if prefix_voice_exists { r.0@ == p && r.1@ == s } else { r.0@ == DEFAULT_VOICE@
                && r.1@ == text@ },
            None => r.0@ == DEFAULT_VOICE@ && r.1@ == text@,
        },
{
    match voice_prefix(text) {
        Some((p, s)) => {
            if prefix_voice_exists {
                (p, s)
            } else {
                (owned(DEFAULT_VOICE), owned(text))
            }
        },
        None => (owned(DEFAULT_VOICE), owned(text)),
    }
}

/// The control byte that aborts synthesis.
pub const FLUSH: u8 = 0x01;

/// Whether a control message asks for a flush: its first byte is 0x01.
pub fn is_flush_command(payload: &[u8]) -> (r: bool)
    ensures
        r == (payload@.len() > 0 && payload@[0] == FLUSH),
{
    payload.len() > 0 && payload[0] == FLUSH
}

} // verus!
