//! Text as it travels between the speech ants: reading a bus payload,
//! classifying the recogniser's output lines, and cleaning a transcription
//! before it is typed into a window.
use vstd::prelude::*;
use vstd::utf8::{decode_utf8, valid_utf8};
use crate::text::{
    has_subseq, trim_end_seq, trim_start_seq, unicode_white_space, chars_of, join, join_seq, matches_at, occurs_at, owned, str_eq, string_of_range, trim, trim_seq,
    unicode_alphanumeric, utf8_decode,
};
use crate::tts::byte_len;

verus! {

// ---------------------------------------------------------------------------
// Bus payloads.
// ---------------------------------------------------------------------------

/// A payload's text: its UTF-8 decoding, or `fallback` when it is not UTF-8.
pub open spec fn payload_str(p: Seq<u8>, fallback: Seq<char>) -> Seq<char> {
    if valid_utf8(p) {
        decode_utf8(p)
    } else {
        fallback
    }
}

/// A payload's text without surrounding white space; not UTF-8 reads as empty.
pub fn payload_text(payload: &[u8]) -> (r: String)
    ensures
        r@ == trim_seq(payload_str(payload@, Seq::empty())),
{
    match utf8_decode(payload) {
        Some(s) => trim(s.as_str()),
        None => {
            let r = trim("");
            proof {
                reveal_strlit("");
            }
            r
        },
    }
}

/// What the listener prints for a payload: its trimmed text ("<invalid utf8>"
/// when it is not UTF-8), when that is not empty.
pub open spec fn heard_seq(p: Seq<u8>) -> Option<Seq<char>> {
    let t = trim_seq(payload_str(p, "<invalid utf8>"@));
    if t.len() == 0 {
        None
    } else {
        Some(t)
    }
}

/// The line the listener prints for a payload (see `heard_seq`).
pub fn heard_line(payload: &[u8]) -> (r: Option<String>)
    ensures
        match r {
            Some(s) => heard_seq(payload@) == Some(s@),
            None => heard_seq(payload@) is None,
        },
{
    let t = match utf8_decode(payload) {
        Some(s) => trim(s.as_str()),
        None => trim("<invalid utf8>"),
    };
    if chars_of(t.as_str()).len() == 0 {
        None
    } else {
        Some(t)
    }
}

/// The text the pulse tool sends: its arguments after the program name,
/// joined with spaces; none when there are no arguments.
pub fn pulse_text(args: &Vec<String>) -> (r: Option<String>)
    ensures
        args@.len() < 2 ==> r is None,
        args@.len() >= 2 ==> (r matches Some(t) && t@ == join_seq(
            args@.skip(1).map_values(|w: String| w@),
            " "@,
        )),
{
    if args.len() < 2 {
        return None;
    }
    let mut rest: Vec<String> = Vec::new();
    let mut i: usize = 1;
    while i < args.len()
        invariant
            1 <= i <= args@.len(),
            rest@ == args@.subrange(1, i as int),
        decreases args@.len() - i,
    {
        rest.push(args[i].clone());
        i += 1;
        assert(rest@ =~= args@.subrange(1, i as int));
    }
    assert(rest@ =~= args@.skip(1));
    Some(join(&rest, " "))
}

// ---------------------------------------------------------------------------
// The recogniser's side of the pipe.
// ---------------------------------------------------------------------------

/// A line the recogniser wrote.
pub enum WorkerLine {
    /// Only white space.
    Blank,
    /// "<empty>": the utterance held no recognisable speech.
    NoSpeech,
    /// "<error>": the recogniser failed on the utterance.
    Failed,
    /// A transcription, trimmed.
    Text { text: String },
}

/// Reads one line of the recogniser's output.
pub fn classify_worker_line(line: &str) -> (r: WorkerLine)
    ensures
        ({
            let t = trim_seq(line@);
            &&& t.len() == 0 ==> r is Blank
            &&& t == "<empty>"@ ==> r is NoSpeech
            &&& t == "<error>"@ ==> r is Failed
            &&& t.len() > 0 && t != "<empty>"@ && t != "<error>"@ ==> (r matches WorkerLine::Text { text }
                && text@ == t)
        }),
{
    proof {
        reveal_strlit("<empty>");
        reveal_strlit("<error>");
        assert("<empty>"@[2] != "<error>"@[2]);
    }
    let t = trim(line);
    if chars_of(t.as_str()).len() == 0 {
        WorkerLine::Blank
    } else if str_eq(t.as_str(), "<empty>") {
        WorkerLine::NoSpeech
    } else if str_eq(t.as_str(), "<error>") {
        WorkerLine::Failed
    } else {
        WorkerLine::Text { text: t }
    }
}

/// How an utterance payload of 32-bit samples is handed to the recogniser.
pub enum SttFrame {
    /// The length is not a whole number of samples: skipped.
    Misaligned,
    /// No samples: skipped.
    Empty,
    /// Sent with this sample count in front.
    Samples { count: i32 },
}

/// The frame for a payload of `len` bytes: four bytes per sample, the count
/// taken as an `i32` the way the recogniser's header holds it.
pub fn stt_frame(len: usize) -> (r: SttFrame)
    ensures
        len % 4 != 0 ==> r is Misaligned,
        len % 4 == 0 && (len / 4) as i32 <= 0 ==> r is Empty,
        len % 4 == 0 && (len / 4) as i32 > 0 ==> r == (SttFrame::Samples { count: (len / 4) as i32 }),
{
    if len % 4 != 0 {
        return SttFrame::Misaligned;
    }
    #[verifier::truncate]
    let count: i32 = (len / 4) as i32;
    if count <= 0 {
        SttFrame::Empty
    } else {
        SttFrame::Samples { count }
    }
}

// ---------------------------------------------------------------------------
// Cleaning a transcription before it is typed.
// ---------------------------------------------------------------------------

/// `s` up to the first "..." (all of it when there is none): the recogniser
/// trails off into dots when it hallucinates.
pub open spec fn ellipsis_cut(s: Seq<char>) -> Seq<char>
    decreases s.len(),
{
    if s.len() < 3 {
        s
    } else if s.take(3) == "..."@ {
        Seq::empty()
    } else {
        seq![s[0]] + ellipsis_cut(s.skip(1))
    }
}

/// `s` without trailing dots and non-ASCII characters.
pub open spec fn trim_end_dots(s: Seq<char>) -> Seq<char>
    decreases s.len(),
{
    if s.len() > 0 && (s.last() == '.' || (s.last() as u32) >= 128) {
        trim_end_dots(s.drop_last())
    } else {
        s
    }
}

/// Whether the five characters of `s` from `j` on are ASCII capitals.
pub open spec fn upper_run_at(s: Seq<char>, j: int) -> bool {
    0 <= j && j + 5 <= s.len() && forall|k: int| j <= k < j + 5 ==> 'A' <= #[trigger] s[k] <= 'Z'
}

/// `s` up to the first run of five ASCII capitals (all of it when there is
/// none): a shouted tail is recogniser noise.
pub open spec fn upper_cut(s: Seq<char>) -> Seq<char>
    decreases s.len(),
{
    if s.len() < 5 {
        s
    } else if upper_run_at(s, 0) {
        Seq::empty()
    } else {
        seq![s[0]] + upper_cut(s.skip(1))
    }
}

/// `s` without trailing characters that are neither alphanumeric nor `'` nor `-`.
pub open spec fn trim_end_symbols(s: Seq<char>) -> Seq<char>
    decreases s.len(),
{
    if s.len() > 0 && !unicode_alphanumeric(s.last()) && s.last() != '\'' && s.last() != '-' {
        trim_end_symbols(s.drop_last())
    } else {
        s
    }
}

/// The cleaned form of a trimmed transcription.
pub open spec fn clean_seq(raw: Seq<char>) -> Seq<char> {
    trim_seq(trim_end_symbols(upper_cut(trim_seq(trim_end_dots(ellipsis_cut(raw))))))
}

/// What is typed for a payload: nothing for an empty transcription or one
/// that cleans down to less than two bytes.
pub open spec fn typed_seq(p: Seq<u8>) -> Option<Seq<char>> {
    let raw = trim_seq(payload_str(p, Seq::empty()));
    let t = clean_seq(raw);
    if raw.len() == 0 || byte_len(t) < 2 {
        None
    } else {
        Some(t)
    }
}

proof fn lemma_ellipsis_prefix(s: Seq<char>, j: int)
    requires
        0 <= j <= s.len(),
        forall|k: int| 0 <= k < j ==> !occurs_at(s, "..."@, k),
    ensures
        ellipsis_cut(s) == s.take(j) + ellipsis_cut(s.skip(j)),
    decreases j,
{
    reveal_strlit("...");
    if j == 0 {
        assert(s.skip(0) =~= s);
    } else {
        lemma_ellipsis_prefix(s, j - 1);
        let t = s.skip(j - 1);
        assert(t.skip(1) =~= s.skip(j));
        if t.len() >= 3 {
            assert(t.take(3) =~= s.subrange(j - 1, j + 2));
            assert(!occurs_at(s, "..."@, j - 1));
        }
        assert(s.take(j - 1) + seq![s[j - 1]] =~= s.take(j));
    }
}

fn cut_at_ellipsis(v: &Vec<char>) -> (r: usize)
    ensures
        r <= v@.len(),
        ellipsis_cut(v@) == v@.take(r as int),
{
    proof {
        reveal_strlit("...");
    }
    let dots = chars_of("...");
    let mut j: usize = 0;
    while j < v.len()
        invariant
            j <= v@.len(),
            dots@ == "..."@,
            forall|k: int| 0 <= k < j ==> !occurs_at(v@, "..."@, k),
        decreases v@.len() - j,
    {
        if matches_at(v, &dots, j) {
            proof {
                reveal_strlit("...");
                lemma_ellipsis_prefix(v@, j as int);
                assert(v@.skip(j as int).take(3) =~= v@.subrange(j as int, j + 3));
                assert(v@.take(j as int) + Seq::<char>::empty() =~= v@.take(j as int));
            }
            return j;
        }
        j += 1;
    }
    proof {
        lemma_ellipsis_prefix(v@, v@.len() as int);
        assert(v@.take(v@.len() as int) + v@.skip(v@.len() as int) =~= v@.take(v@.len() as int));
    }
    v.len()
}

proof fn lemma_upper_prefix(s: Seq<char>, j: int)
    requires
        0 <= j <= s.len(),
        forall|k: int| 0 <= k < j ==> !upper_run_at(s, k),
    ensures
        upper_cut(s) == s.take(j) + upper_cut(s.skip(j)),
    decreases j,
{
    if j == 0 {
        assert(s.skip(0) =~= s);
    } else {
        lemma_upper_prefix(s, j - 1);
        let t = s.skip(j - 1);
        assert(t.skip(1) =~= s.skip(j));
        if t.len() >= 5 {
            assert(!upper_run_at(s, j - 1));
            if upper_run_at(t, 0) {
                assert forall|k: int| j - 1 <= k < j - 1 + 5 implies 'A' <= #[trigger] s[k] <= 'Z' by {
                    assert(s[k] == t[k - (j - 1)]);
                }
            }
        }
        assert(s.take(j - 1) + seq![s[j - 1]] =~= s.take(j));
    }
}

fn is_upper_run(v: &Vec<char>, j: usize) -> (r: bool)
    requires
        j + 5 <= v@.len(),
    ensures
        r == upper_run_at(v@, j as int),
{
    let n = v.len();
    let mut k: usize = j;
    while k < j + 5
        invariant
            n == v@.len(),
            j <= k <= j + 5 <= v@.len(),
            forall|m: int| j <= m < k ==> 'A' <= #[trigger] v@[m] <= 'Z',
        decreases j + 5 - k,
    {
        if !('A' <= v[k] && v[k] <= 'Z') {
            return false;
        }
        k += 1;
    }
    true
}

fn cut_at_upper_run(v: &Vec<char>) -> (r: usize)
    ensures
        r <= v@.len(),
        upper_cut(v@) == v@.take(r as int),
{
    let mut j: usize = 0;
    while j < v.len() && v.len() - j >= 5
        invariant
            j <= v@.len(),
            forall|k: int| 0 <= k < j ==> !upper_run_at(v@, k),
        decreases v@.len() - j,
    {
        if is_upper_run(v, j) {
            proof {
                lemma_upper_prefix(v@, j as int);
                let t = v@.skip(j as int);
                assert(upper_run_at(t, 0)) by {
                    assert forall|k: int| 0 <= k < 5 implies 'A' <= #[trigger] t[k] <= 'Z' by {
                        assert(t[k] == v@[j + k]);
                    }
                }
                assert(v@.take(j as int) + Seq::<char>::empty() =~= v@.take(j as int));
            }
            return j;
        }
        j += 1;
    }
    proof {
        lemma_upper_prefix(v@, j as int);
        assert(v@.skip(j as int).len() < 5);
        assert(v@.take(j as int) + v@.skip(j as int) =~= v@);
        assert(v@.take(v@.len() as int) =~= v@);
    }
    v.len()
}

fn dots_end(v: &Vec<char>, end: usize) -> (r: usize)
    requires
        end <= v@.len(),
    ensures
        r <= end,
        trim_end_dots(v@.take(end as int)) == v@.take(r as int),
{
    let mut j: usize = end;
    while j > 0 && (v[j - 1] == '.' || (v[j - 1] as u32) >= 128)
        invariant
            j <= end <= v@.len(),
            trim_end_dots(v@.take(end as int)) == trim_end_dots(v@.take(j as int)),
        decreases j,
    {
        assert(v@.take(j as int).drop_last() =~= v@.take(j - 1));
        j -= 1;
    }
    proof {
        if j > 0 {
            assert(v@.take(j as int).last() == v@[j - 1]);
        }
    }
    j
}

fn symbols_end(v: &Vec<char>, end: usize) -> (r: usize)
    requires
        end <= v@.len(),
    ensures
        r <= end,
        trim_end_symbols(v@.take(end as int)) == v@.take(r as int),
{
    let mut j: usize = end;
    while j > 0 && !v[j - 1].is_alphanumeric() && v[j - 1] != '\'' && v[j - 1] != '-'
        invariant
            j <= end <= v@.len(),
            trim_end_symbols(v@.take(end as int)) == trim_end_symbols(v@.take(j as int)),
        decreases j,
    {
        assert(v@.take(j as int).drop_last() =~= v@.take(j - 1));
        j -= 1;
    }
    proof {
        if j > 0 {
            assert(v@.take(j as int).last() == v@[j - 1]);
        }
    }
    j
}

/// The cleaned form of a trimmed transcription (see `clean_seq`).
pub fn clean_transcript(raw: &str) -> (r: String)
    ensures
        r@ == clean_seq(raw@),
{
    let v = chars_of(raw);
    let a = cut_at_ellipsis(&v);
    let b = dots_end(&v, a);
    let t1 = trim(string_of_range(&v, 0, b).as_str());
    assert(v@.subrange(0, b as int) =~= v@.take(b as int));
    let w = chars_of(t1.as_str());
    let c = cut_at_upper_run(&w);
    let d = symbols_end(&w, c);
    let r = trim(string_of_range(&w, 0, d).as_str());
    assert(w@.subrange(0, d as int) =~= w@.take(d as int));
    r
}

/// What is typed for a payload (see `typed_seq`).
pub fn typed_text(payload: &[u8]) -> (r: Option<String>)
    ensures
        match r {
            Some(s) => typed_seq(payload@) == Some(s@),
            None => typed_seq(payload@) is None,
        },
{
    let raw = payload_text(payload);
    if chars_of(raw.as_str()).len() == 0 {
        return None;
    }
    let t = clean_transcript(raw.as_str());
    if t.as_str().len() < 2 {
        None
    } else {
        Some(t)
    }
}

// ---------------------------------------------------------------------------
// What cleaning guarantees.
// ---------------------------------------------------------------------------

proof fn lemma_ellipsis_cut_prefix(s: Seq<char>)
    ensures
        ellipsis_cut(s).len() <= s.len(),
        ellipsis_cut(s) == s.take(ellipsis_cut(s).len() as int),
    decreases s.len(),
{
    reveal_strlit("...");
    if s.len() < 3 {
        assert(s.take(s.len() as int) =~= s);
    } else if s.take(3) == "..."@ {
        assert(s.take(0) =~= Seq::<char>::empty());
    } else {
        lemma_ellipsis_cut_prefix(s.skip(1));
        let r = ellipsis_cut(s.skip(1));
        assert(seq![s[0]] + r =~= s.take(r.len() + 1int));
    }
}

proof fn lemma_ellipsis_cut_clean(s: Seq<char>)
    ensures
        !has_subseq(ellipsis_cut(s), "..."@),
    decreases s.len(),
{
    reveal_strlit("...");
    let c = ellipsis_cut(s);
    if s.len() < 3 {
        assert forall|i: int| !occurs_at(c, "..."@, i) by {}
    } else if s.take(3) == "..."@ {
        assert forall|i: int| !occurs_at(c, "..."@, i) by {}
    } else {
        let r = ellipsis_cut(s.skip(1));
        lemma_ellipsis_cut_clean(s.skip(1));
        lemma_ellipsis_cut_prefix(s.skip(1));
        assert forall|i: int| !occurs_at(c, "..."@, i) by {
            if occurs_at(c, "..."@, i) {
                if i == 0 {
                    assert(c[1] == r[0] && c[2] == r[1]);
                    assert(r[0] == s[1] && r[1] == s[2]);
                    assert(s.take(3) =~= c.subrange(0, 3));
                } else {
                    assert(r.subrange(i - 1, i + 2) =~= c.subrange(i, i + 3));
                    assert(occurs_at(r, "..."@, i - 1));
                }
            }
        }
    }
}

proof fn lemma_upper_cut_prefix(s: Seq<char>)
    ensures
        upper_cut(s).len() <= s.len(),
        upper_cut(s) == s.take(upper_cut(s).len() as int),
    decreases s.len(),
{
    if s.len() < 5 {
        assert(s.take(s.len() as int) =~= s);
    } else if upper_run_at(s, 0) {
        assert(s.take(0) =~= Seq::<char>::empty());
    } else {
        lemma_upper_cut_prefix(s.skip(1));
        let r = upper_cut(s.skip(1));
        assert(seq![s[0]] + r =~= s.take(r.len() + 1int));
    }
}

proof fn lemma_upper_cut_clean(s: Seq<char>)
    ensures
        forall|j: int| !upper_run_at(upper_cut(s), j),
    decreases s.len(),
{
    let c = upper_cut(s);
    if s.len() >= 5 && !upper_run_at(s, 0) {
        let r = upper_cut(s.skip(1));
        lemma_upper_cut_clean(s.skip(1));
        lemma_upper_cut_prefix(s.skip(1));
        assert forall|j: int| !upper_run_at(c, j) by {
            if upper_run_at(c, j) {
                if j == 0 {
                    assert forall|k: int| 0 <= k < 5 implies 'A' <= #[trigger] s[k] <= 'Z' by {
                        assert(c[k] == s[k]) by {
                            if k > 0 {
                                assert(c[k] == r[k - 1]);
                                assert(r[k - 1] == s.skip(1)[k - 1]);
                            }
                        }
                    }
                } else {
                    assert forall|k: int| j - 1 <= k < j - 1 + 5 implies 'A' <= #[trigger] r[k] <= 'Z' by {
                        assert(r[k] == c[k + 1]);
                    }
                    assert(upper_run_at(r, j - 1));
                }
            }
        }
    } else if s.len() < 5 {
        assert forall|j: int| !upper_run_at(c, j) by {}
    }
}

proof fn lemma_trim_end_dots_prefix(s: Seq<char>)
    ensures
        trim_end_dots(s) == s.take(trim_end_dots(s).len() as int),
        trim_end_dots(s).len() <= s.len(),
    decreases s.len(),
{
    if s.len() > 0 && (s.last() == '.' || (s.last() as u32) >= 128) {
        lemma_trim_end_dots_prefix(s.drop_last());
        let r = trim_end_dots(s.drop_last());
        assert(s.drop_last().take(r.len() as int) =~= s.take(r.len() as int));
    } else {
        assert(s.take(s.len() as int) =~= s);
    }
}

proof fn lemma_trim_end_symbols_prefix(s: Seq<char>)
    ensures
        trim_end_symbols(s) == s.take(trim_end_symbols(s).len() as int),
        trim_end_symbols(s).len() <= s.len(),
    decreases s.len(),
{
    if s.len() > 0 && !unicode_alphanumeric(s.last()) && s.last() != '\'' && s.last() != '-' {
        lemma_trim_end_symbols_prefix(s.drop_last());
        let r = trim_end_symbols(s.drop_last());
        assert(s.drop_last().take(r.len() as int) =~= s.take(r.len() as int));
    } else {
        assert(s.take(s.len() as int) =~= s);
    }
}

proof fn lemma_trim_start_suffix(s: Seq<char>)
    ensures
        trim_start_seq(s).len() <= s.len(),
        trim_start_seq(s) == s.skip(s.len() - trim_start_seq(s).len()),
    decreases s.len(),
{
    if s.len() > 0 && unicode_white_space(s[0]) {
        lemma_trim_start_suffix(s.drop_first());
        let r = trim_start_seq(s.drop_first());
        assert(s.drop_first().skip(s.len() - 1 - r.len()) =~= s.skip(s.len() - r.len()));
    } else {
        assert(s.skip(0) =~= s);
    }
}

proof fn lemma_trim_end_prefix(s: Seq<char>)
    ensures
        trim_end_seq(s).len() <= s.len(),
        trim_end_seq(s) == s.take(trim_end_seq(s).len() as int),
    decreases s.len(),
{
    if s.len() > 0 && unicode_white_space(s.last()) {
        lemma_trim_end_prefix(s.drop_last());
        let r = trim_end_seq(s.drop_last());
        assert(s.drop_last().take(r.len() as int) =~= s.take(r.len() as int));
    } else {
        assert(s.take(s.len() as int) =~= s);
    }
}

/// Nothing a text lacks appears in a piece of it.
proof fn lemma_piece_keeps_clean(s: Seq<char>, a: int, b: int)
    requires
        0 <= a <= b <= s.len(),
        !has_subseq(s, "..."@),
        forall|j: int| !upper_run_at(s, j),
    ensures
        !has_subseq(s.subrange(a, b), "..."@),
        forall|j: int| !upper_run_at(s.subrange(a, b), j),
{
    let t = s.subrange(a, b);
    assert forall|i: int| !occurs_at(t, "..."@, i) by {
        if occurs_at(t, "..."@, i) {
            assert(s.subrange(a + i, a + i + "..."@.len()) =~= t.subrange(i, i + "..."@.len()));
            assert(occurs_at(s, "..."@, a + i));
        }
    }
    assert forall|j: int| !upper_run_at(t, j) by {
        if upper_run_at(t, j) {
            assert forall|k: int| a + j <= k < a + j + 5 implies 'A' <= #[trigger] s[k] <= 'Z' by {
                assert(s[k] == t[k - a]);
            }
            assert(upper_run_at(s, a + j));
        }
    }
}

/// Trimming white space keeps a clean text clean.
proof fn lemma_trim_keeps_clean(s: Seq<char>)
    requires
        !has_subseq(s, "..."@),
        forall|j: int| !upper_run_at(s, j),
    ensures
        !has_subseq(trim_seq(s), "..."@),
        forall|j: int| !upper_run_at(trim_seq(s), j),
{
    let u = trim_start_seq(s);
    lemma_trim_start_suffix(s);
    assert(u =~= s.subrange(s.len() - u.len(), s.len() as int));
    lemma_piece_keeps_clean(s, s.len() - u.len(), s.len() as int);
    lemma_trim_end_prefix(u);
    let w = trim_end_seq(u);
    assert(w =~= u.subrange(0, w.len() as int));
    lemma_piece_keeps_clean(u, 0, w.len() as int);
}

/// Text typed into a window never holds the recogniser's trailing noise: no
/// "..." and no run of five capital letters.
pub proof fn lemma_typed_text_is_clean(p: Seq<u8>)
    ensures
        typed_seq(p) matches Some(t) ==> !has_subseq(t, "..."@) && forall|j: int| !upper_run_at(t, j),
{
    reveal_strlit("...");
    let raw = trim_seq(payload_str(p, Seq::empty()));
    let e = ellipsis_cut(raw);
    lemma_ellipsis_cut_clean(raw);
    let d = trim_end_dots(e);
    lemma_trim_end_dots_prefix(e);
    assert(d =~= e.subrange(0, d.len() as int));
    let t1 = trim_seq(d);
    let u = upper_cut(t1);
    lemma_upper_cut_clean(t1);
    lemma_upper_cut_prefix(t1);
    // "..." stays out of each shortened form; capital runs are gone after the cut.
    assert(!has_subseq(d, "..."@)) by {
        assert forall|i: int| !occurs_at(d, "..."@, i) by {
            if occurs_at(d, "..."@, i) {
                assert(e.subrange(i, i + 3) =~= d.subrange(i, i + 3));
                assert(occurs_at(e, "..."@, i));
            }
        }
    }
    assert(!has_subseq(t1, "..."@)) by {
        lemma_trim_start_suffix(d);
        let v = trim_start_seq(d);
        lemma_trim_end_prefix(v);
        assert forall|i: int| !occurs_at(t1, "..."@, i) by {
            if occurs_at(t1, "..."@, i) {
                let off = d.len() - v.len();
                assert(t1 =~= v.take(t1.len() as int));
                assert(d.subrange(off + i, off + i + 3) =~= t1.subrange(i, i + 3));
                assert(occurs_at(d, "..."@, off + i));
            }
        }
    }
    assert(!has_subseq(u, "..."@)) by {
        assert forall|i: int| !occurs_at(u, "..."@, i) by {
            if occurs_at(u, "..."@, i) {
                assert(t1.subrange(i, i + 3) =~= u.subrange(i, i + 3));
                assert(occurs_at(t1, "..."@, i));
            }
        }
    }
    let y = trim_end_symbols(u);
    lemma_trim_end_symbols_prefix(u);
    assert(y =~= u.subrange(0, y.len() as int));
    lemma_piece_keeps_clean(u, 0, y.len() as int);
    lemma_trim_keeps_clean(y);
}

proof fn lemma_ellipsis_cut_keeps(s: Seq<char>)
    requires
        !has_subseq(s, "..."@),
    ensures
        ellipsis_cut(s) == s,
    decreases s.len(),
{
    reveal_strlit("...");
    if s.len() >= 3 {
        assert(s.take(3) != "..."@) by {
            if s.take(3) == "..."@ {
                assert(s.subrange(0, 3) =~= s.take(3));
                assert(occurs_at(s, "..."@, 0));
            }
        }
        let t = s.skip(1);
        assert(!has_subseq(t, "..."@)) by {
            assert forall|i: int| !occurs_at(t, "..."@, i) by {
                if occurs_at(t, "..."@, i) {
                    assert(s.subrange(i + 1, i + 4) =~= t.subrange(i, i + 3));
                    assert(occurs_at(s, "..."@, i + 1));
                }
            }
        }
        lemma_ellipsis_cut_keeps(t);
        assert(seq![s[0]] + t =~= s);
    }
}

proof fn lemma_upper_cut_keeps(s: Seq<char>)
    requires
        forall|j: int| !upper_run_at(s, j),
    ensures
        upper_cut(s) == s,
    decreases s.len(),
{
    if s.len() >= 5 {
        assert(!upper_run_at(s, 0));
        let t = s.skip(1);
        assert forall|j: int| !upper_run_at(t, j) by {
            if upper_run_at(t, j) {
                assert forall|k: int| j + 1 <= k < j + 1 + 5 implies 'A' <= #[trigger] s[k] <= 'Z' by {
                    assert(s[k] == t[k - 1]);
                }
                assert(upper_run_at(s, j + 1));
            }
        }
        lemma_upper_cut_keeps(t);
        assert(seq![s[0]] + t =~= s);
    }
}

/// The end-trim of a transcription takes off only characters that are
/// neither alphanumeric nor `'` nor `-`, and stops at the first one that
/// is: what it keeps is a prefix that is empty or ends in such a character.
pub proof fn lemma_end_trim_removes_only_symbols(s: Seq<char>)
    ensures
        trim_end_symbols(s) == s.take(trim_end_symbols(s).len() as int),
        forall|i: int|
            trim_end_symbols(s).len() <= i < s.len() ==> !unicode_alphanumeric(#[trigger] s[i]) && s[i] != '\''
                && s[i] != '-',
        trim_end_symbols(s).len() > 0 ==> ({
            let c = trim_end_symbols(s).last();
            unicode_alphanumeric(c) || c == '\'' || c == '-'
        }),
    decreases s.len(),
{
    lemma_trim_end_symbols_prefix(s);
    if s.len() > 0 && !unicode_alphanumeric(s.last()) && s.last() != '\'' && s.last() != '-' {
        lemma_end_trim_removes_only_symbols(s.drop_last());
        let t = trim_end_symbols(s);
        assert forall|i: int| t.len() <= i < s.len() implies !unicode_alphanumeric(#[trigger] s[i]) && s[i]
            != '\'' && s[i] != '-' by {
            if i < s.len() - 1 {
                assert(s[i] == s.drop_last()[i]);
            }
        }
    }
}

/// A transcription that is already clean is typed as it stands: trimmed,
/// free of "..." and of runs of five capitals, and ending in an ASCII
/// alphanumeric character other than a dot, it cleans to itself; in
/// particular a trailing letter or digit is never taken off.
pub proof fn lemma_clean_keeps_plain_words(raw: Seq<char>)
    requires
        trim_seq(raw) == raw,
        raw.len() > 0,
        !has_subseq(raw, "..."@),
        forall|j: int| !upper_run_at(raw, j),
        unicode_alphanumeric(raw.last()),
        (raw.last() as u32) < 128,
        raw.last() != '.',
    ensures
        clean_seq(raw) == raw,
{
    lemma_ellipsis_cut_keeps(raw);
    assert(trim_end_dots(raw) == raw);
    lemma_upper_cut_keeps(raw);
    assert(trim_end_symbols(raw) == raw);
}

} // verus!
