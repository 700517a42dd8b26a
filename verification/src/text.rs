//! Text over character sequences: trimming, searching, replacing and
//! decimal formatting, each with its meaning stated over `Seq<char>`.
use vstd::prelude::*;
use vstd::utf8::{decode_utf8, valid_utf8};

verus! {

// ---------------------------------------------------------------------------
// What std's character and string routines answer.
// ---------------------------------------------------------------------------

/// `String::push` appends one character to the end of the string.
pub assume_specification[ String::push ](s: &mut String, ch: char)
    ensures
        final(s)@ == old(s)@.push(ch),
;

/// Whether `c` has the Unicode `White_Space` property: tab, line feed,
/// vertical tab, form feed, carriage return, space, next line, no-break
/// space, ogham space mark, the spaces from en quad to hair space, line and
/// paragraph separator, narrow no-break space, medium mathematical space and
/// ideographic space.
pub open spec fn unicode_white_space(c: char) -> bool {
    let u = c as u32;
    ||| 0x09 <= u <= 0x0d
    ||| u == 0x20
    ||| u == 0x85
    ||| u == 0xa0
    ||| u == 0x1680
    ||| 0x2000 <= u <= 0x200a
    ||| u == 0x2028
    ||| u == 0x2029
    ||| u == 0x202f
    ||| u == 0x205f
    ||| u == 0x3000
}

/// `char::is_whitespace`: true exactly when `c` has the Unicode `White_Space`
/// property (see `unicode_white_space`).
pub assume_specification[ char::is_whitespace ](c: char) -> (b: bool)
    ensures
        b == unicode_white_space(c),
;

/// Whether `c` is alphabetic or numeric in Unicode's sense: what `char::is_alphanumeric` answers.
pub uninterp spec fn unicode_alphanumeric(c: char) -> bool;

/// `char::is_alphanumeric`: true exactly when `c` is Unicode alphabetic or
/// numeric. The tables behind it are left to the name.
pub assume_specification[ char::is_alphanumeric ](c: char) -> (b: bool)
    ensures
        b == unicode_alphanumeric(c),
;

/// The lowercase form of a whole string: what `str::to_lowercase` returns.
pub uninterp spec fn lowercase_of(s: Seq<char>) -> Seq<char>;

/// `str::to_lowercase`: the result is the Unicode lowercase mapping of `s`,
/// named here; its character-by-character rules (and the final-sigma rule) are
/// left to the name.
pub assume_specification[ str::to_lowercase ](s: &str) -> (r: String)
    ensures
        r@ == lowercase_of(s@),
;

/// `std::str::from_utf8`: `Ok` exactly when the bytes are valid UTF-8, and
/// then the text they encode; the error value is dropped and the text copied
/// into a `String`.
#[verifier::external_body]
pub(crate) fn utf8_decode(bytes: &[u8]) -> (r: Option<String>)
    ensures
        r is Some <==> valid_utf8(bytes@),
        r matches Some(s) ==> s@ == decode_utf8(bytes@),
{
    std::str::from_utf8(bytes).ok().map(String::from)
}

// ---------------------------------------------------------------------------
// Specifications.
// ---------------------------------------------------------------------------

/// `s` with leading white space removed.
pub open spec fn trim_start_seq(s: Seq<char>) -> Seq<char>
    decreases s.len(),
{
    if s.len() > 0 && unicode_white_space(s[0]) {
        trim_start_seq(s.drop_first())
    } else {
        s
    }
}

/// `s` with trailing white space removed.
pub open spec fn trim_end_seq(s: Seq<char>) -> Seq<char>
    decreases s.len(),
{
    if s.len() > 0 && unicode_white_space(s.last()) {
        trim_end_seq(s.drop_last())
    } else {
        s
    }
}

/// `s` without white space at either end (what `str::trim` yields).
pub open spec fn trim_seq(s: Seq<char>) -> Seq<char> {
    trim_end_seq(trim_start_seq(s))
}

/// `needle` occurs in `hay` starting at position `i`.
pub open spec fn occurs_at(hay: Seq<char>, needle: Seq<char>, i: int) -> bool {
    0 <= i && i + needle.len() <= hay.len() && hay.subrange(i, i + needle.len()) == needle
}

/// `needle` occurs somewhere in `hay`.
pub open spec fn has_subseq(hay: Seq<char>, needle: Seq<char>) -> bool {
    exists|i: int| occurs_at(hay, needle, i)
}

/// Every non-overlapping occurrence of `from` in `s`, scanned left to right,
/// replaced by `to` (what `str::replace` yields for a non-empty pattern).
pub open spec fn replace_seq(s: Seq<char>, from: Seq<char>, to: Seq<char>) -> Seq<char>
    decreases s.len(),
{
    if from.len() == 0 || s.len() < from.len() {
        s
    } else if s.take(from.len() as int) == from {
        to + replace_seq(s.skip(from.len() as int), from, to)
    } else {
        seq![s[0]] + replace_seq(s.skip(1), from, to)
    }
}

/// The decimal digit for `d < 10`.
pub open spec fn digit_char(d: nat) -> char {
    if d == 0 { '0' }
    else if d == 1 { '1' }
    else if d == 2 { '2' }
    else if d == 3 { '3' }
    else if d == 4 { '4' }
    else if d == 5 { '5' }
    else if d == 6 { '6' }
    else if d == 7 { '7' }
    else if d == 8 { '8' }
    else { '9' }
}

/// The decimal representation of `n` without leading zeros (`"0"` for zero).
pub open spec fn decimal_seq(n: nat) -> Seq<char>
    decreases n,
{
    if n < 10 {
        seq![digit_char(n)]
    } else {
        decimal_seq(n / 10).push(digit_char(n % 10))
    }
}

/// The words of `words` joined with `sep` between neighbours.
pub open spec fn join_seq(words: Seq<Seq<char>>, sep: Seq<char>) -> Seq<char>
    decreases words.len(),
{
    if words.len() == 0 {
        Seq::empty()
    } else if words.len() == 1 {
        words[0]
    } else {
        join_seq(words.drop_last(), sep) + sep + words.last()
    }
}

// ---------------------------------------------------------------------------
// Conversions between `str`, `String` and `Vec<char>`.
// ---------------------------------------------------------------------------

/// The characters of `s`, in order.
pub fn chars_of(s: &str) -> (r: Vec<char>)
    ensures
        r@ == s@,
{
    let mut r: Vec<char> = Vec::new();
    for c in it: s.chars()
        invariant
            r@ == it.seq().take(it.index() as int),
            it.seq() == s@,
    {
        r.push(c);
    }
    r
}

/// The string made of `v[from..to]`.
pub fn string_of_range(v: &Vec<char>, from: usize, to: usize) -> (r: String)
    requires
        from <= to <= v.len(),
    ensures
        r@ == v@.subrange(from as int, to as int),
{
    let mut r = String::new();
    let mut i: usize = from;
    while i < to
        invariant
            from <= i <= to <= v.len(),
            r@ == v@.subrange(from as int, i as int),
        decreases to - i,
    {
        r.push(v[i]);
        i += 1;
        assert(v@.subrange(from as int, i as int) == v@.subrange(from as int, (i - 1) as int).push(
            v@[i - 1],
        ));
    }
    r
}

/// The string made of the characters of `v`, in order.
pub fn string_of(v: &Vec<char>) -> (r: String)
    ensures
        r@ == v@,
{
    let r = string_of_range(v, 0, v.len());
    assert(v@.subrange(0, v.len() as int) == v@);
    r
}

/// A fresh `String` with the contents of `s`.
pub fn owned(s: &str) -> (r: String)
    ensures
        r@ == s@,
{
    let mut r = String::new();
    r.append(s);
    assert(r@ == Seq::<char>::empty() + s@);
    r
}

// ---------------------------------------------------------------------------
// Comparing and searching.
// ---------------------------------------------------------------------------

/// Whether `needle` occurs in `hay` at position `i`.
pub fn matches_at(hay: &Vec<char>, needle: &Vec<char>, i: usize) -> (r: bool)
    ensures
        r == occurs_at(hay@, needle@, i as int),
{
    if i > hay.len() || needle.len() > hay.len() - i {
        return false;
    }
    let mut k: usize = 0;
    while k < needle.len()
        invariant
            i + needle.len() <= hay.len(),
            k <= needle.len(),
            forall|j: int| 0 <= j < k ==> hay@[i + j] == needle@[j],
        decreases needle.len() - k,
    {
        if hay[i + k] != needle[k] {
            assert(hay@.subrange(i as int, i + needle.len())[k as int] != needle@[k as int]);
            return false;
        }
        k += 1;
    }
    assert(hay@.subrange(i as int, i + needle.len()) =~= needle@);
    true
}

/// Whether the two strings hold the same characters.
pub fn str_eq(a: &str, b: &str) -> (r: bool)
    ensures
        r == (a@ == b@),
{
    let va = chars_of(a);
    let vb = chars_of(b);
    if va.len() != vb.len() {
        return false;
    }
    let r = matches_at(&va, &vb, 0);
    proof {
        if r {
            assert(va@.subrange(0, vb@.len() as int) =~= va@);
        } else {
            assert(!(va@ =~= vb@)) by {
                if va@ =~= vb@ {
                    assert(va@.subrange(0, vb@.len() as int) =~= vb@);
                }
            }
        }
    }
    r
}

/// Whether `needle` occurs anywhere in `hay`.
pub fn contains_seq(hay: &Vec<char>, needle: &Vec<char>) -> (r: bool)
    ensures
        r == has_subseq(hay@, needle@),
{
    if needle.len() > hay.len() {
        return false;
    }
    let last = hay.len() - needle.len();
    let mut i: usize = 0;
    loop
        invariant_except_break
            i <= last,
            last + needle.len() == hay.len(),
            forall|j: int| 0 <= j < i ==> !occurs_at(hay@, needle@, j),
        ensures
            last + needle.len() == hay.len(),
            forall|j: int| 0 <= j <= last ==> !occurs_at(hay@, needle@, j),
        decreases last - i,
    {
        if matches_at(hay, needle, i) {
            return true;
        }
        if i == last {
            break;
        }
        i += 1;
    }
    assert forall|j: int| !occurs_at(hay@, needle@, j) by {
        if 0 <= j && j + needle@.len() <= hay@.len() {
            assert(j <= last);
        }
    }
    false
}

/// Whether `needle` occurs anywhere in `hay` (`str::contains`).
pub fn str_contains(hay: &str, needle: &str) -> (r: bool)
    ensures
        r == has_subseq(hay@, needle@),
{
    contains_seq(&chars_of(hay), &chars_of(needle))
}

/// Whether `s` begins with `prefix` (`str::starts_with`).
pub fn str_starts_with(s: &str, prefix: &str) -> (r: bool)
    ensures
        r == (prefix@.len() <= s@.len() && s@.take(prefix@.len() as int) == prefix@),
{
    let r = matches_at(&chars_of(s), &chars_of(prefix), 0);
    assert(s@.take(prefix@.len() as int) == s@.subrange(0, prefix@.len() as int));
    r
}

// ---------------------------------------------------------------------------
// Trimming.
// ---------------------------------------------------------------------------

proof fn lemma_trim_start_skip(s: Seq<char>, i: int)
    requires
        0 <= i < s.len(),
        unicode_white_space(s[i]),
    ensures
        trim_start_seq(s.skip(i)) == trim_start_seq(s.skip(i + 1)),
{
    assert(s.skip(i).drop_first() =~= s.skip(i + 1));
}

proof fn lemma_trim_end_take(s: Seq<char>, j: int)
    requires
        0 < j <= s.len(),
        unicode_white_space(s[j - 1]),
    ensures
        trim_end_seq(s.take(j)) == trim_end_seq(s.take(j - 1)),
{
    assert(s.take(j).drop_last() =~= s.take(j - 1));
}

/// The position of the first character of `v` that is not white space
/// (`v.len()` when there is none), and the one after the last such character.
pub fn trim_bounds(v: &Vec<char>) -> (r: (usize, usize))
    ensures
        r.0 <= r.1 <= v.len(),
        trim_seq(v@) == v@.subrange(r.0 as int, r.1 as int),
{
    let n = v.len();
    let mut i: usize = 0;
    assert(v@.skip(0) =~= v@);
    while i < n && v[i].is_whitespace()
        invariant
            i <= n == v.len(),
            trim_start_seq(v@) == trim_start_seq(v@.skip(i as int)),
        decreases n - i,
    {
        proof {
            lemma_trim_start_skip(v@, i as int);
        }
        i += 1;
    }
    let ghost t = v@.skip(i as int);
    assert(trim_start_seq(v@) == t) by {
        if i < n {
            assert(t[0] == v@[i as int]);
        } else {
            assert(t.len() == 0);
        }
    }
    let mut j: usize = n;
    assert(t.take(j - i) =~= t);
    while j > i && v[j - 1].is_whitespace()
        invariant
            i <= j <= n == v.len(),
            t == v@.skip(i as int),
            trim_end_seq(t) == trim_end_seq(t.take(j - i)),
        decreases j,
    {
        proof {
            assert(t[j - i - 1] == v@[j - 1]);
            lemma_trim_end_take(t, j - i);
        }
        j -= 1;
    }
    assert(trim_end_seq(t.take(j - i)) == t.take(j - i)) by {
        if j > i {
            assert(t.take(j - i).last() == v@[j - 1]);
        }
    }
    assert(t.take(j - i) =~= v@.subrange(i as int, j as int));
    (i, j)
}

/// `s` without white space at either end (`str::trim`).
pub fn trim(s: &str) -> (r: String)
    ensures
        r@ == trim_seq(s@),
{
    let v = chars_of(s);
    let (a, b) = trim_bounds(&v);
    string_of_range(&v, a, b)
}

// ---------------------------------------------------------------------------
// Replacing.
// ---------------------------------------------------------------------------

/// `s` with every non-overlapping occurrence of the non-empty `from`,
/// scanned left to right, replaced by `to` (`str::replace`).
pub fn replace_str(s: &str, from: &str, to: &str) -> (r: String)
    requires
        from@.len() > 0,
    ensures
        r@ == replace_seq(s@, from@, to@),
{
    let v = chars_of(s);
    let f = chars_of(from);
    let n = v.len();
    let m = f.len();
    let mut out = String::new();
    let mut i: usize = 0;
    assert(v@.skip(0) =~= v@);
    assert(out@ + replace_seq(v@, f@, to@) =~= replace_seq(v@, f@, to@));
    while i < n
        invariant
            i <= n == v.len(),
            m == f.len() == from@.len() > 0,
            v@ == s@,
            f@ == from@,
            replace_seq(v@, f@, to@) == out@ + replace_seq(v@.skip(i as int), f@, to@),
        decreases n - i,
    {
        let ghost rest = v@.skip(i as int);
        if m <= n - i && matches_at(&v, &f, i) {
            proof {
                assert(rest.take(m as int) =~= v@.subrange(i as int, i + m));
                assert(rest.skip(m as int) =~= v@.skip(i + m));
            }
            out.append(to);
            i += m;
        } else {
            proof {
                if m <= n - i {
                    assert(rest.take(m as int) =~= v@.subrange(i as int, i + m));
                }
                assert(rest.skip(1) =~= v@.skip(i + 1));
                if rest.len() < m {
                    // no match is possible in the rest: replace_seq keeps it whole
                    assert(replace_seq(rest, f@, to@) == rest);
                    lemma_replace_short(rest.skip(1), f@, to@);
                    assert(rest =~= seq![rest[0]] + rest.skip(1));
                }
            }
            out.push(v[i]);
            i += 1;
        }
    }
    assert(v@.skip(n as int) =~= Seq::<char>::empty());
    out
}

proof fn lemma_replace_short(s: Seq<char>, from: Seq<char>, to: Seq<char>)
    requires
        s.len() < from.len(),
    ensures
        replace_seq(s, from, to) == s,
{
}

// ---------------------------------------------------------------------------
// Numbers and joining.
// ---------------------------------------------------------------------------

/// The decimal digit character for `d < 10`.
pub fn digit(d: u64) -> (c: char)
    requires
        d < 10,
    ensures
        c == digit_char(d as nat),
{
    if d == 0 { '0' }
    else if d == 1 { '1' }
    else if d == 2 { '2' }
    else if d == 3 { '3' }
    else if d == 4 { '4' }
    else if d == 5 { '5' }
    else if d == 6 { '6' }
    else if d == 7 { '7' }
    else if d == 8 { '8' }
    else { '9' }
}

/// Appends the decimal representation of `n` to `out` (what `format!("{}", n)` writes).
pub fn push_decimal(out: &mut String, n: u64)
    ensures
        final(out)@ == old(out)@ + decimal_seq(n as nat),
    decreases n,
{
    if n < 10 {
        out.push(digit(n));
        assert(seq![digit_char(n as nat)] =~= Seq::<char>::empty().push(digit_char(n as nat)));
        assert(old(out)@.push(digit_char(n as nat)) =~= old(out)@ + seq![digit_char(n as nat)]);
    } else {
        push_decimal(out, n / 10);
        out.push(digit(n % 10));
        assert(old(out)@ + decimal_seq(n as nat) =~= old(out)@ + decimal_seq((n / 10) as nat) + seq![
            digit_char((n % 10) as nat),
        ]);
    }
}

/// The decimal representation of `n`.
pub fn decimal(n: u64) -> (r: String)
    ensures
        r@ == decimal_seq(n as nat),
{
    let mut r = String::new();
    push_decimal(&mut r, n);
    assert(r@ =~= decimal_seq(n as nat));
    r
}

/// The decimal representation of a signed `n`, with `-` in front when negative.
pub open spec fn signed_decimal_seq(n: int) -> Seq<char> {
    if n < 0 {
        seq!['-'] + decimal_seq((-n) as nat)
    } else {
        decimal_seq(n as nat)
    }
}

/// The decimal representation of `n` (what `format!("{}", n)` writes for an `i64`).
pub fn signed_decimal(n: i64) -> (r: String)
    ensures
        r@ == signed_decimal_seq(n as int),
{
    let mut r = String::new();
    if n < 0 {
        r.push('-');
        let m: u64 = ((-(n + 1)) as u64) + 1;
        push_decimal(&mut r, m);
        assert(r@ =~= seq!['-'] + decimal_seq(m as nat));
    } else {
        push_decimal(&mut r, n as u64);
        assert(r@ =~= decimal_seq(n as nat));
    }
    r
}

/// The strings of `words` joined with `sep` between neighbours (`[String]::join`).
pub fn join(words: &Vec<String>, sep: &str) -> (r: String)
    ensures
        r@ == join_seq(words@.map_values(|w: String| w@), sep@),
{
    let ghost views = words@.map_values(|w: String| w@);
    let mut r = String::new();
    let mut i: usize = 0;
    while i < words.len()
        invariant
            i <= words.len(),
            views == words@.map_values(|w: String| w@),
            r@ == join_seq(views.take(i as int), sep@),
        decreases words.len() - i,
    {
        if i != 0 {
            r.append(sep);
        }
        r.append(words[i].as_str());
        proof {
            let t = views.take(i + 1);
            assert(t.drop_last() =~= views.take(i as int));
            if i == 0 {
                assert(r@ =~= t[0]);
            }
        }
        i += 1;
    }
    assert(views.take(words.len() as int) =~= views);
    r
}

} // verus!
