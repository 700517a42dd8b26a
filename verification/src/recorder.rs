//! The bus recorder's command line and the CSV it writes for byte buses.
use vstd::prelude::*;
use crate::text::{decimal, decimal_seq, owned, str_eq};

verus! {

/// The CSV header of a recording from the single-bus command.
pub const SAMPLE_HEADER: &'static str = "msg,elapsed_ms,payload_len,sample_count,peak,rms";

/// The CSV header of a byte-bus recording made by the two-bus command.
pub const BYTE_HEADER: &'static str = "msg,elapsed_ms,payload_len,byte_count,min_val,max_val";

// ---------------------------------------------------------------------------
// Reading a count the way `usize::from_str` does.
// ---------------------------------------------------------------------------

/// '0' through '9'.
pub open spec fn is_digit(c: char) -> bool {
    '0' <= c && c <= '9'
}

/// The number a run of decimal digits denotes.
pub open spec fn digits_value(s: Seq<char>) -> nat
    decreases s.len(),
{
    if s.len() == 0 {
        0
    } else {
        digits_value(s.drop_last()) * 10 + ((s.last() as u32) - ('0' as u32)) as nat
    }
}

/// The digits of a count: the text after an optional leading `+`.
pub open spec fn unsigned_digits(s: Seq<char>) -> Seq<char> {
    if s.len() > 0 && s[0] == '+' {
        s.skip(1)
    } else {
        s
    }
}

/// A run of one or more decimal digits whose value fits in a `usize`, and that value.
pub open spec fn parse_digits(d: Seq<char>) -> Option<nat> {
    if d.len() > 0 && (forall|i: int| 0 <= i < d.len() ==> is_digit(#[trigger] d[i])) && digits_value(d)
        <= usize::MAX {
        Some(digits_value(d))
    } else {
        None
    }
}

/// What `usize::from_str` accepts: an optional `+`, then one or more decimal
/// digits whose value fits in a `usize`.
pub open spec fn parse_count_seq(s: Seq<char>) -> Option<nat> {
    parse_digits(unsigned_digits(s))
}

proof fn lemma_digits_value_mono(s: Seq<char>, i: int)
    requires
        0 <= i <= s.len(),
        forall|k: int| 0 <= k < s.len() ==> is_digit(#[trigger] s[k]),
    ensures
        digits_value(s.take(i)) <= digits_value(s),
    decreases s.len() - i,
{
    if i < s.len() {
        lemma_digits_value_mono(s, i + 1);
        assert(s.take(i + 1).drop_last() =~= s.take(i));
    } else {
        assert(s.take(i) =~= s);
    }
}

proof fn lemma_overflow_rejects(d: Seq<char>, j: int)
    requires
        0 <= j <= d.len(),
        digits_value(d.take(j)) > usize::MAX,
    ensures
        !((forall|k: int| 0 <= k < d.len() ==> is_digit(#[trigger] d[k])) && digits_value(d) <= usize::MAX),
{
    if forall|k: int| 0 <= k < d.len() ==> is_digit(#[trigger] d[k]) {
        lemma_digits_value_mono(d, j);
    }
}

/// A message count from the command line (see `parse_count_seq`).
pub fn parse_count(s: &str) -> (r: Option<usize>)
    ensures
        match r {
            Some(n) => parse_count_seq(s@) == Some(n as nat),
            None => parse_count_seq(s@) is None,
        },
{
    let v = crate::text::chars_of(s);
    let start: usize = if v.len() > 0 && v[0] == '+' {
        1
    } else {
        0
    };
    let ghost d = unsigned_digits(s@);
    assert(v@.skip(start as int) == d);
    if start == v.len() {
        return None;
    }
    let mut acc: usize = 0;
    let mut i: usize = start;
    while i < v.len()
        invariant
            start <= i <= v.len(),
            v@ == s@,
            d == v@.skip(start as int),
            d == unsigned_digits(s@),
            forall|k: int| start <= k < i ==> is_digit(#[trigger] v@[k]),
            acc as nat == digits_value(v@.subrange(start as int, i as int)),
        decreases v.len() - i,
    {
        let c = v[i];
        if !('0' <= c && c <= '9') {
            assert(d[i - start] == c);
            assert(!is_digit(d[i - start]));
            return None;
        }
        let dv: usize = ((c as u32) - ('0' as u32)) as usize;
        assert(v@.subrange(start as int, i + 1).drop_last() =~= v@.subrange(start as int, i as int));
        let m = acc.checked_mul(10);
        let next = match m {
            Some(x) => x.checked_add(dv),
            None => None,
        };
        match next {
            Some(x) => {
                acc = x;
            },
            None => {
                proof {
                    let pre = v@.subrange(start as int, i + 1);
                    assert(pre.drop_last() =~= v@.subrange(start as int, i as int));
                    assert(pre.last() == c);
                    assert(digits_value(pre) > usize::MAX);
                    assert(pre =~= d.take(i + 1 - start));
                    lemma_overflow_rejects(d, i + 1 - start);
                }
                return None;
            },
        }
        i += 1;
    }
    assert(v@.subrange(start as int, v.len() as int) =~= d);
    Some(acc)
}

// ---------------------------------------------------------------------------
// The command line.
// ---------------------------------------------------------------------------

/// What the recorder was asked to do.
pub enum RecorderPlan {
    /// Too few arguments: print the usage.
    Usage,
    /// Record two buses at once, the first as bytes, the second as samples.
    Concurrent { bus1: String, bus2: String, max_msgs: usize },
    /// Record one bus; `bus_type` "f32" reads samples, anything else bytes.
    Single { bus: String, max_msgs: usize, bus_type: String },
    /// The single-bus count is not a number.
    BadCount,
}

/// The plan for the arguments (`args[0]` is the program): fewer than three is
/// the usage; a fourth that is a count means two buses; otherwise one bus with
/// the third as its count and the optional fourth as its type ("u8" when absent).
pub fn plan(args: &Vec<String>) -> (r: RecorderPlan)
    ensures
        args@.len() < 3 ==> r is Usage,
        args@.len() >= 4 && parse_count_seq(args@[3]@) is Some ==> (r matches RecorderPlan::Concurrent {
            bus1,
            bus2,
            max_msgs,
        } && bus1@ == args@[1]@ && bus2@ == args@[2]@ && parse_count_seq(args@[3]@) == Some(
            max_msgs as nat,
        )),
        args@.len() >= 3 && !(args@.len() >= 4 && parse_count_seq(args@[3]@) is Some) ==> match parse_count_seq(
            args@[2]@,
        ) {
            Some(n) => r matches RecorderPlan::Single { bus, max_msgs, bus_type } && bus@ == args@[1]@
                && max_msgs == n && bus_type@ == (if args@.len() >= 4 {
                args@[3]@
            } else {
                "u8"@
            }),
            None => r is BadCount,
        },
{
    if args.len() < 3 {
        return RecorderPlan::Usage;
    }
    if args.len() >= 4 {
        if let Some(n) = parse_count(args[3].as_str()) {
            return RecorderPlan::Concurrent { bus1: args[1].clone(), bus2: args[2].clone(), max_msgs: n };
        }
    }
    match parse_count(args[2].as_str()) {
        Some(n) => {
            let bus_type = if args.len() >= 4 {
                args[3].clone()
            } else {
                owned("u8")
            };
            RecorderPlan::Single { bus: args[1].clone(), max_msgs: n, bus_type }
        },
        None => RecorderPlan::BadCount,
    }
}

/// Whether a bus type names the sample (`f32`) reading.
pub fn reads_samples(bus_type: &str) -> (r: bool)
    ensures
        r == (bus_type@ == "f32"@),
{
    str_eq(bus_type, "f32")
}

/// The file a recording goes to: `/tmp/rec-<bus>-<stamp>.csv`.
pub fn recording_path(bus: &str, stamp: u64) -> (r: String)
    ensures
        r@ == "/tmp/rec-"@ + bus@ + "-"@ + decimal_seq(stamp as nat) + ".csv"@,
{
    let mut r = owned("/tmp/rec-");
    r.append(bus);
    r.append("-");
    r.append(decimal(stamp).as_str());
    r.append(".csv");
    r
}

// ---------------------------------------------------------------------------
// Byte-bus rows.
// ---------------------------------------------------------------------------

/// The smallest byte of a payload, 0 when it is empty.
pub open spec fn min_byte(p: Seq<u8>) -> u8
    decreases p.len(),
{
    if p.len() == 0 {
        0
    } else if p.len() == 1 {
        p[0]
    } else {
        let m = min_byte(p.drop_last());
        if p.last() < m {
            p.last()
        } else {
            m
        }
    }
}

/// The largest byte of a payload, 0 when it is empty.
pub open spec fn max_byte(p: Seq<u8>) -> u8
    decreases p.len(),
{
    if p.len() == 0 {
        0
    } else if p.len() == 1 {
        p[0]
    } else {
        let m = max_byte(p.drop_last());
        if p.last() > m {
            p.last()
        } else {
            m
        }
    }
}

/// The smallest and largest byte of a payload, each 0 when it is empty.
pub fn byte_range(p: &[u8]) -> (r: (u8, u8))
    ensures
        r == (min_byte(p@), max_byte(p@)),
{
    if p.len() == 0 {
        return (0, 0);
    }
    let mut lo: u8 = p[0];
    let mut hi: u8 = p[0];
    let mut i: usize = 1;
    assert(p@.take(1).len() == 1);
    while i < p.len()
        invariant
            1 <= i <= p@.len(),
            lo == min_byte(p@.take(i as int)),
            hi == max_byte(p@.take(i as int)),
        decreases p@.len() - i,
    {
        assert(p@.take(i + 1).drop_last() =~= p@.take(i as int));
        assert(p@.take(i + 1).last() == p@[i as int]);
        if p[i] < lo {
            lo = p[i];
        }
        if p[i] > hi {
            hi = p[i];
        }
        i += 1;
    }
    assert(p@.take(p@.len() as int) =~= p@);
    (lo, hi)
}

/// One CSV row for a byte payload: message number, elapsed milliseconds, the
/// length twice, and the smallest and largest byte.
pub fn byte_row(count: u64, elapsed_ms: u64, payload: &[u8]) -> (r: String)
    ensures
        ({
            let n = decimal_seq(payload@.len());
            r@ == decimal_seq(count as nat) + ","@ + decimal_seq(elapsed_ms as nat) + ","@ + n + ","@ + n
                + ","@ + decimal_seq(min_byte(payload@) as nat) + ","@ + decimal_seq(max_byte(payload@) as nat)
        }),
{
    let (lo, hi) = byte_range(payload);
    let n = decimal(payload.len() as u64);
    let mut r = decimal(count);
    r.append(",");
    r.append(decimal(elapsed_ms).as_str());
    r.append(",");
    r.append(n.as_str());
    r.append(",");
    r.append(n.as_str());
    r.append(",");
    r.append(decimal(lo as u64).as_str());
    r.append(",");
    r.append(decimal(hi as u64).as_str());
    r
}

} // verus!
