//! Sample and byte buffers: taking chunks off the front, keeping the newest
//! samples, and keeping every n-th sample.
use vstd::prelude::*;

verus! {

/// Removes the first `n` items of `v` and returns them.
pub fn take_front<T>(v: &mut Vec<T>, n: usize) -> (front: Vec<T>)
    requires
        n <= old(v)@.len(),
    ensures
        front@ == old(v)@.take(n as int),
        final(v)@ == old(v)@.skip(n as int),
{
    let mut rest = v.split_off(n);
    std::mem::swap(v, &mut rest);
    assert(old(v)@.subrange(0, n as int) =~= old(v)@.take(n as int));
    assert(old(v)@.subrange(n as int, old(v)@.len() as int) =~= old(v)@.skip(n as int));
    rest
}

/// Drops the oldest items so that at most `cap` remain (the newest ones).
pub fn keep_last<T>(v: &mut Vec<T>, cap: usize)
    ensures
        old(v)@.len() <= cap ==> final(v)@ == old(v)@,
        old(v)@.len() > cap ==> final(v)@ == old(v)@.skip(old(v)@.len() - cap),
{
    let len = v.len();
    if len > cap {
        let _dropped = take_front(v, len - cap);
    }
}

/// Appends a copy of every item of `src` to `dst`.
pub fn append_copies<T: Copy>(dst: &mut Vec<T>, src: &[T])
    ensures
        final(dst)@ == old(dst)@ + src@,
{
    let mut i: usize = 0;
    while i < src.len()
        invariant
            i <= src@.len(),
            dst@ == old(dst)@ + src@.take(i as int),
        decreases src.len() - i,
    {
        dst.push(src[i]);
        i += 1;
        assert(old(dst)@ + src@.take(i as int) =~= old(dst)@ + src@.take((i - 1) as int) + seq![src@[i - 1]]);
    }
    assert(src@.take(src@.len() as int) =~= src@);
}

/// The items at positions 0, step, 2·step, … (what `iter().step_by(step)` yields).
pub open spec fn every_nth<T>(s: Seq<T>, step: nat) -> Seq<T>
    recommends
        step > 0,
{
    Seq::new(((s.len() + step - 1) / step as int) as nat, |i: int| s[i * step])
}

proof fn lemma_ceil_div(len: int, step: int, m: int)
    requires
        step > 0,
        m >= 0,
        m * step < len <= (m + 1) * step,
    ensures
        (len + step - 1) / step == m + 1,
{
    assert((len + step - 1) / step == m + 1) by (nonlinear_arith)
        requires
            step > 0,
            m >= 0,
            m * step < len <= (m + 1) * step,
    ;
}

/// A copy of every `step`-th item of `v`, starting with the first.
pub fn decimate<T: Copy>(v: &[T], step: usize) -> (r: Vec<T>)
    requires
        step > 0,
    ensures
        r@ == every_nth(v@, step as nat),
{
    let mut r: Vec<T> = Vec::new();
    if v.len() == 0 {
        assert((0 + step - 1) / (step as int) == 0) by (nonlinear_arith)
            requires
                step > 0,
        ;
        assert(every_nth(v@, step as nat) =~= r@);
        return r;
    }
    assert(r@.len() * step == 0) by (nonlinear_arith)
        requires
            r@.len() == 0,
    ;
    let mut i: usize = 0;
    loop
        invariant_except_break
            i < v@.len(),
            i as int == r@.len() * step,
        invariant
            step > 0,
            forall|k: int| 0 <= k < r@.len() ==> #[trigger] r@[k] == v@[k * step],
        ensures
            r@.len() >= 1,
            (r@.len() - 1) * step < v@.len() <= r@.len() * step,
            forall|k: int| 0 <= k < r@.len() ==> #[trigger] r@[k] == v@[k * step],
        decreases v@.len() - i,
    {
        r.push(v[i]);
        proof {
            assert(i as int == (r@.len() - 1) * step) by (nonlinear_arith)
                requires
                    i as int == (r@.len() - 1) * step,
            ;
            assert(r@.len() * step == (r@.len() - 1) * step + step) by (nonlinear_arith);
        }
        if v.len() - i <= step {
            break;
        }
        i += step;
    }
    proof {
        lemma_ceil_div(v@.len() as int, step as int, r@.len() - 1);
    }
    assert(r@ =~= every_nth(v@, step as nat));
    r
}

} // verus!
