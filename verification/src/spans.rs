//! Counting the positions of a buffer that a set of byte ranges covers,
//! however the ranges overlap.
use vstd::prelude::*;

verus! {

/// The byte range `[start, end)`; empty when `end <= start`.
#[derive(Clone, Copy, Debug, PartialEq, Eq, Structural)]
pub struct Span {
    pub start: usize,
    pub end: usize,
}

/// Whether position `p` lies in one of the ranges.
pub open spec fn spec_in_any(spans: Seq<Span>, p: int) -> bool {
    exists|k: int| 0 <= k < spans.len() && (#[trigger] spans[k]).start <= p < spans[k].end
}

/// Number of positions below `n` that lie in one of the ranges.
pub open spec fn spec_count_in(spans: Seq<Span>, n: nat) -> nat
    decreases n,
{
    if n == 0 {
        0
    } else {
        spec_count_in(spans, (n - 1) as nat) + if spec_in_any(spans, n - 1) {
            1nat
        } else {
            0nat
        }
    }
}

/// No more positions are covered than there are.
pub proof fn lemma_count_in_bounded(spans: Seq<Span>, n: nat)
    ensures
        spec_count_in(spans, n) <= n,
    decreases n,
{
    if n > 0 {
        lemma_count_in_bounded(spans, (n - 1) as nat);
    }
}

/// Over a stretch on which every position is covered alike, the count grows
/// by the length of the stretch or not at all.
pub proof fn lemma_count_in_stretch(spans: Seq<Span>, a: nat, b: nat)
    requires
        a <= b,
        forall|q: int| a <= q < b ==> spec_in_any(spans, q) == spec_in_any(spans, a as int),
    ensures
        spec_count_in(spans, b) == spec_count_in(spans, a) + if spec_in_any(spans, a as int) {
            b - a
        } else {
            0
        },
    decreases b - a,
{
    if a < b {
        lemma_count_in_stretch(spans, a, (b - 1) as nat);
    }
}

/// Whether one of the first `k` ranges holds position `p`.
pub open spec fn spec_in_first(spans: Seq<Span>, k: int, p: int) -> bool {
    exists|j: int| 0 <= j < k && (#[trigger] spans[j]).start <= p < spans[j].end
}

/// No boundary of the first `k` ranges lies strictly between `p` and `next`.
pub open spec fn spec_clear_between(spans: Seq<Span>, k: int, p: int, next: int) -> bool {
    forall|j: int|
        0 <= j < k ==> !(p < (#[trigger] spans[j]).start < next) && !(p < spans[j].end < next)
}

/// Counts the positions below `len` that one of the ranges covers.
///
/// The walk jumps from one range boundary to the next, so its cost depends on
/// the number of ranges and not on `len`.
pub fn count_covered(spans: &Vec<Span>, len: usize) -> (r: usize)
    ensures
        r == spec_count_in(spans@, len as nat),
        r <= len,
{
    let mut p: usize = 0;
    let mut total: usize = 0;
    proof {
        lemma_count_in_bounded(spans@, 0);
    }
    while p < len
        invariant
            p <= len,
            total == spec_count_in(spans@, p as nat),
            total <= p,
        decreases len - p,
    {
        let mut covered: bool = false;
        let mut next: usize = len;
        let mut k: usize = 0;
        while k < spans.len()
            invariant
                k <= spans@.len(),
                p < next <= len,
                covered == spec_in_first(spans@, k as int, p as int),
                spec_clear_between(spans@, k as int, p as int, next as int),
            decreases spans@.len() - k,
        {
            let s: Span = spans[k];
            if s.start <= p && p < s.end {
                covered = true;
            }
            if s.start > p && s.start < next {
                next = s.start;
            }
            if s.end > p && s.end < next {
                next = s.end;
            }
            k = k + 1;
            assert(covered == spec_in_first(spans@, k as int, p as int)) by {
                if spec_in_first(spans@, k as int, p as int) {
                    let j = choose|j: int|
                        0 <= j < k && (#[trigger] spans@[j]).start <= p < spans@[j].end;
                    if j < k - 1 {
                        assert(spec_in_first(spans@, k - 1, p as int));
                    }
                }
            }
        }
        proof {
            assert forall|q: int| p <= q < next implies spec_in_any(spans@, q) == spec_in_any(
                spans@,
                p as int,
            ) by {
                if spec_in_any(spans@, q) {
                    let j = choose|j: int|
                        0 <= j < spans@.len() && (#[trigger] spans@[j]).start <= q < spans@[j].end;
                    assert(spans@[j].start <= p < spans@[j].end);
                }
                if spec_in_any(spans@, p as int) {
                    let j = choose|j: int|
                        0 <= j < spans@.len() && (#[trigger] spans@[j]).start <= p < spans@[j].end;
                    assert(spans@[j].start <= q < spans@[j].end);
                }
            }
            lemma_count_in_stretch(spans@, p as nat, next as nat);
            assert(covered == spec_in_any(spans@, p as int));
        }
        if covered {
            total = total + (next - p);
        }
        p = next;
    }
    total
}

} // verus!
