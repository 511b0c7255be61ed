//! The mathematical model of accumulated observations.
use vstd::prelude::*;

verus! {

/// Largest absolute value of a magnitude (that of `i64::MIN`).
pub open spec fn magnitude_bound() -> int {
    0x8000_0000_0000_0000
}

/// Sum of a sequence of integers.
pub open spec fn seq_sum(s: Seq<int>) -> int
    decreases s.len(),
{
    if s.len() == 0 {
        0
    } else {
        seq_sum(s.drop_last()) + s.last()
    }
}

/// Index of the first bound at or after `i` that is at least `m`, or
/// `bounds.len()` when there is none.
pub open spec fn first_fit_from(bounds: Seq<i64>, m: int, i: int) -> int
    decreases bounds.len() - i,
{
    if i < 0 || i >= bounds.len() {
        bounds.len() as int
    } else if m <= bounds[i] {
        i
    } else {
        first_fit_from(bounds, m, i + 1)
    }
}

/// The histogram bucket that takes magnitude `m`: the first one whose upper
/// bound is at least `m`, or `bounds.len()` (no finite bucket) when `m`
/// exceeds every bound.
pub open spec fn bucket_of(bounds: Seq<i64>, m: int) -> int {
    first_fit_from(bounds, m, 0)
}

/// `s` with `c` added at index `k` (unchanged when `k` is out of range).
pub open spec fn placed(s: Seq<int>, k: int, c: int) -> Seq<int> {
    Seq::new(s.len(), |i: int| if i == k { s[i] + c } else { s[i] })
}

/// Element-wise sum over the indices of `a`.
pub open spec fn add_seqs(a: Seq<int>, b: Seq<int>) -> Seq<int> {
    Seq::new(a.len(), |i: int| a[i] + b[i])
}

/// What a bag or a snapshot holds: how many observations, the sum of their
/// magnitudes, and how many fell into each finite bucket.
pub struct Tally {
    pub count: int,
    pub sum: int,
    pub buckets: Seq<int>,
}

impl Tally {
    /// A tally with nothing in it, for `n` buckets.
    pub open spec fn empty(n: nat) -> Tally {
        Tally { count: 0, sum: 0, buckets: Seq::new(n, |i: int| 0) }
    }

    /// The tally after `count` observations of `magnitude` have been folded in.
    pub open spec fn inserted(self, bounds: Seq<i64>, magnitude: int, count: int) -> Tally {
        Tally {
            count: self.count + count,
            sum: self.sum + magnitude * count,
            buckets: placed(self.buckets, bucket_of(bounds, magnitude), count),
        }
    }

    /// Two tallies of the same event added together.
    pub open spec fn add(self, other: Tally) -> Tally {
        Tally {
            count: self.count + other.count,
            sum: self.sum + other.sum,
            buckets: add_seqs(self.buckets, other.buckets),
        }
    }

    /// Observations that fell into no finite bucket.
    pub open spec fn overflow(self) -> int {
        self.count - seq_sum(self.buckets)
    }

    /// A tally that a bag with `n` buckets can hold.
    pub open spec fn fits(self, n: nat) -> bool {
        &&& self.buckets.len() == n
        &&& forall|i: int| 0 <= i < n ==> 0 <= #[trigger] self.buckets[i]
        &&& 0 <= seq_sum(self.buckets) <= self.count <= usize::MAX
        &&& -self.count * magnitude_bound() <= self.sum <= self.count * magnitude_bound()
    }
}

/// `s` with `c` added at `k` sums to `c` more, when `k` is an index of `s`.
pub proof fn lemma_sum_placed(s: Seq<int>, k: int, c: int)
    ensures
        seq_sum(placed(s, k, c)) == seq_sum(s) + if 0 <= k < s.len() { c } else { 0 },
    decreases s.len(),
{
    if s.len() > 0 {
        let p = placed(s, k, c);
        lemma_sum_placed(s.drop_last(), k, c);
        assert(p.drop_last() =~= placed(s.drop_last(), k, c));
    }
}

/// The element-wise sum of two sequences sums to the sum of their sums.
pub proof fn lemma_sum_add(a: Seq<int>, b: Seq<int>)
    requires
        a.len() == b.len(),
    ensures
        seq_sum(add_seqs(a, b)) == seq_sum(a) + seq_sum(b),
    decreases a.len(),
{
    if a.len() > 0 {
        lemma_sum_add(a.drop_last(), b.drop_last());
        assert(add_seqs(a, b).drop_last() =~= add_seqs(a.drop_last(), b.drop_last()));
    }
}

/// A sequence of zeros sums to zero.
pub proof fn lemma_sum_zeros(n: nat)
    ensures
        seq_sum(Seq::new(n, |i: int| 0int)) == 0,
    decreases n,
{
    if n > 0 {
        lemma_sum_zeros((n - 1) as nat);
        assert(Seq::new(n, |i: int| 0int).drop_last() =~= Seq::new((n - 1) as nat, |i: int| 0int));
    }
}

/// Over non-negative elements, every prefix sums to at most the whole, and
/// each element is at most the sum of the prefix that ends with it.
pub proof fn lemma_prefix_sum(s: Seq<int>, i: int)
    requires
        0 <= i <= s.len(),
        forall|j: int| 0 <= j < s.len() ==> 0 <= #[trigger] s[j],
    ensures
        0 <= seq_sum(s.take(i)) <= seq_sum(s),
    decreases s.len(),
{
    if s.len() > 0 {
        if i == s.len() {
            assert(s.take(i) =~= s);
            lemma_prefix_sum(s.drop_last(), i - 1);
            assert(s.drop_last().take(i - 1) =~= s.drop_last());
        } else {
            lemma_prefix_sum(s.drop_last(), i);
            assert(s.drop_last().take(i) =~= s.take(i));
        }
    }
}

} // verus!
