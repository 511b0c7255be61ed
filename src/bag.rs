//! The per-event accumulator and its frozen copy.
use vstd::prelude::*;
use crate::tally::{
    add_seqs, bucket_of, first_fit_from, lemma_prefix_sum, lemma_sum_add, lemma_sum_placed,
    lemma_sum_zeros, magnitude_bound, placed, Tally,
};

verus! {

/// A magnitude, in millionths of the unit of measure (a duration in
/// microseconds where the unit is the second).
pub type Magnitude = i64;

/// The magnitude 1: one whole unit.
pub const UNIT: Magnitude = 1_000_000;

/// The bucket that takes `magnitude`: the index of the first bound that is at
/// least `magnitude`, or `bounds.len()` where there is none.
pub fn bucket_index(bounds: &Vec<Magnitude>, magnitude: Magnitude) -> (k: usize)
    ensures
        k as int == bucket_of(bounds@, magnitude as int),
{
    let n = bounds.len();
    let mut i: usize = 0;
    while i < n && bounds[i] < magnitude
        invariant
            i <= n == bounds@.len(),
            first_fit_from(bounds@, magnitude as int, i as int) == bucket_of(bounds@, magnitude as int),
        decreases n - i,
    {
        i = i + 1;
    }
    i
}

/// The view of a vector of counts as integers.
pub open spec fn counts_view(v: Seq<usize>) -> Seq<int> {
    v.map_values(|x: usize| x as int)
}

/// Collects the observations made of one event on one thread.
pub struct ObservationBag {
    count: usize,
    sum: i128,
    bucket_counts: Vec<usize>,
    bucket_magnitudes: Vec<Magnitude>,
}

impl View for ObservationBag {
    type V = Tally;

    closed spec fn view(&self) -> Tally {
        Tally { count: self.count as int, sum: self.sum as int, buckets: counts_view(self.bucket_counts@) }
    }
}

impl ObservationBag {
    /// Upper bounds of the histogram buckets, ascending, fixed at creation.
    pub closed spec fn bounds(&self) -> Seq<Magnitude> {
        self.bucket_magnitudes@
    }

    pub open spec fn wf(&self) -> bool {
        self@.fits(self.bounds().len())
    }

    /// An empty bag with the given bucket upper bounds.
    pub fn new(buckets: &Vec<Magnitude>) -> (r: ObservationBag)
        ensures
            r.wf(),
            r.bounds() == buckets@,
            r@ == Tally::empty(buckets@.len()),
    {
        let n = buckets.len();
        let bucket_counts: Vec<usize> = vec![0; n];
        let r = ObservationBag { count: 0, sum: 0, bucket_counts, bucket_magnitudes: buckets.clone() };
        proof {
            assert(counts_view(r.bucket_counts@) =~= Seq::new(n as nat, |i: int| 0int));
            lemma_sum_zeros(n as nat);
        }
        r
    }

    /// Folds in `count` observations of `magnitude`.
    pub fn insert(&mut self, magnitude: Magnitude, count: usize)
        requires
            old(self).wf(),
            old(self)@.count + count <= usize::MAX,
        ensures
            final(self).wf(),
            final(self).bounds() == old(self).bounds(),
            final(self)@ == old(self)@.inserted(old(self).bounds(), magnitude as int, count as int),
    {
        let ghost before = self@;
        let ghost k = bucket_of(self.bounds(), magnitude as int);
        proof {
            let (m, c, b) = (magnitude as int, count as int, magnitude_bound());
            assert(-c * b <= m * c <= c * b) by (nonlinear_arith)
                requires
                    -b <= m < b,
                    0 <= c,
            ;
            assert(self.count as int * b + c * b == (self.count + c) * b) by (nonlinear_arith);
            assert((self.count + c) * b <= usize::MAX * b) by (nonlinear_arith)
                requires
                    self.count + c <= usize::MAX,
                    b > 0,
            ;
            lemma_sum_placed(before.buckets, k, c);
        }
        self.count = self.count + count;
        self.sum = self.sum + (magnitude as i128) * (count as i128);
        let i = bucket_index(&self.bucket_magnitudes, magnitude);
        if i < self.bucket_counts.len() {
            proof {
                lemma_prefix_sum(before.buckets, i as int + 1);
                lemma_prefix_sum(before.buckets.take(i as int + 1), i as int);
                assert(before.buckets.take(i as int + 1).drop_last() =~= before.buckets.take(i as int));
            }
            self.bucket_counts[i] = self.bucket_counts[i] + count;
        }
        proof {
            assert(self@.buckets =~= placed(before.buckets, k, count as int));
        }
    }

    /// How many observations the bag holds.
    pub fn count(&self) -> (r: usize)
        ensures
            r == self@.count,
    {
        self.count
    }

    /// A frozen copy of the bag's current state.
    pub fn snapshot(&self) -> (r: ObservationBagSnapshot)
        requires
            self.wf(),
        ensures
            r.wf(),
            r@ == self@,
            r.bucket_magnitudes@ == self.bounds(),
    {
        ObservationBagSnapshot {
            count: self.count,
            sum: self.sum,
            bucket_counts: self.bucket_counts.clone(),
            bucket_magnitudes: self.bucket_magnitudes.clone(),
        }
    }
}

/// The state of one bag at one moment, free to move between threads.
pub struct ObservationBagSnapshot {
    pub count: usize,
    /// Sum of all magnitudes observed, in millionths of the unit.
    pub sum: i128,
    pub bucket_counts: Vec<usize>,
    pub bucket_magnitudes: Vec<Magnitude>,
}

impl View for ObservationBagSnapshot {
    type V = Tally;

    open spec fn view(&self) -> Tally {
        Tally { count: self.count as int, sum: self.sum as int, buckets: counts_view(self.bucket_counts@) }
    }
}

impl ObservationBagSnapshot {
    pub open spec fn wf(&self) -> bool {
        &&& self@.fits(self.bucket_magnitudes@.len())
    }

    /// An empty snapshot with the same buckets as `like`.
    pub fn empty_like(like: &ObservationBagSnapshot) -> (r: ObservationBagSnapshot)
        requires
            like.wf(),
        ensures
            r.wf(),
            r@ == Tally::empty(like.bucket_counts@.len()),
            r.bucket_magnitudes@ == like.bucket_magnitudes@,
    {
        let n = like.bucket_counts.len();
        let r = ObservationBagSnapshot {
            count: 0,
            sum: 0,
            bucket_counts: vec![0; n],
            bucket_magnitudes: like.bucket_magnitudes.clone(),
        };
        proof {
            assert(counts_view(r.bucket_counts@) =~= Seq::new(n as nat, |i: int| 0int));
            lemma_sum_zeros(n as nat);
        }
        r
    }

    /// Adds the observations of `other` to this snapshot.
    pub fn merge(&mut self, other: &ObservationBagSnapshot)
        requires
            old(self).wf(),
            other.wf(),
            old(self).bucket_counts@.len() == other.bucket_counts@.len(),
            old(self)@.count + other@.count <= usize::MAX,
        ensures
            final(self).wf(),
            final(self).bucket_magnitudes == old(self).bucket_magnitudes,
            final(self)@ == old(self)@.add(other@),
    {
        let ghost before = self@;
        proof {
            let b = magnitude_bound();
            assert(self.count as int * b + other.count as int * b == (self.count + other.count) * b)
                by (nonlinear_arith);
            assert((self.count + other.count) * b <= usize::MAX * b) by (nonlinear_arith)
                requires
                    self.count + other.count <= usize::MAX,
                    b > 0,
            ;
            lemma_sum_add(before.buckets, other@.buckets);
        }
        self.count = self.count + other.count;
        self.sum = self.sum + other.sum;
        let n = other.bucket_counts.len();
        let mut i: usize = 0;
        while i < n
            invariant
                n == other.bucket_counts@.len() == self.bucket_counts@.len(),
                i <= n,
                before.buckets == counts_view(old(self).bucket_counts@),
                self.bucket_magnitudes == old(self).bucket_magnitudes,
                self.count as int == before.count + other@.count,
                self.sum as int == before.sum + other@.sum,
                before.fits(n as nat),
                other@.fits(n as nat),
                before.count + other@.count <= usize::MAX,
                forall|j: int| 0 <= j < i ==> #[trigger] self.bucket_counts@[j] == before.buckets[j] + other@.buckets[j],
                forall|j: int| i <= j < n ==> #[trigger] self.bucket_counts@[j] == before.buckets[j],
            decreases n - i,
        {
            proof {
                lemma_prefix_sum(before.buckets, i as int + 1);
                lemma_prefix_sum(before.buckets.take(i as int + 1), i as int);
                assert(before.buckets.take(i as int + 1).drop_last() =~= before.buckets.take(i as int));
                lemma_prefix_sum(other@.buckets, i as int + 1);
                lemma_prefix_sum(other@.buckets.take(i as int + 1), i as int);
                assert(other@.buckets.take(i as int + 1).drop_last() =~= other@.buckets.take(i as int));
            }
            self.bucket_counts[i] = self.bucket_counts[i] + other.bucket_counts[i];
            i = i + 1;
        }
        proof {
            assert(self@.buckets =~= add_seqs(before.buckets, other@.buckets));
        }
    }
}

} // verus!
