//! What holds of every sequence of observations and of every merge.
use vstd::prelude::*;
use crate::bag::{Magnitude, ObservationBagSnapshot, UNIT};
use crate::render::{decimal, headline};
use crate::report::{agree, combine, merge_all};
use crate::tally::{add_seqs, bucket_of, first_fit_from, lemma_sum_placed, Tally};

verus! {

/// The tally after the observations `obs`, each a magnitude and a count,
/// folded in order into `start`.
pub open spec fn replay(start: Tally, bounds: Seq<Magnitude>, obs: Seq<(Magnitude, usize)>) -> Tally
    decreases obs.len(),
{
    if obs.len() == 0 {
        start
    } else {
        replay(start, bounds, obs.drop_last()).inserted(bounds, obs.last().0 as int, obs.last().1 as int)
    }
}

/// The sum of the counts of `obs`.
pub open spec fn total_count(obs: Seq<(Magnitude, usize)>) -> int
    decreases obs.len(),
{
    if obs.len() == 0 {
        0
    } else {
        total_count(obs.drop_last()) + obs.last().1
    }
}

/// The sum of magnitude times count over `obs`.
pub open spec fn total_weight(obs: Seq<(Magnitude, usize)>) -> int
    decreases obs.len(),
{
    if obs.len() == 0 {
        0
    } else {
        total_weight(obs.drop_last()) + obs.last().0 * obs.last().1
    }
}

/// The sum of the counts of those `obs` whose magnitude falls into bucket `i`.
pub open spec fn total_in_bucket(bounds: Seq<Magnitude>, obs: Seq<(Magnitude, usize)>, i: int) -> int
    decreases obs.len(),
{
    if obs.len() == 0 {
        0
    } else {
        total_in_bucket(bounds, obs.drop_last(), i) + if bucket_of(bounds, obs.last().0 as int) == i {
            obs.last().1 as int
        } else {
            0
        }
    }
}

/// After any sequence of insertions into an empty bag, the count is the sum
/// of the counts, the sum is the sum of magnitude times count, and each
/// bucket holds the counts of exactly the observations placed in it.
pub proof fn lemma_insert_totals(bounds: Seq<Magnitude>, obs: Seq<(Magnitude, usize)>)
    ensures
        replay(Tally::empty(bounds.len()), bounds, obs).count == total_count(obs),
        replay(Tally::empty(bounds.len()), bounds, obs).sum == total_weight(obs),
        replay(Tally::empty(bounds.len()), bounds, obs).buckets.len() == bounds.len(),
        forall|i: int| 0 <= i < bounds.len() ==> #[trigger] replay(Tally::empty(bounds.len()), bounds, obs).buckets[i]
            == total_in_bucket(bounds, obs, i),
    decreases obs.len(),
{
    if obs.len() > 0 {
        lemma_insert_totals(bounds, obs.drop_last());
    }
}

/// An observation of magnitude `m` goes to exactly one place: the first
/// bucket whose upper bound is at least `m`, or, when `m` exceeds every
/// bound, no finite bucket, and then it counts only towards the overflow.
pub proof fn lemma_placement(t: Tally, bounds: Seq<Magnitude>, m: int, c: int)
    requires
        t.buckets.len() == bounds.len(),
    ensures
        ({
            let k = bucket_of(bounds, m);
            let u = t.inserted(bounds, m, c);
            &&& 0 <= k <= bounds.len()
            &&& k < bounds.len() ==> m <= bounds[k] && forall|j: int| 0 <= j < k ==> bounds[j] < m
            &&& k == bounds.len() ==> forall|j: int| 0 <= j < bounds.len() ==> bounds[j] < m
            &&& u.buckets.len() == t.buckets.len()
            &&& forall|i: int| 0 <= i < bounds.len() ==> #[trigger] u.buckets[i] == t.buckets[i] + if i == k {
                c
            } else {
                0
            }
            &&& u.overflow() == t.overflow() + if k == bounds.len() { c } else { 0 }
        }),
{
    lemma_first_fit(bounds, m, 0);
    lemma_sum_placed(t.buckets, bucket_of(bounds, m), c);
}

proof fn lemma_first_fit(bounds: Seq<Magnitude>, m: int, i: int)
    requires
        0 <= i <= bounds.len(),
        forall|j: int| 0 <= j < i ==> bounds[j] < m,
    ensures
        ({
            let k = first_fit_from(bounds, m, i);
            &&& i <= k <= bounds.len()
            &&& k < bounds.len() ==> m <= bounds[k]
            &&& forall|j: int| 0 <= j < k ==> bounds[j] < m
        }),
    decreases bounds.len() - i,
{
    if i < bounds.len() && bounds[i] < m {
        lemma_first_fit(bounds, m, i + 1);
    }
}

/// Observations of one unit each, one at a time, leave a sum of exactly
/// one unit per observation; a snapshot of such a bag renders as a counter:
/// its count alone.
pub proof fn lemma_counter(bounds: Seq<Magnitude>, obs: Seq<(Magnitude, usize)>, s: ObservationBagSnapshot)
    requires
        forall|i: int| 0 <= i < obs.len() ==> #[trigger] obs[i] == (UNIT, 1usize),
        s@ == replay(Tally::empty(bounds.len()), bounds, obs),
    ensures
        replay(Tally::empty(bounds.len()), bounds, obs).sum == replay(Tally::empty(bounds.len()), bounds, obs).count
            * UNIT,
        headline(s) == decimal(s.count as nat) + " (counter)\n"@,
{
    lemma_unit_sum(bounds, obs);
}

proof fn lemma_unit_sum(bounds: Seq<Magnitude>, obs: Seq<(Magnitude, usize)>)
    requires
        forall|i: int| 0 <= i < obs.len() ==> #[trigger] obs[i] == (UNIT, 1usize),
    ensures
        replay(Tally::empty(bounds.len()), bounds, obs).sum == replay(Tally::empty(bounds.len()), bounds, obs).count
            * UNIT,
    decreases obs.len(),
{
    if obs.len() > 0 {
        assert forall|i: int| 0 <= i < obs.drop_last().len() implies #[trigger] obs.drop_last()[i] == (UNIT, 1usize) by {
            assert(obs.drop_last()[i] == obs[i]);
        }
        lemma_unit_sum(bounds, obs.drop_last());
        let r = replay(Tally::empty(bounds.len()), bounds, obs.drop_last());
        assert(obs.last() == obs[obs.len() - 1]);
        assert((r.count + 1) * UNIT == r.count * UNIT + UNIT) by (nonlinear_arith);
    }
}

/// Adding tallies with as many buckets is commutative.
pub proof fn lemma_add_commutative(a: Tally, b: Tally)
    requires
        a.buckets.len() == b.buckets.len(),
    ensures
        a.add(b) == b.add(a),
{
    assert(add_seqs(a.buckets, b.buckets) =~= add_seqs(b.buckets, a.buckets));
}

/// Adding tallies with as many buckets is associative.
pub proof fn lemma_add_associative(a: Tally, b: Tally, c: Tally)
    requires
        a.buckets.len() == b.buckets.len() == c.buckets.len(),
    ensures
        a.add(b).add(c) == a.add(b.add(c)),
{
    assert(add_seqs(add_seqs(a.buckets, b.buckets), c.buckets) =~= add_seqs(a.buckets, add_seqs(b.buckets, c.buckets)));
}

/// Merging is commutative where the two sides agree on the buckets of each
/// event they share.
pub proof fn lemma_combine_commutative(a: Map<Seq<char>, Tally>, b: Map<Seq<char>, Tally>)
    requires
        agree(a, b),
    ensures
        combine(a, b) == combine(b, a),
{
    assert forall|k: Seq<char>| #[trigger] combine(a, b).contains_key(k) implies combine(a, b)[k] == combine(b, a)[k] by {
        if a.contains_key(k) && b.contains_key(k) {
            lemma_add_commutative(a[k], b[k]);
        }
    }
    assert(combine(a, b) =~= combine(b, a));
}

/// Merging is associative where all sides agree on the buckets of each event.
pub proof fn lemma_combine_associative(a: Map<Seq<char>, Tally>, b: Map<Seq<char>, Tally>, c: Map<Seq<char>, Tally>)
    requires
        agree(a, b),
        agree(b, c),
        agree(a, c),
    ensures
        combine(combine(a, b), c) == combine(a, combine(b, c)),
{
    assert forall|k: Seq<char>| #[trigger] combine(combine(a, b), c).contains_key(k) implies combine(combine(a, b), c)[k]
        == combine(a, combine(b, c))[k] by {
        if a.contains_key(k) && b.contains_key(k) && c.contains_key(k) {
            lemma_add_associative(a[k], b[k], c[k]);
        }
    }
    assert(combine(combine(a, b), c) =~= combine(a, combine(b, c)));
}

/// A merge of pages that each agree with `m` agrees with `m`.
pub proof fn lemma_merge_agrees(pages: Seq<Map<Seq<char>, Tally>>, m: Map<Seq<char>, Tally>)
    requires
        forall|q: int| 0 <= q < pages.len() ==> agree(#[trigger] pages[q], m),
    ensures
        agree(merge_all(pages), m),
    decreases pages.len(),
{
    if pages.len() > 0 {
        let d = pages.drop_last();
        assert forall|q: int| 0 <= q < d.len() implies agree(#[trigger] d[q], m) by {
            assert(d[q] == pages[q]);
        }
        lemma_merge_agrees(d, m);
        assert(agree(pages[pages.len() - 1], m));
    }
}

/// The merge of all pages holds exactly the names that some page holds.
pub proof fn lemma_merge_keys(pages: Seq<Map<Seq<char>, Tally>>)
    ensures
        forall|k: Seq<char>| #[trigger] merge_all(pages).contains_key(k) <==> exists|q: int|
            0 <= q < pages.len() && (#[trigger] pages[q]).contains_key(k),
    decreases pages.len(),
{
    if pages.len() > 0 {
        let d = pages.drop_last();
        lemma_merge_keys(d);
        assert forall|k: Seq<char>| #[trigger] merge_all(pages).contains_key(k) <==> exists|q: int|
            0 <= q < pages.len() && (#[trigger] pages[q]).contains_key(k) by {
            if merge_all(d).contains_key(k) {
                let q = choose|q: int| 0 <= q < d.len() && (#[trigger] d[q]).contains_key(k);
                assert(pages[q] == d[q]);
            }
            if exists|q: int| 0 <= q < pages.len() && (#[trigger] pages[q]).contains_key(k) {
                let q = choose|q: int| 0 <= q < pages.len() && (#[trigger] pages[q]).contains_key(k);
                if q < d.len() {
                    assert(d[q] == pages[q]);
                }
            }
        }
    }
}

/// A report of one page holds exactly that page's entries, so a page of `n`
/// distinct names gives a report of `n` entries.
pub proof fn lemma_single_page(p: Map<Seq<char>, Tally>)
    ensures
        merge_all(seq![p]) == p,
{
    assert(seq![p].drop_last() =~= Seq::<Map<Seq<char>, Tally>>::empty());
    assert(combine(Map::empty(), p) =~= p);
    assert(merge_all(seq![p]) == combine(merge_all(Seq::<Map<Seq<char>, Tally>>::empty()), p));
}

/// Merging pages in either order gives the same report.
pub proof fn lemma_merge_order(a: Map<Seq<char>, Tally>, b: Map<Seq<char>, Tally>)
    requires
        agree(a, b),
    ensures
        merge_all(seq![a, b]) == merge_all(seq![b, a]),
{
    assert(seq![a, b].drop_last() =~= seq![a]);
    assert(seq![b, a].drop_last() =~= seq![b]);
    assert(seq![a].drop_last() =~= Seq::<Map<Seq<char>, Tally>>::empty());
    assert(seq![b].drop_last() =~= Seq::<Map<Seq<char>, Tally>>::empty());
    assert(combine(Map::empty(), a) =~= a);
    assert(combine(Map::empty(), b) =~= b);
    assert(merge_all(seq![a]) == combine(merge_all(Seq::<Map<Seq<char>, Tally>>::empty()), a));
    assert(merge_all(seq![b]) == combine(merge_all(Seq::<Map<Seq<char>, Tally>>::empty()), b));
    assert(merge_all(seq![a, b]) == combine(merge_all(seq![a]), b));
    assert(merge_all(seq![b, a]) == combine(merge_all(seq![b]), a));
    lemma_combine_commutative(a, b);
}

/// Merging two runs of pages separately and then merging the two results
/// gives the same report as merging all the pages in one run.
pub proof fn lemma_merge_split(xs: Seq<Map<Seq<char>, Tally>>, ys: Seq<Map<Seq<char>, Tally>>)
    requires
        forall|i: int, j: int| 0 <= i < (xs + ys).len() && 0 <= j < (xs + ys).len() ==> agree(
            #[trigger] (xs + ys)[i],
            #[trigger] (xs + ys)[j],
        ),
    ensures
        merge_all(xs + ys) == combine(merge_all(xs), merge_all(ys)),
    decreases ys.len(),
{
    let all = xs + ys;
    if ys.len() == 0 {
        assert(all =~= xs);
        assert(combine(merge_all(xs), Map::empty()) =~= merge_all(xs));
    } else {
        let d = ys.drop_last();
        let y = ys.last();
        assert(all.drop_last() =~= xs + d);
        assert(all.last() == y);
        assert forall|i: int, j: int| 0 <= i < (xs + d).len() && 0 <= j < (xs + d).len() implies agree(
            #[trigger] (xs + d)[i],
            #[trigger] (xs + d)[j],
        ) by {
            assert((xs + d)[i] == all[i] && (xs + d)[j] == all[j]);
        }
        lemma_merge_split(xs, d);
        let mx = merge_all(xs);
        let md = merge_all(d);
        assert(all[all.len() - 1] == y);
        assert forall|q: int| 0 <= q < xs.len() implies agree(#[trigger] xs[q], y) by {
            assert(all[q] == xs[q]);
        }
        lemma_merge_agrees(xs, y);
        assert forall|q: int| 0 <= q < d.len() implies agree(#[trigger] d[q], y) by {
            assert(all[xs.len() + q] == d[q]);
        }
        lemma_merge_agrees(d, y);
        assert forall|q: int| 0 <= q < d.len() implies agree(#[trigger] d[q], mx) by {
            assert forall|p: int| 0 <= p < xs.len() implies agree(#[trigger] xs[p], d[q]) by {
                assert(all[p] == xs[p]);
                assert(all[xs.len() + q] == d[q]);
            }
            lemma_merge_agrees(xs, d[q]);
        }
        lemma_merge_agrees(d, mx);
        lemma_combine_associative(mx, md, y);
    }
}

} // verus!
