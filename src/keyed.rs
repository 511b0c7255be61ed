//! Named collections of tallies: the model shared by registries, pages and
//! reports, and the search by name.
use vstd::prelude::*;
use crate::bag::ObservationBagSnapshot;
use crate::tally::Tally;

verus! {

/// The views of a sequence of names.
pub open spec fn name_views(names: Seq<String>) -> Seq<Seq<char>> {
    names.map_values(|s: String| s@)
}

/// The views of a sequence of snapshots.
pub open spec fn snapshot_views(snaps: Seq<ObservationBagSnapshot>) -> Seq<Tally> {
    snaps.map_values(|s: ObservationBagSnapshot| s@)
}

/// No name occurs twice.
pub open spec fn distinct(names: Seq<Seq<char>>) -> bool {
    forall|i: int, j: int| 0 <= i < names.len() && 0 <= j < names.len() && i != j ==> names[i] != names[j]
}

/// Each snapshot is well formed.
pub open spec fn all_wf(snaps: Seq<ObservationBagSnapshot>) -> bool {
    forall|i: int| 0 <= i < snaps.len() ==> (#[trigger] snaps[i]).wf()
}

/// The mapping from each name to the tally beside it.
pub open spec fn to_map(names: Seq<Seq<char>>, tallies: Seq<Tally>) -> Map<Seq<char>, Tally>
    decreases names.len(),
{
    if names.len() == 0 || tallies.len() == 0 {
        Map::empty()
    } else {
        to_map(names.drop_last(), tallies.drop_last()).insert(names.last(), tallies.last())
    }
}

/// Over distinct names, the mapping holds exactly the names, each with its own tally.
pub proof fn lemma_to_map(names: Seq<Seq<char>>, tallies: Seq<Tally>)
    requires
        names.len() == tallies.len(),
        distinct(names),
    ensures
        forall|k: Seq<char>| #[trigger] to_map(names, tallies).contains_key(k) <==> names.contains(k),
        forall|i: int| 0 <= i < names.len() ==> #[trigger] to_map(names, tallies)[names[i]] == tallies[i],
    decreases names.len(),
{
    if names.len() > 0 {
        let (n0, t0) = (names.drop_last(), tallies.drop_last());
        lemma_to_map(n0, t0);
        assert(to_map(names, tallies) == to_map(n0, t0).insert(names.last(), tallies.last()));
        assert forall|k: Seq<char>| #[trigger] to_map(names, tallies).contains_key(k) <==> names.contains(k) by {
            if names.contains(k) && k != names.last() {
                let i = choose|i: int| 0 <= i < names.len() && names[i] == k;
                assert(n0[i] == k);
            }
            if n0.contains(k) {
                let i = choose|i: int| 0 <= i < n0.len() && n0[i] == k;
                assert(names[i] == k);
            }
        }
        assert forall|i: int| 0 <= i < names.len() implies #[trigger] to_map(names, tallies)[names[i]] == tallies[i] by {
            if i < names.len() - 1 {
                assert(n0[i] == names[i]);
                assert(names[i] != names[names.len() - 1]);
            }
        }
    }
}

/// Replacing the tally at a position replaces what the mapping holds for its name.
pub proof fn lemma_to_map_update(names: Seq<Seq<char>>, tallies: Seq<Tally>, i: int, t: Tally)
    requires
        names.len() == tallies.len(),
        distinct(names),
        0 <= i < names.len(),
    ensures
        to_map(names, tallies.update(i, t)) == to_map(names, tallies).insert(names[i], t),
{
    let u = tallies.update(i, t);
    lemma_to_map(names, tallies);
    lemma_to_map(names, u);
    assert forall|k: Seq<char>| #[trigger] to_map(names, u).contains_key(k) implies to_map(names, u)[k]
        == to_map(names, tallies).insert(names[i], t)[k] by {
        let j = choose|j: int| 0 <= j < names.len() && names[j] == k;
        assert(to_map(names, u)[names[j]] == u[j]);
    }
    assert(to_map(names, u) =~= to_map(names, tallies).insert(names[i], t));
}

/// Over distinct names, the mapping has one entry per name.
pub proof fn lemma_map_len(names: Seq<Seq<char>>, tallies: Seq<Tally>)
    requires
        names.len() == tallies.len(),
        distinct(names),
    ensures
        to_map(names, tallies).dom().finite(),
        to_map(names, tallies).dom().len() == names.len(),
    decreases names.len(),
{
    if names.len() > 0 {
        let (n0, t0) = (names.drop_last(), tallies.drop_last());
        lemma_map_len(n0, t0);
        lemma_to_map(n0, t0);
        assert(!n0.contains(names.last())) by {
            if n0.contains(names.last()) {
                let i = choose|i: int| 0 <= i < n0.len() && n0[i] == names.last();
                assert(names[i] == names[names.len() - 1]);
            }
        }
        assert(to_map(names, tallies) == to_map(n0, t0).insert(names.last(), tallies.last()));
    }
}

/// The position of `name` among `names`, if it is there.
pub fn find_name(names: &Vec<String>, name: &String) -> (r: Option<usize>)
    ensures
        match r {
            Some(i) => i < names@.len() && names@[i as int]@ == name@,
            None => !name_views(names@).contains(name@),
        },
{
    let mut i: usize = 0;
    while i < names.len()
        invariant
            i <= names@.len(),
            forall|j: int| 0 <= j < i ==> names@[j]@ != name@,
        decreases names@.len() - i,
    {
        if names[i] == *name {
            return Some(i);
        }
        i = i + 1;
    }
    proof {
        if name_views(names@).contains(name@) {
            let j = choose|j: int| 0 <= j < names@.len() && name_views(names@)[j] == name@;
            assert(names@[j]@ == name@);
        }
    }
    None
}

} // verus!
