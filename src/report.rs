//! Pages captured from threads, and their merge into a report.
use vstd::prelude::*;
use crate::bag::ObservationBagSnapshot;
use crate::keyed::{
    all_wf, distinct, find_name, lemma_map_len, lemma_to_map, lemma_to_map_update, name_views,
    snapshot_views, to_map,
};
use crate::render::{in_name_order, name_le, report_lines, sort_names};
use crate::tally::Tally;

verus! {

/// `page` folded into the merged mapping `acc`: counts, sums and bucket
/// counts add up under each name that both hold.
pub open spec fn combine(acc: Map<Seq<char>, Tally>, page: Map<Seq<char>, Tally>) -> Map<Seq<char>, Tally> {
    Map::new(
        |k: Seq<char>| acc.contains_key(k) || page.contains_key(k),
        |k: Seq<char>|
            if acc.contains_key(k) && page.contains_key(k) {
                acc[k].add(page[k])
            } else if acc.contains_key(k) {
                acc[k]
            } else {
                page[k]
            },
    )
}

/// The pages folded together in order, from an empty mapping.
pub open spec fn merge_all(pages: Seq<Map<Seq<char>, Tally>>) -> Map<Seq<char>, Tally>
    decreases pages.len(),
{
    if pages.len() == 0 {
        Map::empty()
    } else {
        combine(merge_all(pages.drop_last()), pages.last())
    }
}

/// Two mappings agree on the number of buckets under each name they share.
pub open spec fn agree(a: Map<Seq<char>, Tally>, b: Map<Seq<char>, Tally>) -> bool {
    forall|k: Seq<char>| a.contains_key(k) && b.contains_key(k) ==> #[trigger] a[k].buckets.len() == #[trigger] b[k].buckets.len()
}

/// One thread's contribution to a report: a snapshot of each of its bags.
pub struct ReportPage {
    names: Vec<String>,
    snapshots: Vec<ObservationBagSnapshot>,
}

impl View for ReportPage {
    type V = Map<Seq<char>, Tally>;

    open spec fn view(&self) -> Map<Seq<char>, Tally> {
        to_map(self.names(), self.tallies())
    }
}

impl ReportPage {
    pub closed spec fn names(&self) -> Seq<Seq<char>> {
        name_views(self.names@)
    }

    pub closed spec fn entries(&self) -> Seq<ObservationBagSnapshot> {
        self.snapshots@
    }

    pub open spec fn tallies(&self) -> Seq<Tally> {
        snapshot_views(self.entries())
    }

    pub open spec fn wf(&self) -> bool {
        &&& self.names().len() == self.entries().len()
        &&& distinct(self.names())
        &&& all_wf(self.entries())
    }

    #[verifier::type_invariant]
    spec fn inv(&self) -> bool {
        self.wf()
    }

    pub(crate) fn from_parts(names: Vec<String>, snapshots: Vec<ObservationBagSnapshot>) -> (r: ReportPage)
        requires
            names@.len() == snapshots@.len(),
            distinct(name_views(names@)),
            all_wf(snapshots@),
        ensures
            r.wf(),
            r.names() == name_views(names@),
            r.entries() == snapshots@,
    {
        ReportPage { names, snapshots }
    }

    /// The number of events on the page.
    pub fn len(&self) -> (r: usize)
        ensures
            r == self.names().len(),
            r == self@.dom().len(),
    {
        proof {
            use_type_invariant(self);
            lemma_map_len(self.names(), self.tallies());
        }
        self.names.len()
    }

    /// The snapshot taken of the named event.
    pub fn get(&self, name: &str) -> (r: Option<&ObservationBagSnapshot>)
        ensures
            match r {
                Some(s) => self@.contains_key(name@) && s@ == self@[name@] && s.wf(),
                None => !self@.contains_key(name@),
            },
    {
        proof {
            use_type_invariant(self);
            lemma_to_map(self.names(), self.tallies());
        }
        match find_name(&self.names, &String::from_str(name)) {
            Some(i) => {
                assert(self.names()[i as int] == name@);
                Some(&self.snapshots[i])
            },
            None => None,
        }
    }
}

/// Collects the pages of any number of threads, merging each into the
/// aggregate as it arrives.
pub struct ReportBuilder {
    names: Vec<String>,
    snapshots: Vec<ObservationBagSnapshot>,
    pages: Ghost<Seq<Map<Seq<char>, Tally>>>,
}

impl ReportBuilder {
    /// The pages added so far, in order.
    pub closed spec fn page_views(&self) -> Seq<Map<Seq<char>, Tally>> {
        self.pages@
    }

    /// The aggregate of the pages added so far.
    pub closed spec fn merged(&self) -> Map<Seq<char>, Tally> {
        to_map(name_views(self.names@), snapshot_views(self.snapshots@))
    }

    /// The aggregate is held as distinct names beside well-formed snapshots.
    pub closed spec fn entries_wf(&self) -> bool {
        &&& self.names@.len() == self.snapshots@.len()
        &&& distinct(name_views(self.names@))
        &&& all_wf(self.snapshots@)
    }

    pub open spec fn wf(&self) -> bool {
        &&& self.entries_wf()
        &&& self.merged() == merge_all(self.page_views())
    }

    /// `page` can be merged in: under each name that both hold, it has as
    /// many buckets as the aggregate, and the two counts together fit.
    pub open spec fn accepts(&self, page: &ReportPage) -> bool {
        &&& agree(self.merged(), page@)
        &&& forall|k: Seq<char>|
            #![trigger self.merged()[k], page@[k]]
            self.merged().contains_key(k) && page@.contains_key(k) ==> self.merged()[k].count + page@[k].count
                <= usize::MAX
    }

    /// A builder with no pages.
    pub fn new() -> (r: ReportBuilder)
        ensures
            r.wf(),
            r.page_views() == Seq::<Map<Seq<char>, Tally>>::empty(),
    {
        let r = ReportBuilder { names: Vec::new(), snapshots: Vec::new(), pages: Ghost(Seq::empty()) };
        assert(r.merged() =~= Map::<Seq<char>, Tally>::empty());
        r
    }

    /// Whether `page` can be merged into what was added so far.
    pub fn can_add(&self, page: &ReportPage) -> (r: bool)
        requires
            self.wf(),
        ensures
            r == self.accepts(page),
    {
        proof {
            use_type_invariant(page);
            lemma_to_map(page.names(), page.tallies());
            lemma_to_map(name_views(self.names@), snapshot_views(self.snapshots@));
        }
        let ghost m = self.merged();
        let mut j: usize = 0;
        while j < page.names.len()
            invariant
                self.wf(),
                page.wf(),
                m == self.merged(),
                j <= page.names().len(),
                forall|k: Seq<char>| #[trigger] page@.contains_key(k) <==> page.names().contains(k),
                forall|i: int| 0 <= i < page.names().len() ==> #[trigger] page@[page.names()[i]] == page.tallies()[i],
                forall|k: Seq<char>| #[trigger] m.contains_key(k) <==> name_views(self.names@).contains(k),
                forall|i: int| 0 <= i < self.names@.len() ==> #[trigger] m[name_views(self.names@)[i]] == snapshot_views(self.snapshots@)[i],
                forall|x: int| 0 <= x < j && #[trigger] m.contains_key(page.names()[x]) ==> {
                    &&& m[page.names()[x]].buckets.len() == page.tallies()[x].buckets.len()
                    &&& m[page.names()[x]].count + page.tallies()[x].count <= usize::MAX
                },
            decreases page.names().len() - j,
        {
            let ghost k = page.names()[j as int];
            match find_name(&self.names, &page.names[j]) {
                Some(i) => {
                    let a = &self.snapshots[i];
                    let b = &page.snapshots[j];
                    proof {
                        assert(name_views(self.names@)[i as int] == k);
                        assert(m[k] == a@);
                        assert(page@[k] == b@);
                        assert(page.entries()[j as int].wf());
                        assert(self.snapshots@[i as int].wf());
                    }
                    if a.bucket_counts.len() != b.bucket_counts.len() || a.count > usize::MAX - b.count {
                        proof {
                            assert(m.contains_key(k) && page@.contains_key(k));
                            assert(!(m[k].buckets.len() == page@[k].buckets.len() && m[k].count + page@[k].count
                                <= usize::MAX));
                        }
                        return false;
                    }
                },
                None => {},
            }
            j = j + 1;
        }
        proof {
            assert forall|k: Seq<char>| #![trigger m[k], page@[k]] m.contains_key(k) && page@.contains_key(k) implies
                m[k].buckets.len() == page@[k].buckets.len() && m[k].count + page@[k].count <= usize::MAX by {
                let x = choose|x: int| 0 <= x < page.names().len() && page.names()[x] == k;
                assert(page@[page.names()[x]] == page.tallies()[x]);
            }
        }
        true
    }

    /// Merges `page` into the aggregate.
    pub fn add_page(&mut self, page: ReportPage)
        requires
            old(self).wf(),
            old(self).accepts(&page),
        ensures
            final(self).wf(),
            final(self).page_views() == old(self).page_views().push(page@),
    {
        proof {
            use_type_invariant(&page);
            lemma_to_map(page.names(), page.tallies());
        }
        let ghost acc = self.merged();
        let mut j: usize = 0;
        proof {
            assert(to_map(page.names().take(0), page.tallies().take(0)) == Map::<Seq<char>, Tally>::empty());
            assert(combine(acc, Map::empty()) =~= acc);
        }
        while j < page.names.len()
            invariant
                page.wf(),
                acc == merge_all(old(self).pages@),
                self.pages == old(self).pages,
                agree(acc, page@),
                forall|k: Seq<char>|
                    #![trigger acc[k], page@[k]]
                    acc.contains_key(k) && page@.contains_key(k) ==> acc[k].count + page@[k].count <= usize::MAX,
                forall|k: Seq<char>| #[trigger] page@.contains_key(k) <==> page.names().contains(k),
                forall|i: int| 0 <= i < page.names().len() ==> #[trigger] page@[page.names()[i]] == page.tallies()[i],
                j <= page.names().len(),
                self.names@.len() == self.snapshots@.len(),
                distinct(name_views(self.names@)),
                all_wf(self.snapshots@),
                self.merged() == combine(acc, to_map(page.names().take(j as int), page.tallies().take(j as int))),
            decreases page.names().len() - j,
        {
            let ghost cur = self.merged();
            let ghost part = to_map(page.names().take(j as int), page.tallies().take(j as int));
            let ghost k = page.names()[j as int];
            let ghost t = page.tallies()[j as int];
            proof {
                assert(page.entries()[j as int].wf());
                lemma_to_map(name_views(self.names@), snapshot_views(self.snapshots@));
                lemma_to_map(page.names().take(j as int), page.tallies().take(j as int));
                assert(!page.names().take(j as int).contains(k)) by {
                    if page.names().take(j as int).contains(k) {
                        let i = choose|i: int| 0 <= i < j && page.names().take(j as int)[i] == k;
                        assert(page.names()[i] == k);
                    }
                }
                assert(page.names().take(j as int + 1).drop_last() =~= page.names().take(j as int));
                assert(page.tallies().take(j as int + 1).drop_last() =~= page.tallies().take(j as int));
                lemma_combine_insert(acc, part, k, t);
                assert(page@.contains_key(k));
                assert(page@[k] == t);
            }
            let pname = &page.names[j];
            let psnap = &page.snapshots[j];
            match find_name(&self.names, pname) {
                Some(i) => {
                    let ghost before = snapshot_views(self.snapshots@);
                    proof {
                        assert(name_views(self.names@)[i as int] == k);
                        assert(cur[k] == before[i as int]);
                        assert(!part.contains_key(k));
                        assert(acc.contains_key(k));
                        assert(cur[k] == acc[k]);
                        assert(t == psnap@);
                        assert(cur[k].buckets.len() == t.buckets.len());
                        assert(self.snapshots@[i as int].wf());
                    }
                    self.snapshots[i].merge(psnap);
                    proof {
                        assert(snapshot_views(self.snapshots@) =~= before.update(i as int, cur[k].add(t)));
                        lemma_to_map_update(name_views(self.names@), before, i as int, cur[k].add(t));
                    }
                },
                None => {
                    let mut fresh = ObservationBagSnapshot::empty_like(psnap);
                    fresh.merge(psnap);
                    let ghost nv = name_views(self.names@);
                    let ghost sv = snapshot_views(self.snapshots@);
                    let ghost old_snaps = self.snapshots@;
                    proof {
                        assert(fresh@.buckets =~= t.buckets);
                        assert(fresh@ == t);
                        assert(!cur.contains_key(k));
                        assert(!acc.contains_key(k));
                    }
                    self.names.push(pname.clone());
                    self.snapshots.push(fresh);
                    proof {
                        assert(name_views(self.names@) =~= nv.push(k));
                        assert(snapshot_views(self.snapshots@) =~= sv.push(t));
                        assert(nv.push(k).drop_last() =~= nv);
                        assert(sv.push(t).drop_last() =~= sv);
                        assert(to_map(nv.push(k), sv.push(t)) == cur.insert(k, t));
                        assert(all_wf(self.snapshots@)) by {
                            assert forall|x: int| 0 <= x < self.snapshots@.len() implies (#[trigger] self.snapshots@[x]).wf() by {
                                if x < self.snapshots@.len() - 1 {
                                    assert(self.snapshots@[x] == old_snaps[x]);
                                }
                            }
                        }
                    }
                },
            }
            proof {
                let n1 = page.names().take(j as int + 1);
                let t1 = page.tallies().take(j as int + 1);
                assert(to_map(n1, t1) == to_map(n1.drop_last(), t1.drop_last()).insert(n1.last(), t1.last()));
                assert(to_map(n1, t1) == part.insert(k, t));
            }
            j = j + 1;
        }
        proof {
            assert(page.names().take(page.names().len() as int) =~= page.names());
            assert(page.tallies().take(page.names().len() as int) =~= page.tallies());
            let pages = old(self).pages@.push(page@);
            assert(pages.drop_last() =~= old(self).pages@);
        }
        self.pages = Ghost(self.pages@.push(page@));
    }

    /// The report of every page added.
    pub fn build(self) -> (r: Report)
        requires
            self.wf(),
        ensures
            r.wf(),
            r@ == merge_all(self.page_views()),
    {
        Report { names: self.names, snapshots: self.snapshots }
    }
}

/// A report: the pages of every thread merged, one aggregate per event name.
pub struct Report {
    names: Vec<String>,
    snapshots: Vec<ObservationBagSnapshot>,
}

impl View for Report {
    type V = Map<Seq<char>, Tally>;

    open spec fn view(&self) -> Map<Seq<char>, Tally> {
        to_map(self.names(), self.tallies())
    }
}

impl Report {
    pub closed spec fn names(&self) -> Seq<Seq<char>> {
        name_views(self.names@)
    }

    pub closed spec fn entries(&self) -> Seq<ObservationBagSnapshot> {
        self.snapshots@
    }

    pub open spec fn tallies(&self) -> Seq<Tally> {
        snapshot_views(self.entries())
    }

    pub open spec fn wf(&self) -> bool {
        &&& self.names().len() == self.entries().len()
        &&& distinct(self.names())
        &&& all_wf(self.entries())
    }

    /// The number of events in the report.
    pub fn len(&self) -> (r: usize)
        requires
            self.wf(),
        ensures
            r == self@.dom().len(),
    {
        proof {
            lemma_map_len(self.names(), self.tallies());
        }
        self.names.len()
    }

    /// The report as text: one entry per event, by increasing name.
    pub fn render(&self) -> (r: String)
        requires
            self.wf(),
        ensures
            exists|order: Seq<int>| in_name_order(order, self.names()) && r@ == report_lines(order, self.names(), self.entries()),
    {
        let n = self.names.len();
        let ghost nm = self.names@;
        let mut sorted: Vec<String> = Vec::new();
        let mut i: usize = 0;
        while i < n
            invariant
                n == nm.len(),
                nm == self.names@,
                i <= n,
                sorted@ == nm.take(i as int),
            decreases n - i,
        {
            sorted.push(self.names[i].clone());
            i = i + 1;
            assert(sorted@ =~= nm.take(i as int));
        }
        assert(nm.take(n as int) =~= nm);
        sort_names(&mut sorted);
        proof {
            assert(nm.no_duplicates()) by {
                assert forall|x: int, y: int| 0 <= x < nm.len() && 0 <= y < nm.len() && x != y implies nm[x] != nm[y] by {
                    assert(self.names()[x] != self.names()[y]);
                }
            }
            nm.lemma_multiset_has_no_duplicates();
            sorted@.lemma_multiset_has_no_duplicates_conv();
            vstd::seq_lib::to_multiset_len(nm);
            vstd::seq_lib::to_multiset_len(sorted@);
            lemma_to_map(self.names(), self.tallies());
        }
        let ghost sv = sorted@;
        let ghost mut order: Seq<int> = Seq::empty();
        let mut out = String::new();
        let mut i: usize = 0;
        while i < n
            invariant
                self.wf(),
                n == nm.len() == sv.len(),
                nm == self.names@,
                sv == sorted@,
                sv.no_duplicates(),
                sv.to_multiset() == nm.to_multiset(),
                i <= n,
                order.len() == i,
                forall|a: int| 0 <= a < i ==> 0 <= #[trigger] order[a] < n && self.names()[order[a]] == sv[a]@,
                out@ == report_lines(order, self.names(), self.entries()),
            decreases n - i,
        {
            proof {
                vstd::seq_lib::to_multiset_contains(sv, sv[i as int]);
                vstd::seq_lib::to_multiset_contains(nm, sv[i as int]);
                let x = choose|x: int| 0 <= x < nm.len() && nm[x] == sv[i as int];
                assert(self.names()[x] == sv[i as int]@);
                assert(name_views(nm).contains(sv[i as int]@));
            }
            match find_name(&self.names, &sorted[i]) {
                Some(idx) => {
                    let ghost old_order = order;
                    proof {
                        order = order.push(idx as int);
                        assert(order.drop_last() =~= old_order);
                        assert(self.entries()[idx as int].wf());
                    }
                    out.append(sorted[i].as_str());
                    out.append(": ");
                    out.append(self.snapshots[idx].render().as_str());
                    out.append("\n");
                },
                None => {
                    // every sorted name is one of the report's names
                    proof {
                        assert(false);
                    }
                },
            }
            i = i + 1;
        }
        proof {
            assert forall|a: int, b: int| 0 <= a < b < order.len() implies self.names()[#[trigger] order[a]]
                != self.names()[#[trigger] order[b]] && name_le(self.names()[order[a]], self.names()[order[b]]) by {
                if sv[a]@ == sv[b]@ {
                    vstd::seq_lib::to_multiset_contains(sv, sv[a]);
                    vstd::seq_lib::to_multiset_contains(nm, sv[a]);
                    vstd::seq_lib::to_multiset_contains(sv, sv[b]);
                    vstd::seq_lib::to_multiset_contains(nm, sv[b]);
                    let x = choose|x: int| 0 <= x < nm.len() && nm[x] == sv[a];
                    let y = choose|y: int| 0 <= y < nm.len() && nm[y] == sv[b];
                    assert(self.names()[x] == self.names()[y]);
                }
            }
            assert(in_name_order(order, self.names()));
        }
        out
    }

    /// The merged aggregate of the named event.
    pub fn get(&self, name: &str) -> (r: Option<&ObservationBagSnapshot>)
        requires
            self.wf(),
        ensures
            match r {
                Some(s) => self@.contains_key(name@) && s@ == self@[name@] && s.wf(),
                None => !self@.contains_key(name@),
            },
    {
        proof {
            lemma_to_map(self.names(), self.tallies());
        }
        match find_name(&self.names, &String::from_str(name)) {
            Some(i) => {
                assert(self.names()[i as int] == name@);
                Some(&self.snapshots[i])
            },
            None => None,
        }
    }
}

/// Folding in a page that gains one more name changes the merged mapping
/// under that name alone.
pub proof fn lemma_combine_insert(acc: Map<Seq<char>, Tally>, part: Map<Seq<char>, Tally>, k: Seq<char>, t: Tally)
    requires
        !part.contains_key(k),
    ensures
        combine(acc, part.insert(k, t)) == combine(acc, part).insert(
            k,
            if acc.contains_key(k) { acc[k].add(t) } else { t },
        ),
{
    assert(combine(acc, part.insert(k, t)) =~= combine(acc, part).insert(
        k,
        if acc.contains_key(k) { acc[k].add(t) } else { t },
    ));
}

} // verus!
