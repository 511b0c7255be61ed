//! The bags of one thread, keyed by event name, and the handles that feed them.
use vstd::prelude::*;
use crate::bag::{Magnitude, ObservationBag, ObservationBagSnapshot, UNIT};
use crate::keyed::{distinct, find_name, name_views, snapshot_views, to_map};
use crate::report::ReportPage;
use crate::tally::Tally;

verus! {

/// The bags of one thread, one per event name, in order of registration.
pub struct Registry {
    names: Vec<String>,
    bags: Vec<ObservationBag>,
}

/// A handle through which observations of one event reach its bag.
pub struct Event {
    slot: usize,
    name: String,
}

/// Why an event could not be built.
#[derive(Debug, PartialEq, Eq, Structural)]
pub enum ConfigurationError {
    /// The event was given no name.
    MissingName,
}

impl Event {
    pub closed spec fn slot(&self) -> int {
        self.slot as int
    }

    pub closed spec fn event_name(&self) -> Seq<char> {
        self.name@
    }
}

impl View for Registry {
    type V = Map<Seq<char>, Tally>;

    open spec fn view(&self) -> Map<Seq<char>, Tally> {
        to_map(self.names(), self.tallies())
    }
}

impl Registry {
    /// The registered event names, in order of registration.
    pub closed spec fn names(&self) -> Seq<Seq<char>> {
        name_views(self.names@)
    }

    /// What each bag holds, parallel to `names`.
    pub closed spec fn tallies(&self) -> Seq<Tally> {
        self.bags@.map_values(|b: ObservationBag| b@)
    }

    /// The bucket bounds of each bag, parallel to `names`.
    pub closed spec fn bounds(&self) -> Seq<Seq<Magnitude>> {
        self.bags@.map_values(|b: ObservationBag| b.bounds())
    }

    pub open spec fn wf(&self) -> bool {
        &&& self.names().len() == self.tallies().len() == self.bounds().len()
        &&& distinct(self.names())
        &&& forall|i: int| 0 <= i < self.tallies().len() ==> #[trigger] self.tallies()[i].fits(self.bounds()[i].len())
    }

    /// The bag that `event` was built for is still registered here.
    pub open spec fn holds(&self, event: &Event) -> bool {
        0 <= event.slot() < self.names().len() && self.names()[event.slot()] == event.event_name()
    }

    /// `count` more observations through `event` fit in its bag.
    pub open spec fn has_room(&self, event: &Event, count: int) -> bool {
        self.holds(event) ==> self.tallies()[event.slot()].count + count <= usize::MAX
    }

    /// The state after `count` observations of `magnitude` through `event`.
    pub open spec fn observed(&self, event: &Event, magnitude: int, count: int) -> Seq<Tally> {
        if self.holds(event) {
            let i = event.slot();
            self.tallies().update(i, self.tallies()[i].inserted(self.bounds()[i], magnitude, count))
        } else {
            self.tallies()
        }
    }

    /// A registry with no bags.
    pub fn new() -> (r: Registry)
        ensures
            r.wf(),
            r.names() == Seq::<Seq<char>>::empty(),
            r.tallies() == Seq::<Tally>::empty(),
            r.bounds() == Seq::<Seq<Magnitude>>::empty(),
    {
        let r = Registry { names: Vec::new(), bags: Vec::new() };
        proof {
            assert(r.names() =~= Seq::<Seq<char>>::empty());
            assert(r.tallies() =~= Seq::<Tally>::empty());
            assert(r.bounds() =~= Seq::<Seq<Magnitude>>::empty());
        }
        r
    }

    /// Drops every bag. A handle built before reaches this registry again
    /// only once its name is registered anew at the same position.
    pub fn clear(&mut self)
        ensures
            final(self).wf(),
            final(self).names() == Seq::<Seq<char>>::empty(),
            final(self).tallies() == Seq::<Tally>::empty(),
            final(self).bounds() == Seq::<Seq<Magnitude>>::empty(),
    {
        self.names.clear();
        self.bags.clear();
        proof {
            assert(self.names() =~= Seq::<Seq<char>>::empty());
            assert(self.tallies() =~= Seq::<Tally>::empty());
            assert(self.bounds() =~= Seq::<Seq<Magnitude>>::empty());
        }
    }

    /// The number of registered events.
    pub fn len(&self) -> (r: usize)
        requires
            self.wf(),
        ensures
            r == self.names().len(),
    {
        self.names.len()
    }

    /// Whether `count` more observations through `event` can be taken.
    pub fn has_room_for(&self, event: &Event, count: usize) -> (r: bool)
        requires
            self.wf(),
        ensures
            r == self.has_room(event, count as int),
    {
        if event.slot < self.names.len() && self.names[event.slot] == event.name {
            let c = self.bags[event.slot].count();
            c <= usize::MAX - count
        } else {
            true
        }
    }

    /// Folds `count` observations of `magnitude` into the bag of `event`,
    /// where that bag is still registered here.
    fn insert(&mut self, event: &Event, magnitude: Magnitude, count: usize)
        requires
            old(self).wf(),
            old(self).has_room(event, count as int),
        ensures
            final(self).wf(),
            final(self).names() == old(self).names(),
            final(self).bounds() == old(self).bounds(),
            final(self).tallies() == old(self).observed(event, magnitude as int, count as int),
    {
        if event.slot < self.names.len() && self.names[event.slot] == event.name {
            assert(self.tallies()[event.slot as int] == self.bags@[event.slot as int]@);
            assert(self.bounds()[event.slot as int] == self.bags@[event.slot as int].bounds());
            assert(self.bags@[event.slot as int].wf());
            self.bags[event.slot].insert(magnitude, count);
            proof {
                assert(self.tallies() =~= old(self).observed(event, magnitude as int, count as int));
                assert(self.bounds() =~= old(self).bounds());
            }
        }
    }
}

impl Event {
    /// Observes one event of magnitude one unit: the form that counters use.
    pub fn observe_unit(&self, registry: &mut Registry)
        requires
            old(registry).wf(),
            old(registry).has_room(self, 1),
        ensures
            final(registry).wf(),
            final(registry).names() == old(registry).names(),
            final(registry).bounds() == old(registry).bounds(),
            final(registry).tallies() == old(registry).observed(self, UNIT as int, 1),
    {
        registry.insert(self, UNIT, 1);
    }

    /// Observes one event of the given magnitude.
    pub fn observe(&self, registry: &mut Registry, magnitude: Magnitude)
        requires
            old(registry).wf(),
            old(registry).has_room(self, 1),
        ensures
            final(registry).wf(),
            final(registry).names() == old(registry).names(),
            final(registry).bounds() == old(registry).bounds(),
            final(registry).tallies() == old(registry).observed(self, magnitude as int, 1),
    {
        registry.insert(self, magnitude, 1);
    }

    /// Observes `count` events of the given magnitude.
    pub fn observe_many(&self, registry: &mut Registry, magnitude: Magnitude, count: usize)
        requires
            old(registry).wf(),
            old(registry).has_room(self, count as int),
        ensures
            final(registry).wf(),
            final(registry).names() == old(registry).names(),
            final(registry).bounds() == old(registry).bounds(),
            final(registry).tallies() == old(registry).observed(self, magnitude as int, count as int),
    {
        registry.insert(self, magnitude, count);
    }
}

/// A page holding a frozen copy of every bag of `registry`, in order of
/// registration; the bags are left as they are.
pub fn report_page(registry: &Registry) -> (r: ReportPage)
    requires
        registry.wf(),
    ensures
        r.wf(),
        r.names() == registry.names(),
        r.tallies() == registry.tallies(),
        forall|j: int| 0 <= j < r.entries().len() ==> (#[trigger] r.entries()[j]).bucket_magnitudes@ == registry.bounds()[j],
{
    let mut snaps: Vec<ObservationBagSnapshot> = Vec::new();
    let mut i: usize = 0;
    while i < registry.bags.len()
        invariant
            registry.wf(),
            i <= registry.bags@.len(),
            snaps@.len() == i,
            forall|j: int| 0 <= j < i ==> (#[trigger] snaps@[j]).wf() && snaps@[j]@ == registry.bags@[j]@
                && snaps@[j].bucket_magnitudes@ == registry.bounds()[j],
        decreases registry.bags@.len() - i,
    {
        assert(registry.tallies()[i as int] == registry.bags@[i as int]@);
        assert(registry.bounds()[i as int] == registry.bags@[i as int].bounds());
        assert(registry.bags@[i as int].wf());
        snaps.push(registry.bags[i].snapshot());
        i = i + 1;
    }
    proof {
        assert(snapshot_views(snaps@) =~= registry.tallies());
    }
    ReportPage::from_parts(registry.names.clone(), snaps)
}

/// Configures an event and resolves it against a registry.
pub struct EventBuilder {
    name: Option<String>,
    buckets: Vec<Magnitude>,
}

impl EventBuilder {
    pub closed spec fn spec_name(&self) -> Option<Seq<char>> {
        match self.name {
            Some(n) => Some(n@),
            None => None,
        }
    }

    /// Upper bounds of the histogram buckets, ascending; empty for a plain counter.
    pub closed spec fn spec_buckets(&self) -> Seq<Magnitude> {
        self.buckets@
    }

    /// A builder with no name and no buckets.
    pub fn new() -> (r: EventBuilder)
        ensures
            r.spec_name() == Option::<Seq<char>>::None,
            r.spec_buckets() == Seq::<Magnitude>::empty(),
    {
        let r = EventBuilder { name: None, buckets: Vec::new() };
        assert(r.spec_buckets() =~= Seq::<Magnitude>::empty());
        r
    }

    /// Sets the event's name.
    pub fn name(self, name: &str) -> (r: EventBuilder)
        ensures
            r.spec_name() == Some(name@),
            r.spec_buckets() == self.spec_buckets(),
    {
        EventBuilder { name: Some(String::from_str(name)), buckets: self.buckets }
    }

    /// Sets the upper bounds of the histogram buckets.
    pub fn buckets(self, buckets: Vec<Magnitude>) -> (r: EventBuilder)
        ensures
            r.spec_name() == self.spec_name(),
            r.spec_buckets() == buckets@,
    {
        EventBuilder { name: self.name, buckets }
    }

    /// Resolves the event in `registry`: the bag already registered under the
    /// name is reused (and this builder's buckets ignored); otherwise a new
    /// empty bag with this builder's buckets is registered.
    pub fn build(self, registry: &mut Registry) -> (r: Result<Event, ConfigurationError>)
        requires
            old(registry).wf(),
        ensures
            final(registry).wf(),
            match self.spec_name() {
                None => r == Err::<Event, ConfigurationError>(ConfigurationError::MissingName)
                    && final(registry).names() == old(registry).names()
                    && final(registry).tallies() == old(registry).tallies()
                    && final(registry).bounds() == old(registry).bounds(),
                Some(n) => r is Ok && final(registry).holds(&r->Ok_0) && r->Ok_0.event_name() == n
                    && if old(registry).names().contains(n) {
                        &&& final(registry).names() == old(registry).names()
                        &&& final(registry).tallies() == old(registry).tallies()
                        &&& final(registry).bounds() == old(registry).bounds()
                    } else {
                        &&& final(registry).names() == old(registry).names().push(n)
                        &&& final(registry).tallies() == old(registry).tallies().push(
                            Tally::empty(self.spec_buckets().len()),
                        )
                        &&& final(registry).bounds() == old(registry).bounds().push(self.spec_buckets())
                    },
            },
    {
        let name = match self.name {
            Some(n) => n,
            None => return Err(ConfigurationError::MissingName),
        };
        match find_name(&registry.names, &name) {
            Some(i) => {
                assert(registry.names()[i as int] == name@);
                assert(registry.names().contains(name@));
                Ok(Event { slot: i, name })
            },
            None => {
                let slot = registry.names.len();
                let bag = ObservationBag::new(&self.buckets);
                registry.names.push(name.clone());
                registry.bags.push(bag);
                proof {
                    assert(bag.wf());
                    assert(registry.names() =~= old(registry).names().push(name@));
                    assert(registry.tallies() =~= old(registry).tallies().push(Tally::empty(self.spec_buckets().len())));
                    assert(registry.bounds() =~= old(registry).bounds().push(self.spec_buckets()));
                }
                Ok(Event { slot, name })
            },
        }
    }
}

} // verus!
