//! Resolution of the PCI Express functions that devices asked for onto the
//! root complexes of their buses.

use std::collections::HashMap;
use std::hash::Hash;
use std::sync::Arc;
use vstd::prelude::*;
use vstd::std_specs::hash::obeys_key_model;

verus! {

broadcast use vstd::std_specs::hash::group_hash_axioms;

/// A PCI Express routing ID: the bus and the combined device/function number
/// of a function.
#[derive(Clone, Copy, Debug, PartialEq, Eq, Hash, Structural)]
pub struct Rid {
    pub bus: u8,
    pub device_function: u8,
}

/// Why a function could not be added to a PCI Express bus.
#[derive(Debug)]
pub enum PcieConflictReason {
    /// Another device already has the routing ID.
    RidInUse { in_use_by: Arc<str> },
    /// No root complex serves the function's bus.
    MissingBus,
}

/// A function that could not be added to a PCI Express bus.
#[derive(Debug)]
pub struct PcieConflict {
    /// The routing ID asked for.
    pub rid: Rid,
    /// The device that asked for it.
    pub conflict_dev: Arc<str>,
    /// Why it could not be added.
    pub reason: PcieConflictReason,
}

/// A function handed to a root complex, with the root complex's answer.
pub struct Handover<D> {
    pub rid: Rid,
    pub name: Arc<str>,
    pub dev: D,
    pub answer: Result<(), PcieConflict>,
}

/// The record of the functions handed to a root complex, in order. It exists
/// only in specifications: nothing computes it when the program runs.
pub type HandoverLog<D> = Seq<Handover<D>>;

/// An abstraction over a PCIe root complex implementation that is able to
/// route accesses to devices of type `D`.
///
/// An implementation keeps `handovers` as the record of every function it
/// has been handed, in order, each with the answer it gave; the contract of
/// `add_pcie_function` holds it to that.
pub trait RegisterWeakMutexPcie<D>: Send {
    /// Every function handed to this root complex so far, in order, each with
    /// the answer it gave.
    spec fn handovers(&self) -> HandoverLog<D>;

    /// Try to add a PCI device to the bus, reporting any conflicts.
    fn add_pcie_function(&mut self, rid: Rid, name: Arc<str>, dev: D) -> (r: Result<(), PcieConflict>)
        ensures
            final(self).handovers() == old(self).handovers().push(
                (Handover { rid, name, dev, answer: r }),
            ),
    ;
}

/// A boxed root complex registers functions through the root complex it
/// holds, so that root complexes of different kinds can serve one resolver.
impl<D, T: RegisterWeakMutexPcie<D> + ?Sized> RegisterWeakMutexPcie<D> for Box<T> {
    open spec fn handovers(&self) -> HandoverLog<D> {
        (**self).handovers()
    }

    fn add_pcie_function(&mut self, rid: Rid, name: Arc<str>, dev: D) -> (r: Result<(), PcieConflict>) {
        (**self).add_pcie_function(rid, name, dev)
    }
}

/// A function that a device asks to have on a bus.
pub struct WeakMutexPcieEntry<D> {
    pub rid: Rid,
    pub name: Arc<str>,
    pub dev: D,
}

/// The root complexes of the PCI Express buses named by `K`, and the
/// functions asked for on each bus.
pub struct BusResolverWeakMutexPcie<K, R, D> {
    pub root_complexes: HashMap<K, R>,
    pub functions: HashMap<K, Vec<WeakMutexPcieEntry<D>>>,
}

impl<K, R, D> Default for BusResolverWeakMutexPcie<K, R, D> {
    fn default() -> (r: Self)
        ensures
            r.root_complexes@ == Map::<K, R>::empty(),
            r.functions@ == Map::<K, Vec<WeakMutexPcieEntry<D>>>::empty(),
    {
        BusResolverWeakMutexPcie { root_complexes: HashMap::new(), functions: HashMap::new() }
    }
}

/// The entries of `m`, in the order in which the map walks them.
///
/// Trusted wrapper around std's `Vec::from_iter` over `HashMap::into_iter`:
/// it claims that every entry of the map comes out exactly once, each key
/// with its value, in an order that it leaves unsaid (the map's walk order,
/// which depends on a hasher seeded per process).
#[verifier::external_body]
fn hash_map_entries<K, V>(m: HashMap<K, V>) -> (v: Vec<(K, V)>)
    ensures
        obeys_key_model::<K>() ==> is_walk_of(v@, m@),
{
    Vec::from_iter(m)
}

/// `walk` lists every entry of `m` exactly once.
pub open spec fn is_walk_of<K, V>(walk: Seq<(K, V)>, m: Map<K, V>) -> bool {
    &&& forall|i: int| 0 <= i < walk.len() ==> #[trigger] m.contains_key(walk[i].0)
    &&& forall|i: int| 0 <= i < walk.len() ==> m[walk[i].0] == #[trigger] walk[i].1
    &&& forall|i: int, j: int|
        0 <= i < j < walk.len() ==> #[trigger] walk[i].0 != #[trigger] walk[j].0
    &&& forall|k: K| #[trigger] m.contains_key(k) ==> exists|i: int| 0 <= i < walk.len() && walk[i].0 == k
}

/// The conflict that reports `entry` on a bus that no root complex serves.
pub open spec fn missing_bus_conflict<D>(entry: WeakMutexPcieEntry<D>) -> PcieConflict {
    PcieConflict { rid: entry.rid, conflict_dev: entry.name, reason: PcieConflictReason::MissingBus }
}

/// The conflicts among `outcomes`, in order.
pub open spec fn conflicts_in(outcomes: Seq<Option<PcieConflict>>) -> Seq<PcieConflict>
    decreases outcomes.len(),
{
    if outcomes.len() == 0 {
        Seq::empty()
    } else {
        conflicts_in(outcomes.drop_last()) + match outcomes.last() {
            Some(c) => seq![c],
            None => Seq::empty(),
        }
    }
}

/// The conflicts among the outcomes of every bus, bus after bus.
pub open spec fn all_conflicts(outcomes: Seq<Seq<Option<PcieConflict>>>) -> Seq<PcieConflict>
    decreases outcomes.len(),
{
    if outcomes.len() == 0 {
        Seq::empty()
    } else {
        all_conflicts(outcomes.drop_last()) + conflicts_in(outcomes.last())
    }
}

/// The conflict, if any, that a root complex's answer reports.
pub open spec fn outcome_of(answer: Result<(), PcieConflict>) -> Option<PcieConflict> {
    match answer {
        Ok(()) => None,
        Err(c) => Some(c),
    }
}

/// Returns the conflict, if any, that a root complex's answer reports.
pub fn conflict_of(answer: Result<(), PcieConflict>) -> (o: Option<PcieConflict>)
    ensures
        o == outcome_of(answer),
{
    match answer {
        Ok(()) => None,
        Err(conflict) => Some(conflict),
    }
}

/// `h` is the hand-over of `entry`, and `outcome` is what its answer reports.
pub open spec fn handover_matches<D>(
    h: Handover<D>,
    entry: WeakMutexPcieEntry<D>,
    outcome: Option<PcieConflict>,
) -> bool {
    &&& h.rid == entry.rid
    &&& h.name == entry.name
    &&& h.dev == entry.dev
    &&& outcome == outcome_of(h.answer)
}

/// The record `after` is `before` followed by one hand-over of each of
/// `entries`, in order; `outcomes` are what their answers report.
pub open spec fn handed_over<D>(
    before: Seq<Handover<D>>,
    after: Seq<Handover<D>>,
    entries: Seq<WeakMutexPcieEntry<D>>,
    outcomes: Seq<Option<PcieConflict>>,
) -> bool {
    &&& after.len() == before.len() + entries.len()
    &&& after.subrange(0, before.len() as int) == before
    &&& outcomes.len() == entries.len()
    &&& forall|i: int|
        0 <= i < entries.len() ==> #[trigger] handover_matches(
            after[before.len() + i],
            entries[i],
            outcomes[i],
        )
}

/// The resolution of `functions` onto the root complexes `before`, which
/// end up as `after`. `outcomes[b][i]` is what became of the `i`th function
/// of the `b`th bus in `walk`:
/// - a function on a bus that no root complex serves is reported missing its
///   bus, and nothing is handed over for it;
/// - the functions on a served bus are each handed to its root complex once,
///   in order, and report what it answered;
/// - root complexes of buses without functions are handed nothing.
/// The result reports every conflict, in walk order, and is `Ok` when there
/// is none.
pub open spec fn resolved_as<K, R: RegisterWeakMutexPcie<D>, D>(
    before: Map<K, R>,
    after: Map<K, R>,
    functions: Map<K, Vec<WeakMutexPcieEntry<D>>>,
    walk: Seq<(K, Vec<WeakMutexPcieEntry<D>>)>,
    outcomes: Seq<Seq<Option<PcieConflict>>>,
    result: Result<(), Vec<PcieConflict>>,
) -> bool {
    &&& is_walk_of(walk, functions)
    &&& after.dom() == before.dom()
    &&& outcomes.len() == walk.len()
    &&& forall|b: int| 0 <= b < walk.len() ==> #[trigger] outcomes[b].len() == walk[b].1@.len()
    &&& forall|b: int, i: int|
        0 <= b < walk.len() && !before.contains_key(walk[b].0) && 0 <= i < walk[b].1@.len()
            ==> #[trigger] outcomes[b][i] == Some(missing_bus_conflict(walk[b].1@[i]))
    &&& forall|b: int|
        0 <= b < walk.len() && before.contains_key(walk[b].0) ==> #[trigger] handed_over(
            before[walk[b].0].handovers(),
            after[walk[b].0].handovers(),
            walk[b].1@,
            outcomes[b],
        )
    &&& forall|k: K|
        #[trigger] before.contains_key(k) && !functions.contains_key(k) ==> after[k] == before[k]
    &&& match result {
        Ok(()) => all_conflicts(outcomes).len() == 0,
        Err(errs) => errs@ == all_conflicts(outcomes) && errs@.len() > 0,
    }
}

impl<K: Eq + Hash, R: RegisterWeakMutexPcie<D>, D> BusResolverWeakMutexPcie<K, R, D> {
    /// Hands every function to the root complex of its bus, and reports
    /// every function that could not be added: those on buses that no root
    /// complex serves, and those that their root complex refused. A refusal
    /// does not stop the functions after it from being handed over.
    pub fn resolve(self) -> (r: Result<(), Vec<PcieConflict>>)
        requires
            obeys_key_model::<K>(),
        ensures
            exists|
                after: Map<K, R>,
                walk: Seq<(K, Vec<WeakMutexPcieEntry<D>>)>,
                outcomes: Seq<Seq<Option<PcieConflict>>>,
            |
                #[trigger] resolved_as(
                    self.root_complexes@,
                    after,
                    self.functions@,
                    walk,
                    outcomes,
                    r,
                ),
    {
        let ghost before = self.root_complexes@;
        let ghost functions_view = self.functions@;
        let BusResolverWeakMutexPcie { root_complexes, functions } = self;
        let mut root_complexes = root_complexes;
        let mut walk = hash_map_entries(functions);
        let ghost full_walk = walk@;
        assert(full_walk.len() <= usize::MAX) by {
            let n = walk.len();
        }
        let mut errs: Vec<PcieConflict> = Vec::new();
        let ghost mut outcomes: Seq<Seq<Option<PcieConflict>>> = Seq::empty();
        let ghost mut after: Map<K, R> = before;
        let mut b: usize = 0;
        while walk.len() > 0
            invariant
                obeys_key_model::<K>(),
                is_walk_of(full_walk, functions_view),
                walk@ == full_walk.skip(b as int),
                b <= full_walk.len(),
                full_walk.len() <= usize::MAX,
                outcomes.len() == b,
                after.dom() == before.dom(),
                forall|c: int| 0 <= c < b ==> #[trigger] outcomes[c].len() == full_walk[c].1@.len(),
                forall|c: int, i: int|
                    0 <= c < b && !before.contains_key(full_walk[c].0) && 0 <= i < full_walk[c].1@.len()
                        ==> #[trigger] outcomes[c][i] == Some(missing_bus_conflict(full_walk[c].1@[i])),
                forall|c: int|
                    0 <= c < b && before.contains_key(full_walk[c].0) ==> #[trigger] handed_over(
                        before[full_walk[c].0].handovers(),
                        after[full_walk[c].0].handovers(),
                        full_walk[c].1@,
                        outcomes[c],
                    ),
                forall|k: K|
                    #[trigger] after.contains_key(k) && (forall|c: int|
                        0 <= c < b ==> full_walk[c].0 != k) ==> after[k] == before[k],
                root_complexes@ == after,
                errs@ == all_conflicts(outcomes),
            decreases walk.len(),
        {
            let (bus_id, entries) = walk.remove(0);
            let ghost bus_entries = entries@;
            assert(bus_id == full_walk[b as int].0 && entries == full_walk[b as int].1);
            let mut entries = entries;
            assert(bus_entries.len() <= usize::MAX) by {
                let n = entries.len();
            }
            assert forall|c: int| 0 <= c < b implies full_walk[c].0 != bus_id by {
                assert(full_walk[c].0 != full_walk[b as int].0);
            }
            let mut found = root_complexes.remove(&bus_id);
            let ghost missing = !before.contains_key(bus_id);
            let ghost start_log = if missing {
                Seq::<Handover<D>>::empty()
            } else {
                before[bus_id].handovers()
            };
            assert(found matches Some(rc) ==> rc == before[bus_id]);
            assert(found matches Some(rc) ==> rc.handovers().subrange(0, start_log.len() as int)
                =~= start_log);
            assert(bus_entries.take(0) =~= Seq::<WeakMutexPcieEntry<D>>::empty());
            let ghost mut bus_outcomes: Seq<Option<PcieConflict>> = Seq::empty();
            let ghost errs_before = errs@;
            let mut i: usize = 0;
            while entries.len() > 0
                invariant
                    entries@ == bus_entries.skip(i as int),
                    i <= bus_entries.len(),
                    bus_entries.len() <= usize::MAX,
                    bus_outcomes.len() == i,
                    found is None <==> missing,
                    missing ==> forall|j: int|
                        0 <= j < i ==> #[trigger] bus_outcomes[j] == Some(
                            missing_bus_conflict(bus_entries[j]),
                        ),
                    found matches Some(rc) ==> handed_over(
                        start_log,
                        rc.handovers(),
                        bus_entries.take(i as int),
                        bus_outcomes,
                    ),
                    errs@ == errs_before + conflicts_in(bus_outcomes),
                decreases entries.len(),
            {
                let entry = entries.remove(0);
                assert(entry == bus_entries[i as int]);
                let WeakMutexPcieEntry { rid, name, dev } = entry;
                let ghost prev_found = found;
                let outcome = match found {
                    Some(mut root_complex) => {
                        let added = root_complex.add_pcie_function(rid, name, dev);
                        found = Some(root_complex);
                        conflict_of(added)
                    },
                    None => {
                        found = None;
                        Some(PcieConflict { rid, conflict_dev: name, reason: PcieConflictReason::MissingBus })
                    },
                };
                proof {
                    let prev = bus_outcomes;
                    bus_outcomes = bus_outcomes.push(outcome);
                    assert(bus_outcomes.drop_last() =~= prev);
                    if found is Some {
                        let rc = found->Some_0;
                        let old_rc = prev_found->Some_0;
                        let log = rc.handovers();
                        assert(log.subrange(0, start_log.len() as int) =~= start_log);
                        assert forall|j: int|
                            0 <= j < i + 1 implies #[trigger] handover_matches(
                            log[start_log.len() + j],
                            bus_entries.take(i + 1)[j],
                            bus_outcomes[j],
                        ) by {
                            if j < i {
                                assert(handover_matches(
                                    old_rc.handovers()[start_log.len() + j],
                                    bus_entries.take(i as int)[j],
                                    prev[j],
                                ));
                            }
                        }
                    }
                }
                match outcome {
                    Some(conflict) => errs.push(conflict),
                    None => {},
                }
                i = i + 1;
                assert(entries@ =~= bus_entries.skip(i as int));
            }
            assert(bus_entries.take(i as int) =~= bus_entries);
            proof {
                let prev = outcomes;
                outcomes = outcomes.push(bus_outcomes);
                assert(outcomes.drop_last() =~= prev);
                if found is Some {
                    after = after.insert(bus_id, found->Some_0);
                }
            }
            // The root complex goes back into the map, which keeps every root
            // complex until resolution ends.
            if let Some(root_complex) = found {
                root_complexes.insert(bus_id, root_complex);
            }
            assert(root_complexes@ =~= after);
            b = b + 1;
            assert(walk@ =~= full_walk.skip(b as int));
        }
        proof {
            assert forall|k: K| #[trigger] before.contains_key(k) && !functions_view.contains_key(
                k,
            ) implies after[k] == before[k] by {
                assert forall|c: int| 0 <= c < b implies full_walk[c].0 != k by {
                    assert(functions_view.contains_key(full_walk[c].0));
                }
            }
        }
        assert(resolved_as(before, after, functions_view, full_walk, outcomes, if errs.len() > 0 {
            Err::<(), Vec<PcieConflict>>(errs)
        } else {
            Ok::<(), Vec<PcieConflict>>(())
        }));
        if errs.len() > 0 {
            Err(errs)
        } else {
            Ok(())
        }
    }
}

/// Every conflict among `outcomes` is reported.
proof fn lemma_conflicts_in_contains(outcomes: Seq<Option<PcieConflict>>, i: int)
    requires
        0 <= i < outcomes.len(),
        outcomes[i] is Some,
    ensures
        conflicts_in(outcomes).contains(outcomes[i]->Some_0),
    decreases outcomes.len(),
{
    let rest = outcomes.drop_last();
    if i == outcomes.len() - 1 {
        let c = outcomes[i]->Some_0;
        let all = conflicts_in(outcomes);
        assert(all[all.len() - 1] == c);
    } else {
        lemma_conflicts_in_contains(rest, i);
        let c = outcomes[i]->Some_0;
        let k = choose|k: int| 0 <= k < conflicts_in(rest).len() && conflicts_in(rest)[k] == c;
        assert(conflicts_in(outcomes)[k] == c);
    }
}

/// Every conflict of every bus is among all the conflicts.
proof fn lemma_all_conflicts_contains(outcomes: Seq<Seq<Option<PcieConflict>>>, b: int, c: PcieConflict)
    requires
        0 <= b < outcomes.len(),
        conflicts_in(outcomes[b]).contains(c),
    ensures
        all_conflicts(outcomes).contains(c),
    decreases outcomes.len(),
{
    let rest = outcomes.drop_last();
    let k = choose|k: int| 0 <= k < conflicts_in(outcomes[b]).len() && conflicts_in(outcomes[b])[k] == c;
    if b == outcomes.len() - 1 {
        assert(all_conflicts(outcomes)[all_conflicts(rest).len() + k] == c);
    } else {
        lemma_all_conflicts_contains(rest, b, c);
        let j = choose|j: int| 0 <= j < all_conflicts(rest).len() && all_conflicts(rest)[j] == c;
        assert(all_conflicts(outcomes)[j] == c);
    }
}

/// Buses without functions report no conflict.
proof fn lemma_no_outcomes_no_conflicts(outcomes: Seq<Seq<Option<PcieConflict>>>)
    requires
        forall|b: int| 0 <= b < outcomes.len() ==> (#[trigger] outcomes[b]).len() == 0,
    ensures
        all_conflicts(outcomes).len() == 0,
    decreases outcomes.len(),
{
    if outcomes.len() > 0 {
        let rest = outcomes.drop_last();
        assert forall|b: int| 0 <= b < rest.len() implies (#[trigger] rest[b]).len() == 0 by {
            assert(rest[b] == outcomes[b]);
        }
        lemma_no_outcomes_no_conflicts(rest);
        assert(outcomes.last().len() == 0);
    }
}

/// No conflict is reported exactly when every outcome is a success.
proof fn lemma_conflicts_in_empty(outcomes: Seq<Option<PcieConflict>>)
    ensures
        conflicts_in(outcomes).len() == 0 <==> forall|i: int|
            0 <= i < outcomes.len() ==> (#[trigger] outcomes[i]) is None,
    decreases outcomes.len(),
{
    if outcomes.len() > 0 {
        let rest = outcomes.drop_last();
        lemma_conflicts_in_empty(rest);
        if conflicts_in(outcomes).len() == 0 {
            assert forall|i: int| 0 <= i < outcomes.len() implies (#[trigger] outcomes[i]) is None by {
                if i < rest.len() {
                    assert(rest[i] == outcomes[i]);
                }
            }
        }
        if forall|i: int| 0 <= i < outcomes.len() ==> (#[trigger] outcomes[i]) is None {
            assert forall|i: int| 0 <= i < rest.len() implies (#[trigger] rest[i]) is None by {
                assert(rest[i] == outcomes[i]);
            }
            assert(outcomes[outcomes.len() - 1] is None);
        }
    }
}

/// No conflict is reported for any bus exactly when no bus reports one.
proof fn lemma_all_conflicts_empty(outcomes: Seq<Seq<Option<PcieConflict>>>)
    ensures
        all_conflicts(outcomes).len() == 0 <==> forall|b: int|
            0 <= b < outcomes.len() ==> conflicts_in(#[trigger] outcomes[b]).len() == 0,
    decreases outcomes.len(),
{
    if outcomes.len() > 0 {
        let rest = outcomes.drop_last();
        lemma_all_conflicts_empty(rest);
        if all_conflicts(outcomes).len() == 0 {
            assert forall|b: int| 0 <= b < outcomes.len() implies conflicts_in(
                #[trigger] outcomes[b],
            ).len() == 0 by {
                if b < rest.len() {
                    assert(rest[b] == outcomes[b]);
                }
            }
        }
        if forall|b: int| 0 <= b < outcomes.len() ==> conflicts_in(#[trigger] outcomes[b]).len() == 0 {
            assert forall|b: int| 0 <= b < rest.len() implies conflicts_in(#[trigger] rest[b]).len()
                == 0 by {
                assert(rest[b] == outcomes[b]);
            }
            assert(conflicts_in(outcomes[outcomes.len() - 1]).len() == 0);
        }
    }
}

/// Every function asked for on a bus that no root complex serves is reported
/// as a conflict for its missing bus, so resolution fails.
pub proof fn law_missing_bus_reported<K, R: RegisterWeakMutexPcie<D>, D>(
    before: Map<K, R>,
    after: Map<K, R>,
    functions: Map<K, Vec<WeakMutexPcieEntry<D>>>,
    walk: Seq<(K, Vec<WeakMutexPcieEntry<D>>)>,
    outcomes: Seq<Seq<Option<PcieConflict>>>,
    result: Result<(), Vec<PcieConflict>>,
    bus: K,
    i: int,
)
    requires
        resolved_as(before, after, functions, walk, outcomes, result),
        functions.contains_key(bus),
        !before.contains_key(bus),
        0 <= i < functions[bus]@.len(),
    ensures
        result matches Err(errs) && errs@.contains(missing_bus_conflict(functions[bus]@[i])),
{
    let b = choose|b: int| 0 <= b < walk.len() && walk[b].0 == bus;
    assert(walk[b].1 == functions[bus]);
    assert(outcomes[b][i] == Some(missing_bus_conflict(walk[b].1@[i])));
    lemma_conflicts_in_contains(outcomes[b], i);
    lemma_all_conflicts_contains(outcomes, b, missing_bus_conflict(functions[bus]@[i]));
}

/// Each function on a served bus is handed to the root complex of its bus,
/// with its routing ID, name and device; a refusal is reported unchanged, so
/// resolution fails.
pub proof fn law_served_function_handed_over<K, R: RegisterWeakMutexPcie<D>, D>(
    before: Map<K, R>,
    after: Map<K, R>,
    functions: Map<K, Vec<WeakMutexPcieEntry<D>>>,
    walk: Seq<(K, Vec<WeakMutexPcieEntry<D>>)>,
    outcomes: Seq<Seq<Option<PcieConflict>>>,
    result: Result<(), Vec<PcieConflict>>,
    bus: K,
    i: int,
)
    requires
        resolved_as(before, after, functions, walk, outcomes, result),
        functions.contains_key(bus),
        before.contains_key(bus),
        0 <= i < functions[bus]@.len(),
    ensures
        ({
            let h = after[bus].handovers()[before[bus].handovers().len() + i];
            &&& h.rid == functions[bus]@[i].rid
            &&& h.name == functions[bus]@[i].name
            &&& h.dev == functions[bus]@[i].dev
            &&& h.answer matches Err(c) ==> result matches Err(errs) && errs@.contains(c)
        }),
{
    let b = choose|b: int| 0 <= b < walk.len() && walk[b].0 == bus;
    assert(walk[b].1 == functions[bus]);
    assert(handed_over(before[bus].handovers(), after[bus].handovers(), walk[b].1@, outcomes[b]));
    let h = after[bus].handovers()[before[bus].handovers().len() + i];
    assert(handover_matches(h, walk[b].1@[i], outcomes[b][i]));
    if h.answer is Err {
        lemma_conflicts_in_contains(outcomes[b], i);
        lemma_all_conflicts_contains(outcomes, b, h.answer->Err_0);
    }
}

/// The `i`th function asked for on `bus` was on a served bus and its root
/// complex accepted it.
pub open spec fn function_accepted<K, R: RegisterWeakMutexPcie<D>, D>(
    before: Map<K, R>,
    after: Map<K, R>,
    bus: K,
    i: int,
) -> bool {
    &&& before.contains_key(bus)
    &&& after[bus].handovers()[before[bus].handovers().len() + i].answer is Ok
}

/// Resolution succeeds exactly when every function is on a served bus and
/// its root complex accepted it.
pub proof fn law_resolves_iff<K, R: RegisterWeakMutexPcie<D>, D>(
    before: Map<K, R>,
    after: Map<K, R>,
    functions: Map<K, Vec<WeakMutexPcieEntry<D>>>,
    walk: Seq<(K, Vec<WeakMutexPcieEntry<D>>)>,
    outcomes: Seq<Seq<Option<PcieConflict>>>,
    result: Result<(), Vec<PcieConflict>>,
)
    requires
        resolved_as(before, after, functions, walk, outcomes, result),
    ensures
        result is Ok <==> forall|bus: K, i: int|
            functions.contains_key(bus) && 0 <= i < functions[bus]@.len()
                ==> #[trigger] function_accepted(before, after, bus, i),
{
    lemma_all_conflicts_empty(outcomes);
    assert forall|b: int| 0 <= b < outcomes.len() implies (conflicts_in(#[trigger] outcomes[b]).len()
        == 0 <==> forall|i: int|
        0 <= i < outcomes[b].len() ==> (#[trigger] outcomes[b][i]) is None) by {
        lemma_conflicts_in_empty(outcomes[b]);
    }
    let accepted = forall|bus: K, i: int|
        functions.contains_key(bus) && 0 <= i < functions[bus]@.len() ==> #[trigger] function_accepted(
            before,
            after,
            bus,
            i,
        );
    if result is Ok {
        assert forall|bus: K, i: int|
            functions.contains_key(bus) && 0 <= i < functions[bus]@.len() implies #[trigger] function_accepted(
            before,
            after,
            bus,
            i,
        ) by {
            let b = choose|b: int| 0 <= b < walk.len() && walk[b].0 == bus;
            assert(walk[b].1 == functions[bus]);
            assert(outcomes[b][i] is None);
            if before.contains_key(bus) {
                assert(handed_over(
                    before[bus].handovers(),
                    after[bus].handovers(),
                    walk[b].1@,
                    outcomes[b],
                ));
                assert(handover_matches(
                    after[bus].handovers()[before[bus].handovers().len() + i],
                    walk[b].1@[i],
                    outcomes[b][i],
                ));
            }
        }
    }
    if accepted {
        assert forall|b: int, i: int| 0 <= b < outcomes.len() && 0 <= i < outcomes[b].len() implies (
        #[trigger] outcomes[b][i]) is None by {
            let bus = walk[b].0;
            assert(functions.contains_key(bus));
            assert(walk[b].1 == functions[bus]);
            assert(function_accepted(before, after, bus, i));
            assert(handed_over(
                before[bus].handovers(),
                after[bus].handovers(),
                walk[b].1@,
                outcomes[b],
            ));
            assert(handover_matches(
                after[bus].handovers()[before[bus].handovers().len() + i],
                walk[b].1@[i],
                outcomes[b][i],
            ));
        }
        assert forall|b: int| 0 <= b < outcomes.len() implies conflicts_in(
            #[trigger] outcomes[b],
        ).len() == 0 by {
            assert forall|i: int| 0 <= i < outcomes[b].len() implies (
            #[trigger] outcomes[b][i]) is None by {}
        }
    }
}

/// When no function is asked for on any bus, resolution succeeds and no
/// root complex is handed anything.
pub proof fn law_no_functions_resolves<K, R: RegisterWeakMutexPcie<D>, D>(
    before: Map<K, R>,
    after: Map<K, R>,
    functions: Map<K, Vec<WeakMutexPcieEntry<D>>>,
    walk: Seq<(K, Vec<WeakMutexPcieEntry<D>>)>,
    outcomes: Seq<Seq<Option<PcieConflict>>>,
    result: Result<(), Vec<PcieConflict>>,
)
    requires
        resolved_as(before, after, functions, walk, outcomes, result),
        forall|k: K| #[trigger] functions.contains_key(k) ==> functions[k]@.len() == 0,
    ensures
        result is Ok,
        forall|k: K| #[trigger] before.contains_key(k) ==> after[k].handovers() == before[k].handovers(),
{
    assert forall|b: int| 0 <= b < outcomes.len() implies (#[trigger] outcomes[b]).len() == 0 by {
        assert(functions.contains_key(walk[b].0));
        assert(walk[b].1 == functions[walk[b].0]);
    }
    lemma_no_outcomes_no_conflicts(outcomes);
    assert forall|k: K| #[trigger] before.contains_key(k) implies after[k].handovers()
        == before[k].handovers() by {
        if functions.contains_key(k) {
            let b = choose|b: int| 0 <= b < walk.len() && walk[b].0 == k;
            assert(walk[b].1 == functions[k]);
            assert(handed_over(before[k].handovers(), after[k].handovers(), walk[b].1@, outcomes[b]));
            assert(after[k].handovers() =~= before[k].handovers());
        }
    }
}

} // verus!
