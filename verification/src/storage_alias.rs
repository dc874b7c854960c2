//! Storage-reference and Yul-slot provenance of local variables.

use vstd::prelude::*;

use crate::call_results::CallResults;
use crate::ids::{ExprId, VariableId};
use crate::keyed::KeyedVec;
use crate::lattice::JoinSemiLattice;
use crate::storage_roots::{StorageProvenance, StorageRoots};

verus! {

/// How a variable declaration relates to storage.
#[derive(Clone, Copy, Debug, PartialEq, Eq, Structural)]
pub enum VariableStorage {
    /// A state variable: it is its own storage root.
    State,
    /// A local or parameter in the `storage` or `transient` data location: a storage reference.
    Reference,
    /// Any other variable.
    Other,
}

/// Root sets that reach any storage location.
pub open spec fn unknown_roots() -> (Set<VariableId>, bool) {
    (Set::empty(), true)
}

/// The roots recorded for `variable` in `map`, or unknown roots when none are recorded.
pub open spec fn roots_entry(map: Map<VariableId, (Set<VariableId>, bool)>, variable: VariableId) -> (Set<VariableId>, bool) {
    if map.contains_key(variable) {
        map[variable]
    } else {
        unknown_roots()
    }
}

/// The join of two root maps: a variable recorded on either side joins the roots of both sides,
/// an absent side counting as unknown roots.
pub open spec fn join_root_maps(
    lhs: Map<VariableId, (Set<VariableId>, bool)>,
    rhs: Map<VariableId, (Set<VariableId>, bool)>,
) -> Map<VariableId, (Set<VariableId>, bool)> {
    Map::new(
        |variable: VariableId| lhs.contains_key(variable) || rhs.contains_key(variable),
        |variable: VariableId| StorageRoots::spec_join(roots_entry(lhs, variable), roots_entry(rhs, variable)),
    )
}

/// The roots a variable reaches: a state variable reaches itself, a storage reference the roots
/// recorded for it, unknown roots when none are, and any other variable no storage.
pub open spec fn variable_roots_of(
    references: Map<VariableId, (Set<VariableId>, bool)>,
    variable: VariableId,
    storage: VariableStorage,
) -> (Set<VariableId>, bool) {
    match storage {
        VariableStorage::State => (Set::empty().insert(variable), false),
        VariableStorage::Reference => roots_entry(references, variable),
        VariableStorage::Other => (Set::empty(), false),
    }
}

/// Returns a copy of the roots recorded for `variable`, or unknown roots when none are recorded.
fn entry_or_unknown(map: &KeyedVec<VariableId, StorageRoots>, variable: VariableId) -> (roots: StorageRoots)
    ensures
        roots@ == roots_entry(map@, variable),
{
    match map.get(variable) {
        Some(roots) => roots.duplicate(),
        None => StorageRoots::unknown(),
    }
}

proof fn lemma_union_absorbs(a: (Set<VariableId>, bool), b: (Set<VariableId>, bool))
    ensures
        StorageRoots::spec_join(StorageRoots::spec_join(a, b), b) == StorageRoots::spec_join(a, b),
{
    assert(a.0.union(b.0).union(b.0) =~= a.0.union(b.0));
}

/// Joins `other` into `map` and returns whether `map` changed.
fn join_root_map(map: &mut KeyedVec<VariableId, StorageRoots>, other: &KeyedVec<VariableId, StorageRoots>) -> (changed: bool)
    ensures
        final(map)@ == join_root_maps(old(map)@, other@),
        changed == (final(map)@ != old(map)@),
{
    let ghost start = map@;
    let ghost target = join_root_maps(map@, other@);
    let mut variables = map.keys();
    let other_keys = other.keys();
    let mut k: usize = 0;
    while k < other_keys.len()
        invariant
            0 <= k <= other_keys@.len(),
            forall|v: VariableId| #[trigger] variables@.contains(v) <==> (start.contains_key(v) || other_keys@.subrange(0, k as int).contains(v)),
        decreases other_keys@.len() - k,
    {
        let ghost before = variables@;
        variables.push(other_keys[k]);
        proof {
            assert forall|v: VariableId| #[trigger] variables@.contains(v) <==> (start.contains_key(v) || other_keys@.subrange(0, k + 1).contains(v)) by {
                if variables@.contains(v) {
                    let j = choose|j: int| 0 <= j < variables@.len() && #[trigger] variables@[j] == v;
                    if j < before.len() {
                        assert(before[j] == v);
                        assert(before.contains(v));
                        if other_keys@.subrange(0, k as int).contains(v) {
                            let m = choose|m: int| 0 <= m < k && #[trigger] other_keys@.subrange(0, k as int)[m] == v;
                            assert(other_keys@.subrange(0, k + 1)[m] == v);
                        }
                    } else {
                        assert(other_keys@.subrange(0, k + 1)[k as int] == v);
                    }
                }
                if other_keys@.subrange(0, k + 1).contains(v) {
                    let j = choose|j: int| 0 <= j < k + 1 && #[trigger] other_keys@.subrange(0, k + 1)[j] == v;
                    if j < k {
                        assert(other_keys@.subrange(0, k as int)[j] == v);
                        assert(before.contains(v));
                        let m = choose|m: int| 0 <= m < before.len() && #[trigger] before[m] == v;
                        assert(variables@[m] == v);
                    } else {
                        assert(variables@[before.len() as int] == v);
                    }
                }
                if start.contains_key(v) {
                    assert(before.contains(v));
                    let m = choose|m: int| 0 <= m < before.len() && #[trigger] before[m] == v;
                    assert(variables@[m] == v);
                }
            }
        }
        k += 1;
    }
    proof {
        assert(other_keys@.subrange(0, other_keys@.len() as int) =~= other_keys@);
    }
    let mut changed = false;
    let mut i: usize = 0;
    while i < variables.len()
        invariant
            0 <= i <= variables@.len(),
            forall|v: VariableId| #[trigger] variables@.contains(v) <==> (start.contains_key(v) || other@.contains_key(v)),
            target == join_root_maps(start, other@),
            forall|v: VariableId| #[trigger] map@.contains_key(v) <==> (start.contains_key(v) || variables@.subrange(0, i as int).contains(v)),
            forall|v: VariableId| #[trigger] variables@.subrange(0, i as int).contains(v) ==> map@[v] == target[v],
            forall|v: VariableId| !variables@.subrange(0, i as int).contains(v) && start.contains_key(v) ==> #[trigger] map@[v] == start[v],
            changed == exists|j: int| 0 <= j < i && #[trigger] root_join_changes(start, other@, variables@[j]),
        decreases variables@.len() - i,
    {
        let variable = variables[i];
        let ghost done = variables@.subrange(0, i as int);
        let ghost next = variables@.subrange(0, i + 1);
        let ghost joined = StorageRoots::spec_join(roots_entry(start, variable), roots_entry(other@, variable));
        proof {
            assert forall|v: VariableId| #[trigger] next.contains(v) <==> (done.contains(v) || v == variable) by {
                if next.contains(v) {
                    let j = choose|j: int| 0 <= j < next.len() && #[trigger] next[j] == v;
                    if j < i {
                        assert(done[j] == v);
                    }
                }
                if done.contains(v) {
                    let j = choose|j: int| 0 <= j < done.len() && #[trigger] done[j] == v;
                    assert(next[j] == v);
                }
                if v == variable {
                    assert(next[i as int] == v);
                }
            }
            assert(variables@.contains(variable));
            assert(target.contains_key(variable));
        }
        let mut roots = entry_or_unknown(map, variable);
        proof {
            if done.contains(variable) {
                assert(roots@ == joined);
                lemma_union_absorbs(roots_entry(start, variable), roots_entry(other@, variable));
            } else {
                assert(roots@ == roots_entry(start, variable));
            }
        }
        let other_roots = entry_or_unknown(other, variable);
        let _ = roots.union(&other_roots);
        proof {
            assert(roots@ == joined);
        }
        let stored_same = match map.get(variable) {
            Some(stored) => stored.same_roots(&roots),
            None => false,
        };
        let ghost before = map@;
        if !stored_same {
            map.insert(variable, roots);
            changed = true;
        }
        proof {
            assert(map@ =~= before.insert(variable, joined));
            if done.contains(variable) {
                let j = choose|j: int| 0 <= j < done.len() && #[trigger] done[j] == variable;
                assert(variables@[j] == variable);
                assert(stored_same);
            } else if start.contains_key(variable) {
                assert(before[variable] == start[variable]);
            }
            assert(changed == exists|j: int| 0 <= j < i + 1 && #[trigger] root_join_changes(start, other@, variables@[j])) by {
                if changed {
                    if !(exists|j: int| 0 <= j < i && #[trigger] root_join_changes(start, other@, variables@[j])) {
                        assert(root_join_changes(start, other@, variables@[i as int]));
                    }
                } else {
                    assert forall|j: int| 0 <= j < i + 1 implies !#[trigger] root_join_changes(start, other@, variables@[j]) by {
                        if j == i {
                            assert(variables@[j] == variable);
                        }
                    }
                }
            }
            assert forall|v: VariableId| #[trigger] next.contains(v) implies map@[v] == target[v] by {
                if v != variable {
                    assert(done.contains(v));
                }
            }
            assert forall|v: VariableId| !next.contains(v) && start.contains_key(v) implies #[trigger] map@[v] == start[v] by {
                assert(!done.contains(v));
            }
        }
        i += 1;
    }
    proof {
        assert(variables@.subrange(0, variables@.len() as int) =~= variables@);
        assert(map@ =~= target) by {
            assert forall|v: VariableId| #[trigger] map@.contains_key(v) == target.contains_key(v) by {
            }
            assert forall|v: VariableId| #[trigger] map@.contains_key(v) implies map@[v] == target[v] by {
                assert(variables@.contains(v));
            }
        }
        if changed {
            let j = choose|j: int| 0 <= j < variables@.len() && #[trigger] root_join_changes(start, other@, variables@[j]);
            let v = variables@[j];
            assert(variables@.contains(v));
            if start.contains_key(v) {
                assert(map@[v] != start[v]);
            } else {
                assert(map@.contains_key(v));
            }
            assert(map@ != start);
        } else {
            assert(map@ =~= start) by {
                assert forall|v: VariableId| #[trigger] map@.contains_key(v) implies start.contains_key(v) && map@[v] == start[v] by {
                    assert(variables@.contains(v));
                    let j = choose|j: int| 0 <= j < variables@.len() && #[trigger] variables@[j] == v;
                    assert(!root_join_changes(start, other@, variables@[j]));
                }
            }
        }
    }
    changed
}

/// The provenance of a new state: no reference, slot or call-result entry.
pub open spec fn no_provenance() -> (
    Map<VariableId, (Set<VariableId>, bool)>,
    Map<VariableId, (Set<VariableId>, bool)>,
    Map<ExprId, Seq<((Set<VariableId>, bool), (Set<VariableId>, bool))>>,
) {
    (
        Map::<VariableId, (Set<VariableId>, bool)>::empty(),
        Map::<VariableId, (Set<VariableId>, bool)>::empty(),
        Map::<ExprId, Seq<((Set<VariableId>, bool), (Set<VariableId>, bool))>>::empty(),
    )
}

/// The views of parameter bindings: variable, storage kind, reference roots and slot roots.
pub open spec fn binding_views(bindings: Seq<(VariableId, VariableStorage, StorageRoots, StorageRoots)>) -> Seq<
    (VariableId, VariableStorage, (Set<VariableId>, bool), (Set<VariableId>, bool)),
> {
    bindings.map_values(
        |binding: (VariableId, VariableStorage, StorageRoots, StorageRoots)| (binding.0, binding.1, binding.2@, binding.3@),
    )
}

/// Bindings that clear return variables to empty roots.
pub open spec fn cleared_bindings(return_variables: Seq<(VariableId, VariableStorage)>) -> Seq<
    (VariableId, VariableStorage, (Set<VariableId>, bool), (Set<VariableId>, bool)),
> {
    return_variables.map_values(
        |variable: (VariableId, VariableStorage)|
            (variable.0, variable.1, (Set::<VariableId>::empty(), false), (Set::<VariableId>::empty(), false)),
    )
}

/// The reference roots after `bindings` are applied in order: a storage reference records its
/// roots, any other variable drops its entry.
pub open spec fn bound_references(
    map: Map<VariableId, (Set<VariableId>, bool)>,
    bindings: Seq<(VariableId, VariableStorage, (Set<VariableId>, bool), (Set<VariableId>, bool))>,
) -> Map<VariableId, (Set<VariableId>, bool)>
    decreases bindings.len(),
{
    if bindings.len() == 0 {
        map
    } else {
        let prior = bound_references(map, bindings.drop_last());
        let binding = bindings.last();
        if binding.1 is Reference {
            prior.insert(binding.0, binding.2)
        } else {
            prior.remove(binding.0)
        }
    }
}

/// The slot roots after `bindings` are applied in order.
pub open spec fn bound_slots(
    map: Map<VariableId, (Set<VariableId>, bool)>,
    bindings: Seq<(VariableId, VariableStorage, (Set<VariableId>, bool), (Set<VariableId>, bool))>,
) -> Map<VariableId, (Set<VariableId>, bool)>
    decreases bindings.len(),
{
    if bindings.len() == 0 {
        map
    } else {
        bound_slots(map, bindings.drop_last()).insert(bindings.last().0, bindings.last().3)
    }
}

/// The value side of an assignment or declaration, as the provenance of its outputs reads it.
#[derive(Debug)]
pub enum OutputSource {
    /// A tuple expression: the provenance of the whole tuple and of each component, an omitted
    /// component being `None`.
    Tuple(StorageProvenance, Vec<Option<StorageProvenance>>),
    /// A call expression, whose outputs come from the call-result summaries.
    Call(ExprId),
    /// Any other expression, with its provenance.
    Other(StorageProvenance),
}

/// The provenance view of one output: reference roots and slot roots.
pub type ProvenanceView = ((Set<VariableId>, bool), (Set<VariableId>, bool));

/// Provenance that reaches no storage through either channel.
pub open spec fn no_provenance_view() -> ProvenanceView {
    ((Set::empty(), false), (Set::empty(), false))
}

/// The provenance that output `index` of `outputs` receives from `source`, given the call-result
/// summaries `calls`.
pub open spec fn output_provenance(
    calls: Map<ExprId, Seq<ProvenanceView>>,
    source: OutputSource,
    index: nat,
    outputs: nat,
) -> ProvenanceView {
    match source {
        OutputSource::Tuple(own, components) => if outputs > 1 {
            if index < components@.len() && components@[index as int] is Some {
                components@[index as int]->0@
            } else {
                no_provenance_view()
            }
        } else if outputs == 1 && index == 0 {
            own@
        } else {
            no_provenance_view()
        },
        OutputSource::Call(call) => if calls.contains_key(call) && index < calls[call].len() {
            calls[call][index as int]
        } else {
            (unknown_roots(), unknown_roots())
        },
        OutputSource::Other(own) => if outputs == 1 && index == 0 {
            own@
        } else {
            no_provenance_view()
        },
    }
}

/// The bindings of the first `count` of `variables` to the outputs of `source`, in order; absent
/// variables bind nothing.
pub open spec fn output_bindings(
    calls: Map<ExprId, Seq<ProvenanceView>>,
    variables: Seq<Option<(VariableId, VariableStorage)>>,
    source: OutputSource,
    count: nat,
) -> Seq<(VariableId, VariableStorage, (Set<VariableId>, bool), (Set<VariableId>, bool))>
    decreases count,
{
    if count == 0 || count > variables.len() {
        Seq::empty()
    } else {
        let prior = output_bindings(calls, variables, source, (count - 1) as nat);
        match variables[count - 1] {
            Some(variable) => {
                let provenance = output_provenance(calls, source, (count - 1) as nat, variables.len());
                prior.push((variable.0, variable.1, provenance.0, provenance.1))
            },
            None => prior,
        }
    }
}

/// The union of the reference roots of several outputs.
pub open spec fn flattened_references(outputs: Seq<ProvenanceView>) -> (Set<VariableId>, bool) {
    (
        Set::new(|v: VariableId| exists|k: int| 0 <= k < outputs.len() && outputs[k].0.0.contains(v)),
        exists|k: int| 0 <= k < outputs.len() && outputs[k].0.1,
    )
}

/// The union of the slot roots of several outputs.
pub open spec fn flattened_slots(outputs: Seq<ProvenanceView>) -> (Set<VariableId>, bool) {
    (
        Set::new(|v: VariableId| exists|k: int| 0 <= k < outputs.len() && outputs[k].1.0.contains(v)),
        exists|k: int| 0 <= k < outputs.len() && outputs[k].1.1,
    )
}

/// Whether joining `rhs` into `lhs` records `variable` anew or changes its roots.
pub open spec fn root_join_changes(
    lhs: Map<VariableId, (Set<VariableId>, bool)>,
    rhs: Map<VariableId, (Set<VariableId>, bool)>,
    variable: VariableId,
) -> bool {
    !lhs.contains_key(variable) || StorageRoots::spec_join(roots_entry(lhs, variable), roots_entry(rhs, variable))
        != lhs[variable]
}

/// Storage-reference and Yul-slot provenance of local variables, with call-result summaries.
///
/// The view is the roots reached by each storage reference, the roots that may contribute to each
/// local slot value, and the provenance of the outputs of each summarized call.
#[derive(Debug)]
pub struct StorageAliasState {
    references: KeyedVec<VariableId, StorageRoots>,
    slots: KeyedVec<VariableId, StorageRoots>,
    call_results: CallResults<StorageProvenance>,
}

impl View for StorageAliasState {
    type V = (
        Map<VariableId, (Set<VariableId>, bool)>,
        Map<VariableId, (Set<VariableId>, bool)>,
        Map<ExprId, Seq<((Set<VariableId>, bool), (Set<VariableId>, bool))>>,
    );

    closed spec fn view(&self) -> Self::V {
        (self.references@, self.slots@, self.call_results@)
    }
}

impl StorageAliasState {
    /// A state with no recorded provenance.
    pub fn new() -> (state: Self)
        ensures
            state@.0 == Map::<VariableId, (Set<VariableId>, bool)>::empty(),
            state@.1 == Map::<VariableId, (Set<VariableId>, bool)>::empty(),
            state@.2 == Map::<ExprId, Seq<((Set<VariableId>, bool), (Set<VariableId>, bool))>>::empty(),
    {
        StorageAliasState { references: KeyedVec::new(), slots: KeyedVec::new(), call_results: CallResults::new() }
    }

    /// Forgets all known reference, slot, and call-result provenance.
    ///
    /// Subsequent storage-reference and slot lookups conservatively produce unknown roots.
    pub fn forget(&mut self)
        ensures
            final(self)@.0 == Map::<VariableId, (Set<VariableId>, bool)>::empty(),
            final(self)@.1 == Map::<VariableId, (Set<VariableId>, bool)>::empty(),
            final(self)@.2 == Map::<ExprId, Seq<((Set<VariableId>, bool), (Set<VariableId>, bool))>>::empty(),
    {
        self.references.clear();
        self.slots.clear();
        self.call_results.clear_all();
    }

    /// Returns the state-variable roots currently reached by `variable`, declared with `storage`.
    pub fn reference_roots(&self, variable: VariableId, storage: VariableStorage) -> (roots: StorageRoots)
        ensures
            roots@ == variable_roots_of(self@.0, variable, storage),
    {
        self.variable_roots(Some(variable), storage)
    }

    /// Returns the roots reached by an optional variable declared with `storage`; no variable
    /// reaches no storage.
    pub fn variable_roots(&self, variable: Option<VariableId>, storage: VariableStorage) -> (roots: StorageRoots)
        ensures
            roots@ == match variable {
                Some(variable) => variable_roots_of(self@.0, variable, storage),
                None => (Set::<VariableId>::empty(), false),
            },
    {
        let variable = match variable {
            Some(variable) => variable,
            None => return StorageRoots::new(),
        };
        match storage {
            VariableStorage::State => {
                let roots = StorageRoots::singleton(variable);
                proof {
                    assert(roots@.0 =~= Set::<VariableId>::empty().insert(variable));
                }
                roots
            },
            VariableStorage::Reference => entry_or_unknown(&self.references, variable),
            VariableStorage::Other => StorageRoots::new(),
        }
    }

    /// Returns the state-variable roots which may contribute to a local Yul slot value.
    pub fn slot_value_roots(&self, variable: VariableId) -> (roots: StorageRoots)
        ensures
            roots@ == roots_entry(self@.1, variable),
    {
        entry_or_unknown(&self.slots, variable)
    }

    /// Records the roots reached by `variable`, declared with `storage`: only storage references
    /// keep an entry.
    pub fn set_reference(&mut self, variable: VariableId, storage: VariableStorage, roots: StorageRoots)
        ensures
            final(self)@.0 == if storage is Reference {
                old(self)@.0.insert(variable, roots@)
            } else {
                old(self)@.0.remove(variable)
            },
            final(self)@.1 == old(self)@.1,
            final(self)@.2 == old(self)@.2,
    {
        match storage {
            VariableStorage::Reference => {
                self.references.insert(variable, roots);
            },
            _ => {
                let _ = self.references.remove(variable);
            },
        }
    }

    /// Records the roots which may contribute to the slot value of `variable`.
    pub fn set_slot(&mut self, variable: VariableId, roots: StorageRoots)
        ensures
            final(self)@.0 == old(self)@.0,
            final(self)@.1 == old(self)@.1.insert(variable, roots@),
            final(self)@.2 == old(self)@.2,
    {
        self.slots.insert(variable, roots);
    }

    /// Sets the roots produced by `call`, indexed by return position.
    pub fn set_call_results(&mut self, call: ExprId, results: Vec<StorageProvenance>)
        ensures
            final(self)@.0 == old(self)@.0,
            final(self)@.1 == old(self)@.1,
            final(self)@.2 == old(self)@.2.insert(call, crate::call_results::views(results@)),
    {
        self.call_results.set_outputs(call, results);
    }

    /// Returns one output of a summarized call.
    pub fn call_result(&self, call: ExprId, index: usize) -> (result: Option<&StorageProvenance>)
        ensures
            result is Some <==> (self@.2.contains_key(call) && index < self@.2[call].len()),
            result is Some ==> result->0@ == self@.2[call][index as int],
    {
        self.call_results.output(call, index)
    }

    /// Restores the provenance of the variables of one completed activation from `caller`: each
    /// takes the caller's entry, or none when the caller has none.
    pub fn restore_activation(&mut self, activation: &[VariableId], caller: &Self)
        ensures
            final(self)@.0 == restored(old(self)@.0, caller@.0, activation@.to_set()),
            final(self)@.1 == restored(old(self)@.1, caller@.1, activation@.to_set()),
            final(self)@.2 == old(self)@.2,
    {
        let ghost start = self@;
        let mut i: usize = 0;
        while i < activation.len()
            invariant
                0 <= i <= activation@.len(),
                self@.0 == restored(start.0, caller@.0, activation@.subrange(0, i as int).to_set()),
                self@.1 == restored(start.1, caller@.1, activation@.subrange(0, i as int).to_set()),
                self@.2 == start.2,
            decreases activation@.len() - i,
        {
            let variable = activation[i];
            restore_entry(&mut self.references, &caller.references, variable);
            restore_entry(&mut self.slots, &caller.slots, variable);
            proof {
                let prefix = activation@.subrange(0, i as int);
                let next = activation@.subrange(0, i + 1);
                assert(next =~= prefix.push(variable));
                assert(next.to_set() =~= prefix.to_set().insert(variable)) by {
                    assert forall|v: VariableId| next.to_set().contains(v) <==> prefix.to_set().insert(variable).contains(v) by {
                        if next.contains(v) && v != variable {
                            let k = choose|k: int| 0 <= k < next.len() && next[k] == v;
                            assert(prefix[k] == v);
                        }
                        if prefix.contains(v) {
                            let k = choose|k: int| 0 <= k < prefix.len() && prefix[k] == v;
                            assert(next[k] == v);
                        }
                        if v == variable {
                            assert(next[i as int] == v);
                        }
                    }
                }
                lemma_restored_insert(start.0, caller@.0, prefix.to_set(), variable);
                lemma_restored_insert(start.1, caller@.1, prefix.to_set(), variable);
            }
            i += 1;
        }
        proof {
            assert(activation@.subrange(0, activation@.len() as int) =~= activation@);
        }
    }

    /// Restores storage provenance owned by one completed modifier activation.
    pub fn return_from_modifier(&mut self, activation: &[VariableId], caller: &Self)
        ensures
            final(self)@.0 == restored(old(self)@.0, caller@.0, activation@.to_set()),
            final(self)@.1 == restored(old(self)@.1, caller@.1, activation@.to_set()),
            final(self)@.2 == old(self)@.2,
    {
        self.restore_activation(activation, caller);
    }

    /// Restores the caller's provenance of the activation's variables after an internal call and
    /// records the call's outputs: output `index` carries the reference roots of return variable
    /// `index`, declared with its storage kind (none for a Yul function), and its slot roots.
    pub fn return_from_call(
        &mut self,
        call: ExprId,
        activation: &[VariableId],
        return_variables: &[(VariableId, VariableStorage)],
        is_yul: bool,
        caller: &Self,
    )
        ensures
            final(self)@.0 == restored(old(self)@.0, caller@.0, activation@.to_set()),
            final(self)@.1 == restored(old(self)@.1, caller@.1, activation@.to_set()),
            final(self)@.2 == old(self)@.2.insert(
                call,
                Seq::new(
                    return_variables@.len(),
                    |index: int|
                        (
                            if is_yul {
                                (Set::<VariableId>::empty(), false)
                            } else {
                                variable_roots_of(old(self)@.0, return_variables@[index].0, return_variables@[index].1)
                            },
                            roots_entry(old(self)@.1, return_variables@[index].0),
                        ),
                ),
            ),
    {
        let ghost start = self@;
        let mut results: Vec<StorageProvenance> = Vec::new();
        let mut index: usize = 0;
        while index < return_variables.len()
            invariant
                0 <= index <= return_variables@.len(),
                self@ == start,
                results@.len() == index,
                forall|k: int|
                    0 <= k < index ==> (#[trigger] results@[k])@ == (
                        if is_yul {
                            (Set::<VariableId>::empty(), false)
                        } else {
                            variable_roots_of(start.0, return_variables@[k].0, return_variables@[k].1)
                        },
                        roots_entry(start.1, return_variables@[k].0),
                    ),
            decreases return_variables@.len() - index,
        {
            let (variable, storage) = return_variables[index];
            let slots = self.slot_value_roots(variable);
            let references = if is_yul {
                StorageRoots::new()
            } else {
                self.variable_roots(Some(variable), storage)
            };
            results.push(StorageProvenance::new(references, slots));
            index += 1;
        }
        let ghost result_views = crate::call_results::views(results@);
        proof {
            assert(result_views =~= Seq::new(
                return_variables@.len(),
                |index: int|
                    (
                        if is_yul {
                            (Set::<VariableId>::empty(), false)
                        } else {
                            variable_roots_of(start.0, return_variables@[index].0, return_variables@[index].1)
                        },
                        roots_entry(start.1, return_variables@[index].0),
                    ),
            ));
        }
        self.restore_activation(activation, caller);
        self.set_call_results(call, results);
    }

    /// Binds the parameters of an applied modifier or an internal callee: each binding gives a
    /// parameter, declared with its storage kind, its reference roots and its slot roots, in
    /// order; then every return variable is cleared to empty roots.
    pub fn bind_parameters(
        &mut self,
        bindings: Vec<(VariableId, VariableStorage, StorageRoots, StorageRoots)>,
        return_variables: &[(VariableId, VariableStorage)],
    )
        ensures
            final(self)@.0 == bound_references(
                old(self)@.0,
                binding_views(bindings@) + cleared_bindings(return_variables@),
            ),
            final(self)@.1 == bound_slots(old(self)@.1, binding_views(bindings@) + cleared_bindings(return_variables@)),
            final(self)@.2 == old(self)@.2,
    {
        let ghost start = self@;
        let ghost all = binding_views(bindings@) + cleared_bindings(return_variables@);
        let mut bindings = bindings;
        let mut i: usize = 0;
        let ghost given = binding_views(bindings@);
        while i < return_variables.len()
            invariant
                0 <= i <= return_variables@.len(),
                binding_views(bindings@) == given + cleared_bindings(return_variables@).subrange(0, i as int),
            decreases return_variables@.len() - i,
        {
            let (variable, storage) = return_variables[i];
            let ghost before = binding_views(bindings@);
            let references = StorageRoots::new();
            let slots = StorageRoots::new();
            let ghost entry = (variable, storage, references@, slots@);
            bindings.push((variable, storage, references, slots));
            proof {
                assert(binding_views(bindings@) =~= before.push(entry));
                assert(cleared_bindings(return_variables@)[i as int] == entry);
                assert(binding_views(bindings@) =~= given + cleared_bindings(return_variables@).subrange(0, i + 1));
            }
            i += 1;
        }
        proof {
            assert(cleared_bindings(return_variables@).subrange(0, return_variables@.len() as int) =~= cleared_bindings(
                return_variables@,
            ));
            assert(binding_views(bindings@) == all);
        }
        self.apply_bindings(bindings);
    }

    /// Applies `bindings` in order: each gives a variable, declared with its storage kind, its
    /// reference roots and its slot roots.
    pub fn apply_bindings(&mut self, bindings: Vec<(VariableId, VariableStorage, StorageRoots, StorageRoots)>)
        ensures
            final(self)@.0 == bound_references(old(self)@.0, binding_views(bindings@)),
            final(self)@.1 == bound_slots(old(self)@.1, binding_views(bindings@)),
            final(self)@.2 == old(self)@.2,
    {
        let ghost start = self@;
        let ghost all = binding_views(bindings@);
        let mut k: usize = 0;
        proof {
            assert(all.subrange(0, 0) =~= Seq::<(VariableId, VariableStorage, (Set<VariableId>, bool), (Set<VariableId>, bool))>::empty());
        }
        while k < bindings.len()
            invariant
                0 <= k <= bindings@.len(),
                binding_views(bindings@) == all,
                self@.0 == bound_references(start.0, all.subrange(0, k as int)),
                self@.1 == bound_slots(start.1, all.subrange(0, k as int)),
                self@.2 == start.2,
            decreases bindings@.len() - k,
        {
            proof {
                let prefix = all.subrange(0, k + 1);
                assert(prefix.drop_last() =~= all.subrange(0, k as int));
                assert(prefix.last() == all[k as int]);
            }
            let variable = bindings[k].0;
            let storage = bindings[k].1;
            self.set_reference(variable, storage, bindings[k].2.duplicate());
            self.set_slot(variable, bindings[k].3.duplicate());
            k += 1;
        }
        proof {
            assert(all.subrange(0, all.len() as int) =~= all);
        }
    }

    /// Clears the reference and slot roots of return variables, each declared with its storage
    /// kind, to empty roots.
    pub fn clear_returns(&mut self, return_variables: &[(VariableId, VariableStorage)])
        ensures
            final(self)@.0 == bound_references(old(self)@.0, cleared_bindings(return_variables@)),
            final(self)@.1 == bound_slots(old(self)@.1, cleared_bindings(return_variables@)),
            final(self)@.2 == old(self)@.2,
    {
        let mut bindings: Vec<(VariableId, VariableStorage, StorageRoots, StorageRoots)> = Vec::new();
        let mut i: usize = 0;
        while i < return_variables.len()
            invariant
                0 <= i <= return_variables@.len(),
                binding_views(bindings@) == cleared_bindings(return_variables@).subrange(0, i as int),
            decreases return_variables@.len() - i,
        {
            let (variable, storage) = return_variables[i];
            let ghost before = binding_views(bindings@);
            let references = StorageRoots::new();
            let slots = StorageRoots::new();
            let ghost entry = (variable, storage, references@, slots@);
            bindings.push((variable, storage, references, slots));
            proof {
                assert(binding_views(bindings@) =~= before.push(entry));
                assert(cleared_bindings(return_variables@)[i as int] == entry);
                assert(binding_views(bindings@) =~= cleared_bindings(return_variables@).subrange(0, i + 1));
            }
            i += 1;
        }
        proof {
            assert(cleared_bindings(return_variables@).subrange(0, return_variables@.len() as int) =~= cleared_bindings(
                return_variables@,
            ));
        }
        self.apply_bindings(bindings);
    }

    /// Returns the provenance that output `index` of `outputs` receives from `source`: a tuple
    /// with several outputs gives its component, empty for an omitted or missing one; a call gives
    /// its summarized output, unknown when there is none; any other single output takes the
    /// value's own provenance, and further outputs receive nothing.
    pub fn provenance_for_output(&self, source: &OutputSource, index: usize, outputs: usize) -> (provenance: StorageProvenance)
        ensures
            provenance@ == output_provenance(self@.2, *source, index as nat, outputs as nat),
    {
        match source {
            OutputSource::Tuple(own, components) => {
                if outputs > 1 {
                    if index < components.len() {
                        match &components[index] {
                            Some(component) => component.duplicate(),
                            None => StorageProvenance::new(StorageRoots::new(), StorageRoots::new()),
                        }
                    } else {
                        StorageProvenance::new(StorageRoots::new(), StorageRoots::new())
                    }
                } else if outputs == 1 && index == 0 {
                    own.duplicate()
                } else {
                    StorageProvenance::new(StorageRoots::new(), StorageRoots::new())
                }
            },
            OutputSource::Call(call) => match self.call_result(*call, index) {
                Some(result) => result.duplicate(),
                None => StorageProvenance::unknown(),
            },
            OutputSource::Other(own) => {
                if outputs == 1 && index == 0 {
                    own.duplicate()
                } else {
                    StorageProvenance::new(StorageRoots::new(), StorageRoots::new())
                }
            },
        }
    }

    /// Returns the storage-reference roots that output `index` of `outputs` receives from
    /// `source`.
    pub fn roots_for_output(&self, source: &OutputSource, index: usize, outputs: usize) -> (roots: StorageRoots)
        ensures
            roots@ == output_provenance(self@.2, *source, index as nat, outputs as nat).0,
    {
        self.provenance_for_output(source, index, outputs).reference_roots().duplicate()
    }

    /// Returns the numeric-slot roots that output `index` of `outputs` receives from `source`.
    pub fn slot_roots_for_output(&self, source: &OutputSource, index: usize, outputs: usize) -> (roots: StorageRoots)
        ensures
            roots@ == output_provenance(self@.2, *source, index as nat, outputs as nat).1,
    {
        self.provenance_for_output(source, index, outputs).slot_roots().duplicate()
    }

    /// Assigns the outputs of `value` to declared or assigned variables by position: each present
    /// variable, declared with its storage kind, takes the provenance of its output, all outputs
    /// being read before any is bound.
    pub fn assign_variables(&mut self, variables: &[Option<(VariableId, VariableStorage)>], value: &OutputSource)
        ensures
            final(self)@.0 == bound_references(
                old(self)@.0,
                output_bindings(old(self)@.2, variables@, *value, variables@.len()),
            ),
            final(self)@.1 == bound_slots(old(self)@.1, output_bindings(old(self)@.2, variables@, *value, variables@.len())),
            final(self)@.2 == old(self)@.2,
    {
        let mut bindings: Vec<(VariableId, VariableStorage, StorageRoots, StorageRoots)> = Vec::new();
        let mut i: usize = 0;
        while i < variables.len()
            invariant
                0 <= i <= variables@.len(),
                binding_views(bindings@) == output_bindings(self@.2, variables@, *value, i as nat),
            decreases variables@.len() - i,
        {
            let ghost before = binding_views(bindings@);
            match variables[i] {
                Some((variable, storage)) => {
                    let provenance = self.provenance_for_output(value, i, variables.len());
                    let references = provenance.reference_roots().duplicate();
                    let slots = provenance.slot_roots().duplicate();
                    bindings.push((variable, storage, references, slots));
                    proof {
                        assert(binding_views(bindings@) =~= before.push((variable, storage, references@, slots@)));
                    }
                },
                None => {},
            }
            i += 1;
        }
        self.apply_bindings(bindings);
    }

    /// Returns the reference roots flattened over all outputs of `call`; a call without a summary
    /// reaches any storage when its result is a storage or transient reference (`storage_typed`)
    /// and no storage otherwise.
    pub fn flattened_call_results(&self, call: ExprId, storage_typed: bool) -> (roots: StorageRoots)
        ensures
            roots@ == if self@.2.contains_key(call) {
                flattened_references(self@.2[call])
            } else if storage_typed {
                unknown_roots()
            } else {
                (Set::<VariableId>::empty(), false)
            },
    {
        match self.call_results.outputs(call) {
            Some(outputs) => {
                let roots = crate::storage_roots::flatten_reference_roots(outputs);
                proof {
                    let summary = self@.2[call];
                    assert forall|k: int| 0 <= k < outputs@.len() implies #[trigger] summary[k] == outputs@[k]@ by {
                        assert(crate::call_results::views(outputs@)[k] == outputs@[k]@);
                    }
                    assert(roots@.0 =~= flattened_references(summary).0) by {
                        assert forall|v: VariableId| roots@.0.contains(v) implies flattened_references(summary).0.contains(v) by {
                            let k = choose|k: int| 0 <= k < outputs@.len() && (#[trigger] outputs@[k]@).0.0.contains(v);
                            assert(summary[k] == outputs@[k]@);
                        }
                        assert forall|v: VariableId| flattened_references(summary).0.contains(v) implies roots@.0.contains(v) by {
                            let k = choose|k: int| 0 <= k < summary.len() && summary[k].0.0.contains(v);
                            assert(summary[k] == outputs@[k]@);
                        }
                    }
                    if roots@.1 {
                        let k = choose|k: int| 0 <= k < outputs@.len() && (#[trigger] outputs@[k]@).0.1;
                        assert(summary[k] == outputs@[k]@);
                    } else {
                        assert forall|k: int| 0 <= k < summary.len() implies !summary[k].0.1 by {
                            assert(summary[k] == outputs@[k]@);
                        }
                    }
                }
                roots
            },
            None => if storage_typed {
                StorageRoots::unknown()
            } else {
                StorageRoots::new()
            },
        }
    }

    /// Returns the slot roots flattened over all outputs of `call`, when the call is summarized.
    pub fn flattened_call_slots(&self, call: ExprId) -> (roots: Option<StorageRoots>)
        ensures
            roots is Some <==> self@.2.contains_key(call),
            roots is Some ==> roots->0@ == flattened_slots(self@.2[call]),
    {
        match self.call_results.outputs(call) {
            Some(outputs) => {
                let roots = crate::storage_roots::flatten_slot_roots(outputs);
                proof {
                    let summary = self@.2[call];
                    assert forall|k: int| 0 <= k < outputs@.len() implies #[trigger] summary[k] == outputs@[k]@ by {
                        assert(crate::call_results::views(outputs@)[k] == outputs@[k]@);
                    }
                    assert(roots@.0 =~= flattened_slots(summary).0) by {
                        assert forall|v: VariableId| roots@.0.contains(v) implies flattened_slots(summary).0.contains(v) by {
                            let k = choose|k: int| 0 <= k < outputs@.len() && (#[trigger] outputs@[k]@).1.0.contains(v);
                            assert(summary[k] == outputs@[k]@);
                        }
                        assert forall|v: VariableId| flattened_slots(summary).0.contains(v) implies roots@.0.contains(v) by {
                            let k = choose|k: int| 0 <= k < summary.len() && summary[k].1.0.contains(v);
                            assert(summary[k] == outputs@[k]@);
                        }
                    }
                    if roots@.1 {
                        let k = choose|k: int| 0 <= k < outputs@.len() && (#[trigger] outputs@[k]@).1.1;
                        assert(summary[k] == outputs@[k]@);
                    } else {
                        assert forall|k: int| 0 <= k < summary.len() implies !summary[k].1.1 by {
                            assert(summary[k] == outputs@[k]@);
                        }
                    }
                }
                Some(roots)
            },
            None => None,
        }
    }

    /// Returns a copy of this state.
    pub fn duplicate(&self) -> (copy: Self)
        ensures
            copy@ == self@,
    {
        StorageAliasState {
            references: copy_root_map(&self.references),
            slots: copy_root_map(&self.slots),
            call_results: self.call_results.duplicate(),
        }
    }
}

/// `map` with the entries of `variables` taken from `caller`: present where the caller has one.
pub open spec fn restored(
    map: Map<VariableId, (Set<VariableId>, bool)>,
    caller: Map<VariableId, (Set<VariableId>, bool)>,
    variables: Set<VariableId>,
) -> Map<VariableId, (Set<VariableId>, bool)> {
    Map::new(
        |v: VariableId| if variables.contains(v) { caller.contains_key(v) } else { map.contains_key(v) },
        |v: VariableId| if variables.contains(v) { caller[v] } else { map[v] },
    )
}

proof fn lemma_restored_insert(
    map: Map<VariableId, (Set<VariableId>, bool)>,
    caller: Map<VariableId, (Set<VariableId>, bool)>,
    variables: Set<VariableId>,
    variable: VariableId,
)
    ensures
        ({
            let before = restored(map, caller, variables);
            let after = if caller.contains_key(variable) {
                before.insert(variable, caller[variable])
            } else {
                before.remove(variable)
            };
            after == restored(map, caller, variables.insert(variable))
        }),
{
    let before = restored(map, caller, variables);
    let after = if caller.contains_key(variable) {
        before.insert(variable, caller[variable])
    } else {
        before.remove(variable)
    };
    assert(after =~= restored(map, caller, variables.insert(variable)));
}

/// Sets the entry of `variable` in `map` to the one in `caller`, or removes it when `caller` has
/// none.
fn restore_entry(map: &mut KeyedVec<VariableId, StorageRoots>, caller: &KeyedVec<VariableId, StorageRoots>, variable: VariableId)
    ensures
        final(map)@ == if caller@.contains_key(variable) {
            old(map)@.insert(variable, caller@[variable])
        } else {
            old(map)@.remove(variable)
        },
{
    match caller.get(variable) {
        Some(roots) => {
            map.insert(variable, roots.duplicate());
        },
        None => {
            let _ = map.remove(variable);
        },
    }
}

/// Returns a copy of a root map.
fn copy_root_map(map: &KeyedVec<VariableId, StorageRoots>) -> (copy: KeyedVec<VariableId, StorageRoots>)
    ensures
        copy@ == map@,
{
    let mut copy: KeyedVec<VariableId, StorageRoots> = KeyedVec::new();
    let keys = map.keys();
    let mut i: usize = 0;
    while i < keys.len()
        invariant
            0 <= i <= keys@.len(),
            forall|k: int| 0 <= k < keys@.len() ==> map@.contains_key(#[trigger] keys@[k]),
            copy@ == Map::new(
                |v: VariableId| keys@.subrange(0, i as int).contains(v),
                |v: VariableId| map@[v],
            ),
        decreases keys@.len() - i,
    {
        let key = keys[i];
        proof {
            assert(map@.contains_key(keys@[i as int]));
        }
        match map.get(key) {
            Some(roots) => {
                copy.insert(key, roots.duplicate());
            },
            None => {},
        }
        proof {
            let target = Map::new(
                |v: VariableId| keys@.subrange(0, i + 1).contains(v),
                |v: VariableId| map@[v],
            );
            assert forall|v: VariableId| #[trigger] copy@.contains_key(v) == target.contains_key(v) by {
                assert(target.contains_key(v) == keys@.subrange(0, i + 1).contains(v));
                assert(keys@.subrange(0, i + 1).contains(v) <==> (keys@.subrange(0, i as int).contains(v) || v == key)) by {
                    if keys@.subrange(0, i + 1).contains(v) {
                        let k = choose|k: int| 0 <= k < i + 1 && #[trigger] keys@.subrange(0, i + 1)[k] == v;
                        if k < i {
                            assert(keys@.subrange(0, i as int)[k] == v);
                        }
                    }
                    if keys@.subrange(0, i as int).contains(v) {
                        let k = choose|k: int| 0 <= k < i && #[trigger] keys@.subrange(0, i as int)[k] == v;
                        assert(keys@.subrange(0, i + 1)[k] == v);
                    }
                    if v == key {
                        assert(keys@.subrange(0, i + 1)[i as int] == v);
                    }
                }
            }
            assert forall|v: VariableId| #[trigger] copy@.contains_key(v) implies copy@[v] == target[v] by {
            }
            assert(copy@ =~= target);
        }
        i += 1;
    }
    proof {
        assert(keys@.subrange(0, keys@.len() as int) =~= keys@);
        assert(copy@ =~= map@);
    }
    copy
}

impl Default for StorageAliasState {
    fn default() -> (state: Self)
        ensures
            state@.0 == Map::<VariableId, (Set<VariableId>, bool)>::empty(),
            state@.1 == Map::<VariableId, (Set<VariableId>, bool)>::empty(),
            state@.2 == Map::<ExprId, Seq<((Set<VariableId>, bool), (Set<VariableId>, bool))>>::empty(),
    {
        StorageAliasState::new()
    }
}

impl Clone for StorageAliasState {
    fn clone(&self) -> (copy: Self)
        ensures
            copy@ == self@,
    {
        self.duplicate()
    }
}

impl JoinSemiLattice for StorageAliasState {
    open spec fn spec_join(lhs: Self::V, rhs: Self::V) -> Self::V {
        (
            join_root_maps(lhs.0, rhs.0),
            join_root_maps(lhs.1, rhs.1),
            <CallResults<StorageProvenance> as JoinSemiLattice>::spec_join(lhs.2, rhs.2),
        )
    }

    proof fn lemma_clone_preserves_view() {
    }

    fn join(&mut self, other: &Self) -> (changed: bool) {
        let references_changed = join_root_map(&mut self.references, &other.references);
        let slots_changed = join_root_map(&mut self.slots, &other.slots);
        let calls_changed = self.call_results.join(&other.call_results);
        references_changed || slots_changed || calls_changed
    }
}

} // verus!
