//! The standard lint state: value flow and storage provenance side by side.

use vstd::prelude::*;

use crate::ids::{ExprId, VariableId};
use crate::lattice::JoinSemiLattice;
use crate::storage_alias::{no_provenance, StorageAliasState};
use crate::value::{OriginView, ValueProperty};
use crate::value_flow::{empty_flow, PlaceView, ValueFlowState};

verus! {

/// Standard source-level facts shared by lints which need both values and storage provenance.
///
/// The view is the view of the value flow and the view of the storage provenance.
#[derive(Debug)]
pub struct LintFlowState<P> {
    values: ValueFlowState<P>,
    storage: StorageAliasState,
}

impl<P> View for LintFlowState<P> {
    type V = (<ValueFlowState<P> as View>::V, <StorageAliasState as View>::V);

    closed spec fn view(&self) -> Self::V {
        (self.values@, self.storage@)
    }
}

impl<P> LintFlowState<P> {
    /// The value-flow component.
    pub closed spec fn spec_values(&self) -> ValueFlowState<P> {
        self.values
    }

    /// The storage-provenance component.
    pub closed spec fn spec_storage(&self) -> StorageAliasState {
        self.storage
    }
}

impl<P: ValueProperty> LintFlowState<P> {
    /// Creates the standard lint state with `initial_property` for untouched values and no
    /// storage provenance.
    pub fn new(initial_property: P) -> (state: Self)
        ensures
            state@.0 == empty_flow(initial_property),
            state@.1 == no_provenance(),
    {
        LintFlowState { values: ValueFlowState::new(initial_property), storage: StorageAliasState::new() }
    }

    /// Returns the value-flow component.
    pub fn values(&self) -> (values: &ValueFlowState<P>)
        ensures
            *values == self.spec_values(),
            values@ == self@.0,
    {
        &self.values
    }

    /// Returns mutable access to the value-flow component.
    pub fn values_mut(&mut self) -> (values: &mut ValueFlowState<P>)
        ensures
            *values == old(self).spec_values(),
            final(self).spec_values() == *final(values),
            final(self).spec_storage() == old(self).spec_storage(),
    {
        &mut self.values
    }

    /// Returns the storage-provenance component.
    pub fn storage(&self) -> (storage: &StorageAliasState)
        ensures
            *storage == self.spec_storage(),
            storage@ == self@.1,
    {
        &self.storage
    }

    /// Returns mutable access to the storage-provenance component.
    pub fn storage_mut(&mut self) -> (storage: &mut StorageAliasState)
        ensures
            *storage == old(self).spec_storage(),
            final(self).spec_storage() == *final(storage),
            final(self).spec_values() == old(self).spec_values(),
    {
        &mut self.storage
    }

    /// Forgets the facts invalidated by an opaque source operation: values, recorded places,
    /// call results and storage provenance.
    pub fn forget(&mut self)
        ensures
            final(self)@.0 == (
                (Map::<VariableId, Seq<(OriginView, P)>>::empty(), old(self)@.0.0.1, old(self)@.0.0.2),
                Map::<PlaceView, Seq<(OriginView, P)>>::empty(),
                Map::<ExprId, Seq<Seq<(OriginView, P)>>>::empty(),
                old(self)@.0.3,
            ),
            final(self)@.1 == no_provenance(),
    {
        self.values.forget_values();
        self.storage.forget();
    }

    /// Returns a copy of this state.
    pub fn duplicate(&self) -> (copy: Self)
        ensures
            copy@ == self@,
    {
        LintFlowState { values: self.values.duplicate(), storage: self.storage.duplicate() }
    }
}

impl<P: ValueProperty> Clone for LintFlowState<P> {
    fn clone(&self) -> (copy: Self)
        ensures
            copy@ == self@,
    {
        self.duplicate()
    }
}

impl<P: ValueProperty> JoinSemiLattice for LintFlowState<P> {
    open spec fn spec_join(lhs: Self::V, rhs: Self::V) -> Self::V {
        (
            <ValueFlowState<P> as JoinSemiLattice>::spec_join(lhs.0, rhs.0),
            <StorageAliasState as JoinSemiLattice>::spec_join(lhs.1, rhs.1),
        )
    }

    proof fn lemma_clone_preserves_view() {
    }

    fn join(&mut self, other: &Self) -> (changed: bool) {
        let values_changed = self.values.join(&other.values);
        let storage_changed = self.storage.join(&other.storage);
        values_changed || storage_changed
    }
}

} // verus!
