use solar_sema::ids::{ExprId, VariableId};
use solar_sema::lattice::JoinSemiLattice;
use solar_sema::storage_alias::{OutputSource, StorageAliasState, VariableStorage};
use solar_sema::storage_roots::{StorageProvenance, StorageRoots};

fn v(index: usize) -> VariableId {
    VariableId::new(index)
}

#[test]
fn absent_entries_are_unknown_roots() {
    let state = StorageAliasState::new();
    assert!(state.slot_value_roots(v(0)).may_be_unknown());
    assert!(state.reference_roots(v(0), VariableStorage::Reference).may_be_unknown());
    assert_eq!(state.reference_roots(v(0), VariableStorage::State).known_roots(), Some([v(0)].as_slice()));
    assert!(state.reference_roots(v(0), VariableStorage::Other).is_empty());
    assert!(state.variable_roots(None, VariableStorage::State).is_empty());
}

#[test]
fn joins_roots_per_variable_and_treats_missing_entries_as_unknown() {
    let mut left = StorageAliasState::new();
    left.set_slot(v(1), StorageRoots::singleton(v(10)));
    left.set_reference(v(2), VariableStorage::Reference, StorageRoots::singleton(v(11)));
    let mut right = StorageAliasState::new();
    right.set_slot(v(1), StorageRoots::singleton(v(12)));
    right.set_reference(v(2), VariableStorage::Reference, StorageRoots::singleton(v(11)));

    assert!(left.join(&right));
    assert_eq!(left.slot_value_roots(v(1)).known_roots(), Some([v(10), v(12)].as_slice()));
    assert_eq!(left.reference_roots(v(2), VariableStorage::Reference).known_roots(), Some([v(11)].as_slice()));
    assert!(!left.join(&right));

    let mut only_here = StorageAliasState::new();
    only_here.set_slot(v(3), StorageRoots::new());
    assert!(only_here.join(&StorageAliasState::new()));
    assert!(only_here.slot_value_roots(v(3)).may_be_unknown());
}

#[test]
fn activations_restore_the_callers_entries() {
    let mut caller = StorageAliasState::new();
    caller.set_slot(v(1), StorageRoots::singleton(v(20)));
    let mut callee = caller.clone();
    callee.set_slot(v(1), StorageRoots::singleton(v(21)));
    callee.set_slot(v(2), StorageRoots::singleton(v(22)));
    callee.set_reference(v(3), VariableStorage::Reference, StorageRoots::new());
    callee.set_reference(v(3), VariableStorage::Other, StorageRoots::new());
    assert!(callee.reference_roots(v(3), VariableStorage::Reference).may_be_unknown());
    callee.return_from_modifier(&[v(1), v(2)], &caller);
    assert_eq!(callee.slot_value_roots(v(1)).known_roots(), Some([v(20)].as_slice()));
    assert!(callee.slot_value_roots(v(2)).may_be_unknown());

    callee.set_call_results(ExprId::new(5), vec![StorageProvenance::new(StorageRoots::new(), StorageRoots::singleton(v(7)))]);
    assert!(callee.call_result(ExprId::new(5), 0).is_some());
    assert!(callee.call_result(ExprId::new(5), 1).is_none());
    callee.forget();
    assert!(callee.call_result(ExprId::new(5), 0).is_none());
    assert!(callee.slot_value_roots(v(1)).may_be_unknown());
}

#[test]
fn binding_parameters_records_roots_and_clears_return_variables() {
    let mut state = StorageAliasState::new();
    state.set_reference(v(3), VariableStorage::Reference, StorageRoots::singleton(v(30)));
    state.bind_parameters(
        vec![
            (v(1), VariableStorage::Reference, StorageRoots::singleton(v(10)), StorageRoots::singleton(v(11))),
            (v(2), VariableStorage::Other, StorageRoots::singleton(v(12)), StorageRoots::new()),
        ],
        &[(v(3), VariableStorage::Reference)],
    );
    assert_eq!(state.reference_roots(v(1), VariableStorage::Reference).known_roots(), Some([v(10)].as_slice()));
    assert_eq!(state.slot_value_roots(v(1)).known_roots(), Some([v(11)].as_slice()));
    assert!(state.reference_roots(v(2), VariableStorage::Reference).may_be_unknown());
    assert!(state.slot_value_roots(v(2)).is_empty());
    assert!(state.reference_roots(v(3), VariableStorage::Reference).is_empty());
    assert!(state.slot_value_roots(v(3)).is_empty());
}

#[test]
fn returning_from_a_call_records_outputs_and_restores_the_caller() {
    let caller = StorageAliasState::new();
    let mut callee = StorageAliasState::new();
    callee.set_reference(v(1), VariableStorage::Reference, StorageRoots::singleton(v(10)));
    callee.set_slot(v(1), StorageRoots::singleton(v(11)));
    callee.set_slot(v(2), StorageRoots::new());
    let call = ExprId::new(5);

    callee.return_from_call(
        call,
        &[v(1), v(2)],
        &[(v(1), VariableStorage::Reference), (v(2), VariableStorage::Other)],
        false,
        &caller,
    );

    let first = callee.call_result(call, 0).unwrap();
    assert_eq!(first.reference_roots().known_roots(), Some([v(10)].as_slice()));
    assert_eq!(first.slot_roots().known_roots(), Some([v(11)].as_slice()));
    let second = callee.call_result(call, 1).unwrap();
    assert!(second.reference_roots().is_empty());
    assert!(second.slot_roots().is_empty());
    assert!(callee.reference_roots(v(1), VariableStorage::Reference).may_be_unknown());
    assert!(callee.slot_value_roots(v(1)).may_be_unknown());

    let mut yul = StorageAliasState::new();
    yul.set_reference(v(1), VariableStorage::Reference, StorageRoots::singleton(v(10)));
    yul.return_from_call(call, &[], &[(v(1), VariableStorage::Reference)], true, &caller);
    assert!(yul.call_result(call, 0).unwrap().reference_roots().is_empty());
    assert!(yul.call_result(call, 0).unwrap().slot_roots().may_be_unknown());
}

fn provenance(reference: usize, slot: usize) -> StorageProvenance {
    StorageProvenance::new(StorageRoots::singleton(v(reference)), StorageRoots::singleton(v(slot)))
}

#[test]
fn tuple_outputs_take_their_components() {
    let state = StorageAliasState::new();
    let source = OutputSource::Tuple(provenance(1, 2), vec![Some(provenance(3, 4)), None]);
    assert_eq!(state.roots_for_output(&source, 0, 2).known_roots(), Some([v(3)].as_slice()));
    assert_eq!(state.slot_roots_for_output(&source, 0, 2).known_roots(), Some([v(4)].as_slice()));
    assert!(state.roots_for_output(&source, 1, 2).is_empty());
    assert!(state.roots_for_output(&source, 5, 2).is_empty());
    assert_eq!(state.roots_for_output(&source, 0, 1).known_roots(), Some([v(1)].as_slice()));
}

#[test]
fn call_outputs_come_from_summaries_or_are_unknown() {
    let mut state = StorageAliasState::new();
    state.set_call_results(ExprId::new(9), vec![provenance(5, 6)]);
    let call = OutputSource::Call(ExprId::new(9));
    assert_eq!(state.roots_for_output(&call, 0, 2).known_roots(), Some([v(5)].as_slice()));
    assert_eq!(state.slot_roots_for_output(&call, 0, 2).known_roots(), Some([v(6)].as_slice()));
    assert!(state.roots_for_output(&call, 1, 2).may_be_unknown());
    assert!(state.slot_roots_for_output(&OutputSource::Call(ExprId::new(8)), 0, 1).may_be_unknown());
}

#[test]
fn other_values_feed_only_a_single_output() {
    let state = StorageAliasState::new();
    let source = OutputSource::Other(provenance(7, 8));
    assert_eq!(state.roots_for_output(&source, 0, 1).known_roots(), Some([v(7)].as_slice()));
    assert!(state.roots_for_output(&source, 0, 2).is_empty());
    assert!(state.slot_roots_for_output(&source, 1, 1).is_empty());
}

#[test]
fn assigning_variables_binds_each_output() {
    let mut state = StorageAliasState::new();
    state.set_reference(v(21), VariableStorage::Reference, StorageRoots::singleton(v(30)));
    let source = OutputSource::Tuple(provenance(1, 2), vec![Some(provenance(3, 4)), Some(provenance(5, 6))]);
    state.assign_variables(
        &[Some((v(20), VariableStorage::Reference)), None, Some((v(21), VariableStorage::Other))],
        &source,
    );
    assert_eq!(state.reference_roots(v(20), VariableStorage::Reference).known_roots(), Some([v(3)].as_slice()));
    assert_eq!(state.slot_value_roots(v(20)).known_roots(), Some([v(4)].as_slice()));
    // The third output has no component: the variable is bound to empty roots, and, not being a
    // storage reference, drops its reference entry.
    assert!(state.slot_value_roots(v(21)).is_empty());
    assert!(state.reference_roots(v(21), VariableStorage::Reference).may_be_unknown());
}

#[test]
fn clearing_returns_empties_their_roots() {
    let mut state = StorageAliasState::new();
    state.set_reference(v(1), VariableStorage::Reference, StorageRoots::singleton(v(9)));
    state.set_slot(v(1), StorageRoots::singleton(v(9)));
    state.clear_returns(&[(v(1), VariableStorage::Reference)]);
    assert!(state.reference_roots(v(1), VariableStorage::Reference).is_empty());
    assert!(state.slot_value_roots(v(1)).is_empty());
}

#[test]
fn flattened_call_results_union_references() {
    let mut state = StorageAliasState::new();
    state.set_call_results(ExprId::new(4), vec![provenance(2, 9), provenance(1, 9)]);
    assert_eq!(state.flattened_call_results(ExprId::new(4), false).known_roots(), Some([v(1), v(2)].as_slice()));
    assert!(state.flattened_call_results(ExprId::new(5), true).may_be_unknown());
    assert!(state.flattened_call_results(ExprId::new(5), false).is_empty());
    assert!(!state.flattened_call_results(ExprId::new(5), false).may_be_unknown());
}
