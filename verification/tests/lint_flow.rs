use solar_sema::ids::{ExprId, VariableId};
use solar_sema::lattice::JoinSemiLattice;
use solar_sema::lint_flow::LintFlowState;
use solar_sema::storage_roots::StorageRoots;
use solar_sema::value::{ValueOrigin, ValueSet};

fn v(index: usize) -> VariableId {
    VariableId::new(index)
}

#[test]
fn lint_state_joins_and_forgets_both_components() {
    let mut state = LintFlowState::new(false);
    state.values_mut().set_variable(v(0), ValueSet::singleton(ValueOrigin::Expr(ExprId::new(1)), true));
    state.storage_mut().set_slot(v(1), StorageRoots::singleton(v(2)));
    assert!(state.values().variable(v(0)).is_proven(|value| *value.property()));
    assert_eq!(state.storage().slot_value_roots(v(1)).known_roots(), Some([v(2)].as_slice()));

    let copy = state.clone();
    assert!(!state.join(&copy));

    let mut other = LintFlowState::new(false);
    other.values_mut().set_variable(v(0), ValueSet::singleton(ValueOrigin::Expr(ExprId::new(1)), true));
    other.storage_mut().set_slot(v(1), StorageRoots::singleton(v(3)));
    assert!(state.join(&other));
    assert_eq!(state.storage().slot_value_roots(v(1)).known_roots(), Some([v(2), v(3)].as_slice()));

    state.forget();
    assert!(!state.values().variable(v(0)).is_proven(|value| *value.property()));
    assert!(state.storage().slot_value_roots(v(1)).may_be_unknown());
}
