use solar_sema::ids::{ExprId, VariableId};
use solar_sema::lattice::JoinSemiLattice;
use solar_sema::place::Place;
use solar_sema::value::{EvaluatedSites, ValueGeneration, ValueOrigin, ValueSet, ValueState};
use solar_sema::value_flow::ValueFlowState;

fn variable(index: usize) -> VariableId {
    VariableId::new(index)
}

fn expr(index: usize) -> ExprId {
    ExprId::new(index)
}

#[test]
fn joins_properties_per_reaching_value() {
    let target = variable(0);
    let mut left = ValueState::new(false);
    left.invalidate(target, expr(0), true);
    let mut right = ValueState::new(false);
    right.invalidate(target, expr(1), true);

    assert!(left.join(&right));
    assert!(left.variable(target).all(|value| *value.property()));

    let mut unsafe_path = ValueState::new(false);
    unsafe_path.invalidate(target, expr(0), false);
    assert!(left.join(&unsafe_path));
    assert!(!left.variable(target).all(|value| *value.property()));
}

#[test]
fn empty_values_do_not_prove_properties() {
    assert!(!ValueSet::<bool>::default().is_proven(|value| *value.property()));
}

#[test]
fn seeds_properties_for_untouched_variables() {
    let target = variable(0);
    let mut state = ValueState::new(false);

    state.seed(target, true);
    assert!(state.variable(target).all(|value| *value.property()));

    let mut branch = state.clone();
    branch.invalidate(variable(1), expr(0), false);
    assert!(state.join(&branch));
    assert!(state.variable(target).all(|value| *value.property()));

    state.forget();
    assert!(state.variable(target).all(|value| *value.property()));
}

#[test]
fn updates_materialized_aliases_by_origin() {
    let source = variable(0);
    let alias = variable(1);
    let mut state = ValueState::new(false);
    let source_values = state.variable(source);
    state.set(source, source_values.clone());
    state.set(alias, source_values.clone());
    state.update_definite_aliases(&source_values, |_property: &bool| true);

    assert!(state.variable(source).all(|value| *value.property()));
    assert!(state.variable(alias).all(|value| *value.property()));
}

#[test]
fn updates_implicit_origin_variable() {
    let source = variable(0);
    let alias = variable(1);
    let mut state = ValueState::new(false);
    let source_values = state.variable(source);
    state.set(alias, source_values.clone());
    state.update_definite_aliases(&source_values, |_property: &bool| true);

    assert!(state.variable(source).all(|value| *value.property()));
    assert!(state.variable(alias).all(|value| *value.property()));
}

#[test]
fn does_not_treat_joined_origins_as_definite_aliases() {
    let a = variable(0);
    let b = variable(1);
    let x = variable(2);
    let y = variable(3);
    let mut alternatives = ValueState::new(false).variable(a);
    let _ = alternatives.join(&ValueState::new(false).variable(b));

    let mut state = ValueState::new(false);
    state.set(x, alternatives.clone());
    state.set(y, alternatives.clone());
    state.update_definite_aliases(&alternatives, |_property: &bool| true);

    assert!(!state.variable(x).all(|value| *value.property()));
    assert!(!state.variable(y).all(|value| *value.property()));
}

#[test]
fn does_not_treat_expression_sites_as_dynamic_aliases() {
    let x = variable(0);
    let y = variable(1);
    let value = ValueSet::singleton(ValueOrigin::Expr(expr(0)), false);
    let mut state = ValueState::new(false);
    state.set(x, value.clone());
    state.set(y, value.clone());
    state.update_definite_aliases(&value, |_property: &bool| true);

    assert!(!state.variable(x).all(|value| *value.property()));
    assert!(!state.variable(y).all(|value| *value.property()));
}

#[test]
fn evaluation_multiplicity_distinguishes_paths_from_repetition() {
    let site = expr(0);
    let mut left = EvaluatedSites::default();
    let mut right = EvaluatedSites::default();
    assert!(!left.record(site));
    assert!(!right.record(site));
    assert!(!left.join(&right));
    assert!(left.is_correlatable(site));

    assert!(left.record(site));
    assert!(!left.is_correlatable(site));

    let mut flow = ValueFlowState::new(false);
    let mut repeated = ValueFlowState::new(false);
    repeated.record_evaluation(site);
    repeated.record_evaluation(site);
    assert!(flow.join(&repeated));
    assert!(!flow.evaluated_sites().is_correlatable(site));
    assert!(!flow.evaluated_sites().origin_is_correlatable(&ValueOrigin::Opaque(variable(0))));

    flow.forget_values();
    assert!(!flow.evaluated_sites().is_correlatable(site));
}

#[test]
fn detached_anchors_keep_the_source_identity() {
    let holder = variable(0);
    let detached_alias = variable(1);
    let identity = Place::from_local(holder);
    let generation = ValueGeneration::Initial(holder);
    let anchored_at_holder = ValueOrigin::place(identity.clone(), generation);
    let detached = ValueOrigin::Place { identity, anchor: Place::from_local(detached_alias), generation };
    assert!(anchored_at_holder.same_source(&detached));
    assert!(!anchored_at_holder.same_origin(&detached));
    assert!(EvaluatedSites::default().origins_are_correlatable(&anchored_at_holder, &detached));
    assert_eq!(anchored_at_holder.expr(), None);
    assert_eq!(ValueGeneration::CallResult(expr(4), 1).expr(), Some(expr(4)));
    assert_eq!(ValueOrigin::CallResult(expr(5), 0).expr(), Some(expr(5)));
    assert!(ValueOrigin::Initial(holder).same_source(&ValueOrigin::place(Place::from_local(holder), generation)));
    assert!(!ValueOrigin::Expr(expr(1)).same_source(&ValueOrigin::Expr(expr(2))));
}

#[test]
fn value_sets_report_common_origins_and_sources() {
    let a = variable(0);
    let mut values = ValueSet::singleton(ValueOrigin::Initial(a), false);
    assert!(values.common_origin().is_some());
    assert!(!values.join(&ValueSet::singleton(ValueOrigin::Initial(a), false)));
    assert!(values.join(&ValueSet::singleton(ValueOrigin::Initial(a), true)));
    assert_eq!(values.values().len(), 2);
    assert!(values.common_origin().is_some());
    assert!(values.any(|value| *value.property()));
    assert!(!values.is_proven(|value| *value.property()));
    let anchored = ValueOrigin::Place { identity: Place::from_local(a), anchor: Place::from_local(variable(1)), generation: ValueGeneration::Initial(a) };
    assert!(values.join(&ValueSet::singleton(anchored, true)));
    assert!(values.common_origin().is_none());
    assert!(values.common_source().is_some());
    values.update_matching(|origin| matches!(origin, ValueOrigin::Initial(_)), |_property: &bool| true);
    assert_eq!(values.values().len(), 2);
    assert!(values.is_proven(|value| *value.property()));
    assert!(ValueSet::<bool>::new().common_source().is_none());
}

#[test]
fn reset_values_are_opaque_and_invalidation_uses_the_site() {
    let target = variable(3);
    let mut state = ValueState::new(true);
    state.reset(target, false);
    let values = state.variable(target);
    let origin = values.common_origin().unwrap();
    assert!(matches!(origin, ValueOrigin::Opaque(v) if v == target));
    state.invalidate(target, expr(8), true);
    assert_eq!(state.variable(target).common_origin().unwrap().expr(), Some(expr(8)));
    assert_eq!(state.variables(), vec![target]);
    let computed = state.expr(None, expr(2), false);
    assert!(matches!(computed.common_origin().unwrap(), ValueOrigin::Expr(e) if e == expr(2)));
    let read = state.expr(Some(target), expr(2), false);
    assert!(read.all(|value| *value.property()));
}
