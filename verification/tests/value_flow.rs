use solar_sema::ids::{ExprId, Symbol, VariableId};
use solar_sema::lattice::JoinSemiLattice;
use solar_sema::place::{Place, ProjectionElem};
use solar_sema::value::{ValueGeneration, ValueOrigin, ValueSet};
use solar_sema::value_flow::ValueFlowState;

fn variable(index: usize) -> VariableId {
    VariableId::new(index)
}

fn expr(index: usize) -> ExprId {
    ExprId::new(index)
}

fn field(root: VariableId, name: u32) -> Place {
    let mut place = Place::from_local(root);
    place.push_projection(ProjectionElem::Field { name: Symbol(name), variable: None });
    place
}

fn only_origin(values: &ValueSet<bool>) -> ValueOrigin {
    assert_eq!(values.values().len(), 1);
    values.values()[0].origin()
}

#[test]
fn repeated_projected_generations_do_not_refine_stale_aliases() {
    let owner = variable(0);
    let selected = variable(1);
    let stale_alias = variable(2);
    let site = expr(0);
    let origin = ValueOrigin::place(Place::from_local(owner), ValueGeneration::Expr(site));
    let values = ValueSet::singleton(origin, false);
    let mut flow = ValueFlowState::new(false);
    flow.set_value(selected, values.clone());
    flow.set_value(stale_alias, values.clone());
    flow.record_evaluation(site);
    flow.record_evaluation(site);

    flow.refine_variable_aliases(selected, &values, &|_property: &bool| true);

    assert!(flow.variable(selected).is_proven(|value| *value.property()));
    assert!(!flow.variable(stale_alias).is_proven(|value| *value.property()));
}

#[test]
fn detached_anchor_refines_scalar_copy_by_stable_source() {
    let holder = variable(0);
    let detached_alias = variable(1);
    let scalar_copy = variable(2);
    let identity = Place::from_local(holder);
    let generation = ValueGeneration::Initial(holder);
    let original = ValueOrigin::place(identity.clone(), generation);
    let detached = ValueOrigin::Place { identity, anchor: Place::from_local(detached_alias), generation };
    let mut flow = ValueFlowState::new(false);
    flow.set_value(scalar_copy, ValueSet::singleton(original.clone(), false));
    let selected = ValueSet::singleton(detached.clone(), false);
    flow.set_value(detached_alias, selected.clone());

    flow.refine_variable_aliases(detached_alias, &selected, &|_property: &bool| true);

    assert!(flow.variable(detached_alias).is_proven(|value| *value.property()));
    assert!(flow.variable(scalar_copy).is_proven(|value| *value.property()));
    assert!(flow.evaluated_sites().origins_are_correlatable(&original, &detached));
}

#[test]
fn repeated_generations_reanchor_aliases_without_materialized_fields() {
    let current = variable(0);
    let saved = variable(1);
    let site = expr(0);
    let generation = ValueGeneration::CallResult(site, 0);
    let current_origin = ValueOrigin::place(Place::from_local(current), generation);
    let values = ValueSet::singleton(current_origin.clone(), false);
    let mut flow = ValueFlowState::new(false);
    flow.set_value(current, values.clone());
    flow.set_value(saved, values.clone());
    flow.record_evaluation(site);
    flow.record_evaluation(site);

    flow.set_variable(current, values);

    let saved_origin = flow.variable(saved).common_origin().unwrap();
    assert!(saved_origin.same_origin(&ValueOrigin::Place {
        identity: Place::from_local(current),
        anchor: Place::from_local(saved),
        generation,
    }));
    assert!(!current_origin.same_origin(&saved_origin));
    assert!(current_origin.same_source(&saved_origin));
    assert!(!flow.evaluated_sites().origins_are_correlatable(&current_origin, &saved_origin));
    assert!(flow.no_recorded_places());
}

#[test]
fn untouched_variables_read_their_initial_value() {
    let flow = ValueFlowState::new(true);
    let origin = only_origin(&flow.variable(variable(3)));
    assert!(origin.same_origin(&ValueOrigin::Initial(variable(3))));
    assert!(flow.variable(variable(3)).is_proven(|value| *value.property()));
    assert!(flow.no_recorded_places());
}

#[test]
fn binding_a_variable_reads_back_the_value() {
    let target = variable(0);
    let mut flow = ValueFlowState::new(false);
    flow.set_variable(target, ValueSet::singleton(ValueOrigin::Expr(expr(4)), true));
    let origin = only_origin(&flow.variable(target));
    assert!(origin.same_origin(&ValueOrigin::Expr(expr(4))));
    assert!(flow.variable(target).is_proven(|value| *value.property()));
}

#[test]
fn storing_a_field_reads_back_the_value() {
    let holder = variable(0);
    let place = field(holder, 7);
    let mut flow = ValueFlowState::new(false);
    assert!(flow.can_track_place(&place, false));
    let initial = only_origin(&flow.place_value(&place, false).unwrap());
    assert!(initial.same_origin(&ValueOrigin::place(place.clone(), ValueGeneration::Initial(holder))));

    flow.set_place(place.clone(), ValueSet::singleton(ValueOrigin::Expr(expr(1)), true));

    let stored = flow.place_value(&place, false).unwrap();
    assert!(only_origin(&stored).same_origin(&ValueOrigin::Expr(expr(1))));
    assert!(stored.is_proven(|value| *value.property()));
    assert!(!flow.no_recorded_places());
}

#[test]
fn state_backed_and_indexed_places_are_not_followed() {
    let holder = variable(0);
    let place = field(holder, 7);
    let mut indexed = Place::from_local(holder);
    indexed.push_projection(ProjectionElem::Index(Some(expr(2))));
    let flow = ValueFlowState::new(false);
    assert!(!flow.can_track_place(&place, true));
    assert!(flow.place_value(&place, true).is_none());
    assert!(!flow.can_track_place(&indexed, false));
    assert!(flow.can_track_place(&Place::from_local(holder), true));
}

#[test]
fn field_of_an_alias_is_shared_with_its_source() {
    let source = variable(0);
    let alias = variable(1);
    let mut flow = ValueFlowState::new(false);
    let source_values = flow.variable(source);
    flow.set_variable(alias, source_values);

    flow.set_place(field(alias, 3), ValueSet::singleton(ValueOrigin::Expr(expr(9)), true));

    let through_source = flow.place_value(&field(source, 3), false).unwrap();
    assert!(only_origin(&through_source).same_origin(&ValueOrigin::Expr(expr(9))));
}

#[test]
fn rebinding_the_source_detaches_its_alias() {
    let source = variable(0);
    let alias = variable(1);
    let mut flow = ValueFlowState::new(false);
    let source_values = flow.variable(source);
    flow.set_variable(alias, source_values);
    flow.set_place(field(source, 3), ValueSet::singleton(ValueOrigin::Expr(expr(9)), true));

    flow.set_variable(source, ValueSet::singleton(ValueOrigin::Expr(expr(10)), false));

    let alias_origin = only_origin(&flow.variable(alias));
    assert!(alias_origin.same_origin(&ValueOrigin::Place {
        identity: Place::from_local(source),
        anchor: Place::from_local(alias),
        generation: ValueGeneration::Initial(source),
    }));
    let moved = flow.place_value(&field(alias, 3), false).unwrap();
    assert!(only_origin(&moved).same_origin(&ValueOrigin::Expr(expr(9))));
    assert!(flow.place_value(&field(source, 3), false).is_none());
    assert!(!flow.can_track_place(&field(source, 3), false));
}

#[test]
fn invalidating_a_variable_drops_its_fields() {
    let holder = variable(0);
    let mut flow = ValueFlowState::new(false);
    flow.set_place(field(holder, 1), ValueSet::singleton(ValueOrigin::Expr(expr(1)), true));
    assert!(!flow.no_recorded_places());

    flow.invalidate_variable(holder, expr(2), false);

    assert!(flow.no_recorded_places());
    assert!(only_origin(&flow.variable(holder)).same_origin(&ValueOrigin::Expr(expr(2))));
}

#[test]
fn invalidating_a_state_projection_invalidates_its_root() {
    let holder = variable(0);
    let mut flow = ValueFlowState::new(false);
    flow.invalidate_lvalue(field(holder, 1), true, expr(5), true);
    assert!(only_origin(&flow.variable(holder)).same_origin(&ValueOrigin::Expr(expr(5))));
    assert!(flow.no_recorded_places());

    let mut local = ValueFlowState::new(false);
    local.invalidate_lvalue(field(holder, 1), false, expr(5), true);
    let stored = local.place_value(&field(holder, 1), false).unwrap();
    assert!(only_origin(&stored).same_origin(&ValueOrigin::Expr(expr(5))));
    assert!(only_origin(&local.variable(holder)).same_origin(&ValueOrigin::Initial(holder)));
}

#[test]
fn reading_a_whole_variable_observes_its_fields() {
    let holder = variable(0);
    let mut flow = ValueFlowState::new(false);
    flow.set_place(field(holder, 1), ValueSet::singleton(ValueOrigin::Expr(expr(1)), true));
    flow.set_place(field(holder, 2), ValueSet::singleton(ValueOrigin::Expr(expr(2)), true));

    let read = flow.values_read_from_place(&Place::from_local(holder));
    assert_eq!(read.values().len(), 3);
    assert!(read.values()[0].origin().same_origin(&ValueOrigin::Initial(holder)));
    assert!(read.any(|value| value.origin().same_origin(&ValueOrigin::Expr(expr(1)))));
    assert!(read.any(|value| value.origin().same_origin(&ValueOrigin::Expr(expr(2)))));
    let other = flow.values_read_from_place(&Place::from_local(variable(5)));
    assert_eq!(other.values().len(), 1);
}

#[test]
fn memory_assignment_turns_computed_values_into_places() {
    let target = variable(0);
    let mut flow = ValueFlowState::new(false);
    flow.assign_variable_value(target, true, ValueSet::singleton(ValueOrigin::Expr(expr(3)), true));
    assert!(only_origin(&flow.variable(target))
        .same_origin(&ValueOrigin::place(Place::from_local(target), ValueGeneration::Expr(expr(3)))));

    let mut scalar = ValueFlowState::new(false);
    scalar.assign_variable_value(target, false, ValueSet::singleton(ValueOrigin::Expr(expr(3)), true));
    assert!(only_origin(&scalar.variable(target)).same_origin(&ValueOrigin::Expr(expr(3))));
}

#[test]
fn deep_copy_copies_recorded_fields() {
    let source = variable(0);
    let target = variable(1);
    let mut flow = ValueFlowState::new(false);
    flow.set_place(field(source, 4), ValueSet::singleton(ValueOrigin::Expr(expr(1)), true));

    let values = flow.variable(source);
    flow.assign_variable_from_expr(target, true, true, expr(8), Some(Place::from_local(source)), values);

    let generation = ValueGeneration::Expr(expr(8));
    assert!(only_origin(&flow.variable(target)).same_origin(&ValueOrigin::place(Place::from_local(target), generation)));
    let copied = flow.place_value(&field(target, 4), false).unwrap();
    assert!(only_origin(&copied).same_origin(&ValueOrigin::place(field(target, 4), generation)));
    assert!(copied.is_proven(|value| *value.property()));
    let source_field = flow.place_value(&field(source, 4), false).unwrap();
    assert!(only_origin(&source_field).same_origin(&ValueOrigin::Expr(expr(1))));
}

#[test]
fn try_clauses_bind_call_outputs_on_success() {
    let call = expr(6);
    let first = variable(1);
    let second = variable(2);
    let mut flow = ValueFlowState::new(false);
    flow.set_call_results(call, vec![ValueSet::singleton(ValueOrigin::CallResult(call, 0), true)]);

    flow.bind_try_clause(call, &[first, second], true, false);
    assert!(only_origin(&flow.variable(first)).same_origin(&ValueOrigin::CallResult(call, 0)));
    assert!(only_origin(&flow.variable(second)).same_origin(&ValueOrigin::Opaque(second)));

    let mut failure = ValueFlowState::new(false);
    failure.set_call_results(call, vec![ValueSet::singleton(ValueOrigin::CallResult(call, 0), true)]);
    failure.bind_try_clause(call, &[first], false, false);
    assert!(only_origin(&failure.variable(first)).same_origin(&ValueOrigin::Opaque(first)));
}

#[test]
fn returning_from_a_call_restores_locals_and_records_outputs() {
    let call = expr(11);
    let caller_local = variable(0);
    let parameter = variable(1);
    let memory_return = variable(2);
    let scalar_return = variable(3);
    let caller = ValueFlowState::new(false);
    let mut callee = caller.clone();
    callee.set_variable(parameter, ValueSet::singleton(ValueOrigin::Expr(expr(1)), true));
    callee.set_variable(memory_return, ValueSet::singleton(ValueOrigin::Expr(expr(2)), true));
    callee.set_variable(scalar_return, ValueSet::singleton(ValueOrigin::Expr(expr(3)), true));
    let caller_values = callee.variable(caller_local);
    callee.set_variable(caller_local, caller_values);

    callee.return_from_call(
        call,
        &[parameter, memory_return, scalar_return],
        &[(memory_return, true), (scalar_return, false)],
        &caller,
    );

    assert!(only_origin(&callee.variable(parameter)).same_origin(&ValueOrigin::Initial(parameter)));
    assert!(only_origin(callee.call_result(call, 0).unwrap()).same_origin(&ValueOrigin::CallResult(call, 0)));
    assert!(only_origin(callee.call_result(call, 1).unwrap()).same_origin(&ValueOrigin::Expr(expr(3))));
    assert!(callee.call_result(call, 2).is_none());
}

#[test]
fn returning_from_a_modifier_restores_its_variables() {
    let parameter = variable(1);
    let kept = variable(2);
    let caller = ValueFlowState::new(false);
    let mut state = caller.clone();
    state.set_variable(parameter, ValueSet::singleton(ValueOrigin::Expr(expr(1)), true));
    state.set_variable(kept, ValueSet::singleton(ValueOrigin::Expr(expr(2)), true));

    state.return_from_modifier(&[parameter], &caller);

    assert!(only_origin(&state.variable(parameter)).same_origin(&ValueOrigin::Initial(parameter)));
    assert!(only_origin(&state.variable(kept)).same_origin(&ValueOrigin::Expr(expr(2))));
}

#[test]
fn refining_a_place_marks_its_alias() {
    let source = variable(0);
    let alias = variable(1);
    let mut flow = ValueFlowState::new(false);
    let source_values = flow.variable(source);
    flow.set_variable(alias, source_values);

    let prior = flow.refine_place(&Place::from_local(alias), false, |_property: &bool| true).unwrap();
    assert!(only_origin(&prior).same_origin(&ValueOrigin::Initial(source)));
    assert!(flow.variable(alias).is_proven(|value| *value.property()));
    assert!(flow.variable(source).is_proven(|value| *value.property()));

    assert!(flow.refine_place(&field(source, 1), true, |_property: &bool| true).is_none());
}

#[test]
fn joining_flow_states_joins_recorded_places() {
    let holder = variable(0);
    let mut left = ValueFlowState::new(false);
    left.set_place(field(holder, 1), ValueSet::singleton(ValueOrigin::Expr(expr(1)), true));
    let mut right = ValueFlowState::new(false);
    right.set_place(field(holder, 1), ValueSet::singleton(ValueOrigin::Expr(expr(2)), false));

    assert!(left.join(&right));
    let joined = left.place_value(&field(holder, 1), false).unwrap();
    assert_eq!(joined.values().len(), 2);
    assert!(!joined.is_proven(|value| *value.property()));
    let copy = left.clone();
    assert!(!left.join(&copy));
}

#[test]
fn refining_a_computed_value_marks_correlated_values() {
    let call = expr(20);
    let holder = variable(0);
    let result = ValueSet::singleton(ValueOrigin::CallResult(call, 0), false);
    let mut flow = ValueFlowState::new(false);
    flow.set_variable(holder, result.clone());

    flow.refine_value(Some(call), &result, |_property: &bool| true);

    assert!(flow.variable(holder).is_proven(|value| *value.property()));
    assert!(flow.call_result(call, 0).unwrap().is_proven(|value| *value.property()));
    assert!(flow.call_result(call, 1).is_none());

    let mut repeated = ValueFlowState::new(false);
    repeated.set_variable(holder, result.clone());
    repeated.record_evaluation(call);
    repeated.record_evaluation(call);
    repeated.refine_value(None, &result, |_property: &bool| true);
    assert!(!repeated.variable(holder).is_proven(|value| *value.property()));
    assert!(repeated.call_result(call, 0).is_none());
}
