use solar_sema::effective::EffectiveBodyCx;
use solar_sema::ids::{ContractId, ExprId, FunctionId, Span, VariableId};
use solar_sema::lattice::JoinSemiLattice;
use solar_sema::references::{
    build_function_reference_index, collect_value_targets, resolve_value_targets, FunctionReference, FunctionReferenceKind,
    FunctionValueTarget, FunctionValueTargets, ValueExpr,
};
use solar_sema::variables::VarKind;

#[test]
fn bare_virtual_references_keep_dynamic_dispatch() {
    let f = FunctionId::new(3);
    assert!(FunctionValueTarget::from_reference(f, true, true).requires_virtual_dispatch());
    assert!(!FunctionValueTarget::from_reference(f, true, false).requires_virtual_dispatch());
    assert!(!FunctionValueTarget::from_reference(f, false, true).requires_virtual_dispatch());
    assert_eq!(FunctionValueTarget::from_reference(f, true, true).function(), f);
}

#[test]
fn function_value_targets_join_as_sets() {
    let a = FunctionValueTarget::from_reference(FunctionId::new(1), false, true);
    let b = FunctionValueTarget::from_reference(FunctionId::new(2), false, true);
    let mut targets = FunctionValueTargets::singleton(a);
    assert!(!targets.join(&FunctionValueTargets::singleton(a)));
    assert!(targets.join(&FunctionValueTargets::singleton(b)));
    assert_eq!(targets.known(), [a, b].as_slice());
    assert!(!targets.may_be_unknown());
    assert!(targets.join(&FunctionValueTargets::unknown()));
    assert!(targets.may_be_unknown());
    assert!(FunctionValueTargets::complete().known().is_empty());
}

fn reference(expr: usize, kind: FunctionReferenceKind) -> FunctionReference {
    FunctionReference { expr: ExprId::new(expr), span: Span { lo: 0, hi: 1 }, owner: None, kind }
}

fn target(function: usize) -> FunctionValueTarget {
    FunctionValueTarget::from_reference(FunctionId::new(function), false, true)
}

#[test]
fn only_internal_uses_count_as_internal_references() {
    let references = vec![
        vec![reference(0, FunctionReferenceKind::ExternalCall)],
        vec![reference(1, FunctionReferenceKind::ExternalCall), reference(2, FunctionReferenceKind::Value)],
        vec![reference(3, FunctionReferenceKind::InternalCall)],
        vec![],
    ];
    let index = build_function_reference_index(references, &[], &[]);
    assert!(!index.is_internally_referenced(FunctionId::new(0)));
    assert!(index.is_internally_referenced(FunctionId::new(1)));
    assert!(index.is_internally_referenced(FunctionId::new(2)));
    assert!(!index.is_internally_referenced(FunctionId::new(3)));
    assert!(index.is_referenced(FunctionId::new(0)));
    assert!(!index.is_referenced(FunctionId::new(3)));
    assert_eq!(index.references_to(FunctionId::new(1)).len(), 2);
    assert_eq!(index.references_to(FunctionId::new(2))[0].expr, ExprId::new(3));
}

#[test]
fn resolves_value_targets_through_cycles() {
    let (a, b, c, d) = (target(1), target(2), target(3), target(4));
    let kinds = [VarKind::State, VarKind::Statement, VarKind::Statement, VarKind::FunctionParam];
    let bindings = vec![
        (VariableId::new(1), Some(ValueExpr::Function(a))),
        (
            VariableId::new(2),
            Some(ValueExpr::Ternary(
                Box::new(ValueExpr::Variable(VariableId::new(1))),
                Box::new(ValueExpr::Candidates(vec![b, c, b])),
            )),
        ),
        (VariableId::new(1), Some(ValueExpr::Variable(VariableId::new(2)))),
        (VariableId::new(3), Some(ValueExpr::Function(d))),
    ];
    let targets = resolve_value_targets(&kinds, &bindings);
    assert_eq!(targets.len(), 4);
    assert!(targets[0].known().is_empty());
    assert!(targets[0].may_be_unknown());
    assert_eq!(targets[1].known(), [a, b, c].as_slice());
    assert!(targets[1].may_be_unknown());
    assert_eq!(targets[2].known(), [a, b, c].as_slice());
    assert!(targets[2].may_be_unknown());
    assert_eq!(targets[3].known(), [d].as_slice());
    assert!(targets[3].may_be_unknown());
}

#[test]
fn local_values_with_known_bindings_are_complete() {
    let (a, b) = (target(1), target(2));
    let kinds = [VarKind::State, VarKind::Statement, VarKind::Statement];
    let bindings = vec![
        (VariableId::new(1), Some(ValueExpr::Function(a))),
        (VariableId::new(2), Some(ValueExpr::Tuple(vec![Some(ValueExpr::Variable(VariableId::new(1)))]))),
    ];
    let index = build_function_reference_index(vec![], &kinds, &bindings);
    let tuple = ValueExpr::Tuple(vec![
        Some(ValueExpr::Variable(VariableId::new(2))),
        None,
        Some(ValueExpr::Function(b)),
    ]);
    let targets = index.possible_value_targets(&tuple);
    assert_eq!(targets.known(), [a, b].as_slice());
    assert!(!targets.may_be_unknown());
    let assigned = index.possible_value_targets(&ValueExpr::Assign(Box::new(ValueExpr::Variable(VariableId::new(1)))));
    assert_eq!(assigned.known(), [a].as_slice());
    assert!(!assigned.may_be_unknown());
    assert!(index.possible_value_targets(&ValueExpr::Other).may_be_unknown());
    let state = index.possible_value_targets(&ValueExpr::Variable(VariableId::new(0)));
    assert!(state.known().is_empty());
    assert!(state.may_be_unknown());
}

#[test]
fn deleting_a_local_makes_its_targets_unknown() {
    let a = target(1);
    let kinds = [VarKind::Statement];
    let bindings = vec![(VariableId::new(0), Some(ValueExpr::Function(a))), (VariableId::new(0), None)];
    let targets = resolve_value_targets(&kinds, &bindings);
    assert_eq!(targets[0].known(), [a].as_slice());
    assert!(targets[0].may_be_unknown());
    let direct = collect_value_targets(&ValueExpr::Candidates(vec![a, a]), &targets);
    assert_eq!(direct.known(), [a].as_slice());
    assert!(direct.may_be_unknown());
}

#[test]
fn effective_body_context_reports_loops_and_calls() {
    let root = FunctionId::new(0);
    let callee = FunctionId::new(4);
    let root_cx = EffectiveBodyCx::new(Some(ContractId::new(1)), root, None, 0, 0, None, true);
    assert!(root_cx.is_root());
    assert_eq!(root_cx.function(), root);
    assert!(!root_cx.in_loop());
    assert_eq!(root_cx.dispatch_contract(), Some(ContractId::new(1)));
    let in_call = EffectiveBodyCx::new(Some(ContractId::new(1)), root, Some(callee), 2, 1, Some(1), false);
    assert!(!in_call.is_root());
    assert_eq!(in_call.function(), callee);
    assert!(in_call.in_loop());
    assert!(!in_call.in_enclosing_loop());
    assert_eq!(in_call.call_depth(), 1);
    assert_eq!(in_call.loop_depth(), 2);
    assert!(!in_call.reports_enabled());
    assert_eq!(in_call.root_function(), root);
    let inherited = EffectiveBodyCx::new(None, root, Some(callee), 1, 1, Some(1), true);
    assert!(inherited.in_enclosing_loop());
}
