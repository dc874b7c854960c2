use solar_sema::ids::{ExprId, VariableId};
use solar_sema::storage_alias::{StorageAliasState, VariableStorage};
use solar_sema::storage_exprs::{AliasExpr, AliasExprKind, YulMember};
use solar_sema::storage_roots::{StorageProvenance, StorageRoots};

fn v(index: usize) -> VariableId {
    VariableId::new(index)
}

fn expr(id: u32, kind: AliasExprKind) -> AliasExpr {
    AliasExpr { id: ExprId(id), kind }
}

fn ident(id: u32, variable: usize, storage: VariableStorage) -> AliasExpr {
    expr(id, AliasExprKind::Ident(Some(v(variable)), storage))
}

fn state() -> StorageAliasState {
    let mut state = StorageAliasState::new();
    // Local storage reference 1 points into state variable 10; local 2 holds a slot from 11.
    state.set_reference(v(1), VariableStorage::Reference, StorageRoots::singleton(v(10)));
    state.set_slot(v(2), StorageRoots::singleton(v(11)));
    state
}

#[test]
fn roots_follow_places_references_and_branches() {
    let state = state();
    let state_variable = ident(1, 10, VariableStorage::State);
    assert_eq!(state.roots(&state_variable).known_roots(), Some([v(10)].as_slice()));

    // reference.field[key] reaches what the reference reaches.
    let projected = expr(
        3,
        AliasExprKind::Index(
            Box::new(expr(2, AliasExprKind::Member(Box::new(ident(1, 1, VariableStorage::Reference))))),
            Some(Box::new(ident(4, 20, VariableStorage::Other))),
        ),
    );
    assert_eq!(state.roots(&projected).known_roots(), Some([v(10)].as_slice()));

    // cond ? stateVar : reference, parenthesized.
    let ternary = expr(
        5,
        AliasExprKind::Ternary(
            Box::new(expr(6, AliasExprKind::Leaf)),
            Box::new(ident(7, 12, VariableStorage::State)),
            Box::new(ident(8, 1, VariableStorage::Reference)),
        ),
    );
    let wrapped = expr(9, AliasExprKind::Tuple(vec![Some(ternary)]));
    assert_eq!(state.roots(&wrapped).known_roots(), Some([v(10), v(12)].as_slice()));

    // A memory local reaches no storage; an unknown storage reference reaches any.
    assert!(state.roots(&ident(1, 30, VariableStorage::Other)).is_empty());
    assert!(state.roots(&ident(1, 31, VariableStorage::Reference)).may_be_unknown());
    assert!(state.roots(&expr(1, AliasExprKind::Leaf)).is_empty());
}

#[test]
fn calls_use_their_summaries_or_their_type() {
    let mut state = state();
    let call = |id: u32, storage_typed: bool| {
        expr(id, AliasExprKind::Call(Box::new(expr(100, AliasExprKind::Leaf)), vec![], vec![], storage_typed, None))
    };
    assert!(state.roots(&call(1, true)).may_be_unknown());
    assert!(state.roots(&call(1, false)).is_empty());
    state.set_call_results(
        ExprId(1),
        vec![StorageProvenance::new(StorageRoots::singleton(v(13)), StorageRoots::singleton(v(14)))],
    );
    assert_eq!(state.roots(&call(1, false)).known_roots(), Some([v(13)].as_slice()));
    assert_eq!(state.slot_roots(&call(1, false)).known_roots(), Some([v(14)].as_slice()));
}

#[test]
fn slot_roots_compose_operands() {
    let state = state();
    // data.slot + local, where local holds a slot from 11.
    let slot = expr(2, AliasExprKind::YulMember(Box::new(ident(1, 10, VariableStorage::State)), YulMember::Slot));
    let sum = expr(3, AliasExprKind::Binary(Box::new(slot), Box::new(ident(4, 2, VariableStorage::Other))));
    assert_eq!(state.slot_roots(&sum).known_roots(), Some([v(10), v(11)].as_slice()));
    // A literal offset contributes no roots, so a literal slot is an access to any storage.
    let literal = expr(5, AliasExprKind::Leaf);
    assert!(state.slot_roots(&literal).is_empty());
    assert!(state.storage_access_roots(&literal).may_be_unknown());
    assert_eq!(state.storage_access_roots(&sum).known_roots(), Some([v(10), v(11)].as_slice()));
    // A local without slot provenance may hold any slot.
    assert!(state.slot_roots(&ident(6, 40, VariableStorage::Other)).may_be_unknown());
}

#[test]
fn reads_skip_places_deletes_and_slot_members() {
    let state = state();
    let variable = ident(1, 10, VariableStorage::State);
    assert_eq!(state.read_roots(&variable, false).known_roots(), Some([v(10)].as_slice()));
    assert!(state.read_roots(&variable, true).is_empty());
    let deleted = expr(2, AliasExprKind::Delete(Box::new(ident(3, 10, VariableStorage::State))));
    assert!(state.read_roots(&deleted, false).is_empty());
    let offset = expr(4, AliasExprKind::YulMember(Box::new(ident(5, 10, VariableStorage::State)), YulMember::Offset));
    assert!(state.read_roots(&offset, false).is_empty());
    assert_eq!(state.write_roots(&variable).known_roots(), Some([v(10)].as_slice()));
}

#[test]
fn assignments_bind_whole_variables_and_slots() {
    let mut state = state();
    // ref2 = ref1: a storage reference takes the roots of the value.
    let assign = expr(
        1,
        AliasExprKind::Assign(
            Box::new(ident(2, 3, VariableStorage::Reference)),
            Box::new(ident(3, 1, VariableStorage::Reference)),
            false,
        ),
    );
    state.apply_expr_effect(&assign);
    assert_eq!(state.reference_roots(v(3), VariableStorage::Reference).known_roots(), Some([v(10)].as_slice()));

    // (a, b) = (stateVar, ref1): each component binds its output.
    let tuple_target = expr(
        4,
        AliasExprKind::Tuple(vec![Some(ident(5, 4, VariableStorage::Reference)), Some(ident(6, 5, VariableStorage::Reference))]),
    );
    let tuple_value = expr(
        7,
        AliasExprKind::Tuple(vec![Some(ident(8, 12, VariableStorage::State)), Some(ident(9, 1, VariableStorage::Reference))]),
    );
    state.assign(&tuple_target, &tuple_value);
    assert_eq!(state.reference_roots(v(4), VariableStorage::Reference).known_roots(), Some([v(12)].as_slice()));
    assert_eq!(state.reference_roots(v(5), VariableStorage::Reference).known_roots(), Some([v(10)].as_slice()));

    // ref6.slot := local2: the reference reaches the slot roots of the value.
    let slot_target =
        expr(10, AliasExprKind::YulMember(Box::new(ident(11, 6, VariableStorage::Reference)), YulMember::Slot));
    state.assign(&slot_target, &ident(12, 2, VariableStorage::Other));
    assert_eq!(state.reference_roots(v(6), VariableStorage::Reference).known_roots(), Some([v(11)].as_slice()));

    // local2 += data.slot: a compound assignment records the slot roots of the whole expression.
    let offset = expr(14, AliasExprKind::YulMember(Box::new(ident(15, 13, VariableStorage::State)), YulMember::Slot));
    let compound = expr(13, AliasExprKind::Assign(Box::new(ident(16, 2, VariableStorage::Other)), Box::new(offset), true));
    state.apply_expr_effect(&compound);
    assert_eq!(state.slot_value_roots(v(2)).known_roots(), Some([v(11), v(13)].as_slice()));
}

#[test]
fn array_push_records_the_receivers_roots() {
    let mut state = state();
    let push = expr(
        20,
        AliasExprKind::Call(
            Box::new(expr(21, AliasExprKind::Leaf)),
            vec![],
            vec![],
            true,
            Some(Box::new(ident(22, 1, VariableStorage::Reference))),
        ),
    );
    state.apply_expr_effect(&push);
    let result = state.call_result(ExprId(20), 0).unwrap();
    assert_eq!(result.reference_roots().known_roots(), Some([v(10)].as_slice()));
    assert_eq!(result.slot_roots().known_roots(), Some([v(10)].as_slice()));
}
