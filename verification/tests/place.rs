use solar_sema::ids::{ExprId, Symbol, VariableId};
use solar_sema::place::{
    assignment_pairs, conversion_is_injective, scalar_repr, Assignment, ExprShape, Place, ProjectionElem, ScalarRepr,
    ScalarTy,
};

#[test]
fn index_may_overlap_slice() {
    let mut indexed = Place::from_local(VariableId::new(0));
    indexed.push_projection(ProjectionElem::Index(Some(ExprId::new(0))));
    let mut sliced = Place::from_local(VariableId::new(0));
    sliced.push_projection(ProjectionElem::Slice { start: Some(ExprId::new(1)), end: Some(ExprId::new(2)) });

    assert!(indexed.may_overlap(&sliced));
    assert!(sliced.may_overlap(&indexed));
}

#[test]
fn distinct_fields_and_roots_do_not_overlap() {
    let mut first = Place::from_local(VariableId::new(0));
    first.push_projection(ProjectionElem::Field { name: Symbol(1), variable: None });
    let mut second = Place::from_local(VariableId::new(0));
    second.push_projection(ProjectionElem::Field { name: Symbol(2), variable: None });
    assert!(!first.may_overlap(&second));
    assert!(!second.may_overlap(&first));

    let other_root = first.with_local(VariableId::new(1));
    assert!(!first.may_overlap(&other_root));
    assert!(first.may_overlap(&first));

    let whole = Place::from_local(VariableId::new(0));
    assert!(whole.may_overlap(&first));
    assert!(first.may_overlap(&whole));
}

#[test]
fn places_compare_by_root_and_projection() {
    let mut place = Place::from_local(VariableId::new(5));
    place.push_projection(ProjectionElem::Index(None));
    let copy = place.clone();
    assert!(place.same_place(&copy));
    let extended = place.with_projection_suffix(&[ProjectionElem::Index(Some(ExprId::new(9)))]);
    assert!(!place.same_place(&extended));
    assert_eq!(extended.projection().len(), 2);
    assert_eq!(extended.local(), VariableId::new(5));
}

fn other(id: usize) -> ExprShape {
    ExprShape::Other(ExprId::new(id))
}

fn tuple(id: usize, components: Vec<Option<ExprShape>>) -> ExprShape {
    ExprShape::Tuple(ExprId::new(id), components)
}

fn pair(target: usize, value: Option<usize>, output_index: usize, output_count: usize) -> Assignment {
    Assignment { target: ExprId::new(target), value: value.map(ExprId::new), output_index, output_count }
}

#[test]
fn scalar_assignment_pairs_target_with_value() {
    let assignments = assignment_pairs(&other(1), Some(&other(2)));
    assert_eq!(assignments, vec![pair(1, Some(2), 0, 1)]);
}

#[test]
fn parentheses_are_peeled_on_both_sides() {
    let target = tuple(10, vec![Some(tuple(11, vec![Some(other(1))]))]);
    let value = tuple(20, vec![Some(other(2))]);
    let assignments = assignment_pairs(&target, Some(&value));
    assert_eq!(assignments, vec![pair(1, Some(2), 0, 1)]);
}

#[test]
fn tuple_destructuring_pairs_components_in_order() {
    let target = tuple(10, vec![Some(other(1)), None, Some(other(3))]);
    let value = tuple(20, vec![Some(other(4)), Some(other(5)), Some(other(6))]);
    let assignments = assignment_pairs(&target, Some(&value));
    assert_eq!(assignments, vec![pair(1, Some(4), 0, 3), pair(3, Some(6), 2, 3)]);
}

#[test]
fn tuple_target_with_call_value_has_no_component_values() {
    let target = tuple(10, vec![Some(other(1)), Some(other(2))]);
    let assignments = assignment_pairs(&target, Some(&other(7)));
    assert_eq!(assignments, vec![pair(1, None, 0, 2), pair(2, None, 1, 2)]);
}

#[test]
fn nested_components_keep_top_level_output() {
    let target = tuple(10, vec![Some(tuple(11, vec![Some(other(1)), Some(other(2))])), Some(other(3))]);
    let value = tuple(20, vec![Some(tuple(21, vec![Some(other(4)), Some(other(5))])), Some(other(6))]);
    let assignments = assignment_pairs(&target, Some(&value));
    assert_eq!(
        assignments,
        vec![pair(1, Some(4), 0, 2), pair(2, Some(5), 0, 2), pair(3, Some(6), 1, 2)]
    );
}

#[test]
fn missing_value_leaves_components_unpaired() {
    let target = tuple(10, vec![Some(other(1)), Some(other(2))]);
    let assignments = assignment_pairs(&target, None);
    assert_eq!(assignments, vec![pair(1, None, 0, 2), pair(2, None, 1, 2)]);
    assert_eq!(assignment_pairs(&other(5), None), vec![pair(5, None, 0, 1)]);
}

#[test]
fn scalar_representations() {
    assert_eq!(scalar_repr(&ScalarTy::Address), Some((ScalarRepr::Unsigned, 160)));
    assert_eq!(scalar_repr(&ScalarTy::Contract), Some((ScalarRepr::Unsigned, 160)));
    assert_eq!(scalar_repr(&ScalarTy::Int(64)), Some((ScalarRepr::Signed, 64)));
    assert_eq!(scalar_repr(&ScalarTy::Udvt(Box::new(ScalarTy::FixedBytes(256)))), Some((ScalarRepr::FixedBytes, 256)));
    assert_eq!(scalar_repr(&ScalarTy::Other), None);
}

#[test]
fn injective_conversions() {
    // Widening within one representation.
    assert!(conversion_is_injective(false, &ScalarTy::UInt(8), &ScalarTy::UInt(256)));
    assert!(!conversion_is_injective(false, &ScalarTy::UInt(256), &ScalarTy::UInt(8)));
    assert!(!conversion_is_injective(false, &ScalarTy::Int(8), &ScalarTy::UInt(256)));
    // Same-width reinterpretation between unsigned integers and fixed bytes.
    assert!(conversion_is_injective(false, &ScalarTy::Address, &ScalarTy::FixedBytes(160)));
    assert!(conversion_is_injective(false, &ScalarTy::FixedBytes(256), &ScalarTy::UInt(256)));
    assert!(!conversion_is_injective(false, &ScalarTy::UInt(8), &ScalarTy::FixedBytes(16)));
    assert!(!conversion_is_injective(false, &ScalarTy::Int(256), &ScalarTy::FixedBytes(256)));
    // Identical types, and non-scalar ones.
    assert!(conversion_is_injective(true, &ScalarTy::Other, &ScalarTy::Other));
    assert!(!conversion_is_injective(false, &ScalarTy::Other, &ScalarTy::UInt(256)));
    assert!(conversion_is_injective(false, &ScalarTy::Udvt(Box::new(ScalarTy::UInt(128))), &ScalarTy::UInt(128)));
}
