use solar_sema::expr_places::{
    assigned_places, assigned_state_backed_places, assigned_state_variables, assigned_variables, expr_injective_underlying_variable,
    expr_is_self_address, expr_mentions_any_variable, expr_mentions_variable, expr_place, expr_root_is_any_variable,
    expr_root_is_variable, expr_root_variable, expr_underlying_contract, expr_underlying_place, expr_underlying_variable,
    peel_injective_type_conversions, peel_type_conversions, Conversion, SourceExpr, SourceExprKind,
};
use solar_sema::ids::{ContractId, ExprId, Symbol, VariableId};
use solar_sema::place::{Place, ProjectionElem, ScalarTy};
use solar_sema::variables::{DataLocation, VarKind, Variable};

fn expr(id: u32, kind: SourceExprKind) -> SourceExpr {
    SourceExpr { id: ExprId(id), ty: None, contract: None, kind }
}

fn typed(id: u32, ty: ScalarTy, kind: SourceExprKind) -> SourceExpr {
    SourceExpr { id: ExprId(id), ty: Some(ty), contract: None, kind }
}

fn ident(id: u32, variable: u32) -> SourceExpr {
    expr(id, SourceExprKind::Ident(vec![VariableId(variable)], false))
}

fn typed_ident(id: u32, variable: u32, ty: ScalarTy) -> SourceExpr {
    typed(id, ty, SourceExprKind::Ident(vec![VariableId(variable)], false))
}

fn this(id: u32) -> SourceExpr {
    typed(id, ScalarTy::Contract, SourceExprKind::Ident(vec![], true))
}

fn parens(id: u32, inner: SourceExpr) -> SourceExpr {
    expr(id, SourceExprKind::Tuple(vec![Some(inner)]))
}

fn member(id: u32, base: SourceExpr, name: u32, variable: Option<u32>) -> SourceExpr {
    expr(id, SourceExprKind::Member(Box::new(base), Symbol(name), variable.map(VariableId)))
}

fn index(id: u32, base: SourceExpr, key: Option<SourceExpr>) -> SourceExpr {
    expr(id, SourceExprKind::Index(Box::new(base), key.map(Box::new)))
}

fn literal(id: u32) -> SourceExpr {
    expr(id, SourceExprKind::Other(vec![]))
}

fn convert(id: u32, target: ScalarTy, same_type: bool, operand: SourceExpr) -> SourceExpr {
    let callee = expr(id + 1000, SourceExprKind::Other(vec![]));
    let conversion = Conversion { target: target.clone_shape(), same_type };
    typed(id, target, SourceExprKind::Call(Box::new(callee), vec![operand], None, Some(conversion), false))
}

trait CloneShape {
    fn clone_shape(&self) -> Self;
}

impl CloneShape for ScalarTy {
    fn clone_shape(&self) -> Self {
        match self {
            ScalarTy::Address => ScalarTy::Address,
            ScalarTy::Contract => ScalarTy::Contract,
            ScalarTy::UInt(bits) => ScalarTy::UInt(*bits),
            ScalarTy::Int(bits) => ScalarTy::Int(*bits),
            ScalarTy::FixedBytes(bits) => ScalarTy::FixedBytes(*bits),
            ScalarTy::Udvt(inner) => ScalarTy::Udvt(Box::new(inner.clone_shape())),
            ScalarTy::Other => ScalarTy::Other,
        }
    }
}

fn place(local: u32, projection: Vec<ProjectionElem>) -> Place {
    let mut place = Place::from_local(VariableId(local));
    for elem in projection {
        place.push_projection(elem);
    }
    place
}

#[test]
fn member_and_index_projections_form_a_place() {
    // data.values[key]
    let access = index(3, member(2, ident(1, 7), 5, Some(9)), Some(ident(4, 8)));
    let found = expr_place(&access).unwrap();
    assert!(found.same_place(&place(
        7,
        vec![
            ProjectionElem::Field { name: Symbol(5), variable: Some(VariableId(9)) },
            ProjectionElem::Index(Some(ExprId(4))),
        ],
    )));
    assert_eq!(expr_root_variable(&access), Some(VariableId(7)));
    assert!(expr_root_is_variable(&access, VariableId(7)));
    assert!(!expr_root_is_variable(&access, VariableId(8)));
    assert!(expr_root_is_any_variable(&access, &[VariableId(1), VariableId(7)]));
    assert!(!expr_root_is_any_variable(&access, &[VariableId(8)]));
}

#[test]
fn omitted_index_and_slices_are_projections() {
    let omitted = index(2, ident(1, 3), None);
    assert!(expr_place(&omitted).unwrap().same_place(&place(3, vec![ProjectionElem::Index(None)])));

    let sliced = expr(4, SourceExprKind::Slice(Box::new(ident(1, 3)), Some(Box::new(literal(2))), None));
    assert!(expr_place(&sliced)
        .unwrap()
        .same_place(&place(3, vec![ProjectionElem::Slice { start: Some(ExprId(2)), end: None }])));
}

#[test]
fn parentheses_are_transparent_and_computed_values_have_no_place() {
    let wrapped = parens(3, parens(2, ident(1, 4)));
    assert!(expr_place(&wrapped).unwrap().same_place(&place(4, vec![])));
    assert_eq!(wrapped.peel_parens().id, ExprId(1));

    let ambiguous = expr(1, SourceExprKind::Ident(vec![VariableId(1), VariableId(2)], false));
    assert!(expr_place(&ambiguous).is_none());
    let unresolved = expr(1, SourceExprKind::Ident(vec![], false));
    assert!(expr_place(&unresolved).is_none());

    let call = expr(5, SourceExprKind::Call(Box::new(literal(6)), vec![ident(7, 1)], None, None, false));
    assert!(expr_place(&call).is_none());
    assert!(expr_place(&member(8, call, 1, None)).is_none());
}

#[test]
fn conversions_are_peeled_to_the_operand() {
    // uint256(payable(x))
    let inner = expr(2, SourceExprKind::Payable(Box::new(ident(1, 4))));
    let converted = convert(3, ScalarTy::UInt(256), false, inner);
    assert_eq!(peel_type_conversions(&converted).id, ExprId(1));
    assert_eq!(expr_root_variable(&converted), None);
    assert_eq!(expr_underlying_variable(&converted), Some(VariableId(4)));
    assert!(expr_underlying_place(&converted).unwrap().same_place(&place(4, vec![])));
}

#[test]
fn conversions_with_options_or_several_arguments_are_kept() {
    let callee = literal(10);
    let with_options = expr(
        3,
        SourceExprKind::Call(
            Box::new(callee),
            vec![ident(1, 4)],
            Some(vec![literal(2)]),
            Some(Conversion { target: ScalarTy::UInt(256), same_type: false }),
            false,
        ),
    );
    assert_eq!(peel_type_conversions(&with_options).id, ExprId(3));

    let two = expr(
        5,
        SourceExprKind::Call(
            Box::new(literal(11)),
            vec![ident(1, 4), ident(2, 5)],
            None,
            Some(Conversion { target: ScalarTy::UInt(256), same_type: false }),
            false,
        ),
    );
    assert_eq!(peel_type_conversions(&two).id, ExprId(5));

    let struct_constructor = expr(6, SourceExprKind::Call(Box::new(literal(12)), vec![ident(1, 4)], None, None, false));
    assert_eq!(peel_type_conversions(&struct_constructor).id, ExprId(6));
}

#[test]
fn only_injective_conversions_are_peeled_for_equality() {
    // uint8(x) with x: uint256 narrows.
    let narrowing = convert(2, ScalarTy::UInt(8), false, typed_ident(1, 4, ScalarTy::UInt(256)));
    assert_eq!(peel_injective_type_conversions(&narrowing).id, ExprId(2));
    assert_eq!(expr_injective_underlying_variable(&narrowing), None);
    assert_eq!(expr_underlying_variable(&narrowing), Some(VariableId(4)));

    // uint256(x) with x: uint8 widens.
    let widening = convert(2, ScalarTy::UInt(256), false, typed_ident(1, 4, ScalarTy::UInt(8)));
    assert_eq!(peel_injective_type_conversions(&widening).id, ExprId(1));
    assert_eq!(expr_injective_underlying_variable(&widening), Some(VariableId(4)));

    // bytes32(x) with x: uint256 reinterprets the same width.
    let reinterpreting = convert(2, ScalarTy::FixedBytes(256), false, typed_ident(1, 4, ScalarTy::UInt(256)));
    assert_eq!(peel_injective_type_conversions(&reinterpreting).id, ExprId(1));

    // int256(x) with x: uint8 changes the representation.
    let signed = convert(2, ScalarTy::Int(256), false, typed_ident(1, 4, ScalarTy::UInt(8)));
    assert_eq!(peel_injective_type_conversions(&signed).id, ExprId(2));

    // A conversion to the operand's own type.
    let identity = convert(2, ScalarTy::Other, true, typed_ident(1, 4, ScalarTy::Other));
    assert_eq!(peel_injective_type_conversions(&identity).id, ExprId(1));

    // An untyped operand is kept.
    let untyped = convert(2, ScalarTy::UInt(256), false, ident(1, 4));
    assert_eq!(peel_injective_type_conversions(&untyped).id, ExprId(2));
}

#[test]
fn self_address_through_injective_conversions() {
    let address_this = convert(2, ScalarTy::Address, false, this(1));
    assert!(expr_is_self_address(&address_this));
    assert!(expr_is_self_address(&this(1)));

    let payable = typed(3, ScalarTy::Address, SourceExprKind::Payable(Box::new(address_this)));
    let as_integer = convert(4, ScalarTy::UInt(160), false, payable);
    assert!(expr_is_self_address(&as_integer));

    let truncated = convert(5, ScalarTy::UInt(8), false, convert(2, ScalarTy::Address, false, this(1)));
    assert!(!expr_is_self_address(&truncated));

    let yul_address = expr(6, SourceExprKind::Call(Box::new(literal(7)), vec![], None, None, true));
    assert!(expr_is_self_address(&yul_address));

    assert!(!expr_is_self_address(&ident(1, 4)));
}

#[test]
fn underlying_contract_is_read_behind_address_conversions() {
    let token = SourceExpr {
        id: ExprId(1),
        ty: Some(ScalarTy::Contract),
        contract: Some(ContractId(3)),
        kind: SourceExprKind::Ident(vec![VariableId(4)], false),
    };
    let address = convert(2, ScalarTy::Address, false, token);
    assert_eq!(expr_underlying_contract(&address), Some(ContractId(3)));
    assert_eq!(expr_underlying_contract(&ident(5, 4)), None);
}

#[test]
fn mentions_find_identifiers_anywhere() {
    // f(a + b[i]) {value: c}
    let sum = expr(4, SourceExprKind::Other(vec![ident(2, 1), index(5, ident(3, 2), Some(ident(6, 9)))]));
    let call = expr(
        7,
        SourceExprKind::Call(Box::new(ident(1, 20)), vec![sum], Some(vec![ident(8, 3)]), None, false),
    );
    assert!(expr_mentions_variable(&call, VariableId(1)));
    assert!(expr_mentions_variable(&call, VariableId(2)));
    assert!(expr_mentions_variable(&call, VariableId(9)));
    assert!(expr_mentions_variable(&call, VariableId(3)));
    assert!(expr_mentions_variable(&call, VariableId(20)));
    assert!(!expr_mentions_variable(&call, VariableId(4)));
    assert!(expr_mentions_any_variable(&call, &[VariableId(4), VariableId(3)]));
    assert!(!expr_mentions_any_variable(&call, &[VariableId(4), VariableId(5)]));
    assert!(!expr_mentions_any_variable(&call, &[]));

    let tuple = expr(10, SourceExprKind::Tuple(vec![None, Some(ident(11, 6))]));
    assert!(expr_mentions_variable(&tuple, VariableId(6)));
    assert!(!expr_mentions_variable(&tuple, VariableId(7)));
}

#[test]
fn assigned_places_flatten_tuples() {
    // (a, , (b.f, c[1])) with a nested parenthesized target.
    let nested = expr(
        5,
        SourceExprKind::Tuple(vec![
            Some(member(6, ident(7, 2), 1, None)),
            Some(index(8, ident(9, 3), Some(literal(10)))),
        ]),
    );
    let target = expr(1, SourceExprKind::Tuple(vec![Some(parens(2, ident(3, 1))), None, Some(nested)]));
    let places = assigned_places(&target);
    assert_eq!(places.len(), 3);
    assert!(places[0].same_place(&place(1, vec![])));
    assert!(places[1].same_place(&place(2, vec![ProjectionElem::Field { name: Symbol(1), variable: None }])));
    assert!(places[2].same_place(&place(3, vec![ProjectionElem::Index(Some(ExprId(10)))])));
    assert_eq!(assigned_variables(&target), vec![VariableId(1), VariableId(2), VariableId(3)]);
}

#[test]
fn assigned_places_skip_components_without_a_place() {
    let target = expr(1, SourceExprKind::Tuple(vec![Some(ident(2, 4)), Some(literal(3))]));
    let places = assigned_places(&target);
    assert_eq!(places.len(), 1);
    assert!(places[0].same_place(&place(4, vec![])));
    assert_eq!(assigned_variables(&ident(5, 6)), vec![VariableId(6)]);
    assert!(assigned_places(&literal(7)).is_empty());
}

fn declarations() -> Vec<Variable> {
    let state = Variable { kind: VarKind::State, mutability: None, visibility: None, data_location: None };
    let storage_ref = Variable {
        kind: VarKind::Statement,
        mutability: None,
        visibility: None,
        data_location: Some(DataLocation::Storage),
    };
    let memory = Variable {
        kind: VarKind::Statement,
        mutability: None,
        visibility: None,
        data_location: Some(DataLocation::Memory),
    };
    let transient_ref = Variable {
        kind: VarKind::Statement,
        mutability: None,
        visibility: None,
        data_location: Some(DataLocation::Transient),
    };
    vec![state, storage_ref, memory, transient_ref]
}

#[test]
fn state_backed_places_and_state_roots() {
    let variables = declarations();
    let target = expr(
        1,
        SourceExprKind::Tuple(vec![Some(ident(2, 0)), Some(ident(3, 1)), Some(ident(4, 2)), Some(ident(5, 3))]),
    );
    let backed = assigned_state_backed_places(&target, &variables);
    assert_eq!(backed.len(), 3);
    assert_eq!(backed[0].local(), VariableId(0));
    assert_eq!(backed[1].local(), VariableId(1));
    assert_eq!(backed[2].local(), VariableId(3));
    assert_eq!(assigned_state_variables(&target, &variables), vec![VariableId(0)]);

    assert!(place(0, vec![]).is_state(&variables));
    assert!(!place(1, vec![]).is_state(&variables));
    assert!(place(1, vec![]).is_state_backed(&variables));
    assert!(!place(2, vec![]).is_state_backed(&variables));
}
