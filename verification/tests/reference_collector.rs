use solar_sema::ids::{ExprId, FunctionId, Span, VariableId};
use solar_sema::reference_collector::{collect_function_references, RefExpr, RefExprKind, RefNode, ReferenceProgram};
use solar_sema::references::{build_function_reference_index, FunctionReferenceKind, FunctionValueTarget, ValueExpr};
use solar_sema::variables::VarKind;

fn expr(id: u32, kind: RefExprKind) -> RefExpr {
    RefExpr { id: ExprId(id), span: Span { lo: id, hi: id + 1 }, kind }
}

fn ident(id: u32, typed: Option<u32>, functions: &[u32]) -> RefExpr {
    expr(id, RefExprKind::Ident(typed.map(FunctionId), functions.iter().map(|f| FunctionId(*f)).collect()))
}

fn program() -> ReferenceProgram {
    // In f0: f1(x), an internal call binding f1's parameter 1.
    let call = expr(
        10,
        RefExprKind::Call(
            Box::new(ident(11, None, &[1])),
            vec![],
            vec![ident(12, None, &[])],
            Some((FunctionId(1), true)),
            vec![(VariableId(1), Some(ValueExpr::Other))],
        ),
    );
    // The same call walked again adds no duplicate reference.
    let repeated = expr(
        10,
        RefExprKind::Call(Box::new(ident(11, None, &[1])), vec![], vec![], Some((FunctionId(1), true)), vec![]),
    );
    // In f1: a local initialized with f0 as a value.
    let initializer = ident(20, Some(0), &[]);
    let value = ValueExpr::Function(FunctionValueTarget::from_reference(FunctionId(0), false, true));
    // Outside functions: a member access on a name that resolves to f1, then an external call.
    let member = expr(30, RefExprKind::Member(Box::new(ident(31, None, &[1])), None));
    let external = expr(
        40,
        RefExprKind::Call(Box::new(expr(41, RefExprKind::Other(vec![]))), vec![], vec![], Some((FunctionId(0), false)), vec![(VariableId(0), None)]),
    );
    let delete = expr(50, RefExprKind::Delete(Some(VariableId(0)), Box::new(ident(51, None, &[]))));
    ReferenceProgram {
        function_count: 2,
        nodes: vec![
            (Some(FunctionId(0)), RefNode::Expr(call)),
            (Some(FunctionId(0)), RefNode::Expr(repeated)),
            (Some(FunctionId(1)), RefNode::Variable(VariableId(0), value, initializer)),
            (None, RefNode::Expr(member)),
            (None, RefNode::Expr(external)),
            (None, RefNode::Expr(delete)),
        ],
    }
}

#[test]
fn collects_call_and_value_references_with_bindings() {
    let (references, bindings) = collect_function_references(program());
    assert_eq!(references.len(), 2);
    let to_f1: Vec<(u32, FunctionReferenceKind, Option<FunctionId>)> =
        references[1].iter().map(|r| (r.expr.0, r.kind, r.owner)).collect();
    assert_eq!(
        to_f1,
        [(10, FunctionReferenceKind::InternalCall, Some(FunctionId(0))), (31, FunctionReferenceKind::Value, None)]
    );
    let to_f0: Vec<(u32, FunctionReferenceKind)> = references[0].iter().map(|r| (r.expr.0, r.kind)).collect();
    assert_eq!(to_f0, [(20, FunctionReferenceKind::Value), (40, FunctionReferenceKind::ExternalCall)]);

    // The internal call binds its parameter; the external call binds nothing.
    assert_eq!(bindings.len(), 3);
    assert!(bindings[0].0 == VariableId(1) && matches!(bindings[0].1, Some(ValueExpr::Other)));
    assert!(bindings[1].0 == VariableId(0) && matches!(bindings[1].1, Some(ValueExpr::Function(_))));
    assert!(bindings[2].0 == VariableId(0) && bindings[2].1.is_none());

    let index = build_function_reference_index(references, &[VarKind::Statement, VarKind::FunctionParam], &bindings);
    assert!(index.is_internally_referenced(FunctionId(1)));
    assert!(index.is_internally_referenced(FunctionId(0)));
    assert_eq!(index.references_to(FunctionId(1)).len(), 2);
}
