use solar_sema::effective::EffectiveBodyCx;
use solar_sema::ids::{ContractId, FunctionId, VariableId};

fn variables(ids: &[u32]) -> Vec<VariableId> {
    ids.iter().map(|id| VariableId(*id)).collect()
}

#[test]
fn mutable_state_follows_the_dispatch_contract() {
    let mutable_state = vec![variables(&[1, 2]), variables(&[3])];
    let dispatched = EffectiveBodyCx::new(Some(ContractId(1)), FunctionId(0), None, 0, 0, None, true);
    assert_eq!(dispatched.mutable_state_variables(Some(ContractId(0)), &mutable_state), &variables(&[3])[..]);

    let inherited = EffectiveBodyCx::new(None, FunctionId(0), None, 0, 0, None, true);
    assert_eq!(inherited.mutable_state_variables(Some(ContractId(0)), &mutable_state), &variables(&[1, 2])[..]);
    assert!(inherited.mutable_state_variables(None, &mutable_state).is_empty());
}

#[test]
fn activation_binds_callee_and_each_distinct_modifier() {
    let function_variables = vec![variables(&[10, 11]), variables(&[20]), variables(&[30, 31])];
    let cx = EffectiveBodyCx::new(None, FunctionId(0), None, 0, 0, None, true);
    let modifiers = [Some(FunctionId(1)), None, Some(FunctionId(2)), Some(FunctionId(1))];
    assert_eq!(
        cx.activation_variables(FunctionId(0), &modifiers, &function_variables),
        variables(&[10, 11, 20, 30, 31])
    );
    // A modifier that is the callee itself adds nothing.
    assert_eq!(cx.activation_variables(FunctionId(1), &[Some(FunctionId(1))], &function_variables), variables(&[20]));
    assert_eq!(cx.activation_variables(FunctionId(2), &[], &function_variables), variables(&[30, 31]));
}
