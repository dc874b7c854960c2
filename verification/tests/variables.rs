use solar_sema::variables::{VarKind, VarMut, Variable, Visibility};

fn variable(kind: VarKind) -> Variable {
    Variable { kind, mutability: None, visibility: None, data_location: None }
}

#[test]
fn kinds_are_described_for_diagnostics() {
    assert_eq!(VarKind::Global.to_str(), "file-level variable");
    assert_eq!(VarKind::State.to_str(), "state variable");
    assert_eq!(VarKind::Struct.to_str(), "struct field");
    assert_eq!(VarKind::Event.to_str(), "event parameter");
    assert_eq!(VarKind::Error.to_str(), "error parameter");
    assert_eq!(VarKind::FunctionParam.to_str(), "function parameter");
    assert_eq!(VarKind::FunctionTyParam.to_str(), "function parameter");
    assert_eq!(VarKind::FunctionReturn.to_str(), "function return parameter");
    assert_eq!(VarKind::FunctionTyReturn.to_str(), "function return parameter");
    assert_eq!(VarKind::Statement.to_str(), "variable");
    assert_eq!(VarKind::TryCatch.to_str(), "try/catch clause");
    assert_eq!(variable(VarKind::State).description(), "state variable");
}

#[test]
fn classifies_variables_by_kind() {
    let statement = variable(VarKind::Statement);
    assert!(statement.is_local_variable());
    assert!(!statement.is_callable_or_catch_parameter());
    assert!(statement.is_local_or_return());

    let parameter = variable(VarKind::FunctionParam);
    assert!(parameter.is_local_variable());
    assert!(parameter.is_callable_or_catch_parameter());
    assert!(!parameter.is_local_or_return());

    let ret = variable(VarKind::FunctionReturn);
    assert!(ret.is_return_parameter());
    assert!(ret.is_local_or_return());

    let state = variable(VarKind::State);
    assert!(state.is_state_variable());
    assert!(!state.is_local_variable());
    assert!(!state.is_local_or_return());

    assert!(variable(VarKind::Struct).is_struct_member());
    assert!(variable(VarKind::Event).is_event_or_error_parameter());
    assert!(variable(VarKind::Error).is_event_or_error_parameter());
    assert!(variable(VarKind::TryCatch).is_try_catch_parameter());
    assert!(variable(VarKind::Global).is_file_level_variable());
    assert!(VarKind::State.is_state());
    assert!(!VarKind::Global.is_state());
}

#[test]
fn mutability_and_visibility_of_declarations() {
    let constant = Variable { kind: VarKind::State, mutability: Some(VarMut::Constant), visibility: Some(Visibility::Internal), data_location: None };
    assert!(constant.is_constant());
    assert!(!constant.is_immutable());
    assert!(!constant.is_l_value());
    assert!(!constant.is_public());

    let immutable = Variable { kind: VarKind::State, mutability: Some(VarMut::Immutable), visibility: Some(Visibility::Public), data_location: None };
    assert!(immutable.is_immutable());
    assert!(immutable.is_l_value());
    assert!(immutable.is_public());

    let external = Variable { kind: VarKind::State, mutability: None, visibility: Some(Visibility::External), data_location: None };
    assert!(external.is_public());
    assert!(external.is_l_value());
    assert!(!variable(VarKind::Statement).is_public());
}
