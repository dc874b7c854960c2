use solar_sema::ids::{item_ids_vec, ContractId, FunctionId, ItemCounts, ItemId, VariableId};

#[test]
fn item_ids_project_to_their_kind() {
    let contract = ItemId::Contract(ContractId::new(1));
    let function = ItemId::Function(FunctionId::new(2));
    let variable = ItemId::Variable(VariableId::new(3));
    assert_eq!(contract.as_contract(), Some(ContractId::new(1)));
    assert_eq!(contract.as_function(), None);
    assert_eq!(function.as_function(), Some(FunctionId::new(2)));
    assert_eq!(function.as_variable(), None);
    assert_eq!(variable.as_variable(), Some(VariableId::new(3)));
    assert_eq!(variable.as_contract(), None);
}

#[test]
fn item_ids_describe_and_match_kinds() {
    assert_eq!(ItemId::Udvt(0).description(), "UDVT");
    assert_eq!(ItemId::Event(4).description(), "event");
    assert_eq!(ItemId::Function(FunctionId::new(0)).description(), "function");
    assert!(ItemId::Struct(1).matches(&ItemId::Struct(2)));
    assert!(!ItemId::Struct(1).matches(&ItemId::Enum(1)));
    assert!(ItemId::Variable(VariableId::new(1)).matches(&ItemId::Variable(VariableId::new(9))));
}

#[test]
fn item_ids_enumerate_every_kind_in_order() {
    let counts = ItemCounts {
        contracts: 2,
        functions: 1,
        variables: 0,
        structs: 1,
        enums: 0,
        udvts: 1,
        errors: 0,
        events: 2,
    };
    assert_eq!(
        item_ids_vec(&counts),
        vec![
            ItemId::Contract(ContractId::new(0)),
            ItemId::Contract(ContractId::new(1)),
            ItemId::Function(FunctionId::new(0)),
            ItemId::Struct(0),
            ItemId::Udvt(0),
            ItemId::Event(0),
            ItemId::Event(1),
        ]
    );
    let empty = ItemCounts { contracts: 0, functions: 0, variables: 0, structs: 0, enums: 0, udvts: 0, errors: 0, events: 0 };
    assert!(item_ids_vec(&empty).is_empty());
}
