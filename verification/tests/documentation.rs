use solar_sema::documentation::{
    dev_documentation, user_documentation, ContractDocs, FunctionDocs, MemberDocs, VariableDocs,
};
use solar_sema::ids::{Span, Symbol};
use solar_sema::natspec::{DocumentationKind, NatSpecItem, NatSpecKind};

fn item(kind: NatSpecKind, content: &str) -> NatSpecItem {
    NatSpecItem { kind, span: Span { lo: 0, hi: 1 }, content: content.to_string() }
}

fn symbols() -> Vec<String> {
    vec!["amount".to_string(), "result".to_string(), "security".to_string()]
}

fn contract() -> ContractDocs {
    ContractDocs {
        docs: vec![
            item(NatSpecKind::Title, "Token"),
            item(NatSpecKind::Author, "Alice"),
            item(NatSpecKind::Notice, "A token."),
            item(NatSpecKind::Dev, "Mints."),
            item(NatSpecKind::Custom { name: Symbol(2) }, "audited"),
        ],
        constructor_docs: Some(vec![item(NatSpecKind::Dev, "Sets up."), item(NatSpecKind::Notice, "Creates.")]),
        functions: vec![
            FunctionDocs {
                signature: "mint(uint256)".to_string(),
                docs: vec![
                    item(NatSpecKind::Notice, "Mints tokens."),
                    item(NatSpecKind::Param { name: Symbol(0) }, "how many"),
                    item(NatSpecKind::Return { name: None }, "new supply"),
                ],
                return_names: vec![None],
                gettee_docs: None,
            },
            FunctionDocs {
                signature: "total()".to_string(),
                docs: vec![],
                return_names: vec![None],
                gettee_docs: Some(vec![item(NatSpecKind::Notice, "The supply.")]),
            },
            FunctionDocs {
                signature: "plain()".to_string(),
                docs: vec![],
                return_names: vec![],
                gettee_docs: None,
            },
        ],
        variables: vec![
            VariableDocs {
                name: "total".to_string(),
                docs: vec![item(NatSpecKind::Dev, "Supply."), item(NatSpecKind::Return { name: None }, "the supply")],
                getter_return_names: Some(vec![None]),
            },
            VariableDocs { name: "hidden".to_string(), docs: vec![], getter_return_names: None },
        ],
        members: vec![
            MemberDocs::Event("Minted(uint256)".to_string(), vec![item(NatSpecKind::Dev, "first")]),
            MemberDocs::Event("Minted(uint256)".to_string(), vec![item(NatSpecKind::Dev, "second")]),
            MemberDocs::Error("Failed()".to_string(), vec![item(NatSpecKind::Dev, "one")]),
            MemberDocs::Error("Failed()".to_string(), vec![item(NatSpecKind::Notice, "two")]),
            MemberDocs::Error("Failed()".to_string(), vec![item(NatSpecKind::Dev, "three")]),
        ],
    }
}

#[test]
fn developer_documentation_of_a_contract() {
    let doc = dev_documentation(&contract(), &symbols());
    assert_eq!(doc.kind, DocumentationKind::Dev);
    assert_eq!(doc.version, 1);
    assert_eq!(doc.title.as_deref(), Some("Token"));
    assert_eq!(doc.author.as_deref(), Some("Alice"));
    assert_eq!(doc.details.as_deref(), Some("Mints."));
    assert_eq!(doc.custom, Some(vec![("custom:security".to_string(), "audited".to_string())]));
    assert!(doc.notice.is_none());

    let methods: Vec<&str> = doc.methods.iter().map(|(key, _)| key.as_str()).collect();
    assert_eq!(methods, ["constructor", "mint(uint256)"]);
    assert_eq!(doc.methods[0].1.details.as_deref(), Some("Sets up."));
    let mint = &doc.methods[1].1;
    assert_eq!(mint.params, Some(vec![("amount".to_string(), "how many".to_string())]));
    assert_eq!(mint.returns, Some(vec![("_0".to_string(), "new supply".to_string())]));
    assert!(mint.notice.is_none());

    let variables = doc.state_variables.as_ref().unwrap();
    assert_eq!(variables.len(), 1);
    assert_eq!(variables[0].0, "total");
    assert_eq!(variables[0].1.return_.as_deref(), Some("the supply"));
    assert_eq!(variables[0].1.returns, Some(vec![("_0".to_string(), "the supply".to_string())]));

    assert_eq!(doc.events.len(), 1);
    assert_eq!(doc.events[0].1.details.as_deref(), Some("first"));
    assert_eq!(doc.errors.len(), 1);
    let failed: Vec<Option<&str>> = doc.errors[0].1.iter().map(|item| item.details.as_deref()).collect();
    assert_eq!(failed, [Some("one"), Some("three")]);
}

#[test]
fn user_documentation_of_a_contract() {
    let doc = user_documentation(&contract());
    assert_eq!(doc.kind, DocumentationKind::User);
    assert_eq!(doc.notice.as_deref(), Some("A token."));
    let methods: Vec<(&str, Option<&str>)> =
        doc.methods.iter().map(|(key, item)| (key.as_str(), item.notice.as_deref())).collect();
    assert_eq!(
        methods,
        [("constructor", Some("Creates.")), ("mint(uint256)", Some("Mints tokens.")), ("total()", Some("The supply."))]
    );
    assert!(doc.events.is_empty());
    assert_eq!(doc.errors.len(), 1);
    assert_eq!(doc.errors[0].1.len(), 1);
    assert_eq!(doc.errors[0].1[0].notice.as_deref(), Some("two"));
    assert!(doc.author.is_none() && doc.title.is_none() && doc.state_variables.is_none());
}

#[test]
fn contract_without_documentation_documents_nothing() {
    let empty = ContractDocs { docs: vec![], constructor_docs: None, functions: vec![], variables: vec![], members: vec![] };
    let doc = dev_documentation(&empty, &[]);
    assert!(doc.methods.is_empty() && doc.events.is_empty() && doc.errors.is_empty());
    assert!(doc.state_variables.is_none() && doc.title.is_none() && doc.author.is_none());
}
