use solar_sema::ids::{ContractId, FunctionId, ItemId, Span, Symbol, VariableId};
use solar_sema::natspec::{
    dev_doc_item, return_docs, validate_item_natspec, DocumentationItem, InheritdocError, ItemFacts,
    NatSpecError, NatSpecTag, ResolvedNatSpec,
};
use solar_sema::natspec::{
    append_doc, merge_natspec_tags, natspec_text, positional_sections, resolve_view, LocalTags,
    NatSpecItem, NatSpecKind, NatSpecView, PositionalNatSpecBuilder, TagPermissions, AUTHOR, DEV,
    INHERITDOC, NOTICE, PARAM, PARAM_PERMITTED, RETURN, RETURN_PERMITTED, TITLE, TITLE_AUTHOR,
};

fn item(kind: NatSpecKind, content: &str) -> NatSpecItem {
    NatSpecItem { kind, span: Span { lo: 0, hi: 1 }, content: content.to_string() }
}

fn contents(items: &[NatSpecItem]) -> Vec<String> {
    items.iter().map(|item| item.content.clone()).collect()
}

#[test]
fn local_tags_record_documented_sections() {
    let items = [
        item(NatSpecKind::Notice, "n"),
        item(NatSpecKind::Param { name: Symbol(1) }, "p"),
        item(NatSpecKind::Custom { name: Symbol(2) }, "c"),
    ];
    let tags = LocalTags::from_items(&items);
    assert!(tags.contains(NOTICE));
    assert!(tags.contains(PARAM));
    assert!(!tags.contains(DEV));
    assert!(!tags.contains(TITLE));
    assert!(!tags.contains(AUTHOR));
    assert!(!tags.contains(RETURN));
    assert_eq!(LocalTags::from_items(&[]).bits, 0);
}

#[test]
fn permissions_depend_on_the_item_kind() {
    let contract = TagPermissions::from_item_id(ItemId::Contract(ContractId::new(0)));
    assert!(contract.contains(TITLE_AUTHOR) && contract.contains(RETURN_PERMITTED));
    assert!(!contract.contains(PARAM_PERMITTED) && !contract.contains(INHERITDOC));
    let function = TagPermissions::from_item_id(ItemId::Function(FunctionId::new(0)));
    assert!(function.contains(PARAM_PERMITTED) && function.contains(INHERITDOC) && function.contains(RETURN_PERMITTED));
    assert!(!function.contains(TITLE_AUTHOR));
    let variable = TagPermissions::from_item_id(ItemId::Variable(VariableId::new(0)));
    assert!(variable.contains(INHERITDOC) && !variable.contains(PARAM_PERMITTED));
    let event = TagPermissions::from_item_id(ItemId::Event(0));
    assert_eq!(event.bits, PARAM_PERMITTED);
    let strukt = TagPermissions::from_item_id(ItemId::Struct(0));
    assert!(strukt.contains(TITLE_AUTHOR) && strukt.contains(PARAM_PERMITTED));
}

#[test]
fn local_tags_override_inherited_sections() {
    let local = [item(NatSpecKind::Notice, "local notice"), item(NatSpecKind::Param { name: Symbol(1) }, "local param")];
    let inherited = [
        item(NatSpecKind::Notice, "inherited notice"),
        item(NatSpecKind::Dev, "inherited dev"),
        item(NatSpecKind::Param { name: Symbol(1) }, "inherited param"),
        item(NatSpecKind::Return { name: None }, "inherited return"),
        item(NatSpecKind::Custom { name: Symbol(3) }, "inherited custom"),
    ];
    let merged = merge_natspec_tags(&local, LocalTags::from_items(&local), &inherited);
    assert_eq!(contents(&merged), ["local notice", "local param", "inherited dev", "inherited return"]);
}

#[test]
fn sections_follow_positions_of_the_current_item() {
    let items = [
        item(NatSpecKind::Param { name: Symbol(10) }, "first"),
        item(NatSpecKind::Param { name: Symbol(11) }, "second"),
        item(NatSpecKind::Return { name: Some(Symbol(20)) }, "named"),
        item(NatSpecKind::Return { name: None }, "unnamed"),
    ];
    let tags = LocalTags::from_items(&items);
    let (parameters, returns) = positional_sections(
        &[Some(Symbol(11)), Some(Symbol(10)), None],
        &[None, Some(Symbol(20))],
        &items,
        tags,
        None,
    );
    let view = NatSpecView::new(items.to_vec(), parameters, returns);
    assert_eq!(contents(view.parameter(0)), ["second"]);
    assert_eq!(contents(view.parameter(1)), ["first"]);
    assert!(view.parameter(2).is_empty());
    assert!(view.parameter(7).is_empty());
    assert_eq!(contents(view.return_(0)), ["unnamed"]);
    assert_eq!(contents(view.return_(1)), ["named"]);
    assert_eq!(view.items().len(), 4);

    let renamed = resolve_view(Vec::new(), 0, LocalTags::from_items(&[]), Some(&view), &[Some(Symbol(30)), Some(Symbol(31))], &[None, None]);
    assert_eq!(contents(renamed.parameter(0)), ["second"]);
    assert_eq!(contents(renamed.parameter(1)), ["first"]);
    assert_eq!(contents(renamed.return_(1)), ["named"]);
}

#[test]
fn unnamed_returns_are_taken_by_position() {
    let items = [item(NatSpecKind::Return { name: None }, "a"), item(NatSpecKind::Return { name: None }, "b")];
    let (_, returns) = positional_sections(&[], &[None, None, None], &items, LocalTags::from_items(&items), None);
    let view = NatSpecView::new(Vec::new(), PositionalNatSpecBuilder::new().finish(), returns);
    assert_eq!(contents(view.return_(0)), ["a"]);
    assert_eq!(contents(view.return_(1)), ["b"]);
    assert!(view.return_(2).is_empty());
}

#[test]
fn undocumented_items_have_no_sections() {
    let (parameters, returns) = positional_sections(&[Some(Symbol(1))], &[None], &[], LocalTags::from_items(&[]), None);
    let view = NatSpecView::new(Vec::new(), parameters, returns);
    assert!(view.parameter(0).is_empty());
    assert!(view.return_(0).is_empty());
    assert!(NatSpecView::default().items().is_empty());
}

#[test]
fn natspec_text_concatenates_matching_contents() {
    let items = [item(NatSpecKind::Notice, "one "), item(NatSpecKind::Dev, "skip"), item(NatSpecKind::Notice, "two")];
    assert_eq!(natspec_text(&items, |kind| matches!(kind, NatSpecKind::Notice)), Some("one two".to_string()));
    assert_eq!(natspec_text(&items, |kind| matches!(kind, NatSpecKind::Title)), None);
    assert_eq!(natspec_text(&[item(NatSpecKind::Notice, "")], |kind| matches!(kind, NatSpecKind::Notice)), None);
}

#[test]
fn append_doc_starts_from_empty_text() {
    let mut target = None;
    append_doc(&mut target, "first");
    assert_eq!(target.as_deref(), Some("first"));
    append_doc(&mut target, " second");
    assert_eq!(target.as_deref(), Some("first second"));
}

#[test]
fn resolution_merges_inherited_items_after_local_ones() {
    let local = vec![item(NatSpecKind::Dev, "local dev")];
    let inherited = [item(NatSpecKind::Dev, "old dev"), item(NatSpecKind::Notice, "old notice"), item(NatSpecKind::Param { name: Symbol(1) }, "x")];
    let target = Some((Span { lo: 4, hi: 5 }, ItemId::Function(FunctionId::new(9))));
    let resolved = ResolvedNatSpec::resolve_item(local, target, Some(&inherited));
    assert_eq!(contents(resolved.items()), ["local dev", "old notice", "x"]);
    assert_eq!(resolved.inheritdoc_target(), target);
    let view = resolved.view(None, &[Some(Symbol(2))], &[]);
    assert_eq!(contents(view.parameter(0)), Vec::<String>::new());
    let alone = ResolvedNatSpec::resolve_item(vec![item(NatSpecKind::Notice, "n")], None, None);
    assert_eq!(contents(alone.items()), ["n"]);
}

fn pairs(entries: &Option<Vec<(String, String)>>) -> Vec<(String, String)> {
    entries.clone().unwrap_or_default()
}

#[test]
fn developer_documentation_groups_texts_by_tag() {
    let symbols = vec!["amount".to_string(), "security".to_string(), "to".to_string()];
    let items = [
        item(NatSpecKind::Author, "Alice"),
        item(NatSpecKind::Dev, "first "),
        item(NatSpecKind::Param { name: Symbol(0) }, "how much"),
        item(NatSpecKind::Notice, "ignored"),
        item(NatSpecKind::Param { name: Symbol(2) }, "recipient"),
        item(NatSpecKind::Param { name: Symbol(0) }, " in wei"),
        item(NatSpecKind::Custom { name: Symbol(1) }, "audited"),
        item(NatSpecKind::Dev, "second"),
    ];
    let documentation = dev_doc_item(&items, &symbols);
    assert_eq!(documentation.author.as_deref(), Some("Alice"));
    assert_eq!(documentation.details.as_deref(), Some("first second"));
    assert_eq!(
        pairs(&documentation.params),
        [("amount".to_string(), "how much in wei".to_string()), ("to".to_string(), "recipient".to_string())]
    );
    assert_eq!(pairs(&documentation.custom), [("custom:security".to_string(), "audited".to_string())]);
    assert!(documentation.notice.is_none());
    assert!(!documentation.is_empty());
    assert!(dev_doc_item(&[item(NatSpecKind::Notice, "n")], &symbols).is_empty());
    assert!(DocumentationItem::new().is_empty());
}

#[test]
fn return_documentation_uses_names_or_positions() {
    let symbols = vec!["total".to_string()];
    let items = [
        item(NatSpecKind::Return { name: Some(Symbol(0)) }, "the total"),
        item(NatSpecKind::Dev, "d"),
        item(NatSpecKind::Return { name: None }, "the flag"),
        item(NatSpecKind::Return { name: None }, ""),
        item(NatSpecKind::Return { name: None }, "extra"),
    ];
    let docs = return_docs(&items, &[Some(Symbol(0)), None, None], &symbols).unwrap();
    assert_eq!(docs, [("total".to_string(), "the total".to_string()), ("_1".to_string(), "the flag".to_string())]);
    assert_eq!(return_docs(&items[1..2], &[None], &symbols), None);
    let many: Vec<Option<Symbol>> = vec![None; 12];
    let numbered: Vec<NatSpecItem> = (0..12).map(|_| item(NatSpecKind::Return { name: None }, "r")).collect();
    let docs = return_docs(&numbered, &many, &symbols).unwrap();
    assert_eq!(docs[11].0, "_11");
}

fn spanned(kind: NatSpecKind, lo: u32) -> NatSpecItem {
    NatSpecItem { kind, span: Span { lo, hi: lo + 1 }, content: String::new() }
}

fn facts(parameter_names: Vec<Symbol>, return_count: usize) -> ItemFacts {
    ItemFacts {
        parameter_names,
        return_count,
        private_variable: false,
        inheritdoc: vec![(Symbol(7), Ok(ItemId::Function(FunctionId::new(1)))), (Symbol(8), Err(InheritdocError::NotABase))],
        lowered_returns: (0..return_count).map(|_| Ok(spanned(NatSpecKind::Return { name: Some(Symbol(40)) }, 99))).collect(),
    }
}

#[test]
fn validation_rejects_misplaced_and_repeated_tags() {
    let function = ItemId::Function(FunctionId::new(0));
    let docs = [
        spanned(NatSpecKind::Title, 1),
        spanned(NatSpecKind::Param { name: Symbol(1) }, 2),
        spanned(NatSpecKind::Param { name: Symbol(1) }, 3),
        spanned(NatSpecKind::Param { name: Symbol(9) }, 4),
        spanned(NatSpecKind::Return { name: None }, 5),
        spanned(NatSpecKind::Return { name: None }, 6),
        spanned(NatSpecKind::Notice, 7),
        spanned(NatSpecKind::Inheritdoc { contract: Symbol(7) }, 8),
        spanned(NatSpecKind::Inheritdoc { contract: Symbol(7) }, 9),
    ];
    let (local, inheritdoc, errors) = validate_item_natspec(&docs, function, &facts(vec![Symbol(1)], 1));
    assert_eq!(local.len(), 4);
    assert_eq!(local[0].kind, NatSpecKind::Param { name: Symbol(1) });
    assert_eq!(local[1].kind, NatSpecKind::Return { name: Some(Symbol(40)) });
    assert_eq!(local[2].kind, NatSpecKind::Notice);
    assert_eq!(inheritdoc, Some((Span { lo: 8, hi: 9 }, ItemId::Function(FunctionId::new(1)))));
    assert_eq!(
        errors,
        [
            NatSpecError::ForbiddenTag { tag: NatSpecTag::Title, span: Span { lo: 1, hi: 2 } },
            NatSpecError::DuplicateParam { name: Symbol(1), span: Span { lo: 3, hi: 4 }, previous: Span { lo: 2, hi: 3 } },
            NatSpecError::UnknownParam { name: Symbol(9), span: Span { lo: 4, hi: 5 } },
            NatSpecError::TooManyReturns { expected: 1, found: 2, span: Span { lo: 6, hi: 7 } },
            NatSpecError::DuplicateTag { tag: NatSpecTag::Inheritdoc, span: Span { lo: 9, hi: 10 } },
        ]
    );
}

#[test]
fn validation_of_contracts_structs_and_private_variables() {
    let contract = ItemId::Contract(ContractId::new(0));
    let docs = [spanned(NatSpecKind::Title, 1), spanned(NatSpecKind::Title, 2), spanned(NatSpecKind::Author, 3), spanned(NatSpecKind::Param { name: Symbol(1) }, 4)];
    let (local, _, errors) = validate_item_natspec(&docs, contract, &facts(vec![], 0));
    assert_eq!(local.len(), 2);
    assert_eq!(
        errors,
        [
            NatSpecError::DuplicateTag { tag: NatSpecTag::Title, span: Span { lo: 2, hi: 3 } },
            NatSpecError::ForbiddenTag { tag: NatSpecTag::Param, span: Span { lo: 4, hi: 5 } },
        ]
    );

    let strukt = ItemId::Struct(3);
    let docs = [spanned(NatSpecKind::Param { name: Symbol(5) }, 1), spanned(NatSpecKind::Param { name: Symbol(5) }, 2)];
    let (local, _, errors) = validate_item_natspec(&docs, strukt, &facts(vec![], 0));
    assert_eq!(local.len(), 2);
    assert!(errors.is_empty());

    let variable = ItemId::Variable(VariableId::new(2));
    let mut private = facts(vec![], 1);
    private.private_variable = true;
    let docs = [spanned(NatSpecKind::Return { name: None }, 1), spanned(NatSpecKind::Inheritdoc { contract: Symbol(8) }, 2)];
    let (local, inheritdoc, errors) = validate_item_natspec(&docs, variable, &private);
    assert!(local.is_empty());
    assert_eq!(inheritdoc, None);
    assert_eq!(
        errors,
        [
            NatSpecError::ForbiddenTag { tag: NatSpecTag::Return, span: Span { lo: 1, hi: 2 } },
            NatSpecError::Inheritdoc { error: InheritdocError::NotABase, contract: Symbol(8), span: Span { lo: 2, hi: 3 } },
        ]
    );
}
