use solar_sema::ids::{ContractId, FunctionId, ItemId, VariableId};
use solar_sema::print::{
    default_case, CallArgsNode, ContractNode, DataLocation, EnumNode, ErrorNode, EventNode, ExprNode, FunctionKind, FunctionNode,
    HirPrinter, ItemNode, ItemRef, LoopSource, ModifierNode, NamedArgNode, ResRef, SourceNode, StateMutability,
    StmtNode, StmtTryNode, StructNode, SwitchCaseNode, TryClauseNode, TypeNode, UdvtNode, UsingEntryKind, UsingEntryNode,
    UsingNode, VarRef, VariableNode,
};
use solar_sema::variables::{VarMut, Visibility};

fn elementary(name: &str) -> TypeNode {
    TypeNode::Elementary(name.to_string())
}

fn var(id: usize, name: Option<&str>, ty: TypeNode) -> VariableNode {
    VariableNode {
        id: VariableId::new(id),
        name: name.map(|name| name.to_string()),
        ty,
        visibility: None,
        mutability: None,
        override_: false,
        overrides: vec![],
        data_location: None,
        indexed: false,
        initializer: None,
    }
}

fn ident(name: &str) -> ExprNode {
    ExprNode::Ident(vec![ResRef::Item(ItemRef { id: ItemId::Variable(VariableId::new(0)), name: Some(name.to_string()) })])
}

fn lit(text: &str) -> ExprNode {
    ExprNode::Lit(text.to_string())
}

fn call(callee: ExprNode, args: Vec<ExprNode>) -> ExprNode {
    ExprNode::Call(Box::new(callee), CallArgsNode::Unnamed(args), None)
}

fn function(kind: FunctionKind, name: &str, body: Option<Vec<StmtNode>>) -> FunctionNode {
    FunctionNode {
        gettee: None,
        is_yul: false,
        kind,
        name: Some(name.to_string()),
        parameters: vec![],
        visibility: Visibility::Internal,
        state_mutability: StateMutability::NonPayable,
        modifiers: vec![],
        marked_virtual: false,
        override_: false,
        overrides: vec![],
        return_parameters: vec![],
        body,
    }
}

fn source(index: u32, file_name: &str, items: Vec<ItemNode>) -> SourceNode {
    SourceNode { index, file_name: file_name.to_string(), usings: vec![], items }
}

fn print(source: &SourceNode) -> String {
    let mut printer = HirPrinter::new();
    printer.print_source(source);
    printer.finish()
}

fn contract_c() -> ContractNode {
    let mut x = var(1, Some("x"), elementary("uint256"));
    x.visibility = Some(Visibility::Public);
    x.initializer = Some(Box::new(lit("1")));
    let mut f = function(
        FunctionKind::Function,
        "f",
        Some(vec![StmtNode::Return(Some(ExprNode::Binary(Box::new(ident("x")), "+".to_string(), Box::new(ident("a")))))]),
    );
    f.parameters = vec![var(2, Some("a"), elementary("uint256"))];
    f.visibility = Visibility::External;
    f.state_mutability = StateMutability::View;
    f.return_parameters = vec![var(3, None, elementary("uint256"))];
    ContractNode {
        kind: "contract".to_string(),
        name: "C".to_string(),
        layout: None,
        bases_args: vec![],
        bases: vec![],
        usings: vec![],
        items: vec![ItemNode::Variable(x), ItemNode::Function(f)],
    }
}

#[test]
fn prints_a_contract_in_full() {
    let text = print(&source(0, "a.sol", vec![ItemNode::Contract(contract_c())]));
    assert_eq!(
        text,
        "source 0 \"a.sol\" {\n    contract C {\n        uint256 public x = 1;\n\n        function f(uint256 a) external view returns (uint256 _var3) {\n            return (x + a);\n        }\n    }\n}\n"
    );
}

#[test]
fn displays_function_headers() {
    let contract = contract_c();
    let text = match &contract.items[1] {
        ItemNode::Function(_) => HirPrinter::display(&contract.items[1]),
        _ => unreachable!(),
    };
    assert_eq!(text, "function f(uint256 a) external view returns (uint256)");
    assert_eq!(HirPrinter::display(&ItemNode::Contract(contract)), "contract C");
}

#[test]
fn prints_statements() {
    let body = vec![
        StmtNode::DeclMulti(
            vec![Some(var(5, Some("p"), elementary("uint256"))), None],
            call(ident("h"), vec![]),
        ),
        StmtNode::If(
            ExprNode::Binary(Box::new(ident("p")), ">".to_string(), Box::new(lit("0"))),
            Box::new(StmtNode::Expr(ExprNode::Assign(Box::new(ident("p")), Some("+".to_string()), Box::new(lit("1"))))),
            Some(Box::new(StmtNode::Block(vec![StmtNode::Break]))),
        ),
        StmtNode::Loop(vec![StmtNode::Continue], LoopSource::While),
        StmtNode::Emit(ExprNode::Call(
            Box::new(ident("E")),
            CallArgsNode::Named(vec![NamedArgNode { name: "v".to_string(), value: lit("2") }]),
            None,
        )),
        StmtNode::Expr(ExprNode::Call(
            Box::new(ExprNode::Member(Box::new(ident("a")), "f".to_string())),
            CallArgsNode::Unnamed(vec![lit("1"), lit("2")]),
            Some(vec![NamedArgNode { name: "value".to_string(), value: lit("3") }]),
        )),
        StmtNode::Return(None),
    ];
    let text = print(&source(1, "b.sol", vec![ItemNode::Function(function(FunctionKind::Function, "g", Some(body)))]));
    assert_eq!(
        text,
        "source 1 \"b.sol\" {\n    function g() internal {\n        (uint256 p, ) = h();\n        if (p > 0) {\n            p += 1;\n        }\n        else {\n            break;\n        }\n        hir.loop(while) {\n            continue;\n        }\n        emit E({v: 2});\n        a.f { value: 3 }(1, 2);\n        return;\n    }\n}\n"
    );
}

#[test]
fn prints_try_and_switch() {
    let mut message = var(12, Some("m"), elementary("string"));
    message.data_location = Some(DataLocation::Memory);
    let body = vec![
        StmtNode::Try(StmtTryNode {
            expr: call(ident("t"), vec![]),
            clauses: vec![
                TryClauseNode {
                    name: None,
                    args: vec![var(11, Some("r"), elementary("uint256"))],
                    block: vec![StmtNode::Expr(ident("r"))],
                },
                TryClauseNode { name: Some("Error".to_string()), args: vec![message], block: vec![] },
                TryClauseNode { name: None, args: vec![], block: vec![] },
            ],
        }),
        StmtNode::Switch(
            ident("x"),
            vec![
                SwitchCaseNode { constant: Some("0".to_string()), body: vec![StmtNode::Break] },
                SwitchCaseNode { constant: None, body: vec![] },
            ],
        ),
    ];
    let text = print(&source(4, "t.sol", vec![ItemNode::Function(function(FunctionKind::Function, "g", Some(body)))]));
    assert_eq!(
        text,
        "source 4 \"t.sol\" {\n    function g() internal {\n        try t() returns (uint256 r) {\n            r;\n        }\n        catch Error(string memory m) {\n        }\n        catch () {\n        }\n        switch x {\n            case 0 {\n                break;\n            }\n            default {\n            }\n        }\n    }\n}\n"
    );
}

#[test]
fn prints_expressions_and_types() {
    let function_type = TypeNode::Function(
        vec![var(21, None, elementary("uint256"))],
        Visibility::External,
        StateMutability::Pure,
        vec![var(22, Some("z"), elementary("bool"))],
    );
    let body = vec![
        StmtNode::Expr(ExprNode::Ternary(
            Box::new(ident("c")),
            Box::new(ExprNode::Unary("-".to_string(), true, Box::new(lit("1")))),
            Box::new(ExprNode::Unary("++".to_string(), false, Box::new(ident("i")))),
        )),
        StmtNode::Expr(ExprNode::Delete(Box::new(ExprNode::Index(Box::new(ident("arr")), Some(Box::new(lit("0"))))))),
        StmtNode::Expr(ExprNode::Assign(
            Box::new(ExprNode::Slice(Box::new(ident("b")), None, Some(Box::new(lit("4"))))),
            None,
            Box::new(ExprNode::Array(vec![lit("1"), lit("2")])),
        )),
        StmtNode::Expr(call(ExprNode::New(TypeNode::Array(Box::new(elementary("uint8")), None, None)), vec![lit("3")])),
        StmtNode::Expr(ExprNode::TypeCall(TypeNode::Mapping(
            Box::new(elementary("address")),
            Some("owner".to_string()),
            Box::new(elementary("bool")),
            None,
        ))),
        StmtNode::Expr(ExprNode::Payable(Box::new(ExprNode::YulMember(Box::new(ident("s")), "slot".to_string())))),
        StmtNode::DeclSingle(var(20, None, function_type)),
        StmtNode::Expr(ExprNode::Type(TypeNode::Array(
            Box::new(elementary("uint256")),
            Some(Box::new(lit("2"))),
            Some(" 2 ".to_string()),
        ))),
        StmtNode::Expr(ExprNode::Invalid),
        StmtNode::Invalid,
        StmtNode::UncheckedBlock(vec![]),
        StmtNode::AssemblyBlock(vec![]),
        StmtNode::Revert(call(ident("Er"), vec![])),
        StmtNode::Placeholder,
    ];
    let text = print(&source(5, "e.sol", vec![ItemNode::Function(function(FunctionKind::Function, "g", Some(body)))]));
    assert_eq!(
        text,
        "source 5 \"e.sol\" {\n    function g() internal {\n        (c ? -1 : i++);\n        delete arr[0];\n        b[:4] = [1, 2];\n        new uint8[](3);\n        type(mapping(address owner => bool));\n        payable(s.slot);\n        function(uint256 _var21) external pure returns (bool z) _var20;\n        uint256[2];\n        <error>;\n        <error>;\n        unchecked {\n        }\n        assembly {\n        }\n        revert Er();\n        _;\n    }\n}\n"
    );
}

#[test]
fn names_unnamed_items_and_lists_overloads() {
    let mut constant = var(
        7,
        Some("K"),
        TypeNode::Custom(ItemRef { id: ItemId::Struct(3), name: None }),
    );
    constant.mutability = Some(VarMut::Constant);
    constant.initializer = Some(Box::new(ExprNode::Tuple(vec![
        Some(ExprNode::Ident(vec![])),
        None,
        Some(ExprNode::Ident(vec![ResRef::Builtin("keccak256".to_string(), "Keccak256".to_string()), ResRef::Namespace("x.sol".to_string(), "Real(\"x.sol\")".to_string())])),
    ])));
    let item = ItemNode::Variable(constant);
    assert_eq!(
        print(&source(2, "c.sol", vec![item])),
        "source 2 \"c.sol\" {\n    _struct3 constant K = (<unresolved>, , overload(keccak256 | namespace(x.sol)));\n}\n"
    );
    let item = ItemNode::Variable(var(
        7,
        Some("K"),
        TypeNode::Custom(ItemRef { id: ItemId::Struct(3), name: None }),
    ));
    assert_eq!(HirPrinter::display(&item), "<error> K");

    let unnamed_call = StmtNode::Expr(call(
        ExprNode::Ident(vec![
            ResRef::Item(ItemRef { id: ItemId::Function(FunctionId::new(7)), name: None }),
            ResRef::Item(ItemRef { id: ItemId::Contract(ContractId::new(2)), name: None }),
            ResRef::Invalid,
        ]),
        vec![],
    ));
    let text = print(&source(6, "n.sol", vec![ItemNode::Function(function(FunctionKind::Function, "g", Some(vec![unnamed_call])))]));
    assert_eq!(
        text,
        "source 6 \"n.sol\" {\n    function g() internal {\n        overload(_function7 | _contract2 | <error>)();\n    }\n}\n"
    );
}

#[test]
fn prints_declarations_of_a_contract() {
    let mut indexed = var(30, Some("v"), elementary("uint256"));
    indexed.indexed = true;
    let contract = ContractNode {
        kind: "abstract contract".to_string(),
        name: "D".to_string(),
        layout: None,
        bases_args: vec![ModifierNode {
            item: ItemRef { id: ItemId::Contract(ContractId::new(0)), name: Some("B".to_string()) },
            args: CallArgsNode::Unnamed(vec![lit("1")]),
            args_dummy: false,
            args_snippet: Some(" (1) ".to_string()),
        }],
        bases: vec!["B".to_string(), "A".to_string()],
        usings: vec![UsingNode {
            entries: vec![UsingEntryNode { kind: UsingEntryKind::Library("L".to_string()), operator: None }],
            ty: Some(elementary("uint256")),
            global: false,
        }],
        items: vec![
            ItemNode::Struct(StructNode { name: "S".to_string(), fields: vec![var(31, Some("a"), elementary("uint256"))] }),
            ItemNode::Enum(EnumNode { name: "E".to_string(), variants: vec!["X".to_string(), "Y".to_string()] }),
            ItemNode::Event(EventNode { name: "Ev".to_string(), parameters: vec![indexed], anonymous: true }),
            ItemNode::Error(ErrorNode { name: "Er".to_string(), parameters: vec![] }),
            ItemNode::Udvt(UdvtNode { name: "U".to_string(), ty: elementary("uint128") }),
            ItemNode::Function(function(FunctionKind::Modifier, "m", Some(vec![StmtNode::Placeholder]))),
        ],
    };
    let source = SourceNode {
        index: 3,
        file_name: "d.sol".to_string(),
        usings: vec![],
        items: vec![ItemNode::Contract(contract)],
    };
    assert_eq!(
        print(&source),
        "source 3 \"d.sol\" {\n    abstract contract D is B(1) {\n        using L for uint256;\n\n        struct S {\n            uint256 a;\n        }\n\n        enum E {X, Y}\n\n        event Ev(uint256 indexed v) anonymous;\n\n        error Er();\n\n        type U is uint128;\n\n        modifier m() internal {\n            _;\n        }\n    }\n}\n"
    );
    let contract = &source.items[0];
    assert_eq!(HirPrinter::display(contract), "abstract contract D is B, A");
    match contract {
        ItemNode::Contract(contract) => {
            assert_eq!(HirPrinter::display(&contract.items[0]), "struct S");
            assert_eq!(HirPrinter::display(&contract.items[1]), "enum E");
            assert_eq!(HirPrinter::display(&contract.items[2]), "event Ev(uint256 indexed v) anonymous");
            assert_eq!(HirPrinter::display(&contract.items[3]), "error Er()");
            assert_eq!(HirPrinter::display(&contract.items[4]), "type U is uint128");
            assert_eq!(HirPrinter::display(&contract.items[5]), "modifier m()");
        },
        _ => unreachable!(),
    }
}

#[test]
fn header_and_full_modes_place_modifiers_differently() {
    let mut k = function(FunctionKind::Function, "k", None);
    k.visibility = Visibility::Public;
    k.state_mutability = StateMutability::Payable;
    k.marked_virtual = true;
    k.override_ = true;
    k.overrides = vec!["A".to_string(), "B".to_string()];
    k.modifiers = vec![
        ModifierNode {
            item: ItemRef { id: ItemId::Function(FunctionId::new(1)), name: Some("onlyOwner".to_string()) },
            args: CallArgsNode::Unnamed(vec![]),
            args_dummy: true,
            args_snippet: None,
        },
        ModifierNode {
            item: ItemRef { id: ItemId::Function(FunctionId::new(2)), name: Some("m2".to_string()) },
            args: CallArgsNode::Unnamed(vec![lit("1")]),
            args_dummy: false,
            args_snippet: Some("  (1)\n".to_string()),
        },
    ];
    let item = ItemNode::Function(k);
    assert_eq!(HirPrinter::display(&item), "function k() public payable virtual override(A, B) onlyOwner m2(1)");
    assert_eq!(
        print(&source(7, "k.sol", vec![item])),
        "source 7 \"k.sol\" {\n    function k() public payable onlyOwner m2(1) virtual override(A, B);\n}\n"
    );
}

#[test]
fn header_kinds_and_getters() {
    let mut constructor = function(FunctionKind::Constructor, "ignored", Some(vec![]));
    constructor.name = None;
    constructor.state_mutability = StateMutability::Payable;
    assert_eq!(HirPrinter::display(&ItemNode::Function(constructor)), "constructor() payable");

    let mut receive = function(FunctionKind::Receive, "ignored", Some(vec![]));
    receive.name = None;
    receive.visibility = Visibility::External;
    receive.state_mutability = StateMutability::Payable;
    assert_eq!(HirPrinter::display(&ItemNode::Function(receive)), "receive() external payable");

    let mut yul = function(FunctionKind::Function, "y", None);
    yul.is_yul = true;
    assert_eq!(HirPrinter::display(&ItemNode::Function(yul)), "yul function y()");

    let mut getter = function(FunctionKind::Function, "total", None);
    getter.gettee = Some(VarRef { id: VariableId::new(9), name: None });
    getter.visibility = Visibility::External;
    getter.state_mutability = StateMutability::View;
    assert_eq!(
        print(&source(8, "g.sol", vec![ItemNode::Function(getter)])),
        "source 8 \"g.sol\" {\n    // getter for _var9\n    function total() external view;\n}\n"
    );
}

#[test]
fn header_array_sizes_come_from_the_source() {
    let mut sized = var(
        40,
        Some("arr"),
        TypeNode::Array(Box::new(elementary("uint256")), Some(Box::new(ident("N"))), Some(" N ".to_string())),
    );
    sized.visibility = Some(Visibility::Public);
    assert_eq!(HirPrinter::display(&ItemNode::Variable(sized)), "uint256[N] public arr");
    let unsourced = var(
        41,
        Some("arr"),
        TypeNode::Array(Box::new(elementary("uint256")), Some(Box::new(ident("N"))), None),
    );
    assert_eq!(HirPrinter::display(&ItemNode::Variable(unsourced)), "uint256[<error>] arr");
}

#[test]
fn prints_usings_and_all_sources() {
    let usings = vec![
        UsingNode {
            entries: vec![
                UsingEntryNode {
                    kind: UsingEntryKind::Functions(vec!["add".to_string(), "sub".to_string()]),
                    operator: Some("+".to_string()),
                },
                UsingEntryNode { kind: UsingEntryKind::Invalid, operator: None },
            ],
            ty: None,
            global: true,
        },
    ];
    let first = SourceNode { index: 0, file_name: "u.sol".to_string(), usings, items: vec![] };
    let second = source(1, "v.sol", vec![ItemNode::Enum(EnumNode { name: "E".to_string(), variants: vec![] })]);
    let text = HirPrinter::new().print_all(&vec![first, second]);
    assert_eq!(
        text,
        "source 0 \"u.sol\" {\n    using {add | sub as +, <error>} for * global;\n}\nsource 1 \"v.sol\" {\n    enum E {}\n}\n"
    );
}

#[test]
fn loop_sources_have_names() {
    assert_eq!(LoopSource::For.name(), "for");
    assert_eq!(LoopSource::While.name(), "while");
    assert_eq!(LoopSource::DoWhile.name(), "do while");
}

#[test]
fn default_case_is_a_trailing_case_without_constant() {
    let with_default = vec![
        SwitchCaseNode { constant: Some("1".to_string()), body: vec![] },
        SwitchCaseNode { constant: None, body: vec![] },
    ];
    assert!(default_case(&with_default).is_some_and(|case| case.constant.is_none()));
    let without_default = vec![SwitchCaseNode { constant: Some("1".to_string()), body: vec![] }];
    assert!(default_case(&without_default).is_none());
    assert!(default_case(&[]).is_none());
}
