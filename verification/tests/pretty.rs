use solar_sema::ids::{FunctionId, ItemId, VariableId};
use solar_sema::pretty::{HirPrettyPrint, HirPrettyPrinter};
use solar_sema::print::{
    CallArgsNode, ContractNode, DataLocation, EnumNode, ErrorNode, EventNode, ExprNode, FunctionKind, FunctionNode,
    ItemNode, ItemRef, LoopSource, ModifierNode, NamedArgNode, ResRef, StateMutability, StmtNode, StmtTryNode, StructNode,
    TryClauseNode, TypeNode, UdvtNode, VariableNode,
};
use solar_sema::variables::{VarMut, Visibility};

fn elementary(name: &str) -> TypeNode {
    TypeNode::Elementary(name.to_string())
}

fn var(id: usize, name: Option<&str>, ty: TypeNode) -> VariableNode {
    VariableNode {
        id: VariableId::new(id),
        name: name.map(|name| name.to_string()),
        ty,
        visibility: None,
        mutability: None,
        override_: false,
        overrides: vec![],
        data_location: None,
        indexed: false,
        initializer: None,
    }
}

fn named(name: &str) -> ItemRef {
    ItemRef { id: ItemId::Variable(VariableId::new(0)), name: Some(name.to_string()) }
}

fn ident(name: &str) -> ExprNode {
    ExprNode::Ident(vec![ResRef::Item(named(name))])
}

fn lit(text: &str) -> ExprNode {
    ExprNode::Lit(text.to_string())
}

fn call(callee: ExprNode, args: Vec<ExprNode>) -> ExprNode {
    ExprNode::Call(Box::new(callee), CallArgsNode::Unnamed(args), None)
}

fn function(kind: FunctionKind, name: &str, body: Option<Vec<StmtNode>>) -> FunctionNode {
    FunctionNode {
        gettee: None,
        is_yul: false,
        kind,
        name: Some(name.to_string()),
        parameters: vec![],
        visibility: Visibility::Internal,
        state_mutability: StateMutability::NonPayable,
        modifiers: vec![],
        marked_virtual: false,
        override_: false,
        overrides: vec![],
        return_parameters: vec![],
        body,
    }
}

#[test]
fn test_elementary_type_formatting() {
    let ty = elementary("uint256");
    assert_eq!(ty.pretty_print(), "uint256");
}

#[test]
fn pretty_prints_expressions() {
    let sum = ExprNode::Binary(Box::new(ident("x")), "+".to_string(), Box::new(ident("a")));
    assert_eq!(sum.pretty_print(), "x + a");
    let ternary = ExprNode::Ternary(Box::new(ident("c")), Box::new(lit("1")), Box::new(lit("2")));
    assert_eq!(ternary.pretty_print(), "c ? 1 : 2");
    let with_options = ExprNode::Call(
        Box::new(ExprNode::Member(Box::new(ident("a")), "f".to_string())),
        CallArgsNode::Unnamed(vec![lit("1"), lit("2")]),
        Some(vec![NamedArgNode { name: "value".to_string(), value: lit("3") }]),
    );
    assert_eq!(with_options.pretty_print(), "a.f{value: 3}(1, 2)");
    let named_args = ExprNode::Call(
        Box::new(ident("E")),
        CallArgsNode::Named(vec![NamedArgNode { name: "v".to_string(), value: lit("2") }]),
        None,
    );
    assert_eq!(named_args.pretty_print(), "E({v: 2})");
    let compound = ExprNode::Assign(Box::new(ident("p")), Some("+".to_string()), Box::new(lit("1")));
    assert_eq!(compound.pretty_print(), "p += 1");
    let plain = ExprNode::Assign(Box::new(ident("p")), None, Box::new(lit("1")));
    assert_eq!(plain.pretty_print(), "p = 1");
    let tuple = ExprNode::Tuple(vec![Some(lit("1")), None, Some(ExprNode::Ident(vec![]))]);
    assert_eq!(tuple.pretty_print(), "(1, , <unresolved>)");
    let slice = ExprNode::Slice(Box::new(ident("b")), Some(Box::new(lit("1"))), None);
    assert_eq!(slice.pretty_print(), "b[1:]");
    let delete = ExprNode::Delete(Box::new(ExprNode::Index(Box::new(ident("m")), None)));
    assert_eq!(delete.pretty_print(), "delete m[]");
    let unary = ExprNode::Unary("!".to_string(), true, Box::new(ExprNode::Unary("--".to_string(), false, Box::new(ident("i")))));
    assert_eq!(unary.pretty_print(), "!i--");
    let array = ExprNode::Array(vec![lit("1"), lit("2")]);
    assert_eq!(array.pretty_print(), "[1, 2]");
    let payable = ExprNode::Payable(Box::new(call(ExprNode::Type(elementary("address")), vec![lit("0")])));
    assert_eq!(payable.pretty_print(), "payable(address(0))");
    let created = call(ExprNode::New(TypeNode::Array(Box::new(elementary("uint8")), None, None)), vec![lit("3")]);
    assert_eq!(created.pretty_print(), "new uint8[](3)");
    let type_call = ExprNode::TypeCall(elementary("uint256"));
    assert_eq!(type_call.pretty_print(), "type(uint256)");
    assert_eq!(ExprNode::Invalid.pretty_print(), "<error>");
}

#[test]
fn pretty_prints_resolutions_by_their_first_candidate() {
    let overloaded = ExprNode::Ident(vec![ResRef::Item(named("f")), ResRef::Item(named("g"))]);
    assert_eq!(overloaded.pretty_print(), "f");
    let unnamed = ExprNode::Ident(vec![ResRef::Item(ItemRef { id: ItemId::Function(FunctionId::new(4)), name: None })]);
    assert_eq!(unnamed.pretty_print(), "<unnamed>");
    let builtin = ExprNode::Ident(vec![ResRef::Builtin("keccak256".to_string(), "Keccak256".to_string())]);
    assert_eq!(builtin.pretty_print(), "Keccak256");
    let namespace = ExprNode::Ident(vec![ResRef::Namespace("x.sol".to_string(), "Real(\"x.sol\")".to_string())]);
    assert_eq!(namespace.pretty_print(), "Real(\"x.sol\")");
    let mut text = String::new();
    HirPrettyPrinter::new().fmt_res(&ResRef::Invalid, &mut text);
    assert_eq!(text, "<error>");
}

#[test]
fn pretty_prints_types() {
    let mapping = TypeNode::Mapping(Box::new(elementary("address")), Some("owner".to_string()), Box::new(elementary("bool")), None);
    assert_eq!(mapping.pretty_print(), "mapping(address owner => bool)");
    let sized = TypeNode::Array(Box::new(elementary("uint8")), Some(Box::new(lit("2"))), Some(" 2 ".to_string()));
    assert_eq!(sized.pretty_print(), "uint8[2]");
    let external = TypeNode::Function(
        vec![var(1, None, elementary("uint256"))],
        Visibility::External,
        StateMutability::Pure,
        vec![var(2, Some("z"), elementary("bool"))],
    );
    assert_eq!(external.pretty_print(), "function(uint256) external pure returns (bool z)");
    let internal = TypeNode::Function(vec![], Visibility::Internal, StateMutability::NonPayable, vec![]);
    assert_eq!(internal.pretty_print(), "function()");
    let custom = TypeNode::Custom(ItemRef { id: ItemId::Struct(0), name: None });
    assert_eq!(custom.pretty_print(), "<custom>");
    assert_eq!(TypeNode::Invalid.pretty_print(), "<error>");
}

#[test]
fn pretty_prints_statements_and_blocks() {
    let block = StmtNode::Block(vec![
        StmtNode::Expr(ident("x")),
        StmtNode::If(ident("c"), Box::new(StmtNode::Expr(ident("y"))), Some(Box::new(StmtNode::Block(vec![StmtNode::Break])))),
    ]);
    assert_eq!(block.pretty_print(), "{\n    x;\n    if (c) y; else {\n        break;\n    }\n}");

    let mut message = var(12, Some("m"), elementary("string"));
    message.data_location = Some(DataLocation::Memory);
    let try_stmt = StmtNode::Try(StmtTryNode {
        expr: call(ident("t"), vec![]),
        clauses: vec![
            TryClauseNode {
                name: None,
                args: vec![var(11, Some("r"), elementary("uint256"))],
                block: vec![StmtNode::Expr(ident("r"))],
            },
            TryClauseNode { name: Some("Error".to_string()), args: vec![message], block: vec![] },
        ],
    });
    assert_eq!(try_stmt.pretty_print(), "try t() returns(uint256 r) {\n    r;\n} catch Error(string memory m) {\n}");

    assert_eq!(StmtNode::Loop(vec![StmtNode::Continue], LoopSource::For).pretty_print(), "for {\n    continue;\n}");
    let multi = StmtNode::DeclMulti(vec![Some(var(5, Some("p"), elementary("uint256"))), None], call(ident("h"), vec![]));
    assert_eq!(multi.pretty_print(), "(uint256 p, ) = h();");
    let mut single = var(6, Some("x"), elementary("uint256"));
    single.initializer = Some(Box::new(lit("1")));
    assert_eq!(StmtNode::DeclSingle(single).pretty_print(), "uint256 x = 1;");
    assert_eq!(StmtNode::Return(Some(lit("1"))).pretty_print(), "return 1;");
    assert_eq!(StmtNode::Return(None).pretty_print(), "return;");
    assert_eq!(StmtNode::Emit(call(ident("E"), vec![])).pretty_print(), "emit E();");
    assert_eq!(StmtNode::Revert(call(ident("R"), vec![])).pretty_print(), "revert R();");
    assert_eq!(StmtNode::UncheckedBlock(vec![]).pretty_print(), "unchecked {\n}");
    assert_eq!(StmtNode::Placeholder.pretty_print(), "_;");
    assert_eq!(StmtNode::Invalid.pretty_print(), "<error>;");
}

#[test]
fn pretty_prints_functions_and_modifiers() {
    let mut f = function(
        FunctionKind::Function,
        "f",
        Some(vec![StmtNode::Return(Some(ExprNode::Binary(Box::new(ident("x")), "+".to_string(), Box::new(ident("a")))))]),
    );
    f.parameters = vec![var(2, Some("a"), elementary("uint256"))];
    f.visibility = Visibility::External;
    f.state_mutability = StateMutability::View;
    f.return_parameters = vec![var(3, None, elementary("uint256"))];
    assert_eq!(f.pretty_print(), "function f(uint256 a) external view returns (uint256) {\n    return x + a;\n}");

    assert_eq!(function(FunctionKind::Function, "g", None).pretty_print(), "function g() internal;");
    assert_eq!(
        function(FunctionKind::Modifier, "m", Some(vec![StmtNode::Placeholder])).pretty_print(),
        "modifier m() {\n    _;\n}"
    );

    let mut k = function(FunctionKind::Function, "k", None);
    k.visibility = Visibility::Public;
    k.state_mutability = StateMutability::Payable;
    k.marked_virtual = true;
    k.override_ = true;
    k.overrides = vec!["A".to_string(), "B".to_string()];
    k.modifiers = vec![
        ModifierNode {
            item: ItemRef { id: ItemId::Function(FunctionId::new(1)), name: Some("onlyOwner".to_string()) },
            args: CallArgsNode::Unnamed(vec![]),
            args_dummy: true,
            args_snippet: None,
        },
        ModifierNode {
            item: ItemRef { id: ItemId::Function(FunctionId::new(2)), name: Some("m2".to_string()) },
            args: CallArgsNode::Unnamed(vec![lit("1")]),
            args_dummy: false,
            args_snippet: None,
        },
    ];
    assert_eq!(k.pretty_print(), "function k() public payable virtual override(A, B) onlyOwner m2(1);");

    let odd = ModifierNode {
        item: ItemRef { id: ItemId::Variable(VariableId::new(1)), name: Some("v".to_string()) },
        args: CallArgsNode::Named(vec![NamedArgNode { name: "x".to_string(), value: lit("1") }]),
        args_dummy: false,
        args_snippet: None,
    };
    let mut text = String::new();
    HirPrettyPrinter::new().fmt_modifier(&odd, &mut text);
    assert_eq!(text, "<modifier>({x: 1})");
}

#[test]
fn pretty_prints_declarations() {
    let mut x = var(1, Some("x"), elementary("uint256"));
    x.visibility = Some(Visibility::Public);
    x.mutability = Some(VarMut::Constant);
    x.override_ = true;
    x.initializer = Some(Box::new(lit("1")));
    assert_eq!(x.pretty_print(), "uint256 public constant override x = 1;");

    let mut indexed = var(30, Some("v"), elementary("uint256"));
    indexed.indexed = true;
    let event = EventNode { name: "Ev".to_string(), parameters: vec![indexed], anonymous: true };
    assert_eq!(event.pretty_print(), "event Ev(uint256 indexed v) anonymous;");
    let error = ErrorNode { name: "Er".to_string(), parameters: vec![var(31, Some("code"), elementary("uint8"))] };
    assert_eq!(error.pretty_print(), "error Er(uint8 code);");
    let udvt = UdvtNode { name: "U".to_string(), ty: elementary("uint128") };
    let mut text = String::new();
    HirPrettyPrinter::new().fmt_udvt(&udvt, &mut text);
    assert_eq!(text, "type U is uint128;");
    let empty_enum = EnumNode { name: "Z".to_string(), variants: vec![] };
    assert_eq!(empty_enum.pretty_print(), "enum Z {\n}");
}

#[test]
fn pretty_prints_contracts() {
    let contract = ContractNode {
        kind: "contract".to_string(),
        name: "C".to_string(),
        layout: None,
        bases_args: vec![],
        bases: vec!["A".to_string(), "B".to_string()],
        usings: vec![],
        items: vec![
            ItemNode::Variable(var(1, Some("x"), elementary("uint256"))),
            ItemNode::Function(function(FunctionKind::Function, "g", None)),
            ItemNode::Struct(StructNode { name: "S".to_string(), fields: vec![var(2, Some("a"), elementary("uint256"))] }),
            ItemNode::Enum(EnumNode { name: "E".to_string(), variants: vec!["X".to_string(), "Y".to_string()] }),
        ],
    };
    assert_eq!(
        contract.pretty_print(),
        "contract C is A, B {\n    uint256 x;\n    function g() internal;\n    struct S {\n        uint256 a;\n}\n    enum E {\n        X,\n        Y\n}\n}\n"
    );
    let mut params = String::new();
    HirPrettyPrinter::new().fmt_params(&vec![var(3, Some("a"), elementary("uint256")), var(4, None, elementary("bool"))], &mut params);
    assert_eq!(params, "uint256 a, bool");
}
