//! Printing of the HIR in a Solidity-like form.
//!
//! The printer reads the HIR as a tree in which every name it prints is resolved: item and
//! variable names, literals, operators, elementary types and source snippets are given as text.
//! What the printer decides (which keywords, separators, synthetic names and indentation appear,
//! and what a header omits) is stated by the `*_text` specification functions.

use vstd::prelude::*;

use crate::ids::{ItemId, VariableId};
pub use crate::variables::DataLocation;
use crate::variables::{VarMut, Visibility};
use crate::word::{append_decimal, decimal};

verus! {

/// How much of a declaration the printer writes.
#[derive(Clone, Copy, Debug, PartialEq, Eq, Structural)]
pub enum PrintMode {
    /// Whole declarations, with bodies, initializers and synthetic names.
    Full,
    /// Declaration headers only, as a diagnostic shows them.
    Header,
}

/// Where a variable is declared.
#[derive(Clone, Copy, Debug, PartialEq, Eq, Structural)]
pub enum VarMode {
    /// A state or file-level variable.
    Item,
    /// A parameter, struct field or event/error parameter.
    Parameter,
    /// A return variable.
    Return,
    /// A local variable.
    Local,
}


/// The state mutability of a function.
#[derive(Clone, Copy, Debug, PartialEq, Eq, Structural)]
pub enum StateMutability {
    /// `pure`.
    Pure,
    /// `view`.
    View,
    /// `payable`.
    Payable,
    /// `nonpayable`, the default.
    NonPayable,
}

/// The kind of a function.
#[derive(Clone, Copy, Debug, PartialEq, Eq, Structural)]
pub enum FunctionKind {
    /// A constructor.
    Constructor,
    /// An ordinary function.
    Function,
    /// A fallback function.
    Fallback,
    /// A receive function.
    Receive,
    /// A modifier.
    Modifier,
}

/// The loop statement that a HIR loop was lowered from.
#[derive(Clone, Copy, Debug, PartialEq, Eq, Structural)]
pub enum LoopSource {
    /// A `for (...) { ... }` loop.
    For,
    /// A `while (...) { ... }` loop.
    While,
    /// A `do { ... } while (...);` loop.
    DoWhile,
}

/// The keyword of a data location.
pub open spec fn data_location_text(location: DataLocation) -> Seq<char> {
    match location {
        DataLocation::Storage => "storage"@,
        DataLocation::Transient => "transient"@,
        DataLocation::Memory => "memory"@,
        DataLocation::Calldata => "calldata"@,
    }
}

/// The keyword of a state mutability.
pub open spec fn state_mutability_text(mutability: StateMutability) -> Seq<char> {
    match mutability {
        StateMutability::Pure => "pure"@,
        StateMutability::View => "view"@,
        StateMutability::Payable => "payable"@,
        StateMutability::NonPayable => "nonpayable"@,
    }
}

/// The keyword of a visibility.
pub open spec fn visibility_text(visibility: Visibility) -> Seq<char> {
    match visibility {
        Visibility::Private => "private"@,
        Visibility::Internal => "internal"@,
        Visibility::Public => "public"@,
        Visibility::External => "external"@,
    }
}

/// The keyword of a variable mutability.
pub open spec fn var_mut_text(mutability: VarMut) -> Seq<char> {
    match mutability {
        VarMut::Constant => "constant"@,
        VarMut::Immutable => "immutable"@,
    }
}

/// The keyword of a function kind.
pub open spec fn function_kind_text(kind: FunctionKind) -> Seq<char> {
    match kind {
        FunctionKind::Constructor => "constructor"@,
        FunctionKind::Function => "function"@,
        FunctionKind::Fallback => "fallback"@,
        FunctionKind::Receive => "receive"@,
        FunctionKind::Modifier => "modifier"@,
    }
}

/// The name of a loop source.
pub open spec fn loop_source_text(source: LoopSource) -> Seq<char> {
    match source {
        LoopSource::For => "for"@,
        LoopSource::While => "while"@,
        LoopSource::DoWhile => "do while"@,
    }
}

impl LoopSource {
    /// Returns the name of the loop source.
    pub fn name(self) -> (name: &'static str)
        ensures
            name@ == loop_source_text(self),
    {
        match self {
            LoopSource::For => "for",
            LoopSource::While => "while",
            LoopSource::DoWhile => "do while",
        }
    }
}

/// The number of whitespace characters at the start of `text`.
pub open spec fn leading_white_space(text: Seq<char>) -> nat
    decreases text.len(),
{
    if text.len() == 0 || !is_white_space(text[0]) {
        0
    } else {
        1 + leading_white_space(text.drop_first())
    }
}

/// The number of whitespace characters at the end of `text`.
pub open spec fn trailing_white_space(text: Seq<char>) -> nat
    decreases text.len(),
{
    if text.len() == 0 || !is_white_space(text.last()) {
        0
    } else {
        1 + trailing_white_space(text.drop_last())
    }
}

/// `text` with its leading and trailing whitespace removed, as `str::trim` returns it.
pub open spec fn trimmed(text: Seq<char>) -> Seq<char> {
    let rest = text.subrange(leading_white_space(text) as int, text.len() as int);
    rest.subrange(0, rest.len() - trailing_white_space(rest))
}

/// Whether `c` has the Unicode property White_Space, the whitespace that `str::trim` removes.
pub open spec fn is_white_space(c: char) -> bool {
    let code = c as u32;
    (0x09 <= code && code <= 0x0D) || code == 0x20 || code == 0x85 || code == 0xA0 || code == 0x1680 || (0x2000
        <= code && code <= 0x200A) || code == 0x2028 || code == 0x2029 || code == 0x202F || code == 0x205F || code
        == 0x3000
}

/// Whether `result` is `text` without its leading and trailing whitespace: a contiguous part of
/// `text`, everything before and after it whitespace, and its first and last characters not.
pub open spec fn trims_to(text: Seq<char>, result: Seq<char>) -> bool {
    exists|start: int, end: int|
        #![trigger text.subrange(start, end)]
        0 <= start <= end <= text.len() && result == text.subrange(start, end) && (forall|k: int|
            0 <= k < start ==> is_white_space(#[trigger] text[k])) && (forall|k: int|
            end <= k < text.len() ==> is_white_space(#[trigger] text[k])) && (start < end ==> !is_white_space(
            text[start]) && !is_white_space(text[end - 1]))
}

/// `str::trim`: the snippet without its leading and trailing whitespace, where whitespace is what
/// has the Unicode property White_Space, as the documentation of `str::trim` defines it.
#[verifier::external_body]
fn trim_snippet(text: &str) -> (trimmed_text: &str)
    ensures
        trimmed_text@ == trimmed(text@),
        trims_to(text@, trimmed_text@),
{
    text.trim()
}

/// A reference to an item: its identifier and its declared name, if it has one.
#[derive(Debug)]
pub struct ItemRef {
    /// The item's identifier.
    pub id: ItemId,
    /// The item's declared name.
    pub name: Option<String>,
}

/// A reference to a variable: its identifier and its declared name, if it has one.
#[derive(Debug)]
pub struct VarRef {
    /// The variable's identifier.
    pub id: VariableId,
    /// The variable's declared name.
    pub name: Option<String>,
}

/// A resolution of a name.
#[derive(Debug)]
pub enum ResRef {
    /// A resolved item.
    Item(ItemRef),
    /// An import namespace, with the display name of its source file and the debug form of that
    /// name.
    Namespace(String, String),
    /// A builtin symbol, with its name and the name of its variant.
    Builtin(String, String),
    /// An erroneous resolution.
    Invalid,
}

/// An expression, with its names resolved.
#[derive(Debug)]
pub enum ExprNode {
    /// An array literal: `[a, b]`.
    Array(Vec<ExprNode>),
    /// An assignment, with the text of its binary operator when it is compound.
    Assign(Box<ExprNode>, Option<String>, Box<ExprNode>),
    /// A binary operation, with the text of its operator.
    Binary(Box<ExprNode>, String, Box<ExprNode>),
    /// A call, with its arguments and its call options.
    Call(Box<ExprNode>, CallArgsNode, Option<Vec<NamedArgNode>>),
    /// `delete e`.
    Delete(Box<ExprNode>),
    /// A name with its resolutions.
    Ident(Vec<ResRef>),
    /// An index access `base[index]`.
    Index(Box<ExprNode>, Option<Box<ExprNode>>),
    /// A slice `base[start:end]`.
    Slice(Box<ExprNode>, Option<Box<ExprNode>>, Option<Box<ExprNode>>),
    /// A literal, with its text.
    Lit(String),
    /// A member access, with the member's name.
    Member(Box<ExprNode>, String),
    /// A Yul member access, with the member's name.
    YulMember(Box<ExprNode>, String),
    /// `new T`.
    New(TypeNode),
    /// `payable(e)`.
    Payable(Box<ExprNode>),
    /// A conditional expression.
    Ternary(Box<ExprNode>, Box<ExprNode>, Box<ExprNode>),
    /// A tuple, an omitted component being `None`.
    Tuple(Vec<Option<ExprNode>>),
    /// `type(T)`.
    TypeCall(TypeNode),
    /// A type used as an expression.
    Type(TypeNode),
    /// A unary operation, with the text of its operator and whether it is a prefix.
    Unary(String, bool, Box<ExprNode>),
    /// An erroneous expression.
    Invalid,
}

/// A named argument `name: value`.
#[derive(Debug)]
pub struct NamedArgNode {
    /// The argument's name.
    pub name: String,
    /// The argument's value.
    pub value: ExprNode,
}

/// The arguments of a call.
#[derive(Debug)]
pub enum CallArgsNode {
    /// Positional arguments: `(1, 2)`.
    Unnamed(Vec<ExprNode>),
    /// Named arguments: `({x: 1, y: 2})`.
    Named(Vec<NamedArgNode>),
}

/// A type name, with its names resolved.
#[derive(Debug)]
pub enum TypeNode {
    /// An elementary type, with its text.
    Elementary(String),
    /// An array type: its element type, its size expression and the source snippet of the size,
    /// when the source map has one.
    Array(Box<TypeNode>, Option<Box<ExprNode>>, Option<String>),
    /// A function type: parameters, visibility, state mutability and return variables.
    Function(Vec<VariableNode>, Visibility, StateMutability, Vec<VariableNode>),
    /// A mapping type: key type, key name, value type and value name.
    Mapping(Box<TypeNode>, Option<String>, Box<TypeNode>, Option<String>),
    /// A user-defined type.
    Custom(ItemRef),
    /// An erroneous type.
    Invalid,
}

/// A variable declaration.
#[derive(Debug)]
pub struct VariableNode {
    /// The variable's identifier.
    pub id: VariableId,
    /// The variable's declared name.
    pub name: Option<String>,
    /// The variable's type.
    pub ty: TypeNode,
    /// The declared visibility.
    pub visibility: Option<Visibility>,
    /// The declared mutability.
    pub mutability: Option<VarMut>,
    /// Whether the declaration is marked `override`.
    pub override_: bool,
    /// The names of the contracts listed in the `override` specifier.
    pub overrides: Vec<String>,
    /// The data location.
    pub data_location: Option<DataLocation>,
    /// Whether the event parameter is `indexed`.
    pub indexed: bool,
    /// The initializer.
    pub initializer: Option<Box<ExprNode>>,
}

/// The name of `item` as the printer writes it: its declared name; otherwise a synthetic name in
/// full mode and `<error>` in header mode.
pub open spec fn item_name_text(item: ItemRef, mode: PrintMode) -> Seq<char> {
    match item.name {
        Some(name) => name@,
        None => match mode {
            PrintMode::Full => synthetic_item_name(item.id),
            PrintMode::Header => "<error>"@,
        },
    }
}

/// The synthetic name of an unnamed item: its kind and the index of its identifier.
pub open spec fn synthetic_item_name(id: ItemId) -> Seq<char> {
    match id {
        ItemId::Contract(id) => "_contract"@ + decimal(id.0 as nat),
        ItemId::Function(id) => "_function"@ + decimal(id.0 as nat),
        ItemId::Variable(id) => "_var"@ + decimal(id.0 as nat),
        ItemId::Struct(index) => "_struct"@ + decimal(index as nat),
        ItemId::Enum(index) => "_enum"@ + decimal(index as nat),
        ItemId::Udvt(index) => "_udvt"@ + decimal(index as nat),
        ItemId::Error(index) => "_error"@ + decimal(index as nat),
        ItemId::Event(index) => "_event"@ + decimal(index as nat),
    }
}

/// The name of a variable: its declared name, or a synthetic one.
pub open spec fn var_name_text(id: VariableId, name: Option<String>) -> Seq<char> {
    match name {
        Some(name) => name@,
        None => "_var"@ + decimal(id.0 as nat),
    }
}

/// The label of a resolution.
pub open spec fn res_name_text(res: ResRef, mode: PrintMode) -> Seq<char> {
    match res {
        ResRef::Item(item) => item_name_text(item, mode),
        ResRef::Namespace(file, _) => "namespace("@ + file@ + ")"@,
        ResRef::Builtin(name, _) => name@,
        ResRef::Invalid => "<error>"@,
    }
}

/// The labels of the first `count` resolutions, separated by ` | `.
pub open spec fn res_labels_text(res: Seq<ResRef>, count: nat, mode: PrintMode) -> Seq<char>
    decreases count,
{
    if count == 0 || count > res.len() {
        Seq::empty()
    } else if count == 1 {
        res_name_text(res[0], mode)
    } else {
        res_labels_text(res, (count - 1) as nat, mode) + " | "@ + res_name_text(res[count - 1], mode)
    }
}

/// The text of a list of resolutions: `<unresolved>` for none, the label of a single one, and an
/// `overload(...)` of several.
pub open spec fn res_list_text(res: Seq<ResRef>, mode: PrintMode) -> Seq<char> {
    if res.len() == 0 {
        "<unresolved>"@
    } else if res.len() == 1 {
        res_name_text(res[0], mode)
    } else {
        "overload("@ + res_labels_text(res, res.len(), mode) + ")"@
    }
}

/// The first `count` strings, separated by `separator`.
pub open spec fn names_text(names: Seq<String>, count: nat, separator: Seq<char>) -> Seq<char>
    decreases count,
{
    if count == 0 || count > names.len() {
        Seq::empty()
    } else if count == 1 {
        names[0]@
    } else {
        names_text(names, (count - 1) as nat, separator) + separator + names[count - 1]@
    }
}

/// The parenthesized names of the contracts in an `override` specifier; nothing when there are
/// none.
pub open spec fn override_list_text(overrides: Seq<String>) -> Seq<char> {
    if overrides.len() == 0 {
        Seq::empty()
    } else {
        "("@ + names_text(overrides, overrides.len(), ", "@) + ")"@
    }
}

/// ` m` for a state mutability other than `nonpayable`, nothing for `nonpayable`.
pub open spec fn state_mutability_suffix(mutability: StateMutability) -> Seq<char> {
    if mutability == StateMutability::NonPayable {
        Seq::empty()
    } else {
        " "@ + state_mutability_text(mutability)
    }
}

/// `text` when `present`, nothing otherwise.
pub open spec fn text_if(present: bool, text: Seq<char>) -> Seq<char> {
    if present {
        text
    } else {
        Seq::empty()
    }
}

/// The text of an optional expression: nothing when absent.
pub open spec fn opt_expr_text(expr: Option<Box<ExprNode>>, mode: PrintMode) -> Seq<char>
    decreases expr, 1nat,
{
    match expr {
        Some(expr) => expr_text(*expr, mode),
        None => Seq::empty(),
    }
}

/// The text of an expression.
pub open spec fn expr_text(expr: ExprNode, mode: PrintMode) -> Seq<char>
    decreases expr, 0nat,
{
    match expr {
        ExprNode::Array(exprs) => "["@ + exprs_text(exprs@, exprs@.len(), mode) + "]"@,
        ExprNode::Assign(lhs, op, rhs) => expr_text(*lhs, mode) + " "@ + match op {
            Some(op) => op@,
            None => Seq::empty(),
        } + "= "@ + expr_text(*rhs, mode),
        ExprNode::Binary(lhs, op, rhs) => "("@ + expr_text(*lhs, mode) + " "@ + op@ + " "@ + expr_text(*rhs, mode)
            + ")"@,
        ExprNode::Call(callee, args, options) => expr_text(*callee, mode) + match options {
            Some(options) => " { "@ + named_args_text(options@, options@.len(), mode) + " }"@,
            None => Seq::empty(),
        } + call_args_text(args, mode),
        ExprNode::Delete(expr) => "delete "@ + expr_text(*expr, mode),
        ExprNode::Ident(res) => res_list_text(res@, mode),
        ExprNode::Index(base, index) => expr_text(*base, mode) + "["@ + opt_expr_text(index, mode) + "]"@,
        ExprNode::Slice(base, start, end) => expr_text(*base, mode) + "["@ + opt_expr_text(start, mode) + ":"@
            + opt_expr_text(end, mode) + "]"@,
        ExprNode::Lit(text) => text@,
        ExprNode::Member(base, member) => expr_text(*base, mode) + "."@ + member@,
        ExprNode::YulMember(base, member) => expr_text(*base, mode) + "."@ + member@,
        ExprNode::New(ty) => "new "@ + ty_text(ty, mode),
        ExprNode::Payable(expr) => "payable("@ + expr_text(*expr, mode) + ")"@,
        ExprNode::Ternary(condition, then_expr, else_expr) => "("@ + expr_text(*condition, mode) + " ? "@
            + expr_text(*then_expr, mode) + " : "@ + expr_text(*else_expr, mode) + ")"@,
        ExprNode::Tuple(exprs) => "("@ + opt_exprs_text(exprs@, exprs@.len(), mode) + ")"@,
        ExprNode::TypeCall(ty) => "type("@ + ty_text(ty, mode) + ")"@,
        ExprNode::Type(ty) => ty_text(ty, mode),
        ExprNode::Unary(op, prefix, expr) => if prefix {
            op@ + expr_text(*expr, mode)
        } else {
            expr_text(*expr, mode) + op@
        },
        ExprNode::Invalid => "<error>"@,
    }
}

/// The first `count` expressions, separated by `, `.
pub open spec fn exprs_text(exprs: Seq<ExprNode>, count: nat, mode: PrintMode) -> Seq<char>
    decreases exprs, count,
{
    if count == 0 || count > exprs.len() {
        Seq::empty()
    } else if count == 1 {
        expr_text(exprs[0], mode)
    } else {
        exprs_text(exprs, (count - 1) as nat, mode) + ", "@ + expr_text(exprs[count - 1], mode)
    }
}

/// The first `count` tuple components, separated by `, `; an omitted one is empty.
pub open spec fn opt_exprs_text(exprs: Seq<Option<ExprNode>>, count: nat, mode: PrintMode) -> Seq<char>
    decreases exprs, count,
{
    if count == 0 || count > exprs.len() {
        Seq::empty()
    } else {
        let component = match exprs[count - 1] {
            Some(expr) => expr_text(expr, mode),
            None => Seq::empty(),
        };
        if count == 1 {
            component
        } else {
            opt_exprs_text(exprs, (count - 1) as nat, mode) + ", "@ + component
        }
    }
}

/// The first `count` named arguments `name: value`, separated by `, `.
pub open spec fn named_args_text(args: Seq<NamedArgNode>, count: nat, mode: PrintMode) -> Seq<char>
    decreases args, count,
{
    if count == 0 || count > args.len() {
        Seq::empty()
    } else {
        let arg = args[count - 1].name@ + ": "@ + expr_text(args[count - 1].value, mode);
        if count == 1 {
            arg
        } else {
            named_args_text(args, (count - 1) as nat, mode) + ", "@ + arg
        }
    }
}

/// The parenthesized arguments of a call.
pub open spec fn call_args_text(args: CallArgsNode, mode: PrintMode) -> Seq<char>
    decreases args, 0nat,
{
    match args {
        CallArgsNode::Unnamed(exprs) => "("@ + exprs_text(exprs@, exprs@.len(), mode) + ")"@,
        CallArgsNode::Named(named) => "({"@ + named_args_text(named@, named@.len(), mode) + "})"@,
    }
}

/// The text of a type name.
pub open spec fn ty_text(ty: TypeNode, mode: PrintMode) -> Seq<char>
    decreases ty, 0nat,
{
    match ty {
        TypeNode::Elementary(text) => text@,
        TypeNode::Array(element, size, snippet) => ty_text(*element, mode) + "["@ + match size {
            Some(size) => match mode {
                PrintMode::Header => match snippet {
                    Some(snippet) => trimmed(snippet@),
                    None => "<error>"@,
                },
                PrintMode::Full => expr_text(*size, mode),
            },
            None => Seq::empty(),
        } + "]"@,
        TypeNode::Function(parameters, visibility, mutability, outputs) => "function("@ + vars_text(
            parameters@,
            parameters@.len(),
            VarMode::Parameter,
            mode,
        ) + ")"@ + " "@ + visibility_text(visibility) + state_mutability_suffix(mutability) + text_if(
            outputs@.len() > 0,
            " returns ("@ + vars_text(outputs@, outputs@.len(), VarMode::Return, mode) + ")"@,
        ),
        TypeNode::Mapping(key, key_name, value, value_name) => "mapping("@ + ty_text(*key, mode) + match key_name {
            Some(name) => " "@ + name@,
            None => Seq::empty(),
        } + " => "@ + ty_text(*value, mode) + match value_name {
            Some(name) => " "@ + name@,
            None => Seq::empty(),
        } + ")"@,
        TypeNode::Custom(item) => item_name_text(item, mode),
        TypeNode::Invalid => "<error>"@,
    }
}

/// The visibility, mutability and `override` specifier of a variable declaration.
pub open spec fn var_attributes_text(var: VariableNode) -> Seq<char> {
    (match var.visibility {
        Some(visibility) => " "@ + visibility_text(visibility),
        None => Seq::empty(),
    }) + (match var.mutability {
        Some(mutability) => " "@ + var_mut_text(mutability),
        None => Seq::empty(),
    }) + text_if(var.override_, " override"@ + override_list_text(var.overrides@))
}

/// The declared name of a variable as the printer writes it: the name or a synthetic one in full
/// mode, the name if any in header mode.
pub open spec fn var_decl_name_text(var: VariableNode, mode: PrintMode) -> Seq<char> {
    match mode {
        PrintMode::Full => " "@ + var_name_text(var.id, var.name),
        PrintMode::Header => match var.name {
            Some(name) => " "@ + name@,
            None => Seq::empty(),
        },
    }
}

/// Everything a variable declaration writes between its type and its name.
pub open spec fn var_modifiers_text(var: VariableNode, var_mode: VarMode, mode: PrintMode) -> Seq<char> {
    text_if(mode == PrintMode::Header && var_mode == VarMode::Item, var_attributes_text(var)) + (match var.data_location {
        Some(location) => " "@ + data_location_text(location),
        None => Seq::empty(),
    }) + text_if(mode == PrintMode::Full && var_mode == VarMode::Item, var_attributes_text(var)) + text_if(
        var.indexed,
        " indexed"@,
    )
}

/// The text of a variable declaration in `var_mode`.
pub open spec fn var_text(var: VariableNode, var_mode: VarMode, mode: PrintMode) -> Seq<char>
    decreases var, 0nat,
{
    ty_text(var.ty, mode) + var_modifiers_text(var, var_mode, mode) + var_decl_name_text(var, mode) + match var.initializer {
        Some(initializer) => text_if(mode == PrintMode::Full, " = "@ + expr_text(*initializer, mode)),
        None => Seq::empty(),
    }
}

/// The first `count` variable declarations, separated by `, `.
pub open spec fn vars_text(vars: Seq<VariableNode>, count: nat, var_mode: VarMode, mode: PrintMode) -> Seq<char>
    decreases vars, count,
{
    if count == 0 || count > vars.len() {
        Seq::empty()
    } else if count == 1 {
        var_text(vars[0], var_mode, mode)
    } else {
        vars_text(vars, (count - 1) as nat, var_mode, mode) + ", "@ + var_text(vars[count - 1], var_mode, mode)
    }
}

/// The text of a condition: a binary operation is written without its parentheses.
pub open spec fn condition_text(expr: ExprNode, mode: PrintMode) -> Seq<char> {
    match expr {
        ExprNode::Binary(lhs, op, rhs) => expr_text(*lhs, mode) + " "@ + op@ + " "@ + expr_text(*rhs, mode),
        _ => expr_text(expr, mode),
    }
}

/// A statement, with its names resolved.
#[derive(Debug)]
pub enum StmtNode {
    /// A single-variable declaration.
    DeclSingle(VariableNode),
    /// A multi-variable declaration, an omitted variable being `None`, with its value.
    DeclMulti(Vec<Option<VariableNode>>, ExprNode),
    /// A block.
    Block(Vec<StmtNode>),
    /// An `unchecked` block.
    UncheckedBlock(Vec<StmtNode>),
    /// An inline assembly block.
    AssemblyBlock(Vec<StmtNode>),
    /// `emit e;`.
    Emit(ExprNode),
    /// `revert e;`.
    Revert(ExprNode),
    /// `return;` or `return e;`.
    Return(Option<ExprNode>),
    /// `break;`.
    Break,
    /// `continue;`.
    Continue,
    /// A loop, with the statement it was lowered from.
    Loop(Vec<StmtNode>, LoopSource),
    /// `if (c) s else s'`.
    If(ExprNode, Box<StmtNode>, Option<Box<StmtNode>>),
    /// A Yul `switch`, with its selector and cases.
    Switch(ExprNode, Vec<SwitchCaseNode>),
    /// A `try` statement.
    Try(StmtTryNode),
    /// An expression statement.
    Expr(ExprNode),
    /// The modifier placeholder `_;`.
    Placeholder,
    /// An erroneous statement.
    Invalid,
}

/// A case of a Yul `switch`: its constant, absent for `default`, and its body.
#[derive(Debug)]
pub struct SwitchCaseNode {
    /// The text of the case constant.
    pub constant: Option<String>,
    /// The case body.
    pub body: Vec<StmtNode>,
}

/// Returns the default case of a Yul `switch` with these cases, if any: the last case, when it
/// has no constant.
pub fn default_case(cases: &[SwitchCaseNode]) -> (default: Option<&SwitchCaseNode>)
    ensures
        match default {
            Some(case) => cases@.len() > 0 && *case == cases@.last() && case.constant is None,
            None => cases@.len() == 0 || cases@.last().constant is Some,
        },
{
    if cases.len() == 0 {
        return None;
    }
    let last = &cases[cases.len() - 1];
    match last.constant {
        None => Some(last),
        Some(_) => None,
    }
}

/// A `try` statement: its call and its clauses, the `returns` clause first.
#[derive(Debug)]
pub struct StmtTryNode {
    /// The call expression.
    pub expr: ExprNode,
    /// The clauses.
    pub clauses: Vec<TryClauseNode>,
}

/// A clause of a `try` statement.
#[derive(Debug)]
pub struct TryClauseNode {
    /// The name of a `catch` clause.
    pub name: Option<String>,
    /// The clause's parameters.
    pub args: Vec<VariableNode>,
    /// The clause's body.
    pub block: Vec<StmtNode>,
}

/// The first `count` declared variables of a multi-variable declaration, separated by `, `; an
/// omitted one is empty.
pub open spec fn opt_vars_text(vars: Seq<Option<VariableNode>>, count: nat, mode: PrintMode) -> Seq<char>
    decreases count,
{
    if count == 0 || count > vars.len() {
        Seq::empty()
    } else {
        let component = match vars[count - 1] {
            Some(var) => var_text(var, VarMode::Local, mode),
            None => Seq::empty(),
        };
        if count == 1 {
            component
        } else {
            opt_vars_text(vars, (count - 1) as nat, mode) + ", "@ + component
        }
    }
}

/// A block whose closing brace is at `indent`: its statements are one level deeper.
pub open spec fn block_text(stmts: Seq<StmtNode>, indent: Seq<char>, mode: PrintMode) -> Seq<char>
    decreases stmts, stmts.len() + 1,
{
    "{\n"@ + stmts_text(stmts, stmts.len(), indent + indent_unit(), mode) + indent + "}\n"@
}

/// The first `count` statements, each at `indent`.
pub open spec fn stmts_text(stmts: Seq<StmtNode>, count: nat, indent: Seq<char>, mode: PrintMode) -> Seq<char>
    decreases stmts, count,
{
    if count == 0 || count > stmts.len() {
        Seq::empty()
    } else {
        stmts_text(stmts, (count - 1) as nat, indent, mode) + stmt_text(stmts[count - 1], indent, mode)
    }
}

/// A statement as the body of an `if` or `else`: a block as it is, any other statement wrapped
/// in one.
pub open spec fn stmt_as_block_text(stmt: StmtNode, indent: Seq<char>, mode: PrintMode) -> Seq<char>
    decreases stmt, 1nat,
{
    match stmt {
        StmtNode::Block(stmts) => block_text(stmts@, indent, mode),
        _ => "{\n"@ + stmt_text(stmt, indent + indent_unit(), mode) + indent + "}\n"@,
    }
}

/// The first `count` cases of a `switch`, each at `indent`.
pub open spec fn cases_text(cases: Seq<SwitchCaseNode>, count: nat, indent: Seq<char>, mode: PrintMode) -> Seq<char>
    decreases cases, count,
{
    if count == 0 || count > cases.len() {
        Seq::empty()
    } else {
        let case = cases[count - 1];
        cases_text(cases, (count - 1) as nat, indent, mode) + indent + match case.constant {
            Some(constant) => "case "@ + constant@ + " "@,
            None => "default "@,
        } + block_text(case.body@, indent, mode)
    }
}

/// The opening of the `try` clause at position `index`.
pub open spec fn clause_head_text(clause: TryClauseNode, index: nat) -> Seq<char> {
    match clause.name {
        Some(name) => "catch "@ + name@ + "("@,
        None => if index == 0 {
            "returns ("@
        } else {
            "catch ("@
        },
    }
}

/// The first `count` clauses of a `try` statement at `indent`; every clause after the first
/// starts on a new indented line.
pub open spec fn clauses_text(clauses: Seq<TryClauseNode>, count: nat, indent: Seq<char>, mode: PrintMode) -> Seq<
    char,
>
    decreases clauses, count,
{
    if count == 0 || count > clauses.len() {
        Seq::empty()
    } else {
        let index = (count - 1) as nat;
        let clause = clauses[index as int];
        clauses_text(clauses, index, indent, mode) + text_if(index != 0, indent) + clause_head_text(clause, index)
            + vars_text(clause.args@, clause.args@.len(), VarMode::Parameter, mode) + ") "@ + block_text(
            clause.block@,
            indent,
            mode,
        )
    }
}

/// A `try` statement at `indent`, after the indentation: its call and its clauses.
pub open spec fn try_text(try_stmt: StmtTryNode, indent: Seq<char>, mode: PrintMode) -> Seq<char>
    decreases try_stmt, 0nat,
{
    "try "@ + expr_text(try_stmt.expr, mode) + " "@ + clauses_text(
        try_stmt.clauses@,
        try_stmt.clauses@.len(),
        indent,
        mode,
    )
}

/// A statement at `indent`.
pub open spec fn stmt_text(stmt: StmtNode, indent: Seq<char>, mode: PrintMode) -> Seq<char>
    decreases stmt, 0nat,
{
    indent + match stmt {
        StmtNode::DeclSingle(var) => var_text(var, VarMode::Local, mode) + ";\n"@,
        StmtNode::DeclMulti(vars, value) => "("@ + opt_vars_text(vars@, vars@.len(), mode) + ") = "@ + expr_text(
            value,
            mode,
        ) + ";\n"@,
        StmtNode::Block(stmts) => block_text(stmts@, indent, mode),
        StmtNode::UncheckedBlock(stmts) => "unchecked "@ + block_text(stmts@, indent, mode),
        StmtNode::AssemblyBlock(stmts) => "assembly "@ + block_text(stmts@, indent, mode),
        StmtNode::Emit(expr) => "emit "@ + expr_text(expr, mode) + ";\n"@,
        StmtNode::Revert(expr) => "revert "@ + expr_text(expr, mode) + ";\n"@,
        StmtNode::Return(expr) => "return"@ + match expr {
            Some(expr) => " "@ + expr_text(expr, mode),
            None => Seq::empty(),
        } + ";\n"@,
        StmtNode::Break => "break;\n"@,
        StmtNode::Continue => "continue;\n"@,
        StmtNode::Loop(stmts, source) => "hir.loop("@ + loop_source_text(source) + ") "@ + block_text(
            stmts@,
            indent,
            mode,
        ),
        StmtNode::If(condition, then_stmt, else_stmt) => "if ("@ + condition_text(condition, mode) + ") "@
            + stmt_as_block_text(*then_stmt, indent, mode) + match else_stmt {
            Some(else_stmt) => indent + "else "@ + stmt_as_block_text(*else_stmt, indent, mode),
            None => Seq::empty(),
        },
        StmtNode::Switch(selector, cases) => "switch "@ + expr_text(selector, mode) + " {\n"@ + cases_text(
            cases@,
            cases@.len(),
            indent + indent_unit(),
            mode,
        ) + indent + "}\n"@,
        StmtNode::Try(try_stmt) => try_text(try_stmt, indent, mode),
        StmtNode::Expr(expr) => expr_text(expr, mode) + ";\n"@,
        StmtNode::Placeholder => "_;\n"@,
        StmtNode::Invalid => "<error>;\n"@,
    }
}

/// A modifier invocation, or a base contract with constructor arguments.
#[derive(Debug)]
pub struct ModifierNode {
    /// The invoked modifier or base contract.
    pub item: ItemRef,
    /// The arguments.
    pub args: CallArgsNode,
    /// Whether the argument list is absent from the source (`m` rather than `m()`).
    pub args_dummy: bool,
    /// The source snippet of the argument list, when the source map has one.
    pub args_snippet: Option<String>,
}

/// A function, modifier, constructor, fallback or receive function.
#[derive(Debug)]
pub struct FunctionNode {
    /// The state variable whose getter this function is.
    pub gettee: Option<VarRef>,
    /// Whether the function is a Yul function.
    pub is_yul: bool,
    /// The function's kind.
    pub kind: FunctionKind,
    /// The function's name.
    pub name: Option<String>,
    /// The parameters.
    pub parameters: Vec<VariableNode>,
    /// The visibility.
    pub visibility: Visibility,
    /// The state mutability.
    pub state_mutability: StateMutability,
    /// The invoked modifiers.
    pub modifiers: Vec<ModifierNode>,
    /// Whether the function is marked `virtual`.
    pub marked_virtual: bool,
    /// Whether the function is marked `override`.
    pub override_: bool,
    /// The names of the contracts listed in the `override` specifier.
    pub overrides: Vec<String>,
    /// The return variables.
    pub return_parameters: Vec<VariableNode>,
    /// The body.
    pub body: Option<Vec<StmtNode>>,
}

/// A struct declaration.
#[derive(Debug)]
pub struct StructNode {
    /// The struct's name.
    pub name: String,
    /// The struct's fields.
    pub fields: Vec<VariableNode>,
}

/// An enum declaration.
#[derive(Debug)]
pub struct EnumNode {
    /// The enum's name.
    pub name: String,
    /// The names of the enum's variants.
    pub variants: Vec<String>,
}

/// A user-defined value type declaration.
#[derive(Debug)]
pub struct UdvtNode {
    /// The type's name.
    pub name: String,
    /// The underlying type.
    pub ty: TypeNode,
}

/// An error declaration.
#[derive(Debug)]
pub struct ErrorNode {
    /// The error's name.
    pub name: String,
    /// The error's parameters.
    pub parameters: Vec<VariableNode>,
}

/// An event declaration.
#[derive(Debug)]
pub struct EventNode {
    /// The event's name.
    pub name: String,
    /// The event's parameters.
    pub parameters: Vec<VariableNode>,
    /// Whether the event is `anonymous`.
    pub anonymous: bool,
}

/// What a `using` entry attaches.
#[derive(Debug)]
pub enum UsingEntryKind {
    /// A library, by name.
    Library(String),
    /// Free functions, by name.
    Functions(Vec<String>),
    /// An erroneous entry.
    Invalid,
}

/// An entry of a `using` directive.
#[derive(Debug)]
pub struct UsingEntryNode {
    /// What the entry attaches.
    pub kind: UsingEntryKind,
    /// The text of the user-defined operator it binds, if any.
    pub operator: Option<String>,
}

/// A `using` directive.
#[derive(Debug)]
pub struct UsingNode {
    /// The directive's entries.
    pub entries: Vec<UsingEntryNode>,
    /// The type it applies to; `None` for `*`.
    pub ty: Option<TypeNode>,
    /// Whether the directive is `global`.
    pub global: bool,
}

/// A contract, interface or library.
#[derive(Debug)]
pub struct ContractNode {
    /// The text of the contract's kind, such as `contract` or `library`.
    pub kind: String,
    /// The contract's name.
    pub name: String,
    /// The storage layout base expression.
    pub layout: Option<ExprNode>,
    /// The base contracts as written, with their arguments.
    pub bases_args: Vec<ModifierNode>,
    /// The names of the linearized base contracts.
    pub bases: Vec<String>,
    /// The contract's `using` directives.
    pub usings: Vec<UsingNode>,
    /// The contract's items.
    pub items: Vec<ItemNode>,
}

/// An item.
#[derive(Debug)]
pub enum ItemNode {
    /// A contract.
    Contract(ContractNode),
    /// A function.
    Function(FunctionNode),
    /// A state or file-level variable.
    Variable(VariableNode),
    /// A struct.
    Struct(StructNode),
    /// An enum.
    Enum(EnumNode),
    /// A user-defined value type.
    Udvt(UdvtNode),
    /// An error.
    Error(ErrorNode),
    /// An event.
    Event(EventNode),
}

/// A source file.
#[derive(Debug)]
pub struct SourceNode {
    /// The index of the source's identifier.
    pub index: u32,
    /// The display name of the source's file.
    pub file_name: String,
    /// The file-level `using` directives.
    pub usings: Vec<UsingNode>,
    /// The file-level items.
    pub items: Vec<ItemNode>,
}

/// Whether a list of call arguments is empty.
pub open spec fn call_args_empty(args: CallArgsNode) -> bool {
    match args {
        CallArgsNode::Unnamed(exprs) => exprs@.len() == 0,
        CallArgsNode::Named(named) => named@.len() == 0,
    }
}

/// A modifier invocation: the name, then in header mode the source text of written arguments, and
/// otherwise the arguments when they are written or not empty.
pub open spec fn modifier_text(modifier: ModifierNode, mode: PrintMode) -> Seq<char> {
    item_name_text(modifier.item, mode) + if mode == PrintMode::Header && !modifier.args_dummy {
        match modifier.args_snippet {
            Some(snippet) => trimmed(snippet@),
            None => "(...)"@,
        }
    } else if !modifier.args_dummy || !call_args_empty(modifier.args) {
        call_args_text(modifier.args, mode)
    } else {
        Seq::empty()
    }
}

/// The first `count` modifiers, each after a space.
pub open spec fn modifiers_text(modifiers: Seq<ModifierNode>, count: nat, mode: PrintMode) -> Seq<char>
    decreases count,
{
    if count == 0 || count > modifiers.len() {
        Seq::empty()
    } else {
        modifiers_text(modifiers, (count - 1) as nat, mode) + " "@ + modifier_text(modifiers[count - 1], mode)
    }
}

/// The first `count` base contracts with arguments, separated by `, `.
pub open spec fn bases_args_text(bases: Seq<ModifierNode>, count: nat, mode: PrintMode) -> Seq<char>
    decreases count,
{
    if count == 0 || count > bases.len() {
        Seq::empty()
    } else if count == 1 {
        modifier_text(bases[0], mode)
    } else {
        bases_args_text(bases, (count - 1) as nat, mode) + ", "@ + modifier_text(bases[count - 1], mode)
    }
}

/// What a function header writes after its parameters in header mode: the visibility and state
/// mutability of ordinary non-Yul functions and of fallback and receive functions, and `payable`
/// for a payable constructor.
pub open spec fn header_attributes_text(function: FunctionNode) -> Seq<char> {
    match function.kind {
        FunctionKind::Function => text_if(
            !function.is_yul,
            " "@ + visibility_text(function.visibility) + state_mutability_suffix(function.state_mutability),
        ),
        FunctionKind::Constructor => text_if(function.state_mutability == StateMutability::Payable, " payable"@),
        FunctionKind::Fallback | FunctionKind::Receive => " "@ + visibility_text(function.visibility)
            + state_mutability_suffix(function.state_mutability),
        FunctionKind::Modifier => Seq::empty(),
    }
}

/// The comment naming the state variable of a getter, in full mode.
pub open spec fn gettee_text(function: FunctionNode, indent: Seq<char>, mode: PrintMode) -> Seq<char> {
    match function.gettee {
        Some(gettee) => text_if(
            mode == PrintMode::Full,
            indent + "// getter for "@ + var_name_text(gettee.id, gettee.name) + "\n"@,
        ),
        None => Seq::empty(),
    }
}

/// The signature of a function at `indent`: kind, name and parameters.
pub open spec fn signature_text(function: FunctionNode, indent: Seq<char>, mode: PrintMode) -> Seq<char> {
    indent + text_if(function.is_yul, "yul "@) + function_kind_text(function.kind) + (match function.name {
        Some(name) => " "@ + name@,
        None => Seq::empty(),
    }) + "("@ + vars_text(function.parameters@, function.parameters@.len(), VarMode::Parameter, mode) + ")"@
}

/// What a function writes after its parameters: in full mode its visibility, state mutability
/// and modifiers, in header mode what [`header_attributes_text`] gives.
pub open spec fn function_attributes_text(function: FunctionNode, mode: PrintMode) -> Seq<char> {
    if mode == PrintMode::Full {
        " "@ + visibility_text(function.visibility) + state_mutability_suffix(function.state_mutability)
            + modifiers_text(function.modifiers@, function.modifiers@.len(), mode)
    } else {
        header_attributes_text(function)
    }
}

/// The header of a function at `indent`, up to its return variables.
pub open spec fn function_header_text(function: FunctionNode, indent: Seq<char>, mode: PrintMode) -> Seq<char> {
    gettee_text(function, indent, mode) + signature_text(function, indent, mode) + function_attributes_text(
        function,
        mode,
    )
}

/// The specifiers of a function after its attributes: `virtual`, `override`, the modifiers of a
/// header and the return variables.
pub open spec fn specifiers_text(function: FunctionNode, mode: PrintMode) -> Seq<char> {
    inheritance_text(function) + text_if(
        mode == PrintMode::Header,
        modifiers_text(function.modifiers@, function.modifiers@.len(), mode),
    ) + returns_text(function, mode)
}

/// `virtual`, and `override` with its contract list.
pub open spec fn inheritance_text(function: FunctionNode) -> Seq<char> {
    text_if(function.marked_virtual, " virtual"@) + text_if(
        function.override_,
        " override"@ + override_list_text(function.overrides@),
    )
}

/// The return variables of a function, when it has any.
pub open spec fn returns_text(function: FunctionNode, mode: PrintMode) -> Seq<char> {
    text_if(
        function.return_parameters@.len() > 0,
        " returns ("@ + vars_text(
            function.return_parameters@,
            function.return_parameters@.len(),
            VarMode::Return,
            mode,
        ) + ")"@,
    )
}

/// The body of a function in full mode: its block, or `;` when it has none.
pub open spec fn function_body_text(function: FunctionNode, indent: Seq<char>, mode: PrintMode) -> Seq<char> {
    if mode == PrintMode::Header {
        Seq::empty()
    } else {
        match function.body {
            Some(body) => " "@ + block_text(body@, indent, mode),
            None => ";\n"@,
        }
    }
}

/// A function at `indent`: its header, its specifiers, its return variables and, in full mode, its
/// body.
pub open spec fn function_text(function: FunctionNode, indent: Seq<char>, mode: PrintMode) -> Seq<char> {
    function_header_text(function, indent, mode) + specifiers_text(function, mode) + function_body_text(
        function,
        indent,
        mode,
    )
}

/// The first `count` struct fields, each on its own line at `indent`.
pub open spec fn fields_text(fields: Seq<VariableNode>, count: nat, indent: Seq<char>, mode: PrintMode) -> Seq<char>
    decreases count,
{
    if count == 0 || count > fields.len() {
        Seq::empty()
    } else {
        fields_text(fields, (count - 1) as nat, indent, mode) + indent + var_text(
            fields[count - 1],
            VarMode::Parameter,
            mode,
        ) + ";\n"@
    }
}

/// A struct at `indent`; a header stops after the name.
pub open spec fn struct_text(node: StructNode, indent: Seq<char>, mode: PrintMode) -> Seq<char> {
    indent + "struct "@ + node.name@ + if mode == PrintMode::Header {
        Seq::empty()
    } else {
        " {\n"@ + fields_text(node.fields@, node.fields@.len(), indent + indent_unit(), mode) + indent + "}\n"@
    }
}

/// An enum at `indent`; a header stops after the name.
pub open spec fn enum_text(node: EnumNode, indent: Seq<char>, mode: PrintMode) -> Seq<char> {
    indent + "enum "@ + node.name@ + text_if(
        mode == PrintMode::Full,
        " {"@ + names_text(node.variants@, node.variants@.len(), ", "@) + "}\n"@,
    )
}

/// A user-defined value type at `indent`.
pub open spec fn udvt_text(node: UdvtNode, indent: Seq<char>, mode: PrintMode) -> Seq<char> {
    indent + "type "@ + node.name@ + " is "@ + ty_text(node.ty, mode) + text_if(mode == PrintMode::Full, ";\n"@)
}

/// An error at `indent`.
pub open spec fn error_text(node: ErrorNode, indent: Seq<char>, mode: PrintMode) -> Seq<char> {
    indent + "error "@ + node.name@ + "("@ + vars_text(node.parameters@, node.parameters@.len(), VarMode::Parameter, mode)
        + ")"@ + text_if(mode == PrintMode::Full, ";\n"@)
}

/// An event at `indent`.
pub open spec fn event_text(node: EventNode, indent: Seq<char>, mode: PrintMode) -> Seq<char> {
    indent + "event "@ + node.name@ + "("@ + vars_text(node.parameters@, node.parameters@.len(), VarMode::Parameter, mode)
        + ")"@ + text_if(node.anonymous, " anonymous"@) + text_if(mode == PrintMode::Full, ";\n"@)
}

/// An entry of a `using` directive.
pub open spec fn using_entry_text(entry: UsingEntryNode) -> Seq<char> {
    (match entry.kind {
        UsingEntryKind::Library(name) => name@,
        UsingEntryKind::Functions(names) => names_text(names@, names@.len(), " | "@),
        UsingEntryKind::Invalid => "<error>"@,
    }) + match entry.operator {
        Some(operator) => " as "@ + operator@,
        None => Seq::empty(),
    }
}

/// The first `count` entries of a `using` directive, separated by `, `.
pub open spec fn using_entries_text(entries: Seq<UsingEntryNode>, count: nat) -> Seq<char>
    decreases count,
{
    if count == 0 || count > entries.len() {
        Seq::empty()
    } else if count == 1 {
        using_entry_text(entries[0])
    } else {
        using_entries_text(entries, (count - 1) as nat) + ", "@ + using_entry_text(entries[count - 1])
    }
}

/// A `using` directive at `indent`: a single library entry bare, any other entries in braces.
pub open spec fn using_text(using: UsingNode, indent: Seq<char>, mode: PrintMode) -> Seq<char> {
    indent + "using "@ + (if using.entries@.len() == 1 && using.entries@[0].kind is Library {
        using_entry_text(using.entries@[0])
    } else {
        "{"@ + using_entries_text(using.entries@, using.entries@.len()) + "}"@
    }) + " for "@ + (match using.ty {
        Some(ty) => ty_text(ty, mode),
        None => "*"@,
    }) + text_if(using.global, " global"@) + ";\n"@
}

/// The first `count` `using` directives at `indent`.
pub open spec fn usings_text(usings: Seq<UsingNode>, count: nat, indent: Seq<char>, mode: PrintMode) -> Seq<char>
    decreases count,
{
    if count == 0 || count > usings.len() {
        Seq::empty()
    } else {
        usings_text(usings, (count - 1) as nat, indent, mode) + using_text(usings[count - 1], indent, mode)
    }
}

/// The head of a contract at `indent`: kind, name, layout in full mode, and base contracts, with
/// their arguments in full mode.
pub open spec fn contract_head_text(contract: ContractNode, indent: Seq<char>, mode: PrintMode) -> Seq<char> {
    indent + contract.kind@ + " "@ + contract.name@ + (match contract.layout {
        Some(layout) => text_if(mode == PrintMode::Full, " layout at "@ + expr_text(layout, mode)),
        None => Seq::empty(),
    }) + if mode == PrintMode::Full && contract.bases_args@.len() > 0 {
        " is "@ + bases_args_text(contract.bases_args@, contract.bases_args@.len(), mode)
    } else if contract.bases@.len() > 0 {
        " is "@ + names_text(contract.bases@, contract.bases@.len(), ", "@)
    } else {
        Seq::empty()
    }
}

/// A contract at `indent`, printed after output that ends with an opening line when `ends_open`:
/// its text and whether the output then ends with an opening line. A header stops after the base
/// contracts; a full contract writes its body, separating its items by blank lines, and leaves
/// the output not ending with an opening line.
pub open spec fn contract_text(contract: ContractNode, indent: Seq<char>, mode: PrintMode, ends_open: bool) -> (
    Seq<char>,
    bool,
)
    decreases contract, 0nat,
{
    let head = contract_head_text(contract, indent, mode);
    if mode == PrintMode::Header {
        (head, ends_open)
    } else {
        let inner = indent + indent_unit();
        let body = items_text(
            contract.items@,
            contract.items@.len(),
            inner,
            mode,
            contract.usings@.len() == 0,
        );
        (
            head + " {\n"@ + usings_text(contract.usings@, contract.usings@.len(), inner, mode) + body.0 + indent
                + "}\n"@,
            false,
        )
    }
}

/// An item at `indent`, printed after output that ends with an opening line when `ends_open`:
/// its text and whether the output then ends with an opening line.
pub open spec fn item_text(item: ItemNode, indent: Seq<char>, mode: PrintMode, ends_open: bool) -> (Seq<char>, bool)
    decreases item, 0nat,
{
    match item {
        ItemNode::Contract(contract) => contract_text(contract, indent, mode, ends_open),
        ItemNode::Function(function) => (function_text(function, indent, mode), ends_open),
        ItemNode::Variable(var) => (
            indent + var_text(var, VarMode::Item, mode) + text_if(mode == PrintMode::Full, ";\n"@),
            ends_open,
        ),
        ItemNode::Struct(node) => (struct_text(node, indent, mode), ends_open),
        ItemNode::Enum(node) => (enum_text(node, indent, mode), ends_open),
        ItemNode::Udvt(node) => (udvt_text(node, indent, mode), ends_open),
        ItemNode::Error(node) => (error_text(node, indent, mode), ends_open),
        ItemNode::Event(node) => (event_text(node, indent, mode), ends_open),
    }
}

/// The first `count` items at `indent`, each after a newline unless it is the first item right
/// after an opening line: their text and whether the output then ends with an opening line.
pub open spec fn items_text(items: Seq<ItemNode>, count: nat, indent: Seq<char>, mode: PrintMode, ends_open: bool) -> (
    Seq<char>,
    bool,
)
    decreases items, count,
{
    if count == 0 || count > items.len() {
        (Seq::empty(), ends_open)
    } else {
        let prior = items_text(items, (count - 1) as nat, indent, mode, ends_open);
        let separator = text_if(count - 1 != 0 || !prior.1, "\n"@);
        let item = item_text(items[count - 1], indent, mode, prior.1);
        (prior.0 + separator + item.0, item.1)
    }
}

/// A source at `indent`: its text and whether the output then ends with an opening line.
pub open spec fn source_text(source: SourceNode, indent: Seq<char>, mode: PrintMode) -> (Seq<char>, bool) {
    let inner = indent + indent_unit();
    let body = items_text(source.items@, source.items@.len(), inner, mode, source.usings@.len() == 0);
    (
        "source "@ + decimal(source.index as nat) + " \""@ + source.file_name@ + "\" {\n"@ + usings_text(
            source.usings@,
            source.usings@.len(),
            inner,
            mode,
        ) + body.0 + "}\n"@,
        body.1,
    )
}

/// The first `count` sources, each at `indent`.
pub open spec fn sources_text(sources: Seq<SourceNode>, count: nat, indent: Seq<char>, mode: PrintMode) -> Seq<char>
    decreases count,
{
    if count == 0 || count > sources.len() {
        Seq::empty()
    } else {
        sources_text(sources, (count - 1) as nat, indent, mode) + source_text(sources[count - 1], indent, mode).0
    }
}

/// `after` is `before` with the text of `result` appended and the opening-line flag of `result`.
pub open spec fn advanced(before: PrinterView, after: PrinterView, result: (Seq<char>, bool)) -> bool {
    after == (before.0 + result.0, before.1, before.2, result.1)
}

/// A printer of the HIR in a Solidity-like form, accumulating its output.
///
/// The view is the output so far, the current indentation (four spaces per level), the print
/// mode, and whether the output ends with the opening line of a source or contract body.
#[derive(Debug)]
pub struct HirPrinter {
    out: String,
    indent: String,
    mode: PrintMode,
    ends_with_open: bool,
}

/// The abstract state of a printer: output, indentation, mode and whether the output ends with an
/// opening line.
pub type PrinterView = (Seq<char>, Seq<char>, PrintMode, bool);

impl View for HirPrinter {
    type V = PrinterView;

    closed spec fn view(&self) -> PrinterView {
        (self.out@, self.indent@, self.mode, self.ends_with_open)
    }
}

/// `after` is `before` with `text` appended to the output.
pub open spec fn appended(before: PrinterView, after: PrinterView, text: Seq<char>) -> bool {
    after == (before.0 + text, before.1, before.2, before.3)
}

/// One level of indentation.
pub open spec fn indent_unit() -> Seq<char> {
    "    "@
}

impl HirPrinter {
    /// Appends `text`.
    fn write(&mut self, text: &str)
        ensures
            appended(old(self)@, final(self)@, text@),
    {
        self.out.append(text);
    }

    /// Appends the current indentation.
    fn write_indent(&mut self)
        ensures
            appended(old(self)@, final(self)@, old(self)@.1),
    {
        let indent = self.indent.as_str();
        self.out.append(indent);
    }

    /// Appends the decimal representation of `n`.
    fn write_decimal(&mut self, n: u32)
        ensures
            appended(old(self)@, final(self)@, decimal(n as nat)),
    {
        append_decimal(&mut self.out, n as usize);
    }

    /// Appends the name of an item.
    fn print_item_name(&mut self, item: &ItemRef)
        ensures
            appended(old(self)@, final(self)@, item_name_text(*item, old(self)@.2)),
    {
        let ghost before = self@;
        match &item.name {
            Some(name) => self.write(name.as_str()),
            None => match self.mode {
                PrintMode::Full => {
                    match item.id {
                        ItemId::Contract(id) => {
                            self.write("_contract");
                            self.write_decimal(id.0);
                        },
                        ItemId::Function(id) => {
                            self.write("_function");
                            self.write_decimal(id.0);
                        },
                        ItemId::Variable(id) => {
                            self.write("_var");
                            self.write_decimal(id.0);
                        },
                        ItemId::Struct(index) => {
                            self.write("_struct");
                            self.write_decimal(index);
                        },
                        ItemId::Enum(index) => {
                            self.write("_enum");
                            self.write_decimal(index);
                        },
                        ItemId::Udvt(index) => {
                            self.write("_udvt");
                            self.write_decimal(index);
                        },
                        ItemId::Error(index) => {
                            self.write("_error");
                            self.write_decimal(index);
                        },
                        ItemId::Event(index) => {
                            self.write("_event");
                            self.write_decimal(index);
                        },
                    }
                },
                PrintMode::Header => self.write("<error>"),
            },
        }
        proof {
            assert(self@.0 =~= before.0 + item_name_text(*item, before.2));
        }
    }

    /// Appends the name of a variable.
    fn print_var_name(&mut self, id: VariableId, name: &Option<String>)
        ensures
            appended(old(self)@, final(self)@, var_name_text(id, *name)),
    {
        let ghost before = self@;
        match name {
            Some(name) => self.write(name.as_str()),
            None => {
                self.write("_var");
                self.write_decimal(id.0);
            },
        }
        proof {
            assert(self@.0 =~= before.0 + var_name_text(id, *name));
        }
    }

    /// Appends the label of a resolution.
    fn print_res_name(&mut self, res: &ResRef)
        ensures
            appended(old(self)@, final(self)@, res_name_text(*res, old(self)@.2)),
    {
        let ghost before = self@;
        match res {
            ResRef::Item(item) => self.print_item_name(item),
            ResRef::Namespace(file, _) => {
                self.write("namespace(");
                self.write(file.as_str());
                self.write(")");
            },
            ResRef::Builtin(name, _) => self.write(name.as_str()),
            ResRef::Invalid => self.write("<error>"),
        }
        proof {
            assert(self@.0 =~= before.0 + res_name_text(*res, before.2));
        }
    }

    /// Appends the labels of the first `count` resolutions, separated by ` | `.
    fn print_res_labels(&mut self, res: &Vec<ResRef>, count: usize)
        requires
            count <= res@.len(),
        ensures
            appended(old(self)@, final(self)@, res_labels_text(res@, count as nat, old(self)@.2)),
        decreases count,
    {
        let ghost before = self@;
        if count == 0 {
            proof {
                assert(self@.0 =~= before.0 + res_labels_text(res@, count as nat, before.2));
            }
            return;
        }
        if count > 1 {
            self.print_res_labels(res, count - 1);
            self.write(" | ");
        }
        self.print_res_name(&res[count - 1]);
        proof {
            assert(self@.0 =~= before.0 + res_labels_text(res@, count as nat, before.2));
        }
    }

    /// Appends a list of resolutions.
    fn print_res_list(&mut self, res: &Vec<ResRef>)
        ensures
            appended(old(self)@, final(self)@, res_list_text(res@, old(self)@.2)),
    {
        let ghost before = self@;
        if res.len() == 0 {
            self.write("<unresolved>");
        } else if res.len() == 1 {
            self.print_res_name(&res[0]);
        } else {
            self.write("overload(");
            self.print_res_labels(res, res.len());
            self.write(")");
        }
        proof {
            assert(self@.0 =~= before.0 + res_list_text(res@, before.2));
        }
    }

    /// Appends the first `count` names, separated by `separator`.
    fn print_names(&mut self, names: &Vec<String>, count: usize, separator: &str)
        requires
            count <= names@.len(),
        ensures
            appended(old(self)@, final(self)@, names_text(names@, count as nat, separator@)),
        decreases count,
    {
        let ghost before = self@;
        if count == 0 {
            proof {
                assert(self@.0 =~= before.0 + names_text(names@, count as nat, separator@));
            }
            return;
        }
        if count > 1 {
            self.print_names(names, count - 1, separator);
            self.write(separator);
        }
        self.write(names[count - 1].as_str());
        proof {
            assert(self@.0 =~= before.0 + names_text(names@, count as nat, separator@));
        }
    }

    /// Appends the contract list of an `override` specifier.
    fn print_override_list(&mut self, overrides: &Vec<String>)
        ensures
            appended(old(self)@, final(self)@, override_list_text(overrides@)),
    {
        let ghost before = self@;
        if overrides.len() == 0 {
            proof {
                assert(self@.0 =~= before.0 + override_list_text(overrides@));
            }
            return;
        }
        self.write("(");
        self.print_names(overrides, overrides.len(), ", ");
        self.write(")");
        proof {
            assert(self@.0 =~= before.0 + override_list_text(overrides@));
        }
    }

    /// Appends the keyword of a visibility.
    fn print_visibility(&mut self, visibility: Visibility)
        ensures
            appended(old(self)@, final(self)@, visibility_text(visibility)),
    {
        match visibility {
            Visibility::Private => self.write("private"),
            Visibility::Internal => self.write("internal"),
            Visibility::Public => self.write("public"),
            Visibility::External => self.write("external"),
        }
    }

    /// Appends ` m` for a state mutability `m` other than `nonpayable`.
    fn print_state_mutability(&mut self, mutability: StateMutability)
        ensures
            appended(old(self)@, final(self)@, state_mutability_suffix(mutability)),
    {
        let ghost before = self@;
        match mutability {
            StateMutability::Pure => {
                self.write(" ");
                self.write("pure");
            },
            StateMutability::View => {
                self.write(" ");
                self.write("view");
            },
            StateMutability::Payable => {
                self.write(" ");
                self.write("payable");
            },
            StateMutability::NonPayable => {},
        }
        proof {
            assert(self@.0 =~= before.0 + state_mutability_suffix(mutability));
        }
    }

    /// Appends ` location` for a data location.
    fn print_data_location(&mut self, location: &Option<DataLocation>)
        ensures
            appended(
                old(self)@,
                final(self)@,
                match *location {
                    Some(location) => " "@ + data_location_text(location),
                    None => Seq::empty(),
                },
            ),
    {
        let ghost before = self@;
        match location {
            Some(location) => {
                self.write(" ");
                match location {
                    DataLocation::Storage => self.write("storage"),
                    DataLocation::Transient => self.write("transient"),
                    DataLocation::Memory => self.write("memory"),
                    DataLocation::Calldata => self.write("calldata"),
                }
            },
            None => {},
        }
        proof {
            assert(self@.0 =~= before.0 + match *location {
                Some(location) => " "@ + data_location_text(location),
                None => Seq::empty(),
            });
        }
    }

    /// Appends the visibility, mutability and `override` specifier of a variable declaration.
    #[verifier::spinoff_prover]
    fn print_var_attributes(&mut self, var: &VariableNode)
        ensures
            appended(old(self)@, final(self)@, var_attributes_text(*var)),
    {
        let ghost before = self@;
        match var.visibility {
            Some(visibility) => {
                self.write(" ");
                self.print_visibility(visibility);
            },
            None => {},
        }
        match var.mutability {
            Some(mutability) => {
                self.write(" ");
                match mutability {
                    VarMut::Constant => self.write("constant"),
                    VarMut::Immutable => self.write("immutable"),
                }
            },
            None => {},
        }
        if var.override_ {
            self.write(" override");
            self.print_override_list(&var.overrides);
        }
        proof {
            assert(self@.0 =~= before.0 + var_attributes_text(*var));
        }
    }

    /// Appends an optional expression.
    fn print_opt_expr(&mut self, expr: &Option<Box<ExprNode>>)
        ensures
            appended(old(self)@, final(self)@, opt_expr_text(*expr, old(self)@.2)),
        decreases expr, 1nat,
    {
        let ghost before = self@;
        match expr {
            Some(expr) => self.print_expr(expr),
            None => {},
        }
        proof {
            assert(self@.0 =~= before.0 + opt_expr_text(*expr, before.2));
        }
    }

    /// Appends an expression.
    #[verifier::spinoff_prover]
    #[verifier::rlimit(40)]
    fn print_expr(&mut self, expr: &ExprNode)
        ensures
            appended(old(self)@, final(self)@, expr_text(*expr, old(self)@.2)),
        decreases expr, 0nat,
    {
        let ghost before = self@;
        match expr {
            ExprNode::Array(exprs) => {
                self.write("[");
                self.print_exprs(exprs, exprs.len());
                self.write("]");
            },
            ExprNode::Assign(lhs, op, rhs) => {
                self.print_expr(lhs);
                self.write(" ");
                match op {
                    Some(op) => self.write(op.as_str()),
                    None => {},
                }
                self.write("= ");
                self.print_expr(rhs);
            },
            ExprNode::Binary(lhs, op, rhs) => {
                self.write("(");
                self.print_expr(lhs);
                self.write(" ");
                self.write(op.as_str());
                self.write(" ");
                self.print_expr(rhs);
                self.write(")");
            },
            ExprNode::Call(callee, args, options) => {
                self.print_expr(callee);
                match options {
                    Some(options) => {
                        self.write(" { ");
                        self.print_named_args(options, options.len());
                        self.write(" }");
                    },
                    None => {},
                }
                self.print_call_args(args);
            },
            ExprNode::Delete(expr) => {
                self.write("delete ");
                self.print_expr(expr);
            },
            ExprNode::Ident(res) => self.print_res_list(res),
            ExprNode::Index(base, index) => {
                self.print_expr(base);
                self.write("[");
                self.print_opt_expr(index);
                self.write("]");
            },
            ExprNode::Slice(base, start, end) => {
                self.print_expr(base);
                self.write("[");
                self.print_opt_expr(start);
                self.write(":");
                self.print_opt_expr(end);
                self.write("]");
            },
            ExprNode::Lit(text) => self.write(text.as_str()),
            ExprNode::Member(base, member) => {
                self.print_expr(base);
                self.write(".");
                self.write(member.as_str());
            },
            ExprNode::YulMember(base, member) => {
                self.print_expr(base);
                self.write(".");
                self.write(member.as_str());
            },
            ExprNode::New(ty) => {
                self.write("new ");
                self.print_ty(ty);
            },
            ExprNode::Payable(expr) => {
                self.write("payable(");
                self.print_expr(expr);
                self.write(")");
            },
            ExprNode::Ternary(condition, then_expr, else_expr) => {
                self.write("(");
                self.print_expr(condition);
                self.write(" ? ");
                self.print_expr(then_expr);
                self.write(" : ");
                self.print_expr(else_expr);
                self.write(")");
            },
            ExprNode::Tuple(exprs) => {
                self.write("(");
                self.print_opt_exprs(exprs, exprs.len());
                self.write(")");
            },
            ExprNode::TypeCall(ty) => {
                self.write("type(");
                self.print_ty(ty);
                self.write(")");
            },
            ExprNode::Type(ty) => self.print_ty(ty),
            ExprNode::Unary(op, prefix, expr) => {
                if *prefix {
                    self.write(op.as_str());
                    self.print_expr(expr);
                } else {
                    self.print_expr(expr);
                    self.write(op.as_str());
                }
            },
            ExprNode::Invalid => self.write("<error>"),
        }
        proof {
            assert(self@.0 =~= before.0 + expr_text(*expr, before.2));
        }
    }

    /// Appends the first `count` expressions, separated by `, `.
    fn print_exprs(&mut self, exprs: &Vec<ExprNode>, count: usize)
        requires
            count <= exprs@.len(),
        ensures
            appended(old(self)@, final(self)@, exprs_text(exprs@, count as nat, old(self)@.2)),
        decreases exprs@, count,
    {
        let ghost before = self@;
        if count == 0 {
            proof {
                assert(self@.0 =~= before.0 + exprs_text(exprs@, count as nat, before.2));
            }
            return;
        }
        if count > 1 {
            self.print_exprs(exprs, count - 1);
            self.write(", ");
        }
        self.print_expr(&exprs[count - 1]);
        proof {
            assert(self@.0 =~= before.0 + exprs_text(exprs@, count as nat, before.2));
        }
    }

    /// Appends the first `count` tuple components, separated by `, `.
    fn print_opt_exprs(&mut self, exprs: &Vec<Option<ExprNode>>, count: usize)
        requires
            count <= exprs@.len(),
        ensures
            appended(old(self)@, final(self)@, opt_exprs_text(exprs@, count as nat, old(self)@.2)),
        decreases exprs@, count,
    {
        let ghost before = self@;
        if count == 0 {
            proof {
                assert(self@.0 =~= before.0 + opt_exprs_text(exprs@, count as nat, before.2));
            }
            return;
        }
        if count > 1 {
            self.print_opt_exprs(exprs, count - 1);
            self.write(", ");
        }
        match &exprs[count - 1] {
            Some(expr) => self.print_expr(expr),
            None => {},
        }
        proof {
            assert(self@.0 =~= before.0 + opt_exprs_text(exprs@, count as nat, before.2));
        }
    }

    /// Appends the first `count` named arguments, separated by `, `.
    fn print_named_args(&mut self, args: &Vec<NamedArgNode>, count: usize)
        requires
            count <= args@.len(),
        ensures
            appended(old(self)@, final(self)@, named_args_text(args@, count as nat, old(self)@.2)),
        decreases args@, count,
    {
        let ghost before = self@;
        if count == 0 {
            proof {
                assert(self@.0 =~= before.0 + named_args_text(args@, count as nat, before.2));
            }
            return;
        }
        if count > 1 {
            self.print_named_args(args, count - 1);
            self.write(", ");
        }
        self.write(args[count - 1].name.as_str());
        self.write(": ");
        self.print_expr(&args[count - 1].value);
        proof {
            assert(self@.0 =~= before.0 + named_args_text(args@, count as nat, before.2));
        }
    }

    /// Appends the parenthesized arguments of a call.
    fn print_call_args(&mut self, args: &CallArgsNode)
        ensures
            appended(old(self)@, final(self)@, call_args_text(*args, old(self)@.2)),
        decreases args, 0nat,
    {
        let ghost before = self@;
        match args {
            CallArgsNode::Unnamed(exprs) => {
                self.write("(");
                self.print_exprs(exprs, exprs.len());
                self.write(")");
            },
            CallArgsNode::Named(named) => {
                self.write("({");
                self.print_named_args(named, named.len());
                self.write("})");
            },
        }
        proof {
            assert(self@.0 =~= before.0 + call_args_text(*args, before.2));
        }
    }

    /// Appends a type name.
    #[verifier::spinoff_prover]
    #[verifier::rlimit(40)]
    fn print_ty(&mut self, ty: &TypeNode)
        ensures
            appended(old(self)@, final(self)@, ty_text(*ty, old(self)@.2)),
        decreases ty, 0nat,
    {
        let ghost before = self@;
        match ty {
            TypeNode::Elementary(text) => self.write(text.as_str()),
            TypeNode::Array(element, size, snippet) => {
                self.print_ty(element);
                self.write("[");
                match size {
                    Some(size) => {
                        if self.mode == PrintMode::Header {
                            match snippet {
                                Some(snippet) => {
                                    let text = trim_snippet(snippet.as_str());
                                    self.write(text);
                                },
                                None => self.write("<error>"),
                            }
                        } else {
                            self.print_expr(size);
                        }
                    },
                    None => {},
                }
                self.write("]");
            },
            TypeNode::Function(parameters, visibility, mutability, outputs) => {
                self.write("function(");
                self.print_vars(parameters, parameters.len(), VarMode::Parameter);
                self.write(")");
                self.write(" ");
                self.print_visibility(*visibility);
                self.print_state_mutability(*mutability);
                if outputs.len() > 0 {
                    self.write(" returns (");
                    self.print_vars(outputs, outputs.len(), VarMode::Return);
                    self.write(")");
                }
            },
            TypeNode::Mapping(key, key_name, value, value_name) => {
                self.write("mapping(");
                self.print_ty(key);
                match key_name {
                    Some(name) => {
                        self.write(" ");
                        self.write(name.as_str());
                    },
                    None => {},
                }
                self.write(" => ");
                self.print_ty(value);
                match value_name {
                    Some(name) => {
                        self.write(" ");
                        self.write(name.as_str());
                    },
                    None => {},
                }
                self.write(")");
            },
            TypeNode::Custom(item) => self.print_item_name(item),
            TypeNode::Invalid => self.write("<error>"),
        }
        proof {
            assert(self@.0 =~= before.0 + ty_text(*ty, before.2));
        }
    }

    /// Appends what a variable declaration writes between its type and its name.
    #[verifier::spinoff_prover]
    fn print_var_modifiers(&mut self, var: &VariableNode, var_mode: VarMode)
        ensures
            appended(old(self)@, final(self)@, var_modifiers_text(*var, var_mode, old(self)@.2)),
    {
        let ghost before = self@;
        if self.mode == PrintMode::Header && var_mode == VarMode::Item {
            self.print_var_attributes(var);
        }
        self.print_data_location(&var.data_location);
        if self.mode == PrintMode::Full && var_mode == VarMode::Item {
            self.print_var_attributes(var);
        }
        if var.indexed {
            self.write(" indexed");
        }
        proof {
            assert(self@.0 =~= before.0 + var_modifiers_text(*var, var_mode, before.2));
        }
    }

    /// Appends the declared name of a variable.
    fn print_var_decl_name(&mut self, var: &VariableNode)
        ensures
            appended(old(self)@, final(self)@, var_decl_name_text(*var, old(self)@.2)),
    {
        let ghost before = self@;
        if self.mode == PrintMode::Full {
            self.write(" ");
            self.print_var_name(var.id, &var.name);
        } else {
            match &var.name {
                Some(name) => {
                    self.write(" ");
                    self.write(name.as_str());
                },
                None => {},
            }
        }
        proof {
            assert(self@.0 =~= before.0 + var_decl_name_text(*var, before.2));
        }
    }

    /// Appends a variable declaration in `var_mode`.
    #[verifier::spinoff_prover]
    fn print_variable(&mut self, var: &VariableNode, var_mode: VarMode)
        ensures
            appended(old(self)@, final(self)@, var_text(*var, var_mode, old(self)@.2)),
        decreases var, 0nat,
    {
        let ghost before = self@;
        self.print_ty(&var.ty);
        self.print_var_modifiers(var, var_mode);
        self.print_var_decl_name(var);
        let ghost middle = self@.0;
        if self.mode == PrintMode::Full {
            match &var.initializer {
                Some(initializer) => {
                    self.write(" = ");
                    self.print_expr(initializer);
                },
                None => {},
            }
        }
        proof {
            assert(self@.0 =~= middle + match var.initializer {
                Some(initializer) => text_if(before.2 == PrintMode::Full, " = "@ + expr_text(*initializer, before.2)),
                None => Seq::empty(),
            });
            assert(self@.0 =~= before.0 + var_text(*var, var_mode, before.2));
        }
    }

    /// Appends the first `count` variable declarations, separated by `, `.
    fn print_vars(&mut self, vars: &Vec<VariableNode>, count: usize, var_mode: VarMode)
        requires
            count <= vars@.len(),
        ensures
            appended(old(self)@, final(self)@, vars_text(vars@, count as nat, var_mode, old(self)@.2)),
        decreases vars@, count,
    {
        let ghost before = self@;
        if count == 0 {
            proof {
                assert(self@.0 =~= before.0 + vars_text(vars@, count as nat, var_mode, before.2));
            }
            return;
        }
        if count > 1 {
            self.print_vars(vars, count - 1, var_mode);
            self.write(", ");
        }
        self.print_variable(&vars[count - 1], var_mode);
        proof {
            assert(self@.0 =~= before.0 + vars_text(vars@, count as nat, var_mode, before.2));
        }
    }

    /// Appends a condition: a binary operation without its parentheses.
    fn print_condition(&mut self, expr: &ExprNode)
        ensures
            appended(old(self)@, final(self)@, condition_text(*expr, old(self)@.2)),
    {
        let ghost before = self@;
        match expr {
            ExprNode::Binary(lhs, op, rhs) => {
                self.print_expr(lhs);
                self.write(" ");
                self.write(op.as_str());
                self.write(" ");
                self.print_expr(rhs);
            },
            _ => self.print_expr(expr),
        }
        proof {
            assert(self@.0 =~= before.0 + condition_text(*expr, before.2));
        }
    }

    /// Appends the first `count` declared variables of a multi-variable declaration.
    fn print_opt_vars(&mut self, vars: &Vec<Option<VariableNode>>, count: usize)
        requires
            count <= vars@.len(),
        ensures
            appended(old(self)@, final(self)@, opt_vars_text(vars@, count as nat, old(self)@.2)),
        decreases count,
    {
        let ghost before = self@;
        if count == 0 {
            proof {
                assert(self@.0 =~= before.0 + opt_vars_text(vars@, count as nat, before.2));
            }
            return;
        }
        if count > 1 {
            self.print_opt_vars(vars, count - 1);
            self.write(", ");
        }
        match &vars[count - 1] {
            Some(var) => self.print_variable(var, VarMode::Local),
            None => {},
        }
        proof {
            assert(self@.0 =~= before.0 + opt_vars_text(vars@, count as nat, before.2));
        }
    }

    /// Indents one level deeper and returns the previous indentation.
    fn indent_more(&mut self) -> (previous: String)
        ensures
            final(self)@ == (old(self)@.0, old(self)@.1 + indent_unit(), old(self)@.2, old(self)@.3),
            previous@ == old(self)@.1,
    {
        let previous = self.indent.clone();
        self.indent.append("    ");
        previous
    }

    /// Restores a previous indentation.
    fn restore_indent(&mut self, previous: String)
        ensures
            final(self)@ == (old(self)@.0, previous@, old(self)@.2, old(self)@.3),
    {
        self.indent = previous;
    }

    /// Appends a block whose closing brace is at the current indentation.
    fn print_block(&mut self, stmts: &Vec<StmtNode>)
        ensures
            appended(old(self)@, final(self)@, block_text(stmts@, old(self)@.1, old(self)@.2)),
        decreases stmts@, stmts@.len() + 1,
    {
        let ghost before = self@;
        self.write("{\n");
        let previous = self.indent_more();
        self.print_stmts(stmts, stmts.len());
        self.restore_indent(previous);
        self.write_indent();
        self.write("}\n");
        proof {
            assert(self@.0 =~= before.0 + block_text(stmts@, before.1, before.2));
        }
    }

    /// Appends the first `count` statements.
    fn print_stmts(&mut self, stmts: &Vec<StmtNode>, count: usize)
        requires
            count <= stmts@.len(),
        ensures
            appended(old(self)@, final(self)@, stmts_text(stmts@, count as nat, old(self)@.1, old(self)@.2)),
        decreases stmts@, count,
    {
        let ghost before = self@;
        if count == 0 {
            proof {
                assert(self@.0 =~= before.0 + stmts_text(stmts@, count as nat, before.1, before.2));
            }
            return;
        }
        self.print_stmts(stmts, count - 1);
        self.print_stmt(&stmts[count - 1]);
        proof {
            assert(self@.0 =~= before.0 + stmts_text(stmts@, count as nat, before.1, before.2));
        }
    }

    /// Appends the body of an `if` or `else` as a block.
    #[verifier::spinoff_prover]
    fn print_stmt_as_block(&mut self, stmt: &StmtNode)
        ensures
            appended(old(self)@, final(self)@, stmt_as_block_text(*stmt, old(self)@.1, old(self)@.2)),
        decreases stmt, 1nat,
    {
        let ghost before = self@;
        if let StmtNode::Block(stmts) = stmt {
            self.print_block(stmts);
            return;
        }
        self.write("{\n");
        let previous = self.indent_more();
        self.print_stmt(stmt);
        self.restore_indent(previous);
        self.write_indent();
        self.write("}\n");
        proof {
            assert(self@.0 =~= before.0 + stmt_as_block_text(*stmt, before.1, before.2));
        }
    }

    /// Appends the first `count` cases of a `switch`.
    #[verifier::spinoff_prover]
    fn print_cases(&mut self, cases: &Vec<SwitchCaseNode>, count: usize)
        requires
            count <= cases@.len(),
        ensures
            appended(old(self)@, final(self)@, cases_text(cases@, count as nat, old(self)@.1, old(self)@.2)),
        decreases cases@, count,
    {
        let ghost before = self@;
        if count == 0 {
            proof {
                assert(self@.0 =~= before.0 + cases_text(cases@, count as nat, before.1, before.2));
            }
            return;
        }
        self.print_cases(cases, count - 1);
        let case = &cases[count - 1];
        self.write_indent();
        match &case.constant {
            Some(constant) => {
                self.write("case ");
                self.write(constant.as_str());
                self.write(" ");
            },
            None => self.write("default "),
        }
        self.print_block(&case.body);
        proof {
            assert(self@.0 =~= before.0 + cases_text(cases@, count as nat, before.1, before.2));
        }
    }

    /// Appends the first `count` clauses of a `try` statement.
    #[verifier::spinoff_prover]
    fn print_clauses(&mut self, clauses: &Vec<TryClauseNode>, count: usize)
        requires
            count <= clauses@.len(),
        ensures
            appended(old(self)@, final(self)@, clauses_text(clauses@, count as nat, old(self)@.1, old(self)@.2)),
        decreases clauses@, count,
    {
        let ghost before = self@;
        if count == 0 {
            proof {
                assert(self@.0 =~= before.0 + clauses_text(clauses@, count as nat, before.1, before.2));
            }
            return;
        }
        let index = count - 1;
        self.print_clauses(clauses, index);
        let clause = &clauses[index];
        if index != 0 {
            self.write_indent();
        }
        match &clause.name {
            Some(name) => {
                self.write("catch ");
                self.write(name.as_str());
                self.write("(");
            },
            None => {
                if index == 0 {
                    self.write("returns (");
                } else {
                    self.write("catch (");
                }
            },
        }
        self.print_var_list(&clause.args, VarMode::Parameter);
        self.write(") ");
        self.print_block(&clause.block);
        proof {
            assert(self@.0 =~= before.0 + clauses_text(clauses@, count as nat, before.1, before.2));
        }
    }

    /// Appends a list of variable declarations in `var_mode`, separated by `, `.
    fn print_var_list(&mut self, vars: &Vec<VariableNode>, var_mode: VarMode)
        ensures
            appended(old(self)@, final(self)@, vars_text(vars@, vars@.len(), var_mode, old(self)@.2)),
    {
        self.print_vars(vars, vars.len(), var_mode);
    }

    /// Appends a `try` statement's call and clauses.
    fn print_try(&mut self, try_stmt: &StmtTryNode)
        ensures
            appended(old(self)@, final(self)@, try_text(*try_stmt, old(self)@.1, old(self)@.2)),
        decreases try_stmt, 0nat,
    {
        let ghost before = self@;
        self.write("try ");
        self.print_expr(&try_stmt.expr);
        self.write(" ");
        self.print_clauses(&try_stmt.clauses, try_stmt.clauses.len());
        proof {
            assert(self@.0 =~= before.0 + try_text(*try_stmt, before.1, before.2));
        }
    }

    /// Appends a statement at the current indentation.
    #[verifier::spinoff_prover]
    #[verifier::rlimit(40)]
    fn print_stmt(&mut self, stmt: &StmtNode)
        ensures
            appended(old(self)@, final(self)@, stmt_text(*stmt, old(self)@.1, old(self)@.2)),
        decreases stmt, 0nat,
    {
        let ghost before = self@;
        self.write_indent();
        match stmt {
            StmtNode::DeclSingle(var) => {
                self.print_variable(var, VarMode::Local);
                self.write(";\n");
            },
            StmtNode::DeclMulti(vars, value) => {
                self.write("(");
                self.print_opt_vars(vars, vars.len());
                self.write(") = ");
                self.print_expr(value);
                self.write(";\n");
            },
            StmtNode::Block(stmts) => self.print_block(stmts),
            StmtNode::UncheckedBlock(stmts) => {
                self.write("unchecked ");
                self.print_block(stmts);
            },
            StmtNode::AssemblyBlock(stmts) => {
                self.write("assembly ");
                self.print_block(stmts);
            },
            StmtNode::Emit(expr) => {
                self.write("emit ");
                self.print_expr(expr);
                self.write(";\n");
            },
            StmtNode::Revert(expr) => {
                self.write("revert ");
                self.print_expr(expr);
                self.write(";\n");
            },
            StmtNode::Return(expr) => {
                self.write("return");
                match expr {
                    Some(expr) => {
                        self.write(" ");
                        self.print_expr(expr);
                    },
                    None => {},
                }
                self.write(";\n");
            },
            StmtNode::Break => self.write("break;\n"),
            StmtNode::Continue => self.write("continue;\n"),
            StmtNode::Loop(stmts, source) => {
                self.write("hir.loop(");
                self.write(source.name());
                self.write(") ");
                self.print_block(stmts);
            },
            StmtNode::If(condition, then_stmt, else_stmt) => {
                self.write("if (");
                self.print_condition(condition);
                self.write(") ");
                self.print_stmt_as_block(then_stmt);
                match else_stmt {
                    Some(else_stmt) => {
                        self.write_indent();
                        self.write("else ");
                        self.print_stmt_as_block(else_stmt);
                    },
                    None => {},
                }
            },
            StmtNode::Switch(selector, cases) => {
                self.write("switch ");
                self.print_expr(selector);
                self.write(" {\n");
                let previous = self.indent_more();
                self.print_cases(cases, cases.len());
                self.restore_indent(previous);
                self.write_indent();
                self.write("}\n");
            },
            StmtNode::Try(try_stmt) => self.print_try(try_stmt),
            StmtNode::Expr(expr) => {
                self.print_expr(expr);
                self.write(";\n");
            },
            StmtNode::Placeholder => self.write("_;\n"),
            StmtNode::Invalid => self.write("<error>;\n"),
        }
        proof {
            assert(self@.0 =~= before.0 + stmt_text(*stmt, before.1, before.2));
        }
    }

    /// Appends a modifier invocation.
    #[verifier::spinoff_prover]
    fn print_modifier(&mut self, modifier: &ModifierNode)
        ensures
            appended(old(self)@, final(self)@, modifier_text(*modifier, old(self)@.2)),
    {
        let ghost before = self@;
        self.print_item_name(&modifier.item);
        let args_empty = match &modifier.args {
            CallArgsNode::Unnamed(exprs) => exprs.len() == 0,
            CallArgsNode::Named(named) => named.len() == 0,
        };
        if self.mode == PrintMode::Header && !modifier.args_dummy {
            match &modifier.args_snippet {
                Some(snippet) => {
                    let text = trim_snippet(snippet.as_str());
                    self.write(text);
                },
                None => self.write("(...)"),
            }
        } else if !modifier.args_dummy || !args_empty {
            self.print_call_args(&modifier.args);
        }
        proof {
            assert(self@.0 =~= before.0 + modifier_text(*modifier, before.2));
        }
    }

    /// Appends the first `count` modifiers, each after a space.
    fn print_modifiers(&mut self, modifiers: &Vec<ModifierNode>, count: usize)
        requires
            count <= modifiers@.len(),
        ensures
            appended(old(self)@, final(self)@, modifiers_text(modifiers@, count as nat, old(self)@.2)),
        decreases count,
    {
        let ghost before = self@;
        if count == 0 {
            proof {
                assert(self@.0 =~= before.0 + modifiers_text(modifiers@, count as nat, before.2));
            }
            return;
        }
        self.print_modifiers(modifiers, count - 1);
        self.write(" ");
        self.print_modifier(&modifiers[count - 1]);
        proof {
            assert(self@.0 =~= before.0 + modifiers_text(modifiers@, count as nat, before.2));
        }
    }

    /// Appends the first `count` base contracts with arguments, separated by `, `.
    fn print_bases_args(&mut self, bases: &Vec<ModifierNode>, count: usize)
        requires
            count <= bases@.len(),
        ensures
            appended(old(self)@, final(self)@, bases_args_text(bases@, count as nat, old(self)@.2)),
        decreases count,
    {
        let ghost before = self@;
        if count == 0 {
            proof {
                assert(self@.0 =~= before.0 + bases_args_text(bases@, count as nat, before.2));
            }
            return;
        }
        if count > 1 {
            self.print_bases_args(bases, count - 1);
            self.write(", ");
        }
        self.print_modifier(&bases[count - 1]);
        proof {
            assert(self@.0 =~= before.0 + bases_args_text(bases@, count as nat, before.2));
        }
    }

    /// Appends the comment naming the state variable of a getter.
    #[verifier::spinoff_prover]
    fn print_gettee(&mut self, function: &FunctionNode)
        ensures
            appended(old(self)@, final(self)@, gettee_text(*function, old(self)@.1, old(self)@.2)),
    {
        let ghost before = self@;
        if self.mode == PrintMode::Full {
            match &function.gettee {
                Some(gettee) => {
                    self.write_indent();
                    self.write("// getter for ");
                    self.print_var_name(gettee.id, &gettee.name);
                    self.write("\n");
                },
                None => {},
            }
        }
        proof {
            assert(self@.0 =~= before.0 + gettee_text(*function, before.1, before.2));
        }
    }

    /// Appends the signature of a function: kind, name and parameters.
    #[verifier::spinoff_prover]
    fn print_signature(&mut self, function: &FunctionNode)
        ensures
            appended(old(self)@, final(self)@, signature_text(*function, old(self)@.1, old(self)@.2)),
    {
        let ghost before = self@;
        self.write_indent();
        if function.is_yul {
            self.write("yul ");
        }
        match function.kind {
            FunctionKind::Constructor => self.write("constructor"),
            FunctionKind::Function => self.write("function"),
            FunctionKind::Fallback => self.write("fallback"),
            FunctionKind::Receive => self.write("receive"),
            FunctionKind::Modifier => self.write("modifier"),
        }
        match &function.name {
            Some(name) => {
                self.write(" ");
                self.write(name.as_str());
            },
            None => {},
        }
        self.write("(");
        self.print_var_list(&function.parameters, VarMode::Parameter);
        self.write(")");
        proof {
            assert(self@.0 =~= before.0 + signature_text(*function, before.1, before.2));
        }
    }

    /// Appends what a function writes after its parameters.
    #[verifier::spinoff_prover]
    fn print_function_attributes(&mut self, function: &FunctionNode)
        ensures
            appended(old(self)@, final(self)@, function_attributes_text(*function, old(self)@.2)),
    {
        let ghost before = self@;
        if self.mode == PrintMode::Full {
            self.write(" ");
            self.print_visibility(function.visibility);
            self.print_state_mutability(function.state_mutability);
            self.print_modifiers(&function.modifiers, function.modifiers.len());
        } else {
            match function.kind {
                FunctionKind::Function => {
                    if !function.is_yul {
                        self.write(" ");
                        self.print_visibility(function.visibility);
                        self.print_state_mutability(function.state_mutability);
                    }
                },
                FunctionKind::Constructor => {
                    if function.state_mutability == StateMutability::Payable {
                        self.write(" payable");
                    }
                },
                FunctionKind::Fallback | FunctionKind::Receive => {
                    self.write(" ");
                    self.print_visibility(function.visibility);
                    self.print_state_mutability(function.state_mutability);
                },
                FunctionKind::Modifier => {},
            }
        }
        proof {
            assert(self@.0 =~= before.0 + function_attributes_text(*function, before.2));
        }
    }

    /// Appends `virtual` and `override` with its contract list.
    fn print_inheritance(&mut self, function: &FunctionNode)
        ensures
            appended(old(self)@, final(self)@, inheritance_text(*function)),
    {
        let ghost before = self@;
        if function.marked_virtual {
            self.write(" virtual");
        }
        let ghost step1 = self@.0;
        if function.override_ {
            self.write(" override");
            self.print_override_list(&function.overrides);
        }
        proof {
            assert(step1 =~= before.0 + text_if(function.marked_virtual, " virtual"@));
            assert(self@.0 =~= step1 + text_if(function.override_, " override"@ + override_list_text(function.overrides@)));
            assert(self@.0 =~= before.0 + inheritance_text(*function));
        }
    }

    /// Appends the return variables of a function, when it has any.
    fn print_returns(&mut self, function: &FunctionNode)
        ensures
            appended(old(self)@, final(self)@, returns_text(*function, old(self)@.2)),
    {
        let ghost before = self@;
        if function.return_parameters.len() > 0 {
            self.write(" returns (");
            self.print_var_list(&function.return_parameters, VarMode::Return);
            self.write(")");
        }
        proof {
            assert(self@.0 =~= before.0 + returns_text(*function, before.2));
        }
    }

    /// Appends the specifiers of a function after its attributes.
    fn print_specifiers(&mut self, function: &FunctionNode)
        ensures
            appended(old(self)@, final(self)@, specifiers_text(*function, old(self)@.2)),
    {
        let ghost before = self@;
        self.print_inheritance(function);
        let ghost step1 = self@.0;
        if self.mode == PrintMode::Header {
            self.print_modifiers(&function.modifiers, function.modifiers.len());
        }
        let ghost step2 = self@.0;
        self.print_returns(function);
        proof {
            assert(step2 =~= step1 + text_if(
                before.2 == PrintMode::Header,
                modifiers_text(function.modifiers@, function.modifiers@.len(), before.2),
            ));
            assert(self@.0 =~= before.0 + specifiers_text(*function, before.2));
        }
    }

    /// Appends the body of a function in full mode.
    #[verifier::spinoff_prover]
    fn print_function_body(&mut self, function: &FunctionNode)
        ensures
            appended(old(self)@, final(self)@, function_body_text(*function, old(self)@.1, old(self)@.2)),
    {
        let ghost before = self@;
        if self.mode == PrintMode::Full {
            match &function.body {
                Some(body) => {
                    self.write(" ");
                    self.print_block(body);
                },
                None => self.write(";\n"),
            }
        }
        proof {
            assert(self@.0 =~= before.0 + function_body_text(*function, before.1, before.2));
        }
    }

    /// Appends a function at the current indentation.
    fn print_function(&mut self, function: &FunctionNode)
        ensures
            appended(old(self)@, final(self)@, function_text(*function, old(self)@.1, old(self)@.2)),
    {
        let ghost before = self@;
        self.print_gettee(function);
        self.print_signature(function);
        self.print_function_attributes(function);
        self.print_specifiers(function);
        self.print_function_body(function);
        proof {
            assert(self@.0 =~= before.0 + function_text(*function, before.1, before.2));
        }
    }

    /// Appends the first `count` struct fields, each on its own line.
    fn print_fields(&mut self, fields: &Vec<VariableNode>, count: usize)
        requires
            count <= fields@.len(),
        ensures
            appended(old(self)@, final(self)@, fields_text(fields@, count as nat, old(self)@.1, old(self)@.2)),
        decreases count,
    {
        let ghost before = self@;
        if count == 0 {
            proof {
                assert(self@.0 =~= before.0 + fields_text(fields@, count as nat, before.1, before.2));
            }
            return;
        }
        self.print_fields(fields, count - 1);
        self.write_indent();
        self.print_variable(&fields[count - 1], VarMode::Parameter);
        self.write(";\n");
        proof {
            assert(self@.0 =~= before.0 + fields_text(fields@, count as nat, before.1, before.2));
        }
    }

    /// Appends a struct at the current indentation.
    fn print_struct(&mut self, node: &StructNode)
        ensures
            appended(old(self)@, final(self)@, struct_text(*node, old(self)@.1, old(self)@.2)),
    {
        let ghost before = self@;
        self.write_indent();
        self.write("struct ");
        self.write(node.name.as_str());
        if self.mode == PrintMode::Header {
            proof {
                assert(self@.0 =~= before.0 + struct_text(*node, before.1, before.2));
            }
            return;
        }
        self.write(" {\n");
        let previous = self.indent_more();
        self.print_fields(&node.fields, node.fields.len());
        self.restore_indent(previous);
        self.write_indent();
        self.write("}\n");
        proof {
            assert(self@.0 =~= before.0 + struct_text(*node, before.1, before.2));
        }
    }

    /// Appends an enum at the current indentation.
    fn print_enum(&mut self, node: &EnumNode)
        ensures
            appended(old(self)@, final(self)@, enum_text(*node, old(self)@.1, old(self)@.2)),
    {
        let ghost before = self@;
        self.write_indent();
        self.write("enum ");
        self.write(node.name.as_str());
        if self.mode == PrintMode::Full {
            self.write(" {");
            self.print_names(&node.variants, node.variants.len(), ", ");
            self.write("}\n");
        }
        proof {
            assert(self@.0 =~= before.0 + enum_text(*node, before.1, before.2));
        }
    }

    /// Appends a user-defined value type at the current indentation.
    fn print_udvt(&mut self, node: &UdvtNode)
        ensures
            appended(old(self)@, final(self)@, udvt_text(*node, old(self)@.1, old(self)@.2)),
    {
        let ghost before = self@;
        self.write_indent();
        self.write("type ");
        self.write(node.name.as_str());
        self.write(" is ");
        self.print_ty(&node.ty);
        if self.mode == PrintMode::Full {
            self.write(";\n");
        }
        proof {
            assert(self@.0 =~= before.0 + udvt_text(*node, before.1, before.2));
        }
    }

    /// Appends an error at the current indentation.
    fn print_error(&mut self, node: &ErrorNode)
        ensures
            appended(old(self)@, final(self)@, error_text(*node, old(self)@.1, old(self)@.2)),
    {
        let ghost before = self@;
        self.write_indent();
        self.write("error ");
        self.write(node.name.as_str());
        self.write("(");
        self.print_var_list(&node.parameters, VarMode::Parameter);
        self.write(")");
        if self.mode == PrintMode::Full {
            self.write(";\n");
        }
        proof {
            assert(self@.0 =~= before.0 + error_text(*node, before.1, before.2));
        }
    }

    /// Appends an event at the current indentation.
    fn print_event(&mut self, node: &EventNode)
        ensures
            appended(old(self)@, final(self)@, event_text(*node, old(self)@.1, old(self)@.2)),
    {
        let ghost before = self@;
        self.write_indent();
        self.write("event ");
        self.write(node.name.as_str());
        self.write("(");
        self.print_var_list(&node.parameters, VarMode::Parameter);
        self.write(")");
        if node.anonymous {
            self.write(" anonymous");
        }
        if self.mode == PrintMode::Full {
            self.write(";\n");
        }
        proof {
            assert(self@.0 =~= before.0 + event_text(*node, before.1, before.2));
        }
    }

    /// Appends an entry of a `using` directive.
    fn print_using_entry(&mut self, entry: &UsingEntryNode)
        ensures
            appended(old(self)@, final(self)@, using_entry_text(*entry)),
    {
        let ghost before = self@;
        match &entry.kind {
            UsingEntryKind::Library(name) => self.write(name.as_str()),
            UsingEntryKind::Functions(names) => self.print_names(names, names.len(), " | "),
            UsingEntryKind::Invalid => self.write("<error>"),
        }
        match &entry.operator {
            Some(operator) => {
                self.write(" as ");
                self.write(operator.as_str());
            },
            None => {},
        }
        proof {
            assert(self@.0 =~= before.0 + using_entry_text(*entry));
        }
    }

    /// Appends the first `count` entries of a `using` directive, separated by `, `.
    fn print_using_entries(&mut self, entries: &Vec<UsingEntryNode>, count: usize)
        requires
            count <= entries@.len(),
        ensures
            appended(old(self)@, final(self)@, using_entries_text(entries@, count as nat)),
        decreases count,
    {
        let ghost before = self@;
        if count == 0 {
            proof {
                assert(self@.0 =~= before.0 + using_entries_text(entries@, count as nat));
            }
            return;
        }
        if count > 1 {
            self.print_using_entries(entries, count - 1);
            self.write(", ");
        }
        self.print_using_entry(&entries[count - 1]);
        proof {
            assert(self@.0 =~= before.0 + using_entries_text(entries@, count as nat));
        }
    }

    /// Appends a `using` directive at the current indentation.
    #[verifier::spinoff_prover]
    fn print_using(&mut self, using: &UsingNode)
        ensures
            appended(old(self)@, final(self)@, using_text(*using, old(self)@.1, old(self)@.2)),
    {
        let ghost before = self@;
        self.write_indent();
        self.write("using ");
        let single_library = using.entries.len() == 1 && match &using.entries[0].kind {
            UsingEntryKind::Library(_) => true,
            _ => false,
        };
        if single_library {
            self.print_using_entry(&using.entries[0]);
        } else {
            self.write("{");
            self.print_using_entries(&using.entries, using.entries.len());
            self.write("}");
        }
        self.write(" for ");
        match &using.ty {
            Some(ty) => self.print_ty(ty),
            None => self.write("*"),
        }
        if using.global {
            self.write(" global");
        }
        self.write(";\n");
        proof {
            assert(self@.0 =~= before.0 + using_text(*using, before.1, before.2));
        }
    }

    /// Appends the first `count` `using` directives; after any, the output no longer ends with an
    /// opening line.
    fn print_usings(&mut self, usings: &Vec<UsingNode>, count: usize)
        requires
            count <= usings@.len(),
        ensures
            final(self)@ == (
                old(self)@.0 + usings_text(usings@, count as nat, old(self)@.1, old(self)@.2),
                old(self)@.1,
                old(self)@.2,
                if count > 0 {
                    false
                } else {
                    old(self)@.3
                },
            ),
        decreases count,
    {
        let ghost before = self@;
        if count == 0 {
            proof {
                assert(self@.0 =~= before.0 + usings_text(usings@, count as nat, before.1, before.2));
            }
            return;
        }
        self.print_usings(usings, count - 1);
        self.ends_with_open = false;
        self.print_using(&usings[count - 1]);
        proof {
            assert(self@.0 =~= before.0 + usings_text(usings@, count as nat, before.1, before.2));
        }
    }

    /// Appends the head of a contract.
    #[verifier::spinoff_prover]
    fn print_contract_head(&mut self, contract: &ContractNode)
        ensures
            appended(old(self)@, final(self)@, contract_head_text(*contract, old(self)@.1, old(self)@.2)),
    {
        let ghost before = self@;
        self.write_indent();
        self.write(contract.kind.as_str());
        self.write(" ");
        self.write(contract.name.as_str());
        if self.mode == PrintMode::Full {
            match &contract.layout {
                Some(layout) => {
                    self.write(" layout at ");
                    self.print_expr(layout);
                },
                None => {},
            }
        }
        if self.mode == PrintMode::Full && contract.bases_args.len() > 0 {
            self.write(" is ");
            self.print_bases_args(&contract.bases_args, contract.bases_args.len());
        } else if contract.bases.len() > 0 {
            self.write(" is ");
            self.print_names(&contract.bases, contract.bases.len(), ", ");
        }
        proof {
            assert(self@.0 =~= before.0 + contract_head_text(*contract, before.1, before.2));
        }
    }

    /// Appends a contract at the current indentation.
    #[verifier::spinoff_prover]
    #[verifier::rlimit(60)]
    fn print_contract(&mut self, contract: &ContractNode)
        ensures
            advanced(old(self)@, final(self)@, contract_text(*contract, old(self)@.1, old(self)@.2, old(self)@.3)),
        decreases contract, 0nat,
    {
        let ghost before = self@;
        self.print_contract_head(contract);
        if self.mode == PrintMode::Header {
            proof {
                assert(self@.0 =~= before.0 + contract_text(*contract, before.1, before.2, before.3).0);
            }
            return;
        }
        self.write(" {\n");
        self.ends_with_open = true;
        let previous = self.indent_more();
        self.print_usings(&contract.usings, contract.usings.len());
        self.print_items(&contract.items, contract.items.len());
        self.restore_indent(previous);
        self.write_indent();
        self.write("}\n");
        self.ends_with_open = false;
        proof {
            assert(self@.0 =~= before.0 + contract_text(*contract, before.1, before.2, before.3).0);
        }
    }

    /// Appends an item at the current indentation.
    fn print_item(&mut self, item: &ItemNode)
        ensures
            advanced(old(self)@, final(self)@, item_text(*item, old(self)@.1, old(self)@.2, old(self)@.3)),
        decreases item, 0nat,
    {
        let ghost before = self@;
        match item {
            ItemNode::Contract(contract) => self.print_contract(contract),
            ItemNode::Function(function) => self.print_function(function),
            ItemNode::Variable(var) => {
                self.write_indent();
                self.print_variable(var, VarMode::Item);
                if self.mode == PrintMode::Full {
                    self.write(";\n");
                }
                proof {
                    assert(self@.0 =~= before.0 + item_text(*item, before.1, before.2, before.3).0);
                }
            },
            ItemNode::Struct(node) => self.print_struct(node),
            ItemNode::Enum(node) => self.print_enum(node),
            ItemNode::Udvt(node) => self.print_udvt(node),
            ItemNode::Error(node) => self.print_error(node),
            ItemNode::Event(node) => self.print_event(node),
        }
    }

    /// Appends the first `count` items, each after a newline unless it is the first one right
    /// after an opening line.
    fn print_items(&mut self, items: &Vec<ItemNode>, count: usize)
        requires
            count <= items@.len(),
        ensures
            advanced(
                old(self)@,
                final(self)@,
                items_text(items@, count as nat, old(self)@.1, old(self)@.2, old(self)@.3),
            ),
        decreases items@, count,
    {
        let ghost before = self@;
        if count == 0 {
            proof {
                assert(self@.0 =~= before.0 + items_text(items@, count as nat, before.1, before.2, before.3).0);
            }
            return;
        }
        self.print_items(items, count - 1);
        if count - 1 != 0 || !self.ends_with_open {
            self.write("\n");
        }
        self.print_item(&items[count - 1]);
        proof {
            assert(self@.0 =~= before.0 + items_text(items@, count as nat, before.1, before.2, before.3).0);
        }
    }

    /// Appends a source at the current indentation.
    fn print_source_inner(&mut self, source: &SourceNode)
        ensures
            advanced(old(self)@, final(self)@, source_text(*source, old(self)@.1, old(self)@.2)),
    {
        let ghost before = self@;
        self.write("source ");
        self.write_decimal(source.index);
        self.write(" \"");
        self.write(source.file_name.as_str());
        self.write("\" {\n");
        self.ends_with_open = true;
        let previous = self.indent_more();
        self.print_usings(&source.usings, source.usings.len());
        self.print_items(&source.items, source.items.len());
        self.restore_indent(previous);
        self.write("}\n");
        proof {
            assert(self@.0 =~= before.0 + source_text(*source, before.1, before.2).0);
        }
    }

    /// Creates a printer in `mode`, with empty output.
    fn with_mode(mode: PrintMode) -> (printer: Self)
        ensures
            printer@ == (Seq::<char>::empty(), Seq::<char>::empty(), mode, false),
    {
        HirPrinter { out: String::new(), indent: String::new(), mode, ends_with_open: false }
    }

    /// Creates a new HIR printer.
    pub fn new() -> (printer: Self)
        ensures
            printer@ == (Seq::<char>::empty(), Seq::<char>::empty(), PrintMode::Full, false),
    {
        Self::with_mode(PrintMode::Full)
    }

    /// Returns the header of an item's declaration in Solidity syntax.
    pub fn display(item: &ItemNode) -> (text: String)
        ensures
            text@ == item_text(*item, Seq::empty(), PrintMode::Header, false).0,
    {
        let mut printer = Self::with_mode(PrintMode::Header);
        printer.print_item(item);
        printer.finish()
    }

    /// Prints all sources and returns the accumulated output.
    pub fn print_all(self, sources: &Vec<SourceNode>) -> (text: String)
        ensures
            text@ == self@.0 + sources_text(sources@, sources@.len(), self@.1, self@.2),
    {
        let mut printer = self;
        let ghost start = printer@;
        let mut i: usize = 0;
        while i < sources.len()
            invariant
                0 <= i <= sources@.len(),
                printer@.0 == start.0 + sources_text(sources@, i as nat, start.1, start.2),
                printer@.1 == start.1,
                printer@.2 == start.2,
            decreases sources@.len() - i,
        {
            let ghost before = printer@.0;
            printer.print_source(&sources[i]);
            proof {
                assert(printer@.0 =~= start.0 + sources_text(sources@, (i + 1) as nat, start.1, start.2));
            }
            i += 1;
        }
        printer.finish()
    }

    /// Prints one source.
    pub fn print_source(&mut self, source: &SourceNode)
        ensures
            advanced(old(self)@, final(self)@, source_text(*source, old(self)@.1, old(self)@.2)),
    {
        self.print_source_inner(source);
    }

    /// Returns the accumulated output.
    pub fn finish(self) -> (text: String)
        ensures
            text@ == self@.0,
    {
        self.out
    }
}

/// Printing sources one at a time with `print_source` gives the text that `print_all` gives
/// for all of them: when each view in `views` is the one before advanced by the text of the
/// next source, the last output is the first followed by the text of all the sources. With no
/// source, nothing is added.
pub proof fn lemma_print_all_is_each_source(sources: Seq<SourceNode>, views: Seq<PrinterView>)
    requires
        views.len() == sources.len() + 1,
        forall|i: int|
            0 <= i < sources.len() ==> #[trigger] advanced(
                views[i],
                views[i + 1],
                source_text(sources[i], views[i].1, views[i].2),
            ),
    ensures
        views.last().0 == views[0].0 + sources_text(sources, sources.len(), views[0].1, views[0].2),
        views.last().1 == views[0].1 && views.last().2 == views[0].2,
    decreases sources.len(),
{
    if sources.len() == 0 {
        assert(views[0].0 + Seq::<char>::empty() =~= views[0].0);
    } else {
        let n = sources.len() - 1;
        let shorter = sources.subrange(0, n as int);
        let earlier = views.subrange(0, n + 1);
        assert forall|i: int| 0 <= i < shorter.len() implies #[trigger] advanced(
            earlier[i],
            earlier[i + 1],
            source_text(shorter[i], earlier[i].1, earlier[i].2),
        ) by {
            assert(advanced(views[i], views[i + 1], source_text(sources[i], views[i].1, views[i].2)));
        }
        lemma_print_all_is_each_source(shorter, earlier);
        lemma_sources_text_prefix(sources, n as nat, views[0].1, views[0].2);
        assert(advanced(views[n as int], views[n + 1], source_text(sources[n as int], views[n as int].1, views[n as int].2)));
        assert(views.last() == views[n + 1]);
    }
}

/// The text of the first `count` sources depends on those sources alone.
proof fn lemma_sources_text_prefix(sources: Seq<SourceNode>, count: nat, indent: Seq<char>, mode: PrintMode)
    requires
        count <= sources.len(),
    ensures
        sources_text(sources.subrange(0, count as int), count, indent, mode) == sources_text(sources, count, indent, mode),
    decreases count,
{
    if count > 0 {
        lemma_sources_text_prefix(sources, (count - 1) as nat, indent, mode);
        lemma_sources_text_prefix(sources.subrange(0, count as int), (count - 1) as nat, indent, mode);
        assert(sources.subrange(0, count as int).subrange(0, count - 1) =~= sources.subrange(0, count - 1));
    }
}

} // verus!
