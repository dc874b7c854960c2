//! Pretty-printing of HIR nodes as compact Solidity-like source, for debugging, diagnostics and
//! code suggestions.
//!
//! This printer reads the same resolved nodes as [`crate::print`], but writes single nodes rather
//! than whole sources: binary operations without parentheses, blocks whose closing brace is not
//! followed by a newline, and resolutions by their first candidate.

use vstd::prelude::*;

use crate::ids::ItemId;
use crate::print::{
    data_location_text, function_kind_text, indent_unit, loop_source_text, names_text, state_mutability_text,
    var_mut_text, visibility_text, text_if, CallArgsNode, ContractNode, EnumNode, ErrorNode, EventNode, ExprNode,
    FunctionKind, FunctionNode, ItemNode, ModifierNode, NamedArgNode, ResRef, StateMutability, StmtNode, StructNode,
    StmtTryNode, SwitchCaseNode, TryClauseNode, TypeNode, UdvtNode, VariableNode,
};
use crate::variables::{VarMut, Visibility};

verus! {

/// The text of a resolution: an item by its name, an import namespace by the debug form of its
/// file name, a builtin by the name of its variant.
pub open spec fn pretty_res_text(res: ResRef) -> Seq<char> {
    match res {
        ResRef::Item(item) => match item.name {
            Some(name) => name@,
            None => "<unnamed>"@,
        },
        ResRef::Namespace(_, debug) => debug@,
        ResRef::Builtin(_, variant) => variant@,
        ResRef::Invalid => "<error>"@,
    }
}

/// An optional name after a space.
pub open spec fn opt_name_text(name: Option<String>) -> Seq<char> {
    match name {
        Some(name) => " "@ + name@,
        None => Seq::empty(),
    }
}

/// An optional expression: nothing when absent.
pub open spec fn pretty_opt_expr_text(expr: Option<Box<ExprNode>>) -> Seq<char>
    decreases expr, 1nat,
{
    match expr {
        Some(expr) => pretty_expr_text(*expr),
        None => Seq::empty(),
    }
}

/// The pretty text of an expression.
pub open spec fn pretty_expr_text(expr: ExprNode) -> Seq<char>
    decreases expr, 0nat,
{
    match expr {
        ExprNode::Array(exprs) => "["@ + pretty_exprs_text(exprs@, exprs@.len()) + "]"@,
        ExprNode::Assign(lhs, op, rhs) => pretty_expr_text(*lhs) + match op {
            Some(op) => " "@ + op@ + "= "@,
            None => " = "@,
        } + pretty_expr_text(*rhs),
        ExprNode::Binary(lhs, op, rhs) => pretty_expr_text(*lhs) + " "@ + op@ + " "@ + pretty_expr_text(*rhs),
        ExprNode::Call(callee, args, options) => pretty_expr_text(*callee) + match options {
            Some(options) => "{"@ + pretty_named_args_text(options@, options@.len()) + "}"@,
            None => Seq::empty(),
        } + "("@ + pretty_call_args_text(args) + ")"@,
        ExprNode::Delete(expr) => "delete "@ + pretty_expr_text(*expr),
        ExprNode::Ident(res) => if res@.len() > 0 {
            pretty_res_text(res@[0])
        } else {
            "<unresolved>"@
        },
        ExprNode::Index(base, index) => pretty_expr_text(*base) + "["@ + pretty_opt_expr_text(index) + "]"@,
        ExprNode::Slice(base, start, end) => pretty_expr_text(*base) + "["@ + pretty_opt_expr_text(start) + ":"@
            + pretty_opt_expr_text(end) + "]"@,
        ExprNode::Lit(text) => text@,
        ExprNode::Member(base, member) => pretty_expr_text(*base) + "."@ + member@,
        ExprNode::YulMember(base, member) => pretty_expr_text(*base) + "."@ + member@,
        ExprNode::New(ty) => "new "@ + pretty_ty_text(ty),
        ExprNode::Payable(expr) => "payable("@ + pretty_expr_text(*expr) + ")"@,
        ExprNode::Ternary(condition, then_expr, else_expr) => pretty_expr_text(*condition) + " ? "@ + pretty_expr_text(
            *then_expr,
        ) + " : "@ + pretty_expr_text(*else_expr),
        ExprNode::Tuple(exprs) => "("@ + pretty_opt_exprs_text(exprs@, exprs@.len()) + ")"@,
        ExprNode::TypeCall(ty) => "type("@ + pretty_ty_text(ty) + ")"@,
        ExprNode::Type(ty) => pretty_ty_text(ty),
        ExprNode::Unary(op, prefix, expr) => if prefix {
            op@ + pretty_expr_text(*expr)
        } else {
            pretty_expr_text(*expr) + op@
        },
        ExprNode::Invalid => "<error>"@,
    }
}

/// The first `count` expressions, separated by `, `.
pub open spec fn pretty_exprs_text(exprs: Seq<ExprNode>, count: nat) -> Seq<char>
    decreases exprs, count,
{
    if count == 0 || count > exprs.len() {
        Seq::empty()
    } else if count == 1 {
        pretty_expr_text(exprs[0])
    } else {
        pretty_exprs_text(exprs, (count - 1) as nat) + ", "@ + pretty_expr_text(exprs[count - 1])
    }
}

/// The first `count` tuple components, separated by `, `; an omitted one is empty.
pub open spec fn pretty_opt_exprs_text(exprs: Seq<Option<ExprNode>>, count: nat) -> Seq<char>
    decreases exprs, count,
{
    if count == 0 || count > exprs.len() {
        Seq::empty()
    } else {
        let component = match exprs[count - 1] {
            Some(expr) => pretty_expr_text(expr),
            None => Seq::empty(),
        };
        if count == 1 {
            component
        } else {
            pretty_opt_exprs_text(exprs, (count - 1) as nat) + ", "@ + component
        }
    }
}

/// The first `count` named arguments `name: value`, separated by `, `.
pub open spec fn pretty_named_args_text(args: Seq<NamedArgNode>, count: nat) -> Seq<char>
    decreases args, count,
{
    if count == 0 || count > args.len() {
        Seq::empty()
    } else {
        let arg = args[count - 1].name@ + ": "@ + pretty_expr_text(args[count - 1].value);
        if count == 1 {
            arg
        } else {
            pretty_named_args_text(args, (count - 1) as nat) + ", "@ + arg
        }
    }
}

/// The arguments of a call, without their parentheses; named ones in braces.
pub open spec fn pretty_call_args_text(args: CallArgsNode) -> Seq<char>
    decreases args, 0nat,
{
    match args {
        CallArgsNode::Unnamed(exprs) => pretty_exprs_text(exprs@, exprs@.len()),
        CallArgsNode::Named(named) => "{"@ + pretty_named_args_text(named@, named@.len()) + "}"@,
    }
}

/// ` visibility` when `shown`, then ` mutability` unless it is `nonpayable`.
pub open spec fn pretty_attributes_text(shown: bool, visibility: Visibility, mutability: StateMutability) -> Seq<char> {
    text_if(shown, " "@ + visibility_text(visibility)) + text_if(
        mutability != StateMutability::NonPayable,
        " "@ + state_mutability_text(mutability),
    )
}

/// The pretty text of a type name.
pub open spec fn pretty_ty_text(ty: TypeNode) -> Seq<char>
    decreases ty, 0nat,
{
    match ty {
        TypeNode::Elementary(text) => text@,
        TypeNode::Array(element, size, _) => pretty_ty_text(*element) + "["@ + pretty_opt_expr_text(size) + "]"@,
        TypeNode::Function(parameters, visibility, mutability, outputs) => "function("@ + pretty_params_text(
            parameters@,
            parameters@.len(),
        ) + ")"@ + pretty_attributes_text(visibility != Visibility::Internal, visibility, mutability) + text_if(
            outputs@.len() > 0,
            " returns ("@ + pretty_params_text(outputs@, outputs@.len()) + ")"@,
        ),
        TypeNode::Mapping(key, key_name, value, value_name) => "mapping("@ + pretty_ty_text(*key) + opt_name_text(
            key_name,
        ) + " => "@ + pretty_ty_text(*value) + opt_name_text(value_name) + ")"@,
        TypeNode::Custom(item) => match item.name {
            Some(name) => name@,
            None => "<custom>"@,
        },
        TypeNode::Invalid => "<error>"@,
    }
}

/// A parameter: type, data location, `indexed` and name.
pub open spec fn pretty_param_text(var: VariableNode) -> Seq<char>
    decreases var, 0nat,
{
    pretty_ty_text(var.ty) + (match var.data_location {
        Some(location) => " "@ + data_location_text(location),
        None => Seq::empty(),
    }) + text_if(var.indexed, " indexed"@) + opt_name_text(var.name)
}

/// The first `count` parameters, separated by `, `.
pub open spec fn pretty_params_text(vars: Seq<VariableNode>, count: nat) -> Seq<char>
    decreases vars, count,
{
    if count == 0 || count > vars.len() {
        Seq::empty()
    } else if count == 1 {
        pretty_param_text(vars[0])
    } else {
        pretty_params_text(vars, (count - 1) as nat) + ", "@ + pretty_param_text(vars[count - 1])
    }
}

/// A declared variable without its declaration attributes: type, data location and name.
pub open spec fn pretty_local_text(var: VariableNode) -> Seq<char> {
    pretty_ty_text(var.ty) + (match var.data_location {
        Some(location) => " "@ + data_location_text(location),
        None => Seq::empty(),
    }) + opt_name_text(var.name)
}

/// The declaration attributes of a variable: visibility, mutability, data location and
/// `override`.
pub open spec fn pretty_decl_attributes_text(var: VariableNode) -> Seq<char> {
    (match var.visibility {
        Some(visibility) => " "@ + visibility_text(visibility),
        None => Seq::empty(),
    }) + (match var.mutability {
        Some(mutability) => " "@ + var_mut_text(mutability),
        None => Seq::empty(),
    }) + (match var.data_location {
        Some(location) => " "@ + data_location_text(location),
        None => Seq::empty(),
    }) + text_if(var.override_, " override"@)
}

/// A variable declaration with its attributes and initializer, ending with `;`.
pub open spec fn pretty_variable_decl_text(var: VariableNode) -> Seq<char> {
    pretty_ty_text(var.ty) + pretty_decl_attributes_text(var) + opt_name_text(var.name) + (match var.initializer {
        Some(initializer) => " = "@ + pretty_expr_text(*initializer),
        None => Seq::empty(),
    }) + ";"@
}

/// The first `count` declared variables of a multi-variable declaration, separated by `, `; an
/// omitted one is empty.
pub open spec fn pretty_opt_locals_text(vars: Seq<Option<VariableNode>>, count: nat) -> Seq<char>
    decreases count,
{
    if count == 0 || count > vars.len() {
        Seq::empty()
    } else {
        let component = match vars[count - 1] {
            Some(var) => pretty_local_text(var),
            None => Seq::empty(),
        };
        if count == 1 {
            component
        } else {
            pretty_opt_locals_text(vars, (count - 1) as nat) + ", "@ + component
        }
    }
}

/// A block whose closing brace is at `indent`: each statement on its own line one level deeper,
/// and no newline after the closing brace.
pub open spec fn pretty_block_text(stmts: Seq<StmtNode>, indent: Seq<char>) -> Seq<char>
    decreases stmts, stmts.len() + 1,
{
    "{\n"@ + pretty_lines_text(stmts, stmts.len(), indent + indent_unit()) + indent + "}"@
}

/// The first `count` statements, each on its own line at `indent`.
pub open spec fn pretty_lines_text(stmts: Seq<StmtNode>, count: nat, indent: Seq<char>) -> Seq<char>
    decreases stmts, count,
{
    if count == 0 || count > stmts.len() {
        Seq::empty()
    } else {
        pretty_lines_text(stmts, (count - 1) as nat, indent) + indent + pretty_stmt_text(stmts[count - 1], indent)
            + "\n"@
    }
}

/// The first `count` clauses of a `try` statement whose blocks close at `indent`.
pub open spec fn pretty_clauses_text(clauses: Seq<TryClauseNode>, count: nat, indent: Seq<char>) -> Seq<char>
    decreases clauses, count,
{
    if count == 0 || count > clauses.len() {
        Seq::empty()
    } else {
        let clause = clauses[count - 1];
        pretty_clauses_text(clauses, (count - 1) as nat, indent) + (if count == 1 {
            " returns"@
        } else {
            " catch"@ + opt_name_text(clause.name)
        }) + "("@ + pretty_params_text(clause.args@, clause.args@.len()) + ") "@ + pretty_block_text(
            clause.block@,
            indent,
        )
    }
}

/// The first `count` cases of a Yul `switch` whose blocks close at `indent`.
pub open spec fn pretty_cases_text(cases: Seq<SwitchCaseNode>, count: nat, indent: Seq<char>) -> Seq<char>
    decreases cases, count,
{
    if count == 0 || count > cases.len() {
        Seq::empty()
    } else {
        let case = cases[count - 1];
        pretty_cases_text(cases, (count - 1) as nat, indent) + (match case.constant {
            Some(constant) => " case "@ + constant@ + " "@,
            None => " default "@,
        }) + pretty_block_text(case.body@, indent)
    }
}

/// A `try` statement whose blocks close at `indent`: its call and its clauses.
pub open spec fn pretty_try_text(try_stmt: StmtTryNode, indent: Seq<char>) -> Seq<char>
    decreases try_stmt, 0nat,
{
    "try "@ + pretty_expr_text(try_stmt.expr) + pretty_clauses_text(try_stmt.clauses@, try_stmt.clauses@.len(), indent)
}

/// The pretty text of a statement whose blocks close at `indent`.
pub open spec fn pretty_stmt_text(stmt: StmtNode, indent: Seq<char>) -> Seq<char>
    decreases stmt, 0nat,
{
    match stmt {
        StmtNode::DeclSingle(var) => pretty_local_text(var) + (match var.initializer {
            Some(initializer) => " = "@ + pretty_expr_text(*initializer),
            None => Seq::empty(),
        }) + ";"@,
        StmtNode::DeclMulti(vars, value) => "("@ + pretty_opt_locals_text(vars@, vars@.len()) + ") = "@
            + pretty_expr_text(value) + ";"@,
        StmtNode::Block(stmts) => pretty_block_text(stmts@, indent),
        StmtNode::UncheckedBlock(stmts) => "unchecked "@ + pretty_block_text(stmts@, indent),
        StmtNode::AssemblyBlock(stmts) => "assembly "@ + pretty_block_text(stmts@, indent),
        StmtNode::Emit(expr) => "emit "@ + pretty_expr_text(expr) + ";"@,
        StmtNode::Revert(expr) => "revert "@ + pretty_expr_text(expr) + ";"@,
        StmtNode::Return(expr) => "return"@ + (match expr {
            Some(expr) => " "@ + pretty_expr_text(expr),
            None => Seq::empty(),
        }) + ";"@,
        StmtNode::Break => "break;"@,
        StmtNode::Continue => "continue;"@,
        StmtNode::Loop(stmts, source) => loop_source_text(source) + " "@ + pretty_block_text(stmts@, indent),
        StmtNode::If(condition, then_stmt, else_stmt) => "if ("@ + pretty_expr_text(condition) + ") "@
            + pretty_stmt_text(*then_stmt, indent) + match else_stmt {
            Some(else_stmt) => " else "@ + pretty_stmt_text(*else_stmt, indent),
            None => Seq::empty(),
        },
        StmtNode::Switch(selector, cases) => "switch "@ + pretty_expr_text(selector) + pretty_cases_text(
            cases@,
            cases@.len(),
            indent,
        ),
        StmtNode::Try(try_stmt) => pretty_try_text(try_stmt, indent),
        StmtNode::Expr(expr) => pretty_expr_text(expr) + ";"@,
        StmtNode::Placeholder => "_;"@,
        StmtNode::Invalid => "<error>;"@,
    }
}

/// The name of an invoked modifier: a function or contract by its name, anything else as
/// `<modifier>`; then its arguments in parentheses when there are any.
pub open spec fn pretty_modifier_text(modifier: ModifierNode) -> Seq<char> {
    (match modifier.item.id {
        ItemId::Function(_) | ItemId::Contract(_) => match modifier.item.name {
            Some(name) => name@,
            None => Seq::empty(),
        },
        _ => "<modifier>"@,
    }) + text_if(
        !crate::print::call_args_empty(modifier.args),
        "("@ + pretty_call_args_text(modifier.args) + ")"@,
    )
}

/// The first `count` modifiers, each after a space.
pub open spec fn pretty_modifiers_text(modifiers: Seq<ModifierNode>, count: nat) -> Seq<char>
    decreases count,
{
    if count == 0 || count > modifiers.len() {
        Seq::empty()
    } else {
        pretty_modifiers_text(modifiers, (count - 1) as nat) + " "@ + pretty_modifier_text(modifiers[count - 1])
    }
}

/// The signature of a function: kind, name, parameters, visibility (omitted for an internal
/// function that is not an ordinary one) and state mutability (omitted when `nonpayable`).
pub open spec fn pretty_signature_text(function: FunctionNode) -> Seq<char> {
    function_kind_text(function.kind) + opt_name_text(function.name) + "("@ + pretty_params_text(
        function.parameters@,
        function.parameters@.len(),
    ) + ")"@ + pretty_attributes_text(
        function.visibility != Visibility::Internal || function.kind == FunctionKind::Function,
        function.visibility,
        function.state_mutability,
    )
}

/// The specifiers of a function after its signature: `virtual`, `override` with its contract
/// list, modifiers and return variables.
pub open spec fn pretty_specifiers_text(function: FunctionNode) -> Seq<char> {
    pretty_inheritance_text(function) + pretty_modifiers_text(function.modifiers@, function.modifiers@.len())
        + pretty_returns_text(function)
}

/// `virtual`, and `override` with its contract list in parentheses when it has one.
pub open spec fn pretty_inheritance_text(function: FunctionNode) -> Seq<char> {
    text_if(function.marked_virtual, " virtual"@) + text_if(
        function.override_,
        " override"@ + text_if(
            function.overrides@.len() > 0,
            "("@ + names_text(function.overrides@, function.overrides@.len(), ", "@) + ")"@,
        ),
    )
}

/// The return variables of a function, when it has any.
pub open spec fn pretty_returns_text(function: FunctionNode) -> Seq<char> {
    text_if(
        function.return_parameters@.len() > 0,
        " returns ("@ + pretty_params_text(function.return_parameters@, function.return_parameters@.len()) + ")"@,
    )
}

/// A function whose body closes at `indent`; `;` when it has no body.
pub open spec fn pretty_function_text(function: FunctionNode, indent: Seq<char>) -> Seq<char> {
    pretty_signature_text(function) + pretty_specifiers_text(function) + match function.body {
        Some(body) => " "@ + pretty_block_text(body@, indent),
        None => ";"@,
    }
}

/// The first `count` struct fields, each on its own line at `indent`.
pub open spec fn pretty_fields_text(fields: Seq<VariableNode>, count: nat, indent: Seq<char>) -> Seq<char>
    decreases count,
{
    if count == 0 || count > fields.len() {
        Seq::empty()
    } else {
        let field = fields[count - 1];
        pretty_fields_text(fields, (count - 1) as nat, indent) + indent + pretty_ty_text(field.ty) + opt_name_text(
            field.name,
        ) + ";\n"@
    }
}

/// A struct whose closing brace is at `indent`.
pub open spec fn pretty_struct_text(node: StructNode, indent: Seq<char>) -> Seq<char> {
    "struct "@ + node.name@ + " {\n"@ + pretty_fields_text(node.fields@, node.fields@.len(), indent + indent_unit())
        + "}"@
}

/// The first `count` variants of an enum, each on its own line at `indent`, all but the enum's last
/// variant followed by a comma.
pub open spec fn pretty_variants_text(variants: Seq<String>, count: nat, indent: Seq<char>) -> Seq<char>
    decreases count,
{
    if count == 0 || count > variants.len() {
        Seq::empty()
    } else {
        pretty_variants_text(variants, (count - 1) as nat, indent) + indent + variants[count - 1]@ + if count
            < variants.len() {
            ",\n"@
        } else {
            "\n"@
        }
    }
}

/// An enum whose closing brace is at `indent`.
pub open spec fn pretty_enum_text(node: EnumNode, indent: Seq<char>) -> Seq<char> {
    "enum "@ + node.name@ + " {\n"@ + pretty_variants_text(node.variants@, node.variants@.len(), indent + indent_unit())
        + "}"@
}

/// A user-defined value type.
pub open spec fn pretty_udvt_text(node: UdvtNode) -> Seq<char> {
    "type "@ + node.name@ + " is "@ + pretty_ty_text(node.ty) + ";"@
}

/// An event.
pub open spec fn pretty_event_text(node: EventNode) -> Seq<char> {
    "event "@ + node.name@ + "("@ + pretty_params_text(node.parameters@, node.parameters@.len()) + ")"@ + text_if(
        node.anonymous,
        " anonymous"@,
    ) + ";"@
}

/// An error.
pub open spec fn pretty_error_text(node: ErrorNode) -> Seq<char> {
    "error "@ + node.name@ + "("@ + pretty_params_text(node.parameters@, node.parameters@.len()) + ");"@
}

/// An item whose closing braces are at `indent`.
pub open spec fn pretty_item_text(item: ItemNode, indent: Seq<char>) -> Seq<char>
    decreases item, 0nat,
{
    match item {
        ItemNode::Contract(contract) => pretty_contract_text(contract, indent),
        ItemNode::Function(function) => pretty_function_text(function, indent),
        ItemNode::Variable(var) => pretty_variable_decl_text(var),
        ItemNode::Struct(node) => pretty_struct_text(node, indent),
        ItemNode::Enum(node) => pretty_enum_text(node, indent),
        ItemNode::Udvt(node) => pretty_udvt_text(node),
        ItemNode::Error(node) => pretty_error_text(node),
        ItemNode::Event(node) => pretty_event_text(node),
    }
}

/// The first `count` items, each on its own line at `indent`.
pub open spec fn pretty_item_lines_text(items: Seq<ItemNode>, count: nat, indent: Seq<char>) -> Seq<char>
    decreases items, count,
{
    if count == 0 || count > items.len() {
        Seq::empty()
    } else {
        pretty_item_lines_text(items, (count - 1) as nat, indent) + indent + pretty_item_text(items[count - 1], indent)
            + "\n"@
    }
}

/// A contract whose items are one level deeper than `indent`.
pub open spec fn pretty_contract_text(contract: ContractNode, indent: Seq<char>) -> Seq<char>
    decreases contract, 0nat,
{
    contract.kind@ + " "@ + contract.name@ + text_if(
        contract.bases@.len() > 0,
        " is "@ + names_text(contract.bases@, contract.bases@.len(), ", "@),
    ) + " {\n"@ + pretty_item_lines_text(contract.items@, contract.items@.len(), indent + indent_unit()) + "}\n"@
}

/// A pretty-printer for HIR nodes.
///
/// Its view is the current indentation, four spaces per level. Every method appends the text of
/// one node to `out` and leaves the indentation as it found it.
#[derive(Debug)]
pub struct HirPrettyPrinter {
    indent: String,
}

impl View for HirPrettyPrinter {
    type V = Seq<char>;

    closed spec fn view(&self) -> Seq<char> {
        self.indent@
    }
}

impl HirPrettyPrinter {
    /// Creates a new HIR pretty-printer.
    pub fn new() -> (printer: Self)
        ensures
            printer@ == Seq::<char>::empty(),
    {
        HirPrettyPrinter { indent: String::new() }
    }

    /// Appends the current indentation.
    fn write_indent(&self, out: &mut String)
        ensures
            final(out)@ == old(out)@ + self@,
    {
        out.append(self.indent.as_str());
    }

    /// Indents one level deeper and returns the previous indentation.
    fn indent_more(&mut self) -> (previous: String)
        ensures
            final(self)@ == old(self)@ + indent_unit(),
            previous@ == old(self)@,
    {
        let previous = self.indent.clone();
        self.indent.append("    ");
        previous
    }

    /// Restores a previous indentation.
    fn restore_indent(&mut self, previous: String)
        ensures
            final(self)@ == previous@,
    {
        self.indent = previous;
    }

    /// Formats a resolution.
    pub fn fmt_res(&mut self, res: &ResRef, out: &mut String)
        ensures
            final(out)@ == old(out)@ + pretty_res_text(*res),
            final(self)@ == old(self)@,
    {
        match res {
            ResRef::Item(item) => match &item.name {
                Some(name) => out.append(name.as_str()),
                None => out.append("<unnamed>"),
            },
            ResRef::Namespace(_, debug) => out.append(debug.as_str()),
            ResRef::Builtin(_, variant) => out.append(variant.as_str()),
            ResRef::Invalid => out.append("<error>"),
        }
    }

    /// Appends an optional name after a space.
    fn fmt_opt_name(&mut self, name: &Option<String>, out: &mut String)
        ensures
            final(out)@ == old(out)@ + opt_name_text(*name),
            final(self)@ == old(self)@,
    {
        let ghost start = out@;
        match name {
            Some(name) => {
                out.append(" ");
                out.append(name.as_str());
            },
            None => {},
        }
        proof {
            assert(out@ =~= start + opt_name_text(*name));
        }
    }

    /// Appends an optional expression.
    fn fmt_opt_expr(&mut self, expr: &Option<Box<ExprNode>>, out: &mut String)
        ensures
            final(out)@ == old(out)@ + pretty_opt_expr_text(*expr),
            final(self)@ == old(self)@,
        decreases expr, 1nat,
    {
        let ghost start = out@;
        match expr {
            Some(expr) => self.fmt_expr(expr, out),
            None => {},
        }
        proof {
            assert(out@ =~= start + pretty_opt_expr_text(*expr));
        }
    }

    /// Formats an expression.
    #[verifier::spinoff_prover]
    #[verifier::rlimit(40)]
    pub fn fmt_expr(&mut self, expr: &ExprNode, out: &mut String)
        ensures
            final(out)@ == old(out)@ + pretty_expr_text(*expr),
            final(self)@ == old(self)@,
        decreases expr, 0nat,
    {
        let ghost start = out@;
        match expr {
            ExprNode::Array(exprs) => {
                out.append("[");
                self.fmt_exprs(exprs, exprs.len(), out);
                out.append("]");
            },
            ExprNode::Assign(lhs, op, rhs) => {
                self.fmt_expr(lhs, out);
                match op {
                    Some(op) => {
                        out.append(" ");
                        out.append(op.as_str());
                        out.append("= ");
                    },
                    None => out.append(" = "),
                }
                self.fmt_expr(rhs, out);
            },
            ExprNode::Binary(lhs, op, rhs) => {
                self.fmt_expr(lhs, out);
                out.append(" ");
                out.append(op.as_str());
                out.append(" ");
                self.fmt_expr(rhs, out);
            },
            ExprNode::Call(callee, args, options) => {
                self.fmt_expr(callee, out);
                match options {
                    Some(options) => {
                        out.append("{");
                        self.fmt_named_args(options, options.len(), out);
                        out.append("}");
                    },
                    None => {},
                }
                out.append("(");
                self.fmt_call_args(args, out);
                out.append(")");
            },
            ExprNode::Delete(expr) => {
                out.append("delete ");
                self.fmt_expr(expr, out);
            },
            ExprNode::Ident(res) => {
                if res.len() > 0 {
                    self.fmt_res(&res[0], out);
                } else {
                    out.append("<unresolved>");
                }
            },
            ExprNode::Index(base, index) => {
                self.fmt_expr(base, out);
                out.append("[");
                self.fmt_opt_expr(index, out);
                out.append("]");
            },
            ExprNode::Slice(base, start, end) => {
                self.fmt_expr(base, out);
                out.append("[");
                self.fmt_opt_expr(start, out);
                out.append(":");
                self.fmt_opt_expr(end, out);
                out.append("]");
            },
            ExprNode::Lit(text) => out.append(text.as_str()),
            ExprNode::Member(base, member) => {
                self.fmt_expr(base, out);
                out.append(".");
                out.append(member.as_str());
            },
            ExprNode::YulMember(base, member) => {
                self.fmt_expr(base, out);
                out.append(".");
                out.append(member.as_str());
            },
            ExprNode::New(ty) => {
                out.append("new ");
                self.fmt_type(ty, out);
            },
            ExprNode::Payable(expr) => {
                out.append("payable(");
                self.fmt_expr(expr, out);
                out.append(")");
            },
            ExprNode::Ternary(condition, then_expr, else_expr) => {
                self.fmt_expr(condition, out);
                out.append(" ? ");
                self.fmt_expr(then_expr, out);
                out.append(" : ");
                self.fmt_expr(else_expr, out);
            },
            ExprNode::Tuple(exprs) => {
                out.append("(");
                self.fmt_opt_exprs(exprs, exprs.len(), out);
                out.append(")");
            },
            ExprNode::TypeCall(ty) => {
                out.append("type(");
                self.fmt_type(ty, out);
                out.append(")");
            },
            ExprNode::Type(ty) => self.fmt_type(ty, out),
            ExprNode::Unary(op, prefix, expr) => {
                if *prefix {
                    out.append(op.as_str());
                    self.fmt_expr(expr, out);
                } else {
                    self.fmt_expr(expr, out);
                    out.append(op.as_str());
                }
            },
            ExprNode::Invalid => out.append("<error>"),
        }
        proof {
            assert(out@ =~= start + pretty_expr_text(*expr));
        }
    }

    /// Appends the first `count` expressions, separated by `, `.
    fn fmt_exprs(&mut self, exprs: &Vec<ExprNode>, count: usize, out: &mut String)
        requires
            count <= exprs@.len(),
        ensures
            final(out)@ == old(out)@ + pretty_exprs_text(exprs@, count as nat),
            final(self)@ == old(self)@,
        decreases exprs@, count,
    {
        let ghost start = out@;
        if count == 0 {
            proof {
                assert(out@ =~= start + pretty_exprs_text(exprs@, count as nat));
            }
            return;
        }
        if count > 1 {
            self.fmt_exprs(exprs, count - 1, out);
            out.append(", ");
        }
        self.fmt_expr(&exprs[count - 1], out);
        proof {
            assert(out@ =~= start + pretty_exprs_text(exprs@, count as nat));
        }
    }

    /// Appends the first `count` tuple components, separated by `, `.
    fn fmt_opt_exprs(&mut self, exprs: &Vec<Option<ExprNode>>, count: usize, out: &mut String)
        requires
            count <= exprs@.len(),
        ensures
            final(out)@ == old(out)@ + pretty_opt_exprs_text(exprs@, count as nat),
            final(self)@ == old(self)@,
        decreases exprs@, count,
    {
        let ghost start = out@;
        if count == 0 {
            proof {
                assert(out@ =~= start + pretty_opt_exprs_text(exprs@, count as nat));
            }
            return;
        }
        if count > 1 {
            self.fmt_opt_exprs(exprs, count - 1, out);
            out.append(", ");
        }
        match &exprs[count - 1] {
            Some(expr) => self.fmt_expr(expr, out),
            None => {},
        }
        proof {
            assert(out@ =~= start + pretty_opt_exprs_text(exprs@, count as nat));
        }
    }

    /// Appends the first `count` named arguments, separated by `, `.
    fn fmt_named_args(&mut self, args: &Vec<NamedArgNode>, count: usize, out: &mut String)
        requires
            count <= args@.len(),
        ensures
            final(out)@ == old(out)@ + pretty_named_args_text(args@, count as nat),
            final(self)@ == old(self)@,
        decreases args@, count,
    {
        let ghost start = out@;
        if count == 0 {
            proof {
                assert(out@ =~= start + pretty_named_args_text(args@, count as nat));
            }
            return;
        }
        if count > 1 {
            self.fmt_named_args(args, count - 1, out);
            out.append(", ");
        }
        out.append(args[count - 1].name.as_str());
        out.append(": ");
        self.fmt_expr(&args[count - 1].value, out);
        proof {
            assert(out@ =~= start + pretty_named_args_text(args@, count as nat));
        }
    }

    /// Formats call arguments, without their parentheses.
    pub fn fmt_call_args(&mut self, args: &CallArgsNode, out: &mut String)
        ensures
            final(out)@ == old(out)@ + pretty_call_args_text(*args),
            final(self)@ == old(self)@,
        decreases args, 0nat,
    {
        let ghost start = out@;
        match args {
            CallArgsNode::Unnamed(exprs) => self.fmt_exprs(exprs, exprs.len(), out),
            CallArgsNode::Named(named) => {
                out.append("{");
                self.fmt_named_args(named, named.len(), out);
                out.append("}");
            },
        }
        proof {
            assert(out@ =~= start + pretty_call_args_text(*args));
        }
    }

    /// Appends the keyword of a visibility.
    fn fmt_visibility(&mut self, visibility: Visibility, out: &mut String)
        ensures
            final(out)@ == old(out)@ + visibility_text(visibility),
            final(self)@ == old(self)@,
    {
        match visibility {
            Visibility::Private => out.append("private"),
            Visibility::Internal => out.append("internal"),
            Visibility::Public => out.append("public"),
            Visibility::External => out.append("external"),
        }
    }

    /// Appends the keyword of a state mutability.
    fn fmt_state_mutability(&mut self, mutability: StateMutability, out: &mut String)
        ensures
            final(out)@ == old(out)@ + state_mutability_text(mutability),
            final(self)@ == old(self)@,
    {
        match mutability {
            StateMutability::Pure => out.append("pure"),
            StateMutability::View => out.append("view"),
            StateMutability::Payable => out.append("payable"),
            StateMutability::NonPayable => out.append("nonpayable"),
        }
    }

    /// Appends ` location` for a data location.
    fn fmt_data_location(&mut self, location: &Option<crate::print::DataLocation>, out: &mut String)
        ensures
            final(out)@ == old(out)@ + match *location {
                Some(location) => " "@ + data_location_text(location),
                None => Seq::empty(),
            },
            final(self)@ == old(self)@,
    {
        let ghost start = out@;
        match location {
            Some(location) => {
                out.append(" ");
                match location {
                    crate::print::DataLocation::Storage => out.append("storage"),
                    crate::print::DataLocation::Transient => out.append("transient"),
                    crate::print::DataLocation::Memory => out.append("memory"),
                    crate::print::DataLocation::Calldata => out.append("calldata"),
                }
            },
            None => {},
        }
        proof {
            assert(out@ =~= start + match *location {
                Some(location) => " "@ + data_location_text(location),
                None => Seq::empty(),
            });
        }
    }

    /// Appends ` visibility` when `shown`, then ` mutability` unless it is `nonpayable`.
    #[verifier::spinoff_prover]
    fn fmt_attributes(&mut self, shown: bool, visibility: Visibility, mutability: StateMutability, out: &mut String)
        ensures
            final(out)@ == old(out)@ + pretty_attributes_text(shown, visibility, mutability),
            final(self)@ == old(self)@,
    {
        let ghost start = out@;
        if shown {
            out.append(" ");
            self.fmt_visibility(visibility, out);
        }
        let ghost shown_end = out@;
        if mutability != StateMutability::NonPayable {
            out.append(" ");
            self.fmt_state_mutability(mutability, out);
        }
        proof {
            assert(shown_end =~= start + text_if(shown, " "@ + visibility_text(visibility)));
            assert(out@ =~= start + pretty_attributes_text(shown, visibility, mutability));
        }
    }

    /// Formats a type.
    #[verifier::spinoff_prover]
    #[verifier::rlimit(40)]
    pub fn fmt_type(&mut self, ty: &TypeNode, out: &mut String)
        ensures
            final(out)@ == old(out)@ + pretty_ty_text(*ty),
            final(self)@ == old(self)@,
        decreases ty, 0nat,
    {
        let ghost start = out@;
        match ty {
            TypeNode::Elementary(text) => out.append(text.as_str()),
            TypeNode::Array(element, size, _) => {
                self.fmt_type(element, out);
                out.append("[");
                self.fmt_opt_expr(size, out);
                out.append("]");
            },
            TypeNode::Function(parameters, visibility, mutability, outputs) => {
                out.append("function(");
                self.fmt_params_prefix(parameters, parameters.len(), out);
                out.append(")");
                let shown = *visibility != Visibility::Internal;
                self.fmt_attributes(shown, *visibility, *mutability, out);
                if outputs.len() > 0 {
                    out.append(" returns (");
                    self.fmt_params_prefix(outputs, outputs.len(), out);
                    out.append(")");
                }
            },
            TypeNode::Mapping(key, key_name, value, value_name) => {
                out.append("mapping(");
                self.fmt_type(key, out);
                self.fmt_opt_name(key_name, out);
                out.append(" => ");
                self.fmt_type(value, out);
                self.fmt_opt_name(value_name, out);
                out.append(")");
            },
            TypeNode::Custom(item) => match &item.name {
                Some(name) => out.append(name.as_str()),
                None => out.append("<custom>"),
            },
            TypeNode::Invalid => out.append("<error>"),
        }
        proof {
            assert(out@ =~= start + pretty_ty_text(*ty));
        }
    }

    /// Formats a single parameter.
    #[verifier::spinoff_prover]
    pub fn fmt_param(&mut self, var: &VariableNode, out: &mut String)
        ensures
            final(out)@ == old(out)@ + pretty_param_text(*var),
            final(self)@ == old(self)@,
        decreases var, 0nat,
    {
        let ghost start = out@;
        self.fmt_type(&var.ty, out);
        self.fmt_data_location(&var.data_location, out);
        if var.indexed {
            out.append(" indexed");
        }
        self.fmt_opt_name(&var.name, out);
        proof {
            assert(out@ =~= start + pretty_param_text(*var));
        }
    }

    /// Appends the first `count` parameters, separated by `, `.
    fn fmt_params_prefix(&mut self, vars: &Vec<VariableNode>, count: usize, out: &mut String)
        requires
            count <= vars@.len(),
        ensures
            final(out)@ == old(out)@ + pretty_params_text(vars@, count as nat),
            final(self)@ == old(self)@,
        decreases vars@, count,
    {
        let ghost start = out@;
        if count == 0 {
            proof {
                assert(out@ =~= start + pretty_params_text(vars@, count as nat));
            }
            return;
        }
        if count > 1 {
            self.fmt_params_prefix(vars, count - 1, out);
            out.append(", ");
        }
        self.fmt_param(&vars[count - 1], out);
        proof {
            assert(out@ =~= start + pretty_params_text(vars@, count as nat));
        }
    }

    /// Formats function parameters.
    pub fn fmt_params(&mut self, params: &Vec<VariableNode>, out: &mut String)
        ensures
            final(out)@ == old(out)@ + pretty_params_text(params@, params@.len()),
            final(self)@ == old(self)@,
    {
        self.fmt_params_prefix(params, params.len(), out);
    }

    /// Appends a declared variable without its declaration attributes.
    fn fmt_local(&mut self, var: &VariableNode, out: &mut String)
        ensures
            final(out)@ == old(out)@ + pretty_local_text(*var),
            final(self)@ == old(self)@,
    {
        let ghost start = out@;
        self.fmt_type(&var.ty, out);
        self.fmt_data_location(&var.data_location, out);
        self.fmt_opt_name(&var.name, out);
        proof {
            assert(out@ =~= start + pretty_local_text(*var));
        }
    }

    /// Formats a variable declaration.
    /// Appends the declaration attributes of a variable.
    #[verifier::spinoff_prover]
    fn fmt_decl_attributes(&mut self, var: &VariableNode, out: &mut String)
        ensures
            final(out)@ == old(out)@ + pretty_decl_attributes_text(*var),
            final(self)@ == old(self)@,
    {
        let ghost start = out@;
        match var.visibility {
            Some(visibility) => {
                out.append(" ");
                self.fmt_visibility(visibility, out);
            },
            None => {},
        }
        let ghost step1 = out@;
        proof {
            assert(step1 =~= start + match var.visibility {
                Some(visibility) => " "@ + visibility_text(visibility),
                None => Seq::empty(),
            });
        }
        match var.mutability {
            Some(mutability) => {
                out.append(" ");
                match mutability {
                    VarMut::Constant => out.append("constant"),
                    VarMut::Immutable => out.append("immutable"),
                }
            },
            None => {},
        }
        let ghost step2 = out@;
        proof {
            assert(step2 =~= step1 + match var.mutability {
                Some(mutability) => " "@ + var_mut_text(mutability),
                None => Seq::empty(),
            });
        }
        self.fmt_data_location(&var.data_location, out);
        let ghost step3 = out@;
        if var.override_ {
            out.append(" override");
        }
        proof {
            assert(out@ =~= step3 + text_if(var.override_, " override"@));
            assert(out@ =~= start + pretty_decl_attributes_text(*var));
        }
    }

    /// Formats a variable declaration.
    #[verifier::spinoff_prover]
    pub fn fmt_variable_decl(&mut self, var: &VariableNode, out: &mut String)
        ensures
            final(out)@ == old(out)@ + pretty_variable_decl_text(*var),
            final(self)@ == old(self)@,
    {
        let ghost start = out@;
        self.fmt_type(&var.ty, out);
        self.fmt_decl_attributes(var, out);
        self.fmt_opt_name(&var.name, out);
        let ghost named = out@;
        match &var.initializer {
            Some(initializer) => {
                out.append(" = ");
                self.fmt_expr(initializer, out);
            },
            None => {},
        }
        out.append(";");
        proof {
            assert(out@ =~= named + (match var.initializer {
                Some(initializer) => " = "@ + pretty_expr_text(*initializer),
                None => Seq::empty(),
            }) + ";"@);
            assert(out@ =~= start + pretty_variable_decl_text(*var));
        }
    }

    /// Appends the first `count` declared variables of a multi-variable declaration.
    fn fmt_opt_locals(&mut self, vars: &Vec<Option<VariableNode>>, count: usize, out: &mut String)
        requires
            count <= vars@.len(),
        ensures
            final(out)@ == old(out)@ + pretty_opt_locals_text(vars@, count as nat),
            final(self)@ == old(self)@,
        decreases count,
    {
        let ghost start = out@;
        if count == 0 {
            proof {
                assert(out@ =~= start + pretty_opt_locals_text(vars@, count as nat));
            }
            return;
        }
        if count > 1 {
            self.fmt_opt_locals(vars, count - 1, out);
            out.append(", ");
        }
        match &vars[count - 1] {
            Some(var) => self.fmt_local(var, out),
            None => {},
        }
        proof {
            assert(out@ =~= start + pretty_opt_locals_text(vars@, count as nat));
        }
    }

    /// Formats a block.
    pub fn fmt_block(&mut self, stmts: &Vec<StmtNode>, out: &mut String)
        ensures
            final(out)@ == old(out)@ + pretty_block_text(stmts@, old(self)@),
            final(self)@ == old(self)@,
        decreases stmts@, stmts@.len() + 1,
    {
        let ghost start = out@;
        let ghost indent = self@;
        out.append("{\n");
        let previous = self.indent_more();
        self.fmt_lines(stmts, stmts.len(), out);
        self.restore_indent(previous);
        self.write_indent(out);
        out.append("}");
        proof {
            assert(out@ =~= start + pretty_block_text(stmts@, indent));
        }
    }

    /// Appends the first `count` statements, each on its own line.
    fn fmt_lines(&mut self, stmts: &Vec<StmtNode>, count: usize, out: &mut String)
        requires
            count <= stmts@.len(),
        ensures
            final(out)@ == old(out)@ + pretty_lines_text(stmts@, count as nat, old(self)@),
            final(self)@ == old(self)@,
        decreases stmts@, count,
    {
        let ghost start = out@;
        if count == 0 {
            proof {
                assert(out@ =~= start + pretty_lines_text(stmts@, count as nat, self@));
            }
            return;
        }
        self.fmt_lines(stmts, count - 1, out);
        self.write_indent(out);
        self.fmt_stmt(&stmts[count - 1], out);
        out.append("\n");
        proof {
            assert(out@ =~= start + pretty_lines_text(stmts@, count as nat, self@));
        }
    }

    /// Appends the first `count` clauses of a `try` statement.
    #[verifier::spinoff_prover]
    fn fmt_clauses(&mut self, clauses: &Vec<TryClauseNode>, count: usize, out: &mut String)
        requires
            count <= clauses@.len(),
        ensures
            final(out)@ == old(out)@ + pretty_clauses_text(clauses@, count as nat, old(self)@),
            final(self)@ == old(self)@,
        decreases clauses@, count,
    {
        let ghost start = out@;
        if count == 0 {
            proof {
                assert(out@ =~= start + pretty_clauses_text(clauses@, count as nat, self@));
            }
            return;
        }
        self.fmt_clauses(clauses, count - 1, out);
        let clause = &clauses[count - 1];
        if count == 1 {
            out.append(" returns");
        } else {
            out.append(" catch");
            self.fmt_opt_name(&clause.name, out);
        }
        out.append("(");
        self.fmt_params_prefix(&clause.args, clause.args.len(), out);
        out.append(") ");
        self.fmt_block(&clause.block, out);
        proof {
            assert(out@ =~= start + pretty_clauses_text(clauses@, count as nat, self@));
        }
    }

    /// Appends the first `count` cases of a Yul `switch`.
    #[verifier::spinoff_prover]
    fn fmt_cases(&mut self, cases: &Vec<SwitchCaseNode>, count: usize, out: &mut String)
        requires
            count <= cases@.len(),
        ensures
            final(out)@ == old(out)@ + pretty_cases_text(cases@, count as nat, old(self)@),
            final(self)@ == old(self)@,
        decreases cases@, count,
    {
        let ghost start = out@;
        if count == 0 {
            proof {
                assert(out@ =~= start + pretty_cases_text(cases@, count as nat, self@));
            }
            return;
        }
        self.fmt_cases(cases, count - 1, out);
        let case = &cases[count - 1];
        match &case.constant {
            Some(constant) => {
                out.append(" case ");
                out.append(constant.as_str());
                out.append(" ");
            },
            None => out.append(" default "),
        }
        self.fmt_block(&case.body, out);
        proof {
            assert(out@ =~= start + pretty_cases_text(cases@, count as nat, self@));
        }
    }

    /// Appends a `try` statement.
    fn fmt_try(&mut self, try_stmt: &StmtTryNode, out: &mut String)
        ensures
            final(out)@ == old(out)@ + pretty_try_text(*try_stmt, old(self)@),
            final(self)@ == old(self)@,
        decreases try_stmt, 0nat,
    {
        let ghost start = out@;
        let ghost indent = self@;
        out.append("try ");
        self.fmt_expr(&try_stmt.expr, out);
        self.fmt_clauses(&try_stmt.clauses, try_stmt.clauses.len(), out);
        proof {
            assert(out@ =~= start + pretty_try_text(*try_stmt, indent));
        }
    }

    /// Formats a statement.
    #[verifier::spinoff_prover]
    #[verifier::rlimit(40)]
    pub fn fmt_stmt(&mut self, stmt: &StmtNode, out: &mut String)
        ensures
            final(out)@ == old(out)@ + pretty_stmt_text(*stmt, old(self)@),
            final(self)@ == old(self)@,
        decreases stmt, 0nat,
    {
        let ghost start = out@;
        let ghost indent = self@;
        match stmt {
            StmtNode::DeclSingle(var) => {
                self.fmt_local(var, out);
                match &var.initializer {
                    Some(initializer) => {
                        out.append(" = ");
                        self.fmt_expr(initializer, out);
                    },
                    None => {},
                }
                out.append(";");
            },
            StmtNode::DeclMulti(vars, value) => {
                out.append("(");
                self.fmt_opt_locals(vars, vars.len(), out);
                out.append(") = ");
                self.fmt_expr(value, out);
                out.append(";");
            },
            StmtNode::Block(stmts) => self.fmt_block(stmts, out),
            StmtNode::UncheckedBlock(stmts) => {
                out.append("unchecked ");
                self.fmt_block(stmts, out);
            },
            StmtNode::AssemblyBlock(stmts) => {
                out.append("assembly ");
                self.fmt_block(stmts, out);
            },
            StmtNode::Emit(expr) => {
                out.append("emit ");
                self.fmt_expr(expr, out);
                out.append(";");
            },
            StmtNode::Revert(expr) => {
                out.append("revert ");
                self.fmt_expr(expr, out);
                out.append(";");
            },
            StmtNode::Return(expr) => {
                out.append("return");
                match expr {
                    Some(expr) => {
                        out.append(" ");
                        self.fmt_expr(expr, out);
                    },
                    None => {},
                }
                out.append(";");
            },
            StmtNode::Break => out.append("break;"),
            StmtNode::Continue => out.append("continue;"),
            StmtNode::Loop(stmts, source) => {
                out.append(source.name());
                out.append(" ");
                self.fmt_block(stmts, out);
            },
            StmtNode::If(condition, then_stmt, else_stmt) => {
                out.append("if (");
                self.fmt_expr(condition, out);
                out.append(") ");
                self.fmt_stmt(then_stmt, out);
                match else_stmt {
                    Some(else_stmt) => {
                        out.append(" else ");
                        self.fmt_stmt(else_stmt, out);
                    },
                    None => {},
                }
            },
            StmtNode::Switch(selector, cases) => {
                out.append("switch ");
                self.fmt_expr(selector, out);
                self.fmt_cases(cases, cases.len(), out);
            },
            StmtNode::Try(try_stmt) => self.fmt_try(try_stmt, out),
            StmtNode::Expr(expr) => {
                self.fmt_expr(expr, out);
                out.append(";");
            },
            StmtNode::Placeholder => out.append("_;"),
            StmtNode::Invalid => out.append("<error>;"),
        }
        proof {
            assert(out@ =~= start + pretty_stmt_text(*stmt, indent));
        }
    }

    /// Formats a modifier call.
    #[verifier::spinoff_prover]
    pub fn fmt_modifier(&mut self, modifier: &ModifierNode, out: &mut String)
        ensures
            final(out)@ == old(out)@ + pretty_modifier_text(*modifier),
            final(self)@ == old(self)@,
    {
        let ghost start = out@;
        match modifier.item.id {
            ItemId::Function(_) | ItemId::Contract(_) => match &modifier.item.name {
                Some(name) => out.append(name.as_str()),
                None => {},
            },
            _ => out.append("<modifier>"),
        }
        let args_empty = match &modifier.args {
            CallArgsNode::Unnamed(exprs) => exprs.len() == 0,
            CallArgsNode::Named(named) => named.len() == 0,
        };
        if !args_empty {
            out.append("(");
            self.fmt_call_args(&modifier.args, out);
            out.append(")");
        }
        proof {
            assert(out@ =~= start + pretty_modifier_text(*modifier));
        }
    }

    /// Appends the first `count` modifiers, each after a space.
    fn fmt_modifiers(&mut self, modifiers: &Vec<ModifierNode>, count: usize, out: &mut String)
        requires
            count <= modifiers@.len(),
        ensures
            final(out)@ == old(out)@ + pretty_modifiers_text(modifiers@, count as nat),
            final(self)@ == old(self)@,
        decreases count,
    {
        let ghost start = out@;
        if count == 0 {
            proof {
                assert(out@ =~= start + pretty_modifiers_text(modifiers@, count as nat));
            }
            return;
        }
        self.fmt_modifiers(modifiers, count - 1, out);
        out.append(" ");
        self.fmt_modifier(&modifiers[count - 1], out);
        proof {
            assert(out@ =~= start + pretty_modifiers_text(modifiers@, count as nat));
        }
    }

    /// Appends the first `count` names, separated by `, `.
    fn fmt_names(&mut self, names: &Vec<String>, count: usize, out: &mut String)
        requires
            count <= names@.len(),
        ensures
            final(out)@ == old(out)@ + names_text(names@, count as nat, ", "@),
            final(self)@ == old(self)@,
        decreases count,
    {
        let ghost start = out@;
        if count == 0 {
            proof {
                assert(out@ =~= start + names_text(names@, count as nat, ", "@));
            }
            return;
        }
        if count > 1 {
            self.fmt_names(names, count - 1, out);
            out.append(", ");
        }
        out.append(names[count - 1].as_str());
        proof {
            assert(out@ =~= start + names_text(names@, count as nat, ", "@));
        }
    }

    /// Appends the signature of a function.
    #[verifier::spinoff_prover]
    fn fmt_signature(&mut self, function: &FunctionNode, out: &mut String)
        ensures
            final(out)@ == old(out)@ + pretty_signature_text(*function),
            final(self)@ == old(self)@,
    {
        let ghost start = out@;
        match function.kind {
            FunctionKind::Constructor => out.append("constructor"),
            FunctionKind::Function => out.append("function"),
            FunctionKind::Fallback => out.append("fallback"),
            FunctionKind::Receive => out.append("receive"),
            FunctionKind::Modifier => out.append("modifier"),
        }
        self.fmt_opt_name(&function.name, out);
        out.append("(");
        self.fmt_params_prefix(&function.parameters, function.parameters.len(), out);
        out.append(")");
        let ordinary = match function.kind {
            FunctionKind::Function => true,
            _ => false,
        };
        let shown = function.visibility != Visibility::Internal || ordinary;
        self.fmt_attributes(shown, function.visibility, function.state_mutability, out);
        proof {
            assert(out@ =~= start + pretty_signature_text(*function));
        }
    }

    /// Appends `virtual` and `override` with its contract list.
    fn fmt_inheritance(&mut self, function: &FunctionNode, out: &mut String)
        ensures
            final(out)@ == old(out)@ + pretty_inheritance_text(*function),
            final(self)@ == old(self)@,
    {
        let ghost start = out@;
        if function.marked_virtual {
            out.append(" virtual");
        }
        let ghost step1 = out@;
        if function.override_ {
            out.append(" override");
            if function.overrides.len() > 0 {
                out.append("(");
                self.fmt_names(&function.overrides, function.overrides.len(), out);
                out.append(")");
            }
        }
        proof {
            assert(step1 =~= start + text_if(function.marked_virtual, " virtual"@));
            assert(out@ =~= step1 + text_if(
                function.override_,
                " override"@ + text_if(
                    function.overrides@.len() > 0,
                    "("@ + names_text(function.overrides@, function.overrides@.len(), ", "@) + ")"@,
                ),
            ));
        }
    }

    /// Appends the return variables of a function, when it has any.
    fn fmt_returns(&mut self, function: &FunctionNode, out: &mut String)
        ensures
            final(out)@ == old(out)@ + pretty_returns_text(*function),
            final(self)@ == old(self)@,
    {
        let ghost start = out@;
        if function.return_parameters.len() > 0 {
            out.append(" returns (");
            self.fmt_params_prefix(&function.return_parameters, function.return_parameters.len(), out);
            out.append(")");
        }
        proof {
            assert(out@ =~= start + pretty_returns_text(*function));
        }
    }

    /// Appends the specifiers of a function after its signature.
    fn fmt_specifiers(&mut self, function: &FunctionNode, out: &mut String)
        ensures
            final(out)@ == old(out)@ + pretty_specifiers_text(*function),
            final(self)@ == old(self)@,
    {
        let ghost start = out@;
        self.fmt_inheritance(function, out);
        self.fmt_modifiers(&function.modifiers, function.modifiers.len(), out);
        self.fmt_returns(function, out);
        proof {
            assert(out@ =~= start + pretty_specifiers_text(*function));
        }
    }

    /// Formats a function.
    #[verifier::spinoff_prover]
    pub fn fmt_function(&mut self, function: &FunctionNode, out: &mut String)
        ensures
            final(out)@ == old(out)@ + pretty_function_text(*function, old(self)@),
            final(self)@ == old(self)@,
    {
        let ghost start = out@;
        let ghost indent = self@;
        self.fmt_signature(function, out);
        self.fmt_specifiers(function, out);
        match &function.body {
            Some(body) => {
                out.append(" ");
                self.fmt_block(body, out);
            },
            None => out.append(";"),
        }
        proof {
            assert(out@ =~= start + pretty_function_text(*function, indent));
        }
    }

    /// Appends the first `count` struct fields, each on its own line.
    fn fmt_fields(&mut self, fields: &Vec<VariableNode>, count: usize, out: &mut String)
        requires
            count <= fields@.len(),
        ensures
            final(out)@ == old(out)@ + pretty_fields_text(fields@, count as nat, old(self)@),
            final(self)@ == old(self)@,
        decreases count,
    {
        let ghost start = out@;
        if count == 0 {
            proof {
                assert(out@ =~= start + pretty_fields_text(fields@, count as nat, self@));
            }
            return;
        }
        self.fmt_fields(fields, count - 1, out);
        self.write_indent(out);
        self.fmt_type(&fields[count - 1].ty, out);
        self.fmt_opt_name(&fields[count - 1].name, out);
        out.append(";\n");
        proof {
            assert(out@ =~= start + pretty_fields_text(fields@, count as nat, self@));
        }
    }

    /// Formats a struct.
    pub fn fmt_struct(&mut self, node: &StructNode, out: &mut String)
        ensures
            final(out)@ == old(out)@ + pretty_struct_text(*node, old(self)@),
            final(self)@ == old(self)@,
    {
        let ghost start = out@;
        let ghost indent = self@;
        out.append("struct ");
        out.append(node.name.as_str());
        out.append(" {\n");
        let previous = self.indent_more();
        self.fmt_fields(&node.fields, node.fields.len(), out);
        self.restore_indent(previous);
        out.append("}");
        proof {
            assert(out@ =~= start + pretty_struct_text(*node, indent));
        }
    }

    /// Appends the first `count` variants of an enum, each on its own line.
    fn fmt_variants(&mut self, variants: &Vec<String>, count: usize, out: &mut String)
        requires
            count <= variants@.len(),
        ensures
            final(out)@ == old(out)@ + pretty_variants_text(variants@, count as nat, old(self)@),
            final(self)@ == old(self)@,
        decreases count,
    {
        let ghost start = out@;
        if count == 0 {
            proof {
                assert(out@ =~= start + pretty_variants_text(variants@, count as nat, self@));
            }
            return;
        }
        self.fmt_variants(variants, count - 1, out);
        self.write_indent(out);
        out.append(variants[count - 1].as_str());
        if count < variants.len() {
            out.append(",\n");
        } else {
            out.append("\n");
        }
        proof {
            assert(out@ =~= start + pretty_variants_text(variants@, count as nat, self@));
        }
    }

    /// Formats an enum.
    pub fn fmt_enum(&mut self, node: &EnumNode, out: &mut String)
        ensures
            final(out)@ == old(out)@ + pretty_enum_text(*node, old(self)@),
            final(self)@ == old(self)@,
    {
        let ghost start = out@;
        let ghost indent = self@;
        out.append("enum ");
        out.append(node.name.as_str());
        out.append(" {\n");
        let previous = self.indent_more();
        self.fmt_variants(&node.variants, node.variants.len(), out);
        self.restore_indent(previous);
        out.append("}");
        proof {
            assert(out@ =~= start + pretty_enum_text(*node, indent));
        }
    }

    /// Formats a user-defined value type.
    pub fn fmt_udvt(&mut self, node: &UdvtNode, out: &mut String)
        ensures
            final(out)@ == old(out)@ + pretty_udvt_text(*node),
            final(self)@ == old(self)@,
    {
        let ghost start = out@;
        out.append("type ");
        out.append(node.name.as_str());
        out.append(" is ");
        self.fmt_type(&node.ty, out);
        out.append(";");
        proof {
            assert(out@ =~= start + pretty_udvt_text(*node));
        }
    }

    /// Formats an event.
    pub fn fmt_event(&mut self, node: &EventNode, out: &mut String)
        ensures
            final(out)@ == old(out)@ + pretty_event_text(*node),
            final(self)@ == old(self)@,
    {
        let ghost start = out@;
        out.append("event ");
        out.append(node.name.as_str());
        out.append("(");
        self.fmt_params_prefix(&node.parameters, node.parameters.len(), out);
        out.append(")");
        if node.anonymous {
            out.append(" anonymous");
        }
        out.append(";");
        proof {
            assert(out@ =~= start + pretty_event_text(*node));
        }
    }

    /// Formats an error.
    pub fn fmt_error(&mut self, node: &ErrorNode, out: &mut String)
        ensures
            final(out)@ == old(out)@ + pretty_error_text(*node),
            final(self)@ == old(self)@,
    {
        let ghost start = out@;
        out.append("error ");
        out.append(node.name.as_str());
        out.append("(");
        self.fmt_params_prefix(&node.parameters, node.parameters.len(), out);
        out.append(");");
        proof {
            assert(out@ =~= start + pretty_error_text(*node));
        }
    }

    /// Formats an item.
    pub fn fmt_item_id(&mut self, item: &ItemNode, out: &mut String)
        ensures
            final(out)@ == old(out)@ + pretty_item_text(*item, old(self)@),
            final(self)@ == old(self)@,
        decreases item, 0nat,
    {
        match item {
            ItemNode::Contract(contract) => self.fmt_contract(contract, out),
            ItemNode::Function(function) => self.fmt_function(function, out),
            ItemNode::Variable(var) => self.fmt_variable_decl(var, out),
            ItemNode::Struct(node) => self.fmt_struct(node, out),
            ItemNode::Enum(node) => self.fmt_enum(node, out),
            ItemNode::Udvt(node) => self.fmt_udvt(node, out),
            ItemNode::Error(node) => self.fmt_error(node, out),
            ItemNode::Event(node) => self.fmt_event(node, out),
        }
    }

    /// Appends the first `count` items, each on its own line.
    fn fmt_item_lines(&mut self, items: &Vec<ItemNode>, count: usize, out: &mut String)
        requires
            count <= items@.len(),
        ensures
            final(out)@ == old(out)@ + pretty_item_lines_text(items@, count as nat, old(self)@),
            final(self)@ == old(self)@,
        decreases items@, count,
    {
        let ghost start = out@;
        if count == 0 {
            proof {
                assert(out@ =~= start + pretty_item_lines_text(items@, count as nat, self@));
            }
            return;
        }
        self.fmt_item_lines(items, count - 1, out);
        self.write_indent(out);
        self.fmt_item_id(&items[count - 1], out);
        out.append("\n");
        proof {
            assert(out@ =~= start + pretty_item_lines_text(items@, count as nat, self@));
        }
    }

    /// Formats a contract.
    #[verifier::spinoff_prover]
    pub fn fmt_contract(&mut self, contract: &ContractNode, out: &mut String)
        ensures
            final(out)@ == old(out)@ + pretty_contract_text(*contract, old(self)@),
            final(self)@ == old(self)@,
        decreases contract, 0nat,
    {
        let ghost start = out@;
        let ghost indent = self@;
        out.append(contract.kind.as_str());
        out.append(" ");
        out.append(contract.name.as_str());
        if contract.bases.len() > 0 {
            out.append(" is ");
            self.fmt_names(&contract.bases, contract.bases.len(), out);
        }
        out.append(" {\n");
        let previous = self.indent_more();
        self.fmt_item_lines(&contract.items, contract.items.len(), out);
        self.restore_indent(previous);
        out.append("}\n");
        proof {
            assert(out@ =~= start + pretty_contract_text(*contract, indent));
        }
    }
}

/// Pretty-printing of HIR nodes to a string.
pub trait HirPrettyPrint {
    /// Pretty-prints the node to a string.
    fn pretty_print(&self) -> String;
}

impl HirPrettyPrint for ContractNode {
    fn pretty_print(&self) -> (text: String)
        ensures
            text@ == pretty_contract_text(*self, Seq::empty()),
    {
        let mut text = String::new();
        HirPrettyPrinter::new().fmt_contract(self, &mut text);
        text
    }
}

impl HirPrettyPrint for FunctionNode {
    fn pretty_print(&self) -> (text: String)
        ensures
            text@ == pretty_function_text(*self, Seq::empty()),
    {
        let mut text = String::new();
        HirPrettyPrinter::new().fmt_function(self, &mut text);
        text
    }
}

impl HirPrettyPrint for StructNode {
    fn pretty_print(&self) -> (text: String)
        ensures
            text@ == pretty_struct_text(*self, Seq::empty()),
    {
        let mut text = String::new();
        HirPrettyPrinter::new().fmt_struct(self, &mut text);
        text
    }
}

impl HirPrettyPrint for EnumNode {
    fn pretty_print(&self) -> (text: String)
        ensures
            text@ == pretty_enum_text(*self, Seq::empty()),
    {
        let mut text = String::new();
        HirPrettyPrinter::new().fmt_enum(self, &mut text);
        text
    }
}

impl HirPrettyPrint for EventNode {
    fn pretty_print(&self) -> (text: String)
        ensures
            text@ == pretty_event_text(*self),
    {
        let mut text = String::new();
        HirPrettyPrinter::new().fmt_event(self, &mut text);
        text
    }
}

impl HirPrettyPrint for ErrorNode {
    fn pretty_print(&self) -> (text: String)
        ensures
            text@ == pretty_error_text(*self),
    {
        let mut text = String::new();
        HirPrettyPrinter::new().fmt_error(self, &mut text);
        text
    }
}

impl HirPrettyPrint for VariableNode {
    fn pretty_print(&self) -> (text: String)
        ensures
            text@ == pretty_variable_decl_text(*self),
    {
        let mut text = String::new();
        HirPrettyPrinter::new().fmt_variable_decl(self, &mut text);
        text
    }
}

impl HirPrettyPrint for ExprNode {
    fn pretty_print(&self) -> (text: String)
        ensures
            text@ == pretty_expr_text(*self),
    {
        let mut text = String::new();
        HirPrettyPrinter::new().fmt_expr(self, &mut text);
        text
    }
}

impl HirPrettyPrint for StmtNode {
    fn pretty_print(&self) -> (text: String)
        ensures
            text@ == pretty_stmt_text(*self, Seq::empty()),
    {
        let mut text = String::new();
        HirPrettyPrinter::new().fmt_stmt(self, &mut text);
        text
    }
}

impl HirPrettyPrint for TypeNode {
    fn pretty_print(&self) -> (text: String)
        ensures
            text@ == pretty_ty_text(*self),
    {
        let mut text = String::new();
        HirPrettyPrinter::new().fmt_type(self, &mut text);
        text
    }
}

} // verus!
