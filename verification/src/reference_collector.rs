//! Collection of the reverse references to functions and of the value bindings of variables,
//! walking the declarations and expressions of a compilation.
//!
//! The walk reads expressions in which the type checker's answers are recorded: the resolved
//! target and kind of each call with the arguments bound to the target's parameters, the function
//! named by the type of an identifier or member access, and the variables that assignments and
//! `delete` bind.

use vstd::prelude::*;

use crate::ids::{ExprId, FunctionId, Span, VariableId};
use crate::references::{FunctionReference, FunctionReferenceKind, ValueExpr};

verus! {

/// An expression as the reference collector reads it.
#[derive(Debug)]
pub struct RefExpr {
    /// The expression's identifier.
    pub id: ExprId,
    /// The expression's source span.
    pub span: Span,
    /// The kind of expression.
    pub kind: RefExprKind,
}

/// A binding of a variable to the value assigned to it, `None` for an unknown value.
pub type ValueBinding = (VariableId, Option<ValueExpr>);

/// A kind of expression, as the reference collector reads it.
#[derive(Debug)]
pub enum RefExprKind {
    /// A call: the callee, the call options, the arguments, the statically resolved target with
    /// whether the call is internal, and the bindings of the target's parameters to the
    /// arguments passed to them.
    Call(Box<RefExpr>, Vec<RefExpr>, Vec<RefExpr>, Option<(FunctionId, bool)>, Vec<ValueBinding>),
    /// An identifier: the function that its type names, if any, and the functions among its
    /// resolutions.
    Ident(Option<FunctionId>, Vec<FunctionId>),
    /// A member access: its base and the function that its type names, if any.
    Member(Box<RefExpr>, Option<FunctionId>),
    /// A plain assignment: the bindings of each assigned variable to its value, as assignment
    /// pairing gives them, then the target and the value.
    Assign(Vec<ValueBinding>, Box<RefExpr>, Box<RefExpr>),
    /// `delete target`: the deleted variable, if the target is one, and the target.
    Delete(Option<VariableId>, Box<RefExpr>),
    /// Any other expression, with its subexpressions in the order they are visited.
    Other(Vec<RefExpr>),
}

/// A declaration or an expression reached by the walk.
#[derive(Debug)]
pub enum RefNode {
    /// A variable with an initializer: the initializer as a value and as an expression.
    Variable(VariableId, ValueExpr, RefExpr),
    /// An expression outside initializers.
    Expr(RefExpr),
}

/// The declarations and expressions of a compilation in the order the walk reaches them, each
/// with its lexically enclosing function, and the number of functions.
#[derive(Debug)]
pub struct ReferenceProgram {
    /// The number of functions.
    pub function_count: usize,
    /// The walked nodes with their owners.
    pub nodes: Vec<(Option<FunctionId>, RefNode)>,
}

/// The state of the walk: the references to each function, and the value bindings.
pub type CollectState = (Seq<Seq<FunctionReference>>, Seq<ValueBinding>);

/// `references` with `reference` added to those of `function` unless already there.
pub open spec fn record(
    references: Seq<Seq<FunctionReference>>,
    function: FunctionId,
    reference: FunctionReference,
) -> Seq<Seq<FunctionReference>> {
    if references[function.0 as int].contains(reference) {
        references
    } else {
        references.update(function.0 as int, references[function.0 as int].push(reference))
    }
}

/// The reference made by `expr` in `owner`.
pub open spec fn reference_of(expr: RefExpr, owner: Option<FunctionId>, kind: FunctionReferenceKind) -> FunctionReference {
    FunctionReference { expr: expr.id, span: expr.span, owner, kind }
}

/// `references` with a value reference by `expr` to each of the first `count` `functions`.
pub open spec fn record_all(
    references: Seq<Seq<FunctionReference>>,
    functions: Seq<FunctionId>,
    count: nat,
    expr: RefExpr,
    owner: Option<FunctionId>,
) -> Seq<Seq<FunctionReference>>
    decreases count,
{
    if count == 0 || count > functions.len() {
        references
    } else {
        record(
            record_all(references, functions, (count - 1) as nat, expr, owner),
            functions[count - 1],
            reference_of(expr, owner, FunctionReferenceKind::Value),
        )
    }
}

/// The walk of `expr` in `owner`, `inside_callee` when it is part of the callee of a call with a
/// resolved target: a resolved call records a call reference (and, when internal, binds the
/// target's parameters), then walks its callee inside a resolved callee exactly when it has a
/// target, then its options and arguments; outside resolved callees, an identifier records a
/// value reference to the function its type names, or else to each function it resolves to, and
/// a member access to the function its type names; assignments and `delete` bind variables; the
/// subexpressions of every expression are walked.
pub open spec fn walk(expr: RefExpr, owner: Option<FunctionId>, inside_callee: bool, state: CollectState) -> CollectState
    decreases expr, 0nat,
{
    match expr.kind {
        RefExprKind::Call(callee, options, args, target, bindings) => {
            let called = match target {
                Some((function, internal)) => (
                    record(
                        state.0,
                        function,
                        reference_of(
                            expr,
                            owner,
                            if internal {
                                FunctionReferenceKind::InternalCall
                            } else {
                                FunctionReferenceKind::ExternalCall
                            },
                        ),
                    ),
                    if internal {
                        state.1 + bindings@
                    } else {
                        state.1
                    },
                ),
                None => state,
            };
            let after_callee = walk(*callee, owner, target is Some, called);
            let after_options = walk_list(options@, options@.len(), owner, inside_callee, after_callee);
            walk_list(args@, args@.len(), owner, inside_callee, after_options)
        },
        RefExprKind::Ident(typed, functions) => if inside_callee {
            state
        } else {
            match typed {
                Some(function) => (
                    record(state.0, function, reference_of(expr, owner, FunctionReferenceKind::Value)),
                    state.1,
                ),
                None => (record_all(state.0, functions@, functions@.len(), expr, owner), state.1),
            }
        },
        RefExprKind::Member(base, typed) => {
            let recorded = if inside_callee {
                state
            } else {
                match typed {
                    Some(function) => (
                        record(state.0, function, reference_of(expr, owner, FunctionReferenceKind::Value)),
                        state.1,
                    ),
                    None => state,
                }
            };
            walk(*base, owner, inside_callee, recorded)
        },
        RefExprKind::Assign(bindings, target, value) => {
            let bound = (state.0, state.1 + bindings@);
            walk(*value, owner, inside_callee, walk(*target, owner, inside_callee, bound))
        },
        RefExprKind::Delete(variable, target) => {
            let bound = match variable {
                Some(variable) => (state.0, state.1.push((variable, None))),
                None => state,
            };
            walk(*target, owner, inside_callee, bound)
        },
        RefExprKind::Other(children) => walk_list(children@, children@.len(), owner, inside_callee, state),
    }
}

/// The walk of the first `count` expressions of `list`, in order.
pub open spec fn walk_list(
    list: Seq<RefExpr>,
    count: nat,
    owner: Option<FunctionId>,
    inside_callee: bool,
    state: CollectState,
) -> CollectState
    decreases list, count,
{
    if count == 0 || count > list.len() {
        state
    } else {
        walk(list[count - 1], owner, inside_callee, walk_list(list, (count - 1) as nat, owner, inside_callee, state))
    }
}

/// Whether every function that `expr` names is below `count`.
pub open spec fn functions_below(expr: RefExpr, count: nat) -> bool
    decreases expr, 0nat,
{
    match expr.kind {
        RefExprKind::Call(callee, options, args, target, _) => {
            &&& functions_below(*callee, count)
            &&& list_functions_below(options@, options@.len(), count)
            &&& list_functions_below(args@, args@.len(), count)
            &&& match target {
                Some((function, _)) => function.0 < count,
                None => true,
            }
        },
        RefExprKind::Ident(typed, functions) => {
            &&& match typed {
                Some(function) => function.0 < count,
                None => true,
            }
            &&& forall|i: int| 0 <= i < functions@.len() ==> (#[trigger] functions@[i]).0 < count
        },
        RefExprKind::Member(base, typed) => {
            &&& functions_below(*base, count)
            &&& match typed {
                Some(function) => function.0 < count,
                None => true,
            }
        },
        RefExprKind::Assign(_, target, value) => functions_below(*target, count) && functions_below(*value, count),
        RefExprKind::Delete(_, target) => functions_below(*target, count),
        RefExprKind::Other(children) => list_functions_below(children@, children@.len(), count),
    }
}

/// Whether every function that the first `n` expressions of `list` name is below `count`.
pub open spec fn list_functions_below(list: Seq<RefExpr>, n: nat, count: nat) -> bool
    decreases list, n,
{
    if n == 0 || n > list.len() {
        true
    } else {
        list_functions_below(list, (n - 1) as nat, count) && functions_below(list[n - 1], count)
    }
}

/// The walk of the first `count` nodes of a program.
pub open spec fn collected_state(nodes: Seq<(Option<FunctionId>, RefNode)>, count: nat, function_count: nat) -> CollectState
    decreases count,
{
    if count == 0 || count > nodes.len() {
        (Seq::new(function_count, |i: int| Seq::<FunctionReference>::empty()), Seq::empty())
    } else {
        let state = collected_state(nodes, (count - 1) as nat, function_count);
        let (owner, node) = nodes[count - 1];
        match node {
            RefNode::Variable(variable, value, initializer) => walk(
                initializer,
                owner,
                false,
                (state.0, state.1.push((variable, Some(value)))),
            ),
            RefNode::Expr(expr) => walk(expr, owner, false, state),
        }
    }
}

/// Whether every function that the nodes of a program name is below `count`.
pub open spec fn program_functions_below(nodes: Seq<(Option<FunctionId>, RefNode)>, count: nat) -> bool {
    forall|i: int|
        0 <= i < nodes.len() ==> match #[trigger] nodes[i].1 {
            RefNode::Variable(_, _, initializer) => functions_below(initializer, count),
            RefNode::Expr(expr) => functions_below(expr, count),
        }
}

/// The abstract form of the references to each function.
pub open spec fn reference_views(references: Seq<Vec<FunctionReference>>) -> Seq<Seq<FunctionReference>> {
    references.map_values(|references: Vec<FunctionReference>| references@)
}

/// Adds `reference` to the references of `function` unless already there.
fn record_reference(references: &mut Vec<Vec<FunctionReference>>, function: FunctionId, reference: FunctionReference)
    requires
        (function.0 as int) < old(references)@.len(),
    ensures
        final(references)@.len() == old(references)@.len(),
        reference_views(final(references)@) == record(reference_views(old(references)@), function, reference),
{
    let index = function.0 as usize;
    let ghost before = reference_views(references@);
    let mut list: Vec<FunctionReference> = Vec::new();
    std::mem::swap(&mut list, &mut references[index]);
    let mut present = false;
    let mut i: usize = 0;
    while i < list.len()
        invariant
            0 <= i <= list@.len(),
            present == exists|k: int| 0 <= k < i && list@[k] == reference,
        decreases list@.len() - i,
    {
        if list[i] == reference {
            present = true;
        }
        i += 1;
    }
    if !present {
        list.push(reference);
    }
    std::mem::swap(&mut list, &mut references[index]);
    proof {
        assert(reference_views(references@) =~= record(before, function, reference));
    }
}

/// Moves the elements of `list` into a vector from which popping gives them in order.
fn reversed<T>(list: Vec<T>) -> (pending: Vec<T>)
    ensures
        pending@.len() == list@.len(),
        forall|k: int| 0 <= k < list@.len() ==> #[trigger] pending@[k] == list@[list@.len() - 1 - k],
{
    let mut list = list;
    let ghost original = list@;
    let mut pending: Vec<T> = Vec::new();
    while list.len() > 0
        invariant
            list@ == original.subrange(0, list@.len() as int),
            pending@.len() + list@.len() == original.len(),
            forall|k: int| 0 <= k < pending@.len() ==> #[trigger] pending@[k] == original[original.len() - 1 - k],
        decreases list@.len(),
    {
        let ghost before = list@;
        match list.pop() {
            Some(item) => {
                pending.push(item);
                proof {
                    assert(item == original[before.len() - 1]);
                }
            },
            None => {},
        }
    }
    pending
}

/// Walks the expressions of `list` in order.
fn walk_exprs(
    list: Vec<RefExpr>,
    owner: Option<FunctionId>,
    inside_callee: bool,
    references: &mut Vec<Vec<FunctionReference>>,
    bindings: &mut Vec<ValueBinding>,
)
    requires
        list_functions_below(list@, list@.len(), old(references)@.len()),
    ensures
        final(references)@.len() == old(references)@.len(),
        (reference_views(final(references)@), final(bindings)@) == walk_list(
            list@,
            list@.len(),
            owner,
            inside_callee,
            (reference_views(old(references)@), old(bindings)@),
        ),
    decreases list@, 1nat,
{
    let ghost original = list@;
    let ghost start = (reference_views(references@), bindings@);
    let count = list.len();
    let mut pending = reversed(list);
    let mut i: usize = 0;
    while pending.len() > 0
        invariant
            original == list@,
            count == original.len(),
            pending@.len() + i == original.len(),
            forall|k: int| 0 <= k < pending@.len() ==> #[trigger] pending@[k] == original[original.len() - 1 - k],
            references@.len() == old(references)@.len(),
            list_functions_below(original, original.len(), references@.len() as nat),
            (reference_views(references@), bindings@) == walk_list(original, i as nat, owner, inside_callee, start),
        decreases pending@.len(),
    {
        let ghost before = pending@;
        match pending.pop() {
            Some(expr) => {
                proof {
                    assert(expr == original[i as int]) by {
                        assert(before[before.len() - 1] == original[original.len() - 1 - (before.len() - 1)]);
                    }
                    assert(forall|k: int| 0 <= k < pending@.len() ==> pending@[k] == before[k]);
                    assert(decreases_to!(original => original[i as int]));
                    lemma_list_functions_below_element(original, original.len(), references@.len() as nat, i as int);
                }
                walk_expr(expr, owner, inside_callee, references, bindings);
                i += 1;
            },
            None => {},
        }
    }
}

/// Every expression of a list whose functions are below `count` names functions below `count`.
proof fn lemma_list_functions_below_element(list: Seq<RefExpr>, n: nat, count: nat, i: int)
    requires
        list_functions_below(list, n, count),
        0 <= i < n <= list.len(),
    ensures
        functions_below(list[i], count),
    decreases n,
{
    if i < n - 1 {
        lemma_list_functions_below_element(list, (n - 1) as nat, count, i);
    }
}

/// Walks `expr` in `owner`, recording references and bindings.
fn walk_expr(
    expr: RefExpr,
    owner: Option<FunctionId>,
    inside_callee: bool,
    references: &mut Vec<Vec<FunctionReference>>,
    bindings: &mut Vec<ValueBinding>,
)
    requires
        functions_below(expr, old(references)@.len() as nat),
    ensures
        final(references)@.len() == old(references)@.len(),
        (reference_views(final(references)@), final(bindings)@) == walk(
            expr,
            owner,
            inside_callee,
            (reference_views(old(references)@), old(bindings)@),
        ),
    decreases expr, 0nat,
{
    let ghost whole = expr;
    let id = expr.id;
    let span = expr.span;
    match expr.kind {
        RefExprKind::Call(callee, options, args, target, mut call_bindings) => {
            proof {
                assert(decreases_to!(whole => whole.kind));
            }
            match target {
                Some((function, internal)) => {
                    let kind = if internal {
                        FunctionReferenceKind::InternalCall
                    } else {
                        FunctionReferenceKind::ExternalCall
                    };
                    record_reference(references, function, FunctionReference { expr: id, span, owner, kind });
                    if internal {
                        bindings.append(&mut call_bindings);
                    }
                },
                None => {},
            }
            walk_expr(*callee, owner, target.is_some(), references, bindings);
            walk_exprs(options, owner, inside_callee, references, bindings);
            walk_exprs(args, owner, inside_callee, references, bindings);
        },
        RefExprKind::Ident(typed, functions) => {
            if !inside_callee {
                match typed {
                    Some(function) => {
                        record_reference(
                            references,
                            function,
                            FunctionReference { expr: id, span, owner, kind: FunctionReferenceKind::Value },
                        );
                    },
                    None => {
                        let mut k: usize = 0;
                        while k < functions.len()
                            invariant
                                0 <= k <= functions@.len(),
                                references@.len() == old(references)@.len(),
                                forall|q: int| 0 <= q < functions@.len() ==> (#[trigger] functions@[q]).0 < references@.len(),
                                reference_views(references@) == record_all(
                                    reference_views(old(references)@),
                                    functions@,
                                    k as nat,
                                    whole,
                                    owner,
                                ),
                                bindings@ == old(bindings)@,
                                whole.id == id && whole.span == span,
                            decreases functions@.len() - k,
                        {
                            record_reference(
                                references,
                                functions[k],
                                FunctionReference { expr: id, span, owner, kind: FunctionReferenceKind::Value },
                            );
                            k += 1;
                        }
                    },
                }
            }
        },
        RefExprKind::Member(base, typed) => {
            if !inside_callee {
                match typed {
                    Some(function) => {
                        record_reference(
                            references,
                            function,
                            FunctionReference { expr: id, span, owner, kind: FunctionReferenceKind::Value },
                        );
                    },
                    None => {},
                }
            }
            walk_expr(*base, owner, inside_callee, references, bindings);
        },
        RefExprKind::Assign(mut assigned, target, value) => {
            bindings.append(&mut assigned);
            walk_expr(*target, owner, inside_callee, references, bindings);
            walk_expr(*value, owner, inside_callee, references, bindings);
        },
        RefExprKind::Delete(variable, target) => {
            match variable {
                Some(variable) => bindings.push((variable, None)),
                None => {},
            }
            walk_expr(*target, owner, inside_callee, references, bindings);
        },
        RefExprKind::Other(children) => {
            walk_exprs(children, owner, inside_callee, references, bindings);
        },
    }
}

/// Collects the references to each function and the value bindings of variables by walking the
/// nodes of `program` in order: a variable's initializer binds the variable, then is walked.
/// The references feed [`crate::references::build_function_reference_index`].
pub fn collect_function_references(program: ReferenceProgram) -> (collected: (
    Vec<Vec<FunctionReference>>,
    Vec<ValueBinding>,
))
    requires
        program_functions_below(program.nodes@, program.function_count as nat),
    ensures
        (reference_views(collected.0@), collected.1@) == collected_state(
            program.nodes@,
            program.nodes@.len(),
            program.function_count as nat,
        ),
{
    let function_count = program.function_count;
    let ghost nodes = program.nodes@;
    let node_count = program.nodes.len();
    let mut references: Vec<Vec<FunctionReference>> = Vec::new();
    while references.len() < function_count
        invariant
            references@.len() <= function_count,
            forall|i: int| 0 <= i < references@.len() ==> (#[trigger] references@[i])@ == Seq::<FunctionReference>::empty(),
        decreases function_count - references@.len(),
    {
        references.push(Vec::new());
    }
    let mut bindings: Vec<ValueBinding> = Vec::new();
    proof {
        assert(reference_views(references@) =~= Seq::new(function_count as nat, |i: int| Seq::<FunctionReference>::empty()));
        assert((reference_views(references@), bindings@) == collected_state(nodes, 0, function_count as nat));
    }
    let mut pending = reversed(program.nodes);
    let mut i: usize = 0;
    while pending.len() > 0
        invariant
            node_count == nodes.len(),
            pending@.len() + i == nodes.len(),
            forall|k: int| 0 <= k < pending@.len() ==> #[trigger] pending@[k] == nodes[nodes.len() - 1 - k],
            references@.len() == function_count,
            program_functions_below(nodes, function_count as nat),
            (reference_views(references@), bindings@) == collected_state(nodes, i as nat, function_count as nat),
        decreases pending@.len(),
    {
        let ghost before = pending@;
        match pending.pop() {
            Some(entry) => {
                proof {
                    assert(entry == nodes[i as int]) by {
                        assert(before[before.len() - 1] == nodes[nodes.len() - 1 - (before.len() - 1)]);
                    }
                    assert(forall|k: int| 0 <= k < pending@.len() ==> pending@[k] == before[k]);
                }
                let (owner, node) = entry;
                match node {
                    RefNode::Variable(variable, value, initializer) => {
                        bindings.push((variable, Some(value)));
                        walk_expr(initializer, owner, false, &mut references, &mut bindings);
                    },
                    RefNode::Expr(expr) => {
                        walk_expr(expr, owner, false, &mut references, &mut bindings);
                    },
                }
                i += 1;
            },
            None => {},
        }
    }
    (references, bindings)
}

} // verus!
