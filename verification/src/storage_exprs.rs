//! The storage roots that expressions reach, read, write and use as storage slots, given the
//! storage-reference and slot provenance of a [`StorageAliasState`].

use vstd::prelude::*;

use crate::ids::{ExprId, VariableId};
use crate::storage_alias::{
    binding_views, bound_references, bound_slots, flattened_references, flattened_slots, roots_entry, unknown_roots,
    variable_roots_of, StorageAliasState, VariableStorage,
};
use crate::storage_roots::{StorageProvenance, StorageRoots};

verus! {

/// The member that a Yul member access selects.
#[derive(Clone, Copy, Debug, PartialEq, Eq, Structural)]
pub enum YulMember {
    /// `.slot`.
    Slot,
    /// `.offset`.
    Offset,
    /// Any other member.
    Other,
}

/// An expression as storage provenance reads it.
#[derive(Debug)]
pub struct AliasExpr {
    /// The expression's identifier.
    pub id: ExprId,
    /// The kind of expression.
    pub kind: AliasExprKind,
}

/// A kind of expression, as storage provenance reads it.
#[derive(Debug)]
pub enum AliasExprKind {
    /// An identifier: the variable it denotes, if any, and how that variable relates to storage.
    Ident(Option<VariableId>, VariableStorage),
    /// `base[index]`.
    Index(Box<AliasExpr>, Option<Box<AliasExpr>>),
    /// `base[start:end]`.
    Slice(Box<AliasExpr>, Option<Box<AliasExpr>>, Option<Box<AliasExpr>>),
    /// `base.member`.
    Member(Box<AliasExpr>),
    /// A Yul member access `base.member`.
    YulMember(Box<AliasExpr>, YulMember),
    /// `payable(inner)`.
    Payable(Box<AliasExpr>),
    /// A unary operation.
    Unary(Box<AliasExpr>),
    /// `delete inner`.
    Delete(Box<AliasExpr>),
    /// An assignment `lhs = rhs`, and whether it is a compound assignment such as `+=`.
    Assign(Box<AliasExpr>, Box<AliasExpr>, bool),
    /// A binary operation.
    Binary(Box<AliasExpr>, Box<AliasExpr>),
    /// `condition ? then_expr : else_expr`.
    Ternary(Box<AliasExpr>, Box<AliasExpr>, Box<AliasExpr>),
    /// A tuple; a parenthesized expression is a tuple of one component.
    Tuple(Vec<Option<AliasExpr>>),
    /// An array literal.
    Array(Vec<AliasExpr>),
    /// A call: the callee, the call options, the arguments, whether its result is a storage or
    /// transient reference, and the receiver array when the call is the zero-argument `push()`.
    Call(Box<AliasExpr>, Vec<AliasExpr>, Vec<AliasExpr>, bool, Option<Box<AliasExpr>>),
    /// A literal, a type, `new`, a type query, or an erroneous expression.
    Leaf,
}

/// The abstract form of a root set: the known roots and whether any root may be reached.
pub type RootsView = (Set<VariableId>, bool);

/// The abstract form of a storage alias state.
pub type AliasView = (
    Map<VariableId, (Set<VariableId>, bool)>,
    Map<VariableId, (Set<VariableId>, bool)>,
    Map<ExprId, Seq<((Set<VariableId>, bool), (Set<VariableId>, bool))>>,
);

/// The union of two root sets.
pub open spec fn union_roots(lhs: RootsView, rhs: RootsView) -> RootsView {
    (lhs.0.union(rhs.0), lhs.1 || rhs.1)
}

/// No roots.
pub open spec fn no_roots() -> RootsView {
    (Set::empty(), false)
}

/// The state-variable roots reached by a source place or storage-reference value: those of the
/// variable an identifier denotes; those of the base of a projection, of the value of an
/// assignment, of both branches of a conditional and of every component of a tuple; the
/// flattened output roots of a call; no roots for anything else.
pub open spec fn expr_roots(state: AliasView, expr: AliasExpr) -> RootsView
    decreases expr, 0nat,
{
    match expr.kind {
        AliasExprKind::Tuple(components) => if components@.len() == 1 && components@[0] is Some {
            expr_roots(state, components@[0]->0)
        } else {
            component_roots(state, components@, components@.len())
        },
        AliasExprKind::Ident(variable, storage) => match variable {
            Some(variable) => variable_roots_of(state.0, variable, storage),
            None => no_roots(),
        },
        AliasExprKind::Index(base, _) => expr_roots(state, *base),
        AliasExprKind::Slice(base, _, _) => expr_roots(state, *base),
        AliasExprKind::Member(base) => expr_roots(state, *base),
        AliasExprKind::YulMember(base, _) => expr_roots(state, *base),
        AliasExprKind::Payable(base) => expr_roots(state, *base),
        AliasExprKind::Unary(base) => expr_roots(state, *base),
        AliasExprKind::Delete(base) => expr_roots(state, *base),
        AliasExprKind::Assign(_, value, _) => expr_roots(state, *value),
        AliasExprKind::Ternary(_, then_expr, else_expr) => union_roots(
            expr_roots(state, *then_expr),
            expr_roots(state, *else_expr),
        ),
        AliasExprKind::Call(_, _, _, storage_typed, _) => if state.2.contains_key(expr.id) {
            flattened_references(state.2[expr.id])
        } else if storage_typed {
            unknown_roots()
        } else {
            no_roots()
        },
        _ => no_roots(),
    }
}

/// The union of the roots of the first `count` components of a tuple.
pub open spec fn component_roots(state: AliasView, components: Seq<Option<AliasExpr>>, count: nat) -> RootsView
    decreases components, count,
{
    if count == 0 || count > components.len() {
        no_roots()
    } else {
        union_roots(component_roots(state, components, (count - 1) as nat), match components[count - 1] {
            Some(component) => expr_roots(state, component),
            None => no_roots(),
        })
    }
}

/// The roots of an optional subexpression's slot value, none when absent.
pub open spec fn optional_slot_roots(state: AliasView, expr: Option<Box<AliasExpr>>) -> RootsView
    decreases expr, 0nat,
{
    match expr {
        Some(expr) => expr_slot_roots(state, *expr),
        None => no_roots(),
    }
}

/// The state-variable roots that may contribute to `expr` used as a Yul storage-slot value: the
/// flattened slot roots of a summarized call; the slot provenance of the variable an identifier
/// denotes (unknown when none is recorded); the roots reached by the base of `.slot`; the union
/// over the operands of other expressions; no roots for literals and types.
pub open spec fn expr_slot_roots(state: AliasView, expr: AliasExpr) -> RootsView
    decreases expr, 0nat,
{
    match expr.kind {
        AliasExprKind::Tuple(components) => if components@.len() == 1 && components@[0] is Some {
            expr_slot_roots(state, components@[0]->0)
        } else {
            component_slot_roots(state, components@, components@.len())
        },
        AliasExprKind::Call(callee, options, args, _, _) => if state.2.contains_key(expr.id) {
            flattened_slots(state.2[expr.id])
        } else {
            union_roots(
                union_roots(expr_slot_roots(state, *callee), list_slot_roots(state, options@, options@.len())),
                list_slot_roots(state, args@, args@.len()),
            )
        },
        AliasExprKind::Ident(variable, _) => match variable {
            Some(variable) => roots_entry(state.1, variable),
            None => unknown_roots(),
        },
        AliasExprKind::YulMember(base, member) => if member == YulMember::Slot {
            expr_roots(state, *base)
        } else {
            expr_slot_roots(state, *base)
        },
        AliasExprKind::Array(items) => list_slot_roots(state, items@, items@.len()),
        AliasExprKind::Assign(lhs, rhs, _) => union_roots(expr_slot_roots(state, *lhs), expr_slot_roots(state, *rhs)),
        AliasExprKind::Binary(lhs, rhs) => union_roots(expr_slot_roots(state, *lhs), expr_slot_roots(state, *rhs)),
        AliasExprKind::Index(base, index) => union_roots(expr_slot_roots(state, *base), optional_slot_roots(state, index)),
        AliasExprKind::Slice(base, start, end) => union_roots(
            union_roots(expr_slot_roots(state, *base), optional_slot_roots(state, start)),
            optional_slot_roots(state, end),
        ),
        AliasExprKind::Member(base) => expr_slot_roots(state, *base),
        AliasExprKind::Payable(base) => expr_slot_roots(state, *base),
        AliasExprKind::Unary(base) => expr_slot_roots(state, *base),
        AliasExprKind::Delete(base) => expr_slot_roots(state, *base),
        AliasExprKind::Ternary(condition, then_expr, else_expr) => union_roots(
            union_roots(expr_slot_roots(state, *condition), expr_slot_roots(state, *then_expr)),
            expr_slot_roots(state, *else_expr),
        ),
        AliasExprKind::Leaf => no_roots(),
    }
}

/// The union of the slot roots of the first `count` expressions of `list`.
pub open spec fn list_slot_roots(state: AliasView, list: Seq<AliasExpr>, count: nat) -> RootsView
    decreases list, count,
{
    if count == 0 || count > list.len() {
        no_roots()
    } else {
        union_roots(list_slot_roots(state, list, (count - 1) as nat), expr_slot_roots(state, list[count - 1]))
    }
}

/// The union of the slot roots of the first `count` components of a tuple.
pub open spec fn component_slot_roots(state: AliasView, components: Seq<Option<AliasExpr>>, count: nat) -> RootsView
    decreases components, count,
{
    if count == 0 || count > components.len() {
        no_roots()
    } else {
        union_roots(component_slot_roots(state, components, (count - 1) as nat), match components[count - 1] {
            Some(component) => expr_slot_roots(state, component),
            None => no_roots(),
        })
    }
}

/// `expr` without its enclosing parentheses.
pub open spec fn unparenthesized(expr: AliasExpr) -> AliasExpr
    decreases expr,
{
    match expr.kind {
        AliasExprKind::Tuple(components) => if components@.len() == 1 && components@[0] is Some {
            unparenthesized(components@[0]->0)
        } else {
            expr
        },
        _ => expr,
    }
}

/// Whether evaluating `expr` reads no persistent state itself: a place evaluation, a `delete`,
/// or a Yul `.slot` or `.offset`.
pub open spec fn reads_nothing(expr: AliasExpr, is_place: bool) -> bool {
    is_place || unparenthesized(expr).kind is Delete || match unparenthesized(expr).kind {
        AliasExprKind::YulMember(_, member) => member != YulMember::Other,
        _ => false,
    }
}

/// The variable that a whole-variable target denotes, with its storage class: an identifier of
/// one variable, parentheses aside; projected targets denote none.
pub open spec fn unprojected_variable(expr: AliasExpr) -> Option<(VariableId, VariableStorage)> {
    match unparenthesized(expr).kind {
        AliasExprKind::Ident(Some(variable), storage) => Some((variable, storage)),
        _ => None,
    }
}

/// The root variable of a place expression, with its storage class.
pub open spec fn root_variable(expr: AliasExpr) -> Option<(VariableId, VariableStorage)>
    decreases expr,
{
    match expr.kind {
        AliasExprKind::Tuple(components) => if components@.len() == 1 && components@[0] is Some {
            root_variable(components@[0]->0)
        } else {
            None
        },
        AliasExprKind::Ident(Some(variable), storage) => Some((variable, storage)),
        AliasExprKind::Index(base, _) => root_variable(*base),
        AliasExprKind::Slice(base, _, _) => root_variable(*base),
        AliasExprKind::Member(base) => root_variable(*base),
        _ => None,
    }
}

/// The variable whose `.slot` an assignment target is, with its storage class.
pub open spec fn slot_target(target: AliasExpr) -> Option<(VariableId, VariableStorage)> {
    match unparenthesized(target).kind {
        AliasExprKind::YulMember(base, member) => if member == YulMember::Slot {
            root_variable(*base)
        } else {
            None
        },
        _ => None,
    }
}

/// The roots reached by output `index` of `outputs` of an assignment's value: a component of a
/// tuple value, a summarized output of a call (unknown when none is summarized), the whole value
/// for a single output, and no roots otherwise.
pub open spec fn output_roots(state: AliasView, value: AliasExpr, index: nat, outputs: nat) -> RootsView {
    let inner = unparenthesized(value);
    if inner.kind is Tuple && outputs > 1 {
        let values = inner.kind->Tuple_0@;
        if index < values.len() && values[index as int] is Some {
            expr_roots(state, values[index as int]->0)
        } else {
            no_roots()
        }
    } else if inner.kind is Call {
        if state.2.contains_key(value.id) && index < state.2[value.id].len() {
            state.2[value.id][index as int].0
        } else {
            unknown_roots()
        }
    } else if outputs == 1 && index == 0 {
        expr_roots(state, value)
    } else {
        no_roots()
    }
}

/// The slot roots of output `index` of `outputs` of an assignment's value, read as
/// [`output_roots`] reads reference roots.
pub open spec fn output_slot_roots(state: AliasView, value: AliasExpr, index: nat, outputs: nat) -> RootsView {
    let inner = unparenthesized(value);
    if inner.kind is Tuple && outputs > 1 {
        let values = inner.kind->Tuple_0@;
        if index < values.len() && values[index as int] is Some {
            expr_slot_roots(state, values[index as int]->0)
        } else {
            no_roots()
        }
    } else if inner.kind is Call {
        if state.2.contains_key(value.id) && index < state.2[value.id].len() {
            state.2[value.id][index as int].1
        } else {
            unknown_roots()
        }
    } else if outputs == 1 && index == 0 {
        expr_slot_roots(state, value)
    } else {
        no_roots()
    }
}

/// The binding of a target to output `index` of `outputs` of `value`, when it is a whole
/// variable.
pub open spec fn target_binding(state: AliasView, target: AliasExpr, value: AliasExpr, index: nat, outputs: nat) -> Seq<
    (VariableId, VariableStorage, RootsView, RootsView),
> {
    match unprojected_variable(target) {
        Some((variable, storage)) => seq![
            (variable, storage, output_roots(state, value, index, outputs), output_slot_roots(state, value, index, outputs)),
        ],
        None => Seq::empty(),
    }
}

/// The bindings of the first `count` components of a tuple target to the outputs of `value`.
pub open spec fn tuple_bindings(
    state: AliasView,
    targets: Seq<Option<AliasExpr>>,
    count: nat,
    value: AliasExpr,
) -> Seq<(VariableId, VariableStorage, RootsView, RootsView)>
    decreases count,
{
    if count == 0 || count > targets.len() {
        Seq::empty()
    } else {
        tuple_bindings(state, targets, (count - 1) as nat, value) + match targets[count - 1] {
            Some(target) => target_binding(state, target, value, (count - 1) as nat, targets.len()),
            None => Seq::empty(),
        }
    }
}

/// The bindings of a plain assignment `target = value`: each whole-variable component of a tuple
/// target to the corresponding output, or a whole-variable target to the single output.
pub open spec fn assignment_bindings(state: AliasView, target: AliasExpr, value: AliasExpr) -> Seq<
    (VariableId, VariableStorage, RootsView, RootsView),
> {
    let inner = unparenthesized(target);
    match inner.kind {
        AliasExprKind::Tuple(targets) => tuple_bindings(state, targets@, targets@.len(), value),
        _ => target_binding(state, target, value, 0, 1),
    }
}

/// The state after a plain assignment `target = value`: assigning to the `.slot` of a variable
/// makes the variable reach the slot roots of the value; otherwise each whole-variable target
/// takes the provenance of its output.
pub open spec fn assigned(state: AliasView, target: AliasExpr, value: AliasExpr) -> AliasView {
    match slot_target(target) {
        Some((variable, storage)) => (
            if storage is Reference {
                state.0.insert(variable, expr_slot_roots(state, value))
            } else {
                state.0.remove(variable)
            },
            state.1,
            state.2,
        ),
        None => {
            let bindings = assignment_bindings(state, target, value);
            (bound_references(state.0, bindings), bound_slots(state.1, bindings), state.2)
        },
    }
}

/// The state after the alias-producing effect of `expr`: a plain assignment assigns; a compound
/// assignment to a whole variable gives it the slot roots of the whole expression; `push()` on an
/// array records the array's roots as the reference and slot provenance of its result.
pub open spec fn expr_effect(state: AliasView, expr: AliasExpr) -> AliasView {
    match expr.kind {
        AliasExprKind::Assign(target, value, compound) => if !compound {
            assigned(state, *target, *value)
        } else {
            match unprojected_variable(*target) {
                Some((variable, _)) => (state.0, state.1.insert(variable, expr_slot_roots(state, expr)), state.2),
                None => state,
            }
        },
        AliasExprKind::Call(_, _, _, _, receiver) => match receiver {
            Some(receiver) => {
                let roots = expr_roots(state, *receiver);
                (state.0, state.1, state.2.insert(expr.id, seq![(roots, roots)]))
            },
            None => state,
        },
        _ => state,
    }
}

impl AliasExpr {
    /// Peels off the parentheses enclosing the expression.
    pub fn peel_parens(&self) -> (inner: &AliasExpr)
        ensures
            *inner == unparenthesized(*self),
        decreases self,
    {
        match &self.kind {
            AliasExprKind::Tuple(components) => {
                if components.len() == 1 {
                    match &components[0] {
                        Some(inner) => inner.peel_parens(),
                        None => self,
                    }
                } else {
                    self
                }
            },
            _ => self,
        }
    }
}

impl StorageAliasState {
    /// Returns the state-variable roots reached by a source place or storage-reference value.
    pub fn roots(&self, expr: &AliasExpr) -> (roots: StorageRoots)
        ensures
            roots@ == expr_roots(self@, *expr),
        decreases expr, 0nat,
    {
        match &expr.kind {
            AliasExprKind::Tuple(components) => {
                if components.len() == 1 && components[0].is_some() {
                    match &components[0] {
                        Some(inner) => self.roots(inner),
                        None => StorageRoots::new(),
                    }
                } else {
                    let mut roots = StorageRoots::new();
                    let mut i: usize = 0;
                    while i < components.len()
                        invariant
                            0 <= i <= components@.len(),
                            expr.kind == AliasExprKind::Tuple(*components),
                            roots@ == component_roots(self@, components@, i as nat),
                        decreases components@.len() - i,
                    {
                        match &components[i] {
                            Some(component) => {
                                proof {
                                    let element = components@[i as int];
                                    assert(decreases_to!(*expr => expr.kind));
                                    assert(decreases_to!(expr.kind => expr.kind->Tuple_0));
                                    assert(decreases_to!(*components => components@));
                                    assert(decreases_to!(components@ => element));
                                    assert(decreases_to!(element => element->0));
                                }
                                let inner = self.roots(component);
                                roots.union(&inner);
                            },
                            None => {},
                        }
                        i += 1;
                    }
                    roots
                }
            },
            AliasExprKind::Ident(variable, storage) => self.variable_roots(*variable, *storage),
            AliasExprKind::Index(base, _) => self.roots(base),
            AliasExprKind::Slice(base, _, _) => self.roots(base),
            AliasExprKind::Member(base) => self.roots(base),
            AliasExprKind::YulMember(base, _) => self.roots(base),
            AliasExprKind::Payable(base) => self.roots(base),
            AliasExprKind::Unary(base) => self.roots(base),
            AliasExprKind::Delete(base) => self.roots(base),
            AliasExprKind::Assign(_, value, _) => self.roots(value),
            AliasExprKind::Ternary(_, then_expr, else_expr) => {
                let mut roots = self.roots(then_expr);
                let other = self.roots(else_expr);
                roots.union(&other);
                roots
            },
            AliasExprKind::Call(_, _, _, storage_typed, _) => self.flattened_call_results(expr.id, *storage_typed),
            _ => StorageRoots::new(),
        }
    }

    /// Returns the slot roots of an optional subexpression, none when absent.
    fn optional_slot_roots(&self, expr: &Option<Box<AliasExpr>>) -> (roots: StorageRoots)
        ensures
            roots@ == optional_slot_roots(self@, *expr),
        decreases *expr, 1nat,
    {
        match expr {
            Some(inner) => self.slot_roots(inner),
            None => StorageRoots::new(),
        }
    }

    /// Returns the union of the slot roots of `list`.
    fn slot_roots_many(&self, list: &Vec<AliasExpr>) -> (roots: StorageRoots)
        ensures
            roots@ == list_slot_roots(self@, list@, list@.len()),
        decreases list@, 1nat,
    {
        let mut roots = StorageRoots::new();
        let mut i: usize = 0;
        while i < list.len()
            invariant
                0 <= i <= list@.len(),
                roots@ == list_slot_roots(self@, list@, i as nat),
            decreases list@.len() - i,
        {
            proof {
                assert(decreases_to!(list@ => list@[i as int]));
            }
            let inner = self.slot_roots(&list[i]);
            roots.union(&inner);
            i += 1;
        }
        roots
    }

    /// Returns the state-variable roots which may contribute to `expr` used as a Yul
    /// storage-slot value.
    pub fn slot_roots(&self, expr: &AliasExpr) -> (roots: StorageRoots)
        ensures
            roots@ == expr_slot_roots(self@, *expr),
        decreases expr, 0nat,
    {
        if let AliasExprKind::Call(..) = &expr.kind {
            if let Some(roots) = self.flattened_call_slots(expr.id) {
                return roots;
            }
        }
        match &expr.kind {
            AliasExprKind::Tuple(components) => {
                if components.len() == 1 && components[0].is_some() {
                    match &components[0] {
                        Some(inner) => self.slot_roots(inner),
                        None => StorageRoots::new(),
                    }
                } else {
                    let mut roots = StorageRoots::new();
                    let mut i: usize = 0;
                    while i < components.len()
                        invariant
                            0 <= i <= components@.len(),
                            expr.kind == AliasExprKind::Tuple(*components),
                            roots@ == component_slot_roots(self@, components@, i as nat),
                        decreases components@.len() - i,
                    {
                        match &components[i] {
                            Some(component) => {
                                proof {
                                    let element = components@[i as int];
                                    assert(decreases_to!(*expr => expr.kind));
                                    assert(decreases_to!(expr.kind => expr.kind->Tuple_0));
                                    assert(decreases_to!(*components => components@));
                                    assert(decreases_to!(components@ => element));
                                    assert(decreases_to!(element => element->0));
                                }
                                let inner = self.slot_roots(component);
                                roots.union(&inner);
                            },
                            None => {},
                        }
                        i += 1;
                    }
                    roots
                }
            },
            AliasExprKind::Call(callee, options, args, _, _) => {
                proof {
                    assert(decreases_to!(*expr => expr.kind));
                }
                let mut roots = self.slot_roots(callee);
                let from_options = self.slot_roots_many(options);
                roots.union(&from_options);
                let from_args = self.slot_roots_many(args);
                roots.union(&from_args);
                roots
            },
            AliasExprKind::Ident(variable, _) => match variable {
                Some(variable) => self.slot_value_roots(*variable),
                None => StorageRoots::unknown(),
            },
            AliasExprKind::YulMember(base, member) => {
                if *member == YulMember::Slot {
                    self.roots(base)
                } else {
                    self.slot_roots(base)
                }
            },
            AliasExprKind::Array(items) => {
                proof {
                    assert(decreases_to!(*expr => expr.kind));
                }
                self.slot_roots_many(items)
            },
            AliasExprKind::Assign(lhs, rhs, _) | AliasExprKind::Binary(lhs, rhs) => {
                let mut roots = self.slot_roots(lhs);
                let other = self.slot_roots(rhs);
                roots.union(&other);
                roots
            },
            AliasExprKind::Index(base, index) => {
                proof {
                    assert(decreases_to!(*expr => expr.kind));
                }
                let mut roots = self.slot_roots(base);
                let other = self.optional_slot_roots(index);
                roots.union(&other);
                roots
            },
            AliasExprKind::Slice(base, start, end) => {
                proof {
                    assert(decreases_to!(*expr => expr.kind));
                }
                let mut roots = self.slot_roots(base);
                let from_start = self.optional_slot_roots(start);
                roots.union(&from_start);
                let from_end = self.optional_slot_roots(end);
                roots.union(&from_end);
                roots
            },
            AliasExprKind::Member(base) => self.slot_roots(base),
            AliasExprKind::Payable(base) => self.slot_roots(base),
            AliasExprKind::Unary(base) => self.slot_roots(base),
            AliasExprKind::Delete(base) => self.slot_roots(base),
            AliasExprKind::Ternary(condition, then_expr, else_expr) => {
                let mut roots = self.slot_roots(condition);
                let from_then = self.slot_roots(then_expr);
                roots.union(&from_then);
                let from_else = self.slot_roots(else_expr);
                roots.union(&from_else);
                roots
            },
            AliasExprKind::Leaf => StorageRoots::new(),
        }
    }

    /// Returns the variable that a whole-variable target denotes, with its storage class.
    fn unprojected_variable(expr: &AliasExpr) -> (variable: Option<(VariableId, VariableStorage)>)
        ensures
            variable == unprojected_variable(*expr),
    {
        match &expr.peel_parens().kind {
            AliasExprKind::Ident(Some(variable), storage) => Some((*variable, *storage)),
            _ => None,
        }
    }

    /// Returns the root variable of a place expression, with its storage class.
    fn root_variable(expr: &AliasExpr) -> (variable: Option<(VariableId, VariableStorage)>)
        ensures
            variable == root_variable(*expr),
        decreases expr,
    {
        match &expr.kind {
            AliasExprKind::Tuple(components) => {
                if components.len() == 1 {
                    match &components[0] {
                        Some(inner) => Self::root_variable(inner),
                        None => None,
                    }
                } else {
                    None
                }
            },
            AliasExprKind::Ident(Some(variable), storage) => Some((*variable, *storage)),
            AliasExprKind::Index(base, _) => Self::root_variable(base),
            AliasExprKind::Slice(base, _, _) => Self::root_variable(base),
            AliasExprKind::Member(base) => Self::root_variable(base),
            _ => None,
        }
    }

    /// Returns the roots reached by output `index` of `outputs` of an assignment's value.
    pub fn output_roots(&self, value: &AliasExpr, index: usize, outputs: usize) -> (roots: StorageRoots)
        ensures
            roots@ == output_roots(self@, *value, index as nat, outputs as nat),
    {
        let inner = value.peel_parens();
        if let AliasExprKind::Tuple(values) = &inner.kind {
            if outputs > 1 {
                if index < values.len() {
                    match &values[index] {
                        Some(component) => return self.roots(component),
                        None => return StorageRoots::new(),
                    }
                }
                return StorageRoots::new();
            }
        }
        if let AliasExprKind::Call(..) = &inner.kind {
            return match self.call_result(value.id, index) {
                Some(result) => result.reference_roots().duplicate(),
                None => StorageRoots::unknown(),
            };
        }
        if outputs == 1 && index == 0 {
            self.roots(value)
        } else {
            StorageRoots::new()
        }
    }

    /// Returns the slot roots of output `index` of `outputs` of an assignment's value.
    pub fn output_slot_roots(&self, value: &AliasExpr, index: usize, outputs: usize) -> (roots: StorageRoots)
        ensures
            roots@ == output_slot_roots(self@, *value, index as nat, outputs as nat),
    {
        let inner = value.peel_parens();
        if let AliasExprKind::Tuple(values) = &inner.kind {
            if outputs > 1 {
                if index < values.len() {
                    match &values[index] {
                        Some(component) => return self.slot_roots(component),
                        None => return StorageRoots::new(),
                    }
                }
                return StorageRoots::new();
            }
        }
        if let AliasExprKind::Call(..) = &inner.kind {
            return match self.call_result(value.id, index) {
                Some(result) => result.slot_roots().duplicate(),
                None => StorageRoots::unknown(),
            };
        }
        if outputs == 1 && index == 0 {
            self.slot_roots(value)
        } else {
            StorageRoots::new()
        }
    }

    /// Appends the binding of `target` to output `index` of `outputs` of `value`, when the target
    /// is a whole variable.
    fn push_target_binding(
        &self,
        target: &AliasExpr,
        value: &AliasExpr,
        index: usize,
        outputs: usize,
        bindings: &mut Vec<(VariableId, VariableStorage, StorageRoots, StorageRoots)>,
    )
        ensures
            binding_views(final(bindings)@) == binding_views(old(bindings)@) + target_binding(
                self@,
                *target,
                *value,
                index as nat,
                outputs as nat,
            ),
    {
        let ghost before = binding_views(bindings@);
        match Self::unprojected_variable(target) {
            Some((variable, storage)) => {
                let roots = self.output_roots(value, index, outputs);
                let slot_roots = self.output_slot_roots(value, index, outputs);
                bindings.push((variable, storage, roots, slot_roots));
                proof {
                    assert(binding_views(bindings@) =~= before + target_binding(self@, *target, *value, index as nat, outputs as nat));
                }
            },
            None => {
                proof {
                    assert(before + Seq::empty() =~= before);
                }
            },
        }
    }

    /// Applies a plain assignment `target = value`.
    pub fn assign(&mut self, target: &AliasExpr, value: &AliasExpr)
        ensures
            final(self)@ == assigned(old(self)@, *target, *value),
    {
        let inner = target.peel_parens();
        if let AliasExprKind::YulMember(base, member) = &inner.kind {
            if *member == YulMember::Slot {
                if let Some((variable, storage)) = Self::root_variable(base) {
                    let roots = self.slot_roots(value);
                    self.set_reference(variable, storage, roots);
                    return;
                }
            }
        }
        let ghost start = self@;
        let mut bindings: Vec<(VariableId, VariableStorage, StorageRoots, StorageRoots)> = Vec::new();
        proof {
            assert(binding_views(bindings@) =~= Seq::<(VariableId, VariableStorage, RootsView, RootsView)>::empty());
        }
        match &inner.kind {
            AliasExprKind::Tuple(targets) => {
                let mut i: usize = 0;
                while i < targets.len()
                    invariant
                        0 <= i <= targets@.len(),
                        self@ == start,
                        binding_views(bindings@) == tuple_bindings(start, targets@, i as nat, *value),
                    decreases targets@.len() - i,
                {
                    match &targets[i] {
                        Some(component) => {
                            self.push_target_binding(component, value, i, targets.len(), &mut bindings);
                        },
                        None => {
                            proof {
                                assert(binding_views(bindings@) + Seq::empty() =~= binding_views(bindings@));
                            }
                        },
                    }
                    i += 1;
                }
            },
            _ => {
                self.push_target_binding(target, value, 0, 1, &mut bindings);
                proof {
                    assert(Seq::<(VariableId, VariableStorage, RootsView, RootsView)>::empty() + target_binding(
                        start,
                        *target,
                        *value,
                        0,
                        1,
                    ) =~= target_binding(start, *target, *value, 0, 1));
                }
            },
        }
        self.apply_bindings(bindings);
    }

    /// Applies the alias-producing effect of an expression after its operands are evaluated.
    pub fn apply_expr_effect(&mut self, expr: &AliasExpr)
        ensures
            final(self)@ == expr_effect(old(self)@, *expr),
    {
        match &expr.kind {
            AliasExprKind::Assign(target, value, compound) => {
                if !*compound {
                    self.assign(target, value);
                } else {
                    match Self::unprojected_variable(target) {
                        Some((variable, _)) => {
                            let roots = self.slot_roots(expr);
                            self.set_slot(variable, roots);
                        },
                        None => {},
                    }
                }
            },
            AliasExprKind::Call(_, _, _, _, receiver) => match receiver {
                Some(receiver) => {
                    let roots = self.roots(receiver);
                    let copy = roots.duplicate();
                    let ghost view = roots@;
                    let results = vec![StorageProvenance::new(roots, copy)];
                    self.set_call_results(expr.id, results);
                    proof {
                        assert(crate::call_results::views(results@) =~= seq![(view, view)]);
                    }
                },
                None => {},
            },
            _ => {},
        }
    }

    /// Returns the state roots read when `expr` is evaluated, `is_place` when it is evaluated as
    /// a place. Child expressions report their own reads; place evaluation, `delete`, and Yul
    /// `.slot`/`.offset` provenance read no persistent state themselves.
    pub fn read_roots(&self, expr: &AliasExpr, is_place: bool) -> (roots: StorageRoots)
        ensures
            roots@ == if reads_nothing(*expr, is_place) {
                no_roots()
            } else {
                expr_roots(self@, *expr)
            },
    {
        let inner = expr.peel_parens();
        let reads = !is_place && match &inner.kind {
            AliasExprKind::Delete(_) => false,
            AliasExprKind::YulMember(_, member) => *member == YulMember::Other,
            _ => true,
        };
        if reads {
            proof {
                lemma_roots_unparenthesized(self@, *expr);
            }
            self.roots(inner)
        } else {
            StorageRoots::new()
        }
    }

    /// Returns the state roots written through the assignment or mutation target `expr`.
    pub fn write_roots(&self, expr: &AliasExpr) -> (roots: StorageRoots)
        ensures
            roots@ == expr_roots(self@, *expr),
    {
        self.roots(expr)
    }

    /// Returns the roots touched when `expr` is used as an EVM storage slot: its slot roots, or
    /// any storage when it has none, since a literal or locally computed slot can address any
    /// contract storage.
    pub fn storage_access_roots(&self, expr: &AliasExpr) -> (roots: StorageRoots)
        ensures
            roots@ == if expr_slot_roots(self@, *expr) == no_roots() {
                unknown_roots()
            } else {
                expr_slot_roots(self@, *expr)
            },
    {
        let roots = self.slot_roots(expr);
        if roots.is_empty() {
            proof {
                assert(roots@.0 =~= Set::<VariableId>::empty());
            }
            StorageRoots::unknown()
        } else {
            roots
        }
    }
}

/// The roots of a parenthesized expression are those of its inside.
proof fn lemma_roots_unparenthesized(state: AliasView, expr: AliasExpr)
    ensures
        expr_roots(state, unparenthesized(expr)) == expr_roots(state, expr),
    decreases expr,
{
    match expr.kind {
        AliasExprKind::Tuple(components) => if components@.len() == 1 && components@[0] is Some {
            lemma_roots_unparenthesized(state, components@[0]->0);
        },
        _ => {},
    }
}

} // verus!
