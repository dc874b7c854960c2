//! Source places, root variables and explicit conversions of expressions.
//!
//! The queries read an expression tree in which the type checker's answers are recorded on the
//! nodes: the variables an identifier resolves to, the field a member access selects, the type of
//! an expression as conversions read it, and which calls are explicit type conversions.

use vstd::prelude::*;

use crate::ids::{ContractId, ExprId, Symbol, VariableId};
use crate::place::{conversion_is_injective, injective_conversion, state_backed, Place, ProjectionElem, ScalarTy};
use crate::variables::Variable;

verus! {

/// An explicit type conversion `T(x)`: the target type, and whether the operand already has that
/// type once references are peeled.
#[derive(Debug)]
pub struct Conversion {
    /// The target type.
    pub target: ScalarTy,
    /// Whether the operand's type equals the target type.
    pub same_type: bool,
}

/// An expression with the facts the queries read of it.
#[derive(Debug)]
pub struct SourceExpr {
    /// The expression's identifier.
    pub id: ExprId,
    /// The expression's type as conversions read it, when type checking assigned one.
    pub ty: Option<ScalarTy>,
    /// The contract, when the expression's type (references peeled) is a contract type.
    pub contract: Option<ContractId>,
    /// The kind of expression.
    pub kind: SourceExprKind,
}

/// A kind of expression.
#[derive(Debug)]
pub enum SourceExprKind {
    /// An identifier: the variables among its resolutions, and whether one of its resolutions
    /// is the builtin `this`.
    Ident(Vec<VariableId>, bool),
    /// A member access `base.name`, with the variable the member resolved to, if any.
    Member(Box<SourceExpr>, Symbol, Option<VariableId>),
    /// An index access `base[index]`; the index may be omitted.
    Index(Box<SourceExpr>, Option<Box<SourceExpr>>),
    /// A slice `base[start:end]`.
    Slice(Box<SourceExpr>, Option<Box<SourceExpr>>, Option<Box<SourceExpr>>),
    /// A tuple `(a, , b)`; a parenthesized expression is a tuple of one component.
    Tuple(Vec<Option<SourceExpr>>),
    /// `payable(inner)`.
    Payable(Box<SourceExpr>),
    /// A call: the callee, the argument values, the call options if any, the conversion when the
    /// callee names a type other than a struct, and whether the call is Yul's `address()`.
    Call(Box<SourceExpr>, Vec<SourceExpr>, Option<Vec<SourceExpr>>, Option<Conversion>, bool),
    /// Any other expression, with its subexpressions.
    Other(Vec<SourceExpr>),
}

/// The abstract form of a place: its root variable and its projections.
pub type PlaceView = (VariableId, Seq<ProjectionElem>);

/// `expr` without its enclosing parentheses.
pub open spec fn unparenthesized(expr: SourceExpr) -> SourceExpr
    decreases expr,
{
    match expr.kind {
        SourceExprKind::Tuple(components) => if components@.len() == 1 && components@[0] is Some {
            unparenthesized(components@[0]->0)
        } else {
            expr
        },
        _ => expr,
    }
}

/// `expr` without parentheses, `payable(..)` and explicit conversions of a single operand to a
/// type other than a struct.
pub open spec fn without_conversions(expr: SourceExpr) -> SourceExpr
    decreases expr,
{
    match expr.kind {
        SourceExprKind::Tuple(components) => if components@.len() == 1 && components@[0] is Some {
            without_conversions(components@[0]->0)
        } else {
            expr
        },
        SourceExprKind::Payable(inner) => without_conversions(*inner),
        SourceExprKind::Call(_, args, options, conversion, _) => if options is None && conversion is Some
            && args@.len() == 1 {
            without_conversions(args@[0])
        } else {
            expr
        },
        _ => expr,
    }
}

/// Whether a call with these arguments, options and conversion is an injective conversion of a
/// typed operand.
pub open spec fn is_injective_conversion(
    args: Seq<SourceExpr>,
    options: Option<Vec<SourceExpr>>,
    conversion: Option<Conversion>,
) -> bool {
    options is None && conversion is Some && args.len() == 1 && args[0].ty is Some && injective_conversion(
        conversion->0.same_type,
        args[0].ty->0,
        conversion->0.target,
    )
}

/// `expr` without parentheses, `payable(..)` and the explicit conversions that are injective
/// over their operand's type; lossy conversions are kept.
pub open spec fn without_injective_conversions(expr: SourceExpr) -> SourceExpr
    decreases expr,
{
    match expr.kind {
        SourceExprKind::Tuple(components) => if components@.len() == 1 && components@[0] is Some {
            without_injective_conversions(components@[0]->0)
        } else {
            expr
        },
        SourceExprKind::Payable(inner) => without_injective_conversions(*inner),
        SourceExprKind::Call(_, args, options, conversion, _) => if is_injective_conversion(
            args@,
            options,
            conversion,
        ) {
            without_injective_conversions(args@[0])
        } else {
            expr
        },
        _ => expr,
    }
}

/// The identifier of an optional expression.
pub open spec fn optional_id(expr: Option<Box<SourceExpr>>) -> Option<ExprId> {
    match expr {
        Some(expr) => Some(expr.id),
        None => None,
    }
}

/// The place an expression denotes: an identifier resolving to exactly one variable, followed
/// by member, index and slice projections; parentheses are transparent and anything else is a
/// computed value with no place.
pub open spec fn place_of(expr: SourceExpr) -> Option<PlaceView>
    decreases expr,
{
    match expr.kind {
        SourceExprKind::Tuple(components) => if components@.len() == 1 && components@[0] is Some {
            place_of(components@[0]->0)
        } else {
            None
        },
        SourceExprKind::Ident(variables, _) => if variables@.len() == 1 {
            Some((variables@[0], Seq::empty()))
        } else {
            None
        },
        SourceExprKind::Member(base, name, variable) => match place_of(*base) {
            Some((local, projection)) => Some(
                (local, projection.push(ProjectionElem::Field { name, variable })),
            ),
            None => None,
        },
        SourceExprKind::Index(base, index) => match place_of(*base) {
            Some((local, projection)) => Some(
                (local, projection.push(ProjectionElem::Index(optional_id(index)))),
            ),
            None => None,
        },
        SourceExprKind::Slice(base, start, end) => match place_of(*base) {
            Some((local, projection)) => Some(
                (
                    local,
                    projection.push(
                        ProjectionElem::Slice { start: optional_id(start), end: optional_id(end) },
                    ),
                ),
            ),
            None => None,
        },
        _ => None,
    }
}

/// The root variable of a place, if any.
pub open spec fn root_of(place: Option<PlaceView>) -> Option<VariableId> {
    match place {
        Some((local, _)) => Some(local),
        None => None,
    }
}

/// The abstract form of an optional place.
pub open spec fn place_view(place: Option<Place>) -> Option<PlaceView> {
    match place {
        Some(place) => Some(place@),
        None => None,
    }
}

/// Whether an optional subexpression mentions one of `variables`.
pub open spec fn optional_mentions(expr: Option<Box<SourceExpr>>, variables: Seq<VariableId>) -> bool
    decreases expr, 0nat,
{
    match expr {
        Some(expr) => mentions(*expr, variables),
        None => false,
    }
}

/// Whether an identifier somewhere in `expr` resolves to one of `variables`.
pub open spec fn mentions(expr: SourceExpr, variables: Seq<VariableId>) -> bool
    decreases expr, 0nat,
{
    match expr.kind {
        SourceExprKind::Ident(resolved, _) => exists|i: int|
            0 <= i < resolved@.len() && variables.contains(#[trigger] resolved@[i]),
        SourceExprKind::Member(base, _, _) => mentions(*base, variables),
        SourceExprKind::Index(base, index) => mentions(*base, variables) || optional_mentions(index, variables),
        SourceExprKind::Slice(base, start, end) => mentions(*base, variables) || optional_mentions(start, variables)
            || optional_mentions(end, variables),
        SourceExprKind::Tuple(components) => components_mention(components@, components@.len(), variables),
        SourceExprKind::Payable(inner) => mentions(*inner, variables),
        SourceExprKind::Call(callee, args, options, _, _) => mentions(*callee, variables) || list_mentions(
            args@,
            args@.len(),
            variables,
        ) || match options {
            Some(options) => list_mentions(options@, options@.len(), variables),
            None => false,
        },
        SourceExprKind::Other(children) => list_mentions(children@, children@.len(), variables),
    }
}

/// Whether one of the first `count` expressions of `list` mentions one of `variables`.
pub open spec fn list_mentions(list: Seq<SourceExpr>, count: nat, variables: Seq<VariableId>) -> bool
    decreases list, count,
{
    if count == 0 || count > list.len() {
        false
    } else {
        list_mentions(list, (count - 1) as nat, variables) || mentions(list[count - 1], variables)
    }
}

/// Whether one of the first `count` components of a tuple mentions one of `variables`.
pub open spec fn components_mention(
    components: Seq<Option<SourceExpr>>,
    count: nat,
    variables: Seq<VariableId>,
) -> bool
    decreases components, count,
{
    if count == 0 || count > components.len() {
        false
    } else {
        components_mention(components, (count - 1) as nat, variables) || match components[count - 1] {
            Some(component) => mentions(component, variables),
            None => false,
        }
    }
}

/// A mention among the first `count` expressions of a list is a mention among more of them.
proof fn lemma_list_mentions_grows(list: Seq<SourceExpr>, count: nat, more: nat, variables: Seq<VariableId>)
    requires
        count <= more <= list.len(),
        list_mentions(list, count, variables),
    ensures
        list_mentions(list, more, variables),
    decreases more - count,
{
    if count < more {
        lemma_list_mentions_grows(list, count, (more - 1) as nat, variables);
    }
}

/// A mention among the first `count` components of a tuple is a mention among more of them.
proof fn lemma_components_mention_grows(
    components: Seq<Option<SourceExpr>>,
    count: nat,
    more: nat,
    variables: Seq<VariableId>,
)
    requires
        count <= more <= components.len(),
        components_mention(components, count, variables),
    ensures
        components_mention(components, more, variables),
    decreases more - count,
{
    if count < more {
        lemma_components_mention_grows(components, count, (more - 1) as nat, variables);
    }
}

/// The scalar targets an lvalue assigns, in source order: the components of a tuple, nested
/// tuples flattened and omitted components skipped; parentheses are transparent.
pub open spec fn assignment_targets(target: SourceExpr) -> Seq<SourceExpr>
    decreases target, 0nat,
{
    match target.kind {
        SourceExprKind::Tuple(components) => if components@.len() == 1 && components@[0] is Some {
            assignment_targets(components@[0]->0)
        } else {
            component_targets(components@, components@.len())
        },
        _ => seq![target],
    }
}

/// The scalar targets of the first `count` components of a tuple target.
pub open spec fn component_targets(components: Seq<Option<SourceExpr>>, count: nat) -> Seq<SourceExpr>
    decreases components, count,
{
    if count == 0 || count > components.len() {
        Seq::empty()
    } else {
        component_targets(components, (count - 1) as nat) + match components[count - 1] {
            Some(component) => assignment_targets(component),
            None => Seq::empty(),
        }
    }
}

/// The places of those `targets` that denote one, in order.
pub open spec fn target_places(targets: Seq<SourceExpr>) -> Seq<PlaceView>
    decreases targets.len(),
{
    if targets.len() == 0 {
        Seq::empty()
    } else {
        target_places(targets.drop_last()) + match place_of(targets.last()) {
            Some(place) => seq![place],
            None => Seq::empty(),
        }
    }
}

/// The places assigned by an lvalue, tuple components included.
pub open spec fn assigned_place_views(target: SourceExpr) -> Seq<PlaceView> {
    target_places(assignment_targets(target))
}

/// The abstract form of a list of places.
pub open spec fn place_views(places: Seq<Place>) -> Seq<PlaceView> {
    places.map_values(|place: Place| place@)
}

/// Whether the root of each of `places` has a declaration in `variables`.
pub open spec fn roots_declared(places: Seq<PlaceView>, variables: Seq<Variable>) -> bool {
    forall|i: int| 0 <= i < places.len() ==> ((#[trigger] places[i]).0.0 as int) < variables.len()
}

/// Those of `places` that are backed by storage or transient state, in order.
pub open spec fn backed_places(places: Seq<PlaceView>, variables: Seq<Variable>) -> Seq<PlaceView>
    decreases places.len(),
{
    if places.len() == 0 {
        Seq::empty()
    } else {
        backed_places(places.drop_last(), variables) + if state_backed(
            variables[places.last().0.0 as int],
        ) {
            seq![places.last()]
        } else {
            Seq::empty()
        }
    }
}

/// The roots of those of `places` whose root is a state variable, in order.
pub open spec fn state_roots(places: Seq<PlaceView>, variables: Seq<Variable>) -> Seq<VariableId>
    decreases places.len(),
{
    if places.len() == 0 {
        Seq::empty()
    } else {
        state_roots(places.drop_last(), variables) + if variables[places.last().0.0 as int].kind is State {
            seq![places.last().0]
        } else {
            Seq::empty()
        }
    }
}

/// The places of a concatenation are those of each part, in order.
proof fn lemma_target_places_concat(lhs: Seq<SourceExpr>, rhs: Seq<SourceExpr>)
    ensures
        target_places(lhs + rhs) == target_places(lhs) + target_places(rhs),
    decreases rhs.len(),
{
    if rhs.len() == 0 {
        assert(lhs + rhs =~= lhs);
        assert(target_places(lhs) + target_places(rhs) =~= target_places(lhs));
    } else {
        lemma_target_places_concat(lhs, rhs.drop_last());
        assert((lhs + rhs).drop_last() =~= lhs + rhs.drop_last());
        assert((lhs + rhs).last() == rhs.last());
        let tail = match place_of(rhs.last()) {
            Some(place) => seq![place],
            None => Seq::<PlaceView>::empty(),
        };
        assert(target_places(lhs) + target_places(rhs.drop_last()) + tail =~= target_places(lhs) + (
        target_places(rhs.drop_last()) + tail));
    }
}

impl SourceExpr {
    /// Peels off the parentheses enclosing the expression.
    pub fn peel_parens(&self) -> (inner: &SourceExpr)
        ensures
            *inner == unparenthesized(*self),
        decreases self,
    {
        match &self.kind {
            SourceExprKind::Tuple(components) => {
                if components.len() == 1 {
                    match &components[0] {
                        Some(inner) => inner.peel_parens(),
                        None => self,
                    }
                } else {
                    self
                }
            },
            _ => self,
        }
    }
}

/// Peels parentheses, `payable(...)` and explicit type conversions from an expression.
pub fn peel_type_conversions(expr: &SourceExpr) -> (inner: &SourceExpr)
    ensures
        *inner == without_conversions(*expr),
    decreases expr,
{
    match &expr.kind {
        SourceExprKind::Tuple(components) => {
            if components.len() == 1 {
                match &components[0] {
                    Some(inner) => peel_type_conversions(inner),
                    None => expr,
                }
            } else {
                expr
            }
        },
        SourceExprKind::Payable(inner) => peel_type_conversions(inner),
        SourceExprKind::Call(_, args, options, conversion, _) => {
            if options.is_none() && conversion.is_some() && args.len() == 1 {
                peel_type_conversions(&args[0])
            } else {
                expr
            }
        },
        _ => expr,
    }
}

/// Peels only the explicit conversions that are injective over the operand's type.
///
/// Unlike [`peel_type_conversions`], this suits equality proofs: equality after an injective
/// conversion implies equality before it. Narrowing integer and fixed-bytes casts are kept.
pub fn peel_injective_type_conversions(expr: &SourceExpr) -> (inner: &SourceExpr)
    ensures
        *inner == without_injective_conversions(*expr),
    decreases expr,
{
    match &expr.kind {
        SourceExprKind::Tuple(components) => {
            if components.len() == 1 {
                match &components[0] {
                    Some(inner) => peel_injective_type_conversions(inner),
                    None => expr,
                }
            } else {
                expr
            }
        },
        SourceExprKind::Payable(inner) => peel_injective_type_conversions(inner),
        SourceExprKind::Call(_, args, options, conversion, _) => {
            if options.is_none() && args.len() == 1 {
                match (conversion, &args[0].ty) {
                    (Some(conversion), Some(source)) => {
                        if conversion_is_injective(conversion.same_type, source, &conversion.target) {
                            peel_injective_type_conversions(&args[0])
                        } else {
                            expr
                        }
                    },
                    _ => expr,
                }
            } else {
                expr
            }
        },
        _ => expr,
    }
}

/// Returns whether `expr` denotes the executing contract's own address.
///
/// Parentheses and injective address, payable and contract conversions are transparent; lossy
/// conversions are kept because they can change the address. Yul's `address()` builtin is the
/// inline-assembly form of `address(this)`.
pub fn expr_is_self_address(expr: &SourceExpr) -> (is_self: bool)
    ensures
        is_self == match without_injective_conversions(*expr).kind {
            SourceExprKind::Ident(_, is_this) => is_this,
            SourceExprKind::Call(_, _, _, _, yul_address) => yul_address,
            _ => false,
        },
{
    let expr = peel_injective_type_conversions(expr);
    match &expr.kind {
        SourceExprKind::Ident(_, is_this) => *is_this,
        SourceExprKind::Call(_, _, _, _, yul_address) => *yul_address,
        _ => false,
    }
}

/// Returns the identifier of an optional expression.
fn optional_expr_id(expr: &Option<Box<SourceExpr>>) -> (id: Option<ExprId>)
    ensures
        id == optional_id(*expr),
{
    match expr {
        Some(expr) => Some(expr.id),
        None => None,
    }
}

/// Returns the source-level place denoted by `expr`.
///
/// Parentheses are transparent. Casts, calls and other computed values are rvalues and have no
/// place; [`expr_underlying_place`] looks through type conversions.
pub fn expr_place(expr: &SourceExpr) -> (place: Option<Place>)
    ensures
        place_view(place) == place_of(*expr),
    decreases expr,
{
    match &expr.kind {
        SourceExprKind::Tuple(components) => {
            if components.len() == 1 {
                match &components[0] {
                    Some(inner) => expr_place(inner),
                    None => None,
                }
            } else {
                None
            }
        },
        SourceExprKind::Ident(variables, _) => {
            if variables.len() == 1 {
                Some(Place::from_local(variables[0]))
            } else {
                None
            }
        },
        SourceExprKind::Member(base, name, variable) => match expr_place(base) {
            Some(mut place) => {
                place.push_projection(ProjectionElem::Field { name: *name, variable: *variable });
                Some(place)
            },
            None => None,
        },
        SourceExprKind::Index(base, index) => match expr_place(base) {
            Some(mut place) => {
                place.push_projection(ProjectionElem::Index(optional_expr_id(index)));
                Some(place)
            },
            None => None,
        },
        SourceExprKind::Slice(base, start, end) => match expr_place(base) {
            Some(mut place) => {
                place.push_projection(
                    ProjectionElem::Slice { start: optional_expr_id(start), end: optional_expr_id(end) },
                );
                Some(place)
            },
            None => None,
        },
        _ => None,
    }
}

/// Returns the source-level place underlying transparent type conversions in `expr`.
pub fn expr_underlying_place(expr: &SourceExpr) -> (place: Option<Place>)
    ensures
        place_view(place) == place_of(without_conversions(*expr)),
{
    expr_place(peel_type_conversions(expr))
}

/// Returns the root variable of an optional place.
fn place_root(place: Option<Place>) -> (root: Option<VariableId>)
    ensures
        root == root_of(place_view(place)),
{
    match place {
        Some(place) => Some(place.local()),
        None => None,
    }
}

/// Returns the variable at the root of a source-level place expression.
pub fn expr_root_variable(expr: &SourceExpr) -> (root: Option<VariableId>)
    ensures
        root == root_of(place_of(*expr)),
{
    place_root(expr_place(expr))
}

/// Returns the root variable after peeling transparent type conversions.
pub fn expr_underlying_variable(expr: &SourceExpr) -> (root: Option<VariableId>)
    ensures
        root == root_of(place_of(without_conversions(*expr))),
{
    place_root(expr_underlying_place(expr))
}

/// Returns the root variable after peeling only injective explicit conversions.
pub fn expr_injective_underlying_variable(expr: &SourceExpr) -> (root: Option<VariableId>)
    ensures
        root == root_of(place_of(without_injective_conversions(*expr))),
{
    place_root(expr_place(peel_injective_type_conversions(expr)))
}

/// Returns the statically typed contract behind transparent address and payable conversions.
pub fn expr_underlying_contract(expr: &SourceExpr) -> (contract: Option<ContractId>)
    ensures
        contract == without_conversions(*expr).contract,
{
    peel_type_conversions(expr).contract
}

/// Returns whether `variable` is one of `variables`.
fn contains_variable(variables: &[VariableId], variable: VariableId) -> (found: bool)
    ensures
        found == variables@.contains(variable),
{
    let mut i: usize = 0;
    while i < variables.len()
        invariant
            0 <= i <= variables@.len(),
            forall|j: int| 0 <= j < i ==> variables@[j] != variable,
        decreases variables@.len() - i,
    {
        if variables[i] == variable {
            return true;
        }
        i += 1;
    }
    false
}

/// Returns whether the root of `expr` is one of `variables`.
pub fn expr_root_is_any_variable(expr: &SourceExpr, variables: &[VariableId]) -> (is_root: bool)
    ensures
        is_root == match root_of(place_of(*expr)) {
            Some(root) => variables@.contains(root),
            None => false,
        },
{
    match expr_root_variable(expr) {
        Some(root) => contains_variable(variables, root),
        None => false,
    }
}

/// Returns whether the root of `expr` is `variable`.
pub fn expr_root_is_variable(expr: &SourceExpr, variable: VariableId) -> (is_root: bool)
    ensures
        is_root == (root_of(place_of(*expr)) == Some(variable)),
{
    match expr_root_variable(expr) {
        Some(root) => root == variable,
        None => false,
    }
}

/// Returns whether one of `resolved` is one of `variables`.
fn any_variable_in(resolved: &Vec<VariableId>, variables: &[VariableId]) -> (found: bool)
    ensures
        found == exists|i: int| 0 <= i < resolved@.len() && variables@.contains(#[trigger] resolved@[i]),
{
    let mut i: usize = 0;
    while i < resolved.len()
        invariant
            0 <= i <= resolved@.len(),
            forall|j: int| 0 <= j < i ==> !variables@.contains(#[trigger] resolved@[j]),
        decreases resolved@.len() - i,
    {
        if contains_variable(variables, resolved[i]) {
            return true;
        }
        i += 1;
    }
    false
}

/// Returns whether one of `list` mentions one of `variables`.
fn list_mentions_any(list: &Vec<SourceExpr>, variables: &[VariableId]) -> (found: bool)
    ensures
        found == list_mentions(list@, list@.len(), variables@),
    decreases list@, 1nat,
{
    let mut i: usize = 0;
    while i < list.len()
        invariant
            0 <= i <= list@.len(),
            !list_mentions(list@, i as nat, variables@),
        decreases list@.len() - i,
    {
        proof {
            assert(decreases_to!(list@ => list@[i as int]));
        }
        if expr_mentions_any_variable(&list[i], variables) {
            proof {
                lemma_list_mentions_grows(list@, (i + 1) as nat, list@.len(), variables@);
            }
            return true;
        }
        i += 1;
    }
    false
}

/// Returns whether one of the components of a tuple mentions one of `variables`.
fn components_mention_any(components: &Vec<Option<SourceExpr>>, variables: &[VariableId]) -> (found: bool)
    ensures
        found == components_mention(components@, components@.len(), variables@),
    decreases components@, 1nat,
{
    let mut i: usize = 0;
    while i < components.len()
        invariant
            0 <= i <= components@.len(),
            !components_mention(components@, i as nat, variables@),
        decreases components@.len() - i,
    {
        match &components[i] {
            Some(component) => {
                proof {
                    let element = components@[i as int];
                    assert(decreases_to!(components@ => element));
                    assert(decreases_to!(element => element->0));
                }
                if expr_mentions_any_variable(component, variables) {
                    proof {
                        lemma_components_mention_grows(components@, (i + 1) as nat, components@.len(), variables@);
                    }
                    return true;
                }
            },
            None => {},
        }
        i += 1;
    }
    false
}

/// Returns whether an optional subexpression mentions one of `variables`.
fn optional_mentions_any(expr: &Option<Box<SourceExpr>>, variables: &[VariableId]) -> (found: bool)
    ensures
        found == optional_mentions(*expr, variables@),
    decreases *expr, 1nat,
{
    match expr {
        Some(inner) => expr_mentions_any_variable(inner, variables),
        None => false,
    }
}

/// Returns whether `expr` mentions any variable in `variables`: whether an identifier in it
/// resolves to one of them.
pub fn expr_mentions_any_variable(expr: &SourceExpr, variables: &[VariableId]) -> (found: bool)
    ensures
        found == mentions(*expr, variables@),
    decreases *expr, 2nat,
{
    match &expr.kind {
        SourceExprKind::Ident(resolved, _) => any_variable_in(resolved, variables),
        SourceExprKind::Member(base, _, _) => expr_mentions_any_variable(base, variables),
        SourceExprKind::Index(base, index) => expr_mentions_any_variable(base, variables)
            || optional_mentions_any(index, variables),
        SourceExprKind::Slice(base, start, end) => expr_mentions_any_variable(base, variables)
            || optional_mentions_any(start, variables) || optional_mentions_any(end, variables),
        SourceExprKind::Tuple(components) => components_mention_any(components, variables),
        SourceExprKind::Payable(inner) => expr_mentions_any_variable(inner, variables),
        SourceExprKind::Call(callee, args, options, _, _) => {
            if expr_mentions_any_variable(callee, variables) || list_mentions_any(args, variables) {
                return true;
            }
            match options {
                Some(options) => list_mentions_any(options, variables),
                None => false,
            }
        },
        SourceExprKind::Other(children) => list_mentions_any(children, variables),
    }
}

/// Appends the places assigned by `target` to `places`.
fn collect_assigned_places(target: &SourceExpr, places: &mut Vec<Place>)
    ensures
        place_views(final(places)@) == place_views(old(places)@) + assigned_place_views(*target),
    decreases target,
{
    let ghost start = place_views(places@);
    match &target.kind {
        SourceExprKind::Tuple(components) => {
            if components.len() == 1 && components[0].is_some() {
                match &components[0] {
                    Some(inner) => collect_assigned_places(inner, places),
                    None => {},
                }
                return;
            }
            let mut i: usize = 0;
            proof {
                assert(place_views(places@) =~= start + target_places(component_targets(components@, 0)));
            }
            while i < components.len()
                invariant
                    0 <= i <= components@.len(),
                    target.kind is Tuple,
                    target.kind->Tuple_0 == *components,
                    !(components@.len() == 1 && components@[0] is Some),
                    place_views(places@) == start + target_places(component_targets(components@, i as nat)),
                decreases components@.len() - i,
            {
                let ghost before = component_targets(components@, i as nat);
                match &components[i] {
                    Some(component) => {
                        proof {
                            let element = components@[i as int];
                            assert(decreases_to!(*target => target.kind));
                            assert(decreases_to!(target.kind => target.kind->Tuple_0));
                            assert(decreases_to!(*components => components@));
                            assert(decreases_to!(components@ => element));
                            assert(decreases_to!(element => element->0));
                        }
                        collect_assigned_places(component, places);
                        proof {
                            lemma_target_places_concat(before, assignment_targets(*component));
                            assert(place_views(places@) =~= start + target_places(
                                component_targets(components@, (i + 1) as nat),
                            ));
                        }
                    },
                    None => {
                        proof {
                            assert(component_targets(components@, (i + 1) as nat) =~= before);
                        }
                    },
                }
                i += 1;
            }
        },
        _ => {
            proof {
                let single = seq![*target];
                assert(assignment_targets(*target) == single);
                assert(single.drop_last() =~= Seq::<SourceExpr>::empty());
                assert(single.last() == *target);
                assert(target_places(Seq::<SourceExpr>::empty()) == Seq::<PlaceView>::empty());
                assert(assigned_place_views(*target) =~= match place_of(*target) {
                    Some(place) => seq![place],
                    None => Seq::<PlaceView>::empty(),
                });
            }
            match expr_place(target) {
                Some(place) => {
                    places.push(place);
                    proof {
                        assert(place_views(places@) =~= start + assigned_place_views(*target));
                    }
                },
                None => {
                    proof {
                        assert(place_views(places@) =~= start + assigned_place_views(*target));
                    }
                },
            }
        },
    }
}

/// Returns the source places assigned by an lvalue, including tuple components.
pub fn assigned_places(expr: &SourceExpr) -> (places: Vec<Place>)
    ensures
        place_views(places@) == assigned_place_views(*expr),
{
    let mut places: Vec<Place> = Vec::new();
    collect_assigned_places(expr, &mut places);
    proof {
        assert(place_views(Seq::<Place>::empty()) + assigned_place_views(*expr) =~= assigned_place_views(*expr));
    }
    places
}

/// Returns the root variables assigned by an lvalue, including tuple components.
pub fn assigned_variables(expr: &SourceExpr) -> (roots: Vec<VariableId>)
    ensures
        roots@ == assigned_place_views(*expr).map_values(|place: PlaceView| place.0),
{
    let places = assigned_places(expr);
    let mut roots: Vec<VariableId> = Vec::new();
    let mut i: usize = 0;
    while i < places.len()
        invariant
            0 <= i <= places@.len(),
            roots@ == place_views(places@).subrange(0, i as int).map_values(|place: PlaceView| place.0),
        decreases places@.len() - i,
    {
        roots.push(places[i].local());
        proof {
            assert(roots@ =~= place_views(places@).subrange(0, i + 1).map_values(|place: PlaceView| place.0));
        }
        i += 1;
    }
    proof {
        assert(place_views(places@).subrange(0, places@.len() as int) =~= place_views(places@));
    }
    roots
}

/// Returns the source places assigned by an lvalue which are backed by persistent or transient
/// storage; `variables` holds the declarations, each at the index of its identifier.
pub fn assigned_state_backed_places(expr: &SourceExpr, variables: &[Variable]) -> (places: Vec<Place>)
    requires
        roots_declared(assigned_place_views(*expr), variables@),
    ensures
        place_views(places@) == backed_places(assigned_place_views(*expr), variables@),
{
    let all = assigned_places(expr);
    let ghost views = place_views(all@);
    let mut places: Vec<Place> = Vec::new();
    let mut i: usize = 0;
    while i < all.len()
        invariant
            0 <= i <= all@.len(),
            views == place_views(all@),
            roots_declared(views, variables@),
            place_views(places@) == backed_places(views.subrange(0, i as int), variables@),
        decreases all@.len() - i,
    {
        let ghost prefix = views.subrange(0, i + 1);
        proof {
            assert(prefix.drop_last() =~= views.subrange(0, i as int));
            assert(prefix.last() == all@[i as int]@);
            assert(views[i as int] == all@[i as int]@);
        }
        if all[i].is_state_backed(variables) {
            places.push(all[i].duplicate());
            proof {
                assert(place_views(places@) =~= backed_places(prefix, variables@));
            }
        } else {
            proof {
                assert(place_views(places@) =~= backed_places(prefix, variables@));
            }
        }
        i += 1;
    }
    proof {
        assert(views.subrange(0, all@.len() as int) =~= views);
    }
    places
}

/// Returns the state-variable roots assigned by an lvalue; `variables` holds the declarations,
/// each at the index of its identifier.
pub fn assigned_state_variables(expr: &SourceExpr, variables: &[Variable]) -> (roots: Vec<VariableId>)
    requires
        roots_declared(assigned_place_views(*expr), variables@),
    ensures
        roots@ == state_roots(assigned_place_views(*expr), variables@),
{
    let all = assigned_places(expr);
    let ghost views = place_views(all@);
    let mut roots: Vec<VariableId> = Vec::new();
    let mut i: usize = 0;
    while i < all.len()
        invariant
            0 <= i <= all@.len(),
            views == place_views(all@),
            roots_declared(views, variables@),
            roots@ == state_roots(views.subrange(0, i as int), variables@),
        decreases all@.len() - i,
    {
        let ghost prefix = views.subrange(0, i + 1);
        proof {
            assert(prefix.drop_last() =~= views.subrange(0, i as int));
            assert(prefix.last() == all@[i as int]@);
            assert(views[i as int] == all@[i as int]@);
        }
        if all[i].is_state(variables) {
            roots.push(all[i].local());
            proof {
                assert(roots@ =~= state_roots(prefix, variables@));
            }
        } else {
            proof {
                assert(roots@ =~= state_roots(prefix, variables@));
            }
        }
        i += 1;
    }
    proof {
        assert(views.subrange(0, all@.len() as int) =~= views);
    }
    roots
}

/// Returns whether `expr` mentions `variable`.
pub fn expr_mentions_variable(expr: &SourceExpr, variable: VariableId) -> (found: bool)
    ensures
        found == mentions(*expr, seq![variable]),
{
    let variables = [variable];
    proof {
        assert(variables@ =~= seq![variable]);
    }
    expr_mentions_any_variable(expr, &variables)
}

/// A mention by one expression of `list` is a mention by the whole list.
proof fn lemma_list_mention_at(list: Seq<SourceExpr>, index: int, variables: Seq<VariableId>)
    requires
        0 <= index < list.len(),
        mentions(list[index], variables),
    ensures
        list_mentions(list, list.len(), variables),
{
    assert(list_mentions(list, (index + 1) as nat, variables));
    lemma_list_mentions_grows(list, (index + 1) as nat, list.len(), variables);
}

/// Whether one of the expressions of `list` mentions one of `variables`.
pub open spec fn some_mention(list: Seq<SourceExpr>, variables: Seq<VariableId>) -> bool {
    exists|i: int| 0 <= i < list.len() && mentions(#[trigger] list[i], variables)
}

/// Whether one of the present components of a tuple mentions one of `variables`.
pub open spec fn some_component_mention(components: Seq<Option<SourceExpr>>, variables: Seq<VariableId>) -> bool {
    exists|i: int| 0 <= i < components.len() && (#[trigger] components[i]) is Some && mentions(components[i]->0, variables)
}

/// An expression mentions every variable that one of its subexpressions mentions: a member
/// access `base.m` and `payable(base)` mention what `base` mentions; an index access or a slice
/// what its base or its bounds mention; a tuple what one of its components mentions; a call what
/// its callee, one of its arguments or one of its call options mentions; any other expression
/// what one of its subexpressions mentions.
pub proof fn lemma_mentions_subexpressions(expr: SourceExpr, variables: Seq<VariableId>)
    ensures
        match expr.kind {
            SourceExprKind::Ident(..) => true,
            SourceExprKind::Member(base, _, _) => mentions(*base, variables) ==> mentions(expr, variables),
            SourceExprKind::Payable(base) => mentions(*base, variables) ==> mentions(expr, variables),
            SourceExprKind::Index(base, index) => mentions(*base, variables) || optional_mentions(index, variables)
                ==> mentions(expr, variables),
            SourceExprKind::Slice(base, start, end) => mentions(*base, variables) || optional_mentions(start, variables)
                || optional_mentions(end, variables) ==> mentions(expr, variables),
            SourceExprKind::Tuple(components) => some_component_mention(components@, variables) ==> mentions(
                expr,
                variables,
            ),
            SourceExprKind::Call(callee, args, options, _, _) => mentions(*callee, variables) || some_mention(
                args@,
                variables,
            ) || (options is Some && some_mention(options->0@, variables)) ==> mentions(expr, variables),
            SourceExprKind::Other(children) => some_mention(children@, variables) ==> mentions(expr, variables),
        },
{
    match expr.kind {
        SourceExprKind::Tuple(components) => {
            if some_component_mention(components@, variables) {
                let i = choose|i: int|
                    0 <= i < components@.len() && (#[trigger] components@[i]) is Some && mentions(
                        components@[i]->0,
                        variables,
                    );
                assert(components_mention(components@, (i + 1) as nat, variables));
                lemma_components_mention_grows(components@, (i + 1) as nat, components@.len(), variables);
            }
        },
        SourceExprKind::Call(callee, args, options, _, _) => {
            if some_mention(args@, variables) {
                let i = choose|i: int| 0 <= i < args@.len() && mentions(#[trigger] args@[i], variables);
                lemma_list_mention_at(args@, i, variables);
            }
            if let Some(options) = options {
                if some_mention(options@, variables) {
                    let i = choose|i: int| 0 <= i < options@.len() && mentions(#[trigger] options@[i], variables);
                    lemma_list_mention_at(options@, i, variables);
                }
            }
        },
        SourceExprKind::Other(children) => {
            if some_mention(children@, variables) {
                let i = choose|i: int| 0 <= i < children@.len() && mentions(#[trigger] children@[i], variables);
                lemma_list_mention_at(children@, i, variables);
            }
        },
        _ => {},
    }
}

/// An expression that denotes a place mentions the place's root variable: `s.balance` mentions
/// `s`, and so does `s.accounts[i].owner`.
pub proof fn lemma_place_root_is_mentioned(expr: SourceExpr, variables: Seq<VariableId>)
    requires
        place_of(expr) matches Some(place) && variables.contains(place.0),
    ensures
        mentions(expr, variables),
    decreases expr,
{
    lemma_mentions_subexpressions(expr, variables);
    match expr.kind {
        SourceExprKind::Tuple(components) => {
            let component = components@[0]->0;
            lemma_place_root_is_mentioned(component, variables);
            assert(some_component_mention(components@, variables));
        },
        SourceExprKind::Ident(resolved, _) => {
            assert(variables.contains(resolved@[0]));
        },
        SourceExprKind::Member(base, _, _) => {
            lemma_place_root_is_mentioned(*base, variables);
        },
        SourceExprKind::Index(base, _) => {
            lemma_place_root_is_mentioned(*base, variables);
        },
        SourceExprKind::Slice(base, _, _) => {
            lemma_place_root_is_mentioned(*base, variables);
        },
        _ => {},
    }
}

} // verus!
