//! Normalized source conditions for HIR analyses.

use vstd::prelude::*;

use crate::ids::ExprId;
use crate::lattice::JoinSemiLattice;

verus! {

/// A binary operator of Solidity.
#[derive(Clone, Copy, Debug, PartialEq, Eq, Hash, Structural)]
pub enum BinOpKind {
    /// `<`
    Lt,
    /// `<=`
    Le,
    /// `>`
    Gt,
    /// `>=`
    Ge,
    /// `==`
    Eq,
    /// `!=`
    Ne,
    /// `||`
    Or,
    /// `&&`
    And,
    /// `|`
    BitOr,
    /// `^`
    BitXor,
    /// `&`
    BitAnd,
    /// `<<`
    Shl,
    /// `>>`
    Shr,
    /// `>>>`
    Sar,
    /// `+`
    Add,
    /// `-`
    Sub,
    /// `**`
    Pow,
    /// `*`
    Mul,
    /// `/`
    Div,
    /// `%`
    Rem,
}

/// Whether `op` is one of the six comparison operators.
pub open spec fn is_comparison(op: BinOpKind) -> bool {
    op is Lt || op is Le || op is Gt || op is Ge || op is Eq || op is Ne
}

/// The operator whose truth value is the negation of `op` on the same operands.
pub open spec fn spec_negate_comparison(op: BinOpKind) -> BinOpKind {
    match op {
        BinOpKind::Lt => BinOpKind::Ge,
        BinOpKind::Le => BinOpKind::Gt,
        BinOpKind::Gt => BinOpKind::Le,
        BinOpKind::Ge => BinOpKind::Lt,
        BinOpKind::Eq => BinOpKind::Ne,
        BinOpKind::Ne => BinOpKind::Eq,
        _ => op,
    }
}

/// The operator with the same truth value as `op` when the operands are swapped.
pub open spec fn spec_reverse_comparison(op: BinOpKind) -> BinOpKind {
    match op {
        BinOpKind::Lt => BinOpKind::Gt,
        BinOpKind::Le => BinOpKind::Ge,
        BinOpKind::Gt => BinOpKind::Lt,
        BinOpKind::Ge => BinOpKind::Le,
        _ => op,
    }
}

/// The truth value of comparing two integers with `op`.
pub open spec fn compare_ints(lhs: int, op: BinOpKind, rhs: int) -> bool {
    match op {
        BinOpKind::Lt => lhs < rhs,
        BinOpKind::Le => lhs <= rhs,
        BinOpKind::Gt => lhs > rhs,
        BinOpKind::Ge => lhs >= rhs,
        BinOpKind::Eq => lhs == rhs,
        BinOpKind::Ne => lhs != rhs,
        _ => false,
    }
}

/// Negates a comparison operator; other operators are returned unchanged.
pub fn negate_comparison(op: BinOpKind) -> (negated: BinOpKind)
    ensures
        negated == spec_negate_comparison(op),
{
    match op {
        BinOpKind::Lt => BinOpKind::Ge,
        BinOpKind::Le => BinOpKind::Gt,
        BinOpKind::Gt => BinOpKind::Le,
        BinOpKind::Ge => BinOpKind::Lt,
        BinOpKind::Eq => BinOpKind::Ne,
        BinOpKind::Ne => BinOpKind::Eq,
        _ => op,
    }
}

/// Reverses a comparison operator's operand order; other operators are returned unchanged.
pub fn reverse_comparison(op: BinOpKind) -> (reversed: BinOpKind)
    ensures
        reversed == spec_reverse_comparison(op),
{
    match op {
        BinOpKind::Lt => BinOpKind::Gt,
        BinOpKind::Le => BinOpKind::Ge,
        BinOpKind::Gt => BinOpKind::Lt,
        BinOpKind::Ge => BinOpKind::Le,
        _ => op,
    }
}

/// Negation and reversal are involutions that commute, and they map comparisons to comparisons.
pub proof fn lemma_comparison_operator_algebra(op: BinOpKind)
    ensures
        spec_negate_comparison(spec_negate_comparison(op)) == op,
        spec_reverse_comparison(spec_reverse_comparison(op)) == op,
        spec_negate_comparison(spec_reverse_comparison(op)) == spec_reverse_comparison(
            spec_negate_comparison(op),
        ),
        is_comparison(op) ==> is_comparison(spec_negate_comparison(op)),
        is_comparison(op) ==> is_comparison(spec_reverse_comparison(op)),
        !is_comparison(op) ==> spec_negate_comparison(op) == op && spec_reverse_comparison(op) == op,
{
}

/// A negated comparison holds exactly when the comparison does not, and a reversed comparison
/// holds on swapped operands exactly when the comparison holds.
pub proof fn lemma_comparison_operator_meaning(lhs: int, op: BinOpKind, rhs: int)
    requires
        is_comparison(op),
    ensures
        compare_ints(lhs, spec_negate_comparison(op), rhs) == !compare_ints(lhs, op, rhs),
        compare_ints(rhs, spec_reverse_comparison(op), lhs) == compare_ints(lhs, op, rhs),
{
}

/// A source-level comparison with explicit operand order and polarity.
#[derive(Clone, Copy, Debug, PartialEq, Eq, Structural)]
pub struct Comparison {
    /// The left operand.
    pub lhs: ExprId,
    /// The comparison operator.
    pub op: BinOpKind,
    /// The right operand.
    pub rhs: ExprId,
}

impl Comparison {
    /// The comparison with swapped operands and the same meaning.
    pub open spec fn spec_reversed(self) -> Comparison {
        Comparison { lhs: self.rhs, op: spec_reverse_comparison(self.op), rhs: self.lhs }
    }

    /// The negated comparison.
    pub open spec fn spec_negated(self) -> Comparison {
        Comparison { op: spec_negate_comparison(self.op), ..self }
    }

    /// Extracts a comparison from `expr` after peeling parentheses.
    pub fn from_expr(expr: &CondExpr) -> (comparison: Option<Self>)
        ensures
            comparison == spec_comparison_of(*expr),
        decreases expr,
    {
        match &expr.kind {
            CondKind::Paren(inner) => Self::from_expr(inner),
            CondKind::Binary(lhs, op, rhs) => {
                let op = *op;
                if matches!(
                    op,
                    BinOpKind::Lt | BinOpKind::Le | BinOpKind::Gt | BinOpKind::Ge | BinOpKind::Eq
                        | BinOpKind::Ne
                ) {
                    Some(Comparison { lhs: lhs.id, op, rhs: rhs.id })
                } else {
                    None
                }
            },
            _ => None,
        }
    }

    /// Reverses the operand order while preserving meaning.
    pub fn reversed(self) -> (reversed: Self)
        ensures
            reversed == self.spec_reversed(),
    {
        Comparison { lhs: self.rhs, op: reverse_comparison(self.op), rhs: self.lhs }
    }

    /// Negates the comparison.
    pub fn negated(self) -> (negated: Self)
        ensures
            negated == self.spec_negated(),
    {
        Comparison { lhs: self.lhs, op: negate_comparison(self.op), rhs: self.rhs }
    }

    /// Returns this comparison and its equivalent reversed form.
    pub fn orientations(self) -> (orientations: [Self; 2])
        ensures
            orientations@ == seq![self, self.spec_reversed()],
    {
        let orientations = [self, self.reversed()];
        assert(orientations@ =~= seq![self, self.spec_reversed()]);
        orientations
    }
}

/// A boolean condition as seen by condition-edge refinement.
///
/// Parentheses, `!`, and binary operators are kept; every other expression is an opaque operand
/// identified by its HIR expression.
#[derive(Debug)]
pub struct CondExpr {
    /// The HIR expression.
    pub id: ExprId,
    /// The shape of the expression.
    pub kind: CondKind,
}

/// The shape of a [`CondExpr`].
#[derive(Debug)]
pub enum CondKind {
    /// A parenthesized expression: `(inner)`.
    Paren(Box<CondExpr>),
    /// A logical negation: `!inner`.
    Not(Box<CondExpr>),
    /// A binary operation: `lhs op rhs`.
    Binary(Box<CondExpr>, BinOpKind, Box<CondExpr>),
    /// Any other expression.
    Other,
}

/// The comparison denoted by `expr` after peeling parentheses, if it is one.
pub open spec fn spec_comparison_of(expr: CondExpr) -> Option<Comparison>
    decreases expr,
{
    match expr.kind {
        CondKind::Paren(inner) => spec_comparison_of(*inner),
        CondKind::Binary(lhs, op, rhs) => if is_comparison(op) {
            Some(Comparison { lhs: lhs.id, op, rhs: rhs.id })
        } else {
            None
        },
        _ => None,
    }
}

/// How one comparison refines a dataflow state.
pub trait ComparisonEffect<D: JoinSemiLattice> {
    /// The abstract state after applying `comparison` to `state`.
    spec fn spec_apply(&self, comparison: Comparison, state: D::V) -> D::V;

    /// Refines `state` with one comparison known to hold on the current edge.
    fn apply(&self, comparison: Comparison, state: &mut D)
        ensures
            final(state)@ == self.spec_apply(comparison, old(state)@),
    ;
}

/// The state after the comparison facts of a condition edge are applied.
///
/// Negations flip the edge value, the conjunctive forms of `&&` (true) and `||` (false) apply both
/// operands in order, and the disjunctive forms refine two copies of the state and join them.
pub open spec fn spec_condition_facts<D: JoinSemiLattice, A: ComparisonEffect<D>>(
    condition: CondExpr,
    value: bool,
    state: D::V,
    apply: A,
) -> D::V
    decreases condition,
{
    match condition.kind {
        CondKind::Paren(inner) => spec_condition_facts::<D, A>(*inner, value, state, apply),
        CondKind::Not(inner) => spec_condition_facts::<D, A>(*inner, !value, state, apply),
        CondKind::Binary(lhs, op, rhs) => if op is And || op is Or {
            if (op is And && value) || (op is Or && !value) {
                spec_condition_facts::<D, A>(
                    *rhs,
                    value,
                    spec_condition_facts::<D, A>(*lhs, value, state, apply),
                    apply,
                )
            } else {
                D::spec_join(
                    spec_condition_facts::<D, A>(*lhs, value, state, apply),
                    spec_condition_facts::<D, A>(*rhs, value, state, apply),
                )
            }
        } else if is_comparison(op) {
            let comparison = Comparison { lhs: lhs.id, op, rhs: rhs.id };
            apply.spec_apply(if value { comparison } else { comparison.spec_negated() }, state)
        } else {
            state
        },
        _ => state,
    }
}

/// Applies the comparison facts implied by a boolean condition edge.
///
/// Negations and the conjunctive forms of `&&` and `||` are decomposed directly. Disjunctive
/// forms refine separate states and join them, preserving soundness without requiring each
/// analysis to reimplement boolean-path handling.
pub fn apply_condition_facts<D: JoinSemiLattice, A: ComparisonEffect<D>>(
    condition: &CondExpr,
    value: bool,
    state: &mut D,
    apply: &A,
)
    ensures
        final(state)@ == spec_condition_facts::<D, A>(*condition, value, old(state)@, *apply),
    decreases condition,
{
    match &condition.kind {
        CondKind::Paren(inner) => {
            apply_condition_facts(inner, value, state, apply);
        },
        CondKind::Not(inner) => {
            apply_condition_facts(inner, !value, state, apply);
        },
        CondKind::Binary(lhs, op, rhs) => {
            let op = *op;
            if matches!(op, BinOpKind::And | BinOpKind::Or) {
                let conjunctive = matches!(op, BinOpKind::And) == value;
                if conjunctive {
                    apply_condition_facts(lhs, value, state, apply);
                    apply_condition_facts(rhs, value, state, apply);
                } else {
                    proof {
                        D::lemma_clone_preserves_view();
                    }
                    let mut left = state.clone();
                    proof {
                        assert(cloned(*state, left));
                    }
                    apply_condition_facts(lhs, value, &mut left, apply);
                    let mut right = state.clone();
                    proof {
                        assert(cloned(*state, right));
                    }
                    apply_condition_facts(rhs, value, &mut right, apply);
                    let _ = left.join(&right);
                    *state = left;
                }
            } else if matches!(
                op,
                BinOpKind::Lt | BinOpKind::Le | BinOpKind::Gt | BinOpKind::Ge | BinOpKind::Eq
                    | BinOpKind::Ne
            ) {
                let comparison = Comparison { lhs: lhs.id, op, rhs: rhs.id };
                apply.apply(if value { comparison } else { comparison.negated() }, state);
            }
        },
        CondKind::Other => {},
    }
}

/// A comparison condition refines the state with exactly one fact: on its true edge the
/// comparison itself, on its false edge the negated comparison. Its negation `!c` does the
/// opposite, so on the true edge of `!(a < b)` exactly `a >= b` is applied, and in general the
/// edge of `!c` with value `value` applies what the edge of `c` with value `!value` applies.
pub proof fn lemma_comparison_edge_facts<D: JoinSemiLattice, A: ComparisonEffect<D>>(
    condition: CondExpr,
    negation: CondExpr,
    value: bool,
    state: D::V,
    apply: A,
)
    requires
        negation.kind == CondKind::Not(Box::new(condition)),
    ensures
        spec_condition_facts::<D, A>(negation, value, state, apply) == spec_condition_facts::<D, A>(
            condition,
            !value,
            state,
            apply,
        ),
        spec_comparison_of(condition) matches Some(comparison) ==> {
            let negated = Comparison { lhs: comparison.lhs, op: spec_negate_comparison(comparison.op), rhs: comparison.rhs };
            &&& spec_condition_facts::<D, A>(condition, true, state, apply) == apply.spec_apply(comparison, state)
            &&& spec_condition_facts::<D, A>(condition, false, state, apply) == apply.spec_apply(negated, state)
            &&& spec_condition_facts::<D, A>(negation, true, state, apply) == apply.spec_apply(negated, state)
            &&& spec_condition_facts::<D, A>(negation, false, state, apply) == apply.spec_apply(comparison, state)
        },
    decreases condition,
{
    if let CondKind::Paren(inner) = condition.kind {
        let peeled = CondExpr { id: negation.id, kind: CondKind::Not(Box::new(*inner)) };
        lemma_comparison_edge_facts::<D, A>(*inner, peeled, value, state, apply);
        assert forall|edge: bool| #[trigger] spec_condition_facts::<D, A>(negation, edge, state, apply)
            == spec_condition_facts::<D, A>(peeled, edge, state, apply) by {
            assert(spec_condition_facts::<D, A>(negation, edge, state, apply) == spec_condition_facts::<D, A>(
                condition,
                !edge,
                state,
                apply,
            ));
            assert(spec_condition_facts::<D, A>(condition, !edge, state, apply) == spec_condition_facts::<D, A>(
                *inner,
                !edge,
                state,
                apply,
            ));
        }
        assert(spec_condition_facts::<D, A>(negation, true, state, apply) == spec_condition_facts::<D, A>(peeled, true, state, apply));
        assert(spec_condition_facts::<D, A>(negation, false, state, apply) == spec_condition_facts::<D, A>(peeled, false, state, apply));
    } else if let CondKind::Binary(lhs, op, rhs) = condition.kind {
        let comparison = Comparison { lhs: lhs.id, op, rhs: rhs.id };
        assert(comparison.spec_negated() == Comparison { lhs: comparison.lhs, op: spec_negate_comparison(comparison.op), rhs: comparison.rhs });
        assert(spec_condition_facts::<D, A>(negation, true, state, apply) == spec_condition_facts::<D, A>(condition, false, state, apply));
        assert(spec_condition_facts::<D, A>(negation, false, state, apply) == spec_condition_facts::<D, A>(condition, true, state, apply));
    }
}

} // verus!
