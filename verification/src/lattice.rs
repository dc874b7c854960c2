//! Join-semilattice domains and the exit states of forward dataflow over function bodies.

use vstd::prelude::*;

verus! {

/// A finite join-semilattice used as a forward dataflow domain.
///
/// `join` mutates `self` and returns whether the value changed. Domains must have finite height
/// (or otherwise guarantee convergence), and analysis transfer functions must be monotone: loop
/// and recursive-call fixpoints rely on both properties.
///
/// The abstract element of a value is its view; `spec_join` is the least upper bound on views.
pub trait JoinSemiLattice: View + Clone + Sized {
    /// The least upper bound of two abstract elements.
    spec fn spec_join(lhs: Self::V, rhs: Self::V) -> Self::V;

    /// Cloning a domain value preserves its abstract element.
    proof fn lemma_clone_preserves_view()
        ensures
            clone_preserves_view::<Self>(),
    ;

    /// Joins `other` into `self` and returns whether `self` changed.
    fn join(&mut self, other: &Self) -> (changed: bool)
        ensures
            final(self)@ == Self::spec_join(old(self)@, other@),
            changed == (final(self)@ != old(self)@),
    ;
}

impl JoinSemiLattice for bool {
    open spec fn spec_join(lhs: bool, rhs: bool) -> bool {
        lhs || rhs
    }

    proof fn lemma_clone_preserves_view() {
    }

    fn join(&mut self, other: &Self) -> (changed: bool) {
        let old_value = *self;
        *self = *self || *other;
        old_value != *self
    }
}

/// Boolean disjunction is a join: it is commutative, associative and idempotent, and it is the
/// least bound above both operands.
pub proof fn lemma_bool_join_laws(a: bool, b: bool, c: bool)
    ensures
        <bool as JoinSemiLattice>::spec_join(a, b) == <bool as JoinSemiLattice>::spec_join(b, a),
        <bool as JoinSemiLattice>::spec_join(<bool as JoinSemiLattice>::spec_join(a, b), c)
            == <bool as JoinSemiLattice>::spec_join(a, <bool as JoinSemiLattice>::spec_join(b, c)),
        <bool as JoinSemiLattice>::spec_join(a, a) == a,
        (a ==> <bool as JoinSemiLattice>::spec_join(a, b)) && (b ==> <bool as JoinSemiLattice>::spec_join(a, b)),
{
}

/// Controls how an internal call participates in an effective-body analysis.
#[derive(Clone, Copy, Debug, PartialEq, Eq, Structural)]
pub enum InternalCallMode {
    /// Do not analyze the callee.
    Skip,
    /// Analyze the callee and enable observations such as lint diagnostics.
    Analyze,
    /// Analyze the callee with reports disabled. Transfer functions still run.
    AnalyzeWithoutReports,
}

impl Default for InternalCallMode {
    fn default() -> (mode: Self)
        ensures
            mode == InternalCallMode::Analyze,
    {
        InternalCallMode::Analyze
    }
}

/// Controls how sibling expression operands are evaluated.
///
/// Solidity intentionally leaves most sibling operand order unspecified. Analyses whose result
/// depends on whether one sibling runs before another should select [`OperandOrder::Unspecified`].
#[derive(Clone, Copy, Debug, PartialEq, Eq, Structural)]
pub enum OperandOrder {
    /// Visit operands once in their source order.
    Source,
    /// Join every operand order.
    Unspecified,
}

impl Default for OperandOrder {
    fn default() -> (order: Self)
        ensures
            order == OperandOrder::Source,
    {
        OperandOrder::Source
    }
}

/// The abstract element of an optional domain value.
pub open spec fn opt_view<D: View>(value: Option<D>) -> Option<D::V> {
    match value {
        Some(d) => Some(d@),
        None => None,
    }
}

/// Joins two optional abstract elements, where `None` is an unreachable exit.
pub open spec fn opt_join<D: JoinSemiLattice>(dst: Option<D::V>, src: Option<D::V>) -> Option<D::V> {
    match (dst, src) {
        (None, src) => src,
        (Some(d), None) => Some(d),
        (Some(d), Some(s)) => Some(D::spec_join(d, s)),
    }
}

/// Cloning a domain value preserves its abstract element.
pub open spec fn clone_preserves_view<D: Clone + View>() -> bool {
    forall|a: D, b: D| #[trigger] cloned(a, b) ==> a@ == b@
}

/// Merges an optional exit state into `dst`: an absent side leaves the other unchanged, and two
/// present states are joined.
pub fn merge_opt<D: JoinSemiLattice>(dst: &mut Option<D>, src: Option<D>)
    ensures
        opt_view(*final(dst)) == opt_join::<D>(opt_view(*old(dst)), opt_view(src)),
{
    match src {
        None => {},
        Some(s) => {
            if dst.is_none() {
                *dst = Some(s);
            } else {
                let mut d = dst.take().unwrap();
                let _ = d.join(&s);
                *dst = Some(d);
            }
        },
    }
}

/// An unreachable exit is the unit of merging, on both sides.
pub proof fn lemma_opt_join_unit<D: JoinSemiLattice>(a: Option<D::V>)
    ensures
        opt_join::<D>(None, a) == a,
        opt_join::<D>(a, None) == a,
{
}

/// The exits of an analyzed statement or body: the states reaching the end of the body, explicit
/// `return`s, successful halts, `break`s and `continue`s. `None` means no path reaches the exit.
#[derive(Clone, Debug)]
pub struct Exits<D> {
    /// The state at the end of the analyzed code.
    pub fallthrough: Option<D>,
    /// The joined state of explicit `return` exits.
    pub return_: Option<D>,
    /// The joined state of successful EVM halts.
    pub halt_: Option<D>,
    /// The joined state of `break` exits.
    pub break_: Option<D>,
    /// The joined state of `continue` exits.
    pub continue_: Option<D>,
}

impl<D: JoinSemiLattice> Exits<D> {
    /// Exits where only the end of the code is reached, in `state`.
    pub fn fallthrough(state: D) -> (exits: Self)
        ensures
            exits.fallthrough == Some(state),
            exits.return_.is_none(),
            exits.halt_.is_none(),
            exits.break_.is_none(),
            exits.continue_.is_none(),
    {
        Exits { fallthrough: Some(state), return_: None, halt_: None, break_: None, continue_: None }
    }

    /// Exits where only a `break` is reached, in `state`.
    pub fn break_(state: D) -> (exits: Self)
        ensures
            exits.break_ == Some(state),
            exits.fallthrough.is_none(),
            exits.return_.is_none(),
            exits.halt_.is_none(),
            exits.continue_.is_none(),
    {
        Exits { fallthrough: None, return_: None, halt_: None, break_: Some(state), continue_: None }
    }

    /// Exits where only a `continue` is reached, in `state`.
    pub fn continue_(state: D) -> (exits: Self)
        ensures
            exits.continue_ == Some(state),
            exits.fallthrough.is_none(),
            exits.return_.is_none(),
            exits.halt_.is_none(),
            exits.break_.is_none(),
    {
        Exits { fallthrough: None, return_: None, halt_: None, break_: None, continue_: Some(state) }
    }

    /// Exits of code which always reverts: no exit is reached.
    pub fn abort() -> (exits: Self)
        ensures
            exits.fallthrough.is_none(),
            exits.return_.is_none(),
            exits.halt_.is_none(),
            exits.break_.is_none(),
            exits.continue_.is_none(),
    {
        Exits { fallthrough: None, return_: None, halt_: None, break_: None, continue_: None }
    }

    /// Merges every exit of `other` into the corresponding exit of `self`.
    pub fn merge(&mut self, other: Self)
        ensures
            opt_view(final(self).fallthrough) == opt_join::<D>(
                opt_view(old(self).fallthrough),
                opt_view(other.fallthrough),
            ),
            opt_view(final(self).return_) == opt_join::<D>(
                opt_view(old(self).return_),
                opt_view(other.return_),
            ),
            opt_view(final(self).halt_) == opt_join::<D>(
                opt_view(old(self).halt_),
                opt_view(other.halt_),
            ),
            opt_view(final(self).break_) == opt_join::<D>(
                opt_view(old(self).break_),
                opt_view(other.break_),
            ),
            opt_view(final(self).continue_) == opt_join::<D>(
                opt_view(old(self).continue_),
                opt_view(other.continue_),
            ),
    {
        merge_opt(&mut self.fallthrough, other.fallthrough);
        merge_opt(&mut self.return_, other.return_);
        merge_opt(&mut self.halt_, other.halt_);
        merge_opt(&mut self.break_, other.break_);
        merge_opt(&mut self.continue_, other.continue_);
    }

    /// The normal exits of a whole function body: its end, `return`s and halts.
    pub fn into_flow_result(self) -> (result: EffectiveFlowResult<D>)
        ensures
            result.spec_fallthrough() == self.fallthrough,
            result.spec_returned() == self.return_,
            result.spec_halted() == self.halt_,
    {
        EffectiveFlowResult {
            fallthrough: self.fallthrough,
            return_: self.return_,
            halt_: self.halt_,
        }
    }
}

/// The states reaching normal exits from an effective function body.
#[derive(Clone, Debug)]
pub struct EffectiveFlowResult<D> {
    pub(crate) fallthrough: Option<D>,
    pub(crate) return_: Option<D>,
    pub(crate) halt_: Option<D>,
}

impl<D> EffectiveFlowResult<D> {
    /// The state which reaches the end of the function body.
    pub closed spec fn spec_fallthrough(&self) -> Option<D> {
        self.fallthrough
    }

    /// The joined state of explicit `return` exits.
    pub closed spec fn spec_returned(&self) -> Option<D> {
        self.return_
    }

    /// The joined state of successful halts.
    pub closed spec fn spec_halted(&self) -> Option<D> {
        self.halt_
    }

    /// Returns the state which reaches the end of the function body.
    pub fn fallthrough(&self) -> (state: Option<&D>)
        ensures
            state is Some <==> self.spec_fallthrough() is Some,
            state is Some ==> *state->0 == self.spec_fallthrough()->0,
    {
        self.fallthrough.as_ref()
    }

    /// Returns the joined state of explicit `return` exits.
    pub fn returned(&self) -> (state: Option<&D>)
        ensures
            state is Some <==> self.spec_returned() is Some,
            state is Some ==> *state->0 == self.spec_returned()->0,
    {
        self.return_.as_ref()
    }

    /// Returns the joined state of successful EVM halts such as `stop` and `selfdestruct`.
    pub fn halted(&self) -> (state: Option<&D>)
        ensures
            state is Some <==> self.spec_halted() is Some,
            state is Some ==> *state->0 == self.spec_halted()->0,
    {
        self.halt_.as_ref()
    }
}

/// The join of every successful exit of a body: fallthrough, then returns, then halts.
pub open spec fn spec_normal_exit<D: JoinSemiLattice>(result: EffectiveFlowResult<D>) -> Option<D::V> {
    opt_join::<D>(
        opt_join::<D>(opt_view(result.spec_fallthrough()), opt_view(result.spec_returned())),
        opt_view(result.spec_halted()),
    )
}

impl<D: JoinSemiLattice> EffectiveFlowResult<D> {
    /// Returns the state joined across all successful exits.
    pub fn normal_exit(&self) -> (state: Option<D>)
        ensures
            opt_view(state) == spec_normal_exit(*self),
    {
        proof {
            D::lemma_clone_preserves_view();
        }
        let mut state = clone_opt(&self.fallthrough);
        merge_opt(&mut state, clone_opt(&self.return_));
        merge_opt(&mut state, clone_opt(&self.halt_));
        state
    }
}

fn clone_opt<D: Clone + View>(value: &Option<D>) -> (copy: Option<D>)
    requires
        clone_preserves_view::<D>(),
    ensures
        opt_view(copy) == opt_view(*value),
{
    match value {
        Some(d) => {
            let c = d.clone();
            proof {
                assert(cloned(*d, c));
            }
            Some(c)
        },
        None => None,
    }
}

} // verus!
