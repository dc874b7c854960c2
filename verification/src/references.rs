//! Function references and the possible targets of internal function values.

use vstd::prelude::*;

use crate::ids::{ExprId, FunctionId, Span, VariableId};
use crate::variables::VarKind;

verus! {

/// How a source expression references a function declaration.
#[derive(Clone, Copy, Debug, PartialEq, Eq, Hash, Structural)]
pub enum FunctionReferenceKind {
    /// A statically resolved internal call to the declaration.
    InternalCall,
    /// A statically resolved external call to the declaration.
    ExternalCall,
    /// The declaration is used as a function value.
    Value,
}

/// One statically known internal function-value target.
///
/// Bare references to virtual functions retain dynamic dispatch. Explicitly qualified references
/// such as `super.f` and `Base.f` are statically bound, matching Solidity call semantics.
#[derive(Clone, Copy, Debug, PartialEq, Eq, Hash, Structural)]
pub struct FunctionValueTarget {
    function: FunctionId,
    virtual_dispatch: bool,
}

impl FunctionValueTarget {
    /// The declaration denoted at the value's source site.
    pub closed spec fn spec_function(self) -> FunctionId {
        self.function
    }

    /// Whether the target must be resolved in the runtime dispatch contract.
    pub closed spec fn spec_virtual_dispatch(self) -> bool {
        self.virtual_dispatch
    }

    /// The target of a reference to `function`: a virtual function referenced by a bare
    /// identifier keeps dynamic dispatch, every other reference is statically bound.
    pub fn from_reference(function: FunctionId, is_virtual: bool, is_bare_identifier: bool) -> (target: Self)
        ensures
            target.spec_function() == function,
            target.spec_virtual_dispatch() == (is_virtual && is_bare_identifier),
    {
        FunctionValueTarget { function, virtual_dispatch: is_virtual && is_bare_identifier }
    }

    /// Returns the declaration denoted at the value's source site.
    pub fn function(self) -> (function: FunctionId)
        ensures
            function == self.spec_function(),
    {
        self.function
    }

    /// Returns whether the target must be resolved in the runtime dispatch contract.
    pub fn requires_virtual_dispatch(self) -> (dispatch: bool)
        ensures
            dispatch == self.spec_virtual_dispatch(),
    {
        self.virtual_dispatch
    }
}

/// Possible declarations denoted by an internal function value.
///
/// `may_be_unknown` distinguishes a complete finite target set from known targets joined with an
/// opaque value. Consumers must preserve an opaque-effect branch when it is true.
#[derive(Debug)]
pub struct FunctionValueTargets {
    known: Vec<FunctionValueTarget>,
    may_be_unknown: bool,
}

/// The known targets of `other` which are not in `known`, in their order in `other`.
pub open spec fn spec_new_targets(known: Seq<FunctionValueTarget>, other: Seq<FunctionValueTarget>) -> Seq<
    FunctionValueTarget,
>
    decreases other.len(),
{
    if other.len() == 0 {
        seq![]
    } else {
        let rest = spec_new_targets(known, other.drop_last());
        let last = other.last();
        if known.contains(last) || rest.contains(last) {
            rest
        } else {
            rest.push(last)
        }
    }
}

impl FunctionValueTargets {
    /// The known targets, in the order they were discovered.
    pub closed spec fn spec_known(&self) -> Seq<FunctionValueTarget> {
        self.known@
    }

    /// Whether the value may also have an unresolved target.
    pub closed spec fn spec_may_be_unknown(&self) -> bool {
        self.may_be_unknown
    }

    /// A complete set with no target.
    pub fn complete() -> (targets: Self)
        ensures
            targets.spec_known() == Seq::<FunctionValueTarget>::empty(),
            !targets.spec_may_be_unknown(),
    {
        FunctionValueTargets { known: Vec::new(), may_be_unknown: false }
    }

    /// A set which may hold any target.
    pub fn unknown() -> (targets: Self)
        ensures
            targets.spec_known() == Seq::<FunctionValueTarget>::empty(),
            targets.spec_may_be_unknown(),
    {
        FunctionValueTargets { known: Vec::new(), may_be_unknown: true }
    }

    /// A complete set with exactly one target.
    pub fn singleton(target: FunctionValueTarget) -> (targets: Self)
        ensures
            targets.spec_known() == seq![target],
            !targets.spec_may_be_unknown(),
    {
        let mut known = Vec::new();
        known.push(target);
        FunctionValueTargets { known, may_be_unknown: false }
    }

    /// Adds the targets of `other` and returns whether `self` changed.
    pub fn join(&mut self, other: &Self) -> (changed: bool)
        ensures
            final(self).spec_known() == old(self).spec_known() + spec_new_targets(
                old(self).spec_known(),
                other.spec_known(),
            ),
            final(self).spec_may_be_unknown() == (old(self).spec_may_be_unknown()
                || other.spec_may_be_unknown()),
            changed == (spec_new_targets(old(self).spec_known(), other.spec_known()).len() > 0 || (
            other.spec_may_be_unknown() && !old(self).spec_may_be_unknown())),
    {
        let ghost initial_known = self.known@;
        let mut changed = false;
        let mut i: usize = 0;
        while i < other.known.len()
            invariant
                0 <= i <= other.known@.len(),
                self.known@ == initial_known + spec_new_targets(initial_known, other.known@.subrange(0, i as int)),
                self.may_be_unknown == old(self).may_be_unknown,
                changed == (spec_new_targets(initial_known, other.known@.subrange(0, i as int)).len() > 0),
            decreases other.known@.len() - i,
        {
            let target = other.known[i];
            let ghost prefix = other.known@.subrange(0, i as int);
            let ghost next = other.known@.subrange(0, i + 1);
            assert(next.drop_last() =~= prefix);
            assert(next.last() == target);
            let present = contains_target(&self.known, target);
            proof {
                let rest = spec_new_targets(initial_known, prefix);
                assert((initial_known + rest).contains(target) <==> (initial_known.contains(target)
                    || rest.contains(target))) by {
                    if (initial_known + rest).contains(target) {
                        let k = choose|k: int| 0 <= k < (initial_known + rest).len() && (initial_known
                            + rest)[k] == target;
                        if k < initial_known.len() {
                            assert(initial_known[k] == target);
                        } else {
                            assert(rest[k - initial_known.len()] == target);
                        }
                    }
                    if initial_known.contains(target) {
                        let k = choose|k: int| 0 <= k < initial_known.len() && initial_known[k] == target;
                        assert((initial_known + rest)[k] == target);
                    }
                    if rest.contains(target) {
                        let k = choose|k: int| 0 <= k < rest.len() && rest[k] == target;
                        assert((initial_known + rest)[initial_known.len() + k] == target);
                    }
                }
            }
            if !present {
                self.known.push(target);
                changed = true;
                proof {
                    assert(self.known@ =~= initial_known + spec_new_targets(initial_known, next));
                }
            } else {
                proof {
                    assert(self.known@ =~= initial_known + spec_new_targets(initial_known, next));
                }
            }
            i += 1;
        }
        assert(other.known@.subrange(0, other.known@.len() as int) =~= other.known@);
        if other.may_be_unknown && !self.may_be_unknown {
            self.may_be_unknown = true;
            changed = true;
        }
        changed
    }

    /// Returns the known target declarations.
    pub fn known(&self) -> (known: &[FunctionValueTarget])
        ensures
            known@ == self.spec_known(),
    {
        self.known.as_slice()
    }

    /// Returns whether the function value may also have an unresolved target.
    pub fn may_be_unknown(&self) -> (unknown: bool)
        ensures
            unknown == self.spec_may_be_unknown(),
    {
        self.may_be_unknown
    }
}

/// The abstract form of a set of function-value targets: the known targets and whether the value
/// may also have an unresolved target.
pub type TargetsView = (Seq<FunctionValueTarget>, bool);

impl View for FunctionValueTargets {
    type V = TargetsView;

    closed spec fn view(&self) -> TargetsView {
        (self.known@, self.may_be_unknown)
    }
}

impl FunctionValueTargets {
    /// The view is made of the known targets and the unknown flag.
    pub proof fn lemma_view(&self)
        ensures
            self@ == (self.spec_known(), self.spec_may_be_unknown()),
    {
    }

    /// Returns a copy of the set.
    pub fn duplicate(&self) -> (copy: Self)
        ensures
            copy@ == self@,
    {
        let mut known: Vec<FunctionValueTarget> = Vec::new();
        let mut i: usize = 0;
        while i < self.known.len()
            invariant
                0 <= i <= self.known@.len(),
                known@ == self.known@.subrange(0, i as int),
            decreases self.known@.len() - i,
        {
            known.push(self.known[i]);
            proof {
                assert(known@ =~= self.known@.subrange(0, i + 1));
            }
            i += 1;
        }
        proof {
            assert(known@ =~= self.known@);
        }
        FunctionValueTargets { known, may_be_unknown: self.may_be_unknown }
    }
}

/// The join of two target sets: the known targets of `lhs`, then those of `rhs` that are new.
pub open spec fn join_targets(lhs: TargetsView, rhs: TargetsView) -> TargetsView {
    (lhs.0 + spec_new_targets(lhs.0, rhs.0), lhs.1 || rhs.1)
}

/// An expression as the possible targets of a function value read it.
#[derive(Debug)]
pub enum ValueExpr {
    /// A reference to a variable.
    Variable(VariableId),
    /// A name or member access whose type is a function with a known declaration, with the target
    /// it denotes.
    Function(FunctionValueTarget),
    /// A name resolved to candidates, with the targets of the candidates that are functions.
    Candidates(Vec<FunctionValueTarget>),
    /// A plain assignment, with its value.
    Assign(Box<ValueExpr>),
    /// A conditional expression, with its two branches.
    Ternary(Box<ValueExpr>, Box<ValueExpr>),
    /// A tuple, an omitted component being `None`; a single component is a parenthesized
    /// expression.
    Tuple(Vec<Option<ValueExpr>>),
    /// Any other expression.
    Other,
}

/// The targets that `expr` may denote, given the targets of each variable: a variable's own
/// targets, the declaration of a function-typed name, the function candidates of a name together
/// with unknown targets, the value of an assignment, both branches of a conditional, every
/// component of a tuple, and unknown targets for anything else.
pub open spec fn value_targets(expr: ValueExpr, variables: Seq<TargetsView>) -> TargetsView
    decreases expr, 0nat,
{
    match expr {
        ValueExpr::Variable(variable) => variables[variable.0 as int],
        ValueExpr::Function(target) => (seq![target], false),
        ValueExpr::Candidates(candidates) => (spec_new_targets(Seq::empty(), candidates@), true),
        ValueExpr::Assign(value) => value_targets(*value, variables),
        ValueExpr::Ternary(then_expr, else_expr) => join_targets(
            value_targets(*then_expr, variables),
            value_targets(*else_expr, variables),
        ),
        ValueExpr::Tuple(components) => if components@.len() == 1 && components@[0] is Some {
            value_targets(components@[0]->0, variables)
        } else {
            component_targets(components@, components@.len(), variables)
        },
        ValueExpr::Other => (Seq::empty(), true),
    }
}

/// The join of the targets of the first `count` components of a tuple, starting from the
/// complete empty set.
pub open spec fn component_targets(components: Seq<Option<ValueExpr>>, count: nat, variables: Seq<TargetsView>) -> TargetsView
    decreases components, count,
{
    if count == 0 || count > components.len() {
        (Seq::empty(), false)
    } else {
        let prior = component_targets(components, (count - 1) as nat, variables);
        match components[count - 1] {
            Some(component) => join_targets(prior, value_targets(component, variables)),
            None => prior,
        }
    }
}

/// Whether every variable that `expr` mentions has an index below `count`.
pub open spec fn variables_below(expr: ValueExpr, count: nat) -> bool
    decreases expr, 0nat,
{
    match expr {
        ValueExpr::Variable(variable) => variable.0 < count,
        ValueExpr::Assign(value) => variables_below(*value, count),
        ValueExpr::Ternary(then_expr, else_expr) => variables_below(*then_expr, count) && variables_below(
            *else_expr,
            count,
        ),
        ValueExpr::Tuple(components) => components_below(components@, components@.len(), count),
        _ => true,
    }
}

/// Whether every variable that the first `n` components mention has an index below `count`.
pub open spec fn components_below(components: Seq<Option<ValueExpr>>, n: nat, count: nat) -> bool
    decreases components, n,
{
    if n == 0 || n > components.len() {
        true
    } else {
        components_below(components, (n - 1) as nat, count) && match components[n - 1] {
            Some(component) => variables_below(component, count),
            None => true,
        }
    }
}

/// The views of a list of target sets.
pub open spec fn targets_views(targets: Seq<FunctionValueTargets>) -> Seq<TargetsView> {
    targets.map_values(|targets: FunctionValueTargets| targets@)
}

/// Returns the targets that `expr` may denote, given the targets of each variable by index.
pub fn collect_value_targets(expr: &ValueExpr, variables: &Vec<FunctionValueTargets>) -> (targets: FunctionValueTargets)
    requires
        variables_below(*expr, variables@.len()),
    ensures
        targets@ == value_targets(*expr, targets_views(variables@)),
    decreases expr, 0nat,
{
    match expr {
        ValueExpr::Variable(variable) => {
            let targets = variables[variable.0 as usize].duplicate();
            proof {
                assert(targets_views(variables@)[variable.0 as int] == variables@[variable.0 as int]@);
            }
            targets
        },
        ValueExpr::Function(target) => {
            let targets = FunctionValueTargets::singleton(*target);
            proof {
                targets.lemma_view();
            }
            targets
        },
        ValueExpr::Candidates(candidates) => {
            let mut targets = FunctionValueTargets::unknown();
            let mut i: usize = 0;
            while i < candidates.len()
                invariant
                    0 <= i <= candidates@.len(),
                    targets@ == (spec_new_targets(Seq::empty(), candidates@.subrange(0, i as int)), true),
                decreases candidates@.len() - i,
            {
                let ghost before = targets@;
                let _ = targets.join(&FunctionValueTargets::singleton(candidates[i]));
                proof {
                    let prefix = candidates@.subrange(0, i as int);
                    let next = candidates@.subrange(0, i + 1);
                    assert(next.drop_last() =~= prefix);
                    assert(spec_new_targets(Seq::empty(), prefix) + spec_new_targets(spec_new_targets(Seq::empty(), prefix), seq![candidates@[i as int]]) =~= spec_new_targets(Seq::empty(), next)) by {
                        lemma_new_targets_singleton(spec_new_targets(Seq::empty(), prefix), candidates@[i as int]);
                        lemma_new_targets_push(Seq::empty(), prefix, candidates@[i as int]);
                    }
                }
                i += 1;
            }
            proof {
                assert(candidates@.subrange(0, candidates@.len() as int) =~= candidates@);
            }
            targets
        },
        ValueExpr::Assign(value) => collect_value_targets(value, variables),
        ValueExpr::Ternary(then_expr, else_expr) => {
            let mut targets = collect_value_targets(then_expr, variables);
            let other = collect_value_targets(else_expr, variables);
            let _ = targets.join(&other);
            targets
        },
        ValueExpr::Tuple(components) => {
            if components.len() == 1 {
                match &components[0] {
                    Some(inner) => {
                        proof {
                            assert(components_below(components@, 1, variables@.len()));
                            assert(variables_below(components@[0]->0, variables@.len()));
                        }
                        return collect_value_targets(inner, variables);
                    },
                    None => {},
                }
            }
            collect_component_targets(components, components.len(), variables)
        },
        ValueExpr::Other => FunctionValueTargets::unknown(),
    }
}

/// Returns the join of the targets of the first `count` components of a tuple.
fn collect_component_targets(components: &Vec<Option<ValueExpr>>, count: usize, variables: &Vec<FunctionValueTargets>) -> (targets: FunctionValueTargets)
    requires
        count <= components@.len(),
        components_below(components@, count as nat, variables@.len()),
    ensures
        targets@ == component_targets(components@, count as nat, targets_views(variables@)),
    decreases components@, count,
{
    if count == 0 {
        return FunctionValueTargets::complete();
    }
    let mut targets = collect_component_targets(components, count - 1, variables);
    match &components[count - 1] {
        Some(component) => {
            let other = collect_value_targets(component, variables);
            let _ = targets.join(&other);
        },
        None => {},
    }
    targets
}

/// The new targets of a single candidate: the candidate unless it is already known.
proof fn lemma_new_targets_singleton(known: Seq<FunctionValueTarget>, target: FunctionValueTarget)
    ensures
        spec_new_targets(known, seq![target]) == if known.contains(target) {
            Seq::<FunctionValueTarget>::empty()
        } else {
            seq![target]
        },
{
    assert(seq![target].drop_last() =~= Seq::<FunctionValueTarget>::empty());
    assert(spec_new_targets(known, Seq::<FunctionValueTarget>::empty()) == Seq::<FunctionValueTarget>::empty());
    assert(seq![target].last() == target);
    assert(Seq::<FunctionValueTarget>::empty().push(target) =~= seq![target]);
}

/// The new targets of `other` followed by `target` against `known` are those of `other`, then
/// `target` unless it is known or among them.
proof fn lemma_new_targets_push(known: Seq<FunctionValueTarget>, other: Seq<FunctionValueTarget>, target: FunctionValueTarget)
    ensures
        spec_new_targets(known, other.push(target)) == if known.contains(target) || spec_new_targets(known, other).contains(
            target,
        ) {
            spec_new_targets(known, other)
        } else {
            spec_new_targets(known, other).push(target)
        },
{
    assert(other.push(target).drop_last() =~= other);
}

/// Whether the targets `lhs` are among the targets `rhs`: every target known in `lhs` is known in
/// `rhs`, and `rhs` may be unknown when `lhs` may.
pub open spec fn targets_within(lhs: TargetsView, rhs: TargetsView) -> bool {
    (forall|target: FunctionValueTarget| #[trigger] lhs.0.contains(target) ==> rhs.0.contains(target)) && (lhs.1
        ==> rhs.1)
}

/// Whether each variable's targets in `lhs` are among its targets in `rhs`.
pub open spec fn all_within(lhs: Seq<TargetsView>, rhs: Seq<TargetsView>) -> bool {
    lhs.len() == rhs.len() && forall|i: int| 0 <= i < lhs.len() ==> targets_within(#[trigger] lhs[i], rhs[i])
}

/// The targets that a binding joins into its variable: those of its value, or any target when
/// it has no value.
pub open spec fn binding_targets(value: Option<ValueExpr>, variables: Seq<TargetsView>) -> TargetsView {
    match value {
        Some(expr) => value_targets(expr, variables),
        None => (Seq::empty(), true),
    }
}

/// Whether some binding binds the variable with index `variable`.
pub open spec fn has_binding(bindings: Seq<(VariableId, Option<ValueExpr>)>, variable: int) -> bool {
    exists|j: int| 0 <= j < bindings.len() && (#[trigger] bindings[j]).0.0 == variable
}

/// The targets each variable starts from: the complete empty set for a local variable that some
/// binding binds, any target for every other variable.
pub open spec fn initial_targets(kinds: Seq<VarKind>, bindings: Seq<(VariableId, Option<ValueExpr>)>) -> Seq<
    TargetsView,
> {
    Seq::new(
        kinds.len(),
        |i: int| (Seq::<FunctionValueTarget>::empty(), !(kinds[i] == VarKind::Statement && has_binding(bindings, i))),
    )
}

/// Whether `targets` holds every binding: the targets of each binding's value are among those of
/// its variable.
pub open spec fn holds_bindings(targets: Seq<TargetsView>, bindings: Seq<(VariableId, Option<ValueExpr>)>) -> bool {
    forall|j: int|
        0 <= j < bindings.len() ==> targets_within(
            binding_targets((#[trigger] bindings[j]).1, targets),
            targets[bindings[j].0.0 as int],
        )
}

/// Whether `targets` is a solution of the bindings: it contains the initial targets and holds
/// every binding.
pub open spec fn is_target_solution(
    targets: Seq<TargetsView>,
    kinds: Seq<VarKind>,
    bindings: Seq<(VariableId, Option<ValueExpr>)>,
) -> bool {
    all_within(initial_targets(kinds, bindings), targets) && holds_bindings(targets, bindings)
}

/// Whether every binding binds a variable below `count` to a value that mentions only variables
/// below `count`.
pub open spec fn bindings_below(bindings: Seq<(VariableId, Option<ValueExpr>)>, count: nat) -> bool {
    forall|j: int|
        0 <= j < bindings.len() ==> (#[trigger] bindings[j]).0.0 < count && match bindings[j].1 {
            Some(expr) => variables_below(expr, count),
            None => true,
        }
}

/// The targets written in `expr`.
pub open spec fn expr_leaves(expr: ValueExpr) -> Seq<FunctionValueTarget>
    decreases expr, 0nat,
{
    match expr {
        ValueExpr::Function(target) => seq![target],
        ValueExpr::Candidates(candidates) => candidates@,
        ValueExpr::Assign(value) => expr_leaves(*value),
        ValueExpr::Ternary(then_expr, else_expr) => expr_leaves(*then_expr) + expr_leaves(*else_expr),
        ValueExpr::Tuple(components) => component_leaves(components@, components@.len()),
        _ => Seq::empty(),
    }
}

/// The targets written in the first `count` components of a tuple.
pub open spec fn component_leaves(components: Seq<Option<ValueExpr>>, count: nat) -> Seq<FunctionValueTarget>
    decreases components, count,
{
    if count == 0 || count > components.len() {
        Seq::empty()
    } else {
        component_leaves(components, (count - 1) as nat) + match components[count - 1] {
            Some(component) => expr_leaves(component),
            None => Seq::empty(),
        }
    }
}

/// The targets written in the values of the first `count` bindings.
pub open spec fn binding_leaves(bindings: Seq<(VariableId, Option<ValueExpr>)>, count: nat) -> Seq<FunctionValueTarget>
    decreases count,
{
    if count == 0 || count > bindings.len() {
        Seq::empty()
    } else {
        binding_leaves(bindings, (count - 1) as nat) + value_leaves(bindings[count - 1].1)
    }
}

/// The targets written in an optional value.
pub open spec fn value_leaves(value: Option<ValueExpr>) -> Seq<FunctionValueTarget> {
    match value {
        Some(expr) => expr_leaves(expr),
        None => Seq::empty(),
    }
}

/// How far one variable's targets are from holding every target of a universe of `size` targets
/// and possibly unknown ones.
pub open spec fn entry_pending(targets: TargetsView, size: nat) -> nat {
    (if targets.0.len() <= size {
        (size - targets.0.len()) as nat
    } else {
        0nat
    }) + if targets.1 {
        0nat
    } else {
        1nat
    }
}

/// How far the first `count` variables' targets are from holding every target of a universe of
/// `size` targets and possibly unknown ones.
pub open spec fn pending(targets: Seq<TargetsView>, count: nat, size: nat) -> nat
    decreases count,
{
    if count == 0 || count > targets.len() {
        0
    } else {
        pending(targets, (count - 1) as nat, size) + entry_pending(targets[count - 1], size)
    }
}

proof fn lemma_pending_update(targets: Seq<TargetsView>, count: nat, size: nat, index: int, entry: TargetsView)
    requires
        0 <= index < count <= targets.len(),
    ensures
        pending(targets.update(index, entry), count, size) + entry_pending(targets[index], size) == pending(
            targets,
            count,
            size,
        ) + entry_pending(entry, size),
    decreases count,
{
    if count - 1 > index {
        lemma_pending_update(targets, (count - 1) as nat, size, index, entry);
    } else {
        lemma_pending_same_prefix(targets, targets.update(index, entry), (count - 1) as nat, size);
    }
}

proof fn lemma_pending_same_prefix(lhs: Seq<TargetsView>, rhs: Seq<TargetsView>, count: nat, size: nat)
    requires
        count <= lhs.len(),
        count <= rhs.len(),
        forall|i: int| 0 <= i < count ==> lhs[i] == rhs[i],
    ensures
        pending(lhs, count, size) == pending(rhs, count, size),
    decreases count,
{
    if count > 0 {
        lemma_pending_same_prefix(lhs, rhs, (count - 1) as nat, size);
    }
}

/// A target is known after a join exactly when it is known on either side.
pub proof fn lemma_join_contains(lhs: TargetsView, rhs: TargetsView)
    ensures
        forall|target: FunctionValueTarget| #[trigger] join_targets(lhs, rhs).0.contains(target) <==> (lhs.0.contains(
            target,
        ) || rhs.0.contains(target)),
{
    lemma_new_targets_fresh(lhs.0, rhs.0);
    let fresh = spec_new_targets(lhs.0, rhs.0);
    assert forall|target: FunctionValueTarget| #[trigger] (lhs.0 + fresh).contains(target) <==> (lhs.0.contains(target)
        || fresh.contains(target)) by {
        if (lhs.0 + fresh).contains(target) {
            let k = choose|k: int| 0 <= k < (lhs.0 + fresh).len() && (lhs.0 + fresh)[k] == target;
            if k < lhs.0.len() {
                assert(lhs.0[k] == target);
            } else {
                assert(fresh[k - lhs.0.len()] == target);
            }
        }
        if lhs.0.contains(target) {
            let k = choose|k: int| 0 <= k < lhs.0.len() && lhs.0[k] == target;
            assert((lhs.0 + fresh)[k] == target);
        }
        if fresh.contains(target) {
            let k = choose|k: int| 0 <= k < fresh.len() && fresh[k] == target;
            assert((lhs.0 + fresh)[lhs.0.len() + k] == target);
        }
    }
}

/// The new targets of a join hold no target twice.
proof fn lemma_new_targets_distinct(known: Seq<FunctionValueTarget>, other: Seq<FunctionValueTarget>)
    ensures
        spec_new_targets(known, other).no_duplicates(),
    decreases other.len(),
{
    if other.len() > 0 {
        lemma_new_targets_distinct(known, other.drop_last());
        let rest = spec_new_targets(known, other.drop_last());
        let last = other.last();
        if !(known.contains(last) || rest.contains(last)) {
            assert forall|i: int, j: int| 0 <= i < rest.push(last).len() && 0 <= j < rest.push(last).len() && i != j implies rest.push(
                last,
            )[i] != rest.push(last)[j] by {
                if i == rest.len() {
                    assert(rest[j] != last);
                } else if j == rest.len() {
                    assert(rest[i] != last);
                }
            }
        }
    }
}

/// A join keeps known targets distinct.
proof fn lemma_join_distinct(lhs: TargetsView, rhs: TargetsView)
    requires
        lhs.0.no_duplicates(),
    ensures
        join_targets(lhs, rhs).0.no_duplicates(),
{
    lemma_new_targets_fresh(lhs.0, rhs.0);
    lemma_new_targets_distinct(lhs.0, rhs.0);
    let fresh = spec_new_targets(lhs.0, rhs.0);
    assert forall|i: int, j: int| 0 <= i < lhs.0.len() && 0 <= j < fresh.len() implies lhs.0[i] != fresh[j] by {
        assert(fresh.contains(fresh[j]));
        assert(lhs.0.contains(lhs.0[i]));
    }
    vstd::seq_lib::lemma_no_dup_in_concat(lhs.0, fresh);
}

/// Whether every target known for the variables of `targets` is in `universe`.
pub open spec fn known_within(targets: Seq<TargetsView>, universe: Set<FunctionValueTarget>) -> bool {
    forall|i: int, target: FunctionValueTarget|
        0 <= i < targets.len() && #[trigger] targets[i].0.contains(target) ==> universe.contains(target)
}

/// The targets of an expression come from its own targets and those of the variables.
proof fn lemma_value_targets_within(expr: ValueExpr, variables: Seq<TargetsView>, universe: Set<FunctionValueTarget>)
    requires
        variables_below(expr, variables.len()),
        known_within(variables, universe),
        forall|target: FunctionValueTarget| #[trigger] expr_leaves(expr).contains(target) ==> universe.contains(target),
    ensures
        forall|target: FunctionValueTarget| #[trigger] value_targets(expr, variables).0.contains(target) ==> universe.contains(
            target,
        ),
    decreases expr, 0nat,
{
    match expr {
        ValueExpr::Variable(variable) => {
            let index = variable.0 as int;
            assert(value_targets(expr, variables) == variables[index]);
            assert(0 <= index < variables.len());
            assert forall|target: FunctionValueTarget| #[trigger] variables[index].0.contains(target) implies universe.contains(
                target,
            ) by {
                assert(known_within(variables, universe));
            }
            assert forall|target: FunctionValueTarget| #[trigger] value_targets(expr, variables).0.contains(target) implies universe.contains(
                target,
            ) by {
                assert(variables[index].0.contains(target));
            }
        },
        ValueExpr::Function(target) => {
            assert forall|t: FunctionValueTarget| #[trigger] value_targets(expr, variables).0.contains(t) implies universe.contains(t) by {
                assert(seq![target][0] == target);
                assert(expr_leaves(expr).contains(target));
            }
        },
        ValueExpr::Candidates(candidates) => {
            lemma_new_targets_fresh(Seq::empty(), candidates@);
            assert(expr_leaves(expr) == candidates@);
            assert forall|target: FunctionValueTarget| #[trigger] value_targets(expr, variables).0.contains(target) implies universe.contains(
                target,
            ) by {
                assert(spec_new_targets(Seq::empty(), candidates@).contains(target));
                assert(candidates@.contains(target));
                assert(expr_leaves(expr).contains(target));
            }
        },
        ValueExpr::Assign(value) => {
            assert(expr_leaves(expr) == expr_leaves(*value));
            assert(value_targets(expr, variables) == value_targets(*value, variables));
            lemma_value_targets_within(*value, variables, universe);
        },
        ValueExpr::Ternary(then_expr, else_expr) => {
            assert forall|target: FunctionValueTarget| #[trigger] expr_leaves(*then_expr).contains(target) implies universe.contains(
                target,
            ) by {
                let k = choose|k: int| 0 <= k < expr_leaves(*then_expr).len() && expr_leaves(*then_expr)[k] == target;
                assert(expr_leaves(expr)[k] == target);
                assert(expr_leaves(expr).contains(target));
            }
            assert forall|target: FunctionValueTarget| #[trigger] expr_leaves(*else_expr).contains(target) implies universe.contains(
                target,
            ) by {
                let k = choose|k: int| 0 <= k < expr_leaves(*else_expr).len() && expr_leaves(*else_expr)[k] == target;
                assert(expr_leaves(expr)[expr_leaves(*then_expr).len() + k] == target);
                assert(expr_leaves(expr).contains(target));
            }
            lemma_value_targets_within(*then_expr, variables, universe);
            lemma_value_targets_within(*else_expr, variables, universe);
            lemma_join_contains(value_targets(*then_expr, variables), value_targets(*else_expr, variables));
        },
        ValueExpr::Tuple(components) => {
            if components@.len() == 1 && components@[0] is Some {
                assert(components_below(components@, 1, variables.len()));
                assert(component_leaves(components@, 0) == Seq::<FunctionValueTarget>::empty());
                assert(component_leaves(components@, 1) =~= expr_leaves(components@[0]->0));
                assert(expr_leaves(expr) == component_leaves(components@, 1));
                assert(value_targets(expr, variables) == value_targets(components@[0]->0, variables));
                lemma_value_targets_within(components@[0]->0, variables, universe);
            } else {
                assert(expr_leaves(expr) == component_leaves(components@, components@.len()));
                assert(value_targets(expr, variables) == component_targets(components@, components@.len(), variables));
                lemma_component_targets_within(components@, components@.len(), variables, universe);
            }
        },
        ValueExpr::Other => {},
    }
}

proof fn lemma_component_targets_within(
    components: Seq<Option<ValueExpr>>,
    count: nat,
    variables: Seq<TargetsView>,
    universe: Set<FunctionValueTarget>,
)
    requires
        count <= components.len(),
        components_below(components, count, variables.len()),
        known_within(variables, universe),
        forall|target: FunctionValueTarget| #[trigger] component_leaves(components, count).contains(target) ==> universe.contains(
            target,
        ),
    ensures
        forall|target: FunctionValueTarget| #[trigger] component_targets(components, count, variables).0.contains(target)
            ==> universe.contains(target),
    decreases components, count,
{
    if count > 0 {
        let prior_leaves = component_leaves(components, (count - 1) as nat);
        assert forall|target: FunctionValueTarget| #[trigger] prior_leaves.contains(target) implies universe.contains(target) by {
            let k = choose|k: int| 0 <= k < prior_leaves.len() && prior_leaves[k] == target;
            assert(component_leaves(components, count)[k] == target);
            assert(component_leaves(components, count).contains(target));
        }
        lemma_component_targets_within(components, (count - 1) as nat, variables, universe);
        match components[count - 1] {
            Some(component) => {
                assert forall|target: FunctionValueTarget| #[trigger] expr_leaves(component).contains(target) implies universe.contains(
                    target,
                ) by {
                    let k = choose|k: int| 0 <= k < expr_leaves(component).len() && expr_leaves(component)[k] == target;
                    assert(component_leaves(components, count)[prior_leaves.len() + k] == target);
                    assert(component_leaves(components, count).contains(target));
                }
                lemma_value_targets_within(component, variables, universe);
                lemma_join_contains(
                    component_targets(components, (count - 1) as nat, variables),
                    value_targets(component, variables),
                );
                assert(component_targets(components, count, variables) == join_targets(
                    component_targets(components, (count - 1) as nat, variables),
                    value_targets(component, variables),
                ));
            },
            None => {
                assert(component_targets(components, count, variables) == component_targets(
                    components,
                    (count - 1) as nat,
                    variables,
                ));
            },
        }
    }
}

/// The targets of an expression grow with the targets of the variables.
pub proof fn lemma_value_targets_monotone(expr: ValueExpr, lhs: Seq<TargetsView>, rhs: Seq<TargetsView>)
    requires
        all_within(lhs, rhs),
        variables_below(expr, lhs.len()),
    ensures
        targets_within(value_targets(expr, lhs), value_targets(expr, rhs)),
    decreases expr, 0nat,
{
    match expr {
        ValueExpr::Variable(variable) => {
            assert(targets_within(lhs[variable.0 as int], rhs[variable.0 as int]));
        },
        ValueExpr::Assign(value) => {
            lemma_value_targets_monotone(*value, lhs, rhs);
        },
        ValueExpr::Ternary(then_expr, else_expr) => {
            lemma_value_targets_monotone(*then_expr, lhs, rhs);
            lemma_value_targets_monotone(*else_expr, lhs, rhs);
            lemma_join_contains(value_targets(*then_expr, lhs), value_targets(*else_expr, lhs));
            lemma_join_contains(value_targets(*then_expr, rhs), value_targets(*else_expr, rhs));
        },
        ValueExpr::Tuple(components) => {
            if components@.len() == 1 && components@[0] is Some {
                assert(components_below(components@, 1, lhs.len()));
                lemma_value_targets_monotone(components@[0]->0, lhs, rhs);
            } else {
                lemma_component_targets_monotone(components@, components@.len(), lhs, rhs);
            }
        },
        _ => {},
    }
}

proof fn lemma_component_targets_monotone(
    components: Seq<Option<ValueExpr>>,
    count: nat,
    lhs: Seq<TargetsView>,
    rhs: Seq<TargetsView>,
)
    requires
        count <= components.len(),
        all_within(lhs, rhs),
        components_below(components, count, lhs.len()),
    ensures
        targets_within(component_targets(components, count, lhs), component_targets(components, count, rhs)),
    decreases components, count,
{
    if count > 0 {
        lemma_component_targets_monotone(components, (count - 1) as nat, lhs, rhs);
        match components[count - 1] {
            Some(component) => {
                lemma_value_targets_monotone(component, lhs, rhs);
                lemma_join_contains(
                    component_targets(components, (count - 1) as nat, lhs),
                    value_targets(component, lhs),
                );
                lemma_join_contains(
                    component_targets(components, (count - 1) as nat, rhs),
                    value_targets(component, rhs),
                );
            },
            None => {},
        }
    }
}

/// The targets written in one binding's value are among those of all bindings.
proof fn lemma_binding_leaves(bindings: Seq<(VariableId, Option<ValueExpr>)>, count: nat, index: int)
    requires
        0 <= index < count <= bindings.len(),
    ensures
        forall|target: FunctionValueTarget| #[trigger] value_leaves(bindings[index].1).contains(target)
            ==> binding_leaves(bindings, count).contains(target),
    decreases count,
{
    let own = value_leaves(bindings[index].1);
    if index < count - 1 {
        lemma_binding_leaves(bindings, (count - 1) as nat, index);
        assert forall|target: FunctionValueTarget| #[trigger] own.contains(target) implies binding_leaves(bindings, count).contains(
            target,
        ) by {
            let prior = binding_leaves(bindings, (count - 1) as nat);
            let k = choose|k: int| 0 <= k < prior.len() && prior[k] == target;
            assert(binding_leaves(bindings, count)[k] == target);
        }
    } else {
        assert forall|target: FunctionValueTarget| #[trigger] own.contains(target) implies binding_leaves(bindings, count).contains(
            target,
        ) by {
            let prior = binding_leaves(bindings, (count - 1) as nat);
            let k = choose|k: int| 0 <= k < own.len() && own[k] == target;
            assert(binding_leaves(bindings, count)[prior.len() + k] == target);
        }
    }
}

/// A sequence of distinct targets within a finite universe is no longer than the universe.
proof fn lemma_known_len_bounded(known: Seq<FunctionValueTarget>, universe: Set<FunctionValueTarget>)
    requires
        known.no_duplicates(),
        universe.finite(),
        forall|target: FunctionValueTarget| #[trigger] known.contains(target) ==> universe.contains(target),
    ensures
        known.len() <= universe.len(),
{
    known.unique_seq_to_set();
    assert(known.to_set().subset_of(universe));
    vstd::set_lib::lemma_len_subset(known.to_set(), universe);
}

/// Returns the targets each variable starts from.
fn initial_value_targets(kinds: &[VarKind], bindings: &[(VariableId, Option<ValueExpr>)]) -> (targets: Vec<
    FunctionValueTargets,
>)
    ensures
        targets_views(targets@) == initial_targets(kinds@, bindings@),
{
    let mut targets: Vec<FunctionValueTargets> = Vec::new();
    let mut i: usize = 0;
    while i < kinds.len()
        invariant
            0 <= i <= kinds@.len(),
            targets_views(targets@) == initial_targets(kinds@, bindings@).subrange(0, i as int),
        decreases kinds@.len() - i,
    {
        let mut bound = false;
        let mut j: usize = 0;
        while j < bindings.len()
            invariant
                0 <= j <= bindings@.len(),
                0 <= i < kinds@.len(),
                bound == exists|k: int| 0 <= k < j && (#[trigger] bindings@[k]).0.0 == i,
            decreases bindings@.len() - j,
        {
            if bindings[j].0.0 as usize == i {
                bound = true;
            }
            j += 1;
        }
        let local = match kinds[i] {
            VarKind::Statement => true,
            _ => false,
        };
        let ghost before = targets_views(targets@);
        let entry = if bound && local {
            FunctionValueTargets::complete()
        } else {
            FunctionValueTargets::unknown()
        };
        proof {
            entry.lemma_view();
            assert(bound == has_binding(bindings@, i as int));
            assert(local == (kinds@[i as int] == VarKind::Statement));
            assert(entry@ == initial_targets(kinds@, bindings@)[i as int]);
        }
        targets.push(entry);
        proof {
            assert(targets_views(targets@) =~= before.push(entry@));
            assert(targets_views(targets@) =~= initial_targets(kinds@, bindings@).subrange(0, i + 1));
        }
        i += 1;
    }
    proof {
        assert(initial_targets(kinds@, bindings@).subrange(0, kinds@.len() as int) =~= initial_targets(kinds@, bindings@));
    }
    targets
}

/// Resolves the targets that every variable may hold as an internal function value.
///
/// Each variable starts from the complete empty set when it is a local variable that some
/// binding binds, and from unknown targets otherwise. Every binding then joins the targets of
/// its value (unknown targets for a binding without a value, such as a `delete`) into its
/// variable, round after round, until no round changes anything. The result is the least
/// solution: it contains the starting targets, holds every binding, and is contained in every
/// other such solution.
pub fn resolve_value_targets(kinds: &[VarKind], bindings: &[(VariableId, Option<ValueExpr>)]) -> (targets: Vec<
    FunctionValueTargets,
>)
    requires
        bindings_below(bindings@, kinds@.len() as nat),
    ensures
        targets@.len() == kinds@.len(),
        is_target_solution(targets_views(targets@), kinds@, bindings@),
        forall|other: Seq<TargetsView>| #[trigger]
            is_target_solution(other, kinds@, bindings@) ==> all_within(targets_views(targets@), other),
{
    let mut targets = initial_value_targets(kinds, bindings);
    let ghost count = kinds@.len();
    proof {
        assert(targets_views(targets@).len() == targets@.len());
    }
    let ghost leaves = binding_leaves(bindings@, bindings@.len());
    let ghost universe = leaves.to_set();
    proof {
        vstd::seq_lib::seq_to_set_is_finite(leaves);
        assert forall|other: Seq<TargetsView>| #[trigger] is_target_solution(other, kinds@, bindings@) implies all_within(
            targets_views(targets@),
            other,
        ) by {
        }
        assert forall|i: int| 0 <= i < count implies (#[trigger] targets_views(targets@)[i]).0.no_duplicates() by {
            assert(targets_views(targets@)[i].0 =~= Seq::<FunctionValueTarget>::empty());
        }
        assert forall|i: int, target: FunctionValueTarget|
            0 <= i < count && #[trigger] targets_views(targets@)[i].0.contains(target) implies universe.contains(target) by {
            assert(targets_views(targets@)[i].0 =~= Seq::<FunctionValueTarget>::empty());
        }
        assert forall|i: int| 0 <= i < count implies targets_within(
            #[trigger] initial_targets(kinds@, bindings@)[i],
            targets_views(targets@)[i],
        ) by {
        }
    }
    loop
        invariant
            targets@.len() == count,
            count == kinds@.len(),
            bindings_below(bindings@, count),
            universe.finite(),
            universe == binding_leaves(bindings@, bindings@.len()).to_set(),
            all_within(initial_targets(kinds@, bindings@), targets_views(targets@)),
            forall|other: Seq<TargetsView>| #[trigger]
                is_target_solution(other, kinds@, bindings@) ==> all_within(targets_views(targets@), other),
            known_within(targets_views(targets@), universe),
            forall|i: int| 0 <= i < count ==> (#[trigger] targets_views(targets@)[i]).0.no_duplicates(),
        ensures
            targets@.len() == count,
            is_target_solution(targets_views(targets@), kinds@, bindings@),
            forall|other: Seq<TargetsView>| #[trigger]
                is_target_solution(other, kinds@, bindings@) ==> all_within(targets_views(targets@), other),
        decreases pending(targets_views(targets@), count, universe.len()),
    {
        let ghost start = targets_views(targets@);
        let mut changed = false;
        let mut i: usize = 0;
        while i < bindings.len()
            invariant
                0 <= i <= bindings@.len(),
                targets@.len() == count,
                count == kinds@.len(),
                bindings_below(bindings@, count),
                universe.finite(),
                universe == binding_leaves(bindings@, bindings@.len()).to_set(),
                all_within(initial_targets(kinds@, bindings@), targets_views(targets@)),
                forall|other: Seq<TargetsView>| #[trigger]
                    is_target_solution(other, kinds@, bindings@) ==> all_within(targets_views(targets@), other),
                known_within(targets_views(targets@), universe),
                forall|k: int| 0 <= k < count ==> (#[trigger] targets_views(targets@)[k]).0.no_duplicates(),
                pending(targets_views(targets@), count, universe.len()) <= pending(start, count, universe.len()),
                changed ==> pending(targets_views(targets@), count, universe.len()) < pending(
                    start,
                    count,
                    universe.len(),
                ),
                !changed ==> targets_views(targets@) == start,
                !changed ==> forall|j: int|
                    0 <= j < i ==> targets_within(
                        binding_targets((#[trigger] bindings@[j]).1, targets_views(targets@)),
                        targets_views(targets@)[bindings@[j].0.0 as int],
                    ),
            decreases bindings@.len() - i,
        {
            let ghost views = targets_views(targets@);
            let index = bindings[i].0.0 as usize;
            proof {
                assert(bindings_below(bindings@, count));
                assert(bindings@[i as int].0.0 < count);
            }
            let resolved = match &bindings[i].1 {
                Some(expr) => collect_value_targets(expr, &targets),
                None => FunctionValueTargets::unknown(),
            };
            let ghost incoming = resolved@;
            proof {
                assert(incoming == binding_targets(bindings@[i as int].1, views));
            }
            let mut entry = targets[index].duplicate();
            let ghost previous = entry@;
            let entry_changed = entry.join(&resolved);
            let ghost joined = entry@;
            proof {
                assert(previous == views[index as int]);
                assert(joined == join_targets(previous, incoming));
            }
            targets.set(index, entry);
            changed = changed || entry_changed;
            proof {
                let updated = views.update(index as int, joined);
                assert(targets_views(targets@) =~= updated);
                lemma_join_contains(previous, incoming);
                lemma_join_distinct(previous, incoming);
                // The incoming targets come from the universe.
                lemma_binding_leaves(bindings@, bindings@.len(), i as int);
                match bindings@[i as int].1 {
                    Some(expr) => {
                        assert forall|target: FunctionValueTarget| #[trigger] expr_leaves(expr).contains(target) implies universe.contains(
                            target,
                        ) by {
                            assert(value_leaves(bindings@[i as int].1).contains(target));
                        }
                        lemma_value_targets_within(expr, views, universe);
                    },
                    None => {},
                }
                assert forall|k: int, target: FunctionValueTarget|
                    0 <= k < count && #[trigger] updated[k].0.contains(target) implies universe.contains(target) by {
                    if k == index as int {
                        if previous.0.contains(target) {
                            assert(views[k].0.contains(target));
                        }
                    } else {
                        assert(views[k].0.contains(target));
                    }
                }
                assert forall|k: int| 0 <= k < count implies (#[trigger] updated[k]).0.no_duplicates() by {
                    if k != index as int {
                        assert(views[k].0.no_duplicates());
                    }
                }
                // Targets only grow.
                assert forall|k: int| 0 <= k < count implies targets_within(
                    #[trigger] initial_targets(kinds@, bindings@)[k],
                    updated[k],
                ) by {
                    assert(targets_within(initial_targets(kinds@, bindings@)[k], views[k]));
                }
                // Every solution contains the updated targets.
                assert forall|other: Seq<TargetsView>| #[trigger] is_target_solution(other, kinds@, bindings@) implies all_within(
                    updated,
                    other,
                ) by {
                    assert(all_within(views, other));
                    assert(targets_within(
                        binding_targets(bindings@[i as int].1, other),
                        other[bindings@[i as int].0.0 as int],
                    ));
                    match bindings@[i as int].1 {
                        Some(expr) => {
                            lemma_value_targets_monotone(expr, views, other);
                        },
                        None => {},
                    }
                    assert forall|k: int| 0 <= k < updated.len() implies targets_within(#[trigger] updated[k], other[k]) by {
                        if k != index as int {
                            assert(targets_within(views[k], other[k]));
                        } else {
                            assert(targets_within(views[k], other[k]));
                        }
                    }
                }
                // The distance to the universe never grows, and shrinks when the join changes.
                lemma_known_len_bounded(joined.0, universe);
                lemma_known_len_bounded(previous.0, universe);
                lemma_pending_update(views, count, universe.len(), index as int, joined);
                if !entry_changed {
                    assert(spec_new_targets(previous.0, incoming.0).len() == 0);
                    assert(joined.0 =~= previous.0);
                    assert(updated =~= views);
                    lemma_new_targets_fresh(previous.0, incoming.0);
                    assert(targets_within(incoming, previous));
                }
            }
            i += 1;
        }
        if !changed {
            proof {
                assert(holds_bindings(targets_views(targets@), bindings@));
            }
            break;
        }
    }
    targets
}

/// One reverse reference to a function declaration.
#[derive(Clone, Copy, Debug, PartialEq, Eq, Hash, Structural)]
pub struct FunctionReference {
    /// The referencing expression.
    pub expr: ExprId,
    /// The expression's source span.
    pub span: Span,
    /// The lexically enclosing function, if any.
    pub owner: Option<FunctionId>,
    /// Whether the reference is a direct call or a function value.
    pub kind: FunctionReferenceKind,
}

/// Compilation-wide reverse-reference index for function declarations.
///
/// The view is the references to each function, by the index of its identifier, and the
/// resolved targets of each variable, by the index of its identifier.
#[derive(Debug)]
pub struct FunctionReferenceIndex {
    references: Vec<Vec<FunctionReference>>,
    value_targets: Vec<FunctionValueTargets>,
}

impl View for FunctionReferenceIndex {
    type V = (Seq<Seq<FunctionReference>>, Seq<TargetsView>);

    closed spec fn view(&self) -> Self::V {
        (self.references@.map_values(|references: Vec<FunctionReference>| references@), targets_views(self.value_targets@))
    }
}

impl FunctionReferenceIndex {
    /// Returns all references to `function`.
    pub fn references_to(&self, function: FunctionId) -> (references: &[FunctionReference])
        requires
            function.0 < self@.0.len(),
        ensures
            references@ == self@.0[function.0 as int],
    {
        self.references[function.0 as usize].as_slice()
    }

    /// Returns whether `function` is referenced anywhere in the compilation.
    pub fn is_referenced(&self, function: FunctionId) -> (referenced: bool)
        requires
            function.0 < self@.0.len(),
        ensures
            referenced == (self@.0[function.0 as int].len() > 0),
    {
        self.references_to(function).len() > 0
    }

    /// Returns whether `function` is used by internal execution.
    ///
    /// External calls do not count because they remain valid if a public declaration is narrowed
    /// to external visibility.
    pub fn is_internally_referenced(&self, function: FunctionId) -> (internal: bool)
        requires
            function.0 < self@.0.len(),
        ensures
            internal == exists|k: int|
                0 <= k < self@.0[function.0 as int].len() && is_internal_reference(
                    (#[trigger] self@.0[function.0 as int][k]).kind,
                ),
    {
        let references = self.references_to(function);
        let mut i: usize = 0;
        while i < references.len()
            invariant
                0 <= i <= references@.len(),
                references@ == self@.0[function.0 as int],
                forall|k: int| 0 <= k < i ==> !is_internal_reference((#[trigger] references@[k]).kind),
            decreases references@.len() - i,
        {
            if matches!(references[i].kind, FunctionReferenceKind::InternalCall | FunctionReferenceKind::Value) {
                proof {
                    assert(is_internal_reference(self@.0[function.0 as int][i as int].kind));
                }
                return true;
            }
            i += 1;
        }
        false
    }

    /// Returns the declarations which `expr` may denote as an internal function value.
    ///
    /// This follows declaration initializers, assignments, conditionals, and arguments passed to
    /// statically resolved internal function parameters. The result is deliberately a may-set.
    pub fn possible_value_targets(&self, expr: &ValueExpr) -> (targets: FunctionValueTargets)
        requires
            variables_below(*expr, self@.1.len()),
        ensures
            targets@ == value_targets(*expr, self@.1),
    {
        collect_value_targets(expr, &self.value_targets)
    }
}

/// Builds the reference index from the references collected for each function, the kind of each
/// variable, and the value bindings of variables (declaration initializers, plain assignments,
/// `delete`s and arguments of internal calls), whose targets [`resolve_value_targets`] resolves.
pub fn build_function_reference_index(
    references: Vec<Vec<FunctionReference>>,
    kinds: &[VarKind],
    bindings: &[(VariableId, Option<ValueExpr>)],
) -> (index: FunctionReferenceIndex)
    requires
        bindings_below(bindings@, kinds@.len() as nat),
    ensures
        index@.0 == references@.map_values(|references: Vec<FunctionReference>| references@),
        index@.1.len() == kinds@.len(),
        is_target_solution(index@.1, kinds@, bindings@),
        forall|other: Seq<TargetsView>| #[trigger]
            is_target_solution(other, kinds@, bindings@) ==> all_within(index@.1, other),
{
    let value_targets = resolve_value_targets(kinds, bindings);
    FunctionReferenceIndex { references, value_targets }
}

fn contains_target(known: &Vec<FunctionValueTarget>, target: FunctionValueTarget) -> (present: bool)
    ensures
        present == known@.contains(target),
{
    let mut i: usize = 0;
    while i < known.len()
        invariant
            0 <= i <= known@.len(),
            forall|k: int| 0 <= k < i ==> known@[k] != target,
        decreases known@.len() - i,
    {
        if known[i] == target {
            return true;
        }
        i += 1;
    }
    false
}

/// A reference counts as internal use when it is an internal call or a function value.
pub open spec fn is_internal_reference(kind: FunctionReferenceKind) -> bool {
    kind is InternalCall || kind is Value
}

/// Joining a set into itself changes nothing, and every known target of both sets is known
/// after a join.
pub proof fn lemma_new_targets_fresh(known: Seq<FunctionValueTarget>, other: Seq<FunctionValueTarget>)
    ensures
        forall|t: FunctionValueTarget| #[trigger] spec_new_targets(known, other).contains(t) ==> !known.contains(t)
            && other.contains(t),
        forall|t: FunctionValueTarget| #[trigger] other.contains(t) ==> known.contains(t)
            || spec_new_targets(known, other).contains(t),
        spec_new_targets(known, known) == Seq::<FunctionValueTarget>::empty(),
    decreases other.len(),
{
    if other.len() > 0 {
        lemma_new_targets_fresh(known, other.drop_last());
        let rest = spec_new_targets(known, other.drop_last());
        assert forall|t: FunctionValueTarget| #[trigger] other.contains(t) implies known.contains(t)
            || spec_new_targets(known, other).contains(t) by {
            let k = choose|k: int| 0 <= k < other.len() && other[k] == t;
            let last = other.last();
            if k < other.len() - 1 {
                assert(other.drop_last()[k] == t);
                assert(other.drop_last().contains(t));
            }
            if rest.contains(t) {
                let j = choose|j: int| 0 <= j < rest.len() && rest[j] == t;
                if !(known.contains(last) || rest.contains(last)) {
                    assert(rest.push(last)[j] == t);
                }
            }
            if k == other.len() - 1 && !(known.contains(last) || rest.contains(last)) {
                assert(rest.push(last)[rest.len() as int] == t);
            }
        }
        assert forall|t: FunctionValueTarget| #[trigger] spec_new_targets(known, other).contains(t) implies !known.contains(t)
            && other.contains(t) by {
            if rest.contains(t) {
                let k = choose|k: int| 0 <= k < other.drop_last().len() && other.drop_last()[k] == t;
                assert(other[k] == t);
            } else {
                assert(t == other.last());
                assert(other[other.len() - 1] == t);
            }
        }
    }
    lemma_new_targets_self(known, known.len() as int);
    assert(known.subrange(0, known.len() as int) =~= known);
}

proof fn lemma_new_targets_self(known: Seq<FunctionValueTarget>, n: int)
    requires
        0 <= n <= known.len(),
    ensures
        spec_new_targets(known, known.subrange(0, n)) == Seq::<FunctionValueTarget>::empty(),
    decreases n,
{
    if n > 0 {
        let prefix = known.subrange(0, n);
        assert(prefix.drop_last() =~= known.subrange(0, n - 1));
        lemma_new_targets_self(known, n - 1);
        assert(known[n - 1] == prefix.last());
    } else {
        assert(known.subrange(0, 0) =~= Seq::<FunctionValueTarget>::empty());
    }
}

} // verus!
