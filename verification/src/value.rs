//! Path-sensitive source-value identities for HIR analyses.

use vstd::prelude::*;

use crate::ids::{ExprId, VariableId};
use crate::keyed::KeyedVec;
use crate::lattice::JoinSemiLattice;
use crate::place::{Place, ProjectionElem};

verus! {

/// Finite identity of the aggregate instance which owns a [`ValueOrigin::Place`].
///
/// Source places can be rebound, so a path such as `value.field` is not a stable value identity by
/// itself. Generations distinguish the initial object from objects produced by later expression or
/// call sites while remaining finite enough for loop and recursion fixpoints.
#[derive(Clone, Copy, Debug, PartialEq, Eq, Hash, Structural)]
pub enum ValueGeneration {
    /// The aggregate initially held by a variable.
    Initial(VariableId),
    /// An aggregate produced by an expression site.
    Expr(ExprId),
    /// A reference-valued result of an internal call site.
    CallResult(ExprId, usize),
    /// An opaque reset which cannot be dynamically correlated.
    Opaque(VariableId),
}

/// The abstract form of a [`ValueOrigin`]: places are replaced by their views.
pub enum OriginView {
    /// The value a variable has before any tracked assignment.
    Initial(VariableId),
    /// A source place in one aggregate generation.
    Place {
        /// Stable source identity of the projected value.
        identity: (VariableId, Seq<ProjectionElem>),
        /// Current source move path which stores the value.
        anchor: (VariableId, Seq<ProjectionElem>),
        /// Identity of the aggregate instance which owns the projection.
        generation: ValueGeneration,
    },
    /// A value produced by an expression.
    Expr(ExprId),
    /// A fresh reference-valued output of one internal call site.
    CallResult(ExprId, usize),
    /// A finite identity whose dynamic instances must not be treated as definite aliases.
    Opaque(VariableId),
}

/// The source identity of a runtime value.
///
/// Initial function inputs and state reads are identified by their declaration. Values produced
/// by expressions are identified by their HIR expression, while opaque resets use their variable
/// declaration without claiming dynamic identity. These finite sets let domains built from the
/// identities converge under joins, including in loops.
#[derive(Debug)]
pub enum ValueOrigin {
    /// The value a variable has before any tracked assignment.
    Initial(VariableId),
    /// A source place in one aggregate generation, with a stable identity and movable anchor.
    ///
    /// The identity remains stable when an alias survives a source-root rebind, while the anchor
    /// moves to the surviving variable. Keeping both the place and owning aggregate generation
    /// distinct prevents facts from reaching a sibling field or replacement object.
    Place {
        /// Stable source identity of the projected value.
        identity: Place,
        /// Current source move path which stores the value.
        anchor: Place,
        /// Identity of the aggregate instance which owns the projection.
        generation: ValueGeneration,
    },
    /// A value produced by an expression.
    Expr(ExprId),
    /// A fresh reference-valued output of one internal call site.
    CallResult(ExprId, usize),
    /// A finite identity whose dynamic instances must not be treated as definite aliases.
    ///
    /// This is useful for source-level resets which have no expression ID, such as an
    /// uninitialized local declaration executed on each loop iteration.
    Opaque(VariableId),
}

impl View for ValueOrigin {
    type V = OriginView;

    open spec fn view(&self) -> OriginView {
        match self {
            ValueOrigin::Initial(variable) => OriginView::Initial(*variable),
            ValueOrigin::Place { identity, anchor, generation } => OriginView::Place {
                identity: identity@,
                anchor: anchor@,
                generation: *generation,
            },
            ValueOrigin::Expr(expr) => OriginView::Expr(*expr),
            ValueOrigin::CallResult(expr, index) => OriginView::CallResult(*expr, *index),
            ValueOrigin::Opaque(variable) => OriginView::Opaque(*variable),
        }
    }
}

/// The expression site of a generation, if it has one.
pub open spec fn generation_expr(generation: ValueGeneration) -> Option<ExprId> {
    match generation {
        ValueGeneration::Expr(expr) => Some(expr),
        ValueGeneration::CallResult(expr, _) => Some(expr),
        _ => None,
    }
}

/// The generation of the aggregate that owns a value of `origin`.
pub open spec fn generation_of(origin: OriginView) -> ValueGeneration {
    match origin {
        OriginView::Initial(variable) => ValueGeneration::Initial(variable),
        OriginView::Place { generation, .. } => generation,
        OriginView::Expr(expr) => ValueGeneration::Expr(expr),
        OriginView::CallResult(expr, index) => ValueGeneration::CallResult(expr, index),
        OriginView::Opaque(variable) => ValueGeneration::Opaque(variable),
    }
}

/// The expression site which produced a value of `origin`, if any.
pub open spec fn origin_expr(origin: OriginView) -> Option<ExprId> {
    match origin {
        OriginView::Place { generation, .. } => generation_expr(generation),
        OriginView::Expr(expr) => Some(expr),
        OriginView::CallResult(expr, _) => Some(expr),
        _ => None,
    }
}

/// The stable place identity of an origin: variables stand for their unprojected place.
/// Expression and call-result origins have none.
pub open spec fn place_identity(origin: OriginView) -> Option<((VariableId, Seq<ProjectionElem>), ValueGeneration)> {
    match origin {
        OriginView::Initial(variable) => Some(
            ((variable, Seq::<ProjectionElem>::empty()), ValueGeneration::Initial(variable)),
        ),
        OriginView::Opaque(variable) => Some(
            ((variable, Seq::<ProjectionElem>::empty()), ValueGeneration::Opaque(variable)),
        ),
        OriginView::Place { identity, generation, .. } => Some((identity, generation)),
        _ => None,
    }
}

/// Whether two origins have the same finite source identity: equal place identities, or, for
/// origins without one, equal origins.
pub open spec fn same_source(lhs: OriginView, rhs: OriginView) -> bool {
    match (place_identity(lhs), place_identity(rhs)) {
        (Some(l), Some(r)) => l == r,
        (None, None) => lhs == rhs,
        _ => false,
    }
}

/// Having the same source is an equivalence relation on origins.
pub proof fn lemma_same_source_is_equivalence(a: OriginView, b: OriginView, c: OriginView)
    ensures
        same_source(a, a),
        same_source(a, b) == same_source(b, a),
        same_source(a, b) && same_source(b, c) ==> same_source(a, c),
{
}

impl ValueGeneration {
    /// The generation of the aggregate that owns a value of `origin`.
    pub fn from_origin(origin: &ValueOrigin) -> (generation: Self)
        ensures
            generation == generation_of(origin@),
    {
        match origin {
            ValueOrigin::Initial(variable) => ValueGeneration::Initial(*variable),
            ValueOrigin::Place { generation, .. } => *generation,
            ValueOrigin::Expr(expr) => ValueGeneration::Expr(*expr),
            ValueOrigin::CallResult(expr, index) => ValueGeneration::CallResult(*expr, *index),
            ValueOrigin::Opaque(variable) => ValueGeneration::Opaque(*variable),
        }
    }

    /// Returns the expression site that produced this generation, if any.
    pub fn expr(&self) -> (expr: Option<ExprId>)
        ensures
            expr == generation_expr(*self),
    {
        match self {
            ValueGeneration::Expr(expr) => Some(*expr),
            ValueGeneration::CallResult(expr, _) => Some(*expr),
            ValueGeneration::Initial(_) => None,
            ValueGeneration::Opaque(_) => None,
        }
    }
}

impl ValueOrigin {
    /// Creates a projected origin whose identity and physical anchor are both `place`.
    pub fn place(place: Place, generation: ValueGeneration) -> (origin: Self)
        ensures
            origin@ == (OriginView::Place { identity: place@, anchor: place@, generation }),
    {
        ValueOrigin::Place { identity: place.duplicate(), anchor: place, generation }
    }

    /// Returns the expression site which produced this value, if any.
    pub fn expr(&self) -> (expr: Option<ExprId>)
        ensures
            expr == origin_expr(self@),
    {
        match self {
            ValueOrigin::Place { generation, .. } => generation.expr(),
            ValueOrigin::Expr(expr) => Some(*expr),
            ValueOrigin::CallResult(expr, _) => Some(*expr),
            ValueOrigin::Initial(_) => None,
            ValueOrigin::Opaque(_) => None,
        }
    }

    /// Returns a copy of this origin.
    pub fn duplicate(&self) -> (copy: Self)
        ensures
            copy@ == self@,
    {
        match self {
            ValueOrigin::Initial(variable) => ValueOrigin::Initial(*variable),
            ValueOrigin::Place { identity, anchor, generation } => ValueOrigin::Place {
                identity: identity.duplicate(),
                anchor: anchor.duplicate(),
                generation: *generation,
            },
            ValueOrigin::Expr(expr) => ValueOrigin::Expr(*expr),
            ValueOrigin::CallResult(expr, index) => ValueOrigin::CallResult(*expr, *index),
            ValueOrigin::Opaque(variable) => ValueOrigin::Opaque(*variable),
        }
    }

    /// Returns whether two origins are the same.
    pub fn same_origin(&self, other: &Self) -> (same: bool)
        ensures
            same == (self@ == other@),
    {
        match (self, other) {
            (ValueOrigin::Initial(l), ValueOrigin::Initial(r)) => l.0 == r.0,
            (
                ValueOrigin::Place { identity: li, anchor: la, generation: lg },
                ValueOrigin::Place { identity: ri, anchor: ra, generation: rg },
            ) => li.same_place(ri) && la.same_place(ra) && *lg == *rg,
            (ValueOrigin::Expr(l), ValueOrigin::Expr(r)) => l.0 == r.0,
            (ValueOrigin::CallResult(le, li), ValueOrigin::CallResult(re, ri)) => le.0 == re.0 && *li
                == *ri,
            (ValueOrigin::Opaque(l), ValueOrigin::Opaque(r)) => l.0 == r.0,
            _ => false,
        }
    }

    /// Returns whether two origins have the same finite source identity.
    ///
    /// Detached aliases may have different physical anchors while retaining the same identity.
    /// Expression and call-result identities can represent different dynamic values when their
    /// site repeats, so callers must also check [`EvaluatedSites::origin_is_correlatable`] before
    /// using this relation as a definite runtime alias.
    pub fn same_source(&self, other: &Self) -> (same: bool)
        ensures
            same == same_source(self@, other@),
    {
        match (self, other) {
            (ValueOrigin::Expr(_), _) | (ValueOrigin::CallResult(..), _) => match other {
                ValueOrigin::Expr(_) | ValueOrigin::CallResult(..) => self.same_origin(other),
                _ => false,
            },
            (_, ValueOrigin::Expr(_)) | (_, ValueOrigin::CallResult(..)) => false,
            _ => {
                let (l_place, l_generation) = Self::identity_of(self);
                let (r_place, r_generation) = Self::identity_of(other);
                l_place.same_place(&r_place) && l_generation == r_generation
            },
        }
    }

    /// The place identity of an origin that has one.
    fn identity_of(origin: &Self) -> (identity: (Place, ValueGeneration))
        requires
            place_identity(origin@) is Some,
        ensures
            place_identity(origin@) == Some((identity.0@, identity.1)),
    {
        match origin {
            ValueOrigin::Initial(variable) => (Place::from_local(*variable), ValueGeneration::Initial(*variable)),
            ValueOrigin::Opaque(variable) => (Place::from_local(*variable), ValueGeneration::Opaque(*variable)),
            ValueOrigin::Place { identity, generation, .. } => (identity.duplicate(), *generation),
            ValueOrigin::Expr(expr) => (Place::from_local(VariableId(0)), ValueGeneration::Expr(*expr)),
            ValueOrigin::CallResult(expr, index) => (
                Place::from_local(VariableId(0)),
                ValueGeneration::CallResult(*expr, *index),
            ),
        }
    }
}

impl Clone for ValueOrigin {
    fn clone(&self) -> (copy: Self)
        ensures
            copy@ == self@,
    {
        self.duplicate()
    }
}

/// The abstract state of [`EvaluatedSites`]: the sites seen at least once, and those that may
/// have been evaluated more than once.
pub open spec fn origin_is_correlatable(repeated: Set<ExprId>, origin: OriginView) -> bool {
    match origin {
        OriginView::Initial(_) => true,
        OriginView::Place { generation, .. } => match generation {
            ValueGeneration::Initial(_) => true,
            ValueGeneration::Expr(expr) => !repeated.contains(expr),
            ValueGeneration::CallResult(expr, _) => !repeated.contains(expr),
            ValueGeneration::Opaque(_) => false,
        },
        OriginView::Expr(expr) => !repeated.contains(expr),
        OriginView::CallResult(expr, _) => !repeated.contains(expr),
        OriginView::Opaque(_) => false,
    }
}

/// Tracks whether an expression site may execute more than once on one runtime path.
///
/// Joining two alternatives which each evaluate a site once does not make it repeated. A site is
/// repeated only when transfer reaches it again in a state where it was already seen, as happens
/// on loop backedges and recursive call summaries.
///
/// The view is the set of sites seen and the set of sites that may repeat.
#[derive(Debug)]
pub struct EvaluatedSites {
    seen: Vec<ExprId>,
    repeated: Vec<ExprId>,
}

impl View for EvaluatedSites {
    type V = (Set<ExprId>, Set<ExprId>);

    closed spec fn view(&self) -> (Set<ExprId>, Set<ExprId>) {
        (self.seen@.to_set(), self.repeated@.to_set())
    }
}

/// Whether `list` holds `expr`.
fn list_contains(list: &Vec<ExprId>, expr: ExprId) -> (found: bool)
    ensures
        found == list@.to_set().contains(expr),
{
    let mut i: usize = 0;
    while i < list.len()
        invariant
            0 <= i <= list@.len(),
            forall|k: int| 0 <= k < i ==> list@[k] != expr,
        decreases list@.len() - i,
    {
        if list[i].0 == expr.0 {
            proof {
                assert(list@.contains(expr));
            }
            return true;
        }
        i += 1;
    }
    false
}

/// Adds `expr` to `list` unless present and returns whether it was added.
fn list_insert(list: &mut Vec<ExprId>, expr: ExprId) -> (added: bool)
    ensures
        final(list)@.to_set() == old(list)@.to_set().insert(expr),
        added == !old(list)@.to_set().contains(expr),
{
    if list_contains(list, expr) {
        proof {
            assert(list@.to_set().insert(expr) =~= list@.to_set());
        }
        false
    } else {
        let ghost before = list@;
        list.push(expr);
        proof {
            assert(list@.to_set() =~= before.to_set().insert(expr)) by {
                assert forall|e: ExprId| list@.to_set().contains(e) <==> before.to_set().insert(expr).contains(e) by {
                    if list@.contains(e) && e != expr {
                        let k = choose|k: int| 0 <= k < list@.len() && list@[k] == e;
                        assert(before[k] == e);
                    }
                    if before.contains(e) {
                        let k = choose|k: int| 0 <= k < before.len() && before[k] == e;
                        assert(list@[k] == e);
                    }
                    if e == expr {
                        assert(list@[before.len() as int] == e);
                    }
                }
            }
        }
        true
    }
}

/// Adds every element of `other` to `list` and returns whether `list` grew.
fn list_extend(list: &mut Vec<ExprId>, other: &Vec<ExprId>) -> (grew: bool)
    ensures
        final(list)@.to_set() == old(list)@.to_set().union(other@.to_set()),
        grew == (final(list)@.to_set() != old(list)@.to_set()),
{
    let ghost start = list@.to_set();
    let mut grew = false;
    let mut i: usize = 0;
    while i < other.len()
        invariant
            0 <= i <= other@.len(),
            list@.to_set() == start.union(other@.subrange(0, i as int).to_set()),
            grew == (list@.to_set() != start),
        decreases other@.len() - i,
    {
        let ghost before = list@.to_set();
        let added = list_insert(list, other[i]);
        proof {
            assert(other@.subrange(0, i + 1).to_set() =~= other@.subrange(0, i as int).to_set().insert(other@[i as int])) by {
                let next = other@.subrange(0, i + 1);
                let prev = other@.subrange(0, i as int);
                assert forall|e: ExprId| next.to_set().contains(e) <==> prev.to_set().insert(other@[i as int]).contains(e) by {
                    if next.contains(e) {
                        let k = choose|k: int| 0 <= k < next.len() && next[k] == e;
                        if k < i {
                            assert(prev[k] == e);
                        }
                    }
                    if prev.contains(e) {
                        let k = choose|k: int| 0 <= k < prev.len() && prev[k] == e;
                        assert(next[k] == e);
                    }
                    if e == other@[i as int] {
                        assert(next[i as int] == e);
                    }
                }
            }
            assert(list@.to_set() =~= start.union(other@.subrange(0, i + 1).to_set()));
            if added {
                assert(!before.contains(other@[i as int]));
                assert(!start.contains(other@[i as int]));
                assert(list@.to_set().contains(other@[i as int]));
            } else {
                assert(list@.to_set() =~= before);
            }
        }
        grew = grew || added;
        i += 1;
    }
    proof {
        assert(other@.subrange(0, other@.len() as int) =~= other@);
    }
    grew
}

impl EvaluatedSites {
    /// Creates a record with no evaluated site.
    pub fn new() -> (sites: Self)
        ensures
            sites@ == (Set::<ExprId>::empty(), Set::<ExprId>::empty()),
    {
        let sites = EvaluatedSites { seen: Vec::new(), repeated: Vec::new() };
        proof {
            assert(sites@.0 =~= Set::<ExprId>::empty());
            assert(sites@.1 =~= Set::<ExprId>::empty());
        }
        sites
    }

    /// Records one evaluation and returns whether this made the site potentially repeated.
    pub fn record(&mut self, expr: ExprId) -> (became_repeated: bool)
        ensures
            final(self)@.0 == old(self)@.0.insert(expr),
            final(self)@.1 == (if old(self)@.0.contains(expr) {
                old(self)@.1.insert(expr)
            } else {
                old(self)@.1
            }),
            became_repeated == (old(self)@.0.contains(expr) && !old(self)@.1.contains(expr)),
    {
        if list_insert(&mut self.seen, expr) {
            false
        } else {
            list_insert(&mut self.repeated, expr)
        }
    }

    /// Returns whether one expression site is safe to correlate as a unique dynamic value.
    pub fn is_correlatable(&self, expr: ExprId) -> (correlatable: bool)
        ensures
            correlatable == !self@.1.contains(expr),
    {
        !list_contains(&self.repeated, expr)
    }

    /// Returns whether a value origin is safe to correlate as a unique dynamic value.
    pub fn origin_is_correlatable(&self, origin: &ValueOrigin) -> (correlatable: bool)
        ensures
            correlatable == origin_is_correlatable(self@.1, origin@),
    {
        match origin {
            ValueOrigin::Initial(_) => true,
            ValueOrigin::Place { generation, .. } => match generation {
                ValueGeneration::Initial(_) => true,
                ValueGeneration::Expr(expr) => self.is_correlatable(*expr),
                ValueGeneration::CallResult(expr, _) => self.is_correlatable(*expr),
                ValueGeneration::Opaque(_) => false,
            },
            ValueOrigin::Expr(expr) => self.is_correlatable(*expr),
            ValueOrigin::CallResult(expr, _) => self.is_correlatable(*expr),
            ValueOrigin::Opaque(_) => false,
        }
    }

    /// Returns whether two origins definitely name the same unique dynamic source value.
    pub fn origins_are_correlatable(&self, lhs: &ValueOrigin, rhs: &ValueOrigin) -> (correlatable: bool)
        ensures
            correlatable == (same_source(lhs@, rhs@) && origin_is_correlatable(self@.1, lhs@)
                && origin_is_correlatable(self@.1, rhs@)),
    {
        lhs.same_source(rhs) && self.origin_is_correlatable(lhs) && self.origin_is_correlatable(rhs)
    }

    /// Returns a copy of this record.
    pub fn duplicate(&self) -> (copy: Self)
        ensures
            copy@ == self@,
    {
        let mut seen = Vec::new();
        let _ = list_extend(&mut seen, &self.seen);
        let mut repeated = Vec::new();
        let _ = list_extend(&mut repeated, &self.repeated);
        proof {
            assert(seen@.to_set() =~= self.seen@.to_set());
            assert(repeated@.to_set() =~= self.repeated@.to_set());
        }
        EvaluatedSites { seen, repeated }
    }
}

impl Default for EvaluatedSites {
    fn default() -> (sites: Self)
        ensures
            sites@ == (Set::<ExprId>::empty(), Set::<ExprId>::empty()),
    {
        EvaluatedSites::new()
    }
}

impl Clone for EvaluatedSites {
    fn clone(&self) -> (copy: Self)
        ensures
            copy@ == self@,
    {
        self.duplicate()
    }
}

impl JoinSemiLattice for EvaluatedSites {
    open spec fn spec_join(lhs: (Set<ExprId>, Set<ExprId>), rhs: (Set<ExprId>, Set<ExprId>)) -> (Set<ExprId>, Set<ExprId>) {
        (lhs.0.union(rhs.0), lhs.1.union(rhs.1))
    }

    proof fn lemma_clone_preserves_view() {
    }

    fn join(&mut self, other: &Self) -> (changed: bool) {
        let seen_grew = list_extend(&mut self.seen, &other.seen);
        let repeated_grew = list_extend(&mut self.repeated, &other.repeated);
        seen_grew || repeated_grew
    }
}

/// A path-sensitive property attached to a possible value.
///
/// Properties are compared and copied exactly: a copy equals the copied property, and two properties
/// are the same exactly when they are equal.
pub trait ValueProperty: Sized {
    /// Returns a copy of this property.
    fn copy_property(&self) -> (copy: Self)
        ensures
            copy == *self,
    ;

    /// Returns whether the two properties are equal.
    fn same_property(&self, other: &Self) -> (same: bool)
        ensures
            same == (*self == *other),
    ;
}

impl ValueProperty for bool {
    fn copy_property(&self) -> (copy: Self) {
        *self
    }

    fn same_property(&self, other: &Self) -> (same: bool) {
        *self == *other
    }
}

/// One possible value and a path-sensitive property attached to it.
///
/// The view is the origin's view and the property.
#[derive(Debug)]
pub struct AbstractValue<P> {
    origin: ValueOrigin,
    property: P,
}

impl<P> View for AbstractValue<P> {
    type V = (OriginView, P);

    closed spec fn view(&self) -> (OriginView, P) {
        (self.origin@, self.property)
    }
}

impl<P: ValueProperty> AbstractValue<P> {
    /// Creates a possible value.
    pub fn new(origin: ValueOrigin, property: P) -> (value: Self)
        ensures
            value@ == (origin@, property),
    {
        AbstractValue { origin, property }
    }

    /// Returns the value's source identity.
    pub fn origin(&self) -> (origin: ValueOrigin)
        ensures
            origin@ == self@.0,
    {
        self.origin.duplicate()
    }

    /// Returns the path-sensitive property attached to the value.
    pub fn property(&self) -> (property: &P)
        ensures
            *property == self@.1,
    {
        &self.property
    }

    /// Returns a copy of this value.
    pub fn duplicate(&self) -> (copy: Self)
        ensures
            copy@ == self@,
    {
        AbstractValue { origin: self.origin.duplicate(), property: self.property.copy_property() }
    }

    /// Returns whether the two values have the same origin and property.
    pub fn same_value(&self, other: &Self) -> (same: bool)
        ensures
            same == (self@ == other@),
    {
        self.origin.same_origin(&other.origin) && self.property.same_property(&other.property)
    }
}

impl<P: ValueProperty> Clone for AbstractValue<P> {
    fn clone(&self) -> (copy: Self)
        ensures
            copy@ == self@,
    {
        self.duplicate()
    }
}

/// The abstract elements of a sequence of possible values.
pub open spec fn value_views<P>(values: Seq<AbstractValue<P>>) -> Seq<(OriginView, P)> {
    values.map_values(|value: AbstractValue<P>| value@)
}

/// `values` with `value` added at the end unless it is already present.
pub open spec fn add_value<A>(values: Seq<A>, value: A) -> Seq<A> {
    if values.contains(value) {
        values
    } else {
        values.push(value)
    }
}

/// The alternatives of `values` followed by those of `other` that are new, in order.
pub open spec fn join_values<A>(values: Seq<A>, other: Seq<A>) -> Seq<A>
    decreases other.len(),
{
    if other.len() == 0 {
        values
    } else {
        add_value(join_values(values, other.drop_last()), other.last())
    }
}

/// Joining keeps the existing alternatives as a prefix, and holds exactly the alternatives of
/// either side, each once when the left side had no repetition.
pub proof fn lemma_join_values<A>(values: Seq<A>, other: Seq<A>)
    ensures
        join_values(values, other).len() >= values.len(),
        join_values(values, other).subrange(0, values.len() as int) == values,
        forall|a: A| join_values(values, other).contains(a) <==> (values.contains(a) || other.contains(a)),
        values.no_duplicates() ==> join_values(values, other).no_duplicates(),
    decreases other.len(),
{
    if other.len() > 0 {
        let prev = join_values(values, other.drop_last());
        lemma_join_values(values, other.drop_last());
        let x = other.last();
        if !prev.contains(x) {
            assert(prev.push(x).subrange(0, values.len() as int) =~= prev.subrange(0, values.len() as int));
            assert forall|a: A| prev.push(x).contains(a) <==> (prev.contains(a) || a == x) by {
                if prev.push(x).contains(a) && a != x {
                    let k = choose|k: int| 0 <= k < prev.push(x).len() && prev.push(x)[k] == a;
                    assert(prev[k] == a);
                }
                if prev.contains(a) {
                    let k = choose|k: int| 0 <= k < prev.len() && prev[k] == a;
                    assert(prev.push(x)[k] == a);
                }
                if a == x {
                    assert(prev.push(x)[prev.len() as int] == a);
                }
            }
            if prev.no_duplicates() {
                assert forall|i: int, j: int| 0 <= i < prev.push(x).len() && 0 <= j < prev.push(x).len() && i != j
                    implies prev.push(x)[i] != prev.push(x)[j] by {
                    if i < prev.len() && j < prev.len() {
                    } else if i < prev.len() {
                        assert(prev.contains(prev[i]));
                    } else {
                        assert(prev.contains(prev[j]));
                    }
                }
            }
        }
        assert forall|a: A| other.contains(a) <==> (other.drop_last().contains(a) || a == x) by {
            if other.contains(a) && a != x {
                let k = choose|k: int| 0 <= k < other.len() && other[k] == a;
                assert(k != other.len() - 1);
                assert(other.drop_last()[k] == a);
            }
            if other.drop_last().contains(a) {
                let k = choose|k: int| 0 <= k < other.drop_last().len() && other.drop_last()[k] == a;
                assert(other[k] == a);
            }
            if a == x {
                assert(other[other.len() - 1] == a);
            }
        }
    }
}

/// Joining alternatives that are all present already changes nothing.
pub proof fn lemma_join_values_absorbs<A>(values: Seq<A>, other: Seq<A>)
    requires
        forall|a: A| other.contains(a) ==> values.contains(a),
    ensures
        join_values(values, other) == values,
    decreases other.len(),
{
    if other.len() > 0 {
        assert forall|a: A| other.drop_last().contains(a) implies values.contains(a) by {
            let k = choose|k: int| 0 <= k < other.drop_last().len() && other.drop_last()[k] == a;
            assert(other[k] == a);
        }
        lemma_join_values_absorbs(values, other.drop_last());
        assert(other.contains(other.last()));
    }
}

/// Joining the same alternatives twice is joining them once.
pub proof fn lemma_join_values_idempotent<A>(values: Seq<A>, other: Seq<A>)
    ensures
        join_values(join_values(values, other), other) == join_values(values, other),
{
    lemma_join_values(values, other);
    lemma_join_values_absorbs(join_values(values, other), other);
}

/// The common origin of a set of alternatives: defined when there is at least one alternative
/// and all of them have the same origin.
pub open spec fn common_origin_of<P>(values: Seq<(OriginView, P)>) -> Option<OriginView> {
    if values.len() > 0 && forall|i: int| 0 <= i < values.len() ==> #[trigger] values[i].0 == values[0].0 {
        Some(values[0].0)
    } else {
        None
    }
}

/// The first alternative's origin when every alternative has the same stable source.
pub open spec fn common_source_of<P>(values: Seq<(OriginView, P)>) -> Option<OriginView> {
    if values.len() > 0 && forall|i: int| 0 <= i < values.len() ==> same_source(#[trigger] values[i].0, values[0].0) {
        Some(values[0].0)
    } else {
        None
    }
}

/// Whether `after` is `before` with the properties of the `selected` alternatives replaced by
/// results of `update`, the others kept, followed by removal of repeated alternatives.
pub open spec fn refined_by<P, F: Fn(&P) -> P>(
    before: Seq<(OriginView, P)>,
    after: Seq<(OriginView, P)>,
    selected: Seq<bool>,
    update: F,
) -> bool {
    exists|mid: Seq<(OriginView, P)>|
        #[trigger] join_values(Seq::<(OriginView, P)>::empty(), mid) == after && mid.len() == before.len()
            && forall|i: int|
            0 <= i < mid.len() ==> (#[trigger] mid[i]).0 == before[i].0 && (if selected[i] {
                update.ensures((&before[i].1,), mid[i].1)
            } else {
                mid[i].1 == before[i].1
            })
}

/// Which alternatives of `values` have the same source as `source` and are unique dynamic values,
/// given the potentially repeated sites `repeated`.
pub open spec fn correlated_selection<P>(values: Seq<(OriginView, P)>, source: OriginView, repeated: Set<ExprId>) -> Seq<
    bool,
> {
    Seq::new(
        values.len(),
        |i: int| same_source(values[i].0, source) && origin_is_correlatable(repeated, values[i].0),
    )
}

/// A selection of all of `len` alternatives.
pub open spec fn all_selected(len: nat) -> Seq<bool> {
    Seq::new(len, |i: int| true)
}

/// Whether `predicate` may answer `chosen` for an origin whose view is `origin`.
pub open spec fn chosen_by<Pr: Fn(ValueOrigin) -> bool>(predicate: Pr, origin: OriginView, chosen: bool) -> bool {
    exists|o: ValueOrigin| o@ == origin && #[trigger] predicate.ensures((o,), chosen)
}

/// The finite alternatives which may reach a program point as one source value.
///
/// Properties remain attached to individual alternatives. Joining `safe(then_value)` with
/// `safe(else_value)` therefore preserves that every reaching value is safe, while joining safe
/// and unsafe versions of the same origin retains both possibilities.
///
/// The view is the sequence of alternatives in the order they were added; no alternative occurs
/// twice.
#[derive(Debug)]
pub struct ValueSet<P> {
    values: Vec<AbstractValue<P>>,
}

impl<P> View for ValueSet<P> {
    type V = Seq<(OriginView, P)>;

    closed spec fn view(&self) -> Seq<(OriginView, P)> {
        value_views(self.values@)
    }
}

impl<P> ValueSet<P> {
    #[verifier::type_invariant]
    closed spec fn distinct_alternatives(self) -> bool {
        value_views(self.values@).no_duplicates()
    }

    /// The possible values.
    pub closed spec fn members(&self) -> Seq<AbstractValue<P>> {
        self.values@
    }
}

impl<P: ValueProperty> ValueSet<P> {
    /// Creates a set with no possible value.
    pub fn new() -> (set: Self)
        ensures
            set@ == Seq::<(OriginView, P)>::empty(),
    {
        let set = ValueSet { values: Vec::new() };
        assert(set@ =~= Seq::<(OriginView, P)>::empty());
        set
    }

    /// Creates a set containing one possible value.
    pub fn singleton(origin: ValueOrigin, property: P) -> (set: Self)
        ensures
            set@ == seq![(origin@, property)],
    {
        let mut values = Vec::new();
        values.push(AbstractValue::new(origin, property));
        let set = ValueSet { values };
        assert(set@ =~= seq![(set.values@[0]@)]);
        set
    }

    /// Returns the possible values.
    pub fn values(&self) -> (values: &[AbstractValue<P>])
        ensures
            values@ == self.members(),
            value_views(values@) == self@,
    {
        self.values.as_slice()
    }

    /// Returns whether there are no possible values.
    pub fn is_empty(&self) -> (empty: bool)
        ensures
            empty == (self@.len() == 0),
    {
        self.values.len() == 0
    }

    /// Returns whether every possible value satisfies `predicate`.
    pub fn all<F: Fn(&AbstractValue<P>) -> bool>(&self, predicate: F) -> (holds: bool)
        requires
            forall|value: &AbstractValue<P>| predicate.requires((value,)),
        ensures
            holds ==> forall|i: int| 0 <= i < self.members().len() ==> predicate.ensures((&self.members()[i],), true),
            !holds ==> exists|i: int| 0 <= i < self.members().len() && predicate.ensures((&self.members()[i],), false),
    {
        let mut i: usize = 0;
        while i < self.values.len()
            invariant
                0 <= i <= self.values@.len(),
                forall|value: &AbstractValue<P>| predicate.requires((value,)),
                forall|k: int| 0 <= k < i ==> predicate.ensures((&self.values@[k],), true),
            decreases self.values@.len() - i,
        {
            if !predicate(&self.values[i]) {
                proof {
                    assert(predicate.ensures((&self.members()[i as int],), false));
                }
                return false;
            }
            i += 1;
        }
        true
    }

    /// Returns whether the set is non-empty and every possible value satisfies `predicate`.
    ///
    /// An accidentally empty abstract value cannot prove a property vacuously.
    pub fn is_proven<F: Fn(&AbstractValue<P>) -> bool>(&self, predicate: F) -> (proven: bool)
        requires
            forall|value: &AbstractValue<P>| predicate.requires((value,)),
        ensures
            proven ==> self@.len() > 0 && forall|i: int| 0 <= i < self.members().len() ==> predicate.ensures((&self.members()[i],), true),
            !proven ==> self@.len() == 0 || exists|i: int| 0 <= i < self.members().len() && predicate.ensures((&self.members()[i],), false),
    {
        !self.is_empty() && self.all(predicate)
    }

    /// For a predicate whose answer is a function `holds` of the value, the outcomes that
    /// `is_proven` allows come to one: the set is proven exactly when it is non-empty and `holds`
    /// accepts every member. In particular an empty set proves nothing.
    pub proof fn lemma_is_proven_exact<F: Fn(&AbstractValue<P>) -> bool>(
        &self,
        predicate: F,
        holds: spec_fn(AbstractValue<P>) -> bool,
        proven: bool,
    )
        requires
            forall|value: &AbstractValue<P>, answer: bool| #[trigger] predicate.ensures((value,), answer) ==> answer
                == holds(*value),
            proven ==> self@.len() > 0 && forall|i: int| 0 <= i < self.members().len() ==> predicate.ensures((&self.members()[i],), true),
            !proven ==> self@.len() == 0 || exists|i: int| 0 <= i < self.members().len() && predicate.ensures((&self.members()[i],), false),
        ensures
            proven == (self@.len() > 0 && forall|i: int| 0 <= i < self.members().len() ==> holds(#[trigger] self.members()[i])),
    {
        if proven {
            assert forall|i: int| 0 <= i < self.members().len() implies holds(#[trigger] self.members()[i]) by {
                assert(predicate.ensures((&self.members()[i],), true));
            }
        } else if self@.len() > 0 {
            let i = choose|i: int| 0 <= i < self.members().len() && predicate.ensures((&self.members()[i],), false);
            assert(!holds(self.members()[i]));
        }
    }

    /// Returns whether any possible value satisfies `predicate`.
    pub fn any<F: Fn(&AbstractValue<P>) -> bool>(&self, predicate: F) -> (holds: bool)
        requires
            forall|value: &AbstractValue<P>| predicate.requires((value,)),
        ensures
            holds ==> exists|i: int| 0 <= i < self.members().len() && predicate.ensures((&self.members()[i],), true),
            !holds ==> forall|i: int| 0 <= i < self.members().len() ==> predicate.ensures((&self.members()[i],), false),
    {
        let mut i: usize = 0;
        while i < self.values.len()
            invariant
                0 <= i <= self.values@.len(),
                forall|value: &AbstractValue<P>| predicate.requires((value,)),
                forall|k: int| 0 <= k < i ==> predicate.ensures((&self.values@[k],), false),
            decreases self.values@.len() - i,
        {
            if predicate(&self.values[i]) {
                proof {
                    assert(predicate.ensures((&self.members()[i as int],), true));
                }
                return true;
            }
            i += 1;
        }
        false
    }

    /// Returns the common origin when every alternative denotes the same source value.
    pub fn common_origin(&self) -> (origin: Option<ValueOrigin>)
        ensures
            match origin {
                Some(o) => common_origin_of(self@) == Some(o@),
                None => common_origin_of(self@) is None,
            },
    {
        if self.values.len() == 0 {
            return None;
        }
        let first = &self.values[0].origin;
        let mut i: usize = 0;
        while i < self.values.len()
            invariant
                0 <= i <= self.values@.len(),
                self.values@.len() > 0,
                *first == self.values@[0].origin,
                forall|k: int| 0 <= k < i ==> #[trigger] self@[k].0 == self@[0].0,
            decreases self.values@.len() - i,
        {
            if !self.values[i].origin.same_origin(first) {
                proof {
                    assert(self@[i as int].0 != self@[0].0);
                }
                return None;
            }
            proof {
                assert(self@[i as int].0 == self@[0].0);
            }
            i += 1;
        }
        Some(first.duplicate())
    }

    /// Returns one representative origin when every alternative has the same stable source.
    ///
    /// The alternatives may have different physical anchors after a source-root rebind. Callers
    /// using the result as a definite runtime identity must also establish dynamic correlatability
    /// with [`EvaluatedSites::origin_is_correlatable`].
    pub fn common_source(&self) -> (origin: Option<ValueOrigin>)
        ensures
            match origin {
                Some(o) => common_source_of(self@) == Some(o@),
                None => common_source_of(self@) is None,
            },
    {
        if self.values.len() == 0 {
            return None;
        }
        let first = &self.values[0].origin;
        let mut i: usize = 0;
        while i < self.values.len()
            invariant
                0 <= i <= self.values@.len(),
                self.values@.len() > 0,
                *first == self.values@[0].origin,
                forall|k: int| 0 <= k < i ==> same_source(#[trigger] self@[k].0, self@[0].0),
            decreases self.values@.len() - i,
        {
            if !self.values[i].origin.same_source(first) {
                proof {
                    assert(!same_source(self@[i as int].0, self@[0].0));
                }
                return None;
            }
            proof {
                assert(same_source(self@[i as int].0, self@[0].0));
            }
            i += 1;
        }
        Some(first.duplicate())
    }

    /// Returns whether the value is one of the alternatives.
    fn contains_value(values: &Vec<AbstractValue<P>>, value: &AbstractValue<P>) -> (found: bool)
        ensures
            found == value_views(values@).contains(value@),
    {
        let mut i: usize = 0;
        while i < values.len()
            invariant
                0 <= i <= values@.len(),
                forall|k: int| 0 <= k < i ==> values@[k]@ != value@,
            decreases values@.len() - i,
        {
            if values[i].same_value(value) {
                proof {
                    assert(value_views(values@)[i as int] == value@);
                }
                return true;
            }
            i += 1;
        }
        proof {
            if value_views(values@).contains(value@) {
                let k = choose|k: int| 0 <= k < value_views(values@).len() && value_views(values@)[k] == value@;
                assert(values@[k]@ == value@);
            }
        }
        false
    }

    /// Adds copies of the alternatives of `other` that `values` lacks, in order.
    fn extend_values(values: &mut Vec<AbstractValue<P>>, other: &[AbstractValue<P>])
        ensures
            value_views(final(values)@) == join_values(value_views(old(values)@), value_views(other@)),
    {
        let ghost start = value_views(values@);
        let mut i: usize = 0;
        while i < other.len()
            invariant
                0 <= i <= other@.len(),
                value_views(values@) == join_values(start, value_views(other@).subrange(0, i as int)),
            decreases other@.len() - i,
        {
            let ghost before = value_views(values@);
            let ghost prefix = value_views(other@).subrange(0, i + 1);
            proof {
                assert(prefix.drop_last() =~= value_views(other@).subrange(0, i as int));
                assert(prefix.last() == other@[i as int]@);
            }
            if !Self::contains_value(values, &other[i]) {
                values.push(other[i].duplicate());
                proof {
                    assert(value_views(values@) =~= before.push(other@[i as int]@));
                }
            }
            i += 1;
        }
        proof {
            assert(value_views(other@).subrange(0, other@.len() as int) =~= value_views(other@));
        }
    }

    /// Returns whether the two sets hold the same alternatives in the same order.
    pub fn same_set(&self, other: &Self) -> (same: bool)
        ensures
            same == (self@ == other@),
    {
        if self.values.len() != other.values.len() {
            proof {
                assert(self@.len() != other@.len());
            }
            return false;
        }
        let mut i: usize = 0;
        while i < self.values.len()
            invariant
                0 <= i <= self.values@.len(),
                self.values@.len() == other.values@.len(),
                forall|k: int| 0 <= k < i ==> self@[k] == other@[k],
            decreases self.values@.len() - i,
        {
            if !self.values[i].same_value(&other.values[i]) {
                proof {
                    assert(self@[i as int] != other@[i as int]);
                }
                return false;
            }
            proof {
                assert(self@[i as int] == other@[i as int]);
            }
            i += 1;
        }
        proof {
            assert(self@ =~= other@);
        }
        true
    }

    /// Replaces the property of each selected alternative with the result of `update`, then
    /// removes alternatives that became repeated.
    fn update_selected<F: Fn(&P) -> P>(&mut self, selected: &[bool], update: &F)
        requires
            selected@.len() == old(self)@.len(),
            forall|property: &P| update.requires((property,)),
        ensures
            refined_by(old(self)@, final(self)@, selected@, *update),
    {
        let mut mid: Vec<AbstractValue<P>> = Vec::new();
        let mut i: usize = 0;
        while i < self.values.len()
            invariant
                0 <= i <= self.values@.len(),
                selected@.len() == self.values@.len(),
                mid@.len() == i,
                forall|property: &P| update.requires((property,)),
                forall|k: int|
                    0 <= k < i ==> (#[trigger] mid@[k])@.0 == self@[k].0 && (if selected@[k] {
                        update.ensures((&self@[k].1,), mid@[k]@.1)
                    } else {
                        mid@[k]@.1 == self@[k].1
                    }),
            decreases self.values@.len() - i,
        {
            let value = &self.values[i];
            if selected[i] {
                let property = update(&value.property);
                mid.push(AbstractValue { origin: value.origin.duplicate(), property });
            } else {
                mid.push(value.duplicate());
            }
            i += 1;
        }
        let mut values = Vec::new();
        Self::extend_values(&mut values, mid.as_slice());
        proof {
            let witness = value_views(mid@);
            assert(value_views(Seq::<AbstractValue<P>>::empty()) =~= Seq::<(OriginView, P)>::empty());
            lemma_join_values(Seq::<(OriginView, P)>::empty(), witness);
            assert forall|k: int| 0 <= k < witness.len() implies (#[trigger] witness[k]).0 == self@[k].0 && (if selected@[k] {
                update.ensures((&self@[k].1,), witness[k].1)
            } else {
                witness[k].1 == self@[k].1
            }) by {
                assert(witness[k] == mid@[k]@);
            }
            assert(join_values(Seq::<(OriginView, P)>::empty(), witness) == value_views(values@));
        }
        self.values = values;
    }

    /// Applies `update` to alternatives whose origins satisfy `predicate`, then removes
    /// alternatives that became repeated.
    pub fn update_matching<Pr: Fn(ValueOrigin) -> bool, F: Fn(&P) -> P>(&mut self, predicate: Pr, update: F)
        requires
            forall|origin: ValueOrigin| predicate.requires((origin,)),
            forall|property: &P| update.requires((property,)),
        ensures
            exists|selected: Seq<bool>|
                #[trigger] refined_by(old(self)@, final(self)@, selected, update) && selected.len() == old(self)@.len()
                    && forall|i: int| 0 <= i < selected.len() ==> #[trigger] chosen_by(predicate, old(self)@[i].0, selected[i]),
    {
        let mut selected: Vec<bool> = Vec::new();
        let mut i: usize = 0;
        while i < self.values.len()
            invariant
                0 <= i <= self.values@.len(),
                selected@.len() == i,
                forall|origin: ValueOrigin| predicate.requires((origin,)),
                forall|k: int| 0 <= k < i ==> #[trigger] chosen_by(predicate, self@[k].0, selected@[k]),
            decreases self.values@.len() - i,
        {
            let origin = self.values[i].origin.duplicate();
            let ghost seen = origin;
            let chosen = predicate(origin);
            proof {
                assert(seen@ == self@[i as int].0);
                assert(predicate.ensures((seen,), chosen));
            }
            selected.push(chosen);
            proof {
                assert forall|k: int| 0 <= k < i + 1 implies #[trigger] chosen_by(predicate, self@[k].0, selected@[k]) by {
                    if k == i {
                        assert(selected@[k] == chosen);
                    }
                }
            }
            i += 1;
        }
        let ghost before = self@;
        let ghost choices = selected@;
        self.update_selected(selected.as_slice(), &update);
        proof {
            assert(refined_by(before, self@, choices, update));
        }
    }

    /// Applies `update` to every alternative, then removes alternatives that became repeated.
    pub(crate) fn refine_all<F: Fn(&P) -> P>(&mut self, update: &F)
        requires
            forall|property: &P| update.requires((property,)),
        ensures
            refined_by(old(self)@, final(self)@, all_selected(old(self)@.len()), *update),
    {
        let mut selected: Vec<bool> = Vec::new();
        let mut i: usize = 0;
        while i < self.values.len()
            invariant
                0 <= i <= self.values@.len(),
                selected@.len() == i,
                forall|k: int| 0 <= k < i ==> selected@[k],
            decreases self.values@.len() - i,
        {
            selected.push(true);
            i += 1;
        }
        let ghost before = self@;
        proof {
            assert(selected@ =~= all_selected(before.len()));
        }
        self.update_selected(selected.as_slice(), update);
    }

    /// Applies `update` to the alternatives with the same source as `origin`, then removes
    /// alternatives that became repeated.
    pub(crate) fn refine_source<F: Fn(&P) -> P>(&mut self, origin: &ValueOrigin, update: &F)
        requires
            forall|property: &P| update.requires((property,)),
        ensures
            refined_by(old(self)@, final(self)@, source_selection(old(self)@, origin@), *update),
    {
        let mut selected: Vec<bool> = Vec::new();
        let mut i: usize = 0;
        while i < self.values.len()
            invariant
                0 <= i <= self.values@.len(),
                selected@.len() == i,
                forall|k: int| 0 <= k < i ==> selected@[k] == same_source(self@[k].0, origin@),
            decreases self.values@.len() - i,
        {
            proof {
                assert(self@[i as int] == self.values@[i as int]@);
            }
            selected.push(self.values[i].origin.same_source(origin));
            i += 1;
        }
        let ghost before = self@;
        proof {
            assert(selected@ =~= source_selection(before, origin@));
        }
        self.update_selected(selected.as_slice(), update);
    }

    /// Applies `update` to the alternatives with the same source as `origin` that are unique
    /// dynamic values according to `sites`, then removes alternatives that became repeated.
    pub(crate) fn refine_correlated<F: Fn(&P) -> P>(&mut self, origin: &ValueOrigin, sites: &EvaluatedSites, update: &F)
        requires
            forall|property: &P| update.requires((property,)),
        ensures
            refined_by(old(self)@, final(self)@, correlated_selection(old(self)@, origin@, sites@.1), *update),
    {
        let mut selected: Vec<bool> = Vec::new();
        let mut i: usize = 0;
        while i < self.values.len()
            invariant
                0 <= i <= self.values@.len(),
                selected@.len() == i,
                forall|k: int|
                    0 <= k < i ==> selected@[k] == (same_source(self@[k].0, origin@) && origin_is_correlatable(
                        sites@.1,
                        self@[k].0,
                    )),
            decreases self.values@.len() - i,
        {
            proof {
                assert(self@[i as int] == self.values@[i as int]@);
            }
            let chosen = self.values[i].origin.same_source(origin) && sites.origin_is_correlatable(&self.values[i].origin);
            selected.push(chosen);
            i += 1;
        }
        let ghost before = self@;
        proof {
            assert(selected@ =~= correlated_selection(before, origin@, sites@.1));
        }
        self.update_selected(selected.as_slice(), update);
    }

    /// Collects the possible values of `values`, keeping the first of repeated ones.
    pub(crate) fn from_values(values: &[AbstractValue<P>]) -> (set: Self)
        ensures
            set@ == join_values(Seq::<(OriginView, P)>::empty(), value_views(values@)),
    {
        let mut collected = Vec::new();
        Self::extend_values(&mut collected, values);
        proof {
            assert(value_views(Seq::<AbstractValue<P>>::empty()) =~= Seq::<(OriginView, P)>::empty());
            lemma_join_values(Seq::<(OriginView, P)>::empty(), value_views(values@));
        }
        ValueSet { values: collected }
    }

    /// Returns a copy of this set.
    pub fn duplicate(&self) -> (copy: Self)
        ensures
            copy@ == self@,
    {
        proof {
            use_type_invariant(self);
        }
        let mut values = Vec::new();
        Self::extend_values(&mut values, self.values.as_slice());
        proof {
            lemma_join_values_absorbs(value_views(self.values@), Seq::<(OriginView, P)>::empty());
            assert(value_views(Seq::<AbstractValue<P>>::empty()) =~= Seq::<(OriginView, P)>::empty());
            lemma_dedup_distinct(self@);
        }
        ValueSet { values }
    }
}

/// Removing repetitions from a sequence that has none leaves it unchanged.
pub proof fn lemma_dedup_distinct<A>(values: Seq<A>)
    requires
        values.no_duplicates(),
    ensures
        join_values(Seq::<A>::empty(), values) == values,
    decreases values.len(),
{
    if values.len() > 0 {
        let init = values.drop_last();
        assert(init.no_duplicates()) by {
            assert forall|i: int, j: int| 0 <= i < init.len() && 0 <= j < init.len() && i != j implies init[i] != init[j] by {
                assert(init[i] == values[i]);
                assert(init[j] == values[j]);
            }
        }
        lemma_dedup_distinct(init);
        if init.contains(values.last()) {
            let k = choose|k: int| 0 <= k < init.len() && init[k] == values.last();
            assert(values[k] == values[values.len() - 1]);
        }
        assert(init.push(values.last()) =~= values);
    }
}

impl<P: ValueProperty> Default for ValueSet<P> {
    fn default() -> (set: Self)
        ensures
            set@ == Seq::<(OriginView, P)>::empty(),
    {
        ValueSet::new()
    }
}

impl<P: ValueProperty> Clone for ValueSet<P> {
    fn clone(&self) -> (copy: Self)
        ensures
            copy@ == self@,
    {
        self.duplicate()
    }
}

impl<P: ValueProperty> JoinSemiLattice for ValueSet<P> {
    open spec fn spec_join(lhs: Seq<(OriginView, P)>, rhs: Seq<(OriginView, P)>) -> Seq<(OriginView, P)> {
        join_values(lhs, rhs)
    }

    proof fn lemma_clone_preserves_view() {
    }

    fn join(&mut self, other: &Self) -> (changed: bool) {
        proof {
            use_type_invariant(&*self);
        }
        let old_len = self.values.len();
        let mut values = Vec::new();
        std::mem::swap(&mut values, &mut self.values);
        let ghost before = value_views(values@);
        Self::extend_values(&mut values, other.values.as_slice());
        proof {
            lemma_join_values(before, other@);
            if values@.len() == old_len {
                assert(value_views(values@) =~= before) by {
                    assert(value_views(values@).subrange(0, before.len() as int) == before);
                }
            }
        }
        let changed = values.len() != old_len;
        self.values = values;
        changed
    }
}


/// An entry property as a map value.
#[derive(Debug)]
struct Seeded<P> {
    property: P,
}

impl<P> View for Seeded<P> {
    type V = P;

    closed spec fn view(&self) -> P {
        self.property
    }
}

/// The property an untouched `variable` starts with in `state`: its seeded property, or the
/// default one.
pub open spec fn initial_property_of<P>(
    state: (Map<VariableId, Seq<(OriginView, P)>>, Map<VariableId, P>, P),
    variable: VariableId,
) -> P {
    if state.1.contains_key(variable) {
        state.1[variable]
    } else {
        state.2
    }
}

/// The value `variable` holds in `state`: its materialized value, or its initial value.
pub open spec fn variable_value<P>(
    state: (Map<VariableId, Seq<(OriginView, P)>>, Map<VariableId, P>, P),
    variable: VariableId,
) -> Seq<(OriginView, P)> {
    if state.0.contains_key(variable) {
        state.0[variable]
    } else {
        seq![(OriginView::Initial(variable), initial_property_of(state, variable))]
    }
}

/// The join of two states: every variable materialized on either side holds the join of its
/// values on both sides; the entry properties are those of the left side.
pub open spec fn join_states<P>(
    lhs: (Map<VariableId, Seq<(OriginView, P)>>, Map<VariableId, P>, P),
    rhs: (Map<VariableId, Seq<(OriginView, P)>>, Map<VariableId, P>, P),
) -> (Map<VariableId, Seq<(OriginView, P)>>, Map<VariableId, P>, P) {
    (
        Map::new(
            |variable: VariableId| lhs.0.contains_key(variable) || rhs.0.contains_key(variable),
            |variable: VariableId| join_values(variable_value(lhs, variable), variable_value(rhs, variable)),
        ),
        lhs.1,
        lhs.2,
    )
}

/// Whether joining `rhs` into `lhs` materializes `variable` anew or changes its value.
pub open spec fn join_changes<P>(
    lhs: (Map<VariableId, Seq<(OriginView, P)>>, Map<VariableId, P>, P),
    rhs: (Map<VariableId, Seq<(OriginView, P)>>, Map<VariableId, P>, P),
    variable: VariableId,
) -> bool {
    !lhs.0.contains_key(variable) || join_values(variable_value(lhs, variable), variable_value(rhs, variable))
        != lhs.0[variable]
}

/// The materialized values that definite-alias propagation from `source` starts from: an initial
/// variable source is materialized first.
pub open spec fn alias_base<P>(
    state: (Map<VariableId, Seq<(OriginView, P)>>, Map<VariableId, P>, P),
    source: OriginView,
) -> Map<VariableId, Seq<(OriginView, P)>> {
    match source {
        OriginView::Initial(variable) => if state.0.contains_key(variable) {
            state.0
        } else {
            state.0.insert(variable, seq![(source, initial_property_of(state, variable))])
        },
        _ => state.0,
    }
}

/// Whether every alternative of `values` has the same source as `source`.
pub open spec fn is_definite_alias_of<P>(values: Seq<(OriginView, P)>, source: OriginView) -> bool {
    match common_source_of(values) {
        Some(common) => same_source(common, source),
        None => false,
    }
}

/// Which alternatives of `values` have the same source as `source`.
pub open spec fn source_selection<P>(values: Seq<(OriginView, P)>, source: OriginView) -> Seq<bool> {
    Seq::new(values.len(), |i: int| same_source(values[i].0, source))
}

/// Whether `new` is `old` after the variables that definitely alias `origins` are refined by
/// `update`.
///
/// Only a common source that is a variable's initial value or a place value propagates: the
/// variables whose alternatives all have that source get `update` applied to those alternatives,
/// an initial variable source being materialized first. Other sources change nothing.
pub open spec fn refines_definite_aliases<P, F: Fn(&P) -> P>(
    old: (Map<VariableId, Seq<(OriginView, P)>>, Map<VariableId, P>, P),
    new: (Map<VariableId, Seq<(OriginView, P)>>, Map<VariableId, P>, P),
    origins: Seq<(OriginView, P)>,
    update: F,
) -> bool {
    let source = common_source_of(origins);
    if source is Some && (source->0 is Initial || source->0 is Place) {
        let base = alias_base(old, source->0);
        &&& new.1 == old.1
        &&& new.2 == old.2
        &&& new.0.dom() == base.dom()
        &&& forall|variable: VariableId| #[trigger] base.contains_key(variable) ==> if is_definite_alias_of(
            base[variable],
            source->0,
        ) {
            refined_by(base[variable], new.0[variable], source_selection(base[variable], source->0), update)
        } else {
            new.0[variable] == base[variable]
        }
    } else {
        new == old
    }
}

/// Current abstract values of source variables.
///
/// This is a reusable value-numbering domain for lint dataflow. Assignments copy a [`ValueSet`],
/// mutations replace it with a new expression origin, and joins union the alternatives from each
/// predecessor. The property type lets a consumer attach a small taint, validity, or provenance
/// fact without inventing fresh value IDs at every join.
///
/// The view is the map of materialized variable values, the map of seeded entry properties, and
/// the default entry property.
#[derive(Debug)]
pub struct ValueState<P> {
    values: KeyedVec<VariableId, ValueSet<P>>,
    initial_properties: KeyedVec<VariableId, Seeded<P>>,
    initial_property: P,
}

impl<P> View for ValueState<P> {
    type V = (Map<VariableId, Seq<(OriginView, P)>>, Map<VariableId, P>, P);

    closed spec fn view(&self) -> (Map<VariableId, Seq<(OriginView, P)>>, Map<VariableId, P>, P) {
        (self.values@, self.initial_properties@, self.initial_property)
    }
}

impl<P: ValueProperty> ValueState<P> {
    /// Creates an empty state whose untouched variables have `initial_property`.
    pub fn new(initial_property: P) -> (state: Self)
        ensures
            state@ == (Map::<VariableId, Seq<(OriginView, P)>>::empty(), Map::<VariableId, P>::empty(), initial_property),
    {
        ValueState { values: KeyedVec::new(), initial_properties: KeyedVec::new(), initial_property }
    }

    /// Returns the abstract value currently held by `variable`.
    pub fn variable(&self, variable: VariableId) -> (values: ValueSet<P>)
        ensures
            values@ == variable_value(self@, variable),
    {
        match self.values.get(variable) {
            Some(values) => values.duplicate(),
            None => {
                let property = self.initial_property(variable);
                ValueSet::singleton(ValueOrigin::Initial(variable), property)
            },
        }
    }

    /// Returns the property an untouched `variable` starts with.
    pub(crate) fn initial_property(&self, variable: VariableId) -> (property: P)
        ensures
            property == initial_property_of(self@, variable),
    {
        match self.initial_properties.get(variable) {
            Some(seeded) => seeded.property.copy_property(),
            None => self.initial_property.copy_property(),
        }
    }

    /// Materializes an initial variable value with a lint-derived property.
    ///
    /// Seed entry states before analysis begins so every control-flow predecessor uses the same
    /// property for an otherwise untouched variable.
    pub fn seed(&mut self, variable: VariableId, property: P)
        ensures
            final(self)@ == (old(self)@.0, old(self)@.1.insert(variable, property), old(self)@.2),
    {
        self.initial_properties.insert(variable, Seeded { property });
    }

    /// Forgets path-dependent values while retaining seeded entry properties.
    pub fn forget(&mut self)
        ensures
            final(self)@ == (Map::<VariableId, Seq<(OriginView, P)>>::empty(), old(self)@.1, old(self)@.2),
    {
        self.values.clear();
    }

    /// Returns the current value of an expression that denotes `variable`, or an
    /// expression-origin value for a computed rvalue `expr`.
    pub fn expr(&self, variable: Option<VariableId>, expr: ExprId, property: P) -> (values: ValueSet<P>)
        ensures
            values@ == (match variable {
                Some(v) => variable_value(self@, v),
                None => seq![(OriginView::Expr(expr), property)],
            }),
    {
        match variable {
            Some(variable) => self.variable(variable),
            None => ValueSet::singleton(ValueOrigin::Expr(expr), property),
        }
    }

    /// Assigns `values` to `variable`.
    pub fn set(&mut self, variable: VariableId, values: ValueSet<P>)
        ensures
            final(self)@ == (old(self)@.0.insert(variable, values@), old(self)@.1, old(self)@.2),
    {
        self.values.insert(variable, values);
    }

    /// Replaces `variable` with a value produced by `expr`.
    pub fn invalidate(&mut self, variable: VariableId, expr: ExprId, property: P)
        ensures
            final(self)@ == (
                old(self)@.0.insert(variable, seq![(OriginView::Expr(expr), property)]),
                old(self)@.1,
                old(self)@.2,
            ),
    {
        self.set(variable, ValueSet::singleton(ValueOrigin::Expr(expr), property));
    }

    /// Resets `variable` to an opaque value which is not eligible for definite-alias propagation.
    pub fn reset(&mut self, variable: VariableId, property: P)
        ensures
            final(self)@ == (
                old(self)@.0.insert(variable, seq![(OriginView::Opaque(variable), property)]),
                old(self)@.1,
                old(self)@.2,
            ),
    {
        self.set(variable, ValueSet::singleton(ValueOrigin::Opaque(variable), property));
    }

    /// Gives `variable` the value it has in `caller`: its materialized value there, or none.
    pub(crate) fn restore(&mut self, variable: VariableId, caller: &Self)
        ensures
            final(self)@ == (
                if caller@.0.contains_key(variable) {
                    old(self)@.0.insert(variable, caller@.0[variable])
                } else {
                    old(self)@.0.remove(variable)
                },
                old(self)@.1,
                old(self)@.2,
            ),
    {
        match caller.values.get(variable) {
            Some(values) => self.values.insert(variable, values.duplicate()),
            None => {
                let _ = self.values.remove(variable);
            },
        }
    }

    /// Returns the variables whose values have been materialized by the analysis.
    pub fn variables(&self) -> (variables: Vec<VariableId>)
        ensures
            variables@.no_duplicates(),
            variables@.to_set() == self@.0.dom(),
    {
        let variables = self.values.keys();
        proof {
            assert forall|v: VariableId| #[trigger] variables@.to_set().contains(v) == self@.0.dom().contains(v) by {
                if variables@.contains(v) {
                    let k = choose|k: int| 0 <= k < variables@.len() && variables@[k] == v;
                    assert(self@.0.contains_key(variables@[k]));
                }
            }
            assert(variables@.to_set() =~= self@.0.dom());
        }
        variables
    }

    /// Updates variables which are definitely aliases of `origins`.
    ///
    /// Joined sets are not relational: two variables containing `{a, b}` may hold opposite values
    /// on every predecessor. Expression origins are also HIR sites rather than dynamic instances,
    /// so they are not stable identities across loop iterations. Consequently this only propagates
    /// through a single initial-variable or projected-place origin on both sides. Callers using a
    /// projected origin must separately ensure its aggregate generation is dynamically
    /// correlatable, for example with [`EvaluatedSites::origin_is_correlatable`].
    pub fn update_definite_aliases<F: Fn(&P) -> P>(&mut self, origins: &ValueSet<P>, update: F)
        requires
            forall|property: &P| update.requires((property,)),
        ensures
            refines_definite_aliases(old(self)@, final(self)@, origins@, update),
    {
        self.update_definite_aliases_by(origins, &update);
    }

    /// Updates variables which are definitely aliases of `origins`, with `update` borrowed.
    pub(crate) fn update_definite_aliases_by<F: Fn(&P) -> P>(&mut self, origins: &ValueSet<P>, update: &F)
        requires
            forall|property: &P| update.requires((property,)),
        ensures
            refines_definite_aliases(old(self)@, final(self)@, origins@, *update),
    {
        let origin = match origins.common_source() {
            Some(origin) => origin,
            None => return ,
        };
        match &origin {
            ValueOrigin::Initial(variable) => {
                if self.values.get(*variable).is_none() {
                    let property = self.initial_property(*variable);
                    self.values.insert(*variable, ValueSet::singleton(origin.duplicate(), property));
                }
            },
            ValueOrigin::Place { .. } => {},
            _ => {
                return ;
            },
        }
        let ghost base = self@.0;
        let ghost state = self@;
        let keys = self.values.keys();
        let ghost key_seq = keys@;
        let mut i: usize = 0;
        while i < keys.len()
            invariant
                0 <= i <= keys@.len(),
                keys@ == key_seq,
                self.values.key_seq() == key_seq,
                key_seq.no_duplicates(),
                forall|v: VariableId| #[trigger] base.contains_key(v) ==> key_seq.contains(v),
                forall|k: int| 0 <= k < key_seq.len() ==> base.contains_key(#[trigger] key_seq[k]),
                self@.0.dom() == base.dom(),
                self@.1 == state.1,
                self@.2 == state.2,
                forall|update_requires: &P| update.requires((update_requires,)),
                forall|k: int|
                    i <= k < key_seq.len() ==> self@.0[#[trigger] key_seq[k]] == base[key_seq[k]],
                forall|k: int|
                    0 <= k < i ==> if is_definite_alias_of(base[#[trigger] key_seq[k]], origin@) {
                        refined_by(
                            base[key_seq[k]],
                            self@.0[key_seq[k]],
                            source_selection(base[key_seq[k]], origin@),
                            update,
                        )
                    } else {
                        self@.0[key_seq[k]] == base[key_seq[k]]
                    },
            decreases keys@.len() - i,
        {
            let current = self.values.value_at(i);
            let ghost current_view = current@;
            let aliased = match current.common_source() {
                Some(candidate) => candidate.same_source(&origin),
                None => false,
            };
            if aliased {
                let mut selected: Vec<bool> = Vec::new();
                let alternatives = current.values();
                let mut j: usize = 0;
                while j < alternatives.len()
                    invariant
                        0 <= j <= alternatives@.len(),
                        value_views(alternatives@) == current_view,
                        selected@ == source_selection(current_view, origin@).subrange(0, j as int),
                    decreases alternatives@.len() - j,
                {
                    let same = alternatives[j].origin.same_source(&origin);
                    proof {
                        assert(current_view[j as int] == alternatives@[j as int]@);
                    }
                    selected.push(same);
                    proof {
                        assert(selected@ =~= source_selection(current_view, origin@).subrange(0, j + 1));
                    }
                    j += 1;
                }
                proof {
                    assert(selected@ =~= source_selection(current_view, origin@));
                }
                let mut values = current.duplicate();
                values.update_selected(selected.as_slice(), update);
                let ghost refined = values@;
                self.values.set_value_at(i, values);
                proof {
                    assert(self@.0[key_seq[i as int]] == refined);
                }
            }
            proof {
                assert(current_view == base[key_seq[i as int]]);
                assert forall|k: int| i + 1 <= k < key_seq.len() implies self@.0[#[trigger] key_seq[k]] == base[key_seq[k]] by {
                    assert(key_seq[k] != key_seq[i as int]);
                }
                assert forall|k: int| 0 <= k < i + 1 implies if is_definite_alias_of(base[#[trigger] key_seq[k]], origin@) {
                    refined_by(
                        base[key_seq[k]],
                        self@.0[key_seq[k]],
                        source_selection(base[key_seq[k]], origin@),
                        update,
                    )
                } else {
                    self@.0[key_seq[k]] == base[key_seq[k]]
                } by {
                    if k < i {
                        assert(key_seq[k] != key_seq[i as int]);
                    }
                }
            }
            i += 1;
        }
        proof {
            assert forall|variable: VariableId| #[trigger] base.contains_key(variable) implies if is_definite_alias_of(
                base[variable],
                origin@,
            ) {
                refined_by(base[variable], self@.0[variable], source_selection(base[variable], origin@), update)
            } else {
                self@.0[variable] == base[variable]
            } by {
                let k = choose|k: int| 0 <= k < key_seq.len() && key_seq[k] == variable;
                assert(key_seq[k] == variable);
            }
        }
    }
}

impl<P: ValueProperty> ValueState<P> {
    /// Returns a copy of this state.
    pub fn duplicate(&self) -> (copy: Self)
        ensures
            copy@ == self@,
    {
        let mut values: KeyedVec<VariableId, ValueSet<P>> = KeyedVec::new();
        let keys = self.values.keys();
        let mut i: usize = 0;
        while i < keys.len()
            invariant
                0 <= i <= keys@.len(),
                forall|k: int| 0 <= k < keys@.len() ==> self.values@.contains_key(#[trigger] keys@[k]),
                values@ == Map::new(
                    |v: VariableId| keys@.subrange(0, i as int).contains(v),
                    |v: VariableId| self.values@[v],
                ),
            decreases keys@.len() - i,
        {
            let key = keys[i];
            let current = self.values.get(key);
            match current {
                Some(current) => {
                    values.insert(key, current.duplicate());
                },
                None => {},
            }
            proof {
                assert(self.values@.contains_key(keys@[i as int]));
                assert forall|v: VariableId| keys@.subrange(0, i + 1).contains(v) <==> (keys@.subrange(0, i as int).contains(v) || v == key) by {
                    if keys@.subrange(0, i + 1).contains(v) {
                        let k = choose|k: int| 0 <= k < i + 1 && #[trigger] keys@.subrange(0, i + 1)[k] == v;
                        if k < i {
                            assert(keys@.subrange(0, i as int)[k] == v);
                        }
                    }
                    if keys@.subrange(0, i as int).contains(v) {
                        let k = choose|k: int| 0 <= k < i && #[trigger] keys@.subrange(0, i as int)[k] == v;
                        assert(keys@.subrange(0, i + 1)[k] == v);
                    }
                    if v == key {
                        assert(keys@.subrange(0, i + 1)[i as int] == v);
                    }
                }
                let target = Map::new(
                    |v: VariableId| keys@.subrange(0, i + 1).contains(v),
                    |v: VariableId| self.values@[v],
                );
                assert forall|v: VariableId| #[trigger] values@.contains_key(v) == target.contains_key(v) by {
                    assert(target.contains_key(v) == keys@.subrange(0, i + 1).contains(v));
                    assert(keys@.subrange(0, i + 1).contains(v) <==> (keys@.subrange(0, i as int).contains(v) || v == key));
                }
                assert forall|v: VariableId| #[trigger] values@.contains_key(v) implies values@[v] == target[v] by {
                }
                assert(values@ =~= target);
            }
            i += 1;
        }
        proof {
            assert(keys@.subrange(0, keys@.len() as int) =~= keys@);
            assert(values@ =~= self.values@);
        }
        let mut seeds: KeyedVec<VariableId, Seeded<P>> = KeyedVec::new();
        let seed_keys = self.initial_properties.keys();
        let mut i: usize = 0;
        while i < seed_keys.len()
            invariant
                0 <= i <= seed_keys@.len(),
                forall|k: int| 0 <= k < seed_keys@.len() ==> self.initial_properties@.contains_key(#[trigger] seed_keys@[k]),
                seeds@ == Map::new(
                    |v: VariableId| seed_keys@.subrange(0, i as int).contains(v),
                    |v: VariableId| self.initial_properties@[v],
                ),
            decreases seed_keys@.len() - i,
        {
            let key = seed_keys[i];
            match self.initial_properties.get(key) {
                Some(seeded) => {
                    seeds.insert(key, Seeded { property: seeded.property.copy_property() });
                },
                None => {},
            }
            proof {
                assert(self.initial_properties@.contains_key(seed_keys@[i as int]));
                assert forall|v: VariableId| seed_keys@.subrange(0, i + 1).contains(v) <==> (seed_keys@.subrange(0, i as int).contains(v) || v == key) by {
                    if seed_keys@.subrange(0, i + 1).contains(v) {
                        let k = choose|k: int| 0 <= k < i + 1 && #[trigger] seed_keys@.subrange(0, i + 1)[k] == v;
                        if k < i {
                            assert(seed_keys@.subrange(0, i as int)[k] == v);
                        }
                    }
                    if seed_keys@.subrange(0, i as int).contains(v) {
                        let k = choose|k: int| 0 <= k < i && #[trigger] seed_keys@.subrange(0, i as int)[k] == v;
                        assert(seed_keys@.subrange(0, i + 1)[k] == v);
                    }
                    if v == key {
                        assert(seed_keys@.subrange(0, i + 1)[i as int] == v);
                    }
                }
                let target = Map::new(
                    |v: VariableId| seed_keys@.subrange(0, i + 1).contains(v),
                    |v: VariableId| self.initial_properties@[v],
                );
                assert forall|v: VariableId| #[trigger] seeds@.contains_key(v) == target.contains_key(v) by {
                    assert(target.contains_key(v) == seed_keys@.subrange(0, i + 1).contains(v));
                    assert(seed_keys@.subrange(0, i + 1).contains(v) <==> (seed_keys@.subrange(0, i as int).contains(v) || v == key));
                }
                assert forall|v: VariableId| #[trigger] seeds@.contains_key(v) implies seeds@[v] == target[v] by {
                }
                assert(seeds@ =~= target);
            }
            i += 1;
        }
        proof {
            assert(seed_keys@.subrange(0, seed_keys@.len() as int) =~= seed_keys@);
            assert(seeds@ =~= self.initial_properties@);
        }
        ValueState { values, initial_properties: seeds, initial_property: self.initial_property.copy_property() }
    }
}

impl<P: ValueProperty> Clone for ValueState<P> {
    fn clone(&self) -> (copy: Self)
        ensures
            copy@ == self@,
    {
        self.duplicate()
    }
}

impl<P: ValueProperty> JoinSemiLattice for ValueState<P> {
    open spec fn spec_join(
        lhs: (Map<VariableId, Seq<(OriginView, P)>>, Map<VariableId, P>, P),
        rhs: (Map<VariableId, Seq<(OriginView, P)>>, Map<VariableId, P>, P),
    ) -> (Map<VariableId, Seq<(OriginView, P)>>, Map<VariableId, P>, P) {
        join_states(lhs, rhs)
    }

    proof fn lemma_clone_preserves_view() {
    }

    fn join(&mut self, other: &Self) -> (changed: bool) {
        let ghost start = self@;
        let ghost target = join_states(self@, other@);
        let mut variables = self.values.keys();
        let other_keys = other.values.keys();
        let mut k: usize = 0;
        while k < other_keys.len()
            invariant
                0 <= k <= other_keys@.len(),
                forall|v: VariableId| #[trigger] variables@.contains(v) <==> (start.0.contains_key(v) || other_keys@.subrange(0, k as int).contains(v)),
            decreases other_keys@.len() - k,
        {
            let ghost before = variables@;
            variables.push(other_keys[k]);
            proof {
                assert forall|v: VariableId| #[trigger] variables@.contains(v) <==> (start.0.contains_key(v) || other_keys@.subrange(0, k + 1).contains(v)) by {
                    if variables@.contains(v) {
                        let j = choose|j: int| 0 <= j < variables@.len() && #[trigger] variables@[j] == v;
                        if j < before.len() {
                            assert(before[j] == v);
                            assert(before.contains(v));
                            if other_keys@.subrange(0, k as int).contains(v) {
                                let m = choose|m: int| 0 <= m < k && #[trigger] other_keys@.subrange(0, k as int)[m] == v;
                                assert(other_keys@.subrange(0, k + 1)[m] == v);
                            }
                        } else {
                            assert(other_keys@.subrange(0, k + 1)[k as int] == v);
                        }
                    }
                    if other_keys@.subrange(0, k + 1).contains(v) {
                        let j = choose|j: int| 0 <= j < k + 1 && #[trigger] other_keys@.subrange(0, k + 1)[j] == v;
                        if j < k {
                            assert(other_keys@.subrange(0, k as int)[j] == v);
                            assert(before.contains(v));
                            let m = choose|m: int| 0 <= m < before.len() && #[trigger] before[m] == v;
                            assert(variables@[m] == v);
                        } else {
                            assert(variables@[before.len() as int] == v);
                        }
                    }
                    if start.0.contains_key(v) {
                        assert(before.contains(v));
                        let m = choose|m: int| 0 <= m < before.len() && #[trigger] before[m] == v;
                        assert(variables@[m] == v);
                    }
                }
            }
            k += 1;
        }
        proof {
            assert(other_keys@.subrange(0, other_keys@.len() as int) =~= other_keys@);
        }
        let mut changed = false;
        let mut i: usize = 0;
        while i < variables.len()
            invariant
                0 <= i <= variables@.len(),
                forall|v: VariableId| #[trigger] variables@.contains(v) <==> (start.0.contains_key(v) || other@.0.contains_key(v)),
                target == join_states(start, other@),
                self@.1 == start.1,
                self@.2 == start.2,
                forall|v: VariableId| #[trigger] self@.0.contains_key(v) <==> (start.0.contains_key(v) || variables@.subrange(0, i as int).contains(v)),
                forall|v: VariableId| #[trigger] variables@.subrange(0, i as int).contains(v) ==> self@.0[v] == target.0[v],
                forall|v: VariableId| !variables@.subrange(0, i as int).contains(v) && start.0.contains_key(v) ==> #[trigger] self@.0[v] == start.0[v],
                changed == exists|j: int| 0 <= j < i && #[trigger] join_changes(start, other@, variables@[j]),
            decreases variables@.len() - i,
        {
            let variable = variables[i];
            let ghost done = variables@.subrange(0, i as int);
            let ghost next = variables@.subrange(0, i + 1);
            let ghost joined = join_values(variable_value(start, variable), variable_value(other@, variable));
            proof {
                assert forall|v: VariableId| #[trigger] next.contains(v) <==> (done.contains(v) || v == variable) by {
                    if next.contains(v) {
                        let j = choose|j: int| 0 <= j < next.len() && #[trigger] next[j] == v;
                        if j < i {
                            assert(done[j] == v);
                        }
                    }
                    if done.contains(v) {
                        let j = choose|j: int| 0 <= j < done.len() && #[trigger] done[j] == v;
                        assert(next[j] == v);
                    }
                    if v == variable {
                        assert(next[i as int] == v);
                    }
                }
                assert(variables@.contains(variable));
                assert(target.0.contains_key(variable));
                assert(target.0[variable] == joined);
            }
            let mut values = self.variable(variable);
            let ghost current = values@;
            proof {
                if done.contains(variable) {
                    assert(current == joined);
                    lemma_join_values_idempotent(variable_value(start, variable), variable_value(other@, variable));
                } else {
                    assert(current == variable_value(start, variable));
                }
            }
            let other_values = other.variable(variable);
            let step = values.join(&other_values);
            proof {
                assert(values@ == joined);
            }
            changed = changed || step;
            let stored_same = match self.values.get(variable) {
                Some(stored) => stored.same_set(&values),
                None => false,
            };
            let ghost before = self@.0;
            if !stored_same {
                self.values.insert(variable, values);
                changed = true;
            }
            proof {
                assert(self@.0 =~= before.insert(variable, joined));
                let term = join_changes(start, other@, variable);
                if done.contains(variable) {
                    let j = choose|j: int| 0 <= j < done.len() && #[trigger] done[j] == variable;
                    assert(variables@[j] == variable);
                    assert(!step);
                    assert(stored_same);
                } else {
                    if start.0.contains_key(variable) {
                        assert(before[variable] == start.0[variable]);
                        assert(term == (joined != start.0[variable]));
                    } else {
                        assert(!before.contains_key(variable));
                        assert(term);
                    }
                }
                assert(changed == exists|j: int| 0 <= j < i + 1 && #[trigger] join_changes(start, other@, variables@[j])) by {
                    if changed {
                        if !(exists|j: int| 0 <= j < i && #[trigger] join_changes(start, other@, variables@[j])) {
                            assert(join_changes(start, other@, variables@[i as int]));
                        }
                    } else {
                        assert forall|j: int| 0 <= j < i + 1 implies !#[trigger] join_changes(start, other@, variables@[j]) by {
                            if j < i {
                            } else {
                                assert(variables@[j] == variable);
                            }
                        }
                    }
                }
                assert forall|v: VariableId| #[trigger] next.contains(v) implies self@.0[v] == target.0[v] by {
                    if v != variable {
                        assert(done.contains(v));
                    }
                }
                assert forall|v: VariableId| !next.contains(v) && start.0.contains_key(v) implies #[trigger] self@.0[v] == start.0[v] by {
                    assert(!done.contains(v));
                }
            }
            i += 1;
        }
        proof {
            assert(variables@.subrange(0, variables@.len() as int) =~= variables@);
            assert(self@.0 =~= target.0) by {
                assert forall|v: VariableId| #[trigger] self@.0.contains_key(v) == target.0.contains_key(v) by {
                }
                assert forall|v: VariableId| #[trigger] self@.0.contains_key(v) implies self@.0[v] == target.0[v] by {
                    assert(variables@.contains(v));
                }
            }
            if changed {
                let j = choose|j: int| 0 <= j < variables@.len() && #[trigger] join_changes(start, other@, variables@[j]);
                let v = variables@[j];
                assert(variables@.contains(v));
                if start.0.contains_key(v) {
                    assert(self@.0[v] != start.0[v]);
                } else {
                    assert(self@.0.contains_key(v));
                }
                assert(self@.0 != start.0);
            } else {
                assert(self@.0 =~= start.0) by {
                    assert forall|v: VariableId| #[trigger] self@.0.contains_key(v) implies start.0.contains_key(v) && self@.0[v] == start.0[v] by {
                        assert(variables@.contains(v));
                        let j = choose|j: int| 0 <= j < variables@.len() && #[trigger] variables@[j] == v;
                        assert(!join_changes(start, other@, variables@[j]));
                    }
                }
            }
        }
        changed
    }
}

/// Properties stay attached to alternatives: when every alternative of both sides has a property
/// satisfying `holds`, so does every alternative of their join, and the join holds exactly the
/// alternatives of both sides.
pub proof fn lemma_join_keeps_properties<P>(
    lhs: Seq<(OriginView, P)>,
    rhs: Seq<(OriginView, P)>,
    holds: spec_fn(P) -> bool,
)
    requires
        forall|i: int| 0 <= i < lhs.len() ==> holds(#[trigger] lhs[i].1),
        forall|i: int| 0 <= i < rhs.len() ==> holds(#[trigger] rhs[i].1),
    ensures
        forall|i: int| 0 <= i < join_values(lhs, rhs).len() ==> holds(#[trigger] join_values(lhs, rhs)[i].1),
        forall|value: (OriginView, P)| join_values(lhs, rhs).contains(value) <==> (lhs.contains(value) || rhs.contains(value)),
{
    lemma_join_values(lhs, rhs);
    let joined = join_values(lhs, rhs);
    assert forall|i: int| 0 <= i < joined.len() implies holds(#[trigger] joined[i].1) by {
        assert(joined.contains(joined[i]));
        if lhs.contains(joined[i]) {
            let k = choose|k: int| 0 <= k < lhs.len() && lhs[k] == joined[i];
            assert(holds(lhs[k].1));
        } else {
            let k = choose|k: int| 0 <= k < rhs.len() && rhs[k] == joined[i];
            assert(holds(rhs[k].1));
        }
    }
}

/// Evaluation records join by union: the join is commutative, associative and idempotent, and a
/// site evaluated at most once on each of two paths is not repeated after they join.
pub proof fn lemma_evaluated_sites_join_laws(
    a: (Set<ExprId>, Set<ExprId>),
    b: (Set<ExprId>, Set<ExprId>),
    c: (Set<ExprId>, Set<ExprId>),
    site: ExprId,
)
    ensures
        EvaluatedSites::spec_join(a, b) == EvaluatedSites::spec_join(b, a),
        EvaluatedSites::spec_join(EvaluatedSites::spec_join(a, b), c) == EvaluatedSites::spec_join(
            a,
            EvaluatedSites::spec_join(b, c),
        ),
        EvaluatedSites::spec_join(a, a) == a,
        !a.1.contains(site) && !b.1.contains(site) ==> !EvaluatedSites::spec_join(a, b).1.contains(site),
{
    assert(a.0.union(b.0) =~= b.0.union(a.0));
    assert(a.1.union(b.1) =~= b.1.union(a.1));
    assert(a.0.union(b.0).union(c.0) =~= a.0.union(b.0.union(c.0)));
    assert(a.1.union(b.1).union(c.1) =~= a.1.union(b.1.union(c.1)));
    assert(a.0.union(a.0) =~= a.0);
    assert(a.1.union(a.1) =~= a.1);
}

/// Joining the same predecessor state twice changes nothing, and a variable materialized on
/// neither side keeps its initial value.
pub proof fn lemma_join_states_laws<P>(
    lhs: (Map<VariableId, Seq<(OriginView, P)>>, Map<VariableId, P>, P),
    rhs: (Map<VariableId, Seq<(OriginView, P)>>, Map<VariableId, P>, P),
    variable: VariableId,
)
    ensures
        join_states(join_states(lhs, rhs), rhs) == join_states(lhs, rhs),
        !lhs.0.contains_key(variable) && !rhs.0.contains_key(variable) ==> variable_value(
            join_states(lhs, rhs),
            variable,
        ) == variable_value(lhs, variable),
{
    let once = join_states(lhs, rhs);
    let twice = join_states(once, rhs);
    assert forall|v: VariableId| #[trigger] twice.0.contains_key(v) implies twice.0[v] == once.0[v] by {
        lemma_join_values_idempotent(variable_value(lhs, v), variable_value(rhs, v));
    }
    assert(twice.0 =~= once.0);
}

} // verus!
