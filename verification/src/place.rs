//! Source-level places: a root variable followed by projections.

use vstd::prelude::*;

use crate::ids::{ExprId, Symbol, VariableId};
use crate::variables::{DataLocation, Variable};

verus! {

/// A projection applied to a source-level [`Place`].
#[derive(Clone, Copy, Debug, PartialEq, Eq, Hash, Structural)]
pub enum ProjectionElem {
    /// A named member or resolved struct field.
    Field {
        /// The source-level field name.
        name: Symbol,
        /// The field declaration when type checking resolved one.
        variable: Option<VariableId>,
    },
    /// An array or mapping index. `None` represents an omitted index.
    Index(Option<ExprId>),
    /// An array slice.
    Slice {
        /// The lower bound.
        start: Option<ExprId>,
        /// The upper bound.
        end: Option<ExprId>,
    },
}

/// Whether two projections at the same depth certainly select different storage.
///
/// Different resolved fields and different field names are disjoint, and a field never overlaps
/// an index or a slice. Indices and slices are conservatively treated as possibly equal.
pub open spec fn projections_disjoint(lhs: ProjectionElem, rhs: ProjectionElem) -> bool {
    match (lhs, rhs) {
        (
            ProjectionElem::Field { name: lhs_name, variable: lhs_variable },
            ProjectionElem::Field { name: rhs_name, variable: rhs_variable },
        ) => (lhs_variable is Some && rhs_variable is Some && lhs_variable != rhs_variable)
            || lhs_name != rhs_name,
        (ProjectionElem::Field { .. }, _) => !(rhs is Field),
        (_, ProjectionElem::Field { .. }) => true,
        _ => false,
    }
}

/// Whether two places with roots `lhs_local` and `rhs_local` and the given projections may
/// overlap: same root, and no common depth at which the projections are disjoint.
pub open spec fn spec_may_overlap(
    lhs_local: VariableId,
    lhs: Seq<ProjectionElem>,
    rhs_local: VariableId,
    rhs: Seq<ProjectionElem>,
) -> bool {
    lhs_local == rhs_local && forall|i: int|
        0 <= i < lhs.len() && i < rhs.len() ==> !projections_disjoint(#[trigger] lhs[i], rhs[i])
}

/// Whether a place rooted at `variable` is backed by storage or transient state.
pub open spec fn state_backed(variable: Variable) -> bool {
    variable.kind is State || variable.data_location == Some(DataLocation::Storage)
        || variable.data_location == Some(DataLocation::Transient)
}

/// A source-level variable place such as `account.balances[user]`.
///
/// This mirrors rustc's `Place` shape: a root variable followed by projections. It describes
/// source identity and does not attempt to compute an EVM storage slot.
///
/// The view is the root variable and the sequence of projections.
#[derive(Debug)]
pub struct Place {
    local: VariableId,
    projection: Vec<ProjectionElem>,
}

impl View for Place {
    type V = (VariableId, Seq<ProjectionElem>);

    closed spec fn view(&self) -> (VariableId, Seq<ProjectionElem>) {
        (self.local, self.projection@)
    }
}

impl Place {
    /// Creates an unprojected place rooted at `local`.
    pub fn from_local(local: VariableId) -> (place: Self)
        ensures
            place@ == (local, Seq::<ProjectionElem>::empty()),
    {
        Place { local, projection: Vec::new() }
    }

    /// Returns the root variable.
    pub fn local(&self) -> (local: VariableId)
        ensures
            local == self@.0,
    {
        self.local
    }

    /// Returns the projections applied to the root variable.
    pub fn projection(&self) -> (projection: &[ProjectionElem])
        ensures
            projection@ == self@.1,
    {
        self.projection.as_slice()
    }

    /// The same projections applied to another root.
    pub fn with_local(&self, local: VariableId) -> (place: Self)
        ensures
            place@ == (local, self@.1),
    {
        Place { local, projection: self.projection.clone() }
    }

    /// This place with `projection` appended.
    pub fn with_projection_suffix(&self, projection: &[ProjectionElem]) -> (place: Self)
        ensures
            place@ == (self@.0, self@.1 + projection@),
    {
        let mut extended = self.projection.clone();
        let mut i: usize = 0;
        while i < projection.len()
            invariant
                0 <= i <= projection@.len(),
                extended@ == self.projection@ + projection@.subrange(0, i as int),
            decreases projection@.len() - i,
        {
            extended.push(projection[i]);
            proof {
                assert(extended@ =~= self.projection@ + projection@.subrange(0, i + 1));
            }
            i += 1;
        }
        proof {
            assert(projection@.subrange(0, projection@.len() as int) =~= projection@);
        }
        Place { local: self.local, projection: extended }
    }

    /// Returns whether the root is a state variable; `variables` holds the declarations, each at
    /// the index of its identifier.
    pub fn is_state(&self, variables: &[Variable]) -> (state: bool)
        requires
            (self@.0.0 as int) < variables@.len(),
        ensures
            state == (variables@[self@.0.0 as int].kind is State),
    {
        variables[self.local.0 as usize].kind.is_state()
    }

    /// Returns whether this place is backed by storage or transient state: its root is a state
    /// variable, or a local `storage` or `transient` reference that aliases contract state.
    pub fn is_state_backed(&self, variables: &[Variable]) -> (backed: bool)
        requires
            (self@.0.0 as int) < variables@.len(),
        ensures
            backed == state_backed(variables@[self@.0.0 as int]),
    {
        let variable = variables[self.local.0 as usize];
        variable.kind.is_state() || match variable.data_location {
            Some(DataLocation::Storage) | Some(DataLocation::Transient) => true,
            _ => false,
        }
    }

    /// Appends one projection.
    pub fn push_projection(&mut self, elem: ProjectionElem)
        ensures
            final(self)@ == (old(self)@.0, old(self)@.1.push(elem)),
    {
        self.projection.push(elem);
    }

    /// Returns a copy of this place.
    pub fn duplicate(&self) -> (copy: Self)
        ensures
            copy@ == self@,
    {
        Place { local: self.local, projection: self.projection.clone() }
    }

    /// Returns whether two places denote the same root and projections.
    pub fn same_place(&self, other: &Self) -> (same: bool)
        ensures
            same == (self@ == other@),
    {
        if self.local != other.local || self.projection.len() != other.projection.len() {
            return false;
        }
        let mut i: usize = 0;
        while i < self.projection.len()
            invariant
                0 <= i <= self.projection@.len(),
                self.projection@.len() == other.projection@.len(),
                forall|k: int| 0 <= k < i ==> self.projection@[k] == other.projection@[k],
            decreases self.projection@.len() - i,
        {
            if self.projection[i] != other.projection[i] {
                return false;
            }
            i += 1;
        }
        proof {
            assert(self.projection@ =~= other.projection@);
        }
        true
    }

    /// Returns whether the two source places may overlap.
    ///
    /// Different root variables and different named fields are disjoint. Index expressions are
    /// conservatively treated as possibly equal unless they are the same HIR expression.
    pub fn may_overlap(&self, other: &Self) -> (overlap: bool)
        ensures
            overlap == spec_may_overlap(self@.0, self@.1, other@.0, other@.1),
    {
        if self.local != other.local {
            return false;
        }
        let mut i: usize = 0;
        while i < self.projection.len() && i < other.projection.len()
            invariant
                0 <= i <= self.projection@.len(),
                i <= other.projection@.len(),
                forall|k: int| 0 <= k < i ==> !projections_disjoint(#[trigger] self.projection@[k], other.projection@[k]),
            decreases self.projection@.len() - i,
        {
            if elems_disjoint(self.projection[i], other.projection[i]) {
                return false;
            }
            i += 1;
        }
        true
    }
}

impl Clone for Place {
    fn clone(&self) -> (copy: Self)
        ensures
            copy@ == self@,
    {
        self.duplicate()
    }
}

fn elems_disjoint(lhs: ProjectionElem, rhs: ProjectionElem) -> (disjoint: bool)
    ensures
        disjoint == projections_disjoint(lhs, rhs),
{
    match (lhs, rhs) {
        (
            ProjectionElem::Field { name: lhs_name, variable: lhs_variable },
            ProjectionElem::Field { name: rhs_name, variable: rhs_variable },
        ) => {
            let resolved_differ = match (lhs_variable, rhs_variable) {
                (Some(l), Some(r)) => l != r,
                _ => false,
            };
            resolved_differ || lhs_name != rhs_name
        },
        (ProjectionElem::Field { .. }, _) => true,
        (_, ProjectionElem::Field { .. }) => true,
        _ => false,
    }
}

/// Overlap is symmetric and reflexive, and a place overlaps every extension of itself.
pub proof fn lemma_may_overlap_laws(
    local: VariableId,
    lhs: Seq<ProjectionElem>,
    other_local: VariableId,
    rhs: Seq<ProjectionElem>,
    suffix: Seq<ProjectionElem>,
)
    ensures
        spec_may_overlap(local, lhs, other_local, rhs) == spec_may_overlap(other_local, rhs, local, lhs),
        spec_may_overlap(local, lhs, local, lhs),
        spec_may_overlap(local, lhs, local, lhs + suffix),
        local != other_local ==> !spec_may_overlap(local, lhs, other_local, rhs),
{
    assert forall|a: ProjectionElem, b: ProjectionElem| projections_disjoint(a, b) == projections_disjoint(b, a) by {
    }
    assert forall|a: ProjectionElem| !projections_disjoint(a, a) by {
    }
    if spec_may_overlap(local, lhs, other_local, rhs) {
        assert forall|i: int| 0 <= i < rhs.len() && i < lhs.len() implies !projections_disjoint(
            #[trigger] rhs[i],
            lhs[i],
        ) by {
            assert(!projections_disjoint(lhs[i], rhs[i]));
        }
    }
    if spec_may_overlap(other_local, rhs, local, lhs) {
        assert forall|i: int| 0 <= i < lhs.len() && i < rhs.len() implies !projections_disjoint(
            #[trigger] lhs[i],
            rhs[i],
        ) by {
            assert(!projections_disjoint(rhs[i], lhs[i]));
        }
    }
    assert forall|i: int| 0 <= i < lhs.len() && i < (lhs + suffix).len() implies !projections_disjoint(
        #[trigger] lhs[i],
        (lhs + suffix)[i],
    ) by {
        assert((lhs + suffix)[i] == lhs[i]);
    }
}

/// The tuple structure of an expression, as assignment destructuring reads it: a tuple with its
/// components, an omitted component being `None`, or any other expression; each with its
/// identifier.
#[derive(Debug)]
pub enum ExprShape {
    /// A tuple expression `(a, , b)`; a one-component tuple is a parenthesized expression.
    Tuple(ExprId, Vec<Option<ExprShape>>),
    /// Any other expression.
    Other(ExprId),
}

/// The identifier of an expression.
pub open spec fn shape_id(expr: ExprShape) -> ExprId {
    match expr {
        ExprShape::Tuple(id, _) => id,
        ExprShape::Other(id) => id,
    }
}

/// `expr` without its enclosing parentheses.
pub open spec fn peeled(expr: ExprShape) -> ExprShape
    decreases expr,
{
    match expr {
        ExprShape::Tuple(_, components) => if components@.len() == 1 && components@[0] is Some {
            peeled(components@[0]->0)
        } else {
            expr
        },
        ExprShape::Other(_) => expr,
    }
}

/// The abstract form of an [`Assignment`]: target, value, output index and output count.
pub type AssignmentView = (ExprId, Option<ExprId>, nat, nat);

/// The components of `value` that destructure into the components of a tuple target: those of
/// a tuple value, none for any other value.
pub open spec fn tuple_values(value: Option<ExprShape>) -> Option<Seq<Option<ExprShape>>> {
    match value {
        Some(value) => match peeled(value) {
            ExprShape::Tuple(_, values) => Some(values@),
            ExprShape::Other(_) => None,
        },
        None => None,
    }
}

/// The value component at `index` of destructured `values`, if any.
pub open spec fn value_at(values: Option<Seq<Option<ExprShape>>>, index: int) -> Option<ExprShape> {
    match values {
        Some(values) => if 0 <= index < values.len() {
            values[index]
        } else {
            None
        },
        None => None,
    }
}

/// The scalar assignments of `target := value`, in source order: a tuple target destructures
/// component by component against a tuple value; each scalar target is paired with its value
/// when it is syntactically available. Components of a top-level tuple take their position and
/// the tuple's length as output index and count; nested components keep those of their
/// top-level component.
pub open spec fn assignment_pairs_of(target: ExprShape, value: Option<ExprShape>, output_index: nat, output_count: nat) -> Seq<
    AssignmentView,
>
    decreases target, 0nat,
{
    match target {
        ExprShape::Tuple(_, components) => if components@.len() == 1 && components@[0] is Some {
            assignment_pairs_of(components@[0]->0, value, output_index, output_count)
        } else {
            component_pairs(components@, tuple_values(value), components@.len(), output_index, output_count)
        },
        ExprShape::Other(id) => seq![
            (
                id,
                match value {
                    Some(value) => Some(shape_id(peeled(value))),
                    None => None,
                },
                output_index,
                output_count,
            ),
        ],
    }
}

/// The scalar assignments of the first `count` components of a tuple target.
pub open spec fn component_pairs(
    components: Seq<Option<ExprShape>>,
    values: Option<Seq<Option<ExprShape>>>,
    count: nat,
    output_index: nat,
    output_count: nat,
) -> Seq<AssignmentView>
    decreases components, count,
{
    if count == 0 || count > components.len() {
        Seq::empty()
    } else {
        let index = count - 1;
        let prior = component_pairs(components, values, index as nat, output_index, output_count);
        match components[index] {
            Some(component) => {
                let (index_out, count_out) = if output_count == 1 {
                    (index as nat, components.len())
                } else {
                    (output_index, output_count)
                };
                prior + assignment_pairs_of(component, value_at(values, index), index_out, count_out)
            },
            None => prior,
        }
    }
}

impl ExprShape {
    /// Returns the identifier of the expression.
    pub fn id(&self) -> (id: ExprId)
        ensures
            id == shape_id(*self),
    {
        match self {
            ExprShape::Tuple(id, _) => *id,
            ExprShape::Other(id) => *id,
        }
    }

    /// Peels off the parentheses enclosing the expression.
    pub fn peel_parens(&self) -> (inner: &ExprShape)
        ensures
            *inner == peeled(*self),
        decreases self,
    {
        match self {
            ExprShape::Tuple(_, components) => {
                if components.len() == 1 {
                    match &components[0] {
                        Some(inner) => inner.peel_parens(),
                        None => self,
                    }
                } else {
                    self
                }
            },
            ExprShape::Other(_) => self,
        }
    }
}

/// One scalar component of a source assignment.
#[derive(Clone, Copy, Debug, PartialEq, Eq, Structural)]
pub struct Assignment {
    /// The assigned lvalue component.
    pub target: ExprId,
    /// The corresponding rvalue component, when it is syntactically available.
    ///
    /// Calls and other expressions which return a tuple do not expose their individual result
    /// expressions and therefore produce `None` for destructured targets.
    pub value: Option<ExprId>,
    /// The target's top-level tuple output index.
    pub output_index: usize,
    /// The number of top-level outputs in the assignment target.
    pub output_count: usize,
}

/// The abstract form of a list of assignments.
pub open spec fn assignment_views(assignments: Seq<Assignment>) -> Seq<AssignmentView> {
    assignments.map_values(
        |assignment: Assignment|
            (assignment.target, assignment.value, assignment.output_index as nat, assignment.output_count as nat),
    )
}

/// Appends the scalar assignments of `target := value` to `assignments`.
fn collect_assignments(
    target: &ExprShape,
    value: Option<&ExprShape>,
    output_index: usize,
    output_count: usize,
    assignments: &mut Vec<Assignment>,
)
    ensures
        assignment_views(final(assignments)@) == assignment_views(old(assignments)@) + assignment_pairs_of(
            *target,
            match value {
                Some(value) => Some(*value),
                None => None,
            },
            output_index as nat,
            output_count as nat,
        ),
    decreases target,
{
    let ghost value_view: Option<ExprShape> = match value {
        Some(value) => Some(*value),
        None => None,
    };
    match target {
        ExprShape::Tuple(_, components) => {
            if components.len() == 1 && components[0].is_some() {
                match &components[0] {
                    Some(inner) => collect_assignments(inner, value, output_index, output_count, assignments),
                    None => {},
                }
                return;
            }
            let values: Option<&Vec<Option<ExprShape>>> = match value {
                Some(value) => match value.peel_parens() {
                    ExprShape::Tuple(_, values) => Some(values),
                    ExprShape::Other(_) => None,
                },
                None => None,
            };
            let ghost values_view: Option<Seq<Option<ExprShape>>> = match values {
                Some(values) => Some(values@),
                None => None,
            };
            proof {
                assert(values_view == tuple_values(value_view));
            }
            let ghost start = assignment_views(assignments@);
            let mut index: usize = 0;
            while index < components.len()
                invariant
                    0 <= index <= components@.len(),
                    *target is Tuple,
                    target->Tuple_1 == *components,
                    !(components@.len() == 1 && components@[0] is Some),
                    values_view == tuple_values(value_view),
                    values_view == match values {
                        Some(values) => Some(values@),
                        None => None::<Seq<Option<ExprShape>>>,
                    },
                    assignment_views(assignments@) == start + component_pairs(
                        components@,
                        values_view,
                        index as nat,
                        output_index as nat,
                        output_count as nat,
                    ),
                decreases components@.len() - index,
            {
                let ghost before = assignment_views(assignments@);
                match &components[index] {
                    Some(component) => {
                        let component_value: Option<&ExprShape> = match values {
                            Some(values) => {
                                if index < values.len() {
                                    match &values[index] {
                                        Some(component_value) => Some(component_value),
                                        None => None,
                                    }
                                } else {
                                    None
                                }
                            },
                            None => None,
                        };
                        proof {
                            assert(match component_value {
                                Some(v) => Some(*v),
                                None => None::<ExprShape>,
                            } == value_at(values_view, index as int));
                        }
                        let (index_out, count_out) = if output_count == 1 {
                            (index, components.len())
                        } else {
                            (output_index, output_count)
                        };
                        proof {
                            let ghost element = components@[index as int];
                            assert(decreases_to!(*target => target->Tuple_1));
                            assert(decreases_to!(*components => components@));
                            assert(decreases_to!(components@ => element));
                            assert(decreases_to!(element => element->0));
                            assert(decreases_to!(*target => *component));
                        }
                        collect_assignments(component, component_value, index_out, count_out, assignments);
                        proof {
                            assert(assignment_views(assignments@) =~= start + component_pairs(
                                components@,
                                values_view,
                                (index + 1) as nat,
                                output_index as nat,
                                output_count as nat,
                            ));
                        }
                    },
                    None => {
                        proof {
                            assert(component_pairs(components@, values_view, (index + 1) as nat, output_index as nat, output_count as nat)
                                == component_pairs(components@, values_view, index as nat, output_index as nat, output_count as nat));
                        }
                    },
                }
                index += 1;
            }
        },
        ExprShape::Other(id) => {
            let peeled_value = match value {
                Some(value) => Some(value.peel_parens().id()),
                None => None,
            };
            let ghost before = assignment_views(assignments@);
            assignments.push(Assignment { target: *id, value: peeled_value, output_index, output_count });
            proof {
                assert(assignment_views(assignments@) =~= before + assignment_pairs_of(*target, value_view, output_index as nat, output_count as nat));
            }
        },
    }
}

/// Pairs the scalar lvalue and rvalue components of an assignment `target := value`.
///
/// Tuple destructuring is handled recursively and keeps Solidity's simultaneous-assignment shape,
/// so callers can evaluate every value of the result before applying writes to its targets.
pub fn assignment_pairs(target: &ExprShape, value: Option<&ExprShape>) -> (assignments: Vec<Assignment>)
    ensures
        assignment_views(assignments@) == assignment_pairs_of(
            *target,
            match value {
                Some(value) => Some(*value),
                None => None,
            },
            0,
            1,
        ),
{
    let mut assignments: Vec<Assignment> = Vec::new();
    proof {
        assert(assignment_views(assignments@) =~= Seq::<AssignmentView>::empty());
    }
    collect_assignments(target, value, 0, 1, &mut assignments);
    proof {
        let value_view: Option<ExprShape> = match value {
            Some(value) => Some(*value),
            None => None,
        };
        assert(Seq::<AssignmentView>::empty() + assignment_pairs_of(*target, value_view, 0, 1) =~= assignment_pairs_of(
            *target,
            value_view,
            0,
            1,
        ));
    }
    assignments
}

/// The numeric representation of a scalar value type.
#[derive(Clone, Copy, Debug, PartialEq, Eq, Structural)]
pub enum ScalarRepr {
    /// An unsigned integer, an address or a contract.
    Unsigned,
    /// A signed integer.
    Signed,
    /// A fixed-size byte array.
    FixedBytes,
}

/// A type as conversion injectivity reads it, references peeled; widths are in bits.
#[derive(Debug)]
pub enum ScalarTy {
    /// `address` or `address payable`.
    Address,
    /// A contract type.
    Contract,
    /// `uintN`, with `N` bits.
    UInt(u16),
    /// `intN`, with `N` bits.
    Int(u16),
    /// `bytesN`, with `8 * N` bits.
    FixedBytes(u16),
    /// A user-defined value type over its underlying type.
    Udvt(Box<ScalarTy>),
    /// Any other type.
    Other,
}

/// The representation and width of a scalar type, `None` for other types.
pub open spec fn scalar_repr_of(ty: ScalarTy) -> Option<(ScalarRepr, u16)>
    decreases ty,
{
    match ty {
        ScalarTy::Address | ScalarTy::Contract => Some((ScalarRepr::Unsigned, 160u16)),
        ScalarTy::UInt(bits) => Some((ScalarRepr::Unsigned, bits)),
        ScalarTy::Int(bits) => Some((ScalarRepr::Signed, bits)),
        ScalarTy::FixedBytes(bits) => Some((ScalarRepr::FixedBytes, bits)),
        ScalarTy::Udvt(inner) => scalar_repr_of(*inner),
        ScalarTy::Other => None,
    }
}

/// Whether converting between the two types keeps distinct values distinct: the same type, a
/// widening within one representation, or a same-width reinterpretation between unsigned
/// integers and fixed bytes.
pub open spec fn injective_conversion(same_type: bool, source: ScalarTy, target: ScalarTy) -> bool {
    same_type || match (scalar_repr_of(source), scalar_repr_of(target)) {
        (Some((source_repr, source_bits)), Some((target_repr, target_bits))) => (source_repr == target_repr
            && source_bits <= target_bits) || (source_bits == target_bits && ((source_repr == ScalarRepr::Unsigned
            && target_repr == ScalarRepr::FixedBytes) || (source_repr == ScalarRepr::FixedBytes && target_repr
            == ScalarRepr::Unsigned))),
        _ => false,
    }
}

/// Returns the representation and width of a scalar type, `None` for other types.
pub fn scalar_repr(ty: &ScalarTy) -> (repr: Option<(ScalarRepr, u16)>)
    ensures
        repr == scalar_repr_of(*ty),
    decreases ty,
{
    match ty {
        ScalarTy::Address | ScalarTy::Contract => Some((ScalarRepr::Unsigned, 160)),
        ScalarTy::UInt(bits) => Some((ScalarRepr::Unsigned, *bits)),
        ScalarTy::Int(bits) => Some((ScalarRepr::Signed, *bits)),
        ScalarTy::FixedBytes(bits) => Some((ScalarRepr::FixedBytes, *bits)),
        ScalarTy::Udvt(inner) => scalar_repr(inner),
        ScalarTy::Other => None,
    }
}

/// Returns whether a conversion from `source` to `target` is injective; `same_type` says whether
/// the two types are the same once references are peeled.
pub fn conversion_is_injective(same_type: bool, source: &ScalarTy, target: &ScalarTy) -> (injective: bool)
    ensures
        injective == injective_conversion(same_type, *source, *target),
{
    if same_type {
        return true;
    }
    let (source_repr, source_bits) = match scalar_repr(source) {
        Some(repr) => repr,
        None => return false,
    };
    let (target_repr, target_bits) = match scalar_repr(target) {
        Some(repr) => repr,
        None => return false,
    };
    (source_repr == target_repr && source_bits <= target_bits) || (source_bits == target_bits && ((source_repr
        == ScalarRepr::Unsigned && target_repr == ScalarRepr::FixedBytes) || (source_repr == ScalarRepr::FixedBytes
        && target_repr == ScalarRepr::Unsigned)))
}

} // verus!
