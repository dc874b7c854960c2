//! Source-level storage provenance: may-sets of state-variable roots.

use vstd::prelude::*;

use crate::ids::VariableId;
use crate::lattice::JoinSemiLattice;

verus! {

/// Whether the roots are strictly increasing, so that each occurs once and lookups can bisect.
pub open spec fn strictly_sorted(roots: Seq<VariableId>) -> bool {
    forall|i: int, j: int| 0 <= i < j < roots.len() ==> roots[i].0 < roots[j].0
}

/// A deterministic may-set of state-variable roots.
///
/// A root identifies the declaration whose storage is reached, not an exact EVM slot. Keeping the
/// abstraction at source level makes it useful to lints while remaining finite across loops.
///
/// The view is the set of known roots and whether unknown storage may also be reached.
#[derive(Debug)]
pub struct StorageRoots {
    roots: Vec<VariableId>,
    unknown: bool,
}

impl View for StorageRoots {
    type V = (Set<VariableId>, bool);

    closed spec fn view(&self) -> (Set<VariableId>, bool) {
        (self.roots@.to_set(), self.unknown)
    }
}

impl StorageRoots {
    #[verifier::type_invariant]
    closed spec fn sorted(self) -> bool {
        strictly_sorted(self.roots@)
    }

    /// The known roots in declaration order.
    pub closed spec fn spec_known(&self) -> Seq<VariableId> {
        self.roots@
    }

    /// Creates an empty root set.
    pub fn new() -> (roots: Self)
        ensures
            roots@ == (Set::<VariableId>::empty(), false),
            roots.spec_known() == Seq::<VariableId>::empty(),
    {
        let roots = StorageRoots { roots: Vec::new(), unknown: false };
        assert(roots.roots@.to_set() =~= Set::<VariableId>::empty());
        roots
    }

    /// Creates a root set which may reach any storage location.
    pub fn unknown() -> (roots: Self)
        ensures
            roots@ == (Set::<VariableId>::empty(), true),
            roots.spec_known() == Seq::<VariableId>::empty(),
    {
        let roots = StorageRoots { roots: Vec::new(), unknown: true };
        assert(roots.roots@.to_set() =~= Set::<VariableId>::empty());
        roots
    }

    /// Creates a root set containing one state variable.
    pub fn singleton(variable: VariableId) -> (roots: Self)
        ensures
            roots@ == (set![variable], false),
            roots.spec_known() == seq![variable],
    {
        let mut roots = Self::new();
        roots.insert(variable);
        proof {
            assert(roots.roots@.to_set().contains(roots.roots@[0]));
            assert(roots.roots@ =~= seq![variable]);
            assert(roots.roots@.to_set() =~= set![variable]);
        }
        roots
    }

    /// Returns the known roots in declaration order.
    ///
    /// This does not account for [`StorageRoots::may_be_unknown`]. Use
    /// [`StorageRoots::known_roots`] or [`StorageRoots::may_contain`] when unknown provenance must
    /// remain conservative.
    pub fn iter_known(&self) -> (known: &[VariableId])
        ensures
            known@ == self.spec_known(),
            strictly_sorted(known@),
            known@.to_set() == self@.0,
    {
        proof {
            use_type_invariant(self);
        }
        self.roots.as_slice()
    }

    /// Returns all possible roots when provenance is fully known.
    pub fn known_roots(&self) -> (known: Option<&[VariableId]>)
        ensures
            known is Some <==> !self@.1,
            known is Some ==> known->0@ == self.spec_known(),
    {
        if self.unknown {
            None
        } else {
            Some(self.roots.as_slice())
        }
    }

    /// Returns whether this value is known not to reach storage.
    pub fn is_empty(&self) -> (empty: bool)
        ensures
            empty == (self@.0.is_empty() && !self@.1),
    {
        proof {
            if self.roots@.len() > 0 {
                assert(self.roots@.to_set().contains(self.roots@[0]));
            }
        }
        self.roots.len() == 0 && !self.unknown
    }

    /// Returns whether storage outside the known roots may be reached.
    pub fn may_be_unknown(&self) -> (unknown: bool)
        ensures
            unknown == self@.1,
    {
        self.unknown
    }

    /// Finds `variable` by bisection: its index when present, otherwise the index at which
    /// inserting it keeps the roots sorted.
    fn search(&self, variable: VariableId) -> (position: Result<usize, usize>)
        ensures
            match position {
                Ok(i) => i < self.roots@.len() && self.roots@[i as int] == variable,
                Err(i) => i <= self.roots@.len() && (forall|k: int|
                    0 <= k < i ==> #[trigger] self.roots@[k].0 < variable.0) && (forall|k: int|
                    i <= k < self.roots@.len() ==> #[trigger] self.roots@[k].0 > variable.0),
            },
    {
        proof {
            use_type_invariant(self);
        }
        let mut lo: usize = 0;
        let mut hi: usize = self.roots.len();
        while lo < hi
            invariant
                0 <= lo <= hi <= self.roots@.len(),
                strictly_sorted(self.roots@),
                forall|k: int| 0 <= k < lo ==> #[trigger] self.roots@[k].0 < variable.0,
                forall|k: int| hi <= k < self.roots@.len() ==> #[trigger] self.roots@[k].0 > variable.0,
            decreases hi - lo,
        {
            let mid = lo + (hi - lo) / 2;
            let candidate = self.roots[mid];
            if candidate.0 == variable.0 {
                return Ok(mid);
            } else if candidate.0 < variable.0 {
                lo = mid + 1;
            } else {
                hi = mid;
            }
        }
        Err(lo)
    }

    /// Returns whether the set contains `variable`.
    pub fn contains(&self, variable: VariableId) -> (present: bool)
        ensures
            present == self@.0.contains(variable),
    {
        match self.search(variable) {
            Ok(i) => {
                proof {
                    assert(self.roots@.contains(variable));
                }
                true
            },
            Err(_) => {
                proof {
                    if self.roots@.contains(variable) {
                        let k = choose|k: int| 0 <= k < self.roots@.len() && self.roots@[k] == variable;
                        assert(self.roots@[k].0 == variable.0);
                    }
                }
                false
            },
        }
    }

    /// Returns whether `variable` may be reached.
    pub fn may_contain(&self, variable: VariableId) -> (may: bool)
        ensures
            may == (self@.1 || self@.0.contains(variable)),
    {
        self.unknown || self.contains(variable)
    }

    /// Inserts one root and returns whether the set changed.
    pub fn insert(&mut self, variable: VariableId) -> (changed: bool)
        ensures
            final(self)@ == (old(self)@.0.insert(variable), old(self)@.1),
            changed == !old(self)@.0.contains(variable),
            final(self).spec_known().len() == old(self).spec_known().len() + if changed {
                1int
            } else {
                0int
            },
    {
        proof {
            use_type_invariant(&*self);
        }
        match self.search(variable) {
            Ok(i) => {
                proof {
                    assert(self.roots@.contains(variable));
                    assert(self.roots@.to_set().insert(variable) =~= self.roots@.to_set());
                }
                false
            },
            Err(index) => {
                let ghost before = self.roots@;
                proof {
                    if before.contains(variable) {
                        let k = choose|k: int| 0 <= k < before.len() && before[k] == variable;
                        assert(before[k].0 == variable.0);
                    }
                }
                let mut roots = Vec::new();
                std::mem::swap(&mut roots, &mut self.roots);
                roots.insert(index, variable);
                proof {
                    let after = roots@;
                    assert(after == before.insert(index as int, variable));
                    assert forall|i: int, j: int| 0 <= i < j < after.len() implies after[i].0
                        < after[j].0 by {
                        if j < index {
                        } else if j == index {
                        } else if i < index {
                            assert(after[j] == before[j - 1]);
                        } else if i == index {
                            assert(after[j] == before[j - 1]);
                        } else {
                            assert(after[i] == before[i - 1]);
                            assert(after[j] == before[j - 1]);
                        }
                    }
                    assert(after.to_set() =~= before.to_set().insert(variable)) by {
                        assert forall|v: VariableId| after.to_set().contains(v) implies before.to_set().insert(
                            variable,
                        ).contains(v) by {
                            let k = choose|k: int| 0 <= k < after.len() && after[k] == v;
                            if k < index {
                                assert(before[k] == v);
                            } else if k > index {
                                assert(before[k - 1] == v);
                            }
                        }
                        assert forall|v: VariableId| before.to_set().insert(variable).contains(
                            v,
                        ) implies after.to_set().contains(v) by {
                            if v == variable {
                                assert(after[index as int] == v);
                            } else {
                                let k = choose|k: int| 0 <= k < before.len() && before[k] == v;
                                if k < index {
                                    assert(after[k] == v);
                                } else {
                                    assert(after[k + 1] == v);
                                }
                            }
                        }
                    }
                }
                self.roots = roots;
                true
            },
        }
    }

    /// Unions `other` into this set and returns whether it changed.
    pub fn union(&mut self, other: &Self) -> (changed: bool)
        ensures
            final(self)@ == (old(self)@.0.union(other@.0), old(self)@.1 || other@.1),
            changed == (final(self)@ != old(self)@),
    {
        proof {
            use_type_invariant(other);
        }
        let mut changed = !self.unknown && other.unknown;
        proof {
            use_type_invariant(&*self);
        }
        self.unknown = self.unknown || other.unknown;
        let ghost start = self@.0;
        let mut i: usize = 0;
        while i < other.roots.len()
            invariant
                0 <= i <= other.roots@.len(),
                self@.0 == start.union(other.roots@.subrange(0, i as int).to_set()),
                self@.1 == (old(self)@.1 || other@.1),
                changed == (self@.0 != start || (!old(self)@.1 && other@.1)),
                start == old(self)@.0,
                other@.0 == other.roots@.to_set(),
            decreases other.roots@.len() - i,
        {
            let variable = other.roots[i];
            let ghost before = self@.0;
            let inserted = self.insert(variable);
            proof {
                assert(other.roots@.subrange(0, i + 1).to_set() =~= other.roots@.subrange(
                    0,
                    i as int,
                ).to_set().insert(variable)) by {
                    let next = other.roots@.subrange(0, i + 1);
                    let prev = other.roots@.subrange(0, i as int);
                    assert forall|v: VariableId| next.to_set().contains(v) implies prev.to_set().insert(
                        variable,
                    ).contains(v) by {
                        let k = choose|k: int| 0 <= k < next.len() && next[k] == v;
                        if k < i {
                            assert(prev[k] == v);
                        }
                    }
                    assert forall|v: VariableId| prev.to_set().insert(variable).contains(
                        v,
                    ) implies next.to_set().contains(v) by {
                        if v == variable {
                            assert(next[i as int] == v);
                        } else {
                            let k = choose|k: int| 0 <= k < prev.len() && prev[k] == v;
                            assert(next[k] == v);
                        }
                    }
                }
                assert(self@.0 =~= start.union(other.roots@.subrange(0, i + 1).to_set()));
                assert(start.subset_of(before));
                if inserted {
                    assert(!before.contains(variable));
                    assert(self@.0.contains(variable));
                    assert(!start.contains(variable));
                    assert(self@.0 != start);
                } else {
                    assert(self@.0 =~= before);
                }
            }
            changed = changed || inserted;
            i += 1;
        }
        proof {
            assert(other.roots@.subrange(0, other.roots@.len() as int) =~= other.roots@);
        }
        changed
    }

    /// Inserts every root of `variables`.
    pub fn extend(&mut self, variables: &[VariableId])
        ensures
            final(self)@ == (old(self)@.0.union(variables@.to_set()), old(self)@.1),
    {
        let mut i: usize = 0;
        while i < variables.len()
            invariant
                0 <= i <= variables@.len(),
                self@ == (old(self)@.0.union(variables@.subrange(0, i as int).to_set()), old(self)@.1),
            decreases variables@.len() - i,
        {
            let variable = variables[i];
            self.insert(variable);
            proof {
                let next = variables@.subrange(0, i + 1);
                let prev = variables@.subrange(0, i as int);
                assert(next.to_set() =~= prev.to_set().insert(variable)) by {
                    assert forall|v: VariableId| next.to_set().contains(v) implies prev.to_set().insert(
                        variable,
                    ).contains(v) by {
                        let k = choose|k: int| 0 <= k < next.len() && next[k] == v;
                        if k < i {
                            assert(prev[k] == v);
                        }
                    }
                    assert forall|v: VariableId| prev.to_set().insert(variable).contains(
                        v,
                    ) implies next.to_set().contains(v) by {
                        if v == variable {
                            assert(next[i as int] == v);
                        } else {
                            let k = choose|k: int| 0 <= k < prev.len() && prev[k] == v;
                            assert(next[k] == v);
                        }
                    }
                }
                assert(self@.0 =~= old(self)@.0.union(next.to_set()));
            }
            i += 1;
        }
        proof {
            assert(variables@.subrange(0, variables@.len() as int) =~= variables@);
        }
    }

    /// Collects a root set from `variables`.
    pub fn from_roots(variables: &[VariableId]) -> (roots: Self)
        ensures
            roots@ == (variables@.to_set(), false),
    {
        let mut roots = Self::new();
        roots.extend(variables);
        proof {
            assert(roots@.0 =~= variables@.to_set());
        }
        roots
    }

    /// Returns a copy of this root set.
    pub fn duplicate(&self) -> (copy: Self)
        ensures
            copy@ == self@,
            copy.spec_known() == self.spec_known(),
    {
        proof {
            use_type_invariant(self);
        }
        StorageRoots { roots: self.roots.clone(), unknown: self.unknown }
    }
}

/// Strictly sorted roots are determined by the set they hold.
proof fn lemma_sorted_roots_canonical(a: Seq<VariableId>, b: Seq<VariableId>)
    requires
        strictly_sorted(a),
        strictly_sorted(b),
        a.to_set() == b.to_set(),
    ensures
        a == b,
    decreases a.len() + b.len(),
{
    if a.len() == 0 || b.len() == 0 {
        if a.len() > 0 {
            assert(a.to_set().contains(a[0]));
            assert(!b.contains(a[0]));
        }
        if b.len() > 0 {
            assert(b.to_set().contains(b[0]));
            assert(!a.contains(b[0]));
        }
        assert(a =~= b);
    } else {
        let x = a.last();
        let y = b.last();
        assert(a.to_set().contains(x));
        assert(b.to_set().contains(y));
        assert(b.contains(x));
        assert(a.contains(y));
        let i = choose|i: int| 0 <= i < b.len() && b[i] == x;
        let j = choose|j: int| 0 <= j < a.len() && a[j] == y;
        if i < b.len() - 1 {
            assert(b[i].0 < b[b.len() - 1].0);
        }
        if j < a.len() - 1 {
            assert(a[j].0 < a[a.len() - 1].0);
        }
        assert(x == y);
        let a0 = a.drop_last();
        let b0 = b.drop_last();
        assert(a0.to_set() =~= b0.to_set()) by {
            assert forall|v: VariableId| a0.to_set().contains(v) implies b0.to_set().contains(v) by {
                let k = choose|k: int| 0 <= k < a0.len() && a0[k] == v;
                assert(a[k] == v);
                assert(v.0 < x.0);
                assert(a.contains(v));
                assert(a.to_set().contains(v));
                assert(b.to_set().contains(v));
                assert(b.contains(v));
                let m = choose|m: int| 0 <= m < b.len() && b[m] == v;
                assert(m != b.len() - 1);
                assert(b0[m] == v);
            }
            assert forall|v: VariableId| b0.to_set().contains(v) implies a0.to_set().contains(v) by {
                let k = choose|k: int| 0 <= k < b0.len() && b0[k] == v;
                assert(b[k] == v);
                assert(v.0 < y.0);
                assert(b.contains(v));
                assert(b.to_set().contains(v));
                assert(a.to_set().contains(v));
                assert(a.contains(v));
                let m = choose|m: int| 0 <= m < a.len() && a[m] == v;
                assert(m != a.len() - 1);
                assert(a0[m] == v);
            }
        }
        lemma_sorted_roots_canonical(a0, b0);
        assert(a =~= a0.push(x));
        assert(b =~= b0.push(y));
    }
}

impl StorageRoots {
    /// Returns whether the two root sets are equal.
    pub fn same_roots(&self, other: &Self) -> (same: bool)
        ensures
            same == (self@ == other@),
    {
        proof {
            use_type_invariant(self);
            use_type_invariant(other);
        }
        if self.unknown != other.unknown || self.roots.len() != other.roots.len() {
            proof {
                if self.roots@.to_set() == other.roots@.to_set() {
                    lemma_sorted_roots_canonical(self.roots@, other.roots@);
                }
            }
            return false;
        }
        let mut i: usize = 0;
        while i < self.roots.len()
            invariant
                0 <= i <= self.roots@.len(),
                self.roots@.len() == other.roots@.len(),
                strictly_sorted(self.roots@),
                strictly_sorted(other.roots@),
                forall|k: int| 0 <= k < i ==> self.roots@[k] == other.roots@[k],
            decreases self.roots@.len() - i,
        {
            if self.roots[i].0 != other.roots[i].0 {
                proof {
                    if self.roots@.to_set() == other.roots@.to_set() {
                        lemma_sorted_roots_canonical(self.roots@, other.roots@);
                    }
                }
                return false;
            }
            i += 1;
        }
        proof {
            assert(self.roots@ =~= other.roots@);
        }
        true
    }
}

impl Clone for StorageRoots {
    fn clone(&self) -> (copy: Self)
        ensures
            copy@ == self@,
    {
        self.duplicate()
    }
}

impl JoinSemiLattice for StorageRoots {
    open spec fn spec_join(lhs: (Set<VariableId>, bool), rhs: (Set<VariableId>, bool)) -> (Set<VariableId>, bool) {
        (lhs.0.union(rhs.0), lhs.1 || rhs.1)
    }

    proof fn lemma_clone_preserves_view() {
    }

    fn join(&mut self, other: &Self) -> (changed: bool) {
        self.union(other)
    }
}

/// Storage provenance carried by one call output.
///
/// Solidity storage-reference identity and numeric Yul slot derivation are independent channels:
/// a helper can return either a `T storage` reference or an integer derived from `value.slot`.
#[derive(Debug)]
pub struct StorageProvenance {
    references: StorageRoots,
    slots: StorageRoots,
}

impl View for StorageProvenance {
    type V = ((Set<VariableId>, bool), (Set<VariableId>, bool));

    closed spec fn view(&self) -> Self::V {
        (self.references@, self.slots@)
    }
}

impl StorageProvenance {
    /// Creates provenance with independent reference and numeric-slot roots.
    pub fn new(references: StorageRoots, slots: StorageRoots) -> (provenance: Self)
        ensures
            provenance@ == (references@, slots@),
    {
        StorageProvenance { references, slots }
    }

    /// Creates provenance which may refer to any storage root through either channel.
    pub fn unknown() -> (provenance: Self)
        ensures
            provenance@ == ((Set::<VariableId>::empty(), true), (Set::<VariableId>::empty(), true)),
    {
        Self::new(StorageRoots::unknown(), StorageRoots::unknown())
    }

    /// Returns source storage-reference roots.
    pub fn reference_roots(&self) -> (roots: &StorageRoots)
        ensures
            roots@ == self@.0,
    {
        &self.references
    }

    /// Returns numeric storage-slot roots.
    pub fn slot_roots(&self) -> (roots: &StorageRoots)
        ensures
            roots@ == self@.1,
    {
        &self.slots
    }

    /// Returns a copy of this provenance.
    pub fn duplicate(&self) -> (copy: Self)
        ensures
            copy@ == self@,
    {
        StorageProvenance { references: self.references.duplicate(), slots: self.slots.duplicate() }
    }
}

impl Clone for StorageProvenance {
    fn clone(&self) -> (copy: Self)
        ensures
            copy@ == self@,
    {
        self.duplicate()
    }
}

impl JoinSemiLattice for StorageProvenance {
    open spec fn spec_join(lhs: Self::V, rhs: Self::V) -> Self::V {
        (StorageRoots::spec_join(lhs.0, rhs.0), StorageRoots::spec_join(lhs.1, rhs.1))
    }

    proof fn lemma_clone_preserves_view() {
    }

    fn join(&mut self, other: &Self) -> (changed: bool) {
        let changed_references = self.references.union(&other.references);
        let changed_slots = self.slots.union(&other.slots);
        changed_references || changed_slots
    }
}

/// The union of the reference channels of several call outputs.
pub fn flatten_reference_roots(roots: &[StorageProvenance]) -> (flattened: StorageRoots)
    ensures
        !flattened@.1 <==> forall|k: int| 0 <= k < roots@.len() ==> !(#[trigger] roots@[k]@).0.1,
        forall|v: VariableId| flattened@.0.contains(v) <==> exists|k: int|
            0 <= k < roots@.len() && (#[trigger] roots@[k]@).0.0.contains(v),
{
    let mut flattened = StorageRoots::new();
    let mut i: usize = 0;
    while i < roots.len()
        invariant
            0 <= i <= roots@.len(),
            !flattened@.1 <==> forall|k: int| 0 <= k < i ==> !(#[trigger] roots@[k]@).0.1,
            forall|v: VariableId| flattened@.0.contains(v) <==> exists|k: int|
                0 <= k < i && (#[trigger] roots@[k]@).0.0.contains(v),
        decreases roots@.len() - i,
    {
        let _ = flattened.union(roots[i].reference_roots());
        proof {
            assert forall|v: VariableId| flattened@.0.contains(v) implies exists|k: int|
                0 <= k < i + 1 && (#[trigger] roots@[k]@).0.0.contains(v) by {
                if roots@[i as int]@.0.0.contains(v) {
                } else {
                    let k = choose|k: int| 0 <= k < i && (#[trigger] roots@[k]@).0.0.contains(v);
                }
            }
        }
        i += 1;
    }
    flattened
}

/// The union of the numeric-slot channels of several call outputs.
pub fn flatten_slot_roots(roots: &[StorageProvenance]) -> (flattened: StorageRoots)
    ensures
        !flattened@.1 <==> forall|k: int| 0 <= k < roots@.len() ==> !(#[trigger] roots@[k]@).1.1,
        forall|v: VariableId| flattened@.0.contains(v) <==> exists|k: int|
            0 <= k < roots@.len() && (#[trigger] roots@[k]@).1.0.contains(v),
{
    let mut flattened = StorageRoots::new();
    let mut i: usize = 0;
    while i < roots.len()
        invariant
            0 <= i <= roots@.len(),
            !flattened@.1 <==> forall|k: int| 0 <= k < i ==> !(#[trigger] roots@[k]@).1.1,
            forall|v: VariableId| flattened@.0.contains(v) <==> exists|k: int|
                0 <= k < i && (#[trigger] roots@[k]@).1.0.contains(v),
        decreases roots@.len() - i,
    {
        let _ = flattened.union(roots[i].slot_roots());
        proof {
            assert forall|v: VariableId| flattened@.0.contains(v) implies exists|k: int|
                0 <= k < i + 1 && (#[trigger] roots@[k]@).1.0.contains(v) by {
                if roots@[i as int]@.1.0.contains(v) {
                } else {
                    let k = choose|k: int| 0 <= k < i && (#[trigger] roots@[k]@).1.0.contains(v);
                }
            }
        }
        i += 1;
    }
    flattened
}

/// Unioning root sets is a join: commutative, associative and idempotent, with the empty known
/// set as its unit.
pub proof fn lemma_storage_roots_join_laws(
    a: (Set<VariableId>, bool),
    b: (Set<VariableId>, bool),
    c: (Set<VariableId>, bool),
)
    ensures
        StorageRoots::spec_join(a, b) == StorageRoots::spec_join(b, a),
        StorageRoots::spec_join(StorageRoots::spec_join(a, b), c) == StorageRoots::spec_join(
            a,
            StorageRoots::spec_join(b, c),
        ),
        StorageRoots::spec_join(a, a) == a,
        StorageRoots::spec_join(a, (Set::<VariableId>::empty(), false)) == a,
{
    assert(a.0.union(b.0) =~= b.0.union(a.0));
    assert(a.0.union(b.0).union(c.0) =~= a.0.union(b.0.union(c.0)));
    assert(a.0.union(a.0) =~= a.0);
    assert(a.0.union(Set::<VariableId>::empty()) =~= a.0);
}

/// Unknown provenance is never observable as a known set: it is non-empty, may contain every
/// root, and reports no complete root list.
pub proof fn lemma_unknown_roots_conservative(roots: StorageRoots, variable: VariableId)
    requires
        roots@.1,
    ensures
        !(roots@.0.is_empty() && !roots@.1),
        roots@.1 || roots@.0.contains(variable),
{
}

} // verus!
