//! Indexed abstract results produced by call expressions.

use vstd::prelude::*;

use crate::ids::ExprId;
use crate::lattice::JoinSemiLattice;

verus! {

/// The abstract elements of a sequence of domain values.
pub open spec fn views<T: View>(values: Seq<T>) -> Seq<T::V> {
    values.map_values(|t: T| t@)
}

/// Whether no call occurs twice among the entries.
pub open spec fn unique_calls<T>(entries: Seq<(ExprId, Vec<T>)>) -> bool {
    forall|i: int, j: int|
        0 <= i < entries.len() && 0 <= j < entries.len() && i != j ==> entries[i].0 != entries[j].0
}

/// Whether `call` is summarized by one of the entries.
pub open spec fn has_call<T>(entries: Seq<(ExprId, Vec<T>)>, call: ExprId) -> bool {
    exists|i: int| 0 <= i < entries.len() && #[trigger] entries[i].0 == call
}

/// The summaries held by the entries: each call maps to the abstract elements of its outputs.
pub open spec fn entries_view<T: View>(entries: Seq<(ExprId, Vec<T>)>) -> Map<ExprId, Seq<T::V>> {
    Map::new(
        |call: ExprId| has_call(entries, call),
        |call: ExprId|
            views(entries[choose|i: int| 0 <= i < entries.len() && #[trigger] entries[i].0 == call].1@),
    )
}

/// Joins two output lists position by position; the longer list supplies the missing positions.
pub open spec fn join_output_seqs<T: JoinSemiLattice>(cur: Seq<T::V>, other: Seq<T::V>) -> Seq<T::V> {
    Seq::new(
        if cur.len() >= other.len() { cur.len() } else { other.len() },
        |i: int|
            if i < cur.len() && i < other.len() {
                T::spec_join(cur[i], other[i])
            } else if i < cur.len() {
                cur[i]
            } else {
                other[i]
            },
    )
}

/// Joins two summary maps: calls summarized on one side only keep that summary, and calls
/// summarized on both sides join their outputs position by position.
pub open spec fn join_summaries<T: JoinSemiLattice>(
    lhs: Map<ExprId, Seq<T::V>>,
    rhs: Map<ExprId, Seq<T::V>>,
) -> Map<ExprId, Seq<T::V>> {
    Map::new(
        |call: ExprId| lhs.contains_key(call) || rhs.contains_key(call),
        |call: ExprId|
            if lhs.contains_key(call) && rhs.contains_key(call) {
                join_output_seqs::<T>(lhs[call], rhs[call])
            } else if lhs.contains_key(call) {
                lhs[call]
            } else {
                rhs[call]
            },
    )
}

proof fn lemma_entries_view_at<T: View>(entries: Seq<(ExprId, Vec<T>)>, i: int)
    requires
        unique_calls(entries),
        0 <= i < entries.len(),
    ensures
        entries_view(entries).contains_key(entries[i].0),
        entries_view(entries)[entries[i].0] == views(entries[i].1@),
{
    let call = entries[i].0;
    assert(has_call(entries, call));
    let j = choose|j: int| 0 <= j < entries.len() && #[trigger] entries[j].0 == call;
    assert(j == i);
}

proof fn lemma_entries_view_push<T: View>(entries: Seq<(ExprId, Vec<T>)>, entry: (ExprId, Vec<T>))
    requires
        unique_calls(entries),
        !has_call(entries, entry.0),
    ensures
        unique_calls(entries.push(entry)),
        entries_view(entries.push(entry)) == entries_view(entries).insert(entry.0, views(entry.1@)),
{
    let pushed = entries.push(entry);
    assert forall|i: int, j: int|
        0 <= i < pushed.len() && 0 <= j < pushed.len() && i != j implies pushed[i].0 != pushed[j].0 by {
        if i < entries.len() && j < entries.len() {
        } else if i < entries.len() {
            assert(entries[i].0 == pushed[i].0);
        } else {
            assert(entries[j].0 == pushed[j].0);
        }
    }
    let lhs = entries_view(pushed);
    let rhs = entries_view(entries).insert(entry.0, views(entry.1@));
    assert forall|call: ExprId| #[trigger] lhs.contains_key(call) == rhs.contains_key(call) by {
        if has_call(pushed, call) && call != entry.0 {
            let i = choose|i: int| 0 <= i < pushed.len() && #[trigger] pushed[i].0 == call;
            assert(entries[i].0 == call);
        }
        if has_call(entries, call) {
            let i = choose|i: int| 0 <= i < entries.len() && #[trigger] entries[i].0 == call;
            assert(pushed[i].0 == call);
        }
        if call == entry.0 {
            assert(pushed[entries.len() as int].0 == call);
        }
    }
    assert forall|call: ExprId| #[trigger] lhs.contains_key(call) implies lhs[call] == rhs[call] by {
        if call == entry.0 {
            lemma_entries_view_at(pushed, entries.len() as int);
        } else {
            let i = choose|i: int| 0 <= i < pushed.len() && #[trigger] pushed[i].0 == call;
            assert(i < entries.len());
            lemma_entries_view_at(pushed, i);
            lemma_entries_view_at(entries, i);
        }
    }
    assert(lhs =~= rhs);
}

proof fn lemma_entries_view_set<T: View>(entries: Seq<(ExprId, Vec<T>)>, j: int, entry: (ExprId, Vec<T>))
    requires
        unique_calls(entries),
        0 <= j < entries.len(),
        entries[j].0 == entry.0,
    ensures
        unique_calls(entries.update(j, entry)),
        entries_view(entries.update(j, entry)) == entries_view(entries).insert(entry.0, views(entry.1@)),
{
    let updated = entries.update(j, entry);
    assert forall|a: int, b: int|
        0 <= a < updated.len() && 0 <= b < updated.len() && a != b implies updated[a].0 != updated[b].0 by {
        assert(updated[a].0 == entries[a].0);
        assert(updated[b].0 == entries[b].0);
    }
    let lhs = entries_view(updated);
    let rhs = entries_view(entries).insert(entry.0, views(entry.1@));
    assert forall|call: ExprId| #[trigger] lhs.contains_key(call) == rhs.contains_key(call) by {
        if has_call(updated, call) {
            let i = choose|i: int| 0 <= i < updated.len() && #[trigger] updated[i].0 == call;
            assert(entries[i].0 == call);
        }
        if has_call(entries, call) {
            let i = choose|i: int| 0 <= i < entries.len() && #[trigger] entries[i].0 == call;
            assert(updated[i].0 == call);
        }
    }
    assert forall|call: ExprId| #[trigger] lhs.contains_key(call) implies lhs[call] == rhs[call] by {
        let i = choose|i: int| 0 <= i < updated.len() && #[trigger] updated[i].0 == call;
        lemma_entries_view_at(updated, i);
        if i != j {
            lemma_entries_view_at(entries, i);
        }
    }
    assert(lhs =~= rhs);
}

proof fn lemma_entries_view_remove<T: View>(entries: Seq<(ExprId, Vec<T>)>, j: int)
    requires
        unique_calls(entries),
        0 <= j < entries.len(),
    ensures
        unique_calls(entries.remove(j)),
        entries_view(entries.remove(j)) == entries_view(entries).remove(entries[j].0),
{
    let removed = entries.remove(j);
    let call_j = entries[j].0;
    assert forall|a: int, b: int|
        0 <= a < removed.len() && 0 <= b < removed.len() && a != b implies removed[a].0 != removed[b].0 by {
        let ea = if a < j { a } else { a + 1 };
        let eb = if b < j { b } else { b + 1 };
        assert(removed[a] == entries[ea]);
        assert(removed[b] == entries[eb]);
    }
    let lhs = entries_view(removed);
    let rhs = entries_view(entries).remove(call_j);
    assert forall|call: ExprId| #[trigger] lhs.contains_key(call) == rhs.contains_key(call) by {
        if has_call(removed, call) {
            let i = choose|i: int| 0 <= i < removed.len() && #[trigger] removed[i].0 == call;
            let e = if i < j { i } else { i + 1 };
            assert(removed[i] == entries[e]);
            assert(entries[e].0 == call);
        }
        if has_call(entries, call) && call != call_j {
            let i = choose|i: int| 0 <= i < entries.len() && #[trigger] entries[i].0 == call;
            assert(i != j);
            let r = if i < j { i } else { i - 1 };
            assert(removed[r] == entries[i]);
            assert(removed[r].0 == call);
        }
    }
    assert forall|call: ExprId| #[trigger] lhs.contains_key(call) implies lhs[call] == rhs[call] by {
        let i = choose|i: int| 0 <= i < removed.len() && #[trigger] removed[i].0 == call;
        let e = if i < j { i } else { i + 1 };
        assert(removed[i] == entries[e]);
        lemma_entries_view_at(removed, i);
        lemma_entries_view_at(entries, e);
    }
    assert(lhs =~= rhs);
}

/// Returns the position of the entry that summarizes `call`, if any.
fn find_call<T>(entries: &[(ExprId, Vec<T>)], call: ExprId) -> (index: Option<usize>)
    ensures
        match index {
            Some(i) => i < entries@.len() && entries@[i as int].0 == call,
            None => !has_call(entries@, call),
        },
{
    let mut i: usize = 0;
    while i < entries.len()
        invariant
            0 <= i <= entries@.len(),
            forall|k: int| 0 <= k < i ==> entries@[k].0 != call,
        decreases entries@.len() - i,
    {
        if entries[i].0 == call {
            return Some(i);
        }
        i += 1;
    }
    None
}

proof fn lemma_views_push<T: View>(values: Seq<T>, value: T)
    ensures
        views(values.push(value)) == views(values).push(value@),
{
    assert(views(values.push(value)) =~= views(values).push(value@));
}

proof fn lemma_push_differs<A>(a: Seq<A>, b: Seq<A>, x: A, y: A)
    requires
        a.len() == b.len(),
    ensures
        (a.push(x) != b.push(y)) == (a != b || x != y),
{
    if a.push(x) == b.push(y) {
        assert(a =~= a.push(x).drop_last());
        assert(b =~= b.push(y).drop_last());
        assert(a.push(x)[a.len() as int] == x);
        assert(b.push(y)[b.len() as int] == y);
    }
}

/// Abstract call outputs keyed by expression and declaration-order result index.
///
/// An absent entry means the call has not been summarized. A present empty output list is a known
/// call with no results, so consumers can represent unknown values explicitly in `T` without
/// overloading collection emptiness.
#[derive(Debug)]
pub struct CallResults<T> {
    entries: Vec<(ExprId, Vec<T>)>,
}

impl<T: View> View for CallResults<T> {
    type V = Map<ExprId, Seq<T::V>>;

    closed spec fn view(&self) -> Map<ExprId, Seq<T::V>> {
        entries_view(self.entries@)
    }
}

impl<T> CallResults<T> {
    #[verifier::type_invariant]
    closed spec fn distinct_calls(self) -> bool {
        unique_calls(self.entries@)
    }
}

impl<T: View> CallResults<T> {
    /// Creates an empty summary.
    pub fn new() -> (results: Self)
        ensures
            results@ == Map::<ExprId, Seq<T::V>>::empty(),
    {
        let results = CallResults { entries: Vec::new() };
        assert(results@ =~= Map::<ExprId, Seq<T::V>>::empty());
        results
    }

    /// Returns all recorded outputs for `call`, including a known empty list.
    pub fn outputs(&self, call: ExprId) -> (outputs: Option<&[T]>)
        ensures
            outputs is Some <==> self@.contains_key(call),
            outputs is Some ==> views(outputs->0@) == self@[call],
    {
        proof {
            use_type_invariant(self);
        }
        match find_call(self.entries.as_slice(), call) {
            Some(i) => {
                proof {
                    lemma_entries_view_at(self.entries@, i as int);
                }
                Some(self.entries[i].1.as_slice())
            },
            None => None,
        }
    }

    /// Returns output `index` of `call` when it has been summarized.
    pub fn output(&self, call: ExprId, index: usize) -> (output: Option<&T>)
        ensures
            output is Some <==> (self@.contains_key(call) && index < self@[call].len()),
            output is Some ==> output->0@ == self@[call][index as int],
    {
        match self.outputs(call) {
            Some(outputs) => {
                if index < outputs.len() {
                    Some(&outputs[index])
                } else {
                    None
                }
            },
            None => None,
        }
    }

    /// Replaces the outputs recorded for `call`.
    pub fn set_outputs(&mut self, call: ExprId, outputs: Vec<T>)
        ensures
            final(self)@ == old(self)@.insert(call, views(outputs@)),
    {
        proof {
            use_type_invariant(&*self);
        }
        let found = find_call(self.entries.as_slice(), call);
        let mut entries = Vec::new();
        std::mem::swap(&mut entries, &mut self.entries);
        let ghost before = entries@;
        match found {
            Some(i) => {
                entries.set(i, (call, outputs));
                proof {
                    lemma_entries_view_set(before, i as int, (call, outputs));
                }
            },
            None => {
                entries.push((call, outputs));
                proof {
                    lemma_entries_view_push(before, (call, outputs));
                }
            },
        }
        self.entries = entries;
    }

    /// Removes the summary for `call` and returns whether one was present.
    pub fn clear(&mut self, call: ExprId) -> (present: bool)
        ensures
            final(self)@ == old(self)@.remove(call),
            present == old(self)@.contains_key(call),
    {
        proof {
            use_type_invariant(&*self);
        }
        let found = find_call(self.entries.as_slice(), call);
        match found {
            Some(i) => {
                let mut entries = Vec::new();
                std::mem::swap(&mut entries, &mut self.entries);
                let ghost before = entries@;
                let _ = entries.remove(i);
                proof {
                    lemma_entries_view_remove(before, i as int);
                    lemma_entries_view_at(before, i as int);
                }
                self.entries = entries;
                true
            },
            None => {
                proof {
                    assert(self@.remove(call) =~= self@);
                }
                false
            },
        }
    }

    /// Returns the summarized calls, each once.
    pub(crate) fn calls(&self) -> (calls: Vec<ExprId>)
        ensures
            calls@.no_duplicates(),
            forall|call: ExprId| #[trigger] calls@.contains(call) <==> self@.contains_key(call),
    {
        proof {
            use_type_invariant(self);
        }
        let mut calls: Vec<ExprId> = Vec::new();
        let mut i: usize = 0;
        while i < self.entries.len()
            invariant
                0 <= i <= self.entries@.len(),
                unique_calls(self.entries@),
                calls@.len() == i,
                forall|k: int| 0 <= k < i ==> calls@[k] == #[trigger] self.entries@[k].0,
            decreases self.entries@.len() - i,
        {
            calls.push(self.entries[i].0);
            i += 1;
        }
        proof {
            assert forall|a: int, b: int| 0 <= a < calls@.len() && 0 <= b < calls@.len() && a != b implies calls@[a]
                != calls@[b] by {
                assert(calls@[a] == self.entries@[a].0);
                assert(calls@[b] == self.entries@[b].0);
            }
            assert forall|call: ExprId| #[trigger] calls@.contains(call) <==> self@.contains_key(call) by {
                if calls@.contains(call) {
                    let k = choose|k: int| 0 <= k < calls@.len() && calls@[k] == call;
                    assert(self.entries@[k].0 == call);
                }
                if self@.contains_key(call) {
                    let k = choose|k: int| 0 <= k < self.entries@.len() && #[trigger] self.entries@[k].0 == call;
                    assert(calls@[k] == call);
                }
            }
        }
        calls
    }

    /// Removes every recorded call summary.
    pub fn clear_all(&mut self)
        ensures
            final(self)@ == Map::<ExprId, Seq<T::V>>::empty(),
    {
        self.entries = Vec::new();
        assert(self@ =~= Map::<ExprId, Seq<T::V>>::empty());
    }
}

/// Clones every value of `values`.
fn clone_values<T: JoinSemiLattice>(values: &[T]) -> (copy: Vec<T>)
    ensures
        views(copy@) == views(values@),
{
    proof {
        T::lemma_clone_preserves_view();
    }
    let mut copy = Vec::new();
    let mut i: usize = 0;
    while i < values.len()
        invariant
            0 <= i <= values@.len(),
            views(copy@) == views(values@.subrange(0, i as int)),
            crate::lattice::clone_preserves_view::<T>(),
        decreases values@.len() - i,
    {
        let value = values[i].clone();
        proof {
            assert(cloned(values@[i as int], value));
            lemma_views_push(copy@, value);
            lemma_views_push(values@.subrange(0, i as int), values@[i as int]);
            assert(values@.subrange(0, i + 1) =~= values@.subrange(0, i as int).push(values@[i as int]));
        }
        copy.push(value);
        i += 1;
    }
    proof {
        assert(values@.subrange(0, values@.len() as int) =~= values@);
    }
    copy
}

/// Joins two output lists position by position and returns the joined list and whether it
/// differs from `cur`.
fn join_outputs<T: JoinSemiLattice>(cur: &[T], other: &[T]) -> (joined: (Vec<T>, bool))
    ensures
        views(joined.0@) == join_output_seqs::<T>(views(cur@), views(other@)),
        joined.1 == (views(joined.0@) != views(cur@)),
{
    proof {
        T::lemma_clone_preserves_view();
    }
    let ghost target = join_output_seqs::<T>(views(cur@), views(other@));
    let ghost base = views(cur@);
    let len = if cur.len() >= other.len() { cur.len() } else { other.len() };
    let mut joined = Vec::new();
    let mut changed = false;
    let mut i: usize = 0;
    proof {
        assert(views(joined@) =~= base.subrange(0, 0));
        assert(views(joined@) =~= target.subrange(0, 0));
    }
    while i < len
        invariant
            0 <= i <= len,
            len == target.len(),
            len >= cur@.len(),
            len >= other@.len(),
            target == join_output_seqs::<T>(views(cur@), views(other@)),
            base == views(cur@),
            views(joined@) == target.subrange(0, i as int),
            i <= cur@.len() ==> changed == (views(joined@) != base.subrange(0, i as int)),
            i > cur@.len() ==> changed,
            crate::lattice::clone_preserves_view::<T>(),
        decreases len - i,
    {
        let ghost prev = joined@;
        if i < cur.len() && i < other.len() {
            let mut value = cur[i].clone();
            proof {
                assert(cloned(cur@[i as int], value));
            }
            let step = value.join(&other[i]);
            proof {
                lemma_views_push(prev, value);
                lemma_push_differs(views(prev), base.subrange(0, i as int), value@, base[i as int]);
                assert(base.subrange(0, i + 1) =~= base.subrange(0, i as int).push(base[i as int]));
            }
            changed = changed || step;
            joined.push(value);
        } else if i < cur.len() {
            let value = cur[i].clone();
            proof {
                assert(cloned(cur@[i as int], value));
                lemma_views_push(prev, value);
                lemma_push_differs(views(prev), base.subrange(0, i as int), value@, base[i as int]);
                assert(base.subrange(0, i + 1) =~= base.subrange(0, i as int).push(base[i as int]));
            }
            joined.push(value);
        } else {
            let value = other[i].clone();
            proof {
                assert(cloned(other@[i as int], value));
                lemma_views_push(prev, value);
            }
            joined.push(value);
            changed = true;
        }
        proof {
            assert(views(joined@) =~= target.subrange(0, i + 1));
        }
        i += 1;
    }
    proof {
        assert(target.subrange(0, len as int) =~= target);
        if len == cur@.len() {
            assert(base.subrange(0, len as int) =~= base);
        } else {
            assert(target.len() != base.len());
        }
    }
    (joined, changed)
}

impl<T: JoinSemiLattice> CallResults<T> {
    /// Returns a copy of these summaries.
    pub fn duplicate(&self) -> (copy: Self)
        ensures
            copy@ == self@,
    {
        proof {
            use_type_invariant(self);
        }
        let mut entries: Vec<(ExprId, Vec<T>)> = Vec::new();
        let mut i: usize = 0;
        while i < self.entries.len()
            invariant
                0 <= i <= self.entries@.len(),
                unique_calls(self.entries@),
                entries@.len() == i,
                forall|k: int| 0 <= k < i ==> #[trigger] entries@[k].0 == self.entries@[k].0 && views(entries@[k].1@)
                    == views(self.entries@[k].1@),
            decreases self.entries@.len() - i,
        {
            let call = self.entries[i].0;
            let outputs = clone_values(self.entries[i].1.as_slice());
            entries.push((call, outputs));
            i += 1;
        }
        proof {
            assert(unique_calls(entries@)) by {
                assert forall|a: int, b: int|
                    0 <= a < entries@.len() && 0 <= b < entries@.len() && a != b implies entries@[a].0
                    != entries@[b].0 by {
                    assert(entries@[a].0 == self.entries@[a].0);
                    assert(entries@[b].0 == self.entries@[b].0);
                }
            }
            let lhs = entries_view(entries@);
            let rhs = entries_view(self.entries@);
            assert forall|call: ExprId| #[trigger] lhs.contains_key(call) == rhs.contains_key(call) by {
                if has_call(entries@, call) {
                    let k = choose|k: int| 0 <= k < entries@.len() && #[trigger] entries@[k].0 == call;
                    assert(self.entries@[k].0 == call);
                }
                if has_call(self.entries@, call) {
                    let k = choose|k: int| 0 <= k < self.entries@.len() && #[trigger] self.entries@[k].0 == call;
                    assert(entries@[k].0 == call);
                }
            }
            assert forall|call: ExprId| #[trigger] lhs.contains_key(call) implies lhs[call] == rhs[call] by {
                let k = choose|k: int| 0 <= k < entries@.len() && #[trigger] entries@[k].0 == call;
                lemma_entries_view_at(entries@, k);
                lemma_entries_view_at(self.entries@, k);
            }
            assert(lhs =~= rhs);
        }
        CallResults { entries }
    }
}

impl<T: JoinSemiLattice> Clone for CallResults<T> {
    fn clone(&self) -> (copy: Self)
        ensures
            copy@ == self@,
    {
        self.duplicate()
    }
}

impl<T: JoinSemiLattice> JoinSemiLattice for CallResults<T> {
    open spec fn spec_join(lhs: Self::V, rhs: Self::V) -> Self::V {
        join_summaries::<T>(lhs, rhs)
    }

    proof fn lemma_clone_preserves_view() {
    }

    fn join(&mut self, other: &Self) -> (changed: bool) {
        proof {
            use_type_invariant(&*self);
            use_type_invariant(other);
        }
        let ghost old_view = self@;
        let ghost other_entries = other.entries@;
        let mut entries = Vec::new();
        std::mem::swap(&mut entries, &mut self.entries);
        let mut changed = false;
        let mut i: usize = 0;
        while i < other.entries.len()
            invariant
                0 <= i <= other_entries.len(),
                other_entries == other.entries@,
                unique_calls(other_entries),
                unique_calls(entries@),
                old_view == entries_view(old(self).entries@),
                entries_view(entries@) == join_summaries::<T>(
                    old_view,
                    entries_view(other_entries.subrange(0, i as int)),
                ),
                forall|call: ExprId|
                    !has_call(other_entries.subrange(0, i as int), call) ==> (#[trigger] entries_view(
                        entries@,
                    ).contains_key(call) == old_view.contains_key(call)) && (old_view.contains_key(
                        call,
                    ) ==> entries_view(entries@)[call] == old_view[call]),
                changed == (entries_view(entries@) != old_view),
            decreases other_entries.len() - i,
        {
            let call = other.entries[i].0;
            let ghost prefix = other_entries.subrange(0, i as int);
            let ghost next = other_entries.subrange(0, i + 1);
            let ghost before = entries@;
            let ghost before_view = entries_view(entries@);
            proof {
                assert(next =~= prefix.push(other_entries[i as int]));
                assert(unique_calls(prefix));
                assert(!has_call(prefix, call)) by {
                    if has_call(prefix, call) {
                        let k = choose|k: int| 0 <= k < prefix.len() && #[trigger] prefix[k].0 == call;
                        assert(other_entries[k].0 == call);
                    }
                }
                lemma_entries_view_push(prefix, other_entries[i as int]);
                lemma_entries_view_at(other_entries, i as int);
            }
            let position = find_call(entries.as_slice(), call);
            let ghost other_view = views(other_entries[i as int].1@);
            match position {
                Some(j) => {
                    let (merged, step) = join_outputs(entries[j].1.as_slice(), other.entries[i].1.as_slice());
                    proof {
                        lemma_entries_view_at(before, j as int);
                    }
                    entries.set(j, (call, merged));
                    proof {
                        lemma_entries_view_set(before, j as int, (call, merged));
                    }
                    changed = changed || step;
                },
                None => {
                    let copy = clone_values(other.entries[i].1.as_slice());
                    proof {
                        assert(!has_call(before, call));
                        lemma_entries_view_push(before, (call, copy));
                    }
                    entries.push((call, copy));
                    changed = true;
                },
            }
            proof {
                let after_view = entries_view(entries@);
                let target = join_summaries::<T>(old_view, entries_view(next));
                let prev_target = join_summaries::<T>(old_view, entries_view(prefix));
                assert(entries_view(next) == entries_view(prefix).insert(call, other_view));
                assert(!entries_view(prefix).contains_key(call));
                assert(before_view.contains_key(call) == old_view.contains_key(call));
                assert forall|c: ExprId| #[trigger] after_view.contains_key(c) == target.contains_key(c) by {
                }
                assert forall|c: ExprId| #[trigger] after_view.contains_key(c) implies after_view[c]
                    == target[c] by {
                    if c == call {
                        if old_view.contains_key(call) {
                            assert(before_view[call] == old_view[call]);
                        }
                    } else {
                        assert(prev_target.contains_key(c));
                    }
                }
                assert(after_view =~= target);
                assert forall|c: ExprId| !has_call(next, c) implies (#[trigger] entries_view(
                    entries@,
                ).contains_key(c) == old_view.contains_key(c)) && (old_view.contains_key(c)
                    ==> entries_view(entries@)[c] == old_view[c]) by {
                    if has_call(prefix, c) {
                        let k = choose|k: int| 0 <= k < prefix.len() && #[trigger] prefix[k].0 == c;
                        assert(next[k].0 == c);
                    }
                    assert(next[i as int].0 == call);
                }
                if position is None {
                    assert(after_view.contains_key(call));
                    assert(!old_view.contains_key(call));
                } else {
                    assert(old_view.contains_key(call));
                    assert(before_view[call] == old_view[call]);
                    if before_view != old_view && after_view == old_view {
                        assert(before_view =~= old_view) by {
                            assert forall|c: ExprId| #[trigger] before_view.contains_key(c) == old_view.contains_key(c) by {
                                if c != call {
                                    assert(after_view.contains_key(c) == before_view.contains_key(c));
                                }
                            }
                            assert forall|c: ExprId| #[trigger] before_view.contains_key(c) implies before_view[c]
                                == old_view[c] by {
                                if c != call {
                                    assert(after_view[c] == before_view[c]);
                                }
                            }
                        }
                    }
                    if before_view == old_view && after_view != old_view {
                        if after_view[call] == before_view[call] {
                            assert(after_view =~= before_view);
                        }
                    }
                    if before_view == old_view && after_view[call] != before_view[call] {
                        assert(after_view != old_view);
                    }
                }
            }
            i += 1;
        }
        proof {
            assert(other_entries.subrange(0, other_entries.len() as int) =~= other_entries);
        }
        self.entries = entries;
        changed
    }
}

} // verus!
