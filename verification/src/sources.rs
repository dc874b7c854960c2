//! The parsed sources of a compilation and the import graph between them.
//!
//! A source is identified by the loaded file it was read from; its imports name the source they
//! resolve to. [`Sources::topo_sort`] orders the sources so that every source comes after the
//! sources it imports, except where imports form a cycle.

use vstd::prelude::*;

verus! {

/// The index of a source in [`Sources`].
#[derive(Clone, Copy, Debug, PartialEq, Eq, Hash, Structural)]
pub struct SourceId(pub usize);

/// The identity of a loaded source file: two sources with the same key were read from the same
/// file.
#[derive(Clone, Copy, Debug, PartialEq, Eq, Hash, Structural)]
pub struct FileKey(pub u32);

/// The syntax-tree identifier of an import directive.
#[derive(Clone, Copy, Debug, PartialEq, Eq, Hash, Structural)]
pub struct AstItemId(pub u32);

/// A single source.
#[derive(Debug)]
pub struct Source<T> {
    /// The source file.
    pub file: FileKey,
    /// The syntax-tree identifiers and source identifiers of all the imports.
    pub imports: Vec<(AstItemId, SourceId)>,
    /// The syntax tree; `None` when not parsed yet, when parsing failed, for Yul files, or when
    /// dropped to free memory.
    pub ast: Option<T>,
}

/// The abstract form of a source: its file, its imports and its syntax tree.
pub type SourceView<T> = (FileKey, Seq<(AstItemId, SourceId)>, Option<T>);

impl<T> View for Source<T> {
    type V = SourceView<T>;

    open spec fn view(&self) -> SourceView<T> {
        (self.file, self.imports@, self.ast)
    }
}

impl<T> Source<T> {
    /// Creates a new empty source.
    pub fn new(file: FileKey) -> (source: Self)
        ensures
            source@ == (file, Seq::<(AstItemId, SourceId)>::empty(), None::<T>),
    {
        Source { file, imports: Vec::new(), ast: None }
    }
}

/// The list of parsed sources.
#[derive(Debug)]
pub struct Sources<T> {
    sources: Vec<Source<T>>,
}

/// The abstract form of a list of sources.
pub open spec fn source_views<T>(sources: Seq<Source<T>>) -> Seq<SourceView<T>> {
    sources.map_values(|source: Source<T>| source@)
}

impl<T> View for Sources<T> {
    type V = Seq<SourceView<T>>;

    closed spec fn view(&self) -> Seq<SourceView<T>> {
        source_views(self.sources@)
    }
}

/// The source that the `m`-th import of source `a` resolves to.
pub open spec fn import_of<T>(sources: Seq<SourceView<T>>, a: int, m: int) -> int {
    sources[a].1[m].1.0 as int
}

/// Whether every import resolves to one of the sources.
pub open spec fn imports_resolved<T>(sources: Seq<SourceView<T>>) -> bool {
    forall|a: int, m: int|
        0 <= a < sources.len() && 0 <= m < sources[a].1.len() ==> #[trigger] import_of(sources, a, m)
            < sources.len()
}

/// Whether source `a` imports source `b`.
pub open spec fn imports<T>(sources: Seq<SourceView<T>>, a: int, b: int) -> bool {
    0 <= a < sources.len() && exists|m: int| 0 <= m < sources[a].1.len() && #[trigger] import_of(sources, a, m) == b
}

/// Whether `walk` is a non-empty sequence of sources, each importing the next.
pub open spec fn is_import_walk<T>(sources: Seq<SourceView<T>>, walk: Seq<int>) -> bool {
    walk.len() >= 1 && forall|t: int| 0 <= t < walk.len() - 1 ==> #[trigger] imports(sources, walk[t], walk[t + 1])
}

/// Whether source `a` imports source `b` directly or through other sources, or is `b`.
pub open spec fn reaches<T>(sources: Seq<SourceView<T>>, a: int, b: int) -> bool {
    exists|walk: Seq<int>| #[trigger] is_import_walk(sources, walk) && walk[0] == a && walk.last() == b
}

/// Whether every import resolves to an earlier source, or to a source that imports the importer
/// in turn (an import cycle).
pub open spec fn topologically_ordered<T>(sources: Seq<SourceView<T>>) -> bool {
    forall|k: int, m: int|
        0 <= k < sources.len() && 0 <= m < sources[k].1.len() ==> #[trigger] import_of(sources, k, m) < k || reaches(
            sources,
            import_of(sources, k, m),
            k,
        )
}

/// Whether `order` lists each of the first `count` indices exactly once.
pub open spec fn is_permutation(order: Seq<usize>, count: nat) -> bool {
    &&& order.len() == count
    &&& forall|a: int| 0 <= a < order.len() ==> (#[trigger] order[a] as int) < count
    &&& order.no_duplicates()
}

/// Whether `sorted` holds the sources of `sources` in the given order, each import renamed to the
/// new position of the source it resolves to.
pub open spec fn sorted_by_order<T>(
    sources: Seq<SourceView<T>>,
    sorted: Seq<SourceView<T>>,
    order: Seq<usize>,
) -> bool {
    &&& sorted.len() == sources.len()
    &&& forall|k: int|
        0 <= k < sorted.len() ==> {
            let original = #[trigger] sources[order[k] as int];
            &&& sorted[k].0 == original.0
            &&& sorted[k].2 == original.2
            &&& sorted[k].1.len() == original.1.len()
            &&& forall|m: int|
                0 <= m < original.1.len() ==> {
                    &&& (#[trigger] sorted[k].1[m]).0 == original.1[m].0
                    &&& sorted[k].1[m].1.0 < order.len()
                    &&& order[sorted[k].1[m].1.0 as int] == original.1[m].1.0
                }
        }
}

/// The syntax trees of the sources that have one, in order.
pub open spec fn present_asts<T>(sources: Seq<SourceView<T>>) -> Seq<T>
    decreases sources.len(),
{
    if sources.len() == 0 {
        Seq::empty()
    } else {
        present_asts(sources.drop_last()) + match sources.last().2 {
            Some(ast) => seq![ast],
            None => Seq::empty(),
        }
    }
}

/// The number of sources not visited yet.
pub open spec fn unseen(seen: Seq<bool>) -> nat
    decreases seen.len(),
{
    if seen.len() == 0 {
        0
    } else {
        unseen(seen.drop_last()) + if seen.last() {
            0nat
        } else {
            1nat
        }
    }
}

/// Marking one unvisited source visited lowers the count of unvisited sources by one.
proof fn lemma_unseen_mark(seen: Seq<bool>, i: int)
    requires
        0 <= i < seen.len(),
        !seen[i],
    ensures
        unseen(seen.update(i, true)) + 1 == unseen(seen),
    decreases seen.len(),
{
    let marked = seen.update(i, true);
    if i == seen.len() - 1 {
        assert(marked.drop_last() =~= seen.drop_last());
    } else {
        lemma_unseen_mark(seen.drop_last(), i);
        assert(marked.drop_last() =~= seen.drop_last().update(i, true));
    }
}

/// When every source is visited, none is unvisited.
proof fn lemma_unseen_none(seen: Seq<bool>)
    requires
        forall|i: int| 0 <= i < seen.len() ==> seen[i],
    ensures
        unseen(seen) == 0,
    decreases seen.len(),
{
    if seen.len() > 0 {
        lemma_unseen_none(seen.drop_last());
    }
}

/// The unvisited sources are at most all of them.
proof fn lemma_unseen_bound(seen: Seq<bool>)
    ensures
        unseen(seen) <= seen.len(),
    decreases seen.len(),
{
    if seen.len() > 0 {
        lemma_unseen_bound(seen.drop_last());
    }
}

/// Whether the source at position `a` of `order` has its `j`-th import earlier in `order`, or is
/// reached from it.
pub open spec fn import_settled<T>(sources: Seq<SourceView<T>>, order: Seq<usize>, a: int, j: int) -> bool {
    (exists|b: int| 0 <= b < a && order[b] as int == j) || reaches(sources, j, order[a] as int)
}

/// Whether every import of every finished source is settled.
pub open spec fn finished_settled<T>(sources: Seq<SourceView<T>>, order: Seq<usize>) -> bool {
    forall|a: int, m: int|
        0 <= a < order.len() && 0 <= m < sources[order[a] as int].1.len() ==> #[trigger] import_settled(
            sources,
            order,
            a,
            import_of(sources, order[a] as int, m),
        )
}

/// The state of the depth-first visit: the finished sources in `order`, the sources being
/// visited on `stack` (each importing the next), and `seen` marking exactly those two.
pub open spec fn visit_state<T>(sources: Seq<SourceView<T>>, order: Seq<usize>, stack: Seq<usize>, seen: Seq<bool>) -> bool {
    &&& seen.len() == sources.len()
    &&& sources.len() <= usize::MAX
    &&& order.no_duplicates()
    &&& stack.no_duplicates()
    &&& forall|a: int| 0 <= a < order.len() ==> (#[trigger] order[a] as int) < sources.len()
    &&& forall|t: int| 0 <= t < stack.len() ==> (#[trigger] stack[t] as int) < sources.len()
    &&& forall|a: int, t: int| 0 <= a < order.len() && 0 <= t < stack.len() ==> #[trigger] order[a] != #[trigger] stack[t]
    &&& forall|i: int|
        0 <= i < sources.len() ==> (#[trigger] seen[i] <==> (order.contains(i as usize) || stack.contains(i as usize)))
    &&& order.len() + stack.len() + unseen(seen) == sources.len()
    &&& forall|t: int| 0 <= t < stack.len() - 1 ==> #[trigger] imports(sources, stack[t] as int, stack[t + 1] as int)
    &&& finished_settled(sources, order)
}

/// A source on the visit stack reaches the source its top imports.
proof fn lemma_stack_reaches<T>(sources: Seq<SourceView<T>>, stack: Seq<usize>, id: int, t: int)
    requires
        0 <= t < stack.len(),
        forall|u: int| 0 <= u < stack.len() - 1 ==> #[trigger] imports(sources, stack[u] as int, stack[u + 1] as int),
        imports(sources, stack.last() as int, id),
    ensures
        reaches(sources, stack[t] as int, id),
{
    let walk = stack.subrange(t, stack.len() as int).map_values(|x: usize| x as int).push(id);
    assert forall|u: int| 0 <= u < walk.len() - 1 implies #[trigger] imports(sources, walk[u], walk[u + 1]) by {
        if u < walk.len() - 2 {
            assert(walk[u] == stack[t + u] as int);
            assert(walk[u + 1] == stack[t + u + 1] as int);
            assert(imports(sources, stack[t + u] as int, stack[t + u + 1] as int));
        } else {
            assert(walk[u] == stack.last() as int);
        }
    }
    assert(is_import_walk(sources, walk));
}

/// Every source reaches itself.
proof fn lemma_reaches_self<T>(sources: Seq<SourceView<T>>, id: int)
    ensures
        reaches(sources, id, id),
{
    let walk = seq![id];
    assert(is_import_walk(sources, walk));
}

/// Finishing a source whose imports are all settled keeps every finished import settled.
proof fn lemma_finish<T>(sources: Seq<SourceView<T>>, order: Seq<usize>, id: usize)
    requires
        finished_settled(sources, order),
        0 <= id < sources.len(),
        forall|m: int|
            0 <= m < sources[id as int].1.len() ==> #[trigger] import_settled(
                sources,
                order.push(id),
                order.len() as int,
                import_of(sources, id as int, m),
            ),
    ensures
        finished_settled(sources, order.push(id)),
{
    let pushed = order.push(id);
    assert forall|a: int, m: int|
        0 <= a < pushed.len() && 0 <= m < sources[pushed[a] as int].1.len() implies #[trigger] import_settled(
        sources,
        pushed,
        a,
        import_of(sources, pushed[a] as int, m),
    ) by {
        if a < order.len() {
            let j = import_of(sources, order[a] as int, m);
            assert(import_settled(sources, order, a, j));
            if exists|b: int| 0 <= b < a && order[b] as int == j {
                let b = choose|b: int| 0 <= b < a && order[b] as int == j;
                assert(pushed[b] == order[b]);
            }
        }
    }
}

/// Whether `order` is a prefix of `longer`.
pub open spec fn is_prefix(order: Seq<usize>, longer: Seq<usize>) -> bool {
    order.len() <= longer.len() && longer.subrange(0, order.len() as int) == order
}

/// The depth-first visit of source `id` from the visit state `(order, seen)`: an unvisited
/// source is marked, its imports are visited in order, and it is appended after them. `fuel`
/// bounds the depth; it is never exhausted when it is at least the number of unvisited sources.
pub open spec fn dfs_visit<T>(
    sources: Seq<SourceView<T>>,
    fuel: nat,
    id: int,
    order: Seq<usize>,
    seen: Seq<bool>,
) -> (Seq<usize>, Seq<bool>)
    decreases fuel, 0int,
{
    if seen[id] || fuel == 0 {
        (order, seen)
    } else {
        let (visited, marked) = dfs_imports(sources, (fuel - 1) as nat, id, 0, order, seen.update(id, true));
        (visited.push(id as usize), marked)
    }
}

/// The depth-first visits of the imports of source `id` from its `m`-th on, in order.
pub open spec fn dfs_imports<T>(
    sources: Seq<SourceView<T>>,
    fuel: nat,
    id: int,
    m: nat,
    order: Seq<usize>,
    seen: Seq<bool>,
) -> (Seq<usize>, Seq<bool>)
    decreases fuel, if m < sources[id].1.len() {
        sources[id].1.len() - m + 1
    } else {
        0int
    },
{
    if m >= sources[id].1.len() {
        (order, seen)
    } else {
        let (visited, marked) = dfs_visit(sources, fuel, import_of(sources, id, m as int), order, seen);
        dfs_imports(sources, fuel, id, m + 1, visited, marked)
    }
}

/// The depth-first visits of the first `count` sources, in index order, from nothing visited.
pub open spec fn dfs_from<T>(sources: Seq<SourceView<T>>, count: nat) -> (Seq<usize>, Seq<bool>)
    decreases count,
{
    if count == 0 {
        (Seq::empty(), Seq::new(sources.len(), |i: int| false))
    } else {
        let (order, seen) = dfs_from(sources, (count - 1) as nat);
        dfs_visit(sources, sources.len(), count - 1, order, seen)
    }
}

/// The depth-first post-order of the sources: each source is visited in index order, and a
/// visited source is listed after the sources it imports are visited.
pub open spec fn dfs_order<T>(sources: Seq<SourceView<T>>) -> Seq<usize> {
    dfs_from(sources, sources.len()).0
}

/// Visiting imports that are all visited already changes nothing.
proof fn lemma_dfs_imports_all_seen<T>(
    sources: Seq<SourceView<T>>,
    fuel: nat,
    id: int,
    m: nat,
    order: Seq<usize>,
    seen: Seq<bool>,
)
    requires
        forall|k: int| m <= k < sources[id].1.len() ==> #[trigger] seen[import_of(sources, id, k)],
    ensures
        dfs_imports(sources, fuel, id, m, order, seen) == (order, seen),
    decreases sources[id].1.len() - m,
{
    if m < sources[id].1.len() {
        assert(seen[import_of(sources, id, m as int)]);
        assert(dfs_visit(sources, fuel, import_of(sources, id, m as int), order, seen) == (order, seen));
        lemma_dfs_imports_all_seen(sources, fuel, id, m + 1, order, seen);
    }
}

/// The position of `x` in a permutation `order`.
pub open spec fn position_in(order: Seq<usize>, x: int) -> int {
    choose|p: int| 0 <= p < order.len() && order[p] as int == x
}

/// Renaming sources by their positions in a permutation keeps what reaches what.
proof fn lemma_reaches_renamed<T>(
    sources: Seq<SourceView<T>>,
    sorted: Seq<SourceView<T>>,
    order: Seq<usize>,
    from: int,
    to: int,
)
    requires
        sources.len() <= usize::MAX,
        is_permutation(order, sources.len()),
        forall|x: usize| (x as int) < sources.len() ==> #[trigger] order.contains(x),
        imports_resolved(sources),
        sorted_by_order(sources, sorted, order),
        reaches(sources, from, to),
    ensures
        reaches(sorted, position_in(order, from), position_in(order, to)),
{
    let walk = choose|walk: Seq<int>| #[trigger] is_import_walk(sources, walk) && walk[0] == from && walk.last() == to;
    let renamed = walk.map_values(|x: int| position_in(order, x));
    assert forall|t: int| 0 <= t < renamed.len() - 1 implies #[trigger] imports(sorted, renamed[t], renamed[t + 1]) by {
        assert(imports(sources, walk[t], walk[t + 1]));
        let m = choose|m: int| 0 <= m < sources[walk[t]].1.len() && #[trigger] import_of(sources, walk[t], m) == walk[t + 1];
        assert(import_of(sources, walk[t], m) < sources.len());
        assert(order.contains(walk[t] as usize));
        assert(order.contains(walk[t + 1] as usize));
        let i = choose|i: int| 0 <= i < order.len() && order[i] == walk[t] as usize;
        assert(order[i] as int == walk[t]);
        let i2 = choose|i: int| 0 <= i < order.len() && order[i] == walk[t + 1] as usize;
        assert(order[i2] as int == walk[t + 1]);
        let k = renamed[t];
        assert(0 <= k < order.len() && order[k] as int == walk[t]);
        let x = sorted[k].1[m].1.0 as int;
        assert(order[x] as int == walk[t + 1]);
        let p = renamed[t + 1];
        assert(0 <= p < order.len() && order[p] as int == walk[t + 1]);
        assert(x == p);
        assert(import_of(sorted, k, m) == p);
    }
    assert(is_import_walk(sorted, renamed));
}

/// Returns the position of `x` in `order`.
fn position(order: &Vec<usize>, x: usize) -> (p: usize)
    requires
        order@.contains(x),
    ensures
        p < order@.len(),
        order@[p as int] == x,
{
    let mut p: usize = 0;
    while p < order.len()
        invariant
            0 <= p <= order@.len(),
            order@.contains(x),
            forall|q: int| 0 <= q < p ==> order@[q] != x,
        decreases order@.len() - p,
    {
        if order[p] == x {
            return p;
        }
        p += 1;
    }
    p
}

/// Rearranges `data` so that its `k`-th element is the one at `indices[k]`.
fn sort_by_indices<T>(data: &mut Vec<T>, indices: Vec<usize>)
    requires
        is_permutation(indices@, old(data)@.len()),
    ensures
        final(data)@.len() == old(data)@.len(),
        forall|k: int| 0 <= k < final(data)@.len() ==> final(data)@[k] == old(data)@[indices@[k] as int],
{
    let len = data.len();
    let ghost original = data@;
    let mut slots: Vec<Option<T>> = Vec::new();
    while data.len() > 0
        invariant
            data@ == original.subrange(0, data@.len() as int),
            slots@.len() + data@.len() == len,
            len == original.len(),
            forall|j: int| 0 <= j < slots@.len() ==> #[trigger] slots@[j] == Some(original[len - 1 - j]),
        decreases data@.len(),
    {
        match data.pop() {
            Some(item) => slots.push(Some(item)),
            None => {},
        }
    }
    let mut k: usize = 0;
    while k < len
        invariant
            0 <= k <= len,
            len == original.len(),
            slots@.len() == len,
            is_permutation(indices@, len as nat),
            data@.len() == k,
            forall|q: int| 0 <= q < k ==> data@[q] == original[indices@[q] as int],
            forall|j: int|
                0 <= j < len ==> (#[trigger] slots@[j] == if exists|q: int| 0 <= q < k && indices@[q] as int == len - 1 - j {
                    None
                } else {
                    Some(original[len - 1 - j])
                }),
        decreases len - k,
    {
        let j = len - 1 - indices[k];
        let mut item: Option<T> = None;
        proof {
            assert(!exists|q: int| 0 <= q < k && indices@[q] as int == len - 1 - j) by {
                if exists|q: int| 0 <= q < k && indices@[q] as int == len - 1 - j {
                    let q = choose|q: int| 0 <= q < k && indices@[q] as int == len - 1 - j;
                    assert(indices@[q] == indices@[k as int]);
                }
            }
        }
        std::mem::swap(&mut item, &mut slots[j]);
        match item {
            Some(value) => data.push(value),
            None => {},
        }
        proof {
            assert forall|i: int| 0 <= i < len implies (#[trigger] slots@[i] == if exists|q: int|
                0 <= q < k + 1 && indices@[q] as int == len - 1 - i {
                None
            } else {
                Some(original[len - 1 - i])
            }) by {
                if i == j {
                    assert(indices@[k as int] as int == len - 1 - i);
                } else {
                    if exists|q: int| 0 <= q < k + 1 && indices@[q] as int == len - 1 - i {
                        let q = choose|q: int| 0 <= q < k + 1 && indices@[q] as int == len - 1 - i;
                        assert(q < k);
                    }
                }
            }
        }
        k += 1;
    }
}

impl<T> Sources<T> {
    /// Whether every import resolves to one of the sources.
    pub closed spec fn wf(&self) -> bool {
        imports_resolved(self@)
    }

    /// Creates a new empty list of parsed sources.
    pub fn new() -> (sources: Self)
        ensures
            sources.wf(),
            sources@ == Seq::<SourceView<T>>::empty(),
    {
        let sources = Sources { sources: Vec::new() };
        proof {
            assert(sources@ =~= Seq::<SourceView<T>>::empty());
        }
        sources
    }

    /// Returns the number of sources.
    pub fn len(&self) -> (len: usize)
        ensures
            len == self@.len(),
    {
        self.sources.len()
    }

    /// Returns the sources in order.
    pub fn as_slice(&self) -> (sources: &[Source<T>])
        ensures
            source_views(sources@) == self@,
    {
        self.sources.as_slice()
    }

    /// Returns the identifier and the source read from `file`, if there is one; the first such
    /// source if several are.
    pub fn get_file(&self, file: FileKey) -> (found: Option<(SourceId, &Source<T>)>)
        ensures
            match found {
                Some((id, source)) => {
                    &&& id.0 < self@.len()
                    &&& self@[id.0 as int].0 == file
                    &&& source@ == self@[id.0 as int]
                    &&& forall|j: int| 0 <= j < id.0 ==> self@[j].0 != file
                },
                None => forall|j: int| 0 <= j < self@.len() ==> self@[j].0 != file,
            },
    {
        let mut i: usize = 0;
        while i < self.sources.len()
            invariant
                0 <= i <= self.sources@.len(),
                self@ == source_views(self.sources@),
                forall|j: int| 0 <= j < i ==> self@[j].0 != file,
            decreases self.sources@.len() - i,
        {
            if self.sources[i].file == file {
                return Some((SourceId(i), &self.sources[i]));
            }
            i += 1;
        }
        None
    }

    /// Returns the identifier of the source read from `file`, adding an empty one if there is
    /// none, and whether it was added.
    pub fn get_or_insert_file(&mut self, file: FileKey) -> (result: (SourceId, bool))
        requires
            old(self).wf(),
        ensures
            final(self).wf(),
            result.0.0 < final(self)@.len(),
            final(self)@[result.0.0 as int].0 == file,
            result.1 == forall|j: int| 0 <= j < old(self)@.len() ==> old(self)@[j].0 != file,
            result.1 ==> final(self)@ == old(self)@.push((file, Seq::<(AstItemId, SourceId)>::empty(), None::<T>)),
            !result.1 ==> final(self)@ == old(self)@ && forall|j: int| 0 <= j < result.0.0 ==> old(self)@[j].0 != file,
    {
        match self.get_file(file) {
            Some((id, _)) => (id, false),
            None => {
                let id = self.sources.len();
                let ghost before = self@;
                self.sources.push(Source::new(file));
                proof {
                    assert(self@ =~= before.push((file, Seq::<(AstItemId, SourceId)>::empty(), None::<T>)));
                    assert forall|a: int, m: int|
                        0 <= a < self@.len() && 0 <= m < self@[a].1.len() implies #[trigger] import_of(self@, a, m)
                        < self@.len() by {
                        assert(a < before.len());
                        assert(import_of(before, a, m) < before.len());
                    }
                }
                (SourceId(id), true)
            },
        }
    }

    /// Records an import of `current`, resolved to the source read from `file`, which is added if
    /// there is none; returns its identifier and whether it was added.
    pub fn add_import(&mut self, current: SourceId, import_item_id: AstItemId, file: FileKey) -> (result: (
        SourceId,
        bool,
    ))
        requires
            old(self).wf(),
            current.0 < old(self)@.len(),
        ensures
            final(self).wf(),
            result.0.0 < final(self)@.len(),
            final(self)@[result.0.0 as int].0 == file,
            result.1 == forall|j: int| 0 <= j < old(self)@.len() ==> old(self)@[j].0 != file,
            final(self)@.len() == old(self)@.len() + if result.1 {
                1int
            } else {
                0int
            },
            forall|j: int|
                0 <= j < old(self)@.len() && j != current.0 ==> #[trigger] final(self)@[j] == old(self)@[j],
            final(self)@[current.0 as int] == (
                old(self)@[current.0 as int].0,
                old(self)@[current.0 as int].1.push((import_item_id, result.0)),
                old(self)@[current.0 as int].2,
            ),
    {
        let (import_id, new) = self.get_or_insert_file(file);
        let ghost before = self@;
        let mut imports: Vec<(AstItemId, SourceId)> = Vec::new();
        std::mem::swap(&mut imports, &mut self.sources[current.0].imports);
        imports.push((import_item_id, import_id));
        std::mem::swap(&mut imports, &mut self.sources[current.0].imports);
        proof {
            assert(self@ =~= before.update(
                current.0 as int,
                (before[current.0 as int].0, before[current.0 as int].1.push((import_item_id, import_id)), before[current.0 as int].2),
            ));
            assert forall|a: int, m: int|
                0 <= a < self@.len() && 0 <= m < self@[a].1.len() implies #[trigger] import_of(self@, a, m) < self@.len() by {
                if a != current.0 || m < before[a].1.len() {
                    assert(import_of(before, a, m) < before.len());
                }
            }
        }
        (import_id, new)
    }

    /// Visits `id` and, depth first, the sources it imports, appending each source to `order`
    /// once all the sources it imports are visited.
    fn topo_order(&self, id: usize, order: &mut Vec<usize>, seen: &mut Vec<bool>, Ghost(stack): Ghost<Seq<usize>>)
        requires
            self.wf(),
            (id as int) < self@.len(),
            visit_state(self@, old(order)@, stack, old(seen)@),
            stack.len() > 0 ==> imports(self@, stack.last() as int, id as int),
        ensures
            visit_state(self@, final(order)@, stack, final(seen)@),
            is_prefix(old(order)@, final(order)@),
            final(seen)@[id as int],
            forall|i: int| 0 <= i < old(seen)@.len() && #[trigger] old(seen)@[i] ==> final(seen)@[i],
            forall|fuel: nat|
                fuel >= unseen(old(seen)@) ==> #[trigger] dfs_visit(self@, fuel, id as int, old(order)@, old(seen)@) == (
                    final(order)@,
                    final(seen)@,
                ),
        decreases unseen(old(seen)@),
    {
        proof {
            assert(order@.subrange(0, order@.len() as int) =~= order@);
        }
        if seen[id] {
            return;
        }
        let ghost start_order = order@;
        let ghost start_seen = seen@;
        let ghost inner = stack.push(id);
        proof {
            lemma_unseen_mark(start_seen, id as int);
            assert(!stack.contains(id));
            assert(!order@.contains(id));
        }
        seen.set(id, true);
        let ghost marked = seen@;
        proof {
            assert(seen@ == start_seen.update(id as int, true));
            assert forall|t: int| 0 <= t < inner.len() - 1 implies #[trigger] imports(
                self@,
                inner[t] as int,
                inner[t + 1] as int,
            ) by {
                if t < stack.len() - 1 {
                    assert(inner[t] == stack[t] && inner[t + 1] == stack[t + 1]);
                    assert(imports(self@, stack[t] as int, stack[t + 1] as int));
                }
            }
            assert forall|i: int| 0 <= i < self@.len() implies (#[trigger] seen@[i] <==> (order@.contains(i as usize)
                || inner.contains(i as usize))) by {
                if i == id as int {
                    assert(inner[stack.len() as int] == id);
                } else {
                    assert(start_seen[i] == seen@[i]);
                    if stack.contains(i as usize) {
                        let t = choose|t: int| 0 <= t < stack.len() && stack[t] == i as usize;
                        assert(inner[t] == i as usize);
                    }
                    if inner.contains(i as usize) {
                        let t = choose|t: int| 0 <= t < inner.len() && inner[t] == i as usize;
                        assert(t < stack.len());
                        assert(stack[t] == i as usize);
                    }
                }
            }
            assert(visit_state(self@, order@, inner, seen@));
        }
        let count = self.sources[id].imports.len();
        let mut m: usize = 0;
        while m < count
            invariant
                self.wf(),
                (id as int) < self@.len(),
                self@ == source_views(self.sources@),
                count == self@[id as int].1.len(),
                0 <= m <= count,
                inner == stack.push(id),
                stack.len() > 0 ==> imports(self@, stack.last() as int, id as int),
                visit_state(self@, order@, inner, seen@),
                is_prefix(start_order, order@),
                start_order == old(order)@,
                seen@.len() == old(seen)@.len(),
                seen@[id as int],
                forall|i: int| 0 <= i < old(seen)@.len() && #[trigger] old(seen)@[i] ==> seen@[i],
                forall|k: int| 0 <= k < m ==> #[trigger] seen@[import_of(self@, id as int, k)],
                unseen(seen@) < unseen(old(seen)@),
                unseen(marked) + 1 == unseen(old(seen)@),
                start_order.len() + inner.len() + unseen(marked) == self@.len(),
                forall|g: nat|
                    g >= unseen(marked) ==> #[trigger] dfs_imports(self@, g, id as int, 0, start_order, marked)
                        == dfs_imports(self@, g, id as int, m as nat, order@, seen@),
            decreases count - m,
        {
            let import_id = self.sources[id].imports[m].1.0;
            proof {
                assert(import_of(self@, id as int, m as int) == import_id as int);
                assert(import_of(self@, id as int, m as int) < self@.len());
                assert(inner.last() == id);
            }
            let ghost before_order = order@;
            let ghost before_seen = seen@;
            self.topo_order(import_id, order, seen, Ghost(inner));
            proof {
                assert forall|g: nat| g >= unseen(marked) implies #[trigger] dfs_imports(
                    self@,
                    g,
                    id as int,
                    0,
                    start_order,
                    marked,
                ) == dfs_imports(self@, g, id as int, (m + 1) as nat, order@, seen@) by {
                    assert(unseen(before_seen) <= g);
                    assert(dfs_visit(self@, g, import_id as int, before_order, before_seen) == (order@, seen@));
                }
                assert(order@.subrange(0, start_order.len() as int) =~= before_order.subrange(0, start_order.len() as int));
                assert forall|k: int| 0 <= k < m + 1 implies #[trigger] seen@[import_of(self@, id as int, k)] by {
                    if k < m {
                        assert(before_seen[import_of(self@, id as int, k)]);
                    }
                }
            }
            m += 1;
        }
        let ghost final_seen = seen@;
        let ghost before_push = order@;
        proof {
            assert forall|g: nat| g >= unseen(marked) implies #[trigger] dfs_imports(
                self@,
                g,
                id as int,
                0,
                start_order,
                marked,
            ) == (before_push, final_seen) by {
                assert(dfs_imports(self@, g, id as int, count as nat, before_push, final_seen) == (before_push, final_seen));
            }
        }
        proof {
            assert forall|k: int| 0 <= k < count implies #[trigger] import_settled(
                self@,
                before_push.push(id),
                before_push.len() as int,
                import_of(self@, id as int, k),
            ) by {
                let j = import_of(self@, id as int, k);
                let pushed = before_push.push(id);
                assert(pushed[before_push.len() as int] == id);
                assert(0 <= j < self@.len());
                assert(seen@[j]);
                if before_push.contains(j as usize) {
                    let b = choose|b: int| 0 <= b < before_push.len() && before_push[b] == j as usize;
                    assert(pushed[b] as int == j);
                } else {
                    assert(inner.contains(j as usize));
                    let t = choose|t: int| 0 <= t < inner.len() && inner[t] == j as usize;
                    if t == stack.len() {
                        lemma_reaches_self(self@, id as int);
                    } else {
                        assert(inner[t] == stack[t]);
                        lemma_stack_reaches(self@, stack, id as int, t);
                    }
                }
            }
            lemma_finish(self@, before_push, id);
        }
        order.push(id);
        proof {
            assert(order@ == before_push.push(id));
            assert forall|fuel: nat| fuel >= unseen(old(seen)@) implies #[trigger] dfs_visit(
                self@,
                fuel,
                id as int,
                old(order)@,
                old(seen)@,
            ) == (order@, seen@) by {
                assert(!start_seen[id as int]);
                assert(marked == start_seen.update(id as int, true));
                assert(dfs_imports(self@, (fuel - 1) as nat, id as int, 0, start_order, marked) == (before_push, final_seen));
            }
            assert(order@.subrange(0, start_order.len() as int) =~= before_push.subrange(0, start_order.len() as int));
            assert forall|i: int| 0 <= i < self@.len() implies (#[trigger] seen@[i] <==> (order@.contains(i as usize)
                || stack.contains(i as usize))) by {
                if i == id as int {
                    assert(order@[before_push.len() as int] == id);
                } else {
                    if inner.contains(i as usize) {
                        let t = choose|t: int| 0 <= t < inner.len() && inner[t] == i as usize;
                        assert(t < stack.len());
                        assert(stack[t] == i as usize);
                    }
                    if stack.contains(i as usize) {
                        let t = choose|t: int| 0 <= t < stack.len() && stack[t] == i as usize;
                        assert(inner[t] == i as usize);
                    }
                    if order@.contains(i as usize) {
                        let a = choose|a: int| 0 <= a < order@.len() && order@[a] == i as usize;
                        assert(a < before_push.len());
                        assert(before_push[a] == i as usize);
                    }
                    if before_push.contains(i as usize) {
                        let a = choose|a: int| 0 <= a < before_push.len() && before_push[a] == i as usize;
                        assert(order@[a] == i as usize);
                    }
                }
            }
            assert forall|a: int, t: int| 0 <= a < order@.len() && 0 <= t < stack.len() implies #[trigger] order@[a]
                != #[trigger] stack[t] by {
                assert(inner[t] == stack[t]);
                if a < before_push.len() {
                    assert(before_push[a] == order@[a]);
                } else {
                    assert(inner[stack.len() as int] == id);
                }
            }
            assert forall|t: int| 0 <= t < stack.len() - 1 implies #[trigger] imports(
                self@,
                stack[t] as int,
                stack[t + 1] as int,
            ) by {
                assert(inner[t] == stack[t] && inner[t + 1] == stack[t + 1]);
            }
            assert(stack.no_duplicates()) by {
                assert forall|a: int, b: int| 0 <= a < stack.len() && 0 <= b < stack.len() && a != b implies stack[a]
                    != stack[b] by {
                    assert(inner[a] == stack[a] && inner[b] == stack[b]);
                }
            }
            assert(order@.no_duplicates()) by {
                assert forall|a: int, b: int| 0 <= a < order@.len() && 0 <= b < order@.len() && a != b implies order@[a]
                    != order@[b] by {
                    if a == before_push.len() || b == before_push.len() {
                        let c = if a == before_push.len() { b } else { a };
                        assert(before_push[c] != inner[stack.len() as int]);
                    }
                }
            }
            assert(visit_state(self@, order@, stack, seen@));
        }
    }

    /// Renames every import to the position of the source it resolves to in `order`.
    fn remap_imports(&mut self, order: &Vec<usize>)
        requires
            old(self).wf(),
            is_permutation(order@, old(self)@.len()),
            forall|x: usize| (x as int) < old(self)@.len() ==> #[trigger] order@.contains(x),
        ensures
            final(self).wf(),
            final(self)@.len() == old(self)@.len(),
            forall|k: int|
                0 <= k < old(self)@.len() ==> {
                    let original = #[trigger] old(self)@[k];
                    &&& final(self)@[k].0 == original.0
                    &&& final(self)@[k].2 == original.2
                    &&& final(self)@[k].1.len() == original.1.len()
                    &&& forall|m: int|
                        0 <= m < original.1.len() ==> {
                            &&& (#[trigger] final(self)@[k].1[m]).0 == original.1[m].0
                            &&& final(self)@[k].1[m].1.0 < order@.len()
                            &&& order@[final(self)@[k].1[m].1.0 as int] == original.1[m].1.0
                        }
                },
    {
        let ghost original = self@;
        let len = self.sources.len();
        let mut i: usize = 0;
        while i < len
            invariant
                0 <= i <= len,
                len == original.len(),
                imports_resolved(original),
                is_permutation(order@, len as nat),
                forall|x: usize| (x as int) < len ==> #[trigger] order@.contains(x),
                self@.len() == len,
                forall|k: int| i <= k < len ==> #[trigger] self@[k] == original[k],
                forall|k: int|
                    0 <= k < i ==> {
                        let source = #[trigger] original[k];
                        &&& self@[k].0 == source.0
                        &&& self@[k].2 == source.2
                        &&& self@[k].1.len() == source.1.len()
                        &&& forall|m: int|
                            0 <= m < source.1.len() ==> {
                                &&& (#[trigger] self@[k].1[m]).0 == source.1[m].0
                                &&& self@[k].1[m].1.0 < order@.len()
                                &&& order@[self@[k].1[m].1.0 as int] == source.1[m].1.0
                            }
                    },
            decreases len - i,
        {
            let mut imports: Vec<(AstItemId, SourceId)> = Vec::new();
            let ghost before = self@;
            proof {
                assert(before[i as int] == self.sources@[i as int]@);
                assert(before[i as int] == original[i as int]);
            }
            std::mem::swap(&mut imports, &mut self.sources[i].imports);
            let ghost taken = imports@;
            proof {
                assert(taken == original[i as int].1);
            }
            let mut renamed: Vec<(AstItemId, SourceId)> = Vec::new();
            let mut m: usize = 0;
            while m < imports.len()
                invariant
                    0 <= m <= imports@.len(),
                    imports@ == taken,
                    taken == original[i as int].1,
                    (i as int) < len,
                    len == original.len(),
                    imports_resolved(original),
                    forall|x: usize| (x as int) < len ==> #[trigger] order@.contains(x),
                    renamed@.len() == m,
                    forall|q: int|
                        0 <= q < m ==> {
                            &&& (#[trigger] renamed@[q]).0 == taken[q].0
                            &&& renamed@[q].1.0 < order@.len()
                            &&& order@[renamed@[q].1.0 as int] == taken[q].1.0
                        },
                decreases imports@.len() - m,
            {
                let (item, target) = imports[m];
                proof {
                    assert(import_of(original, i as int, m as int) < len);
                    assert(order@.contains(target.0));
                }
                let p = position(order, target.0);
                renamed.push((item, SourceId(p)));
                m += 1;
            }
            let ghost new_imports = renamed@;
            std::mem::swap(&mut renamed, &mut self.sources[i].imports);
            proof {
                assert(self@ =~= before.update(i as int, (before[i as int].0, new_imports, before[i as int].2)));
                assert forall|k: int| 0 <= k < i + 1 implies {
                    let source = #[trigger] original[k];
                    &&& self@[k].0 == source.0
                    &&& self@[k].2 == source.2
                    &&& self@[k].1.len() == source.1.len()
                    &&& forall|m: int|
                        0 <= m < source.1.len() ==> {
                            &&& (#[trigger] self@[k].1[m]).0 == source.1[m].0
                            &&& self@[k].1[m].1.0 < order@.len()
                            &&& order@[self@[k].1[m].1.0 as int] == source.1[m].1.0
                        }
                } by {
                    if k < i {
                        assert(self@[k] == before[k]);
                    }
                }
            }
            i += 1;
        }
        proof {
            assert forall|a: int, m: int| 0 <= a < self@.len() && 0 <= m < self@[a].1.len() implies #[trigger] import_of(
                self@,
                a,
                m,
            ) < self@.len() by {
                assert(original[a].1.len() == self@[a].1.len());
            }
        }
    }

    /// Sorts the sources topologically in place: each source comes after the sources it imports,
    /// except where imports form a cycle. Invalidates all source identifiers; the imports are
    /// renamed to the new positions.
    pub fn topo_sort(&mut self)
        requires
            old(self).wf(),
        ensures
            final(self).wf(),
            exists|order: Seq<usize>|
                is_permutation(order, old(self)@.len()) && #[trigger] sorted_by_order(old(self)@, final(self)@, order),
            sorted_by_order(old(self)@, final(self)@, dfs_order(old(self)@)),
            topologically_ordered(final(self)@),
    {
        let len = self.sources.len();
        let ghost original = self@;
        if len <= 1 {
            proof {
                let order: Seq<usize> = if len == 0 { Seq::empty() } else { seq![0usize] };
                assert forall|k: int, m: int| 0 <= k < self@.len() && 0 <= m < self@[k].1.len() implies #[trigger] import_of(
                    self@,
                    k,
                    m,
                ) < k || reaches(self@, import_of(self@, k, m), k) by {
                    assert(import_of(self@, k, m) < len);
                    lemma_reaches_self(self@, k);
                }
                if len == 1 {
                    assert forall|m: int| 0 <= m < original[0].1.len() implies original[0].1[m].1.0 == 0 by {
                        assert(import_of(original, 0, m) < 1);
                    }
                }
                assert(sorted_by_order(original, self@, order));
                if len == 1 {
                    let none_seen = Seq::new(1, |i: int| false);
                    assert(dfs_from(original, 0) == (Seq::<usize>::empty(), none_seen));
                    let marked = none_seen.update(0, true);
                    assert forall|k: int| 0 <= k < original[0].1.len() implies #[trigger] marked[import_of(original, 0, k)] by {
                        assert(import_of(original, 0, k) < 1);
                    }
                    lemma_dfs_imports_all_seen(original, 0, 0, 0, Seq::<usize>::empty(), marked);
                    assert(dfs_order(original) =~= order);
                } else {
                    assert(dfs_order(original) =~= order);
                }
            }
            return;
        }
        let mut order: Vec<usize> = Vec::new();
        let mut seen: Vec<bool> = Vec::new();
        while seen.len() < len
            invariant
                seen@.len() <= len,
                forall|i: int| 0 <= i < seen@.len() ==> !seen@[i],
                unseen(seen@) == seen@.len(),
            decreases len - seen@.len(),
        {
            let ghost before = seen@;
            seen.push(false);
            proof {
                assert(seen@.drop_last() =~= before);
            }
        }
        let ghost empty = Seq::<usize>::empty();
        proof {
            assert(seen@ =~= Seq::new(len as nat, |i: int| false));
            assert(self@.len() == len);
            assert(seen@.len() == len);
            assert forall|i: int| 0 <= i < self@.len() implies (#[trigger] seen@[i] <==> (order@.contains(i as usize)
                || empty.contains(i as usize))) by {
                assert(!seen@[i]);
            }
            assert(visit_state(self@, order@, empty, seen@));
        }
        let mut id: usize = 0;
        while id < len
            invariant
                self.wf(),
                self@ == original,
                len == self@.len(),
                0 <= id <= len,
                empty == Seq::<usize>::empty(),
                visit_state(self@, order@, empty, seen@),
                forall|i: int| 0 <= i < id ==> #[trigger] seen@[i],
                (order@, seen@) == dfs_from(self@, id as nat),
            decreases len - id,
        {
            let ghost before_seen = seen@;
            let ghost before_order = order@;
            self.topo_order(id, &mut order, &mut seen, Ghost(empty));
            proof {
                lemma_unseen_bound(before_seen);
                assert(dfs_visit(self@, len as nat, id as int, before_order, before_seen) == (order@, seen@));
                assert forall|i: int| 0 <= i < id + 1 implies #[trigger] seen@[i] by {
                    if i < id {
                        assert(before_seen[i]);
                    }
                }
            }
            id += 1;
        }
        proof {
            lemma_unseen_none(seen@);
            assert forall|x: usize| (x as int) < len implies #[trigger] order@.contains(x) by {
                assert(seen@[x as int]);
            }
        }
        let ghost permutation = order@;
        proof {
            assert(permutation == dfs_order(original));
        }
        self.remap_imports(&order);
        let ghost remapped = self@;
        let ghost unsorted = self.sources@;
        sort_by_indices(&mut self.sources, order);
        proof {
            assert forall|k: int| 0 <= k < len implies #[trigger] self@[k] == remapped[permutation[k] as int] by {
                assert(self.sources@[k] == unsorted[permutation[k] as int]);
            }
            assert(sorted_by_order(original, self@, permutation));
            assert forall|a: int, m: int| 0 <= a < self@.len() && 0 <= m < self@[a].1.len() implies #[trigger] import_of(
                self@,
                a,
                m,
            ) < self@.len() by {
                let original_source = original[permutation[a] as int];
                assert(self@[a].1[m].1.0 < permutation.len());
            }
            assert forall|k: int, m: int| 0 <= k < self@.len() && 0 <= m < self@[k].1.len() implies #[trigger] import_of(
                self@,
                k,
                m,
            ) < k || reaches(self@, import_of(self@, k, m), k) by {
                let source = original[permutation[k] as int];
                let x = import_of(self@, k, m);
                let j = source.1[m].1.0 as int;
                assert(permutation[x] as int == j);
                assert(import_of(original, permutation[k] as int, m) == j);
                assert(import_settled(original, permutation, k, j));
                if exists|b: int| 0 <= b < k && permutation[b] as int == j {
                    let b = choose|b: int| 0 <= b < k && permutation[b] as int == j;
                    assert(b == x);
                } else {
                    assert(reaches(original, j, permutation[k] as int));
                    lemma_reaches_renamed(original, self@, permutation, j, permutation[k] as int);
                    let pj = position_in(permutation, j);
                    assert(0 <= pj < permutation.len() && permutation[pj] as int == j) by {
                        assert(permutation[x] as int == j);
                    }
                    assert(pj == x);
                    let pk = position_in(permutation, permutation[k] as int);
                    assert(0 <= pk < permutation.len() && permutation[pk] == permutation[k]);
                    assert(pk == k);
                }
            }
        }
    }

    /// Replaces the syntax tree of source `id`.
    pub fn set_ast(&mut self, id: SourceId, ast: Option<T>)
        requires
            old(self).wf(),
            id.0 < old(self)@.len(),
        ensures
            final(self).wf(),
            final(self)@ == old(self)@.update(id.0 as int, (old(self)@[id.0 as int].0, old(self)@[id.0 as int].1, ast)),
    {
        let ghost before = self@;
        proof {
            assert(before[id.0 as int] == self.sources@[id.0 as int]@);
        }
        self.sources[id.0].ast = ast;
        proof {
            assert(self@ =~= before.update(id.0 as int, (before[id.0 as int].0, before[id.0 as int].1, ast)));
            assert forall|a: int, m: int| 0 <= a < self@.len() && 0 <= m < self@[a].1.len() implies #[trigger] import_of(
                self@,
                a,
                m,
            ) < self@.len() by {
                assert(import_of(before, a, m) < before.len());
            }
        }
    }

    /// Returns the syntax trees of the sources that have one, in order.
    pub fn asts(&self) -> (asts: Vec<&T>)
        ensures
            asts@.map_values(|ast: &T| *ast) == present_asts(self@),
    {
        let mut asts: Vec<&T> = Vec::new();
        let mut i: usize = 0;
        while i < self.sources.len()
            invariant
                0 <= i <= self.sources@.len(),
                self@ == source_views(self.sources@),
                asts@.map_values(|ast: &T| *ast) == present_asts(self@.subrange(0, i as int)),
            decreases self.sources@.len() - i,
        {
            let ghost prefix = self@.subrange(0, i + 1);
            proof {
                assert(prefix.drop_last() =~= self@.subrange(0, i as int));
                assert(prefix.last() == self.sources@[i as int]@);
            }
            match &self.sources[i].ast {
                Some(ast) => {
                    asts.push(ast);
                },
                None => {},
            }
            proof {
                assert(asts@.map_values(|ast: &T| *ast) =~= present_asts(prefix));
            }
            i += 1;
        }
        proof {
            assert(self@.subrange(0, self@.len() as int) =~= self@);
        }
        asts
    }
}

} // verus!
