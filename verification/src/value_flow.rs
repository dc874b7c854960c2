//! Value flow through variables, projected source places and internal call results.

use vstd::prelude::*;

use crate::call_results::{views, CallResults};
use crate::ids::{ExprId, VariableId};
use crate::keyed::{
    entry_keys, has_key, keyed_view, lemma_keyed_view_at, lemma_keyed_view_push, lemma_keyed_view_set, unique_keys,
};
use crate::lattice::JoinSemiLattice;
use crate::place::{spec_may_overlap, Place, ProjectionElem};
use crate::value::{
    add_value, all_selected, correlated_selection, lemma_dedup_distinct, lemma_join_values, lemma_join_values_absorbs, common_origin_of, common_source_of, generation_of, is_definite_alias_of, refined_by,
    refines_definite_aliases, same_source, source_selection, origin_is_correlatable, AbstractValue, initial_property_of, join_values, value_views, variable_value, EvaluatedSites, OriginView,
    ValueGeneration, ValueOrigin, ValueProperty, ValueSet, ValueState,
};

verus! {

/// The abstract form of a [`Place`]: its root variable and its projections.
pub type PlaceView = (VariableId, Seq<ProjectionElem>);

/// The abstract state of a [`ValueFlowState`]: the variable values, the recorded values of
/// projected places, the call-result summaries and the evaluation multiplicity of sites.
pub type FlowView<P> = (
    (Map<VariableId, Seq<(OriginView, P)>>, Map<VariableId, P>, P),
    Map<PlaceView, Seq<(OriginView, P)>>,
    Map<ExprId, Seq<Seq<(OriginView, P)>>>,
    (Set<ExprId>, Set<ExprId>),
);

/// The state of a new flow: no recorded value, place, call summary or evaluated site, and
/// `initial_property` for untouched variables.
pub open spec fn empty_flow<P>(initial_property: P) -> FlowView<P> {
    (
        (Map::<VariableId, Seq<(OriginView, P)>>::empty(), Map::<VariableId, P>::empty(), initial_property),
        Map::<PlaceView, Seq<(OriginView, P)>>::empty(),
        Map::<ExprId, Seq<Seq<(OriginView, P)>>>::empty(),
        (Set::<ExprId>::empty(), Set::<ExprId>::empty()),
    )
}

/// A canonical entry of a projected place: the move path that stores it, its stable identity
/// and the generation of the aggregate that owns it.
pub type EntryView = (PlaceView, PlaceView, ValueGeneration);

/// The entries of a place map as pairs of place views and value sets.
pub open spec fn place_entries<P>(entries: Seq<(Place, ValueSet<P>)>) -> Seq<(PlaceView, ValueSet<P>)> {
    entries.map_values(|entry: (Place, ValueSet<P>)| (entry.0@, entry.1))
}

/// The views of a list of canonical entries.
pub open spec fn entry_views(entries: Seq<(Place, Place, ValueGeneration)>) -> Seq<EntryView> {
    entries.map_values(|entry: (Place, Place, ValueGeneration)| (entry.0@, entry.1@, entry.2))
}

/// The views of a list of places.
pub open spec fn place_views(places: Seq<Place>) -> Seq<PlaceView> {
    places.map_values(|place: Place| place@)
}

/// Whether `projection` is a non-empty path of field projections: the projected places whose
/// identity is followed precisely.
pub open spec fn is_field_path(projection: Seq<ProjectionElem>) -> bool {
    projection.len() > 0 && forall|i: int| 0 <= i < projection.len() ==> (#[trigger] projection[i]) is Field
}

/// The canonical entry through which a value with `origin` reaches `projection`, when the origin
/// has a stable base: a variable's own value, or a projected place.
pub open spec fn canonical_entry(origin: OriginView, projection: Seq<ProjectionElem>) -> Option<EntryView> {
    match origin {
        OriginView::Initial(variable) => Some(
            ((variable, projection), (variable, projection), ValueGeneration::Initial(variable)),
        ),
        OriginView::Opaque(variable) => Some(
            ((variable, projection), (variable, projection), ValueGeneration::Opaque(variable)),
        ),
        OriginView::Place { identity, anchor, generation } => Some(
            ((anchor.0, anchor.1 + projection), (identity.0, identity.1 + projection), generation),
        ),
        _ => None,
    }
}

/// The canonical entries of the alternatives of `values`, in order, each once.
pub open spec fn canonical_entries<P>(values: Seq<(OriginView, P)>, projection: Seq<ProjectionElem>) -> Seq<
    EntryView,
>
    decreases values.len(),
{
    if values.len() == 0 {
        Seq::empty()
    } else {
        let prior = canonical_entries(values.drop_last(), projection);
        match canonical_entry(values.last().0, projection) {
            Some(entry) => add_value(prior, entry),
            None => prior,
        }
    }
}

/// The canonical entries of a projected place in `state`, through the alternatives of its root's
/// value; none unless its projection is a field path.
pub open spec fn place_entries_of<P>(state: FlowView<P>, place: PlaceView) -> Seq<EntryView> {
    if is_field_path(place.1) {
        canonical_entries(variable_value(state.0, place.0), place.1)
    } else {
        Seq::empty()
    }
}

/// The distinct move paths of `entries`, in order.
pub open spec fn entry_anchors(entries: Seq<EntryView>) -> Seq<PlaceView>
    decreases entries.len(),
{
    if entries.len() == 0 {
        Seq::empty()
    } else {
        add_value(entry_anchors(entries.drop_last()), entries.last().0)
    }
}

/// The move paths through which `place` is stored in `state`: the place itself for a whole
/// variable.
pub open spec fn canonical_places_of<P>(state: FlowView<P>, place: PlaceView) -> Seq<PlaceView> {
    if place.1.len() == 0 {
        seq![place]
    } else {
        entry_anchors(place_entries_of(state, place))
    }
}

/// The value held at one canonical entry of `place`: the recorded value of its move path, or a
/// fresh place value with the initial property of the place's root.
pub open spec fn entry_value<P>(state: FlowView<P>, place: PlaceView, entry: EntryView) -> Seq<(OriginView, P)> {
    if state.1.contains_key(entry.0) {
        state.1[entry.0]
    } else {
        seq![
            (
                OriginView::Place { identity: entry.1, anchor: entry.0, generation: entry.2 },
                initial_property_of(state.0, place.0),
            ),
        ]
    }
}

/// The join of the values held at `entries`, in order.
pub open spec fn joined_entry_values<P>(state: FlowView<P>, place: PlaceView, entries: Seq<EntryView>) -> Seq<
    (OriginView, P),
>
    decreases entries.len(),
{
    if entries.len() == 0 {
        Seq::empty()
    } else {
        join_values(joined_entry_values(state, place, entries.drop_last()), entry_value(state, place, entries.last()))
    }
}

/// The value read at `place` in `state`: the variable's value for a whole variable; otherwise the
/// join of the values at its canonical entries, or an opaque value of its root when it has none.
pub open spec fn place_value_of<P>(state: FlowView<P>, place: PlaceView) -> Seq<(OriginView, P)> {
    if place.1.len() == 0 {
        variable_value(state.0, place.0)
    } else {
        let joined = joined_entry_values(state, place, place_entries_of(state, place));
        if joined.len() == 0 {
            seq![(OriginView::Opaque(place.0), initial_property_of(state.0, place.0))]
        } else {
            joined
        }
    }
}

/// Whether assignments and refinements preserve the identity of `place`: whole variables, and
/// field paths that are not backed by state and are reached through at least one stable base.
pub open spec fn can_track<P>(state: FlowView<P>, place: PlaceView, state_backed: bool) -> bool {
    place.1.len() == 0 || (!state_backed && is_field_path(place.1) && canonical_places_of(state, place).len() > 0)
}

/// `places` without the places rooted at `variable`.
pub open spec fn without_root<P>(places: Map<PlaceView, Seq<(OriginView, P)>>, variable: VariableId) -> Map<
    PlaceView,
    Seq<(OriginView, P)>,
> {
    Map::new(|key: PlaceView| places.contains_key(key) && key.0 != variable, |key: PlaceView| places[key])
}

/// The recorded places of a join: every place recorded on either side holds the join of the
/// values read at it on both sides.
pub open spec fn join_places<P>(lhs: FlowView<P>, rhs: FlowView<P>) -> Map<PlaceView, Seq<(OriginView, P)>> {
    Map::new(
        |key: PlaceView| lhs.1.contains_key(key) || rhs.1.contains_key(key),
        |key: PlaceView| join_values(place_value_of(lhs, key), place_value_of(rhs, key)),
    )
}

/// The place whose current value `origin` denotes: the variable itself for its initial or an
/// opaque value, the anchor of a place value; computed values and call results have none.
pub open spec fn origin_base(origin: OriginView) -> Option<PlaceView> {
    match origin {
        OriginView::Initial(variable) => Some((variable, Seq::<ProjectionElem>::empty())),
        OriginView::Opaque(variable) => Some((variable, Seq::<ProjectionElem>::empty())),
        OriginView::Place { anchor, .. } => Some(anchor),
        _ => None,
    }
}

/// Whether `origin` has a base rooted at `variable`.
pub open spec fn rooted_at(origin: OriginView, variable: VariableId) -> bool {
    match origin_base(origin) {
        Some(base) => base.0 == variable,
        None => false,
    }
}

/// Whether `origin`, rooted at `variable`, is the origin of an alternative of the recorded value
/// of another variable `candidate`: `candidate` aliases storage of `variable`.
pub open spec fn is_alias<P>(state: FlowView<P>, variable: VariableId, candidate: VariableId, origin: OriginView) -> bool {
    &&& candidate != variable
    &&& state.0.0.contains_key(candidate)
    &&& rooted_at(origin, variable)
    &&& exists|i: int| 0 <= i < state.0.0[candidate].len() && (#[trigger] state.0.0[candidate][i]).0 == origin
}

/// Whether `base` is the base of an alias of `variable`.
pub open spec fn is_alias_base<P>(state: FlowView<P>, variable: VariableId, base: PlaceView) -> bool {
    exists|candidate: VariableId, origin: OriginView|
        #[trigger] is_alias(state, variable, candidate, origin) && origin_base(origin) == Some(base)
}

/// Whether some variable aliases storage of `variable`.
pub open spec fn has_alias<P>(state: FlowView<P>, variable: VariableId) -> bool {
    exists|candidate: VariableId, origin: OriginView| #[trigger] is_alias(state, variable, candidate, origin)
}

/// Whether `prefix` is a shorter prefix of `projection`.
pub open spec fn is_proper_prefix(prefix: Seq<ProjectionElem>, projection: Seq<ProjectionElem>) -> bool {
    prefix.len() < projection.len() && prefix.is_prefix_of(projection)
}

/// Whether `base` is an alias base with no alias base above it: the root of a subtree that
/// moves to an alias when `variable` is rebound.
pub open spec fn is_detach_source<P>(state: FlowView<P>, variable: VariableId, base: PlaceView) -> bool {
    &&& is_alias_base(state, variable, base)
    &&& forall|other: PlaceView| #[trigger] is_alias_base(state, variable, other) ==> !is_proper_prefix(other.1, base.1)
}

/// Whether `target` is the alias with the smallest index among those based at `source`.
pub open spec fn is_detach_target<P>(state: FlowView<P>, variable: VariableId, source: PlaceView, target: VariableId) -> bool {
    &&& exists|origin: OriginView| #[trigger] is_alias(state, variable, target, origin) && origin_base(origin) == Some(source)
    &&& forall|candidate: VariableId, origin: OriginView|
        #[trigger] is_alias(state, variable, candidate, origin) && origin_base(origin) == Some(source) ==> target.0 <= candidate.0
}

/// The alias that a subtree based at `source` moves to.
pub open spec fn detach_target<P>(state: FlowView<P>, variable: VariableId, source: PlaceView) -> VariableId {
    choose|target: VariableId| is_detach_target(state, variable, source, target)
}

/// Whether `place` lies at or below a detach source.
pub open spec fn has_source<P>(state: FlowView<P>, variable: VariableId, place: PlaceView) -> bool {
    exists|source: PlaceView|
        #[trigger] is_detach_source(state, variable, source) && source.0 == place.0 && source.1.is_prefix_of(place.1)
}

/// The detach source at or above `place`.
pub open spec fn source_of<P>(state: FlowView<P>, variable: VariableId, place: PlaceView) -> PlaceView {
    choose|source: PlaceView| is_detach_source(state, variable, source) && source.0 == place.0 && source.1.is_prefix_of(place.1)
}

/// Where `place` moves: the root of its source's target, followed by the projections of `place`
/// below its source.
pub open spec fn moved_anchor<P>(state: FlowView<P>, variable: VariableId, place: PlaceView) -> PlaceView {
    let source = source_of(state, variable, place);
    (detach_target(state, variable, source), place.1.subrange(source.1.len() as int, place.1.len() as int))
}

/// The origin an alias value takes when the root of its base is rebound: a place value with the
/// same identity and generation, anchored where its base moves.
pub open spec fn detached_origin<P>(state: FlowView<P>, variable: VariableId, origin: OriginView) -> OriginView {
    match origin {
        OriginView::Initial(root) => OriginView::Place {
            identity: (root, Seq::<ProjectionElem>::empty()),
            anchor: moved_anchor(state, variable, (root, Seq::<ProjectionElem>::empty())),
            generation: ValueGeneration::Initial(root),
        },
        OriginView::Opaque(root) => OriginView::Place {
            identity: (root, Seq::<ProjectionElem>::empty()),
            anchor: moved_anchor(state, variable, (root, Seq::<ProjectionElem>::empty())),
            generation: ValueGeneration::Opaque(root),
        },
        OriginView::Place { identity, anchor, generation } => OriginView::Place {
            identity,
            anchor: moved_anchor(state, variable, anchor),
            generation,
        },
        _ => origin,
    }
}

/// Whether some alternative of `values` is rooted at `variable`.
pub open spec fn aliases_root<P>(values: Seq<(OriginView, P)>, variable: VariableId) -> bool {
    exists|i: int| 0 <= i < values.len() && rooted_at(#[trigger] values[i].0, variable)
}

/// One alternative of an alias value after the root of its base is rebound: an alternative
/// rooted at `variable` takes its detached origin.
pub open spec fn rebound_alternative<P>(state: FlowView<P>, variable: VariableId, alternative: (OriginView, P)) -> (
    OriginView,
    P,
) {
    if rooted_at(alternative.0, variable) {
        (detached_origin(state, variable, alternative.0), alternative.1)
    } else {
        alternative
    }
}

/// The value of an alias after the root of its base is rebound: alternatives rooted at
/// `variable` take their detached origins; repeated alternatives are kept once.
pub open spec fn rebound_alias_value<P>(state: FlowView<P>, variable: VariableId, values: Seq<(OriginView, P)>) -> Seq<
    (OriginView, P),
> {
    join_values(
        Seq::<(OriginView, P)>::empty(),
        values.map_values(|alternative: (OriginView, P)| rebound_alternative(state, variable, alternative)),
    )
}

/// The variable values after `variable` is detached from its aliases.
pub open spec fn detached_values<P>(state: FlowView<P>, variable: VariableId) -> Map<VariableId, Seq<(OriginView, P)>> {
    Map::new(
        |candidate: VariableId| state.0.0.contains_key(candidate),
        |candidate: VariableId|
            if candidate != variable && aliases_root(state.0.0[candidate], variable) {
                rebound_alias_value(state, variable, state.0.0[candidate])
            } else {
                state.0.0[candidate]
            },
    )
}

/// The origin of a recorded place value after the rebind: a place value at or below a detach
/// source is anchored where it moves.
pub open spec fn remapped_origin<P>(state: FlowView<P>, variable: VariableId, origin: OriginView) -> OriginView {
    match origin {
        OriginView::Place { identity, anchor, generation } => if has_source(state, variable, anchor) {
            OriginView::Place { identity, anchor: moved_anchor(state, variable, anchor), generation }
        } else {
            origin
        },
        _ => origin,
    }
}

/// The recorded value of a moved place, with its origins remapped; repeated alternatives are
/// kept once.
pub open spec fn moved_place_values<P>(state: FlowView<P>, variable: VariableId, values: Seq<(OriginView, P)>) -> Seq<
    (OriginView, P),
> {
    join_values(
        Seq::<(OriginView, P)>::empty(),
        values.map_values(|alternative: (OriginView, P)| remapped_alternative(state, variable, alternative)),
    )
}

/// One alternative of a moved place value, with its origin remapped.
pub open spec fn remapped_alternative<P>(state: FlowView<P>, variable: VariableId, alternative: (OriginView, P)) -> (
    OriginView,
    P,
) {
    (remapped_origin(state, variable, alternative.0), alternative.1)
}

/// Whether a recorded place of `variable` moves to an alias: it lies strictly below a detach
/// source.
pub open spec fn moves<P>(state: FlowView<P>, variable: VariableId, place: PlaceView) -> bool {
    &&& place.0 == variable
    &&& has_source(state, variable, place)
    &&& source_of(state, variable, place).1.len() < place.1.len()
}

/// The recorded places after the places of `variable`, taken in `order`, are dropped, and
/// those that move are joined into their new places.
pub open spec fn detach_places<P>(state: FlowView<P>, variable: VariableId, order: Seq<PlaceView>) -> Map<
    PlaceView,
    Seq<(OriginView, P)>,
>
    decreases order.len(),
{
    if order.len() == 0 {
        without_root(state.1, variable)
    } else {
        let prior = detach_places(state, variable, order.drop_last());
        let place = order.last();
        if moves(state, variable, place) {
            let destination = moved_anchor(state, variable, place);
            let values = moved_place_values(state, variable, state.1[place]);
            if prior.contains_key(destination) {
                prior.insert(destination, join_values(prior[destination], values))
            } else {
                prior.insert(destination, values)
            }
        } else {
            prior
        }
    }
}

/// Whether `order` lists the recorded places rooted at `variable`, each once.
pub open spec fn lists_rooted<P>(places: Map<PlaceView, Seq<(OriginView, P)>>, variable: VariableId, order: Seq<PlaceView>) -> bool {
    &&& order.no_duplicates()
    &&& forall|key: PlaceView| #[trigger] order.contains(key) <==> (places.contains_key(key) && key.0 == variable)
}

/// Whether `new` is `old` after `variable` is detached from its aliases before it is rebound.
///
/// Without aliases nothing changes. Otherwise every alias value rooted at `variable` takes a
/// place origin anchored in an alias, so it no longer resolves through the rebound root, and the
/// recorded places of `variable` are dropped, those below a detach source moving to the alias
/// that anchors it. Places that move to the same place are joined in the order the places of
/// `variable` were recorded.
pub open spec fn detaches<P>(old: FlowView<P>, new: FlowView<P>, variable: VariableId) -> bool {
    if !has_alias(old, variable) {
        new == old
    } else {
        &&& new.0 == (detached_values(old, variable), old.0.1, old.0.2)
        &&& new.2 == old.2
        &&& new.3 == old.3
        &&& exists|order: Seq<PlaceView>|
            lists_rooted(old.1, variable, order) && new.1 == #[trigger] detach_places(old, variable, order)
    }
}

/// Whether binding `variable` to `value` keeps its identity: it already holds that value and
/// every alternative is a unique dynamic value.
pub open spec fn keeps_binding<P>(state: FlowView<P>, variable: VariableId, value: Seq<(OriginView, P)>) -> bool {
    &&& variable_value(state.0, variable) == value
    &&& forall|i: int| 0 <= i < value.len() ==> origin_is_correlatable(state.3.1, #[trigger] value[i].0)
}

/// Whether `new` is `old` after `variable` is bound to `value`.
///
/// When the binding keeps its identity only the value is set. Otherwise the aliases of
/// `variable` are first detached, then its recorded places are dropped and the value is set.
pub open spec fn binds<P>(old: FlowView<P>, new: FlowView<P>, variable: VariableId, value: Seq<(OriginView, P)>) -> bool {
    if keeps_binding(old, variable, value) {
        new == ((old.0.0.insert(variable, value), old.0.1, old.0.2), old.1, old.2, old.3)
    } else {
        exists|mid: FlowView<P>|
            #[trigger] detaches(old, mid, variable) && new == (
                (mid.0.0.insert(variable, value), mid.0.1, mid.0.2),
                without_root(mid.1, variable),
                mid.2,
                mid.3,
            )
    }
}

/// `places` without the places that may overlap `place`.
pub open spec fn without_overlap<P>(places: Map<PlaceView, Seq<(OriginView, P)>>, place: PlaceView) -> Map<
    PlaceView,
    Seq<(OriginView, P)>,
> {
    Map::new(
        |key: PlaceView| places.contains_key(key) && !spec_may_overlap(key.0, key.1, place.0, place.1),
        |key: PlaceView| places[key],
    )
}

/// The recorded places after `value` is stored at each of `places` in turn: overlapping places
/// are dropped first. With several canonical places, each keeps what it held joined with
/// `value`, since only one of them is the runtime target.
pub open spec fn store_places<P>(state: FlowView<P>, places: Seq<PlaceView>, value: Seq<(OriginView, P)>, count: nat) -> Map<
    PlaceView,
    Seq<(OriginView, P)>,
>
    decreases places.len(),
{
    if places.len() == 0 {
        state.1
    } else {
        let prior = store_places(state, places.drop_last(), value, count);
        let place = places.last();
        let stored = if count == 1 {
            value
        } else {
            join_values(place_value_of((state.0, prior, state.2, state.3), place), value)
        };
        without_overlap(prior, place).insert(place, stored)
    }
}

/// Whether `new` is `old` after `value` is stored at `place`.
///
/// A projected place is stored through its canonical places. Without any, the root variable is
/// reset to an opaque value with the property of the first alternative of `value`, if it has
/// one. A whole variable is bound to `value`.
pub open spec fn stores<P>(old: FlowView<P>, new: FlowView<P>, place: PlaceView, value: Seq<(OriginView, P)>) -> bool {
    let canonical = canonical_places_of(old, place);
    if canonical.len() == 0 {
        if value.len() > 0 {
            binds(old, new, place.0, seq![(OriginView::Opaque(place.0), value[0].1)])
        } else {
            new == old
        }
    } else if place.1.len() > 0 {
        new == (old.0, store_places(old, canonical, value, canonical.len()), old.2, old.3)
    } else {
        binds(old, new, place.0, value)
    }
}

/// The origin a value takes when it is stored in the memory variable whose place is `target`:
/// a computed value or a call result becomes a value of that place, in the generation of its
/// origin.
pub open spec fn memory_origin(origin: OriginView, target: PlaceView) -> OriginView {
    match origin {
        OriginView::Expr(_) => OriginView::Place { identity: target, anchor: target, generation: generation_of(origin) },
        OriginView::CallResult(..) => OriginView::Place {
            identity: target,
            anchor: target,
            generation: generation_of(origin),
        },
        _ => origin,
    }
}

/// One alternative stored in the memory variable whose place is `target`.
pub open spec fn memory_alternative<P>(alternative: (OriginView, P), target: PlaceView) -> (OriginView, P) {
    (memory_origin(alternative.0, target), alternative.1)
}

/// The value bound to `variable`: in memory, computed values and call results become values of
/// the variable's place; repeated alternatives are kept once.
pub open spec fn stored_value<P>(values: Seq<(OriginView, P)>, variable: VariableId, in_memory: bool) -> Seq<(OriginView, P)> {
    if in_memory {
        join_values(
            Seq::<(OriginView, P)>::empty(),
            values.map_values(
                |alternative: (OriginView, P)| memory_alternative(alternative, (variable, Seq::<ProjectionElem>::empty())),
            ),
        )
    } else {
        values
    }
}

/// `values` with every alternative given `origin`; repeated alternatives are kept once.
pub open spec fn with_origin_of<P>(values: Seq<(OriginView, P)>, origin: OriginView) -> Seq<(OriginView, P)> {
    join_values(
        Seq::<(OriginView, P)>::empty(),
        values.map_values(|alternative: (OriginView, P)| (origin, alternative.1)),
    )
}

/// Whether `order` lists the recorded places, each once.
pub open spec fn lists_all<P>(places: Map<PlaceView, Seq<(OriginView, P)>>, order: Seq<PlaceView>) -> bool {
    &&& order.no_duplicates()
    &&& forall|key: PlaceView| #[trigger] order.contains(key) <==> places.contains_key(key)
}

/// The places copied into `target` from the recorded places strictly below `source`, taken in
/// `order` and joined into `copied`: each keeps its projections below `source` and takes the
/// place origin of its copy in `generation`.
pub open spec fn copy_from_source<P>(
    state: FlowView<P>,
    target: VariableId,
    generation: ValueGeneration,
    source: PlaceView,
    order: Seq<PlaceView>,
    copied: Map<PlaceView, Seq<(OriginView, P)>>,
) -> Map<PlaceView, Seq<(OriginView, P)>>
    decreases order.len(),
{
    if order.len() == 0 {
        copied
    } else {
        let prior = copy_from_source(state, target, generation, source, order.drop_last(), copied);
        let place = order.last();
        if place.0 == source.0 && is_proper_prefix(source.1, place.1) {
            let destination = (target, place.1.subrange(source.1.len() as int, place.1.len() as int));
            let values = with_origin_of(
                state.1[place],
                OriginView::Place { identity: destination, anchor: destination, generation },
            );
            if prior.contains_key(destination) {
                prior.insert(destination, join_values(prior[destination], values))
            } else {
                prior.insert(destination, values)
            }
        } else {
            prior
        }
    }
}

/// The places copied into `target` from below each of `sources` in turn.
pub open spec fn copy_from_sources<P>(
    state: FlowView<P>,
    target: VariableId,
    generation: ValueGeneration,
    sources: Seq<PlaceView>,
    order: Seq<PlaceView>,
) -> Map<PlaceView, Seq<(OriginView, P)>>
    decreases sources.len(),
{
    if sources.len() == 0 {
        Map::empty()
    } else {
        copy_from_source(
            state,
            target,
            generation,
            sources.last(),
            order,
            copy_from_sources(state, target, generation, sources.drop_last(), order),
        )
    }
}

/// Whether `new` is `old` after the memory variable `variable` receives a deep copy of `values`
/// read from the expression `source`, which denotes `source_place` when it is a place.
///
/// The variable becomes a fresh aggregate of generation `source`, and every recorded place below
/// the canonical places of `source_place` is copied below the variable. The recorded places are
/// read in `order`.
pub open spec fn deep_copies<P>(
    old: FlowView<P>,
    new: FlowView<P>,
    variable: VariableId,
    source: ExprId,
    source_place: Option<PlaceView>,
    values: Seq<(OriginView, P)>,
) -> bool {
    let target = (variable, Seq::<ProjectionElem>::empty());
    let generation = ValueGeneration::Expr(source);
    exists|order: Seq<PlaceView>, mid: FlowView<P>|
        #![trigger lists_all(old.1, order), binds(old, mid, variable, with_origin_of(values, OriginView::Place { identity: target, anchor: target, generation }))]
        lists_all(old.1, order) && binds(
            old,
            mid,
            variable,
            with_origin_of(values, OriginView::Place { identity: target, anchor: target, generation }),
        ) && new == (
            mid.0,
            mid.1.union_prefer_right(
                match source_place {
                    Some(place) => copy_from_sources(old, variable, generation, canonical_places_of(old, place), order),
                    None => Map::empty(),
                },
            ),
            mid.2,
            mid.3,
        )
}

/// The value argument `index` of a `try` clause is bound to: on success, the call's output at
/// `index` when it is summarized; otherwise an opaque value of the argument with `property`.
pub open spec fn try_binding<P>(
    state: FlowView<P>,
    try_call: ExprId,
    args: Seq<VariableId>,
    is_success: bool,
    property: P,
    index: int,
) -> Seq<(OriginView, P)> {
    if is_success && state.2.contains_key(try_call) && index < state.2[try_call].len() {
        state.2[try_call][index]
    } else {
        seq![(OriginView::Opaque(args[index]), property)]
    }
}

/// Whether `new` is `old` after each of `variables` is bound, in order, to its value in `values`.
pub open spec fn binds_each<P>(
    old: FlowView<P>,
    new: FlowView<P>,
    variables: Seq<VariableId>,
    values: Seq<Seq<(OriginView, P)>>,
) -> bool
    decreases variables.len(),
{
    if variables.len() == 0 {
        new == old
    } else {
        exists|mid: FlowView<P>|
            binds_each(old, mid, variables.drop_last(), values.drop_last()) && #[trigger] binds(
                mid,
                new,
                variables.last(),
                values.last(),
            )
    }
}

/// The variable values after the values of `variables` are restored from `caller`: each takes
/// its value there, or none.
pub open spec fn restored_values<P>(
    values: Map<VariableId, Seq<(OriginView, P)>>,
    caller: Map<VariableId, Seq<(OriginView, P)>>,
    variables: Seq<VariableId>,
) -> Map<VariableId, Seq<(OriginView, P)>> {
    Map::new(
        |variable: VariableId|
            if variables.contains(variable) {
                caller.contains_key(variable)
            } else {
                values.contains_key(variable)
            },
        |variable: VariableId|
            if variables.contains(variable) {
                caller[variable]
            } else {
                values[variable]
            },
    )
}

/// The recorded places after those rooted at `variables` are restored from `caller`.
pub open spec fn restored_places<P>(
    places: Map<PlaceView, Seq<(OriginView, P)>>,
    caller: Map<PlaceView, Seq<(OriginView, P)>>,
    variables: Seq<VariableId>,
) -> Map<PlaceView, Seq<(OriginView, P)>> {
    Map::new(
        |key: PlaceView|
            if variables.contains(key.0) {
                caller.contains_key(key)
            } else {
                places.contains_key(key)
            },
        |key: PlaceView|
            if variables.contains(key.0) {
                caller[key]
            } else {
                places[key]
            },
    )
}

/// Whether a value with `origin` belongs to an activation whose variables are `variables`: it is
/// based at one of them, or it was computed.
pub open spec fn is_activation_local(origin: OriginView, variables: Seq<VariableId>) -> bool {
    match origin {
        OriginView::Initial(variable) => variables.contains(variable),
        OriginView::Opaque(variable) => variables.contains(variable),
        OriginView::Place { anchor, .. } => variables.contains(anchor.0),
        _ => true,
    }
}

/// One alternative of a returned memory value: a value of the activation becomes output `index`
/// of `call`.
pub open spec fn returned_alternative<P>(
    alternative: (OriginView, P),
    call: ExprId,
    index: usize,
    variables: Seq<VariableId>,
) -> (OriginView, P) {
    if is_activation_local(alternative.0, variables) {
        (OriginView::CallResult(call, index), alternative.1)
    } else {
        alternative
    }
}

/// Output `index` of `call`: the value of the return variable `ret.0`; for a memory return
/// (`ret.1`), with values of the activation turned into outputs of the call.
pub open spec fn returned_value<P>(
    state: FlowView<P>,
    call: ExprId,
    index: usize,
    ret: (VariableId, bool),
    variables: Seq<VariableId>,
) -> Seq<(OriginView, P)> {
    if ret.1 {
        join_values(
            Seq::<(OriginView, P)>::empty(),
            variable_value(state.0, ret.0).map_values(
                |alternative: (OriginView, P)| returned_alternative(alternative, call, index, variables),
            ),
        )
    } else {
        variable_value(state.0, ret.0)
    }
}

/// Whether `root` is a root of what reading `place` observes: a base of the value of a whole
/// variable, or a canonical place of a projected place.
pub open spec fn is_read_root<P>(state: FlowView<P>, place: PlaceView, root: PlaceView) -> bool {
    if place.1.len() == 0 {
        exists|i: int|
            0 <= i < place_value_of(state, place).len() && origin_base(#[trigger] place_value_of(state, place)[i].0) == Some(
                root,
            )
    } else {
        canonical_places_of(state, place).contains(root)
    }
}

/// Whether `candidate` lies strictly below `root`.
pub open spec fn is_strictly_below(candidate: PlaceView, root: PlaceView) -> bool {
    candidate.0 == root.0 && root.1.is_prefix_of(candidate.1) && candidate != root
}

/// Whether reading `place` observes the recorded place `candidate`.
pub open spec fn read_below<P>(state: FlowView<P>, place: PlaceView, candidate: PlaceView) -> bool {
    exists|root: PlaceView| #[trigger] is_read_root(state, place, root) && is_strictly_below(candidate, root)
}

/// The value observed by reading `place`: its own value joined with the recorded values of the
/// places below its roots, taken in `order`.
pub open spec fn read_values<P>(state: FlowView<P>, place: PlaceView, order: Seq<PlaceView>) -> Seq<(OriginView, P)>
    decreases order.len(),
{
    if order.len() == 0 {
        place_value_of(state, place)
    } else {
        let prior = read_values(state, place, order.drop_last());
        let candidate = order.last();
        if read_below(state, place, candidate) {
            join_values(prior, state.1[candidate])
        } else {
            prior
        }
    }
}

/// Whether `new` holds the recorded places of `old` with those that definitely alias `source`
/// refined by `update`.
pub open spec fn refines_place_aliases<P, F: Fn(&P) -> P>(
    old: Map<PlaceView, Seq<(OriginView, P)>>,
    new: Map<PlaceView, Seq<(OriginView, P)>>,
    source: OriginView,
    update: F,
) -> bool {
    &&& new.dom() == old.dom()
    &&& forall|key: PlaceView| #[trigger] old.contains_key(key) ==> if is_definite_alias_of(old[key], source) {
        refined_by(old[key], new[key], source_selection(old[key], source), update)
    } else {
        new[key] == old[key]
    }
}

/// Whether `origins` has a source that refinements propagate through: the common source of its
/// alternatives, a variable's initial value or a place value, that is a unique dynamic value.
pub open spec fn refinable_source<P>(state: FlowView<P>, origins: Seq<(OriginView, P)>) -> bool {
    let source = common_source_of(origins);
    source is Some && (source->0 is Initial || source->0 is Place) && origin_is_correlatable(state.3.1, source->0)
}

/// Whether `new` is `old` after its definite aliases of the refinable source of `origins` are
/// refined by `update`: variables and recorded places.
pub open spec fn refines_aliases_of<P, F: Fn(&P) -> P>(
    old: FlowView<P>,
    new: FlowView<P>,
    origins: Seq<(OriginView, P)>,
    update: F,
) -> bool {
    &&& refines_definite_aliases(old.0, new.0, origins, update)
    &&& refines_place_aliases(old.1, new.1, common_source_of(origins)->0, update)
    &&& new.2 == old.2
    &&& new.3 == old.3
}

/// Whether `new` is `old` after the value of `variable`, whose alternatives are `origins`, is
/// refined by `update`.
///
/// Without a refinable source only the variable's own alternatives are refined. Otherwise every
/// definite alias is refined, and a place source that has no recorded definite alias stores
/// the refined source alternatives.
pub open spec fn refines_variable<P, F: Fn(&P) -> P>(
    old: FlowView<P>,
    new: FlowView<P>,
    variable: VariableId,
    origins: Seq<(OriginView, P)>,
    update: F,
) -> bool {
    if !refinable_source(old, origins) {
        exists|refined: Seq<(OriginView, P)>|
            #[trigger] refined_by(
                variable_value(old.0, variable),
                refined,
                all_selected(variable_value(old.0, variable).len()),
                update,
            ) && new == ((old.0.0.insert(variable, refined), old.0.1, old.0.2), old.1, old.2, old.3)
    } else {
        let source = common_source_of(origins)->0;
        exists|mid: FlowView<P>|
            #[trigger] refines_aliases_of(old, mid, origins, update) && match common_origin_of(origins) {
                Some(OriginView::Place { anchor, .. }) => if old.1.contains_key(anchor) && is_definite_alias_of(
                    old.1[anchor],
                    source,
                ) {
                    new == mid
                } else {
                    exists|refined: Seq<(OriginView, P)>|
                        #[trigger] refined_by(origins, refined, source_selection(origins, source), update) && stores(
                            mid,
                            new,
                            anchor,
                            refined,
                        )
                },
                _ => new == mid,
            }
    }
}

/// Whether `new` is `old` after the value at the canonical place `place`, whose alternatives are
/// `origins`, is refined by `update`.
///
/// Without a refinable source the place stores its refined alternatives. Otherwise every
/// definite alias is refined, and the place stores the refined source alternatives unless it is
/// a recorded definite alias itself.
pub open spec fn refines_projected<P, F: Fn(&P) -> P>(
    old: FlowView<P>,
    new: FlowView<P>,
    place: PlaceView,
    origins: Seq<(OriginView, P)>,
    update: F,
) -> bool {
    if !refinable_source(old, origins) {
        exists|refined: Seq<(OriginView, P)>|
            #[trigger] refined_by(origins, refined, all_selected(origins.len()), update) && stores(
                old,
                new,
                place,
                refined,
            )
    } else {
        let source = common_source_of(origins)->0;
        exists|mid: FlowView<P>|
            #[trigger] refines_aliases_of(old, mid, origins, update) && if old.1.contains_key(place) && is_definite_alias_of(
                old.1[place],
                source,
            ) {
                new == mid
            } else {
                exists|refined: Seq<(OriginView, P)>|
                    #[trigger] refined_by(origins, refined, source_selection(origins, source), update) && stores(
                        mid,
                        new,
                        place,
                        refined,
                    )
            }
    }
}

/// Whether every value of `new` is the value of `old` at the same key with its alternatives that
/// are correlated with `source` refined by `update`.
pub open spec fn refines_correlated_values<K, P, F: Fn(&P) -> P>(
    old: Map<K, Seq<(OriginView, P)>>,
    new: Map<K, Seq<(OriginView, P)>>,
    source: OriginView,
    repeated: Set<ExprId>,
    update: F,
) -> bool {
    &&& new.dom() == old.dom()
    &&& forall|key: K|
        #[trigger] old.contains_key(key) ==> refined_by(
            old[key],
            new[key],
            correlated_selection(old[key], source, repeated),
            update,
        )
}

/// Whether every call output of `new` is that of `old` with its alternatives that are correlated
/// with `source` refined by `update`.
pub open spec fn refines_correlated_outputs<P, F: Fn(&P) -> P>(
    old: Map<ExprId, Seq<Seq<(OriginView, P)>>>,
    new: Map<ExprId, Seq<Seq<(OriginView, P)>>>,
    source: OriginView,
    repeated: Set<ExprId>,
    update: F,
) -> bool {
    &&& new.dom() == old.dom()
    &&& forall|call: ExprId|
        #[trigger] old.contains_key(call) ==> new[call].len() == old[call].len() && forall|i: int|
            0 <= i < old[call].len() ==> refined_by(
                old[call][i],
                #[trigger] new[call][i],
                correlated_selection(old[call][i], source, repeated),
                update,
            )
}

/// Whether `new` is `old` after a computed value, whose alternatives are `origins`, is refined by
/// `update`.
///
/// When its alternatives share a source that is a unique dynamic value, every variable value,
/// recorded place value and call output refines its alternatives correlated with that source.
/// A refined call records its refined value as its single output.
pub open spec fn refines_value<P, F: Fn(&P) -> P>(
    old: FlowView<P>,
    new: FlowView<P>,
    call: Option<ExprId>,
    origins: Seq<(OriginView, P)>,
    update: F,
) -> bool {
    exists|refined: Seq<(OriginView, P)>, outputs: Map<ExprId, Seq<Seq<(OriginView, P)>>>|
        #[trigger] refines_value_through(old, new, call, origins, update, refined, outputs)
}

/// Whether `new` is `old` after a computed value, whose alternatives are `origins`, is refined by
/// `update`, the value refining to `refined` and the call outputs to `outputs` before `call`
/// records its output.
pub open spec fn refines_value_through<P, F: Fn(&P) -> P>(
    old: FlowView<P>,
    new: FlowView<P>,
    call: Option<ExprId>,
    origins: Seq<(OriginView, P)>,
    update: F,
    refined: Seq<(OriginView, P)>,
    outputs: Map<ExprId, Seq<Seq<(OriginView, P)>>>,
) -> bool {
    let source = common_source_of(origins);
    &&& refined_by(origins, refined, all_selected(origins.len()), update)
    &&& if source is Some && origin_is_correlatable(old.3.1, source->0) {
        &&& refines_correlated_values(old.0.0, new.0.0, source->0, old.3.1, update)
        &&& new.0.1 == old.0.1
        &&& new.0.2 == old.0.2
        &&& refines_correlated_values(old.1, new.1, source->0, old.3.1, update)
        &&& refines_correlated_outputs(old.2, outputs, source->0, old.3.1, update)
    } else {
        new.0 == old.0 && new.1 == old.1 && outputs == old.2
    }
    &&& new.2 == match call {
        Some(site) => outputs.insert(site, seq![refined]),
        None => outputs,
    }
    &&& new.3 == old.3
}

/// A prefix of a prefix is a prefix.
pub proof fn lemma_prefix_transitive(a: Seq<ProjectionElem>, b: Seq<ProjectionElem>, c: Seq<ProjectionElem>)
    requires
        a.is_prefix_of(b),
        b.is_prefix_of(c),
    ensures
        a.is_prefix_of(c),
{
    assert forall|i: int| 0 <= i < a.len() implies a[i] == c[i] by {
        assert(a[i] == b.subrange(0, a.len() as int)[i]);
        assert(b[i] == c.subrange(0, b.len() as int)[i]);
    }
    assert(a =~= c.subrange(0, a.len() as int));
}

/// Two prefixes of one sequence are prefixes of each other, the shorter of the longer.
pub proof fn lemma_prefixes_nested(a: Seq<ProjectionElem>, b: Seq<ProjectionElem>, c: Seq<ProjectionElem>)
    requires
        a.is_prefix_of(c),
        b.is_prefix_of(c),
        a.len() <= b.len(),
    ensures
        a.is_prefix_of(b),
{
    assert forall|i: int| 0 <= i < a.len() implies a[i] == b[i] by {
        assert(a[i] == c.subrange(0, a.len() as int)[i]);
        assert(b[i] == c.subrange(0, b.len() as int)[i]);
    }
    assert(a =~= b.subrange(0, a.len() as int));
}

/// Every alias base lies at or below a detach source.
pub proof fn lemma_alias_base_has_source<P>(state: FlowView<P>, variable: VariableId, base: PlaceView)
    requires
        is_alias_base(state, variable, base),
    ensures
        has_source(state, variable, base),
    decreases base.1.len(),
{
    if is_detach_source(state, variable, base) {
        assert(base.1.is_prefix_of(base.1)) by {
            assert(base.1 =~= base.1.subrange(0, base.1.len() as int));
        }
        assert(is_detach_source(state, variable, base) && base.0 == base.0 && base.1.is_prefix_of(base.1));
    } else {
        let other = choose|other: PlaceView| #[trigger] is_alias_base(state, variable, other) && is_proper_prefix(other.1, base.1);
        lemma_alias_base_has_source(state, variable, other);
        let source = choose|source: PlaceView|
            #[trigger] is_detach_source(state, variable, source) && source.0 == other.0 && source.1.is_prefix_of(other.1);
        lemma_prefix_transitive(source.1, other.1, base.1);
        let (c1, o1) = choose|candidate: VariableId, origin: OriginView|
            #[trigger] is_alias(state, variable, candidate, origin) && origin_base(origin) == Some(other);
        let (c2, o2) = choose|candidate: VariableId, origin: OriginView|
            #[trigger] is_alias(state, variable, candidate, origin) && origin_base(origin) == Some(base);
        assert(other.0 == variable && base.0 == variable);
        assert(is_detach_source(state, variable, source) && source.0 == base.0 && source.1.is_prefix_of(base.1));
    }
}

/// Two detach sources at or above one place are the same.
pub proof fn lemma_source_unique<P>(state: FlowView<P>, variable: VariableId, place: PlaceView, source: PlaceView)
    requires
        is_detach_source(state, variable, source),
        source.0 == place.0,
        source.1.is_prefix_of(place.1),
    ensures
        has_source(state, variable, place),
        source_of(state, variable, place) == source,
{
    assert(is_detach_source(state, variable, source) && source.0 == place.0 && source.1.is_prefix_of(place.1));
    let other = source_of(state, variable, place);
    if other.1.len() < source.1.len() {
        lemma_prefixes_nested(other.1, source.1, place.1);
        assert(is_proper_prefix(other.1, source.1));
        assert(false);
    } else if source.1.len() < other.1.len() {
        lemma_prefixes_nested(source.1, other.1, place.1);
        assert(is_proper_prefix(source.1, other.1));
        assert(false);
    } else {
        lemma_prefixes_nested(source.1, other.1, place.1);
        assert(source.1 =~= other.1);
    }
}

/// The alias with the smallest index among those based at a source is its target.
pub proof fn lemma_target_unique<P>(state: FlowView<P>, variable: VariableId, source: PlaceView, target: VariableId)
    requires
        is_detach_target(state, variable, source, target),
    ensures
        detach_target(state, variable, source) == target,
{
    let chosen = detach_target(state, variable, source);
    assert(is_detach_target(state, variable, source, chosen));
    let o1 = choose|origin: OriginView| #[trigger] is_alias(state, variable, target, origin) && origin_base(origin) == Some(source);
    let o2 = choose|origin: OriginView| #[trigger] is_alias(state, variable, chosen, origin) && origin_base(origin) == Some(source);
    assert(chosen.0 <= target.0);
    assert(target.0 <= chosen.0);
}

/// Recorded values of projected places, kept in the order the places were first stored.
#[derive(Debug)]
struct PlaceValues<P> {
    entries: Vec<(Place, ValueSet<P>)>,
}

impl<P> View for PlaceValues<P> {
    type V = Map<PlaceView, Seq<(OriginView, P)>>;

    closed spec fn view(&self) -> Map<PlaceView, Seq<(OriginView, P)>> {
        keyed_view(place_entries(self.entries@))
    }
}

impl<P> PlaceValues<P> {
    #[verifier::type_invariant]
    spec fn distinct_places(self) -> bool {
        unique_keys(place_entries(self.entries@))
    }

    /// The stored places, in order.
    spec fn order(&self) -> Seq<PlaceView> {
        entry_keys(place_entries(self.entries@))
    }
}

/// Selecting the entries whose key satisfies `keep` restricts the map to those keys.
proof fn lemma_selected_entries<P>(
    all: Seq<(PlaceView, ValueSet<P>)>,
    flags: Seq<bool>,
    keep: spec_fn(PlaceView) -> bool,
)
    requires
        unique_keys(all),
        flags.len() == all.len(),
        forall|i: int| 0 <= i < flags.len() ==> flags[i] == keep(#[trigger] all[i].0),
    ensures
        Map::new(
            |key: PlaceView| exists|i: int| 0 <= i < flags.len() && flags[i] && #[trigger] all[i].0 == key,
            |key: PlaceView| keyed_view(all)[key],
        ) == Map::new(
            |key: PlaceView| keyed_view(all).contains_key(key) && keep(key),
            |key: PlaceView| keyed_view(all)[key],
        ),
{
    let lhs = Map::new(
        |key: PlaceView| exists|i: int| 0 <= i < flags.len() && flags[i] && #[trigger] all[i].0 == key,
        |key: PlaceView| keyed_view(all)[key],
    );
    let rhs = Map::new(
        |key: PlaceView| keyed_view(all).contains_key(key) && keep(key),
        |key: PlaceView| keyed_view(all)[key],
    );
    assert forall|key: PlaceView| #[trigger] lhs.contains_key(key) == rhs.contains_key(key) by {
        if lhs.contains_key(key) {
            let i = choose|i: int| 0 <= i < flags.len() && flags[i] && #[trigger] all[i].0 == key;
            lemma_keyed_view_at(all, i);
        }
        if rhs.contains_key(key) {
            let i = choose|i: int| 0 <= i < all.len() && #[trigger] all[i].0 == key;
            assert(flags[i]);
        }
    }
    assert(lhs =~= rhs);
}

impl<P: ValueProperty> PlaceValues<P> {
    /// Creates a map with no recorded place.
    fn new() -> (map: Self)
        ensures
            map@ == Map::<PlaceView, Seq<(OriginView, P)>>::empty(),
    {
        let map = PlaceValues { entries: Vec::new() };
        proof {
            assert(place_entries(map.entries@) =~= Seq::<(PlaceView, ValueSet<P>)>::empty());
            assert(map@ =~= Map::<PlaceView, Seq<(OriginView, P)>>::empty());
        }
        map
    }

    /// Returns the number of recorded places.
    fn len(&self) -> (len: usize)
        ensures
            len == self.order().len(),
    {
        self.entries.len()
    }

    /// Returns the place of entry `index`.
    fn place_at(&self, index: usize) -> (place: &Place)
        requires
            index < self.order().len(),
        ensures
            place@ == self.order()[index as int],
            self@.contains_key(place@),
    {
        proof {
            use_type_invariant(self);
            lemma_keyed_view_at(place_entries(self.entries@), index as int);
        }
        &self.entries[index].0
    }

    /// Returns the values of entry `index`.
    fn values_at(&self, index: usize) -> (values: &ValueSet<P>)
        requires
            index < self.order().len(),
        ensures
            self@.contains_key(self.order()[index as int]),
            values@ == self@[self.order()[index as int]],
    {
        proof {
            use_type_invariant(self);
            lemma_keyed_view_at(place_entries(self.entries@), index as int);
        }
        &self.entries[index].1
    }

    /// Returns the position of the entry of `place`, if any.
    fn find(&self, place: &Place) -> (index: Option<usize>)
        ensures
            match index {
                Some(i) => i < self.order().len() && self.order()[i as int] == place@,
                None => !self@.contains_key(place@),
            },
    {
        let mut i: usize = 0;
        while i < self.entries.len()
            invariant
                0 <= i <= self.entries@.len(),
                forall|k: int| 0 <= k < i ==> self.entries@[k].0@ != place@,
            decreases self.entries@.len() - i,
        {
            if self.entries[i].0.same_place(place) {
                return Some(i);
            }
            i += 1;
        }
        proof {
            let all = place_entries(self.entries@);
            if has_key(all, place@) {
                let k = choose|k: int| 0 <= k < all.len() && #[trigger] all[k].0 == place@;
                assert(self.entries@[k].0@ == place@);
            }
        }
        None
    }

    /// Returns the recorded value of `place`, if any.
    fn get(&self, place: &Place) -> (values: Option<&ValueSet<P>>)
        ensures
            values is Some <==> self@.contains_key(place@),
            values is Some ==> values->0@ == self@[place@],
    {
        match self.find(place) {
            Some(i) => Some(self.values_at(i)),
            None => None,
        }
    }

    /// Sets the recorded value of `place`.
    fn insert(&mut self, place: Place, values: ValueSet<P>)
        ensures
            final(self)@ == old(self)@.insert(place@, values@),
    {
        proof {
            use_type_invariant(&*self);
        }
        let found = self.find(&place);
        let ghost entry = (place@, values);
        let mut entries = Vec::new();
        std::mem::swap(&mut entries, &mut self.entries);
        let ghost before = entries@;
        match found {
            Some(i) => {
                entries.set(i, (place, values));
                proof {
                    assert(place_entries(entries@) =~= place_entries(before).update(i as int, entry));
                    lemma_keyed_view_set(place_entries(before), i as int, entry);
                }
            },
            None => {
                entries.push((place, values));
                proof {
                    assert(place_entries(entries@) =~= place_entries(before).push(entry));
                    lemma_keyed_view_push(place_entries(before), entry);
                }
            },
        }
        self.entries = entries;
    }

    /// Copies the entries whose flag is set, in order.
    fn selected(&self, flags: &[bool]) -> (kept: Vec<(Place, ValueSet<P>)>)
        requires
            flags@.len() == self.order().len(),
        ensures
            unique_keys(place_entries(kept@)),
            keyed_view(place_entries(kept@)) == Map::new(
                |key: PlaceView| exists|i: int| 0 <= i < flags@.len() && flags@[i] && #[trigger] place_entries(self.entries@)[i].0 == key,
                |key: PlaceView| self@[key],
            ),
    {
        proof {
            use_type_invariant(self);
        }
        let ghost all = place_entries(self.entries@);
        let ghost whole = self@;
        let mut kept: Vec<(Place, ValueSet<P>)> = Vec::new();
        let mut i: usize = 0;
        proof {
            assert(place_entries(kept@) =~= Seq::<(PlaceView, ValueSet<P>)>::empty());
            assert(keyed_view(place_entries(kept@)) =~= Map::new(
                |key: PlaceView| exists|j: int| 0 <= j < 0 && flags@[j] && #[trigger] all[j].0 == key,
                |key: PlaceView| whole[key],
            ));
        }
        while i < self.entries.len()
            invariant
                0 <= i <= self.entries@.len(),
                flags@.len() == self.entries@.len(),
                all == place_entries(self.entries@),
                whole == keyed_view(all),
                unique_keys(all),
                unique_keys(place_entries(kept@)),
                keyed_view(place_entries(kept@)) == Map::new(
                    |key: PlaceView| exists|j: int| 0 <= j < i && flags@[j] && #[trigger] all[j].0 == key,
                    |key: PlaceView| whole[key],
                ),
            decreases self.entries@.len() - i,
        {
            let ghost before = place_entries(kept@);
            if flags[i] {
                let place = self.entries[i].0.duplicate();
                let values = self.entries[i].1.duplicate();
                let ghost entry = (place@, values);
                proof {
                    if has_key(before, all[i as int].0) {
                        assert(keyed_view(before).contains_key(all[i as int].0));
                        let j = choose|j: int| 0 <= j < i && flags@[j] && #[trigger] all[j].0 == all[i as int].0;
                        assert(false);
                    }
                    lemma_keyed_view_at(all, i as int);
                }
                kept.push((place, values));
                proof {
                    assert(place_entries(kept@) =~= before.push(entry));
                    lemma_keyed_view_push(before, entry);
                    let next = Map::new(
                        |key: PlaceView| exists|j: int| 0 <= j < i + 1 && flags@[j] && #[trigger] all[j].0 == key,
                        |key: PlaceView| whole[key],
                    );
                    assert forall|key: PlaceView| #[trigger] next.contains_key(key) == keyed_view(place_entries(kept@)).contains_key(key) by {
                        if next.contains_key(key) && key != all[i as int].0 {
                            let j = choose|j: int| 0 <= j < i + 1 && flags@[j] && #[trigger] all[j].0 == key;
                            assert(j < i);
                        }
                    }
                    assert(keyed_view(place_entries(kept@)) =~= next);
                }
            } else {
                proof {
                    let next = Map::new(
                        |key: PlaceView| exists|j: int| 0 <= j < i + 1 && flags@[j] && #[trigger] all[j].0 == key,
                        |key: PlaceView| whole[key],
                    );
                    assert forall|key: PlaceView| #[trigger] next.contains_key(key) == keyed_view(before).contains_key(key) by {
                        if next.contains_key(key) {
                            let j = choose|j: int| 0 <= j < i + 1 && flags@[j] && #[trigger] all[j].0 == key;
                            assert(j < i);
                        }
                    }
                    assert(keyed_view(before) =~= next);
                }
            }
            i += 1;
        }
        kept
    }

    /// Keeps the entries whose flag is set, in order.
    fn retain_flagged(&mut self, flags: &[bool])
        requires
            flags@.len() == old(self).order().len(),
        ensures
            final(self)@ == Map::new(
                |key: PlaceView| exists|i: int| 0 <= i < flags@.len() && flags@[i] && #[trigger] place_entries(old(self).entries@)[i].0 == key,
                |key: PlaceView| old(self)@[key],
            ),
    {
        self.entries = self.selected(flags);
    }

    /// Returns a copy of this map.
    fn duplicate(&self) -> (copy: Self)
        ensures
            copy@ == self@,
    {
        proof {
            use_type_invariant(self);
        }
        let mut flags: Vec<bool> = Vec::new();
        let mut i: usize = 0;
        while i < self.entries.len()
            invariant
                0 <= i <= self.entries@.len(),
                flags@.len() == i,
                forall|k: int| 0 <= k < i ==> flags@[k],
            decreases self.entries@.len() - i,
        {
            flags.push(true);
            i += 1;
        }
        let copy = PlaceValues { entries: self.selected(flags.as_slice()) };
        proof {
            lemma_selected_entries(place_entries(self.entries@), flags@, |key: PlaceView| true);
            assert(copy@ =~= self@);
        }
        copy
    }

    /// Returns the stored places, in order.
    fn places(&self) -> (places: Vec<Place>)
        ensures
            place_views(places@) == self.order(),
            place_views(places@).no_duplicates(),
            forall|i: int| 0 <= i < places@.len() ==> self@.contains_key(#[trigger] place_views(places@)[i]),
            forall|key: PlaceView| #[trigger] self@.contains_key(key) ==> place_views(places@).contains(key),
    {
        proof {
            use_type_invariant(self);
        }
        let ghost all = place_entries(self.entries@);
        let mut places: Vec<Place> = Vec::new();
        let mut i: usize = 0;
        while i < self.entries.len()
            invariant
                0 <= i <= self.entries@.len(),
                all == place_entries(self.entries@),
                place_views(places@) == entry_keys(all).subrange(0, i as int),
            decreases self.entries@.len() - i,
        {
            let ghost before = place_views(places@);
            places.push(self.entries[i].0.duplicate());
            proof {
                assert(entry_keys(all)[i as int] == all[i as int].0);
                assert(all[i as int].0 == self.entries@[i as int].0@);
                assert(place_views(places@) =~= before.push(all[i as int].0));
                assert(place_views(places@) =~= entry_keys(all).subrange(0, i + 1));
            }
            i += 1;
        }
        proof {
            assert(place_views(places@) =~= entry_keys(all));
            assert forall|a: int, b: int| 0 <= a < places@.len() && 0 <= b < places@.len() && a != b implies place_views(places@)[a] != place_views(places@)[b] by {
                assert(place_views(places@)[a] == all[a].0);
                assert(place_views(places@)[b] == all[b].0);
            }
            assert forall|i: int| 0 <= i < places@.len() implies self@.contains_key(#[trigger] place_views(places@)[i]) by {
                lemma_keyed_view_at(all, i);
            }
            assert forall|key: PlaceView| #[trigger] self@.contains_key(key) implies place_views(places@).contains(key) by {
                let i = choose|i: int| 0 <= i < all.len() && #[trigger] all[i].0 == key;
                assert(place_views(places@)[i] == key);
            }
        }
        places
    }

    /// Drops the places rooted at `variable`.
    fn remove_rooted(&mut self, variable: VariableId)
        ensures
            final(self)@ == without_root(old(self)@, variable),
    {
        proof {
            use_type_invariant(&*self);
        }
        let ghost all = place_entries(self.entries@);
        let mut flags: Vec<bool> = Vec::new();
        let mut i: usize = 0;
        while i < self.entries.len()
            invariant
                0 <= i <= self.entries@.len(),
                all == place_entries(self.entries@),
                flags@.len() == i,
                forall|k: int| 0 <= k < i ==> flags@[k] == ((#[trigger] all[k].0).0 != variable),
            decreases self.entries@.len() - i,
        {
            flags.push(self.entries[i].0.local().0 != variable.0);
            i += 1;
        }
        self.retain_flagged(flags.as_slice());
        proof {
            lemma_selected_entries(all, flags@, |key: PlaceView| key.0 != variable);
        }
    }

    /// Drops the places that may overlap `place`.
    fn remove_overlapping(&mut self, place: &Place)
        ensures
            final(self)@ == without_overlap(old(self)@, place@),
    {
        proof {
            use_type_invariant(&*self);
        }
        let ghost all = place_entries(self.entries@);
        let mut flags: Vec<bool> = Vec::new();
        let mut i: usize = 0;
        while i < self.entries.len()
            invariant
                0 <= i <= self.entries@.len(),
                all == place_entries(self.entries@),
                flags@.len() == i,
                forall|k: int|
                    0 <= k < i ==> flags@[k] == !spec_may_overlap(
                        (#[trigger] all[k].0).0,
                        all[k].0.1,
                        place@.0,
                        place@.1,
                    ),
            decreases self.entries@.len() - i,
        {
            flags.push(!self.entries[i].0.may_overlap(place));
            i += 1;
        }
        self.retain_flagged(flags.as_slice());
        proof {
            lemma_selected_entries(all, flags@, |key: PlaceView| !spec_may_overlap(key.0, key.1, place@.0, place@.1));
        }
    }

    /// Drops the places rooted at any of `variables`.
    fn remove_rooted_in(&mut self, variables: &[VariableId])
        ensures
            final(self)@ == Map::new(
                |key: PlaceView| old(self)@.contains_key(key) && !variables@.contains(key.0),
                |key: PlaceView| old(self)@[key],
            ),
    {
        proof {
            use_type_invariant(&*self);
        }
        let ghost all = place_entries(self.entries@);
        let mut flags: Vec<bool> = Vec::new();
        let mut i: usize = 0;
        while i < self.entries.len()
            invariant
                0 <= i <= self.entries@.len(),
                all == place_entries(self.entries@),
                flags@.len() == i,
                forall|k: int| 0 <= k < i ==> flags@[k] == !variables@.contains((#[trigger] all[k].0).0),
            decreases self.entries@.len() - i,
        {
            flags.push(!contains_variable(variables, self.entries[i].0.local()));
            i += 1;
        }
        self.retain_flagged(flags.as_slice());
        proof {
            lemma_selected_entries(all, flags@, |key: PlaceView| !variables@.contains(key.0));
        }
    }

    /// Replaces the values of entry `index`.
    fn set_values_at(&mut self, index: usize, values: ValueSet<P>)
        requires
            index < old(self).order().len(),
        ensures
            final(self)@ == old(self)@.insert(old(self).order()[index as int], values@),
            final(self).order() == old(self).order(),
    {
        proof {
            use_type_invariant(&*self);
        }
        let place = self.entries[index].0.duplicate();
        let ghost entry = (place@, values);
        let mut entries = Vec::new();
        std::mem::swap(&mut entries, &mut self.entries);
        let ghost before = entries@;
        entries.set(index, (place, values));
        proof {
            assert(place_entries(entries@) =~= place_entries(before).update(index as int, entry));
            lemma_keyed_view_set(place_entries(before), index as int, entry);
        }
        self.entries = entries;
    }

    /// Refines by `update` the recorded places that definitely alias `origin`, and returns
    /// whether `selected` is one of them.
    fn refine_aliases<F: Fn(&P) -> P>(&mut self, origin: &ValueOrigin, selected: &Place, update: &F) -> (present: bool)
        requires
            forall|property: &P| update.requires((property,)),
        ensures
            refines_place_aliases(old(self)@, final(self)@, origin@, *update),
            present == (old(self)@.contains_key(selected@) && is_definite_alias_of(old(self)@[selected@], origin@)),
    {
        proof {
            use_type_invariant(&*self);
        }
        let ghost start = self@;
        let ghost order = self.order();
        proof {
            assert forall|key: PlaceView| #[trigger] start.contains_key(key) implies order.contains(key) by {
                let all = place_entries(self.entries@);
                let j = choose|j: int| 0 <= j < all.len() && #[trigger] all[j].0 == key;
                assert(order[j] == key);
            }
            assert forall|k: int| 0 <= k < order.len() implies start.contains_key(#[trigger] order[k]) by {
                lemma_keyed_view_at(place_entries(self.entries@), k);
            }
        }
        let mut present = false;
        let mut i: usize = 0;
        while i < self.entries.len()
            invariant
                0 <= i <= self.entries@.len(),
                order == self.order(),
                order.len() == self.entries@.len(),
                unique_keys(place_entries(self.entries@)),
                forall|property: &P| update.requires((property,)),
                self@.dom() == start.dom(),
                forall|k: int| 0 <= k < order.len() ==> start.contains_key(#[trigger] order[k]),
                forall|key: PlaceView| #[trigger] start.contains_key(key) ==> order.contains(key),
                forall|key: PlaceView|
                    #[trigger] start.contains_key(key) ==> if order.subrange(0, i as int).contains(key) && is_definite_alias_of(
                        start[key],
                        origin@,
                    ) {
                        refined_by(start[key], self@[key], source_selection(start[key], origin@), *update)
                    } else {
                        self@[key] == start[key]
                    },
                present == (order.subrange(0, i as int).contains(selected@) && start.contains_key(selected@)
                    && is_definite_alias_of(start[selected@], origin@)),
            decreases self.entries@.len() - i,
        {
            let ghost key = order[i as int];
            let ghost seen = order.subrange(0, i as int);
            let ghost next = order.subrange(0, i + 1);
            proof {
                assert forall|x: PlaceView| next.contains(x) <==> (seen.contains(x) || x == key) by {
                    if next.contains(x) {
                        let j = choose|j: int| 0 <= j < next.len() && next[j] == x;
                        if j < i {
                            assert(seen[j] == x);
                        }
                    }
                    if seen.contains(x) {
                        let j = choose|j: int| 0 <= j < seen.len() && seen[j] == x;
                        assert(next[j] == x);
                    }
                    if x == key {
                        assert(next[i as int] == x);
                    }
                }
                if seen.contains(key) {
                    let j = choose|j: int| 0 <= j < seen.len() && seen[j] == key;
                    assert(place_entries(self.entries@)[j].0 == place_entries(self.entries@)[i as int].0);
                }
                assert(start.contains_key(key));
            }
            let current = self.values_at(i);
            let aliased = match current.common_source() {
                Some(candidate) => candidate.same_source(origin),
                None => false,
            };
            if aliased {
                let mut refined = current.duplicate();
                refined.refine_source(origin, update);
                if self.place_at(i).same_place(selected) {
                    present = true;
                }
                self.set_values_at(i, refined);
            }
            proof {
                use_type_invariant(&*self);
                assert forall|x: PlaceView|
                    #[trigger] start.contains_key(x) implies if next.contains(x) && is_definite_alias_of(start[x], origin@) {
                        refined_by(start[x], self@[x], source_selection(start[x], origin@), *update)
                    } else {
                        self@[x] == start[x]
                    } by {
                    if x == key {
                        assert(self@[x] == self@[key]);
                    }
                }
            }
            i += 1;
        }
        proof {
            assert(order.subrange(0, order.len() as int) =~= order);
            assert(self@.dom() =~= start.dom());
        }
        present
    }

    /// Returns whether no place is recorded.
    fn is_empty(&self) -> (empty: bool)
        ensures
            empty == (self@ == Map::<PlaceView, Seq<(OriginView, P)>>::empty()),
    {
        proof {
            use_type_invariant(self);
            if self.entries@.len() > 0 {
                lemma_keyed_view_at(place_entries(self.entries@), 0);
                assert(self@.contains_key(place_entries(self.entries@)[0].0));
            } else {
                assert(place_entries(self.entries@) =~= Seq::<(PlaceView, ValueSet<P>)>::empty());
                assert(self@ =~= Map::<PlaceView, Seq<(OriginView, P)>>::empty());
            }
        }
        self.entries.len() == 0
    }

    /// Refines by `update` the alternatives of every recorded value that are correlated with
    /// `origin` according to `sites`.
    fn refine_correlated<F: Fn(&P) -> P>(&mut self, origin: &ValueOrigin, sites: &EvaluatedSites, update: &F)
        requires
            forall|property: &P| update.requires((property,)),
        ensures
            refines_correlated_values(old(self)@, final(self)@, origin@, sites@.1, *update),
    {
        proof {
            use_type_invariant(&*self);
        }
        let ghost start = self@;
        let ghost order = self.order();
        proof {
            assert forall|key: PlaceView| #[trigger] start.contains_key(key) implies order.contains(key) by {
                let all = place_entries(self.entries@);
                let j = choose|j: int| 0 <= j < all.len() && #[trigger] all[j].0 == key;
                assert(order[j] == key);
            }
        }
        let mut i: usize = 0;
        while i < self.entries.len()
            invariant
                0 <= i <= self.entries@.len(),
                order == self.order(),
                order.len() == self.entries@.len(),
                unique_keys(place_entries(self.entries@)),
                forall|property: &P| update.requires((property,)),
                self@.dom() == start.dom(),
                forall|key: PlaceView| #[trigger] start.contains_key(key) ==> order.contains(key),
                forall|key: PlaceView|
                    #[trigger] start.contains_key(key) ==> if order.subrange(0, i as int).contains(key) {
                        refined_by(start[key], self@[key], correlated_selection(start[key], origin@, sites@.1), *update)
                    } else {
                        self@[key] == start[key]
                    },
            decreases self.entries@.len() - i,
        {
            let ghost key = order[i as int];
            let ghost seen = order.subrange(0, i as int);
            let ghost next = order.subrange(0, i + 1);
            proof {
                assert forall|x: PlaceView| next.contains(x) <==> (seen.contains(x) || x == key) by {
                    if next.contains(x) {
                        let j = choose|j: int| 0 <= j < next.len() && next[j] == x;
                        if j < i {
                            assert(seen[j] == x);
                        }
                    }
                    if seen.contains(x) {
                        let j = choose|j: int| 0 <= j < seen.len() && seen[j] == x;
                        assert(next[j] == x);
                    }
                    if x == key {
                        assert(next[i as int] == x);
                    }
                }
                if seen.contains(key) {
                    let j = choose|j: int| 0 <= j < seen.len() && seen[j] == key;
                    assert(place_entries(self.entries@)[j].0 == place_entries(self.entries@)[i as int].0);
                }
            }
            let mut refined = self.values_at(i).duplicate();
            refined.refine_correlated(origin, sites, update);
            self.set_values_at(i, refined);
            proof {
                use_type_invariant(&*self);
            }
            i += 1;
        }
        proof {
            assert(order.subrange(0, order.len() as int) =~= order);
            assert(self@.dom() =~= start.dom());
        }
    }

    /// Drops every recorded place.
    fn clear(&mut self)
        ensures
            final(self)@ == Map::<PlaceView, Seq<(OriginView, P)>>::empty(),
    {
        self.entries = Vec::new();
        proof {
            assert(place_entries(self.entries@) =~= Seq::<(PlaceView, ValueSet<P>)>::empty());
            assert(self@ =~= Map::<PlaceView, Seq<(OriginView, P)>>::empty());
        }
    }
}

/// Whether `variables` holds `variable`.
fn contains_variable(variables: &[VariableId], variable: VariableId) -> (found: bool)
    ensures
        found == variables@.contains(variable),
{
    let mut i: usize = 0;
    while i < variables.len()
        invariant
            0 <= i <= variables@.len(),
            forall|k: int| 0 <= k < i ==> variables@[k] != variable,
        decreases variables@.len() - i,
    {
        if variables[i] == variable {
            proof {
                assert(variables@[i as int] == variable);
            }
            return true;
        }
        i += 1;
    }
    false
}

/// Whether a projection is a non-empty path of field projections.
fn is_field_projection(projection: &[ProjectionElem]) -> (fields: bool)
    ensures
        fields == is_field_path(projection@),
{
    if projection.len() == 0 {
        return false;
    }
    let mut i: usize = 0;
    while i < projection.len()
        invariant
            0 <= i <= projection@.len(),
            forall|k: int| 0 <= k < i ==> (#[trigger] projection@[k]) is Field,
        decreases projection@.len() - i,
    {
        match projection[i] {
            ProjectionElem::Field { .. } => {},
            _ => {
                return false;
            },
        }
        i += 1;
    }
    true
}

/// Whether `entries` holds an entry with the view of `entry`.
fn contains_entry(entries: &Vec<(Place, Place, ValueGeneration)>, entry: &(Place, Place, ValueGeneration)) -> (found:
    bool)
    ensures
        found == entry_views(entries@).contains((entry.0@, entry.1@, entry.2)),
{
    let mut i: usize = 0;
    while i < entries.len()
        invariant
            0 <= i <= entries@.len(),
            forall|k: int| 0 <= k < i ==> entry_views(entries@)[k] != (entry.0@, entry.1@, entry.2),
        decreases entries@.len() - i,
    {
        if entries[i].0.same_place(&entry.0) && entries[i].1.same_place(&entry.1) && entries[i].2 == entry.2 {
            proof {
                assert(entry_views(entries@)[i as int] == (entry.0@, entry.1@, entry.2));
            }
            return true;
        }
        i += 1;
    }
    false
}

/// Whether `places` holds a place with the view of `place`.
fn contains_place(places: &Vec<Place>, place: &Place) -> (found: bool)
    ensures
        found == place_views(places@).contains(place@),
{
    let mut i: usize = 0;
    while i < places.len()
        invariant
            0 <= i <= places@.len(),
            forall|k: int| 0 <= k < i ==> place_views(places@)[k] != place@,
        decreases places@.len() - i,
    {
        if places[i].same_place(place) {
            proof {
                assert(place_views(places@)[i as int] == place@);
            }
            return true;
        }
        i += 1;
    }
    false
}

/// The base of `origin`, if it has one.
fn base_of(origin: &ValueOrigin) -> (base: Option<Place>)
    ensures
        match base {
            Some(b) => origin_base(origin@) == Some(b@),
            None => origin_base(origin@) is None,
        },
{
    match origin {
        ValueOrigin::Initial(variable) => Some(Place::from_local(*variable)),
        ValueOrigin::Opaque(variable) => Some(Place::from_local(*variable)),
        ValueOrigin::Place { anchor, .. } => Some(anchor.duplicate()),
        _ => None,
    }
}

/// Whether `prefix` is a prefix of `projection`.
fn is_prefix(prefix: &[ProjectionElem], projection: &[ProjectionElem]) -> (result: bool)
    ensures
        result == prefix@.is_prefix_of(projection@),
{
    if prefix.len() > projection.len() {
        return false;
    }
    let mut i: usize = 0;
    while i < prefix.len()
        invariant
            0 <= i <= prefix@.len(),
            prefix@.len() <= projection@.len(),
            forall|k: int| 0 <= k < i ==> prefix@[k] == projection@[k],
        decreases prefix@.len() - i,
    {
        if prefix[i] != projection[i] {
            proof {
                assert(projection@.subrange(0, prefix@.len() as int)[i as int] == projection@[i as int]);
            }
            return false;
        }
        i += 1;
    }
    proof {
        assert(prefix@ =~= projection@.subrange(0, prefix@.len() as int));
    }
    true
}

/// The projections of `projection` from `start` on.
fn suffix_from(projection: &[ProjectionElem], start: usize) -> (rest: Vec<ProjectionElem>)
    requires
        start <= projection@.len(),
    ensures
        rest@ == projection@.subrange(start as int, projection@.len() as int),
{
    let mut rest: Vec<ProjectionElem> = Vec::new();
    let mut i: usize = start;
    while i < projection.len()
        invariant
            start <= i <= projection@.len(),
            rest@ == projection@.subrange(start as int, i as int),
        decreases projection@.len() - i,
    {
        rest.push(projection[i]);
        proof {
            assert(rest@ =~= projection@.subrange(start as int, i + 1));
        }
        i += 1;
    }
    rest
}

/// Whether some alternative of `values` is rooted at `variable`.
fn any_rooted<P: ValueProperty>(values: &ValueSet<P>, variable: VariableId) -> (rooted: bool)
    ensures
        rooted == aliases_root(values@, variable),
{
    let alternatives = values.values();
    let mut i: usize = 0;
    while i < alternatives.len()
        invariant
            0 <= i <= alternatives@.len(),
            value_views(alternatives@) == values@,
            forall|k: int| 0 <= k < i ==> !rooted_at(#[trigger] values@[k].0, variable),
        decreases alternatives@.len() - i,
    {
        let origin = alternatives[i].origin();
        proof {
            assert(values@[i as int] == alternatives@[i as int]@);
        }
        match base_of(&origin) {
            Some(base) => {
                if base.local() == variable {
                    return true;
                }
            },
            None => {},
        }
        i += 1;
    }
    false
}

/// Returns `values` with every alternative given `origin`.
fn with_origin<P: ValueProperty>(values: &ValueSet<P>, origin: &ValueOrigin) -> (result: ValueSet<P>)
    ensures
        result@ == with_origin_of(values@, origin@),
{
    let alternatives = values.values();
    let mut mapped: Vec<AbstractValue<P>> = Vec::new();
    let mut k: usize = 0;
    while k < alternatives.len()
        invariant
            0 <= k <= alternatives@.len(),
            value_views(alternatives@) == values@,
            mapped@.len() == k,
            forall|kk: int| 0 <= kk < k ==> (#[trigger] mapped@[kk])@ == (origin@, values@[kk].1),
        decreases alternatives@.len() - k,
    {
        proof {
            assert(values@[k as int] == alternatives@[k as int]@);
        }
        mapped.push(AbstractValue::new(origin.duplicate(), alternatives[k].property().copy_property()));
        k += 1;
    }
    let result = ValueSet::from_values(mapped.as_slice());
    proof {
        assert(value_views(mapped@) =~= values@.map_values(|alternative: (OriginView, P)| (origin@, alternative.1)));
    }
    result
}

/// Returns the value bound to `variable`: in memory, computed values and call results become
/// values of the variable's place.
fn stored<P: ValueProperty>(values: ValueSet<P>, variable: VariableId, in_memory: bool) -> (result: ValueSet<P>)
    ensures
        result@ == stored_value(values@, variable, in_memory),
{
    if !in_memory {
        return values;
    }
    let target = Place::from_local(variable);
    let alternatives = values.values();
    let mut mapped: Vec<AbstractValue<P>> = Vec::new();
    let mut k: usize = 0;
    while k < alternatives.len()
        invariant
            0 <= k <= alternatives@.len(),
            value_views(alternatives@) == values@,
            target@ == (variable, Seq::<ProjectionElem>::empty()),
            mapped@.len() == k,
            forall|kk: int| 0 <= kk < k ==> (#[trigger] mapped@[kk])@ == memory_alternative(values@[kk], target@),
        decreases alternatives@.len() - k,
    {
        let origin = alternatives[k].origin();
        proof {
            assert(values@[k as int] == alternatives@[k as int]@);
        }
        let moved = match origin {
            ValueOrigin::Expr(_) => {
                let generation = ValueGeneration::from_origin(&origin);
                ValueOrigin::place(target.duplicate(), generation)
            },
            ValueOrigin::CallResult(..) => {
                let generation = ValueGeneration::from_origin(&origin);
                ValueOrigin::place(target.duplicate(), generation)
            },
            other => other,
        };
        mapped.push(AbstractValue::new(moved, alternatives[k].property().copy_property()));
        k += 1;
    }
    let result = ValueSet::from_values(mapped.as_slice());
    proof {
        assert(value_views(mapped@) =~= values@.map_values(
            |alternative: (OriginView, P)| memory_alternative(alternative, (variable, Seq::<ProjectionElem>::empty())),
        ));
    }
    result
}

/// Whether `sources` lists the detach sources of `variable` in `state`, each with its target.
pub open spec fn sources_listed<P>(state: FlowView<P>, variable: VariableId, sources: Seq<(Place, VariableId)>) -> bool {
    &&& forall|i: int|
        0 <= i < sources.len() ==> is_detach_source(state, variable, (#[trigger] sources[i]).0@)
            && is_detach_target(state, variable, sources[i].0@, sources[i].1)
    &&& forall|source: PlaceView|
        #[trigger] is_detach_source(state, variable, source) ==> exists|i: int| 0 <= i < sources.len() && sources[i].0@ == source
}

/// Returns the position of the source at or above `place`, if any.
fn find_source(sources: &Vec<(Place, VariableId)>, place: &Place) -> (index: Option<usize>)
    ensures
        match index {
            Some(i) => i < sources@.len() && sources@[i as int].0@.0 == place@.0 && sources@[i as int].0@.1.is_prefix_of(
                place@.1,
            ),
            None => forall|i: int|
                0 <= i < sources@.len() ==> !(sources@[i].0@.0 == place@.0 && sources@[i].0@.1.is_prefix_of(place@.1)),
        },
{
    let mut i: usize = 0;
    while i < sources.len()
        invariant
            0 <= i <= sources@.len(),
            forall|k: int|
                0 <= k < i ==> !(sources@[k].0@.0 == place@.0 && sources@[k].0@.1.is_prefix_of(place@.1)),
        decreases sources@.len() - i,
    {
        if sources[i].0.local() == place.local() && is_prefix(sources[i].0.projection(), place.projection()) {
            return Some(i);
        }
        i += 1;
    }
    None
}

/// The place that `place` moves to under source `index`: the root of its target followed by
/// the projections of `place` below the source.
fn moved_place(sources: &Vec<(Place, VariableId)>, index: usize, place: &Place) -> (moved: Place)
    requires
        index < sources@.len(),
        sources@[index as int].0@.1.len() <= place@.1.len(),
    ensures
        moved@ == (
            sources@[index as int].1,
            place@.1.subrange(sources@[index as int].0@.1.len() as int, place@.1.len() as int),
        ),
{
    let rest = suffix_from(place.projection(), sources[index].0.projection().len());
    let moved = Place::from_local(sources[index].1).with_projection_suffix(rest.as_slice());
    proof {
        assert(Seq::<ProjectionElem>::empty() + rest@ =~= rest@);
    }
    moved
}

/// Variable values, recorded projected places and internal call results shared by the value
/// analyses of effective bodies.
///
/// Assignments copy value sets, so an alias of a memory aggregate keeps the origin of the value
/// it copied; projected field places are followed through the canonical move path of each origin
/// of their root. Call summaries give the values of indexed call results, and evaluation
/// multiplicity tells which expression sites still denote unique dynamic values.
///
/// The view is the variable values, the recorded place values, the call summaries and the
/// evaluation multiplicity.
#[derive(Debug)]
pub struct ValueFlowState<P> {
    values: ValueState<P>,
    places: PlaceValues<P>,
    call_results: CallResults<ValueSet<P>>,
    evaluated: EvaluatedSites,
}

impl<P> View for ValueFlowState<P> {
    type V = FlowView<P>;

    closed spec fn view(&self) -> FlowView<P> {
        (self.values@, self.places@, self.call_results@, self.evaluated@)
    }
}

impl<P: ValueProperty> ValueFlowState<P> {
    /// Creates an empty flow state whose untouched variables have `initial_property`.
    pub fn new(initial_property: P) -> (state: Self)
        ensures
            state@ == (
                (Map::<VariableId, Seq<(OriginView, P)>>::empty(), Map::<VariableId, P>::empty(), initial_property),
                Map::<PlaceView, Seq<(OriginView, P)>>::empty(),
                Map::<ExprId, Seq<Seq<(OriginView, P)>>>::empty(),
                (Set::<ExprId>::empty(), Set::<ExprId>::empty()),
            ),
    {
        ValueFlowState {
            values: ValueState::new(initial_property),
            places: PlaceValues::new(),
            call_results: CallResults::new(),
            evaluated: EvaluatedSites::new(),
        }
    }

    /// Returns the underlying variable values.
    pub fn values(&self) -> (values: &ValueState<P>)
        ensures
            values@ == self@.0,
    {
        &self.values
    }

    /// Forgets variable, place and call-result facts while keeping seeded properties and the
    /// history of evaluated sites.
    ///
    /// Use this for opaque effects such as inline assembly or an unresolved internal call. Keeping
    /// the evaluation history prevents a later occurrence of the same source expression from being
    /// mistaken for a uniquely evaluated dynamic value.
    pub fn forget_values(&mut self)
        ensures
            final(self)@ == (
                (Map::<VariableId, Seq<(OriginView, P)>>::empty(), old(self)@.0.1, old(self)@.0.2),
                Map::<PlaceView, Seq<(OriginView, P)>>::empty(),
                Map::<ExprId, Seq<Seq<(OriginView, P)>>>::empty(),
                old(self)@.3,
            ),
    {
        self.values.forget();
        self.places.clear();
        self.call_results.clear_all();
    }

    /// Returns the evaluation multiplicity of expression sites.
    pub fn evaluated_sites(&self) -> (sites: &EvaluatedSites)
        ensures
            sites@ == self@.3,
    {
        &self.evaluated
    }

    /// Records that `expr` was evaluated on this path and returns whether this made it
    /// potentially repeated.
    pub fn record_evaluation(&mut self, expr: ExprId) -> (became_repeated: bool)
        ensures
            final(self)@.0 == old(self)@.0,
            final(self)@.1 == old(self)@.1,
            final(self)@.2 == old(self)@.2,
            final(self)@.3.0 == old(self)@.3.0.insert(expr),
            final(self)@.3.1 == (if old(self)@.3.0.contains(expr) {
                old(self)@.3.1.insert(expr)
            } else {
                old(self)@.3.1
            }),
            became_repeated == (old(self)@.3.0.contains(expr) && !old(self)@.3.1.contains(expr)),
    {
        self.evaluated.record(expr)
    }

    /// Returns the current value of `variable`.
    pub fn variable(&self, variable: VariableId) -> (values: ValueSet<P>)
        ensures
            values@ == variable_value(self@.0, variable),
            values@ == place_value_of(self@, (variable, Seq::<ProjectionElem>::empty())),
    {
        self.values.variable(variable)
    }

    /// Sets the value of `variable` directly, without detaching its aliases or dropping its
    /// recorded places.
    pub fn set_value(&mut self, variable: VariableId, values: ValueSet<P>)
        ensures
            final(self)@ == (
                (old(self)@.0.0.insert(variable, values@), old(self)@.0.1, old(self)@.0.2),
                old(self)@.1,
                old(self)@.2,
                old(self)@.3,
            ),
    {
        self.values.set(variable, values);
    }

    /// Returns whether no projected place is recorded.
    pub fn no_recorded_places(&self) -> (none: bool)
        ensures
            none == (self@.1 == Map::<PlaceView, Seq<(OriginView, P)>>::empty()),
    {
        self.places.is_empty()
    }

    /// Seeds the entry property of an otherwise untouched variable.
    pub fn seed(&mut self, variable: VariableId, property: P)
        ensures
            final(self)@ == (
                (old(self)@.0.0, old(self)@.0.1.insert(variable, property), old(self)@.0.2),
                old(self)@.1,
                old(self)@.2,
                old(self)@.3,
            ),
    {
        self.values.seed(variable, property);
    }

    /// Replaces `variable` with a value produced at `site` and drops every recorded place rooted
    /// in it.
    pub fn invalidate_variable(&mut self, variable: VariableId, site: ExprId, property: P)
        ensures
            final(self)@ == (
                (
                    old(self)@.0.0.insert(variable, seq![(OriginView::Expr(site), property)]),
                    old(self)@.0.1,
                    old(self)@.0.2,
                ),
                without_root(old(self)@.1, variable),
                old(self)@.2,
                old(self)@.3,
            ),
    {
        self.places.remove_rooted(variable);
        self.values.invalidate(variable, site, property);
    }

    /// Returns output `index` of a summarized call.
    pub fn call_result(&self, call: ExprId, index: usize) -> (output: Option<&ValueSet<P>>)
        ensures
            output is Some <==> (self@.2.contains_key(call) && index < self@.2[call].len()),
            output is Some ==> output->0@ == self@.2[call][index as int],
    {
        self.call_results.output(call, index)
    }

    /// Sets the outputs of `call`.
    pub fn set_call_results(&mut self, call: ExprId, outputs: Vec<ValueSet<P>>)
        ensures
            final(self)@ == (old(self)@.0, old(self)@.1, old(self)@.2.insert(call, views(outputs@)), old(self)@.3),
    {
        self.call_results.set_outputs(call, outputs);
    }

    /// Returns the canonical entries of `place`.
    fn canonical_places_with_generation(&self, place: &Place) -> (entries: Vec<(Place, Place, ValueGeneration)>)
        ensures
            entry_views(entries@) == place_entries_of(self@, place@),
    {
        let mut entries: Vec<(Place, Place, ValueGeneration)> = Vec::new();
        if !is_field_projection(place.projection()) {
            proof {
                assert(entry_views(entries@) =~= Seq::<EntryView>::empty());
            }
            return entries;
        }
        let values = self.values.variable(place.local());
        let alternatives = values.values();
        let mut i: usize = 0;
        proof {
            assert(value_views(alternatives@).subrange(0, 0) =~= Seq::<(OriginView, P)>::empty());
            assert(entry_views(entries@) =~= Seq::<EntryView>::empty());
        }
        while i < alternatives.len()
            invariant
                0 <= i <= alternatives@.len(),
                value_views(alternatives@) == variable_value(self@.0, place@.0),
                is_field_path(place@.1),
                entry_views(entries@) == canonical_entries(value_views(alternatives@).subrange(0, i as int), place@.1),
            decreases alternatives@.len() - i,
        {
            let origin = alternatives[i].origin();
            let ghost origin_view = origin@;
            let entry: Option<(Place, Place, ValueGeneration)> = match origin {
                ValueOrigin::Initial(variable) => Some(
                    (place.with_local(variable), place.with_local(variable), ValueGeneration::Initial(variable)),
                ),
                ValueOrigin::Opaque(variable) => Some(
                    (place.with_local(variable), place.with_local(variable), ValueGeneration::Opaque(variable)),
                ),
                ValueOrigin::Place { identity, anchor, generation } => Some(
                    (
                        anchor.with_projection_suffix(place.projection()),
                        identity.with_projection_suffix(place.projection()),
                        generation,
                    ),
                ),
                _ => None,
            };
            let ghost before = entry_views(entries@);
            proof {
                let prefix = value_views(alternatives@).subrange(0, i + 1);
                assert(prefix.drop_last() =~= value_views(alternatives@).subrange(0, i as int));
                assert(prefix.last() == alternatives@[i as int]@);
                assert(origin_view == alternatives@[i as int]@.0);
            }
            match entry {
                Some(e) => {
                    proof {
                        assert(canonical_entry(origin_view, place@.1) == Some((e.0@, e.1@, e.2)));
                    }
                    if !contains_entry(&entries, &e) {
                        entries.push(e);
                        proof {
                            assert(entry_views(entries@) =~= before.push((e.0@, e.1@, e.2)));
                        }
                    }
                },
                None => {
                    proof {
                        assert(canonical_entry(origin_view, place@.1) is None);
                    }
                },
            }
            i += 1;
        }
        proof {
            assert(value_views(alternatives@).subrange(0, alternatives@.len() as int) =~= value_views(alternatives@));
        }
        entries
    }

    /// Returns the move paths through which `place` is stored.
    fn canonical_places(&self, place: &Place) -> (places: Vec<Place>)
        ensures
            place_views(places@) == canonical_places_of(self@, place@),
    {
        let mut places: Vec<Place> = Vec::new();
        if place.projection().len() == 0 {
            places.push(place.duplicate());
            proof {
                assert(place_views(places@) =~= seq![place@]);
            }
            return places;
        }
        let entries = self.canonical_places_with_generation(place);
        let ghost all = entry_views(entries@);
        let mut i: usize = 0;
        proof {
            assert(all.subrange(0, 0) =~= Seq::<EntryView>::empty());
            assert(place_views(places@) =~= Seq::<PlaceView>::empty());
        }
        while i < entries.len()
            invariant
                0 <= i <= entries@.len(),
                all == entry_views(entries@),
                place_views(places@) == entry_anchors(all.subrange(0, i as int)),
            decreases entries@.len() - i,
        {
            let ghost before = place_views(places@);
            proof {
                let prefix = all.subrange(0, i + 1);
                assert(prefix.drop_last() =~= all.subrange(0, i as int));
                assert(prefix.last() == all[i as int]);
            }
            if !contains_place(&places, &entries[i].0) {
                places.push(entries[i].0.duplicate());
                proof {
                    assert(place_views(places@) =~= before.push(all[i as int].0));
                }
            }
            i += 1;
        }
        proof {
            assert(all.subrange(0, all.len() as int) =~= all);
        }
        places
    }

    /// Returns the value read at `place`.
    fn value_for_place(&self, place: &Place) -> (values: ValueSet<P>)
        ensures
            values@ == place_value_of(self@, place@),
    {
        if place.projection().len() == 0 {
            return self.values.variable(place.local());
        }
        let entries = self.canonical_places_with_generation(place);
        let ghost all = entry_views(entries@);
        let mut values = ValueSet::new();
        let mut i: usize = 0;
        proof {
            assert(all.subrange(0, 0) =~= Seq::<EntryView>::empty());
        }
        while i < entries.len()
            invariant
                0 <= i <= entries@.len(),
                all == entry_views(entries@),
                place@.1.len() > 0,
                values@ == joined_entry_values(self@, place@, all.subrange(0, i as int)),
            decreases entries@.len() - i,
        {
            let candidate = match self.places.get(&entries[i].0) {
                Some(stored) => stored.duplicate(),
                None => ValueSet::singleton(
                    ValueOrigin::Place {
                        identity: entries[i].1.duplicate(),
                        anchor: entries[i].0.duplicate(),
                        generation: entries[i].2,
                    },
                    self.values.initial_property(place.local()),
                ),
            };
            proof {
                let prefix = all.subrange(0, i + 1);
                assert(prefix.drop_last() =~= all.subrange(0, i as int));
                assert(prefix.last() == all[i as int]);
                assert(candidate@ == entry_value(self@, place@, all[i as int]));
            }
            let _ = values.join(&candidate);
            i += 1;
        }
        proof {
            assert(all.subrange(0, all.len() as int) =~= all);
        }
        if values.is_empty() {
            return ValueSet::singleton(
                ValueOrigin::Opaque(place.local()),
                self.values.initial_property(place.local()),
            );
        }
        values
    }

    /// Returns whether assignments and refinements can preserve the identity of `place`.
    ///
    /// Whole variables are followed, and so are field paths with a known reference provenance
    /// that are not backed by state (`state_backed`). Indexed and sliced places, storage-backed
    /// projections and fields of opaque computed references are deliberately not.
    pub fn can_track_place(&self, place: &Place, state_backed: bool) -> (trackable: bool)
        ensures
            trackable == can_track(self@, place@, state_backed),
    {
        if place.projection().len() == 0 {
            return true;
        }
        if state_backed || !is_field_projection(place.projection()) {
            return false;
        }
        self.canonical_places(place).len() > 0
    }

    /// Returns the recorded value of `place`, when its identity can be followed.
    ///
    /// Whole variables and field paths are followed precisely. Indexed and sliced places remain
    /// root-conservative because their runtime alias relation is not decidable from expression
    /// identity.
    pub fn place_value(&self, place: &Place, state_backed: bool) -> (values: Option<ValueSet<P>>)
        ensures
            values is Some <==> can_track(self@, place@, state_backed),
            values is Some ==> values->0@ == place_value_of(self@, place@),
    {
        if !self.can_track_place(place, state_backed) {
            return None;
        }
        Some(self.value_for_place(place))
    }
}

impl<P: ValueProperty> ValueFlowState<P> {
    /// Returns the aliases of `variable`: each other variable with an alternative of its recorded
    /// value rooted at `variable`, that alternative's origin and its base.
    fn collect_aliases(&self, variable: VariableId) -> (aliases: Vec<(VariableId, ValueOrigin, Place)>)
        ensures
            forall|j: int|
                0 <= j < aliases@.len() ==> is_alias(self@, variable, (#[trigger] aliases@[j]).0, aliases@[j].1@)
                    && origin_base(aliases@[j].1@) == Some(aliases@[j].2@),
            forall|candidate: VariableId, origin: OriginView|
                #[trigger] is_alias(self@, variable, candidate, origin) ==> exists|j: int|
                    0 <= j < aliases@.len() && aliases@[j].0 == candidate && aliases@[j].1@ == origin,
    {
        let candidates = self.values.variables();
        let mut aliases: Vec<(VariableId, ValueOrigin, Place)> = Vec::new();
        let mut i: usize = 0;
        while i < candidates.len()
            invariant
                0 <= i <= candidates@.len(),
                candidates@.to_set() == self@.0.0.dom(),
                forall|j: int|
                    0 <= j < aliases@.len() ==> is_alias(self@, variable, (#[trigger] aliases@[j]).0, aliases@[j].1@)
                        && origin_base(aliases@[j].1@) == Some(aliases@[j].2@),
                forall|candidate: VariableId, origin: OriginView|
                    #[trigger] is_alias(self@, variable, candidate, origin) && candidates@.subrange(0, i as int).contains(
                        candidate,
                    ) ==> exists|j: int| 0 <= j < aliases@.len() && aliases@[j].0 == candidate && aliases@[j].1@ == origin,
            decreases candidates@.len() - i,
        {
            let candidate = candidates[i];
            let ghost seen = candidates@.subrange(0, i as int);
            let ghost next = candidates@.subrange(0, i + 1);
            proof {
                assert forall|c: VariableId| next.contains(c) implies seen.contains(c) || c == candidate by {
                    let k = choose|k: int| 0 <= k < next.len() && next[k] == c;
                    if k < i {
                        assert(seen[k] == c);
                    }
                }
                assert(candidates@.contains(candidate));
                assert(self@.0.0.contains_key(candidate));
            }
            if candidate != variable {
                let values = self.values.variable(candidate);
                let alternatives = values.values();
                let ghost stored = self@.0.0[candidate];
                let mut k: usize = 0;
                while k < alternatives.len()
                    invariant
                        0 <= k <= alternatives@.len(),
                        value_views(alternatives@) == stored,
                        stored == self@.0.0[candidate],
                        self@.0.0.contains_key(candidate),
                        candidate != variable,
                        forall|j: int|
                            0 <= j < aliases@.len() ==> is_alias(self@, variable, (#[trigger] aliases@[j]).0, aliases@[j].1@)
                                && origin_base(aliases@[j].1@) == Some(aliases@[j].2@),
                        forall|c: VariableId, origin: OriginView|
                            #[trigger] is_alias(self@, variable, c, origin) && seen.contains(c) ==> exists|j: int|
                                0 <= j < aliases@.len() && aliases@[j].0 == c && aliases@[j].1@ == origin,
                        forall|kk: int|
                            0 <= kk < k && rooted_at(stored[kk].0, variable) ==> exists|j: int|
                                0 <= j < aliases@.len() && aliases@[j].0 == candidate && aliases@[j].1@ == #[trigger] stored[kk].0,
                    decreases alternatives@.len() - k,
                {
                    let origin = alternatives[k].origin();
                    proof {
                        assert(stored[k as int] == alternatives@[k as int]@);
                    }
                    match base_of(&origin) {
                        Some(base) => {
                            if base.local() == variable {
                                let ghost entry_origin = origin@;
                                proof {
                                    assert(is_alias(self@, variable, candidate, entry_origin)) by {
                                        assert(stored[k as int].0 == entry_origin);
                                    }
                                }
                                let ghost prev = aliases@;
                                aliases.push((candidate, origin, base));
                                proof {
                                    let last = aliases@.len() - 1;
                                    assert(aliases@[last].0 == candidate && aliases@[last].1@ == entry_origin);
                                    assert forall|c: VariableId, o: OriginView|
                                        #[trigger] is_alias(self@, variable, c, o) && seen.contains(c) implies exists|jj: int|
                                        0 <= jj < aliases@.len() && aliases@[jj].0 == c && aliases@[jj].1@ == o by {
                                        let jj = choose|jj: int| 0 <= jj < prev.len() && prev[jj].0 == c && prev[jj].1@ == o;
                                        assert(aliases@[jj] == prev[jj]);
                                    }
                                    assert forall|kk: int|
                                        0 <= kk < k + 1 && rooted_at(stored[kk].0, variable) implies exists|jj: int|
                                        0 <= jj < aliases@.len() && aliases@[jj].0 == candidate && aliases@[jj].1@ == #[trigger] stored[kk].0 by {
                                        if kk < k {
                                            let jj = choose|jj: int|
                                                0 <= jj < prev.len() && prev[jj].0 == candidate && prev[jj].1@ == stored[kk].0;
                                            assert(aliases@[jj] == prev[jj]);
                                        } else {
                                            assert(aliases@[last].1@ == stored[kk].0);
                                        }
                                    }
                                }
                            }
                        },
                        None => {},
                    }
                    k += 1;
                }
                proof {
                    assert forall|c: VariableId, origin: OriginView|
                        #[trigger] is_alias(self@, variable, c, origin) && next.contains(c) implies exists|j: int|
                        0 <= j < aliases@.len() && aliases@[j].0 == c && aliases@[j].1@ == origin by {
                        if !seen.contains(c) {
                            assert(c == candidate);
                            let kk = choose|kk: int| 0 <= kk < stored.len() && (#[trigger] self@.0.0[c][kk]).0 == origin;
                            assert(stored[kk].0 == origin);
                        }
                    }
                }
            } else {
                proof {
                    assert forall|c: VariableId, origin: OriginView|
                        #[trigger] is_alias(self@, variable, c, origin) && next.contains(c) implies exists|j: int|
                        0 <= j < aliases@.len() && aliases@[j].0 == c && aliases@[j].1@ == origin by {
                        assert(seen.contains(c));
                    }
                }
            }
            i += 1;
        }
        proof {
            assert(candidates@.subrange(0, candidates@.len() as int) =~= candidates@);
            assert forall|candidate: VariableId, origin: OriginView|
                #[trigger] is_alias(self@, variable, candidate, origin) implies exists|j: int|
                0 <= j < aliases@.len() && aliases@[j].0 == candidate && aliases@[j].1@ == origin by {
                assert(candidates@.to_set().contains(candidate));
            }
        }
        aliases
    }

    /// Returns the detach sources of `variable`, each with its target.
    fn detach_sources(&self, variable: VariableId, aliases: &Vec<(VariableId, ValueOrigin, Place)>) -> (sources: Vec<
        (Place, VariableId),
    >)
        requires
            forall|j: int|
                0 <= j < aliases@.len() ==> is_alias(self@, variable, (#[trigger] aliases@[j]).0, aliases@[j].1@)
                    && origin_base(aliases@[j].1@) == Some(aliases@[j].2@),
            forall|candidate: VariableId, origin: OriginView|
                #[trigger] is_alias(self@, variable, candidate, origin) ==> exists|j: int|
                    0 <= j < aliases@.len() && aliases@[j].0 == candidate && aliases@[j].1@ == origin,
        ensures
            sources_listed(self@, variable, sources@),
    {
        let ghost state = self@;
        proof {
            assert forall|base: PlaceView| #[trigger] is_alias_base(state, variable, base) implies exists|j: int|
                0 <= j < aliases@.len() && aliases@[j].2@ == base by {
                let (c, o) = choose|candidate: VariableId, origin: OriginView|
                    #[trigger] is_alias(state, variable, candidate, origin) && origin_base(origin) == Some(base);
                let j = choose|j: int| 0 <= j < aliases@.len() && aliases@[j].0 == c && aliases@[j].1@ == o;
                assert(is_alias(state, variable, aliases@[j].0, aliases@[j].1@));
            }
            assert forall|j: int| 0 <= j < aliases@.len() implies is_alias_base(state, variable, (#[trigger] aliases@[j]).2@) by {
                assert(is_alias(state, variable, aliases@[j].0, aliases@[j].1@));
            }
        }
        let mut sources: Vec<(Place, VariableId)> = Vec::new();
        let mut j: usize = 0;
        while j < aliases.len()
            invariant
                0 <= j <= aliases@.len(),
                state == self@,
                forall|jj: int|
                    0 <= jj < aliases@.len() ==> is_alias(state, variable, (#[trigger] aliases@[jj]).0, aliases@[jj].1@)
                        && origin_base(aliases@[jj].1@) == Some(aliases@[jj].2@),
                forall|candidate: VariableId, origin: OriginView|
                    #[trigger] is_alias(state, variable, candidate, origin) ==> exists|jj: int|
                        0 <= jj < aliases@.len() && aliases@[jj].0 == candidate && aliases@[jj].1@ == origin,
                forall|base: PlaceView| #[trigger] is_alias_base(state, variable, base) ==> exists|jj: int|
                    0 <= jj < aliases@.len() && aliases@[jj].2@ == base,
                forall|jj: int| 0 <= jj < aliases@.len() ==> is_alias_base(state, variable, (#[trigger] aliases@[jj]).2@),
                forall|i: int|
                    0 <= i < sources@.len() ==> is_detach_source(state, variable, (#[trigger] sources@[i]).0@)
                        && is_detach_target(state, variable, sources@[i].0@, sources@[i].1),
                forall|jj: int|
                    0 <= jj < j && is_detach_source(state, variable, (#[trigger] aliases@[jj]).2@) ==> exists|i: int|
                        0 <= i < sources@.len() && sources@[i].0@ == aliases@[jj].2@,
            decreases aliases@.len() - j,
        {
            let ghost prev_sources = sources@;
            let base = &aliases[j].2;
            let mut minimal = true;
            let mut m: usize = 0;
            while m < aliases.len()
                invariant
                    0 <= m <= aliases@.len(),
                    j < aliases@.len(),
                    *base == aliases@[j as int].2,
                    minimal == forall|mm: int| 0 <= mm < m ==> !is_proper_prefix((#[trigger] aliases@[mm]).2@.1, base@.1),
                decreases aliases@.len() - m,
            {
                let other = aliases[m].2.projection();
                if other.len() < base.projection().len() && is_prefix(other, base.projection()) {
                    minimal = false;
                }
                proof {
                    if !minimal {
                        if is_proper_prefix(aliases@[m as int].2@.1, base@.1) {
                        } else {
                            let mm = choose|mm: int| 0 <= mm < m && !!is_proper_prefix((#[trigger] aliases@[mm]).2@.1, base@.1);
                        }
                    }
                }
                m += 1;
            }
            proof {
                if minimal {
                    assert forall|other: PlaceView| #[trigger] is_alias_base(state, variable, other) implies !is_proper_prefix(
                        other.1,
                        base@.1,
                    ) by {
                        let jj = choose|jj: int| 0 <= jj < aliases@.len() && aliases@[jj].2@ == other;
                        assert(!is_proper_prefix(aliases@[jj].2@.1, base@.1));
                    }
                    assert(is_detach_source(state, variable, base@));
                } else {
                    let mm = choose|mm: int| 0 <= mm < aliases@.len() && is_proper_prefix((#[trigger] aliases@[mm]).2@.1, base@.1);
                    assert(is_alias_base(state, variable, aliases@[mm].2@));
                    assert(!is_detach_source(state, variable, base@));
                }
            }
            let mut listed = false;
            let mut n: usize = 0;
            while n < sources.len()
                invariant
                    0 <= n <= sources@.len(),
                    listed == exists|nn: int| 0 <= nn < n && (#[trigger] sources@[nn]).0@ == base@,
                decreases sources@.len() - n,
            {
                if sources[n].0.same_place(base) {
                    listed = true;
                }
                proof {
                    if listed && !(sources@[n as int].0@ == base@) {
                        let nn = choose|nn: int| 0 <= nn < n && (#[trigger] sources@[nn]).0@ == base@;
                    }
                }
                n += 1;
            }
            if minimal && !listed {
                let mut target = aliases[j].0;
                let ghost mut witness: int = j as int;
                let mut t: usize = 0;
                while t < aliases.len()
                    invariant
                        0 <= t <= aliases@.len(),
                        0 <= witness < aliases@.len(),
                        j < aliases@.len(),
                        *base == aliases@[j as int].2,
                        aliases@[witness].0 == target,
                        aliases@[witness].2@ == base@,
                        forall|tt: int| 0 <= tt < t && (#[trigger] aliases@[tt]).2@ == base@ ==> target.0 <= aliases@[tt].0.0,
                    decreases aliases@.len() - t,
                {
                    if aliases[t].2.same_place(base) && aliases[t].0.0 < target.0 {
                        target = aliases[t].0;
                        proof {
                            witness = t as int;
                        }
                    }
                    t += 1;
                }
                proof {
                    assert(is_alias(state, variable, target, aliases@[witness].1@) && origin_base(aliases@[witness].1@) == Some(base@));
                    assert forall|candidate: VariableId, origin: OriginView|
                        #[trigger] is_alias(state, variable, candidate, origin) && origin_base(origin) == Some(base@) implies target.0
                        <= candidate.0 by {
                        let jj = choose|jj: int| 0 <= jj < aliases@.len() && aliases@[jj].0 == candidate && aliases@[jj].1@ == origin;
                        assert(aliases@[jj].2@ == base@);
                    }
                    assert(is_detach_target(state, variable, base@, target));
                }
                sources.push((base.duplicate(), target));
            }
            proof {
                assert forall|jj: int|
                    0 <= jj < j + 1 && is_detach_source(state, variable, (#[trigger] aliases@[jj]).2@) implies exists|i: int|
                    0 <= i < sources@.len() && sources@[i].0@ == aliases@[jj].2@ by {
                    if jj == j {
                        if listed {
                            let nn = choose|nn: int| 0 <= nn < prev_sources.len() && (#[trigger] prev_sources[nn]).0@ == base@;
                            assert(sources@[nn] == prev_sources[nn]);
                        } else {
                            let last = sources@.len() - 1;
                            assert(sources@[last].0@ == aliases@[jj].2@);
                        }
                    } else {
                        let i = choose|i: int| 0 <= i < prev_sources.len() && prev_sources[i].0@ == aliases@[jj].2@;
                        assert(sources@[i] == prev_sources[i]);
                    }
                }
            }
            j += 1;
        }
        proof {
            assert forall|source: PlaceView| #[trigger] is_detach_source(state, variable, source) implies exists|i: int|
                0 <= i < sources@.len() && sources@[i].0@ == source by {
                let jj = choose|jj: int| 0 <= jj < aliases@.len() && aliases@[jj].2@ == source;
                assert(is_detach_source(state, variable, aliases@[jj].2@));
            }
        }
        sources
    }
}

impl<P: ValueProperty> ValueFlowState<P> {
    /// Returns the position of the listed source of an alias base, with its facts.
    fn source_index(&self, variable: VariableId, sources: &Vec<(Place, VariableId)>, base: &Place) -> (index: usize)
        requires
            sources_listed(self@, variable, sources@),
            is_alias_base(self@, variable, base@),
        ensures
            index < sources@.len(),
            sources@[index as int].0@.1.len() <= base@.1.len(),
            has_source(self@, variable, base@),
            source_of(self@, variable, base@) == sources@[index as int].0@,
            detach_target(self@, variable, sources@[index as int].0@) == sources@[index as int].1,
            moved_anchor(self@, variable, base@) == (
                sources@[index as int].1,
                base@.1.subrange(sources@[index as int].0@.1.len() as int, base@.1.len() as int),
            ),
    {
        proof {
            lemma_alias_base_has_source(self@, variable, base@);
        }
        match find_source(sources, base) {
            Some(index) => {
                proof {
                    assert(is_detach_source(self@, variable, sources@[index as int].0@));
                    lemma_source_unique(self@, variable, base@, sources@[index as int].0@);
                    lemma_target_unique(self@, variable, sources@[index as int].0@, sources@[index as int].1);
                }
                index
            },
            None => {
                proof {
                    let source = choose|source: PlaceView|
                        #[trigger] is_detach_source(self@, variable, source) && source.0 == base@.0 && source.1.is_prefix_of(base@.1);
                    let i = choose|i: int| 0 <= i < sources@.len() && sources@[i].0@ == source;
                    assert(false);
                }
                0
            },
        }
    }

    /// Returns the value of an alias `candidate` after the root `variable` of its base is rebound.
    fn rebound_value(
        &self,
        variable: VariableId,
        sources: &Vec<(Place, VariableId)>,
        candidate: VariableId,
        values: &ValueSet<P>,
    ) -> (rebound: ValueSet<P>)
        requires
            sources_listed(self@, variable, sources@),
            candidate != variable,
            self@.0.0.contains_key(candidate),
            values@ == self@.0.0[candidate],
        ensures
            rebound@ == rebound_alias_value(self@, variable, values@),
    {
        let alternatives = values.values();
        let ghost mapping = |alternative: (OriginView, P)| rebound_alternative(self@, variable, alternative);
        let mut mapped: Vec<AbstractValue<P>> = Vec::new();
        let mut k: usize = 0;
        while k < alternatives.len()
            invariant
                0 <= k <= alternatives@.len(),
                value_views(alternatives@) == values@,
                values@ == self@.0.0[candidate],
                self@.0.0.contains_key(candidate),
                candidate != variable,
                sources_listed(self@, variable, sources@),
                mapped@.len() == k,
                forall|kk: int| 0 <= kk < k ==> (#[trigger] mapped@[kk])@ == rebound_alternative(self@, variable, values@[kk]),
            decreases alternatives@.len() - k,
        {
            let origin = alternatives[k].origin();
            let property = alternatives[k].property().copy_property();
            let ghost seen = origin@;
            proof {
                assert(values@[k as int] == alternatives@[k as int]@);
                assert(seen == values@[k as int].0);
            }
            let moved = match base_of(&origin) {
                Some(base) => {
                    if base.local() == variable {
                        proof {
                            assert(is_alias(self@, variable, candidate, seen)) by {
                                assert(self@.0.0[candidate][k as int].0 == seen);
                            }
                            assert(is_alias_base(self@, variable, base@));
                        }
                        let index = self.source_index(variable, sources, &base);
                        let anchor = moved_place(sources, index, &base);
                        match origin {
                            ValueOrigin::Initial(root) => ValueOrigin::Place {
                                identity: Place::from_local(root),
                                anchor,
                                generation: ValueGeneration::Initial(root),
                            },
                            ValueOrigin::Opaque(root) => ValueOrigin::Place {
                                identity: Place::from_local(root),
                                anchor,
                                generation: ValueGeneration::Opaque(root),
                            },
                            ValueOrigin::Place { identity, anchor: _, generation } => ValueOrigin::Place {
                                identity,
                                anchor,
                                generation,
                            },
                            other => other,
                        }
                    } else {
                        origin
                    }
                },
                None => origin,
            };
            mapped.push(AbstractValue::new(moved, property));
            k += 1;
        }
        let rebound = ValueSet::from_values(mapped.as_slice());
        proof {
            assert(value_views(mapped@) =~= values@.map_values(
                |alternative: (OriginView, P)| rebound_alternative(self@, variable, alternative),
            ));
        }
        rebound
    }

    /// Returns the recorded value of a moved place with its origins remapped.
    fn moved_values(&self, variable: VariableId, sources: &Vec<(Place, VariableId)>, values: &ValueSet<P>) -> (moved:
        ValueSet<P>)
        requires
            sources_listed(self@, variable, sources@),
        ensures
            moved@ == moved_place_values(self@, variable, values@),
    {
        let alternatives = values.values();
        let mut mapped: Vec<AbstractValue<P>> = Vec::new();
        let mut k: usize = 0;
        while k < alternatives.len()
            invariant
                0 <= k <= alternatives@.len(),
                value_views(alternatives@) == values@,
                sources_listed(self@, variable, sources@),
                mapped@.len() == k,
                forall|kk: int| 0 <= kk < k ==> (#[trigger] mapped@[kk])@ == remapped_alternative(self@, variable, values@[kk]),
            decreases alternatives@.len() - k,
        {
            let origin = alternatives[k].origin();
            let property = alternatives[k].property().copy_property();
            proof {
                assert(values@[k as int] == alternatives@[k as int]@);
            }
            let remapped = match origin {
                ValueOrigin::Place { identity, anchor, generation } => match find_source(sources, &anchor) {
                    Some(index) => {
                        proof {
                            assert(is_detach_source(self@, variable, sources@[index as int].0@));
                            lemma_source_unique(self@, variable, anchor@, sources@[index as int].0@);
                            lemma_target_unique(self@, variable, sources@[index as int].0@, sources@[index as int].1);
                        }
                        let moved_anchor = moved_place(sources, index, &anchor);
                        ValueOrigin::Place { identity, anchor: moved_anchor, generation }
                    },
                    None => {
                        proof {
                            if has_source(self@, variable, anchor@) {
                                let source = choose|source: PlaceView|
                                    #[trigger] is_detach_source(self@, variable, source) && source.0 == anchor@.0
                                        && source.1.is_prefix_of(anchor@.1);
                                let i = choose|i: int| 0 <= i < sources@.len() && sources@[i].0@ == source;
                                assert(false);
                            }
                        }
                        ValueOrigin::Place { identity, anchor, generation }
                    },
                },
                other => other,
            };
            mapped.push(AbstractValue::new(remapped, property));
            k += 1;
        }
        let moved = ValueSet::from_values(mapped.as_slice());
        proof {
            assert(value_views(mapped@) =~= values@.map_values(
                |alternative: (OriginView, P)| remapped_alternative(self@, variable, alternative),
            ));
        }
        moved
    }
}

impl<P: ValueProperty> ValueFlowState<P> {
    /// Returns the new values of the aliases of `variable`.
    fn rebound_aliases(&self, variable: VariableId, sources: &Vec<(Place, VariableId)>) -> (rebound: Vec<
        (VariableId, ValueSet<P>),
    >)
        requires
            sources_listed(self@, variable, sources@),
        ensures
            forall|r: int|
                0 <= r < rebound@.len() ==> (#[trigger] rebound@[r]).0 != variable && self@.0.0.contains_key(rebound@[r].0)
                    && aliases_root(self@.0.0[rebound@[r].0], variable) && rebound@[r].1@ == rebound_alias_value(
                    self@,
                    variable,
                    self@.0.0[rebound@[r].0],
                ),
            forall|candidate: VariableId|
                #[trigger] self@.0.0.contains_key(candidate) && candidate != variable && aliases_root(
                    self@.0.0[candidate],
                    variable,
                ) ==> exists|r: int| 0 <= r < rebound@.len() && rebound@[r].0 == candidate,
    {
        let candidates = self.values.variables();
        let mut rebound: Vec<(VariableId, ValueSet<P>)> = Vec::new();
        let mut i: usize = 0;
        while i < candidates.len()
            invariant
                0 <= i <= candidates@.len(),
                candidates@.to_set() == self@.0.0.dom(),
                sources_listed(self@, variable, sources@),
                forall|r: int|
                    0 <= r < rebound@.len() ==> (#[trigger] rebound@[r]).0 != variable && self@.0.0.contains_key(rebound@[r].0)
                        && aliases_root(self@.0.0[rebound@[r].0], variable) && rebound@[r].1@ == rebound_alias_value(
                        self@,
                        variable,
                        self@.0.0[rebound@[r].0],
                    ),
                forall|candidate: VariableId|
                    #[trigger] candidates@.subrange(0, i as int).contains(candidate) && candidate != variable && aliases_root(
                        self@.0.0[candidate],
                        variable,
                    ) ==> exists|r: int| 0 <= r < rebound@.len() && rebound@[r].0 == candidate,
            decreases candidates@.len() - i,
        {
            let candidate = candidates[i];
            let ghost prev = rebound@;
            let ghost seen = candidates@.subrange(0, i as int);
            let ghost next = candidates@.subrange(0, i + 1);
            proof {
                assert(candidates@.contains(candidate));
                assert(self@.0.0.contains_key(candidate));
                assert forall|c: VariableId| next.contains(c) implies seen.contains(c) || c == candidate by {
                    let k = choose|k: int| 0 <= k < next.len() && next[k] == c;
                    if k < i {
                        assert(seen[k] == c);
                    }
                }
            }
            if candidate != variable {
                let values = self.values.variable(candidate);
                if any_rooted(&values, variable) {
                    let value = self.rebound_value(variable, sources, candidate, &values);
                    rebound.push((candidate, value));
                }
            }
            proof {
                assert forall|c: VariableId|
                    #[trigger] next.contains(c) && c != variable && aliases_root(self@.0.0[c], variable) implies exists|r: int|
                    0 <= r < rebound@.len() && rebound@[r].0 == c by {
                    if seen.contains(c) {
                        let r = choose|r: int| 0 <= r < prev.len() && prev[r].0 == c;
                        assert(rebound@[r] == prev[r]);
                    } else {
                        assert(rebound@[rebound@.len() - 1].0 == c);
                    }
                }
            }
            i += 1;
        }
        proof {
            assert(candidates@.subrange(0, candidates@.len() as int) =~= candidates@);
            assert forall|candidate: VariableId|
                #[trigger] self@.0.0.contains_key(candidate) && candidate != variable && aliases_root(self@.0.0[candidate], variable)
                    implies exists|r: int| 0 <= r < rebound@.len() && rebound@[r].0 == candidate by {
                assert(candidates@.to_set().contains(candidate));
                assert(candidates@.subrange(0, candidates@.len() as int).contains(candidate));
            }
        }
        rebound
    }

    /// Returns the recorded places of `variable` in order, each with the place it moves to and
    /// its moved value when it moves.
    fn rooted_places(&self, variable: VariableId, sources: &Vec<(Place, VariableId)>) -> (rooted: Vec<
        (Place, Option<(Place, ValueSet<P>)>),
    >)
        requires
            sources_listed(self@, variable, sources@),
        ensures
            lists_rooted(self@.1, variable, rooted@.map_values(|entry: (Place, Option<(Place, ValueSet<P>)>)| entry.0@)),
            forall|r: int|
                0 <= r < rooted@.len() ==> match (#[trigger] rooted@[r]).1 {
                    Some(movement) => moves(self@, variable, rooted@[r].0@) && movement.0@ == moved_anchor(
                        self@,
                        variable,
                        rooted@[r].0@,
                    ) && movement.1@ == moved_place_values(self@, variable, self@.1[rooted@[r].0@]),
                    None => !moves(self@, variable, rooted@[r].0@),
                },
    {
        let keys = self.places.places();
        let ghost key_views = place_views(keys@);
        let mut rooted: Vec<(Place, Option<(Place, ValueSet<P>)>)> = Vec::new();
        let ghost mut order: Seq<PlaceView> = Seq::empty();
        let mut k: usize = 0;
        while k < keys.len()
            invariant
                0 <= k <= keys@.len(),
                key_views == place_views(keys@),
                key_views.no_duplicates(),
                forall|i: int| 0 <= i < keys@.len() ==> self@.1.contains_key(#[trigger] key_views[i]),
                sources_listed(self@, variable, sources@),
                order == rooted@.map_values(|entry: (Place, Option<(Place, ValueSet<P>)>)| entry.0@),
                order.no_duplicates(),
                forall|key: PlaceView|
                    #[trigger] order.contains(key) <==> (key_views.subrange(0, k as int).contains(key) && key.0 == variable),
                forall|r: int|
                    0 <= r < rooted@.len() ==> match (#[trigger] rooted@[r]).1 {
                        Some(movement) => moves(self@, variable, rooted@[r].0@) && movement.0@ == moved_anchor(
                            self@,
                            variable,
                            rooted@[r].0@,
                        ) && movement.1@ == moved_place_values(self@, variable, self@.1[rooted@[r].0@]),
                        None => !moves(self@, variable, rooted@[r].0@),
                    },
            decreases keys@.len() - k,
        {
            let ghost seen = key_views.subrange(0, k as int);
            let ghost next = key_views.subrange(0, k + 1);
            let ghost key = key_views[k as int];
            proof {
                assert forall|x: PlaceView| next.contains(x) <==> (seen.contains(x) || x == key) by {
                    if next.contains(x) {
                        let j = choose|j: int| 0 <= j < next.len() && next[j] == x;
                        if j < k {
                            assert(seen[j] == x);
                        }
                    }
                    if seen.contains(x) {
                        let j = choose|j: int| 0 <= j < seen.len() && seen[j] == x;
                        assert(next[j] == x);
                    }
                    if x == key {
                        assert(next[k as int] == x);
                    }
                }
                if seen.contains(key) {
                    let j = choose|j: int| 0 <= j < seen.len() && seen[j] == key;
                    assert(key_views[j] == key_views[k as int]);
                }
            }
            if keys[k].local() == variable {
                let place = &keys[k];
                let movement = match self.places.get(place) {
                    Some(values) => match find_source(sources, place) {
                        Some(index) => {
                            proof {
                                assert(is_detach_source(self@, variable, sources@[index as int].0@));
                                lemma_source_unique(self@, variable, place@, sources@[index as int].0@);
                                lemma_target_unique(self@, variable, sources@[index as int].0@, sources@[index as int].1);
                            }
                            if sources[index].0.projection().len() < place.projection().len() {
                                let destination = moved_place(sources, index, place);
                                let moved = self.moved_values(variable, sources, values);
                                Some((destination, moved))
                            } else {
                                None
                            }
                        },
                        None => {
                            proof {
                                if has_source(self@, variable, place@) {
                                    let source = choose|source: PlaceView|
                                        #[trigger] is_detach_source(self@, variable, source) && source.0 == place@.0
                                            && source.1.is_prefix_of(place@.1);
                                    let i = choose|i: int| 0 <= i < sources@.len() && sources@[i].0@ == source;
                                    assert(false);
                                }
                            }
                            None
                        },
                    },
                    None => {
                        proof {
                            assert(self@.1.contains_key(key_views[k as int]));
                            assert(false);
                        }
                        None
                    },
                };
                let ghost prev = order;
                rooted.push((place.duplicate(), movement));
                proof {
                    order = order.push(key);
                    assert(order =~= rooted@.map_values(|entry: (Place, Option<(Place, ValueSet<P>)>)| entry.0@));
                    assert(!prev.contains(key));
                    assert forall|a: int, b: int| 0 <= a < order.len() && 0 <= b < order.len() && a != b implies order[a] != order[b] by {
                        if a < prev.len() && b < prev.len() {
                            assert(order[a] == prev[a] && order[b] == prev[b]);
                        } else if a < prev.len() {
                            assert(prev.contains(order[a]));
                        } else {
                            assert(prev.contains(order[b]));
                        }
                    }
                    assert forall|x: PlaceView| #[trigger] order.contains(x) <==> (next.contains(x) && x.0 == variable) by {
                        if order.contains(x) {
                            let j = choose|j: int| 0 <= j < order.len() && order[j] == x;
                            if j < prev.len() {
                                assert(prev[j] == x);
                            }
                        }
                        if prev.contains(x) {
                            let j = choose|j: int| 0 <= j < prev.len() && prev[j] == x;
                            assert(order[j] == x);
                        }
                        if x == key {
                            assert(order[prev.len() as int] == x);
                        }
                    }
                }
            } else {
                proof {
                    assert forall|x: PlaceView| #[trigger] order.contains(x) <==> (next.contains(x) && x.0 == variable) by {
                    }
                }
            }
            k += 1;
        }
        proof {
            assert(key_views.subrange(0, key_views.len() as int) =~= key_views);
            assert forall|x: PlaceView| #[trigger] order.contains(x) <==> (self@.1.contains_key(x) && x.0 == variable) by {
                if self@.1.contains_key(x) {
                    assert(key_views.contains(x));
                }
                if key_views.contains(x) {
                    let j = choose|j: int| 0 <= j < key_views.len() && key_views[j] == x;
                    assert(self@.1.contains_key(key_views[j]));
                }
            }
        }
        rooted
    }

    /// Detaches the aliases of `variable` before it is rebound.
    ///
    /// Aliases must be detached even when no place below the root was recorded: otherwise a saved
    /// root from an earlier loop iteration would resolve through the freshly rebound source root.
    fn detach_rebound_place_aliases(&mut self, variable: VariableId)
        ensures
            detaches(old(self)@, final(self)@, variable),
    {
        let ghost start = self@;
        let aliases = self.collect_aliases(variable);
        if aliases.len() == 0 {
            proof {
                if has_alias(start, variable) {
                    let (c, o) = choose|c: VariableId, o: OriginView| #[trigger] is_alias(start, variable, c, o);
                    let j = choose|j: int| 0 <= j < aliases@.len() && aliases@[j].0 == c && aliases@[j].1@ == o;
                    assert(false);
                }
            }
            return;
        }
        proof {
            assert(is_alias(start, variable, aliases@[0].0, aliases@[0].1@));
        }
        let sources = self.detach_sources(variable, &aliases);
        let rebound = self.rebound_aliases(variable, &sources);
        let rooted = self.rooted_places(variable, &sources);
        let ghost order = rooted@.map_values(|entry: (Place, Option<(Place, ValueSet<P>)>)| entry.0@);
        self.places.remove_rooted(variable);
        proof {
            assert(order.subrange(0, 0) =~= Seq::<PlaceView>::empty());
        }
        let mut r: usize = 0;
        while r < rooted.len()
            invariant
                0 <= r <= rooted@.len(),
                order == rooted@.map_values(|entry: (Place, Option<(Place, ValueSet<P>)>)| entry.0@),
                self.values@ == start.0,
                self.call_results@ == start.2,
                self.evaluated@ == start.3,
                self.places@ == detach_places(start, variable, order.subrange(0, r as int)),
                forall|i: int|
                    0 <= i < rooted@.len() ==> match (#[trigger] rooted@[i]).1 {
                        Some(movement) => moves(start, variable, rooted@[i].0@) && movement.0@ == moved_anchor(
                            start,
                            variable,
                            rooted@[i].0@,
                        ) && movement.1@ == moved_place_values(start, variable, start.1[rooted@[i].0@]),
                        None => !moves(start, variable, rooted@[i].0@),
                    },
            decreases rooted@.len() - r,
        {
            proof {
                let prefix = order.subrange(0, r + 1);
                assert(prefix.drop_last() =~= order.subrange(0, r as int));
                assert(prefix.last() == rooted@[r as int].0@);
            }
            match &rooted[r].1 {
                Some(movement) => {
                    let joined = match self.places.get(&movement.0) {
                        Some(existing) => {
                            let mut joined = existing.duplicate();
                            let _ = joined.join(&movement.1);
                            joined
                        },
                        None => movement.1.duplicate(),
                    };
                    self.places.insert(movement.0.duplicate(), joined);
                },
                None => {},
            }
            r += 1;
        }
        proof {
            assert(order.subrange(0, order.len() as int) =~= order);
            assert(self.values@.0 =~= Map::new(
                |candidate: VariableId| start.0.0.contains_key(candidate),
                |candidate: VariableId|
                    if exists|j: int| 0 <= j < 0 && rebound@[j].0 == candidate {
                        rebound_alias_value(start, variable, start.0.0[candidate])
                    } else {
                        start.0.0[candidate]
                    },
            ));
        }
        let mut r: usize = 0;
        while r < rebound.len()
            invariant
                0 <= r <= rebound@.len(),
                self.places@ == detach_places(start, variable, order),
                self.call_results@ == start.2,
                self.evaluated@ == start.3,
                self.values@.1 == start.0.1,
                self.values@.2 == start.0.2,
                forall|j: int|
                    0 <= j < rebound@.len() ==> (#[trigger] rebound@[j]).0 != variable && start.0.0.contains_key(rebound@[j].0)
                        && aliases_root(start.0.0[rebound@[j].0], variable) && rebound@[j].1@ == rebound_alias_value(
                        start,
                        variable,
                        start.0.0[rebound@[j].0],
                    ),
                self.values@.0 == Map::new(
                    |candidate: VariableId| start.0.0.contains_key(candidate),
                    |candidate: VariableId|
                        if exists|j: int| 0 <= j < r && rebound@[j].0 == candidate {
                            rebound_alias_value(start, variable, start.0.0[candidate])
                        } else {
                            start.0.0[candidate]
                        },
                ),
            decreases rebound@.len() - r,
        {
            let ghost before = self.values@.0;
            self.values.set(rebound[r].0, rebound[r].1.duplicate());
            proof {
                let expected = Map::new(
                    |candidate: VariableId| start.0.0.contains_key(candidate),
                    |candidate: VariableId|
                        if exists|j: int| 0 <= j < r + 1 && rebound@[j].0 == candidate {
                            rebound_alias_value(start, variable, start.0.0[candidate])
                        } else {
                            start.0.0[candidate]
                        },
                );
                assert forall|candidate: VariableId| #[trigger] expected.contains_key(candidate) implies self.values@.0[candidate]
                    == expected[candidate] by {
                    if candidate != rebound@[r as int].0 {
                        if exists|j: int| 0 <= j < r + 1 && rebound@[j].0 == candidate {
                            let j = choose|j: int| 0 <= j < r + 1 && rebound@[j].0 == candidate;
                            assert(j < r);
                        }
                    }
                }
                assert(self.values@.0 =~= expected);
            }
            r += 1;
        }
        proof {
            assert(self.values@.0 =~= detached_values(start, variable)) by {
                assert forall|candidate: VariableId| #[trigger] start.0.0.contains_key(candidate) implies self.values@.0[candidate]
                    == detached_values(start, variable)[candidate] by {
                    if candidate != variable && aliases_root(start.0.0[candidate], variable) {
                        let j = choose|j: int| 0 <= j < rebound@.len() && rebound@[j].0 == candidate;
                        assert(exists|j: int| 0 <= j < rebound@.len() && rebound@[j].0 == candidate);
                    } else {
                        if exists|j: int| 0 <= j < rebound@.len() && rebound@[j].0 == candidate {
                            let j = choose|j: int| 0 <= j < rebound@.len() && rebound@[j].0 == candidate;
                            assert(rebound@[j].0 != variable && aliases_root(start.0.0[rebound@[j].0], variable));
                        }
                    }
                }
            }
            assert(lists_rooted(start.1, variable, order) && self@.1 == detach_places(start, variable, order));
        }
    }
}

impl<P: ValueProperty> ValueFlowState<P> {
    /// Returns whether every alternative of `values` is a unique dynamic value.
    fn all_correlatable(&self, values: &ValueSet<P>) -> (correlatable: bool)
        ensures
            correlatable == forall|i: int| 0 <= i < values@.len() ==> origin_is_correlatable(self@.3.1, #[trigger] values@[i].0),
    {
        let alternatives = values.values();
        let mut i: usize = 0;
        while i < alternatives.len()
            invariant
                0 <= i <= alternatives@.len(),
                value_views(alternatives@) == values@,
                forall|k: int| 0 <= k < i ==> origin_is_correlatable(self@.3.1, #[trigger] values@[k].0),
            decreases alternatives@.len() - i,
        {
            let origin = alternatives[i].origin();
            proof {
                assert(values@[i as int] == alternatives@[i as int]@);
            }
            if !self.evaluated.origin_is_correlatable(&origin) {
                return false;
            }
            i += 1;
        }
        true
    }

    /// Binds `variable` to `value`.
    ///
    /// Rebinding a variable to the value it holds, when every alternative is a unique dynamic
    /// value, keeps its identity. Otherwise its aliases are detached first and its recorded places
    /// are dropped.
    pub fn set_variable(&mut self, variable: VariableId, value: ValueSet<P>)
        ensures
            binds(old(self)@, final(self)@, variable, value@),
    {
        let current = self.values.variable(variable);
        if current.same_set(&value) && self.all_correlatable(&value) {
            self.values.set(variable, value);
            return;
        }
        let ghost start = self@;
        self.detach_rebound_place_aliases(variable);
        let ghost mid = self@;
        self.places.remove_rooted(variable);
        self.values.set(variable, value);
        proof {
            assert(detaches(start, mid, variable) && self@ == (
                (mid.0.0.insert(variable, value@), mid.0.1, mid.0.2),
                without_root(mid.1, variable),
                mid.2,
                mid.3,
            ));
        }
    }

    /// Resets `variable` to an opaque value which is not eligible for definite-alias
    /// propagation.
    pub fn reset_variable(&mut self, variable: VariableId, property: P)
        ensures
            binds(old(self)@, final(self)@, variable, seq![(OriginView::Opaque(variable), property)]),
    {
        self.set_variable(variable, ValueSet::singleton(ValueOrigin::Opaque(variable), property));
    }

    /// Stores `value` at `place`.
    ///
    /// A projected place is stored at each of its canonical places; when there are several, each
    /// keeps what it held joined with `value`. A projected place without canonical places resets
    /// its root. A whole variable is bound to `value`.
    pub fn set_place(&mut self, place: Place, value: ValueSet<P>)
        ensures
            stores(old(self)@, final(self)@, place@, value@),
    {
        let ghost start = self@;
        let canonical = self.canonical_places(&place);
        if canonical.len() == 0 {
            if !value.is_empty() {
                let alternatives = value.values();
                let property = alternatives[0].property().copy_property();
                proof {
                    assert(value@[0] == alternatives@[0]@);
                }
                self.reset_variable(place.local(), property);
            }
            return;
        }
        if place.projection().len() == 0 {
            self.set_variable(place.local(), value);
            return;
        }
        let ghost all = place_views(canonical@);
        let count = canonical.len();
        let mut i: usize = 0;
        proof {
            assert(all.subrange(0, 0) =~= Seq::<PlaceView>::empty());
        }
        while i < canonical.len()
            invariant
                0 <= i <= canonical@.len(),
                count == canonical@.len(),
                all == place_views(canonical@),
                self@.0 == start.0,
                self@.2 == start.2,
                self@.3 == start.3,
                self@.1 == store_places(start, all.subrange(0, i as int), value@, count as nat),
            decreases canonical@.len() - i,
        {
            proof {
                let prefix = all.subrange(0, i + 1);
                assert(prefix.drop_last() =~= all.subrange(0, i as int));
                assert(prefix.last() == canonical@[i as int]@);
            }
            let stored = if count == 1 {
                value.duplicate()
            } else {
                let mut joined = self.value_for_place(&canonical[i]);
                let _ = joined.join(&value);
                joined
            };
            self.places.remove_overlapping(&canonical[i]);
            self.places.insert(canonical[i].duplicate(), stored);
            i += 1;
        }
        proof {
            assert(all.subrange(0, all.len() as int) =~= all);
        }
    }

    /// Stores a value produced at `site` at `place`.
    pub fn invalidate_place(&mut self, place: Place, site: ExprId, property: P)
        ensures
            stores(old(self)@, final(self)@, place@, seq![(OriginView::Expr(site), property)]),
    {
        self.set_place(place, ValueSet::singleton(ValueOrigin::Expr(site), property));
    }
}

impl<P: ValueProperty> ValueFlowState<P> {
    /// Binds `variable` to `values` assigned without a source expression. A memory variable
    /// (`in_memory`) turns computed values and call results into values of its own place.
    pub fn assign_variable_value(&mut self, variable: VariableId, in_memory: bool, values: ValueSet<P>)
        ensures
            binds(old(self)@, final(self)@, variable, stored_value(values@, variable, in_memory)),
    {
        let values = stored(values, variable, in_memory);
        self.set_variable(variable, values);
    }

    /// Returns the places copied into `target` from below each of `sources`.
    fn copied_places(&self, target: VariableId, generation: ValueGeneration, sources: &Vec<Place>, keys: &Vec<Place>) -> (copied:
        PlaceValues<P>)
        requires
            lists_all(self@.1, place_views(keys@)),
        ensures
            copied@ == copy_from_sources(self@, target, generation, place_views(sources@), place_views(keys@)),
    {
        let ghost order = place_views(keys@);
        let ghost all_sources = place_views(sources@);
        let mut copied = PlaceValues::new();
        let mut s_index: usize = 0;
        proof {
            assert(all_sources.subrange(0, 0) =~= Seq::<PlaceView>::empty());
        }
        while s_index < sources.len()
            invariant
                0 <= s_index <= sources@.len(),
                all_sources == place_views(sources@),
                order == place_views(keys@),
                lists_all(self@.1, order),
                copied@ == copy_from_sources(self@, target, generation, all_sources.subrange(0, s_index as int), order),
            decreases sources@.len() - s_index,
        {
            let source = &sources[s_index];
            let ghost base = copied@;
            let mut k: usize = 0;
            proof {
                let prefix = all_sources.subrange(0, s_index + 1);
                assert(prefix.drop_last() =~= all_sources.subrange(0, s_index as int));
                assert(prefix.last() == source@);
                assert(order.subrange(0, 0) =~= Seq::<PlaceView>::empty());
            }
            while k < keys.len()
                invariant
                    0 <= k <= keys@.len(),
                    order == place_views(keys@),
                    lists_all(self@.1, order),
                    copied@ == copy_from_source(self@, target, generation, source@, order.subrange(0, k as int), base),
                decreases keys@.len() - k,
            {
                let place = &keys[k];
                proof {
                    let prefix = order.subrange(0, k + 1);
                    assert(prefix.drop_last() =~= order.subrange(0, k as int));
                    assert(prefix.last() == place@);
                    assert(order.contains(place@));
                }
                if place.local() == source.local() && source.projection().len() < place.projection().len() && is_prefix(
                    source.projection(),
                    place.projection(),
                ) {
                    let rest = suffix_from(place.projection(), source.projection().len());
                    let destination = Place::from_local(target).with_projection_suffix(rest.as_slice());
                    proof {
                        assert(Seq::<ProjectionElem>::empty() + rest@ =~= rest@);
                    }
                    let origin = ValueOrigin::place(destination.duplicate(), generation);
                    let recorded = match self.places.get(place) {
                        Some(values) => values,
                        None => {
                            proof {
                                assert(false);
                            }
                            return copied;
                        },
                    };
                    let values = with_origin(recorded, &origin);
                    let joined = match copied.get(&destination) {
                        Some(existing) => {
                            let mut joined = existing.duplicate();
                            let _ = joined.join(&values);
                            joined
                        },
                        None => values,
                    };
                    copied.insert(destination, joined);
                }
                k += 1;
            }
            proof {
                assert(order.subrange(0, order.len() as int) =~= order);
            }
            s_index += 1;
        }
        proof {
            assert(all_sources.subrange(0, all_sources.len() as int) =~= all_sources);
        }
        copied
    }

    /// Binds `variable` to `values` read from the expression `source`.
    ///
    /// A memory variable (`in_memory`) turns computed values and call results into values of its
    /// own place. When the assignment deep-copies an aggregate into memory (`deep_copy`), the
    /// variable instead becomes a fresh aggregate of generation `source`, and the places recorded
    /// below the canonical places of `source_place`, the place that `source` denotes if any, are
    /// copied below the variable.
    pub fn assign_variable_from_expr(
        &mut self,
        variable: VariableId,
        in_memory: bool,
        deep_copy: bool,
        source: ExprId,
        source_place: Option<Place>,
        values: ValueSet<P>,
    )
        ensures
            !deep_copy ==> binds(old(self)@, final(self)@, variable, stored_value(values@, variable, in_memory)),
            deep_copy ==> deep_copies(
                old(self)@,
                final(self)@,
                variable,
                source,
                match source_place {
                    Some(place) => Some(place@),
                    None => None,
                },
                stored_value(values@, variable, in_memory),
            ),
    {
        let values = stored(values, variable, in_memory);
        if !deep_copy {
            self.set_variable(variable, values);
            return;
        }
        let ghost start = self@;
        let target = Place::from_local(variable);
        let generation = ValueGeneration::Expr(source);
        let keys = self.places.places();
        proof {
            assert(lists_all(start.1, place_views(keys@)));
        }
        let copied = match &source_place {
            Some(place) => {
                let sources = self.canonical_places(place);
                self.copied_places(variable, generation, &sources, &keys)
            },
            None => {
                let empty = PlaceValues::new();
                empty
            },
        };
        let ghost copied_view = copied@;
        let bound = with_origin(&values, &ValueOrigin::place(target, generation));
        self.set_variable(variable, bound);
        let ghost mid = self@;
        let mut i: usize = 0;
        proof {
            assert(mid.1 =~= mid.1.union_prefer_right(Map::new(
                |key: PlaceView| exists|j: int| 0 <= j < 0 && #[trigger] copied.order()[j] == key,
                |key: PlaceView| copied_view[key],
            )));
        }
        while i < copied.len()
            invariant
                0 <= i <= copied.order().len(),
                copied@ == copied_view,
                self@.0 == mid.0,
                self@.2 == mid.2,
                self@.3 == mid.3,
                self@.1 == mid.1.union_prefer_right(Map::new(
                    |key: PlaceView| exists|j: int| 0 <= j < i && #[trigger] copied.order()[j] == key,
                    |key: PlaceView| copied_view[key],
                )),
            decreases copied.order().len() - i,
        {
            let place = copied.place_at(i);
            let values = copied.values_at(i);
            self.places.insert(place.duplicate(), values.duplicate());
            proof {
                let next = Map::new(
                    |key: PlaceView| exists|j: int| 0 <= j < i + 1 && #[trigger] copied.order()[j] == key,
                    |key: PlaceView| copied_view[key],
                );
                assert forall|key: PlaceView| #[trigger] self@.1.contains_key(key) == mid.1.union_prefer_right(next).contains_key(key) by {
                    if exists|j: int| 0 <= j < i + 1 && #[trigger] copied.order()[j] == key {
                        let j = choose|j: int| 0 <= j < i + 1 && #[trigger] copied.order()[j] == key;
                        if j < i {
                            assert(exists|jj: int| 0 <= jj < i && #[trigger] copied.order()[jj] == key);
                        }
                    }
                }
                assert(self@.1 =~= mid.1.union_prefer_right(next));
            }
            i += 1;
        }
        proof {
            use_type_invariant(&copied);
            let all = Map::new(
                |key: PlaceView| exists|j: int| 0 <= j < copied.order().len() && #[trigger] copied.order()[j] == key,
                |key: PlaceView| copied_view[key],
            );
            assert forall|key: PlaceView| #[trigger] all.contains_key(key) == copied_view.contains_key(key) by {
                if copied_view.contains_key(key) {
                    let j = choose|j: int| 0 <= j < place_entries(copied.entries@).len() && #[trigger] place_entries(copied.entries@)[j].0 == key;
                    assert(copied.order()[j] == key);
                }
                if all.contains_key(key) {
                    let j = choose|j: int| 0 <= j < copied.order().len() && #[trigger] copied.order()[j] == key;
                    lemma_keyed_view_at(place_entries(copied.entries@), j);
                }
            }
            assert(all =~= copied_view);
            let order = place_views(keys@);
            let generation_view = ValueGeneration::Expr(source);
            let target_view = (variable, Seq::<ProjectionElem>::empty());
            assert(lists_all(start.1, order));
            assert(binds(
                start,
                mid,
                variable,
                with_origin_of(values@, OriginView::Place { identity: target_view, anchor: target_view, generation: generation_view }),
            ));
        }
    }

    /// Invalidates `place`, the place assigned by a mutation at `site`: a projection of state is
    /// conservatively treated as a mutation of its whole root (`state_backed`); any other place
    /// stores a value produced at `site`.
    pub fn invalidate_lvalue(&mut self, place: Place, state_backed: bool, site: ExprId, property: P)
        ensures
            place@.1.len() > 0 && state_backed ==> final(self)@ == (
                (
                    old(self)@.0.0.insert(place@.0, seq![(OriginView::Expr(site), property)]),
                    old(self)@.0.1,
                    old(self)@.0.2,
                ),
                without_root(old(self)@.1, place@.0),
                old(self)@.2,
                old(self)@.3,
            ),
            !(place@.1.len() > 0 && state_backed) ==> stores(
                old(self)@,
                final(self)@,
                place@,
                seq![(OriginView::Expr(site), property)],
            ),
    {
        if place.projection().len() > 0 && state_backed {
            self.invalidate_variable(place.local(), site, property);
            return;
        }
        self.invalidate_place(place, site, property);
    }

    /// Assigns `values`, computed without a source expression, to `place`: a projection of state
    /// invalidates its whole root at `site` with `invalidated_property`; another projected place
    /// stores the values; a whole variable is bound to them, in memory (`in_memory`) as its own
    /// place values.
    pub fn assign_place(
        &mut self,
        place: Place,
        state_backed: bool,
        in_memory: bool,
        site: ExprId,
        invalidated_property: P,
        values: ValueSet<P>,
    )
        ensures
            place@.1.len() > 0 && state_backed ==> final(self)@ == (
                (
                    old(self)@.0.0.insert(place@.0, seq![(OriginView::Expr(site), invalidated_property)]),
                    old(self)@.0.1,
                    old(self)@.0.2,
                ),
                without_root(old(self)@.1, place@.0),
                old(self)@.2,
                old(self)@.3,
            ),
            place@.1.len() > 0 && !state_backed ==> stores(old(self)@, final(self)@, place@, values@),
            place@.1.len() == 0 ==> binds(
                old(self)@,
                final(self)@,
                place@.0,
                stored_value(values@, place@.0, in_memory),
            ),
    {
        if place.projection().len() > 0 {
            if state_backed {
                self.invalidate_variable(place.local(), site, invalidated_property);
            } else {
                self.set_place(place, values);
            }
        } else {
            self.assign_variable_value(place.local(), in_memory, values);
        }
    }
}

impl<P: ValueProperty> ValueFlowState<P> {
    /// Binds the arguments `args` of a `try` success or catch clause of the call `try_call`.
    ///
    /// On success each argument takes the call's output at its position when the call is
    /// summarized. Every other argument is reset to an opaque value with `unknown_property`.
    pub fn bind_try_clause(&mut self, try_call: ExprId, args: &[VariableId], is_success: bool, unknown_property: P)
        ensures
            binds_each(
                old(self)@,
                final(self)@,
                args@,
                Seq::new(
                    args@.len(),
                    |index: int| try_binding(old(self)@, try_call, args@, is_success, unknown_property, index),
                ),
            ),
    {
        let ghost start = self@;
        let ghost expected = Seq::new(
            args@.len(),
            |index: int| try_binding(start, try_call, args@, is_success, unknown_property, index),
        );
        let mut bindings: Vec<ValueSet<P>> = Vec::new();
        let mut index: usize = 0;
        while index < args.len()
            invariant
                0 <= index <= args@.len(),
                self@ == start,
                bindings@.len() == index,
                expected == Seq::new(
                    args@.len(),
                    |index: int| try_binding(start, try_call, args@, is_success, unknown_property, index),
                ),
                forall|k: int| 0 <= k < index ==> (#[trigger] bindings@[k])@ == expected[k],
            decreases args@.len() - index,
        {
            let value = if is_success {
                match self.call_result(try_call, index) {
                    Some(output) => output.duplicate(),
                    None => ValueSet::singleton(ValueOrigin::Opaque(args[index]), unknown_property.copy_property()),
                }
            } else {
                ValueSet::singleton(ValueOrigin::Opaque(args[index]), unknown_property.copy_property())
            };
            bindings.push(value);
            index += 1;
        }
        let mut index: usize = 0;
        proof {
            assert(args@.subrange(0, 0) =~= Seq::<VariableId>::empty());
            assert(expected.subrange(0, 0) =~= Seq::<Seq<(OriginView, P)>>::empty());
        }
        while index < args.len()
            invariant
                0 <= index <= args@.len(),
                bindings@.len() == args@.len(),
                expected.len() == args@.len(),
                forall|k: int| 0 <= k < args@.len() ==> (#[trigger] bindings@[k])@ == expected[k],
                binds_each(start, self@, args@.subrange(0, index as int), expected.subrange(0, index as int)),
            decreases args@.len() - index,
        {
            let ghost mid = self@;
            self.set_variable(args[index], bindings[index].duplicate());
            proof {
                assert(expected.len() == args@.len());
                assert(index < args@.len());
                let variables = args@.subrange(0, index + 1);
                let values = expected.subrange(0, index + 1);
                assert(values.len() == index + 1);
                assert(variables.drop_last() =~= args@.subrange(0, index as int));
                assert(values.drop_last() =~= expected.subrange(0, index as int));
                assert(values.last() == bindings@[index as int]@);
                assert(variables.last() == args@[index as int]);
                assert(binds_each(start, mid, variables.drop_last(), values.drop_last()));
                assert(binds(mid, self@, variables.last(), values.last()));
                assert(binds_each(start, self@, variables, values));
            }
            index += 1;
        }
        proof {
            assert(args@.subrange(0, args@.len() as int) =~= args@);
            assert(expected.subrange(0, args@.len() as int) =~= expected);
        }
    }

    /// Restores the values and recorded places of `variables` from `caller`.
    fn restore_activation(&mut self, variables: &[VariableId], caller: &Self)
        ensures
            final(self)@ == (
                (restored_values(old(self)@.0.0, caller@.0.0, variables@), old(self)@.0.1, old(self)@.0.2),
                restored_places(old(self)@.1, caller@.1, variables@),
                old(self)@.2,
                old(self)@.3,
            ),
    {
        let ghost start = self@;
        let mut i: usize = 0;
        while i < variables.len()
            invariant
                0 <= i <= variables@.len(),
                self@.1 == start.1,
                self@.2 == start.2,
                self@.3 == start.3,
                self@.0.1 == start.0.1,
                self@.0.2 == start.0.2,
                self@.0.0 == restored_values(start.0.0, caller@.0.0, variables@.subrange(0, i as int)),
            decreases variables@.len() - i,
        {
            self.values.restore(variables[i], &caller.values);
            proof {
                let next = variables@.subrange(0, i + 1);
                let seen = variables@.subrange(0, i as int);
                assert forall|v: VariableId| next.contains(v) <==> (seen.contains(v) || v == variables@[i as int]) by {
                    if next.contains(v) {
                        let k = choose|k: int| 0 <= k < next.len() && next[k] == v;
                        if k < i {
                            assert(seen[k] == v);
                        }
                    }
                    if seen.contains(v) {
                        let k = choose|k: int| 0 <= k < seen.len() && seen[k] == v;
                        assert(next[k] == v);
                    }
                    if v == variables@[i as int] {
                        assert(next[i as int] == v);
                    }
                }
                assert(self@.0.0 =~= restored_values(start.0.0, caller@.0.0, next));
            }
            i += 1;
        }
        proof {
            assert(variables@.subrange(0, variables@.len() as int) =~= variables@);
        }
        self.places.remove_rooted_in(variables);
        let ghost removed = self@.1;
        let keys = caller.places.places();
        let ghost key_views = place_views(keys@);
        let mut k: usize = 0;
        proof {
            assert(key_views.subrange(0, 0) =~= Seq::<PlaceView>::empty());
            assert(self@.1 =~= Map::new(
                |key: PlaceView| removed.contains_key(key) || (key_views.subrange(0, 0).contains(key) && variables@.contains(key.0)),
                |key: PlaceView|
                    if key_views.subrange(0, 0).contains(key) && variables@.contains(key.0) {
                        caller@.1[key]
                    } else {
                        removed[key]
                    },
            ));
        }
        while k < keys.len()
            invariant
                0 <= k <= keys@.len(),
                key_views == place_views(keys@),
                forall|i: int| 0 <= i < keys@.len() ==> caller@.1.contains_key(#[trigger] key_views[i]),
                forall|key: PlaceView| #[trigger] caller@.1.contains_key(key) ==> key_views.contains(key),
                removed == Map::new(
                    |key: PlaceView| start.1.contains_key(key) && !variables@.contains(key.0),
                    |key: PlaceView| start.1[key],
                ),
                self@.0.0 == restored_values(start.0.0, caller@.0.0, variables@),
                self@.0.1 == start.0.1,
                self@.0.2 == start.0.2,
                self@.2 == start.2,
                self@.3 == start.3,
                self@.1 == Map::new(
                    |key: PlaceView| removed.contains_key(key) || (key_views.subrange(0, k as int).contains(key) && variables@.contains(key.0)),
                    |key: PlaceView|
                        if key_views.subrange(0, k as int).contains(key) && variables@.contains(key.0) {
                            caller@.1[key]
                        } else {
                            removed[key]
                        },
                ),
            decreases keys@.len() - k,
        {
            let ghost seen = key_views.subrange(0, k as int);
            let ghost next = key_views.subrange(0, k + 1);
            let ghost key = key_views[k as int];
            proof {
                assert forall|x: PlaceView| next.contains(x) <==> (seen.contains(x) || x == key) by {
                    if next.contains(x) {
                        let j = choose|j: int| 0 <= j < next.len() && next[j] == x;
                        if j < k {
                            assert(seen[j] == x);
                        }
                    }
                    if seen.contains(x) {
                        let j = choose|j: int| 0 <= j < seen.len() && seen[j] == x;
                        assert(next[j] == x);
                    }
                    if x == key {
                        assert(next[k as int] == x);
                    }
                }
                assert(caller@.1.contains_key(key));
            }
            if contains_variable(variables, keys[k].local()) {
                match caller.places.get(&keys[k]) {
                    Some(values) => {
                        self.places.insert(keys[k].duplicate(), values.duplicate());
                    },
                    None => {},
                }
            }
            proof {
                let expected = Map::new(
                    |x: PlaceView| removed.contains_key(x) || (next.contains(x) && variables@.contains(x.0)),
                    |x: PlaceView|
                        if next.contains(x) && variables@.contains(x.0) {
                            caller@.1[x]
                        } else {
                            removed[x]
                        },
                );
                assert(self@.1 =~= expected);
            }
            k += 1;
        }
        proof {
            assert(key_views.subrange(0, key_views.len() as int) =~= key_views);
            assert(self@.1 =~= restored_places(start.1, caller@.1, variables@)) by {
                assert forall|x: PlaceView| #[trigger] self@.1.contains_key(x) == restored_places(start.1, caller@.1, variables@).contains_key(x) by {
                    if variables@.contains(x.0) && caller@.1.contains_key(x) {
                        assert(key_views.contains(x));
                    }
                    if key_views.contains(x) {
                        let j = choose|j: int| 0 <= j < key_views.len() && key_views[j] == x;
                        assert(caller@.1.contains_key(key_views[j]));
                    }
                }
            }
        }
    }

    /// Restores the values owned by a completed modifier activation, whose variables are
    /// `variables`, from the state `caller` had before it.
    pub fn return_from_modifier(&mut self, variables: &[VariableId], caller: &Self)
        ensures
            final(self)@ == (
                (restored_values(old(self)@.0.0, caller@.0.0, variables@), old(self)@.0.1, old(self)@.0.2),
                restored_places(old(self)@.1, caller@.1, variables@),
                old(self)@.2,
                old(self)@.3,
            ),
    {
        self.restore_activation(variables, caller);
    }

    /// Restores the caller's values of the activation's `variables` after an internal call and
    /// records the call's outputs: output `index` is the value of return variable `index`; for a
    /// memory return, values of the activation become output `index` of `call`.
    pub fn return_from_call(
        &mut self,
        call: ExprId,
        variables: &[VariableId],
        return_variables: &[(VariableId, bool)],
        caller: &Self,
    )
        ensures
            final(self)@ == (
                (restored_values(old(self)@.0.0, caller@.0.0, variables@), old(self)@.0.1, old(self)@.0.2),
                restored_places(old(self)@.1, caller@.1, variables@),
                old(self)@.2.insert(
                    call,
                    Seq::new(
                        return_variables@.len(),
                        |index: int| returned_value(old(self)@, call, index as usize, return_variables@[index], variables@),
                    ),
                ),
                old(self)@.3,
            ),
    {
        let ghost start = self@;
        let mut outputs: Vec<ValueSet<P>> = Vec::new();
        let mut index: usize = 0;
        while index < return_variables.len()
            invariant
                0 <= index <= return_variables@.len(),
                self@ == start,
                outputs@.len() == index,
                forall|k: int|
                    0 <= k < index ==> (#[trigger] outputs@[k])@ == returned_value(start, call, k as usize, return_variables@[k], variables@),
            decreases return_variables@.len() - index,
        {
            let (variable, in_memory) = return_variables[index];
            let values = self.variable(variable);
            if !in_memory {
                outputs.push(values);
            } else {
                let alternatives = values.values();
                let mut mapped: Vec<AbstractValue<P>> = Vec::new();
                let mut k: usize = 0;
                while k < alternatives.len()
                    invariant
                        0 <= k <= alternatives@.len(),
                        value_views(alternatives@) == values@,
                        mapped@.len() == k,
                        forall|kk: int|
                            0 <= kk < k ==> (#[trigger] mapped@[kk])@ == returned_alternative(values@[kk], call, index, variables@),
                    decreases alternatives@.len() - k,
                {
                    let origin = alternatives[k].origin();
                    proof {
                        assert(values@[k as int] == alternatives@[k as int]@);
                    }
                    let local = match &origin {
                        ValueOrigin::Initial(root) => contains_variable(variables, *root),
                        ValueOrigin::Opaque(root) => contains_variable(variables, *root),
                        ValueOrigin::Place { anchor, .. } => contains_variable(variables, anchor.local()),
                        _ => true,
                    };
                    let returned = if local {
                        ValueOrigin::CallResult(call, index)
                    } else {
                        origin
                    };
                    mapped.push(AbstractValue::new(returned, alternatives[k].property().copy_property()));
                    k += 1;
                }
                let value = ValueSet::from_values(mapped.as_slice());
                proof {
                    assert(value_views(mapped@) =~= values@.map_values(
                        |alternative: (OriginView, P)| returned_alternative(alternative, call, index, variables@),
                    ));
                }
                outputs.push(value);
            }
            index += 1;
        }
        let ghost output_views = views(outputs@);
        proof {
            assert(output_views =~= Seq::new(
                return_variables@.len(),
                |index: int| returned_value(start, call, index as usize, return_variables@[index], variables@),
            ));
        }
        self.restore_activation(variables, caller);
        self.call_results.set_outputs(call, outputs);
    }

    /// Returns every recorded value observed by reading `place`.
    ///
    /// The result is the value of `place` joined with the recorded values of the places below its
    /// roots: the bases of a whole variable's value, which include aggregates it aliases, or the
    /// canonical places of a projected place. This lets analyses notice values escaping through a
    /// struct return, ABI encoding or an aggregate call argument. The recorded places are read in
    /// the order in which they were stored.
    pub fn values_read_from_place(&self, place: &Place) -> (values: ValueSet<P>)
        ensures
            exists|order: Seq<PlaceView>| lists_all(self@.1, order) && values@ == #[trigger] read_values(self@, place@, order),
    {
        let mut values = self.value_for_place(place);
        let ghost base = values@;
        let mut roots: Vec<Place> = Vec::new();
        if place.projection().len() == 0 {
            let alternatives = values.values();
            let mut i: usize = 0;
            while i < alternatives.len()
                invariant
                    0 <= i <= alternatives@.len(),
                    value_views(alternatives@) == base,
                    base == place_value_of(self@, place@),
                    place@.1.len() == 0,
                    forall|r: int| 0 <= r < roots@.len() ==> is_read_root(self@, place@, #[trigger] place_views(roots@)[r]),
                    forall|j: int|
                        0 <= j < i && origin_base(#[trigger] base[j].0) is Some ==> place_views(roots@).contains(
                            origin_base(base[j].0)->0,
                        ),
                decreases alternatives@.len() - i,
            {
                let origin = alternatives[i].origin();
                proof {
                    assert(base[i as int] == alternatives@[i as int]@);
                }
                let ghost before = place_views(roots@);
                match base_of(&origin) {
                    Some(root) => {
                        if !contains_place(&roots, &root) {
                            roots.push(root);
                            proof {
                                assert(place_views(roots@) =~= before.push(origin_base(base[i as int].0)->0));
                                assert forall|j: int|
                                    0 <= j < i && origin_base(#[trigger] base[j].0) is Some implies place_views(roots@).contains(
                                        origin_base(base[j].0)->0,
                                    ) by {
                                    let r = origin_base(base[j].0)->0;
                                    let q = choose|q: int| 0 <= q < before.len() && before[q] == r;
                                    assert(place_views(roots@)[q] == r);
                                }
                                assert(place_views(roots@)[before.len() as int] == origin_base(base[i as int].0)->0);
                            }
                        }
                    },
                    None => {},
                }
                i += 1;
            }
            proof {
                assert forall|root: PlaceView| #[trigger] is_read_root(self@, place@, root) implies place_views(roots@).contains(root) by {
                    let j = choose|j: int| 0 <= j < base.len() && origin_base(#[trigger] base[j].0) == Some(root);
                    assert(origin_base(base[j].0) is Some);
                }
            }
        } else {
            roots = self.canonical_places(place);
            proof {
                assert forall|r: int| 0 <= r < roots@.len() implies is_read_root(self@, place@, #[trigger] place_views(roots@)[r]) by {
                    assert(canonical_places_of(self@, place@)[r] == place_views(roots@)[r]);
                }
            }
        }
        let keys = self.places.places();
        let ghost order = place_views(keys@);
        let mut k: usize = 0;
        proof {
            assert(order.subrange(0, 0) =~= Seq::<PlaceView>::empty());
        }
        while k < keys.len()
            invariant
                0 <= k <= keys@.len(),
                order == place_views(keys@),
                forall|i: int| 0 <= i < keys@.len() ==> self@.1.contains_key(#[trigger] order[i]),
                forall|r: int| 0 <= r < roots@.len() ==> is_read_root(self@, place@, #[trigger] place_views(roots@)[r]),
                forall|root: PlaceView| #[trigger] is_read_root(self@, place@, root) ==> place_views(roots@).contains(root),
                values@ == read_values(self@, place@, order.subrange(0, k as int)),
            decreases keys@.len() - k,
        {
            let candidate = &keys[k];
            proof {
                let prefix = order.subrange(0, k + 1);
                assert(prefix.drop_last() =~= order.subrange(0, k as int));
                assert(prefix.last() == candidate@);
            }
            let mut below = false;
            let mut r: usize = 0;
            while r < roots.len()
                invariant
                    0 <= r <= roots@.len(),
                    below == exists|q: int| 0 <= q < r && is_strictly_below(candidate@, #[trigger] place_views(roots@)[q]),
                decreases roots@.len() - r,
            {
                let root = &roots[r];
                if candidate.local() == root.local() && is_prefix(root.projection(), candidate.projection())
                    && !candidate.same_place(root) {
                    below = true;
                    proof {
                        assert(place_views(roots@)[r as int] == root@);
                        assert(is_strictly_below(candidate@, place_views(roots@)[r as int]));
                    }
                }
                proof {
                    if below && !is_strictly_below(candidate@, place_views(roots@)[r as int]) {
                        let q = choose|q: int| 0 <= q < r && is_strictly_below(candidate@, #[trigger] place_views(roots@)[q]);
                    }
                    if !below {
                        assert(place_views(roots@)[r as int] == root@);
                    }
                }
                r += 1;
            }
            proof {
                if below {
                    let q = choose|q: int| 0 <= q < roots@.len() && is_strictly_below(candidate@, #[trigger] place_views(roots@)[q]);
                    assert(is_read_root(self@, place@, place_views(roots@)[q]));
                    assert(read_below(self@, place@, candidate@));
                } else if read_below(self@, place@, candidate@) {
                    let root = choose|root: PlaceView| #[trigger] is_read_root(self@, place@, root) && is_strictly_below(candidate@, root);
                    let q = choose|q: int| 0 <= q < roots@.len() && place_views(roots@)[q] == root;
                    assert(is_strictly_below(candidate@, place_views(roots@)[q]));
                    assert(false);
                }
            }
            if below {
                match self.places.get(candidate) {
                    Some(recorded) => {
                        let _ = values.join(recorded);
                    },
                    None => {},
                }
            }
            k += 1;
        }
        proof {
            assert(order.subrange(0, order.len() as int) =~= order);
            assert(lists_all(self@.1, order));
        }
        values
    }
}

impl<P: ValueProperty> ValueFlowState<P> {
    /// Refines every alternative of the value of `variable` by `update`.
    fn refine_own<F: Fn(&P) -> P>(&mut self, variable: VariableId, update: &F)
        requires
            forall|property: &P| update.requires((property,)),
        ensures
            exists|refined: Seq<(OriginView, P)>|
                #[trigger] refined_by(
                    variable_value(old(self)@.0, variable),
                    refined,
                    all_selected(variable_value(old(self)@.0, variable).len()),
                    *update,
                ) && final(self)@ == (
                    (old(self)@.0.0.insert(variable, refined), old(self)@.0.1, old(self)@.0.2),
                    old(self)@.1,
                    old(self)@.2,
                    old(self)@.3,
                ),
    {
        let mut refined = self.values.variable(variable);
        refined.refine_all(update);
        let ghost refined_view = refined@;
        self.values.set(variable, refined);
        proof {
            assert(refined_by(
                variable_value(old(self)@.0, variable),
                refined_view,
                all_selected(variable_value(old(self)@.0, variable).len()),
                *update,
            ));
        }
    }

    /// Refines by `update` the value of `variable`, whose alternatives are `origins`, through its
    /// definite aliases.
    ///
    /// Without a refinable source only the variable's own alternatives are refined. Otherwise
    /// every variable and recorded place that definitely aliases the source is refined, and a
    /// place source without a recorded definite alias stores the refined source alternatives.
    pub fn refine_variable_aliases<F: Fn(&P) -> P>(&mut self, variable: VariableId, origins: &ValueSet<P>, update: &F)
        requires
            forall|property: &P| update.requires((property,)),
        ensures
            refines_variable(old(self)@, final(self)@, variable, origins@, *update),
    {
        let ghost start = self@;
        let source = match origins.common_source() {
            Some(origin) => origin,
            None => {
                self.refine_own(variable, update);
                return;
            },
        };
        let refinable = match &source {
            ValueOrigin::Initial(_) => self.evaluated.origin_is_correlatable(&source),
            ValueOrigin::Place { .. } => self.evaluated.origin_is_correlatable(&source),
            _ => false,
        };
        if !refinable {
            self.refine_own(variable, update);
            return;
        }
        self.values.update_definite_aliases_by(origins, update);
        match origins.common_origin() {
            Some(ValueOrigin::Place { anchor, .. }) => {
                let present = self.places.refine_aliases(&source, &anchor, update);
                let ghost mid = self@;
                proof {
                    assert(refines_aliases_of(start, mid, origins@, *update));
                }
                if !present {
                    let mut refined = origins.duplicate();
                    refined.refine_source(&source, update);
                    let ghost refined_view = refined@;
                    self.set_place(anchor, refined);
                    proof {
                        assert(refined_by(origins@, refined_view, source_selection(origins@, source@), *update));
                    }
                }
            },
            _ => {
                let _ = self.places.refine_aliases(&source, &Place::from_local(variable), update);
                proof {
                    assert(refines_aliases_of(start, self@, origins@, *update));
                }
            },
        }
    }

    /// Refines by `update` the value at the canonical place `place`, whose alternatives are
    /// `origins`, through its definite aliases.
    fn refine_projected_aliases<F: Fn(&P) -> P>(&mut self, place: &Place, origins: &ValueSet<P>, update: &F)
        requires
            forall|property: &P| update.requires((property,)),
        ensures
            refines_projected(old(self)@, final(self)@, place@, origins@, *update),
    {
        let ghost start = self@;
        let source = match origins.common_source() {
            Some(origin) => origin,
            None => {
                let mut refined = origins.duplicate();
                refined.refine_all(update);
                let ghost refined_view = refined@;
                self.set_place(place.duplicate(), refined);
                proof {
                    assert(refined_by(origins@, refined_view, all_selected(origins@.len()), *update));
                }
                return;
            },
        };
        let refinable = match &source {
            ValueOrigin::Initial(_) => self.evaluated.origin_is_correlatable(&source),
            ValueOrigin::Place { .. } => self.evaluated.origin_is_correlatable(&source),
            _ => false,
        };
        if !refinable {
            let mut refined = origins.duplicate();
            refined.refine_all(update);
            let ghost refined_view = refined@;
            self.set_place(place.duplicate(), refined);
            proof {
                assert(refined_by(origins@, refined_view, all_selected(origins@.len()), *update));
            }
            return;
        }
        self.values.update_definite_aliases_by(origins, update);
        let present = self.places.refine_aliases(&source, place, update);
        let ghost mid = self@;
        proof {
            assert(refines_aliases_of(start, mid, origins@, *update));
        }
        if !present {
            let mut refined = origins.duplicate();
            refined.refine_source(&source, update);
            let ghost refined_view = refined@;
            self.set_place(place.duplicate(), refined);
            proof {
                assert(refined_by(origins@, refined_view, source_selection(origins@, source@), *update));
            }
        }
    }

    /// Refines the value of an exact whole-variable or field place by `update` and returns the
    /// alternatives it held.
    ///
    /// A whole variable also refines its definite aliases. A field path refines through its one
    /// canonical place. A projection of state (`state_backed`), and a place whose runtime
    /// identity is not stable, such as an indexed or sliced one or one with several canonical
    /// places, is left alone and gives `None`.
    pub fn refine_place<F: Fn(&P) -> P>(&mut self, place: &Place, state_backed: bool, update: F) -> (origins: Option<
        ValueSet<P>,
    >)
        requires
            forall|property: &P| update.requires((property,)),
        ensures
            place@.1.len() > 0 && state_backed ==> origins is None && final(self)@ == old(self)@,
            place@.1.len() == 0 ==> origins is Some && origins->0@ == variable_value(old(self)@.0, place@.0)
                && refines_variable(old(self)@, final(self)@, place@.0, origins->0@, update),
            place@.1.len() > 0 && !state_backed ==> if canonical_places_of(old(self)@, place@).len() == 1 {
                origins is Some && origins->0@ == place_value_of(old(self)@, canonical_places_of(old(self)@, place@)[0])
                    && refines_projected(
                    old(self)@,
                    final(self)@,
                    canonical_places_of(old(self)@, place@)[0],
                    origins->0@,
                    update,
                )
            } else {
                origins is None && final(self)@ == old(self)@
            },
    {
        if place.projection().len() > 0 && state_backed {
            return None;
        }
        if place.projection().len() == 0 {
            let origins = self.variable(place.local());
            self.refine_variable_aliases(place.local(), &origins, &update);
            return Some(origins);
        }
        let canonical = self.canonical_places(place);
        if canonical.len() != 1 {
            return None;
        }
        let origins = self.value_for_place(&canonical[0]);
        self.refine_projected_aliases(&canonical[0], &origins, &update);
        Some(origins)
    }
}

impl<P: ValueProperty> ValueFlowState<P> {
    /// Refines by `update` the alternatives of every variable value that are correlated with
    /// `origin`.
    fn refine_correlated_variables<F: Fn(&P) -> P>(&mut self, origin: &ValueOrigin, update: &F)
        requires
            forall|property: &P| update.requires((property,)),
        ensures
            refines_correlated_values(old(self)@.0.0, final(self)@.0.0, origin@, old(self)@.3.1, *update),
            final(self)@.0.1 == old(self)@.0.1,
            final(self)@.0.2 == old(self)@.0.2,
            final(self)@.1 == old(self)@.1,
            final(self)@.2 == old(self)@.2,
            final(self)@.3 == old(self)@.3,
    {
        let ghost start = self@;
        let variables = self.values.variables();
        let mut i: usize = 0;
        while i < variables.len()
            invariant
                0 <= i <= variables@.len(),
                variables@.no_duplicates(),
                variables@.to_set() == start.0.0.dom(),
                forall|property: &P| update.requires((property,)),
                self@.0.1 == start.0.1,
                self@.0.2 == start.0.2,
                self@.1 == start.1,
                self@.2 == start.2,
                self@.3 == start.3,
                self@.0.0.dom() == start.0.0.dom(),
                forall|key: VariableId|
                    #[trigger] start.0.0.contains_key(key) ==> if variables@.subrange(0, i as int).contains(key) {
                        refined_by(
                            start.0.0[key],
                            self@.0.0[key],
                            correlated_selection(start.0.0[key], origin@, start.3.1),
                            *update,
                        )
                    } else {
                        self@.0.0[key] == start.0.0[key]
                    },
            decreases variables@.len() - i,
        {
            let variable = variables[i];
            let ghost seen = variables@.subrange(0, i as int);
            let ghost next = variables@.subrange(0, i + 1);
            proof {
                assert forall|x: VariableId| next.contains(x) <==> (seen.contains(x) || x == variable) by {
                    if next.contains(x) {
                        let j = choose|j: int| 0 <= j < next.len() && next[j] == x;
                        if j < i {
                            assert(seen[j] == x);
                        }
                    }
                    if seen.contains(x) {
                        let j = choose|j: int| 0 <= j < seen.len() && seen[j] == x;
                        assert(next[j] == x);
                    }
                    if x == variable {
                        assert(next[i as int] == x);
                    }
                }
                if seen.contains(variable) {
                    let j = choose|j: int| 0 <= j < seen.len() && seen[j] == variable;
                    assert(variables@[j] == variables@[i as int]);
                }
                assert(variables@.to_set().contains(variable));
            }
            let mut values = self.values.variable(variable);
            values.refine_correlated(origin, &self.evaluated, update);
            self.values.set(variable, values);
            i += 1;
        }
        proof {
            assert(variables@.subrange(0, variables@.len() as int) =~= variables@);
            assert forall|key: VariableId| #[trigger] start.0.0.contains_key(key) implies variables@.contains(key) by {
                assert(variables@.to_set().contains(key));
            }
            assert(self@.0.0.dom() =~= start.0.0.dom());
        }
    }

    /// Refines by `update` the alternatives of every call output that are correlated with
    /// `origin`.
    fn refine_correlated_outputs<F: Fn(&P) -> P>(&mut self, origin: &ValueOrigin, update: &F)
        requires
            forall|property: &P| update.requires((property,)),
        ensures
            refines_correlated_outputs(old(self)@.2, final(self)@.2, origin@, old(self)@.3.1, *update),
            final(self)@.0 == old(self)@.0,
            final(self)@.1 == old(self)@.1,
            final(self)@.3 == old(self)@.3,
    {
        let ghost start = self@;
        let calls = self.call_results.calls();
        let mut i: usize = 0;
        while i < calls.len()
            invariant
                0 <= i <= calls@.len(),
                calls@.no_duplicates(),
                forall|call: ExprId| #[trigger] calls@.contains(call) <==> start.2.contains_key(call),
                forall|property: &P| update.requires((property,)),
                self@.0 == start.0,
                self@.1 == start.1,
                self@.3 == start.3,
                self@.2.dom() == start.2.dom(),
                forall|call: ExprId|
                    #[trigger] start.2.contains_key(call) ==> if calls@.subrange(0, i as int).contains(call) {
                        self@.2[call].len() == start.2[call].len() && forall|k: int|
                            0 <= k < start.2[call].len() ==> refined_by(
                                start.2[call][k],
                                #[trigger] self@.2[call][k],
                                correlated_selection(start.2[call][k], origin@, start.3.1),
                                *update,
                            )
                    } else {
                        self@.2[call] == start.2[call]
                    },
            decreases calls@.len() - i,
        {
            let call = calls[i];
            let ghost seen = calls@.subrange(0, i as int);
            let ghost next = calls@.subrange(0, i + 1);
            proof {
                assert forall|x: ExprId| next.contains(x) <==> (seen.contains(x) || x == call) by {
                    if next.contains(x) {
                        let j = choose|j: int| 0 <= j < next.len() && next[j] == x;
                        if j < i {
                            assert(seen[j] == x);
                        }
                    }
                    if seen.contains(x) {
                        let j = choose|j: int| 0 <= j < seen.len() && seen[j] == x;
                        assert(next[j] == x);
                    }
                    if x == call {
                        assert(next[i as int] == x);
                    }
                }
                if seen.contains(call) {
                    let j = choose|j: int| 0 <= j < seen.len() && seen[j] == call;
                    assert(calls@[j] == calls@[i as int]);
                }
                assert(calls@.contains(call));
            }
            let outputs = match self.call_results.outputs(call) {
                Some(outputs) => outputs,
                None => {
                    proof {
                        assert(false);
                    }
                    return;
                },
            };
            let ghost before = views(outputs@);
            let mut refined: Vec<ValueSet<P>> = Vec::new();
            let mut k: usize = 0;
            while k < outputs.len()
                invariant
                    0 <= k <= outputs@.len(),
                    before == views(outputs@),
                    forall|property: &P| update.requires((property,)),
                    refined@.len() == k,
                    forall|kk: int|
                        0 <= kk < k ==> refined_by(
                            before[kk],
                            (#[trigger] refined@[kk])@,
                            correlated_selection(before[kk], origin@, self@.3.1),
                            *update,
                        ),
                decreases outputs@.len() - k,
            {
                let mut values = outputs[k].duplicate();
                proof {
                    assert(before[k as int] == outputs@[k as int]@);
                }
                values.refine_correlated(origin, &self.evaluated, update);
                refined.push(values);
                k += 1;
            }
            let ghost refined_views = views(refined@);
            self.call_results.set_outputs(call, refined);
            proof {
                assert(self@.2[call] == refined_views);
                assert forall|kk: int| 0 <= kk < start.2[call].len() implies refined_by(
                    start.2[call][kk],
                    #[trigger] self@.2[call][kk],
                    correlated_selection(start.2[call][kk], origin@, start.3.1),
                    *update,
                ) by {
                    assert(self@.2[call][kk] == refined_views[kk]);
                }
            }
            i += 1;
        }
        proof {
            assert(calls@.subrange(0, calls@.len() as int) =~= calls@);
            assert(self@.2.dom() =~= start.2.dom());
        }
    }

    /// Refines by `update` a computed value, whose alternatives are `origins`; `call` is the site
    /// of the value when it is a call.
    ///
    /// When the alternatives share a source that is a unique dynamic value, every variable value,
    /// recorded place value and call output refines its alternatives correlated with that source,
    /// as for `if (recipient.send(...))`. A call records its refined value as its single output.
    pub fn refine_value<F: Fn(&P) -> P>(&mut self, call: Option<ExprId>, origins: &ValueSet<P>, update: F)
        requires
            forall|property: &P| update.requires((property,)),
        ensures
            refines_value(old(self)@, final(self)@, call, origins@, update),
    {
        let ghost start = self@;
        let mut refined = origins.duplicate();
        refined.refine_all(&update);
        let ghost refined_view = refined@;
        match origins.common_source() {
            Some(origin) => {
                if self.evaluated.origin_is_correlatable(&origin) {
                    self.refine_correlated_variables(&origin, &update);
                    let ghost after_values = self@;
                    let sites = self.evaluated.duplicate();
                    self.places.refine_correlated(&origin, &sites, &update);
                    proof {
                        assert(refines_correlated_values(start.1, self@.1, origin@, start.3.1, update));
                    }
                    self.refine_correlated_outputs(&origin, &update);
                }
            },
            None => {},
        }
        let ghost outputs = self@.2;
        match call {
            Some(site) => {
                let mut single: Vec<ValueSet<P>> = Vec::new();
                single.push(refined);
                self.call_results.set_outputs(site, single);
                proof {
                    assert(views(single@) =~= seq![refined_view]);
                }
            },
            None => {},
        }
        proof {
            assert(refines_value_through(start, self@, call, origins@, update, refined_view, outputs));
        }
    }
}

impl<P: ValueProperty> ValueFlowState<P> {
    /// Returns a copy of this state.
    pub fn duplicate(&self) -> (copy: Self)
        ensures
            copy@ == self@,
    {
        ValueFlowState {
            values: self.values.duplicate(),
            places: self.places.duplicate(),
            call_results: self.call_results.duplicate(),
            evaluated: self.evaluated.duplicate(),
        }
    }

    /// Returns, for each of `keys`, the join of the values read at it here and in `other`.
    fn joined_place_values(&self, other: &Self, keys: &Vec<Place>) -> (joined: Vec<ValueSet<P>>)
        ensures
            joined@.len() == keys@.len(),
            forall|k: int| 0 <= k < keys@.len() ==> (#[trigger] joined@[k])@ == join_values(
                place_value_of(self@, keys@[k]@),
                place_value_of(other@, keys@[k]@),
            ),
    {
        let mut joined: Vec<ValueSet<P>> = Vec::new();
        let mut k: usize = 0;
        while k < keys.len()
            invariant
                0 <= k <= keys@.len(),
                joined@.len() == k,
                forall|j: int| 0 <= j < k ==> (#[trigger] joined@[j])@ == join_values(
                    place_value_of(self@, keys@[j]@),
                    place_value_of(other@, keys@[j]@),
                ),
            decreases keys@.len() - k,
        {
            let mut values = self.value_for_place(&keys[k]);
            let theirs = other.value_for_place(&keys[k]);
            let _ = values.join(&theirs);
            joined.push(values);
            k += 1;
        }
        joined
    }
}

impl<P: ValueProperty> Clone for ValueFlowState<P> {
    fn clone(&self) -> (copy: Self)
        ensures
            copy@ == self@,
    {
        self.duplicate()
    }
}

impl<P: ValueProperty> JoinSemiLattice for ValueFlowState<P> {
    open spec fn spec_join(lhs: FlowView<P>, rhs: FlowView<P>) -> FlowView<P> {
        (
            <ValueState<P> as JoinSemiLattice>::spec_join(lhs.0, rhs.0),
            join_places(lhs, rhs),
            <CallResults<ValueSet<P>> as JoinSemiLattice>::spec_join(lhs.2, rhs.2),
            <EvaluatedSites as JoinSemiLattice>::spec_join(lhs.3, rhs.3),
        )
    }

    proof fn lemma_clone_preserves_view() {
    }

    fn join(&mut self, other: &Self) -> (changed: bool) {
        let ghost start = self@;
        let mut keys = self.places.places();
        let theirs = other.places.places();
        let ghost own_len = keys@.len();
        let mut t: usize = 0;
        while t < theirs.len()
            invariant
                0 <= t <= theirs@.len(),
                keys@.len() == own_len + t,
                forall|i: int| 0 <= i < own_len ==> start.1.contains_key(#[trigger] place_views(keys@)[i]),
                forall|i: int| own_len <= i < keys@.len() ==> other@.1.contains_key(#[trigger] place_views(keys@)[i]),
                forall|key: PlaceView| #[trigger] start.1.contains_key(key) ==> place_views(keys@).contains(key),
                forall|j: int| 0 <= j < t ==> place_views(keys@).contains(#[trigger] place_views(theirs@)[j]),
                forall|i: int| 0 <= i < theirs@.len() ==> other@.1.contains_key(#[trigger] place_views(theirs@)[i]),
                self@ == start,
            decreases theirs@.len() - t,
        {
            let ghost before = place_views(keys@);
            keys.push(theirs[t].duplicate());
            proof {
                assert(place_views(keys@) =~= before.push(place_views(theirs@)[t as int]));
                assert forall|key: PlaceView| #[trigger] start.1.contains_key(key) implies place_views(keys@).contains(key) by {
                    let i = choose|i: int| 0 <= i < before.len() && before[i] == key;
                    assert(place_views(keys@)[i] == key);
                }
                assert forall|j: int| 0 <= j < t + 1 implies place_views(keys@).contains(#[trigger] place_views(theirs@)[j]) by {
                    if j < t {
                        let i = choose|i: int| 0 <= i < before.len() && before[i] == place_views(theirs@)[j];
                        assert(place_views(keys@)[i] == place_views(theirs@)[j]);
                    } else {
                        assert(place_views(keys@)[before.len() as int] == place_views(theirs@)[j]);
                    }
                }
            }
            t += 1;
        }
        let joined = self.joined_place_values(other, &keys);
        let ghost keys_view = place_views(keys@);
        let ghost target = join_places(start, other@);
        proof {
            assert forall|key: PlaceView| #[trigger] target.contains_key(key) implies keys_view.contains(key) by {
                if other@.1.contains_key(key) {
                    let j = choose|j: int| 0 <= j < place_views(theirs@).len() && place_views(theirs@)[j] == key;
                    assert(place_views(theirs@).contains(place_views(theirs@)[j]));
                }
            }
        }
        let mut places_changed = false;
        let mut k: usize = 0;
        while k < keys.len()
            invariant
                0 <= k <= keys@.len(),
                joined@.len() == keys@.len(),
                keys_view == place_views(keys@),
                forall|j: int| 0 <= j < keys@.len() ==> (#[trigger] joined@[j])@ == target[keys_view[j]],
                forall|i: int| 0 <= i < keys@.len() ==> target.contains_key(#[trigger] keys_view[i]),
                target == join_places(start, other@),
                self.values@ == start.0,
                self.call_results@ == start.2,
                self.evaluated@ == start.3,
                self.places@ == Map::new(
                    |key: PlaceView| start.1.contains_key(key) || keys_view.subrange(0, k as int).contains(key),
                    |key: PlaceView| if keys_view.subrange(0, k as int).contains(key) { target[key] } else { start.1[key] },
                ),
                places_changed == exists|j: int| 0 <= j < k && (!start.1.contains_key(#[trigger] keys_view[j]) || start.1[keys_view[j]] != target[keys_view[j]]),
            decreases keys@.len() - k,
        {
            let ghost key = keys_view[k as int];
            let ghost seen = keys_view.subrange(0, k as int);
            let ghost next = keys_view.subrange(0, k + 1);
            proof {
                assert forall|x: PlaceView| next.contains(x) <==> (seen.contains(x) || x == key) by {
                    if next.contains(x) {
                        let j = choose|j: int| 0 <= j < next.len() && next[j] == x;
                        if j < k {
                            assert(seen[j] == x);
                        }
                    }
                    if seen.contains(x) {
                        let j = choose|j: int| 0 <= j < seen.len() && seen[j] == x;
                        assert(next[j] == x);
                    }
                    if x == key {
                        assert(next[k as int] == x);
                    }
                }
                assert(joined@[k as int]@ == target[key]);
            }
            let differs = match self.places.get(&keys[k]) {
                Some(existing) => !existing.same_set(&joined[k]),
                None => true,
            };
            let ghost current = self.places@;
            if differs {
                self.places.insert(keys[k].duplicate(), joined[k].duplicate());
                places_changed = true;
            }
            proof {
                let expected = Map::new(
                    |x: PlaceView| start.1.contains_key(x) || next.contains(x),
                    |x: PlaceView| if next.contains(x) { target[x] } else { start.1[x] },
                );
                assert(self.places@ =~= expected);
                if seen.contains(key) {
                    let j0 = choose|j: int| 0 <= j < seen.len() && seen[j] == key;
                    assert(keys_view[j0] == key);
                    assert(!differs);
                }
                let fresh = !start.1.contains_key(key) || start.1[key] != target[key];
                if !seen.contains(key) {
                    assert(differs == fresh);
                }
                if places_changed {
                    if !differs {
                        let j = choose|j: int| 0 <= j < k && (!start.1.contains_key(#[trigger] keys_view[j]) || start.1[keys_view[j]] != target[keys_view[j]]);
                        assert(j < k + 1);
                    } else {
                        if seen.contains(key) {
                            assert(false);
                        }
                        assert(0 <= k < k + 1 && (!start.1.contains_key(keys_view[k as int]) || start.1[keys_view[k as int]] != target[keys_view[k as int]]));
                    }
                } else {
                    assert forall|j: int| 0 <= j < k + 1 implies !(!start.1.contains_key(#[trigger] keys_view[j]) || start.1[keys_view[j]] != target[keys_view[j]]) by {
                        if j == k && seen.contains(key) {
                            let j0 = choose|j1: int| 0 <= j1 < seen.len() && seen[j1] == key;
                            assert(keys_view[j0] == keys_view[j]);
                        }
                    }
                }
            }
            k += 1;
        }
        proof {
            assert(keys_view.subrange(0, keys_view.len() as int) =~= keys_view);
            assert(self.places@ =~= target) by {
                assert forall|x: PlaceView| #[trigger] self.places@.contains_key(x) == target.contains_key(x) by {
                    if target.contains_key(x) {
                        assert(keys_view.contains(x));
                    }
                    if keys_view.contains(x) {
                        let j = choose|j: int| 0 <= j < keys_view.len() && keys_view[j] == x;
                        assert(target.contains_key(keys_view[j]));
                    }
                }
            }
            if places_changed {
                let j = choose|j: int| 0 <= j < keys_view.len() && (!start.1.contains_key(#[trigger] keys_view[j]) || start.1[keys_view[j]] != target[keys_view[j]]);
                let x = keys_view[j];
                if !start.1.contains_key(x) {
                    assert(target.contains_key(x));
                } else {
                    assert(target[x] != start.1[x]);
                }
                assert(target != start.1);
            } else {
                assert forall|x: PlaceView| #[trigger] target.contains_key(x) implies start.1.contains_key(x) && start.1[x] == target[x] by {
                    assert(keys_view.contains(x));
                    let j = choose|j: int| 0 <= j < keys_view.len() && keys_view[j] == x;
                    assert(!(!start.1.contains_key(keys_view[j]) || start.1[keys_view[j]] != target[keys_view[j]]));
                }
                assert(target =~= start.1);
            }
        }
        let values_changed = self.values.join(&other.values);
        let calls_changed = self.call_results.join(&other.call_results);
        let sites_changed = self.evaluated.join(&other.evaluated);
        places_changed || values_changed || calls_changed || sites_changed
    }
}

/// Binding a variable and then reading it gives back the bound value.
pub proof fn lemma_bind_reads_back<P>(
    old: FlowView<P>,
    new: FlowView<P>,
    variable: VariableId,
    value: Seq<(OriginView, P)>,
)
    requires
        binds(old, new, variable, value),
    ensures
        variable_value(new.0, variable) == value,
        place_value_of(new, (variable, Seq::<ProjectionElem>::empty())) == value,
{
    if !keeps_binding(old, variable, value) {
        let mid = choose|mid: FlowView<P>|
            #[trigger] detaches(old, mid, variable) && new == (
                (mid.0.0.insert(variable, value), mid.0.1, mid.0.2),
                without_root(mid.1, variable),
                mid.2,
                mid.3,
            );
    }
}

/// Entries whose distinct anchors are the single place `anchor` are all anchored there, and
/// there is at least one.
proof fn lemma_single_anchor(entries: Seq<EntryView>, anchor: PlaceView)
    requires
        entry_anchors(entries) == seq![anchor],
    ensures
        entries.len() > 0,
        forall|i: int| 0 <= i < entries.len() ==> (#[trigger] entries[i]).0 == anchor,
    decreases entries.len(),
{
    if entries.len() == 0 {
        assert(entry_anchors(entries).len() == 0);
    } else {
        let prior = entry_anchors(entries.drop_last());
        let last = entries.last().0;
        if prior.contains(last) {
            assert(prior == seq![anchor]);
            assert(last == anchor) by {
                let k = choose|k: int| 0 <= k < prior.len() && prior[k] == last;
            }
            lemma_single_anchor(entries.drop_last(), anchor);
            assert forall|i: int| 0 <= i < entries.len() implies (#[trigger] entries[i]).0 == anchor by {
                if i < entries.len() - 1 {
                    assert(entries[i] == entries.drop_last()[i]);
                }
            }
        } else {
            assert(prior.push(last) == seq![anchor]);
            assert(prior.len() == 0);
            assert(last == seq![anchor][0]);
            if entries.drop_last().len() > 0 {
                lemma_anchors_nonempty(entries.drop_last());
            }
        }
    }
}

/// Non-empty entries have an anchor.
proof fn lemma_anchors_nonempty(entries: Seq<EntryView>)
    requires
        entries.len() > 0,
    ensures
        entry_anchors(entries).len() > 0,
{
    let prior = entry_anchors(entries.drop_last());
    if !prior.contains(entries.last().0) {
        assert(prior.push(entries.last().0).len() > 0);
    } else {
        assert(prior.len() > 0);
    }
}

/// Joining, over entries all anchored at `anchor`, the duplicate-free value recorded there gives
/// that value.
proof fn lemma_joined_single<P>(state: FlowView<P>, place: PlaceView, entries: Seq<EntryView>, anchor: PlaceView)
    requires
        entries.len() > 0,
        forall|i: int| 0 <= i < entries.len() ==> (#[trigger] entries[i]).0 == anchor,
        state.1.contains_key(anchor),
        state.1[anchor].no_duplicates(),
    ensures
        joined_entry_values(state, place, entries) == state.1[anchor],
    decreases entries.len(),
{
    let value = state.1[anchor];
    assert(entry_value(state, place, entries.last()) == value);
    if entries.len() == 1 {
        assert(entries.drop_last().len() == 0);
        assert(joined_entry_values(state, place, entries.drop_last()) == Seq::<(OriginView, P)>::empty());
        lemma_dedup_distinct(value);
        assert(joined_entry_values(state, place, entries) == join_values(Seq::<(OriginView, P)>::empty(), value));
    } else {
        assert forall|i: int| 0 <= i < entries.drop_last().len() implies (#[trigger] entries.drop_last()[i]).0 == anchor by {
            assert(entries.drop_last()[i] == entries[i]);
        }
        lemma_joined_single(state, place, entries.drop_last(), anchor);
        lemma_join_values_absorbs(value, value);
        assert(joined_entry_values(state, place, entries) == join_values(value, value));
    }
}

/// Storing a non-empty value with no repeated alternative at a field path that has exactly one
/// canonical place, then reading the path, gives back the value.
pub proof fn lemma_store_reads_back<P>(
    old: FlowView<P>,
    new: FlowView<P>,
    place: PlaceView,
    value: Seq<(OriginView, P)>,
)
    requires
        stores(old, new, place, value),
        is_field_path(place.1),
        canonical_places_of(old, place).len() == 1,
        value.len() > 0,
        value.no_duplicates(),
    ensures
        place_value_of(new, place) == value,
{
    let canonical = canonical_places_of(old, place);
    let anchor = canonical[0];
    assert(canonical.drop_last().len() == 0);
    assert(new.1 == store_places(old, canonical, value, 1));
    assert(new.1 == without_overlap(store_places(old, canonical.drop_last(), value, 1), anchor).insert(anchor, value));
    let entries = place_entries_of(old, place);
    assert(place_entries_of(new, place) == entries);
    assert(entry_anchors(entries) == seq![anchor]) by {
        assert(canonical =~= seq![anchor]);
    }
    lemma_single_anchor(entries, anchor);
    lemma_joined_single(new, place, entries, anchor);
}

/// A subtree based at an alias base has a target: the alias with the smallest index among
/// those based there.
proof fn lemma_target_exists<P>(
    state: FlowView<P>,
    variable: VariableId,
    source: PlaceView,
    candidate: VariableId,
    origin: OriginView,
)
    requires
        is_alias(state, variable, candidate, origin),
        origin_base(origin) == Some(source),
    ensures
        is_detach_target(state, variable, source, detach_target(state, variable, source)),
    decreases candidate.0,
{
    if exists|c: VariableId, o: OriginView|
        #[trigger] is_alias(state, variable, c, o) && origin_base(o) == Some(source) && c.0 < candidate.0 {
        let (c, o) = choose|c: VariableId, o: OriginView|
            #[trigger] is_alias(state, variable, c, o) && origin_base(o) == Some(source) && c.0 < candidate.0;
        lemma_target_exists(state, variable, source, c, o);
    } else {
        assert(is_detach_target(state, variable, source, candidate));
    }
}

/// The origin an alias value takes when `variable` is rebound is not rooted at it.
proof fn lemma_detached_not_rooted<P>(state: FlowView<P>, variable: VariableId, candidate: VariableId, origin: OriginView)
    requires
        is_alias(state, variable, candidate, origin),
    ensures
        !rooted_at(detached_origin(state, variable, origin), variable),
{
    let base = origin_base(origin)->0;
    assert(is_alias_base(state, variable, base));
    lemma_alias_base_has_source(state, variable, base);
    let source = source_of(state, variable, base);
    assert(is_detach_source(state, variable, source));
    let (c, o) = choose|c: VariableId, o: OriginView|
        #[trigger] is_alias(state, variable, c, o) && origin_base(o) == Some(source);
    lemma_target_exists(state, variable, source, c, o);
    let target = detach_target(state, variable, source);
    let witness = choose|o2: OriginView| #[trigger] is_alias(state, variable, target, o2) && origin_base(o2) == Some(source);
    assert(target != variable);
}

/// Rebinding a variable to a value that does not keep its identity detaches it: no other
/// variable's value is rooted at it any longer, and none of its places stays recorded.
pub proof fn lemma_rebind_detaches_aliases<P>(
    old: FlowView<P>,
    new: FlowView<P>,
    variable: VariableId,
    value: Seq<(OriginView, P)>,
)
    requires
        binds(old, new, variable, value),
        !keeps_binding(old, variable, value),
    ensures
        forall|candidate: VariableId|
            #[trigger] new.0.0.contains_key(candidate) && candidate != variable ==> !aliases_root(
                new.0.0[candidate],
                variable,
            ),
        forall|key: PlaceView| #[trigger] new.1.contains_key(key) ==> key.0 != variable,
{
    let mid = choose|mid: FlowView<P>|
        #[trigger] detaches(old, mid, variable) && new == (
            (mid.0.0.insert(variable, value), mid.0.1, mid.0.2),
            without_root(mid.1, variable),
            mid.2,
            mid.3,
        );
    assert forall|candidate: VariableId|
        #[trigger] new.0.0.contains_key(candidate) && candidate != variable implies !aliases_root(
        new.0.0[candidate],
        variable,
    ) by {
        assert(new.0.0[candidate] == mid.0.0[candidate]);
        if !has_alias(old, variable) {
            if aliases_root(old.0.0[candidate], variable) {
                let i = choose|i: int| 0 <= i < old.0.0[candidate].len() && rooted_at(#[trigger] old.0.0[candidate][i].0, variable);
                assert(is_alias(old, variable, candidate, old.0.0[candidate][i].0));
            }
        } else {
            let values = old.0.0[candidate];
            if aliases_root(values, variable) {
                let mapped = values.map_values(|alternative: (OriginView, P)| rebound_alternative(old, variable, alternative));
                assert forall|i: int| 0 <= i < mapped.len() implies !rooted_at(#[trigger] mapped[i].0, variable) by {
                    if rooted_at(values[i].0, variable) {
                        assert(is_alias(old, variable, candidate, values[i].0));
                        lemma_detached_not_rooted(old, variable, candidate, values[i].0);
                    }
                }
                let rebound = rebound_alias_value(old, variable, values);
                lemma_join_values(Seq::<(OriginView, P)>::empty(), mapped);
                if aliases_root(rebound, variable) {
                    let i = choose|i: int| 0 <= i < rebound.len() && rooted_at(#[trigger] rebound[i].0, variable);
                    assert(rebound.contains(rebound[i]));
                    assert(mapped.contains(rebound[i]));
                    let k = choose|k: int| 0 <= k < mapped.len() && mapped[k] == rebound[i];
                    assert(!rooted_at(mapped[k].0, variable));
                }
            }
        }
    }
}

} // verus!
