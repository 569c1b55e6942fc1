use crate::io::meta_schema::ConflictStrategy;
use crate::land::grid_access::{walked, Index2D};
use crate::merge::conflict::{resolved_component, ConflictParams, ConflictResolver};
use crate::merge::ignore_strategy::IgnoreStrategy;
use crate::merge::overwrite_strategy::OverwriteStrategy;
use crate::merge::relative_terrain_map::{OptionalTerrainMap, RelativeTerrainMap};
use crate::merge::relative_to::RelativeTo;
use crate::merge::resolve_conflict_strategy::ResolveConflictStrategy;
use vstd::prelude::*;

verus! {

/// The five kinds of terrain data that a landscape may hold.
#[derive(Clone, Copy, Debug, PartialEq, Eq, Hash, Structural)]
pub enum Channel {
    HeightMap,
    VertexNormals,
    WorldMapData,
    VertexColors,
    TextureIndices,
}

/// The three ways in which the deltas of two sides are combined.
#[derive(Clone, Copy, Debug, PartialEq, Eq, Structural)]
pub enum MergeRule {
    /// Where only one side changed a position, its delta is taken; where both did, the delta
    /// that resolves the conflict between the two.
    Resolve,
    /// Wherever the new side changed a position, its delta is taken.
    Overwrite,
    /// The deltas of the old side are kept as they are.
    Ignore,
}

/// The parameters by which [MergeRule::Resolve] tells minor conflicts from major ones.
pub open spec fn resolve_params() -> ConflictParams {
    ConflictParams { minor_threshold_pct: 30, minor_threshold_min: 10, minor_threshold_max: 64 }
}

/// The delta that `rule` keeps at a position where the old side has the delta `lhs` and the
/// new side has the delta `rhs`.
pub open spec fn combined<U: RelativeTo>(rule: MergeRule, lhs: U::Delta, rhs: U::Delta) -> U::Delta
    where <U as RelativeTo>::Delta: ConflictResolver {
    match rule {
        MergeRule::Resolve => if rhs == U::zero() {
            lhs
        } else if lhs == U::zero() {
            rhs
        } else {
            resolved_component(lhs, lhs.resolution(rhs, resolve_params()))
        },
        MergeRule::Overwrite => if rhs == U::zero() {
            lhs
        } else {
            rhs
        },
        MergeRule::Ignore => lhs,
    }
}

/// `merged` is what `rule` makes of `lhs` and `rhs`: it has the reference of `lhs`, and at
/// every position the delta that the rule keeps of the two deltas there.
pub open spec fn is_merge_of<U: RelativeTo, const T: usize>(
    rule: MergeRule,
    merged: RelativeTerrainMap<U, T>,
    lhs: RelativeTerrainMap<U, T>,
    rhs: RelativeTerrainMap<U, T>,
) -> bool where <U as RelativeTo>::Delta: ConflictResolver {
    &&& merged.wf()
    &&& forall|p: Index2D|
        p.within(T) ==> #[trigger] merged.reference_at(p) == lhs.reference_at(p)
    &&& forall|p: Index2D|
        p.within(T) ==> #[trigger] merged.difference_at(p) == combined::<U>(
            rule,
            lhs.difference_at(p),
            rhs.difference_at(p),
        )
}

/// Types implementing [MergeStrategy] can create a new [RelativeTerrainMap] by combining
/// the `lhs` and `rhs` [RelativeTerrainMap]. The method for combining the maps is determined
/// by the type implementing [MergeStrategy::apply].
pub trait MergeStrategy {
    /// The way in which the strategy combines two deltas.
    spec fn rule(&self) -> MergeRule;

    /// Combine the `lhs` and `rhs` [RelativeTerrainMap] into a new [RelativeTerrainMap].
    fn apply<U: RelativeTo, const T: usize>(
        &self,
        lhs: &RelativeTerrainMap<U, T>,
        rhs: &RelativeTerrainMap<U, T>,
    ) -> (r: RelativeTerrainMap<U, T>) where <U as RelativeTo>::Delta: ConflictResolver
        requires
            lhs.wf(),
            rhs.wf(),
        ensures
            is_merge_of(self.rule(), r, *lhs, *rhs),
    ;
}

/// What an optional reference refers to.
pub open spec fn held<V>(option: Option<&V>) -> Option<V> {
    match option {
        Some(value) => Some(*value),
        None => None,
    }
}

/// What becomes of a kind of terrain data that the old side holds as `old` and the new side
/// as `new`: where both hold it, what `rule` makes of the two; where one side holds it,
/// a copy of that side's; where neither does, nothing.
pub open spec fn is_merged_by<U: RelativeTo, const T: usize>(
    rule: MergeRule,
    merged: OptionalTerrainMap<U, T>,
    old: OptionalTerrainMap<U, T>,
    new: OptionalTerrainMap<U, T>,
) -> bool where <U as RelativeTo>::Delta: ConflictResolver {
    match (old, new) {
        (Some(old), Some(new)) => merged matches Some(map) && is_merge_of(rule, map, old, new),
        (Some(old), None) => merged matches Some(map) && map.wf() && map.agrees_with(old),
        (None, Some(new)) => merged matches Some(map) && map.wf() && map.agrees_with(new),
        (None, None) => merged.is_none(),
    }
}

/// Given optional `old` and `new` [RelativeTerrainMap], return an [OptionalTerrainMap]
/// representing either [None], the `old`, the `new`, or the merged combination of `old`
/// and `new` from applying the [MergeStrategy] `strategy` when both `old` and `new` are
/// [Some].
pub fn apply_strategy<S: MergeStrategy, U: RelativeTo, const T: usize>(
    old: Option<&RelativeTerrainMap<U, T>>,
    new: Option<&RelativeTerrainMap<U, T>>,
    strategy: &S,
) -> (r: OptionalTerrainMap<U, T>) where <U as RelativeTo>::Delta: ConflictResolver
    requires
        old matches Some(map) ==> map.wf(),
        new matches Some(map) ==> map.wf(),
    ensures
        is_merged_by(strategy.rule(), r, held(old), held(new)),
{
    match (old, new) {
        (Some(old), Some(new)) => Some(strategy.apply(old, new)),
        (Some(old), None) => Some(old.duplicate()),
        (None, Some(new)) => Some(new.duplicate()),
        (None, None) => None,
    }
}

/// The rule that `conflict_strategy` names, or `auto_rule` where it names none.
pub open spec fn preferred_rule(conflict_strategy: ConflictStrategy, auto_rule: MergeRule) -> MergeRule {
    match conflict_strategy {
        ConflictStrategy::Auto => auto_rule,
        ConflictStrategy::Resolve => MergeRule::Resolve,
        ConflictStrategy::Overwrite => MergeRule::Overwrite,
        ConflictStrategy::Ignore => MergeRule::Ignore,
    }
}

/// The rule by which a kind of terrain data is merged where no other is asked for:
/// texture indices are overwritten, since an average of two of them means nothing, and
/// every other kind is resolved.
pub open spec fn default_rule(value: Channel) -> MergeRule {
    if value == Channel::TextureIndices {
        MergeRule::Overwrite
    } else {
        MergeRule::Resolve
    }
}

/// Given optional `old` and `new` [RelativeTerrainMap], and a desired [ConflictStrategy],
/// apply the desired [MergeStrategy] as indicated by the `conflict_strategy`.
/// If `conflict_strategy` is [ConflictStrategy::Auto], use the [MergeStrategy] `auto_strategy`.
pub fn apply_preferred_strategy<S: MergeStrategy, U: RelativeTo, const T: usize>(
    old: Option<&RelativeTerrainMap<U, T>>,
    new: Option<&RelativeTerrainMap<U, T>>,
    conflict_strategy: ConflictStrategy,
    auto_strategy: &S,
) -> (r: OptionalTerrainMap<U, T>) where <U as RelativeTo>::Delta: ConflictResolver
    requires
        old matches Some(map) ==> map.wf(),
        new matches Some(map) ==> map.wf(),
    ensures
        is_merged_by(
            preferred_rule(conflict_strategy, auto_strategy.rule()),
            r,
            held(old),
            held(new),
        ),
{
    let resolve_strategy = ResolveConflictStrategy {  };
    let overwrite_strategy = OverwriteStrategy {  };
    let ignore_strategy = IgnoreStrategy {  };

    match conflict_strategy {
        ConflictStrategy::Auto => apply_strategy(old, new, auto_strategy),
        ConflictStrategy::Resolve => apply_strategy(old, new, &resolve_strategy),
        ConflictStrategy::Overwrite => apply_strategy(old, new, &overwrite_strategy),
        ConflictStrategy::Ignore => apply_strategy(old, new, &ignore_strategy),
    }
}

/// Given optional `old` and `new` [RelativeTerrainMap], and a desired [ConflictStrategy],
/// apply the desired [MergeStrategy] as indicated by the `conflict_strategy`.
pub fn apply_merge_strategy<U: RelativeTo, const T: usize>(
    value: Channel,
    old: Option<&RelativeTerrainMap<U, T>>,
    new: Option<&RelativeTerrainMap<U, T>>,
    conflict_strategy: ConflictStrategy,
) -> (r: OptionalTerrainMap<U, T>) where <U as RelativeTo>::Delta: ConflictResolver
    requires
        old matches Some(map) ==> map.wf(),
        new matches Some(map) ==> map.wf(),
    ensures
        is_merged_by(
            preferred_rule(conflict_strategy, default_rule(value)),
            r,
            held(old),
            held(new),
        ),
{
    let resolve_strategy = ResolveConflictStrategy {  };
    let overwrite_strategy = OverwriteStrategy {  };

    match value {
        Channel::HeightMap | Channel::WorldMapData | Channel::VertexColors
        | Channel::VertexNormals => {
            apply_preferred_strategy(old, new, conflict_strategy, &resolve_strategy)
        },
        Channel::TextureIndices => {
            apply_preferred_strategy(old, new, conflict_strategy, &overwrite_strategy)
        },
    }
}

/// Merging a map with itself by [MergeRule::Resolve] changes nothing: the merged map has the
/// deltas and the marks of the map.
pub proof fn lemma_resolve_is_idempotent<U: RelativeTo, const T: usize>(
    map: RelativeTerrainMap<U, T>,
    merged: RelativeTerrainMap<U, T>,
) where <U as RelativeTo>::Delta: ConflictResolver
    requires
        map.wf(),
        is_merge_of(MergeRule::Resolve, merged, map, map),
    ensures
        forall|p: Index2D|
            p.within(T) ==> #[trigger] merged.difference_at(p) == map.difference_at(p),
        forall|p: Index2D| p.within(T) ==> #[trigger] merged.changed_at(p) == map.changed_at(p),
        forall|p: Index2D| p.within(T) ==> #[trigger] merged.value_at(p) == map.value_at(p),
{
    assert forall|p: Index2D| p.within(T) implies #[trigger] merged.difference_at(p)
        == map.difference_at(p) by {
        let delta = map.difference_at(p);
        delta.lemma_no_conflict(delta, resolve_params());
    }
    assert forall|p: Index2D| p.within(T) implies #[trigger] merged.changed_at(p)
        == map.changed_at(p) by {
        assert(merged.difference_at(p) == map.difference_at(p));
    }
    assert forall|p: Index2D| p.within(T) implies #[trigger] merged.value_at(p) == map.value_at(
        p,
    ) by {
        assert(merged.difference_at(p) == map.difference_at(p));
        assert(merged.reference_at(p) == map.reference_at(p));
    }
}

/// Under [MergeRule::Overwrite] the new side wins: where both sides changed a position of
/// the same original terrain, the merged map has the value of the new side.
pub proof fn lemma_overwrite_takes_new<U: RelativeTo, const T: usize>(
    old: RelativeTerrainMap<U, T>,
    new: RelativeTerrainMap<U, T>,
    merged: RelativeTerrainMap<U, T>,
    coords: Index2D,
) where <U as RelativeTo>::Delta: ConflictResolver
    requires
        old.wf(),
        new.wf(),
        is_merge_of(MergeRule::Overwrite, merged, old, new),
        coords.within(T),
        old.changed_at(coords),
        new.changed_at(coords),
        old.reference_at(coords) == new.reference_at(coords),
    ensures
        merged.difference_at(coords) == new.difference_at(coords),
        merged.value_at(coords) == new.value_at(coords),
{
}

/// Where only one of two sides changed a position, every rule but [MergeRule::Ignore] keeps
/// the delta of that side, and where neither did, every rule keeps none.
pub proof fn lemma_one_sided_change<U: RelativeTo>(rule: MergeRule, lhs: U::Delta, rhs: U::Delta)
    where <U as RelativeTo>::Delta: ConflictResolver
    requires
        lhs == U::zero() || rhs == U::zero(),
    ensures
        rhs == U::zero() ==> combined::<U>(rule, lhs, rhs) == lhs,
        lhs == U::zero() && rule != MergeRule::Ignore ==> combined::<U>(rule, lhs, rhs) == rhs,
{
}

/// Builds the map that has the reference of `lhs` and holds, at every position, the delta
/// that `combine` makes of the deltas of `lhs` and `rhs` there.
pub(crate) fn merge_with<U: RelativeTo, const T: usize>(
    lhs: &RelativeTerrainMap<U, T>,
    rhs: &RelativeTerrainMap<U, T>,
    combine: impl Fn(U::Delta, U::Delta) -> U::Delta,
    Ghost(rule): Ghost<spec_fn(U::Delta, U::Delta) -> U::Delta>,
) -> (r: RelativeTerrainMap<U, T>)
    requires
        lhs.wf(),
        rhs.wf(),
        forall|l: U::Delta, r: U::Delta| combine.requires((l, r)),
        forall|l: U::Delta, r: U::Delta, d: U::Delta|
            combine.ensures((l, r), d) ==> d == rule(l, r),
    ensures
        r.wf(),
        forall|p: Index2D| p.within(T) ==> #[trigger] r.reference_at(p) == lhs.reference_at(p),
        forall|p: Index2D|
            p.within(T) ==> #[trigger] r.difference_at(p) == rule(
                lhs.difference_at(p),
                rhs.difference_at(p),
            ),
{
    let mut new = lhs.duplicate();
    let mut y: usize = 0;
    while y < T
        invariant
            y <= T,
            lhs.wf(),
            rhs.wf(),
            new.wf(),
            forall|l: U::Delta, r: U::Delta| combine.requires((l, r)),
            forall|l: U::Delta, r: U::Delta, d: U::Delta|
                combine.ensures((l, r), d) ==> d == rule(l, r),
            forall|p: Index2D| p.within(T) ==> #[trigger] new.reference_at(p) == lhs.reference_at(p),
            forall|p: Index2D|
                p.within(T) && walked(p, 0, y) ==> #[trigger] new.difference_at(p) == rule(
                    lhs.difference_at(p),
                    rhs.difference_at(p),
                ),
        decreases T - y,
    {
        let mut x: usize = 0;
        while x < T
            invariant
                x <= T,
                y < T,
                lhs.wf(),
                rhs.wf(),
                new.wf(),
                forall|l: U::Delta, r: U::Delta| combine.requires((l, r)),
                forall|l: U::Delta, r: U::Delta, d: U::Delta|
                    combine.ensures((l, r), d) ==> d == rule(l, r),
                forall|p: Index2D|
                    p.within(T) ==> #[trigger] new.reference_at(p) == lhs.reference_at(p),
                forall|p: Index2D|
                    p.within(T) && walked(p, x, y) ==> #[trigger] new.difference_at(p) == rule(
                        lhs.difference_at(p),
                        rhs.difference_at(p),
                    ),
            decreases T - x,
        {
            let coords = Index2D::new(x, y);
            let diff = combine(lhs.get_difference(coords), rhs.get_difference(coords));
            new.set_difference(coords, diff);
            x = x + 1;
        }
        y = y + 1;
    }
    new
}

} // verus!
