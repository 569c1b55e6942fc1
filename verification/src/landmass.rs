
use crate::io::parsed_plugins::ParsedPlugin;
use crate::land::grid_access::{walked, Index2D};
use crate::land::landscape::Landscape;
use crate::land::landscape_diff::{changed_heights, same_terrain, LandscapeDiff};
use crate::land::terrain_map::{LandData, TerrainMap, Vec2};
use crate::land::textures::{
    has_texture_index, remap, IndexVTEX, KnownTexture, KnownTextures, LandscapeTexture,
    RemappedTextures,
};
use crate::merge::conflict::ConflictResolver;
use crate::merge::merge_strategy::{
    apply_merge_strategy, combined, held, is_merged_by, preferred_rule, Channel, MergeRule,
};
use crate::merge::relative_terrain_map::{IsModified, OptionalTerrainMap};
use crate::merge::relative_to::RelativeTo;
use itertools::Itertools;
use std::sync::Arc;
use vstd::prelude::*;

verus! {

/// The landscape diffs of a landmass, each under the coordinates of its cell, kept in a
/// `hashbrown::HashMap`.
#[verifier::external_body]
pub struct LandMap {
    inner: hashbrown::HashMap<(i32, i32), LandscapeDiff>,
}

/// The landscape diffs that a [LandMap] holds, each under the coordinates of its cell.
pub uninterp spec fn land_entries(map: LandMap) -> Map<Vec2<i32>, LandscapeDiff>;

/// Whether `lhs` comes before `rhs`, or is `rhs`, where coordinates are ordered by `x` and
/// then by `y`.
pub open spec fn in_order(lhs: Vec2<i32>, rhs: Vec2<i32>) -> bool {
    lhs.x < rhs.x || (lhs.x == rhs.x && lhs.y <= rhs.y)
}

/// `hashbrown::HashMap::new`: the new map holds nothing.
#[verifier::external_body]
pub(crate) fn land_map_new() -> (map: LandMap)
    ensures
        land_entries(map).dom() == Set::<Vec2<i32>>::empty(),
{
    LandMap { inner: hashbrown::HashMap::new() }
}

/// `hashbrown::HashMap::insert`: afterwards the map holds `land` under `coords` and is
/// otherwise as before; what it held under `coords` before, if anything, is handed back.
#[verifier::external_body]
pub(crate) fn land_map_insert(map: &mut LandMap, coords: Vec2<i32>, land: LandscapeDiff) -> (r:
    Option<LandscapeDiff>)
    ensures
        land_entries(*final(map)) == land_entries(*old(map)).insert(coords, land),
        r == land_entries(*old(map)).get(coords),
{
    map.inner.insert((coords.x, coords.y), land)
}

/// `hashbrown::HashMap::get`: a reference to what the map holds under `coords`, if anything.
#[verifier::external_body]
pub(crate) fn land_map_get(map: &LandMap, coords: Vec2<i32>) -> (r: Option<&LandscapeDiff>)
    ensures
        r.is_some() == land_entries(*map).dom().contains(coords),
        r matches Some(land) ==> *land == land_entries(*map)[coords],
{
    map.inner.get(&(coords.x, coords.y))
}

/// `hashbrown::HashMap::remove`: afterwards the map holds nothing under `coords` and is
/// otherwise as before; what it held under `coords` before, if anything, is handed back.
#[verifier::external_body]
pub(crate) fn land_map_remove(map: &mut LandMap, coords: Vec2<i32>) -> (r: Option<LandscapeDiff>)
    ensures
        land_entries(*final(map)) == land_entries(*old(map)).remove(coords),
        r == land_entries(*old(map)).get(coords),
{
    map.inner.remove(&(coords.x, coords.y))
}

/// `hashbrown::HashMap::contains_key`: whether the map holds anything under `coords`.
#[verifier::external_body]
pub(crate) fn land_map_contains_key(map: &LandMap, coords: Vec2<i32>) -> (r: bool)
    ensures
        r == land_entries(*map).dom().contains(coords),
{
    map.inner.contains_key(&(coords.x, coords.y))
}

/// `hashbrown::HashMap::len`: the number of cells that the map holds.
#[verifier::external_body]
pub(crate) fn land_map_len(map: &LandMap) -> (r: usize)
    ensures
        r == land_entries(*map).dom().len(),
{
    map.inner.len()
}

/// `hashbrown::HashMap::keys`: the coordinates under which the map holds something, each
/// once, in no order that could be told beforehand.
#[verifier::external_body]
pub(crate) fn land_map_keys(map: &LandMap) -> (r: Vec<Vec2<i32>>)
    ensures
        r@.no_duplicates(),
        forall|coords: Vec2<i32>| r@.contains(coords) == land_entries(*map).dom().contains(coords),
{
    map.inner.keys().map(|key| Vec2 { x: key.0, y: key.1 }).collect()
}

/// `itertools::Itertools::sorted_by_key`, with the pair of `x` and `y` as the key: the same
/// coordinates, ordered by `x` and then by `y`.
#[verifier::external_body]
pub(crate) fn sorted_by_x_then_y(coords: Vec<Vec2<i32>>) -> (r: Vec<Vec2<i32>>)
    ensures
        r@.to_multiset() == coords@.to_multiset(),
        forall|i: int, j: int| 0 <= i <= j < r.len() ==> in_order(r[i], r[j]),
{
    coords.into_iter().sorted_by_key(|f| (f.x, f.y)).collect()
}

/// A [LandmassDiff] represents a collection of [LandscapeDiff] and the associated
/// [ParsedPlugin].
pub struct LandmassDiff {
    pub plugin: Arc<ParsedPlugin>,
    pub land: LandMap,
}

impl LandmassDiff {
    /// The landscape diffs of the landmass, each under the coordinates of its cell.
    pub open spec fn view(self) -> Map<Vec2<i32>, LandscapeDiff> {
        land_entries(self.land)
    }

    /// Every landscape diff of the landmass is well formed.
    pub open spec fn wf(self) -> bool {
        forall|coords: Vec2<i32>| #[trigger]
            self@.dom().contains(coords) ==> self@[coords].wf()
    }

    /// A landmass without cells.
    pub fn new(plugin: Arc<ParsedPlugin>) -> (r: Self)
        ensures
            r@ == Map::<Vec2<i32>, LandscapeDiff>::empty(),
            r.plugin == plugin,
            r.wf(),
    {
        let r = Self { plugin, land: land_map_new() };
        assert(r@ =~= Map::<Vec2<i32>, LandscapeDiff>::empty());
        r
    }

    /// The number of cells.
    pub fn len(&self) -> (r: usize)
        ensures
            r == self@.dom().len(),
    {
        land_map_len(&self.land)
    }

    /// Whether the landmass has a cell at `coords`.
    pub fn contains(&self, coords: Vec2<i32>) -> (r: bool)
        ensures
            r == self@.dom().contains(coords),
    {
        land_map_contains_key(&self.land, coords)
    }

    /// The landscape diff of the cell at `coords`, if there is one.
    pub fn get(&self, coords: Vec2<i32>) -> (r: Option<&LandscapeDiff>)
        ensures
            r.is_some() == self@.dom().contains(coords),
            r matches Some(land) ==> *land == self@[coords],
    {
        land_map_get(&self.land, coords)
    }

    /// Puts `land` at `coords`, and hands back what was there.
    pub fn insert(&mut self, coords: Vec2<i32>, land: LandscapeDiff) -> (r: Option<LandscapeDiff>)
        ensures
            final(self)@ == old(self)@.insert(coords, land),
            final(self).plugin == old(self).plugin,
            r == old(self)@.get(coords),
            old(self).wf() && land.wf() ==> final(self).wf(),
    {
        land_map_insert(&mut self.land, coords, land)
    }

    /// Takes the cell at `coords` out of the landmass, and hands back what was there.
    pub fn remove(&mut self, coords: Vec2<i32>) -> (r: Option<LandscapeDiff>)
        ensures
            final(self)@ == old(self)@.remove(coords),
            final(self).plugin == old(self).plugin,
            r == old(self)@.get(coords),
            old(self).wf() ==> final(self).wf(),
    {
        land_map_remove(&mut self.land, coords)
    }

    /// The coordinates of the cells, ordered by `x` and then by `y`.
    pub fn sorted(&self) -> (r: Vec<Vec2<i32>>)
        ensures
            forall|coords: Vec2<i32>| r@.contains(coords) == self@.dom().contains(coords),
            forall|i: int, j: int| 0 <= i <= j < r.len() ==> in_order(r[i], r[j]),
            r@.no_duplicates(),
    {
        let keys = land_map_keys(&self.land);
        let sorted = sorted_by_x_then_y(keys);
        proof {
            keys@.to_multiset_ensures();
            sorted@.to_multiset_ensures();
            keys@.lemma_multiset_has_no_duplicates();
            sorted@.lemma_multiset_has_no_duplicates_conv();
            assert forall|coords: Vec2<i32>| sorted@.contains(coords) == self@.dom().contains(
                coords,
            ) by {
                assert(sorted@.contains(coords) == (sorted@.to_multiset().count(coords) > 0));
                assert(keys@.contains(coords) == (keys@.to_multiset().count(coords) > 0));
            }
        }
        sorted
    }
}

/// A landscape record and the plugin that it was last taken from.
pub type LandscapeEntry = (Landscape, Arc<ParsedPlugin>);

/// The landscape records of a landmass, each under the coordinates of its cell and beside
/// the plugin that it was last taken from, kept in a `hashbrown::HashMap`.
#[verifier::external_body]
pub struct LandscapeMap {
    inner: hashbrown::HashMap<(i32, i32), LandscapeEntry>,
}

/// The landscape records that a [LandscapeMap] holds, each under the coordinates of its
/// cell.
pub uninterp spec fn landscape_entries(map: LandscapeMap) -> Map<Vec2<i32>, LandscapeEntry>;

/// `hashbrown::HashMap::new`: the new map holds nothing.
#[verifier::external_body]
pub(crate) fn landscape_map_new() -> (map: LandscapeMap)
    ensures
        landscape_entries(map).dom() == Set::<Vec2<i32>>::empty(),
{
    LandscapeMap { inner: hashbrown::HashMap::new() }
}

/// `hashbrown::HashMap::insert`: afterwards the map holds `entry` under `coords` and is
/// otherwise as before; what it held under `coords` before, if anything, is handed back.
#[verifier::external_body]
pub(crate) fn landscape_map_insert(map: &mut LandscapeMap, coords: Vec2<i32>, entry: LandscapeEntry) -> (r:
    Option<LandscapeEntry>)
    ensures
        landscape_entries(*final(map)) == landscape_entries(*old(map)).insert(coords, entry),
        r == landscape_entries(*old(map)).get(coords),
{
    map.inner.insert((coords.x, coords.y), entry)
}

/// `hashbrown::HashMap::get`: a reference to what the map holds under `coords`, if anything.
#[verifier::external_body]
pub(crate) fn landscape_map_get(map: &LandscapeMap, coords: Vec2<i32>) -> (r: Option<&LandscapeEntry>)
    ensures
        r.is_some() == landscape_entries(*map).dom().contains(coords),
        r matches Some(entry) ==> *entry == landscape_entries(*map)[coords],
{
    map.inner.get(&(coords.x, coords.y))
}

/// `hashbrown::HashMap::len`: the number of cells that the map holds.
#[verifier::external_body]
pub(crate) fn landscape_map_len(map: &LandscapeMap) -> (r: usize)
    ensures
        r == landscape_entries(*map).dom().len(),
{
    map.inner.len()
}

/// `hashbrown::HashMap::keys`: the coordinates under which the map holds something, each
/// once, in no order that could be told beforehand.
#[verifier::external_body]
pub(crate) fn landscape_map_keys(map: &LandscapeMap) -> (r: Vec<Vec2<i32>>)
    ensures
        r@.no_duplicates(),
        forall|coords: Vec2<i32>|
            r@.contains(coords) == landscape_entries(*map).dom().contains(coords),
{
    map.inner.keys().map(|key| Vec2 { x: key.0, y: key.1 }).collect()
}

/// A [Landmass] represents a collection of [Landscape] and the associated [ParsedPlugin].
pub struct Landmass {
    pub plugin: Arc<ParsedPlugin>,
    pub land: LandscapeMap,
}

impl Landmass {
    /// The landscape records of the landmass, each under the coordinates of its cell and
    /// beside the plugin that it was last taken from.
    pub open spec fn view(self) -> Map<Vec2<i32>, LandscapeEntry> {
        landscape_entries(self.land)
    }

    /// A landmass without cells.
    pub fn new(plugin: Arc<ParsedPlugin>) -> (r: Self)
        ensures
            r@ == Map::<Vec2<i32>, LandscapeEntry>::empty(),
            r.plugin == plugin,
    {
        let r = Self { plugin, land: landscape_map_new() };
        assert(r@ =~= Map::<Vec2<i32>, LandscapeEntry>::empty());
        r
    }

    /// Puts a copy of `land`, taken from `plugin`, at `coords`.
    pub fn insert_land(&mut self, coords: Vec2<i32>, plugin: &Arc<ParsedPlugin>, land: &Landscape)
        ensures
            final(self).plugin == old(self).plugin,
            final(self)@.dom() == old(self)@.dom().insert(coords),
            final(self)@[coords].0.same_as(*land),
            final(self)@[coords].1 == *plugin,
            forall|other: Vec2<i32>|
                other != coords && old(self)@.dom().contains(other) ==> #[trigger] final(self)@[other]
                    == old(self)@[other],
    {
        landscape_map_insert(&mut self.land, coords, (land.duplicate(), plugin.clone()));
    }

    /// The number of cells.
    pub fn len(&self) -> (r: usize)
        ensures
            r == self@.dom().len(),
    {
        landscape_map_len(&self.land)
    }

    /// The landscape record of the cell at `coords`, if there is one.
    pub fn get(&self, coords: Vec2<i32>) -> (r: Option<&Landscape>)
        ensures
            r.is_some() == self@.dom().contains(coords),
            r matches Some(land) ==> *land == self@[coords].0,
    {
        match landscape_map_get(&self.land, coords) {
            Some(entry) => Some(&entry.0),
            None => None,
        }
    }

    /// The plugin that the record of the cell at `coords` was last taken from, if there is
    /// such a cell.
    pub fn plugin_of(&self, coords: Vec2<i32>) -> (r: Option<&Arc<ParsedPlugin>>)
        ensures
            r.is_some() == self@.dom().contains(coords),
            r matches Some(plugin) ==> *plugin == self@[coords].1,
    {
        match landscape_map_get(&self.land, coords) {
            Some(entry) => Some(&entry.1),
            None => None,
        }
    }

    /// The coordinates of the cells, ordered by `x` and then by `y`.
    pub fn sorted(&self) -> (r: Vec<Vec2<i32>>)
        ensures
            forall|coords: Vec2<i32>| r@.contains(coords) == self@.dom().contains(coords),
            forall|i: int, j: int| 0 <= i <= j < r.len() ==> in_order(r[i], r[j]),
            r@.no_duplicates(),
    {
        let keys = landscape_map_keys(&self.land);
        let sorted = sorted_by_x_then_y(keys);
        proof {
            keys@.to_multiset_ensures();
            sorted@.to_multiset_ensures();
            keys@.lemma_multiset_has_no_duplicates();
            sorted@.lemma_multiset_has_no_duplicates_conv();
            assert forall|coords: Vec2<i32>| sorted@.contains(coords) == self@.dom().contains(
                coords,
            ) by {
                assert(sorted@.contains(coords) == (sorted@.to_multiset().count(coords) > 0));
                assert(keys@.contains(coords) == (keys@.to_multiset().count(coords) > 0));
            }
        }
        sorted
    }
}

/// The record that is left where the record `rhs` stomps over the record `lhs`: every
/// kind of data that `rhs` says it holds, and does hold, is taken from `rhs`, and all else
/// from `lhs`.
pub open spec fn stomped(lhs: Landscape, rhs: Landscape) -> Landscape {
    let takes_heights = rhs.landscape_flags.uses_vertex_heights_and_normals
        && rhs.vertex_heights.is_some();
    let takes_normals = rhs.landscape_flags.uses_vertex_heights_and_normals
        && rhs.vertex_normals.is_some();
    let takes_colors = rhs.landscape_flags.uses_vertex_colors && rhs.vertex_colors.is_some();
    let takes_textures = rhs.landscape_flags.uses_textures && rhs.texture_indices.is_some();
    let takes_world_map = rhs.landscape_flags.uses_world_map_data()
        && rhs.world_map_data.is_some();
    Landscape {
        flags: lhs.flags,
        grid: lhs.grid,
        landscape_flags: crate::land::landscape::LandscapeFlags {
            uses_vertex_heights_and_normals: lhs.landscape_flags.uses_vertex_heights_and_normals
                || takes_heights || takes_normals,
            uses_vertex_colors: lhs.landscape_flags.uses_vertex_colors || takes_colors,
            uses_textures: lhs.landscape_flags.uses_textures || takes_textures,
            unknown: lhs.landscape_flags.unknown,
        },
        vertex_heights: if takes_heights {
            rhs.vertex_heights
        } else {
            lhs.vertex_heights
        },
        vertex_normals: if takes_normals {
            rhs.vertex_normals
        } else {
            lhs.vertex_normals
        },
        vertex_colors: if takes_colors {
            rhs.vertex_colors
        } else {
            lhs.vertex_colors
        },
        texture_indices: if takes_textures {
            rhs.texture_indices
        } else {
            lhs.texture_indices
        },
        world_map_data: if takes_world_map {
            rhs.world_map_data
        } else {
            lhs.world_map_data
        },
    }
}

/// Returns a "merged" [Landscape] combining `rhs` and `lhs` by stomping over
/// any changes in `lhs` with the records from `rhs`.
pub fn merge_tes3_landscape(lhs: &Landscape, rhs: &Landscape) -> (land: Landscape)
    requires
        lhs.flags == rhs.flags,
        !rhs.flags.deleted,
    ensures
        land.same_as(stomped(*lhs, *rhs)),
{
    let mut land = lhs.duplicate();

    let mut old_data = lhs.landscape_flags;
    let new_data = rhs.landscape_flags;

    if new_data.uses_vertex_heights_and_normals {
        if let Some(vertex_heights) = &rhs.vertex_heights {
            old_data.uses_vertex_heights_and_normals = true;
            land.vertex_heights = Some(vertex_heights.duplicate());
        }
        if let Some(vertex_normals) = &rhs.vertex_normals {
            old_data.uses_vertex_heights_and_normals = true;
            land.vertex_normals = Some(vertex_normals.duplicate());
        }
    }

    if new_data.uses_vertex_colors {
        if let Some(vertex_colors) = &rhs.vertex_colors {
            old_data.uses_vertex_colors = true;
            land.vertex_colors = Some(vertex_colors.duplicate());
        }
    }

    if new_data.uses_textures {
        if let Some(texture_indices) = &rhs.texture_indices {
            old_data.uses_textures = true;
            land.texture_indices = Some(texture_indices.duplicate());
        }
    }

    if new_data.uses_world_map_data() {
        if let Some(world_map_data) = &rhs.world_map_data {
            land.world_map_data = Some(world_map_data.duplicate());
        }
    }

    land.landscape_flags = old_data;

    land
}

/// The kinds of data of `land` that a merge may take from `plugin`: those that the record
/// says it holds, but for those that the meta file of the plugin leaves out.
pub open spec fn allowed_data(plugin: ParsedPlugin, land: Landscape) -> LandData {
    let held = land.landscape_flags.land_data();
    LandData {
        vertex_colors: held.vertex_colors && plugin.meta.vertex_colors.included,
        textures: held.textures && plugin.meta.texture_indices.included,
        vertex_heights: held.vertex_heights && plugin.meta.height_map.included,
        vertex_normals: held.vertex_normals && plugin.meta.height_map.included,
        world_map: held.world_map && plugin.meta.world_map_data.included,
    }
}

/// Given a [ParsedPlugin] and a specific [Landscape], returns [LandData] representing
/// what should be used when creating or merging a [LandscapeDiff].
pub fn find_allowed_data(plugin: &ParsedPlugin, land: &Landscape) -> (r: LandData)
    ensures
        r == allowed_data(*plugin, *land),
{
    let mut allowed_data: LandData = land.landscape_flags.to_land_data();

    if !plugin.meta.height_map.included {
        allowed_data.vertex_heights = false;
        allowed_data.vertex_normals = false;
    }

    if !plugin.meta.vertex_colors.included {
        allowed_data.vertex_colors = false;
    }

    if !plugin.meta.texture_indices.included {
        allowed_data.textures = false;
    }

    if !plugin.meta.world_map_data.included {
        allowed_data.world_map = false;
    }

    allowed_data
}

/// The delta that a merge leaves at a position of a kind of terrain data that the old side
/// holds as `old` and the new side as `new`.
pub open spec fn merged_difference<U: RelativeTo, const T: usize>(
    rule: MergeRule,
    old: OptionalTerrainMap<U, T>,
    new: OptionalTerrainMap<U, T>,
    coords: Index2D,
) -> U::Delta where <U as RelativeTo>::Delta: ConflictResolver {
    match (old, new) {
        (Some(old), Some(new)) => combined::<U>(
            rule,
            old.difference_at(coords),
            new.difference_at(coords),
        ),
        (Some(old), None) => old.difference_at(coords),
        (None, Some(new)) => new.difference_at(coords),
        (None, None) => U::zero(),
    }
}

/// What becomes of a kind of terrain data that is merged and then masked: it has the
/// reference of the old side, or of the new side where the old side holds nothing, and
/// the merged deltas at the positions that the mask allows.
pub open spec fn is_masked_merge<U: RelativeTo, const T: usize>(
    rule: MergeRule,
    merged: OptionalTerrainMap<U, T>,
    old: OptionalTerrainMap<U, T>,
    new: OptionalTerrainMap<U, T>,
    allowed: spec_fn(Index2D) -> bool,
) -> bool where <U as RelativeTo>::Delta: ConflictResolver {
    if old.is_none() && new.is_none() {
        merged.is_none()
    } else {
        merged matches Some(map) && map.wf() && forall|p: Index2D|
            p.within(T) ==> #[trigger] map.difference_at(p) == (if allowed(p) {
                merged_difference(rule, old, new, p)
            } else {
                U::zero()
            }) && map.reference_at(p) == (match old {
                Some(old) => old.reference_at(p),
                None => new.unwrap().reference_at(p),
            })
    }
}

/// What the merge of the landscape diff `new` of `plugin` into the landscape diff `old`
/// leaves: every kind of terrain data is merged by the rule that the meta file of the plugin
/// asks for, the vertex normals by the rule for the elevation; vertex normals are kept only
/// where the merged elevation differs from its reference; and the plugin is noted with the
/// kinds of terrain data that it modified.
pub open spec fn is_landscape_merge(
    merged: LandscapeDiff,
    plugin: Arc<ParsedPlugin>,
    old: LandscapeDiff,
    new: LandscapeDiff,
) -> bool {
    &&& merged.wf()
    &&& merged.coords == old.coords
    &&& merged.flags == old.flags
    &&& merged.plugins@ == old.plugins@.push((plugin, new.modified_kinds()))
    &&& is_merged_by(
        preferred_rule(plugin.meta.height_map.conflict_strategy, MergeRule::Resolve),
        merged.height_map,
        old.height_map,
        new.height_map,
    )
    &&& is_masked_merge(
        preferred_rule(plugin.meta.height_map.conflict_strategy, MergeRule::Resolve),
        merged.vertex_normals,
        old.vertex_normals,
        new.vertex_normals,
        changed_heights(merged.height_map),
    )
    &&& is_merged_by(
        preferred_rule(plugin.meta.world_map_data.conflict_strategy, MergeRule::Resolve),
        merged.world_map_data,
        old.world_map_data,
        new.world_map_data,
    )
    &&& is_merged_by(
        preferred_rule(plugin.meta.vertex_colors.conflict_strategy, MergeRule::Resolve),
        merged.vertex_colors,
        old.vertex_colors,
        new.vertex_colors,
    )
    &&& is_merged_by(
        preferred_rule(plugin.meta.texture_indices.conflict_strategy, MergeRule::Overwrite),
        merged.texture_indices,
        old.texture_indices,
        new.texture_indices,
    )
}

/// Merges `old` and `new` [LandscapeDiff].
pub fn merge_landscape_diff(plugin: &Arc<ParsedPlugin>, old: &LandscapeDiff, new: &LandscapeDiff) -> (merged:
    LandscapeDiff)
    requires
        old.wf(),
        new.wf(),
    ensures
        is_landscape_merge(merged, *plugin, *old, *new),
        merged.vertex_normals.modified() ==> merged.height_map.modified(),
{
    let old_height_map = old.height_map.as_ref();
    let new_height_map = new.height_map.as_ref();
    let old_vertex_normals = old.vertex_normals.as_ref();
    let new_vertex_normals = new.vertex_normals.as_ref();
    let old_world_map_data = old.world_map_data.as_ref();
    let new_world_map_data = new.world_map_data.as_ref();
    let old_vertex_colors = old.vertex_colors.as_ref();
    let new_vertex_colors = new.vertex_colors.as_ref();
    let old_texture_indices = old.texture_indices.as_ref();
    let new_texture_indices = new.texture_indices.as_ref();
    let mut plugins: Vec<(Arc<ParsedPlugin>, LandData)> = old.duplicate().plugins;
    plugins.push((plugin.clone(), new.modified_data()));

    let height_map = apply_merge_strategy(
        Channel::HeightMap,
        old_height_map,
        new_height_map,
        plugin.meta.height_map.conflict_strategy,
    );

    let unmasked = apply_merge_strategy(
        Channel::VertexNormals,
        old_vertex_normals,
        new_vertex_normals,
        plugin.meta.height_map.conflict_strategy,
    );
    let vertex_normals = match &unmasked {
        Some(vertex_normals) => Some(
            LandscapeDiff::apply_mask(
                vertex_normals,
                match &height_map {
                    Some(map) => Some(map.differences()),
                    None => None,
                },
            ),
        ),
        None => None,
    };

    let world_map_data = apply_merge_strategy(
        Channel::WorldMapData,
        old_world_map_data,
        new_world_map_data,
        plugin.meta.world_map_data.conflict_strategy,
    );

    let vertex_colors = apply_merge_strategy(
        Channel::VertexColors,
        old_vertex_colors,
        new_vertex_colors,
        plugin.meta.vertex_colors.conflict_strategy,
    );

    let texture_indices = apply_merge_strategy(
        Channel::TextureIndices,
        old_texture_indices,
        new_texture_indices,
        plugin.meta.texture_indices.conflict_strategy,
    );

    let merged = LandscapeDiff {
        coords: old.coords,
        flags: old.flags,
        height_map,
        vertex_normals,
        world_map_data,
        vertex_colors,
        texture_indices,
        plugins,
    };
    proof {
        assert(held(old_height_map) == old.height_map);
        assert(held(new_height_map) == new.height_map);
        assert(held(old_vertex_normals) == old.vertex_normals);
        assert(held(new_vertex_normals) == new.vertex_normals);
        assert(held(old_world_map_data) == old.world_map_data);
        assert(held(new_world_map_data) == new.world_map_data);
        assert(held(old_vertex_colors) == old.vertex_colors);
        assert(held(new_vertex_colors) == new.vertex_colors);
        assert(held(old_texture_indices) == old.texture_indices);
        assert(held(new_texture_indices) == new.texture_indices);
        if merged.vertex_normals.is_some() {
            let map = merged.vertex_normals.unwrap();
            let rule = preferred_rule(
                plugin.meta.height_map.conflict_strategy,
                MergeRule::Resolve,
            );
            let source = unmasked.unwrap();
            assert forall|p: Index2D| p.within(65) implies #[trigger] map.difference_at(p) == (
            if changed_heights(merged.height_map)(p) {
                merged_difference(rule, old.vertex_normals, new.vertex_normals, p)
            } else {
                <crate::land::terrain_map::Vec3<i8> as RelativeTo>::zero()
            }) && map.reference_at(p) == (match old.vertex_normals {
                Some(old) => old.reference_at(p),
                None => new.vertex_normals.unwrap().reference_at(p),
            }) by {
                assert(source.difference_at(p) == merged_difference(
                    rule,
                    old.vertex_normals,
                    new.vertex_normals,
                    p,
                ));
                assert(map.reference_at(p) == source.reference_at(p));
            }
            if map.has_differences() {
                let p = choose|p: Index2D| p.within(65) && #[trigger] map.changed_at(p);
                assert(changed_heights(merged.height_map)(p));
                assert(merged.height_map.unwrap().changed_at(p));
            }
        }
    }
    merged
}

/// The landscape record that a landmass holds at `coords`, if any.
pub open spec fn record_at(landmass: Landmass, coords: Vec2<i32>) -> Option<Landscape> {
    if landmass@.dom().contains(coords) {
        Some(landmass@[coords].0)
    } else {
        None
    }
}

/// Creates a [LandmassDiff] representing the set of [LandscapeDiff] between the
/// `landmass` and `reference` [Landmass].
pub fn find_landmass_diff(landmass: &Landmass, reference: &Landmass) -> (r: LandmassDiff)
    ensures
        r.wf(),
        r.plugin == landmass.plugin,
        r@.dom() == landmass@.dom(),
        forall|coords: Vec2<i32>| #[trigger]
            r@.dom().contains(coords) ==> r@[coords].is_difference(
                landmass@[coords].0,
                record_at(*reference, coords),
                allowed_data(*landmass.plugin, landmass@[coords].0),
            ),
{
    let mut landmass_diff = LandmassDiff::new(landmass.plugin.clone());
    let keys = landmass.sorted();

    let mut i: usize = 0;
    while i < keys.len()
        invariant
            i <= keys.len(),
            forall|coords: Vec2<i32>| keys@.contains(coords) == landmass@.dom().contains(coords),
            landmass_diff.wf(),
            landmass_diff.plugin == landmass.plugin,
            forall|coords: Vec2<i32>|
                landmass_diff@.dom().contains(coords) == keys@.subrange(0, i as int).contains(
                    coords,
                ),
            forall|coords: Vec2<i32>| #[trigger]
                landmass_diff@.dom().contains(coords) ==> landmass_diff@[coords].is_difference(
                    landmass@[coords].0,
                    record_at(*reference, coords),
                    allowed_data(*landmass.plugin, landmass@[coords].0),
                ),
        decreases keys.len() - i,
    {
        let coords = keys[i];
        proof {
            assert(keys@.contains(coords));
        }
        match landmass.get(coords) {
            Some(land) => {
                let reference_land = reference.get(coords);
                let allowed_data = find_allowed_data(&landmass.plugin, land);
                let landscape_diff = LandscapeDiff::from_difference(
                    land,
                    reference_land,
                    allowed_data,
                );
                let ghost before = landmass_diff@;
                landmass_diff.insert(coords, landscape_diff);
                proof {
                    assert(held(reference_land) == record_at(*reference, coords));
                    lemma_subrange_grows(keys@, i as int);
                }
            },
            None => {
                proof {
                    assert(false);
                }
            },
        }
        i = i + 1;
    }
    proof {
        assert(keys@.subrange(0, keys.len() as int) == keys@);
        assert(landmass_diff@.dom() =~= landmass@.dom());
    }

    landmass_diff
}

/// One more element of a sequence is counted: what was among the first `count` is among the
/// first `count + 1`, and so is the element at `count`, and nothing else.
pub proof fn lemma_subrange_grows<V>(s: Seq<V>, count: int)
    requires
        0 <= count < s.len(),
    ensures
        forall|value: V|
            s.subrange(0, count + 1).contains(value) == (s.subrange(0, count).contains(value)
                || value == s[count]),
{
    let shorter = s.subrange(0, count);
    let longer = s.subrange(0, count + 1);
    assert(longer == shorter.push(s[count]));
    assert forall|value: V|
        longer.contains(value) == (shorter.contains(value) || value == s[count]) by {
        if shorter.contains(value) {
            let j = choose|j: int| 0 <= j < shorter.len() && shorter[j] == value;
            assert(longer[j] == value);
        }
        if value == s[count] {
            assert(longer[count] == value);
        }
        if longer.contains(value) {
            let j = choose|j: int| 0 <= j < longer.len() && longer[j] == value;
            if j < count {
                assert(shorter[j] == value);
            }
        }
    }
}

/// What a landmass holds for a cell that a plugin brings and that it did not hold before:
/// the landscape diff of the plugin, with the plugin noted as its source.
pub open spec fn is_landscape_copy(
    copy: LandscapeDiff,
    plugin: Arc<ParsedPlugin>,
    land: LandscapeDiff,
) -> bool {
    &&& copy.wf()
    &&& copy.coords == land.coords
    &&& copy.flags == land.flags
    &&& copy.plugins@ == land.plugins@.push((plugin, land.modified_kinds()))
    &&& same_terrain(copy.height_map, land.height_map)
    &&& same_terrain(copy.vertex_normals, land.vertex_normals)
    &&& same_terrain(copy.world_map_data, land.world_map_data)
    &&& same_terrain(copy.vertex_colors, land.vertex_colors)
    &&& same_terrain(copy.texture_indices, land.texture_indices)
}

/// What the merge of the landmass of a plugin into a landmass leaves at `coords`.
pub open spec fn is_merged_cell(
    merged: Map<Vec2<i32>, LandscapeDiff>,
    old: Map<Vec2<i32>, LandscapeDiff>,
    plugin: LandmassDiff,
    coords: Vec2<i32>,
) -> bool {
    if plugin@.dom().contains(coords) {
        merged.dom().contains(coords) && if old.dom().contains(coords) {
            is_landscape_merge(merged[coords], plugin.plugin, old[coords], plugin@[coords])
        } else {
            is_landscape_copy(merged[coords], plugin.plugin, plugin@[coords])
        }
    } else {
        merged.dom().contains(coords) == old.dom().contains(coords) && (old.dom().contains(coords)
            ==> merged[coords] == old[coords])
    }
}

/// Merges `plugin` [LandmassDiff] into `merged` [LandmassDiff]: a cell that both hold is
/// merged, a cell that only the plugin holds is copied, and every other cell is left as it
/// is.
pub fn merge_landmass_into(merged: &mut LandmassDiff, plugin: &LandmassDiff)
    requires
        old(merged).wf(),
        plugin.wf(),
    ensures
        final(merged).wf(),
        final(merged).plugin == old(merged).plugin,
        forall|coords: Vec2<i32>| #[trigger]
            is_merged_cell(final(merged)@, old(merged)@, *plugin, coords),
{
    let keys = plugin.sorted();
    let ghost original = merged@;

    let mut i: usize = 0;
    while i < keys.len()
        invariant
            i <= keys.len(),
            forall|coords: Vec2<i32>| keys@.contains(coords) == plugin@.dom().contains(coords),
            keys@.no_duplicates(),
            plugin.wf(),
            merged.wf(),
            merged.plugin == old(merged).plugin,
            forall|coords: Vec2<i32>|
                keys@.subrange(0, i as int).contains(coords) ==> #[trigger] is_merged_cell(
                    merged@,
                    original,
                    *plugin,
                    coords,
                ),
            forall|coords: Vec2<i32>|
                !keys@.subrange(0, i as int).contains(coords) ==> #[trigger] merged@.dom().contains(
                    coords,
                ) == original.dom().contains(coords),
            forall|coords: Vec2<i32>|
                !keys@.subrange(0, i as int).contains(coords) && original.dom().contains(coords)
                    ==> #[trigger] merged@[coords] == original[coords],
        decreases keys.len() - i,
    {
        let coords = keys[i];
        let ghost before = merged@;
        proof {
            assert(keys@.contains(coords));
            lemma_subrange_grows(keys@, i as int);
            if keys@.subrange(0, i as int).contains(coords) {
                let j = choose|j: int|
                    0 <= j < i && keys@.subrange(0, i as int)[j] == coords;
                assert(keys@[j] == keys@[i as int]);
            }
        }
        match plugin.get(coords) {
            Some(land) => {
                let updated = match merged.get(coords) {
                    Some(merged_land) => merge_landscape_diff(&plugin.plugin, merged_land, land),
                    None => {
                        let mut merged_land = land.duplicate();
                        merged_land.plugins.push((plugin.plugin.clone(), land.modified_data()));
                        merged_land
                    },
                };
                merged.insert(coords, updated);
                proof {
                    assert forall|other: Vec2<i32>|
                        keys@.subrange(0, i + 1).contains(other) implies #[trigger] is_merged_cell(
                        merged@,
                        original,
                        *plugin,
                        other,
                    ) by {
                        if other != coords {
                            assert(is_merged_cell(before, original, *plugin, other));
                        }
                    }
                }
            },
            None => {
                proof {
                    assert(false);
                }
            },
        }
        i = i + 1;
    }
    proof {
        assert(keys@.subrange(0, keys.len() as int) == keys@);
        assert forall|coords: Vec2<i32>| #[trigger]
            is_merged_cell(merged@, original, *plugin, coords) by {
            if !keys@.contains(coords) {
                assert(merged@.dom().contains(coords) == original.dom().contains(coords));
            }
        }
    }
}

/// Creates a [LandmassDiff] representing a set of empty [LandscapeDiff] for the `reference`
/// [Landmass]: every cell holds the terrain of its record as its reference, and no deltas.
pub fn create_merged_lands_from_reference(reference: &Landmass) -> (r: LandmassDiff)
    ensures
        r.wf(),
        r.plugin == reference.plugin,
        r@.dom() == reference@.dom(),
        forall|coords: Vec2<i32>| #[trigger]
            r@.dom().contains(coords) ==> r@[coords].is_reference(
                reference@[coords].1,
                reference@[coords].0,
                reference@[coords].0.landscape_flags.land_data(),
            ),
{
    let mut landmass_diff = LandmassDiff::new(reference.plugin.clone());
    let keys = reference.sorted();

    let mut i: usize = 0;
    while i < keys.len()
        invariant
            i <= keys.len(),
            forall|coords: Vec2<i32>| keys@.contains(coords) == reference@.dom().contains(coords),
            landmass_diff.wf(),
            landmass_diff.plugin == reference.plugin,
            forall|coords: Vec2<i32>|
                landmass_diff@.dom().contains(coords) == keys@.subrange(0, i as int).contains(
                    coords,
                ),
            forall|coords: Vec2<i32>| #[trigger]
                landmass_diff@.dom().contains(coords) ==> landmass_diff@[coords].is_reference(
                    reference@[coords].1,
                    reference@[coords].0,
                    reference@[coords].0.landscape_flags.land_data(),
                ),
        decreases keys.len() - i,
    {
        let coords = keys[i];
        proof {
            assert(keys@.contains(coords));
        }
        match (reference.get(coords), reference.plugin_of(coords)) {
            (Some(land), Some(plugin)) => {
                let allowed_data = land.landscape_flags.to_land_data();
                let landscape_diff = LandscapeDiff::from_reference(
                    plugin.clone(),
                    land,
                    allowed_data,
                );
                landmass_diff.insert(coords, landscape_diff);
                proof {
                    lemma_subrange_grows(keys@, i as int);
                }
            },
            _ => {
                proof {
                    assert(false);
                }
            },
        }
        i = i + 1;
    }
    proof {
        assert(keys@.subrange(0, keys.len() as int) == keys@);
        assert(landmass_diff@.dom() =~= reference@.dom());
    }

    landmass_diff
}

/// What the first `count` of `landmasses` leave at `coords` where each stomps over what
/// the landmasses before it left there: the stomped record, beside the plugin of the last
/// landmass that holds the cell.
pub open spec fn stomped_until(landmasses: Seq<Landmass>, count: nat, coords: Vec2<i32>) -> Option<
    LandscapeEntry,
>
    decreases count,
{
    if count == 0 {
        None
    } else {
        let before = stomped_until(landmasses, (count - 1) as nat, coords);
        let current = landmasses[count - 1];
        if current@.dom().contains(coords) {
            match before {
                Some(entry) => Some((stomped(entry.0, current@[coords].0), current.plugin)),
                None => Some((current@[coords].0, current.plugin)),
            }
        } else {
            before
        }
    }
}

/// Whether every record of `landmasses` may stomp over what the landmasses before it left
/// at its cell: it has the flags of what it stomps over, and it is not deleted.
pub open spec fn can_stomp(landmasses: Seq<Landmass>) -> bool {
    forall|i: int, coords: Vec2<i32>|
        0 <= i < landmasses.len() ==> #[trigger] can_stomp_at(landmasses, i, coords)
}

/// Whether the record that the landmass at `place` holds for the cell at `coords`, if it
/// holds one, may stomp over what the landmasses before it left there.
pub open spec fn can_stomp_at(landmasses: Seq<Landmass>, place: int, coords: Vec2<i32>) -> bool {
    landmasses[place]@.dom().contains(coords) && stomped_until(
        landmasses,
        place as nat,
        coords,
    ).is_some() ==> stomped_until(landmasses, place as nat, coords).unwrap().0.flags
        == landmasses[place]@[coords].0.flags && !landmasses[place]@[coords].0.flags.deleted
}

/// Records that hold the same stomp to records that hold the same.
pub proof fn lemma_stomped_same(lhs: Landscape, same: Landscape, rhs: Landscape)
    requires
        same.same_as(lhs),
    ensures
        stomped(same, rhs).same_as(stomped(lhs, rhs)),
{
}

/// To hold the same carries over from one pair of records to the next.
pub proof fn lemma_same_as_transitive(first: Landscape, second: Landscape, third: Landscape)
    requires
        first.same_as(second),
        second.same_as(third),
    ensures
        first.same_as(third),
{
}

/// `merged` holds, for every cell, what the first `count` of `landmasses` leave there, but
/// that it holds for the cells that `done` names what one landmass more leaves there.
pub open spec fn is_stomped_state(
    merged: Map<Vec2<i32>, LandscapeEntry>,
    landmasses: Seq<Landmass>,
    count: nat,
    done: Seq<Vec2<i32>>,
) -> bool {
    forall|coords: Vec2<i32>| #[trigger]
        holds_stomped(merged, expected_entry(landmasses, count, done, coords), coords)
}

/// What is expected at `coords` while one landmass more is stomped over the first `count`:
/// for the cells that `done` names, what one landmass more leaves there, and for every
/// other cell what the first `count` leave there.
pub open spec fn expected_entry(
    landmasses: Seq<Landmass>,
    count: nat,
    done: Seq<Vec2<i32>>,
    coords: Vec2<i32>,
) -> Option<LandscapeEntry> {
    if done.contains(coords) {
        stomped_until(landmasses, count + 1, coords)
    } else {
        stomped_until(landmasses, count, coords)
    }
}

/// `merged` holds at `coords` what `expected` says: nothing, or a record that holds the
/// same, beside the same plugin.
pub open spec fn holds_stomped(
    merged: Map<Vec2<i32>, LandscapeEntry>,
    expected: Option<LandscapeEntry>,
    coords: Vec2<i32>,
) -> bool {
    &&& merged.dom().contains(coords) == expected.is_some()
    &&& merged.dom().contains(coords) ==> merged[coords].0.same_as(expected.unwrap().0)
        && merged[coords].1 == expected.unwrap().1
}

/// Creates a single [Landmass] by calling [merge_tes3_landscape] on all `landmasses`.
/// Nothing is returned where a record may not stomp over what the landmasses before it left
/// at its cell.
pub fn merge_tes3_landmasses(plugin: &Arc<ParsedPlugin>, landmasses: &Vec<Landmass>) -> (r: Option<
    Landmass,
>)
    ensures
        r.is_some() == can_stomp(landmasses@),
        r matches Some(merged) ==> merged.plugin == *plugin && is_stomped_state(
            merged@,
            landmasses@,
            landmasses.len() as nat,
            Seq::empty(),
        ),
{
    let mut merged_landmass = Landmass::new(plugin.clone());

    let mut k: usize = 0;
    while k < landmasses.len()
        invariant
            k <= landmasses.len(),
            forall|i: int, coords: Vec2<i32>|
                0 <= i < k ==> #[trigger] can_stomp_at(landmasses@, i, coords),
            merged_landmass.plugin == *plugin,
            is_stomped_state(merged_landmass@, landmasses@, k as nat, Seq::empty()),
        decreases landmasses.len() - k,
    {
        let landmass = &landmasses[k];
        let keys = landmass.sorted();
        let mut i: usize = 0;
        proof {
            assert(keys@.subrange(0, 0) =~= Seq::<Vec2<i32>>::empty());
        }
        while i < keys.len()
            invariant
                i <= keys.len(),
                k < landmasses.len(),
                landmass == &landmasses[k as int],
                forall|coords: Vec2<i32>| keys@.contains(coords) == landmass@.dom().contains(coords),
                keys@.no_duplicates(),
                merged_landmass.plugin == *plugin,
                forall|coords: Vec2<i32>|
                    keys@.subrange(0, i as int).contains(coords) ==> #[trigger] can_stomp_at(
                        landmasses@,
                        k as int,
                        coords,
                    ),
                is_stomped_state(
                    merged_landmass@,
                    landmasses@,
                    k as nat,
                    keys@.subrange(0, i as int),
                ),
            decreases keys.len() - i,
        {
            let coords = keys[i];
            let ghost before = merged_landmass@;
            let ghost done = keys@.subrange(0, i as int);
            proof {
                assert(keys@.contains(coords));
                lemma_subrange_grows(keys@, i as int);
                if done.contains(coords) {
                    let j = choose|j: int| 0 <= j < i && done[j] == coords;
                    assert(keys@[j] == keys@[i as int]);
                }
                assert(holds_stomped(
                    before,
                    expected_entry(landmasses@, k as nat, done, coords),
                    coords,
                ));
            }
            match landmass.get(coords) {
                Some(land) => {
                    let merged_land = match merged_landmass.get(coords) {
                        Some(merged_land) => {
                            if !(merged_land.flags == land.flags) || land.flags.deleted {
                                proof {
                                    assert(!can_stomp_at(landmasses@, k as int, coords));
                                }
                                return None;
                            }
                            merge_tes3_landscape(merged_land, land)
                        },
                        None => land.duplicate(),
                    };
                    merged_landmass.insert_land(coords, &landmass.plugin, &merged_land);
                    proof {
                        let after = merged_landmass@;
                        let more = keys@.subrange(0, i + 1);
                        let expected = stomped_until(landmasses@, (k + 1) as nat, coords);
                        if before.dom().contains(coords) {
                            let earlier = stomped_until(landmasses@, k as nat, coords).unwrap();
                            lemma_stomped_same(earlier.0, before[coords].0, *land);
                            lemma_same_as_transitive(
                                merged_land,
                                stomped(before[coords].0, *land),
                                expected.unwrap().0,
                            );
                        }
                        lemma_same_as_transitive(after[coords].0, merged_land, expected.unwrap().0);
                        assert(holds_stomped(after, expected, coords));
                        assert(can_stomp_at(landmasses@, k as int, coords));
                        assert forall|other: Vec2<i32>| #[trigger]
                            holds_stomped(
                                after,
                                expected_entry(landmasses@, k as nat, more, other),
                                other,
                            ) by {
                            if other != coords {
                                assert(holds_stomped(
                                    before,
                                    expected_entry(landmasses@, k as nat, done, other),
                                    other,
                                ));
                            }
                        }
                    }
                },
                None => {
                    proof {
                        assert(false);
                    }
                },
            }
            i = i + 1;
        }
        proof {
            assert(keys@.subrange(0, keys.len() as int) == keys@);
            let after = merged_landmass@;
            assert forall|coords: Vec2<i32>| #[trigger]
                holds_stomped(
                    after,
                    expected_entry(landmasses@, (k + 1) as nat, Seq::empty(), coords),
                    coords,
                ) by {
                assert(holds_stomped(
                    after,
                    expected_entry(landmasses@, k as nat, keys@, coords),
                    coords,
                ));
            }
            assert forall|i: int, coords: Vec2<i32>| 0 <= i < k + 1 implies #[trigger] can_stomp_at(
                landmasses@,
                i,
                coords,
            ) by {
                if i == k {
                    if keys@.contains(coords) {
                        assert(can_stomp_at(landmasses@, k as int, coords));
                    }
                }
            }
        }
        k = k + 1;
    }

    Some(merged_landmass)
}

/// Whether `remapped_textures` has a new index for every texture that `land` names.
pub open spec fn names_remapped_textures(land: Landscape, remapped_textures: Map<u16, u16>) -> bool {
    land.texture_indices matches Some(indices) ==> forall|p: Index2D|
        p.within(16) ==> remap(remapped_textures, IndexVTEX(#[trigger] indices[p])).is_some()
}

/// `copy` is the record `land` with the textures that it names remapped.
pub open spec fn is_remapped_copy(
    copy: Landscape,
    land: Landscape,
    remapped_textures: Map<u16, u16>,
) -> bool {
    &&& copy.same_as(Landscape { texture_indices: copy.texture_indices, ..land })
    &&& copy.texture_indices.is_some() == land.texture_indices.is_some()
    &&& copy.texture_indices matches Some(indices) ==> forall|p: Index2D|
        p.within(16) ==> Some(IndexVTEX(#[trigger] indices[p])) == remap(
            remapped_textures,
            IndexVTEX(land.texture_indices.unwrap()[p]),
        )
}

/// Remaps the textures that a texture grid names.
pub fn remap_texture_indices(indices: &TerrainMap<u16, 16>, remapped_textures: &RemappedTextures) -> (r:
    TerrainMap<u16, 16>)
    requires
        forall|p: Index2D|
            p.within(16) ==> remapped_textures.remapped(IndexVTEX(#[trigger] indices[p])).is_some(),
    ensures
        forall|p: Index2D|
            p.within(16) ==> Some(IndexVTEX(#[trigger] r[p])) == remapped_textures.remapped(
                IndexVTEX(indices[p]),
            ),
{
    let mut remapped = indices.duplicate();
    let mut y: usize = 0;
    while y < 16
        invariant
            y <= 16,
            forall|p: Index2D|
                p.within(16) ==> remapped_textures.remapped(
                    IndexVTEX(#[trigger] indices[p]),
                ).is_some(),
            forall|p: Index2D|
                p.within(16) ==> (if walked(p, 0, y) {
                    Some(IndexVTEX(#[trigger] remapped[p])) == remapped_textures.remapped(
                        IndexVTEX(indices[p]),
                    )
                } else {
                    remapped[p] == indices[p]
                }),
        decreases 16 - y,
    {
        let mut x: usize = 0;
        while x < 16
            invariant
                x <= 16,
                y < 16,
                forall|p: Index2D|
                    p.within(16) ==> remapped_textures.remapped(
                        IndexVTEX(#[trigger] indices[p]),
                    ).is_some(),
                forall|p: Index2D|
                    p.within(16) ==> (if walked(p, x, y) {
                        Some(IndexVTEX(#[trigger] remapped[p])) == remapped_textures.remapped(
                            IndexVTEX(indices[p]),
                        )
                    } else {
                        remapped[p] == indices[p]
                    }),
            decreases 16 - x,
        {
            let coords = Index2D::new(x, y);
            let idx = remapped.at(coords);
            proof {
                assert(remapped_textures.remapped(IndexVTEX(indices[coords])).is_some());
            }
            remapped.set(coords, remapped_textures.remapped_index(IndexVTEX::new(idx)).as_u16());
            x = x + 1;
        }
        y = y + 1;
    }
    remapped
}

/// The place of the last of the first `count` records that is the record of the cell at
/// `coords`.
pub open spec fn last_record_at(landscapes: Seq<Landscape>, count: nat, coords: Vec2<i32>) -> Option<
    int,
>
    decreases count,
{
    if count == 0 {
        None
    } else if landscapes[count - 1].grid.0 == coords.x && landscapes[count - 1].grid.1
        == coords.y {
        Some(count - 1)
    } else {
        last_record_at(landscapes, (count - 1) as nat, coords)
    }
}

/// `landmass` holds the first `count` landscape records of `plugin` with their textures
/// remapped: for every cell the last record of that cell.
pub open spec fn holds_remapped_records(
    landmass: Landmass,
    plugin: Arc<ParsedPlugin>,
    count: nat,
    remapped_textures: Map<u16, u16>,
) -> bool {
    &&& landmass.plugin == plugin
    &&& forall|coords: Vec2<i32>| #[trigger]
        landmass@.dom().contains(coords) == last_record_at(
            plugin.records.landscapes@,
            count,
            coords,
        ).is_some()
    &&& forall|coords: Vec2<i32>| #[trigger]
        landmass@.dom().contains(coords) ==> landmass@[coords].1 == plugin && is_remapped_copy(
            landmass@[coords].0,
            plugin.records.landscapes@[last_record_at(
                plugin.records.landscapes@,
                count,
                coords,
            ).unwrap()],
            remapped_textures,
        )
}

/// Copy [Landscape] records from `plugin` and remap the texture indices with
/// [RemappedTextures]. Nothing is returned where the plugin has no landscape records.
pub fn try_copy_landscape_and_remap_textures(
    plugin: &Arc<ParsedPlugin>,
    remapped_textures: &RemappedTextures,
) -> (r: Option<Landmass>)
    requires
        forall|i: int|
            0 <= i < plugin.records.landscapes@.len() ==> names_remapped_textures(
                #[trigger] plugin.records.landscapes@[i],
                remapped_textures@,
            ),
    ensures
        r.is_some() == (plugin.records.landscapes@.len() > 0),
        r matches Some(landmass) ==> holds_remapped_records(
            landmass,
            *plugin,
            plugin.records.landscapes@.len(),
            remapped_textures@,
        ),
{
    let mut landmass = Landmass::new(plugin.clone());
    let landscapes = &plugin.records.landscapes;

    let mut i: usize = 0;
    while i < landscapes.len()
        invariant
            i <= landscapes.len(),
            landscapes == &plugin.records.landscapes,
            forall|k: int|
                0 <= k < plugin.records.landscapes@.len() ==> names_remapped_textures(
                    #[trigger] plugin.records.landscapes@[k],
                    remapped_textures@,
                ),
            holds_remapped_records(landmass, *plugin, i as nat, remapped_textures@),
        decreases landscapes.len() - i,
    {
        let land = &landscapes[i];
        let mut updated_land = land.duplicate();
        proof {
            assert(names_remapped_textures(plugin.records.landscapes@[i as int], remapped_textures@));
        }

        match &land.texture_indices {
            Some(texture_indices) => {
                updated_land.texture_indices = Some(
                    remap_texture_indices(texture_indices, remapped_textures),
                );
            },
            None => {},
        }

        let coords = crate::land::conversions::coordinates(land);
        let ghost before = landmass@;
        landmass.insert_land(coords, plugin, &updated_land);
        proof {
            let after = landmass@;
            let records = plugin.records.landscapes@;
            assert forall|other: Vec2<i32>| #[trigger]
                after.dom().contains(other) == last_record_at(
                    records,
                    (i + 1) as nat,
                    other,
                ).is_some() by {
                if other != coords {
                    assert(before.dom().contains(other) == last_record_at(
                        records,
                        i as nat,
                        other,
                    ).is_some());
                }
            }
            assert forall|other: Vec2<i32>| #[trigger]
                after.dom().contains(other) implies after[other].1 == *plugin && is_remapped_copy(
                after[other].0,
                records[last_record_at(records, (i + 1) as nat, other).unwrap()],
                remapped_textures@,
            ) by {
                if other != coords {
                    assert(before.dom().contains(other));
                    assert(last_record_at(records, (i + 1) as nat, other) == last_record_at(
                        records,
                        i as nat,
                        other,
                    ));
                    assert(after[other] == before[other]);
                } else {
                    assert(last_record_at(records, (i + 1) as nat, other) == Some(i as int));
                    let copy = after[other].0;
                    assert(copy.same_as(updated_land));
                    assert(records[i as int] == *land);
                    if land.texture_indices.is_some() {
                        let indices = copy.texture_indices.unwrap();
                        let updated = updated_land.texture_indices.unwrap();
                        assert forall|p: Index2D| p.within(16) implies Some(
                            IndexVTEX(#[trigger] indices[p]),
                        ) == remap(
                            remapped_textures@,
                            IndexVTEX(land.texture_indices.unwrap()[p]),
                        ) by {
                            assert(indices[p] == updated[p]);
                        }
                    }
                }
            }
        }
        i = i + 1;
    }

    if landscapes.len() > 0 {
        Some(landmass)
    } else {
        None
    }
}

/// The new indices that the first `count` texture records of a plugin give: the index by
/// which the landscapes of the plugin name a texture is remapped to the index by which
/// the texture is known.
pub open spec fn remapped_until(
    textures: Seq<LandscapeTexture>,
    count: nat,
    known: Map<Seq<char>, KnownTexture>,
) -> Map<u16, u16>
    decreases count,
{
    if count == 0 {
        Map::empty()
    } else {
        remapped_until(textures, (count - 1) as nat, known).insert(
            (textures[count - 1].index.unwrap() + 1) as u16,
            (known[textures[count - 1].id@].inner.index.unwrap() + 1) as u16,
        )
    }
}

/// The new indices that texture records give do not depend on the textures that become
/// known later.
pub proof fn lemma_remapped_until_stable(
    textures: Seq<LandscapeTexture>,
    count: nat,
    known: Map<Seq<char>, KnownTexture>,
    later: Map<Seq<char>, KnownTexture>,
)
    requires
        count <= textures.len(),
        forall|k: int|
            0 <= k < count ==> known.dom().contains(#[trigger] textures[k].id@) && later[textures[k].id@]
                == known[textures[k].id@],
    ensures
        remapped_until(textures, count, later) == remapped_until(textures, count, known),
    decreases count,
{
    if count > 0 {
        lemma_remapped_until_stable(textures, (count - 1) as nat, known, later);
        assert(known.dom().contains(textures[count - 1].id@));
    }
}

/// What is asked of the records of a plugin whose landmass is created: every texture
/// record has an index that a texture grid can name and is not deleted, and every
/// landscape names only the default texture and textures that the plugin brings.
pub open spec fn has_sound_records(plugin: ParsedPlugin) -> bool {
    &&& forall|k: int|
        0 <= k < plugin.records.landscape_textures@.len() ==> has_texture_index(
            #[trigger] plugin.records.landscape_textures@[k],
        ) && plugin.records.landscape_textures@[k].index.unwrap() < u16::MAX
            && !plugin.records.landscape_textures@[k].flags.deleted
    &&& forall|i: int, p: Index2D|
        0 <= i < plugin.records.landscapes@.len() && p.within(16) && (
        #[trigger] plugin.records.landscapes@[i]).texture_indices.is_some() ==> {
            let index = #[trigger] plugin.records.landscapes@[i].texture_indices.unwrap()[p];
            index == 0 || exists|k: int|
                0 <= k < plugin.records.landscape_textures@.len()
                    && (#[trigger] plugin.records.landscape_textures@[k]).index.unwrap() + 1
                    == index
        }
}

/// Whether a texture grid names by `index` one of the first `count` of `textures`.
pub open spec fn is_brought(textures: Seq<LandscapeTexture>, count: int, index: int) -> bool {
    exists|k: int| 0 <= k < count && (#[trigger] textures[k]).index.unwrap() + 1 == index
}

/// Whether a texture record has an index that a texture grid can name and is not deleted.
pub open spec fn is_sound_texture(texture: LandscapeTexture) -> bool {
    has_texture_index(texture) && texture.index.unwrap() < u16::MAX && !texture.flags.deleted
}

/// Marks the indices by which a texture grid names the texture records of a plugin, or
/// tells that one of the records is not sound.
fn mark_textures(textures: &Vec<LandscapeTexture>) -> (r: Option<Vec<bool>>)
    ensures
        r.is_some() == (forall|k: int| 0 <= k < textures.len() ==> is_sound_texture(#[trigger] textures[k])),
        r matches Some(named) ==> named.len() == 65536 && forall|index: int|
            0 <= index < 65536 ==> #[trigger] named[index] == is_brought(
                textures@,
                textures.len() as int,
                index,
            ),
{
    let mut named: Vec<bool> = Vec::new();
    let mut n: usize = 0;
    while n < 65536
        invariant
            n <= 65536,
            named.len() == n,
            forall|index: int| 0 <= index < n ==> !#[trigger] named[index],
        decreases 65536 - n,
    {
        named.push(false);
        n = n + 1;
    }
    let mut k: usize = 0;
    while k < textures.len()
        invariant
            k <= textures.len(),
            named.len() == 65536,
            forall|j: int| 0 <= j < k ==> is_sound_texture(#[trigger] textures[j]),
            forall|index: int|
                0 <= index < 65536 ==> #[trigger] named[index] == is_brought(textures@, k as int, index),
        decreases textures.len() - k,
    {
        let texture = &textures[k];
        let ghost before = named@;
        match texture.index {
            Some(index) => {
                if index >= 65535 || texture.flags.deleted {
                    proof {
                        assert(!is_sound_texture(textures[k as int]));
                    }
                    return None;
                }
                let place: usize = index as usize + 1;
                named.set(place, true);
                proof {
                    assert forall|i: int| 0 <= i < 65536 implies #[trigger] named[i] == is_brought(
                        textures@,
                        k + 1,
                        i,
                    ) by {
                        if is_brought(textures@, k as int, i) {
                            let j = choose|j: int|
                                0 <= j < k && (#[trigger] textures[j]).index.unwrap() + 1 == i;
                            assert(textures[j].index.unwrap() + 1 == i);
                        }
                        if i == place {
                            assert(textures[k as int].index.unwrap() + 1 == i);
                        }
                        if is_brought(textures@, k + 1, i) && i != place {
                            let j = choose|j: int|
                                0 <= j < k + 1 && (#[trigger] textures[j]).index.unwrap() + 1 == i;
                            assert(j < k);
                            assert(before[i]);
                        }
                    }
                }
            },
            None => {
                proof {
                    assert(!is_sound_texture(textures[k as int]));
                }
                return None;
            },
        }
        k = k + 1;
    }
    Some(named)
}

/// Whether a landscape names, at every position before column `x` of row `y`, the default
/// texture or one of `textures`.
pub open spec fn names_brought(land: Landscape, textures: Seq<LandscapeTexture>, x: usize, y: usize) -> bool {
    land.texture_indices matches Some(indices) ==> forall|p: Index2D|
        p.within(16) && walked(p, x, y) ==> (#[trigger] indices[p]) == 0 || is_brought(
            textures,
            textures.len() as int,
            indices[p] as int,
        )
}

/// Tells whether a landscape names only the default texture and textures that are marked.
fn names_marked(land: &Landscape, named: &Vec<bool>, Ghost(textures): Ghost<Seq<LandscapeTexture>>) -> (r:
    bool)
    requires
        named.len() == 65536,
        forall|index: int|
            0 <= index < 65536 ==> #[trigger] named[index] == is_brought(
                textures,
                textures.len() as int,
                index,
            ),
    ensures
        r == names_brought(*land, textures, 0, 16),
{
    match &land.texture_indices {
        Some(indices) => {
            let mut y: usize = 0;
            while y < 16
                invariant
                    y <= 16,
                    named.len() == 65536,
                    land.texture_indices == Some(*indices),
                    forall|index: int|
                        0 <= index < 65536 ==> #[trigger] named[index] == is_brought(
                            textures,
                            textures.len() as int,
                            index,
                        ),
                    names_brought(*land, textures, 0, y),
                decreases 16 - y,
            {
                let mut x: usize = 0;
                while x < 16
                    invariant
                        x <= 16,
                        y < 16,
                        named.len() == 65536,
                        land.texture_indices == Some(*indices),
                        forall|index: int|
                            0 <= index < 65536 ==> #[trigger] named[index] == is_brought(
                                textures,
                                textures.len() as int,
                                index,
                            ),
                        names_brought(*land, textures, x, y),
                    decreases 16 - x,
                {
                    let position = Index2D::new(x, y);
                    let index = indices.at(position);
                    if index != 0 && !named[index as usize] {
                        proof {
                            assert(position.within(16));
                            assert(walked(position, 0, 16));
                            assert(named[index as int] == is_brought(
                                textures,
                                textures.len() as int,
                                index as int,
                            ));
                            let held = land.texture_indices.unwrap();
                            assert(held == *indices);
                            assert(held[position] == index);
                            assert(!(held[position] == 0 || is_brought(
                                textures,
                                textures.len() as int,
                                held[position] as int,
                            )));
                            assert(!names_brought(*land, textures, 0, 16));
                        }
                        return false;
                    }
                    proof {
                        let held = land.texture_indices.unwrap();
                        assert(held == *indices);
                        assert forall|p: Index2D|
                            p.within(16) && walked(p, (x + 1) as usize, y) implies (
                        #[trigger] held[p]) == 0 || is_brought(
                            textures,
                            textures.len() as int,
                            held[p] as int,
                        ) by {
                            if !walked(p, x, y) {
                                assert(p.x == x && p.y == y);
                                assert(p == position);
                                assert(held[p] == index);
                                assert(named[index as int] == is_brought(
                                    textures,
                                    textures.len() as int,
                                    index as int,
                                ));
                            } else {
                                assert(names_brought(*land, textures, x, y));
                            }
                        }
                    }
                    x = x + 1;
                }
                y = y + 1;
            }
            true
        },
        None => true,
    }
}

/// Tells whether the landmass of a plugin can be created: whether its records are sound.
pub fn check_sound_records(plugin: &ParsedPlugin) -> (r: bool)
    ensures
        r == has_sound_records(*plugin),
{
    let textures = &plugin.records.landscape_textures;
    let landscapes = &plugin.records.landscapes;
    let named = match mark_textures(textures) {
        Some(named) => named,
        None => {
            return false;
        },
    };
    let mut i: usize = 0;
    while i < landscapes.len()
        invariant
            i <= landscapes.len(),
            textures == &plugin.records.landscape_textures,
            landscapes == &plugin.records.landscapes,
            named.len() == 65536,
            forall|k: int| 0 <= k < textures.len() ==> is_sound_texture(#[trigger] textures[k]),
            forall|index: int|
                0 <= index < 65536 ==> #[trigger] named[index] == is_brought(
                    textures@,
                    textures.len() as int,
                    index,
                ),
            forall|j: int| 0 <= j < i ==> names_brought(#[trigger] landscapes[j], textures@, 0, 16),
        decreases landscapes.len() - i,
    {
        if !names_marked(&landscapes[i], &named, Ghost(textures@)) {
            proof {
                let land = landscapes[i as int];
                let indices = land.texture_indices.unwrap();
                assert(!names_brought(land, textures@, 0, 16));
                let p = choose|p: Index2D|
                    p.within(16) && walked(p, 0, 16) && !((#[trigger] indices[p]) == 0 || is_brought(
                        textures@,
                        textures.len() as int,
                        indices[p] as int,
                    ));
                assert(plugin.records.landscapes@[i as int].texture_indices.is_some());
                if has_sound_records(*plugin) {
                    let index = plugin.records.landscapes@[i as int].texture_indices.unwrap()[p];
                    let k = choose|k: int|
                        0 <= k < plugin.records.landscape_textures@.len() && (
                        #[trigger] plugin.records.landscape_textures@[k]).index.unwrap() + 1
                            == index;
                    assert(textures[k].index.unwrap() + 1 == indices[p]);
                    assert(false);
                }
            }
            return false;
        }
        i = i + 1;
    }
    proof {
        assert forall|i: int, p: Index2D|
            0 <= i < plugin.records.landscapes@.len() && p.within(16) && (
            #[trigger] plugin.records.landscapes@[i]).texture_indices.is_some() implies {
            let index = #[trigger] plugin.records.landscapes@[i].texture_indices.unwrap()[p];
            index == 0 || exists|k: int|
                0 <= k < plugin.records.landscape_textures@.len() && (
                #[trigger] plugin.records.landscape_textures@[k]).index.unwrap() + 1 == index
        } by {
            assert(names_brought(landscapes[i], textures@, 0, 16));
            assert(walked(p, 0, 16));
            let index = plugin.records.landscapes@[i].texture_indices.unwrap()[p];
            if index != 0 {
                assert(is_brought(textures@, textures.len() as int, index as int));
                let k = choose|k: int|
                    0 <= k < textures.len() && (#[trigger] textures[k]).index.unwrap() + 1 == index;
                assert(plugin.records.landscape_textures@[k].index.unwrap() + 1 == index);
            }
        }
    }
    true
}

/// Every index that one of the first `count` texture records gives has a new index.
pub proof fn lemma_remapped_until_holds(
    textures: Seq<LandscapeTexture>,
    count: nat,
    known: Map<Seq<char>, KnownTexture>,
    k: int,
)
    requires
        0 <= k < count <= textures.len(),
    ensures
        remapped_until(textures, count, known).dom().contains(
            (textures[k].index.unwrap() + 1) as u16,
        ),
    decreases count,
{
    if k < count - 1 {
        lemma_remapped_until_holds(textures, (count - 1) as nat, known, k);
    }
}

/// Creates a [Landmass] from the `plugin` and updates [KnownTextures]: every texture of the
/// plugin that was not known becomes known, and the landscapes of the plugin name their
/// textures by the indices by which they are known.
pub fn try_create_landmass(plugin: &Arc<ParsedPlugin>, known_textures: &mut KnownTextures) -> (r:
    Option<Landmass>)
    requires
        old(known_textures).wf(),
        old(known_textures)@.dom().finite(),
        old(known_textures)@.dom().len() + plugin.records.landscape_textures@.len() < u16::MAX,
        has_sound_records(**plugin),
    ensures
        final(known_textures).wf(),
        final(known_textures)@.dom().finite(),
        final(known_textures)@.dom().len() <= old(known_textures)@.dom().len()
            + plugin.records.landscape_textures@.len(),
        forall|id: Seq<char>|
            old(known_textures)@.dom().contains(id) ==> #[trigger] final(known_textures)@.dom().contains(
                id,
            ),
        forall|id: Seq<char>|
            old(known_textures)@.dom().contains(id) ==> #[trigger] final(known_textures)@[id] == old(known_textures)@[id],
        forall|k: int|
            0 <= k < plugin.records.landscape_textures@.len() ==> final(known_textures)@.dom().contains(#[trigger] plugin.records.landscape_textures@[k].id@),
        r.is_some() == (plugin.records.landscapes@.len() > 0),
        r matches Some(landmass) ==> holds_remapped_records(
            landmass,
            *plugin,
            plugin.records.landscapes@.len(),
            remapped_until(
                plugin.records.landscape_textures@,
                plugin.records.landscape_textures@.len(),
                final(known_textures)@,
            ),
        ),
{
    let ghost original = known_textures@;
    let mut remapped_textures = RemappedTextures::new(known_textures);
    let textures = &plugin.records.landscape_textures;

    let mut i: usize = 0;
    while i < textures.len()
        invariant
            i <= textures.len(),
            textures == &plugin.records.landscape_textures,
            has_sound_records(**plugin),
            known_textures.wf(),
            known_textures@.dom().finite(),
            original.dom().len() + textures@.len() < u16::MAX,
            known_textures@.dom().len() <= original.dom().len() + i,
            forall|id: Seq<char>|
                original.dom().contains(id) ==> #[trigger] known_textures@.dom().contains(id),
            forall|id: Seq<char>|
                original.dom().contains(id) ==> #[trigger] known_textures@[id] == original[id],
            forall|k: int|
                0 <= k < i ==> known_textures@.dom().contains(#[trigger] textures@[k].id@),
            remapped_textures@ == remapped_until(textures@, i as nat, known_textures@),
        decreases textures.len() - i,
    {
        let ghost before = known_textures@;
        proof {
            assert(has_texture_index(plugin.records.landscape_textures@[i as int]));
        }
        known_textures.add_remapped_texture(plugin, &textures[i], &mut remapped_textures);
        proof {
            lemma_remapped_until_stable(textures@, i as nat, before, known_textures@);
            assert forall|id: Seq<char>| original.dom().contains(id) implies #[trigger] known_textures@[id]
                == original[id] by {
                assert(before.dom().contains(id));
                assert(before[id] == original[id]);
                assert(known_textures@[id] == before[id]);
            }
        }
        i = i + 1;
    }
    proof {
        let remapped = remapped_until(textures@, textures@.len(), known_textures@);
        assert forall|k: int|
            0 <= k < plugin.records.landscapes@.len() implies names_remapped_textures(
            #[trigger] plugin.records.landscapes@[k],
            remapped,
        ) by {
            let land = plugin.records.landscapes@[k];
            if land.texture_indices.is_some() {
                let indices = land.texture_indices.unwrap();
                assert forall|p: Index2D| p.within(16) implies remap(
                    remapped,
                    IndexVTEX(#[trigger] indices[p]),
                ).is_some() by {
                    let index = plugin.records.landscapes@[k].texture_indices.unwrap()[p];
                    if index != 0 {
                        let m = choose|m: int|
                            0 <= m < plugin.records.landscape_textures@.len()
                                && (#[trigger] plugin.records.landscape_textures@[m]).index.unwrap()
                                + 1 == index;
                        lemma_remapped_until_holds(
                            textures@,
                            textures@.len(),
                            known_textures@,
                            m,
                        );
                    }
                }
            }
        }
    }

    try_copy_landscape_and_remap_textures(plugin, &remapped_textures)
}

/// The number of the first `count` plugins that have landscape records.
pub open spec fn created_among(plugins: Seq<Arc<ParsedPlugin>>, count: nat) -> nat
    decreases count,
{
    if count == 0 {
        0
    } else {
        let rest = created_among(plugins, (count - 1) as nat);
        if plugins[count - 1].records.landscapes@.len() > 0 {
            rest + 1
        } else {
            rest
        }
    }
}

/// The number of texture records of the first `count` plugins.
pub open spec fn textures_among(plugins: Seq<Arc<ParsedPlugin>>, count: nat) -> nat
    decreases count,
{
    if count == 0 {
        0
    } else {
        textures_among(plugins, (count - 1) as nat) + plugins[count - 1].records.landscape_textures@.len()
    }
}

/// The landmass that was created from the plugin at `place` holds the landscape records of
/// that plugin, with the textures that they name remapped to the indices by which the
/// textures are `known`.
pub open spec fn is_created_from(
    landmasses: Seq<Landmass>,
    plugins: Seq<Arc<ParsedPlugin>>,
    known: Map<Seq<char>, KnownTexture>,
    place: int,
) -> bool {
    plugins[place].records.landscapes@.len() > 0 ==> created_among(plugins, place as nat)
        < landmasses.len() && holds_remapped_records(
        landmasses[created_among(plugins, place as nat) as int],
        plugins[place],
        plugins[place].records.landscapes@.len(),
        remapped_until(
            plugins[place].records.landscape_textures@,
            plugins[place].records.landscape_textures@.len(),
            known,
        ),
    )
}

/// `landmasses` are the landmasses of the first `count` of `plugins`, one for every plugin
/// that has landscape records, in the order of the plugins.
pub open spec fn are_created_from(
    landmasses: Seq<Landmass>,
    plugins: Seq<Arc<ParsedPlugin>>,
    known: Map<Seq<char>, KnownTexture>,
    count: nat,
) -> bool {
    &&& landmasses.len() == created_among(plugins, count)
    &&& forall|place: int|
        0 <= place < count ==> #[trigger] is_created_from(landmasses, plugins, known, place)
}

/// The textures of the first `count` plugins are known.
pub open spec fn textures_are_known(
    plugins: Seq<Arc<ParsedPlugin>>,
    known: Map<Seq<char>, KnownTexture>,
    count: nat,
) -> bool {
    forall|place: int, k: int|
        0 <= place < count && 0 <= k < plugins[place].records.landscape_textures@.len()
            ==> known.dom().contains(#[trigger] plugins[place].records.landscape_textures@[k].id@)
}

/// The number of plugins with landscape records among the first plugins does not shrink as
/// more plugins are counted.
proof fn lemma_created_among_grows(plugins: Seq<Arc<ParsedPlugin>>, fewer: nat, more: nat)
    requires
        fewer <= more,
    ensures
        created_among(plugins, fewer) <= created_among(plugins, more),
    decreases more,
{
    if fewer < more {
        lemma_created_among_grows(plugins, fewer, (more - 1) as nat);
    }
}

/// Creates the landmass of every one of `parsed_plugins` that has landscape records, and
/// updates [KnownTextures].
pub fn create_landmasses(parsed_plugins: &Vec<Arc<ParsedPlugin>>, known_textures: &mut KnownTextures) -> (r:
    Vec<Landmass>)
    requires
        old(known_textures).wf(),
        old(known_textures)@.dom().finite(),
        old(known_textures)@.dom().len() + textures_among(
            parsed_plugins@,
            parsed_plugins@.len(),
        ) < u16::MAX,
        forall|place: int|
            0 <= place < parsed_plugins@.len() ==> has_sound_records(
                *(#[trigger] parsed_plugins@[place]),
            ),
    ensures
        final(known_textures).wf(),
        final(known_textures)@.dom().finite(),
        final(known_textures)@.dom().len() <= old(known_textures)@.dom().len() + textures_among(
            parsed_plugins@,
            parsed_plugins@.len(),
        ),
        forall|id: Seq<char>|
            old(known_textures)@.dom().contains(id) ==> #[trigger] final(known_textures)@.dom().contains(
                id,
            ),
        forall|id: Seq<char>|
            old(known_textures)@.dom().contains(id) ==> #[trigger] final(known_textures)@[id] == old(known_textures)@[id],
        textures_are_known(parsed_plugins@, final(known_textures)@, parsed_plugins@.len()),
        are_created_from(r@, parsed_plugins@, final(known_textures)@, parsed_plugins@.len()),
{
    let ghost original = known_textures@;
    let mut landmasses: Vec<Landmass> = Vec::new();

    let mut i: usize = 0;
    while i < parsed_plugins.len()
        invariant
            i <= parsed_plugins.len(),
            forall|place: int|
                0 <= place < parsed_plugins@.len() ==> has_sound_records(
                    *(#[trigger] parsed_plugins@[place]),
                ),
            known_textures.wf(),
            known_textures@.dom().finite(),
            original.dom().len() + textures_among(parsed_plugins@, parsed_plugins@.len())
                < u16::MAX,
            known_textures@.dom().len() <= original.dom().len() + textures_among(
                parsed_plugins@,
                i as nat,
            ),
            textures_among(parsed_plugins@, i as nat) <= textures_among(
                parsed_plugins@,
                parsed_plugins@.len(),
            ),
            forall|id: Seq<char>|
                original.dom().contains(id) ==> #[trigger] known_textures@.dom().contains(id),
            forall|id: Seq<char>|
                original.dom().contains(id) ==> #[trigger] known_textures@[id] == original[id],
            textures_are_known(parsed_plugins@, known_textures@, i as nat),
            are_created_from(landmasses@, parsed_plugins@, known_textures@, i as nat),
        decreases parsed_plugins.len() - i,
    {
        let ghost before = known_textures@;
        let ghost created = landmasses@;
        proof {
            lemma_textures_among_grows(parsed_plugins@, (i + 1) as nat, parsed_plugins@.len());
            assert(has_sound_records(*parsed_plugins@[i as int]));
        }
        match try_create_landmass(&parsed_plugins[i], known_textures) {
            Some(landmass) => {
                landmasses.push(landmass);
            },
            None => {},
        }
        proof {
            let after = known_textures@;
            assert forall|id: Seq<char>| original.dom().contains(id) implies #[trigger] after[id]
                == original[id] by {
                assert(before.dom().contains(id));
                assert(before[id] == original[id]);
            }
            assert forall|place: int, k: int|
                0 <= place < i + 1 && 0 <= k
                    < parsed_plugins@[place].records.landscape_textures@.len() implies after.dom().contains(
                #[trigger] parsed_plugins@[place].records.landscape_textures@[k].id@,
            ) by {
                if place < i {
                    assert(before.dom().contains(
                        parsed_plugins@[place].records.landscape_textures@[k].id@,
                    ));
                }
            }
            assert forall|place: int| 0 <= place < i + 1 implies #[trigger] is_created_from(
                landmasses@,
                parsed_plugins@,
                after,
                place,
            ) by {
                if place < i {
                    assert(is_created_from(created, parsed_plugins@, before, place));
                    let textures = parsed_plugins@[place].records.landscape_textures@;
                    assert forall|k: int| 0 <= k < textures.len() implies before.dom().contains(
                        #[trigger] textures[k].id@,
                    ) && after[textures[k].id@] == before[textures[k].id@] by {
                        assert(before.dom().contains(
                            parsed_plugins@[place].records.landscape_textures@[k].id@,
                        ));
                    }
                    lemma_remapped_until_stable(textures, textures.len(), before, after);
                    lemma_created_among_grows(parsed_plugins@, place as nat, i as nat);
                    if parsed_plugins@[place].records.landscapes@.len() > 0 {
                        lemma_created_among_grows(parsed_plugins@, (place + 1) as nat, i as nat);
                    }
                }
            }
        }
        i = i + 1;
    }

    landmasses
}

/// The number of texture records of the first plugins does not shrink as more plugins are
/// counted.
pub proof fn lemma_textures_among_grows(plugins: Seq<Arc<ParsedPlugin>>, fewer: nat, more: nat)
    requires
        fewer <= more,
    ensures
        textures_among(plugins, fewer) <= textures_among(plugins, more),
    decreases more,
{
    if fewer < more {
        lemma_textures_among_grows(plugins, fewer, (more - 1) as nat);
    }
}

/// Creates a [Landmass] from `parsed_plugins` and updates [KnownTextures]: the landmasses
/// of the plugins stomp over each other in the order of the plugins. Nothing is returned
/// where a record may not stomp over what the plugins before it left at its cell.
pub fn create_tes3_landmass(
    plugin_name: &str,
    parsed_plugins: &Vec<Arc<ParsedPlugin>>,
    known_textures: &mut KnownTextures,
) -> (r: Option<Landmass>)
    requires
        old(known_textures).wf(),
        old(known_textures)@.dom().finite(),
        old(known_textures)@.dom().len() + textures_among(
            parsed_plugins@,
            parsed_plugins@.len(),
        ) < u16::MAX,
        forall|place: int|
            0 <= place < parsed_plugins@.len() ==> has_sound_records(
                *(#[trigger] parsed_plugins@[place]),
            ),
    ensures
        final(known_textures).wf(),
        final(known_textures)@.dom().finite(),
        final(known_textures)@.dom().len() <= old(known_textures)@.dom().len() + textures_among(
            parsed_plugins@,
            parsed_plugins@.len(),
        ),
        textures_are_known(parsed_plugins@, final(known_textures)@, parsed_plugins@.len()),
        forall|id: Seq<char>|
            old(known_textures)@.dom().contains(id) ==> #[trigger] final(known_textures)@.dom().contains(
                id,
            ),
        forall|id: Seq<char>|
            old(known_textures)@.dom().contains(id) ==> #[trigger] final(known_textures)@[id] == old(known_textures)@[id],
        exists|landmasses: Seq<Landmass>| #[trigger]
            are_created_from(
                landmasses,
                parsed_plugins@,
                final(known_textures)@,
                parsed_plugins@.len(),
            ) && r.is_some() == can_stomp(landmasses) && (r matches Some(merged)
                ==> merged.plugin.name@ == plugin_name@ && is_stomped_state(
                merged@,
                landmasses,
                landmasses.len(),
                Seq::empty(),
            )),
{
    let plugin = Arc::new(ParsedPlugin::empty(plugin_name));
    let master_landmasses = create_landmasses(parsed_plugins, known_textures);
    let r = merge_tes3_landmasses(&plugin, &master_landmasses);
    proof {
        assert(are_created_from(
            master_landmasses@,
            parsed_plugins@,
            known_textures@,
            parsed_plugins@.len(),
        ));
    }
    r
}

} // verus!
