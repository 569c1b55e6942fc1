use crate::io::parsed_plugins::{ParsedPlugin, ParsedPlugins, PluginKind};
use crate::land::grid_access::{walked, Index2D};
use crate::land::landscape_diff::LandscapeDiff;
use crate::land::terrain_map::{LandData, Vec2};
use crate::land::textures::{
    grid_index, remap, updated_texture, used_among, KnownTexture, KnownTextures,
    RemappedTextures,
};
use crate::landmass::{lemma_subrange_grows, textures_are_known, LandmassDiff};
use crate::merge::conflict::{ConflictParams, ConflictResolver};
use crate::merge::merge_strategy::held;
use crate::merge::relative_terrain_map::{IsModified, OptionalTerrainMap, RelativeTerrainMap};
use crate::merge::relative_to::RelativeTo;
use crate::repair::seam_detection::is_settled;
use std::sync::Arc;
use vstd::prelude::*;

verus! {

/// Whether both sides hold a kind of terrain data and their terrain differs at some
/// position.
pub open spec fn terrain_differs<U: RelativeTo, const T: usize>(
    lhs: OptionalTerrainMap<U, T>,
    rhs: OptionalTerrainMap<U, T>,
) -> bool {
    lhs matches Some(actual) && rhs matches Some(expected) && exists|p: Index2D|
        p.within(T) && #[trigger] actual.value_at(p) != expected.value_at(p)
}

/// Returns `true` if both sides hold the terrain and it differs at some position.
pub fn has_difference<U: RelativeTo + ConflictResolver, const T: usize>(
    lhs: Option<&RelativeTerrainMap<U, T>>,
    rhs: Option<&RelativeTerrainMap<U, T>>,
) -> (r: bool)
    ensures
        r == terrain_differs(held(lhs), held(rhs)),
{
    let actual_map = match lhs {
        Some(map) => map,
        None => {
            return false;
        },
    };
    let expected_map = match rhs {
        Some(map) => map,
        None => {
            return false;
        },
    };

    let params = ConflictParams::default();

    let mut y: usize = 0;
    while y < T
        invariant
            y <= T,
            lhs == Some(actual_map),
            rhs == Some(expected_map),
            forall|p: Index2D|
                p.within(T) && walked(p, 0, y) ==> #[trigger] actual_map.value_at(p)
                    == expected_map.value_at(p),
        decreases T - y,
    {
        let mut x: usize = 0;
        while x < T
            invariant
                x <= T,
                y < T,
                lhs == Some(actual_map),
                rhs == Some(expected_map),
                forall|p: Index2D|
                    p.within(T) && walked(p, x, y) ==> #[trigger] actual_map.value_at(p)
                        == expected_map.value_at(p),
            decreases T - x,
        {
            let coords = Index2D::new(x, y);
            let actual = actual_map.get_value(coords);
            let expected = expected_map.get_value(coords);
            if actual.average(expected, &params).is_some() {
                proof {
                    let first = held(lhs).unwrap();
                    let second = held(rhs).unwrap();
                    assert(first.value_at(coords) != second.value_at(coords));
                }
                return true;
            }
            x = x + 1;
        }
        y = y + 1;
    }

    false
}

/// Whether two landscape diffs both hold some kind of terrain data and their terrain of
/// that kind differs at some position.
pub open spec fn landscape_differs(reference: LandscapeDiff, plugin: LandscapeDiff) -> bool {
    terrain_differs(reference.height_map, plugin.height_map) || terrain_differs(
        reference.vertex_normals,
        plugin.vertex_normals,
    ) || terrain_differs(reference.world_map_data, plugin.world_map_data) || terrain_differs(
        reference.vertex_colors,
        plugin.vertex_colors,
    ) || terrain_differs(reference.texture_indices, plugin.texture_indices)
}

/// Returns `true` if the two landscape diffs differ in some kind of terrain data that both
/// hold.
pub fn has_any_difference(reference: &LandscapeDiff, plugin: &LandscapeDiff) -> (r: bool)
    ensures
        r == landscape_differs(*reference, *plugin),
{
    let reference_heights = reference.height_map.as_ref();
    let plugin_heights = plugin.height_map.as_ref();
    let reference_normals = reference.vertex_normals.as_ref();
    let plugin_normals = plugin.vertex_normals.as_ref();
    let reference_world_map = reference.world_map_data.as_ref();
    let plugin_world_map = plugin.world_map_data.as_ref();
    let reference_colors = reference.vertex_colors.as_ref();
    let plugin_colors = plugin.vertex_colors.as_ref();
    let reference_textures = reference.texture_indices.as_ref();
    let plugin_textures = plugin.texture_indices.as_ref();
    proof {
        assert(held(reference_heights) == reference.height_map);
        assert(held(plugin_heights) == plugin.height_map);
        assert(held(reference_normals) == reference.vertex_normals);
        assert(held(plugin_normals) == plugin.vertex_normals);
        assert(held(reference_world_map) == reference.world_map_data);
        assert(held(plugin_world_map) == plugin.world_map_data);
        assert(held(reference_colors) == reference.vertex_colors);
        assert(held(plugin_colors) == plugin.vertex_colors);
        assert(held(reference_textures) == reference.texture_indices);
        assert(held(plugin_textures) == plugin.texture_indices);
    }
    has_difference(reference_heights, plugin_heights) || has_difference(
        reference_normals,
        plugin_normals,
    ) || has_difference(reference_world_map, plugin_world_map) || has_difference(
        reference_colors,
        plugin_colors,
    ) || has_difference(reference_textures, plugin_textures)
}

/// The number of plugin files among the first `count` sources of a landscape diff.
pub open spec fn plugin_files_among(plugins: Seq<(Arc<ParsedPlugin>, LandData)>, count: nat) -> nat
    decreases count,
{
    if count == 0 {
        0
    } else {
        let rest = plugin_files_among(plugins, (count - 1) as nat);
        if plugins[count - 1].0.kind == PluginKind::Plugin {
            rest + 1
        } else {
            rest
        }
    }
}

/// The place of the last of the first `count` landmasses that belongs to a plugin named
/// `name`.
pub open spec fn last_named(landmasses: Seq<LandmassDiff>, name: Seq<char>, count: nat) -> Option<
    int,
>
    decreases count,
{
    if count == 0 {
        None
    } else if landmasses[count - 1].plugin.name@ == name {
        Some(count - 1)
    } else {
        last_named(landmasses, name, (count - 1) as nat)
    }
}

/// Finds the last landmass that belongs to a plugin named `name`: the one that a table of
/// the landmasses by the names of their plugins, filled in their order, holds under `name`.
pub fn find_landmass_of(landmasses: &Vec<LandmassDiff>, name: &String) -> (r: Option<usize>)
    ensures
        r.is_some() == last_named(landmasses@, name@, landmasses.len() as nat).is_some(),
        r matches Some(place) ==> last_named(landmasses@, name@, landmasses.len() as nat)
            == Some(place as int) && place < landmasses.len(),
{
    let mut count: usize = landmasses.len();
    while count > 0
        invariant
            count <= landmasses.len(),
            last_named(landmasses@, name@, landmasses.len() as nat) == last_named(
                landmasses@,
                name@,
                count as nat,
            ),
        decreases count,
    {
        if landmasses[count - 1].plugin.name == *name {
            return Some(count - 1);
        }
        count = count - 1;
    }
    None
}

/// The landscape diff that the one plugin file among the sources of `land` brought for the
/// cell at `coords`. It is taken from the last of `modded_landmasses` that bears the name of
/// the last source of `land`.
pub open spec fn brought_by_plugin(
    land: LandscapeDiff,
    coords: Vec2<i32>,
    modded_landmasses: Seq<LandmassDiff>,
) -> Option<LandscapeDiff> {
    match last_named(
        modded_landmasses,
        land.plugins@.last().0.name@,
        modded_landmasses.len(),
    ) {
        Some(place) => if modded_landmasses[place]@.dom().contains(coords) {
            Some(modded_landmasses[place]@[coords])
        } else {
            None
        },
        None => None,
    }
}

/// Whether all sources of a landscape diff but one are no plugin files.
pub open spec fn has_one_plugin_file(land: LandscapeDiff) -> bool {
    plugin_files_among(land.plugins@, land.plugins@.len()) == 1
}

/// Whether a cell has nothing to say: it is not modified, or it has one plugin file among
/// its sources and holds what that plugin brought.
pub open spec fn is_unmodified(
    land: LandscapeDiff,
    coords: Vec2<i32>,
    modded_landmasses: Seq<LandmassDiff>,
) -> bool {
    if land.modified_kinds() == LandData::nothing() {
        true
    } else if has_one_plugin_file(land) {
        brought_by_plugin(land, coords, modded_landmasses) matches Some(brought)
            && !landscape_differs(land, brought)
    } else {
        false
    }
}

/// What is asked of a cell that is cleaned: where it is modified and has one plugin file
/// among its sources, that is its last source, and what that plugin brought for the cell
/// is among `modded_landmasses`.
pub open spec fn can_be_cleaned(
    land: LandscapeDiff,
    coords: Vec2<i32>,
    modded_landmasses: Seq<LandmassDiff>,
) -> bool {
    land.modified_kinds() != LandData::nothing() && has_one_plugin_file(land) ==> land.plugins@.last().0.kind
        == PluginKind::Plugin && brought_by_plugin(land, coords, modded_landmasses).is_some()
}

/// Counts the plugin files among the sources of a landscape diff.
fn count_plugin_files(land: &LandscapeDiff) -> (r: usize)
    ensures
        r == plugin_files_among(land.plugins@, land.plugins@.len()),
{
    let mut count: usize = 0;
    let mut i: usize = 0;
    while i < land.plugins.len()
        invariant
            i <= land.plugins.len(),
            count == plugin_files_among(land.plugins@, i as nat),
            count <= i,
        decreases land.plugins.len() - i,
    {
        if land.plugins[i].0.kind == PluginKind::Plugin {
            count = count + 1;
        }
        i = i + 1;
    }
    count
}

/// Tells whether the cell `land` at `coords` has nothing to say.
fn check_unmodified(land: &LandscapeDiff, coords: Vec2<i32>, modded_landmasses: &Vec<LandmassDiff>) -> (r:
    bool)
    requires
        can_be_cleaned(*land, coords, modded_landmasses@),
    ensures
        r == is_unmodified(*land, coords, modded_landmasses@),
{
    if !land.is_modified() {
        return true;
    }
    let num_esps = count_plugin_files(land);
    if num_esps != 1 {
        return false;
    }
    assert(land.plugins@.len() > 0);
    let plugin = &land.plugins[land.plugins.len() - 1].0;
    match find_landmass_of(modded_landmasses, &plugin.name) {
        Some(place) => match modded_landmasses[place].get(coords) {
            Some(modded_landmass_land) => !has_any_difference(land, modded_landmass_land),
            None => false,
        },
        None => false,
    }
}

/// Tells whether the cell `land` at `coords` can be cleaned.
fn check_can_be_cleaned(land: &LandscapeDiff, coords: Vec2<i32>, modded_landmasses: &Vec<LandmassDiff>) -> (r:
    bool)
    ensures
        r == can_be_cleaned(*land, coords, modded_landmasses@),
{
    if !land.is_modified() {
        return true;
    }
    let num_esps = count_plugin_files(land);
    if num_esps != 1 {
        return true;
    }
    assert(land.plugins@.len() > 0);
    let plugin = &land.plugins[land.plugins.len() - 1].0;
    if plugin.kind != PluginKind::Plugin {
        return false;
    }
    match find_landmass_of(modded_landmasses, &plugin.name) {
        Some(place) => modded_landmasses[place].contains(coords),
        None => false,
    }
}

/// Whether every cell of a landmass can be cleaned.
pub open spec fn all_can_be_cleaned(
    cells: Map<Vec2<i32>, LandscapeDiff>,
    modded_landmasses: Seq<LandmassDiff>,
) -> bool {
    forall|coords: Vec2<i32>| #[trigger]
        cells.dom().contains(coords) ==> can_be_cleaned(cells[coords], coords, modded_landmasses)
}

/// Tells whether every cell of `landmass` can be cleaned.
pub fn can_clean_landmass_diff(landmass: &LandmassDiff, modded_landmasses: &Vec<LandmassDiff>) -> (r: bool)
    ensures
        r == all_can_be_cleaned(landmass@, modded_landmasses@),
{
    let keys = landmass.sorted();
    let mut i: usize = 0;
    while i < keys.len()
        invariant
            i <= keys.len(),
            forall|coords: Vec2<i32>| keys@.contains(coords) == landmass@.dom().contains(coords),
            forall|k: int|
                0 <= k < i ==> can_be_cleaned(
                    landmass@[#[trigger] keys[k]],
                    keys[k],
                    modded_landmasses@,
                ),
        decreases keys.len() - i,
    {
        let coords = keys[i];
        proof {
            assert(keys@.contains(coords));
        }
        match landmass.get(coords) {
            Some(land) => {
                if !check_can_be_cleaned(land, coords, modded_landmasses) {
                    return false;
                }
            },
            None => {},
        }
        i = i + 1;
    }
    proof {
        assert forall|coords: Vec2<i32>| #[trigger] landmass@.dom().contains(coords) implies can_be_cleaned(
            landmass@[coords],
            coords,
            modded_landmasses@,
        ) by {
            assert(keys@.contains(coords));
            let k = choose|k: int| 0 <= k < keys.len() && keys[k] == coords;
            assert(can_be_cleaned(landmass@[keys[k]], keys[k], modded_landmasses@));
        }
    }
    true
}

/// `cleaned` holds the cells of `cells` that have something to say, as they are.
pub open spec fn is_cleaned(
    cleaned: Map<Vec2<i32>, LandscapeDiff>,
    cells: Map<Vec2<i32>, LandscapeDiff>,
    modded_landmasses: Seq<LandmassDiff>,
) -> bool {
    &&& forall|coords: Vec2<i32>| #[trigger]
        cleaned.dom().contains(coords) == (cells.dom().contains(coords) && !is_unmodified(
            cells[coords],
            coords,
            modded_landmasses,
        ))
    &&& forall|coords: Vec2<i32>| #[trigger]
        cleaned.dom().contains(coords) ==> cleaned[coords] == cells[coords]
}

/// Remove any unmodified [LandscapeDiff] from the [LandmassDiff]: the cells that are not
/// modified, and those that hold what the one plugin file among their sources brought.
/// The seams of the landmass have to be repaired.
pub fn clean_landmass_diff(landmass: &mut LandmassDiff, modded_landmasses: &Vec<LandmassDiff>)
    requires
        is_settled(old(landmass)@),
        all_can_be_cleaned(old(landmass)@, modded_landmasses@),
    ensures
        final(landmass).plugin == old(landmass).plugin,
        is_cleaned(final(landmass)@, old(landmass)@, modded_landmasses@),
{
    let ghost original = landmass@;
    let keys = landmass.sorted();
    let mut unmodified: Vec<Vec2<i32>> = Vec::new();

    let mut i: usize = 0;
    while i < keys.len()
        invariant
            i <= keys.len(),
            landmass@ == original,
            forall|coords: Vec2<i32>| keys@.contains(coords) == original.dom().contains(coords),
            forall|coords: Vec2<i32>| #[trigger]
                original.dom().contains(coords) ==> can_be_cleaned(
                    original[coords],
                    coords,
                    modded_landmasses@,
                ),
            forall|coords: Vec2<i32>|
                unmodified@.contains(coords) == (keys@.subrange(0, i as int).contains(coords)
                    && is_unmodified(original[coords], coords, modded_landmasses@)),
        decreases keys.len() - i,
    {
        let coords = keys[i];
        let ghost before = unmodified@;
        proof {
            assert(keys@.contains(coords));
            lemma_subrange_grows(keys@, i as int);
        }
        match landmass.get(coords) {
            Some(land) => {
                let drop = check_unmodified(land, coords, modded_landmasses);
                if drop {
                    unmodified.push(coords);
                }
                proof {
                    let after = unmodified@;
                    let done = keys@.subrange(0, i as int);
                    let more = keys@.subrange(0, i + 1);
                    assert forall|other: Vec2<i32>|
                        after.contains(other) == (more.contains(other) && is_unmodified(
                            original[other],
                            other,
                            modded_landmasses@,
                        )) by {
                        assert(more.contains(other) == (done.contains(other) || other == coords));
                        assert(before.contains(other) == (done.contains(other) && is_unmodified(
                            original[other],
                            other,
                            modded_landmasses@,
                        )));
                        if drop {
                            assert(after == before.push(coords));
                            assert(after[before.len() as int] == coords);
                            if before.contains(other) {
                                let k = choose|k: int| 0 <= k < before.len() && before[k] == other;
                                assert(after[k] == other);
                            }
                            if after.contains(other) && other != coords {
                                let k = choose|k: int| 0 <= k < after.len() && after[k] == other;
                                assert(before[k] == other);
                            }
                        } else {
                            if other == coords && before.contains(other) {
                                assert(false);
                            }
                        }
                    }
                }
            },
            None => {
                proof {
                    assert(false);
                }
            },
        }
        i = i + 1;
    }
    proof {
        assert(keys@.subrange(0, keys.len() as int) == keys@);
    }

    let mut j: usize = 0;
    while j < unmodified.len()
        invariant
            j <= unmodified.len(),
            landmass.plugin == old(landmass).plugin,
            forall|coords: Vec2<i32>| #[trigger]
                landmass@.dom().contains(coords) == (original.dom().contains(coords)
                    && !unmodified@.subrange(0, j as int).contains(coords)),
            forall|coords: Vec2<i32>| #[trigger]
                landmass@.dom().contains(coords) ==> landmass@[coords] == original[coords],
        decreases unmodified.len() - j,
    {
        proof {
            lemma_subrange_grows(unmodified@, j as int);
        }
        landmass.remove(unmodified[j]);
        j = j + 1;
    }
    proof {
        assert(unmodified@.subrange(0, unmodified.len() as int) == unmodified@);
    }
}

/// Whether the landscape diff `land` names the texture `index` at some position.
pub open spec fn names_texture(land: LandscapeDiff, index: int) -> bool {
    land.texture_indices matches Some(textures) && exists|p: Index2D|
        p.within(16) && (#[trigger] textures.value_at(p)).0 == index
}

/// Whether the texture `index` is in use among `cells`: the default texture always is, and
/// any other texture is where some cell names it.
pub open spec fn is_used_texture(cells: Map<Vec2<i32>, LandscapeDiff>, index: int) -> bool {
    index == 0 || exists|coords: Vec2<i32>|
        cells.dom().contains(coords) && #[trigger] names_texture(cells[coords], index)
}

/// For every texture index up to `count`, whether the texture is in use among `cells`.
pub open spec fn used_textures(cells: Map<Vec2<i32>, LandscapeDiff>, count: nat) -> Seq<bool> {
    Seq::new(count + 1, |index: int| is_used_texture(cells, index))
}

/// Whether a landscape diff names, at every position before column `x` of row `y`, one of
/// the first `count` textures or the default texture.
pub open spec fn names_until(land: LandscapeDiff, count: int, x: usize, y: usize) -> bool {
    land.texture_indices matches Some(textures) ==> forall|p: Index2D|
        p.within(16) && walked(p, x, y) ==> (#[trigger] textures.value_at(p)).0 <= count
}

/// Whether every cell names only the default texture and the first `count` textures.
pub open spec fn names_known_textures(cells: Map<Vec2<i32>, LandscapeDiff>, count: int) -> bool {
    forall|coords: Vec2<i32>, p: Index2D|
        cells.dom().contains(coords) && p.within(16) && cells[coords].texture_indices.is_some() ==> (
        #[trigger] cells[coords].texture_indices.unwrap().value_at(p)).0 <= count
}

/// Tells whether a landscape diff names only the default texture and the first `count`
/// textures.
fn check_names_until(land: &LandscapeDiff, count: usize) -> (r: bool)
    ensures
        r == names_until(*land, count as int, 0, 16),
{
    match &land.texture_indices {
        Some(texture_indices) => {
            let mut y: usize = 0;
            while y < 16
                invariant
                    y <= 16,
                    land.texture_indices == Some(*texture_indices),
                    names_until(*land, count as int, 0, y),
                decreases 16 - y,
            {
                let mut x: usize = 0;
                while x < 16
                    invariant
                        x <= 16,
                        y < 16,
                        land.texture_indices == Some(*texture_indices),
                        names_until(*land, count as int, x, y),
                    decreases 16 - x,
                {
                    let position = Index2D::new(x, y);
                    let key = texture_indices.get_value(position);
                    if key.as_u16() as usize > count {
                        proof {
                            let held = land.texture_indices.unwrap();
                            assert(position.within(16) && walked(position, 0, 16));
                            assert(held.value_at(position).0 > count);
                        }
                        return false;
                    }
                    proof {
                        let held = land.texture_indices.unwrap();
                        assert forall|p: Index2D|
                            p.within(16) && walked(p, (x + 1) as usize, y) implies (
                        #[trigger] held.value_at(p)).0 <= count by {
                            if !walked(p, x, y) {
                                assert(p.x == x && p.y == y);
                                assert(p == position);
                            } else {
                                assert(names_until(*land, count as int, x, y));
                            }
                        }
                    }
                    x = x + 1;
                }
                y = y + 1;
            }
            true
        },
        None => true,
    }
}

/// Tells whether every cell of `landmass` names only the default texture and the first
/// `count` textures.
pub fn check_known_textures(landmass: &LandmassDiff, count: usize) -> (r: bool)
    ensures
        r == names_known_textures(landmass@, count as int),
{
    let keys = landmass.sorted();
    let mut i: usize = 0;
    while i < keys.len()
        invariant
            i <= keys.len(),
            forall|coords: Vec2<i32>| keys@.contains(coords) == landmass@.dom().contains(coords),
            forall|k: int|
                0 <= k < i ==> names_until(landmass@[#[trigger] keys[k]], count as int, 0, 16),
        decreases keys.len() - i,
    {
        let coords = keys[i];
        proof {
            assert(keys@.contains(coords));
        }
        match landmass.get(coords) {
            Some(land) => {
                if !check_names_until(land, count) {
                    proof {
                        let held = landmass@[coords].texture_indices.unwrap();
                        let p = choose|p: Index2D|
                            p.within(16) && walked(p, 0, 16) && !((#[trigger] held.value_at(p)).0
                                <= count);
                        assert(landmass@[coords].texture_indices.unwrap().value_at(p).0 > count);
                    }
                    return false;
                }
            },
            None => {},
        }
        i = i + 1;
    }
    proof {
        assert forall|coords: Vec2<i32>, p: Index2D|
            landmass@.dom().contains(coords) && p.within(16)
                && landmass@[coords].texture_indices.is_some() implies (
        #[trigger] landmass@[coords].texture_indices.unwrap().value_at(p)).0 <= count by {
            assert(keys@.contains(coords));
            let k = choose|k: int| 0 <= k < keys.len() && keys[k] == coords;
            assert(names_until(landmass@[keys[k]], count as int, 0, 16));
            assert(walked(p, 0, 16));
        }
    }
    true
}

/// The textures `known` once the first `count` texture records of `plugin` have updated
/// them, one after the other.
pub open spec fn updated_by_records(
    known: Map<Seq<char>, KnownTexture>,
    plugin: Arc<ParsedPlugin>,
    count: nat,
) -> Map<Seq<char>, KnownTexture>
    decreases count,
{
    if count == 0 {
        known
    } else {
        let before = updated_by_records(known, plugin, (count - 1) as nat);
        let texture = plugin.records.landscape_textures@[count - 1];
        before.insert(texture.id@, updated_texture(before[texture.id@], plugin, texture))
    }
}

/// The textures `known` once the texture records of the first `count` of `plugins` have
/// updated them, one plugin after the other.
pub open spec fn updated_by_plugins(
    known: Map<Seq<char>, KnownTexture>,
    plugins: Seq<Arc<ParsedPlugin>>,
    count: nat,
) -> Map<Seq<char>, KnownTexture>
    decreases count,
{
    if count == 0 {
        known
    } else {
        updated_by_records(
            updated_by_plugins(known, plugins, (count - 1) as nat),
            plugins[count - 1],
            plugins[count - 1].records.landscape_textures@.len(),
        )
    }
}

/// Updates the [KnownTextures] with the texture records of every one of `plugins`: every
/// record updates the texture that is known under its `id`, in the order of the plugins
/// and of their records.
fn update_known_textures(plugins: &Vec<Arc<ParsedPlugin>>, known_textures: &mut KnownTextures)
    requires
        old(known_textures).wf(),
        textures_are_known(plugins@, old(known_textures)@, plugins@.len()),
    ensures
        final(known_textures).wf(),
        final(known_textures)@ == updated_by_plugins(old(known_textures)@, plugins@, plugins@.len()),
        final(known_textures)@.dom() == old(known_textures)@.dom(),
        forall|id: Seq<char>| #[trigger]
            final(known_textures)@.dom().contains(id) ==> final(known_textures)@[id].inner.index
                == old(known_textures)@[id].inner.index && final(known_textures)@[id].inner.id
                == old(known_textures)@[id].inner.id,
{
    let ghost original = known_textures@;
    let mut i: usize = 0;
    while i < plugins.len()
        invariant
            i <= plugins.len(),
            known_textures.wf(),
            textures_are_known(plugins@, original, plugins@.len()),
            known_textures@ == updated_by_plugins(original, plugins@, i as nat),
            known_textures@.dom() == original.dom(),
            forall|id: Seq<char>| #[trigger]
                known_textures@.dom().contains(id) ==> known_textures@[id].inner.index
                    == original[id].inner.index && known_textures@[id].inner.id
                    == original[id].inner.id,
        decreases plugins.len() - i,
    {
        let plugin = &plugins[i];
        let ghost reached = known_textures@;
        let mut k: usize = 0;
        while k < plugin.records.landscape_textures.len()
            invariant
                k <= plugin.records.landscape_textures.len(),
                i < plugins.len(),
                plugin == &plugins[i as int],
                known_textures.wf(),
                textures_are_known(plugins@, original, plugins@.len()),
                known_textures@ == updated_by_records(reached, *plugin, k as nat),
                known_textures@.dom() == original.dom(),
                forall|id: Seq<char>| #[trigger]
                    known_textures@.dom().contains(id) ==> known_textures@[id].inner.index
                        == original[id].inner.index && known_textures@[id].inner.id
                        == original[id].inner.id,
            decreases plugin.records.landscape_textures.len() - k,
        {
            let texture = &plugin.records.landscape_textures[k];
            let ghost before = known_textures@;
            proof {
                assert(original.dom().contains(
                    plugins@[i as int].records.landscape_textures@[k as int].id@,
                ));
            }
            known_textures.update_texture(plugin, texture);
            proof {
                assert forall|id: Seq<char>| #[trigger]
                    known_textures@.dom().contains(id) implies known_textures@[id].inner.index
                    == original[id].inner.index && known_textures@[id].inner.id
                    == original[id].inner.id by {
                    assert(before.dom().contains(id));
                    if id != texture.id@ {
                        assert(known_textures@[id] == before[id]);
                    }
                }
                let updated = updated_texture(before[texture.id@], *plugin, *texture);
                assert(known_textures@[texture.id@].inner == updated.inner);
                assert(known_textures@[texture.id@] == updated);
                assert(known_textures@ =~= before.insert(texture.id@, updated));
                assert(plugin.records.landscape_textures@[(k + 1) - 1] == *texture);
                assert(known_textures@ == updated_by_records(reached, *plugin, (k + 1) as nat));
            }
            k = k + 1;
        }
        proof {
            assert(known_textures@ == updated_by_plugins(original, plugins@, (i + 1) as nat));
        }
        i = i + 1;
    }
}

/// What the cleaning of the known textures leaves: the textures `known` that are in use
/// among `cells` have new indices without gaps, in the order of their old ones, which
/// `remapped` holds under the old ones; and `cleaned` are the textures that are in use,
/// under their new indices.
pub open spec fn is_texture_cleaning(
    remapped: Map<u16, u16>,
    cleaned: Map<Seq<char>, KnownTexture>,
    known: Map<Seq<char>, KnownTexture>,
    cells: Map<Vec2<i32>, LandscapeDiff>,
) -> bool {
    &&& forall|index: u16| #[trigger]
        remapped.dom().contains(index) == (index <= known.dom().len() && is_used_texture(
            cells,
            index as int,
        ))
    &&& forall|index: u16| #[trigger]
        remapped.dom().contains(index) ==> remapped[index] == used_among(
            used_textures(cells, known.dom().len()),
            index as nat,
        )
    &&& forall|id: Seq<char>| #[trigger]
        cleaned.dom().contains(id) == (known.dom().contains(id) && remap(
            remapped,
            grid_index(known[id]),
        ).is_some())
    &&& forall|id: Seq<char>| #[trigger]
        cleaned.dom().contains(id) ==> cleaned[id].inner.id == known[id].inner.id
            && cleaned[id].inner.index == Some(
            (remap(remapped, grid_index(known[id])).unwrap().0 - 1) as u32,
        )
}

/// The textures `known` once the texture records of the master files have updated them,
/// and then once more.
pub open spec fn updated_by_masters(
    known: Map<Seq<char>, KnownTexture>,
    masters: Seq<Arc<ParsedPlugin>>,
) -> Map<Seq<char>, KnownTexture> {
    updated_by_plugins(updated_by_plugins(known, masters, masters.len()), masters, masters.len())
}

/// Every texture of `cleaned` names the file, has the flags and notes the plugin that it
/// has among the textures `updated`.
pub open spec fn keeps_updated_files(
    cleaned: Map<Seq<char>, KnownTexture>,
    updated: Map<Seq<char>, KnownTexture>,
) -> bool {
    forall|id: Seq<char>| #[trigger]
        cleaned.dom().contains(id) ==> cleaned[id].plugin == updated[id].plugin
            && cleaned[id].inner.texture == updated[id].inner.texture && cleaned[id].inner.flags
            == updated[id].inner.flags
}

/// Remove any unused known texture from the [KnownTextures], once the texture records of
/// the master files have updated the files that the textures name.
/// Returns [RemappedTextures] for anything that was not removed: the textures that are in
/// use in `landmass` are given new indices without gaps, in the order of their old ones.
pub fn clean_known_textures(
    parsed_plugins: &ParsedPlugins,
    landmass: &LandmassDiff,
    known_textures: &mut KnownTextures,
) -> (r: RemappedTextures)
    requires
        old(known_textures).wf(),
        old(known_textures)@.dom().len() + 1 < u16::MAX,
        textures_are_known(
            parsed_plugins.masters@,
            old(known_textures)@,
            parsed_plugins.masters@.len(),
        ),
        names_known_textures(landmass@, old(known_textures)@.dom().len() as int),
    ensures
        final(known_textures).wf(),
        is_texture_cleaning(r@, final(known_textures)@, old(known_textures)@, landmass@),
        keeps_updated_files(
            final(known_textures)@,
            updated_by_masters(old(known_textures)@, parsed_plugins.masters@),
        ),
{
    let ghost original = known_textures@;
    let count: usize = known_textures.len();

    // Make sure all texture records have the correct filenames.

    update_known_textures(&parsed_plugins.masters, known_textures);
    proof {
        assert forall|place: int, k: int|
            0 <= place < parsed_plugins.masters@.len() && 0 <= k
                < parsed_plugins.masters@[place].records.landscape_textures@.len() implies known_textures@.dom().contains(
            #[trigger] parsed_plugins.masters@[place].records.landscape_textures@[k].id@,
        ) by {
            assert(original.dom().contains(
                parsed_plugins.masters@[place].records.landscape_textures@[k].id@,
            ));
        }
    }
    update_known_textures(&parsed_plugins.masters, known_textures);
    let ghost updated = known_textures@;
    proof {
        assert(updated == updated_by_masters(original, parsed_plugins.masters@));
    }

    // Determine all texture records in use in the landmass.
    // Reserve extra texture index for the default 0th texture.

    let mut used_ids: Vec<bool> = Vec::new();
    let mut n: usize = 0;
    while n < count + 1
        invariant
            n <= count + 1,
            count + 1 < u16::MAX,
            used_ids.len() == n,
            forall|index: int| 0 <= index < n ==> #[trigger] used_ids[index] == (index == 0),
        decreases count + 1 - n,
    {
        used_ids.push(n == 0);
        n = n + 1;
    }

    let keys = landmass.sorted();
    let mut i: usize = 0;
    while i < keys.len()
        invariant
            i <= keys.len(),
            used_ids.len() == count + 1,
            count == original.dom().len(),
            forall|coords: Vec2<i32>| keys@.contains(coords) == landmass@.dom().contains(coords),
            forall|coords: Vec2<i32>, p: Index2D|
                landmass@.dom().contains(coords) && p.within(16)
                    && landmass@[coords].texture_indices.is_some() ==> (
                #[trigger] landmass@[coords].texture_indices.unwrap().value_at(p)).0 <= count,
            forall|index: int|
                0 <= index <= count ==> #[trigger] used_ids[index] == (index == 0 || exists|j: int|
                    0 <= j < i && #[trigger] names_texture(landmass@[keys[j]], index)),
        decreases keys.len() - i,
    {
        let coords = keys[i];
        proof {
            assert(keys@.contains(coords));
        }
        match landmass.get(coords) {
            Some(land) => {
                match &land.texture_indices {
                    Some(texture_indices) => {
                        let ghost before = used_ids@;
                        let mut y: usize = 0;
                        while y < 16
                            invariant
                                y <= 16,
                                used_ids.len() == count + 1,
                                land.texture_indices == Some(*texture_indices),
                                forall|p: Index2D|
                                    p.within(16) ==> (#[trigger] texture_indices.value_at(p)).0
                                        <= count,
                                forall|index: int|
                                    0 <= index <= count ==> #[trigger] used_ids[index] == (
                                    before[index] || exists|p: Index2D|
                                        p.within(16) && walked(p, 0, y) && (
                                        #[trigger] texture_indices.value_at(p)).0 == index),
                            decreases 16 - y,
                        {
                            let mut x: usize = 0;
                            while x < 16
                                invariant
                                    x <= 16,
                                    y < 16,
                                    used_ids.len() == count + 1,
                                    land.texture_indices == Some(*texture_indices),
                                    forall|p: Index2D|
                                        p.within(16) ==> (
                                        #[trigger] texture_indices.value_at(p)).0 <= count,
                                    forall|index: int|
                                        0 <= index <= count ==> #[trigger] used_ids[index] == (
                                        before[index] || exists|p: Index2D|
                                            p.within(16) && walked(p, x, y) && (
                                            #[trigger] texture_indices.value_at(p)).0 == index),
                                decreases 16 - x,
                            {
                                let position = Index2D::new(x, y);
                                let key = texture_indices.get_value(position);
                                let ghost earlier = used_ids@;
                                used_ids.set(key.as_u16() as usize, true);
                                proof {
                                    assert forall|index: int|
                                        0 <= index <= count implies #[trigger] used_ids[index] == (
                                    before[index] || exists|p: Index2D|
                                        p.within(16) && walked(p, (x + 1) as usize, y) && (
                                        #[trigger] texture_indices.value_at(p)).0 == index) by {
                                        let now = exists|p: Index2D|
                                            p.within(16) && walked(p, (x + 1) as usize, y) && (
                                            #[trigger] texture_indices.value_at(p)).0 == index;
                                        let then = exists|p: Index2D|
                                            p.within(16) && walked(p, x, y) && (
                                            #[trigger] texture_indices.value_at(p)).0 == index;
                                        assert(earlier[index] == (before[index] || then));
                                        if then {
                                            let p = choose|p: Index2D|
                                                p.within(16) && walked(p, x, y) && (
                                                #[trigger] texture_indices.value_at(p)).0
                                                    == index;
                                            assert(walked(p, (x + 1) as usize, y));
                                        }
                                        if index == key.0 {
                                            assert(walked(position, (x + 1) as usize, y));
                                            assert(texture_indices.value_at(position).0 == index);
                                        }
                                        if now && !then {
                                            let p = choose|p: Index2D|
                                                p.within(16) && walked(p, (x + 1) as usize, y) && (
                                                #[trigger] texture_indices.value_at(p)).0
                                                    == index;
                                            assert(p == position);
                                        }
                                    }
                                }
                                x = x + 1;
                            }
                            y = y + 1;
                        }
                        proof {
                            assert forall|index: int|
                                0 <= index <= count implies #[trigger] used_ids[index] == (index
                                == 0 || exists|j: int|
                                0 <= j < i + 1 && #[trigger] names_texture(
                                    landmass@[keys[j]],
                                    index,
                                )) by {
                                let here = exists|p: Index2D|
                                    p.within(16) && walked(p, 0, 16) && (
                                    #[trigger] texture_indices.value_at(p)).0 == index;
                                assert(used_ids[index] == (before[index] || here));
                                if here {
                                    let p = choose|p: Index2D|
                                        p.within(16) && walked(p, 0, 16) && (
                                        #[trigger] texture_indices.value_at(p)).0 == index;
                                    assert(names_texture(landmass@[keys[i as int]], index));
                                }
                                if names_texture(landmass@[keys[i as int]], index) {
                                    let p = choose|p: Index2D|
                                        p.within(16) && (
                                        #[trigger] texture_indices.value_at(p)).0 == index;
                                    assert(walked(p, 0, 16));
                                }
                                if before[index] && index != 0 {
                                    let j = choose|j: int|
                                        0 <= j < i && #[trigger] names_texture(
                                            landmass@[keys[j]],
                                            index,
                                        );
                                    assert(names_texture(landmass@[keys[j]], index));
                                }
                            }
                        }
                    },
                    None => {
                        proof {
                            assert(!names_texture(landmass@[keys[i as int]], 0));
                            assert forall|index: int|
                                0 <= index <= count implies #[trigger] used_ids[index] == (index
                                == 0 || exists|j: int|
                                0 <= j < i + 1 && #[trigger] names_texture(
                                    landmass@[keys[j]],
                                    index,
                                )) by {
                                if used_ids[index] && index != 0 {
                                    let j = choose|j: int|
                                        0 <= j < i && #[trigger] names_texture(
                                            landmass@[keys[j]],
                                            index,
                                        );
                                    assert(names_texture(landmass@[keys[j]], index));
                                }
                            }
                        }
                    },
                }
            },
            None => {
                proof {
                    assert(false);
                }
            },
        }
        i = i + 1;
    }

    // Determine the remapping needed for the texture records.

    let remapped_textures = RemappedTextures::from(&used_ids);
    proof {
        let expected = used_textures(landmass@, count as nat);
        assert forall|index: int| 0 <= index <= count implies used_ids@[index]
            == #[trigger] expected[index] by {
            if index != 0 {
                if used_ids@[index] {
                    let j = choose|j: int|
                        0 <= j < keys.len() && #[trigger] names_texture(
                            landmass@[keys[j]],
                            index,
                        );
                    assert(keys@.contains(keys[j]));
                    assert(names_texture(landmass@[keys[j]], index));
                }
                if is_used_texture(landmass@, index) {
                    let coords = choose|coords: Vec2<i32>|
                        landmass@.dom().contains(coords) && #[trigger] names_texture(
                            landmass@[coords],
                            index,
                        );
                    assert(keys@.contains(coords));
                    let j = choose|j: int| 0 <= j < keys@.len() && keys@[j] == coords;
                    assert(names_texture(landmass@[keys[j]], index));
                }
            }
        }
        assert(used_ids@ =~= expected);
        assert forall|index: u16| #[trigger]
            remapped_textures@.dom().contains(index) && index > 0 implies remapped_textures@[index]
            > 0 by {
            lemma_used_among_counts(used_ids@, index as nat);
        }
    }
    known_textures.remove_unused(&remapped_textures);
    proof {
        assert forall|id: Seq<char>| #[trigger]
            known_textures@.dom().contains(id) == (original.dom().contains(id) && remap(
                remapped_textures@,
                grid_index(original[id]),
            ).is_some()) by {
            if original.dom().contains(id) {
                assert(updated.dom().contains(id));
            }
        }
        assert forall|id: Seq<char>| #[trigger]
            known_textures@.dom().contains(id) implies known_textures@[id].inner.id
            == original[id].inner.id && known_textures@[id].inner.index == Some(
            (remap(remapped_textures@, grid_index(original[id])).unwrap().0 - 1) as u32,
        ) by {
            assert(updated.dom().contains(id));
        }
        assert forall|id: Seq<char>| #[trigger]
            known_textures@.dom().contains(id) implies known_textures@[id].plugin
            == updated[id].plugin && known_textures@[id].inner.texture == updated[id].inner.texture
            && known_textures@[id].inner.flags == updated[id].inner.flags by {
            assert(updated.dom().contains(id));
        }
    }

    remapped_textures
}

/// Where the first texture index is in use, every other one has one in use before it.
pub proof fn lemma_used_among_counts(used_ids: Seq<bool>, count: nat)
    requires
        0 < count <= used_ids.len(),
        used_ids[0],
    ensures
        used_among(used_ids, count) > 0,
    decreases count,
{
    if count > 1 {
        lemma_used_among_counts(used_ids, (count - 1) as nat);
    }
}

} // verus!
