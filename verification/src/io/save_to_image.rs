use crate::land::grid_access::{lemma_row_major, row_major, Index2D};
use crate::land::terrain_map::{lemma_flat_index_bound, TerrainMap, Vec3};
use crate::merge::conflict::{ConflictParams, ConflictResolver, ConflictType};
use crate::land::landscape_diff::LandscapeDiff;
use crate::merge::merge_strategy::{held, resolve_params, Channel};
use crate::merge::relative_terrain_map::{OptionalTerrainMap, RelativeTerrainMap};
use crate::merge::relative_to::RelativeTo;
use vstd::prelude::*;

verus! {

/// The picture of the conflicts between the merged terrain and the terrain of a plugin,
/// and the number of conflicts of either kind.
pub struct ConflictImage<const T: usize> {
    pub pixels: TerrainMap<Vec3<u8>, T>,
    pub num_major_conflicts: usize,
    pub num_minor_conflicts: usize,
}

/// The color of a position in the picture of conflicts: black where the plugin did not
/// change the position, and else red for a major conflict, yellow for a minor conflict and
/// green for none.
pub open spec fn conflict_pixel<U: ConflictResolver>(actual: U, expected: U, has_difference: bool) -> Vec3<
    u8,
> {
    if !has_difference {
        Vec3 { x: 0u8, y: 0u8, z: 0u8 }
    } else {
        match actual.resolution(expected, resolve_params()) {
            None => Vec3 { x: 0u8, y: 255u8, z: 0u8 },
            Some(ConflictType::Minor(_)) => Vec3 { x: 255u8, y: 255u8, z: 0u8 },
            Some(ConflictType::Major(_)) => Vec3 { x: 255u8, y: 0u8, z: 0u8 },
        }
    }
}

/// Whether the plugin changed a position and is in major conflict there, where `major` is
/// set, or in minor conflict, where it is not.
pub open spec fn is_counted_conflict<U: ConflictResolver>(
    actual: U,
    expected: U,
    has_difference: bool,
    major: bool,
) -> bool {
    has_difference && match actual.resolution(expected, resolve_params()) {
        None => false,
        Some(ConflictType::Minor(_)) => !major,
        Some(ConflictType::Major(_)) => major,
    }
}

/// The number of conflicts of one kind among the first `count` positions of a walk row by
/// row.
pub open spec fn conflicts_among<U: RelativeTo + ConflictResolver, const T: usize>(
    lhs: RelativeTerrainMap<U, T>,
    rhs: RelativeTerrainMap<U, T>,
    major: bool,
    count: nat,
) -> nat
    decreases count,
{
    if count == 0 {
        0
    } else {
        let rest = conflicts_among(lhs, rhs, major, (count - 1) as nat);
        let p = row_major(T, (count - 1) as nat);
        if is_counted_conflict(lhs.value_at(p), rhs.value_at(p), rhs.changed_at(p), major) {
            rest + 1
        } else {
            rest
        }
    }
}

/// Paints the picture of the conflicts between the merged terrain `lhs` and the terrain
/// `rhs` of a plugin, and counts the conflicts.
pub fn conflict_image<U: RelativeTo + ConflictResolver, const T: usize>(
    lhs: &RelativeTerrainMap<U, T>,
    rhs: &RelativeTerrainMap<U, T>,
) -> (r: ConflictImage<T>)
    requires
        rhs.wf(),
    ensures
        forall|p: Index2D|
            p.within(T) ==> (#[trigger] r.pixels[p]) == conflict_pixel(
                lhs.value_at(p),
                rhs.value_at(p),
                rhs.changed_at(p),
            ),
        r.num_major_conflicts == conflicts_among(*lhs, *rhs, true, (T * T) as nat),
        r.num_minor_conflicts == conflicts_among(*lhs, *rhs, false, (T * T) as nat),
{
    let black = Vec3::new(0u8, 0u8, 0u8);
    let mut diff_img: TerrainMap<Vec3<u8>, T> = rhs.differences().uniform_like(black);
    let total: usize = diff_img.len();

    let mut num_major_conflicts: usize = 0;
    let mut num_minor_conflicts: usize = 0;

    let params = ConflictParams::default();

    let mut y: usize = 0;
    proof {
        assert(0 * T == 0) by (nonlinear_arith);
    }
    while y < T
        invariant
            y <= T,
            total == T * T,
            rhs.wf(),
            params == resolve_params(),
            black == (Vec3 { x: 0u8, y: 0u8, z: 0u8 }),
            num_major_conflicts == conflicts_among(*lhs, *rhs, true, (y * T) as nat),
            num_minor_conflicts == conflicts_among(*lhs, *rhs, false, (y * T) as nat),
            num_major_conflicts <= y * T,
            num_minor_conflicts <= y * T,
            forall|p: Index2D|
                p.within(T) && crate::land::grid_access::walked(p, 0, y) ==> (
                #[trigger] diff_img[p]) == conflict_pixel(
                    lhs.value_at(p),
                    rhs.value_at(p),
                    rhs.changed_at(p),
                ),
        decreases T - y,
    {
        let mut x: usize = 0;
        while x < T
            invariant
                x <= T,
                y < T,
                total == T * T,
                rhs.wf(),
                params == resolve_params(),
                black == (Vec3 { x: 0u8, y: 0u8, z: 0u8 }),
                num_major_conflicts == conflicts_among(*lhs, *rhs, true, (y * T + x) as nat),
                num_minor_conflicts == conflicts_among(*lhs, *rhs, false, (y * T + x) as nat),
                num_major_conflicts <= y * T + x,
                num_minor_conflicts <= y * T + x,
                forall|p: Index2D|
                    p.within(T) && crate::land::grid_access::walked(p, x, y) ==> (
                    #[trigger] diff_img[p]) == conflict_pixel(
                        lhs.value_at(p),
                        rhs.value_at(p),
                        rhs.changed_at(p),
                    ),
            decreases T - x,
        {
            let coords = Index2D::new(x, y);
            let actual = lhs.get_value(coords);
            let expected = rhs.get_value(coords);
            let has_difference = rhs.has_difference(coords);
            let ghost before = diff_img;
            proof {
                lemma_row_major(T, x, y);
                lemma_flat_index_bound(T as int, x as int, y as int);
            }

            if has_difference {
                match actual.average(expected, &params) {
                    None => {
                        diff_img.set(coords, Vec3::new(0u8, 255u8, 0u8));
                    },
                    Some(ConflictType::Minor(_)) => {
                        num_minor_conflicts = num_minor_conflicts + 1;
                        diff_img.set(coords, Vec3::new(255u8, 255u8, 0u8));
                    },
                    Some(ConflictType::Major(_)) => {
                        num_major_conflicts = num_major_conflicts + 1;
                        diff_img.set(coords, Vec3::new(255u8, 0u8, 0u8));
                    },
                }
            } else {
                diff_img.set(coords, black);
            }
            proof {
                assert forall|p: Index2D|
                    p.within(T) && crate::land::grid_access::walked(
                        p,
                        (x + 1) as usize,
                        y,
                    ) implies (#[trigger] diff_img[p]) == conflict_pixel(
                    lhs.value_at(p),
                    rhs.value_at(p),
                    rhs.changed_at(p),
                ) by {
                    if p != coords {
                        assert(diff_img[p] == before[p]);
                    }
                }
            }
            x = x + 1;
        }
        proof {
            assert((y + 1) * T == y * T + T) by (nonlinear_arith);
        }
        y = y + 1;
    }
    proof {
        assert(T * T == y * T);
    }

    ConflictImage { pixels: diff_img, num_major_conflicts, num_minor_conflicts }
}

/// Whether no picture is saved of the conflicts of a kind of terrain data: there is none
/// for vertex colors and vertex normals, none where there is no conflict at all, and none
/// where less than a fiftieth of the positions is in minor conflict and less than a
/// thousandth in major conflict.
pub open spec fn skips_image(value: Channel, side: usize, num_minor: usize, num_major: usize) -> bool {
    ||| num_minor == 0 && num_major == 0
    ||| value == Channel::VertexColors
    ||| value == Channel::VertexNormals
    ||| 50 * num_minor + 49 < side * side && 1000 * num_major + 999 < side * side
}

/// Tells whether no picture is saved of the conflicts of a kind of terrain data.
pub fn should_skip_image<const T: usize>(
    value: Channel,
    image: &ConflictImage<T>,
) -> (r: bool)
    ensures
        r == skips_image(value, T, image.num_minor_conflicts, image.num_major_conflicts),
{
    let positions: usize = image.pixels.len();
    let num_minor_conflicts = image.num_minor_conflicts;
    let num_major_conflicts = image.num_major_conflicts;
    if num_minor_conflicts == 0 && num_major_conflicts == 0 {
        return true;
    }

    let minor_conflict_threshold: usize = positions / 50;
    let major_conflict_threshold: usize = positions / 1000;

    let mut should_skip = num_minor_conflicts < minor_conflict_threshold && num_major_conflicts
        < major_conflict_threshold;

    if value == Channel::VertexColors || value == Channel::VertexNormals {
        should_skip = true;
    }

    should_skip
}

/// `image` is the picture of the conflicts between the merged terrain `lhs` and the
/// terrain `rhs` of a plugin, with the number of conflicts of either kind.
pub open spec fn is_conflict_image<U: RelativeTo + ConflictResolver, const T: usize>(
    image: ConflictImage<T>,
    lhs: RelativeTerrainMap<U, T>,
    rhs: RelativeTerrainMap<U, T>,
) -> bool {
    &&& forall|p: Index2D|
        p.within(T) ==> (#[trigger] image.pixels[p]) == conflict_pixel(
            lhs.value_at(p),
            rhs.value_at(p),
            rhs.changed_at(p),
        )
    &&& image.num_major_conflicts == conflicts_among(lhs, rhs, true, (T * T) as nat)
    &&& image.num_minor_conflicts == conflicts_among(lhs, rhs, false, (T * T) as nat)
}

/// `image` is the picture of the conflicts between `lhs` and `rhs`, where both sides hold
/// the kind of terrain data, and else there is none.
pub open spec fn is_conflict_image_of<U: RelativeTo + ConflictResolver, const T: usize>(
    image: Option<ConflictImage<T>>,
    lhs: OptionalTerrainMap<U, T>,
    rhs: OptionalTerrainMap<U, T>,
) -> bool {
    &&& image.is_some() == (lhs.is_some() && rhs.is_some())
    &&& image matches Some(picture) ==> is_conflict_image(picture, lhs.unwrap(), rhs.unwrap())
}

/// Paints the picture of the conflicts between the merged terrain `lhs` and the terrain
/// `rhs` of a plugin, where both sides hold the kind of terrain data.
pub fn conflict_image_of<U: RelativeTo + ConflictResolver, const T: usize>(
    lhs: Option<&RelativeTerrainMap<U, T>>,
    rhs: Option<&RelativeTerrainMap<U, T>>,
) -> (r: Option<ConflictImage<T>>)
    requires
        rhs matches Some(map) ==> map.wf(),
    ensures
        is_conflict_image_of(r, held(lhs), held(rhs)),
{
    match (lhs, rhs) {
        (Some(merged), Some(plugin)) => Some(conflict_image(merged, plugin)),
        _ => None,
    }
}

/// The pictures of the conflicts that a plugin has with a merged cell, one for every kind
/// of terrain data that both hold and of which pictures are made.
pub struct CellConflicts {
    pub height_map: Option<ConflictImage<65>>,
    pub vertex_normals: Option<ConflictImage<65>>,
    pub world_map_data: Option<ConflictImage<9>>,
    pub vertex_colors: Option<ConflictImage<65>>,
}

/// `conflicts` are the pictures of the conflicts between the merged cell `reference` and
/// the cell `plugin` of a plugin.
pub open spec fn are_cell_conflicts(
    conflicts: CellConflicts,
    reference: LandscapeDiff,
    plugin: LandscapeDiff,
) -> bool {
    &&& is_conflict_image_of(conflicts.height_map, reference.height_map, plugin.height_map)
    &&& is_conflict_image_of(
        conflicts.vertex_normals,
        reference.vertex_normals,
        plugin.vertex_normals,
    )
    &&& is_conflict_image_of(
        conflicts.world_map_data,
        reference.world_map_data,
        plugin.world_map_data,
    )
    &&& is_conflict_image_of(conflicts.vertex_colors, reference.vertex_colors, plugin.vertex_colors)
}

/// Paints the pictures of the conflicts between the merged cell `reference` and the cell
/// `plugin` of a plugin.
pub fn landscape_conflicts(reference: &LandscapeDiff, plugin: &LandscapeDiff) -> (r: CellConflicts)
    requires
        plugin.wf(),
    ensures
        are_cell_conflicts(r, *reference, *plugin),
{
    let reference_heights = reference.height_map.as_ref();
    let plugin_heights = plugin.height_map.as_ref();
    let reference_normals = reference.vertex_normals.as_ref();
    let plugin_normals = plugin.vertex_normals.as_ref();
    let reference_world_map = reference.world_map_data.as_ref();
    let plugin_world_map = plugin.world_map_data.as_ref();
    let reference_colors = reference.vertex_colors.as_ref();
    let plugin_colors = plugin.vertex_colors.as_ref();
    proof {
        assert(held(reference_heights) == reference.height_map);
        assert(held(plugin_heights) == plugin.height_map);
        assert(held(reference_normals) == reference.vertex_normals);
        assert(held(plugin_normals) == plugin.vertex_normals);
        assert(held(reference_world_map) == reference.world_map_data);
        assert(held(plugin_world_map) == plugin.world_map_data);
        assert(held(reference_colors) == reference.vertex_colors);
        assert(held(plugin_colors) == plugin.vertex_colors);
    }
    CellConflicts {
        height_map: conflict_image_of(reference_heights, plugin_heights),
        vertex_normals: conflict_image_of(reference_normals, plugin_normals),
        world_map_data: conflict_image_of(reference_world_map, plugin_world_map),
        vertex_colors: conflict_image_of(reference_colors, plugin_colors),
    }
}

} // verus!
