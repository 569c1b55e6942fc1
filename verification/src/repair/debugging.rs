use crate::land::grid_access::{walked, Index2D};
use crate::land::landscape_diff::LandscapeDiff;
use crate::land::terrain_map::{Vec2, Vec3};
use crate::landmass::LandmassDiff;
use crate::merge::conflict::{ConflictParams, ConflictResolver, ConflictType};
use crate::merge::merge_strategy::resolve_params;
use crate::merge::relative_terrain_map::RelativeTerrainMap;
use crate::merge::relative_to::RelativeTo;
use vstd::prelude::*;

verus! {

/// The color of a vertex at which a plugin is in major conflict with the merged terrain.
pub open spec fn major_color() -> Vec3<u8> {
    Vec3 { x: 255u8, y: 0u8, z: 0u8 }
}

/// The color of a vertex at which a plugin is in minor conflict with the merged terrain.
pub open spec fn minor_color() -> Vec3<u8> {
    Vec3 { x: 255u8, y: 255u8, z: 0u8 }
}

/// The color of a vertex once the conflicts of a plugin are painted. Where the plugin
/// changed the vertex and is in major conflict with the merged terrain, the vertex is red;
/// where it is in minor conflict and the vertex is not red, the vertex is yellow; and
/// everywhere else the vertex keeps its color.
pub open spec fn painted_color<U: ConflictResolver>(
    current: Vec3<u8>,
    actual: U,
    expected: U,
    has_difference: bool,
) -> Vec3<u8> {
    if !has_difference {
        current
    } else {
        match actual.resolution(expected, resolve_params()) {
            Some(ConflictType::Major(_)) => major_color(),
            Some(ConflictType::Minor(_)) => if current != major_color() {
                minor_color()
            } else {
                current
            },
            None => current,
        }
    }
}

/// Adds any conflicts between the `lhs` [RelativeTerrainMap] and
/// the `rhs` [RelativeTerrainMap] to the `vertex_colors`.
/// Nothing is painted where one of the two is missing.
pub fn add_vertex_colors<U: RelativeTo + ConflictResolver, const T: usize>(
    lhs: Option<&RelativeTerrainMap<U, T>>,
    rhs: Option<&RelativeTerrainMap<U, T>>,
    vertex_colors: &mut RelativeTerrainMap<Vec3<u8>, T>,
)
    requires
        rhs matches Some(map) ==> map.wf(),
        old(vertex_colors).wf(),
    ensures
        final(vertex_colors).wf(),
        forall|p: Index2D|
            p.within(T) ==> #[trigger] final(vertex_colors).reference_at(p) == old(vertex_colors).reference_at(p),
        forall|p: Index2D|
            p.within(T) ==> #[trigger] final(vertex_colors).value_at(p) == if lhs.is_some()
                && rhs.is_some() {
                painted_color(
                    old(vertex_colors).value_at(p),
                    lhs.unwrap().value_at(p),
                    rhs.unwrap().value_at(p),
                    rhs.unwrap().changed_at(p),
                )
            } else {
                old(vertex_colors).value_at(p)
            },
{
    let actual_map = match lhs {
        Some(map) => map,
        None => {
            return ;
        },
    };
    let expected_map = match rhs {
        Some(map) => map,
        None => {
            return ;
        },
    };

    let params = ConflictParams::default();

    let major = Vec3::new(255u8, 0u8, 0u8);
    let minor = Vec3::new(255u8, 255u8, 0u8);

    let mut y: usize = 0;
    while y < T
        invariant
            y <= T,
            lhs == Some(actual_map),
            rhs == Some(expected_map),
            expected_map.wf(),
            params == resolve_params(),
            major == major_color(),
            minor == minor_color(),
            vertex_colors.wf(),
            forall|p: Index2D|
                p.within(T) ==> #[trigger] vertex_colors.reference_at(p) == old(vertex_colors).reference_at(p),
            forall|p: Index2D|
                p.within(T) ==> #[trigger] vertex_colors.value_at(p) == if walked(p, 0, y) {
                    painted_color(
                        old(vertex_colors).value_at(p),
                        actual_map.value_at(p),
                        expected_map.value_at(p),
                        expected_map.changed_at(p),
                    )
                } else {
                    old(vertex_colors).value_at(p)
                },
        decreases T - y,
    {
        let mut x: usize = 0;
        while x < T
            invariant
                x <= T,
                y < T,
                lhs == Some(actual_map),
                rhs == Some(expected_map),
                expected_map.wf(),
                params == resolve_params(),
                major == major_color(),
                minor == minor_color(),
                vertex_colors.wf(),
                forall|p: Index2D|
                    p.within(T) ==> #[trigger] vertex_colors.reference_at(p) == old(vertex_colors).reference_at(p),
                forall|p: Index2D|
                    p.within(T) ==> #[trigger] vertex_colors.value_at(p) == if walked(p, x, y) {
                        painted_color(
                            old(vertex_colors).value_at(p),
                            actual_map.value_at(p),
                            expected_map.value_at(p),
                            expected_map.changed_at(p),
                        )
                    } else {
                        old(vertex_colors).value_at(p)
                    },
            decreases T - x,
        {
            let coords = Index2D::new(x, y);
            let actual = actual_map.get_value(coords);
            let expected = expected_map.get_value(coords);
            let has_difference = expected_map.has_difference(coords);
            let ghost before = *vertex_colors;

            if has_difference {
                let current_color = vertex_colors.get_value(coords);
                match actual.average(expected, &params) {
                    Some(ConflictType::Major(_)) => {
                        vertex_colors.set_value(coords, major);
                    },
                    Some(ConflictType::Minor(_)) => {
                        let is_major = current_color.x == 255 && current_color.y == 0
                            && current_color.z == 0;
                        if !is_major {
                            vertex_colors.set_value(coords, minor);
                        }
                    },
                    None => {},
                }
            }
            proof {
                assert forall|p: Index2D| p.within(T) implies #[trigger] vertex_colors.value_at(p)
                    == if walked(p, (x + 1) as usize, y) {
                    painted_color(
                        old(vertex_colors).value_at(p),
                        actual_map.value_at(p),
                        expected_map.value_at(p),
                        expected_map.changed_at(p),
                    )
                } else {
                    old(vertex_colors).value_at(p)
                } by {
                    assert(before.value_at(p) == if walked(p, x, y) {
                        painted_color(
                            old(vertex_colors).value_at(p),
                            actual_map.value_at(p),
                            expected_map.value_at(p),
                            expected_map.changed_at(p),
                        )
                    } else {
                        old(vertex_colors).value_at(p)
                    });
                    if p != coords {
                        assert(vertex_colors.difference_at(p) == before.difference_at(p));
                        assert(vertex_colors.reference_at(p) == before.reference_at(p));
                    } else {
                        assert(!walked(p, x, y));
                        assert(walked(p, (x + 1) as usize, y));
                    }
                }
            }
            x = x + 1;
        }
        y = y + 1;
    }
}

/// `painted` is the landscape diff `land` with the conflicts painted that the elevation of
/// `plugin` has with its own: the vertex colors are painted where the landscape diff holds
/// vertex colors and both hold an elevation, and all else is as it was.
pub open spec fn is_painted(painted: LandscapeDiff, land: LandscapeDiff, plugin: LandscapeDiff) -> bool {
    &&& painted.coords == land.coords
    &&& painted.flags == land.flags
    &&& painted.plugins == land.plugins
    &&& painted.height_map == land.height_map
    &&& painted.vertex_normals == land.vertex_normals
    &&& painted.world_map_data == land.world_map_data
    &&& painted.texture_indices == land.texture_indices
    &&& painted.vertex_colors.is_some() == land.vertex_colors.is_some()
    &&& painted.vertex_colors matches Some(colors) ==> forall|p: Index2D|
        p.within(65) ==> #[trigger] colors.reference_at(p) == land.vertex_colors.unwrap().reference_at(p)
            && colors.value_at(p) == if land.height_map.is_some() && plugin.height_map.is_some() {
            painted_color(
                land.vertex_colors.unwrap().value_at(p),
                land.height_map.unwrap().value_at(p),
                plugin.height_map.unwrap().value_at(p),
                plugin.height_map.unwrap().changed_at(p),
            )
        } else {
            land.vertex_colors.unwrap().value_at(p)
        }
}

/// Add vertex colors to [LandscapeDiff] `reference` for any conflict that the elevation of
/// `plugin` has with its own.
pub fn add_debug_vertex_colors_to_landscape(reference: &mut LandscapeDiff, plugin: &LandscapeDiff)
    requires
        old(reference).wf(),
        plugin.wf(),
    ensures
        final(reference).wf(),
        is_painted(*final(reference), *old(reference), *plugin),
{
    let plugin_heights = plugin.height_map.as_ref();
    match &mut reference.vertex_colors {
        Some(vertex_colors) => {
            let ghost before = *vertex_colors;
            let reference_heights = reference.height_map.as_ref();
            add_vertex_colors(reference_heights, plugin_heights, vertex_colors);
            proof {
                assert forall|p: Index2D| p.within(65) implies #[trigger] vertex_colors.reference_at(
                    p,
                ) == before.reference_at(p) && vertex_colors.value_at(p) == if old(reference).height_map.is_some() && plugin.height_map.is_some() {
                    painted_color(
                        before.value_at(p),
                        old(reference).height_map.unwrap().value_at(p),
                        plugin.height_map.unwrap().value_at(p),
                        plugin.height_map.unwrap().changed_at(p),
                    )
                } else {
                    before.value_at(p)
                } by {
                    assert(vertex_colors.reference_at(p) == before.reference_at(p));
                }
            }
        },
        None => {},
    }
}

/// Add vertex colors to [LandmassDiff] `reference` for any conflict found with `plugin`.
/// Every cell of `plugin` has to be a cell of `reference`.
pub fn add_debug_vertex_colors_to_landmass(reference: &mut LandmassDiff, plugin: &LandmassDiff)
    requires
        old(reference).wf(),
        plugin.wf(),
        forall|coords: Vec2<i32>| #[trigger]
            plugin@.dom().contains(coords) ==> old(reference)@.dom().contains(coords),
    ensures
        final(reference).wf(),
        final(reference).plugin == old(reference).plugin,
        final(reference)@.dom() == old(reference)@.dom(),
        forall|coords: Vec2<i32>| #[trigger]
            final(reference)@.dom().contains(coords) && !plugin@.dom().contains(coords) ==> final(reference)@[coords] == old(reference)@[coords],
        forall|coords: Vec2<i32>| #[trigger]
            plugin@.dom().contains(coords) ==> is_painted(
                final(reference)@[coords],
                old(reference)@[coords],
                plugin@[coords],
            ),
{
    let keys = plugin.sorted();
    let ghost original = reference@;

    let mut i: usize = 0;
    while i < keys.len()
        invariant
            i <= keys.len(),
            plugin.wf(),
            reference.wf(),
            reference.plugin == old(reference).plugin,
            reference@.dom() == original.dom(),
            forall|coords: Vec2<i32>| keys@.contains(coords) == plugin@.dom().contains(coords),
            forall|coords: Vec2<i32>| #[trigger]
                plugin@.dom().contains(coords) ==> original.dom().contains(coords),
            forall|coords: Vec2<i32>| #[trigger]
                reference@.dom().contains(coords) && !plugin@.dom().contains(coords)
                    ==> reference@[coords] == original[coords],
            keys@.no_duplicates(),
            forall|k: int|
                i <= k < keys.len() ==> reference@[#[trigger] keys[k]] == original[keys[k]],
            forall|k: int|
                0 <= k < i ==> is_painted(
                    reference@[#[trigger] keys[k]],
                    original[keys[k]],
                    plugin@[keys[k]],
                ),
        decreases keys.len() - i,
    {
        let coords = keys[i];
        let ghost before = reference@;
        proof {
            assert(keys@.contains(coords));
        }
        match (plugin.get(coords), reference.remove(coords)) {
            (Some(land), Some(merged_land)) => {
                let mut merged_land = merged_land;
                add_debug_vertex_colors_to_landscape(&mut merged_land, land);
                reference.insert(coords, merged_land);
                proof {
                    assert(reference@.dom() =~= original.dom());
                    assert forall|k: int| 0 <= k < keys.len() && k != i implies reference@[#[trigger] keys[k]]
                        == before[keys[k]] by {
                        assert(keys[k] != keys[i as int]);
                    }
                }
            },
            _ => {
                proof {
                    assert(false);
                }
            },
        }
        i = i + 1;
    }
    proof {
        assert forall|coords: Vec2<i32>| #[trigger] plugin@.dom().contains(coords) implies is_painted(
            reference@[coords],
            original[coords],
            plugin@[coords],
        ) by {
            assert(keys@.contains(coords));
            let k = choose|k: int| 0 <= k < keys.len() && keys[k] == coords;
            assert(is_painted(reference@[keys[k]], original[keys[k]], plugin@[keys[k]]));
        }
    }
}

} // verus!
