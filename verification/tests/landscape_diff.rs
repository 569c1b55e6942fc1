use merged_lands::io::parsed_plugins::ParsedPlugin;
use merged_lands::land::conversions::{
    convert_terrain_map, coordinates, landscape_flags, texture_indices, vec3_from_array,
    vec3_into_array, vertex_colors, vertex_normals, world_map_data,
};
use merged_lands::land::grid_access::Index2D;
use merged_lands::land::landscape::{Landscape, LandscapeFlags, ObjectFlags, VertexHeights};
use merged_lands::land::landscape_diff::{duplicate_terrain, LandscapeDiff};
use merged_lands::land::terrain_map::{LandData, TerrainMap, Vec2, Vec3};
use merged_lands::land::textures::IndexVTEX;
use merged_lands::merge::relative_terrain_map::{IsModified, RelativeTerrainMap};
use std::sync::Arc;

fn all_data() -> LandData {
    LandData { vertex_colors: true, textures: true, vertex_heights: true, vertex_normals: true, world_map: true }
}

fn all_flags() -> LandscapeFlags {
    LandscapeFlags { uses_vertex_heights_and_normals: true, uses_vertex_colors: true, uses_textures: true, unknown: false }
}

/// A record that holds every kind of data, flat but for what `change` does to it.
fn record(change: impl Fn(&mut Landscape)) -> Landscape {
    let mut land = Landscape {
        flags: ObjectFlags { bits: 7, deleted: false },
        grid: (3, -4),
        landscape_flags: all_flags(),
        vertex_heights: Some(VertexHeights { offset: 10, data: TerrainMap::new(0) }),
        vertex_normals: Some(TerrainMap::new([0, 0, 127])),
        vertex_colors: Some(TerrainMap::new([255, 255, 255])),
        texture_indices: Some(TerrainMap::new(1)),
        world_map_data: Some(TerrainMap::new(20)),
    };
    change(&mut land);
    land
}

#[test]
fn records_are_read_as_grids() {
    let land = record(|land| {
        land.vertex_normals.as_mut().unwrap().set(Index2D::new(1, 2), [1, -2, 3]);
        land.vertex_colors.as_mut().unwrap().set(Index2D::new(1, 2), [4, 5, 6]);
        land.texture_indices.as_mut().unwrap().set(Index2D::new(1, 2), 9);
        land.world_map_data.as_mut().unwrap().set(Index2D::new(1, 2), 8);
    });
    assert_eq!(vertex_normals(&land).unwrap().at(Index2D::new(1, 2)), Vec3::new(1, -2, 3));
    assert_eq!(vertex_normals(&land).unwrap().at(Index2D::new(0, 0)), Vec3::new(0, 0, 127));
    assert_eq!(vertex_colors(&land).unwrap().at(Index2D::new(1, 2)), Vec3::new(4, 5, 6));
    assert_eq!(texture_indices(&land).unwrap().at(Index2D::new(1, 2)), IndexVTEX::new(9));
    assert_eq!(texture_indices(&land).unwrap().at(Index2D::new(2, 1)), IndexVTEX::new(1));
    assert_eq!(world_map_data(&land).unwrap().at(Index2D::new(1, 2)), 8);
    assert_eq!(world_map_data(&land).unwrap().at(Index2D::new(8, 8)), 20);
    assert_eq!(coordinates(&land), Vec2::new(3, -4));
    assert_eq!(landscape_flags(&land), all_flags());
    assert!(landscape_flags(&land).uses_world_map_data());
    assert_eq!(landscape_flags(&land).to_land_data(), all_data());
    let empty = record(|land| {
        land.vertex_normals = None;
        land.vertex_colors = None;
        land.texture_indices = None;
        land.world_map_data = None;
    });
    assert!(vertex_normals(&empty).is_none());
    assert!(vertex_colors(&empty).is_none());
    assert!(texture_indices(&empty).is_none());
    assert!(world_map_data(&empty).is_none());
    let copy = land.duplicate();
    assert_eq!(copy.grid, (3, -4));
    assert_eq!(copy.texture_indices.unwrap().at(Index2D::new(1, 2)), 9);
    assert_eq!(copy.vertex_heights.unwrap().offset, 10);
}

#[test]
fn grids_are_converted_value_by_value() {
    let mut grid: TerrainMap<u8, 3> = TerrainMap::new(1);
    grid.set(Index2D::new(2, 1), 7);
    let doubled = convert_terrain_map(&grid, |value: u8| value as u16 * 2);
    for y in 0..3 {
        for x in 0..3 {
            assert_eq!(doubled.at(Index2D::new(x, y)), if (x, y) == (2, 1) { 14 } else { 2 });
        }
    }
    assert_eq!(vec3_from_array([1, 2, 3]), Vec3::new(1, 2, 3));
    assert_eq!(vec3_into_array(Vec3::new(1, 2, 3)), [1, 2, 3]);
}

#[test]
fn a_reference_holds_the_terrain_and_no_deltas() {
    let plugin = Arc::new(ParsedPlugin::empty("Morrowind.esm"));
    let land = record(|land| land.vertex_heights.as_mut().unwrap().data.set(Index2D::new(0, 0), 2));
    let diff = LandscapeDiff::from_reference(plugin.clone(), &land, all_data());
    assert_eq!(diff.coords, Vec2::new(3, -4));
    assert_eq!(diff.flags, ObjectFlags { bits: 7, deleted: false });
    assert!(!diff.is_modified());
    assert_eq!(diff.modified_data(), LandData::empty());
    assert_eq!(diff.plugins.len(), 1);
    assert_eq!(diff.plugins[0].0.name, "Morrowind.esm");
    assert_eq!(diff.plugins[0].1, LandData::empty());
    assert_eq!(diff.height_map.as_ref().unwrap().get_value(Index2D::new(5, 5)), 96);
    assert_eq!(diff.vertex_normals.as_ref().unwrap().get_value(Index2D::new(5, 5)), Vec3::new(0, 0, 127));
    assert_eq!(diff.vertex_colors.as_ref().unwrap().get_value(Index2D::new(5, 5)), Vec3::new(255, 255, 255));
    assert_eq!(diff.texture_indices.as_ref().unwrap().get_value(Index2D::new(5, 5)), IndexVTEX::new(1));
    assert_eq!(diff.world_map_data.as_ref().unwrap().get_value(Index2D::new(5, 5)), 20);
}

#[test]
fn a_reference_leaves_out_what_is_not_allowed_or_not_held() {
    let plugin = Arc::new(ParsedPlugin::empty("Morrowind.esm"));
    let mut allowed = all_data();
    allowed.vertex_heights = false;
    allowed.textures = false;
    let diff = LandscapeDiff::from_reference(plugin.clone(), &record(|_| {}), allowed);
    assert!(diff.height_map.is_none());
    assert!(diff.texture_indices.is_none());
    assert!(diff.vertex_normals.is_some());
    assert!(diff.vertex_colors.is_some());
    assert!(diff.world_map_data.is_some());
    let land = record(|land| {
        land.landscape_flags.uses_vertex_colors = false;
        land.world_map_data = None;
    });
    let diff = LandscapeDiff::from_reference(plugin.clone(), &land, all_data());
    assert!(diff.vertex_colors.is_none());
    assert!(diff.world_map_data.is_none());
    assert!(diff.height_map.is_some());
    let none = record(|land| {
        land.landscape_flags =
            LandscapeFlags { uses_vertex_heights_and_normals: false, uses_vertex_colors: false, uses_textures: false, unknown: true };
    });
    assert!(!none.landscape_flags.uses_world_map_data());
    let diff = LandscapeDiff::from_reference(plugin, &none, all_data());
    assert!(diff.height_map.is_none());
    assert!(diff.vertex_normals.is_none());
    assert!(diff.world_map_data.is_none());
    assert!(diff.vertex_colors.is_none());
    assert!(diff.texture_indices.is_none());
}

#[test]
fn a_difference_holds_what_a_plugin_changes() {
    let reference = record(|_| {});
    let land = record(|land| {
        land.vertex_heights.as_mut().unwrap().data.set(Index2D::new(3, 2), 5);
        land.vertex_colors.as_mut().unwrap().set(Index2D::new(1, 1), [255, 0, 100]);
        land.texture_indices.as_mut().unwrap().set(Index2D::new(15, 15), 4);
    });
    let diff = LandscapeDiff::from_difference(&land, Some(&reference), all_data());
    assert_eq!(diff.coords, Vec2::new(3, -4));
    assert!(diff.plugins.is_empty());
    assert!(diff.is_modified());
    let modified = diff.modified_data();
    assert!(modified.vertex_heights && modified.vertex_colors && modified.textures);
    assert!(!modified.vertex_normals && !modified.world_map);
    // The step raises the rest of its row by 40.
    let heights = diff.height_map.as_ref().unwrap();
    assert_eq!(heights.get_difference(Index2D::new(2, 2)), 0);
    assert_eq!(heights.get_difference(Index2D::new(3, 2)), 40);
    assert_eq!(heights.get_difference(Index2D::new(64, 2)), 40);
    assert_eq!(heights.get_difference(Index2D::new(3, 3)), 0);
    assert_eq!(heights.get_value(Index2D::new(3, 2)), 120);
    assert_eq!(heights.num_differences(), 62);
    let colors = diff.vertex_colors.as_ref().unwrap();
    assert_eq!(colors.get_difference(Index2D::new(1, 1)), Vec3::new(0, -255, -155));
    assert_eq!(colors.get_value(Index2D::new(1, 1)), Vec3::new(255, 0, 100));
    assert_eq!(colors.num_differences(), 1);
    let textures = diff.texture_indices.as_ref().unwrap();
    assert_eq!(textures.get_difference(Index2D::new(15, 15)), 3);
    // What did not change is not held.
    assert!(diff.vertex_normals.is_none());
    assert!(diff.world_map_data.is_none());
}

#[test]
fn normals_differ_only_where_the_elevation_differs() {
    let reference = record(|_| {});
    let land = record(|land| {
        land.vertex_heights.as_mut().unwrap().data.set(Index2D::new(64, 2), 5);
        land.vertex_normals.as_mut().unwrap().set(Index2D::new(64, 2), [10, 0, 126]);
        land.vertex_normals.as_mut().unwrap().set(Index2D::new(63, 2), [-10, 0, 126]);
    });
    let diff = LandscapeDiff::from_difference(&land, Some(&reference), all_data());
    assert_eq!(diff.height_map.as_ref().unwrap().num_differences(), 1);
    let normals = diff.vertex_normals.as_ref().unwrap();
    assert_eq!(normals.num_differences(), 1);
    assert_eq!(normals.get_value(Index2D::new(64, 2)), Vec3::new(10, 0, 126));
    assert_eq!(normals.get_value(Index2D::new(63, 2)), Vec3::new(0, 0, 127));
    // Without a change of the elevation no normals are held at all.
    let land = record(|land| land.vertex_normals.as_mut().unwrap().set(Index2D::new(63, 2), [-10, 0, 126]));
    let diff = LandscapeDiff::from_difference(&land, Some(&reference), all_data());
    assert!(diff.vertex_normals.is_none());
    assert!(!diff.is_modified());
}

#[test]
fn a_difference_without_a_reference_is_taken_from_nothing() {
    let land = record(|_| {});
    let diff = LandscapeDiff::from_difference(&land, None, all_data());
    assert_eq!(diff.height_map.as_ref().unwrap().get_difference(Index2D::new(7, 7)), 80);
    assert_eq!(diff.vertex_normals.as_ref().unwrap().get_difference(Index2D::new(7, 7)), Vec3::new(0, 0, 127));
    assert_eq!(diff.world_map_data.as_ref().unwrap().get_difference(Index2D::new(7, 7)), 20);
    assert_eq!(diff.texture_indices.as_ref().unwrap().get_value(Index2D::new(7, 7)), IndexVTEX::new(1));
    let mut allowed = all_data();
    allowed.world_map = false;
    allowed.vertex_normals = false;
    let diff = LandscapeDiff::from_difference(&land, None, allowed);
    assert!(diff.world_map_data.is_none());
    assert!(diff.vertex_normals.is_none());
    assert!(diff.height_map.is_some());
}

#[test]
fn a_mask_drops_the_deltas_that_it_does_not_allow() {
    let mut map: RelativeTerrainMap<u8, 9> = RelativeTerrainMap::default();
    map.set_value(Index2D::new(1, 1), 5);
    map.set_value(Index2D::new(2, 2), 6);
    let mut allow: TerrainMap<bool, 9> = TerrainMap::new(false);
    allow.set(Index2D::new(2, 2), true);
    allow.set(Index2D::new(3, 3), true);
    let masked = LandscapeDiff::apply_mask(&map, Some(&allow));
    assert_eq!(masked.get_value(Index2D::new(1, 1)), 0);
    assert_eq!(masked.get_value(Index2D::new(2, 2)), 6);
    assert_eq!(masked.num_differences(), 1);
    let masked = LandscapeDiff::apply_mask(&map, None);
    assert!(!masked.is_modified());
    assert_eq!(map.num_differences(), 2);
}

#[test]
fn differences_are_calculated_per_kind() {
    let reference: TerrainMap<u8, 9> = TerrainMap::new(3);
    let mut plugin: TerrainMap<u8, 9> = TerrainMap::new(3);
    assert!(LandscapeDiff::calculate_differences(true, Some(&reference), Some(&plugin)).is_none());
    plugin.set(Index2D::new(4, 4), 9);
    let diff = LandscapeDiff::calculate_differences(true, Some(&reference), Some(&plugin)).unwrap();
    assert_eq!(diff.get_difference(Index2D::new(4, 4)), 6);
    assert!(LandscapeDiff::calculate_differences(false, Some(&reference), Some(&plugin)).is_none());
    assert!(LandscapeDiff::calculate_differences(true, Some(&reference), None).is_none());
    let diff = LandscapeDiff::calculate_differences(true, None, Some(&plugin)).unwrap();
    assert_eq!(diff.get_difference(Index2D::new(4, 4)), 9);
    assert_eq!(diff.get_difference(Index2D::new(0, 0)), 3);
    let mut allow: TerrainMap<bool, 9> = TerrainMap::new(false);
    assert!(LandscapeDiff::calculate_differences_with_mask(true, Some(&reference), Some(&plugin), true, Some(&allow)).is_none());
    assert!(LandscapeDiff::calculate_differences_with_mask(true, Some(&reference), Some(&plugin), true, None).is_none());
    allow.set(Index2D::new(4, 4), true);
    assert!(LandscapeDiff::calculate_differences_with_mask(true, Some(&reference), Some(&plugin), true, Some(&allow)).is_some());
    assert!(LandscapeDiff::calculate_differences_with_mask(true, Some(&reference), Some(&plugin), false, None).is_some());
    let kept = LandscapeDiff::calculate_reference(true, Some(&plugin)).unwrap();
    assert!(!kept.is_modified());
    assert_eq!(kept.get_value(Index2D::new(4, 4)), 9);
    assert!(LandscapeDiff::calculate_reference(false, Some(&plugin)).is_none());
    assert!(LandscapeDiff::calculate_reference::<u8, 9>(true, None).is_none());
}

#[test]
fn a_copy_of_a_landscape_diff_holds_the_same() {
    let reference = record(|_| {});
    let land = record(|land| land.vertex_heights.as_mut().unwrap().data.set(Index2D::new(3, 2), 5));
    let mut diff = LandscapeDiff::from_difference(&land, Some(&reference), all_data());
    diff.plugins.push((Arc::new(ParsedPlugin::empty("a.esp")), all_data()));
    let copy = diff.duplicate();
    diff.height_map.as_mut().unwrap().set_value(Index2D::new(3, 2), 0);
    assert_eq!(copy.height_map.as_ref().unwrap().get_value(Index2D::new(3, 2)), 120);
    assert_eq!(copy.plugins.len(), 1);
    assert_eq!(copy.plugins[0].0.name, "a.esp");
    assert_eq!(copy.coords, diff.coords);
    assert!(copy.vertex_colors.is_none());
    assert!(duplicate_terrain(&copy.height_map).unwrap().is_modified());
}
