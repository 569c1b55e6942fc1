use merged_lands::io::parsed_plugins::{ParsedPlugin, ParsedPlugins, PluginRecords};
use merged_lands::land::grid_access::Index2D;
use merged_lands::land::landscape::{Landscape, LandscapeFlags, ObjectFlags, VertexHeights};
use merged_lands::land::terrain_map::{LandData, TerrainMap, Vec2, Vec3};
use merged_lands::land::textures::{IndexVTEX, KnownTextures, LandscapeTexture};
use merged_lands::landmass::{
    create_merged_lands_from_reference, find_landmass_diff, merge_landmass_into,
    try_create_landmass, Landmass, LandmassDiff,
};
use merged_lands::merge::relative_terrain_map::RelativeTerrainMap;
use merged_lands::repair::cleaning::{
    clean_known_textures, clean_landmass_diff, find_landmass_of, has_any_difference,
    has_difference,
};
use merged_lands::repair::debugging::{
    add_debug_vertex_colors_to_landmass, add_debug_vertex_colors_to_landscape, add_vertex_colors,
};
use merged_lands::repair::seam_detection::repair_landmass_seams;
use std::sync::Arc;

fn flat(grid: (i32, i32), offset: i32, textures: &[(usize, usize, u16)]) -> Landscape {
    let mut indices: TerrainMap<u16, 16> = TerrainMap::new(0);
    for (x, y, index) in textures {
        indices.set(Index2D::new(*x, *y), *index);
    }
    Landscape {
        flags: ObjectFlags { bits: 0, deleted: false },
        grid,
        landscape_flags: LandscapeFlags {
            uses_vertex_heights_and_normals: true,
            uses_vertex_colors: true,
            uses_textures: true,
            unknown: false,
        },
        vertex_heights: Some(VertexHeights { offset, data: TerrainMap::new(0) }),
        vertex_normals: Some(TerrainMap::new([0, 0, 127])),
        vertex_colors: Some(TerrainMap::new([255, 255, 255])),
        texture_indices: Some(indices),
        world_map_data: None,
    }
}

fn with_vertex(mut land: Landscape, x: usize, y: usize, gradient: i8) -> Landscape {
    land.vertex_heights.as_mut().unwrap().data.set(Index2D::new(x, y), gradient);
    land.vertex_heights.as_mut().unwrap().data.set(Index2D::new(x + 1, y), -gradient);
    land
}

fn plugin_of(name: &str, landscapes: Vec<Landscape>, textures: Vec<LandscapeTexture>) -> Arc<ParsedPlugin> {
    Arc::new(ParsedPlugin::from(name, PluginRecords { landscape_textures: textures, landscapes, cells: Vec::new() }, None))
}

fn landmass_of(plugin: &Arc<ParsedPlugin>) -> Landmass {
    let mut landmass = Landmass::new(plugin.clone());
    for land in plugin.records.landscapes.iter() {
        landmass.insert_land(Vec2::new(land.grid.0, land.grid.1), plugin, land);
    }
    landmass
}

fn texture(id: &str, index: u32, file: &str) -> LandscapeTexture {
    LandscapeTexture {
        flags: ObjectFlags { bits: 0, deleted: false },
        id: id.to_string(),
        index: Some(index),
        texture: Some(file.to_string()),
    }
}

fn small(values: [i32; 4]) -> TerrainMap<i32, 2> {
    let mut map = TerrainMap::new(0);
    for (i, value) in values.iter().enumerate() {
        map.set(Index2D::new(i % 2, i / 2), *value);
    }
    map
}

#[test]
fn terrain_differs_where_a_value_differs() {
    let reference = small([0, 0, 0, 0]);
    let lhs = RelativeTerrainMap::from_difference(&reference, &small([1, 2, 3, 4]));
    let same = RelativeTerrainMap::from_difference(&small([1, 1, 1, 1]), &small([1, 2, 3, 4]));
    let other = RelativeTerrainMap::from_difference(&reference, &small([1, 2, 3, 5]));
    assert!(!has_difference(Some(&lhs), Some(&same)));
    assert!(has_difference(Some(&lhs), Some(&other)));
    assert!(has_difference(Some(&other), Some(&lhs)));
    assert!(!has_difference(Some(&lhs), None));
    assert!(!has_difference(None, Some(&other)));
    assert!(!has_difference::<i32, 2>(None, None));
}

#[test]
fn landscape_diffs_differ_in_the_kinds_that_both_hold() {
    let master = plugin_of("a.esm", vec![flat((0, 0), 10, &[])], vec![]);
    let merged = create_merged_lands_from_reference(&landmass_of(&master));
    let reference = merged.get(Vec2::new(0, 0)).unwrap();
    let same = plugin_of("b.esp", vec![flat((0, 0), 10, &[])], vec![]);
    let diff = find_landmass_diff(&landmass_of(&same), &landmass_of(&master));
    // The plugin holds no kind of terrain data, as it changes nothing.
    assert!(!has_any_difference(reference, diff.get(Vec2::new(0, 0)).unwrap()));
    let raised = plugin_of("c.esp", vec![flat((0, 0), 11, &[])], vec![]);
    let diff = find_landmass_diff(&landmass_of(&raised), &landmass_of(&master));
    assert!(has_any_difference(reference, diff.get(Vec2::new(0, 0)).unwrap()));
    let painted = plugin_of("d.esp", vec![flat((0, 0), 10, &[(3, 3, 7)])], vec![]);
    let diff = find_landmass_diff(&landmass_of(&painted), &landmass_of(&master));
    assert!(has_any_difference(reference, diff.get(Vec2::new(0, 0)).unwrap()));
    assert!(!has_any_difference(diff.get(Vec2::new(0, 0)).unwrap(), diff.get(Vec2::new(0, 0)).unwrap()));
}

#[test]
fn the_last_landmass_of_a_name_is_found() {
    let names = ["a.esp", "b.esp", "a.esp", "c.esp"];
    let landmasses: Vec<LandmassDiff> =
        names.iter().map(|name| LandmassDiff::new(Arc::new(ParsedPlugin::empty(name)))).collect();
    assert_eq!(find_landmass_of(&landmasses, &"a.esp".to_string()), Some(2));
    assert_eq!(find_landmass_of(&landmasses, &"b.esp".to_string()), Some(1));
    assert_eq!(find_landmass_of(&landmasses, &"c.esp".to_string()), Some(3));
    assert_eq!(find_landmass_of(&landmasses, &"d.esp".to_string()), None);
    assert_eq!(find_landmass_of(&Vec::new(), &"a.esp".to_string()), None);
}

#[test]
fn cells_that_say_nothing_new_are_cleaned() {
    let master = plugin_of("a.esm", vec![flat((0, 0), 10, &[]), flat((5, 5), 10, &[]), flat((9, 9), 10, &[])], vec![]);
    let first = plugin_of(
        "b.esp",
        vec![with_vertex(flat((0, 0), 10, &[]), 20, 20, 5), with_vertex(flat((5, 5), 10, &[]), 20, 20, 100)],
        vec![],
    );
    let second = plugin_of("c.esp", vec![with_vertex(flat((5, 5), 10, &[]), 20, 20, 103)], vec![]);
    let reference = landmass_of(&master);
    let modded = vec![
        find_landmass_diff(&landmass_of(&first), &reference),
        find_landmass_diff(&landmass_of(&second), &reference),
    ];
    let mut merged = create_merged_lands_from_reference(&reference);
    for landmass in modded.iter() {
        merge_landmass_into(&mut merged, landmass);
    }
    assert_eq!(repair_landmass_seams(&mut merged), 0);
    assert_eq!(merged.len(), 3);
    let kept = merged.get(Vec2::new(5, 5)).unwrap().duplicate();
    clean_landmass_diff(&mut merged, &modded);
    // The first cell holds what its one plugin brought, the last cell is not modified.
    assert_eq!(merged.len(), 1);
    assert!(!merged.contains(Vec2::new(0, 0)));
    assert!(!merged.contains(Vec2::new(9, 9)));
    let land = merged.get(Vec2::new(5, 5)).unwrap();
    assert_eq!(land.plugins.len(), 3);
    assert_eq!(
        land.height_map.as_ref().unwrap().get_difference(Index2D::new(20, 20)),
        kept.height_map.as_ref().unwrap().get_difference(Index2D::new(20, 20))
    );
    assert_eq!(land.height_map.as_ref().unwrap().get_difference(Index2D::new(20, 20)), 812);
    assert_eq!(merged.plugin.name, "a.esm");
}

#[test]
fn textures_that_are_not_in_use_are_forgotten() {
    let mut known = KnownTextures::new();
    let master = plugin_of(
        "a.esm",
        vec![flat((0, 0), 10, &[(1, 1, 2), (2, 2, 4)])],
        vec![texture("sand", 0, "sand.dds"), texture("rock", 1, "rock.dds"), texture("grass", 2, "grass.dds"), texture("snow", 3, "snow.dds")],
    );
    let reference = try_create_landmass(&master, &mut known).expect("there are landscapes");
    assert_eq!(known.len(), 4);
    let merged = create_merged_lands_from_reference(&reference);
    let parsed = ParsedPlugins { masters: vec![master.clone()], plugins: vec![] };
    let remapped = clean_known_textures(&parsed, &merged, &mut known);
    // The textures `rock` and `snow` are in use, beside the default texture.
    assert_eq!(known.len(), 2);
    assert_eq!(known.sorted(), vec!["rock".to_string(), "snow".to_string()]);
    assert_eq!(known.get(&"rock".to_string()).unwrap().index().as_u16(), 0);
    assert_eq!(known.get(&"snow".to_string()).unwrap().index().as_u16(), 1);
    assert!(known.get(&"sand".to_string()).is_none());
    assert_eq!(remapped.try_remapped_index(IndexVTEX::new(0)), Some(IndexVTEX::new(0)));
    assert_eq!(remapped.try_remapped_index(IndexVTEX::new(1)), None);
    assert_eq!(remapped.try_remapped_index(IndexVTEX::new(2)), Some(IndexVTEX::new(1)));
    assert_eq!(remapped.try_remapped_index(IndexVTEX::new(3)), None);
    assert_eq!(remapped.try_remapped_index(IndexVTEX::new(4)), Some(IndexVTEX::new(2)));
}

#[test]
fn conflicts_are_painted_where_the_plugin_changed_a_vertex() {
    let reference = small([0, 0, 0, 0]);
    let lhs = RelativeTerrainMap::from_difference(&reference, &small([100, 10, 7, 10]));
    let rhs = RelativeTerrainMap::from_difference(&reference, &small([103, 50, 7, 0]));
    let white = Vec3::new(255u8, 255u8, 255u8);
    let red = Vec3::new(255u8, 0u8, 0u8);
    let yellow = Vec3::new(255u8, 255u8, 0u8);
    let mut colors: RelativeTerrainMap<Vec3<u8>, 2> = RelativeTerrainMap::empty(TerrainMap::new(white));
    add_vertex_colors(Some(&lhs), None, &mut colors);
    add_vertex_colors(None, Some(&rhs), &mut colors);
    for i in 0..4 {
        assert_eq!(colors.get_value(Index2D::new(i % 2, i / 2)), white);
    }
    add_vertex_colors(Some(&lhs), Some(&rhs), &mut colors);
    assert_eq!(colors.get_value(Index2D::new(0, 0)), yellow);
    assert_eq!(colors.get_value(Index2D::new(1, 0)), red);
    assert_eq!(colors.get_value(Index2D::new(0, 1)), white);
    // The plugin did not change the last vertex.
    assert_eq!(colors.get_value(Index2D::new(1, 1)), white);
    assert!(colors.has_difference(Index2D::new(0, 0)));
    assert!(!colors.has_difference(Index2D::new(0, 1)));
    // A red vertex stays red.
    let minor = RelativeTerrainMap::from_difference(&reference, &small([103, 11, 7, 0]));
    add_vertex_colors(Some(&lhs), Some(&minor), &mut colors);
    assert_eq!(colors.get_value(Index2D::new(1, 0)), red);
    assert_eq!(colors.get_value(Index2D::new(0, 0)), yellow);
}

#[test]
fn the_conflicts_of_a_landmass_are_painted_cell_by_cell() {
    let master = plugin_of("a.esm", vec![flat((0, 0), 0, &[]), flat((1, 0), 0, &[])], vec![]);
    let first = plugin_of("b.esp", vec![with_vertex(flat((0, 0), 0, &[]), 20, 20, 10)], vec![]);
    let second = plugin_of("c.esp", vec![with_vertex(flat((0, 0), 0, &[]), 20, 20, 50)], vec![]);
    let reference = landmass_of(&master);
    let mut merged = create_merged_lands_from_reference(&reference);
    merge_landmass_into(&mut merged, &find_landmass_diff(&landmass_of(&first), &reference));
    let plugin = find_landmass_diff(&landmass_of(&second), &reference);
    let untouched = merged.get(Vec2::new(1, 0)).unwrap().duplicate();
    let mut land = merged.get(Vec2::new(0, 0)).unwrap().duplicate();
    add_debug_vertex_colors_to_landscape(&mut land, plugin.get(Vec2::new(0, 0)).unwrap());
    add_debug_vertex_colors_to_landmass(&mut merged, &plugin);
    let painted = merged.get(Vec2::new(0, 0)).unwrap();
    let colors = painted.vertex_colors.as_ref().unwrap();
    // The elevations 80 and 400 are in major conflict.
    assert_eq!(colors.get_value(Index2D::new(20, 20)), Vec3::new(255, 0, 0));
    assert_eq!(colors.get_value(Index2D::new(21, 20)), Vec3::new(255, 255, 255));
    assert_eq!(colors.get_value(Index2D::new(19, 20)), Vec3::new(255, 255, 255));
    assert_eq!(land.vertex_colors.as_ref().unwrap().get_value(Index2D::new(20, 20)), Vec3::new(255, 0, 0));
    assert_eq!(painted.height_map.as_ref().unwrap().get_value(Index2D::new(20, 20)), 80);
    assert_eq!(merged.len(), 2);
    let other = merged.get(Vec2::new(1, 0)).unwrap();
    assert_eq!(
        other.vertex_colors.as_ref().unwrap().get_value(Index2D::new(20, 20)),
        untouched.vertex_colors.as_ref().unwrap().get_value(Index2D::new(20, 20))
    );
    assert_eq!(LandData::empty(), other.modified_data());
}

#[test]
fn known_textures_name_the_file_of_the_last_master() {
    let mut known = KnownTextures::new();
    let first = plugin_of("a.esm", vec![flat((0, 0), 10, &[(1, 1, 1)])], vec![texture("sand", 0, "sand.dds")]);
    let second = plugin_of("b.esm", vec![], vec![texture("sand", 0, "better.dds")]);
    let reference = try_create_landmass(&first, &mut known).expect("there are landscapes");
    assert!(try_create_landmass(&second, &mut known).is_none());
    let sand = known.get(&"sand".to_string()).unwrap();
    assert_eq!(sand.clone_landscape_texture().texture, Some("sand.dds".to_string()));
    assert_eq!(sand.plugin.name, "a.esm");
    let merged = create_merged_lands_from_reference(&reference);
    let parsed = ParsedPlugins { masters: vec![first, second], plugins: vec![] };
    clean_known_textures(&parsed, &merged, &mut known);
    let sand = known.get(&"sand".to_string()).unwrap();
    assert_eq!(sand.clone_landscape_texture().texture, Some("better.dds".to_string()));
    assert_eq!(sand.plugin.name, "b.esm");
    assert_eq!(sand.index().as_u16(), 0);
}
