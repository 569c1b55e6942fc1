use merged_lands::io::meta_schema::{MetaType, PluginMeta};
use merged_lands::io::parsed_plugins::{ParsedPlugin, ParsedPlugins, PluginRecords};
use merged_lands::land::grid_access::Index2D;
use merged_lands::land::landscape::{Landscape, LandscapeFlags, ObjectFlags, VertexHeights};
use merged_lands::land::terrain_map::{TerrainMap, Vec2, Vec3};
use merged_lands::land::textures::LandscapeTexture;
use merged_lands::landmass::check_sound_records;
use merged_lands::merge::cells::{Cell, CellData};
use merged_lands::pipeline::{
    check_all_sound, find_sources, merge_all, merge_plugins, MergeError,
};
use merged_lands::repair::cleaning::{can_clean_landmass_diff, check_known_textures};
use std::sync::Arc;

fn land(grid: (i32, i32), offset: i32, textures: &[(usize, usize, u16)], raised: &[(usize, usize, i8)]) -> Landscape {
    let mut indices: TerrainMap<u16, 16> = TerrainMap::new(0);
    for (x, y, index) in textures {
        indices.set(Index2D::new(*x, *y), *index);
    }
    let mut gradients: TerrainMap<i8, 65> = TerrainMap::new(0);
    for (x, y, gradient) in raised {
        gradients.set(Index2D::new(*x, *y), *gradient);
        if *x < 64 {
            gradients.set(Index2D::new(*x + 1, *y), -*gradient);
        }
    }
    Landscape {
        flags: ObjectFlags { bits: 0, deleted: false },
        grid,
        landscape_flags: LandscapeFlags {
            uses_vertex_heights_and_normals: true,
            uses_vertex_colors: true,
            uses_textures: true,
            unknown: false,
        },
        vertex_heights: Some(VertexHeights { offset, data: gradients }),
        vertex_normals: Some(TerrainMap::new([0, 0, 127])),
        vertex_colors: Some(TerrainMap::new([255, 255, 255])),
        texture_indices: Some(indices),
        world_map_data: None,
    }
}

fn texture(id: &str, index: u32) -> LandscapeTexture {
    LandscapeTexture {
        flags: ObjectFlags { bits: 0, deleted: false },
        id: id.to_string(),
        index: Some(index),
        texture: Some(format!("{id}.dds")),
    }
}

fn cell(grid: (i32, i32)) -> Cell {
    Cell {
        flags: ObjectFlags { bits: 0, deleted: false },
        id: String::new(),
        data: CellData { flags: 0, grid },
        region: None,
        has_map_color: false,
        has_water_height: false,
        has_atmosphere_data: false,
    }
}

fn plugin(name: &str, landscapes: Vec<Landscape>, textures: Vec<LandscapeTexture>, meta: Option<PluginMeta>) -> Arc<ParsedPlugin> {
    let cells = landscapes.iter().map(|land| cell(land.grid)).collect();
    Arc::new(ParsedPlugin::from(name, PluginRecords { landscape_textures: textures, landscapes, cells }, meta))
}

fn master() -> Arc<ParsedPlugin> {
    plugin(
        "world.esm",
        vec![land((0, 0), 10, &[(1, 1, 2)], &[]), land((1, 0), 10, &[], &[]), land((5, 5), 10, &[], &[])],
        vec![texture("sand", 0), texture("rock", 1)],
        None,
    )
}

#[test]
fn plugins_are_merged_and_their_seams_repaired() {
    let first = plugin("a.esp", vec![land((0, 0), 10, &[(2, 2, 1)], &[(20, 20, 100)])], vec![texture("grass", 0)], None);
    let second = plugin("b.esp", vec![land((0, 0), 10, &[], &[(20, 20, 103), (64, 30, 8)]), land((9, 9), 4, &[], &[])], vec![], None);
    let parsed = ParsedPlugins { masters: vec![master()], plugins: vec![first, second] };
    let lands = merge_plugins(parsed).ok().expect("the plugins can be merged");
    assert_eq!(lands.parsed_plugins().plugins.len(), 2);
    assert_eq!(lands.known_textures().len(), 3);
    assert_eq!(lands.modded_landmasses().len(), 2);
    assert_eq!(lands.modded_landmasses()[0].plugin.name, "a.esp");
    assert_eq!(lands.modded_landmasses()[1].len(), 2);
    let merged = lands.merged_lands();
    assert_eq!(merged.plugin.name, "ReferenceLandmass.esp");
    assert_eq!(merged.len(), 4);
    let changed = merged.get(Vec2::new(0, 0)).unwrap();
    assert_eq!(changed.plugins.len(), 3);
    // Both plugins raise the vertex: by 800 and by 824, which is a minor conflict.
    assert_eq!(changed.height_map.as_ref().unwrap().get_difference(Index2D::new(20, 20)), 812);
    // The second plugin raises the last vertex of a row by 64, and the next cell has it
    // where it was: the seam is repaired with the average.
    assert_eq!(changed.height_map.as_ref().unwrap().get_value(Index2D::new(63, 30)), 80);
    assert_eq!(changed.height_map.as_ref().unwrap().get_value(Index2D::new(64, 30)), 112);
    let next = merged.get(Vec2::new(1, 0)).unwrap();
    assert_eq!(next.height_map.as_ref().unwrap().get_value(Index2D::new(0, 30)), 112);
    assert_eq!(next.height_map.as_ref().unwrap().get_value(Index2D::new(1, 30)), 80);
    // The texture `grass` is the third that is known.
    assert_eq!(changed.texture_indices.as_ref().unwrap().get_value(Index2D::new(2, 2)).as_u16(), 3);
    assert!(can_clean_landmass_diff(merged, lands.modded_landmasses()));
    assert!(check_known_textures(merged, 3));
    assert!(!check_known_textures(merged, 2));

    let written = lands.finish(false).ok().expect("the merge can be ended");
    assert_eq!(written.landmass.len(), 2);
    assert_eq!(written.landmass.plugin.name, "ReferenceLandmass.esp");
    let record = written.landmass.get(Vec2::new(0, 0)).unwrap();
    assert_eq!(record.vertex_heights.as_ref().unwrap().offset, 10);
    assert_eq!(record.vertex_heights.as_ref().unwrap().data.at(Index2D::new(20, 20)), 101);
    assert_eq!(record.vertex_heights.as_ref().unwrap().data.at(Index2D::new(21, 20)), -101);
    assert_eq!(record.vertex_colors.as_ref().unwrap().at(Index2D::new(20, 20)), [255, 255, 255]);
    // Both plugins take the texture `rock` away, so that only the texture `grass` is in use.
    assert_eq!(written.known_textures.sorted(), vec!["grass"]);
    assert_eq!(record.texture_indices.as_ref().unwrap().at(Index2D::new(1, 1)), 0);
    assert_eq!(record.texture_indices.as_ref().unwrap().at(Index2D::new(2, 2)), 1);
    assert_eq!(record.texture_indices.as_ref().unwrap().at(Index2D::new(3, 3)), 0);
    assert_eq!(written.landmass.plugin_of(Vec2::new(0, 0)).unwrap().name, "b.esp");
    // The cell that only one plugin holds is left out, as it holds what the plugin brought.
    assert!(written.landmass.get(Vec2::new(9, 9)).is_none());
    assert!(written.landmass.get(Vec2::new(5, 5)).is_none());
    assert!(written.landmass.get(Vec2::new(1, 0)).is_some());
    assert!(written.cells.get(Vec2::new(9, 9)).is_some());
    let mut dependencies = written.dependencies.clone();
    dependencies.sort();
    assert_eq!(dependencies, vec!["a.esp", "b.esp", "world.esm"]);
}

#[test]
fn conflicts_are_painted_where_that_is_asked_for() {
    let first = plugin("a.esp", vec![land((0, 0), 10, &[], &[(20, 20, 10)])], vec![], None);
    let second = plugin("b.esp", vec![land((0, 0), 10, &[], &[(20, 20, 50)])], vec![], None);
    let parsed = ParsedPlugins { masters: vec![master()], plugins: vec![first, second] };
    let lands = merge_plugins(parsed).ok().expect("the plugins can be merged");
    // The merged elevation of the vertex is 453: the first plugin, which has it at 160, is in
    // major conflict with it, and the second, which has it at 480, in minor conflict.
    let merged = lands.merged_lands().get(Vec2::new(0, 0)).unwrap();
    assert_eq!(merged.height_map.as_ref().unwrap().get_value(Index2D::new(20, 20)), 453);
    let conflicts = lands.conflicts(0, Vec2::new(0, 0)).expect("the plugin has the cell");
    let heights = conflicts.height_map.expect("both hold an elevation");
    assert_eq!(heights.num_major_conflicts, 1);
    assert_eq!(heights.num_minor_conflicts, 0);
    assert_eq!(heights.pixels.at(Index2D::new(20, 20)), Vec3::new(255, 0, 0));
    assert_eq!(heights.pixels.at(Index2D::new(21, 20)), Vec3::new(0, 0, 0));
    assert!(conflicts.world_map_data.is_none());
    assert!(conflicts.vertex_colors.is_none());
    let second = lands.conflicts(1, Vec2::new(0, 0)).expect("the plugin has the cell");
    let heights = second.height_map.expect("both hold an elevation");
    assert_eq!(heights.num_major_conflicts, 0);
    assert_eq!(heights.num_minor_conflicts, 1);
    assert_eq!(heights.pixels.at(Index2D::new(20, 20)), Vec3::new(255, 255, 0));
    assert!(lands.conflicts(1, Vec2::new(1, 0)).is_none());
    assert!(lands.conflicts(2, Vec2::new(0, 0)).is_none());
    let written = lands.finish(true).ok().expect("the merge can be ended");
    let record = written.landmass.get(Vec2::new(0, 0)).unwrap();
    assert_eq!(record.vertex_colors.as_ref().unwrap().at(Index2D::new(20, 20)), [255, 0, 0]);
    assert_eq!(record.vertex_colors.as_ref().unwrap().at(Index2D::new(21, 20)), [255, 255, 255]);
    assert_eq!(Vec3::new(1, 2, 3), Vec3::new(1, 2, 3));
}

#[test]
fn an_earlier_result_is_left_out_of_the_merge() {
    let mut meta = PluginMeta::default();
    meta.meta_type = MetaType::MergedLands;
    let earlier = plugin("Merged Lands.esp", vec![land((0, 0), 99, &[(0, 0, 9)], &[])], vec![], Some(meta));
    let other = plugin("a.esp", vec![land((1, 0), 10, &[], &[(20, 20, 10)])], vec![], None);
    let all = vec![earlier, other];
    let found = find_sources(&all);
    assert_eq!(found.len(), 1);
    assert_eq!(found[0].name, "a.esp");
    // The landscape of the earlier result names a texture that it does not bring.
    assert!(!check_all_sound(&all));
    assert!(check_all_sound(&found));
    let parsed = ParsedPlugins { masters: vec![master()], plugins: all };
    let lands = merge_plugins(parsed).ok().expect("the plugins can be merged");
    assert_eq!(lands.modded_landmasses().len(), 1);
    let untouched = lands.merged_lands().get(Vec2::new(0, 0)).unwrap();
    assert_eq!(untouched.plugins.len(), 1);
    assert_eq!(untouched.height_map.as_ref().unwrap().get_value(Index2D::new(0, 0)), 80);
    // The one cell that is modified holds what its plugin brought, and is left out.
    let written = lands.finish(false).ok().expect("the merge can be ended");
    assert_eq!(written.landmass.len(), 0);
    assert_eq!(written.known_textures.len(), 0);
    assert_eq!(written.dependencies.len(), 0);
}

#[test]
fn records_that_are_not_sound_are_not_merged() {
    let unknown = plugin("a.esp", vec![land((0, 0), 10, &[(0, 0, 2)], &[])], vec![texture("grass", 0)], None);
    assert!(!check_sound_records(&unknown));
    let known = plugin("a.esp", vec![land((0, 0), 10, &[(0, 0, 1)], &[])], vec![texture("grass", 0)], None);
    assert!(check_sound_records(&known));
    let mut deleted = texture("grass", 0);
    deleted.flags.deleted = true;
    assert!(!check_sound_records(&plugin("a.esp", vec![], vec![deleted], None)));
    let mut without = texture("grass", 0);
    without.index = None;
    assert!(!check_sound_records(&plugin("a.esp", vec![], vec![without], None)));
    assert!(!check_sound_records(&plugin("a.esp", vec![], vec![texture("grass", 65535)], None)));
    assert!(check_sound_records(&plugin("a.esp", vec![], vec![texture("grass", 65534)], None)));
    let parsed = ParsedPlugins { masters: vec![master()], plugins: vec![unknown] };
    assert_eq!(merge_plugins(parsed).err(), Some(MergeError::UnsoundRecords));
    let parsed = ParsedPlugins { masters: vec![plugin("m.esm", vec![], vec![texture("grass", 70000)], None)], plugins: vec![] };
    assert_eq!(merge_plugins(parsed).err(), Some(MergeError::UnsoundRecords));
}

#[test]
fn too_many_texture_records_are_not_merged() {
    let many = |count: u32| (0..count).map(|index| texture("sand", index)).collect::<Vec<_>>();
    let parsed = ParsedPlugins {
        masters: vec![plugin("m.esm", vec![], many(60000), None)],
        plugins: vec![plugin("a.esp", vec![], many(5534), None)],
    };
    assert_eq!(merge_plugins(parsed).err(), Some(MergeError::TooManyTextures));
    let parsed = ParsedPlugins {
        masters: vec![plugin("m.esm", vec![], many(60000), None)],
        plugins: vec![plugin("a.esp", vec![], many(5533), None)],
    };
    assert!(merge_plugins(parsed).is_ok());
}

#[test]
fn masters_that_disagree_are_not_merged() {
    let mut other = land((0, 0), 20, &[], &[]);
    other.flags.bits = 4;
    let parsed = ParsedPlugins { masters: vec![master(), plugin("other.esm", vec![other], vec![], None)], plugins: vec![] };
    assert_eq!(merge_plugins(parsed).err(), Some(MergeError::MastersDisagree));
    let parsed = ParsedPlugins {
        masters: vec![master(), plugin("other.esm", vec![land((0, 0), 20, &[], &[])], vec![], None)],
        plugins: vec![],
    };
    let lands = merge_plugins(parsed).ok().expect("the masters agree");
    let stomped = lands.merged_lands().get(Vec2::new(0, 0)).unwrap();
    assert_eq!(stomped.height_map.as_ref().unwrap().get_value(Index2D::new(0, 0)), 160);
    assert_eq!(stomped.plugins[0].0.name, "other.esm");
}

#[test]
fn a_cell_that_cannot_be_held_against_its_plugin_ends_the_merge() {
    let first = plugin("a.esp", vec![land((0, 0), 10, &[], &[(20, 20, 10)])], vec![], None);
    let second = plugin("b.omwaddon", vec![land((0, 0), 10, &[], &[(40, 40, 10)])], vec![], None);
    let parsed = ParsedPlugins { masters: vec![master()], plugins: vec![first, second] };
    let lands = merge_plugins(parsed).ok().expect("the plugins can be merged");
    assert!(!can_clean_landmass_diff(lands.merged_lands(), lands.modded_landmasses()));
    assert_eq!(lands.finish(false).err(), Some(MergeError::UncleanCell));
}

#[test]
fn a_landscape_without_its_cell_ends_the_merge() {
    let first = plugin("a.esp", vec![land((0, 0), 10, &[], &[(20, 20, 10)])], vec![], None);
    let second = plugin("b.esp", vec![land((0, 0), 10, &[], &[(40, 40, 10)])], vec![], None);
    let records = PluginRecords { landscape_textures: vec![], landscapes: vec![land((0, 0), 10, &[], &[])], cells: vec![] };
    let bare = |plugin: &Arc<ParsedPlugin>| {
        Arc::new(ParsedPlugin::from(
            &plugin.name,
            PluginRecords { landscape_textures: vec![], landscapes: plugin.records.landscapes.iter().map(|land| land.duplicate()).collect(), cells: vec![] },
            None,
        ))
    };
    let parsed = ParsedPlugins {
        masters: vec![Arc::new(ParsedPlugin::from("world.esm", records, None))],
        plugins: vec![bare(&first), bare(&second)],
    };
    let lands = merge_plugins(parsed).ok().expect("the plugins can be merged");
    assert_eq!(lands.finish(false).err(), Some(MergeError::MissingCell));
}

#[test]
fn a_merge_runs_from_start_to_end() {
    let first = plugin("a.esp", vec![land((0, 0), 10, &[], &[(20, 20, 100)])], vec![], None);
    let second = plugin("b.esp", vec![land((0, 0), 10, &[], &[(20, 20, 103)])], vec![], None);
    let parsed = ParsedPlugins { masters: vec![master()], plugins: vec![first, second] };
    let written = merge_all(parsed, false).ok().expect("the plugins can be merged");
    assert_eq!(written.landmass.len(), 1);
    let record = written.landmass.get(Vec2::new(0, 0)).unwrap();
    assert_eq!(record.vertex_heights.as_ref().unwrap().data.at(Index2D::new(20, 20)), 101);
    let unknown = plugin("a.esp", vec![land((0, 0), 10, &[(0, 0, 2)], &[])], vec![], None);
    let parsed = ParsedPlugins { masters: vec![master()], plugins: vec![unknown] };
    assert_eq!(merge_all(parsed, true).err(), Some(MergeError::UnsoundRecords));
}
