use merged_lands::io::meta_schema::{ConflictStrategy, MergeSettings, MetaType, PluginMeta};
use merged_lands::io::parsed_plugins::{ParsedPlugin, PluginRecords};
use merged_lands::land::grid_access::Index2D;
use merged_lands::land::landscape::{Landscape, LandscapeFlags, ObjectFlags, VertexHeights};
use merged_lands::land::landscape_diff::LandscapeDiff;
use merged_lands::land::terrain_map::{LandData, TerrainMap, Vec2, Vec3};
use merged_lands::land::textures::{KnownTextures, LandscapeTexture, RemappedTextures, IndexVTEX};
use merged_lands::landmass::{
    create_landmasses, create_merged_lands_from_reference, create_tes3_landmass,
    find_allowed_data, find_landmass_diff, merge_landmass_into, merge_landscape_diff,
    merge_tes3_landmasses, merge_tes3_landscape, remap_texture_indices,
    try_copy_landscape_and_remap_textures, try_create_landmass, Landmass,
};
use merged_lands::merge::relative_terrain_map::IsModified;
use std::sync::Arc;

fn all_data() -> LandData {
    LandData { vertex_colors: true, textures: true, vertex_heights: true, vertex_normals: true, world_map: true }
}

fn record(grid: (i32, i32), offset: i32, change: impl Fn(&mut Landscape)) -> Landscape {
    let mut land = Landscape {
        flags: ObjectFlags { bits: 0, deleted: false },
        grid,
        landscape_flags: LandscapeFlags {
            uses_vertex_heights_and_normals: true,
            uses_vertex_colors: true,
            uses_textures: true,
            unknown: false,
        },
        vertex_heights: Some(VertexHeights { offset, data: TerrainMap::new(0) }),
        vertex_normals: Some(TerrainMap::new([0, 0, 127])),
        vertex_colors: Some(TerrainMap::new([255, 255, 255])),
        texture_indices: Some(TerrainMap::new(0)),
        world_map_data: Some(TerrainMap::new(20)),
    };
    change(&mut land);
    land
}

fn plugin(name: &str, landscapes: Vec<Landscape>, textures: Vec<LandscapeTexture>, meta: Option<PluginMeta>) -> Arc<ParsedPlugin> {
    Arc::new(ParsedPlugin::from(name, PluginRecords { landscape_textures: textures, landscapes, cells: Vec::new() }, meta))
}

fn texture(id: &str, index: u32, file: &str) -> LandscapeTexture {
    LandscapeTexture {
        flags: ObjectFlags { bits: 0, deleted: false },
        id: id.to_string(),
        index: Some(index),
        texture: Some(file.to_string()),
    }
}

fn landmass_of(plugin: &Arc<ParsedPlugin>) -> Landmass {
    let mut landmass = Landmass::new(plugin.clone());
    for land in plugin.records.landscapes.iter() {
        landmass.insert_land(Vec2::new(land.grid.0, land.grid.1), plugin, land);
    }
    landmass
}

#[test]
fn a_record_stomps_over_what_it_holds() {
    let lhs = record((1, 1), 10, |land| {
        land.landscape_flags.uses_vertex_colors = false;
        land.vertex_colors = None;
    });
    let rhs = record((1, 1), 20, |land| {
        land.vertex_colors.as_mut().unwrap().set(Index2D::new(0, 0), [1, 2, 3]);
        land.landscape_flags.uses_textures = false;
        land.texture_indices.as_mut().unwrap().set(Index2D::new(0, 0), 5);
        land.world_map_data = None;
    });
    let merged = merge_tes3_landscape(&lhs, &rhs);
    assert_eq!(merged.grid, (1, 1));
    assert_eq!(merged.vertex_heights.as_ref().unwrap().offset, 20);
    assert_eq!(merged.vertex_colors.as_ref().unwrap().at(Index2D::new(0, 0)), [1, 2, 3]);
    assert!(merged.landscape_flags.uses_vertex_colors);
    // Textures that the record does not say it holds are not taken.
    assert_eq!(merged.texture_indices.as_ref().unwrap().at(Index2D::new(0, 0)), 0);
    assert_eq!(merged.world_map_data.as_ref().unwrap().at(Index2D::new(0, 0)), 20);
    assert!(merged.landscape_flags.uses_textures);
    assert!(!merged.landscape_flags.unknown);
}

#[test]
fn landmasses_stomp_over_each_other_in_order() {
    let first = plugin("a.esm", vec![record((0, 0), 10, |_| {}), record((1, 0), 11, |_| {})], vec![], None);
    let second = plugin("b.esm", vec![record((1, 0), 21, |land| land.vertex_colors = None), record((2, 0), 22, |_| {})], vec![], None);
    let merged_plugin = Arc::new(ParsedPlugin::empty("ReferenceLandmass.esp"));
    let merged = merge_tes3_landmasses(&merged_plugin, &vec![landmass_of(&first), landmass_of(&second)]).expect("the records agree");
    assert_eq!(merged.plugin.name, "ReferenceLandmass.esp");
    assert_eq!(merged.len(), 3);
    let coords: Vec<(i32, i32)> = merged.sorted().iter().map(|c| (c.x, c.y)).collect();
    assert_eq!(coords, vec![(0, 0), (1, 0), (2, 0)]);
    assert_eq!(merged.get(Vec2::new(0, 0)).unwrap().vertex_heights.as_ref().unwrap().offset, 10);
    assert_eq!(merged.get(Vec2::new(1, 0)).unwrap().vertex_heights.as_ref().unwrap().offset, 21);
    assert!(merged.get(Vec2::new(1, 0)).unwrap().vertex_colors.is_some());
    assert_eq!(merged.get(Vec2::new(2, 0)).unwrap().vertex_heights.as_ref().unwrap().offset, 22);
    assert_eq!(merged.plugin_of(Vec2::new(0, 0)).unwrap().name, "a.esm");
    assert_eq!(merged.plugin_of(Vec2::new(1, 0)).unwrap().name, "b.esm");
    assert_eq!(merged.plugin_of(Vec2::new(2, 0)).unwrap().name, "b.esm");
    assert!(merged.get(Vec2::new(3, 0)).is_none());
    assert!(merged.plugin_of(Vec2::new(3, 0)).is_none());
}

#[test]
fn records_with_other_flags_do_not_stomp() {
    let first = plugin("a.esm", vec![record((0, 0), 10, |_| {})], vec![], None);
    let other_flags = plugin("b.esm", vec![record((0, 0), 20, |land| land.flags.bits = 1)], vec![], None);
    let deleted = plugin("c.esm", vec![record((0, 0), 20, |land| land.flags.deleted = true)], vec![], None);
    let elsewhere = plugin("d.esm", vec![record((5, 5), 20, |land| land.flags.deleted = true)], vec![], None);
    let merged_plugin = Arc::new(ParsedPlugin::empty("ReferenceLandmass.esp"));
    assert!(merge_tes3_landmasses(&merged_plugin, &vec![landmass_of(&first), landmass_of(&other_flags)]).is_none());
    assert!(merge_tes3_landmasses(&merged_plugin, &vec![landmass_of(&first), landmass_of(&deleted)]).is_none());
    assert!(merge_tes3_landmasses(&merged_plugin, &vec![landmass_of(&deleted), landmass_of(&first)]).is_none());
    assert!(merge_tes3_landmasses(&merged_plugin, &vec![landmass_of(&first), landmass_of(&elsewhere)]).is_some());
    assert_eq!(merge_tes3_landmasses(&merged_plugin, &vec![]).unwrap().len(), 0);
}

#[test]
fn a_meta_file_leaves_out_kinds_of_data() {
    let land = record((0, 0), 0, |land| land.landscape_flags.uses_textures = false);
    let mut meta = PluginMeta::default();
    assert_eq!(meta.meta_type, MetaType::Auto);
    assert_eq!(meta.height_map, MergeSettings::default());
    let plain = ParsedPlugin::from("a.esp", PluginRecords::new(), None);
    let mut expected = all_data();
    expected.textures = false;
    assert_eq!(find_allowed_data(&plain, &land), expected);
    meta.height_map.included = false;
    meta.world_map_data.included = false;
    let patched = ParsedPlugin::from("a.esp", PluginRecords::new(), Some(meta));
    let allowed = find_allowed_data(&patched, &land);
    assert_eq!(allowed, LandData { vertex_colors: true, textures: false, vertex_heights: false, vertex_normals: false, world_map: false });
}

#[test]
fn the_difference_of_a_landmass_is_taken_cell_by_cell() {
    let master = plugin("a.esm", vec![record((0, 0), 10, |_| {}), record((1, 0), 10, |_| {})], vec![], None);
    let modded = plugin("b.esp", vec![record((0, 0), 12, |_| {}), record((5, 5), 1, |_| {})], vec![], None);
    let diff = find_landmass_diff(&landmass_of(&modded), &landmass_of(&master));
    assert_eq!(diff.plugin.name, "b.esp");
    assert_eq!(diff.len(), 2);
    let changed = diff.get(Vec2::new(0, 0)).unwrap();
    assert_eq!(changed.height_map.as_ref().unwrap().get_difference(Index2D::new(9, 9)), 16);
    assert_eq!(changed.height_map.as_ref().unwrap().get_value(Index2D::new(9, 9)), 96);
    assert!(changed.vertex_colors.is_none());
    let new = diff.get(Vec2::new(5, 5)).unwrap();
    assert_eq!(new.height_map.as_ref().unwrap().get_difference(Index2D::new(9, 9)), 8);
    assert_eq!(new.vertex_colors.as_ref().unwrap().get_value(Index2D::new(9, 9)), Vec3::new(255, 255, 255));
    assert!(diff.get(Vec2::new(1, 0)).is_none());
}

#[test]
fn the_reference_becomes_a_landmass_without_deltas() {
    let master = plugin("a.esm", vec![record((0, 0), 10, |_| {}), record((1, 0), 11, |_| {})], vec![], None);
    let merged = create_merged_lands_from_reference(&landmass_of(&master));
    assert_eq!(merged.plugin.name, "a.esm");
    assert_eq!(merged.len(), 2);
    for coords in merged.sorted() {
        let land = merged.get(coords).unwrap();
        assert!(!land.is_modified());
        assert_eq!(land.plugins.len(), 1);
        assert_eq!(land.plugins[0].0.name, "a.esm");
        assert_eq!(land.plugins[0].1, LandData::empty());
        assert_eq!(land.coords, coords);
    }
    assert_eq!(merged.get(Vec2::new(1, 0)).unwrap().height_map.as_ref().unwrap().get_value(Index2D::new(0, 0)), 88);
}

fn diff_of(offset: i32, change: impl Fn(&mut Landscape)) -> LandscapeDiff {
    LandscapeDiff::from_difference(&record((0, 0), offset, change), Some(&record((0, 0), 10, |_| {})), all_data())
}

#[test]
fn landscape_diffs_are_merged_kind_by_kind() {
    let source = plugin("b.esp", vec![], vec![], None);
    let mut old = diff_of(10, |land| {
        land.vertex_heights.as_mut().unwrap().data.set(Index2D::new(63, 5), 100);
        land.vertex_heights.as_mut().unwrap().data.set(Index2D::new(64, 5), -100);
        land.texture_indices.as_mut().unwrap().set(Index2D::new(0, 0), 3);
        land.vertex_normals.as_mut().unwrap().set(Index2D::new(63, 5), [10, 0, 100]);
    });
    old.plugins.push((plugin("a.esp", vec![], vec![], None), all_data()));
    let new = diff_of(10, |land| {
        land.vertex_heights.as_mut().unwrap().data.set(Index2D::new(63, 5), 103);
        land.vertex_heights.as_mut().unwrap().data.set(Index2D::new(64, 5), -103);
        land.texture_indices.as_mut().unwrap().set(Index2D::new(0, 0), 7);
        land.vertex_normals.as_mut().unwrap().set(Index2D::new(63, 5), [50, 0, 100]);
        land.vertex_normals.as_mut().unwrap().set(Index2D::new(3, 3), [50, 0, 100]);
    });
    // Normals differ only where the elevation differs.
    assert_eq!(new.vertex_normals.as_ref().unwrap().num_differences(), 1);
    let merged = merge_landscape_diff(&source, &old, &new);
    assert_eq!(merged.coords, Vec2::new(0, 0));
    assert_eq!(merged.plugins.len(), 2);
    assert_eq!(merged.plugins[0].0.name, "a.esp");
    assert_eq!(merged.plugins[1].0.name, "b.esp");
    assert_eq!(merged.plugins[1].1, new.modified_data());
    // The elevation is resolved: the average of the deltas 800 and 824.
    let heights = merged.height_map.as_ref().unwrap();
    assert_eq!(heights.get_difference(Index2D::new(63, 5)), 812);
    assert_eq!(heights.num_differences(), 1);
    // The normals are resolved by component.
    let normals = merged.vertex_normals.as_ref().unwrap();
    assert_eq!(normals.get_difference(Index2D::new(63, 5)), Vec3::new(46, 0, -27));
    assert_eq!(normals.num_differences(), 1);
    // Textures are overwritten.
    assert_eq!(merged.texture_indices.as_ref().unwrap().get_value(Index2D::new(0, 0)), IndexVTEX::new(7));
    assert!(merged.vertex_colors.is_none());
    assert!(merged.world_map_data.is_none());
}

#[test]
fn a_meta_file_names_the_strategy() {
    let mut meta = PluginMeta::default();
    meta.height_map.conflict_strategy = ConflictStrategy::Ignore;
    meta.texture_indices.conflict_strategy = ConflictStrategy::Resolve;
    let source = plugin("b.esp", vec![], vec![], Some(meta));
    let old = diff_of(10, |land| {
        land.vertex_heights.as_mut().unwrap().data.set(Index2D::new(63, 5), 100);
        land.vertex_heights.as_mut().unwrap().data.set(Index2D::new(64, 5), -100);
        land.texture_indices.as_mut().unwrap().set(Index2D::new(0, 0), 10);
    });
    let new = diff_of(10, |land| {
        land.vertex_heights.as_mut().unwrap().data.set(Index2D::new(63, 5), 103);
        land.vertex_heights.as_mut().unwrap().data.set(Index2D::new(64, 5), -103);
        land.texture_indices.as_mut().unwrap().set(Index2D::new(0, 0), 50);
    });
    let merged = merge_landscape_diff(&source, &old, &new);
    assert_eq!(merged.height_map.as_ref().unwrap().get_difference(Index2D::new(63, 5)), 800);
    assert_eq!(merged.texture_indices.as_ref().unwrap().get_value(Index2D::new(0, 0)), IndexVTEX::new(46));
    meta.height_map.conflict_strategy = ConflictStrategy::Overwrite;
    let source = plugin("b.esp", vec![], vec![], Some(meta));
    let merged = merge_landscape_diff(&source, &old, &new);
    assert_eq!(merged.height_map.as_ref().unwrap().get_difference(Index2D::new(63, 5)), 824);
}

#[test]
fn a_landmass_is_merged_into_another() {
    let master = plugin("a.esm", vec![record((0, 0), 10, |_| {}), record((1, 0), 10, |_| {})], vec![], None);
    let modded = plugin("b.esp", vec![record((0, 0), 12, |_| {}), record((5, 5), 1, |_| {})], vec![], None);
    let reference = landmass_of(&master);
    let mut merged = create_merged_lands_from_reference(&reference);
    let diff = find_landmass_diff(&landmass_of(&modded), &reference);
    merge_landmass_into(&mut merged, &diff);
    assert_eq!(merged.plugin.name, "a.esm");
    assert_eq!(merged.len(), 3);
    let changed = merged.get(Vec2::new(0, 0)).unwrap();
    assert_eq!(changed.plugins.len(), 2);
    assert_eq!(changed.plugins[1].0.name, "b.esp");
    assert!(changed.plugins[1].1.vertex_heights);
    assert!(!changed.plugins[1].1.vertex_colors);
    assert_eq!(changed.height_map.as_ref().unwrap().get_value(Index2D::new(1, 1)), 96);
    assert_eq!(changed.vertex_colors.as_ref().unwrap().get_value(Index2D::new(1, 1)), Vec3::new(255, 255, 255));
    let untouched = merged.get(Vec2::new(1, 0)).unwrap();
    assert_eq!(untouched.plugins.len(), 1);
    assert!(!untouched.is_modified());
    let new = merged.get(Vec2::new(5, 5)).unwrap();
    assert_eq!(new.plugins.len(), 1);
    assert_eq!(new.plugins[0].0.name, "b.esp");
    assert_eq!(new.plugins[0].1, all_data().tap_textures(false));
    assert_eq!(new.height_map.as_ref().unwrap().get_value(Index2D::new(1, 1)), 8);
}

trait Tap {
    fn tap_textures(self, textures: bool) -> Self;
}

impl Tap for LandData {
    fn tap_textures(mut self, textures: bool) -> Self {
        self.textures = textures;
        self
    }
}

#[test]
fn textures_are_remapped_where_landscapes_are_copied() {
    let mut remapped = RemappedTextures::from(&vec![true, false, true, true]);
    assert_eq!(remapped.try_remapped_index(IndexVTEX::new(0)), Some(IndexVTEX::new(0)));
    assert_eq!(remapped.try_remapped_index(IndexVTEX::new(1)), None);
    assert_eq!(remapped.try_remapped_index(IndexVTEX::new(2)), Some(IndexVTEX::new(1)));
    assert_eq!(remapped.remapped_index(IndexVTEX::new(3)), IndexVTEX::new(2));
    assert_eq!(remapped.try_remapped_index(IndexVTEX::new(4)), None);
    assert!(remapped.insert(IndexVTEX::new(9), IndexVTEX::new(4)));
    assert!(!remapped.insert(IndexVTEX::new(9), IndexVTEX::new(5)));
    assert_eq!(remapped.remapped_index(IndexVTEX::new(9)), IndexVTEX::new(5));
    let mut indices: TerrainMap<u16, 16> = TerrainMap::new(0);
    indices.set(Index2D::new(1, 1), 2);
    indices.set(Index2D::new(2, 2), 9);
    let new = remap_texture_indices(&indices, &remapped);
    assert_eq!(new.at(Index2D::new(0, 0)), 0);
    assert_eq!(new.at(Index2D::new(1, 1)), 1);
    assert_eq!(new.at(Index2D::new(2, 2)), 5);
    let source = plugin(
        "a.esm",
        vec![
            record((0, 0), 1, |land| land.texture_indices.as_mut().unwrap().set(Index2D::new(1, 1), 3)),
            record((1, 0), 2, |land| land.texture_indices = None),
            record((0, 0), 3, |land| land.texture_indices.as_mut().unwrap().set(Index2D::new(1, 1), 2)),
        ],
        vec![],
        None,
    );
    let landmass = try_copy_landscape_and_remap_textures(&source, &remapped).expect("there are landscapes");
    assert_eq!(landmass.len(), 2);
    // The last record of a cell stays.
    let land = landmass.get(Vec2::new(0, 0)).unwrap();
    assert_eq!(land.vertex_heights.as_ref().unwrap().offset, 3);
    assert_eq!(land.texture_indices.as_ref().unwrap().at(Index2D::new(1, 1)), 1);
    assert!(landmass.get(Vec2::new(1, 0)).unwrap().texture_indices.is_none());
    assert_eq!(landmass.plugin_of(Vec2::new(1, 0)).unwrap().name, "a.esm");
    assert!(try_copy_landscape_and_remap_textures(&plugin("b.esm", vec![], vec![], None), &remapped).is_none());
}

#[test]
fn a_landmass_is_created_with_known_textures() {
    let mut known = KnownTextures::new();
    let first = plugin(
        "a.esm",
        vec![record((0, 0), 1, |land| land.texture_indices.as_mut().unwrap().set(Index2D::new(1, 1), 2))],
        vec![texture("sand", 0, "sand.dds"), texture("rock", 1, "rock.dds")],
        None,
    );
    let second = plugin(
        "b.esm",
        vec![record((1, 0), 1, |land| {
            land.texture_indices.as_mut().unwrap().set(Index2D::new(1, 1), 1);
            land.texture_indices.as_mut().unwrap().set(Index2D::new(2, 2), 2);
        })],
        vec![texture("rock", 0, "rock2.dds"), texture("grass", 1, "grass.dds")],
        None,
    );
    let landmass = try_create_landmass(&first, &mut known).expect("there are landscapes");
    assert_eq!(known.len(), 2);
    assert_eq!(landmass.get(Vec2::new(0, 0)).unwrap().texture_indices.as_ref().unwrap().at(Index2D::new(1, 1)), 2);
    let landmass = try_create_landmass(&second, &mut known).expect("there are landscapes");
    assert_eq!(known.len(), 3);
    // The texture `rock` is known as the second texture, `grass` becomes the third.
    let indices = landmass.get(Vec2::new(1, 0)).unwrap().texture_indices.as_ref().unwrap();
    assert_eq!(indices.at(Index2D::new(0, 0)), 0);
    assert_eq!(indices.at(Index2D::new(1, 1)), 2);
    assert_eq!(indices.at(Index2D::new(2, 2)), 3);
    assert_eq!(known.sorted(), vec!["sand".to_string(), "rock".to_string(), "grass".to_string()]);
    let rock = known.get(&"rock".to_string()).unwrap();
    assert_eq!(rock.index().as_u16(), 1);
    assert_eq!(rock.plugin.name, "a.esm");
    assert_eq!(rock.clone_landscape_texture().texture, Some("rock.dds".to_string()));
    assert_eq!(rock.id(), "rock");
    assert!(try_create_landmass(&plugin("c.esm", vec![], vec![texture("snow", 0, "snow.dds")], None), &mut known).is_none());
    assert_eq!(known.len(), 4);
}

#[test]
fn the_reference_landmass_is_created_from_all_masters() {
    let mut known = KnownTextures::new();
    let masters = vec![
        plugin("a.esm", vec![record((0, 0), 1, |_| {})], vec![texture("sand", 0, "sand.dds")], None),
        plugin("empty.esm", vec![], vec![], None),
        plugin(
            "b.esm",
            vec![record((0, 0), 2, |land| land.texture_indices.as_mut().unwrap().set(Index2D::new(1, 1), 1)), record((1, 1), 3, |_| {})],
            vec![texture("rock", 0, "rock.dds")],
            None,
        ),
    ];
    let landmasses = create_landmasses(&masters, &mut KnownTextures::new());
    assert_eq!(landmasses.len(), 2);
    assert_eq!(landmasses[1].plugin.name, "b.esm");
    let reference = create_tes3_landmass("ReferenceLandmass.esp", &masters, &mut known).expect("the records agree");
    assert_eq!(reference.plugin.name, "ReferenceLandmass.esp");
    assert_eq!(reference.len(), 2);
    assert_eq!(known.len(), 2);
    let land = reference.get(Vec2::new(0, 0)).unwrap();
    assert_eq!(land.vertex_heights.as_ref().unwrap().offset, 2);
    assert_eq!(land.texture_indices.as_ref().unwrap().at(Index2D::new(1, 1)), 2);
    assert_eq!(reference.plugin_of(Vec2::new(0, 0)).unwrap().name, "b.esm");
    assert_eq!(reference.plugin_of(Vec2::new(1, 1)).unwrap().name, "b.esm");
}
