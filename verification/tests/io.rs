use merged_lands::cli::{Cli, CliLevelFilter, SortOrder};
use merged_lands::io::active_plugin_paths::{
    classify_line, classify_plain_line, find_game_files, find_junk, sort_plugins,
    ActivePluginPaths, GameFileLine, LoadOrder,
};
use merged_lands::io::meta_schema::{
    default_bool_true, skip_default, ConflictStrategy, MergeSettings, MetaType, PluginMeta,
};
use merged_lands::io::parsed_plugins::{
    is_esm, is_esp, is_extension, meta_name, meta_name_of, plugin_kind, plugin_kind_of,
    ParsedPlugin, ParsedPlugins, PluginKind, PluginRecords,
};
use merged_lands::io::save_to_image::{
    conflict_image, conflict_image_of, should_skip_image, ConflictImage,
};
use merged_lands::io::save_to_plugin::{
    convert_landmass_diff_to_landmass, convert_landscape_diff_to_landscape, find_dependencies,
};
use merged_lands::land::grid_access::Index2D;
use merged_lands::land::landscape::{Landscape, LandscapeFlags, ObjectFlags, VertexHeights};
use merged_lands::land::terrain_map::{TerrainMap, Vec2, Vec3};
use merged_lands::land::textures::{KnownTextures, LandscapeTexture, RemappedTextures};
use merged_lands::landmass::{
    create_merged_lands_from_reference, find_landmass_diff, merge_landmass_into,
    try_create_landmass, Landmass,
};
use merged_lands::merge::cells::{merge_cells, Cell, CellData};
use merged_lands::merge::merge_strategy::Channel;
use merged_lands::merge::relative_terrain_map::RelativeTerrainMap;
use merged_lands::merge::round_to::RoundTo;
use merged_lands::merge::wide::Wide;
use merged_lands::land::textures::IndexVTEX;
use std::sync::Arc;

#[test]
fn lines_of_the_list_of_plugins_are_told_apart() {
    assert_eq!(classify_line(""), GameFileLine::Nothing);
    assert_eq!(classify_line("; a comment"), GameFileLine::Nothing);
    assert_eq!(classify_line("[Game Files]"), GameFileLine::GameFiles);
    assert_eq!(classify_line("[Archives]"), GameFileLine::OtherSection);
    assert_eq!(classify_line("[game files]"), GameFileLine::OtherSection);
    assert_eq!(classify_line("GameFile0=Morrowind.esm"), GameFileLine::GameFile { start: 10, end: 23 });
    assert_eq!(classify_line("GameFile12=\"a b.esp\""), GameFileLine::GameFile { start: 12, end: 19 });
    assert_eq!(classify_line("GameFile3='''"), GameFileLine::GameFile { start: 13, end: 13 });
    assert_eq!(classify_line("GameFile=Morrowind.esm"), GameFileLine::Junk);
    assert_eq!(classify_line("GameFile1="), GameFileLine::Junk);
    assert_eq!(classify_line("GameFile1x=a.esp"), GameFileLine::Junk);
    assert_eq!(classify_line("gamefile1=a.esp"), GameFileLine::Junk);
    assert_eq!(classify_line("Archive 0=a.bsa"), GameFileLine::Junk);
    assert_eq!(classify_line("GameFile7=a=b.esp"), GameFileLine::GameFile { start: 10, end: 17 });
}

#[test]
fn plugins_are_listed_in_their_section_only() {
    let text = ["GameFile0=before.esp", "[Game Files]", "GameFile0=Morrowind.esm", "; note", "junk", "GameFile1=\"a.esp\"", "[Archives]", "GameFile2=after.esp", "[Game Files]", "GameFile3=b.esp"];
    let lines: Vec<GameFileLine> = text.iter().map(|line| classify_line(line)).collect();
    let found = find_game_files(&lines);
    assert_eq!(found, vec![(2, 10, 23), (5, 11, 16), (9, 10, 15)]);
    let names: Vec<&str> = found.iter().map(|(line, start, end)| &text[*line][*start..*end]).collect();
    assert_eq!(names, vec!["Morrowind.esm", "a.esp", "b.esp"]);
    assert_eq!(find_game_files(&Vec::new()), Vec::new());
    // Junk counts only in the section that lists the plugins.
    let text = ["junk", "[Game Files]", "junk", "GameFile0=a.esp", "GameFile=b.esp", "", "[Archives]", "junk"];
    let lines: Vec<GameFileLine> = text.iter().map(|line| classify_line(line)).collect();
    assert_eq!(find_junk(&lines), vec![2, 4]);
    assert_eq!(find_junk(&Vec::new()), Vec::<usize>::new());
}

fn order(is_no_master: bool, seconds: i64, nanoseconds: u32) -> LoadOrder {
    LoadOrder { is_no_master, seconds, nanoseconds }
}

#[test]
fn plugins_load_in_the_order_of_their_dates_masters_first() {
    let plugins = vec![
        (order(true, 10, 0), "late.esp".to_string()),
        (order(false, 50, 0), "second.esm".to_string()),
        (order(true, 5, 7), "early.esp".to_string()),
        (order(false, 20, 0), "first.esm".to_string()),
        (order(true, 5, 9), "middle.esp".to_string()),
        (order(true, -3, 0), "old.esp".to_string()),
    ];
    assert_eq!(sort_plugins(&plugins), vec!["first.esm", "second.esm", "old.esp", "early.esp", "middle.esp", "late.esp"]);
    assert_eq!(sort_plugins(&Vec::new()), Vec::<String>::new());
    // Plugins of one date stay as they are given.
    let plugins = vec![
        (order(true, 5, 0), "z.esp".to_string()),
        (order(true, 5, 0), "b.esp".to_string()),
        (order(false, 5, 0), "m.esm".to_string()),
        (order(true, 5, 0), "a.esp".to_string()),
        (order(true, 4, 9), "first.esp".to_string()),
    ];
    assert_eq!(sort_plugins(&plugins), vec!["m.esm", "first.esp", "z.esp", "b.esp", "a.esp"]);
}

#[test]
fn active_plugins_are_filed_by_their_extension() {
    let paths = ActivePluginPaths::new(vec!["Morrowind.esm".to_string(), "a.esp".to_string(), "Tribunal.ESM".to_string(), "b.EsP".to_string(), "notes.txt".to_string()]);
    assert_eq!(paths.masters, vec!["Morrowind.esm", "Tribunal.ESM"]);
    assert_eq!(paths.plugins, vec!["a.esp", "b.EsP", "notes.txt"]);
    let paths = ActivePluginPaths::from_kinds(&vec![
        (PluginKind::Plugin, "a".to_string()),
        (PluginKind::Master, "b".to_string()),
        (PluginKind::Other, "c".to_string()),
        (PluginKind::Master, "d".to_string()),
    ]);
    assert_eq!(paths.masters, vec!["b", "d"]);
    assert_eq!(paths.plugins, vec!["a", "c"]);
}

#[test]
fn the_extension_tells_the_kind_of_a_plugin() {
    assert!(is_esm("Morrowind.esm"));
    assert!(is_esm("Morrowind.ESM"));
    assert!(!is_esm("Morrowind.esp"));
    assert!(!is_esm("esm"));
    assert!(is_esp("a.b.eSp"));
    assert!(!is_esp("a.esp.bak"));
    assert!(!is_esp(""));
    assert_eq!(plugin_kind("a.esm"), PluginKind::Master);
    assert_eq!(plugin_kind("a.esp"), PluginKind::Plugin);
    assert_eq!(plugin_kind("a.omwaddon"), PluginKind::Other);
    assert_eq!(plugin_kind_of(Some("ESM")), PluginKind::Master);
    assert_eq!(plugin_kind_of(Some("Esp")), PluginKind::Plugin);
    assert_eq!(plugin_kind_of(Some("esp ")), PluginKind::Other);
    assert_eq!(plugin_kind_of(None), PluginKind::Other);
    assert!(is_extension(Some("EsM"), "esm"));
    assert!(!is_extension(Some("es"), "esm"));
    assert!(!is_extension(Some("e3m"), "esm"));
    assert!(!is_extension(None, "esm"));
}

#[test]
fn the_meta_file_of_a_plugin_is_named_after_it() {
    assert_eq!(meta_name("Morrowind.esm"), Some("Morrowind.mergedlands.toml".to_string()));
    assert_eq!(meta_name("a.b.esp"), Some("a.b.mergedlands.toml".to_string()));
    assert_eq!(meta_name("plain"), Some("plain.mergedlands.toml".to_string()));
    assert_eq!(meta_name(""), None);
    assert_eq!(meta_name_of("x".to_string()), "x.mergedlands.toml");
}

#[test]
fn plugins_are_filed_under_masters_and_plugins() {
    let all = ["a.esp", "b.esm", "c.ESP", "d.Esm"].iter().map(|name| Arc::new(ParsedPlugin::empty(name))).collect();
    let parsed = ParsedPlugins::from_sorted(all);
    let masters: Vec<&str> = parsed.masters.iter().map(|plugin| plugin.name.as_str()).collect();
    let plugins: Vec<&str> = parsed.plugins.iter().map(|plugin| plugin.name.as_str()).collect();
    assert_eq!(masters, vec!["b.esm", "d.Esm"]);
    assert_eq!(plugins, vec!["a.esp", "c.ESP"]);
    assert_eq!(parsed.masters[0].kind, PluginKind::Master);
    assert_eq!(parsed.plugins[1].kind, PluginKind::Plugin);
    let empty = ParsedPlugin::empty("x.esp");
    assert_eq!(empty.meta, PluginMeta::default());
    assert!(empty.records.landscapes.is_empty());
    assert!(empty.records.cells.is_empty());
}

#[test]
fn a_meta_file_has_defaults() {
    let meta = PluginMeta::default();
    let settings = MergeSettings { included: true, conflict_strategy: ConflictStrategy::Auto };
    assert_eq!(meta.meta_type, MetaType::Auto);
    assert_eq!(meta.height_map, settings);
    assert_eq!(meta.vertex_colors, settings);
    assert_eq!(meta.texture_indices, settings);
    assert_eq!(meta.world_map_data, settings);
    assert_eq!(MergeSettings::default(), settings);
    assert_eq!(MetaType::default(), MetaType::Auto);
    assert_eq!(ConflictStrategy::default(), ConflictStrategy::Auto);
    assert!(default_bool_true());
    assert!(skip_default(&settings));
    assert!(!skip_default(&MergeSettings { included: false, conflict_strategy: ConflictStrategy::Auto }));
    assert!(!skip_default(&MergeSettings { included: true, conflict_strategy: ConflictStrategy::Ignore }));
}

fn arguments() -> Cli {
    Cli {
        merged_lands_dir: ".".to_string(),
        data_files_dir: "Data Files".to_string(),
        output_file: "Merged Lands.esp".to_string(),
        output_file_dir: None,
        input_file_names: Vec::new(),
        sort_order: SortOrder::Default,
        log_file: "merged_lands.log".to_string(),
        log_level: CliLevelFilter::Trace,
        stack_size_mb: 8,
        remove_cell_records: false,
        add_debug_vertex_colors: false,
        wait_for_exit: false,
    }
}

#[test]
fn arguments_are_read_with_their_defaults() {
    let mut cli = arguments();
    assert!(cli.plugins().is_none());
    assert!(cli.should_write_log_file());
    assert_eq!(cli.merged_lands_dir(), ".");
    assert_eq!(cli.data_files_dir(), "Data Files");
    assert_eq!(cli.output_file_dir(), "Data Files");
    assert_eq!(cli.stack_size(), 8 * 1024 * 1024);
    cli.input_file_names = vec!["a.esp".to_string()];
    cli.output_file_dir = Some("out".to_string());
    cli.log_level = CliLevelFilter::Off;
    cli.stack_size_mb = 255;
    assert_eq!(cli.plugins(), Some(&vec!["a.esp".to_string()]));
    assert!(!cli.should_write_log_file());
    assert_eq!(cli.output_file_dir(), "out");
    assert_eq!(cli.stack_size(), 255 * 1024 * 1024);
}

fn small(values: [i32; 4]) -> TerrainMap<i32, 2> {
    let mut map = TerrainMap::new(0);
    for (i, value) in values.iter().enumerate() {
        map.set(Index2D::new(i % 2, i / 2), *value);
    }
    map
}

#[test]
fn the_picture_of_the_conflicts_has_a_color_for_each_kind() {
    let reference = small([0, 0, 0, 0]);
    let lhs = RelativeTerrainMap::from_difference(&reference, &small([100, 10, 7, 10]));
    let rhs = RelativeTerrainMap::from_difference(&reference, &small([103, 50, 7, 0]));
    let image = conflict_image(&lhs, &rhs);
    assert_eq!(image.pixels.at(Index2D::new(0, 0)), Vec3::new(255, 255, 0));
    assert_eq!(image.pixels.at(Index2D::new(1, 0)), Vec3::new(255, 0, 0));
    assert_eq!(image.pixels.at(Index2D::new(0, 1)), Vec3::new(0, 255, 0));
    assert_eq!(image.pixels.at(Index2D::new(1, 1)), Vec3::new(0, 0, 0));
    assert_eq!(image.num_minor_conflicts, 1);
    assert_eq!(image.num_major_conflicts, 1);
    assert!(!should_skip_image(Channel::HeightMap, &image));
    assert!(should_skip_image(Channel::VertexColors, &image));
    assert!(should_skip_image(Channel::VertexNormals, &image));
    let none = conflict_image(&lhs, &lhs);
    assert_eq!(none.num_minor_conflicts + none.num_major_conflicts, 0);
    assert!(should_skip_image(Channel::HeightMap, &none));
    assert!(conflict_image_of(Some(&lhs), None).is_none());
    assert!(conflict_image_of(None, Some(&rhs)).is_none());
    let same = conflict_image_of(Some(&lhs), Some(&rhs)).unwrap();
    assert_eq!(same.num_minor_conflicts, 1);
    assert_eq!(same.pixels.at(Index2D::new(1, 0)), Vec3::new(255, 0, 0));
}

fn counted(num_minor_conflicts: usize, num_major_conflicts: usize) -> ConflictImage<65> {
    ConflictImage { pixels: TerrainMap::new(Vec3::new(0, 0, 0)), num_minor_conflicts, num_major_conflicts }
}

#[test]
fn a_picture_with_few_conflicts_is_skipped() {
    // A fiftieth of the 4225 vertices is 84, a thousandth is 4.
    assert!(should_skip_image(Channel::HeightMap, &counted(83, 3)));
    assert!(!should_skip_image(Channel::HeightMap, &counted(84, 0)));
    assert!(!should_skip_image(Channel::HeightMap, &counted(0, 4)));
    assert!(should_skip_image(Channel::WorldMapData, &counted(0, 3)));
    assert!(should_skip_image(Channel::TextureIndices, &counted(0, 0)));
    assert!(!should_skip_image(Channel::TextureIndices, &counted(4225, 0)));
    assert!(should_skip_image(Channel::VertexColors, &counted(4225, 0)));
}

fn flat(grid: (i32, i32), offset: i32, textures: &[(usize, usize, u16)]) -> Landscape {
    let mut indices: TerrainMap<u16, 16> = TerrainMap::new(0);
    for (x, y, index) in textures {
        indices.set(Index2D::new(*x, *y), *index);
    }
    Landscape {
        flags: ObjectFlags { bits: 0, deleted: false },
        grid,
        landscape_flags: LandscapeFlags {
            uses_vertex_heights_and_normals: true,
            uses_vertex_colors: false,
            uses_textures: true,
            unknown: false,
        },
        vertex_heights: Some(VertexHeights { offset, data: TerrainMap::new(0) }),
        vertex_normals: Some(TerrainMap::new([0, 0, 127])),
        vertex_colors: None,
        texture_indices: Some(indices),
        world_map_data: None,
    }
}

fn texture(id: &str, index: u32) -> LandscapeTexture {
    LandscapeTexture { flags: ObjectFlags { bits: 0, deleted: false }, id: id.to_string(), index: Some(index), texture: Some(format!("{id}.dds")) }
}

fn cell(grid: (i32, i32)) -> Cell {
    Cell {
        flags: ObjectFlags { bits: 0, deleted: false },
        id: String::new(),
        data: CellData { flags: 0, grid },
        region: None,
        has_map_color: false,
        has_water_height: false,
        has_atmosphere_data: false,
    }
}

fn plugin_of(name: &str, landscapes: Vec<Landscape>, textures: Vec<LandscapeTexture>, cells: Vec<Cell>) -> Arc<ParsedPlugin> {
    Arc::new(ParsedPlugin::from(name, PluginRecords { landscape_textures: textures, landscapes, cells }, None))
}

fn landmass_of(plugin: &Arc<ParsedPlugin>) -> Landmass {
    let mut landmass = Landmass::new(plugin.clone());
    for land in plugin.records.landscapes.iter() {
        landmass.insert_land(Vec2::new(land.grid.0, land.grid.1), plugin, land);
    }
    landmass
}

#[test]
fn a_landscape_diff_is_written_as_a_record() {
    let master = plugin_of("a.esm", vec![flat((2, -3), 10, &[(1, 1, 2)])], vec![], vec![]);
    let mut raised = flat((2, -3), 10, &[(1, 1, 2), (4, 4, 3)]);
    raised.vertex_heights.as_mut().unwrap().data.set(Index2D::new(30, 30), 16);
    raised.vertex_heights.as_mut().unwrap().data.set(Index2D::new(31, 30), -16);
    let plugin = plugin_of("b.esp", vec![raised], vec![], vec![]);
    let reference = landmass_of(&master);
    let mut merged = create_merged_lands_from_reference(&reference);
    merge_landmass_into(&mut merged, &find_landmass_diff(&landmass_of(&plugin), &reference));
    let remapped = RemappedTextures::from(&vec![true, false, true, true]);
    let record = convert_landscape_diff_to_landscape(merged.get(Vec2::new(2, -3)).unwrap(), &remapped);
    assert_eq!(record.grid, (2, -3));
    assert_eq!(record.flags, ObjectFlags { bits: 0, deleted: false });
    assert!(record.landscape_flags.uses_vertex_heights_and_normals);
    assert!(record.landscape_flags.uses_vertex_colors);
    assert!(record.landscape_flags.uses_textures);
    assert!(record.landscape_flags.unknown);
    let heights = record.vertex_heights.as_ref().unwrap();
    assert_eq!(heights.offset, 10);
    assert_eq!(heights.data.at(Index2D::new(0, 0)), 0);
    assert_eq!(heights.data.at(Index2D::new(30, 30)), 16);
    assert_eq!(heights.data.at(Index2D::new(31, 30)), -16);
    assert_eq!(heights.data.at(Index2D::new(32, 30)), 0);
    let normals = record.vertex_normals.as_ref().unwrap();
    assert_eq!(normals.at(Index2D::new(0, 0)), [0, 0, 127]);
    assert_eq!(normals.at(Index2D::new(31, 31)), [0, 0, 127]);
    // The raised vertex stands 128 above the next vertex of its row and of its column.
    assert_eq!(normals.at(Index2D::new(30, 30)), [73, 73, 73]);
    assert!(record.vertex_colors.is_none());
    assert!(record.world_map_data.is_none());
    let indices = record.texture_indices.as_ref().unwrap();
    assert_eq!(indices.at(Index2D::new(0, 0)), 0);
    assert_eq!(indices.at(Index2D::new(1, 1)), 1);
    assert_eq!(indices.at(Index2D::new(4, 4)), 2);
    let landmass = convert_landmass_diff_to_landmass(&merged, &remapped);
    assert_eq!(landmass.len(), 1);
    assert_eq!(landmass.plugin.name, "a.esm");
    assert_eq!(landmass.plugin_of(Vec2::new(2, -3)).unwrap().name, "b.esp");
    let same = landmass.get(Vec2::new(2, -3)).unwrap();
    assert_eq!(same.vertex_heights.as_ref().unwrap().data.at(Index2D::new(30, 30)), 16);
    assert_eq!(same.texture_indices.as_ref().unwrap().at(Index2D::new(4, 4)), 2);
}

#[test]
fn the_written_plugin_depends_on_what_it_was_taken_from() {
    let mut known = KnownTextures::new();
    let master = plugin_of("a.esm", vec![flat((0, 0), 10, &[])], vec![texture("sand", 0)], vec![cell((0, 0)), cell((1, 0))]);
    let other = plugin_of("b.esm", vec![flat((1, 0), 10, &[])], vec![], vec![]);
    let patch = plugin_of("c.esp", vec![], vec![], vec![cell((1, 0))]);
    let unused = plugin_of("d.esp", vec![], vec![], vec![cell((7, 7))]);
    let mut landmass = try_create_landmass(&master, &mut known).expect("there are landscapes");
    landmass.insert_land(Vec2::new(1, 0), &other, &other.records.landscapes[0]);
    let parsed = ParsedPlugins { masters: vec![master.clone(), other.clone()], plugins: vec![patch, unused] };
    let cells = merge_cells(&parsed);
    let mut names = find_dependencies(&landmass, &known, &cells).expect("every landscape has its cell");
    names.sort();
    assert_eq!(names, vec!["a.esm", "b.esm", "c.esp"]);
    landmass.insert_land(Vec2::new(8, 8), &other, &other.records.landscapes[0]);
    assert!(find_dependencies(&landmass, &known, &cells).is_none());
}

#[test]
fn numbers_are_brought_into_the_range_of_their_kind() {
    let as_i8: i8 = 300.round_to();
    assert_eq!(as_i8, 127);
    let as_i8: i8 = (-300).round_to();
    assert_eq!(as_i8, -128);
    let as_u8: u8 = (-1).round_to();
    assert_eq!(as_u8, 0);
    let as_u8: u8 = 256.round_to();
    assert_eq!(as_u8, 255);
    let as_u8: u8 = 77.round_to();
    assert_eq!(as_u8, 77);
    let as_u16: u16 = 70000.round_to();
    assert_eq!(as_u16, 65535);
    let as_index: IndexVTEX = (-5).round_to();
    assert_eq!(as_index, IndexVTEX::new(0));
    let as_index: IndexVTEX = 12.round_to();
    assert_eq!(as_index, IndexVTEX::new(12));
    let same: i32 = (-123456).round_to();
    assert_eq!(same, -123456);
}

#[test]
fn wide_products_are_exact() {
    let product = Wide::product(3, 5);
    assert_eq!((product.hi, product.lo), (0, 15));
    let big = (1u128 << 96) - 1;
    let product = Wide::product(big, big);
    // (2^96 - 1)^2 = 2^192 - 2^97 + 1
    assert_eq!(product.hi, (1u128 << 64) - 1);
    assert_eq!(product.lo, u128::MAX - (1u128 << 97) + 2);
    let product = Wide::product(1 << 70, 1 << 70);
    assert_eq!((product.hi, product.lo), (1 << 12, 0));
    assert!(Wide::product(1 << 70, 1 << 70).at_least(Wide::product(big, 1 << 40)));
    assert!(!Wide::product(big, 1 << 40).at_least(Wide::product(1 << 70, 1 << 70)));
    assert!(Wide::product(7, 6).at_least(Wide::product(2, 21)));
}

#[test]
fn the_plain_rule_takes_all_that_follows_the_one_equals_sign() {
    assert_eq!(classify_plain_line(""), GameFileLine::Nothing);
    assert_eq!(classify_plain_line("; a comment"), GameFileLine::Nothing);
    assert_eq!(classify_plain_line("[Game Files]"), GameFileLine::GameFiles);
    assert_eq!(classify_plain_line("[Archives]"), GameFileLine::OtherSection);
    assert_eq!(classify_plain_line("GameFile0=Morrowind.esm"), GameFileLine::GameFile { start: 10, end: 23 });
    // No number is asked for, and quotes stay.
    assert_eq!(classify_plain_line("GameFile=a"), GameFileLine::GameFile { start: 9, end: 10 });
    assert_eq!(classify_line("GameFile=a"), GameFileLine::Junk);
    assert_eq!(classify_plain_line("GameFile1=\"a.esp\""), GameFileLine::GameFile { start: 10, end: 17 });
    assert_eq!(classify_plain_line("GameFile1="), GameFileLine::GameFile { start: 10, end: 10 });
    // A second equals sign makes the line junk.
    assert_eq!(classify_plain_line("GameFile7=a=b"), GameFileLine::Junk);
    assert_eq!(classify_line("GameFile7=a=b"), GameFileLine::GameFile { start: 10, end: 13 });
    assert_eq!(classify_plain_line("GameFile7"), GameFileLine::Junk);
    assert_eq!(classify_plain_line("Gamefile7=a"), GameFileLine::Junk);
    assert_eq!(classify_plain_line("Game=a"), GameFileLine::Junk);
    let text = ["[Game Files]", "GameFile=a.esp", "GameFile1=b=c.esp", "[Other]", "GameFile2=d.esp"];
    let lines: Vec<GameFileLine> = text.iter().map(|line| classify_plain_line(line)).collect();
    assert_eq!(find_game_files(&lines), vec![(1, 9, 14)]);
    assert_eq!(find_junk(&lines), vec![2]);
}
