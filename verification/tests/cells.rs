use merged_lands::io::meta_schema::{MetaType, PluginMeta};
use merged_lands::io::parsed_plugins::{ParsedPlugin, ParsedPlugins, PluginRecords};
use merged_lands::land::landscape::ObjectFlags;
use merged_lands::land::terrain_map::Vec2;
use merged_lands::merge::cells::{merge_cell_into, merge_cells, merge_cells_into, Cell, CellData, MergedCells, ModifiedCell};
use std::sync::Arc;

fn cell(id: &str, grid: (i32, i32), bits: u32, data_flags: u32) -> Cell {
    Cell {
        flags: ObjectFlags { bits, deleted: false },
        id: id.to_string(),
        data: CellData { flags: data_flags, grid },
        region: None,
        has_map_color: false,
        has_water_height: false,
        has_atmosphere_data: false,
    }
}

fn plugin_with(name: &str, cells: Vec<Cell>, meta: Option<PluginMeta>) -> Arc<ParsedPlugin> {
    Arc::new(ParsedPlugin::from(name, PluginRecords { landscape_textures: Vec::new(), landscapes: Vec::new(), cells }, meta))
}

fn names(cell: &ModifiedCell) -> Vec<String> {
    cell.plugins.iter().map(|plugin| plugin.name.clone()).collect()
}

#[test]
fn a_record_that_changes_a_cell_adds_its_plugin() {
    let first = plugin_with("a.esm", vec![], None);
    let second = plugin_with("b.esp", vec![], None);
    let third = plugin_with("c.esp", vec![], None);
    let mut merged = ModifiedCell { inner: cell("Wilderness", (1, 2), 1, 2), plugins: vec![first] };
    merge_cell_into(&mut merged, &cell("", (1, 2), 4, 2), &second);
    assert_eq!(merged.inner.flags.bits, 5);
    assert_eq!(merged.inner.data.flags, 2);
    assert_eq!(merged.inner.id, "Wilderness");
    assert_eq!(names(&merged), vec!["a.esm", "b.esp"]);
    // A record that changes nothing takes the place of the last plugin.
    merge_cell_into(&mut merged, &cell("Wilderness", (1, 2), 5, 2), &third);
    assert_eq!(names(&merged), vec!["a.esm", "c.esp"]);
    merge_cell_into(&mut merged, &cell("Coast", (1, 2), 5, 8), &third);
    assert_eq!(merged.inner.id, "Coast");
    assert_eq!(merged.inner.data.flags, 10);
    assert_eq!(merged.inner.data.grid, (1, 2));
    assert_eq!(names(&merged), vec!["a.esm", "c.esp", "c.esp"]);
    let mut deleted = cell("Coast", (1, 2), 5, 10);
    deleted.flags.deleted = true;
    merge_cell_into(&mut merged, &deleted, &third);
    assert!(merged.inner.flags.deleted);
    assert_eq!(merged.plugins.len(), 4);
}

#[test]
fn a_cell_with_optional_data_counts_as_changed() {
    let first = plugin_with("a.esm", vec![], None);
    let second = plugin_with("b.esp", vec![], None);
    let mut with_region = cell("Wilderness", (1, 2), 1, 2);
    with_region.region = Some("Coast Region".to_string());
    let mut merged = ModifiedCell { inner: with_region, plugins: vec![first] };
    merge_cell_into(&mut merged, &cell("Wilderness", (1, 2), 1, 2), &second);
    assert_eq!(merged.inner.region, Some("Coast Region".to_string()));
    assert_eq!(names(&merged), vec!["a.esm", "b.esp"]);
}

#[test]
fn the_cells_of_all_plugins_are_merged() {
    let mut meta = PluginMeta::default();
    meta.meta_type = MetaType::MergedLands;
    let parsed = ParsedPlugins {
        masters: vec![plugin_with("a.esm", vec![cell("One", (0, 0), 0, 1), cell("Two", (1, 0), 0, 1)], None)],
        plugins: vec![
            plugin_with("b.esp", vec![cell("", (1, 0), 0, 2), cell("Three", (2, 0), 0, 1)], None),
            plugin_with("merged.esp", vec![cell("Four", (3, 0), 0, 1), cell("Other", (0, 0), 0, 4)], Some(meta)),
        ],
    };
    let cells = merge_cells(&parsed);
    assert!(cells.get(Vec2::new(3, 0)).is_none());
    assert!(cells.get(Vec2::new(4, 4)).is_none());
    let one = cells.get(Vec2::new(0, 0)).unwrap();
    assert_eq!(one.inner.id, "One");
    assert_eq!(one.inner.data.flags, 1);
    assert_eq!(names(one), vec!["a.esm"]);
    let two = cells.get(Vec2::new(1, 0)).unwrap();
    assert_eq!(two.inner.id, "Two");
    assert_eq!(two.inner.data.flags, 3);
    assert_eq!(names(two), vec!["a.esm", "b.esp"]);
    let three = cells.get(Vec2::new(2, 0)).unwrap();
    assert_eq!(three.inner.id, "Three");
    assert_eq!(names(three), vec!["b.esp"]);
    let mut more = MergedCells::new();
    assert!(more.get(Vec2::new(0, 0)).is_none());
    merge_cells_into(&mut more, &parsed.plugins);
    assert_eq!(more.get(Vec2::new(1, 0)).unwrap().inner.id, "");
    assert!(more.get(Vec2::new(0, 0)).is_none());
}
