use merged_lands::io::parsed_plugins::ParsedPlugin;
use merged_lands::land::grid_access::Index2D;
use merged_lands::land::landscape::ObjectFlags;
use merged_lands::land::landscape_diff::LandscapeDiff;
use merged_lands::land::terrain_map::{TerrainMap, Vec2};
use merged_lands::landmass::LandmassDiff;
use merged_lands::merge::relative_terrain_map::RelativeTerrainMap;
use merged_lands::repair::seam_detection::{
    coords_with_offset, elevation_of, push_back_neighbors, repair_corner_seams,
    repair_landmass_seams, repair_seam, set_elevation, sort_pair, PairSet,
};
use std::collections::VecDeque;
use std::sync::Arc;

fn cell(x: i32, y: i32, height: Option<i32>) -> LandscapeDiff {
    LandscapeDiff {
        coords: Vec2::new(x, y),
        flags: ObjectFlags { bits: 0, deleted: false },
        height_map: height.map(|height| RelativeTerrainMap::empty(TerrainMap::new(height))),
        vertex_normals: None,
        world_map_data: None,
        vertex_colors: None,
        texture_indices: None,
        plugins: Vec::new(),
    }
}

fn landmass(cells: &[(i32, i32, Option<i32>)]) -> LandmassDiff {
    let mut merged = LandmassDiff::new(Arc::new(ParsedPlugin::empty("Merged Lands.esp")));
    for (x, y, height) in cells {
        merged.insert(Vec2::new(*x, *y), cell(*x, *y, *height));
    }
    merged
}

fn height(merged: &LandmassDiff, cell: (i32, i32), vertex: (usize, usize)) -> i32 {
    elevation_of(merged, Vec2::new(cell.0, cell.1), Index2D::new(vertex.0, vertex.1))
        .expect("the cell holds an elevation")
}

fn set(merged: &mut LandmassDiff, cell: (i32, i32), vertex: (usize, usize), value: i32) {
    set_elevation(merged, Vec2::new(cell.0, cell.1), Index2D::new(vertex.0, vertex.1), value);
}

/// Whether no seam shows between any two of `cells` that lie side by side.
fn is_seamless(merged: &LandmassDiff, cells: &[(i32, i32)]) -> bool {
    let mut seamless = true;
    for a in cells {
        for b in cells {
            for i in 0..65 {
                if b.0 == a.0 + 1 && b.1 == a.1 {
                    seamless &= height(merged, *a, (64, i)) == height(merged, *b, (0, i));
                }
                if b.0 == a.0 && b.1 == a.1 + 1 {
                    seamless &= height(merged, *a, (i, 64)) == height(merged, *b, (i, 0));
                }
            }
        }
    }
    seamless
}

#[test]
fn four_cells_share_the_average_of_their_corner() {
    let mut merged = landmass(&[(0, 0, Some(0)), (-1, 0, Some(0)), (0, -1, Some(0)), (-1, -1, Some(0))]);
    set(&mut merged, (0, 0), (0, 0), 10);
    set(&mut merged, (-1, 0), (64, 0), 12);
    set(&mut merged, (0, -1), (0, 64), 14);
    set(&mut merged, (-1, -1), (64, 64), 16);
    let mut repaired = 0;
    repair_corner_seams(&mut merged, Vec2::new(0, 0), &mut repaired);
    assert_eq!(repaired, 4);
    assert_eq!(height(&merged, (0, 0), (0, 0)), 13);
    assert_eq!(height(&merged, (-1, 0), (64, 0)), 13);
    assert_eq!(height(&merged, (0, -1), (0, 64)), 13);
    assert_eq!(height(&merged, (-1, -1), (64, 64)), 13);
    assert_eq!(height(&merged, (0, 0), (1, 0)), 0);
    assert_eq!(height(&merged, (0, 0), (64, 64)), 0);
}

#[test]
fn the_whole_repair_gives_the_corner_its_average_too() {
    let mut merged = landmass(&[(0, 0, Some(0)), (-1, 0, Some(0)), (0, -1, Some(0)), (-1, -1, Some(0))]);
    set(&mut merged, (0, 0), (0, 0), 10);
    set(&mut merged, (-1, 0), (64, 0), 12);
    set(&mut merged, (0, -1), (0, 64), 14);
    set(&mut merged, (-1, -1), (64, 64), 16);
    assert_eq!(repair_landmass_seams(&mut merged), 4);
    for (cell, vertex) in [((0, 0), (0, 0)), ((-1, 0), (64, 0)), ((0, -1), (0, 64)), ((-1, -1), (64, 64))] {
        assert_eq!(height(&merged, cell, vertex), 13);
    }
    assert!(is_seamless(&merged, &[(0, 0), (-1, 0), (0, -1), (-1, -1)]));
    assert_eq!(repair_landmass_seams(&mut merged), 0);
}

#[test]
fn a_seam_is_repaired_with_the_average_of_both_sides() {
    let mut merged = landmass(&[(0, 0, Some(5)), (1, 0, Some(5))]);
    set(&mut merged, (1, 0), (0, 1), 9);
    let mut repaired = 0;
    repair_seam(&mut merged, Vec2::new(0, 0), Vec2::new(1, 0), &mut repaired);
    assert_eq!(repaired, 1);
    assert_eq!(height(&merged, (0, 0), (64, 1)), 7);
    assert_eq!(height(&merged, (1, 0), (0, 1)), 7);
    for cell in [(0, 0), (1, 0)] {
        for y in 0..65 {
            for x in 0..65 {
                let on_the_seam = (cell == (0, 0) && (x, y) == (64, 1)) || (cell == (1, 0) && (x, y) == (0, 1));
                if !on_the_seam {
                    assert_eq!(height(&merged, cell, (x, y)), 5);
                }
            }
        }
    }
}

#[test]
fn the_whole_repair_repairs_the_seam_too() {
    let mut merged = landmass(&[(0, 0, Some(5)), (1, 0, Some(5))]);
    set(&mut merged, (1, 0), (0, 1), 9);
    assert_eq!(repair_landmass_seams(&mut merged), 1);
    assert_eq!(height(&merged, (0, 0), (64, 1)), 7);
    assert_eq!(height(&merged, (1, 0), (0, 1)), 7);
    assert_eq!(height(&merged, (0, 0), (64, 0)), 5);
    assert_eq!(height(&merged, (0, 0), (64, 2)), 5);
    assert_eq!(height(&merged, (1, 0), (0, 0)), 5);
    assert!(is_seamless(&merged, &[(0, 0), (1, 0)]));
    assert_eq!(repair_landmass_seams(&mut merged), 0);
}

#[test]
fn cells_above_each_other_share_a_row() {
    let mut merged = landmass(&[(2, 2, Some(0)), (2, 3, Some(100))]);
    let mut repaired = 0;
    repair_seam(&mut merged, Vec2::new(2, 2), Vec2::new(2, 3), &mut repaired);
    assert_eq!(repaired, 63);
    for x in 1..64 {
        assert_eq!(height(&merged, (2, 2), (x, 64)), 50);
        assert_eq!(height(&merged, (2, 3), (x, 0)), 50);
    }
    // Corners are left to the repair of corners.
    assert_eq!(height(&merged, (2, 2), (0, 64)), 0);
    assert_eq!(height(&merged, (2, 3), (64, 0)), 100);
    assert_eq!(height(&merged, (2, 2), (1, 63)), 0);
}

#[test]
fn seam_averages_are_rounded_towards_zero() {
    let mut merged = landmass(&[(0, 0, Some(-5)), (1, 0, Some(-2)), (0, 1, Some(4))]);
    assert_eq!(repair_landmass_seams(&mut merged), 2 * 63 + 7);
    // (-5 - 2) / 2 = -3.5
    assert_eq!(height(&merged, (0, 0), (64, 10)), -3);
    assert_eq!(height(&merged, (1, 0), (0, 10)), -3);
    // (-5 + 4) / 2 = -0.5
    assert_eq!(height(&merged, (0, 0), (10, 64)), 0);
    assert_eq!(height(&merged, (0, 1), (10, 0)), 0);
    // Three cells meet at the corner: (-5 - 2 + 4) / 3 = -1.
    assert_eq!(height(&merged, (0, 0), (64, 64)), -1);
    assert_eq!(height(&merged, (1, 0), (0, 64)), -1);
    assert_eq!(height(&merged, (0, 1), (64, 0)), -1);
    assert_eq!(height(&merged, (0, 0), (64, 0)), -3);
    assert_eq!(height(&merged, (0, 0), (0, 64)), 0);
    assert_eq!(height(&merged, (0, 0), (0, 0)), -5);
    assert!(is_seamless(&merged, &[(0, 0), (1, 0), (0, 1)]));
    assert_eq!(repair_landmass_seams(&mut merged), 0);
}

#[test]
fn cells_that_meet_at_a_corner_only_share_that_corner() {
    let mut merged = landmass(&[(0, 0, Some(10)), (1, 1, Some(20))]);
    assert_eq!(repair_landmass_seams(&mut merged), 2);
    assert_eq!(height(&merged, (0, 0), (64, 64)), 15);
    assert_eq!(height(&merged, (1, 1), (0, 0)), 15);
    assert_eq!(height(&merged, (0, 0), (63, 64)), 10);
    assert_eq!(height(&merged, (1, 1), (0, 1)), 20);
    assert_eq!(repair_landmass_seams(&mut merged), 0);
}

#[test]
fn cells_without_elevation_take_no_part() {
    let mut merged = landmass(&[(0, 0, Some(10)), (1, 0, None), (2, 0, Some(30))]);
    assert_eq!(repair_landmass_seams(&mut merged), 0);
    assert_eq!(height(&merged, (0, 0), (64, 32)), 10);
    assert_eq!(height(&merged, (2, 0), (0, 32)), 30);
    assert!(elevation_of(&merged, Vec2::new(1, 0), Index2D::new(0, 0)).is_none());
    assert!(elevation_of(&merged, Vec2::new(5, 5), Index2D::new(0, 0)).is_none());
    set(&mut merged, (1, 0), (0, 0), 99);
    set(&mut merged, (5, 5), (0, 0), 99);
    assert!(elevation_of(&merged, Vec2::new(1, 0), Index2D::new(0, 0)).is_none());
    assert_eq!(merged.len(), 3);
}

#[test]
fn a_landmass_without_seams_is_left_alone() {
    let mut merged = landmass(&[(0, 0, Some(8)), (1, 0, Some(8)), (0, 1, Some(8)), (1, 1, Some(8))]);
    set(&mut merged, (0, 0), (30, 30), 500);
    assert_eq!(repair_landmass_seams(&mut merged), 0);
    assert_eq!(height(&merged, (0, 0), (30, 30)), 500);
    let mut empty = landmass(&[]);
    assert_eq!(repair_landmass_seams(&mut empty), 0);
}

#[test]
fn cells_at_the_rim_of_the_world_have_fewer_neighbors() {
    let mut merged = landmass(&[
        (i32::MAX, i32::MAX, Some(10)),
        (i32::MAX - 1, i32::MAX, Some(20)),
        (i32::MIN, i32::MIN, Some(30)),
        (i32::MIN, i32::MIN + 1, Some(50)),
    ]);
    assert_eq!(repair_landmass_seams(&mut merged), 2 * 67);
    assert_eq!(height(&merged, (i32::MAX, i32::MAX), (0, 7)), 15);
    assert_eq!(height(&merged, (i32::MAX - 1, i32::MAX), (64, 7)), 15);
    assert_eq!(height(&merged, (i32::MAX, i32::MAX), (64, 64)), 10);
    assert_eq!(height(&merged, (i32::MIN, i32::MIN), (64, 64)), 40);
    assert_eq!(height(&merged, (i32::MIN, i32::MIN + 1), (0, 0)), 40);
    assert_eq!(height(&merged, (i32::MIN, i32::MIN), (0, 0)), 30);
    assert_eq!(repair_landmass_seams(&mut merged), 0);
}

#[test]
fn only_the_elevation_is_repaired() {
    let mut merged = landmass(&[(0, 0, Some(0)), (1, 0, Some(64))]);
    let before = merged.get(Vec2::new(0, 0)).expect("the cell is there").height_map.as_ref().expect("heights").duplicate();
    repair_landmass_seams(&mut merged);
    let land = merged.get(Vec2::new(0, 0)).expect("the cell is there");
    assert_eq!(land.coords, Vec2::new(0, 0));
    assert!(land.vertex_colors.is_none());
    let after = land.height_map.as_ref().expect("heights");
    // The reference stays, and the delta says what was repaired.
    assert_eq!(after.get_value(Index2D::new(64, 5)), 32);
    assert_eq!(after.get_difference(Index2D::new(64, 5)), 32);
    assert!(after.has_difference(Index2D::new(64, 5)));
    assert_eq!(before.get_value(Index2D::new(64, 5)), 0);
    assert!(!after.has_difference(Index2D::new(63, 5)));
}

#[test]
fn the_cells_of_a_landmass_are_listed_in_order() {
    let merged = landmass(&[(2, 1, None), (-1, 5, None), (2, -3, None), (0, 0, None), (-1, -5, None)]);
    let coords: Vec<(i32, i32)> = merged.sorted().iter().map(|c| (c.x, c.y)).collect();
    assert_eq!(coords, vec![(-1, -5), (-1, 5), (0, 0), (2, -3), (2, 1)]);
    assert!(merged.contains(Vec2::new(2, 1)));
    assert!(!merged.contains(Vec2::new(1, 2)));
}

#[test]
fn a_landmass_holds_what_is_put_in() {
    let mut merged = landmass(&[(0, 0, Some(1))]);
    assert_eq!(merged.len(), 1);
    let old = merged.insert(Vec2::new(0, 0), cell(0, 0, Some(2)));
    assert_eq!(old.expect("there was a cell").height_map.expect("heights").get_value(Index2D::new(0, 0)), 1);
    assert_eq!(height(&merged, (0, 0), (0, 0)), 2);
    assert_eq!(merged.len(), 1);
    assert!(merged.insert(Vec2::new(0, 1), cell(0, 1, None)).is_none());
    assert_eq!(merged.len(), 2);
    assert!(merged.remove(Vec2::new(0, 0)).is_some());
    assert!(merged.remove(Vec2::new(0, 0)).is_none());
    assert!(merged.get(Vec2::new(0, 0)).is_none());
    assert_eq!(merged.len(), 1);
    assert_eq!(merged.plugin.name, "Merged Lands.esp");
}

#[test]
fn pairs_of_cells_are_sorted_by_x_and_then_y() {
    let a = Vec2::new(1, 5);
    let b = Vec2::new(2, 0);
    let c = Vec2::new(1, 6);
    assert_eq!(sort_pair(a, b), (a, b));
    assert_eq!(sort_pair(b, a), (a, b));
    assert_eq!(sort_pair(a, c), (a, c));
    assert_eq!(sort_pair(c, a), (a, c));
    assert_eq!(coords_with_offset(a, [-1, 0]), Vec2::new(0, 5));
    assert_eq!(coords_with_offset(a, [0, 1]), Vec2::new(1, 6));
}

#[test]
fn the_seams_of_a_cell_are_listed_once() {
    let mut possible_seams = VecDeque::new();
    let mut visited = PairSet::new();
    push_back_neighbors(&mut possible_seams, &mut visited, Vec2::new(0, 0));
    assert_eq!(possible_seams.len(), 4);
    assert!(possible_seams.contains(&(Vec2::new(-1, 0), Vec2::new(0, 0))));
    assert!(possible_seams.contains(&(Vec2::new(0, 0), Vec2::new(1, 0))));
    assert!(possible_seams.contains(&(Vec2::new(0, 0), Vec2::new(0, 1))));
    assert!(possible_seams.contains(&(Vec2::new(0, -1), Vec2::new(0, 0))));
    // The seam between the two cells was met before.
    push_back_neighbors(&mut possible_seams, &mut visited, Vec2::new(1, 0));
    assert_eq!(possible_seams.len(), 7);
    push_back_neighbors(&mut possible_seams, &mut visited, Vec2::new(0, 0));
    assert_eq!(possible_seams.len(), 7);
}

#[test]
fn repairs_are_counted_by_the_corner_and_by_the_place_of_a_seam() {
    // Four corners of cells differ from the average of their point, and the cells differ at
    // two places of their seam.
    let mut merged = landmass(&[(0, 0, Some(5)), (1, 0, Some(5)), (0, 1, None)]);
    set(&mut merged, (0, 0), (64, 64), 11);
    set(&mut merged, (1, 0), (0, 64), 2);
    set(&mut merged, (1, 0), (0, 0), 8);
    set(&mut merged, (1, 0), (0, 7), 9);
    set(&mut merged, (0, 0), (64, 30), 1);
    assert_eq!(repair_landmass_seams(&mut merged), 6);
    assert_eq!(height(&merged, (0, 0), (64, 64)), 6);
    assert_eq!(height(&merged, (1, 0), (0, 64)), 6);
    assert_eq!(height(&merged, (0, 0), (64, 0)), 6);
    assert_eq!(height(&merged, (1, 0), (0, 0)), 6);
    assert_eq!(height(&merged, (0, 0), (64, 7)), 7);
    assert_eq!(height(&merged, (1, 0), (0, 30)), 3);
    assert_eq!(repair_landmass_seams(&mut merged), 0);
}
