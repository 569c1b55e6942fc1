use merged_lands::land::grid_access::Index2D;
use merged_lands::land::terrain_map::{TerrainMap, Vec3};
use merged_lands::land::textures::{IndexLTEX, IndexVTEX};
use merged_lands::merge::relative_terrain_map::{
    recompute_vertex_normals, DefaultRelativeTerrainMap, IsModified, RelativeTerrainMap,
};
use merged_lands::merge::relative_to::RelativeTo;

fn grid_of(values: [[i32; 3]; 3]) -> TerrainMap<i32, 3> {
    let mut map = TerrainMap::new(0);
    for y in 0..3 {
        for x in 0..3 {
            map.set(Index2D::new(x, y), values[y][x]);
        }
    }
    map
}

#[test]
fn a_position_is_marked_where_its_delta_is_not_zero() {
    let reference = grid_of([[1, 2, 3], [4, 5, 6], [7, 8, 9]]);
    let plugin = grid_of([[1, 2, 30], [4, -5, 6], [7, 8, 9]]);
    let map = RelativeTerrainMap::from_difference(&reference, &plugin);
    for y in 0..3 {
        for x in 0..3 {
            let coords = Index2D::new(x, y);
            let delta = map.get_difference(coords);
            assert_eq!(map.has_difference(coords), delta != 0);
            assert_eq!(map.differences().at(coords), delta != 0);
            assert_eq!(map.get_value(coords), reference.at(coords) + delta);
            assert_eq!(map.get_value(coords), plugin.at(coords));
        }
    }
    assert_eq!(map.get_difference(Index2D::new(2, 0)), 27);
    assert_eq!(map.get_difference(Index2D::new(1, 1)), -10);
    assert!(map.is_modified());
    assert_eq!(map.num_differences(), 2);
}

#[test]
fn an_empty_map_has_no_differences() {
    let reference = grid_of([[1, 2, 3], [4, 5, 6], [7, 8, 9]]);
    let map = RelativeTerrainMap::empty(reference.duplicate());
    assert!(!map.is_modified());
    assert_eq!(map.num_differences(), 0);
    for y in 0..3 {
        for x in 0..3 {
            let coords = Index2D::new(x, y);
            assert_eq!(map.get_value(coords), reference.at(coords));
            assert_eq!(map.get_difference(coords), 0);
            assert!(!map.has_difference(coords));
        }
    }
    let blank: RelativeTerrainMap<u8, 9> = RelativeTerrainMap::default();
    assert!(!blank.is_modified());
    assert_eq!(blank.get_value(Index2D::new(8, 8)), 0);
    assert!(!DefaultRelativeTerrainMap::height_map().is_modified());
    assert_eq!(DefaultRelativeTerrainMap::vertex_normals().get_value(Index2D::new(64, 64)), Vec3::new(0, 0, 0));
    let none: Option<RelativeTerrainMap<i32, 3>> = None;
    assert!(!none.is_modified());
    assert_eq!(none.num_differences(), 0);
    assert!(!Some(map).is_modified());
}

#[test]
fn values_and_differences_can_be_set() {
    let reference = grid_of([[1, 2, 3], [4, 5, 6], [7, 8, 9]]);
    let mut map = RelativeTerrainMap::empty(reference);
    let coords = Index2D::new(1, 0);
    map.set_value(coords, 10);
    assert_eq!(map.get_difference(coords), 8);
    assert!(map.has_difference(coords));
    map.set_value(coords, 2);
    assert_eq!(map.get_difference(coords), 0);
    assert!(!map.has_difference(coords));
    map.set_difference(coords, -4);
    assert_eq!(map.get_value(coords), -2);
    assert!(map.has_difference(coords));
    map.set_difference(Index2D::new(2, 2), 1);
    let terrain = map.to_terrain();
    assert_eq!(terrain.at(coords), -2);
    assert_eq!(terrain.at(Index2D::new(2, 2)), 10);
    assert_eq!(terrain.at(Index2D::new(0, 0)), 1);
    let copy = map.duplicate();
    map.clean_some(&vec![coords, Index2D::new(0, 0)]);
    assert_eq!(map.get_value(coords), 2);
    assert!(!map.has_difference(coords));
    assert_eq!(map.get_value(Index2D::new(2, 2)), 10);
    assert_eq!(map.num_differences(), 1);
    map.clean_all();
    assert!(!map.is_modified());
    assert_eq!(map.get_value(Index2D::new(2, 2)), 9);
    assert_eq!(copy.num_differences(), 2);
    assert_eq!(copy.get_value(coords), -2);
}

#[test]
fn deltas_of_every_kind_give_the_value_back() {
    assert_eq!(<i32 as RelativeTo>::subtract(5, 7), -2);
    assert_eq!(<i32 as RelativeTo>::add(7, -2), 5);
    assert_eq!(<u8 as RelativeTo>::subtract(0, 255), -255);
    assert_eq!(<u8 as RelativeTo>::add(255, -255), 0);
    assert_eq!(<u8 as RelativeTo>::add(0, 255), 255);
    assert_eq!(<i8 as RelativeTo>::subtract(-128, 127), -255);
    assert_eq!(<i8 as RelativeTo>::add(127, -255), -128);
    assert_eq!(<i8 as RelativeTo>::add(-128, 255), 127);
    assert_eq!(<u16 as RelativeTo>::subtract(65535, 0), 65535);
    assert_eq!(<u16 as RelativeTo>::add(0, 65535), 65535);
    assert_eq!(<IndexVTEX as RelativeTo>::subtract(IndexVTEX::new(3), IndexVTEX::new(10)), -7);
    assert_eq!(<IndexVTEX as RelativeTo>::add(IndexVTEX::new(10), -7), IndexVTEX::new(3));
    let lhs = Vec3::new(1u8, 200, 30);
    let rhs = Vec3::new(10u8, 20, 30);
    let delta = <Vec3<u8> as RelativeTo>::subtract(lhs, rhs);
    assert_eq!(delta, Vec3::new(-9, 180, 0));
    assert_eq!(<Vec3<u8> as RelativeTo>::add(rhs, delta), lhs);
    assert!(!<Vec3<u8> as RelativeTo>::is_zero(delta));
    assert!(<Vec3<u8> as RelativeTo>::is_zero(<Vec3<u8> as RelativeTo>::no_difference()));
    assert_eq!(<Vec3<i8> as RelativeTo>::base_value(), Vec3::new(0, 0, 0));
}

#[test]
fn sums_that_do_not_fit_wrap_around() {
    assert_eq!(<u8 as RelativeTo>::add(250, 10), 4);
    assert_eq!(<u8 as RelativeTo>::add(5, -10), 251);
    assert_eq!(<i8 as RelativeTo>::add(127, 1), -128);
    assert_eq!(<u16 as RelativeTo>::add(65535, 2), 1);
    assert_eq!(<i32 as RelativeTo>::add(i32::MAX, 1), i32::MIN);
    assert_eq!(<i32 as RelativeTo>::subtract(i32::MIN, 1), i32::MAX);
    assert_eq!(<u8 as RelativeTo>::add(0, i32::MAX), 255);
    assert_eq!(<u8 as RelativeTo>::add(0, i32::MIN), 0);
    // A wrapped delta of 32 bits still gives the value back.
    let delta = <i32 as RelativeTo>::subtract(i32::MAX, -1);
    assert_eq!(<i32 as RelativeTo>::add(-1, delta), i32::MAX);
}

#[test]
fn texture_indices_are_one_more_than_record_indices() {
    assert_eq!(IndexVTEX::new(7).as_u16(), 7);
    assert_eq!(IndexLTEX::new(7).as_u16(), 7);
    assert_eq!(IndexLTEX::new(7).to_vtex(), Some(IndexVTEX::new(8)));
    assert_eq!(IndexLTEX::new(u16::MAX).to_vtex(), None);
    assert_eq!(IndexLTEX::try_from_vtex(IndexVTEX::new(8)), Some(IndexLTEX::new(7)));
    assert_eq!(IndexLTEX::try_from_vtex(IndexVTEX::new(0)), None);
    assert_eq!(IndexVTEX::default(), IndexVTEX::new(0));
}

#[test]
fn normals_are_kept_where_the_elevation_is_unchanged() {
    let mut heights = DefaultRelativeTerrainMap::height_map();
    heights.set_value(Index2D::new(10, 10), 64);
    let mut normals = DefaultRelativeTerrainMap::vertex_normals();
    normals.set_value(Index2D::new(10, 10), Vec3::new(1, 2, 3));
    normals.set_value(Index2D::new(20, 20), Vec3::new(4, 5, 6));
    let fresh = recompute_vertex_normals(&heights, None);
    let kept = recompute_vertex_normals(&heights, Some(&normals));
    // The elevation rises by 64 to the vertex at (10, 10) and falls from it.
    assert_eq!(fresh.at(Index2D::new(0, 0)), Vec3::new(0, 0, 127));
    assert_eq!(fresh.at(Index2D::new(9, 10)), Vec3::new(-57, 0, 114));
    assert_eq!(fresh.at(Index2D::new(10, 9)), Vec3::new(0, -57, 114));
    assert_eq!(fresh.at(Index2D::new(10, 10)), Vec3::new(52, 52, 104));
    assert_eq!(kept.at(Index2D::new(10, 10)), Vec3::new(52, 52, 104));
    assert_eq!(kept.at(Index2D::new(20, 20)), Vec3::new(4, 5, 6));
    assert_eq!(kept.at(Index2D::new(9, 10)), Vec3::new(0, 0, 0));
    assert_eq!(kept.at(Index2D::new(0, 0)), Vec3::new(0, 0, 0));
}
