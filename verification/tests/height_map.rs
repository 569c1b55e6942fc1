use merged_lands::land::grid_access::Index2D;
use merged_lands::land::height_map::{
    calculate_height_map, calculate_vertex_heights, calculate_vertex_heights_tes3,
    calculate_vertex_normals_map, check_heights_fit, decode_heights, truncate_gradient,
    try_calculate_height_map,
};
use merged_lands::land::landscape::{Landscape, LandscapeFlags, ObjectFlags, VertexHeights};
use merged_lands::land::terrain_map::{TerrainMap, Vec3};

fn grid_of<V: Copy, const T: usize>(values: [[V; T]; T]) -> TerrainMap<V, T> {
    let mut map = TerrainMap::new(values[0][0]);
    for y in 0..T {
        for x in 0..T {
            map.set(Index2D::new(x, y), values[y][x]);
        }
    }
    map
}

fn values_of<V: Copy, const T: usize>(map: &TerrainMap<V, T>) -> [[V; T]; T] {
    let mut values = [[map.at(Index2D::new(0, 0)); T]; T];
    for y in 0..T {
        for x in 0..T {
            values[y][x] = map.at(Index2D::new(x, y));
        }
    }
    values
}

#[test]
fn gradients_are_cut_to_a_signed_byte() {
    for (gradient, expected) in
        [(0, 0), (127, 127), (128, 127), (-128, -128), (-129, -128), (i32::MAX, 127), (i32::MIN, -128)]
    {
        let mut gradient = gradient;
        truncate_gradient(&mut gradient);
        assert_eq!(gradient, expected);
    }
}

#[test]
fn heights_are_stored_as_steps() {
    let heights = grid_of([[80, 88, 72], [160, 160, 168], [-8, 0, 8]]);
    let (offset, gradients) = calculate_vertex_heights(&heights);
    assert_eq!(offset, 10);
    assert_eq!(values_of(&gradients), [[0, 1, -2], [10, 0, 1], [-21, 1, 1]]);
}

#[test]
fn steps_are_accumulated_to_heights() {
    let gradients = grid_of([[1i8, 1, -2], [10, 0, 1], [-21, 1, 1]]);
    let heights = decode_heights(9, &gradients);
    assert_eq!(values_of(&heights), [[80, 88, 72], [160, 160, 168], [-8, 0, 8]]);
}

#[test]
fn heights_come_back_from_their_stored_form() {
    let original = [[80, 88, 72], [160, 160, 168], [-8, 0, 8]];
    let (offset, gradients) = calculate_vertex_heights(&grid_of(original));
    assert!(check_heights_fit(offset, &gradients));
    assert_eq!(values_of(&decode_heights(offset, &gradients)), original);
}

#[test]
fn steep_steps_are_cut() {
    let original = [[0, 8000, 8000], [-8000, 0, 0], [0, 0, 0]];
    let (offset, gradients) = calculate_vertex_heights(&grid_of(original));
    assert_eq!(offset, 0);
    assert_eq!(values_of(&gradients), [[0, 127, 0], [-128, 127, 0], [127, 0, 0]]);
    let decoded = decode_heights(offset, &gradients);
    assert_eq!(values_of(&decoded), [[0, 1016, 1016], [-1024, -8, -8], [-8, -8, -8]]);
}

#[test]
fn heights_that_are_no_multiple_of_eight_are_rounded_towards_zero() {
    let original = [[15, 17], [-15, -17]];
    let (offset, gradients) = calculate_vertex_heights(&grid_of(original));
    assert_eq!(offset, 1);
    assert_eq!(values_of(&gradients), [[0, 1], [-2, -1]]);
    assert_eq!(values_of(&decode_heights(offset, &gradients)), [[8, 16], [-8, -16]]);
}

#[test]
fn heights_must_fit_in_32_bits() {
    let flat: TerrainMap<i8, 3> = TerrainMap::new(0);
    assert!(check_heights_fit(0, &flat));
    assert!(check_heights_fit(268435455, &flat));
    assert!(!check_heights_fit(268435456, &flat));
    assert!(check_heights_fit(-268435456, &flat));
    assert!(!check_heights_fit(-268435457, &flat));
    assert_eq!(decode_heights(268435455, &flat).at(Index2D::new(2, 2)), 2147483640);
    assert_eq!(decode_heights(-268435456, &flat).at(Index2D::new(2, 2)), i32::MIN);
    let rising: TerrainMap<i8, 3> = TerrainMap::new(1);
    assert!(check_heights_fit(268435455 - 5, &rising));
    assert!(!check_heights_fit(268435455 - 4, &rising));
    assert!(check_heights_fit(i32::MAX, &TerrainMap::<i8, 3>::new(0)) == false);
}

fn landscape(flags: bool, heights: Option<VertexHeights>) -> Landscape {
    Landscape {
        flags: ObjectFlags { bits: 0, deleted: false },
        grid: (3, -4),
        landscape_flags: LandscapeFlags {
            uses_vertex_heights_and_normals: flags,
            uses_vertex_colors: false,
            uses_textures: false,
            unknown: false,
        },
        vertex_heights: heights,
        vertex_normals: None,
        vertex_colors: None,
        texture_indices: None,
        world_map_data: None,
    }
}

#[test]
fn a_landscape_gives_its_heights() {
    let mut data: TerrainMap<i8, 65> = TerrainMap::new(0);
    data.set(Index2D::new(0, 0), 2);
    data.set(Index2D::new(0, 1), 3);
    data.set(Index2D::new(5, 1), -1);
    let stored = || VertexHeights { offset: 10, data: data.duplicate() };
    let heights = try_calculate_height_map(&landscape(true, Some(stored()))).expect("heights");
    assert_eq!(heights.at(Index2D::new(0, 0)), 96);
    assert_eq!(heights.at(Index2D::new(64, 0)), 96);
    assert_eq!(heights.at(Index2D::new(0, 1)), 120);
    assert_eq!(heights.at(Index2D::new(4, 1)), 120);
    assert_eq!(heights.at(Index2D::new(5, 1)), 112);
    assert_eq!(heights.at(Index2D::new(64, 64)), 120);
    assert_eq!(calculate_height_map(&stored()).at(Index2D::new(5, 1)), 112);
    let again = calculate_vertex_heights_tes3(&heights);
    assert_eq!(again.offset, 12);
    assert_eq!(again.data.at(Index2D::new(0, 0)), 0);
    assert_eq!(again.data.at(Index2D::new(0, 1)), 3);
    assert_eq!(again.data.at(Index2D::new(5, 1)), -1);
    assert_eq!(again.data.at(Index2D::new(6, 1)), 0);
    let decoded = calculate_height_map(&again);
    for y in 0..65 {
        for x in 0..65 {
            assert_eq!(decoded.at(Index2D::new(x, y)), heights.at(Index2D::new(x, y)));
        }
    }
    assert!(try_calculate_height_map(&landscape(false, Some(stored()))).is_none());
    assert!(try_calculate_height_map(&landscape(true, None)).is_none());
    let too_high = VertexHeights { offset: i32::MAX, data: data.duplicate() };
    assert!(try_calculate_height_map(&landscape(true, Some(too_high))).is_none());
}

#[test]
fn normals_point_away_from_the_rise() {
    let flat: TerrainMap<i32, 3> = TerrainMap::new(1000);
    assert_eq!(values_of(&calculate_vertex_normals_map(&flat)), [[Vec3::new(0, 0, 127); 3]; 3]);
    let heights = grid_of([[0, 8, 24], [-8, 0, 16], [64, 72, 88]]);
    let normals = calculate_vertex_normals_map(&heights);
    // A rise of 8 along x and a fall of 8 along y.
    assert_eq!(normals.at(Index2D::new(0, 0)), Vec3::new(-8, 8, 127));
    // A rise of 16 along x and a fall of 8 along y.
    assert_eq!(normals.at(Index2D::new(1, 0)), Vec3::new(-16, 8, 126));
    // The last vertex of a row takes the rise that leads to it.
    assert_eq!(normals.at(Index2D::new(2, 0)), Vec3::new(-16, 8, 126));
    // A rise of 8 along x and of 72 along y.
    assert_eq!(normals.at(Index2D::new(0, 1)), Vec3::new(-7, -62, 111));
    // The last vertex of a column takes the rise that leads to it.
    assert_eq!(normals.at(Index2D::new(0, 2)), Vec3::new(-7, -62, 111));
    assert_eq!(normals.at(Index2D::new(2, 2)), normals.at(Index2D::new(1, 1)));
}

#[test]
fn normals_of_steep_rises_fit_in_a_signed_byte() {
    let heights = grid_of([[i32::MIN, i32::MAX], [i32::MAX, i32::MIN]]);
    let normals = calculate_vertex_normals_map(&heights);
    assert_eq!(normals.at(Index2D::new(0, 0)), Vec3::new(-90, -90, 0));
    let heights = grid_of([[i32::MAX, i32::MIN], [i32::MAX, i32::MAX]]);
    assert_eq!(calculate_vertex_normals_map(&heights).at(Index2D::new(0, 0)), Vec3::new(127, 0, 0));
    let heights = grid_of([[0, 128], [0, 0]]);
    assert_eq!(calculate_vertex_normals_map(&heights).at(Index2D::new(0, 0)), Vec3::new(-90, 0, 90));
}
