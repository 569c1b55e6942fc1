use merged_lands::land::grid_access::{GridAccessor2D, GridIterator2D, Index2D, SquareGridIterator};
use merged_lands::land::terrain_map::{LandData, TerrainMap, Vec2, Vec3};

#[test]
fn a_grid_is_walked_row_by_row() {
    let mut walk: GridIterator2D<3, 2> = GridIterator2D::new();
    let mut seen = Vec::new();
    while let Some(coords) = walk.next() {
        seen.push((coords.x, coords.y));
    }
    assert_eq!(seen, vec![(0, 0), (1, 0), (2, 0), (0, 1), (1, 1), (2, 1)]);
    assert!(walk.next().is_none());
    assert!(walk.next().is_none());
}

#[test]
fn a_terrain_map_is_walked_in_full() {
    let map: TerrainMap<u8, 9> = TerrainMap::new(0);
    let mut walk = map.iter_grid();
    let mut count = 0;
    let mut last = Index2D::new(0, 0);
    while let Some(coords) = walk.next() {
        assert_eq!(coords.y * 9 + coords.x, count);
        count += 1;
        last = coords;
    }
    assert_eq!(count, 81);
    assert_eq!(last, Index2D::new(8, 8));
}

#[test]
fn a_terrain_map_holds_what_is_written() {
    let mut map: TerrainMap<i32, 3> = TerrainMap::new(5);
    assert_eq!(map.len(), 9);
    map.set(Index2D::new(1, 2), 7);
    *map.get_mut(Index2D::new(2, 0)) = 9;
    *map.at_mut(Index2D::new(0, 1)) = -3;
    for y in 0..3 {
        for x in 0..3 {
            let expected = match (x, y) {
                (1, 2) => 7,
                (2, 0) => 9,
                (0, 1) => -3,
                _ => 5,
            };
            assert_eq!(map.get(Index2D::new(x, y)), expected);
            assert_eq!(map.at(Index2D::new(x, y)), expected);
        }
    }
    let copy = map.duplicate();
    map.set(Index2D::new(1, 2), 0);
    assert_eq!(copy.at(Index2D::new(1, 2)), 7);
    let flags: TerrainMap<bool, 3> = map.uniform_like(true);
    assert!(flags.at(Index2D::new(2, 2)));
}

#[test]
fn index_and_vectors_keep_their_parts() {
    let index = Index2D::new(3, 4);
    assert_eq!((index.x, index.y), (3, 4));
    assert_eq!(Index2D::default(), Index2D::new(0, 0));
    let pair = Vec2::new(-1, 2);
    assert_eq!((pair.x, pair.y), (-1, 2));
    let triple = Vec3::new(1u8, 2, 3);
    assert_eq!((triple.x, triple.y, triple.z), (1, 2, 3));
}

#[test]
fn land_data_is_a_set_of_five_kinds() {
    let mut data = LandData::default();
    assert!(data.is_empty());
    assert_eq!(data.bits(), 0);
    let mut heights = LandData::empty();
    heights.vertex_heights = true;
    heights.vertex_normals = true;
    data.insert(heights);
    assert!(data.contains(heights));
    assert_eq!(data.bits(), 0b11000);
    let mut colors = LandData::empty();
    colors.vertex_colors = true;
    assert!(!data.contains(colors));
    data.insert(colors);
    assert_eq!(data.bits(), 0b11010);
    data.remove(heights);
    assert_eq!(data, colors);
    let mut all = LandData::empty();
    all.vertex_colors = true;
    all.textures = true;
    all.vertex_heights = true;
    all.vertex_normals = true;
    all.world_map = true;
    assert_eq!(all.bits(), 0b111110);
    assert!(all.contains(data));
}
