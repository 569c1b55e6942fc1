use crate::land::grid_access::{walked, Index2D};
use crate::land::landscape::{Landscape, LandscapeFlags};
use crate::land::terrain_map::{TerrainMap, Vec2, Vec3};
use crate::land::textures::IndexVTEX;
use vstd::prelude::*;

verus! {

/// Converts between [TerrainMap] using the provided `conversion` function, which is called
/// once for every position.
pub fn convert_terrain_map<I: Copy, U: Copy, F: Fn(I) -> U, const T: usize>(
    original: &TerrainMap<I, T>,
    conversion: F,
) -> (r: TerrainMap<U, T>)
    requires
        T > 0,
        forall|value: I| conversion.requires((value,)),
    ensures
        forall|p: Index2D| p.within(T) ==> conversion.ensures((original[p],), #[trigger] r[p]),
{
    // The first value that is converted fills the new grid until the others are converted.
    let origin = Index2D::new(0, 0);
    let first = conversion(original.at(origin));
    let mut new: TerrainMap<U, T> = original.uniform_like(first);

    let mut y: usize = 0;
    while y < T
        invariant
            y <= T,
            origin == (Index2D { x: 0, y: 0 }),
            forall|value: I| conversion.requires((value,)),
            conversion.ensures((original[origin],), new[origin]),
            forall|p: Index2D|
                p.within(T) && walked(p, 0, y) ==> conversion.ensures(
                    (original[p],),
                    #[trigger] new[p],
                ),
        decreases T - y,
    {
        let mut x: usize = 0;
        while x < T
            invariant
                x <= T,
                y < T,
                origin == (Index2D { x: 0, y: 0 }),
                forall|value: I| conversion.requires((value,)),
                conversion.ensures((original[origin],), new[origin]),
                forall|p: Index2D|
                    p.within(T) && walked(p, x, y) ==> conversion.ensures(
                        (original[p],),
                        #[trigger] new[p],
                    ),
            decreases T - x,
        {
            if x > 0 || y > 0 {
                let coords = Index2D::new(x, y);
                new.set(coords, conversion(original.at(coords)));
            }
            proof {
                assert forall|p: Index2D|
                    p.within(T) && walked(p, (x + 1) as usize, y) implies conversion.ensures(
                    (original[p],),
                    #[trigger] new[p],
                ) by {
                    if p.x == 0 && p.y == 0 {
                        assert(p == origin);
                    }
                }
            }
            x = x + 1;
        }
        y = y + 1;
    }

    new
}

/// The three values of `array` as a [Vec3].
pub fn vec3_from_array<V: Copy>(array: [V; 3]) -> (r: Vec3<V>)
    ensures
        r == (Vec3 { x: array[0], y: array[1], z: array[2] }),
{
    Vec3::new(array[0], array[1], array[2])
}

/// The three values of `vec` as an array.
pub fn vec3_into_array<V: Copy>(vec: Vec3<V>) -> (r: [V; 3])
    ensures
        r[0] == vec.x,
        r[1] == vec.y,
        r[2] == vec.z,
{
    [vec.x, vec.y, vec.z]
}

/// Access the `vertex_normals` of a [Landscape] as a [TerrainMap].
pub fn vertex_normals(land: &Landscape) -> (r: Option<TerrainMap<Vec3<i8>, 65>>)
    ensures
        r.is_some() == land.vertex_normals.is_some(),
        r matches Some(map) ==> forall|p: Index2D|
            p.within(65) ==> (#[trigger] map[p]) == (Vec3 {
                x: land.vertex_normals.unwrap()[p][0],
                y: land.vertex_normals.unwrap()[p][1],
                z: land.vertex_normals.unwrap()[p][2],
            }),
{
    match &land.vertex_normals {
        Some(data) => Some(
            convert_terrain_map(data, vec3_from_array::<i8>),
        ),
        None => None,
    }
}

/// Access the `vertex_colors` of a [Landscape] as a [TerrainMap].
pub fn vertex_colors(land: &Landscape) -> (r: Option<TerrainMap<Vec3<u8>, 65>>)
    ensures
        r.is_some() == land.vertex_colors.is_some(),
        r matches Some(map) ==> forall|p: Index2D|
            p.within(65) ==> (#[trigger] map[p]) == (Vec3 {
                x: land.vertex_colors.unwrap()[p][0],
                y: land.vertex_colors.unwrap()[p][1],
                z: land.vertex_colors.unwrap()[p][2],
            }),
{
    match &land.vertex_colors {
        Some(data) => Some(
            convert_terrain_map(data, vec3_from_array::<u8>),
        ),
        None => None,
    }
}

/// Access the `world_map_data` of a [Landscape] as a [TerrainMap].
pub fn world_map_data(land: &Landscape) -> (r: Option<TerrainMap<u8, 9>>)
    ensures
        r.is_some() == land.world_map_data.is_some(),
        r matches Some(map) ==> map@ == land.world_map_data.unwrap()@,
{
    match &land.world_map_data {
        Some(data) => Some(data.duplicate()),
        None => None,
    }
}

/// Access the `texture_indices` of a [Landscape] as a [TerrainMap].
pub fn texture_indices(land: &Landscape) -> (r: Option<TerrainMap<IndexVTEX, 16>>)
    ensures
        r.is_some() == land.texture_indices.is_some(),
        r matches Some(map) ==> forall|p: Index2D|
            p.within(16) ==> (#[trigger] map[p]) == IndexVTEX(land.texture_indices.unwrap()[p]),
{
    match &land.texture_indices {
        Some(data) => Some(
            convert_terrain_map(data, IndexVTEX::new),
        ),
        None => None,
    }
}

/// Access the [LandscapeFlags] of a [Landscape].
pub fn landscape_flags(land: &Landscape) -> (r: LandscapeFlags)
    ensures
        r == land.landscape_flags,
{
    land.landscape_flags
}

/// Access the `grid` location of a [Landscape] as a [Vec2].
pub fn coordinates(land: &Landscape) -> (r: Vec2<i32>)
    ensures
        r.x == land.grid.0,
        r.y == land.grid.1,
{
    let coords = land.grid;
    Vec2::new(coords.0, coords.1)
}

} // verus!
