use crate::land::grid_access::{walked, Index2D};
use crate::land::landscape::{Landscape, VertexHeights};
use crate::land::terrain_map::{TerrainMap, Vec3};
use vstd::prelude::*;

verus! {

/// The number of vertices along a side of a cell.
pub const CELL_SIZE: usize = 65;

/// The number of units of height that one step of the stored elevation stands for.
pub const HEIGHT_MAP_SCALE_FACTOR: i32 = 8;

/// The step `gradient`, cut to what a signed byte can hold.
pub open spec fn truncated_gradient(gradient: int) -> int {
    if gradient > 127 {
        127
    } else if gradient < -128 {
        -128
    } else {
        gradient
    }
}

/// Cuts the step `gradient` to what a signed byte can hold.
pub fn truncate_gradient(gradient: &mut i32)
    ensures
        *final(gradient) == truncated_gradient(*old(gradient) as int),
{
    if *gradient > 127 {
        *gradient = 127;
    } else if *gradient < -128 {
        *gradient = -128;
    }
}

/// A height in the units of the stored elevation: the eighth part, rounded towards zero.
pub open spec fn stored_units(height: i32) -> int {
    if height >= 0 {
        height / 8
    } else {
        -((-height) / 8)
    }
}

/// The step that is stored for the vertex at `coords`: in the first column the step from the
/// vertex above, in every other column the step from the vertex to the left, and none for the
/// first vertex of all.
pub open spec fn stored_step(heights: spec_fn(Index2D) -> i32, coords: Index2D) -> int {
    if coords.x > 0 {
        stored_units(heights(coords)) - stored_units(
            heights(Index2D { x: (coords.x - 1) as usize, y: coords.y }),
        )
    } else if coords.y > 0 {
        stored_units(heights(coords)) - stored_units(
            heights(Index2D { x: 0, y: (coords.y - 1) as usize }),
        )
    } else {
        0
    }
}

/// The heights of a grid, position by position.
pub open spec fn heights_of_grid<const T: usize>(height_map: TerrainMap<i32, T>) -> spec_fn(
    Index2D,
) -> i32 {
    |p: Index2D| height_map[p]
}

/// The elevation `heights` as it is stored: `offset` is the height of the first vertex,
/// and `gradients` holds the step to every vertex, cut to a signed byte.
pub open spec fn is_stored_form<const T: usize>(
    heights: spec_fn(Index2D) -> i32,
    offset: i32,
    gradients: TerrainMap<i8, T>,
) -> bool {
    &&& offset == stored_units(heights(Index2D { x: 0, y: 0 }))
    &&& forall|p: Index2D|
        p.within(T) ==> (#[trigger] gradients[p]) == truncated_gradient(stored_step(heights, p))
}

/// Elevations that agree on the grid have the same stored form.
pub proof fn lemma_stored_form_of_same_heights<const T: usize>(
    first: spec_fn(Index2D) -> i32,
    second: spec_fn(Index2D) -> i32,
    offset: i32,
    gradients: TerrainMap<i8, T>,
)
    requires
        T > 0,
        is_stored_form(first, offset, gradients),
        forall|p: Index2D| p.within(T) ==> #[trigger] first(p) == second(p),
    ensures
        is_stored_form(second, offset, gradients),
{
    assert(first(Index2D { x: 0, y: 0 }) == second(Index2D { x: 0, y: 0 }));
    assert forall|p: Index2D| p.within(T) implies (#[trigger] gradients[p]) == truncated_gradient(
        stored_step(second, p),
    ) by {
        assert(first(p) == second(p));
        if p.x > 0 {
            let q = Index2D { x: (p.x - 1) as usize, y: p.y };
            assert(first(q) == second(q));
        } else if p.y > 0 {
            let q = Index2D { x: 0, y: (p.y - 1) as usize };
            assert(first(q) == second(q));
        }
    }
}

/// Converts an elevation to the form in which it is stored. Steps that a signed byte cannot
/// hold are cut to what it can hold.
pub fn calculate_vertex_heights<const T: usize>(height_map: &TerrainMap<i32, T>) -> (r: (
    i32,
    TerrainMap<i8, T>,
))
    requires
        T > 0,
    ensures
        is_stored_form(heights_of_grid(*height_map), r.0, r.1),
{
    let mut terrain: TerrainMap<i8, T> = height_map.uniform_like(0i8);
    let offset: i32 = height_map.at(Index2D::new(0, 0)) / HEIGHT_MAP_SCALE_FACTOR;

    let mut y: usize = 0;
    while y < T
        invariant
            y <= T,
            forall|p: Index2D|
                p.within(T) && walked(p, 0, y) ==> (#[trigger] terrain[p]) == truncated_gradient(
                    stored_step(heights_of_grid(*height_map), p),
                ),
        decreases T - y,
    {
        let mut x: usize = 0;
        while x < T
            invariant
                x <= T,
                y < T,
                forall|p: Index2D|
                    p.within(T) && walked(p, x, y) ==> (#[trigger] terrain[p])
                        == truncated_gradient(stored_step(heights_of_grid(*height_map), p)),
            decreases T - x,
        {
            let coords = Index2D::new(x, y);
            let mut gradient: i32 = 0;
            if x > 0 {
                gradient = height_map.at(coords) / HEIGHT_MAP_SCALE_FACTOR - height_map.at(
                    Index2D::new(x - 1, y),
                ) / HEIGHT_MAP_SCALE_FACTOR;
            } else if y > 0 {
                gradient = height_map.at(coords) / HEIGHT_MAP_SCALE_FACTOR - height_map.at(
                    Index2D::new(0, y - 1),
                ) / HEIGHT_MAP_SCALE_FACTOR;
            }
            truncate_gradient(&mut gradient);
            terrain.set(coords, gradient as i8);
            x = x + 1;
        }
        y = y + 1;
    }

    (offset, terrain)
}

/// Converts an elevation of a cell to the form in which a landscape record stores it.
pub fn calculate_vertex_heights_tes3(height_map: &TerrainMap<i32, CELL_SIZE>) -> (r: VertexHeights)
    ensures
        is_stored_form(heights_of_grid(*height_map), r.offset, r.data),
{
    let (offset, terrain) = calculate_vertex_heights(height_map);
    VertexHeights { offset, data: terrain }
}

/// The height of the first vertex of row `y`, in stored units: the offset and all the steps
/// down the first column.
pub open spec fn column_units<const T: usize>(offset: i32, gradients: TerrainMap<i8, T>, y: nat) -> int
    decreases y,
{
    let above = if y == 0 {
        offset as int
    } else {
        column_units(offset, gradients, (y - 1) as nat)
    };
    above + gradients[Index2D { x: 0, y: y as usize }]
}

/// The height of the vertex in column `x` of row `y`, in stored units: the height of the
/// first vertex of the row and all the steps along the row.
pub open spec fn vertex_units<const T: usize>(
    offset: i32,
    gradients: TerrainMap<i8, T>,
    x: nat,
    y: nat,
) -> int
    decreases x,
{
    if x == 0 {
        column_units(offset, gradients, y)
    } else {
        vertex_units(offset, gradients, (x - 1) as nat, y) + gradients[Index2D {
            x: x as usize,
            y: y as usize,
        }]
    }
}

/// The height that the stored form gives the vertex at `coords`.
pub open spec fn decoded_height<const T: usize>(
    offset: i32,
    gradients: TerrainMap<i8, T>,
    coords: Index2D,
) -> int {
    8 * vertex_units(offset, gradients, coords.x as nat, coords.y as nat)
}

/// Whether every height that the stored form gives fits in 32 bits.
pub open spec fn heights_fit<const T: usize>(offset: i32, gradients: TerrainMap<i8, T>) -> bool {
    forall|p: Index2D|
        p.within(T) ==> i32::MIN <= #[trigger] decoded_height(offset, gradients, p) <= i32::MAX
}

/// Decides whether every height that the stored form gives fits in 32 bits.
pub fn check_heights_fit<const T: usize>(offset: i32, gradients: &TerrainMap<i8, T>) -> (r: bool)
    ensures
        r == heights_fit(offset, *gradients),
{
    let mut column: i64 = offset as i64;
    let mut y: usize = 0;
    while y < T
        invariant
            y <= T,
            y == 0 ==> column == offset,
            y > 0 ==> column == column_units(offset, *gradients, (y - 1) as nat),
            -0x8000_0000 <= column <= 0x8000_0000,
            forall|p: Index2D|
                p.within(T) && walked(p, 0, y) ==> i32::MIN <= #[trigger] decoded_height(
                    offset,
                    *gradients,
                    p,
                ) <= i32::MAX,
        decreases T - y,
    {
        let first: i64 = column + gradients.at(Index2D::new(0, y)) as i64;
        assert(first == vertex_units(offset, *gradients, 0, y as nat));
        if first < -0x1000_0000 || first > 0x0fff_ffff {
            assert(!(i32::MIN <= decoded_height(offset, *gradients, Index2D { x: 0, y })
                <= i32::MAX));
            return false;
        }
        let mut height: i64 = first;
        let mut x: usize = 1;
        while x < T
            invariant
                1 <= x,
                y < T,
                height == vertex_units(offset, *gradients, (x - 1) as nat, y as nat),
                -0x1000_0000 <= height <= 0x1000_0000,
                forall|p: Index2D|
                    p.within(T) && walked(p, x, y) ==> i32::MIN <= #[trigger] decoded_height(
                        offset,
                        *gradients,
                        p,
                    ) <= i32::MAX,
            decreases T - x,
        {
            let coords = Index2D::new(x, y);
            height = height + gradients.at(coords) as i64;
            assert(height == vertex_units(offset, *gradients, x as nat, y as nat));
            if height < -0x1000_0000 || height > 0x0fff_ffff {
                assert(!(i32::MIN <= decoded_height(offset, *gradients, coords) <= i32::MAX));
                return false;
            }
            x = x + 1;
        }
        column = first;
        y = y + 1;
    }
    true
}

/// Converts the stored form of the elevation of a cell to heights.
pub fn calculate_height_map(vertex_heights: &VertexHeights) -> (r: TerrainMap<i32, CELL_SIZE>)
    requires
        heights_fit(vertex_heights.offset, vertex_heights.data),
    ensures
        forall|p: Index2D|
            p.within(CELL_SIZE) ==> (#[trigger] r[p]) == decoded_height(
                vertex_heights.offset,
                vertex_heights.data,
                p,
            ),
{
    decode_heights(vertex_heights.offset, &vertex_heights.data)
}

/// Converts the stored form of an elevation to heights: the first column accumulates the
/// offset and the steps downwards, every row accumulates the steps from its first vertex
/// onwards, and every accumulated value is then multiplied by the scale factor.
pub fn decode_heights<const T: usize>(offset: i32, gradients: &TerrainMap<i8, T>) -> (r: TerrainMap<
    i32,
    T,
>)
    requires
        heights_fit(offset, *gradients),
    ensures
        forall|p: Index2D|
            p.within(T) ==> (#[trigger] r[p]) == decoded_height(offset, *gradients, p),
{
    let mut grid_height: TerrainMap<i32, T> = gradients.uniform_like(0i32);
    let mut height: i32 = offset;

    let mut y: usize = 0;
    while y < T
        invariant
            y <= T,
            heights_fit(offset, *gradients),
            y == 0 ==> height == offset,
            y > 0 ==> height == column_units(offset, *gradients, (y - 1) as nat),
            forall|p: Index2D|
                p.within(T) && walked(p, 0, y) ==> (#[trigger] grid_height[p]) == vertex_units(
                    offset,
                    *gradients,
                    p.x as nat,
                    p.y as nat,
                ),
        decreases T - y,
    {
        let mut x: usize = 0;
        let ghost column = height;
        while x < T
            invariant
                x <= T,
                y < T,
                heights_fit(offset, *gradients),
                y == 0 ==> column == offset,
                y > 0 ==> column == column_units(offset, *gradients, (y - 1) as nat),
                x == 0 ==> height == column,
                x > 0 ==> height == vertex_units(offset, *gradients, (x - 1) as nat, y as nat),
                forall|p: Index2D|
                    p.within(T) && walked(p, x, y) ==> (#[trigger] grid_height[p])
                        == vertex_units(offset, *gradients, p.x as nat, p.y as nat),
            decreases T - x,
        {
            let coords = Index2D::new(x, y);
            proof {
                assert(i32::MIN <= decoded_height(offset, *gradients, coords) <= i32::MAX);
            }
            height = height + gradients.at(coords) as i32;
            grid_height.set(coords, height);
            x = x + 1;
        }

        height = grid_height.at(Index2D::new(0, y));
        y = y + 1;
    }

    let mut y: usize = 0;
    while y < T
        invariant
            y <= T,
            heights_fit(offset, *gradients),
            forall|p: Index2D|
                p.within(T) ==> (#[trigger] grid_height[p]) == if walked(p, 0, y) {
                    decoded_height(offset, *gradients, p)
                } else {
                    vertex_units(offset, *gradients, p.x as nat, p.y as nat)
                },
        decreases T - y,
    {
        let mut x: usize = 0;
        while x < T
            invariant
                x <= T,
                y < T,
                heights_fit(offset, *gradients),
                forall|p: Index2D|
                    p.within(T) ==> (#[trigger] grid_height[p]) == if walked(p, x, y) {
                        decoded_height(offset, *gradients, p)
                    } else {
                        vertex_units(offset, *gradients, p.x as nat, p.y as nat)
                    },
            decreases T - x,
        {
            let coords = Index2D::new(x, y);
            proof {
                assert(i32::MIN <= decoded_height(offset, *gradients, coords) <= i32::MAX);
            }
            let units: i32 = grid_height.at(coords);
            grid_height.set(coords, units * HEIGHT_MAP_SCALE_FACTOR);
            x = x + 1;
        }
        y = y + 1;
    }

    grid_height
}

/// Whether a landscape record says that it holds an elevation, holds one, and all its
/// heights fit in 32 bits.
pub open spec fn has_height_map(land: Landscape) -> bool {
    land.landscape_flags.uses_vertex_heights_and_normals && (land.vertex_heights matches Some(
        stored,
    ) && heights_fit(stored.offset, stored.data))
}

/// The height that a landscape record gives the vertex at `coords`.
pub open spec fn height_at(land: Landscape, coords: Index2D) -> i32 {
    decoded_height(land.vertex_heights.unwrap().offset, land.vertex_heights.unwrap().data, coords)
        as i32
}

/// The heights of a landscape record that says it holds an elevation, holds one, and whose
/// heights fit in 32 bits.
pub fn try_calculate_height_map(land: &Landscape) -> (r: Option<TerrainMap<i32, 65>>)
    ensures
        r.is_some() == has_height_map(*land),
        r matches Some(height_map) ==> forall|p: Index2D|
            p.within(CELL_SIZE) ==> (#[trigger] height_map[p]) == height_at(*land, p),
{
    if !land.landscape_flags.uses_vertex_heights_and_normals {
        return None;
    }
    match &land.vertex_heights {
        Some(vertex_heights) => {
            if check_heights_fit(vertex_heights.offset, &vertex_heights.data) {
                Some(calculate_height_map(vertex_heights))
            } else {
                None
            }
        },
        None => None,
    }
}

/// Eight times the stored units of a multiple of eight is that multiple.
pub proof fn lemma_stored_units_exact(height: i32)
    requires
        height % 8 == 0,
    ensures
        8 * stored_units(height) == height,
{
}

/// The stored units of eight times a number are that number.
pub proof fn lemma_stored_units_of_multiple(units: int)
    requires
        i32::MIN <= 8 * units <= i32::MAX,
    ensures
        stored_units((8 * units) as i32) == units,
{
}

/// An elevation that is stored without loss comes back as it was: where every height is a
/// multiple of the scale factor and a signed byte can hold every step, the stored form gives
/// every vertex the height that it had.
pub proof fn lemma_round_trip<const T: usize>(
    height_map: TerrainMap<i32, T>,
    offset: i32,
    gradients: TerrainMap<i8, T>,
)
    requires
        is_stored_form(heights_of_grid(height_map), offset, gradients),
        forall|p: Index2D| p.within(T) ==> (#[trigger] height_map[p]) % 8 == 0,
        forall|p: Index2D| p.within(T) ==> -128 <= #[trigger] stored_step(heights_of_grid(height_map), p) <= 127,
    ensures
        forall|p: Index2D|
            p.within(T) ==> #[trigger] decoded_height(offset, gradients, p) == height_map[p],
{
    assert forall|p: Index2D| p.within(T) implies #[trigger] decoded_height(offset, gradients, p)
        == height_map[p] by {
        lemma_units_restored(height_map, offset, gradients, p.x as nat, p.y as nat);
        lemma_stored_units_exact(height_map[p]);
    }
}

/// Where no step was cut, the stored form gives the first vertex of every row the stored
/// units of its height.
proof fn lemma_column_restored<const T: usize>(
    height_map: TerrainMap<i32, T>,
    offset: i32,
    gradients: TerrainMap<i8, T>,
    y: nat,
)
    requires
        y < T,
        is_stored_form(heights_of_grid(height_map), offset, gradients),
        forall|p: Index2D| p.within(T) ==> -128 <= #[trigger] stored_step(heights_of_grid(height_map), p) <= 127,
    ensures
        column_units(offset, gradients, y) == stored_units(
            height_map[Index2D { x: 0, y: y as usize }],
        ),
    decreases y,
{
    let p = Index2D { x: 0, y: y as usize };
    assert(p.within(T));
    assert(gradients[p] == truncated_gradient(stored_step(heights_of_grid(height_map), p)));
    assert(-128 <= stored_step(heights_of_grid(height_map), p) <= 127);
    if y > 0 {
        lemma_column_restored(height_map, offset, gradients, (y - 1) as nat);
    }
}

/// Where no step was cut, the stored form gives every vertex the stored units of its height.
proof fn lemma_units_restored<const T: usize>(
    height_map: TerrainMap<i32, T>,
    offset: i32,
    gradients: TerrainMap<i8, T>,
    x: nat,
    y: nat,
)
    requires
        x < T,
        y < T,
        is_stored_form(heights_of_grid(height_map), offset, gradients),
        forall|p: Index2D| p.within(T) ==> -128 <= #[trigger] stored_step(heights_of_grid(height_map), p) <= 127,
    ensures
        vertex_units(offset, gradients, x, y) == stored_units(
            height_map[Index2D { x: x as usize, y: y as usize }],
        ),
    decreases x,
{
    let p = Index2D { x: x as usize, y: y as usize };
    assert(p.within(T));
    assert(gradients[p] == truncated_gradient(stored_step(heights_of_grid(height_map), p)));
    assert(-128 <= stored_step(heights_of_grid(height_map), p) <= 127);
    if x > 0 {
        lemma_units_restored(height_map, offset, gradients, (x - 1) as nat, y);
    } else {
        lemma_column_restored(height_map, offset, gradients, y);
    }
}

/// Heights that came out of a stored form come back as they were where they are stored
/// again: the first step moves into the offset, and every other step is the step that was
/// stored before.
pub proof fn lemma_decoded_round_trip<const T: usize>(
    offset: i32,
    gradients: TerrainMap<i8, T>,
    height_map: TerrainMap<i32, T>,
    offset_again: i32,
    gradients_again: TerrainMap<i8, T>,
)
    requires
        heights_fit(offset, gradients),
        forall|p: Index2D|
            p.within(T) ==> (#[trigger] height_map[p]) == decoded_height(offset, gradients, p),
        is_stored_form(heights_of_grid(height_map), offset_again, gradients_again),
    ensures
        forall|p: Index2D|
            p.within(T) ==> #[trigger] decoded_height(offset_again, gradients_again, p)
                == height_map[p],
{
    assert forall|p: Index2D| p.within(T) implies (#[trigger] height_map[p]) % 8 == 0 by {
        assert(height_map[p] == decoded_height(offset, gradients, p));
    }
    assert forall|p: Index2D| p.within(T) implies -128 <= #[trigger] stored_step(
        heights_of_grid(height_map),
        p,
    ) <= 127 by {
        assert(height_map[p] == decoded_height(offset, gradients, p));
        lemma_stored_units_of_multiple(vertex_units(offset, gradients, p.x as nat, p.y as nat));
        if p.x > 0 {
            let q = Index2D { x: (p.x - 1) as usize, y: p.y };
            assert(q.within(T));
            assert(height_map[q] == decoded_height(offset, gradients, q));
            lemma_stored_units_of_multiple(
                vertex_units(offset, gradients, q.x as nat, q.y as nat),
            );
        } else if p.y > 0 {
            let q = Index2D { x: 0, y: (p.y - 1) as usize };
            assert(q.within(T));
            assert(height_map[q] == decoded_height(offset, gradients, q));
            lemma_stored_units_of_multiple(
                vertex_units(offset, gradients, q.x as nat, q.y as nat),
            );
        }
    }
    lemma_round_trip(height_map, offset_again, gradients_again);
}

/// The index from which the rise towards the next vertex is measured: the index itself,
/// but for the last one of a row or a column, which has no next vertex and takes the rise
/// that leads to it.
pub open spec fn rise_origin(index: usize, side: usize) -> usize {
    if index + 1 == side {
        (index - 1) as usize
    } else {
        index
    }
}

/// The rise of the elevation `heights` of a grid with `side` vertices on each axis from the
/// vertex at `coords` to the next vertex of its row.
pub open spec fn rise_along_x(heights: spec_fn(Index2D) -> i32, side: usize, coords: Index2D) -> int {
    let x = rise_origin(coords.x, side);
    let y = rise_origin(coords.y, side);
    heights(Index2D { x: (x + 1) as usize, y }) - heights(Index2D { x, y })
}

/// The rise of the elevation `heights` of a grid with `side` vertices on each axis from the
/// vertex at `coords` to the next vertex of its column.
pub open spec fn rise_along_y(heights: spec_fn(Index2D) -> i32, side: usize, coords: Index2D) -> int {
    let x = rise_origin(coords.x, side);
    let y = rise_origin(coords.y, side);
    heights(Index2D { x, y: (y + 1) as usize }) - heights(Index2D { x, y })
}

/// The square of the length of the normal of a surface that rises by `dx` along `x` and by
/// `dy` along `y`, where the normal is taken as (`-dx`, `-dy`, 128): two vertices lie 128
/// units of height apart.
pub open spec fn normal_length_squared(dx: int, dy: int) -> int {
    dx * dx + dy * dy + 16384
}

/// Whether `k` is the integer nearest to `127 * size / sqrt(squared)`, the larger one where
/// two are equally near.
pub open spec fn is_rounded_share(size: int, squared: int, k: int) -> bool {
    &&& 0 <= k
    &&& k > 0 ==> ((2 * k - 1) * (2 * k - 1)) * squared <= (254 * size) * (254 * size)
    &&& (254 * size) * (254 * size) < ((2 * k + 1) * (2 * k + 1)) * squared
}

/// The integer nearest to `127 * size / sqrt(squared)`.
pub open spec fn rounded_share(size: int, squared: int) -> int {
    choose|k: int| is_rounded_share(size, squared, k)
}

/// One part of a normal of length 127: the integer nearest to `127 * part / sqrt(squared)`,
/// the one further from zero where two are equally near.
pub open spec fn normal_part(part: int, squared: int) -> int {
    if part >= 0 {
        rounded_share(part, squared)
    } else {
        -rounded_share(-part, squared)
    }
}

/// The normal, with a length of 127, of the surface that the elevation `heights` of a grid
/// with `side` vertices on each axis makes at `coords`.
pub open spec fn vertex_normal(heights: spec_fn(Index2D) -> i32, side: usize, coords: Index2D) -> Vec3<
    i8,
> {
    let dx = rise_along_x(heights, side, coords);
    let dy = rise_along_y(heights, side, coords);
    let squared = normal_length_squared(dx, dy);
    Vec3 {
        x: normal_part(-dx, squared) as i8,
        y: normal_part(-dy, squared) as i8,
        z: normal_part(128, squared) as i8,
    }
}

/// Only one integer is nearest to `127 * size / sqrt(squared)` in the sense of
/// [is_rounded_share].
pub proof fn lemma_rounded_share_unique(size: int, squared: int, k: int, other: int)
    requires
        squared > 0,
        is_rounded_share(size, squared, k),
        is_rounded_share(size, squared, other),
    ensures
        k == other,
{
    if k < other {
        assert(((2 * other - 1) * (2 * other - 1)) * squared >= ((2 * k + 1) * (2 * k + 1))
            * squared) by (nonlinear_arith)
            requires
                0 <= k < other,
                squared > 0,
        ;
    } else if other < k {
        assert(((2 * k - 1) * (2 * k - 1)) * squared >= ((2 * other + 1) * (2 * other + 1))
            * squared) by (nonlinear_arith)
            requires
                0 <= other < k,
                squared > 0,
        ;
    }
}

/// Finds the integer nearest to `127 * size / sqrt(squared)`.
fn round_share(size: u64, squared: u128) -> (k: u8)
    requires
        size <= 0x1_0000_0000,
        size * size <= squared,
        0 < squared <= 0x4_0000_0000_0000_0000,
    ensures
        k == rounded_share(size as int, squared as int),
        k <= 127,
{
    let scaled: u128 = 254 * (size as u128);
    proof {
        assert(scaled * scaled <= 0xfe_0000_0000 * 0xfe_0000_0000) by (nonlinear_arith)
            requires
                scaled <= 0xfe_0000_0000,
        ;
        assert((254 * size) * (254 * size) == 64516 * (size * size)) by (nonlinear_arith);
    }
    let target: u128 = scaled * scaled;
    let mut k: u8 = 0;
    loop
        invariant
            k <= 127,
            target == (254 * size) * (254 * size),
            target <= 64516 * squared,
            0 < squared <= 0x4_0000_0000_0000_0000,
            k > 0 ==> ((2 * k - 1) * (2 * k - 1)) * squared <= target,
        ensures
            is_rounded_share(size as int, squared as int, k as int),
            k <= 127,
        decreases 127 - k,
    {
        let odd: u128 = 2 * (k as u128) + 1;
        proof {
            assert(odd * odd <= 255 * 255) by (nonlinear_arith)
                requires
                    odd <= 255,
            ;
            assert((odd * odd) * squared <= 65025 * 0x4_0000_0000_0000_0000) by (nonlinear_arith)
                requires
                    odd * odd <= 65025,
                    squared <= 0x4_0000_0000_0000_0000,
            ;
        }
        if target < odd * odd * squared {
            break ;
        }
        proof {
            if k == 127 {
                assert(odd * odd * squared == 65025 * squared) by (nonlinear_arith)
                    requires
                        odd == 255,
                ;
            }
        }
        k = k + 1;
    }
    proof {
        lemma_rounded_share_unique(
            size as int,
            squared as int,
            k as int,
            rounded_share(size as int, squared as int),
        );
    }
    k
}

/// Computes one part of a normal of length 127.
fn round_part(part: i64, squared: u128) -> (r: i8)
    requires
        -0x1_0000_0000 <= part <= 0x1_0000_0000,
        part * part <= squared,
        0 < squared <= 0x4_0000_0000_0000_0000,
    ensures
        r == normal_part(part as int, squared as int),
{
    if part >= 0 {
        round_share(part as u64, squared) as i8
    } else {
        proof {
            assert((-part) * (-part) == part * part) by (nonlinear_arith);
        }
        -(round_share((-part) as u64, squared) as i8)
    }
}

/// Creates the vertex normals of an elevation. The normal of a vertex is taken from the rise
/// of the elevation towards the next vertex of its row and of its column; the last vertex of
/// a row or a column takes the rise that leads to it.
pub fn calculate_vertex_normals_map<const T: usize>(height_map: &TerrainMap<i32, T>) -> (r:
    TerrainMap<Vec3<i8>, T>)
    requires
        T >= 2,
    ensures
        forall|p: Index2D|
            p.within(T) ==> (#[trigger] r[p]) == vertex_normal(|q: Index2D| height_map[q], T, p),
{
    let mut terrain: TerrainMap<Vec3<i8>, T> = height_map.uniform_like(Vec3::new(0i8, 0i8, 0i8));

    let mut y: usize = 0;
    while y < T
        invariant
            y <= T,
            T >= 2,
            forall|p: Index2D|
                p.within(T) && walked(p, 0, y) ==> (#[trigger] terrain[p]) == vertex_normal(
                    |q: Index2D| height_map[q],
                    T,
                    p,
                ),
        decreases T - y,
    {
        let mut x: usize = 0;
        while x < T
            invariant
                x <= T,
                y < T,
                T >= 2,
                forall|p: Index2D|
                    p.within(T) && walked(p, x, y) ==> (#[trigger] terrain[p]) == vertex_normal(
                        |q: Index2D| height_map[q],
                        T,
                        p,
                    ),
            decreases T - x,
        {
            let coords = Index2D::new(x, y);
            let fixed_x: usize = if x + 1 == T {
                x - 1
            } else {
                x
            };
            let fixed_y: usize = if y + 1 == T {
                y - 1
            } else {
                y
            };
            let h: i64 = height_map.at(Index2D::new(fixed_x, fixed_y)) as i64;
            let x1: i64 = height_map.at(Index2D::new(fixed_x + 1, fixed_y)) as i64;
            let y1: i64 = height_map.at(Index2D::new(fixed_x, fixed_y + 1)) as i64;
            let dx: i64 = x1 - h;
            let dy: i64 = y1 - h;
            let size_x: u128 = if dx < 0 {
                (-dx) as u128
            } else {
                dx as u128
            };
            let size_y: u128 = if dy < 0 {
                (-dy) as u128
            } else {
                dy as u128
            };
            proof {
                assert(size_x * size_x <= 0x1_0000_0000 * 0x1_0000_0000) by (nonlinear_arith)
                    requires
                        size_x <= 0x1_0000_0000,
                ;
                assert(size_y * size_y <= 0x1_0000_0000 * 0x1_0000_0000) by (nonlinear_arith)
                    requires
                        size_y <= 0x1_0000_0000,
                ;
                assert(size_x * size_x == dx * dx) by (nonlinear_arith)
                    requires
                        size_x == dx || size_x == -dx,
                ;
                assert(size_y * size_y == dy * dy) by (nonlinear_arith)
                    requires
                        size_y == dy || size_y == -dy,
                ;
                assert((-dx) * (-dx) == dx * dx) by (nonlinear_arith);
                assert((-dy) * (-dy) == dy * dy) by (nonlinear_arith);
            }
            let squared: u128 = size_x * size_x + size_y * size_y + 16384;
            let normal = Vec3::new(
                round_part(-dx, squared),
                round_part(-dy, squared),
                round_part(128, squared),
            );
            terrain.set(coords, normal);
            x = x + 1;
        }
        y = y + 1;
    }

    terrain
}

} // verus!
