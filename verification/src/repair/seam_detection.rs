use crate::land::grid_access::Index2D;
use crate::land::landscape_diff::LandscapeDiff;
use crate::land::terrain_map::Vec2;
use crate::landmass::LandmassDiff;
use crate::merge::relative_to::RelativeTo;
use std::collections::VecDeque;
use vstd::prelude::*;

verus! {

/// The index of the last vertex of a row or a column of a cell: cells that lie side by
/// side share the vertices of their borders, so that the last vertex of the one is the
/// first vertex of the other.
pub const LAST_VERTEX: usize = 64;

/// Whether `x` and `y` are the coordinates of a cell.
pub open spec fn is_cell(x: int, y: int) -> bool {
    i32::MIN <= x <= i32::MAX && i32::MIN <= y <= i32::MAX
}

/// The coordinates `x` and `y` of a cell.
pub open spec fn cell_at(x: int, y: int) -> Vec2<i32> {
    Vec2 { x: x as i32, y: y as i32 }
}

/// The elevation that the cell at `x` and `y` holds at `vertex`, if there is such a cell
/// and it holds any elevation.
pub open spec fn elevation(
    cells: Map<Vec2<i32>, LandscapeDiff>,
    x: int,
    y: int,
    vertex: Index2D,
) -> Option<i32> {
    if is_cell(x, y) && cells.dom().contains(cell_at(x, y)) {
        match cells[cell_at(x, y)].height_map {
            Some(map) => Some(map.value_at(vertex)),
            None => None,
        }
    } else {
        None
    }
}

/// Whether `vertex` is one of the four corners of a cell.
pub open spec fn is_corner(vertex: Index2D) -> bool {
    (vertex.x == 0 || vertex.x == LAST_VERTEX) && (vertex.y == 0 || vertex.y == LAST_VERTEX)
}

/// Whether `vertex` lies on the border of a cell.
pub open spec fn on_border(vertex: Index2D) -> bool {
    vertex.x == 0 || vertex.x == LAST_VERTEX || vertex.y == 0 || vertex.y == LAST_VERTEX
}

/// Two maps of cells differ in nothing but elevation: they hold the same cells, and a cell
/// of the one is the cell of the other but for the deltas of its elevation.
pub open spec fn same_but_elevation(
    before: Map<Vec2<i32>, LandscapeDiff>,
    after: Map<Vec2<i32>, LandscapeDiff>,
) -> bool {
    &&& after.dom() == before.dom()
    &&& forall|coords: Vec2<i32>| #[trigger]
        before.dom().contains(coords) ==> same_land_but_elevation(before[coords], after[coords])
}

/// Two landscape diffs differ in nothing but the deltas of their elevation.
pub open spec fn same_land_but_elevation(before: LandscapeDiff, after: LandscapeDiff) -> bool {
    &&& after.coords == before.coords
    &&& after.flags == before.flags
    &&& after.vertex_normals == before.vertex_normals
    &&& after.world_map_data == before.world_map_data
    &&& after.vertex_colors == before.vertex_colors
    &&& after.texture_indices == before.texture_indices
    &&& after.plugins == before.plugins
    &&& match (before.height_map, after.height_map) {
        (Some(old), Some(new)) => forall|p: Index2D|
            p.within(65) ==> #[trigger] new.reference_at(p) == old.reference_at(p),
        (None, None) => true,
        _ => false,
    }
}

/// What is left as it was where the elevation of the cell at `coords` is set at `vertex`.
pub open spec fn is_elevation_update(
    before: Map<Vec2<i32>, LandscapeDiff>,
    after: Map<Vec2<i32>, LandscapeDiff>,
    coords: Vec2<i32>,
    vertex: Index2D,
    value: i32,
) -> bool {
    &&& same_but_elevation(before, after)
    &&& elevation(after, coords.x as int, coords.y as int, vertex) == Some(value)
    &&& forall|x: int, y: int, p: Index2D|
        p.within(65) && !(x == coords.x && y == coords.y && p == vertex) ==> #[trigger] elevation(
            after,
            x,
            y,
            p,
        ) == elevation(before, x, y, p)
}

/// Reads the elevation that the cell at `coords` holds at `vertex`.
pub fn elevation_of(merged: &LandmassDiff, coords: Vec2<i32>, vertex: Index2D) -> (r: Option<i32>)
    requires
        vertex.within(65),
    ensures
        r == elevation(merged@, coords.x as int, coords.y as int, vertex),
{
    match merged.get(coords) {
        Some(land) => match &land.height_map {
            Some(height_map) => Some(height_map.get_value(vertex)),
            None => None,
        },
        None => None,
    }
}

/// Sets the elevation that the cell at `coords` holds at `vertex`.
/// Nothing happens where there is no such cell or it holds no elevation.
pub fn set_elevation(merged: &mut LandmassDiff, coords: Vec2<i32>, vertex: Index2D, value: i32)
    requires
        old(merged).wf(),
        vertex.within(65),
    ensures
        final(merged).wf(),
        final(merged).plugin == old(merged).plugin,
        elevation(old(merged)@, coords.x as int, coords.y as int, vertex).is_some()
            ==> is_elevation_update(old(merged)@, final(merged)@, coords, vertex, value),
        elevation(old(merged)@, coords.x as int, coords.y as int, vertex).is_none()
            ==> final(merged)@ == old(merged)@,
{
    let ghost before = merged@;
    match merged.remove(coords) {
        Some(mut land) => {
            let ghost old_land = land;
            match &mut land.height_map {
                Some(height_map) => {
                    height_map.set_value(vertex, value);
                },
                None => {},
            }
            merged.insert(coords, land);
            proof {
                if old_land.height_map.is_some() {
                    let after = merged@;
                    let old_map = old_land.height_map.unwrap();
                    let new_map = land.height_map.unwrap();
                    assert(after.dom() =~= before.dom());
                    assert forall|c: Vec2<i32>| #[trigger]
                        before.dom().contains(c) implies same_land_but_elevation(
                        before[c],
                        after[c],
                    ) by {
                        if c != coords {
                            assert(after[c] == before[c]);
                            lemma_same_land(before[c]);
                        }
                    }
                    assert forall|x: int, y: int, p: Index2D|
                        p.within(65) && !(x == coords.x && y == coords.y && p
                            == vertex) implies #[trigger] elevation(after, x, y, p) == elevation(
                        before,
                        x,
                        y,
                        p,
                    ) by {
                        if is_cell(x, y) && cell_at(x, y) == coords {
                            assert(new_map.difference_at(p) == old_map.difference_at(p));
                            assert(new_map.reference_at(p) == old_map.reference_at(p));
                        }
                    }
                } else {
                    assert(merged@ =~= before);
                }
            }
        },
        None => {
            proof {
                assert(merged@ =~= before);
            }
        },
    }
}

/// A landscape diff differs from itself in nothing.
pub proof fn lemma_same_land(land: LandscapeDiff)
    ensures
        same_land_but_elevation(land, land),
{
}

/// To differ in nothing but elevation carries over from one pair of maps to the next.
pub proof fn lemma_same_but_elevation_transitive(
    first: Map<Vec2<i32>, LandscapeDiff>,
    second: Map<Vec2<i32>, LandscapeDiff>,
    third: Map<Vec2<i32>, LandscapeDiff>,
)
    requires
        same_but_elevation(first, second),
        same_but_elevation(second, third),
    ensures
        same_but_elevation(first, third),
{
    assert forall|coords: Vec2<i32>| #[trigger]
        first.dom().contains(coords) implies same_land_but_elevation(
        first[coords],
        third[coords],
    ) by {
        assert(second.dom().contains(coords));
        assert(same_land_but_elevation(first[coords], second[coords]));
        assert(same_land_but_elevation(second[coords], third[coords]));
        match (first[coords].height_map, second[coords].height_map, third[coords].height_map) {
            (Some(a), Some(b), Some(c)) => {
                assert forall|p: Index2D| p.within(65) implies #[trigger] c.reference_at(p)
                    == a.reference_at(p) by {
                    assert(b.reference_at(p) == a.reference_at(p));
                }
            },
            _ => {},
        }
    }
}

/// The quotient of `sum` by `count`, rounded towards zero.
pub open spec fn truncated_quotient(sum: int, count: int) -> int {
    if sum >= 0 {
        sum / count
    } else {
        -((-sum) / count)
    }
}

/// The corner of a cell that lies `dx` cells to the left of and `dy` cells below the
/// point where four cells meet.
pub open spec fn slot_vertex(dx: int, dy: int) -> Index2D {
    Index2D {
        x: if dx == 1 {
            LAST_VERTEX
        } else {
            0
        },
        y: if dy == 1 {
            LAST_VERTEX
        } else {
            0
        },
    }
}

/// The `x` of the point where four cells meet that the corner `vertex` of a cell at `x` is.
pub open spec fn corner_x(x: int, vertex: Index2D) -> int {
    if vertex.x == LAST_VERTEX {
        x + 1
    } else {
        x
    }
}

/// The `y` of the point where four cells meet that the corner `vertex` of a cell at `y` is.
pub open spec fn corner_y(y: int, vertex: Index2D) -> int {
    if vertex.y == LAST_VERTEX {
        y + 1
    } else {
        y
    }
}

/// The elevation that the cell `dx` to the left of and `dy` below the point (`lx`, `ly`)
/// holds at the corner that is that point.
pub open spec fn corner_value(
    cells: Map<Vec2<i32>, LandscapeDiff>,
    lx: int,
    ly: int,
    dx: int,
    dy: int,
) -> Option<i32> {
    elevation(cells, lx - dx, ly - dy, slot_vertex(dx, dy))
}

/// An elevation as a term of a sum: nothing where there is none.
pub open spec fn amount(value: Option<i32>) -> int {
    match value {
        Some(value) => value as int,
        None => 0,
    }
}

/// An elevation as a term of a count.
pub open spec fn presence(value: Option<i32>) -> int {
    if value.is_some() {
        1
    } else {
        0
    }
}

/// The sum of the elevations that the cells around the point (`lx`, `ly`) hold there.
pub open spec fn corner_sum(cells: Map<Vec2<i32>, LandscapeDiff>, lx: int, ly: int) -> int {
    amount(corner_value(cells, lx, ly, 0, 0)) + amount(corner_value(cells, lx, ly, 1, 0))
        + amount(corner_value(cells, lx, ly, 0, 1)) + amount(corner_value(cells, lx, ly, 1, 1))
}

/// The number of cells around the point (`lx`, `ly`) that hold an elevation there.
pub open spec fn corner_count(cells: Map<Vec2<i32>, LandscapeDiff>, lx: int, ly: int) -> int {
    presence(corner_value(cells, lx, ly, 0, 0)) + presence(corner_value(cells, lx, ly, 1, 0))
        + presence(corner_value(cells, lx, ly, 0, 1)) + presence(corner_value(cells, lx, ly, 1, 1))
}

/// The average of the elevations that the cells around the point (`lx`, `ly`) hold there,
/// rounded towards zero.
pub open spec fn corner_average(cells: Map<Vec2<i32>, LandscapeDiff>, lx: int, ly: int) -> int {
    truncated_quotient(corner_sum(cells, lx, ly), corner_count(cells, lx, ly))
}

/// Whether `vertex` of the cell at `x` and `y` is the point (`lx`, `ly`).
pub open spec fn in_corner_group(lx: int, ly: int, x: int, y: int, vertex: Index2D) -> bool {
    is_corner(vertex) && corner_x(x, vertex) == lx && corner_y(y, vertex) == ly
}

/// The elevation of a vertex once the corner at the point (`lx`, `ly`) is repaired: every
/// cell that holds an elevation there holds the average of them all.
pub open spec fn corner_step(
    cells: Map<Vec2<i32>, LandscapeDiff>,
    lx: int,
    ly: int,
    x: int,
    y: int,
    vertex: Index2D,
) -> Option<i32> {
    if in_corner_group(lx, ly, x, y, vertex) && elevation(cells, x, y, vertex).is_some() {
        Some(corner_average(cells, lx, ly) as i32)
    } else {
        elevation(cells, x, y, vertex)
    }
}

/// The average of up to four elevations is an elevation.
pub proof fn lemma_corner_average_fits(cells: Map<Vec2<i32>, LandscapeDiff>, lx: int, ly: int)
    requires
        corner_count(cells, lx, ly) > 0,
    ensures
        i32::MIN <= corner_average(cells, lx, ly) <= i32::MAX,
{
    let sum = corner_sum(cells, lx, ly);
    let count = corner_count(cells, lx, ly);
    if count == 1 {
        assert(truncated_quotient(sum, 1) == sum);
    } else if count == 2 {
        assert(i32::MIN <= truncated_quotient(sum, 2) <= i32::MAX);
    } else if count == 3 {
        assert(i32::MIN <= truncated_quotient(sum, 3) <= i32::MAX);
    } else {
        assert(count == 4);
        assert(i32::MIN <= truncated_quotient(sum, 4) <= i32::MAX);
    }
}

/// Where all the cells around a point hold the same elevation there, that is their average.
pub proof fn lemma_corner_average_of_equals(
    cells: Map<Vec2<i32>, LandscapeDiff>,
    lx: int,
    ly: int,
    value: i32,
)
    requires
        corner_count(cells, lx, ly) > 0,
        corner_value(cells, lx, ly, 0, 0) matches Some(v) ==> v == value,
        corner_value(cells, lx, ly, 1, 0) matches Some(v) ==> v == value,
        corner_value(cells, lx, ly, 0, 1) matches Some(v) ==> v == value,
        corner_value(cells, lx, ly, 1, 1) matches Some(v) ==> v == value,
    ensures
        corner_average(cells, lx, ly) == value,
{
    let sum = corner_sum(cells, lx, ly);
    let count = corner_count(cells, lx, ly);
    if count == 1 {
        assert(sum == value);
        assert(truncated_quotient(sum, 1) == value);
    } else if count == 2 {
        assert(sum == 2 * value);
        assert(truncated_quotient(sum, 2) == value);
    } else if count == 3 {
        assert(sum == 3 * value);
        assert(truncated_quotient(sum, 3) == value);
    } else {
        assert(count == 4);
        assert(sum == 4 * value);
        assert(truncated_quotient(sum, 4) == value);
    }
}

/// Whether the repair of the corner at the point (`lx`, `ly`) changes the elevation that
/// the cell `dx` to the left of and `dy` below that point holds there, counted as a number:
/// the cell holds an elevation there, and another than the average.
pub open spec fn slot_repairs(
    cells: Map<Vec2<i32>, LandscapeDiff>,
    lx: int,
    ly: int,
    dx: int,
    dy: int,
) -> int {
    if corner_value(cells, lx, ly, dx, dy) matches Some(value) && value != corner_average(
        cells,
        lx,
        ly,
    ) {
        1
    } else {
        0
    }
}

/// The number of cells around the point (`lx`, `ly`) whose elevation there the repair of
/// that corner changes.
pub open spec fn corner_repairs(cells: Map<Vec2<i32>, LandscapeDiff>, lx: int, ly: int) -> int {
    slot_repairs(cells, lx, ly, 0, 0) + slot_repairs(cells, lx, ly, 1, 0) + slot_repairs(
        cells,
        lx,
        ly,
        0,
        1,
    ) + slot_repairs(cells, lx, ly, 1, 1)
}

/// The number of elevations that the repair of the four corners of the cell at `coords`
/// changes, in that cell and in the cells around these corners.
pub open spec fn cell_corner_repairs(cells: Map<Vec2<i32>, LandscapeDiff>, coords: Vec2<i32>) -> int {
    corner_repairs(cells, coords.x as int, coords.y as int) + corner_repairs(
        cells,
        coords.x + 1,
        coords.y as int,
    ) + corner_repairs(cells, coords.x + 1, coords.y + 1) + corner_repairs(
        cells,
        coords.x as int,
        coords.y + 1,
    )
}

/// Reads the elevation that the cell `dx` to the left of and `dy` below the point
/// (`lx`, `ly`) holds at the corner that is that point.
fn corner_value_of(merged: &LandmassDiff, lx: i64, ly: i64, dx: i64, dy: i64) -> (r: Option<i32>)
    requires
        i32::MIN <= lx <= i32::MAX + 1,
        i32::MIN <= ly <= i32::MAX + 1,
        0 <= dx <= 1,
        0 <= dy <= 1,
    ensures
        r == corner_value(merged@, lx as int, ly as int, dx as int, dy as int),
{
    let x: i64 = lx - dx;
    let y: i64 = ly - dy;
    if x < i32::MIN as i64 || x > i32::MAX as i64 || y < i32::MIN as i64 || y > i32::MAX as i64 {
        None
    } else {
        let vertex = Index2D::new(
            if dx == 1 {
                LAST_VERTEX
            } else {
                0
            },
            if dy == 1 {
                LAST_VERTEX
            } else {
                0
            },
        );
        elevation_of(merged, Vec2::new(x as i32, y as i32), vertex)
    }
}

/// Writes `average` to the corner that is the point (`lx`, `ly`) of the cell `dx` to the
/// left of and `dy` below that point, where the cell holds another elevation there, and
/// counts the repair.
fn repair_corner_of(
    merged: &mut LandmassDiff,
    lx: i64,
    ly: i64,
    dx: i64,
    dy: i64,
    average: i32,
    num_seams_repaired: &mut usize,
)
    requires
        old(merged).wf(),
        i32::MIN <= lx <= i32::MAX + 1,
        i32::MIN <= ly <= i32::MAX + 1,
        0 <= dx <= 1,
        0 <= dy <= 1,
        *old(num_seams_repaired) < usize::MAX,
    ensures
        final(merged).wf(),
        final(merged).plugin == old(merged).plugin,
        same_but_elevation(old(merged)@, final(merged)@),
        forall|x: int, y: int, p: Index2D|
            p.within(65) ==> #[trigger] elevation(final(merged)@, x, y, p) == if x == lx - dx && y
                == ly - dy && p == slot_vertex(dx as int, dy as int) && elevation(
                old(merged)@,
                x,
                y,
                p,
            ).is_some() {
                Some(average)
            } else {
                elevation(old(merged)@, x, y, p)
            },
        *final(num_seams_repaired) == *old(num_seams_repaired) + if corner_value(
            old(merged)@,
            lx as int,
            ly as int,
            dx as int,
            dy as int,
        ) matches Some(v) && v != average {
            1int
        } else {
            0int
        },
{
    let x: i64 = lx - dx;
    let y: i64 = ly - dy;
    proof {
        lemma_same_cells(merged@);
    }
    if x < i32::MIN as i64 || x > i32::MAX as i64 || y < i32::MIN as i64 || y > i32::MAX as i64 {
        return ;
    }
    let vertex = Index2D::new(
        if dx == 1 {
            LAST_VERTEX
        } else {
            0
        },
        if dy == 1 {
            LAST_VERTEX
        } else {
            0
        },
    );
    let coords = Vec2::new(x as i32, y as i32);
    match elevation_of(merged, coords, vertex) {
        Some(value) => {
            if value != average {
                set_elevation(merged, coords, vertex, average);
                *num_seams_repaired = *num_seams_repaired + 1;
            }
        },
        None => {},
    }
}

/// A map of cells differs from itself in nothing.
pub proof fn lemma_same_cells(cells: Map<Vec2<i32>, LandscapeDiff>)
    ensures
        same_but_elevation(cells, cells),
{
    assert forall|coords: Vec2<i32>| #[trigger]
        cells.dom().contains(coords) implies same_land_but_elevation(
        cells[coords],
        cells[coords],
    ) by {
        lemma_same_land(cells[coords]);
    }
}

/// Repairs the corner at the point (`lx`, `ly`): every cell around it that holds an
/// elevation there is given the average of them all.
fn repair_corner(merged: &mut LandmassDiff, lx: i64, ly: i64, num_seams_repaired: &mut usize)
    requires
        old(merged).wf(),
        i32::MIN <= lx <= i32::MAX + 1,
        i32::MIN <= ly <= i32::MAX + 1,
        *old(num_seams_repaired) + 4 <= usize::MAX,
    ensures
        final(merged).wf(),
        final(merged).plugin == old(merged).plugin,
        same_but_elevation(old(merged)@, final(merged)@),
        forall|x: int, y: int, p: Index2D|
            p.within(65) ==> #[trigger] elevation(final(merged)@, x, y, p) == corner_step(
                old(merged)@,
                lx as int,
                ly as int,
                x,
                y,
                p,
            ),
        *final(num_seams_repaired) == *old(num_seams_repaired) + corner_repairs(
            old(merged)@,
            lx as int,
            ly as int,
        ),
        *old(num_seams_repaired) <= *final(num_seams_repaired) <= *old(num_seams_repaired) + 4,
        *final(num_seams_repaired) == *old(num_seams_repaired) <==> forall|
            x: int,
            y: int,
            p: Index2D,
        |
            p.within(65) ==> #[trigger] elevation(final(merged)@, x, y, p) == elevation(
                old(merged)@,
                x,
                y,
                p,
            ),
{
    let ghost before = merged@;
    let first = corner_value_of(merged, lx, ly, 0, 0);
    let second = corner_value_of(merged, lx, ly, 1, 0);
    let third = corner_value_of(merged, lx, ly, 0, 1);
    let fourth = corner_value_of(merged, lx, ly, 1, 1);

    let mut sum: i64 = 0;
    let mut num_values: i64 = 0;
    if let Some(value) = first {
        sum = sum + value as i64;
        num_values = num_values + 1;
    }
    if let Some(value) = second {
        sum = sum + value as i64;
        num_values = num_values + 1;
    }
    if let Some(value) = third {
        sum = sum + value as i64;
        num_values = num_values + 1;
    }
    if let Some(value) = fourth {
        sum = sum + value as i64;
        num_values = num_values + 1;
    }
    proof {
        lemma_same_cells(before);
        assert(sum == corner_sum(before, lx as int, ly as int));
        assert(num_values == corner_count(before, lx as int, ly as int));
    }
    if num_values > 0 {
        proof {
            lemma_corner_average_fits(before, lx as int, ly as int);
        }
        let average: i32 = (sum / num_values) as i32;
        assert(average == corner_average(before, lx as int, ly as int));

        repair_corner_of(merged, lx, ly, 0, 0, average, num_seams_repaired);
        let ghost after_first = merged@;
        repair_corner_of(merged, lx, ly, 1, 0, average, num_seams_repaired);
        let ghost after_second = merged@;
        repair_corner_of(merged, lx, ly, 0, 1, average, num_seams_repaired);
        let ghost after_third = merged@;
        repair_corner_of(merged, lx, ly, 1, 1, average, num_seams_repaired);
        proof {
            let after = merged@;
            lemma_same_but_elevation_transitive(before, after_first, after_second);
            lemma_same_but_elevation_transitive(before, after_second, after_third);
            lemma_same_but_elevation_transitive(before, after_third, after);
            assert(corner_value(after_first, lx as int, ly as int, 1, 0) == second);
            assert(corner_value(after_second, lx as int, ly as int, 0, 1) == third);
            assert(corner_value(after_third, lx as int, ly as int, 1, 1) == fourth);
            assert(*num_seams_repaired == *old(num_seams_repaired) + corner_repairs(
                before,
                lx as int,
                ly as int,
            ));
            assert forall|x: int, y: int, p: Index2D| p.within(65) implies #[trigger] elevation(
                after,
                x,
                y,
                p,
            ) == corner_step(before, lx as int, ly as int, x, y, p) by {
                assert(elevation(after_first, x, y, p) == if x == lx - 0 && y == ly - 0 && p
                    == slot_vertex(0, 0) && elevation(before, x, y, p).is_some() {
                    Some(average)
                } else {
                    elevation(before, x, y, p)
                });
                assert(elevation(after_second, x, y, p) == if x == lx - 1 && y == ly - 0 && p
                    == slot_vertex(1, 0) && elevation(after_first, x, y, p).is_some() {
                    Some(average)
                } else {
                    elevation(after_first, x, y, p)
                });
                assert(elevation(after_third, x, y, p) == if x == lx - 0 && y == ly - 1 && p
                    == slot_vertex(0, 1) && elevation(after_second, x, y, p).is_some() {
                    Some(average)
                } else {
                    elevation(after_second, x, y, p)
                });
            }
            if *num_seams_repaired == *old(num_seams_repaired) {
                assert forall|x: int, y: int, p: Index2D| p.within(65) implies #[trigger] elevation(
                    after,
                    x,
                    y,
                    p,
                ) == elevation(before, x, y, p) by {
                    assert(elevation(after, x, y, p) == corner_step(
                        before,
                        lx as int,
                        ly as int,
                        x,
                        y,
                        p,
                    ));
                }
            } else {
                let (dx, dy): (int, int) = if first matches Some(v) && v != average {
                    (0, 0)
                } else if second matches Some(v) && v != average {
                    (1, 0)
                } else if third matches Some(v) && v != average {
                    (0, 1)
                } else {
                    (1, 1)
                };
                assert(corner_value(after_first, lx as int, ly as int, 1, 0) == second);
                assert(corner_value(after_second, lx as int, ly as int, 0, 1) == third);
                assert(corner_value(after_third, lx as int, ly as int, 1, 1) == fourth);
                let p = slot_vertex(dx, dy);
                assert(elevation(after, lx - dx, ly - dy, p) == corner_step(
                    before,
                    lx as int,
                    ly as int,
                    lx - dx,
                    ly - dy,
                    p,
                ));
                assert(elevation(after, lx - dx, ly - dy, p) != elevation(
                    before,
                    lx - dx,
                    ly - dy,
                    p,
                ));
            }
        }
    } else {
        proof {
            assert forall|x: int, y: int, p: Index2D| p.within(65) implies #[trigger] elevation(
                before,
                x,
                y,
                p,
            ) == corner_step(before, lx as int, ly as int, x, y, p) by {
                if in_corner_group(lx as int, ly as int, x, y, p) {
                    assert(p == slot_vertex(lx - x, ly - y));
                    assert(elevation(before, x, y, p) == corner_value(
                        before,
                        lx as int,
                        ly as int,
                        lx - x,
                        ly - y,
                    ));
                }
            }
        }
    }
}

/// Whether the point (`lx`, `ly`) is one of the four corners of the cell at `coords`.
pub open spec fn touches(coords: Vec2<i32>, lx: int, ly: int) -> bool {
    (lx == coords.x || lx == coords.x + 1) && (ly == coords.y || ly == coords.y + 1)
}

/// The elevation of a vertex once the four corners of the cell at `coords` are repaired.
pub open spec fn cell_corner_step(
    cells: Map<Vec2<i32>, LandscapeDiff>,
    coords: Vec2<i32>,
    x: int,
    y: int,
    vertex: Index2D,
) -> Option<i32> {
    if is_corner(vertex) && touches(coords, corner_x(x, vertex), corner_y(y, vertex))
        && elevation(cells, x, y, vertex).is_some() {
        Some(corner_average(cells, corner_x(x, vertex), corner_y(y, vertex)) as i32)
    } else {
        elevation(cells, x, y, vertex)
    }
}

/// `after` is `before` with the corner at the point (`lx`, `ly`) repaired.
pub open spec fn is_corner_step(
    before: Map<Vec2<i32>, LandscapeDiff>,
    after: Map<Vec2<i32>, LandscapeDiff>,
    lx: int,
    ly: int,
) -> bool {
    forall|x: int, y: int, p: Index2D|
        p.within(65) ==> #[trigger] elevation(after, x, y, p) == corner_step(
            before,
            lx,
            ly,
            x,
            y,
            p,
        )
}

/// The repair of a corner leaves the cells round every other point as they were, and so
/// the average of their elevations there.
pub proof fn lemma_corner_step_keeps_others(
    before: Map<Vec2<i32>, LandscapeDiff>,
    after: Map<Vec2<i32>, LandscapeDiff>,
    lx: int,
    ly: int,
    mx: int,
    my: int,
)
    requires
        is_corner_step(before, after, lx, ly),
        lx != mx || ly != my,
    ensures
        corner_value(after, mx, my, 0, 0) == corner_value(before, mx, my, 0, 0),
        corner_value(after, mx, my, 1, 0) == corner_value(before, mx, my, 1, 0),
        corner_value(after, mx, my, 0, 1) == corner_value(before, mx, my, 0, 1),
        corner_value(after, mx, my, 1, 1) == corner_value(before, mx, my, 1, 1),
        corner_average(after, mx, my) == corner_average(before, mx, my),
{
    assert(elevation(after, mx - 0, my - 0, slot_vertex(0, 0)) == corner_step(
        before,
        lx,
        ly,
        mx - 0,
        my - 0,
        slot_vertex(0, 0),
    ));
    assert(elevation(after, mx - 1, my - 0, slot_vertex(1, 0)) == corner_step(
        before,
        lx,
        ly,
        mx - 1,
        my - 0,
        slot_vertex(1, 0),
    ));
    assert(elevation(after, mx - 0, my - 1, slot_vertex(0, 1)) == corner_step(
        before,
        lx,
        ly,
        mx - 0,
        my - 1,
        slot_vertex(0, 1),
    ));
    assert(elevation(after, mx - 1, my - 1, slot_vertex(1, 1)) == corner_step(
        before,
        lx,
        ly,
        mx - 1,
        my - 1,
        slot_vertex(1, 1),
    ));
}

/// The repair of a corner leaves the number of repairs that every other corner asks for.
pub proof fn lemma_corner_repairs_kept(
    before: Map<Vec2<i32>, LandscapeDiff>,
    after: Map<Vec2<i32>, LandscapeDiff>,
    lx: int,
    ly: int,
    mx: int,
    my: int,
)
    requires
        is_corner_step(before, after, lx, ly),
        lx != mx || ly != my,
    ensures
        corner_repairs(after, mx, my) == corner_repairs(before, mx, my),
{
    lemma_corner_step_keeps_others(before, after, lx, ly, mx, my);
}

/// Repairs corner seams by averaging their values together, and counts one repair for
/// every elevation that changes.
#[verifier::rlimit(40)]
pub fn repair_corner_seams(
    merged: &mut LandmassDiff,
    coords: Vec2<i32>,
    num_seams_repaired: &mut usize,
)
    requires
        old(merged).wf(),
        *old(num_seams_repaired) + 16 <= usize::MAX,
    ensures
        final(merged).wf(),
        final(merged).plugin == old(merged).plugin,
        same_but_elevation(old(merged)@, final(merged)@),
        forall|x: int, y: int, p: Index2D|
            p.within(65) ==> #[trigger] elevation(final(merged)@, x, y, p) == cell_corner_step(
                old(merged)@,
                coords,
                x,
                y,
                p,
            ),
        *final(num_seams_repaired) == *old(num_seams_repaired) + cell_corner_repairs(
            old(merged)@,
            coords,
        ),
        *old(num_seams_repaired) <= *final(num_seams_repaired) <= *old(num_seams_repaired) + 16,
        *final(num_seams_repaired) == *old(num_seams_repaired) <==> forall|
            x: int,
            y: int,
            p: Index2D,
        |
            p.within(65) ==> #[trigger] elevation(final(merged)@, x, y, p) == elevation(
                old(merged)@,
                x,
                y,
                p,
            ),
{
    let ghost s0 = merged@;
    let ghost n0 = *num_seams_repaired;
    let x0: i64 = coords.x as i64;
    let y0: i64 = coords.y as i64;
    repair_corner(merged, x0, y0, num_seams_repaired);
    let ghost s1 = merged@;
    let ghost n1 = *num_seams_repaired;
    repair_corner(merged, x0 + 1, y0, num_seams_repaired);
    let ghost s2 = merged@;
    let ghost n2 = *num_seams_repaired;
    repair_corner(merged, x0 + 1, y0 + 1, num_seams_repaired);
    let ghost s3 = merged@;
    let ghost n3 = *num_seams_repaired;
    repair_corner(merged, x0, y0 + 1, num_seams_repaired);
    proof {
        let s4 = merged@;
        let n4 = *num_seams_repaired;
        lemma_same_but_elevation_transitive(s0, s1, s2);
        lemma_same_but_elevation_transitive(s0, s2, s3);
        lemma_same_but_elevation_transitive(s0, s3, s4);
        lemma_corner_step_keeps_others(s0, s1, x0 as int, y0 as int, x0 + 1, y0 as int);
        lemma_corner_step_keeps_others(s0, s1, x0 as int, y0 as int, x0 + 1, y0 + 1);
        lemma_corner_step_keeps_others(s0, s1, x0 as int, y0 as int, x0 as int, y0 + 1);
        lemma_corner_step_keeps_others(s1, s2, x0 + 1, y0 as int, x0 + 1, y0 + 1);
        lemma_corner_step_keeps_others(s1, s2, x0 + 1, y0 as int, x0 as int, y0 + 1);
        lemma_corner_step_keeps_others(s2, s3, x0 + 1, y0 + 1, x0 as int, y0 + 1);
        assert(n4 == n0 + cell_corner_repairs(s0, coords)) by {
            lemma_corner_repairs_kept(s0, s1, x0 as int, y0 as int, x0 + 1, y0 as int);
            lemma_corner_repairs_kept(s0, s1, x0 as int, y0 as int, x0 + 1, y0 + 1);
            lemma_corner_repairs_kept(s0, s1, x0 as int, y0 as int, x0 as int, y0 + 1);
            lemma_corner_repairs_kept(s1, s2, x0 + 1, y0 as int, x0 + 1, y0 + 1);
            lemma_corner_repairs_kept(s1, s2, x0 + 1, y0 as int, x0 as int, y0 + 1);
            lemma_corner_repairs_kept(s2, s3, x0 + 1, y0 + 1, x0 as int, y0 + 1);
            assert(n1 == n0 + corner_repairs(s0, x0 as int, y0 as int));
            assert(n2 == n1 + corner_repairs(s0, x0 + 1, y0 as int));
            assert(n3 == n2 + corner_repairs(s0, x0 + 1, y0 + 1));
            assert(n4 == n3 + corner_repairs(s0, x0 as int, y0 + 1));
        }
        assert forall|x: int, y: int, p: Index2D| p.within(65) implies #[trigger] elevation(
            s4,
            x,
            y,
            p,
        ) == cell_corner_step(s0, coords, x, y, p) by {
            assert(elevation(s1, x, y, p) == corner_step(s0, x0 as int, y0 as int, x, y, p));
            assert(elevation(s2, x, y, p) == corner_step(s1, x0 + 1, y0 as int, x, y, p));
            assert(elevation(s3, x, y, p) == corner_step(s2, x0 + 1, y0 + 1, x, y, p));
            assert(elevation(s4, x, y, p) == corner_step(s3, x0 as int, y0 + 1, x, y, p));
        }
        if forall|x: int, y: int, p: Index2D|
            p.within(65) ==> #[trigger] elevation(s4, x, y, p) == elevation(s0, x, y, p) {
            assert forall|x: int, y: int, p: Index2D| p.within(65) implies #[trigger] elevation(
                s1,
                x,
                y,
                p,
            ) == elevation(s0, x, y, p) by {
                assert(elevation(s4, x, y, p) == elevation(s0, x, y, p));
                assert(elevation(s1, x, y, p) == corner_step(s0, x0 as int, y0 as int, x, y, p));
                assert(elevation(s2, x, y, p) == corner_step(s1, x0 + 1, y0 as int, x, y, p));
                assert(elevation(s3, x, y, p) == corner_step(s2, x0 + 1, y0 + 1, x, y, p));
                assert(elevation(s4, x, y, p) == corner_step(s3, x0 as int, y0 + 1, x, y, p));
            }
            assert forall|x: int, y: int, p: Index2D| p.within(65) implies #[trigger] elevation(
                s2,
                x,
                y,
                p,
            ) == elevation(s1, x, y, p) by {
                assert(elevation(s4, x, y, p) == elevation(s0, x, y, p));
                assert(elevation(s1, x, y, p) == elevation(s0, x, y, p));
                assert(elevation(s2, x, y, p) == corner_step(s1, x0 + 1, y0 as int, x, y, p));
                assert(elevation(s3, x, y, p) == corner_step(s2, x0 + 1, y0 + 1, x, y, p));
                assert(elevation(s4, x, y, p) == corner_step(s3, x0 as int, y0 + 1, x, y, p));
            }
            assert forall|x: int, y: int, p: Index2D| p.within(65) implies #[trigger] elevation(
                s3,
                x,
                y,
                p,
            ) == elevation(s2, x, y, p) by {
                assert(elevation(s4, x, y, p) == elevation(s0, x, y, p));
                assert(elevation(s1, x, y, p) == elevation(s0, x, y, p));
                assert(elevation(s2, x, y, p) == elevation(s1, x, y, p));
                assert(elevation(s3, x, y, p) == corner_step(s2, x0 + 1, y0 + 1, x, y, p));
                assert(elevation(s4, x, y, p) == corner_step(s3, x0 as int, y0 + 1, x, y, p));
            }
            assert forall|x: int, y: int, p: Index2D| p.within(65) implies #[trigger] elevation(
                s4,
                x,
                y,
                p,
            ) == elevation(s3, x, y, p) by {
                assert(elevation(s4, x, y, p) == elevation(s0, x, y, p));
                assert(elevation(s1, x, y, p) == elevation(s0, x, y, p));
                assert(elevation(s2, x, y, p) == elevation(s1, x, y, p));
                assert(elevation(s3, x, y, p) == elevation(s2, x, y, p));
            }
            assert(n4 == n0);
        }
        if n4 == n0 {
            assert forall|x: int, y: int, p: Index2D| p.within(65) implies #[trigger] elevation(
                s4,
                x,
                y,
                p,
            ) == elevation(s0, x, y, p) by {
                assert(elevation(s1, x, y, p) == elevation(s0, x, y, p));
                assert(elevation(s2, x, y, p) == elevation(s1, x, y, p));
                assert(elevation(s3, x, y, p) == elevation(s2, x, y, p));
                assert(elevation(s4, x, y, p) == elevation(s3, x, y, p));
            }
        }
    }
}

/// Whether `vertex` lies on the border of a cell and is none of its corners.
pub open spec fn is_edge_vertex(vertex: Index2D) -> bool {
    vertex.within(65) && on_border(vertex) && !is_corner(vertex)
}

/// The `x` of the cell that shares the vertex `vertex` of the border of a cell at `x`.
pub open spec fn partner_x(x: int, vertex: Index2D) -> int {
    if vertex.x == 0 {
        x - 1
    } else if vertex.x == LAST_VERTEX {
        x + 1
    } else {
        x
    }
}

/// The `y` of the cell that shares the vertex `vertex` of the border of a cell at `y`.
pub open spec fn partner_y(y: int, vertex: Index2D) -> int {
    if vertex.x == 0 || vertex.x == LAST_VERTEX {
        y
    } else if vertex.y == 0 {
        y - 1
    } else if vertex.y == LAST_VERTEX {
        y + 1
    } else {
        y
    }
}

/// The vertex of the neighbouring cell that is the vertex `vertex` of the border of a cell.
pub open spec fn partner_vertex(vertex: Index2D) -> Index2D {
    if vertex.x == 0 {
        Index2D { x: LAST_VERTEX, y: vertex.y }
    } else if vertex.x == LAST_VERTEX {
        Index2D { x: 0, y: vertex.y }
    } else if vertex.y == 0 {
        Index2D { x: vertex.x, y: LAST_VERTEX }
    } else {
        Index2D { x: vertex.x, y: 0 }
    }
}

/// The average of the two elevations of a vertex that two cells share, rounded towards
/// zero.
pub open spec fn edge_average(own: i32, other: i32) -> i32 {
    truncated_quotient(own + other, 2) as i32
}

/// The elevation of a vertex of the border of a cell once the seam that it lies on is
/// repaired: where the neighbouring cell holds an elevation there too, the average of the
/// two.
pub open spec fn edge_repaired(
    cells: Map<Vec2<i32>, LandscapeDiff>,
    x: int,
    y: int,
    vertex: Index2D,
) -> Option<i32> {
    match elevation(cells, x, y, vertex) {
        Some(own) => match elevation(
            cells,
            partner_x(x, vertex),
            partner_y(y, vertex),
            partner_vertex(vertex),
        ) {
            Some(other) => Some(edge_average(own, other)),
            None => Some(own),
        },
        None => None,
    }
}

/// Whether `rhs` is the cell to the right of `lhs` or the cell above it.
pub open spec fn is_seam_pair(lhs: Vec2<i32>, rhs: Vec2<i32>) -> bool {
    (rhs.x == lhs.x + 1 && rhs.y == lhs.y) || (rhs.x == lhs.x && rhs.y == lhs.y + 1)
}

/// Whether `vertex` of the cell at `x` and `y` lies on the seam between `lhs` and `rhs`.
pub open spec fn in_seam(lhs: Vec2<i32>, rhs: Vec2<i32>, x: int, y: int, vertex: Index2D) -> bool {
    is_edge_vertex(vertex) && ((x == lhs.x && y == lhs.y && partner_x(x, vertex) == rhs.x
        && partner_y(y, vertex) == rhs.y) || (x == rhs.x && y == rhs.y && partner_x(x, vertex)
        == lhs.x && partner_y(y, vertex) == lhs.y))
}

/// The elevation of a vertex once the seam between `lhs` and `rhs` is repaired.
pub open spec fn seam_step(
    cells: Map<Vec2<i32>, LandscapeDiff>,
    lhs: Vec2<i32>,
    rhs: Vec2<i32>,
    x: int,
    y: int,
    vertex: Index2D,
) -> Option<i32> {
    if in_seam(lhs, rhs, x, y, vertex) {
        edge_repaired(cells, x, y, vertex)
    } else {
        elevation(cells, x, y, vertex)
    }
}

/// The place along its seam of a vertex of the seam between `lhs` and `rhs`.
pub open spec fn seam_index(lhs: Vec2<i32>, rhs: Vec2<i32>, vertex: Index2D) -> int {
    if lhs.x == rhs.x {
        vertex.x as int
    } else {
        vertex.y as int
    }
}

/// A vertex of a seam: the two cells of the seam, first the left one or the lower one, and
/// the place of the vertex along the seam.
pub type SeamPlace = (Vec2<i32>, Vec2<i32>, int);

/// The vertex of the cell `lhs` that lies at the place `index` of its seam with `rhs`.
pub open spec fn seam_vertex_of(lhs: Vec2<i32>, rhs: Vec2<i32>, index: int) -> Index2D {
    if lhs.x == rhs.x {
        Index2D { x: index as usize, y: LAST_VERTEX }
    } else {
        Index2D { x: LAST_VERTEX, y: index as usize }
    }
}

/// The vertex of the cell `rhs` that lies at the place `index` of its seam with `lhs`.
pub open spec fn seam_partner_of(lhs: Vec2<i32>, rhs: Vec2<i32>, index: int) -> Index2D {
    if lhs.x == rhs.x {
        Index2D { x: index as usize, y: 0 }
    } else {
        Index2D { x: 0, y: index as usize }
    }
}

/// Whether the cells `lhs` and `rhs` both hold an elevation at the place `index` of their
/// seam, and not the same.
pub open spec fn differs_at(
    cells: Map<Vec2<i32>, LandscapeDiff>,
    lhs: Vec2<i32>,
    rhs: Vec2<i32>,
    index: int,
) -> bool {
    elevation(cells, lhs.x as int, lhs.y as int, seam_vertex_of(lhs, rhs, index)) matches Some(
        own,
    ) && elevation(cells, rhs.x as int, rhs.y as int, seam_partner_of(lhs, rhs, index)) matches Some(
        other,
    ) && own != other
}

/// The places from 1 to `count` of the seam between `lhs` and `rhs` at which the two cells
/// hold different elevations.
pub open spec fn seam_differences_until(
    cells: Map<Vec2<i32>, LandscapeDiff>,
    lhs: Vec2<i32>,
    rhs: Vec2<i32>,
    count: int,
) -> Set<SeamPlace> {
    Set::new(
        |place: SeamPlace|
            place.0 == lhs && place.1 == rhs && 1 <= place.2 <= count && differs_at(
                cells,
                lhs,
                rhs,
                place.2,
            ),
    )
}

/// The places of the seam between `lhs` and `rhs`, corners left out, at which the two cells
/// hold different elevations.
pub open spec fn seam_differences(
    cells: Map<Vec2<i32>, LandscapeDiff>,
    lhs: Vec2<i32>,
    rhs: Vec2<i32>,
) -> Set<SeamPlace> {
    seam_differences_until(cells, lhs, rhs, LAST_VERTEX - 1)
}

/// No place of a seam comes before its first place.
pub proof fn lemma_seam_differences_start(
    cells: Map<Vec2<i32>, LandscapeDiff>,
    lhs: Vec2<i32>,
    rhs: Vec2<i32>,
)
    ensures
        seam_differences_until(cells, lhs, rhs, 0).finite(),
        seam_differences_until(cells, lhs, rhs, 0).len() == 0,
{
    assert(seam_differences_until(cells, lhs, rhs, 0) =~= Set::<SeamPlace>::empty());
}

/// One more place of a seam counts where the two cells differ at it.
pub proof fn lemma_seam_differences_step(
    cells: Map<Vec2<i32>, LandscapeDiff>,
    lhs: Vec2<i32>,
    rhs: Vec2<i32>,
    count: int,
)
    requires
        1 <= count,
        seam_differences_until(cells, lhs, rhs, count - 1).finite(),
    ensures
        seam_differences_until(cells, lhs, rhs, count).finite(),
        seam_differences_until(cells, lhs, rhs, count).len() == seam_differences_until(
            cells,
            lhs,
            rhs,
            count - 1,
        ).len() + if differs_at(cells, lhs, rhs, count) {
            1int
        } else {
            0int
        },
{
    let before = seam_differences_until(cells, lhs, rhs, count - 1);
    let after = seam_differences_until(cells, lhs, rhs, count);
    if differs_at(cells, lhs, rhs, count) {
        assert(!before.contains((lhs, rhs, count)));
        assert(after =~= before.insert((lhs, rhs, count)));
    } else {
        assert(after =~= before);
    }
}

/// Repairs a seam shared by two cells along a side: wherever the two cells hold different
/// elevations at a vertex of the seam that is no corner, both are given the average.
/// One repair is counted for every such vertex.
pub fn repair_seam(
    merged: &mut LandmassDiff,
    lhs: Vec2<i32>,
    rhs: Vec2<i32>,
    num_seams_repaired: &mut usize,
)
    requires
        old(merged).wf(),
        is_seam_pair(lhs, rhs),
        *old(num_seams_repaired) + 63 <= usize::MAX,
    ensures
        final(merged).wf(),
        final(merged).plugin == old(merged).plugin,
        same_but_elevation(old(merged)@, final(merged)@),
        forall|x: int, y: int, p: Index2D|
            p.within(65) ==> #[trigger] elevation(final(merged)@, x, y, p) == seam_step(
                old(merged)@,
                lhs,
                rhs,
                x,
                y,
                p,
            ),
        seam_differences(old(merged)@, lhs, rhs).finite(),
        *final(num_seams_repaired) == *old(num_seams_repaired) + seam_differences(
            old(merged)@,
            lhs,
            rhs,
        ).len(),
        *old(num_seams_repaired) <= *final(num_seams_repaired) <= *old(num_seams_repaired) + 63,
        *final(num_seams_repaired) == *old(num_seams_repaired) <==> forall|
            x: int,
            y: int,
            p: Index2D,
        |
            p.within(65) ==> #[trigger] elevation(final(merged)@, x, y, p) == elevation(
                old(merged)@,
                x,
                y,
                p,
            ),
{
    let ghost s0 = merged@;
    let ghost n0 = *num_seams_repaired;
    proof {
        lemma_same_cells(s0);
    }
    let origin = Index2D::new(0, 0);
    if elevation_of(merged, lhs, origin).is_none() || elevation_of(merged, rhs, origin).is_none() {
        proof {
            assert(seam_differences(s0, lhs, rhs) =~= Set::<SeamPlace>::empty());
        }
        return ;
    }
    proof {
        lemma_seam_differences_start(s0, lhs, rhs);
    }
    let is_top_seam = lhs.x == rhs.x;
    let ghost mut witness: (int, int, Index2D) = (0, 0, origin);
    let mut index: usize = 1;
    while index < LAST_VERTEX
        invariant
            1 <= index <= LAST_VERTEX,
            is_seam_pair(lhs, rhs),
            is_top_seam == (lhs.x == rhs.x),
            merged.wf(),
            merged.plugin == old(merged).plugin,
            same_but_elevation(s0, merged@),
            elevation(s0, lhs.x as int, lhs.y as int, origin).is_some(),
            elevation(s0, rhs.x as int, rhs.y as int, origin).is_some(),
            forall|x: int, y: int, p: Index2D|
                p.within(65) ==> #[trigger] elevation(merged@, x, y, p) == if in_seam(
                    lhs,
                    rhs,
                    x,
                    y,
                    p,
                ) && seam_index(lhs, rhs, p) < index {
                    edge_repaired(s0, x, y, p)
                } else {
                    elevation(s0, x, y, p)
                },
            n0 <= *num_seams_repaired <= n0 + (index - 1),
            n0 + 63 <= usize::MAX,
            seam_differences_until(s0, lhs, rhs, index - 1).finite(),
            *num_seams_repaired == n0 + seam_differences_until(s0, lhs, rhs, index - 1).len(),
            *num_seams_repaired == n0 ==> forall|x: int, y: int, p: Index2D|
                p.within(65) ==> #[trigger] elevation(merged@, x, y, p) == elevation(s0, x, y, p),
            *num_seams_repaired > n0 ==> witness.2.within(65) && in_seam(
                lhs,
                rhs,
                witness.0,
                witness.1,
                witness.2,
            ) && seam_index(lhs, rhs, witness.2) < index && edge_repaired(
                s0,
                witness.0,
                witness.1,
                witness.2,
            ) != elevation(s0, witness.0, witness.1, witness.2),
        decreases LAST_VERTEX - index,
    {
        let lhs_coord = if is_top_seam {
            Index2D::new(index, LAST_VERTEX)
        } else {
            Index2D::new(LAST_VERTEX, index)
        };
        let rhs_coord = if is_top_seam {
            Index2D::new(index, 0)
        } else {
            Index2D::new(0, index)
        };
        let ghost before = merged@;
        let lhs_value = elevation_of(merged, lhs, lhs_coord);
        let rhs_value = elevation_of(merged, rhs, rhs_coord);
        proof {
            assert(elevation(before, lhs.x as int, lhs.y as int, lhs_coord) == elevation(
                s0,
                lhs.x as int,
                lhs.y as int,
                lhs_coord,
            ));
            assert(elevation(before, rhs.x as int, rhs.y as int, rhs_coord) == elevation(
                s0,
                rhs.x as int,
                rhs.y as int,
                rhs_coord,
            ));
        }
        proof {
            assert(lhs_coord == seam_vertex_of(lhs, rhs, index as int));
            assert(rhs_coord == seam_partner_of(lhs, rhs, index as int));
            lemma_seam_differences_step(s0, lhs, rhs, index as int);
        }
        match (lhs_value, rhs_value) {
            (Some(lhs_value), Some(rhs_value)) => {
                if lhs_value != rhs_value {
                    let average: i32 = ((lhs_value as i64 + rhs_value as i64) / 2) as i32;
                    set_elevation(merged, lhs, lhs_coord, average);
                    let ghost between = merged@;
                    set_elevation(merged, rhs, rhs_coord, average);
                    *num_seams_repaired = *num_seams_repaired + 1;
                    proof {
                        lemma_same_but_elevation_transitive(s0, before, between);
                        lemma_same_but_elevation_transitive(s0, between, merged@);
                        if average != lhs_value {
                            witness = (lhs.x as int, lhs.y as int, lhs_coord);
                        } else {
                            witness = (rhs.x as int, rhs.y as int, rhs_coord);
                        }
                        assert forall|x: int, y: int, p: Index2D|
                            p.within(65) implies #[trigger] elevation(merged@, x, y, p)
                            == if in_seam(lhs, rhs, x, y, p) && seam_index(lhs, rhs, p) < index
                            + 1 {
                            edge_repaired(s0, x, y, p)
                        } else {
                            elevation(s0, x, y, p)
                        } by {
                            assert(elevation(between, x, y, p) == if x == lhs.x && y == lhs.y && p
                                == lhs_coord {
                                Some(average)
                            } else {
                                elevation(before, x, y, p)
                            });
                            assert(elevation(merged@, x, y, p) == if x == rhs.x && y == rhs.y && p
                                == rhs_coord {
                                Some(average)
                            } else {
                                elevation(between, x, y, p)
                            });
                        }
                    }
                } else {
                    proof {
                        assert forall|x: int, y: int, p: Index2D|
                            p.within(65) implies #[trigger] elevation(merged@, x, y, p)
                            == if in_seam(lhs, rhs, x, y, p) && seam_index(lhs, rhs, p) < index
                            + 1 {
                            edge_repaired(s0, x, y, p)
                        } else {
                            elevation(s0, x, y, p)
                        } by {
                            assert(elevation(before, x, y, p) == if in_seam(lhs, rhs, x, y, p)
                                && seam_index(lhs, rhs, p) < index {
                                edge_repaired(s0, x, y, p)
                            } else {
                                elevation(s0, x, y, p)
                            });
                        }
                    }
                }
            },
            _ => {
                assert(false);
            },
        }
        index = index + 1;
    }
    proof {
        let after = merged@;
        assert forall|x: int, y: int, p: Index2D| p.within(65) implies #[trigger] elevation(
            after,
            x,
            y,
            p,
        ) == seam_step(s0, lhs, rhs, x, y, p) by {
            assert(elevation(after, x, y, p) == if in_seam(lhs, rhs, x, y, p) && seam_index(
                lhs,
                rhs,
                p,
            ) < index {
                edge_repaired(s0, x, y, p)
            } else {
                elevation(s0, x, y, p)
            });
        }
        if *num_seams_repaired > n0 {
            assert(elevation(after, witness.0, witness.1, witness.2) == seam_step(
                s0,
                lhs,
                rhs,
                witness.0,
                witness.1,
                witness.2,
            ));
        }
    }
}

/// Two cells that lie side by side: first the left one or the lower one.
pub type SeamPair = (Vec2<i32>, Vec2<i32>);

/// The pairs of cells that were met before, kept in a `hashbrown::HashSet`.
#[verifier::external_body]
pub struct PairSet {
    inner: hashbrown::HashSet<((i32, i32), (i32, i32))>,
}

/// The pairs that a [PairSet] holds.
pub uninterp spec fn pair_entries(set: PairSet) -> Set<SeamPair>;

/// `hashbrown::HashSet::new`: the new set holds nothing.
#[verifier::external_body]
fn pair_set_new() -> (set: PairSet)
    ensures
        pair_entries(set) == Set::<SeamPair>::empty(),
{
    PairSet { inner: hashbrown::HashSet::new() }
}

/// `hashbrown::HashSet::insert`: afterwards the set holds `pair` and what it held before;
/// the result tells whether `pair` is new to it.
#[verifier::external_body]
fn pair_set_insert(set: &mut PairSet, pair: SeamPair) -> (r: bool)
    ensures
        pair_entries(*final(set)) == pair_entries(*old(set)).insert(pair),
        r == !pair_entries(*old(set)).contains(pair),
{
    set.inner.insert(((pair.0.x, pair.0.y), (pair.1.x, pair.1.y)))
}

impl PairSet {
    /// A set that holds no pair: what the list of seams to look at starts from.
    pub fn new() -> (r: Self)
        ensures
            pair_entries(r) == Set::<SeamPair>::empty(),
    {
        pair_set_new()
    }
}

/// Calculates new coordinates by adding the `offset` to the `coords`.
pub fn coords_with_offset(coords: Vec2<i32>, offset: [i32; 2]) -> (r: Vec2<i32>)
    requires
        is_cell(coords.x + offset[0], coords.y + offset[1]),
    ensures
        r.x == coords.x + offset[0],
        r.y == coords.y + offset[1],
{
    Vec2::new(coords.x + offset[0], coords.y + offset[1])
}

/// Sorts a pair of coordinates by `x` and then `y`.
pub fn sort_pair(lhs: Vec2<i32>, rhs: Vec2<i32>) -> (r: SeamPair)
    requires
        lhs != rhs,
    ensures
        r == (lhs, rhs) || r == (rhs, lhs),
        r.0.x < r.1.x || (r.0.x == r.1.x && r.0.y < r.1.y),
{
    if lhs.x > rhs.x {
        (rhs, lhs)
    } else if lhs.x < rhs.x {
        (lhs, rhs)
    } else if lhs.y > rhs.y {
        (rhs, lhs)
    } else {
        (lhs, rhs)
    }
}

/// Whether `pair` is made of the cell at `x` and `y` and the cell at `px` and `py`.
pub open spec fn joins(pair: SeamPair, x: int, y: int, px: int, py: int) -> bool {
    (pair.0.x == x && pair.0.y == y && pair.1.x == px && pair.1.y == py) || (pair.0.x == px
        && pair.0.y == py && pair.1.x == x && pair.1.y == y)
}

/// Whether the pair made of the cell at `x` and `y` and the cell at `px` and `py` is among
/// `pairs`.
pub open spec fn pair_among(pairs: Seq<SeamPair>, x: int, y: int, px: int, py: int) -> bool {
    exists|j: int| 0 <= j < pairs.len() && joins(#[trigger] pairs[j], x, y, px, py)
}

/// Whether the cell at `px` and `py` lies beside, above or below the cell at `x` and `y`.
pub open spec fn is_beside(x: int, y: int, px: int, py: int) -> bool {
    (py == y && (px == x - 1 || px == x + 1)) || (px == x && (py == y - 1 || py == y + 1))
}

/// What the list of seams to look at holds while the cells are walked: every pair in it is
/// a pair of cells that lie side by side, and it holds every pair that was met.
pub open spec fn seams_listed(possible_seams: Seq<SeamPair>, visited: Set<SeamPair>) -> bool {
    &&& forall|j: int|
        0 <= j < possible_seams.len() ==> is_seam_pair(
            (#[trigger] possible_seams[j]).0,
            possible_seams[j].1,
        )
    &&& forall|pair: SeamPair| #[trigger] visited.contains(pair) ==> possible_seams.contains(pair)
}

/// Adds the seam between the cell at `coords` and its neighbour at `offset` to the list
/// of `possible_seams` if it was not `visited` before.
fn push_back_neighbor(
    possible_seams: &mut VecDeque<SeamPair>,
    visited: &mut PairSet,
    coords: Vec2<i32>,
    offset: [i32; 2],
)
    requires
        seams_listed(old(possible_seams)@, pair_entries(*old(visited))),
        is_beside(0, 0, offset[0] as int, offset[1] as int),
    ensures
        seams_listed(final(possible_seams)@, pair_entries(*final(visited))),
        final(possible_seams)@ == old(possible_seams)@ || exists|pair: SeamPair|
            final(possible_seams)@ == old(possible_seams)@.push(pair),
        is_cell(coords.x + offset[0], coords.y + offset[1]) ==> pair_among(
            final(possible_seams)@,
            coords.x as int,
            coords.y as int,
            coords.x + offset[0],
            coords.y + offset[1],
        ),
{
    let x: i64 = coords.x as i64 + offset[0] as i64;
    let y: i64 = coords.y as i64 + offset[1] as i64;
    if x < i32::MIN as i64 || x > i32::MAX as i64 || y < i32::MIN as i64 || y > i32::MAX as i64 {
        return ;
    }
    let neighbor = coords_with_offset(coords, offset);
    let pair = sort_pair(coords, neighbor);
    let ghost before = possible_seams@;
    if pair_set_insert(visited, pair) {
        possible_seams.push_back(pair);
        proof {
            let after = possible_seams@;
            assert(after[before.len() as int] == pair);
            assert forall|other: SeamPair| #[trigger]
                pair_entries(*visited).contains(other) implies after.contains(other) by {
                if other != pair {
                    assert(before.contains(other));
                    let j = choose|j: int| 0 <= j < before.len() && before[j] == other;
                    assert(after[j] == other);
                }
            }
            assert(joins(
                after[before.len() as int],
                coords.x as int,
                coords.y as int,
                coords.x + offset[0],
                coords.y + offset[1],
            ));
        }
    } else {
        proof {
            assert(pair_entries(*visited) =~= pair_entries(*old(visited)));
            assert(before.contains(pair));
            let j = choose|j: int| 0 <= j < before.len() && before[j] == pair;
            assert(joins(
                before[j],
                coords.x as int,
                coords.y as int,
                coords.x + offset[0],
                coords.y + offset[1],
            ));
        }
    }
}

/// A pair that is among some pairs is among them still when another pair is added.
pub proof fn lemma_pair_among_grows(
    pairs: Seq<SeamPair>,
    more: Seq<SeamPair>,
    x: int,
    y: int,
    px: int,
    py: int,
)
    requires
        pair_among(pairs, x, y, px, py),
        pairs.len() <= more.len(),
        forall|j: int| 0 <= j < pairs.len() ==> more[j] == pairs[j],
    ensures
        pair_among(more, x, y, px, py),
{
    let j = choose|j: int| 0 <= j < pairs.len() && joins(#[trigger] pairs[j], x, y, px, py);
    assert(joins(more[j], x, y, px, py));
}

/// Given a `coords`, adds the four (N, W, S, E) adjacent sides to the
/// list of `possible_seams` if they are not already `visited`.
pub fn push_back_neighbors(
    possible_seams: &mut VecDeque<SeamPair>,
    visited: &mut PairSet,
    coords: Vec2<i32>,
)
    requires
        seams_listed(old(possible_seams)@, pair_entries(*old(visited))),
    ensures
        seams_listed(final(possible_seams)@, pair_entries(*final(visited))),
        old(possible_seams)@.len() <= final(possible_seams)@.len() <= old(possible_seams)@.len()
            + 4,
        forall|j: int|
            0 <= j < old(possible_seams)@.len() ==> final(possible_seams)@[j] == old(possible_seams)@[j],
        forall|px: int, py: int|
            is_cell(px, py) && is_beside(coords.x as int, coords.y as int, px, py)
                ==> #[trigger] pair_among(
                final(possible_seams)@,
                coords.x as int,
                coords.y as int,
                px,
                py,
            ),
{
    let ghost q0 = possible_seams@;
    push_back_neighbor(possible_seams, visited, coords, [-1, 0]);
    let ghost q1 = possible_seams@;
    push_back_neighbor(possible_seams, visited, coords, [1, 0]);
    let ghost q2 = possible_seams@;
    push_back_neighbor(possible_seams, visited, coords, [0, 1]);
    let ghost q3 = possible_seams@;
    push_back_neighbor(possible_seams, visited, coords, [0, -1]);
    proof {
        let q4 = possible_seams@;
        let x = coords.x as int;
        let y = coords.y as int;
        if is_cell(x - 1, y) {
            lemma_pair_among_grows(q1, q2, x, y, x - 1, y);
            lemma_pair_among_grows(q2, q3, x, y, x - 1, y);
            lemma_pair_among_grows(q3, q4, x, y, x - 1, y);
        }
        if is_cell(x + 1, y) {
            lemma_pair_among_grows(q2, q3, x, y, x + 1, y);
            lemma_pair_among_grows(q3, q4, x, y, x + 1, y);
        }
        if is_cell(x, y + 1) {
            lemma_pair_among_grows(q3, q4, x, y, x, y + 1);
        }
    }
}

/// The elevation of a vertex once all seams are repaired. A corner holds the average of
/// the elevations that the cells around it held there; any other vertex of the border holds
/// the average of its own elevation and that of the neighbouring cell, where that cell held
/// one; and a vertex inside the cell is left as it was.
pub open spec fn repaired_elevation(
    cells: Map<Vec2<i32>, LandscapeDiff>,
    x: int,
    y: int,
    vertex: Index2D,
) -> Option<i32> {
    if is_corner(vertex) {
        if elevation(cells, x, y, vertex).is_some() {
            Some(corner_average(cells, corner_x(x, vertex), corner_y(y, vertex)) as i32)
        } else {
            None
        }
    } else if is_edge_vertex(vertex) {
        edge_repaired(cells, x, y, vertex)
    } else {
        elevation(cells, x, y, vertex)
    }
}

/// `after` is `before` with all its seams repaired.
pub open spec fn is_repair_of(
    after: Map<Vec2<i32>, LandscapeDiff>,
    before: Map<Vec2<i32>, LandscapeDiff>,
) -> bool {
    &&& same_but_elevation(before, after)
    &&& forall|x: int, y: int, p: Index2D|
        p.within(65) ==> #[trigger] elevation(after, x, y, p) == repaired_elevation(
            before,
            x,
            y,
            p,
        )
}

/// No seam shows: wherever two cells share a vertex of their borders and both hold an
/// elevation, they hold the same.
pub open spec fn is_seamless(cells: Map<Vec2<i32>, LandscapeDiff>) -> bool {
    &&& forall|x: int, y: int, i: int|
        0 <= i <= LAST_VERTEX
            ==> #[trigger] agree(
            elevation(cells, x, y, Index2D { x: LAST_VERTEX, y: i as usize }),
            elevation(cells, x + 1, y, Index2D { x: 0, y: i as usize }),
        )
    &&& forall|x: int, y: int, i: int|
        0 <= i <= LAST_VERTEX
            ==> #[trigger] agree(
            elevation(cells, x, y, Index2D { x: i as usize, y: LAST_VERTEX }),
            elevation(cells, x, y + 1, Index2D { x: i as usize, y: 0 }),
        )
}

/// Two elevations of one vertex agree where they are the same or one of them is missing.
pub open spec fn agree(own: Option<i32>, other: Option<i32>) -> bool {
    own.is_some() && other.is_some() ==> own == other
}

/// Whether one of the first `count` cells of `keys` has the point (`lx`, `ly`) as a corner.
pub open spec fn lattice_done(keys: Seq<Vec2<i32>>, count: int, lx: int, ly: int) -> bool {
    exists|j: int| 0 <= j < count && touches(#[trigger] keys[j], lx, ly)
}

/// The elevation of a vertex once the corners of the first `count` cells of `keys` are
/// repaired.
pub open spec fn corners_repaired(
    cells: Map<Vec2<i32>, LandscapeDiff>,
    keys: Seq<Vec2<i32>>,
    count: int,
    x: int,
    y: int,
    vertex: Index2D,
) -> Option<i32> {
    if is_corner(vertex) && lattice_done(keys, count, corner_x(x, vertex), corner_y(y, vertex))
        && elevation(cells, x, y, vertex).is_some() {
        Some(corner_average(cells, corner_x(x, vertex), corner_y(y, vertex)) as i32)
    } else {
        elevation(cells, x, y, vertex)
    }
}

/// The elevation of a vertex once the seams between the pairs of `done` are repaired.
pub open spec fn seams_repaired(
    cells: Map<Vec2<i32>, LandscapeDiff>,
    done: Seq<SeamPair>,
    x: int,
    y: int,
    vertex: Index2D,
) -> Option<i32> {
    if is_edge_vertex(vertex) && pair_among(
        done,
        x,
        y,
        partner_x(x, vertex),
        partner_y(y, vertex),
    ) {
        edge_repaired(cells, x, y, vertex)
    } else {
        elevation(cells, x, y, vertex)
    }
}

/// `state` holds, at every vertex, what `cells` holds once the corners of the first `count`
/// cells of `keys` are repaired.
pub open spec fn is_corner_phase(
    state: Map<Vec2<i32>, LandscapeDiff>,
    cells: Map<Vec2<i32>, LandscapeDiff>,
    keys: Seq<Vec2<i32>>,
    count: int,
) -> bool {
    forall|x: int, y: int, p: Index2D|
        p.within(65) ==> #[trigger] elevation(state, x, y, p) == corners_repaired(
            cells,
            keys,
            count,
            x,
            y,
            p,
        )
}

/// `state` holds, at every vertex, what `cells` holds once the seams between the pairs of
/// `done` are repaired.
pub open spec fn is_seam_phase(
    state: Map<Vec2<i32>, LandscapeDiff>,
    cells: Map<Vec2<i32>, LandscapeDiff>,
    done: Seq<SeamPair>,
) -> bool {
    forall|x: int, y: int, p: Index2D|
        p.within(65) ==> #[trigger] elevation(state, x, y, p) == seams_repaired(
            cells,
            done,
            x,
            y,
            p,
        )
}

/// A point that is a corner of one of the first cells of `keys` is so still when one more
/// cell is counted.
pub proof fn lemma_lattice_done_grows(keys: Seq<Vec2<i32>>, count: int, lx: int, ly: int)
    requires
        lattice_done(keys, count, lx, ly),
    ensures
        lattice_done(keys, count + 1, lx, ly),
{
    let j = choose|j: int| 0 <= j < count && touches(#[trigger] keys[j], lx, ly);
    assert(touches(keys[j], lx, ly));
}

/// The repair of the corners of one more cell takes the state of the landmass from what it
/// is after the first `count` cells to what it is after one more.
pub proof fn lemma_corner_phase_step(
    cells: Map<Vec2<i32>, LandscapeDiff>,
    state: Map<Vec2<i32>, LandscapeDiff>,
    next: Map<Vec2<i32>, LandscapeDiff>,
    keys: Seq<Vec2<i32>>,
    count: int,
)
    requires
        0 <= count < keys.len(),
        is_corner_phase(state, cells, keys, count),
        forall|x: int, y: int, p: Index2D|
            p.within(65) ==> #[trigger] elevation(next, x, y, p) == cell_corner_step(
                state,
                keys[count],
                x,
                y,
                p,
            ),
    ensures
        is_corner_phase(next, cells, keys, count + 1),
{
    assert forall|x: int, y: int, p: Index2D| p.within(65) implies #[trigger] elevation(
        next,
        x,
        y,
        p,
    ) == corners_repaired(cells, keys, count + 1, x, y, p) by {
        assert(elevation(next, x, y, p) == cell_corner_step(state, keys[count], x, y, p));
        assert(elevation(state, x, y, p) == corners_repaired(cells, keys, count, x, y, p));
        if is_corner(p) {
            let lx = corner_x(x, p);
            let ly = corner_y(y, p);
            if lattice_done(keys, count, lx, ly) {
                lemma_lattice_done_grows(keys, count, lx, ly);
            }
            if touches(keys[count], lx, ly) {
                assert(lattice_done(keys, count + 1, lx, ly));
                if elevation(cells, x, y, p).is_some() {
                    lemma_corner_average_kept(cells, state, keys, count, lx, ly);
                }
            } else {
                if lattice_done(keys, count + 1, lx, ly) {
                    let j = choose|j: int|
                        0 <= j < count + 1 && touches(#[trigger] keys[j], lx, ly);
                    assert(j < count);
                    assert(touches(keys[j], lx, ly));
                }
            }
        }
    }
}

/// While corners are repaired, the average of the elevations round a point stays what it
/// was at first: either nothing was written there yet, or all that is there is that average.
pub proof fn lemma_corner_average_kept(
    cells: Map<Vec2<i32>, LandscapeDiff>,
    state: Map<Vec2<i32>, LandscapeDiff>,
    keys: Seq<Vec2<i32>>,
    count: int,
    lx: int,
    ly: int,
)
    requires
        is_corner_phase(state, cells, keys, count),
        corner_count(cells, lx, ly) > 0,
    ensures
        corner_count(state, lx, ly) == corner_count(cells, lx, ly),
        corner_average(state, lx, ly) == corner_average(cells, lx, ly),
        i32::MIN <= corner_average(cells, lx, ly) <= i32::MAX,
{
    lemma_corner_average_fits(cells, lx, ly);
    assert(elevation(state, lx - 0, ly - 0, slot_vertex(0, 0)) == corners_repaired(
        cells,
        keys,
        count,
        lx - 0,
        ly - 0,
        slot_vertex(0, 0),
    ));
    assert(elevation(state, lx - 1, ly - 0, slot_vertex(1, 0)) == corners_repaired(
        cells,
        keys,
        count,
        lx - 1,
        ly - 0,
        slot_vertex(1, 0),
    ));
    assert(elevation(state, lx - 0, ly - 1, slot_vertex(0, 1)) == corners_repaired(
        cells,
        keys,
        count,
        lx - 0,
        ly - 1,
        slot_vertex(0, 1),
    ));
    assert(elevation(state, lx - 1, ly - 1, slot_vertex(1, 1)) == corners_repaired(
        cells,
        keys,
        count,
        lx - 1,
        ly - 1,
        slot_vertex(1, 1),
    ));
    if lattice_done(keys, count, lx, ly) {
        lemma_corner_average_of_equals(state, lx, ly, corner_average(cells, lx, ly) as i32);
    }
}

/// A corner of a cell: the cell and the vertex.
pub type CornerCopy = (Vec2<i32>, Index2D);

/// Whether the repair of seams changes the elevation of a corner of a cell: the cell holds
/// an elevation there, and another than the average of the elevations that the cells
/// around that point hold there.
pub open spec fn is_changed_corner(cells: Map<Vec2<i32>, LandscapeDiff>, copy: CornerCopy) -> bool {
    is_corner(copy.1) && (elevation(cells, copy.0.x as int, copy.0.y as int, copy.1) matches Some(
        value,
    ) && value != corner_average(
        cells,
        corner_x(copy.0.x as int, copy.1),
        corner_y(copy.0.y as int, copy.1),
    ))
}

/// The corners of cells whose elevation the repair of seams changes.
pub open spec fn changed_corners(cells: Map<Vec2<i32>, LandscapeDiff>) -> Set<CornerCopy> {
    Set::new(|copy: CornerCopy| is_changed_corner(cells, copy))
}

/// The corners of cells at the point (`lx`, `ly`) whose elevation the repair of seams
/// changes.
pub open spec fn changed_corners_at(cells: Map<Vec2<i32>, LandscapeDiff>, lx: int, ly: int) -> Set<
    CornerCopy,
> {
    Set::new(
        |copy: CornerCopy|
            is_changed_corner(cells, copy) && corner_x(copy.0.x as int, copy.1) == lx && corner_y(
                copy.0.y as int,
                copy.1,
            ) == ly,
    )
}

/// The corners of cells whose elevation the repair of seams changes, at the points that
/// are corners of the first `count` cells of `keys`.
pub open spec fn changed_corners_until(
    cells: Map<Vec2<i32>, LandscapeDiff>,
    keys: Seq<Vec2<i32>>,
    count: int,
) -> Set<CornerCopy> {
    Set::new(
        |copy: CornerCopy|
            is_changed_corner(cells, copy) && lattice_done(
                keys,
                count,
                corner_x(copy.0.x as int, copy.1),
                corner_y(copy.0.y as int, copy.1),
            ),
    )
}

/// The corners at a point whose elevation the repair changes are as many as the repair of
/// that corner counts.
pub proof fn lemma_changed_corners_at(cells: Map<Vec2<i32>, LandscapeDiff>, lx: int, ly: int)
    ensures
        changed_corners_at(cells, lx, ly).finite(),
        changed_corners_at(cells, lx, ly).len() == corner_repairs(cells, lx, ly),
{
    let first: CornerCopy = (cell_at(lx - 0, ly - 0), slot_vertex(0, 0));
    let second: CornerCopy = (cell_at(lx - 1, ly - 0), slot_vertex(1, 0));
    let third: CornerCopy = (cell_at(lx - 0, ly - 1), slot_vertex(0, 1));
    let fourth: CornerCopy = (cell_at(lx - 1, ly - 1), slot_vertex(1, 1));
    let t0 = Set::<CornerCopy>::empty();
    let t1 = if slot_repairs(cells, lx, ly, 0, 0) == 1 {
        t0.insert(first)
    } else {
        t0
    };
    let t2 = if slot_repairs(cells, lx, ly, 1, 0) == 1 {
        t1.insert(second)
    } else {
        t1
    };
    let t3 = if slot_repairs(cells, lx, ly, 0, 1) == 1 {
        t2.insert(third)
    } else {
        t2
    };
    let t4 = if slot_repairs(cells, lx, ly, 1, 1) == 1 {
        t3.insert(fourth)
    } else {
        t3
    };
    assert(t1.finite() && t1.len() == slot_repairs(cells, lx, ly, 0, 0));
    assert(!t1.contains(second));
    assert(t2.finite() && t2.len() == t1.len() + slot_repairs(cells, lx, ly, 1, 0));
    assert(!t2.contains(third));
    assert(t3.finite() && t3.len() == t2.len() + slot_repairs(cells, lx, ly, 0, 1));
    assert(!t3.contains(fourth));
    assert(t4.finite() && t4.len() == t3.len() + slot_repairs(cells, lx, ly, 1, 1));
    let all = changed_corners_at(cells, lx, ly);
    assert forall|copy: CornerCopy| all.contains(copy) == t4.contains(copy) by {
        if all.contains(copy) {
            let dx = lx - copy.0.x;
            let dy = ly - copy.0.y;
            assert(copy.1 == slot_vertex(dx, dy));
            assert(copy.0 == cell_at(lx - dx, ly - dy));
            assert(corner_value(cells, lx, ly, dx, dy) == elevation(
                cells,
                copy.0.x as int,
                copy.0.y as int,
                copy.1,
            ));
            assert(slot_repairs(cells, lx, ly, dx, dy) == 1);
        }
        if t4.contains(copy) {
            let dx: int = if copy.1.x == LAST_VERTEX {
                1
            } else {
                0
            };
            let dy: int = if copy.1.y == LAST_VERTEX {
                1
            } else {
                0
            };
            assert(slot_repairs(cells, lx, ly, dx, dy) == 1);
            assert(corner_value(cells, lx, ly, dx, dy).is_some());
            assert(is_cell(lx - dx, ly - dy));
            assert(copy.0.x == lx - dx && copy.0.y == ly - dy);
        }
    }
    assert(all =~= t4);
}

/// The corners at one point that are changed and were not counted with the first `count`
/// cells of `keys`.
pub open spec fn changed_corners_new(
    cells: Map<Vec2<i32>, LandscapeDiff>,
    keys: Seq<Vec2<i32>>,
    count: int,
    lx: int,
    ly: int,
) -> Set<CornerCopy> {
    if lattice_done(keys, count, lx, ly) {
        Set::empty()
    } else {
        changed_corners_at(cells, lx, ly)
    }
}

/// While corners are repaired, the repair of a corner counts the corners at its point that
/// are changed and were not counted before.
pub proof fn lemma_changed_corners_new(
    cells: Map<Vec2<i32>, LandscapeDiff>,
    state: Map<Vec2<i32>, LandscapeDiff>,
    keys: Seq<Vec2<i32>>,
    count: int,
    lx: int,
    ly: int,
)
    requires
        is_corner_phase(state, cells, keys, count),
    ensures
        changed_corners_new(cells, keys, count, lx, ly).finite(),
        changed_corners_new(cells, keys, count, lx, ly).len() == corner_repairs(state, lx, ly),
{
    assert(elevation(state, lx - 0, ly - 0, slot_vertex(0, 0)) == corners_repaired(
        cells,
        keys,
        count,
        lx - 0,
        ly - 0,
        slot_vertex(0, 0),
    ));
    assert(elevation(state, lx - 1, ly - 0, slot_vertex(1, 0)) == corners_repaired(
        cells,
        keys,
        count,
        lx - 1,
        ly - 0,
        slot_vertex(1, 0),
    ));
    assert(elevation(state, lx - 0, ly - 1, slot_vertex(0, 1)) == corners_repaired(
        cells,
        keys,
        count,
        lx - 0,
        ly - 1,
        slot_vertex(0, 1),
    ));
    assert(elevation(state, lx - 1, ly - 1, slot_vertex(1, 1)) == corners_repaired(
        cells,
        keys,
        count,
        lx - 1,
        ly - 1,
        slot_vertex(1, 1),
    ));
    if lattice_done(keys, count, lx, ly) {
        if corner_count(cells, lx, ly) > 0 {
            lemma_corner_average_kept(cells, state, keys, count, lx, ly);
        }
        assert(slot_repairs(state, lx, ly, 0, 0) == 0);
        assert(slot_repairs(state, lx, ly, 1, 0) == 0);
        assert(slot_repairs(state, lx, ly, 0, 1) == 0);
        assert(slot_repairs(state, lx, ly, 1, 1) == 0);
    } else {
        lemma_changed_corners_at(cells, lx, ly);
        assert(corner_value(state, lx, ly, 0, 0) == corner_value(cells, lx, ly, 0, 0));
        assert(corner_value(state, lx, ly, 1, 0) == corner_value(cells, lx, ly, 1, 0));
        assert(corner_value(state, lx, ly, 0, 1) == corner_value(cells, lx, ly, 0, 1));
        assert(corner_value(state, lx, ly, 1, 1) == corner_value(cells, lx, ly, 1, 1));
        assert(corner_repairs(state, lx, ly) == corner_repairs(cells, lx, ly));
    }
}

/// The repair of the corners of one more cell counts the corners that are changed at the
/// points that this cell is the first to touch.
pub proof fn lemma_changed_corners_step(
    cells: Map<Vec2<i32>, LandscapeDiff>,
    state: Map<Vec2<i32>, LandscapeDiff>,
    keys: Seq<Vec2<i32>>,
    count: int,
)
    requires
        0 <= count < keys.len(),
        is_corner_phase(state, cells, keys, count),
        changed_corners_until(cells, keys, count).finite(),
    ensures
        changed_corners_until(cells, keys, count + 1).finite(),
        changed_corners_until(cells, keys, count + 1).len() == changed_corners_until(
            cells,
            keys,
            count,
        ).len() + cell_corner_repairs(state, keys[count]),
{
    let x0 = keys[count].x as int;
    let y0 = keys[count].y as int;
    let done = changed_corners_until(cells, keys, count);
    let a1 = changed_corners_new(cells, keys, count, x0, y0);
    let a2 = changed_corners_new(cells, keys, count, x0 + 1, y0);
    let a3 = changed_corners_new(cells, keys, count, x0 + 1, y0 + 1);
    let a4 = changed_corners_new(cells, keys, count, x0, y0 + 1);
    lemma_changed_corners_new(cells, state, keys, count, x0, y0);
    lemma_changed_corners_new(cells, state, keys, count, x0 + 1, y0);
    lemma_changed_corners_new(cells, state, keys, count, x0 + 1, y0 + 1);
    lemma_changed_corners_new(cells, state, keys, count, x0, y0 + 1);
    let u1 = done + a1;
    let u2 = u1 + a2;
    let u3 = u2 + a3;
    let u4 = u3 + a4;
    assert(done.disjoint(a1));
    assert(u1.disjoint(a2));
    assert(u2.disjoint(a3));
    assert(u3.disjoint(a4));
    vstd::set_lib::lemma_set_disjoint_lens(done, a1);
    vstd::set_lib::lemma_set_disjoint_lens(u1, a2);
    vstd::set_lib::lemma_set_disjoint_lens(u2, a3);
    vstd::set_lib::lemma_set_disjoint_lens(u3, a4);
    let more = changed_corners_until(cells, keys, count + 1);
    assert forall|copy: CornerCopy| more.contains(copy) == u4.contains(copy) by {
        let lx = corner_x(copy.0.x as int, copy.1);
        let ly = corner_y(copy.0.y as int, copy.1);
        if lattice_done(keys, count, lx, ly) {
            lemma_lattice_done_grows(keys, count, lx, ly);
        }
        if touches(keys[count], lx, ly) {
            assert(lattice_done(keys, count + 1, lx, ly));
        }
        if lattice_done(keys, count + 1, lx, ly) && !lattice_done(keys, count, lx, ly) {
            let j = choose|j: int| 0 <= j < count + 1 && touches(#[trigger] keys[j], lx, ly);
            if j < count {
                assert(touches(keys[j], lx, ly));
            }
            assert(touches(keys[count], lx, ly));
        }
    }
    assert(more =~= u4);
}

/// Once the corners of all cells are repaired, every corner that is changed is counted.
pub proof fn lemma_changed_corners_all(cells: Map<Vec2<i32>, LandscapeDiff>, keys: Seq<Vec2<i32>>)
    requires
        forall|coords: Vec2<i32>| cells.dom().contains(coords) ==> keys.contains(coords),
    ensures
        changed_corners_until(cells, keys, keys.len() as int) == changed_corners(cells),
{
    let all = changed_corners(cells);
    let counted = changed_corners_until(cells, keys, keys.len() as int);
    assert forall|copy: CornerCopy| all.contains(copy) == counted.contains(copy) by {
        if all.contains(copy) {
            assert(cells.dom().contains(copy.0));
            assert(keys.contains(copy.0));
            let j = choose|j: int| 0 <= j < keys.len() && keys[j] == copy.0;
            assert(touches(
                keys[j],
                corner_x(copy.0.x as int, copy.1),
                corner_y(copy.0.y as int, copy.1),
            ));
        }
    }
    assert(all =~= counted);
}

/// The repair of one more seam takes the state of the landmass from what it is after the
/// seams of `done` to what it is after one more.
pub proof fn lemma_seam_phase_step(
    cells: Map<Vec2<i32>, LandscapeDiff>,
    state: Map<Vec2<i32>, LandscapeDiff>,
    next: Map<Vec2<i32>, LandscapeDiff>,
    done: Seq<SeamPair>,
    pair: SeamPair,
)
    requires
        is_seam_pair(pair.0, pair.1),
        is_seam_phase(state, cells, done),
        forall|x: int, y: int, p: Index2D|
            p.within(65) ==> #[trigger] elevation(next, x, y, p) == seam_step(
                state,
                pair.0,
                pair.1,
                x,
                y,
                p,
            ),
    ensures
        is_seam_phase(next, cells, done.push(pair)),
{
    let more = done.push(pair);
    assert forall|x: int, y: int, p: Index2D| p.within(65) implies #[trigger] elevation(
        next,
        x,
        y,
        p,
    ) == seams_repaired(cells, more, x, y, p) by {
        assert(elevation(next, x, y, p) == seam_step(state, pair.0, pair.1, x, y, p));
        assert(elevation(state, x, y, p) == seams_repaired(cells, done, x, y, p));
        if is_edge_vertex(p) {
            let px = partner_x(x, p);
            let py = partner_y(y, p);
            let pp = partner_vertex(p);
            assert(elevation(state, px, py, pp) == seams_repaired(cells, done, px, py, pp));
            assert(partner_x(px, pp) == x && partner_y(py, pp) == y && partner_vertex(pp) == p);
            if pair_among(done, x, y, px, py) {
                lemma_pair_among_grows(done, more, x, y, px, py);
                let j = choose|j: int|
                    0 <= j < done.len() && joins(#[trigger] done[j], x, y, px, py);
                assert(joins(done[j], px, py, x, y));
                assert(pair_among(done, px, py, x, y));
            } else {
                if pair_among(done, px, py, x, y) {
                    let j = choose|j: int|
                        0 <= j < done.len() && joins(#[trigger] done[j], px, py, x, y);
                    assert(joins(done[j], x, y, px, py));
                }
            }
            if in_seam(pair.0, pair.1, x, y, p) {
                assert(joins(more[done.len() as int], x, y, px, py));
            } else {
                if pair_among(more, x, y, px, py) {
                    let j = choose|j: int|
                        0 <= j < more.len() && joins(#[trigger] more[j], x, y, px, py);
                    if j < done.len() {
                        assert(joins(done[j], x, y, px, py));
                    }
                }
            }
        }
    }
}

/// Once the corners of all cells are repaired and then all the seams between them, the
/// elevations are what [repaired_elevation] says.
pub proof fn lemma_phases_complete(
    cells: Map<Vec2<i32>, LandscapeDiff>,
    cornered: Map<Vec2<i32>, LandscapeDiff>,
    state: Map<Vec2<i32>, LandscapeDiff>,
    keys: Seq<Vec2<i32>>,
    done: Seq<SeamPair>,
)
    requires
        is_corner_phase(cornered, cells, keys, keys.len() as int),
        is_seam_phase(state, cornered, done),
        forall|coords: Vec2<i32>| #[trigger]
            cells.dom().contains(coords) ==> keys.contains(coords),
        forall|coords: Vec2<i32>, px: int, py: int|
            keys.contains(coords) && is_cell(px, py) && is_beside(
                coords.x as int,
                coords.y as int,
                px,
                py,
            ) ==> #[trigger] pair_among(done, coords.x as int, coords.y as int, px, py),
    ensures
        forall|x: int, y: int, p: Index2D|
            p.within(65) ==> #[trigger] elevation(state, x, y, p) == repaired_elevation(
                cells,
                x,
                y,
                p,
            ),
{
    assert forall|x: int, y: int, p: Index2D| p.within(65) implies #[trigger] elevation(
        state,
        x,
        y,
        p,
    ) == repaired_elevation(cells, x, y, p) by {
        assert(elevation(state, x, y, p) == seams_repaired(cornered, done, x, y, p));
        assert(elevation(cornered, x, y, p) == corners_repaired(
            cells,
            keys,
            keys.len() as int,
            x,
            y,
            p,
        ));
        if is_corner(p) {
            if elevation(cells, x, y, p).is_some() {
                let coords = cell_at(x, y);
                assert(cells.dom().contains(coords));
                assert(keys.contains(coords));
                let j = choose|j: int| 0 <= j < keys.len() && keys[j] == coords;
                assert(touches(keys[j], corner_x(x, p), corner_y(y, p)));
            }
        } else if is_edge_vertex(p) {
            let px = partner_x(x, p);
            let py = partner_y(y, p);
            let pp = partner_vertex(p);
            assert(elevation(cornered, px, py, pp) == corners_repaired(
                cells,
                keys,
                keys.len() as int,
                px,
                py,
                pp,
            ));
            if elevation(cells, x, y, p).is_some() && elevation(cells, px, py, pp).is_some() {
                let coords = cell_at(x, y);
                assert(cells.dom().contains(coords));
                assert(keys.contains(coords));
                assert(pair_among(done, coords.x as int, coords.y as int, px, py));
            }
        }
    }
}

/// Whether `place` is a place of a seam between two cells that lie side by side, corners
/// left out, at which the two cells both hold an elevation, and not the same.
pub open spec fn is_seam_difference(cells: Map<Vec2<i32>, LandscapeDiff>, place: SeamPlace) -> bool {
    is_seam_pair(place.0, place.1) && 1 <= place.2 <= LAST_VERTEX - 1 && differs_at(
        cells,
        place.0,
        place.1,
        place.2,
    )
}

/// The places of all seams, corners left out, at which two cells hold different elevations.
pub open spec fn all_seam_differences(cells: Map<Vec2<i32>, LandscapeDiff>) -> Set<SeamPlace> {
    Set::new(|place: SeamPlace| is_seam_difference(cells, place))
}

/// The places of the seams of `done`, corners left out, at which two cells hold different
/// elevations.
pub open spec fn seam_differences_among(
    cells: Map<Vec2<i32>, LandscapeDiff>,
    done: Seq<SeamPair>,
) -> Set<SeamPlace> {
    Set::new(
        |place: SeamPlace| is_seam_difference(cells, place) && done.contains((place.0, place.1)),
    )
}

/// The number of repairs that the seams of a landmass ask for: the corners of cells whose
/// elevation is not the average of the elevations round their point, and the places of
/// seams, corners left out, at which two cells hold different elevations.
pub open spec fn repairs_of(cells: Map<Vec2<i32>, LandscapeDiff>) -> nat {
    changed_corners(cells).len() + all_seam_differences(cells).len()
}

/// A pair of cells that lie side by side is among `done` where the seam between the two is.
pub proof fn lemma_pair_among_contains(done: Seq<SeamPair>, lhs: Vec2<i32>, rhs: Vec2<i32>)
    requires
        is_seam_pair(lhs, rhs),
        forall|j: int| 0 <= j < done.len() ==> is_seam_pair((#[trigger] done[j]).0, done[j].1),
    ensures
        done.contains((lhs, rhs)) == pair_among(
            done,
            lhs.x as int,
            lhs.y as int,
            rhs.x as int,
            rhs.y as int,
        ),
        done.contains((lhs, rhs)) == pair_among(
            done,
            rhs.x as int,
            rhs.y as int,
            lhs.x as int,
            lhs.y as int,
        ),
{
    if done.contains((lhs, rhs)) {
        let j = choose|j: int| 0 <= j < done.len() && done[j] == (lhs, rhs);
        assert(joins(done[j], lhs.x as int, lhs.y as int, rhs.x as int, rhs.y as int));
        assert(joins(done[j], rhs.x as int, rhs.y as int, lhs.x as int, lhs.y as int));
    }
    if pair_among(done, lhs.x as int, lhs.y as int, rhs.x as int, rhs.y as int) {
        let j = choose|j: int|
            0 <= j < done.len() && joins(
                #[trigger] done[j],
                lhs.x as int,
                lhs.y as int,
                rhs.x as int,
                rhs.y as int,
            );
        assert(is_seam_pair(done[j].0, done[j].1));
        assert(done[j].0 == lhs && done[j].1 == rhs);
        assert(done[j] == (lhs, rhs));
    }
    if pair_among(done, rhs.x as int, rhs.y as int, lhs.x as int, lhs.y as int) {
        let j = choose|j: int|
            0 <= j < done.len() && joins(
                #[trigger] done[j],
                rhs.x as int,
                rhs.y as int,
                lhs.x as int,
                lhs.y as int,
            );
        assert(is_seam_pair(done[j].0, done[j].1));
        assert(done[j].0 == lhs && done[j].1 == rhs);
        assert(done[j] == (lhs, rhs));
    }
}

/// While seams are repaired, the repair of a seam counts the places of that seam at which
/// the cells differed at first, unless the seam was repaired before.
pub proof fn lemma_seam_differences_pair(
    cells: Map<Vec2<i32>, LandscapeDiff>,
    cornered: Map<Vec2<i32>, LandscapeDiff>,
    state: Map<Vec2<i32>, LandscapeDiff>,
    keys: Seq<Vec2<i32>>,
    done: Seq<SeamPair>,
    next: SeamPair,
)
    requires
        is_corner_phase(cornered, cells, keys, keys.len() as int),
        is_seam_phase(state, cornered, done),
        is_seam_pair(next.0, next.1),
        forall|j: int| 0 <= j < done.len() ==> is_seam_pair((#[trigger] done[j]).0, done[j].1),
    ensures
        seam_differences(state, next.0, next.1) == if done.contains(next) {
            Set::<SeamPlace>::empty()
        } else {
            seam_differences(cells, next.0, next.1)
        },
{
    let lhs = next.0;
    let rhs = next.1;
    lemma_pair_among_contains(done, lhs, rhs);
    assert(next == (lhs, rhs));
    assert forall|index: int| 1 <= index <= LAST_VERTEX - 1 implies differs_at(
        state,
        lhs,
        rhs,
        index,
    ) == (!done.contains(next) && differs_at(cells, lhs, rhs, index)) by {
        let own = seam_vertex_of(lhs, rhs, index);
        let other = seam_partner_of(lhs, rhs, index);
        assert(is_edge_vertex(own) && is_edge_vertex(other));
        assert(partner_x(lhs.x as int, own) == rhs.x && partner_y(lhs.y as int, own) == rhs.y);
        assert(partner_x(rhs.x as int, other) == lhs.x && partner_y(rhs.y as int, other) == lhs.y);
        assert(partner_vertex(own) == other && partner_vertex(other) == own);
        assert(elevation(state, lhs.x as int, lhs.y as int, own) == seams_repaired(
            cornered,
            done,
            lhs.x as int,
            lhs.y as int,
            own,
        ));
        assert(elevation(state, rhs.x as int, rhs.y as int, other) == seams_repaired(
            cornered,
            done,
            rhs.x as int,
            rhs.y as int,
            other,
        ));
        assert(elevation(cornered, lhs.x as int, lhs.y as int, own) == corners_repaired(
            cells,
            keys,
            keys.len() as int,
            lhs.x as int,
            lhs.y as int,
            own,
        ));
        assert(elevation(cornered, rhs.x as int, rhs.y as int, other) == corners_repaired(
            cells,
            keys,
            keys.len() as int,
            rhs.x as int,
            rhs.y as int,
            other,
        ));
    }
    if done.contains(next) {
        assert(seam_differences(state, lhs, rhs) =~= Set::<SeamPlace>::empty());
    } else {
        assert(seam_differences(state, lhs, rhs) =~= seam_differences(cells, lhs, rhs));
    }
}

/// The repair of one more seam counts the places at which cells differ along the seams
/// that are repaired.
pub proof fn lemma_seam_differences_grow(
    cells: Map<Vec2<i32>, LandscapeDiff>,
    cornered: Map<Vec2<i32>, LandscapeDiff>,
    state: Map<Vec2<i32>, LandscapeDiff>,
    keys: Seq<Vec2<i32>>,
    done: Seq<SeamPair>,
    next: SeamPair,
)
    requires
        is_corner_phase(cornered, cells, keys, keys.len() as int),
        is_seam_phase(state, cornered, done),
        is_seam_pair(next.0, next.1),
        forall|j: int| 0 <= j < done.len() ==> is_seam_pair((#[trigger] done[j]).0, done[j].1),
        seam_differences_among(cells, done).finite(),
        seam_differences(state, next.0, next.1).finite(),
    ensures
        seam_differences_among(cells, done.push(next)).finite(),
        seam_differences_among(cells, done.push(next)).len() == seam_differences_among(
            cells,
            done,
        ).len() + seam_differences(state, next.0, next.1).len(),
{
    lemma_seam_differences_pair(cells, cornered, state, keys, done, next);
    let before = seam_differences_among(cells, done);
    let after = seam_differences_among(cells, done.push(next));
    let more = done.push(next);
    assert(more[done.len() as int] == next);
    assert forall|pair: SeamPair| more.contains(pair) == (done.contains(pair) || pair == next) by {
        if done.contains(pair) {
            let j = choose|j: int| 0 <= j < done.len() && done[j] == pair;
            assert(more[j] == pair);
        }
        if more.contains(pair) && pair != next {
            let j = choose|j: int| 0 <= j < more.len() && more[j] == pair;
            assert(done[j] == pair);
        }
    }
    if done.contains(next) {
        assert(after =~= before);
    } else {
        let added = seam_differences(cells, next.0, next.1);
        assert(before.disjoint(added));
        vstd::set_lib::lemma_set_disjoint_lens(before, added);
        assert forall|place: SeamPlace| after.contains(place) == (before + added).contains(
            place,
        ) by {
            assert(more.contains((place.0, place.1)) == (done.contains((place.0, place.1)) || (
            place.0,
            place.1,
        ) == next));
        }
        assert(after =~= before + added);
    }
}

/// Once the seams of all cells are repaired, every place at which two cells differ is
/// counted.
pub proof fn lemma_seam_differences_all(
    cells: Map<Vec2<i32>, LandscapeDiff>,
    keys: Seq<Vec2<i32>>,
    all: Seq<SeamPair>,
)
    requires
        forall|coords: Vec2<i32>| cells.dom().contains(coords) ==> keys.contains(coords),
        forall|j: int| 0 <= j < all.len() ==> is_seam_pair((#[trigger] all[j]).0, all[j].1),
        forall|coords: Vec2<i32>, px: int, py: int|
            keys.contains(coords) && is_cell(px, py) && is_beside(
                coords.x as int,
                coords.y as int,
                px,
                py,
            ) ==> #[trigger] pair_among(all, coords.x as int, coords.y as int, px, py),
    ensures
        seam_differences_among(cells, all) == all_seam_differences(cells),
{
    let every = all_seam_differences(cells);
    let counted = seam_differences_among(cells, all);
    assert forall|place: SeamPlace| every.contains(place) == counted.contains(place) by {
        if every.contains(place) {
            let lhs = place.0;
            let rhs = place.1;
            assert(cells.dom().contains(lhs));
            assert(keys.contains(lhs));
            assert(is_cell(rhs.x as int, rhs.y as int));
            assert(is_beside(lhs.x as int, lhs.y as int, rhs.x as int, rhs.y as int));
            assert(pair_among(all, lhs.x as int, lhs.y as int, rhs.x as int, rhs.y as int));
            lemma_pair_among_contains(all, lhs, rhs);
        }
    }
    assert(every =~= counted);
}

/// A landmass whose seams are repaired shows no seam.
pub proof fn lemma_repair_is_seamless(
    before: Map<Vec2<i32>, LandscapeDiff>,
    after: Map<Vec2<i32>, LandscapeDiff>,
)
    requires
        is_repair_of(after, before),
    ensures
        is_seamless(after),
{
    assert forall|x: int, y: int, i: int| 0 <= i <= LAST_VERTEX implies #[trigger] agree(
        elevation(after, x, y, Index2D { x: LAST_VERTEX, y: i as usize }),
        elevation(after, x + 1, y, Index2D { x: 0, y: i as usize }),
    ) by {
        let own = Index2D { x: LAST_VERTEX, y: i as usize };
        let other = Index2D { x: 0, y: i as usize };
        assert(elevation(after, x, y, own) == repaired_elevation(before, x, y, own));
        assert(elevation(after, x + 1, y, other) == repaired_elevation(before, x + 1, y, other));
    }
    assert forall|x: int, y: int, i: int| 0 <= i <= LAST_VERTEX implies #[trigger] agree(
        elevation(after, x, y, Index2D { x: i as usize, y: LAST_VERTEX }),
        elevation(after, x, y + 1, Index2D { x: i as usize, y: 0 }),
    ) by {
        let own = Index2D { x: i as usize, y: LAST_VERTEX };
        let other = Index2D { x: i as usize, y: 0 };
        assert(elevation(after, x, y, own) == repaired_elevation(before, x, y, own));
        assert(elevation(after, x, y + 1, other) == repaired_elevation(before, x, y + 1, other));
    }
}

/// The repair of seams has nothing to do: every vertex holds what it would hold after it.
pub open spec fn is_settled(cells: Map<Vec2<i32>, LandscapeDiff>) -> bool {
    forall|x: int, y: int, p: Index2D|
        p.within(65) ==> #[trigger] repaired_elevation(cells, x, y, p) == elevation(
            cells,
            x,
            y,
            p,
        )
}

/// Whether the repair of seams has anything to do depends on the elevation alone.
pub proof fn lemma_settled_by_elevation(
    before: Map<Vec2<i32>, LandscapeDiff>,
    after: Map<Vec2<i32>, LandscapeDiff>,
)
    requires
        is_settled(before),
        forall|x: int, y: int, p: Index2D|
            p.within(65) ==> #[trigger] elevation(after, x, y, p) == elevation(before, x, y, p),
    ensures
        is_settled(after),
{
    assert forall|x: int, y: int, p: Index2D| p.within(65) implies #[trigger] repaired_elevation(
        after,
        x,
        y,
        p,
    ) == elevation(after, x, y, p) by {
        assert(repaired_elevation(before, x, y, p) == elevation(before, x, y, p));
        assert(elevation(after, x, y, p) == elevation(before, x, y, p));
        if is_corner(p) {
            let lx = corner_x(x, p);
            let ly = corner_y(y, p);
            assert(slot_vertex(0, 0).within(65) && slot_vertex(1, 0).within(65) && slot_vertex(
                0,
                1,
            ).within(65) && slot_vertex(1, 1).within(65));
            assert(corner_value(after, lx, ly, 0, 0) == corner_value(before, lx, ly, 0, 0));
            assert(corner_value(after, lx, ly, 1, 0) == corner_value(before, lx, ly, 1, 0));
            assert(corner_value(after, lx, ly, 0, 1) == corner_value(before, lx, ly, 0, 1));
            assert(corner_value(after, lx, ly, 1, 1) == corner_value(before, lx, ly, 1, 1));
        } else if is_edge_vertex(p) {
            assert(partner_vertex(p).within(65));
            assert(elevation(after, partner_x(x, p), partner_y(y, p), partner_vertex(p)) == elevation(
                before,
                partner_x(x, p),
                partner_y(y, p),
                partner_vertex(p),
            ));
        }
    }
}

/// In a landmass whose seams are repaired, a second repair has nothing to do.
pub proof fn lemma_repair_is_settled(
    before: Map<Vec2<i32>, LandscapeDiff>,
    after: Map<Vec2<i32>, LandscapeDiff>,
)
    requires
        is_repair_of(after, before),
    ensures
        is_settled(after),
{
    assert forall|x: int, y: int, p: Index2D| p.within(65) implies #[trigger] repaired_elevation(
        after,
        x,
        y,
        p,
    ) == elevation(after, x, y, p) by {
        assert(elevation(after, x, y, p) == repaired_elevation(before, x, y, p));
        if is_corner(p) {
            if elevation(after, x, y, p).is_some() {
                let lx = corner_x(x, p);
                let ly = corner_y(y, p);
                assert(p == slot_vertex(lx - x, ly - y));
                assert(elevation(after, lx - 0, ly - 0, slot_vertex(0, 0)) == repaired_elevation(
                    before,
                    lx - 0,
                    ly - 0,
                    slot_vertex(0, 0),
                ));
                assert(elevation(after, lx - 1, ly - 0, slot_vertex(1, 0)) == repaired_elevation(
                    before,
                    lx - 1,
                    ly - 0,
                    slot_vertex(1, 0),
                ));
                assert(elevation(after, lx - 0, ly - 1, slot_vertex(0, 1)) == repaired_elevation(
                    before,
                    lx - 0,
                    ly - 1,
                    slot_vertex(0, 1),
                ));
                assert(elevation(after, lx - 1, ly - 1, slot_vertex(1, 1)) == repaired_elevation(
                    before,
                    lx - 1,
                    ly - 1,
                    slot_vertex(1, 1),
                ));
                assert(corner_value(before, lx, ly, lx - x, ly - y).is_some());
                lemma_corner_average_fits(before, lx, ly);
                lemma_corner_average_of_equals(
                    after,
                    lx,
                    ly,
                    corner_average(before, lx, ly) as i32,
                );
            }
        } else if is_edge_vertex(p) {
            let px = partner_x(x, p);
            let py = partner_y(y, p);
            let pp = partner_vertex(p);
            assert(elevation(after, px, py, pp) == repaired_elevation(before, px, py, pp));
            assert(partner_x(px, pp) == x && partner_y(py, pp) == y && partner_vertex(pp) == p);
        }
    }
}

/// Repairs landmass seams by a two-step algorithm. First, the algorithm repairs any
/// corner seams by averaging the values of all vertices shared by 4 cells. Then, the
/// algorithm will repair seams on the sides between cells by picking the average value
/// of both sides. Returns the number of repairs: one for every corner of a cell whose
/// elevation changes, and one for every place of a seam, corners left out, at which two
/// cells held different elevations.
#[verifier::rlimit(60)]
pub fn repair_landmass_seams(merged: &mut LandmassDiff) -> (num_seams_repaired: usize)
    requires
        old(merged).wf(),
        old(merged)@.dom().len() * 268 <= usize::MAX,
    ensures
        final(merged).wf(),
        final(merged).plugin == old(merged).plugin,
        is_repair_of(final(merged)@, old(merged)@),
        changed_corners(old(merged)@).finite(),
        all_seam_differences(old(merged)@).finite(),
        num_seams_repaired == repairs_of(old(merged)@),
        num_seams_repaired == 0 <==> is_settled(old(merged)@),
{
    let ghost s0 = merged@;
    let keys = merged.sorted();
    proof {
        keys@.unique_seq_to_set();
        assert(keys@.to_set() =~= s0.dom());
        lemma_same_cells(s0);
        assert(changed_corners_until(s0, keys@, 0) =~= Set::<CornerCopy>::empty());
    }
    let mut possible_seams: VecDeque<SeamPair> = VecDeque::new();
    let mut visited = PairSet::new();
    let mut num_seams_repaired: usize = 0;
    let ghost mut witness: (int, int, Index2D) = (0, 0, Index2D { x: 0, y: 0 });

    let mut i: usize = 0;
    while i < keys.len()
        invariant
            i <= keys.len(),
            keys.len() * 268 <= usize::MAX,
            merged.wf(),
            merged.plugin == old(merged).plugin,
            same_but_elevation(s0, merged@),
            is_corner_phase(merged@, s0, keys@, i as int),
            num_seams_repaired <= 16 * i,
            changed_corners_until(s0, keys@, i as int).finite(),
            num_seams_repaired == changed_corners_until(s0, keys@, i as int).len(),
            possible_seams@.len() <= 4 * i,
            seams_listed(possible_seams@, pair_entries(visited)),
            forall|j: int, px: int, py: int|
                0 <= j < i && is_cell(px, py) && is_beside(
                    keys[j].x as int,
                    keys[j].y as int,
                    px,
                    py,
                ) ==> #[trigger] pair_among(
                    possible_seams@,
                    keys[j].x as int,
                    keys[j].y as int,
                    px,
                    py,
                ),
            num_seams_repaired == 0 ==> forall|x: int, y: int, p: Index2D|
                p.within(65) ==> #[trigger] elevation(merged@, x, y, p) == elevation(s0, x, y, p),
            num_seams_repaired > 0 ==> witness.2.within(65) && corners_repaired(
                s0,
                keys@,
                i as int,
                witness.0,
                witness.1,
                witness.2,
            ) != elevation(s0, witness.0, witness.1, witness.2),
        decreases keys.len() - i,
    {
        let coords = keys[i];
        let ghost before = merged@;
        let ghost num_before = num_seams_repaired;
        let ghost seams_before = possible_seams@;
        repair_corner_seams(merged, coords, &mut num_seams_repaired);
        push_back_neighbors(&mut possible_seams, &mut visited, coords);
        proof {
            let after = merged@;
            lemma_same_but_elevation_transitive(s0, before, after);
            lemma_corner_phase_step(s0, before, after, keys@, i as int);
            lemma_changed_corners_step(s0, before, keys@, i as int);
            if num_before == 0 {
                if num_seams_repaired > 0 {
                    let w = choose|x: int, y: int, p: Index2D|
                        p.within(65) && #[trigger] elevation(after, x, y, p) != elevation(
                            before,
                            x,
                            y,
                            p,
                        );
                    witness = w;
                    assert(elevation(before, w.0, w.1, w.2) == elevation(s0, w.0, w.1, w.2));
                    assert(elevation(after, w.0, w.1, w.2) == corners_repaired(
                        s0,
                        keys@,
                        i + 1,
                        w.0,
                        w.1,
                        w.2,
                    ));
                } else {
                    assert forall|x: int, y: int, p: Index2D|
                        p.within(65) implies #[trigger] elevation(after, x, y, p) == elevation(
                        s0,
                        x,
                        y,
                        p,
                    ) by {
                        assert(elevation(after, x, y, p) == elevation(before, x, y, p));
                    }
                }
            } else {
                if is_corner(witness.2) && lattice_done(
                    keys@,
                    i as int,
                    corner_x(witness.0, witness.2),
                    corner_y(witness.1, witness.2),
                ) {
                    lemma_lattice_done_grows(
                        keys@,
                        i as int,
                        corner_x(witness.0, witness.2),
                        corner_y(witness.1, witness.2),
                    );
                }
            }
            assert forall|j: int, px: int, py: int|
                0 <= j < i + 1 && is_cell(px, py) && is_beside(
                    keys[j].x as int,
                    keys[j].y as int,
                    px,
                    py,
                ) implies #[trigger] pair_among(
                possible_seams@,
                keys[j].x as int,
                keys[j].y as int,
                px,
                py,
            ) by {
                if j < i {
                    assert(pair_among(seams_before, keys[j].x as int, keys[j].y as int, px, py));
                    lemma_pair_among_grows(
                        seams_before,
                        possible_seams@,
                        keys[j].x as int,
                        keys[j].y as int,
                        px,
                        py,
                    );
                }
            }
        }
        i = i + 1;
    }

    let ghost cornered = merged@;
    let ghost all = possible_seams@;
    let total: usize = possible_seams.len();
    let mut processed: usize = 0;
    proof {
        assert forall|coords: Vec2<i32>| s0.dom().contains(coords) implies keys@.contains(
            coords,
        ) by {
            assert(keys@.to_set().contains(coords));
        }
        lemma_changed_corners_all(s0, keys@);
        assert(seam_differences_among(s0, all.subrange(0, 0)) =~= Set::<SeamPlace>::empty());
        assert(all.subrange(0, total as int) == all);
        assert(all.subrange(0, 0).len() == 0);
        assert forall|x: int, y: int, p: Index2D| p.within(65) implies #[trigger] elevation(
            cornered,
            x,
            y,
            p,
        ) == seams_repaired(cornered, all.subrange(0, 0), x, y, p) by {
            if pair_among(all.subrange(0, 0), x, y, partner_x(x, p), partner_y(y, p)) {
                assert(false);
            }
        }
        if num_seams_repaired > 0 {
            assert(elevation(cornered, witness.0, witness.1, witness.2) == corners_repaired(
                s0,
                keys@,
                keys.len() as int,
                witness.0,
                witness.1,
                witness.2,
            ));
        }
    }
    while processed < total
        invariant
            processed <= total,
            total == all.len(),
            total <= 4 * keys.len(),
            keys.len() * 268 <= usize::MAX,
            possible_seams@ == all.subrange(processed as int, total as int),
            forall|j: int| 0 <= j < all.len() ==> is_seam_pair((#[trigger] all[j]).0, all[j].1),
            merged.wf(),
            merged.plugin == old(merged).plugin,
            same_but_elevation(s0, merged@),
            is_corner_phase(cornered, s0, keys@, keys.len() as int),
            is_seam_phase(merged@, cornered, all.subrange(0, processed as int)),
            num_seams_repaired <= 16 * keys.len() + 63 * processed,
            changed_corners(s0).finite(),
            seam_differences_among(s0, all.subrange(0, processed as int)).finite(),
            num_seams_repaired == changed_corners(s0).len() + seam_differences_among(
                s0,
                all.subrange(0, processed as int),
            ).len(),
            num_seams_repaired == 0 ==> forall|x: int, y: int, p: Index2D|
                p.within(65) ==> #[trigger] elevation(merged@, x, y, p) == elevation(s0, x, y, p),
            num_seams_repaired > 0 ==> witness.2.within(65) && seams_repaired(
                cornered,
                all.subrange(0, processed as int),
                witness.0,
                witness.1,
                witness.2,
            ) != elevation(s0, witness.0, witness.1, witness.2),
        decreases total - processed,
    {
        let ghost before = merged@;
        let ghost num_before = num_seams_repaired;
        let ghost done = all.subrange(0, processed as int);
        match possible_seams.pop_front() {
            Some(next) => {
                proof {
                    assert(next == all[processed as int]);
                    assert(is_seam_pair(all[processed as int].0, all[processed as int].1));
                }
                repair_seam(merged, next.0, next.1, &mut num_seams_repaired);
                proof {
                    let after = merged@;
                    let more = all.subrange(0, processed + 1);
                    assert(more == done.push(next));
                    lemma_seam_differences_grow(s0, cornered, before, keys@, done, next);
                    lemma_same_but_elevation_transitive(s0, before, after);
                    lemma_seam_phase_step(cornered, before, after, done, next);
                    if num_before == 0 {
                        if num_seams_repaired > 0 {
                            let w = choose|x: int, y: int, p: Index2D|
                                p.within(65) && #[trigger] elevation(after, x, y, p) != elevation(
                                    before,
                                    x,
                                    y,
                                    p,
                                );
                            witness = w;
                            assert(elevation(before, w.0, w.1, w.2) == elevation(
                                s0,
                                w.0,
                                w.1,
                                w.2,
                            ));
                            assert(elevation(after, w.0, w.1, w.2) == seams_repaired(
                                cornered,
                                more,
                                w.0,
                                w.1,
                                w.2,
                            ));
                        } else {
                            assert forall|x: int, y: int, p: Index2D|
                                p.within(65) implies #[trigger] elevation(after, x, y, p)
                                == elevation(s0, x, y, p) by {
                                assert(elevation(after, x, y, p) == elevation(before, x, y, p));
                            }
                        }
                    } else {
                        let (x, y, p) = witness;
                        assert(elevation(cornered, x, y, p) == corners_repaired(
                            s0,
                            keys@,
                            keys.len() as int,
                            x,
                            y,
                            p,
                        ));
                        if is_edge_vertex(p) && pair_among(
                            done,
                            x,
                            y,
                            partner_x(x, p),
                            partner_y(y, p),
                        ) {
                            lemma_pair_among_grows(
                                done,
                                more,
                                x,
                                y,
                                partner_x(x, p),
                                partner_y(y, p),
                            );
                        }
                    }
                    assert(possible_seams@ == all.subrange(processed + 1, total as int));
                }
            },
            None => {
                proof {
                    assert(false);
                }
            },
        }
        processed = processed + 1;
    }
    proof {
        let after = merged@;
        assert(all.subrange(0, total as int) == all);
        assert forall|coords: Vec2<i32>, px: int, py: int|
            keys@.contains(coords) && is_cell(px, py) && is_beside(
                coords.x as int,
                coords.y as int,
                px,
                py,
            ) implies #[trigger] pair_among(all, coords.x as int, coords.y as int, px, py) by {
            let j = choose|j: int| 0 <= j < keys@.len() && keys@[j] == coords;
            assert(pair_among(all, keys[j].x as int, keys[j].y as int, px, py));
        }
        lemma_phases_complete(s0, cornered, after, keys@, all);
        lemma_seam_differences_all(s0, keys@, all);
        if num_seams_repaired > 0 {
            assert(elevation(after, witness.0, witness.1, witness.2) == seams_repaired(
                cornered,
                all,
                witness.0,
                witness.1,
                witness.2,
            ));
            assert(elevation(after, witness.0, witness.1, witness.2) == repaired_elevation(
                s0,
                witness.0,
                witness.1,
                witness.2,
            ));
        } else {
            assert forall|x: int, y: int, p: Index2D| p.within(65) implies #[trigger] repaired_elevation(
                s0,
                x,
                y,
                p,
            ) == elevation(s0, x, y, p) by {
                assert(elevation(after, x, y, p) == repaired_elevation(s0, x, y, p));
                assert(elevation(after, x, y, p) == elevation(s0, x, y, p));
            }
        }
    }
    num_seams_repaired
}

} // verus!
