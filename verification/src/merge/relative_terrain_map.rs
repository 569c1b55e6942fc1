use crate::land::grid_access::{
    lemma_row_major, row_major, walked, GridAccessor2D, GridIterator2D, Index2D,
    SquareGridIterator,
};
use crate::land::height_map::{calculate_vertex_normals_map, rise_origin, vertex_normal};
use crate::land::terrain_map::{lemma_flat_index_bound, TerrainMap, Vec3};
use crate::merge::relative_to::RelativeTo;
use vstd::prelude::*;

verus! {

/// A [RelativeTerrainMap] is a set of 3 [TerrainMap] representing the original terrain,
/// any differences from that original terrain as a delta, and a boolean grid of values
/// where `true` indicates that the difference from the original terrain is not zero.
pub struct RelativeTerrainMap<U: RelativeTo, const T: usize> {
    reference: TerrainMap<U, T>,
    relative: TerrainMap<<U as RelativeTo>::Delta, T>,
    has_difference: TerrainMap<bool, T>,
}

impl<U: RelativeTo, const T: usize> RelativeTerrainMap<U, T> {
    /// The original terrain at `coords`.
    pub closed spec fn reference_at(self, coords: Index2D) -> U {
        self.reference[coords]
    }

    /// The delta from the original terrain at `coords`.
    pub closed spec fn difference_at(self, coords: Index2D) -> <U as RelativeTo>::Delta {
        self.relative[coords]
    }

    /// Whether `coords` is marked as different from the original terrain.
    pub closed spec fn changed_at(self, coords: Index2D) -> bool {
        self.has_difference[coords]
    }

    /// The terrain at `coords`: the original terrain with the delta added.
    pub open spec fn value_at(self, coords: Index2D) -> U {
        U::sum(self.reference_at(coords), self.difference_at(coords))
    }

    /// The marks agree with the deltas: a position is marked exactly where its delta is not
    /// zero.
    pub open spec fn wf(self) -> bool {
        forall|p: Index2D|
            p.within(T) ==> #[trigger] self.changed_at(p) == (self.difference_at(p) != U::zero())
    }

    /// `self` has the original terrain of `before`, and its deltas but for the one at `coords`,
    /// which is `difference`.
    pub open spec fn is_update_of(
        self,
        before: Self,
        coords: Index2D,
        difference: <U as RelativeTo>::Delta,
    ) -> bool {
        &&& self.wf()
        &&& self.difference_at(coords) == difference
        &&& forall|p: Index2D|
            p.within(T) ==> #[trigger] self.reference_at(p) == before.reference_at(p)
        &&& forall|p: Index2D|
            p.within(T) && p != coords ==> #[trigger] self.difference_at(p)
                == before.difference_at(p)
    }

    /// The two maps have the same original terrain and the same deltas.
    pub open spec fn agrees_with(self, other: Self) -> bool {
        &&& forall|p: Index2D|
            p.within(T) ==> #[trigger] self.reference_at(p) == other.reference_at(p)
        &&& forall|p: Index2D|
            p.within(T) ==> #[trigger] self.difference_at(p) == other.difference_at(p)
    }

    /// No position of the map differs from the original terrain.
    pub open spec fn is_clean(self) -> bool {
        forall|p: Index2D| p.within(T) ==> #[trigger] self.difference_at(p) == U::zero()
    }

    /// Creates a [RelativeTerrainMap] with defaults.
    pub fn default() -> (r: Self)
        requires
            T * T <= usize::MAX,
        ensures
            r.wf(),
            r.is_clean(),
            forall|p: Index2D| p.within(T) ==> #[trigger] r.reference_at(p) == U::base(),
    {
        Self::empty(TerrainMap::new(U::base_value()))
    }

    /// Creates a [RelativeTerrainMap] from an existing reference [TerrainMap] without any
    /// differences from the reference.
    pub fn empty(reference: TerrainMap<U, T>) -> (r: Self)
        ensures
            r.wf(),
            r.is_clean(),
            forall|p: Index2D| p.within(T) ==> #[trigger] r.reference_at(p) == reference[p],
    {
        let relative = reference.uniform_like(U::no_difference());
        let has_difference = reference.uniform_like(false);
        Self { reference, relative, has_difference }
    }

    /// Given a reference [TerrainMap] and a plugin [TerrainMap], calculates the
    /// [RelativeTerrainMap] of the plugin with respect to the reference.
    pub fn from_difference(reference: &TerrainMap<U, T>, plugin: &TerrainMap<U, T>) -> (r: Self)
        ensures
            r.wf(),
            forall|p: Index2D| p.within(T) ==> #[trigger] r.reference_at(p) == reference[p],
            forall|p: Index2D|
                p.within(T) ==> #[trigger] r.difference_at(p) == U::difference(
                    plugin[p],
                    reference[p],
                ),
            forall|p: Index2D| p.within(T) ==> #[trigger] r.value_at(p) == plugin[p],
    {
        let mut output = RelativeTerrainMap::empty(reference.duplicate());
        let mut y: usize = 0;
        while y < T
            invariant
                y <= T,
                output.wf(),
                forall|p: Index2D|
                    p.within(T) ==> #[trigger] output.reference_at(p) == reference[p],
                forall|p: Index2D|
                    p.within(T) && walked(p, 0, y) ==> #[trigger] output.difference_at(p)
                        == U::difference(plugin[p], reference[p]),
                forall|p: Index2D|
                    p.within(T) && !walked(p, 0, y) ==> #[trigger] output.difference_at(p)
                        == U::zero(),
            decreases T - y,
        {
            let mut x: usize = 0;
            while x < T
                invariant
                    x <= T,
                    y < T,
                    output.wf(),
                    forall|p: Index2D|
                        p.within(T) ==> #[trigger] output.reference_at(p) == reference[p],
                    forall|p: Index2D|
                        p.within(T) && walked(p, x, y) ==> #[trigger] output.difference_at(p)
                            == U::difference(plugin[p], reference[p]),
                    forall|p: Index2D|
                        p.within(T) && !walked(p, x, y) ==> #[trigger] output.difference_at(p)
                            == U::zero(),
                decreases T - x,
            {
                let coords = Index2D::new(x, y);
                output.set_value(coords, plugin.at(coords));
                x = x + 1;
            }
            y = y + 1;
        }
        proof {
            assert forall|p: Index2D| p.within(T) implies #[trigger] output.value_at(p)
                == plugin[p] by {
                U::lemma_add_subtract(plugin[p], reference[p]);
            }
        }
        output
    }

    /// Read-only access to the `true` or `false` differences grid.
    pub fn differences(&self) -> (r: &TerrainMap<bool, T>)
        ensures
            forall|p: Index2D| p.within(T) ==> #[trigger] r[p] == self.changed_at(p),
    {
        &self.has_difference
    }

    /// Get the value at `coords` by adding the difference to the reference.
    pub fn get_value(&self, coords: Index2D) -> (r: U)
        requires
            coords.within(T),
        ensures
            r == self.value_at(coords),
    {
        <U as RelativeTo>::add(self.reference.at(coords), self.relative.at(coords))
    }

    /// Set the value at `coords` by calculating a new difference from the reference.
    pub fn set_value(&mut self, coords: Index2D, value: U)
        requires
            old(self).wf(),
            coords.within(T),
        ensures
            final(self).is_update_of(
                *old(self),
                coords,
                U::difference(value, old(self).reference_at(coords)),
            ),
            final(self).value_at(coords) == value,
    {
        let difference = U::subtract(value, self.reference.at(coords));
        proof {
            U::lemma_add_subtract(value, self.reference_at(coords));
        }
        self.set_difference(coords, difference);
    }

    /// Get the difference at `coords`.
    pub fn get_difference(&self, coords: Index2D) -> (r: <U as RelativeTo>::Delta)
        requires
            coords.within(T),
        ensures
            r == self.difference_at(coords),
    {
        self.relative.at(coords)
    }

    /// Set the difference at `coords`.
    pub fn set_difference(&mut self, coords: Index2D, difference: <U as RelativeTo>::Delta)
        requires
            old(self).wf(),
            coords.within(T),
        ensures
            final(self).is_update_of(*old(self), coords, difference),
    {
        let ghost before = *self;
        self.relative.set(coords, difference);
        self.has_difference.set(coords, !U::is_zero(difference));
        proof {
            assert forall|p: Index2D| p.within(T) implies #[trigger] self.changed_at(p) == (
            self.difference_at(p) != U::zero()) by {
                if p != coords {
                    assert(before.changed_at(p) == (before.difference_at(p) != U::zero()));
                }
            }
        }
    }

    /// Returns `true` if there is a difference at `coords` with respect to the reference.
    pub fn has_difference(&self, coords: Index2D) -> (r: bool)
        requires
            self.wf(),
            coords.within(T),
        ensures
            r == self.changed_at(coords),
            r == (self.difference_at(coords) != U::zero()),
            !r ==> self.value_at(coords) == self.reference_at(coords),
    {
        proof {
            U::lemma_add_subtract(self.reference_at(coords), self.reference_at(coords));
            U::lemma_zero_difference(self.reference_at(coords), self.reference_at(coords));
        }
        self.has_difference.at(coords)
    }

    /// Remove all differences.
    pub fn clean_all(&mut self)
        ensures
            final(self).wf(),
            final(self).is_clean(),
            forall|p: Index2D|
                p.within(T) ==> #[trigger] final(self).reference_at(p) == old(self).reference_at(
                    p,
                ),
    {
        self.has_difference = self.reference.uniform_like(false);
        self.relative = self.reference.uniform_like(U::no_difference());
    }

    /// Remove differences from all coordinates in `positions`.
    pub fn clean_some(&mut self, positions: &Vec<Index2D>)
        requires
            old(self).wf(),
            forall|i: int| 0 <= i < positions.len() ==> (#[trigger] positions[i]).within(T),
        ensures
            final(self).wf(),
            forall|p: Index2D|
                p.within(T) ==> #[trigger] final(self).reference_at(p) == old(self).reference_at(
                    p,
                ),
            forall|p: Index2D|
                p.within(T) ==> #[trigger] final(self).difference_at(p) == if positions@.contains(
                    p,
                ) {
                    U::zero()
                } else {
                    old(self).difference_at(p)
                },
    {
        let mut i: usize = 0;
        while i < positions.len()
            invariant
                i <= positions.len(),
                self.wf(),
                forall|k: int| 0 <= k < positions.len() ==> (#[trigger] positions[k]).within(T),
                forall|p: Index2D|
                    p.within(T) ==> #[trigger] self.reference_at(p) == old(self).reference_at(p),
                forall|p: Index2D|
                    p.within(T) ==> #[trigger] self.difference_at(p) == if positions@.subrange(
                        0,
                        i as int,
                    ).contains(p) {
                        U::zero()
                    } else {
                        old(self).difference_at(p)
                    },
            decreases positions.len() - i,
        {
            let coords = positions[i];
            let ghost before = *self;
            self.set_difference(coords, U::no_difference());
            proof {
                let done = positions@.subrange(0, i as int);
                let next = positions@.subrange(0, i + 1);
                assert(next == done.push(coords));
                assert forall|p: Index2D| p.within(T) implies #[trigger] self.difference_at(p)
                    == if next.contains(p) {
                    U::zero()
                } else {
                    old(self).difference_at(p)
                } by {
                    if p == coords {
                        assert(next[i as int] == p);
                    } else {
                        assert(self.difference_at(p) == before.difference_at(p));
                        if done.contains(p) {
                            let k = choose|k: int| 0 <= k < done.len() && done[k] == p;
                            assert(next[k] == p);
                        }
                        if next.contains(p) {
                            let k = choose|k: int| 0 <= k < next.len() && next[k] == p;
                            assert(done[k] == p);
                        }
                    }
                }
            }
            i = i + 1;
        }
        proof {
            assert(positions@.subrange(0, positions.len() as int) == positions@);
        }
    }

    /// Create a new [TerrainMap] by adding the differences to the reference.
    /// This is the same as calling [RelativeTerrainMap::get_value] in a loop for each coordinate.
    pub fn to_terrain(&self) -> (r: TerrainMap<U, T>)
        ensures
            forall|p: Index2D| p.within(T) ==> #[trigger] r[p] == self.value_at(p),
    {
        let mut terrain = self.reference.duplicate();
        let mut y: usize = 0;
        while y < T
            invariant
                y <= T,
                forall|p: Index2D|
                    p.within(T) && walked(p, 0, y) ==> #[trigger] terrain[p] == self.value_at(p),
            decreases T - y,
        {
            let mut x: usize = 0;
            while x < T
                invariant
                    x <= T,
                    y < T,
                    forall|p: Index2D|
                        p.within(T) && walked(p, x, y) ==> #[trigger] terrain[p] == self.value_at(
                            p,
                        ),
                decreases T - x,
            {
                let coords = Index2D::new(x, y);
                terrain.set(coords, self.get_value(coords));
                x = x + 1;
            }
            y = y + 1;
        }
        terrain
    }

    /// A copy of the map.
    pub fn duplicate(&self) -> (r: Self)
        ensures
            r.agrees_with(*self),
            self.wf() ==> r.wf(),
            forall|p: Index2D| p.within(T) ==> #[trigger] r.changed_at(p) == self.changed_at(p),
    {
        let r = Self {
            reference: self.reference.duplicate(),
            relative: self.relative.duplicate(),
            has_difference: self.has_difference.duplicate(),
        };
        proof {
            if self.wf() {
                assert forall|p: Index2D| p.within(T) implies #[trigger] r.changed_at(p) == (
                r.difference_at(p) != U::zero()) by {
                    assert(self.changed_at(p) == (self.difference_at(p) != U::zero()));
                }
            }
        }
        r
    }
}

/// In a map whose marks agree with its deltas, a position is marked exactly where its delta
/// is not zero, its value is the original terrain with the delta added, and a position that
/// is not marked has the value of the original terrain.
pub proof fn lemma_marks_and_values<U: RelativeTo, const T: usize>(
    map: RelativeTerrainMap<U, T>,
    coords: Index2D,
)
    requires
        map.wf(),
        coords.within(T),
    ensures
        map.changed_at(coords) == (map.difference_at(coords) != U::zero()),
        map.value_at(coords) == U::sum(map.reference_at(coords), map.difference_at(coords)),
        !map.changed_at(coords) ==> map.value_at(coords) == map.reference_at(coords),
{
    U::lemma_add_subtract(map.reference_at(coords), map.reference_at(coords));
    U::lemma_zero_difference(map.reference_at(coords), map.reference_at(coords));
}

/// Types implementing [IsModified] report a boolean status and
/// a count of differences from the reference.
pub trait IsModified {
    /// Whether anything differs from the reference.
    spec fn modified(&self) -> bool;

    /// The number of positions that differ from the reference.
    spec fn differences_count(&self) -> nat;

    /// Returns `true` if there are differences from the reference.
    fn is_modified(&self) -> (r: bool)
        ensures
            r == self.modified(),
    ;

    /// Returns the count of differences from the reference.
    fn num_differences(&self) -> (r: usize)
        ensures
            r == self.differences_count(),
    ;
}

impl<U: RelativeTo, const T: usize> RelativeTerrainMap<U, T> {
    /// The number of marked positions among the first `count` of a walk row by row.
    pub open spec fn marked_among(self, count: nat) -> nat
        decreases count,
    {
        if count == 0 {
            0
        } else {
            let rest = self.marked_among((count - 1) as nat);
            if self.changed_at(row_major(T, (count - 1) as nat)) {
                rest + 1
            } else {
                rest
            }
        }
    }
}

impl<U: RelativeTo, const T: usize> RelativeTerrainMap<U, T> {
    /// Some position is marked as different from the original terrain.
    pub open spec fn has_differences(self) -> bool {
        exists|p: Index2D| p.within(T) && #[trigger] self.changed_at(p)
    }

    /// Returns `true` if some position differs from the original terrain.
    pub fn any_difference(&self) -> (r: bool)
        ensures
            r == self.has_differences(),
    {
        let mut y: usize = 0;
        while y < T
            invariant
                y <= T,
                forall|p: Index2D| p.within(T) && walked(p, 0, y) ==> !#[trigger] self.changed_at(p),
            decreases T - y,
        {
            let mut x: usize = 0;
            while x < T
                invariant
                    x <= T,
                    y < T,
                    forall|p: Index2D|
                        p.within(T) && walked(p, x, y) ==> !#[trigger] self.changed_at(p),
                decreases T - x,
            {
                let coords = Index2D::new(x, y);
                if self.has_difference.at(coords) {
                    assert(self.changed_at(coords));
                    return true;
                }
                x = x + 1;
            }
            y = y + 1;
        }
        false
    }

    /// Returns the number of positions that differ from the original terrain.
    pub fn count_differences(&self) -> (r: usize)
        ensures
            r == self.marked_among((T * T) as nat),
    {
        let total: usize = self.has_difference.len();
        let mut count: usize = 0;
        let mut y: usize = 0;
        proof {
            assert(0 * T == 0) by (nonlinear_arith);
        }
        while y < T
            invariant
                y <= T,
                total == T * T,
                count == self.marked_among((y * T) as nat),
                count <= y * T,
            decreases T - y,
        {
            let mut x: usize = 0;
            while x < T
                invariant
                    x <= T,
                    y < T,
                    total == T * T,
                    count == self.marked_among((y * T + x) as nat),
                    count <= y * T + x,
                decreases T - x,
            {
                proof {
                    lemma_row_major(T, x, y);
                    lemma_flat_index_bound(T as int, x as int, y as int);
                }
                if self.has_difference.at(Index2D::new(x, y)) {
                    count = count + 1;
                }
                x = x + 1;
            }
            proof {
                assert((y + 1) * T == y * T + T) by (nonlinear_arith);
            }
            y = y + 1;
        }
        proof {
            assert(T * T == y * T);
        }
        count
    }
}

impl<U: RelativeTo, const T: usize> IsModified for RelativeTerrainMap<U, T> {
    open spec fn modified(&self) -> bool {
        self.has_differences()
    }

    open spec fn differences_count(&self) -> nat {
        self.marked_among((T * T) as nat)
    }

    fn is_modified(&self) -> (r: bool) {
        self.any_difference()
    }

    fn num_differences(&self) -> (r: usize) {
        self.count_differences()
    }
}

impl<U: RelativeTo, const T: usize> IsModified for OptionalTerrainMap<U, T> {
    open spec fn modified(&self) -> bool {
        match self {
            Some(map) => map.has_differences(),
            None => false,
        }
    }

    open spec fn differences_count(&self) -> nat {
        match self {
            Some(map) => map.marked_among((T * T) as nat),
            None => 0,
        }
    }

    fn is_modified(&self) -> (r: bool) {
        match self {
            Some(map) => map.any_difference(),
            None => false,
        }
    }

    fn num_differences(&self) -> (r: usize) {
        match self {
            Some(map) => map.count_differences(),
            None => 0,
        }
    }
}

/// An [Option] wrapping a [RelativeTerrainMap].
pub type OptionalTerrainMap<U, const T: usize> = Option<RelativeTerrainMap<U, T>>;

impl<U: RelativeTo, const T: usize> SquareGridIterator<T> for RelativeTerrainMap<U, T> {
    fn iter_grid(&self) -> (r: GridIterator2D<T, T>) {
        GridIterator2D::new()
    }
}

/// Holder of the blank [RelativeTerrainMap] of a cell.
pub struct DefaultRelativeTerrainMap {}

impl DefaultRelativeTerrainMap {
    /// A blank [RelativeTerrainMap] representing an empty height map.
    pub fn height_map() -> (r: RelativeTerrainMap<i32, 65>)
        ensures
            r.wf(),
            r.is_clean(),
            forall|p: Index2D| p.within(65) ==> #[trigger] r.reference_at(p) == 0,
    {
        RelativeTerrainMap::default()
    }

    /// A blank [RelativeTerrainMap] representing an empty vertex normals map.
    pub fn vertex_normals() -> (r: RelativeTerrainMap<Vec3<i8>, 65>)
        ensures
            r.wf(),
            r.is_clean(),
            forall|p: Index2D|
                p.within(65) ==> #[trigger] r.reference_at(p) == (Vec3 { x: 0i8, y: 0i8, z: 0i8 }),
    {
        RelativeTerrainMap::default()
    }
}

/// Creates a [TerrainMap] representing the vertex normals of the `height_map` argument by
/// recalculating the vertex normals from the terrain. If the optional `vertex_normals`
/// is [Some], then the function will reuse those vertex normals on any unmodified coordinate
/// in the `height_map` instead of calculating new normals.
pub fn recompute_vertex_normals(
    height_map: &RelativeTerrainMap<i32, 65>,
    vertex_normals: Option<&RelativeTerrainMap<Vec3<i8>, 65>>,
) -> (r: TerrainMap<Vec3<i8>, 65>)
    requires
        height_map.wf(),
    ensures
        forall|p: Index2D|
            p.within(65) ==> (#[trigger] r[p]) == match vertex_normals {
                Some(normals) if !height_map.changed_at(p) => normals.value_at(p),
                _ => vertex_normal(|q: Index2D| height_map.value_at(q), 65, p),
            },
{
    let height_map_abs = height_map.to_terrain();

    let mut recomputed_vertex_normals = calculate_vertex_normals_map(&height_map_abs);
    proof {
        assert forall|p: Index2D| p.within(65) implies (
        #[trigger] recomputed_vertex_normals[p]) == vertex_normal(
            |q: Index2D| height_map.value_at(q),
            65,
            p,
        ) by {
            lemma_normal_of_same_heights(
                |q: Index2D| height_map_abs[q],
                |q: Index2D| height_map.value_at(q),
                65,
                p,
            );
        }
    }

    if let Some(vertex_normals) = vertex_normals {
        let mut y: usize = 0;
        while y < 65
            invariant
                y <= 65,
                height_map.wf(),
                forall|p: Index2D|
                    p.within(65) ==> (#[trigger] recomputed_vertex_normals[p]) == if walked(
                        p,
                        0,
                        y,
                    ) && !height_map.changed_at(p) {
                        vertex_normals.value_at(p)
                    } else {
                        vertex_normal(|q: Index2D| height_map.value_at(q), 65, p)
                    },
            decreases 65 - y,
        {
            let mut x: usize = 0;
            while x < 65
                invariant
                    x <= 65,
                    y < 65,
                    height_map.wf(),
                    forall|p: Index2D|
                        p.within(65) ==> (#[trigger] recomputed_vertex_normals[p]) == if walked(
                            p,
                            x,
                            y,
                        ) && !height_map.changed_at(p) {
                            vertex_normals.value_at(p)
                        } else {
                            vertex_normal(|q: Index2D| height_map.value_at(q), 65, p)
                        },
                decreases 65 - x,
            {
                let coords = Index2D::new(x, y);
                if !height_map.has_difference(coords) {
                    recomputed_vertex_normals.set(coords, vertex_normals.get_value(coords));
                }
                x = x + 1;
            }
            y = y + 1;
        }
    }

    recomputed_vertex_normals
}

/// The normal at a vertex is the same for two elevations that agree on the grid.
pub proof fn lemma_normal_of_same_heights(
    first: spec_fn(Index2D) -> i32,
    second: spec_fn(Index2D) -> i32,
    side: usize,
    coords: Index2D,
)
    requires
        side >= 2,
        coords.within(side),
        forall|p: Index2D| p.within(side) ==> #[trigger] first(p) == second(p),
    ensures
        vertex_normal(first, side, coords) == vertex_normal(second, side, coords),
{
    let x = rise_origin(coords.x, side);
    let y = rise_origin(coords.y, side);
    assert(first(Index2D { x, y }) == second(Index2D { x, y }));
    assert(first(Index2D { x: (x + 1) as usize, y }) == second(
        Index2D { x: (x + 1) as usize, y },
    ));
    assert(first(Index2D { x, y: (y + 1) as usize }) == second(
        Index2D { x, y: (y + 1) as usize },
    ));
}

} // verus!
