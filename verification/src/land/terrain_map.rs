use crate::land::grid_access::{GridAccessor2D, GridIterator2D, Index2D, SquareGridIterator};
use vstd::prelude::*;

verus! {

/// A [Vec2] is an `x` and `y` value.
#[derive(Clone, Copy, Debug, PartialEq, Eq, Hash)]
pub struct Vec2<T> {
    pub x: T,
    pub y: T,
}

impl<T> Vec2<T> {
    pub fn new(x: T, y: T) -> (r: Self)
        ensures
            r.x == x,
            r.y == y,
    {
        Self { x, y }
    }
}

/// A [Vec3] is an `x`, `y`, and `z` value.
#[derive(Clone, Copy, Debug, PartialEq, Eq, Hash)]
pub struct Vec3<T> {
    pub x: T,
    pub y: T,
    pub z: T,
}

impl<T> Vec3<T> {
    pub fn new(x: T, y: T, z: T) -> (r: Self)
        ensures
            r.x == x,
            r.y == y,
            r.z == z,
    {
        Self { x, y, z }
    }
}

/// The data included with some landscape or landscape diff.
#[derive(Clone, Copy, Debug, PartialEq, Eq, Hash, Structural)]
pub struct LandData {
    pub vertex_colors: bool,
    pub textures: bool,
    pub vertex_heights: bool,
    pub vertex_normals: bool,
    pub world_map: bool,
}

impl LandData {
    /// No data at all.
    pub open spec fn nothing() -> LandData {
        LandData {
            vertex_colors: false,
            textures: false,
            vertex_heights: false,
            vertex_normals: false,
            world_map: false,
        }
    }

    /// No data at all.
    pub fn empty() -> (r: Self)
        ensures
            r == Self::nothing(),
    {
        LandData {
            vertex_colors: false,
            textures: false,
            vertex_heights: false,
            vertex_normals: false,
            world_map: false,
        }
    }

    /// Returns `true` if no data is included.
    pub fn is_empty(&self) -> (r: bool)
        ensures
            r == (*self == Self::nothing()),
    {
        !self.vertex_colors && !self.textures && !self.vertex_heights && !self.vertex_normals
            && !self.world_map
    }

    /// Returns `true` if all of the data of `other` is included.
    pub fn contains(&self, other: LandData) -> (r: bool)
        ensures
            r == ((other.vertex_colors ==> self.vertex_colors) && (other.textures
                ==> self.textures) && (other.vertex_heights ==> self.vertex_heights) && (
            other.vertex_normals ==> self.vertex_normals) && (other.world_map ==> self.world_map)),
    {
        (!other.vertex_colors || self.vertex_colors) && (!other.textures || self.textures) && (
        !other.vertex_heights || self.vertex_heights) && (!other.vertex_normals
            || self.vertex_normals) && (!other.world_map || self.world_map)
    }

    /// Includes all of the data of `other`.
    pub fn insert(&mut self, other: LandData)
        ensures
            final(self).vertex_colors == (old(self).vertex_colors || other.vertex_colors),
            final(self).textures == (old(self).textures || other.textures),
            final(self).vertex_heights == (old(self).vertex_heights || other.vertex_heights),
            final(self).vertex_normals == (old(self).vertex_normals || other.vertex_normals),
            final(self).world_map == (old(self).world_map || other.world_map),
    {
        self.vertex_colors = self.vertex_colors || other.vertex_colors;
        self.textures = self.textures || other.textures;
        self.vertex_heights = self.vertex_heights || other.vertex_heights;
        self.vertex_normals = self.vertex_normals || other.vertex_normals;
        self.world_map = self.world_map || other.world_map;
    }

    /// Leaves out all of the data of `other`.
    pub fn remove(&mut self, other: LandData)
        ensures
            final(self).vertex_colors == (old(self).vertex_colors && !other.vertex_colors),
            final(self).textures == (old(self).textures && !other.textures),
            final(self).vertex_heights == (old(self).vertex_heights && !other.vertex_heights),
            final(self).vertex_normals == (old(self).vertex_normals && !other.vertex_normals),
            final(self).world_map == (old(self).world_map && !other.world_map),
    {
        self.vertex_colors = self.vertex_colors && !other.vertex_colors;
        self.textures = self.textures && !other.textures;
        self.vertex_heights = self.vertex_heights && !other.vertex_heights;
        self.vertex_normals = self.vertex_normals && !other.vertex_normals;
        self.world_map = self.world_map && !other.world_map;
    }

    /// The data as a set of bits: one bit for each kind that is included.
    pub fn bits(&self) -> (r: u32)
        ensures
            r == (if self.vertex_colors { 2int } else { 0 }) + (if self.textures { 4int } else { 0 })
                + (if self.vertex_heights { 8int } else { 0 }) + (if self.vertex_normals {
                16int
            } else {
                0
            }) + (if self.world_map { 32int } else { 0 }),
    {
        let mut bits: u32 = 0;
        if self.vertex_colors {
            bits = bits + 2;
        }
        if self.textures {
            bits = bits + 4;
        }
        if self.vertex_heights {
            bits = bits + 8;
        }
        if self.vertex_normals {
            bits = bits + 16;
        }
        if self.world_map {
            bits = bits + 32;
        }
        bits
    }
}

impl Default for LandData {
    fn default() -> (r: Self)
        ensures
            r == Self::nothing(),
    {
        Self::empty()
    }
}

/// The place of position (`x`, `y`) in the row-major storage of a grid with `side` positions
/// on each axis lies inside that storage.
pub proof fn lemma_flat_index_bound(side: int, x: int, y: int)
    requires
        0 <= x < side,
        0 <= y < side,
    ensures
        0 <= y * side + x < side * side,
{
    assert(0 <= y * side + x < side * side) by (nonlinear_arith)
        requires
            0 <= x < side,
            0 <= y < side,
    ;
}

/// Two positions of a grid that share their place in its row-major storage are the same.
pub proof fn lemma_flat_index_injective(side: int, x1: int, y1: int, x2: int, y2: int)
    requires
        0 <= x1 < side,
        0 <= x2 < side,
        0 <= y1,
        0 <= y2,
        y1 * side + x1 == y2 * side + x2,
    ensures
        x1 == x2,
        y1 == y2,
{
    let n = y1 * side + x1;
    assert(0 <= n) by (nonlinear_arith)
        requires
            n == y1 * side + x1,
            0 <= y1,
            0 <= side,
            0 <= x1,
    ;
    vstd::arithmetic::div_mod::lemma_fundamental_div_mod_converse(n, side, y1, x1);
    vstd::arithmetic::div_mod::lemma_fundamental_div_mod_converse(n, side, y2, x2);
}

/// The place of position (`x`, `y`) in the row-major storage of a grid with `side` positions
/// on each axis.
pub open spec fn flat_index(side: int, x: int, y: int) -> int {
    y * side + x
}

/// A square grid of `T` by `T` values, stored row by row.
/// Its view is the sequence of its rows, first row first.
pub struct TerrainMap<U, const T: usize> {
    data: Vec<U>,
}

impl<U, const T: usize> TerrainMap<U, T> {
    #[verifier::type_invariant]
    spec fn inv(self) -> bool {
        self.data.len() == T * T
    }

    /// The value stored for column `x` of row `y`.
    pub closed spec fn cell(self, x: int, y: int) -> U {
        self.data@[flat_index(T as int, x, y)]
    }

    /// The rows of the grid: `T` sequences of `T` values each.
    pub open spec fn view(self) -> Seq<Seq<U>> {
        Seq::new(T as nat, |y: int| Seq::new(T as nat, |x: int| self.cell(x, y)))
    }

    /// The value at `coords`.
    pub open spec fn spec_index(self, coords: Index2D) -> U {
        self@[coords.y as int][coords.x as int]
    }

    /// The rows of a grid that holds `value` everywhere.
    pub open spec fn uniform(value: U) -> Seq<Seq<U>> {
        Seq::new(T as nat, |y: int| Seq::new(T as nat, |x: int| value))
    }

    /// The number of positions of the grid.
    pub fn len(&self) -> (n: usize)
        ensures
            n == T * T,
    {
        proof {
            use_type_invariant(self);
        }
        self.data.len()
    }

    /// Grids that agree at every position have the same view.
    pub proof fn lemma_view_eq(self, other: Self)
        requires
            forall|p: Index2D| p.within(T) ==> #[trigger] self[p] == other[p],
        ensures
            self@ == other@,
    {
        assert forall|y: int| 0 <= y < T implies #[trigger] self@[y] == other@[y] by {
            assert forall|x: int| 0 <= x < T implies #[trigger] self@[y][x] == other@[y][x] by {
                let p = Index2D { x: x as usize, y: y as usize };
                assert(self[p] == other[p]);
            }
            assert(self@[y] =~= other@[y]);
        }
        assert(self@ =~= other@);
    }
}

impl<U: Copy, const T: usize> TerrainMap<U, T> {
    /// A grid that holds `fill` at every position.
    pub fn new(fill: U) -> (r: Self)
        requires
            T * T <= usize::MAX,
        ensures
            r@ == Self::uniform(fill),
    {
        let n: usize = T * T;
        let mut data: Vec<U> = Vec::new();
        let mut i: usize = 0;
        while i < n
            invariant
                i <= n,
                n == T * T,
                data.len() == i,
                forall|k: int| 0 <= k < i ==> data[k] == fill,
            decreases n - i,
        {
            data.push(fill);
            i = i + 1;
        }
        let r = TerrainMap { data };
        proof {
            assert forall|y: int| 0 <= y < T implies #[trigger] r@[y] == Self::uniform(fill)[y] by {
                assert forall|x: int| 0 <= x < T implies #[trigger] r@[y][x] == fill by {
                    lemma_flat_index_bound(T as int, x, y);
                }
                assert(r@[y] =~= Self::uniform(fill)[y]);
            }
            assert(r@ =~= Self::uniform(fill));
        }
        r
    }

    /// A grid that holds `fill` at every position, made beside a grid of the same side.
    pub fn uniform_like<V: Copy>(&self, fill: V) -> (r: TerrainMap<V, T>)
        ensures
            r@ == TerrainMap::<V, T>::uniform(fill),
    {
        proof {
            use_type_invariant(self);
        }
        TerrainMap::new(fill)
    }

    /// Sets the value at `coords`, and leaves every other position as it was.
    pub fn set(&mut self, coords: Index2D, value: U)
        requires
            coords.within(T),
        ensures
            final(self)[coords] == value,
            forall|p: Index2D|
                p.within(T) && p != coords ==> #[trigger] final(self)[p] == old(self)[p],
    {
        *self.at_mut(coords) = value;
    }

    /// A copy of the grid.
    pub fn duplicate(&self) -> (r: Self)
        ensures
            r@ == self@,
    {
        proof {
            use_type_invariant(self);
        }
        let n: usize = self.data.len();
        let mut data: Vec<U> = Vec::new();
        let mut i: usize = 0;
        while i < n
            invariant
                i <= n,
                n == self.data.len(),
                data.len() == i,
                forall|k: int| 0 <= k < i ==> data[k] == self.data[k],
            decreases n - i,
        {
            data.push(self.data[i]);
            i = i + 1;
        }
        let r = TerrainMap { data };
        proof {
            assert forall|p: Index2D| p.within(T) implies #[trigger] r[p] == self[p] by {
                lemma_flat_index_bound(T as int, p.x as int, p.y as int);
            }
            r.lemma_view_eq(*self);
        }
        r
    }
}

impl<U: Copy, const T: usize> TerrainMap<U, T> {
    /// The value at `coords`.
    pub fn at(&self, coords: Index2D) -> (r: U)
        requires
            coords.within(T),
        ensures
            r == self[coords],
    {
        proof {
            use_type_invariant(self);
            lemma_flat_index_bound(T as int, coords.x as int, coords.y as int);
        }
        self.data[coords.y * T + coords.x]
    }

    /// A mutable reference to the value at `coords`.
    /// Writing through it changes the grid at `coords` and nowhere else.
    pub fn at_mut(&mut self, coords: Index2D) -> (r: &mut U)
        requires
            coords.within(T),
        ensures
            *r == old(self)[coords],
            final(self)[coords] == *final(r),
            forall|p: Index2D|
                p.within(T) && p != coords ==> #[trigger] final(self)[p] == old(self)[p],
    {
        proof {
            use_type_invariant(&*self);
            lemma_flat_index_bound(T as int, coords.x as int, coords.y as int);
            assert forall|x: int, y: int|
                0 <= x < T && 0 <= y < T && !(x == coords.x && y == coords.y) implies 0
                <= #[trigger] flat_index(T as int, x, y) < T * T && flat_index(T as int, x, y)
                != coords.y * T + coords.x by {
                lemma_flat_index_bound(T as int, x, y);
                if flat_index(T as int, x, y) == coords.y * T + coords.x {
                    lemma_flat_index_injective(T as int, x, y, coords.x as int, coords.y as int);
                }
            }
        }
        &mut self.data[coords.y * T + coords.x]
    }
}

impl<U: Copy, const T: usize> GridAccessor2D<U> for TerrainMap<U, T> {
    open spec fn holds(&self, coords: Index2D) -> bool {
        coords.within(T)
    }

    open spec fn value_at(&self, coords: Index2D) -> U {
        self[coords]
    }

    fn get(&self, coords: Index2D) -> (r: U) {
        self.at(coords)
    }

    fn get_mut(&mut self, coords: Index2D) -> (r: &mut U) {
        self.at_mut(coords)
    }
}

impl<U, const T: usize> SquareGridIterator<T> for TerrainMap<U, T> {
    fn iter_grid(&self) -> (r: GridIterator2D<T, T>) {
        GridIterator2D::new()
    }
}

} // verus!
