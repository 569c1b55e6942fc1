use vstd::prelude::*;

verus! {

/// An index on some 2D grid.
#[derive(Clone, Copy, Debug, PartialEq, Eq, Hash, Structural)]
pub struct Index2D {
    pub x: usize,
    pub y: usize,
}

/// A position on some 2D grid: another name of [Index2D].
pub type GridPosition2D = Index2D;

impl Index2D {
    /// Returns a new [Index2D] with coordinates `x` and `y`.
    pub fn new(x: usize, y: usize) -> (r: Self)
        ensures
            r.x == x,
            r.y == y,
    {
        Self { x, y }
    }

    /// Whether the index lies on a square grid with `side` positions on each axis.
    pub open spec fn within(self, side: usize) -> bool {
        self.x < side && self.y < side
    }
}

/// Whether `p` comes before column `x` of row `y` where a grid is walked row by row.
pub open spec fn walked(p: Index2D, x: usize, y: usize) -> bool {
    p.y < y || (p.y == y && p.x < x)
}

impl Default for Index2D {
    fn default() -> (r: Self)
        ensures
            r.x == 0,
            r.y == 0,
    {
        Self { x: 0, y: 0 }
    }
}

/// The position that a row-major walk of a grid `width` wide reaches after `count` steps.
pub open spec fn row_major(width: usize, count: nat) -> Index2D {
    Index2D { x: (count % (width as nat)) as usize, y: (count / (width as nat)) as usize }
}

/// A walk over some 2D grid, `X` wide and `Y` high.
/// The order is x-axis first, then y-axis.
pub struct GridIterator2D<const X: usize, const Y: usize> {
    coords: Index2D,
}

impl<const X: usize, const Y: usize> GridIterator2D<X, Y> {
    #[verifier::type_invariant]
    spec fn inv(self) -> bool {
        X > 0 && ((self.coords.x < X && self.coords.y < Y) || (self.coords.x == 0
            && self.coords.y == Y))
    }

    /// The number of positions handed out so far.
    pub closed spec fn count(self) -> nat {
        (self.coords.y * X + self.coords.x) as nat
    }

    /// A walk that starts at the origin of a grid that is not empty.
    pub fn new() -> (r: Self)
        requires
            X > 0,
        ensures
            r.count() == 0,
    {
        Self { coords: Index2D { x: 0, y: 0 } }
    }

    /// Hands out the next position, or [None] once all `X * Y` have been handed out.
    pub fn next(&mut self) -> (r: Option<Index2D>)
        ensures
            old(self).count() <= X * Y,
            old(self).count() < X * Y ==> r == Some(row_major(X, old(self).count()))
                && final(self).count() == old(self).count() + 1,
            old(self).count() == X * Y ==> r.is_none() && final(self).count() == old(self).count(),
            r matches Some(p) ==> p.x < X && p.y < Y,
    {
        proof {
            use_type_invariant(&*self);
            lemma_row_major(X, self.coords.x, self.coords.y);
            assert(self.coords.y * X + self.coords.x <= X * Y) by (nonlinear_arith)
                requires
                    (self.coords.x < X && self.coords.y < Y) || (self.coords.x == 0
                        && self.coords.y == Y),
            ;
            if self.coords.y == Y {
                assert(self.coords.y * X == X * Y) by (nonlinear_arith)
                    requires
                        self.coords.y == Y,
                ;
            } else {
                assert(self.coords.y * X + self.coords.x < X * Y) by (nonlinear_arith)
                    requires
                        self.coords.x < X,
                        self.coords.y < Y,
                ;
            }
        }
        if self.coords.y == Y {
            None
        } else {
            let current = self.coords;
            let next = if current.x + 1 == X {
                Index2D { x: 0, y: current.y + 1 }
            } else {
                Index2D { x: current.x + 1, y: current.y }
            };
            proof {
                if current.x + 1 == X {
                    assert((current.y + 1) * X + 0 == current.y * X + current.x + 1)
                        by (nonlinear_arith)
                        requires
                            current.x + 1 == X,
                    ;
                }
            }
            self.coords = next;
            Some(current)
        }
    }
}

/// A position `x < width` in row `y` is the one that a row-major walk reaches after
/// `y * width + x` steps.
pub proof fn lemma_row_major(width: usize, x: usize, y: usize)
    requires
        x < width,
    ensures
        row_major(width, (y * width + x) as nat) == (Index2D { x, y }),
{
    let w = width as int;
    let n = y * w + x;
    assert(0 <= n) by (nonlinear_arith)
        requires
            n == y * w + x,
            0 <= y,
            0 <= w,
            0 <= x,
    ;
    vstd::arithmetic::div_mod::lemma_fundamental_div_mod_converse(n, w, y as int, x as int);
}

/// Types implementing [SquareGridIterator] support a method [SquareGridIterator::iter_grid].
pub trait SquareGridIterator<const T: usize> {
    /// Returns a [GridIterator2D] that will visit each coordinate in the grid.
    /// The order of iteration is x-axis first, then y-axis.
    fn iter_grid(&self) -> (r: GridIterator2D<T, T>)
        requires
            T > 0,
        ensures
            r.count() == 0,
    ;
}

/// Types implementing [GridAccessor2D] can be indexed by [Index2D] `coords`.
pub trait GridAccessor2D<U> {
    /// Whether `coords` is a position of the grid.
    spec fn holds(&self, coords: Index2D) -> bool;

    /// The value that the grid holds at `coords`.
    spec fn value_at(&self, coords: Index2D) -> U;

    /// Get the value at `coords`.
    fn get(&self, coords: Index2D) -> (r: U)
        requires
            self.holds(coords),
        ensures
            r == self.value_at(coords),
    ;

    /// Get a mutable reference to the value at `coords`.
    /// Writing through it changes the grid at `coords` and nowhere else.
    fn get_mut(&mut self, coords: Index2D) -> (r: &mut U)
        requires
            old(self).holds(coords),
        ensures
            *r == old(self).value_at(coords),
            final(self).value_at(coords) == *final(r),
            forall|p: Index2D| final(self).holds(p) == old(self).holds(p),
            forall|p: Index2D|
                old(self).holds(p) && p != coords ==> #[trigger] final(self).value_at(p) == old(self).value_at(p),
    ;
}

} // verus!
