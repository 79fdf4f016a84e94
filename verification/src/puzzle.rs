//! The puzzle as a mathematical object: a square grid of tile values with
//! one gap, and what a click or a single step of the gap does to it.

use vstd::prelude::*;
use crate::direction::Direction;

verus! {

/// The smallest side a board can have.
pub const MIN_SIZE: usize = 2;

/// The largest side a board can have: the number of its cells still fits
/// the type of a tile value.
pub const MAX_SIZE: usize = 46340;

/// -1, 0 or 1, as `d` is negative, zero or positive.
pub open spec fn sign(d: int) -> int {
    if d > 0 {
        1
    } else if d < 0 {
        -1
    } else {
        0
    }
}

/// Whether `c` lies between `a` and `b`, both included, whichever is larger.
pub open spec fn between(a: int, b: int, c: int) -> bool {
    (a <= c <= b) || (b <= c <= a)
}

/// The coordinate `i` cells from `from` on the way to `to`.
pub open spec fn toward(from: int, to: int, i: int) -> int {
    if to > from {
        from + i
    } else if to < from {
        from - i
    } else {
        from
    }
}

/// The distance between two coordinates.
pub open spec fn distance(a: int, b: int) -> int {
    if a <= b {
        b - a
    } else {
        a - b
    }
}

/// A grid of tile values and the place of its gap. `rows[y][x]` is the
/// value in column `x` of row `y`; the gap is given as (column, row).
pub struct Puzzle {
    pub size: int,
    pub rows: Seq<Seq<i32>>,
    pub gap: (int, int),
}

impl Puzzle {
    /// Whether column `x`, row `y` is a cell of the grid.
    pub open spec fn in_bounds(self, x: int, y: int) -> bool {
        0 <= x < self.size && 0 <= y < self.size
    }

    /// The value in column `x` of row `y`.
    pub open spec fn tile(self, x: int, y: int) -> i32 {
        self.rows[y][x]
    }

    /// The grid is square, of a side that a board can have.
    pub open spec fn has_shape(self) -> bool {
        &&& MIN_SIZE <= self.size <= MAX_SIZE
        &&& self.rows.len() == self.size
        &&& forall|y: int| 0 <= y < self.size ==> (#[trigger] self.rows[y]).len() == self.size
    }

    /// Every cell holds a value from 0 to size² - 1, and no two cells hold
    /// the same value.
    pub open spec fn is_permutation(self) -> bool {
        &&& forall|x: int, y: int|
            self.in_bounds(x, y) ==> 0 <= #[trigger] self.tile(x, y) < self.size * self.size
        &&& forall|x1: int, y1: int, x2: int, y2: int|
            self.in_bounds(x1, y1) && self.in_bounds(x2, y2) && (x1 != x2 || y1 != y2)
                ==> #[trigger] self.tile(x1, y1) != #[trigger] self.tile(x2, y2)
    }

    /// A well-formed puzzle: a square grid that is a permutation of
    /// 0 .. size² - 1, with the gap where the 0 is.
    pub open spec fn wf(self) -> bool {
        &&& self.has_shape()
        &&& self.is_permutation()
        &&& self.in_bounds(self.gap.0, self.gap.1)
        &&& self.tile(self.gap.0, self.gap.1) == 0
    }

    /// The value that rests in column `x` of row `y` when a board of side
    /// `n` is solved: the tiles in row-major order from 1, the gap last.
    pub open spec fn solved_tile(n: int, x: int, y: int) -> i32 {
        if x == n - 1 && y == n - 1 {
            0i32
        } else {
            (y * n + x + 1) as i32
        }
    }

    /// The solved puzzle of side `n`.
    pub open spec fn solved(n: int) -> Puzzle {
        Puzzle {
            size: n,
            rows: Seq::new(n as nat, |y: int| Seq::new(n as nat, |x: int| Self::solved_tile(n, x, y))),
            gap: (n - 1, n - 1),
        }
    }

    /// Whether the cell (`tx`, `ty`) lies in line with the gap: in its
    /// column or in its row, and not on it.
    pub open spec fn aligned(self, tx: int, ty: int) -> bool {
        (tx == self.gap.0) != (ty == self.gap.1)
    }

    /// The unit step from the cell (`tx`, `ty`) towards the gap: the way the
    /// tiles travel when that cell is clicked.
    pub open spec fn vector(self, tx: int, ty: int) -> (int, int) {
        (sign(self.gap.0 - tx), sign(self.gap.1 - ty))
    }

    /// The number of tiles from the cell (`tx`, `ty`) up to the gap.
    pub open spec fn run_length(self, tx: int, ty: int) -> int {
        distance(tx, self.gap.0) + distance(ty, self.gap.1)
    }

    /// Whether a tile arrives in the cell (`x`, `y`) when the cell
    /// (`tx`, `ty`) is clicked: the cells after the clicked one, up to and
    /// including the gap.
    pub open spec fn receives(self, tx: int, ty: int, x: int, y: int) -> bool {
        &&& x != tx || y != ty
        &&& (x == tx && tx == self.gap.0 && between(ty, self.gap.1, y))
            || (y == ty && ty == self.gap.1 && between(tx, self.gap.0, x))
    }

    /// The value in the cell (`x`, `y`) after the cell (`tx`, `ty`) has been
    /// clicked.
    pub open spec fn slid_tile(self, tx: int, ty: int, x: int, y: int) -> i32 {
        let v = self.vector(tx, ty);
        if x == tx && y == ty {
            0i32
        } else if self.receives(tx, ty, x, y) {
            self.tile(x - v.0, y - v.1)
        } else {
            self.tile(x, y)
        }
    }

    /// The puzzle after the cell (`tx`, `ty`) has been clicked: every tile
    /// from that cell up to the gap has moved one cell towards the gap, and
    /// the gap is where the click was.
    pub open spec fn slide(self, tx: int, ty: int) -> Puzzle {
        Puzzle {
            size: self.size,
            rows: Seq::new(
                self.size as nat,
                |y: int| Seq::new(self.size as nat, |x: int| self.slid_tile(tx, ty, x, y)),
            ),
            gap: (tx, ty),
        }
    }

    /// The cell whose value stands in the cell (`x`, `y`) after the cell
    /// (`tx`, `ty`) has been clicked.
    pub open spec fn source(self, tx: int, ty: int, x: int, y: int) -> (int, int) {
        let v = self.vector(tx, ty);
        if x == tx && y == ty {
            self.gap
        } else if self.receives(tx, ty, x, y) {
            (x - v.0, y - v.1)
        } else {
            (x, y)
        }
    }

    /// The direction from the gap to the cell (`tx`, `ty`) in line with it.
    pub open spec fn heading(self, tx: int, ty: int) -> Direction {
        if tx == self.gap.0 {
            if ty < self.gap.1 {
                Direction::Up
            } else {
                Direction::Down
            }
        } else if tx < self.gap.0 {
            Direction::Left
        } else {
            Direction::Right
        }
    }

    /// Whether the gap can take a step in direction `d`: whether it has a
    /// neighbour there.
    pub open spec fn can_step(self, d: Direction) -> bool {
        self.in_bounds(self.gap.0 + d.step().0, self.gap.1 + d.step().1)
    }

    /// The puzzle after the gap has taken a step in direction `d`: the
    /// neighbour there has slid into the gap.
    pub open spec fn step(self, d: Direction) -> Puzzle {
        self.slide(self.gap.0 + d.step().0, self.gap.1 + d.step().1)
    }

    /// The puzzle after the gap has taken the steps of `path`, in order.
    pub open spec fn walk(self, path: Seq<Direction>) -> Puzzle
        decreases path.len(),
    {
        if path.len() == 0 {
            self
        } else {
            self.walk(path.drop_last()).step(path.last())
        }
    }

    /// Whether the gap can take the steps of `path`, in order, without
    /// leaving the grid.
    pub open spec fn walkable(self, path: Seq<Direction>) -> bool
        decreases path.len(),
    {
        if path.len() == 0 {
            true
        } else {
            self.walkable(path.drop_last()) && self.walk(path.drop_last()).can_step(path.last())
        }
    }

    /// Whether the puzzle `other` can be had from this one by single steps
    /// of the gap.
    pub open spec fn reaches(self, other: Puzzle) -> bool {
        exists|path: Seq<Direction>| #[trigger] self.walkable(path) && self.walk(path) == other
    }

    /// Whether the puzzle can be solved: whether single steps of the gap
    /// lead from the solved puzzle of its size to it, and so back.
    pub open spec fn solvable(self) -> bool {
        Puzzle::solved(self.size).reaches(self)
    }

    /// The tiles that move when the cell (`tx`, `ty`) is clicked, as
    /// (column, row, value) before the move, the clicked one first.
    pub open spec fn collected(self, tx: int, ty: int) -> Seq<(i32, i32, i32)> {
        Seq::new(
            self.run_length(tx, ty) as nat,
            |i: int|
                (
                    toward(tx, self.gap.0, i) as i32,
                    toward(ty, self.gap.1, i) as i32,
                    self.tile(toward(tx, self.gap.0, i), toward(ty, self.gap.1, i)),
                ),
        )
    }
}

/// Whether (`x`, `y`) is a step to a neighbouring cell.
pub open spec fn is_unit_step(x: int, y: int) -> bool {
    (x == 0 && (y == 1 || y == -1)) || (y == 0 && (x == 1 || x == -1))
}

/// Whether no step of `path` undoes the step before it.
pub open spec fn never_reverses(path: Seq<Direction>) -> bool {
    forall|i: int| 0 < i < path.len() ==> (#[trigger] path[i]).may_follow(Some(path[i - 1]))
}

/// Row-major numbering gives different cells different numbers, all below
/// the number of cells.
pub proof fn lemma_row_major(n: int, x1: int, y1: int, x2: int, y2: int)
    requires
        0 < n,
        0 <= x1 < n,
        0 <= y1 < n,
        0 <= x2 < n,
        0 <= y2 < n,
    ensures
        0 <= y1 * n + x1 < n * n,
        y1 * n + x1 == n * n - 1 <==> (x1 == n - 1 && y1 == n - 1),
        y1 * n + x1 == y2 * n + x2 <==> (x1 == x2 && y1 == y2),
{
    assert(0 <= y1 * n <= (n - 1) * n) by (nonlinear_arith)
        requires
            0 <= y1 <= n - 1,
            0 < n,
    ;
    assert((n - 1) * n == n * n - n) by (nonlinear_arith);
    if y1 < n - 1 {
        assert(y1 * n <= (n - 2) * n) by (nonlinear_arith)
            requires
                0 <= y1 <= n - 2,
                0 < n,
        ;
        assert((n - 2) * n == n * n - 2 * n) by (nonlinear_arith);
    }
    if y1 < y2 {
        assert(y1 * n + n <= y2 * n) by (nonlinear_arith)
            requires
                y1 + 1 <= y2,
                0 < n,
        ;
    }
    if y2 < y1 {
        assert(y2 * n + n <= y1 * n) by (nonlinear_arith)
            requires
                y2 + 1 <= y1,
                0 < n,
        ;
    }
}

/// The largest board's cells can still be numbered by tile values.
pub proof fn lemma_cells_fit(n: int)
    requires
        0 <= n <= MAX_SIZE,
    ensures
        0 <= n * n <= i32::MAX,
{
    assert(0 <= n * n <= 46340 * 46340) by (nonlinear_arith)
        requires
            0 <= n <= 46340,
    ;
}

/// The solved puzzle is well formed.
pub proof fn lemma_solved_wf(n: int)
    requires
        MIN_SIZE <= n <= MAX_SIZE,
    ensures
        Puzzle::solved(n).wf(),
        Puzzle::solved(n).size == n,
        Puzzle::solved(n).gap == (n - 1, n - 1),
{
    let p = Puzzle::solved(n);
    lemma_cells_fit(n);
    assert forall|x: int, y: int| p.in_bounds(x, y) implies 0 <= #[trigger] p.tile(x, y) < n * n by {
        lemma_row_major(n, x, y, x, y);
    }
    assert forall|x1: int, y1: int, x2: int, y2: int|
        p.in_bounds(x1, y1) && p.in_bounds(x2, y2) && (x1 != x2 || y1 != y2) implies #[trigger] p.tile(
        x1,
        y1,
    ) != #[trigger] p.tile(x2, y2) by {
        lemma_row_major(n, x1, y1, x2, y2);
        lemma_row_major(n, x2, y2, x1, y1);
    }
}

/// A click on a cell of the gap's row or column leaves a well-formed
/// puzzle well formed: it only rearranges the values.
pub proof fn lemma_slide_wf(p: Puzzle, tx: int, ty: int)
    requires
        p.wf(),
        p.in_bounds(tx, ty),
        p.aligned(tx, ty),
    ensures
        p.slide(tx, ty).wf(),
        p.slide(tx, ty).size == p.size,
        p.slide(tx, ty).gap == (tx, ty),
{
    let q = p.slide(tx, ty);
    assert forall|x: int, y: int| q.in_bounds(x, y) implies {
        let s = p.source(tx, ty, x, y);
        p.in_bounds(s.0, s.1) && #[trigger] q.tile(x, y) == p.tile(s.0, s.1)
    } by {}
    assert forall|x: int, y: int| q.in_bounds(x, y) implies 0 <= #[trigger] q.tile(x, y) < q.size
        * q.size by {
        let s = p.source(tx, ty, x, y);
        assert(q.tile(x, y) == p.tile(s.0, s.1));
    }
    assert forall|x1: int, y1: int, x2: int, y2: int|
        q.in_bounds(x1, y1) && q.in_bounds(x2, y2) && (x1 != x2 || y1 != y2) implies #[trigger] q.tile(
        x1,
        y1,
    ) != #[trigger] q.tile(x2, y2) by {
        let s1 = p.source(tx, ty, x1, y1);
        let s2 = p.source(tx, ty, x2, y2);
        assert(q.tile(x1, y1) == p.tile(s1.0, s1.1));
        assert(q.tile(x2, y2) == p.tile(s2.0, s2.1));
        assert(s1.0 != s2.0 || s1.1 != s2.1);
    }
}

} // verus!
