//! What holds of the puzzle and of its animation whatever the board and
//! whatever the clicks.

use vstd::prelude::*;
use vstd::arithmetic::div_mod::{
    lemma_fundamental_div_mod, lemma_mod_bound, lemma_multiply_divide_lt,
};
use vstd::relations::injective_on;
use vstd::set_lib::{lemma_int_range, lemma_map_size, lemma_subset_equality, set_int_range};
use crate::anim::{total_time, Animation, ANIM_DURATION, FULL_PROGRESS};
use crate::direction::Direction;
use crate::puzzle::{lemma_slide_wf, lemma_solved_wf, toward, Puzzle, MAX_SIZE, MIN_SIZE};

verus! {

/// A walk along `first` and then along `second` is the walk along the two
/// joined.
pub proof fn lemma_walk_joined(p: Puzzle, first: Seq<Direction>, second: Seq<Direction>)
    requires
        p.walkable(first),
        p.walk(first).walkable(second),
    ensures
        p.walkable(first + second),
        p.walk(first + second) == p.walk(first).walk(second),
    decreases second.len(),
{
    if second.len() == 0 {
        assert(first + second =~= first);
    } else {
        lemma_walk_joined(p, first, second.drop_last());
        assert((first + second).drop_last() =~= first + second.drop_last());
        assert((first + second).last() == second.last());
    }
}

/// What can be reached from a puzzle that can be reached, can be reached.
pub proof fn lemma_reaches_transitive(a: Puzzle, b: Puzzle, c: Puzzle)
    requires
        a.reaches(b),
        b.reaches(c),
    ensures
        a.reaches(c),
{
    let first = choose|path: Seq<Direction>| #[trigger] a.walkable(path) && a.walk(path) == b;
    let second = choose|path: Seq<Direction>| #[trigger] b.walkable(path) && b.walk(path) == c;
    lemma_walk_joined(a, first, second);
    assert(a.walkable(first + second) && a.walk(first + second) == c);
}

/// A walk keeps a well-formed puzzle well formed, and of its size.
pub proof fn lemma_walk_wf(p: Puzzle, path: Seq<Direction>)
    requires
        p.wf(),
        p.walkable(path),
    ensures
        p.walk(path).wf(),
        p.walk(path).size == p.size,
    decreases path.len(),
{
    if path.len() > 0 {
        lemma_walk_wf(p, path.drop_last());
        let q = p.walk(path.drop_last());
        let d = path.last();
        lemma_slide_wf(q, q.gap.0 + d.step().0, q.gap.1 + d.step().1);
    }
}

/// A click that moves tiles does what single steps of the gap do: as many
/// steps as tiles move, each from the gap towards the clicked cell.
pub proof fn lemma_slide_is_walk(p: Puzzle, tx: int, ty: int) -> (path: Seq<Direction>)
    requires
        p.wf(),
        p.in_bounds(tx, ty),
        p.aligned(tx, ty),
    ensures
        path.len() == p.run_length(tx, ty),
        forall|i: int| 0 <= i < path.len() ==> path[i] == p.heading(tx, ty),
        p.walkable(path),
        p.walk(path) == p.slide(tx, ty),
    decreases p.run_length(tx, ty),
{
    let d = p.heading(tx, ty);
    if p.run_length(tx, ty) == 1 {
        let path = seq![d];
        assert(path.drop_last() =~= Seq::<Direction>::empty());
        assert(p.walkable(path.drop_last()));
        assert(p.walk(path.drop_last()) == p);
        assert(p.can_step(path.last()));
        assert(p.step(d) == p.slide(tx, ty));
        path
    } else {
        let nx = toward(tx, p.gap.0, 1);
        let ny = toward(ty, p.gap.1, 1);
        let shorter = lemma_slide_is_walk(p, nx, ny);
        let q = p.slide(nx, ny);
        lemma_slide_wf(p, nx, ny);
        let r = q.step(d);
        let s = p.slide(tx, ty);
        assert(q.gap.0 + d.step().0 == tx && q.gap.1 + d.step().1 == ty);
        assert forall|y: int| 0 <= y < p.size implies #[trigger] r.rows[y] == s.rows[y] by {
            assert forall|x: int| 0 <= x < p.size implies r.rows[y][x] == s.rows[y][x] by {
                assert(r.rows[y][x] == q.slid_tile(tx, ty, x, y));
                let c = q.source(tx, ty, x, y);
                assert(q.in_bounds(c.0, c.1));
                assert(q.tile(c.0, c.1) == p.slid_tile(nx, ny, c.0, c.1));
            }
            assert(r.rows[y] =~= s.rows[y]);
        }
        assert(r.rows =~= s.rows);
        let path = shorter.push(d);
        assert(path.drop_last() =~= shorter);
        assert(q.can_step(path.last()));
        path
    }
}

/// Whatever a click makes of a puzzle can be had by single steps of the
/// gap.
pub proof fn lemma_slide_reaches(p: Puzzle, tx: int, ty: int)
    requires
        p.wf(),
        p.in_bounds(tx, ty),
        p.aligned(tx, ty),
    ensures
        p.reaches(p.slide(tx, ty)),
{
    let path = lemma_slide_is_walk(p, tx, ty);
    assert(p.walkable(path) && p.walk(path) == p.slide(tx, ty));
}

/// A solvable puzzle stays solvable under a click that moves tiles.
pub proof fn lemma_slide_solvable(p: Puzzle, tx: int, ty: int)
    requires
        p.wf(),
        p.solvable(),
        p.in_bounds(tx, ty),
        p.aligned(tx, ty),
    ensures
        p.slide(tx, ty).solvable(),
{
    lemma_slide_reaches(p, tx, ty);
    lemma_reaches_transitive(Puzzle::solved(p.size), p, p.slide(tx, ty));
}

/// A solvable puzzle stays solvable under a walk of the gap.
pub proof fn lemma_walk_solvable(p: Puzzle, path: Seq<Direction>)
    requires
        p.wf(),
        p.solvable(),
        p.walkable(path),
    ensures
        p.walk(path).solvable(),
{
    lemma_walk_wf(p, path);
    assert(p.reaches(p.walk(path)));
    lemma_reaches_transitive(Puzzle::solved(p.size), p, p.walk(path));
}

/// The solved puzzle is solvable: no step is needed.
pub proof fn lemma_solved_solvable(n: int)
    requires
        MIN_SIZE <= n <= MAX_SIZE,
    ensures
        Puzzle::solved(n).solvable(),
{
    let p = Puzzle::solved(n);
    lemma_solved_wf(n);
    let none = Seq::<Direction>::empty();
    assert(p.walkable(none) && p.walk(none) == p);
}

/// Clicking a cell and then the cell where the gap was puts every tile
/// and the gap back where they were. After a move of a single tile that
/// second cell is the one next to the new gap.
pub proof fn lemma_slide_round_trip(p: Puzzle, tx: int, ty: int)
    requires
        p.wf(),
        p.in_bounds(tx, ty),
        p.aligned(tx, ty),
    ensures
        p.slide(tx, ty).in_bounds(p.gap.0, p.gap.1),
        p.slide(tx, ty).aligned(p.gap.0, p.gap.1),
        p.slide(tx, ty).slide(p.gap.0, p.gap.1) == p,
{
    let q = p.slide(tx, ty);
    let r = q.slide(p.gap.0, p.gap.1);
    assert forall|y: int| 0 <= y < p.size implies #[trigger] r.rows[y] == p.rows[y] by {
        assert forall|x: int| 0 <= x < p.size implies #[trigger] r.rows[y][x] == p.rows[y][x] by {
            assert(r.rows[y][x] == q.slid_tile(p.gap.0, p.gap.1, x, y));
            let s = q.source(p.gap.0, p.gap.1, x, y);
            assert(q.in_bounds(s.0, s.1));
            assert(q.tile(s.0, s.1) == p.slid_tile(tx, ty, s.0, s.1));
            assert(p.tile(x, y) == p.rows[y][x]);
        }
        assert(r.rows[y] =~= p.rows[y]);
    }
    assert(r.rows =~= p.rows);
}

/// The cell with the row-major number `c` on a board of side `n`.
pub open spec fn cell_of(n: int, c: int) -> (int, int) {
    (c % n, c / n)
}

/// The cells of a board of side `n` are numbered by 0 .. n² - 1, each cell
/// by one number.
pub proof fn lemma_cell_numbers(n: int, c1: int, c2: int)
    requires
        0 < n,
        0 <= c1 < n * n,
        0 <= c2 < n * n,
    ensures
        0 <= cell_of(n, c1).0 < n,
        0 <= cell_of(n, c1).1 < n,
        cell_of(n, c1) == cell_of(n, c2) ==> c1 == c2,
{
    lemma_mod_bound(c1, n);
    lemma_multiply_divide_lt(c1, n, n);
    lemma_fundamental_div_mod(c1, n);
    lemma_fundamental_div_mod(c2, n);
    assert(0 <= c1 / n) by (nonlinear_arith)
        requires
            0 <= c1,
            0 < n,
    ;
}

/// In a well-formed puzzle every value from 0 to size² - 1 stands in some
/// cell; by the puzzle's well-formedness it stands in no second one. So
/// the grid is a permutation of those values.
pub proof fn lemma_every_value_occurs(p: Puzzle, value: int)
    requires
        p.wf(),
        0 <= value < p.size * p.size,
    ensures
        exists|x: int, y: int| p.in_bounds(x, y) && #[trigger] p.tile(x, y) == value,
{
    let n = p.size;
    let numbers = set_int_range(0, n * n);
    let held = |c: int| p.tile(cell_of(n, c).0, cell_of(n, c).1) as int;
    let values = numbers.map(held);
    assert(0 <= n * n) by (nonlinear_arith);
    lemma_int_range(0, n * n);
    assert(injective_on(held, numbers)) by {
        assert forall|c1: int, c2: int|
            numbers.contains(c1) && numbers.contains(c2) && #[trigger] held(c1) == #[trigger] held(
                c2,
            ) implies c1 == c2 by {
            lemma_cell_numbers(n, c1, c2);
            lemma_cell_numbers(n, c2, c1);
            let a = cell_of(n, c1);
            let b = cell_of(n, c2);
            assert(p.tile(a.0, a.1) == p.tile(b.0, b.1));
        }
    }
    lemma_map_size(numbers, values, held);
    assert(values.subset_of(numbers)) by {
        assert forall|v: int| values.contains(v) implies numbers.contains(v) by {
            let c = choose|c: int| numbers.contains(c) && v == held(c);
            lemma_cell_numbers(n, c, c);
            assert(p.in_bounds(cell_of(n, c).0, cell_of(n, c).1));
        }
    }
    lemma_subset_equality(values, numbers);
    assert(values.contains(value));
    let c = choose|c: int| numbers.contains(c) && value == held(c);
    lemma_cell_numbers(n, c, c);
    assert(p.in_bounds(cell_of(n, c).0, cell_of(n, c).1));
    assert(p.tile(cell_of(n, c).0, cell_of(n, c).1) == value);
}

/// Each tile that a click collects is a tile of the grid, and after the
/// click it stands one cell further along the move vector; the gap is where
/// the click was.
pub proof fn lemma_moved_tiles_shift(p: Puzzle, tx: int, ty: int, i: int)
    requires
        p.wf(),
        p.in_bounds(tx, ty),
        p.aligned(tx, ty),
        0 <= i < p.run_length(tx, ty),
    ensures
        p.slide(tx, ty).gap == (tx, ty),
        ({
            let t = p.collected(tx, ty)[i];
            let v = p.vector(tx, ty);
            &&& p.in_bounds(t.0 as int, t.1 as int)
            &&& p.tile(t.0 as int, t.1 as int) == t.2
            &&& t.2 != 0
            &&& p.in_bounds(t.0 + v.0, t.1 + v.1)
            &&& p.slide(tx, ty).tile(t.0 + v.0, t.1 + v.1) == t.2
        }),
{
    let t = p.collected(tx, ty)[i];
    assert(p.in_bounds(t.0 as int, t.1 as int));
    assert(t.0 != p.gap.0 || t.1 != p.gap.1);
    assert(p.tile(t.0 as int, t.1 as int) != p.tile(p.gap.0, p.gap.1));
}

/// No tile is ever drawn more than one whole cell from where it rests.
pub proof fn lemma_offset_bounded(a: Animation, value: i32)
    requires
        a.wf(),
    ensures
        -FULL_PROGRESS <= a.offset(value).0 <= FULL_PROGRESS,
        -FULL_PROGRESS <= a.offset(value).1 <= FULL_PROGRESS,
{
    let rest = FULL_PROGRESS - a.progress;
    assert(-FULL_PROGRESS <= -a.vector.0 * rest <= FULL_PROGRESS) by (nonlinear_arith)
        requires
            -1 <= a.vector.0 <= 1,
            0 <= rest <= FULL_PROGRESS,
    ;
    assert(-FULL_PROGRESS <= -a.vector.1 * rest <= FULL_PROGRESS) by (nonlinear_arith)
        requires
            -1 <= a.vector.1 <= 1,
            0 <= rest <= FULL_PROGRESS,
    ;
}

/// At the moment a slide begins it is running, and each of its tiles is
/// drawn one whole cell back along the move vector: as far off as a tile
/// ever is.
pub proof fn lemma_slide_begins_one_cell_back(
    tiles: Seq<(i32, i32, i32)>,
    vector: (int, int),
    i: int,
)
    requires
        0 <= i < tiles.len(),
    ensures
        Animation::begun(tiles, vector).running,
        Animation::begun(tiles, vector).offset(tiles[i].2) == (
            -vector.0 * FULL_PROGRESS,
            -vector.1 * FULL_PROGRESS,
        ),
{
    let a = Animation::begun(tiles, vector);
    assert(a.tiles[i].2 == tiles[i].2);
}

/// Updates leave alone which tiles the animation remembers and how they
/// moved. While the slide still runs, its clock shows the sum of the
/// updates' times; once it has ended, its progress is full.
pub proof fn lemma_clock_sums(a: Animation, dts: Seq<u32>)
    requires
        a.wf(),
    ensures
        a.advanced_all(dts).wf(),
        a.advanced_all(dts).tiles == a.tiles,
        a.advanced_all(dts).vector == a.vector,
        a.advanced_all(dts).running ==> a.running && a.advanced_all(dts).elapsed == a.elapsed
            + total_time(dts),
        a.running && !a.advanced_all(dts).running ==> a.advanced_all(dts).progress
            == FULL_PROGRESS,
    decreases dts.len(),
{
    if dts.len() > 0 {
        lemma_clock_sums(a, dts.drop_last());
    }
}

/// Once the updates since a slide began add up to the time a slide takes,
/// no slide is running, the progress of the slide that ran is full, and
/// every tile is drawn where it rests.
pub proof fn lemma_animation_completes(a: Animation, dts: Seq<u32>)
    requires
        a.wf(),
        total_time(dts) >= ANIM_DURATION,
    ensures
        !a.advanced_all(dts).running,
        a.running ==> a.advanced_all(dts).progress == FULL_PROGRESS,
        forall|value: i32| a.advanced_all(dts).offset(value) == (0int, 0int),
{
    lemma_clock_sums(a, dts);
}

} // verus!
