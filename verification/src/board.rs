//! The board: the grid of tiles, the place of the gap, and the animation of
//! the last move.

use vstd::prelude::*;
use crate::anim::{Animation, MoveAnimData};
use crate::direction::Direction;
use crate::laws::{lemma_moved_tiles_shift, lemma_slide_solvable, lemma_solved_solvable};
use crate::puzzle::{
    distance, is_unit_step, lemma_cells_fit, lemma_row_major, lemma_slide_wf, lemma_solved_wf,
    never_reverses, toward, Puzzle, MAX_SIZE, MIN_SIZE,
};
use crate::random::gen_range;
use quad_rand::RandGenerator;

verus! {

/// A click that lies in line with the gap but outside the board.
#[derive(Clone, Copy, Debug, PartialEq, Eq, Structural)]
pub struct InvalidCoordinate {
    pub x: i32,
    pub y: i32,
}

/// The number of steps that a shuffle makes for each cell of the board.
pub const SHUFFLE_FACTOR: u64 = 20;

/// How many draws in a row a shuffle lets fail before it stops drawing for
/// one step and takes the first direction that is open.
pub const REDRAW_LIMIT: u32 = 1_000_000;

/// The number of steps that a shuffle makes on a board of side `n`.
pub open spec fn shuffle_length(n: int) -> int {
    SHUFFLE_FACTOR * (n * n)
}

/// An N×N sliding-tile board.
pub struct Board {
    size: usize,
    slots: Vec<Vec<i32>>,
    empty_pos: (i32, i32),
    move_anim_data: MoveAnimData,
}

impl View for Board {
    type V = Puzzle;

    closed spec fn view(&self) -> Puzzle {
        Puzzle {
            size: self.size as int,
            rows: Seq::new(self.slots@.len(), |y: int| self.slots@[y]@),
            gap: (self.empty_pos.0 as int, self.empty_pos.1 as int),
        }
    }
}

impl Board {
    /// The animation of the last move, as plain values.
    pub closed spec fn anim(&self) -> Animation {
        self.move_anim_data@
    }

    /// What every board satisfies: its grid is a well-formed puzzle that
    /// can be solved, and its animation a well-formed animation.
    pub open spec fn wf(&self) -> bool {
        &&& self@.wf()
        &&& self@.solvable()
        &&& self.anim().wf()
    }

    /// Whether a click on the cell `slot_pos` moves tiles: no slide is under
    /// way, and the cell is on the board, in line with the gap.
    pub open spec fn accepts(&self, slot_pos: (i32, i32)) -> bool {
        &&& !self.anim().running
        &&& self@.aligned(slot_pos.0 as int, slot_pos.1 as int)
        &&& self@.in_bounds(slot_pos.0 as int, slot_pos.1 as int)
    }

    /// Whether a click on the cell `slot_pos` is refused as one that the
    /// caller should never have passed on: no slide is under way, and the
    /// cell is in line with the gap but off the board.
    pub open spec fn rejects(&self, slot_pos: (i32, i32)) -> bool {
        &&& !self.anim().running
        &&& self@.aligned(slot_pos.0 as int, slot_pos.1 as int)
        &&& !self@.in_bounds(slot_pos.0 as int, slot_pos.1 as int)
    }

    /// Whether a shuffle may let the gap step in direction `d` after the
    /// step `last`: the gap has a neighbour there, and the step would not
    /// undo the one before.
    pub open spec fn may_step(&self, d: Direction, last: Option<Direction>) -> bool {
        self@.can_step(d) && d.may_follow(last)
    }

    /// The step that a shuffle makes on the draw `draw` after the step
    /// `last`: the direction that the draw stands for, if the gap may step
    /// there.
    pub open spec fn chosen(&self, draw: int, last: Option<Direction>) -> Option<Direction> {
        match Direction::of_draw(draw) {
            Some(d) => if self.may_step(d, last) {
                Some(d)
            } else {
                None
            },
            None => None,
        }
    }

    /// The rows of a well-formed board are its grid, cell for cell.
    proof fn lemma_rows(&self)
        requires
            self@.has_shape(),
        ensures
            self.slots@.len() == self.size,
            forall|y: int| 0 <= y < self.size ==> (#[trigger] self.slots@[y])@.len() == self.size,
            forall|x: int, y: int|
                self@.in_bounds(x, y) ==> #[trigger] self@.tile(x, y) == self.slots@[y]@[x],
    {
        assert forall|y: int| 0 <= y < self.size implies (#[trigger] self.slots@[y])@.len()
            == self.size by {
            assert(self@.rows[y].len() == self.size);
        }
    }

    /// A solved board of side `n`: the tiles in row-major order from 1, the
    /// gap in the last cell, and no animation under way.
    pub fn new(n: usize) -> (board: Board)
        requires
            MIN_SIZE <= n <= MAX_SIZE,
        ensures
            board.wf(),
            board@ == Puzzle::solved(n as int),
            board.anim() == Animation::created(Seq::empty(), (0, 0)),
    {
        let mut slots: Vec<Vec<i32>> = Vec::new();
        let mut y: usize = 0;
        while y < n
            invariant
                MIN_SIZE <= n <= MAX_SIZE,
                y <= n,
                slots@.len() == y,
                forall|j: int| 0 <= j < y ==> (#[trigger] slots@[j])@.len() == n,
                forall|j: int, i: int|
                    0 <= j < y && 0 <= i < n ==> (#[trigger] slots@[j]@[i]) == j * n + i + 1,
            decreases n - y,
        {
            let mut row: Vec<i32> = Vec::new();
            let mut x: usize = 0;
            while x < n
                invariant
                    MIN_SIZE <= n <= MAX_SIZE,
                    y < n,
                    x <= n,
                    row@.len() == x,
                    forall|i: int| 0 <= i < x ==> (#[trigger] row@[i]) == y * n + i + 1,
                decreases n - x,
            {
                proof {
                    lemma_row_major(n as int, x as int, y as int, x as int, y as int);
                    lemma_cells_fit(n as int);
                }
                row.push((x + y * n + 1) as i32);
                x += 1;
            }
            slots.push(row);
            y += 1;
        }
        slots[n - 1][n - 1] = 0;
        let board = Board {
            size: n,
            slots: slots,
            empty_pos: ((n - 1) as i32, (n - 1) as i32),
            move_anim_data: MoveAnimData::new(Vec::new(), (0, 0)),
        };
        proof {
            let p = Puzzle::solved(n as int);
            assert forall|j: int| 0 <= j < n implies #[trigger] board@.rows[j] == p.rows[j] by {
                assert(board@.rows[j] =~= p.rows[j]);
            }
            assert(board@.rows =~= p.rows);
            assert(board@ == p);
            lemma_solved_wf(n as int);
            lemma_solved_solvable(n as int);
        }
        board
    }

    /// A click on the cell `slot_pos`, given as (column, row).
    ///
    /// Where the cell lies in the gap's row or column, every tile from it up
    /// to the gap moves one cell towards the gap, the gap moves to the
    /// clicked cell, and the slide of those tiles begins. The grid is
    /// changed at once and in full; only the drawing lags behind.
    ///
    /// While a slide is under way, and for a click on the gap or on a cell
    /// out of line with it, nothing happens. A click in line with the gap
    /// but off the board is an error of the caller and is reported; the
    /// board stays as it was.
    pub fn move_slot(&mut self, slot_pos: (i32, i32)) -> (res: Result<(), InvalidCoordinate>)
        requires
            old(self).wf(),
        ensures
            final(self).wf(),
            res is Err <==> old(self).rejects(slot_pos),
            res is Err ==> res == Err::<(), InvalidCoordinate>(
                InvalidCoordinate { x: slot_pos.0, y: slot_pos.1 },
            ),
            old(self).accepts(slot_pos) ==> {
                &&& final(self)@ == old(self)@.slide(slot_pos.0 as int, slot_pos.1 as int)
                &&& final(self).anim() == Animation::begun(
                    old(self)@.collected(slot_pos.0 as int, slot_pos.1 as int),
                    old(self)@.vector(slot_pos.0 as int, slot_pos.1 as int),
                )
            },
            !old(self).accepts(slot_pos) ==> {
                &&& final(self)@ == old(self)@
                &&& final(self).anim() == old(self).anim()
            },
            old(self).accepts(slot_pos) ==> {
                &&& final(self)@.gap == (slot_pos.0 as int, slot_pos.1 as int)
                &&& forall|i: int|
                    0 <= i < final(self).anim().tiles.len() ==> {
                        let t = #[trigger] final(self).anim().tiles[i];
                        let v = final(self).anim().vector;
                        &&& old(self)@.tile(t.0 as int, t.1 as int) == t.2
                        &&& final(self)@.tile(t.0 + v.0, t.1 + v.1) == t.2
                    }
            },
    {
        if self.move_anim_data.is_running() {
            return Ok(());
        }
        if slot_pos.0 == self.empty_pos.0 && slot_pos.1 == self.empty_pos.1 {
            return Ok(());
        }
        let move_vec: (i32, i32);
        if slot_pos.0 == self.empty_pos.0 {
            if slot_pos.1 < self.empty_pos.1 {
                move_vec = (0, 1);
            } else {
                move_vec = (0, -1);
            }
        } else if slot_pos.1 == self.empty_pos.1 {
            if slot_pos.0 < self.empty_pos.0 {
                move_vec = (1, 0);
            } else {
                move_vec = (-1, 0);
            }
        } else {
            return Ok(());
        }
        let side: i32 = self.size as i32;
        if slot_pos.0 < 0 || slot_pos.0 >= side || slot_pos.1 < 0 || slot_pos.1 >= side {
            return Err(InvalidCoordinate { x: slot_pos.0, y: slot_pos.1 });
        }
        let ghost p = self@;
        let ghost tx = slot_pos.0 as int;
        let ghost ty = slot_pos.1 as int;
        let ghost run = p.run_length(tx, ty);
        proof {
            self.lemma_rows();
        }

        let mut moved_slots: Vec<(i32, i32, i32)> = Vec::new();
        let mut v: (i32, i32) = (slot_pos.0, slot_pos.1);
        while !(v.0 == self.empty_pos.0 && v.1 == self.empty_pos.1)
            invariant
                self@ == p,
                p.wf(),
                p.in_bounds(tx, ty),
                p.aligned(tx, ty),
                tx == slot_pos.0,
                ty == slot_pos.1,
                run == p.run_length(tx, ty),
                move_vec.0 == p.vector(tx, ty).0,
                move_vec.1 == p.vector(tx, ty).1,
                0 <= moved_slots@.len() <= run,
                v.0 == toward(tx, p.gap.0, moved_slots@.len() as int),
                v.1 == toward(ty, p.gap.1, moved_slots@.len() as int),
                forall|i: int|
                    0 <= i < moved_slots@.len() ==> #[trigger] moved_slots@[i] == p.collected(
                        tx,
                        ty,
                    )[i],
            decreases run - moved_slots@.len(),
        {
            proof {
                self.lemma_rows();
                assert(p.in_bounds(v.0 as int, v.1 as int));
            }
            moved_slots.push((v.0, v.1, self.slots[v.1 as usize][v.0 as usize]));
            v = (v.0 + move_vec.0, v.1 + move_vec.1);
        }
        assert(moved_slots@ =~= p.collected(tx, ty));

        let mut j: usize = 0;
        while j < moved_slots.len()
            invariant
                self.size == p.size,
                self@.has_shape(),
                self@.gap == p.gap,
                self.anim() == old(self).anim(),
                p.wf(),
                p.in_bounds(tx, ty),
                p.aligned(tx, ty),
                move_vec.0 == p.vector(tx, ty).0,
                move_vec.1 == p.vector(tx, ty).1,
                moved_slots@ == p.collected(tx, ty),
                j <= moved_slots@.len(),
                forall|x: int, y: int|
                    p.in_bounds(x, y) ==> #[trigger] self@.tile(x, y) == (if p.receives(tx, ty, x, y)
                        && distance(tx, x) + distance(ty, y) <= j {
                        p.tile(x - move_vec.0, y - move_vec.1)
                    } else {
                        p.tile(x, y)
                    }),
            decreases moved_slots@.len() - j,
        {
            let slot: (i32, i32, i32) = moved_slots[j];
            proof {
                self.lemma_rows();
                assert(slot == p.collected(tx, ty)[j as int]);
            }
            let new_slot: (i32, i32) = (slot.0 + move_vec.0, slot.1 + move_vec.1);
            let ghost before = self@;
            self.slots[new_slot.1 as usize][new_slot.0 as usize] = slot.2;
            proof {
                assert forall|y: int| 0 <= y < self.size implies (#[trigger] self@.rows[y]).len()
                    == self.size by {
                    assert(before.rows[y].len() == self.size);
                }
                assert forall|x: int, y: int| p.in_bounds(x, y) implies #[trigger] self@.tile(x, y)
                    == (if p.receives(tx, ty, x, y) && distance(tx, x) + distance(ty, y) <= j + 1 {
                    p.tile(x - move_vec.0, y - move_vec.1)
                } else {
                    p.tile(x, y)
                }) by {
                    assert(before.tile(x, y) == (if p.receives(tx, ty, x, y) && distance(tx, x)
                        + distance(ty, y) <= j {
                        p.tile(x - move_vec.0, y - move_vec.1)
                    } else {
                        p.tile(x, y)
                    }));
                }
            }
            j += 1;
        }
        proof {
            self.lemma_rows();
        }
        let ghost before = self@;
        self.slots[slot_pos.1 as usize][slot_pos.0 as usize] = 0;
        self.empty_pos = (slot_pos.0, slot_pos.1);
        self.move_anim_data = MoveAnimData::new(moved_slots, move_vec);
        self.move_anim_data.start();
        proof {
            let q = p.slide(tx, ty);
            assert forall|y: int| 0 <= y < p.size implies #[trigger] self@.rows[y] == q.rows[y] by {
                assert(before.rows[y].len() == p.size);
                assert forall|x: int| 0 <= x < p.size implies self@.rows[y][x] == q.rows[y][x] by {
                    assert(before.tile(x, y) == (if p.receives(tx, ty, x, y) && distance(tx, x)
                        + distance(ty, y) <= run {
                        p.tile(x - move_vec.0, y - move_vec.1)
                    } else {
                        p.tile(x, y)
                    }));
                }
                assert(self@.rows[y] =~= q.rows[y]);
            }
            assert(self@.rows =~= q.rows);
            lemma_slide_wf(p, tx, ty);
            lemma_slide_solvable(p, tx, ty);
            assert forall|i: int| 0 <= i < self.anim().tiles.len() implies {
                let t = #[trigger] self.anim().tiles[i];
                let v = self.anim().vector;
                &&& p.tile(t.0 as int, t.1 as int) == t.2
                &&& self@.tile(t.0 + v.0, t.1 + v.1) == t.2
            } by {
                lemma_moved_tiles_shift(p, tx, ty, i);
            }
        }
        Ok(())
    }

    /// Advances the animation by `dt` microseconds. Once the time of a
    /// slide has passed, the slide is over. Without a slide under way
    /// nothing happens.
    pub fn update(&mut self, dt: u32)
        requires
            old(self).wf(),
        ensures
            final(self).wf(),
            final(self)@ == old(self)@,
            final(self).anim() == old(self).anim().advanced(dt as int),
    {
        if self.move_anim_data.is_running() {
            self.move_anim_data.advance(dt);
        }
    }

    /// Moves the gap by the step (`x`, `y`) to a neighbouring cell: the
    /// tile there takes the gap's place. The animation is left alone.
    pub fn swap_empty_with(&mut self, x: i32, y: i32)
        requires
            old(self).wf(),
            is_unit_step(x as int, y as int),
            old(self)@.in_bounds(old(self)@.gap.0 + x, old(self)@.gap.1 + y),
        ensures
            final(self).wf(),
            final(self)@ == old(self)@.slide(old(self)@.gap.0 + x, old(self)@.gap.1 + y),
            final(self).anim() == old(self).anim(),
    {
        let ghost p = self@;
        proof {
            self.lemma_rows();
        }
        let new_empty_pos: (i32, i32) = (self.empty_pos.0 + x, self.empty_pos.1 + y);
        let value: i32 = self.slots[new_empty_pos.1 as usize][new_empty_pos.0 as usize];
        self.slots[self.empty_pos.1 as usize][self.empty_pos.0 as usize] = value;
        let ghost mid = self@;
        proof {
            assert forall|j: int| 0 <= j < self.size implies (#[trigger] self.slots@[j])@.len()
                == self.size by {
                assert(p.rows[j].len() == self.size);
            }
        }
        self.slots[new_empty_pos.1 as usize][new_empty_pos.0 as usize] = 0;
        self.empty_pos = new_empty_pos;
        proof {
            let q = p.slide(new_empty_pos.0 as int, new_empty_pos.1 as int);
            assert forall|j: int| 0 <= j < p.size implies #[trigger] self@.rows[j] == q.rows[j] by {
                assert(p.rows[j].len() == p.size);
                assert(mid.rows[j].len() == p.size);
                assert forall|i: int| 0 <= i < p.size implies self@.rows[j][i] == q.rows[j][i] by {
                    assert(p.tile(i, j) == p.rows[j][i]);
                }
                assert(self@.rows[j] =~= q.rows[j]);
            }
            assert(self@.rows =~= q.rows);
            lemma_slide_wf(p, new_empty_pos.0 as int, new_empty_pos.1 as int);
            lemma_slide_solvable(p, new_empty_pos.0 as int, new_empty_pos.1 as int);
        }
    }

    /// Whether a shuffle may let the gap step in direction `dir` after the
    /// step `last_swap`.
    pub fn can_swap(&self, dir: Direction, last_swap: Option<Direction>) -> (open: bool)
        requires
            self.wf(),
        ensures
            open == self.may_step(dir, last_swap),
    {
        let v: (i32, i32) = dir.vector();
        let x: i32 = self.empty_pos.0 + v.0;
        let y: i32 = self.empty_pos.1 + v.1;
        let side: i32 = self.size as i32;
        let inside: bool = 0 <= x && x < side && 0 <= y && y < side;
        let undoes: bool = match last_swap {
            Some(last) => last == dir.reverse(),
            None => false,
        };
        inside && !undoes
    }

    /// One draw of a shuffle: where `draw` stands for a direction in which
    /// the gap may step after the step `last_swap`, the gap steps there and
    /// the direction is returned; on any other draw nothing happens.
    pub fn mixup_step(&mut self, draw: i32, last_swap: Option<Direction>) -> (taken: Option<
        Direction,
    >)
        requires
            old(self).wf(),
        ensures
            final(self).wf(),
            taken == old(self).chosen(draw as int, last_swap),
            final(self)@ == (match taken {
                Some(d) => old(self)@.step(d),
                None => old(self)@,
            }),
            final(self).anim() == old(self).anim(),
    {
        match Direction::from_draw(draw) {
            Some(dir) => {
                if self.can_swap(dir, last_swap) {
                    let v: (i32, i32) = dir.vector();
                    self.swap_empty_with(v.0, v.1);
                    Some(dir)
                } else {
                    None
                }
            },
            None => None,
        }
    }

    /// The first of up, right, down and left in which the gap may step after
    /// the step `last_swap`. There always is one: the gap has a neighbour in
    /// its row and one in its column, and only one step would undo the last.
    fn first_open(&self, last_swap: Option<Direction>) -> (dir: Direction)
        requires
            self.wf(),
        ensures
            self.may_step(dir, last_swap),
    {
        if self.can_swap(Direction::Up, last_swap) {
            Direction::Up
        } else if self.can_swap(Direction::Right, last_swap) {
            Direction::Right
        } else if self.can_swap(Direction::Down, last_swap) {
            Direction::Down
        } else {
            Direction::Left
        }
    }

    /// Shuffles the board by a random walk of the gap: `SHUFFLE_FACTOR`
    /// steps for each cell, each to a neighbouring cell, none undoing the
    /// step before it. The animation is left alone.
    ///
    /// For each step a direction is drawn from `rng` until the gap may step
    /// there. Should `REDRAW_LIMIT` draws in a row fail, the first direction
    /// that is open is taken, so that the shuffle always ends.
    pub fn mixup(&mut self, rng: &RandGenerator)
        requires
            old(self).wf(),
        ensures
            final(self).wf(),
            final(self)@.size == old(self)@.size,
            final(self).anim() == old(self).anim(),
            exists|path: Seq<Direction>|
                {
                    &&& path.len() == shuffle_length(old(self)@.size)
                    &&& #[trigger] old(self)@.walkable(path)
                    &&& never_reverses(path)
                    &&& final(self)@ == old(self)@.walk(path)
                },
    {
        let n: u64 = self.size as u64;
        proof {
            lemma_cells_fit(n as int);
        }
        let cells: u64 = n * n;
        let target: u64 = SHUFFLE_FACTOR * cells;
        let mut swaps: u64 = 0;
        let mut misses: u32 = 0;
        let mut last_swap: Option<Direction> = None;
        let ghost mut path: Seq<Direction> = Seq::empty();
        while swaps < target
            invariant
                self.wf(),
                self@.size == old(self)@.size,
                self.anim() == old(self).anim(),
                target == shuffle_length(old(self)@.size),
                swaps <= target,
                misses <= REDRAW_LIMIT,
                path.len() == swaps,
                last_swap == (if path.len() == 0 {
                    None
                } else {
                    Some(path.last())
                }),
                old(self)@.walkable(path),
                never_reverses(path),
                self@ == old(self)@.walk(path),
            decreases target - swaps, REDRAW_LIMIT - misses,
        {
            let taken: Option<Direction> = if misses < REDRAW_LIMIT {
                let r: i32 = gen_range(rng, 0, 4);
                self.mixup_step(r, last_swap)
            } else {
                let dir: Direction = self.first_open(last_swap);
                let v: (i32, i32) = dir.vector();
                self.swap_empty_with(v.0, v.1);
                Some(dir)
            };
            match taken {
                Some(dir) => {
                    proof {
                        let longer = path.push(dir);
                        assert(longer.drop_last() =~= path);
                        assert(longer.last() == dir);
                        path = longer;
                    }
                    swaps += 1;
                    misses = 0;
                    last_swap = Some(dir);
                },
                None => {
                    misses += 1;
                },
            }
        }
    }

    /// The side of the board.
    pub fn size(&self) -> (n: usize)
        ensures
            n == self@.size,
    {
        self.size
    }

    /// The place of the gap, as (column, row).
    pub fn empty_pos(&self) -> (pos: (i32, i32))
        ensures
            pos.0 == self@.gap.0,
            pos.1 == self@.gap.1,
    {
        self.empty_pos
    }

    /// The value in column `x` of row `y`; 0 is the gap.
    pub fn tile(&self, x: usize, y: usize) -> (value: i32)
        requires
            self.wf(),
            self@.in_bounds(x as int, y as int),
        ensures
            value == self@.tile(x as int, y as int),
    {
        proof {
            self.lemma_rows();
        }
        self.slots[y][x]
    }

    /// The animation of the last move.
    pub fn animation(&self) -> (anim: &MoveAnimData)
        ensures
            anim@ == self.anim(),
    {
        &self.move_anim_data
    }
}

} // verus!
