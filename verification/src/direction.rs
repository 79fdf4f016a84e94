//! The four ways in which the gap can take a single step.

use vstd::prelude::*;

verus! {

/// A step of the gap to a neighbouring cell. Rows are counted downwards, so
/// `Up` leads to the row before.
#[derive(Clone, Copy, Debug, PartialEq, Eq, Structural)]
pub enum Direction {
    Up,
    Right,
    Down,
    Left,
}

impl Direction {
    /// The step as (columns, rows).
    pub open spec fn step(self) -> (int, int) {
        match self {
            Direction::Up => (0, -1),
            Direction::Right => (1, 0),
            Direction::Down => (0, 1),
            Direction::Left => (-1, 0),
        }
    }

    /// The direction that undoes this one.
    pub open spec fn opposite(self) -> Direction {
        match self {
            Direction::Up => Direction::Down,
            Direction::Right => Direction::Left,
            Direction::Down => Direction::Up,
            Direction::Left => Direction::Right,
        }
    }

    /// The direction that the number `draw` stands for: 0 is up, 1 right,
    /// 2 down and 3 left; other numbers stand for none.
    pub open spec fn of_draw(draw: int) -> Option<Direction> {
        if draw == 0 {
            Some(Direction::Up)
        } else if draw == 1 {
            Some(Direction::Right)
        } else if draw == 2 {
            Some(Direction::Down)
        } else if draw == 3 {
            Some(Direction::Left)
        } else {
            None
        }
    }

    /// Whether a step in this direction may follow `last`, the step before:
    /// it may unless it would undo that step.
    pub open spec fn may_follow(self, last: Option<Direction>) -> bool {
        last != Some(self.opposite())
    }

    /// The step as (columns, rows).
    pub fn vector(self) -> (v: (i32, i32))
        ensures
            v.0 == self.step().0,
            v.1 == self.step().1,
    {
        match self {
            Direction::Up => (0, -1),
            Direction::Right => (1, 0),
            Direction::Down => (0, 1),
            Direction::Left => (-1, 0),
        }
    }

    /// The direction that undoes this one.
    pub fn reverse(self) -> (d: Direction)
        ensures
            d == self.opposite(),
    {
        match self {
            Direction::Up => Direction::Down,
            Direction::Right => Direction::Left,
            Direction::Down => Direction::Up,
            Direction::Left => Direction::Right,
        }
    }

    /// The direction that the number `draw` stands for, if any.
    pub fn from_draw(draw: i32) -> (d: Option<Direction>)
        ensures
            d == Direction::of_draw(draw as int),
    {
        if draw == 0 {
            Some(Direction::Up)
        } else if draw == 1 {
            Some(Direction::Right)
        } else if draw == 2 {
            Some(Direction::Down)
        } else if draw == 3 {
            Some(Direction::Left)
        } else {
            None
        }
    }
}

} // verus!
