//! The slide animation: which tiles are sliding, in which direction, and
//! how far the slide has come.
//!
//! Time is counted in whole microseconds and progress in millionths of the
//! slide, so that the clock and the progress are integers. The easing curve
//! itself is computed by the `tween` crate.

use vstd::prelude::*;
use tween::Tweener;

verus! {

/// How long a slide takes, in microseconds.
pub const ANIM_DURATION: u32 = 150_000;

/// The progress of a finished slide. A slide starts at progress 0.
pub const FULL_PROGRESS: i32 = 1_000_000;

/// The largest value and the longest duration handed to the easing curve:
/// up to here every integer is also a single-precision number.
pub const EXACT_LIMIT: u32 = 0x100_0000;

/// The value that `tween`'s quadratic ease-out from `start` to `end` over
/// `duration` takes at time `position`.
pub uninterp spec fn quad_out_value(start: int, end: int, duration: int, position: int) -> int;

/// `tween::Tweener::quad_out(start, end, duration)` moved to `position`
/// with `Tweener::move_to`.
///
/// Believed of it: the value returned depends on the four arguments alone,
/// and at or beyond the duration it is `end`, as the crate documents of a
/// tweener moved past its end. Nothing more is claimed of what the value
/// is. The bounds keep `end - start` and the sum that `move_to` forms within
/// the integer type, and make the duration and `end - start` integers that
/// a single-precision number holds exactly.
#[verifier::external_body]
fn quad_out_at(start: i32, end: i32, duration: u32, position: u32) -> (value: i32)
    requires
        0 <= start <= end <= EXACT_LIMIT,
        0 < duration <= EXACT_LIMIT,
    ensures
        value == quad_out_value(start as int, end as int, duration as int, position as int),
        position >= duration ==> value == end,
{
    Tweener::quad_out(start, end, duration).move_to(position)
}

/// `tween::Tweener::quad_out_at(start, end, duration, position)` asked
/// with `Tweener::is_finished`.
///
/// Believed of it: a tweener is finished exactly when its time is at or
/// beyond its duration. The crate compares the two as single-precision
/// numbers, which is the same comparison as long as the duration is an
/// integer that such a number holds exactly.
#[verifier::external_body]
fn quad_out_finished(start: i32, end: i32, duration: u32, position: u32) -> (done: bool)
    requires
        0 <= start <= end <= EXACT_LIMIT,
        0 < duration <= EXACT_LIMIT,
    ensures
        done == (position >= duration),
{
    Tweener::quad_out_at(start, end, duration, position).is_finished()
}

/// `value` brought into the range of a progress.
pub open spec fn clamp_progress(value: int) -> int {
    if value < 0 {
        0
    } else if value > FULL_PROGRESS {
        FULL_PROGRESS as int
    } else {
        value
    }
}

/// What the easing curve gives for a slide that began `elapsed`
/// microseconds ago: the quadratic ease-out from 0 to `FULL_PROGRESS` over
/// `ANIM_DURATION`, which from the end of the slide on is `FULL_PROGRESS`.
pub open spec fn eased_value(elapsed: int) -> int {
    if elapsed >= ANIM_DURATION {
        FULL_PROGRESS as int
    } else {
        quad_out_value(0, FULL_PROGRESS as int, ANIM_DURATION as int, elapsed)
    }
}

/// The clock after `dt` more microseconds: it stops at the largest value it
/// can hold.
pub open spec fn clock_after(elapsed: int, dt: int) -> int {
    if elapsed + dt > u32::MAX {
        u32::MAX as int
    } else {
        elapsed + dt
    }
}

/// The state of the animation as plain values.
pub struct Animation {
    /// The tiles of the last move, as (column, row, value) before the move.
    pub tiles: Seq<(i32, i32, i32)>,
    /// The step by which those tiles moved.
    pub vector: (int, int),
    /// How far the slide has come, from 0 to `FULL_PROGRESS`.
    pub progress: int,
    /// Whether the slide is still under way.
    pub running: bool,
    /// Microseconds since the slide began.
    pub elapsed: int,
}

impl Animation {
    /// What every animation state satisfies.
    pub open spec fn wf(self) -> bool {
        &&& -1 <= self.vector.0 <= 1
        &&& -1 <= self.vector.1 <= 1
        &&& 0 <= self.progress <= FULL_PROGRESS
        &&& 0 <= self.elapsed <= u32::MAX
        &&& self.running ==> self.elapsed < ANIM_DURATION
    }

    /// An animation at rest that remembers `tiles` and `vector`.
    pub open spec fn created(tiles: Seq<(i32, i32, i32)>, vector: (int, int)) -> Animation {
        Animation { tiles, vector, progress: 0, running: false, elapsed: 0 }
    }

    /// The animation at the moment a slide of `tiles` along `vector` begins.
    pub open spec fn begun(tiles: Seq<(i32, i32, i32)>, vector: (int, int)) -> Animation {
        Animation { tiles, vector, progress: 0, running: true, elapsed: 0 }
    }

    /// A running animation whose clock shows `elapsed` and for which the
    /// easing curve gave `eased`; an animation at rest stays as it is.
    pub open spec fn settled(self, elapsed: int, eased: int) -> Animation {
        if self.running {
            Animation {
                progress: clamp_progress(eased),
                running: elapsed < ANIM_DURATION,
                elapsed,
                ..self
            }
        } else {
            self
        }
    }

    /// The animation `dt` microseconds later.
    pub open spec fn advanced(self, dt: int) -> Animation {
        let elapsed = clock_after(self.elapsed, dt);
        self.settled(elapsed, eased_value(elapsed))
    }

    /// The animation after one update for each entry of `dts`, in order.
    pub open spec fn advanced_all(self, dts: Seq<u32>) -> Animation
        decreases dts.len(),
    {
        if dts.len() == 0 {
            self
        } else {
            self.advanced_all(dts.drop_last()).advanced(dts.last() as int)
        }
    }

    /// Whether a tile of value `value` took part in the last move.
    pub open spec fn moved(self, value: i32) -> bool {
        exists|i: int| 0 <= i < self.tiles.len() && (#[trigger] self.tiles[i]).2 == value
    }

    /// Whether the tile of value `value` is sliding now.
    pub open spec fn slides(self, value: i32) -> bool {
        self.running && self.moved(value)
    }

    /// How far the tile of value `value` is drawn from its cell, in
    /// millionths of a cell along each axis: a sliding tile starts one whole
    /// cell back along the move vector and eases to nothing.
    pub open spec fn offset(self, value: i32) -> (int, int) {
        if self.slides(value) {
            (
                -self.vector.0 * (FULL_PROGRESS - self.progress),
                -self.vector.1 * (FULL_PROGRESS - self.progress),
            )
        } else {
            (0, 0)
        }
    }
}

/// The sum of the entries of `dts`.
pub open spec fn total_time(dts: Seq<u32>) -> int
    decreases dts.len(),
{
    if dts.len() == 0 {
        0
    } else {
        total_time(dts.drop_last()) + dts.last()
    }
}

/// The animation that follows a move.
pub struct MoveAnimData {
    slots: Vec<(i32, i32, i32)>,
    vec: (i32, i32),
    time: i32,
    running: bool,
    elapsed: u32,
}

impl View for MoveAnimData {
    type V = Animation;

    closed spec fn view(&self) -> Animation {
        Animation {
            tiles: self.slots@,
            vector: (self.vec.0 as int, self.vec.1 as int),
            progress: self.time as int,
            running: self.running,
            elapsed: self.elapsed as int,
        }
    }
}

impl MoveAnimData {
    /// An animation at rest that remembers the tiles `slots` and the step
    /// `vec`, each part of which is -1, 0 or 1.
    pub fn new(slots: Vec<(i32, i32, i32)>, vec: (i32, i32)) -> (anim: MoveAnimData)
        requires
            -1 <= vec.0 <= 1,
            -1 <= vec.1 <= 1,
        ensures
            anim@ == Animation::created(slots@, (vec.0 as int, vec.1 as int)),
            anim@.wf(),
    {
        MoveAnimData { slots: slots, vec: vec, time: 0, running: false, elapsed: 0 }
    }

    /// Begins the slide of the remembered tiles: the clock and the progress
    /// go back to zero.
    pub fn start(&mut self)
        requires
            old(self)@.wf(),
        ensures
            final(self)@ == Animation::begun(old(self)@.tiles, old(self)@.vector),
            final(self)@.wf(),
    {
        self.time = 0;
        self.elapsed = 0;
        self.running = true;
    }

    /// Records, for a running animation, the time `elapsed` on its clock and
    /// the value `eased` that the easing curve gave for it. The slide ends
    /// when the clock has reached `ANIM_DURATION`. An animation at rest is
    /// left alone.
    pub fn settle(&mut self, elapsed: u32, eased: i32)
        requires
            old(self)@.wf(),
        ensures
            final(self)@ == old(self)@.settled(elapsed as int, eased as int),
            final(self)@.wf(),
    {
        if self.running {
            self.elapsed = elapsed;
            self.time = if eased < 0 {
                0
            } else if eased > FULL_PROGRESS {
                FULL_PROGRESS
            } else {
                eased
            };
            if quad_out_finished(0, FULL_PROGRESS, ANIM_DURATION, elapsed) {
                self.running = false;
            }
        }
    }

    /// Moves the clock of a running animation on by `dt` microseconds and
    /// takes the new progress from the easing curve.
    pub fn advance(&mut self, dt: u32)
        requires
            old(self)@.wf(),
        ensures
            final(self)@ == old(self)@.advanced(dt as int),
            final(self)@.wf(),
    {
        if self.running {
            let elapsed: u32 = self.elapsed.saturating_add(dt);
            let eased: i32 = quad_out_at(0, FULL_PROGRESS, ANIM_DURATION, elapsed);
            self.settle(elapsed, eased);
        }
    }

    /// Whether the slide is still under way.
    pub fn is_running(&self) -> (running: bool)
        ensures
            running == self@.running,
    {
        self.running
    }

    /// How far the slide has come, from 0 to `FULL_PROGRESS`.
    pub fn progress(&self) -> (progress: i32)
        ensures
            progress == self@.progress,
    {
        self.time
    }

    /// The step by which the tiles of the last move moved.
    pub fn vector(&self) -> (vector: (i32, i32))
        ensures
            vector.0 == self@.vector.0,
            vector.1 == self@.vector.1,
    {
        self.vec
    }

    /// The tiles of the last move, as (column, row, value) before the move.
    pub fn tiles(&self) -> (tiles: &Vec<(i32, i32, i32)>)
        ensures
            tiles@ == self@.tiles,
    {
        &self.slots
    }

    /// Whether the tile of value `value` is sliding now.
    pub fn is_sliding(&self, value: i32) -> (sliding: bool)
        ensures
            sliding == self@.slides(value),
    {
        if !self.running {
            return false;
        }
        let mut i: usize = 0;
        while i < self.slots.len()
            invariant
                self.running,
                i <= self.slots.len(),
                forall|j: int| 0 <= j < i ==> (#[trigger] self.slots@[j]).2 != value,
            decreases self.slots.len() - i,
        {
            if self.slots[i].2 == value {
                assert(self@.tiles[i as int].2 == value);
                return true;
            }
            i += 1;
        }
        false
    }

    /// How far the tile of value `value` is to be drawn from its cell, in
    /// millionths of a cell along each axis.
    pub fn offset(&self, value: i32) -> (offset: (i32, i32))
        requires
            self@.wf(),
        ensures
            offset.0 == self@.offset(value).0,
            offset.1 == self@.offset(value).1,
    {
        if self.is_sliding(value) {
            let rest: i32 = FULL_PROGRESS - self.time;
            assert(-FULL_PROGRESS <= -self.vec.0 * rest <= FULL_PROGRESS) by (nonlinear_arith)
                requires
                    -1 <= self.vec.0 <= 1,
                    0 <= rest <= FULL_PROGRESS,
            ;
            assert(-FULL_PROGRESS <= -self.vec.1 * rest <= FULL_PROGRESS) by (nonlinear_arith)
                requires
                    -1 <= self.vec.1 <= 1,
                    0 <= rest <= FULL_PROGRESS,
            ;
            (-self.vec.0 * rest, -self.vec.1 * rest)
        } else {
            (0, 0)
        }
    }
}

} // verus!
