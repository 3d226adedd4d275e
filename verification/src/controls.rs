//! What the player does to a sandbox in one frame: quit, pause, paint with
//! the brush, or pick the next material.

use crate::dot::Dot;
use crate::grid::GridView;
use crate::line::{bresenham_points, within_reach};
use crate::sandbox::Sandbox;
use std::time::Duration;
use vstd::prelude::*;

verus! {

/// What the player did since the last frame.
#[derive(Clone, Copy, Debug)]
pub struct Input {
    /// The player asked to leave.
    pub quit: bool,
    /// The player pressed the pause key.
    pub pause: bool,
    /// The painting button is held down.
    pub paint: bool,
    /// The button that picks the next material was pressed.
    pub cycle: bool,
    /// The cell under the pointer.
    pub cell: (isize, isize),
    /// The cell under the pointer one frame earlier.
    pub last_cell: (isize, isize),
}

/// How a frame ended.
#[derive(Clone, Copy, Debug, PartialEq, Eq, Structural)]
pub enum Verdict {
    /// The player left; nothing was changed.
    Quit,
    /// The frame is done and is to be shown.
    Redraw,
    /// The stroke of the brush left the grid; nothing was painted or
    /// stepped.
    OffGrid,
}

/// The brush and the pause switch.
#[derive(Clone, Copy, Debug)]
pub struct Controls {
    /// The cell that painting puts down.
    pub brush: Dot,
    /// While set, frames do not step the sandbox.
    pub paused: bool,
}

/// `v` brought into `0..=limit`.
pub open spec fn clamped(v: isize, limit: nat) -> isize {
    if v < 0 {
        0
    } else if v > limit {
        limit as isize
    } else {
        v
    }
}

/// Where the stroke of a frame begins: the cell of the frame before, each
/// coordinate brought into the range from 0 to the size of the grid.
pub open spec fn stroke_start(input: Input, grid: GridView) -> (isize, isize) {
    (clamped(input.last_cell.0, grid.width), clamped(input.last_cell.1, grid.height))
}

/// Whether the stroke of a frame can be painted: its line is drawn, and the
/// grid has all its points.
pub open spec fn stroke_fits(input: Input, grid: GridView) -> bool {
    &&& within_reach(stroke_start(input, grid))
    &&& within_reach(input.cell)
    &&& grid.covers(bresenham_points(stroke_start(input, grid), input.cell))
}

/// The grid after the painting of a frame.
pub open spec fn stroked(input: Input, grid: GridView, brush: Dot) -> GridView {
    if input.paint {
        grid.painted(bresenham_points(stroke_start(input, grid), input.cell), brush)
    } else {
        grid
    }
}

fn clamp(v: isize, limit: usize) -> (r: isize)
    ensures
        r == clamped(v, limit as nat),
{
    if v < 0 {
        0
    } else if v as usize > limit {
        limit as isize
    } else {
        v
    }
}

impl Controls {
    /// A brush of Sand, not paused.
    pub fn new() -> (controls: Controls)
        ensures
            controls.brush == (Dot::Sand { temp: 0 }),
            !controls.paused,
    {
        Controls { brush: Dot::Sand { temp: 0 }, paused: false }
    }

    /// One frame. A request to quit ends it at once. Otherwise the pause key
    /// flips the switch; a held button paints the line from the last cell to
    /// this one, and a press of the other button, while none is held, moves
    /// the brush to the next material; then the sandbox is stepped unless
    /// paused.
    pub fn frame(&mut self, sandbox: &mut Sandbox, input: &Input, dt: &Duration) -> (verdict:
        Verdict)
        ensures
            input.quit ==> verdict is Quit && *final(self) == *old(self) && final(sandbox)@ == old(
                sandbox,
            )@,
            !input.quit ==> final(self).paused == (old(self).paused != input.pause),
            !input.quit ==> final(self).brush == if !input.paint && input.cycle {
                old(self).brush.successor()
            } else {
                old(self).brush
            },
            !input.quit && input.paint && !stroke_fits(*input, old(sandbox)@) ==> verdict is OffGrid
                && final(sandbox)@ == old(sandbox)@,
            !input.quit && !(input.paint && !stroke_fits(*input, old(sandbox)@)) ==> verdict is Redraw
                && if final(self).paused {
                final(sandbox)@ == stroked(*input, old(sandbox)@, old(self).brush)
            } else {
                stroked(*input, old(sandbox)@, old(self).brush).tick(final(sandbox)@)
            },
    {
        if input.quit {
            return Verdict::Quit;
        }
        if input.pause {
            self.paused = !self.paused;
        }
        if input.paint {
            let start = (
                clamp(input.last_cell.0, sandbox.width()),
                clamp(input.last_cell.1, sandbox.height()),
            );
            if !sandbox.paint_line(start, input.cell, self.brush) {
                return Verdict::OffGrid;
            }
        } else if input.cycle {
            self.brush = self.brush.next();
        }
        if !self.paused {
            sandbox.step(dt);
        }
        Verdict::Redraw
    }
}

} // verus!
