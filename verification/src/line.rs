//! Painting a straight line of cells, as a drag of the brush does.

use crate::dot::Dot;
use crate::grid::{Grid, GridView};
use line_drawing::Bresenham;
use vstd::prelude::*;

verus! {

/// The largest magnitude of a coordinate between which a line is drawn.
pub const REACH: isize = 0x1000_0000;

/// Whether both coordinates of `p` lie within `REACH` of 0.
pub open spec fn within_reach(p: (isize, isize)) -> bool {
    -REACH <= p.0 <= REACH && -REACH <= p.1 <= REACH
}

/// The points of the line from `start` to `end` as Bresenham's algorithm
/// gives them, in its order.
pub uninterp spec fn bresenham_points(start: (isize, isize), end: (isize, isize)) -> Seq<
    (isize, isize),
>;

/// `line_drawing::Bresenham`: the points that the iterator made by
/// `Bresenham::new(start, end)` yields, collected in its order. The contract
/// only gives that sequence its name; it is a function of the two end points
/// alone. The bound on the coordinates keeps the differences and the error
/// term that the iterator computes within `isize`.
#[verifier::external_body]
pub(crate) fn bresenham(start: (isize, isize), end: (isize, isize)) -> (points: Vec<
    (isize, isize),
>)
    requires
        within_reach(start),
        within_reach(end),
    ensures
        points@ == bresenham_points(start, end),
{
    Bresenham::new(start, end).collect()
}

impl GridView {
    /// Whether the grid has every one of the points.
    pub open spec fn covers(self, points: Seq<(isize, isize)>) -> bool {
        forall|i: int|
            0 <= i < points.len() ==> self.in_bounds(
                (#[trigger] points[i]).0 as int,
                points[i].1 as int,
            )
    }

    /// This grid with `dot` at each of the points.
    pub open spec fn painted(self, points: Seq<(isize, isize)>, dot: Dot) -> GridView
        decreases points.len(),
    {
        if points.len() == 0 {
            self
        } else {
            self.painted(points.drop_last(), dot).put(
                points.last().0 as int,
                points.last().1 as int,
                dot,
            )
        }
    }
}

/// Whether both coordinates of `p` lie within `REACH` of 0.
fn is_within_reach(p: (isize, isize)) -> (yes: bool)
    ensures
        yes == within_reach(p),
{
    -REACH <= p.0 && p.0 <= REACH && -REACH <= p.1 && p.1 <= REACH
}

impl Grid {
    /// Whether the grid has every one of the points.
    pub fn covers(&self, points: &Vec<(isize, isize)>) -> (yes: bool)
        ensures
            yes == self@.covers(points@),
    {
        let mut i: usize = 0;
        while i < points.len()
            invariant
                i <= points@.len(),
                forall|k: int|
                    0 <= k < i ==> self@.in_bounds(
                        (#[trigger] points@[k]).0 as int,
                        points@[k].1 as int,
                    ),
            decreases points@.len() - i,
        {
            let p = points[i];
            if p.0 < 0 || p.1 < 0 || p.0 as usize >= self.width() || p.1 as usize
                >= self.height() {
                return false;
            }
            i += 1;
        }
        true
    }

    /// Puts `dot` at each of the points.
    pub fn paint(&mut self, points: &Vec<(isize, isize)>, dot: Dot)
        requires
            old(self)@.covers(points@),
        ensures
            final(self)@ == old(self)@.painted(points@, dot),
    {
        let mut i: usize = 0;
        while i < points.len()
            invariant
                i <= points@.len(),
                self@.width == old(self)@.width,
                self@.height == old(self)@.height,
                old(self)@.covers(points@),
                self@ == old(self)@.painted(points@.take(i as int), dot),
            decreases points@.len() - i,
        {
            let p = points[i];
            proof {
                assert(points@.take(i + 1).drop_last() =~= points@.take(i as int));
                assert(self@.in_bounds(points@[i as int].0 as int, points@[i as int].1 as int));
            }
            self.set((p.0 as usize, p.1 as usize), dot);
            i += 1;
        }
        proof {
            assert(points@.take(i as int) =~= points@);
        }
    }

    /// Puts `dot` at each point of the line from `start` to `end`. Where an
    /// end point lies beyond `REACH`, or the grid lacks a point of the line,
    /// nothing is painted and the answer is `false`.
    pub fn paint_line(&mut self, start: (isize, isize), end: (isize, isize), dot: Dot) -> (done:
        bool)
        ensures
            done == (within_reach(start) && within_reach(end) && old(self)@.covers(
                bresenham_points(start, end),
            )),
            done ==> final(self)@ == old(self)@.painted(bresenham_points(start, end), dot),
            !done ==> final(self)@ == old(self)@,
    {
        if !is_within_reach(start) || !is_within_reach(end) {
            return false;
        }
        let points = bresenham(start, end);
        if !self.covers(&points) {
            return false;
        }
        self.paint(&points, dot);
        true
    }
}

} // verus!
