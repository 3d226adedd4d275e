//! The sandbox: a grid together with the random source that breaks the ties
//! of its two passes.

use crate::diffusion::stencil;
use crate::dot::Dot;
use crate::grid::{Grid, GridView};
use crate::line::{bresenham_points, within_reach};
use crate::movement::{fall_candidates, flow_candidates};
use crate::random::{coin, shuffle};
use rand::rngs::ThreadRng;
use std::time::Duration;
use vstd::prelude::*;

verus! {

/// A grid of cells that is stepped tick by tick.
pub struct Sandbox {
    grid: Grid,
    rng: ThreadRng,
}

impl View for Sandbox {
    type V = GridView;

    closed spec fn view(&self) -> GridView {
        self.grid@
    }
}

impl Sandbox {
    /// The model of every sandbox is a well-formed grid.
    pub proof fn lemma_wf(&self)
        ensures
            self@.wf(),
    {
        self.grid.lemma_wf();
    }

    /// A sandbox of `w` columns and `h` rows of Empty cells.
    pub fn new(w: usize, h: usize) -> (sandbox: Sandbox)
        requires
            w * h <= usize::MAX,
        ensures
            sandbox@ == GridView::blank(w as nat, h as nat),
    {
        Sandbox { grid: Grid::new(w, h), rng: rand::thread_rng() }
    }

    /// The grid as it stands.
    pub fn grid(&self) -> (grid: &Grid)
        ensures
            grid@ == self@,
    {
        &self.grid
    }

    /// The number of columns.
    pub fn width(&self) -> (w: usize)
        ensures
            w == self@.width,
    {
        self.grid.width()
    }

    /// The number of rows.
    pub fn height(&self) -> (h: usize)
        ensures
            h == self@.height,
    {
        self.grid.height()
    }

    /// Paints the cell at `pos`, given as column and row.
    pub fn set(&mut self, pos: (usize, usize), dot: Dot)
        requires
            old(self)@.in_bounds(pos.0 as int, pos.1 as int),
        ensures
            final(self)@ == old(self)@.put(pos.0 as int, pos.1 as int, dot),
    {
        self.grid.set(pos, dot);
    }

    /// The cell at `pos`, given as column and row.
    pub fn get(&self, pos: (usize, usize)) -> (dot: Dot)
        requires
            self@.in_bounds(pos.0 as int, pos.1 as int),
        ensures
            dot == self@.at(pos.0 as int, pos.1 as int),
    {
        self.grid.get(pos)
    }

    /// Paints `dot` along the line from `start` to `end`. Where an end
    /// point lies beyond `REACH`, or the grid lacks a point of the line,
    /// nothing is painted and the answer is `false`.
    pub fn paint_line(&mut self, start: (isize, isize), end: (isize, isize), dot: Dot) -> (done:
        bool)
        ensures
            done == (within_reach(start) && within_reach(end) && old(self)@.covers(
                bresenham_points(start, end),
            )),
            done ==> final(self)@ == old(self)@.painted(bresenham_points(start, end), dot),
            !done ==> final(self)@ == old(self)@,
    {
        self.grid.paint_line(start, end, dot)
    }

    /// Writes the colour of every cell into `frame`, four bytes a cell, row
    /// by row.
    pub fn draw(&self, frame: &mut [u8])
        requires
            old(frame)@.len() == 4 * self@.width * self@.height,
        ensures
            final(frame)@ == self@.pixels(),
    {
        self.grid.draw(frame);
    }

    /// The three places to which the cell at `pos` tries to fall: the one
    /// below, then the two diagonals below in random order. They are named
    /// whether the grid has them or not.
    fn fall_neighbors(&mut self, pos: (usize, usize)) -> (candidates: Vec<(i128, i128)>)
        ensures
            final(self)@ == old(self)@,
            candidates@ == fall_candidates(pos.0 as int, pos.1 as int, true) || candidates@
                == fall_candidates(pos.0 as int, pos.1 as int, false),
    {
        let left_first = coin(&mut self.rng);
        Grid::fall_candidates(pos, left_first)
    }

    /// The two places to which the cell at `pos` tries to flow: its left and
    /// its right neighbour in random order. They are named whether the grid
    /// has them or not.
    fn flow_neighbors(&mut self, pos: (usize, usize)) -> (candidates: Vec<(i128, i128)>)
        ensures
            final(self)@ == old(self)@,
            candidates@ == flow_candidates(pos.0 as int, pos.1 as int, true) || candidates@
                == flow_candidates(pos.0 as int, pos.1 as int, false),
    {
        let left_first = coin(&mut self.rng);
        Grid::flow_candidates(pos, left_first)
    }

    /// The movement pass: rows from the bottom one upwards; in each row every
    /// cell tries to fall, then the liquids that could not fall try to flow.
    /// A place off the grid is tried like any other and passed over. The
    /// elapsed time plays no part.
    pub fn step_fall(&mut self, _dt: &Duration)
        ensures
            old(self)@.movement(final(self)@),
            old(self)@.rearranged_to(final(self)@),
    {
        let ghost start = self@;
        let w = self.grid.width();
        let h = self.grid.height();
        let mut horiz: Vec<(usize, usize)> = Vec::new();
        let mut y: usize = h;
        while y > 0
            invariant
                y <= h,
                start.width == w,
                start.height == h,
                self@.width == w,
                self@.height == h,
                horiz@.len() == 0,
                start.rows_move_to((h - y) as nat, self@),
            decreases y,
        {
            y -= 1;
            let ghost row_start = self@;
            let mut x: usize = 0;
            assert(horiz@ =~= Seq::<(usize, usize)>::empty());
            while x < w
                invariant
                    x <= w,
                    y < h,
                    row_start.width == w,
                    self@.width == w,
                    self@.height == h,
                    row_start.falls_to(y as int, x as nat, self@, horiz@),
                    forall|k: int|
                        0 <= k < horiz@.len() ==> self@.in_bounds(
                            (#[trigger] horiz@[k]).0 as int,
                            horiz@[k].1 as int,
                        ),
                decreases w - x,
            {
                let ghost before = self@;
                let ghost recorded = horiz@;
                let ghost mut left_first = true;
                let dot = self.grid.get((x, y));
                if dot.is_fallable() {
                    let candidates = self.fall_neighbors((x, y));
                    proof {
                        left_first = candidates@ == fall_candidates(x as int, y as int, true);
                    }
                    let moved = self.grid.try_move((x, y), &candidates);
                    if !moved && dot.is_flowable() {
                        horiz.push((x, y));
                    }
                }
                proof {
                    row_start.lemma_falls_on(
                        y as int,
                        x as nat,
                        before,
                        recorded,
                        left_first,
                        self@,
                        horiz@,
                    );
                }
                x += 1;
            }
            let ghost mid = self@;
            let mut i: usize = 0;
            while i < horiz.len()
                invariant
                    i <= horiz@.len(),
                    self@.width == w,
                    self@.height == h,
                    mid.flows_to(horiz@, i as nat, self@),
                    forall|k: int|
                        0 <= k < horiz@.len() ==> self@.in_bounds(
                            (#[trigger] horiz@[k]).0 as int,
                            horiz@[k].1 as int,
                        ),
                decreases horiz@.len() - i,
            {
                let ghost before = self@;
                let ghost mut left_first = true;
                let pos = horiz[i];
                let candidates = self.flow_neighbors(pos);
                proof {
                    left_first = candidates@ == flow_candidates(pos.0 as int, pos.1 as int, true);
                }
                self.grid.try_move(pos, &candidates);
                proof {
                    mid.lemma_flows_on(horiz@, i as nat, before, left_first);
                }
                i += 1;
            }
            proof {
                assert(row_start.row_moves_to(y as int, self@));
                start.lemma_rows_move_on((h - y - 1) as nat, row_start, self@);
            }
            horiz.clear();
        }
        proof {
            old(self).lemma_wf();
            start.lemma_movement_rearranges(self@);
        }
    }

    /// The neighbours of `pos` with which it exchanges, in random order.
    fn neighbors(&mut self, pos: (usize, usize)) -> (order: Vec<(usize, usize)>)
        ensures
            final(self)@ == old(self)@,
            order@.to_multiset() == old(self)@.neighbors(pos.0 as int, pos.1 as int).to_multiset(),
    {
        let offsets: Vec<(i8, i8)> = vec![(0, 1), (1, 1), (1, 0), (0, -1), (-1, -1), (-1, 0)];
        assert(offsets@ =~= stencil());
        let mut order = self.grid.neighbors_along(pos, &offsets);
        shuffle(&mut order, &mut self.rng);
        order
    }

    /// The diffusion pass: every cell in turn, row by row from the top,
    /// meets its neighbours in random order. A Salt cell is used up by its
    /// first dissolve event, so the pass costs exactly as many Salt cells as
    /// it has such events. The elapsed time plays no part.
    pub fn step_attrs(&mut self, _dt: &Duration)
        ensures
            exists|events: nat|
                #![trigger old(self)@.diffusion(final(self)@, events)]
                old(self)@.diffusion(final(self)@, events) && old(self)@.salt_lost(
                    final(self)@,
                    events,
                ),
            old(self)@.diffused_to(final(self)@),
    {
        let ghost start = self@;
        let ghost mut events: nat = 0;
        let w = self.grid.width();
        let h = self.grid.height();
        let mut y: usize = 0;
        while y < h
            invariant
                y <= h,
                self@.width == w,
                self@.height == h,
                start.rows_diffuse_to(y as nat, self@, events),
            decreases h - y,
        {
            let ghost row_start = self@;
            let ghost mut row_events: nat = 0;
            let mut x: usize = 0;
            while x < w
                invariant
                    x <= w,
                    y < h,
                    row_start.width == w,
                    self@.width == w,
                    self@.height == h,
                    row_start.row_diffuses_to(y as int, x as nat, self@, row_events),
                decreases w - x,
            {
                let ghost before = self@;
                let order = self.neighbors((x, y));
                let dissolved = self.grid.diffuse((x, y), &order);
                proof {
                    row_start.lemma_row_diffuses_on(
                        y as int,
                        x as nat,
                        before,
                        order@,
                        row_events,
                        self@,
                        row_events + dissolved as nat,
                    );
                    row_events = row_events + dissolved as nat;
                }
                x += 1;
            }
            proof {
                start.lemma_rows_diffuse_on(y as nat, row_start, events, self@, events + row_events);
                events = events + row_events;
            }
            y += 1;
        }
        proof {
            old(self).lemma_wf();
            start.lemma_diffusion_dissolves(self@, events);
        }
    }

    /// One tick: the diffusion pass, then the movement pass. The elapsed
    /// time plays no part: what a tick may lead to depends on the grid alone.
    pub fn step(&mut self, dt: &Duration)
        ensures
            old(self)@.tick(final(self)@),
            final(self)@.width == old(self)@.width,
            final(self)@.height == old(self)@.height,
            old(self)@.iron_stays(final(self)@),
    {
        self.step_attrs(dt);
        self.step_fall(dt);
        proof {
            old(self).lemma_wf();
            old(self)@.lemma_tick(self@);
        }
    }
}

} // verus!
