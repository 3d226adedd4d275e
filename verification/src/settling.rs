//! What a tick does to a grid that holds a single grain: the grain falls by
//! one row, and at the bottom row it rests.

use crate::grid::GridView;
use crate::movement::fall_candidates;
use crate::tick::{run, ticks_on};
use vstd::prelude::*;

verus! {

impl GridView {
    /// No cell is Water.
    pub open spec fn dry(self) -> bool {
        forall|x: int, y: int| #![trigger self.at(x, y)] self.in_bounds(x, y) ==> !(self.at(x, y) is Water)
    }

    /// Every cell but the one at `(x, y)` is Empty.
    pub open spec fn lone(self, x: int, y: int) -> bool {
        &&& self.wf()
        &&& self.in_bounds(x, y)
        &&& forall|px: int, py: int|
            #![trigger self.at(px, py)]
            self.in_bounds(px, py) && (px != x || py != y) ==> self.at(px, py) is Empty
    }

    /// No cell among the first `n` of row `y` can fall.
    pub open spec fn still(self, y: int, n: nat) -> bool {
        forall|m: int| #![trigger self.at(m, y)] 0 <= m < n ==> !self.at(m, y).fallable()
    }

    /// This grid after the cell at `(x, y)` has come down by one row, where
    /// it can fall and there is a row below it.
    pub open spec fn settled(self, x: int, y: int) -> GridView {
        if self.at(x, y).fallable() && y + 1 < self.height {
            self.swap(x, y, x, y + 1)
        } else {
            self
        }
    }

    /// In a grid without Water no turn of the diffusion pass changes
    /// anything.
    pub proof fn lemma_dry_turn(self, x: int, y: int, order: Seq<(usize, usize)>)
        requires
            self.dry(),
        ensures
            self.diffuse(x, y, order) == self,
            self.dissolve_events(x, y, order) == 0,
        decreases order.len(),
    {
        if order.len() > 0 {
            self.lemma_dry_turn(x, y, order.drop_last());
            let n = order.last();
            assert(self.in_bounds(n.0 as int, n.1 as int) ==> !(self.at(n.0 as int, n.1 as int) is Water));
        }
    }

    proof fn lemma_dry_row(self, y: int, n: nat, after: GridView, events: nat)
        requires
            self.dry(),
            self.row_diffuses_to(y, n, after, events),
        ensures
            after == self,
            events == 0,
        decreases n,
    {
        if n > 0 {
            let (m, mid, order, before) = choose|
                m: nat,
                mid: GridView,
                order: Seq<(usize, usize)>,
                before: nat,
            |
                #![trigger mid.diffuse_step(m as int, y, order, before, after, events)]
                n == m + 1 && self.row_diffuses_to(y, m, mid, before) && mid.diffuse_step(
                    m as int,
                    y,
                    order,
                    before,
                    after,
                    events,
                );
            self.lemma_dry_row(y, m, mid, before);
            self.lemma_dry_turn(m as int, y, order);
        }
    }

    proof fn lemma_dry_rows(self, n: nat, after: GridView, events: nat)
        requires
            self.dry(),
            self.rows_diffuse_to(n, after, events),
        ensures
            after == self,
            events == 0,
        decreases n,
    {
        if n > 0 {
            let (m, mid, before) = choose|m: nat, mid: GridView, before: nat|
                #![trigger mid.diffuse_row_step(m, before, after, events)]
                n == m + 1 && self.rows_diffuse_to(m, mid, before) && mid.diffuse_row_step(
                    m,
                    before,
                    after,
                    events,
                );
            self.lemma_dry_rows(m, mid, before);
            self.lemma_dry_row(m as int, self.width, after, (events - before) as nat);
        }
    }

    /// A diffusion pass changes nothing in a grid without Water, and has no
    /// dissolve event.
    pub proof fn lemma_dry_diffusion(self, after: GridView, events: nat)
        requires
            self.dry(),
            self.diffusion(after, events),
        ensures
            after == self,
            events == 0,
    {
        self.lemma_dry_rows(self.height, after, events);
    }

    proof fn lemma_still_falls(self, y: int, n: nat, after: GridView, stuck: Seq<(usize, usize)>)
        requires
            self.still(y, n),
            self.falls_to(y, n, after, stuck),
        ensures
            after == self,
            stuck == Seq::<(usize, usize)>::empty(),
        decreases n,
    {
        if n > 0 {
            let (m, mid, before, left_first) = choose|
                m: nat,
                mid: GridView,
                before: Seq<(usize, usize)>,
                left_first: bool,
            |
                #![trigger mid.fall_step(m as int, y, before, left_first, after, stuck)]
                n == m + 1 && self.falls_to(y, m, mid, before) && mid.fall_step(
                    m as int,
                    y,
                    before,
                    left_first,
                    after,
                    stuck,
                );
            assert(self.still(y, m));
            self.lemma_still_falls(y, m, mid, before);
            assert(!self.at(m as int, y).fallable());
        }
    }

    /// The movement of a row in which no cell can fall changes nothing.
    pub proof fn lemma_still_row(self, y: int, after: GridView)
        requires
            self.still(y, self.width),
            self.row_moves_to(y, after),
        ensures
            after == self,
    {
        let (mid, stuck) = choose|mid: GridView, stuck: Seq<(usize, usize)>|
            #![trigger self.falls_to(y, self.width, mid, stuck)]
            self.falls_to(y, self.width, mid, stuck) && mid.flows_to(stuck, stuck.len(), after);
        self.lemma_still_falls(y, self.width, mid, stuck);
    }

    /// Where a lone grain looks first when it falls, and what it finds
    /// there.
    proof fn lemma_grain_drops(self, x: int, y: int, left_first: bool)
        requires
            self.lone(x, y),
            !(self.at(x, y) is Water),
        ensures
            self.fall(x, y, left_first) == self.settled(x, y),
            !self.stuck(x, y, left_first),
    {
        let dot = self.at(x, y);
        let candidates = fall_candidates(x, y, left_first);
        if dot.fallable() {
            if y + 1 < self.height {
                assert(self.in_bounds(x, y + 1));
                assert(self.at(x, y + 1) is Empty);
                self.lemma_first_gives_way(dot, candidates);
            } else {
                self.lemma_none_gives_way(dot, candidates);
            }
        }
    }

    proof fn lemma_grain_falls(
        self,
        x: int,
        y: int,
        n: nat,
        after: GridView,
        stuck: Seq<(usize, usize)>,
    )
        requires
            self.lone(x, y),
            !(self.at(x, y) is Water),
            n <= self.width,
            self.falls_to(y, n, after, stuck),
        ensures
            after == if n <= x {
                self
            } else {
                self.settled(x, y)
            },
            stuck == Seq::<(usize, usize)>::empty(),
        decreases n,
    {
        if n > 0 {
            let (m, mid, before, left_first) = choose|
                m: nat,
                mid: GridView,
                before: Seq<(usize, usize)>,
                left_first: bool,
            |
                #![trigger mid.fall_step(m as int, y, before, left_first, after, stuck)]
                n == m + 1 && self.falls_to(y, m, mid, before) && mid.fall_step(
                    m as int,
                    y,
                    before,
                    left_first,
                    after,
                    stuck,
                );
            self.lemma_grain_falls(x, y, m, mid, before);
            if m < x {
                assert(self.at(m as int, y) is Empty);
            } else if m == x {
                self.lemma_grain_drops(x, y, left_first);
            } else {
                self.lemma_settled_lone(x, y);
                assert(mid.at(m as int, y) is Empty);
            }
        }
    }

    /// Once the lone grain has come down, its row and the rows above it are
    /// Empty but for the place where it was.
    proof fn lemma_settled_lone(self, x: int, y: int)
        requires
            self.lone(x, y),
        ensures
            self.settled(x, y).width == self.width,
            self.settled(x, y).height == self.height,
            forall|px: int, py: int|
                #![trigger self.settled(x, y).at(px, py)]
                self.in_bounds(px, py) && py <= y && (px != x || py != y) ==> self.settled(
                    x,
                    y,
                ).at(px, py) is Empty,
    {
        assert forall|px: int, py: int|
            self.in_bounds(px, py) && py <= y && (px != x || py != y) implies #[trigger] self.settled(
            x,
            y,
        ).at(px, py) is Empty by {
            assert(self.at(px, py) is Empty);
            if self.at(x, y).fallable() && y + 1 < self.height {
                self.lemma_swap_at(x, y, x, y + 1, px, py);
            }
        }
    }

    proof fn lemma_grain_row(self, x: int, y: int, after: GridView)
        requires
            self.lone(x, y),
            !(self.at(x, y) is Water),
            self.row_moves_to(y, after),
        ensures
            after == self.settled(x, y),
    {
        let (mid, stuck) = choose|mid: GridView, stuck: Seq<(usize, usize)>|
            #![trigger self.falls_to(y, self.width, mid, stuck)]
            self.falls_to(y, self.width, mid, stuck) && mid.flows_to(stuck, stuck.len(), after);
        self.lemma_grain_falls(x, y, self.width, mid, stuck);
    }

    proof fn lemma_grain_rows(self, x: int, y: int, n: nat, after: GridView)
        requires
            self.lone(x, y),
            !(self.at(x, y) is Water),
            n <= self.height,
            self.rows_move_to(n, after),
        ensures
            after == if n < self.height - y {
                self
            } else {
                self.settled(x, y)
            },
        decreases n,
    {
        if n > 0 {
            let (m, mid) = choose|m: nat, mid: GridView|
                #![trigger mid.row_step(m, after)]
                n == m + 1 && self.rows_move_to(m, mid) && mid.row_step(m, after);
            self.lemma_grain_rows(x, y, m, mid);
            self.lemma_settled_lone(x, y);
            let row = self.height - m - 1;
            if row > y {
                assert forall|c: int| 0 <= c < self.width implies !(#[trigger] self.at(
                    c,
                    row,
                )).fallable() by {
                    assert(self.in_bounds(c, row));
                }
                self.lemma_still_row(row, after);
            } else if row == y {
                self.lemma_grain_row(x, y, after);
            } else {
                assert forall|c: int| 0 <= c < mid.width implies !(#[trigger] mid.at(
                    c,
                    row,
                )).fallable() by {
                    assert(self.in_bounds(c, row));
                }
                mid.lemma_still_row(row, after);
            }
        }
    }

    /// Settling: in a grid that is Empty but for one cell, and that cell not
    /// Water, a tick brings the cell down by exactly one row if it can fall
    /// and is above the bottom row, and changes nothing otherwise. So a
    /// single grain of Sand falls one row a tick and rests on the floor.
    pub proof fn lemma_lone_grain_settles(self, x: int, y: int, after: GridView)
        requires
            self.lone(x, y),
            !(self.at(x, y) is Water),
            self.tick(after),
        ensures
            after == self.settled(x, y),
    {
        let (mid, events) = choose|mid: GridView, events: nat|
            #![trigger self.diffusion(mid, events)]
            self.diffusion(mid, events) && mid.movement(after);
        assert(self.dry()) by {
            assert forall|px: int, py: int| self.in_bounds(px, py) implies !(#[trigger] self.at(
                px,
                py,
            ) is Water) by {}
        }
        self.lemma_dry_diffusion(mid, events);
        self.lemma_grain_rows(x, y, self.height, after);
    }
}

/// The row that a grain reaches in `k` ticks from row `y`: one row a tick,
/// and no further than the bottom row.
pub open spec fn row_after(y: int, k: int, height: nat) -> int {
    if y + k < height {
        y + k
    } else {
        height - 1
    }
}

/// Settling over time: a grain that can fall and is not Water, alone in an
/// Empty grid, is after `k` ticks the only cell `k` rows further down, or on
/// the bottom row once it has reached it, and there it stays.
pub proof fn lemma_grain_comes_to_rest(grids: Seq<GridView>, x: int, y: int, k: int)
    requires
        grids.len() > 0,
        run(grids),
        grids[0].lone(x, y),
        grids[0].at(x, y).fallable(),
        !(grids[0].at(x, y) is Water),
        0 <= k < grids.len(),
    ensures
        grids[k].width == grids[0].width,
        grids[k].height == grids[0].height,
        grids[k].lone(x, row_after(y, k, grids[0].height)),
        grids[k].at(x, row_after(y, k, grids[0].height)) == grids[0].at(x, y),
    decreases k,
{
    if k > 0 {
        lemma_grain_comes_to_rest(grids, x, y, k - 1);
        assert(ticks_on(grids, k - 1));
        let before = grids[k - 1];
        let after = grids[k];
        let row = row_after(y, k - 1, grids[0].height);
        before.lemma_lone_grain_settles(x, row, after);
        if row + 1 < before.height {
            before.lemma_swap_rearranges(x, row, x, row + 1);
            assert forall|px: int, py: int|
                after.in_bounds(px, py) && (px != x || py != row + 1) implies #[trigger] after.at(
                px,
                py,
            ) is Empty by {
                before.lemma_swap_at(x, row, x, row + 1, px, py);
            }
            before.lemma_swap_at(x, row, x, row + 1, x, row + 1);
        }
    }
}

} // verus!
