//! The rules of the movement pass: cells fall, and liquids that cannot fall
//! flow sideways. A cell tries its candidates in order; those that the grid
//! lacks, at an edge or on the bottom row, are named and passed over.

use crate::dot::Dot;
use crate::grid::{Grid, GridView};
use vstd::prelude::*;

verus! {

/// The three places to which the cell at `(x, y)` tries to fall, in order:
/// straight down, then the two diagonals below, the left one first if
/// `left_first`. They are named whether the grid has them or not.
pub open spec fn fall_candidates(x: int, y: int, left_first: bool) -> Seq<(i128, i128)> {
    if left_first {
        seq![
            (x as i128, (y + 1) as i128),
            ((x - 1) as i128, (y + 1) as i128),
            ((x + 1) as i128, (y + 1) as i128),
        ]
    } else {
        seq![
            (x as i128, (y + 1) as i128),
            ((x + 1) as i128, (y + 1) as i128),
            ((x - 1) as i128, (y + 1) as i128),
        ]
    }
}

/// The two places to which the cell at `(x, y)` tries to flow, in order: its
/// neighbours in the row, the left one first if `left_first`. They are named
/// whether the grid has them or not.
pub open spec fn flow_candidates(x: int, y: int, left_first: bool) -> Seq<(i128, i128)> {
    if left_first {
        seq![((x - 1) as i128, y as i128), ((x + 1) as i128, y as i128)]
    } else {
        seq![((x + 1) as i128, y as i128), ((x - 1) as i128, y as i128)]
    }
}

impl GridView {
    /// Whether `dot` may move to `to`: the grid has that place, and the cell
    /// there gives way.
    pub open spec fn gives_way(self, to: (i128, i128), dot: Dot) -> bool {
        self.in_bounds(to.0 as int, to.1 as int) && self.at(to.0 as int, to.1 as int).displaceable_by(
            &dot,
        )
    }

    /// The first of the candidates into which `dot` may move. Candidates
    /// that the grid lacks are passed over.
    pub open spec fn first_free(self, dot: Dot, candidates: Seq<(i128, i128)>) -> Option<
        (i128, i128),
    >
        decreases candidates.len(),
    {
        if candidates.len() == 0 {
            None
        } else if self.gives_way(candidates.first(), dot) {
            Some(candidates.first())
        } else {
            self.first_free(dot, candidates.drop_first())
        }
    }

    /// The grid after the cell at `(x, y)` has changed places with the first
    /// candidate that gives way to it; the grid itself where none does.
    pub open spec fn advance(self, x: int, y: int, candidates: Seq<(i128, i128)>) -> GridView {
        match self.first_free(self.at(x, y), candidates) {
            Some(to) => self.swap(x, y, to.0 as int, to.1 as int),
            None => self,
        }
    }

    /// The grid after the cell at `(x, y)` has tried to fall.
    pub open spec fn fall(self, x: int, y: int, left_first: bool) -> GridView {
        if self.at(x, y).fallable() {
            self.advance(x, y, fall_candidates(x, y, left_first))
        } else {
            self
        }
    }

    /// Whether the cell at `(x, y)` is a liquid that finds no place to fall
    /// to.
    pub open spec fn stuck(self, x: int, y: int, left_first: bool) -> bool {
        &&& self.at(x, y).fallable()
        &&& self.at(x, y).flowable()
        &&& self.first_free(self.at(x, y), fall_candidates(x, y, left_first)) is None
    }

    /// The grid after the cell at `(x, y)` has tried to flow sideways.
    pub open spec fn flow(self, x: int, y: int, left_first: bool) -> GridView {
        self.advance(x, y, flow_candidates(x, y, left_first))
    }

    /// One cell of the falling phase: the cell at `(x, y)` tries to fall, and
    /// is added to the list of stuck liquids if it is one.
    pub open spec fn fall_step(
        self,
        x: int,
        y: int,
        stuck: Seq<(usize, usize)>,
        left_first: bool,
        after: GridView,
        stuck_after: Seq<(usize, usize)>,
    ) -> bool {
        &&& after == self.fall(x, y, left_first)
        &&& stuck_after == if self.stuck(x, y, left_first) {
            stuck.push((x as usize, y as usize))
        } else {
            stuck
        }
    }

    /// The falling phase of row `y`, over its first `n` columns from the
    /// left, may lead from this grid to `after` with the liquids at `stuck`
    /// recorded: each cell falls under one of the two tie-breaks.
    pub open spec fn falls_to(self, y: int, n: nat, after: GridView, stuck: Seq<(usize, usize)>) -> bool
        decreases n,
    {
        if n == 0 {
            after == self && stuck == Seq::<(usize, usize)>::empty()
        } else {
            exists|m: nat, mid: GridView, before: Seq<(usize, usize)>, left_first: bool|
                #![trigger mid.fall_step(m as int, y, before, left_first, after, stuck)]
                n == m + 1 && self.falls_to(y, m, mid, before) && mid.fall_step(
                    m as int,
                    y,
                    before,
                    left_first,
                    after,
                    stuck,
                )
        }
    }

    /// One cell of the flowing phase: the cell at the `m`-th recorded position
    /// tries to flow.
    pub open spec fn flow_step(
        self,
        stuck: Seq<(usize, usize)>,
        m: nat,
        left_first: bool,
        after: GridView,
    ) -> bool {
        after == self.flow(stuck[m as int].0 as int, stuck[m as int].1 as int, left_first)
    }

    /// The flowing phase, over the first `n` recorded positions in the order
    /// in which they were recorded, may lead from this grid to `after`: each
    /// cell flows under one of the two tie-breaks.
    pub open spec fn flows_to(self, stuck: Seq<(usize, usize)>, n: nat, after: GridView) -> bool
        decreases n,
    {
        if n == 0 {
            after == self
        } else {
            exists|m: nat, mid: GridView, left_first: bool|
                #![trigger mid.flow_step(stuck, m, left_first, after)]
                n == m + 1 && self.flows_to(stuck, m, mid) && mid.flow_step(
                    stuck,
                    m,
                    left_first,
                    after,
                )
        }
    }

    /// Row `y` may lead from this grid to `after`: all its cells fall, then
    /// the liquids that were stuck flow.
    pub open spec fn row_moves_to(self, y: int, after: GridView) -> bool {
        exists|mid: GridView, stuck: Seq<(usize, usize)>|
            #![trigger self.falls_to(y, self.width, mid, stuck)]
            self.falls_to(y, self.width, mid, stuck) && mid.flows_to(stuck, stuck.len(), after)
    }

    /// One row of the pass: with `m` rows below it done, the next row
    /// upwards may lead from this grid to `after`.
    pub open spec fn row_step(self, m: nat, after: GridView) -> bool {
        self.row_moves_to(self.height - m - 1, after)
    }

    /// The lowest `n` rows, taken from the bottom row upwards, may lead from
    /// this grid to `after`.
    pub open spec fn rows_move_to(self, n: nat, after: GridView) -> bool
        decreases n,
    {
        if n == 0 {
            after == self
        } else {
            exists|m: nat, mid: GridView|
                #![trigger mid.row_step(m, after)]
                n == m + 1 && self.rows_move_to(m, mid) && mid.row_step(m, after)
        }
    }

    /// A movement pass may lead from this grid to `after`.
    pub open spec fn movement(self, after: GridView) -> bool {
        self.rows_move_to(self.height, after)
    }

    /// What `first_free` picks is one of the candidates, and gives way.
    pub proof fn lemma_first_free_gives_way(self, dot: Dot, candidates: Seq<(i128, i128)>)
        ensures
            self.first_free(dot, candidates) matches Some(to) ==> self.gives_way(to, dot)
                && candidates.contains(to),
        decreases candidates.len(),
    {
        if candidates.len() > 0 {
            if !self.gives_way(candidates.first(), dot) {
                let rest = candidates.drop_first();
                self.lemma_first_free_gives_way(dot, rest);
                match self.first_free(dot, rest) {
                    Some(to) => {
                        let i = choose|i: int| 0 <= i < rest.len() && rest[i] == to;
                        assert(candidates[i + 1] == to);
                    },
                    None => {},
                }
            } else {
                assert(candidates[0] == candidates.first());
            }
        }
    }

    /// Where the first candidate gives way, it is taken.
    pub proof fn lemma_first_gives_way(self, dot: Dot, candidates: Seq<(i128, i128)>)
        requires
            candidates.len() > 0,
            self.gives_way(candidates[0], dot),
        ensures
            self.first_free(dot, candidates) == Some(candidates[0]),
    {
    }

    /// Where no candidate gives way, none is taken.
    pub proof fn lemma_none_gives_way(self, dot: Dot, candidates: Seq<(i128, i128)>)
        requires
            forall|i: int| 0 <= i < candidates.len() ==> !self.gives_way(#[trigger] candidates[i], dot),
        ensures
            self.first_free(dot, candidates) is None,
        decreases candidates.len(),
    {
        if candidates.len() > 0 {
            let rest = candidates.drop_first();
            assert(!self.gives_way(candidates[0], dot));
            assert forall|i: int| 0 <= i < rest.len() implies !self.gives_way(
                #[trigger] rest[i],
                dot,
            ) by {
                assert(rest[i] == candidates[i + 1]);
            }
            self.lemma_none_gives_way(dot, rest);
        }
    }

    /// A cell that falls or flows only changes places with a cell that gives
    /// way to it.
    pub proof fn lemma_advance_rearranges(self, x: int, y: int, candidates: Seq<(i128, i128)>)
        requires
            self.wf(),
            self.in_bounds(x, y),
            self.at(x, y).fallable(),
        ensures
            self.rearranged_to(self.advance(x, y, candidates)),
    {
        self.lemma_first_free_gives_way(self.at(x, y), candidates);
        match self.first_free(self.at(x, y), candidates) {
            Some(to) => {
                self.lemma_swap_rearranges(x, y, to.0 as int, to.1 as int);
            },
            None => {
                self.lemma_rearranged_same();
            },
        }
    }

    /// The recorded positions lie in the grid, no two of them are the same,
    /// and from the `from`-th on each holds Water.
    pub open spec fn waiting(self, stuck: Seq<(usize, usize)>, from: int) -> bool {
        &&& forall|k: int|
            0 <= k < stuck.len() ==> self.in_bounds(
                (#[trigger] stuck[k]).0 as int,
                stuck[k].1 as int,
            )
        &&& forall|j: int, k: int| 0 <= j < k < stuck.len() ==> stuck[j] != stuck[k]
        &&& forall|k: int|
            from <= k < stuck.len() ==> self.at(
                (#[trigger] stuck[k]).0 as int,
                stuck[k].1 as int,
            ) is Water
    }

    /// The falling phase of a row rearranges the grid. What it records are
    /// cells of that row, from left to right, and each still holds the Water
    /// that was stuck there.
    pub proof fn lemma_falls_rearranges(
        self,
        y: int,
        n: nat,
        after: GridView,
        stuck: Seq<(usize, usize)>,
    )
        requires
            self.wf(),
            0 <= y < self.height,
            n <= self.width,
            self.falls_to(y, n, after, stuck),
        ensures
            self.rearranged_to(after),
            after.waiting(stuck, 0),
            forall|k: int| 0 <= k < stuck.len() ==> (#[trigger] stuck[k]).0 < n && stuck[k].1 == y,
        decreases n,
    {
        if n == 0 {
            self.lemma_rearranged_same();
        } else {
            let (m, mid, before, left_first) = choose|
                m: nat,
                mid: GridView,
                before: Seq<(usize, usize)>,
                left_first: bool,
            |
                #![trigger mid.fall_step(m as int, y, before, left_first, after, stuck)]
                n == m + 1 && self.falls_to(y, m, mid, before) && mid.fall_step(
                    m as int,
                    y,
                    before,
                    left_first,
                    after,
                    stuck,
                );
            self.lemma_falls_rearranges(y, m, mid, before);
            let dot = mid.at(m as int, y);
            let candidates = fall_candidates(m as int, y, left_first);
            mid.lemma_first_free_gives_way(dot, candidates);
            if dot.fallable() {
                mid.lemma_advance_rearranges(m as int, y, candidates);
            } else {
                mid.lemma_rearranged_same();
            }
            self.lemma_rearranged_twice(mid, after);
            assert forall|k: int| 0 <= k < before.len() implies after.at(
                (#[trigger] before[k]).0 as int,
                before[k].1 as int,
            ) is Water by {
                if dot.fallable() {
                    match mid.first_free(dot, candidates) {
                        Some(to) => {
                            let i = choose|i: int| 0 <= i < candidates.len() && candidates[i] == to;
                            assert(to.1 == y + 1);
                            mid.lemma_swap_at(
                                m as int,
                                y,
                                to.0 as int,
                                to.1 as int,
                                before[k].0 as int,
                                before[k].1 as int,
                            );
                        },
                        None => {},
                    }
                }
            }
        }
    }

    /// The flowing phase rearranges the grid, where the recorded cells hold
    /// Water: a cell that flows leaves the others that wait where they are.
    pub proof fn lemma_flows_rearranges(self, stuck: Seq<(usize, usize)>, n: nat, after: GridView)
        requires
            self.wf(),
            n <= stuck.len(),
            self.waiting(stuck, 0),
            self.flows_to(stuck, n, after),
        ensures
            self.rearranged_to(after),
            after.waiting(stuck, n as int),
        decreases n,
    {
        if n == 0 {
            self.lemma_rearranged_same();
        } else {
            let (m, mid, left_first) = choose|m: nat, mid: GridView, left_first: bool|
                #![trigger mid.flow_step(stuck, m, left_first, after)]
                n == m + 1 && self.flows_to(stuck, m, mid) && mid.flow_step(
                    stuck,
                    m,
                    left_first,
                    after,
                );
            self.lemma_flows_rearranges(stuck, m, mid);
            let x = stuck[m as int].0 as int;
            let y = stuck[m as int].1 as int;
            let dot = mid.at(x, y);
            let candidates = flow_candidates(x, y, left_first);
            mid.lemma_first_free_gives_way(dot, candidates);
            mid.lemma_advance_rearranges(x, y, candidates);
            self.lemma_rearranged_twice(mid, after);
            assert forall|k: int| n <= k < stuck.len() implies after.at(
                (#[trigger] stuck[k]).0 as int,
                stuck[k].1 as int,
            ) is Water by {
                assert(stuck[m as int] != stuck[k]);
                match mid.first_free(dot, candidates) {
                    Some(to) => {
                        mid.lemma_swap_at(
                            x,
                            y,
                            to.0 as int,
                            to.1 as int,
                            stuck[k].0 as int,
                            stuck[k].1 as int,
                        );
                    },
                    None => {},
                }
            }
        }
    }

    /// The movement of a row rearranges the grid.
    pub proof fn lemma_row_rearranges(self, y: int, after: GridView)
        requires
            self.wf(),
            0 <= y < self.height,
            self.row_moves_to(y, after),
        ensures
            self.rearranged_to(after),
    {
        let (mid, stuck) = choose|mid: GridView, stuck: Seq<(usize, usize)>|
            #![trigger self.falls_to(y, self.width, mid, stuck)]
            self.falls_to(y, self.width, mid, stuck) && mid.flows_to(stuck, stuck.len(), after);
        self.lemma_falls_rearranges(y, self.width, mid, stuck);
        mid.lemma_flows_rearranges(stuck, stuck.len(), after);
        self.lemma_rearranged_twice(mid, after);
    }

    /// The movement of any number of rows rearranges the grid.
    pub proof fn lemma_rows_rearrange(self, n: nat, after: GridView)
        requires
            self.wf(),
            n <= self.height,
            self.rows_move_to(n, after),
        ensures
            self.rearranged_to(after),
        decreases n,
    {
        if n == 0 {
            self.lemma_rearranged_same();
        } else {
            let (m, mid) = choose|m: nat, mid: GridView|
                #![trigger mid.row_step(m, after)]
                n == m + 1 && self.rows_move_to(m, mid) && mid.row_step(m, after);
            self.lemma_rows_rearrange(m, mid);
            mid.lemma_row_rearranges(mid.height - m - 1, after);
            self.lemma_rearranged_twice(mid, after);
        }
    }

    /// Conservation and immovability: a movement pass leaves the grid with
    /// the same cells, so with the same materials as often as before, and
    /// with every Iron cell where it was.
    pub proof fn lemma_movement_rearranges(self, after: GridView)
        requires
            self.wf(),
            self.movement(after),
        ensures
            self.rearranged_to(after),
    {
        self.lemma_rows_rearrange(self.height, after);
    }

    /// The falling phase goes on by one cell.
    pub proof fn lemma_falls_on(
        self,
        y: int,
        n: nat,
        mid: GridView,
        before: Seq<(usize, usize)>,
        left_first: bool,
        after: GridView,
        stuck: Seq<(usize, usize)>,
    )
        requires
            self.falls_to(y, n, mid, before),
            mid.fall_step(n as int, y, before, left_first, after, stuck),
        ensures
            self.falls_to(y, n + 1, after, stuck),
    {
    }

    /// The flowing phase goes on by one recorded position.
    pub proof fn lemma_flows_on(
        self,
        stuck: Seq<(usize, usize)>,
        n: nat,
        mid: GridView,
        left_first: bool,
    )
        requires
            self.flows_to(stuck, n, mid),
        ensures
            self.flows_to(
                stuck,
                n + 1,
                mid.flow(stuck[n as int].0 as int, stuck[n as int].1 as int, left_first),
            ),
    {
        let after = mid.flow(stuck[n as int].0 as int, stuck[n as int].1 as int, left_first);
        assert(mid.flow_step(stuck, n, left_first, after));
    }

    /// The pass goes on by one row.
    pub proof fn lemma_rows_move_on(self, n: nat, mid: GridView, after: GridView)
        requires
            self.rows_move_to(n, mid),
            mid.height == self.height,
            mid.row_moves_to(self.height - n - 1, after),
        ensures
            self.rows_move_to(n + 1, after),
    {
        assert(mid.row_step(n, after));
    }
}

impl Grid {
    /// The three places to which the cell at `pos` tries to fall, in the
    /// order in which it tries them, whether the grid has them or not.
    pub fn fall_candidates(pos: (usize, usize), left_first: bool) -> (candidates: Vec<
        (i128, i128),
    >)
        ensures
            candidates@ == fall_candidates(pos.0 as int, pos.1 as int, left_first),
    {
        let x = pos.0 as i128;
        let y = pos.1 as i128;
        let candidates = if left_first {
            vec![(x, y + 1), (x - 1, y + 1), (x + 1, y + 1)]
        } else {
            vec![(x, y + 1), (x + 1, y + 1), (x - 1, y + 1)]
        };
        assert(candidates@ =~= fall_candidates(pos.0 as int, pos.1 as int, left_first));
        candidates
    }

    /// The two places to which the cell at `pos` tries to flow, in the order
    /// in which it tries them, whether the grid has them or not.
    pub fn flow_candidates(pos: (usize, usize), left_first: bool) -> (candidates: Vec<
        (i128, i128),
    >)
        ensures
            candidates@ == flow_candidates(pos.0 as int, pos.1 as int, left_first),
    {
        let x = pos.0 as i128;
        let y = pos.1 as i128;
        let candidates = if left_first {
            vec![(x - 1, y), (x + 1, y)]
        } else {
            vec![(x + 1, y), (x - 1, y)]
        };
        assert(candidates@ =~= flow_candidates(pos.0 as int, pos.1 as int, left_first));
        candidates
    }

    /// Moves the cell at `pos` to the first candidate that gives way to it,
    /// which takes its place. A candidate with a negative coordinate, or one
    /// beyond the grid, is passed over.
    pub fn try_move(&mut self, pos: (usize, usize), candidates: &Vec<(i128, i128)>) -> (moved:
        bool)
        requires
            old(self)@.in_bounds(pos.0 as int, pos.1 as int),
        ensures
            final(self)@ == old(self)@.advance(pos.0 as int, pos.1 as int, candidates@),
            moved == old(self)@.first_free(
                old(self)@.at(pos.0 as int, pos.1 as int),
                candidates@,
            ).is_some(),
    {
        let dot = self.get(pos);
        let mut i: usize = 0;
        assert(candidates@.skip(0) =~= candidates@);
        while i < candidates.len()
            invariant
                i <= candidates@.len(),
                self@ == old(self)@,
                dot == self@.at(pos.0 as int, pos.1 as int),
                self@.in_bounds(pos.0 as int, pos.1 as int),
                self@.first_free(dot, candidates@) == self@.first_free(
                    dot,
                    candidates@.skip(i as int),
                ),
            decreases candidates@.len() - i,
        {
            let candidate = candidates[i];
            proof {
                self.lemma_wf();
                assert(candidates@.skip(i as int).first() == candidate);
                assert(candidates@.skip(i as int).drop_first() =~= candidates@.skip(i + 1));
            }
            match self.place(candidate) {
                Some(to) => {
                    let there = self.get(to);
                    if there.is_displaceable_by(&dot) {
                        self.set(pos, there);
                        self.set(to, dot);
                        return true;
                    }
                },
                None => {},
            }
            i += 1;
        }
        false
    }
}

} // verus!
