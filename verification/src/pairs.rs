//! What a diffusion pass does to a grid in which at most two cells are Salt
//! or Water: the two meet, and nothing else happens.

use crate::diffusion::{average, stencil};
use crate::dot::Dot;
use crate::grid::GridView;
use vstd::prelude::*;

verus! {

impl GridView {
    /// Every cell but those at `a` and `b` is neither Salt nor Water, and so
    /// takes no part in diffusion.
    pub open spec fn quiet_but(self, a: (usize, usize), b: (usize, usize)) -> bool {
        forall|x: int, y: int|
            #![trigger self.at(x, y)]
            self.in_bounds(x, y) && (x != a.0 || y != a.1) && (x != b.0 || y != b.1) ==> !(self.at(
                x,
                y,
            ) is Salt) && !(self.at(x, y) is Water)
    }

    /// Whether one of the offsets leads from `(x, y)` to `p`.
    pub open spec fn reaches(self, x: int, y: int, offsets: Seq<(i8, i8)>, p: (usize, usize)) -> bool {
        exists|k: int|
            0 <= k < offsets.len() && self.neighbor(x, y, #[trigger] offsets[k]) == Some(p)
    }

    /// Whether `b` is one of the neighbours with which `a` exchanges.
    pub open spec fn adjacent(self, a: (usize, usize), b: (usize, usize)) -> bool {
        self.reaches(a.0 as int, a.1 as int, stencil(), b)
    }

    /// The grid after the cell at `a` has met the cell at `b`, if that is
    /// one of its neighbours.
    pub open spec fn met(self, a: (usize, usize), b: (usize, usize)) -> GridView {
        if self.adjacent(a, b) {
            self.exchange(self.at(a.0 as int, a.1 as int), a.0 as int, a.1 as int, b)
        } else {
            self
        }
    }

    /// How many dissolve events there are when the cell at `a` meets the
    /// cell at `b`, if that is one of its neighbours: one if Salt dissolves.
    pub open spec fn met_events(self, a: (usize, usize), b: (usize, usize)) -> nat {
        if self.adjacent(a, b) && self.dissolves(
            self.at(a.0 as int, a.1 as int),
            a.0 as int,
            a.1 as int,
            b,
        ) {
            1
        } else {
            0
        }
    }

    /// Offsets without repetition reach every position at most once.
    pub proof fn lemma_reached_once(
        self,
        x: int,
        y: int,
        offsets: Seq<(i8, i8)>,
        p: (usize, usize),
    )
        requires
            self.wf(),
            self.in_bounds(x, y),
            offsets.no_duplicates(),
        ensures
            self.neighbors_along(x, y, offsets).to_multiset().count(p) == if self.reaches(
                x,
                y,
                offsets,
                p,
            ) {
                1nat
            } else {
                0nat
            },
        decreases offsets.len(),
    {
        broadcast use vstd::seq_lib::group_to_multiset_ensures;

        if offsets.len() == 0 {
            assert(self.neighbors_along(x, y, offsets).to_multiset().count(p) == 0);
        } else {
            let init = offsets.drop_last();
            let last = offsets.last();
            self.lemma_reached_once(x, y, init, p);
            if self.reaches(x, y, init, p) {
                let k = choose|k: int|
                    0 <= k < init.len() && self.neighbor(x, y, #[trigger] init[k]) == Some(p);
                assert(offsets[k] == init[k]);
                assert(self.neighbor(x, y, offsets[k]) == Some(p));
                if self.neighbor(x, y, last) == Some(p) {
                    assert(offsets[offsets.len() - 1] == last);
                    assert(offsets[k] == last);
                    assert(false);
                }
            } else {
                if self.reaches(x, y, offsets, p) {
                    let k = choose|k: int|
                        0 <= k < offsets.len() && self.neighbor(x, y, #[trigger] offsets[k]) == Some(
                            p,
                        );
                    if k < init.len() {
                        assert(init[k] == offsets[k]);
                        assert(false);
                    }
                    assert(self.neighbor(x, y, last) == Some(p));
                } else {
                    assert(offsets[offsets.len() - 1] == last);
                    assert(self.neighbor(x, y, last) != Some(p));
                }
            }
        }
    }

    /// A meeting changes no cell but the two that meet, and not the size of
    /// the grid.
    pub proof fn lemma_exchange_elsewhere(
        self,
        dot: Dot,
        x: int,
        y: int,
        n: (usize, usize),
        px: int,
        py: int,
    )
        requires
            self.wf(),
            self.in_bounds(x, y),
            self.in_bounds(px, py),
            px != x || py != y,
            px != n.0 || py != n.1,
        ensures
            self.exchange(dot, x, y, n).at(px, py) == self.at(px, py),
            self.exchange(dot, x, y, n).width == self.width,
            self.exchange(dot, x, y, n).height == self.height,
            self.exchange(dot, x, y, n).wf(),
    {
        self.lemma_index_in_range(x, y);
        self.lemma_index_in_range(px, py);
        if self.index(px, py) == self.index(x, y) {
            self.lemma_index_injective(px, py, x, y);
        }
        if self.in_bounds(n.0 as int, n.1 as int) {
            self.lemma_index_in_range(n.0 as int, n.1 as int);
            if self.index(px, py) == self.index(n.0 as int, n.1 as int) {
                self.lemma_index_injective(px, py, n.0 as int, n.1 as int);
            }
        }
    }

    /// A meeting of the cells at `a` and `b` leaves all other cells quiet.
    pub proof fn lemma_met_quiet(self, a: (usize, usize), b: (usize, usize))
        requires
            self.wf(),
            self.in_bounds(a.0 as int, a.1 as int),
            self.quiet_but(a, b),
        ensures
            self.met(a, b).wf(),
            self.met(a, b).width == self.width,
            self.met(a, b).height == self.height,
            self.met(a, b).quiet_but(a, b),
    {
        let after = self.met(a, b);
        let dot = self.at(a.0 as int, a.1 as int);
        assert forall|x: int, y: int|
            after.in_bounds(x, y) && (x != a.0 || y != a.1) && (x != b.0 || y != b.1) implies !(
            #[trigger] after.at(x, y) is Salt) && !(after.at(x, y) is Water) by {
            self.lemma_exchange_elsewhere(dot, a.0 as int, a.1 as int, b, x, y);
            assert(!(self.at(x, y) is Salt));
        }
        self.lemma_index_in_range(a.0 as int, a.1 as int);
        if self.in_bounds(b.0 as int, b.1 as int) {
            self.lemma_index_in_range(b.0 as int, b.1 as int);
        }
    }

    /// The turn of a cell that is neither Salt nor Water changes nothing.
    pub proof fn lemma_inert_turn(self, x: int, y: int, order: Seq<(usize, usize)>)
        requires
            !(self.at(x, y) is Salt),
            !(self.at(x, y) is Water),
        ensures
            self.diffuse(x, y, order) == self,
            self.dissolve_events(x, y, order) == 0,
        decreases order.len(),
    {
        if order.len() > 0 {
            self.lemma_inert_turn(x, y, order.drop_last());
        }
    }

    /// The turn of the cell at `a`, where no cell but those at `a` and `b`
    /// is Salt or Water, and the order holds `b` at most once and `a` not at
    /// all: the cell meets `b` if the order holds it, and nothing else
    /// happens.
    proof fn lemma_turn_of_pair(
        self,
        a: (usize, usize),
        b: (usize, usize),
        order: Seq<(usize, usize)>,
    )
        requires
            self.wf(),
            self.in_bounds(a.0 as int, a.1 as int),
            a != b,
            self.quiet_but(a, b),
            order.to_multiset().count(b) <= 1,
            order.to_multiset().count(a) == 0,
        ensures
            self.diffuse(a.0 as int, a.1 as int, order) == if order.to_multiset().count(b) == 1 {
                self.exchange(self.at(a.0 as int, a.1 as int), a.0 as int, a.1 as int, b)
            } else {
                self
            },
            self.dissolve_events(a.0 as int, a.1 as int, order) == if order.to_multiset().count(b)
                == 1 && self.dissolves(
                self.at(a.0 as int, a.1 as int),
                a.0 as int,
                a.1 as int,
                b,
            ) {
                1nat
            } else {
                0nat
            },
        decreases order.len(),
    {
        broadcast use vstd::seq_lib::group_to_multiset_ensures;

        let x = a.0 as int;
        let y = a.1 as int;
        let dot = self.at(x, y);
        if order.len() > 0 {
            let init = order.drop_last();
            let last = order.last();
            assert(order =~= init.push(last));
            assert(order.to_multiset() =~= init.to_multiset().insert(last));
            self.lemma_turn_of_pair(a, b, init);
            let mid = self.exchange_all(dot, x, y, init);
            if last != b {
                assert(last != a);
                if self.in_bounds(last.0 as int, last.1 as int) {
                    self.lemma_exchange_elsewhere(dot, x, y, b, last.0 as int, last.1 as int);
                    assert(!(self.at(last.0 as int, last.1 as int) is Water));
                    assert(!(mid.at(last.0 as int, last.1 as int) is Water));
                }
                if self.in_bounds(b.0 as int, b.1 as int) {
                    self.lemma_index_in_range(b.0 as int, b.1 as int);
                }
                self.lemma_index_in_range(x, y);
                assert(mid.exchange(dot, x, y, last) == mid);
                assert(!mid.dissolves(dot, x, y, last));
            }
        }
    }

    /// The turn of the cell at `a`, where no cell but those at `a` and `b`
    /// is Salt or Water: whatever the order in which it meets its
    /// neighbours, it meets `b` if that is one of them, and nothing else
    /// happens.
    pub proof fn lemma_pair_turn(
        self,
        a: (usize, usize),
        b: (usize, usize),
        order: Seq<(usize, usize)>,
        before: nat,
        after: GridView,
        events: nat,
    )
        requires
            self.wf(),
            self.in_bounds(a.0 as int, a.1 as int),
            a != b,
            self.quiet_but(a, b),
            self.diffuse_step(a.0 as int, a.1 as int, order, before, after, events),
        ensures
            after == self.met(a, b),
            events == before + self.met_events(a, b),
    {
        let x = a.0 as int;
        let y = a.1 as int;
        lemma_stencil();
        self.lemma_reached_once(x, y, stencil(), b);
        self.lemma_reached_once(x, y, stencil(), a);
        if self.reaches(x, y, stencil(), a) {
            let k = choose|k: int|
                0 <= k < stencil().len() && self.neighbor(x, y, #[trigger] stencil()[k]) == Some(a);
            assert(false);
        }
        self.lemma_turn_of_pair(a, b, order);
    }

    /// The grid at the point of a pass where the rows above `row` and the
    /// first `n` cells of `row` have had their turns, where no cell but
    /// those at `a` and `b` is Salt or Water and `a` comes first.
    pub open spec fn pair_stage(
        self,
        a: (usize, usize),
        b: (usize, usize),
        row: int,
        n: int,
    ) -> GridView {
        if turned(b, row, n) {
            self.met(a, b).met(b, a)
        } else if turned(a, row, n) {
            self.met(a, b)
        } else {
            self
        }
    }

    /// The dissolve events up to the point of a pass where the rows above
    /// `row` and the first `n` cells of `row` have had their turns, where no
    /// cell but those at `a` and `b` is Salt or Water and `a` comes first.
    pub open spec fn pair_events(
        self,
        a: (usize, usize),
        b: (usize, usize),
        row: int,
        n: int,
    ) -> nat {
        if turned(b, row, n) {
            self.met_events(a, b) + self.met(a, b).met_events(b, a)
        } else if turned(a, row, n) {
            self.met_events(a, b)
        } else {
            0
        }
    }

    proof fn lemma_pair_row(
        self,
        a: (usize, usize),
        b: (usize, usize),
        row: int,
        n: nat,
        start: GridView,
        after: GridView,
        events: nat,
    )
        requires
            self.wf(),
            self.in_bounds(a.0 as int, a.1 as int),
            self.in_bounds(b.0 as int, b.1 as int),
            comes_before(a, b),
            self.quiet_but(a, b),
            0 <= row < self.height,
            n <= self.width,
            start == self.pair_stage(a, b, row, 0),
            start.row_diffuses_to(row, n, after, events),
        ensures
            after == self.pair_stage(a, b, row, n as int),
            self.pair_events(a, b, row, 0) + events == self.pair_events(a, b, row, n as int),
        decreases n,
    {
        if n > 0 {
            let (m, mid, order, before) = choose|
                m: nat,
                mid: GridView,
                order: Seq<(usize, usize)>,
                before: nat,
            |
                #![trigger mid.diffuse_step(m as int, row, order, before, after, events)]
                n == m + 1 && start.row_diffuses_to(row, m, mid, before) && mid.diffuse_step(
                    m as int,
                    row,
                    order,
                    before,
                    after,
                    events,
                );
            self.lemma_pair_row(a, b, row, m, start, mid, before);
            let first = self.met(a, b);
            let second = first.met(b, a);
            self.lemma_met_quiet(a, b);
            assert(first.quiet_but(b, a));
            first.lemma_met_quiet(b, a);
            assert(second.quiet_but(a, b));
            if m == a.0 && row == a.1 {
                self.lemma_pair_turn(a, b, order, before, after, events);
            } else if m == b.0 && row == b.1 {
                first.lemma_pair_turn(b, a, order, before, after, events);
            } else {
                assert(mid.in_bounds(m as int, row));
                assert(!(mid.at(m as int, row) is Salt) && !(mid.at(m as int, row) is Water));
                mid.lemma_inert_turn(m as int, row, order);
            }
        }
    }

    proof fn lemma_pair_rows(
        self,
        a: (usize, usize),
        b: (usize, usize),
        n: nat,
        after: GridView,
        events: nat,
    )
        requires
            self.wf(),
            self.in_bounds(a.0 as int, a.1 as int),
            self.in_bounds(b.0 as int, b.1 as int),
            comes_before(a, b),
            self.quiet_but(a, b),
            n <= self.height,
            self.rows_diffuse_to(n, after, events),
        ensures
            after == self.pair_stage(a, b, n as int, 0),
            events == self.pair_events(a, b, n as int, 0),
        decreases n,
    {
        if n > 0 {
            let (m, mid, before) = choose|m: nat, mid: GridView, before: nat|
                #![trigger mid.diffuse_row_step(m, before, after, events)]
                n == m + 1 && self.rows_diffuse_to(m, mid, before) && mid.diffuse_row_step(
                    m,
                    before,
                    after,
                    events,
                );
            self.lemma_pair_rows(a, b, m, mid, before);
            self.lemma_met_quiet(a, b);
            assert(self.met(a, b).quiet_but(b, a));
            self.met(a, b).lemma_met_quiet(b, a);
            self.lemma_pair_row(
                a,
                b,
                m as int,
                self.width,
                mid,
                after,
                (events - before) as nat,
            );
        }
    }

    /// In a grid where no cell but those at `a` and `b` is Salt or Water, a
    /// diffusion pass comes to this: the cell whose turn is first meets the
    /// other, then the other meets it, each if the other is one of its
    /// neighbours. The random order in which neighbours are met makes no
    /// difference, and the dissolve events of the pass are those of the two
    /// meetings.
    pub proof fn lemma_pair_diffusion(
        self,
        a: (usize, usize),
        b: (usize, usize),
        after: GridView,
        events: nat,
    )
        requires
            self.wf(),
            self.in_bounds(a.0 as int, a.1 as int),
            self.in_bounds(b.0 as int, b.1 as int),
            comes_before(a, b),
            self.quiet_but(a, b),
            self.diffusion(after, events),
        ensures
            after == self.met(a, b).met(b, a),
            events == self.met_events(a, b) + self.met(a, b).met_events(b, a),
    {
        self.lemma_pair_rows(a, b, self.height, after, events);
    }

    /// Dissolve bound: where a Salt cell has a Water cell of salinity `s`
    /// among its neighbours, and no other cell is Salt or Water, one
    /// diffusion pass has one dissolve event and leaves the Water at exactly
    /// `s + 100` and Empty in the place of the Salt if `s <= 100`, and has no
    /// event and changes nothing if `s > 100`.
    pub proof fn lemma_salt_beside_water(
        self,
        salt: (usize, usize),
        water: (usize, usize),
        after: GridView,
        events: nat,
    )
        requires
            self.wf(),
            self.in_bounds(salt.0 as int, salt.1 as int),
            self.in_bounds(water.0 as int, water.1 as int),
            self.at(salt.0 as int, salt.1 as int) is Salt,
            self.at(water.0 as int, water.1 as int) is Water,
            self.adjacent(salt, water),
            self.quiet_but(salt, water),
            self.diffusion(after, events),
        ensures
            ({
                let was = self.at(water.0 as int, water.1 as int);
                if was.salt_content() <= 100 {
                    events == 1 && after == self.put(
                        water.0 as int,
                        water.1 as int,
                        Dot::Water {
                            temp: was.temperature(),
                            salinity: (was.salt_content() + 100) as u16,
                        },
                    ).put(
                        salt.0 as int,
                        salt.1 as int,
                        Dot::Empty { temp: self.at(salt.0 as int, salt.1 as int).temperature() },
                    )
                } else {
                    events == 0 && after == self
                }
            }),
    {
        let dissolved = self.met(salt, water);
        self.lemma_dissolve_bound(salt.0 as int, salt.1 as int, water);
        assert(self.quiet_but(water, salt));
        if comes_before(salt, water) {
            self.lemma_pair_diffusion(salt, water, after, events);
            assert(dissolved.met(water, salt) == dissolved);
        } else {
            self.lemma_pair_diffusion(water, salt, after, events);
            assert(self.met(water, salt) == self);
        }
    }

    /// Levelling: where a Water cell has another among its neighbours, and
    /// no other cell is Salt or Water, one diffusion pass leaves both at the
    /// mean of their salinities, unless that mean is 0, and then it changes
    /// nothing. Two cells that are level stay as they are.
    pub proof fn lemma_water_beside_water(
        self,
        a: (usize, usize),
        b: (usize, usize),
        after: GridView,
        events: nat,
    )
        requires
            self.wf(),
            self.in_bounds(a.0 as int, a.1 as int),
            self.in_bounds(b.0 as int, b.1 as int),
            a != b,
            self.at(a.0 as int, a.1 as int) is Water,
            self.at(b.0 as int, b.1 as int) is Water,
            self.adjacent(a, b),
            self.quiet_but(a, b),
            self.diffusion(after, events),
        ensures
            ({
                let here = self.at(a.0 as int, a.1 as int);
                let there = self.at(b.0 as int, b.1 as int);
                let mean = average(here.salt_content(), there.salt_content());
                &&& events == 0
                &&& mean != 0 ==> after == self.put(
                    a.0 as int,
                    a.1 as int,
                    Dot::Water { temp: here.temperature(), salinity: mean },
                ).put(b.0 as int, b.1 as int, Dot::Water { temp: there.temperature(), salinity: mean })
                &&& mean == 0 ==> after == self
                &&& here.salt_content() == there.salt_content() ==> after == self
            }),
    {
        let here = self.at(a.0 as int, a.1 as int);
        let there = self.at(b.0 as int, b.1 as int);
        let mean = average(here.salt_content(), there.salt_content());
        let level = self.put(
            a.0 as int,
            a.1 as int,
            Dot::Water { temp: here.temperature(), salinity: mean },
        ).put(b.0 as int, b.1 as int, Dot::Water { temp: there.temperature(), salinity: mean });
        self.lemma_index_in_range(a.0 as int, a.1 as int);
        self.lemma_index_in_range(b.0 as int, b.1 as int);
        if self.index(a.0 as int, a.1 as int) == self.index(b.0 as int, b.1 as int) {
            self.lemma_index_injective(a.0 as int, a.1 as int, b.0 as int, b.1 as int);
        }
        assert(level.wf());
        assert(level.at(a.0 as int, a.1 as int) == (Dot::Water {
            temp: here.temperature(),
            salinity: mean,
        }));
        assert(level.at(b.0 as int, b.1 as int) == (Dot::Water {
            temp: there.temperature(),
            salinity: mean,
        }));
        assert(self.quiet_but(b, a));
        if mean != 0 {
            assert(self.exchange(here, a.0 as int, a.1 as int, b).cells =~= level.cells);
            assert(self.exchange(there, b.0 as int, b.1 as int, a).cells =~= level.cells);
            level.lemma_levelling(a.0 as int, a.1 as int, b);
            level.lemma_levelling(b.0 as int, b.1 as int, a);
            if here.salt_content() == there.salt_content() {
                assert(level.cells =~= self.cells);
            }
        }
        if comes_before(a, b) {
            self.lemma_pair_diffusion(a, b, after, events);
        } else {
            self.lemma_pair_diffusion(b, a, after, events);
        }
    }
}

/// Whether the cell at `p` has had its turn once the rows above `row` and
/// the first `n` cells of `row` have had theirs.
pub open spec fn turned(p: (usize, usize), row: int, n: int) -> bool {
    p.1 < row || (p.1 == row && p.0 < n)
}

/// Whether the turn of the cell at `a` comes before that of the cell at `b`:
/// rows from the top, each from the left.
pub open spec fn comes_before(a: (usize, usize), b: (usize, usize)) -> bool {
    a.1 < b.1 || (a.1 == b.1 && a.0 < b.0)
}

/// The stencil names no offset twice, and not the cell itself.
pub proof fn lemma_stencil()
    ensures
        stencil().no_duplicates(),
        stencil().len() == 6,
        forall|k: int| 0 <= k < 6 ==> #[trigger] stencil()[k] != (0i8, 0i8),
{
}

} // verus!
