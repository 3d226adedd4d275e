//! The rules of the diffusion pass: Salt dissolves into Water, and
//! neighbouring Water cells level their salinity. A Salt cell dissolves once
//! and is then used up; each such dissolve event costs one Salt cell.

use crate::dot::{Dot, Material};
use crate::grid::{kinds, Grid, GridView};
use vstd::prelude::*;

verus! {

/// The neighbours with which a cell exchanges: below, below right, right,
/// above, above left, left. The two other diagonals take no part.
pub open spec fn stencil() -> Seq<(i8, i8)> {
    seq![(0i8, 1i8), (1i8, 1i8), (1i8, 0i8), (0i8, -1i8), (-1i8, -1i8), (-1i8, 0i8)]
}

/// The mean of two salinities, rounded down.
pub open spec fn average(a: u16, b: u16) -> u16 {
    ((a + b) / 2) as u16
}

/// How many places hold Salt in `before` and Empty in `after`.
pub open spec fn dissolved(before: Seq<Dot>, after: Seq<Dot>) -> nat
    decreases before.len(),
{
    if before.len() == 0 || after.len() != before.len() {
        0
    } else {
        dissolved(before.drop_last(), after.drop_last()) + if before.last() is Salt
            && after.last() is Empty {
            1nat
        } else {
            0nat
        }
    }
}

/// Where every cell is what diffusion can make of the cell before it, the
/// materials are as many as before, but that each dissolved Salt counts as
/// Empty.
pub proof fn lemma_dissolved_counts(before: Seq<Dot>, after: Seq<Dot>)
    requires
        before.len() == after.len(),
        forall|i: int| 0 <= i < before.len() ==> (#[trigger] before[i]).diffuses_into(after[i]),
    ensures
        kinds(after).to_multiset().count(Material::Salt) + dissolved(before, after) == kinds(
            before,
        ).to_multiset().count(Material::Salt),
        kinds(after).to_multiset().count(Material::Empty) == kinds(before).to_multiset().count(
            Material::Empty,
        ) + dissolved(before, after),
        forall|m: Material|
            m != Material::Salt && m != Material::Empty ==> kinds(after).to_multiset().count(m)
                == kinds(before).to_multiset().count(m),
    decreases before.len(),
{
    broadcast use vstd::seq_lib::group_to_multiset_ensures;

    if before.len() == 0 {
        assert(kinds(after) =~= kinds(before));
    } else {
        let b = before.drop_last();
        let a = after.drop_last();
        assert forall|i: int| 0 <= i < b.len() implies (#[trigger] b[i]).diffuses_into(a[i]) by {
            assert(before[i].diffuses_into(after[i]));
        }
        lemma_dissolved_counts(b, a);
        assert(before.last().diffuses_into(after.last()));
        assert(kinds(before) =~= kinds(b).push(before.last().material()));
        assert(kinds(after) =~= kinds(a).push(after.last().material()));
    }
}

impl GridView {
    /// `after` is this grid with salinities changed and Salt dissolved:
    /// every place holds what diffusion can make of the cell it held.
    pub open spec fn diffused_to(self, after: GridView) -> bool {
        &&& after.width == self.width
        &&& after.height == self.height
        &&& after.wf()
        &&& forall|i: int|
            #![trigger self.cells[i]]
            #![trigger after.cells[i]]
            0 <= i < self.cells.len() ==> self.cells[i].diffuses_into(after.cells[i])
    }

    /// `after` has `events` Salt cells fewer than this grid and as many
    /// Empty cells more; every other material is as often there as before.
    pub open spec fn salt_lost(self, after: GridView, events: nat) -> bool {
        &&& after.materials().count(Material::Salt) + events == self.materials().count(
            Material::Salt,
        )
        &&& after.materials().count(Material::Empty) == self.materials().count(Material::Empty)
            + events
        &&& forall|m: Material|
            m != Material::Salt && m != Material::Empty ==> after.materials().count(m)
                == self.materials().count(m)
    }

    /// How many Salt cells of this grid are Empty in `after`.
    pub open spec fn salt_dissolved(self, after: GridView) -> nat {
        dissolved(self.cells, after.cells)
    }

    /// Diffusing twice is diffusing.
    pub proof fn lemma_diffused_twice(self, mid: GridView, after: GridView)
        requires
            self.wf(),
            self.diffused_to(mid),
            mid.diffused_to(after),
        ensures
            self.diffused_to(after),
    {
        assert forall|i: int| 0 <= i < self.cells.len() implies self.cells[i].diffuses_into(
            after.cells[i],
        ) by {
            assert(self.cells[i].diffuses_into(mid.cells[i]));
            assert(mid.cells[i].diffuses_into(after.cells[i]));
        }
    }

    /// A meeting of two cells changes the grid as diffusion may, leaves at
    /// `(x, y)` what diffusion can make of `dot`, and costs one Salt cell if
    /// it is a dissolve event, and none if it is not.
    pub proof fn lemma_exchange_diffuses(self, dot: Dot, x: int, y: int, n: (usize, usize))
        requires
            self.wf(),
            self.in_bounds(x, y),
            dot.diffuses_into(self.at(x, y)),
        ensures
            self.diffused_to(self.exchange(dot, x, y, n)),
            dot.diffuses_into(self.exchange(dot, x, y, n).at(x, y)),
            self.salt_lost(
                self.exchange(dot, x, y, n),
                if self.dissolves(dot, x, y, n) {
                    1nat
                } else {
                    0nat
                },
            ),
            self.exchange(dot, x, y, n).at(x, y) is Salt ==> self.at(x, y) is Salt
                && !self.dissolves(dot, x, y, n),
    {
        broadcast use vstd::seq_lib::group_to_multiset_ensures;
        broadcast use vstd::seq_lib::to_multiset_update;

        let after = self.exchange(dot, x, y, n);
        self.lemma_index_in_range(x, y);
        if self.in_bounds(n.0 as int, n.1 as int) {
            self.lemma_index_in_range(n.0 as int, n.1 as int);
        }
        assert forall|i: int| 0 <= i < self.cells.len() implies self.cells[i].diffuses_into(
            after.cells[i],
        ) by {}
        let was = kinds(self.cells);
        if self.dissolves(dot, x, y, n) {
            let i = self.index(x, y);
            assert(kinds(after.cells) =~= was.update(i, Material::Empty));
            assert(was[i] == Material::Salt);
            assert(was.contains(Material::Salt));
        } else {
            assert(kinds(after.cells) =~= was);
        }
    }

    /// Losing Salt twice is losing the sum.
    pub proof fn lemma_salt_lost_twice(
        self,
        mid: GridView,
        first: nat,
        after: GridView,
        second: nat,
    )
        requires
            self.salt_lost(mid, first),
            mid.salt_lost(after, second),
        ensures
            self.salt_lost(after, first + second),
    {
    }

    /// A turn changes the grid as diffusion may, and costs as many Salt
    /// cells as it has dissolve events: one at most.
    pub proof fn lemma_exchange_all_diffuses(
        self,
        dot: Dot,
        x: int,
        y: int,
        order: Seq<(usize, usize)>,
    )
        requires
            self.wf(),
            self.in_bounds(x, y),
            dot.diffuses_into(self.at(x, y)),
        ensures
            self.diffused_to(self.exchange_all(dot, x, y, order)),
            dot.diffuses_into(self.exchange_all(dot, x, y, order).at(x, y)),
            self.salt_lost(
                self.exchange_all(dot, x, y, order),
                self.exchange_events(dot, x, y, order),
            ),
            self.exchange_events(dot, x, y, order) <= 1,
            self.exchange_events(dot, x, y, order) == 1 ==> !(self.exchange_all(
                dot,
                x,
                y,
                order,
            ).at(x, y) is Salt),
        decreases order.len(),
    {
        if order.len() > 0 {
            let mid = self.exchange_all(dot, x, y, order.drop_last());
            let before = self.exchange_events(dot, x, y, order.drop_last());
            self.lemma_exchange_all_diffuses(dot, x, y, order.drop_last());
            mid.lemma_exchange_diffuses(dot, x, y, order.last());
            let after = mid.exchange(dot, x, y, order.last());
            self.lemma_diffused_twice(mid, after);
            self.lemma_salt_lost_twice(
                mid,
                before,
                after,
                if mid.dissolves(dot, x, y, order.last()) {
                    1nat
                } else {
                    0nat
                },
            );
        } else {
            assert(kinds(self.cells) =~= kinds(self.cells));
        }
    }

    /// The turns of a row change the grid as diffusion may, and cost as many
    /// Salt cells as they have dissolve events.
    pub proof fn lemma_row_diffuses(self, y: int, n: nat, after: GridView, events: nat)
        requires
            self.wf(),
            0 <= y < self.height,
            n <= self.width,
            self.row_diffuses_to(y, n, after, events),
        ensures
            self.diffused_to(after),
            self.salt_lost(after, events),
        decreases n,
    {
        if n > 0 {
            let (m, mid, order, before) = choose|
                m: nat,
                mid: GridView,
                order: Seq<(usize, usize)>,
                before: nat,
            |
                #![trigger mid.diffuse_step(m as int, y, order, before, after, events)]
                n == m + 1 && self.row_diffuses_to(y, m, mid, before) && mid.diffuse_step(
                    m as int,
                    y,
                    order,
                    before,
                    after,
                    events,
                );
            self.lemma_row_diffuses(y, m, mid, before);
            mid.lemma_exchange_all_diffuses(mid.at(m as int, y), m as int, y, order);
            self.lemma_diffused_twice(mid, after);
            self.lemma_salt_lost_twice(
                mid,
                before,
                after,
                mid.dissolve_events(m as int, y, order),
            );
        }
    }

    /// The turns of any number of rows change the grid as diffusion may, and
    /// cost as many Salt cells as they have dissolve events.
    pub proof fn lemma_rows_diffuse(self, n: nat, after: GridView, events: nat)
        requires
            self.wf(),
            n <= self.height,
            self.rows_diffuse_to(n, after, events),
        ensures
            self.diffused_to(after),
            self.salt_lost(after, events),
        decreases n,
    {
        if n > 0 {
            let (m, mid, before) = choose|m: nat, mid: GridView, before: nat|
                #![trigger mid.diffuse_row_step(m, before, after, events)]
                n == m + 1 && self.rows_diffuse_to(m, mid, before) && mid.diffuse_row_step(
                    m,
                    before,
                    after,
                    events,
                );
            self.lemma_rows_diffuse(m, mid, before);
            mid.lemma_row_diffuses(m as int, mid.width, after, (events - before) as nat);
            self.lemma_diffused_twice(mid, after);
            self.lemma_salt_lost_twice(mid, before, after, (events - before) as nat);
        }
    }

    /// Conservation in the diffusion pass. The pass moves nothing: every cell
    /// keeps its place, its temperature and its material, but that Salt may
    /// have become Empty, and every Iron cell is as it was. The Salt cells
    /// become fewer by exactly the number of dissolve events, and the Empty
    /// cells more by as many; all other materials are as often there as
    /// before. Each event uses up one Salt cell, so the events are as many as
    /// the places that held Salt and now hold Empty.
    pub proof fn lemma_diffusion_dissolves(self, after: GridView, events: nat)
        requires
            self.wf(),
            self.diffusion(after, events),
        ensures
            self.diffused_to(after),
            self.iron_stays(after),
            self.salt_lost(after, events),
            self.salt_dissolved(after) == events,
    {
        self.lemma_rows_diffuse(self.height, after, events);
        self.lemma_diffused_keeps_iron(after);
        lemma_dissolved_counts(self.cells, after.cells);
    }

    /// Diffusion leaves every Iron cell as it was.
    pub proof fn lemma_diffused_keeps_iron(self, after: GridView)
        requires
            self.wf(),
            self.diffused_to(after),
        ensures
            self.iron_stays(after),
    {
        assert forall|x: int, y: int|
            self.in_bounds(x, y) && (self.at(x, y) is Iron || after.at(x, y) is Iron)
                implies after.at(x, y) == self.at(x, y) by {
            self.lemma_index_in_range(x, y);
            assert(self.cells[self.index(x, y)].diffuses_into(after.cells[self.index(x, y)]));
        }
    }

    /// The neighbours of `(x, y)` in the order of the stencil.
    pub open spec fn neighbors(self, x: int, y: int) -> Seq<(usize, usize)> {
        self.neighbors_along(x, y, stencil())
    }

    /// Whether the cell at `(x, y)`, which held the Salt `dot` when its turn
    /// began, dissolves into the cell at `n`: the place still holds Salt, and
    /// the cell at `n` is Water with a salinity of at most 100.
    pub open spec fn dissolves(self, dot: Dot, x: int, y: int, n: (usize, usize)) -> bool {
        &&& dot is Salt
        &&& self.at(x, y) is Salt
        &&& self.in_bounds(n.0 as int, n.1 as int)
        &&& self.at(n.0 as int, n.1 as int) is Water
        &&& self.at(n.0 as int, n.1 as int).salt_content() <= 100
    }

    /// Whether the cell that held the Water `dot` when its turn began levels
    /// its salinity with the cell at `n`: that cell is Water, and the mean of
    /// its salinity and that of `dot` is not 0.
    pub open spec fn levels(self, dot: Dot, n: (usize, usize)) -> bool {
        &&& dot is Water
        &&& self.in_bounds(n.0 as int, n.1 as int)
        &&& self.at(n.0 as int, n.1 as int) is Water
        &&& average(dot.salt_content(), self.at(n.0 as int, n.1 as int).salt_content()) != 0
    }

    /// The grid after the cell at `(x, y)`, which held `dot` when its turn
    /// began, has met its neighbour `n`. Salt dissolves: the neighbour gains
    /// 100 of salinity and `(x, y)` becomes Empty, so that the Salt is used
    /// up and dissolves no further. Water levels: both cells get the mean of
    /// the neighbour's salinity and the salinity that `dot` had. Each cell
    /// keeps its temperature.
    pub open spec fn exchange(self, dot: Dot, x: int, y: int, n: (usize, usize)) -> GridView {
        let there = self.at(n.0 as int, n.1 as int);
        if self.dissolves(dot, x, y, n) {
            self.put(
                n.0 as int,
                n.1 as int,
                Dot::Water {
                    temp: there.temperature(),
                    salinity: (there.salt_content() + 100) as u16,
                },
            ).put(x, y, Dot::Empty { temp: dot.temperature() })
        } else if self.levels(dot, n) {
            let mean = average(dot.salt_content(), there.salt_content());
            self.put(
                n.0 as int,
                n.1 as int,
                Dot::Water { temp: there.temperature(), salinity: mean },
            ).put(x, y, Dot::Water { temp: dot.temperature(), salinity: mean })
        } else {
            self
        }
    }

    /// The grid after the cell at `(x, y)`, which held `dot` when its turn
    /// began, has met the neighbours in `order` one after the other.
    pub open spec fn exchange_all(self, dot: Dot, x: int, y: int, order: Seq<(usize, usize)>) -> GridView
        decreases order.len(),
    {
        if order.len() == 0 {
            self
        } else {
            self.exchange_all(dot, x, y, order.drop_last()).exchange(dot, x, y, order.last())
        }
    }

    /// How many dissolve events there are while the cell at `(x, y)`, which
    /// held `dot` when its turn began, meets the neighbours in `order` one
    /// after the other: the meetings in which Salt dissolves.
    pub open spec fn exchange_events(
        self,
        dot: Dot,
        x: int,
        y: int,
        order: Seq<(usize, usize)>,
    ) -> nat
        decreases order.len(),
    {
        if order.len() == 0 {
            0
        } else {
            self.exchange_events(dot, x, y, order.drop_last()) + if self.exchange_all(
                dot,
                x,
                y,
                order.drop_last(),
            ).dissolves(dot, x, y, order.last()) {
                1nat
            } else {
                0nat
            }
        }
    }

    /// The grid after the turn of the cell at `(x, y)`, which meets its
    /// neighbours in the given order.
    pub open spec fn diffuse(self, x: int, y: int, order: Seq<(usize, usize)>) -> GridView {
        self.exchange_all(self.at(x, y), x, y, order)
    }

    /// How many dissolve events the turn of the cell at `(x, y)` has.
    pub open spec fn dissolve_events(self, x: int, y: int, order: Seq<(usize, usize)>) -> nat {
        self.exchange_events(self.at(x, y), x, y, order)
    }

    /// One turn of the pass: the cell at `(x, y)` meets its neighbours in
    /// some order, and its dissolve events are added to those `before`.
    pub open spec fn diffuse_step(
        self,
        x: int,
        y: int,
        order: Seq<(usize, usize)>,
        before: nat,
        after: GridView,
        events: nat,
    ) -> bool {
        &&& order.to_multiset() == self.neighbors(x, y).to_multiset()
        &&& after == self.diffuse(x, y, order)
        &&& events == before + self.dissolve_events(x, y, order)
    }

    /// The turns of the first `n` cells of row `y`, from the left, may lead
    /// from this grid to `after` with `events` dissolve events.
    pub open spec fn row_diffuses_to(self, y: int, n: nat, after: GridView, events: nat) -> bool
        decreases n,
    {
        if n == 0 {
            after == self && events == 0
        } else {
            exists|m: nat, mid: GridView, order: Seq<(usize, usize)>, before: nat|
                #![trigger mid.diffuse_step(m as int, y, order, before, after, events)]
                n == m + 1 && self.row_diffuses_to(y, m, mid, before) && mid.diffuse_step(
                    m as int,
                    y,
                    order,
                    before,
                    after,
                    events,
                )
        }
    }

    /// The turns of all cells of row `m` may lead from this grid to `after`,
    /// and bring the dissolve events from `before` to `events`.
    pub open spec fn diffuse_row_step(self, m: nat, before: nat, after: GridView, events: nat) -> bool {
        events >= before && self.row_diffuses_to(
            m as int,
            self.width,
            after,
            (events - before) as nat,
        )
    }

    /// The turns of all cells of the first `n` rows, from the top, may lead
    /// from this grid to `after` with `events` dissolve events.
    pub open spec fn rows_diffuse_to(self, n: nat, after: GridView, events: nat) -> bool
        decreases n,
    {
        if n == 0 {
            after == self && events == 0
        } else {
            exists|m: nat, mid: GridView, before: nat|
                #![trigger mid.diffuse_row_step(m, before, after, events)]
                n == m + 1 && self.rows_diffuse_to(m, mid, before) && mid.diffuse_row_step(
                    m,
                    before,
                    after,
                    events,
                )
        }
    }

    /// A diffusion pass may lead from this grid to `after` with `events`
    /// dissolve events.
    pub open spec fn diffusion(self, after: GridView, events: nat) -> bool {
        self.rows_diffuse_to(self.height, after, events)
    }

    /// The first of the neighbours in `order` into which the cell at
    /// `(x, y)` dissolves as the grid stands.
    pub open spec fn first_taker(self, x: int, y: int, order: Seq<(usize, usize)>) -> Option<
        (usize, usize),
    >
        decreases order.len(),
    {
        if order.len() == 0 {
            None
        } else {
            match self.first_taker(x, y, order.drop_last()) {
                Some(n) => Some(n),
                None => if self.dissolves(self.at(x, y), x, y, order.last()) {
                    Some(order.last())
                } else {
                    None
                },
            }
        }
    }

    /// The turn of a Salt cell: it dissolves into the first of its
    /// neighbours, in the order in which it meets them, that is Water with a
    /// salinity of at most 100, and into no other; that is the one dissolve
    /// event of the turn. Where there is no such neighbour, nothing changes
    /// and there is no event.
    pub proof fn lemma_salt_turn(self, x: int, y: int, order: Seq<(usize, usize)>)
        requires
            self.wf(),
            self.in_bounds(x, y),
            self.at(x, y) is Salt,
        ensures
            match self.first_taker(x, y, order) {
                Some(n) => self.diffuse(x, y, order) == self.exchange(self.at(x, y), x, y, n)
                    && self.dissolve_events(x, y, order) == 1 && self.dissolves(
                    self.at(x, y),
                    x,
                    y,
                    n,
                ),
                None => self.diffuse(x, y, order) == self && self.dissolve_events(x, y, order)
                    == 0,
            },
        decreases order.len(),
    {
        if order.len() > 0 {
            self.lemma_salt_turn(x, y, order.drop_last());
            self.lemma_index_in_range(x, y);
            match self.first_taker(x, y, order.drop_last()) {
                Some(n) => {
                    self.lemma_index_in_range(n.0 as int, n.1 as int);
                    let mid = self.exchange(self.at(x, y), x, y, n);
                    assert(mid.at(x, y) is Empty);
                },
                None => {},
            }
        }
    }

    /// Dissolve bound: when a Salt cell meets a Water neighbour of salinity
    /// `s`, then for `s <= 100` that is a dissolve event, the neighbour ends
    /// at exactly `s + 100` and the place of the Salt holds Empty, both at
    /// their old temperatures; for `s > 100` it is no event and nothing
    /// changes. No other cell changes either way.
    pub proof fn lemma_dissolve_bound(self, x: int, y: int, n: (usize, usize))
        requires
            self.wf(),
            self.in_bounds(x, y),
            self.in_bounds(n.0 as int, n.1 as int),
            self.at(x, y) is Salt,
            self.at(n.0 as int, n.1 as int) is Water,
        ensures
            ({
                let salt = self.at(x, y);
                let water = self.at(n.0 as int, n.1 as int);
                let after = self.exchange(salt, x, y, n);
                if water.salt_content() <= 100 {
                    &&& self.dissolves(salt, x, y, n)
                    &&& after.at(n.0 as int, n.1 as int) == (Dot::Water {
                        temp: water.temperature(),
                        salinity: (water.salt_content() + 100) as u16,
                    })
                    &&& after.at(x, y) == (Dot::Empty { temp: salt.temperature() })
                    &&& forall|px: int, py: int|
                        #![trigger after.at(px, py)]
                        self.in_bounds(px, py) && (px != x || py != y) && (px != n.0 || py != n.1)
                            ==> after.at(px, py) == self.at(px, py)
                } else {
                    !self.dissolves(salt, x, y, n) && after == self
                }
            }),
    {
        let after = self.exchange(self.at(x, y), x, y, n);
        self.lemma_index_in_range(x, y);
        self.lemma_index_in_range(n.0 as int, n.1 as int);
        if self.index(x, y) == self.index(n.0 as int, n.1 as int) {
            self.lemma_index_injective(x, y, n.0 as int, n.1 as int);
        }
        assert forall|px: int, py: int|
            self.in_bounds(px, py) && (px != x || py != y) && (px != n.0 || py != n.1)
                implies #[trigger] after.at(px, py) == self.at(px, py) by {
            self.lemma_index_in_range(px, py);
            if self.index(px, py) == self.index(x, y) {
                self.lemma_index_injective(px, py, x, y);
            }
            if self.index(px, py) == self.index(n.0 as int, n.1 as int) {
                self.lemma_index_injective(px, py, n.0 as int, n.1 as int);
            }
        }
    }

    /// Levelling: when a Water cell meets a Water neighbour, both end at the
    /// mean of their salinities, each at its old temperature, unless that
    /// mean is 0, and then nothing changes. Two cells that are level at a
    /// salinity stay so.
    pub proof fn lemma_levelling(self, x: int, y: int, n: (usize, usize))
        requires
            self.wf(),
            self.in_bounds(x, y),
            self.in_bounds(n.0 as int, n.1 as int),
            x != n.0 || y != n.1,
            self.at(x, y) is Water,
            self.at(n.0 as int, n.1 as int) is Water,
        ensures
            ({
                let here = self.at(x, y);
                let there = self.at(n.0 as int, n.1 as int);
                let mean = average(here.salt_content(), there.salt_content());
                let after = self.exchange(here, x, y, n);
                &&& mean != 0 ==> after.at(x, y) == (Dot::Water {
                    temp: here.temperature(),
                    salinity: mean,
                }) && after.at(n.0 as int, n.1 as int) == (Dot::Water {
                    temp: there.temperature(),
                    salinity: mean,
                })
                &&& mean == 0 ==> after == self
                &&& here.salt_content() == there.salt_content() ==> after == self
            }),
    {
        let after = self.exchange(self.at(x, y), x, y, n);
        self.lemma_index_in_range(x, y);
        self.lemma_index_in_range(n.0 as int, n.1 as int);
        if self.index(x, y) == self.index(n.0 as int, n.1 as int) {
            self.lemma_index_injective(x, y, n.0 as int, n.1 as int);
        }
        if self.at(x, y).salt_content() == self.at(n.0 as int, n.1 as int).salt_content() {
            assert(after.cells =~= self.cells);
        }
    }

    /// The turns of a row go on by one cell.
    pub proof fn lemma_row_diffuses_on(
        self,
        y: int,
        n: nat,
        mid: GridView,
        order: Seq<(usize, usize)>,
        before: nat,
        after: GridView,
        events: nat,
    )
        requires
            self.row_diffuses_to(y, n, mid, before),
            mid.diffuse_step(n as int, y, order, before, after, events),
        ensures
            self.row_diffuses_to(y, n + 1, after, events),
    {
    }

    /// The pass goes on by one row.
    pub proof fn lemma_rows_diffuse_on(
        self,
        n: nat,
        mid: GridView,
        before: nat,
        after: GridView,
        events: nat,
    )
        requires
            self.rows_diffuse_to(n, mid, before),
            mid.diffuse_row_step(n, before, after, events),
        ensures
            self.rows_diffuse_to(n + 1, after, events),
    {
    }
}

impl Grid {
    /// The cell at `pos`, which held `dot` when its turn began, meets the
    /// cell at `n`. A position outside the grid is no neighbour. Salt
    /// dissolves only while `pos` still holds it. The answer tells whether
    /// this was a dissolve event.
    pub fn exchange(&mut self, dot: Dot, pos: (usize, usize), n: (usize, usize)) -> (dissolved:
        bool)
        requires
            old(self)@.in_bounds(pos.0 as int, pos.1 as int),
        ensures
            final(self)@ == old(self)@.exchange(dot, pos.0 as int, pos.1 as int, n),
            dissolved == old(self)@.dissolves(dot, pos.0 as int, pos.1 as int, n),
            final(self)@.width == old(self)@.width,
            final(self)@.height == old(self)@.height,
    {
        let there = match self.lookup(n) {
            Some(there) => there,
            None => {
                return false;
            },
        };
        match (dot, there) {
            (Dot::Salt { temp: st }, Dot::Water { temp: t, salinity: sal }) => {
                match self.get(pos) {
                    Dot::Salt { temp: _ } => {
                        if sal <= 100 {
                            self.set(n, Dot::Water { temp: t, salinity: sal + 100 });
                            self.set(pos, Dot::Empty { temp: st });
                            return true;
                        }
                    },
                    _ => {},
                }
            },
            (Dot::Water { temp: t, salinity: s1 }, Dot::Water { temp: tn, salinity: s2 }) => {
                let s = ((s1 as u32 + s2 as u32) / 2) as u16;
                if s != 0 {
                    self.set(n, Dot::Water { temp: tn, salinity: s });
                    self.set(pos, Dot::Water { temp: t, salinity: s });
                }
            },
            _ => {},
        }
        false
    }

    /// The turn of the cell at `pos`: it meets the given neighbours in the
    /// given order. Salt dissolves into the first of them that takes it and
    /// is then used up. Water levels with each Water among them, and the
    /// salinity that it had when its turn began goes into every mean. The
    /// answer is the number of dissolve events.
    pub fn diffuse(&mut self, pos: (usize, usize), order: &Vec<(usize, usize)>) -> (events: usize)
        requires
            old(self)@.in_bounds(pos.0 as int, pos.1 as int),
        ensures
            final(self)@ == old(self)@.diffuse(pos.0 as int, pos.1 as int, order@),
            events == old(self)@.dissolve_events(pos.0 as int, pos.1 as int, order@),
            final(self)@.width == old(self)@.width,
            final(self)@.height == old(self)@.height,
    {
        let dot = self.get(pos);
        let mut events: usize = 0;
        let mut i: usize = 0;
        while i < order.len()
            invariant
                i <= order@.len(),
                events <= i,
                events == old(self)@.exchange_events(
                    dot,
                    pos.0 as int,
                    pos.1 as int,
                    order@.take(i as int),
                ),
                self@.width == old(self)@.width,
                self@.height == old(self)@.height,
                old(self)@.in_bounds(pos.0 as int, pos.1 as int),
                self@ == old(self)@.exchange_all(
                    dot,
                    pos.0 as int,
                    pos.1 as int,
                    order@.take(i as int),
                ),
            decreases order@.len() - i,
        {
            proof {
                assert(order@.take(i + 1).drop_last() =~= order@.take(i as int));
            }
            if self.exchange(dot, pos, order[i]) {
                events += 1;
            }
            i += 1;
        }
        proof {
            assert(order@.take(i as int) =~= order@);
        }
        events
    }
}

} // verus!
