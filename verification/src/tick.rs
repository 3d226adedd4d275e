//! A tick: the diffusion pass followed by the movement pass, and what holds
//! of every tick.

use crate::dot::Material;
use crate::grid::GridView;
use vstd::prelude::*;

verus! {

/// Each grid of the sequence may lead to the next by one tick.
pub open spec fn run(grids: Seq<GridView>) -> bool {
    forall|i: int| 0 <= i < grids.len() - 1 ==> #[trigger] ticks_on(grids, i)
}

/// The grid at `i` may lead to the one after it by one tick.
pub open spec fn ticks_on(grids: Seq<GridView>, i: int) -> bool {
    grids[i].tick(grids[i + 1])
}

impl GridView {
    /// A tick may lead from this grid to `after`: a diffusion pass, then a
    /// movement pass.
    pub open spec fn tick(self, after: GridView) -> bool {
        exists|mid: GridView, events: nat|
            #![trigger self.diffusion(mid, events)]
            self.diffusion(mid, events) && mid.movement(after)
    }

    /// A tick keeps the size of the grid and every Iron cell where it was.
    /// Of the materials it only turns Salt into Empty: all others are as
    /// many as before, and Salt and Empty together are as many as before.
    pub proof fn lemma_tick(self, after: GridView)
        requires
            self.wf(),
            self.tick(after),
        ensures
            after.wf(),
            after.width == self.width,
            after.height == self.height,
            self.iron_stays(after),
            after.materials().count(Material::Salt) <= self.materials().count(Material::Salt),
            after.materials().count(Material::Salt) + after.materials().count(Material::Empty)
                == self.materials().count(Material::Salt) + self.materials().count(
                Material::Empty,
            ),
            forall|m: Material|
                m != Material::Salt && m != Material::Empty ==> after.materials().count(m)
                    == self.materials().count(m),
    {
        let (mid, events) = choose|mid: GridView, events: nat|
            #![trigger self.diffusion(mid, events)]
            self.diffusion(mid, events) && mid.movement(after);
        self.lemma_diffusion_dissolves(mid, events);
        mid.lemma_movement_rearranges(after);
        self.lemma_iron_stays_twice(mid, after);
    }
}

/// Immovability: over any number of ticks every Iron cell stays where it
/// was, and no other cell becomes Iron.
pub proof fn lemma_iron_never_moves(grids: Seq<GridView>, k: int)
    requires
        grids.len() > 0,
        grids[0].wf(),
        run(grids),
        0 <= k < grids.len(),
    ensures
        grids[k].wf(),
        grids[k].width == grids[0].width,
        grids[k].height == grids[0].height,
        grids[0].iron_stays(grids[k]),
    decreases k,
{
    if k > 0 {
        lemma_iron_never_moves(grids, k - 1);
        assert(ticks_on(grids, k - 1));
        let first = grids[0];
        let mid = grids[k - 1];
        let after = grids[k];
        mid.lemma_tick(after);
        first.lemma_iron_stays_twice(mid, after);
    }
}

/// Conservation: over any number of ticks the materials other than Salt and
/// Empty are as many as at the start, Salt is never more, and Salt and Empty
/// together are as many as at the start.
pub proof fn lemma_materials_are_kept(grids: Seq<GridView>, k: int)
    requires
        grids.len() > 0,
        grids[0].wf(),
        run(grids),
        0 <= k < grids.len(),
    ensures
        grids[k].wf(),
        grids[k].materials().count(Material::Salt) <= grids[0].materials().count(Material::Salt),
        grids[k].materials().count(Material::Salt) + grids[k].materials().count(Material::Empty)
            == grids[0].materials().count(Material::Salt) + grids[0].materials().count(
            Material::Empty,
        ),
        forall|m: Material|
            m != Material::Salt && m != Material::Empty ==> grids[k].materials().count(m)
                == grids[0].materials().count(m),
    decreases k,
{
    if k > 0 {
        lemma_materials_are_kept(grids, k - 1);
        assert(ticks_on(grids, k - 1));
        grids[k - 1].lemma_tick(grids[k]);
    }
}

} // verus!
