//! The grid: a dense, fixed-size container of cells, and its mathematical
//! model.

use crate::dot::{Dot, Material};
use vstd::multiset::Multiset;
use vstd::prelude::*;

verus! {

/// The model of a grid: `width` by `height` cells in one row-major sequence.
/// The cell at column `x` of row `y` is `cells[y * width + x]`; row 0 is the
/// top row.
pub struct GridView {
    pub width: nat,
    pub height: nat,
    pub cells: Seq<Dot>,
}

/// The material of each cell.
pub open spec fn kinds(cells: Seq<Dot>) -> Seq<Material> {
    Seq::new(cells.len(), |i: int| cells[i].material())
}

impl GridView {
    /// Every position holds exactly one cell, and a position can be written
    /// as a pair of `usize`.
    pub open spec fn wf(self) -> bool {
        &&& self.cells.len() == self.width * self.height
        &&& self.width <= usize::MAX
        &&& self.height <= usize::MAX
    }

    /// Whether the grid has a cell at column `x` of row `y`.
    pub open spec fn in_bounds(self, x: int, y: int) -> bool {
        0 <= x < self.width && 0 <= y < self.height
    }

    /// Where the cell at `(x, y)` stands in `cells`.
    pub open spec fn index(self, x: int, y: int) -> int {
        y * self.width + x
    }

    /// The cell at column `x` of row `y`.
    pub open spec fn at(self, x: int, y: int) -> Dot {
        self.cells[self.index(x, y)]
    }

    /// The grid of the given size in which every cell is Empty at
    /// temperature 0.
    pub open spec fn blank(width: nat, height: nat) -> GridView {
        GridView { width, height, cells: Seq::new(width * height, |i: int| Dot::Empty { temp: 0 }) }
    }

    /// This grid with `dot` at `(x, y)`.
    pub open spec fn put(self, x: int, y: int, dot: Dot) -> GridView {
        GridView { cells: self.cells.update(self.index(x, y), dot), ..self }
    }

    /// This grid with the cells at `(x, y)` and `(nx, ny)` exchanged.
    pub open spec fn swap(self, x: int, y: int, nx: int, ny: int) -> GridView {
        self.put(x, y, self.at(nx, ny)).put(nx, ny, self.at(x, y))
    }

    /// The position that lies `offset` away from `(x, y)`, if the grid has
    /// it.
    pub open spec fn neighbor(self, x: int, y: int, offset: (i8, i8)) -> Option<(usize, usize)> {
        if self.in_bounds(x + offset.0, y + offset.1) {
            Some(((x + offset.0) as usize, (y + offset.1) as usize))
        } else {
            None
        }
    }

    /// The positions that the offsets reach from `(x, y)`, in the order of
    /// the offsets, without those that the grid does not have.
    pub open spec fn neighbors_along(self, x: int, y: int, offsets: Seq<(i8, i8)>) -> Seq<
        (usize, usize),
    >
        decreases offsets.len(),
    {
        if offsets.len() == 0 {
            Seq::empty()
        } else {
            let before = self.neighbors_along(x, y, offsets.drop_last());
            match self.neighbor(x, y, offsets.last()) {
                Some(n) => before.push(n),
                None => before,
            }
        }
    }

    /// The position of the grid that the signed pair names, if it names
    /// one.
    pub open spec fn place(self, at: (i128, i128)) -> Option<(usize, usize)> {
        if self.in_bounds(at.0 as int, at.1 as int) {
            Some((at.0 as usize, at.1 as usize))
        } else {
            None
        }
    }

    /// The materials of all cells, without their positions.
    pub open spec fn materials(self) -> Multiset<Material> {
        kinds(self.cells).to_multiset()
    }

    /// The bytes in which the grid is shown: the colour of each cell, row
    /// by row.
    pub open spec fn pixels(self) -> Seq<u8> {
        Seq::new(4 * self.cells.len(), |i: int| self.cells[i / 4].rgba()[i % 4])
    }

    /// What a position holds after two cells have changed places.
    pub proof fn lemma_swap_at(self, x: int, y: int, nx: int, ny: int, px: int, py: int)
        requires
            self.wf(),
            self.in_bounds(x, y),
            self.in_bounds(nx, ny),
            self.in_bounds(px, py),
        ensures
            self.swap(x, y, nx, ny).at(px, py) == if px == nx && py == ny {
                self.at(x, y)
            } else if px == x && py == y {
                self.at(nx, ny)
            } else {
                self.at(px, py)
            },
    {
        self.lemma_index_in_range(x, y);
        self.lemma_index_in_range(nx, ny);
        self.lemma_index_in_range(px, py);
        if self.index(px, py) == self.index(x, y) {
            self.lemma_index_injective(px, py, x, y);
        }
        if self.index(px, py) == self.index(nx, ny) {
            self.lemma_index_injective(px, py, nx, ny);
        }
    }

    /// Every Iron cell of either grid is the same cell, at the same place, in
    /// the other.
    pub open spec fn iron_stays(self, after: GridView) -> bool {
        forall|x: int, y: int|
            #![trigger self.at(x, y)]
            #![trigger after.at(x, y)]
            self.in_bounds(x, y) && (self.at(x, y) is Iron || after.at(x, y) is Iron)
                ==> after.at(x, y) == self.at(x, y)
    }

    /// `after` holds the cells of this grid, some of them in other places,
    /// and every Iron cell where it was.
    pub open spec fn rearranged_to(self, after: GridView) -> bool {
        &&& after.width == self.width
        &&& after.height == self.height
        &&& after.wf()
        &&& after.cells.to_multiset() == self.cells.to_multiset()
        &&& after.materials() == self.materials()
        &&& self.iron_stays(after)
    }

    /// Exchanging two cells, neither of them Iron, rearranges the grid.
    pub proof fn lemma_swap_rearranges(self, x: int, y: int, nx: int, ny: int)
        requires
            self.wf(),
            self.in_bounds(x, y),
            self.in_bounds(nx, ny),
            !(self.at(x, y) is Iron),
            !(self.at(nx, ny) is Iron),
        ensures
            self.rearranged_to(self.swap(x, y, nx, ny)),
    {
        broadcast use vstd::seq_lib::group_to_multiset_ensures;
        broadcast use vstd::seq_lib::to_multiset_update;

        let after = self.swap(x, y, nx, ny);
        let i = self.index(x, y);
        let j = self.index(nx, ny);
        self.lemma_index_in_range(x, y);
        self.lemma_index_in_range(nx, ny);
        let a = self.cells[i];
        let b = self.cells[j];
        let first = self.cells.update(i, b);
        assert(after.cells == first.update(j, a));
        assert(self.cells.contains(a));
        assert(self.cells.contains(b));
        assert(after.cells.to_multiset() =~= self.cells.to_multiset());

        let was = kinds(self.cells);
        assert(kinds(first) =~= was.update(i, b.material()));
        assert(kinds(after.cells) =~= was.update(i, b.material()).update(j, a.material()));
        assert(was[i] == a.material() && was[j] == b.material());
        assert(was.contains(a.material()));
        assert(was.contains(b.material()));
        assert(after.materials() =~= self.materials());

        assert forall|px: int, py: int|
            self.in_bounds(px, py) && (self.at(px, py) is Iron || after.at(px, py) is Iron)
                implies after.at(px, py) == self.at(px, py) by {
            self.lemma_index_in_range(px, py);
        }
    }

    /// A grid is rearranged to itself.
    pub proof fn lemma_rearranged_same(self)
        requires
            self.wf(),
        ensures
            self.rearranged_to(self),
    {
    }

    /// Iron that stays over one step and over the next stays over both.
    pub proof fn lemma_iron_stays_twice(self, mid: GridView, after: GridView)
        requires
            mid.width == self.width,
            mid.height == self.height,
            self.iron_stays(mid),
            mid.iron_stays(after),
        ensures
            self.iron_stays(after),
    {
        assert forall|x: int, y: int|
            self.in_bounds(x, y) && (self.at(x, y) is Iron || after.at(x, y) is Iron)
                implies after.at(x, y) == self.at(x, y) by {
            assert(mid.in_bounds(x, y));
            if self.at(x, y) is Iron {
                assert(mid.at(x, y) == self.at(x, y));
            } else {
                assert(mid.at(x, y) == after.at(x, y));
            }
        }
    }

    /// Rearranging twice is rearranging.
    pub proof fn lemma_rearranged_twice(self, mid: GridView, after: GridView)
        requires
            self.rearranged_to(mid),
            mid.rearranged_to(after),
        ensures
            self.rearranged_to(after),
    {
        self.lemma_iron_stays_twice(mid, after);
    }

    /// A position of the grid has an index into `cells`.
    pub proof fn lemma_index_in_range(self, x: int, y: int)
        requires
            self.wf(),
            self.in_bounds(x, y),
        ensures
            0 <= y * self.width <= self.index(x, y) < self.cells.len(),
    {
        let w = self.width as int;
        let h = self.height as int;
        assert(y * w + x < w * h) by (nonlinear_arith)
            requires
                0 <= x < w,
                0 <= y < h,
        ;
        assert(0 <= y * w) by (nonlinear_arith)
            requires
                0 <= x < w,
                0 <= y < h,
        ;
    }

    /// Two positions of the grid with one index are the same position.
    pub proof fn lemma_index_injective(self, x: int, y: int, nx: int, ny: int)
        requires
            self.in_bounds(x, y),
            self.in_bounds(nx, ny),
            self.index(x, y) == self.index(nx, ny),
        ensures
            x == nx,
            y == ny,
    {
        let w = self.width as int;
        assert(y == ny) by (nonlinear_arith)
            requires
                0 <= x < w,
                0 <= nx < w,
                y * w + x == ny * w + nx,
        ;
    }
}

/// A grid of cells whose size is fixed when it is made.
pub struct Grid {
    dots: Vec<Dot>,
    width: usize,
    height: usize,
}

impl View for Grid {
    type V = GridView;

    closed spec fn view(&self) -> GridView {
        GridView {
            width: self.width as nat,
            height: self.height as nat,
            cells: Seq::new((self.width * self.height) as nat, |i: int| self.dots@[i]),
        }
    }
}

/// `a + d` where that lies in `0..limit`.
fn shift(a: usize, d: i8, limit: usize) -> (r: Option<usize>)
    ensures
        r == (if 0 <= a + d < limit {
            Some((a + d) as usize)
        } else {
            None
        }),
{
    if d >= 0 {
        let step = d as usize;
        if a < limit && step < limit - a {
            Some(a + step)
        } else {
            None
        }
    } else {
        let step = (-(d as i16)) as usize;
        if step <= a && a - step < limit {
            Some(a - step)
        } else {
            None
        }
    }
}

impl Grid {
    #[verifier::type_invariant]
    spec fn inv(self) -> bool {
        self.dots@.len() == self.width * self.height
    }

    /// The model of every grid is well formed.
    pub proof fn lemma_wf(&self)
        ensures
            self@.wf(),
    {
    }

    proof fn lemma_view(&self)
        requires
            self.inv(),
        ensures
            self@.cells == self.dots@,
    {
        assert(self@.cells =~= self.dots@);
    }

    /// A grid of `w` columns and `h` rows of Empty cells.
    pub fn new(w: usize, h: usize) -> (grid: Grid)
        requires
            w * h <= usize::MAX,
        ensures
            grid@ == GridView::blank(w as nat, h as nat),
    {
        let mut dots: Vec<Dot> = Vec::new();
        let n: usize = w * h;
        let mut i: usize = 0;
        while i < n
            invariant
                i <= n,
                dots@.len() == i,
                forall|k: int| 0 <= k < i ==> dots@[k] == (Dot::Empty { temp: 0 }),
            decreases n - i,
        {
            dots.push(Dot::default());
            i += 1;
        }
        let grid = Grid { dots, width: w, height: h };
        assert(grid@.cells =~= GridView::blank(w as nat, h as nat).cells);
        grid
    }

    /// The number of columns.
    pub fn width(&self) -> (w: usize)
        ensures
            w == self@.width,
    {
        self.width
    }

    /// The number of rows.
    pub fn height(&self) -> (h: usize)
        ensures
            h == self@.height,
    {
        self.height
    }

    /// Where the cell at `pos` lies in the row-major storage.
    fn slot(&self, pos: (usize, usize)) -> (i: usize)
        requires
            self@.in_bounds(pos.0 as int, pos.1 as int),
        ensures
            i == self@.index(pos.0 as int, pos.1 as int),
            i < self.dots@.len(),
            self.dots@ == self@.cells,
    {
        proof {
            use_type_invariant(self);
            self.lemma_view();
            self@.lemma_index_in_range(pos.0 as int, pos.1 as int);
            assert(self.dots.len() == self.dots@.len());
        }
        pos.1 * self.width + pos.0
    }

    /// The cell at `pos`, given as column and row.
    pub fn get(&self, pos: (usize, usize)) -> (dot: Dot)
        requires
            self@.in_bounds(pos.0 as int, pos.1 as int),
        ensures
            dot == self@.at(pos.0 as int, pos.1 as int),
    {
        let i = self.slot(pos);
        self.dots[i]
    }

    /// The cell at `pos`, or `None` where the grid has no such position.
    pub fn lookup(&self, pos: (usize, usize)) -> (found: Option<Dot>)
        ensures
            found == (if self@.in_bounds(pos.0 as int, pos.1 as int) {
                Some(self@.at(pos.0 as int, pos.1 as int))
            } else {
                None
            }),
    {
        if pos.0 < self.width && pos.1 < self.height {
            Some(self.get(pos))
        } else {
            None
        }
    }

    /// The position of the grid that the signed pair names, or `None`
    /// where a coordinate is negative or beyond the grid.
    pub fn place(&self, at: (i128, i128)) -> (pos: Option<(usize, usize)>)
        ensures
            pos == self@.place(at),
    {
        if at.0 < 0 || at.1 < 0 {
            return None;
        }
        if at.0 >= self.width as i128 || at.1 >= self.height as i128 {
            return None;
        }
        Some((at.0 as usize, at.1 as usize))
    }

    /// Puts `dot` at `pos`.
    pub fn set(&mut self, pos: (usize, usize), dot: Dot)
        requires
            old(self)@.in_bounds(pos.0 as int, pos.1 as int),
        ensures
            final(self)@ == old(self)@.put(pos.0 as int, pos.1 as int, dot),
    {
        let i = self.slot(pos);
        self.dots[i] = dot;
        proof {
            self.lemma_view();
        }
    }

    /// Writes the colour of every cell into `frame`, four bytes a cell, row
    /// by row.
    pub fn draw(&self, frame: &mut [u8])
        requires
            old(frame)@.len() == 4 * self@.width * self@.height,
        ensures
            final(frame)@ == self@.pixels(),
    {
        proof {
            use_type_invariant(self);
            self.lemma_view();
            assert(frame.len() == frame@.len());
            assert(4 * self@.width * self@.height == 4 * (self@.width * self@.height))
                by (nonlinear_arith);
        }
        let n = self.dots.len();
        let mut i: usize = 0;
        while i < n
            invariant
                i <= n,
                n == self.dots@.len(),
                4 * n <= usize::MAX,
                self.dots@ == self@.cells,
                frame@.len() == 4 * n,
                forall|j: int| 0 <= j < 4 * i ==> frame@[j] == self@.pixels()[j],
            decreases n - i,
        {
            let c = self.dots[i].color();
            frame[4 * i] = c[0];
            frame[4 * i + 1] = c[1];
            frame[4 * i + 2] = c[2];
            frame[4 * i + 3] = c[3];
            i += 1;
        }
        assert(frame@ =~= self@.pixels());
    }

    /// The position `offset` away from `pos`, or `None` where the grid has
    /// no such position.
    pub fn neighbor(&self, pos: (usize, usize), offset: (i8, i8)) -> (n: Option<(usize, usize)>)
        ensures
            n == self@.neighbor(pos.0 as int, pos.1 as int, offset),
    {
        match (shift(pos.0, offset.0, self.width), shift(pos.1, offset.1, self.height)) {
            (Some(nx), Some(ny)) => Some((nx, ny)),
            _ => None,
        }
    }

    /// The positions that the offsets reach from `pos`, in the order of the
    /// offsets, without those that the grid does not have.
    pub fn neighbors_along(&self, pos: (usize, usize), offsets: &Vec<(i8, i8)>) -> (reached: Vec<
        (usize, usize),
    >)
        ensures
            reached@ == self@.neighbors_along(pos.0 as int, pos.1 as int, offsets@),
    {
        let mut reached: Vec<(usize, usize)> = Vec::new();
        let mut i: usize = 0;
        while i < offsets.len()
            invariant
                i <= offsets@.len(),
                reached@ == self@.neighbors_along(pos.0 as int, pos.1 as int, offsets@.take(i as int)),
            decreases offsets@.len() - i,
        {
            proof {
                assert(offsets@.take(i + 1).drop_last() =~= offsets@.take(i as int));
            }
            match self.neighbor(pos, offsets[i]) {
                Some(n) => {
                    reached.push(n);
                },
                None => {},
            }
            i += 1;
        }
        proof {
            assert(offsets@.take(i as int) =~= offsets@);
        }
        reached
    }
}

} // verus!
