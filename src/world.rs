use vstd::prelude::*;

use crate::cell::Cell;
use crate::rule::{conway, rule};
use crate::neighborhood::{lemma_neighbor_coords_valid, neighbor_coords, neighbor_coords_upto, moore_offset, shift};

verus! {

/// Row-major position of `(x, y)` in a grid `width` cells wide.
pub open spec fn index_of(width: int, x: int, y: int) -> int {
    y * width + x
}

/// Whether `(x, y)` lies inside a `width` by `height` grid.
pub open spec fn in_bounds(width: int, height: int, x: int, y: int) -> bool {
    0 <= x < width && 0 <= y < height
}

/// The index of an in-bounds position lies inside the cell sequence.
proof fn lemma_index_in_range(w: int, h: int, x: int, y: int)
    requires
        in_bounds(w, h, x, y),
    ensures
        0 <= index_of(w, x, y) < w * h,
{
    assert(0 <= y * w + x < w * h) by (nonlinear_arith)
        requires
            0 <= x < w,
            0 <= y < h,
    ;
}

/// Two positions with the same row-major index are the same position.
pub proof fn lemma_index_unique(w: int, x1: int, y1: int, x2: int, y2: int)
    requires
        0 <= x1 < w,
        0 <= x2 < w,
        index_of(w, x1, y1) == index_of(w, x2, y2),
    ensures
        x1 == x2,
        y1 == y2,
{
    let i = index_of(w, x1, y1);
    vstd::arithmetic::div_mod::lemma_fundamental_div_mod_converse(i, w, y1, x1);
    vstd::arithmetic::div_mod::lemma_fundamental_div_mod_converse(i, w, y2, x2);
}

/// A fixed-size rectangular grid of cells, stored row by row.
#[derive(Debug)]
pub struct World {
    pub cells: Vec<Cell<bool>>,
    pub width: usize,
    pub height: usize,
}

impl World {
    /// Both dimensions are positive, there is one cell per position (a count
    /// that fits in `usize`), and each
    /// cell records the position at which it is stored.
    pub open spec fn wf(&self) -> bool {
        &&& self.width > 0
        &&& self.height > 0
        &&& self.width * self.height <= usize::MAX
        &&& self.cells@.len() == self.width * self.height
        &&& forall|i: int|
            0 <= i < self.cells@.len() ==> {
                let c = #[trigger] self.cells@[i];
                &&& c.x < self.width
                &&& c.y < self.height
                &&& index_of(self.width as int, c.x as int, c.y as int) == i
            }
    }

    /// The cell stored for position `(x, y)`.
    pub open spec fn at(&self, x: int, y: int) -> Cell<bool> {
        self.cells@[index_of(self.width as int, x, y)]
    }

    /// Whether `(x, y)` is a position of this grid.
    pub open spec fn contains(&self, x: int, y: int) -> bool {
        in_bounds(self.width as int, self.height as int, x, y)
    }

    /// The cells of the Moore neighbourhood of `(x, y)`, clipped to the grid,
    /// in scan order.
    pub open spec fn neighbor_cells(&self, x: int, y: int) -> Seq<Cell<bool>> {
        neighbor_coords(self.width as int, self.height as int, x, y).map_values(
            |p: (int, int)| self.at(p.0, p.1),
        )
    }

    /// The live cells among the neighbours of `(x, y)`, in scan order.
    pub open spec fn live_neighbor_cells(&self, x: int, y: int) -> Seq<Cell<bool>> {
        self.neighbor_cells(x, y).filter(|c: Cell<bool>| c.value)
    }

    /// How many neighbours of `(x, y)` are alive.
    pub open spec fn live_neighbor_count(&self, x: int, y: int) -> nat {
        self.live_neighbor_cells(x, y).len()
    }

    /// Whether the cell at `(x, y)` is alive in the next generation under the
    /// game's rule, judged from this generation alone.
    pub open spec fn next_alive(&self, x: int, y: int) -> bool {
        conway(self.at(x, y).value, self.live_neighbor_count(x, y) as int)
    }

    /// The cell stored for an in-bounds position carries that position.
    pub proof fn lemma_at(&self, x: int, y: int)
        requires
            self.wf(),
            self.contains(x, y),
        ensures
            0 <= index_of(self.width as int, x, y) < self.cells@.len(),
            self.at(x, y).x == x,
            self.at(x, y).y == y,
    {
        let w = self.width as int;
        lemma_index_in_range(w, self.height as int, x, y);
        let c = self.cells@[index_of(w, x, y)];
        lemma_index_unique(w, c.x as int, c.y as int, x, y);
    }

    /// A grid of `width` by `height` dead cells.
    pub fn new(width: usize, height: usize) -> (r: World)
        requires
            width > 0,
            height > 0,
            width * height <= usize::MAX,
        ensures
            r.wf(),
            r.width == width,
            r.height == height,
            forall|i: int| 0 <= i < r.cells@.len() ==> !(#[trigger] r.cells@[i]).value,
            forall|x: int, y: int|
                r.contains(x, y) ==> {
                    let c = #[trigger] r.at(x, y);
                    &&& c.x == x
                    &&& c.y == y
                    &&& !c.value
                },
    {
        let mut cells: Vec<Cell<bool>> = Vec::new();
        let mut y: usize = 0;
        while y < height
            invariant
                y <= height,
                cells@.len() == y * width,
                forall|i: int|
                    0 <= i < cells@.len() ==> {
                        let c = #[trigger] cells@[i];
                        &&& c.x < width
                        &&& c.y < y
                        &&& index_of(width as int, c.x as int, c.y as int) == i
                        &&& !c.value
                    },
            decreases height - y,
        {
            let mut x: usize = 0;
            while x < width
                invariant
                    x <= width,
                    y < height,
                    cells@.len() == y * width + x,
                    forall|i: int|
                        0 <= i < cells@.len() ==> {
                            let c = #[trigger] cells@[i];
                            &&& c.x < width
                            &&& c.y <= y
                            &&& index_of(width as int, c.x as int, c.y as int) == i
                            &&& !c.value
                        },
                decreases width - x,
            {
                cells.push(Cell { value: false, x, y });
                x = x + 1;
            }
            assert((y + 1) * width == y * width + width) by (nonlinear_arith);
            y = y + 1;
        }
        assert(height * width == width * height) by (nonlinear_arith);
        let r = World { cells, width, height };
        proof {
            assert forall|x: int, y: int| r.contains(x, y) implies {
                let c = #[trigger] r.at(x, y);
                &&& c.x == x
                &&& c.y == y
                &&& !c.value
            } by {
                r.lemma_at(x, y);
            }
        }
        r
    }

    /// The cell at `(x, y)`.
    pub fn cell_at(&self, x: usize, y: usize) -> (r: &Cell<bool>)
        requires
            self.wf(),
            x < self.width,
            y < self.height,
        ensures
            *r == self.at(x as int, y as int),
            r.x == x,
            r.y == y,
    {
        proof {
            self.lemma_at(x as int, y as int);
        }
        let i = y * self.width + x;
        &self.cells[i]
    }

    /// The neighbours of `cell`: the in-bounds cells of the 3x3 block around
    /// it, the cell itself left out, in scan order of the block.
    pub fn neighbors(&self, cell: &Cell<bool>) -> (r: Vec<&Cell<bool>>)
        requires
            self.wf(),
            cell.x < self.width,
            cell.y < self.height,
        ensures
            r@.len() == self.neighbor_cells(cell.x as int, cell.y as int).len(),
            forall|k: int|
                0 <= k < r@.len() ==> *r@[k] == self.neighbor_cells(cell.x as int, cell.y as int)[k]
                    && (r@[k].x as int, r@[k].y as int) == neighbor_coords(
                    self.width as int,
                    self.height as int,
                    cell.x as int,
                    cell.y as int,
                )[k],
            forall|k: int|
                0 <= k < r@.len() ==> self.contains(r@[k].x as int, r@[k].y as int) && !(
                r@[k].x == cell.x && r@[k].y == cell.y),
    {
        let ghost w = self.width as int;
        let ghost h = self.height as int;
        let ghost cx = cell.x as int;
        let ghost cy = cell.y as int;
        let mut out: Vec<&Cell<bool>> = Vec::new();
        let mut k: usize = 0;
        while k < 8
            invariant
                k <= 8,
                self.wf(),
                cell.x < self.width,
                cell.y < self.height,
                w == self.width,
                h == self.height,
                cx == cell.x,
                cy == cell.y,
                out@.len() == neighbor_coords_upto(w, h, cx, cy, k as nat).len(),
                forall|j: int|
                    0 <= j < out@.len() ==> {
                        let p = neighbor_coords_upto(w, h, cx, cy, k as nat)[j];
                        &&& *(#[trigger] out@[j]) == self.at(p.0, p.1)
                        &&& out@[j].x == p.0
                        &&& out@[j].y == p.1
                    },
            decreases 8 - k,
        {
            let ghost prev = neighbor_coords_upto(w, h, cx, cy, k as nat);
            let i: usize = if k < 4 {
                k
            } else {
                k + 1
            };
            assert(moore_offset(k as int) == ((i % 3) as int - 1, (i / 3) as int - 1));
            let nx = shift(cell.x, i % 3, self.width);
            let ny = shift(cell.y, i / 3, self.height);
            if let Some(x) = nx {
                if let Some(y) = ny {
                    let n = self.cell_at(x, y);
                    out.push(n);
                }
            }
            k = k + 1;
            proof {
                let cur = neighbor_coords_upto(w, h, cx, cy, k as nat);
                assert forall|j: int| 0 <= j < out@.len() implies {
                    let p = cur[j];
                    &&& *(#[trigger] out@[j]) == self.at(p.0, p.1)
                    &&& out@[j].x == p.0
                    &&& out@[j].y == p.1
                } by {
                    if j < prev.len() {
                        assert(cur[j] == prev[j]);
                    }
                }
            }
        }
        proof {
            lemma_neighbor_coords_valid(w, h, cx, cy, 8);
        }
        out
    }

    /// The live neighbours of `cell`, in the order of [`World::neighbors`].
    pub fn alive_neighbors(&self, cell: &Cell<bool>) -> (r: Vec<&Cell<bool>>)
        requires
            self.wf(),
            cell.x < self.width,
            cell.y < self.height,
        ensures
            r@.len() == self.live_neighbor_count(cell.x as int, cell.y as int),
            forall|k: int|
                0 <= k < r@.len() ==> *r@[k] == self.live_neighbor_cells(
                    cell.x as int,
                    cell.y as int,
                )[k],
    {
        let ghost all = self.neighbor_cells(cell.x as int, cell.y as int);
        let near = self.neighbors(cell);
        let mut out: Vec<&Cell<bool>> = Vec::new();
        let mut j: usize = 0;
        while j < near.len()
            invariant
                j <= near@.len(),
                near@.len() == all.len(),
                forall|k: int| 0 <= k < near@.len() ==> *near@[k] == all[k],
                out@.len() == all.take(j as int).filter(|c: Cell<bool>| c.value).len(),
                forall|k: int|
                    0 <= k < out@.len() ==> *out@[k] == all.take(j as int).filter(|c: Cell<bool>| c.value)[k],
            decreases near@.len() - j,
        {
            let ghost before = all.take(j as int);
            let ghost c = all[j as int];
            let n = near[j];
            if n.value {
                out.push(n);
            }
            j = j + 1;
            proof {
                assert(all.take(j as int) =~= before.push(c));
                before.lemma_filter_push(c, |c: Cell<bool>| c.value);
            }
        }
        assert(all.take(near@.len() as int) =~= all);
        out
    }

    /// The next generation under `rule`: every cell of the result holds
    /// `rule(alive, live neighbours)`, both read from this grid, which is left
    /// as it is.
    pub fn advance<F: Fn(bool, usize) -> bool>(&self, rule: F) -> (r: World)
        requires
            self.wf(),
            forall|alive: bool, n: usize| #[trigger] rule.requires((alive, n)),
        ensures
            r.wf(),
            r.width == self.width,
            r.height == self.height,
            forall|i: int|
                0 <= i < r.cells@.len() ==> {
                    let old_cell = self.cells@[i];
                    let new_cell = #[trigger] r.cells@[i];
                    &&& new_cell.x == old_cell.x
                    &&& new_cell.y == old_cell.y
                    &&& rule.ensures(
                        (
                            old_cell.value,
                            self.live_neighbor_count(old_cell.x as int, old_cell.y as int) as usize,
                        ),
                        new_cell.value,
                    )
                },
    {
        let mut cells: Vec<Cell<bool>> = Vec::new();
        let mut i: usize = 0;
        while i < self.cells.len()
            invariant
                self.wf(),
                forall|alive: bool, n: usize| #[trigger] rule.requires((alive, n)),
                i <= self.cells@.len(),
                cells@.len() == i,
                forall|j: int|
                    0 <= j < i ==> {
                        let old_cell = self.cells@[j];
                        let new_cell = #[trigger] cells@[j];
                        &&& new_cell.x == old_cell.x
                        &&& new_cell.y == old_cell.y
                        &&& rule.ensures(
                            (
                                old_cell.value,
                                self.live_neighbor_count(old_cell.x as int, old_cell.y as int)
                                    as usize,
                            ),
                            new_cell.value,
                        )
                    },
            decreases self.cells@.len() - i,
        {
            let c = &self.cells[i];
            let live = self.alive_neighbors(c);
            let value = rule(c.value, live.len());
            cells.push(Cell { value, x: c.x, y: c.y });
            i = i + 1;
        }
        World { cells, width: self.width, height: self.height }
    }

    /// The next generation under the game's rule.
    pub fn next_generation(&self) -> (r: World)
        requires
            self.wf(),
        ensures
            r.wf(),
            r.width == self.width,
            r.height == self.height,
            forall|x: int, y: int|
                self.contains(x, y) ==> (#[trigger] r.at(x, y)).value == self.next_alive(x, y),
    {
        let r = self.advance(rule);
        proof {
            assert forall|x: int, y: int| self.contains(x, y) implies (#[trigger] r.at(
                x,
                y,
            )).value == self.next_alive(x, y) by {
                self.lemma_at(x, y);
                let i = index_of(self.width as int, x, y);
                let n = self.live_neighbor_count(x, y);
                lemma_neighbor_coords_valid(self.width as int, self.height as int, x, y, 8);
                self.neighbor_cells(x, y).lemma_filter_len(|c: Cell<bool>| c.value);
                assert(n <= 8);
                assert(rule.ensures((self.cells@[i].value, n as usize), r.cells@[i].value));
            }
        }
        r
    }

    /// Marks the cell at `(x, y)` alive.
    pub fn set_cell(&mut self, x: usize, y: usize)
        requires
            old(self).wf(),
            x < old(self).width,
            y < old(self).height,
        ensures
            final(self).wf(),
            final(self).width == old(self).width,
            final(self).height == old(self).height,
            final(self).cells@ == old(self).cells@.update(
                index_of(old(self).width as int, x as int, y as int),
                (Cell { value: true, x, y }),
            ),
    {
        proof {
            self.lemma_at(x as int, y as int);
        }
        let i = y * self.width + x;
        self.cells[i] = Cell { value: true, x, y };
    }
}

} // verus!
