use vstd::prelude::*;

use crate::cell::Cell;
use crate::neighborhood::{moore_offset, neighbor_coords_upto};
use crate::world::World;

verus! {

/// Whether one of the first `k` Moore offsets equals `d`.
pub open spec fn offset_among(d: (int, int), k: int) -> bool {
    exists|j: int| 0 <= j < k && #[trigger] moore_offset(j) == d
}

/// Different indices give different Moore offsets, none of them zero.
pub proof fn lemma_offsets_distinct(j: int, k: int)
    requires
        0 <= j < 8,
        0 <= k < 8,
        j != k,
    ensures
        moore_offset(j) != moore_offset(k),
        moore_offset(k) != (0int, 0int),
{
}

impl World {
    /// The live cells among the positions reached by the first `k` Moore
    /// offsets from `(x, y)`.
    pub open spec fn live_prefix(&self, x: int, y: int, k: nat) -> Seq<Cell<bool>> {
        neighbor_coords_upto(self.width as int, self.height as int, x, y, k).map_values(
            |p: (int, int)| self.at(p.0, p.1),
        ).filter(|c: Cell<bool>| c.value)
    }

    /// Exactly one cell, the one at `(px, py)`, is alive.
    pub open spec fn only_alive_at(&self, px: int, py: int) -> bool {
        &&& self.contains(px, py)
        &&& forall|x: int, y: int|
            self.contains(x, y) ==> ((#[trigger] self.at(x, y)).value <==> (x == px && y == py))
    }

    /// With a single live cell, a cell sees it at most once among its
    /// neighbours, and only through the offset that leads to it.
    pub proof fn lemma_lone_live_prefix(&self, px: int, py: int, x: int, y: int, k: nat)
        requires
            self.wf(),
            self.only_alive_at(px, py),
            k <= 8,
        ensures
            self.live_prefix(x, y, k).len() <= (if offset_among((px - x, py - y), k as int) {
                1int
            } else {
                0int
            }),
        decreases k,
    {
        if k > 0 {
            let w = self.width as int;
            let h = self.height as int;
            let d = (px - x, py - y);
            let f = |p: (int, int)| self.at(p.0, p.1);
            let alive = |c: Cell<bool>| c.value;
            self.lemma_lone_live_prefix(px, py, x, y, (k - 1) as nat);
            let prev = neighbor_coords_upto(w, h, x, y, (k - 1) as nat);
            let o = moore_offset(k - 1);
            let q = (x + o.0, y + o.1);
            if offset_among(d, k - 1) {
                assert(offset_among(d, k as int));
            }
            if self.contains(q.0, q.1) {
                assert(prev.push(q).map_values(f) =~= prev.map_values(f).push(f(q)));
                prev.map_values(f).lemma_filter_push(f(q), alive);
                if self.at(q.0, q.1).value {
                    assert(o == d);
                    assert(offset_among(d, k as int));
                    if offset_among(d, k - 1) {
                        let j = choose|j: int| 0 <= j < k - 1 && #[trigger] moore_offset(j) == d;
                        lemma_offsets_distinct(j, k - 1);
                    }
                }
            }
        }
    }

    /// A grid whose only live cell has no live neighbour dies out in one
    /// generation: no cell is alive in the next one.
    pub proof fn lemma_lone_cell_dies(&self, px: int, py: int)
        requires
            self.wf(),
            self.only_alive_at(px, py),
        ensures
            forall|x: int, y: int| self.contains(x, y) ==> !#[trigger] self.next_alive(x, y),
    {
        assert forall|x: int, y: int| self.contains(x, y) implies !#[trigger] self.next_alive(
            x,
            y,
        ) by {
            self.lemma_lone_live_prefix(px, py, x, y, 8);
            assert(self.live_prefix(x, y, 8) == self.live_neighbor_cells(x, y));
            if x == px && y == py {
                if offset_among((0int, 0int), 8) {
                    let j = choose|j: int| 0 <= j < 8 && #[trigger] moore_offset(j) == (0int, 0int);
                    lemma_offsets_distinct((j + 1) % 8, j);
                }
            }
        }
    }
}

} // verus!
