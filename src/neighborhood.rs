use vstd::prelude::*;

use crate::world::in_bounds;

verus! {

/// The `k`-th offset (`0 <= k < 8`) of the Moore neighbourhood: the 3x3 block
/// around a cell, scanned row by row with its centre left out.
pub open spec fn moore_offset(k: int) -> (int, int) {
    let i = if k < 4 {
        k
    } else {
        k + 1
    };
    (i % 3 - 1, i / 3 - 1)
}

/// The positions reached from `(x, y)` by the first `k` Moore offsets that
/// stay inside a `width` by `height` grid, in scan order.
pub open spec fn neighbor_coords_upto(width: int, height: int, x: int, y: int, k: nat) -> Seq<
    (int, int),
>
    decreases k,
{
    if k == 0 {
        seq![]
    } else {
        let prev = neighbor_coords_upto(width, height, x, y, (k - 1) as nat);
        let o = moore_offset(k - 1);
        if in_bounds(width, height, x + o.0, y + o.1) {
            prev.push((x + o.0, y + o.1))
        } else {
            prev
        }
    }
}

/// The positions of the Moore neighbourhood of `(x, y)`, clipped to the grid
/// (no wraparound), in scan order.
pub open spec fn neighbor_coords(width: int, height: int, x: int, y: int) -> Seq<(int, int)> {
    neighbor_coords_upto(width, height, x, y, 8)
}

/// How many of `c - 1`, `c`, `c + 1` lie on an axis of length `n`.
pub open spec fn span(c: int, n: int) -> int {
    1 + (if c > 0 {
        1int
    } else {
        0int
    }) + (if c + 1 < n {
        1int
    } else {
        0int
    })
}

/// Every position of the neighbourhood lies inside the grid and differs from
/// the centre.
pub proof fn lemma_neighbor_coords_valid(width: int, height: int, x: int, y: int, k: nat)
    requires
        k <= 8,
    ensures
        neighbor_coords_upto(width, height, x, y, k).len() <= k,
        forall|j: int|
            0 <= j < neighbor_coords_upto(width, height, x, y, k).len() ==> {
                let p = #[trigger] neighbor_coords_upto(width, height, x, y, k)[j];
                &&& in_bounds(width, height, p.0, p.1)
                &&& p != (x, y)
            },
    decreases k,
{
    if k > 0 {
        lemma_neighbor_coords_valid(width, height, x, y, (k - 1) as nat);
        let prev = neighbor_coords_upto(width, height, x, y, (k - 1) as nat);
        let cur = neighbor_coords_upto(width, height, x, y, k);
        let o = moore_offset(k - 1);
        assert(o != (0int, 0int));
        assert forall|j: int| 0 <= j < cur.len() implies {
            let p = #[trigger] cur[j];
            &&& in_bounds(width, height, p.0, p.1)
            &&& p != (x, y)
        } by {
            if j < prev.len() {
                assert(cur[j] == prev[j]);
            }
        }
    }
}

/// A cell has `span(x) * span(y) - 1` neighbours: the block of in-bounds
/// positions around it, less the cell itself.
pub proof fn lemma_neighbor_count(width: int, height: int, x: int, y: int)
    requires
        in_bounds(width, height, x, y),
    ensures
        neighbor_coords(width, height, x, y).len() == span(x, width) * span(y, height) - 1,
{
    let c = |k: nat| neighbor_coords_upto(width, height, x, y, k).len();
    let hit = |dx: int, dy: int|
        if in_bounds(width, height, x + dx, y + dy) {
            1int
        } else {
            0int
        };
    assert(c(0) == 0);
    assert(c(1) == hit(-1, -1));
    assert(c(2) == c(1) + hit(0, -1));
    assert(c(3) == c(2) + hit(1, -1));
    assert(c(4) == c(3) + hit(-1, 0));
    assert(c(5) == c(4) + hit(1, 0));
    assert(c(6) == c(5) + hit(-1, 1));
    assert(c(7) == c(6) + hit(0, 1));
    assert(c(8) == c(7) + hit(1, 1));
    if x > 0 && x + 1 < width && y > 0 && y + 1 < height {
        assert(span(x, width) == 3);
        assert(span(y, height) == 3);
        assert(span(x, width) * span(y, height) == 9) by (nonlinear_arith)
            requires
                span(x, width) == 3,
                span(y, height) == 3,
        ;
    } else if x > 0 && x + 1 < width && y > 0 && y + 1 >= height {
        assert(span(x, width) == 3);
        assert(span(y, height) == 2);
        assert(span(x, width) * span(y, height) == 6) by (nonlinear_arith)
            requires
                span(x, width) == 3,
                span(y, height) == 2,
        ;
    } else if x > 0 && x + 1 < width && y == 0 && y + 1 < height {
        assert(span(x, width) == 3);
        assert(span(y, height) == 2);
        assert(span(x, width) * span(y, height) == 6) by (nonlinear_arith)
            requires
                span(x, width) == 3,
                span(y, height) == 2,
        ;
    } else if x > 0 && x + 1 < width && y == 0 && y + 1 >= height {
        assert(span(x, width) == 3);
        assert(span(y, height) == 1);
        assert(span(x, width) * span(y, height) == 3) by (nonlinear_arith)
            requires
                span(x, width) == 3,
                span(y, height) == 1,
        ;
    } else if x > 0 && x + 1 >= width && y > 0 && y + 1 < height {
        assert(span(x, width) == 2);
        assert(span(y, height) == 3);
        assert(span(x, width) * span(y, height) == 6) by (nonlinear_arith)
            requires
                span(x, width) == 2,
                span(y, height) == 3,
        ;
    } else if x > 0 && x + 1 >= width && y > 0 && y + 1 >= height {
        assert(span(x, width) == 2);
        assert(span(y, height) == 2);
        assert(span(x, width) * span(y, height) == 4) by (nonlinear_arith)
            requires
                span(x, width) == 2,
                span(y, height) == 2,
        ;
    } else if x > 0 && x + 1 >= width && y == 0 && y + 1 < height {
        assert(span(x, width) == 2);
        assert(span(y, height) == 2);
        assert(span(x, width) * span(y, height) == 4) by (nonlinear_arith)
            requires
                span(x, width) == 2,
                span(y, height) == 2,
        ;
    } else if x > 0 && x + 1 >= width && y == 0 && y + 1 >= height {
        assert(span(x, width) == 2);
        assert(span(y, height) == 1);
        assert(span(x, width) * span(y, height) == 2) by (nonlinear_arith)
            requires
                span(x, width) == 2,
                span(y, height) == 1,
        ;
    } else if x == 0 && x + 1 < width && y > 0 && y + 1 < height {
        assert(span(x, width) == 2);
        assert(span(y, height) == 3);
        assert(span(x, width) * span(y, height) == 6) by (nonlinear_arith)
            requires
                span(x, width) == 2,
                span(y, height) == 3,
        ;
    } else if x == 0 && x + 1 < width && y > 0 && y + 1 >= height {
        assert(span(x, width) == 2);
        assert(span(y, height) == 2);
        assert(span(x, width) * span(y, height) == 4) by (nonlinear_arith)
            requires
                span(x, width) == 2,
                span(y, height) == 2,
        ;
    } else if x == 0 && x + 1 < width && y == 0 && y + 1 < height {
        assert(span(x, width) == 2);
        assert(span(y, height) == 2);
        assert(span(x, width) * span(y, height) == 4) by (nonlinear_arith)
            requires
                span(x, width) == 2,
                span(y, height) == 2,
        ;
    } else if x == 0 && x + 1 < width && y == 0 && y + 1 >= height {
        assert(span(x, width) == 2);
        assert(span(y, height) == 1);
        assert(span(x, width) * span(y, height) == 2) by (nonlinear_arith)
            requires
                span(x, width) == 2,
                span(y, height) == 1,
        ;
    } else if x == 0 && x + 1 >= width && y > 0 && y + 1 < height {
        assert(span(x, width) == 1);
        assert(span(y, height) == 3);
        assert(span(x, width) * span(y, height) == 3) by (nonlinear_arith)
            requires
                span(x, width) == 1,
                span(y, height) == 3,
        ;
    } else if x == 0 && x + 1 >= width && y > 0 && y + 1 >= height {
        assert(span(x, width) == 1);
        assert(span(y, height) == 2);
        assert(span(x, width) * span(y, height) == 2) by (nonlinear_arith)
            requires
                span(x, width) == 1,
                span(y, height) == 2,
        ;
    } else if x == 0 && x + 1 >= width && y == 0 && y + 1 < height {
        assert(span(x, width) == 1);
        assert(span(y, height) == 2);
        assert(span(x, width) * span(y, height) == 2) by (nonlinear_arith)
            requires
                span(x, width) == 1,
                span(y, height) == 2,
        ;
    } else if x == 0 && x + 1 >= width && y == 0 && y + 1 >= height {
        assert(span(x, width) == 1);
        assert(span(y, height) == 1);
        assert(span(x, width) * span(y, height) == 1) by (nonlinear_arith)
            requires
                span(x, width) == 1,
                span(y, height) == 1,
        ;
    }
}

/// A cell away from every edge has 8 neighbours, a corner cell 3, and any
/// other cell on an edge 5 (for a grid at least two cells wide and high).
pub proof fn lemma_neighbor_count_by_position(width: int, height: int, x: int, y: int)
    requires
        width >= 2,
        height >= 2,
        in_bounds(width, height, x, y),
    ensures
        0 < x < width - 1 && 0 < y < height - 1 ==> neighbor_coords(width, height, x, y).len()
            == 8,
        (x == 0 || x == width - 1) && (y == 0 || y == height - 1) ==> neighbor_coords(
            width,
            height,
            x,
            y,
        ).len() == 3,
        (0 < x < width - 1 && (y == 0 || y == height - 1)) || ((x == 0 || x == width - 1) && 0 < y
            < height - 1) ==> neighbor_coords(width, height, x, y).len() == 5,
{
    lemma_neighbor_count(width, height, x, y);
    let x_inner = 0 < x < width - 1;
    let y_inner = 0 < y < height - 1;
    if x_inner {
        assert(span(x, width) == 3);
    } else {
        assert(span(x, width) == 2);
    }
    if y_inner {
        assert(span(y, height) == 3);
    } else {
        assert(span(y, height) == 2);
    }
    if x_inner && y_inner {
        assert(span(x, width) * span(y, height) == 9) by (nonlinear_arith)
            requires
                span(x, width) == 3,
                span(y, height) == 3,
        ;
    } else if x_inner {
        assert(span(x, width) * span(y, height) == 6) by (nonlinear_arith)
            requires
                span(x, width) == 3,
                span(y, height) == 2,
        ;
    } else if y_inner {
        assert(span(x, width) * span(y, height) == 6) by (nonlinear_arith)
            requires
                span(x, width) == 2,
                span(y, height) == 3,
        ;
    } else {
        assert(span(x, width) * span(y, height) == 4) by (nonlinear_arith)
            requires
                span(x, width) == 2,
                span(y, height) == 2,
        ;
    }
}

/// Moves `c` by `d - 1` (one of -1, 0, +1) along an axis of length `n`, if the
/// result stays on the axis.
pub fn shift(c: usize, d: usize, n: usize) -> (r: Option<usize>)
    requires
        c < n,
        d < 3,
    ensures
        r is Some <==> 0 <= c + d - 1 < n,
        r is Some ==> r->0 == c + d - 1,
{
    if d == 0 {
        if c > 0 {
            Some(c - 1)
        } else {
            None
        }
    } else if d == 1 {
        Some(c)
    } else if c + 1 < n {
        Some(c + 1)
    } else {
        None
    }
}

} // verus!
