use vstd::prelude::*;

verus! {

/// The transition of one cell: a live cell survives with two or three live
/// neighbours, a dead cell is born with exactly three.
pub open spec fn conway(alive: bool, live_neighbors: int) -> bool {
    if alive {
        live_neighbors == 2 || live_neighbors == 3
    } else {
        live_neighbors == 3
    }
}

/// The next state of a cell that is `alive` now and has `neighbors` live
/// neighbours.
pub fn rule(alive: bool, neighbors: usize) -> (r: bool)
    ensures
        r == conway(alive, neighbors as int),
{
    if alive {
        neighbors == 2 || neighbors == 3
    } else {
        neighbors == 3
    }
}

} // verus!
