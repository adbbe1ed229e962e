use vstd::prelude::*;

use crate::world::{index_of, lemma_index_unique, World};

verus! {

/// The settings of one run: the grid's size, how many frames to show, the
/// pause between frames, and the positions that start alive.
pub struct Config {
    pub width: usize,
    pub height: usize,
    pub iterations: usize,
    pub frame_delay_ms: u64,
    pub seed: Vec<(usize, usize)>,
}

impl Config {
    /// A run can start: the grid has positive dimensions, its cell count fits
    /// in `usize`, and every seed position lies inside it.
    pub open spec fn valid(&self) -> bool {
        &&& self.width > 0
        &&& self.height > 0
        &&& self.width * self.height <= usize::MAX
        &&& forall|k: int|
            0 <= k < self.seed@.len() ==> (#[trigger] self.seed@[k]).0 < self.width
                && self.seed@[k].1 < self.height
    }

    /// The standard run: a glider on a 40 by 20 grid, 80 frames 10 ms apart.
    pub fn glider() -> (r: Config)
        ensures
            r.width == 40,
            r.height == 20,
            r.iterations == 80,
            r.frame_delay_ms == 10,
            r.seed@ == seq![(2usize, 1usize), (3, 2), (1, 3), (2, 3), (3, 3)],
            r.valid(),
    {
        let seed: Vec<(usize, usize)> = vec![(2, 1), (3, 2), (1, 3), (2, 3), (3, 3)];
        let r = Config { width: 40, height: 20, iterations: 80, frame_delay_ms: 10, seed };
        assert(r.seed@ =~= seq![(2usize, 1usize), (3, 2), (1, 3), (2, 3), (3, 3)]);
        r
    }

    /// Whether a run can start with these settings.
    pub fn is_valid(&self) -> (r: bool)
        ensures
            r == self.valid(),
    {
        if self.width == 0 || self.height == 0 {
            return false;
        }
        if self.width.checked_mul(self.height).is_none() {
            return false;
        }
        let mut k: usize = 0;
        while k < self.seed.len()
            invariant
                k <= self.seed@.len(),
                forall|j: int|
                    0 <= j < k ==> (#[trigger] self.seed@[j]).0 < self.width && self.seed@[j].1
                        < self.height,
            decreases self.seed@.len() - k,
        {
            let (x, y) = self.seed[k];
            if x >= self.width || y >= self.height {
                return false;
            }
            k = k + 1;
        }
        true
    }

    /// The first generation: a grid of the configured size in which exactly
    /// the seed positions are alive.
    pub fn initial_world(&self) -> (r: World)
        requires
            self.valid(),
        ensures
            r.wf(),
            r.width == self.width,
            r.height == self.height,
            forall|x: int, y: int|
                r.contains(x, y) ==> ((#[trigger] r.at(x, y)).value <==> self.seed@.contains(
                    (x as usize, y as usize),
                )),
    {
        let mut world = World::new(self.width, self.height);
        proof {
            assert forall|x: int, y: int| world.contains(x, y) implies !(#[trigger] world.at(
                x,
                y,
            )).value && !self.seed@.take(0).contains((x as usize, y as usize)) by {
                world.lemma_at(x, y);
            }
        }
        let mut k: usize = 0;
        while k < self.seed.len()
            invariant
                self.valid(),
                world.wf(),
                world.width == self.width,
                world.height == self.height,
                k <= self.seed@.len(),
                forall|x: int, y: int|
                    world.contains(x, y) ==> ((#[trigger] world.at(x, y)).value
                        <==> self.seed@.take(k as int).contains((x as usize, y as usize))),
            decreases self.seed@.len() - k,
        {
            let (sx, sy) = self.seed[k];
            let ghost before = world;
            world.set_cell(sx, sy);
            proof {
                let prefix = self.seed@.take(k as int);
                let grown = self.seed@.take(k + 1);
                assert(grown =~= prefix.push((sx, sy)));
                assert forall|x: int, y: int| world.contains(x, y) implies ((#[trigger] world.at(
                    x,
                    y,
                )).value <==> grown.contains((x as usize, y as usize))) by {
                    let p = (x as usize, y as usize);
                    before.lemma_at(x, y);
                    before.lemma_at(sx as int, sy as int);
                    if x == sx && y == sy {
                        assert(grown[k as int] == p);
                    } else {
                        let w = world.width as int;
                        if index_of(w, x, y) == index_of(w, sx as int, sy as int) {
                            lemma_index_unique(w, x, y, sx as int, sy as int);
                        }
                        if grown.contains(p) {
                            let j = choose|j: int| 0 <= j < grown.len() && grown[j] == p;
                            assert(prefix[j] == p);
                        }
                        if prefix.contains(p) {
                            let j = choose|j: int| 0 <= j < prefix.len() && prefix[j] == p;
                            assert(grown[j] == p);
                        }
                    }
                }
            }
            k = k + 1;
        }
        assert(self.seed@.take(self.seed@.len() as int) =~= self.seed@);
        world
    }
}

} // verus!
