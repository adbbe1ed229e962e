use life::cell::Cell;
use life::rule::rule;
use life::simulation::Config;
use life::world::World;

fn seeded(width: usize, height: usize, live: &[(usize, usize)]) -> World {
    let mut w = World::new(width, height);
    for &(x, y) in live {
        w.set_cell(x, y);
    }
    w
}

fn live_set(w: &World) -> Vec<(usize, usize)> {
    let mut v: Vec<(usize, usize)> = w.cells.iter().filter(|c| c.value).map(|c| (c.x, c.y)).collect();
    v.sort();
    v
}

fn sorted(mut v: Vec<(usize, usize)>) -> Vec<(usize, usize)> {
    v.sort();
    v
}

#[test]
fn rule_follows_conway() {
    assert!(rule(true, 2));
    assert!(rule(true, 3));
    assert!(!rule(true, 1));
    assert!(!rule(true, 4));
    assert!(rule(false, 3));
    assert!(!rule(false, 2));
    assert!(!rule(true, 0));
    assert!(!rule(false, 0));
    assert!(!rule(false, 8));
}

#[test]
fn new_grid_is_dead_and_addressed() {
    for &(w, h) in &[(1usize, 1usize), (5, 3), (3, 5), (40, 20)] {
        let g = World::new(w, h);
        assert_eq!(g.cells.len(), w * h);
        assert_eq!(g.width, w);
        assert_eq!(g.height, h);
        assert!(g.cells.iter().all(|c| !c.value));
        for y in 0..h {
            for x in 0..w {
                let c = g.cell_at(x, y);
                assert_eq!((c.x, c.y), (x, y));
                assert!(!c.value);
            }
        }
    }
}

#[test]
fn set_cell_marks_only_that_cell() {
    let mut g = World::new(4, 3);
    g.set_cell(2, 1);
    assert!(g.cell_at(2, 1).value);
    assert_eq!((g.cell_at(2, 1).x, g.cell_at(2, 1).y), (2, 1));
    assert_eq!(live_set(&g), vec![(2, 1)]);
    assert!(g.cells[1 * 4 + 2].value);
}

#[test]
fn neighbor_counts_by_position() {
    let g = World::new(5, 4);
    let count = |x: usize, y: usize| g.neighbors(g.cell_at(x, y)).len();
    assert_eq!(count(2, 1), 8);
    assert_eq!(count(3, 2), 8);
    assert_eq!(count(0, 0), 3);
    assert_eq!(count(4, 0), 3);
    assert_eq!(count(0, 3), 3);
    assert_eq!(count(4, 3), 3);
    assert_eq!(count(2, 0), 5);
    assert_eq!(count(0, 2), 5);
    assert_eq!(count(4, 1), 5);
    assert_eq!(count(1, 3), 5);
}

#[test]
fn neighbors_on_thin_grids() {
    let row = World::new(3, 1);
    assert_eq!(row.neighbors(row.cell_at(1, 0)).len(), 2);
    assert_eq!(row.neighbors(row.cell_at(0, 0)).len(), 1);
    let single = World::new(1, 1);
    assert_eq!(single.neighbors(single.cell_at(0, 0)).len(), 0);
}

#[test]
fn neighbors_exclude_self_and_stay_in_bounds() {
    let g = World::new(4, 4);
    for y in 0..4 {
        for x in 0..4 {
            for n in g.neighbors(g.cell_at(x, y)) {
                assert!(n.x < 4 && n.y < 4);
                assert!(!(n.x == x && n.y == y));
                assert!(n.x + 1 >= x && n.x <= x + 1 && n.y + 1 >= y && n.y <= y + 1);
            }
        }
    }
}

#[test]
fn neighbors_come_in_scan_order() {
    let g = World::new(3, 3);
    let got: Vec<(usize, usize)> = g.neighbors(g.cell_at(1, 1)).iter().map(|c| (c.x, c.y)).collect();
    assert_eq!(got, vec![(0, 0), (1, 0), (2, 0), (0, 1), (2, 1), (0, 2), (1, 2), (2, 2)]);
    let corner: Vec<(usize, usize)> = g.neighbors(g.cell_at(2, 2)).iter().map(|c| (c.x, c.y)).collect();
    assert_eq!(corner, vec![(1, 1), (2, 1), (1, 2)]);
}

#[test]
fn neighbors_of_an_outside_cell_value() {
    let g = World::new(3, 3);
    let probe = Cell { value: true, x: 0, y: 1 };
    let got: Vec<(usize, usize)> = g.neighbors(&probe).iter().map(|c| (c.x, c.y)).collect();
    assert_eq!(got, vec![(0, 0), (1, 0), (1, 1), (0, 2), (1, 2)]);
}

#[test]
fn alive_neighbors_keeps_live_ones() {
    let g = seeded(4, 4, &[(0, 0), (2, 0), (1, 1), (3, 3), (1, 2)]);
    let got: Vec<(usize, usize)> = g.alive_neighbors(g.cell_at(1, 1)).iter().map(|c| (c.x, c.y)).collect();
    assert_eq!(got, vec![(0, 0), (2, 0), (1, 2)]);
    assert!(g.alive_neighbors(g.cell_at(3, 3)).is_empty());
    assert_eq!(g.alive_neighbors(g.cell_at(0, 1)).len(), 3);
}

#[test]
fn advance_is_simultaneous() {
    let g = seeded(3, 3, &[(0, 1), (1, 1), (2, 1)]);
    let next = g.advance(rule);
    assert_eq!(live_set(&next), vec![(1, 0), (1, 1), (1, 2)]);
    assert_eq!(live_set(&g), vec![(0, 1), (1, 1), (2, 1)]);
    let back = next.advance(rule);
    assert_eq!(live_set(&back), vec![(0, 1), (1, 1), (2, 1)]);
    for (i, c) in next.cells.iter().enumerate() {
        assert_eq!((c.x, c.y), (i % 3, i / 3));
    }
}

#[test]
fn advance_takes_any_rule() {
    let g = seeded(3, 2, &[(0, 0)]);
    let all = g.advance(|_, _| true);
    assert!(all.cells.iter().all(|c| c.value));
    let flipped = g.advance(|alive, _| !alive);
    assert_eq!(live_set(&flipped), vec![(0, 1), (1, 0), (1, 1), (2, 0), (2, 1)]);
    let counts = g.advance(|_, n| n == 1);
    assert_eq!(live_set(&counts), vec![(0, 1), (1, 0), (1, 1)]);
}

#[test]
fn next_generation_matches_advance() {
    let g = seeded(7, 7, &[(1, 2), (2, 2), (3, 2), (6, 6)]);
    assert_eq!(live_set(&g.next_generation()), live_set(&g.advance(rule)));
    assert_eq!(live_set(&g.next_generation()), vec![(2, 1), (2, 2), (2, 3)]);
}

#[test]
fn glider_moves_one_cell_diagonally_in_four_generations() {
    let start = [(2usize, 1usize), (3, 2), (1, 3), (2, 3), (3, 3)];
    let mut g = seeded(8, 8, &start);
    for _ in 0..4 {
        g = g.advance(rule);
    }
    let moved: Vec<(usize, usize)> = start.iter().map(|&(x, y)| (x + 1, y + 1)).collect();
    assert_eq!(live_set(&g), sorted(moved));
}

#[test]
fn block_is_a_still_life() {
    let block = vec![(1usize, 1usize), (2, 1), (1, 2), (2, 2)];
    let mut g = seeded(4, 4, &block);
    for _ in 0..10 {
        g = g.advance(rule);
        assert_eq!(live_set(&g), sorted(block.clone()));
    }
}

#[test]
fn lone_cell_dies() {
    let g = seeded(5, 5, &[(2, 2)]);
    let next = g.advance(rule);
    assert!(next.cells.iter().all(|c| !c.value));
    let corner = seeded(3, 3, &[(0, 0)]);
    assert!(corner.next_generation().cells.iter().all(|c| !c.value));
}

#[test]
fn render_draws_rows() {
    let g = seeded(3, 2, &[(0, 0), (2, 1)]);
    assert_eq!(g.render(), "X  \n  X\n");
    let empty = World::new(2, 2);
    assert_eq!(empty.render(), "  \n  \n");
    let one = seeded(1, 1, &[(0, 0)]);
    assert_eq!(one.render(), "X\n");
}

#[test]
fn glider_config_is_standard() {
    let c = Config::glider();
    assert_eq!((c.width, c.height, c.iterations, c.frame_delay_ms), (40, 20, 80, 10));
    assert_eq!(c.seed, vec![(2, 1), (3, 2), (1, 3), (2, 3), (3, 3)]);
    assert!(c.is_valid());
    let w = c.initial_world();
    assert_eq!((w.width, w.height), (40, 20));
    assert_eq!(live_set(&w), sorted(c.seed.clone()));
}

#[test]
fn invalid_configs_are_refused() {
    let base = Config::glider();
    let zero_width = Config { width: 0, seed: vec![], ..Config::glider() };
    assert!(!zero_width.is_valid());
    let zero_height = Config { height: 0, seed: vec![], ..Config::glider() };
    assert!(!zero_height.is_valid());
    let outside = Config { seed: vec![(1, 1), (40, 0)], ..Config::glider() };
    assert!(!outside.is_valid());
    let too_big = Config { width: usize::MAX, height: 2, seed: vec![], ..Config::glider() };
    assert!(!too_big.is_valid());
    let edge = Config { seed: vec![(39, 19), (0, 0), (39, 19)], ..base };
    assert!(edge.is_valid());
    assert_eq!(live_set(&edge.initial_world()), vec![(0, 0), (39, 19)]);
}
