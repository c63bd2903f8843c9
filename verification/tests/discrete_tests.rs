use entropy::config::Config;
use entropy::discrete::{diffuse_cell, spread, step};
use entropy::grid::Grid;
use entropy::hotspots::initialize;
use entropy::neighborhood::{moore_patch, Patch};
use entropy::random::{RandomSource, UNIT};

fn config(height: usize, width: usize, hotspots: usize, heat: u64) -> Config {
    Config { dims: (height, width), hotspots, sleep_interval_ms: 0, heat, size_factor: 1 }
}

fn rows(grid: &Grid) -> Vec<Vec<u64>> {
    let mut rows = Vec::new();
    for row in 0..grid.height() {
        let mut cells = Vec::new();
        for col in 0..grid.width() {
            cells.push(grid.get(row, col));
        }
        rows.push(cells);
    }
    rows
}

#[test]
fn spread_credits_slots_in_order_and_the_remainder_to_the_lucky_one() {
    let mut grid = Grid::zeros(3, 3).unwrap();
    let patch = Patch { top: 0, left: 1, rows: 2, cols: 2 };
    spread(&mut grid, patch, 10, &vec![1, 2, 3], 3);
    assert_eq!(rows(&grid), vec![vec![0, 1, 2], vec![0, 3, 4], vec![0, 0, 0]]);
}

#[test]
fn spread_can_credit_the_lucky_slot_twice() {
    let mut grid = Grid::zeros(3, 3).unwrap();
    let patch = Patch { top: 0, left: 1, rows: 2, cols: 2 };
    spread(&mut grid, patch, 10, &vec![1, 2, 3], 1);
    assert_eq!(rows(&grid), vec![vec![0, 1, 6], vec![0, 3, 0], vec![0, 0, 0]]);
}

#[test]
fn spread_adds_to_what_is_there() {
    let mut grid = Grid::zeros(2, 2).unwrap();
    grid.set(0, 0, 100);
    grid.set(1, 1, 7);
    let patch = Patch { top: 0, left: 0, rows: 2, cols: 2 };
    spread(&mut grid, patch, 5, &vec![1, 1, 1], 0);
    assert_eq!(rows(&grid), vec![vec![103, 1], vec![1, 7]]);
    assert_eq!(grid.total(), 112);
}

#[test]
fn diffuse_cell_from_the_middle_on_equal_draws() {
    let mut grid = Grid::zeros(3, 3).unwrap();
    diffuse_cell(&mut grid, 1, 1, 10, vec![1; 8], 8);
    assert_eq!(rows(&grid), vec![vec![1, 1, 1], vec![1, 1, 1], vec![1, 1, 2]]);
    assert_eq!(grid.total(), 10);
}

#[test]
fn diffuse_cell_can_give_the_remainder_to_the_cell_itself() {
    let mut grid = Grid::zeros(3, 3).unwrap();
    diffuse_cell(&mut grid, 1, 1, 10, vec![1; 8], 4);
    assert_eq!(rows(&grid), vec![vec![1, 1, 1], vec![1, 3, 1], vec![1, 1, 0]]);
}

#[test]
fn diffuse_cell_from_a_corner_by_unequal_draws() {
    let mut grid = Grid::zeros(3, 3).unwrap();
    diffuse_cell(&mut grid, 0, 0, 9, vec![2, 1, 1], 3);
    assert_eq!(rows(&grid), vec![vec![4, 2, 0], vec![2, 1, 0], vec![0, 0, 0]]);
}

#[test]
fn diffuse_cell_from_the_rim() {
    let mut grid = Grid::zeros(3, 4).unwrap();
    diffuse_cell(&mut grid, 2, 1, 100, vec![1, 2, 3, 4, 0], 0);
    assert_eq!(rows(&grid), vec![vec![0, 0, 0, 0], vec![10, 20, 30, 0], vec![40, 0, 0, 0]]);
    let mut grid = Grid::zeros(3, 4).unwrap();
    diffuse_cell(&mut grid, 2, 1, 101, vec![1, 2, 3, 4, 0], 5);
    assert_eq!(rows(&grid), vec![vec![0, 0, 0, 0], vec![10, 20, 30, 0], vec![40, 0, 1, 0]]);
}

#[test]
fn diffuse_cell_on_zero_draws_shares_equally() {
    let mut grid = Grid::zeros(2, 2).unwrap();
    diffuse_cell(&mut grid, 1, 1, 10, vec![0, 0, 0], 3);
    assert_eq!(rows(&grid), vec![vec![3, 3], vec![3, 1]]);
}

#[test]
fn diffuse_cell_on_a_single_cell_keeps_the_energy() {
    let mut grid = Grid::zeros(1, 1).unwrap();
    diffuse_cell(&mut grid, 0, 0, 42, vec![], 0);
    assert_eq!(grid.get(0, 0), 42);
}

#[test]
fn diffuse_cell_hands_out_all_of_the_energy() {
    let mut rng = RandomSource::seeded(31);
    for energy in [0u64, 1, 2, 9, 1000, 1 << 40] {
        for row in 0..4 {
            for col in 0..5 {
                let mut grid = Grid::zeros(4, 5).unwrap();
                let patch = moore_patch(4, 5, row, col);
                let mut draws = Vec::new();
                for _ in 1..patch.count() {
                    draws.push(rng.fraction());
                }
                let lucky = rng.index_below(patch.count());
                diffuse_cell(&mut grid, row, col, energy, draws, lucky);
                assert_eq!(grid.total(), energy as u128);
                for r in 0..4 {
                    for c in 0..5 {
                        let inside = r + 1 >= row && r <= row + 1 && c + 1 >= col && c <= col + 1;
                        assert!(inside || grid.get(r, c) == 0);
                    }
                }
            }
        }
    }
}

#[test]
fn step_at_full_heat_conserves_energy() {
    let mut rng = RandomSource::seeded(32);
    let config = config(6, 7, 5, UNIT);
    let mut lagged = initialize(&config, &mut rng).unwrap();
    let mut working = Grid::zeros(6, 7).unwrap();
    let total = lagged.total();
    assert_eq!(total, 45);
    for _ in 0..30 {
        step(&mut lagged, &mut working, &config, &mut rng);
        assert_eq!(lagged.total(), total);
    }
}

#[test]
fn step_leaves_the_working_grid_empty() {
    let mut rng = RandomSource::seeded(33);
    let config = config(5, 5, 3, UNIT / 2);
    let mut lagged = initialize(&config, &mut rng).unwrap();
    let mut working = Grid::zeros(5, 5).unwrap();
    for _ in 0..10 {
        step(&mut lagged, &mut working, &config, &mut rng);
        assert_eq!(working.total(), 0);
        assert_eq!(working.count_nonzero(), 0);
        assert_eq!(working.height(), 5);
        assert_eq!(working.width(), 5);
    }
}

#[test]
fn step_moves_energy() {
    let mut rng = RandomSource::seeded(34);
    let config = config(5, 5, 1, UNIT);
    let mut lagged = Grid::zeros(5, 5).unwrap();
    lagged.set(2, 2, 1_000_000);
    let mut working = Grid::zeros(5, 5).unwrap();
    step(&mut lagged, &mut working, &config, &mut rng);
    assert_eq!(lagged.total(), 1_000_000);
    assert!(lagged.get(2, 2) < 1_000_000);
    assert!(lagged.count_nonzero() > 1);
}

#[test]
fn step_keeps_energy_within_the_neighborhood() {
    let mut rng = RandomSource::seeded(35);
    let config = config(7, 7, 1, UNIT);
    let mut lagged = Grid::zeros(7, 7).unwrap();
    lagged.set(3, 3, 1000);
    let mut working = Grid::zeros(7, 7).unwrap();
    step(&mut lagged, &mut working, &config, &mut rng);
    let mut inside: u64 = 0;
    for row in 2..5 {
        for col in 2..5 {
            inside += lagged.get(row, col);
        }
    }
    assert_eq!(inside, 1000);
    assert_eq!(lagged.total(), 1000);
}

#[test]
fn step_without_heat_drops_the_energy() {
    let mut rng = RandomSource::seeded(36);
    let config = config(5, 5, 5, 0);
    let mut lagged = initialize(&config, &mut rng).unwrap();
    let mut working = Grid::zeros(5, 5).unwrap();
    assert_eq!(lagged.total(), 25);
    step(&mut lagged, &mut working, &config, &mut rng);
    assert_eq!(lagged.total(), 0);
}

#[test]
fn step_at_partial_heat_never_makes_energy() {
    let mut rng = RandomSource::seeded(37);
    let config = config(8, 8, 16, UNIT / 2);
    let mut lagged = initialize(&config, &mut rng).unwrap();
    let mut working = Grid::zeros(8, 8).unwrap();
    let mut before = lagged.total();
    assert_eq!(before, 64);
    let mut lost = false;
    for _ in 0..20 {
        step(&mut lagged, &mut working, &config, &mut rng);
        let after = lagged.total();
        assert!(after <= before);
        if after < before {
            lost = true;
        }
        before = after;
    }
    assert!(lost);
}

#[test]
fn step_adds_what_the_working_grid_held() {
    let mut rng = RandomSource::seeded(38);
    let config = config(3, 3, 1, UNIT);
    let mut lagged = Grid::zeros(3, 3).unwrap();
    lagged.set(1, 1, 90);
    let mut working = Grid::zeros(3, 3).unwrap();
    working.set(0, 0, 7);
    step(&mut lagged, &mut working, &config, &mut rng);
    assert_eq!(lagged.total(), 97);
    assert!(lagged.get(0, 0) >= 7);
    assert_eq!(working.total(), 0);
}

#[test]
fn step_on_a_single_cell_at_full_heat_changes_nothing() {
    let mut rng = RandomSource::seeded(39);
    let config = config(1, 1, 1, UNIT);
    let mut lagged = initialize(&config, &mut rng).unwrap();
    let mut working = Grid::zeros(1, 1).unwrap();
    assert_eq!(lagged.get(0, 0), 1);
    for _ in 0..5 {
        step(&mut lagged, &mut working, &config, &mut rng);
        assert_eq!(lagged.get(0, 0), 1);
    }
}

#[test]
fn step_is_fixed_by_the_seed() {
    let config = config(6, 6, 4, UNIT / 3);
    let mut grids = Vec::new();
    for _ in 0..2 {
        let mut rng = RandomSource::seeded(40);
        let mut lagged = initialize(&config, &mut rng).unwrap();
        let mut working = Grid::zeros(6, 6).unwrap();
        for _ in 0..5 {
            step(&mut lagged, &mut working, &config, &mut rng);
        }
        grids.push(rows(&lagged));
    }
    assert_eq!(grids[0], grids[1]);
}
