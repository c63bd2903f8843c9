use entropy::config::{Config, ConfigError};
use entropy::grid::Grid;
use entropy::hotspots::{fill_vacant, hotspot_energy, initialize, scatter, seed, MAX_REJECTIONS};
use entropy::random::{RandomSource, UNIT};

fn config(height: usize, width: usize, hotspots: usize) -> Config {
    Config { dims: (height, width), hotspots, sleep_interval_ms: 0, heat: UNIT, size_factor: 1 }
}

#[test]
fn hotspot_energy_is_the_squared_width_shared_out() {
    assert_eq!(hotspot_energy(5, 5, 1), 25);
    assert_eq!(hotspot_energy(5, 5, 2), 12);
    assert_eq!(hotspot_energy(5, 5, 25), 1);
    assert_eq!(hotspot_energy(4, 6, 5), 7);
    assert_eq!(hotspot_energy(6, 4, 5), 3);
    assert_eq!(hotspot_energy(1, 1, 1), 1);
}

#[test]
fn hotspot_energy_can_round_down_to_nothing() {
    assert_eq!(hotspot_energy(10, 2, 5), 0);
    assert_eq!(hotspot_energy(10, 2, 4), 1);
}

#[test]
fn hotspot_energy_of_the_widest_grid_fits() {
    assert_eq!(hotspot_energy(1, 268_435_455, 1), 268_435_455u64 * 268_435_455u64);
}

#[test]
fn fill_vacant_counts_vacant_cells_row_by_row() {
    let mut grid = Grid::zeros(2, 3).unwrap();
    grid.set(0, 1, 4);
    assert_eq!(fill_vacant(&mut grid, 1, 9), (0, 2));
    assert_eq!(grid.get(0, 2), 9);
    assert_eq!(grid.count_nonzero(), 2);
    assert_eq!(fill_vacant(&mut grid, 0, 9), (0, 0));
    assert_eq!(fill_vacant(&mut grid, 2, 9), (1, 2));
    assert_eq!(fill_vacant(&mut grid, 1, 9), (1, 1));
    assert_eq!(fill_vacant(&mut grid, 0, 9), (1, 0));
    assert_eq!(grid.count_nonzero(), 6);
    assert_eq!(grid.total(), 4 + 5 * 9);
}

#[test]
fn scatter_places_exactly_the_number_asked_for() {
    let mut rng = RandomSource::seeded(21);
    for hotspots in 0..=12 {
        let grid = scatter(3, 4, hotspots, 5, &mut rng);
        assert_eq!(grid.height(), 3);
        assert_eq!(grid.width(), 4);
        assert_eq!(grid.count_nonzero(), hotspots);
        assert_eq!(grid.total(), 5 * hotspots as u128);
        for row in 0..3 {
            for col in 0..4 {
                let held = grid.get(row, col);
                assert!(held == 0 || held == 5);
            }
        }
    }
}

#[test]
fn scatter_fills_a_large_grid_to_the_last_cell() {
    let mut rng = RandomSource::seeded(22);
    let cells = 40 * 40;
    assert!(cells > MAX_REJECTIONS);
    let grid = scatter(40, 40, cells, 1, &mut rng);
    assert_eq!(grid.count_nonzero(), cells);
    assert_eq!(grid.total(), cells as u128);
}

#[test]
fn scatter_of_nothing_leaves_nothing() {
    let mut rng = RandomSource::seeded(23);
    let grid = scatter(3, 3, 4, 0, &mut rng);
    assert_eq!(grid.count_nonzero(), 0);
    assert_eq!(grid.total(), 0);
}

#[test]
fn scatter_spreads_over_the_grid() {
    let mut rng = RandomSource::seeded(24);
    let mut hit = [[false; 3]; 3];
    for _ in 0..200 {
        let grid = scatter(3, 3, 1, 1, &mut rng);
        for row in 0..3 {
            for col in 0..3 {
                if grid.get(row, col) != 0 {
                    hit[row][col] = true;
                }
            }
        }
    }
    assert_eq!(hit, [[true; 3]; 3]);
}

#[test]
fn initialize_places_the_hotspots() {
    let mut rng = RandomSource::seeded(25);
    for hotspots in [1usize, 2, 3, 5, 24, 25] {
        let grid = initialize(&config(5, 5, hotspots), &mut rng).expect("the configuration is sound");
        let value = (5 * 5 * 5 / 5) / hotspots as u64;
        assert_eq!(grid.count_nonzero(), hotspots);
        for row in 0..5 {
            for col in 0..5 {
                let held = grid.get(row, col);
                assert!(held == 0 || held == value);
            }
        }
        assert_eq!(grid.total(), (hotspots as u64 * value) as u128);
    }
}

#[test]
fn initialize_with_one_hotspot_on_five_by_five_holds_twenty_five() {
    let mut rng = RandomSource::seeded(26);
    let grid = initialize(&config(5, 5, 1), &mut rng).unwrap();
    assert_eq!(grid.count_nonzero(), 1);
    assert_eq!(grid.total(), 25);
}

#[test]
fn initialize_on_a_tall_grid_can_seed_nothing() {
    let mut rng = RandomSource::seeded(27);
    let grid = initialize(&config(10, 2, 5), &mut rng).unwrap();
    assert_eq!(grid.count_nonzero(), 0);
    assert_eq!(grid.total(), 0);
}

#[test]
fn initialize_refuses_what_validation_refuses() {
    let mut rng = RandomSource::seeded(28);
    assert_eq!(initialize(&config(0, 5, 1), &mut rng).err(), Some(ConfigError::InvalidDimensions));
    assert_eq!(initialize(&config(5, 5, 0), &mut rng).err(), Some(ConfigError::InvalidHotspots));
    assert_eq!(initialize(&config(5, 5, 26), &mut rng).err(), Some(ConfigError::InvalidHotspots));
    let hot = Config { heat: UNIT + 1, ..config(5, 5, 1) };
    assert_eq!(initialize(&hot, &mut rng).err(), Some(ConfigError::InvalidHeat));
}

#[test]
fn seed_places_the_hotspots() {
    let mut rng = RandomSource::seeded(29);
    let grid = seed(&config(4, 6, 5), &mut rng);
    assert_eq!(grid.height(), 4);
    assert_eq!(grid.width(), 6);
    assert_eq!(grid.count_nonzero(), 5);
    assert_eq!(grid.total(), 35);
}
