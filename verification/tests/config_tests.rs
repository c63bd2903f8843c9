use entropy::config::{Config, ConfigError};
use entropy::grid::MAX_CELLS;
use entropy::random::UNIT;

fn sample() -> Config {
    Config { dims: (5, 7), hotspots: 3, sleep_interval_ms: 10, heat: UNIT / 2, size_factor: 4 }
}

#[test]
fn a_sound_configuration_passes() {
    assert_eq!(sample().validate(), Ok(()));
}

#[test]
fn zero_height_is_refused() {
    let config = Config { dims: (0, 7), ..sample() };
    assert_eq!(config.validate(), Err(ConfigError::InvalidDimensions));
}

#[test]
fn zero_width_is_refused() {
    let config = Config { dims: (5, 0), ..sample() };
    assert_eq!(config.validate(), Err(ConfigError::InvalidDimensions));
}

#[test]
fn a_grid_too_large_to_hold_is_refused() {
    let config = Config { dims: (2, MAX_CELLS), ..sample() };
    assert_eq!(config.validate(), Err(ConfigError::InvalidDimensions));
    let config = Config { dims: (usize::MAX, usize::MAX), ..sample() };
    assert_eq!(config.validate(), Err(ConfigError::InvalidDimensions));
}

#[test]
fn no_hotspot_is_refused() {
    let config = Config { hotspots: 0, ..sample() };
    assert_eq!(config.validate(), Err(ConfigError::InvalidHotspots));
}

#[test]
fn more_hotspots_than_cells_is_refused() {
    let config = Config { hotspots: 36, ..sample() };
    assert_eq!(config.validate(), Err(ConfigError::InvalidHotspots));
}

#[test]
fn one_hotspot_per_cell_passes() {
    let config = Config { hotspots: 35, ..sample() };
    assert_eq!(config.validate(), Ok(()));
}

#[test]
fn heat_above_one_is_refused() {
    let config = Config { heat: UNIT + 1, ..sample() };
    assert_eq!(config.validate(), Err(ConfigError::InvalidHeat));
    let config = Config { heat: u64::MAX, ..sample() };
    assert_eq!(config.validate(), Err(ConfigError::InvalidHeat));
}

#[test]
fn heat_of_zero_and_of_one_pass() {
    let config = Config { heat: 0, ..sample() };
    assert_eq!(config.validate(), Ok(()));
    let config = Config { heat: UNIT, ..sample() };
    assert_eq!(config.validate(), Ok(()));
}

#[test]
fn dimensions_are_judged_before_hotspots_before_heat() {
    let config = Config { dims: (0, 0), hotspots: 0, heat: u64::MAX, ..sample() };
    assert_eq!(config.validate(), Err(ConfigError::InvalidDimensions));
    let config = Config { hotspots: 0, heat: u64::MAX, ..sample() };
    assert_eq!(config.validate(), Err(ConfigError::InvalidHotspots));
}

#[test]
fn what_the_core_does_not_interpret_is_not_judged() {
    let config = Config { sleep_interval_ms: 0, size_factor: 0, ..sample() };
    assert_eq!(config.validate(), Ok(()));
}
