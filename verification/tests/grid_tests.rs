use entropy::grid::{check_shape, Grid, MAX_CELLS};

#[test]
fn zeros_has_the_shape_asked_for() {
    let grid = Grid::zeros(2, 3).expect("a two by three grid can be held");
    assert_eq!(grid.height(), 2);
    assert_eq!(grid.width(), 3);
    assert_eq!(grid.total(), 0);
    assert_eq!(grid.count_nonzero(), 0);
    for row in 0..2 {
        for col in 0..3 {
            assert_eq!(grid.get(row, col), 0);
        }
    }
}

#[test]
fn zeros_refuses_an_empty_side() {
    assert!(Grid::zeros(0, 3).is_none());
    assert!(Grid::zeros(3, 0).is_none());
    assert!(Grid::zeros(0, 0).is_none());
}

#[test]
fn zeros_refuses_too_many_cells() {
    assert!(Grid::zeros(1, MAX_CELLS + 1).is_none());
    assert!(Grid::zeros(MAX_CELLS + 1, 1).is_none());
    assert!(Grid::zeros(1 << 14, (1 << 14) + 1).is_none());
    assert!(Grid::zeros(usize::MAX, usize::MAX).is_none());
}

#[test]
fn check_shape_draws_the_line_at_max_cells() {
    assert!(check_shape(1, 1));
    assert!(check_shape(1, MAX_CELLS));
    assert!(check_shape(MAX_CELLS, 1));
    assert!(check_shape(16383, 16384));
    assert!(!check_shape(16384, 16384));
    assert!(!check_shape(1, MAX_CELLS + 1));
    assert!(!check_shape(0, 1));
    assert!(!check_shape(usize::MAX, 2));
}

#[test]
fn set_changes_one_cell_only() {
    let mut grid = Grid::zeros(3, 4).unwrap();
    grid.set(1, 2, 7);
    for row in 0..3 {
        for col in 0..4 {
            let expected = if (row, col) == (1, 2) { 7 } else { 0 };
            assert_eq!(grid.get(row, col), expected);
        }
    }
    assert_eq!(grid.height(), 3);
    assert_eq!(grid.width(), 4);
}

#[test]
fn rows_and_columns_are_not_mixed_up() {
    let mut grid = Grid::zeros(2, 5).unwrap();
    grid.set(1, 4, 9);
    grid.set(0, 3, 5);
    assert_eq!(grid.get(1, 4), 9);
    assert_eq!(grid.get(0, 3), 5);
    assert_eq!(grid.get(0, 4), 0);
    assert_eq!(grid.get(1, 3), 0);
}

#[test]
fn credit_adds_to_what_is_there() {
    let mut grid = Grid::zeros(2, 2).unwrap();
    grid.credit(0, 1, 5);
    grid.credit(0, 1, 6);
    grid.credit(1, 0, 1);
    assert_eq!(grid.get(0, 1), 11);
    assert_eq!(grid.get(1, 0), 1);
    assert_eq!(grid.total(), 12);
}

#[test]
fn total_adds_up_all_cells() {
    let mut grid = Grid::zeros(2, 3).unwrap();
    grid.set(0, 0, 1);
    grid.set(0, 2, 20);
    grid.set(1, 1, 300);
    assert_eq!(grid.total(), 321);
    assert_eq!(grid.count_nonzero(), 3);
}

#[test]
fn total_does_not_overflow_on_full_cells() {
    let mut grid = Grid::zeros(2, 2).unwrap();
    for row in 0..2 {
        for col in 0..2 {
            grid.set(row, col, u64::MAX);
        }
    }
    assert_eq!(grid.total(), 4 * (u64::MAX as u128));
    assert_eq!(grid.count_nonzero(), 4);
}

#[test]
fn clear_leaves_nothing() {
    let mut grid = Grid::zeros(3, 3).unwrap();
    grid.set(0, 0, 4);
    grid.set(2, 2, 4);
    grid.clear();
    assert_eq!(grid.total(), 0);
    assert_eq!(grid.count_nonzero(), 0);
    assert_eq!(grid.height(), 3);
    assert_eq!(grid.width(), 3);
    for row in 0..3 {
        for col in 0..3 {
            assert_eq!(grid.get(row, col), 0);
        }
    }
}

#[test]
fn copy_from_takes_cells_and_shape() {
    let mut source = Grid::zeros(2, 3).unwrap();
    source.set(0, 1, 8);
    source.set(1, 2, 9);
    let mut target = Grid::zeros(4, 4).unwrap();
    target.set(3, 3, 1);
    target.copy_from(&source);
    assert_eq!(target.height(), 2);
    assert_eq!(target.width(), 3);
    for row in 0..2 {
        for col in 0..3 {
            assert_eq!(target.get(row, col), source.get(row, col));
        }
    }
    assert_eq!(target.total(), 17);
}

#[test]
fn copy_from_is_a_copy_not_a_link() {
    let mut source = Grid::zeros(2, 2).unwrap();
    source.set(0, 0, 3);
    let mut target = Grid::zeros(2, 2).unwrap();
    target.copy_from(&source);
    source.set(0, 0, 5);
    source.clear();
    assert_eq!(target.get(0, 0), 3);
}
