use entropy::continuous::{draw_spread, plan_step};
use entropy::hotspots::scatter;
use entropy::neighborhood::anchored_patch;
use entropy::random::RandomSource;

fn real_grid(height: usize, width: usize, hotspots: usize, rng: &mut RandomSource) -> Vec<Vec<f64>> {
    let marks = scatter(height, width, hotspots, 1, rng);
    let (h, w, k) = (height as f64, width as f64, hotspots as f64);
    let value = (h * w * w / h) / k;
    let mut rows = vec![vec![0.0; width]; height];
    for row in 0..height {
        for col in 0..width {
            if marks.get(row, col) != 0 {
                rows[row][col] = value;
            }
        }
    }
    rows
}

fn real_step(lagged: &mut Vec<Vec<f64>>, working: &mut Vec<Vec<f64>>, rng: &mut RandomSource) {
    let height = lagged.len();
    let width = lagged[0].len();
    let plan = plan_step(height, width, rng);
    for row in 0..height {
        for col in 0..width {
            let energy = lagged[row][col];
            let spread = &plan[row][col];
            for slot in 0..spread.patch.count() {
                let (r, c) = spread.patch.cell(slot);
                let weight = spread.weights.share(slot) as f64 / spread.weights.total() as f64;
                working[r][c] += energy * weight;
            }
        }
    }
    lagged.clone_from(working);
    for cells in working.iter_mut() {
        cells.fill(0.0);
    }
}

fn real_total(rows: &Vec<Vec<f64>>) -> f64 {
    rows.iter().map(|cells| cells.iter().sum::<f64>()).sum()
}

#[test]
fn draw_spread_has_a_weight_for_every_cell_of_the_patch() {
    let mut rng = RandomSource::seeded(51);
    for row in 0..5 {
        for col in 0..6 {
            let spread = draw_spread(5, 6, row, col, &mut rng);
            assert_eq!(spread.patch, anchored_patch(5, 6, row, col));
            assert_eq!(spread.weights.len(), spread.patch.count());
            let mut sum = 0;
            for slot in 0..spread.weights.len() {
                sum += spread.weights.share(slot);
            }
            assert_eq!(sum, spread.weights.total());
        }
    }
}

#[test]
fn plan_step_has_a_spread_for_every_cell() {
    let mut rng = RandomSource::seeded(52);
    let plan = plan_step(4, 7, &mut rng);
    assert_eq!(plan.len(), 4);
    for row in 0..4 {
        assert_eq!(plan[row].len(), 7);
        for col in 0..7 {
            assert_eq!(plan[row][col].patch, anchored_patch(4, 7, row, col));
            assert_eq!(plan[row][col].weights.len(), plan[row][col].patch.count());
        }
    }
}

#[test]
fn plan_step_on_the_smallest_grid() {
    let mut rng = RandomSource::seeded(53);
    let plan = plan_step(2, 2, &mut rng);
    for row in 0..2 {
        for col in 0..2 {
            assert_eq!(plan[row][col].patch.count(), 4);
            assert_eq!(plan[row][col].weights.len(), 4);
        }
    }
}

#[test]
fn one_hotspot_on_five_by_five_keeps_twenty_five_through_a_step() {
    let mut rng = RandomSource::seeded(54);
    let mut lagged = real_grid(5, 5, 1, &mut rng);
    let mut working = vec![vec![0.0; 5]; 5];
    let mut hotspot = (0, 0);
    for row in 0..5 {
        for col in 0..5 {
            if lagged[row][col] != 0.0 {
                hotspot = (row, col);
            }
        }
    }
    assert_eq!(lagged[hotspot.0][hotspot.1], 25.0);
    assert_eq!(real_total(&lagged), 25.0);
    real_step(&mut lagged, &mut working, &mut rng);
    assert!((real_total(&lagged) - 25.0).abs() <= 1e-9);
    assert!(lagged[hotspot.0][hotspot.1] != 25.0);
    assert!(lagged[hotspot.0][hotspot.1] < 25.0);
}

#[test]
fn the_real_valued_rule_conserves_energy_over_many_steps() {
    let mut rng = RandomSource::seeded(55);
    for (height, width, hotspots) in [(2, 2, 1), (4, 4, 3), (5, 8, 7), (9, 3, 2)] {
        let mut lagged = real_grid(height, width, hotspots, &mut rng);
        let mut working = vec![vec![0.0; width]; height];
        let total = real_total(&lagged);
        assert!((total - (width * width) as f64).abs() <= 1e-9 * total);
        for _ in 0..50 {
            real_step(&mut lagged, &mut working, &mut rng);
            assert!((real_total(&lagged) - total).abs() <= 1e-9 * total);
            assert_eq!(real_total(&working), 0.0);
        }
    }
}

#[test]
fn the_real_valued_rule_keeps_energy_within_the_patch() {
    let mut rng = RandomSource::seeded(56);
    let mut lagged = vec![vec![0.0; 6]; 6];
    lagged[0][3] = 8.0;
    let mut working = vec![vec![0.0; 6]; 6];
    real_step(&mut lagged, &mut working, &mut rng);
    let mut inside = 0.0;
    for row in 0..2 {
        for col in 2..5 {
            inside += lagged[row][col];
        }
    }
    assert!((inside - 8.0).abs() <= 1e-9);
    assert!((real_total(&lagged) - 8.0).abs() <= 1e-9);
}
