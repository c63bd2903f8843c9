use entropy::random::{RandomSource, UNIT};

#[test]
fn unit_is_two_to_the_fifty_third() {
    assert_eq!(UNIT, 1u64 << 53);
}

#[test]
fn below_stays_below_its_bound() {
    let mut rng = RandomSource::seeded(1);
    for bound in [1u64, 2, 3, 9, 10, 1000, u64::MAX] {
        for _ in 0..200 {
            assert!(rng.below(bound) < bound);
        }
    }
}

#[test]
fn below_one_is_zero() {
    let mut rng = RandomSource::seeded(2);
    for _ in 0..50 {
        assert_eq!(rng.below(1), 0);
        assert_eq!(rng.index_below(1), 0);
    }
}

#[test]
fn below_reaches_every_value() {
    let mut rng = RandomSource::seeded(3);
    let mut seen = [false; 4];
    for _ in 0..400 {
        seen[rng.below(4) as usize] = true;
    }
    assert_eq!(seen, [true; 4]);
}

#[test]
fn index_below_stays_below_its_bound() {
    let mut rng = RandomSource::seeded(4);
    for bound in [1usize, 2, 5, 9, 4096] {
        for _ in 0..200 {
            assert!(rng.index_below(bound) < bound);
        }
    }
}

#[test]
fn fraction_stays_below_unit() {
    let mut rng = RandomSource::seeded(5);
    let mut above_half = 0;
    for _ in 0..1000 {
        let drawn = rng.fraction();
        assert!(drawn < UNIT);
        if drawn >= UNIT / 2 {
            above_half += 1;
        }
    }
    assert!(above_half > 300 && above_half < 700);
}

#[test]
fn the_same_seed_gives_the_same_stream() {
    let mut first = RandomSource::seeded(99);
    let mut second = RandomSource::seeded(99);
    for _ in 0..100 {
        assert_eq!(first.fraction(), second.fraction());
    }
}

#[test]
fn different_seeds_give_different_streams() {
    let mut first = RandomSource::seeded(1);
    let mut second = RandomSource::seeded(2);
    let mut same = 0;
    for _ in 0..100 {
        if first.fraction() == second.fraction() {
            same += 1;
        }
    }
    assert!(same < 100);
}
