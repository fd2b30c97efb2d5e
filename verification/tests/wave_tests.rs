use rand::SeedableRng;
use slot_algorithm::wave::{create_segment, create_wave};

#[test]
fn wave_ends_on_a_bound() {
    for seed in 0..50u64 {
        let mut rng = rand::rngs::StdRng::seed_from_u64(seed);
        let w = create_wave(5000, 0, 10_000, &mut rng);
        assert!(w.len() >= 135);
        assert!(w.len() <= 625);
        let last = *w.last().unwrap();
        assert!(last == 0 || last == 10_000);
    }
}

#[test]
fn wave_above_boundary_falls_to_baseline() {
    for seed in 0..20u64 {
        let mut rng = rand::rngs::StdRng::seed_from_u64(seed);
        let w = create_wave(20_000, 0, 10_000, &mut rng);
        assert_eq!(*w.last().unwrap(), 0);
    }
}

#[test]
fn wave_at_baseline_rises_to_boundary() {
    // at the baseline the only admissible target is the boundary
    for seed in 0..20u64 {
        let mut rng = rand::rngs::StdRng::seed_from_u64(seed);
        let w = create_wave(0, 0, 10_000, &mut rng);
        assert_eq!(*w.last().unwrap(), 10_000);
    }
}

#[test]
fn wave_respects_raised_baseline() {
    let mut rng = rand::rngs::StdRng::seed_from_u64(11);
    let w = create_wave(6000, 5000, 10_000, &mut rng);
    let last = *w.last().unwrap();
    assert!(last == 5000 || last == 10_000);
}

#[test]
fn create_segment_pops_front() {
    let mut waves = vec![7u64, 8, 9];
    let seg = create_segment(&mut waves, 3);
    assert_eq!(seg, (3, 7));
    assert_eq!(waves, vec![8, 9]);
}

#[test]
fn create_segment_on_empty_queue() {
    let mut waves: Vec<u64> = Vec::new();
    let seg = create_segment(&mut waves, 3);
    assert_eq!(seg, (3, 0));
    assert!(waves.is_empty());
}

#[test]
fn wave_sets_off_toward_its_target() {
    for seed in 0..50u64 {
        let mut rng = rand::rngs::StdRng::seed_from_u64(seed);
        let w = create_wave(5000, 0, 10_000, &mut rng);
        let last = *w.last().unwrap();
        if last == 10_000 {
            assert!(w[0] >= 5000);
        } else {
            assert!(w[0] <= 5000);
        }
    }
}
