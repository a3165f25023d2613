use central_limit::engine::{
    bin_endpoints, generate, generate_from_draws, walk_endpoint, Bucket, SimulationConfig,
};
use central_limit::state::{App, DEFAULT_SAMPLE_COUNT, DEFAULT_WALK_LENGTH};
use rand::rngs::StdRng;
use rand::SeedableRng;

fn config(sample_count: usize, walk_length: u32) -> SimulationConfig {
    SimulationConfig { sample_count, walk_length }
}

fn labels_of(frame: &[Bucket]) -> Vec<i64> {
    frame.iter().map(|b| b.label).collect()
}

fn count_at(frame: &[Bucket], label: i64) -> u64 {
    frame.iter().find(|b| b.label == label).map(|b| b.count).unwrap()
}

#[test]
fn walk_endpoint_sums_steps() {
    assert_eq!(walk_endpoint(&vec![]), 0);
    assert_eq!(walk_endpoint(&vec![0, 9, 9, 3, 7]), 1);
    assert_eq!(walk_endpoint(&vec![4, 4, 4]), -3);
    assert_eq!(walk_endpoint(&vec![5, 6, 7]), 3);
}

#[test]
fn bin_endpoints_counts_each_label() {
    let frame = bin_endpoints(1, &vec![1, -1, 1]);
    assert_eq!(
        frame,
        vec![
            Bucket { label: -3, count: 0 },
            Bucket { label: -1, count: 1 },
            Bucket { label: 1, count: 2 },
            Bucket { label: 3, count: 0 },
        ]
    );
}

#[test]
fn bin_endpoints_ignores_even_and_far_values() {
    let frame = bin_endpoints(1, &vec![0, 2, 5, -7, 3]);
    assert_eq!(labels_of(&frame), vec![-3, -1, 1, 3]);
    assert_eq!(frame.iter().map(|b| b.count).collect::<Vec<_>>(), vec![0, 0, 0, 1]);
}

#[test]
fn generate_from_draws_exact_frame() {
    let draws = vec![vec![0, 9, 9], vec![1, 2, 3], vec![7, 8, 4], vec![5, 5, 5]];
    let frame = generate_from_draws(&config(4, 3), &draws);
    assert_eq!(labels_of(&frame), vec![-5, -3, -1, 1, 3, 5]);
    assert_eq!(frame.iter().map(|b| b.count).collect::<Vec<_>>(), vec![0, 1, 0, 2, 1, 0]);
}

#[test]
fn generated_labels_are_padded_odd_sequence() {
    let expected: Vec<i64> = (-21..=21).filter(|x: &i64| x % 2 != 0).collect();
    for samples in [1usize, 10, 1000] {
        let mut rng = StdRng::seed_from_u64(samples as u64);
        let frame = generate(&config(samples, 19), &mut rng);
        assert_eq!(labels_of(&frame), expected);
    }
    let mut rng = StdRng::seed_from_u64(3);
    let frame = generate(&config(50, 1), &mut rng);
    assert_eq!(labels_of(&frame), vec![-3, -1, 1, 3]);
}

#[test]
fn generated_counts_sum_to_sample_count() {
    for (samples, length) in [(1usize, 1u32), (5000, 19), (777, 7), (3, 41)] {
        let mut rng = StdRng::seed_from_u64(11);
        let frame = generate(&config(samples, length), &mut rng);
        assert_eq!(frame.iter().map(|b| b.count).sum::<u64>(), samples as u64);
    }
}

#[test]
fn generated_counts_are_bounded_and_padding_is_empty() {
    let mut rng = StdRng::seed_from_u64(5);
    let frame = generate(&config(2000, 5), &mut rng);
    for b in &frame {
        assert!(b.count <= 2000);
        if b.label < -5 || b.label > 5 {
            assert_eq!(b.count, 0);
        }
    }
    assert_eq!(count_at(&frame, -7), 0);
    assert_eq!(count_at(&frame, 7), 0);
}

#[test]
fn same_seed_gives_same_frame() {
    let mut a = StdRng::seed_from_u64(2024);
    let mut b = StdRng::seed_from_u64(2024);
    let fa = generate(&config(5000, 19), &mut a);
    let fb = generate(&config(5000, 19), &mut b);
    assert_eq!(fa, fb);
}

#[test]
fn same_draws_give_same_frame() {
    let draws = vec![vec![0, 9, 9, 3, 7], vec![1, 2, 3, 4, 5], vec![9, 9, 9, 9, 9]];
    let a = generate_from_draws(&config(3, 5), &draws);
    let b = generate_from_draws(&config(3, 5), &draws);
    assert_eq!(a, b);
    assert_eq!(count_at(&a, 1), 1);
    assert_eq!(count_at(&a, -3), 1);
    assert_eq!(count_at(&a, 5), 1);
}

#[test]
fn generated_frames_vary_across_walks() {
    let mut rng = StdRng::seed_from_u64(9);
    let frame = generate(&config(1000, 19), &mut rng);
    assert!(count_at(&frame, 19) < 1000);
    assert!(count_at(&frame, 1) > 0);
    assert!(count_at(&frame, -1) > 0);
}

#[test]
fn large_sample_is_symmetric() {
    let samples = 100000usize;
    let mut rng = StdRng::seed_from_u64(77);
    let frame = generate(&config(samples, 19), &mut rng);
    for b in &frame {
        let mirrored = count_at(&frame, -b.label);
        let diff = (b.count as f64 - mirrored as f64).abs();
        assert!(diff / (samples as f64) < 0.02);
    }
}

#[test]
fn even_walk_length_gives_empty_frame() {
    let mut rng = StdRng::seed_from_u64(1);
    let frame = generate(&config(1000, 2), &mut rng);
    assert_eq!(labels_of(&frame), vec![-3, -1, 1, 3]);
    assert!(frame.iter().all(|b| b.count == 0));
}

#[test]
fn app_starts_with_defaults_and_no_frame() {
    let app = App::new();
    assert_eq!(app.config.sample_count, 5000);
    assert_eq!(app.config.walk_length, 19);
    assert_eq!(DEFAULT_SAMPLE_COUNT, 5000);
    assert_eq!(DEFAULT_WALK_LENGTH, 19);
    assert!(app.data.is_empty());
}

#[test]
fn app_tick_replaces_frame() {
    let mut app = App::new();
    let mut rng = StdRng::seed_from_u64(8);
    app.on_tick(&mut rng);
    assert_eq!(app.data.len(), 22);
    assert_eq!(app.data.iter().map(|b| b.count).sum::<u64>(), 5000);
    app.on_tick(&mut rng);
    assert_eq!(app.data.len(), 22);
    assert_eq!(app.data.iter().map(|b| b.count).sum::<u64>(), 5000);
    assert_eq!(app.config, config(5000, 19));
}
