use rand::SeedableRng;
use rand_chacha::ChaCha8Rng;
use shape_perceptron::classifier::{
    add_inputs_from_weights, feed_forward, sub_inputs_from_weights,
};
use shape_perceptron::config::{
    BIAS, CHECK_SEED, HEIGHT, SAMPLE_SIZE, TRAIN_PASSES, TRAIN_SEED, WIDTH,
};
use shape_perceptron::evaluator::{check_pass, evaluate, fail_ratio};
use shape_perceptron::layer::Layer;
use shape_perceptron::shapes::{
    draw_circle, draw_rect, layer_random_circle, layer_random_rect, stamp_circle,
};
use shape_perceptron::trainer::{
    advance, begin, correct_for_circle, correct_for_rect, train, train_pass, try_train,
    try_train_pass, weights_within, Progress, TrainState,
};

fn uniform(value: i32) -> Layer {
    let mut layer = Layer::new();
    for y in 0..HEIGHT {
        for x in 0..WIDTH {
            layer.set(x, y, value);
        }
    }
    layer
}

fn with_ones(n: usize) -> Layer {
    let mut layer = Layer::new();
    for i in 0..n {
        layer.set(i % WIDTH, i / WIDTH, 1);
    }
    layer
}

#[test]
fn constants_have_their_values() {
    assert_eq!(SAMPLE_SIZE, 75);
    assert_eq!(TRAIN_PASSES, 2000);
    assert_eq!(TRAIN_SEED, 69);
    assert_eq!(CHECK_SEED, 420);
}

#[test]
fn untrained_weights_fail_on_every_circle() {
    let weights = Layer::new();
    let count = evaluate(&weights, CHECK_SEED);
    assert_eq!(count, -(SAMPLE_SIZE as i32));
    let (size, samples) = fail_ratio(count);
    assert_eq!((size, samples), (75, 150));
    assert_eq!(size as f64 / samples as f64, 0.5);
    assert_eq!(weights, Layer::new());
}

#[test]
fn untrained_weights_fail_alike_on_every_seed() {
    let weights = Layer::new();
    for seed in [0u64, 1, TRAIN_SEED, 12345, u64::MAX] {
        assert_eq!(evaluate(&weights, seed), -75);
    }
}

#[test]
fn untrained_response_is_zero_for_every_sample() {
    let weights = Layer::new();
    let mut inputs = Layer::new();
    let mut rng = ChaCha8Rng::seed_from_u64(CHECK_SEED);
    for _ in 0..SAMPLE_SIZE {
        layer_random_rect(&mut inputs, &mut rng);
        assert_eq!(feed_forward(&inputs, &weights), 0);
        layer_random_circle(&mut inputs, &mut rng);
        assert_eq!(feed_forward(&inputs, &weights), 0);
    }
}

#[test]
fn evaluation_is_repeatable() {
    let mut weights = Layer::new();
    train(&mut weights, TRAIN_SEED, 3);
    let before = weights.copy();
    let first = evaluate(&weights, CHECK_SEED);
    let second = evaluate(&weights, CHECK_SEED);
    assert_eq!(first, second);
    assert_eq!(weights, before);
}

#[test]
fn check_pass_agrees_with_evaluate() {
    let mut weights = Layer::new();
    train(&mut weights, TRAIN_SEED, 2);
    let mut inputs = uniform(9);
    let mut rng = ChaCha8Rng::seed_from_u64(CHECK_SEED);
    let count = check_pass(&mut inputs, &weights, &mut rng);
    assert_eq!(count, evaluate(&weights, CHECK_SEED));
    assert!(-75 <= count && count <= 75);
}

#[test]
fn check_pass_counts_like_a_plain_loop() {
    let mut weights = Layer::new();
    train(&mut weights, TRAIN_SEED, 2);
    let mut inputs = Layer::new();
    let mut rng = ChaCha8Rng::seed_from_u64(7);
    let mut expected = 0;
    for _ in 0..SAMPLE_SIZE {
        layer_random_rect(&mut inputs, &mut rng);
        if feed_forward(&inputs, &weights) > BIAS {
            expected += 1;
        }
        layer_random_circle(&mut inputs, &mut rng);
        if feed_forward(&inputs, &weights) < BIAS {
            expected -= 1;
        }
    }
    let mut scratch = Layer::new();
    let mut fresh = ChaCha8Rng::seed_from_u64(7);
    assert_eq!(check_pass(&mut scratch, &weights, &mut fresh), expected);
    assert_eq!(fresh, rng);
    assert_eq!(scratch, inputs);
}

#[test]
fn passes_leave_the_stream_in_the_same_place() {
    let mut trained = Layer::new();
    let mut train_inputs = Layer::new();
    let mut train_rng = ChaCha8Rng::seed_from_u64(TRAIN_SEED);
    train_pass(&mut train_inputs, &mut trained, &mut train_rng);

    let mut check_inputs = uniform(3);
    let mut check_rng = ChaCha8Rng::seed_from_u64(TRAIN_SEED);
    check_pass(&mut check_inputs, &Layer::new(), &mut check_rng);

    let mut plain = ChaCha8Rng::seed_from_u64(TRAIN_SEED);
    let mut last = draw_circle(&mut plain);
    let mut plain = ChaCha8Rng::seed_from_u64(TRAIN_SEED);
    for _ in 0..SAMPLE_SIZE {
        draw_rect(&mut plain);
        last = draw_circle(&mut plain);
    }
    assert_eq!(train_rng, plain);
    assert_eq!(check_rng, plain);
    let mut expected = Layer::new();
    stamp_circle(&mut expected, last);
    assert_eq!(train_inputs, expected);
    assert_eq!(check_inputs, expected);
}

#[test]
fn correction_rules_at_the_bias() {
    let inputs = with_ones(BIAS as usize);
    let mut weights = uniform(1);
    assert_eq!(feed_forward(&inputs, &weights), BIAS);
    assert!(!correct_for_rect(&inputs, &mut weights));
    assert!(!correct_for_circle(&inputs, &mut weights));
    assert_eq!(weights, uniform(1));
}

#[test]
fn rect_above_the_bias_is_subtracted() {
    let inputs = with_ones(21);
    let mut weights = uniform(1);
    assert!(!correct_for_circle(&inputs, &mut weights));
    assert_eq!(weights, uniform(1));
    assert!(correct_for_rect(&inputs, &mut weights));
    let mut expected = uniform(1);
    sub_inputs_from_weights(&inputs, &mut expected);
    assert_eq!(weights, expected);
    assert_eq!(weights.get(0, 0), Some(0));
    assert_eq!(weights.get(0, 1), Some(0));
    assert_eq!(weights.get(1, 1), Some(1));
    assert_eq!(feed_forward(&inputs, &weights), 0);
}

#[test]
fn circle_below_the_bias_is_added() {
    let inputs = with_ones(19);
    let mut weights = uniform(1);
    assert!(!correct_for_rect(&inputs, &mut weights));
    assert_eq!(weights, uniform(1));
    assert!(correct_for_circle(&inputs, &mut weights));
    let mut expected = uniform(1);
    add_inputs_from_weights(&inputs, &mut expected);
    assert_eq!(weights, expected);
    assert_eq!(weights.get(18, 0), Some(2));
    assert_eq!(weights.get(19, 0), Some(1));
    assert_eq!(feed_forward(&inputs, &weights), 38);
}

#[test]
fn weights_within_checks_every_cell() {
    let mut weights = uniform(5);
    assert!(weights_within(&weights, 5));
    assert!(!weights_within(&weights, 4));
    assert!(weights_within(&weights, i32::MAX));
    assert!(!weights_within(&weights, -1));
    weights.set(19, 19, -6);
    assert!(!weights_within(&weights, 5));
    assert!(weights_within(&weights, 6));
    assert!(weights_within(&Layer::new(), 0));
    assert!(!weights_within(&Layer::new(), i32::MIN));
    weights.set(0, 0, i32::MIN);
    assert!(!weights_within(&weights, i32::MAX));
}

#[test]
fn train_pass_snapshots_every_correction() {
    let mut weights = Layer::new();
    let mut inputs = Layer::new();
    let mut rng = ChaCha8Rng::seed_from_u64(TRAIN_SEED);
    let outcome = train_pass(&mut inputs, &mut weights, &mut rng);
    assert!(outcome.adjusted >= 1);
    assert!(outcome.adjusted <= 2 * SAMPLE_SIZE as i32);
    assert_eq!(outcome.snapshots.len(), outcome.adjusted as usize);
    assert_eq!(outcome.snapshots[outcome.snapshots.len() - 1], weights);

    let mut plain = ChaCha8Rng::seed_from_u64(TRAIN_SEED);
    draw_rect(&mut plain);
    let circle = draw_circle(&mut plain);
    let mut first = Layer::new();
    stamp_circle(&mut first, circle);
    assert_eq!(outcome.snapshots[0], first);
}

#[test]
fn train_pass_works_like_a_plain_loop() {
    let mut expected = Layer::new();
    let mut inputs = Layer::new();
    let mut rng = ChaCha8Rng::seed_from_u64(TRAIN_SEED);
    let mut adjusted = 0;
    let mut snapshots: Vec<Layer> = Vec::new();
    for _ in 0..SAMPLE_SIZE {
        layer_random_rect(&mut inputs, &mut rng);
        if feed_forward(&inputs, &expected) > BIAS {
            sub_inputs_from_weights(&inputs, &mut expected);
            snapshots.push(expected.copy());
            adjusted += 1;
        }
        layer_random_circle(&mut inputs, &mut rng);
        if feed_forward(&inputs, &expected) < BIAS {
            add_inputs_from_weights(&inputs, &mut expected);
            snapshots.push(expected.copy());
            adjusted += 1;
        }
    }
    let mut weights = Layer::new();
    let mut scratch = Layer::new();
    let mut fresh = ChaCha8Rng::seed_from_u64(TRAIN_SEED);
    let outcome = train_pass(&mut scratch, &mut weights, &mut fresh);
    assert_eq!(outcome.adjusted, adjusted);
    assert_eq!(weights, expected);
    assert_eq!(outcome.snapshots, snapshots);
    assert_eq!(fresh, rng);
}

#[test]
fn begin_runs_unless_the_budget_is_zero() {
    assert_eq!(begin(0), Progress { passes: 0, state: TrainState::Exhausted });
    assert_eq!(begin(1), Progress { passes: 0, state: TrainState::Running });
    assert_eq!(begin(TRAIN_PASSES), Progress { passes: 0, state: TrainState::Running });
}

#[test]
fn advance_converges_on_a_pass_without_corrections() {
    let next = advance(begin(5), 0, 5);
    assert_eq!(next, Progress { passes: 1, state: TrainState::Converged });
    let next = advance(Progress { passes: 4, state: TrainState::Running }, 0, 5);
    assert_eq!(next, Progress { passes: 5, state: TrainState::Converged });
    let next = advance(begin(5), -1, 5);
    assert_eq!(next, Progress { passes: 1, state: TrainState::Converged });
}

#[test]
fn advance_exhausts_the_budget() {
    let mut progress = begin(3);
    progress = advance(progress, 4, 3);
    assert_eq!(progress, Progress { passes: 1, state: TrainState::Running });
    progress = advance(progress, 1, 3);
    assert_eq!(progress, Progress { passes: 2, state: TrainState::Running });
    progress = advance(progress, 150, 3);
    assert_eq!(progress, Progress { passes: 3, state: TrainState::Exhausted });
}

#[test]
fn advance_leaves_ended_training_alone() {
    let done = Progress { passes: 2, state: TrainState::Converged };
    assert_eq!(advance(done, 7, 5), done);
    let spent = Progress { passes: 5, state: TrainState::Exhausted };
    assert_eq!(advance(spent, 0, 5), spent);
    assert_eq!(advance(begin(0), 3, 0), begin(0));
}

#[test]
fn train_without_budget_changes_nothing() {
    let mut weights = uniform(2);
    let progress = train(&mut weights, TRAIN_SEED, 0);
    assert_eq!(progress, Progress { passes: 0, state: TrainState::Exhausted });
    assert_eq!(weights, uniform(2));
}

#[test]
fn train_stops_at_its_budget() {
    for budget in 1..=4usize {
        let mut weights = Layer::new();
        let progress = train(&mut weights, TRAIN_SEED, budget);
        assert!(progress.passes <= budget);
        assert!(progress.passes >= 1);
        assert_ne!(progress.state, TrainState::Running);
        if progress.state == TrainState::Exhausted {
            assert_eq!(progress.passes, budget);
        }
    }
}

#[test]
fn train_is_a_loop_of_passes_on_fresh_streams() {
    let budget = 6;
    let mut expected = Layer::new();
    let mut inputs = Layer::new();
    let mut progress = begin(budget);
    while progress.state == TrainState::Running {
        let mut rng = ChaCha8Rng::seed_from_u64(TRAIN_SEED);
        let outcome = train_pass(&mut inputs, &mut expected, &mut rng);
        progress = advance(progress, outcome.adjusted, budget);
    }
    let mut weights = Layer::new();
    assert_eq!(train(&mut weights, TRAIN_SEED, budget), progress);
    assert_eq!(weights, expected);
    assert_ne!(weights, Layer::new());
}

#[test]
fn same_seed_gives_same_weights() {
    let mut first = Layer::new();
    let mut second = Layer::new();
    let a = train(&mut first, TRAIN_SEED, 5);
    let b = train(&mut second, TRAIN_SEED, 5);
    assert_eq!(a, b);
    assert_eq!(first, second);
    let mut other = Layer::new();
    train(&mut other, CHECK_SEED, 5);
    assert_ne!(first, other);
}

#[test]
fn full_training_ends_within_its_budget() {
    let mut weights = Layer::new();
    assert!(weights_within(&weights, i32::MAX - (SAMPLE_SIZE * TRAIN_PASSES) as i32));
    let before = evaluate(&weights, CHECK_SEED);
    let progress = train(&mut weights, TRAIN_SEED, TRAIN_PASSES);
    let after = evaluate(&weights, CHECK_SEED);
    assert_eq!(before, -75);
    assert!(progress.passes <= TRAIN_PASSES);
    assert_eq!(progress, Progress { passes: 20, state: TrainState::Converged });
    assert!(weights_within(&weights, (SAMPLE_SIZE * progress.passes) as i32));
    assert_eq!(after, -43);
    assert!(after.abs() < before.abs());

    let mut inputs = Layer::new();
    let mut rng = ChaCha8Rng::seed_from_u64(TRAIN_SEED);
    let outcome = train_pass(&mut inputs, &mut weights, &mut rng);
    assert_eq!(outcome.adjusted, 0);
    assert!(outcome.snapshots.is_empty());
}

#[test]
fn fail_ratio_takes_the_size_of_the_count() {
    assert_eq!(fail_ratio(0), (0, 150));
    assert_eq!(fail_ratio(-43), (43, 150));
    assert_eq!(fail_ratio(43), (43, 150));
    assert_eq!(fail_ratio(75), (75, 150));
    assert_eq!(fail_ratio(i32::MAX), (i32::MAX as u32, 150));
    assert_eq!(fail_ratio(i32::MIN), (1u32 << 31, 150));
}

fn cell_range(layer: &Layer) -> (i32, i32) {
    let mut low = i32::MAX;
    let mut high = i32::MIN;
    for y in 0..HEIGHT {
        for x in 0..WIDTH {
            let c = layer.get(x, y).unwrap();
            low = low.min(c);
            high = high.max(c);
        }
    }
    (low, high)
}

#[test]
fn high_weights_fail_on_every_rect() {
    let weights = uniform(1000);
    let mut inputs = Layer::new();
    let mut rng = ChaCha8Rng::seed_from_u64(CHECK_SEED);
    assert_eq!(check_pass(&mut inputs, &weights, &mut rng), 75);
    assert_eq!(weights, uniform(1000));
    assert_eq!(evaluate(&weights, CHECK_SEED), 75);
    assert_eq!(fail_ratio(75), (75, 150));
}

#[test]
fn low_weights_fail_on_every_circle() {
    let weights = uniform(-1000);
    assert_eq!(evaluate(&weights, CHECK_SEED), -75);
    assert_eq!(weights, uniform(-1000));
}

#[test]
fn high_weights_are_corrected_for_every_rect() {
    let mut weights = uniform(1000);
    let mut inputs = Layer::new();
    let mut rng = ChaCha8Rng::seed_from_u64(TRAIN_SEED);
    let outcome = train_pass(&mut inputs, &mut weights, &mut rng);
    assert_eq!(outcome.adjusted, 75);
    assert_eq!(outcome.snapshots.len(), 75);
    let (low, high) = cell_range(&weights);
    assert!(925 <= low && low < 1000);
    assert!(high <= 1000);
    let (first_low, first_high) = cell_range(&outcome.snapshots[0]);
    assert_eq!((first_low, first_high), (999, 1000));
}

#[test]
fn low_weights_are_corrected_for_every_circle() {
    let mut weights = uniform(-1000);
    let mut inputs = Layer::new();
    let mut rng = ChaCha8Rng::seed_from_u64(TRAIN_SEED);
    let outcome = train_pass(&mut inputs, &mut weights, &mut rng);
    assert_eq!(outcome.adjusted, 75);
    assert_eq!(outcome.snapshots.len(), 75);
    let (low, high) = cell_range(&weights);
    assert!(-1000 <= low);
    assert!(-1000 < high && high <= -925);
    let (first_low, first_high) = cell_range(&outcome.snapshots[0]);
    assert_eq!((first_low, first_high), (-1000, -999));
}

#[test]
fn train_pass_ignores_what_inputs_held() {
    let mut first_weights = Layer::new();
    let mut first_inputs = Layer::new();
    let mut first_rng = ChaCha8Rng::seed_from_u64(TRAIN_SEED);
    let first = train_pass(&mut first_inputs, &mut first_weights, &mut first_rng);

    let mut second_weights = Layer::new();
    let mut second_inputs = uniform(-4);
    let mut second_rng = ChaCha8Rng::seed_from_u64(TRAIN_SEED);
    let second = train_pass(&mut second_inputs, &mut second_weights, &mut second_rng);

    assert_eq!(first.adjusted, second.adjusted);
    assert_eq!(first.snapshots, second.snapshots);
    assert_eq!(first_weights, second_weights);
    assert_eq!(first_inputs, second_inputs);
    assert_eq!(first_rng, second_rng);
}

#[test]
fn try_train_pass_runs_where_there_is_room() {
    let mut expected = uniform(3);
    let mut expected_inputs = Layer::new();
    let mut expected_rng = ChaCha8Rng::seed_from_u64(TRAIN_SEED);
    let plain = train_pass(&mut expected_inputs, &mut expected, &mut expected_rng);

    let mut weights = uniform(3);
    let mut inputs = Layer::new();
    let mut rng = ChaCha8Rng::seed_from_u64(TRAIN_SEED);
    let outcome = try_train_pass(&mut inputs, &mut weights, &mut rng).unwrap();
    assert_eq!(outcome.adjusted, plain.adjusted);
    assert_eq!(outcome.snapshots, plain.snapshots);
    assert_eq!(weights, expected);
    assert_eq!(inputs, expected_inputs);
    assert_eq!(rng, expected_rng);

    let mut edge = uniform(i32::MAX - SAMPLE_SIZE as i32);
    let mut rng = ChaCha8Rng::seed_from_u64(TRAIN_SEED);
    assert!(try_train_pass(&mut inputs, &mut edge, &mut rng).is_some());
    let mut edge = uniform(-(i32::MAX - SAMPLE_SIZE as i32));
    let mut rng = ChaCha8Rng::seed_from_u64(TRAIN_SEED);
    let outcome = try_train_pass(&mut inputs, &mut edge, &mut rng).unwrap();
    assert_eq!(outcome.adjusted, 75);
    assert_eq!(cell_range(&edge).0, -(i32::MAX - SAMPLE_SIZE as i32));
}

#[test]
fn try_train_pass_refuses_where_there_is_no_room() {
    for value in [i32::MAX, i32::MAX - 74, i32::MIN, -(i32::MAX - 74)] {
        let mut weights = Layer::new();
        weights.set(7, 7, value);
        let before = weights.copy();
        let mut inputs = uniform(6);
        let mut rng = ChaCha8Rng::seed_from_u64(TRAIN_SEED);
        assert!(try_train_pass(&mut inputs, &mut weights, &mut rng).is_none());
        assert_eq!(weights, before);
        assert_eq!(inputs, uniform(6));
        assert_eq!(rng, ChaCha8Rng::seed_from_u64(TRAIN_SEED));
    }
}

#[test]
fn try_train_trains_where_there_is_room() {
    let mut expected = Layer::new();
    let plain = train(&mut expected, TRAIN_SEED, TRAIN_PASSES);
    let mut weights = Layer::new();
    assert_eq!(try_train(&mut weights, TRAIN_SEED, TRAIN_PASSES), Some(plain));
    assert_eq!(weights, expected);

    let room = i32::MAX - (SAMPLE_SIZE * 3) as i32;
    let mut edge = uniform(room);
    let done = try_train(&mut edge, TRAIN_SEED, 3).unwrap();
    assert!(done.passes <= 3);
    assert_ne!(done.state, TrainState::Running);

    let mut none = uniform(i32::MAX);
    assert_eq!(
        try_train(&mut none, TRAIN_SEED, 0),
        Some(Progress { passes: 0, state: TrainState::Exhausted })
    );
    assert_eq!(none, uniform(i32::MAX));
}

#[test]
fn try_train_refuses_where_there_is_no_room() {
    let room = i32::MAX - (SAMPLE_SIZE * 3) as i32;
    let mut weights = uniform(room + 1);
    assert_eq!(try_train(&mut weights, TRAIN_SEED, 3), None);
    assert_eq!(weights, uniform(room + 1));

    let mut blank = Layer::new();
    let most = i32::MAX as usize / SAMPLE_SIZE;
    assert_eq!(try_train(&mut blank, TRAIN_SEED, most + 1), None);
    assert_eq!(try_train(&mut blank, TRAIN_SEED, usize::MAX), None);
    assert_eq!(blank, Layer::new());
    let done = try_train(&mut blank, TRAIN_SEED, most).unwrap();
    assert_eq!(done, Progress { passes: 20, state: TrainState::Converged });
}

#[test]
fn advance_ends_training_that_has_no_pass_left() {
    let spent = Progress { passes: 5, state: TrainState::Running };
    assert_eq!(advance(spent, 9, 5), Progress { passes: 5, state: TrainState::Exhausted });
    assert_eq!(advance(spent, 0, 5), Progress { passes: 5, state: TrainState::Exhausted });
    let over = Progress { passes: usize::MAX, state: TrainState::Running };
    assert_eq!(
        advance(over, 1, usize::MAX),
        Progress { passes: usize::MAX, state: TrainState::Exhausted }
    );
    assert_eq!(advance(over, 1, 3), Progress { passes: usize::MAX, state: TrainState::Exhausted });
    let last = Progress { passes: usize::MAX - 1, state: TrainState::Running };
    assert_eq!(
        advance(last, 1, usize::MAX),
        Progress { passes: usize::MAX, state: TrainState::Exhausted }
    );
}
