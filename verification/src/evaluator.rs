//! Evaluation: a pass that presents drawn samples to the weights and counts
//! the mistakes without correcting any.

use crate::classifier::{
    feed_forward, lemma_response_at_least, lemma_response_at_most_zero, lemma_response_to_blank,
    looks_like_circle, looks_like_rect, response,
};
use crate::config::{BIAS, CELLS, SAMPLE_SIZE};
use crate::layer::{blank, cell_index, Layer};
use crate::shapes::{
    circle_at, circle_in_range, circle_pattern, layer_random_circle, layer_random_rect,
    lemma_circle_pattern_holds_centre, lemma_circle_pattern_is_mask,
    lemma_rect_pattern_holds_corner, lemma_rect_pattern_is_mask, pairs_in_range, rect_at,
    rect_in_range, rect_pattern, stream_after_pairs,
};
use crate::stream::{seeded_state, seeded_stream, stream_state};
use rand_chacha::ChaCha8Rng;
use vstd::prelude::*;

verus! {

/// What a rectangle `pattern` adds to the count: 1 where the response lies
/// above the bias, else 0.
pub open spec fn rect_score(pattern: Seq<int>, weights: Seq<int>) -> int {
    if response(pattern, weights) > BIAS {
        1
    } else {
        0
    }
}

/// What a disc `pattern` adds to the count: -1 where the response lies below
/// the bias, else 0.
pub open spec fn circle_score(pattern: Seq<int>, weights: Seq<int>) -> int {
    if response(pattern, weights) < BIAS {
        -1
    } else {
        0
    }
}

/// The signed count over the first `n` pairs that a stream starting in
/// `state` yields.
pub open spec fn score_upto(weights: Seq<int>, state: Seq<u8>, n: nat) -> int
    decreases n,
{
    if n == 0 {
        0
    } else {
        let k = (n - 1) as nat;
        score_upto(weights, state, k) + rect_score(rect_pattern(rect_at(state, k)), weights)
            + circle_score(circle_pattern(circle_at(state, k)), weights)
    }
}

/// The signed count over a whole pass of `SAMPLE_SIZE` pairs.
pub open spec fn score(weights: Seq<int>, state: Seq<u8>) -> int {
    score_upto(weights, state, SAMPLE_SIZE as nat)
}

/// Each pair moves the count by at most 1 either way.
pub proof fn lemma_score_range(weights: Seq<int>, state: Seq<u8>, n: nat)
    ensures
        -n <= score_upto(weights, state, n) <= n,
    decreases n,
{
    if n > 0 {
        lemma_score_range(weights, state, (n - 1) as nat);
    }
}

/// Weights that are all zero take every disc for a mistake and no rectangle:
/// over `n` pairs the count is `-n`, whatever the stream yields.
pub proof fn lemma_untrained_score(state: Seq<u8>, n: nat)
    ensures
        score_upto(blank(), state, n) == -n,
    decreases n,
{
    if n > 0 {
        let k = (n - 1) as nat;
        lemma_untrained_score(state, k);
        lemma_response_to_blank(rect_pattern(rect_at(state, k)));
        lemma_response_to_blank(circle_pattern(circle_at(state, k)));
    }
}

/// Evaluating the same weights on streams of the same seed gives the same
/// count.
pub proof fn lemma_evaluation_repeats(weights: Seq<int>, first_seed: u64, second_seed: u64)
    requires
        first_seed == second_seed,
    ensures
        score(weights, seeded_state(first_seed)) == score(weights, seeded_state(second_seed)),
{
}

/// Runs one evaluation pass. For each of `SAMPLE_SIZE` pairs a rectangle is
/// drawn and presented, then a disc; a rectangle with a response above the
/// bias counts 1, a disc with a response below it counts -1. The weights are
/// only read. The stream ends where the pairs leave it and `inputs` ends as
/// the last disc's pattern. Every shape drawn lies in its ranges.
pub fn check_pass(inputs: &mut Layer, weights: &Layer, rng: &mut ChaCha8Rng) -> (count: i32)
    ensures
        count == score(weights@, stream_state(*old(rng))),
        -SAMPLE_SIZE <= count <= SAMPLE_SIZE,
        stream_state(*final(rng)) == stream_after_pairs(
            stream_state(*old(rng)),
            SAMPLE_SIZE as nat,
        ),
        final(inputs)@ == circle_pattern(
            circle_at(stream_state(*old(rng)), (SAMPLE_SIZE - 1) as nat),
        ),
        pairs_in_range(stream_state(*old(rng)), SAMPLE_SIZE as nat),
{
    let ghost s0 = stream_state(*rng);
    let mut count: i32 = 0;
    let mut i: usize = 0;
    while i < SAMPLE_SIZE
        invariant
            i <= SAMPLE_SIZE,
            count == score_upto(weights@, s0, i as nat),
            -i <= count <= i,
            stream_state(*rng) == stream_after_pairs(s0, i as nat),
            i > 0 ==> inputs@ == circle_pattern(circle_at(s0, (i - 1) as nat)),
            pairs_in_range(s0, i as nat),
        decreases SAMPLE_SIZE - i,
    {
        let ghost done = i as nat;
        layer_random_rect(inputs, rng);
        assert(rect_in_range(rect_at(s0, done)));
        if looks_like_rect(feed_forward(inputs, weights)) {
            count += 1;
        }
        layer_random_circle(inputs, rng);
        assert(circle_in_range(circle_at(s0, done)));
        if looks_like_circle(feed_forward(inputs, weights)) {
            count -= 1;
        }
        i += 1;
        proof {
            lemma_score_range(weights@, s0, i as nat);
        }
        assert forall|k: nat| k < i implies rect_in_range(#[trigger] rect_at(s0, k))
            && circle_in_range(circle_at(s0, k)) by {
            if k < done {
                assert(pairs_in_range(s0, done));
            }
        }
    }
    count
}

/// Evaluates `weights` on a fresh stream of `seed` and returns the signed
/// count of mistakes. Every shape drawn lies in its ranges.
pub fn evaluate(weights: &Layer, seed: u64) -> (count: i32)
    ensures
        count == score(weights@, seeded_state(seed)),
        -SAMPLE_SIZE <= count <= SAMPLE_SIZE,
        pairs_in_range(seeded_state(seed), SAMPLE_SIZE as nat),
{
    let mut inputs = Layer::new();
    let mut rng = seeded_stream(seed);
    check_pass(&mut inputs, weights, &mut rng)
}

/// The fail rate that a signed count stands for, as a fraction: the size of
/// the count over the number of samples in a pass, two for each pair.
pub open spec fn fail_fraction(count: int) -> (int, int) {
    (if count < 0 { -count } else { count }, 2 * SAMPLE_SIZE)
}

/// Computes the numerator and the denominator of the fail rate of `count`.
pub fn fail_ratio(count: i32) -> (ratio: (u32, u32))
    ensures
        (ratio.0 as int, ratio.1 as int) == fail_fraction(count as int),
{
    let size: i64 = if count < 0 { -(count as i64) } else { count as i64 };
    (size as u32, (2 * SAMPLE_SIZE) as u32)
}

/// Weights that lie above the bias in every cell take every rectangle for a
/// mistake and no disc: over `n` pairs in range the count is `n`.
pub proof fn lemma_score_of_high_weights(weights: Seq<int>, state: Seq<u8>, n: nat)
    requires
        forall|j: int| 0 <= j < CELLS ==> #[trigger] weights[j] > BIAS,
        pairs_in_range(state, n),
    ensures
        score_upto(weights, state, n) == n,
    decreases n,
{
    if n > 0 {
        let k = (n - 1) as nat;
        lemma_score_of_high_weights(weights, state, k);
        let rect = rect_at(state, k);
        let circle = circle_at(state, k);
        lemma_rect_pattern_is_mask(rect);
        lemma_rect_pattern_holds_corner(rect);
        lemma_response_at_least(
            rect_pattern(rect),
            weights,
            BIAS + 1,
            cell_index(rect.x as int, rect.y as int),
        );
        lemma_circle_pattern_is_mask(circle);
        lemma_circle_pattern_holds_centre(circle);
        lemma_response_at_least(
            circle_pattern(circle),
            weights,
            BIAS + 1,
            cell_index(circle.cx as int, circle.cy as int),
        );
    }
}

/// Weights that lie nowhere above zero take every disc for a mistake and no
/// rectangle: over `n` pairs the count is `-n`.
pub proof fn lemma_score_of_low_weights(weights: Seq<int>, state: Seq<u8>, n: nat)
    requires
        forall|j: int| 0 <= j < CELLS ==> #[trigger] weights[j] <= 0,
    ensures
        score_upto(weights, state, n) == -n,
    decreases n,
{
    if n > 0 {
        let k = (n - 1) as nat;
        lemma_score_of_low_weights(weights, state, k);
        lemma_rect_pattern_is_mask(rect_at(state, k));
        lemma_response_at_most_zero(rect_pattern(rect_at(state, k)), weights);
        lemma_circle_pattern_is_mask(circle_at(state, k));
        lemma_response_at_most_zero(circle_pattern(circle_at(state, k)), weights);
    }
}

} // verus!
