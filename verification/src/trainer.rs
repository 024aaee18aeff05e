//! Training: passes over the same drawn samples that move the weights
//! whenever the classifier is wrong, until a pass needs no correction or the
//! pass budget is spent.

use crate::classifier::{
    add_inputs_from_weights, cellwise_diff, cellwise_sum, diff_fits, feed_forward,
    lemma_response_at_least, lemma_response_at_most_zero, looks_like_circle, looks_like_rect,
    response, sub_inputs_from_weights, sum_fits,
};
use crate::config::{BIAS, CELLS, SAMPLE_SIZE};
use crate::layer::{cell_index, Layer};
use crate::shapes::{
    circle_at, circle_in_range, circle_pattern, layer_random_circle, layer_random_rect,
    lemma_circle_pattern_holds_centre, lemma_circle_pattern_is_mask,
    lemma_rect_pattern_holds_corner, lemma_rect_pattern_is_mask, pairs_in_range, rect_at,
    rect_in_range, rect_pattern, stream_after_pairs,
};
use crate::stream::{seeded_state, seeded_stream, stream_state};
use rand_chacha::ChaCha8Rng;
use vstd::prelude::*;

verus! {

/// Whether every cell of `cells` lies between `-limit` and `limit`.
pub open spec fn within(cells: Seq<int>, limit: int) -> bool {
    forall|i: int| 0 <= i < CELLS ==> -limit <= #[trigger] cells[i] <= limit
}

/// The weights and the snapshots taken so far in a pass.
#[verifier::ext_equal]
pub struct PassTrace {
    pub weights: Seq<int>,
    pub snapshots: Seq<Seq<int>>,
}

/// The trace after a rectangle `pattern` was presented. A response above the
/// bias is a mistake: the pattern is subtracted from the weights and the new
/// weights are snapshot. Otherwise nothing changes.
pub open spec fn rect_step(t: PassTrace, pattern: Seq<int>) -> PassTrace {
    if response(pattern, t.weights) > BIAS {
        let weights = cellwise_diff(t.weights, pattern);
        PassTrace { weights, snapshots: t.snapshots.push(weights) }
    } else {
        t
    }
}

/// The trace after a disc `pattern` was presented. A response below the bias
/// is a mistake: the pattern is added to the weights and the new weights are
/// snapshot. Otherwise nothing changes.
pub open spec fn circle_step(t: PassTrace, pattern: Seq<int>) -> PassTrace {
    if response(pattern, t.weights) < BIAS {
        let weights = cellwise_sum(t.weights, pattern);
        PassTrace { weights, snapshots: t.snapshots.push(weights) }
    } else {
        t
    }
}

/// The trace of a pass that started with weights `weights` and a stream in
/// state `state`, after its first `n` pairs of a rectangle and a disc.
pub open spec fn pass_upto(weights: Seq<int>, state: Seq<u8>, n: nat) -> PassTrace
    decreases n,
{
    if n == 0 {
        PassTrace { weights, snapshots: Seq::empty() }
    } else {
        let t = pass_upto(weights, state, (n - 1) as nat);
        let k = (n - 1) as nat;
        circle_step(
            rect_step(t, rect_pattern(rect_at(state, k))),
            circle_pattern(circle_at(state, k)),
        )
    }
}

/// The trace of a whole pass of `SAMPLE_SIZE` pairs.
pub open spec fn pass_trace(weights: Seq<int>, state: Seq<u8>) -> PassTrace {
    pass_upto(weights, state, SAMPLE_SIZE as nat)
}

/// The views of a sequence of layers.
pub open spec fn layer_views(layers: Seq<Layer>) -> Seq<Seq<int>> {
    Seq::new(layers.len(), |k: int| layers[k]@)
}

/// What a pass hands back: the number of corrections it made and the weights
/// as they stood after each correction, in order.
pub struct PassOutcome {
    pub adjusted: i32,
    pub snapshots: Vec<Layer>,
}

/// Says whether every cell of `weights` lies between `-limit` and `limit`.
pub fn weights_within(weights: &Layer, limit: i32) -> (ok: bool)
    ensures
        ok == within(weights@, limit as int),
{
    if limit < 0 {
        proof {
            weights.lemma_view_shape();
            assert(!(-limit <= weights@[0] <= limit));
        }
        return false;
    }
    let mut i: usize = 0;
    while i < CELLS
        invariant
            i <= CELLS,
            limit >= 0,
            forall|k: int| 0 <= k < i ==> -limit <= #[trigger] weights@[k] <= limit,
        decreases CELLS - i,
    {
        let c = weights.cell(i);
        if c < -limit || c > limit {
            return false;
        }
        i += 1;
    }
    true
}

/// Holds the rectangle pattern in `inputs` against the weights and corrects
/// them where the response lies above the bias; says whether it did.
pub fn correct_for_rect(inputs: &Layer, weights: &mut Layer) -> (corrected: bool)
    requires
        diff_fits(old(weights)@, inputs@),
    ensures
        corrected == (response(inputs@, old(weights)@) > BIAS),
        final(weights)@ == if corrected {
            cellwise_diff(old(weights)@, inputs@)
        } else {
            old(weights)@
        },
{
    if looks_like_rect(feed_forward(inputs, weights)) {
        sub_inputs_from_weights(inputs, weights);
        true
    } else {
        false
    }
}

/// Holds the disc pattern in `inputs` against the weights and corrects them
/// where the response lies below the bias; says whether it did.
pub fn correct_for_circle(inputs: &Layer, weights: &mut Layer) -> (corrected: bool)
    requires
        sum_fits(old(weights)@, inputs@),
    ensures
        corrected == (response(inputs@, old(weights)@) < BIAS),
        final(weights)@ == if corrected {
            cellwise_sum(old(weights)@, inputs@)
        } else {
            old(weights)@
        },
{
    if looks_like_circle(feed_forward(inputs, weights)) {
        add_inputs_from_weights(inputs, weights);
        true
    } else {
        false
    }
}

/// A pair of samples moves no weight by more than 1, so `n` pairs move none
/// by more than `n`.
pub proof fn lemma_pass_drift(weights: Seq<int>, state: Seq<u8>, n: nat, limit: int)
    requires
        within(weights, limit),
    ensures
        within(pass_upto(weights, state, n).weights, limit + n),
    decreases n,
{
    if n > 0 {
        let k = (n - 1) as nat;
        lemma_pass_drift(weights, state, k, limit);
        lemma_rect_pattern_is_mask(rect_at(state, k));
        lemma_circle_pattern_is_mask(circle_at(state, k));
        let t0 = pass_upto(weights, state, k);
        let rp = rect_pattern(rect_at(state, k));
        let cp = circle_pattern(circle_at(state, k));
        let t1 = rect_step(t0, rp);
        let t2 = circle_step(t1, cp);
        assert forall|i: int| 0 <= i < CELLS implies -(limit + n) <= #[trigger] t2.weights[i]
            <= limit + n by {
            assert(t0.weights[i] - 1 <= t1.weights[i] <= t0.weights[i]);
            assert(t1.weights[i] <= t2.weights[i] <= t1.weights[i] + 1);
        }
    }
}

/// Runs one pass. For each of `SAMPLE_SIZE` pairs a rectangle is drawn and
/// presented, then a disc: the weights are corrected after each mistake and a
/// copy of them is kept. The stream ends where the pairs leave it, whatever
/// the weights were, and `inputs` ends as the last disc's pattern. Every
/// shape drawn lies in its ranges. The weights have to leave room for a
/// pass: none moves by more than `SAMPLE_SIZE`.
pub fn train_pass(inputs: &mut Layer, weights: &mut Layer, rng: &mut ChaCha8Rng) -> (outcome:
    PassOutcome)
    requires
        within(old(weights)@, i32::MAX - SAMPLE_SIZE),
    ensures
        final(weights)@ == pass_trace(old(weights)@, stream_state(*old(rng))).weights,
        layer_views(outcome.snapshots@) == pass_trace(
            old(weights)@,
            stream_state(*old(rng)),
        ).snapshots,
        outcome.adjusted == outcome.snapshots@.len(),
        0 <= outcome.adjusted <= 2 * SAMPLE_SIZE,
        stream_state(*final(rng)) == stream_after_pairs(
            stream_state(*old(rng)),
            SAMPLE_SIZE as nat,
        ),
        final(inputs)@ == circle_pattern(
            circle_at(stream_state(*old(rng)), (SAMPLE_SIZE - 1) as nat),
        ),
        pairs_in_range(stream_state(*old(rng)), SAMPLE_SIZE as nat),
{
    let ghost w0 = weights@;
    let ghost s0 = stream_state(*rng);
    let mut snapshots: Vec<Layer> = Vec::new();
    let mut adjusted: i32 = 0;
    let mut i: usize = 0;
    assert(layer_views(snapshots@) =~= Seq::<Seq<int>>::empty());
    while i < SAMPLE_SIZE
        invariant
            i <= SAMPLE_SIZE,
            within(w0, i32::MAX - SAMPLE_SIZE),
            weights@ == pass_upto(w0, s0, i as nat).weights,
            layer_views(snapshots@) == pass_upto(w0, s0, i as nat).snapshots,
            adjusted == snapshots@.len(),
            0 <= adjusted <= 2 * i,
            stream_state(*rng) == stream_after_pairs(s0, i as nat),
            i > 0 ==> inputs@ == circle_pattern(circle_at(s0, (i - 1) as nat)),
            pairs_in_range(s0, i as nat),
        decreases SAMPLE_SIZE - i,
    {
        let ghost done = i as nat;
        let ghost t0 = pass_upto(w0, s0, i as nat);
        let ghost rp = rect_pattern(rect_at(s0, i as nat));
        let ghost cp = circle_pattern(circle_at(s0, i as nat));
        proof {
            lemma_pass_drift(w0, s0, i as nat, i32::MAX - SAMPLE_SIZE);
            lemma_rect_pattern_is_mask(rect_at(s0, i as nat));
            lemma_circle_pattern_is_mask(circle_at(s0, i as nat));
            weights.lemma_view_shape();
        }
        layer_random_rect(inputs, rng);
        assert(rect_in_range(rect_at(s0, done)));
        assert(diff_fits(weights@, inputs@)) by {
            assert forall|k: int| 0 <= k < CELLS implies i32::MIN <= #[trigger] weights@[k]
                - inputs@[k] <= i32::MAX by {
                assert(-(i32::MAX - SAMPLE_SIZE + i) <= weights@[k]);
                assert(0 <= rp[k] <= 1);
            }
        }
        if correct_for_rect(inputs, weights) {
            let ghost views = layer_views(snapshots@);
            snapshots.push(weights.copy());
            assert(layer_views(snapshots@) =~= views.push(weights@));
            adjusted += 1;
        }
        let ghost t1 = rect_step(t0, rp);
        layer_random_circle(inputs, rng);
        assert(circle_in_range(circle_at(s0, done)));
        assert(sum_fits(weights@, inputs@)) by {
            assert forall|k: int| 0 <= k < CELLS implies i32::MIN <= #[trigger] weights@[k]
                + inputs@[k] <= i32::MAX by {
                assert(t0.weights[k] <= i32::MAX - SAMPLE_SIZE + i);
                assert(0 <= rp[k] <= 1);
                assert(t1.weights[k] <= t0.weights[k]);
                assert(0 <= cp[k] <= 1);
            }
        }
        if correct_for_circle(inputs, weights) {
            let ghost views = layer_views(snapshots@);
            snapshots.push(weights.copy());
            assert(layer_views(snapshots@) =~= views.push(weights@));
            adjusted += 1;
        }
        i += 1;
        assert forall|k: nat| k < i implies rect_in_range(#[trigger] rect_at(s0, k))
            && circle_in_range(circle_at(s0, k)) by {
            if k < done {
                assert(pairs_in_range(s0, done));
            }
        }
    }
    PassOutcome { adjusted, snapshots }
}

/// Where training stands: still running, or ended because a pass needed no
/// correction, or ended because the pass budget is spent.
#[derive(Debug, Clone, Copy, PartialEq, Eq, Structural)]
pub enum TrainState {
    Running,
    Converged,
    Exhausted,
}

/// The number of passes run so far and where training stands.
#[derive(Debug, Clone, Copy, PartialEq, Eq, Structural)]
pub struct Progress {
    pub passes: usize,
    pub state: TrainState,
}

impl Progress {
    /// Whether this progress can occur under a budget of `max_passes`: no more
    /// passes were run than the budget allows, and while training runs at
    /// least one pass is left.
    pub open spec fn valid(self, max_passes: usize) -> bool {
        &&& self.passes <= max_passes
        &&& self.state == TrainState::Running ==> self.passes < max_passes
    }
}

/// The progress before the first pass: running, unless the budget is zero.
pub open spec fn begun(max_passes: usize) -> Progress {
    Progress {
        passes: 0,
        state: if max_passes == 0 {
            TrainState::Exhausted
        } else {
            TrainState::Running
        },
    }
}

/// The progress after one more pass that made `adjusted` corrections. A pass
/// without corrections ends training as converged; otherwise training ends
/// as exhausted once `max_passes` passes were run. Training that has ended
/// stays as it is, and training that runs with no pass left of its budget
/// ends as exhausted with its count unchanged.
pub open spec fn advanced(progress: Progress, adjusted: int, max_passes: usize) -> Progress {
    if progress.state != TrainState::Running {
        progress
    } else if progress.passes >= max_passes {
        Progress { passes: progress.passes, state: TrainState::Exhausted }
    } else {
        let passes = (progress.passes + 1) as usize;
        Progress {
            passes,
            state: if adjusted <= 0 {
                TrainState::Converged
            } else if passes >= max_passes {
                TrainState::Exhausted
            } else {
                TrainState::Running
            },
        }
    }
}

/// The weights and the progress of training that started with `weights`,
/// after at most `k` passes. Each pass draws from a fresh stream of the same
/// `seed`.
pub open spec fn train_upto(weights: Seq<int>, seed: u64, max_passes: usize, k: nat) -> (
    Seq<int>,
    Progress,
)
    decreases k,
{
    if k == 0 {
        (weights, begun(max_passes))
    } else {
        let (w, p) = train_upto(weights, seed, max_passes, (k - 1) as nat);
        if p.state == TrainState::Running {
            let t = pass_trace(w, seeded_state(seed));
            (t.weights, advanced(p, t.snapshots.len() as int, max_passes))
        } else {
            (w, p)
        }
    }
}

/// The weights and the progress at the end of training under a budget of
/// `max_passes`.
pub open spec fn trained(weights: Seq<int>, seed: u64, max_passes: usize) -> (Seq<int>, Progress) {
    train_upto(weights, seed, max_passes, max_passes as nat)
}

/// Starts training under a budget of `max_passes`.
pub fn begin(max_passes: usize) -> (progress: Progress)
    ensures
        progress == begun(max_passes),
        progress.valid(max_passes),
{
    if max_passes == 0 {
        Progress { passes: 0, state: TrainState::Exhausted }
    } else {
        Progress { passes: 0, state: TrainState::Running }
    }
}

/// Records one more pass that made `adjusted` corrections and decides
/// whether training goes on. A count of passes within `max_passes` stays
/// within it, whatever the pass made.
pub fn advance(progress: Progress, adjusted: i32, max_passes: usize) -> (next: Progress)
    ensures
        next == advanced(progress, adjusted as int, max_passes),
        progress.passes <= max_passes ==> next.passes <= max_passes,
        progress.valid(max_passes) ==> next.valid(max_passes),
{
    match progress.state {
        TrainState::Running => {
            if progress.passes >= max_passes {
                Progress { passes: progress.passes, state: TrainState::Exhausted }
            } else {
                let passes = progress.passes + 1;
                if adjusted <= 0 {
                    Progress { passes, state: TrainState::Converged }
                } else if passes >= max_passes {
                    Progress { passes, state: TrainState::Exhausted }
                } else {
                    Progress { passes, state: TrainState::Running }
                }
            }
        },
        _ => progress,
    }
}

/// After `k` steps training has run at most `k` passes and never more than
/// the budget; while it still runs it has run exactly `k`.
pub proof fn lemma_train_progress(weights: Seq<int>, seed: u64, max_passes: usize, k: nat)
    ensures
        train_upto(weights, seed, max_passes, k).1.valid(max_passes),
        train_upto(weights, seed, max_passes, k).1.passes <= k,
        train_upto(weights, seed, max_passes, k).1.state == TrainState::Running ==> train_upto(
            weights,
            seed,
            max_passes,
            k,
        ).1.passes == k,
    decreases k,
{
    if k > 0 {
        lemma_train_progress(weights, seed, max_passes, (k - 1) as nat);
    }
}

/// Training that has ended stays as it is, however many more steps follow.
pub proof fn lemma_train_settles(weights: Seq<int>, seed: u64, max_passes: usize, k: nat, m: nat)
    requires
        k <= m,
        train_upto(weights, seed, max_passes, k).1.state != TrainState::Running,
    ensures
        train_upto(weights, seed, max_passes, m) == train_upto(weights, seed, max_passes, k),
    decreases m,
{
    if k < m {
        lemma_train_settles(weights, seed, max_passes, k, (m - 1) as nat);
    }
}

/// Training never runs more passes than its budget and always ends,
/// whatever the weights and the seed.
pub proof fn lemma_training_is_bounded(weights: Seq<int>, seed: u64, max_passes: usize)
    ensures
        trained(weights, seed, max_passes).1.passes <= max_passes,
        trained(weights, seed, max_passes).1.state != TrainState::Running,
{
    lemma_train_progress(weights, seed, max_passes, max_passes as nat);
}

/// Trains `weights`: runs passes, each on a fresh stream of `seed`, until one
/// needs no correction or `max_passes` passes were run. The snapshots of the
/// passes are dropped. Where a pass ran, every shape it drew lay in its
/// ranges. The weights have to leave room for the corrections that the
/// budget allows.
pub fn train(weights: &mut Layer, seed: u64, max_passes: usize) -> (progress: Progress)
    requires
        within(old(weights)@, i32::MAX - SAMPLE_SIZE * max_passes),
    ensures
        (final(weights)@, progress) == trained(old(weights)@, seed, max_passes),
        progress.passes <= max_passes,
        progress.state != TrainState::Running,
        within(final(weights)@, i32::MAX - SAMPLE_SIZE * (max_passes - progress.passes)),
        progress.passes >= 1 ==> pairs_in_range(seeded_state(seed), SAMPLE_SIZE as nat),
{
    let ghost w0 = weights@;
    let mut inputs = Layer::new();
    let mut progress = begin(max_passes);
    while progress.state == TrainState::Running
        invariant
            progress.valid(max_passes),
            (weights@, progress) == train_upto(w0, seed, max_passes, progress.passes as nat),
            within(weights@, i32::MAX - SAMPLE_SIZE * (max_passes - progress.passes)),
            progress.passes >= 1 ==> pairs_in_range(seeded_state(seed), SAMPLE_SIZE as nat),
        decreases max_passes - progress.passes,
    {
        let ghost w = weights@;
        let ghost limit = i32::MAX - SAMPLE_SIZE * (max_passes - progress.passes);
        proof {
            lemma_pass_drift(w, seeded_state(seed), SAMPLE_SIZE as nat, limit);
            assert(SAMPLE_SIZE * (max_passes - progress.passes) >= SAMPLE_SIZE) by (nonlinear_arith)
                requires
                    max_passes - progress.passes >= 1,
            ;
            assert(SAMPLE_SIZE * (max_passes - (progress.passes + 1)) == SAMPLE_SIZE * (max_passes
                - progress.passes) - SAMPLE_SIZE) by (nonlinear_arith);
        }
        let mut rng = seeded_stream(seed);
        let outcome = train_pass(&mut inputs, weights, &mut rng);
        progress = advance(progress, outcome.adjusted, max_passes);
    }
    proof {
        lemma_train_settles(w0, seed, max_passes, progress.passes as nat, max_passes as nat);
    }
    progress
}

/// Training is fixed by where it starts: runs from the same weights on the
/// same seed under the same budget end alike, and so do single passes, with
/// the same weights and the same snapshots. Pair by pair they present the
/// same rectangle and the same disc and leave the stream in the same state.
pub proof fn lemma_training_repeats(
    weights: Seq<int>,
    first_seed: u64,
    second_seed: u64,
    max_passes: usize,
    k: nat,
)
    requires
        first_seed == second_seed,
    ensures
        trained(weights, first_seed, max_passes) == trained(weights, second_seed, max_passes),
        pass_trace(weights, seeded_state(first_seed)) == pass_trace(
            weights,
            seeded_state(second_seed),
        ),
        stream_after_pairs(seeded_state(first_seed), k) == stream_after_pairs(
            seeded_state(second_seed),
            k,
        ),
        rect_at(seeded_state(first_seed), k) == rect_at(seeded_state(second_seed), k),
        circle_at(seeded_state(first_seed), k) == circle_at(seeded_state(second_seed), k),
{
}

/// Runs one pass as `train_pass` does where the weights leave room for it.
/// Where they do not, says `None` and changes nothing.
pub fn try_train_pass(inputs: &mut Layer, weights: &mut Layer, rng: &mut ChaCha8Rng) -> (outcome:
    Option<PassOutcome>)
    ensures
        outcome is Some <==> within(old(weights)@, i32::MAX - SAMPLE_SIZE),
        match outcome {
            Some(done) => {
                &&& final(weights)@ == pass_trace(old(weights)@, stream_state(*old(rng))).weights
                &&& layer_views(done.snapshots@) == pass_trace(
                    old(weights)@,
                    stream_state(*old(rng)),
                ).snapshots
                &&& done.adjusted == done.snapshots@.len()
                &&& 0 <= done.adjusted <= 2 * SAMPLE_SIZE
                &&& stream_state(*final(rng)) == stream_after_pairs(
                    stream_state(*old(rng)),
                    SAMPLE_SIZE as nat,
                )
                &&& final(inputs)@ == circle_pattern(
                    circle_at(stream_state(*old(rng)), (SAMPLE_SIZE - 1) as nat),
                )
                &&& pairs_in_range(stream_state(*old(rng)), SAMPLE_SIZE as nat)
            },
            None => {
                &&& final(weights)@ == old(weights)@
                &&& final(inputs)@ == old(inputs)@
                &&& stream_state(*final(rng)) == stream_state(*old(rng))
            },
        },
{
    if weights_within(weights, i32::MAX - SAMPLE_SIZE as i32) {
        Some(train_pass(inputs, weights, rng))
    } else {
        None
    }
}

/// Trains `weights` as `train` does where they leave room for the
/// corrections that the budget allows. Where they do not, says `None` and
/// changes nothing. Whatever the weights, the seed and the budget, no more
/// than `max_passes` passes are run.
pub fn try_train(weights: &mut Layer, seed: u64, max_passes: usize) -> (progress: Option<Progress>)
    ensures
        progress is Some <==> within(old(weights)@, i32::MAX - SAMPLE_SIZE * max_passes),
        match progress {
            Some(done) => {
                &&& (final(weights)@, done) == trained(old(weights)@, seed, max_passes)
                &&& done.passes <= max_passes
                &&& done.state != TrainState::Running
                &&& done.passes >= 1 ==> pairs_in_range(seeded_state(seed), SAMPLE_SIZE as nat)
            },
            None => final(weights)@ == old(weights)@,
        },
{
    if max_passes > i32::MAX as usize / SAMPLE_SIZE {
        proof {
            weights.lemma_view_shape();
            let limit = i32::MAX - SAMPLE_SIZE * max_passes;
            assert(limit < 0);
            assert(!(-limit <= weights@[0] <= limit));
        }
        return None;
    }
    let room: i32 = i32::MAX - (SAMPLE_SIZE * max_passes) as i32;
    if weights_within(weights, room) {
        Some(train(weights, seed, max_passes))
    } else {
        None
    }
}

/// Weights that lie at least `n` above the bias in every cell are corrected
/// for every rectangle and for no disc: `n` pairs in range make `n`
/// corrections and lower no weight by more than `n`.
pub proof fn lemma_pass_of_high_weights(weights: Seq<int>, state: Seq<u8>, n: nat)
    requires
        forall|j: int| 0 <= j < CELLS ==> #[trigger] weights[j] >= BIAS + n,
        pairs_in_range(state, n),
    ensures
        pass_upto(weights, state, n).snapshots.len() == n,
        forall|j: int|
            0 <= j < CELLS ==> weights[j] - n <= #[trigger] pass_upto(weights, state, n).weights[j]
                <= weights[j],
    decreases n,
{
    if n > 0 {
        let k = (n - 1) as nat;
        lemma_pass_of_high_weights(weights, state, k);
        let rect = rect_at(state, k);
        let circle = circle_at(state, k);
        let t0 = pass_upto(weights, state, k);
        let rp = rect_pattern(rect);
        let cp = circle_pattern(circle);
        lemma_rect_pattern_is_mask(rect);
        lemma_rect_pattern_holds_corner(rect);
        lemma_circle_pattern_is_mask(circle);
        lemma_circle_pattern_holds_centre(circle);
        assert forall|j: int| 0 <= j < CELLS implies #[trigger] t0.weights[j] >= BIAS + 1 by {
            assert(weights[j] >= BIAS + n);
        }
        lemma_response_at_least(rp, t0.weights, BIAS + 1, cell_index(rect.x as int, rect.y as int));
        let t1 = rect_step(t0, rp);
        assert forall|j: int| 0 <= j < CELLS implies #[trigger] t1.weights[j] >= BIAS by {
            assert(t0.weights[j] >= BIAS + 1);
            assert(0 <= rp[j] <= 1);
        }
        lemma_response_at_least(
            cp,
            t1.weights,
            BIAS as int,
            cell_index(circle.cx as int, circle.cy as int),
        );
        let t2 = circle_step(t1, cp);
        assert(t2 == t1);
        assert forall|j: int| 0 <= j < CELLS implies weights[j] - n <= #[trigger] t2.weights[j]
            <= weights[j] by {
            assert(weights[j] - k <= t0.weights[j] <= weights[j]);
            assert(0 <= rp[j] <= 1);
        }
    }
}

/// Weights that lie at least `n` below zero in every cell are corrected for
/// every disc and for no rectangle: `n` pairs make `n` corrections and raise
/// no weight by more than `n`.
pub proof fn lemma_pass_of_low_weights(weights: Seq<int>, state: Seq<u8>, n: nat)
    requires
        forall|j: int| 0 <= j < CELLS ==> #[trigger] weights[j] <= -n,
    ensures
        pass_upto(weights, state, n).snapshots.len() == n,
        forall|j: int|
            0 <= j < CELLS ==> weights[j] <= #[trigger] pass_upto(weights, state, n).weights[j]
                <= weights[j] + n,
    decreases n,
{
    if n > 0 {
        let k = (n - 1) as nat;
        lemma_pass_of_low_weights(weights, state, k);
        let t0 = pass_upto(weights, state, k);
        let rp = rect_pattern(rect_at(state, k));
        let cp = circle_pattern(circle_at(state, k));
        lemma_rect_pattern_is_mask(rect_at(state, k));
        lemma_circle_pattern_is_mask(circle_at(state, k));
        assert forall|j: int| 0 <= j < CELLS implies #[trigger] t0.weights[j] <= 0 by {
            assert(weights[j] <= -n);
        }
        lemma_response_at_most_zero(rp, t0.weights);
        let t1 = rect_step(t0, rp);
        assert(t1 == t0);
        lemma_response_at_most_zero(cp, t0.weights);
        let t2 = circle_step(t1, cp);
        assert forall|j: int| 0 <= j < CELLS implies weights[j] <= #[trigger] t2.weights[j]
            <= weights[j] + n by {
            assert(weights[j] <= t0.weights[j] <= weights[j] + k);
            assert(0 <= cp[j] <= 1);
        }
    }
}

} // verus!
