//! The linear classifier: the response of a weight layer to an input layer,
//! and the two cell-wise updates that training applies to the weights.

use crate::config::{BIAS, CELLS};
use crate::layer::{blank, Layer};
use vstd::prelude::*;

verus! {

/// Sum of the products `a[i] * b[i]` over the first `n` cells.
pub open spec fn dot_prefix(a: Seq<int>, b: Seq<int>, n: nat) -> int
    decreases n,
{
    if n == 0 {
        0
    } else {
        dot_prefix(a, b, (n - 1) as nat) + a[n - 1] * b[n - 1]
    }
}

/// The response of `weights` to `inputs`: the sum over all cells of input
/// times weight, with no scaling and no activation.
pub open spec fn response(inputs: Seq<int>, weights: Seq<int>) -> int {
    dot_prefix(inputs, weights, CELLS as nat)
}

/// Cell by cell, `a` plus `b`.
pub open spec fn cellwise_sum(a: Seq<int>, b: Seq<int>) -> Seq<int> {
    Seq::new(CELLS as nat, |i: int| a[i] + b[i])
}

/// Cell by cell, `a` minus `b`.
pub open spec fn cellwise_diff(a: Seq<int>, b: Seq<int>) -> Seq<int> {
    Seq::new(CELLS as nat, |i: int| a[i] - b[i])
}

/// Every cell of `a` times `k`.
pub open spec fn scaled(a: Seq<int>, k: int) -> Seq<int> {
    Seq::new(CELLS as nat, |i: int| k * a[i])
}

/// Whether every cell of `a` plus `b` fits a cell.
pub open spec fn sum_fits(a: Seq<int>, b: Seq<int>) -> bool {
    forall|i: int| 0 <= i < CELLS ==> i32::MIN <= #[trigger] a[i] + b[i] <= i32::MAX
}

/// Whether every cell of `a` minus `b` fits a cell.
pub open spec fn diff_fits(a: Seq<int>, b: Seq<int>) -> bool {
    forall|i: int| 0 <= i < CELLS ==> i32::MIN <= #[trigger] a[i] - b[i] <= i32::MAX
}

/// Computes the response of `weights` to `inputs`.
pub fn feed_forward(inputs: &Layer, weights: &Layer) -> (output: i128)
    ensures
        output == response(inputs@, weights@),
{
    let mut output: i128 = 0;
    let mut i: usize = 0;
    proof {
        inputs.lemma_view_shape();
        weights.lemma_view_shape();
    }
    while i < CELLS
        invariant
            i <= CELLS,
            output == dot_prefix(inputs@, weights@, i as nat),
            -i * 0x4000_0000_0000_0000 <= output <= i * 0x4000_0000_0000_0000,
            forall|k: int| 0 <= k < CELLS ==> i32::MIN <= #[trigger] inputs@[k] <= i32::MAX,
            forall|k: int| 0 <= k < CELLS ==> i32::MIN <= #[trigger] weights@[k] <= i32::MAX,
        decreases CELLS - i,
    {
        let a: i128 = inputs.cell(i) as i128;
        let b: i128 = weights.cell(i) as i128;
        assert(-0x4000_0000_0000_0000 <= a * b <= 0x4000_0000_0000_0000) by (nonlinear_arith)
            requires
                -0x8000_0000 <= a <= 0x7fff_ffff,
                -0x8000_0000 <= b <= 0x7fff_ffff,
        ;
        output = output + a * b;
        i += 1;
    }
    output
}

/// Adds `inputs` to `weights`, cell by cell.
pub fn add_inputs_from_weights(inputs: &Layer, weights: &mut Layer)
    requires
        sum_fits(old(weights)@, inputs@),
    ensures
        final(weights)@ == cellwise_sum(old(weights)@, inputs@),
{
    let ghost before = weights@;
    proof {
        weights.lemma_view_shape();
    }
    let mut i: usize = 0;
    while i < CELLS
        invariant
            i <= CELLS,
            before.len() == CELLS,
            weights@.len() == CELLS,
            sum_fits(before, inputs@),
            forall|k: int| 0 <= k < i ==> weights@[k] == before[k] + inputs@[k],
            forall|k: int| i <= k < CELLS ==> weights@[k] == before[k],
        decreases CELLS - i,
    {
        assert(i32::MIN <= before[i as int] + inputs@[i as int] <= i32::MAX);
        let sum = weights.cell(i) + inputs.cell(i);
        weights.put(i, sum);
        i += 1;
    }
    assert(weights@ =~= cellwise_sum(before, inputs@));
}

/// Subtracts `inputs` from `weights`, cell by cell.
pub fn sub_inputs_from_weights(inputs: &Layer, weights: &mut Layer)
    requires
        diff_fits(old(weights)@, inputs@),
    ensures
        final(weights)@ == cellwise_diff(old(weights)@, inputs@),
{
    let ghost before = weights@;
    proof {
        weights.lemma_view_shape();
    }
    let mut i: usize = 0;
    while i < CELLS
        invariant
            i <= CELLS,
            before.len() == CELLS,
            weights@.len() == CELLS,
            diff_fits(before, inputs@),
            forall|k: int| 0 <= k < i ==> weights@[k] == before[k] - inputs@[k],
            forall|k: int| i <= k < CELLS ==> weights@[k] == before[k],
        decreases CELLS - i,
    {
        assert(i32::MIN <= before[i as int] - inputs@[i as int] <= i32::MAX);
        let diff = weights.cell(i) - inputs.cell(i);
        weights.put(i, diff);
        i += 1;
    }
    assert(weights@ =~= cellwise_diff(before, inputs@));
}

proof fn lemma_dot_prefix_symmetric(a: Seq<int>, b: Seq<int>, n: nat)
    ensures
        dot_prefix(a, b, n) == dot_prefix(b, a, n),
    decreases n,
{
    if n > 0 {
        lemma_dot_prefix_symmetric(a, b, (n - 1) as nat);
        assert(a[n - 1] * b[n - 1] == b[n - 1] * a[n - 1]) by (nonlinear_arith);
    }
}

proof fn lemma_dot_prefix_additive(a: Seq<int>, b: Seq<int>, w: Seq<int>, n: nat)
    requires
        n <= CELLS,
    ensures
        dot_prefix(cellwise_sum(a, b), w, n) == dot_prefix(a, w, n) + dot_prefix(b, w, n),
    decreases n,
{
    if n > 0 {
        lemma_dot_prefix_additive(a, b, w, (n - 1) as nat);
        let x = a[n - 1];
        let y = b[n - 1];
        let z = w[n - 1];
        assert(cellwise_sum(a, b)[n - 1] == x + y);
        assert((x + y) * z == x * z + y * z) by (nonlinear_arith);
    }
}

proof fn lemma_dot_prefix_scales(a: Seq<int>, k: int, w: Seq<int>, n: nat)
    requires
        n <= CELLS,
    ensures
        dot_prefix(scaled(a, k), w, n) == k * dot_prefix(a, w, n),
    decreases n,
{
    if n > 0 {
        lemma_dot_prefix_scales(a, k, w, (n - 1) as nat);
        let x = a[n - 1];
        let z = w[n - 1];
        let rest = dot_prefix(a, w, (n - 1) as nat);
        assert(scaled(a, k)[n - 1] == k * x);
        assert(k * rest + (k * x) * z == k * (rest + x * z)) by (nonlinear_arith);
    }
}

/// The response is the same when inputs and weights change places.
pub proof fn lemma_response_symmetric(a: Seq<int>, b: Seq<int>)
    ensures
        response(a, b) == response(b, a),
{
    lemma_dot_prefix_symmetric(a, b, CELLS as nat);
}

/// The response to the cell-wise sum of two inputs is the sum of the
/// responses to each.
pub proof fn lemma_response_additive(a: Seq<int>, b: Seq<int>, w: Seq<int>)
    ensures
        response(cellwise_sum(a, b), w) == response(a, w) + response(b, w),
{
    lemma_dot_prefix_additive(a, b, w, CELLS as nat);
}

/// The response to an input scaled by `k` is `k` times the response to the
/// input.
pub proof fn lemma_response_scales(a: Seq<int>, k: int, w: Seq<int>)
    ensures
        response(scaled(a, k), w) == k * response(a, w),
{
    lemma_dot_prefix_scales(a, k, w, CELLS as nat);
}

/// Says whether a response lies above the bias, where an input looks like a
/// rectangle. A response equal to the bias does not.
pub fn looks_like_rect(output: i128) -> (above: bool)
    ensures
        above == (output > BIAS),
{
    output > BIAS
}

/// Says whether a response lies below the bias, where an input looks like a
/// circle. A response equal to the bias does not.
pub fn looks_like_circle(output: i128) -> (below: bool)
    ensures
        below == (output < BIAS),
{
    output < BIAS
}

proof fn lemma_dot_prefix_blank(a: Seq<int>, n: nat)
    requires
        n <= CELLS,
    ensures
        dot_prefix(a, blank(), n) == 0,
    decreases n,
{
    if n > 0 {
        lemma_dot_prefix_blank(a, (n - 1) as nat);
        assert(a[n - 1] * 0 == 0) by (nonlinear_arith);
    }
}

/// Weights that are all zero respond with zero to every input.
pub proof fn lemma_response_to_blank(a: Seq<int>)
    ensures
        response(a, blank()) == 0,
{
    lemma_dot_prefix_blank(a, CELLS as nat);
}

proof fn lemma_dot_prefix_at_least(p: Seq<int>, w: Seq<int>, low: int, at: int, n: nat)
    requires
        n <= CELLS,
        low >= 0,
        forall|j: int| 0 <= j < CELLS ==> 0 <= #[trigger] p[j] <= 1,
        forall|j: int| 0 <= j < CELLS ==> #[trigger] w[j] >= low,
    ensures
        dot_prefix(p, w, n) >= 0,
        0 <= at < n && p[at] == 1 ==> dot_prefix(p, w, n) >= low,
    decreases n,
{
    if n > 0 {
        lemma_dot_prefix_at_least(p, w, low, at, (n - 1) as nat);
        let a = p[n - 1];
        let b = w[n - 1];
        assert(a * b >= 0 && (a == 1 ==> a * b == b)) by (nonlinear_arith)
            requires
                0 <= a <= 1,
                b >= 0,
        ;
    }
}

proof fn lemma_dot_prefix_at_most_zero(p: Seq<int>, w: Seq<int>, n: nat)
    requires
        n <= CELLS,
        forall|j: int| 0 <= j < CELLS ==> 0 <= #[trigger] p[j] <= 1,
        forall|j: int| 0 <= j < CELLS ==> #[trigger] w[j] <= 0,
    ensures
        dot_prefix(p, w, n) <= 0,
    decreases n,
{
    if n > 0 {
        lemma_dot_prefix_at_most_zero(p, w, (n - 1) as nat);
        let a = p[n - 1];
        let b = w[n - 1];
        assert(a * b <= 0) by (nonlinear_arith)
            requires
                0 <= a <= 1,
                b <= 0,
        ;
    }
}

/// Weights that are nowhere under `low`, itself not negative, respond with at
/// least `low` to a pattern of zeros and ones that holds a one at place `at`.
pub proof fn lemma_response_at_least(pattern: Seq<int>, weights: Seq<int>, low: int, at: int)
    requires
        low >= 0,
        forall|j: int| 0 <= j < CELLS ==> 0 <= #[trigger] pattern[j] <= 1,
        forall|j: int| 0 <= j < CELLS ==> #[trigger] weights[j] >= low,
        0 <= at < CELLS,
        pattern[at] == 1,
    ensures
        response(pattern, weights) >= low,
{
    lemma_dot_prefix_at_least(pattern, weights, low, at, CELLS as nat);
}

/// Weights that are nowhere above zero respond with at most zero to a
/// pattern of zeros and ones.
pub proof fn lemma_response_at_most_zero(pattern: Seq<int>, weights: Seq<int>)
    requires
        forall|j: int| 0 <= j < CELLS ==> 0 <= #[trigger] pattern[j] <= 1,
        forall|j: int| 0 <= j < CELLS ==> #[trigger] weights[j] <= 0,
    ensures
        response(pattern, weights) <= 0,
{
    lemma_dot_prefix_at_most_zero(pattern, weights, CELLS as nat);
}

} // verus!
