use shape_perceptron::classifier::{
    add_inputs_from_weights, feed_forward, looks_like_circle, looks_like_rect,
    sub_inputs_from_weights,
};
use shape_perceptron::config::{BIAS, HEIGHT, WIDTH};
use shape_perceptron::layer::{layer_fill_rect, Layer};

fn ramp(step: i32, start: i32) -> Layer {
    let mut layer = Layer::new();
    for y in 0..HEIGHT {
        for x in 0..WIDTH {
            layer.set(x, y, start + step * (y * WIDTH + x) as i32);
        }
    }
    layer
}

fn cellwise(a: &Layer, b: &Layer, sign: i32) -> Layer {
    let mut out = Layer::new();
    for y in 0..HEIGHT {
        for x in 0..WIDTH {
            out.set(x, y, a.get(x, y).unwrap() + sign * b.get(x, y).unwrap());
        }
    }
    out
}

#[test]
fn feed_forward_of_zero_weights_is_zero() {
    assert_eq!(feed_forward(&ramp(3, -5), &Layer::new()), 0);
    assert_eq!(feed_forward(&Layer::new(), &ramp(3, -5)), 0);
}

#[test]
fn feed_forward_sums_products() {
    let mut inputs = Layer::new();
    let mut weights = Layer::new();
    inputs.set(0, 0, 2);
    inputs.set(5, 7, -3);
    inputs.set(19, 19, 4);
    weights.set(0, 0, 10);
    weights.set(5, 7, 6);
    weights.set(19, 19, -1);
    weights.set(1, 1, 1000);
    assert_eq!(feed_forward(&inputs, &weights), 20 - 18 - 4);
}

#[test]
fn feed_forward_of_ramps_has_closed_form() {
    let ones = ramp(0, 1);
    let up = ramp(1, 0);
    assert_eq!(feed_forward(&ones, &up), 399 * 400 / 2);
    assert_eq!(feed_forward(&up, &up), 399 * 400 * 799 / 6);
}

#[test]
fn feed_forward_holds_the_largest_cells() {
    let big = ramp(0, i32::MIN);
    let expected = 400i128 * (i32::MIN as i128) * (i32::MIN as i128);
    assert_eq!(feed_forward(&big, &big), expected);
}

#[test]
fn feed_forward_is_additive_in_inputs() {
    let a = ramp(2, -7);
    let b = ramp(-3, 11);
    let w = ramp(5, -1000);
    let sum = cellwise(&a, &b, 1);
    assert_eq!(
        feed_forward(&sum, &w),
        feed_forward(&a, &w) + feed_forward(&b, &w)
    );
}

#[test]
fn feed_forward_is_additive_in_weights_and_symmetric() {
    let a = ramp(2, -7);
    let v = ramp(-3, 11);
    let w = ramp(5, -1000);
    let sum = cellwise(&v, &w, 1);
    assert_eq!(
        feed_forward(&a, &sum),
        feed_forward(&a, &v) + feed_forward(&a, &w)
    );
    assert_eq!(feed_forward(&a, &w), feed_forward(&w, &a));
}

#[test]
fn feed_forward_scales_with_inputs() {
    let a = ramp(2, -7);
    let w = ramp(5, -1000);
    let tripled = cellwise(&cellwise(&a, &a, 1), &a, 1);
    assert_eq!(feed_forward(&tripled, &w), 3 * feed_forward(&a, &w));
}

#[test]
fn response_equal_to_bias_is_neither_shape() {
    assert_eq!(BIAS, 20);
    assert!(!looks_like_rect(BIAS));
    assert!(!looks_like_circle(BIAS));
    assert!(looks_like_rect(BIAS + 1));
    assert!(!looks_like_circle(BIAS + 1));
    assert!(looks_like_circle(BIAS - 1));
    assert!(!looks_like_rect(BIAS - 1));
}

#[test]
fn add_inputs_adds_cell_by_cell() {
    let inputs = ramp(1, 0);
    let mut weights = ramp(-2, 50);
    let expected = cellwise(&weights, &inputs, 1);
    add_inputs_from_weights(&inputs, &mut weights);
    assert_eq!(weights, expected);
    assert_eq!(weights.get(3, 0), Some(50 - 6 + 3));
}

#[test]
fn sub_inputs_subtracts_cell_by_cell() {
    let inputs = ramp(1, 0);
    let mut weights = ramp(-2, 50);
    let expected = cellwise(&weights, &inputs, -1);
    sub_inputs_from_weights(&inputs, &mut weights);
    assert_eq!(weights, expected);
    assert_eq!(weights.get(3, 0), Some(50 - 6 - 3));
}

#[test]
fn add_then_sub_restores_weights() {
    let mut inputs = Layer::new();
    layer_fill_rect(&mut inputs, 4, 4, 3, 3, 1);
    let mut weights = ramp(1, -200);
    let before = weights.copy();
    add_inputs_from_weights(&inputs, &mut weights);
    assert_ne!(weights, before);
    sub_inputs_from_weights(&inputs, &mut weights);
    assert_eq!(weights, before);
}

#[test]
fn add_inputs_reaches_the_cell_limits() {
    let inputs = ramp(0, 1);
    let mut weights = ramp(0, i32::MAX - 1);
    add_inputs_from_weights(&inputs, &mut weights);
    assert_eq!(weights, ramp(0, i32::MAX));
    let mut low = ramp(0, i32::MIN + 1);
    sub_inputs_from_weights(&inputs, &mut low);
    assert_eq!(low, ramp(0, i32::MIN));
}
