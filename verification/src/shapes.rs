//! The generator of input patterns: one rectangle or one disc of ones on a
//! layer of zeros, with its place and size drawn from a random stream.

use crate::config::{CELLS, HEIGHT, WIDTH};
use crate::layer::{
    blank, cell_index, circle_filled, layer_fill_circle, layer_fill_rect, rect_filled, Layer,
};
use crate::stream::{draw_i32, draw_u64, drawn_i32, drawn_u64, stream_state};
use rand_chacha::ChaCha8Rng;
use vstd::prelude::*;

verus! {

/// A rectangle to paint: its corner and its two extents.
#[derive(Debug, Clone, Copy, PartialEq, Eq, Structural)]
pub struct Rect {
    pub x: i32,
    pub y: i32,
    pub w: i32,
    pub h: i32,
}

/// A disc to paint: its centre and its radius.
#[derive(Debug, Clone, Copy, PartialEq, Eq, Structural)]
pub struct Circle {
    pub cx: i32,
    pub cy: i32,
    pub r: i32,
}

/// The pattern that shows `rect`: ones in its box, zeros elsewhere.
pub open spec fn rect_pattern(rect: Rect) -> Seq<int> {
    rect_filled(blank(), rect.x as int, rect.y as int, rect.w as int, 1)
}

/// The pattern that shows `circle`: ones in its disc, zeros elsewhere.
pub open spec fn circle_pattern(circle: Circle) -> Seq<int> {
    circle_filled(blank(), circle.cx as int, circle.cy as int, circle.r as int, 1)
}

/// End of the range that a rectangle's width is drawn from, for a corner in
/// column `x`: the columns from `x` to the layer's edge, but never under 2.
pub open spec fn width_limit(x: int) -> int {
    if WIDTH - x < 2 {
        2
    } else {
        WIDTH - x
    }
}

/// End of the range that a rectangle's height is drawn from, for a corner in
/// column `x`: `HEIGHT - x`, but never under 2. The column decides here
/// too, not the row.
pub open spec fn height_limit(x: int) -> int {
    if HEIGHT - x < 2 {
        2
    } else {
        HEIGHT - x
    }
}

/// End of the range that a disc's radius is drawn from, for a centre at `cx`,
/// `cy`: the least of `cx`, `cy`, `WIDTH - cx` and `HEIGHT - cy`, but never
/// under 2.
pub open spec fn radius_limit(cx: int, cy: int) -> int {
    let a = if cx < cy { cx } else { cy };
    let b = if WIDTH - cx < HEIGHT - cy { WIDTH - cx } else { HEIGHT - cy };
    let least = if a < b { a } else { b };
    if least < 2 {
        2
    } else {
        least
    }
}

/// Whether `rect` is one that a stream can yield: the corner lies in the
/// layer and each extent is at least 1 and under its limit for the corner's
/// column. Such a rectangle ends at or before the layer's last column, and
/// in the last column it is one cell wide.
pub open spec fn rect_in_range(rect: Rect) -> bool {
    &&& 0 <= rect.x < WIDTH
    &&& 0 <= rect.y < HEIGHT
    &&& 1 <= rect.w < width_limit(rect.x as int)
    &&& 1 <= rect.h < height_limit(rect.x as int)
}

/// Whether `circle` is one that a stream can yield: the centre lies in the
/// layer and the radius is at least 1 and under the radius limit of the
/// centre. Such a disc is cut off by no edge unless its radius is 1.
pub open spec fn circle_in_range(circle: Circle) -> bool {
    &&& 0 <= circle.cx < WIDTH
    &&& 0 <= circle.cy < HEIGHT
    &&& 1 <= circle.r < radius_limit(circle.cx as int, circle.cy as int)
}

/// The rectangle that a stream in state `state` yields, and the state after
/// it. Four draws are made, in this order: the column from `0..WIDTH`, the row
/// from `0..HEIGHT`, the width from 1 up to the width limit of the column, the
/// height from 1 up to the height limit of the column.
pub open spec fn drawn_rect(state: Seq<u8>) -> (Rect, Seq<u8>) {
    let (x, s1) = drawn_u64(state, 0, WIDTH as u64);
    let (y, s2) = drawn_u64(s1, 0, HEIGHT as u64);
    let (w, s3) = drawn_u64(s2, 1, width_limit(x as int) as u64);
    let (h, s4) = drawn_u64(s3, 1, height_limit(x as int) as u64);
    (Rect { x: x as i32, y: y as i32, w: w as i32, h: h as i32 }, s4)
}

/// The disc that a stream in state `state` yields, and the state after it.
/// Three draws are made, in this order: the centre's column from `0..WIDTH`,
/// its row from `0..HEIGHT`, the radius from 1 up to the radius limit of the
/// centre.
pub open spec fn drawn_circle(state: Seq<u8>) -> (Circle, Seq<u8>) {
    let (cx, s1) = drawn_u64(state, 0, WIDTH as u64);
    let (cy, s2) = drawn_u64(s1, 0, HEIGHT as u64);
    let (r, s3) = drawn_i32(s2, 1, radius_limit(cx as int, cy as int) as i32);
    (Circle { cx: cx as i32, cy: cy as i32, r }, s3)
}

/// Computes the end of the range that a rectangle's width is drawn from.
pub fn rect_width_limit(x: u64) -> (limit: u64)
    ensures
        limit == width_limit(x as int),
{
    if x > WIDTH as u64 || WIDTH as u64 - x < 2 {
        2
    } else {
        WIDTH as u64 - x
    }
}

/// Computes the end of the range that a rectangle's height is drawn from.
pub fn rect_height_limit(x: u64) -> (limit: u64)
    ensures
        limit == height_limit(x as int),
{
    if x > HEIGHT as u64 || HEIGHT as u64 - x < 2 {
        2
    } else {
        HEIGHT as u64 - x
    }
}

/// Computes the end of the range that a disc's radius is drawn from.
pub fn circle_radius_limit(cx: i32, cy: i32) -> (limit: i32)
    ensures
        limit == radius_limit(cx as int, cy as int),
{
    let mut least: i64 = if cx < cy { cx as i64 } else { cy as i64 };
    if least > WIDTH as i64 - cx as i64 {
        least = WIDTH as i64 - cx as i64;
    }
    if least > HEIGHT as i64 - cy as i64 {
        least = HEIGHT as i64 - cy as i64;
    }
    if least < 2 {
        2
    } else {
        least as i32
    }
}

/// Draws a rectangle from the stream. The corner lies in the layer, both
/// extents are at least 1, and the rectangle ends at or before the layer's
/// last column.
pub fn draw_rect(rng: &mut ChaCha8Rng) -> (rect: Rect)
    ensures
        (rect, stream_state(*final(rng))) == drawn_rect(stream_state(*old(rng))),
        rect_in_range(rect),
        rect.x + rect.w <= WIDTH,
{
    let x = draw_u64(rng, 0, WIDTH as u64);
    let y = draw_u64(rng, 0, HEIGHT as u64);
    let w = draw_u64(rng, 1, rect_width_limit(x));
    let h = draw_u64(rng, 1, rect_height_limit(x));
    Rect { x: x as i32, y: y as i32, w: w as i32, h: h as i32 }
}

/// Draws a disc from the stream. The centre lies in the layer and the radius
/// is at least 1 and under the radius limit of the centre.
pub fn draw_circle(rng: &mut ChaCha8Rng) -> (circle: Circle)
    ensures
        (circle, stream_state(*final(rng))) == drawn_circle(stream_state(*old(rng))),
        circle_in_range(circle),
{
    let cx = draw_u64(rng, 0, WIDTH as u64) as i32;
    let cy = draw_u64(rng, 0, HEIGHT as u64) as i32;
    let r = draw_i32(rng, 1, circle_radius_limit(cx, cy));
    Circle { cx, cy, r }
}

/// Clears the layer and paints `rect` on it with ones.
pub fn stamp_rect(layer: &mut Layer, rect: Rect)
    requires
        rect.w > 0,
        rect.h > 0,
    ensures
        final(layer)@ == rect_pattern(rect),
{
    layer_fill_rect(layer, 0, 0, WIDTH as i32, HEIGHT as i32, 0);
    assert(layer@ =~= blank());
    layer_fill_rect(layer, rect.x, rect.y, rect.w, rect.h, 1);
}

/// Clears the layer and paints `circle` on it with ones.
pub fn stamp_circle(layer: &mut Layer, circle: Circle)
    requires
        circle.r > 0,
    ensures
        final(layer)@ == circle_pattern(circle),
{
    layer_fill_rect(layer, 0, 0, WIDTH as i32, HEIGHT as i32, 0);
    assert(layer@ =~= blank());
    layer_fill_circle(layer, circle.cx, circle.cy, circle.r, 1);
}

/// Replaces the layer by the pattern of a rectangle drawn from the stream.
/// The rectangle drawn lies in its ranges.
pub fn layer_random_rect(layer: &mut Layer, rng: &mut ChaCha8Rng)
    ensures
        final(layer)@ == rect_pattern(drawn_rect(stream_state(*old(rng))).0),
        stream_state(*final(rng)) == drawn_rect(stream_state(*old(rng))).1,
        rect_in_range(drawn_rect(stream_state(*old(rng))).0),
{
    let rect = draw_rect(rng);
    stamp_rect(layer, rect);
}

/// Replaces the layer by the pattern of a disc drawn from the stream. The
/// disc drawn lies in its ranges.
pub fn layer_random_circle(layer: &mut Layer, rng: &mut ChaCha8Rng)
    ensures
        final(layer)@ == circle_pattern(drawn_circle(stream_state(*old(rng))).0),
        stream_state(*final(rng)) == drawn_circle(stream_state(*old(rng))).1,
        circle_in_range(drawn_circle(stream_state(*old(rng))).0),
{
    let circle = draw_circle(rng);
    stamp_circle(layer, circle);
}

/// State of a stream that started in `state` and has yielded `n` pairs of a
/// rectangle and a disc, the rectangle first each time.
pub open spec fn stream_after_pairs(state: Seq<u8>, n: nat) -> Seq<u8>
    decreases n,
{
    if n == 0 {
        state
    } else {
        drawn_circle(drawn_rect(stream_after_pairs(state, (n - 1) as nat)).1).1
    }
}

/// The rectangle of pair number `k`, counted from 0, that a stream starting
/// in `state` yields.
pub open spec fn rect_at(state: Seq<u8>, k: nat) -> Rect {
    drawn_rect(stream_after_pairs(state, k)).0
}

/// The disc of pair number `k`, counted from 0, that a stream starting in
/// `state` yields.
pub open spec fn circle_at(state: Seq<u8>, k: nat) -> Circle {
    drawn_circle(drawn_rect(stream_after_pairs(state, k)).1).0
}

/// Whether each of the first `n` pairs that a stream starting in `state`
/// yields lies in its ranges, the rectangle and the disc.
pub open spec fn pairs_in_range(state: Seq<u8>, n: nat) -> bool {
    forall|k: nat|
        k < n ==> rect_in_range(#[trigger] rect_at(state, k)) && circle_in_range(
            circle_at(state, k),
        )
}

/// A pattern of a rectangle holds nothing but zeros and ones.
pub proof fn lemma_rect_pattern_is_mask(rect: Rect)
    ensures
        rect_pattern(rect).len() == CELLS,
        forall|i: int| 0 <= i < CELLS ==> 0 <= #[trigger] rect_pattern(rect)[i] <= 1,
{
}

/// A pattern of a disc holds nothing but zeros and ones.
pub proof fn lemma_circle_pattern_is_mask(circle: Circle)
    ensures
        circle_pattern(circle).len() == CELLS,
        forall|i: int| 0 <= i < CELLS ==> 0 <= #[trigger] circle_pattern(circle)[i] <= 1,
{
}

/// The pattern of a rectangle in range holds a one at the rectangle's corner.
pub proof fn lemma_rect_pattern_holds_corner(rect: Rect)
    requires
        rect_in_range(rect),
    ensures
        0 <= cell_index(rect.x as int, rect.y as int) < CELLS,
        rect_pattern(rect)[cell_index(rect.x as int, rect.y as int)] == 1,
{
    let i = cell_index(rect.x as int, rect.y as int);
    assert(i % (WIDTH as int) == rect.x && i / (WIDTH as int) == rect.y);
}

/// The pattern of a disc in range holds a one at the disc's centre.
pub proof fn lemma_circle_pattern_holds_centre(circle: Circle)
    requires
        circle_in_range(circle),
    ensures
        0 <= cell_index(circle.cx as int, circle.cy as int) < CELLS,
        circle_pattern(circle)[cell_index(circle.cx as int, circle.cy as int)] == 1,
{
    let i = cell_index(circle.cx as int, circle.cy as int);
    let r = circle.r as int;
    assert(i % (WIDTH as int) == circle.cx && i / (WIDTH as int) == circle.cy);
    assert(0 * 0 + 0 * 0 <= r * r) by (nonlinear_arith);
}

} // verus!
