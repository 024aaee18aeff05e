//! The fixed-size cell layer and the two primitives that paint shapes on it.

use crate::config::{CELLS, HEIGHT, WIDTH};
use vstd::prelude::*;

verus! {

/// `x` limited to the closed range from `low` to `hight`: `low` where `x` lies
/// below it, else `hight` where `x` lies above it, else `x` itself.
pub open spec fn clamped(x: int, low: int, hight: int) -> int {
    if x < low {
        low
    } else if x > hight {
        hight
    } else {
        x
    }
}

/// Limits `x` to the closed range from `low` to `hight`.
#[inline]
pub fn clampi(x: i32, low: i32, hight: i32) -> (r: i32)
    ensures
        r == clamped(x as int, low as int, hight as int),
{
    if x < low {
        low
    } else if x > hight {
        hight
    } else {
        x
    }
}

/// Whether column `x`, row `y` names a cell of a layer.
pub open spec fn in_layer(x: int, y: int) -> bool {
    0 <= x < WIDTH && 0 <= y < HEIGHT
}

/// Place of the cell at column `x`, row `y` in a layer's view: rows follow
/// one another, each `WIDTH` cells long.
pub open spec fn cell_index(x: int, y: int) -> int {
    y * WIDTH + x
}

/// The view of a layer whose cells are all zero.
pub open spec fn blank() -> Seq<int> {
    Seq::new(CELLS as nat, |i: int| 0int)
}

/// A grid of `WIDTH` by `HEIGHT` whole-number cells. A layer serves either as
/// an input pattern, whose cells are 0 or 1, or as the weights that training
/// accumulates.
#[derive(Debug, PartialEq, Eq)]
pub struct Layer {
    cells: Vec<i32>,
}

impl View for Layer {
    type V = Seq<int>;

    /// The cells row by row, always `CELLS` of them.
    closed spec fn view(&self) -> Seq<int> {
        Seq::new(CELLS as nat, |i: int| self.cells@[i] as int)
    }
}

impl Layer {
    #[verifier::type_invariant]
    spec fn well_formed(&self) -> bool {
        self.cells@.len() == CELLS
    }

    /// The cell at column `x`, row `y`.
    pub open spec fn at(&self, x: int, y: int) -> int {
        self@[cell_index(x, y)]
    }

    /// Every view has `CELLS` cells, each within the range of `i32`.
    pub proof fn lemma_view_shape(&self)
        ensures
            self@.len() == CELLS,
            forall|i: int| 0 <= i < CELLS ==> i32::MIN <= #[trigger] self@[i] <= i32::MAX,
    {
    }

    /// A layer of zeros.
    pub fn new() -> (layer: Layer)
        ensures
            layer@ == blank(),
    {
        let mut cells: Vec<i32> = Vec::new();
        let mut i: usize = 0;
        while i < CELLS
            invariant
                i <= CELLS,
                cells@.len() == i,
                forall|k: int| 0 <= k < i ==> cells@[k] == 0,
            decreases CELLS - i,
        {
            cells.push(0);
            i += 1;
        }
        Layer { cells }
    }

    /// Reads the cell at column `x`, row `y`; `None` outside the layer.
    pub fn get(&self, x: usize, y: usize) -> (cell: Option<i32>)
        ensures
            match cell {
                Some(c) => in_layer(x as int, y as int) && c == self.at(x as int, y as int),
                None => !in_layer(x as int, y as int),
            },
    {
        if x < WIDTH && y < HEIGHT {
            Some(self.cell(y * WIDTH + x))
        } else {
            None
        }
    }

    /// Writes `value` to the cell at column `x`, row `y` and says whether it
    /// did: outside the layer nothing is written.
    pub fn set(&mut self, x: usize, y: usize, value: i32) -> (written: bool)
        ensures
            written == in_layer(x as int, y as int),
            final(self)@ == if written {
                old(self)@.update(cell_index(x as int, y as int), value as int)
            } else {
                old(self)@
            },
    {
        if x < WIDTH && y < HEIGHT {
            self.put(y * WIDTH + x, value);
            true
        } else {
            false
        }
    }

    /// A copy of this layer.
    pub fn copy(&self) -> (layer: Layer)
        ensures
            layer@ == self@,
    {
        let mut layer = Layer::new();
        let mut i: usize = 0;
        while i < CELLS
            invariant
                i <= CELLS,
                forall|k: int| 0 <= k < i ==> layer@[k] == self@[k],
                layer@.len() == CELLS,
            decreases CELLS - i,
        {
            let c = self.cell(i);
            layer.put(i, c);
            i += 1;
        }
        proof {
            self.lemma_view_shape();
        }
        layer
    }

    /// Reads the cell at place `i` of the view.
    pub(crate) fn cell(&self, i: usize) -> (c: i32)
        requires
            i < CELLS,
        ensures
            c == self@[i as int],
    {
        proof {
            use_type_invariant(self);
        }
        self.cells[i]
    }

    /// Writes `value` at place `i` of the view.
    pub(crate) fn put(&mut self, i: usize, value: i32)
        requires
            i < CELLS,
        ensures
            final(self)@ == old(self)@.update(i as int, value as int),
    {
        proof {
            use_type_invariant(&*self);
        }
        self.cells[i] = value;
        assert(self@ =~= old(self)@.update(i as int, value as int));
    }
}

/// `v` limited to the closed range from 0 to `last`.
fn clamp_to_last(v: i64, last: i32) -> (r: i32)
    requires
        0 <= last,
    ensures
        r == clamped(v as int, 0, last as int),
{
    if v < 0 {
        0
    } else if v > last as i64 {
        last
    } else {
        v as i32
    }
}

/// Whether the cell at column `px`, row `py` lies in the box that a rectangle
/// at `x`, `y` of extent `w` paints. The corner is first limited to the layer.
/// The last column and the last row are both `w - 1` cells further on,
/// limited to the layer again: the box is as high as it is wide.
pub open spec fn rect_covers(x: int, y: int, w: int, px: int, py: int) -> bool {
    let x0 = clamped(x, 0, WIDTH - 1);
    let y0 = clamped(y, 0, HEIGHT - 1);
    let x1 = clamped(x0 + w - 1, 0, WIDTH - 1);
    let y1 = clamped(y0 + w - 1, 0, HEIGHT - 1);
    x0 <= px <= x1 && y0 <= py <= y1
}

/// The cells `cells` after a rectangle at `x`, `y` of extent `w` was painted
/// with `value`: covered cells hold `value`, all others are as before.
pub open spec fn rect_filled(cells: Seq<int>, x: int, y: int, w: int, value: int) -> Seq<int> {
    Seq::new(
        CELLS as nat,
        |i: int|
            if rect_covers(x, y, w, i % (WIDTH as int), i / (WIDTH as int)) {
                value
            } else {
                cells[i]
            },
    )
}

/// Whether the cell at column `px`, row `py` lies in the disc of radius `r`
/// around `cx`, `cy`: inside the disc's bounding box, limited to the layer,
/// and no further from the centre than `r`.
pub open spec fn circle_covers(cx: int, cy: int, r: int, px: int, py: int) -> bool {
    &&& clamped(cx - r, 0, WIDTH - 1) <= px <= clamped(cx + r, 0, WIDTH - 1)
    &&& clamped(cy - r, 0, HEIGHT - 1) <= py <= clamped(cy + r, 0, HEIGHT - 1)
    &&& (px - cx) * (px - cx) + (py - cy) * (py - cy) <= r * r
}

/// The cells `cells` after a disc of radius `r` around `cx`, `cy` was painted
/// with `value`: covered cells hold `value`, all others are as before.
pub open spec fn circle_filled(cells: Seq<int>, cx: int, cy: int, r: int, value: int) -> Seq<
    int,
> {
    Seq::new(
        CELLS as nat,
        |i: int|
            if circle_covers(cx, cy, r, i % (WIDTH as int), i / (WIDTH as int)) {
                value
            } else {
                cells[i]
            },
    )
}

/// Paints a rectangle with `value`. The corner `x`, `y` is moved into the
/// layer where it lies outside; the box then reaches `w - 1` cells to the
/// right and `w - 1` cells down, cut off at the layer's last column and row.
/// `h` has to be positive and has no other part in the result. No cell
/// outside the box changes.
pub fn layer_fill_rect(layer: &mut Layer, x: i32, y: i32, w: i32, h: i32, value: i32)
    requires
        w > 0,
        h > 0,
    ensures
        final(layer)@ == rect_filled(old(layer)@, x as int, y as int, w as int, value as int),
        forall|px: int, py: int|
            in_layer(px, py) ==> #[trigger] final(layer).at(px, py) == if rect_covers(
                x as int,
                y as int,
                w as int,
                px,
                py,
            ) {
                value as int
            } else {
                old(layer).at(px, py)
            },
{
    let x0 = clampi(x, 0, (WIDTH - 1) as i32);
    let y0 = clampi(y, 0, (HEIGHT - 1) as i32);
    let x1 = clamp_to_last(x0 as i64 + w as i64 - 1, (WIDTH - 1) as i32);
    let y1 = clamp_to_last(y0 as i64 + w as i64 - 1, (HEIGHT - 1) as i32);
    let ghost before = layer@;
    let ghost target = rect_filled(before, x as int, y as int, w as int, value as int);
    proof {
        layer.lemma_view_shape();
    }
    let mut py: i32 = y0;
    while py <= y1
        invariant
            0 <= x0 <= x1 < WIDTH,
            0 <= y0 <= py <= y1 + 1 <= HEIGHT,
            x0 == clamped(x as int, 0, WIDTH - 1),
            y0 == clamped(y as int, 0, HEIGHT - 1),
            x1 == clamped(x0 + w - 1, 0, WIDTH - 1),
            y1 == clamped(y0 + w - 1, 0, HEIGHT - 1),
            before.len() == CELLS,
            target == rect_filled(before, x as int, y as int, w as int, value as int),
            layer@.len() == CELLS,
            forall|i: int| 0 <= i < py * WIDTH + x0 && i < CELLS ==> layer@[i] == target[i],
            forall|i: int| py * WIDTH + x0 <= i < CELLS ==> layer@[i] == before[i],
        decreases y1 + 1 - py,
    {
        let mut px: i32 = x0;
        while px <= x1
            invariant
                0 <= x0 <= px <= x1 + 1 <= WIDTH,
                0 <= y0 <= py <= y1 < HEIGHT,
                x0 == clamped(x as int, 0, WIDTH - 1),
                y0 == clamped(y as int, 0, HEIGHT - 1),
                x1 == clamped(x0 + w - 1, 0, WIDTH - 1),
                y1 == clamped(y0 + w - 1, 0, HEIGHT - 1),
                before.len() == CELLS,
                target == rect_filled(before, x as int, y as int, w as int, value as int),
                layer@.len() == CELLS,
                forall|i: int| 0 <= i < py * WIDTH + px ==> layer@[i] == target[i],
                forall|i: int| py * WIDTH + px <= i < CELLS ==> layer@[i] == before[i],
            decreases x1 + 1 - px,
        {
            layer.put(py as usize * WIDTH + px as usize, value);
            px += 1;
        }
        py += 1;
    }
    assert(layer@ =~= target);
    assert forall|px: int, py: int| in_layer(px, py) implies #[trigger] layer.at(px, py)
        == if rect_covers(x as int, y as int, w as int, px, py) {
        value as int
    } else {
        before[cell_index(px, py)]
    } by {
        let i = cell_index(px, py);
        assert(i % (WIDTH as int) == px && i / (WIDTH as int) == py);
    }
}

/// Paints a disc with `value`: every cell of the layer that lies in the
/// bounding box of the disc and no further than `r` from `cx`, `cy`. No other
/// cell changes.
pub fn layer_fill_circle(layer: &mut Layer, cx: i32, cy: i32, r: i32, value: i32)
    requires
        r > 0,
    ensures
        final(layer)@ == circle_filled(old(layer)@, cx as int, cy as int, r as int, value as int),
        forall|px: int, py: int|
            in_layer(px, py) ==> #[trigger] final(layer).at(px, py) == if circle_covers(
                cx as int,
                cy as int,
                r as int,
                px,
                py,
            ) {
                value as int
            } else {
                old(layer).at(px, py)
            },
{
    let x0 = clamp_to_last(cx as i64 - r as i64, (WIDTH - 1) as i32);
    let y0 = clamp_to_last(cy as i64 - r as i64, (HEIGHT - 1) as i32);
    let x1 = clamp_to_last(cx as i64 + r as i64, (WIDTH - 1) as i32);
    let y1 = clamp_to_last(cy as i64 + r as i64, (HEIGHT - 1) as i32);
    let ghost before = layer@;
    let ghost target = circle_filled(before, cx as int, cy as int, r as int, value as int);
    proof {
        layer.lemma_view_shape();
    }
    let mut py: i32 = y0;
    while py <= y1
        invariant
            0 <= x0 <= x1 < WIDTH,
            0 <= y0 <= py <= y1 + 1 <= HEIGHT,
            r > 0,
            x0 == clamped(cx - r, 0, WIDTH - 1),
            y0 == clamped(cy - r, 0, HEIGHT - 1),
            x1 == clamped(cx + r, 0, WIDTH - 1),
            y1 == clamped(cy + r, 0, HEIGHT - 1),
            before.len() == CELLS,
            target == circle_filled(before, cx as int, cy as int, r as int, value as int),
            layer@.len() == CELLS,
            forall|i: int| 0 <= i < py * WIDTH + x0 && i < CELLS ==> layer@[i] == target[i],
            forall|i: int| py * WIDTH + x0 <= i < CELLS ==> layer@[i] == before[i],
        decreases y1 + 1 - py,
    {
        let mut px: i32 = x0;
        while px <= x1
            invariant
                0 <= x0 <= px <= x1 + 1 <= WIDTH,
                0 <= y0 <= py <= y1 < HEIGHT,
                r > 0,
                x0 == clamped(cx - r, 0, WIDTH - 1),
                y0 == clamped(cy - r, 0, HEIGHT - 1),
                x1 == clamped(cx + r, 0, WIDTH - 1),
                y1 == clamped(cy + r, 0, HEIGHT - 1),
                before.len() == CELLS,
                target == circle_filled(before, cx as int, cy as int, r as int, value as int),
                layer@.len() == CELLS,
                forall|i: int| 0 <= i < py * WIDTH + px ==> layer@[i] == target[i],
                forall|i: int| py * WIDTH + px <= i < CELLS ==> layer@[i] == before[i],
            decreases x1 + 1 - px,
        {
            if within_radius(px, py, cx, cy, r) {
                layer.put(py as usize * WIDTH + px as usize, value);
            }
            px += 1;
        }
        py += 1;
    }
    assert(layer@ =~= target);
    assert forall|px: int, py: int| in_layer(px, py) implies #[trigger] layer.at(px, py)
        == if circle_covers(cx as int, cy as int, r as int, px, py) {
        value as int
    } else {
        before[cell_index(px, py)]
    } by {
        let i = cell_index(px, py);
        assert(i % (WIDTH as int) == px && i / (WIDTH as int) == py);
    }
}

/// Whether the cell at column `px`, row `py` is no further than `r` from
/// `cx`, `cy`, by squared distance.
fn within_radius(px: i32, py: i32, cx: i32, cy: i32, r: i32) -> (near: bool)
    requires
        0 <= px < WIDTH,
        0 <= py < HEIGHT,
    ensures
        near == ((px - cx) * (px - cx) + (py - cy) * (py - cy) <= r * r),
{
    let dx: i128 = px as i128 - cx as i128;
    let dy: i128 = py as i128 - cy as i128;
    let reach: i128 = r as i128;
    assert(dx * dx <= 0x1_0000_0000 * 0x1_0000_0000) by (nonlinear_arith)
        requires
            -0x1_0000_0000 <= dx <= 0x1_0000_0000,
    ;
    assert(dy * dy <= 0x1_0000_0000 * 0x1_0000_0000) by (nonlinear_arith)
        requires
            -0x1_0000_0000 <= dy <= 0x1_0000_0000,
    ;
    assert(reach * reach <= 0x1_0000_0000 * 0x1_0000_0000) by (nonlinear_arith)
        requires
            -0x1_0000_0000 <= reach <= 0x1_0000_0000,
    ;
    assert(dx * dx >= 0 && dy * dy >= 0 && reach * reach >= 0) by (nonlinear_arith);
    dx * dx + dy * dy <= reach * reach
}

} // verus!
