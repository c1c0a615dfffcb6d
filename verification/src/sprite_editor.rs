//! Sprite editor drawing modes and the pixels that its brushes paint.
//!
//! The brush size comes from the editor's slider (1 to 10), so it always fits an
//! `i32`.
use vstd::prelude::*;

verus! {

/// Drawing mode for the sprite editor.
#[derive(Debug, Clone, Copy, PartialEq, Eq, Structural)]
pub enum DrawMode {
    Fill,
    Outline,
    Rect,
    Circle,
}

/// The coordinate that brush offset `d` paints for a brush of `size` at `p`:
/// `p + d - size / 2` computed in `i32`, but at least 0.
pub open spec fn brush_coord(p: u32, d: int, size: u32) -> int {
    let v = (p as i32) as int + d - size as int / 2;
    if v > 0 {
        v
    } else {
        0
    }
}

/// The pixels that the first `k` strokes of the fill brush paint, in stroke order:
/// stroke `k` covers offset (k % size, k / size), and strokes that land outside the
/// `width` x `height` sprite paint nothing.
pub open spec fn fill_stamp(px: u32, py: u32, size: u32, width: u32, height: u32, k: nat) -> Seq<
    (u32, u32),
>
    decreases k,
{
    if k == 0 || size == 0 {
        Seq::empty()
    } else {
        let prev = fill_stamp(px, py, size, width, height, (k - 1) as nat);
        let x = brush_coord(px, (k - 1) % size as int, size);
        let y = brush_coord(py, (k - 1) / size as int, size);
        if x < width && y < height {
            prev.push((x as u32, y as u32))
        } else {
            prev
        }
    }
}

/// The fill brush stays inside `i32` at (px, py).
pub open spec fn fill_brush_ok(px: u32, py: u32, size: u32) -> bool {
    &&& size <= i32::MAX
    &&& (px as i32) as int + size <= i32::MAX + 1
    &&& (py as i32) as int + size <= i32::MAX + 1
    &&& (px as i32) as int - size as int / 2 >= i32::MIN
    &&& (py as i32) as int - size as int / 2 >= i32::MIN
}

fn brush_coord_exec(p: u32, d: u32, size: u32) -> (r: u32)
    requires
        size <= i32::MAX,
        d < size,
        (p as i32) as int + size <= i32::MAX + 1,
        (p as i32) as int - size as int / 2 >= i32::MIN,
    ensures
        r as int == brush_coord(p, d as int, size),
{
    let v = p as i32 + d as i32 - size as i32 / 2;
    if v > 0 {
        v as u32
    } else {
        0
    }
}

/// The pixels that the fill brush of `brush_size` paints when the pointer is on
/// pixel (px, py) of a `width` x `height` sprite: a `brush_size` square around the
/// pixel, row by row, with coordinates below 0 moved to 0 and pixels outside the
/// sprite left out. A pixel may appear more than once.
pub fn fill_brush_pixels(px: u32, py: u32, brush_size: u32, width: u32, height: u32) -> (r: Vec<
    (u32, u32),
>)
    requires
        fill_brush_ok(px, py, brush_size),
    ensures
        r@ == fill_stamp(px, py, brush_size, width, height, (brush_size * brush_size) as nat),
{
    let mut r: Vec<(u32, u32)> = Vec::new();
    let ghost size = brush_size as int;
    let mut dy: u32 = 0;
    while dy < brush_size
        invariant
            fill_brush_ok(px, py, brush_size),
            size == brush_size,
            0 <= dy <= brush_size,
            r@ == fill_stamp(px, py, brush_size, width, height, (dy * size) as nat),
        decreases brush_size - dy,
    {
        let mut dx: u32 = 0;
        while dx < brush_size
            invariant
                fill_brush_ok(px, py, brush_size),
                size == brush_size,
                0 <= dy < brush_size,
                0 <= dx <= brush_size,
                r@ == fill_stamp(px, py, brush_size, width, height, (dy * size + dx) as nat),
            decreases brush_size - dx,
        {
            let ghost k = dy * size + dx;
            proof {
                assert(k % size == dx && k / size == dy) by (nonlinear_arith)
                    requires
                        k == dy * size + dx,
                        0 <= dx < size,
                        0 <= dy,
                ;
                assert(k + 1 - 1 == k);
            }
            let x = brush_coord_exec(px, dx, brush_size);
            let y = brush_coord_exec(py, dy, brush_size);
            if x < width && y < height {
                r.push((x, y));
            }
            dx = dx + 1;
        }
        proof {
            assert(dy * size + size == (dy + 1) * size) by (nonlinear_arith);
        }
        dy = dy + 1;
    }
    r
}

/// The square that the rectangle brush draws for a brush of `brush_size` at (px, py),
/// as (left, top, width, height): side `4 * brush_size`, centred on the pixel.
pub fn rect_brush(px: u32, py: u32, brush_size: u32) -> (r: (i32, i32, i32, i32))
    requires
        brush_size * 4 <= i32::MAX,
        (px as i32) as int - brush_size * 2 >= i32::MIN,
        (py as i32) as int - brush_size * 2 >= i32::MIN,
    ensures
        r.0 == (px as i32) as int - brush_size * 2,
        r.1 == (py as i32) as int - brush_size * 2,
        r.2 == brush_size * 4,
        r.3 == brush_size * 4,
{
    let hw = brush_size * 4;
    let hh = brush_size * 4;
    (px as i32 - hw as i32 / 2, py as i32 - hh as i32 / 2, hw as i32, hh as i32)
}

/// The circle that the circle brush draws for a brush of `brush_size` at (px, py),
/// as (centre x, centre y, radius): radius `4 * brush_size`.
pub fn circle_brush(px: u32, py: u32, brush_size: u32) -> (r: (i32, i32, i32))
    requires
        brush_size * 4 <= i32::MAX,
    ensures
        r.0 == (px as i32),
        r.1 == (py as i32),
        r.2 == brush_size * 4,
{
    let radius = brush_size * 4;
    (px as i32, py as i32, radius as i32)
}

} // verus!
