//! Mapping a pointer position inside a square viewport to a cell coordinate.
//!
//! The field is drawn inside the viewport with `padding` pixels on every side
//! and split into `size` equal tiles per axis, each
//! `(viewport_width - 2 * padding) / size` pixels wide.
use vstd::prelude::*;

verus! {

/// Whether a click at `(x, y)` falls on the drawn field.
pub open spec fn on_field(x: int, y: int, viewport_width: int, padding: int, size: int) -> bool {
    &&& size >= 1
    &&& 2 * padding < viewport_width
    &&& padding <= x <= viewport_width - padding
    &&& padding <= y <= viewport_width - padding
}

/// The tile index of pixel position `pos` along one axis:
/// `floor((pos - padding) / tile_size)`, written without the fraction.
pub open spec fn tile_of(pos: int, viewport_width: int, padding: int, size: int) -> int {
    (pos - padding) * size / (viewport_width - 2 * padding)
}

fn tile_index(pos: u32, viewport_width: u32, padding: u32, size: u32) -> (r: i64)
    requires
        size >= 1,
        2 * padding < viewport_width,
        padding <= pos <= viewport_width - padding,
    ensures
        r == tile_of(pos as int, viewport_width as int, padding as int, size as int),
        0 <= r <= size,
{
    let offset = (pos - padding) as u64;
    let field = viewport_width as u64 - 2 * padding as u64;
    proof {
        let o = offset as int;
        let s = size as int;
        let f = field as int;
        assert(o * s <= f * s) by (nonlinear_arith)
            requires
                0 <= o <= f,
                s >= 0,
        ;
        assert(o * s / f <= s) by (nonlinear_arith)
            requires
                o * s <= f * s,
                f >= 1,
                o >= 0,
                s >= 0,
        ;
        assert(0 <= o * s <= 0xffff_ffff_ffff_ffff) by (nonlinear_arith)
            requires
                0 <= o < 0x1_0000_0000,
                0 <= s < 0x1_0000_0000,
        ;
    }
    let product: u64 = offset * size as u64;
    (product / field) as i64
}

/// The cell under a click at pixel `(x, y)` of a square viewport
/// `viewport_width` pixels wide, on a field of `size` tiles per axis drawn
/// with `padding` pixels of margin. `None` when the click is off the field.
/// A click on the far edge of the field gives coordinate `size`, which
/// `toggle` refuses.
pub fn pointer_to_cell(x: u32, y: u32, viewport_width: u32, padding: u32, size: u32) -> (r: Option<
    (i64, i64),
>)
    ensures
        on_field(x as int, y as int, viewport_width as int, padding as int, size as int) <==> r
            is Some,
        r matches Some(c) ==> c.0 == tile_of(
            x as int,
            viewport_width as int,
            padding as int,
            size as int,
        ) && c.1 == tile_of(y as int, viewport_width as int, padding as int, size as int),
{
    if size == 0 || 2 * (padding as u64) >= viewport_width as u64 {
        return None;
    }
    if x < padding || y < padding || x > viewport_width - padding || y > viewport_width - padding {
        return None;
    }
    let cx = tile_index(x, viewport_width, padding, size);
    let cy = tile_index(y, viewport_width, padding, size);
    Some((cx, cy))
}

} // verus!
