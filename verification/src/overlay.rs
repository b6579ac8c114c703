//! The marker overlay: two full-width single-pixel lines at the band
//! boundaries, a red one at row `height / 3` and a blue one at row
//! `2 * height / 3`, drawn in that order.  On images so small that the two
//! rows coincide, the blue line, drawn last, wins.

use crate::raster::{rgb_channel, Raster};
use vstd::prelude::*;

verus! {

/// The red marker color.
pub open spec fn red_line() -> (u8, u8, u8) {
    (255, 0, 0)
}

/// The blue marker color.
pub open spec fn blue_line() -> (u8, u8, u8) {
    (0, 0, 255)
}

/// Channel `cc` of the pixel at row `yy` after the overlay, given its value
/// `orig` before it: the blue row wins over the red one because it is drawn
/// second, and every other row is untouched.
pub open spec fn marker_channel(height: int, yy: int, cc: int, orig: u8) -> u8 {
    if yy == 2 * height / 3 {
        rgb_channel(blue_line(), cc)
    } else if yy == height / 3 {
        rgb_channel(red_line(), cc)
    } else {
        orig
    }
}

/// Overwrites every pixel of row `y` with the color `p`.
#[verifier::loop_isolation(false)]
pub fn fill_row(r: &mut Raster, y: u32, p: (u8, u8, u8))
    requires
        old(r).wf(),
        old(r).width > 0 ==> y < old(r).height,
    ensures
        final(r).wf(),
        final(r).width == old(r).width,
        final(r).height == old(r).height,
        forall|xx: int, yy: int, cc: int|
            old(r).valid_coord(xx, yy, cc) ==> final(r).spec_pixel(xx, yy, cc) == (if yy == y {
                rgb_channel(p, cc)
            } else {
                old(r).spec_pixel(xx, yy, cc)
            }),
{
    let mut x: u32 = 0;
    while x < r.width
        invariant
            x <= r.width,
            r.wf(),
            r.width == old(r).width,
            r.height == old(r).height,
            r.width > 0 ==> y < r.height,
            forall|xx: int, yy: int, cc: int|
                old(r).valid_coord(xx, yy, cc) ==> r.spec_pixel(xx, yy, cc) == (if yy == y && xx
                    < x {
                    rgb_channel(p, cc)
                } else {
                    old(r).spec_pixel(xx, yy, cc)
                }),
        decreases r.width - x,
    {
        r.set_rgb(x, y, p);
        x = x + 1;
    }
}

/// Draws the two band-boundary markers: the full row at `height / 3` becomes
/// red, then the full row at `2 * height / 3` becomes blue.  Every other
/// pixel keeps its value; where the two rows coincide the blue write, made
/// last, wins.
pub fn add_visual_indicators(r: &mut Raster)
    requires
        old(r).wf(),
        old(r).width > 0 ==> old(r).height > 0,
    ensures
        final(r).wf(),
        final(r).width == old(r).width,
        final(r).height == old(r).height,
        forall|xx: int, yy: int, cc: int|
            old(r).valid_coord(xx, yy, cc) ==> final(r).spec_pixel(xx, yy, cc) == marker_channel(
                old(r).height as int,
                yy,
                cc,
                old(r).spec_pixel(xx, yy, cc),
            ),
{
    let h = r.height;
    let red_row: u32 = h / 3;
    let blue_row: u32 = ((2 * (h as u64)) / 3) as u32;
    proof {
        let hh = h as int;
        assert(hh > 0 ==> hh / 3 < hh && 2 * hh / 3 < hh) by (nonlinear_arith);
        assert(blue_row as int == 2 * hh / 3);
        assert(red_row as int == hh / 3);
    }
    fill_row(r, red_row, (255, 0, 0));
    fill_row(r, blue_row, (0, 0, 255));
}

} // verus!
