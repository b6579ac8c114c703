//! Laws of the filters, stated over whole rasters.
//!
//! Each law takes the before- and after-states of a filter pass, related
//! exactly as the filter's own contract relates them, and derives a global
//! property of the output.

use crate::box_blur::{box_val, lemma_box_val_constant};
use crate::gaussian_blur::{gauss_val, lemma_gauss_val_constant_interior};
use crate::raster::{rgb_channel, Raster};
use crate::sampler::accepted;
use vstd::prelude::*;

verus! {

/// Whether `after` is the box-blur output of `before` over the band
/// `[lo, hi)`: exactly what `apply_box_blur` ensures of its raster.
pub open spec fn box_blur_rel(before: Raster, after: Raster, lo: int, hi: int) -> bool {
    &&& after.width == before.width
    &&& after.height == before.height
    &&& after.wf()
    &&& forall|xx: int, yy: int, cc: int|
        before.valid_coord(xx, yy, cc) ==> after.spec_pixel(xx, yy, cc) as int == (if lo <= yy
            < hi {
            box_val(before.pixels@, before.width as int, lo, hi, xx, yy, cc)
        } else {
            before.spec_pixel(xx, yy, cc) as int
        })
}

/// Whether `after` is the Gaussian-blur output of `before` over the band
/// `[lo, hi)`: exactly what `apply_gaussian_blur` ensures of its raster.
pub open spec fn gaussian_blur_rel(before: Raster, after: Raster, lo: int, hi: int) -> bool {
    &&& after.width == before.width
    &&& after.height == before.height
    &&& after.wf()
    &&& forall|xx: int, yy: int, cc: int|
        before.valid_coord(xx, yy, cc) ==> after.spec_pixel(xx, yy, cc) as int == (if lo <= yy
            < hi {
            gauss_val(before.pixels@, before.width as int, lo, hi, xx, yy, cc)
        } else {
            before.spec_pixel(xx, yy, cc) as int
        })
}

/// Law: box-blurring a constant field is a no-op.  A raster of one uniform
/// color, box-blurred over any band of its rows, keeps that color at every
/// pixel: the truncated mean of equal byte values is that value, whatever
/// the accepted-neighbor count near an edge is.
pub proof fn lemma_box_blur_preserves_constant(
    before: Raster,
    after: Raster,
    lo: int,
    hi: int,
    p: (u8, u8, u8),
)
    requires
        before.wf(),
        0 <= lo <= hi <= before.height,
        before.constant_color(p),
        box_blur_rel(before, after, lo, hi),
    ensures
        after.constant_color(p),
{
    let w = before.width as int;
    assert forall|xx: int, yy: int, cc: int| after.valid_coord(xx, yy, cc) implies after.spec_pixel(
        xx,
        yy,
        cc,
    ) == rgb_channel(p, cc) by {
        if lo <= yy < hi {
            assert forall|qx: int, qy: int| accepted(w, lo, hi, qx, qy) implies before.pixels@[
            crate::raster::pix_idx(w, qx, qy, cc)] == rgb_channel(p, cc) by {
                assert(before.valid_coord(qx, qy, cc));
                assert(before.spec_pixel(qx, qy, cc) == rgb_channel(p, cc));
            }
            lemma_box_val_constant(before.pixels@, w, lo, hi, xx, yy, cc, rgb_channel(p, cc));
        }
    }
}

/// Law: blurring an already box-blurred constant-color raster a second time
/// over the same band still yields the same constant color.  Blurring is not
/// idempotent in general, but on a constant field each pass is a no-op.
pub proof fn lemma_box_blur_twice_constant(
    first: Raster,
    second: Raster,
    third: Raster,
    lo: int,
    hi: int,
    p: (u8, u8, u8),
)
    requires
        first.wf(),
        0 <= lo <= hi <= first.height,
        first.constant_color(p),
        box_blur_rel(first, second, lo, hi),
        box_blur_rel(second, third, lo, hi),
    ensures
        second.constant_color(p),
        third.constant_color(p),
{
    lemma_box_blur_preserves_constant(first, second, lo, hi, p);
    lemma_box_blur_preserves_constant(second, third, lo, hi, p);
}

/// Law: the Gaussian filter leaves a constant field unchanged at every pixel
/// whose full 5x5 neighborhood is accepted, and at every pixel outside the
/// band.  Band-edge and image-edge pixels are excluded: there the divisor
/// 256 exceeds the sum of the accepted weights and the filter darkens the
/// constant, by design.
pub proof fn lemma_gaussian_blur_preserves_constant_interior(
    before: Raster,
    after: Raster,
    lo: int,
    hi: int,
    p: (u8, u8, u8),
)
    requires
        before.wf(),
        0 <= lo <= hi <= before.height,
        before.constant_color(p),
        gaussian_blur_rel(before, after, lo, hi),
    ensures
        forall|xx: int, yy: int, cc: int|
            after.valid_coord(xx, yy, cc) && !(lo <= yy < hi) ==> after.spec_pixel(xx, yy, cc)
                == rgb_channel(p, cc),
        forall|xx: int, yy: int, cc: int|
            after.valid_coord(xx, yy, cc) && 2 <= xx && xx + 2 < after.width && lo + 2 <= yy && yy
                + 2 < hi ==> after.spec_pixel(xx, yy, cc) == rgb_channel(p, cc),
{
    let w = before.width as int;
    assert forall|xx: int, yy: int, cc: int|
        after.valid_coord(xx, yy, cc) && 2 <= xx && xx + 2 < after.width && lo + 2 <= yy && yy + 2
            < hi implies after.spec_pixel(xx, yy, cc) == rgb_channel(p, cc) by {
        assert forall|qx: int, qy: int| accepted(w, lo, hi, qx, qy) implies before.pixels@[
        crate::raster::pix_idx(w, qx, qy, cc)] == rgb_channel(p, cc) by {
            assert(before.valid_coord(qx, qy, cc));
            assert(before.spec_pixel(qx, qy, cc) == rgb_channel(p, cc));
        }
        lemma_gauss_val_constant_interior(
            before.pixels@,
            w,
            lo,
            hi,
            xx,
            yy,
            cc,
            rgb_channel(p, cc),
        );
    }
}

} // verus!
