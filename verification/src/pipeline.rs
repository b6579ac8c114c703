//! The band partitioner and pipeline driver: box blur over the top third of
//! the rows, Gaussian blur over the middle third, the bottom third left
//! untouched, then the two marker lines.
//!
//! The two band boundaries `height / 3` and `2 * height / 3` are computed
//! once and reused for both the filter bands and the marker rows, so the
//! lines always sit exactly on the boundaries the filters used.

use crate::box_blur::{apply_box_blur, box_val};
use crate::gaussian_blur::{apply_gaussian_blur, gauss_val, lemma_gauss_val_local};
use crate::overlay::{add_visual_indicators, blue_line, marker_channel, red_line};
use crate::raster::{pix_idx, rgb_channel, Raster};
use crate::sampler::accepted;
use vstd::prelude::*;

verus! {

/// Channel `cc` of the pixel at `(xx, yy)` after the whole pipeline has run,
/// in terms of the raster's state `r` before it ran: the blue marker row
/// wins over the red one, the top band is box-blurred from the input, the
/// middle band is Gaussian-blurred from the input (the box stage never
/// touches the rows the Gaussian stage reads), and the bottom band is
/// untouched.
pub open spec fn pipeline_channel(r: Raster, xx: int, yy: int, cc: int) -> int {
    let w = r.width as int;
    let h = r.height as int;
    let b1 = h / 3;
    let b2 = 2 * h / 3;
    if yy == b2 {
        rgb_channel(blue_line(), cc) as int
    } else if yy == b1 {
        rgb_channel(red_line(), cc) as int
    } else if yy < b1 {
        box_val(r.pixels@, w, 0, b1, xx, yy, cc)
    } else if yy < b2 {
        gauss_val(r.pixels@, w, b1, b2, xx, yy, cc)
    } else {
        r.spec_pixel(xx, yy, cc) as int
    }
}

/// Runs the full pipeline on the raster: box blur over rows
/// `[0, height / 3)`, Gaussian blur over rows `[height / 3, 2 * height / 3)`,
/// then the two marker lines.
pub fn run_pipeline(r: &mut Raster)
    requires
        old(r).wf(),
        old(r).width > 0 ==> old(r).height > 0,
    ensures
        final(r).wf(),
        final(r).width == old(r).width,
        final(r).height == old(r).height,
        forall|xx: int, yy: int, cc: int|
            old(r).valid_coord(xx, yy, cc) ==> final(r).spec_pixel(xx, yy, cc) as int
                == pipeline_channel(*old(r), xx, yy, cc),
{
    let h = r.height;
    let band1: u32 = h / 3;
    let band2: u32 = ((2 * (h as u64)) / 3) as u32;
    let ghost w = r.width as int;
    let ghost hh = r.height as int;
    proof {
        assert(0 <= hh / 3 <= 2 * hh / 3 <= hh) by (nonlinear_arith)
            requires
                hh >= 0,
        ;
        assert(band1 as int == hh / 3);
        assert(band2 as int == 2 * hh / 3);
    }
    let ghost r0 = *r;
    apply_box_blur(r, 0, band1);
    let ghost r1 = *r;
    apply_gaussian_blur(r, band1, band2);
    let ghost r2 = *r;
    proof {
        // The box stage only rewrote rows below `band1`, so the Gaussian
        // stage read exactly the input raster's bytes in its own band.
        assert forall|qx: int, qy: int, qc: int|
            accepted(w, band1 as int, band2 as int, qx, qy) && 0 <= qc < 3 implies r1.pixels@[
        pix_idx(w, qx, qy, qc)] == r0.pixels@[pix_idx(w, qx, qy, qc)] by {
            assert(r0.valid_coord(qx, qy, qc));
            assert(r1.spec_pixel(qx, qy, qc) as int == r0.spec_pixel(qx, qy, qc) as int);
        }
        assert forall|xx: int, yy: int, cc: int|
            r0.valid_coord(xx, yy, cc) && band1 <= yy < band2 implies gauss_val(
            r1.pixels@,
            w,
            band1 as int,
            band2 as int,
            xx,
            yy,
            cc,
        ) == gauss_val(r0.pixels@, w, band1 as int, band2 as int, xx, yy, cc) by {
            lemma_gauss_val_local(
                r1.pixels@,
                r0.pixels@,
                w,
                band1 as int,
                band2 as int,
                xx,
                yy,
                cc,
            );
        }
    }
    add_visual_indicators(r);
    proof {
        assert forall|xx: int, yy: int, cc: int| r0.valid_coord(xx, yy, cc) implies r.spec_pixel(
            xx,
            yy,
            cc,
        ) as int == pipeline_channel(r0, xx, yy, cc) by {
            assert(r.spec_pixel(xx, yy, cc) == marker_channel(
                hh,
                yy,
                cc,
                r2.spec_pixel(xx, yy, cc),
            ));
        }
    }
}

} // verus!
