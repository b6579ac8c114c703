//! The box blur filter: the unweighted mean of all accepted neighbors in a
//! 15x15 footprint (radius 7), with the neighborhood clamped to the active
//! band's rows and the full image's columns.

use crate::raster::{pix_idx, Raster};
use crate::sampler::{accepted, lemma_sample_bounds, sample};
use vstd::arithmetic::div_mod::{
    lemma_div_is_ordered, lemma_div_multiples_vanish, lemma_div_pos_is_pos,
};
use vstd::prelude::*;

verus! {

/// Sum of the accepted samples of channel `c` in kernel row `ny`, over the
/// first `n` of the 15 column offsets `x - 7 .. x + 7`.
pub open spec fn box_row_sum(
    pix: Seq<u8>,
    width: int,
    lo: int,
    hi: int,
    x: int,
    ny: int,
    c: int,
    n: int,
) -> int
    decreases n,
{
    if n <= 0 {
        0
    } else {
        box_row_sum(pix, width, lo, hi, x, ny, c, n - 1) + sample(
            pix,
            width,
            lo,
            hi,
            x - 7 + (n - 1),
            ny,
            c,
        )
    }
}

/// Number of accepted neighbors in kernel row `ny`, over the first `n` of
/// the 15 column offsets.
pub open spec fn box_row_count(width: int, lo: int, hi: int, x: int, ny: int, n: int) -> int
    decreases n,
{
    if n <= 0 {
        0
    } else {
        box_row_count(width, lo, hi, x, ny, n - 1) + (if accepted(
            width,
            lo,
            hi,
            x - 7 + (n - 1),
            ny,
        ) {
            1int
        } else {
            0int
        })
    }
}

/// Sum of the accepted samples of channel `c` over the first `m` of the 15
/// kernel rows `y - 7 .. y + 7`, each row 15 offsets wide.
pub open spec fn box_sum(
    pix: Seq<u8>,
    width: int,
    lo: int,
    hi: int,
    x: int,
    y: int,
    c: int,
    m: int,
) -> int
    decreases m,
{
    if m <= 0 {
        0
    } else {
        box_sum(pix, width, lo, hi, x, y, c, m - 1) + box_row_sum(
            pix,
            width,
            lo,
            hi,
            x,
            y - 7 + (m - 1),
            c,
            15,
        )
    }
}

/// Number of accepted neighbors over the first `m` of the 15 kernel rows.
pub open spec fn box_count(width: int, lo: int, hi: int, x: int, y: int, m: int) -> int
    decreases m,
{
    if m <= 0 {
        0
    } else {
        box_count(width, lo, hi, x, y, m - 1) + box_row_count(
            width,
            lo,
            hi,
            x,
            y - 7 + (m - 1),
            15,
        )
    }
}

/// The box-blurred value of channel `c` at `(x, y)`: the integer-truncated
/// mean of the accepted samples of the full 15x15 footprint.
pub open spec fn box_val(
    pix: Seq<u8>,
    width: int,
    lo: int,
    hi: int,
    x: int,
    y: int,
    c: int,
) -> int {
    box_sum(pix, width, lo, hi, x, y, c, 15) / box_count(width, lo, hi, x, y, 15)
}

/// Row sums are bounded by 255 per accepted neighbor, and row counts by the
/// number of offsets looked at.
pub proof fn lemma_box_row_bounds(
    pix: Seq<u8>,
    width: int,
    lo: int,
    hi: int,
    x: int,
    ny: int,
    c: int,
    n: int,
)
    requires
        0 <= lo,
        3 * width * hi <= pix.len(),
        0 <= c < 3,
        0 <= n,
    ensures
        0 <= box_row_count(width, lo, hi, x, ny, n) <= n,
        0 <= box_row_sum(pix, width, lo, hi, x, ny, c, n) <= 255 * box_row_count(
            width,
            lo,
            hi,
            x,
            ny,
            n,
        ),
    decreases n,
{
    if n > 0 {
        lemma_box_row_bounds(pix, width, lo, hi, x, ny, c, n - 1);
        lemma_sample_bounds(pix, width, lo, hi, x - 7 + (n - 1), ny, c);
    }
}

/// Footprint sums are bounded by 255 per accepted neighbor, and counts by
/// the number of offsets looked at.
pub proof fn lemma_box_bounds(
    pix: Seq<u8>,
    width: int,
    lo: int,
    hi: int,
    x: int,
    y: int,
    c: int,
    m: int,
)
    requires
        0 <= lo,
        3 * width * hi <= pix.len(),
        0 <= c < 3,
        0 <= m,
    ensures
        0 <= box_count(width, lo, hi, x, y, m) <= 15 * m,
        0 <= box_sum(pix, width, lo, hi, x, y, c, m) <= 255 * box_count(width, lo, hi, x, y, m),
    decreases m,
{
    if m > 0 {
        lemma_box_bounds(pix, width, lo, hi, x, y, c, m - 1);
        lemma_box_row_bounds(pix, width, lo, hi, x, y - 7 + (m - 1), c, 15);
    }
}

/// In the kernel row through the center pixel, at least the center itself is
/// accepted once the offsets looked at include offset 0.
proof fn lemma_box_row_count_center(width: int, lo: int, hi: int, x: int, y: int, n: int)
    requires
        accepted(width, lo, hi, x, y),
        8 <= n,
    ensures
        1 <= box_row_count(width, lo, hi, x, y, n),
    decreases n,
{
    if n == 8 {
        assert(box_row_count(width, lo, hi, x, y, 8) == box_row_count(width, lo, hi, x, y, 7)
            + 1);
        lemma_box_row_count_nonneg(width, lo, hi, x, y, 7);
    } else {
        lemma_box_row_count_center(width, lo, hi, x, y, n - 1);
    }
}

proof fn lemma_box_row_count_nonneg(width: int, lo: int, hi: int, x: int, ny: int, n: int)
    requires
        0 <= n,
    ensures
        0 <= box_row_count(width, lo, hi, x, ny, n) <= n,
    decreases n,
{
    if n > 0 {
        lemma_box_row_count_nonneg(width, lo, hi, x, ny, n - 1);
    }
}

proof fn lemma_box_count_nonneg(width: int, lo: int, hi: int, x: int, y: int, m: int)
    requires
        0 <= m,
    ensures
        0 <= box_count(width, lo, hi, x, y, m),
    decreases m,
{
    if m > 0 {
        lemma_box_count_nonneg(width, lo, hi, x, y, m - 1);
        lemma_box_row_count_nonneg(width, lo, hi, x, y - 7 + (m - 1), 15);
    }
}

/// The center pixel is always an accepted neighbor of itself, so the divisor
/// of the mean is at least one.
pub proof fn lemma_box_count_pos(width: int, lo: int, hi: int, x: int, y: int, m: int)
    requires
        accepted(width, lo, hi, x, y),
        8 <= m,
    ensures
        1 <= box_count(width, lo, hi, x, y, m),
    decreases m,
{
    if m == 8 {
        lemma_box_count_nonneg(width, lo, hi, x, y, 7);
        assert(y - 7 + 7 == y);
        lemma_box_row_count_center(width, lo, hi, x, y, 15);
    } else {
        lemma_box_count_pos(width, lo, hi, x, y, m - 1);
        lemma_box_row_count_nonneg(width, lo, hi, x, y - 7 + (m - 1), 15);
    }
}

/// The box-blurred value of a channel is itself a byte value.
pub proof fn lemma_box_val_bounds(
    pix: Seq<u8>,
    width: int,
    lo: int,
    hi: int,
    x: int,
    y: int,
    c: int,
)
    requires
        0 <= lo,
        3 * width * hi <= pix.len(),
        0 <= c < 3,
        accepted(width, lo, hi, x, y),
    ensures
        0 <= box_val(pix, width, lo, hi, x, y, c) <= 255,
{
    let s = box_sum(pix, width, lo, hi, x, y, c, 15);
    let k = box_count(width, lo, hi, x, y, 15);
    lemma_box_bounds(pix, width, lo, hi, x, y, c, 15);
    lemma_box_count_pos(width, lo, hi, x, y, 15);
    lemma_div_pos_is_pos(s, k);
    lemma_div_is_ordered(s, 255 * k, k);
    lemma_div_multiples_vanish(255, k);
    assert(255 * k == k * 255);
}

proof fn lemma_box_row_sum_constant(
    pix: Seq<u8>,
    width: int,
    lo: int,
    hi: int,
    x: int,
    ny: int,
    c: int,
    n: int,
    v: u8,
)
    requires
        0 <= c < 3,
        forall|qx: int, qy: int|
            accepted(width, lo, hi, qx, qy) ==> pix[pix_idx(width, qx, qy, c)] == v,
        0 <= n,
    ensures
        box_row_sum(pix, width, lo, hi, x, ny, c, n) == (v as int) * box_row_count(
            width,
            lo,
            hi,
            x,
            ny,
            n,
        ),
    decreases n,
{
    if n > 0 {
        lemma_box_row_sum_constant(pix, width, lo, hi, x, ny, c, n - 1, v);
        let k0 = box_row_count(width, lo, hi, x, ny, n - 1);
        if accepted(width, lo, hi, x - 7 + (n - 1), ny) {
            assert((v as int) * k0 + v == (v as int) * (k0 + 1)) by (nonlinear_arith);
        }
    }
}

proof fn lemma_box_sum_constant(
    pix: Seq<u8>,
    width: int,
    lo: int,
    hi: int,
    x: int,
    y: int,
    c: int,
    m: int,
    v: u8,
)
    requires
        0 <= c < 3,
        forall|qx: int, qy: int|
            accepted(width, lo, hi, qx, qy) ==> pix[pix_idx(width, qx, qy, c)] == v,
        0 <= m,
    ensures
        box_sum(pix, width, lo, hi, x, y, c, m) == (v as int) * box_count(width, lo, hi, x, y, m),
    decreases m,
{
    if m > 0 {
        lemma_box_sum_constant(pix, width, lo, hi, x, y, c, m - 1, v);
        lemma_box_row_sum_constant(pix, width, lo, hi, x, y - 7 + (m - 1), c, 15, v);
        let k0 = box_count(width, lo, hi, x, y, m - 1);
        let kr = box_row_count(width, lo, hi, x, y - 7 + (m - 1), 15);
        assert((v as int) * k0 + (v as int) * kr == (v as int) * (k0 + kr)) by (nonlinear_arith);
    }
}

/// On a field whose channel `c` is the constant `v` throughout the band, the
/// box filter returns `v`: the mean of equal samples is that value, whatever
/// the neighbor count near an edge is.
pub proof fn lemma_box_val_constant(
    pix: Seq<u8>,
    width: int,
    lo: int,
    hi: int,
    x: int,
    y: int,
    c: int,
    v: u8,
)
    requires
        0 <= c < 3,
        forall|qx: int, qy: int|
            accepted(width, lo, hi, qx, qy) ==> pix[pix_idx(width, qx, qy, c)] == v,
        accepted(width, lo, hi, x, y),
    ensures
        box_val(pix, width, lo, hi, x, y, c) == v,
{
    lemma_box_sum_constant(pix, width, lo, hi, x, y, c, 15, v);
    lemma_box_count_pos(width, lo, hi, x, y, 15);
    let k = box_count(width, lo, hi, x, y, 15);
    lemma_div_multiples_vanish(v as int, k);
    assert((v as int) * k == k * (v as int)) by (nonlinear_arith);
}

/// Computes the box-blurred RGB triple at `(x, y)` from the unmodified
/// snapshot `snap`, sampling only inside the band `[lo, hi)`.
#[verifier::loop_isolation(false)]
fn box_pixel(snap: &Raster, lo: u32, hi: u32, x: u32, y: u32) -> (p: (u8, u8, u8))
    requires
        snap.wf(),
        hi <= snap.height,
        lo <= y < hi,
        x < snap.width,
    ensures
        p.0 as int == box_val(
            snap.pixels@,
            snap.width as int,
            lo as int,
            hi as int,
            x as int,
            y as int,
            0,
        ),
        p.1 as int == box_val(
            snap.pixels@,
            snap.width as int,
            lo as int,
            hi as int,
            x as int,
            y as int,
            1,
        ),
        p.2 as int == box_val(
            snap.pixels@,
            snap.width as int,
            lo as int,
            hi as int,
            x as int,
            y as int,
            2,
        ),
{
    let ghost w = snap.width as int;
    let ghost l = lo as int;
    let ghost h = hi as int;
    let ghost cx = x as int;
    let ghost cy = y as int;
    proof {
        assert(3 * w * h <= 3 * w * (snap.height as int)) by (nonlinear_arith)
            requires
                0 <= w,
                h <= snap.height as int,
        ;
    }
    let mut sum_r: u32 = 0;
    let mut sum_g: u32 = 0;
    let mut sum_b: u32 = 0;
    let mut cnt: u32 = 0;
    let mut ky: u32 = 0;
    while ky < 15
        invariant
            ky <= 15,
            cnt as int == box_count(w, l, h, cx, cy, ky as int),
            sum_r as int == box_sum(snap.pixels@, w, l, h, cx, cy, 0, ky as int),
            sum_g as int == box_sum(snap.pixels@, w, l, h, cx, cy, 1, ky as int),
            sum_b as int == box_sum(snap.pixels@, w, l, h, cx, cy, 2, ky as int),
        decreases 15 - ky,
    {
        let ny_i: i64 = y as i64 - 7 + ky as i64;
        let ghost ny = cy - 7 + ky as int;
        let mut kx: u32 = 0;
        while kx < 15
            invariant
                kx <= 15,
                ky < 15,
                ny_i == ny,
                cnt as int == box_count(w, l, h, cx, cy, ky as int) + box_row_count(
                    w,
                    l,
                    h,
                    cx,
                    ny,
                    kx as int,
                ),
                sum_r as int == box_sum(snap.pixels@, w, l, h, cx, cy, 0, ky as int)
                    + box_row_sum(snap.pixels@, w, l, h, cx, ny, 0, kx as int),
                sum_g as int == box_sum(snap.pixels@, w, l, h, cx, cy, 1, ky as int)
                    + box_row_sum(snap.pixels@, w, l, h, cx, ny, 1, kx as int),
                sum_b as int == box_sum(snap.pixels@, w, l, h, cx, cy, 2, ky as int)
                    + box_row_sum(snap.pixels@, w, l, h, cx, ny, 2, kx as int),
            decreases 15 - kx,
        {
            let nx_i: i64 = x as i64 - 7 + kx as i64;
            let ghost nx = cx - 7 + kx as int;
            proof {
                lemma_box_bounds(snap.pixels@, w, l, h, cx, cy, 0, ky as int);
                lemma_box_bounds(snap.pixels@, w, l, h, cx, cy, 1, ky as int);
                lemma_box_bounds(snap.pixels@, w, l, h, cx, cy, 2, ky as int);
                lemma_box_row_bounds(snap.pixels@, w, l, h, cx, ny, 0, kx as int);
                lemma_box_row_bounds(snap.pixels@, w, l, h, cx, ny, 1, kx as int);
                lemma_box_row_bounds(snap.pixels@, w, l, h, cx, ny, 2, kx as int);
            }
            if nx_i >= 0 && nx_i < snap.width as i64 && ny_i >= lo as i64 && ny_i < hi as i64 {
                assert(accepted(w, l, h, nx, ny));
                let vr = snap.get_pixel(nx_i as u32, ny_i as u32, 0);
                let vg = snap.get_pixel(nx_i as u32, ny_i as u32, 1);
                let vb = snap.get_pixel(nx_i as u32, ny_i as u32, 2);
                assert(vr as int == sample(snap.pixels@, w, l, h, nx, ny, 0));
                assert(vg as int == sample(snap.pixels@, w, l, h, nx, ny, 1));
                assert(vb as int == sample(snap.pixels@, w, l, h, nx, ny, 2));
                sum_r = sum_r + vr as u32;
                sum_g = sum_g + vg as u32;
                sum_b = sum_b + vb as u32;
                cnt = cnt + 1;
            } else {
                assert(!accepted(w, l, h, nx, ny));
            }
            kx = kx + 1;
            assert(box_row_sum(snap.pixels@, w, l, h, cx, ny, 0, kx as int) == box_row_sum(
                snap.pixels@,
                w,
                l,
                h,
                cx,
                ny,
                0,
                kx as int - 1,
            ) + sample(snap.pixels@, w, l, h, nx, ny, 0));
            assert(box_row_sum(snap.pixels@, w, l, h, cx, ny, 1, kx as int) == box_row_sum(
                snap.pixels@,
                w,
                l,
                h,
                cx,
                ny,
                1,
                kx as int - 1,
            ) + sample(snap.pixels@, w, l, h, nx, ny, 1));
            assert(box_row_sum(snap.pixels@, w, l, h, cx, ny, 2, kx as int) == box_row_sum(
                snap.pixels@,
                w,
                l,
                h,
                cx,
                ny,
                2,
                kx as int - 1,
            ) + sample(snap.pixels@, w, l, h, nx, ny, 2));
        }
        ky = ky + 1;
        assert(box_sum(snap.pixels@, w, l, h, cx, cy, 0, ky as int) == box_sum(
            snap.pixels@,
            w,
            l,
            h,
            cx,
            cy,
            0,
            ky as int - 1,
        ) + box_row_sum(snap.pixels@, w, l, h, cx, cy - 7 + (ky as int - 1), 0, 15));
        assert(box_sum(snap.pixels@, w, l, h, cx, cy, 1, ky as int) == box_sum(
            snap.pixels@,
            w,
            l,
            h,
            cx,
            cy,
            1,
            ky as int - 1,
        ) + box_row_sum(snap.pixels@, w, l, h, cx, cy - 7 + (ky as int - 1), 1, 15));
        assert(box_sum(snap.pixels@, w, l, h, cx, cy, 2, ky as int) == box_sum(
            snap.pixels@,
            w,
            l,
            h,
            cx,
            cy,
            2,
            ky as int - 1,
        ) + box_row_sum(snap.pixels@, w, l, h, cx, cy - 7 + (ky as int - 1), 2, 15));
        assert(box_count(w, l, h, cx, cy, ky as int) == box_count(w, l, h, cx, cy, ky as int - 1)
            + box_row_count(w, l, h, cx, cy - 7 + (ky as int - 1), 15));
    }
    proof {
        lemma_box_count_pos(w, l, h, cx, cy, 15);
        lemma_box_val_bounds(snap.pixels@, w, l, h, cx, cy, 0);
        lemma_box_val_bounds(snap.pixels@, w, l, h, cx, cy, 1);
        lemma_box_val_bounds(snap.pixels@, w, l, h, cx, cy, 2);
    }
    ((sum_r / cnt) as u8, (sum_g / cnt) as u8, (sum_b / cnt) as u8)
}

/// Applies the box blur to every pixel of the band of rows `[row_lo, row_hi)`.
///
/// Every output pixel in the band is the truncated mean of the accepted
/// neighbors in its 15x15 footprint, read from the band's pre-filter state;
/// every pixel outside the band keeps its value.
#[verifier::loop_isolation(false)]
pub fn apply_box_blur(r: &mut Raster, row_lo: u32, row_hi: u32)
    requires
        old(r).wf(),
        row_lo <= row_hi,
        row_hi <= old(r).height,
    ensures
        final(r).wf(),
        final(r).width == old(r).width,
        final(r).height == old(r).height,
        forall|xx: int, yy: int, cc: int|
            old(r).valid_coord(xx, yy, cc) ==> final(r).spec_pixel(xx, yy, cc) as int == (
            if row_lo <= yy < row_hi {
                box_val(
                    old(r).pixels@,
                    old(r).width as int,
                    row_lo as int,
                    row_hi as int,
                    xx,
                    yy,
                    cc,
                )
            } else {
                old(r).spec_pixel(xx, yy, cc) as int
            }),
{
    let ghost w = old(r).width as int;
    let ghost l = row_lo as int;
    let ghost h = row_hi as int;
    let snap = Raster { width: r.width, height: r.height, pixels: r.snapshot_pixels() };
    let mut y: u32 = row_lo;
    while y < row_hi
        invariant
            row_lo <= y <= row_hi,
            r.wf(),
            r.width == old(r).width,
            r.height == old(r).height,
            snap.width == old(r).width,
            snap.height == old(r).height,
            snap.pixels@ == old(r).pixels@,
            forall|xx: int, yy: int, cc: int|
                old(r).valid_coord(xx, yy, cc) ==> r.spec_pixel(xx, yy, cc) as int == (
                if row_lo <= yy < y {
                    box_val(snap.pixels@, w, l, h, xx, yy, cc)
                } else {
                    old(r).spec_pixel(xx, yy, cc) as int
                }),
        decreases row_hi - y,
    {
        let mut x: u32 = 0;
        while x < r.width
            invariant
                x <= r.width,
                row_lo <= y < row_hi,
                r.wf(),
                r.width == old(r).width,
                r.height == old(r).height,
                forall|xx: int, yy: int, cc: int|
                    old(r).valid_coord(xx, yy, cc) ==> r.spec_pixel(xx, yy, cc) as int == (
                    if row_lo <= yy < y || (yy == y && xx < x) {
                        box_val(snap.pixels@, w, l, h, xx, yy, cc)
                    } else {
                        old(r).spec_pixel(xx, yy, cc) as int
                    }),
            decreases r.width - x,
        {
            let p = box_pixel(&snap, row_lo, row_hi, x, y);
            r.set_rgb(x, y, p);
            x = x + 1;
        }
        y = y + 1;
    }
}

} // verus!
