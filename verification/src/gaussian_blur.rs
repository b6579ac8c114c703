//! The Gaussian blur filter: a weighted mean over a fixed 5x5 kernel,
//! normalized by the constant full kernel weight 256.
//!
//! The divisor is always 256, never the sum of the weights actually used, so
//! a pixel whose neighborhood is cut off by the band boundary or the image
//! edge is systematically darkened.  That asymmetry with the box filter is
//! part of the filter's contract, not an accident to repair.

use crate::raster::{pix_idx, Raster};
use crate::sampler::{accepted, lemma_sample_bounds, sample};
use vstd::arithmetic::div_mod::{
    lemma_div_is_ordered, lemma_div_multiples_vanish, lemma_div_pos_is_pos,
};
use vstd::prelude::*;

verus! {

/// One axis of the separable 5x5 kernel: the binomial row `1 4 6 4 1`.
pub open spec fn gauss_base(i: int) -> int {
    if i == 0 || i == 4 {
        1
    } else if i == 1 || i == 3 {
        4
    } else {
        6
    }
}

/// The kernel weight at row offset index `ky` and column offset index `kx`
/// (both in `0 .. 5`): the outer product of the binomial row with itself,
/// the table `1 4 6 4 1 / 4 16 24 16 4 / 6 24 36 24 6 / ...`.
pub open spec fn gauss_weight(ky: int, kx: int) -> int {
    gauss_base(ky) * gauss_base(kx)
}

/// Sum of the first `n` values of the binomial row; all five sum to 16.
pub open spec fn base_prefix(n: int) -> int
    decreases n,
{
    if n <= 0 {
        0
    } else {
        base_prefix(n - 1) + gauss_base(n - 1)
    }
}

/// Weighted sum of the accepted samples of channel `c` in kernel row `ny`
/// (row offset index `ky`), over the first `n` of the 5 column offsets
/// `x - 2 .. x + 2`.
pub open spec fn gauss_row_sum(
    pix: Seq<u8>,
    width: int,
    lo: int,
    hi: int,
    x: int,
    ny: int,
    ky: int,
    c: int,
    n: int,
) -> int
    decreases n,
{
    if n <= 0 {
        0
    } else {
        gauss_row_sum(pix, width, lo, hi, x, ny, ky, c, n - 1) + gauss_weight(ky, n - 1) * sample(
            pix,
            width,
            lo,
            hi,
            x - 2 + (n - 1),
            ny,
            c,
        )
    }
}

/// Weighted sum of the accepted samples of channel `c` over the first `m` of
/// the 5 kernel rows `y - 2 .. y + 2`.
pub open spec fn gauss_sum(
    pix: Seq<u8>,
    width: int,
    lo: int,
    hi: int,
    x: int,
    y: int,
    c: int,
    m: int,
) -> int
    decreases m,
{
    if m <= 0 {
        0
    } else {
        gauss_sum(pix, width, lo, hi, x, y, c, m - 1) + gauss_row_sum(
            pix,
            width,
            lo,
            hi,
            x,
            y - 2 + (m - 1),
            m - 1,
            c,
            5,
        )
    }
}

/// The Gaussian-blurred value of channel `c` at `(x, y)`: the weighted sum
/// over the accepted 5x5 neighborhood, divided by the constant 256.
pub open spec fn gauss_val(
    pix: Seq<u8>,
    width: int,
    lo: int,
    hi: int,
    x: int,
    y: int,
    c: int,
) -> int {
    gauss_sum(pix, width, lo, hi, x, y, c, 5) / 256
}

/// A kernel row's weighted sum is bounded by 255 times the weights looked
/// at, whether or not its samples are accepted.
pub proof fn lemma_gauss_row_bounds(
    pix: Seq<u8>,
    width: int,
    lo: int,
    hi: int,
    x: int,
    ny: int,
    ky: int,
    c: int,
    n: int,
)
    requires
        0 <= lo,
        3 * width * hi <= pix.len(),
        0 <= c < 3,
        0 <= n,
    ensures
        0 <= gauss_row_sum(pix, width, lo, hi, x, ny, ky, c, n) <= 255 * gauss_base(ky)
            * base_prefix(n),
    decreases n,
{
    if n > 0 {
        lemma_gauss_row_bounds(pix, width, lo, hi, x, ny, ky, c, n - 1);
        lemma_sample_bounds(pix, width, lo, hi, x - 2 + (n - 1), ny, c);
        let s = sample(pix, width, lo, hi, x - 2 + (n - 1), ny, c);
        let by_ = gauss_base(ky);
        let bx = gauss_base(n - 1);
        assert(0 <= by_ * bx * s <= 255 * by_ * bx) by (nonlinear_arith)
            requires
                0 <= s <= 255,
                1 <= by_ <= 6,
                1 <= bx <= 6,
        ;
        assert(gauss_weight(ky, n - 1) * s == by_ * bx * s) by (nonlinear_arith)
            requires
                gauss_weight(ky, n - 1) == by_ * bx,
        ;
        assert(255 * by_ * base_prefix(n - 1) + 255 * by_ * bx == 255 * by_ * base_prefix(n))
            by (nonlinear_arith)
            requires
                base_prefix(n) == base_prefix(n - 1) + bx,
        ;
    }
}

/// The full weighted footprint sum is bounded by 255 times the weights
/// looked at; for the whole 5x5 kernel that is `255 * 256`.
pub proof fn lemma_gauss_bounds(
    pix: Seq<u8>,
    width: int,
    lo: int,
    hi: int,
    x: int,
    y: int,
    c: int,
    m: int,
)
    requires
        0 <= lo,
        3 * width * hi <= pix.len(),
        0 <= c < 3,
        0 <= m,
    ensures
        0 <= gauss_sum(pix, width, lo, hi, x, y, c, m) <= 255 * 16 * base_prefix(m),
    decreases m,
{
    if m > 0 {
        lemma_gauss_bounds(pix, width, lo, hi, x, y, c, m - 1);
        lemma_gauss_row_bounds(pix, width, lo, hi, x, y - 2 + (m - 1), m - 1, c, 5);
        reveal_with_fuel(base_prefix, 6);
        assert(base_prefix(5) == 16);
        let bm = gauss_base(m - 1);
        assert(255 * bm * 16 <= 255 * 16 * 16) by (nonlinear_arith)
            requires
                1 <= bm <= 6,
        ;
        assert(255 * bm * base_prefix(5) == 255 * bm * 16);
        assert(255 * 16 * base_prefix(m - 1) + 255 * 16 * bm == 255 * 16 * base_prefix(m))
            by (nonlinear_arith)
            requires
                base_prefix(m) == base_prefix(m - 1) + bm,
        ;
        assert(255 * bm * 16 == 255 * 16 * bm) by (nonlinear_arith);
    }
}

/// The Gaussian-blurred value of a channel is itself a byte value.
pub proof fn lemma_gauss_val_bounds(
    pix: Seq<u8>,
    width: int,
    lo: int,
    hi: int,
    x: int,
    y: int,
    c: int,
)
    requires
        0 <= lo,
        3 * width * hi <= pix.len(),
        0 <= c < 3,
    ensures
        0 <= gauss_val(pix, width, lo, hi, x, y, c) <= 255,
{
    let s = gauss_sum(pix, width, lo, hi, x, y, c, 5);
    lemma_gauss_bounds(pix, width, lo, hi, x, y, c, 5);
    reveal_with_fuel(base_prefix, 6);
    assert(base_prefix(5) == 16);
    assert(255 * 16 * 16 == 256 * 255);
    lemma_div_pos_is_pos(s, 256);
    lemma_div_is_ordered(s, (256 * 255) as int, 256);
    lemma_div_multiples_vanish(255, 256);
}

proof fn lemma_gauss_row_sum_local(
    pix1: Seq<u8>,
    pix2: Seq<u8>,
    width: int,
    lo: int,
    hi: int,
    x: int,
    ny: int,
    ky: int,
    c: int,
    n: int,
)
    requires
        0 <= c < 3,
        forall|qx: int, qy: int, qc: int|
            accepted(width, lo, hi, qx, qy) && 0 <= qc < 3 ==> pix1[pix_idx(width, qx, qy, qc)]
                == pix2[pix_idx(width, qx, qy, qc)],
    ensures
        gauss_row_sum(pix1, width, lo, hi, x, ny, ky, c, n) == gauss_row_sum(
            pix2,
            width,
            lo,
            hi,
            x,
            ny,
            ky,
            c,
            n,
        ),
    decreases n,
{
    if n > 0 {
        lemma_gauss_row_sum_local(pix1, pix2, width, lo, hi, x, ny, ky, c, n - 1);
        crate::sampler::lemma_sample_local(pix1, pix2, width, lo, hi, x - 2 + (n - 1), ny, c);
    }
}

proof fn lemma_gauss_sum_local(
    pix1: Seq<u8>,
    pix2: Seq<u8>,
    width: int,
    lo: int,
    hi: int,
    x: int,
    y: int,
    c: int,
    m: int,
)
    requires
        0 <= c < 3,
        forall|qx: int, qy: int, qc: int|
            accepted(width, lo, hi, qx, qy) && 0 <= qc < 3 ==> pix1[pix_idx(width, qx, qy, qc)]
                == pix2[pix_idx(width, qx, qy, qc)],
    ensures
        gauss_sum(pix1, width, lo, hi, x, y, c, m) == gauss_sum(pix2, width, lo, hi, x, y, c, m),
    decreases m,
{
    if m > 0 {
        lemma_gauss_sum_local(pix1, pix2, width, lo, hi, x, y, c, m - 1);
        lemma_gauss_row_sum_local(pix1, pix2, width, lo, hi, x, y - 2 + (m - 1), m - 1, c, 5);
    }
}

/// A Gaussian-blurred value depends only on the band rows of its input: two
/// pixel grids that agree on every channel inside rows `[lo, hi)` give the
/// same blurred value everywhere.
pub proof fn lemma_gauss_val_local(
    pix1: Seq<u8>,
    pix2: Seq<u8>,
    width: int,
    lo: int,
    hi: int,
    x: int,
    y: int,
    c: int,
)
    requires
        0 <= c < 3,
        forall|qx: int, qy: int, qc: int|
            accepted(width, lo, hi, qx, qy) && 0 <= qc < 3 ==> pix1[pix_idx(width, qx, qy, qc)]
                == pix2[pix_idx(width, qx, qy, qc)],
    ensures
        gauss_val(pix1, width, lo, hi, x, y, c) == gauss_val(pix2, width, lo, hi, x, y, c),
{
    lemma_gauss_sum_local(pix1, pix2, width, lo, hi, x, y, c, 5);
}

proof fn lemma_gauss_row_sum_constant_full(
    pix: Seq<u8>,
    width: int,
    lo: int,
    hi: int,
    x: int,
    ny: int,
    ky: int,
    c: int,
    n: int,
    v: u8,
)
    requires
        0 <= c < 3,
        forall|qx: int, qy: int|
            accepted(width, lo, hi, qx, qy) ==> pix[pix_idx(width, qx, qy, c)] == v,
        2 <= x,
        x + 2 < width,
        lo <= ny < hi,
        0 <= n <= 5,
    ensures
        gauss_row_sum(pix, width, lo, hi, x, ny, ky, c, n) == (v as int) * gauss_base(ky)
            * base_prefix(n),
    decreases n,
{
    if n > 0 {
        lemma_gauss_row_sum_constant_full(pix, width, lo, hi, x, ny, ky, c, n - 1, v);
        assert(accepted(width, lo, hi, x - 2 + (n - 1), ny));
        let bk = gauss_base(ky);
        let bn = gauss_base(n - 1);
        assert((v as int) * bk * base_prefix(n - 1) + (bk * bn) * (v as int) == (v as int) * bk
            * base_prefix(n)) by (nonlinear_arith)
            requires
                base_prefix(n) == base_prefix(n - 1) + bn,
        ;
    }
}

proof fn lemma_gauss_sum_constant_interior(
    pix: Seq<u8>,
    width: int,
    lo: int,
    hi: int,
    x: int,
    y: int,
    c: int,
    m: int,
    v: u8,
)
    requires
        0 <= c < 3,
        forall|qx: int, qy: int|
            accepted(width, lo, hi, qx, qy) ==> pix[pix_idx(width, qx, qy, c)] == v,
        2 <= x,
        x + 2 < width,
        lo + 2 <= y,
        y + 2 < hi,
        0 <= m <= 5,
    ensures
        gauss_sum(pix, width, lo, hi, x, y, c, m) == (v as int) * 16 * base_prefix(m),
    decreases m,
{
    if m > 0 {
        lemma_gauss_sum_constant_interior(pix, width, lo, hi, x, y, c, m - 1, v);
        lemma_gauss_row_sum_constant_full(pix, width, lo, hi, x, y - 2 + (m - 1), m - 1, c, 5, v);
        reveal_with_fuel(base_prefix, 6);
        assert(base_prefix(5) == 16);
        let bm = gauss_base(m - 1);
        assert((v as int) * 16 * base_prefix(m - 1) + (v as int) * bm * 16 == (v as int) * 16
            * base_prefix(m)) by (nonlinear_arith)
            requires
                base_prefix(m) == base_prefix(m - 1) + bm,
        ;
    }
}

/// On a field whose channel `c` is the constant `v` throughout the band, the
/// Gaussian filter returns `v` at every pixel whose full 5x5 neighborhood is
/// accepted.  At pixels cut off by the band boundary or the image edge the
/// constant-256 normalization darkens the result instead.
pub proof fn lemma_gauss_val_constant_interior(
    pix: Seq<u8>,
    width: int,
    lo: int,
    hi: int,
    x: int,
    y: int,
    c: int,
    v: u8,
)
    requires
        0 <= c < 3,
        forall|qx: int, qy: int|
            accepted(width, lo, hi, qx, qy) ==> pix[pix_idx(width, qx, qy, c)] == v,
        2 <= x,
        x + 2 < width,
        lo + 2 <= y,
        y + 2 < hi,
    ensures
        gauss_val(pix, width, lo, hi, x, y, c) == v,
{
    lemma_gauss_sum_constant_interior(pix, width, lo, hi, x, y, c, 5, v);
    reveal_with_fuel(base_prefix, 6);
    assert(base_prefix(5) == 16);
    assert((v as int) * 16 * 16 == 256 * (v as int)) by (nonlinear_arith);
    lemma_div_multiples_vanish(v as int, 256);
}

/// One axis weight of the 5x5 kernel, for an offset index in `0 .. 5`.
fn gauss_base_at(i: u32) -> (b: u32)
    ensures
        b as int == gauss_base(i as int),
{
    if i == 0 || i == 4 {
        1
    } else if i == 1 || i == 3 {
        4
    } else {
        6
    }
}

/// Computes the Gaussian-blurred RGB triple at `(x, y)` from the unmodified
/// snapshot `snap`, sampling only inside the band `[lo, hi)`.
#[verifier::loop_isolation(false)]
fn gauss_pixel(snap: &Raster, lo: u32, hi: u32, x: u32, y: u32) -> (p: (u8, u8, u8))
    requires
        snap.wf(),
        hi <= snap.height,
        lo <= y < hi,
        x < snap.width,
    ensures
        p.0 as int == gauss_val(
            snap.pixels@,
            snap.width as int,
            lo as int,
            hi as int,
            x as int,
            y as int,
            0,
        ),
        p.1 as int == gauss_val(
            snap.pixels@,
            snap.width as int,
            lo as int,
            hi as int,
            x as int,
            y as int,
            1,
        ),
        p.2 as int == gauss_val(
            snap.pixels@,
            snap.width as int,
            lo as int,
            hi as int,
            x as int,
            y as int,
            2,
        ),
{
    let ghost w = snap.width as int;
    let ghost l = lo as int;
    let ghost h = hi as int;
    let ghost cx = x as int;
    let ghost cy = y as int;
    proof {
        assert(3 * w * h <= 3 * w * (snap.height as int)) by (nonlinear_arith)
            requires
                0 <= w,
                h <= snap.height as int,
        ;
    }
    let mut sum_r: u32 = 0;
    let mut sum_g: u32 = 0;
    let mut sum_b: u32 = 0;
    let mut ky: u32 = 0;
    while ky < 5
        invariant
            ky <= 5,
            sum_r as int == gauss_sum(snap.pixels@, w, l, h, cx, cy, 0, ky as int),
            sum_g as int == gauss_sum(snap.pixels@, w, l, h, cx, cy, 1, ky as int),
            sum_b as int == gauss_sum(snap.pixels@, w, l, h, cx, cy, 2, ky as int),
        decreases 5 - ky,
    {
        let ny_i: i64 = y as i64 - 2 + ky as i64;
        let ghost ny = cy - 2 + ky as int;
        let wy = gauss_base_at(ky);
        let mut kx: u32 = 0;
        while kx < 5
            invariant
                kx <= 5,
                ky < 5,
                ny_i == ny,
                wy as int == gauss_base(ky as int),
                sum_r as int == gauss_sum(snap.pixels@, w, l, h, cx, cy, 0, ky as int)
                    + gauss_row_sum(snap.pixels@, w, l, h, cx, ny, ky as int, 0, kx as int),
                sum_g as int == gauss_sum(snap.pixels@, w, l, h, cx, cy, 1, ky as int)
                    + gauss_row_sum(snap.pixels@, w, l, h, cx, ny, ky as int, 1, kx as int),
                sum_b as int == gauss_sum(snap.pixels@, w, l, h, cx, cy, 2, ky as int)
                    + gauss_row_sum(snap.pixels@, w, l, h, cx, ny, ky as int, 2, kx as int),
            decreases 5 - kx,
        {
            let nx_i: i64 = x as i64 - 2 + kx as i64;
            let ghost nx = cx - 2 + kx as int;
            let wx = gauss_base_at(kx);
            let wgt: u32 = wy * wx;
            proof {
                lemma_gauss_bounds(snap.pixels@, w, l, h, cx, cy, 0, ky as int);
                lemma_gauss_bounds(snap.pixels@, w, l, h, cx, cy, 1, ky as int);
                lemma_gauss_bounds(snap.pixels@, w, l, h, cx, cy, 2, ky as int);
                lemma_gauss_row_bounds(snap.pixels@, w, l, h, cx, ny, ky as int, 0, kx as int);
                lemma_gauss_row_bounds(snap.pixels@, w, l, h, cx, ny, ky as int, 1, kx as int);
                lemma_gauss_row_bounds(snap.pixels@, w, l, h, cx, ny, ky as int, 2, kx as int);
                reveal_with_fuel(base_prefix, 6);
                assert(base_prefix(5) == 16);
                assert(255 * gauss_base(ky as int) * base_prefix(kx as int) <= 255 * 6 * 16)
                    by (nonlinear_arith)
                    requires
                        1 <= gauss_base(ky as int) <= 6,
                        0 <= base_prefix(kx as int) <= 16,
                ;
                assert(0 <= base_prefix(kx as int) <= 16);
                assert(base_prefix(0) == 0 && base_prefix(1) == 1 && base_prefix(2) == 5
                    && base_prefix(3) == 11 && base_prefix(4) == 15);
                assert(base_prefix(ky as int) <= 15);
                assert(255 * 16 * base_prefix(ky as int) <= 255 * 16 * 15) by (nonlinear_arith)
                    requires
                        0 <= base_prefix(ky as int) <= 15,
                ;
                assert(wgt as int == gauss_weight(ky as int, kx as int));
            }
            if nx_i >= 0 && nx_i < snap.width as i64 && ny_i >= lo as i64 && ny_i < hi as i64 {
                assert(accepted(w, l, h, nx, ny));
                let vr = snap.get_pixel(nx_i as u32, ny_i as u32, 0);
                let vg = snap.get_pixel(nx_i as u32, ny_i as u32, 1);
                let vb = snap.get_pixel(nx_i as u32, ny_i as u32, 2);
                assert(vr as int == sample(snap.pixels@, w, l, h, nx, ny, 0));
                assert(vg as int == sample(snap.pixels@, w, l, h, nx, ny, 1));
                assert(vb as int == sample(snap.pixels@, w, l, h, nx, ny, 2));
                proof {
                    assert(wgt * (vr as u32) <= 36 * 255 && wgt * (vg as u32) <= 36 * 255 && wgt
                        * (vb as u32) <= 36 * 255) by (nonlinear_arith)
                        requires
                            wgt <= 36,
                            vr <= 255,
                            vg <= 255,
                            vb <= 255,
                    ;
                }
                sum_r = sum_r + wgt * (vr as u32);
                sum_g = sum_g + wgt * (vg as u32);
                sum_b = sum_b + wgt * (vb as u32);
            } else {
                assert(!accepted(w, l, h, nx, ny));
                assert(gauss_weight(ky as int, kx as int) * sample(
                    snap.pixels@,
                    w,
                    l,
                    h,
                    nx,
                    ny,
                    0,
                ) == 0);
            }
            kx = kx + 1;
            assert(gauss_row_sum(snap.pixels@, w, l, h, cx, ny, ky as int, 0, kx as int)
                == gauss_row_sum(snap.pixels@, w, l, h, cx, ny, ky as int, 0, kx as int - 1)
                + gauss_weight(ky as int, kx as int - 1) * sample(
                snap.pixels@,
                w,
                l,
                h,
                nx,
                ny,
                0,
            ));
            assert(gauss_row_sum(snap.pixels@, w, l, h, cx, ny, ky as int, 1, kx as int)
                == gauss_row_sum(snap.pixels@, w, l, h, cx, ny, ky as int, 1, kx as int - 1)
                + gauss_weight(ky as int, kx as int - 1) * sample(
                snap.pixels@,
                w,
                l,
                h,
                nx,
                ny,
                1,
            ));
            assert(gauss_row_sum(snap.pixels@, w, l, h, cx, ny, ky as int, 2, kx as int)
                == gauss_row_sum(snap.pixels@, w, l, h, cx, ny, ky as int, 2, kx as int - 1)
                + gauss_weight(ky as int, kx as int - 1) * sample(
                snap.pixels@,
                w,
                l,
                h,
                nx,
                ny,
                2,
            ));
        }
        ky = ky + 1;
        assert(gauss_sum(snap.pixels@, w, l, h, cx, cy, 0, ky as int) == gauss_sum(
            snap.pixels@,
            w,
            l,
            h,
            cx,
            cy,
            0,
            ky as int - 1,
        ) + gauss_row_sum(snap.pixels@, w, l, h, cx, cy - 2 + (ky as int - 1), ky as int - 1, 0, 5));
        assert(gauss_sum(snap.pixels@, w, l, h, cx, cy, 1, ky as int) == gauss_sum(
            snap.pixels@,
            w,
            l,
            h,
            cx,
            cy,
            1,
            ky as int - 1,
        ) + gauss_row_sum(snap.pixels@, w, l, h, cx, cy - 2 + (ky as int - 1), ky as int - 1, 1, 5));
        assert(gauss_sum(snap.pixels@, w, l, h, cx, cy, 2, ky as int) == gauss_sum(
            snap.pixels@,
            w,
            l,
            h,
            cx,
            cy,
            2,
            ky as int - 1,
        ) + gauss_row_sum(snap.pixels@, w, l, h, cx, cy - 2 + (ky as int - 1), ky as int - 1, 2, 5));
    }
    proof {
        lemma_gauss_val_bounds(snap.pixels@, w, l, h, cx, cy, 0);
        lemma_gauss_val_bounds(snap.pixels@, w, l, h, cx, cy, 1);
        lemma_gauss_val_bounds(snap.pixels@, w, l, h, cx, cy, 2);
    }
    ((sum_r / 256) as u8, (sum_g / 256) as u8, (sum_b / 256) as u8)
}

/// Applies the Gaussian blur to every pixel of the band of rows
/// `[row_lo, row_hi)`.
///
/// Every output pixel in the band is the weighted 5x5 mean, normalized by
/// the constant 256, of the accepted neighbors read from the band's
/// pre-filter state; every pixel outside the band keeps its value.
#[verifier::loop_isolation(false)]
pub fn apply_gaussian_blur(r: &mut Raster, row_lo: u32, row_hi: u32)
    requires
        old(r).wf(),
        row_lo <= row_hi,
        row_hi <= old(r).height,
    ensures
        final(r).wf(),
        final(r).width == old(r).width,
        final(r).height == old(r).height,
        forall|xx: int, yy: int, cc: int|
            old(r).valid_coord(xx, yy, cc) ==> final(r).spec_pixel(xx, yy, cc) as int == (
            if row_lo <= yy < row_hi {
                gauss_val(
                    old(r).pixels@,
                    old(r).width as int,
                    row_lo as int,
                    row_hi as int,
                    xx,
                    yy,
                    cc,
                )
            } else {
                old(r).spec_pixel(xx, yy, cc) as int
            }),
{
    let ghost w = old(r).width as int;
    let ghost l = row_lo as int;
    let ghost h = row_hi as int;
    let snap = Raster { width: r.width, height: r.height, pixels: r.snapshot_pixels() };
    let mut y: u32 = row_lo;
    while y < row_hi
        invariant
            row_lo <= y <= row_hi,
            r.wf(),
            r.width == old(r).width,
            r.height == old(r).height,
            snap.width == old(r).width,
            snap.height == old(r).height,
            snap.pixels@ == old(r).pixels@,
            forall|xx: int, yy: int, cc: int|
                old(r).valid_coord(xx, yy, cc) ==> r.spec_pixel(xx, yy, cc) as int == (
                if row_lo <= yy < y {
                    gauss_val(snap.pixels@, w, l, h, xx, yy, cc)
                } else {
                    old(r).spec_pixel(xx, yy, cc) as int
                }),
        decreases row_hi - y,
    {
        let mut x: u32 = 0;
        while x < r.width
            invariant
                x <= r.width,
                row_lo <= y < row_hi,
                r.wf(),
                r.width == old(r).width,
                r.height == old(r).height,
                forall|xx: int, yy: int, cc: int|
                    old(r).valid_coord(xx, yy, cc) ==> r.spec_pixel(xx, yy, cc) as int == (
                    if row_lo <= yy < y || (yy == y && xx < x) {
                        gauss_val(snap.pixels@, w, l, h, xx, yy, cc)
                    } else {
                        old(r).spec_pixel(xx, yy, cc) as int
                    }),
            decreases r.width - x,
        {
            let p = gauss_pixel(&snap, row_lo, row_hi, x, y);
            r.set_rgb(x, y, p);
            x = x + 1;
        }
        y = y + 1;
    }
}

} // verus!
