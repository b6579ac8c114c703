//! The neighborhood sampler: which kernel offsets around a pixel are
//! accepted, and what value an accepted offset contributes.
//!
//! A neighbor `(nx, ny)` is accepted when its column lies inside the full
//! image width and its row lies inside the active band `[lo, hi)`.  There is
//! no wraparound, mirroring or zero padding: a rejected offset simply
//! contributes nothing.

use crate::raster::pix_idx;
use vstd::prelude::*;

verus! {

/// Whether the neighbor at `(nx, ny)` may be sampled: the column is clamped
/// to the whole image, the row to the active band `[lo, hi)`.
pub open spec fn accepted(width: int, lo: int, hi: int, nx: int, ny: int) -> bool {
    0 <= nx < width && lo <= ny < hi
}

/// The value channel `c` of the neighbor at `(nx, ny)` contributes to an
/// accumulation: its byte value if the neighbor is accepted, nothing if not.
pub open spec fn sample(
    pix: Seq<u8>,
    width: int,
    lo: int,
    hi: int,
    nx: int,
    ny: int,
    c: int,
) -> int {
    if accepted(width, lo, hi, nx, ny) {
        pix[pix_idx(width, nx, ny, c)] as int
    } else {
        0
    }
}

/// Every sample lies between 0 and 255.
pub proof fn lemma_sample_bounds(
    pix: Seq<u8>,
    width: int,
    lo: int,
    hi: int,
    nx: int,
    ny: int,
    c: int,
)
    requires
        0 <= lo,
        3 * width * hi <= pix.len(),
        0 <= c < 3,
    ensures
        0 <= sample(pix, width, lo, hi, nx, ny, c) <= 255,
{
    if accepted(width, lo, hi, nx, ny) {
        crate::raster::lemma_pix_idx_bounds(width, hi, nx, ny, c);
    }
}

/// A sample depends only on the bytes of the band's rows: two pixel grids
/// that agree on every channel inside rows `[lo, hi)` give equal samples.
pub proof fn lemma_sample_local(
    pix1: Seq<u8>,
    pix2: Seq<u8>,
    width: int,
    lo: int,
    hi: int,
    nx: int,
    ny: int,
    c: int,
)
    requires
        0 <= c < 3,
        forall|qx: int, qy: int, qc: int|
            accepted(width, lo, hi, qx, qy) && 0 <= qc < 3 ==> pix1[pix_idx(width, qx, qy, qc)]
                == pix2[pix_idx(width, qx, qy, qc)],
    ensures
        sample(pix1, width, lo, hi, nx, ny, c) == sample(pix2, width, lo, hi, nx, ny, c),
{
}

} // verus!
