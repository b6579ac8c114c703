//! The raster data structure: an owned row-major grid of RGB pixels.

use vstd::pervasive::VecAdditionalExecFns;
use vstd::prelude::*;

verus! {

/// Flat index of channel `c` of the pixel at column `x`, row `y`, in a
/// row-major grid of RGB triples that is `width` pixels wide.
pub open spec fn pix_idx(width: int, x: int, y: int, c: int) -> int {
    3 * (y * width + x) + c
}

/// Channel `c` of an RGB triple.
pub open spec fn rgb_channel(p: (u8, u8, u8), c: int) -> u8 {
    if c == 0 {
        p.0
    } else if c == 1 {
        p.1
    } else {
        p.2
    }
}

pub proof fn lemma_pix_idx_bounds(width: int, height: int, x: int, y: int, c: int)
    requires
        0 <= x < width,
        0 <= y < height,
        0 <= c < 3,
    ensures
        0 <= y * width + x < width * height,
        0 <= pix_idx(width, x, y, c) < 3 * width * height,
{
    assert(0 <= y * width + x < width * height) by (nonlinear_arith)
        requires
            0 <= x < width,
            0 <= y < height,
    ;
    assert(0 <= 3 * (y * width + x) + c < 3 * (width * height)) by (nonlinear_arith)
        requires
            0 <= c < 3,
            0 <= y * width + x < width * height,
    ;
    assert(3 * (width * height) == 3 * width * height) by (nonlinear_arith);
}

pub proof fn lemma_pix_idx_injective(
    width: int,
    x1: int,
    y1: int,
    c1: int,
    x2: int,
    y2: int,
    c2: int,
)
    requires
        0 <= x1 < width,
        0 <= y1,
        0 <= c1 < 3,
        0 <= x2 < width,
        0 <= y2,
        0 <= c2 < 3,
        pix_idx(width, x1, y1, c1) == pix_idx(width, x2, y2, c2),
    ensures
        x1 == x2,
        y1 == y2,
        c1 == c2,
{
    assert(y1 * width + x1 == y2 * width + x2 && c1 == c2) by (nonlinear_arith)
        requires
            0 <= c1 < 3,
            0 <= c2 < 3,
            3 * (y1 * width + x1) + c1 == 3 * (y2 * width + x2) + c2,
    ;
    assert(y1 == y2 && x1 == x2) by (nonlinear_arith)
        requires
            0 <= x1 < width,
            0 <= x2 < width,
            0 <= y1,
            0 <= y2,
            y1 * width + x1 == y2 * width + x2,
    ;
}

/// An owned row-major grid of RGB pixels, one byte per channel.
pub struct Raster {
    pub width: u32,
    pub height: u32,
    pub pixels: Vec<u8>,
}

impl Raster {
    /// The grid holds exactly three bytes for each of its `width * height` pixels.
    pub open spec fn wf(self) -> bool {
        self.pixels@.len() == 3 * (self.width as int) * (self.height as int)
    }

    /// Channel `c` (`0` red, `1` green, `2` blue) of the pixel at `(x, y)`.
    pub open spec fn spec_pixel(self, x: int, y: int, c: int) -> u8 {
        self.pixels@[pix_idx(self.width as int, x, y, c)]
    }

    pub open spec fn valid_coord(self, x: int, y: int, c: int) -> bool {
        0 <= x < self.width && 0 <= y < self.height && 0 <= c < 3
    }

    /// Every channel of every pixel inside the grid.
    pub open spec fn constant_color(self, p: (u8, u8, u8)) -> bool {
        forall|x: int, y: int, c: int|
            self.valid_coord(x, y, c) ==> self.spec_pixel(x, y, c) == rgb_channel(p, c)
    }

    /// A raster of the given dimensions with every pixel set to `p`.
    pub fn new_filled(width: u32, height: u32, p: (u8, u8, u8)) -> (r: Raster)
        requires
            3 * (width as int) * (height as int) <= usize::MAX,
        ensures
            r.wf(),
            r.width == width,
            r.height == height,
            r.constant_color(p),
    {
        proof {
            assert((width as int) * (height as int) <= 3 * (width as int) * (height as int))
                by (nonlinear_arith);
            assert(3 * ((width as int) * (height as int)) == 3 * (width as int) * (height as int))
                by (nonlinear_arith);
        }
        let n: usize = (width as usize) * (height as usize);
        let mut pixels: Vec<u8> = Vec::new();
        let mut i: usize = 0;
        while i < n
            invariant
                i <= n,
                n == (width as int) * (height as int),
                3 * n <= usize::MAX,
                pixels@.len() == 3 * i,
                forall|j: int| 0 <= j < pixels@.len() ==> pixels@[j] == rgb_channel(p, j % 3),
            decreases n - i,
        {
            pixels.push(p.0);
            pixels.push(p.1);
            pixels.push(p.2);
            i = i + 1;
            assert(forall|j: int|
                0 <= j < pixels@.len() ==> pixels@[j] == rgb_channel(p, j % 3)) by {
                assert forall|j: int| 0 <= j < pixels@.len() implies pixels@[j] == rgb_channel(
                    p,
                    j % 3,
                ) by {
                    if j >= pixels@.len() - 3 {
                        let base = pixels@.len() - 3;
                        assert(base % 3 == 0) by (nonlinear_arith)
                            requires
                                base == 3 * (i - 1),
                        ;
                        if j == base {
                            assert(j % 3 == 0);
                        } else if j == base + 1 {
                            assert(j % 3 == 1);
                        } else {
                            assert(j % 3 == 2);
                        }
                    }
                }
            }
        }
        let r = Raster { width, height, pixels };
        proof {
            assert(r.wf());
            assert forall|x: int, y: int, c: int| r.valid_coord(x, y, c) implies r.spec_pixel(
                x,
                y,
                c,
            ) == rgb_channel(p, c) by {
                lemma_pix_idx_bounds(width as int, height as int, x, y, c);
                let q = y * (width as int) + x;
                assert(pix_idx(width as int, x, y, c) % 3 == c) by (nonlinear_arith)
                    requires
                        0 <= c < 3,
                        q >= 0,
                        pix_idx(width as int, x, y, c) == 3 * q + c,
                ;
            }
        }
        r
    }

    /// Reads one channel of the pixel at `(x, y)`.
    pub fn get_pixel(&self, x: u32, y: u32, c: usize) -> (v: u8)
        requires
            self.wf(),
            x < self.width,
            y < self.height,
            c < 3,
        ensures
            v == self.spec_pixel(x as int, y as int, c as int),
    {
        proof {
            vstd::std_specs::vec::axiom_spec_len(&self.pixels);
            lemma_pix_idx_bounds(
                self.width as int,
                self.height as int,
                x as int,
                y as int,
                c as int,
            );
        }
        let i: usize = 3 * ((y as usize) * (self.width as usize) + (x as usize)) + c;
        self.pixels[i]
    }

    /// Reads the full RGB triple of the pixel at `(x, y)`.
    pub fn get_rgb(&self, x: u32, y: u32) -> (p: (u8, u8, u8))
        requires
            self.wf(),
            x < self.width,
            y < self.height,
        ensures
            p.0 == self.spec_pixel(x as int, y as int, 0),
            p.1 == self.spec_pixel(x as int, y as int, 1),
            p.2 == self.spec_pixel(x as int, y as int, 2),
    {
        (self.get_pixel(x, y, 0), self.get_pixel(x, y, 1), self.get_pixel(x, y, 2))
    }

    /// Overwrites the pixel at `(x, y)` with the RGB triple `p`,
    /// leaving every other pixel as it was.
    pub fn set_rgb(&mut self, x: u32, y: u32, p: (u8, u8, u8))
        requires
            old(self).wf(),
            x < old(self).width,
            y < old(self).height,
        ensures
            final(self).wf(),
            final(self).width == old(self).width,
            final(self).height == old(self).height,
            forall|xx: int, yy: int, cc: int|
                old(self).valid_coord(xx, yy, cc) ==> final(self).spec_pixel(xx, yy, cc) == (
                if xx == x && yy == y {
                    rgb_channel(p, cc)
                } else {
                    old(self).spec_pixel(xx, yy, cc)
                }),
    {
        proof {
            vstd::std_specs::vec::axiom_spec_len(&self.pixels);
            lemma_pix_idx_bounds(
                self.width as int,
                self.height as int,
                x as int,
                y as int,
                0,
            );
            lemma_pix_idx_bounds(
                self.width as int,
                self.height as int,
                x as int,
                y as int,
                2,
            );
        }
        let base: usize = 3 * ((y as usize) * (self.width as usize) + (x as usize));
        self.pixels.set(base, p.0);
        self.pixels.set(base + 1, p.1);
        self.pixels.set(base + 2, p.2);
        proof {
            let w = self.width as int;
            assert forall|xx: int, yy: int, cc: int|
                old(self).valid_coord(xx, yy, cc) implies self.spec_pixel(xx, yy, cc) == (
            if xx == x && yy == y {
                rgb_channel(p, cc)
            } else {
                old(self).spec_pixel(xx, yy, cc)
            }) by {
                lemma_pix_idx_bounds(w, self.height as int, xx, yy, cc);
                let i = pix_idx(w, xx, yy, cc);
                if xx == x && yy == y {
                    assert(i == base + cc);
                } else {
                    if i == base as int {
                        lemma_pix_idx_injective(w, xx, yy, cc, x as int, y as int, 0);
                    }
                    if i == base + 1 {
                        lemma_pix_idx_injective(w, xx, yy, cc, x as int, y as int, 1);
                    }
                    if i == base + 2 {
                        lemma_pix_idx_injective(w, xx, yy, cc, x as int, y as int, 2);
                    }
                }
            }
        }
    }

    /// Makes an exact copy of the pixel bytes.
    pub fn snapshot_pixels(&self) -> (r: Vec<u8>)
        ensures
            r@ == self.pixels@,
    {
        let mut r: Vec<u8> = Vec::new();
        let mut i: usize = 0;
        while i < self.pixels.len()
            invariant
                i <= self.pixels@.len(),
                r@ == self.pixels@.subrange(0, i as int),
            decreases self.pixels@.len() - i,
        {
            r.push(self.pixels[i]);
            assert(r@ =~= self.pixels@.subrange(0, i as int + 1));
            i = i + 1;
        }
        assert(r@ =~= self.pixels@);
        r
    }
}

} // verus!
