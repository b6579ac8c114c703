use band_blur::overlay::add_visual_indicators;
use band_blur::box_blur::apply_box_blur;
use band_blur::gaussian_blur::apply_gaussian_blur;
use band_blur::pipeline::run_pipeline;
use band_blur::raster::Raster;

fn gauss_kernel() -> [[u32; 5]; 5] {
    [
        [1, 4, 6, 4, 1],
        [4, 16, 24, 16, 4],
        [6, 24, 36, 24, 6],
        [4, 16, 24, 16, 4],
        [1, 4, 6, 4, 1],
    ]
}

/// A deterministic test pattern.
fn patterned(width: u32, height: u32) -> Raster {
    let mut r = Raster::new_filled(width, height, (0, 0, 0));
    for y in 0..height {
        for x in 0..width {
            let pr = ((x * 7 + y * 13) % 256) as u8;
            let pg = ((x * 31 + y * 3 + 17) % 256) as u8;
            let pb = ((x * 5 + y * 29 + 101) % 256) as u8;
            r.set_rgb(x, y, (pr, pg, pb));
        }
    }
    r
}

/// Brute-force box blur of one pixel: truncated mean over the accepted
/// 15x15 neighborhood, rows clamped to `[lo, hi)`, columns to the image.
fn box_reference(src: &Raster, lo: u32, hi: u32, x: u32, y: u32) -> (u8, u8, u8) {
    let mut sums = [0u32; 3];
    let mut count = 0u32;
    for ky in -7i64..=7 {
        for kx in -7i64..=7 {
            let nx = x as i64 + kx;
            let ny = y as i64 + ky;
            if nx >= 0 && nx < src.width as i64 && ny >= lo as i64 && ny < hi as i64 {
                for c in 0..3usize {
                    sums[c] += src.get_pixel(nx as u32, ny as u32, c) as u32;
                }
                count += 1;
            }
        }
    }
    (
        (sums[0] / count) as u8,
        (sums[1] / count) as u8,
        (sums[2] / count) as u8,
    )
}

/// Brute-force Gaussian blur of one pixel: weighted sum over the accepted
/// 5x5 neighborhood, always divided by the constant 256.
fn gauss_reference(src: &Raster, lo: u32, hi: u32, x: u32, y: u32) -> (u8, u8, u8) {
    let mut sums = [0u32; 3];
    for ky in 0..5usize {
        for kx in 0..5usize {
            let nx = x as i64 + kx as i64 - 2;
            let ny = y as i64 + ky as i64 - 2;
            if nx >= 0 && nx < src.width as i64 && ny >= lo as i64 && ny < hi as i64 {
                for c in 0..3usize {
                    sums[c] += src.get_pixel(nx as u32, ny as u32, c) as u32 * gauss_kernel()[ky][kx];
                }
            }
        }
    }
    (
        (sums[0] / 256) as u8,
        (sums[1] / 256) as u8,
        (sums[2] / 256) as u8,
    )
}

fn assert_pixel(r: &Raster, x: u32, y: u32, expected: (u8, u8, u8)) {
    let got = r.get_rgb(x, y);
    assert_eq!(got, expected, "pixel ({x}, {y})");
}

#[test]
fn box_blur_constant_field_is_noop() {
    let mut r = Raster::new_filled(20, 20, (50, 100, 150));
    apply_box_blur(&mut r, 0, 20);
    for y in 0..20u32 {
        for x in 0..20u32 {
            assert_pixel(&r, x, y, (50, 100, 150));
        }
    }
}

#[test]
fn box_blur_second_pass_keeps_constant() {
    let mut r = Raster::new_filled(18, 18, (7, 77, 177));
    apply_box_blur(&mut r, 0, 18);
    apply_box_blur(&mut r, 0, 18);
    for y in 0..18u32 {
        for x in 0..18u32 {
            assert_pixel(&r, x, y, (7, 77, 177));
        }
    }
}

#[test]
fn box_blur_matches_bruteforce_whole_image() {
    let src = patterned(16, 16);
    let mut r = patterned(16, 16);
    apply_box_blur(&mut r, 0, 16);
    for y in 0..16u32 {
        for x in 0..16u32 {
            assert_pixel(&r, x, y, box_reference(&src, 0, 16, x, y));
        }
    }
}

#[test]
fn box_blur_band_rows_clamped_and_rest_untouched() {
    let src = patterned(12, 12);
    let mut r = patterned(12, 12);
    apply_box_blur(&mut r, 4, 9);
    for y in 0..12u32 {
        for x in 0..12u32 {
            if (4..9).contains(&y) {
                assert_pixel(&r, x, y, box_reference(&src, 4, 9, x, y));
            } else {
                assert_pixel(&r, x, y, src.get_rgb(x, y));
            }
        }
    }
}

#[test]
fn gaussian_interior_pixel_is_weighted_mean_over_256() {
    let src = patterned(9, 9);
    let mut r = patterned(9, 9);
    apply_gaussian_blur(&mut r, 0, 9);
    let expected = gauss_reference(&src, 0, 9, 4, 4);
    // Independent recomputation of the same pixel straight from the table.
    let mut sums = [0u32; 3];
    for ky in 0..5usize {
        for kx in 0..5usize {
            for c in 0..3usize {
                let v = src.get_pixel((4 + kx - 2) as u32, (4 + ky - 2) as u32, c) as u32;
                sums[c] += v * gauss_kernel()[ky][kx];
            }
        }
    }
    assert_eq!(expected.0, (sums[0] / 256) as u8);
    assert_eq!(expected.1, (sums[1] / 256) as u8);
    assert_eq!(expected.2, (sums[2] / 256) as u8);
    assert_pixel(&r, 4, 4, expected);
}

#[test]
fn gaussian_band_edge_pixel_is_darkened() {
    let mut r = Raster::new_filled(9, 9, (100, 200, 40));
    apply_gaussian_blur(&mut r, 2, 7);
    // Row 3 misses the kernel row two above it (row 1 is outside the band),
    // so only 240 of the 256 weight units are used: the constant is darkened.
    assert_pixel(&r, 4, 3, (93, 187, 37));
    assert_eq!((100 * 240 / 256, 200 * 240 / 256, 40 * 240 / 256), (93, 187, 37));
    // A fully interior pixel of the band keeps the constant.
    assert_pixel(&r, 4, 4, (100, 200, 40));
    // Rows outside the band are untouched.
    assert_pixel(&r, 4, 0, (100, 200, 40));
    assert_pixel(&r, 4, 8, (100, 200, 40));
}

#[test]
fn gaussian_whole_band_matches_bruteforce() {
    let src = patterned(11, 11);
    let mut r = patterned(11, 11);
    apply_gaussian_blur(&mut r, 3, 8);
    for y in 0..11u32 {
        for x in 0..11u32 {
            if (3..8).contains(&y) {
                assert_pixel(&r, x, y, gauss_reference(&src, 3, 8, x, y));
            } else {
                assert_pixel(&r, x, y, src.get_rgb(x, y));
            }
        }
    }
}

#[test]
fn markers_drawn_at_thirds() {
    let src = patterned(8, 9);
    let mut r = patterned(8, 9);
    add_visual_indicators(&mut r);
    for y in 0..9u32 {
        for x in 0..8u32 {
            if y == 3 {
                assert_pixel(&r, x, y, (255, 0, 0));
            } else if y == 6 {
                assert_pixel(&r, x, y, (0, 0, 255));
            } else {
                assert_pixel(&r, x, y, src.get_rgb(x, y));
            }
        }
    }
}

#[test]
fn band_boundaries_at_height_300() {
    let mut r = Raster::new_filled(10, 300, (10, 20, 30));
    run_pipeline(&mut r);
    for x in 0..10u32 {
        // The red line sits exactly at row 100, the blue one at row 200.
        assert_pixel(&r, x, 100, (255, 0, 0));
        assert_pixel(&r, x, 200, (0, 0, 255));
    }
    // The top band [0, 100) is box blur over a constant: unchanged.
    for y in 0..100u32 {
        for x in 0..10u32 {
            assert_pixel(&r, x, y, (10, 20, 30));
        }
    }
    // The bottom band [200, 300) is untouched.
    for y in 201..300u32 {
        for x in 0..10u32 {
            assert_pixel(&r, x, y, (10, 20, 30));
        }
    }
    // Pixels of the middle band with a full 5x5 neighborhood keep the
    // constant; a pixel one row below the band start misses one kernel row
    // and is darkened to 240/256 of the constant.
    for y in 102..198u32 {
        for x in 2..8u32 {
            assert_pixel(&r, x, y, (10, 20, 30));
        }
    }
    assert_pixel(&r, 5, 101, (9, 18, 28));
    assert_eq!((10 * 240 / 256, 20 * 240 / 256, 30 * 240 / 256), (9, 18, 28));
}

#[test]
fn degenerate_height_one_blue_line_wins_at_row_zero() {
    // Both thirds collapse to zero, so both marker rows land on row 0 and
    // the blue line, drawn last, wins.
    assert_eq!(1u32 / 3, 0);
    assert_eq!(2 * 1u32 / 3, 0);
    let mut r = Raster::new_filled(3, 1, (10, 20, 30));
    run_pipeline(&mut r);
    for x in 0..3u32 {
        assert_pixel(&r, x, 0, (0, 0, 255));
    }
}

#[test]
fn degenerate_height_two_marker_rows_cover_everything() {
    // At height 2 only the first third collapses: the red row stays at 0
    // while the blue row lands on row 1, so the two lines do not collide.
    assert_eq!(2u32 / 3, 0);
    assert_eq!(2 * 2u32 / 3, 1);
    let mut r = Raster::new_filled(3, 2, (10, 20, 30));
    run_pipeline(&mut r);
    for x in 0..3u32 {
        assert_pixel(&r, x, 0, (255, 0, 0));
        assert_pixel(&r, x, 1, (0, 0, 255));
    }
}

#[test]
fn pipeline_on_uniform_30x30() {
    let src = Raster::new_filled(30, 30, (10, 20, 30));
    let mut r = Raster::new_filled(30, 30, (10, 20, 30));
    run_pipeline(&mut r);
    for y in 0..30u32 {
        for x in 0..30u32 {
            if y == 10 {
                assert_pixel(&r, x, y, (255, 0, 0));
            } else if y == 20 {
                assert_pixel(&r, x, y, (0, 0, 255));
            } else if (10..20).contains(&y) {
                // The Gaussian band: normalization by the constant 256
                // darkens pixels whose neighborhood is cut off by the band
                // boundary or the image edge; full-neighborhood pixels keep
                // the constant.
                let expected = gauss_reference(&src, 10, 20, x, y);
                assert_pixel(&r, x, y, expected);
                if (2..28).contains(&x) && (12..18).contains(&y) {
                    assert_eq!(expected, (10, 20, 30));
                }
            } else {
                assert_pixel(&r, x, y, (10, 20, 30));
            }
        }
    }
}
