use caving::color::{convert_frame, frame_fits_check, half_extent_of, span, yuv_to_rgb, Plane};

/// Reference formula, computed independently with an arithmetic shift.
fn reference(y: u8, cb: u8, cr: u8) -> [u8; 3] {
    let l = (y as i32 - 16) * 298;
    let u = cb as i32 - 128;
    let v = cr as i32 - 128;
    let clamp = |x: i32| (x >> 8).min(255).max(0) as u8;
    [
        clamp(l + 409 * v + 128),
        clamp(l - 100 * u - 208 * v + 128),
        clamp(l + 516 * u + 128),
    ]
}

#[test]
fn black_and_white() {
    assert_eq!(yuv_to_rgb(16, 128, 128), [0, 0, 0]);
    assert_eq!(yuv_to_rgb(235, 128, 128), [255, 255, 255]);
    assert_eq!(yuv_to_rgb(0, 128, 128), [0, 0, 0]);
    assert_eq!(yuv_to_rgb(255, 128, 128), [255, 255, 255]);
}

#[test]
fn primary_colours() {
    assert_eq!(yuv_to_rgb(81, 90, 240), [255, 0, 0]);
    assert_eq!(yuv_to_rgb(145, 54, 34), [0, 255, 1]);
    assert_eq!(yuv_to_rgb(41, 240, 110), [0, 0, 255]);
}

#[test]
fn exact_midtones() {
    // (126 - 16) * 298 = 32780; red term 409 * 10 + 128 = 4218 -> 36998 >> 8 = 144
    // green term -100 * (-20) - 208 * 10 + 128 = 48 -> 32828 >> 8 = 128
    // blue term 516 * (-20) + 128 = -10192 -> 22588 >> 8 = 88
    assert_eq!(yuv_to_rgb(126, 108, 138), [144, 128, 88]);
}

#[test]
fn gray_axis_is_gray() {
    for y in 0..=255u8 {
        let [r, g, b] = yuv_to_rgb(y, 128, 128);
        assert_eq!(r, g);
        assert_eq!(g, b);
    }
}

#[test]
fn brighter_luma_is_never_darker() {
    for cb in (0..=255u8).step_by(17) {
        for cr in (0..=255u8).step_by(17) {
            let mut last = yuv_to_rgb(0, cb, cr);
            for y in 1..=255u8 {
                let next = yuv_to_rgb(y, cb, cr);
                for ch in 0..3 {
                    assert!(next[ch] >= last[ch]);
                }
                last = next;
            }
        }
    }
}

#[test]
fn matches_reference_everywhere() {
    for y in (0..=255u8).step_by(5) {
        for cb in (0..=255u8).step_by(3) {
            for cr in (0..=255u8).step_by(7) {
                assert_eq!(yuv_to_rgb(y, cb, cr), reference(y, cb, cr));
            }
        }
    }
}

#[test]
fn half_extents() {
    assert_eq!(half_extent_of(0), 0);
    assert_eq!(half_extent_of(-5), 0);
    assert_eq!(half_extent_of(1), 0);
    assert_eq!(half_extent_of(7), 3);
    assert_eq!(half_extent_of(8), 4);
}

#[test]
fn spans() {
    assert_eq!(span(10, 0, 4), Some(0));
    assert_eq!(span(10, 3, 0), Some(0));
    assert_eq!(span(10, 3, 4), Some(24));
    assert_eq!(span(usize::MAX, 3, 1), None);
    assert_eq!(span(usize::MAX / 2, 3, 1), Some(usize::MAX));
    assert_eq!(span(usize::MAX / 2 + 1, 3, 1), None);
    assert_eq!(span(usize::MAX - 1, 2, 1), Some(usize::MAX));
    assert_eq!(span(usize::MAX - 1, 2, 2), None);
}

#[test]
fn converts_a_small_frame() {
    // 4 x 2 frame: two 2x2 blocks; padded planes and a padded target.
    let y: Vec<u8> = vec![16, 235, 81, 145, 99, 126, 41, 200, 7, 7];
    let cb: Vec<u8> = vec![128, 108, 1];
    let cr: Vec<u8> = vec![128, 138, 1];
    let pitch = 20;
    let mut pixels = vec![0xAAu8; 2 * pitch];
    let yp = Plane { data: &y, pitch: 5 };
    let cbp = Plane { data: &cb, pitch: 3 };
    let crp = Plane { data: &cr, pitch: 3 };
    assert!(frame_fits_check(yp, cbp, crp, 4, 2, pixels.len(), pitch));
    convert_frame(yp, cbp, crp, 4, 2, &mut pixels, pitch);
    for row in 0..2 {
        for col in 0..4 {
            let expected = reference(y[row * 5 + col], cb[col / 2], cr[col / 2]);
            let at = row * pitch + 4 * col;
            assert_eq!(&pixels[at..at + 3], &expected);
            // alpha untouched
            assert_eq!(pixels[at + 3], 0xAA);
        }
        // the tail of each row untouched
        for k in row * pitch + 16..(row + 1) * pitch {
            assert_eq!(pixels[k], 0xAA);
        }
    }
    assert_eq!(&pixels[0..3], &[0, 0, 0]);
    assert_eq!(&pixels[4..7], &[255, 255, 255]);
}

#[test]
fn odd_sizes_leave_the_last_row_and_column() {
    let y: Vec<u8> = vec![200; 9];
    let cb: Vec<u8> = vec![128; 1];
    let cr: Vec<u8> = vec![128; 1];
    let pitch = 12;
    let mut pixels = vec![1u8; 3 * pitch];
    let yp = Plane { data: &y, pitch: 3 };
    let cbp = Plane { data: &cb, pitch: 1 };
    let crp = Plane { data: &cr, pitch: 1 };
    assert!(frame_fits_check(yp, cbp, crp, 3, 3, pixels.len(), pitch));
    convert_frame(yp, cbp, crp, 3, 3, &mut pixels, pitch);
    let grey = yuv_to_rgb(200, 128, 128);
    for row in 0..3 {
        for col in 0..3 {
            let at = row * pitch + 4 * col;
            if row < 2 && col < 2 {
                assert_eq!(&pixels[at..at + 3], &grey);
            } else {
                assert_eq!(&pixels[at..at + 3], &[1, 1, 1]);
            }
            assert_eq!(pixels[at + 3], 1);
        }
    }
}

#[test]
fn empty_or_negative_frames_change_nothing() {
    let y: Vec<u8> = vec![];
    let yp = Plane { data: &y, pitch: 0 };
    let mut pixels = vec![9u8; 16];
    for (w, h) in [(0, 0), (-4, 8), (8, -4), (1, 9), (9, 1)] {
        assert!(frame_fits_check(yp, yp, yp, w, h, pixels.len(), 0));
        convert_frame(yp, yp, yp, w, h, &mut pixels, 0);
        assert_eq!(pixels, vec![9u8; 16]);
    }
}

#[test]
fn short_buffers_do_not_fit() {
    let y: Vec<u8> = vec![0; 8];
    let c: Vec<u8> = vec![0; 2];
    let ok_y = Plane { data: &y, pitch: 4 };
    let ok_c = Plane { data: &c, pitch: 2 };
    assert!(frame_fits_check(ok_y, ok_c, ok_c, 4, 2, 32, 16));
    // target one byte short of the last written byte
    assert!(frame_fits_check(ok_y, ok_c, ok_c, 4, 2, 31, 16));
    assert!(!frame_fits_check(ok_y, ok_c, ok_c, 4, 2, 30, 16));
    // rows of the target would overlap
    assert!(!frame_fits_check(ok_y, ok_c, ok_c, 4, 2, 64, 15));
    // luma plane too short
    let short_y = Plane { data: &y[..7], pitch: 4 };
    assert!(!frame_fits_check(short_y, ok_c, ok_c, 4, 2, 32, 16));
    // chroma plane too short
    let short_c = Plane { data: &c[..1], pitch: 2 };
    assert!(!frame_fits_check(ok_y, short_c, ok_c, 4, 2, 32, 16));
    assert!(!frame_fits_check(ok_y, ok_c, short_c, 4, 2, 32, 16));
}

#[test]
fn raising_chroma_moves_colours_the_right_way() {
    for y in (0..=255u8).step_by(15) {
        for c in 0..255u8 {
            for other in (0..=255u8).step_by(51) {
                // Cb up: blue never down, green never up, red kept.
                let lo = yuv_to_rgb(y, c, other);
                let hi = yuv_to_rgb(y, c + 1, other);
                assert_eq!(lo[0], hi[0]);
                assert!(hi[1] <= lo[1]);
                assert!(lo[2] <= hi[2]);
                // Cr up: red never down, green never up, blue kept.
                let lo = yuv_to_rgb(y, other, c);
                let hi = yuv_to_rgb(y, other, c + 1);
                assert!(lo[0] <= hi[0]);
                assert!(hi[1] <= lo[1]);
                assert_eq!(lo[2], hi[2]);
            }
        }
    }
}

#[test]
fn raising_one_chroma_byte_changes_only_its_block() {
    let y: Vec<u8> = vec![120; 16];
    let cb: Vec<u8> = vec![128; 4];
    let mut cr: Vec<u8> = vec![128; 4];
    let pitch = 16;
    let mut before = vec![7u8; 4 * pitch];
    convert_frame(
        Plane { data: &y, pitch: 4 },
        Plane { data: &cb, pitch: 2 },
        Plane { data: &cr, pitch: 2 },
        4,
        4,
        &mut before,
        pitch,
    );
    cr[3] = 200;
    let mut after = vec![7u8; 4 * pitch];
    convert_frame(
        Plane { data: &y, pitch: 4 },
        Plane { data: &cb, pitch: 2 },
        Plane { data: &cr, pitch: 2 },
        4,
        4,
        &mut after,
        pitch,
    );
    for row in 0..4 {
        for col in 0..4 {
            let at = row * pitch + 4 * col;
            if row >= 2 && col >= 2 {
                assert!(after[at] > before[at]);
                assert!(after[at + 1] < before[at + 1]);
                assert_eq!(after[at + 2], before[at + 2]);
            } else {
                assert_eq!(&after[at..at + 3], &before[at..at + 3]);
            }
            assert_eq!(after[at + 3], 7);
        }
    }
}
