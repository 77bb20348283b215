use iiif_core::image::{CopyRect, Raster, RasterError};
use iiif_core::luma::pixel_luma;

fn gray(width: u32, height: u32, data: Vec<u8>) -> Raster {
    Raster::Gray8 { width, height, data }
}

fn rgb(width: u32, height: u32, data: Vec<u8>) -> Raster {
    Raster::Rgb8 { width, height, data }
}

#[test]
fn accessors_report_layout_and_size() {
    let g = gray(3, 2, vec![1, 2, 3, 4, 5, 6]);
    assert_eq!(g.width(), 3);
    assert_eq!(g.height(), 2);
    assert_eq!(g.channels(), 1);
    assert_eq!(g.data(), &[1, 2, 3, 4, 5, 6]);
    let c = rgb(1, 1, vec![7, 8, 9]);
    assert_eq!(c.channels(), 3);
    assert_eq!(c.data(), &[7, 8, 9]);
}

#[test]
fn zeroed_like_keeps_layout() {
    let c = rgb(1, 1, vec![7, 8, 9]);
    let z = c.zeroed_like(2, 3).unwrap();
    assert_eq!(z, rgb(2, 3, vec![0; 18]));
    let g = gray(1, 1, vec![5]);
    assert_eq!(g.zeroed_like(0, 4).unwrap(), gray(0, 4, vec![]));
}

#[test]
fn zeroed_like_refuses_overflowing_size() {
    let c = rgb(1, 1, vec![7, 8, 9]);
    let e = c.zeroed_like(u32::MAX, u32::MAX).unwrap_err();
    assert_eq!(e, RasterError("allocation size overflow".to_owned()));
    assert_eq!(e.message(), "raster error: allocation size overflow");
}

#[test]
fn blit_copies_rectangle() {
    let src = gray(3, 3, vec![1, 2, 3, 4, 5, 6, 7, 8, 9]);
    let mut dst = gray(4, 2, vec![0; 8]);
    let rect = CopyRect { src_x: 1, src_y: 1, width: 2, height: 2 };
    dst.blit(&src, rect, 2, 0).unwrap();
    assert_eq!(dst, gray(4, 2, vec![0, 0, 5, 6, 0, 0, 8, 9]));
}

#[test]
fn blit_copies_rgb_pixels() {
    let src = rgb(2, 1, vec![1, 2, 3, 4, 5, 6]);
    let mut dst = rgb(1, 1, vec![0, 0, 0]);
    dst.blit(&src, CopyRect { src_x: 1, src_y: 0, width: 1, height: 1 }, 0, 0).unwrap();
    assert_eq!(dst, rgb(1, 1, vec![4, 5, 6]));
}

#[test]
fn blit_refuses_layout_mismatch() {
    let src = rgb(1, 1, vec![1, 2, 3]);
    let mut dst = gray(1, 1, vec![0]);
    let e = dst.blit(&src, CopyRect { src_x: 0, src_y: 0, width: 1, height: 1 }, 0, 0).unwrap_err();
    assert_eq!(e.0, "blit between different pixel layouts");
    assert_eq!(dst, gray(1, 1, vec![0]));
}

#[test]
fn blit_refuses_out_of_bounds() {
    let src = gray(2, 2, vec![1, 2, 3, 4]);
    let mut dst = gray(2, 2, vec![0; 4]);
    let cases = [
        (CopyRect { src_x: 1, src_y: 0, width: 2, height: 1 }, 0, 0),
        (CopyRect { src_x: 0, src_y: 1, width: 1, height: 2 }, 0, 0),
        (CopyRect { src_x: 0, src_y: 0, width: 1, height: 1 }, 2, 0),
        (CopyRect { src_x: 0, src_y: 0, width: 1, height: 1 }, 0, 2),
        (CopyRect { src_x: u32::MAX, src_y: 0, width: 1, height: 1 }, 0, 0),
    ];
    for (rect, x, y) in cases {
        let e = dst.blit(&src, rect, x, y).unwrap_err();
        assert_eq!(e.0, "blit rectangle out of bounds");
    }
    assert_eq!(dst, gray(2, 2, vec![0; 4]));
}

#[test]
fn mirror_reverses_each_row() {
    let mut g = gray(3, 2, vec![1, 2, 3, 4, 5, 6]);
    g.mirror();
    assert_eq!(g, gray(3, 2, vec![3, 2, 1, 6, 5, 4]));
    let mut c = rgb(2, 1, vec![1, 2, 3, 4, 5, 6]);
    c.mirror();
    assert_eq!(c, rgb(2, 1, vec![4, 5, 6, 1, 2, 3]));
}

#[test]
fn mirror_twice_is_identity() {
    let original = rgb(3, 2, (0..18).collect());
    let mut m = original.clone();
    m.mirror();
    assert_ne!(m, original);
    m.mirror();
    assert_eq!(m, original);
}

#[test]
fn rotate_quarter_turns_clockwise() {
    let g = gray(3, 2, vec![1, 2, 3, 4, 5, 6]);
    assert_eq!(g.clone().rotate_quarters(0), g);
    assert_eq!(g.clone().rotate_quarters(1), gray(2, 3, vec![4, 1, 5, 2, 6, 3]));
    assert_eq!(g.clone().rotate_quarters(2), gray(3, 2, vec![6, 5, 4, 3, 2, 1]));
    assert_eq!(g.clone().rotate_quarters(3), gray(2, 3, vec![3, 6, 2, 5, 1, 4]));
    assert_eq!(g.clone().rotate_quarters(5), gray(2, 3, vec![4, 1, 5, 2, 6, 3]));
}

#[test]
fn rotate_rgb_moves_whole_pixels() {
    let c = rgb(2, 1, vec![1, 2, 3, 4, 5, 6]);
    assert_eq!(c.clone().rotate_quarters(1), rgb(1, 2, vec![1, 2, 3, 4, 5, 6]));
    assert_eq!(c.clone().rotate_quarters(2), rgb(2, 1, vec![4, 5, 6, 1, 2, 3]));
}

#[test]
fn four_quarter_turns_are_identity() {
    let original = rgb(3, 2, (0..18).collect());
    let mut r = original.clone();
    for _ in 0..4 {
        r = r.rotate_quarters(1);
    }
    assert_eq!(r, original);
    let twice = original.clone().rotate_quarters(1).rotate_quarters(1);
    assert_eq!(twice, original.clone().rotate_quarters(2));
}

#[test]
fn into_gray_keeps_gray_and_weights_rgb() {
    let g = gray(2, 1, vec![9, 200]);
    assert_eq!(g.clone().into_gray(), g);
    let c = rgb(5, 1, vec![255, 0, 0, 0, 255, 0, 0, 0, 255, 255, 255, 255, 10, 20, 30]);
    assert_eq!(c.into_gray(), gray(5, 1, vec![76, 150, 29, 255, 18]));
}

#[test]
fn luma_matches_binary64_formula() {
    for r in (0..=255u32).step_by(5) {
        for g in (0..=255u32).step_by(3) {
            for b in (0..=255u32).step_by(7) {
                let luma = 0.299 * f64::from(r) + 0.587 * f64::from(g) + 0.114 * f64::from(b);
                let expected = luma.round().clamp(0.0, 255.0) as u8;
                assert_eq!(pixel_luma(r as u8, g as u8, b as u8), expected, "({r}, {g}, {b})");
            }
        }
    }
}

#[test]
fn luma_of_neutral_gray_is_its_value() {
    for v in 0..=255u8 {
        assert_eq!(pixel_luma(v, v, v), v);
    }
}

#[test]
fn into_bitonal_thresholds_at_half() {
    let g = gray(4, 1, vec![0, 127, 128, 255]);
    assert_eq!(g.into_bitonal(), gray(4, 1, vec![0, 0, 255, 255]));
    let c = rgb(2, 1, vec![255, 255, 255, 200, 10, 10]);
    assert_eq!(c.into_bitonal(), gray(2, 1, vec![255, 0]));
}

#[test]
fn bitonal_twice_is_bitonal_once() {
    let c = rgb(3, 1, vec![1, 2, 3, 130, 140, 150, 250, 0, 90]);
    let once = c.into_bitonal();
    assert_eq!(once.clone().into_bitonal(), once);
}

#[test]
fn quarter_turns_compose() {
    let original = rgb(3, 2, (0..18).collect());
    for a in 0..8u8 {
        for b in 0..8u8 {
            let twice = original.clone().rotate_quarters(a).rotate_quarters(b);
            assert_eq!(twice, original.clone().rotate_quarters((a % 4 + b % 4) % 4), "{a} then {b}");
        }
    }
}
