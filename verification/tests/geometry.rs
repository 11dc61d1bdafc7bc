use people_clock::tile::{
    background_src_rect, centered_within, clip_to_aspect_ratio, person_dest_rect,
    scale_inner_to_outer, Rect, PERSON_RATIO,
};

fn rect(x: u32, y: u32, w: u32, h: u32) -> Rect {
    Rect::new(x, y, w, h)
}

#[test]
fn crop_wide_source_to_square_target() {
    // A 100x50 source cropped for a 50x50 target: the crop is the centered
    // 50x50 square.
    let r = clip_to_aspect_ratio(rect(0, 0, 100, 50), rect(0, 0, 50, 50));
    assert_eq!((r.x, r.y, r.width, r.height), (25, 0, 50, 50));
}

#[test]
fn crop_tall_source_to_wide_target() {
    // A 100x400 source cropped for a 200x100 target keeps the full width
    // and cuts the height to 50, centered.
    let r = clip_to_aspect_ratio(rect(0, 0, 100, 400), rect(0, 0, 200, 100));
    assert_eq!((r.x, r.y, r.width, r.height), (0, 175, 100, 50));
}

#[test]
fn crop_equal_ratio_is_identity() {
    // Same aspect ratio: the crop returns the source unchanged.
    let src = rect(0, 0, 640, 480);
    let r = clip_to_aspect_ratio(src, rect(0, 0, 320, 240));
    assert_eq!((r.x, r.y, r.width, r.height), (0, 0, 640, 480));
}

#[test]
fn crop_is_contained_and_ratio_close() {
    // The crop always fits in the source and tracks the target ratio
    // within floating-point tolerance.
    let cases = [
        (1920u32, 1080u32, 720u32, 480u32),
        (333, 777, 123, 45),
        (5, 1000, 1000, 5),
        (101, 99, 33, 44),
    ];
    for (sw, sh, cw, ch) in cases {
        let r = clip_to_aspect_ratio(rect(0, 0, sw, sh), rect(0, 0, cw, ch));
        assert!(r.x + r.width <= sw);
        assert!(r.y + r.height <= sh);
        assert!(r.width == sw || r.height == sh);
        if r.height > 0 {
            let got = r.width as f32 / r.height as f32;
            let want = cw as f32 / ch as f32;
            // Integer rounding moves each dimension by less than one pixel.
            let tol = want / r.height as f32 + 1.0 / r.height as f32;
            assert!((got - want).abs() <= tol, "{got} vs {want}");
        }
    }
}

#[test]
fn crop_degenerate_inputs_return_source() {
    let src = rect(3, 4, 10, 20);
    let r = clip_to_aspect_ratio(src, rect(0, 0, 0, 7));
    assert_eq!((r.x, r.y, r.width, r.height), (3, 4, 10, 20));
    let r2 = clip_to_aspect_ratio(rect(0, 0, 0, 5), rect(0, 0, 4, 3));
    assert_eq!((r2.width, r2.height), (0, 5));
}

#[test]
fn fit_keeps_inner_ratio_within_outer() {
    // A 400x100 outer with a square inner: the fit is 100x100, never
    // larger than the outer in the governing dimension.
    let r = scale_inner_to_outer(rect(0, 0, 400, 100), rect(7, 9, 50, 50));
    assert_eq!((r.x, r.y, r.width, r.height), (7, 9, 100, 100));
}

#[test]
fn fit_fills_governing_dimension() {
    let cases = [(640u32, 480u32, 100u32, 100u32), (100, 300, 60, 20), (17, 31, 5, 7)];
    for (ow, oh, iw, ih) in cases {
        let r = scale_inner_to_outer(rect(0, 0, ow, oh), rect(0, 0, iw, ih));
        assert!(r.width <= ow && r.height <= oh);
        assert!(r.width == ow || r.height == oh);
        if r.height > 0 {
            let got = r.width as f32 / r.height as f32;
            let want = iw as f32 / ih as f32;
            let tol = want / r.height as f32 + 1.0 / r.height as f32;
            assert!((got - want).abs() <= tol, "{got} vs {want}");
        }
    }
}

#[test]
fn fit_degenerate_inputs_yield_empty() {
    let r = scale_inner_to_outer(rect(0, 0, 10, 0), rect(2, 3, 4, 5));
    assert_eq!((r.x, r.y, r.width, r.height), (2, 3, 0, 0));
}

#[test]
fn centering_splits_margin() {
    let r = centered_within(rect(10, 20, 100, 50), 40, 30);
    assert_eq!((r.x, r.y, r.width, r.height), (40, 30, 40, 30));
}

#[test]
fn background_src_matches_clip() {
    let r = background_src_rect(800, 600, rect(0, 0, 400, 400));
    assert_eq!((r.x, r.y, r.width, r.height), (100, 0, 600, 600));
}

#[test]
fn person_inset_confined_to_quarter_and_centered() {
    let dest = rect(0, 0, 400, 400);
    let r = person_dest_rect(200, 100, dest);
    // The inset box is 100x100; a 2:1 photo fits as 100x50, centered.
    assert_eq!(PERSON_RATIO, 4);
    assert_eq!((r.width, r.height), (100, 50));
    assert_eq!((r.x, r.y), (150, 175));
}
