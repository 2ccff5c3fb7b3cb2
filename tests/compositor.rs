use ssr_engine::compositor::{calc_color, draw_circle, draw_rect, isqrt, round_sqrt, DrawError};

fn pixel(buf: &[u8], width: usize, x: usize, y: usize) -> [u8; 4] {
    let i = (y * width + x) * 4;
    [buf[i], buf[i + 1], buf[i + 2], buf[i + 3]]
}

#[test]
fn blend_over_transparent_black() {
    assert_eq!(calc_color(0, 255, 0, 127), 126);
}

#[test]
fn blend_keeps_opaque_destination_when_source_is_clear() {
    // the shift by sixteen bits darkens a full channel slightly
    assert_eq!(calc_color(255, 255, 255, 0), 253);
}

#[test]
fn blend_fully_opaque_source_over_anything() {
    assert_eq!(calc_color(100, 0, 255, 255), 0);
    assert_eq!(calc_color(0, 255, 0, 255), 253);
}

#[test]
fn rect_blends_inside_and_leaves_the_rest() {
    let mut buf = vec![0u8; 4 * 3 * 4];
    draw_rect(&mut buf, (4, 3), 1, 1, 2, 1, [255, 0, 0, 127]);
    for y in 0..3 {
        for x in 0..4 {
            let expected = if y == 1 && (x == 1 || x == 2) { [126, 0, 0, 255] } else { [0, 0, 0, 0] };
            assert_eq!(pixel(&buf, 4, x, y), expected, "pixel ({}, {})", x, y);
        }
    }
}

#[test]
fn rect_blends_over_existing_pixels() {
    let mut buf = vec![0u8; 2 * 1 * 4];
    buf[0] = 10;
    buf[1] = 20;
    buf[2] = 30;
    buf[3] = 255;
    draw_rect(&mut buf, (2, 1), 0, 0, 1, 1, [200, 100, 50, 128]);
    assert_eq!(pixel(&buf, 2, 0, 0), [104, 59, 39, 255]);
    assert_eq!(pixel(&buf, 2, 1, 0), [0, 0, 0, 0]);
}

#[test]
fn rect_drawn_twice_blends_twice() {
    let mut buf = vec![0u8; 4];
    draw_rect(&mut buf, (1, 1), 0, 0, 1, 1, [255, 0, 0, 127]);
    draw_rect(&mut buf, (1, 1), 0, 0, 1, 1, [0, 0, 0, 127]);
    assert_eq!(pixel(&buf, 1, 0, 0), [62, 0, 0, 255]);
}

#[test]
fn rect_partly_outside_is_clipped() {
    let mut buf = vec![0u8; 3 * 3 * 4];
    draw_rect(&mut buf, (3, 3), -2, -2, 4, 4, [0, 0, 255, 255]);
    for y in 0..3 {
        for x in 0..3 {
            let expected = if x < 2 && y < 2 { [0, 0, 253, 255] } else { [0, 0, 0, 0] };
            assert_eq!(pixel(&buf, 3, x, y), expected, "pixel ({}, {})", x, y);
        }
    }
}

#[test]
fn rect_past_the_far_edges_is_clipped() {
    let mut buf = vec![0u8; 3 * 2 * 4];
    draw_rect(&mut buf, (3, 2), 2, 1, usize::MAX, usize::MAX, [0, 255, 0, 255]);
    for y in 0..2 {
        for x in 0..3 {
            let expected = if x == 2 && y == 1 { [0, 253, 0, 255] } else { [0, 0, 0, 0] };
            assert_eq!(pixel(&buf, 3, x, y), expected);
        }
    }
}

#[test]
fn rect_wholly_outside_changes_nothing() {
    let mut buf = vec![7u8; 3 * 3 * 4];
    draw_rect(&mut buf, (3, 3), 10, 0, 5, 5, [255, 255, 255, 255]);
    draw_rect(&mut buf, (3, 3), -10, -10, 5, 5, [255, 255, 255, 255]);
    draw_rect(&mut buf, (3, 3), 0, 3, 5, 5, [255, 255, 255, 255]);
    draw_rect(&mut buf, (3, 3), i32::MIN, i32::MIN, 0, 0, [255, 255, 255, 255]);
    assert!(buf.iter().all(|b| *b == 7));
}

#[test]
fn circle_rejects_a_radius_below_one() {
    let mut buf = vec![0u8; 4 * 4 * 4];
    assert_eq!(draw_circle(&mut buf, (4, 4), 2, 0, 0), Err(DrawError::NonPositiveRadius));
    assert_eq!(draw_circle(&mut buf, (4, 4), 2, 0, -3), Err(DrawError::NonPositiveRadius));
    assert!(buf.iter().all(|b| *b == 0));
}

#[test]
fn circle_fills_scanlines_of_the_chord_width() {
    let mut buf = vec![0u8; 10 * 5 * 4];
    assert_eq!(draw_circle(&mut buf, (10, 5), 5, 0, 2), Ok(()));
    // offsets 0..4 from the top: half chords 0, 1.73, 2, 1.73, rounded to 0, 2, 2, 2
    let spans: [(usize, usize); 5] = [(5, 5), (3, 7), (3, 7), (3, 7), (0, 0)];
    for y in 0..5 {
        for x in 0..10 {
            let inside = x >= spans[y].0 && x < spans[y].1;
            let expected = if inside { [255, 255, 255, 255] } else { [0, 0, 0, 0] };
            assert_eq!(pixel(&buf, 10, x, y), expected, "pixel ({}, {})", x, y);
        }
    }
}

#[test]
fn circle_scanline_width_matches_the_trigonometric_formula() {
    let r: i32 = 20;
    let w: usize = 100;
    let h: usize = 2 * r as usize;
    let mut buf = vec![0u8; w * h * 4];
    assert_eq!(draw_circle(&mut buf, (w, h), 50, 0, r), Ok(()));
    for i in 0..h {
        let filled = (0..w).filter(|x| pixel(&buf, w, *x, i)[3] == 255).count() as i64;
        let d = (i as f64 - r as f64).abs();
        let analytic = 2.0 * ((d / r as f64).asin().cos() * r as f64).round();
        assert!((filled as f64 - analytic).abs() <= 1.0, "row {}: {} vs {}", i, filled, analytic);
    }
}

#[test]
fn circle_is_clipped_at_the_edges() {
    let mut buf = vec![0u8; 3 * 3 * 4];
    assert_eq!(draw_circle(&mut buf, (3, 3), 0, -1, 2), Ok(()));
    // rows -1..3 at offsets 0..4; rounded half chords 0, 2, 2, 2 around column 0
    for y in 0..3 {
        assert_eq!(pixel(&buf, 3, 0, y), [255, 255, 255, 255]);
        assert_eq!(pixel(&buf, 3, 1, y), [255, 255, 255, 255]);
        assert_eq!(pixel(&buf, 3, 2, y), [0, 0, 0, 0]);
    }
}

#[test]
fn circle_of_radius_two_inside_the_frame() {
    let mut buf = vec![0u8; 8 * 8 * 4];
    assert_eq!(draw_circle(&mut buf, (8, 8), 4, 2, 2), Ok(()));
    // scanlines 2..6 with widths 0, 4, 4, 4 centred on column 4
    for y in 0..8 {
        for x in 0..8 {
            let inside = (3..6).contains(&y) && (2..6).contains(&x);
            let expected = if inside { [255, 255, 255, 255] } else { [0, 0, 0, 0] };
            assert_eq!(pixel(&buf, 8, x, y), expected, "pixel ({}, {})", x, y);
        }
    }
}

#[test]
fn rounded_square_roots() {
    assert_eq!(round_sqrt(0), 0);
    assert_eq!(round_sqrt(1), 1);
    assert_eq!(round_sqrt(2), 1);
    assert_eq!(round_sqrt(3), 2);
    assert_eq!(round_sqrt(6), 2);
    assert_eq!(round_sqrt(7), 3);
    assert_eq!(round_sqrt(9), 3);
}

#[test]
fn circle_far_outside_changes_nothing() {
    let mut buf = vec![0u8; 3 * 3 * 4];
    assert_eq!(draw_circle(&mut buf, (3, 3), i32::MAX, i32::MAX, i32::MAX), Ok(()));
    assert_eq!(draw_circle(&mut buf, (3, 3), i32::MIN, i32::MIN, 5), Ok(()));
    assert!(buf.iter().all(|b| *b == 0));
}

#[test]
fn integer_square_roots() {
    assert_eq!(isqrt(0), 0);
    assert_eq!(isqrt(1), 1);
    assert_eq!(isqrt(3), 1);
    assert_eq!(isqrt(4), 2);
    assert_eq!(isqrt(15), 3);
    assert_eq!(isqrt(16), 4);
    assert_eq!(isqrt(u64::MAX), 4_294_967_295);
}
