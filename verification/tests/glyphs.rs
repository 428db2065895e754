use rasterizer::numbers::{
    create_digit, create_digit_0, create_digit_1, rotate, rotate_number, scale, scale_number,
    translate, translate_number, NumberSeries, DEFAULT_NUM_HEIGHT, DEFAULT_NUM_WIDTH,
};
use rasterizer::surface::Surface;
use rasterizer::Point;

#[test]
fn every_digit_has_a_non_empty_shape_list() {
    for (i, c) in ['0', '1', '2', '3', '4', '5', '6', '7', '8', '9']
        .into_iter()
        .enumerate()
    {
        let n = create_digit(c, 7, 9).expect("digit characters are recognized");
        assert_eq!(n.number, c);
        assert_eq!(n.x, 7);
        assert_eq!(n.y, 9);
        assert_eq!(n.w, DEFAULT_NUM_WIDTH);
        assert_eq!(n.h, DEFAULT_NUM_HEIGHT);
        assert!(n.lines.len() + n.bezier_curves.len() > 0, "digit {i}");
    }
}

#[test]
fn unrecognized_characters_are_rejected() {
    assert!(create_digit('A', 0, 0).is_none());
    assert!(create_digit(' ', 0, 0).is_none());
    assert!(create_digit('-', 0, 0).is_none());
    assert!(create_digit('a', 0, 0).is_none());
}

#[test]
fn digit_zero_table_holds_its_authored_control_points() {
    let n = create_digit_0(0, 0);
    assert_eq!(n.bezier_curves.len(), 4);
    let first = &n.bezier_curves[0].controll_points;
    assert_eq!(first[0], Point::new(5, 70));
    assert_eq!(first[1], Point::new(10, 0));
    assert_eq!(first[2], Point::new(70, 0));
    assert_eq!(first[3], Point::new(75, 70));
    assert_eq!(n.center, Point::new(40, 25));
}

#[test]
fn translate_moves_a_point() {
    let mut p = Point::new(3, -4);
    translate(&mut p, 10, 20);
    assert_eq!(p, Point::new(13, 16));
}

#[test]
fn scale_truncates_toward_zero() {
    let mut p = Point::new(10, -7);
    scale(&mut p, 1, 2);
    assert_eq!(p, Point::new(5, -3));
    let mut q = Point::new(3, 5);
    scale(&mut q, 7, 10);
    assert_eq!(q, Point::new(2, 3));
}

#[test]
fn rotate_uses_the_original_coordinates() {
    // A quarter turn: cosine 0, sine 1. Both rotated coordinates come from
    // the original point, so (3, 4) maps to (-4, 3).
    let mut p = Point::new(3, 4);
    rotate(&mut p, 0, 1, 1);
    assert_eq!(p, Point::new(-4, 3));
}

#[test]
fn translate_number_moves_every_control_point() {
    let mut n = create_digit_1(0, 0);
    let before = n.lines[0].controll_points[0];
    translate_number(&mut n, 100, 200);
    assert_eq!(
        n.lines[0].controll_points[0],
        Point::new(before.x + 100, before.y + 200)
    );
    assert_eq!(n.center, Point::new(140, 230));
    assert_eq!(n.x, 0);
    assert_eq!(n.y, 0);
}

#[test]
fn scale_number_scales_points_but_not_the_center() {
    let mut n = create_digit_0(0, 0);
    scale_number(&mut n, 2, 1, Point::new(0, 0));
    // Control points scale about the pivot; the center is moved out and
    // back, never scaled.
    assert_eq!(n.bezier_curves[0].controll_points[0], Point::new(10, 140));
    assert_eq!(n.center, Point::new(40, 25));
}

#[test]
fn rotate_number_rotates_points_but_not_the_center() {
    let mut n = create_digit_0(0, 0);
    // A quarter turn about the origin: (5, 70) maps to (-70, 5); the center
    // is moved out and back, never rotated.
    rotate_number(&mut n, 0, 1, 1, Point::new(0, 0));
    assert_eq!(n.bezier_curves[0].controll_points[0], Point::new(-70, 5));
    assert_eq!(n.center, Point::new(40, 25));
}

#[test]
fn series_lays_digits_out_with_the_fixed_advance() {
    let series = NumberSeries::new(100, 0, String::from("0123456789"), 7, 10, 1, 0, 1);
    assert_eq!(series.x, 100);
    assert_eq!(series.y, 0);
    assert_eq!(series.numbers.len(), 10);
    let digits = ['0', '1', '2', '3', '4', '5', '6', '7', '8', '9'];
    for (g, n) in series.numbers.iter().enumerate() {
        assert_eq!(n.number, digits[g]);
        assert_eq!(n.x, 80 * g as i32);
        assert_eq!(n.w, DEFAULT_NUM_WIDTH);
        assert_eq!(n.h, DEFAULT_NUM_HEIGHT);
    }
    // Adjacent nominal boxes share exactly their vertical edge.
    for g in 0..9 {
        assert_eq!(
            series.numbers[g].x + series.numbers[g].w,
            series.numbers[g + 1].x
        );
    }
}

#[test]
fn series_glyphs_land_near_their_slots() {
    // Unscaled, unrotated: scale one, rotation zero. The first control point
    // of the second glyph ('1' starts at local (32, 20)) must sit at the
    // anchor plus one advance width plus the local offset.
    let series = NumberSeries::new(100, 50, String::from("11"), 1, 1, 1, 0, 1);
    let first = &series.numbers[0];
    let second = &series.numbers[1];
    assert_eq!(first.lines[0].controll_points[0], Point::new(132, 70));
    assert_eq!(second.lines[0].controll_points[0], Point::new(212, 70));
}

#[test]
fn glyph_draw_paints_its_primitives() {
    let mut s = Surface::new(200, 200, 0xFFFFFFFF);
    let n = create_digit('1', 0, 0).unwrap();
    n.draw(0x0000FF00, false, &mut s);
    // The first segment of '1' starts at (32, 20); the vertical stroke
    // covers column 53 from row 20 down to 120.
    assert_eq!(s.get(32, 20), 0xFF00FF00);
    for y in 20..=120usize {
        assert_eq!(s.get(53, y), 0xFF00FF00);
    }
}

#[test]
fn glyph_draw_with_fill_floods_from_the_anchor() {
    let mut s = Surface::new(200, 200, 0xFFFFFFFF);
    let n = create_digit('0', 0, 0).unwrap();
    // The anchor (0, 0) lies outside the oval, so the fill runs over the
    // background around the glyph; the glyph's own strokes keep their color.
    n.draw(0x0000FF00, true, &mut s);
    assert_eq!(s.get(0, 0), 0x00000000);
    assert_eq!(s.get(199, 199), 0x00000000);
    assert_eq!(s.get(5, 70), 0xFF00FF00);
}

#[test]
fn series_draw_paints_glyph_strokes() {
    let mut s = Surface::new(300, 200, 0xFFFFFFFF);
    let series = NumberSeries::new(10, 10, String::from("14"), 1, 1, 1, 0, 1);
    series.draw(0, false, &mut s);
    // The vertical stroke of '1' runs from local (53, 20) to (53, 120),
    // placed at the anchor (10, 10): column 63, rows 30..=130.
    for y in 30..=129usize {
        assert_eq!(s.get(63, y), 0xFF000000);
    }
    // A pixel far from both glyphs stays untouched.
    assert_eq!(s.get(250, 150), 0xFFFFFFFF);
}
