use rasterizer::graphics::{
    draw_circle, draw_cubic_bezier, draw_quadratic_bezier, CubicBezierCurve, Rectangle,
};
use rasterizer::surface::Surface;
use rasterizer::Point;

const BG: u32 = 0xFF202020;
const INK: u32 = 0x00112233;
const OPAQUE_INK: u32 = 0xFF112233;

fn fresh(w: usize, h: usize) -> Surface {
    Surface::new(w, h, BG)
}

fn changed_pixels(s: &Surface) -> Vec<(usize, usize)> {
    let mut out = Vec::new();
    for y in 0..s.height() {
        for x in 0..s.width() {
            if s.get(x, y) != BG {
                out.push((x, y));
            }
        }
    }
    out
}

#[test]
fn circle_of_radius_zero_is_the_center_pixel() {
    let mut s = fresh(16, 16);
    draw_circle(Point::new(8, 8), 0, INK, &mut s);
    assert_eq!(changed_pixels(&s), vec![(8, 8)]);
    assert_eq!(s.get(8, 8), OPAQUE_INK);
}

#[test]
fn circle_of_radius_two_is_the_exact_ring() {
    let mut s = fresh(16, 16);
    draw_circle(Point::new(8, 8), 2, INK, &mut s);
    let expected: Vec<(i32, i32)> = vec![
        (0, 2),
        (0, -2),
        (2, 0),
        (-2, 0),
        (1, 2),
        (1, -2),
        (-1, 2),
        (-1, -2),
        (2, 1),
        (2, -1),
        (-2, 1),
        (-2, -1),
    ];
    for (dx, dy) in &expected {
        assert_eq!(s.get((8 + dx) as usize, (8 + dy) as usize), OPAQUE_INK);
    }
    assert_eq!(changed_pixels(&s).len(), expected.len());
}

#[test]
fn circle_pixels_are_eight_way_symmetric() {
    let mut s = fresh(32, 32);
    draw_circle(Point::new(16, 16), 7, INK, &mut s);
    for y in 1..32i32 {
        for x in 1..32i32 {
            let v = s.get(x as usize, y as usize);
            // Horizontal, vertical and both diagonal mirror images.
            assert_eq!(v, s.get((32 - x) as usize, y as usize));
            assert_eq!(v, s.get(x as usize, (32 - y) as usize));
            assert_eq!(v, s.get((16 + (y - 16)) as usize, (16 + (x - 16)) as usize));
            assert_eq!(v, s.get((16 - (y - 16)) as usize, (16 - (x - 16)) as usize));
        }
    }
}

#[test]
fn cubic_bezier_with_coincident_control_points_is_one_pixel() {
    let mut s = fresh(16, 16);
    let p = Point::new(6, 9);
    draw_cubic_bezier(p, p, p, p, INK, &mut s);
    assert_eq!(changed_pixels(&s), vec![(6, 9)]);
}

#[test]
fn quadratic_bezier_on_a_straight_segment_hits_the_segment() {
    let mut s = fresh(16, 16);
    draw_quadratic_bezier(
        Point::new(0, 0),
        Point::new(5, 0),
        Point::new(10, 0),
        INK,
        &mut s,
    );
    let mut expected = Vec::new();
    for x in 0..=10usize {
        expected.push((x, 0));
    }
    assert_eq!(changed_pixels(&s), expected);
}

#[test]
fn bezier_curve_with_too_few_points_is_skipped() {
    let mut s = fresh(8, 8);
    let c = CubicBezierCurve::new(vec![Point::new(1, 1), Point::new(2, 2), Point::new(3, 3)]);
    let drawn = c.draw(INK, &mut s);
    assert!(!drawn);
    assert!(changed_pixels(&s).is_empty());
}

#[test]
fn bezier_curve_accepts_points_up_to_four() {
    let mut c = CubicBezierCurve::new(vec![Point::new(1, 1)]);
    assert!(c.can_receive_points());
    assert!(c.add_point(Point::new(2, 2)));
    assert!(c.add_point(Point::new(3, 3)));
    assert!(c.add_point(Point::new(4, 4)));
    assert!(!c.can_receive_points());
    assert!(!c.add_point(Point::new(5, 5)));
    assert_eq!(c.controll_points.len(), 4);
}

#[test]
fn rectangle_draws_its_four_edges() {
    let mut s = fresh(16, 16);
    let r = Rectangle::new(vec![Point::new(2, 3), Point::new(9, 12)]);
    let drawn = r.draw(INK, &mut s);
    assert!(drawn);
    for x in 2..=9usize {
        assert_eq!(s.get(x, 3), OPAQUE_INK);
        assert_eq!(s.get(x, 12), OPAQUE_INK);
    }
    for y in 3..=12usize {
        assert_eq!(s.get(2, y), OPAQUE_INK);
        assert_eq!(s.get(9, y), OPAQUE_INK);
    }
    assert_eq!(s.get(5, 5), BG);
}

#[test]
fn rectangle_without_two_corners_is_skipped() {
    let mut s = fresh(8, 8);
    let r = Rectangle::new(vec![Point::new(1, 1)]);
    let drawn = r.draw(INK, &mut s);
    assert!(!drawn);
    assert!(changed_pixels(&s).is_empty());
}
