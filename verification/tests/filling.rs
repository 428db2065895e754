use rasterizer::fill::flood_fill;
use rasterizer::graphics::Rectangle;
use rasterizer::surface::Surface;
use rasterizer::Point;

const BG: u32 = 0xFFFFFFFF;
const INK: u32 = 0x00000000;
const OPAQUE_INK: u32 = 0xFF000000;
const FILL: u32 = 0xFFFF0000;

#[test]
fn fill_on_the_fill_color_is_a_reported_no_op() {
    let mut s = Surface::new(8, 8, FILL);
    let before: Vec<u8> = s.read_pixels();
    let filled = flood_fill(Point::new(3, 3), FILL, &mut s);
    assert!(!filled);
    assert_eq!(s.read_pixels(), before);
}

#[test]
fn fill_of_an_open_surface_paints_everything() {
    let mut s = Surface::new(6, 6, BG);
    let filled = flood_fill(Point::new(2, 2), FILL, &mut s);
    assert!(filled);
    for y in 0..6 {
        for x in 0..6 {
            assert_eq!(s.get(x, y), FILL);
        }
    }
}

#[test]
fn fill_stops_at_a_color_boundary() {
    let mut s = Surface::new(10, 10, BG);
    // A vertical wall splits the surface: the fill must not cross it.
    for y in 0..10 {
        s.set_pixel(4, y as i64, OPAQUE_INK);
    }
    let filled = flood_fill(Point::new(1, 5), FILL, &mut s);
    assert!(filled);
    for y in 0..10usize {
        for x in 0..10usize {
            let expected = if x < 4 {
                FILL
            } else if x == 4 {
                OPAQUE_INK
            } else {
                BG
            };
            assert_eq!(s.get(x, y), expected);
        }
    }
}

#[test]
fn fill_of_a_rectangle_interior_paints_exactly_the_interior() {
    // The end-to-end scenario: a rectangle outline with corners (10,10) and
    // (50,50), flood-filled from its center: exactly the 39 x 39 interior
    // pixels change, the boundary and the exterior stay untouched.
    let mut s = Surface::new(64, 64, BG);
    let outline = Rectangle::new(vec![Point::new(10, 10), Point::new(50, 50)]);
    assert!(outline.draw(INK, &mut s));
    let filled = flood_fill(Point::new(30, 30), FILL, &mut s);
    assert!(filled);
    let mut interior_count = 0;
    for y in 0..64usize {
        for x in 0..64usize {
            let on_boundary = (x == 10 || x == 50) && (10..=50).contains(&y)
                || (y == 10 || y == 50) && (10..=50).contains(&x);
            let in_interior = (11..=49).contains(&x) && (11..=49).contains(&y);
            if on_boundary {
                assert_eq!(s.get(x, y), OPAQUE_INK);
            } else if in_interior {
                assert_eq!(s.get(x, y), FILL);
                interior_count += 1;
            } else {
                assert_eq!(s.get(x, y), BG);
            }
        }
    }
    assert_eq!(interior_count, 39 * 39);

    // Filling again with the same color is a reported no-op that leaves the
    // surface unchanged.
    let before: Vec<u8> = s.read_pixels();
    let again = flood_fill(Point::new(30, 30), FILL, &mut s);
    assert!(!again);
    assert_eq!(s.read_pixels(), before);
}
