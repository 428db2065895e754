use rasterizer::anti_aliasing::{draw_wu_line, draw_wu_rect};
use rasterizer::graphics::draw_line;
use rasterizer::surface::Surface;
use rasterizer::Point;

const BG: u32 = 0xFF202020;
const RED: u32 = 0x00FF0000;
const OPAQUE_RED: u32 = 0xFFFF0000;

fn fresh(w: usize, h: usize) -> Surface {
    Surface::new(w, h, BG)
}

fn changed_pixels(s: &Surface) -> Vec<(usize, usize)> {
    let mut out = Vec::new();
    for y in 0..s.height() {
        for x in 0..s.width() {
            if s.get(x, y) != BG {
                out.push((x, y));
            }
        }
    }
    out
}

#[test]
fn line_is_symmetric_in_its_endpoints() {
    let cases = [
        ((1, 1), (10, 4)),
        ((10, 4), (1, 1)),
        ((0, 0), (7, 7)),
        ((3, 9), (9, 2)),
        ((5, 5), (5, 11)),
        ((2, 6), (12, 6)),
    ];
    for (a, b) in cases {
        let mut s1 = fresh(16, 16);
        let mut s2 = fresh(16, 16);
        draw_line(Point::new(a.0, a.1), Point::new(b.0, b.1), RED, &mut s1);
        draw_line(Point::new(b.0, b.1), Point::new(a.0, a.1), RED, &mut s2);
        assert_eq!(changed_pixels(&s1), changed_pixels(&s2));
    }
}

#[test]
fn line_with_equal_endpoints_is_one_pixel() {
    let mut s = fresh(8, 8);
    draw_line(Point::new(3, 4), Point::new(3, 4), RED, &mut s);
    assert_eq!(changed_pixels(&s), vec![(3, 4)]);
    assert_eq!(s.get(3, 4), OPAQUE_RED);
}

#[test]
fn horizontal_line_is_the_exact_segment() {
    let mut s = fresh(8, 8);
    draw_line(Point::new(1, 2), Point::new(5, 2), RED, &mut s);
    assert_eq!(
        changed_pixels(&s),
        vec![(1, 2), (2, 2), (3, 2), (4, 2), (5, 2)]
    );
}

#[test]
fn diagonal_line_is_the_exact_diagonal() {
    let mut s = fresh(8, 8);
    draw_line(Point::new(0, 0), Point::new(3, 3), RED, &mut s);
    assert_eq!(changed_pixels(&s), vec![(0, 0), (1, 1), (2, 2), (3, 3)]);
}

#[test]
fn line_clips_outside_the_surface() {
    let mut s = fresh(4, 4);
    draw_line(Point::new(-2, 1), Point::new(6, 1), RED, &mut s);
    assert_eq!(changed_pixels(&s), vec![(0, 1), (1, 1), (2, 1), (3, 1)]);
}

#[test]
fn wu_horizontal_line_writes_full_and_zero_intensity_rows() {
    let mut s = fresh(12, 12);
    draw_wu_line(Point::new(2, 5), Point::new(7, 5), &mut s);
    // Interior columns 3..=6: the floor row gets intensity one (white), the
    // row after it intensity zero (black).
    for x in 3..=6usize {
        assert_eq!(s.get(x, 5), 0xFFFFFFFF);
        assert_eq!(s.get(x, 6), 0xFF000000);
    }
    // Endpoint columns get no partial coverage.
    assert_eq!(s.get(2, 5), BG);
    assert_eq!(s.get(7, 5), BG);
}

#[test]
fn wu_vertical_line_writes_per_row() {
    let mut s = fresh(12, 12);
    draw_wu_line(Point::new(5, 2), Point::new(5, 9), &mut s);
    for y in 3..=8usize {
        assert_eq!(s.get(5, y), 0xFFFFFFFF);
        assert_eq!(s.get(6, y), 0xFF000000);
    }
    assert_eq!(s.get(5, 2), BG);
    assert_eq!(s.get(5, 9), BG);
}

#[test]
fn wu_line_with_equal_endpoints_draws_nothing() {
    let mut s = fresh(8, 8);
    draw_wu_line(Point::new(4, 4), Point::new(4, 4), &mut s);
    assert!(changed_pixels(&s).is_empty());
}

#[test]
fn wu_diagonal_line_brackets_each_column() {
    let mut s = fresh(16, 16);
    draw_wu_line(Point::new(1, 1), Point::new(9, 5), &mut s);
    // Every interior column writes exactly two vertically adjacent pixels.
    for x in 2..=8usize {
        let mut in_column = Vec::new();
        for y in 0..16usize {
            if s.get(x, y) != BG {
                in_column.push(y);
            }
        }
        assert_eq!(in_column.len(), 2);
        assert_eq!(in_column[1], in_column[0] + 1);
    }
}

#[test]
fn wu_line_pixels_stay_within_one_unit_of_the_line() {
    // For the line (0,0)-(5,3) the ideal row at column 3 is 1.8: the two
    // painted pixels of that column are rows 1 and 2, which bracket it.
    let mut s = fresh(8, 8);
    draw_wu_line(Point::new(0, 0), Point::new(5, 3), &mut s);
    assert_ne!(s.get(3, 1), BG);
    assert_ne!(s.get(3, 2), BG);
    assert_eq!(s.get(3, 0), BG);
    assert_eq!(s.get(3, 3), BG);
}

#[test]
fn wu_rect_draws_all_four_edges() {
    let mut s = fresh(16, 16);
    draw_wu_rect(Point::new(2, 2), Point::new(10, 10), &mut s);
    // Interior columns of the two horizontal edges are painted white.
    for x in 3..=9usize {
        assert_eq!(s.get(x, 2), 0xFFFFFFFF);
        assert_eq!(s.get(x, 10), 0xFFFFFFFF);
    }
    // Interior rows of the two vertical edges are painted white.
    for y in 3..=9usize {
        assert_eq!(s.get(2, y), 0xFFFFFFFF);
        assert_eq!(s.get(10, y), 0xFFFFFFFF);
    }
}
