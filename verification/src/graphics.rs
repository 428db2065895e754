//! Scan-conversion of line primitives: the integer-only midpoint (Bresenham)
//! line algorithm, with a pixel-exact characterization of the set of pixels a
//! line visits.
//!
//! The endpoints are put into a canonical order before stepping, so the
//! visited pixel set provably does not depend on the order in which the two
//! endpoints are given.

use vstd::prelude::*;

use crate::surface::{grid_set, lemma_grid_set_at, opaque, Surface};
use crate::Point;

verus! {

/// The point at integer device coordinates (x, y).
pub open spec fn pix(x: int, y: int) -> Point {
    Point { x: x as i32, y: y as i32 }
}

/// The distance between two integers.
pub open spec fn dist(a: int, b: int) -> int {
    if a <= b {
        b - a
    } else {
        a - b
    }
}

/// Lexicographic order on points: the canonical endpoint order of a line.
pub open spec fn lex_le(p: Point, q: Point) -> bool {
    p.x < q.x || (p.x == q.x && p.y <= q.y)
}

/// The unit step that moves `a` toward `b` (the tie maps to -1, as in the
/// stepping loop, where it is never taken).
pub open spec fn step_dir(a: int, b: int) -> int {
    if a < b {
        1
    } else {
        -1
    }
}

/// The canonical first endpoint of the line from `p1` to `p2`.
pub open spec fn line_start(p1: Point, p2: Point) -> Point {
    if lex_le(p1, p2) {
        p1
    } else {
        p2
    }
}

/// The canonical second endpoint of the line from `p1` to `p2`.
pub open spec fn line_end(p1: Point, p2: Point) -> Point {
    if lex_le(p1, p2) {
        p2
    } else {
        p1
    }
}

/// The pixels the midpoint stepping loop visits from state
/// (x0, y0, err) until it reaches (x1, y1): each step writes the current
/// pixel, then advances x and/or y by one unit depending on the doubled
/// accumulated error. The recursion stops early on the (unreachable for
/// states of a real run) inputs where a step would not approach the end
/// point.
pub open spec fn bres_pixels(
    x0: int,
    y0: int,
    x1: int,
    y1: int,
    sx: int,
    sy: int,
    dx: int,
    dy: int,
    err: int,
) -> Seq<Point>
    decreases dist(x0, x1) + dist(y0, y1),
{
    if x0 == x1 && y0 == y1 {
        seq![pix(x0, y0)]
    } else {
        let e2 = 2 * err;
        let nx = if e2 > -dy {
            x0 + sx
        } else {
            x0
        };
        let ny = if e2 < dx {
            y0 + sy
        } else {
            y0
        };
        let nerr = err + (if e2 > -dy {
            -dy
        } else {
            0
        }) + (if e2 < dx {
            dx
        } else {
            0
        });
        if dist(nx, x1) + dist(ny, y1) < dist(x0, x1) + dist(y0, y1) {
            seq![pix(x0, y0)] + bres_pixels(nx, ny, x1, y1, sx, sy, dx, dy, nerr)
        } else {
            seq![pix(x0, y0)]
        }
    }
}

/// All pixels of the line between `p1` and `p2`: the midpoint walk from the
/// canonically first endpoint to the other.
pub open spec fn line_pixels(p1: Point, p2: Point) -> Seq<Point> {
    let a = line_start(p1, p2);
    let b = line_end(p1, p2);
    bres_pixels(
        a.x as int,
        a.y as int,
        b.x as int,
        b.y as int,
        step_dir(a.x as int, b.x as int),
        step_dir(a.y as int, b.y as int),
        dist(a.x as int, b.x as int),
        dist(a.y as int, b.y as int),
        dist(a.x as int, b.x as int) - dist(a.y as int, b.y as int),
    )
}

/// A line visits the same pixels, in the same order of the walk, whichever
/// way round its endpoints are given.
pub proof fn lemma_line_pixels_symmetric(p1: Point, p2: Point)
    ensures
        line_pixels(p1, p2) == line_pixels(p2, p1),
{
    assert(line_start(p1, p2) == line_start(p2, p1));
    assert(line_end(p1, p2) == line_end(p2, p1));
}

/// A degenerate line from a point to itself visits exactly that point.
pub proof fn lemma_line_single_point(p: Point)
    ensures
        line_pixels(p, p) == seq![p],
{
    assert(line_pixels(p, p) =~= seq![p]);
}

/// Pushing onto a sequence adds exactly one member.
pub proof fn lemma_contains_push<A>(s: Seq<A>, v: A, x: A)
    ensures
        s.push(v).contains(x) <==> (s.contains(x) || x == v),
{
    if s.push(v).contains(x) {
        let i = choose|i: int| 0 <= i < s.push(v).len() && s.push(v)[i] == x;
        if i < s.len() {
            assert(s[i] == x);
        }
    }
    if s.contains(x) {
        let i = choose|i: int| 0 <= i < s.len() && s[i] == x;
        assert(s.push(v)[i] == x);
    }
    if x == v {
        assert(s.push(v)[s.len() as int] == x);
    }
}

/// The state invariant of the midpoint line walk toward (x1, y1): the
/// remaining distances stay within the total deltas, the current point lies
/// between the endpoints, and the accumulated error is determined by the
/// remaining distances.
pub open spec fn bres_inv(
    x0: int,
    y0: int,
    x1: int,
    y1: int,
    sx: int,
    sy: int,
    dx: int,
    dy: int,
    err: int,
) -> bool {
    &&& 0 <= dx
    &&& 0 <= dy
    &&& (sx == 1 || sx == -1)
    &&& (sy == 1 || sy == -1)
    &&& dist(x0, x1) <= dx
    &&& dist(y0, y1) <= dy
    &&& x0 == x1 - sx * dist(x0, x1)
    &&& y0 == y1 - sy * dist(y0, y1)
    &&& err == dx - dy + dist(x0, x1) * dy - dist(y0, y1) * dx
    &&& -2 * dy <= err <= 2 * dx
}

/// One step of the midpoint walk from a state that satisfies the invariant
/// and has not reached the end point: the step approaches the end point and
/// re-establishes the invariant.
pub proof fn lemma_bres_step(
    x0: int,
    y0: int,
    x1: int,
    y1: int,
    sx: int,
    sy: int,
    dx: int,
    dy: int,
    err: int,
)
    requires
        bres_inv(x0, y0, x1, y1, sx, sy, dx, dy, err),
        !(x0 == x1 && y0 == y1),
    ensures
        2 * err > -dy || 2 * err < dx,
        2 * err > -dy ==> dist(x0, x1) >= 1,
        2 * err < dx ==> dist(y0, y1) >= 1,
        ({
            let e2 = 2 * err;
            let nx = if e2 > -dy {
                x0 + sx
            } else {
                x0
            };
            let ny = if e2 < dx {
                y0 + sy
            } else {
                y0
            };
            let nerr = err + (if e2 > -dy {
                -dy
            } else {
                0
            }) + (if e2 < dx {
                dx
            } else {
                0
            });
            &&& bres_inv(nx, ny, x1, y1, sx, sy, dx, dy, nerr)
            &&& dist(nx, x1) + dist(ny, y1) < dist(x0, x1) + dist(y0, y1)
            &&& (e2 > -dy ==> dist(nx, x1) == dist(x0, x1) - 1)
            &&& (e2 < dx ==> dist(ny, y1) == dist(y0, y1) - 1)
        }),
{
    let rx = dist(x0, x1);
    let ry = dist(y0, y1);
    let e2 = 2 * err;

    // The walk cannot stall: one of the two step conditions holds.
    assert(e2 > -dy || e2 < dx) by (nonlinear_arith)
        requires
            err == dx - dy + rx * dy - ry * dx,
            e2 == 2 * err,
            0 <= rx <= dx,
            0 <= ry <= dy,
            rx + ry >= 1,
    ;

    // A step along an axis only fires while there is distance left on it.
    assert(e2 > -dy ==> rx >= 1) by (nonlinear_arith)
        requires
            err == dx - dy + rx * dy - ry * dx,
            e2 == 2 * err,
            0 <= rx <= dx,
            0 <= ry <= dy,
            rx + ry >= 1,
    ;
    assert(e2 < dx ==> ry >= 1) by (nonlinear_arith)
        requires
            err == dx - dy + rx * dy - ry * dx,
            e2 == 2 * err,
            0 <= rx <= dx,
            0 <= ry <= dy,
            rx + ry >= 1,
    ;

    let nx = if e2 > -dy {
        x0 + sx
    } else {
        x0
    };
    let ny = if e2 < dx {
        y0 + sy
    } else {
        y0
    };
    let nrx = if e2 > -dy {
        rx - 1
    } else {
        rx
    };
    let nry = if e2 < dx {
        ry - 1
    } else {
        ry
    };
    let nerr = err + (if e2 > -dy {
        -dy
    } else {
        0
    }) + (if e2 < dx {
        dx
    } else {
        0
    });

    // The stepped coordinate moves one unit toward the end point.
    if e2 > -dy {
        assert(dist(nx, x1) == nrx);
    }
    if e2 < dx {
        assert(dist(ny, y1) == nry);
    }
    assert(nx == x1 - sx * dist(nx, x1));
    assert(ny == y1 - sy * dist(ny, y1));

    // The error keeps tracking the remaining distances.
    assert(nerr == dx - dy + nrx * dy - nry * dx) by (nonlinear_arith)
        requires
            err == dx - dy + rx * dy - ry * dx,
            e2 == 2 * err,
            nerr == err + (if e2 > -dy {
                -dy
            } else {
                0
            }) + (if e2 < dx {
                dx
            } else {
                0
            }),
            nrx == (if e2 > -dy {
                rx - 1
            } else {
                rx
            }),
            nry == (if e2 < dx {
                ry - 1
            } else {
                ry
            }),
    ;

    // The error stays within its fixed band.
    assert(-2 * dy <= nerr <= 2 * dx);
}

/// Draws the line between `p_1` and `p_2` with the integer-only midpoint
/// algorithm: exactly the pixels of `line_pixels(p_1, p_2)` take the opaque
/// form of `color`; every other pixel keeps its old color. The two endpoints
/// may be equal, producing a single pixel.
pub fn draw_line(p_1: Point, p_2: Point, color: u32, surface: &mut Surface)
    requires
        old(surface).wf(),
    ensures
        final(surface).wf(),
        final(surface).same_size(*old(surface)),
        forall|x: int, y: int|
            final(surface).in_bounds(x, y) ==> final(surface).at(x, y) == (if line_pixels(
                p_1,
                p_2,
            ).contains(pix(x, y)) {
                opaque(color)
            } else {
                old(surface).at(x, y)
            }),
{
    let ghost orig: Surface = *surface;
    let ghost full: Seq<Point> = line_pixels(p_1, p_2);

    let swap = !(p_1.x < p_2.x || (p_1.x == p_2.x && p_1.y <= p_2.y));
    let a = if swap {
        p_2
    } else {
        p_1
    };
    let b = if swap {
        p_1
    } else {
        p_2
    };
    proof {
        assert(a == line_start(p_1, p_2));
        assert(b == line_end(p_1, p_2));
    }

    let mut x0: i64 = a.x as i64;
    let mut y0: i64 = a.y as i64;
    let x1: i64 = b.x as i64;
    let y1: i64 = b.y as i64;

    let dx: i64 = if x1 >= x0 {
        x1 - x0
    } else {
        x0 - x1
    };
    let dy: i64 = if y1 >= y0 {
        y1 - y0
    } else {
        y0 - y1
    };
    let sx: i64 = if a.x < b.x {
        1
    } else {
        -1
    };
    let sy: i64 = if a.y < b.y {
        1
    } else {
        -1
    };
    let mut err: i64 = dx - dy;

    proof {
        assert(dist(x0 as int, x1 as int) * (dy as int) - dist(y0 as int, y1 as int) * (dx as int)
            == 0) by (nonlinear_arith)
            requires
                dist(x0 as int, x1 as int) == dx as int,
                dist(y0 as int, y1 as int) == dy as int,
        ;
        assert(bres_inv(
            x0 as int,
            y0 as int,
            x1 as int,
            y1 as int,
            sx as int,
            sy as int,
            dx as int,
            dy as int,
            err as int,
        ));
        assert(full == bres_pixels(
            x0 as int,
            y0 as int,
            x1 as int,
            y1 as int,
            sx as int,
            sy as int,
            dx as int,
            dy as int,
            err as int,
        ));
    }

    let ghost mut drawn: Seq<Point> = Seq::empty();

    loop
        invariant_except_break
            surface.wf(),
            surface.same_size(orig),
            orig.wf(),
            bres_inv(
                x0 as int,
                y0 as int,
                x1 as int,
                y1 as int,
                sx as int,
                sy as int,
                dx as int,
                dy as int,
                err as int,
            ),
            x1 == b.x as int && y1 == b.y as int,
            dx as int == dist(a.x as int, b.x as int),
            dy as int == dist(a.y as int, b.y as int),
            sx as int == step_dir(a.x as int, b.x as int),
            sy as int == step_dir(a.y as int, b.y as int),
            full == drawn + bres_pixels(
                x0 as int,
                y0 as int,
                x1 as int,
                y1 as int,
                sx as int,
                sy as int,
                dx as int,
                dy as int,
                err as int,
            ),
            forall|x: int, y: int|
                surface.in_bounds(x, y) ==> surface.at(x, y) == (if drawn.contains(pix(x, y)) {
                    opaque(color)
                } else {
                    orig.at(x, y)
                }),
        ensures
            surface.wf(),
            surface.same_size(orig),
            forall|x: int, y: int|
                surface.in_bounds(x, y) ==> surface.at(x, y) == (if full.contains(pix(x, y)) {
                    opaque(color)
                } else {
                    orig.at(x, y)
                }),
        decreases dist(x0 as int, x1 as int) + dist(y0 as int, y1 as int),
    {
        proof {
            // The current point lies between the endpoints, so its
            // coordinates are within the 32-bit range.
            if sx as int == 1 {
                assert(x0 as int == x1 as int - dist(x0 as int, x1 as int));
            } else {
                assert(x0 as int == x1 as int + dist(x0 as int, x1 as int));
            }
            if sy as int == 1 {
                assert(y0 as int == y1 as int - dist(y0 as int, y1 as int));
            } else {
                assert(y0 as int == y1 as int + dist(y0 as int, y1 as int));
            }
            assert(a.x as int <= x0 as int <= b.x as int || b.x as int <= x0 as int <= a.x as int);
            assert(a.y as int <= y0 as int <= b.y as int || b.y as int <= y0 as int <= a.y as int);
        }
        let ghost pre: Surface = *surface;
        let ghost pre_drawn: Seq<Point> = drawn;
        draw_point_i64(x0, y0, color, surface);
        proof {
            drawn = drawn.push(pix(x0 as int, y0 as int));
            assert forall|x: int, y: int| surface.in_bounds(x, y) implies surface.at(x, y) == (
            if drawn.contains(pix(x, y)) {
                opaque(color)
            } else {
                orig.at(x, y)
            }) by {
                lemma_grid_set_at(
                    pre.grid(),
                    pre.spec_width(),
                    pre.spec_height(),
                    x0 as int,
                    y0 as int,
                    opaque(color),
                    x,
                    y,
                );
                lemma_contains_push(pre_drawn, pix(x0 as int, y0 as int), pix(x, y));
                if pix(x, y) == pix(x0 as int, y0 as int) {
                    assert(x == x0 as int && y == y0 as int);
                }
                assert(pre.at(x, y) == (if pre_drawn.contains(pix(x, y)) {
                    opaque(color)
                } else {
                    orig.at(x, y)
                }));
                assert(surface.at(x, y) == (if x == x0 as int && y == y0 as int {
                    opaque(color)
                } else {
                    pre.at(x, y)
                }));
            }
        }
        if x0 == x1 && y0 == y1 {
            proof {
                assert(bres_pixels(
                    x0 as int,
                    y0 as int,
                    x1 as int,
                    y1 as int,
                    sx as int,
                    sy as int,
                    dx as int,
                    dy as int,
                    err as int,
                ) =~= seq![pix(x0 as int, y0 as int)]);
                assert(full =~= drawn);
            }
            break ;
        }
        proof {
            lemma_bres_step(
                x0 as int,
                y0 as int,
                x1 as int,
                y1 as int,
                sx as int,
                sy as int,
                dx as int,
                dy as int,
                err as int,
            );
        }
        let ghost old_state: (int, int, int) = (x0 as int, y0 as int, err as int);
        let e2: i64 = 2 * err;
        if e2 > -dy {
            err = err - dy;
            x0 = x0 + sx;
        }
        if e2 < dx {
            err = err + dx;
            y0 = y0 + sy;
        }
        proof {
            assert(bres_pixels(
                old_state.0,
                old_state.1,
                x1 as int,
                y1 as int,
                sx as int,
                sy as int,
                dx as int,
                dy as int,
                old_state.2,
            ) == seq![pix(old_state.0, old_state.1)] + bres_pixels(
                x0 as int,
                y0 as int,
                x1 as int,
                y1 as int,
                sx as int,
                sy as int,
                dx as int,
                dy as int,
                err as int,
            ));
            assert(full =~= drawn + bres_pixels(
                x0 as int,
                y0 as int,
                x1 as int,
                y1 as int,
                sx as int,
                sy as int,
                dx as int,
                dy as int,
                err as int,
            ));
        }
    }
}

/// The (x, y) offsets the midpoint circle walk emits from state (x, y, d):
/// each step emits the current offset, then advances x by one and, when the
/// decision parameter is positive, retreats y by one. The walk stops once
/// the next offset would fall below the octant diagonal.
pub open spec fn arc_offsets(x: int, y: int, d: int) -> Seq<(int, int)>
    decreases y - x,
{
    let yn = if d > 0 {
        y - 1
    } else {
        y
    };
    let dn = if d > 0 {
        d + 4 * ((x + 1) - (y - 1)) + 10
    } else {
        d + 4 * (x + 1) + 6
    };
    if x + 1 <= yn {
        seq![(x, y)] + arc_offsets(x + 1, yn, dn)
    } else {
        seq![(x, y)]
    }
}

/// The first-octant offsets of the midpoint circle of radius r.
pub open spec fn circle_offsets(r: int) -> Seq<(int, int)> {
    arc_offsets(0, r, 3 - 2 * r)
}

/// Whether (u, v) is one of the eight symmetric images of the first-octant
/// offset (ox, oy): the reflections across the horizontal and vertical axes
/// and across the two diagonals.
pub open spec fn is_octant_image(ox: int, oy: int, u: int, v: int) -> bool {
    ||| (u == ox && v == oy)
    ||| (u == -ox && v == oy)
    ||| (u == ox && v == -oy)
    ||| (u == -ox && v == -oy)
    ||| (u == oy && v == ox)
    ||| (u == -oy && v == ox)
    ||| (u == oy && v == -ox)
    ||| (u == -oy && v == -ox)
}

/// Whether some offset of the list has (u, v) among its eight images.
pub open spec fn offsets_hit(offs: Seq<(int, int)>, u: int, v: int) -> bool {
    exists|i: int|
        0 <= i < offs.len() && is_octant_image(#[trigger] offs[i].0, offs[i].1, u, v)
}

/// Whether the midpoint circle of radius r around `center` paints (x, y).
pub open spec fn circle_hit(center: Point, r: int, x: int, y: int) -> bool {
    offsets_hit(circle_offsets(r), x - center.x, y - center.y)
}

/// Appending an offset adds exactly its own eight images to the hit set.
pub proof fn lemma_offsets_hit_push(offs: Seq<(int, int)>, o: (int, int), u: int, v: int)
    ensures
        offsets_hit(offs.push(o), u, v) <==> (offsets_hit(offs, u, v) || is_octant_image(
            o.0,
            o.1,
            u,
            v,
        )),
{
    if offsets_hit(offs.push(o), u, v) {
        let i = choose|i: int|
            0 <= i < offs.push(o).len() && is_octant_image(
                #[trigger] offs.push(o)[i].0,
                offs.push(o)[i].1,
                u,
                v,
            );
        if i < offs.len() {
            assert(is_octant_image(offs[i].0, offs[i].1, u, v));
        } else {
            assert(offs.push(o)[i] == o);
        }
    }
    if offsets_hit(offs, u, v) {
        let i = choose|i: int|
            0 <= i < offs.len() && is_octant_image(#[trigger] offs[i].0, offs[i].1, u, v);
        assert(is_octant_image(offs.push(o)[i].0, offs.push(o)[i].1, u, v));
    }
    if is_octant_image(o.0, o.1, u, v) {
        assert(is_octant_image(
            offs.push(o)[offs.len() as int].0,
            offs.push(o)[offs.len() as int].1,
            u,
            v,
        ));
    }
}

/// The set of eight images of any offset list is closed under reflection
/// across both axes and under the diagonal swap.
pub proof fn lemma_offsets_hit_reflect(offs: Seq<(int, int)>, u: int, v: int)
    ensures
        offsets_hit(offs, u, v) ==> offsets_hit(offs, -u, v),
        offsets_hit(offs, u, v) ==> offsets_hit(offs, u, -v),
        offsets_hit(offs, u, v) ==> offsets_hit(offs, v, u),
{
    if offsets_hit(offs, u, v) {
        let i = choose|i: int|
            0 <= i < offs.len() && is_octant_image(#[trigger] offs[i].0, offs[i].1, u, v);
        assert(is_octant_image(offs[i].0, offs[i].1, -u, v));
        assert(is_octant_image(offs[i].0, offs[i].1, u, -v));
        assert(is_octant_image(offs[i].0, offs[i].1, v, u));
    }
}

/// The pixel set of a midpoint circle is symmetric under reflection across
/// the horizontal and the vertical axis through the center, and across both
/// diagonals through the center (8-way symmetry).
pub proof fn lemma_circle_eight_way(center: Point, r: int, x: int, y: int)
    ensures
        circle_hit(center, r, x, y) <==> circle_hit(center, r, 2 * center.x - x, y),
        circle_hit(center, r, x, y) <==> circle_hit(center, r, x, 2 * center.y - y),
        circle_hit(center, r, x, y) <==> circle_hit(
            center,
            r,
            center.x + (y - center.y),
            center.y + (x - center.x),
        ),
        circle_hit(center, r, x, y) <==> circle_hit(
            center,
            r,
            center.x - (y - center.y),
            center.y - (x - center.x),
        ),
{
    let offs = circle_offsets(r);
    let u = x - center.x;
    let v = y - center.y;
    lemma_offsets_hit_reflect(offs, u, v);
    lemma_offsets_hit_reflect(offs, -u, v);
    lemma_offsets_hit_reflect(offs, u, -v);
    lemma_offsets_hit_reflect(offs, v, u);
    lemma_offsets_hit_reflect(offs, -v, u);
    lemma_offsets_hit_reflect(offs, v, -u);
    lemma_offsets_hit_reflect(offs, -v, -u);
    lemma_offsets_hit_reflect(offs, -u, -v);
}

/// A circle of radius zero paints exactly its center pixel.
pub proof fn lemma_circle_radius_zero(center: Point, x: int, y: int)
    ensures
        circle_hit(center, 0, x, y) <==> (x == center.x && y == center.y),
{
    assert(circle_offsets(0) =~= seq![(0int, 0int)]);
    if x == center.x && y == center.y {
        assert(is_octant_image(circle_offsets(0)[0].0, circle_offsets(0)[0].1, 0, 0));
    }
}

/// Writes the eight symmetric images of the offset `point_to_draw` around
/// `center`: exactly those eight pixels take the opaque form of `color`.
fn display_circle(center: Point, point_to_draw: Point, color: u32, surface: &mut Surface)
    requires
        old(surface).wf(),
    ensures
        final(surface).wf(),
        final(surface).same_size(*old(surface)),
        forall|x: int, y: int|
            final(surface).in_bounds(x, y) ==> final(surface).at(x, y) == (if is_octant_image(
                point_to_draw.x as int,
                point_to_draw.y as int,
                x - center.x,
                y - center.y,
            ) {
                opaque(color)
            } else {
                old(surface).at(x, y)
            }),
{
    let cx: i64 = center.x as i64;
    let cy: i64 = center.y as i64;
    let ox: i64 = point_to_draw.x as i64;
    let oy: i64 = point_to_draw.y as i64;
    let ghost s0: Surface = *surface;
    draw_point_i64(cx + ox, cy + oy, color, surface);
    let ghost s1: Surface = *surface;
    draw_point_i64(cx - ox, cy + oy, color, surface);
    let ghost s2: Surface = *surface;
    draw_point_i64(cx + ox, cy - oy, color, surface);
    let ghost s3: Surface = *surface;
    draw_point_i64(cx - ox, cy - oy, color, surface);
    let ghost s4: Surface = *surface;
    draw_point_i64(cx + oy, cy + ox, color, surface);
    let ghost s5: Surface = *surface;
    draw_point_i64(cx - oy, cy + ox, color, surface);
    let ghost s6: Surface = *surface;
    draw_point_i64(cx + oy, cy - ox, color, surface);
    let ghost s7: Surface = *surface;
    draw_point_i64(cx - oy, cy - ox, color, surface);
    proof {
        let w = s0.spec_width();
        let h = s0.spec_height();
        let c = opaque(color);
        assert forall|x: int, y: int| surface.in_bounds(x, y) implies surface.at(x, y) == (
        if is_octant_image(ox as int, oy as int, x - cx as int, y - cy as int) {
            c
        } else {
            s0.at(x, y)
        }) by {
            lemma_grid_set_at(s0.grid(), w, h, cx + ox as int, cy + oy as int, c, x, y);
            lemma_grid_set_at(s1.grid(), w, h, cx - ox as int, cy + oy as int, c, x, y);
            lemma_grid_set_at(s2.grid(), w, h, cx + ox as int, cy - oy as int, c, x, y);
            lemma_grid_set_at(s3.grid(), w, h, cx - ox as int, cy - oy as int, c, x, y);
            lemma_grid_set_at(s4.grid(), w, h, cx + oy as int, cy + ox as int, c, x, y);
            lemma_grid_set_at(s5.grid(), w, h, cx - oy as int, cy + ox as int, c, x, y);
            lemma_grid_set_at(s6.grid(), w, h, cx + oy as int, cy - ox as int, c, x, y);
            lemma_grid_set_at(s7.grid(), w, h, cx - oy as int, cy - ox as int, c, x, y);
        }
    }
}

/// The measure of the midpoint circle walk: how many more offsets the walk
/// can emit.
pub open spec fn circle_measure(x: int, y: int) -> int {
    if x <= y {
        y - x + 1
    } else {
        0
    }
}

/// Draws the midpoint circle of the given radius around `center`: exactly
/// the pixels of the eight-way symmetric offset images take the opaque form
/// of `color`; every other pixel keeps its old color. Radius zero paints
/// exactly the center pixel.
pub fn draw_circle(center: Point, radius: i32, color: u32, surface: &mut Surface)
    requires
        old(surface).wf(),
        0 <= radius,
    ensures
        final(surface).wf(),
        final(surface).same_size(*old(surface)),
        forall|x: int, y: int|
            final(surface).in_bounds(x, y) ==> final(surface).at(x, y) == (if circle_hit(
                center,
                radius as int,
                x,
                y,
            ) {
                opaque(color)
            } else {
                old(surface).at(x, y)
            }),
{
    let ghost orig: Surface = *surface;
    let ghost full: Seq<(int, int)> = circle_offsets(radius as int);
    let r: i128 = radius as i128;
    let mut x: i128 = 0;
    let mut y: i128 = r;
    let mut d: i128 = 3 - 2 * r;
    let ghost mut emitted: Seq<(int, int)> = Seq::empty();
    while x <= y
        invariant
            surface.wf(),
            surface.same_size(orig),
            orig.wf(),
            0 <= r <= 0x7fffffff,
            0 <= x <= r + 1,
            -1 <= y <= r,
            -(3 + 2 * r + x * (4 * r + 18)) <= d <= 3 + 2 * r + x * (4 * r + 18),
            if x <= y {
                full == emitted + arc_offsets(x as int, y as int, d as int)
            } else {
                full == emitted
            },
            forall|qx: int, qy: int|
                surface.in_bounds(qx, qy) ==> surface.at(qx, qy) == (if offsets_hit(
                    emitted,
                    qx - center.x,
                    qy - center.y,
                ) {
                    opaque(color)
                } else {
                    orig.at(qx, qy)
                }),
        decreases circle_measure(x as int, y as int),
    {
        let ghost pre: Surface = *surface;
        let ghost pre_emitted: Seq<(int, int)> = emitted;
        display_circle(center, Point { x: x as i32, y: y as i32 }, color, surface);
        proof {
            emitted = emitted.push((x as int, y as int));
            assert forall|qx: int, qy: int| surface.in_bounds(qx, qy) implies surface.at(qx, qy)
                == (if offsets_hit(emitted, qx - center.x, qy - center.y) {
                opaque(color)
            } else {
                orig.at(qx, qy)
            }) by {
                lemma_offsets_hit_push(
                    pre_emitted,
                    (x as int, y as int),
                    qx - center.x,
                    qy - center.y,
                );
                assert(pre.at(qx, qy) == (if offsets_hit(pre_emitted, qx - center.x, qy - center.y) {
                    opaque(color)
                } else {
                    orig.at(qx, qy)
                }));
                assert(surface.at(qx, qy) == (if is_octant_image(
                    x as int,
                    y as int,
                    qx - center.x,
                    qy - center.y,
                ) {
                    opaque(color)
                } else {
                    pre.at(qx, qy)
                }));
            }
        }
        let ghost od: int = d as int;
        let ghost oxy: (int, int) = (x as int, y as int);
        proof {
            // A concrete band for the decision parameter, to discharge the
            // overflow checks of the update below.
            assert(-0x80000000000000000 <= d as int <= 0x80000000000000000) by (nonlinear_arith)
                requires
                    -(3 + 2 * r + x * (4 * r + 18)) <= d as int <= 3 + 2 * r + x * (4 * r + 18),
                    0 <= r <= 0x7fffffff,
                    0 <= x as int <= r + 1,
            ;
        }
        x = x + 1;
        if d > 0 {
            y = y - 1;
            d = d + 4 * (x - y) + 10;
        } else {
            d = d + 4 * x + 6;
        }
        proof {
            // The decision parameter moves by at most 4r + 18 per step.
            assert(-(3 + 2 * r + x * (4 * r + 18)) <= d as int <= 3 + 2 * r + x * (4 * r + 18))
                by (nonlinear_arith)
                requires
                    -(3 + 2 * r + (x - 1) * (4 * r + 18)) <= od <= 3 + 2 * r + (x - 1) * (4 * r
                        + 18),
                    d as int == od + (if od > 0 {
                        4 * (x as int - y as int) + 10
                    } else {
                        4 * x as int + 6
                    }),
                    0 <= r <= 0x7fffffff,
                    1 <= x as int <= r + 2,
                    -1 <= y as int <= r,
                    x as int - 2 <= y as int,
            ;
            if x <= y {
                assert(arc_offsets(oxy.0, oxy.1, od) == seq![oxy] + arc_offsets(
                    x as int,
                    y as int,
                    d as int,
                ));
                assert(full =~= emitted + arc_offsets(x as int, y as int, d as int));
            } else {
                assert(arc_offsets(oxy.0, oxy.1, od) =~= seq![oxy]);
                assert(full =~= emitted);
            }
        }
    }
    proof {
        assert(full == emitted);
    }
}

/// Rounds n / m to the nearest integer (halves rounding up), for m > 0.
pub open spec fn round_div(n: int, m: int) -> int
    recommends
        m > 0,
{
    (2 * n + m) / (2 * m)
}

/// The number of parameter samples a Bézier curve is evaluated at.
pub const BEZIER_SAMPLES: i64 = 1000;

/// The cubic Bernstein blend of four control coordinates at sample i of
/// 1000, scaled by 1000^3.
pub open spec fn cubic_num(a: int, b: int, c: int, d: int, i: int) -> int {
    (1000 - i) * (1000 - i) * (1000 - i) * a + 3 * i * (1000 - i) * (1000 - i) * b + 3 * i * i * (
    1000 - i) * c + i * i * i * d
}

/// The cubic Bézier coordinate at sample i: the Bernstein blend rounded to
/// the nearest integer.
pub open spec fn cubic_coord(a: int, b: int, c: int, d: int, i: int) -> int {
    round_div(cubic_num(a, b, c, d, i), 1000000000)
}

/// The quadratic Bernstein blend of three control coordinates at sample i of
/// 1000, scaled by 1000^2.
pub open spec fn quad_num(a: int, b: int, c: int, i: int) -> int {
    (1000 - i) * (1000 - i) * a + 2 * i * (1000 - i) * b + i * i * c
}

/// The quadratic Bézier coordinate at sample i.
pub open spec fn quad_coord(a: int, b: int, c: int, i: int) -> int {
    round_div(quad_num(a, b, c, i), 1000000)
}

/// Whether one of the first k cubic samples lands on pixel (x, y).
pub open spec fn cubic_hit_upto(
    p1: Point,
    p2: Point,
    p3: Point,
    p4: Point,
    k: int,
    x: int,
    y: int,
) -> bool {
    exists|i: int|
        0 <= i < k && #[trigger] cubic_coord(p1.x as int, p2.x as int, p3.x as int, p4.x as int, i)
            == x && cubic_coord(p1.y as int, p2.y as int, p3.y as int, p4.y as int, i) == y
}

/// Whether the sampled cubic Bézier curve paints pixel (x, y).
pub open spec fn cubic_hit(p1: Point, p2: Point, p3: Point, p4: Point, x: int, y: int) -> bool {
    cubic_hit_upto(p1, p2, p3, p4, 1000, x, y)
}

/// Whether one of the first k quadratic samples lands on pixel (x, y).
pub open spec fn quad_hit_upto(p1: Point, p2: Point, p3: Point, k: int, x: int, y: int) -> bool {
    exists|i: int|
        0 <= i < k && #[trigger] quad_coord(p1.x as int, p2.x as int, p3.x as int, i) == x
            && quad_coord(p1.y as int, p2.y as int, p3.y as int, i) == y
}

/// Whether the sampled quadratic Bézier curve paints pixel (x, y).
pub open spec fn quad_hit(p1: Point, p2: Point, p3: Point, x: int, y: int) -> bool {
    quad_hit_upto(p1, p2, p3, 1000, x, y)
}

/// The cubic Bernstein weights are non-negative and sum to 1000^3.
pub proof fn lemma_bernstein3(i: int)
    requires
        0 <= i <= 1000,
    ensures
        (1000 - i) * (1000 - i) * (1000 - i) >= 0,
        3 * i * (1000 - i) * (1000 - i) >= 0,
        3 * i * i * (1000 - i) >= 0,
        i * i * i >= 0,
        (1000 - i) * (1000 - i) * (1000 - i) + 3 * i * (1000 - i) * (1000 - i) + 3 * i * i * (1000
            - i) + i * i * i == 1000000000,
{
    assert((1000 - i) * (1000 - i) * (1000 - i) + 3 * i * (1000 - i) * (1000 - i) + 3 * i * i * (
    1000 - i) + i * i * i == 1000000000) by (nonlinear_arith)
        requires
            0 <= i <= 1000,
    ;
    assert((1000 - i) * (1000 - i) * (1000 - i) >= 0 && 3 * i * (1000 - i) * (1000 - i) >= 0 && 3
        * i * i * (1000 - i) >= 0 && i * i * i >= 0) by (nonlinear_arith)
        requires
            0 <= i <= 1000,
    ;
}

/// The quadratic Bernstein weights are non-negative and sum to 1000^2.
pub proof fn lemma_bernstein2(i: int)
    requires
        0 <= i <= 1000,
    ensures
        (1000 - i) * (1000 - i) >= 0,
        2 * i * (1000 - i) >= 0,
        i * i >= 0,
        (1000 - i) * (1000 - i) + 2 * i * (1000 - i) + i * i == 1000000,
{
    assert((1000 - i) * (1000 - i) + 2 * i * (1000 - i) + i * i == 1000000) by (nonlinear_arith)
        requires
            0 <= i <= 1000,
    ;
    assert((1000 - i) * (1000 - i) >= 0 && 2 * i * (1000 - i) >= 0 && i * i >= 0)
        by (nonlinear_arith)
        requires
            0 <= i <= 1000,
    ;
}

/// A weighted sum with non-negative weights stays between the weighted
/// extremes of its inputs.
proof fn lemma_weighted_sum_range(
    w0: int,
    w1: int,
    w2: int,
    w3: int,
    a: int,
    b: int,
    c: int,
    d: int,
    lo: int,
    hi: int,
)
    requires
        w0 >= 0,
        w1 >= 0,
        w2 >= 0,
        w3 >= 0,
        lo <= a <= hi,
        lo <= b <= hi,
        lo <= c <= hi,
        lo <= d <= hi,
    ensures
        (w0 + w1 + w2 + w3) * lo <= w0 * a + w1 * b + w2 * c + w3 * d <= (w0 + w1 + w2 + w3) * hi,
{
    assert(w0 * lo <= w0 * a <= w0 * hi) by (nonlinear_arith)
        requires
            w0 >= 0,
            lo <= a <= hi,
    ;
    assert(w1 * lo <= w1 * b <= w1 * hi) by (nonlinear_arith)
        requires
            w1 >= 0,
            lo <= b <= hi,
    ;
    assert(w2 * lo <= w2 * c <= w2 * hi) by (nonlinear_arith)
        requires
            w2 >= 0,
            lo <= c <= hi,
    ;
    assert(w3 * lo <= w3 * d <= w3 * hi) by (nonlinear_arith)
        requires
            w3 >= 0,
            lo <= d <= hi,
    ;
    assert((w0 + w1 + w2 + w3) * lo == w0 * lo + w1 * lo + w2 * lo + w3 * lo) by (nonlinear_arith);
    assert((w0 + w1 + w2 + w3) * hi == w0 * hi + w1 * hi + w2 * hi + w3 * hi) by (nonlinear_arith);
}

/// Rounding a value that lies between two multiples of the denominator gives
/// a quotient between the two factors.
proof fn lemma_round_div_range(n: int, m: int, lo: int, hi: int)
    requires
        m > 0,
        m * lo <= n <= m * hi,
    ensures
        lo <= round_div(n, m) <= hi,
{
    let q = (2 * n + m) / (2 * m);
    let r = (2 * n + m) % (2 * m);
    vstd::arithmetic::div_mod::lemma_fundamental_div_mod(2 * n + m, 2 * m);
    vstd::arithmetic::div_mod::lemma_mod_bound(2 * n + m, 2 * m);
    assert(lo <= q <= hi) by (nonlinear_arith)
        requires
            m > 0,
            m * lo <= n <= m * hi,
            2 * n + m == (2 * m) * q + r,
            0 <= r < 2 * m,
    ;
}

/// Shifting the numerator by a multiple of the denominator shifts the
/// rounded quotient by the factor.
proof fn lemma_round_div_shift(n: int, m: int, k: int)
    requires
        m > 0,
    ensures
        round_div(n + k * m, m) == round_div(n, m) + k,
{
    let q = (2 * n + m) / (2 * m);
    let r = (2 * n + m) % (2 * m);
    vstd::arithmetic::div_mod::lemma_fundamental_div_mod(2 * n + m, 2 * m);
    vstd::arithmetic::div_mod::lemma_mod_bound(2 * n + m, 2 * m);
    assert(2 * (n + k * m) + m == (2 * m) * (q + k) + r) by (nonlinear_arith)
        requires
            2 * n + m == (2 * m) * q + r,
    ;
    vstd::arithmetic::div_mod::lemma_fundamental_div_mod_converse(
        2 * (n + k * m) + m,
        2 * m,
        q + k,
        r,
    );
}

/// Rounding an exact multiple of the denominator gives its factor back.
proof fn lemma_round_div_exact(a: int, m: int)
    requires
        m > 0,
    ensures
        round_div(m * a, m) == a,
{
    assert(2 * (m * a) + m == a * (2 * m) + m) by (nonlinear_arith);
    vstd::arithmetic::div_mod::lemma_fundamental_div_mod_converse(2 * (m * a) + m, 2 * m, a, m);
}

/// Every sample of a cubic Bézier whose four control points coincide lands
/// exactly on that point.
pub proof fn lemma_cubic_degenerate(p: Point, x: int, y: int)
    ensures
        forall|i: int| 0 <= i < 1000 ==> #[trigger] cubic_coord(
            p.x as int,
            p.x as int,
            p.x as int,
            p.x as int,
            i,
        ) == p.x,
        cubic_hit(p, p, p, p, x, y) <==> (x == p.x && y == p.y),
{
    assert forall|i: int, a: int| 0 <= i < 1000 implies #[trigger] cubic_coord(a, a, a, a, i)
        == a by {
        lemma_bernstein3(i);
        assert(cubic_num(a, a, a, a, i) == 1000000000 * a) by (nonlinear_arith)
            requires
                (1000 - i) * (1000 - i) * (1000 - i) + 3 * i * (1000 - i) * (1000 - i) + 3 * i * i
                    * (1000 - i) + i * i * i == 1000000000,
                cubic_num(a, a, a, a, i) == (1000 - i) * (1000 - i) * (1000 - i) * a + 3 * i * (
                1000 - i) * (1000 - i) * a + 3 * i * i * (1000 - i) * a + i * i * i * a,
        ;
        lemma_round_div_exact(a, 1000000000);
    }
    if cubic_hit(p, p, p, p, x, y) {
        let i = choose|i: int|
            0 <= i < 1000 && #[trigger] cubic_coord(
                p.x as int,
                p.x as int,
                p.x as int,
                p.x as int,
                i,
            ) == x && cubic_coord(p.y as int, p.y as int, p.y as int, p.y as int, i) == y;
        assert(cubic_coord(p.x as int, p.x as int, p.x as int, p.x as int, i) == p.x);
        assert(cubic_coord(p.y as int, p.y as int, p.y as int, p.y as int, i) == p.y);
    }
    if x == p.x && y == p.y {
        assert(cubic_coord(p.x as int, p.x as int, p.x as int, p.x as int, 0) == p.x);
        assert(cubic_coord(p.y as int, p.y as int, p.y as int, p.y as int, 0) == p.y);
    }
}

/// Evaluates one coordinate of the cubic Bernstein blend at sample i,
/// rounded to the nearest integer; the result lies between the extreme
/// control coordinates.
fn cubic_component(a: i32, b: i32, c: i32, d: i32, i: i64) -> (r: i32)
    requires
        0 <= i < 1000,
    ensures
        r as int == cubic_coord(a as int, b as int, c as int, d as int, i as int),
{
    let t: i128 = i as i128;
    let s: i128 = 1000 - t;
    proof {
        assert(0 <= (s as int) * (s as int) <= 1000000 && 0 <= (s as int) * (s as int) * (s as int)
            <= 1000000000 && 0 <= 3 * (t as int) <= 3000 && 0 <= 3 * (t as int) * (s as int)
            <= 3000000 && 0 <= 3 * (t as int) * (s as int) * (s as int) <= 3000000000 && 0 <= 3 * (
        t as int) * (t as int) <= 3000000 && 0 <= 3 * (t as int) * (t as int) * (s as int)
            <= 3000000000 && 0 <= (t as int) * (t as int) <= 1000000 && 0 <= (t as int) * (
        t as int) * (t as int) <= 1000000000) by (nonlinear_arith)
            requires
                0 <= t as int <= 1000,
                0 <= s as int <= 1000,
                s as int == 1000 - t as int,
        ;
    }
    let w0: i128 = s * s * s;
    let w1: i128 = 3 * t * s * s;
    let w2: i128 = 3 * t * t * s;
    let w3: i128 = t * t * t;
    proof {
        lemma_term_bound(w0 as int, a as int);
        lemma_term_bound(w1 as int, b as int);
        lemma_term_bound(w2 as int, c as int);
        lemma_term_bound(w3 as int, d as int);
    }
    let num: i128 = w0 * (a as i128) + w1 * (b as i128) + w2 * (c as i128) + w3 * (d as i128);
    proof {
        lemma_bernstein3(i as int);
        lemma_weighted_sum_range(
            w0 as int,
            w1 as int,
            w2 as int,
            w3 as int,
            a as int,
            b as int,
            c as int,
            d as int,
            -0x80000000,
            0x7fffffff,
        );
        assert(num as int == cubic_num(a as int, b as int, c as int, d as int, i as int));
        assert(1000000000 * (-0x80000000) <= num as int <= 1000000000 * 0x7fffffff);
        lemma_round_div_shift(num as int, 1000000000, 0x80000000);
        lemma_round_div_range(
            num as int + 0x80000000 * 1000000000,
            1000000000,
            0,
            0xffffffff,
        );
    }
    let num2: u128 = (num + 0x80000000i128 * 1000000000) as u128;
    let q: u128 = (2 * num2 + 1000000000) / 2000000000;
    let r: i64 = (q as i64) - 0x80000000;
    r as i32
}

/// The product of a bounded non-negative weight and a 32-bit value stays
/// within a fixed band.
proof fn lemma_term_bound(w: int, v: int)
    requires
        0 <= w <= 3000000000,
        -0x80000000 <= v <= 0x7fffffff,
    ensures
        -3000000000 * 0x80000000 <= w * v <= 3000000000 * 0x7fffffff,
{
    assert(-3000000000 * 0x80000000 <= w * v <= 3000000000 * 0x7fffffff) by (nonlinear_arith)
        requires
            0 <= w <= 3000000000,
            -0x80000000 <= v <= 0x7fffffff,
    ;
}

/// Evaluates one coordinate of the quadratic Bernstein blend at sample i,
/// rounded to the nearest integer.
fn quad_component(a: i32, b: i32, c: i32, i: i64) -> (r: i32)
    requires
        0 <= i < 1000,
    ensures
        r as int == quad_coord(a as int, b as int, c as int, i as int),
{
    let t: i128 = i as i128;
    let s: i128 = 1000 - t;
    proof {
        assert(0 <= (s as int) * (s as int) <= 1000000 && 0 <= 2 * (t as int) <= 2000 && 0 <= 2 * (
        t as int) * (s as int) <= 2000000 && 0 <= (t as int) * (t as int) <= 1000000)
            by (nonlinear_arith)
            requires
                0 <= t as int <= 1000,
                0 <= s as int <= 1000,
        ;
    }
    let w0: i128 = s * s;
    let w1: i128 = 2 * t * s;
    let w2: i128 = t * t;
    proof {
        lemma_term_bound(w0 as int, a as int);
        lemma_term_bound(w1 as int, b as int);
        lemma_term_bound(w2 as int, c as int);
    }
    let num: i128 = w0 * (a as i128) + w1 * (b as i128) + w2 * (c as i128);
    proof {
        lemma_bernstein2(i as int);
        lemma_weighted_sum_range(
            w0 as int,
            w1 as int,
            w2 as int,
            0,
            a as int,
            b as int,
            c as int,
            0,
            -0x80000000,
            0x7fffffff,
        );
        assert(num as int == quad_num(a as int, b as int, c as int, i as int));
        assert(1000000 * (-0x80000000) <= num as int <= 1000000 * 0x7fffffff);
        lemma_round_div_shift(num as int, 1000000, 0x80000000);
        lemma_round_div_range(num as int + 0x80000000 * 1000000, 1000000, 0, 0xffffffff);
    }
    let num2: u128 = (num + 0x80000000i128 * 1000000) as u128;
    let q: u128 = (2 * num2 + 1000000) / 2000000;
    let r: i64 = (q as i64) - 0x80000000;
    r as i32
}

/// One of the first k+1 samples lands on (x, y) exactly when one of the
/// first k does or sample k itself does.
proof fn lemma_cubic_hit_extend(
    p1: Point,
    p2: Point,
    p3: Point,
    p4: Point,
    k: int,
    x: int,
    y: int,
)
    requires
        0 <= k < 1000,
    ensures
        cubic_hit_upto(p1, p2, p3, p4, k + 1, x, y) <==> (cubic_hit_upto(p1, p2, p3, p4, k, x, y)
            || (cubic_coord(p1.x as int, p2.x as int, p3.x as int, p4.x as int, k) == x
            && cubic_coord(p1.y as int, p2.y as int, p3.y as int, p4.y as int, k) == y)),
{
    if cubic_hit_upto(p1, p2, p3, p4, k + 1, x, y) {
        let i = choose|i: int|
            0 <= i < k + 1 && #[trigger] cubic_coord(
                p1.x as int,
                p2.x as int,
                p3.x as int,
                p4.x as int,
                i,
            ) == x && cubic_coord(p1.y as int, p2.y as int, p3.y as int, p4.y as int, i) == y;
        if i < k {
            assert(cubic_hit_upto(p1, p2, p3, p4, k, x, y));
        }
    }
}

/// Like `lemma_cubic_hit_extend`, for the quadratic samples.
proof fn lemma_quad_hit_extend(p1: Point, p2: Point, p3: Point, k: int, x: int, y: int)
    requires
        0 <= k < 1000,
    ensures
        quad_hit_upto(p1, p2, p3, k + 1, x, y) <==> (quad_hit_upto(p1, p2, p3, k, x, y) || (
        quad_coord(p1.x as int, p2.x as int, p3.x as int, k) == x && quad_coord(
            p1.y as int,
            p2.y as int,
            p3.y as int,
            k,
        ) == y)),
{
    if quad_hit_upto(p1, p2, p3, k + 1, x, y) {
        let i = choose|i: int|
            0 <= i < k + 1 && #[trigger] quad_coord(p1.x as int, p2.x as int, p3.x as int, i) == x
                && quad_coord(p1.y as int, p2.y as int, p3.y as int, i) == y;
        if i < k {
            assert(quad_hit_upto(p1, p2, p3, k, x, y));
        }
    }
}

/// Draws the cubic Bézier curve of the four control points by uniform
/// parametric sampling: exactly the pixels some sample rounds to take the
/// opaque form of `color`.
pub fn draw_cubic_bezier(p_1: Point, p_2: Point, p_3: Point, p_4: Point, color: u32, surface: &mut Surface)
    requires
        old(surface).wf(),
    ensures
        final(surface).wf(),
        final(surface).same_size(*old(surface)),
        forall|x: int, y: int|
            final(surface).in_bounds(x, y) ==> final(surface).at(x, y) == (if cubic_hit(
                p_1,
                p_2,
                p_3,
                p_4,
                x,
                y,
            ) {
                opaque(color)
            } else {
                old(surface).at(x, y)
            }),
{
    let ghost orig: Surface = *surface;
    let mut i: i64 = 0;
    while i < BEZIER_SAMPLES
        invariant
            surface.wf(),
            surface.same_size(orig),
            orig.wf(),
            0 <= i <= 1000,
            forall|x: int, y: int|
                surface.in_bounds(x, y) ==> surface.at(x, y) == (if cubic_hit_upto(
                    p_1,
                    p_2,
                    p_3,
                    p_4,
                    i as int,
                    x,
                    y,
                ) {
                    opaque(color)
                } else {
                    orig.at(x, y)
                }),
        decreases 1000 - i,
    {
        let x_u = cubic_component(p_1.x, p_2.x, p_3.x, p_4.x, i);
        let y_u = cubic_component(p_1.y, p_2.y, p_3.y, p_4.y, i);
        let ghost pre: Surface = *surface;
        draw_point_i64(x_u as i64, y_u as i64, color, surface);
        proof {
            assert forall|x: int, y: int| surface.in_bounds(x, y) implies surface.at(x, y) == (
            if cubic_hit_upto(p_1, p_2, p_3, p_4, i as int + 1, x, y) {
                opaque(color)
            } else {
                orig.at(x, y)
            }) by {
                lemma_grid_set_at(
                    pre.grid(),
                    pre.spec_width(),
                    pre.spec_height(),
                    x_u as int,
                    y_u as int,
                    opaque(color),
                    x,
                    y,
                );
                lemma_cubic_hit_extend(p_1, p_2, p_3, p_4, i as int, x, y);
                assert(pre.at(x, y) == (if cubic_hit_upto(p_1, p_2, p_3, p_4, i as int, x, y) {
                    opaque(color)
                } else {
                    orig.at(x, y)
                }));
            }
        }
        i = i + 1;
    }
}

/// Draws the quadratic Bézier curve of the three control points by uniform
/// parametric sampling: exactly the pixels some sample rounds to take the
/// opaque form of `color`.
pub fn draw_quadratic_bezier(p_1: Point, p_2: Point, p_3: Point, color: u32, surface: &mut Surface)
    requires
        old(surface).wf(),
    ensures
        final(surface).wf(),
        final(surface).same_size(*old(surface)),
        forall|x: int, y: int|
            final(surface).in_bounds(x, y) ==> final(surface).at(x, y) == (if quad_hit(
                p_1,
                p_2,
                p_3,
                x,
                y,
            ) {
                opaque(color)
            } else {
                old(surface).at(x, y)
            }),
{
    let ghost orig: Surface = *surface;
    let mut i: i64 = 0;
    while i < BEZIER_SAMPLES
        invariant
            surface.wf(),
            surface.same_size(orig),
            orig.wf(),
            0 <= i <= 1000,
            forall|x: int, y: int|
                surface.in_bounds(x, y) ==> surface.at(x, y) == (if quad_hit_upto(
                    p_1,
                    p_2,
                    p_3,
                    i as int,
                    x,
                    y,
                ) {
                    opaque(color)
                } else {
                    orig.at(x, y)
                }),
        decreases 1000 - i,
    {
        let x_u = quad_component(p_1.x, p_2.x, p_3.x, i);
        let y_u = quad_component(p_1.y, p_2.y, p_3.y, i);
        let ghost pre: Surface = *surface;
        draw_point_i64(x_u as i64, y_u as i64, color, surface);
        proof {
            assert forall|x: int, y: int| surface.in_bounds(x, y) implies surface.at(x, y) == (
            if quad_hit_upto(p_1, p_2, p_3, i as int + 1, x, y) {
                opaque(color)
            } else {
                orig.at(x, y)
            }) by {
                lemma_grid_set_at(
                    pre.grid(),
                    pre.spec_width(),
                    pre.spec_height(),
                    x_u as int,
                    y_u as int,
                    opaque(color),
                    x,
                    y,
                );
                lemma_quad_hit_extend(p_1, p_2, p_3, i as int, x, y);
                assert(pre.at(x, y) == (if quad_hit_upto(p_1, p_2, p_3, i as int, x, y) {
                    opaque(color)
                } else {
                    orig.at(x, y)
                }));
            }
        }
        i = i + 1;
    }
}

/// A line primitive: an ordered pair of control points (any further points
/// are ignored by drawing).
pub struct Line {
    pub controll_points: Vec<Point>,
}

impl Line {
    pub fn new(points: Vec<Point>) -> (l: Line)
        ensures
            l.controll_points@ == points@,
    {
        Line { controll_points: points }
    }

    /// Draws the line between the first two control points.
    pub fn draw(&self, color: u32, surface: &mut Surface)
        requires
            old(surface).wf(),
            self.controll_points@.len() >= 2,
        ensures
            final(surface).wf(),
            final(surface).same_size(*old(surface)),
            forall|x: int, y: int|
                final(surface).in_bounds(x, y) ==> final(surface).at(x, y) == (if line_pixels(
                    self.controll_points@[0],
                    self.controll_points@[1],
                ).contains(pix(x, y)) {
                    opaque(color)
                } else {
                    old(surface).at(x, y)
                }),
    {
        draw_line(self.controll_points[0], self.controll_points[1], color, surface);
    }
}

/// A cubic Bézier primitive, built up to its four control points.
pub struct CubicBezierCurve {
    pub controll_points: Vec<Point>,
}

impl CubicBezierCurve {
    pub fn new(points: Vec<Point>) -> (c: CubicBezierCurve)
        ensures
            c.controll_points@ == points@,
    {
        CubicBezierCurve { controll_points: points }
    }

    /// Draws the curve of the first four control points. With fewer than
    /// four control points nothing is drawn and the result reports the
    /// skipped operation.
    pub fn draw(&self, color: u32, surface: &mut Surface) -> (drawn: bool)
        requires
            old(surface).wf(),
        ensures
            final(surface).wf(),
            final(surface).same_size(*old(surface)),
            drawn == (self.controll_points@.len() >= 4),
            !drawn ==> final(surface).grid() == old(surface).grid(),
            drawn ==> forall|x: int, y: int|
                final(surface).in_bounds(x, y) ==> final(surface).at(x, y) == (if cubic_hit(
                    self.controll_points@[0],
                    self.controll_points@[1],
                    self.controll_points@[2],
                    self.controll_points@[3],
                    x,
                    y,
                ) {
                    opaque(color)
                } else {
                    old(surface).at(x, y)
                }),
    {
        if self.controll_points.len() < 4 {
            return false;
        }
        draw_cubic_bezier(
            self.controll_points[0],
            self.controll_points[1],
            self.controll_points[2],
            self.controll_points[3],
            color,
            surface,
        );
        true
    }

    /// Adds a control point while fewer than four are present; reports
    /// whether the point was taken.
    pub fn add_point(&mut self, point: Point) -> (added: bool)
        ensures
            added == (old(self).controll_points@.len() < 4),
            added ==> final(self).controll_points@ == old(self).controll_points@.push(point),
            !added ==> final(self).controll_points@ == old(self).controll_points@,
    {
        if !self.can_receive_points() {
            return false;
        }
        self.controll_points.push(point);
        true
    }

    pub fn can_receive_points(&self) -> (r: bool)
        ensures
            r == (self.controll_points@.len() < 4),
    {
        self.controll_points.len() < 4
    }
}

/// An axis-aligned rectangle primitive given by two opposite corners; its
/// four derived edges are drawn as lines.
pub struct Rectangle {
    pub controll_points: Vec<Point>,
}

/// Whether some edge of the axis-aligned rectangle with opposite corners
/// `first` and `second` passes through (x, y).
pub open spec fn rect_hit(first: Point, second: Point, x: int, y: int) -> bool {
    let c1 = Point { x: first.x, y: second.y };
    let c2 = Point { x: second.x, y: first.y };
    ||| line_pixels(first, c1).contains(pix(x, y))
    ||| line_pixels(first, c2).contains(pix(x, y))
    ||| line_pixels(c1, second).contains(pix(x, y))
    ||| line_pixels(second, c2).contains(pix(x, y))
}

impl Rectangle {
    pub fn new(points: Vec<Point>) -> (r: Rectangle)
        ensures
            r.controll_points@ == points@,
    {
        Rectangle { controll_points: points }
    }

    /// Draws the four edges between the first two (opposite corner) control
    /// points. With fewer than two control points nothing is drawn and the
    /// result reports the skipped operation.
    pub fn draw(&self, color: u32, surface: &mut Surface) -> (drawn: bool)
        requires
            old(surface).wf(),
        ensures
            final(surface).wf(),
            final(surface).same_size(*old(surface)),
            drawn == (self.controll_points@.len() >= 2),
            !drawn ==> final(surface).grid() == old(surface).grid(),
            drawn ==> forall|x: int, y: int|
                final(surface).in_bounds(x, y) ==> final(surface).at(x, y) == (if rect_hit(
                    self.controll_points@[0],
                    self.controll_points@[1],
                    x,
                    y,
                ) {
                    opaque(color)
                } else {
                    old(surface).at(x, y)
                }),
    {
        if self.controll_points.len() < 2 {
            return false;
        }
        let first = self.controll_points[0];
        let second = self.controll_points[1];
        let c1 = Point { x: first.x, y: second.y };
        let c2 = Point { x: second.x, y: first.y };
        draw_line(first, c1, color, surface);
        draw_line(first, c2, color, surface);
        draw_line(c1, second, color, surface);
        draw_line(second, c2, color, surface);
        true
    }
}

/// Writes one opaque point at 64-bit coordinates; a write outside the bounds
/// is ignored.
fn draw_point_i64(x: i64, y: i64, c: u32, surface: &mut Surface)
    requires
        old(surface).wf(),
    ensures
        final(surface).wf(),
        final(surface).same_size(*old(surface)),
        final(surface).grid() == grid_set(
            old(surface).grid(),
            old(surface).spec_width(),
            old(surface).spec_height(),
            x as int,
            y as int,
            opaque(c),
        ),
{
    let r = crate::surface::channel_of(c, crate::surface::Channel::Red);
    let g = crate::surface::channel_of(c, crate::surface::Channel::Green);
    let b = crate::surface::channel_of(c, crate::surface::Channel::Blue);
    let color: u32 = 0xFF000000 + (r as u32) * 0x10000 + (g as u32) * 0x100 + (b as u32);
    proof {
        crate::surface::lemma_pack_channels(c);
        crate::surface::lemma_opaque_channels(c);
    }
    surface.set_pixel(x, y, color);
}

} // verus!
