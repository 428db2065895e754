//! The Wu anti-aliased line: an intensity-weighted dual-pixel line drawn
//! with exact fixed-point arithmetic. Per interior column (or row, for a
//! steep line) it paints the two pixels bracketing the ideal line with gray
//! intensities that sum exactly to one.
//!
//! Endpoint policy: the two endpoint columns themselves receive no partial
//! coverage; only the columns strictly between the endpoints are painted.
//! A degenerate line whose endpoints coincide paints nothing, and no
//! division by the zero column span is ever taken.

use vstd::prelude::*;

use crate::graphics::dist;
use crate::surface::{lemma_grid_set_at, Surface};
use crate::Point;

verus! {

/// Whether the line is steep: it spans more rows than columns, so the roles
/// of x and y are swapped before stepping.
pub open spec fn wu_steep(p: Point, q: Point) -> bool {
    dist(p.y as int, q.y as int) > dist(p.x as int, q.x as int)
}

/// The stepping coordinates (x1, y1, x2, y2) after the steep transposition
/// and after ordering the endpoints so that x1 <= x2.
pub open spec fn wu_norm(p: Point, q: Point) -> (int, int, int, int) {
    let t = if wu_steep(p, q) {
        (p.y as int, p.x as int, q.y as int, q.x as int)
    } else {
        (p.x as int, p.y as int, q.x as int, q.y as int)
    };
    if t.0 > t.2 {
        (t.2, t.3, t.0, t.1)
    } else {
        t
    }
}

/// The floor of the ideal stepping-space row at column x: with dx = x2 - x1
/// and dy = y2 - y1, the line's row at x is y1 + (x - x1) * dy / dx.
pub open spec fn wu_floor(x1: int, y1: int, dy: int, dx: int, x: int) -> int
    recommends
        dx > 0,
{
    (y1 * dx + (x - x1) * dy) / dx
}

/// The fractional part of the ideal row at column x, as a numerator over
/// the denominator dx.
pub open spec fn wu_rem(x1: int, y1: int, dy: int, dx: int, x: int) -> int
    recommends
        dx > 0,
{
    (y1 * dx + (x - x1) * dy) % dx
}

/// The opaque gray color of intensity num / den.
pub open spec fn gray_of(num: int, den: int) -> u32
    recommends
        den > 0,
        0 <= num <= den,
{
    let v = 255 * num / den;
    (0xFF000000 + v * 0x10000 + v * 0x100 + v) as u32
}

/// Whether the Wu line from p to q paints the screen pixel (sx, sy), with
/// the painted columns restricted to those before stepping column `lim`.
pub open spec fn wu_hit_upto(p: Point, q: Point, lim: int, sx: int, sy: int) -> bool {
    let n = wu_norm(p, q);
    let cx = if wu_steep(p, q) {
        sy
    } else {
        sx
    };
    let cy = if wu_steep(p, q) {
        sx
    } else {
        sy
    };
    let dx = n.2 - n.0;
    let dy = n.3 - n.1;
    &&& dx > 0
    &&& n.0 + 1 <= cx < lim
    &&& (cy == wu_floor(n.0, n.1, dy, dx, cx) || cy == wu_floor(n.0, n.1, dy, dx, cx) + 1)
}

/// Whether the Wu line from p to q paints the screen pixel (sx, sy).
pub open spec fn wu_hit(p: Point, q: Point, sx: int, sy: int) -> bool {
    wu_hit_upto(p, q, wu_norm(p, q).2, sx, sy)
}

/// The numerator of the intensity the Wu line writes at a painted pixel:
/// the pixel on the floor row takes the complement of the fractional part,
/// the pixel on the following row takes the fractional part itself. The
/// denominator is the column span dx.
pub open spec fn wu_intensity_num(p: Point, q: Point, sx: int, sy: int) -> int
    recommends
        wu_hit(p, q, sx, sy),
{
    let n = wu_norm(p, q);
    let cx = if wu_steep(p, q) {
        sy
    } else {
        sx
    };
    let cy = if wu_steep(p, q) {
        sx
    } else {
        sy
    };
    let dx = n.2 - n.0;
    let dy = n.3 - n.1;
    if cy == wu_floor(n.0, n.1, dy, dx, cx) {
        dx - wu_rem(n.0, n.1, dy, dx, cx)
    } else {
        wu_rem(n.0, n.1, dy, dx, cx)
    }
}

/// The denominator of the intensities the Wu line writes: its column span.
pub open spec fn wu_den(p: Point, q: Point) -> int {
    wu_norm(p, q).2 - wu_norm(p, q).0
}

/// The color the Wu line writes at a painted pixel.
pub open spec fn wu_color(p: Point, q: Point, sx: int, sy: int) -> u32
    recommends
        wu_hit(p, q, sx, sy),
{
    gray_of(wu_intensity_num(p, q, sx, sy), wu_den(p, q))
}

/// No energy is lost: in every painted column the two bracketing pixels
/// receive intensities that sum exactly to the whole (the denominator), so
/// the total intensity written per column — per row, for a steep line — is
/// exactly one. This holds for every line; horizontal and vertical lines
/// are the special case where one of the two intensities is zero.
pub proof fn lemma_wu_energy_conservation(p: Point, q: Point, cx: int)
    requires
        wu_den(p, q) > 0,
        wu_norm(p, q).0 + 1 <= cx < wu_norm(p, q).2,
    ensures
        ({
            let n = wu_norm(p, q);
            let dx = n.2 - n.0;
            let dy = n.3 - n.1;
            let fl = wu_floor(n.0, n.1, dy, dx, cx);
            let top_sx = if wu_steep(p, q) {
                fl
            } else {
                cx
            };
            let top_sy = if wu_steep(p, q) {
                cx
            } else {
                fl
            };
            let bot_sx = if wu_steep(p, q) {
                fl + 1
            } else {
                cx
            };
            let bot_sy = if wu_steep(p, q) {
                cx
            } else {
                fl + 1
            };
            &&& wu_hit(p, q, top_sx, top_sy)
            &&& wu_hit(p, q, bot_sx, bot_sy)
            &&& 0 <= wu_intensity_num(p, q, top_sx, top_sy) <= wu_den(p, q)
            &&& 0 <= wu_intensity_num(p, q, bot_sx, bot_sy) <= wu_den(p, q)
            &&& wu_intensity_num(p, q, top_sx, top_sy) + wu_intensity_num(p, q, bot_sx, bot_sy)
                == wu_den(p, q)
        }),
{
    let n = wu_norm(p, q);
    let dx = n.2 - n.0;
    let dy = n.3 - n.1;
    vstd::arithmetic::div_mod::lemma_mod_bound(n.1 * dx + (cx - n.0) * dy, dx);
}

/// A truncated scaled ratio of a part over a whole stays a byte.
proof fn lemma_gray_byte(num: int, den: int)
    requires
        den > 0,
        0 <= num <= den,
    ensures
        0 <= 255 * num / den <= 255,
{
    vstd::arithmetic::div_mod::lemma_div_is_ordered(0, 255 * num, den);
    vstd::arithmetic::div_mod::lemma_div_is_ordered(255 * num, 255 * den, den);
    assert(255 * den == 255 * den + 0) by (nonlinear_arith);
    vstd::arithmetic::div_mod::lemma_fundamental_div_mod_converse(255 * den, den, 255, 0);
}

/// Computes the opaque gray color of intensity num / den.
fn gray_color(num: i64, den: i64) -> (c: u32)
    requires
        den > 0,
        0 <= num <= den,
        den <= 0x200000000,
    ensures
        c == gray_of(num as int, den as int),
{
    proof {
        lemma_gray_byte(num as int, den as int);
    }
    let v: u64 = (255 * (num as u64)) / (den as u64);
    0xFF000000u32 + (v as u32) * 0x10000 + (v as u32) * 0x100 + (v as u32)
}

/// Draws the anti-aliased line from `p_start` to `p_end`: exactly the
/// pixels of the interior columns take the gray of their exact fractional
/// coverage; every other pixel keeps its old color. Equal endpoints paint
/// nothing.
pub fn draw_wu_line(p_start: Point, p_end: Point, surface: &mut Surface)
    requires
        old(surface).wf(),
    ensures
        final(surface).wf(),
        final(surface).same_size(*old(surface)),
        forall|x: int, y: int|
            final(surface).in_bounds(x, y) ==> final(surface).at(x, y) == (if wu_hit(
                p_start,
                p_end,
                x,
                y,
            ) {
                wu_color(p_start, p_end, x, y)
            } else {
                old(surface).at(x, y)
            }),
{
    let ghost orig: Surface = *surface;
    let ady: i64 = if p_end.y >= p_start.y {
        p_end.y as i64 - p_start.y as i64
    } else {
        p_start.y as i64 - p_end.y as i64
    };
    let adx: i64 = if p_end.x >= p_start.x {
        p_end.x as i64 - p_start.x as i64
    } else {
        p_start.x as i64 - p_end.x as i64
    };
    let steep = ady > adx;
    proof {
        assert(steep == wu_steep(p_start, p_end));
    }

    let mut x1: i64;
    let mut y1: i64;
    let mut x2: i64;
    let mut y2: i64;
    if steep {
        x1 = p_start.y as i64;
        y1 = p_start.x as i64;
        x2 = p_end.y as i64;
        y2 = p_end.x as i64;
    } else {
        x1 = p_start.x as i64;
        y1 = p_start.y as i64;
        x2 = p_end.x as i64;
        y2 = p_end.y as i64;
    }
    if x1 > x2 {
        let tx = x1;
        x1 = x2;
        x2 = tx;
        let ty = y1;
        y1 = y2;
        y2 = ty;
    }
    proof {
        assert(wu_norm(p_start, p_end) == (x1 as int, y1 as int, x2 as int, y2 as int));
    }

    let dx: i64 = x2 - x1;
    let dy: i64 = y2 - y1;
    proof {
        assert(-dx <= dy <= dx);
    }

    if dx > 0 {
        let mut x: i64 = x1 + 1;
        let mut fl: i64 = y1;
        let mut r: i64 = dy;
        if r < 0 {
            r = r + dx;
            fl = fl - 1;
        } else if r >= dx {
            r = r - dx;
            fl = fl + 1;
        }
        proof {
            assert(fl as int * dx as int + r as int == y1 as int * dx as int + (x as int
                - x1 as int) * dy as int) by (nonlinear_arith)
                requires
                    x as int == x1 as int + 1,
                    (fl as int == y1 as int && r as int == dy as int) || (fl as int == y1 as int
                        - 1 && r as int == dy as int + dx as int) || (fl as int == y1 as int + 1
                        && r as int == dy as int - dx as int),
            ;
        }
        while x < x2
            invariant
                surface.wf(),
                surface.same_size(orig),
                orig.wf(),
                steep == wu_steep(p_start, p_end),
                wu_norm(p_start, p_end) == (x1 as int, y1 as int, x2 as int, y2 as int),
                dx as int == x2 as int - x1 as int,
                dy as int == y2 as int - y1 as int,
                0 < dx,
                -dx <= dy <= dx,
                x1 + 1 <= x <= x2,
                fl as int * dx as int + r as int == y1 as int * dx as int + (x as int - x1 as int)
                    * dy as int,
                0 <= r < dx,
                y1 - (x - x1) <= fl <= y1 + (x - x1),
                forall|sx: int, sy: int|
                    surface.in_bounds(sx, sy) ==> surface.at(sx, sy) == (if wu_hit_upto(
                        p_start,
                        p_end,
                        x as int,
                        sx,
                        sy,
                    ) {
                        wu_color(p_start, p_end, sx, sy)
                    } else {
                        orig.at(sx, sy)
                    }),
            decreases x2 - x,
        {
            proof {
                vstd::arithmetic::div_mod::lemma_fundamental_div_mod_converse(
                    y1 as int * dx as int + (x as int - x1 as int) * dy as int,
                    dx as int,
                    fl as int,
                    r as int,
                );
                assert(fl as int == wu_floor(x1 as int, y1 as int, dy as int, dx as int, x as int));
                assert(r as int == wu_rem(x1 as int, y1 as int, dy as int, dx as int, x as int));
            }
            let c_top = gray_color(dx - r, dx);
            let c_bot = gray_color(r, dx);
            let tx: i64 = if steep {
                fl
            } else {
                x
            };
            let ty: i64 = if steep {
                x
            } else {
                fl
            };
            let bx: i64 = if steep {
                fl + 1
            } else {
                x
            };
            let by: i64 = if steep {
                x
            } else {
                fl + 1
            };
            let ghost pre: Surface = *surface;
            surface.set_pixel(tx, ty, c_top);
            let ghost mid: Surface = *surface;
            surface.set_pixel(bx, by, c_bot);
            proof {
                assert forall|sx: int, sy: int| surface.in_bounds(sx, sy) implies surface.at(
                    sx,
                    sy,
                ) == (if wu_hit_upto(p_start, p_end, x as int + 1, sx, sy) {
                    wu_color(p_start, p_end, sx, sy)
                } else {
                    orig.at(sx, sy)
                }) by {
                    lemma_grid_set_at(
                        pre.grid(),
                        pre.spec_width(),
                        pre.spec_height(),
                        tx as int,
                        ty as int,
                        c_top,
                        sx,
                        sy,
                    );
                    lemma_grid_set_at(
                        mid.grid(),
                        mid.spec_width(),
                        mid.spec_height(),
                        bx as int,
                        by as int,
                        c_bot,
                        sx,
                        sy,
                    );
                    assert(pre.at(sx, sy) == (if wu_hit_upto(p_start, p_end, x as int, sx, sy) {
                        wu_color(p_start, p_end, sx, sy)
                    } else {
                        orig.at(sx, sy)
                    }));
                }
            }
            let ghost ofl: int = fl as int;
            let ghost oor: int = r as int;
            r = r + dy;
            if r < 0 {
                r = r + dx;
                fl = fl - 1;
            } else if r >= dx {
                r = r - dx;
                fl = fl + 1;
            }
            x = x + 1;
            proof {
                assert(fl as int * dx as int + r as int == y1 as int * dx as int + (x as int
                    - x1 as int) * dy as int) by (nonlinear_arith)
                    requires
                        ofl * dx as int + oor == y1 as int * dx as int + (x as int - 1 - x1 as int)
                            * dy as int,
                        (fl as int == ofl && r as int == oor + dy as int) || (fl as int == ofl - 1
                            && r as int == oor + dy as int + dx as int) || (fl as int == ofl + 1
                            && r as int == oor + dy as int - dx as int),
                ;
            }
        }
    } else {
        proof {
            assert(forall|sx: int, sy: int| !wu_hit(p_start, p_end, sx, sy));
        }
    }
}

/// Draws the outline of the axis-aligned rectangle with opposite corners
/// `p_1` and `p_2` as four anti-aliased lines, later edges painting over
/// earlier ones where they meet.
pub fn draw_wu_rect(p_1: Point, p_2: Point, surface: &mut Surface)
    requires
        old(surface).wf(),
    ensures
        final(surface).wf(),
        final(surface).same_size(*old(surface)),
        forall|x: int, y: int|
            final(surface).in_bounds(x, y) ==> final(surface).at(x, y) == ({
                let c1 = Point { x: p_1.x, y: p_2.y };
                let c2 = Point { x: p_2.x, y: p_1.y };
                if wu_hit(p_2, c2, x, y) {
                    wu_color(p_2, c2, x, y)
                } else if wu_hit(c1, p_2, x, y) {
                    wu_color(c1, p_2, x, y)
                } else if wu_hit(p_1, c2, x, y) {
                    wu_color(p_1, c2, x, y)
                } else if wu_hit(p_1, c1, x, y) {
                    wu_color(p_1, c1, x, y)
                } else {
                    old(surface).at(x, y)
                }
            }),
{
    let c1 = Point { x: p_1.x, y: p_2.y };
    let c2 = Point { x: p_2.x, y: p_1.y };
    draw_wu_line(p_1, c1, surface);
    draw_wu_line(p_1, c2, surface);
    draw_wu_line(c1, p_2, surface);
    draw_wu_line(p_2, c2, surface);
}

} // verus!
