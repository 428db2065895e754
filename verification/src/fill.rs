//! The flood fill engine: a stack-based, 4-connected region fill over the
//! surface, working on the in-memory pixel buffer. It paints exactly the
//! pixels reachable from the seed through pixels of the seed's color.

use vstd::prelude::*;

use crate::graphics::pix;
use crate::surface::{lemma_grid_set_at, Surface};
use crate::Point;

verus! {

/// Whether q is one of the four axis neighbors of p.
pub open spec fn adj4(p: Point, q: Point) -> bool {
    ||| (q.x == p.x + 1 && q.y == p.y)
    ||| (q.x == p.x - 1 && q.y == p.y)
    ||| (q.x == p.x && q.y == p.y + 1)
    ||| (q.x == p.x && q.y == p.y - 1)
}

/// Whether p is an in-bounds pixel of s holding the target color.
pub open spec fn fill_cell(s: Surface, target: u32, p: Point) -> bool {
    s.in_bounds(p.x as int, p.y as int) && s.at(p.x as int, p.y as int) == target
}

/// A non-empty 4-connected chain of in-bounds, target-colored pixels of s.
pub open spec fn is_fill_path(s: Surface, target: u32, path: Seq<Point>) -> bool {
    &&& path.len() > 0
    &&& forall|i: int| 0 <= i < path.len() ==> fill_cell(s, target, #[trigger] path[i])
    &&& forall|i: int| 1 <= i < path.len() ==> adj4(path[i - 1], #[trigger] path[i])
}

/// Whether dst can be reached from src through target-colored pixels.
pub open spec fn reaches(s: Surface, target: u32, src: Point, dst: Point) -> bool {
    exists|path: Seq<Point>|
        #[trigger] is_fill_path(s, target, path) && path.first() == src && path.last() == dst
}

/// The region a fill seeded at `seed` paints: every pixel reachable from the
/// seed through pixels of the seed's current color.
pub open spec fn in_region(s: Surface, seed: Point, q: Point) -> bool {
    reaches(s, s.at(seed.x as int, seed.y as int), seed, q)
}

/// Both ends of a reachability chain are in-bounds, target-colored pixels.
pub proof fn lemma_reaches_ends(s: Surface, target: u32, a: Point, b: Point)
    requires
        reaches(s, target, a, b),
    ensures
        fill_cell(s, target, a),
        fill_cell(s, target, b),
{
    let path = choose|path: Seq<Point>|
        #[trigger] is_fill_path(s, target, path) && path.first() == a && path.last() == b;
    assert(fill_cell(s, target, path[0]));
    assert(fill_cell(s, target, path[path.len() - 1]));
}

/// A target-colored pixel reaches itself.
pub proof fn lemma_reaches_self(s: Surface, target: u32, a: Point)
    requires
        fill_cell(s, target, a),
    ensures
        reaches(s, target, a, a),
{
    let path: Seq<Point> = seq![a];
    assert(is_fill_path(s, target, path));
    assert(path.first() == a && path.last() == a);
}

/// Reachability extends backward across one step of adjacency from a
/// target-colored pixel.
pub proof fn lemma_reaches_prepend(s: Surface, target: u32, a: Point, b: Point, q: Point)
    requires
        fill_cell(s, target, a),
        adj4(a, b),
        reaches(s, target, b, q),
    ensures
        reaches(s, target, a, q),
{
    let path = choose|path: Seq<Point>|
        #[trigger] is_fill_path(s, target, path) && path.first() == b && path.last() == q;
    let path2 = seq![a] + path;
    assert forall|i: int| 0 <= i < path2.len() implies fill_cell(s, target, #[trigger] path2[i]) by {
        if i >= 1 {
            assert(path2[i] == path[i - 1]);
        }
    }
    assert forall|i: int| 1 <= i < path2.len() implies adj4(path2[i - 1], #[trigger] path2[i]) by {
        if i == 1 {
            assert(path2[0] == a && path2[1] == path[0]);
        } else {
            assert(path2[i - 1] == path[i - 2] && path2[i] == path[i - 1]);
        }
    }
    assert(is_fill_path(s, target, path2));
    assert(path2.first() == a && path2.last() == q);
}

/// Reachability extends across one step of adjacency onto a target-colored
/// pixel.
pub proof fn lemma_reaches_extend(s: Surface, target: u32, a: Point, b: Point, c: Point)
    requires
        reaches(s, target, a, b),
        adj4(b, c),
        fill_cell(s, target, c),
    ensures
        reaches(s, target, a, c),
{
    let path = choose|path: Seq<Point>|
        #[trigger] is_fill_path(s, target, path) && path.first() == a && path.last() == b;
    let path2 = path.push(c);
    assert forall|i: int| 0 <= i < path2.len() implies fill_cell(s, target, #[trigger] path2[i]) by {
        if i < path.len() {
            assert(path2[i] == path[i]);
        }
    }
    assert forall|i: int| 1 <= i < path2.len() implies adj4(path2[i - 1], #[trigger] path2[i]) by {
        if i < path.len() {
            assert(path2[i] == path[i] && path2[i - 1] == path[i - 1]);
        } else {
            assert(path2[i - 1] == path[path.len() - 1] && path2[i] == c);
        }
    }
    assert(is_fill_path(s, target, path2));
    assert(path2.first() == a && path2.last() == c);
}

/// How one painted pixel relates two surfaces: s2 is s with pixel v set to a
/// non-target color, every other pixel unchanged.
pub open spec fn painted_one(s: Surface, s2: Surface, target: u32, v: Point) -> bool {
    &&& s.wf()
    &&& s2.wf()
    &&& s2.same_size(s)
    &&& forall|x: int, y: int|
        s.in_bounds(x, y) && !(x == v.x as int && y == v.y as int) ==> s2.at(x, y) == #[trigger] s.at(
            x,
            y,
        )
    &&& (s.in_bounds(v.x as int, v.y as int) ==> s2.at(v.x as int, v.y as int) != target)
}

/// A fill path that avoids the painted pixel stays a fill path afterward.
proof fn lemma_path_avoids_paint(s: Surface, s2: Surface, target: u32, v: Point, path: Seq<Point>)
    requires
        painted_one(s, s2, target, v),
        is_fill_path(s, target, path),
        forall|i: int| 0 <= i < path.len() ==> #[trigger] path[i] != v,
    ensures
        is_fill_path(s2, target, path),
{
    assert forall|i: int| 0 <= i < path.len() implies fill_cell(s2, target, #[trigger] path[i]) by {
        assert(fill_cell(s, target, path[i]));
        assert(path[i] != v);
        assert(s2.at(path[i].x as int, path[i].y as int) == s.at(path[i].x as int, path[i].y as int));
    }
}

/// After painting pixel v, any pixel that a fill path reached while avoiding
/// its painted end stays reachable: either along the same path, or from one
/// of the four neighbors of v.
proof fn lemma_path_after_paint(s: Surface, s2: Surface, target: u32, v: Point, path: Seq<Point>)
    requires
        painted_one(s, s2, target, v),
        is_fill_path(s, target, path),
        path.last() != v,
    ensures
        reaches(s2, target, path.first(), path.last()) || exists|n: Point|
            #[trigger] adj4(v, n) && reaches(s2, target, n, path.last()),
    decreases path.len(),
{
    let q = path.last();
    if !path.contains(v) {
        assert forall|i: int| 0 <= i < path.len() implies #[trigger] path[i] != v by {
            if path[i] == v {
                assert(path.contains(v));
            }
        }
        lemma_path_avoids_paint(s, s2, target, v, path);
        assert(is_fill_path(s2, target, path) && path.first() == path.first() && path.last() == q);
        assert(reaches(s2, target, path.first(), q));
    } else {
        // The path visits v somewhere strictly before its end.
        assert(path.len() >= 2) by {
            if path.len() == 1 {
                let i = choose|i: int| 0 <= i < path.len() && path[i] == v;
                assert(path[0] == v && path[0] == q);
            }
        }
        let rest = path.drop_first();
        assert(is_fill_path(s, target, rest)) by {
            assert forall|i: int| 0 <= i < rest.len() implies fill_cell(
                s,
                target,
                #[trigger] rest[i],
            ) by {
                assert(rest[i] == path[i + 1]);
            }
            assert forall|i: int| 1 <= i < rest.len() implies adj4(rest[i - 1], #[trigger] rest[i]) by {
                assert(rest[i] == path[i + 1] && rest[i - 1] == path[i]);
            }
        }
        assert(rest.last() == q);
        if path[0] == v {
            if rest.contains(v) {
                lemma_path_after_paint(s, s2, target, v, rest);
                if reaches(s2, target, rest.first(), q) {
                    // rest still visits v, so recurse gave the neighbor form
                    // only when rest avoids v; if it reached directly, its
                    // first element is adjacent to v.
                    assert(adj4(v, rest.first())) by {
                        assert(rest[0] == path[1]);
                        assert(adj4(path[0], path[1]));
                    }
                }
            } else {
                assert forall|i: int| 0 <= i < rest.len() implies #[trigger] rest[i] != v by {
                    if rest[i] == v {
                        assert(rest.contains(v));
                    }
                }
                lemma_path_avoids_paint(s, s2, target, v, rest);
                assert(is_fill_path(s2, target, rest) && rest.last() == q);
                assert(reaches(s2, target, rest.first(), q));
                assert(adj4(v, rest.first())) by {
                    assert(rest[0] == path[1]);
                    assert(adj4(path[0], path[1]));
                }
            }
        } else {
            // v occurs in the tail.
            assert(rest.contains(v)) by {
                let i = choose|i: int| 0 <= i < path.len() && path[i] == v;
                assert(i >= 1);
                assert(rest[i - 1] == path[i]);
            }
            lemma_path_after_paint(s, s2, target, v, rest);
            if reaches(s2, target, rest.first(), q) {
                // Prepend the unchanged first pixel of the original path.
                assert(rest[0] == path[1]);
                assert(adj4(path[0], path[1]));
                assert(fill_cell(s, target, path[0]));
                assert(s2.at(path[0].x as int, path[0].y as int) == s.at(
                    path[0].x as int,
                    path[0].y as int,
                ));
                lemma_reaches_prepend(s2, target, path[0], path[1], q);
            }
        }
    }
}

/// After painting pixel v, any pixel reachable before (other than v itself)
/// is still reachable, either from the same source or from a neighbor of v.
proof fn lemma_reaches_after_paint(
    s: Surface,
    s2: Surface,
    target: u32,
    v: Point,
    a: Point,
    q: Point,
)
    requires
        painted_one(s, s2, target, v),
        reaches(s, target, a, q),
        q != v,
    ensures
        reaches(s2, target, a, q) || exists|n: Point|
            #[trigger] adj4(v, n) && reaches(s2, target, n, q),
{
    let path = choose|path: Seq<Point>|
        #[trigger] is_fill_path(s, target, path) && path.first() == a && path.last() == q;
    lemma_path_after_paint(s, s2, target, v, path);
}

/// Counts the cells of a grid holding a given color.
pub open spec fn count_eq(g: Seq<u32>, c: u32) -> int
    decreases g.len(),
{
    if g.len() == 0 {
        0
    } else {
        count_eq(g.drop_last(), c) + (if g.last() == c {
            1int
        } else {
            0int
        })
    }
}

/// The count of any color is non-negative.
pub proof fn lemma_count_eq_nonneg(g: Seq<u32>, c: u32)
    ensures
        count_eq(g, c) >= 0,
    decreases g.len(),
{
    if g.len() > 0 {
        lemma_count_eq_nonneg(g.drop_last(), c);
    }
}

/// Overwriting a cell that held the counted color with another color lowers
/// the count by one.
pub proof fn lemma_count_eq_update(g: Seq<u32>, i: int, v: u32, c: u32)
    requires
        0 <= i < g.len(),
        g[i] == c,
        v != c,
    ensures
        count_eq(g.update(i, v), c) == count_eq(g, c) - 1,
    decreases g.len(),
{
    let g2 = g.update(i, v);
    if i == g.len() - 1 {
        assert(g2.drop_last() =~= g.drop_last());
        assert(g2.last() == v && g.last() == c);
    } else {
        assert(g2.drop_last() =~= g.drop_last().update(i, v));
        assert(g2.last() == g.last());
        lemma_count_eq_update(g.drop_last(), i, v, c);
    }
}

/// Fills the 4-connected region of the seed's current color with
/// `fill_color`: exactly the pixels reachable from `start` through pixels of
/// the seed's color take `fill_color`; every other pixel keeps its color.
/// A seed that already has the fill color leaves the surface unchanged; the
/// result reports whether anything was filled.
pub fn flood_fill(start: Point, fill_color: u32, surface: &mut Surface) -> (filled: bool)
    requires
        old(surface).wf(),
        old(surface).in_bounds(start.x as int, start.y as int),
    ensures
        final(surface).wf(),
        final(surface).same_size(*old(surface)),
        filled == (old(surface).at(start.x as int, start.y as int) != fill_color),
        !filled ==> final(surface).grid() == old(surface).grid(),
        filled ==> forall|x: int, y: int|
            final(surface).in_bounds(x, y) ==> final(surface).at(x, y) == (if in_region(
                *old(surface),
                start,
                pix(x, y),
            ) {
                fill_color
            } else {
                old(surface).at(x, y)
            }),
{
    let ghost orig: Surface = *surface;
    let default_color: u32 = surface.get(start.x as usize, start.y as usize);
    if default_color == fill_color {
        return false;
    }
    let ghost target: u32 = default_color;

    let mut stack: Vec<Point> = Vec::new();
    stack.push(start);
    proof {
        lemma_reaches_self(orig, target, start);
        assert(stack@ =~= seq![start]);
        assert forall|x: int, y: int|
            (in_region(orig, start, pix(x, y)) && surface.in_bounds(x, y) && #[trigger] surface.at(
                x,
                y,
            ) == target) implies exists|j: int|
            0 <= j < stack@.len() && reaches(*surface, target, stack@[j], pix(x, y)) by {
            assert(stack@[0] == start);
            assert(reaches(*surface, target, stack@[0], pix(x, y)));
        }
    }

    while stack.len() > 0
        invariant
            surface.wf(),
            surface.same_size(orig),
            orig.wf(),
            orig.in_bounds(start.x as int, start.y as int),
            target == orig.at(start.x as int, start.y as int),
            target == default_color,
            fill_color != target,
            forall|x: int, y: int|
                surface.in_bounds(x, y) ==> (#[trigger] surface.at(x, y) == orig.at(x, y) || (
                surface.at(x, y) == fill_color && in_region(orig, start, pix(x, y)))),
            forall|j: int|
                0 <= j < stack@.len() ==> (fill_cell(*surface, target, #[trigger] stack@[j])
                    ==> in_region(orig, start, stack@[j])),
            forall|x: int, y: int|
                (in_region(orig, start, pix(x, y)) && surface.in_bounds(x, y)
                    && #[trigger] surface.at(x, y) == target) ==> exists|j: int|
                    0 <= j < stack@.len() && reaches(*surface, target, stack@[j], pix(x, y)),
        decreases 5 * count_eq(surface.grid(), target) + stack@.len(),
    {
        let ghost pre_stack: Seq<Point> = stack@;
        let p = stack.pop().unwrap();
        let w = surface.width();
        let h = surface.height();
        if p.y < 0 || (p.y as i64) > (h as i64) - 1 || p.x < 0 || (p.x as i64) > (w as i64) - 1 {
            proof {
                lemma_skip_case(*surface, orig, target, start, pre_stack, stack@, p);
                lemma_count_eq_nonneg(surface.grid(), target);
            }
        } else {
            let pixel_color: u32 = surface.get(p.x as usize, p.y as usize);
            if pixel_color == default_color {
                proof {
                    assert(p.x as usize as int == p.x as int);
                    assert(p.y as usize as int == p.y as int);
                    assert(pixel_color == surface.at(p.x as int, p.y as int));
                    assert(target == default_color);
                    assert(fill_cell(*surface, target, p));
                    assert(pre_stack[pre_stack.len() - 1] == p);
                    assert(in_region(orig, start, p));
                }
                let ghost pre: Surface = *surface;
                surface.set_pixel(p.x as i64, p.y as i64, fill_color);
                stack.push(Point { x: p.x + 1, y: p.y });
                stack.push(Point { x: p.x - 1, y: p.y });
                stack.push(Point { x: p.x, y: p.y + 1 });
                stack.push(Point { x: p.x, y: p.y - 1 });
                proof {
                    lemma_paint_case(pre, *surface, orig, target, fill_color, start, pre_stack, stack@, p);
                    crate::surface::lemma_cell_in_grid(
                        pre.spec_width(),
                        pre.spec_height(),
                        p.x as int,
                        p.y as int,
                    );
                    lemma_count_eq_update(
                        pre.grid(),
                        p.y as int * pre.spec_width() + p.x as int,
                        fill_color,
                        target,
                    );
                    lemma_count_eq_nonneg(surface.grid(), target);
                }
            } else {
                proof {
                    lemma_skip_case(*surface, orig, target, start, pre_stack, stack@, p);
                    lemma_count_eq_nonneg(surface.grid(), target);
                }
            }
        }
    }
    proof {
        assert forall|x: int, y: int| surface.in_bounds(x, y) implies surface.at(x, y) == (
        if in_region(orig, start, pix(x, y)) {
            fill_color
        } else {
            orig.at(x, y)
        }) by {
            if in_region(orig, start, pix(x, y)) {
                lemma_reaches_ends(orig, target, start, pix(x, y));
                assert(orig.at(x, y) == target);
                if surface.at(x, y) == target {
                    assert(false);
                }
            }
        }
    }
    true
}

/// Flood fill is idempotent: a surface produced by a successful fill holds
/// the fill color at the seed, so repeating the same fill hits the
/// already-filled guard of `flood_fill` and leaves the surface unchanged.
pub proof fn lemma_fill_idempotent(orig: Surface, s2: Surface, start: Point, fill_color: u32)
    requires
        orig.wf(),
        s2.wf(),
        s2.same_size(orig),
        orig.in_bounds(start.x as int, start.y as int),
        orig.at(start.x as int, start.y as int) != fill_color,
        forall|x: int, y: int|
            s2.in_bounds(x, y) ==> #[trigger] s2.at(x, y) == (if in_region(orig, start, pix(x, y)) {
                fill_color
            } else {
                orig.at(x, y)
            }),
    ensures
        s2.at(start.x as int, start.y as int) == fill_color,
{
    let target = orig.at(start.x as int, start.y as int);
    lemma_reaches_self(orig, target, start);
    assert(pix(start.x as int, start.y as int) == start);
    assert(in_region(orig, start, pix(start.x as int, start.y as int)));
    assert(s2.at(start.x as int, start.y as int) == fill_color);
}

/// Re-establishes the loop invariants of `flood_fill` when the popped point
/// is discarded: either it lies outside the surface or it no longer holds
/// the target color.
proof fn lemma_skip_case(
    s: Surface,
    orig: Surface,
    target: u32,
    start: Point,
    pre_stack: Seq<Point>,
    new_stack: Seq<Point>,
    p: Point,
)
    requires
        s.wf(),
        pre_stack.len() > 0,
        p == pre_stack.last(),
        new_stack == pre_stack.subrange(0, pre_stack.len() - 1),
        !fill_cell(s, target, p),
        forall|j: int|
            0 <= j < pre_stack.len() ==> (fill_cell(s, target, #[trigger] pre_stack[j])
                ==> in_region(orig, start, pre_stack[j])),
        forall|x: int, y: int|
            (in_region(orig, start, pix(x, y)) && s.in_bounds(x, y) && #[trigger] s.at(x, y)
                == target) ==> exists|j: int|
                0 <= j < pre_stack.len() && reaches(s, target, pre_stack[j], pix(x, y)),
    ensures
        forall|j: int|
            0 <= j < new_stack.len() ==> (fill_cell(s, target, #[trigger] new_stack[j])
                ==> in_region(orig, start, new_stack[j])),
        forall|x: int, y: int|
            (in_region(orig, start, pix(x, y)) && s.in_bounds(x, y) && #[trigger] s.at(x, y)
                == target) ==> exists|j: int|
                0 <= j < new_stack.len() && reaches(s, target, new_stack[j], pix(x, y)),
{
    assert forall|j: int|
        0 <= j < new_stack.len() && fill_cell(s, target, #[trigger] new_stack[j]) implies in_region(
        orig,
        start,
        new_stack[j],
    ) by {
        assert(new_stack[j] == pre_stack[j]);
    }
    assert forall|x: int, y: int|
        (in_region(orig, start, pix(x, y)) && s.in_bounds(x, y) && #[trigger] s.at(x, y)
            == target) implies exists|j: int|
        0 <= j < new_stack.len() && reaches(s, target, new_stack[j], pix(x, y)) by {
        let j0 = choose|j: int|
            0 <= j < pre_stack.len() && reaches(s, target, #[trigger] pre_stack[j], pix(x, y));
        if j0 == pre_stack.len() - 1 {
            lemma_reaches_ends(s, target, p, pix(x, y));
            assert(false);
        } else {
            assert(new_stack[j0] == pre_stack[j0]);
            assert(reaches(s, target, new_stack[j0], pix(x, y)));
        }
    }
}

/// Re-establishes the loop invariants of `flood_fill` when the popped point
/// is painted and its four neighbors are pushed.
proof fn lemma_paint_case(
    pre: Surface,
    s2: Surface,
    orig: Surface,
    target: u32,
    fill_color: u32,
    start: Point,
    pre_stack: Seq<Point>,
    new_stack: Seq<Point>,
    p: Point,
)
    requires
        pre.wf(),
        s2.wf(),
        orig.wf(),
        s2.same_size(pre),
        pre.same_size(orig),
        fill_color != target,
        fill_cell(pre, target, p),
        in_region(orig, start, p),
        s2.grid() == crate::surface::grid_set(
            pre.grid(),
            pre.spec_width(),
            pre.spec_height(),
            p.x as int,
            p.y as int,
            fill_color,
        ),
        pre_stack.len() > 0,
        p == pre_stack.last(),
        new_stack == pre_stack.subrange(0, pre_stack.len() - 1).push(
            Point { x: (p.x + 1) as i32, y: p.y },
        ).push(Point { x: (p.x - 1) as i32, y: p.y }).push(
            Point { x: p.x, y: (p.y + 1) as i32 },
        ).push(Point { x: p.x, y: (p.y - 1) as i32 }),
        forall|x: int, y: int|
            pre.in_bounds(x, y) ==> (#[trigger] pre.at(x, y) == orig.at(x, y) || (pre.at(x, y)
                == fill_color && in_region(orig, start, pix(x, y)))),
        forall|j: int|
            0 <= j < pre_stack.len() ==> (fill_cell(pre, target, #[trigger] pre_stack[j])
                ==> in_region(orig, start, pre_stack[j])),
        forall|x: int, y: int|
            (in_region(orig, start, pix(x, y)) && pre.in_bounds(x, y) && #[trigger] pre.at(x, y)
                == target) ==> exists|j: int|
                0 <= j < pre_stack.len() && reaches(pre, target, pre_stack[j], pix(x, y)),
    ensures
        forall|x: int, y: int|
            s2.in_bounds(x, y) ==> (#[trigger] s2.at(x, y) == orig.at(x, y) || (s2.at(x, y)
                == fill_color && in_region(orig, start, pix(x, y)))),
        forall|j: int|
            0 <= j < new_stack.len() ==> (fill_cell(s2, target, #[trigger] new_stack[j])
                ==> in_region(orig, start, new_stack[j])),
        forall|x: int, y: int|
            (in_region(orig, start, pix(x, y)) && s2.in_bounds(x, y) && #[trigger] s2.at(x, y)
                == target) ==> exists|j: int|
                0 <= j < new_stack.len() && reaches(s2, target, new_stack[j], pix(x, y)),
{
    let w = pre.spec_width();
    let h = pre.spec_height();
    let base = pre_stack.len() - 1;
    let n0 = Point { x: (p.x + 1) as i32, y: p.y };
    let n1 = Point { x: (p.x - 1) as i32, y: p.y };
    let n2 = Point { x: p.x, y: (p.y + 1) as i32 };
    let n3 = Point { x: p.x, y: (p.y - 1) as i32 };

    // Pointwise effect of the paint.
    assert forall|x: int, y: int| s2.in_bounds(x, y) implies s2.at(x, y) == (if x == p.x as int && y
        == p.y as int {
        fill_color
    } else {
        pre.at(x, y)
    }) by {
        lemma_grid_set_at(pre.grid(), w, h, p.x as int, p.y as int, fill_color, x, y);
    }
    assert(painted_one(pre, s2, target, p));

    // Only region pixels change, and only to the fill color.
    assert forall|x: int, y: int| s2.in_bounds(x, y) implies (#[trigger] s2.at(x, y) == orig.at(
        x,
        y,
    ) || (s2.at(x, y) == fill_color && in_region(orig, start, pix(x, y)))) by {
        if x == p.x as int && y == p.y as int {
            assert(pix(x, y) == p);
        } else {
            assert(pre.at(x, y) == s2.at(x, y));
        }
    }

    // Stack pixels that still hold the target color are in the region.
    assert forall|j: int|
        0 <= j < new_stack.len() && fill_cell(s2, target, #[trigger] new_stack[j]) implies in_region(
        orig,
        start,
        new_stack[j],
    ) by {
        let e = new_stack[j];
        assert(e != p);
        assert(s2.at(e.x as int, e.y as int) == pre.at(e.x as int, e.y as int));
        assert(fill_cell(pre, target, e));
        if j < base {
            assert(new_stack[j] == pre_stack[j]);
        } else {
            assert(e == n0 || e == n1 || e == n2 || e == n3);
            assert(adj4(p, e));
            assert(pre.at(e.x as int, e.y as int) == orig.at(e.x as int, e.y as int));
            assert(fill_cell(orig, target, e));
            lemma_reaches_ends(orig, target, start, p);
            lemma_reaches_extend(orig, target, start, p, e);
        }
    }

    // Every remaining unpainted region pixel is reachable from the stack.
    assert forall|x: int, y: int|
        (in_region(orig, start, pix(x, y)) && s2.in_bounds(x, y) && #[trigger] s2.at(x, y)
            == target) implies exists|j: int|
        0 <= j < new_stack.len() && reaches(s2, target, new_stack[j], pix(x, y)) by {
        let q = pix(x, y);
        assert(q != p);
        assert(pre.at(x, y) == s2.at(x, y));
        assert(pre.at(x, y) == target);
        let j0 = choose|j: int|
            0 <= j < pre_stack.len() && reaches(pre, target, #[trigger] pre_stack[j], q);
        lemma_reaches_after_paint(pre, s2, target, p, pre_stack[j0], q);
        if reaches(s2, target, pre_stack[j0], q) {
            lemma_reaches_ends(s2, target, pre_stack[j0], q);
            assert(pre_stack[j0] != p);
            assert(j0 < base);
            assert(new_stack[j0] == pre_stack[j0]);
            assert(reaches(s2, target, new_stack[j0], q));
        } else {
            let n = choose|n: Point| #[trigger] adj4(p, n) && reaches(s2, target, n, q);
            assert(n == n0 || n == n1 || n == n2 || n == n3);
            assert(new_stack[base] == n0 && new_stack[base + 1] == n1 && new_stack[base + 2] == n2
                && new_stack[base + 3] == n3);
            if n == n0 {
                assert(reaches(s2, target, new_stack[base], q));
            } else if n == n1 {
                assert(reaches(s2, target, new_stack[base + 1], q));
            } else if n == n2 {
                assert(reaches(s2, target, new_stack[base + 2], q));
            } else {
                assert(reaches(s2, target, new_stack[base + 3], q));
            }
        }
    }
}

} // verus!
