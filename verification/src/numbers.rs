//! Digit glyphs and their layout: each digit 0-9 is a fixed, hand-authored
//! table of line segments and cubic Bézier control points in a local
//! coordinate frame, composed into a left-to-right series and positioned by
//! the transform layer (translate, uniform scale, rotate about an anchor).
//!
//! The transforms use exact fixed-point arithmetic: a scale factor is a
//! numerator over a positive denominator, and a rotation is given by its
//! cosine and sine as numerators over one positive denominator. Scaled and
//! rotated coordinates are truncated toward zero and clamped to the 32-bit
//! range, like the saturating float-to-integer casts they stand for. The
//! rotated y coordinate is computed from the original x coordinate, not the
//! already-rotated one.

use vstd::prelude::*;

use crate::fill::{flood_fill, in_region};
use crate::graphics::{cubic_hit, line_pixels, pix, CubicBezierCurve, Line};
use crate::surface::{opaque, Surface};
use crate::Point;

verus! {

/// The nominal width of a digit glyph's bounding box, and the fixed advance
/// between consecutive glyphs of a series.
pub const DEFAULT_NUM_WIDTH: i32 = 80;

/// The nominal height of a digit glyph's bounding box.
pub const DEFAULT_NUM_HEIGHT: i32 = 120;

/// A digit glyph: its character, nominal box, anchor, visual center, and the
/// line and cubic Bézier primitives whose union traces its outline.
pub struct Number {
    pub number: char,
    pub w: i32,
    pub h: i32,
    pub x: i32,
    pub y: i32,
    pub center: Point,
    pub lines: Vec<Line>,
    pub bezier_curves: Vec<CubicBezierCurve>,
}

/// Structural well-formedness of a glyph: every line primitive has exactly
/// two control points and every curve exactly four.
pub open spec fn glyph_wf(n: Number) -> bool {
    &&& forall|i: int|
        0 <= i < n.lines@.len() ==> (#[trigger] n.lines@[i]).controll_points@.len() == 2
    &&& forall|i: int|
        0 <= i < n.bezier_curves@.len() ==> (#[trigger] n.bezier_curves@[i]).controll_points@.len()
            == 4
}

/// Whether every control point of the glyph, and its center, satisfies a
/// coordinate bound.
pub open spec fn glyph_points_within(n: Number, lo: int, hi: int) -> bool {
    &&& forall|i: int, j: int|
        0 <= i < n.lines@.len() && 0 <= j < n.lines@[i].controll_points@.len() ==> {
            let p = #[trigger] n.lines@[i].controll_points@[j];
            lo <= p.x <= hi && lo <= p.y <= hi
        }
    &&& forall|i: int, j: int|
        0 <= i < n.bezier_curves@.len() && 0 <= j < n.bezier_curves@[i].controll_points@.len()
            ==> {
            let p = #[trigger] n.bezier_curves@[i].controll_points@[j];
            lo <= p.x <= hi && lo <= p.y <= hi
        }
    &&& lo <= n.center.x <= hi && lo <= n.center.y <= hi
}

/// A point translated by (d, e).
pub open spec fn translate_pt(p: Point, d: int, e: int) -> Point {
    Point { x: (p.x + d) as i32, y: (p.y + e) as i32 }
}

/// Whether translating p by (d, e) stays within the 32-bit range.
pub open spec fn can_translate_pt(p: Point, d: int, e: int) -> bool {
    &&& -0x80000000 <= p.x + d <= 0x7fffffff
    &&& -0x80000000 <= p.y + e <= 0x7fffffff
}

/// Integer division truncated toward zero, for a positive divisor.
pub open spec fn trunc_div(n: int, d: int) -> int
    recommends
        d > 0,
{
    if n >= 0 {
        n / d
    } else {
        -((-n) / d)
    }
}

/// Clamps an integer to the 32-bit range, like a saturating cast.
pub open spec fn clamp_i32(n: int) -> int {
    if n < -0x80000000 {
        -0x80000000
    } else if n > 0x7fffffff {
        0x7fffffff
    } else {
        n
    }
}

/// A point scaled by num / den about the origin, truncated toward zero and
/// clamped to the 32-bit range.
pub open spec fn scale_pt(p: Point, num: int, den: int) -> Point
    recommends
        den > 0,
{
    Point {
        x: clamp_i32(trunc_div(p.x * num, den)) as i32,
        y: clamp_i32(trunc_div(p.y * num, den)) as i32,
    }
}

/// A point rotated about the origin by the angle whose cosine and sine are
/// cos_num / den and sin_num / den, truncated toward zero and clamped. Both
/// rotated coordinates are computed from the original coordinates.
pub open spec fn rotate_pt(p: Point, cos_num: int, sin_num: int, den: int) -> Point
    recommends
        den > 0,
{
    Point {
        x: clamp_i32(trunc_div(p.x * cos_num - p.y * sin_num, den)) as i32,
        y: clamp_i32(trunc_div(p.x * sin_num + p.y * cos_num, den)) as i32,
    }
}

/// A point scaled by num / den about the pivot `sp`.
pub open spec fn scale_about_pt(p: Point, num: int, den: int, sp: Point) -> Point
    recommends
        den > 0,
{
    translate_pt(
        scale_pt(translate_pt(p, -sp.x, -sp.y), num, den),
        sp.x as int,
        sp.y as int,
    )
}

/// A point rotated about the pivot `sp`.
pub open spec fn rotate_about_pt(p: Point, cos_num: int, sin_num: int, den: int, sp: Point) -> Point
    recommends
        den > 0,
{
    translate_pt(
        rotate_pt(translate_pt(p, -sp.x, -sp.y), cos_num, sin_num, den),
        sp.x as int,
        sp.y as int,
    )
}

/// Truncating division by a positive divisor keeps a symmetric bound.
pub proof fn lemma_trunc_div_bound(n: int, d: int, b: int)
    requires
        d > 0,
        0 <= b,
        -b * d <= n <= b * d,
    ensures
        -b <= trunc_div(n, d) <= b,
{
    assert(b * d == b * d + 0) by (nonlinear_arith);
    assert((-b) * d == -(b * d)) by (nonlinear_arith);
    vstd::arithmetic::div_mod::lemma_fundamental_div_mod_converse(b * d, d, b, 0);
    if n >= 0 {
        vstd::arithmetic::div_mod::lemma_div_is_ordered(0, n, d);
        vstd::arithmetic::div_mod::lemma_div_is_ordered(n, b * d, d);
    } else {
        vstd::arithmetic::div_mod::lemma_div_is_ordered(0, -n, d);
        vstd::arithmetic::div_mod::lemma_div_is_ordered(-n, b * d, d);
    }
}

/// Translates a point in place.
pub fn translate(point: &mut Point, d: i32, e: i32)
    requires
        can_translate_pt(*old(point), d as int, e as int),
    ensures
        *final(point) == translate_pt(*old(point), d as int, e as int),
{
    point.x = point.x + d;
    point.y = point.y + e;
}

/// Division truncated toward zero, for a positive divisor.
fn trunc_div_i64(n: i64, d: i64) -> (r: i64)
    requires
        d > 0,
        -0x4000000000000000 <= n <= 0x4000000000000000,
    ensures
        r as int == trunc_div(n as int, d as int),
{
    if n >= 0 {
        ((n as u64) / (d as u64)) as i64
    } else {
        proof {
            vstd::arithmetic::div_mod::lemma_div_is_ordered(0, -n as int, d as int);
            vstd::arithmetic::div_mod::lemma_div_is_ordered(-n as int, 0x4000000000000000, d as int);
            vstd::arithmetic::div_mod::lemma_div_basics(0x4000000000000000);
        }
        -((((-n) as u64) / (d as u64)) as i64)
    }
}

/// One scaled coordinate: v * num / den truncated toward zero and clamped.
fn scale_coord(v: i32, num: i32, den: i32) -> (r: i32)
    requires
        den > 0,
    ensures
        r as int == clamp_i32(trunc_div(v as int * num as int, den as int)),
{
    proof {
        assert(-0x4000000000000000 <= (v as int) * (num as int) <= 0x4000000000000000)
            by (nonlinear_arith)
            requires
                -0x80000000 <= v as int <= 0x7fffffff,
                -0x80000000 <= num as int <= 0x7fffffff,
        ;
    }
    let p: i64 = (v as i64) * (num as i64);
    let q: i64 = trunc_div_i64(p, den as i64);
    if q < -0x80000000 {
        -0x80000000
    } else if q > 0x7fffffff {
        0x7fffffff
    } else {
        q as i32
    }
}

/// Scales a point in place by num / den about the origin, truncating toward
/// zero and saturating at the 32-bit range.
pub fn scale(point: &mut Point, s_num: i32, s_den: i32)
    requires
        s_den > 0,
    ensures
        *final(point) == scale_pt(*old(point), s_num as int, s_den as int),
{
    let nx = scale_coord(point.x, s_num, s_den);
    let ny = scale_coord(point.y, s_num, s_den);
    point.x = nx;
    point.y = ny;
}

/// Division truncated toward zero on wide intermediates.
fn trunc_div_i128(n: i128, d: i128) -> (r: i128)
    requires
        d > 0,
        -0x40000000000000000000000000000000 <= n <= 0x40000000000000000000000000000000,
    ensures
        r as int == trunc_div(n as int, d as int),
{
    if n >= 0 {
        ((n as u128) / (d as u128)) as i128
    } else {
        proof {
            vstd::arithmetic::div_mod::lemma_div_is_ordered(0, -n as int, d as int);
            vstd::arithmetic::div_mod::lemma_div_is_ordered(
                -n as int,
                0x40000000000000000000000000000000,
                d as int,
            );
            vstd::arithmetic::div_mod::lemma_div_basics(0x40000000000000000000000000000000);
        }
        -((((-n) as u128) / (d as u128)) as i128)
    }
}

/// One rotated coordinate: (a * ca + b * cb) / den truncated toward zero and
/// clamped.
fn rotate_coord(a: i32, ca: i32, b: i32, cb: i32, den: i32) -> (r: i32)
    requires
        den > 0,
    ensures
        r as int == clamp_i32(trunc_div(a as int * ca as int + b as int * cb as int, den as int)),
{
    proof {
        assert(-0x4000000000000000 <= (a as int) * (ca as int) <= 0x4000000000000000
            && -0x4000000000000000 <= (b as int) * (cb as int) <= 0x4000000000000000)
            by (nonlinear_arith)
            requires
                -0x80000000 <= a as int <= 0x7fffffff,
                -0x80000000 <= ca as int <= 0x7fffffff,
                -0x80000000 <= b as int <= 0x7fffffff,
                -0x80000000 <= cb as int <= 0x7fffffff,
        ;
    }
    let p: i128 = (a as i128) * (ca as i128) + (b as i128) * (cb as i128);
    let q: i128 = trunc_div_i128(p, den as i128);
    if q < -0x80000000 {
        -0x80000000
    } else if q > 0x7fffffff {
        0x7fffffff
    } else {
        q as i32
    }
}

/// Rotates a point in place about the origin by the angle with the given
/// fixed-point cosine and sine, truncating toward zero and saturating at the
/// 32-bit range. Both new coordinates are computed from the original ones.
pub fn rotate(point: &mut Point, cos_num: i32, sin_num: i32, den: i32)
    requires
        den > 0,
    ensures
        *final(point) == rotate_pt(*old(point), cos_num as int, sin_num as int, den as int),
{
    let nx = rotate_coord_neg(point.x, cos_num, point.y, sin_num, den);
    let ny = rotate_coord(point.x, sin_num, point.y, cos_num, den);
    point.x = nx;
    point.y = ny;
}

/// One rotated coordinate of the form (a * ca - b * cb) / den, truncated
/// toward zero and clamped.
fn rotate_coord_neg(a: i32, ca: i32, b: i32, cb: i32, den: i32) -> (r: i32)
    requires
        den > 0,
    ensures
        r as int == clamp_i32(trunc_div(a as int * ca as int - b as int * cb as int, den as int)),
{
    proof {
        assert(-0x4000000000000000 <= (a as int) * (ca as int) <= 0x4000000000000000
            && -0x4000000000000000 <= (b as int) * (cb as int) <= 0x4000000000000000)
            by (nonlinear_arith)
            requires
                -0x80000000 <= a as int <= 0x7fffffff,
                -0x80000000 <= ca as int <= 0x7fffffff,
                -0x80000000 <= b as int <= 0x7fffffff,
                -0x80000000 <= cb as int <= 0x7fffffff,
        ;
    }
    let p: i128 = (a as i128) * (ca as i128) - (b as i128) * (cb as i128);
    let q: i128 = trunc_div_i128(p, den as i128);
    if q < -0x80000000 {
        -0x80000000
    } else if q > 0x7fffffff {
        0x7fffffff
    } else {
        q as i32
    }
}

/// Two glyphs with the same character, box, anchor and primitive shape
/// (only control point values may differ).
pub open spec fn glyph_shape_eq(a: Number, b: Number) -> bool {
    &&& b.number == a.number
    &&& b.w == a.w
    &&& b.h == a.h
    &&& b.x == a.x
    &&& b.y == a.y
    &&& b.lines@.len() == a.lines@.len()
    &&& forall|i: int|
        0 <= i < a.lines@.len() ==> (#[trigger] b.lines@[i]).controll_points@.len()
            == a.lines@[i].controll_points@.len()
    &&& b.bezier_curves@.len() == a.bezier_curves@.len()
    &&& forall|i: int|
        0 <= i < a.bezier_curves@.len() ==> (#[trigger] b.bezier_curves@[i]).controll_points@.len()
            == a.bezier_curves@[i].controll_points@.len()
}

/// Whether every control point of the glyph, and its center, can be
/// translated by (d, e) within the 32-bit range.
pub open spec fn can_translate_glyph(n: Number, d: int, e: int) -> bool {
    &&& forall|i: int, j: int|
        0 <= i < n.lines@.len() && 0 <= j < n.lines@[i].controll_points@.len()
            ==> can_translate_pt(#[trigger] n.lines@[i].controll_points@[j], d, e)
    &&& forall|i: int, j: int|
        0 <= i < n.bezier_curves@.len() && 0 <= j < n.bezier_curves@[i].controll_points@.len()
            ==> can_translate_pt(#[trigger] n.bezier_curves@[i].controll_points@[j], d, e)
    &&& can_translate_pt(n.center, d, e)
}

/// Glyph b is glyph a with every control point and the center translated by
/// (d, e).
pub open spec fn glyph_translated(a: Number, b: Number, d: int, e: int) -> bool {
    &&& glyph_shape_eq(a, b)
    &&& b.center == translate_pt(a.center, d, e)
    &&& forall|i: int, j: int|
        0 <= i < a.lines@.len() && 0 <= j < a.lines@[i].controll_points@.len()
            ==> #[trigger] b.lines@[i].controll_points@[j] == translate_pt(
            a.lines@[i].controll_points@[j],
            d,
            e,
        )
    &&& forall|i: int, j: int|
        0 <= i < a.bezier_curves@.len() && 0 <= j < a.bezier_curves@[i].controll_points@.len()
            ==> #[trigger] b.bezier_curves@[i].controll_points@[j] == translate_pt(
            a.bezier_curves@[i].controll_points@[j],
            d,
            e,
        )
}

/// Glyph b is glyph a with every control point and the center scaled by
/// num / den about the pivot `sp`.
pub open spec fn glyph_scaled_about(a: Number, b: Number, num: int, den: int, sp: Point) -> bool {
    &&& glyph_shape_eq(a, b)
    &&& b.center == a.center
    &&& forall|i: int, j: int|
        0 <= i < a.lines@.len() && 0 <= j < a.lines@[i].controll_points@.len()
            ==> #[trigger] b.lines@[i].controll_points@[j] == scale_about_pt(
            a.lines@[i].controll_points@[j],
            num,
            den,
            sp,
        )
    &&& forall|i: int, j: int|
        0 <= i < a.bezier_curves@.len() && 0 <= j < a.bezier_curves@[i].controll_points@.len()
            ==> #[trigger] b.bezier_curves@[i].controll_points@[j] == scale_about_pt(
            a.bezier_curves@[i].controll_points@[j],
            num,
            den,
            sp,
        )
}

/// Glyph b is glyph a with every control point and the center rotated about
/// the pivot `sp`.
pub open spec fn glyph_rotated_about(
    a: Number,
    b: Number,
    cos_num: int,
    sin_num: int,
    den: int,
    sp: Point,
) -> bool {
    &&& glyph_shape_eq(a, b)
    &&& b.center == a.center
    &&& forall|i: int, j: int|
        0 <= i < a.lines@.len() && 0 <= j < a.lines@[i].controll_points@.len()
            ==> #[trigger] b.lines@[i].controll_points@[j] == rotate_about_pt(
            a.lines@[i].controll_points@[j],
            cos_num,
            sin_num,
            den,
            sp,
        )
    &&& forall|i: int, j: int|
        0 <= i < a.bezier_curves@.len() && 0 <= j < a.bezier_curves@[i].controll_points@.len()
            ==> #[trigger] b.bezier_curves@[i].controll_points@[j] == rotate_about_pt(
            a.bezier_curves@[i].controll_points@[j],
            cos_num,
            sin_num,
            den,
            sp,
        )
}

/// The points of `pts` translated by (d, e).
fn translate_points(pts: &Vec<Point>, d: i32, e: i32) -> (r: Vec<Point>)
    requires
        forall|j: int|
            0 <= j < pts@.len() ==> can_translate_pt(#[trigger] pts@[j], d as int, e as int),
    ensures
        r@.len() == pts@.len(),
        forall|j: int|
            0 <= j < pts@.len() ==> #[trigger] r@[j] == translate_pt(pts@[j], d as int, e as int),
{
    let mut r: Vec<Point> = Vec::new();
    let mut j: usize = 0;
    while j < pts.len()
        invariant
            j <= pts@.len(),
            r@.len() == j,
            forall|k: int|
                0 <= k < pts@.len() ==> can_translate_pt(#[trigger] pts@[k], d as int, e as int),
            forall|k: int|
                0 <= k < j ==> #[trigger] r@[k] == translate_pt(pts@[k], d as int, e as int),
        decreases pts@.len() - j,
    {
        let mut p = pts[j];
        translate(&mut p, d, e);
        r.push(p);
        j = j + 1;
    }
    r
}

/// The points of `pts` scaled by num / den about the origin.
fn scale_points(pts: &Vec<Point>, s_num: i32, s_den: i32) -> (r: Vec<Point>)
    requires
        s_den > 0,
    ensures
        r@.len() == pts@.len(),
        forall|j: int|
            0 <= j < pts@.len() ==> #[trigger] r@[j] == scale_pt(
                pts@[j],
                s_num as int,
                s_den as int,
            ),
{
    let mut r: Vec<Point> = Vec::new();
    let mut j: usize = 0;
    while j < pts.len()
        invariant
            s_den > 0,
            j <= pts@.len(),
            r@.len() == j,
            forall|k: int|
                0 <= k < j ==> #[trigger] r@[k] == scale_pt(pts@[k], s_num as int, s_den as int),
        decreases pts@.len() - j,
    {
        let mut p = pts[j];
        scale(&mut p, s_num, s_den);
        r.push(p);
        j = j + 1;
    }
    r
}

/// The points of `pts` rotated about the origin.
fn rotate_points(pts: &Vec<Point>, cos_num: i32, sin_num: i32, den: i32) -> (r: Vec<Point>)
    requires
        den > 0,
    ensures
        r@.len() == pts@.len(),
        forall|j: int|
            0 <= j < pts@.len() ==> #[trigger] r@[j] == rotate_pt(
                pts@[j],
                cos_num as int,
                sin_num as int,
                den as int,
            ),
{
    let mut r: Vec<Point> = Vec::new();
    let mut j: usize = 0;
    while j < pts.len()
        invariant
            den > 0,
            j <= pts@.len(),
            r@.len() == j,
            forall|k: int|
                0 <= k < j ==> #[trigger] r@[k] == rotate_pt(
                    pts@[k],
                    cos_num as int,
                    sin_num as int,
                    den as int,
                ),
        decreases pts@.len() - j,
    {
        let mut p = pts[j];
        rotate(&mut p, cos_num, sin_num, den);
        r.push(p);
        j = j + 1;
    }
    r
}

/// Translates every control point of the glyph, and its center, by (d, e).
/// The glyph's character, nominal box and anchor fields are unchanged.
pub fn translate_number(number: &mut Number, d: i32, e: i32)
    requires
        can_translate_glyph(*old(number), d as int, e as int),
    ensures
        glyph_translated(*old(number), *final(number), d as int, e as int),
{
    let ghost a: Number = *number;
    let mut new_lines: Vec<Line> = Vec::new();
    let mut i: usize = 0;
    while i < number.lines.len()
        invariant
            *number == a,
            can_translate_glyph(a, d as int, e as int),
            i <= a.lines@.len(),
            new_lines@.len() == i,
            forall|k: int|
                0 <= k < i ==> (#[trigger] new_lines@[k]).controll_points@.len()
                    == a.lines@[k].controll_points@.len(),
            forall|k: int, j: int|
                0 <= k < i && 0 <= j < a.lines@[k].controll_points@.len()
                    ==> #[trigger] new_lines@[k].controll_points@[j] == translate_pt(
                    a.lines@[k].controll_points@[j],
                    d as int,
                    e as int,
                ),
        decreases a.lines@.len() - i,
    {
        let pts = translate_points(&number.lines[i].controll_points, d, e);
        new_lines.push(Line::new(pts));
        i = i + 1;
    }
    let mut new_curves: Vec<CubicBezierCurve> = Vec::new();
    let mut i2: usize = 0;
    while i2 < number.bezier_curves.len()
        invariant
            *number == a,
            can_translate_glyph(a, d as int, e as int),
            i2 <= a.bezier_curves@.len(),
            new_curves@.len() == i2,
            forall|k: int|
                0 <= k < i2 ==> (#[trigger] new_curves@[k]).controll_points@.len()
                    == a.bezier_curves@[k].controll_points@.len(),
            forall|k: int, j: int|
                0 <= k < i2 && 0 <= j < a.bezier_curves@[k].controll_points@.len()
                    ==> #[trigger] new_curves@[k].controll_points@[j] == translate_pt(
                    a.bezier_curves@[k].controll_points@[j],
                    d as int,
                    e as int,
                ),
        decreases a.bezier_curves@.len() - i2,
    {
        let pts = translate_points(&number.bezier_curves[i2].controll_points, d, e);
        new_curves.push(CubicBezierCurve::new(pts));
        i2 = i2 + 1;
    }
    number.lines = new_lines;
    number.bezier_curves = new_curves;
    translate(&mut number.center, d, e);
}

/// Whether the whole scale-about-pivot pipeline stays within the 32-bit
/// range for every control point of the glyph and its center: the move to
/// the pivot's origin, and the move back after scaling.
pub open spec fn can_scale_glyph_about(n: Number, num: int, den: int, sp: Point) -> bool {
    &&& can_translate_glyph(n, -sp.x, -sp.y)
    &&& forall|i: int, j: int|
        0 <= i < n.lines@.len() && 0 <= j < n.lines@[i].controll_points@.len()
            ==> can_translate_pt(
            scale_pt(
                translate_pt(#[trigger] n.lines@[i].controll_points@[j], -sp.x, -sp.y),
                num,
                den,
            ),
            sp.x as int,
            sp.y as int,
        )
    &&& forall|i: int, j: int|
        0 <= i < n.bezier_curves@.len() && 0 <= j < n.bezier_curves@[i].controll_points@.len()
            ==> can_translate_pt(
            scale_pt(
                translate_pt(#[trigger] n.bezier_curves@[i].controll_points@[j], -sp.x, -sp.y),
                num,
                den,
            ),
            sp.x as int,
            sp.y as int,
        )
}

/// Like `can_scale_glyph_about`, for the rotate-about-pivot pipeline.
pub open spec fn can_rotate_glyph_about(
    n: Number,
    cos_num: int,
    sin_num: int,
    den: int,
    sp: Point,
) -> bool {
    &&& can_translate_glyph(n, -sp.x, -sp.y)
    &&& forall|i: int, j: int|
        0 <= i < n.lines@.len() && 0 <= j < n.lines@[i].controll_points@.len()
            ==> can_translate_pt(
            rotate_pt(
                translate_pt(#[trigger] n.lines@[i].controll_points@[j], -sp.x, -sp.y),
                cos_num,
                sin_num,
                den,
            ),
            sp.x as int,
            sp.y as int,
        )
    &&& forall|i: int, j: int|
        0 <= i < n.bezier_curves@.len() && 0 <= j < n.bezier_curves@[i].controll_points@.len()
            ==> can_translate_pt(
            rotate_pt(
                translate_pt(#[trigger] n.bezier_curves@[i].controll_points@[j], -sp.x, -sp.y),
                cos_num,
                sin_num,
                den,
            ),
            sp.x as int,
            sp.y as int,
        )
}

/// Scales every control point of the glyph about the origin; the center is
/// left untouched.
fn scale_number_origin(number: &mut Number, s_num: i32, s_den: i32)
    requires
        s_den > 0,
    ensures
        glyph_shape_eq(*old(number), *final(number)),
        final(number).center == old(number).center,
        forall|i: int, j: int|
            0 <= i < old(number).lines@.len() && 0 <= j
                < old(number).lines@[i].controll_points@.len()
                ==> #[trigger] final(number).lines@[i].controll_points@[j] == scale_pt(
                old(number).lines@[i].controll_points@[j],
                s_num as int,
                s_den as int,
            ),
        forall|i: int, j: int|
            0 <= i < old(number).bezier_curves@.len() && 0 <= j < old(
                number,
            ).bezier_curves@[i].controll_points@.len()
                ==> #[trigger] final(number).bezier_curves@[i].controll_points@[j] == scale_pt(
                old(number).bezier_curves@[i].controll_points@[j],
                s_num as int,
                s_den as int,
            ),
{
    let ghost a: Number = *number;
    let mut new_lines: Vec<Line> = Vec::new();
    let mut i: usize = 0;
    while i < number.lines.len()
        invariant
            *number == a,
            s_den > 0,
            i <= a.lines@.len(),
            new_lines@.len() == i,
            forall|k: int|
                0 <= k < i ==> (#[trigger] new_lines@[k]).controll_points@.len()
                    == a.lines@[k].controll_points@.len(),
            forall|k: int, j: int|
                0 <= k < i && 0 <= j < a.lines@[k].controll_points@.len()
                    ==> #[trigger] new_lines@[k].controll_points@[j] == scale_pt(
                    a.lines@[k].controll_points@[j],
                    s_num as int,
                    s_den as int,
                ),
        decreases a.lines@.len() - i,
    {
        let pts = scale_points(&number.lines[i].controll_points, s_num, s_den);
        new_lines.push(Line::new(pts));
        i = i + 1;
    }
    let mut new_curves: Vec<CubicBezierCurve> = Vec::new();
    let mut i2: usize = 0;
    while i2 < number.bezier_curves.len()
        invariant
            *number == a,
            s_den > 0,
            i2 <= a.bezier_curves@.len(),
            new_curves@.len() == i2,
            forall|k: int|
                0 <= k < i2 ==> (#[trigger] new_curves@[k]).controll_points@.len()
                    == a.bezier_curves@[k].controll_points@.len(),
            forall|k: int, j: int|
                0 <= k < i2 && 0 <= j < a.bezier_curves@[k].controll_points@.len()
                    ==> #[trigger] new_curves@[k].controll_points@[j] == scale_pt(
                    a.bezier_curves@[k].controll_points@[j],
                    s_num as int,
                    s_den as int,
                ),
        decreases a.bezier_curves@.len() - i2,
    {
        let pts = scale_points(&number.bezier_curves[i2].controll_points, s_num, s_den);
        new_curves.push(CubicBezierCurve::new(pts));
        i2 = i2 + 1;
    }
    number.lines = new_lines;
    number.bezier_curves = new_curves;
}

/// Rotates every control point of the glyph about the origin; the center is
/// left untouched.
fn rotate_number_origin(number: &mut Number, cos_num: i32, sin_num: i32, den: i32)
    requires
        den > 0,
    ensures
        glyph_shape_eq(*old(number), *final(number)),
        final(number).center == old(number).center,
        forall|i: int, j: int|
            0 <= i < old(number).lines@.len() && 0 <= j
                < old(number).lines@[i].controll_points@.len()
                ==> #[trigger] final(number).lines@[i].controll_points@[j] == rotate_pt(
                old(number).lines@[i].controll_points@[j],
                cos_num as int,
                sin_num as int,
                den as int,
            ),
        forall|i: int, j: int|
            0 <= i < old(number).bezier_curves@.len() && 0 <= j < old(
                number,
            ).bezier_curves@[i].controll_points@.len()
                ==> #[trigger] final(number).bezier_curves@[i].controll_points@[j] == rotate_pt(
                old(number).bezier_curves@[i].controll_points@[j],
                cos_num as int,
                sin_num as int,
                den as int,
            ),
{
    let ghost a: Number = *number;
    let mut new_lines: Vec<Line> = Vec::new();
    let mut i: usize = 0;
    while i < number.lines.len()
        invariant
            *number == a,
            den > 0,
            i <= a.lines@.len(),
            new_lines@.len() == i,
            forall|k: int|
                0 <= k < i ==> (#[trigger] new_lines@[k]).controll_points@.len()
                    == a.lines@[k].controll_points@.len(),
            forall|k: int, j: int|
                0 <= k < i && 0 <= j < a.lines@[k].controll_points@.len()
                    ==> #[trigger] new_lines@[k].controll_points@[j] == rotate_pt(
                    a.lines@[k].controll_points@[j],
                    cos_num as int,
                    sin_num as int,
                    den as int,
                ),
        decreases a.lines@.len() - i,
    {
        let pts = rotate_points(&number.lines[i].controll_points, cos_num, sin_num, den);
        new_lines.push(Line::new(pts));
        i = i + 1;
    }
    let mut new_curves: Vec<CubicBezierCurve> = Vec::new();
    let mut i2: usize = 0;
    while i2 < number.bezier_curves.len()
        invariant
            *number == a,
            den > 0,
            i2 <= a.bezier_curves@.len(),
            new_curves@.len() == i2,
            forall|k: int|
                0 <= k < i2 ==> (#[trigger] new_curves@[k]).controll_points@.len()
                    == a.bezier_curves@[k].controll_points@.len(),
            forall|k: int, j: int|
                0 <= k < i2 && 0 <= j < a.bezier_curves@[k].controll_points@.len()
                    ==> #[trigger] new_curves@[k].controll_points@[j] == rotate_pt(
                    a.bezier_curves@[k].controll_points@[j],
                    cos_num as int,
                    sin_num as int,
                    den as int,
                ),
        decreases a.bezier_curves@.len() - i2,
    {
        let pts = rotate_points(&number.bezier_curves[i2].controll_points, cos_num, sin_num, den);
        new_curves.push(CubicBezierCurve::new(pts));
        i2 = i2 + 1;
    }
    number.lines = new_lines;
    number.bezier_curves = new_curves;
}

/// Uniformly scales the glyph by s_num / s_den about `start_point`: the
/// glyph is moved to the pivot's origin, scaled, and moved back.
pub fn scale_number(number: &mut Number, s_num: i32, s_den: i32, start_point: Point)
    requires
        s_den > 0,
        -0x7fffffff <= start_point.x,
        -0x7fffffff <= start_point.y,
        can_scale_glyph_about(*old(number), s_num as int, s_den as int, start_point),
    ensures
        glyph_scaled_about(*old(number), *final(number), s_num as int, s_den as int, start_point),
{
    let ghost a: Number = *number;
    translate_number(number, -start_point.x, -start_point.y);
    scale_number_origin(number, s_num, s_den);
    let ghost t2: Number = *number;
    proof {
        assert forall|i: int, j: int|
            0 <= i < t2.lines@.len() && 0 <= j
                < t2.lines@[i].controll_points@.len() implies can_translate_pt(
            #[trigger] t2.lines@[i].controll_points@[j],
            start_point.x as int,
            start_point.y as int,
        ) by {
            assert(t2.lines@[i].controll_points@[j] == scale_pt(
                translate_pt(a.lines@[i].controll_points@[j], -start_point.x, -start_point.y),
                s_num as int,
                s_den as int,
            ));
        }
        assert forall|i: int, j: int|
            0 <= i < t2.bezier_curves@.len() && 0 <= j
                < t2.bezier_curves@[i].controll_points@.len() implies can_translate_pt(
            #[trigger] t2.bezier_curves@[i].controll_points@[j],
            start_point.x as int,
            start_point.y as int,
        ) by {
            assert(t2.bezier_curves@[i].controll_points@[j] == scale_pt(
                translate_pt(
                    a.bezier_curves@[i].controll_points@[j],
                    -start_point.x,
                    -start_point.y,
                ),
                s_num as int,
                s_den as int,
            ));
        }
    }
    translate_number(number, start_point.x, start_point.y);
}

/// Rotates the glyph about `start_point` by the angle with the given
/// fixed-point cosine and sine: the glyph is moved to the pivot's origin,
/// rotated, and moved back.
pub fn rotate_number(number: &mut Number, cos_num: i32, sin_num: i32, den: i32, start_point: Point)
    requires
        den > 0,
        -0x7fffffff <= start_point.x,
        -0x7fffffff <= start_point.y,
        can_rotate_glyph_about(
            *old(number),
            cos_num as int,
            sin_num as int,
            den as int,
            start_point,
        ),
    ensures
        glyph_rotated_about(
            *old(number),
            *final(number),
            cos_num as int,
            sin_num as int,
            den as int,
            start_point,
        ),
{
    let ghost a: Number = *number;
    translate_number(number, -start_point.x, -start_point.y);
    rotate_number_origin(number, cos_num, sin_num, den);
    let ghost t2: Number = *number;
    proof {
        assert forall|i: int, j: int|
            0 <= i < t2.lines@.len() && 0 <= j
                < t2.lines@[i].controll_points@.len() implies can_translate_pt(
            #[trigger] t2.lines@[i].controll_points@[j],
            start_point.x as int,
            start_point.y as int,
        ) by {
            assert(t2.lines@[i].controll_points@[j] == rotate_pt(
                translate_pt(a.lines@[i].controll_points@[j], -start_point.x, -start_point.y),
                cos_num as int,
                sin_num as int,
                den as int,
            ));
        }
        assert forall|i: int, j: int|
            0 <= i < t2.bezier_curves@.len() && 0 <= j
                < t2.bezier_curves@[i].controll_points@.len() implies can_translate_pt(
            #[trigger] t2.bezier_curves@[i].controll_points@[j],
            start_point.x as int,
            start_point.y as int,
        ) by {
            assert(t2.bezier_curves@[i].controll_points@[j] == rotate_pt(
                translate_pt(
                    a.bezier_curves@[i].controll_points@[j],
                    -start_point.x,
                    -start_point.y,
                ),
                cos_num as int,
                sin_num as int,
                den as int,
            ));
        }
    }
    translate_number(number, start_point.x, start_point.y);
}

impl Number {
    pub fn new(
        number: char,
        w: i32,
        h: i32,
        x: i32,
        y: i32,
        center: Point,
        lines: Option<Vec<Line>>,
        bezier_curves: Option<Vec<CubicBezierCurve>>,
    ) -> (r: Number)
        ensures
            r.number == number,
            r.w == w,
            r.h == h,
            r.x == x,
            r.y == y,
            r.center == center,
            lines is Some ==> r.lines@ == lines->0@,
            lines is None ==> r.lines@.len() == 0,
            bezier_curves is Some ==> r.bezier_curves@ == bezier_curves->0@,
            bezier_curves is None ==> r.bezier_curves@.len() == 0,
    {
        let ls = match lines {
            Some(l) => l,
            None => Vec::new(),
        };
        let cs = match bezier_curves {
            Some(c) => c,
            None => Vec::new(),
        };
        Number { number, w, h, x, y, center, lines: ls, bezier_curves: cs }
    }
}

/// A line segment primitive between two named coordinates.
fn seg(x0: i32, y0: i32, x1: i32, y1: i32) -> (l: Line)
    ensures
        l.controll_points@.len() == 2,
        l.controll_points@[0] == (Point { x: x0, y: y0 }),
        l.controll_points@[1] == (Point { x: x1, y: y1 }),
{
    let mut v: Vec<Point> = Vec::new();
    v.push(Point::new(x0, y0));
    v.push(Point::new(x1, y1));
    Line::new(v)
}

/// A cubic Bézier primitive over four named control coordinates.
fn curve4(x0: i32, y0: i32, x1: i32, y1: i32, x2: i32, y2: i32, x3: i32, y3: i32) -> (c:
    CubicBezierCurve)
    ensures
        c.controll_points@.len() == 4,
        c.controll_points@[0] == (Point { x: x0, y: y0 }),
        c.controll_points@[1] == (Point { x: x1, y: y1 }),
        c.controll_points@[2] == (Point { x: x2, y: y2 }),
        c.controll_points@[3] == (Point { x: x3, y: y3 }),
{
    let mut v: Vec<Point> = Vec::new();
    v.push(Point::new(x0, y0));
    v.push(Point::new(x1, y1));
    v.push(Point::new(x2, y2));
    v.push(Point::new(x3, y3));
    CubicBezierCurve::new(v)
}

/// The authored cubic-Bézier table of the digit glyph '0'.
pub open spec fn digit0_bows() -> Seq<(Point, Point, Point, Point)> {
    seq![
        (Point { x: 5, y: 70 }, Point { x: 10, y: 0 }, Point { x: 70, y: 0 }, Point { x: 75, y: 70 }),
        (Point { x: 20, y: 70 }, Point { x: 25, y: 13 }, Point { x: 55, y: 13 }, Point { x: 60, y: 70 }),
        (Point { x: 5, y: 70 }, Point { x: 10, y: 137 }, Point { x: 70, y: 137 }, Point { x: 75, y: 70 }),
        (Point { x: 20, y: 70 }, Point { x: 25, y: 124 }, Point { x: 55, y: 124 }, Point { x: 60, y: 70 }),
    ]
}

/// The digit glyph '0' anchored at (x, y): four nested Bézier bows forming
/// an outer and an inner oval.
pub fn create_digit_0(x: i32, y: i32) -> (r: Number)
    ensures
        r.number == '0',
        r.w == DEFAULT_NUM_WIDTH,
        r.h == DEFAULT_NUM_HEIGHT,
        r.x == x,
        r.y == y,
        r.center == digit_center_of('0'),
        r.lines@.len() == 0,
        r.bezier_curves@.len() == 4,
        glyph_wf(r),
        forall|i: int|
            0 <= i < r.bezier_curves@.len() ==> ((#[trigger] r.bezier_curves@[i]).controll_points@[0]
                == digit0_bows()[i].0 && r.bezier_curves@[i].controll_points@[1]
                == digit0_bows()[i].1 && r.bezier_curves@[i].controll_points@[2]
                == digit0_bows()[i].2 && r.bezier_curves@[i].controll_points@[3]
                == digit0_bows()[i].3),
        glyph_points_within(r, 0, 200),
{
    let mut bezier_curves: Vec<CubicBezierCurve> = Vec::new();
    bezier_curves.push(curve4(5, 70, 10, 0, 70, 0, 75, 70));
    bezier_curves.push(curve4(20, 70, 25, 13, 55, 13, 60, 70));
    bezier_curves.push(curve4(5, 70, 10, 137, 70, 137, 75, 70));
    bezier_curves.push(curve4(20, 70, 25, 124, 55, 124, 60, 70));
    Number::new(
        '0',
        DEFAULT_NUM_WIDTH,
        DEFAULT_NUM_HEIGHT,
        x,
        y,
        Point::new(40, 25),
        None,
        Some(bezier_curves),
    )
}

/// The authored line-segment table of the digit glyph '1'.
pub open spec fn digit1_segments() -> Seq<(Point, Point)> {
    seq![
        (Point { x: 32, y: 20 }, Point { x: 10, y: 55 }),
        (Point { x: 10, y: 55 }, Point { x: 32, y: 55 }),
        (Point { x: 32, y: 20 }, Point { x: 53, y: 20 }),
        (Point { x: 53, y: 20 }, Point { x: 53, y: 120 }),
        (Point { x: 32, y: 55 }, Point { x: 32, y: 120 }),
        (Point { x: 32, y: 55 }, Point { x: 32, y: 120 }),
        (Point { x: 32, y: 120 }, Point { x: 54, y: 120 }),
    ]
}

/// The digit glyph '1' anchored at (x, y): a serif flag and a vertical
/// stroke of line segments.
pub fn create_digit_1(x: i32, y: i32) -> (r: Number)
    ensures
        r.number == '1',
        r.w == DEFAULT_NUM_WIDTH,
        r.h == DEFAULT_NUM_HEIGHT,
        r.x == x,
        r.y == y,
        r.center == digit_center_of('1'),
        r.lines@.len() == 7,
        r.bezier_curves@.len() == 0,
        glyph_wf(r),
        forall|i: int|
            0 <= i < r.lines@.len() ==> ((#[trigger] r.lines@[i]).controll_points@[0]
                == digit1_segments()[i].0 && r.lines@[i].controll_points@[1]
                == digit1_segments()[i].1),
        glyph_points_within(r, 0, 200),
{
    let mut lines: Vec<Line> = Vec::new();
    lines.push(seg(32, 20, 10, 55));
    lines.push(seg(10, 55, 32, 55));
    lines.push(seg(32, 20, 53, 20));
    lines.push(seg(53, 20, 53, 120));
    lines.push(seg(32, 55, 32, 120));
    lines.push(seg(32, 55, 32, 120));
    lines.push(seg(32, 120, 54, 120));
    Number::new(
        '1',
        DEFAULT_NUM_WIDTH,
        DEFAULT_NUM_HEIGHT,
        x,
        y,
        Point::new(40, 30),
        Some(lines),
        None,
    )
}

/// The authored line-segment table of the digit glyph '2'.
pub open spec fn digit2_segments() -> Seq<(Point, Point)> {
    seq![
        (Point { x: 22, y: 50 }, Point { x: 5, y: 50 }),
        (Point { x: 40, y: 100 }, Point { x: 70, y: 100 }),
        (Point { x: 5, y: 110 }, Point { x: 5, y: 115 }),
        (Point { x: 5, y: 110 }, Point { x: 5, y: 115 }),
        (Point { x: 5, y: 115 }, Point { x: 70, y: 115 }),
        (Point { x: 70, y: 115 }, Point { x: 70, y: 100 }),
    ]
}

/// The authored cubic-Bézier table of the digit glyph '2'.
pub open spec fn digit2_bows() -> Seq<(Point, Point, Point, Point)> {
    seq![
        (Point { x: 5, y: 50 }, Point { x: 3, y: 20 }, Point { x: 77, y: 20 }, Point { x: 75, y: 50 }),
        (Point { x: 22, y: 50 }, Point { x: 20, y: 37 }, Point { x: 60, y: 37 }, Point { x: 58, y: 50 }),
        (Point { x: 58, y: 50 }, Point { x: 64, y: 85 }, Point { x: 10, y: 90 }, Point { x: 5, y: 110 }),
        (Point { x: 75, y: 50 }, Point { x: 75, y: 80 }, Point { x: 58, y: 85 }, Point { x: 40, y: 100 }),
    ]
}

/// The digit glyph '2' anchored at (x, y): a top bow, a sweeping diagonal
/// and a base bar.
pub fn create_digit_2(x: i32, y: i32) -> (r: Number)
    ensures
        r.number == '2',
        r.w == DEFAULT_NUM_WIDTH,
        r.h == DEFAULT_NUM_HEIGHT,
        r.x == x,
        r.y == y,
        r.center == digit_center_of('2'),
        r.lines@.len() == 6,
        r.bezier_curves@.len() == 4,
        glyph_wf(r),
        forall|i: int|
            0 <= i < r.lines@.len() ==> ((#[trigger] r.lines@[i]).controll_points@[0]
                == digit2_segments()[i].0 && r.lines@[i].controll_points@[1]
                == digit2_segments()[i].1),
        forall|i: int|
            0 <= i < r.bezier_curves@.len() ==> ((#[trigger] r.bezier_curves@[i]).controll_points@[0]
                == digit2_bows()[i].0 && r.bezier_curves@[i].controll_points@[1]
                == digit2_bows()[i].1 && r.bezier_curves@[i].controll_points@[2]
                == digit2_bows()[i].2 && r.bezier_curves@[i].controll_points@[3]
                == digit2_bows()[i].3),
        glyph_points_within(r, 0, 200),
{
    let mut lines: Vec<Line> = Vec::new();
    let mut bezier_curves: Vec<CubicBezierCurve> = Vec::new();
    bezier_curves.push(curve4(5, 50, 3, 20, 77, 20, 75, 50));
    bezier_curves.push(curve4(22, 50, 20, 37, 60, 37, 58, 50));
    bezier_curves.push(curve4(58, 50, 64, 85, 10, 90, 5, 110));
    bezier_curves.push(curve4(75, 50, 75, 80, 58, 85, 40, 100));
    lines.push(seg(22, 50, 5, 50));
    lines.push(seg(40, 100, 70, 100));
    lines.push(seg(5, 110, 5, 115));
    lines.push(seg(5, 110, 5, 115));
    lines.push(seg(5, 115, 70, 115));
    lines.push(seg(70, 115, 70, 100));
    Number::new(
        '2',
        DEFAULT_NUM_WIDTH,
        DEFAULT_NUM_HEIGHT,
        x,
        y,
        Point::new(40, 30),
        Some(lines),
        Some(bezier_curves),
    )
}

/// The authored line-segment table of the digit glyph '3'.
pub open spec fn digit3_segments() -> Seq<(Point, Point)> {
    seq![
        (Point { x: 10, y: 20 }, Point { x: 70, y: 20 }),
        (Point { x: 10, y: 20 }, Point { x: 10, y: 30 }),
        (Point { x: 10, y: 30 }, Point { x: 55, y: 30 }),
        (Point { x: 70, y: 20 }, Point { x: 70, y: 30 }),
        (Point { x: 55, y: 30 }, Point { x: 30, y: 70 }),
        (Point { x: 70, y: 30 }, Point { x: 50, y: 65 }),
        (Point { x: 10, y: 110 }, Point { x: 18, y: 100 }),
    ]
}

/// The authored cubic-Bézier table of the digit glyph '3'.
pub open spec fn digit3_bows() -> Seq<(Point, Point, Point, Point)> {
    seq![
        (Point { x: 50, y: 65 }, Point { x: 85, y: 70 }, Point { x: 85, y: 115 }, Point { x: 40, y: 120 }),
        (Point { x: 40, y: 120 }, Point { x: 30, y: 118 }, Point { x: 20, y: 117 }, Point { x: 10, y: 110 }),
        (Point { x: 30, y: 70 }, Point { x: 70, y: 70 }, Point { x: 70, y: 100 }, Point { x: 50, y: 105 }),
        (Point { x: 50, y: 105 }, Point { x: 40, y: 108 }, Point { x: 30, y: 107 }, Point { x: 18, y: 100 }),
    ]
}

/// The digit glyph '3' anchored at (x, y): a flat top and two stacked bows.
pub fn create_digit_3(x: i32, y: i32) -> (r: Number)
    ensures
        r.number == '3',
        r.w == DEFAULT_NUM_WIDTH,
        r.h == DEFAULT_NUM_HEIGHT,
        r.x == x,
        r.y == y,
        r.center == digit_center_of('3'),
        r.lines@.len() == 7,
        r.bezier_curves@.len() == 4,
        glyph_wf(r),
        forall|i: int|
            0 <= i < r.lines@.len() ==> ((#[trigger] r.lines@[i]).controll_points@[0]
                == digit3_segments()[i].0 && r.lines@[i].controll_points@[1]
                == digit3_segments()[i].1),
        forall|i: int|
            0 <= i < r.bezier_curves@.len() ==> ((#[trigger] r.bezier_curves@[i]).controll_points@[0]
                == digit3_bows()[i].0 && r.bezier_curves@[i].controll_points@[1]
                == digit3_bows()[i].1 && r.bezier_curves@[i].controll_points@[2]
                == digit3_bows()[i].2 && r.bezier_curves@[i].controll_points@[3]
                == digit3_bows()[i].3),
        glyph_points_within(r, 0, 200),
{
    let mut lines: Vec<Line> = Vec::new();
    let mut bezier_curves: Vec<CubicBezierCurve> = Vec::new();
    lines.push(seg(10, 20, 70, 20));
    lines.push(seg(10, 20, 10, 30));
    lines.push(seg(10, 30, 55, 30));
    lines.push(seg(70, 20, 70, 30));
    lines.push(seg(55, 30, 30, 70));
    lines.push(seg(70, 30, 50, 65));
    lines.push(seg(10, 110, 18, 100));
    bezier_curves.push(curve4(50, 65, 85, 70, 85, 115, 40, 120));
    bezier_curves.push(curve4(40, 120, 30, 118, 20, 117, 10, 110));
    bezier_curves.push(curve4(30, 70, 70, 70, 70, 100, 50, 105));
    bezier_curves.push(curve4(50, 105, 40, 108, 30, 107, 18, 100));
    Number::new(
        '3',
        DEFAULT_NUM_WIDTH,
        DEFAULT_NUM_HEIGHT,
        x,
        y,
        Point::new(40, 15),
        Some(lines),
        Some(bezier_curves),
    )
}

/// The authored line-segment table of the digit glyph '4'.
pub open spec fn digit4_segments() -> Seq<(Point, Point)> {
    seq![
        (Point { x: 40, y: 20 }, Point { x: 10, y: 80 }),
        (Point { x: 40, y: 45 }, Point { x: 25, y: 80 }),
        (Point { x: 40, y: 45 }, Point { x: 40, y: 80 }),
        (Point { x: 25, y: 80 }, Point { x: 40, y: 80 }),
        (Point { x: 10, y: 80 }, Point { x: 10, y: 90 }),
        (Point { x: 10, y: 90 }, Point { x: 40, y: 90 }),
        (Point { x: 40, y: 90 }, Point { x: 40, y: 120 }),
        (Point { x: 40, y: 20 }, Point { x: 55, y: 20 }),
        (Point { x: 55, y: 20 }, Point { x: 55, y: 80 }),
        (Point { x: 55, y: 80 }, Point { x: 65, y: 80 }),
        (Point { x: 65, y: 80 }, Point { x: 65, y: 90 }),
        (Point { x: 65, y: 90 }, Point { x: 55, y: 90 }),
        (Point { x: 55, y: 90 }, Point { x: 55, y: 120 }),
        (Point { x: 55, y: 120 }, Point { x: 40, y: 120 }),
    ]
}

/// The digit glyph '4' anchored at (x, y): two diagonals, a crossbar and a
/// vertical stroke, all line segments.
pub fn create_digit_4(x: i32, y: i32) -> (r: Number)
    ensures
        r.number == '4',
        r.w == DEFAULT_NUM_WIDTH,
        r.h == DEFAULT_NUM_HEIGHT,
        r.x == x,
        r.y == y,
        r.center == digit_center_of('4'),
        r.lines@.len() == 14,
        r.bezier_curves@.len() == 0,
        glyph_wf(r),
        forall|i: int|
            0 <= i < r.lines@.len() ==> ((#[trigger] r.lines@[i]).controll_points@[0]
                == digit4_segments()[i].0 && r.lines@[i].controll_points@[1]
                == digit4_segments()[i].1),
        glyph_points_within(r, 0, 200),
{
    let mut lines: Vec<Line> = Vec::new();
    lines.push(seg(40, 20, 10, 80));
    lines.push(seg(40, 45, 25, 80));
    lines.push(seg(40, 45, 40, 80));
    lines.push(seg(25, 80, 40, 80));
    lines.push(seg(10, 80, 10, 90));
    lines.push(seg(10, 90, 40, 90));
    lines.push(seg(40, 90, 40, 120));
    lines.push(seg(40, 20, 55, 20));
    lines.push(seg(55, 20, 55, 80));
    lines.push(seg(55, 80, 65, 80));
    lines.push(seg(65, 80, 65, 90));
    lines.push(seg(65, 90, 55, 90));
    lines.push(seg(55, 90, 55, 120));
    lines.push(seg(55, 120, 40, 120));
    Number::new(
        '4',
        DEFAULT_NUM_WIDTH,
        DEFAULT_NUM_HEIGHT,
        x,
        y,
        Point::new(40, 15),
        Some(lines),
        None,
    )
}

/// The authored line-segment table of the digit glyph '5'.
pub open spec fn digit5_segments() -> Seq<(Point, Point)> {
    seq![
        (Point { x: 10, y: 110 }, Point { x: 18, y: 100 }),
        (Point { x: 20, y: 70 }, Point { x: 25, y: 20 }),
        (Point { x: 25, y: 20 }, Point { x: 70, y: 20 }),
        (Point { x: 70, y: 20 }, Point { x: 70, y: 30 }),
        (Point { x: 70, y: 30 }, Point { x: 37, y: 30 }),
        (Point { x: 37, y: 30 }, Point { x: 35, y: 60 }),
    ]
}

/// The authored cubic-Bézier table of the digit glyph '5'.
pub open spec fn digit5_bows() -> Seq<(Point, Point, Point, Point)> {
    seq![
        (Point { x: 35, y: 60 }, Point { x: 85, y: 65 }, Point { x: 85, y: 115 }, Point { x: 40, y: 120 }),
        (Point { x: 40, y: 120 }, Point { x: 30, y: 118 }, Point { x: 20, y: 117 }, Point { x: 10, y: 110 }),
        (Point { x: 20, y: 70 }, Point { x: 70, y: 70 }, Point { x: 70, y: 100 }, Point { x: 50, y: 105 }),
        (Point { x: 50, y: 105 }, Point { x: 40, y: 108 }, Point { x: 30, y: 107 }, Point { x: 18, y: 100 }),
    ]
}

/// The digit glyph '5' anchored at (x, y): a top bar, a stem and two lower
/// bows.
pub fn create_digit_5(x: i32, y: i32) -> (r: Number)
    ensures
        r.number == '5',
        r.w == DEFAULT_NUM_WIDTH,
        r.h == DEFAULT_NUM_HEIGHT,
        r.x == x,
        r.y == y,
        r.center == digit_center_of('5'),
        r.lines@.len() == 6,
        r.bezier_curves@.len() == 4,
        glyph_wf(r),
        forall|i: int|
            0 <= i < r.lines@.len() ==> ((#[trigger] r.lines@[i]).controll_points@[0]
                == digit5_segments()[i].0 && r.lines@[i].controll_points@[1]
                == digit5_segments()[i].1),
        forall|i: int|
            0 <= i < r.bezier_curves@.len() ==> ((#[trigger] r.bezier_curves@[i]).controll_points@[0]
                == digit5_bows()[i].0 && r.bezier_curves@[i].controll_points@[1]
                == digit5_bows()[i].1 && r.bezier_curves@[i].controll_points@[2]
                == digit5_bows()[i].2 && r.bezier_curves@[i].controll_points@[3]
                == digit5_bows()[i].3),
        glyph_points_within(r, 0, 200),
{
    let mut lines: Vec<Line> = Vec::new();
    let mut bezier_curves: Vec<CubicBezierCurve> = Vec::new();
    bezier_curves.push(curve4(35, 60, 85, 65, 85, 115, 40, 120));
    bezier_curves.push(curve4(40, 120, 30, 118, 20, 117, 10, 110));
    bezier_curves.push(curve4(20, 70, 70, 70, 70, 100, 50, 105));
    bezier_curves.push(curve4(50, 105, 40, 108, 30, 107, 18, 100));
    lines.push(seg(10, 110, 18, 100));
    lines.push(seg(20, 70, 25, 20));
    lines.push(seg(25, 20, 70, 20));
    lines.push(seg(70, 20, 70, 30));
    lines.push(seg(70, 30, 37, 30));
    lines.push(seg(37, 30, 35, 60));
    Number::new(
        '5',
        DEFAULT_NUM_WIDTH,
        DEFAULT_NUM_HEIGHT,
        x,
        y,
        Point::new(40, 15),
        Some(lines),
        Some(bezier_curves),
    )
}

/// The authored line-segment table of the digit glyph '6'.
pub open spec fn digit6_segments() -> Seq<(Point, Point)> {
    seq![
        (Point { x: 43, y: 20 }, Point { x: 30, y: 20 }),
    ]
}

/// The authored cubic-Bézier table of the digit glyph '6'.
pub open spec fn digit6_bows() -> Seq<(Point, Point, Point, Point)> {
    seq![
        (Point { x: 30, y: 20 }, Point { x: 14, y: 50 }, Point { x: 12, y: 60 }, Point { x: 10, y: 80 }),
        (Point { x: 10, y: 80 }, Point { x: 15, y: 130 }, Point { x: 65, y: 130 }, Point { x: 70, y: 90 }),
        (Point { x: 70, y: 90 }, Point { x: 69, y: 55 }, Point { x: 35, y: 55 }, Point { x: 30, y: 60 }),
        (Point { x: 30, y: 60 }, Point { x: 33, y: 50 }, Point { x: 36, y: 30 }, Point { x: 43, y: 20 }),
        (Point { x: 25, y: 90 }, Point { x: 30, y: 110 }, Point { x: 50, y: 110 }, Point { x: 55, y: 90 }),
        (Point { x: 25, y: 90 }, Point { x: 30, y: 70 }, Point { x: 50, y: 70 }, Point { x: 55, y: 90 }),
    ]
}

/// The digit glyph '6' anchored at (x, y): an outer hook and an inner loop
/// of Bézier bows.
pub fn create_digit_6(x: i32, y: i32) -> (r: Number)
    ensures
        r.number == '6',
        r.w == DEFAULT_NUM_WIDTH,
        r.h == DEFAULT_NUM_HEIGHT,
        r.x == x,
        r.y == y,
        r.center == digit_center_of('6'),
        r.lines@.len() == 1,
        r.bezier_curves@.len() == 6,
        glyph_wf(r),
        forall|i: int|
            0 <= i < r.lines@.len() ==> ((#[trigger] r.lines@[i]).controll_points@[0]
                == digit6_segments()[i].0 && r.lines@[i].controll_points@[1]
                == digit6_segments()[i].1),
        forall|i: int|
            0 <= i < r.bezier_curves@.len() ==> ((#[trigger] r.bezier_curves@[i]).controll_points@[0]
                == digit6_bows()[i].0 && r.bezier_curves@[i].controll_points@[1]
                == digit6_bows()[i].1 && r.bezier_curves@[i].controll_points@[2]
                == digit6_bows()[i].2 && r.bezier_curves@[i].controll_points@[3]
                == digit6_bows()[i].3),
        glyph_points_within(r, 0, 200),
{
    let mut lines: Vec<Line> = Vec::new();
    let mut bezier_curves: Vec<CubicBezierCurve> = Vec::new();
    bezier_curves.push(curve4(30, 20, 14, 50, 12, 60, 10, 80));
    bezier_curves.push(curve4(10, 80, 15, 130, 65, 130, 70, 90));
    bezier_curves.push(curve4(70, 90, 69, 55, 35, 55, 30, 60));
    bezier_curves.push(curve4(30, 60, 33, 50, 36, 30, 43, 20));
    lines.push(seg(43, 20, 30, 20));
    bezier_curves.push(curve4(25, 90, 30, 110, 50, 110, 55, 90));
    bezier_curves.push(curve4(25, 90, 30, 70, 50, 70, 55, 90));
    Number::new(
        '6',
        DEFAULT_NUM_WIDTH,
        DEFAULT_NUM_HEIGHT,
        x,
        y,
        Point::new(40, 15),
        Some(lines),
        Some(bezier_curves),
    )
}

/// The authored line-segment table of the digit glyph '7'.
pub open spec fn digit7_segments() -> Seq<(Point, Point)> {
    seq![
        (Point { x: 10, y: 20 }, Point { x: 70, y: 20 }),
        (Point { x: 10, y: 20 }, Point { x: 10, y: 30 }),
        (Point { x: 70, y: 20 }, Point { x: 70, y: 30 }),
        (Point { x: 25, y: 30 }, Point { x: 55, y: 30 }),
        (Point { x: 25, y: 30 }, Point { x: 25, y: 40 }),
        (Point { x: 25, y: 40 }, Point { x: 10, y: 40 }),
        (Point { x: 10, y: 40 }, Point { x: 10, y: 20 }),
        (Point { x: 70, y: 30 }, Point { x: 25, y: 120 }),
        (Point { x: 55, y: 30 }, Point { x: 10, y: 120 }),
        (Point { x: 10, y: 120 }, Point { x: 25, y: 120 }),
    ]
}

/// The digit glyph '7' anchored at (x, y): a top bar and a long diagonal,
/// all line segments.
pub fn create_digit_7(x: i32, y: i32) -> (r: Number)
    ensures
        r.number == '7',
        r.w == DEFAULT_NUM_WIDTH,
        r.h == DEFAULT_NUM_HEIGHT,
        r.x == x,
        r.y == y,
        r.center == digit_center_of('7'),
        r.lines@.len() == 10,
        r.bezier_curves@.len() == 0,
        glyph_wf(r),
        forall|i: int|
            0 <= i < r.lines@.len() ==> ((#[trigger] r.lines@[i]).controll_points@[0]
                == digit7_segments()[i].0 && r.lines@[i].controll_points@[1]
                == digit7_segments()[i].1),
        glyph_points_within(r, 0, 200),
{
    let mut lines: Vec<Line> = Vec::new();
    lines.push(seg(10, 20, 70, 20));
    lines.push(seg(10, 20, 10, 30));
    lines.push(seg(70, 20, 70, 30));
    lines.push(seg(25, 30, 55, 30));
    lines.push(seg(25, 30, 25, 40));
    lines.push(seg(25, 40, 10, 40));
    lines.push(seg(10, 40, 10, 20));
    lines.push(seg(70, 30, 25, 120));
    lines.push(seg(55, 30, 10, 120));
    lines.push(seg(10, 120, 25, 120));
    Number::new(
        '7',
        DEFAULT_NUM_WIDTH,
        DEFAULT_NUM_HEIGHT,
        x,
        y,
        Point::new(40, 15),
        Some(lines),
        None,
    )
}

/// The authored cubic-Bézier table of the digit glyph '8'.
pub open spec fn digit8_bows() -> Seq<(Point, Point, Point, Point)> {
    seq![
        (Point { x: 30, y: 20 }, Point { x: 35, y: 17 }, Point { x: 45, y: 17 }, Point { x: 50, y: 20 }),
        (Point { x: 30, y: 20 }, Point { x: 10, y: 30 }, Point { x: 10, y: 60 }, Point { x: 30, y: 70 }),
        (Point { x: 50, y: 20 }, Point { x: 70, y: 30 }, Point { x: 70, y: 60 }, Point { x: 50, y: 70 }),
        (Point { x: 30, y: 118 }, Point { x: 10, y: 108 }, Point { x: 10, y: 78 }, Point { x: 30, y: 68 }),
        (Point { x: 50, y: 118 }, Point { x: 70, y: 108 }, Point { x: 70, y: 78 }, Point { x: 50, y: 68 }),
        (Point { x: 30, y: 118 }, Point { x: 35, y: 121 }, Point { x: 45, y: 121 }, Point { x: 50, y: 118 }),
        (Point { x: 55, y: 45 }, Point { x: 50, y: 25 }, Point { x: 30, y: 25 }, Point { x: 25, y: 45 }),
        (Point { x: 55, y: 45 }, Point { x: 50, y: 65 }, Point { x: 30, y: 65 }, Point { x: 25, y: 45 }),
        (Point { x: 55, y: 95 }, Point { x: 50, y: 115 }, Point { x: 30, y: 115 }, Point { x: 25, y: 95 }),
        (Point { x: 55, y: 95 }, Point { x: 50, y: 75 }, Point { x: 30, y: 75 }, Point { x: 25, y: 95 }),
    ]
}

/// The digit glyph '8' anchored at (x, y): two stacked rings of Bézier
/// bows.
pub fn create_digit_8(x: i32, y: i32) -> (r: Number)
    ensures
        r.number == '8',
        r.w == DEFAULT_NUM_WIDTH,
        r.h == DEFAULT_NUM_HEIGHT,
        r.x == x,
        r.y == y,
        r.center == digit_center_of('8'),
        r.lines@.len() == 0,
        r.bezier_curves@.len() == 10,
        glyph_wf(r),
        forall|i: int|
            0 <= i < r.bezier_curves@.len() ==> ((#[trigger] r.bezier_curves@[i]).controll_points@[0]
                == digit8_bows()[i].0 && r.bezier_curves@[i].controll_points@[1]
                == digit8_bows()[i].1 && r.bezier_curves@[i].controll_points@[2]
                == digit8_bows()[i].2 && r.bezier_curves@[i].controll_points@[3]
                == digit8_bows()[i].3),
        glyph_points_within(r, 0, 200),
{
    let mut bezier_curves: Vec<CubicBezierCurve> = Vec::new();
    bezier_curves.push(curve4(30, 20, 35, 17, 45, 17, 50, 20));
    bezier_curves.push(curve4(30, 20, 10, 30, 10, 60, 30, 70));
    bezier_curves.push(curve4(50, 20, 70, 30, 70, 60, 50, 70));
    bezier_curves.push(curve4(30, 118, 10, 108, 10, 78, 30, 68));
    bezier_curves.push(curve4(50, 118, 70, 108, 70, 78, 50, 68));
    bezier_curves.push(curve4(30, 118, 35, 121, 45, 121, 50, 118));
    bezier_curves.push(curve4(55, 45, 50, 25, 30, 25, 25, 45));
    bezier_curves.push(curve4(55, 45, 50, 65, 30, 65, 25, 45));
    bezier_curves.push(curve4(55, 95, 50, 115, 30, 115, 25, 95));
    bezier_curves.push(curve4(55, 95, 50, 75, 30, 75, 25, 95));
    Number::new(
        '8',
        DEFAULT_NUM_WIDTH,
        DEFAULT_NUM_HEIGHT,
        x,
        y,
        Point::new(40, 15),
        None,
        Some(bezier_curves),
    )
}

/// The authored line-segment table of the digit glyph '9'.
pub open spec fn digit9_segments() -> Seq<(Point, Point)> {
    seq![
        (Point { x: 37, y: 120 }, Point { x: 50, y: 120 }),
    ]
}

/// The authored cubic-Bézier table of the digit glyph '9'.
pub open spec fn digit9_bows() -> Seq<(Point, Point, Point, Point)> {
    seq![
        (Point { x: 50, y: 120 }, Point { x: 66, y: 90 }, Point { x: 68, y: 80 }, Point { x: 70, y: 60 }),
        (Point { x: 70, y: 60 }, Point { x: 65, y: 10 }, Point { x: 15, y: 10 }, Point { x: 10, y: 50 }),
        (Point { x: 10, y: 50 }, Point { x: 11, y: 85 }, Point { x: 45, y: 85 }, Point { x: 50, y: 80 }),
        (Point { x: 50, y: 80 }, Point { x: 47, y: 90 }, Point { x: 44, y: 110 }, Point { x: 37, y: 120 }),
        (Point { x: 55, y: 50 }, Point { x: 50, y: 30 }, Point { x: 30, y: 30 }, Point { x: 25, y: 50 }),
        (Point { x: 55, y: 50 }, Point { x: 50, y: 70 }, Point { x: 30, y: 70 }, Point { x: 25, y: 50 }),
    ]
}

/// The digit glyph '9' anchored at (x, y): an upper loop and a descending
/// tail of Bézier bows.
pub fn create_digit_9(x: i32, y: i32) -> (r: Number)
    ensures
        r.number == '9',
        r.w == DEFAULT_NUM_WIDTH,
        r.h == DEFAULT_NUM_HEIGHT,
        r.x == x,
        r.y == y,
        r.center == digit_center_of('9'),
        r.lines@.len() == 1,
        r.bezier_curves@.len() == 6,
        glyph_wf(r),
        forall|i: int|
            0 <= i < r.lines@.len() ==> ((#[trigger] r.lines@[i]).controll_points@[0]
                == digit9_segments()[i].0 && r.lines@[i].controll_points@[1]
                == digit9_segments()[i].1),
        forall|i: int|
            0 <= i < r.bezier_curves@.len() ==> ((#[trigger] r.bezier_curves@[i]).controll_points@[0]
                == digit9_bows()[i].0 && r.bezier_curves@[i].controll_points@[1]
                == digit9_bows()[i].1 && r.bezier_curves@[i].controll_points@[2]
                == digit9_bows()[i].2 && r.bezier_curves@[i].controll_points@[3]
                == digit9_bows()[i].3),
        glyph_points_within(r, 0, 200),
{
    let mut lines: Vec<Line> = Vec::new();
    let mut bezier_curves: Vec<CubicBezierCurve> = Vec::new();
    bezier_curves.push(curve4(50, 120, 66, 90, 68, 80, 70, 60));
    bezier_curves.push(curve4(70, 60, 65, 10, 15, 10, 10, 50));
    bezier_curves.push(curve4(10, 50, 11, 85, 45, 85, 50, 80));
    bezier_curves.push(curve4(50, 80, 47, 90, 44, 110, 37, 120));
    lines.push(seg(37, 120, 50, 120));
    bezier_curves.push(curve4(55, 50, 50, 30, 30, 30, 25, 50));
    bezier_curves.push(curve4(55, 50, 50, 70, 30, 70, 25, 50));
    Number::new(
        '9',
        DEFAULT_NUM_WIDTH,
        DEFAULT_NUM_HEIGHT,
        x,
        y,
        Point::new(40, 15),
        Some(lines),
        Some(bezier_curves),
    )
}

/// Whether a character names one of the ten digit glyphs.
pub open spec fn is_digit_char(c: char) -> bool {
    c == '0' || c == '1' || c == '2' || c == '3' || c == '4' || c == '5' || c == '6' || c == '7'
        || c == '8' || c == '9'
}

/// The authored line-segment table of a digit character.
pub open spec fn digit_segments_of(c: char) -> Seq<(Point, Point)> {
    if c == '1' {
        digit1_segments()
    } else if c == '2' {
        digit2_segments()
    } else if c == '3' {
        digit3_segments()
    } else if c == '4' {
        digit4_segments()
    } else if c == '5' {
        digit5_segments()
    } else if c == '6' {
        digit6_segments()
    } else if c == '7' {
        digit7_segments()
    } else if c == '9' {
        digit9_segments()
    } else {
        Seq::empty()
    }
}

/// The authored cubic-Bézier table of a digit character.
pub open spec fn digit_bows_of(c: char) -> Seq<(Point, Point, Point, Point)> {
    if c == '0' {
        digit0_bows()
    } else if c == '2' {
        digit2_bows()
    } else if c == '3' {
        digit3_bows()
    } else if c == '5' {
        digit5_bows()
    } else if c == '6' {
        digit6_bows()
    } else if c == '8' {
        digit8_bows()
    } else if c == '9' {
        digit9_bows()
    } else {
        Seq::empty()
    }
}

/// The authored visual center of a digit character's glyph.
pub open spec fn digit_center_of(c: char) -> Point {
    if c == '0' {
        Point { x: 40, y: 25 }
    } else if c == '1' || c == '2' {
        Point { x: 40, y: 30 }
    } else {
        Point { x: 40, y: 15 }
    }
}

/// A glyph that carries exactly the authored tables of its character:
/// one two-point line primitive per table segment, one four-point curve
/// primitive per table bow, and the authored center.
pub open spec fn glyph_matches_tables(n: Number) -> bool {
    &&& n.lines@.len() == digit_segments_of(n.number).len()
    &&& forall|i: int|
        0 <= i < n.lines@.len() ==> ((#[trigger] n.lines@[i]).controll_points@.len() == 2
            && n.lines@[i].controll_points@[0] == digit_segments_of(n.number)[i].0
            && n.lines@[i].controll_points@[1] == digit_segments_of(n.number)[i].1)
    &&& n.bezier_curves@.len() == digit_bows_of(n.number).len()
    &&& forall|i: int|
        0 <= i < n.bezier_curves@.len() ==> ((#[trigger] n.bezier_curves@[i]).controll_points@.len()
            == 4 && n.bezier_curves@[i].controll_points@[0] == digit_bows_of(n.number)[i].0
            && n.bezier_curves@[i].controll_points@[1] == digit_bows_of(n.number)[i].1
            && n.bezier_curves@[i].controll_points@[2] == digit_bows_of(n.number)[i].2
            && n.bezier_curves@[i].controll_points@[3] == digit_bows_of(n.number)[i].3)
    &&& n.center == digit_center_of(n.number)
}

/// Builds the glyph of a digit character, anchored at (x, y). Exactly the
/// characters '0' through '9' are recognized; any other character yields the
/// explicit not-found result. A recognized digit always carries a non-empty
/// list of shapes.
pub fn create_digit(number: char, x: i32, y: i32) -> (r: Option<Number>)
    ensures
        r is Some <==> is_digit_char(number),
        r is Some ==> {
            let n = r->0;
            &&& n.number == number
            &&& n.w == DEFAULT_NUM_WIDTH
            &&& n.h == DEFAULT_NUM_HEIGHT
            &&& n.x == x
            &&& n.y == y
            &&& glyph_wf(n)
            &&& glyph_points_within(n, 0, 200)
            &&& glyph_matches_tables(n)
            &&& n.lines@.len() + n.bezier_curves@.len() > 0
        },
{
    match number {
        '0' => Some(create_digit_0(x, y)),
        '1' => Some(create_digit_1(x, y)),
        '2' => Some(create_digit_2(x, y)),
        '3' => Some(create_digit_3(x, y)),
        '4' => Some(create_digit_4(x, y)),
        '5' => Some(create_digit_5(x, y)),
        '6' => Some(create_digit_6(x, y)),
        '7' => Some(create_digit_7(x, y)),
        '8' => Some(create_digit_8(x, y)),
        '9' => Some(create_digit_9(x, y)),
        _ => None,
    }
}

/// Whether one of the first k line primitives passes through (x, y).
pub open spec fn lines_hit_upto(ls: Seq<Line>, k: int, x: int, y: int) -> bool {
    exists|i: int|
        0 <= i < k && (#[trigger] ls[i]).controll_points@.len() >= 2 && line_pixels(
            ls[i].controll_points@[0],
            ls[i].controll_points@[1],
        ).contains(pix(x, y))
}

/// Whether one of the first k curve primitives passes through (x, y).
pub open spec fn curves_hit_upto(cs: Seq<CubicBezierCurve>, k: int, x: int, y: int) -> bool {
    exists|i: int|
        0 <= i < k && (#[trigger] cs[i]).controll_points@.len() >= 4 && cubic_hit(
            cs[i].controll_points@[0],
            cs[i].controll_points@[1],
            cs[i].controll_points@[2],
            cs[i].controll_points@[3],
            x,
            y,
        )
}

/// Whether some primitive of the glyph passes through (x, y).
pub open spec fn glyph_hit(n: Number, x: int, y: int) -> bool {
    ||| lines_hit_upto(n.lines@, n.lines@.len() as int, x, y)
    ||| curves_hit_upto(n.bezier_curves@, n.bezier_curves@.len() as int, x, y)
}

/// One more line primitive adds exactly its own pixels to the hit set.
proof fn lemma_lines_hit_extend(ls: Seq<Line>, k: int, x: int, y: int)
    requires
        0 <= k < ls.len(),
    ensures
        lines_hit_upto(ls, k + 1, x, y) <==> (lines_hit_upto(ls, k, x, y) || (
        ls[k].controll_points@.len() >= 2 && line_pixels(
            ls[k].controll_points@[0],
            ls[k].controll_points@[1],
        ).contains(pix(x, y)))),
{
    if lines_hit_upto(ls, k + 1, x, y) {
        let i = choose|i: int|
            0 <= i < k + 1 && (#[trigger] ls[i]).controll_points@.len() >= 2 && line_pixels(
                ls[i].controll_points@[0],
                ls[i].controll_points@[1],
            ).contains(pix(x, y));
        if i < k {
            assert(lines_hit_upto(ls, k, x, y));
        }
    }
}

/// One more curve primitive adds exactly its own pixels to the hit set.
proof fn lemma_curves_hit_extend(cs: Seq<CubicBezierCurve>, k: int, x: int, y: int)
    requires
        0 <= k < cs.len(),
    ensures
        curves_hit_upto(cs, k + 1, x, y) <==> (curves_hit_upto(cs, k, x, y) || (
        cs[k].controll_points@.len() >= 4 && cubic_hit(
            cs[k].controll_points@[0],
            cs[k].controll_points@[1],
            cs[k].controll_points@[2],
            cs[k].controll_points@[3],
            x,
            y,
        ))),
{
    if curves_hit_upto(cs, k + 1, x, y) {
        let i = choose|i: int|
            0 <= i < k + 1 && (#[trigger] cs[i]).controll_points@.len() >= 4 && cubic_hit(
                cs[i].controll_points@[0],
                cs[i].controll_points@[1],
                cs[i].controll_points@[2],
                cs[i].controll_points@[3],
                x,
                y,
            );
        if i < k {
            assert(curves_hit_upto(cs, k, x, y));
        }
    }
}

/// The surface `mid` is `orig` with the glyph's outline painted in the
/// opaque form of `color`.
pub open spec fn glyph_painted(orig: Surface, mid: Surface, n: Number, color: u32) -> bool {
    &&& mid.wf()
    &&& mid.same_size(orig)
    &&& forall|x: int, y: int|
        mid.in_bounds(x, y) ==> #[trigger] mid.at(x, y) == (if glyph_hit(n, x, y) {
            opaque(color)
        } else {
            orig.at(x, y)
        })
}

/// The surface `fin` is `mid` after a flood fill seeded at `seed` with
/// `fill`: a no-op when the seed already holds the fill color, and exactly
/// the seed's 4-connected region otherwise.
pub open spec fn fill_applied(mid: Surface, fin: Surface, seed: Point, fill: u32) -> bool {
    &&& fin.wf()
    &&& fin.same_size(mid)
    &&& (mid.at(seed.x as int, seed.y as int) == fill ==> fin.grid() == mid.grid())
    &&& (mid.at(seed.x as int, seed.y as int) != fill ==> forall|x: int, y: int|
        fin.in_bounds(x, y) ==> #[trigger] fin.at(x, y) == (if in_region(mid, seed, pix(x, y)) {
            fill
        } else {
            mid.at(x, y)
        }))
}

/// The surface `fin` is `orig` with the glyph drawn: its outline painted,
/// and, when `fill` was requested, flood-filled from the glyph's anchor with
/// color 0.
pub open spec fn number_drawn(orig: Surface, fin: Surface, n: Number, color: u32, fill: bool) -> bool {
    if fill {
        exists|mid: Surface|
            #[trigger] glyph_painted(orig, mid, n, color) && fill_applied(
                mid,
                fin,
                (Point { x: n.x, y: n.y }),
                0,
            )
    } else {
        glyph_painted(orig, fin, n, color)
    }
}

impl Number {
    /// Draws every primitive of the glyph in the opaque form of `color`;
    /// with `fill`, afterwards flood fills from the glyph's anchor with
    /// color 0.
    pub fn draw(&self, color: u32, fill: bool, surface: &mut Surface)
        requires
            old(surface).wf(),
            forall|i: int|
                0 <= i < self.lines@.len() ==> (#[trigger] self.lines@[i]).controll_points@.len()
                    >= 2,
            fill ==> old(surface).in_bounds(self.x as int, self.y as int),
        ensures
            final(surface).wf(),
            final(surface).same_size(*old(surface)),
            number_drawn(*old(surface), *final(surface), *self, color, fill),
    {
        let ghost orig: Surface = *surface;
        let mut i: usize = 0;
        while i < self.lines.len()
            invariant
                surface.wf(),
                surface.same_size(orig),
                orig.wf(),
                i <= self.lines@.len(),
                forall|k: int|
                    0 <= k < self.lines@.len() ==> (#[trigger] self.lines@[k]).controll_points@.len()
                        >= 2,
                forall|x: int, y: int|
                    surface.in_bounds(x, y) ==> #[trigger] surface.at(x, y) == (if lines_hit_upto(
                        self.lines@,
                        i as int,
                        x,
                        y,
                    ) {
                        opaque(color)
                    } else {
                        orig.at(x, y)
                    }),
            decreases self.lines@.len() - i,
        {
            let ghost pre: Surface = *surface;
            self.lines[i].draw(color, surface);
            proof {
                assert forall|x: int, y: int| surface.in_bounds(x, y) implies #[trigger] surface.at(
                    x,
                    y,
                ) == (if lines_hit_upto(self.lines@, i as int + 1, x, y) {
                    opaque(color)
                } else {
                    orig.at(x, y)
                }) by {
                    lemma_lines_hit_extend(self.lines@, i as int, x, y);
                    assert(pre.at(x, y) == (if lines_hit_upto(self.lines@, i as int, x, y) {
                        opaque(color)
                    } else {
                        orig.at(x, y)
                    }));
                }
            }
            i = i + 1;
        }
        let mut j: usize = 0;
        while j < self.bezier_curves.len()
            invariant
                surface.wf(),
                surface.same_size(orig),
                orig.wf(),
                j <= self.bezier_curves@.len(),
                forall|x: int, y: int|
                    surface.in_bounds(x, y) ==> #[trigger] surface.at(x, y) == (if lines_hit_upto(
                        self.lines@,
                        self.lines@.len() as int,
                        x,
                        y,
                    ) || curves_hit_upto(self.bezier_curves@, j as int, x, y) {
                        opaque(color)
                    } else {
                        orig.at(x, y)
                    }),
            decreases self.bezier_curves@.len() - j,
        {
            let ghost pre: Surface = *surface;
            self.bezier_curves[j].draw(color, surface);
            proof {
                assert forall|x: int, y: int| surface.in_bounds(x, y) implies #[trigger] surface.at(
                    x,
                    y,
                ) == (if lines_hit_upto(self.lines@, self.lines@.len() as int, x, y)
                    || curves_hit_upto(self.bezier_curves@, j as int + 1, x, y) {
                    opaque(color)
                } else {
                    orig.at(x, y)
                }) by {
                    lemma_curves_hit_extend(self.bezier_curves@, j as int, x, y);
                    assert(pre.at(x, y) == (if lines_hit_upto(
                        self.lines@,
                        self.lines@.len() as int,
                        x,
                        y,
                    ) || curves_hit_upto(self.bezier_curves@, j as int, x, y) {
                        opaque(color)
                    } else {
                        orig.at(x, y)
                    }));
                }
            }
            j = j + 1;
        }
        proof {
            assert(glyph_painted(orig, *surface, *self, color));
        }
        if fill {
            let ghost mid: Surface = *surface;
            flood_fill(Point::new(self.x, self.y), 0, surface);
            proof {
                assert(fill_applied(mid, *surface, (Point { x: self.x, y: self.y }), 0));
                assert(glyph_painted(orig, mid, *self, color) && fill_applied(
                    mid,
                    *surface,
                    (Point { x: self.x, y: self.y }),
                    0,
                ));
            }
        }
    }
}

/// A left-to-right series of digit glyphs sharing one anchor: each glyph is
/// advanced by the fixed advance width, moved to the anchor, then uniformly
/// scaled and rotated about the anchor.
pub struct NumberSeries {
    pub x: i32,
    pub y: i32,
    pub number_str: String,
    pub numbers: Vec<Number>,
}

/// Structural well-formedness of a series: one glyph per character, each
/// carrying its character, the nominal box, and the glyph-local anchor at
/// its multiple of the advance width.
pub open spec fn series_wf(s: NumberSeries) -> bool {
    &&& s.numbers@.len() == s.number_str@.len()
    &&& forall|g: int|
        0 <= g < s.numbers@.len() ==> {
            let n = #[trigger] s.numbers@[g];
            &&& n.number == s.number_str@[g]
            &&& n.w == DEFAULT_NUM_WIDTH
            &&& n.h == DEFAULT_NUM_HEIGHT
            &&& n.x == 80 * g
            &&& n.y == 0
            &&& glyph_wf(n)
        }
}

/// Where the glyph placement pipeline of a series puts a local glyph point:
/// advanced to slot g and moved to the anchor, then scaled and rotated, the
/// last two about the anchor `sp`.
pub open spec fn placed_pt(
    p: Point,
    g: int,
    sp: Point,
    s_num: int,
    s_den: int,
    cos_num: int,
    sin_num: int,
    r_den: int,
) -> Point {
    rotate_about_pt(
        scale_about_pt(translate_pt(p, 80 * g + sp.x, sp.y as int), s_num, s_den, sp),
        cos_num,
        sin_num,
        r_den,
        sp,
    )
}

/// A glyph of series slot g whose every control point sits exactly where
/// the placement pipeline puts the authored table points of the character
/// c, and whose center is the authored center moved to the slot (the scale
/// and rotation leave the center where the advance put it).
pub open spec fn glyph_placed(
    n: Number,
    c: char,
    g: int,
    sp: Point,
    s_num: int,
    s_den: int,
    cos_num: int,
    sin_num: int,
    r_den: int,
) -> bool {
    &&& n.lines@.len() == digit_segments_of(c).len()
    &&& forall|i: int|
        0 <= i < n.lines@.len() ==> ((#[trigger] n.lines@[i]).controll_points@.len() == 2
            && n.lines@[i].controll_points@[0] == placed_pt(
            digit_segments_of(c)[i].0,
            g,
            sp,
            s_num,
            s_den,
            cos_num,
            sin_num,
            r_den,
        ) && n.lines@[i].controll_points@[1] == placed_pt(
            digit_segments_of(c)[i].1,
            g,
            sp,
            s_num,
            s_den,
            cos_num,
            sin_num,
            r_den,
        ))
    &&& n.bezier_curves@.len() == digit_bows_of(c).len()
    &&& forall|i: int|
        0 <= i < n.bezier_curves@.len() ==> ((#[trigger] n.bezier_curves@[i]).controll_points@.len()
            == 4 && n.bezier_curves@[i].controll_points@[0] == placed_pt(
            digit_bows_of(c)[i].0,
            g,
            sp,
            s_num,
            s_den,
            cos_num,
            sin_num,
            r_den,
        ) && n.bezier_curves@[i].controll_points@[1] == placed_pt(
            digit_bows_of(c)[i].1,
            g,
            sp,
            s_num,
            s_den,
            cos_num,
            sin_num,
            r_den,
        ) && n.bezier_curves@[i].controll_points@[2] == placed_pt(
            digit_bows_of(c)[i].2,
            g,
            sp,
            s_num,
            s_den,
            cos_num,
            sin_num,
            r_den,
        ) && n.bezier_curves@[i].controll_points@[3] == placed_pt(
            digit_bows_of(c)[i].3,
            g,
            sp,
            s_num,
            s_den,
            cos_num,
            sin_num,
            r_den,
        ))
    &&& n.center == translate_pt(digit_center_of(c), 80 * g + sp.x, sp.y as int)
}

/// Every coordinate of the whole glyph placement pipeline stays within the
/// 32-bit range, for one control point of a freshly created glyph: the
/// advance to slot g, the move to the pivot's origin, the scale, the move
/// back, and the same round trip for the rotation.
proof fn lemma_series_pt_bounds(
    p: Point,
    g: int,
    sp: Point,
    s_num: int,
    s_den: int,
    cos_num: int,
    sin_num: int,
    r_den: int,
)
    requires
        0 <= p.x <= 200,
        0 <= p.y <= 200,
        0 <= g < 1000,
        -1000000 <= sp.x <= 1000000,
        -1000000 <= sp.y <= 1000000,
        0 < s_den <= 1000000,
        -400 * s_den <= s_num <= 400 * s_den,
        0 < r_den <= 1000000,
        -r_den <= cos_num <= r_den,
        -r_den <= sin_num <= r_den,
    ensures
        ({
            let t = translate_pt(p, 80 * g + sp.x, sp.y as int);
            let q = scale_about_pt(t, s_num, s_den, sp);
            &&& can_translate_pt(p, 80 * g + sp.x, sp.y as int)
            &&& can_translate_pt(t, -sp.x, -sp.y)
            &&& can_translate_pt(
                scale_pt(translate_pt(t, -sp.x, -sp.y), s_num, s_den),
                sp.x as int,
                sp.y as int,
            )
            &&& can_translate_pt(q, -sp.x, -sp.y)
            &&& can_translate_pt(
                rotate_pt(translate_pt(q, -sp.x, -sp.y), cos_num, sin_num, r_den),
                sp.x as int,
                sp.y as int,
            )
        }),
{
    let t = translate_pt(p, 80 * g + sp.x, sp.y as int);
    assert(sp.x <= t.x <= sp.x + 80120 && sp.y <= t.y <= sp.y + 200);
    let u = translate_pt(t, -sp.x, -sp.y);
    assert(0 <= u.x <= 80120 && 0 <= u.y <= 200);
    assert(-32048000 * s_den <= u.x * s_num <= 32048000 * s_den && -32048000 * s_den <= u.y * s_num
        <= 32048000 * s_den) by (nonlinear_arith)
        requires
            0 <= u.x <= 80120,
            0 <= u.y <= 200,
            -400 * s_den <= s_num <= 400 * s_den,
            s_den > 0,
    ;
    lemma_trunc_div_bound(u.x * s_num, s_den, 32048000);
    lemma_trunc_div_bound(u.y * s_num, s_den, 32048000);
    let v = scale_pt(u, s_num, s_den);
    assert(-32048000 <= v.x <= 32048000 && -32048000 <= v.y <= 32048000);
    let q = translate_pt(v, sp.x as int, sp.y as int);
    assert(q == scale_about_pt(t, s_num, s_den, sp));
    let u2 = translate_pt(q, -sp.x, -sp.y);
    assert(u2.x == v.x && u2.y == v.y);
    assert(-64096000 * r_den <= u2.x * cos_num - u2.y * sin_num <= 64096000 * r_den && -64096000
        * r_den <= u2.x * sin_num + u2.y * cos_num <= 64096000 * r_den) by (nonlinear_arith)
        requires
            -32048000 <= u2.x <= 32048000,
            -32048000 <= u2.y <= 32048000,
            -r_den <= cos_num <= r_den,
            -r_den <= sin_num <= r_den,
            r_den > 0,
    ;
    lemma_trunc_div_bound(u2.x * cos_num - u2.y * sin_num, r_den, 64096000);
    lemma_trunc_div_bound(u2.x * sin_num + u2.y * cos_num, r_den, 64096000);
}

impl NumberSeries {
    /// Builds the series of the digit string anchored at (x, y): glyph g is
    /// advanced by g times the advance width and moved to the anchor, then
    /// every glyph is scaled by s_num / s_den and rotated by the angle with
    /// cosine cos_num / r_den and sine sin_num / r_den, all about the
    /// anchor. The string must be non-empty and all its characters digits;
    /// the anchor and factor bounds keep every coordinate within the 32-bit
    /// range.
    pub fn new(
        x: i32,
        y: i32,
        number_str: String,
        s_num: i32,
        s_den: i32,
        cos_num: i32,
        sin_num: i32,
        r_den: i32,
    ) -> (r: NumberSeries)
        requires
            1 <= number_str@.len() <= 1000,
            forall|i: int| 0 <= i < number_str@.len() ==> is_digit_char(#[trigger] number_str@[i]),
            -1000000 <= x <= 1000000,
            -1000000 <= y <= 1000000,
            0 < s_den <= 1000000,
            -400 * s_den <= s_num <= 400 * s_den,
            0 < r_den <= 1000000,
            -r_den <= cos_num <= r_den,
            -r_den <= sin_num <= r_den,
        ensures
            r.x == x,
            r.y == y,
            r.number_str@ == number_str@,
            series_wf(r),
            forall|g: int|
                0 <= g < r.numbers@.len() ==> glyph_placed(
                    #[trigger] r.numbers@[g],
                    r.number_str@[g],
                    g,
                    (Point { x, y }),
                    s_num as int,
                    s_den as int,
                    cos_num as int,
                    sin_num as int,
                    r_den as int,
                ),
    {
        let sp = Point::new(x, y);
        let s_ref: &str = number_str.as_str();
        proof {
            assert forall|i: int|
                0 <= i < number_str@.len() implies '\0' <= #[trigger] number_str@[i]
                <= '\u{7f}' by {
                assert(is_digit_char(number_str@[i]));
            }
            assert(vstd::utf8::is_ascii_chars(number_str@));
            assert(vstd::string::is_ascii(s_ref));
            vstd::string::is_ascii_spec_bytes(s_ref);
        }
        let n_chars: usize = s_ref.len();
        let bytes: &[u8] = s_ref.as_bytes();
        let mut numbers: Vec<Number> = Vec::new();
        let mut idx: usize = 0;
        while idx < n_chars
            invariant
                number_str@.len() == n_chars,
                1 <= n_chars <= 1000,
                bytes@.len() == n_chars,
                forall|i: int|
                    0 <= i < number_str@.len() ==> is_digit_char(#[trigger] number_str@[i]),
                forall|i: int|
                    0 <= i < number_str@.len() ==> bytes@[i] == (#[trigger] number_str@[i]) as u8,
                sp.x == x && sp.y == y,
                -1000000 <= x <= 1000000,
                -1000000 <= y <= 1000000,
                0 < s_den <= 1000000,
                -400 * s_den <= s_num <= 400 * s_den,
                0 < r_den <= 1000000,
                -r_den <= cos_num <= r_den,
                -r_den <= sin_num <= r_den,
                idx <= n_chars,
                numbers@.len() == idx,
                forall|g: int|
                    0 <= g < idx ==> {
                        let n = #[trigger] numbers@[g];
                        &&& n.number == number_str@[g]
                        &&& n.w == DEFAULT_NUM_WIDTH
                        &&& n.h == DEFAULT_NUM_HEIGHT
                        &&& n.x == 80 * g
                        &&& n.y == 0
                        &&& glyph_wf(n)
                    },
                forall|g: int|
                    0 <= g < idx ==> glyph_placed(
                        #[trigger] numbers@[g],
                        number_str@[g],
                        g,
                        sp,
                        s_num as int,
                        s_den as int,
                        cos_num as int,
                        sin_num as int,
                        r_den as int,
                    ),
            decreases n_chars - idx,
        {
            let b: u8 = bytes[idx];
            let ch: char = b as char;
            proof {
                assert(ch == number_str@[idx as int]);
            }
            let gx: i32 = 80 * (idx as i32);
            let mut num: Number = match create_digit(ch, gx, 0) {
                Some(n) => n,
                None => vstd::pervasive::unreached(),
            };
            let ghost created: Number = num;
            proof {
                assert forall|i: int, j: int|
                    0 <= i < num.lines@.len() && 0 <= j
                        < num.lines@[i].controll_points@.len() implies can_translate_pt(
                    #[trigger] num.lines@[i].controll_points@[j],
                    (gx + x) as int,
                    (0 + y) as int,
                ) by {
                    lemma_series_pt_bounds(
                        num.lines@[i].controll_points@[j],
                        idx as int,
                        sp,
                        s_num as int,
                        s_den as int,
                        cos_num as int,
                        sin_num as int,
                        r_den as int,
                    );
                }
                assert forall|i: int, j: int|
                    0 <= i < num.bezier_curves@.len() && 0 <= j
                        < num.bezier_curves@[i].controll_points@.len() implies can_translate_pt(
                    #[trigger] num.bezier_curves@[i].controll_points@[j],
                    (gx + x) as int,
                    (0 + y) as int,
                ) by {
                    lemma_series_pt_bounds(
                        num.bezier_curves@[i].controll_points@[j],
                        idx as int,
                        sp,
                        s_num as int,
                        s_den as int,
                        cos_num as int,
                        sin_num as int,
                        r_den as int,
                    );
                }
                lemma_series_pt_bounds(
                    num.center,
                    idx as int,
                    sp,
                    s_num as int,
                    s_den as int,
                    cos_num as int,
                    sin_num as int,
                    r_den as int,
                );
            }
            let dx: i32 = num.x + x;
            let dy: i32 = num.y + y;
            translate_number(&mut num, dx, dy);
            let ghost translated: Number = num;
            proof {
                lemma_series_chain_scale(
                    created,
                    translated,
                    idx as int,
                    sp,
                    s_num as int,
                    s_den as int,
                    cos_num as int,
                    sin_num as int,
                    r_den as int,
                );
            }
            scale_number(&mut num, s_num, s_den, sp);
            let ghost scaled: Number = num;
            proof {
                lemma_series_chain_rotate(
                    created,
                    translated,
                    scaled,
                    idx as int,
                    sp,
                    s_num as int,
                    s_den as int,
                    cos_num as int,
                    sin_num as int,
                    r_den as int,
                );
            }
            rotate_number(&mut num, cos_num, sin_num, r_den, sp);
            proof {
                let gi = idx as int;
                let c = number_str@[gi];
                assert(dx as int == 80 * gi + sp.x && dy as int == sp.y as int);
                assert forall|i: int|
                    0 <= i < num.lines@.len() implies ((#[trigger] num.lines@[i]).controll_points@.len()
                    == 2 && num.lines@[i].controll_points@[0] == placed_pt(
                    digit_segments_of(c)[i].0,
                    gi,
                    sp,
                    s_num as int,
                    s_den as int,
                    cos_num as int,
                    sin_num as int,
                    r_den as int,
                ) && num.lines@[i].controll_points@[1] == placed_pt(
                    digit_segments_of(c)[i].1,
                    gi,
                    sp,
                    s_num as int,
                    s_den as int,
                    cos_num as int,
                    sin_num as int,
                    r_den as int,
                )) by {
                    assert(created.lines@[i].controll_points@[0] == digit_segments_of(c)[i].0);
                    assert(created.lines@[i].controll_points@[1] == digit_segments_of(c)[i].1);
                    assert(translated.lines@[i].controll_points@[0] == translate_pt(
                        created.lines@[i].controll_points@[0],
                        dx as int,
                        dy as int,
                    ));
                    assert(translated.lines@[i].controll_points@[1] == translate_pt(
                        created.lines@[i].controll_points@[1],
                        dx as int,
                        dy as int,
                    ));
                    assert(scaled.lines@[i].controll_points@[0] == scale_about_pt(
                        translated.lines@[i].controll_points@[0],
                        s_num as int,
                        s_den as int,
                        sp,
                    ));
                    assert(scaled.lines@[i].controll_points@[1] == scale_about_pt(
                        translated.lines@[i].controll_points@[1],
                        s_num as int,
                        s_den as int,
                        sp,
                    ));
                    assert(num.lines@[i].controll_points@[0] == rotate_about_pt(
                        scaled.lines@[i].controll_points@[0],
                        cos_num as int,
                        sin_num as int,
                        r_den as int,
                        sp,
                    ));
                    assert(num.lines@[i].controll_points@[1] == rotate_about_pt(
                        scaled.lines@[i].controll_points@[1],
                        cos_num as int,
                        sin_num as int,
                        r_den as int,
                        sp,
                    ));
                }
                assert forall|i: int|
                    0 <= i < num.bezier_curves@.len() implies ((
                #[trigger] num.bezier_curves@[i]).controll_points@.len() == 4
                    && num.bezier_curves@[i].controll_points@[0] == placed_pt(
                    digit_bows_of(c)[i].0,
                    gi,
                    sp,
                    s_num as int,
                    s_den as int,
                    cos_num as int,
                    sin_num as int,
                    r_den as int,
                ) && num.bezier_curves@[i].controll_points@[1] == placed_pt(
                    digit_bows_of(c)[i].1,
                    gi,
                    sp,
                    s_num as int,
                    s_den as int,
                    cos_num as int,
                    sin_num as int,
                    r_den as int,
                ) && num.bezier_curves@[i].controll_points@[2] == placed_pt(
                    digit_bows_of(c)[i].2,
                    gi,
                    sp,
                    s_num as int,
                    s_den as int,
                    cos_num as int,
                    sin_num as int,
                    r_den as int,
                ) && num.bezier_curves@[i].controll_points@[3] == placed_pt(
                    digit_bows_of(c)[i].3,
                    gi,
                    sp,
                    s_num as int,
                    s_den as int,
                    cos_num as int,
                    sin_num as int,
                    r_den as int,
                )) by {
                    assert(created.bezier_curves@[i].controll_points@[0] == digit_bows_of(c)[i].0);
                    assert(created.bezier_curves@[i].controll_points@[1] == digit_bows_of(c)[i].1);
                    assert(created.bezier_curves@[i].controll_points@[2] == digit_bows_of(c)[i].2);
                    assert(created.bezier_curves@[i].controll_points@[3] == digit_bows_of(c)[i].3);
                    assert(translated.bezier_curves@[i].controll_points@[0] == translate_pt(
                        created.bezier_curves@[i].controll_points@[0],
                        dx as int,
                        dy as int,
                    ));
                    assert(translated.bezier_curves@[i].controll_points@[1] == translate_pt(
                        created.bezier_curves@[i].controll_points@[1],
                        dx as int,
                        dy as int,
                    ));
                    assert(translated.bezier_curves@[i].controll_points@[2] == translate_pt(
                        created.bezier_curves@[i].controll_points@[2],
                        dx as int,
                        dy as int,
                    ));
                    assert(translated.bezier_curves@[i].controll_points@[3] == translate_pt(
                        created.bezier_curves@[i].controll_points@[3],
                        dx as int,
                        dy as int,
                    ));
                    assert(scaled.bezier_curves@[i].controll_points@[0] == scale_about_pt(
                        translated.bezier_curves@[i].controll_points@[0],
                        s_num as int,
                        s_den as int,
                        sp,
                    ));
                    assert(scaled.bezier_curves@[i].controll_points@[1] == scale_about_pt(
                        translated.bezier_curves@[i].controll_points@[1],
                        s_num as int,
                        s_den as int,
                        sp,
                    ));
                    assert(scaled.bezier_curves@[i].controll_points@[2] == scale_about_pt(
                        translated.bezier_curves@[i].controll_points@[2],
                        s_num as int,
                        s_den as int,
                        sp,
                    ));
                    assert(scaled.bezier_curves@[i].controll_points@[3] == scale_about_pt(
                        translated.bezier_curves@[i].controll_points@[3],
                        s_num as int,
                        s_den as int,
                        sp,
                    ));
                    assert(num.bezier_curves@[i].controll_points@[0] == rotate_about_pt(
                        scaled.bezier_curves@[i].controll_points@[0],
                        cos_num as int,
                        sin_num as int,
                        r_den as int,
                        sp,
                    ));
                    assert(num.bezier_curves@[i].controll_points@[1] == rotate_about_pt(
                        scaled.bezier_curves@[i].controll_points@[1],
                        cos_num as int,
                        sin_num as int,
                        r_den as int,
                        sp,
                    ));
                    assert(num.bezier_curves@[i].controll_points@[2] == rotate_about_pt(
                        scaled.bezier_curves@[i].controll_points@[2],
                        cos_num as int,
                        sin_num as int,
                        r_den as int,
                        sp,
                    ));
                    assert(num.bezier_curves@[i].controll_points@[3] == rotate_about_pt(
                        scaled.bezier_curves@[i].controll_points@[3],
                        cos_num as int,
                        sin_num as int,
                        r_den as int,
                        sp,
                    ));
                }
                assert(translated.center == translate_pt(created.center, dx as int, dy as int));
                assert(num.center == translate_pt(digit_center_of(c), 80 * gi + sp.x, sp.y as int));
                assert(glyph_placed(
                    num,
                    c,
                    gi,
                    sp,
                    s_num as int,
                    s_den as int,
                    cos_num as int,
                    sin_num as int,
                    r_den as int,
                ));
            }
            numbers.push(num);
            idx = idx + 1;
        }
        proof {
            assert(sp == (Point { x, y }));
        }
        NumberSeries { x, y, number_str, numbers }
    }
}

/// The surface `fin` is `orig` with the glyphs of `nums` drawn one after
/// the other.
pub open spec fn series_drawn(
    orig: Surface,
    fin: Surface,
    nums: Seq<Number>,
    color: u32,
    fill: bool,
) -> bool
    decreases nums.len(),
{
    if nums.len() == 0 {
        fin == orig
    } else {
        exists|mid: Surface|
            #[trigger] number_drawn(orig, mid, nums[0], color, fill) && series_drawn(
                mid,
                fin,
                nums.drop_first(),
                color,
                fill,
            )
    }
}

/// Drawing one more glyph extends a drawn series by that glyph.
proof fn lemma_series_drawn_snoc(
    orig: Surface,
    mid: Surface,
    fin: Surface,
    nums: Seq<Number>,
    n: Number,
    color: u32,
    fill: bool,
)
    requires
        series_drawn(orig, mid, nums, color, fill),
        number_drawn(mid, fin, n, color, fill),
    ensures
        series_drawn(orig, fin, nums.push(n), color, fill),
    decreases nums.len(),
{
    if nums.len() == 0 {
        assert(nums.push(n).drop_first() =~= Seq::<Number>::empty());
        assert(nums.push(n)[0] == n);
        assert(number_drawn(orig, fin, nums.push(n)[0], color, fill));
        assert(series_drawn(fin, fin, nums.push(n).drop_first(), color, fill));
    } else {
        let m2 = choose|m: Surface|
            #[trigger] number_drawn(orig, m, nums[0], color, fill) && series_drawn(
                m,
                mid,
                nums.drop_first(),
                color,
                fill,
            );
        lemma_series_drawn_snoc(m2, mid, fin, nums.drop_first(), n, color, fill);
        assert(nums.push(n).drop_first() =~= nums.drop_first().push(n));
        assert(nums.push(n)[0] == nums[0]);
        assert(number_drawn(orig, m2, nums.push(n)[0], color, fill));
        assert(series_drawn(m2, fin, nums.push(n).drop_first(), color, fill));
    }
}

impl NumberSeries {
    /// Draws the glyphs of the series left to right in the opaque form of
    /// `color`; with `fill`, each glyph is flood-filled from its own anchor
    /// right after it is drawn.
    pub fn draw(&self, color: u32, fill: bool, surface: &mut Surface)
        requires
            old(surface).wf(),
            forall|g: int|
                0 <= g < self.numbers@.len() ==> glyph_wf(#[trigger] self.numbers@[g]),
            fill ==> forall|g: int|
                0 <= g < self.numbers@.len() ==> old(surface).in_bounds(
                    (#[trigger] self.numbers@[g]).x as int,
                    self.numbers@[g].y as int,
                ),
        ensures
            final(surface).wf(),
            final(surface).same_size(*old(surface)),
            series_drawn(*old(surface), *final(surface), self.numbers@, color, fill),
    {
        let ghost orig: Surface = *surface;
        let mut g: usize = 0;
        while g < self.numbers.len()
            invariant
                surface.wf(),
                surface.same_size(orig),
                orig.wf(),
                g <= self.numbers@.len(),
                forall|k: int|
                    0 <= k < self.numbers@.len() ==> glyph_wf(#[trigger] self.numbers@[k]),
                fill ==> forall|k: int|
                    0 <= k < self.numbers@.len() ==> orig.in_bounds(
                        (#[trigger] self.numbers@[k]).x as int,
                        self.numbers@[k].y as int,
                    ),
                series_drawn(orig, *surface, self.numbers@.take(g as int), color, fill),
            decreases self.numbers@.len() - g,
        {
            let ghost pre: Surface = *surface;
            self.numbers[g].draw(color, fill, surface);
            proof {
                lemma_series_drawn_snoc(
                    orig,
                    pre,
                    *surface,
                    self.numbers@.take(g as int),
                    self.numbers@[g as int],
                    color,
                    fill,
                );
                assert(self.numbers@.take(g as int + 1) =~= self.numbers@.take(g as int).push(
                    self.numbers@[g as int],
                ));
            }
            g = g + 1;
        }
        proof {
            assert(self.numbers@.take(self.numbers@.len() as int) =~= self.numbers@);
        }
    }
}

/// The layout law of a series: before any scaling or rotation, the nominal
/// bounding boxes of the glyphs, each advanced by the fixed advance width,
/// are adjacent and pairwise non-overlapping: consecutive boxes share
/// exactly their vertical edge, and no two boxes share a column.
pub proof fn lemma_series_layout(s: NumberSeries, i: int, j: int)
    requires
        series_wf(s),
        0 <= i < j < s.numbers@.len(),
    ensures
        s.numbers@[i].x + s.numbers@[i].w <= s.numbers@[j].x,
        j == i + 1 ==> s.numbers@[i].x + s.numbers@[i].w == s.numbers@[j].x,
        s.numbers@[i].h == s.numbers@[j].h,
        s.numbers@[i].y == s.numbers@[j].y,
{
    assert(s.numbers@[i].x == 80 * i && s.numbers@[j].x == 80 * j);
    assert(80 * i + 80 <= 80 * j) by (nonlinear_arith)
        requires
            i + 1 <= j,
    ;
}

/// The scale step of the glyph placement pipeline stays within range: what
/// `scale_number` requires of a glyph that was just advanced and anchored.
proof fn lemma_series_chain_scale(
    created: Number,
    translated: Number,
    g: int,
    sp: Point,
    s_num: int,
    s_den: int,
    cos_num: int,
    sin_num: int,
    r_den: int,
)
    requires
        glyph_points_within(created, 0, 200),
        created.x == 80 * g,
        created.y == 0,
        glyph_translated(created, translated, 80 * g + sp.x, sp.y as int),
        0 <= g < 1000,
        -1000000 <= sp.x <= 1000000,
        -1000000 <= sp.y <= 1000000,
        0 < s_den <= 1000000,
        -400 * s_den <= s_num <= 400 * s_den,
        0 < r_den <= 1000000,
        -r_den <= cos_num <= r_den,
        -r_den <= sin_num <= r_den,
    ensures
        can_scale_glyph_about(translated, s_num, s_den, sp),
{
    assert forall|i: int, j: int|
        0 <= i < translated.lines@.len() && 0 <= j
            < translated.lines@[i].controll_points@.len() implies (can_translate_pt(
        #[trigger] translated.lines@[i].controll_points@[j],
        -sp.x,
        -sp.y,
    ) && can_translate_pt(
        scale_pt(
            translate_pt(translated.lines@[i].controll_points@[j], -sp.x, -sp.y),
            s_num,
            s_den,
        ),
        sp.x as int,
        sp.y as int,
    )) by {
        let p0 = created.lines@[i].controll_points@[j];
        assert(translated.lines@[i].controll_points@[j] == translate_pt(
            p0,
            80 * g + sp.x,
            sp.y as int,
        ));
        lemma_series_pt_bounds(p0, g, sp, s_num, s_den, cos_num, sin_num, r_den);
    }
    assert forall|i: int, j: int|
        0 <= i < translated.bezier_curves@.len() && 0 <= j
            < translated.bezier_curves@[i].controll_points@.len() implies (can_translate_pt(
        #[trigger] translated.bezier_curves@[i].controll_points@[j],
        -sp.x,
        -sp.y,
    ) && can_translate_pt(
        scale_pt(
            translate_pt(translated.bezier_curves@[i].controll_points@[j], -sp.x, -sp.y),
            s_num,
            s_den,
        ),
        sp.x as int,
        sp.y as int,
    )) by {
        let p0 = created.bezier_curves@[i].controll_points@[j];
        assert(translated.bezier_curves@[i].controll_points@[j] == translate_pt(
            p0,
            80 * g + sp.x,
            sp.y as int,
        ));
        lemma_series_pt_bounds(p0, g, sp, s_num, s_den, cos_num, sin_num, r_den);
    }
    lemma_series_pt_bounds(created.center, g, sp, s_num, s_den, cos_num, sin_num, r_den);
}

/// The rotate step of the glyph placement pipeline stays within range: what
/// `rotate_number` requires of a glyph that was advanced, anchored and
/// scaled.
proof fn lemma_series_chain_rotate(
    created: Number,
    translated: Number,
    scaled: Number,
    g: int,
    sp: Point,
    s_num: int,
    s_den: int,
    cos_num: int,
    sin_num: int,
    r_den: int,
)
    requires
        glyph_points_within(created, 0, 200),
        created.x == 80 * g,
        created.y == 0,
        glyph_translated(created, translated, 80 * g + sp.x, sp.y as int),
        glyph_scaled_about(translated, scaled, s_num, s_den, sp),
        0 <= g < 1000,
        -1000000 <= sp.x <= 1000000,
        -1000000 <= sp.y <= 1000000,
        0 < s_den <= 1000000,
        -400 * s_den <= s_num <= 400 * s_den,
        0 < r_den <= 1000000,
        -r_den <= cos_num <= r_den,
        -r_den <= sin_num <= r_den,
    ensures
        can_rotate_glyph_about(scaled, cos_num, sin_num, r_den, sp),
{
    assert forall|i: int, j: int|
        0 <= i < scaled.lines@.len() && 0 <= j
            < scaled.lines@[i].controll_points@.len() implies (can_translate_pt(
        #[trigger] scaled.lines@[i].controll_points@[j],
        -sp.x,
        -sp.y,
    ) && can_translate_pt(
        rotate_pt(
            translate_pt(scaled.lines@[i].controll_points@[j], -sp.x, -sp.y),
            cos_num,
            sin_num,
            r_den,
        ),
        sp.x as int,
        sp.y as int,
    )) by {
        let p0 = created.lines@[i].controll_points@[j];
        assert(translated.lines@[i].controll_points@[j] == translate_pt(
            p0,
            80 * g + sp.x,
            sp.y as int,
        ));
        assert(scaled.lines@[i].controll_points@[j] == scale_about_pt(
            translated.lines@[i].controll_points@[j],
            s_num,
            s_den,
            sp,
        ));
        lemma_series_pt_bounds(p0, g, sp, s_num, s_den, cos_num, sin_num, r_den);
    }
    assert forall|i: int, j: int|
        0 <= i < scaled.bezier_curves@.len() && 0 <= j
            < scaled.bezier_curves@[i].controll_points@.len() implies (can_translate_pt(
        #[trigger] scaled.bezier_curves@[i].controll_points@[j],
        -sp.x,
        -sp.y,
    ) && can_translate_pt(
        rotate_pt(
            translate_pt(scaled.bezier_curves@[i].controll_points@[j], -sp.x, -sp.y),
            cos_num,
            sin_num,
            r_den,
        ),
        sp.x as int,
        sp.y as int,
    )) by {
        let p0 = created.bezier_curves@[i].controll_points@[j];
        assert(translated.bezier_curves@[i].controll_points@[j] == translate_pt(
            p0,
            80 * g + sp.x,
            sp.y as int,
        ));
        assert(scaled.bezier_curves@[i].controll_points@[j] == scale_about_pt(
            translated.bezier_curves@[i].controll_points@[j],
            s_num,
            s_den,
            sp,
        ));
        lemma_series_pt_bounds(p0, g, sp, s_num, s_den, cos_num, sin_num, r_den);
    }
    lemma_series_pt_bounds(created.center, g, sp, s_num, s_den, cos_num, sin_num, r_den);
}

} // verus!
