//! A scratch rasterization library: scan-conversion primitives (Bresenham
//! lines, midpoint circles, Wu anti-aliased lines, Bézier samplers), a
//! stack-based flood fill, and hand-authored digit glyphs with a transform
//! layer, all drawing onto an in-memory pixel surface.

use vstd::prelude::*;

pub mod surface;
pub mod graphics;
pub mod fill;
pub mod anti_aliasing;
pub mod numbers;
pub mod export;

verus! {

/// An integer (x, y) coordinate pair in device/pixel space.
#[derive(Clone, Copy, PartialEq, Eq, Structural, Debug)]
pub struct Point {
    pub x: i32,
    pub y: i32,
}

impl Point {
    pub fn new(x: i32, y: i32) -> (p: Point)
        ensures
            p.x == x,
            p.y == y,
    {
        Point { x, y }
    }
}

} // verus!
