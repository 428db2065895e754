//! The pixel surface: an addressable width x height grid of packed 32-bit
//! colors (alpha, red, green, blue at descending byte offsets), mutated in
//! place by the scan-conversion primitives and read back as a flat byte
//! buffer in blue, green, red, alpha order.

use vstd::prelude::*;

use crate::Point;

verus! {

/// Largest accepted surface side, so that index arithmetic stays well inside
/// the machine's integer ranges.
pub const MAX_SIDE: usize = 16384;

/// A packed color channel selector, matched exhaustively so that there is no
/// invalid-selector branch.
#[derive(Clone, Copy, PartialEq, Eq, Structural, Debug)]
pub enum Channel {
    Red,
    Green,
    Blue,
    Alpha,
}

/// The blue byte of a packed color.
pub open spec fn blue_of(c: u32) -> u32 {
    c % 0x100
}

/// The green byte of a packed color.
pub open spec fn green_of(c: u32) -> u32 {
    (c / 0x100) % 0x100
}

/// The red byte of a packed color.
pub open spec fn red_of(c: u32) -> u32 {
    (c / 0x10000) % 0x100
}

/// The alpha byte of a packed color.
pub open spec fn alpha_of(c: u32) -> u32 {
    c / 0x1000000
}

/// Packs four channel bytes (given in the buffer's blue, green, red, alpha
/// order) into one 32-bit color.
pub open spec fn pack_color(b: u32, g: u32, r: u32, a: u32) -> u32
    recommends
        b < 0x100,
        g < 0x100,
        r < 0x100,
        a < 0x100,
{
    (a * 0x1000000 + r * 0x10000 + g * 0x100 + b) as u32
}

/// The color actually stored by a point-drawing call: the red, green and blue
/// channels of the requested color under a fully opaque alpha channel.
pub open spec fn opaque(c: u32) -> u32 {
    (0xFF000000 + c % 0x1000000) as u32
}

/// Writes one cell of a flat pixel grid, ignoring writes outside the bounds.
pub open spec fn grid_set(g: Seq<u32>, w: int, h: int, x: int, y: int, c: u32) -> Seq<u32> {
    if 0 <= x < w && 0 <= y < h {
        g.update(y * w + x, c)
    } else {
        g
    }
}

/// Two distinct in-bounds cells of one row-major grid have distinct indices.
pub proof fn lemma_cell_index(w: int, x1: int, y1: int, x2: int, y2: int)
    requires
        0 <= x1 < w,
        0 <= x2 < w,
        y1 * w + x1 == y2 * w + x2,
    ensures
        x1 == x2 && y1 == y2,
{
    assert(x1 == x2 && y1 == y2) by (nonlinear_arith)
        requires
            0 <= x1 < w,
            0 <= x2 < w,
            y1 * w + x1 == y2 * w + x2,
    ;
}

/// An in-bounds cell's index lies inside a w x h grid.
pub proof fn lemma_cell_in_grid(w: int, h: int, x: int, y: int)
    requires
        0 <= x < w,
        0 <= y < h,
    ensures
        0 <= y * w + x < w * h,
{
    assert(0 <= y * w + x < w * h) by (nonlinear_arith)
        requires
            0 <= x < w,
            0 <= y < h,
    ;
}

/// How `grid_set` changes each cell: the addressed cell takes the new color,
/// every other cell keeps its old one.
pub proof fn lemma_grid_set_at(g: Seq<u32>, w: int, h: int, x: int, y: int, c: u32, qx: int, qy: int)
    requires
        g.len() == w * h,
        0 <= qx < w,
        0 <= qy < h,
    ensures
        grid_set(g, w, h, x, y, c)[qy * w + qx] == if qx == x && qy == y {
            c
        } else {
            g[qy * w + qx]
        },
{
    lemma_cell_in_grid(w, h, qx, qy);
    if 0 <= x < w && 0 <= y < h {
        lemma_cell_in_grid(w, h, x, y);
        if y * w + x == qy * w + qx {
            lemma_cell_index(w, x, y, qx, qy);
        }
    }
}

/// Unpacking a color into its four channel bytes and packing them again gives
/// the color back.
pub proof fn lemma_pack_channels(c: u32)
    ensures
        pack_color(blue_of(c), green_of(c), red_of(c), alpha_of(c)) == c,
        blue_of(c) < 0x100,
        green_of(c) < 0x100,
        red_of(c) < 0x100,
        alpha_of(c) < 0x100,
{
    assert((c / 0x1000000) * 0x1000000 + ((c / 0x10000) % 0x100) * 0x10000 + ((c / 0x100) % 0x100)
        * 0x100 + c % 0x100 == c) by (bit_vector);
    assert(c / 0x1000000 < 0x100) by (bit_vector);
}

/// A stored point write keeps the red, green and blue channels of the
/// requested color and forces the alpha channel fully opaque.
pub proof fn lemma_opaque_channels(c: u32)
    ensures
        opaque(c) == pack_color(blue_of(c), green_of(c), red_of(c), 0xFF),
        blue_of(opaque(c)) == blue_of(c),
        green_of(opaque(c)) == green_of(c),
        red_of(opaque(c)) == red_of(c),
        alpha_of(opaque(c)) == 0xFF,
{
    assert(c % 0x1000000 == ((c / 0x10000) % 0x100) * 0x10000 + ((c / 0x100) % 0x100) * 0x100 + c
        % 0x100) by (bit_vector);
    assert(((0xFF000000 + c % 0x1000000) as u32) % 0x100 == c % 0x100) by (bit_vector);
    assert((((0xFF000000 + c % 0x1000000) as u32) / 0x100) % 0x100 == (c / 0x100) % 0x100)
        by (bit_vector);
    assert((((0xFF000000 + c % 0x1000000) as u32) / 0x10000) % 0x100 == (c / 0x10000) % 0x100)
        by (bit_vector);
    assert(((0xFF000000 + c % 0x1000000) as u32) / 0x1000000 == 0xFF) by (bit_vector);
}

/// A selector character accepted by `get_color_component`.
pub open spec fn is_rgb_selector(c: char) -> bool {
    c == 'r' || c == 'R' || c == 'g' || c == 'G' || c == 'b' || c == 'B'
}

/// The channel byte a selector character names.
pub open spec fn selected_channel(color: u32, c: char) -> u32
    recommends
        is_rgb_selector(c),
{
    if c == 'r' || c == 'R' {
        red_of(color)
    } else if c == 'g' || c == 'G' {
        green_of(color)
    } else {
        blue_of(color)
    }
}

/// Extracts one channel byte of a packed color, by typed selector.
pub fn channel_of(color: u32, channel: Channel) -> (r: u8)
    ensures
        channel == Channel::Red ==> r == red_of(color),
        channel == Channel::Green ==> r == green_of(color),
        channel == Channel::Blue ==> r == blue_of(color),
        channel == Channel::Alpha ==> r == alpha_of(color),
{
    match channel {
        Channel::Red => ((color / 0x10000) % 0x100) as u8,
        Channel::Green => ((color / 0x100) % 0x100) as u8,
        Channel::Blue => (color % 0x100) as u8,
        Channel::Alpha => (color / 0x1000000) as u8,
    }
}

/// Extracts one channel byte of a packed color, by selector character.
/// Only the red, green and blue selectors are accepted.
pub fn get_color_component(color: u32, component: char) -> (r: u8)
    requires
        is_rgb_selector(component),
    ensures
        r == selected_channel(color, component),
{
    match component {
        'r' | 'R' => channel_of(color, Channel::Red),
        'g' | 'G' => channel_of(color, Channel::Green),
        _ => channel_of(color, Channel::Blue),
    }
}

/// Decodes the packed color of one point out of a flat byte buffer laid out
/// as `Surface::read_pixels` produces it: four bytes per pixel, blue, green,
/// red, alpha at increasing offsets, rows of `screen_width` pixels.
pub fn get_color(point: Point, screen_width: u32, pixels: &Vec<u8>) -> (r: u32)
    requires
        0 <= point.x,
        0 <= point.y,
        (point.y * screen_width + point.x) * 4 + 3 < pixels@.len(),
    ensures
        r == pack_color(
            pixels@[(point.y * screen_width + point.x) * 4] as u32,
            pixels@[(point.y * screen_width + point.x) * 4 + 1] as u32,
            pixels@[(point.y * screen_width + point.x) * 4 + 2] as u32,
            pixels@[(point.y * screen_width + point.x) * 4 + 3] as u32,
        ),
{
    let n: usize = pixels.len();
    proof {
        assert((point.y as int) * (screen_width as int) <= 0x7fffffff * 0xffffffff)
            by (nonlinear_arith)
            requires
                0 <= point.y as int <= 0x7fffffff,
                0 <= screen_width as int <= 0xffffffff,
        ;
        assert(((point.y * screen_width + point.x) * 4 + 3) < n as int);
    }
    let index: u64 = ((point.y as u64) * (screen_width as u64) + (point.x as u64)) * 4;

    let b = pixels[index as usize] as u32;
    let g = pixels[(index + 1) as usize] as u32;
    let r = pixels[(index + 2) as usize] as u32;
    let a = pixels[(index + 3) as usize] as u32;

    a * 0x1000000 + r * 0x10000 + g * 0x100 + b
}

/// The pixel count of an accepted surface stays well inside usize.
pub proof fn lemma_grid_size(w: int, h: int)
    requires
        0 < w <= MAX_SIDE as int,
        0 < h <= MAX_SIDE as int,
    ensures
        w * h <= 0x10000000,
{
    assert(w * h <= 0x10000000) by (nonlinear_arith)
        requires
            0 < w <= 16384,
            0 < h <= 16384,
    ;
}

pub struct Surface {
    width: usize,
    height: usize,
    pixels: Vec<u32>,
}

impl Surface {
    /// The surface width, as seen by specifications.
    pub closed spec fn spec_width(self) -> int {
        self.width as int
    }

    /// The surface height, as seen by specifications.
    pub closed spec fn spec_height(self) -> int {
        self.height as int
    }

    /// The flat row-major pixel grid, as seen by specifications.
    pub closed spec fn grid(self) -> Seq<u32> {
        self.pixels@
    }

    /// Structural invariant: the grid holds exactly width x height pixels and
    /// both sides are within the accepted range.
    pub open spec fn wf(self) -> bool {
        &&& self.grid().len() == self.spec_width() * self.spec_height()
        &&& 0 < self.spec_width() <= MAX_SIDE as int
        &&& 0 < self.spec_height() <= MAX_SIDE as int
    }

    /// Whether (x, y) addresses a cell of this surface.
    pub open spec fn in_bounds(self, x: int, y: int) -> bool {
        0 <= x < self.spec_width() && 0 <= y < self.spec_height()
    }

    /// The color stored at (x, y).
    pub open spec fn at(self, x: int, y: int) -> u32
        recommends
            self.wf(),
            self.in_bounds(x, y),
    {
        self.grid()[y * self.spec_width() + x]
    }

    /// Same dimensions as another surface.
    pub open spec fn same_size(self, other: Surface) -> bool {
        self.spec_width() == other.spec_width() && self.spec_height() == other.spec_height()
    }

    pub fn new(width: usize, height: usize, color: u32) -> (s: Surface)
        requires
            0 < width <= MAX_SIDE,
            0 < height <= MAX_SIDE,
        ensures
            s.wf(),
            s.spec_width() == width,
            s.spec_height() == height,
            forall|x: int, y: int| s.in_bounds(x, y) ==> s.at(x, y) == color,
    {
        proof {
            lemma_cell_in_grid(width as int, height as int, (width - 1) as int, (height - 1) as int);
            lemma_grid_size(width as int, height as int);
        }
        let n: usize = width * height;
        let mut pixels: Vec<u32> = Vec::new();
        let mut i: usize = 0;
        while i < n
            invariant
                i <= n,
                pixels@.len() == i,
                forall|k: int| 0 <= k < i ==> pixels@[k] == color,
            decreases n - i,
        {
            pixels.push(color);
            i = i + 1;
        }
        let s = Surface { width, height, pixels };
        proof {
            assert forall|x: int, y: int| s.in_bounds(x, y) implies s.at(x, y) == color by {
                lemma_cell_in_grid(width as int, height as int, x, y);
            }
        }
        s
    }

    pub fn width(&self) -> (w: usize)
        ensures
            w == self.spec_width(),
    {
        self.width
    }

    pub fn height(&self) -> (h: usize)
        ensures
            h == self.spec_height(),
    {
        self.height
    }

    /// Reads the color at an in-bounds cell.
    pub fn get(&self, x: usize, y: usize) -> (c: u32)
        requires
            self.wf(),
            self.in_bounds(x as int, y as int),
        ensures
            c == self.at(x as int, y as int),
    {
        proof {
            lemma_cell_in_grid(self.spec_width(), self.spec_height(), x as int, y as int);
            lemma_grid_size(self.spec_width(), self.spec_height());
        }
        self.pixels[y * self.width + x]
    }

    /// Writes a color at (x, y); a write outside the bounds is ignored, as on
    /// a windowed canvas.
    pub fn set_pixel(&mut self, x: i64, y: i64, c: u32)
        requires
            old(self).wf(),
        ensures
            final(self).wf(),
            final(self).same_size(*old(self)),
            final(self).grid() == grid_set(
                old(self).grid(),
                old(self).spec_width(),
                old(self).spec_height(),
                x as int,
                y as int,
                c,
            ),
    {
        if 0 <= x && x < self.width as i64 && 0 <= y && y < self.height as i64 {
            proof {
                lemma_cell_in_grid(self.spec_width(), self.spec_height(), x as int, y as int);
                lemma_grid_size(self.spec_width(), self.spec_height());
            }
            let idx: usize = (y as usize) * self.width + (x as usize);
            self.pixels.set(idx, c);
        }
    }

    /// Reads the whole frame back as a flat byte buffer, four bytes per
    /// pixel: blue, green, red, alpha at increasing offsets.
    pub fn read_pixels(&self) -> (r: Vec<u8>)
        requires
            self.wf(),
        ensures
            r@.len() == 4 * self.grid().len(),
            forall|i: int|
                0 <= i < self.grid().len() ==> {
                    &&& r@[4 * i] as u32 == blue_of(#[trigger] self.grid()[i])
                    &&& r@[4 * i + 1] as u32 == green_of(self.grid()[i])
                    &&& r@[4 * i + 2] as u32 == red_of(self.grid()[i])
                    &&& r@[4 * i + 3] as u32 == alpha_of(self.grid()[i])
                },
    {
        let n: usize = self.pixels.len();
        let mut out: Vec<u8> = Vec::new();
        let mut i: usize = 0;
        while i < n
            invariant
                i <= n,
                n == self.grid().len(),
                self.wf(),
                out@.len() == 4 * i,
                forall|k: int|
                    0 <= k < i ==> {
                        &&& out@[4 * k] as u32 == blue_of(#[trigger] self.grid()[k])
                        &&& out@[4 * k + 1] as u32 == green_of(self.grid()[k])
                        &&& out@[4 * k + 2] as u32 == red_of(self.grid()[k])
                        &&& out@[4 * k + 3] as u32 == alpha_of(self.grid()[k])
                    },
            decreases n - i,
        {
            let c: u32 = self.pixels[i];
            out.push((c % 0x100) as u8);
            out.push(((c / 0x100) % 0x100) as u8);
            out.push(((c / 0x10000) % 0x100) as u8);
            out.push((c / 0x1000000) as u8);
            i = i + 1;
        }
        out
    }
}

/// Writes the red, green and blue channels of `c` at (x, y) under a fully
/// opaque alpha channel; a write outside the bounds is ignored.
pub fn draw_point(x: i32, y: i32, c: u32, surface: &mut Surface)
    requires
        old(surface).wf(),
    ensures
        final(surface).wf(),
        final(surface).same_size(*old(surface)),
        final(surface).grid() == grid_set(
            old(surface).grid(),
            old(surface).spec_width(),
            old(surface).spec_height(),
            x as int,
            y as int,
            opaque(c),
        ),
{
    let r = channel_of(c, Channel::Red);
    let g = channel_of(c, Channel::Green);
    let b = channel_of(c, Channel::Blue);
    let color: u32 = 0xFF000000 + (r as u32) * 0x10000 + (g as u32) * 0x100 + (b as u32);
    proof {
        lemma_pack_channels(c);
        lemma_opaque_channels(c);
    }
    surface.set_pixel(x as i64, y as i64, color);
}

} // verus!
