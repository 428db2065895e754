//! Exporting the frame: converts the surface's pixel grid into RGBA byte
//! order and encodes it as a BMP file image, in memory. Writing the encoded
//! bytes to disk is left to the caller.

use vstd::prelude::*;

use crate::surface::{alpha_of, blue_of, green_of, red_of, Surface};

verus! {

/// What the BMP encoder produces for an RGBA buffer of the given
/// dimensions: a pure function of the pixel bytes and dimensions alone.
pub uninterp spec fn bmp_bytes_of(rgba: Seq<u8>, width: u32, height: u32) -> Seq<u8>;

/// Relies on image's BmpEncoder: encoding into an in-memory buffer is
/// infallible for a buffer of matching length and bounded dimensions, the
/// output depends on the pixel bytes and dimensions alone, and it is a BMP
/// file image: the ASCII letters "BM", 122 header bytes in all, and four
/// bytes per pixel.
#[verifier::external_body]
fn encode_bmp_rgba(rgba: &Vec<u8>, width: u32, height: u32) -> (r: Vec<u8>)
    requires
        0 < width <= 16384,
        0 < height <= 16384,
        rgba@.len() == 4 * width * height,
    ensures
        r@ == bmp_bytes_of(rgba@, width, height),
        r@.len() == 122 + 4 * width * height,
        r@[0] == 66u8,
        r@[1] == 77u8,
{
    let mut out: Vec<u8> = Vec::new();
    let mut encoder = image::codecs::bmp::BmpEncoder::new(&mut out);
    encoder
        .encode(rgba.as_slice(), width, height, image::ExtendedColorType::Rgba8)
        .expect("BMP encoding failed");
    out
}

/// Whether quad i of `r` is quad i of `p` with its first and third bytes
/// exchanged: the reordering of one pixel between the blue-first and the
/// red-first byte layout.
pub open spec fn quad_swapped(r: Seq<u8>, p: Seq<u8>, i: int) -> bool {
    &&& r[4 * i] == p[4 * i + 2]
    &&& r[4 * i + 1] == p[4 * i + 1]
    &&& r[4 * i + 2] == p[4 * i]
    &&& r[4 * i + 3] == p[4 * i + 3]
}

/// Reorders a frame read-back (blue, green, red, alpha per pixel) into
/// red, green, blue, alpha order.
pub fn bgra_to_rgba(pixels: &Vec<u8>) -> (r: Vec<u8>)
    requires
        pixels@.len() % 4 == 0,
    ensures
        r@.len() == pixels@.len(),
        forall|k: int| 0 <= k < pixels@.len() / 4 ==> #[trigger] quad_swapped(r@, pixels@, k),
{
    let n: usize = pixels.len() / 4;
    proof {
        vstd::arithmetic::div_mod::lemma_fundamental_div_mod(pixels@.len() as int, 4);
    }
    let mut r: Vec<u8> = Vec::new();
    let mut k: usize = 0;
    while k < n
        invariant
            pixels@.len() == 4 * n,
            4 * n <= usize::MAX,
            k <= n,
            r@.len() == 4 * k,
            forall|i: int| 0 <= i < k ==> #[trigger] quad_swapped(r@, pixels@, i),
        decreases n - k,
    {
        let base: usize = 4 * k;
        let ghost pre_r: Seq<u8> = r@;
        r.push(pixels[base + 2]);
        r.push(pixels[base + 1]);
        r.push(pixels[base]);
        r.push(pixels[base + 3]);
        proof {
            assert forall|i: int| 0 <= i < k + 1 implies #[trigger] quad_swapped(
                r@,
                pixels@,
                i,
            ) by {
                if i < k {
                    assert(quad_swapped(pre_r, pixels@, i));
                    assert(r@[4 * i] == pre_r[4 * i]);
                    assert(r@[4 * i + 1] == pre_r[4 * i + 1]);
                    assert(r@[4 * i + 2] == pre_r[4 * i + 2]);
                    assert(r@[4 * i + 3] == pre_r[4 * i + 3]);
                } else {
                    assert(r@[4 * i] == pixels@[4 * i + 2]);
                    assert(r@[4 * i + 1] == pixels@[4 * i + 1]);
                    assert(r@[4 * i + 2] == pixels@[4 * i]);
                    assert(r@[4 * i + 3] == pixels@[4 * i + 3]);
                }
            }
        }
        k = k + 1;
    }
    r
}

/// The RGBA byte view of a surface: four bytes per pixel in row-major
/// order, red, green, blue, alpha at increasing offsets.
pub open spec fn surface_rgba(s: Surface) -> Seq<u8> {
    Seq::new(
        4 * s.grid().len(),
        |k: int|
            {
                let c = s.grid()[k / 4];
                if k % 4 == 0 {
                    red_of(c) as u8
                } else if k % 4 == 1 {
                    green_of(c) as u8
                } else if k % 4 == 2 {
                    blue_of(c) as u8
                } else {
                    alpha_of(c) as u8
                }
            },
    )
}

/// Encodes the current frame as a BMP file image with RGBA pixel order,
/// ready to be written out as one snapshot.
pub fn bmp_of_surface(surface: &Surface) -> (r: Vec<u8>)
    requires
        surface.wf(),
    ensures
        r@ == bmp_bytes_of(
            surface_rgba(*surface),
            surface.spec_width() as u32,
            surface.spec_height() as u32,
        ),
        r@.len() == 122 + 4 * surface.spec_width() * surface.spec_height(),
        r@[0] == 66u8,
        r@[1] == 77u8,
{
    let bytes = surface.read_pixels();
    proof {
        let gl = surface.grid().len() as int;
        assert(4 * gl == gl * 4 + 0) by (nonlinear_arith);
        vstd::arithmetic::div_mod::lemma_fundamental_div_mod_converse(4 * gl, 4, gl, 0);
        assert(bytes@.len() % 4 == 0);
        assert(bytes@.len() / 4 == surface.grid().len());
    }
    let rgba = bgra_to_rgba(&bytes);
    proof {
        assert forall|k: int| 0 <= k < surface_rgba(*surface).len() implies rgba@[k]
            == surface_rgba(*surface)[k] by {
            let i = k / 4;
            vstd::arithmetic::div_mod::lemma_fundamental_div_mod(k, 4);
            vstd::arithmetic::div_mod::lemma_mod_bound(k, 4);
            assert(0 <= i < surface.grid().len()) by (nonlinear_arith)
                requires
                    0 <= k < 4 * surface.grid().len(),
                    k == 4 * (k / 4) + k % 4,
                    0 <= k % 4 < 4,
                    i == k / 4,
            ;
            assert(bytes@.len() / 4 == surface.grid().len());
            assert(0 <= i < bytes@.len() / 4);
            assert(quad_swapped(rgba@, bytes@, i));
            assert(bytes@[4 * i] as u32 == blue_of(surface.grid()[i]) && bytes@[4 * i + 1] as u32
                == green_of(surface.grid()[i]) && bytes@[4 * i + 2] as u32 == red_of(
                surface.grid()[i],
            ) && bytes@[4 * i + 3] as u32 == alpha_of(surface.grid()[i]));
        }
        assert(rgba@ =~= surface_rgba(*surface));
        assert(4 * (surface.spec_width() * surface.spec_height()) == 4 * surface.spec_width()
            * surface.spec_height()) by (nonlinear_arith);
    }
    encode_bmp_rgba(&rgba, surface.width() as u32, surface.height() as u32)
}

} // verus!
