//! Reduction of interleaved colour frames to one luma byte per pixel.

use vstd::prelude::*;

verus! {

/// Bytes per pixel of an interleaved RGBA frame.
pub const RGBA_STRIDE: usize = 4;

/// Bytes per pixel of an interleaved RGB frame.
pub const RGB_STRIDE: usize = 3;

/// Luma of one pixel: `0.299 R + 0.587 G + 0.114 B`, rounded down.
///
/// The three weights add up to one, so the value always fits in a byte.
pub open spec fn luma(r: u8, g: u8, b: u8) -> u8 {
    ((299 * r + 587 * g + 114 * b) / 1000) as u8
}

/// The luma plane of a frame whose pixels are `stride` bytes wide and start
/// with their red, green and blue channel, in that order. A trailing partial
/// pixel is ignored.
pub open spec fn luma_plane(frame: Seq<u8>, stride: int) -> Seq<u8>
    recommends
        stride >= 3,
{
    Seq::new(
        (frame.len() as int / stride) as nat,
        |i: int| luma(frame[i * stride], frame[i * stride + 1], frame[i * stride + 2]),
    )
}

/// The pixel stride under which a buffer of `len` bytes is one frame of
/// `width` by `height` pixels: that of RGBA, else that of RGB, else none.
pub open spec fn frame_stride(len: int, width: int, height: int) -> Option<usize> {
    if len == width * height * 4 {
        Some(RGBA_STRIDE)
    } else if len == width * height * 3 {
        Some(RGB_STRIDE)
    } else {
        None
    }
}

/// The luma frame that a detector of `width` by `height` pixels derives from
/// a raw frame: the luma plane of an RGBA or RGB frame of exactly that many
/// pixels, and the empty frame for a buffer of any other length.
pub open spec fn grayscale(frame: Seq<u8>, width: int, height: int) -> Seq<u8> {
    match frame_stride(frame.len() as int, width, height) {
        Some(stride) => luma_plane(frame, stride as int),
        None => Seq::empty(),
    }
}

/// Whether every pixel of `frame`, read with the given stride, has the
/// colour `(r, g, b)`.
pub open spec fn uniform_color(frame: Seq<u8>, stride: int, r: u8, g: u8, b: u8) -> bool {
    forall|i: int|
        0 <= i < frame.len() as int / stride ==> {
            &&& #[trigger] frame[i * stride] == r
            &&& frame[i * stride + 1] == g
            &&& frame[i * stride + 2] == b
        }
}

/// Computes the luma of one pixel in integer arithmetic.
pub fn pixel_luma(r: u8, g: u8, b: u8) -> (y: u8)
    ensures
        y == luma(r, g, b),
        1000 * y <= 299 * r + 587 * g + 114 * b < 1000 * (y + 1),
{
    let weighted: u32 = 299 * (r as u32) + 587 * (g as u32) + 114 * (b as u32);
    (weighted / 1000) as u8
}

/// Finds the pixel stride of a buffer of `len` bytes that is meant to hold
/// one frame of `width` by `height` pixels.
pub fn detect_stride(len: usize, width: usize, height: usize) -> (stride: Option<usize>)
    ensures
        stride == frame_stride(len as int, width as int, height as int),
{
    match width.checked_mul(height) {
        Some(pixels) => {
            if len % RGBA_STRIDE == 0 && len / RGBA_STRIDE == pixels {
                Some(RGBA_STRIDE)
            } else if len % RGB_STRIDE == 0 && len / RGB_STRIDE == pixels {
                Some(RGB_STRIDE)
            } else {
                None
            }
        },
        None => {
            // More pixels than any buffer has bytes.
            assert(width * height * 3 > len && width * height * 4 > len) by (nonlinear_arith)
                requires
                    width * height > len,
            ;
            None
        },
    }
}

/// Converts a frame of `stride`-byte pixels to its luma plane.
pub fn convert_plane(frame: &Vec<u8>, stride: usize) -> (plane: Vec<u8>)
    requires
        stride >= 3,
    ensures
        plane@ == luma_plane(frame@, stride as int),
{
    let pixels: usize = frame.len() / stride;
    let mut plane: Vec<u8> = Vec::with_capacity(pixels);
    let mut p: usize = 0;
    while p < pixels
        invariant
            stride >= 3,
            pixels == frame.len() / stride,
            p <= pixels,
            plane.len() == p,
            forall|i: int|
                0 <= i < p ==> plane[i] == luma(
                    frame[i * stride],
                    frame[i * stride + 1],
                    frame[i * stride + 2],
                ),
        decreases pixels - p,
    {
        proof {
            lemma_pixel_in_bounds(frame.len() as int, stride as int, p as int);
        }
        let at: usize = p * stride;
        plane.push(pixel_luma(frame[at], frame[at + 1], frame[at + 2]));
        p += 1;
    }
    plane
}

/// The pixel with index `p` of a buffer of `len` bytes lies wholly inside it.
pub proof fn lemma_pixel_in_bounds(len: int, stride: int, p: int)
    requires
        len >= 0,
        stride >= 1,
        0 <= p < len / stride,
    ensures
        0 <= p * stride,
        p * stride + stride <= len,
{
    assert(0 <= p * stride && (p + 1) * stride <= (len / stride) * stride
        && p * stride + stride == (p + 1) * stride) by (nonlinear_arith)
        requires
            stride >= 1,
            0 <= p,
            p + 1 <= len / stride,
    ;
    assert((len / stride) * stride <= len) by (nonlinear_arith)
        requires
            stride >= 1,
            len >= 0,
    ;
}

/// A derived luma frame has one byte per pixel, or none at all.
pub proof fn lemma_grayscale_len(frame: Seq<u8>, width: int, height: int)
    requires
        width >= 0,
        height >= 0,
    ensures
        grayscale(frame, width, height).len() == (if frame_stride(
            frame.len() as int,
            width,
            height,
        ) is Some {
            width * height
        } else {
            0
        }),
{
    assert(width * height >= 0) by (nonlinear_arith)
        requires
            width >= 0,
            height >= 0,
    ;
}

} // verus!
