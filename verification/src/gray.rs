//! Reduction of an RGBA byte buffer to a grid of luminance values.

use vstd::prelude::*;
use crate::error::SignatureError;
use crate::rows::{is_grid, rows_view};

verus! {

/// Luminance of one pixel: the truncated mean of the three colour channels,
/// attenuated towards black by `a / 255` and truncated again. An opaque
/// pixel keeps its mean, a transparent one is black.
pub open spec fn gray_level(r: u8, g: u8, b: u8, a: u8) -> int {
    ((r as int + g as int + b as int) / 3) * (a as int) / 255
}

/// Whether a buffer of `len` bytes holds whole rows of `width` pixels of
/// four bytes each.
pub open spec fn valid_dimensions(len: int, width: int) -> bool {
    width > 0 && len % (4 * width) == 0
}

/// Luminance of the pixel in column `x` of row `y` of a buffer whose rows
/// are `width` pixels wide.
pub open spec fn gray_at(rgba: Seq<u8>, width: int, x: int, y: int) -> u8 {
    let at = 4 * (y * width + x);
    gray_level(rgba[at], rgba[at + 1], rgba[at + 2], rgba[at + 3]) as u8
}

/// The grayscale grid of a buffer: `len / (4 * width)` rows of `width`
/// luminance values.
pub open spec fn gray_grid(rgba: Seq<u8>, width: int) -> Seq<Seq<u8>> {
    Seq::new(
        (rgba.len() as int / (4 * width)) as nat,
        |y: int| Seq::new(width as nat, |x: int| gray_at(rgba, width, x, y)),
    )
}

/// The luminance of a pixel is a grey level between 0 and 255.
pub proof fn law_gray_level_is_a_grey_level(r: u8, g: u8, b: u8, a: u8)
    ensures
        0 <= gray_level(r, g, b, a) <= 255,
        a == 255 ==> gray_level(r, g, b, a) == (r as int + g as int + b as int) / 3,
        a == 0 ==> gray_level(r, g, b, a) == 0,
{
    let mean = (r as int + g as int + b as int) / 3;
    assert(0 <= mean * a <= 255 * 255) by (nonlinear_arith)
        requires
            0 <= mean <= 255,
            0 <= a <= 255,
    ;
}

/// Computes the luminance of one pixel.
pub fn pixel_gray(r: u8, g: u8, b: u8, a: u8) -> (v: u8)
    ensures
        v as int == gray_level(r, g, b, a),
{
    let rgb_avg: u32 = (r as u32 + g as u32 + b as u32) / 3;
    assert(rgb_avg * a <= 255 * 255) by (nonlinear_arith)
        requires
            rgb_avg <= 255,
            a <= 255,
    ;
    let scaled: u32 = rgb_avg * (a as u32) / 255;
    scaled as u8
}

/// Converts an RGBA buffer whose rows are `width` pixels wide into its
/// grayscale grid. Fails if the width is zero or the buffer does not hold
/// whole rows.
pub fn grayscale_buffer(rgba_buffer: &[u8], width: usize) -> (result: Result<
    Vec<Vec<u8>>,
    SignatureError,
>)
    ensures
        result is Ok <==> valid_dimensions(rgba_buffer@.len() as int, width as int),
        result matches Ok(gray) ==> rows_view(gray) == gray_grid(rgba_buffer@, width as int)
            && is_grid(
            rows_view(gray),
            rgba_buffer@.len() as int / (4 * width as int),
            width as int,
        ),
        result matches Err(e) ==> e == SignatureError::InvalidDimensions,
{
    let len: usize = rgba_buffer.len();
    if width == 0 {
        return Err(SignatureError::InvalidDimensions);
    }
    if width > len / 4 {
        // One row is longer than the whole buffer.
        if len == 0 {
            return Ok(Vec::new());
        }
        proof {
            vstd::arithmetic::div_mod::lemma_small_mod(len as nat, (4 * width) as nat);
        }
        return Err(SignatureError::InvalidDimensions);
    }
    let stride: usize = 4 * width;
    if len % stride != 0 {
        return Err(SignatureError::InvalidDimensions);
    }
    let height: usize = len / stride;
    proof {
        vstd::arithmetic::div_mod::lemma_fundamental_div_mod(len as int, stride as int);
    }
    let mut result: Vec<Vec<u8>> = Vec::new();
    let mut idx: usize = 0;
    let mut y: usize = 0;
    while y < height
        invariant
            width > 0,
            stride == 4 * width,
            len == rgba_buffer@.len(),
            len == stride * height,
            rgba_buffer@.len() as int / (4 * width as int) == height,
            y <= height,
            idx == stride * y,
            result.len() == y,
            forall|j: int|
                0 <= j < y ==> (#[trigger] result@[j])@ == gray_grid(
                    rgba_buffer@,
                    width as int,
                )[j],
        decreases height - y,
    {
        let mut row: Vec<u8> = Vec::new();
        let mut x: usize = 0;
        proof {
            assert(stride * y + stride <= stride * height) by (nonlinear_arith)
                requires
                    y < height,
            ;
        }
        while x < width
            invariant
                width > 0,
                stride == 4 * width,
                len == rgba_buffer@.len(),
                stride * y + stride <= len,
                rgba_buffer@.len() as int / (4 * width as int) == height,
                y < height,
                x <= width,
                idx == stride * y + 4 * x,
                row.len() == x,
                forall|i: int|
                    0 <= i < x ==> #[trigger] row@[i] == gray_at(
                        rgba_buffer@,
                        width as int,
                        i,
                        y as int,
                    ),
            decreases width - x,
        {
            proof {
                assert(stride * y == 4 * (y * width)) by (nonlinear_arith)
                    requires
                        stride == 4 * width,
                ;
            }
            let avg: u8 = pixel_gray(
                rgba_buffer[idx],
                rgba_buffer[idx + 1],
                rgba_buffer[idx + 2],
                rgba_buffer[idx + 3],
            );
            row.push(avg);
            idx += 4;
            x += 1;
        }
        proof {
            assert(stride * y + stride == stride * (y + 1)) by (nonlinear_arith);
        }
        result.push(row);
        y += 1;
    }
    Ok(result)
}

} // verus!
