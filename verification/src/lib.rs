//! Perceptual image signatures for near-duplicate detection.
//!
//! An image, given as a buffer of RGBA bytes, is reduced to a grid of grey
//! levels, cropped to the rectangle where its detail lies, sampled on a
//! lattice of points and summarized by the differences between neighbouring
//! samples, each labelled from -2 ("much darker") to 2 ("much lighter").
//! Two signatures are compared by the cosine of the angle between them.

use vstd::prelude::*;

pub mod balance;
pub mod crop;
pub mod error;
pub mod gray;
pub mod grid;
pub mod laws;
pub mod quantize;
pub mod rows;
pub mod sample;
pub mod similarity;
pub mod symmetry;

use crate::crop::{crop_bounds, crop_boundaries, default_crop, Bounds, Crop};
use crate::error::SignatureError;
use crate::gray::{gray_grid, grayscale_buffer, valid_dimensions};
use crate::grid::{grid_points, placed_points};
use crate::quantize::{compute_signature, signature};
use crate::rows::{is_grid, rows_view};
use crate::sample::{all_windows_fit, averages_of, grid_averages, window_half_width};

pub use crate::similarity::cosine_similarity;

verus! {

/// The number of cells along each side of the sampling grid by default.
pub const DEFAULT_GRID_SIZE: usize = 10;

/// The result of a signature computation with the vector seen as a
/// sequence.
pub open spec fn outcome(result: Result<Vec<i8>, SignatureError>) -> Result<
    Seq<i8>,
    SignatureError,
> {
    match result {
        Ok(signature) => Ok(signature@),
        Err(e) => Err(e),
    }
}

/// Number of entries of a signature for a grid of `grid_size` cells a side.
pub open spec fn signature_len(grid_size: int) -> int {
    8 * (grid_size - 1) * (grid_size - 1) - 12 * (grid_size - 3) - 20
}

/// The signature of a grayscale grid for the crop fraction `num / den` and
/// the given grid size, or `OutOfRange` where the cropped rectangle is empty
/// or a sampling window reaches outside the grid.
pub open spec fn signature_of_gray(gray: Seq<Seq<u8>>, num: nat, den: nat, grid_size: int) -> Result<
    Seq<i8>,
    SignatureError,
> {
    let bounds = crop_bounds(gray, num, den);
    let points = placed_points(bounds, grid_size);
    let half = window_half_width(bounds);
    if bounds.lower_x > bounds.upper_x || bounds.lower_y > bounds.upper_y || !all_windows_fit(
        gray,
        points,
        half,
    ) {
        Err(SignatureError::OutOfRange)
    } else {
        Ok(signature(averages_of(gray, points, half)))
    }
}

/// The signature of an RGBA buffer whose rows are `width` pixels wide, or
/// `InvalidDimensions` where the buffer is empty or does not hold whole rows
/// or the grid has fewer than two cells a side.
pub open spec fn tuned_signature(
    rgba: Seq<u8>,
    width: int,
    num: nat,
    den: nat,
    grid_size: int,
) -> Result<Seq<i8>, SignatureError> {
    if !valid_dimensions(rgba.len() as int, width) || rgba.len() == 0 || grid_size < 2 {
        Err(SignatureError::InvalidDimensions)
    } else {
        signature_of_gray(gray_grid(rgba, width), num, den, grid_size)
    }
}

/// The signature of an RGBA buffer under the default tuning: one twentieth
/// cut away on each side and a grid of ten cells a side.
pub open spec fn default_signature(rgba: Seq<u8>, width: int) -> Result<Seq<i8>, SignatureError> {
    tuned_signature(rgba, width, 1, 20, DEFAULT_GRID_SIZE as int)
}

/// Computes the signature of a grayscale grid: crops it, places the lattice
/// of sample points, samples and quantizes. Fails with `OutOfRange` where the
/// cuts cross or a sampling window reaches outside the grid.
pub fn compute_from_gray(gray: Vec<Vec<u8>>, crop: Crop, grid_size: usize) -> (result: Result<
    Vec<i8>,
    SignatureError,
>)
    requires
        gray.len() >= 1,
        gray[0].len() >= 1,
        is_grid(rows_view(gray), gray.len() as int, gray[0].len() as int),
        gray.len() * gray[0].len() <= usize::MAX,
        grid_size >= 2,
    ensures
        outcome(result) == signature_of_gray(
            rows_view(gray),
            crop.num(),
            crop.den(),
            grid_size as int,
        ),
        result matches Ok(sig) ==> sig.len() == signature_len(grid_size as int) && forall|i: int|
            0 <= i < sig.len() ==> -2 <= #[trigger] sig[i] <= 2,
{
    let bounds: Bounds = crop_boundaries(&gray, crop);
    if bounds.lower_x > bounds.upper_x || bounds.lower_y > bounds.upper_y {
        return Err(SignatureError::OutOfRange);
    }
    let points: Vec<Vec<(usize, usize)>> = grid_points(&bounds, grid_size);
    match grid_averages(&gray, &points, &bounds) {
        Err(e) => Err(e),
        Ok(averages) => {
            proof {
                let n = grid_size as int - 1;
                assert(8 * n * n - 12 * n + 4 == signature_len(grid_size as int))
                    by (nonlinear_arith)
                    requires
                        n == grid_size as int - 1,
                ;
            }
            Ok(compute_signature(&averages, grid_size))
        },
    }
}

/// Computes the signature of an image, given as RGBA bytes in rows of
/// `width` pixels, for the crop fraction and the grid size given. The result
/// is meant to be compared, by `cosine_similarity`, with signatures computed
/// with the same tuning.
///
/// Fails with `InvalidDimensions` where the buffer is empty or does not hold
/// whole rows of `width` pixels or `grid_size` is below two, and with
/// `OutOfRange` where the image is too small or too bare for its sampling
/// windows.
pub fn get_tuned_buffer_signature(
    rgba_buffer: &[u8],
    width: usize,
    crop: Crop,
    grid_size: usize,
) -> (result: Result<Vec<i8>, SignatureError>)
    ensures
        outcome(result) == tuned_signature(
            rgba_buffer@,
            width as int,
            crop.num(),
            crop.den(),
            grid_size as int,
        ),
        result matches Ok(sig) ==> sig.len() == signature_len(grid_size as int) && forall|i: int|
            0 <= i < sig.len() ==> -2 <= #[trigger] sig[i] <= 2,
{
    if grid_size < 2 || rgba_buffer.len() == 0 {
        return Err(SignatureError::InvalidDimensions);
    }
    match grayscale_buffer(rgba_buffer, width) {
        Err(e) => Err(e),
        Ok(gray) => {
            proof {
                let len = rgba_buffer@.len() as int;
                let w = width as int;
                vstd::arithmetic::div_mod::lemma_fundamental_div_mod(len, 4 * w);
                assert(len / (4 * w) >= 1 && (len / (4 * w)) * w <= len) by (nonlinear_arith)
                    requires
                        len == (4 * w) * (len / (4 * w)),
                        len > 0,
                        w > 0,
                ;
            }
            compute_from_gray(gray, crop, grid_size)
        },
    }
}

/// Computes the signature of an image, given as RGBA bytes in rows of
/// `width` pixels, under the default tuning. It has 544 entries. Fails as
/// `get_tuned_buffer_signature` does.
pub fn get_buffer_signature(rgba_buffer: &[u8], width: usize) -> (result: Result<
    Vec<i8>,
    SignatureError,
>)
    ensures
        outcome(result) == default_signature(rgba_buffer@, width as int),
        result matches Ok(sig) ==> sig.len() == 544 && forall|i: int|
            0 <= i < sig.len() ==> -2 <= #[trigger] sig[i] <= 2,
{
    get_tuned_buffer_signature(rgba_buffer, width, default_crop(), DEFAULT_GRID_SIZE)
}

} // verus!
