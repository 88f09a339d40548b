//! What holds of the signature and of the comparison as a whole.

use vstd::prelude::*;
use crate::balance::{count_of, lemma_labels_balance};
use crate::crop::{
    column_activity, crop_bounds, lemma_lower_cut, lemma_upper_cut, row_activity, threshold_of,
    total, Bounds,
};
use crate::error::SignatureError;
use crate::gray::gray_grid;
use crate::grid::{cell_width, placed_points};
use crate::quantize::{is_lattice, lemma_signature_len, raw_diffs, signature};
use crate::rows::is_grid;
use crate::sample::{averages_of, window_fits, window_half_width};
use crate::similarity::{
    cosine_at_least, cosine_is_one, dot_product, lemma_dot_product_range,
    lemma_dot_product_symmetric, norm_squared, similarity, Similarity,
};
use crate::symmetry::lemma_lattice_diffs_symmetric;
use crate::{default_signature, outcome, signature_len, signature_of_gray, tuned_signature};

verus! {

/// The signature is determined by the image: two computations on the same
/// buffer and width end alike, with the same vector or with the same error.
pub proof fn law_signature_is_determined(
    rgba: Seq<u8>,
    width: int,
    first: Result<Vec<i8>, SignatureError>,
    second: Result<Vec<i8>, SignatureError>,
)
    requires
        outcome(first) == default_signature(rgba, width),
        outcome(second) == default_signature(rgba, width),
    ensures
        outcome(first) == outcome(second),
        first is Ok <==> second is Ok,
        first matches Ok(a) ==> (second matches Ok(b) && a@ == b@),
        first matches Err(e) ==> second == Err::<Vec<i8>, SignatureError>(e),
{
}

/// A signature has `8 (g - 1)^2 - 12 (g - 3) - 20` entries for a grid of `g`
/// cells a side, whatever the image and the crop.
pub proof fn law_signature_length(rgba: Seq<u8>, width: int, num: nat, den: nat, grid_size: int)
    requires
        tuned_signature(rgba, width, num, den, grid_size) is Ok,
    ensures
        tuned_signature(rgba, width, num, den, grid_size)->Ok_0.len() == signature_len(grid_size),
{
    let gray = gray_grid(rgba, width);
    let bounds = crop_bounds(gray, num, den);
    let averages = averages_of(gray, placed_points(bounds, grid_size), window_half_width(bounds));
    lemma_signature_len(averages);
    let n = grid_size - 1;
    assert(8 * n * n - 12 * n + 4 == signature_len(grid_size)) by (nonlinear_arith)
        requires
            n == grid_size - 1,
    ;
}

/// Under the default tuning a signature has 544 entries.
pub proof fn law_default_signature_length(rgba: Seq<u8>, width: int)
    requires
        default_signature(rgba, width) is Ok,
    ensures
        default_signature(rgba, width)->Ok_0.len() == 544,
{
    law_signature_length(rgba, width, 1, 20, 10);
}

/// The cropped rectangle lies inside the grid.
pub proof fn law_crop_inside_grid(gray: Seq<Seq<u8>>, height: int, width: int, num: nat, den: nat)
    requires
        is_grid(gray, height, width),
        1 <= height <= usize::MAX,
        1 <= width <= usize::MAX,
    ensures
        crop_bounds(gray, num, den).lower_x < width,
        crop_bounds(gray, num, den).upper_x < width,
        crop_bounds(gray, num, den).lower_y < height,
        crop_bounds(gray, num, den).upper_y < height,
{
    let rows = row_activity(gray);
    let columns = column_activity(gray);
    let row_threshold = threshold_of(total(rows), num, den);
    let column_threshold = threshold_of(total(columns), num, den);
    lemma_lower_cut(rows, row_threshold, 0);
    lemma_upper_cut(rows, row_threshold, height - 1);
    lemma_lower_cut(columns, column_threshold, 0);
    lemma_upper_cut(columns, column_threshold, width - 1);
}

/// On a flat grid nothing is cut away: the cropped rectangle is the whole
/// grid.
pub proof fn law_flat_grid_is_not_cropped(
    gray: Seq<Seq<u8>>,
    height: int,
    width: int,
    num: nat,
    den: nat,
)
    requires
        is_grid(gray, height, width),
        1 <= height <= usize::MAX,
        1 <= width <= usize::MAX,
        den > 0,
        total(row_activity(gray)) == 0,
        total(column_activity(gray)) == 0,
    ensures
        crop_bounds(gray, num, den) == (Bounds {
            lower_x: 0,
            upper_x: (width - 1) as usize,
            lower_y: 0,
            upper_y: (height - 1) as usize,
        }),
{
    // With no activity the threshold is zero, and neither walk takes a step.
    assert(0int / (den as int) == 0) by (nonlinear_arith)
        requires
            den > 0,
    ;
}

/// Under the default tuning every image whose cropped rectangle spans at
/// least twenty pixels each way has a signature, of 544 entries.
pub proof fn law_roomy_crop_has_signature(gray: Seq<Seq<u8>>, height: int, width: int)
    requires
        is_grid(gray, height, width),
        1 <= height <= usize::MAX,
        1 <= width <= usize::MAX,
        crop_bounds(gray, 1, 20).upper_x - crop_bounds(gray, 1, 20).lower_x >= 20,
        crop_bounds(gray, 1, 20).upper_y - crop_bounds(gray, 1, 20).lower_y >= 20,
    ensures
        signature_of_gray(gray, 1, 20, 10) is Ok,
        signature_of_gray(gray, 1, 20, 10)->Ok_0.len() == 544,
{
    let bounds = crop_bounds(gray, 1, 20);
    let points = placed_points(bounds, 10);
    let half = window_half_width(bounds);
    law_crop_inside_grid(gray, height, width, 1, 20);
    let cell_x = cell_width(bounds.lower_x as int, bounds.upper_x as int, 10);
    let cell_y = cell_width(bounds.lower_y as int, bounds.upper_y as int, 10);
    // A cell is wider than half a window with its rim, and nine cells with
    // half a window and its rim fit into the span.
    assert forall|j: int, i: int| 0 <= j < points.len() && 0 <= i < points[j].len() implies window_fits(
        gray,
        (#[trigger] points[j][i]).0 as int,
        points[j][i].1 as int,
        half,
    ) by {
        assert(cell_x <= (i + 1) * cell_x <= 9 * cell_x) by (nonlinear_arith)
            requires
                0 <= i < 9,
                0 <= cell_x,
        ;
        assert(cell_y <= (j + 1) * cell_y <= 9 * cell_y) by (nonlinear_arith)
            requires
                0 <= j < 9,
                0 <= cell_y,
        ;
    }
    lemma_signature_len(averages_of(gray, points, half));
}

/// A vector that is not zero has cosine one with itself.
pub proof fn law_self_similarity(sig: Seq<i8>)
    requires
        norm_squared(sig) > 0,
        sig.len() <= usize::MAX,
    ensures
        cosine_is_one(dot_product(sig, sig), norm_squared(sig), norm_squared(sig)),
        similarity(sig, sig).one(),
        similarity(sig, sig).similar(),
{
    lemma_dot_product_range(sig, sig);
    let n = norm_squared(sig);
    assert(25 * (n * n) >= 9 * (n * n)) by (nonlinear_arith);
}

/// The cosine of `b` and `a` is that of `a` and `b`: the dot products are
/// equal and the two lengths change places, so that every comparison of the
/// cosine against a cutoff ends alike.
pub proof fn law_similarity_is_symmetric(a: Seq<i8>, b: Seq<i8>)
    requires
        a.len() == b.len(),
    ensures
        dot_product(a, b) == dot_product(b, a),
        similarity(b, a) == (Similarity {
            dot: similarity(a, b).dot,
            norm_a: similarity(a, b).norm_b,
            norm_b: similarity(a, b).norm_a,
        }),
        similarity(a, b).similar() == similarity(b, a).similar(),
        similarity(a, b).one() == similarity(b, a).one(),
        forall|num: int, den: int|
            cosine_at_least(dot_product(a, b), norm_squared(a), norm_squared(b), num, den)
                == cosine_at_least(dot_product(b, a), norm_squared(b), norm_squared(a), num, den),
{
    lemma_dot_product_symmetric(a, b);
    let s = similarity(a, b);
    assert((s.norm_a as int) * (s.norm_b as int) == (s.norm_b as int) * (s.norm_a as int))
        by (nonlinear_arith);
    assert(norm_squared(a) * norm_squared(b) == norm_squared(b) * norm_squared(a))
        by (nonlinear_arith);
}

/// The signature of a lattice has as many entries "much lighter" as "much
/// darker", and as many "lighter" as "darker": every pair of neighbours is
/// compared from both sides, and the two thresholds are opposite.
pub proof fn law_lattice_signature_is_balanced(averages: Seq<Seq<u8>>)
    requires
        is_lattice(averages, averages.len() as int),
    ensures
        count_of(signature(averages), 2) == count_of(signature(averages), -2i8),
        count_of(signature(averages), 1) == count_of(signature(averages), -1i8),
{
    lemma_lattice_diffs_symmetric(averages);
    lemma_labels_balance(raw_diffs(averages).flatten(), 2);
    lemma_labels_balance(raw_diffs(averages).flatten(), 1);
}

/// Every signature of an image has as many entries "much lighter" as "much
/// darker", and as many "lighter" as "darker".
pub proof fn law_signature_is_balanced(
    rgba: Seq<u8>,
    width: int,
    num: nat,
    den: nat,
    grid_size: int,
)
    requires
        tuned_signature(rgba, width, num, den, grid_size) is Ok,
    ensures
        count_of(tuned_signature(rgba, width, num, den, grid_size)->Ok_0, 2) == count_of(
            tuned_signature(rgba, width, num, den, grid_size)->Ok_0,
            -2i8,
        ),
        count_of(tuned_signature(rgba, width, num, den, grid_size)->Ok_0, 1) == count_of(
            tuned_signature(rgba, width, num, den, grid_size)->Ok_0,
            -1i8,
        ),
{
    let gray = gray_grid(rgba, width);
    let bounds = crop_bounds(gray, num, den);
    let averages = averages_of(gray, placed_points(bounds, grid_size), window_half_width(bounds));
    law_lattice_signature_is_balanced(averages);
}

} // verus!
