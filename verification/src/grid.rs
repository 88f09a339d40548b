//! Placement of the lattice of sample points inside the cropped rectangle.

use vstd::prelude::*;
use crate::crop::Bounds;
use crate::rows::{is_grid, rows_view};

verus! {

/// Width of one of the `grid_size` equal cells into which the span from
/// `lower` to `upper` is divided, rounded down.
pub open spec fn cell_width(lower: int, upper: int, grid_size: int) -> int {
    (upper - lower) / grid_size
}

/// The pixel at which the lattice point `(gx, gy)` is placed: the corner of
/// the cropped rectangle moved by `gx` cells to the right and `gy` cells
/// down.
pub open spec fn point_of(bounds: Bounds, grid_size: int, gx: int, gy: int) -> (usize, usize) {
    (
        (bounds.lower_x + gx * cell_width(
            bounds.lower_x as int,
            bounds.upper_x as int,
            grid_size,
        )) as usize,
        (bounds.lower_y + gy * cell_width(
            bounds.lower_y as int,
            bounds.upper_y as int,
            grid_size,
        )) as usize,
    )
}

/// The lattice of sample points: `grid_size - 1` rows of `grid_size - 1`
/// points, the point `(gx, gy)` at row `gy - 1` and column `gx - 1`.
pub open spec fn placed_points(bounds: Bounds, grid_size: int) -> Seq<Seq<(usize, usize)>> {
    Seq::new(
        (grid_size - 1) as nat,
        |j: int| Seq::new((grid_size - 1) as nat, |i: int| point_of(bounds, grid_size, i + 1, j + 1)),
    )
}

/// A whole number of cells, no more than there are in the grid, does not
/// lead out of the span.
pub proof fn lemma_cells_within_span(lower: int, upper: int, grid_size: int, g: int)
    requires
        lower <= upper,
        0 <= g <= grid_size,
        grid_size >= 1,
    ensures
        0 <= cell_width(lower, upper, grid_size),
        lower <= lower + g * cell_width(lower, upper, grid_size) <= upper,
{
    let span = upper - lower;
    let cell = span / grid_size;
    vstd::arithmetic::div_mod::lemma_fundamental_div_mod(span, grid_size);
    assert(0 <= cell) by (nonlinear_arith)
        requires
            cell == span / grid_size,
            span >= 0,
            grid_size >= 1,
    ;
    assert(0 <= g * cell <= grid_size * cell) by (nonlinear_arith)
        requires
            0 <= g <= grid_size,
            0 <= cell,
    ;
}

/// Places the lattice of sample points inside the cropped rectangle.
pub fn grid_points(bounds: &Bounds, grid_size: usize) -> (points: Vec<Vec<(usize, usize)>>)
    requires
        grid_size >= 2,
        bounds.lower_x <= bounds.upper_x,
        bounds.lower_y <= bounds.upper_y,
    ensures
        rows_view(points) == placed_points(*bounds, grid_size as int),
        is_grid(rows_view(points), grid_size - 1, grid_size - 1),
{
    let x_width: usize = (bounds.upper_x - bounds.lower_x) / grid_size;
    let y_width: usize = (bounds.upper_y - bounds.lower_y) / grid_size;
    let mut points: Vec<Vec<(usize, usize)>> = Vec::new();
    let mut y: usize = 1;
    while y < grid_size
        invariant
            grid_size >= 2,
            bounds.lower_x <= bounds.upper_x,
            bounds.lower_y <= bounds.upper_y,
            x_width == cell_width(bounds.lower_x as int, bounds.upper_x as int, grid_size as int),
            y_width == cell_width(bounds.lower_y as int, bounds.upper_y as int, grid_size as int),
            1 <= y <= grid_size,
            points.len() == y - 1,
            forall|j: int|
                0 <= j < y - 1 ==> (#[trigger] points@[j])@ == placed_points(
                    *bounds,
                    grid_size as int,
                )[j],
        decreases grid_size - y,
    {
        proof {
            lemma_cells_within_span(
                bounds.lower_y as int,
                bounds.upper_y as int,
                grid_size as int,
                y as int,
            );
        }
        let py: usize = bounds.lower_y + y * y_width;
        let mut row: Vec<(usize, usize)> = Vec::new();
        let mut x: usize = 1;
        while x < grid_size
            invariant
                grid_size >= 2,
                bounds.lower_x <= bounds.upper_x,
                x_width == cell_width(
                    bounds.lower_x as int,
                    bounds.upper_x as int,
                    grid_size as int,
                ),
                1 <= y < grid_size,
                py == point_of(*bounds, grid_size as int, 1, y as int).1,
                1 <= x <= grid_size,
                row.len() == x - 1,
                forall|i: int|
                    0 <= i < x - 1 ==> #[trigger] row@[i] == point_of(
                        *bounds,
                        grid_size as int,
                        i + 1,
                        y as int,
                    ),
            decreases grid_size - x,
        {
            proof {
                lemma_cells_within_span(
                    bounds.lower_x as int,
                    bounds.upper_x as int,
                    grid_size as int,
                    x as int,
                );
            }
            let px: usize = bounds.lower_x + x * x_width;
            row.push((px, py));
            x += 1;
        }
        points.push(row);
        y += 1;
    }
    points
}

} // verus!
