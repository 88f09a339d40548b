//! Soft sampling: the smoothed luminance at each lattice point.
//!
//! The luminance at a point is the mean, over a square window around the
//! point, of the means of the 3x3 blocks centred at the pixels of the
//! window. All sums are kept exact; the one division at the end rounds down.

use vstd::prelude::*;
use crate::crop::Bounds;
use crate::error::SignatureError;
use crate::rows::{is_grid, rows_view};

verus! {

/// Half the width of the sampling window, which grows with the smaller side
/// `s` of the cropped rectangle: half of `max(2, floor(0.5 + s / 20))`,
/// rounded down.
pub open spec fn window_half_width(bounds: Bounds) -> int {
    let across = bounds.upper_x - bounds.lower_x;
    let down = bounds.upper_y - bounds.lower_y;
    let side = if across <= down {
        across
    } else {
        down
    };
    let rounded = (side + 10) / 20;
    let edge = if rounded < 2 {
        2
    } else {
        rounded
    };
    edge / 2
}

/// Sum of the nine pixels of the 3x3 block centred at `(x, y)`.
pub open spec fn block_sum(grid: Seq<Seq<u8>>, x: int, y: int) -> int {
    grid[y - 1][x - 1] + grid[y - 1][x] + grid[y - 1][x + 1] + grid[y][x - 1] + grid[y][x]
        + grid[y][x + 1] + grid[y + 1][x - 1] + grid[y + 1][x] + grid[y + 1][x + 1]
}

/// Sum of the block sums at the first `k` pixels of the column of the
/// window that lies at `x`, counted from the top of the window.
pub open spec fn blocks_in_column(grid: Seq<Seq<u8>>, x: int, y: int, half: int, k: int) -> int
    decreases k,
{
    if k <= 0 {
        0
    } else {
        blocks_in_column(grid, x, y, half, k - 1) + block_sum(grid, x, y - half + k - 1)
    }
}

/// Sum of the block sums over the first `k` columns of the window around
/// `(x, y)`, counted from its left edge.
pub open spec fn blocks_in_window(grid: Seq<Seq<u8>>, x: int, y: int, half: int, k: int) -> int
    decreases k,
{
    if k <= 0 {
        0
    } else {
        blocks_in_window(grid, x, y, half, k - 1) + blocks_in_column(
            grid,
            x - half + k - 1,
            y,
            half,
            2 * half + 1,
        )
    }
}

/// The smoothed luminance at `(x, y)`: the sum of the block sums over the
/// whole window, divided by nine for the mean of a block and by the number
/// of pixels in the window, rounded down.
pub open spec fn soft_average(grid: Seq<Seq<u8>>, x: int, y: int, half: int) -> int {
    blocks_in_window(grid, x, y, half, 2 * half + 1) / (9 * ((2 * half + 1) * (2 * half + 1)))
}

/// Whether the window around `(x, y)`, with the blocks around its pixels,
/// lies inside the grid.
pub open spec fn window_fits(grid: Seq<Seq<u8>>, x: int, y: int, half: int) -> bool {
    &&& half + 1 <= x
    &&& x + half + 1 < grid[0].len()
    &&& half + 1 <= y
    &&& y + half + 1 < grid.len()
}

/// Whether the windows around all the points lie inside the grid.
pub open spec fn all_windows_fit(
    grid: Seq<Seq<u8>>,
    points: Seq<Seq<(usize, usize)>>,
    half: int,
) -> bool {
    forall|j: int, i: int|
        0 <= j < points.len() && 0 <= i < points[j].len() ==> window_fits(
            grid,
            (#[trigger] points[j][i]).0 as int,
            points[j][i].1 as int,
            half,
        )
}

/// The smoothed luminance at each of the points.
pub open spec fn averages_of(grid: Seq<Seq<u8>>, points: Seq<Seq<(usize, usize)>>, half: int) -> Seq<
    Seq<u8>,
> {
    Seq::new(
        points.len(),
        |j: int|
            Seq::new(
                points[j].len(),
                |i: int| soft_average(grid, points[j][i].0 as int, points[j][i].1 as int, half) as u8,
            ),
    )
}

/// A block sum is at most nine times the brightest grey level, and so the
/// smoothed luminance is a grey level between 0 and 255.
pub proof fn law_soft_average_is_a_grey_level(grid: Seq<Seq<u8>>, x: int, y: int, half: int)
    requires
        half >= 0,
    ensures
        0 <= soft_average(grid, x, y, half) <= 255,
{
    let side = 2 * half + 1;
    lemma_blocks_in_window_range(grid, x, y, half, side);
    let sum = blocks_in_window(grid, x, y, half, side);
    let area = side * side;
    assert(area >= 1) by (nonlinear_arith)
        requires
            area == side * side,
            side >= 1,
    ;
    assert(0 <= sum / (9 * area) <= 255) by (nonlinear_arith)
        requires
            0 <= sum <= 2295 * (side * side),
            area == side * side,
            area >= 1,
    ;
}

/// The block sums of the first `k` pixels of a column of the window lie
/// between zero and `k` times the largest block sum.
proof fn lemma_blocks_in_column_range(grid: Seq<Seq<u8>>, x: int, y: int, half: int, k: int)
    requires
        k >= 0,
    ensures
        0 <= blocks_in_column(grid, x, y, half, k) <= 2295 * k,
    decreases k,
{
    if k > 0 {
        lemma_blocks_in_column_range(grid, x, y, half, k - 1);
    }
}

/// The block sums of the first `k` columns of the window lie between zero
/// and `k` times the largest sum of a column.
proof fn lemma_blocks_in_window_range(grid: Seq<Seq<u8>>, x: int, y: int, half: int, k: int)
    requires
        k >= 0,
        half >= 0,
    ensures
        0 <= blocks_in_window(grid, x, y, half, k) <= 2295 * (k * (2 * half + 1)),
    decreases k,
{
    if k > 0 {
        lemma_blocks_in_window_range(grid, x, y, half, k - 1);
        lemma_blocks_in_column_range(grid, x - half + k - 1, y, half, 2 * half + 1);
        assert((k - 1) * (2 * half + 1) + (2 * half + 1) == k * (2 * half + 1))
            by (nonlinear_arith);
    }
}

/// The mean of the 3x3 block centred at `(x, y)`, in ninths of a grey level.
pub fn pixel_average(pixels: &Vec<Vec<u8>>, x: usize, y: usize) -> (ninths: u16)
    requires
        is_grid(rows_view(*pixels), pixels.len() as int, pixels[0].len() as int),
        1 <= x,
        x + 1 < pixels[0].len(),
        1 <= y,
        y + 1 < pixels.len(),
    ensures
        ninths == block_sum(rows_view(*pixels), x as int, y as int),
        ninths <= 9 * 255,
{
    let ghost grid = rows_view(*pixels);
    assert(grid[y - 1].len() == pixels[0].len());
    assert(grid[y as int].len() == pixels[0].len());
    assert(grid[y + 1].len() == pixels[0].len());
    let above: &Vec<u8> = &pixels[y - 1];
    let level: &Vec<u8> = &pixels[y];
    let below: &Vec<u8> = &pixels[y + 1];
    above[x - 1] as u16 + above[x] as u16 + above[x + 1] as u16 + level[x - 1] as u16
        + level[x] as u16 + level[x + 1] as u16 + below[x - 1] as u16 + below[x] as u16
        + below[x + 1] as u16
}

/// Computes half the width of the sampling window.
fn square_edge(bounds: &Bounds) -> (half: usize)
    requires
        bounds.lower_x <= bounds.upper_x,
        bounds.lower_y <= bounds.upper_y,
    ensures
        half == window_half_width(*bounds),
        1 <= half,
        40 * half <= usize::MAX,
{
    let across: usize = bounds.upper_x - bounds.lower_x;
    let down: usize = bounds.upper_y - bounds.lower_y;
    let side: usize = if across <= down {
        across
    } else {
        down
    };
    // floor((side + 10) / 20), without leaving the range of `usize`.
    let rounded: usize = side / 20 + if side % 20 >= 10 {
        1
    } else {
        0
    };
    let edge: usize = if rounded < 2 {
        2
    } else {
        rounded
    };
    edge / 2
}

/// Computes the smoothed luminance at one point whose window fits.
fn average_at_point(pixels: &Vec<Vec<u8>>, x: usize, y: usize, half: usize) -> (level: u8)
    requires
        pixels.len() >= 1,
        is_grid(rows_view(*pixels), pixels.len() as int, pixels[0].len() as int),
        pixels.len() * pixels[0].len() <= usize::MAX,
        window_fits(rows_view(*pixels), x as int, y as int, half as int),
    ensures
        level == soft_average(rows_view(*pixels), x as int, y as int, half as int),
{
    let ghost grid = rows_view(*pixels);
    let side: usize = 2 * half + 1;
    let left: usize = x - half;
    let top: usize = y - half;
    proof {
        assert(side * side <= pixels.len() * pixels[0].len()) by (nonlinear_arith)
            requires
                0 <= side <= pixels.len(),
                side <= pixels[0].len(),
        ;
    }
    let area: u128 = (side as u128) * (side as u128);
    let mut sum: u128 = 0;
    let mut i: usize = 0;
    while i < side
        invariant
            grid == rows_view(*pixels),
            pixels.len() >= 1,
            is_grid(grid, pixels.len() as int, pixels[0].len() as int),
            window_fits(grid, x as int, y as int, half as int),
            side == 2 * half + 1,
            left == x - half,
            top == y - half,
            side * side <= usize::MAX,
            i <= side,
            sum == blocks_in_window(grid, x as int, y as int, half as int, i as int),
            sum <= 2295 * (i * side),
        decreases side - i,
    {
        let mut j: usize = 0;
        let ghost before = sum;
        proof {
            assert(i * side + side <= side * side) by (nonlinear_arith)
                requires
                    i < side,
            ;
        }
        while j < side
            invariant
                grid == rows_view(*pixels),
                pixels.len() >= 1,
                is_grid(grid, pixels.len() as int, pixels[0].len() as int),
                window_fits(grid, x as int, y as int, half as int),
                side == 2 * half + 1,
                left == x - half,
                top == y - half,
                i < side,
                j <= side,
                i * side + side <= usize::MAX,
                sum == before + blocks_in_column(
                    grid,
                    left + i,
                    y as int,
                    half as int,
                    j as int,
                ),
                before <= 2295 * (i * side),
                sum <= 2295 * (i * side + j),
            decreases side - j,
        {
            let ninths: u16 = pixel_average(pixels, left + i, top + j);
            sum = sum + ninths as u128;
            j += 1;
        }
        proof {
            assert(i * side + side == (i + 1) * side) by (nonlinear_arith);
        }
        i += 1;
    }
    proof {
        assert(area >= 1) by (nonlinear_arith)
            requires
                area == side * side,
                side >= 1,
        ;
        assert(sum as int / (9 * area) <= 255) by (nonlinear_arith)
            requires
                sum <= 2295 * area,
                area >= 1,
        ;
    }
    (sum / (9 * area)) as u8
}

/// Computes the smoothed luminance at each lattice point. Fails if the
/// window around a point reaches outside the grid.
pub fn grid_averages(
    pixels: &Vec<Vec<u8>>,
    points: &Vec<Vec<(usize, usize)>>,
    bounds: &Bounds,
) -> (result: Result<Vec<Vec<u8>>, SignatureError>)
    requires
        pixels.len() >= 1,
        is_grid(rows_view(*pixels), pixels.len() as int, pixels[0].len() as int),
        pixels.len() * pixels[0].len() <= usize::MAX,
        bounds.lower_x <= bounds.upper_x,
        bounds.lower_y <= bounds.upper_y,
    ensures
        result is Ok <==> all_windows_fit(
            rows_view(*pixels),
            rows_view(*points),
            window_half_width(*bounds),
        ),
        result matches Ok(averages) ==> rows_view(averages) == averages_of(
            rows_view(*pixels),
            rows_view(*points),
            window_half_width(*bounds),
        ),
        result matches Err(e) ==> e == SignatureError::OutOfRange,
{
    let ghost grid = rows_view(*pixels);
    let ghost placed = rows_view(*points);
    let half: usize = square_edge(bounds);
    let height: usize = pixels.len();
    let width: usize = pixels[0].len();
    let mut result: Vec<Vec<u8>> = Vec::new();
    let mut j: usize = 0;
    while j < points.len()
        invariant
            grid == rows_view(*pixels),
            placed == rows_view(*points),
            height == pixels.len(),
            width == pixels[0].len(),
            height >= 1,
            is_grid(grid, height as int, width as int),
            height * width <= usize::MAX,
            half == window_half_width(*bounds),
            1 <= half,
            40 * half <= usize::MAX,
            j <= points.len(),
            result.len() == j,
            forall|b: int, a: int|
                0 <= b < j && 0 <= a < placed[b].len() ==> window_fits(
                    grid,
                    (#[trigger] placed[b][a]).0 as int,
                    placed[b][a].1 as int,
                    half as int,
                ),
            forall|b: int|
                0 <= b < j ==> (#[trigger] result@[b])@ == averages_of(grid, placed, half as int)[b],
        decreases points.len() - j,
    {
        let row_points: &Vec<(usize, usize)> = &points[j];
        let mut row: Vec<u8> = Vec::new();
        let mut i: usize = 0;
        while i < row_points.len()
            invariant
                grid == rows_view(*pixels),
                placed == rows_view(*points),
                row_points@ == placed[j as int],
                height == pixels.len(),
                width == pixels[0].len(),
                height >= 1,
                is_grid(grid, height as int, width as int),
                height * width <= usize::MAX,
                half == window_half_width(*bounds),
                1 <= half,
                40 * half <= usize::MAX,
                j < points.len(),
                i <= row_points.len(),
                row.len() == i,
                forall|a: int|
                    0 <= a < i ==> window_fits(
                        grid,
                        (#[trigger] placed[j as int][a]).0 as int,
                        placed[j as int][a].1 as int,
                        half as int,
                    ),
                forall|a: int|
                    0 <= a < i ==> #[trigger] row@[a] == soft_average(
                        grid,
                        placed[j as int][a].0 as int,
                        placed[j as int][a].1 as int,
                        half as int,
                    ) as u8,
            decreases row_points.len() - i,
        {
            let (point_x, point_y): (usize, usize) = row_points[i];
            if point_x <= half || point_y <= half || point_x >= width || point_y >= height
                || width - point_x <= half + 1 || height - point_y <= half + 1 {
                proof {
                    assert(!window_fits(
                        grid,
                        placed[j as int][i as int].0 as int,
                        placed[j as int][i as int].1 as int,
                        half as int,
                    ));
                }
                return Err(SignatureError::OutOfRange);
            }
            let level: u8 = average_at_point(pixels, point_x, point_y, half);
            row.push(level);
            i += 1;
        }
        result.push(row);
        j += 1;
    }
    Ok(result)
}

} // verus!
