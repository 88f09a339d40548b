//! Detection of the content-dense rectangle of a grayscale grid.
//!
//! The activity of a row is the sum of the absolute differences between
//! horizontally adjacent pixels, that of a column the same for vertically
//! adjacent pixels. Rows are cut away from the top and from the bottom until
//! the activity cut away reaches a fraction of the whole; columns likewise.

use vstd::prelude::*;
use vstd::arithmetic::div_mod::lemma_fundamental_div_mod_converse;
use crate::rows::{is_grid, rows_view};

verus! {

/// The fraction of the total activity that is cut away on each side, between
/// zero and one half.
#[derive(Clone, Copy, Debug)]
pub struct Crop {
    pub(crate) numerator: u32,
    pub(crate) denominator: u32,
}

impl Crop {
    #[verifier::type_invariant]
    pub closed spec fn well_formed(self) -> bool {
        self.denominator > 0 && 2 * self.numerator <= self.denominator
    }

    /// The numerator of the fraction.
    pub closed spec fn num(self) -> nat {
        self.numerator as nat
    }

    /// The denominator of the fraction.
    pub closed spec fn den(self) -> nat {
        self.denominator as nat
    }

    /// Whether the value is a fraction between zero and one half.
    pub open spec fn is_fraction(self) -> bool {
        self.den() > 0 && 2 * self.num() <= self.den()
    }

    /// Makes the fraction `numerator / denominator`, if it lies between
    /// zero and one half.
    pub fn new(numerator: u32, denominator: u32) -> (crop: Option<Crop>)
        ensures
            crop is Some <==> denominator > 0 && 2 * numerator <= denominator,
            crop matches Some(c) ==> c.num() == numerator && c.den() == denominator,
    {
        if denominator > 0 && numerator <= denominator / 2 {
            Some(Crop { numerator, denominator })
        } else {
            None
        }
    }

    /// The numerator of the fraction.
    pub fn numerator(&self) -> (n: u32)
        ensures
            n == self.num(),
            self.is_fraction(),
    {
        proof {
            use_type_invariant(self);
        }
        self.numerator
    }

    /// The denominator of the fraction.
    pub fn denominator(&self) -> (d: u32)
        ensures
            d == self.den(),
            self.is_fraction(),
    {
        proof {
            use_type_invariant(self);
        }
        self.denominator
    }
}

/// The fraction cut away by default: one twentieth.
pub fn default_crop() -> (crop: Crop)
    ensures
        crop.num() == 1,
        crop.den() == 20,
{
    Crop { numerator: 1, denominator: 20 }
}

/// The cropped rectangle, in pixel coordinates of the grayscale grid: the
/// first and last column and the first and last row that remain.
#[derive(Clone, Copy, Debug, PartialEq, Eq, Structural)]
pub struct Bounds {
    pub lower_x: usize,
    pub upper_x: usize,
    pub lower_y: usize,
    pub upper_y: usize,
}

/// Sum of a sequence of integers.
pub open spec fn total(s: Seq<int>) -> int
    decreases s.len(),
{
    if s.len() == 0 {
        0
    } else {
        total(s.drop_last()) + s.last()
    }
}

/// Absolute difference of two grey levels.
pub open spec fn gap(a: u8, b: u8) -> int {
    if a >= b {
        a - b
    } else {
        b - a
    }
}

/// The absolute differences between horizontally adjacent pixels of row `y`.
pub open spec fn row_gaps(grid: Seq<Seq<u8>>, y: int) -> Seq<int> {
    Seq::new((grid[y].len() - 1) as nat, |i: int| gap(grid[y][i + 1], grid[y][i]))
}

/// The absolute differences between vertically adjacent pixels of column
/// `x`.
pub open spec fn column_gaps(grid: Seq<Seq<u8>>, x: int) -> Seq<int> {
    Seq::new((grid.len() - 1) as nat, |j: int| gap(grid[j + 1][x], grid[j][x]))
}

/// The activity of each row.
pub open spec fn row_activity(grid: Seq<Seq<u8>>) -> Seq<int> {
    Seq::new(grid.len(), |y: int| total(row_gaps(grid, y)))
}

/// The activity of each column.
pub open spec fn column_activity(grid: Seq<Seq<u8>>) -> Seq<int> {
    Seq::new(grid[0].len(), |x: int| total(column_gaps(grid, x)))
}

/// The activity to cut away on each side: the fraction `num / den` of the
/// whole, rounded down.
pub open spec fn threshold_of(whole: int, num: nat, den: nat) -> int {
    whole * num / (den as int)
}

/// Walks from index `from` towards the end and stops at the first index
/// before which the activity has reached `threshold`, at the last index at
/// the latest.
pub open spec fn lower_cut_from(activity: Seq<int>, threshold: int, from: int) -> int
    decreases activity.len() - from,
{
    if from + 1 >= activity.len() || total(activity.take(from)) >= threshold {
        from
    } else {
        lower_cut_from(activity, threshold, from + 1)
    }
}

/// The first index that remains after the cut from the start.
pub open spec fn lower_cut(activity: Seq<int>, threshold: int) -> int {
    lower_cut_from(activity, threshold, 0)
}

/// Walks from index `from` towards the start and stops at the first index
/// behind which the activity has reached `threshold`, at index zero at the
/// latest.
pub open spec fn upper_cut_from(activity: Seq<int>, threshold: int, from: int) -> int
    decreases from,
{
    if from <= 0 || total(activity.skip(from + 1)) >= threshold {
        from
    } else {
        upper_cut_from(activity, threshold, from - 1)
    }
}

/// The last index that remains after the cut from the end.
pub open spec fn upper_cut(activity: Seq<int>, threshold: int) -> int {
    upper_cut_from(activity, threshold, activity.len() - 1)
}

/// The two cuts of a sequence of activities for the fraction `num / den`.
pub open spec fn cuts(activity: Seq<int>, num: nat, den: nat) -> (int, int) {
    let threshold = threshold_of(total(activity), num, den);
    (lower_cut(activity, threshold), upper_cut(activity, threshold))
}

/// The cropped rectangle of a grid for the fraction `num / den`: its
/// columns cut by the activity of the columns, its rows by the activity of
/// the rows.
pub open spec fn crop_bounds(grid: Seq<Seq<u8>>, num: nat, den: nat) -> Bounds {
    let (top, bottom) = cuts(row_activity(grid), num, den);
    let (left, right) = cuts(column_activity(grid), num, den);
    Bounds {
        lower_x: left as usize,
        upper_x: right as usize,
        lower_y: top as usize,
        upper_y: bottom as usize,
    }
}

/// The values of a vector of sums as integers.
pub open spec fn as_ints(sums: Seq<u128>) -> Seq<int> {
    sums.map_values(|v: u128| v as int)
}

/// The sum of a sequence is the sum of a front part and of the rest.
pub proof fn lemma_total_split(s: Seq<int>, k: int)
    requires
        0 <= k <= s.len(),
    ensures
        total(s) == total(s.take(k)) + total(s.skip(k)),
    decreases s.len(),
{
    if k == s.len() {
        assert(s.take(k) =~= s);
    } else {
        lemma_total_split(s.drop_last(), k);
        assert(s.drop_last().take(k) =~= s.take(k));
        assert(s.drop_last().skip(k) =~= s.skip(k).drop_last());
    }
}

/// A sum of entries that lie between zero and `most` lies between zero and
/// `most` times their number.
pub proof fn lemma_total_range(s: Seq<int>, most: int)
    requires
        forall|i: int| 0 <= i < s.len() ==> 0 <= #[trigger] s[i] <= most,
    ensures
        0 <= total(s) <= most * s.len(),
    decreases s.len(),
{
    if s.len() > 0 {
        lemma_total_range(s.drop_last(), most);
        assert(most * (s.len() - 1) + most == most * s.len()) by (nonlinear_arith);
    }
}

/// The first index left by the cut from the start is the least index before
/// which the activity reaches the threshold, or the last index if there is
/// none.
pub proof fn lemma_lower_cut(activity: Seq<int>, threshold: int, from: int)
    requires
        activity.len() >= 1,
        0 <= from < activity.len(),
    ensures
        from <= lower_cut_from(activity, threshold, from) < activity.len(),
        forall|k: int|
            from <= k < lower_cut_from(activity, threshold, from) ==> total(
                #[trigger] activity.take(k),
            ) < threshold,
        lower_cut_from(activity, threshold, from) == activity.len() - 1 || total(
            activity.take(lower_cut_from(activity, threshold, from)),
        ) >= threshold,
    decreases activity.len() - from,
{
    if from + 1 < activity.len() && total(activity.take(from)) < threshold {
        lemma_lower_cut(activity, threshold, from + 1);
    }
}

/// The last index left by the cut from the end is the greatest index behind
/// which the activity reaches the threshold, or index zero if there is none.
pub proof fn lemma_upper_cut(activity: Seq<int>, threshold: int, from: int)
    requires
        0 <= from < activity.len(),
    ensures
        0 <= upper_cut_from(activity, threshold, from) <= from,
        forall|k: int|
            upper_cut_from(activity, threshold, from) < k <= from ==> total(
                #[trigger] activity.skip(k + 1),
            ) < threshold,
        upper_cut_from(activity, threshold, from) == 0 || total(
            activity.skip(upper_cut_from(activity, threshold, from) + 1),
        ) >= threshold,
    decreases from,
{
    if from > 0 && total(activity.skip(from + 1)) < threshold {
        lemma_upper_cut(activity, threshold, from - 1);
    }
}

/// Sums the entries of a vector.
fn sum_of(sums: &Vec<u128>) -> (whole: u128)
    requires
        total(as_ints(sums@)) <= u128::MAX,
    ensures
        whole == total(as_ints(sums@)),
{
    let ghost ints = as_ints(sums@);
    let mut whole: u128 = 0;
    let mut i: usize = 0;
    while i < sums.len()
        invariant
            ints == as_ints(sums@),
            i <= sums.len(),
            whole == total(ints.take(i as int)),
            total(ints) <= u128::MAX,
        decreases sums.len() - i,
    {
        proof {
            assert(ints.take(i + 1).drop_last() =~= ints.take(i as int));
            lemma_total_split(ints, i + 1);
            lemma_total_range(ints.skip(i + 1), u128::MAX as int);
        }
        whole = whole + sums[i];
        i += 1;
    }
    proof {
        assert(ints.take(i as int) =~= ints);
    }
    whole
}

/// Computes the activity to cut away on each side.
fn threshold_for(whole: u128, crop: Crop) -> (threshold: u128)
    ensures
        threshold == threshold_of(whole as int, crop.num(), crop.den()),
        2 * threshold <= whole,
{
    let num: u128 = crop.numerator() as u128;
    let den: u128 = crop.denominator() as u128;
    let quotient: u128 = whole / den;
    let rest: u128 = whole % den;
    proof {
        assert(rest * num <= den * den) by (nonlinear_arith)
            requires
                rest < den,
                2 * num <= den,
        ;
        assert(den * den <= 0x1_0000_0000 * 0x1_0000_0000) by (nonlinear_arith)
            requires
                den < 0x1_0000_0000,
        ;
        assert(2 * (quotient * num) <= quotient * den) by (nonlinear_arith)
            requires
                2 * num <= den,
        ;
        assert(whole == quotient * den + rest) by {
            vstd::arithmetic::div_mod::lemma_fundamental_div_mod(whole as int, den as int);
        }
    }
    let carried: u128 = rest * num / den;
    proof {
        let low = (rest * num) % (den as int);
        vstd::arithmetic::div_mod::lemma_fundamental_div_mod((rest * num) as int, den as int);
        assert(whole * num == (quotient * num + carried) * den + low) by (nonlinear_arith)
            requires
                whole == quotient * den + rest,
                rest * num == den * carried + low,
        ;
        lemma_fundamental_div_mod_converse(
            whole * num,
            den as int,
            (quotient * num + carried) as int,
            low as int,
        );
        assert(2 * carried <= rest) by (nonlinear_arith)
            requires
                rest * num == den * carried + low,
                low >= 0,
                2 * num <= den,
                den > 0,
                rest >= 0,
                carried >= 0,
        ;
    }
    quotient * num + carried
}

/// Computes the first and the last index that remain when the fraction
/// `crop` of the total activity is cut away from the start and from the
/// end. Neither walk leaves the sequence.
pub fn get_bounds(diff_sums: &Vec<u128>, crop: Crop) -> (bounds: (usize, usize))
    requires
        diff_sums.len() >= 1,
        total(as_ints(diff_sums@)) <= u128::MAX,
    ensures
        (bounds.0 as int, bounds.1 as int) == cuts(as_ints(diff_sums@), crop.num(), crop.den()),
        bounds.0 < diff_sums.len(),
        bounds.1 < diff_sums.len(),
{
    let ghost ints = as_ints(diff_sums@);
    let len: usize = diff_sums.len();
    let whole: u128 = sum_of(diff_sums);
    let threshold: u128 = threshold_for(whole, crop);
    let mut lower: usize = 0;
    let mut sum: u128 = 0;
    while sum < threshold && lower + 1 < len
        invariant
            ints == as_ints(diff_sums@),
            len == diff_sums.len(),
            lower < len,
            sum == total(ints.take(lower as int)),
            total(ints) <= u128::MAX,
            lower_cut_from(ints, threshold as int, lower as int) == lower_cut(
                ints,
                threshold as int,
            ),
        decreases len - lower,
    {
        proof {
            assert(ints.take(lower + 1).drop_last() =~= ints.take(lower as int));
            lemma_total_split(ints, lower + 1);
            lemma_total_range(ints.skip(lower + 1), u128::MAX as int);
        }
        sum = sum + diff_sums[lower];
        lower += 1;
    }
    let mut upper: usize = len - 1;
    sum = 0;
    while sum < threshold && upper > 0
        invariant
            ints == as_ints(diff_sums@),
            len == diff_sums.len(),
            upper < len,
            sum == total(ints.skip(upper + 1)),
            total(ints) <= u128::MAX,
            upper_cut_from(ints, threshold as int, upper as int) == upper_cut(
                ints,
                threshold as int,
            ),
        decreases upper,
    {
        proof {
            lemma_total_split(ints.skip(upper as int), 1);
            assert(ints.skip(upper as int).skip(1) =~= ints.skip(upper + 1));
            assert(ints.skip(upper as int).take(1) =~= seq![ints[upper as int]]);
            assert(total(seq![ints[upper as int]]) == ints[upper as int]) by {
                reveal_with_fuel(total, 2);
            }
            lemma_total_split(ints, upper as int);
            lemma_total_range(ints.take(upper as int), u128::MAX as int);
        }
        sum = sum + diff_sums[upper];
        upper -= 1;
    }
    (lower, upper)
}

/// Computes the absolute difference of two grey levels.
fn gap_between(a: u8, b: u8) -> (d: u8)
    ensures
        d == gap(a, b),
{
    if a >= b {
        a - b
    } else {
        b - a
    }
}

/// Computes the activity of row `y`.
fn row_sum(pixels: &Vec<Vec<u8>>, y: usize) -> (sum: u128)
    requires
        y < pixels.len(),
        pixels[y as int].len() >= 1,
    ensures
        sum == total(row_gaps(rows_view(*pixels), y as int)),
        sum <= 255 * (pixels[y as int].len() - 1),
{
    let row: &Vec<u8> = &pixels[y];
    let ghost gaps = row_gaps(rows_view(*pixels), y as int);
    let mut sum: u128 = 0;
    let mut x: usize = 1;
    while x < row.len()
        invariant
            row@ == rows_view(*pixels)[y as int],
            gaps == row_gaps(rows_view(*pixels), y as int),
            1 <= x <= row.len(),
            sum == total(gaps.take(x - 1)),
            sum <= 255 * (x - 1),
        decreases row.len() - x,
    {
        proof {
            assert(gaps.take(x as int).drop_last() =~= gaps.take(x - 1));
        }
        sum = sum + gap_between(row[x], row[x - 1]) as u128;
        x += 1;
    }
    proof {
        assert(gaps.take(x - 1) =~= gaps);
    }
    sum
}

/// Computes the activity of column `x`.
fn column_sum(pixels: &Vec<Vec<u8>>, x: usize) -> (sum: u128)
    requires
        pixels.len() >= 1,
        is_grid(rows_view(*pixels), pixels.len() as int, pixels[0].len() as int),
        x < pixels[0].len(),
    ensures
        sum == total(column_gaps(rows_view(*pixels), x as int)),
        sum <= 255 * (pixels.len() - 1),
{
    let ghost grid = rows_view(*pixels);
    let ghost gaps = column_gaps(grid, x as int);
    let mut sum: u128 = 0;
    let mut y: usize = 1;
    while y < pixels.len()
        invariant
            grid == rows_view(*pixels),
            is_grid(grid, pixels.len() as int, pixels[0].len() as int),
            x < pixels[0].len(),
            gaps == column_gaps(grid, x as int),
            1 <= y <= pixels.len(),
            sum == total(gaps.take(y - 1)),
            sum <= 255 * (y - 1),
        decreases pixels.len() - y,
    {
        proof {
            assert(gaps.take(y as int).drop_last() =~= gaps.take(y - 1));
            assert(grid[y as int].len() == pixels[0].len());
        }
        sum = sum + gap_between(pixels[y][x], pixels[y - 1][x]) as u128;
        y += 1;
    }
    proof {
        assert(gaps.take(y - 1) =~= gaps);
    }
    sum
}

/// Finds the content-dense rectangle of a grayscale grid: the rows and the
/// columns that remain when the fraction `crop` of the activity is cut away
/// on each of the four sides.
pub fn crop_boundaries(pixels: &Vec<Vec<u8>>, crop: Crop) -> (bounds: Bounds)
    requires
        pixels.len() >= 1,
        pixels[0].len() >= 1,
        is_grid(rows_view(*pixels), pixels.len() as int, pixels[0].len() as int),
        pixels.len() * pixels[0].len() <= usize::MAX,
    ensures
        bounds == crop_bounds(rows_view(*pixels), crop.num(), crop.den()),
        bounds.lower_x < pixels[0].len(),
        bounds.upper_x < pixels[0].len(),
        bounds.lower_y < pixels.len(),
        bounds.upper_y < pixels.len(),
{
    let ghost grid = rows_view(*pixels);
    let height: usize = pixels.len();
    let width: usize = pixels[0].len();
    let mut row_diff_sums: Vec<u128> = Vec::new();
    let mut y: usize = 0;
    while y < height
        invariant
            grid == rows_view(*pixels),
            height == pixels.len(),
            width == pixels[0].len(),
            width >= 1,
            is_grid(grid, height as int, width as int),
            y <= height,
            row_diff_sums.len() == y,
            forall|j: int|
                0 <= j < y ==> #[trigger] row_diff_sums@[j] == total(row_gaps(grid, j))
                    && row_diff_sums@[j] <= 255 * width,
        decreases height - y,
    {
        proof {
            assert(grid[y as int].len() == width);
        }
        let sum: u128 = row_sum(pixels, y);
        row_diff_sums.push(sum);
        y += 1;
    }
    proof {
        assert(as_ints(row_diff_sums@) =~= row_activity(grid));
        lemma_total_range(row_activity(grid), 255 * width);
        assert(255 * width * height <= 255 * usize::MAX) by (nonlinear_arith)
            requires
                height * width <= usize::MAX,
        ;
    }
    let (top, bottom): (usize, usize) = get_bounds(&row_diff_sums, crop);
    let mut col_diff_sums: Vec<u128> = Vec::new();
    let mut x: usize = 0;
    while x < width
        invariant
            grid == rows_view(*pixels),
            height == pixels.len(),
            width == pixels[0].len(),
            height >= 1,
            is_grid(grid, height as int, width as int),
            x <= width,
            col_diff_sums.len() == x,
            forall|i: int|
                0 <= i < x ==> #[trigger] col_diff_sums@[i] == total(column_gaps(grid, i))
                    && col_diff_sums@[i] <= 255 * height,
        decreases width - x,
    {
        let sum: u128 = column_sum(pixels, x);
        col_diff_sums.push(sum);
        x += 1;
    }
    proof {
        assert(as_ints(col_diff_sums@) =~= column_activity(grid));
        lemma_total_range(column_activity(grid), 255 * height);
        assert(255 * height * width <= 255 * usize::MAX) by (nonlinear_arith)
            requires
                height * width <= usize::MAX,
        ;
    }
    let (left, right): (usize, usize) = get_bounds(&col_diff_sums, crop);
    Bounds { lower_x: left, upper_x: right, lower_y: top, upper_y: bottom }
}

} // verus!
