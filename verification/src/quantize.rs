//! Quantization of the lattice of averages into the signature vector.
//!
//! Every lattice point is compared with its grid neighbours. Differences of
//! at most two grey levels count as "same"; the others are split in two
//! classes on each side of zero by the median of their side.

use vstd::prelude::*;
use vstd::relations::sorted_by;
use vstd::seq_lib::lemma_sorted_unique;
use crate::rows::{lemma_flatten_next, rows_view};

verus! {

/// Difference between the average of a point and that of a neighbour, with
/// differences of magnitude two or less collapsed to zero.
pub open spec fn diff_of(me: u8, other: u8) -> int {
    let d = me as int - other as int;
    if -2 <= d <= 2 {
        0
    } else {
        d
    }
}

/// Sign of an integer: -1, 0 or 1.
pub open spec fn sign_of(v: int) -> int {
    if v > 0 {
        1
    } else if v < 0 {
        -1
    } else {
        0
    }
}

/// Magnitude of an integer.
pub open spec fn magnitude(v: int) -> int {
    if v < 0 {
        -v
    } else {
        v
    }
}

/// Half of an integer, rounded towards zero.
pub open spec fn half_toward_zero(v: int) -> int {
    if v >= 0 {
        v / 2
    } else {
        -((-v) / 2)
    }
}

/// Two-level label of a difference against the threshold of its side: twice
/// the sign where the magnitude reaches that of the threshold, the sign
/// otherwise.
pub open spec fn collapse_of(val: int, threshold: int) -> int {
    if magnitude(val) >= magnitude(threshold) {
        2 * sign_of(val)
    } else {
        sign_of(val)
    }
}

/// The order by which differences are sorted.
pub open spec fn ascending() -> spec_fn(i16, i16) -> bool {
    |a: i16, b: i16| a <= b
}

/// Middle of a sequence that is already in ascending order: the middle
/// element of an odd count, the mean of the two middle elements of an even
/// count rounded towards zero, and zero for no element at all.
pub open spec fn middle_of(sorted: Seq<i16>) -> int {
    let n = sorted.len() as int;
    if n == 0 {
        0
    } else if n % 2 == 0 {
        half_toward_zero(sorted[n / 2 - 1] + sorted[n / 2])
    } else {
        sorted[n / 2] as int
    }
}

/// Median of a sequence of differences.
pub open spec fn median(values: Seq<i16>) -> int {
    middle_of(values.sort_by(ascending()))
}

/// The median of `values` can be read off any ascending arrangement of the
/// same elements.
pub proof fn lemma_median_of_arrangement(values: Seq<i16>, sorted: Seq<i16>)
    requires
        sorted_by(sorted, ascending()),
        sorted.to_multiset() == values.to_multiset(),
    ensures
        median(values) == middle_of(sorted),
{
    values.lemma_sort_by_ensures(ascending());
    lemma_sorted_unique(sorted, values.sort_by(ascending()), ascending());
}

/// Computes the thresholded difference between a point and a neighbour.
pub fn compute_diff(me: u8, other: u8) -> (d: i16)
    ensures
        d as int == diff_of(me, other),
{
    let raw: i16 = me as i16 - other as i16;
    if -2 <= raw && raw <= 2 {
        0
    } else {
        raw
    }
}

/// Labels a non-zero difference against the threshold of its side.
pub fn collapse(val: i16, threshold: i16) -> (label: i8)
    ensures
        label as int == collapse_of(val as int, threshold as int),
{
    let wide_val: i32 = val as i32;
    let wide_threshold: i32 = threshold as i32;
    let val_size: i32 = if wide_val < 0 {
        -wide_val
    } else {
        wide_val
    };
    let threshold_size: i32 = if wide_threshold < 0 {
        -wide_threshold
    } else {
        wide_threshold
    };
    let sign: i8 = if val > 0 {
        1
    } else if val < 0 {
        -1
    } else {
        0
    };
    if val_size >= threshold_size {
        2 * sign
    } else {
        sign
    }
}

/// Exchanging two elements of a sequence keeps its elements.
proof fn lemma_exchange_keeps_elements(s: Seq<i16>, a: int, b: int)
    requires
        0 <= a < s.len(),
        0 <= b < s.len(),
    ensures
        s.update(a, s[b]).update(b, s[a]).to_multiset() == s.to_multiset(),
{
    broadcast use vstd::multiset::group_multiset_axioms;

    vstd::seq_lib::to_multiset_update(s, a, s[b]);
    vstd::seq_lib::to_multiset_update(s.update(a, s[b]), b, s[a]);
    s.to_multiset_ensures();
}

/// Puts the values in ascending order, in place.
fn sort_values(v: &mut Vec<i16>)
    ensures
        sorted_by(final(v)@, ascending()),
        final(v)@.to_multiset() == old(v)@.to_multiset(),
{
    let n: usize = v.len();
    let mut i: usize = 1;
    while i < n
        invariant
            v.len() == n,
            1 <= i,
            forall|a: int, b: int| 0 <= a < b < i && b < n ==> v@[a] <= v@[b],
            v@.to_multiset() == old(v)@.to_multiset(),
        decreases n - i,
    {
        let mut j: usize = i;
        while j > 0 && v[j - 1] > v[j]
            invariant
                v.len() == n,
                j <= i < n,
                v@.to_multiset() == old(v)@.to_multiset(),
                forall|a: int, b: int| 0 <= a < b <= i && a != j && b != j ==> v@[a] <= v@[b],
                forall|b: int| j < b <= i ==> v@[j as int] <= v@[b],
            decreases j,
        {
            let below: i16 = v[j - 1];
            let above: i16 = v[j];
            proof {
                lemma_exchange_keeps_elements(v@, j - 1, j as int);
            }
            v[j - 1] = above;
            v[j] = below;
            j -= 1;
        }
        i += 1;
    }
}

/// Computes the median of the values.
pub fn get_median(vec: Vec<i16>) -> (m: i16)
    ensures
        m as int == median(vec@),
{
    let mut sorted: Vec<i16> = vec;
    sort_values(&mut sorted);
    proof {
        lemma_median_of_arrangement(vec@, sorted@);
    }
    let n: usize = sorted.len();
    if n == 0 {
        0
    } else if n % 2 == 0 {
        let total: i32 = sorted[n / 2 - 1] as i32 + sorted[n / 2] as i32;
        if total >= 0 {
            (total / 2) as i16
        } else {
            (-((-total) / 2)) as i16
        }
    } else {
        sorted[n / 2]
    }
}

/// A square lattice of averages: `n` rows of `n` values, the value of the
/// lattice point `(gx, gy)` at row `gy - 1` and column `gx - 1`.
pub open spec fn is_lattice(averages: Seq<Seq<u8>>, n: int) -> bool {
    &&& averages.len() == n
    &&& forall|j: int| 0 <= j < n ==> (#[trigger] averages[j]).len() == n
}

/// Whether `(gx, gy)` is a point of the lattice of side `n`.
pub open spec fn in_lattice(n: int, gx: int, gy: int) -> bool {
    1 <= gx <= n && 1 <= gy <= n
}

/// The average at the lattice point `(gx, gy)`.
pub open spec fn average_at(averages: Seq<Seq<u8>>, gx: int, gy: int) -> u8 {
    averages[gy - 1][gx - 1]
}

/// What the neighbour at offset `(dx, dy)` contributes to the differences of
/// the point `(gx, gy)`: one difference if that neighbour is on the lattice,
/// nothing if it is not.
pub open spec fn neighbor_diff(averages: Seq<Seq<u8>>, gx: int, gy: int, dx: int, dy: int) -> Seq<
    i16,
> {
    if in_lattice(averages.len() as int, gx + dx, gy + dy) {
        seq![diff_of(average_at(averages, gx, gy), average_at(averages, gx + dx, gy + dy)) as i16]
    } else {
        Seq::empty()
    }
}

/// The differences between a lattice point and its neighbours, row by row
/// from the upper left neighbour to the lower right one.
pub open spec fn point_diffs(averages: Seq<Seq<u8>>, gx: int, gy: int) -> Seq<i16> {
    neighbor_diff(averages, gx, gy, -1, -1) + neighbor_diff(averages, gx, gy, 0, -1)
        + neighbor_diff(averages, gx, gy, 1, -1) + neighbor_diff(averages, gx, gy, -1, 0)
        + neighbor_diff(averages, gx, gy, 1, 0) + neighbor_diff(averages, gx, gy, -1, 1)
        + neighbor_diff(averages, gx, gy, 0, 1) + neighbor_diff(averages, gx, gy, 1, 1)
}

/// The differences of all lattice points, one entry per point, the points
/// taken row by row from the top and from left to right within a row.
pub open spec fn raw_diffs(averages: Seq<Seq<u8>>) -> Seq<Seq<i16>> {
    let n = averages.len() as int;
    Seq::new((n * n) as nat, |p: int| point_diffs(averages, p % n + 1, p / n + 1))
}

/// Selects the "darker" differences.
pub open spec fn is_dark() -> spec_fn(i16) -> bool {
    |d: i16| d < 0
}

/// Selects the "lighter" differences.
pub open spec fn is_light() -> spec_fn(i16) -> bool {
    |d: i16| d > 0
}

/// The thresholds between "much darker" and "darker" and between "lighter"
/// and "much lighter": the medians of the negative and of the positive
/// differences of all points.
pub open spec fn thresholds(raw: Seq<Seq<i16>>) -> (int, int) {
    (median(raw.flatten().filter(is_dark())), median(raw.flatten().filter(is_light())))
}

/// The label of one difference under the two thresholds.
pub open spec fn label_of(d: int, dark: int, light: int) -> int {
    if d > 0 {
        collapse_of(d, light)
    } else if d < 0 {
        collapse_of(d, dark)
    } else {
        0
    }
}

/// Labels every difference under the two thresholds.
pub open spec fn labeling(dark: int, light: int) -> spec_fn(i16) -> i8 {
    |d: i16| label_of(d as int, dark, light) as i8
}

/// The labels of a sequence of differences under the thresholds that the
/// sequence itself gives: the medians of its negative and of its positive
/// entries.
pub open spec fn labels_of(diffs: Seq<i16>) -> Seq<i8> {
    let dark = median(diffs.filter(is_dark()));
    let light = median(diffs.filter(is_light()));
    diffs.map_values(labeling(dark, light))
}

/// The signature of a lattice of averages: the labels of all differences, in
/// the order of `raw_diffs`.
pub open spec fn signature(averages: Seq<Seq<u8>>) -> Seq<i8> {
    labels_of(raw_diffs(averages).flatten())
}

/// Every label lies between -2 and 2.
pub proof fn lemma_labels_range(diffs: Seq<i16>)
    ensures
        labels_of(diffs).len() == diffs.len(),
        forall|i: int| 0 <= i < diffs.len() ==> -2 <= #[trigger] labels_of(diffs)[i] <= 2,
{
}

/// Computes the two thresholds from the differences of all points.
pub fn get_thresholds(raw_diffs: &Vec<Vec<i16>>) -> (t: (i16, i16))
    ensures
        (t.0 as int, t.1 as int) == thresholds(rows_view(*raw_diffs)),
{
    let ghost rows = rows_view(*raw_diffs);
    let mut dark: Vec<i16> = Vec::new();
    let mut light: Vec<i16> = Vec::new();
    let mut p: usize = 0;
    proof {
        Seq::<i16>::empty().lemma_all_neg_filter_empty(is_dark());
        Seq::<i16>::empty().lemma_all_neg_filter_empty(is_light());
    }
    while p < raw_diffs.len()
        invariant
            rows == rows_view(*raw_diffs),
            p <= raw_diffs.len(),
            dark@ == rows.take(p as int).flatten().filter(is_dark()),
            light@ == rows.take(p as int).flatten().filter(is_light()),
        decreases raw_diffs.len() - p,
    {
        let row: &Vec<i16> = &raw_diffs[p];
        let ghost before = rows.take(p as int).flatten();
        let mut q: usize = 0;
        while q < row.len()
            invariant
                q <= row.len(),
                dark@ == (before + row@.take(q as int)).filter(is_dark()),
                light@ == (before + row@.take(q as int)).filter(is_light()),
            decreases row.len() - q,
        {
            let d: i16 = row[q];
            proof {
                let so_far = before + row@.take(q as int);
                assert(before + row@.take(q + 1) =~= so_far.push(d));
                so_far.lemma_filter_push(d, is_dark());
                so_far.lemma_filter_push(d, is_light());
            }
            if d < 0 {
                dark.push(d);
            } else if d > 0 {
                light.push(d);
            }
            q += 1;
        }
        proof {
            assert(row@.take(q as int) =~= row@);
            lemma_flatten_next(rows, p as int);
        }
        p += 1;
    }
    proof {
        assert(rows.take(p as int) =~= rows);
    }
    let dark_threshold: i16 = get_median(dark);
    let light_threshold: i16 = get_median(light);
    (dark_threshold, light_threshold)
}

/// Appends to `out` what the neighbour at offset `(dx, dy)` contributes to
/// the differences of the point `(gx, gy)`.
fn push_neighbor_diff(
    out: &mut Vec<i16>,
    averages: &Vec<Vec<u8>>,
    gx: usize,
    gy: usize,
    dx: i8,
    dy: i8,
)
    requires
        is_lattice(rows_view(*averages), averages.len() as int),
        in_lattice(averages.len() as int, gx as int, gy as int),
        -1 <= dx <= 1,
        -1 <= dy <= 1,
    ensures
        final(out)@ == old(out)@ + neighbor_diff(
            rows_view(*averages),
            gx as int,
            gy as int,
            dx as int,
            dy as int,
        ),
{
    let n: usize = averages.len();
    let ghost rows = rows_view(*averages);
    if (dx < 0 && gx < 2) || (dx > 0 && gx >= n) || (dy < 0 && gy < 2) || (dy > 0 && gy >= n) {
        return ;
    }
    let nx: usize = if dx < 0 {
        gx - 1
    } else if dx > 0 {
        gx + 1
    } else {
        gx
    };
    let ny: usize = if dy < 0 {
        gy - 1
    } else if dy > 0 {
        gy + 1
    } else {
        gy
    };
    assert(rows[gy - 1].len() == n);
    assert(rows[ny - 1].len() == n);
    let me: u8 = averages[gy - 1][gx - 1];
    let other: u8 = averages[ny - 1][nx - 1];
    let d: i16 = compute_diff(me, other);
    out.push(d);
}

/// Computes the differences between a lattice point and its neighbours.
fn point_diffs_at(averages: &Vec<Vec<u8>>, gx: usize, gy: usize) -> (diffs: Vec<i16>)
    requires
        is_lattice(rows_view(*averages), averages.len() as int),
        in_lattice(averages.len() as int, gx as int, gy as int),
    ensures
        diffs@ == point_diffs(rows_view(*averages), gx as int, gy as int),
{
    let mut diffs: Vec<i16> = Vec::new();
    push_neighbor_diff(&mut diffs, averages, gx, gy, -1, -1);
    push_neighbor_diff(&mut diffs, averages, gx, gy, 0, -1);
    push_neighbor_diff(&mut diffs, averages, gx, gy, 1, -1);
    push_neighbor_diff(&mut diffs, averages, gx, gy, -1, 0);
    push_neighbor_diff(&mut diffs, averages, gx, gy, 1, 0);
    push_neighbor_diff(&mut diffs, averages, gx, gy, -1, 1);
    push_neighbor_diff(&mut diffs, averages, gx, gy, 0, 1);
    push_neighbor_diff(&mut diffs, averages, gx, gy, 1, 1);
    diffs
}

/// Labels one difference under the two thresholds.
fn label(d: i16, dark: i16, light: i16) -> (l: i8)
    ensures
        l == labeling(dark as int, light as int)(d),
{
    if d > 0 {
        collapse(d, light)
    } else if d < 0 {
        collapse(d, dark)
    } else {
        0
    }
}

/// Computes the signature of a lattice of averages for the given grid size.
pub fn compute_signature(point_averages: &Vec<Vec<u8>>, grid_size: usize) -> (sig: Vec<i8>)
    requires
        grid_size >= 2,
        is_lattice(rows_view(*point_averages), grid_size - 1),
    ensures
        sig@ == signature(rows_view(*point_averages)),
        sig.len() == 8 * (grid_size - 1) * (grid_size - 1) - 12 * (grid_size - 1) + 4,
        forall|i: int| 0 <= i < sig.len() ==> -2 <= #[trigger] sig[i] <= 2,
{
    let n: usize = grid_size - 1;
    let ghost averages = rows_view(*point_averages);
    let mut raw: Vec<Vec<i16>> = Vec::new();
    let mut gy: usize = 1;
    while gy < grid_size
        invariant
            n == grid_size - 1,
            n == point_averages.len(),
            averages == rows_view(*point_averages),
            is_lattice(averages, n as int),
            1 <= gy <= grid_size,
            raw.len() == (gy - 1) * n,
            forall|p: int|
                0 <= p < raw.len() ==> (#[trigger] raw@[p])@ == point_diffs(
                    averages,
                    p % (n as int) + 1,
                    p / (n as int) + 1,
                ),
        decreases grid_size - gy,
    {
        let mut gx: usize = 1;
        while gx < grid_size
            invariant
                n == grid_size - 1,
                n == point_averages.len(),
                averages == rows_view(*point_averages),
                is_lattice(averages, n as int),
                1 <= gy < grid_size,
                1 <= gx <= grid_size,
                raw.len() == (gy - 1) * n + (gx - 1),
                forall|p: int|
                    0 <= p < raw.len() ==> (#[trigger] raw@[p])@ == point_diffs(
                        averages,
                        p % (n as int) + 1,
                        p / (n as int) + 1,
                    ),
            decreases grid_size - gx,
        {
            let diffs: Vec<i16> = point_diffs_at(point_averages, gx, gy);
            proof {
                vstd::arithmetic::div_mod::lemma_fundamental_div_mod_converse(
                    raw.len() as int,
                    n as int,
                    gy - 1,
                    gx - 1,
                );
            }
            raw.push(diffs);
            gx += 1;
        }
        proof {
            assert((gy - 1) * n + n == gy * n) by (nonlinear_arith);
        }
        gy += 1;
    }
    proof {
        assert(rows_view(raw) =~= raw_diffs(averages));
    }
    let (dark, light): (i16, i16) = get_thresholds(&raw);
    let ghost rows = rows_view(raw);
    let ghost labels = labeling(dark as int, light as int);
    let mut sig: Vec<i8> = Vec::new();
    let mut p: usize = 0;
    while p < raw.len()
        invariant
            rows == rows_view(raw),
            labels == labeling(dark as int, light as int),
            p <= raw.len(),
            sig@ == rows.take(p as int).flatten().map_values(labels),
        decreases raw.len() - p,
    {
        let row: &Vec<i16> = &raw[p];
        let ghost before = rows.take(p as int).flatten();
        let mut q: usize = 0;
        while q < row.len()
            invariant
                labels == labeling(dark as int, light as int),
                q <= row.len(),
                sig@ == (before + row@.take(q as int)).map_values(labels),
            decreases row.len() - q,
        {
            let d: i16 = row[q];
            let l: i8 = label(d, dark, light);
            sig.push(l);
            q += 1;
        }
        proof {
            lemma_flatten_next(rows, p as int);
        }
        p += 1;
    }
    proof {
        assert(rows.take(p as int) =~= rows);
        lemma_signature_len(averages);
        lemma_labels_range(raw_diffs(averages).flatten());
    }
    sig
}

/// Number of offsets `d` among -1, 0 and 1 for which `g + d` is a
/// coordinate of the lattice of side `n`.
pub open spec fn reach(n: int, g: int) -> int {
    3 - (if g == 1 {
        1int
    } else {
        0int
    }) - (if g == n {
        1int
    } else {
        0int
    })
}

/// Sum of `reach(n, g)` over the first `k` coordinates.
pub open spec fn reach_before(n: int, k: int) -> int {
    if k <= 0 {
        0
    } else if k < n {
        3 * k - 1
    } else {
        3 * n - 2
    }
}

/// Number of differences of the points that come before the point in row
/// `r` and column `c` (both counted from zero).
pub open spec fn diffs_before(n: int, r: int, c: int) -> int {
    (3 * n - 2) * reach_before(n, r) - n * r + reach(n, r + 1) * reach_before(n, c) - c
}

/// A lattice point has one difference for each neighbour on the lattice.
pub proof fn lemma_point_diffs_len(averages: Seq<Seq<u8>>, gx: int, gy: int)
    requires
        in_lattice(averages.len() as int, gx, gy),
    ensures
        point_diffs(averages, gx, gy).len() == reach(averages.len() as int, gx) * reach(
            averages.len() as int,
            gy,
        ) - 1,
{
    let n = averages.len() as int;
    let rx = reach(n, gx);
    let ry = reach(n, gy);
    assert(rx * ry == if rx == 1 {
        ry
    } else if rx == 2 {
        2 * ry
    } else {
        3 * ry
    }) by (nonlinear_arith)
        requires
            1 <= rx <= 3,
    ;
}

/// The differences of the first `r` rows of points and of the first `c`
/// points of the next row number `diffs_before(n, r, c)`.
proof fn lemma_diffs_before(averages: Seq<Seq<u8>>, r: int, c: int)
    requires
        averages.len() >= 1,
        0 <= r <= averages.len(),
        0 <= c < averages.len(),
        r == averages.len() ==> c == 0,
    ensures
        0 <= r * averages.len() + c <= averages.len() * averages.len(),
        raw_diffs(averages).take(r * averages.len() + c).flatten().len() == diffs_before(
            averages.len() as int,
            r,
            c,
        ),
    decreases r, c,
{
    let n = averages.len() as int;
    let raw = raw_diffs(averages);
    let p = r * n + c;
    assert(0 <= r * n <= n * n && (r < n ==> r * n + n <= n * n)) by (nonlinear_arith)
        requires
            0 <= r <= n,
    ;
    if r == 0 && c == 0 {
    } else {
        let (pr, pc) = if c > 0 {
            (r, c - 1)
        } else {
            (r - 1, n - 1)
        };
        lemma_diffs_before(averages, pr, pc);
        assert(pr * n + pc == p - 1) by (nonlinear_arith)
            requires
                p == r * n + c,
                (pr == r && pc == c - 1) || (pr == r - 1 && pc == n - 1 && c == 0),
        ;
        vstd::arithmetic::div_mod::lemma_fundamental_div_mod_converse(p - 1, n, pr, pc);
        lemma_flatten_next(raw, p - 1);
        lemma_point_diffs_len(averages, pc + 1, pr + 1);
        let ry = reach(n, pr + 1);
        let rx = reach(n, pc + 1);
        if c > 0 {
            assert(ry * reach_before(n, c) == ry * reach_before(n, c - 1) + ry * rx)
                by (nonlinear_arith)
                requires
                    reach_before(n, c) == reach_before(n, c - 1) + rx,
            ;
        } else {
            let m = 3 * n - 2;
            let a = reach_before(n, r - 1);
            let b = reach_before(n, n - 1);
            assert(m * (a + ry) - n * r == m * a - n * (r - 1) + ry * b - (n - 1) + rx * ry - 1)
                by (nonlinear_arith)
                requires
                    b + rx == m,
            ;
        }
    }
}

/// The signature of a lattice of side `n` has `8 n^2 - 12 n + 4` entries:
/// eight per point, less the neighbours that the points on the rim lack.
pub proof fn lemma_signature_len(averages: Seq<Seq<u8>>)
    requires
        averages.len() >= 1,
    ensures
        signature(averages).len() == 8 * averages.len() * averages.len() - 12 * averages.len()
            + 4,
{
    let n = averages.len() as int;
    let raw = raw_diffs(averages);
    lemma_diffs_before(averages, n, 0);
    assert(raw.take(n * n + 0) =~= raw);
    assert((3 * n - 2) * (3 * n - 2) - n * n == 8 * n * n - 12 * n + 4) by (nonlinear_arith);
}

} // verus!
