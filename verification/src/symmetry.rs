//! The differences of a lattice are symmetric around zero: every pair of
//! neighbours is compared twice, once from each side, and the two
//! differences are opposite.

use vstd::prelude::*;
use vstd::arithmetic::div_mod::lemma_fundamental_div_mod_converse;
use vstd::seq_lib::lemma_multiset_commutative;
use crate::balance::{lemma_negated_counts, negated, symmetric_around_zero};
use crate::quantize::{average_at, diff_of, in_lattice, is_lattice, neighbor_diff, raw_diffs};
use crate::rows::lemma_flatten_next;

verus! {

/// Sum of `f` over the integers from zero up to, but not including, `k`.
pub open spec fn sum_before(f: spec_fn(int) -> int, k: int) -> int
    decreases k,
{
    if k <= 0 {
        0
    } else {
        sum_before(f, k - 1) + f(k - 1)
    }
}

/// How often `v` is the difference between point number `p`, the points
/// counted row by row from zero, and its neighbour at offset `(dx, dy)`:
/// once or not at all.
pub open spec fn hits(averages: Seq<Seq<u8>>, dx: int, dy: int, v: i16) -> spec_fn(int) -> int {
    |p: int|
        {
            let n = averages.len() as int;
            if in_lattice(n, p % n + 1 + dx, p / n + 1 + dy) && diff_of(
                average_at(averages, p % n + 1, p / n + 1),
                average_at(averages, p % n + 1 + dx, p / n + 1 + dy),
            ) == v {
                1int
            } else {
                0int
            }
        }
}

/// A sum does not change over a stretch on which the function is zero.
proof fn lemma_zero_stretch(f: spec_fn(int) -> int, from: int, to: int)
    requires
        0 <= from <= to,
        forall|p: int| from <= p < to ==> #[trigger] f(p) == 0,
    ensures
        sum_before(f, to) == sum_before(f, from),
    decreases to - from,
{
    if from < to {
        lemma_zero_stretch(f, from, to - 1);
    }
}

/// The sum of `g` over a range is the sum of `f` over the range moved back
/// by `shift`, where `g` is `f` moved forward by `shift` and zero before.
proof fn lemma_shifted_part(f: spec_fn(int) -> int, g: spec_fn(int) -> int, shift: int, k: int)
    requires
        0 <= shift,
        0 <= k,
        forall|q: int| 0 <= q < shift ==> #[trigger] g(q) == 0,
        forall|p: int| 0 <= p < k ==> #[trigger] f(p) == g(p + shift),
    ensures
        sum_before(g, shift + k) == sum_before(f, k),
    decreases k,
{
    if k == 0 {
        lemma_zero_stretch(g, 0, shift);
    } else {
        lemma_shifted_part(f, g, shift, k - 1);
    }
}

/// Two functions of which one is the other moved by `shift`, both zero where
/// the other has no counterpart, have the same sum.
proof fn lemma_shifted_sum(f: spec_fn(int) -> int, g: spec_fn(int) -> int, whole: int, shift: int)
    requires
        0 <= shift <= whole,
        forall|p: int| whole - shift <= p < whole ==> #[trigger] f(p) == 0,
        forall|q: int| 0 <= q < shift ==> #[trigger] g(q) == 0,
        forall|p: int| 0 <= p < whole - shift ==> #[trigger] f(p) == g(p + shift),
    ensures
        sum_before(f, whole) == sum_before(g, whole),
{
    lemma_zero_stretch(f, whole - shift, whole);
    lemma_shifted_part(f, g, shift, whole - shift);
}

/// Point number `p` of a lattice of side `n` lies in row `p / n` and column
/// `p % n`, both below `n`.
proof fn lemma_coordinates(p: int, n: int)
    requires
        n >= 1,
        0 <= p < n * n,
    ensures
        0 <= p % n < n,
        0 <= p / n < n,
        p == n * (p / n) + p % n,
{
    vstd::arithmetic::div_mod::lemma_fundamental_div_mod(p, n);
    assert(0 <= p / n < n) by (nonlinear_arith)
        requires
            p == n * (p / n) + p % n,
            0 <= p % n < n,
            0 <= p < n * n,
    ;
}

/// The differences seen from a point towards `(dx, dy)` are the opposites
/// of those seen from the neighbour back. Stated for the offsets that lead
/// forward in the order of the points.
proof fn lemma_forward_mirrored(averages: Seq<Seq<u8>>, dx: int, dy: int, v: i16)
    requires
        is_lattice(averages, averages.len() as int),
        averages.len() >= 2,
        -1 <= dx <= 1,
        0 <= dy <= 1,
        dy == 0 ==> dx == 1,
        v > i16::MIN,
    ensures
        sum_before(hits(averages, dx, dy, v), (averages.len() * averages.len()) as int)
            == sum_before(
            hits(averages, -dx, -dy, (-v) as i16),
            (averages.len() * averages.len()) as int,
        ),
{
    let n = averages.len() as int;
    let whole = n * n;
    let shift = dy * n + dx;
    let f = hits(averages, dx, dy, v);
    let g = hits(averages, -dx, -dy, (-v) as i16);
    assert(1 <= shift <= n + 1 && n + 1 <= whole) by (nonlinear_arith)
        requires
            shift == dy * n + dx,
            whole == n * n,
            n >= 2,
            -1 <= dx <= 1,
            0 <= dy <= 1,
            dy == 0 ==> dx == 1,
    ;
    assert forall|p: int| whole - shift <= p < whole implies #[trigger] f(p) == 0 by {
        let c = p % n;
        let r = p / n;
        lemma_coordinates(p, n);
        if in_lattice(n, c + 1 + dx, r + 1 + dy) {
            assert((r + dy) * n + (c + dx) == p + shift) by (nonlinear_arith)
                requires
                    p == n * r + c,
                    shift == dy * n + dx,
            ;
            assert((r + dy) * n + (c + dx) < whole) by (nonlinear_arith)
                requires
                    0 <= r + dy <= n - 1,
                    0 <= c + dx <= n - 1,
                    whole == n * n,
            ;
        }
    }
    assert forall|q: int| 0 <= q < shift implies #[trigger] g(q) == 0 by {
        let c = q % n;
        let r = q / n;
        lemma_coordinates(q, n);
        if in_lattice(n, c + 1 - dx, r + 1 - dy) {
            assert((r - dy) * n + (c - dx) == q - shift) by (nonlinear_arith)
                requires
                    q == n * r + c,
                    shift == dy * n + dx,
            ;
            assert((r - dy) * n + (c - dx) >= 0) by (nonlinear_arith)
                requires
                    0 <= r - dy,
                    0 <= c - dx,
                    n >= 0,
            ;
        }
    }
    assert forall|p: int| 0 <= p < whole - shift implies #[trigger] f(p) == g(p + shift) by {
        let q = p + shift;
        let c = p % n;
        let r = p / n;
        let qc = q % n;
        let qr = q / n;
        lemma_coordinates(p, n);
        lemma_coordinates(q, n);
        if in_lattice(n, c + 1 + dx, r + 1 + dy) {
            assert((r + dy) * n + (c + dx) == q) by (nonlinear_arith)
                requires
                    p == n * r + c,
                    q == p + shift,
                    shift == dy * n + dx,
            ;
            lemma_fundamental_div_mod_converse(q, n, r + dy, c + dx);
        } else if in_lattice(n, qc + 1 - dx, qr + 1 - dy) {
            assert((qr - dy) * n + (qc - dx) == p) by (nonlinear_arith)
                requires
                    q == n * qr + qc,
                    q == p + shift,
                    shift == dy * n + dx,
            ;
            lemma_fundamental_div_mod_converse(p, n, qr - dy, qc - dx);
        }
    }
    lemma_shifted_sum(f, g, whole, shift);
}

/// The differences seen towards `(dx, dy)` are the opposites of those seen
/// towards `(-dx, -dy)`, whichever of the eight offsets `(dx, dy)` is.
proof fn lemma_direction_mirrored(averages: Seq<Seq<u8>>, dx: int, dy: int, v: i16)
    requires
        is_lattice(averages, averages.len() as int),
        averages.len() >= 2,
        -1 <= dx <= 1,
        -1 <= dy <= 1,
        dx != 0 || dy != 0,
        v > i16::MIN,
    ensures
        sum_before(hits(averages, dx, dy, v), (averages.len() * averages.len()) as int)
            == sum_before(
            hits(averages, -dx, -dy, (-v) as i16),
            (averages.len() * averages.len()) as int,
        ),
{
    if dy == 1 || (dy == 0 && dx == 1) {
        lemma_forward_mirrored(averages, dx, dy, v);
    } else {
        lemma_forward_mirrored(averages, -dx, -dy, (-v) as i16);
    }
}

/// The sum of the hits of `v` over the eight offsets.
pub open spec fn hits_around(averages: Seq<Seq<u8>>, v: i16, k: int) -> int {
    sum_before(hits(averages, -1, -1, v), k) + sum_before(hits(averages, 0, -1, v), k)
        + sum_before(hits(averages, 1, -1, v), k) + sum_before(hits(averages, -1, 0, v), k)
        + sum_before(hits(averages, 1, 0, v), k) + sum_before(hits(averages, -1, 1, v), k)
        + sum_before(hits(averages, 0, 1, v), k) + sum_before(hits(averages, 1, 1, v), k)
}

/// What one neighbour contributes holds `v` as often as the hit says.
proof fn lemma_neighbor_hit(averages: Seq<Seq<u8>>, dx: int, dy: int, v: i16, p: int)
    requires
        averages.len() >= 1,
    ensures
        neighbor_diff(
            averages,
            p % (averages.len() as int) + 1,
            p / (averages.len() as int) + 1,
            dx,
            dy,
        ).to_multiset().count(v) == hits(averages, dx, dy, v)(p),
{
    broadcast use vstd::multiset::group_multiset_axioms;
    broadcast use vstd::seq_lib::group_to_multiset_ensures;

}

/// The differences of the first `k` points hold `v` as often as the hits of
/// `v` at these points, over the eight offsets, say.
proof fn lemma_count_is_hits(averages: Seq<Seq<u8>>, v: i16, k: int)
    requires
        averages.len() >= 1,
        0 <= k <= averages.len() * averages.len(),
    ensures
        raw_diffs(averages).take(k).flatten().to_multiset().count(v) == hits_around(
            averages,
            v,
            k,
        ),
    decreases k,
{
    broadcast use vstd::multiset::group_multiset_axioms;

    let raw = raw_diffs(averages);
    let n = averages.len() as int;
    if k == 0 {
        vstd::seq_lib::to_multiset_len(Seq::<i16>::empty());
    } else {
        let p = k - 1;
        lemma_count_is_hits(averages, v, p);
        lemma_flatten_next(raw, p);
        lemma_multiset_commutative(raw.take(p).flatten(), raw[p]);
        let gx = p % n + 1;
        let gy = p / n + 1;
        let a = neighbor_diff(averages, gx, gy, -1, -1);
        let b = neighbor_diff(averages, gx, gy, 0, -1);
        let c = neighbor_diff(averages, gx, gy, 1, -1);
        let d = neighbor_diff(averages, gx, gy, -1, 0);
        let e = neighbor_diff(averages, gx, gy, 1, 0);
        let f = neighbor_diff(averages, gx, gy, -1, 1);
        let g = neighbor_diff(averages, gx, gy, 0, 1);
        let h = neighbor_diff(averages, gx, gy, 1, 1);
        lemma_multiset_commutative(a, b);
        lemma_multiset_commutative(a + b, c);
        lemma_multiset_commutative(a + b + c, d);
        lemma_multiset_commutative(a + b + c + d, e);
        lemma_multiset_commutative(a + b + c + d + e, f);
        lemma_multiset_commutative(a + b + c + d + e + f, g);
        lemma_multiset_commutative(a + b + c + d + e + f + g, h);
        lemma_neighbor_hit(averages, -1, -1, v, p);
        lemma_neighbor_hit(averages, 0, -1, v, p);
        lemma_neighbor_hit(averages, 1, -1, v, p);
        lemma_neighbor_hit(averages, -1, 0, v, p);
        lemma_neighbor_hit(averages, 1, 0, v, p);
        lemma_neighbor_hit(averages, -1, 1, v, p);
        lemma_neighbor_hit(averages, 0, 1, v, p);
        lemma_neighbor_hit(averages, 1, 1, v, p);
    }
}

/// No difference between two grey levels is the least 16-bit integer.
proof fn lemma_no_hit_at_the_least(averages: Seq<Seq<u8>>, dx: int, dy: int, k: int)
    requires
        0 <= k,
    ensures
        sum_before(hits(averages, dx, dy, i16::MIN), k) == 0,
    decreases k,
{
    if k > 0 {
        lemma_no_hit_at_the_least(averages, dx, dy, k - 1);
    }
}

/// The differences of a lattice are symmetric around zero.
pub proof fn lemma_lattice_diffs_symmetric(averages: Seq<Seq<u8>>)
    requires
        is_lattice(averages, averages.len() as int),
    ensures
        symmetric_around_zero(raw_diffs(averages).flatten()),
{
    broadcast use vstd::seq_lib::group_to_multiset_ensures;

    let n = averages.len() as int;
    let raw = raw_diffs(averages);
    let flat = raw.flatten();
    assert(raw.take(n * n) =~= raw);
    if n == 0 {
        assert(negated(flat) =~= flat);
    } else {
        assert(n * n >= 1) by (nonlinear_arith)
            requires
                n >= 1,
        ;
        assert forall|i: int| 0 <= i < flat.len() implies #[trigger] flat[i] > i16::MIN by {
            lemma_count_is_hits(averages, i16::MIN, n * n);
            lemma_no_hit_at_the_least(averages, -1, -1, n * n);
            lemma_no_hit_at_the_least(averages, 0, -1, n * n);
            lemma_no_hit_at_the_least(averages, 1, -1, n * n);
            lemma_no_hit_at_the_least(averages, -1, 0, n * n);
            lemma_no_hit_at_the_least(averages, 1, 0, n * n);
            lemma_no_hit_at_the_least(averages, -1, 1, n * n);
            lemma_no_hit_at_the_least(averages, 0, 1, n * n);
            lemma_no_hit_at_the_least(averages, 1, 1, n * n);
        }
        assert forall|v: i16| negated(flat).to_multiset().count(v) == flat.to_multiset().count(
            v,
        ) by {
            lemma_negated_counts(flat, v);
            if v > i16::MIN {
                let w = (-v) as i16;
                lemma_count_is_hits(averages, v, n * n);
                lemma_count_is_hits(averages, w, n * n);
                if n >= 2 {
                    lemma_direction_mirrored(averages, -1, -1, v);
                    lemma_direction_mirrored(averages, 0, -1, v);
                    lemma_direction_mirrored(averages, 1, -1, v);
                    lemma_direction_mirrored(averages, -1, 0, v);
                    lemma_direction_mirrored(averages, 1, 0, v);
                    lemma_direction_mirrored(averages, -1, 1, v);
                    lemma_direction_mirrored(averages, 0, 1, v);
                    lemma_direction_mirrored(averages, 1, 1, v);
                } else {
                    assert(n * n == 1) by (nonlinear_arith)
                        requires
                            n == 1,
                    ;
                    lemma_lonely_point(averages, v);
                    lemma_lonely_point(averages, w);
                }
            } else {
                assert((-v) as i16 == v) by (bit_vector)
                    requires
                        v == -32768i16,
                ;
            }
        }
        assert(negated(flat).to_multiset() =~= flat.to_multiset());
    }
}

/// The one point of a lattice of side one has no neighbour.
proof fn lemma_lonely_point(averages: Seq<Seq<u8>>, v: i16)
    requires
        averages.len() == 1,
    ensures
        hits_around(averages, v, 1) == 0,
{
    reveal_with_fuel(sum_before, 2);
}

} // verus!
