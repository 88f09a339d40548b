//! The balance of a signature: where the differences are symmetric around
//! zero, "much lighter" and "much darker" are equally many, and so are
//! "lighter" and "darker".

use vstd::prelude::*;
use vstd::relations::sorted_by;
use crate::quantize::{
    ascending, is_dark, is_light, label_of, labeling, labels_of, lemma_median_of_arrangement,
    median,
};

verus! {

/// The differences with their signs changed.
pub open spec fn negated(diffs: Seq<i16>) -> Seq<i16> {
    diffs.map_values(|d: i16| (-d) as i16)
}

/// Whether the differences are symmetric around zero: with their signs
/// changed they are the same differences in another order.
pub open spec fn symmetric_around_zero(diffs: Seq<i16>) -> bool {
    &&& forall|i: int| 0 <= i < diffs.len() ==> #[trigger] diffs[i] > i16::MIN
    &&& negated(diffs).to_multiset() == diffs.to_multiset()
}

/// Selects one label.
pub open spec fn is_label(label: i8) -> spec_fn(i8) -> bool {
    |l: i8| l == label
}

/// How often a label occurs.
pub open spec fn count_of(labels: Seq<i8>, label: i8) -> nat {
    labels.filter(is_label(label)).len()
}

/// Selects the differences that get the given label under the two
/// thresholds.
spec fn gets_label(dark: int, light: int, label: i8) -> spec_fn(i16) -> bool {
    |d: i16| labeling(dark, light)(d) == label
}

/// An element occurs in the selected part of a sequence as often as in the
/// sequence if it is selected, and not at all if it is not.
proof fn lemma_filter_counts(s: Seq<i16>, pred: spec_fn(i16) -> bool, v: i16)
    ensures
        s.filter(pred).to_multiset().count(v) == if pred(v) {
            s.to_multiset().count(v)
        } else {
            0
        },
    decreases s.len(),
{
    broadcast use vstd::multiset::group_multiset_axioms;
    broadcast use vstd::seq_lib::group_to_multiset_ensures;

    if s.len() == 0 {
        s.lemma_all_neg_filter_empty(pred);
    } else {
        let front = s.drop_last();
        let x = s.last();
        lemma_filter_counts(front, pred, v);
        assert(s =~= front.push(x));
        front.lemma_filter_push(x, pred);
    }
}

/// The selected parts of two arrangements of the same elements are two
/// arrangements of the same elements, and equally long.
proof fn lemma_filter_rearranged(s: Seq<i16>, t: Seq<i16>, pred: spec_fn(i16) -> bool)
    requires
        s.to_multiset() == t.to_multiset(),
    ensures
        s.filter(pred).to_multiset() == t.filter(pred).to_multiset(),
        s.filter(pred).len() == t.filter(pred).len(),
{
    assert forall|v: i16|
        s.filter(pred).to_multiset().count(v) == t.filter(pred).to_multiset().count(v) by {
        lemma_filter_counts(s, pred, v);
        lemma_filter_counts(t, pred, v);
    }
    assert(s.filter(pred).to_multiset() =~= t.filter(pred).to_multiset());
    vstd::seq_lib::to_multiset_len(s.filter(pred));
    vstd::seq_lib::to_multiset_len(t.filter(pred));
}

/// Selecting from the negated differences by `pred` is negating what
/// `mirror` selects, where `mirror` holds of a difference when `pred` holds
/// of its negation.
proof fn lemma_filter_negated(
    s: Seq<i16>,
    pred: spec_fn(i16) -> bool,
    mirror: spec_fn(i16) -> bool,
)
    requires
        forall|i: int| 0 <= i < s.len() ==> mirror(#[trigger] s[i]) == pred((-s[i]) as i16),
    ensures
        negated(s).filter(pred) == negated(s.filter(mirror)),
    decreases s.len(),
{
    if s.len() == 0 {
        s.lemma_all_neg_filter_empty(mirror);
        negated(s).lemma_all_neg_filter_empty(pred);
    } else {
        let front = s.drop_last();
        let x = s.last();
        assert forall|i: int| 0 <= i < front.len() implies mirror(#[trigger] front[i]) == pred(
            (-front[i]) as i16,
        ) by {
            assert(front[i] == s[i]);
        }
        lemma_filter_negated(front, pred, mirror);
        assert(s =~= front.push(x));
        assert(negated(s) =~= negated(front).push((-x) as i16));
        front.lemma_filter_push(x, mirror);
        negated(front).lemma_filter_push((-x) as i16, pred);
        assert(mirror(x) == pred((-x) as i16));
        if mirror(x) {
            assert(negated(front.filter(mirror).push(x)) =~= negated(front.filter(mirror)).push(
                (-x) as i16,
            ));
        }
    }
}

/// The labels equal to `label` are as many as the differences that get it.
proof fn lemma_count_of_labels(diffs: Seq<i16>, dark: int, light: int, label: i8)
    ensures
        count_of(diffs.map_values(labeling(dark, light)), label) == diffs.filter(
            gets_label(dark, light, label),
        ).len(),
    decreases diffs.len(),
{
    let labels = diffs.map_values(labeling(dark, light));
    if diffs.len() == 0 {
        diffs.lemma_all_neg_filter_empty(gets_label(dark, light, label));
        labels.lemma_all_neg_filter_empty(is_label(label));
    } else {
        let front = diffs.drop_last();
        let x = diffs.last();
        lemma_count_of_labels(front, dark, light, label);
        assert(diffs =~= front.push(x));
        assert(labels =~= front.map_values(labeling(dark, light)).push(labeling(dark, light)(x)));
        front.lemma_filter_push(x, gets_label(dark, light, label));
        front.map_values(labeling(dark, light)).lemma_filter_push(
            labeling(dark, light)(x),
            is_label(label),
        );
    }
}

/// Two arrangements of the same differences have the same median.
pub proof fn lemma_median_of_rearranged(s: Seq<i16>, t: Seq<i16>)
    requires
        s.to_multiset() == t.to_multiset(),
    ensures
        median(s) == median(t),
{
    t.lemma_sort_by_ensures(ascending());
    lemma_median_of_arrangement(s, t.sort_by(ascending()));
}

/// Negating every element of a sequence in ascending order and reversing
/// the result gives a sequence in ascending order.
proof fn lemma_negated_reverse_sorted(t: Seq<i16>)
    requires
        sorted_by(t, ascending()),
        forall|i: int| 0 <= i < t.len() ==> #[trigger] t[i] > i16::MIN,
    ensures
        sorted_by(negated(t).reverse(), ascending()),
        negated(t).reverse().len() == t.len(),
        forall|i: int|
            0 <= i < t.len() ==> #[trigger] negated(t).reverse()[i] == -t[t.len() - 1 - i],
{
    let u = negated(t).reverse();
    assert forall|i: int, j: int| 0 <= i < j < u.len() implies #[trigger] ascending()(
        u[i],
        u[j],
    ) by {
        assert(ascending()(t[t.len() - 1 - j], t[t.len() - 1 - i]));
    }
}

/// The median of the negated differences is the negated median.
pub proof fn lemma_median_negated(s: Seq<i16>)
    requires
        forall|i: int| 0 <= i < s.len() ==> #[trigger] s[i] > i16::MIN,
    ensures
        median(negated(s)) == -median(s),
{
    broadcast use vstd::seq_lib::group_to_multiset_ensures;

    let t = s.sort_by(ascending());
    s.lemma_sort_by_ensures(ascending());
    vstd::seq_lib::to_multiset_len(s);
    vstd::seq_lib::to_multiset_len(t);
    assert forall|i: int| 0 <= i < t.len() implies #[trigger] t[i] > i16::MIN by {
        assert(t.contains(t[i]));
    }
    lemma_negated_reverse_sorted(t);
    let u = negated(t).reverse();
    // `u` holds the elements of `negated(s)`.
    lemma_negated_rearranged(t, s);
    negated(t).lemma_reverse_to_multiset();
    // `u[i]` is the negation of `t[n - 1 - i]`, so the middle of `u` is the
    // negated middle of `t`.
    lemma_median_of_arrangement(negated(s), u);
}

/// Negating two arrangements of the same elements gives two arrangements of
/// the same elements.
proof fn lemma_negated_rearranged(s: Seq<i16>, t: Seq<i16>)
    requires
        s.to_multiset() == t.to_multiset(),
    ensures
        negated(s).to_multiset() == negated(t).to_multiset(),
{
    assert forall|v: i16| negated(s).to_multiset().count(v) == negated(t).to_multiset().count(
        v,
    ) by {
        lemma_negated_counts(s, v);
        lemma_negated_counts(t, v);
    }
}

/// An element occurs among the negated differences as often as its negation
/// occurs among the differences.
pub proof fn lemma_negated_counts(s: Seq<i16>, v: i16)
    ensures
        negated(s).to_multiset().count(v) == s.to_multiset().count((-v) as i16),
    decreases s.len(),
{
    broadcast use vstd::multiset::group_multiset_axioms;
    broadcast use vstd::seq_lib::group_to_multiset_ensures;

    if s.len() > 0 {
        let front = s.drop_last();
        let x = s.last();
        lemma_negated_counts(front, v);
        assert(s =~= front.push(x));
        assert(negated(s) =~= negated(front).push((-x) as i16));
        assert(((-x) as i16 == v) == (x == (-v) as i16)) by (bit_vector);
    }
}

/// Where the differences are symmetric around zero, the threshold of the
/// dark side is the negated threshold of the light side.
pub proof fn lemma_symmetric_thresholds(diffs: Seq<i16>)
    requires
        symmetric_around_zero(diffs),
    ensures
        median(diffs.filter(is_dark())) == -median(diffs.filter(is_light())),
{
    let light = diffs.filter(is_light());
    lemma_filter_negated(diffs, is_dark(), is_light());
    lemma_filter_rearranged(negated(diffs), diffs, is_dark());
    lemma_median_of_rearranged(diffs.filter(is_dark()), negated(light));
    assert forall|i: int| 0 <= i < light.len() implies #[trigger] light[i] > i16::MIN by {
        diffs.lemma_filter_pred(is_light(), i);
    }
    lemma_median_negated(light);
}

/// Where the differences are symmetric around zero, a label and its
/// opposite occur equally often.
pub proof fn lemma_labels_balance(diffs: Seq<i16>, label: i8)
    requires
        symmetric_around_zero(diffs),
        -2 <= label <= 2,
    ensures
        count_of(labels_of(diffs), label) == count_of(labels_of(diffs), (-label) as i8),
{
    let dark = median(diffs.filter(is_dark()));
    let light = median(diffs.filter(is_light()));
    let opposite = (-label) as i8;
    lemma_symmetric_thresholds(diffs);
    lemma_count_of_labels(diffs, dark, light, label);
    lemma_count_of_labels(diffs, dark, light, opposite);
    assert forall|i: int| 0 <= i < diffs.len() implies gets_label(dark, light, opposite)(
        #[trigger] diffs[i],
    ) == gets_label(dark, light, label)((-diffs[i]) as i16) by {
        let d = diffs[i] as int;
        assert(label_of(-d, dark, light) == -label_of(d, dark, light));
    }
    lemma_filter_negated(diffs, gets_label(dark, light, label), gets_label(dark, light, opposite));
    lemma_filter_rearranged(negated(diffs), diffs, gets_label(dark, light, label));
}

} // verus!
