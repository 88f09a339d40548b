//! Vectors of vectors seen as sequences of sequences.

use vstd::prelude::*;

verus! {

/// The rows of a vector of vectors.
pub open spec fn rows_view<T>(v: Vec<Vec<T>>) -> Seq<Seq<T>> {
    Seq::new(v@.len(), |i: int| v@[i]@)
}

/// A rectangle of `height` rows of `width` values each.
pub open spec fn is_grid<T>(rows: Seq<Seq<T>>, height: int, width: int) -> bool {
    &&& rows.len() == height
    &&& forall|y: int| 0 <= y < height ==> (#[trigger] rows[y]).len() == width
}

/// Flattening one row more appends that row.
pub proof fn lemma_flatten_next<T>(rows: Seq<Seq<T>>, p: int)
    requires
        0 <= p < rows.len(),
    ensures
        rows.take(p + 1).flatten() == rows.take(p).flatten() + rows[p],
{
    assert(rows.take(p + 1) =~= rows.take(p).push(rows[p]));
    rows.take(p).lemma_flatten_push(rows[p]);
}

} // verus!
