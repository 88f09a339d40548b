//! Comparison of two signatures by the cosine of the angle between them.
//!
//! The cosine of two vectors is their dot product divided by the product of
//! their lengths. It is kept here as the three integers that determine it,
//! so that every comparison against a cutoff is exact. Where one of the
//! vectors has length zero the cosine is taken to be zero.

use vstd::prelude::*;
use crate::error::SignatureError;

verus! {

/// Numerator of the cutoff at and above which two signatures computed with
/// the default tuning count as similar.
pub const SIMILARITY_CUTOFF_NUMERATOR: u128 = 3;

/// Denominator of that cutoff.
pub const SIMILARITY_CUTOFF_DENOMINATOR: u128 = 5;

/// Largest dot product and squared length for which `is_similar` can
/// compare without leaving the range of its integers.
pub const COMPARABLE_LIMIT: u128 = 0x1000_0000_0000_0000;

/// The cosine of the angle between two vectors `a` and `b`, as the integers
/// that determine it: `dot / sqrt(norm_a * norm_b)`.
#[derive(Clone, Copy, Debug, PartialEq, Eq, Structural)]
pub struct Similarity {
    /// The dot product of `a` and `b`.
    pub dot: i128,
    /// The squared length of `a`.
    pub norm_a: u128,
    /// The squared length of `b`.
    pub norm_b: u128,
}

/// Dot product of two sequences of equal length.
pub open spec fn dot_product(a: Seq<i8>, b: Seq<i8>) -> int
    decreases a.len(),
{
    if a.len() == 0 {
        0
    } else {
        dot_product(a.drop_last(), b.drop_last()) + a.last() * b.last()
    }
}

/// Squared length of a sequence.
pub open spec fn norm_squared(a: Seq<i8>) -> int {
    dot_product(a, a)
}

/// Whether `dot / sqrt(norm_a * norm_b)` is at least `num / den`, for a
/// cutoff that is not negative. With a zero length the cosine is zero.
pub open spec fn cosine_at_least(dot: int, norm_a: int, norm_b: int, num: int, den: int) -> bool
    recommends
        0 <= num,
        0 < den,
{
    if norm_a == 0 || norm_b == 0 {
        num == 0
    } else {
        dot >= 0 && (den * den) * (dot * dot) >= (num * num) * (norm_a * norm_b)
    }
}

/// Whether `dot / sqrt(norm_a * norm_b)` is exactly one.
pub open spec fn cosine_is_one(dot: int, norm_a: int, norm_b: int) -> bool {
    dot > 0 && dot * dot == norm_a * norm_b
}

/// The cosine of two sequences of equal length.
pub open spec fn similarity(a: Seq<i8>, b: Seq<i8>) -> Similarity {
    Similarity {
        dot: dot_product(a, b) as i128,
        norm_a: norm_squared(a) as u128,
        norm_b: norm_squared(b) as u128,
    }
}

impl Similarity {
    /// Whether the three integers are small enough for `is_similar`.
    pub open spec fn comparable(self) -> bool {
        &&& -(COMPARABLE_LIMIT as int) <= self.dot <= COMPARABLE_LIMIT
        &&& self.norm_a <= COMPARABLE_LIMIT
        &&& self.norm_b <= COMPARABLE_LIMIT
    }

    /// Whether the cosine reaches the cutoff for similar images.
    pub open spec fn similar(self) -> bool {
        cosine_at_least(
            self.dot as int,
            self.norm_a as int,
            self.norm_b as int,
            SIMILARITY_CUTOFF_NUMERATOR as int,
            SIMILARITY_CUTOFF_DENOMINATOR as int,
        )
    }

    /// Whether the cosine is exactly one.
    pub open spec fn one(self) -> bool {
        cosine_is_one(self.dot as int, self.norm_a as int, self.norm_b as int)
    }

    /// Tells whether the three integers are small enough for `is_similar`
    /// and `is_one`. They are for all vectors of up to 2^44 entries.
    pub fn is_comparable(&self) -> (yes: bool)
        ensures
            yes == self.comparable(),
    {
        -(COMPARABLE_LIMIT as i128) <= self.dot && self.dot <= COMPARABLE_LIMIT as i128
            && self.norm_a <= COMPARABLE_LIMIT && self.norm_b <= COMPARABLE_LIMIT
    }

    /// Tells whether the cosine reaches the cutoff of 0.6 at and above which
    /// two signatures computed with the default tuning count as similar.
    pub fn is_similar(&self) -> (yes: bool)
        requires
            self.comparable(),
        ensures
            yes == self.similar(),
    {
        if self.norm_a == 0 || self.norm_b == 0 || self.dot < 0 {
            return false;
        }
        let dot: u128 = self.dot as u128;
        proof {
            let limit = COMPARABLE_LIMIT as int;
            assert(dot * dot <= limit * limit) by (nonlinear_arith)
                requires
                    0 <= dot <= limit,
            ;
            assert(self.norm_a * self.norm_b <= limit * limit) by (nonlinear_arith)
                requires
                    0 <= self.norm_a <= limit,
                    0 <= self.norm_b <= limit,
            ;
        }
        let lengths: u128 = self.norm_a * self.norm_b;
        25 * (dot * dot) >= 9 * lengths
    }

    /// Tells whether the cosine is exactly one: the two vectors point the
    /// same way.
    pub fn is_one(&self) -> (yes: bool)
        requires
            self.comparable(),
        ensures
            yes == self.one(),
    {
        if self.dot <= 0 {
            return false;
        }
        let dot: u128 = self.dot as u128;
        proof {
            let limit = COMPARABLE_LIMIT as int;
            assert(dot * dot <= limit * limit) by (nonlinear_arith)
                requires
                    0 <= dot <= limit,
            ;
            assert(self.norm_a * self.norm_b <= limit * limit) by (nonlinear_arith)
                requires
                    0 <= self.norm_a <= limit,
                    0 <= self.norm_b <= limit,
            ;
        }
        dot * dot == self.norm_a * self.norm_b
    }
}

/// A dot product of `n` pairs of bytes lies within `n` times the largest
/// product of two bytes.
pub proof fn lemma_dot_product_range(a: Seq<i8>, b: Seq<i8>)
    requires
        a.len() == b.len(),
    ensures
        -16384 * a.len() <= dot_product(a, b) <= 16384 * a.len(),
        0 <= norm_squared(a),
    decreases a.len(),
{
    if a.len() > 0 {
        lemma_dot_product_range(a.drop_last(), b.drop_last());
        lemma_dot_product_range(a.drop_last(), a.drop_last());
        let x = a.last() as int;
        let y = b.last() as int;
        assert(-16384 <= x * y <= 16384) by (nonlinear_arith)
            requires
                -128 <= x <= 127,
                -128 <= y <= 127,
        ;
        assert(0 <= x * x) by (nonlinear_arith);
    }
}

/// The dot product does not depend on the order of its two arguments.
pub proof fn lemma_dot_product_symmetric(a: Seq<i8>, b: Seq<i8>)
    requires
        a.len() == b.len(),
    ensures
        dot_product(a, b) == dot_product(b, a),
    decreases a.len(),
{
    if a.len() > 0 {
        lemma_dot_product_symmetric(a.drop_last(), b.drop_last());
    }
}

/// Computes the cosine of the angle between two vectors of equal length.
/// Fails if the lengths differ.
pub fn cosine_similarity(a: &Vec<i8>, b: &Vec<i8>) -> (result: Result<Similarity, SignatureError>)
    ensures
        result is Ok <==> a.len() == b.len(),
        result matches Ok(s) ==> s == similarity(a@, b@) && s.dot == dot_product(a@, b@)
            && s.norm_a == norm_squared(a@) && s.norm_b == norm_squared(b@) && (a.len()
            <= 0x1000_0000_0000 ==> s.comparable()),
        result matches Err(e) ==> e == SignatureError::LengthMismatch,
{
    if a.len() != b.len() {
        return Err(SignatureError::LengthMismatch);
    }
    let mut dot: i128 = 0;
    let mut norm_a: u128 = 0;
    let mut norm_b: u128 = 0;
    let mut i: usize = 0;
    while i < a.len()
        invariant
            a.len() == b.len(),
            i <= a.len(),
            dot == dot_product(a@.take(i as int), b@.take(i as int)),
            norm_a == norm_squared(a@.take(i as int)),
            norm_b == norm_squared(b@.take(i as int)),
        decreases a.len() - i,
    {
        let x: i128 = a[i] as i128;
        let y: i128 = b[i] as i128;
        proof {
            assert(a@.take(i + 1).drop_last() =~= a@.take(i as int));
            assert(b@.take(i + 1).drop_last() =~= b@.take(i as int));
            lemma_dot_product_range(a@.take(i as int), b@.take(i as int));
            lemma_dot_product_range(a@.take(i as int), a@.take(i as int));
            lemma_dot_product_range(b@.take(i as int), b@.take(i as int));
            assert(-16384 <= x * y <= 16384) by (nonlinear_arith)
                requires
                    -128 <= x <= 127,
                    -128 <= y <= 127,
            ;
            assert(0 <= x * x <= 16384) by (nonlinear_arith)
                requires
                    -128 <= x <= 127,
            ;
            assert(0 <= y * y <= 16384) by (nonlinear_arith)
                requires
                    -128 <= y <= 127,
            ;
        }
        dot = dot + x * y;
        norm_a = norm_a + (x * x) as u128;
        norm_b = norm_b + (y * y) as u128;
        i += 1;
    }
    proof {
        assert(a@.take(i as int) =~= a@);
        assert(b@.take(i as int) =~= b@);
        lemma_dot_product_range(a@, b@);
        lemma_dot_product_range(a@, a@);
        lemma_dot_product_range(b@, b@);
    }
    Ok(Similarity { dot, norm_a, norm_b })
}

} // verus!
