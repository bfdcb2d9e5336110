//! The integer side of the p-stable (Euclidean) hash family: batch shape
//! validation and the combiner that folds one band's quantized bucket
//! indices into a single signature. The floating-point projection that
//! produces the bucket indices is the caller's, outside this library's
//! verified core; every step from the bucket indices on is verified here,
//! so equal bucket indices are guaranteed to collide.
use vstd::prelude::*;

use crate::minhash::{combine_seq, COMBINE_INIT};
use crate::sig::narrow32;
use crate::LshError;

verus! {

/// Whether all non-null rows of a batch report one common vector length,
/// as the p-stable family demands before any row is hashed.
pub open spec fn shapes_consistent(lengths: Seq<Option<u64>>) -> bool {
    forall|i: int, j: int|
        0 <= i < lengths.len() && 0 <= j < lengths.len() && (#[trigger] lengths[i]) is Some && (
        #[trigger] lengths[j]) is Some ==> lengths[i]->0 == lengths[j]->0
}

/// The p-stable hash family over the 64-bit output width.
pub struct EuclideanHash {}

/// The p-stable hash family over the 32-bit output width.
pub struct EuclideanHash32 {}

impl EuclideanHash {
    /// Folds one band's quantized bucket indices into the band's 64-bit
    /// signature with the fixed combiner, so that equal index tuples — and
    /// only equal foldings — collide.
    pub fn combine_buckets(buckets: &Vec<u64>) -> (r: u64)
        ensures
            r == combine_seq(COMBINE_INIT, buckets@),
    {
        crate::minhash::combine_values(COMBINE_INIT, buckets)
    }

    /// Checks, before any row is hashed, that every non-null row's vector
    /// length matches the others; returns the common length (zero when the
    /// batch has no non-null row).
    pub fn validate_shapes(lengths: &Vec<Option<u64>>) -> (r: Result<u64, LshError>)
        ensures
            r is Ok <==> shapes_consistent(lengths@),
            r matches Ok(l) ==> (forall|i: int|
                0 <= i < lengths@.len() ==> ((#[trigger] lengths@[i]) matches Some(a) ==> a == l))
                && ((forall|i: int| 0 <= i < lengths@.len() ==> lengths@[i] is None) ==> l == 0),
            r matches Err(e) ==> e is ShapeMismatchError,
    {
        let n = lengths.len();
        let mut common: u64 = 0;
        let ghost mut witness: int = 0int;
        let mut seen = false;
        let mut i: usize = 0;
        while i < n
            invariant
                i <= n,
                n == lengths@.len(),
                seen <==> (exists|j: int| 0 <= j < i && lengths@[j] is Some),
                seen ==> 0 <= witness < i && lengths@[witness] == Some(common),
                !seen ==> common == 0,
                forall|j: int|
                    0 <= j < i ==> ((#[trigger] lengths@[j]) matches Some(a) ==> a == common),
            decreases n - i,
        {
            match &lengths[i] {
                Some(l) => {
                    if !seen {
                        seen = true;
                        common = *l;
                        proof {
                            witness = i as int;
                        }
                    } else if *l != common {
                        proof {
                            assert(lengths@[witness] is Some && lengths@[i as int] is Some
                                && lengths@[witness]->0 != lengths@[i as int]->0);
                        }
                        return Err(LshError::ShapeMismatchError);
                    }
                },
                None => {},
            }
            i += 1;
        }
        proof {
            assert forall|p: int, q: int|
                0 <= p < n && 0 <= q < n && (#[trigger] lengths@[p]) is Some
                    && (#[trigger] lengths@[q]) is Some implies lengths@[p]->0
                == lengths@[q]->0 by {
                assert(lengths@[p]->0 == common);
                assert(lengths@[q]->0 == common);
            }
        }
        Ok(common)
    }
}

impl EuclideanHash32 {
    /// As [`EuclideanHash::combine_buckets`], narrowed to 32 bits on
    /// store.
    pub fn combine_buckets(buckets: &Vec<u64>) -> (r: u32)
        ensures
            r == narrow32(combine_seq(COMBINE_INIT, buckets@)),
    {
        let wide = EuclideanHash::combine_buckets(buckets);
        (wide & 0xFFFF_FFFFu64) as u32
    }
}

} // verus!
