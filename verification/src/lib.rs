//! Locality-sensitive-hashing signatures for approximate similarity search:
//! MinHash bands for set/text (Jaccard) similarity and the integer side of
//! p-stable bands for Euclidean similarity, plus exact Jaccard set
//! arithmetic. Every row of a batch derives its bands from one seeded
//! pseudorandom stream that restarts at the row-invariant seed, so rows
//! hashed in different calls stay comparable: a shared band signature means
//! the same randomized hash functions agreed. Each batch entry point states
//! exactly which signatures it emits, how nulls propagate, and how the
//! output buffer is laid out.
use vstd::prelude::*;

pub mod euclidean;
pub mod minhash;
pub mod rng;
pub mod shingle;
pub mod sig;

verus! {

/// Why a batch of rows was rejected before any row was hashed.
#[derive(Debug, PartialEq, Eq)]
pub enum LshError {
    /// A parameter that must be constant for the whole batch varies per row;
    /// holds the parameter's name.
    ConfigurationError(String),
    /// Numeric input vectors within one batch do not all share one length.
    ShapeMismatchError,
    /// The input does not match any supported shape.
    UnsupportedInputError,
}

/// Whether a per-row parameter column holds one constant value, as the
/// batch contract demands of every scalar configuration parameter.
pub open spec fn column_constant(column: Seq<u64>) -> bool {
    forall|i: int| 0 <= i < column.len() ==> #[trigger] column[i] == column[0]
}

/// Scans one parameter column and returns its constant value, or reports the
/// parameter as varying.
pub fn validate_constant_param(column: &Vec<u64>, param_name: &str) -> (r: Result<
    u64,
    LshError,
>)
    requires
        column@.len() >= 1,
    ensures
        r is Ok <==> column_constant(column@),
        r is Ok ==> r->Ok_0 == column@[0],
        r is Err ==> (r->Err_0 matches LshError::ConfigurationError(name) && name@
            == param_name@),
{
    let first = column[0];
    let n = column.len();
    let mut i: usize = 1;
    while i < n
        invariant
            1 <= i <= n,
            n == column@.len(),
            first == column@[0],
            forall|j: int| 0 <= j < i ==> #[trigger] column@[j] == column@[0],
        decreases n - i,
    {
        if column[i] != first {
            return Result::Err(LshError::ConfigurationError(param_name.to_string()));
        }
        i += 1;
    }
    Result::Ok(first)
}

} // verus!
