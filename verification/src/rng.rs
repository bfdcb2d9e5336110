//! A deterministic stream of 64-bit pseudorandom words, derived from a 64-bit
//! seed. Every band of every row draws its randomized hash parameters from
//! such a stream, and the stream is re-created from the same seed for every
//! row, so rows hashed in different batches stay comparable.
use vstd::prelude::*;

verus! {

#[verifier::external_type_specification]
#[verifier::external_body]
pub struct ExStdRng(rand::rngs::StdRng);

/// The word that the pseudorandom stream seeded with `seed` yields at
/// position `idx`. The stream is a fixed, platform-independent function of
/// the seed, so this name stands for one definite value per `(seed, idx)`.
pub uninterp spec fn rng_word(seed: u64, idx: int) -> u64;

/// Relies on rand's `SeedableRng::seed_from_u64` to build a `StdRng`. What
/// the resulting stream yields is stated on [`RngStream::next_word`].
#[verifier::external_body]
fn std_rng_from_seed(seed: u64) -> rand::rngs::StdRng {
    rand::SeedableRng::seed_from_u64(seed)
}

/// A seeded pseudorandom word stream together with its position, so that
/// contracts can say which word of the seed's stream each draw returns.
pub struct RngStream {
    inner: rand::rngs::StdRng,
    seed: Ghost<u64>,
    pos: Ghost<int>,
}

impl RngStream {
    /// The seed this stream was created from.
    pub closed spec fn seed(self) -> u64 {
        self.seed@
    }

    /// How many words have been drawn from this stream so far.
    pub closed spec fn pos(self) -> int {
        self.pos@
    }

    pub fn new(seed: u64) -> (r: RngStream)
        ensures
            r.seed() == seed,
            r.pos() == 0,
    {
        RngStream { inner: std_rng_from_seed(seed), seed: Ghost(seed), pos: Ghost(0int) }
    }

    /// Relies on rand's `StdRng` (the ChaCha block cipher with 12 rounds) and
    /// `RngCore::next_u64`: for a fixed seed the sequence of words is a pure,
    /// platform-independent function of the position, which `rng_word` names.
    #[verifier::external_body]
    pub fn next_word(&mut self) -> (r: u64)
        ensures
            final(self).seed() == old(self).seed(),
            final(self).pos() == old(self).pos() + 1,
            r == rng_word(old(self).seed(), old(self).pos()),
    {
        rand::RngCore::next_u64(&mut self.inner)
    }
}

} // verus!
