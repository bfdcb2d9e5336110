//! One band's MinHash signature over a shingle set: `band_size` randomized
//! minimum-hash draws, each seeded from the shared pseudorandom stream, and
//! a fixed mixing combiner that folds the per-draw minima into one 64-bit
//! band value.
use vstd::prelude::*;

use crate::rng::{rng_word, RngStream};
use crate::shingle::{seqs_of, text_fingerprints, token_fingerprints, ShingleSet};
use crate::sig::{assemble_signatures, row_views, PerRowSignatures, PerRowSignatures32};
use crate::{column_constant, validate_constant_param, LshError};

verus! {

/// The value the combiner starts from before folding in a band's minima.
pub const COMBINE_INIT: u64 = 0x9E3779B97F4A7C15;

/// A fixed 64-bit bit mixer (the finalizer of the splitmix64 generator):
/// xor-shifts interleaved with two odd multiplications, modulo `2^64`. Used
/// both as the randomized per-fingerprint hash and as the combiner of a
/// band's minima.
pub open spec fn mix64(x: u64) -> u64 {
    let a = x ^ (x >> 30);
    let b = vstd::wrapping::u64_specs::wrapping_mul(a, 0xBF58476D1CE4E5B9);
    let c = b ^ (b >> 27);
    let d = vstd::wrapping::u64_specs::wrapping_mul(c, 0x94D049BB133111EB);
    d ^ (d >> 31)
}

fn mix64_exec(x: u64) -> (r: u64)
    ensures
        r == mix64(x),
{
    let a = x ^ (x >> 30u64);
    let b = a.wrapping_mul(0xBF58476D1CE4E5B9u64);
    let c = b ^ (b >> 27u64);
    let d = c.wrapping_mul(0x94D049BB133111EBu64);
    d ^ (d >> 31u64)
}

/// The randomized hash that one draw's `seed` gives to one fingerprint.
pub open spec fn fingerprint_hash(seed: u64, fp: u32) -> u64 {
    mix64(seed ^ (fp as u64))
}

fn fingerprint_hash_exec(seed: u64, fp: u32) -> (r: u64)
    ensures
        r == fingerprint_hash(seed, fp),
{
    mix64_exec(seed ^ (fp as u64))
}

/// What it means for `m` to be one draw's minimum hash over a fingerprint
/// set: the least randomized hash of any member, or the deterministic
/// sentinel `mix64(seed)` when the set is empty.
pub open spec fn is_band_min(seed: u64, fps: Set<u32>, m: u64) -> bool {
    if !fps.finite() || fps.len() == 0 {
        m == mix64(seed)
    } else {
        (exists|fp: u32| #[trigger] fps.contains(fp) && m == fingerprint_hash(seed, fp)) && (forall|
            fp: u32,
        |
            #[trigger] fps.contains(fp) ==> m <= fingerprint_hash(seed, fp))
    }
}

/// One draw's minimum hash over a fingerprint set.
pub closed spec fn band_min(seed: u64, fps: Set<u32>) -> u64 {
    choose|m: u64| is_band_min(seed, fps, m)
}

proof fn lemma_band_min_exists(seed: u64, fps: Set<u32>)
    requires
        fps.finite(),
    ensures
        exists|m: u64| is_band_min(seed, fps, m),
    decreases fps.len(),
{
    broadcast use vstd::set::group_set_axioms;

    if fps.len() == 0 {
        assert(is_band_min(seed, fps, mix64(seed)));
    } else {
        assert(exists|x: u32| fps.contains(x)) by {
            vstd::set_lib::lemma_set_empty_equivalency_len(fps);
        }
        let x = choose|x: u32| fps.contains(x);
        let rest = fps.remove(x);
        let h = fingerprint_hash(seed, x);
        lemma_band_min_exists(seed, rest);
        let m0 = choose|m: u64| is_band_min(seed, rest, m);
        if rest.len() == 0 {
            assert(is_band_min(seed, fps, h)) by {
                vstd::set_lib::lemma_set_empty_equivalency_len(rest);
                assert forall|fp: u32| #[trigger] fps.contains(fp) implies h <= fingerprint_hash(
                    seed,
                    fp,
                ) by {
                    if fp != x {
                        assert(rest.contains(fp));
                    }
                }
            }
        } else {
            let m1 = if h <= m0 {
                h
            } else {
                m0
            };
            assert(is_band_min(seed, fps, m1)) by {
                assert forall|fp: u32| #[trigger] fps.contains(fp) implies m1
                    <= fingerprint_hash(seed, fp) by {
                    if fp != x {
                        assert(rest.contains(fp));
                    }
                }
                if m1 == m0 {
                    let w = choose|fp: u32| #[trigger] rest.contains(fp) && m0
                        == fingerprint_hash(seed, fp);
                    assert(fps.contains(w));
                }
            }
        }
    }
}

/// No two values can both be a draw's minimum: each would bound the other.
proof fn lemma_band_min_unique(seed: u64, fps: Set<u32>, m1: u64, m2: u64)
    requires
        is_band_min(seed, fps, m1),
        is_band_min(seed, fps, m2),
    ensures
        m1 == m2,
{
    if fps.finite() && fps.len() != 0 {
        let w1 = choose|fp: u32| #[trigger] fps.contains(fp) && m1 == fingerprint_hash(seed, fp);
        let w2 = choose|fp: u32| #[trigger] fps.contains(fp) && m2 == fingerprint_hash(seed, fp);
        assert(m1 <= fingerprint_hash(seed, w2));
        assert(m2 <= fingerprint_hash(seed, w1));
    }
}

/// `band_min` is the one value satisfying `is_band_min`.
pub proof fn lemma_band_min_spec(seed: u64, fps: Set<u32>)
    requires
        fps.finite(),
    ensures
        is_band_min(seed, fps, band_min(seed, fps)),
        forall|m: u64| is_band_min(seed, fps, m) ==> m == band_min(seed, fps),
{
    lemma_band_min_exists(seed, fps);
    assert forall|m: u64| is_band_min(seed, fps, m) implies m == band_min(seed, fps) by {
        lemma_band_min_unique(seed, fps, m, band_min(seed, fps));
    }
}

/// Folds a sequence of values into the accumulator, mixing in one value at
/// a time, left to right.
pub open spec fn combine_seq(acc: u64, xs: Seq<u64>) -> u64
    decreases xs.len(),
{
    if xs.len() == 0 {
        acc
    } else {
        combine_seq(mix64(acc ^ xs[0]), xs.subrange(1, xs.len() as int))
    }
}

/// Folds a vector of values into the accumulator with the fixed combiner.
pub fn combine_values(init: u64, xs: &Vec<u64>) -> (r: u64)
    ensures
        r == combine_seq(init, xs@),
{
    let n = xs.len();
    let mut acc: u64 = init;
    let mut i: usize = 0;
    proof {
        assert(xs@.skip(0) =~= xs@);
    }
    while i < n
        invariant
            i <= n,
            n == xs@.len(),
            combine_seq(init, xs@) == combine_seq(acc, xs@.skip(i as int)),
        decreases n - i,
    {
        proof {
            assert(xs@.skip(i as int)[0] == xs@[i as int]);
            assert(xs@.skip(i as int).subrange(1, xs@.skip(i as int).len() as int) =~= xs@.skip(
                i + 1,
            ));
        }
        acc = mix64_exec(acc ^ xs[i]);
        i += 1;
    }
    proof {
        assert(xs@.skip(n as int) =~= Seq::<u64>::empty());
    }
    acc
}

/// One draw's minimum for each seed word, in draw order.
pub open spec fn band_minima(words: Seq<u64>, fps: Set<u32>) -> Seq<u64> {
    Seq::new(words.len(), |j: int| band_min(words[j], fps))
}

/// The seed words that band number `band_idx` draws from the stream: the
/// words at positions `band_idx * band_size ..` in draw order.
pub open spec fn band_seed_words(seed: u64, band_size: nat, band_idx: int) -> Seq<u64> {
    Seq::new(band_size, |j: int| rng_word(seed, band_idx * band_size + j))
}

/// The full-band signature that band number `band_idx` assigns to a
/// fingerprint set: the fixed combiner folded over the band's minima.
pub open spec fn spec_band_signature(seed: u64, band_size: nat, band_idx: int, fps: Set<u32>) -> u64 {
    combine_seq(COMBINE_INIT, band_minima(band_seed_words(seed, band_size, band_idx), fps))
}

/// All `band_count` band signatures of one row, in band order.
pub open spec fn spec_row_signatures(
    seed: u64,
    band_count: nat,
    band_size: nat,
    fps: Set<u32>,
) -> Seq<u64> {
    Seq::new(band_count, |b: int| spec_band_signature(seed, band_size, b, fps))
}

/// Computes one draw's minimum hash over a duplicate-free fingerprint
/// vector.
fn min_hash_once(seed: u64, fps: &Vec<u32>) -> (r: u64)
    ensures
        is_band_min(seed, fps@.to_set(), r),
{
    broadcast use vstd::seq_lib::seq_to_set_is_finite;
    broadcast use vstd::set::group_set_axioms;

    let n = fps.len();
    if n == 0 {
        proof {
            assert(fps@.to_set() =~= Set::<u32>::empty());
        }
        return mix64_exec(seed);
    }
    let mut best = fingerprint_hash_exec(seed, fps[0]);
    let mut i: usize = 1;
    while i < n
        invariant
            1 <= i <= n,
            n == fps@.len(),
            exists|t: int| 0 <= t < i && best == fingerprint_hash(seed, #[trigger] fps@[t]),
            forall|t: int| 0 <= t < i ==> best <= fingerprint_hash(seed, #[trigger] fps@[t]),
        decreases n - i,
    {
        let h = fingerprint_hash_exec(seed, fps[i]);
        if h < best {
            best = h;
        }
        i += 1;
    }
    proof {
        let s = fps@.to_set();
        assert(s.contains(fps@[0]));
        vstd::set_lib::lemma_set_empty_equivalency_len(s);
        let t = choose|t: int| 0 <= t < n && best == fingerprint_hash(seed, #[trigger] fps@[t]);
        assert(s.contains(fps@[t]));
        assert forall|fp: u32| #[trigger] s.contains(fp) implies best <= fingerprint_hash(
            seed,
            fp,
        ) by {
            let u = choose|u: int| 0 <= u < fps@.len() && fps@[u] == fp;
            assert(best <= fingerprint_hash(seed, fps@[u]));
        }
    }
    best
}

/// A transient, single-use hasher for one band: `band_size` seed words
/// drawn from the shared stream, consumed once to hash a shingle set into
/// one 64-bit band signature.
pub struct MinHasher {
    seeds: Vec<u64>,
}

impl MinHasher {
    /// The seed words this hasher drew, in draw order.
    pub closed spec fn seeds_view(self) -> Seq<u64> {
        self.seeds@
    }

    /// Draws `band_size` seed words from the stream, advancing it so that
    /// the next hasher built from the same stream is independent.
    pub fn new(band_size: usize, stream: &mut RngStream) -> (r: MinHasher)
        ensures
            final(stream).seed() == old(stream).seed(),
            final(stream).pos() == old(stream).pos() + band_size,
            r.seeds_view() == Seq::new(
                band_size as nat,
                |j: int| rng_word(old(stream).seed(), old(stream).pos() + j),
            ),
    {
        let mut seeds: Vec<u64> = Vec::new();
        let mut j: usize = 0;
        while j < band_size
            invariant
                j <= band_size,
                stream.seed() == old(stream).seed(),
                stream.pos() == old(stream).pos() + j,
                seeds@.len() == j,
                forall|t: int|
                    0 <= t < j ==> seeds@[t] == rng_word(old(stream).seed(), old(stream).pos() + t),
            decreases band_size - j,
        {
            let w = stream.next_word();
            seeds.push(w);
            j += 1;
        }
        proof {
            assert(seeds@ =~= Seq::new(
                band_size as nat,
                |j: int| rng_word(old(stream).seed(), old(stream).pos() + j),
            ));
        }
        MinHasher { seeds }
    }

    /// Hashes a shingle set into this band's signature: the minimum
    /// randomized hash for each drawn seed word, folded by the combiner.
    pub fn hash(&self, set: &ShingleSet) -> (r: u64)
        ensures
            r == combine_seq(COMBINE_INIT, band_minima(self.seeds_view(), set@)),
    {
        broadcast use vstd::seq_lib::seq_to_set_is_finite;

        let fps = set.fingerprints();
        let ghost minima = band_minima(self.seeds_view(), set@);
        let n = self.seeds.len();
        let mut acc: u64 = COMBINE_INIT;
        let mut s_idx: usize = 0;
        proof {
            assert(minima.skip(0) =~= minima);
        }
        while s_idx < n
            invariant
                s_idx <= n,
                n == self.seeds@.len(),
                minima == band_minima(self.seeds_view(), set@),
                fps@.to_set() == set@,
                combine_seq(COMBINE_INIT, minima) == combine_seq(acc, minima.skip(s_idx as int)),
            decreases n - s_idx,
        {
            let m = min_hash_once(self.seeds[s_idx], fps);
            proof {
                lemma_band_min_spec(self.seeds@[s_idx as int], set@);
                assert(m == band_min(self.seeds@[s_idx as int], set@));
                assert(minima.skip(s_idx as int)[0] == minima[s_idx as int]);
                assert(minima.skip(s_idx as int).subrange(
                    1,
                    minima.skip(s_idx as int).len() as int,
                ) =~= minima.skip(s_idx + 1));
            }
            acc = mix64_exec(acc ^ m);
            s_idx += 1;
        }
        proof {
            assert(minima.skip(n as int) =~= Seq::<u64>::empty());
        }
        acc
    }
}

/// Computes all of one row's band signatures: the stream is created fresh
/// from the row-invariant seed, and each band consumes the next
/// `band_size` words, so band `b` of every row draws structurally
/// identical randomized hash functions.
pub fn row_band_signatures(set: &ShingleSet, band_count: usize, band_size: usize, seed: u64) -> (r:
    Vec<u64>)
    ensures
        r@ == spec_row_signatures(seed, band_count as nat, band_size as nat, set@),
{
    let mut stream = RngStream::new(seed);
    let mut out: Vec<u64> = Vec::new();
    let mut b: usize = 0;
    while b < band_count
        invariant
            b <= band_count,
            stream.seed() == seed,
            stream.pos() == b * band_size,
            out@.len() == b,
            forall|t: int|
                0 <= t < b ==> out@[t] == spec_band_signature(
                    seed,
                    band_size as nat,
                    t,
                    set@,
                ),
        decreases band_count - b,
    {
        let hasher = MinHasher::new(band_size, &mut stream);
        proof {
            assert(hasher.seeds_view() =~= band_seed_words(seed, band_size as nat, b as int));
            assert((b + 1) * band_size == b * band_size + band_size) by (nonlinear_arith);
        }
        let sig = hasher.hash(set);
        out.push(sig);
        b += 1;
    }
    proof {
        assert(out@ =~= spec_row_signatures(seed, band_count as nat, band_size as nat, set@));
    }
    out
}

/// The texts of a batch of optional string rows.
pub open spec fn text_row_views(rows: Seq<Option<String>>) -> Seq<Option<Seq<char>>> {
    Seq::new(
        rows.len(),
        |i: int|
            match rows[i] {
                None => None,
                Some(s) => Some(s@),
            },
    )
}

/// The token lists of a batch of optional token-list rows.
pub open spec fn token_row_views(rows: Seq<Option<Vec<String>>>) -> Seq<Option<Seq<Seq<char>>>> {
    Seq::new(
        rows.len(),
        |i: int|
            match rows[i] {
                None => None,
                Some(v) => Some(seqs_of(v@)),
            },
    )
}

/// What one text row must hash to: null for a null row, else the row's
/// `band_count` band signatures over its window fingerprints.
pub open spec fn spec_text_row_output(
    row: Option<Seq<char>>,
    ngram_width: nat,
    band_count: nat,
    band_size: nat,
    seed: u64,
) -> Option<Seq<u64>> {
    match row {
        None => None,
        Some(t) => Some(
            spec_row_signatures(seed, band_count, band_size, text_fingerprints(t, ngram_width, None)),
        ),
    }
}

/// What a whole batch of text rows must hash to, row by row. Each row's
/// entry depends only on that row's own text and the shared configuration.
pub open spec fn spec_text_batch(
    rows: Seq<Option<Seq<char>>>,
    ngram_width: nat,
    band_count: nat,
    band_size: nat,
    seed: u64,
) -> Seq<Option<Seq<u64>>> {
    Seq::new(
        rows.len(),
        |i: int| spec_text_row_output(rows[i], ngram_width, band_count, band_size, seed),
    )
}

/// What one token-list row must hash to.
pub open spec fn spec_token_row_output(
    row: Option<Seq<Seq<char>>>,
    band_count: nat,
    band_size: nat,
    seed: u64,
) -> Option<Seq<u64>> {
    match row {
        None => None,
        Some(toks) => Some(
            spec_row_signatures(seed, band_count, band_size, token_fingerprints(toks, None)),
        ),
    }
}

/// What a whole batch of token-list rows must hash to, row by row.
pub open spec fn spec_token_batch(
    rows: Seq<Option<Seq<Seq<char>>>>,
    band_count: nat,
    band_size: nat,
    seed: u64,
) -> Seq<Option<Seq<u64>>> {
    Seq::new(rows.len(), |i: int| spec_token_row_output(rows[i], band_count, band_size, seed))
}

/// Determinism: hashing equal batches under equal configuration yields
/// equal signatures, in the same call or in different calls.
pub proof fn lemma_text_batch_deterministic(
    rows1: Seq<Option<Seq<char>>>,
    rows2: Seq<Option<Seq<char>>>,
    ngram_width: nat,
    band_count: nat,
    band_size: nat,
    seed: u64,
)
    requires
        rows1 == rows2,
    ensures
        spec_text_batch(rows1, ngram_width, band_count, band_size, seed) == spec_text_batch(
            rows2,
            ngram_width,
            band_count,
            band_size,
            seed,
        ),
{
}

/// Row independence: a row's signatures depend only on that row's own
/// input and the shared configuration, not on the other rows of the batch.
pub proof fn lemma_text_row_independence(
    rows1: Seq<Option<Seq<char>>>,
    rows2: Seq<Option<Seq<char>>>,
    i: int,
    ngram_width: nat,
    band_count: nat,
    band_size: nat,
    seed: u64,
)
    requires
        0 <= i < rows1.len(),
        0 <= i < rows2.len(),
        rows1[i] == rows2[i],
    ensures
        spec_text_batch(rows1, ngram_width, band_count, band_size, seed)[i] == spec_text_batch(
            rows2,
            ngram_width,
            band_count,
            band_size,
            seed,
        )[i],
{
}

/// The MinHash family over the 64-bit output width.
pub struct MinHash {}

/// The MinHash family over the 32-bit output width.
pub struct MinHash32 {}

impl MinHash {
    /// Hashes a batch of text rows under one fixed configuration: nulls
    /// propagate, every non-null row gets `band_count` contiguous band
    /// signatures.
    pub fn hash_text_rows(
        rows: &Vec<Option<String>>,
        ngram_width: usize,
        band_count: usize,
        band_size: usize,
        seed: u64,
    ) -> (r: PerRowSignatures)
        requires
            band_count * rows@.len() <= usize::MAX,
        ensures
            r.represents(
                spec_text_batch(
                    text_row_views(rows@),
                    ngram_width as nat,
                    band_count as nat,
                    band_size as nat,
                    seed,
                ),
                band_count as nat,
            ),
    {
        let ghost goal = spec_text_batch(
            text_row_views(rows@),
            ngram_width as nat,
            band_count as nat,
            band_size as nat,
            seed,
        );
        let n = rows.len();
        let mut per_row: Vec<Option<Vec<u64>>> = Vec::new();
        let mut i: usize = 0;
        while i < n
            invariant
                i <= n,
                n == rows@.len(),
                goal == spec_text_batch(
                    text_row_views(rows@),
                    ngram_width as nat,
                    band_count as nat,
                    band_size as nat,
                    seed,
                ),
                per_row@.len() == i,
                forall|j: int|
                    0 <= j < i ==> (match #[trigger] per_row@[j] {
                        None => goal[j] is None,
                        Some(v) => goal[j] == Some(v@),
                    }),
            decreases n - i,
        {
            match &rows[i] {
                None => {
                    per_row.push(None);
                },
                Some(text) => {
                    let sset = ShingleSet::from_text(text.as_str(), ngram_width, None);
                    let sigs = row_band_signatures(&sset, band_count, band_size, seed);
                    per_row.push(Some(sigs));
                },
            }
            i += 1;
        }
        proof {
            assert forall|j: int| 0 <= j < n implies (#[trigger] per_row@[j] matches Some(v)
                ==> v@.len() == band_count) by {
                if per_row@[j] is Some {
                    assert(goal[j] == Some(per_row@[j]->0@));
                }
            }
            assert(row_views(per_row@) =~= goal);
        }
        assemble_signatures(&per_row, band_count)
    }

    /// Hashes a batch of token-list rows under one fixed configuration.
    pub fn hash_shingle_rows(
        rows: &Vec<Option<Vec<String>>>,
        band_count: usize,
        band_size: usize,
        seed: u64,
    ) -> (r: PerRowSignatures)
        requires
            band_count * rows@.len() <= usize::MAX,
        ensures
            r.represents(
                spec_token_batch(token_row_views(rows@), band_count as nat, band_size as nat, seed),
                band_count as nat,
            ),
    {
        let ghost goal = spec_token_batch(
            token_row_views(rows@),
            band_count as nat,
            band_size as nat,
            seed,
        );
        let n = rows.len();
        let mut per_row: Vec<Option<Vec<u64>>> = Vec::new();
        let mut i: usize = 0;
        while i < n
            invariant
                i <= n,
                n == rows@.len(),
                goal == spec_token_batch(
                    token_row_views(rows@),
                    band_count as nat,
                    band_size as nat,
                    seed,
                ),
                per_row@.len() == i,
                forall|j: int|
                    0 <= j < i ==> (match #[trigger] per_row@[j] {
                        None => goal[j] is None,
                        Some(v) => goal[j] == Some(v@),
                    }),
            decreases n - i,
        {
            match &rows[i] {
                None => {
                    per_row.push(None);
                },
                Some(tokens) => {
                    let sset = ShingleSet::from_shingles(tokens, None);
                    let sigs = row_band_signatures(&sset, band_count, band_size, seed);
                    per_row.push(Some(sigs));
                },
            }
            i += 1;
        }
        proof {
            assert forall|j: int| 0 <= j < n implies (#[trigger] per_row@[j] matches Some(v)
                ==> v@.len() == band_count) by {
                if per_row@[j] is Some {
                    assert(goal[j] == Some(per_row@[j]->0@));
                }
            }
            assert(row_views(per_row@) =~= goal);
        }
        assemble_signatures(&per_row, band_count)
    }

    /// Hashes a batch of text rows whose configuration arrives as per-row
    /// parameter columns: every scalar parameter must be constant across
    /// the batch, and the first varying one aborts the whole batch.
    pub fn from_text_batch(
        rows: &Vec<Option<String>>,
        ngram_widths: &Vec<u64>,
        band_counts: &Vec<u64>,
        band_sizes: &Vec<u64>,
        seeds: &Vec<u64>,
    ) -> (r: Result<PerRowSignatures, LshError>)
        requires
            rows@.len() >= 1,
            ngram_widths@.len() == rows@.len(),
            band_counts@.len() == rows@.len(),
            band_sizes@.len() == rows@.len(),
            seeds@.len() == rows@.len(),
            ngram_widths@[0] <= usize::MAX,
            band_sizes@[0] <= usize::MAX,
            band_counts@[0] * rows@.len() <= usize::MAX,
        ensures
            r is Ok <==> column_constant(ngram_widths@) && column_constant(band_counts@)
                && column_constant(band_sizes@) && column_constant(seeds@),
            r matches Ok(sigs) ==> sigs.represents(
                spec_text_batch(
                    text_row_views(rows@),
                    ngram_widths@[0] as nat,
                    band_counts@[0] as nat,
                    band_sizes@[0] as nat,
                    seeds@[0],
                ),
                band_counts@[0] as nat,
            ),
            r matches Err(e) ==> (e matches LshError::ConfigurationError(name) && (if !column_constant(
                ngram_widths@,
            ) {
                name@ == "ngram_width"@
            } else if !column_constant(band_counts@) {
                name@ == "band_count"@
            } else if !column_constant(band_sizes@) {
                name@ == "band_size"@
            } else {
                name@ == "seed"@
            })),
    {
        let ngram_width = match validate_constant_param(ngram_widths, "ngram_width") {
            Ok(v) => v,
            Err(e) => {
                return Err(e);
            },
        };
        let band_count = match validate_constant_param(band_counts, "band_count") {
            Ok(v) => v,
            Err(e) => {
                return Err(e);
            },
        };
        let band_size = match validate_constant_param(band_sizes, "band_size") {
            Ok(v) => v,
            Err(e) => {
                return Err(e);
            },
        };
        let seed = match validate_constant_param(seeds, "seed") {
            Ok(v) => v,
            Err(e) => {
                return Err(e);
            },
        };
        proof {
            assert(band_counts@[0] * 1 <= band_counts@[0] * rows@.len()) by (nonlinear_arith)
                requires
                    rows@.len() >= 1,
                    band_counts@[0] >= 0,
            ;
        }
        Ok(
            Self::hash_text_rows(
                rows,
                ngram_width as usize,
                band_count as usize,
                band_size as usize,
                seed,
            ),
        )
    }

    /// Hashes a batch of token-list rows whose configuration arrives as
    /// per-row parameter columns.
    pub fn from_shingles_batch(
        rows: &Vec<Option<Vec<String>>>,
        band_counts: &Vec<u64>,
        band_sizes: &Vec<u64>,
        seeds: &Vec<u64>,
    ) -> (r: Result<PerRowSignatures, LshError>)
        requires
            rows@.len() >= 1,
            band_counts@.len() == rows@.len(),
            band_sizes@.len() == rows@.len(),
            seeds@.len() == rows@.len(),
            band_sizes@[0] <= usize::MAX,
            band_counts@[0] * rows@.len() <= usize::MAX,
        ensures
            r is Ok <==> column_constant(band_counts@) && column_constant(band_sizes@)
                && column_constant(seeds@),
            r matches Ok(sigs) ==> sigs.represents(
                spec_token_batch(
                    token_row_views(rows@),
                    band_counts@[0] as nat,
                    band_sizes@[0] as nat,
                    seeds@[0],
                ),
                band_counts@[0] as nat,
            ),
            r matches Err(e) ==> (e matches LshError::ConfigurationError(name) && (if !column_constant(
                band_counts@,
            ) {
                name@ == "band_count"@
            } else if !column_constant(band_sizes@) {
                name@ == "band_size"@
            } else {
                name@ == "seed"@
            })),
    {
        let band_count = match validate_constant_param(band_counts, "band_count") {
            Ok(v) => v,
            Err(e) => {
                return Err(e);
            },
        };
        let band_size = match validate_constant_param(band_sizes, "band_size") {
            Ok(v) => v,
            Err(e) => {
                return Err(e);
            },
        };
        let seed = match validate_constant_param(seeds, "seed") {
            Ok(v) => v,
            Err(e) => {
                return Err(e);
            },
        };
        proof {
            assert(band_counts@[0] * 1 <= band_counts@[0] * rows@.len()) by (nonlinear_arith)
                requires
                    rows@.len() >= 1,
                    band_counts@[0] >= 0,
            ;
        }
        Ok(Self::hash_shingle_rows(rows, band_count as usize, band_size as usize, seed))
    }
}

impl MinHash32 {
    /// As [`MinHash::hash_text_rows`], narrowed to 32-bit signatures on
    /// store.
    pub fn hash_text_rows(
        rows: &Vec<Option<String>>,
        ngram_width: usize,
        band_count: usize,
        band_size: usize,
        seed: u64,
    ) -> (r: PerRowSignatures32)
        requires
            band_count * rows@.len() <= usize::MAX,
        ensures
            r.represents(
                spec_text_batch(
                    text_row_views(rows@),
                    ngram_width as nat,
                    band_count as nat,
                    band_size as nat,
                    seed,
                ),
                band_count as nat,
            ),
    {
        let wide = MinHash::hash_text_rows(rows, ngram_width, band_count, band_size, seed);
        let r = wide.narrowed();
        proof {
            lemma_narrow_represents(wide, r, spec_text_batch(
                text_row_views(rows@),
                ngram_width as nat,
                band_count as nat,
                band_size as nat,
                seed,
            ), band_count as nat);
        }
        r
    }

    /// As [`MinHash::hash_shingle_rows`], narrowed to 32-bit signatures on
    /// store.
    pub fn hash_shingle_rows(
        rows: &Vec<Option<Vec<String>>>,
        band_count: usize,
        band_size: usize,
        seed: u64,
    ) -> (r: PerRowSignatures32)
        requires
            band_count * rows@.len() <= usize::MAX,
        ensures
            r.represents(
                spec_token_batch(token_row_views(rows@), band_count as nat, band_size as nat, seed),
                band_count as nat,
            ),
    {
        let wide = MinHash::hash_shingle_rows(rows, band_count, band_size, seed);
        let r = wide.narrowed();
        proof {
            lemma_narrow_represents(wide, r, spec_token_batch(
                token_row_views(rows@),
                band_count as nat,
                band_size as nat,
                seed,
            ), band_count as nat);
        }
        r
    }
}

/// The exact intersection and union cardinalities behind one row's Jaccard
/// similarity; the similarity itself is their ratio, zero when the union is
/// empty.
#[derive(Clone, Copy, Debug, PartialEq, Eq, Structural)]
pub struct JaccardCounts {
    pub intersection: usize,
    pub union_size: usize,
}

/// What one row of a Jaccard batch must report: null when either side is
/// null, else the cardinalities of the two texts' fingerprint-set
/// intersection and union.
pub open spec fn spec_jaccard_row(
    a: Option<Seq<char>>,
    b: Option<Seq<char>>,
    ngram_width: nat,
) -> Option<(int, int)> {
    match (a, b) {
        (Some(x), Some(y)) => {
            let fa = text_fingerprints(x, ngram_width, None);
            let fb = text_fingerprints(y, ngram_width, None);
            Some((fa.intersect(fb).len() as int, fa.union(fb).len() as int))
        },
        _ => None,
    }
}

/// Exact Jaccard similarity between pairs of texts, independent of the
/// hashing: reports the set cardinalities from which the ratio follows.
pub struct JaccardSimilarity {}

impl JaccardSimilarity {
    /// Compares a batch of text pairs under one window width: a null on
    /// either side yields a null row.
    pub fn counts_rows(
        left: &Vec<Option<String>>,
        right: &Vec<Option<String>>,
        ngram_width: usize,
    ) -> (r: Vec<Option<JaccardCounts>>)
        requires
            left@.len() == right@.len(),
        ensures
            r@.len() == left@.len(),
            forall|i: int|
                0 <= i < r@.len() ==> (match #[trigger] r@[i] {
                    None => spec_jaccard_row(
                        text_row_views(left@)[i],
                        text_row_views(right@)[i],
                        ngram_width as nat,
                    ) is None,
                    Some(c) => spec_jaccard_row(
                        text_row_views(left@)[i],
                        text_row_views(right@)[i],
                        ngram_width as nat,
                    ) == Some((c.intersection as int, c.union_size as int)),
                }),
    {
        let n = left.len();
        let mut r: Vec<Option<JaccardCounts>> = Vec::new();
        let mut i: usize = 0;
        while i < n
            invariant
                i <= n,
                n == left@.len(),
                n == right@.len(),
                r@.len() == i,
                forall|j: int|
                    0 <= j < i ==> (match #[trigger] r@[j] {
                        None => spec_jaccard_row(
                            text_row_views(left@)[j],
                            text_row_views(right@)[j],
                            ngram_width as nat,
                        ) is None,
                        Some(c) => spec_jaccard_row(
                            text_row_views(left@)[j],
                            text_row_views(right@)[j],
                            ngram_width as nat,
                        ) == Some((c.intersection as int, c.union_size as int)),
                    }),
            decreases n - i,
        {
            match (&left[i], &right[i]) {
                (Some(a), Some(b)) => {
                    let sa = ShingleSet::from_text(a.as_str(), ngram_width, None);
                    let sb = ShingleSet::from_text(b.as_str(), ngram_width, None);
                    let intersection = sa.intersection_count(&sb);
                    let union_size = sa.union_count(&sb);
                    r.push(Some(JaccardCounts { intersection, union_size }));
                },
                _ => {
                    r.push(None);
                },
            }
            i += 1;
        }
        r
    }

    /// Compares a batch of text pairs whose window width arrives as a
    /// per-row parameter column that must be constant across the batch.
    pub fn counts_batch(
        left: &Vec<Option<String>>,
        right: &Vec<Option<String>>,
        ngram_widths: &Vec<u64>,
    ) -> (r: Result<Vec<Option<JaccardCounts>>, LshError>)
        requires
            left@.len() >= 1,
            right@.len() == left@.len(),
            ngram_widths@.len() == left@.len(),
            ngram_widths@[0] <= usize::MAX,
        ensures
            r is Ok <==> column_constant(ngram_widths@),
            r matches Ok(counts) ==> counts@.len() == left@.len() && (forall|i: int|
                0 <= i < left@.len() ==> (match #[trigger] counts@[i] {
                    None => spec_jaccard_row(
                        text_row_views(left@)[i],
                        text_row_views(right@)[i],
                        ngram_widths@[0] as nat,
                    ) is None,
                    Some(c) => spec_jaccard_row(
                        text_row_views(left@)[i],
                        text_row_views(right@)[i],
                        ngram_widths@[0] as nat,
                    ) == Some((c.intersection as int, c.union_size as int)),
                })),
            r matches Err(e) ==> (e matches LshError::ConfigurationError(name) && name@
                == "ngram_width"@),
    {
        let ngram_width = match validate_constant_param(ngram_widths, "ngram_width") {
            Ok(v) => v,
            Err(e) => {
                return Err(e);
            },
        };
        Ok(Self::counts_rows(left, right, ngram_width as usize))
    }
}

/// Narrowing a laid-out batch narrows every row's signatures and keeps the
/// layout.
proof fn lemma_narrow_represents(
    wide: PerRowSignatures,
    narrow: PerRowSignatures32,
    out: Seq<Option<Seq<u64>>>,
    band_count: nat,
)
    requires
        wide.represents(out, band_count),
        narrow.entries@ == wide.entries@,
        narrow.hashes@ == crate::sig::narrow_seq(wide.hashes@),
    ensures
        narrow.represents(out, band_count),
{
    assert forall|i: int| 0 <= i < out.len() implies narrow.row_sig(i) == (match out[i] {
        None => None,
        Some(s) => Some(crate::sig::narrow_seq(s)),
    }) by {
        assert(wide.row_sig(i) == out[i]);
        match narrow.entries@[i] {
            None => {},
            Some(e) => {
                assert(narrow.hashes@.subrange(e.offset as int, e.offset + e.length)
                    =~= crate::sig::narrow_seq(
                    wide.hashes@.subrange(e.offset as int, e.offset + e.length),
                ));
            },
        }
    }
}

} // verus!

