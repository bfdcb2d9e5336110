//! Canonicalized sets of 32-bit shingle fingerprints, built from free text
//! (by a sliding window of code points) or from an explicit token list, and
//! the exact set arithmetic behind Jaccard similarity.
use vstd::prelude::*;
use vstd::string::StrSliceExecFns;

verus! {

/// The 32-bit fingerprint of one shingle: a fixed function of the ordered
/// sequence of its code points, optionally prefixed by a salt, with no
/// per-process or per-call variation.
pub uninterp spec fn shingle_fingerprint(salt: Option<Seq<char>>, chars: Seq<char>) -> u32;

/// The view of an optional salt string.
pub open spec fn salt_view(salt: Option<&str>) -> Option<Seq<char>> {
    match salt {
        Some(s) => Some(s@),
        None => None,
    }
}

/// Relies on rustc_hash::FxHasher, a fixed polynomial hash with no
/// per-process seeding: feeding it the salt (when present) and then the
/// character slice, and truncating `finish` to 32 bits, yields for a given
/// target the one value that `shingle_fingerprint` names for these inputs,
/// stable across calls and across runs.
#[verifier::external_body]
fn hash_chars(chars: &Vec<char>, salt: Option<&str>) -> (r: u32)
    ensures
        r == shingle_fingerprint(salt_view(salt), chars@),
{
    let mut hasher = rustc_hash::FxHasher::default();
    if let Some(salt_str) = salt {
        std::hash::Hash::hash(salt_str, &mut hasher);
    }
    std::hash::Hash::hash(chars.as_slice(), &mut hasher);
    std::hash::Hasher::finish(&hasher) as u32
}

/// The fingerprints of an explicit token list: each token hashed on its own,
/// duplicates collapsed by the set.
pub open spec fn token_fingerprints(tokens: Seq<Seq<char>>, salt: Option<Seq<char>>) -> Set<
    u32,
> {
    Set::new(
        |h: u32|
            exists|i: int|
                0 <= i < tokens.len() && h == shingle_fingerprint(salt, #[trigger] tokens[i]),
    )
}

/// Every window of `width` consecutive code points of `text`, in order. A
/// zero width, or a text shorter than the window, yields no windows.
pub open spec fn text_windows(text: Seq<char>, width: nat) -> Seq<Seq<char>> {
    if width == 0 || text.len() < width {
        Seq::empty()
    } else {
        Seq::new((text.len() - width + 1) as nat, |i: int| text.subrange(i, i + width))
    }
}

/// The fingerprints of a text: one per window of `width` code points.
pub open spec fn text_fingerprints(text: Seq<char>, width: nat, salt: Option<Seq<char>>) -> Set<
    u32,
> {
    token_fingerprints(text_windows(text, width), salt)
}

/// The views of a vector of owned strings.
pub open spec fn seqs_of(tokens: Seq<String>) -> Seq<Seq<char>> {
    Seq::new(tokens.len(), |i: int| tokens[i]@)
}

/// A token list with no token yields no fingerprint.
pub proof fn lemma_token_fingerprints_empty(tokens: Seq<Seq<char>>, salt: Option<Seq<char>>)
    requires
        tokens.len() == 0,
    ensures
        token_fingerprints(tokens, salt) == Set::<u32>::empty(),
{
    assert(token_fingerprints(tokens, salt) =~= Set::<u32>::empty());
}

/// Taking in one more token adds exactly that token's fingerprint.
pub proof fn lemma_token_fingerprints_take_step(
    tokens: Seq<Seq<char>>,
    salt: Option<Seq<char>>,
    k: int,
)
    requires
        0 <= k < tokens.len(),
    ensures
        token_fingerprints(tokens.take(k + 1), salt) == token_fingerprints(
            tokens.take(k),
            salt,
        ).insert(shingle_fingerprint(salt, tokens[k])),
{
    broadcast use vstd::set::group_set_axioms;

    let lhs = token_fingerprints(tokens.take(k + 1), salt);
    let rhs = token_fingerprints(tokens.take(k), salt).insert(shingle_fingerprint(salt, tokens[k]));
    assert forall|h: u32| lhs.contains(h) implies rhs.contains(h) by {
        let i = choose|i: int|
            0 <= i < tokens.take(k + 1).len() && h == shingle_fingerprint(
                salt,
                #[trigger] tokens.take(k + 1)[i],
            );
        if i < k {
            assert(tokens.take(k)[i] == tokens.take(k + 1)[i]);
        } else {
            assert(tokens.take(k + 1)[i] == tokens[k]);
        }
    }
    assert forall|h: u32| rhs.contains(h) implies lhs.contains(h) by {
        if h == shingle_fingerprint(salt, tokens[k]) {
            assert(tokens.take(k + 1)[k] == tokens[k]);
        } else {
            let i = choose|i: int|
                0 <= i < tokens.take(k).len() && h == shingle_fingerprint(
                    salt,
                    #[trigger] tokens.take(k)[i],
                );
            assert(tokens.take(k + 1)[i] == tokens.take(k)[i]);
        }
    }
    assert(lhs =~= rhs);
}

/// Construction is order-independent: two token lists holding the same
/// tokens, in any order and with any duplication, fingerprint to the same
/// set.
pub proof fn lemma_token_fingerprints_order_independent(
    t1: Seq<Seq<char>>,
    t2: Seq<Seq<char>>,
    salt: Option<Seq<char>>,
)
    requires
        t1.to_set() == t2.to_set(),
    ensures
        token_fingerprints(t1, salt) == token_fingerprints(t2, salt),
{
    assert forall|h: u32| token_fingerprints(t1, salt).contains(h) implies token_fingerprints(
        t2,
        salt,
    ).contains(h) by {
        let i = choose|i: int|
            0 <= i < t1.len() && h == shingle_fingerprint(salt, #[trigger] t1[i]);
        assert(t1.to_set().contains(t1[i]));
        let j = choose|j: int| 0 <= j < t2.len() && t2[j] == t1[i];
    }
    assert forall|h: u32| token_fingerprints(t2, salt).contains(h) implies token_fingerprints(
        t1,
        salt,
    ).contains(h) by {
        let i = choose|i: int|
            0 <= i < t2.len() && h == shingle_fingerprint(salt, #[trigger] t2[i]);
        assert(t2.to_set().contains(t2[i]));
        let j = choose|j: int| 0 <= j < t1.len() && t1[j] == t2[i];
    }
    assert(token_fingerprints(t1, salt) =~= token_fingerprints(t2, salt));
}

/// A deduplicated set of 32-bit shingle fingerprints. Immutable after
/// construction; viewed as the mathematical set of its fingerprints.
#[derive(Debug)]
pub struct ShingleSet {
    fingerprints: Vec<u32>,
}

impl View for ShingleSet {
    type V = Set<u32>;

    closed spec fn view(&self) -> Set<u32> {
        self.fingerprints@.to_set()
    }
}

impl ShingleSet {
    #[verifier::type_invariant]
    spec fn inv(self) -> bool {
        self.fingerprints@.no_duplicates()
    }

    /// Builds the set from an explicit token list; duplicate tokens collapse
    /// to one fingerprint.
    pub fn from_shingles(tokens: &Vec<String>, salt: Option<&str>) -> (r: ShingleSet)
        ensures
            r@ == token_fingerprints(seqs_of(tokens@), salt_view(salt)),
            r@.finite(),
    {
        broadcast use vstd::seq_lib::seq_to_set_is_finite;

        let ghost saltv = salt_view(salt);
        let ghost toks = seqs_of(tokens@);
        let mut fps: Vec<u32> = Vec::new();
        let n = tokens.len();
        let mut i: usize = 0;
        proof {
            lemma_token_fingerprints_empty(toks.take(0), saltv);
            assert(fps@.to_set() =~= Set::<u32>::empty());
        }
        while i < n
            invariant
                i <= n,
                n == tokens@.len(),
                toks == seqs_of(tokens@),
                fps@.no_duplicates(),
                fps@.to_set() == token_fingerprints(toks.take(i as int), saltv),
                saltv == salt_view(salt),
            decreases n - i,
        {
            let chars = chars_of_str(tokens[i].as_str());
            let fp = hash_chars(&chars, salt);
            insert_fingerprint(&mut fps, fp);
            proof {
                assert(toks[i as int] == tokens@[i as int]@);
                lemma_token_fingerprints_take_step(toks, saltv, i as int);
            }
            i += 1;
        }
        proof {
            assert(toks.take(n as int) =~= toks);
        }
        ShingleSet { fingerprints: fps }
    }

    /// Builds the set from free text by sliding a window of `ngram_width`
    /// code points across it; a text shorter than the window, or a zero
    /// width, yields the empty set.
    pub fn from_text(text: &str, ngram_width: usize, salt: Option<&str>) -> (r: ShingleSet)
        ensures
            r@ == text_fingerprints(text@, ngram_width as nat, salt_view(salt)),
            r@.finite(),
    {
        broadcast use vstd::seq_lib::seq_to_set_is_finite;

        let ghost saltv = salt_view(salt);
        let ghost windows = text_windows(text@, ngram_width as nat);
        let mut fps: Vec<u32> = Vec::new();
        let n = text.unicode_len();
        if ngram_width == 0 || n < ngram_width {
            proof {
                lemma_token_fingerprints_empty(windows, saltv);
                assert(fps@.to_set() =~= Set::<u32>::empty());
            }
            return ShingleSet { fingerprints: fps };
        }
        let chars = chars_of_str(text);
        let count = n - ngram_width + 1;
        let mut start: usize = 0;
        proof {
            lemma_token_fingerprints_empty(windows.take(0), saltv);
            assert(fps@.to_set() =~= Set::<u32>::empty());
        }
        while start < count
            invariant
                start <= count,
                count == n - ngram_width + 1,
                0 < ngram_width <= n,
                n == text@.len(),
                chars@ == text@,
                windows == text_windows(text@, ngram_width as nat),
                windows.len() == count,
                fps@.no_duplicates(),
                fps@.to_set() == token_fingerprints(windows.take(start as int), saltv),
                saltv == salt_view(salt),
            decreases count - start,
        {
            let mut window: Vec<char> = Vec::new();
            let mut k: usize = 0;
            while k < ngram_width
                invariant
                    k <= ngram_width,
                    start + ngram_width <= n,
                    n == chars@.len(),
                    window@ == chars@.subrange(start as int, start + k),
                decreases ngram_width - k,
            {
                window.push(chars[start + k]);
                proof {
                    assert(chars@.subrange(start as int, start + k + 1) =~= chars@.subrange(
                        start as int,
                        start + k,
                    ).push(chars@[start + k]));
                }
                k += 1;
            }
            proof {
                assert(window@ == windows[start as int]);
            }
            let fp = hash_chars(&window, salt);
            insert_fingerprint(&mut fps, fp);
            proof {
                lemma_token_fingerprints_take_step(windows, saltv, start as int);
            }
            start += 1;
        }
        proof {
            assert(windows.take(count as int) =~= windows);
        }
        ShingleSet { fingerprints: fps }
    }

    /// The fingerprints as a duplicate-free vector whose elements are
    /// exactly the set's members.
    pub fn fingerprints(&self) -> (r: &Vec<u32>)
        ensures
            r@.to_set() == self@,
            r@.no_duplicates(),
    {
        proof {
            use_type_invariant(self);
        }
        &self.fingerprints
    }

    /// How many distinct fingerprints the set holds.
    pub fn len(&self) -> (r: usize)
        ensures
            r == self@.len(),
    {
        proof {
            use_type_invariant(self);
            self.fingerprints@.unique_seq_to_set();
        }
        self.fingerprints.len()
    }

    /// Whether the set holds no fingerprint at all.
    pub fn is_empty(&self) -> (r: bool)
        ensures
            r == (self@.len() == 0),
    {
        self.len() == 0
    }

    /// The number of fingerprints the two sets share.
    pub fn intersection_count(&self, other: &ShingleSet) -> (r: usize)
        ensures
            r == self@.intersect(other@).len(),
    {
        broadcast use vstd::seq_lib::seq_to_set_is_finite;
        broadcast use vstd::set::group_set_axioms;

        proof {
            use_type_invariant(self);
            use_type_invariant(other);
        }
        let mut count: usize = 0;
        let n = other.fingerprints.len();
        let mut j: usize = 0;
        proof {
            assert(self@.intersect(other.fingerprints@.take(0).to_set()) =~= Set::empty());
        }
        while j < n
            invariant
                j <= n,
                count <= j,
                n == other.fingerprints@.len(),
                other.fingerprints@.no_duplicates(),
                self.inv(),
                count == self@.intersect(other.fingerprints@.take(j as int).to_set()).len(),
            decreases n - j,
        {
            let ghost pre = other.fingerprints@.take(j as int).to_set();
            let fp = other.fingerprints[j];
            proof {
                assert(other.fingerprints@.take(j + 1) =~= other.fingerprints@.take(
                    j as int,
                ).push(fp));
                other.fingerprints@.take(j as int).lemma_push_to_set_commute(fp);
                assert(!pre.contains(fp)) by {
                    if pre.contains(fp) {
                        let idx = choose|idx: int|
                            0 <= idx < j && other.fingerprints@.take(j as int)[idx] == fp;
                        assert(other.fingerprints@[idx] == other.fingerprints@[j as int]);
                    }
                }
            }
            if vec_contains_u32(&self.fingerprints, fp) {
                proof {
                    assert(self@.contains(fp));
                    assert(self@.intersect(pre.insert(fp)) =~= self@.intersect(pre).insert(fp));
                    assert(!self@.intersect(pre).contains(fp));
                }
                count += 1;
            } else {
                proof {
                    assert(!self@.contains(fp));
                    assert(self@.intersect(pre.insert(fp)) =~= self@.intersect(pre));
                }
            }
            j += 1;
        }
        proof {
            assert(other.fingerprints@.take(n as int) =~= other.fingerprints@);
        }
        count
    }

    /// How many distinct fingerprints the two sets hold together.
    pub fn union_count(&self, other: &ShingleSet) -> (r: usize)
        ensures
            r == self@.union(other@).len(),
    {
        broadcast use vstd::seq_lib::seq_to_set_is_finite;
        broadcast use vstd::set::group_set_axioms;

        proof {
            use_type_invariant(self);
            use_type_invariant(other);
        }
        let mut u: Vec<u32> = Vec::new();
        let a = &self.fingerprints;
        let n_a = a.len();
        let mut i: usize = 0;
        proof {
            assert(u@.to_set() =~= a@.take(0).to_set());
        }
        while i < n_a
            invariant
                i <= n_a,
                n_a == a@.len(),
                u@.no_duplicates(),
                u@.to_set() == a@.take(i as int).to_set(),
            decreases n_a - i,
        {
            proof {
                assert(a@.take(i + 1) =~= a@.take(i as int).push(a@[i as int]));
                a@.take(i as int).lemma_push_to_set_commute(a@[i as int]);
            }
            insert_fingerprint(&mut u, a[i]);
            i += 1;
        }
        proof {
            assert(a@.take(n_a as int) =~= a@);
        }
        let b = &other.fingerprints;
        let n_b = b.len();
        let mut j: usize = 0;
        proof {
            assert(self@.union(b@.take(0).to_set()) =~= self@);
        }
        while j < n_b
            invariant
                j <= n_b,
                n_b == b@.len(),
                u@.no_duplicates(),
                u@.to_set() == self@.union(b@.take(j as int).to_set()),
            decreases n_b - j,
        {
            proof {
                assert(b@.take(j + 1) =~= b@.take(j as int).push(b@[j as int]));
                b@.take(j as int).lemma_push_to_set_commute(b@[j as int]);
                assert(self@.union(b@.take(j as int).to_set().insert(b@[j as int])) =~= self@.union(
                    b@.take(j as int).to_set(),
                ).insert(b@[j as int]));
            }
            insert_fingerprint(&mut u, b[j]);
            j += 1;
        }
        proof {
            assert(b@.take(n_b as int) =~= b@);
            u@.unique_seq_to_set();
        }
        u.len()
    }
}

/// Collects the code points of a string, in order.
fn chars_of_str(s: &str) -> (r: Vec<char>)
    ensures
        r@ == s@,
{
    let n = s.unicode_len();
    let mut r: Vec<char> = Vec::new();
    let mut i: usize = 0;
    while i < n
        invariant
            i <= n,
            n == s@.len(),
            r@ == s@.take(i as int),
        decreases n - i,
    {
        r.push(s.get_char(i));
        proof {
            assert(s@.take(i + 1) =~= s@.take(i as int).push(s@[i as int]));
        }
        i += 1;
    }
    proof {
        assert(s@.take(n as int) =~= s@);
    }
    r
}

/// Whether the vector holds the value.
fn vec_contains_u32(v: &Vec<u32>, x: u32) -> (r: bool)
    ensures
        r == v@.contains(x),
{
    let n = v.len();
    let mut i: usize = 0;
    while i < n
        invariant
            i <= n,
            n == v@.len(),
            forall|j: int| 0 <= j < i ==> v@[j] != x,
        decreases n - i,
    {
        if v[i] == x {
            return true;
        }
        i += 1;
    }
    false
}

/// Adds a fingerprint unless it is already present, keeping the vector
/// duplicate-free.
fn insert_fingerprint(fps: &mut Vec<u32>, fp: u32)
    requires
        old(fps)@.no_duplicates(),
    ensures
        final(fps)@.no_duplicates(),
        final(fps)@.to_set() == old(fps)@.to_set().insert(fp),
{
    broadcast use vstd::set::group_set_axioms;

    if !vec_contains_u32(fps, fp) {
        let ghost pre = fps@;
        fps.push(fp);
        proof {
            pre.lemma_push_to_set_commute(fp);
            assert forall|i: int, j: int| 0 <= i < j < fps@.len() implies fps@[i] != fps@[j] by {
                if j == fps@.len() - 1 {
                    assert(!pre.contains(fp));
                }
            }
        }
    } else {
        proof {
            assert(fps@.to_set().insert(fp) =~= fps@.to_set());
        }
    }
}

/// Two identical sets share every fingerprint: intersection and union both
/// have the set's own cardinality, so the Jaccard ratio of a non-empty set
/// with itself is one.
pub proof fn lemma_jaccard_self(a: Set<u32>)
    ensures
        a.intersect(a).len() == a.len(),
        a.union(a).len() == a.len(),
{
    assert(a.intersect(a) =~= a);
    assert(a.union(a) =~= a);
}

/// Jaccard similarity is symmetric: intersection and union cardinalities do
/// not depend on the order of the two sets.
pub proof fn lemma_jaccard_symmetric(a: Set<u32>, b: Set<u32>)
    ensures
        a.intersect(b).len() == b.intersect(a).len(),
        a.union(b).len() == b.union(a).len(),
{
    assert(a.intersect(b) =~= b.intersect(a));
    assert(a.union(b) =~= b.union(a));
}

/// When either set is empty the intersection is empty, so the Jaccard ratio
/// is zero.
pub proof fn lemma_jaccard_empty(a: Set<u32>, b: Set<u32>)
    requires
        a.finite() && a.len() == 0 || b.finite() && b.len() == 0,
    ensures
        a.intersect(b).len() == 0,
{
    broadcast use vstd::set::group_set_axioms;

    if a.finite() && a.len() == 0 {
        assert(a.intersect(b) =~= Set::empty());
    } else {
        assert(a.intersect(b) =~= Set::empty());
    }
}

} // verus!
