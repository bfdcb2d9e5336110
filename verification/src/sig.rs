//! Per-row signature output: one contiguous buffer of band signatures plus,
//! per row, either a (offset, length) entry into that buffer or a null
//! marker. Null rows contribute nothing to the buffer and do not shift the
//! signatures of the rows after them.
use vstd::prelude::*;

verus! {

/// Where one non-null row's band signatures sit in the contiguous buffer.
#[derive(Clone, Copy, Debug, PartialEq, Eq, Structural)]
pub struct RowEntry {
    pub offset: usize,
    pub length: usize,
}

/// A batch's signatures in the 64-bit output width.
#[derive(Debug)]
pub struct PerRowSignatures {
    pub hashes: Vec<u64>,
    pub entries: Vec<Option<RowEntry>>,
}

/// A batch's signatures narrowed to the 32-bit output width.
#[derive(Debug)]
pub struct PerRowSignatures32 {
    pub hashes: Vec<u32>,
    pub entries: Vec<Option<RowEntry>>,
}

/// How many rows of the batch are non-null.
pub open spec fn count_non_null<T>(rows: Seq<Option<T>>) -> int
    decreases rows.len(),
{
    if rows.len() == 0 {
        0
    } else {
        count_non_null(rows.drop_last()) + if rows.last() is Some {
            1int
        } else {
            0int
        }
    }
}

/// The non-null count never exceeds the row count.
pub proof fn lemma_count_non_null_bounds<T>(rows: Seq<Option<T>>)
    ensures
        0 <= count_non_null(rows) <= rows.len(),
    decreases rows.len(),
{
    if rows.len() > 0 {
        lemma_count_non_null_bounds(rows.drop_last());
    }
}

/// Output sizing: a laid-out batch holds exactly `band_count` signatures
/// per non-null row, which never exceeds the `band_count * row_count`
/// buffer a caller allocates for the no-null case.
pub proof fn lemma_output_within_allocation(
    sigs: PerRowSignatures,
    out: Seq<Option<Seq<u64>>>,
    band_count: nat,
)
    requires
        sigs.represents(out, band_count),
    ensures
        sigs.hashes@.len() == band_count * count_non_null(out),
        sigs.hashes@.len() <= band_count * out.len(),
{
    lemma_count_non_null_bounds(out);
    assert(band_count * count_non_null(out) <= band_count * out.len()) by (nonlinear_arith)
        requires
            0 <= count_non_null(out) <= out.len(),
            band_count >= 0,
    ;
}

/// Taking in one more row raises the non-null count by one exactly when
/// that row is non-null.
pub proof fn lemma_count_non_null_take_step<T>(rows: Seq<Option<T>>, i: int)
    requires
        0 <= i < rows.len(),
    ensures
        count_non_null(rows.take(i + 1)) == count_non_null(rows.take(i)) + if rows[i] is Some {
            1int
        } else {
            0int
        },
{
    assert(rows.take(i + 1).drop_last() =~= rows.take(i));
    assert(rows.take(i + 1).last() == rows[i]);
}

/// The views of a batch of optional signature vectors.
pub open spec fn row_views(rows: Seq<Option<Vec<u64>>>) -> Seq<Option<Seq<u64>>> {
    Seq::new(
        rows.len(),
        |i: int|
            match rows[i] {
                None => None,
                Some(v) => Some(v@),
            },
    )
}

/// The low 32 bits of a 64-bit signature, as stored by the narrow output
/// variant.
pub open spec fn narrow32(h: u64) -> u32 {
    (h & 0xFFFF_FFFF) as u32
}

/// Each signature of a sequence narrowed to 32 bits.
pub open spec fn narrow_seq(s: Seq<u64>) -> Seq<u32> {
    Seq::new(s.len(), |i: int| narrow32(s[i]))
}

impl PerRowSignatures {
    /// The signatures the output holds for row `i`: the entry's slice of
    /// the buffer, or null.
    pub open spec fn row_sig(self, i: int) -> Option<Seq<u64>> {
        match self.entries@[i] {
            None => None,
            Some(e) => Some(self.hashes@.subrange(e.offset as int, e.offset + e.length)),
        }
    }

    /// The output lays out exactly the batch `out`: one entry per row,
    /// null entries for null rows, `band_count` signatures per non-null
    /// row packed contiguously in row order, and nothing else in the
    /// buffer.
    pub open spec fn represents(self, out: Seq<Option<Seq<u64>>>, band_count: nat) -> bool {
        &&& self.entries@.len() == out.len()
        &&& self.hashes@.len() == band_count * count_non_null(out)
        &&& forall|i: int| 0 <= i < out.len() ==> self.row_sig(i) == out[i]
        &&& forall|i: int|
            0 <= i < out.len() ==> (#[trigger] self.entries@[i] matches Some(e) ==> e.length
                == band_count && e.offset == band_count * count_non_null(out.take(i)) && e.offset
                + e.length <= self.hashes@.len())
    }

    /// Narrows every signature to the 32-bit output width, keeping the
    /// row entries as they are.
    pub fn narrowed(&self) -> (r: PerRowSignatures32)
        ensures
            r.entries@ == self.entries@,
            r.hashes@ == narrow_seq(self.hashes@),
    {
        let n = self.hashes.len();
        let mut hashes: Vec<u32> = Vec::new();
        let mut i: usize = 0;
        while i < n
            invariant
                i <= n,
                n == self.hashes@.len(),
                hashes@.len() == i,
                forall|j: int| 0 <= j < i ==> hashes@[j] == narrow32(self.hashes@[j]),
            decreases n - i,
        {
            let h = self.hashes[i];
            hashes.push((h & 0xFFFF_FFFFu64) as u32);
            i += 1;
        }
        let m = self.entries.len();
        let mut entries: Vec<Option<RowEntry>> = Vec::new();
        let mut j: usize = 0;
        while j < m
            invariant
                j <= m,
                m == self.entries@.len(),
                entries@.len() == j,
                forall|t: int| 0 <= t < j ==> entries@[t] == self.entries@[t],
            decreases m - j,
        {
            entries.push(self.entries[j]);
            j += 1;
        }
        proof {
            assert(hashes@ =~= narrow_seq(self.hashes@));
            assert(entries@ =~= self.entries@);
        }
        PerRowSignatures32 { hashes, entries }
    }
}

impl PerRowSignatures32 {
    /// The narrowed signatures the output holds for row `i`.
    pub open spec fn row_sig(self, i: int) -> Option<Seq<u32>> {
        match self.entries@[i] {
            None => None,
            Some(e) => Some(self.hashes@.subrange(e.offset as int, e.offset + e.length)),
        }
    }

    /// As [`PerRowSignatures::represents`], with every signature narrowed
    /// to 32 bits on store.
    pub open spec fn represents(self, out: Seq<Option<Seq<u64>>>, band_count: nat) -> bool {
        &&& self.entries@.len() == out.len()
        &&& self.hashes@.len() == band_count * count_non_null(out)
        &&& forall|i: int|
            0 <= i < out.len() ==> self.row_sig(i) == match out[i] {
                None => None,
                Some(s) => Some(narrow_seq(s)),
            }
        &&& forall|i: int|
            0 <= i < out.len() ==> (#[trigger] self.entries@[i] matches Some(e) ==> e.length
                == band_count && e.offset == band_count * count_non_null(out.take(i)) && e.offset
                + e.length <= self.hashes@.len())
    }
}

/// Lays out one batch of per-row signature vectors as a contiguous buffer
/// with per-row entries: nulls propagate to null entries, and each
/// non-null row occupies the next `band_count` slots.
pub fn assemble_signatures(per_row: &Vec<Option<Vec<u64>>>, band_count: usize) -> (r:
    PerRowSignatures)
    requires
        forall|i: int|
            0 <= i < per_row@.len() ==> (#[trigger] per_row@[i] matches Some(v) ==> v@.len()
                == band_count),
        band_count * per_row@.len() <= usize::MAX,
    ensures
        r.represents(row_views(per_row@), band_count as nat),
{
    let ghost out = row_views(per_row@);
    let n = per_row.len();
    let mut hashes: Vec<u64> = Vec::new();
    let mut entries: Vec<Option<RowEntry>> = Vec::new();
    let mut i: usize = 0;
    proof {
        assert(count_non_null(out.take(0)) == 0);
    }
    while i < n
        invariant
            i <= n,
            n == per_row@.len(),
            out == row_views(per_row@),
            forall|t: int|
                0 <= t < n ==> (#[trigger] per_row@[t] matches Some(v) ==> v@.len() == band_count),
            band_count * n <= usize::MAX,
            entries@.len() == i,
            hashes@.len() == band_count * count_non_null(out.take(i as int)),
            forall|j: int|
                0 <= j < i ==> (match #[trigger] entries@[j] {
                    None => out[j] is None,
                    Some(e) => {
                        &&& out[j] is Some
                        &&& e.length == band_count
                        &&& e.offset == band_count * count_non_null(out.take(j))
                        &&& e.offset + e.length <= hashes@.len()
                        &&& hashes@.subrange(e.offset as int, e.offset + e.length) == out[j]->0
                    },
                }),
        decreases n - i,
    {
        proof {
            lemma_count_non_null_take_step(out, i as int);
            lemma_count_non_null_bounds(out.take(i as int));
            assert(band_count * (count_non_null(out.take(i as int)) + 1) == band_count
                * count_non_null(out.take(i as int)) + band_count) by (nonlinear_arith);
            assert(band_count * count_non_null(out.take(i as int)) + band_count <= band_count * n)
                by (nonlinear_arith)
                requires
                    count_non_null(out.take(i as int)) + 1 <= n,
                    band_count >= 0,
            ;
        }
        let ghost pre_hashes = hashes@;
        match &per_row[i] {
            None => {
                entries.push(None);
            },
            Some(v) => {
                let off = hashes.len();
                let m = v.len();
                let mut k: usize = 0;
                while k < m
                    invariant
                        k <= m,
                        m == v@.len(),
                        hashes@ == pre_hashes + v@.take(k as int),
                    decreases m - k,
                {
                    hashes.push(v[k]);
                    proof {
                        assert(v@.take(k + 1) =~= v@.take(k as int).push(v@[k as int]));
                        assert(hashes@ =~= pre_hashes + v@.take(k + 1));
                    }
                    k += 1;
                }
                proof {
                    assert(v@.take(m as int) =~= v@);
                }
                entries.push(Some(RowEntry { offset: off, length: m }));
                proof {
                    assert(hashes@.subrange(off as int, off + m) =~= v@);
                }
            },
        }
        proof {
            assert forall|j: int| 0 <= j < i && entries@[j] is Some implies
                hashes@.subrange(
                    entries@[j]->0.offset as int,
                    entries@[j]->0.offset + entries@[j]->0.length,
                ) == out[j]->0 by {
                let e = entries@[j]->0;
                assert(hashes@.subrange(e.offset as int, e.offset + e.length) =~= pre_hashes
                    .subrange(e.offset as int, e.offset + e.length));
            }
        }
        i += 1;
    }
    proof {
        assert(out.take(n as int) =~= out);
    }
    let r = PerRowSignatures { hashes, entries };
    proof {
        assert forall|j: int| 0 <= j < out.len() implies r.row_sig(j) == out[j] by {
            if r.entries@[j] is Some {
                assert(out[j] is Some);
            }
        }
    }
    r
}

} // verus!
