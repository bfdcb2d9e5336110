use lsh_bands::minhash::{MinHash, MinHash32};
use lsh_bands::sig::{PerRowSignatures, RowEntry};

fn rows(texts: &[Option<&str>]) -> Vec<Option<String>> {
    texts.iter().map(|t| t.map(|s| s.to_string())).collect()
}

fn row_sig(sigs: &PerRowSignatures, i: usize) -> Option<Vec<u64>> {
    sigs.entries[i].map(|e| sigs.hashes[e.offset..e.offset + e.length].to_vec())
}

#[test]
fn determinism_within_and_across_calls() {
    let batch = rows(&[Some("the quick brown fox"), Some("jumps over"), None]);
    let one = MinHash::hash_text_rows(&batch, 3, 4, 2, 42);
    let two = MinHash::hash_text_rows(&batch, 3, 4, 2, 42);
    assert_eq!(one.hashes, two.hashes);
    assert_eq!(one.entries, two.entries);
}

#[test]
fn row_independence() {
    let one = MinHash::hash_text_rows(&rows(&[Some("shared row"), Some("first tail")]), 3, 4, 2, 7);
    let two = MinHash::hash_text_rows(
        &rows(&[Some("shared row"), Some("a very different second row"), None]),
        3,
        4,
        2,
        7,
    );
    assert_eq!(row_sig(&one, 0), row_sig(&two, 0));
}

#[test]
fn identical_rows_collide_in_every_band() {
    let batch = rows(&[Some("identical input"), Some("identical input")]);
    let sigs = MinHash::hash_text_rows(&batch, 3, 8, 3, 99);
    assert_eq!(row_sig(&sigs, 0), row_sig(&sigs, 1));
}

#[test]
fn null_rows_propagate_and_do_not_shift() {
    // band_count = 3 over 2 rows, second row null: lengths [3, 0], row 2 null.
    let batch = rows(&[Some("hello world"), None]);
    let sigs = MinHash::hash_text_rows(&batch, 3, 3, 2, 5);
    assert_eq!(sigs.entries.len(), 2);
    assert_eq!(sigs.entries[0], Some(RowEntry { offset: 0, length: 3 }));
    assert_eq!(sigs.entries[1], None);
    assert_eq!(sigs.hashes.len(), 3);

    // The null row does not shift the rows after it.
    let with_null = MinHash::hash_text_rows(&rows(&[None, Some("tail row")]), 3, 3, 2, 5);
    let without = MinHash::hash_text_rows(&rows(&[Some("head row"), Some("tail row")]), 3, 3, 2, 5);
    assert_eq!(row_sig(&with_null, 1), row_sig(&without, 1));
    assert_eq!(with_null.entries[0], None);
    assert_eq!(with_null.entries[1], Some(RowEntry { offset: 0, length: 3 }));
}

#[test]
fn output_sizing() {
    let batch = rows(&[Some("one"), None, Some("two"), Some("three"), None]);
    let band_count = 4;
    let sigs = MinHash::hash_text_rows(&batch, 2, band_count, 2, 11);
    let non_null = batch.iter().filter(|r| r.is_some()).count();
    assert_eq!(sigs.hashes.len(), band_count * non_null);
    assert!(sigs.hashes.len() <= band_count * batch.len());
    // Entries are contiguous, in row order, and never overlap.
    let mut expected_offset = 0;
    for entry in &sigs.entries {
        if let Some(e) = entry {
            assert_eq!(e.offset, expected_offset);
            assert_eq!(e.length, band_count);
            expected_offset += band_count;
        }
    }
    assert_eq!(expected_offset, sigs.hashes.len());
}

#[test]
fn empty_set_rows_still_get_signatures() {
    // A text shorter than the window hashes the empty shingle set, with a
    // deterministic sentinel rather than a crash.
    let batch = rows(&[Some("hi"), Some("hi")]);
    let sigs = MinHash::hash_text_rows(&batch, 40, 3, 2, 13);
    assert_eq!(sigs.hashes.len(), 6);
    assert_eq!(row_sig(&sigs, 0), row_sig(&sigs, 1));
}

#[test]
fn shingle_list_rows_hash_like_their_windows() {
    // A pre-tokenized row holding exactly the text's windows hashes to the
    // same band signatures as the text itself.
    let text_sigs = MinHash::hash_text_rows(&rows(&[Some("hello")]), 3, 4, 2, 21);
    let token_batch: Vec<Option<Vec<String>>> = vec![Some(
        ["hel", "ell", "llo"].iter().map(|s| s.to_string()).collect(),
    )];
    let token_sigs = MinHash::hash_shingle_rows(&token_batch, 4, 2, 21);
    assert_eq!(text_sigs.hashes, token_sigs.hashes);
    assert_eq!(text_sigs.entries, token_sigs.entries);
}

#[test]
fn narrow_variant_truncates_the_wide_signatures() {
    let batch = rows(&[Some("narrowing test row"), None, Some("another")]);
    let wide = MinHash::hash_text_rows(&batch, 3, 4, 2, 17);
    let narrow = MinHash32::hash_text_rows(&batch, 3, 4, 2, 17);
    assert_eq!(wide.entries, narrow.entries);
    assert_eq!(wide.hashes.len(), narrow.hashes.len());
    for (w, n) in wide.hashes.iter().zip(narrow.hashes.iter()) {
        assert_eq!((*w & 0xFFFF_FFFF) as u32, *n);
    }
}

#[test]
fn different_seeds_give_different_signatures() {
    // The seeded stream drives the randomized hash functions: a stream that
    // ignored its seed would make these collide in every band.
    let batch = rows(&[Some("seed sensitivity")]);
    let one = MinHash::hash_text_rows(&batch, 3, 8, 2, 1);
    let two = MinHash::hash_text_rows(&batch, 3, 8, 2, 2);
    assert_ne!(one.hashes, two.hashes);
}

#[test]
fn band_signatures_differ_between_bands() {
    // Each band draws fresh words from the stream; a stream stuck at one
    // position would repeat the same signature in every band.
    let batch = rows(&[Some("band independence")]);
    let sigs = MinHash::hash_text_rows(&batch, 3, 8, 2, 3);
    let first = sigs.hashes[0];
    assert!(sigs.hashes.iter().any(|h| *h != first));
}

#[test]
fn jaccard_estimator_tracks_true_similarity() {
    // With band_size = 1 the probability that one band collides equals the
    // Jaccard similarity; over many bands the collision fraction must come
    // close to the true value 1/6 for "hello" vs "hollow".
    let batch = rows(&[Some("hello"), Some("hollow")]);
    let band_count = 400;
    let sigs = MinHash::hash_text_rows(&batch, 3, band_count, 1, 2024);
    let a = row_sig(&sigs, 0).unwrap();
    let b = row_sig(&sigs, 1).unwrap();
    let collisions = a.iter().zip(b.iter()).filter(|(x, y)| x == y).count();
    let fraction = collisions as f64 / band_count as f64;
    let truth = 1.0 / 6.0;
    assert!(
        (fraction - truth).abs() < 0.08,
        "collision fraction {} too far from {}",
        fraction,
        truth
    );
}
