use lsh_bands::euclidean::{EuclideanHash, EuclideanHash32};
use lsh_bands::minhash::{JaccardSimilarity, MinHash};
use lsh_bands::sig::assemble_signatures;
use lsh_bands::{validate_constant_param, LshError};

fn rows(texts: &[Option<&str>]) -> Vec<Option<String>> {
    texts.iter().map(|t| t.map(|s| s.to_string())).collect()
}

#[test]
fn constant_param_accepted() {
    assert_eq!(validate_constant_param(&vec![7, 7, 7], "band_count"), Ok(7));
    assert_eq!(validate_constant_param(&vec![42], "seed"), Ok(42));
}

#[test]
fn varying_param_rejected_by_name() {
    match validate_constant_param(&vec![3, 4], "band_count") {
        Err(LshError::ConfigurationError(name)) => assert_eq!(name, "band_count"),
        other => panic!("expected a configuration error, got {:?}", other),
    }
}

#[test]
fn varying_band_count_fails_whole_batch() {
    // band_count differs between row 0 and row 1: the batch must fail, not
    // silently use row 0's value.
    let batch = rows(&[Some("one"), Some("two")]);
    let result = MinHash::from_text_batch(
        &batch,
        &vec![3, 3],
        &vec![4, 5],
        &vec![2, 2],
        &vec![9, 9],
    );
    match result {
        Err(LshError::ConfigurationError(name)) => assert_eq!(name, "band_count"),
        other => panic!("expected a configuration error, got {:?}", other),
    }
}

#[test]
fn constant_params_hash_like_the_scalar_entry() {
    let batch = rows(&[Some("alpha"), None, Some("beta")]);
    let validated = MinHash::from_text_batch(
        &batch,
        &vec![3, 3, 3],
        &vec![4, 4, 4],
        &vec![2, 2, 2],
        &vec![31, 31, 31],
    )
    .unwrap();
    let direct = MinHash::hash_text_rows(&batch, 3, 4, 2, 31);
    assert_eq!(validated.hashes, direct.hashes);
    assert_eq!(validated.entries, direct.entries);
}

#[test]
fn jaccard_batch_validates_and_propagates_nulls() {
    let left = rows(&[Some("hello"), None, Some("same")]);
    let right = rows(&[Some("hollow"), Some("present"), None]);
    let counts = JaccardSimilarity::counts_batch(&left, &right, &vec![3, 3, 3]).unwrap();
    assert_eq!(counts.len(), 3);
    let first = counts[0].unwrap();
    assert_eq!(first.intersection, 1);
    assert_eq!(first.union_size, 6);
    assert!(counts[1].is_none());
    assert!(counts[2].is_none());

    match JaccardSimilarity::counts_batch(&left, &right, &vec![3, 2, 3]) {
        Err(LshError::ConfigurationError(name)) => assert_eq!(name, "ngram_width"),
        other => panic!("expected a configuration error, got {:?}", other),
    }
}

#[test]
fn varying_seed_fails_shingle_batch() {
    let tokens: Vec<Option<Vec<String>>> = vec![
        Some(vec!["a".to_string(), "b".to_string()]),
        Some(vec!["c".to_string()]),
    ];
    match MinHash::from_shingles_batch(&tokens, &vec![2, 2], &vec![2, 2], &vec![1, 2]) {
        Err(LshError::ConfigurationError(name)) => assert_eq!(name, "seed"),
        other => panic!("expected a configuration error, got {:?}", other),
    }
    match MinHash::from_shingles_batch(&tokens, &vec![2, 2], &vec![2, 3], &vec![1, 1]) {
        Err(LshError::ConfigurationError(name)) => assert_eq!(name, "band_size"),
        other => panic!("expected a configuration error, got {:?}", other),
    }
}

#[test]
fn constant_shingle_batch_matches_scalar_entry() {
    let tokens: Vec<Option<Vec<String>>> = vec![
        Some(vec!["a".to_string(), "b".to_string()]),
        None,
        Some(vec!["c".to_string()]),
    ];
    let validated =
        MinHash::from_shingles_batch(&tokens, &vec![3, 3, 3], &vec![2, 2, 2], &vec![8, 8, 8])
            .unwrap();
    let direct = MinHash::hash_shingle_rows(&tokens, 3, 2, 8);
    assert_eq!(validated.hashes, direct.hashes);
    assert_eq!(validated.entries, direct.entries);
}

#[test]
fn shapes_must_share_one_length() {
    assert_eq!(
        EuclideanHash::validate_shapes(&vec![Some(4), None, Some(4)]),
        Ok(4)
    );
    assert_eq!(EuclideanHash::validate_shapes(&vec![None, None]), Ok(0));
    assert_eq!(EuclideanHash::validate_shapes(&vec![]), Ok(0));
    assert_eq!(
        EuclideanHash::validate_shapes(&vec![Some(4), None, Some(3)]),
        Err(LshError::ShapeMismatchError)
    );
}

#[test]
fn equal_bucket_indices_collide() {
    // Two identical vectors quantize to identical bucket indices in every
    // band; the verified combiner then guarantees the collision.
    let band_a = vec![5u64, 18446744073709551615u64, 0u64, 7u64];
    let band_b = band_a.clone();
    assert_eq!(
        EuclideanHash::combine_buckets(&band_a),
        EuclideanHash::combine_buckets(&band_b)
    );
    let different = vec![5u64, 2u64, 0u64, 7u64];
    assert_ne!(
        EuclideanHash::combine_buckets(&band_a),
        EuclideanHash::combine_buckets(&different)
    );
}

#[test]
fn narrow_bucket_combiner_truncates() {
    let band = vec![1u64, 2u64, 3u64];
    let wide = EuclideanHash::combine_buckets(&band);
    let narrow = EuclideanHash32::combine_buckets(&band);
    assert_eq!((wide & 0xFFFF_FFFF) as u32, narrow);
}

#[test]
fn assembled_layout_matches_entries() {
    let per_row: Vec<Option<Vec<u64>>> = vec![
        Some(vec![10, 11]),
        None,
        Some(vec![20, 21]),
    ];
    let sigs = assemble_signatures(&per_row, 2);
    assert_eq!(sigs.hashes, vec![10, 11, 20, 21]);
    assert_eq!(sigs.entries.len(), 3);
    let e0 = sigs.entries[0].unwrap();
    assert_eq!((e0.offset, e0.length), (0, 2));
    assert!(sigs.entries[1].is_none());
    let e2 = sigs.entries[2].unwrap();
    assert_eq!((e2.offset, e2.length), (2, 2));
}
