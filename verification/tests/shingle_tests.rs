use lsh_bands::shingle::ShingleSet;

fn strings(items: &[&str]) -> Vec<String> {
    items.iter().map(|s| s.to_string()).collect()
}

fn jaccard(a: &ShingleSet, b: &ShingleSet) -> f64 {
    if a.is_empty() || b.is_empty() {
        return 0.0;
    }
    let inter = a.intersection_count(b);
    let union = a.union_count(b);
    inter as f64 / union as f64
}

#[test]
fn text_windows_match_explicit_shingles() {
    // "hello" with a window of 3 code points shingles to {"hel","ell","llo"}.
    let from_text = ShingleSet::from_text("hello", 3, None);
    let from_tokens = ShingleSet::from_shingles(&strings(&["hel", "ell", "llo"]), None);
    assert_eq!(from_text.len(), 3);
    assert_eq!(from_tokens.len(), 3);
    assert_eq!(from_text.intersection_count(&from_tokens), 3);
    assert_eq!(from_text.union_count(&from_tokens), 3);
    let mut a = from_text.fingerprints().clone();
    let mut b = from_tokens.fingerprints().clone();
    a.sort();
    b.sort();
    assert_eq!(a, b);
}

#[test]
fn jaccard_oracle_hello_hollow() {
    // shingles("hello",3) = {hel,ell,llo}; shingles("hollow",3) = {hol,oll,llo,low}
    // intersection {llo} -> 1, union -> 6, similarity 1/6.
    let a = ShingleSet::from_text("hello", 3, None);
    let b = ShingleSet::from_text("hollow", 3, None);
    assert_eq!(a.len(), 3);
    assert_eq!(b.len(), 4);
    assert_eq!(a.intersection_count(&b), 1);
    assert_eq!(a.union_count(&b), 6);
    assert_eq!(jaccard(&a, &b), 1.0 / 6.0);

    // The oracle computed by direct set arithmetic over explicit tokens.
    let ta = ShingleSet::from_shingles(&strings(&["hel", "ell", "llo"]), None);
    let tb = ShingleSet::from_shingles(&strings(&["hol", "oll", "llo", "low"]), None);
    assert_eq!(a.intersection_count(&b), ta.intersection_count(&tb));
    assert_eq!(a.union_count(&b), ta.union_count(&tb));
}

#[test]
fn jaccard_self_is_one() {
    let a = ShingleSet::from_text("similarity", 4, None);
    assert!(a.len() > 0);
    assert_eq!(jaccard(&a, &a), 1.0);
}

#[test]
fn jaccard_with_empty_is_zero() {
    let empty = ShingleSet::from_text("hi", 3, None);
    let full = ShingleSet::from_text("hello", 3, None);
    assert_eq!(empty.len(), 0);
    assert_eq!(jaccard(&empty, &full), 0.0);
    assert_eq!(jaccard(&full, &empty), 0.0);
    assert_eq!(jaccard(&empty, &empty), 0.0);
}

#[test]
fn jaccard_is_symmetric() {
    let a = ShingleSet::from_text("locality", 3, None);
    let b = ShingleSet::from_text("sensitivity", 3, None);
    assert_eq!(a.intersection_count(&b), b.intersection_count(&a));
    assert_eq!(a.union_count(&b), b.union_count(&a));
    assert_eq!(jaccard(&a, &b), jaccard(&b, &a));
}

#[test]
fn short_text_yields_empty_set() {
    assert_eq!(ShingleSet::from_text("hi", 3, None).len(), 0);
    assert_eq!(ShingleSet::from_text("", 3, None).len(), 0);
}

#[test]
fn zero_width_yields_empty_set() {
    assert_eq!(ShingleSet::from_text("hello", 0, None).len(), 0);
}

#[test]
fn duplicate_tokens_collapse() {
    let with_dup = ShingleSet::from_shingles(&strings(&["a", "b", "a"]), None);
    let without = ShingleSet::from_shingles(&strings(&["b", "a"]), None);
    assert_eq!(with_dup.len(), 2);
    assert_eq!(with_dup.intersection_count(&without), 2);
    assert_eq!(with_dup.union_count(&without), 2);
}

#[test]
fn construction_is_order_independent() {
    let one = ShingleSet::from_shingles(&strings(&["alpha", "beta", "gamma"]), None);
    let two = ShingleSet::from_shingles(&strings(&["gamma", "alpha", "beta"]), None);
    assert_eq!(one.intersection_count(&two), one.len());
    assert_eq!(one.union_count(&two), one.len());
}

#[test]
fn fingerprints_depend_on_input() {
    // A constant or input-echoing fingerprint would make these collide.
    let a = ShingleSet::from_shingles(&strings(&["a"]), None);
    let b = ShingleSet::from_shingles(&strings(&["b"]), None);
    assert_eq!(a.intersection_count(&b), 0);

    // The salt is folded into the fingerprint.
    let unsalted = ShingleSet::from_text("hello", 3, None);
    let salted = ShingleSet::from_text("hello", 3, Some("pepper"));
    assert_eq!(unsalted.len(), 3);
    assert_eq!(salted.len(), 3);
    assert_eq!(unsalted.intersection_count(&salted), 0);
}

#[test]
fn identical_inputs_fingerprint_identically() {
    let one = ShingleSet::from_text("deterministic", 5, None);
    let two = ShingleSet::from_text("deterministic", 5, None);
    assert_eq!(one.fingerprints(), two.fingerprints());
}
