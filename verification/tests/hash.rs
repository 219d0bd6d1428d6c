use series_core::chunked::BinaryChunked;
use series_core::dtype::{Error, Op};
use series_core::hash::{combine_hash, state_from_seed};

fn by(s: &str) -> Vec<u8> {
    s.as_bytes().to_vec()
}

fn col(name: &str, items: Vec<Option<Vec<u8>>>) -> BinaryChunked {
    BinaryChunked::from_options(name.to_string(), items)
}

#[test]
fn vec_hash_is_deterministic_for_fixed_seed() {
    let c = col("a", vec![Some(by("ab")), None, Some(by("cd"))]);
    let state = state_from_seed(42);
    let mut h1: Vec<u64> = Vec::new();
    let mut h2: Vec<u64> = Vec::new();
    c.vec_hash(&state, &mut h1).unwrap();
    c.vec_hash(&state, &mut h2).unwrap();
    assert_eq!(h1.len(), 3);
    assert_eq!(h1, h2);
    // a fresh state from the same seed hashes identically
    let again = state_from_seed(42);
    let mut h3: Vec<u64> = Vec::new();
    c.vec_hash(&again, &mut h3).unwrap();
    assert_eq!(h1, h3);
}

#[test]
fn equal_rows_hash_equal() {
    let c = col("a", vec![Some(by("ab")), Some(by("ab")), None, None]);
    let state = state_from_seed(7);
    let mut h: Vec<u64> = Vec::new();
    c.vec_hash(&state, &mut h).unwrap();
    assert_eq!(h[0], h[1]);
    assert_eq!(h[2], h[3]);
}

#[test]
fn null_and_empty_payload_hash_differently() {
    // the row encoding tags validity, so null is not the empty value
    let c = col("a", vec![None, Some(by(""))]);
    let state = state_from_seed(7);
    let mut h: Vec<u64> = Vec::new();
    c.vec_hash(&state, &mut h).unwrap();
    assert_ne!(h[0], h[1]);
}

#[test]
fn vec_hash_combine_is_order_sensitive() {
    let a = col("a", vec![Some(by("x")), Some(by("y"))]);
    let b = col("b", vec![Some(by("u")), Some(by("v"))]);
    let state = state_from_seed(3);
    let mut ab: Vec<u64> = Vec::new();
    a.vec_hash(&state, &mut ab).unwrap();
    b.vec_hash_combine(&state, &mut ab).unwrap();
    let mut ba: Vec<u64> = Vec::new();
    b.vec_hash(&state, &mut ba).unwrap();
    a.vec_hash_combine(&state, &mut ba).unwrap();
    assert_ne!(ab, ba);
}

#[test]
fn vec_hash_combine_rejects_length_mismatch() {
    let a = col("a", vec![Some(by("x")), Some(by("y"))]);
    let state = state_from_seed(3);
    let mut hashes: Vec<u64> = vec![1, 2, 3];
    assert_eq!(
        a.vec_hash_combine(&state, &mut hashes),
        Err(Error::LengthMismatch { op: Op::HashCombine, expected: 2, got: 3 })
    );
    // the vector is untouched on error
    assert_eq!(hashes, vec![1, 2, 3]);
}

#[test]
fn combine_hash_known_value() {
    // boost-style mix: a ^ (b + K + (a << 6) + (a >> 2)), wrapping
    let a: u64 = 0x0123_4567_89ab_cdef;
    let b: u64 = 0xfedc_ba98_7654_3210;
    let k: u64 = 0x9e37_79b9_7f4a_7c15;
    let expected = a
        ^ b.wrapping_add(k)
            .wrapping_add(a << 6)
            .wrapping_add(a >> 2);
    assert_eq!(combine_hash(a, b), expected);
    assert_eq!(combine_hash(0, 0), k);
}

#[test]
fn different_seeds_give_different_hashes() {
    let c = col("a", vec![Some(by("payload"))]);
    let s1 = state_from_seed(1);
    let s2 = state_from_seed(2);
    let mut h1: Vec<u64> = Vec::new();
    let mut h2: Vec<u64> = Vec::new();
    c.vec_hash(&s1, &mut h1).unwrap();
    c.vec_hash(&s2, &mut h2).unwrap();
    assert_ne!(h1, h2);
}
