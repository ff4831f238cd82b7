use biguint_wire::size_guard::{cautious, prealloc_limbs, BYTES_PER_WORD, MAX_PREALLOC_BYTES};

#[test]
fn ceiling_is_a_mebibyte_of_words() {
    assert_eq!(MAX_PREALLOC_BYTES, 1_048_576);
    assert_eq!(BYTES_PER_WORD, 4);
    assert_eq!(MAX_PREALLOC_BYTES / BYTES_PER_WORD, 262_144);
}

#[test]
fn huge_estimate_is_clamped() {
    assert_eq!(cautious(Some(10_000_000)), 262_144);
    assert_eq!(cautious(Some(usize::MAX)), 262_144);
}

#[test]
fn absent_estimate_reserves_nothing() {
    assert_eq!(cautious(None), 0);
}

#[test]
fn small_estimate_is_kept() {
    assert_eq!(cautious(Some(0)), 0);
    assert_eq!(cautious(Some(1)), 1);
    assert_eq!(cautious(Some(5)), 5);
    assert_eq!(cautious(Some(262_143)), 262_143);
}

#[test]
fn estimate_at_the_ceiling() {
    assert_eq!(cautious(Some(262_144)), 262_144);
    assert_eq!(cautious(Some(262_145)), 262_144);
}

#[test]
fn limbs_of_one_word_take_the_clamped_count() {
    assert_eq!(prealloc_limbs(Some(5), 1), 5);
    assert_eq!(prealloc_limbs(None, 1), 0);
    assert_eq!(prealloc_limbs(Some(10_000_000), 1), 262_144);
}

#[test]
fn limbs_of_two_words_take_half_rounded_up() {
    assert_eq!(prealloc_limbs(Some(5), 2), 3);
    assert_eq!(prealloc_limbs(Some(4), 2), 2);
    assert_eq!(prealloc_limbs(Some(1), 2), 1);
    assert_eq!(prealloc_limbs(Some(0), 2), 0);
    assert_eq!(prealloc_limbs(None, 2), 0);
    assert_eq!(prealloc_limbs(Some(10_000_000), 2), 131_072);
    assert_eq!(prealloc_limbs(Some(262_143), 2), 131_072);
}
