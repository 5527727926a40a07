use simd_exercise::pop_count::{pop_count, pop_count_reference};

#[test]
fn pop_count_test_pop_count_reference() {
    // 37 = 32 + 4 + 1
    assert_eq!(pop_count_reference(37), 3);
}

#[test]
fn pop_count_reference_test_pop_count_reference() {
    // 37 = 32 + 4 + 1
    assert_eq!(simd_exercise::pop_count::pop_count_reference::pop_count_reference(37), 3);
}

#[test]
fn test_pop_count() {
    for i in 0..252 {
        assert_eq!(pop_count(i), pop_count_reference(i));
    }
}

#[test]
fn pop_count_of_extreme_words() {
    assert_eq!(pop_count(0), 0);
    assert_eq!(pop_count(u32::MAX), 32);
    assert_eq!(pop_count(0x8000_0000), 1);
    assert_eq!(pop_count(0x5555_5555), 16);
    assert_eq!(pop_count(0xdead_beef), 24);
    assert_eq!(pop_count_reference(0), 0);
    assert_eq!(pop_count_reference(u32::MAX), 32);
    assert_eq!(pop_count_reference(0xdead_beef), 24);
}

#[test]
fn pop_count_of_each_single_bit() {
    for i in 0..32 {
        assert_eq!(pop_count(1 << i), 1);
        assert_eq!(pop_count_reference(1 << i), 1);
        assert_eq!(pop_count(!(1u32 << i)), 31);
    }
}

#[test]
fn pop_counts_agree_with_each_other_and_with_the_hardware() {
    let mut x: u32 = 0x2545_f491;
    for _ in 0..10_000 {
        x ^= x << 13;
        x ^= x >> 17;
        x ^= x << 5;
        assert_eq!(pop_count(x), x.count_ones());
        assert_eq!(pop_count_reference(x), x.count_ones());
    }
}
