use simd_exercise::decode_base64::lanes::{
    all_lanes, at_most_mask, bit_and, bit_or, equal_mask, high_bytes, low_bytes,
    rotate_lanes_left, shift_right, splat, swizzle_dyn, widen_shift_left, wrapping_sum,
};

#[test]
fn splat_fills_every_lane() {
    let lanes: [u8; 8] = splat(47);
    assert_eq!(lanes, [47; 8]);
}

#[test]
fn shift_right_shifts_each_lane() {
    assert_eq!(shift_right([0x2f, 0x41, 0x7a, 0xff], 4), [2, 4, 7, 15]);
}

#[test]
fn equal_mask_marks_equal_lanes() {
    assert_eq!(equal_mask([1, 2, 3, 4], [1, 0, 3, 0]), [0xff, 0, 0xff, 0]);
}

#[test]
fn at_most_mask_marks_lanes_not_above() {
    assert_eq!(at_most_mask([1, 2, 3, 255], [1, 1, 4, 0]), [0xff, 0, 0xff, 0]);
}

#[test]
fn wrapping_sum_wraps_round_at_256() {
    assert_eq!(wrapping_sum([2, 65, 97, 255], [255, 191, 185, 255]), [1, 0, 26, 254]);
}

#[test]
fn bitwise_operations_work_lane_by_lane() {
    assert_eq!(bit_and([0xff, 0xff, 0, 0x0f], [0xff, 0, 0xff, 0x3c]), [0xff, 0, 0, 0x0c]);
    assert_eq!(bit_or([0xf0, 0, 0x01, 0x0f], [0x0f, 0, 0x80, 0x3c]), [0xff, 0, 0x81, 0x3f]);
}

#[test]
fn all_lanes_needs_every_lane_set() {
    assert!(all_lanes([0xff, 0xff, 0xff, 0xff]));
    assert!(!all_lanes([0xff, 0xff, 0, 0xff]));
    assert!(!all_lanes([0xff, 0x7f, 0xff, 0xff]));
    assert!(all_lanes::<0>([]));
}

#[test]
fn swizzle_dyn_gathers_and_zeroes_lanes_out_of_range() {
    assert_eq!(swizzle_dyn([10, 20, 30, 40], [3, 0, 4, 255]), [40, 10, 0, 0]);
    assert_eq!(swizzle_dyn([10, 20, 30, 40], [1, 1, 2, 2]), [20, 20, 30, 30]);
}

#[test]
fn rotate_moves_each_lane_one_place_down() {
    assert_eq!(rotate_lanes_left([1, 2, 3, 4]), [2, 3, 4, 1]);
    assert_eq!(rotate_lanes_left([9]), [9]);
}

#[test]
fn widen_shift_left_keeps_the_bits_shifted_out_of_a_byte() {
    assert_eq!(
        widen_shift_left([26, 26, 26, 26], [2, 4, 6, 8]),
        [0x0068, 0x01a0, 0x0680, 0x1a00]
    );
    assert_eq!(widen_shift_left([0xff], [15]), [0x8000]);
}

#[test]
fn low_and_high_bytes_split_wide_lanes() {
    assert_eq!(low_bytes([0x0068, 0x01a0, 0x0680, 0x1a00]), [0x68, 0xa0, 0x80, 0x00]);
    assert_eq!(high_bytes([0x0068, 0x01a0, 0x0680, 0x1a00]), [0x00, 0x01, 0x06, 0x1a]);
}
