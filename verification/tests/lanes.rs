use relu_kernels::lanes::{multiply_lanes, pack_activation_lane, sum_lane, LANE_WIDTH};

#[test]
fn the_lane_width_is_eight() {
    assert_eq!(LANE_WIDTH, 8);
}

#[test]
fn a_full_lane_is_copied() {
    let v: Vec<i32> = (1..=16).collect();
    assert_eq!(pack_activation_lane(&v, 0), [1, 2, 3, 4, 5, 6, 7, 8]);
    assert_eq!(pack_activation_lane(&v, 1), [9, 10, 11, 12, 13, 14, 15, 16]);
}

#[test]
fn the_last_lane_is_padded_with_zeros() {
    let v: Vec<i32> = (1..=10).collect();
    assert_eq!(pack_activation_lane(&v, 1), [9, 10, 0, 0, 0, 0, 0, 0]);
}

#[test]
fn a_lane_past_the_end_is_all_zeros() {
    let v: Vec<i32> = (1..=10).collect();
    assert_eq!(pack_activation_lane(&v, 2), [0; 8]);
    assert_eq!(pack_activation_lane(&v, usize::MAX), [0; 8]);
    assert_eq!(pack_activation_lane(&Vec::new(), 0), [0; 8]);
}

#[test]
fn lanes_multiply_element_by_element() {
    let x = [1, 2, 3, 4, 5, 6, 7, 8];
    let y = [-1, 2, -3, 4, -5, 6, -7, 0];
    assert_eq!(multiply_lanes(&x, &y), [-1, 4, -9, 16, -25, 36, -49, 0]);
    let wide = multiply_lanes(&[i32::MIN; 8], &[i32::MIN; 8]);
    assert_eq!(wide, [1i64 << 62; 8]);
}

#[test]
fn a_lane_sums_across() {
    assert_eq!(sum_lane(&[1, 2, 3, 4, 5, 6, 7, 8]), 36);
    assert_eq!(sum_lane(&[i64::MAX; 8]), 8 * (i64::MAX as i128));
    assert_eq!(sum_lane(&[i64::MIN; 8]), 8 * (i64::MIN as i128));
}

#[test]
fn padding_adds_nothing_to_a_lane_sum() {
    let a: Vec<i32> = vec![2, 3];
    let b: Vec<i32> = vec![5, 7];
    let products = multiply_lanes(&pack_activation_lane(&a, 0), &pack_activation_lane(&b, 0));
    assert_eq!(sum_lane(&products), 31);
}
