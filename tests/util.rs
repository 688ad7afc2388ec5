use minipath::util::signed;
use minipath::util::simba::{simd_element_iter, simd_windows};
use minipath::util::bit_iter;

#[test]
fn util_bit_iter_basic() {
    let result: Vec<usize> = signed::bit_iter(0b10101000i32).into_vec();
    assert_eq!(result, vec![3, 5, 7]);
}

#[test]
fn util_bit_iter_all_bits() {
    let result: Vec<usize> = signed::bit_iter(i32::MAX).into_vec();
    assert_eq!(result, (0..(i32::BITS as usize - 1)).collect::<Vec<_>>());
}

#[test]
fn util_bit_iter_empty() {
    let result: Vec<usize> = signed::bit_iter(0).into_vec();
    assert!(result.is_empty());
}

#[test]
fn mod_bit_iter_basic() {
    let result: Vec<usize> = bit_iter(0b10101000u64).into_vec();
    assert!(result == vec![3, 5, 7]);
}

#[test]
fn mod_bit_iter_all_bits() {
    let result: Vec<usize> = bit_iter(u64::MAX).into_vec();
    assert!(result == (0..(u64::BITS as usize)).collect::<Vec<_>>());
}

#[test]
fn mod_bit_iter_empty() {
    let result: Vec<usize> = bit_iter(0).into_vec();
    assert!(result.is_empty());
}

#[test]
fn bit_iter_next_steps_in_order() {
    let mut it = bit_iter(0b1001_0010u64);
    assert_eq!(it.len(), 3);
    assert_eq!(it.next(), Some(1));
    assert_eq!(it.next(), Some(4));
    assert_eq!(it.len(), 1);
    assert_eq!(it.next(), Some(7));
    assert_eq!(it.next(), None);
    assert_eq!(it.next(), None);
}

#[test]
fn signed_bit_iter_sign_bit() {
    let result = signed::bit_iter(i32::MIN).into_vec();
    assert_eq!(result, vec![31]);
    let mut it = signed::bit_iter(-1);
    let mut n = 0;
    while let Some(p) = it.next() {
        assert_eq!(p, n);
        n += 1;
    }
    assert_eq!(n, 32);
}

#[test]
fn simd_windows_exact_fill() {
    let input: Vec<f32> = (0..16).map(|x| x as f32).collect();
    let result = simd_windows(&input, 0.0f32);
    assert!(result.len() == 2);
    assert!(result[0].0[0] == 0.0);
    assert!(result[0].0[7] == 7.0);
    assert!(result[1].0[0] == 8.0);
    assert!(result[1].0[7] == 15.0);
}

#[test]
fn simd_windows_partial_fill() {
    let input: Vec<f32> = (0..10).map(|x| x as f32).collect();
    let result = simd_windows(&input, 0.0f32);
    assert!(result.len() == 2);
    assert!(result[0].0[0] == 0.0);
    assert!(result[1].0[1] == 9.0);
    assert!(result[1].1 & (1 << 2) == 0);
    assert!(result[1].1 & (1 << 7) == 0);
}

#[test]
fn simd_windows_empty() {
    let input: Vec<f32> = Vec::new();
    let result = simd_windows(&input, 0.0f32);
    assert!(result.is_empty());
}

#[test]
fn simd_windows_masks_and_fill() {
    let input: Vec<u32> = (1..=9).collect();
    let result = simd_windows(&input, 99u32);
    assert_eq!(result.len(), 2);
    assert_eq!(result[0].1, 0xff);
    assert_eq!(result[1].1, 0x01);
    assert_eq!(result[1].0, [9, 99, 99, 99, 99, 99, 99, 99]);
}

#[test]
fn simd_element_iter_lists_lanes() {
    let lanes = [1u16, 2, 3, 4, 5, 6, 7, 8];
    assert_eq!(simd_element_iter(&lanes), vec![1, 2, 3, 4, 5, 6, 7, 8]);
}
