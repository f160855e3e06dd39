use arrow_arith::{
    bit_and, bit_or, bit_xor, bool_and, bool_or, max, max_array, max_binary, max_boolean,
    max_string, min, min_array, min_binary, min_boolean, min_string, sum, sum_array,
    sum_array_checked, sum_checked, AggregateError, BinaryArray, DictionaryArray,
    PrimitiveArray, StringArray,
};
use arrow_arith::simd;
use arrow_array::BooleanArray;

fn naive_sum(slots: &[Option<i32>]) -> Option<i32> {
    let mut acc: Option<i32> = None;
    for v in slots.iter().flatten() {
        acc = Some(acc.unwrap_or(0).wrapping_add(*v));
    }
    acc
}

fn naive_min(slots: &[Option<i32>]) -> Option<i32> {
    slots.iter().flatten().copied().min()
}

fn naive_max(slots: &[Option<i32>]) -> Option<i32> {
    slots.iter().flatten().copied().max()
}

fn naive_xor(slots: &[Option<i32>]) -> Option<i32> {
    let mut acc: Option<i32> = None;
    for v in slots.iter().flatten() {
        acc = Some(acc.unwrap_or(0) ^ *v);
    }
    acc
}

fn check_against_naive(slots: Vec<Option<i32>>) {
    let a = PrimitiveArray::from_options(slots.clone());
    assert_eq!(sum(&a), naive_sum(&slots), "sum of {} slots", slots.len());
    assert_eq!(min(&a), naive_min(&slots), "min of {} slots", slots.len());
    assert_eq!(max(&a), naive_max(&slots), "max of {} slots", slots.len());
    assert_eq!(simd::min(&a), naive_min(&slots), "lane min of {} slots", slots.len());
    assert_eq!(simd::max(&a), naive_max(&slots), "lane max of {} slots", slots.len());
    assert_eq!(bit_xor(&a), naive_xor(&slots), "xor of {} slots", slots.len());
    assert_eq!(sum_checked(&a), Ok(naive_sum(&slots)), "checked sum of {} slots", slots.len());
}

#[test]
fn every_operator_is_absent_on_empty_arrays() {
    let a = PrimitiveArray::<i32>::from_values(vec![]);
    assert_eq!(sum(&a), None);
    assert_eq!(sum_checked(&a), Ok(None));
    assert_eq!(min(&a), None);
    assert_eq!(max(&a), None);
    assert_eq!(bit_and(&a), None);
    assert_eq!(bit_or(&a), None);
    assert_eq!(bit_xor(&a), None);
    assert_eq!(sum_array(&a), None);
    assert_eq!(sum_array_checked(&a), Ok(None));
    assert_eq!(min_array(&a), None);
    assert_eq!(max_array(&a), None);
    let b = BooleanArray::from(Vec::<bool>::new());
    assert_eq!(bool_and(&b), None);
    assert_eq!(bool_or(&b), None);
    let bin = BinaryArray::from_options(vec![]);
    assert_eq!(min_binary(&bin), None);
    assert_eq!(max_binary(&bin), None);
    let s = StringArray::from_options(vec![]);
    assert_eq!(min_string(&s), None);
    assert_eq!(max_string(&s), None);
}

#[test]
fn every_operator_is_absent_on_all_null_arrays() {
    let a = PrimitiveArray::<i64>::from_options(vec![None; 70]);
    assert_eq!(sum(&a), None);
    assert_eq!(sum_checked(&a), Ok(None));
    assert_eq!(min(&a), None);
    assert_eq!(max(&a), None);
    assert_eq!(bit_and(&a), None);
    assert_eq!(bit_or(&a), None);
    assert_eq!(bit_xor(&a), None);
    let values = PrimitiveArray::from_values(vec![10i8, 11, 12, 13, 14, 15, 16, 17]);
    let keys = PrimitiveArray::<u8>::from_options(vec![None, None, None]);
    let dict = DictionaryArray::new(keys, values);
    assert_eq!(sum_array(&dict), None);
    assert_eq!(sum_array_checked(&dict), Ok(None));
    assert_eq!(min_array(&dict), None);
    assert_eq!(max_array(&dict), None);
}

#[test]
fn wrapping_and_checked_sums_on_overflow() {
    let a = PrimitiveArray::from_values(vec![i32::MAX, 1]);
    assert_eq!(sum(&a), Some(-2147483648));
    assert_eq!(sum_checked(&a), Err(AggregateError::ArithmeticOverflow));
    let b = PrimitiveArray::from_values(vec![200u8, 100]);
    assert_eq!(sum(&b), Some(44));
    assert_eq!(sum_checked(&b), Err(AggregateError::ArithmeticOverflow));
}

#[test]
fn checked_sum_fails_on_an_overflowing_prefix_even_if_the_total_fits() {
    let a = PrimitiveArray::from_values(vec![i8::MAX, 1, -1]);
    assert_eq!(sum(&a), Some(127));
    assert_eq!(sum_checked(&a), Err(AggregateError::ArithmeticOverflow));
    let b = PrimitiveArray::from_options(vec![Some(i8::MAX), None, Some(1), Some(-1)]);
    assert_eq!(sum_checked(&b), Err(AggregateError::ArithmeticOverflow));
}

#[test]
fn checked_sum_skips_nulls() {
    let a = PrimitiveArray::from_options(vec![Some(i8::MAX), None, Some(-7), None]);
    assert_eq!(sum_checked(&a), Ok(Some(120)));
}

#[test]
fn bitwise_folds_of_small_values() {
    let a = PrimitiveArray::from_values(vec![1i32, 2, 3, 4, 5]);
    assert_eq!(bit_and(&a), Some(0));
    assert_eq!(bit_or(&a), Some(7));
    assert_eq!(bit_xor(&a), Some(1));
    let u = PrimitiveArray::from_options(vec![Some(0b1110u16), None, Some(0b0111)]);
    assert_eq!(bit_and(&u), Some(0b0110));
}

#[test]
fn boolean_folds() {
    let a = BooleanArray::from(vec![true, false, true, false, true]);
    assert_eq!(bool_and(&a), Some(false));
    assert_eq!(bool_or(&a), Some(true));
    let b = BooleanArray::from(vec![Some(true), None, Some(false)]);
    assert_eq!(min_boolean(&b), Some(false));
    assert_eq!(max_boolean(&b), Some(true));
}

#[test]
fn negative_values_are_not_beaten_by_a_zero_seed() {
    let a = PrimitiveArray::from_options(vec![None, Some(-5i64), Some(-3), None, Some(-9)]);
    assert_eq!(max(&a), Some(-3));
    assert_eq!(min(&a), Some(-9));
    assert_eq!(simd::max(&a), Some(-3));
    assert_eq!(simd::min(&a), Some(-9));
    let positive = PrimitiveArray::from_values((1..=200u32).collect());
    assert_eq!(simd::min(&positive), Some(1));
    assert_eq!(simd::max(&positive), Some(200));
}

#[test]
fn lane_engine_with_a_single_valid_slot_at_a_block_edge() {
    for pos in [0usize, 15, 16, 63, 64, 127, 128] {
        let mut slots: Vec<Option<i16>> = vec![None; 129];
        slots[pos] = Some(-300);
        let a = PrimitiveArray::from_options(slots);
        assert_eq!(simd::min(&a), Some(-300));
        assert_eq!(simd::max(&a), Some(-300));
        assert_eq!(min(&a), Some(-300));
        assert_eq!(sum(&a), Some(-300));
    }
    let none = PrimitiveArray::<i16>::from_options(vec![None; 129]);
    assert_eq!(simd::min(&none), None);
    assert_eq!(simd::max(&none), None);
}

#[test]
fn chunk_boundary_lengths_match_a_linear_scan() {
    for len in [63usize, 64, 65, 127, 128, 129] {
        let dense: Vec<Option<i32>> = (0..len).map(|i| Some((i as i32 * 37) % 101 - 50)).collect();
        check_against_naive(dense.clone());
        // valid slots only at the start of each block
        let start: Vec<Option<i32>> =
            dense.iter().enumerate().map(|(i, v)| if i % 64 < 5 { *v } else { None }).collect();
        check_against_naive(start);
        // valid slots only at the end of each block
        let end: Vec<Option<i32>> =
            dense.iter().enumerate().map(|(i, v)| if i % 64 > 58 { *v } else { None }).collect();
        check_against_naive(end);
        // valid slots only in the middle of each block
        let middle: Vec<Option<i32>> = dense
            .iter()
            .enumerate()
            .map(|(i, v)| if (30..34).contains(&(i % 64)) { *v } else { None })
            .collect();
        check_against_naive(middle);
        // a single valid slot in the remainder
        let mut single: Vec<Option<i32>> = vec![None; len];
        single[len - 1] = Some(-17);
        check_against_naive(single);
    }
}

#[test]
fn sliced_arrays_aggregate_like_fresh_ones() {
    let slots: Vec<Option<i32>> =
        (0..200).map(|i| if i % 7 == 3 { None } else { Some(i * 3 - 250) }).collect();
    let whole = PrimitiveArray::from_options(slots.clone());
    for (offset, len) in [(0usize, 200usize), (3, 64), (64, 65), (65, 129), (130, 70), (5, 0)] {
        let sliced = whole.slice(offset, len);
        let fresh = PrimitiveArray::from_options(slots[offset..offset + len].to_vec());
        assert_eq!(sum(&sliced), sum(&fresh));
        assert_eq!(sum_checked(&sliced), sum_checked(&fresh));
        assert_eq!(min(&sliced), min(&fresh));
        assert_eq!(max(&sliced), max(&fresh));
        assert_eq!(bit_and(&sliced), bit_and(&fresh));
        assert_eq!(bit_or(&sliced), bit_or(&fresh));
        assert_eq!(bit_xor(&sliced), bit_xor(&fresh));
        assert_eq!(sum(&sliced), naive_sum(&slots[offset..offset + len]));
    }
}

#[test]
fn dictionary_sum_resolves_keys() {
    let values = PrimitiveArray::from_values(vec![10i32, 11, 12, 13, 14, 15, 16, 17]);
    let keys = PrimitiveArray::from_options(vec![Some(2u8), None, Some(4)]);
    let dict = DictionaryArray::new(keys, values);
    assert_eq!(sum_array(&dict), Some(26));
    assert_eq!(sum_array_checked(&dict), Ok(Some(26)));
    assert_eq!(min_array(&dict), Some(12));
    assert_eq!(max_array(&dict), Some(14));
}

#[test]
fn dictionary_null_value_is_a_null_slot() {
    let values = PrimitiveArray::from_options(vec![Some(-4i16), None, Some(9)]);
    let keys = PrimitiveArray::from_values(vec![1i64, 1]);
    let dict = DictionaryArray::new(keys, values.clone());
    assert_eq!(sum_array(&dict), None);
    assert_eq!(min_array(&dict), None);
    let keys = PrimitiveArray::from_values(vec![1i64, 0, 2, 0]);
    let dict = DictionaryArray::new(keys, values);
    assert_eq!(sum_array(&dict), Some(1));
    assert_eq!(min_array(&dict), Some(-4));
    assert_eq!(max_array(&dict), Some(9));
}

#[test]
fn dictionary_checked_sum_overflows() {
    let values = PrimitiveArray::from_values(vec![100i8, 50]);
    let keys = PrimitiveArray::from_values(vec![0u32, 1]);
    let dict = DictionaryArray::new(keys, values);
    assert_eq!(sum_array(&dict), Some(-106));
    assert_eq!(sum_array_checked(&dict), Err(AggregateError::ArithmeticOverflow));
}

#[test]
fn byte_strings_compare_lexicographically() {
    let a = BinaryArray::from_options(vec![Some(b"abc".to_vec()), Some(b"ab".to_vec()), Some(b"b".to_vec())]);
    assert_eq!(min_binary(&a), Some("ab".as_bytes()));
    assert_eq!(max_binary(&a), Some("b".as_bytes()));
    let s = StringArray::from_options(vec![Some("z"), Some("\u{e9}t\u{e9}"), None, Some("")]);
    assert_eq!(min_string(&s), Some(""));
    assert_eq!(max_string(&s), Some("\u{e9}t\u{e9}"));
}

#[test]
fn sliced_bitmap_with_unaligned_offset() {
    let slots: Vec<Option<u64>> =
        (0..300u64).map(|i| if i % 5 == 0 { None } else { Some(i) }).collect();
    let whole = PrimitiveArray::from_options(slots.clone());
    let sliced = whole.slice(13, 150);
    let expected: u64 = slots[13..163].iter().flatten().sum();
    assert_eq!(sum(&sliced), Some(expected));
    assert_eq!(sum_checked(&sliced), Ok(Some(expected)));
    assert_eq!(min(&sliced), Some(13));
    assert_eq!(max(&sliced), Some(162));
}

#[test]
fn dictionary_keys_are_checked_against_the_values() {
    let values = PrimitiveArray::from_values(vec![1i32, 2, 3]);
    let ok = DictionaryArray::try_new(PrimitiveArray::from_options(vec![Some(2u8), None]), values.clone());
    assert!(ok.is_some());
    let too_far = DictionaryArray::try_new(PrimitiveArray::from_values(vec![0i8, 3]), values.clone());
    assert!(too_far.is_none());
    let negative = DictionaryArray::try_new(PrimitiveArray::from_values(vec![-1i64]), values.clone());
    assert!(negative.is_none());
    let null_key = DictionaryArray::try_new(PrimitiveArray::from_options(vec![None, Some(9i16)]), values);
    assert!(null_key.is_none());
}
