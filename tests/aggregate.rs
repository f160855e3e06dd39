use arrow_arith::{
    bit_and, bit_or, bit_xor, bool_and, bool_or, max, max_array, max_binary, max_boolean,
    max_string, min, min_array, min_binary, min_boolean, min_string, sum, sum_array,
    sum_array_checked, sum_checked, BinaryArray, DictionaryArray, PrimitiveArray, StringArray,
};
use arrow_array::BooleanArray;
use arrow_buffer::NullBuffer;

#[test]
fn test_primitive_array_sum() {
    let a = PrimitiveArray::from_values(vec![1i32, 2, 3, 4, 5]);
    assert_eq!(15, sum(&a).unwrap());
}

#[test]
fn test_primitive_array_sum_with_nulls() {
    let a = PrimitiveArray::from_options(vec![None, Some(2i32), Some(3), None, Some(5)]);
    assert_eq!(10, sum(&a).unwrap());
}

#[test]
fn test_primitive_array_sum_all_nulls() {
    let a = PrimitiveArray::<i32>::from_options(vec![None, None, None]);
    assert_eq!(None, sum(&a));
}

#[test]
fn test_primitive_array_sum_large_64() {
    // create an array that actually has non-zero values at the invalid indices
    let validity = NullBuffer::new((1..=100).map(|x| x % 3 == 0).collect());
    let c = PrimitiveArray::new((1..=100i64).collect(), Some(validity));
    assert_eq!(Some((1..=100).filter(|i| i % 3 == 0).sum()), sum(&c));
}

#[test]
fn test_primitive_array_sum_large_32() {
    let validity = NullBuffer::new((1..=100).map(|x| x % 3 == 0).collect());
    let c = PrimitiveArray::new((1..=100i32).collect(), Some(validity));
    assert_eq!(Some((1..=100).filter(|i| i % 3 == 0).sum()), sum(&c));
}

#[test]
fn test_primitive_array_sum_large_16() {
    let validity = NullBuffer::new((1..=100).map(|x| x % 3 == 0).collect());
    let c = PrimitiveArray::new((1..=100i16).collect(), Some(validity));
    assert_eq!(Some((1..=100).filter(|i| i % 3 == 0).sum()), sum(&c));
}

#[test]
fn test_primitive_array_sum_large_8() {
    // include fewer values than other large tests so the result does not overflow the u8
    let validity = NullBuffer::new((1..=100).map(|x| x % 33 == 0).collect());
    let c = PrimitiveArray::new((1..=100u8).collect(), Some(validity));
    assert_eq!(Some((1..=100).filter(|i| i % 33 == 0).sum()), sum(&c));
}

#[test]
fn test_primitive_array_bit_and() {
    let a = PrimitiveArray::from_values(vec![1i32, 2, 3, 4, 5]);
    assert_eq!(0, bit_and(&a).unwrap());
}

#[test]
fn test_primitive_array_bit_and_with_nulls() {
    let a = PrimitiveArray::from_options(vec![None, Some(2i32), Some(3), None, None]);
    assert_eq!(2, bit_and(&a).unwrap());
}

#[test]
fn test_primitive_array_bit_and_all_nulls() {
    let a = PrimitiveArray::<i32>::from_options(vec![None, None, None]);
    assert_eq!(None, bit_and(&a));
}

#[test]
fn test_primitive_array_bit_or() {
    let a = PrimitiveArray::from_values(vec![1i32, 2, 3, 4, 5]);
    assert_eq!(7, bit_or(&a).unwrap());
}

#[test]
fn test_primitive_array_bit_or_with_nulls() {
    let a = PrimitiveArray::from_options(vec![None, Some(2i32), Some(3), None, Some(5)]);
    assert_eq!(7, bit_or(&a).unwrap());
}

#[test]
fn test_primitive_array_bit_or_all_nulls() {
    let a = PrimitiveArray::<i32>::from_options(vec![None, None, None]);
    assert_eq!(None, bit_or(&a));
}

#[test]
fn test_primitive_array_bit_xor() {
    let a = PrimitiveArray::from_values(vec![1i32, 2, 3, 4, 5]);
    assert_eq!(1, bit_xor(&a).unwrap());
}

#[test]
fn test_primitive_array_bit_xor_with_nulls() {
    let a = PrimitiveArray::from_options(vec![None, Some(2i32), Some(3), None, Some(5)]);
    assert_eq!(4, bit_xor(&a).unwrap());
}

#[test]
fn test_primitive_array_bit_xor_all_nulls() {
    let a = PrimitiveArray::<i32>::from_options(vec![None, None, None]);
    assert_eq!(None, bit_xor(&a));
}

#[test]
fn test_primitive_array_bool_and() {
    let a = BooleanArray::from(vec![true, false, true, false, true]);
    assert!(!bool_and(&a).unwrap());
}

#[test]
fn test_primitive_array_bool_and_with_nulls() {
    let a = BooleanArray::from(vec![None, Some(true), Some(true), None, Some(true)]);
    assert!(bool_and(&a).unwrap());
}

#[test]
fn test_primitive_array_bool_and_all_nulls() {
    let a = BooleanArray::from(vec![None, None, None]);
    assert_eq!(None, bool_and(&a));
}

#[test]
fn test_primitive_array_bool_or() {
    let a = BooleanArray::from(vec![true, false, true, false, true]);
    assert!(bool_or(&a).unwrap());
}

#[test]
fn test_primitive_array_bool_or_with_nulls() {
    let a = BooleanArray::from(vec![None, Some(false), Some(false), None, Some(false)]);
    assert!(!bool_or(&a).unwrap());
}

#[test]
fn test_primitive_array_bool_or_all_nulls() {
    let a = BooleanArray::from(vec![None, None, None]);
    assert_eq!(None, bool_or(&a));
}

#[test]
fn test_primitive_array_min_max() {
    let a = PrimitiveArray::from_values(vec![5i32, 6, 7, 8, 9]);
    assert_eq!(5, min(&a).unwrap());
    assert_eq!(9, max(&a).unwrap());
}

#[test]
fn test_primitive_array_min_max_with_nulls() {
    let a = PrimitiveArray::from_options(vec![Some(5i32), None, None, Some(8), Some(9)]);
    assert_eq!(5, min(&a).unwrap());
    assert_eq!(9, max(&a).unwrap());
}

#[test]
fn test_primitive_min_max_1() {
    let a = PrimitiveArray::from_options(vec![None, None, Some(5i32), Some(2)]);
    assert_eq!(Some(2), min(&a));
    assert_eq!(Some(5), max(&a));
}

#[test]
fn test_binary_min_max_with_nulls() {
    let a = BinaryArray::from_options(vec![
        Some(b"b".to_vec()),
        None,
        None,
        Some(b"a".to_vec()),
        Some(b"c".to_vec()),
    ]);
    assert_eq!(Some("a".as_bytes()), min_binary(&a));
    assert_eq!(Some("c".as_bytes()), max_binary(&a));
}

#[test]
fn test_binary_min_max_no_null() {
    let a = BinaryArray::from_options(vec![
        Some(b"b".to_vec()),
        Some(b"a".to_vec()),
        Some(b"c".to_vec()),
    ]);
    assert_eq!(Some("a".as_bytes()), min_binary(&a));
    assert_eq!(Some("c".as_bytes()), max_binary(&a));
}

#[test]
fn test_binary_min_max_all_nulls() {
    let a = BinaryArray::from_options(vec![None, None]);
    assert_eq!(None, min_binary(&a));
    assert_eq!(None, max_binary(&a));
}

#[test]
fn test_binary_min_max_1() {
    let a = BinaryArray::from_options(vec![None, None, Some(b"b".to_vec()), Some(b"a".to_vec())]);
    assert_eq!(Some("a".as_bytes()), min_binary(&a));
    assert_eq!(Some("b".as_bytes()), max_binary(&a));
}

#[test]
fn test_string_min_max_with_nulls() {
    let a = StringArray::from_options(vec![Some("b"), None, None, Some("a"), Some("c")]);
    assert_eq!(Some("a"), min_string(&a));
    assert_eq!(Some("c"), max_string(&a));
}

#[test]
fn test_string_min_max_all_nulls() {
    let v: Vec<Option<&str>> = vec![None, None];
    let a = StringArray::from_options(v);
    assert_eq!(None, min_string(&a));
    assert_eq!(None, max_string(&a));
}

#[test]
fn test_string_min_max_1() {
    let a = StringArray::from_options(vec![None, None, Some("b"), Some("a")]);
    assert_eq!(Some("a"), min_string(&a));
    assert_eq!(Some("b"), max_string(&a));
}

#[test]
fn test_boolean_min_max_empty() {
    let a = BooleanArray::from(vec![] as Vec<Option<bool>>);
    assert_eq!(None, min_boolean(&a));
    assert_eq!(None, max_boolean(&a));
}

#[test]
fn test_boolean_min_max_all_null() {
    let a = BooleanArray::from(vec![None, None]);
    assert_eq!(None, min_boolean(&a));
    assert_eq!(None, max_boolean(&a));
}

#[test]
fn test_boolean_min_max_no_null() {
    let a = BooleanArray::from(vec![Some(true), Some(false), Some(true)]);
    assert_eq!(Some(false), min_boolean(&a));
    assert_eq!(Some(true), max_boolean(&a));
}

#[test]
fn test_boolean_min_max() {
    let a = BooleanArray::from(vec![Some(true), Some(true), None, Some(false), None]);
    assert_eq!(Some(false), min_boolean(&a));
    assert_eq!(Some(true), max_boolean(&a));

    let a = BooleanArray::from(vec![None, Some(true), None, Some(false), None]);
    assert_eq!(Some(false), min_boolean(&a));
    assert_eq!(Some(true), max_boolean(&a));

    let a = BooleanArray::from(vec![Some(false), Some(true), None, Some(false), None]);
    assert_eq!(Some(false), min_boolean(&a));
    assert_eq!(Some(true), max_boolean(&a));
}

#[test]
fn test_boolean_min_max_smaller() {
    let a = BooleanArray::from(vec![Some(false)]);
    assert_eq!(Some(false), min_boolean(&a));
    assert_eq!(Some(false), max_boolean(&a));

    let a = BooleanArray::from(vec![None, Some(false)]);
    assert_eq!(Some(false), min_boolean(&a));
    assert_eq!(Some(false), max_boolean(&a));

    let a = BooleanArray::from(vec![None, Some(true)]);
    assert_eq!(Some(true), min_boolean(&a));
    assert_eq!(Some(true), max_boolean(&a));

    let a = BooleanArray::from(vec![Some(true)]);
    assert_eq!(Some(true), min_boolean(&a));
    assert_eq!(Some(true), max_boolean(&a));
}

#[test]
fn test_sum_dyn() {
    let values = PrimitiveArray::from_values(vec![10i8, 11, 12, 13, 14, 15, 16, 17]);
    let keys = PrimitiveArray::from_values(vec![2i8, 3, 4]);

    let dict_array = DictionaryArray::new(keys, values.clone());
    assert_eq!(39, sum_array(&dict_array).unwrap());

    let a = PrimitiveArray::from_values(vec![1i32, 2, 3, 4, 5]);
    assert_eq!(15, sum_array(&a).unwrap());

    let keys = PrimitiveArray::from_options(vec![Some(2i8), None, Some(4)]);
    let dict_array = DictionaryArray::new(keys, values.clone());
    assert_eq!(26, sum_array(&dict_array).unwrap());

    let keys = PrimitiveArray::<i8>::from_options(vec![None, None, None]);
    let dict_array = DictionaryArray::new(keys, values.clone());
    assert!(sum_array(&dict_array).is_none());
}

#[test]
fn test_max_min_dyn() {
    let values = PrimitiveArray::from_values(vec![10i8, 11, 12, 13, 14, 15, 16, 17]);
    let keys = PrimitiveArray::from_values(vec![2i8, 3, 4]);

    let dict_array = DictionaryArray::new(keys, values.clone());
    assert_eq!(14, max_array(&dict_array).unwrap());
    assert_eq!(12, min_array(&dict_array).unwrap());

    let a = PrimitiveArray::from_values(vec![1i32, 2, 3, 4, 5]);
    assert_eq!(5, max_array(&a).unwrap());
    assert_eq!(1, min_array(&a).unwrap());

    let keys = PrimitiveArray::from_options(vec![Some(2i8), None, Some(7)]);
    let dict_array = DictionaryArray::new(keys, values.clone());
    assert_eq!(17, max_array(&dict_array).unwrap());
    assert_eq!(12, min_array(&dict_array).unwrap());

    let keys = PrimitiveArray::<i8>::from_options(vec![None, None, None]);
    let dict_array = DictionaryArray::new(keys, values.clone());
    assert!(max_array(&dict_array).is_none());
    assert!(min_array(&dict_array).is_none());
}

#[test]
fn test_min_max_sliced_boolean() {
    let expected = Some(true);
    let input: BooleanArray = vec![None, Some(true)].into_iter().collect();
    let actual = min_boolean(&input);
    assert_eq!(actual, expected);
    let actual = max_boolean(&input);
    assert_eq!(actual, expected);

    let sliced_input: BooleanArray = vec![None, None, None, None, None, Some(true)]
        .into_iter()
        .collect();
    let sliced_input = sliced_input.slice(4, 2);

    assert_eq!(sliced_input, input);

    let actual = min_boolean(&sliced_input);
    assert_eq!(actual, expected);
    let actual = max_boolean(&sliced_input);
    assert_eq!(actual, expected);
}

#[test]
fn test_min_max_sliced_string() {
    let expected = Some("foo");
    let input = StringArray::from_options(vec![None, Some("foo")]);
    let actual = min_string(&input);
    assert_eq!(actual, expected);
    let actual = max_string(&input);
    assert_eq!(actual, expected);

    let sliced_input =
        StringArray::from_options(vec![None, None, None, None, None, Some("foo")]);
    let sliced_input = sliced_input.slice(4, 2);

    assert_eq!(&sliced_input, &input);

    let actual = min_string(&sliced_input);
    assert_eq!(actual, expected);
    let actual = max_string(&sliced_input);
    assert_eq!(actual, expected);
}

#[test]
fn test_min_max_sliced_binary() {
    let expected: Option<&[u8]> = Some(&[5]);
    let input = BinaryArray::from_options(vec![None, Some(vec![5u8])]);
    let actual = min_binary(&input);
    assert_eq!(actual, expected);
    let actual = max_binary(&input);
    assert_eq!(actual, expected);

    let sliced_input =
        BinaryArray::from_options(vec![None, None, None, None, None, Some(vec![5u8])]);
    let sliced_input = sliced_input.slice(4, 2);

    assert_eq!(&sliced_input, &input);

    let actual = min_binary(&sliced_input);
    assert_eq!(actual, expected);
    let actual = max_binary(&sliced_input);
    assert_eq!(actual, expected);
}

#[test]
fn test_sum_overflow() {
    let a = PrimitiveArray::from_values(vec![i32::MAX, 1]);

    assert_eq!(sum(&a).unwrap(), -2147483648);
    assert_eq!(sum_array(&a).unwrap(), -2147483648);
}

#[test]
fn test_sum_checked_overflow() {
    let a = PrimitiveArray::from_values(vec![i32::MAX, 1]);

    sum_checked(&a).expect_err("overflow should be detected");
    sum_array_checked(&a).expect_err("overflow should be detected");
}
