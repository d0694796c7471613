use arrow2::aggregate::{
    max_boolean, max_primitive, max_string, min_boolean, min_primitive, min_string,
};
use arrow2::array::{ArrayError, BooleanArray, PrimitiveArray, Utf8Array};
use arrow2::bitmap::Bitmap;

#[test]
fn test_primitive_array_min_max() {
    let a = PrimitiveArray::<i32>::from_slice(&[5, 6, 7, 8, 9]);
    assert_eq!(5, min_primitive(&a).unwrap());
    assert_eq!(9, max_primitive(&a).unwrap());
}

#[test]
fn test_primitive_array_min_max_with_nulls() {
    let a = PrimitiveArray::<i32>::from(&[Some(5), None, None, Some(8), Some(9)]);
    assert_eq!(5, min_primitive(&a).unwrap());
    assert_eq!(9, max_primitive(&a).unwrap());
}

#[test]
fn test_primitive_min_max_1() {
    let a = PrimitiveArray::<i32>::from(&[None, None, Some(5), Some(2)]);
    assert_eq!(Some(2), min_primitive(&a));
    assert_eq!(Some(5), max_primitive(&a));
}

#[test]
fn primitive_empty_and_all_null() {
    let a = PrimitiveArray::<i32>::from_slice(&[]);
    assert_eq!(None, min_primitive(&a));
    assert_eq!(None, max_primitive(&a));
    let a = PrimitiveArray::<i64>::from(&[None, None, None]);
    assert_eq!(None, min_primitive(&a));
    assert_eq!(None, max_primitive(&a));
}

#[test]
fn primitive_single_value_is_min_and_max() {
    let a = PrimitiveArray::<u16>::from(&[None, Some(7), None]);
    assert_eq!(Some(7), min_primitive(&a));
    assert_eq!(Some(7), max_primitive(&a));
}

#[test]
fn primitive_large_nonnull_arrays_cross_chunk_boundaries() {
    // min/max are on the boundaries of the chunked data
    let v: Vec<i64> = (0..256).map(|i| i + 1).collect();
    let a = PrimitiveArray::<i64>::from_slice(&v);
    assert_eq!(Some(1), min_primitive(&a));
    assert_eq!(Some(256), max_primitive(&a));

    // max is the last value in the remainder after chunking
    let v: Vec<i64> = (0..255).map(|i| i + 1).collect();
    let a = PrimitiveArray::<i64>::from_slice(&v);
    assert_eq!(Some(255), max_primitive(&a));

    // max is the first value in the remainder after chunking
    let v: Vec<i64> = (0..257).map(|i| i + 1).collect();
    let a = PrimitiveArray::<i64>::from_slice(&v);
    assert_eq!(Some(257), max_primitive(&a));
}

#[test]
fn primitive_large_nullable_arrays() {
    let v: Vec<Option<i64>> = (0..256)
        .map(|i| if (i + 1) % 3 == 0 { None } else { Some(i + 1) })
        .collect();
    let a = PrimitiveArray::<i64>::from(&v);
    assert_eq!(Some(1), min_primitive(&a));
    assert_eq!(Some(256), max_primitive(&a));

    // boundaries of the chunked data are null
    let v: Vec<Option<i64>> = (0..256)
        .map(|i| if i == 0 || i == 255 { None } else { Some(i + 1) })
        .collect();
    let a = PrimitiveArray::<i64>::from(&v);
    assert_eq!(Some(2), min_primitive(&a));
    assert_eq!(Some(255), max_primitive(&a));

    // a single non-null value somewhere in the middle
    let v: Vec<Option<i64>> = (0..256).map(|i| if i != 100 { None } else { Some(i) }).collect();
    let a = PrimitiveArray::<i64>::from(&v);
    assert_eq!(Some(100), min_primitive(&a));
    assert_eq!(Some(100), max_primitive(&a));
}

#[test]
fn primitive_extreme_values_of_the_type() {
    let a = PrimitiveArray::<i32>::from_slice(&[0, i32::MAX, -3, i32::MIN, 17]);
    assert_eq!(Some(i32::MIN), min_primitive(&a));
    assert_eq!(Some(i32::MAX), max_primitive(&a));
    let v: Vec<u8> = (0..200).map(|i| (i * 7 % 200) as u8 + 3).collect();
    let a = PrimitiveArray::<u8>::from_slice(&v);
    assert_eq!(Some(3), min_primitive(&a));
    assert_eq!(Some(202), max_primitive(&a));
    let a = PrimitiveArray::<u128>::from_slice(&[u128::MAX; 100]);
    assert_eq!(Some(u128::MAX), min_primitive(&a));
    assert_eq!(Some(u128::MAX), max_primitive(&a));
    let v: Vec<i8> = (0..100).map(|i| if i == 99 { -128 } else { i as i8 }).collect();
    let a = PrimitiveArray::<i8>::from_slice(&v);
    assert_eq!(Some(-128), min_primitive(&a));
    assert_eq!(Some(98), max_primitive(&a));
}

#[test]
fn primitive_bitmap_without_nulls_and_mismatched_bitmap() {
    let a = PrimitiveArray::<u32>::try_new(vec![4, 1, 9], Some(Bitmap::from_bools(&[true, true, true])))
        .unwrap();
    assert_eq!(0, a.null_count());
    assert!(a.validity().is_some());
    assert_eq!(Some(1), min_primitive(&a));
    assert_eq!(Some(9), max_primitive(&a));

    let a = PrimitiveArray::<u32>::try_new(vec![4, 1, 9], Some(Bitmap::from_bools(&[true, false, true])))
        .unwrap();
    assert_eq!(1, a.null_count());
    assert_eq!(Some(4), min_primitive(&a));

    let e = PrimitiveArray::<u32>::try_new(vec![4, 1, 9], Some(Bitmap::from_bools(&[true, false])));
    assert!(matches!(e, Err(ArrayError::ValidityLengthMismatch)));
}

#[test]
fn primitive_from_builds_bitmap_only_with_nulls() {
    let a = PrimitiveArray::<i32>::from(&[Some(1), Some(2)]);
    assert!(a.validity().is_none());
    assert_eq!(0, a.null_count());
    let a = PrimitiveArray::<i32>::from(&[Some(1), None]);
    assert!(a.validity().is_some());
    assert_eq!(1, a.null_count());
    assert_eq!(2, a.len());
    assert!(a.is_valid(0));
    assert!(!a.is_valid(1));
    assert_eq!(1, a.value(0));
}

#[test]
fn min_never_exceeds_max_on_samples() {
    let samples: Vec<Vec<Option<i32>>> = vec![
        vec![Some(3), None, Some(-1), Some(40)],
        vec![None, Some(0)],
        (0..70).map(|i| if i % 4 == 0 { None } else { Some(70 - i) }).collect(),
    ];
    for s in samples {
        let a = PrimitiveArray::<i32>::from(&s);
        assert!(min_primitive(&a).unwrap() <= max_primitive(&a).unwrap());
    }
}

#[test]
fn test_string_min_max_with_nulls() {
    let a = Utf8Array::<i32>::from(&[Some("b"), None, None, Some("a"), Some("c")]);
    assert_eq!("a", min_string(&a).unwrap());
    assert_eq!("c", max_string(&a).unwrap());
}

#[test]
fn test_string_min_max_all_nulls() {
    let a = Utf8Array::<i32>::from(&[None, None]);
    assert_eq!(None, min_string(&a));
    assert_eq!(None, max_string(&a));
}

#[test]
fn test_string_min_max_1() {
    let a = Utf8Array::<i32>::from(&[None, None, Some("b"), Some("a")]);
    assert_eq!(Some("a"), min_string(&a));
    assert_eq!(Some("b"), max_string(&a));
}

#[test]
fn string_without_nulls_prefixes_and_non_ascii() {
    let a = Utf8Array::<i64>::from_slice(&["abc", "ab", "abd", "", "é", "z"]);
    assert_eq!(Some(""), min_string(&a));
    assert_eq!(Some("é"), max_string(&a));
    let a = Utf8Array::<i64>::from_slice(&["abc", "ab", "abd"]);
    assert_eq!(Some("ab"), min_string(&a));
    assert_eq!(Some("abd"), max_string(&a));
    let a = Utf8Array::<i64>::from_slice(&[]);
    assert_eq!(None, min_string(&a));
    assert_eq!(None, max_string(&a));
}

#[test]
fn string_bitmap_and_mismatch() {
    let a = Utf8Array::<i32>::try_new(
        vec!["q".to_string(), "b".to_string(), "x".to_string()],
        Some(Bitmap::from_bools(&[true, false, true])),
    )
    .unwrap();
    assert_eq!(Some("q"), min_string(&a));
    assert_eq!(Some("x"), max_string(&a));
    assert_eq!("b", a.value(1));
    let e = Utf8Array::<i32>::try_new(vec!["q".to_string()], Some(Bitmap::from_bools(&[])));
    assert!(matches!(e, Err(ArrayError::ValidityLengthMismatch)));
}

#[test]
fn boolean_doc_examples() {
    let a = BooleanArray::from(&[Some(true), None, Some(false)]);
    assert_eq!(min_boolean(&a), Some(false));
    assert_eq!(max_boolean(&a), Some(true));
}

#[test]
fn test_boolean_min_max_empty() {
    let a = BooleanArray::from(&[]);
    assert_eq!(None, min_boolean(&a));
    assert_eq!(None, max_boolean(&a));
}

#[test]
fn test_boolean_min_max_all_null() {
    let a = BooleanArray::from(&[None, None]);
    assert_eq!(None, min_boolean(&a));
    assert_eq!(None, max_boolean(&a));
}

#[test]
fn test_boolean_min_max_no_null() {
    let a = BooleanArray::from(&[Some(true), Some(false), Some(true)]);
    assert_eq!(Some(false), min_boolean(&a));
    assert_eq!(Some(true), max_boolean(&a));
}

#[test]
fn test_boolean_min_max() {
    let a = BooleanArray::from(&[Some(true), Some(true), None, Some(false), None]);
    assert_eq!(Some(false), min_boolean(&a));
    assert_eq!(Some(true), max_boolean(&a));

    let a = BooleanArray::from(&[None, Some(true), None, Some(false), None]);
    assert_eq!(Some(false), min_boolean(&a));
    assert_eq!(Some(true), max_boolean(&a));

    let a = BooleanArray::from(&[Some(false), Some(true), None, Some(false), None]);
    assert_eq!(Some(false), min_boolean(&a));
    assert_eq!(Some(true), max_boolean(&a));
}

#[test]
fn test_boolean_min_max_smaller() {
    let a = BooleanArray::from(&[Some(false)]);
    assert_eq!(Some(false), min_boolean(&a));
    assert_eq!(Some(false), max_boolean(&a));

    let a = BooleanArray::from(&[None, Some(false)]);
    assert_eq!(Some(false), min_boolean(&a));
    assert_eq!(Some(false), max_boolean(&a));

    let a = BooleanArray::from(&[None, Some(true)]);
    assert_eq!(Some(true), min_boolean(&a));
    assert_eq!(Some(true), max_boolean(&a));

    let a = BooleanArray::from(&[Some(true)]);
    assert_eq!(Some(true), min_boolean(&a));
    assert_eq!(Some(true), max_boolean(&a));
}

#[test]
fn boolean_from_slice_and_bitmap() {
    let a = BooleanArray::from_slice(&[true, true]);
    assert_eq!(Some(true), min_boolean(&a));
    assert_eq!(Some(true), max_boolean(&a));
    let a = BooleanArray::try_new(
        Bitmap::from_bools(&[false, true, true]),
        Some(Bitmap::from_bools(&[false, true, true])),
    )
    .unwrap();
    assert_eq!(1, a.null_count());
    assert_eq!(None, a.get(0));
    assert_eq!(Some(true), min_boolean(&a));
    let e = BooleanArray::try_new(Bitmap::from_bools(&[true]), Some(Bitmap::from_bools(&[true, true])));
    assert!(matches!(e, Err(ArrayError::ValidityLengthMismatch)));
}

#[test]
fn bitmap_counts_unset_bits() {
    let b = Bitmap::new(vec![true, false, false, true]);
    assert_eq!(4, b.len());
    assert_eq!(2, b.unset_bits());
    assert!(b.get_bit(0));
    assert!(!b.get_bit(1));
}

#[test]
fn trailing_null_changes_nothing() {
    let a = PrimitiveArray::<i16>::from(&[Some(4), Some(-2), Some(9)]);
    let b = PrimitiveArray::<i16>::from(&[Some(4), Some(-2), Some(9), None]);
    assert_eq!(min_primitive(&a), min_primitive(&b));
    assert_eq!(max_primitive(&a), max_primitive(&b));
    assert_eq!(Some(-2), min_primitive(&b));
    assert_eq!(Some(9), max_primitive(&b));
}

#[test]
fn chunked_and_short_reductions_agree() {
    // 20 values of i32: one chunk of 16 lanes and a remainder of 4
    let v: Vec<i32> = (0..20).map(|i| (i * 13) % 20 - 5).collect();
    let mut w = v.clone();
    w.reverse();
    let a = PrimitiveArray::<i32>::from_slice(&v);
    let b = PrimitiveArray::<i32>::from_slice(&w);
    let c = PrimitiveArray::<i32>::from_slice(&v[..10]);
    assert_eq!(Some(-5), min_primitive(&a));
    assert_eq!(Some(14), max_primitive(&a));
    assert_eq!(min_primitive(&a), min_primitive(&b));
    assert_eq!(max_primitive(&a), max_primitive(&b));
    let expected_min = *v[..10].iter().min().unwrap();
    assert_eq!(Some(expected_min), min_primitive(&c));
}

#[test]
fn boolean_min_never_exceeds_max() {
    let samples: Vec<Vec<Option<bool>>> = vec![
        vec![Some(true), None],
        vec![Some(false), None, Some(false)],
        vec![None, Some(true), Some(false)],
    ];
    for s in samples {
        let a = BooleanArray::from(&s);
        assert!(min_boolean(&a).unwrap() <= max_boolean(&a).unwrap());
    }
}

#[test]
fn string_min_never_exceeds_max() {
    let a = Utf8Array::<i64>::from(&[Some("pear"), None, Some("apple"), Some("fig")]);
    let lo = min_string(&a).unwrap();
    let hi = max_string(&a).unwrap();
    assert_eq!("apple", lo);
    assert_eq!("pear", hi);
    assert!(lo <= hi);
}
