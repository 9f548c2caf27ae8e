//! The sample functions behave as their contracts say on concrete inputs.

use lintcore::samples::{
    bad_bit_mask, bytes_nth, chars_next_cmp, clone_on_copy_example, cmp_owned_example,
    collapsible_if_example, complex_type, eq_op_example, erasing_op, filter_map_identity,
    inefficient_to_string, iter_nth_zero, len_not_zero, len_zero_check, manual_filter_map,
    manual_memcpy, map_clone_example, match_bool_example, mut_mut_example, needless_bool,
    needless_bool_assign, needless_range_loop, option_as_ref_deref, or_fun_call, ptr_arg_string,
    ptr_arg_vec, redundant_clone, redundant_pattern_matching, redundant_slicing, search_is_some,
    single_match_example, string_lit_as_bytes, takes_option, unnecessary_fold, useless_vec,
};

#[test]
fn trivial_truths() {
    assert!(bad_bit_mask(5));
    assert!(bad_bit_mask(0));
    assert!(eq_op_example(5));
    assert!(eq_op_example(-7));
    assert_eq!(erasing_op(5), 0);
    assert_eq!(erasing_op(-123), 0);
    assert_eq!(clone_on_copy_example(), 42);
}

#[test]
fn collapsible_if_truth_table() {
    assert_eq!(collapsible_if_example(true, true), 1);
    assert_eq!(collapsible_if_example(true, false), 0);
    assert_eq!(collapsible_if_example(false, true), 0);
    assert_eq!(collapsible_if_example(false, false), 0);
}

#[test]
fn string_helpers() {
    assert_eq!(inefficient_to_string(), "hello");
    assert_eq!(redundant_clone(), "world");
    assert_eq!(string_lit_as_bytes(), b"hello");
    assert_eq!(ptr_arg_string(&String::from("test")), 4);
    assert_eq!(ptr_arg_string(&String::from("")), 0);
    assert!(cmp_owned_example("hello"));
    assert!(!cmp_owned_example("other"));
}

#[test]
fn emptiness_checks() {
    let v = vec![1, 2, 3];
    assert!(!len_zero_check(&v));
    assert!(len_zero_check(&vec![]));
    assert!(len_not_zero(&v));
    assert!(!len_not_zero(&[]));
}

#[test]
fn copies_prefix_and_keeps_rest() {
    let mut dst = vec![0u8, 0, 0, 9, 9];
    manual_memcpy(&[1, 2, 3], &mut dst);
    assert_eq!(dst, vec![1, 2, 3, 9, 9]);
}

#[test]
fn boolean_identities() {
    assert!(needless_bool(true));
    assert!(!needless_bool(false));
    assert!(needless_bool_assign(true));
    assert!(!needless_bool_assign(false));
}

#[test]
fn sums() {
    assert_eq!(needless_range_loop(&[1, 2, 3]), 6);
    assert_eq!(needless_range_loop(&[]), 0);
    assert_eq!(needless_range_loop(&[-5, 5, 7]), 7);
    assert_eq!(ptr_arg_vec(&vec![1, 2, 3]), 6);
    assert_eq!(ptr_arg_vec(&vec![]), 0);
    assert_eq!(useless_vec(), 6);
}

#[test]
fn option_helpers() {
    assert_eq!(or_fun_call(Some("x".to_string())), "x");
    assert_eq!(or_fun_call(None), "");
    assert!(redundant_pattern_matching(Some(1)));
    assert!(!redundant_pattern_matching(None));
    assert_eq!(single_match_example(Some(42)), 42);
    assert_eq!(single_match_example(None), 0);
    takes_option(Some(()));
    takes_option(None);
}

#[test]
fn flattening_options() {
    assert_eq!(filter_map_identity(vec![Some(1), None, Some(2)]), vec![1, 2]);
    assert_eq!(filter_map_identity(vec![]), Vec::<i32>::new());
    assert_eq!(manual_filter_map(vec![Some(1), None, Some(2)]), vec![1, 2]);
    assert_eq!(manual_filter_map(vec![None, None]), Vec::<i32>::new());
}

#[test]
fn cloning_collections() {
    let strings = vec!["a".to_string(), "b".to_string()];
    assert_eq!(map_clone_example(&strings), strings);
    assert_eq!(map_clone_example(&[]), Vec::<String>::new());
}

#[test]
fn complex_type_produces_nothing() {
    assert!(complex_type().is_none());
}

#[test]
fn match_on_bool() {
    assert_eq!(match_bool_example(true), 1);
    assert_eq!(match_bool_example(false), 0);
}

#[test]
fn searching() {
    let v = vec![1, 2, 3];
    assert!(search_is_some(&v, 2));
    assert!(!search_is_some(&v, 5));
    assert!(!search_is_some(&[], 1));
}

#[test]
fn first_characters_and_bytes() {
    assert!(chars_next_cmp("abc"));
    assert!(!chars_next_cmp("xyz"));
    assert!(!chars_next_cmp(""));
    assert_eq!(bytes_nth("hello"), Some(b'l'));
    assert_eq!(bytes_nth("abc"), None);
    assert_eq!(iter_nth_zero(&[5, 6]), Some(&5));
    assert_eq!(iter_nth_zero(&[]), None);
}

#[test]
fn folding_and_slicing() {
    assert!(unnecessary_fold(&[1]));
    assert!(!unnecessary_fold(&[]));
    assert_eq!(redundant_slicing(&[1, 2]), &[1, 2]);
    let mut val = 10;
    mut_mut_example(&mut val);
    assert_eq!(val, 42);
}

#[test]
fn option_as_deref() {
    let opt = Some(String::from("test"));
    assert_eq!(option_as_ref_deref(&opt), Some("test"));
    assert_eq!(option_as_ref_deref(&None), None);
}
