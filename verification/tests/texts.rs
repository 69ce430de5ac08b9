use edge_infer::backends::litert_sys::builder::{
    accelerator_mask, cpu_options_identifier, cpu_options_toml,
};
use edge_infer::backends::litert_sys::layout::LiteRtLayout;
use edge_infer::backends::litert_sys::model::{can_multiply, copy_output, element_size, numel_of};
use edge_infer::backends::litert_sys::order::argument_order;
use edge_infer::text::{
    characters, contains_nul, ends_in, number_of, push_i32, push_int_list, push_usize,
};

#[test]
fn numbers_are_written_in_decimal() {
    let mut s = String::from("n=");
    push_usize(&mut s, 0);
    push_usize(&mut s, usize::MAX);
    assert_eq!(s, format!("n=0{}", usize::MAX));
    let mut s = String::new();
    push_i32(&mut s, -17);
    push_i32(&mut s, i32::MIN);
    push_i32(&mut s, i32::MAX);
    assert_eq!(s, "-17-21474836482147483647");
    let mut s = String::new();
    push_int_list(&mut s, &[1, -2, 30]);
    push_int_list(&mut s, &[]);
    assert_eq!(s, "[1, -2, 30][]");
}

#[test]
fn numbers_are_found_in_names() {
    assert_eq!(number_of("args_17"), Some(17));
    assert_eq!(number_of("output_0"), Some(0));
    assert_eq!(number_of("1a2"), Some(12));
    assert_eq!(number_of("none"), None);
    assert_eq!(number_of(""), None);
    assert_eq!(number_of("x18446744073709551615"), Some(u64::MAX));
    assert_eq!(number_of("x18446744073709551616"), None);
}

#[test]
fn suffixes_are_found() {
    assert!(ends_in("x.mlpackage", ".mlpackage"));
    assert!(!ends_in("x.mlpackage/", ".mlpackage"));
    assert!(!ends_in("age", ".mlpackage"));
    assert!(contains_nul("a\0b"));
    assert!(!contains_nul("ab"));
    assert_eq!(characters("码a"), vec!['码', 'a']);
}

fn names(v: &[&str]) -> Vec<String> {
    v.iter().map(|s| s.to_string()).collect()
}

#[test]
fn arguments_are_ordered_by_number() {
    assert_eq!(argument_order(&names(&["args_0", "args_1", "args_10", "args_2"])), vec![0, 1, 3, 2]);
    assert_eq!(argument_order(&names(&["b_2", "a_1", "c_0"])), vec![2, 1, 0]);
    // Equal numbers keep their order.
    assert_eq!(argument_order(&names(&["b_1", "a_1", "c_0"])), vec![2, 0, 1]);
    // One name without a number, and the runtime's order stands.
    assert_eq!(argument_order(&names(&["b_2", "a", "c_0"])), vec![0, 1, 2]);
    assert_eq!(argument_order(&names(&["b_2", "a_1", "x99999999999999999999"])), vec![0, 1, 2]);
    assert_eq!(argument_order(&names(&[])), Vec::<usize>::new());
}

#[test]
fn layouts_keep_dimensions() {
    let l = LiteRtLayout::from_dims(&[1, 192, 192, 3]);
    assert_eq!(l.rank(), 4);
    assert_eq!(l.dims(), vec![1, 192, 192, 3]);
    assert_eq!(LiteRtLayout::zeroed().dims(), Vec::<i32>::new());
    // No more than eight are kept.
    let l = LiteRtLayout::from_dims(&[1, 2, 3, 4, 5, 6, 7, 8, 9]);
    assert_eq!(l.dims(), vec![1, 2, 3, 4, 5, 6, 7, 8]);
}

#[test]
fn elements_of_a_runtime_shape() {
    assert_eq!(numel_of(&[2, 3]), 6);
    assert_eq!(numel_of(&[]), 1);
    assert_eq!(numel_of(&[-1, 5]), 0);
    assert_eq!(numel_of(&[-1, -1]), 0);
    assert_eq!(element_size(1), 4);
    assert_eq!(element_size(2), 4);
    assert_eq!(element_size(99), 4);
    assert!(can_multiply(&[i32::MAX, i32::MAX]));
    assert!(!can_multiply(&[i32::MAX, i32::MAX, i32::MAX]));
}

#[test]
fn copies_stop_at_the_shorter_end() {
    let mut dst = vec![0u8; 4];
    copy_output(&mut dst, &[1, 2, 3, 4, 5, 6], 6);
    assert_eq!(dst, vec![1, 2, 3, 4]);
    let mut dst = vec![0u8; 4];
    copy_output(&mut dst, &[1, 2, 3, 4], 2);
    assert_eq!(dst, vec![1, 2, 0, 0]);
    let mut dst = vec![9u8; 2];
    copy_output(&mut dst, &[], 2);
    assert_eq!(dst, vec![9, 9]);
}

#[test]
fn hardware_and_threads() {
    assert_eq!(accelerator_mask(true), 3);
    assert_eq!(accelerator_mask(false), 1);
    assert_eq!(cpu_options_identifier(), "xnnpack");
    assert_eq!(cpu_options_toml(4), "num_threads = 4\n");
}
