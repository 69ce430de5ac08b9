use edge_infer::tensor::{can_allocate, count_elements, ByteOrder, TensorData};
use edge_infer::{DType, Tensor, TensorView};

#[test]
fn element_widths() {
    assert_eq!(DType::F32.size(), 4);
    assert_eq!(DType::I32.size(), 4);
    assert_eq!(DType::I64.size(), 8);
}

#[test]
fn elements_are_counted() {
    assert_eq!(count_elements(&[]), 1);
    assert_eq!(count_elements(&[2, 3, 4]), 24);
    assert_eq!(count_elements(&[5, 0]), 0);
    assert_eq!(count_elements(&[-1, 4]), 0);
    assert_eq!(count_elements(&[-2, -3]), 6);
}

#[test]
fn floats_are_their_bits_in_memory() {
    let data: Vec<u32> = [1.5f32, -2.0].iter().map(|x| x.to_bits()).collect();
    let v = TensorView::f32_bits(&[2], &data);
    assert_eq!(v.dtype, DType::F32);
    assert_eq!(v.numel(), 2);
    let mut want = 1.5f32.to_ne_bytes().to_vec();
    want.extend_from_slice(&(-2.0f32).to_ne_bytes());
    assert_eq!(v.data.to_bytes(), want);
}

#[test]
fn integers_are_their_bytes_in_memory() {
    let data = [1i32, -1, i32::MIN];
    let v = TensorView::i32(&[3], &data);
    assert_eq!(v.dtype, DType::I32);
    assert_eq!(v.numel(), 3);
    let want: Vec<u8> = data.iter().flat_map(|x| x.to_ne_bytes()).collect();
    assert_eq!(v.data.to_bytes(), want);
}

#[test]
fn words_come_in_either_order() {
    let ints = [1i32, -2];
    let little = TensorView::i32_in(ByteOrder::Little, &[2], &ints);
    assert_eq!(little.data.to_bytes(), vec![1, 0, 0, 0, 254, 255, 255, 255]);
    let big = TensorView::i32_in(ByteOrder::Big, &[2], &ints);
    assert_eq!(big.data.to_bytes(), vec![0, 0, 0, 1, 255, 255, 255, 254]);
    let bits = [0x0102_0304u32];
    let little = TensorView::f32_bits_in(ByteOrder::Little, &[1], &bits);
    assert_eq!(little.data.to_bytes(), vec![4, 3, 2, 1]);
    let big = TensorView::f32_bits_in(ByteOrder::Big, &[1], &bits);
    assert_eq!(big.data.to_bytes(), vec![1, 2, 3, 4]);
    let t = Tensor { shape: vec![1], dtype: DType::F32, data: vec![1, 2, 3, 4] };
    assert_eq!(t.as_f32_bits_in(ByteOrder::Little), Some(vec![0x0403_0201]));
    assert_eq!(t.as_f32_bits_in(ByteOrder::Big), Some(vec![0x0102_0304]));
    assert_eq!(ByteOrder::of_one([1, 0, 0, 0]), ByteOrder::Little);
    assert_eq!(ByteOrder::of_one([0, 0, 0, 1]), ByteOrder::Big);
}

#[test]
fn zeros_have_the_length_of_their_shape() {
    let t = Tensor::zeros(vec![2, 3], DType::I64);
    assert_eq!(t.shape, vec![2, 3]);
    assert_eq!(t.data, vec![0; 48]);
    assert_eq!(t.numel(), 6);
    let t = Tensor::zeros(vec![0], DType::F32);
    assert_eq!(t.data, vec![]);
    assert_eq!(t.numel(), 0);
    let t = Tensor::zeros(vec![], DType::F32);
    assert_eq!(t.data, vec![0; 4]);
}

#[test]
fn words_survive_being_bytes() {
    let bits = [0u32, 1, 0x7F80_0001, u32::MAX, 0x0102_0304];
    let v = TensorView::f32_bits(&[5], &bits);
    let t = Tensor { shape: vec![5], dtype: DType::F32, data: v.data.to_bytes() };
    assert_eq!(t.as_f32_bits(), Some(bits.to_vec()));
    for order in [ByteOrder::Little, ByteOrder::Big] {
        let v = TensorView::f32_bits_in(order, &[5], &bits);
        let t = Tensor { shape: vec![5], dtype: DType::F32, data: v.data.to_bytes() };
        assert_eq!(t.as_f32_bits_in(order), Some(bits.to_vec()));
    }
}

#[test]
fn only_floats_read_as_floats() {
    assert!(Tensor::zeros(vec![1], DType::I32).as_f32_bits().is_none());
    assert!(Tensor::zeros(vec![1], DType::I64).as_f32_bits().is_none());
    // What is left over after the last whole word is dropped.
    let t = Tensor { shape: vec![1], dtype: DType::F32, data: vec![1, 0, 0, 0, 9] };
    assert_eq!(t.as_f32_bits_in(ByteOrder::Little), Some(vec![1]));
    assert_eq!(t.as_f32_bits().unwrap().len(), 1);
}

#[test]
fn tensor_borrows_as_a_view() {
    let t = Tensor { shape: vec![1, 2], dtype: DType::I32, data: vec![1, 2, 3, 4, 5, 6, 7, 8] };
    let v = t.view();
    assert_eq!(v.shape, &[1, 2]);
    assert_eq!(v.dtype, DType::I32);
    assert_eq!(v.data.to_bytes(), t.data);
    assert!(matches!(v.data, TensorData::Bytes(_)));
}

#[test]
fn sizes_that_overflow_are_found() {
    assert!(can_allocate(&[2, 3], DType::F32));
    assert!(can_allocate(&[-5], DType::I64));
    assert!(!can_allocate(&[i64::MAX, 2], DType::F32));
    assert!(!can_allocate(&[i64::MAX], DType::F32));
    assert!(!can_allocate(&[1 << 61], DType::I64));
}
