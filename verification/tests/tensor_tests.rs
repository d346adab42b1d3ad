use scan_core::tensor::{shape_volume, DatumType, Tensor};

fn matrix(rows: usize, cols: usize, data: &[i64]) -> Tensor {
    Tensor::from_vec(DatumType::I64, vec![rows, cols], data.to_vec()).unwrap()
}

#[test]
fn volume_is_product_of_dimensions() {
    assert_eq!(shape_volume(&vec![]), Some(1));
    assert_eq!(shape_volume(&vec![2, 3, 4]), Some(24));
    assert_eq!(shape_volume(&vec![5, 0, usize::MAX]), Some(0));
    assert_eq!(shape_volume(&vec![usize::MAX, usize::MAX, 0]), Some(0));
    assert_eq!(shape_volume(&vec![usize::MAX, 2]), None);
}

#[test]
fn zeros_fills_shape() {
    let t = Tensor::zeros(DatumType::Bool, vec![2, 2]).unwrap();
    assert_eq!(t.datum_type(), DatumType::Bool);
    assert_eq!(t.shape(), &vec![2, 2]);
    assert_eq!(t.data(), &vec![0, 0, 0, 0]);
    assert_eq!(t.rank(), 2);
    assert!(Tensor::zeros(DatumType::I64, vec![usize::MAX, 2]).is_none());
}

#[test]
fn from_vec_wants_exact_length() {
    assert!(Tensor::from_vec(DatumType::I64, vec![2, 2], vec![1, 2, 3]).is_none());
    assert!(Tensor::from_vec(DatumType::I64, vec![2, 2], vec![1, 2, 3, 4]).is_some());
    assert!(Tensor::from_vec(DatumType::I64, vec![], vec![]).is_none());
}

#[test]
fn scalar_has_rank_zero_and_reads_back() {
    let t = Tensor::scalar(DatumType::TDim, 42);
    assert_eq!(t.rank(), 0);
    assert_eq!(t.to_scalar(DatumType::TDim), Some(42));
    assert_eq!(t.to_scalar(DatumType::I64), None);
    let v = Tensor::from_vec(DatumType::TDim, vec![1], vec![42]).unwrap();
    assert_eq!(v.to_scalar(DatumType::TDim), None);
}

#[test]
fn default_is_integer_zero_scalar() {
    assert_eq!(Tensor::default(), Tensor::scalar(DatumType::I64, 0));
}

#[test]
fn clone_keeps_contents() {
    let t = matrix(2, 3, &[1, 2, 3, 4, 5, 6]);
    assert_eq!(t.clone(), t);
}

#[test]
fn assign_slice_along_last_axis() {
    let src = matrix(2, 3, &[1, 2, 3, 4, 5, 6]);
    let mut dst = Tensor::zeros(DatumType::I64, vec![2, 2]).unwrap();
    assert!(dst.assign_slice(0, &src, 1, 2, 1));
    assert_eq!(dst.data(), &vec![2, 3, 5, 6]);
}

#[test]
fn assign_slice_along_first_axis() {
    let src = matrix(2, 2, &[1, 2, 3, 4]);
    let mut dst = Tensor::zeros(DatumType::I64, vec![3, 2]).unwrap();
    assert!(dst.assign_slice(1, &src, 0, 2, 0));
    assert_eq!(dst.data(), &vec![0, 0, 1, 2, 3, 4]);
}

#[test]
fn assign_slice_middle_axis_leaves_rest() {
    let src = Tensor::from_vec(DatumType::I64, vec![2, 1, 2], vec![1, 2, 3, 4]).unwrap();
    let mut dst =
        Tensor::from_vec(DatumType::I64, vec![2, 2, 2], vec![9, 9, 9, 9, 9, 9, 9, 9]).unwrap();
    assert!(dst.assign_slice(1, &src, 0, 1, 1));
    assert_eq!(dst.data(), &vec![9, 9, 1, 2, 9, 9, 3, 4]);
}

#[test]
fn assign_slice_refuses_what_does_not_fit() {
    let src = matrix(2, 3, &[1, 2, 3, 4, 5, 6]);
    let mut dst = matrix(2, 2, &[7, 7, 7, 7]);
    assert!(!dst.assign_slice(1, &src, 0, 2, 1));
    assert!(!dst.assign_slice(0, &src, 2, 2, 1));
    assert!(!dst.assign_slice(0, &src, 0, 1, 2));
    assert!(!dst.assign_slice(0, &src, 0, 1, 0));
    let other = Tensor::from_vec(DatumType::Bool, vec![2, 3], vec![0; 6]).unwrap();
    assert!(!dst.assign_slice(0, &other, 0, 1, 1));
    assert_eq!(dst.data(), &vec![7, 7, 7, 7]);
    assert!(dst.assign_slice(2, &src, 3, 0, 1));
    assert_eq!(dst.data(), &vec![7, 7, 7, 7]);
}

#[test]
fn agrees_off_axis_ignores_the_axis() {
    let a = matrix(2, 3, &[0; 6]);
    let b = matrix(2, 5, &[0; 10]);
    assert!(a.agrees_off_axis(&b, 1));
    assert!(!a.agrees_off_axis(&b, 0));
    assert!(!a.agrees_off_axis(&b, 2));
}
