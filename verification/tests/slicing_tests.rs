use scan_core::error::ScanError;
use scan_core::slicing::{assign_output, chunk_width, slice_input};
use scan_core::tensor::{DatumType, Tensor};

fn vector(values: &[i64]) -> Tensor {
    Tensor::from_vec(DatumType::I64, vec![values.len()], values.to_vec()).unwrap()
}

fn zeros(len: usize) -> Tensor {
    Tensor::zeros(DatumType::I64, vec![len]).unwrap()
}

#[test]
fn chunk_width_is_magnitude() {
    assert_eq!(chunk_width(3), 3);
    assert_eq!(chunk_width(-3), 3);
    assert_eq!(chunk_width(0), 0);
    assert_eq!(chunk_width(isize::MIN), (isize::MAX as usize) + 1);
}

#[test]
fn forward_slices_with_short_tail() {
    let input = vector(&[1, 2, 3, 4, 5]);
    assert_eq!(slice_input(&input, 0, 0, 2).unwrap(), vector(&[1, 2]));
    assert_eq!(slice_input(&input, 0, 1, 2).unwrap(), vector(&[3, 4]));
    assert_eq!(slice_input(&input, 0, 2, 2).unwrap(), vector(&[5, 0]));
    assert_eq!(slice_input(&input, 0, 3, 2).unwrap(), vector(&[0, 0]));
    assert_eq!(slice_input(&input, 0, usize::MAX, 2).unwrap(), vector(&[0, 0]));
}

#[test]
fn backward_slices_with_short_tail() {
    let input = vector(&[1, 2, 3, 4, 5]);
    assert_eq!(slice_input(&input, 0, 0, -2).unwrap(), vector(&[4, 5]));
    assert_eq!(slice_input(&input, 0, 1, -2).unwrap(), vector(&[2, 3]));
    assert_eq!(slice_input(&input, 0, 2, -2).unwrap(), vector(&[0, 1]));
    assert_eq!(slice_input(&input, 0, 3, -2).unwrap(), vector(&[0, 0]));
}

#[test]
fn slices_keep_other_axes_whole() {
    let input = Tensor::from_vec(DatumType::I64, vec![2, 3], vec![1, 2, 3, 4, 5, 6]).unwrap();
    let chunk = slice_input(&input, 1, 1, 2).unwrap();
    assert_eq!(chunk.shape(), &vec![2, 2]);
    assert_eq!(chunk.data(), &vec![3, 0, 6, 0]);
    let chunk = slice_input(&input, 0, 1, 1).unwrap();
    assert_eq!(chunk.shape(), &vec![1, 3]);
    assert_eq!(chunk.data(), &vec![4, 5, 6]);
    let chunk = slice_input(&input, 1, 0, -2).unwrap();
    assert_eq!(chunk.data(), &vec![2, 3, 5, 6]);
}

#[test]
fn slice_keeps_datum_type() {
    let input = Tensor::from_vec(DatumType::Bool, vec![2], vec![1, 0]).unwrap();
    assert_eq!(slice_input(&input, 0, 1, 1).unwrap().datum_type(), DatumType::Bool);
}

#[test]
fn slice_refuses_bad_axis_empty_axis_and_zero_chunk() {
    let input = vector(&[1, 2, 3]);
    assert_eq!(slice_input(&input, 1, 0, 1), Err(ScanError::SliceMismatch));
    assert_eq!(slice_input(&input, 0, 0, 0), Err(ScanError::SliceMismatch));
    let empty = vector(&[]);
    assert_eq!(slice_input(&empty, 0, 0, 1), Err(ScanError::SliceMismatch));
    let wide = Tensor::from_vec(DatumType::I64, vec![1, 4], vec![1, 2, 3, 4]).unwrap();
    assert_eq!(slice_input(&wide, 0, 0, isize::MAX), Err(ScanError::SliceMismatch));
}

#[test]
fn forward_assign_places_chunks_in_order() {
    let mut acc = zeros(6);
    assert_eq!(assign_output(&mut acc, 0, &vector(&[7, 8]), 1, false), Ok(()));
    assert_eq!(acc, vector(&[0, 0, 7, 8, 0, 0]));
    assert_eq!(assign_output(&mut acc, 0, &vector(&[1, 2]), 0, false), Ok(()));
    assert_eq!(assign_output(&mut acc, 0, &vector(&[5, 6]), 2, false), Ok(()));
    assert_eq!(acc, vector(&[1, 2, 7, 8, 5, 6]));
}

#[test]
fn forward_assign_cuts_chunk_at_end() {
    let mut acc = zeros(5);
    assert_eq!(assign_output(&mut acc, 0, &vector(&[7, 8]), 2, false), Ok(()));
    assert_eq!(acc, vector(&[0, 0, 0, 0, 7]));
    assert_eq!(assign_output(&mut acc, 0, &vector(&[1, 2]), 3, false), Ok(()));
    assert_eq!(acc, vector(&[0, 0, 0, 0, 7]));
}

#[test]
fn backward_assign_starts_from_last_index() {
    let mut acc = zeros(3);
    assert_eq!(assign_output(&mut acc, 0, &vector(&[9]), 0, true), Ok(()));
    assert_eq!(acc, vector(&[0, 0, 9]));
    assert_eq!(assign_output(&mut acc, 0, &vector(&[8]), 2, true), Ok(()));
    assert_eq!(acc, vector(&[8, 0, 9]));
    assert_eq!(assign_output(&mut acc, 0, &vector(&[7]), 3, true), Ok(()));
    assert_eq!(acc, vector(&[8, 0, 9]));
}

#[test]
fn backward_assign_of_wide_chunks() {
    let mut acc = zeros(6);
    assert_eq!(assign_output(&mut acc, 0, &vector(&[7, 8]), 0, true), Ok(()));
    assert_eq!(acc, vector(&[0, 0, 0, 0, 0, 7]));
    assert_eq!(assign_output(&mut acc, 0, &vector(&[5, 6]), 1, true), Ok(()));
    assert_eq!(acc, vector(&[0, 0, 0, 5, 6, 7]));
    assert_eq!(assign_output(&mut acc, 0, &vector(&[3, 4]), 2, true), Ok(()));
    assert_eq!(acc, vector(&[0, 3, 4, 5, 6, 7]));
}

#[test]
fn assign_refuses_other_shapes() {
    let mut acc = Tensor::zeros(DatumType::I64, vec![2, 2]).unwrap();
    let element = Tensor::zeros(DatumType::I64, vec![3, 1]).unwrap();
    assert_eq!(assign_output(&mut acc, 1, &element, 0, false), Err(ScanError::SliceMismatch));
    let element = Tensor::zeros(DatumType::Bool, vec![2, 1]).unwrap();
    assert_eq!(assign_output(&mut acc, 1, &element, 0, false), Err(ScanError::SliceMismatch));
    let element = Tensor::zeros(DatumType::I64, vec![2, 1]).unwrap();
    assert_eq!(assign_output(&mut acc, 2, &element, 0, false), Err(ScanError::SliceMismatch));
    assert_eq!(acc.data(), &vec![0, 0, 0, 0]);
}

#[test]
fn reversed_input_gives_reversed_chunks() {
    let forward = vector(&[1, 2, 3, 4, 5]);
    let reversed = vector(&[5, 4, 3, 2, 1]);
    for i in 0..4 {
        let a = slice_input(&forward, 0, i, 2).unwrap();
        let b = slice_input(&reversed, 0, i, -2).unwrap();
        let mut flipped = a.data().clone();
        flipped.reverse();
        assert_eq!(b.data(), &flipped);
    }
}
