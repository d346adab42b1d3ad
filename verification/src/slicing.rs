//! The two tensor operations of one iteration: cutting a chunk out of a
//! scanned input, and placing a chunk into an accumulated output.

use crate::error::ScanError;
use crate::tensor::volume;
use crate::tensor::Tensor;
use crate::tensor::TensorView;
use vstd::prelude::*;

verus! {

/// The number of elements of one chunk: the magnitude of the signed chunk.
pub open spec fn width(chunk: isize) -> nat {
    if chunk < 0 {
        (-chunk) as nat
    } else {
        chunk as nat
    }
}

/// How many elements of an axis of length `len` are left for chunk `i` of
/// width `k`: a full chunk, the short tail, or nothing past the end.
pub open spec fn available(len: int, k: int, i: int) -> int {
    if i * k >= len {
        0
    } else if len - i * k < k {
        len - i * k
    } else {
        k
    }
}

/// Whether a tensor can be cut in chunks along the axis: the axis exists and
/// is not empty, the chunk is not zero, and a chunk fits the machine.
pub open spec fn can_slice(t: TensorView, axis: usize, chunk: isize) -> bool {
    &&& axis < t.shape.len()
    &&& chunk != 0
    &&& t.shape[axis as int] > 0
    &&& width(chunk) <= usize::MAX
    &&& volume(t.shape.update(axis as int, width(chunk) as usize)) <= usize::MAX
}

/// Chunk `i` of a tensor along the axis. It has the shape of the tensor but
/// for the axis, which has the chunk's width. Scanning forward, it holds the
/// indices `i * k ..` of the axis from its start on; scanning backward, it
/// holds the indices that end `i * k` before the end of the axis, up to its
/// own end. What the axis cannot fill is zero.
pub open spec fn chunk_of(t: TensorView, axis: usize, i: usize, chunk: isize) -> TensorView {
    let k = width(chunk) as int;
    let len = t.shape[axis as int] as int;
    let count = available(len, k, i as int);
    let blank = t.zeros_like(axis as int, k as usize);
    if count == 0 {
        blank
    } else if chunk > 0 {
        blank.assign_slice(0, t, i * k, count, axis as int)
    } else {
        blank.assign_slice(k - count, t, len - i * k - count, count, axis as int)
    }
}

/// Where chunk `i` of width `w` starts in an accumulator whose axis has
/// length `full`: `i * w` forward, `full - 1 - i * w` backward.
pub open spec fn offset_of(full: int, w: int, i: int, backward: bool) -> int {
    if backward {
        full - 1 - i * w
    } else {
        i * w
    }
}

/// Whether an element tensor can be placed into an accumulator along the
/// axis: both have the axis and agree everywhere else.
pub open spec fn can_place(acc: TensorView, axis: usize, element: TensorView) -> bool {
    acc.agrees_off_axis(element, axis as int)
}

/// The accumulator after chunk `i` has been placed. The chunk starts at its
/// offset and is cut where the accumulator ends; where the offset lies
/// outside the accumulator nothing is written.
pub open spec fn placed(
    acc: TensorView,
    axis: usize,
    element: TensorView,
    i: usize,
    backward: bool,
) -> TensorView {
    let full = acc.shape[axis as int] as int;
    let w = element.shape[axis as int] as int;
    let offset = offset_of(full, w, i as int, backward);
    if 0 <= offset < full && w > 0 {
        let count = if w < full - offset {
            w
        } else {
            full - offset
        };
        acc.assign_slice(offset, element, 0, count, axis as int)
    } else {
        acc
    }
}

/// The magnitude of a signed chunk, where the machine can hold it.
pub fn chunk_width(chunk: isize) -> (k: usize)
    ensures
        k == width(chunk),
{
    if chunk >= 0 {
        chunk as usize
    } else {
        let rest: isize = -(chunk + 1);
        (rest as usize) + 1
    }
}

/// Cuts chunk `chunk_ix` out of `input` along `axis`.
pub fn slice_input(input: &Tensor, axis: usize, chunk_ix: usize, chunk_dim: isize) -> (r: Result<
    Tensor,
    ScanError,
>)
    ensures
        input@.wf(),
        match r {
            Ok(t) => can_slice(input@, axis, chunk_dim) && t@.wf() && t@ == chunk_of(
                input@,
                axis,
                chunk_ix,
                chunk_dim,
            ),
            Err(e) => e == ScanError::SliceMismatch && !can_slice(input@, axis, chunk_dim),
        },
{
    let in_shape = input.shape();
    if axis >= in_shape.len() || chunk_dim == 0 || in_shape[axis] == 0 {
        return Err(ScanError::SliceMismatch);
    }
    let k = chunk_width(chunk_dim);
    let full_len = in_shape[axis];
    let mut shape = in_shape.clone();
    shape.set(axis, k);
    let mut t = match Tensor::zeros(input.datum_type(), shape) {
        Some(t) => t,
        None => {
            return Err(ScanError::SliceMismatch);
        },
    };
    let start = match chunk_ix.checked_mul(k) {
        Some(start) => start,
        None => {
            return Ok(t);
        },
    };
    if start >= full_len {
        return Ok(t);
    }
    let remain = full_len - start;
    let count = if remain < k {
        remain
    } else {
        k
    };
    if chunk_dim > 0 {
        t.assign_slice(0, input, start, count, axis);
    } else {
        t.assign_slice(k - count, input, remain - count, count, axis);
    }
    Ok(t)
}

/// Places the element tensor of iteration `i` into the accumulator along
/// `axis`. Where the two tensors differ off the axis nothing is written.
pub fn assign_output(
    output: &mut Tensor,
    axis: usize,
    element_value: &Tensor,
    i: usize,
    backward: bool,
) -> (r: Result<(), ScanError>)
    ensures
        final(output)@.wf(),
        match r {
            Ok(()) => can_place(old(output)@, axis, element_value@) && final(output)@ == placed(
                old(output)@,
                axis,
                element_value@,
                i,
                backward,
            ),
            Err(e) => e == ScanError::SliceMismatch && !can_place(
                old(output)@,
                axis,
                element_value@,
            ) && final(output)@ == old(output)@,
        },
{
    if !output.agrees_off_axis(element_value, axis) {
        let _ = output.shape();
        return Err(ScanError::SliceMismatch);
    }
    let full_len = output.shape()[axis];
    let w = element_value.shape()[axis];
    if w == 0 {
        return Ok(());
    }
    let start = match i.checked_mul(w) {
        Some(start) => start,
        None => {
            return Ok(());
        },
    };
    if start >= full_len {
        return Ok(());
    }
    let offset = if backward {
        full_len - 1 - start
    } else {
        start
    };
    let room = full_len - offset;
    let count = if w < room {
        w
    } else {
        room
    };
    output.assign_slice(offset, element_value, 0, count, axis);
    Ok(())
}

} // verus!
