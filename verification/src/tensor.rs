//! Dense integer tensors: a datum type, a shape and row-major data, with the
//! one-axis range copy on which scanning is built.

use vstd::prelude::*;

verus! {

/// The kind of value a tensor holds. Every element is stored as an `i64`;
/// booleans are `0` and `1`, dimensions are their integer value.
#[derive(Debug, Clone, Copy, PartialEq, Eq, Hash, Structural)]
pub enum DatumType {
    Bool,
    I64,
    TDim,
}

/// Number of elements of a tensor of the given shape: the product of its
/// dimensions.
pub open spec fn volume(shape: Seq<usize>) -> nat
    decreases shape.len(),
{
    if shape.len() == 0 {
        1
    } else {
        volume(shape.drop_last()) * (shape.last() as nat)
    }
}

/// Whether every dimension of the shape is at least one.
pub open spec fn all_positive(shape: Seq<usize>) -> bool {
    forall|k: int| 0 <= k < shape.len() ==> shape[k] > 0
}

/// A shape with a zero dimension holds no element, and conversely.
pub proof fn lemma_volume_zero(shape: Seq<usize>)
    ensures
        volume(shape) == 0 <==> !all_positive(shape),
    decreases shape.len(),
{
    if shape.len() > 0 {
        let init = shape.drop_last();
        lemma_volume_zero(init);
        let last = shape.last() as nat;
        assert(volume(shape) == volume(init) * last);
        assert(volume(init) * last == 0 <==> (volume(init) == 0 || last == 0))
            by (nonlinear_arith);
        if !all_positive(init) {
            let k = choose|k: int| 0 <= k < init.len() && !(init[k] > 0);
            assert(shape[k] == init[k]);
        }
        if !all_positive(shape) {
            let k = choose|k: int| 0 <= k < shape.len() && !(shape[k] > 0);
            if k < init.len() {
                assert(init[k] == shape[k]);
            }
        }
    }
}

/// The volume of a shape is the volume of a prefix times that of the rest.
pub proof fn lemma_volume_split(shape: Seq<usize>, k: int)
    requires
        0 <= k <= shape.len(),
    ensures
        volume(shape) == volume(shape.take(k)) * volume(shape.skip(k)),
    decreases shape.len(),
{
    if k == shape.len() {
        assert(shape.take(k) =~= shape);
        assert(shape.skip(k) =~= Seq::<usize>::empty());
        assert(volume(shape.skip(k)) == 1);
        assert(volume(shape) * 1 == volume(shape)) by (nonlinear_arith);
    } else {
        let init = shape.drop_last();
        lemma_volume_split(init, k);
        assert(init.take(k) =~= shape.take(k));
        assert(shape.skip(k).drop_last() =~= init.skip(k));
        assert(shape.skip(k).last() == shape.last());
        let a = volume(shape.take(k));
        let b = volume(init.skip(k));
        let c = shape.last() as nat;
        assert(volume(shape.skip(k)) == b * c);
        assert((a * b) * c == a * (b * c)) by (nonlinear_arith);
    }
}

/// The volume of a shape, split at one axis: what lies before the axis, the
/// axis itself, and what lies after it.
pub proof fn lemma_volume_axis(shape: Seq<usize>, axis: int)
    requires
        0 <= axis < shape.len(),
    ensures
        volume(shape) == volume(shape.take(axis)) * (shape[axis] as nat) * volume(
            shape.skip(axis + 1),
        ),
{
    lemma_volume_split(shape, axis + 1);
    let head = shape.take(axis + 1);
    assert(head.drop_last() =~= shape.take(axis));
    assert(head.last() == shape[axis]);
}

/// The mathematical content of a tensor.
pub struct TensorView {
    pub dt: DatumType,
    pub shape: Seq<usize>,
    pub data: Seq<i64>,
}

impl TensorView {
    /// The data hold exactly one element per position of the shape.
    pub open spec fn wf(self) -> bool {
        self.data.len() == volume(self.shape)
    }

    /// Number of positions before the axis: the product of the leading
    /// dimensions.
    pub open spec fn outer(self, axis: int) -> nat {
        volume(self.shape.take(axis))
    }

    /// Number of elements under one index of the axis: the product of the
    /// trailing dimensions.
    pub open spec fn inner(self, axis: int) -> nat {
        volume(self.shape.skip(axis + 1))
    }

    /// The element at leading position `o`, index `a` along the axis and
    /// trailing position `j`.
    pub open spec fn at(self, axis: int, o: int, a: int, j: int) -> i64 {
        self.data[(o * (self.shape[axis] as int) + a) * (self.inner(axis) as int) + j]
    }

    /// Same datum type, same rank, and the same dimensions everywhere but on
    /// the axis.
    pub open spec fn agrees_off_axis(self, other: TensorView, axis: int) -> bool {
        &&& self.dt == other.dt
        &&& self.shape.len() == other.shape.len()
        &&& 0 <= axis < self.shape.len()
        &&& forall|k: int| 0 <= k < self.shape.len() && k != axis ==> self.shape[k] == other.shape[k]
    }

    /// Whether `count` indices starting at `src_start` of `src` can be copied
    /// over `count` indices starting at `dst_start` of `self` along the axis.
    pub open spec fn can_assign(
        self,
        dst_start: int,
        src: TensorView,
        src_start: int,
        count: int,
        axis: int,
    ) -> bool {
        &&& self.agrees_off_axis(src, axis)
        &&& 0 <= dst_start && 0 <= src_start && 0 <= count
        &&& dst_start + count <= self.shape[axis]
        &&& src_start + count <= src.shape[axis]
    }

    /// The tensor after copying, along the axis, the indices
    /// `src_start..src_start + count` of `src` over the indices
    /// `dst_start..dst_start + count`; everything else is left as it was.
    pub open spec fn assign_slice(
        self,
        dst_start: int,
        src: TensorView,
        src_start: int,
        count: int,
        axis: int,
    ) -> TensorView {
        TensorView {
            dt: self.dt,
            shape: self.shape,
            data: Seq::new(
                self.data.len(),
                |p: int|
                    {
                        let inner = self.inner(axis) as int;
                        let len = self.shape[axis] as int;
                        let q = p / inner;
                        let a = q % len;
                        if dst_start <= a < dst_start + count {
                            src.at(axis, q / len, a - dst_start + src_start, p % inner)
                        } else {
                            self.data[p]
                        }
                    },
            ),
        }
    }

    /// The tensor of the same datum type and shape but for the axis, whose
    /// length is `len`, with every element zero.
    pub open spec fn zeros_like(self, axis: int, len: usize) -> TensorView {
        let shape = self.shape.update(axis, len);
        TensorView { dt: self.dt, shape, data: Seq::new(volume(shape), |p: int| 0i64) }
    }
}

/// Dimensions before `k` multiply to no more than the whole shape does, as
/// long as no dimension is zero.
pub proof fn lemma_prefix_volume_le(shape: Seq<usize>, k: int)
    requires
        0 <= k <= shape.len(),
        all_positive(shape),
    ensures
        volume(shape.take(k)) <= volume(shape),
        volume(shape.skip(k)) <= volume(shape),
        volume(shape.take(k)) >= 1,
        volume(shape.skip(k)) >= 1,
{
    lemma_volume_split(shape, k);
    let head = shape.take(k);
    let tail = shape.skip(k);
    assert(all_positive(head));
    assert(all_positive(tail)) by {
        assert forall|i: int| 0 <= i < tail.len() implies tail[i] > 0 by {
            assert(tail[i] == shape[i + k]);
        }
    }
    lemma_volume_zero(head);
    lemma_volume_zero(tail);
    let a = volume(head);
    let b = volume(tail);
    assert(a >= 1 && b >= 1 ==> a <= a * b && b <= a * b) by (nonlinear_arith);
}

/// The number of elements of a shape, where it fits the machine word.
pub fn shape_volume(shape: &Vec<usize>) -> (r: Option<usize>)
    ensures
        r == (if volume(shape@) <= usize::MAX {
            Some(volume(shape@) as usize)
        } else {
            None
        }),
{
    let n = shape.len();
    let mut k: usize = 0;
    while k < n
        invariant
            n == shape.len(),
            k <= n,
            forall|i: int| 0 <= i < k ==> shape@[i] > 0,
        decreases n - k,
    {
        if shape[k] == 0 {
            proof {
                lemma_volume_zero(shape@);
            }
            return Some(0);
        }
        k += 1;
    }
    assert(all_positive(shape@));
    let mut acc: usize = 1;
    let mut k: usize = 0;
    while k < n
        invariant
            n == shape.len(),
            k <= n,
            all_positive(shape@),
            acc == volume(shape@.take(k as int)),
        decreases n - k,
    {
        let ghost head = shape@.take(k as int + 1);
        proof {
            assert(head.drop_last() =~= shape@.take(k as int));
            assert(head.last() == shape@[k as int]);
            lemma_prefix_volume_le(shape@, k as int + 1);
        }
        match acc.checked_mul(shape[k]) {
            Some(next) => {
                acc = next;
            },
            None => {
                return None;
            },
        }
        k += 1;
    }
    proof {
        assert(shape@.take(n as int) =~= shape@);
    }
    Some(acc)
}

/// An N-dimensional array of integers with a datum type.
#[derive(Debug, PartialEq, Eq)]
pub struct Tensor {
    dt: DatumType,
    shape: Vec<usize>,
    data: Vec<i64>,
}

impl View for Tensor {
    type V = TensorView;

    closed spec fn view(&self) -> TensorView {
        TensorView { dt: self.dt, shape: self.shape@, data: self.data@ }
    }
}

impl Tensor {
    #[verifier::type_invariant]
    spec fn inv(self) -> bool {
        self.data@.len() == volume(self.shape@)
    }

    /// The tensor of the given type and shape with every element zero, or
    /// `None` where the shape has more elements than the machine can index.
    pub fn zeros(dt: DatumType, shape: Vec<usize>) -> (r: Option<Tensor>)
        ensures
            match r {
                Some(t) => volume(shape@) <= usize::MAX && t@.wf() && t@.dt == dt && t@.shape
                    == shape@ && t@.data == Seq::new(volume(shape@), |p: int| 0i64),
                None => volume(shape@) > usize::MAX,
            },
    {
        match shape_volume(&shape) {
            None => None,
            Some(n) => {
                let mut data: Vec<i64> = Vec::new();
                let mut k: usize = 0;
                while k < n
                    invariant
                        k <= n,
                        data@.len() == k,
                        forall|p: int| 0 <= p < k ==> data@[p] == 0i64,
                    decreases n - k,
                {
                    data.push(0);
                    k += 1;
                }
                assert(data@ =~= Seq::new(volume(shape@), |p: int| 0i64));
                Some(Tensor { dt, shape, data })
            },
        }
    }

    /// The tensor of the given type and shape over the given row-major data,
    /// or `None` where the data do not fill the shape exactly.
    pub fn from_vec(dt: DatumType, shape: Vec<usize>, data: Vec<i64>) -> (r: Option<Tensor>)
        ensures
            match r {
                Some(t) => t@.wf() && t@ == (TensorView { dt, shape: shape@, data: data@ }),
                None => data@.len() != volume(shape@),
            },
    {
        let len = data.len();
        match shape_volume(&shape) {
            None => None,
            Some(n) => {
                if n == len {
                    Some(Tensor { dt, shape, data })
                } else {
                    None
                }
            },
        }
    }

    /// The 0-dimensional tensor holding one value.
    pub fn scalar(dt: DatumType, value: i64) -> (t: Tensor)
        ensures
            t@.wf(),
            t@ == (TensorView { dt, shape: Seq::<usize>::empty(), data: seq![value] }),
    {
        let shape: Vec<usize> = Vec::new();
        let mut data: Vec<i64> = Vec::new();
        data.push(value);
        assert(data@ =~= seq![value]);
        assert(volume(shape@) == 1);
        Tensor { dt, shape, data }
    }

    pub fn datum_type(&self) -> (dt: DatumType)
        ensures
            dt == self@.dt,
    {
        self.dt
    }

    pub fn shape(&self) -> (s: &Vec<usize>)
        ensures
            s@ == self@.shape,
            self@.wf(),
    {
        proof {
            use_type_invariant(self);
        }
        &self.shape
    }

    pub fn rank(&self) -> (r: usize)
        ensures
            r == self@.shape.len(),
    {
        self.shape.len()
    }

    /// The elements in row-major order.
    pub fn data(&self) -> (d: &Vec<i64>)
        ensures
            d@ == self@.data,
            self@.wf(),
    {
        proof {
            use_type_invariant(self);
        }
        &self.data
    }

    /// The value of a 0-dimensional tensor of the expected datum type;
    /// `None` for any other tensor.
    pub fn to_scalar(&self, dt: DatumType) -> (r: Option<i64>)
        ensures
            self@.wf(),
            r == self@.scalar_of(dt),
    {
        proof {
            use_type_invariant(self);
        }
        if self.shape.len() == 0 && self.dt == dt {
            assert(volume(self.shape@) == 1);
            Some(self.data[0])
        } else {
            None
        }
    }
}

impl TensorView {
    /// The value of a 0-dimensional tensor of the expected datum type.
    pub open spec fn scalar_of(self, dt: DatumType) -> Option<i64> {
        if self.shape.len() == 0 && self.dt == dt {
            Some(self.data[0])
        } else {
            None
        }
    }
}

impl Clone for Tensor {
    fn clone(&self) -> (r: Self)
        ensures
            r@ == self@,
            r@.wf(),
    {
        proof {
            use_type_invariant(self);
        }
        let shape = self.shape.clone();
        let data = self.data.clone();
        assert(shape@ =~= self.shape@);
        assert(data@ =~= self.data@);
        Tensor { dt: self.dt, shape, data }
    }
}

impl Default for Tensor {
    /// The placeholder tensor: the integer scalar zero.
    fn default() -> (t: Self)
        ensures
            t@ == placeholder(),
            t@.wf(),
    {
        Tensor::scalar(DatumType::I64, 0)
    }
}

/// The placeholder held by an output slot until the loop stores a value.
pub open spec fn placeholder() -> TensorView {
    TensorView { dt: DatumType::I64, shape: Seq::<usize>::empty(), data: seq![0i64] }
}

/// Where a flat position `p` of a tensor with `outer * len * inner`
/// elements is taken apart into leading position, index on the axis and
/// trailing position, each part is in range, and so is the flat position of
/// the same leading and trailing parts in a tensor whose axis has length
/// `other_len`, at any index `b` of that axis.
pub proof fn lemma_position_parts(
    outer: int,
    len: int,
    inner: int,
    p: int,
    other_len: int,
    b: int,
)
    requires
        0 <= p < outer * len * inner,
        0 < len,
        0 < inner,
        0 <= b < other_len,
    ensures
        0 <= (p / inner) / len < outer,
        0 <= (p / inner) % len < len,
        0 <= p % inner < inner,
        0 <= ((p / inner) / len) * other_len,
        0 <= ((p / inner) / len) * other_len + b,
        0 <= (((p / inner) / len) * other_len + b) * inner,
        0 <= (((p / inner) / len) * other_len + b) * inner + p % inner < outer * other_len * inner,
        ((p / inner) / len) * other_len + b <= (((p / inner) / len) * other_len + b) * inner,
{
    let q = p / inner;
    let o = q / len;
    assert(0 <= outer) by (nonlinear_arith)
        requires
            0 <= p < outer * len * inner,
            0 < len,
            0 < inner,
    ;
    assert(outer * len * inner == inner * (outer * len)) by (nonlinear_arith);
    assert(outer * len == len * outer) by (nonlinear_arith);
    assert(0 <= outer * len) by (nonlinear_arith)
        requires
            0 <= outer,
            0 < len,
    ;
    vstd::arithmetic::div_mod::lemma_multiply_divide_lt(p, inner, outer * len);
    vstd::arithmetic::div_mod::lemma_div_pos_is_pos(p, inner);
    vstd::arithmetic::div_mod::lemma_multiply_divide_lt(q, len, outer);
    vstd::arithmetic::div_mod::lemma_div_pos_is_pos(q, len);
    vstd::arithmetic::div_mod::lemma_mod_bound(q, len);
    vstd::arithmetic::div_mod::lemma_mod_bound(p, inner);
    let j = p % inner;
    assert(0 <= o * other_len && 0 <= (o * other_len + b) * inner && (o * other_len + b) * inner
        + j < outer * other_len * inner && o * other_len + b <= (o * other_len + b) * inner)
        by (nonlinear_arith)
        requires
            0 <= o < outer,
            0 <= b < other_len,
            0 <= j < inner,
    ;
}

/// The product of the dimensions after the axis.
fn trailing_size(shape: &Vec<usize>, axis: usize) -> (r: usize)
    requires
        axis < shape.len(),
        all_positive(shape@),
        volume(shape@) <= usize::MAX,
    ensures
        r == volume(shape@.skip(axis as int + 1)),
        r >= 1,
{
    let n = shape.len();
    let ghost tail = shape@.skip(axis as int + 1);
    proof {
        lemma_prefix_volume_le(shape@, axis as int + 1);
        assert(all_positive(tail)) by {
            assert forall|i: int| 0 <= i < tail.len() implies tail[i] > 0 by {
                assert(tail[i] == shape@[i + axis + 1]);
            }
        }
    }
    let mut acc: usize = 1;
    let mut k: usize = axis + 1;
    while k < n
        invariant
            n == shape.len(),
            axis + 1 <= k <= n,
            tail == shape@.skip(axis as int + 1),
            all_positive(tail),
            volume(tail) <= usize::MAX,
            acc == volume(tail.take(k - axis - 1)),
        decreases n - k,
    {
        proof {
            let m = k - axis - 1;
            let head = tail.take(m + 1);
            assert(head.drop_last() =~= tail.take(m));
            assert(head.last() == shape@[k as int]);
            lemma_prefix_volume_le(tail, m + 1);
        }
        acc = acc * shape[k];
        k += 1;
    }
    proof {
        assert(tail.take(n - axis - 1) =~= tail);
        lemma_prefix_volume_le(tail, tail.len() as int);
    }
    acc
}

impl Tensor {
    /// Whether the two tensors have the same datum type and rank and the
    /// same dimensions everywhere but on the axis.
    pub fn agrees_off_axis(&self, other: &Tensor, axis: usize) -> (r: bool)
        ensures
            r == self@.agrees_off_axis(other@, axis as int),
    {
        let n = self.shape.len();
        if !(self.dt == other.dt) || n != other.shape.len() || axis >= n {
            return false;
        }
        let mut k: usize = 0;
        while k < n
            invariant
                n == self.shape.len(),
                n == other.shape.len(),
                k <= n,
                forall|i: int| 0 <= i < k && i != axis ==> self.shape@[i] == other.shape@[i],
            decreases n - k,
        {
            if k != axis && self.shape[k] != other.shape[k] {
                return false;
            }
            k += 1;
        }
        true
    }

    /// Copies, along the axis, the indices `src_start..src_start + count` of
    /// `src` over the indices `dst_start..dst_start + count` of this tensor.
    /// Where the two ranges do not fit the two tensors, or the tensors
    /// differ off the axis, nothing is written and the answer is `false`.
    pub fn assign_slice(
        &mut self,
        dst_start: usize,
        src: &Tensor,
        src_start: usize,
        count: usize,
        axis: usize,
    ) -> (ok: bool)
        ensures
            ok == old(self)@.can_assign(
                dst_start as int,
                src@,
                src_start as int,
                count as int,
                axis as int,
            ),
            ok ==> final(self)@ == old(self)@.assign_slice(
                dst_start as int,
                src@,
                src_start as int,
                count as int,
                axis as int,
            ),
            !ok ==> final(self)@ == old(self)@,
            final(self)@.wf(),
            src@.wf(),
    {
        proof {
            use_type_invariant(&*self);
            use_type_invariant(src);
        }
        if !self.agrees_off_axis(src, axis) {
            return false;
        }
        let dlen = self.shape[axis];
        let slen = src.shape[axis];
        if count > dlen || dst_start > dlen - count || count > slen || src_start > slen - count {
            return false;
        }
        let n = self.data.len();
        let ghost before = self@;
        let ghost after = before.assign_slice(
            dst_start as int,
            src@,
            src_start as int,
            count as int,
            axis as int,
        );
        if n == 0 || count == 0 {
            assert(after.data =~= before.data);
            return true;
        }
        proof {
            lemma_volume_zero(self.shape@);
            lemma_volume_axis(self.shape@, axis as int);
            lemma_volume_axis(src.shape@, axis as int);
            assert(src.shape@.take(axis as int) =~= self.shape@.take(axis as int));
            assert(src.shape@.skip(axis as int + 1) =~= self.shape@.skip(axis as int + 1));
        }
        let inner = trailing_size(&self.shape, axis);
        let ghost outer = before.outer(axis as int);
        let src_n = src.data.len();
        let mut data: Vec<i64> = Vec::new();
        let mut p: usize = 0;
        while p < n
            invariant
                p <= n,
                src_n == src.data@.len(),
                n == self.data@.len(),
                data@.len() == p,
                self@ == before,
                axis < before.shape.len(),
                before.shape.len() == src@.shape.len(),
                n == outer * dlen * inner,
                src.data@.len() == outer * slen * inner,
                inner == before.inner(axis as int),
                inner == src@.inner(axis as int),
                inner >= 1,
                dlen == before.shape[axis as int],
                dlen >= 1,
                slen == src@.shape[axis as int],
                dst_start + count <= dlen,
                src_start + count <= slen,
                after == before.assign_slice(
                    dst_start as int,
                    src@,
                    src_start as int,
                    count as int,
                    axis as int,
                ),
                forall|q: int| 0 <= q < p ==> data@[q] == after.data[q],
            decreases n - p,
        {
            let q = p / inner;
            let a = q % dlen;
            if a >= dst_start && a - dst_start < count {
                let b = a - dst_start + src_start;
                proof {
                    lemma_position_parts(
                        outer as int,
                        dlen as int,
                        inner as int,
                        p as int,
                        slen as int,
                        b as int,
                    );
                }
                let o = q / dlen;
                let at = (o * slen + b) * inner + p % inner;
                data.push(src.data[at]);
            } else {
                data.push(self.data[p]);
            }
            p += 1;
        }
        assert(data@ =~= after.data);
        self.data = data;
        true
    }
}

} // verus!
