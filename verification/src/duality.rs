//! Scanning forward and scanning backward mirror each other: what one does
//! to a tensor, the other does to the tensor reversed along the axis.

use crate::driver::body_gives;
use crate::driver::decide;
use crate::driver::reach;
use crate::driver::Decision;
use crate::driver::LoopState;
use crate::driver::RunSetup;
use crate::error::ScanError;
use crate::facts::gather;
use crate::mapping::InputMapping;
use crate::run::absorbed;
use crate::run::body_inputs;
use crate::run::distributed;
use crate::run::input_at;
use crate::run::state_count;
use crate::slicing::available;
use crate::slicing::can_place;
use crate::slicing::can_slice;
use crate::slicing::chunk_of;
use crate::slicing::placed;
use crate::slicing::width;
use crate::tensor::lemma_position_parts;
use crate::tensor::lemma_volume_axis;
use crate::tensor::volume;
use crate::tensor::Tensor;
use crate::tensor::TensorView;
use vstd::prelude::*;

verus! {

/// The tensor with the order of the indices of one axis reversed.
pub open spec fn reversed(t: TensorView, axis: int) -> TensorView {
    TensorView {
        dt: t.dt,
        shape: t.shape,
        data: Seq::new(
            t.data.len(),
            |p: int|
                {
                    let inner = t.inner(axis) as int;
                    let len = t.shape[axis] as int;
                    let q = p / inner;
                    t.at(axis, q / len, len - 1 - q % len, p % inner)
                },
        ),
    }
}

/// The flat position made of a leading position, an index on the axis and
/// a trailing position is taken apart into these three again.
pub proof fn lemma_compose_parts(o: int, a: int, j: int, len: int, inner: int)
    requires
        0 <= o,
        0 <= a < len,
        0 <= j < inner,
    ensures
        ((o * len + a) * inner + j) / inner == o * len + a,
        ((o * len + a) * inner + j) % inner == j,
        (o * len + a) / len == o,
        (o * len + a) % len == a,
        0 <= o * len + a,
        0 <= (o * len + a) * inner + j,
{
    let q = o * len + a;
    assert(0 <= o * len) by (nonlinear_arith)
        requires
            0 <= o,
            0 < len,
    ;
    assert(0 <= q * inner) by (nonlinear_arith)
        requires
            0 <= q,
            0 < inner,
    ;
    vstd::arithmetic::div_mod::lemma_fundamental_div_mod_converse(q * inner + j, inner, q, j);
    vstd::arithmetic::div_mod::lemma_fundamental_div_mod_converse(q, len, o, a);
}

/// Where the shape of a tensor is changed on one axis only, the numbers of
/// positions before and after the axis stay, and the elements are their
/// product times the new length.
pub proof fn lemma_resized_axis(t: TensorView, axis: int, len: usize)
    requires
        0 <= axis < t.shape.len(),
    ensures
        ({
            let r = TensorView { dt: t.dt, shape: t.shape.update(axis, len), data: t.data };
            &&& r.inner(axis) == t.inner(axis)
            &&& r.outer(axis) == t.outer(axis)
            &&& volume(r.shape) == t.outer(axis) * len * t.inner(axis)
            &&& volume(t.shape) == t.outer(axis) * t.shape[axis] * t.inner(axis)
        }),
{
    let shape = t.shape.update(axis, len);
    assert(shape.take(axis) =~= t.shape.take(axis));
    assert(shape.skip(axis + 1) =~= t.shape.skip(axis + 1));
    lemma_volume_axis(shape, axis);
    lemma_volume_axis(t.shape, axis);
}

proof fn lemma_chunk_duality_at(t: TensorView, axis: usize, i: usize, k: isize, p: int)
    requires
        t.wf(),
        k > 0,
        can_slice(t, axis, k),
        0 <= p < volume(t.shape.update(axis as int, k as usize)),
    ensures
        chunk_of(reversed(t, axis as int), axis, i, (-k) as isize).data[p] == reversed(
            chunk_of(t, axis, i, k),
            axis as int,
        ).data[p],
{
    let ax = axis as int;
    let len = t.shape[ax] as int;
    let kk = k as int;
    let inner = t.inner(ax) as int;
    let outer = t.outer(ax) as int;
    let count = available(len, kk, i as int);
    let r = reversed(t, ax);
    let blank = t.zeros_like(ax, k as usize);
    let forward = chunk_of(t, axis, i, k);
    let backward = chunk_of(r, axis, i, (-k) as isize);
    lemma_resized_axis(t, ax, k as usize);
    assert(width(k) == kk);
    assert(width((-k) as isize) == kk);
    assert(r.zeros_like(ax, k as usize) == blank);
    assert(blank.inner(ax) == inner);
    assert(forward.shape == blank.shape);
    assert(forward.inner(ax) == inner);
    assert(r.inner(ax) == inner);
    assert(blank.data.len() == outer * kk * inner);
    assert(t.data.len() == outer * len * inner);
    assert(inner > 0 && outer > 0) by (nonlinear_arith)
        requires
            0 <= p < outer * kk * inner,
            inner >= 0,
            outer >= 0,
            kk > 0,
    ;
    lemma_position_parts(outer, kk, inner, p, kk, 0);
    let q = p / inner;
    let o = q / kk;
    let d = q % kk;
    let j = p % inner;
    // the mirrored position inside the forward chunk
    let m = kk - 1 - d;
    lemma_position_parts(outer, kk, inner, p, kk, m);
    let mirror = (o * kk + m) * inner + j;
    lemma_compose_parts(o, m, j, kk, inner);
    assert(reversed(forward, ax).data[p] == forward.data[mirror]);
    if count == 0 {
        assert(forward == blank);
        assert(backward == blank);
    } else {
        assert(0 < count <= kk && count <= len - i * kk);
        if kk - count <= d {
            let a = d + len - i * kk - kk;
            assert(0 <= a < len);
            lemma_position_parts(outer, kk, inner, p, len, a);
            let source = (o * len + a) * inner + j;
            lemma_compose_parts(o, a, j, len, inner);
            assert(backward.data[p] == r.data[source]);
            let b = len - 1 - a;
            assert(0 <= b < len);
            assert(r.data[source] == t.at(ax, o, b, j));
            assert(m < count);
            assert(forward.data[mirror] == t.at(ax, o, m + i * kk, j));
            assert(b == m + i * kk);
        } else {
            assert(backward.data[p] == blank.data[p]);
            assert(forward.data[mirror] == blank.data[mirror]);
        }
    }
}

/// Cutting chunks backward out of a reversed tensor gives the chunks cut
/// forward out of the tensor, each reversed.
pub proof fn lemma_chunk_duality(t: TensorView, axis: usize, i: usize, k: isize)
    requires
        t.wf(),
        k > 0,
        can_slice(t, axis, k),
    ensures
        chunk_of(reversed(t, axis as int), axis, i, (-k) as isize) == reversed(
            chunk_of(t, axis, i, k),
            axis as int,
        ),
{
    let ax = axis as int;
    let lhs = chunk_of(reversed(t, ax), axis, i, (-k) as isize);
    let rhs = reversed(chunk_of(t, axis, i, k), ax);
    assert(width(k) == k as int);
    assert(width((-k) as isize) == k as int);
    assert(lhs.shape == rhs.shape);
    assert(lhs.dt == rhs.dt);
    assert(lhs.data.len() == volume(t.shape.update(ax, k as usize)));
    assert(rhs.data.len() == volume(t.shape.update(ax, k as usize)));
    assert forall|p: int| 0 <= p < lhs.data.len() implies lhs.data[p] == rhs.data[p] by {
        lemma_chunk_duality_at(t, axis, i, k, p);
    }
    assert(lhs.data =~= rhs.data);
}

proof fn lemma_placed_duality_at(
    acc: TensorView,
    axis: usize,
    element: TensorView,
    i: usize,
    p: int,
)
    requires
        acc.wf(),
        can_place(acc, axis, element),
        element.shape[axis as int] == 1,
        i < acc.shape[axis as int],
        0 <= p < acc.data.len(),
    ensures
        placed(reversed(acc, axis as int), axis, element, i, true).data[p] == reversed(
            placed(acc, axis, element, i, false),
            axis as int,
        ).data[p],
{
    let ax = axis as int;
    let full = acc.shape[ax] as int;
    let inner = acc.inner(ax) as int;
    let outer = acc.outer(ax) as int;
    let r = reversed(acc, ax);
    let forward = placed(acc, axis, element, i, false);
    let backward = placed(r, axis, element, i, true);
    lemma_volume_axis(acc.shape, ax);
    assert(element.shape.skip(ax + 1) =~= acc.shape.skip(ax + 1));
    assert(element.inner(ax) == inner);
    assert(i * 1 == i) by (nonlinear_arith);
    assert(forward == acc.assign_slice(i as int, element, 0, 1, ax));
    assert(backward == r.assign_slice(full - 1 - i, element, 0, 1, ax));
    assert(inner > 0 && outer > 0) by (nonlinear_arith)
        requires
            0 <= p < outer * full * inner,
            inner >= 0,
            outer >= 0,
            full > 0,
    ;
    lemma_position_parts(outer, full, inner, p, full, 0);
    let q = p / inner;
    let o = q / full;
    let a = q % full;
    let j = p % inner;
    let m = full - 1 - a;
    lemma_position_parts(outer, full, inner, p, full, m);
    let mirror = (o * full + m) * inner + j;
    lemma_compose_parts(o, m, j, full, inner);
    assert(reversed(forward, ax).data[p] == forward.data[mirror]);
    assert(r.data[p] == acc.data[mirror]);
}

/// Where the body gives one element per iteration, accumulating backward
/// into a reversed accumulator gives what accumulating forward gives,
/// reversed.
pub proof fn lemma_placed_duality(acc: TensorView, axis: usize, element: TensorView, i: usize)
    requires
        acc.wf(),
        can_place(acc, axis, element),
        element.shape[axis as int] == 1,
    ensures
        placed(reversed(acc, axis as int), axis, element, i, true) == reversed(
            placed(acc, axis, element, i, false),
            axis as int,
        ),
{
    let ax = axis as int;
    let lhs = placed(reversed(acc, ax), axis, element, i, true);
    let rhs = reversed(placed(acc, axis, element, i, false), ax);
    assert(i * 1 == i) by (nonlinear_arith);
    if i < acc.shape[ax] {
        assert forall|p: int| 0 <= p < lhs.data.len() implies lhs.data[p] == rhs.data[p] by {
            lemma_placed_duality_at(acc, axis, element, i, p);
        }
        assert(lhs.data =~= rhs.data);
    }
}

/// A tensor with one index on the axis is its own reverse.
pub proof fn lemma_reversed_unit(e: TensorView, axis: int)
    requires
        e.wf(),
        0 <= axis < e.shape.len(),
        e.shape[axis] == 1,
    ensures
        reversed(e, axis) == e,
{
    let inner = e.inner(axis) as int;
    let outer = e.outer(axis) as int;
    lemma_volume_axis(e.shape, axis);
    let r = reversed(e, axis);
    assert forall|p: int| 0 <= p < e.data.len() implies r.data[p] == e.data[p] by {
        assert(inner > 0 && outer > 0) by (nonlinear_arith)
            requires
                0 <= p < outer * 1 * inner,
                inner >= 0,
                outer >= 0,
        ;
        lemma_position_parts(outer, 1, inner, p, 1, 0);
        let q = p / inner;
        vstd::arithmetic::div_mod::lemma_fundamental_div_mod(p, inner);
        assert(q * 1 == q) by (nonlinear_arith);
        assert(q / 1 == q);
        assert((q * 1 + 0) * inner == inner * q) by (nonlinear_arith);
    }
    assert(r.data =~= e.data);
}

/// The accumulator after `n` iterations of a scan with one scanned input
/// and one accumulated output, whose body is the function `f`.
pub open spec fn scanned(
    f: spec_fn(TensorView) -> TensorView,
    x: TensorView,
    axis: usize,
    chunk: isize,
    acc: TensorView,
    n: nat,
) -> TensorView
    decreases n,
{
    if n == 0 {
        acc
    } else {
        let i = (n - 1) as usize;
        placed(
            scanned(f, x, axis, chunk, acc, (n - 1) as nat),
            axis,
            f(chunk_of(x, axis, i, chunk)),
            i,
            chunk < 0,
        )
    }
}

/// Placing a chunk keeps the shape, the datum type and the number of
/// elements of the accumulator.
pub proof fn lemma_placed_frame(acc: TensorView, axis: usize, element: TensorView, i: usize, backward: bool)
    requires
        acc.wf(),
    ensures
        placed(acc, axis, element, i, backward).wf(),
        placed(acc, axis, element, i, backward).shape == acc.shape,
        placed(acc, axis, element, i, backward).dt == acc.dt,
{
}

/// At iteration `i` the body `f` gives one element that fits the
/// accumulator, and treats the reversed chunk as the chunk reversed.
pub open spec fn axis_local(
    f: spec_fn(TensorView) -> TensorView,
    x: TensorView,
    axis: usize,
    k: isize,
    acc: TensorView,
    i: usize,
) -> bool {
    let c = chunk_of(x, axis, i, k);
    &&& f(reversed(c, axis as int)) == reversed(f(c), axis as int)
    &&& f(c).wf()
    &&& can_place(acc, axis, f(c))
    &&& f(c).shape[axis as int] == 1
}

/// Scanning forward and scanning backward are mirror images. Let the body
/// `f` give one element per iteration and treat a reversed chunk as the
/// chunk reversed. Then `n` iterations backward over the reversed input,
/// into the reversed accumulator, leave the reverse of what `n` iterations
/// forward over the input leave in the accumulator.
pub proof fn lemma_reverse_forward_duality(
    f: spec_fn(TensorView) -> TensorView,
    x: TensorView,
    axis: usize,
    k: isize,
    acc: TensorView,
    n: nat,
)
    requires
        x.wf(),
        acc.wf(),
        k > 0,
        can_slice(x, axis, k),
        n <= usize::MAX,
        forall|i: usize| i < n ==> #[trigger] axis_local(f, x, axis, k, acc, i),
    ensures
        scanned(f, reversed(x, axis as int), axis, (-k) as isize, reversed(acc, axis as int), n)
            == reversed(scanned(f, x, axis, k, acc, n), axis as int),
        scanned(f, x, axis, k, acc, n).wf(),
        scanned(f, x, axis, k, acc, n).shape == acc.shape,
        scanned(f, x, axis, k, acc, n).dt == acc.dt,
    decreases n,
{
    let ax = axis as int;
    if n > 0 {
        let i = (n - 1) as usize;
        assert(axis_local(f, x, axis, k, acc, i));
        lemma_reverse_forward_duality(f, x, axis, k, acc, (n - 1) as nat);
        let before = scanned(f, x, axis, k, acc, (n - 1) as nat);
        let chunk = chunk_of(x, axis, i, k);
        let e = f(chunk);
        lemma_chunk_duality(x, axis, i, k);
        assert(f(reversed(chunk, ax)) == reversed(e, ax));
        lemma_reversed_unit(e, ax);
        lemma_placed_frame(before, axis, e, i, false);
        lemma_placed_duality(before, axis, e, i);
    }
}

/// The outcomes of the first `n` calls of a body that is the function `f`,
/// in a scan with one scanned input and one accumulated output.
pub open spec fn scan_trace(
    f: spec_fn(TensorView) -> TensorView,
    x: TensorView,
    axis: usize,
    chunk: isize,
    n: nat,
) -> Seq<Result<Seq<TensorView>, String>> {
    Seq::new(
        n,
        |i: int| Ok::<Seq<TensorView>, String>(seq![f(chunk_of(x, axis, i as usize, chunk))]),
    )
}

/// A scan with one scanned input and one accumulated output, no hidden
/// state and no exit condition, that scans `x` in `cfg.inputs` along `axis`
/// and accumulates along the same axis in the same direction.
pub open spec fn single_scan(cfg: RunSetup, x: TensorView, axis: usize, chunk: isize) -> bool {
    &&& cfg.im.len() == 1
    &&& cfg.im[0] matches InputMapping::Scan(info)
    &&& info.axis == axis
    &&& info.chunk == chunk
    &&& info.slot < cfg.inputs.len()
    &&& cfg.inputs[info.slot as int] == x
    &&& cfg.om.len() == 1
    &&& cfg.om[0].scan matches Some(out)
    &&& out.slot == 0
    &&& out.axis == axis
    &&& (out.chunk < 0) == (chunk < 0)
    &&& cfg.om[0].last_value_slot.is_none()
    &&& !cfg.om[0].state
    &&& cfg.exit.condition_from_state.is_none()
}

/// The position of the driver after `n` iterations of a run that started
/// at `position`.
pub open spec fn position_after(position: usize, skip: usize, n: nat) -> int {
    if n == 0 {
        position as int
    } else if position < skip {
        skip + n
    } else {
        position + n
    }
}

/// In a scan with one scanned input and one accumulated output, whose body
/// is the function `f`, the loop comes through `n` iterations and leaves in
/// its accumulator what `n` steps of cutting a chunk, applying `f` and
/// placing the result leave.
pub proof fn lemma_single_scan_reach<B: Fn(Vec<Tensor>) -> Result<Vec<Tensor>, String>>(
    cfg: RunSetup,
    body: B,
    f: spec_fn(TensorView) -> TensorView,
    x: TensorView,
    axis: usize,
    chunk: isize,
    s0: LoopState,
    n: nat,
)
    requires
        single_scan(cfg, x, axis, chunk),
        can_slice(x, axis, chunk),
        s0.iteration == 0,
        s0.hidden.len() == 0,
        s0.outputs.len() == 1,
        s0.outputs[0].wf(),
        cfg.iters matches Some(total) && n <= total,
        position_after(s0.position, cfg.skip, n) <= usize::MAX,
        forall|i: usize|
            i < n ==> body_gives(
                body,
                seq![chunk_of(x, axis, i, chunk)],
                Ok::<Seq<TensorView>, String>(seq![#[trigger] f(chunk_of(x, axis, i, chunk))]),
            ) && can_place(s0.outputs[0], axis, f(chunk_of(x, axis, i, chunk))),
    ensures
        reach(cfg, body, s0, scan_trace(f, x, axis, chunk, n)) == Some(
            LoopState {
                position: position_after(s0.position, cfg.skip, n) as usize,
                iteration: n as usize,
                hidden: s0.hidden,
                outputs: seq![scanned(f, x, axis, chunk, s0.outputs[0], n)],
            },
        ),
        scanned(f, x, axis, chunk, s0.outputs[0], n).wf(),
        scanned(f, x, axis, chunk, s0.outputs[0], n).shape == s0.outputs[0].shape,
        scanned(f, x, axis, chunk, s0.outputs[0], n).dt == s0.outputs[0].dt,
    decreases n,
{
    let acc0 = s0.outputs[0];
    if n == 0 {
        assert(s0.outputs =~= seq![acc0]);
        assert(scan_trace(f, x, axis, chunk, 0) =~= Seq::empty());
    } else {
        let i = (n - 1) as usize;
        lemma_single_scan_reach(cfg, body, f, x, axis, chunk, s0, (n - 1) as nat);
        let trace = scan_trace(f, x, axis, chunk, n);
        assert(trace.drop_last() =~= scan_trace(f, x, axis, chunk, (n - 1) as nat));
        let before = scanned(f, x, axis, chunk, acc0, (n - 1) as nat);
        let s = LoopState {
            position: position_after(s0.position, cfg.skip, (n - 1) as nat) as usize,
            iteration: i,
            hidden: s0.hidden,
            outputs: seq![before],
        };
        assert(reach(cfg, body, s0, trace.drop_last()) == Some(s));
        let c = chunk_of(x, axis, i, chunk);
        let e = f(c);
        assert(trace.last() == Ok::<Seq<TensorView>, String>(seq![e]));
        // what the loop decides
        let feed = input_at(cfg.im, cfg.inputs, s.hidden, i);
        assert(cfg.im.take(0) =~= Seq::<InputMapping>::empty());
        assert(state_count(cfg.im.take(0)) == 0);
        assert(feed(0) == Ok::<TensorView, ScanError>(c));
        assert(gather(1, feed) == Ok::<Seq<TensorView>, ScanError>(seq![c])) by {
            reveal_with_fuel(gather, 2);
            assert(Seq::<TensorView>::empty().push(c) =~= seq![c]);
        }
        assert(body_inputs(cfg.im, cfg.inputs, s.hidden, i) == Ok::<Seq<TensorView>, ScanError>(
            seq![c],
        ));
        let position = position_after(s0.position, cfg.skip, n) as usize;
        assert(decide(cfg, s) == Decision::Call(position, seq![c]));
        // what it does with the outcome
        let last = cfg.iters == Some((i + 1) as usize);
        let after = placed(before, axis, e, i, chunk < 0);
        assert(absorbed(cfg.om, seq![e], i, last, seq![before], 1) == Ok::<
            (Seq<TensorView>, Seq<TensorView>),
            ScanError,
        >((seq![after], Seq::<TensorView>::empty()))) by {
            reveal_with_fuel(absorbed, 2);
            assert(seq![before].update(0, after) =~= seq![after]);
        }
        assert(s0.hidden =~= Seq::<TensorView>::empty());
        assert(distributed(cfg.om, seq![e], i, last, s.outputs) == Ok::<
            (Seq<TensorView>, Seq<TensorView>),
            ScanError,
        >((seq![after], s0.hidden)));
        lemma_placed_frame(before, axis, e, i, chunk < 0);
    }
}

/// A scan forward over an input and the scan backward over the reversed
/// input mirror each other. Let both have one scanned input and one
/// accumulated output along the same axis, chunks of the same width, and
/// the same body, which is the function `f`, gives one element per
/// iteration and treats a reversed chunk as the chunk reversed. Then after
/// `n` iterations the accumulator of the backward scan, started from the
/// reversed accumulator, is the reverse of that of the forward scan.
pub proof fn lemma_driver_duality<B: Fn(Vec<Tensor>) -> Result<Vec<Tensor>, String>>(
    forward: RunSetup,
    backward: RunSetup,
    body: B,
    f: spec_fn(TensorView) -> TensorView,
    x: TensorView,
    axis: usize,
    k: isize,
    from: LoopState,
    from_reversed: LoopState,
    n: nat,
)
    requires
        k > 0,
        x.wf(),
        can_slice(x, axis, k),
        single_scan(forward, x, axis, k),
        single_scan(backward, reversed(x, axis as int), axis, (-k) as isize),
        from.iteration == 0 && from.hidden.len() == 0 && from.outputs.len() == 1,
        from.outputs[0].wf(),
        from_reversed.iteration == 0 && from_reversed.hidden.len() == 0
            && from_reversed.outputs.len() == 1,
        from_reversed.outputs[0] == reversed(from.outputs[0], axis as int),
        forward.iters matches Some(total) && n <= total,
        backward.iters matches Some(total) && n <= total,
        position_after(from.position, forward.skip, n) <= usize::MAX,
        position_after(from_reversed.position, backward.skip, n) <= usize::MAX,
        forall|i: usize| i < n ==> #[trigger] axis_local(f, x, axis, k, from.outputs[0], i),
        forall|c: TensorView|
            body_gives(body, seq![c], Ok::<Seq<TensorView>, String>(seq![#[trigger] f(c)])),
    ensures
        reach(forward, body, from, scan_trace(f, x, axis, k, n)) matches Some(s) && reach(
            backward,
            body,
            from_reversed,
            scan_trace(f, reversed(x, axis as int), axis, (-k) as isize, n),
        ) matches Some(r) && r.outputs[0] == reversed(s.outputs[0], axis as int),
{
    let ax = axis as int;
    let acc = from.outputs[0];
    let rx = reversed(x, ax);
    let racc = reversed(acc, ax);
    assert(width(k) == k as int);
    assert(width((-k) as isize) == k as int);
    assert(can_slice(rx, axis, (-k) as isize));
    assert forall|i: usize| i < n implies body_gives(
        body,
        seq![chunk_of(x, axis, i, k)],
        Ok::<Seq<TensorView>, String>(seq![#[trigger] f(chunk_of(x, axis, i, k))]),
    ) && can_place(acc, axis, f(chunk_of(x, axis, i, k))) by {
        assert(axis_local(f, x, axis, k, acc, i));
    }
    assert forall|i: usize| i < n implies body_gives(
        body,
        seq![chunk_of(rx, axis, i, (-k) as isize)],
        Ok::<Seq<TensorView>, String>(seq![#[trigger] f(chunk_of(rx, axis, i, (-k) as isize))]),
    ) && can_place(racc, axis, f(chunk_of(rx, axis, i, (-k) as isize))) by {
        assert(axis_local(f, x, axis, k, acc, i));
        lemma_chunk_duality(x, axis, i, k);
        lemma_reversed_unit(f(chunk_of(x, axis, i, k)), ax);
    }
    lemma_single_scan_reach(forward, body, f, x, axis, k, from, n);
    lemma_single_scan_reach(backward, body, f, rx, axis, (-k) as isize, from_reversed, n);
    lemma_reverse_forward_duality(f, x, axis, k, acc, n);
}

} // verus!
