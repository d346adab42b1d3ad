//! What holds of every scan: of its outer outputs, of its hidden state, of
//! its snapshots, and of the accumulators of a scan whose input does not
//! divide into whole chunks.

use crate::dim::ceil_div;
use crate::dim::TDim;
use crate::driver::body_gives;
use crate::driver::decide;
use crate::driver::ends_at;
use crate::driver::reach;
use crate::driver::resume;
use crate::driver::runs;
use crate::driver::starts;
use crate::driver::Decision;
use crate::driver::FrozenState;
use crate::driver::LoopState;
use crate::driver::RunSetup;
use crate::driver::State;
use crate::driver::StateView;
use crate::error::ScanError;
use crate::facts::fact_views;
use crate::facts::lemma_gather_ok;
use crate::facts::FactView;
use crate::mapping::ExitCondition;
use crate::mapping::InputMapping;
use crate::mapping::OutputMapping;
use crate::op::first_scan;
use crate::op::LirScanOpParams;
use crate::op::user_of;
use crate::run::allocation;
use crate::run::concrete_dims;
use crate::run::distributed;
use crate::run::initial_states;
use crate::run::lemma_absorbed_len;
use crate::run::outer_tensor;
use crate::run::scan_bound;
use crate::run::state_count;
use crate::run::tensor_at;
use crate::slicing::offset_of;
use crate::slicing::placed;
use crate::slicing::width;
use crate::slots::dense;
use crate::slots::filled;
use crate::slots::filled_by;
use crate::slots::slot_uses;
use crate::slots::SlotUse;
use crate::tensor::Tensor;
use crate::tensor::TensorView;
use std::sync::Arc;
use vstd::prelude::*;

verus! {

/// The largest slot among the uses; `-1` where there is none.
pub open spec fn max_slot(uses: Seq<SlotUse>) -> int
    decreases uses.len(),
{
    if uses.len() == 0 {
        -1
    } else {
        let rest = max_slot(uses.drop_last());
        if rest >= uses.last().slot {
            rest
        } else {
            uses.last().slot as int
        }
    }
}

proof fn lemma_max_slot(uses: Seq<SlotUse>)
    ensures
        forall|k: int| 0 <= k < uses.len() ==> (#[trigger] uses[k]).slot <= max_slot(uses),
        uses.len() > 0 ==> exists|k: int| 0 <= k < uses.len() && #[trigger] uses[k].slot == max_slot(
            uses,
        ),
        uses.len() == 0 ==> max_slot(uses) == -1,
    decreases uses.len(),
{
    if uses.len() > 0 {
        let init = uses.drop_last();
        lemma_max_slot(init);
        assert forall|k: int| 0 <= k < uses.len() implies (#[trigger] uses[k]).slot <= max_slot(
            uses,
        ) by {
            if k < init.len() {
                assert(init[k] == uses[k]);
            }
        }
        if max_slot(uses) == uses.last().slot {
            assert(uses[uses.len() - 1].slot == max_slot(uses));
        } else {
            let k = choose|k: int| 0 <= k < init.len() && #[trigger] init[k].slot == max_slot(init);
            assert(uses[k] == init[k]);
        }
    }
}

/// Where the outer output slots are dense, there are as many outer outputs
/// as the largest slot plus one, and every slot below that number is filled
/// by exactly one use.
pub proof fn lemma_output_slot_density(uses: Seq<SlotUse>)
    requires
        dense(uses),
    ensures
        uses.len() == max_slot(uses) + 1,
        forall|s: int| 0 <= s < uses.len() ==> #[trigger] filled(uses, s),
        forall|s: int, k1: int, k2: int|
            filled_by(uses, s, k1) && filled_by(uses, s, k2) ==> k1 == k2,
{
    lemma_max_slot(uses);
    if uses.len() > 0 {
        let top = uses.len() - 1;
        assert(filled(uses, top));
        let k = choose|k: int| filled_by(uses, top, k);
        assert(uses[k].slot <= max_slot(uses));
        let j = choose|j: int| 0 <= j < uses.len() && #[trigger] uses[j].slot == max_slot(uses);
        assert(uses[j].slot < uses.len());
    }
    assert forall|s: int, k1: int, k2: int|
        filled_by(uses, s, k1) && filled_by(uses, s, k2) implies k1 == k2 by {
        if k1 != k2 {
            assert(uses[k1].slot != uses[k2].slot);
        }
    }
}

/// A run that starts allocates one outer output per slot, each made for
/// the use that fills the slot, and the slots are dense.
pub proof fn lemma_outputs_by_slot(
    om: Seq<OutputMapping<TDim>>,
    body: Seq<FactView>,
    iters: Option<usize>,
    env: Seq<Option<i64>>,
)
    ensures
        allocation(om, body, iters, env) matches Ok(outs) ==> dense(slot_uses(om)) && outs.len()
            == max_slot(slot_uses(om)) + 1 && forall|s: int|
            0 <= s < outs.len() ==> outer_tensor(om, body, iters, env, user_of(slot_uses(om), s))
                == Ok::<TensorView, ScanError>(#[trigger] outs[s]),
{
    if allocation(om, body, iters, env).is_ok() {
        lemma_gather_ok(slot_uses(om).len(), tensor_at(om, body, iters, env));
        lemma_output_slot_density(slot_uses(om));
    }
}

/// The hidden state a driver builds on its first run holds one tensor per
/// hidden state among the input mappings.
pub proof fn lemma_initial_states_len(im: Seq<InputMapping>, inputs: Seq<TensorView>)
    ensures
        initial_states(im, inputs) matches Ok(v) ==> v.len() == state_count(im),
    decreases im.len(),
{
    if im.len() > 0 {
        lemma_initial_states_len(im.drop_last(), inputs);
    }
}

/// After every iteration of a run the hidden state holds as many tensors
/// as there are hidden states among the input mappings.
pub proof fn lemma_hidden_state_length<B: Fn(Vec<Tensor>) -> Result<Vec<Tensor>, String>>(
    im: Seq<InputMapping>,
    om: Seq<OutputMapping<TDim>>,
    exit: ExitCondition,
    skip: usize,
    facts: Seq<FactView>,
    start: StateView,
    env: Seq<Option<i64>>,
    inputs: Seq<TensorView>,
    body: B,
    trace: Seq<Result<Seq<TensorView>, String>>,
)
    ensures
        starts(im, om, exit, skip, facts, start, env, inputs) matches Ok((cfg, s0)) ==> (reach(
            cfg,
            body,
            s0,
            trace,
        ) matches Some(s) ==> s.hidden.len() == state_count(im)),
    decreases trace.len(),
{
    if let Ok((cfg, s0)) = starts(im, om, exit, skip, facts, start, env, inputs) {
        if trace.len() > 0 {
            lemma_hidden_state_length(
                im,
                om,
                exit,
                skip,
                facts,
                start,
                env,
                inputs,
                body,
                trace.drop_last(),
            );
            if let Some(s) = reach(cfg, body, s0, trace.drop_last()) {
                if let Ok(body_out) = trace.last() {
                    let last = cfg.iters == Some((s.iteration + 1) as usize);
                    if distributed(om, body_out, s.iteration, last, s.outputs).is_ok() {
                        lemma_absorbed_len(om, body_out, s.iteration, last, s.outputs, om.len());
                        assert(om.take(om.len() as int) =~= om);
                    }
                }
            }
        }
    }
}

/// A driver made from the snapshot of another runs as the other does: on
/// the same inputs, in the same session, each outcome of one is an outcome
/// of the other.
pub proof fn lemma_freeze_unfreeze_identity<B: Fn(Vec<Tensor>) -> Result<Vec<Tensor>, String>>(
    driver: State<B>,
    frozen: FrozenState<B>,
    thawed: State<B>,
    env: Seq<Option<i64>>,
    inputs: Seq<TensorView>,
    r: Result<Seq<TensorView>, ScanError>,
    end: StateView,
)
    requires
        frozen@ == driver@,
        frozen.params() == driver.params(),
        thawed@ == frozen@,
        thawed.params() == frozen.params(),
    ensures
        runs(*driver.params(), driver@, env, inputs, r, end) == runs(
            *thawed.params(),
            thawed@,
            env,
            inputs,
            r,
            end,
        ),
{
}

/// The accumulator of a scanned output whose length is not hinted has, on
/// the scanned axis, the body output's length times the number of chunks
/// of the first scanned input, the short last chunk counted as one.
pub proof fn lemma_ragged_accumulator_length(
    im: Seq<InputMapping>,
    inputs: Seq<TensorView>,
    om: Seq<OutputMapping<TDim>>,
    body: Seq<FactView>,
    env: Seq<Option<i64>>,
    u: SlotUse,
)
    requires
        u.scan,
        u.index < om.len(),
        om[u.index as int].scan.is_some(),
        om[u.index as int].full_dim_hint.is_none(),
        first_scan(im).is_some(),
        scan_bound(im, inputs).is_ok(),
    ensures
        ({
            let info = first_scan(im).unwrap();
            let len = inputs[info.slot as int].shape[info.axis as int];
            let chunks = ceil_div(len as int, width(info.chunk) as int);
            let iters = scan_bound(im, inputs).unwrap();
            &&& iters == Some(chunks as usize)
            &&& outer_tensor(om, body, iters, env, u) matches Ok(t) ==> {
                let axis = om[u.index as int].scan.unwrap().axis as int;
                let body_len = concrete_dims(body[u.index as int].shape, env).unwrap()[axis];
                t.shape[axis] == body_len * (chunks as usize)
            }
        }),
{
}

/// Placing a chunk writes only the indices of the axis from the chunk's
/// offset on, as far as the chunk and the accumulator reach: every element
/// at another index of the axis is left as it was, and so are the shape and
/// the datum type.
pub proof fn lemma_placed_keeps_rest(
    acc: TensorView,
    axis: usize,
    element: TensorView,
    i: usize,
    backward: bool,
    p: int,
)
    requires
        0 <= p < acc.data.len(),
    ensures
        ({
            let after = placed(acc, axis, element, i, backward);
            let full = acc.shape[axis as int] as int;
            let w = element.shape[axis as int] as int;
            let offset = offset_of(full, w, i as int, backward);
            let a = (p / (acc.inner(axis as int) as int)) % full;
            &&& after.shape == acc.shape
            &&& after.dt == acc.dt
            &&& after.data.len() == acc.data.len()
            &&& !(offset <= a < offset + w && a < full) ==> after.data[p] == acc.data[p]
        }),
{
}

/// The body comes to one outcome only on inputs of given contents.
pub open spec fn deterministic<B: Fn(Vec<Tensor>) -> Result<Vec<Tensor>, String>>(body: B) -> bool {
    forall|inp: Seq<TensorView>, o1: Result<Seq<TensorView>, String>, o2: Result<Seq<TensorView>, String>|
        #[trigger] body_gives(body, inp, o1) && #[trigger] body_gives(body, inp, o2) ==> o1 == o2
}

/// A run that has come through the outcomes of `trace` has come through
/// each of its beginnings; and after each beginning but the whole, the loop
/// ran the body and went on with what it came to.
proof fn lemma_reach_prefix<B: Fn(Vec<Tensor>) -> Result<Vec<Tensor>, String>>(
    cfg: RunSetup,
    body: B,
    s0: LoopState,
    trace: Seq<Result<Seq<TensorView>, String>>,
    k: int,
)
    requires
        0 <= k <= trace.len(),
        reach(cfg, body, s0, trace).is_some(),
    ensures
        reach(cfg, body, s0, trace.take(k)).is_some(),
        k < trace.len() ==> (decide(cfg, reach(cfg, body, s0, trace.take(k)).unwrap())
            matches Decision::Call(position, inp) && body_gives(body, inp, trace[k]) && resume(
            cfg,
            reach(cfg, body, s0, trace.take(k)).unwrap(),
            position,
            trace[k],
        ).is_ok()),
    decreases trace.len(),
{
    if k == trace.len() {
        assert(trace.take(k) =~= trace);
    } else {
        let init = trace.drop_last();
        assert(init.take(k) =~= trace.take(k));
        if k == trace.len() - 1 {
            assert(init.take(k) =~= init);
        } else {
            lemma_reach_prefix(cfg, body, s0, init, k);
        }
    }
}

/// With a body that comes to one outcome only, of two runs from the same
/// state the shorter has come through the same outcomes as the longer.
proof fn lemma_traces_agree<B: Fn(Vec<Tensor>) -> Result<Vec<Tensor>, String>>(
    cfg: RunSetup,
    body: B,
    s0: LoopState,
    t1: Seq<Result<Seq<TensorView>, String>>,
    t2: Seq<Result<Seq<TensorView>, String>>,
)
    requires
        deterministic(body),
        t1.len() <= t2.len(),
        reach(cfg, body, s0, t1).is_some(),
        reach(cfg, body, s0, t2).is_some(),
    ensures
        t1 == t2.take(t1.len() as int),
    decreases t2.len(),
{
    if t2.len() == 0 {
        assert(t1 =~= t2.take(0));
    } else if t1.len() < t2.len() {
        lemma_traces_agree(cfg, body, s0, t1, t2.drop_last());
        assert(t2.drop_last().take(t1.len() as int) =~= t2.take(t1.len() as int));
    } else {
        lemma_traces_agree(cfg, body, s0, t1.drop_last(), t2.drop_last());
        assert(t2.drop_last().take(t1.len() - 1) =~= t2.drop_last());
        assert(t1.drop_last() == t2.drop_last());
        let s = reach(cfg, body, s0, t1.drop_last()).unwrap();
        match decide(cfg, s) {
            Decision::Call(position, inp) => {
                assert(body_gives(body, inp, t1.last()));
                assert(body_gives(body, inp, t2.last()));
            },
            _ => {},
        }
        assert(t1 =~= t1.drop_last().push(t1.last()));
        assert(t2 =~= t2.drop_last().push(t2.last()));
        assert(t2.take(t1.len() as int) =~= t2);
    }
}

proof fn lemma_same_end<B: Fn(Vec<Tensor>) -> Result<Vec<Tensor>, String>>(
    cfg: RunSetup,
    body: B,
    s0: LoopState,
    t1: Seq<Result<Seq<TensorView>, String>>,
    t2: Seq<Result<Seq<TensorView>, String>>,
    r1: Result<Seq<TensorView>, ScanError>,
    e1: StateView,
    r2: Result<Seq<TensorView>, ScanError>,
    e2: StateView,
)
    requires
        deterministic(body),
        t1.len() <= t2.len(),
        reach(cfg, body, s0, t1).is_some(),
        reach(cfg, body, s0, t2).is_some(),
        ends_at(cfg, body, reach(cfg, body, s0, t1).unwrap(), r1, e1),
        ends_at(cfg, body, reach(cfg, body, s0, t2).unwrap(), r2, e2),
    ensures
        r1 == r2,
        r1.is_ok() ==> e1 == e2,
{
    lemma_traces_agree(cfg, body, s0, t1, t2);
    let s1 = reach(cfg, body, s0, t1).unwrap();
    if t1.len() < t2.len() {
        lemma_reach_prefix(cfg, body, s0, t2, t1.len() as int);
        match decide(cfg, s1) {
            Decision::Call(position, inp) => {
                let out = choose|out: Result<Seq<TensorView>, String>|
                    body_gives(body, inp, out) && #[trigger] resume(cfg, s1, position, out) == Err::<
                        LoopState,
                        ScanError,
                    >(r1->Err_0) && r1.is_err();
                assert(body_gives(body, inp, t2[t1.len() as int]));
                assert(out == t2[t1.len() as int]);
            },
            _ => {},
        }
    } else {
        assert(t2.take(t1.len() as int) =~= t2);
        match decide(cfg, s1) {
            Decision::Call(position, inp) => {
                let o1 = choose|out: Result<Seq<TensorView>, String>|
                    body_gives(body, inp, out) && #[trigger] resume(cfg, s1, position, out) == Err::<
                        LoopState,
                        ScanError,
                    >(r1->Err_0) && r1.is_err();
                let o2 = choose|out: Result<Seq<TensorView>, String>|
                    body_gives(body, inp, out) && #[trigger] resume(cfg, s1, position, out) == Err::<
                        LoopState,
                        ScanError,
                    >(r2->Err_0) && r2.is_err();
                assert(o1 == o2);
            },
            _ => {},
        }
    }
}

/// With a body that comes to one outcome only, a run has one outcome only:
/// the same driver state, session and inputs give the same result and,
/// where the run succeeds, leave the driver in the same state.
pub proof fn lemma_run_is_a_function<B: Fn(Vec<Tensor>) -> Result<Vec<Tensor>, String>>(
    op: Arc<LirScanOpParams<B>>,
    start: StateView,
    env: Seq<Option<i64>>,
    inputs: Seq<TensorView>,
    r1: Result<Seq<TensorView>, ScanError>,
    e1: StateView,
    r2: Result<Seq<TensorView>, ScanError>,
    e2: StateView,
)
    requires
        deterministic(op.plan.run),
        runs(*op, start, env, inputs, r1, e1),
        runs(*op, start, env, inputs, r2, e2),
    ensures
        r1 == r2,
        r1.is_ok() ==> e1 == e2,
{
    if let Ok((cfg, s0)) = starts(
        op.input_mapping@,
        op.output_mapping@,
        op.exit_condition,
        op.skip,
        fact_views(op.plan.outputs@),
        start,
        env,
        inputs,
    ) {
        let body = op.plan.run;
        let t1 = choose|trace: Seq<Result<Seq<TensorView>, String>>|
            (#[trigger] reach(cfg, body, s0, trace)).is_some() && ends_at(
                cfg,
                body,
                reach(cfg, body, s0, trace).unwrap(),
                r1,
                e1,
            );
        let t2 = choose|trace: Seq<Result<Seq<TensorView>, String>>|
            (#[trigger] reach(cfg, body, s0, trace)).is_some() && ends_at(
                cfg,
                body,
                reach(cfg, body, s0, trace).unwrap(),
                r2,
                e2,
            );
        if t1.len() <= t2.len() {
            lemma_same_end(cfg, body, s0, t1, t2, r1, e1, r2, e2);
        } else {
            lemma_same_end(cfg, body, s0, t2, t1, r2, e2, r1, e1);
        }
    }
}

/// With a body that comes to one outcome only, a driver made from the
/// snapshot of another gives, on the same inputs in the same session, the
/// result the other gives.
pub proof fn lemma_thawed_gives_same_result<B: Fn(Vec<Tensor>) -> Result<Vec<Tensor>, String>>(
    driver: State<B>,
    frozen: FrozenState<B>,
    thawed: State<B>,
    env: Seq<Option<i64>>,
    inputs: Seq<TensorView>,
    r1: Result<Seq<TensorView>, ScanError>,
    e1: StateView,
    r2: Result<Seq<TensorView>, ScanError>,
    e2: StateView,
)
    requires
        frozen@ == driver@,
        frozen.params() == driver.params(),
        thawed@ == frozen@,
        thawed.params() == frozen.params(),
        deterministic(driver.params().plan.run),
        runs(*driver.params(), driver@, env, inputs, r1, e1),
        runs(*thawed.params(), thawed@, env, inputs, r2, e2),
    ensures
        r1 == r2,
        r1.is_ok() ==> e1 == e2,
{
    lemma_run_is_a_function(driver.params(), driver@, env, inputs, r1, e1, r2, e2);
}

} // verus!
