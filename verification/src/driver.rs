//! The driver of one scan: the state it carries from run to run, the loop
//! it runs, and its snapshots.

use crate::dim::SymbolValues;
use crate::dim::TDim;
use crate::error::ScanError;
use crate::facts::fact_views;
use crate::facts::lemma_gather_ok;
use crate::facts::FactView;
use crate::mapping::ExitCondition;
use crate::mapping::InputMapping;
use crate::mapping::OutputMapping;
use crate::op::LirScan;
use crate::op::LirScanOpParams;
use crate::run::all_wf;
use crate::run::allocate_outputs;
use crate::run::allocation;
use crate::run::body_inputs;
use crate::run::count_state_outputs;
use crate::run::count_states;
use crate::run::distribute_outputs;
use crate::run::distributed;
use crate::run::exit_requested;
use crate::run::initial_hidden;
use crate::run::initial_states;
use crate::run::iteration_bound;
use crate::run::lemma_absorbed_len;
use crate::run::max_iterations;
use crate::run::prepare_inputs;
use crate::run::state_count;
use crate::run::state_outputs;
use crate::run::stop_requested;
use crate::run::tensor_at;
use crate::run::views;
use crate::slots::dense;
use crate::slots::slot_uses;
use crate::tensor::Tensor;
use crate::tensor::TensorView;
use std::sync::Arc;
use vstd::prelude::*;

verus! {

/// What a run reads of the session: the integers bound to symbols.
pub struct SessionState {
    pub resolved_symbols: SymbolValues,
}

/// What a driver carries from one run to the next.
pub struct StateView {
    /// How many steps the driver has made, skipped ones included.
    pub position: usize,
    /// The hidden state, one tensor per hidden state of the mappings; empty
    /// before the first run.
    pub hidden: Seq<TensorView>,
}

/// What is fixed for one run: the mappings, the number of steps to skip,
/// the most iterations to make, and the outer inputs.
pub struct RunSetup {
    pub im: Seq<InputMapping>,
    pub om: Seq<OutputMapping<TDim>>,
    pub exit: ExitCondition,
    pub skip: usize,
    pub iters: Option<usize>,
    pub inputs: Seq<TensorView>,
}

/// Where a run stands between two iterations.
pub struct LoopState {
    pub position: usize,
    /// How many times the body has run.
    pub iteration: usize,
    pub hidden: Seq<TensorView>,
    pub outputs: Seq<TensorView>,
}

/// What the loop does next.
pub enum Decision {
    /// It fails.
    Fail(ScanError),
    /// It stops, at this position.
    Stop(usize),
    /// It runs the body on these inputs, at this position.
    Call(usize, Seq<TensorView>),
}

/// What a call of the body came to, by contents.
pub open spec fn outcome_views(y: Result<Vec<Tensor>, String>) -> Result<Seq<TensorView>, String> {
    match y {
        Ok(v) => Ok(views(v@)),
        Err(cause) => Err(cause),
    }
}

/// What a run came to, by contents.
pub open spec fn result_views(r: Result<Vec<Tensor>, ScanError>) -> Result<
    Seq<TensorView>,
    ScanError,
> {
    match r {
        Ok(v) => Ok(views(v@)),
        Err(e) => Err(e),
    }
}

/// `out` is what the body may come to on inputs with the contents `inp`.
pub open spec fn body_gives<B: Fn(Vec<Tensor>) -> Result<Vec<Tensor>, String>>(
    body: B,
    inp: Seq<TensorView>,
    out: Result<Seq<TensorView>, String>,
) -> bool {
    exists|x: Vec<Tensor>, y: Result<Vec<Tensor>, String>|
        #[trigger] call_ensures(body, (x,), y) && views(x@) == inp && outcome_views(y) == out
}

/// How a run starts: the hidden state is built where the driver has none,
/// the hidden states and the state outputs must be as many as the hidden
/// state holds, the number of iterations is settled and the outer outputs
/// are allocated.
pub open spec fn starts(
    im: Seq<InputMapping>,
    om: Seq<OutputMapping<TDim>>,
    exit: ExitCondition,
    skip: usize,
    body: Seq<FactView>,
    start: StateView,
    env: Seq<Option<i64>>,
    inputs: Seq<TensorView>,
) -> Result<(RunSetup, LoopState), ScanError> {
    let first = if start.hidden.len() == 0 {
        initial_states(im, inputs)
    } else {
        Ok(start.hidden)
    };
    match first {
        Err(e) => Err(e),
        Ok(hidden) => if state_outputs(om) != state_count(im) || hidden.len() != state_count(im) {
            Err(ScanError::MappingArity)
        } else {
            match iteration_bound(im, exit, inputs) {
                Err(e) => Err(e),
                Ok(iters) => match allocation(om, body, iters, env) {
                    Err(e) => Err(e),
                    Ok(outputs) => Ok(
                        (
                            RunSetup { im, om, exit, skip, iters, inputs },
                            LoopState { position: start.position, iteration: 0, hidden, outputs },
                        ),
                    ),
                },
            }
        },
    }
}

/// What the loop does from a state. The position first moves past the steps
/// to skip and then by one. The loop stops where the body has run as often
/// as the bound says, or where the exit condition asks for it. Otherwise it
/// runs the body on the inputs of this iteration.
pub open spec fn decide(cfg: RunSetup, s: LoopState) -> Decision {
    let reached = if s.position < cfg.skip {
        cfg.skip
    } else {
        s.position
    };
    if reached == usize::MAX {
        Decision::Fail(ScanError::PositionOverflow)
    } else {
        let position = (reached + 1) as usize;
        if cfg.iters == Some(s.iteration) {
            Decision::Stop(position)
        } else {
            match stop_requested(cfg.exit, s.hidden) {
                Err(e) => Decision::Fail(e),
                Ok(true) => Decision::Stop(position),
                Ok(false) => match body_inputs(cfg.im, cfg.inputs, s.hidden, s.iteration) {
                    Err(e) => Decision::Fail(e),
                    Ok(inp) => Decision::Call(position, inp),
                },
            }
        }
    }
}

/// The state after the body has come to `out` at `position`. A failure of
/// the body fails the run at this iteration. Otherwise the body outputs
/// fill the outer outputs and make the next hidden state; last values are
/// stored where this iteration is the last the bound allows.
pub open spec fn resume(
    cfg: RunSetup,
    s: LoopState,
    position: usize,
    out: Result<Seq<TensorView>, String>,
) -> Result<LoopState, ScanError> {
    match out {
        Err(cause) => Err(ScanError::BodyFailure { iteration: s.iteration, cause }),
        Ok(body_out) => {
            let last = cfg.iters == Some((s.iteration + 1) as usize);
            match distributed(cfg.om, body_out, s.iteration, last, s.outputs) {
                Err(e) => Err(e),
                Ok((outputs, hidden)) => Ok(
                    LoopState {
                        position,
                        iteration: (s.iteration + 1) as usize,
                        hidden,
                        outputs,
                    },
                ),
            }
        },
    }
}

/// The state the loop is in after the body has come, call after call, to
/// the outcomes of `trace`; `None` where the loop would not have made these
/// calls, or the body could not have come to these outcomes.
pub open spec fn reach<B: Fn(Vec<Tensor>) -> Result<Vec<Tensor>, String>>(
    cfg: RunSetup,
    body: B,
    s0: LoopState,
    trace: Seq<Result<Seq<TensorView>, String>>,
) -> Option<LoopState>
    decreases trace.len(),
{
    if trace.len() == 0 {
        Some(s0)
    } else {
        match reach(cfg, body, s0, trace.drop_last()) {
            None => None,
            Some(s) => match decide(cfg, s) {
                Decision::Call(position, inp) => if body_gives(body, inp, trace.last()) {
                    match resume(cfg, s, position, trace.last()) {
                        Ok(next) => Some(next),
                        Err(_) => None,
                    }
                } else {
                    None
                },
                _ => None,
            },
        }
    }
}

/// Whether a run that has reached `s` ends in `r`, leaving the driver in
/// `end`: the loop stops there and returns the outer outputs, or fails
/// there, or runs the body once more and fails on what it comes to. After a
/// failure nothing is said of the driver.
pub open spec fn ends_at<B: Fn(Vec<Tensor>) -> Result<Vec<Tensor>, String>>(
    cfg: RunSetup,
    body: B,
    s: LoopState,
    r: Result<Seq<TensorView>, ScanError>,
    end: StateView,
) -> bool {
    match decide(cfg, s) {
        Decision::Fail(e) => r == Err::<Seq<TensorView>, ScanError>(e),
        Decision::Stop(position) => r == Ok::<Seq<TensorView>, ScanError>(s.outputs) && end == (
            StateView { position, hidden: s.hidden }),
        Decision::Call(position, inp) => exists|out: Result<Seq<TensorView>, String>|
            body_gives(body, inp, out) && #[trigger] resume(cfg, s, position, out) == Err::<
                LoopState,
                ScanError,
            >(r->Err_0) && r.is_err(),
    }
}

/// Whether, for some outcomes of the body, a run from `s0` ends in `r`,
/// leaving the driver in `end`.
pub open spec fn ends<B: Fn(Vec<Tensor>) -> Result<Vec<Tensor>, String>>(
    cfg: RunSetup,
    body: B,
    s0: LoopState,
    r: Result<Seq<TensorView>, ScanError>,
    end: StateView,
) -> bool {
    exists|trace: Seq<Result<Seq<TensorView>, String>>|
        (#[trigger] reach(cfg, body, s0, trace)).is_some() && ends_at(
            cfg,
            body,
            reach(cfg, body, s0, trace).unwrap(),
            r,
            end,
        )
}

/// Whether a run of the operator on `inputs`, by a driver in `start`, may
/// end in `r` and leave the driver in `end`.
pub open spec fn runs<B: Fn(Vec<Tensor>) -> Result<Vec<Tensor>, String>>(
    op: LirScanOpParams<B>,
    start: StateView,
    env: Seq<Option<i64>>,
    inputs: Seq<TensorView>,
    r: Result<Seq<TensorView>, ScanError>,
    end: StateView,
) -> bool {
    match starts(
        op.input_mapping@,
        op.output_mapping@,
        op.exit_condition,
        op.skip,
        fact_views(op.plan.outputs@),
        start,
        env,
        inputs,
    ) {
        Err(e) => r == Err::<Seq<TensorView>, ScanError>(e),
        Ok((cfg, s0)) => ends(cfg, op.plan.run, s0, r, end),
    }
}

/// `Arc::clone` of the standard library: a second handle to the same shared
/// value.
#[verifier::external_body]
fn share<T>(a: &Arc<T>) -> (r: Arc<T>)
    ensures
        r == *a,
{
    Arc::clone(a)
}

/// A copy of a list of tensors.
pub fn clone_tensors(ts: &Vec<Tensor>) -> (r: Vec<Tensor>)
    ensures
        views(r@) == views(ts@),
        all_wf(views(r@)),
{
    let n = ts.len();
    let mut out: Vec<Tensor> = Vec::new();
    let mut k: usize = 0;
    while k < n
        invariant
            n == ts.len(),
            k <= n,
            out@.len() == k,
            forall|j: int| 0 <= j < k ==> out@[j]@ == ts@[j]@ && (#[trigger] out@[j])@.wf(),
        decreases n - k,
    {
        out.push(ts[k].clone());
        k += 1;
    }
    assert(views(out@) =~= views(ts@));
    out
}

/// The driver of a scan.
pub struct State<B> {
    op: Arc<LirScanOpParams<B>>,
    position: usize,
    hidden_state: Vec<Tensor>,
}

/// A snapshot of a driver.
pub struct FrozenState<B> {
    op: Arc<LirScanOpParams<B>>,
    position: usize,
    hidden_state: Vec<Tensor>,
}

impl<B> View for State<B> {
    type V = StateView;

    closed spec fn view(&self) -> StateView {
        StateView { position: self.position, hidden: views(self.hidden_state@) }
    }
}

impl<B> View for FrozenState<B> {
    type V = StateView;

    closed spec fn view(&self) -> StateView {
        StateView { position: self.position, hidden: views(self.hidden_state@) }
    }
}

impl<B> FrozenState<B> {
    /// The parameters the snapshot shares with its driver.
    pub closed spec fn params(&self) -> Arc<LirScanOpParams<B>> {
        self.op
    }

    /// The parameters the snapshot shares with its driver.
    pub fn op(&self) -> (op: &Arc<LirScanOpParams<B>>)
        ensures
            *op == self.params(),
    {
        &self.op
    }

    pub fn position(&self) -> (p: usize)
        ensures
            p == self@.position,
    {
        self.position
    }

    pub fn hidden_state(&self) -> (h: &Vec<Tensor>)
        ensures
            views(h@) == self@.hidden,
    {
        &self.hidden_state
    }

    /// A fresh driver in the state the snapshot was taken in.
    pub fn unfreeze(&self) -> (r: State<B>)
        ensures
            r@ == self@,
            r.params() == self.params(),
    {
        State {
            op: share(&self.op),
            position: self.position,
            hidden_state: clone_tensors(&self.hidden_state),
        }
    }
}

impl<B> State<B> {
    /// The parameters the driver shares with its operator.
    pub closed spec fn params(&self) -> Arc<LirScanOpParams<B>> {
        self.op
    }

    /// A driver that has made no step and holds no hidden state.
    pub fn new(op: Arc<LirScanOpParams<B>>) -> (r: State<B>)
        ensures
            r.params() == op,
            r@ == (StateView { position: 0, hidden: Seq::<TensorView>::empty() }),
    {
        let hidden_state: Vec<Tensor> = Vec::new();
        assert(views(hidden_state@) =~= Seq::<TensorView>::empty());
        State { op, position: 0, hidden_state }
    }

    /// The parameters the driver shares with its operator.
    pub fn op(&self) -> (op: &Arc<LirScanOpParams<B>>)
        ensures
            *op == self.params(),
    {
        &self.op
    }

    pub fn position(&self) -> (p: usize)
        ensures
            p == self@.position,
    {
        self.position
    }

    pub fn hidden_state(&self) -> (h: &Vec<Tensor>)
        ensures
            views(h@) == self@.hidden,
    {
        &self.hidden_state
    }

    /// A snapshot of the driver: its parameters, shared, its position and a
    /// copy of its hidden state.
    pub fn freeze(&self) -> (r: FrozenState<B>)
        ensures
            r@ == self@,
            r.params() == self.params(),
    {
        FrozenState {
            op: share(&self.op),
            position: self.position,
            hidden_state: clone_tensors(&self.hidden_state),
        }
    }
}

impl<B> LirScan<B> {
    /// A fresh driver for the operator.
    pub fn state(&self) -> (r: State<B>)
        ensures
            r.params() == self.0,
            r@ == (StateView { position: 0, hidden: Seq::<TensorView>::empty() }),
    {
        State::new(share(&self.0))
    }
}

impl<B: Fn(Vec<Tensor>) -> Result<Vec<Tensor>, String>> State<B> {
    /// Runs the loop once over the outer inputs and returns the outer
    /// outputs, by ascending slot. The body must accept whatever inputs it
    /// is given.
    pub fn eval(&mut self, session: &SessionState, inputs: Vec<Tensor>) -> (r: Result<
        Vec<Tensor>,
        ScanError,
    >)
        requires
            forall|x: Vec<Tensor>| call_requires(old(self).params().plan.run, (x,)),
        ensures
            final(self).params() == old(self).params(),
            runs(
                *old(self).params(),
                old(self)@,
                session.resolved_symbols.values@,
                views(inputs@),
                result_views(r),
                final(self)@,
            ),
            r matches Ok(outs) ==> outs@.len() == slot_uses(old(self).params().output_mapping@).len()
                && dense(slot_uses(old(self).params().output_mapping@)) && final(self)@.hidden.len()
                == state_count(old(self).params().input_mapping@),
    {
        let op = share(&self.op);
        let ghost im = op.input_mapping@;
        let ghost om = op.output_mapping@;
        let ghost env = session.resolved_symbols.values@;
        let ghost facts = fact_views(op.plan.outputs@);
        let ghost start = self@;
        let ghost setup = starts(
            im,
            om,
            op.exit_condition,
            op.skip,
            facts,
            start,
            env,
            views(inputs@),
        );
        if self.hidden_state.len() == 0 {
            match initial_hidden(&op.input_mapping, &inputs) {
                Ok(hidden) => {
                    self.hidden_state = hidden;
                },
                Err(e) => {
                    return Err(e);
                },
            }
        }
        let n_states = count_states(&op.input_mapping);
        if count_state_outputs(&op.output_mapping) != n_states || self.hidden_state.len()
            != n_states {
            return Err(ScanError::MappingArity);
        }
        let iters = match max_iterations(&op.input_mapping, &op.exit_condition, &inputs) {
            Ok(iters) => iters,
            Err(e) => {
                return Err(e);
            },
        };
        let mut outputs = match allocate_outputs(
            &op.output_mapping,
            &op.plan.outputs,
            iters,
            &session.resolved_symbols,
        ) {
            Ok(outputs) => outputs,
            Err(e) => {
                return Err(e);
            },
        };
        let ghost cfg = RunSetup {
            im,
            om,
            exit: op.exit_condition,
            skip: op.skip,
            iters,
            inputs: views(inputs@),
        };
        let ghost s0 = LoopState {
            position: start.position,
            iteration: 0,
            hidden: views(self.hidden_state@),
            outputs: views(outputs@),
        };
        assert(setup == Ok::<(RunSetup, LoopState), ScanError>((cfg, s0)));
        proof {
            lemma_gather_ok(slot_uses(om).len(), tensor_at(om, facts, iters, env));
        }
        let ghost mut trace: Seq<Result<Seq<TensorView>, String>> = Seq::empty();
        let mut i: usize = 0;
        loop
            invariant
                op == old(self).params(),
                self.params() == old(self).params(),
                forall|x: Vec<Tensor>| call_requires(op.plan.run, (x,)),
                im == op.input_mapping@,
                om == op.output_mapping@,
                cfg == (RunSetup {
                    im,
                    om,
                    exit: op.exit_condition,
                    skip: op.skip,
                    iters,
                    inputs: views(inputs@),
                }),
                starts(
                    im,
                    om,
                    op.exit_condition,
                    op.skip,
                    fact_views(op.plan.outputs@),
                    old(self)@,
                    session.resolved_symbols.values@,
                    views(inputs@),
                ) == Ok::<(RunSetup, LoopState), ScanError>((cfg, s0)),
                i <= self.position,
                outputs@.len() == slot_uses(om).len(),
                dense(slot_uses(om)),
                state_outputs(om) == state_count(im),
                self.hidden_state@.len() == state_count(im),
                reach(cfg, op.plan.run, s0, trace) == Some(
                    LoopState {
                        position: self.position,
                        iteration: i,
                        hidden: views(self.hidden_state@),
                        outputs: views(outputs@),
                    },
                ),
            decreases usize::MAX - self.position,
        {
            let ghost s = LoopState {
                position: self.position,
                iteration: i,
                hidden: views(self.hidden_state@),
                outputs: views(outputs@),
            };
            let reached = if self.position < op.skip {
                op.skip
            } else {
                self.position
            };
            if reached == usize::MAX {
                return Err(ScanError::PositionOverflow);
            }
            self.position = reached + 1;
            let stop = match iters {
                Some(n) => n == i,
                None => false,
            };
            if stop {
                return Ok(outputs);
            }
            match exit_requested(&op.exit_condition, &self.hidden_state) {
                Err(e) => {
                    return Err(e);
                },
                Ok(true) => {
                    return Ok(outputs);
                },
                Ok(false) => {},
            }
            let body_in = match prepare_inputs(&op.input_mapping, &inputs, &self.hidden_state, i) {
                Ok(v) => v,
                Err(e) => {
                    return Err(e);
                },
            };
            let ghost fed = body_in;
            let result = (op.plan.run)(body_in);
            let ghost out = outcome_views(result);
            assert(body_gives(op.plan.run, views(fed@), out)) by {
                assert(call_ensures(op.plan.run, (fed,), result));
            }
            let body_out = match result {
                Ok(v) => v,
                Err(cause) => {
                    return Err(ScanError::BodyFailure { iteration: i, cause });
                },
            };
            let last = match iters {
                Some(n) => n == i + 1,
                None => false,
            };
            let hidden = match distribute_outputs(&op.output_mapping, &mut outputs, &body_out, i, last) {
                Ok(hidden) => hidden,
                Err(e) => {
                    assert(resume(cfg, s, self.position, out) == Err::<LoopState, ScanError>(e));
                    return Err(e);
                },
            };
            proof {
                lemma_absorbed_len(om, views(body_out@), i, last, s.outputs, om.len());
                assert(om.take(om.len() as int) =~= om);
                let next = trace.push(out);
                assert(next.drop_last() =~= trace);
                trace = next;
            }
            self.hidden_state = hidden;
            i += 1;
        }
    }
}

} // verus!
