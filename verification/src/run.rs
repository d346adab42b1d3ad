//! One run of the loop, phase by phase: the first hidden state, the number
//! of iterations, the outer outputs as allocated, and what one iteration
//! feeds the body and does with what the body gives back.

use crate::dim::ceil_div;
use crate::dim::lemma_ceil_div;
use crate::dim::SymbolValues;
use crate::dim::TDim;
use crate::error::ScanError;
use crate::facts::fact_views;
use crate::facts::gather;
use crate::facts::lemma_gather_err;
use crate::facts::FactView;
use crate::facts::TypedFact;
use crate::mapping::ExitCondition;
use crate::mapping::InputMapping;
use crate::mapping::OutputMapping;
use crate::mapping::StateInitializer;
use crate::op::find_scan;
use crate::op::first_scan;
use crate::op::lemma_user_of;
use crate::op::user_of;
use crate::slicing::assign_output;
use crate::slicing::can_place;
use crate::slicing::can_slice;
use crate::slicing::chunk_of;
use crate::slicing::chunk_width;
use crate::slicing::placed;
use crate::slicing::slice_input;
use crate::slicing::width;
use crate::slots::collect_uses;
use crate::slots::dense;
use crate::slots::filled_by;
use crate::slots::lemma_uses_in_range;
use crate::slots::orders;
use crate::slots::slot_order;
use crate::slots::slot_uses;
use crate::slots::SlotUse;
use crate::tensor::placeholder;
use crate::tensor::volume;
use crate::tensor::DatumType;
use crate::tensor::Tensor;
use crate::tensor::TensorView;
use vstd::prelude::*;

verus! {

/// The contents of a list of tensors.
pub open spec fn views(ts: Seq<Tensor>) -> Seq<TensorView> {
    Seq::new(ts.len(), |k: int| ts[k]@)
}

/// Every tensor of the list holds one element per position of its shape.
pub open spec fn all_wf(ts: Seq<TensorView>) -> bool {
    forall|k: int| 0 <= k < ts.len() ==> (#[trigger] ts[k]).wf()
}

/// The number of hidden states among the input mappings.
pub open spec fn state_count(im: Seq<InputMapping>) -> nat
    decreases im.len(),
{
    if im.len() == 0 {
        0
    } else {
        state_count(im.drop_last()) + if im.last().is_state() {
            1nat
        } else {
            0nat
        }
    }
}

/// The number of body outputs that are fed back as hidden states.
pub open spec fn state_outputs(om: Seq<OutputMapping<TDim>>) -> nat
    decreases om.len(),
{
    if om.len() == 0 {
        0
    } else {
        state_outputs(om.drop_last()) + if om.last().state {
            1nat
        } else {
            0nat
        }
    }
}

/// The first hidden state: for each hidden state among the mappings, in
/// their order, the outer input it names or the constant it holds.
pub open spec fn initial_states(im: Seq<InputMapping>, inputs: Seq<TensorView>) -> Result<
    Seq<TensorView>,
    ScanError,
>
    decreases im.len(),
{
    if im.len() == 0 {
        Ok(Seq::<TensorView>::empty())
    } else {
        match initial_states(im.drop_last(), inputs) {
            Err(e) => Err(e),
            Ok(v) => match im.last() {
                InputMapping::State { initializer: StateInitializer::FromInput(slot) } => if slot
                    < inputs.len() {
                    Ok(v.push(inputs[slot as int]))
                } else {
                    Err(ScanError::MappingArity)
                },
                InputMapping::State { initializer: StateInitializer::Value(t) } => Ok(v.push(t@)),
                _ => Ok(v),
            },
        }
    }
}

/// A failure met among the first mappings is the failure of all.
pub proof fn lemma_initial_states_err(im: Seq<InputMapping>, inputs: Seq<TensorView>, k: int)
    requires
        0 <= k <= im.len(),
        initial_states(im.take(k), inputs).is_err(),
    ensures
        initial_states(im, inputs) == initial_states(im.take(k), inputs),
    decreases im.len(),
{
    if k < im.len() {
        assert(im.drop_last().take(k) =~= im.take(k));
        lemma_initial_states_err(im.drop_last(), inputs, k);
    } else {
        assert(im.take(k) =~= im);
    }
}

/// Counts the hidden states among the input mappings.
pub fn count_states(im: &Vec<InputMapping>) -> (n: usize)
    ensures
        n == state_count(im@),
{
    let len = im.len();
    let mut n: usize = 0;
    let mut k: usize = 0;
    while k < len
        invariant
            len == im.len(),
            k <= len,
            n == state_count(im@.take(k as int)),
            n <= k,
        decreases len - k,
    {
        proof {
            assert(im@.take(k as int + 1).drop_last() =~= im@.take(k as int));
            assert(im@.take(k as int + 1).last() == im@[k as int]);
        }
        if im[k].as_state().is_some() {
            n += 1;
        }
        k += 1;
    }
    proof {
        assert(im@.take(len as int) =~= im@);
    }
    n
}

/// Counts the body outputs that are fed back as hidden states.
pub fn count_state_outputs(om: &Vec<OutputMapping<TDim>>) -> (n: usize)
    ensures
        n == state_outputs(om@),
{
    let len = om.len();
    let mut n: usize = 0;
    let mut k: usize = 0;
    while k < len
        invariant
            len == om.len(),
            k <= len,
            n == state_outputs(om@.take(k as int)),
            n <= k,
        decreases len - k,
    {
        proof {
            assert(om@.take(k as int + 1).drop_last() =~= om@.take(k as int));
            assert(om@.take(k as int + 1).last() == om@[k as int]);
        }
        if om[k].state {
            n += 1;
        }
        k += 1;
    }
    proof {
        assert(om@.take(len as int) =~= om@);
    }
    n
}

/// Builds the first hidden state from the outer inputs and the constants of
/// the mappings.
pub fn initial_hidden(im: &Vec<InputMapping>, inputs: &Vec<Tensor>) -> (r: Result<
    Vec<Tensor>,
    ScanError,
>)
    ensures
        match r {
            Ok(h) => initial_states(im@, views(inputs@)) == Ok::<Seq<TensorView>, ScanError>(
                views(h@),
            ) && all_wf(views(h@)),
            Err(e) => initial_states(im@, views(inputs@)) == Err::<Seq<TensorView>, ScanError>(e),
        },
{
    let len = im.len();
    let mut hidden: Vec<Tensor> = Vec::new();
    let mut k: usize = 0;
    assert(views(hidden@) =~= Seq::<TensorView>::empty());
    while k < len
        invariant
            len == im.len(),
            k <= len,
            initial_states(im@.take(k as int), views(inputs@)) == Ok::<
                Seq<TensorView>,
                ScanError,
            >(views(hidden@)),
            all_wf(views(hidden@)),
        decreases len - k,
    {
        proof {
            assert(im@.take(k as int + 1).drop_last() =~= im@.take(k as int));
            assert(im@.take(k as int + 1).last() == im@[k as int]);
        }
        let ghost before = views(hidden@);
        match &im[k] {
            InputMapping::State { initializer } => match initializer {
                StateInitializer::FromInput(slot) => {
                    if *slot >= inputs.len() {
                        proof {
                            lemma_initial_states_err(im@, views(inputs@), k as int + 1);
                        }
                        return Err(ScanError::MappingArity);
                    }
                    let t = inputs[*slot].clone();
                    hidden.push(t);
                    assert(views(hidden@) =~= before.push(views(inputs@)[*slot as int]));
                },
                StateInitializer::Value(v) => {
                    let t: Tensor = (**v).clone();
                    hidden.push(t);
                    assert(views(hidden@) =~= before.push(v@));
                },
            },
            _ => {},
        }
        k += 1;
    }
    proof {
        assert(im@.take(len as int) =~= im@);
    }
    Ok(hidden)
}

/// The number of iterations that the first scanned input gives: the length
/// of its axis divided by the chunk width, rounded up.
pub open spec fn scan_bound(im: Seq<InputMapping>, inputs: Seq<TensorView>) -> Result<
    Option<usize>,
    ScanError,
> {
    match first_scan(im) {
        None => Ok(None),
        Some(info) => if info.slot >= inputs.len() {
            Err(ScanError::MappingArity)
        } else {
            let shape = inputs[info.slot as int].shape;
            if info.axis >= shape.len() || info.chunk == 0 || shape[info.axis as int] == 0 {
                Err(ScanError::SliceMismatch)
            } else {
                Ok(Some(ceil_div(shape[info.axis as int] as int, width(info.chunk) as int) as usize))
            }
        },
    }
}

/// The number of iterations that the trip count input asks for: the value of
/// a scalar dimension that is not negative.
pub open spec fn trip_count(exit: ExitCondition, inputs: Seq<TensorView>) -> Result<
    Option<usize>,
    ScanError,
> {
    match exit.trip_count_from_input {
        None => Ok(None),
        Some(slot) => if slot >= inputs.len() {
            Err(ScanError::BadTripCount)
        } else {
            match inputs[slot as int].scalar_of(DatumType::TDim) {
                None => Err(ScanError::BadTripCount),
                Some(v) => if 0 <= v <= usize::MAX {
                    Ok(Some(v as usize))
                } else {
                    Err(ScanError::BadTripCount)
                },
            }
        },
    }
}

/// The most iterations one run makes: the trip count where there is one,
/// else what the first scanned input gives. It is unknown only where an
/// exit condition is there to stop the loop.
pub open spec fn iteration_bound(
    im: Seq<InputMapping>,
    exit: ExitCondition,
    inputs: Seq<TensorView>,
) -> Result<Option<usize>, ScanError> {
    match scan_bound(im, inputs) {
        Err(e) => Err(e),
        Ok(from_scan) => match trip_count(exit, inputs) {
            Err(e) => Err(e),
            Ok(Some(n)) => Ok(Some(n)),
            Ok(None) => if from_scan.is_none() && exit.condition_from_state.is_none() {
                Err(ScanError::MappingArity)
            } else {
                Ok(from_scan)
            },
        },
    }
}

/// Whether the number of iterations is settled before the loop starts: it is
/// known, and no exit condition can cut the loop short.
pub fn trip_count_known_before(exit: &ExitCondition, iters: Option<usize>) -> (r: bool)
    ensures
        r == (exit.condition_from_state.is_none() && iters.is_some()),
{
    exit.condition_from_state.is_none() && iters.is_some()
}

/// The number of iterations that the first scanned input gives.
pub fn bound_from_scan(im: &Vec<InputMapping>, inputs: &Vec<Tensor>) -> (r: Result<
    Option<usize>,
    ScanError,
>)
    ensures
        r == scan_bound(im@, views(inputs@)),
{
    match find_scan(im) {
        None => Ok(None),
        Some(info) => {
            if info.slot >= inputs.len() {
                return Err(ScanError::MappingArity);
            }
            let shape = inputs[info.slot].shape();
            if info.axis >= shape.len() || info.chunk == 0 || shape[info.axis] == 0 {
                return Err(ScanError::SliceMismatch);
            }
            let len = shape[info.axis];
            let k = chunk_width(info.chunk);
            proof {
                lemma_ceil_div(len as int, k as int);
            }
            let q = len / k;
            if len % k == 0 {
                Ok(Some(q))
            } else {
                Ok(Some(q + 1))
            }
        },
    }
}

/// The number of iterations that the trip count input asks for.
pub fn trip_count_of(exit: &ExitCondition, inputs: &Vec<Tensor>) -> (r: Result<
    Option<usize>,
    ScanError,
>)
    ensures
        r == trip_count(*exit, views(inputs@)),
{
    match exit.trip_count_from_input {
        None => Ok(None),
        Some(slot) => {
            if slot >= inputs.len() {
                return Err(ScanError::BadTripCount);
            }
            match inputs[slot].to_scalar(DatumType::TDim) {
                None => Err(ScanError::BadTripCount),
                Some(v) => {
                    if v >= 0 && (v as u64) <= usize::MAX as u64 {
                        Ok(Some(v as usize))
                    } else {
                        Err(ScanError::BadTripCount)
                    }
                },
            }
        },
    }
}

/// The most iterations one run makes.
pub fn max_iterations(im: &Vec<InputMapping>, exit: &ExitCondition, inputs: &Vec<Tensor>) -> (r:
    Result<Option<usize>, ScanError>)
    ensures
        r == iteration_bound(im@, *exit, views(inputs@)),
{
    let from_scan = match bound_from_scan(im, inputs) {
        Ok(n) => n,
        Err(e) => {
            return Err(e);
        },
    };
    match trip_count_of(exit, inputs) {
        Err(e) => Err(e),
        Ok(Some(n)) => Ok(Some(n)),
        Ok(None) => {
            if from_scan.is_none() && exit.condition_from_state.is_none() {
                Err(ScanError::MappingArity)
            } else {
                Ok(from_scan)
            }
        },
    }
}

/// The shape with every dimension resolved to an index under the bindings,
/// where each can be.
pub open spec fn concrete_dims(shape: Seq<TDim>, env: Seq<Option<i64>>) -> Option<Seq<usize>>
    decreases shape.len(),
{
    if shape.len() == 0 {
        Some(Seq::<usize>::empty())
    } else {
        match concrete_dims(shape.drop_last(), env) {
            None => None,
            Some(v) => match shape.last().subst(env).as_index() {
                Some(d) => Some(v.push(d)),
                None => None,
            },
        }
    }
}

/// A shape whose first dimensions cannot be resolved cannot be resolved.
pub proof fn lemma_concrete_dims_none(shape: Seq<TDim>, env: Seq<Option<i64>>, k: int)
    requires
        0 <= k <= shape.len(),
        concrete_dims(shape.take(k), env).is_none(),
    ensures
        concrete_dims(shape, env).is_none(),
    decreases shape.len(),
{
    if k < shape.len() {
        assert(shape.drop_last().take(k) =~= shape.take(k));
        lemma_concrete_dims_none(shape.drop_last(), env, k);
    } else {
        assert(shape.take(k) =~= shape);
    }
}

/// Resolves every dimension of a shape under the bindings.
pub fn resolve_shape(shape: &Vec<TDim>, symbols: &SymbolValues) -> (r: Option<Vec<usize>>)
    ensures
        match r {
            Some(v) => concrete_dims(shape@, symbols.values@) == Some(v@),
            None => concrete_dims(shape@, symbols.values@).is_none(),
        },
{
    let n = shape.len();
    let mut out: Vec<usize> = Vec::new();
    let mut k: usize = 0;
    while k < n
        invariant
            n == shape.len(),
            k <= n,
            concrete_dims(shape@.take(k as int), symbols.values@) == Some(out@),
        decreases n - k,
    {
        proof {
            assert(shape@.take(k as int + 1).drop_last() =~= shape@.take(k as int));
            assert(shape@.take(k as int + 1).last() == shape@[k as int]);
        }
        match shape[k].eval(symbols).to_usize() {
            Some(d) => {
                out.push(d);
            },
            None => {
                proof {
                    lemma_concrete_dims_none(shape@, symbols.values@, k as int + 1);
                }
                return None;
            },
        }
        k += 1;
    }
    proof {
        assert(shape@.take(n as int) =~= shape@);
    }
    Some(out)
}

/// The length of the scanned axis of an accumulated output: the hint where
/// it resolves to an index, else the body output's length times the number
/// of iterations.
pub open spec fn scanning_dim(
    hint: Option<TDim>,
    env: Seq<Option<i64>>,
    body_len: usize,
    iters: Option<usize>,
) -> Option<int> {
    let hinted = match hint {
        Some(h) => h.subst(env).as_index(),
        None => None,
    };
    match hinted {
        Some(d) => Some(d as int),
        None => match iters {
            Some(n) => Some(body_len * n),
            None => None,
        },
    }
}

/// The outer output that one use fills, as allocated before the loop. A
/// last value starts as the placeholder. An accumulated output is all zero;
/// it has the body output's datum type and resolved shape, but for the
/// scanned axis.
pub open spec fn outer_tensor(
    om: Seq<OutputMapping<TDim>>,
    body: Seq<FactView>,
    iters: Option<usize>,
    env: Seq<Option<i64>>,
    u: SlotUse,
) -> Result<TensorView, ScanError> {
    if !u.scan {
        Ok(placeholder())
    } else if u.index >= body.len() {
        Err(ScanError::MappingArity)
    } else {
        match concrete_dims(body[u.index as int].shape, env) {
            None => Err(ScanError::ShapeResolutionFailure),
            Some(shape) => {
                let axis = om[u.index as int].scan.unwrap().axis;
                if axis >= shape.len() {
                    Err(ScanError::SliceMismatch)
                } else {
                    match scanning_dim(
                        om[u.index as int].full_dim_hint,
                        env,
                        shape[axis as int],
                        iters,
                    ) {
                        None => Err(ScanError::ShapeResolutionFailure),
                        Some(d) => if d > usize::MAX || volume(
                            shape.update(axis as int, d as usize),
                        ) > usize::MAX {
                            Err(ScanError::ShapeResolutionFailure)
                        } else {
                            let full = shape.update(axis as int, d as usize);
                            Ok(
                                TensorView {
                                    dt: body[u.index as int].datum_type,
                                    shape: full,
                                    data: Seq::new(volume(full), |p: int| 0i64),
                                },
                            )
                        },
                    }
                }
            },
        }
    }
}

/// For every slot, the outer output at that slot as allocated.
pub open spec fn tensor_at(
    om: Seq<OutputMapping<TDim>>,
    body: Seq<FactView>,
    iters: Option<usize>,
    env: Seq<Option<i64>>,
) -> spec_fn(int) -> Result<TensorView, ScanError> {
    |s: int| outer_tensor(om, body, iters, env, user_of(slot_uses(om), s))
}

/// The outer outputs as allocated before the loop, by ascending slot.
pub open spec fn allocation(
    om: Seq<OutputMapping<TDim>>,
    body: Seq<FactView>,
    iters: Option<usize>,
    env: Seq<Option<i64>>,
) -> Result<Seq<TensorView>, ScanError> {
    if !dense(slot_uses(om)) {
        Err(ScanError::MappingArity)
    } else {
        gather(slot_uses(om).len(), tensor_at(om, body, iters, env))
    }
}

/// Allocates one outer output.
fn allocate_one(
    om: &Vec<OutputMapping<TDim>>,
    body: &Vec<TypedFact>,
    iters: Option<usize>,
    symbols: &SymbolValues,
    u: SlotUse,
) -> (r: Result<Tensor, ScanError>)
    requires
        u.index < om.len(),
        u.scan ==> om[u.index as int].scan.is_some(),
    ensures
        match r {
            Ok(t) => t@.wf() && outer_tensor(om@, fact_views(body@), iters, symbols.values@, u)
                == Ok::<TensorView, ScanError>(t@),
            Err(e) => outer_tensor(om@, fact_views(body@), iters, symbols.values@, u) == Err::<
                TensorView,
                ScanError,
            >(e),
        },
{
    if !u.scan {
        return Ok(Tensor::default());
    }
    if u.index >= body.len() {
        return Err(ScanError::MappingArity);
    }
    let fact = &body[u.index];
    let mut shape = match resolve_shape(&fact.shape, symbols) {
        Some(shape) => shape,
        None => {
            return Err(ScanError::ShapeResolutionFailure);
        },
    };
    let mapping = &om[u.index];
    let axis = match mapping.scan {
        Some(info) => info.axis,
        None => 0,
    };
    if axis >= shape.len() {
        return Err(ScanError::SliceMismatch);
    }
    let hinted = match &mapping.full_dim_hint {
        Some(h) => h.eval(symbols).to_usize(),
        None => None,
    };
    let dim = match hinted {
        Some(d) => d,
        None => match iters {
            Some(n) => match shape[axis].checked_mul(n) {
                Some(d) => d,
                None => {
                    return Err(ScanError::ShapeResolutionFailure);
                },
            },
            None => {
                return Err(ScanError::ShapeResolutionFailure);
            },
        },
    };
    shape.set(axis, dim);
    match Tensor::zeros(fact.datum_type, shape) {
        Some(t) => Ok(t),
        None => Err(ScanError::ShapeResolutionFailure),
    }
}

/// Allocates the outer outputs: zeroed accumulators and placeholders, by
/// ascending slot.
pub fn allocate_outputs(
    om: &Vec<OutputMapping<TDim>>,
    body: &Vec<TypedFact>,
    iters: Option<usize>,
    symbols: &SymbolValues,
) -> (r: Result<Vec<Tensor>, ScanError>)
    ensures
        match r {
            Ok(outs) => all_wf(views(outs@)) && allocation(
                om@,
                fact_views(body@),
                iters,
                symbols.values@,
            ) == Ok::<Seq<TensorView>, ScanError>(views(outs@)),
            Err(e) => allocation(om@, fact_views(body@), iters, symbols.values@) == Err::<
                Seq<TensorView>,
                ScanError,
            >(e),
        },
{
    let uses = collect_uses(om);
    let order = match slot_order(&uses) {
        Some(order) => order,
        None => {
            return Err(ScanError::MappingArity);
        },
    };
    let ghost f = tensor_at(om@, fact_views(body@), iters, symbols.values@);
    let n = uses.len();
    let mut outs: Vec<Tensor> = Vec::new();
    proof {
        assert(om@.len() == om.len());
        lemma_uses_in_range(om@);
        assert(views(outs@) =~= Seq::<TensorView>::empty());
    }
    let mut s: usize = 0;
    while s < n
        invariant
            n == uses@.len(),
            s <= n,
            uses@ == slot_uses(om@),
            dense(uses@),
            orders(order@, uses@),
            f == tensor_at(om@, fact_views(body@), iters, symbols.values@),
            forall|k: int|
                0 <= k < uses@.len() ==> {
                    let u = #[trigger] uses@[k];
                    &&& u.index < om@.len()
                    &&& u.scan ==> (om@[u.index as int].scan matches Some(info) && info.slot
                        == u.slot)
                    &&& !u.scan ==> om@[u.index as int].last_value_slot == Some(u.slot)
                },
            gather(s as nat, f) == Ok::<Seq<TensorView>, ScanError>(views(outs@)),
            all_wf(views(outs@)),
        decreases n - s,
    {
        let u = uses[order[s]];
        proof {
            lemma_user_of(uses@, order@, s as int);
            assert(filled_by(uses@, s as int, order@[s as int] as int));
        }
        let ghost prev = views(outs@);
        match allocate_one(om, body, iters, symbols, u) {
            Ok(t) => {
                assert(f(s as int) == Ok::<TensorView, ScanError>(t@));
                outs.push(t);
                assert(views(outs@) =~= prev.push(t@));
            },
            Err(e) => {
                assert(f(s as int) == Err::<TensorView, ScanError>(e));
                proof {
                    assert(gather((s + 1) as nat, f) == Err::<Seq<TensorView>, ScanError>(e));
                    lemma_gather_err((s + 1) as nat, n as nat, f);
                }
                return Err(e);
            },
        }
        s += 1;
    }
    Ok(outs)
}

/// Whether the exit condition asks the loop to stop: the hidden state it
/// names is a scalar boolean, and it is true. With no condition the loop is
/// never asked to stop.
pub open spec fn stop_requested(exit: ExitCondition, hidden: Seq<TensorView>) -> Result<
    bool,
    ScanError,
> {
    match exit.condition_from_state {
        None => Ok(false),
        Some(idx) => if idx >= hidden.len() {
            Err(ScanError::BadCondition)
        } else {
            match hidden[idx as int].scalar_of(DatumType::Bool) {
                None => Err(ScanError::BadCondition),
                Some(v) => Ok(v != 0),
            }
        },
    }
}

/// Reads the exit condition off the hidden state.
pub fn exit_requested(exit: &ExitCondition, hidden: &Vec<Tensor>) -> (r: Result<bool, ScanError>)
    ensures
        r == stop_requested(*exit, views(hidden@)),
{
    match exit.condition_from_state {
        None => Ok(false),
        Some(idx) => {
            if idx >= hidden.len() {
                return Err(ScanError::BadCondition);
            }
            match hidden[idx].to_scalar(DatumType::Bool) {
                None => Err(ScanError::BadCondition),
                Some(v) => Ok(v != 0),
            }
        },
    }
}

/// The iteration index as the body receives it: a scalar dimension.
pub open spec fn index_tensor(i: usize) -> TensorView {
    TensorView { dt: DatumType::TDim, shape: Seq::<usize>::empty(), data: seq![i as i64] }
}

/// What one mapping feeds the body at iteration `i`: the hidden state of
/// its rank among the hidden states, chunk `i` of a scanned input, a whole
/// outer input, or the iteration index.
pub open spec fn body_input(
    m: InputMapping,
    inputs: Seq<TensorView>,
    hidden: Seq<TensorView>,
    rank: nat,
    i: usize,
) -> Result<TensorView, ScanError> {
    match m {
        InputMapping::State { .. } => if rank < hidden.len() {
            Ok(hidden[rank as int])
        } else {
            Err(ScanError::MappingArity)
        },
        InputMapping::Scan(info) => if info.slot >= inputs.len() {
            Err(ScanError::MappingArity)
        } else if can_slice(inputs[info.slot as int], info.axis, info.chunk) {
            Ok(chunk_of(inputs[info.slot as int], info.axis, i, info.chunk))
        } else {
            Err(ScanError::SliceMismatch)
        },
        InputMapping::Full { slot } => if slot < inputs.len() {
            Ok(inputs[slot as int])
        } else {
            Err(ScanError::MappingArity)
        },
        InputMapping::IterIndex => if i <= i64::MAX {
            Ok(index_tensor(i))
        } else {
            Err(ScanError::PositionOverflow)
        },
    }
}

/// For every input of the body, what it receives at iteration `i`.
pub open spec fn input_at(
    im: Seq<InputMapping>,
    inputs: Seq<TensorView>,
    hidden: Seq<TensorView>,
    i: usize,
) -> spec_fn(int) -> Result<TensorView, ScanError> {
    |m: int| body_input(im[m], inputs, hidden, state_count(im.take(m)), i)
}

/// The inputs of the body at iteration `i`, in the order of the mappings.
/// Hidden states are taken in the order they were stored.
pub open spec fn body_inputs(
    im: Seq<InputMapping>,
    inputs: Seq<TensorView>,
    hidden: Seq<TensorView>,
    i: usize,
) -> Result<Seq<TensorView>, ScanError> {
    gather(im.len(), input_at(im, inputs, hidden, i))
}

/// Builds the inputs of the body for iteration `i`.
pub fn prepare_inputs(
    im: &Vec<InputMapping>,
    inputs: &Vec<Tensor>,
    hidden: &Vec<Tensor>,
    i: usize,
) -> (r: Result<Vec<Tensor>, ScanError>)
    ensures
        match r {
            Ok(v) => all_wf(views(v@)) && body_inputs(im@, views(inputs@), views(hidden@), i)
                == Ok::<Seq<TensorView>, ScanError>(views(v@)),
            Err(e) => body_inputs(im@, views(inputs@), views(hidden@), i) == Err::<
                Seq<TensorView>,
                ScanError,
            >(e),
        },
{
    let n = im.len();
    let ghost f = input_at(im@, views(inputs@), views(hidden@), i);
    let mut out: Vec<Tensor> = Vec::new();
    let mut rank: usize = 0;
    let mut m: usize = 0;
    assert(views(out@) =~= Seq::<TensorView>::empty());
    while m < n
        invariant
            n == im.len(),
            m <= n,
            rank == state_count(im@.take(m as int)),
            rank <= m,
            f == input_at(im@, views(inputs@), views(hidden@), i),
            gather(m as nat, f) == Ok::<Seq<TensorView>, ScanError>(views(out@)),
            all_wf(views(out@)),
        decreases n - m,
    {
        proof {
            assert(im@.take(m as int + 1).drop_last() =~= im@.take(m as int));
            assert(im@.take(m as int + 1).last() == im@[m as int]);
        }
        let made: Result<Tensor, ScanError> = match &im[m] {
            InputMapping::State { .. } => {
                if rank < hidden.len() {
                    let t = hidden[rank].clone();
                    rank += 1;
                    Ok(t)
                } else {
                    Err(ScanError::MappingArity)
                }
            },
            InputMapping::Scan(info) => {
                if info.slot >= inputs.len() {
                    Err(ScanError::MappingArity)
                } else {
                    slice_input(&inputs[info.slot], info.axis, i, info.chunk)
                }
            },
            InputMapping::Full { slot } => {
                if *slot < inputs.len() {
                    Ok(inputs[*slot].clone())
                } else {
                    Err(ScanError::MappingArity)
                }
            },
            InputMapping::IterIndex => {
                if i as u64 <= i64::MAX as u64 {
                    Ok(Tensor::scalar(DatumType::TDim, i as i64))
                } else {
                    Err(ScanError::PositionOverflow)
                }
            },
        };
        let ghost prev = views(out@);
        match made {
            Ok(t) => {
                assert(f(m as int) == Ok::<TensorView, ScanError>(t@));
                out.push(t);
                assert(views(out@) =~= prev.push(t@));
            },
            Err(e) => {
                assert(f(m as int) == Err::<TensorView, ScanError>(e));
                proof {
                    assert(gather((m + 1) as nat, f) == Err::<Seq<TensorView>, ScanError>(e));
                    lemma_gather_err((m + 1) as nat, n as nat, f);
                }
                return Err(e);
            },
        }
        m += 1;
    }
    Ok(out)
}

/// The outer outputs and the next hidden state after one body output has
/// been dealt with: placed into its accumulator where it is accumulated,
/// stored as the last value where this is the last iteration and it has a
/// last-value slot, and appended to the next hidden state where it is fed
/// back.
pub open spec fn absorb_one(
    m: OutputMapping<TDim>,
    v: TensorView,
    i: usize,
    last: bool,
    outs: Seq<TensorView>,
    hidden: Seq<TensorView>,
) -> Result<(Seq<TensorView>, Seq<TensorView>), ScanError> {
    let scanned = match m.scan {
        None => Ok(outs),
        Some(info) => if info.slot >= outs.len() {
            Err(ScanError::MappingArity)
        } else if !can_place(outs[info.slot as int], info.axis, v) {
            Err(ScanError::SliceMismatch)
        } else {
            Ok(
                outs.update(
                    info.slot as int,
                    placed(outs[info.slot as int], info.axis, v, i, info.chunk < 0),
                ),
            )
        },
    };
    match scanned {
        Err(e) => Err(e),
        Ok(o1) => {
            let stored = match m.last_value_slot {
                Some(slot) => if !last {
                    Ok(o1)
                } else if slot >= o1.len() {
                    Err(ScanError::MappingArity)
                } else {
                    Ok(o1.update(slot as int, v))
                },
                None => Ok(o1),
            };
            match stored {
                Err(e) => Err(e),
                Ok(o2) => Ok(
                    (
                        o2,
                        if m.state {
                            hidden.push(v)
                        } else {
                            hidden
                        },
                    ),
                ),
            }
        },
    }
}

/// The outer outputs and the next hidden state after the first `n` body
/// outputs have been dealt with, in their order.
pub open spec fn absorbed(
    om: Seq<OutputMapping<TDim>>,
    body_out: Seq<TensorView>,
    i: usize,
    last: bool,
    outs: Seq<TensorView>,
    n: nat,
) -> Result<(Seq<TensorView>, Seq<TensorView>), ScanError>
    decreases n,
{
    if n == 0 {
        Ok((outs, Seq::<TensorView>::empty()))
    } else {
        match absorbed(om, body_out, i, last, outs, (n - 1) as nat) {
            Err(e) => Err(e),
            Ok((o, h)) => absorb_one(om[n - 1], body_out[n - 1], i, last, o, h),
        }
    }
}

/// The outer outputs and the next hidden state after iteration `i`, given
/// what the body returned. The body must return one tensor per output
/// mapping.
pub open spec fn distributed(
    om: Seq<OutputMapping<TDim>>,
    body_out: Seq<TensorView>,
    i: usize,
    last: bool,
    outs: Seq<TensorView>,
) -> Result<(Seq<TensorView>, Seq<TensorView>), ScanError> {
    if body_out.len() != om.len() {
        Err(ScanError::MappingArity)
    } else {
        absorbed(om, body_out, i, last, outs, om.len())
    }
}

/// A failure met on the first body outputs is the failure of all.
pub proof fn lemma_absorbed_err(
    om: Seq<OutputMapping<TDim>>,
    body_out: Seq<TensorView>,
    i: usize,
    last: bool,
    outs: Seq<TensorView>,
    m: nat,
    n: nat,
)
    requires
        m <= n,
        absorbed(om, body_out, i, last, outs, m).is_err(),
    ensures
        absorbed(om, body_out, i, last, outs, n) == absorbed(om, body_out, i, last, outs, m),
    decreases n,
{
    if m < n {
        lemma_absorbed_err(om, body_out, i, last, outs, m, (n - 1) as nat);
    }
}

/// Dealing with body outputs keeps the number of outer outputs, and stores
/// one hidden state per output that is fed back.
pub proof fn lemma_absorbed_len(
    om: Seq<OutputMapping<TDim>>,
    body_out: Seq<TensorView>,
    i: usize,
    last: bool,
    outs: Seq<TensorView>,
    n: nat,
)
    requires
        n <= om.len(),
    ensures
        absorbed(om, body_out, i, last, outs, n) matches Ok((o, h)) ==> o.len() == outs.len()
            && h.len() == state_outputs(om.take(n as int)),
    decreases n,
{
    if n > 0 {
        lemma_absorbed_len(om, body_out, i, last, outs, (n - 1) as nat);
        assert(om.take(n as int).drop_last() =~= om.take(n - 1));
        assert(om.take(n as int).last() == om[n - 1]);
    } else {
        assert(om.take(0) =~= Seq::<OutputMapping<TDim>>::empty());
    }
}

/// Deals with what the body returned at iteration `i`: fills the outer
/// outputs and gives the next hidden state. After a failure the outer
/// outputs are not to be used.
pub fn distribute_outputs(
    om: &Vec<OutputMapping<TDim>>,
    outputs: &mut Vec<Tensor>,
    body_out: &Vec<Tensor>,
    i: usize,
    last: bool,
) -> (r: Result<Vec<Tensor>, ScanError>)
    ensures
        final(outputs)@.len() == old(outputs)@.len(),
        match r {
            Ok(h) => all_wf(views(h@)) && distributed(
                om@,
                views(body_out@),
                i,
                last,
                views(old(outputs)@),
            ) == Ok::<(Seq<TensorView>, Seq<TensorView>), ScanError>(
                (views(final(outputs)@), views(h@)),
            ),
            Err(e) => distributed(om@, views(body_out@), i, last, views(old(outputs)@)) == Err::<
                (Seq<TensorView>, Seq<TensorView>),
                ScanError,
            >(e),
        },
{
    let n = om.len();
    if body_out.len() != n {
        return Err(ScanError::MappingArity);
    }
    let ghost start = views(outputs@);
    let ghost out_views = views(body_out@);
    let mut hidden: Vec<Tensor> = Vec::new();
    let mut k: usize = 0;
    assert(views(hidden@) =~= Seq::<TensorView>::empty());
    while k < n
        invariant
            n == om.len(),
            n == body_out.len(),
            k <= n,
            start == views(old(outputs)@),
            out_views == views(body_out@),
            outputs@.len() == old(outputs)@.len(),
            all_wf(views(hidden@)),
            absorbed(om@, out_views, i, last, start, k as nat) == Ok::<
                (Seq<TensorView>, Seq<TensorView>),
                ScanError,
            >((views(outputs@), views(hidden@))),
        decreases n - k,
    {
        let mapping = &om[k];
        let v = &body_out[k];
        let ghost o0 = views(outputs@);
        let ghost h0 = views(hidden@);
        let ghost goal = absorb_one(om@[k as int], out_views[k as int], i, last, o0, h0);
        assert(absorbed(om@, out_views, i, last, start, (k + 1) as nat) == goal);
        if let Some(info) = mapping.scan {
            if info.slot >= outputs.len() {
                proof {
                    lemma_absorbed_err(om@, out_views, i, last, start, (k + 1) as nat, n as nat);
                }
                return Err(ScanError::MappingArity);
            }
            let mut acc = outputs[info.slot].clone();
            match assign_output(&mut acc, info.axis, v, i, info.chunk < 0) {
                Ok(()) => {},
                Err(e) => {
                    proof {
                        lemma_absorbed_err(
                            om@,
                            out_views,
                            i,
                            last,
                            start,
                            (k + 1) as nat,
                            n as nat,
                        );
                    }
                    return Err(e);
                },
            }
            outputs.set(info.slot, acc);
            assert(views(outputs@) =~= o0.update(
                info.slot as int,
                placed(o0[info.slot as int], info.axis, out_views[k as int], i, info.chunk < 0),
            ));
        }
        let ghost o1 = views(outputs@);
        if last {
            if let Some(slot) = mapping.last_value_slot {
                if slot >= outputs.len() {
                    proof {
                        lemma_absorbed_err(
                            om@,
                            out_views,
                            i,
                            last,
                            start,
                            (k + 1) as nat,
                            n as nat,
                        );
                    }
                    return Err(ScanError::MappingArity);
                }
                outputs.set(slot, v.clone());
                assert(views(outputs@) =~= o1.update(slot as int, out_views[k as int]));
            }
        }
        if mapping.state {
            hidden.push(v.clone());
            assert(views(hidden@) =~= h0.push(out_views[k as int]));
        }
        k += 1;
    }
    Ok(hidden)
}

} // verus!
