//! The scan operator: its parameters, and what it tells the surrounding
//! graph at compile time.

use crate::dim::TDim;
use crate::error::ScanError;
use crate::facts::clone_shape;
use crate::facts::fact_views;
use crate::facts::gather;
use crate::facts::lemma_gather_err;
use crate::facts::FactView;
use crate::facts::TypedFact;
use crate::mapping::ExitCondition;
use crate::mapping::InputMapping;
use crate::mapping::OutputMapping;
use crate::mapping::ScanInfo;
use crate::slicing::chunk_width;
use crate::slicing::width;
use crate::slots::collect_uses;
use crate::slots::dense;
use crate::slots::filled_by;
use crate::slots::lemma_uses_in_range;
use crate::slots::orders;
use crate::slots::slot_order;
use crate::slots::slot_uses;
use crate::slots::SlotUse;
use crate::tensor::DatumType;
use std::sync::Arc;
use vstd::prelude::*;

verus! {

/// What the operator reads of the compiled body: how to run it once, and the
/// facts of its outputs.
pub struct BodyPlan<B> {
    /// Runs the body once on its inputs.
    pub run: B,
    /// One fact per output of the body.
    pub outputs: Vec<TypedFact>,
}

/// The parameters of a scan. They never change once built, and are shared by
/// the operator and its drivers.
pub struct LirScanOpParams<B> {
    /// How many first steps of the driver run no body.
    pub skip: usize,
    pub plan: Arc<BodyPlan<B>>,
    /// One mapping per input of the body.
    pub input_mapping: Vec<InputMapping>,
    /// One mapping per output of the body.
    pub output_mapping: Vec<OutputMapping<TDim>>,
    pub exit_condition: ExitCondition,
}

impl<B> LirScanOpParams<B> {
    pub fn new(
        skip: usize,
        plan: Arc<BodyPlan<B>>,
        input_mapping: Vec<InputMapping>,
        output_mapping: Vec<OutputMapping<TDim>>,
        exit_condition: ExitCondition,
    ) -> (r: Self)
        ensures
            r.skip == skip,
            r.plan == plan,
            r.input_mapping == input_mapping,
            r.output_mapping == output_mapping,
            r.exit_condition == exit_condition,
    {
        LirScanOpParams { skip, plan, input_mapping, output_mapping, exit_condition }
    }
}

/// The scan operator.
pub struct LirScan<B>(pub Arc<LirScanOpParams<B>>);

/// The first scanned input among the mappings, if there is one.
pub open spec fn first_scan(im: Seq<InputMapping>) -> Option<ScanInfo>
    decreases im.len(),
{
    if im.len() == 0 {
        None
    } else {
        match first_scan(im.drop_last()) {
            Some(s) => Some(s),
            None => im.last().scan(),
        }
    }
}

/// A scanned input found among the first mappings is the first of all.
pub proof fn lemma_first_scan_prefix(im: Seq<InputMapping>, k: int)
    requires
        0 <= k <= im.len(),
        first_scan(im.take(k)).is_some(),
    ensures
        first_scan(im) == first_scan(im.take(k)),
    decreases im.len(),
{
    if k < im.len() {
        assert(im.drop_last().take(k) =~= im.take(k));
        lemma_first_scan_prefix(im.drop_last(), k);
    } else {
        assert(im.take(k) =~= im);
    }
}

/// The number of iterations that the first scanned input gives at compile
/// time: the length of its axis divided by the chunk width, rounded up.
pub open spec fn scan_count(im: Seq<InputMapping>, inputs: Seq<FactView>) -> Result<
    Option<TDim>,
    ScanError,
> {
    match first_scan(im) {
        None => Ok(None),
        Some(info) => if info.slot >= inputs.len() {
            Err(ScanError::MappingArity)
        } else if info.axis >= inputs[info.slot as int].shape.len() || info.chunk == 0 {
            Err(ScanError::SliceMismatch)
        } else {
            Ok(
                Some(
                    TDim::quotient_up(
                        inputs[info.slot as int].shape[info.axis as int],
                        width(info.chunk) as u64,
                    ),
                ),
            )
        },
    }
}

/// The number of iterations known at compile time: the trip count where it
/// is a constant, else what the first scanned input gives.
pub open spec fn known_count(
    im: Seq<InputMapping>,
    exit: ExitCondition,
    inputs: Seq<FactView>,
) -> Result<Option<TDim>, ScanError> {
    match exit.trip_count_from_input {
        Some(e) => if e >= inputs.len() {
            Err(ScanError::BadTripCount)
        } else {
            match inputs[e as int].konst {
                Some(t) => match t.scalar_of(DatumType::TDim) {
                    Some(v) => Ok(Some(TDim::Val(v))),
                    None => Err(ScanError::BadTripCount),
                },
                None => scan_count(im, inputs),
            }
        },
        None => scan_count(im, inputs),
    }
}

/// The use that fills a slot.
pub open spec fn user_of(uses: Seq<SlotUse>, s: int) -> SlotUse {
    uses[choose|k: int| filled_by(uses, s, k)]
}

/// Where the slots are dense, the use that `order` names for a slot is the
/// one that fills it.
pub proof fn lemma_user_of(uses: Seq<SlotUse>, order: Seq<usize>, s: int)
    requires
        dense(uses),
        orders(order, uses),
        0 <= s < uses.len(),
    ensures
        user_of(uses, s) == uses[order[s] as int],
{
    let k = choose|k: int| filled_by(uses, s, k);
    assert(filled_by(uses, s, order[s] as int));
    if k != order[s] as int {
        assert(uses[k].slot != uses[order[s] as int].slot);
    }
}

/// The fact of the outer output that one use fills. A last value has the
/// body output's datum type and shape. An accumulated output has them too,
/// but for the scanned axis: its length is the hint where there is one, else
/// the body output's length times the number of iterations.
pub open spec fn outer_fact(
    om: Seq<OutputMapping<TDim>>,
    body: Seq<FactView>,
    iters: Option<TDim>,
    u: SlotUse,
) -> Result<FactView, ScanError> {
    if u.index >= body.len() {
        Err(ScanError::MappingArity)
    } else {
        let fact = body[u.index as int];
        if !u.scan {
            Ok(FactView { datum_type: fact.datum_type, shape: fact.shape, konst: None })
        } else {
            let axis = om[u.index as int].scan.unwrap().axis;
            if axis >= fact.shape.len() {
                Err(ScanError::SliceMismatch)
            } else {
                match om[u.index as int].full_dim_hint {
                    Some(h) => Ok(
                        FactView {
                            datum_type: fact.datum_type,
                            shape: fact.shape.update(axis as int, h),
                            konst: None,
                        },
                    ),
                    None => match iters {
                        Some(n) => Ok(
                            FactView {
                                datum_type: fact.datum_type,
                                shape: fact.shape.update(
                                    axis as int,
                                    TDim::product(fact.shape[axis as int], n),
                                ),
                                konst: None,
                            },
                        ),
                        None => Err(ScanError::ShapeResolutionFailure),
                    },
                }
            }
        }
    }
}

/// For every slot, the fact of the outer output at that slot.
pub open spec fn fact_at(
    om: Seq<OutputMapping<TDim>>,
    body: Seq<FactView>,
    iters: Option<TDim>,
) -> spec_fn(int) -> Result<FactView, ScanError> {
    |s: int| outer_fact(om, body, iters, user_of(slot_uses(om), s))
}

/// The facts of the outer outputs, by ascending slot.
pub open spec fn outer_facts(
    im: Seq<InputMapping>,
    om: Seq<OutputMapping<TDim>>,
    body: Seq<FactView>,
    inputs: Seq<FactView>,
) -> Result<Seq<FactView>, ScanError> {
    match scan_count(im, inputs) {
        Err(e) => Err(e),
        Ok(iters) => {
            let uses = slot_uses(om);
            if !dense(uses) {
                Err(ScanError::MappingArity)
            } else {
                gather(uses.len(), fact_at(om, body, iters))
            }
        },
    }
}

/// The first scanned input among the mappings.
pub fn find_scan(im: &Vec<InputMapping>) -> (r: Option<ScanInfo>)
    ensures
        r == first_scan(im@),
{
    let n = im.len();
    let mut k: usize = 0;
    while k < n
        invariant
            n == im.len(),
            k <= n,
            first_scan(im@.take(k as int)).is_none(),
        decreases n - k,
    {
        proof {
            assert(im@.take(k as int + 1).drop_last() =~= im@.take(k as int));
            assert(im@.take(k as int + 1).last() == im@[k as int]);
        }
        if let Some(info) = im[k].as_scan() {
            proof {
                lemma_first_scan_prefix(im@, k as int + 1);
            }
            return Some(*info);
        }
        k += 1;
    }
    proof {
        assert(im@.take(n as int) =~= im@);
    }
    None
}

/// The number of iterations that the first scanned input gives.
pub fn count_from_scan(im: &Vec<InputMapping>, inputs: &Vec<TypedFact>) -> (r: Result<
    Option<TDim>,
    ScanError,
>)
    ensures
        r == scan_count(im@, fact_views(inputs@)),
{
    match find_scan(im) {
        None => Ok(None),
        Some(info) => {
            if info.slot >= inputs.len() {
                return Err(ScanError::MappingArity);
            }
            let fact = &inputs[info.slot];
            if info.axis >= fact.shape.len() || info.chunk == 0 {
                return Err(ScanError::SliceMismatch);
            }
            let dim = fact.shape[info.axis].clone();
            let k = chunk_width(info.chunk);
            Ok(Some(dim.div_ceil(k as u64)))
        },
    }
}

impl<B> LirScan<B> {
    pub fn new(params: Arc<LirScanOpParams<B>>) -> (r: Self)
        ensures
            r.0 == params,
    {
        LirScan(params)
    }

    /// The parameters of the operator.
    pub fn params(&self) -> (p: &LirScanOpParams<B>)
        ensures
            *p == *self.0,
    {
        &self.0
    }

    pub fn name(&self) -> (s: &'static str)
        ensures
            s@ == "Scan"@,
    {
        "Scan"
    }

    /// A scan carries state from one run to the next.
    pub fn is_stateless(&self) -> (b: bool)
        ensures
            !b,
    {
        false
    }

    /// The number of iterations, as far as the facts of the outer inputs
    /// tell it.
    pub fn iteration_count(&self, inputs: &Vec<TypedFact>) -> (r: Result<Option<TDim>, ScanError>)
        ensures
            r == known_count(
                self.0.input_mapping@,
                self.0.exit_condition,
                fact_views(inputs@),
            ),
    {
        if let Some(e) = self.0.exit_condition.trip_count_from_input {
            if e >= inputs.len() {
                return Err(ScanError::BadTripCount);
            }
            if let Some(t) = &inputs[e].konst {
                return match t.to_scalar(DatumType::TDim) {
                    Some(v) => Ok(Some(TDim::Val(v))),
                    None => Err(ScanError::BadTripCount),
                };
            }
        }
        count_from_scan(&self.0.input_mapping, inputs)
    }

    /// The facts of the outer outputs, by ascending slot, from the facts of
    /// the outer inputs.
    pub fn output_facts(&self, inputs: &Vec<TypedFact>) -> (r: Result<Vec<TypedFact>, ScanError>)
        ensures
            match r {
                Ok(facts) => outer_facts(
                    self.0.input_mapping@,
                    self.0.output_mapping@,
                    fact_views(self.0.plan.outputs@),
                    fact_views(inputs@),
                ) == Ok::<Seq<FactView>, ScanError>(fact_views(facts@)),
                Err(e) => outer_facts(
                    self.0.input_mapping@,
                    self.0.output_mapping@,
                    fact_views(self.0.plan.outputs@),
                    fact_views(inputs@),
                ) == Err::<Seq<FactView>, ScanError>(e),
            },
    {
        let op = &self.0;
        let iters = match count_from_scan(&op.input_mapping, inputs) {
            Ok(iters) => iters,
            Err(e) => {
                return Err(e);
            },
        };
        let uses = collect_uses(&op.output_mapping);
        let order = match slot_order(&uses) {
            Some(order) => order,
            None => {
                return Err(ScanError::MappingArity);
            },
        };
        let ghost om = op.output_mapping@;
        let ghost body = fact_views(op.plan.outputs@);
        let ghost f = fact_at(om, body, iters);
        let n = uses.len();
        let mut facts: Vec<TypedFact> = Vec::new();
        proof {
            assert(om.len() == op.output_mapping.len());
            lemma_uses_in_range(om);
            assert(fact_views(facts@) =~= Seq::<FactView>::empty());
        }
        let mut s: usize = 0;
        while s < n
            invariant
                n == uses@.len(),
                s <= n,
                uses@ == slot_uses(om),
                om == op.output_mapping@,
                body == fact_views(op.plan.outputs@),
                dense(uses@),
                orders(order@, uses@),
                f == fact_at(om, body, iters),
                *op == self.0,
                scan_count(op.input_mapping@, fact_views(inputs@)) == Ok::<Option<TDim>, ScanError>(
                    iters,
                ),
                forall|k: int|
                    0 <= k < uses@.len() ==> {
                        let u = #[trigger] uses@[k];
                        &&& u.index < om.len()
                        &&& u.scan ==> (om[u.index as int].scan matches Some(info) && info.slot
                            == u.slot)
                        &&& !u.scan ==> om[u.index as int].last_value_slot == Some(u.slot)
                    },
                gather(s as nat, f) == Ok::<Seq<FactView>, ScanError>(fact_views(facts@)),
            decreases n - s,
        {
            let u = uses[order[s]];
            proof {
                lemma_user_of(uses@, order@, s as int);
                assert(filled_by(uses@, s as int, order@[s as int] as int));
            }
            let ghost prev = fact_views(facts@);
            let made: Result<TypedFact, ScanError> = if u.index >= op.plan.outputs.len() {
                Err(ScanError::MappingArity)
            } else {
                let fact = &op.plan.outputs[u.index];
                if !u.scan {
                    Ok(TypedFact::dt_shape(fact.datum_type, clone_shape(&fact.shape)))
                } else {
                    let mapping = &op.output_mapping[u.index];
                    let axis = match mapping.scan {
                        Some(info) => info.axis,
                        None => 0,
                    };
                    if axis >= fact.shape.len() {
                        Err(ScanError::SliceMismatch)
                    } else {
                        let dim = match &mapping.full_dim_hint {
                            Some(h) => Some(h.clone()),
                            None => match &iters {
                                Some(n) => Some(fact.shape[axis].clone().mul(n.clone())),
                                None => None,
                            },
                        };
                        match dim {
                            Some(dim) => {
                                let mut shape = clone_shape(&fact.shape);
                                shape.set(axis, dim);
                                Ok(TypedFact::dt_shape(fact.datum_type, shape))
                            },
                            None => Err(ScanError::ShapeResolutionFailure),
                        }
                    }
                }
            };
            match made {
                Ok(fact) => {
                    assert(f(s as int) == Ok::<FactView, ScanError>(fact@));
                    facts.push(fact);
                    assert(fact_views(facts@) =~= prev.push(fact@));
                },
                Err(e) => {
                    assert(f(s as int) == Err::<FactView, ScanError>(e));
                    proof {
                        assert(gather((s + 1) as nat, f) == Err::<Seq<FactView>, ScanError>(e));
                        lemma_gather_err((s + 1) as nat, n as nat, f);
                    }
                    return Err(e);
                },
            }
            s += 1;
        }
        Ok(facts)
    }
}

} // verus!
