//! From the description of a loop with a trip count, a condition and
//! loop-carried values to the mappings of a scan.

use crate::dim::TDim;
use crate::mapping::ExitCondition;
use crate::mapping::InputMapping;
use crate::mapping::OutputMapping;
use crate::mapping::ScanInfo;
use crate::mapping::StateInitializer;
use crate::run::state_count;
use crate::run::state_outputs;
use crate::slots::dense;
use crate::slots::filled;
use crate::slots::filled_by;
use crate::slots::slot_uses;
use crate::slots::uses_of;
use crate::slots::SlotUse;
use vstd::prelude::*;

verus! {

/// The mappings of a scan that runs a loop.
#[derive(Debug, PartialEq, Eq)]
pub struct LoopMapping {
    pub input_mapping: Vec<InputMapping>,
    pub output_mapping: Vec<OutputMapping<TDim>>,
    pub exit_condition: ExitCondition,
}

/// Why a loop cannot be mapped.
#[derive(Debug, Clone, Copy, PartialEq, Eq, Structural)]
pub enum LoopError {
    /// The trip count or the condition is missing.
    NoExitCondition,
    /// The body does not take as many inputs as the loop feeds it.
    UnmatchedInputs,
    /// The body does not give as many outputs as the loop carries.
    UnmatchedOutputs,
}

/// How many entries at the start of `s` are present.
pub open spec fn leading_present(s: Seq<Option<usize>>) -> nat
    decreases s.len(),
{
    if s.len() == 0 || s[0].is_none() {
        0
    } else {
        1 + leading_present(s.skip(1))
    }
}

/// Where the first `m` entries are present and the next one, if any, is
/// not, `m` entries at the start are present.
pub proof fn lemma_leading_present(s: Seq<Option<usize>>, m: nat)
    requires
        m <= s.len(),
        forall|j: int| 0 <= j < m ==> (#[trigger] s[j]).is_some(),
        m == s.len() || s[m as int].is_none(),
    ensures
        leading_present(s) == m,
    decreases m,
{
    if m > 0 {
        let rest = s.skip(1);
        assert forall|j: int| 0 <= j < m - 1 implies (#[trigger] rest[j]).is_some() by {
            assert(rest[j] == s[j + 1]);
        }
        lemma_leading_present(rest, (m - 1) as nat);
    }
}

/// Whether the loop has both its trip count and its condition.
pub open spec fn has_exit(node_inputs: Seq<Option<usize>>) -> bool {
    node_inputs.len() >= 2 && node_inputs[0].is_some() && node_inputs[1].is_some()
}

/// The number of loop-carried values: the inputs that follow the condition,
/// up to the first that is absent.
pub open spec fn carried(node_inputs: Seq<Option<usize>>) -> nat {
    leading_present(node_inputs.skip(2))
}

/// The input mappings of the loop: the iteration index, the condition as a
/// hidden state, each loop-carried value as a hidden state, and each value
/// captured from outside in full, at the slots that follow.
pub open spec fn loop_inputs(node_inputs: Seq<Option<usize>>, unresolved: nat) -> Seq<
    InputMapping,
> {
    let n = carried(node_inputs);
    Seq::new(
        2 + n + unresolved,
        |k: int|
            if k == 0 {
                InputMapping::IterIndex
            } else if k < 2 + n {
                InputMapping::State {
                    initializer: StateInitializer::FromInput(node_inputs[k].unwrap()),
                }
            } else {
                InputMapping::Full { slot: k as usize }
            },
    )
}

/// The output mappings of the loop: the condition as a hidden state, each
/// loop-carried value as a hidden state whose last value is an outer
/// output, and every other body output accumulated along axis 0, one
/// element per iteration. Outer slots are given in this order.
pub open spec fn loop_outputs(node_inputs: Seq<Option<usize>>, body_outputs: nat) -> Seq<
    OutputMapping<TDim>,
> {
    let n = carried(node_inputs);
    Seq::new(
        body_outputs,
        |k: int|
            if k == 0 {
                OutputMapping { scan: None, last_value_slot: None, state: true, full_dim_hint: None }
            } else if k <= n {
                OutputMapping {
                    scan: None,
                    last_value_slot: Some((k - 1) as usize),
                    state: true,
                    full_dim_hint: None,
                }
            } else {
                OutputMapping {
                    scan: Some(ScanInfo { slot: (k - 1) as usize, axis: 0, chunk: 1 }),
                    last_value_slot: None,
                    state: false,
                    full_dim_hint: None,
                }
            },
    )
}

/// Maps a loop onto a scan. `node_inputs` holds, for each input of the loop
/// in order (trip count, condition, loop-carried values), its outer slot
/// where it is present; `unresolved_inputs` is the number of values the body
/// captures from outside.
pub fn loop_(
    node_inputs: &Vec<Option<usize>>,
    body_inputs: usize,
    body_outputs: usize,
    unresolved_inputs: usize,
) -> (r: Result<LoopMapping, LoopError>)
    ensures
        match r {
            Ok(m) => {
                &&& has_exit(node_inputs@)
                &&& body_inputs == 2 + carried(node_inputs@) + unresolved_inputs
                &&& body_outputs >= 1 + carried(node_inputs@)
                &&& m.input_mapping@ == loop_inputs(node_inputs@, unresolved_inputs as nat)
                &&& m.output_mapping@ == loop_outputs(node_inputs@, body_outputs as nat)
                &&& m.exit_condition == (ExitCondition {
                    condition_from_state: Some(0usize),
                    trip_count_from_input: node_inputs@[0],
                })
            },
            Err(LoopError::NoExitCondition) => !has_exit(node_inputs@),
            Err(LoopError::UnmatchedInputs) => has_exit(node_inputs@) && body_inputs != 2 + carried(
                node_inputs@,
            ) + unresolved_inputs,
            Err(LoopError::UnmatchedOutputs) => has_exit(node_inputs@) && body_inputs == 2
                + carried(node_inputs@) + unresolved_inputs && body_outputs < 1 + carried(
                node_inputs@,
            ),
        },
{
    let len = node_inputs.len();
    if len < 2 || node_inputs[0].is_none() || node_inputs[1].is_none() {
        return Err(LoopError::NoExitCondition);
    }
    let mut end: usize = 2;
    while end < len && node_inputs[end].is_some()
        invariant
            len == node_inputs.len(),
            2 <= end <= len,
            forall|j: int| 2 <= j < end ==> (#[trigger] node_inputs@[j]).is_some(),
        decreases len - end,
    {
        end += 1;
    }
    let n = end - 2;
    proof {
        let rest = node_inputs@.skip(2);
        assert forall|j: int| 0 <= j < n implies (#[trigger] rest[j]).is_some() by {
            assert(rest[j] == node_inputs@[j + 2]);
        }
        lemma_leading_present(rest, n as nat);
    }
    let fed = match end.checked_add(unresolved_inputs) {
        Some(fed) => fed,
        None => {
            return Err(LoopError::UnmatchedInputs);
        },
    };
    if fed != body_inputs {
        return Err(LoopError::UnmatchedInputs);
    }
    if body_outputs < n + 1 {
        return Err(LoopError::UnmatchedOutputs);
    }
    let ghost want_in = loop_inputs(node_inputs@, unresolved_inputs as nat);
    let ghost want_out = loop_outputs(node_inputs@, body_outputs as nat);
    let mut mapped_inputs: Vec<InputMapping> = Vec::new();
    mapped_inputs.push(InputMapping::IterIndex);
    let mut k: usize = 1;
    while k < end
        invariant
            len == node_inputs.len(),
            1 <= k <= end <= len,
            end == 2 + n,
            n == carried(node_inputs@),
            forall|j: int| 1 <= j < end ==> (#[trigger] node_inputs@[j]).is_some(),
            want_in == loop_inputs(node_inputs@, unresolved_inputs as nat),
            mapped_inputs@.len() == k,
            forall|j: int| 0 <= j < k ==> #[trigger] mapped_inputs@[j] == want_in[j],
        decreases end - k,
    {
        let slot = match node_inputs[k] {
            Some(slot) => slot,
            None => 0,
        };
        mapped_inputs.push(
            InputMapping::State { initializer: StateInitializer::FromInput(slot) },
        );
        k += 1;
    }
    while k < fed
        invariant
            end <= k <= fed,
            end == 2 + n,
            fed == end + unresolved_inputs,
            n == carried(node_inputs@),
            want_in == loop_inputs(node_inputs@, unresolved_inputs as nat),
            mapped_inputs@.len() == k,
            forall|j: int| 0 <= j < k ==> #[trigger] mapped_inputs@[j] == want_in[j],
        decreases fed - k,
    {
        mapped_inputs.push(InputMapping::Full { slot: k });
        k += 1;
    }
    assert(mapped_inputs@ =~= want_in);
    let mut mapped_outputs: Vec<OutputMapping<TDim>> = Vec::new();
    mapped_outputs.push(OutputMapping::new(None, None, true, None));
    let mut k: usize = 1;
    while k < body_outputs
        invariant
            1 <= k <= body_outputs,
            n + 1 <= body_outputs,
            n == carried(node_inputs@),
            want_out == loop_outputs(node_inputs@, body_outputs as nat),
            mapped_outputs@.len() == k,
            forall|j: int| 0 <= j < k ==> #[trigger] mapped_outputs@[j] == want_out[j],
        decreases body_outputs - k,
    {
        if k <= n {
            mapped_outputs.push(OutputMapping::new(None, Some(k - 1), true, None));
        } else {
            mapped_outputs.push(
                OutputMapping::new(Some(ScanInfo::new(k - 1, 0, 1)), None, false, None),
            );
        }
        k += 1;
    }
    assert(mapped_outputs@ =~= want_out);
    Ok(
        LoopMapping {
            input_mapping: mapped_inputs,
            output_mapping: mapped_outputs,
            exit_condition: ExitCondition::new(Some(0), node_inputs[0]),
        },
    )
}

/// The slots that the first `m` output mappings of a loop use: mapping
/// `j + 1` uses slot `j`, for its last value where it is loop-carried and
/// for its accumulated output otherwise.
pub open spec fn loop_uses(n: nat, m: nat) -> Seq<SlotUse> {
    Seq::new(
        if m == 0 {
            0nat
        } else {
            (m - 1) as nat
        },
        |j: int| SlotUse { slot: j as usize, index: (j + 1) as usize, scan: j >= n },
    )
}

proof fn lemma_loop_uses(node_inputs: Seq<Option<usize>>, body_outputs: nat, m: nat)
    requires
        m <= body_outputs <= usize::MAX,
    ensures
        slot_uses(loop_outputs(node_inputs, body_outputs).take(m as int)) == loop_uses(
            carried(node_inputs),
            m,
        ),
    decreases m,
{
    let om = loop_outputs(node_inputs, body_outputs);
    let n = carried(node_inputs);
    if m == 0 {
        assert(slot_uses(om.take(0)) =~= loop_uses(n, 0));
    } else {
        lemma_loop_uses(node_inputs, body_outputs, (m - 1) as nat);
        let head = om.take(m as int);
        assert(head.drop_last() =~= om.take(m - 1));
        assert(head.last() == om[m - 1]);
        let added = uses_of(om[m - 1], (m - 1) as usize);
        if m == 1 {
            assert(added =~= Seq::<SlotUse>::empty());
        } else {
            assert(added =~= seq![
                SlotUse { slot: (m - 2) as usize, index: (m - 1) as usize, scan: m - 2 >= n },
            ]);
        }
        assert(loop_uses(n, (m - 1) as nat) + added =~= loop_uses(n, m));
    }
}

proof fn lemma_loop_state_outputs(node_inputs: Seq<Option<usize>>, body_outputs: nat, m: nat)
    requires
        m <= body_outputs,
    ensures
        state_outputs(loop_outputs(node_inputs, body_outputs).take(m as int)) == (if m <= carried(
            node_inputs,
        ) + 1 {
            m
        } else {
            carried(node_inputs) + 1
        }),
    decreases m,
{
    let om = loop_outputs(node_inputs, body_outputs);
    if m > 0 {
        lemma_loop_state_outputs(node_inputs, body_outputs, (m - 1) as nat);
        let head = om.take(m as int);
        assert(head.drop_last() =~= om.take(m - 1));
        assert(head.last() == om[m - 1]);
    } else {
        assert(om.take(0) =~= Seq::<OutputMapping<TDim>>::empty());
    }
}

proof fn lemma_loop_state_count(node_inputs: Seq<Option<usize>>, unresolved: nat, m: nat)
    requires
        m <= 2 + carried(node_inputs) + unresolved,
    ensures
        state_count(loop_inputs(node_inputs, unresolved).take(m as int)) == (if m == 0 {
            0nat
        } else if m <= carried(node_inputs) + 2 {
            (m - 1) as nat
        } else {
            carried(node_inputs) + 1
        }),
    decreases m,
{
    let im = loop_inputs(node_inputs, unresolved);
    if m > 0 {
        lemma_loop_state_count(node_inputs, unresolved, (m - 1) as nat);
        let head = im.take(m as int);
        assert(head.drop_last() =~= im.take(m - 1));
        assert(head.last() == im[m - 1]);
    } else {
        assert(im.take(0) =~= Seq::<InputMapping>::empty());
    }
}

/// The mappings of a loop are those of a valid scan: the outer output
/// slots are exactly `0, 1, .., K - 1`; there are as many state outputs as
/// hidden states, one for the condition and one for each loop-carried
/// value; and the condition is the first hidden state.
pub proof fn lemma_loop_mappings_valid(
    node_inputs: Seq<Option<usize>>,
    body_outputs: nat,
    unresolved: nat,
)
    requires
        1 + carried(node_inputs) <= body_outputs <= usize::MAX,
    ensures
        dense(slot_uses(loop_outputs(node_inputs, body_outputs))),
        slot_uses(loop_outputs(node_inputs, body_outputs)).len() == body_outputs - 1,
        state_outputs(loop_outputs(node_inputs, body_outputs)) == carried(node_inputs) + 1,
        state_count(loop_inputs(node_inputs, unresolved)) == carried(node_inputs) + 1,
{
    let n = carried(node_inputs);
    let om = loop_outputs(node_inputs, body_outputs);
    let im = loop_inputs(node_inputs, unresolved);
    lemma_loop_uses(node_inputs, body_outputs, body_outputs);
    lemma_loop_state_outputs(node_inputs, body_outputs, body_outputs);
    lemma_loop_state_count(node_inputs, unresolved, 2 + n + unresolved);
    assert(om.take(body_outputs as int) =~= om);
    assert(im.take((2 + n + unresolved) as int) =~= im);
    let uses = slot_uses(om);
    assert(uses == loop_uses(n, body_outputs));
    assert forall|s: int| 0 <= s < uses.len() implies #[trigger] filled(uses, s) by {
        assert(filled_by(uses, s, s));
    }
}

} // verus!
