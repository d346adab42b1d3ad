//! Declarative description of how outer slots feed the loop body and how the
//! body's outputs feed the outer slots.

use crate::dim::SymbolValues;
use crate::dim::TDim;
use crate::error::ScanError;
use crate::tensor::Tensor;
use std::sync::Arc;
use vstd::prelude::*;

verus! {

/// When the loop stops. With both fields set the loop stops at whichever
/// occurs first; with neither, the iteration count comes from the first
/// scanned input.
#[derive(Debug, Clone, Copy, PartialEq, Eq, Structural)]
pub struct ExitCondition {
    /// Index, in the hidden state, of a scalar boolean that stops the loop
    /// once it is true.
    pub condition_from_state: Option<usize>,
    /// Outer input slot holding the number of iterations.
    pub trip_count_from_input: Option<usize>,
}

impl ExitCondition {
    pub fn new(condition_from_state: Option<usize>, trip_count_from_input: Option<usize>) -> (r:
        Self)
        ensures
            r.condition_from_state == condition_from_state,
            r.trip_count_from_input == trip_count_from_input,
    {
        ExitCondition { condition_from_state, trip_count_from_input }
    }
}

impl Default for ExitCondition {
    fn default() -> (r: Self)
        ensures
            r.condition_from_state.is_none(),
            r.trip_count_from_input.is_none(),
    {
        ExitCondition { condition_from_state: None, trip_count_from_input: None }
    }
}

/// Where and how a tensor is scanned: the outer slot, the axis, and the signed
/// number of elements per iteration (negative: from the end backwards).
#[derive(Debug, Clone, Copy, PartialEq, Eq, Hash, Structural)]
pub struct ScanInfo {
    pub slot: usize,
    pub axis: usize,
    pub chunk: isize,
}

impl ScanInfo {
    pub fn new(slot: usize, axis: usize, chunk: isize) -> (r: Self)
        ensures
            r == (ScanInfo { slot, axis, chunk }),
    {
        ScanInfo { slot, axis, chunk }
    }

    /// The width of one chunk: the magnitude of `chunk`.
    pub open spec fn width(self) -> nat {
        if self.chunk < 0 {
            (-self.chunk) as nat
        } else {
            self.chunk as nat
        }
    }

    /// Whether the scan runs from the end of the axis backwards.
    pub open spec fn backward(self) -> bool {
        self.chunk < 0
    }
}

/// Where a hidden state gets its first value.
#[derive(Debug, PartialEq, Eq)]
pub enum StateInitializer {
    /// From the outer input at this slot.
    FromInput(usize),
    /// From a constant held by the operator.
    Value(Arc<Tensor>),
}

/// What feeds one input of the body.
#[derive(Debug, PartialEq, Eq)]
pub enum InputMapping {
    /// The outer input at `slot`, whole, at every iteration.
    Full { slot: usize },
    /// A hidden state, carried from one iteration to the next.
    State { initializer: StateInitializer },
    /// One chunk per iteration of a scanned outer input.
    Scan(ScanInfo),
    /// The iteration index.
    IterIndex,
}

impl InputMapping {
    /// The initializer of a hidden state; `None` for any other mapping.
    pub fn as_state(&self) -> (r: Option<&StateInitializer>)
        ensures
            r == (match *self {
                InputMapping::State { initializer } => Some(&initializer),
                _ => None,
            }),
    {
        match self {
            InputMapping::State { initializer } => Some(initializer),
            _ => None,
        }
    }

    /// The scan description of a scanned input; `None` for any other
    /// mapping.
    pub fn as_scan(&self) -> (r: Option<&ScanInfo>)
        ensures
            r == (match self.scan() {
                Some(s) => Some(&s),
                None => None,
            }),
    {
        match self {
            InputMapping::Scan(s) => Some(s),
            _ => None,
        }
    }

    /// Whether the mapping takes nothing from outside: a hidden state that
    /// starts from a constant.
    pub fn invisible(&self) -> (r: bool)
        ensures
            r == (*self matches InputMapping::State { initializer: StateInitializer::Value(_) }),
    {
        match self {
            InputMapping::State { initializer: StateInitializer::Value(_) } => true,
            _ => false,
        }
    }

    /// The outer input slot the mapping reads, if it reads one.
    pub fn slot(&self) -> (r: Option<usize>)
        ensures
            r == self.outer_slot(),
    {
        match self {
            InputMapping::Full { slot } => Some(*slot),
            InputMapping::Scan(info) => Some(info.slot),
            InputMapping::State { initializer } => match initializer {
                StateInitializer::FromInput(slot) => Some(*slot),
                _ => None,
            },
            InputMapping::IterIndex => None,
        }
    }

    /// The scan description of a scanned input.
    pub open spec fn scan(self) -> Option<ScanInfo> {
        match self {
            InputMapping::Scan(s) => Some(s),
            _ => None,
        }
    }

    /// Whether the mapping is a hidden state.
    pub open spec fn is_state(self) -> bool {
        self is State
    }

    /// The outer input slot the mapping reads.
    pub open spec fn outer_slot(self) -> Option<usize> {
        match self {
            InputMapping::Full { slot } => Some(slot),
            InputMapping::Scan(info) => Some(info.slot),
            InputMapping::State { initializer: StateInitializer::FromInput(slot) } => Some(slot),
            _ => None,
        }
    }
}

/// What becomes of one output of the body after each iteration.
#[derive(Debug, PartialEq, Eq)]
pub struct OutputMapping<F: Clone> {
    /// Set where the output is accumulated, chunk by chunk, into an outer
    /// output.
    pub scan: Option<ScanInfo>,
    /// Set where the output of the last iteration becomes the outer output
    /// at this slot.
    pub last_value_slot: Option<usize>,
    /// Whether the output is fed back as a hidden state.
    pub state: bool,
    /// The full length of the accumulated axis, where it is known better
    /// than by multiplying.
    pub full_dim_hint: Option<F>,
}

impl<F: Clone> OutputMapping<F> {
    pub fn new(
        scan: Option<ScanInfo>,
        last_value_slot: Option<usize>,
        state: bool,
        full_dim_hint: Option<F>,
    ) -> (r: Self)
        ensures
            r.scan == scan,
            r.last_value_slot == last_value_slot,
            r.state == state,
            r.full_dim_hint == full_dim_hint,
    {
        OutputMapping { scan, last_value_slot, state, full_dim_hint }
    }

    /// Whether the output reaches no outer output.
    pub fn invisible(&self) -> (r: bool)
        ensures
            r == (self.scan.is_none() && self.last_value_slot.is_none()),
    {
        self.scan.is_none() && self.last_value_slot.is_none()
    }
}

impl<F: Clone> Default for OutputMapping<F> {
    fn default() -> (r: Self)
        ensures
            r.scan.is_none(),
            r.last_value_slot.is_none(),
            !r.state,
            r.full_dim_hint.is_none(),
    {
        OutputMapping { scan: None, last_value_slot: None, state: false, full_dim_hint: None }
    }
}

impl OutputMapping<TDim> {
    /// The same mapping with the symbols bound in `values` replaced, in the
    /// length hint, by their integers. It always succeeds.
    pub fn concretize_dims(&self, values: &SymbolValues) -> (r: Result<
        OutputMapping<TDim>,
        ScanError,
    >)
        ensures
            r matches Ok(m) && m.scan == self.scan && m.last_value_slot == self.last_value_slot
                && m.state == self.state && m.full_dim_hint == (match self.full_dim_hint {
                Some(h) => Some(h.subst(values.values@)),
                None => None,
            }),
    {
        let hint = match &self.full_dim_hint {
            Some(h) => Some(h.eval(values)),
            None => None,
        };
        Ok(
            OutputMapping {
                scan: self.scan,
                last_value_slot: self.last_value_slot,
                state: self.state,
                full_dim_hint: hint,
            },
        )
    }
}

} // verus!
