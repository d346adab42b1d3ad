use scan_core::dim::{SymbolValues, TDim};
use scan_core::error::ScanError;
use scan_core::facts::{clone_shape, TypedFact};
use scan_core::mapping::{ExitCondition, InputMapping, OutputMapping, ScanInfo, StateInitializer};
use scan_core::run::{
    allocate_outputs, bound_from_scan, count_state_outputs, count_states, distribute_outputs,
    exit_requested, initial_hidden, max_iterations, prepare_inputs, resolve_shape,
    trip_count_known_before, trip_count_of,
};
use scan_core::slots::{collect_uses, slot_order, SlotUse};
use scan_core::tensor::{DatumType, Tensor};
use std::sync::Arc;

fn vector(values: &[i64]) -> Tensor {
    Tensor::from_vec(DatumType::I64, vec![values.len()], values.to_vec()).unwrap()
}

fn number(value: i64) -> Tensor {
    Tensor::scalar(DatumType::I64, value)
}

fn no_symbols() -> SymbolValues {
    SymbolValues { values: vec![] }
}

fn state(slot: usize) -> InputMapping {
    InputMapping::State { initializer: StateInitializer::FromInput(slot) }
}

#[test]
fn uses_follow_the_mappings() {
    let om: Vec<OutputMapping<TDim>> = vec![
        OutputMapping::new(None, None, true, None),
        OutputMapping::new(Some(ScanInfo::new(2, 0, 1)), Some(0), false, None),
        OutputMapping::new(None, Some(1), false, None),
    ];
    let uses = collect_uses(&om);
    assert_eq!(
        uses,
        vec![
            SlotUse { slot: 2, index: 1, scan: true },
            SlotUse { slot: 0, index: 1, scan: false },
            SlotUse { slot: 1, index: 2, scan: false },
        ]
    );
    assert_eq!(slot_order(&uses), Some(vec![1, 2, 0]));
}

#[test]
fn slot_order_wants_dense_slots() {
    let used = |slot: usize| SlotUse { slot, index: 0, scan: true };
    assert_eq!(slot_order(&vec![]), Some(vec![]));
    assert_eq!(slot_order(&vec![used(0)]), Some(vec![0]));
    assert_eq!(slot_order(&vec![used(1)]), None);
    assert_eq!(slot_order(&vec![used(0), used(0)]), None);
    assert_eq!(slot_order(&vec![used(2), used(0)]), None);
    assert_eq!(slot_order(&vec![used(1), used(0)]), Some(vec![1, 0]));
}

#[test]
fn states_are_counted() {
    let im = vec![InputMapping::IterIndex, state(0), InputMapping::Full { slot: 1 }, state(2)];
    assert_eq!(count_states(&im), 2);
    let om: Vec<OutputMapping<TDim>> = vec![
        OutputMapping::new(None, None, true, None),
        OutputMapping::new(None, Some(0), false, None),
    ];
    assert_eq!(count_state_outputs(&om), 1);
}

#[test]
fn initial_hidden_takes_inputs_and_constants_in_order() {
    let im = vec![
        state(1),
        InputMapping::IterIndex,
        InputMapping::State { initializer: StateInitializer::Value(Arc::new(number(7))) },
        state(0),
    ];
    let hidden = initial_hidden(&im, &vec![number(1), number(2)]).unwrap();
    assert_eq!(hidden, vec![number(2), number(7), number(1)]);
    assert_eq!(initial_hidden(&im, &vec![number(1)]), Err(ScanError::MappingArity));
}

#[test]
fn scan_bound_rounds_up() {
    let im = vec![InputMapping::Scan(ScanInfo::new(0, 0, -2))];
    assert_eq!(bound_from_scan(&im, &vec![vector(&[1, 2, 3, 4, 5])]), Ok(Some(3)));
    assert_eq!(bound_from_scan(&im, &vec![vector(&[1, 2, 3, 4])]), Ok(Some(2)));
    assert_eq!(bound_from_scan(&im, &vec![vector(&[1])]), Ok(Some(1)));
    assert_eq!(bound_from_scan(&vec![], &vec![vector(&[1])]), Ok(None));
    assert_eq!(bound_from_scan(&im, &vec![]), Err(ScanError::MappingArity));
    assert_eq!(bound_from_scan(&im, &vec![vector(&[])]), Err(ScanError::SliceMismatch));
    assert_eq!(bound_from_scan(&im, &vec![number(1)]), Err(ScanError::SliceMismatch));
}

#[test]
fn trip_count_is_a_scalar_dimension() {
    let exit = ExitCondition::new(None, Some(0));
    assert_eq!(trip_count_of(&exit, &vec![Tensor::scalar(DatumType::TDim, 4)]), Ok(Some(4)));
    assert_eq!(trip_count_of(&exit, &vec![Tensor::scalar(DatumType::TDim, 0)]), Ok(Some(0)));
    assert_eq!(trip_count_of(&exit, &vec![number(4)]), Err(ScanError::BadTripCount));
    assert_eq!(
        trip_count_of(&exit, &vec![Tensor::scalar(DatumType::TDim, -4)]),
        Err(ScanError::BadTripCount)
    );
    assert_eq!(trip_count_of(&exit, &vec![]), Err(ScanError::BadTripCount));
    assert_eq!(trip_count_of(&ExitCondition::default(), &vec![]), Ok(None));
}

#[test]
fn max_iterations_combines_both_sources() {
    let im = vec![InputMapping::Scan(ScanInfo::new(1, 0, 1))];
    let inputs = vec![Tensor::scalar(DatumType::TDim, 2), vector(&[1, 2, 3])];
    assert_eq!(max_iterations(&im, &ExitCondition::new(None, Some(0)), &inputs), Ok(Some(2)));
    assert_eq!(max_iterations(&im, &ExitCondition::default(), &inputs), Ok(Some(3)));
    assert_eq!(max_iterations(&vec![], &ExitCondition::new(Some(0), None), &inputs), Ok(None));
    assert_eq!(
        max_iterations(&vec![], &ExitCondition::default(), &inputs),
        Err(ScanError::MappingArity)
    );
}

#[test]
fn trip_count_known_only_without_condition() {
    assert!(trip_count_known_before(&ExitCondition::new(None, Some(0)), Some(3)));
    assert!(!trip_count_known_before(&ExitCondition::new(Some(0), Some(0)), Some(3)));
    assert!(!trip_count_known_before(&ExitCondition::new(None, None), None));
}

#[test]
fn shapes_resolve_under_bindings() {
    let shape = vec![TDim::Val(2), TDim::Sym(0)];
    let values = SymbolValues { values: vec![Some(3)] };
    assert_eq!(resolve_shape(&shape, &values), Some(vec![2, 3]));
    assert_eq!(resolve_shape(&shape, &no_symbols()), None);
    assert_eq!(resolve_shape(&vec![TDim::Val(-1)], &values), None);
    assert_eq!(clone_shape(&shape), shape);
}

#[test]
fn outputs_are_allocated_by_slot() {
    let om: Vec<OutputMapping<TDim>> = vec![
        OutputMapping::new(None, Some(1), true, None),
        OutputMapping::new(Some(ScanInfo::new(0, 1, 1)), None, false, None),
    ];
    let body = vec![
        TypedFact::dt_shape(DatumType::Bool, vec![]),
        TypedFact::dt_shape(DatumType::Bool, vec![TDim::Val(2), TDim::Val(3)]),
    ];
    let outs = allocate_outputs(&om, &body, Some(4), &no_symbols()).unwrap();
    assert_eq!(outs.len(), 2);
    assert_eq!(outs[0], Tensor::zeros(DatumType::Bool, vec![2, 12]).unwrap());
    assert_eq!(outs[1], Tensor::default());
    assert_eq!(
        allocate_outputs(&om, &body, None, &no_symbols()),
        Err(ScanError::ShapeResolutionFailure)
    );
    assert_eq!(
        allocate_outputs(&om, &body, Some(usize::MAX), &no_symbols()),
        Err(ScanError::ShapeResolutionFailure)
    );
}

#[test]
fn exit_condition_reads_boolean_state() {
    let exit = ExitCondition::new(Some(1), None);
    let yes = Tensor::scalar(DatumType::Bool, 1);
    let no = Tensor::scalar(DatumType::Bool, 0);
    assert_eq!(exit_requested(&exit, &vec![no.clone(), yes.clone()]), Ok(true));
    assert_eq!(exit_requested(&exit, &vec![yes.clone(), no.clone()]), Ok(false));
    assert_eq!(exit_requested(&exit, &vec![yes.clone()]), Err(ScanError::BadCondition));
    assert_eq!(exit_requested(&exit, &vec![yes, number(1)]), Err(ScanError::BadCondition));
    assert_eq!(exit_requested(&ExitCondition::default(), &vec![]), Ok(false));
}

#[test]
fn body_inputs_follow_the_mappings() {
    let im = vec![
        state(0),
        InputMapping::Scan(ScanInfo::new(0, 0, 2)),
        InputMapping::IterIndex,
        InputMapping::Full { slot: 1 },
        state(1),
    ];
    let inputs = vec![vector(&[1, 2, 3]), number(9)];
    let hidden = vec![number(5), number(6)];
    assert_eq!(
        prepare_inputs(&im, &inputs, &hidden, 1),
        Ok(vec![
            number(5),
            vector(&[3, 0]),
            Tensor::scalar(DatumType::TDim, 1),
            number(9),
            number(6),
        ])
    );
    assert_eq!(prepare_inputs(&im, &inputs, &vec![number(5)], 1), Err(ScanError::MappingArity));
    assert_eq!(prepare_inputs(&im, &vec![vector(&[1])], &hidden, 1), Err(ScanError::MappingArity));
}

#[test]
fn body_outputs_are_distributed() {
    let om: Vec<OutputMapping<TDim>> = vec![
        OutputMapping::new(None, Some(1), true, None),
        OutputMapping::new(Some(ScanInfo::new(0, 0, 1)), None, true, None),
    ];
    let mut outputs = vec![vector(&[0, 0, 0]), Tensor::default()];
    let body_out = vec![number(4), vector(&[8])];
    let hidden = distribute_outputs(&om, &mut outputs, &body_out, 1, false).unwrap();
    assert_eq!(hidden, vec![number(4), vector(&[8])]);
    assert_eq!(outputs, vec![vector(&[0, 8, 0]), Tensor::default()]);
    let hidden = distribute_outputs(&om, &mut outputs, &body_out, 2, true).unwrap();
    assert_eq!(hidden, vec![number(4), vector(&[8])]);
    assert_eq!(outputs, vec![vector(&[0, 8, 8]), number(4)]);
    assert_eq!(
        distribute_outputs(&om, &mut outputs, &vec![number(4)], 0, false),
        Err(ScanError::MappingArity)
    );
    assert_eq!(
        distribute_outputs(&om, &mut outputs, &vec![number(4), number(8)], 0, false),
        Err(ScanError::SliceMismatch)
    );
}
