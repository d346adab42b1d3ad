use scan_core::loop_parser::{loop_, LoopError};
use scan_core::mapping::{ExitCondition, InputMapping, OutputMapping, ScanInfo, StateInitializer};

fn state(slot: usize) -> InputMapping {
    InputMapping::State { initializer: StateInitializer::FromInput(slot) }
}

#[test]
fn loop_with_two_carried_values_one_scan_one_capture() {
    let m = loop_(&vec![Some(0), Some(1), Some(2), Some(3)], 5, 4, 1).unwrap();
    assert_eq!(
        m.input_mapping,
        vec![InputMapping::IterIndex, state(1), state(2), state(3), InputMapping::Full { slot: 4 }]
    );
    assert_eq!(
        m.output_mapping,
        vec![
            OutputMapping::new(None, None, true, None),
            OutputMapping::new(None, Some(0), true, None),
            OutputMapping::new(None, Some(1), true, None),
            OutputMapping::new(Some(ScanInfo::new(2, 0, 1)), None, false, None),
        ]
    );
    assert_eq!(m.exit_condition, ExitCondition::new(Some(0), Some(0)));
}

#[test]
fn loop_with_nothing_carried() {
    let m = loop_(&vec![Some(3), Some(7)], 2, 1, 0).unwrap();
    assert_eq!(m.input_mapping, vec![InputMapping::IterIndex, state(7)]);
    assert_eq!(m.output_mapping, vec![OutputMapping::new(None, None, true, None)]);
    assert_eq!(m.exit_condition, ExitCondition::new(Some(0), Some(3)));
}

#[test]
fn carried_values_end_at_first_absent_input() {
    let m = loop_(&vec![Some(0), Some(1), Some(2), None, Some(3)], 3, 3, 0).unwrap();
    assert_eq!(m.input_mapping, vec![InputMapping::IterIndex, state(1), state(2)]);
    assert_eq!(
        m.output_mapping,
        vec![
            OutputMapping::new(None, None, true, None),
            OutputMapping::new(None, Some(0), true, None),
            OutputMapping::new(Some(ScanInfo::new(1, 0, 1)), None, false, None),
        ]
    );
}

#[test]
fn loop_without_trip_count_or_condition_is_refused() {
    assert_eq!(loop_(&vec![None, Some(0)], 2, 1, 0), Err(LoopError::NoExitCondition));
    assert_eq!(loop_(&vec![Some(0), None], 2, 1, 0), Err(LoopError::NoExitCondition));
    assert_eq!(loop_(&vec![Some(0)], 2, 1, 0), Err(LoopError::NoExitCondition));
    assert_eq!(loop_(&vec![], 2, 1, 0), Err(LoopError::NoExitCondition));
}

#[test]
fn loop_with_other_body_arity_is_refused() {
    let node = vec![Some(0), Some(1), Some(2)];
    assert_eq!(loop_(&node, 4, 2, 0), Err(LoopError::UnmatchedInputs));
    assert_eq!(loop_(&node, 3, 2, 1), Err(LoopError::UnmatchedInputs));
    assert_eq!(loop_(&node, 3, 2, usize::MAX), Err(LoopError::UnmatchedInputs));
    assert_eq!(loop_(&node, 3, 1, 0), Err(LoopError::UnmatchedOutputs));
    assert!(loop_(&node, 3, 2, 0).is_ok());
}
