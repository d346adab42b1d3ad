use scan_core::dim::TDim;
use scan_core::error::ScanError;
use scan_core::facts::TypedFact;
use scan_core::mapping::{ExitCondition, InputMapping, OutputMapping, ScanInfo, StateInitializer};
use scan_core::op::{count_from_scan, find_scan, BodyPlan, LirScan, LirScanOpParams};
use scan_core::tensor::{DatumType, Tensor};
use std::sync::Arc;

type Body = fn(Vec<Tensor>) -> Result<Vec<Tensor>, String>;

fn run(inputs: Vec<Tensor>) -> Result<Vec<Tensor>, String> {
    Ok(inputs)
}

fn fact(dt: DatumType, shape: Vec<TDim>) -> TypedFact {
    TypedFact::dt_shape(dt, shape)
}

fn scan_op(
    outputs: Vec<TypedFact>,
    input_mapping: Vec<InputMapping>,
    output_mapping: Vec<OutputMapping<TDim>>,
    exit_condition: ExitCondition,
) -> LirScan<Body> {
    LirScan::new(Arc::new(LirScanOpParams::new(
        0,
        Arc::new(BodyPlan { run: run as Body, outputs }),
        input_mapping,
        output_mapping,
        exit_condition,
    )))
}

fn scan_in(slot: usize, axis: usize, chunk: isize) -> InputMapping {
    InputMapping::Scan(ScanInfo::new(slot, axis, chunk))
}

fn scan_out(slot: usize, axis: usize, chunk: isize) -> OutputMapping<TDim> {
    OutputMapping::new(Some(ScanInfo::new(slot, axis, chunk)), None, false, None)
}

#[test]
fn name_and_statefulness() {
    let op = scan_op(vec![], vec![], vec![], ExitCondition::default());
    assert_eq!(op.name(), "Scan");
    assert!(!op.is_stateless());
    assert_eq!(op.params().skip, 0);
}

#[test]
fn find_scan_takes_the_first() {
    let im = vec![
        InputMapping::IterIndex,
        InputMapping::Full { slot: 0 },
        scan_in(1, 0, 2),
        scan_in(2, 1, -1),
    ];
    assert_eq!(find_scan(&im), Some(ScanInfo::new(1, 0, 2)));
    assert_eq!(find_scan(&vec![InputMapping::IterIndex]), None);
}

#[test]
fn count_from_scan_divides_rounding_up() {
    let inputs = vec![fact(DatumType::I64, vec![TDim::Val(5), TDim::Sym(0)])];
    assert_eq!(count_from_scan(&vec![scan_in(0, 0, 2)], &inputs), Ok(Some(TDim::Val(3))));
    assert_eq!(count_from_scan(&vec![scan_in(0, 0, -5)], &inputs), Ok(Some(TDim::Val(1))));
    assert_eq!(
        count_from_scan(&vec![scan_in(0, 1, 2)], &inputs),
        Ok(Some(TDim::DivCeil(Box::new(TDim::Sym(0)), 2)))
    );
    assert_eq!(count_from_scan(&vec![InputMapping::IterIndex], &inputs), Ok(None));
    assert_eq!(count_from_scan(&vec![scan_in(1, 0, 2)], &inputs), Err(ScanError::MappingArity));
    assert_eq!(count_from_scan(&vec![scan_in(0, 2, 2)], &inputs), Err(ScanError::SliceMismatch));
    assert_eq!(count_from_scan(&vec![scan_in(0, 0, 0)], &inputs), Err(ScanError::SliceMismatch));
}

#[test]
fn iteration_count_prefers_constant_trip_count() {
    let op = scan_op(
        vec![],
        vec![scan_in(1, 0, 2)],
        vec![],
        ExitCondition::new(None, Some(0)),
    );
    let mut trip = fact(DatumType::TDim, vec![]);
    let data = fact(DatumType::I64, vec![TDim::Val(9)]);
    assert_eq!(
        op.iteration_count(&vec![fact(DatumType::TDim, vec![]), fact(DatumType::I64, vec![TDim::Val(9)])]),
        Ok(Some(TDim::Val(5)))
    );
    trip.konst = Some(Arc::new(Tensor::scalar(DatumType::TDim, 7)));
    assert_eq!(op.iteration_count(&vec![trip, data]), Ok(Some(TDim::Val(7))));
    let mut bad = fact(DatumType::I64, vec![]);
    bad.konst = Some(Arc::new(Tensor::scalar(DatumType::I64, 7)));
    assert_eq!(
        op.iteration_count(&vec![bad, fact(DatumType::I64, vec![TDim::Val(9)])]),
        Err(ScanError::BadTripCount)
    );
    assert_eq!(op.iteration_count(&vec![]), Err(ScanError::BadTripCount));
}

#[test]
fn output_facts_multiply_scanned_axis() {
    let op = scan_op(
        vec![fact(DatumType::I64, vec![TDim::Val(4), TDim::Val(3)])],
        vec![scan_in(0, 0, 2)],
        vec![scan_out(0, 1, 1)],
        ExitCondition::default(),
    );
    let facts = op.output_facts(&vec![fact(DatumType::I64, vec![TDim::Val(5)])]).unwrap();
    assert_eq!(facts, vec![fact(DatumType::I64, vec![TDim::Val(4), TDim::Val(9)])]);
}

#[test]
fn output_facts_keep_symbols() {
    let op = scan_op(
        vec![fact(DatumType::I64, vec![TDim::Val(3)])],
        vec![scan_in(0, 0, 2)],
        vec![scan_out(0, 0, 1)],
        ExitCondition::default(),
    );
    let facts = op.output_facts(&vec![fact(DatumType::I64, vec![TDim::Sym(0)])]).unwrap();
    assert_eq!(
        facts,
        vec![fact(
            DatumType::I64,
            vec![TDim::Mul(
                Box::new(TDim::Val(3)),
                Box::new(TDim::DivCeil(Box::new(TDim::Sym(0)), 2))
            )]
        )]
    );
}

#[test]
fn output_facts_by_slot_with_hint_and_last_value() {
    let op = scan_op(
        vec![
            fact(DatumType::Bool, vec![]),
            fact(DatumType::I64, vec![TDim::Val(1), TDim::Val(2)]),
        ],
        vec![scan_in(0, 0, 1)],
        vec![
            OutputMapping::new(None, Some(1), true, None),
            OutputMapping::new(Some(ScanInfo::new(0, 0, 1)), Some(2), false, Some(TDim::Sym(4))),
        ],
        ExitCondition::default(),
    );
    let facts = op.output_facts(&vec![fact(DatumType::I64, vec![TDim::Val(5)])]).unwrap();
    assert_eq!(
        facts,
        vec![
            fact(DatumType::I64, vec![TDim::Sym(4), TDim::Val(2)]),
            fact(DatumType::Bool, vec![]),
            fact(DatumType::I64, vec![TDim::Val(1), TDim::Val(2)]),
        ]
    );
}

#[test]
fn output_facts_refuse_what_cannot_be_typed() {
    let inputs = vec![fact(DatumType::I64, vec![TDim::Val(5)])];
    let body = || vec![fact(DatumType::I64, vec![TDim::Val(1)])];
    let holes = scan_op(body(), vec![scan_in(0, 0, 1)], vec![scan_out(1, 0, 1)], ExitCondition::default());
    assert_eq!(holes.output_facts(&inputs), Err(ScanError::MappingArity));
    let twice = scan_op(
        body(),
        vec![scan_in(0, 0, 1)],
        vec![OutputMapping::new(Some(ScanInfo::new(0, 0, 1)), Some(0), false, None)],
        ExitCondition::default(),
    );
    assert_eq!(twice.output_facts(&inputs), Err(ScanError::MappingArity));
    let no_fact = scan_op(vec![], vec![scan_in(0, 0, 1)], vec![scan_out(0, 0, 1)], ExitCondition::default());
    assert_eq!(no_fact.output_facts(&inputs), Err(ScanError::MappingArity));
    let bad_axis = scan_op(body(), vec![scan_in(0, 0, 1)], vec![scan_out(0, 1, 1)], ExitCondition::default());
    assert_eq!(bad_axis.output_facts(&inputs), Err(ScanError::SliceMismatch));
    let no_count = scan_op(body(), vec![InputMapping::IterIndex], vec![scan_out(0, 0, 1)], ExitCondition::default());
    assert_eq!(no_count.output_facts(&inputs), Err(ScanError::ShapeResolutionFailure));
    let bad_input = scan_op(body(), vec![scan_in(3, 0, 1)], vec![scan_out(0, 0, 1)], ExitCondition::default());
    assert_eq!(bad_input.output_facts(&inputs), Err(ScanError::MappingArity));
}

#[test]
fn info_has_one_line_per_mapping() {
    let op = scan_op(
        vec![],
        vec![
            InputMapping::IterIndex,
            InputMapping::State {
                initializer: StateInitializer::Value(Arc::new(Tensor::scalar(DatumType::Bool, 0))),
            },
            InputMapping::State { initializer: StateInitializer::FromInput(1) },
            scan_in(12, 0, -2),
            InputMapping::Full { slot: 3 },
        ],
        vec![
            OutputMapping::new(None, None, true, None),
            OutputMapping::new(None, Some(0), true, None),
            OutputMapping::new(Some(ScanInfo::new(1, 2, 1)), None, false, Some(TDim::Val(60))),
        ],
        ExitCondition::default(),
    );
    assert_eq!(
        op.info(),
        vec![
            "Model input  #0: Iter index".to_string(),
            "Model input  #1: State initialized by tensor ,Bool 0".to_string(),
            "Model input  #2: State initialized by inlet 1".to_string(),
            "Model input  #3: Scan inlet 12, axis: 0, chunk: -2.".to_string(),
            "Model input  #4: Full, inlet 3".to_string(),
            "Model output #0: State. ".to_string(),
            "Model output #1: State. Last value to outlet 0. ".to_string(),
            "Model output #2: Full value to outlet 1 (axis: 2). Full len 60. ".to_string(),
        ]
    );
}
