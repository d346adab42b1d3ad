use scan_core::dim::TDim;
use scan_core::mapping::{InputMapping, OutputMapping, ScanInfo, StateInitializer};
use scan_core::tensor::{DatumType, Tensor};
use scan_core::text::{push_decimal, push_dim, push_signed, push_tensor};
use std::sync::Arc;

fn decimal(n: u64) -> String {
    let mut s = String::new();
    push_decimal(&mut s, n);
    s
}

fn signed(v: i64) -> String {
    let mut s = String::new();
    push_signed(&mut s, v);
    s
}

#[test]
fn decimal_digits_most_significant_first() {
    assert_eq!(decimal(0), "0");
    assert_eq!(decimal(7), "7");
    assert_eq!(decimal(10), "10");
    assert_eq!(decimal(1234567890), "1234567890");
    assert_eq!(decimal(u64::MAX), "18446744073709551615");
}

#[test]
fn signed_digits_with_minus() {
    assert_eq!(signed(0), "0");
    assert_eq!(signed(-1), "-1");
    assert_eq!(signed(45), "45");
    assert_eq!(signed(i64::MIN), "-9223372036854775808");
    assert_eq!(signed(i64::MAX), "9223372036854775807");
}

#[test]
fn push_appends_after_what_is_there() {
    let mut s = "n=".to_string();
    push_decimal(&mut s, 42);
    assert_eq!(s, "n=42");
}

#[test]
fn dimension_text() {
    let mut s = String::new();
    push_dim(
        &mut s,
        &TDim::Mul(
            Box::new(TDim::Val(-3)),
            Box::new(TDim::DivCeil(Box::new(TDim::Sym(7)), 4)),
        ),
    );
    assert_eq!(s, "(-3)*(ceil((s7)/4))");
}

#[test]
fn tensor_text_lists_shape_type_and_data() {
    let t = Tensor::from_vec(DatumType::I64, vec![2, 2], vec![1, -2, 3, 4]).unwrap();
    let mut s = String::new();
    push_tensor(&mut s, &t);
    assert_eq!(s, "2,2,I64 1, -2, 3, 4");
    let mut s = String::new();
    push_tensor(&mut s, &Tensor::scalar(DatumType::TDim, 5));
    assert_eq!(s, ",TDim 5");
}

#[test]
fn mappings_in_words() {
    assert_eq!(InputMapping::Full { slot: 2 }.describe(), "Full, inlet 2");
    assert_eq!(InputMapping::IterIndex.describe(), "Iter index");
    assert_eq!(
        InputMapping::Scan(ScanInfo::new(1, 2, 3)).describe(),
        "Scan inlet 1, axis: 2, chunk: 3."
    );
    assert_eq!(StateInitializer::FromInput(9).describe(), "inlet 9");
    assert_eq!(
        StateInitializer::Value(Arc::new(Tensor::scalar(DatumType::I64, -1))).describe(),
        "tensor ,I64 -1"
    );
    let all: OutputMapping<TDim> =
        OutputMapping::new(Some(ScanInfo::new(0, 1, -1)), Some(2), true, Some(TDim::Sym(0)));
    assert_eq!(
        all.describe(),
        "State. Last value to outlet 2. Full value to outlet 0 (axis: 1). Full len s0. "
    );
    let none: OutputMapping<TDim> = OutputMapping::default();
    assert_eq!(none.describe(), "");
}
