use scan_core::dim::{SymbolValues, TDim};

fn sym(n: usize) -> TDim {
    TDim::Sym(n)
}

#[test]
fn div_ceil_rounds_up() {
    assert_eq!(TDim::Val(7).div_ceil(2), TDim::Val(4));
    assert_eq!(TDim::Val(6).div_ceil(2), TDim::Val(3));
    assert_eq!(TDim::Val(5).div_ceil(2), TDim::Val(3));
    assert_eq!(TDim::Val(0).div_ceil(3), TDim::Val(0));
    assert_eq!(TDim::Val(1).div_ceil(u64::MAX), TDim::Val(1));
    assert_eq!(TDim::Val(i64::MAX).div_ceil(1), TDim::Val(i64::MAX));
}

#[test]
fn div_ceil_keeps_what_it_cannot_fold() {
    assert_eq!(sym(0).div_ceil(2), TDim::DivCeil(Box::new(sym(0)), 2));
    assert_eq!(TDim::Val(-3).div_ceil(2), TDim::DivCeil(Box::new(TDim::Val(-3)), 2));
    assert_eq!(TDim::Val(3).div_ceil(0), TDim::DivCeil(Box::new(TDim::Val(3)), 0));
}

#[test]
fn mul_folds_integers_that_fit() {
    assert_eq!(TDim::Val(3).mul(TDim::Val(4)), TDim::Val(12));
    assert_eq!(TDim::Val(-3).mul(TDim::Val(4)), TDim::Val(-12));
    assert_eq!(
        TDim::Val(i64::MAX).mul(TDim::Val(2)),
        TDim::Mul(Box::new(TDim::Val(i64::MAX)), Box::new(TDim::Val(2)))
    );
    assert_eq!(sym(1).mul(TDim::Val(2)), TDim::Mul(Box::new(sym(1)), Box::new(TDim::Val(2))));
}

#[test]
fn eval_replaces_bound_symbols() {
    let values = SymbolValues { values: vec![Some(5), None] };
    let d = TDim::Mul(Box::new(sym(0)), Box::new(TDim::Val(3)));
    assert_eq!(d.eval(&values), TDim::Val(15));
    let d = TDim::DivCeil(Box::new(sym(0)), 2);
    assert_eq!(d.eval(&values), TDim::Val(3));
    let d = TDim::DivCeil(Box::new(sym(1)), 2);
    assert_eq!(d.eval(&values), TDim::DivCeil(Box::new(sym(1)), 2));
    assert_eq!(sym(7).eval(&values), sym(7));
    let d = TDim::Mul(Box::new(sym(1)), Box::new(sym(0)));
    assert_eq!(d.eval(&values), TDim::Mul(Box::new(sym(1)), Box::new(TDim::Val(5))));
}

#[test]
fn to_usize_wants_a_non_negative_integer() {
    assert_eq!(TDim::Val(5).to_usize(), Some(5));
    assert_eq!(TDim::Val(0).to_usize(), Some(0));
    assert_eq!(TDim::Val(-1).to_usize(), None);
    assert_eq!(sym(0).to_usize(), None);
    assert_eq!(TDim::Val(5).as_i64(), Some(5));
    assert_eq!(sym(0).as_i64(), None);
}

#[test]
fn clone_is_equal() {
    let d = TDim::Mul(Box::new(sym(0)), Box::new(TDim::DivCeil(Box::new(TDim::Val(3)), 2)));
    assert_eq!(d.clone(), d);
}
