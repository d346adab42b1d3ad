//! What is known of a tensor before it exists: its datum type, its possibly
//! symbolic shape, and its value where it is a constant.

use crate::dim::TDim;
use crate::error::ScanError;
use crate::tensor::DatumType;
use crate::tensor::Tensor;
use crate::tensor::TensorView;
use std::sync::Arc;
use vstd::prelude::*;

verus! {

/// The description of a tensor at compile time.
#[derive(Debug, PartialEq, Eq)]
pub struct TypedFact {
    pub datum_type: DatumType,
    pub shape: Vec<TDim>,
    pub konst: Option<Arc<Tensor>>,
}

/// The mathematical content of a fact.
pub struct FactView {
    pub datum_type: DatumType,
    pub shape: Seq<TDim>,
    pub konst: Option<TensorView>,
}

impl View for TypedFact {
    type V = FactView;

    open spec fn view(&self) -> FactView {
        FactView {
            datum_type: self.datum_type,
            shape: self.shape@,
            konst: match self.konst {
                Some(t) => Some(t@),
                None => None,
            },
        }
    }
}

impl TypedFact {
    /// The fact of a tensor of the given datum type and shape whose value is
    /// not known.
    pub fn dt_shape(datum_type: DatumType, shape: Vec<TDim>) -> (r: TypedFact)
        ensures
            r@ == (FactView { datum_type, shape: shape@, konst: None }),
    {
        TypedFact { datum_type, shape, konst: None }
    }
}

/// The views of a list of facts.
pub open spec fn fact_views(facts: Seq<TypedFact>) -> Seq<FactView> {
    Seq::new(facts.len(), |k: int| facts[k]@)
}

/// A copy of a shape.
pub fn clone_shape(shape: &Vec<TDim>) -> (r: Vec<TDim>)
    ensures
        r@ == shape@,
{
    let mut out: Vec<TDim> = Vec::new();
    let n = shape.len();
    let mut k: usize = 0;
    while k < n
        invariant
            n == shape.len(),
            k <= n,
            out@ == shape@.take(k as int),
        decreases n - k,
    {
        let d = shape[k].clone();
        out.push(d);
        assert(out@ =~= shape@.take(k as int + 1));
        k += 1;
    }
    assert(shape@.take(n as int) =~= shape@);
    out
}

/// The results of `f` at `0, .., n - 1` where all succeed, the first
/// failure otherwise.
pub open spec fn gather<T>(n: nat, f: spec_fn(int) -> Result<T, ScanError>) -> Result<
    Seq<T>,
    ScanError,
>
    decreases n,
{
    if n == 0 {
        Ok(Seq::<T>::empty())
    } else {
        match gather((n - 1) as nat, f) {
            Err(e) => Err(e),
            Ok(v) => match f(n - 1) {
                Ok(t) => Ok(v.push(t)),
                Err(e) => Err(e),
            },
        }
    }
}

/// What `gather` holds where it succeeds: one result per index, each the
/// success of `f` there.
pub proof fn lemma_gather_ok<T>(n: nat, f: spec_fn(int) -> Result<T, ScanError>)
    ensures
        gather(n, f) matches Ok(v) ==> v.len() == n && forall|k: int|
            0 <= k < n ==> f(k) == Ok::<T, ScanError>(#[trigger] v[k]),
        (forall|k: int| 0 <= k < n ==> (#[trigger] f(k)).is_ok()) ==> gather(n, f).is_ok(),
    decreases n,
{
    if n > 0 {
        lemma_gather_ok((n - 1) as nat, f);
    }
}

/// Once `gather` has met a failure, it keeps it however far it goes on.
pub proof fn lemma_gather_err<T>(m: nat, n: nat, f: spec_fn(int) -> Result<T, ScanError>)
    requires
        m <= n,
        gather(m, f).is_err(),
    ensures
        gather(n, f) == gather(m, f),
    decreases n,
{
    if m < n {
        lemma_gather_err(m, (n - 1) as nat, f);
    }
}

} // verus!
