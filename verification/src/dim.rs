//! Symbolic dimensions: integers, symbols, and the two operations the scan
//! needs of them, product and division rounded up.

use vstd::prelude::*;

verus! {

/// A dimension: a known integer, a symbol, or an expression over them.
#[derive(Debug, PartialEq, Eq)]
pub enum TDim {
    Val(i64),
    Sym(usize),
    Mul(Box<TDim>, Box<TDim>),
    DivCeil(Box<TDim>, u64),
}

/// The integers bound to symbols: symbol `s` is bound where entry `s` exists
/// and is `Some`.
#[derive(Debug, Clone, PartialEq, Eq)]
pub struct SymbolValues {
    pub values: Vec<Option<i64>>,
}

/// The binding of a symbol in an environment.
pub open spec fn lookup(env: Seq<Option<i64>>, sym: usize) -> Option<i64> {
    if sym < env.len() {
        env[sym as int]
    } else {
        None
    }
}

/// `a / n` rounded towards positive infinity, for a positive `n`.
pub open spec fn ceil_div(a: int, n: int) -> int {
    (a + n - 1) / n
}

/// Whether `big` binds every symbol that `small` binds, to the same value.
pub open spec fn extends(big: Seq<Option<i64>>, small: Seq<Option<i64>>) -> bool {
    forall|s: usize| (#[trigger] lookup(small, s)).is_some() ==> lookup(big, s) == lookup(small, s)
}

impl TDim {
    /// The integer this dimension denotes under an environment, where every
    /// symbol it mentions is bound and no divisor is zero.
    pub open spec fn value(self, env: Seq<Option<i64>>) -> Option<int>
        decreases self,
    {
        match self {
            TDim::Val(v) => Some(v as int),
            TDim::Sym(s) => match lookup(env, s) {
                Some(v) => Some(v as int),
                None => None,
            },
            TDim::Mul(a, b) => match (a.value(env), b.value(env)) {
                (Some(x), Some(y)) => Some(x * y),
                _ => None,
            },
            TDim::DivCeil(a, n) => match a.value(env) {
                Some(x) => if n > 0 {
                    Some(ceil_div(x, n as int))
                } else {
                    None
                },
                None => None,
            },
        }
    }

    /// The product of two dimensions: the integer product where both are
    /// known integers and it fits, the expression otherwise.
    pub open spec fn product(a: TDim, b: TDim) -> TDim {
        match (a, b) {
            (TDim::Val(x), TDim::Val(y)) => if i64::MIN <= x * y <= i64::MAX {
                TDim::Val((x * y) as i64)
            } else {
                TDim::Mul(Box::new(a), Box::new(b))
            },
            _ => TDim::Mul(Box::new(a), Box::new(b)),
        }
    }

    /// A dimension divided by `n`, rounded up: the integer where the
    /// dimension is a known non-negative integer and `n` is positive, the
    /// expression otherwise.
    pub open spec fn quotient_up(a: TDim, n: u64) -> TDim {
        match a {
            TDim::Val(x) => if x >= 0 && n > 0 {
                TDim::Val(ceil_div(x as int, n as int) as i64)
            } else {
                TDim::DivCeil(Box::new(a), n)
            },
            _ => TDim::DivCeil(Box::new(a), n),
        }
    }

    /// The dimension with every bound symbol replaced by its integer and
    /// every operation on known integers carried out.
    pub open spec fn subst(self, env: Seq<Option<i64>>) -> TDim
        decreases self,
    {
        match self {
            TDim::Val(v) => TDim::Val(v),
            TDim::Sym(s) => match lookup(env, s) {
                Some(v) => TDim::Val(v),
                None => TDim::Sym(s),
            },
            TDim::Mul(a, b) => TDim::product(a.subst(env), b.subst(env)),
            TDim::DivCeil(a, n) => TDim::quotient_up(a.subst(env), n),
        }
    }

    /// The dimension as a machine index, where it is a known non-negative
    /// integer that fits one.
    pub open spec fn as_index(self) -> Option<usize> {
        match self {
            TDim::Val(v) => if 0 <= v <= usize::MAX {
                Some(v as usize)
            } else {
                None
            },
            _ => None,
        }
    }
}

/// For a non-negative `x` and a positive `n`, the quotient rounded up lies
/// between zero and `x`, and is the plain quotient plus one where a
/// remainder is left.
pub proof fn lemma_ceil_div(x: int, n: int)
    requires
        x >= 0,
        n > 0,
    ensures
        0 <= ceil_div(x, n) <= x,
        ceil_div(x, n) == (if x % n == 0 {
            x / n
        } else {
            x / n + 1
        }),
        (ceil_div(x, n) - 1) * n < x || x == 0,
        x <= ceil_div(x, n) * n,
{
    let q = x / n;
    let r = x % n;
    vstd::arithmetic::div_mod::lemma_fundamental_div_mod(x, n);
    vstd::arithmetic::div_mod::lemma_mod_bound(x, n);
    vstd::arithmetic::div_mod::lemma_div_pos_is_pos(x, n);
    assert(x == n * q + r);
    if r == 0 {
        assert(x + n - 1 == q * n + (n - 1)) by (nonlinear_arith)
            requires
                x == n * q,
        ;
        vstd::arithmetic::div_mod::lemma_fundamental_div_mod_converse(x + n - 1, n, q, n - 1);
        assert(q <= n * q) by (nonlinear_arith)
            requires
                q >= 0,
                n > 0,
        ;
        assert((q - 1) * n < q * n) by (nonlinear_arith)
            requires
                n > 0,
        ;
        assert(q * n == n * q) by (nonlinear_arith);
    } else {
        assert(x + n - 1 == (q + 1) * n + (r - 1)) by (nonlinear_arith)
            requires
                x == n * q + r,
        ;
        vstd::arithmetic::div_mod::lemma_fundamental_div_mod_converse(
            x + n - 1,
            n,
            q + 1,
            r - 1,
        );
        assert(q + 1 <= n * q + r) by (nonlinear_arith)
            requires
                q >= 0,
                n > 0,
                r >= 1,
        ;
        assert((q + 1 - 1) * n < n * q + r && n * q + r <= (q + 1) * n) by (nonlinear_arith)
            requires
                n > 0,
                1 <= r < n,
        ;
    }
}

/// Replacing bound symbols by their integers does not change what a
/// dimension denotes, under any environment that holds those bindings.
pub proof fn lemma_subst_keeps_value(d: TDim, env: Seq<Option<i64>>, big: Seq<Option<i64>>)
    requires
        extends(big, env),
    ensures
        d.subst(env).value(big) == d.value(big),
    decreases d,
{
    match d {
        TDim::Val(v) => {},
        TDim::Sym(s) => {
            if lookup(env, s).is_some() {
                assert(lookup(big, s) == lookup(env, s));
            }
        },
        TDim::Mul(a, b) => {
            lemma_subst_keeps_value(*a, env, big);
            lemma_subst_keeps_value(*b, env, big);
        },
        TDim::DivCeil(a, n) => {
            lemma_subst_keeps_value(*a, env, big);
            let sa = a.subst(env);
            if let TDim::Val(x) = sa {
                if x >= 0 && n > 0 {
                    lemma_ceil_div(x as int, n as int);
                }
            }
        },
    }
}

impl Clone for TDim {
    fn clone(&self) -> (r: Self)
        ensures
            r == *self,
        decreases *self,
    {
        match self {
            TDim::Val(v) => TDim::Val(*v),
            TDim::Sym(s) => TDim::Sym(*s),
            TDim::Mul(a, b) => {
                let x: TDim = (**a).clone();
                let y: TDim = (**b).clone();
                TDim::Mul(Box::new(x), Box::new(y))
            },
            TDim::DivCeil(a, n) => {
                let x: TDim = (**a).clone();
                TDim::DivCeil(Box::new(x), *n)
            },
        }
    }
}

impl TDim {
    /// The product of two dimensions.
    pub fn mul(self, other: TDim) -> (r: TDim)
        ensures
            r == TDim::product(self, other),
    {
        match (&self, &other) {
            (TDim::Val(x), TDim::Val(y)) => {
                match x.checked_mul(*y) {
                    Some(z) => TDim::Val(z),
                    None => TDim::Mul(Box::new(self), Box::new(other)),
                }
            },
            _ => TDim::Mul(Box::new(self), Box::new(other)),
        }
    }

    /// The dimension divided by `n`, rounded up.
    pub fn div_ceil(self, n: u64) -> (r: TDim)
        ensures
            r == TDim::quotient_up(self, n),
    {
        match &self {
            TDim::Val(x) => {
                if *x >= 0 && n > 0 {
                    let xu: u64 = *x as u64;
                    let q: u64 = xu / n;
                    let rem: u64 = xu % n;
                    proof {
                        lemma_ceil_div(*x as int, n as int);
                    }
                    let c: u64 = if rem == 0 {
                        q
                    } else {
                        q + 1
                    };
                    TDim::Val(c as i64)
                } else {
                    TDim::DivCeil(Box::new(self), n)
                }
            },
            _ => TDim::DivCeil(Box::new(self), n),
        }
    }

    /// The dimension with every symbol bound in `values` replaced by its
    /// integer, and every operation on known integers carried out.
    pub fn eval(&self, values: &SymbolValues) -> (r: TDim)
        ensures
            r == self.subst(values.values@),
        decreases *self,
    {
        match self {
            TDim::Val(v) => TDim::Val(*v),
            TDim::Sym(s) => {
                if *s < values.values.len() {
                    match values.values[*s] {
                        Some(v) => TDim::Val(v),
                        None => TDim::Sym(*s),
                    }
                } else {
                    TDim::Sym(*s)
                }
            },
            TDim::Mul(a, b) => {
                let x = a.eval(values);
                let y = b.eval(values);
                x.mul(y)
            },
            TDim::DivCeil(a, n) => {
                let x = a.eval(values);
                x.div_ceil(*n)
            },
        }
    }

    /// The dimension as a machine index, where it is a known non-negative
    /// integer that fits one.
    pub fn to_usize(&self) -> (r: Option<usize>)
        ensures
            r == self.as_index(),
    {
        match self {
            TDim::Val(v) => {
                if *v >= 0 && (*v as u64) <= usize::MAX as u64 {
                    Some(*v as usize)
                } else {
                    None
                }
            },
            _ => None,
        }
    }

    /// The dimension as an integer, where it is a known one.
    pub fn as_i64(&self) -> (r: Option<i64>)
        ensures
            r == (match *self {
                TDim::Val(v) => Some(v),
                _ => None,
            }),
    {
        match self {
            TDim::Val(v) => Some(*v),
            _ => None,
        }
    }
}

} // verus!
