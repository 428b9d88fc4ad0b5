//! Bit widths of signals: packed width times the product of the unpacked
//! dimensions, with each `[msb:lsb]` bound evaluated as a constant expression.
use vstd::prelude::*;
use crate::design::{Range, Signal};
use crate::env::ParamMap;
use crate::expr::Evaluation;
use crate::params::{ParamEnv, expr_evaluation, try_evaluate_expr};

verus! {

pub open spec fn opt_i64(o: Option<i64>) -> Option<int> {
    match o {
        Some(v) => Some(v as int),
        None => None,
    }
}

pub open spec fn fits_i64(x: int) -> bool {
    i64::MIN <= x && x <= i64::MAX
}

/// Width of one dimension: `|msb - lsb| + 1` when both bounds evaluate,
/// 1 when either does not. `None` when the computation overflows (or a bound
/// traps), where the arithmetic panics.
pub open spec fn range_width(r: Range, env: Map<Seq<char>, i64>) -> Option<int> {
    let m = expr_evaluation(r.msb@, env);
    let l = expr_evaluation(r.lsb@, env);
    if m == Evaluation::Trap || l == Evaluation::Trap {
        None
    } else {
        match (m, l) {
            (Evaluation::Value(a), Evaluation::Value(b)) => {
                let d = a - b;
                let w = if d < 0 { -d } else { d };
                if fits_i64(d) && d != i64::MIN && fits_i64(w + 1) {
                    Some(w + 1)
                } else {
                    None
                }
            },
            _ => Some(1),
        }
    }
}

pub open spec fn packed_width(r: Option<Range>, env: Map<Seq<char>, i64>) -> Option<int> {
    match r {
        Some(r) => range_width(r, env),
        None => Some(1),
    }
}

/// Product of the widths of `dims`, multiplied left to right.
pub open spec fn dims_product(dims: Seq<Range>, env: Map<Seq<char>, i64>) -> Option<int>
    decreases dims.len(),
{
    if dims.len() == 0 {
        Some(1)
    } else {
        match dims_product(dims.drop_last(), env) {
            Some(p) => match range_width(dims.last(), env) {
                Some(w) => if fits_i64(p * w) {
                    Some(p * w)
                } else {
                    None
                },
                None => None,
            },
            None => None,
        }
    }
}

/// Bit width of a packed dimension and unpacked dimensions: packed ×
/// product of unpacked. `None` when computing it overflows, where the
/// arithmetic panics.
pub open spec fn dims_width(packed: Option<Range>, unpacked: Seq<Range>, env: Map<Seq<char>, i64>) -> Option<int> {
    match (packed_width(packed, env), dims_product(unpacked, env)) {
        (Some(a), Some(b)) => if fits_i64(a * b) {
            Some(a * b)
        } else {
            None
        },
        _ => None,
    }
}

/// Total bit width of a signal: packed × unpacked.
pub open spec fn signal_width(s: Signal, env: Map<Seq<char>, i64>) -> Option<int> {
    dims_width(s.packed_width, s.unpacked_dims@, env)
}

fn try_range_width(range: Option<&Range>, params: &ParamMap) -> (r: Option<i64>)
    ensures
        match range {
            Some(rg) => opt_i64(r) == range_width(*rg, params@),
            None => r == Some(1i64),
        },
{
    match range {
        None => Some(1),
        Some(rg) => {
            let m = try_evaluate_expr(rg.msb.as_str(), params);
            let l = try_evaluate_expr(rg.lsb.as_str(), params);
            if m == Evaluation::Trap || l == Evaluation::Trap {
                return None;
            }
            match (m, l) {
                (Evaluation::Value(a), Evaluation::Value(b)) => {
                    let d = match a.checked_sub(b) {
                        Some(d) => d,
                        None => {
                            return None;
                        },
                    };
                    if d == i64::MIN {
                        return None;
                    }
                    let w = if d < 0 {
                        -d
                    } else {
                        d
                    };
                    match w.checked_add(1) {
                        Some(x) => Some(x),
                        None => None,
                    }
                },
                _ => Some(1),
            }
        },
    }
}

/// Width of a packed dimension with unpacked dimensions under `params`,
/// or `None` where computing it panics.
pub fn try_dims_width(packed_dim: &Option<Range>, dims: &Vec<Range>, params: &ParamMap) -> (r: Option<i64>)
    ensures
        opt_i64(r) == dims_width(*packed_dim, dims@, params@),
{
    let packed = match try_range_width(packed_dim.as_ref(), params) {
        Some(p) => p,
        None => {
            return None;
        },
    };
    let ghost env = params@;
    let mut product: i64 = 1;
    let mut i: usize = 0;
    while i < dims.len()
        invariant
            i <= dims.len(),
            env == params@,
            packed_width(*packed_dim, env) == Some(packed as int),
            dims_product(dims@.subrange(0, i as int), env) == Some(product as int),
        decreases dims.len() - i,
    {
        proof {
            assert(dims@.subrange(0, i + 1).drop_last() =~= dims@.subrange(0, i as int));
        }
        match try_range_width(Some(&dims[i]), params) {
            Some(w) => match product.checked_mul(w) {
                Some(x) => {
                    product = x;
                },
                None => {
                    proof {
                        lemma_dims_product_none(dims@, env, i + 1);
                    }
                    return None;
                },
            },
            None => {
                proof {
                    lemma_dims_product_none(dims@, env, i + 1);
                }
                return None;
            },
        }
        i += 1;
    }
    assert(dims@.subrange(0, dims.len() as int) =~= dims@);
    packed.checked_mul(product)
}

/// Width of `signal` under `params`, or `None` where computing it panics.
pub fn try_calculate_width_with_map(signal: &Signal, params: &ParamMap) -> (r: Option<i64>)
    ensures
        opt_i64(r) == signal_width(*signal, params@),
{
    try_dims_width(&signal.packed_width, &signal.unpacked_dims, params)
}

proof fn lemma_dims_product_none(dims: Seq<Range>, env: Map<Seq<char>, i64>, k: int)
    requires
        0 < k <= dims.len(),
        dims_product(dims.subrange(0, k), env) is None,
    ensures
        dims_product(dims, env) is None,
    decreases dims.len() - k,
{
    if k < dims.len() {
        assert(dims.subrange(0, k + 1).drop_last() =~= dims.subrange(0, k));
        lemma_dims_product_none(dims, env, k + 1);
    } else {
        assert(dims.subrange(0, k) =~= dims);
    }
}

/// Same as `calculate_width_with_params` but accepts a raw map for
/// convenience (e.g. from the unit tests).
pub fn calculate_width_with_map(signal: &Signal, params: &ParamMap) -> (r: i64)
    requires
        signal_width(*signal, params@) is Some,
    ensures
        r == signal_width(*signal, params@)->0,
{
    match try_calculate_width_with_map(signal, params) {
        Some(w) => w,
        None => 1,
    }
}

/// Compute packed × unpacked bit-width of a signal given a parameter environment.
pub fn calculate_width_with_params(signal: &Signal, env: &ParamEnv) -> (r: i64)
    requires
        signal_width(*signal, env@) is Some,
    ensures
        r == signal_width(*signal, env@)->0,
{
    calculate_width_with_map(signal, env.as_map())
}

/// Legacy no-params version (unresolvable bounds give width 1).
pub fn calculate_width(signal: &Signal) -> (r: i64)
    requires
        signal_width(*signal, Map::empty()) is Some,
    ensures
        r == signal_width(*signal, Map::empty())->0,
{
    let empty = ParamMap::new();
    calculate_width_with_map(signal, &empty)
}

/// Same as `calculate_width` but named for FF contexts.
pub fn calculate_ff_width(signal: &Signal) -> (r: i64)
    requires
        signal_width(*signal, Map::empty()) is Some,
    ensures
        r == signal_width(*signal, Map::empty())->0,
{
    calculate_width(signal)
}

} // verus!
