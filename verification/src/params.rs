//! Parameter environments and constant-expression evaluation.
use vstd::prelude::*;
use crate::design::{Module, ParamDecl};
use crate::env::ParamMap;
use crate::expr::{Evaluation, eval_tokens, evaluate_tokens};
use crate::lexer::{TokenView, lex, tokenize_chars};
use crate::text::{alphanumeric, char_is_alphanumeric, chars_of, trim_str, trimmed};

verus! {

pub open spec fn pow2(e: nat) -> int
    decreases e,
{
    if e == 0 {
        1
    } else {
        2 * pow2((e - 1) as nat)
    }
}

/// Number of binary digits of `x` (0 for 0).
pub open spec fn bit_length(x: int) -> int
    decreases x,
{
    if x <= 0 {
        0
    } else {
        1 + bit_length(x / 2)
    }
}

/// `$clog2(n)`: the ceiling of log2 of `n`, and 1 for `n <= 1`.
pub open spec fn clog2(n: i64) -> i64 {
    if n <= 1 {
        1
    } else {
        bit_length(n - 1) as i64
    }
}

proof fn lemma_bit_length(x: int, k: nat)
    requires
        x >= 0,
        x < pow2(k),
        k == 0 || pow2((k - 1) as nat) <= x,
    ensures
        bit_length(x) == k,
    decreases k,
{
    if k > 0 {
        assert(x / 2 < pow2((k - 1) as nat));
        if k > 1 {
            assert(pow2((k - 2) as nat) <= x / 2);
        }
        lemma_bit_length(x / 2, (k - 1) as nat);
    }
}

/// `$clog2` — ceiling of log2, minimum 1.
pub fn evaluate_clog2(n: i64) -> (r: i64)
    ensures
        r == clog2(n),
        n <= 1 ==> r == 1,
        n > 1 ==> 1 <= r <= 63 && pow2((r - 1) as nat) < n <= pow2(r as nat),
{
    if n <= 1 {
        return 1;
    }
    let mut r: u32 = 0;
    let mut p: u64 = 1;
    while p < n as u64
        invariant
            n > 1,
            r <= 63,
            p == pow2(r as nat),
            r > 0 ==> pow2((r - 1) as nat) < n,
        decreases 64 - r,
    {
        assert(r < 63) by {
            if r == 63 {
                assert(pow2(63) == 0x8000_0000_0000_0000) by {
                    reveal_with_fuel(pow2, 64);
                }
            }
        }
        p = p * 2;
        r = r + 1;
    }
    proof {
        lemma_bit_length(n - 1, r as nat);
    }
    r as i64
}


/// Per-character answers of `char::is_alphanumeric`.
pub open spec fn alnum_flags(cs: Seq<char>) -> Seq<bool> {
    cs.map_values(|c: char| alphanumeric(c))
}

/// Tokens of an expression string (after trimming it).
pub open spec fn expr_tokens(expr: Seq<char>) -> Option<Seq<TokenView>> {
    lex(trimmed(expr), alnum_flags(trimmed(expr)), 0)
}

/// What evaluating `expr` against `env` gives.
pub open spec fn expr_evaluation(expr: Seq<char>, env: Map<Seq<char>, i64>) -> Evaluation {
    match expr_tokens(expr) {
        Some(ts) => eval_tokens(ts, env),
        None => Evaluation::Undefined,
    }
}

pub open spec fn evaluation_value(e: Evaluation) -> Option<i64> {
    match e {
        Evaluation::Value(v) => Some(v),
        _ => None,
    }
}

/// Evaluates a SystemVerilog constant expression against a parameter map,
/// reporting an arithmetic trap (the negation, division or remainder
/// overflow on which `evaluate_expr` would panic) instead of panicking.
pub fn try_evaluate_expr(expr: &str, params: &ParamMap) -> (r: Evaluation)
    ensures
        r == expr_evaluation(expr@, params@),
{
    let t = trim_str(expr);
    let chars = chars_of(t);
    let mut flags: Vec<bool> = Vec::new();
    let mut i: usize = 0;
    while i < chars.len()
        invariant
            i <= chars.len(),
            flags@ == alnum_flags(chars@).subrange(0, i as int),
        decreases chars.len() - i,
    {
        flags.push(char_is_alphanumeric(chars[i]));
        i += 1;
    }
    assert(flags@ =~= alnum_flags(chars@));
    match tokenize_chars(&chars, &flags) {
        Some(tokens) => evaluate_tokens(&tokens, params),
        None => Evaluation::Undefined,
    }
}

/// Evaluates a SystemVerilog constant-expression string against a parameter
/// map. `None` if any identifier reached is unresolvable, the expression is
/// malformed or leaves tokens over, a division or remainder is by zero, an
/// exponent is negative, a shift count is negative (counts above 63 are
/// taken as 63), or a checked operation overflows.
pub fn evaluate_expr(expr: &str, params: &ParamMap) -> (r: Option<i64>)
    requires
        !(expr_evaluation(expr@, params@) is Trap),
    ensures
        r == evaluation_value(expr_evaluation(expr@, params@)),
{
    match try_evaluate_expr(expr, params) {
        Evaluation::Value(v) => Some(v),
        _ => None,
    }
}

/// The environment that a module's parameter declarations give, evaluated
/// in order so that each may use the ones before it; a declaration whose
/// value has no value is left out. `None` when an evaluation traps.
pub open spec fn declared_env(ps: Seq<ParamDecl>) -> Option<Map<Seq<char>, i64>>
    decreases ps.len(),
{
    if ps.len() == 0 {
        Some(Map::empty())
    } else {
        match declared_env(ps.drop_last()) {
            Some(m) => match expr_evaluation(trimmed(ps.last().value@), m) {
                Evaluation::Value(v) => Some(m.insert(ps.last().name@, v)),
                Evaluation::Undefined => Some(m),
                Evaluation::Trap => None,
            },
            None => None,
        }
    }
}

/// The environment after binding each override in turn.
pub open spec fn overridden(m: Map<Seq<char>, i64>, ovs: Seq<(String, i64)>) -> Map<Seq<char>, i64>
    decreases ovs.len(),
{
    if ovs.len() == 0 {
        m
    } else {
        overridden(m, ovs.drop_last()).insert(ovs.last().0@, ovs.last().1)
    }
}

/// Resolved parameter environment: name to integer value.
#[derive(Debug, Clone)]
pub struct ParamEnv {
    values: ParamMap,
}

impl View for ParamEnv {
    type V = Map<Seq<char>, i64>;

    closed spec fn view(&self) -> Map<Seq<char>, i64> {
        self.values@
    }
}

impl Default for ParamEnv {
    fn default() -> (r: ParamEnv)
        ensures
            r@ == Map::<Seq<char>, i64>::empty(),
    {
        ParamEnv { values: ParamMap::new() }
    }
}

impl ParamEnv {
    /// An empty environment.
    pub fn new() -> (r: ParamEnv)
        ensures
            r@ == Map::<Seq<char>, i64>::empty(),
    {
        ParamEnv { values: ParamMap::new() }
    }

    /// Builds a ParamEnv from a module's default parameter declarations,
    /// reporting `None` where one of the evaluations traps.
    pub fn try_from_module(module: &Module) -> (r: Option<ParamEnv>)
        ensures
            match r {
                Some(env) => declared_env(module.params@) == Some(env@),
                None => declared_env(module.params@) is None,
            },
    {
        let mut env = ParamEnv::new();
        let mut i: usize = 0;
        let ghost ps = module.params@;
        while i < module.params.len()
            invariant
                ps == module.params@,
                i <= ps.len(),
                declared_env(ps.subrange(0, i as int)) == Some(env@),
            decreases ps.len() - i,
        {
            let p = &module.params[i];
            proof {
                assert(ps.subrange(0, i + 1).drop_last() =~= ps.subrange(0, i as int));
            }
            match try_evaluate_expr(trim_str(p.value.as_str()), &env.values) {
                Evaluation::Value(v) => {
                    env.values.insert(p.name.clone(), v);
                },
                Evaluation::Undefined => {},
                Evaluation::Trap => {
                    proof {
                        lemma_declared_env_trap(ps, i + 1);
                    }
                    return None;
                },
            }
            i += 1;
        }
        assert(ps.subrange(0, ps.len() as int) =~= ps);
        Some(env)
    }

    /// Builds a ParamEnv from a module's default parameter declarations.
    /// Earlier params are visible to later ones (sequential evaluation).
    pub fn from_module(module: &Module) -> (r: ParamEnv)
        requires
            declared_env(module.params@) is Some,
        ensures
            declared_env(module.params@) == Some(r@),
    {
        match ParamEnv::try_from_module(module) {
            Some(env) => env,
            None => ParamEnv::new(),
        }
    }

    /// Apply overrides (e.g. from -P or parent instance bindings).
    pub fn with_overrides(self, overrides: &[(String, i64)]) -> (r: ParamEnv)
        ensures
            r@ == overridden(self@, overrides@),
    {
        let mut env = self;
        let ghost start = env@;
        let mut i: usize = 0;
        while i < overrides.len()
            invariant
                i <= overrides@.len(),
                env@ == overridden(start, overrides@.subrange(0, i as int)),
            decreases overrides@.len() - i,
        {
            proof {
                assert(overrides@.subrange(0, i + 1).drop_last() =~= overrides@.subrange(0, i as int));
            }
            let (k, v) = &overrides[i];
            env.values.insert(k.clone(), *v);
            i += 1;
        }
        assert(overrides@.subrange(0, overrides@.len() as int) =~= overrides@);
        env
    }

    pub fn get(&self, name: &str) -> (r: Option<i64>)
        ensures
            r == (if self@.contains_key(name@) { Some(self@[name@]) } else { None }),
    {
        self.values.get(name)
    }

    pub fn as_map(&self) -> (r: &ParamMap)
        ensures
            r@ == self@,
    {
        &self.values
    }
}

/// Once an evaluation traps, every longer list of declarations traps.
proof fn lemma_declared_env_trap(ps: Seq<ParamDecl>, k: int)
    requires
        0 < k <= ps.len(),
        declared_env(ps.subrange(0, k)) is None,
    ensures
        declared_env(ps) is None,
    decreases ps.len() - k,
{
    if k < ps.len() {
        assert(ps.subrange(0, k + 1).drop_last() =~= ps.subrange(0, k));
        lemma_declared_env_trap(ps, k + 1);
    } else {
        assert(ps.subrange(0, k) =~= ps);
    }
}

} // verus!
