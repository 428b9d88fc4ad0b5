//! Recursive-descent evaluation of constant-expression tokens.
//!
//! Precedence, loosest first: comparisons, `|`, `^`, `&`, shifts, `+ -`,
//! `* / %`, `**`, unary `- ~`, primaries (numbers, parameters, `$clog2(..)`,
//! parenthesised expressions).
use vstd::prelude::*;
use crate::lexer::{Token, TokenView, views};
use crate::env::ParamMap;
use crate::params::{clog2, evaluate_clog2};
use crate::text::{owned, lowercased, to_lowercase};

verus! {

/// Outcome of parsing from a token position: a value and the position
/// after it, a failure (the expression has no value), or a trap (the
/// computation would overflow where Rust arithmetic panics).
pub enum Parsed {
    Done(i64, int),
    Fail,
    Trap,
}

/// Executable counterpart of `Parsed`.
pub enum Step {
    Done(i64, usize),
    Fail,
    Trap,
}

impl View for Step {
    type V = Parsed;

    open spec fn view(&self) -> Parsed {
        match self {
            Step::Done(v, q) => Parsed::Done(*v, *q as int),
            Step::Fail => Parsed::Fail,
            Step::Trap => Parsed::Trap,
        }
    }
}

/// Result of evaluating a whole expression.
#[derive(Debug, Clone, Copy, PartialEq, Eq, Structural)]
pub enum Evaluation {
    Value(i64),
    /// Malformed, unresolvable, out of range, or division by zero.
    Undefined,
    /// Overflow of a negation, a division or a remainder, where the
    /// arithmetic itself panics.
    Trap,
}

/// A parse that succeeds has consumed at least one token.
pub open spec fn advances(len: int, p: int, q: int) -> bool {
    p < q && q <= len
}

pub open spec fn int_pow(b: int, e: nat) -> int
    decreases e,
{
    if e == 0 {
        1
    } else {
        b * int_pow(b, (e - 1) as nat)
    }
}

/// `i64::checked_pow`.
pub open spec fn checked_pow(b: i64, e: nat) -> Option<i64> {
    let r = int_pow(b as int, e);
    if i64::MIN <= r && r <= i64::MAX {
        Some(r as i64)
    } else {
        None
    }
}

pub open spec fn checked_mul(a: i64, b: i64) -> Option<i64> {
    let r = a * b;
    if i64::MIN <= r && r <= i64::MAX {
        Some(r as i64)
    } else {
        None
    }
}

pub open spec fn checked_add(a: i64, b: i64) -> Option<i64> {
    let r = a + b;
    if i64::MIN <= r && r <= i64::MAX {
        Some(r as i64)
    } else {
        None
    }
}

pub open spec fn checked_sub(a: i64, b: i64) -> Option<i64> {
    let r = a - b;
    if i64::MIN <= r && r <= i64::MAX {
        Some(r as i64)
    } else {
        None
    }
}

/// Shift amount as the evaluator passes it to `checked_shl`/`checked_shr`:
/// the count capped at 63, then cast to `u32`.
pub open spec fn shift_amount(n: i64) -> u32 {
    (if n < 63 { n } else { 63 }) as u32
}

/// A system-function name that lowercases to `clog2`.
pub open spec fn is_clog2(name: Seq<char>) -> bool {
    lowercased(name) == "clog2"@
}

pub open spec fn closes(ts: Seq<TokenView>, q: int) -> bool {
    0 <= q < ts.len() && ts[q] is RParen
}

#[verifier::opaque]
pub open spec fn primary(ts: Seq<TokenView>, env: Map<Seq<char>, i64>, p: int) -> Parsed
    decreases ts.len() - p, 0int,
{
    if !(0 <= p < ts.len()) {
        Parsed::Fail
    } else {
        match ts[p] {
            Token::Num(n) => Parsed::Done(n, p + 1),
            Token::Ident(name) => if env.contains_key(name) {
                Parsed::Done(env[name], p + 1)
            } else {
                Parsed::Fail
            },
            Token::SysFn(name) => if is_clog2(name) && p + 1 < ts.len() && ts[p + 1] is LParen {
                match or_expr(ts, env, p + 2) {
                    Parsed::Done(v, q) => if closes(ts, q) {
                        Parsed::Done(clog2(v), q + 1)
                    } else {
                        Parsed::Fail
                    },
                    other => other,
                }
            } else {
                Parsed::Fail
            },
            Token::LParen => match or_expr(ts, env, p + 1) {
                Parsed::Done(v, q) => if closes(ts, q) {
                    Parsed::Done(v, q + 1)
                } else {
                    Parsed::Fail
                },
                other => other,
            },
            _ => Parsed::Fail,
        }
    }
}

#[verifier::opaque]
pub open spec fn unary(ts: Seq<TokenView>, env: Map<Seq<char>, i64>, p: int) -> Parsed
    decreases ts.len() - p, 1int,
{
    if 0 <= p < ts.len() && ts[p] is Minus {
        match unary(ts, env, p + 1) {
            Parsed::Done(v, q) => if v == i64::MIN {
                Parsed::Trap
            } else {
                Parsed::Done((-v) as i64, q)
            },
            other => other,
        }
    } else if 0 <= p < ts.len() && ts[p] is Tilde {
        match unary(ts, env, p + 1) {
            Parsed::Done(v, q) => Parsed::Done(!v, q),
            other => other,
        }
    } else {
        primary(ts, env, p)
    }
}

#[verifier::opaque]
pub open spec fn power(ts: Seq<TokenView>, env: Map<Seq<char>, i64>, p: int) -> Parsed
    decreases ts.len() - p, 2int,
{
    match unary(ts, env, p) {
        Parsed::Done(b, q) => if !advances(ts.len() as int, p, q) {
            Parsed::Fail
        } else if 0 <= q < ts.len() && ts[q] is Power {
            match unary(ts, env, q + 1) {
                Parsed::Done(e, q2) => if e < 0 {
                    Parsed::Fail
                } else {
                    match checked_pow(b, (e % 0x1_0000_0000) as nat) {
                        Some(r) => Parsed::Done(r, q2),
                        None => Parsed::Fail,
                    }
                },
                other => other,
            }
        } else {
            Parsed::Done(b, q)
        },
        other => other,
    }
}

#[verifier::opaque]
pub open spec fn mul_tail(ts: Seq<TokenView>, env: Map<Seq<char>, i64>, p: int, acc: i64) -> Parsed
    decreases ts.len() - p, 4int,
{
    if 0 <= p < ts.len() && (ts[p] is Star || ts[p] is Slash || ts[p] is Percent) {
        match power(ts, env, p + 1) {
            Parsed::Done(v, q) => if !advances(ts.len() as int, p, q) {
                Parsed::Fail
            } else if ts[p] is Star {
                match checked_mul(acc, v) {
                    Some(m) => mul_tail(ts, env, q, m),
                    None => Parsed::Fail,
                }
            } else if v == 0 {
                Parsed::Fail
            } else if acc == i64::MIN && v == -1 {
                Parsed::Trap
            } else if ts[p] is Slash {
                mul_tail(ts, env, q, acc.checked_div(v)->0)
            } else {
                mul_tail(ts, env, q, acc.checked_rem(v)->0)
            },
            other => other,
        }
    } else {
        Parsed::Done(acc, p)
    }
}

#[verifier::opaque]
pub open spec fn mul_expr(ts: Seq<TokenView>, env: Map<Seq<char>, i64>, p: int) -> Parsed
    decreases ts.len() - p, 3int,
{
    match power(ts, env, p) {
        Parsed::Done(v, q) => if advances(ts.len() as int, p, q) {
            mul_tail(ts, env, q, v)
        } else {
            Parsed::Fail
        },
        other => other,
    }
}

#[verifier::opaque]
pub open spec fn add_tail(ts: Seq<TokenView>, env: Map<Seq<char>, i64>, p: int, acc: i64) -> Parsed
    decreases ts.len() - p, 6int,
{
    if 0 <= p < ts.len() && (ts[p] is Plus || ts[p] is Minus) {
        match mul_expr(ts, env, p + 1) {
            Parsed::Done(v, q) => if !advances(ts.len() as int, p, q) {
                Parsed::Fail
            } else {
                match (if ts[p] is Plus { checked_add(acc, v) } else { checked_sub(acc, v) }) {
                    Some(s) => add_tail(ts, env, q, s),
                    None => Parsed::Fail,
                }
            },
            other => other,
        }
    } else {
        Parsed::Done(acc, p)
    }
}

#[verifier::opaque]
pub open spec fn add_expr(ts: Seq<TokenView>, env: Map<Seq<char>, i64>, p: int) -> Parsed
    decreases ts.len() - p, 5int,
{
    match mul_expr(ts, env, p) {
        Parsed::Done(v, q) => if advances(ts.len() as int, p, q) {
            add_tail(ts, env, q, v)
        } else {
            Parsed::Fail
        },
        other => other,
    }
}

#[verifier::opaque]
pub open spec fn shift_tail(ts: Seq<TokenView>, env: Map<Seq<char>, i64>, p: int, acc: i64) -> Parsed
    decreases ts.len() - p, 8int,
{
    if 0 <= p < ts.len() && (ts[p] is LShift || ts[p] is RShift) {
        match add_expr(ts, env, p + 1) {
            Parsed::Done(n, q) => if !advances(ts.len() as int, p, q) {
                Parsed::Fail
            } else if shift_amount(n) >= 64 {
                Parsed::Fail
            } else if ts[p] is LShift {
                shift_tail(ts, env, q, acc << shift_amount(n))
            } else {
                shift_tail(ts, env, q, acc >> shift_amount(n))
            },
            other => other,
        }
    } else {
        Parsed::Done(acc, p)
    }
}

#[verifier::opaque]
pub open spec fn shift_expr(ts: Seq<TokenView>, env: Map<Seq<char>, i64>, p: int) -> Parsed
    decreases ts.len() - p, 7int,
{
    match add_expr(ts, env, p) {
        Parsed::Done(v, q) => if advances(ts.len() as int, p, q) {
            shift_tail(ts, env, q, v)
        } else {
            Parsed::Fail
        },
        other => other,
    }
}

#[verifier::opaque]
pub open spec fn and_tail(ts: Seq<TokenView>, env: Map<Seq<char>, i64>, p: int, acc: i64) -> Parsed
    decreases ts.len() - p, 10int,
{
    if 0 <= p < ts.len() && ts[p] is Amp {
        match shift_expr(ts, env, p + 1) {
            Parsed::Done(v, q) => if advances(ts.len() as int, p, q) {
                and_tail(ts, env, q, acc & v)
            } else {
                Parsed::Fail
            },
            other => other,
        }
    } else {
        Parsed::Done(acc, p)
    }
}

#[verifier::opaque]
pub open spec fn and_expr(ts: Seq<TokenView>, env: Map<Seq<char>, i64>, p: int) -> Parsed
    decreases ts.len() - p, 9int,
{
    match shift_expr(ts, env, p) {
        Parsed::Done(v, q) => if advances(ts.len() as int, p, q) {
            and_tail(ts, env, q, v)
        } else {
            Parsed::Fail
        },
        other => other,
    }
}

#[verifier::opaque]
pub open spec fn xor_tail(ts: Seq<TokenView>, env: Map<Seq<char>, i64>, p: int, acc: i64) -> Parsed
    decreases ts.len() - p, 12int,
{
    if 0 <= p < ts.len() && ts[p] is Caret {
        match and_expr(ts, env, p + 1) {
            Parsed::Done(v, q) => if advances(ts.len() as int, p, q) {
                xor_tail(ts, env, q, acc ^ v)
            } else {
                Parsed::Fail
            },
            other => other,
        }
    } else {
        Parsed::Done(acc, p)
    }
}

#[verifier::opaque]
pub open spec fn xor_expr(ts: Seq<TokenView>, env: Map<Seq<char>, i64>, p: int) -> Parsed
    decreases ts.len() - p, 11int,
{
    match and_expr(ts, env, p) {
        Parsed::Done(v, q) => if advances(ts.len() as int, p, q) {
            xor_tail(ts, env, q, v)
        } else {
            Parsed::Fail
        },
        other => other,
    }
}

#[verifier::opaque]
pub open spec fn or_tail(ts: Seq<TokenView>, env: Map<Seq<char>, i64>, p: int, acc: i64) -> Parsed
    decreases ts.len() - p, 14int,
{
    if 0 <= p < ts.len() && ts[p] is Pipe {
        match xor_expr(ts, env, p + 1) {
            Parsed::Done(v, q) => if advances(ts.len() as int, p, q) {
                or_tail(ts, env, q, acc | v)
            } else {
                Parsed::Fail
            },
            other => other,
        }
    } else {
        Parsed::Done(acc, p)
    }
}

#[verifier::opaque]
pub open spec fn or_expr(ts: Seq<TokenView>, env: Map<Seq<char>, i64>, p: int) -> Parsed
    decreases ts.len() - p, 13int,
{
    match xor_expr(ts, env, p) {
        Parsed::Done(v, q) => if advances(ts.len() as int, p, q) {
            or_tail(ts, env, q, v)
        } else {
            Parsed::Fail
        },
        other => other,
    }
}

pub open spec fn is_comparison(t: TokenView) -> bool {
    t is Lt || t is Gt || t is Le || t is Ge || t is Eq || t is Ne
}

pub open spec fn compare(t: TokenView, a: i64, b: i64) -> i64 {
    let r = if t is Lt {
        a < b
    } else if t is Gt {
        a > b
    } else if t is Le {
        a <= b
    } else if t is Ge {
        a >= b
    } else if t is Eq {
        a == b
    } else {
        a != b
    };
    if r {
        1
    } else {
        0
    }
}

#[verifier::opaque]
pub open spec fn compare_tail(ts: Seq<TokenView>, env: Map<Seq<char>, i64>, p: int, acc: i64) -> Parsed
    decreases ts.len() - p,
{
    if 0 <= p < ts.len() && is_comparison(ts[p]) {
        match or_expr(ts, env, p + 1) {
            Parsed::Done(v, q) => if advances(ts.len() as int, p, q) {
                compare_tail(ts, env, q, compare(ts[p], acc, v))
            } else {
                Parsed::Fail
            },
            other => other,
        }
    } else {
        Parsed::Done(acc, p)
    }
}

pub open spec fn compare_expr(ts: Seq<TokenView>, env: Map<Seq<char>, i64>, p: int) -> Parsed {
    match or_expr(ts, env, p) {
        Parsed::Done(v, q) => if advances(ts.len() as int, p, q) {
            compare_tail(ts, env, q, v)
        } else {
            Parsed::Fail
        },
        other => other,
    }
}

/// Value of a whole token sequence: an expression that uses every token.
pub open spec fn eval_tokens(ts: Seq<TokenView>, env: Map<Seq<char>, i64>) -> Evaluation {
    match compare_expr(ts, env, 0) {
        Parsed::Done(v, q) => if q == ts.len() {
            Evaluation::Value(v)
        } else {
            Evaluation::Undefined
        },
        Parsed::Fail => Evaluation::Undefined,
        Parsed::Trap => Evaluation::Trap,
    }
}

pub open spec fn step_ok(r: Step, p: usize, len: usize) -> bool {
    r matches Step::Done(_, q) ==> p < q && q <= len
}


pub proof fn lemma_primary(ts: Seq<TokenView>, env: Map<Seq<char>, i64>, p: int)
    ensures
        primary(ts, env, p) == ({
            if !(0 <= p < ts.len()) {
                Parsed::Fail
            } else {
                match ts[p] {
                    Token::Num(n) => Parsed::Done(n, p + 1),
                    Token::Ident(name) => if env.contains_key(name) {
                        Parsed::Done(env[name], p + 1)
                    } else {
                        Parsed::Fail
                    },
                    Token::SysFn(name) => if is_clog2(name) && p + 1 < ts.len() && ts[p + 1] is LParen {
                        match or_expr(ts, env, p + 2) {
                            Parsed::Done(v, q) => if closes(ts, q) {
                                Parsed::Done(clog2(v), q + 1)
                            } else {
                                Parsed::Fail
                            },
                            other => other,
                        }
                    } else {
                        Parsed::Fail
                    },
                    Token::LParen => match or_expr(ts, env, p + 1) {
                        Parsed::Done(v, q) => if closes(ts, q) {
                            Parsed::Done(v, q + 1)
                        } else {
                            Parsed::Fail
                        },
                        other => other,
                    },
                    _ => Parsed::Fail,
                }
            }
        }),
{
    reveal_with_fuel(primary, 1);
    reveal_with_fuel(unary, 1);
    reveal_with_fuel(power, 1);
    reveal_with_fuel(mul_tail, 1);
    reveal_with_fuel(mul_expr, 1);
    reveal_with_fuel(add_tail, 1);
    reveal_with_fuel(add_expr, 1);
    reveal_with_fuel(shift_tail, 1);
    reveal_with_fuel(shift_expr, 1);
    reveal_with_fuel(and_tail, 1);
    reveal_with_fuel(and_expr, 1);
    reveal_with_fuel(xor_tail, 1);
    reveal_with_fuel(xor_expr, 1);
    reveal_with_fuel(or_tail, 1);
    reveal_with_fuel(or_expr, 1);
}

pub proof fn lemma_unary(ts: Seq<TokenView>, env: Map<Seq<char>, i64>, p: int)
    ensures
        unary(ts, env, p) == ({
            if 0 <= p < ts.len() && ts[p] is Minus {
                match unary(ts, env, p + 1) {
                    Parsed::Done(v, q) => if v == i64::MIN {
                        Parsed::Trap
                    } else {
                        Parsed::Done((-v) as i64, q)
                    },
                    other => other,
                }
            } else if 0 <= p < ts.len() && ts[p] is Tilde {
                match unary(ts, env, p + 1) {
                    Parsed::Done(v, q) => Parsed::Done(!v, q),
                    other => other,
                }
            } else {
                primary(ts, env, p)
            }
        }),
{
    reveal_with_fuel(primary, 1);
    reveal_with_fuel(unary, 1);
    reveal_with_fuel(power, 1);
    reveal_with_fuel(mul_tail, 1);
    reveal_with_fuel(mul_expr, 1);
    reveal_with_fuel(add_tail, 1);
    reveal_with_fuel(add_expr, 1);
    reveal_with_fuel(shift_tail, 1);
    reveal_with_fuel(shift_expr, 1);
    reveal_with_fuel(and_tail, 1);
    reveal_with_fuel(and_expr, 1);
    reveal_with_fuel(xor_tail, 1);
    reveal_with_fuel(xor_expr, 1);
    reveal_with_fuel(or_tail, 1);
    reveal_with_fuel(or_expr, 1);
}

pub proof fn lemma_power(ts: Seq<TokenView>, env: Map<Seq<char>, i64>, p: int)
    ensures
        power(ts, env, p) == ({
            match unary(ts, env, p) {
                Parsed::Done(b, q) => if !advances(ts.len() as int, p, q) {
                    Parsed::Fail
                } else if 0 <= q < ts.len() && ts[q] is Power {
                    match unary(ts, env, q + 1) {
                        Parsed::Done(e, q2) => if e < 0 {
                            Parsed::Fail
                        } else {
                            match checked_pow(b, (e % 0x1_0000_0000) as nat) {
                                Some(r) => Parsed::Done(r, q2),
                                None => Parsed::Fail,
                            }
                        },
                        other => other,
                    }
                } else {
                    Parsed::Done(b, q)
                },
                other => other,
            }
        }),
{
    reveal_with_fuel(primary, 1);
    reveal_with_fuel(unary, 1);
    reveal_with_fuel(power, 1);
    reveal_with_fuel(mul_tail, 1);
    reveal_with_fuel(mul_expr, 1);
    reveal_with_fuel(add_tail, 1);
    reveal_with_fuel(add_expr, 1);
    reveal_with_fuel(shift_tail, 1);
    reveal_with_fuel(shift_expr, 1);
    reveal_with_fuel(and_tail, 1);
    reveal_with_fuel(and_expr, 1);
    reveal_with_fuel(xor_tail, 1);
    reveal_with_fuel(xor_expr, 1);
    reveal_with_fuel(or_tail, 1);
    reveal_with_fuel(or_expr, 1);
}

pub proof fn lemma_mul_tail(ts: Seq<TokenView>, env: Map<Seq<char>, i64>, p: int, acc: i64)
    ensures
        mul_tail(ts, env, p, acc) == ({
            if 0 <= p < ts.len() && (ts[p] is Star || ts[p] is Slash || ts[p] is Percent) {
                match power(ts, env, p + 1) {
                    Parsed::Done(v, q) => if !advances(ts.len() as int, p, q) {
                        Parsed::Fail
                    } else if ts[p] is Star {
                        match checked_mul(acc, v) {
                            Some(m) => mul_tail(ts, env, q, m),
                            None => Parsed::Fail,
                        }
                    } else if v == 0 {
                        Parsed::Fail
                    } else if acc == i64::MIN && v == -1 {
                        Parsed::Trap
                    } else if ts[p] is Slash {
                        mul_tail(ts, env, q, acc.checked_div(v)->0)
                    } else {
                        mul_tail(ts, env, q, acc.checked_rem(v)->0)
                    },
                    other => other,
                }
            } else {
                Parsed::Done(acc, p)
            }
        }),
{
    reveal_with_fuel(primary, 1);
    reveal_with_fuel(unary, 1);
    reveal_with_fuel(power, 1);
    reveal_with_fuel(mul_tail, 1);
    reveal_with_fuel(mul_expr, 1);
    reveal_with_fuel(add_tail, 1);
    reveal_with_fuel(add_expr, 1);
    reveal_with_fuel(shift_tail, 1);
    reveal_with_fuel(shift_expr, 1);
    reveal_with_fuel(and_tail, 1);
    reveal_with_fuel(and_expr, 1);
    reveal_with_fuel(xor_tail, 1);
    reveal_with_fuel(xor_expr, 1);
    reveal_with_fuel(or_tail, 1);
    reveal_with_fuel(or_expr, 1);
}

pub proof fn lemma_mul_expr(ts: Seq<TokenView>, env: Map<Seq<char>, i64>, p: int)
    ensures
        mul_expr(ts, env, p) == ({
            match power(ts, env, p) {
                Parsed::Done(v, q) => if advances(ts.len() as int, p, q) {
                    mul_tail(ts, env, q, v)
                } else {
                    Parsed::Fail
                },
                other => other,
            }
        }),
{
    reveal_with_fuel(primary, 1);
    reveal_with_fuel(unary, 1);
    reveal_with_fuel(power, 1);
    reveal_with_fuel(mul_tail, 1);
    reveal_with_fuel(mul_expr, 1);
    reveal_with_fuel(add_tail, 1);
    reveal_with_fuel(add_expr, 1);
    reveal_with_fuel(shift_tail, 1);
    reveal_with_fuel(shift_expr, 1);
    reveal_with_fuel(and_tail, 1);
    reveal_with_fuel(and_expr, 1);
    reveal_with_fuel(xor_tail, 1);
    reveal_with_fuel(xor_expr, 1);
    reveal_with_fuel(or_tail, 1);
    reveal_with_fuel(or_expr, 1);
}

pub proof fn lemma_add_tail(ts: Seq<TokenView>, env: Map<Seq<char>, i64>, p: int, acc: i64)
    ensures
        add_tail(ts, env, p, acc) == ({
            if 0 <= p < ts.len() && (ts[p] is Plus || ts[p] is Minus) {
                match mul_expr(ts, env, p + 1) {
                    Parsed::Done(v, q) => if !advances(ts.len() as int, p, q) {
                        Parsed::Fail
                    } else {
                        match (if ts[p] is Plus { checked_add(acc, v) } else { checked_sub(acc, v) }) {
                            Some(s) => add_tail(ts, env, q, s),
                            None => Parsed::Fail,
                        }
                    },
                    other => other,
                }
            } else {
                Parsed::Done(acc, p)
            }
        }),
{
    reveal_with_fuel(primary, 1);
    reveal_with_fuel(unary, 1);
    reveal_with_fuel(power, 1);
    reveal_with_fuel(mul_tail, 1);
    reveal_with_fuel(mul_expr, 1);
    reveal_with_fuel(add_tail, 1);
    reveal_with_fuel(add_expr, 1);
    reveal_with_fuel(shift_tail, 1);
    reveal_with_fuel(shift_expr, 1);
    reveal_with_fuel(and_tail, 1);
    reveal_with_fuel(and_expr, 1);
    reveal_with_fuel(xor_tail, 1);
    reveal_with_fuel(xor_expr, 1);
    reveal_with_fuel(or_tail, 1);
    reveal_with_fuel(or_expr, 1);
}

pub proof fn lemma_add_expr(ts: Seq<TokenView>, env: Map<Seq<char>, i64>, p: int)
    ensures
        add_expr(ts, env, p) == ({
            match mul_expr(ts, env, p) {
                Parsed::Done(v, q) => if advances(ts.len() as int, p, q) {
                    add_tail(ts, env, q, v)
                } else {
                    Parsed::Fail
                },
                other => other,
            }
        }),
{
    reveal_with_fuel(primary, 1);
    reveal_with_fuel(unary, 1);
    reveal_with_fuel(power, 1);
    reveal_with_fuel(mul_tail, 1);
    reveal_with_fuel(mul_expr, 1);
    reveal_with_fuel(add_tail, 1);
    reveal_with_fuel(add_expr, 1);
    reveal_with_fuel(shift_tail, 1);
    reveal_with_fuel(shift_expr, 1);
    reveal_with_fuel(and_tail, 1);
    reveal_with_fuel(and_expr, 1);
    reveal_with_fuel(xor_tail, 1);
    reveal_with_fuel(xor_expr, 1);
    reveal_with_fuel(or_tail, 1);
    reveal_with_fuel(or_expr, 1);
}

pub proof fn lemma_shift_tail(ts: Seq<TokenView>, env: Map<Seq<char>, i64>, p: int, acc: i64)
    ensures
        shift_tail(ts, env, p, acc) == ({
            if 0 <= p < ts.len() && (ts[p] is LShift || ts[p] is RShift) {
                match add_expr(ts, env, p + 1) {
                    Parsed::Done(n, q) => if !advances(ts.len() as int, p, q) {
                        Parsed::Fail
                    } else if shift_amount(n) >= 64 {
                        Parsed::Fail
                    } else if ts[p] is LShift {
                        shift_tail(ts, env, q, acc << shift_amount(n))
                    } else {
                        shift_tail(ts, env, q, acc >> shift_amount(n))
                    },
                    other => other,
                }
            } else {
                Parsed::Done(acc, p)
            }
        }),
{
    reveal_with_fuel(primary, 1);
    reveal_with_fuel(unary, 1);
    reveal_with_fuel(power, 1);
    reveal_with_fuel(mul_tail, 1);
    reveal_with_fuel(mul_expr, 1);
    reveal_with_fuel(add_tail, 1);
    reveal_with_fuel(add_expr, 1);
    reveal_with_fuel(shift_tail, 1);
    reveal_with_fuel(shift_expr, 1);
    reveal_with_fuel(and_tail, 1);
    reveal_with_fuel(and_expr, 1);
    reveal_with_fuel(xor_tail, 1);
    reveal_with_fuel(xor_expr, 1);
    reveal_with_fuel(or_tail, 1);
    reveal_with_fuel(or_expr, 1);
}

pub proof fn lemma_shift_expr(ts: Seq<TokenView>, env: Map<Seq<char>, i64>, p: int)
    ensures
        shift_expr(ts, env, p) == ({
            match add_expr(ts, env, p) {
                Parsed::Done(v, q) => if advances(ts.len() as int, p, q) {
                    shift_tail(ts, env, q, v)
                } else {
                    Parsed::Fail
                },
                other => other,
            }
        }),
{
    reveal_with_fuel(primary, 1);
    reveal_with_fuel(unary, 1);
    reveal_with_fuel(power, 1);
    reveal_with_fuel(mul_tail, 1);
    reveal_with_fuel(mul_expr, 1);
    reveal_with_fuel(add_tail, 1);
    reveal_with_fuel(add_expr, 1);
    reveal_with_fuel(shift_tail, 1);
    reveal_with_fuel(shift_expr, 1);
    reveal_with_fuel(and_tail, 1);
    reveal_with_fuel(and_expr, 1);
    reveal_with_fuel(xor_tail, 1);
    reveal_with_fuel(xor_expr, 1);
    reveal_with_fuel(or_tail, 1);
    reveal_with_fuel(or_expr, 1);
}

pub proof fn lemma_and_tail(ts: Seq<TokenView>, env: Map<Seq<char>, i64>, p: int, acc: i64)
    ensures
        and_tail(ts, env, p, acc) == ({
            if 0 <= p < ts.len() && ts[p] is Amp {
                match shift_expr(ts, env, p + 1) {
                    Parsed::Done(v, q) => if advances(ts.len() as int, p, q) {
                        and_tail(ts, env, q, acc & v)
                    } else {
                        Parsed::Fail
                    },
                    other => other,
                }
            } else {
                Parsed::Done(acc, p)
            }
        }),
{
    reveal_with_fuel(primary, 1);
    reveal_with_fuel(unary, 1);
    reveal_with_fuel(power, 1);
    reveal_with_fuel(mul_tail, 1);
    reveal_with_fuel(mul_expr, 1);
    reveal_with_fuel(add_tail, 1);
    reveal_with_fuel(add_expr, 1);
    reveal_with_fuel(shift_tail, 1);
    reveal_with_fuel(shift_expr, 1);
    reveal_with_fuel(and_tail, 1);
    reveal_with_fuel(and_expr, 1);
    reveal_with_fuel(xor_tail, 1);
    reveal_with_fuel(xor_expr, 1);
    reveal_with_fuel(or_tail, 1);
    reveal_with_fuel(or_expr, 1);
}

pub proof fn lemma_and_expr(ts: Seq<TokenView>, env: Map<Seq<char>, i64>, p: int)
    ensures
        and_expr(ts, env, p) == ({
            match shift_expr(ts, env, p) {
                Parsed::Done(v, q) => if advances(ts.len() as int, p, q) {
                    and_tail(ts, env, q, v)
                } else {
                    Parsed::Fail
                },
                other => other,
            }
        }),
{
    reveal_with_fuel(primary, 1);
    reveal_with_fuel(unary, 1);
    reveal_with_fuel(power, 1);
    reveal_with_fuel(mul_tail, 1);
    reveal_with_fuel(mul_expr, 1);
    reveal_with_fuel(add_tail, 1);
    reveal_with_fuel(add_expr, 1);
    reveal_with_fuel(shift_tail, 1);
    reveal_with_fuel(shift_expr, 1);
    reveal_with_fuel(and_tail, 1);
    reveal_with_fuel(and_expr, 1);
    reveal_with_fuel(xor_tail, 1);
    reveal_with_fuel(xor_expr, 1);
    reveal_with_fuel(or_tail, 1);
    reveal_with_fuel(or_expr, 1);
}

pub proof fn lemma_xor_tail(ts: Seq<TokenView>, env: Map<Seq<char>, i64>, p: int, acc: i64)
    ensures
        xor_tail(ts, env, p, acc) == ({
            if 0 <= p < ts.len() && ts[p] is Caret {
                match and_expr(ts, env, p + 1) {
                    Parsed::Done(v, q) => if advances(ts.len() as int, p, q) {
                        xor_tail(ts, env, q, acc ^ v)
                    } else {
                        Parsed::Fail
                    },
                    other => other,
                }
            } else {
                Parsed::Done(acc, p)
            }
        }),
{
    reveal_with_fuel(primary, 1);
    reveal_with_fuel(unary, 1);
    reveal_with_fuel(power, 1);
    reveal_with_fuel(mul_tail, 1);
    reveal_with_fuel(mul_expr, 1);
    reveal_with_fuel(add_tail, 1);
    reveal_with_fuel(add_expr, 1);
    reveal_with_fuel(shift_tail, 1);
    reveal_with_fuel(shift_expr, 1);
    reveal_with_fuel(and_tail, 1);
    reveal_with_fuel(and_expr, 1);
    reveal_with_fuel(xor_tail, 1);
    reveal_with_fuel(xor_expr, 1);
    reveal_with_fuel(or_tail, 1);
    reveal_with_fuel(or_expr, 1);
}

pub proof fn lemma_xor_expr(ts: Seq<TokenView>, env: Map<Seq<char>, i64>, p: int)
    ensures
        xor_expr(ts, env, p) == ({
            match and_expr(ts, env, p) {
                Parsed::Done(v, q) => if advances(ts.len() as int, p, q) {
                    xor_tail(ts, env, q, v)
                } else {
                    Parsed::Fail
                },
                other => other,
            }
        }),
{
    reveal_with_fuel(primary, 1);
    reveal_with_fuel(unary, 1);
    reveal_with_fuel(power, 1);
    reveal_with_fuel(mul_tail, 1);
    reveal_with_fuel(mul_expr, 1);
    reveal_with_fuel(add_tail, 1);
    reveal_with_fuel(add_expr, 1);
    reveal_with_fuel(shift_tail, 1);
    reveal_with_fuel(shift_expr, 1);
    reveal_with_fuel(and_tail, 1);
    reveal_with_fuel(and_expr, 1);
    reveal_with_fuel(xor_tail, 1);
    reveal_with_fuel(xor_expr, 1);
    reveal_with_fuel(or_tail, 1);
    reveal_with_fuel(or_expr, 1);
}

pub proof fn lemma_or_tail(ts: Seq<TokenView>, env: Map<Seq<char>, i64>, p: int, acc: i64)
    ensures
        or_tail(ts, env, p, acc) == ({
            if 0 <= p < ts.len() && ts[p] is Pipe {
                match xor_expr(ts, env, p + 1) {
                    Parsed::Done(v, q) => if advances(ts.len() as int, p, q) {
                        or_tail(ts, env, q, acc | v)
                    } else {
                        Parsed::Fail
                    },
                    other => other,
                }
            } else {
                Parsed::Done(acc, p)
            }
        }),
{
    reveal_with_fuel(primary, 1);
    reveal_with_fuel(unary, 1);
    reveal_with_fuel(power, 1);
    reveal_with_fuel(mul_tail, 1);
    reveal_with_fuel(mul_expr, 1);
    reveal_with_fuel(add_tail, 1);
    reveal_with_fuel(add_expr, 1);
    reveal_with_fuel(shift_tail, 1);
    reveal_with_fuel(shift_expr, 1);
    reveal_with_fuel(and_tail, 1);
    reveal_with_fuel(and_expr, 1);
    reveal_with_fuel(xor_tail, 1);
    reveal_with_fuel(xor_expr, 1);
    reveal_with_fuel(or_tail, 1);
    reveal_with_fuel(or_expr, 1);
}

pub proof fn lemma_or_expr(ts: Seq<TokenView>, env: Map<Seq<char>, i64>, p: int)
    ensures
        or_expr(ts, env, p) == ({
            match xor_expr(ts, env, p) {
                Parsed::Done(v, q) => if advances(ts.len() as int, p, q) {
                    or_tail(ts, env, q, v)
                } else {
                    Parsed::Fail
                },
                other => other,
            }
        }),
{
    reveal_with_fuel(primary, 1);
    reveal_with_fuel(unary, 1);
    reveal_with_fuel(power, 1);
    reveal_with_fuel(mul_tail, 1);
    reveal_with_fuel(mul_expr, 1);
    reveal_with_fuel(add_tail, 1);
    reveal_with_fuel(add_expr, 1);
    reveal_with_fuel(shift_tail, 1);
    reveal_with_fuel(shift_expr, 1);
    reveal_with_fuel(and_tail, 1);
    reveal_with_fuel(and_expr, 1);
    reveal_with_fuel(xor_tail, 1);
    reveal_with_fuel(xor_expr, 1);
    reveal_with_fuel(or_tail, 1);
    reveal_with_fuel(or_expr, 1);
}

pub proof fn lemma_compare_tail(ts: Seq<TokenView>, env: Map<Seq<char>, i64>, p: int, acc: i64)
    ensures
        compare_tail(ts, env, p, acc) == ({
            if 0 <= p < ts.len() && is_comparison(ts[p]) {
                match or_expr(ts, env, p + 1) {
                    Parsed::Done(v, q) => if advances(ts.len() as int, p, q) {
                        compare_tail(ts, env, q, compare(ts[p], acc, v))
                    } else {
                        Parsed::Fail
                    },
                    other => other,
                }
            } else {
                Parsed::Done(acc, p)
            }
        }),
{
    reveal_with_fuel(compare_tail, 1);
}

proof fn lemma_pow_small(e: nat)
    ensures
        int_pow(0, e) == (if e == 0 { 1int } else { 0int }),
        int_pow(1, e) == 1,
        int_pow(-1, e) == (if e % 2 == 0 { 1int } else { -1int }),
    decreases e,
{
    if e > 0 {
        lemma_pow_small((e - 1) as nat);
    }
}

proof fn lemma_pow_stays_out(b: int, k: nat, j: nat)
    requires
        b <= -2 || b >= 2,
        k <= j,
        int_pow(b, k) < i64::MIN || int_pow(b, k) > i64::MAX,
    ensures
        int_pow(b, j) < i64::MIN || int_pow(b, j) > i64::MAX,
    decreases j - k,
{
    if k < j {
        let x = int_pow(b, k);
        assert(b * x < i64::MIN || b * x > i64::MAX) by (nonlinear_arith)
            requires
                b <= -2 || b >= 2,
                x < i64::MIN || x > i64::MAX,
        ;
        assert(int_pow(b, k + 1) == b * x);
        lemma_pow_stays_out(b, k + 1, j);
    }
}

/// `i64::checked_pow`: `base` to the power `exp`, `None` when the result
/// does not fit in `i64`.
fn checked_pow_i64(base: i64, exp: u32) -> (r: Option<i64>)
    ensures
        r == checked_pow(base, exp as nat),
{
    proof {
        lemma_pow_small(exp as nat);
    }
    if base == 0 {
        return if exp == 0 {
            Some(1)
        } else {
            Some(0)
        };
    }
    if base == 1 {
        return Some(1);
    }
    if base == -1 {
        return if exp % 2 == 0 {
            Some(1)
        } else {
            Some(-1)
        };
    }
    let mut acc: i64 = 1;
    let mut i: u32 = 0;
    while i < exp
        invariant
            i <= exp,
            base <= -2 || base >= 2,
            acc == int_pow(base as int, i as nat),
        decreases exp - i,
    {
        assert(int_pow(base as int, (i + 1) as nat) == base * int_pow(base as int, i as nat));
        assert(base * acc == acc * base) by (nonlinear_arith);
        match acc.checked_mul(base) {
            Some(v) => {
                acc = v;
                i += 1;
            },
            None => {
                proof {
                    lemma_pow_stays_out(base as int, (i + 1) as nat, exp as nat);
                }
                return None;
            },
        }
    }
    Some(acc)
}

fn parse_primary(ts: &Vec<Token<String>>, env: &ParamMap, p: usize) -> (r: Step)
    requires
        p <= ts.len(),
    ensures
        r@ == primary(views(ts@), env@, p as int),
        step_ok(r, p, ts.len()),
    decreases ts.len() - p, 0int,
{
    proof {
        lemma_primary(views(ts@), env@, p as int);
    }
    if p >= ts.len() {
        return Step::Fail;
    }
    let ghost tv = views(ts@);
    proof {
        lemma_primary(tv, env@, p as int);
    }
    assert(tv[p as int] == ts@[p as int]@);
    match &ts[p] {
        Token::Num(n) => Step::Done(*n, p + 1),
        Token::Ident(name) => match env.get(name.as_str()) {
            Some(v) => Step::Done(v, p + 1),
            None => Step::Fail,
        },
        Token::SysFn(name) => {
            let c = owned("clog2");
            let low = to_lowercase(name.as_str());
            if low == c && p + 1 < ts.len() && matches!(ts[p + 1], Token::LParen) {
                assert(tv[p + 1] == ts@[p + 1]@);
                match parse_or(ts, env, p + 2) {
                    Step::Done(v, q) => {
                        if q < ts.len() && matches!(ts[q], Token::RParen) {
                            assert(tv[q as int] == ts@[q as int]@);
                            Step::Done(evaluate_clog2(v), q + 1)
                        } else {
                            proof {
                                if q < ts.len() {
                                    assert(tv[q as int] == ts@[q as int]@);
                                }
                            }
                            Step::Fail
                        }
                    },
                    other => other,
                }
            } else {
                proof {
                    if p + 1 < ts.len() {
                        assert(tv[p + 1] == ts@[p + 1]@);
                    }
                }
                Step::Fail
            }
        },
        Token::LParen => match parse_or(ts, env, p + 1) {
            Step::Done(v, q) => {
                if q < ts.len() && matches!(ts[q], Token::RParen) {
                    assert(tv[q as int] == ts@[q as int]@);
                    Step::Done(v, q + 1)
                } else {
                    proof {
                        if q < ts.len() {
                            assert(tv[q as int] == ts@[q as int]@);
                        }
                    }
                    Step::Fail
                }
            },
            other => other,
        },
        _ => Step::Fail,
    }
}

fn parse_unary(ts: &Vec<Token<String>>, env: &ParamMap, p: usize) -> (r: Step)
    requires
        p <= ts.len(),
    ensures
        r@ == unary(views(ts@), env@, p as int),
        step_ok(r, p, ts.len()),
    decreases ts.len() - p, 1int,
{
    let ghost tv = views(ts@);
    proof {
        lemma_unary(tv, env@, p as int);
    }
    if p < ts.len() {
        assert(tv[p as int] == ts@[p as int]@);
    }
    if p < ts.len() && matches!(ts[p], Token::Minus) {
        match parse_unary(ts, env, p + 1) {
            Step::Done(v, q) => if v == i64::MIN {
                Step::Trap
            } else {
                Step::Done(-v, q)
            },
            other => other,
        }
    } else if p < ts.len() && matches!(ts[p], Token::Tilde) {
        match parse_unary(ts, env, p + 1) {
            Step::Done(v, q) => Step::Done(!v, q),
            other => other,
        }
    } else {
        parse_primary(ts, env, p)
    }
}

fn parse_power(ts: &Vec<Token<String>>, env: &ParamMap, p: usize) -> (r: Step)
    requires
        p <= ts.len(),
    ensures
        r@ == power(views(ts@), env@, p as int),
        step_ok(r, p, ts.len()),
    decreases ts.len() - p, 2int,
{
    let ghost tv = views(ts@);
    proof {
        lemma_power(tv, env@, p as int);
    }
    match parse_unary(ts, env, p) {
        Step::Done(b, q) => {
            if q < ts.len() {
                assert(tv[q as int] == ts@[q as int]@);
            }
            if q < ts.len() && matches!(ts[q], Token::Power) {
                match parse_unary(ts, env, q + 1) {
                    Step::Done(e, q2) => {
                        if e < 0 {
                            Step::Fail
                        } else {
                            match checked_pow_i64(b, (e % 0x1_0000_0000) as u32) {
                                Some(v) => Step::Done(v, q2),
                                None => Step::Fail,
                            }
                        }
                    },
                    other => other,
                }
            } else {
                Step::Done(b, q)
            }
        },
        other => other,
    }
}

fn parse_mul(ts: &Vec<Token<String>>, env: &ParamMap, p: usize) -> (r: Step)
    requires
        p <= ts.len(),
    ensures
        r@ == mul_expr(views(ts@), env@, p as int),
        step_ok(r, p, ts.len()),
    decreases ts.len() - p, 3int,
{
    let ghost tv = views(ts@);
    proof {
        lemma_mul_expr(tv, env@, p as int);
    }
    match parse_power(ts, env, p) {
        Step::Done(v0, q0) => {
            let mut acc = v0;
            let mut q = q0;
            loop
                invariant
                    p < q <= ts.len(),
                    tv == views(ts@),
                    mul_expr(tv, env@, p as int) == mul_tail(tv, env@, q as int, acc),
                decreases ts.len() - q,
            {
                proof {
                    lemma_mul_tail(tv, env@, q as int, acc);
                }
                if q < ts.len() {
                    assert(tv[q as int] == ts@[q as int]@);
                }
                if q < ts.len() && (matches!(ts[q], Token::Star) || matches!(ts[q], Token::Slash)
                    || matches!(ts[q], Token::Percent)) {
                    let op = q;
                    match parse_power(ts, env, op + 1) {
                        Step::Done(v, q2) => {
                            if matches!(ts[op], Token::Star) {
                                match acc.checked_mul(v) {
                                    Some(m) => {
                                        acc = m;
                                    },
                                    None => {
                                        return Step::Fail;
                                    },
                                }
                            } else if v == 0 {
                                return Step::Fail;
                            } else if acc == i64::MIN && v == -1 {
                                return Step::Trap;
                            } else if matches!(ts[op], Token::Slash) {
                                match acc.checked_div(v) {
                                    Some(d) => {
                                        acc = d;
                                    },
                                    None => {
                                        assert(false) by (nonlinear_arith)
                                            requires
                                                v != 0,
                                                !(acc == i64::MIN && v == -1),
                                                acc.checked_div(v) is None,
                                        ;
                                        return Step::Fail;
                                    },
                                }
                            } else {
                                match acc.checked_rem(v) {
                                    Some(d) => {
                                        acc = d;
                                    },
                                    None => {
                                        assert(false) by (nonlinear_arith)
                                            requires
                                                v != 0,
                                                !(acc == i64::MIN && v == -1),
                                                acc.checked_rem(v) is None,
                                        ;
                                        return Step::Fail;
                                    },
                                }
                            }
                            q = q2;
                        },
                        Step::Fail => {
                            return Step::Fail;
                        },
                        Step::Trap => {
                            return Step::Trap;
                        },
                    }
                } else {
                    return Step::Done(acc, q);
                }
            }
        },
        other => other,
    }
}

fn parse_add(ts: &Vec<Token<String>>, env: &ParamMap, p: usize) -> (r: Step)
    requires
        p <= ts.len(),
    ensures
        r@ == add_expr(views(ts@), env@, p as int),
        step_ok(r, p, ts.len()),
    decreases ts.len() - p, 5int,
{
    let ghost tv = views(ts@);
    proof {
        lemma_add_expr(tv, env@, p as int);
    }
    match parse_mul(ts, env, p) {
        Step::Done(v0, q0) => {
            let mut acc = v0;
            let mut q = q0;
            loop
                invariant
                    p < q <= ts.len(),
                    tv == views(ts@),
                    add_expr(tv, env@, p as int) == add_tail(tv, env@, q as int, acc),
                decreases ts.len() - q,
            {
                proof {
                    lemma_add_tail(tv, env@, q as int, acc);
                }
                if q < ts.len() {
                    assert(tv[q as int] == ts@[q as int]@);
                }
                if q < ts.len() && (matches!(ts[q], Token::Plus) || matches!(ts[q], Token::Minus)) {
                    let op = q;
                    match parse_mul(ts, env, op + 1) {
                        Step::Done(v, q2) => {
                            let s = if matches!(ts[op], Token::Plus) {
                                acc.checked_add(v)
                            } else {
                                acc.checked_sub(v)
                            };
                            match s {
                                Some(x) => {
                                    acc = x;
                                },
                                None => {
                                    return Step::Fail;
                                },
                            }
                            q = q2;
                        },
                        Step::Fail => {
                            return Step::Fail;
                        },
                        Step::Trap => {
                            return Step::Trap;
                        },
                    }
                } else {
                    return Step::Done(acc, q);
                }
            }
        },
        other => other,
    }
}

fn shift_amount_exec(n: i64) -> (r: u32)
    ensures
        r == shift_amount(n),
{
    let m = if n < 63 {
        n
    } else {
        63
    };
    m as u32
}

fn parse_shift(ts: &Vec<Token<String>>, env: &ParamMap, p: usize) -> (r: Step)
    requires
        p <= ts.len(),
    ensures
        r@ == shift_expr(views(ts@), env@, p as int),
        step_ok(r, p, ts.len()),
    decreases ts.len() - p, 7int,
{
    let ghost tv = views(ts@);
    proof {
        lemma_shift_expr(tv, env@, p as int);
    }
    match parse_add(ts, env, p) {
        Step::Done(v0, q0) => {
            let mut acc = v0;
            let mut q = q0;
            loop
                invariant
                    p < q <= ts.len(),
                    tv == views(ts@),
                    shift_expr(tv, env@, p as int) == shift_tail(tv, env@, q as int, acc),
                decreases ts.len() - q,
            {
                proof {
                    lemma_shift_tail(tv, env@, q as int, acc);
                }
                if q < ts.len() {
                    assert(tv[q as int] == ts@[q as int]@);
                }
                if q < ts.len() && (matches!(ts[q], Token::LShift) || matches!(ts[q], Token::RShift)) {
                    let op = q;
                    match parse_add(ts, env, op + 1) {
                        Step::Done(n, q2) => {
                            let s = shift_amount_exec(n);
                            if s >= 64 {
                                return Step::Fail;
                            }
                            if matches!(ts[op], Token::LShift) {
                                acc = acc << s;
                            } else {
                                acc = acc >> s;
                            }
                            q = q2;
                        },
                        Step::Fail => {
                            return Step::Fail;
                        },
                        Step::Trap => {
                            return Step::Trap;
                        },
                    }
                } else {
                    return Step::Done(acc, q);
                }
            }
        },
        other => other,
    }
}

fn parse_and(ts: &Vec<Token<String>>, env: &ParamMap, p: usize) -> (r: Step)
    requires
        p <= ts.len(),
    ensures
        r@ == and_expr(views(ts@), env@, p as int),
        step_ok(r, p, ts.len()),
    decreases ts.len() - p, 9int,
{
    let ghost tv = views(ts@);
    proof {
        lemma_and_expr(tv, env@, p as int);
    }
    match parse_shift(ts, env, p) {
        Step::Done(v0, q0) => {
            let mut acc = v0;
            let mut q = q0;
            loop
                invariant
                    p < q <= ts.len(),
                    tv == views(ts@),
                    and_expr(tv, env@, p as int) == and_tail(tv, env@, q as int, acc),
                decreases ts.len() - q,
            {
                proof {
                    lemma_and_tail(tv, env@, q as int, acc);
                }
                if q < ts.len() {
                    assert(tv[q as int] == ts@[q as int]@);
                }
                if q < ts.len() && matches!(ts[q], Token::Amp) {
                    match parse_shift(ts, env, q + 1) {
                        Step::Done(v, q2) => {
                            acc = acc & v;
                            q = q2;
                        },
                        Step::Fail => {
                            return Step::Fail;
                        },
                        Step::Trap => {
                            return Step::Trap;
                        },
                    }
                } else {
                    return Step::Done(acc, q);
                }
            }
        },
        other => other,
    }
}

fn parse_xor(ts: &Vec<Token<String>>, env: &ParamMap, p: usize) -> (r: Step)
    requires
        p <= ts.len(),
    ensures
        r@ == xor_expr(views(ts@), env@, p as int),
        step_ok(r, p, ts.len()),
    decreases ts.len() - p, 11int,
{
    let ghost tv = views(ts@);
    proof {
        lemma_xor_expr(tv, env@, p as int);
    }
    match parse_and(ts, env, p) {
        Step::Done(v0, q0) => {
            let mut acc = v0;
            let mut q = q0;
            loop
                invariant
                    p < q <= ts.len(),
                    tv == views(ts@),
                    xor_expr(tv, env@, p as int) == xor_tail(tv, env@, q as int, acc),
                decreases ts.len() - q,
            {
                proof {
                    lemma_xor_tail(tv, env@, q as int, acc);
                }
                if q < ts.len() {
                    assert(tv[q as int] == ts@[q as int]@);
                }
                if q < ts.len() && matches!(ts[q], Token::Caret) {
                    match parse_and(ts, env, q + 1) {
                        Step::Done(v, q2) => {
                            acc = acc ^ v;
                            q = q2;
                        },
                        Step::Fail => {
                            return Step::Fail;
                        },
                        Step::Trap => {
                            return Step::Trap;
                        },
                    }
                } else {
                    return Step::Done(acc, q);
                }
            }
        },
        other => other,
    }
}

fn parse_or(ts: &Vec<Token<String>>, env: &ParamMap, p: usize) -> (r: Step)
    requires
        p <= ts.len(),
    ensures
        r@ == or_expr(views(ts@), env@, p as int),
        step_ok(r, p, ts.len()),
    decreases ts.len() - p, 13int,
{
    let ghost tv = views(ts@);
    proof {
        lemma_or_expr(tv, env@, p as int);
    }
    match parse_xor(ts, env, p) {
        Step::Done(v0, q0) => {
            let mut acc = v0;
            let mut q = q0;
            loop
                invariant
                    p < q <= ts.len(),
                    tv == views(ts@),
                    or_expr(tv, env@, p as int) == or_tail(tv, env@, q as int, acc),
                decreases ts.len() - q,
            {
                proof {
                    lemma_or_tail(tv, env@, q as int, acc);
                }
                if q < ts.len() {
                    assert(tv[q as int] == ts@[q as int]@);
                }
                if q < ts.len() && matches!(ts[q], Token::Pipe) {
                    match parse_xor(ts, env, q + 1) {
                        Step::Done(v, q2) => {
                            acc = acc | v;
                            q = q2;
                        },
                        Step::Fail => {
                            return Step::Fail;
                        },
                        Step::Trap => {
                            return Step::Trap;
                        },
                    }
                } else {
                    return Step::Done(acc, q);
                }
            }
        },
        other => other,
    }
}

fn comparison_exec(t: &Token<String>, a: i64, b: i64) -> (r: i64)
    requires
        is_comparison(t@),
    ensures
        r == compare(t@, a, b),
{
    let holds = match t {
        Token::Lt => a < b,
        Token::Gt => a > b,
        Token::Le => a <= b,
        Token::Ge => a >= b,
        Token::Eq => a == b,
        _ => a != b,
    };
    if holds {
        1
    } else {
        0
    }
}

fn is_comparison_exec(t: &Token<String>) -> (r: bool)
    ensures
        r == is_comparison(t@),
{
    match t {
        Token::Lt | Token::Gt | Token::Le | Token::Ge | Token::Eq | Token::Ne => true,
        _ => false,
    }
}

fn parse_compare(ts: &Vec<Token<String>>, env: &ParamMap) -> (r: Step)
    ensures
        r@ == compare_expr(views(ts@), env@, 0),
        step_ok(r, 0, ts.len()),
{
    let ghost tv = views(ts@);
    match parse_or(ts, env, 0) {
        Step::Done(v0, q0) => {
            let mut acc = v0;
            let mut q = q0;
            loop
                invariant
                    0 < q <= ts.len(),
                    tv == views(ts@),
                    compare_expr(tv, env@, 0) == compare_tail(tv, env@, q as int, acc),
                decreases ts.len() - q,
            {
                proof {
                    lemma_compare_tail(tv, env@, q as int, acc);
                }
                if q < ts.len() {
                    assert(tv[q as int] == ts@[q as int]@);
                }
                if q < ts.len() && is_comparison_exec(&ts[q]) {
                    let op = q;
                    match parse_or(ts, env, op + 1) {
                        Step::Done(v, q2) => {
                            acc = comparison_exec(&ts[op], acc, v);
                            q = q2;
                        },
                        Step::Fail => {
                            return Step::Fail;
                        },
                        Step::Trap => {
                            return Step::Trap;
                        },
                    }
                } else {
                    return Step::Done(acc, q);
                }
            }
        },
        other => other,
    }
}

/// Evaluates a token sequence as one expression that must use every token.
pub fn evaluate_tokens(ts: &Vec<Token<String>>, env: &ParamMap) -> (r: Evaluation)
    ensures
        r == eval_tokens(views(ts@), env@),
{
    match parse_compare(ts, env) {
        Step::Done(v, q) => if q == ts.len() {
            Evaluation::Value(v)
        } else {
            Evaluation::Undefined
        },
        Step::Fail => Evaluation::Undefined,
        Step::Trap => Evaluation::Trap,
    }
}

} // verus!
