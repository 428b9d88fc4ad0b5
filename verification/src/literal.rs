//! SystemVerilog integer literals: `123`, `8'd255`, `8'hFF`, `4'b1010`, `'o17`.
use vstd::prelude::*;
use crate::text::{is_digit};

verus! {

/// Value of a digit character in radices up to 36 (36 when it is no digit).
pub open spec fn digit_value(c: char) -> int {
    if is_digit(c) {
        (c as int) - ('0' as int)
    } else if 'a' <= c && c <= 'z' {
        (c as int) - ('a' as int) + 10
    } else if 'A' <= c && c <= 'Z' {
        (c as int) - ('A' as int) + 10
    } else {
        36
    }
}

pub open spec fn all_digits(s: Seq<char>, radix: int) -> bool {
    forall|i: int| 0 <= i < s.len() ==> digit_value(#[trigger] s[i]) < radix
}

/// The number that the digits `s` write in base `radix`.
pub open spec fn digits_number(s: Seq<char>, radix: int) -> int
    decreases s.len(),
{
    if s.len() == 0 {
        0
    } else {
        digits_number(s.drop_last(), radix) * radix + digit_value(s.last())
    }
}

/// `i64::from_str_radix` on an unsigned digit string: `None` when it is
/// empty, holds a non-digit, or does not fit.
pub open spec fn parse_radix(s: Seq<char>, radix: int) -> Option<i64> {
    if s.len() == 0 || !all_digits(s, radix) || digits_number(s, radix) > i64::MAX {
        None
    } else {
        Some(digits_number(s, radix) as i64)
    }
}

/// `i64::from_str_radix`: an optional `+` or `-`, then at least one digit;
/// `None` when a character is no digit or the value does not fit.
pub open spec fn signed_radix(s: Seq<char>, radix: int) -> Option<i64> {
    if s.len() > 0 && (s[0] == '+' || s[0] == '-') {
        let d = s.skip(1);
        let n = digits_number(d, radix);
        let v = if s[0] == '-' { -n } else { n };
        if d.len() == 0 || !all_digits(d, radix) || v < i64::MIN || v > i64::MAX {
            None
        } else {
            Some(v as i64)
        }
    } else {
        parse_radix(s, radix)
    }
}

pub open spec fn without_underscores(s: Seq<char>) -> Seq<char>
    decreases s.len(),
{
    if s.len() == 0 {
        s
    } else if s.last() == '_' {
        without_underscores(s.drop_last())
    } else {
        without_underscores(s.drop_last()).push(s.last())
    }
}

/// Index of the first `c` in `s` at or after `i`.
pub open spec fn find_char(s: Seq<char>, c: char, i: int) -> Option<int>
    decreases s.len() - i,
{
    if i < 0 || i >= s.len() {
        None
    } else if s[i] == c {
        Some(i)
    } else {
        find_char(s, c, i + 1)
    }
}

/// Radix named by the base letter after the tick (either case).
pub open spec fn radix_of(c: char) -> Option<int> {
    if c == 'd' || c == 'D' {
        Some(10)
    } else if c == 'h' || c == 'H' {
        Some(16)
    } else if c == 'b' || c == 'B' {
        Some(2)
    } else if c == 'o' || c == 'O' {
        Some(8)
    } else {
        None
    }
}

/// Value of a literal token: with a tick, the base letter after it picks the
/// radix of the remaining digits; without one it is decimal. Underscores are
/// ignored; the size before the tick is not used.
pub open spec fn literal_value(raw: Seq<char>) -> Option<i64> {
    match find_char(raw, '\'', 0) {
        Some(t) => {
            let after = raw.subrange(t + 1, raw.len() as int);
            if after.len() == 0 {
                None
            } else {
                match radix_of(after[0]) {
                    Some(r) => signed_radix(without_underscores(after.subrange(1, after.len() as int)), r),
                    None => None,
                }
            }
        },
        None => signed_radix(without_underscores(raw), 10),
    }
}

fn char_digit_value(c: char) -> (r: u32)
    ensures
        r == digit_value(c),
{
    if '0' <= c && c <= '9' {
        (c as u32) - ('0' as u32)
    } else if 'a' <= c && c <= 'z' {
        (c as u32) - ('a' as u32) + 10
    } else if 'A' <= c && c <= 'Z' {
        (c as u32) - ('A' as u32) + 10
    } else {
        36
    }
}

pub proof fn lemma_digits_number_grows(s: Seq<char>, radix: int, k: int)
    requires
        radix >= 1,
        0 <= k <= s.len(),
    ensures
        digits_number(s.take(k), radix) <= digits_number(s, radix),
        0 <= digits_number(s.take(k), radix),
    decreases s.len(),
{
    if s.len() > 0 {
        if k == s.len() {
            assert(s.take(k) =~= s);
            lemma_digits_number_grows(s.drop_last(), radix, k - 1);
            assert(s.drop_last().take(k - 1) =~= s.drop_last());
        } else {
            lemma_digits_number_grows(s.drop_last(), radix, k);
            assert(s.drop_last().take(k) =~= s.take(k));
        }
        let d = digits_number(s.drop_last(), radix);
        assert(d * radix >= d) by (nonlinear_arith)
            requires d >= 0, radix >= 1;
        assert(digit_value(s.last()) >= 0);
    } else {
        assert(s.take(k) =~= s);
    }
}

/// The digits of `s` from `from` on, as a number no greater than `limit`:
/// `None` when there are none, one is no digit, or the number is greater.
fn digits_up_to(s: &Vec<char>, from: usize, radix: u32, limit: u128) -> (r: Option<u128>)
    requires
        2 <= radix <= 36,
        from <= s.len(),
        limit <= 0x8000_0000_0000_0000,
    ensures
        ({
            let d = s@.skip(from as int);
            r == (if d.len() == 0 || !all_digits(d, radix as int) || digits_number(d, radix as int) > limit {
                None::<u128>
            } else {
                Some(digits_number(d, radix as int) as u128)
            })
        }),
        r matches Some(n) ==> n <= limit && n == digits_number(s@.skip(from as int), radix as int),
{
    let ghost d = s@.skip(from as int);
    if from == s.len() {
        return None;
    }
    let mut acc: u128 = 0;
    let mut i: usize = from;
    while i < s.len()
        invariant
            2 <= radix <= 36,
            from <= i <= s.len(),
            limit <= 0x8000_0000_0000_0000,
            d == s@.skip(from as int),
            all_digits(d.take(i - from), radix as int),
            acc == digits_number(d.take(i - from), radix as int),
            acc <= limit,
        decreases s.len() - i,
    {
        let k: usize = i - from;
        let d_i = char_digit_value(s[i]);
        proof {
            assert(d.take(k + 1).drop_last() =~= d.take(k as int));
            assert(d[k as int] == s@[i as int]);
        }
        if d_i >= radix {
            assert(!all_digits(d, radix as int)) by {
                assert(digit_value(d[k as int]) >= radix);
            }
            return None;
        }
        assert(acc * radix <= 0x8000_0000_0000_0000 * 36) by (nonlinear_arith)
            requires acc <= 0x8000_0000_0000_0000, radix <= 36;
        let next: u128 = acc * (radix as u128) + (d_i as u128);
        assert(next == digits_number(d.take(k + 1), radix as int));
        if next > limit {
            proof {
                lemma_digits_number_grows(d, radix as int, k + 1);
            }
            return None;
        }
        acc = next;
        i += 1;
        proof {
            assert forall|j: int| 0 <= j < i - from implies digit_value(#[trigger] d.take(i - from)[j]) < radix by {
                if j < i - from - 1 {
                    assert(d.take(i - from)[j] == d.take(i - from - 1)[j]);
                }
            }
        }
    }
    assert(d.take(s.len() - from) =~= d);
    Some(acc)
}

/// `i64::from_str_radix` for digit strings without a sign.
fn parse_radix_exec(s: &Vec<char>, radix: u32) -> (r: Option<i64>)
    requires
        2 <= radix <= 36,
    ensures
        r == parse_radix(s@, radix as int),
{
    assert(s@.skip(0) =~= s@);
    match digits_up_to(s, 0, radix, 0x7fff_ffff_ffff_ffff) {
        Some(n) => Some(n as i64),
        None => None,
    }
}

/// `i64::from_str_radix`, the sign included.
pub fn parse_signed_radix(s: &Vec<char>, radix: u32) -> (r: Option<i64>)
    requires
        2 <= radix <= 36,
    ensures
        r == signed_radix(s@, radix as int),
{
    if s.len() > 0 && s[0] == '+' {
        match digits_up_to(s, 1, radix, 0x7fff_ffff_ffff_ffff) {
            Some(n) => Some(n as i64),
            None => None,
        }
    } else if s.len() > 0 && s[0] == '-' {
        match digits_up_to(s, 1, radix, 0x8000_0000_0000_0000) {
            Some(n) => {
                if n == 0x8000_0000_0000_0000 {
                    Some(i64::MIN)
                } else {
                    let v = n as i64;
                    Some(-v)
                }
            },
            None => None,
        }
    } else {
        parse_radix_exec(s, radix)
    }
}

fn strip_underscores(s: &Vec<char>, from: usize) -> (r: Vec<char>)
    requires
        from <= s.len(),
    ensures
        r@ == without_underscores(s@.subrange(from as int, s.len() as int)),
{
    let mut out: Vec<char> = Vec::new();
    let mut i: usize = from;
    while i < s.len()
        invariant
            from <= i <= s.len(),
            out@ == without_underscores(s@.subrange(from as int, i as int)),
        decreases s.len() - i,
    {
        proof {
            assert(s@.subrange(from as int, i + 1).drop_last() =~= s@.subrange(from as int, i as int));
        }
        if s[i] != '_' {
            out.push(s[i]);
        }
        i += 1;
    }
    out
}

fn find_tick(s: &Vec<char>) -> (r: Option<usize>)
    ensures
        match r {
            Some(t) => t < s.len() && find_char(s@, '\'', 0) == Some(t as int),
            None => find_char(s@, '\'', 0) is None,
        },
{
    let mut i: usize = 0;
    while i < s.len()
        invariant
            i <= s.len(),
            find_char(s@, '\'', 0) == find_char(s@, '\'', i as int),
        decreases s.len() - i,
    {
        if s[i] == '\'' {
            return Some(i);
        }
        i += 1;
    }
    None
}

/// Parses a numeric literal token (`123`, `8'd255`, `8'hFF`, `'b1`, `1_000`).
pub(crate) fn parse_sv_literal(raw: &Vec<char>) -> (r: Option<i64>)
    ensures
        r == literal_value(raw@),
{
    match find_tick(raw) {
        Some(t) => {
            let ghost after = raw@.subrange(t + 1, raw.len() as int);
            if t + 1 >= raw.len() {
                return None;
            }
            let c = raw[t + 1];
            let radix: u32 = if c == 'd' || c == 'D' {
                10
            } else if c == 'h' || c == 'H' {
                16
            } else if c == 'b' || c == 'B' {
                2
            } else if c == 'o' || c == 'O' {
                8
            } else {
                return None;
            };
            let digits = strip_underscores(raw, t + 2);
            assert(after.subrange(1, after.len() as int) =~= raw@.subrange(t + 2, raw.len() as int));
            parse_signed_radix(&digits, radix)
        },
        None => {
            let digits = strip_underscores(raw, 0);
            assert(raw@.subrange(0, raw.len() as int) =~= raw@);
            parse_signed_radix(&digits, 10)
        },
    }
}

} // verus!
