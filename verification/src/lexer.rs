//! Tokenizer for SystemVerilog constant expressions.
use vstd::prelude::*;
use crate::text::{is_ascii_char, is_ascii_alnum, is_ascii_alpha, is_digit, string_from_chars};
use crate::literal::{literal_value, parse_sv_literal};

verus! {

/// A token of a constant expression. `S` is `String` for tokens in hand and
/// `Seq<char>` for their view.
pub enum Token<S> {
    Num(i64),
    Ident(S),
    /// `$name` (the name without the dollar).
    SysFn(S),
    LShift,
    RShift,
    Power,
    Le,
    Ge,
    Eq,
    Ne,
    Lt,
    Gt,
    Plus,
    Minus,
    Star,
    Slash,
    Percent,
    Amp,
    Pipe,
    Caret,
    Tilde,
    LParen,
    RParen,
    Comma,
    Colon,
}

pub type TokenView = Token<Seq<char>>;

impl View for Token<String> {
    type V = TokenView;

    open spec fn view(&self) -> TokenView {
        match self {
            Token::Num(n) => Token::Num(*n),
            Token::Ident(s) => Token::Ident(s@),
            Token::SysFn(s) => Token::SysFn(s@),
            Token::LShift => Token::LShift,
            Token::RShift => Token::RShift,
            Token::Power => Token::Power,
            Token::Le => Token::Le,
            Token::Ge => Token::Ge,
            Token::Eq => Token::Eq,
            Token::Ne => Token::Ne,
            Token::Lt => Token::Lt,
            Token::Gt => Token::Gt,
            Token::Plus => Token::Plus,
            Token::Minus => Token::Minus,
            Token::Star => Token::Star,
            Token::Slash => Token::Slash,
            Token::Percent => Token::Percent,
            Token::Amp => Token::Amp,
            Token::Pipe => Token::Pipe,
            Token::Caret => Token::Caret,
            Token::Tilde => Token::Tilde,
            Token::LParen => Token::LParen,
            Token::RParen => Token::RParen,
            Token::Comma => Token::Comma,
            Token::Colon => Token::Colon,
        }
    }
}

pub open spec fn views(ts: Seq<Token<String>>) -> Seq<TokenView> {
    ts.map_values(|t: Token<String>| t@)
}

pub open spec fn is_blank(c: char) -> bool {
    c == ' ' || c == '\t' || c == '\r' || c == '\n'
}

/// Characters that continue a numeric literal.
pub open spec fn is_literal_char(c: char) -> bool {
    is_ascii_alnum(c) || c == '\'' || c == '_'
}

/// Characters that continue an identifier or a system-function name; `alnum`
/// is the Unicode answer for a character outside ASCII.
pub open spec fn is_word_char(c: char, alnum: bool) -> bool {
    if is_ascii_char(c) {
        is_ascii_alnum(c) || c == '_'
    } else {
        alnum
    }
}

pub open spec fn literal_end(cs: Seq<char>, i: int) -> int
    decreases cs.len() - i,
{
    if 0 <= i < cs.len() && is_literal_char(cs[i]) {
        literal_end(cs, i + 1)
    } else {
        i
    }
}

pub open spec fn word_end(cs: Seq<char>, alnum: Seq<bool>, i: int) -> int
    decreases cs.len() - i,
{
    if 0 <= i < cs.len() && is_word_char(cs[i], alnum[i]) {
        word_end(cs, alnum, i + 1)
    } else {
        i
    }
}

pub proof fn lemma_literal_end(cs: Seq<char>, i: int)
    requires
        0 <= i <= cs.len(),
    ensures
        i <= literal_end(cs, i) <= cs.len(),
    decreases cs.len() - i,
{
    if i < cs.len() && is_literal_char(cs[i]) {
        lemma_literal_end(cs, i + 1);
    }
}

pub proof fn lemma_word_end(cs: Seq<char>, alnum: Seq<bool>, i: int)
    requires
        0 <= i <= cs.len(),
    ensures
        i <= word_end(cs, alnum, i) <= cs.len(),
    decreases cs.len() - i,
{
    if i < cs.len() && is_word_char(cs[i], alnum[i]) {
        lemma_word_end(cs, alnum, i + 1);
    }
}

/// Two-character operators, tried before the one-character ones.
pub open spec fn two_char_op(c: char, d: char) -> Option<TokenView> {
    if c == '<' && d == '<' {
        Some(Token::LShift)
    } else if c == '<' && d == '=' {
        Some(Token::Le)
    } else if c == '>' && d == '>' {
        Some(Token::RShift)
    } else if c == '>' && d == '=' {
        Some(Token::Ge)
    } else if c == '=' && d == '=' {
        Some(Token::Eq)
    } else if c == '!' && d == '=' {
        Some(Token::Ne)
    } else if c == '*' && d == '*' {
        Some(Token::Power)
    } else {
        None
    }
}

pub open spec fn one_char_op(c: char) -> Option<TokenView> {
    if c == '<' {
        Some(Token::Lt)
    } else if c == '>' {
        Some(Token::Gt)
    } else if c == '+' {
        Some(Token::Plus)
    } else if c == '-' {
        Some(Token::Minus)
    } else if c == '*' {
        Some(Token::Star)
    } else if c == '/' {
        Some(Token::Slash)
    } else if c == '%' {
        Some(Token::Percent)
    } else if c == '&' {
        Some(Token::Amp)
    } else if c == '|' {
        Some(Token::Pipe)
    } else if c == '^' {
        Some(Token::Caret)
    } else if c == '~' {
        Some(Token::Tilde)
    } else if c == '(' {
        Some(Token::LParen)
    } else if c == ')' {
        Some(Token::RParen)
    } else if c == ',' {
        Some(Token::Comma)
    } else if c == ':' {
        Some(Token::Colon)
    } else {
        None
    }
}

pub open spec fn prepend(t: TokenView, rest: Option<Seq<TokenView>>) -> Option<Seq<TokenView>> {
    match rest {
        Some(r) => Some(seq![t] + r),
        None => None,
    }
}

pub open spec fn prepend_all(pre: Seq<TokenView>, rest: Option<Seq<TokenView>>) -> Option<Seq<TokenView>> {
    match rest {
        Some(r) => Some(pre + r),
        None => None,
    }
}

/// Tokens of `cs[i..]`: blanks and unknown characters are skipped, a
/// numeric literal that does not parse makes the whole result `None`.
pub open spec fn lex(cs: Seq<char>, alnum: Seq<bool>, i: int) -> Option<Seq<TokenView>>
    decreases cs.len() - i,
{
    if i < 0 || i >= cs.len() {
        Some(Seq::empty())
    } else {
        let c = cs[i];
        if is_blank(c) {
            lex(cs, alnum, i + 1)
        } else if is_digit(c) {
            let j = literal_end(cs, i);
            proof {
                lemma_literal_end(cs, i + 1);
            }
            match literal_value(cs.subrange(i, j)) {
                Some(v) => prepend(Token::Num(v), lex(cs, alnum, j)),
                None => None,
            }
        } else if is_ascii_alpha(c) || c == '_' {
            let j = word_end(cs, alnum, i);
            proof {
                lemma_word_end(cs, alnum, i + 1);
            }
            prepend(Token::Ident(cs.subrange(i, j)), lex(cs, alnum, j))
        } else if c == '$' {
            let j = word_end(cs, alnum, i + 1);
            proof {
                lemma_word_end(cs, alnum, i + 1);
            }
            prepend(Token::SysFn(cs.subrange(i + 1, j)), lex(cs, alnum, j))
        } else if i + 1 < cs.len() && two_char_op(c, cs[i + 1]) is Some {
            prepend(two_char_op(c, cs[i + 1])->0, lex(cs, alnum, i + 2))
        } else if one_char_op(c) is Some {
            prepend(one_char_op(c)->0, lex(cs, alnum, i + 1))
        } else {
            lex(cs, alnum, i + 1)
        }
    }
}

fn is_literal_char_exec(c: char) -> (r: bool)
    ensures
        r == is_literal_char(c),
{
    ('0' <= c && c <= '9') || ('a' <= c && c <= 'z') || ('A' <= c && c <= 'Z') || c == '\''
        || c == '_'
}

fn is_word_char_exec(c: char, alnum: bool) -> (r: bool)
    ensures
        r == is_word_char(c, alnum),
{
    if (c as u32) < 128 {
        ('0' <= c && c <= '9') || ('a' <= c && c <= 'z') || ('A' <= c && c <= 'Z') || c == '_'
    } else {
        alnum
    }
}

fn two_char_op_exec(c: char, d: char) -> (r: Option<Token<String>>)
    ensures
        match r {
            Some(t) => two_char_op(c, d) == Some(t@),
            None => two_char_op(c, d) is None,
        },
{
    if c == '<' && d == '<' {
        Some(Token::LShift)
    } else if c == '<' && d == '=' {
        Some(Token::Le)
    } else if c == '>' && d == '>' {
        Some(Token::RShift)
    } else if c == '>' && d == '=' {
        Some(Token::Ge)
    } else if c == '=' && d == '=' {
        Some(Token::Eq)
    } else if c == '!' && d == '=' {
        Some(Token::Ne)
    } else if c == '*' && d == '*' {
        Some(Token::Power)
    } else {
        None
    }
}

fn one_char_op_exec(c: char) -> (r: Option<Token<String>>)
    ensures
        match r {
            Some(t) => one_char_op(c) == Some(t@),
            None => one_char_op(c) is None,
        },
{
    if c == '<' {
        Some(Token::Lt)
    } else if c == '>' {
        Some(Token::Gt)
    } else if c == '+' {
        Some(Token::Plus)
    } else if c == '-' {
        Some(Token::Minus)
    } else if c == '*' {
        Some(Token::Star)
    } else if c == '/' {
        Some(Token::Slash)
    } else if c == '%' {
        Some(Token::Percent)
    } else if c == '&' {
        Some(Token::Amp)
    } else if c == '|' {
        Some(Token::Pipe)
    } else if c == '^' {
        Some(Token::Caret)
    } else if c == '~' {
        Some(Token::Tilde)
    } else if c == '(' {
        Some(Token::LParen)
    } else if c == ')' {
        Some(Token::RParen)
    } else if c == ',' {
        Some(Token::Comma)
    } else if c == ':' {
        Some(Token::Colon)
    } else {
        None
    }
}

fn copy_range(cs: &Vec<char>, from: usize, to: usize) -> (r: Vec<char>)
    requires
        from <= to <= cs.len(),
    ensures
        r@ == cs@.subrange(from as int, to as int),
{
    let mut out: Vec<char> = Vec::new();
    let mut i = from;
    while i < to
        invariant
            from <= i <= to <= cs.len(),
            out@ == cs@.subrange(from as int, i as int),
        decreases to - i,
    {
        out.push(cs[i]);
        i += 1;
    }
    out
}

proof fn lemma_push_view(out: Seq<Token<String>>, t: Token<String>)
    ensures
        views(out.push(t)) == views(out).push(t@),
{
    assert(views(out.push(t)) =~= views(out).push(t@));
}

proof fn lemma_prepend_step(pre: Seq<TokenView>, t: TokenView, rest: Option<Seq<TokenView>>)
    ensures
        prepend_all(pre, prepend(t, rest)) == prepend_all(pre.push(t), rest),
{
    if let Some(r) = rest {
        assert(pre + (seq![t] + r) =~= pre.push(t) + r);
    }
}

/// Splits the characters `chars` of a constant expression into tokens.
/// `alnum[i]` is the answer of `char::is_alphanumeric` for `chars[i]`; it is
/// consulted only for characters outside ASCII. `None` when a numeric literal
/// does not parse.
pub fn tokenize_chars(chars: &Vec<char>, alnum: &Vec<bool>) -> (r: Option<Vec<Token<String>>>)
    requires
        chars.len() == alnum.len(),
    ensures
        match r {
            Some(ts) => lex(chars@, alnum@, 0) == Some(views(ts@)),
            None => lex(chars@, alnum@, 0) is None,
        },
{
    let ghost cs = chars@;
    let ghost al = alnum@;
    let mut tokens: Vec<Token<String>> = Vec::new();
    let mut i: usize = 0;
    let n = chars.len();
    while i < n
        invariant
            n == chars.len() == alnum.len(),
            cs == chars@,
            al == alnum@,
            i <= n,
            lex(cs, al, 0) == prepend_all(views(tokens@), lex(cs, al, i as int)),
        decreases n - i,
    {
        let c = chars[i];
        if c == ' ' || c == '\t' || c == '\r' || c == '\n' {
            i += 1;
        } else if '0' <= c && c <= '9' {
            let start = i;
            while i < n && is_literal_char_exec(chars[i])
                invariant
                    n == chars.len(),
                    start <= i <= n,
                    literal_end(cs, start as int) == literal_end(cs, i as int),
                    cs == chars@,
                decreases n - i,
            {
                i += 1;
            }
            let raw = copy_range(chars, start, i);
            match parse_sv_literal(&raw) {
                Some(v) => {
                    let t = Token::Num(v);
                    proof {
                        lemma_push_view(tokens@, t);
                        lemma_prepend_step(views(tokens@), t@, lex(cs, al, i as int));
                    }
                    tokens.push(t);
                },
                None => {
                    return None;
                },
            }
        } else if ('a' <= c && c <= 'z') || ('A' <= c && c <= 'Z') || c == '_' {
            let start = i;
            while i < n && is_word_char_exec(chars[i], alnum[i])
                invariant
                    n == chars.len() == alnum.len(),
                    start <= i <= n,
                    word_end(cs, al, start as int) == word_end(cs, al, i as int),
                    cs == chars@,
                    al == alnum@,
                decreases n - i,
            {
                i += 1;
            }
            let t = Token::Ident(string_from_chars(chars, start, i));
            proof {
                lemma_push_view(tokens@, t);
                lemma_prepend_step(views(tokens@), t@, lex(cs, al, i as int));
            }
            tokens.push(t);
        } else if c == '$' {
            i += 1;
            let start = i;
            while i < n && is_word_char_exec(chars[i], alnum[i])
                invariant
                    n == chars.len() == alnum.len(),
                    start <= i <= n,
                    word_end(cs, al, start as int) == word_end(cs, al, i as int),
                    cs == chars@,
                    al == alnum@,
                decreases n - i,
            {
                i += 1;
            }
            let t = Token::SysFn(string_from_chars(chars, start, i));
            proof {
                lemma_push_view(tokens@, t);
                lemma_prepend_step(views(tokens@), t@, lex(cs, al, i as int));
            }
            tokens.push(t);
        } else {
            let two = if i + 1 < n {
                two_char_op_exec(c, chars[i + 1])
            } else {
                None
            };
            match two {
                Some(t) => {
                    proof {
                        lemma_push_view(tokens@, t);
                        lemma_prepend_step(views(tokens@), t@, lex(cs, al, i + 2));
                    }
                    tokens.push(t);
                    i += 2;
                },
                None => {
                    match one_char_op_exec(c) {
                        Some(t) => {
                            proof {
                                lemma_push_view(tokens@, t);
                                lemma_prepend_step(views(tokens@), t@, lex(cs, al, i + 1));
                            }
                            tokens.push(t);
                        },
                        None => {},
                    }
                    i += 1;
                },
            }
        }
    }
    assert(views(tokens@) + Seq::<TokenView>::empty() =~= views(tokens@));
    Some(tokens)
}

} // verus!
