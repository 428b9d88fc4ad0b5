//! Character and string primitives shared by the expression evaluator,
//! the filelist reader and the syntax-tree visitor.
use vstd::prelude::*;
#[allow(unused_imports)]
use vstd::string::*;

verus! {

pub open spec fn is_ascii_char(c: char) -> bool {
    (c as u32) < 128
}

pub open spec fn is_ascii_seq(s: Seq<char>) -> bool {
    forall|i: int| 0 <= i < s.len() ==> is_ascii_char(#[trigger] s[i])
}

pub open spec fn is_digit(c: char) -> bool {
    '0' <= c && c <= '9'
}

pub open spec fn is_ascii_alpha(c: char) -> bool {
    ('a' <= c && c <= 'z') || ('A' <= c && c <= 'Z')
}

pub open spec fn is_ascii_alnum(c: char) -> bool {
    is_digit(c) || is_ascii_alpha(c)
}

/// ASCII whitespace as `char::is_whitespace` classifies it.
pub open spec fn is_ascii_space(c: char) -> bool {
    c == ' ' || c == '\t' || c == '\n' || c == '\x0B' || c == '\x0C' || c == '\r'
}

pub open spec fn ascii_lower_char(c: char) -> char {
    if 'A' <= c && c <= 'Z' {
        ((c as u32) + 32) as char
    } else {
        c
    }
}

pub open spec fn ascii_lower_seq(s: Seq<char>) -> Seq<char> {
    s.map_values(|c: char| ascii_lower_char(c))
}

pub open spec fn trim_start_ascii(s: Seq<char>) -> Seq<char>
    decreases s.len(),
{
    if s.len() > 0 && is_ascii_space(s[0]) {
        trim_start_ascii(s.drop_first())
    } else {
        s
    }
}

pub open spec fn trim_end_ascii(s: Seq<char>) -> Seq<char>
    decreases s.len(),
{
    if s.len() > 0 && is_ascii_space(s.last()) {
        trim_end_ascii(s.drop_last())
    } else {
        s
    }
}

/// Leading and trailing ASCII whitespace removed.
pub open spec fn trim_ascii(s: Seq<char>) -> Seq<char> {
    trim_end_ascii(trim_start_ascii(s))
}

/// What `char::is_alphanumeric` answers for a character outside ASCII
/// (the Unicode Alphabetic and Numeric properties).
pub uninterp spec fn unicode_alphanumeric(c: char) -> bool;

/// What `str::trim` returns for a string that is not pure ASCII
/// (Unicode `White_Space` removed at both ends).
pub uninterp spec fn unicode_trim(s: Seq<char>) -> Seq<char>;

/// What `str::to_lowercase` returns for a string that is not pure ASCII.
pub uninterp spec fn unicode_lowercase(s: Seq<char>) -> Seq<char>;

/// `char::is_alphanumeric`, with its ASCII behaviour spelled out.
pub open spec fn alphanumeric(c: char) -> bool {
    if is_ascii_char(c) {
        is_ascii_alnum(c)
    } else {
        unicode_alphanumeric(c)
    }
}

/// `str::trim`, with its ASCII behaviour spelled out.
pub open spec fn trimmed(s: Seq<char>) -> Seq<char> {
    if is_ascii_seq(s) {
        trim_ascii(s)
    } else {
        unicode_trim(s)
    }
}

/// `str::to_lowercase`, with its ASCII behaviour spelled out.
pub open spec fn lowercased(s: Seq<char>) -> Seq<char> {
    if is_ascii_seq(s) {
        ascii_lower_seq(s)
    } else {
        unicode_lowercase(s)
    }
}

/// Calls `char::is_alphanumeric`. Claimed: on ASCII characters it holds exactly
/// of `0-9`, `a-z`, `A-Z`; elsewhere its answer is named `unicode_alphanumeric`.
#[verifier::external_body]
pub(crate) fn char_is_alphanumeric(c: char) -> (r: bool)
    ensures
        r == (if is_ascii_char(c) { is_ascii_alnum(c) } else { unicode_alphanumeric(c) }),
{
    c.is_alphanumeric()
}

/// Calls `str::trim`. Claimed: on a pure-ASCII string it removes exactly the
/// leading and trailing ASCII whitespace; otherwise its result is named `unicode_trim`.
#[verifier::external_body]
pub(crate) fn trim_str<'a>(s: &'a str) -> (r: &'a str)
    ensures
        r@ == (if is_ascii_seq(s@) { trim_ascii(s@) } else { unicode_trim(s@) }),
{
    s.trim()
}

/// Calls `str::to_lowercase`. Claimed: on a pure-ASCII string it maps `A-Z` to
/// `a-z` and keeps every other character; otherwise its result is named
/// `unicode_lowercase`.
#[verifier::external_body]
pub(crate) fn to_lowercase(s: &str) -> (r: String)
    ensures
        r@ == (if is_ascii_seq(s@) { ascii_lower_seq(s@) } else { unicode_lowercase(s@) }),
{
    s.to_lowercase()
}

/// Calls `FromIterator<char>` for `String` on `cs[from..to]`: the string of
/// exactly those characters.
#[verifier::external_body]
pub(crate) fn string_from_chars(cs: &Vec<char>, from: usize, to: usize) -> (r: String)
    requires
        from <= to <= cs.len(),
    ensures
        r@ == cs@.subrange(from as int, to as int),
{
    cs[from..to].iter().collect()
}

/// The characters of `s`, in order.
pub fn chars_of(s: &str) -> (r: Vec<char>)
    ensures
        r@ == s@,
{
    let n = s.unicode_len();
    let mut out: Vec<char> = Vec::new();
    let mut i: usize = 0;
    while i < n
        invariant
            n == s@.len(),
            i <= n,
            out@ == s@.subrange(0, i as int),
        decreases n - i,
    {
        out.push(s.get_char(i));
        i += 1;
    }
    assert(out@ =~= s@);
    out
}

/// A fresh `String` holding the characters of `s`.
pub fn owned(s: &str) -> (r: String)
    ensures
        r@ == s@,
{
    String::from_str(s)
}

pub open spec fn starts_with(s: Seq<char>, p: Seq<char>) -> bool {
    p.len() <= s.len() && s.take(p.len() as int) == p
}

pub open spec fn ends_with(s: Seq<char>, p: Seq<char>) -> bool {
    p.len() <= s.len() && s.skip(s.len() - p.len()) == p
}

/// Whether `cs` begins with the characters of `p`.
pub fn chars_start_with(cs: &Vec<char>, p: &str) -> (r: bool)
    ensures
        r == starts_with(cs@, p@),
{
    let pc = chars_of(p);
    if pc.len() > cs.len() {
        return false;
    }
    let mut i: usize = 0;
    while i < pc.len()
        invariant
            pc@ == p@,
            pc.len() <= cs.len(),
            i <= pc.len(),
            forall|j: int| 0 <= j < i ==> cs@[j] == pc@[j],
        decreases pc.len() - i,
    {
        if cs[i] != pc[i] {
            assert(cs@.take(pc.len() as int)[i as int] != pc@[i as int]);
            return false;
        }
        i += 1;
    }
    assert(cs@.take(pc.len() as int) =~= pc@);
    true
}

/// Whether `cs` ends with the characters of `p`.
pub fn chars_end_with(cs: &Vec<char>, p: &str) -> (r: bool)
    ensures
        r == ends_with(cs@, p@),
{
    let pc = chars_of(p);
    if pc.len() > cs.len() {
        return false;
    }
    let off = cs.len() - pc.len();
    let mut i: usize = 0;
    while i < pc.len()
        invariant
            pc@ == p@,
            off + pc.len() == cs.len(),
            i <= pc.len(),
            forall|j: int| 0 <= j < i ==> cs@[off + j] == pc@[j],
        decreases pc.len() - i,
    {
        if cs[off + i] != pc[i] {
            assert(cs@.skip(off as int)[i as int] != pc@[i as int]);
            return false;
        }
        i += 1;
    }
    assert(cs@.skip(off as int) =~= pc@);
    true
}

} // verus!
