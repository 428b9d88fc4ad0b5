//! Filelists (`-f` files): which line names what.
use vstd::prelude::*;
use std::path::PathBuf;
use crate::literal::find_char;
use crate::text::{chars_end_with, chars_of, chars_start_with, ends_with, owned, starts_with, string_from_chars, trim_str, trimmed};

verus! {

/// The sources, include directories and macro definitions a filelist names.
pub struct FileList {
    pub files: Vec<PathBuf>,
    pub include_dirs: Vec<PathBuf>,
    pub defines: Vec<(String, Option<String>)>,
}

/// What one filelist line says.
pub enum FileListEntry {
    /// Blank, a comment, or nothing this tool reads.
    Skip,
    /// `-f path` / `-F path`: another filelist.
    FileList(String),
    /// `+incdir+dir`.
    IncDir(String),
    /// `-D NAME` or `-D NAME=VALUE`.
    Define(String, Option<String>),
    /// A `.v` or `.sv` source file.
    Source(String),
}

pub open spec fn opt_text(o: Option<String>) -> Option<Seq<char>> {
    match o {
        Some(s) => Some(s@),
        None => None,
    }
}

/// `NAME=VALUE` split at its first `=`; without one, the whole text and no value.
pub open spec fn define_parts(d: Seq<char>) -> (Seq<char>, Option<Seq<char>>) {
    match find_char(d, '=', 0) {
        Some(i) => (d.take(i), Some(d.skip(i + 1))),
        None => (d, None),
    }
}

/// The entry that a (raw) filelist line gives.
pub open spec fn is_entry_of(r: FileListEntry, raw: Seq<char>) -> bool {
    let l = trimmed(raw);
    if l.len() == 0 || starts_with(l, "//"@) || starts_with(l, "#"@) {
        r is Skip
    } else if starts_with(l, "-f"@) || starts_with(l, "-F"@) {
        r matches FileListEntry::FileList(p) && p@ == trimmed(l.skip(2))
    } else if starts_with(l, "+incdir+"@) {
        r matches FileListEntry::IncDir(d) && d@ == l.skip(8)
    } else if starts_with(l, "-D"@) {
        r matches FileListEntry::Define(n, v) && define_parts(trimmed(l.skip(2))) == (n@, opt_text(v))
    } else if ends_with(l, ".v"@) || ends_with(l, ".sv"@) {
        r matches FileListEntry::Source(s) && s@ == l
    } else {
        r is Skip
    }
}

/// Splits `NAME=VALUE` at its first `=`.
pub fn split_define(d: &str) -> (r: (String, Option<String>))
    ensures
        define_parts(d@) == (r.0@, opt_text(r.1)),
{
    let cs = chars_of(d);
    let mut i: usize = 0;
    while i < cs.len() && cs[i] != '='
        invariant
            i <= cs.len(),
            cs@ == d@,
            find_char(cs@, '=', 0) == find_char(cs@, '=', i as int),
        decreases cs.len() - i,
    {
        i += 1;
    }
    if i < cs.len() {
        let name = string_from_chars(&cs, 0, i);
        let value = string_from_chars(&cs, i + 1, cs.len());
        assert(name@ =~= cs@.take(i as int));
        assert(value@ =~= cs@.skip(i + 1));
        (name, Some(value))
    } else {
        assert(cs@.subrange(0, cs.len() as int) =~= cs@);
        (string_from_chars(&cs, 0, cs.len()), None)
    }
}

/// Reads one line of a filelist.
pub fn classify_filelist_line(line: &str) -> (r: FileListEntry)
    ensures
        is_entry_of(r, line@),
{
    let l = trim_str(line);
    let cs = chars_of(l);
    if cs.len() == 0 || chars_start_with(&cs, "//") || chars_start_with(&cs, "#") {
        return FileListEntry::Skip;
    }
    if chars_start_with(&cs, "-f") || chars_start_with(&cs, "-F") {
        proof {
            reveal_strlit("-f");
            reveal_strlit("-F");
        }
        let rest = string_from_chars(&cs, 2, cs.len());
        assert(rest@ =~= cs@.skip(2));
        return FileListEntry::FileList(owned(trim_str(rest.as_str())));
    }
    if chars_start_with(&cs, "+incdir+") {
        proof {
            reveal_strlit("+incdir+");
        }
        let rest = string_from_chars(&cs, 8, cs.len());
        assert(rest@ =~= cs@.skip(8));
        return FileListEntry::IncDir(rest);
    }
    if chars_start_with(&cs, "-D") {
        proof {
            reveal_strlit("-D");
        }
        let rest = string_from_chars(&cs, 2, cs.len());
        assert(rest@ =~= cs@.skip(2));
        let (name, value) = split_define(trim_str(rest.as_str()));
        return FileListEntry::Define(name, value);
    }
    if chars_end_with(&cs, ".v") || chars_end_with(&cs, ".sv") {
        return FileListEntry::Source(owned(l));
    }
    FileListEntry::Skip
}

/// What `PathBuf::from` gives for a text.
pub uninterp spec fn path_from(s: Seq<char>) -> PathBuf;

/// What `Path::parent` gives.
pub uninterp spec fn path_parent(p: PathBuf) -> Option<PathBuf>;

/// What `Path::join` gives.
pub uninterp spec fn path_join(p: PathBuf, rel: Seq<char>) -> PathBuf;

/// Calls `PathBuf::from` on a text; claimed: the path it gives is the one
/// named `path_from` for that text.
#[verifier::external_body]
fn path_of(s: &str) -> (r: PathBuf)
    ensures
        r == path_from(s@),
{
    PathBuf::from(s)
}

/// Calls `Path::parent` and owns the result; claimed: it is the one named
/// `path_parent` for that path (none for a root or an empty path).
#[verifier::external_body]
fn parent_of(p: &PathBuf) -> (r: Option<PathBuf>)
    ensures
        r == path_parent(*p),
{
    p.parent().map(|q| q.to_path_buf())
}

/// Calls `Path::join`; claimed: the path it gives is the one named
/// `path_join` for that path and text.
#[verifier::external_body]
fn join_path(p: &PathBuf, rel: &str) -> (r: PathBuf)
    ensures
        r == path_join(*p, rel@),
{
    p.join(rel)
}

/// Where a path written in the filelist at `base` points: an absolute
/// path as written, otherwise relative to the filelist's directory (or to
/// `.` when it has none).
pub open spec fn resolved_path(base: PathBuf, rel: Seq<char>) -> PathBuf {
    if rel.len() > 0 && rel[0] == '/' {
        path_from(rel)
    } else {
        match path_parent(base) {
            Some(d) => path_join(d, rel),
            None => path_join(path_from("."@), rel),
        }
    }
}

pub fn resolve_path(base: &PathBuf, rel: &str) -> (r: PathBuf)
    ensures
        r == resolved_path(*base, rel@),
{
    let cs = chars_of(rel);
    if cs.len() > 0 && cs[0] == '/' {
        path_of(rel)
    } else {
        match parent_of(base) {
            Some(d) => join_path(&d, rel),
            None => join_path(&path_of("."), rel),
        }
    }
}

pub open spec fn defines_view(v: Seq<(String, Option<String>)>) -> Seq<(Seq<char>, Option<Seq<char>>)> {
    v.map_values(|d: (String, Option<String>)| (d.0@, opt_text(d.1)))
}

impl FileList {
    /// A list that names nothing.
    pub fn new() -> (r: FileList)
        ensures
            r.files@.len() == 0,
            r.include_dirs@.len() == 0,
            r.defines@.len() == 0,
    {
        FileList { files: Vec::new(), include_dirs: Vec::new(), defines: Vec::new() }
    }
}

/// What one line of the filelist at `base` does to the list (`old` before,
/// `new` after), and the nested filelist it names (`nested`): a source
/// file or an include directory is added resolved against `base`, a macro
/// definition as `NAME` and its value; a `-f` line names a filelist to read
/// in its place; anything else leaves the list as it was.
pub open spec fn line_effect(
    old: FileList,
    new: FileList,
    base: PathBuf,
    raw: Seq<char>,
    nested: Option<PathBuf>,
) -> bool {
    let l = trimmed(raw);
    let same_files = new.files@ == old.files@;
    let same_dirs = new.include_dirs@ == old.include_dirs@;
    let same_defines = defines_view(new.defines@) == defines_view(old.defines@);
    if l.len() == 0 || starts_with(l, "//"@) || starts_with(l, "#"@) {
        same_files && same_dirs && same_defines && nested is None
    } else if starts_with(l, "-f"@) || starts_with(l, "-F"@) {
        same_files && same_dirs && same_defines && nested == Some(resolved_path(base, trimmed(l.skip(2))))
    } else if starts_with(l, "+incdir+"@) {
        same_files && new.include_dirs@ == old.include_dirs@.push(resolved_path(base, l.skip(8))) && same_defines
            && nested is None
    } else if starts_with(l, "-D"@) {
        same_files && same_dirs && defines_view(new.defines@) == defines_view(old.defines@).push(
            define_parts(trimmed(l.skip(2))),
        ) && nested is None
    } else if ends_with(l, ".v"@) || ends_with(l, ".sv"@) {
        new.files@ == old.files@.push(resolved_path(base, l)) && same_dirs && same_defines && nested is None
    } else {
        same_files && same_dirs && same_defines && nested is None
    }
}

/// Takes in one line of the filelist at `filelist_path`; returns the
/// filelist that a `-f` line names, whose contents belong in its place.
pub fn apply_filelist_line(list: &mut FileList, filelist_path: &PathBuf, line: &str) -> (r: Option<PathBuf>)
    ensures
        line_effect(*old(list), *final(list), *filelist_path, line@, r),
{
    let ghost l = trimmed(line@);
    match classify_filelist_line(line) {
        FileListEntry::Skip => None,
        FileListEntry::FileList(p) => Some(resolve_path(filelist_path, p.as_str())),
        FileListEntry::IncDir(d) => {
            list.include_dirs.push(resolve_path(filelist_path, d.as_str()));
            None
        },
        FileListEntry::Define(name, value) => {
            let ghost before = list.defines@;
            list.defines.push((name, value));
            assert(defines_view(list.defines@) =~= defines_view(before).push(define_parts(trimmed(l.skip(2)))));
            None
        },
        FileListEntry::Source(s) => {
            list.files.push(resolve_path(filelist_path, s.as_str()));
            None
        },
    }
}

/// Appends what a nested filelist names.
pub fn append_filelist(list: &mut FileList, sub: FileList)
    ensures
        final(list).files@ == old(list).files@ + sub.files@,
        final(list).include_dirs@ == old(list).include_dirs@ + sub.include_dirs@,
        final(list).defines@ == old(list).defines@ + sub.defines@,
{
    let mut sub = sub;
    list.files.append(&mut sub.files);
    list.include_dirs.append(&mut sub.include_dirs);
    list.defines.append(&mut sub.defines);
}

/// The lines of a text as `str::lines` splits it: at each `\n`, a `\r`
/// before it dropped, with no line after a final line end.
pub open spec fn lines_of(s: Seq<char>) -> Seq<Seq<char>>
    decreases s.len(),
{
    match find_char(s, '\n', 0) {
        None => if s.len() == 0 {
            Seq::empty()
        } else {
            seq![s]
        },
        Some(i) => {
            let line = s.take(i);
            let line = if line.len() > 0 && line.last() == '\r' {
                line.drop_last()
            } else {
                line
            };
            proof {
                lemma_find_char_bound(s, '\n', 0);
            }
            seq![line] + lines_of(s.skip(i + 1))
        },
    }
}

pub proof fn lemma_find_char_bound(s: Seq<char>, c: char, i: int)
    ensures
        find_char(s, c, i) matches Some(j) ==> i <= j < s.len() && s[j] == c,
    decreases s.len() - i,
{
    if 0 <= i < s.len() && s[i] != c {
        lemma_find_char_bound(s, c, i + 1);
    }
}

pub open spec fn texts(v: Seq<String>) -> Seq<Seq<char>> {
    v.map_values(|s: String| s@)
}

/// Splits a text into its lines.
pub fn split_lines(content: &str) -> (r: Vec<String>)
    ensures
        texts(r@) == lines_of(content@),
{
    let cs = chars_of(content);
    let mut out: Vec<String> = Vec::new();
    let mut start: usize = 0;
    let mut i: usize = 0;
    assert(cs@.skip(0) =~= cs@);
    assert(texts(out@) + lines_of(cs@.skip(0)) =~= lines_of(cs@));
    while i < cs.len()
        invariant
            start <= i <= cs.len(),
            cs@ == content@,
            texts(out@) + lines_of(cs@.skip(start as int)) == lines_of(cs@),
            forall|k: int| start <= k < i ==> cs@[k] != '\n',
        decreases cs.len() - i,
    {
        if cs[i] == '\n' {
            let ghost rest = cs@.skip(start as int);
            proof {
                assert forall|k: int| 0 <= k < i - start implies rest[k] != '\n' by {
                    assert(rest[k] == cs@[start + k]);
                }
                lemma_find_char_first(rest, '\n', (i - start) as int, 0);
                assert(rest.skip(i - start + 1) =~= cs@.skip(i + 1));
            }
            let end = if i > start && cs[i - 1] == '\r' {
                i - 1
            } else {
                i
            };
            let line = string_from_chars(&cs, start, end);
            proof {
                let lt = rest.take(i - start);
                if i > start && cs@[i - 1] == '\r' {
                    assert(line@ =~= lt.drop_last());
                } else {
                    assert(line@ =~= lt);
                }
            }
            let ghost before = out@;
            out.push(line);
            assert(texts(out@) =~= texts(before).push(line@));
            assert(texts(out@) + lines_of(cs@.skip(i + 1)) =~= texts(before) + lines_of(rest));
            start = i + 1;
        }
        i += 1;
    }
    let ghost rest = cs@.skip(start as int);
    proof {
        assert forall|k: int| 0 <= k < rest.len() implies rest[k] != '\n' by {
            assert(rest[k] == cs@[start + k]);
        }
        lemma_find_char_none(rest, '\n', 0);
    }
    if start < cs.len() {
        let line = string_from_chars(&cs, start, cs.len());
        assert(line@ =~= rest);
        let ghost before = out@;
        out.push(line);
        assert(texts(out@) =~= texts(before).push(rest));
        assert(lines_of(rest) == seq![rest]);
        assert(texts(out@) =~= texts(before) + lines_of(rest));
    } else {
        assert(rest.len() == 0);
        assert(texts(out@) =~= texts(out@) + lines_of(rest));
    }
    out
}

pub proof fn lemma_find_char_first(s: Seq<char>, c: char, j: int, i: int)
    requires
        0 <= i <= j < s.len(),
        s[j] == c,
        forall|k: int| i <= k < j ==> s[k] != c,
    ensures
        find_char(s, c, i) == Some(j),
    decreases j - i,
{
    if i < j {
        lemma_find_char_first(s, c, j, i + 1);
    }
}

pub proof fn lemma_find_char_none(s: Seq<char>, c: char, i: int)
    requires
        0 <= i,
        forall|k: int| i <= k < s.len() ==> s[k] != c,
    ensures
        find_char(s, c, i) is None,
    decreases s.len() - i,
{
    if i < s.len() {
        lemma_find_char_none(s, c, i + 1);
    }
}

} // verus!
