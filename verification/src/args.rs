//! The command line's model: subcommands, output formats, `-D` and `-P`
//! arguments, and the detection of top modules.
use vstd::prelude::*;
use std::path::PathBuf;
use crate::design::{module_entries, Design, Module};
use crate::literal::{find_char, parse_signed_radix, signed_radix};
use crate::loader::{define_parts, opt_text, split_define};
use crate::text::{chars_of, owned, string_from_chars, trim_str, trimmed};

verus! {

/// How a report is written.
#[derive(Clone, Copy, Debug, PartialEq, Eq, Structural)]
pub enum OutputFormat {
    Text,
    Json,
    Markdown,
    Csv,
}

/// The subcommands, each with the source files it reads.
pub enum Commands {
    /// Show module port list
    Ports { files: Vec<PathBuf> },
    /// Show internal signal declarations
    Signals { files: Vec<PathBuf> },
    /// Estimate flip-flop count
    Ff { files: Vec<PathBuf> },
    /// Show module hierarchy
    Hier { files: Vec<PathBuf> },
    /// Detect top-level modules
    Top { files: Vec<PathBuf> },
    /// Generate full report
    Report { files: Vec<PathBuf> },
}

impl Commands {
    /// The source files named on the command line.
    pub open spec fn file_list(self) -> Seq<PathBuf> {
        match self {
            Commands::Ports { files } => files@,
            Commands::Signals { files } => files@,
            Commands::Ff { files } => files@,
            Commands::Hier { files } => files@,
            Commands::Top { files } => files@,
            Commands::Report { files } => files@,
        }
    }

    pub fn files(&self) -> (r: &[PathBuf])
        ensures
            r@ == self.file_list(),
    {
        match self {
            Commands::Ports { files } => files.as_slice(),
            Commands::Signals { files } => files.as_slice(),
            Commands::Ff { files } => files.as_slice(),
            Commands::Hier { files } => files.as_slice(),
            Commands::Top { files } => files.as_slice(),
            Commands::Report { files } => files.as_slice(),
        }
    }
}

/// The options of one run.
pub struct Cli {
    /// File list (-f filelist.f format)
    pub filelist: Option<PathBuf>,
    /// Include directory (multiple allowed)
    pub include_dirs: Vec<PathBuf>,
    /// Macro definition (e.g. -D NAME=VAL, multiple allowed)
    pub defines: Vec<String>,
    /// Parameter override (e.g. -P WIDTH=8, multiple allowed)
    pub param_overrides: Vec<String>,
    /// Output format
    pub format: OutputFormat,
    /// Top module name
    pub top: Option<String>,
    /// Target module name (for ports/signals)
    pub module_name: Option<String>,
    /// Verbose output
    pub verbose: bool,
    pub command: Commands,
}

/// Parse -D NAME or -D NAME=VAL strings into (name, Option<value>) pairs
pub fn parse_defines(defines: &[String]) -> (r: Vec<(String, Option<String>)>)
    ensures
        r.len() == defines.len(),
        forall|i: int|
            0 <= i < defines.len() ==> define_parts(#[trigger] defines@[i]@) == (r@[i].0@, opt_text(r@[i].1)),
{
    let mut out: Vec<(String, Option<String>)> = Vec::new();
    let mut i: usize = 0;
    while i < defines.len()
        invariant
            i <= defines.len(),
            out.len() == i,
            forall|j: int|
                0 <= j < i ==> define_parts(#[trigger] defines@[j]@) == (out@[j].0@, opt_text(out@[j].1)),
        decreases defines.len() - i,
    {
        let pair = split_define(defines[i].as_str());
        out.push(pair);
        i += 1;
    }
    out
}

/// Whether some module of the entries instantiates a module named `name`.
pub open spec fn is_referenced(es: Seq<(Seq<char>, Module)>, name: Seq<char>) -> bool {
    exists|i: int, j: int|
        0 <= i < es.len() && 0 <= j < es[i].1.instances@.len() && (#[trigger] es[i].1.instances@[j]).module_ref@
            == name
}

/// The names of the first `n` entries that no module instantiates, in order.
pub open spec fn unreferenced_names(es: Seq<(Seq<char>, Module)>, n: int) -> Seq<Seq<char>>
    decreases n,
{
    if n <= 0 {
        Seq::empty()
    } else {
        let prev = unreferenced_names(es, n - 1);
        if is_referenced(es, es[n - 1].0) {
            prev
        } else {
            prev.push(es[n - 1].0)
        }
    }
}

/// The module names that instances of the entries refer to: those of the
/// modules before `i`, and of the first `j` instances of module `i`.
pub open spec fn referenced_before(es: Seq<(Seq<char>, Module)>, i: int, j: int, name: Seq<char>) -> bool {
    exists|a: int, b: int|
        0 <= a < es.len() && 0 <= b < es[a].1.instances@.len() && (a < i || (a == i && b < j))
            && (#[trigger] es[a].1.instances@[b]).module_ref@ == name
}

fn contains_name(names: &Vec<String>, name: &String) -> (r: bool)
    ensures
        r <==> exists|k: int| 0 <= k < names.len() && (#[trigger] names@[k])@ == name@,
{
    let mut k: usize = 0;
    while k < names.len()
        invariant
            k <= names.len(),
            forall|l: int| 0 <= l < k ==> (#[trigger] names@[l])@ != name@,
        decreases names.len() - k,
    {
        if names[k] == *name {
            return true;
        }
        k += 1;
    }
    false
}

/// Detect top-level modules (not instantiated by any other module in the design)
pub fn detect_top_module(design: &Design) -> (r: Vec<String>)
    ensures
        r@.map_values(|s: String| s@) == unreferenced_names(
            module_entries(design.modules),
            module_entries(design.modules).len() as int,
        ),
{
    let ghost es = module_entries(design.modules);
    let n = crate::design::module_count(&design.modules);
    let mut referenced: Vec<String> = Vec::new();
    let mut i: usize = 0;
    while i < n
        invariant
            n == es.len(),
            es == module_entries(design.modules),
            i <= n,
            forall|name: Seq<char>|
                #![trigger referenced_before(es, i as int, 0, name)]
                referenced_before(es, i as int, 0, name) <==> exists|k: int|
                    0 <= k < referenced.len() && (#[trigger] referenced@[k])@ == name,
        decreases n - i,
    {
        let (_, m) = crate::design::module_at(&design.modules, i);
        let mut j: usize = 0;
        while j < m.instances.len()
            invariant
                n == es.len(),
                es == module_entries(design.modules),
                i < n,
                *m == es[i as int].1,
                j <= m.instances.len(),
                forall|name: Seq<char>|
                    #![trigger referenced_before(es, i as int, j as int, name)]
                    referenced_before(es, i as int, j as int, name) <==> exists|k: int|
                        0 <= k < referenced.len() && (#[trigger] referenced@[k])@ == name,
            decreases m.instances.len() - j,
        {
            proof {
                assert forall|name: Seq<char>|
                    #![trigger referenced_before(es, i as int, j + 1, name)]
                    referenced_before(es, i as int, j + 1, name) <==> (referenced_before(
                        es,
                        i as int,
                        j as int,
                        name,
                    ) || m.instances@[j as int].module_ref@ == name) by {
                    if m.instances@[j as int].module_ref@ == name {
                        assert(es[i as int].1.instances@[j as int].module_ref@ == name);
                    }
                }
            }
            let ghost before = referenced@;
            referenced.push(m.instances[j].module_ref.clone());
            proof {
                assert forall|name: Seq<char>|
                    #![trigger referenced_before(es, i as int, j + 1, name)]
                    referenced_before(es, i as int, j + 1, name) <==> exists|k: int|
                        0 <= k < referenced.len() && (#[trigger] referenced@[k])@ == name by {
                    if referenced_before(es, i as int, j as int, name) {
                        let k = choose|k: int| 0 <= k < before.len() && (#[trigger] before[k])@ == name;
                        assert(referenced@[k] == before[k]);
                    }
                    if m.instances@[j as int].module_ref@ == name {
                        assert(referenced@[before.len() as int]@ == name);
                    }
                    if exists|k: int| 0 <= k < referenced.len() && (#[trigger] referenced@[k])@ == name {
                        let k = choose|k: int| 0 <= k < referenced.len() && (#[trigger] referenced@[k])@ == name;
                        if k < before.len() {
                            assert(before[k] == referenced@[k]);
                            assert(referenced_before(es, i as int, j as int, name));
                        }
                    }
                }
            }
            j += 1;
        }
        proof {
            assert forall|name: Seq<char>|
                #![trigger referenced_before(es, i + 1, 0, name)]
                referenced_before(es, i + 1, 0, name) == referenced_before(
                    es,
                    i as int,
                    m.instances.len() as int,
                    name,
                ) by {
                if referenced_before(es, i + 1, 0, name) {
                    let (a, b) = choose|a: int, b: int|
                        0 <= a < es.len() && 0 <= b < es[a].1.instances@.len() && (a < i + 1 || (a == i + 1
                            && b < 0)) && (#[trigger] es[a].1.instances@[b]).module_ref@ == name;
                    assert(es[a].1.instances@[b].module_ref@ == name);
                }
                if referenced_before(es, i as int, m.instances.len() as int, name) {
                    let (a, b) = choose|a: int, b: int|
                        0 <= a < es.len() && 0 <= b < es[a].1.instances@.len() && (a < i || (a == i && b
                            < m.instances.len())) && (#[trigger] es[a].1.instances@[b]).module_ref@ == name;
                    assert(es[a].1.instances@[b].module_ref@ == name);
                }
            }
        }
        i += 1;
    }
    let mut tops: Vec<String> = Vec::new();
    let mut i: usize = 0;
    while i < n
        invariant
            n == es.len(),
            es == module_entries(design.modules),
            i <= n,
            forall|name: Seq<char>|
                #![trigger referenced_before(es, n as int, 0, name)]
                referenced_before(es, n as int, 0, name) <==> exists|k: int|
                    0 <= k < referenced.len() && (#[trigger] referenced@[k])@ == name,
            tops@.map_values(|s: String| s@) == unreferenced_names(es, i as int),
        decreases n - i,
    {
        let (name, _) = crate::design::module_at(&design.modules, i);
        let hit = contains_name(&referenced, name);
        proof {
            let k = es[i as int].0;
            if is_referenced(es, k) {
                let (a, b) = choose|a: int, b: int|
                    0 <= a < es.len() && 0 <= b < es[a].1.instances@.len() && (#[trigger] es[a].1.instances@[b]).module_ref@
                        == k;
                assert(referenced_before(es, n as int, 0, k));
            }
            if referenced_before(es, n as int, 0, k) {
                let (a, b) = choose|a: int, b: int|
                    0 <= a < es.len() && 0 <= b < es[a].1.instances@.len() && (a < n || (a == n && b < 0))
                        && (#[trigger] es[a].1.instances@[b]).module_ref@ == k;
                assert(is_referenced(es, k));
            }
        }
        if !hit {
            tops.push(name.clone());
            proof {
                assert(tops@.map_values(|s: String| s@) =~= unreferenced_names(es, i as int).push(
                    es[i as int].0,
                ));
            }
        }
        i += 1;
    }
    tops
}

/// A `-P NAME=VAL` argument that could not be read.
#[derive(Debug)]
pub enum OverrideError {
    /// The argument has no `=`; it is given trimmed.
    MissingEquals(String),
    /// The value is no integer: the name and the value, trimmed.
    NotInteger(String, String),
}

/// What a `-P` argument says: the trimmed text split at its first `=`, the
/// name trimmed, and the trimmed value read as a decimal `i64` with an
/// optional sign.
pub open spec fn override_of(arg: Seq<char>) -> Result<(Seq<char>, i64), (Seq<char>, Option<Seq<char>>)> {
    let s = trimmed(arg);
    match find_char(s, '=', 0) {
        None => Err((s, None)),
        Some(eq) => {
            let name = trimmed(s.take(eq));
            let val = trimmed(s.skip(eq + 1));
            match signed_radix(val, 10) {
                Some(v) => Ok((name, v)),
                None => Err((name, Some(val))),
            }
        },
    }
}

/// Parses one `-P NAME=VAL` argument.
pub fn parse_param_override(arg: &str) -> (r: Result<(String, i64), OverrideError>)
    ensures
        match r {
            Ok((name, v)) => override_of(arg@) == Ok::<(Seq<char>, i64), (Seq<char>, Option<Seq<char>>)>(
                (name@, v),
            ),
            Err(OverrideError::MissingEquals(s)) => override_of(arg@) == Err::<
                (Seq<char>, i64),
                (Seq<char>, Option<Seq<char>>),
            >((s@, None)),
            Err(OverrideError::NotInteger(name, val)) => override_of(arg@) == Err::<
                (Seq<char>, i64),
                (Seq<char>, Option<Seq<char>>),
            >((name@, Some(val@))),
        },
{
    let s = trim_str(arg);
    let cs = chars_of(s);
    let mut i: usize = 0;
    while i < cs.len() && cs[i] != '='
        invariant
            i <= cs.len(),
            cs@ == trimmed(arg@),
            find_char(cs@, '=', 0) == find_char(cs@, '=', i as int),
        decreases cs.len() - i,
    {
        i += 1;
    }
    if i == cs.len() {
        return Err(OverrideError::MissingEquals(owned(s)));
    }
    let name_raw = string_from_chars(&cs, 0, i);
    let val_raw = string_from_chars(&cs, i + 1, cs.len());
    assert(name_raw@ =~= cs@.take(i as int));
    assert(val_raw@ =~= cs@.skip(i + 1));
    let name = owned(trim_str(name_raw.as_str()));
    let val = trim_str(val_raw.as_str());
    let val_chars = chars_of(val);
    match parse_signed_radix(&val_chars, 10) {
        Some(v) => Ok((name, v)),
        None => Err(OverrideError::NotInteger(name, owned(val))),
    }
}

/// Parse `-P NAME=VAL` strings into `(name, value)` pairs, leaving out
/// those that cannot be read; what each of the others gave is in `errors`,
/// in order.
pub fn parse_param_overrides(args: &[String]) -> (r: (Vec<(String, i64)>, Vec<OverrideError>))
    ensures
        r.0@.map_values(|p: (String, i64)| (p.0@, p.1)) == read_overrides(args@.map_values(|s: String| s@)),
        r.1@.map_values(|e: OverrideError| error_text(e)) == override_errors(args@.map_values(|s: String| s@)),
        r.0.len() + r.1.len() == args.len(),
{
    let mut ok: Vec<(String, i64)> = Vec::new();
    let mut errors: Vec<OverrideError> = Vec::new();
    let mut i: usize = 0;
    while i < args.len()
        invariant
            i <= args.len(),
            ok@.map_values(|p: (String, i64)| (p.0@, p.1)) == read_overrides(
                args@.map_values(|s: String| s@).take(i as int),
            ),
            errors@.map_values(|e: OverrideError| error_text(e)) == override_errors(
                args@.map_values(|s: String| s@).take(i as int),
            ),
            ok.len() + errors.len() == i,
        decreases args.len() - i,
    {
        let ghost texts = args@.map_values(|s: String| s@);
        assert(texts.take(i + 1).drop_last() =~= texts.take(i as int));
        assert(texts.take(i + 1).last() == args@[i as int]@);
        match parse_param_override(args[i].as_str()) {
            Ok(pair) => {
                ok.push(pair);
                assert(ok@.map_values(|p: (String, i64)| (p.0@, p.1)) =~= read_overrides(
                    texts.take(i as int),
                ).push((pair.0@, pair.1)));
            },
            Err(e) => {
                let ghost et = error_text(e);
                errors.push(e);
                assert(errors@.map_values(|e: OverrideError| error_text(e)) =~= override_errors(
                    texts.take(i as int),
                ).push(et));
            },
        }
        i += 1;
    }
    assert(args@.map_values(|s: String| s@).take(args.len() as int) =~= args@.map_values(|s: String| s@));
    (ok, errors)
}

/// The pairs of the `-P` arguments that can be read, in order.
pub open spec fn read_overrides(args: Seq<Seq<char>>) -> Seq<(Seq<char>, i64)>
    decreases args.len(),
{
    if args.len() == 0 {
        Seq::empty()
    } else {
        let prev = read_overrides(args.drop_last());
        match override_of(args.last()) {
            Ok(p) => prev.push(p),
            Err(_) => prev,
        }
    }
}

/// What an error says: the trimmed text without `=` and no value, or the
/// name and the value that is no integer.
pub open spec fn error_text(e: OverrideError) -> (Seq<char>, Option<Seq<char>>) {
    match e {
        OverrideError::MissingEquals(s) => (s@, None),
        OverrideError::NotInteger(n, v) => (n@, Some(v@)),
    }
}

/// What the `-P` arguments that cannot be read give, in order.
pub open spec fn override_errors(args: Seq<Seq<char>>) -> Seq<(Seq<char>, Option<Seq<char>>)>
    decreases args.len(),
{
    if args.len() == 0 {
        Seq::empty()
    } else {
        let prev = override_errors(args.drop_last());
        match override_of(args.last()) {
            Ok(_) => prev,
            Err(e) => prev.push(e),
        }
    }
}

} // verus!
