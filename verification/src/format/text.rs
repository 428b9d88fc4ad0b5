//! What the reports show of ports, signals and the instance hierarchy:
//! their columns, and the lines of the tree and list views.
use vstd::prelude::*;
#[allow(unused_imports)]
use vstd::string::*;
use crate::analyze::hierarchy::{child_prefix, HierVisit, HierVisitView, visits_view};
use crate::design::{Direction, Module, Port, Range, Signal};
use crate::report::{format_range, format_type, range_text, type_text};
use crate::text::owned;

verus! {

pub open spec fn direction_text(d: Direction) -> Seq<char> {
    match d {
        Direction::Input => "input"@,
        Direction::Output => "output"@,
        Direction::Inout => "inout"@,
    }
}

/// The direction's keyword.
pub fn direction_name(d: &Direction) -> (r: String)
    ensures
        r@ == direction_text(*d),
{
    match d {
        Direction::Input => owned("input"),
        Direction::Output => owned("output"),
        Direction::Inout => owned("inout"),
    }
}

/// The columns of a port: direction, type, packed range, name.
pub struct PortRow {
    pub direction: String,
    pub type_text: String,
    pub width: String,
    pub name: String,
}

pub open spec fn port_row_of(r: PortRow, p: Port) -> bool {
    &&& r.direction@ == direction_text(p.direction)
    &&& r.type_text@ == type_text(p.data_type, p.net_kind)
    &&& r.width@ == range_text(p.packed_width)
    &&& r.name@ == p.name@
}

pub fn port_row(p: &Port) -> (r: PortRow)
    ensures
        port_row_of(r, *p),
{
    PortRow {
        direction: direction_name(&p.direction),
        type_text: format_type(&p.data_type, &p.net_kind),
        width: format_range(&p.packed_width),
        name: p.name.clone(),
    }
}

/// The rows of a module's ports, in declaration order.
pub fn port_rows(module: &Module) -> (r: Vec<PortRow>)
    ensures
        r.len() == module.ports.len(),
        forall|i: int| 0 <= i < r.len() ==> port_row_of(#[trigger] r@[i], module.ports@[i]),
{
    let mut out: Vec<PortRow> = Vec::new();
    let mut i: usize = 0;
    while i < module.ports.len()
        invariant
            i <= module.ports.len(),
            out.len() == i,
            forall|j: int| 0 <= j < i ==> port_row_of(#[trigger] out@[j], module.ports@[j]),
        decreases module.ports.len() - i,
    {
        out.push(port_row(&module.ports[i]));
        i += 1;
    }
    out
}

/// The unpacked dimensions one after the other, each as `[msb:lsb]`.
pub open spec fn unpacked_text(dims: Seq<Range>) -> Seq<char>
    decreases dims.len(),
{
    if dims.len() == 0 {
        Seq::empty()
    } else {
        unpacked_text(dims.drop_last()) + range_text(Some(dims.last()))
    }
}

/// The columns of a signal: type, packed range, unpacked ranges, name.
pub struct SignalRow {
    pub type_text: String,
    pub packed: String,
    pub unpacked: String,
    pub name: String,
}

pub open spec fn signal_row_of(r: SignalRow, s: Signal) -> bool {
    &&& r.type_text@ == type_text(s.data_type, s.net_kind)
    &&& r.packed@ == range_text(s.packed_width)
    &&& r.unpacked@ == unpacked_text(s.unpacked_dims@)
    &&& r.name@ == s.name@
}

pub fn signal_row(s: &Signal) -> (r: SignalRow)
    ensures
        signal_row_of(r, *s),
{
    let mut unpacked = String::new();
    let mut i: usize = 0;
    while i < s.unpacked_dims.len()
        invariant
            i <= s.unpacked_dims.len(),
            unpacked@ == unpacked_text(s.unpacked_dims@.take(i as int)),
        decreases s.unpacked_dims.len() - i,
    {
        let one = format_range(&Some(s.unpacked_dims[i].clone()));
        proof {
            assert(s.unpacked_dims@.take(i + 1).drop_last() =~= s.unpacked_dims@.take(i as int));
        }
        unpacked.append(one.as_str());
        i += 1;
    }
    assert(s.unpacked_dims@.take(s.unpacked_dims.len() as int) =~= s.unpacked_dims@);
    SignalRow {
        type_text: format_type(&s.data_type, &s.net_kind),
        packed: format_range(&s.packed_width),
        unpacked,
        name: s.name.clone(),
    }
}

/// The rows of a module's signals, in declaration order.
pub fn signal_rows(module: &Module) -> (r: Vec<SignalRow>)
    ensures
        r.len() == module.signals.len(),
        forall|i: int| 0 <= i < r.len() ==> signal_row_of(#[trigger] r@[i], module.signals@[i]),
{
    let mut out: Vec<SignalRow> = Vec::new();
    let mut i: usize = 0;
    while i < module.signals.len()
        invariant
            i <= module.signals.len(),
            out.len() == i,
            forall|j: int| 0 <= j < i ==> signal_row_of(#[trigger] out@[j], module.signals@[j]),
        decreases module.signals.len() - i,
    {
        out.push(signal_row(&module.signals[i]));
        i += 1;
    }
    out
}

/// The tree line of a hierarchy line: its prefix, a corner for a last
/// instance and a tee otherwise, then the top module's name, or the
/// instance name and the module in brackets.
pub open spec fn tree_line(v: HierVisitView) -> Seq<char> {
    v.prefix + (if v.last {
        "└─ "@
    } else {
        "├─ "@
    }) + (if v.depth == 0 {
        v.module
    } else {
        v.instance + " ("@ + v.module + ")"@
    })
}

/// The note under an instance whose module is already on the path.
pub open spec fn tree_circular_line(v: HierVisitView) -> Seq<char> {
    child_prefix(v.prefix, v.last) + "(circular reference)"@
}

/// The tree view: a line for each hierarchy line, and a note under each
/// circular one.
pub open spec fn tree_lines(vs: Seq<HierVisitView>) -> Seq<Seq<char>>
    decreases vs.len(),
{
    if vs.len() == 0 {
        Seq::empty()
    } else {
        let prev = tree_lines(vs.drop_last());
        let v = vs.last();
        if v.circular {
            prev.push(tree_line(v)).push(tree_circular_line(v))
        } else {
            prev.push(tree_line(v))
        }
    }
}

/// Two blanks for each level.
pub open spec fn indent(n: nat) -> Seq<char>
    decreases n,
{
    if n == 0 {
        Seq::empty()
    } else {
        indent((n - 1) as nat) + "  "@
    }
}

/// The list line of a hierarchy line: the top module in bold, an instance
/// as code with its module in brackets, indented by its depth.
pub open spec fn list_line(v: HierVisitView) -> Seq<char> {
    if v.depth == 0 {
        "- **"@ + v.module + "**"@
    } else {
        indent(v.depth) + "- `"@ + v.instance + "` ("@ + v.module + ")"@
    }
}

pub open spec fn list_circular_line(v: HierVisitView) -> Seq<char> {
    indent(v.depth + 1) + "_(circular)_"@
}

/// The list view: a line for each hierarchy line, and a note under each
/// circular one.
pub open spec fn list_lines(vs: Seq<HierVisitView>) -> Seq<Seq<char>>
    decreases vs.len(),
{
    if vs.len() == 0 {
        Seq::empty()
    } else {
        let prev = list_lines(vs.drop_last());
        let v = vs.last();
        if v.circular {
            prev.push(list_line(v)).push(list_circular_line(v))
        } else {
            prev.push(list_line(v))
        }
    }
}

pub open spec fn texts(v: Seq<String>) -> Seq<Seq<char>> {
    v.map_values(|s: String| s@)
}

fn indent_text(n: usize) -> (r: String)
    ensures
        r@ == indent(n as nat),
{
    let mut out = String::new();
    let mut i: usize = 0;
    while i < n
        invariant
            i <= n,
            out@ == indent(i as nat),
        decreases n - i,
    {
        out.append("  ");
        i += 1;
    }
    out
}

/// The lines of the tree view of the hierarchy lines.
pub fn hier_tree_lines(visits: &Vec<HierVisit>) -> (r: Vec<String>)
    ensures
        texts(r@) == tree_lines(visits_view(visits@)),
{
    let ghost vs = visits_view(visits@);
    let mut out: Vec<String> = Vec::new();
    let mut i: usize = 0;
    while i < visits.len()
        invariant
            i <= visits.len(),
            vs == visits_view(visits@),
            texts(out@) == tree_lines(vs.take(i as int)),
        decreases visits.len() - i,
    {
        let v = &visits[i];
        let mut line = v.prefix.clone();
        if v.last {
            line.append("└─ ");
        } else {
            line.append("├─ ");
        }
        if v.depth == 0 {
            line.append(v.module.as_str());
        } else {
            line.append(v.instance.as_str());
            line.append(" (");
            line.append(v.module.as_str());
            line.append(")");
        }
        proof {
            assert(vs.take(i + 1).drop_last() =~= vs.take(i as int));
            assert(vs.take(i + 1).last() == v@);
            assert(line@ =~= tree_line(v@));
        }
        let ghost before = out@;
        out.push(line);
        if v.circular {
            let mut note = v.prefix.clone();
            if v.last {
                note.append("   ");
            } else {
                note.append("│  ");
            }
            note.append("(circular reference)");
            assert(note@ =~= tree_circular_line(v@));
            out.push(note);
            assert(texts(out@) =~= tree_lines(vs.take(i as int)).push(tree_line(v@)).push(tree_circular_line(v@)));
        } else {
            assert(texts(out@) =~= tree_lines(vs.take(i as int)).push(tree_line(v@)));
        }
        i += 1;
    }
    assert(vs.take(visits.len() as int) =~= vs);
    out
}

/// The lines of the list view of the hierarchy lines.
pub fn hier_list_lines(visits: &Vec<HierVisit>) -> (r: Vec<String>)
    ensures
        texts(r@) == list_lines(visits_view(visits@)),
{
    let ghost vs = visits_view(visits@);
    let mut out: Vec<String> = Vec::new();
    let mut i: usize = 0;
    while i < visits.len()
        invariant
            i <= visits.len(),
            vs == visits_view(visits@),
            texts(out@) == list_lines(vs.take(i as int)),
        decreases visits.len() - i,
    {
        let v = &visits[i];
        let line = if v.depth == 0 {
            let mut l = owned("- **");
            l.append(v.module.as_str());
            l.append("**");
            l
        } else {
            let mut l = indent_text(v.depth);
            l.append("- `");
            l.append(v.instance.as_str());
            l.append("` (");
            l.append(v.module.as_str());
            l.append(")");
            l
        };
        proof {
            assert(vs.take(i + 1).drop_last() =~= vs.take(i as int));
            assert(vs.take(i + 1).last() == v@);
            assert(line@ =~= list_line(v@));
        }
        out.push(line);
        if v.circular {
            if v.depth < usize::MAX {
                let mut note = indent_text(v.depth + 1);
                note.append("_(circular)_");
                assert(note@ =~= list_circular_line(v@));
                out.push(note);
            } else {
                let mut note = indent_text(v.depth);
                note.append("  ");
                note.append("_(circular)_");
                assert(note@ =~= list_circular_line(v@));
                out.push(note);
            }
            assert(texts(out@) =~= list_lines(vs.take(i as int)).push(list_line(v@)).push(list_circular_line(v@)));
        } else {
            assert(texts(out@) =~= list_lines(vs.take(i as int)).push(list_line(v@)));
        }
        i += 1;
    }
    assert(vs.take(visits.len() as int) =~= vs);
    out
}

/// The plain view of the top modules: a heading, then each name indented.
pub open spec fn top_text(tops: Seq<Seq<char>>) -> Seq<Seq<char>> {
    seq!["Top modules:"@] + tops.map_values(|t: Seq<char>| "  "@ + t)
}

/// The Markdown view of the top modules: a heading and a blank line, then
/// each name as a code item.
pub open spec fn top_list(tops: Seq<Seq<char>>) -> Seq<Seq<char>> {
    seq!["## Top Modules"@, Seq::empty()] + tops.map_values(|t: Seq<char>| "- `"@ + t + "`"@)
}

/// The lines of the plain view of the top modules.
pub fn top_text_lines(tops: &[String]) -> (r: Vec<String>)
    ensures
        texts(r@) == top_text(texts(tops@)),
{
    let mut out: Vec<String> = Vec::new();
    out.push(owned("Top modules:"));
    let mut i: usize = 0;
    while i < tops.len()
        invariant
            i <= tops.len(),
            texts(out@) == top_text(texts(tops@).take(i as int)),
        decreases tops.len() - i,
    {
        let mut line = owned("  ");
        line.append(tops[i].as_str());
        let ghost before = out@;
        out.push(line);
        assert(texts(out@) =~= texts(before).push(line@));
        assert(texts(tops@).take(i + 1) =~= texts(tops@).take(i as int).push(tops@[i as int]@));
        assert(texts(out@) =~= top_text(texts(tops@).take(i + 1)));
        i += 1;
    }
    assert(texts(tops@).take(tops.len() as int) =~= texts(tops@));
    out
}

/// The lines of the Markdown view of the top modules.
pub fn top_list_lines(tops: &[String]) -> (r: Vec<String>)
    ensures
        texts(r@) == top_list(texts(tops@)),
{
    let mut out: Vec<String> = Vec::new();
    out.push(owned("## Top Modules"));
    out.push(String::new());
    let mut i: usize = 0;
    while i < tops.len()
        invariant
            i <= tops.len(),
            texts(out@) == top_list(texts(tops@).take(i as int)),
        decreases tops.len() - i,
    {
        let mut line = owned("- `");
        line.append(tops[i].as_str());
        line.append("`");
        let ghost before = out@;
        out.push(line);
        assert(texts(out@) =~= texts(before).push(line@));
        assert(texts(tops@).take(i + 1) =~= texts(tops@).take(i as int).push(tops@[i as int]@));
        assert(texts(out@) =~= top_list(texts(tops@).take(i + 1)));
        i += 1;
    }
    assert(texts(tops@).take(tops.len() as int) =~= texts(tops@));
    out
}

} // verus!
