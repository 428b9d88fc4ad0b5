//! Building the design from a walk over a parsed source file.
//!
//! The walk itself (over the parser's syntax tree) reports what it meets as
//! `VisitEvent`s; this module decides what each event does to the design.
use vstd::prelude::*;
#[allow(unused_imports)]
use vstd::string::*;
use crate::design::{
    ClockEdge, DataType, Design, Direction, FfDecl, Instance, Module, ModuleView, NetKind, ParamDecl,
    Port, Range, ResetKind, Signal, clone_path, entries_insert, entries_view, insert_module,
    lemma_entries_view_insert, module_entries,
};
use crate::literal::find_char;
use std::path::PathBuf;
use crate::text::{chars_of, owned, string_from_chars, trim_str, trimmed};

verus! {

/// Direction named by a port-direction keyword (`input` for anything but
/// `output` and `inout`).
pub open spec fn direction_of(text: Seq<char>) -> Direction {
    let t = trimmed(text);
    if t == "output"@ {
        Direction::Output
    } else if t == "inout"@ {
        Direction::Inout
    } else {
        Direction::Input
    }
}

pub fn direction_from_keyword(text: &str) -> (r: Direction)
    ensures
        r == direction_of(text@),
{
    let t = owned(trim_str(text));
    if t == owned("output") {
        Direction::Output
    } else if t == owned("inout") {
        Direction::Inout
    } else {
        Direction::Input
    }
}

/// Net kind of a port's net-type keyword: the wire-like net types give
/// `Wire`, anything else (or no net type) `Logic`.
pub open spec fn net_kind_of(text: Option<Seq<char>>) -> NetKind {
    match text {
        Some(s) => {
            let t = trimmed(s);
            if t == "wire"@ || t == "tri"@ || t == "wand"@ || t == "wor"@ || t == "triand"@
                || t == "trior"@ || t == "trireg"@ || t == "tri0"@ || t == "tri1"@ || t == "uwire"@
                || t == "supply0"@ || t == "supply1"@ {
                NetKind::Wire
            } else {
                NetKind::Logic
            }
        },
        None => NetKind::Logic,
    }
}

pub open spec fn opt_view(o: Option<&str>) -> Option<Seq<char>> {
    match o {
        Some(s) => Some(s@),
        None => None,
    }
}

pub fn net_kind_from_keyword(text: Option<&str>) -> (r: NetKind)
    ensures
        r == net_kind_of(opt_view(text)),
{
    match text {
        Some(s) => {
            let t = owned(trim_str(s));
            if t == owned("wire") || t == owned("tri") || t == owned("wand") || t == owned("wor")
                || t == owned("triand") || t == owned("trior") || t == owned("trireg") || t == owned(
                "tri0",
            ) || t == owned("tri1") || t == owned("uwire") || t == owned("supply0") || t == owned(
                "supply1",
            ) {
                NetKind::Wire
            } else {
                NetKind::Logic
            }
        },
        None => NetKind::Logic,
    }
}

/// Data type of a declaration from its integer-vector keyword (`logic`,
/// `reg`, `bit`; another keyword is kept by name) or, failing that, its
/// integer-atom keyword (`byte` .. `time`); `Logic` otherwise.
pub open spec fn is_data_type_of(r: DataType, vector: Option<Seq<char>>, atom: Option<Seq<char>>) -> bool {
    match vector {
        Some(v) => {
            let t = trimmed(v);
            if t == "logic"@ {
                r is Logic
            } else if t == "reg"@ {
                r is Reg
            } else if t == "bit"@ {
                r is Bit
            } else {
                r matches DataType::Custom(name) && name@ == t
            }
        },
        None => match atom {
            Some(a) => {
                let t = trimmed(a);
                if t == "byte"@ {
                    r is Byte
                } else if t == "shortint"@ {
                    r is ShortInt
                } else if t == "int"@ {
                    r is Int
                } else if t == "longint"@ {
                    r is LongInt
                } else if t == "integer"@ {
                    r is Integer
                } else if t == "time"@ {
                    r is Time
                } else {
                    r is Logic
                }
            },
            None => r is Logic,
        },
    }
}

pub fn data_type_from_keywords(vector: Option<&str>, atom: Option<&str>) -> (r: DataType)
    ensures
        is_data_type_of(r, opt_view(vector), opt_view(atom)),
{
    match vector {
        Some(v) => {
            let t = owned(trim_str(v));
            if t == owned("logic") {
                DataType::Logic
            } else if t == owned("reg") {
                DataType::Reg
            } else if t == owned("bit") {
                DataType::Bit
            } else {
                DataType::Custom(t)
            }
        },
        None => match atom {
            Some(a) => {
                let t = owned(trim_str(a));
                if t == owned("byte") {
                    DataType::Byte
                } else if t == owned("shortint") {
                    DataType::ShortInt
                } else if t == owned("int") {
                    DataType::Int
                } else if t == owned("longint") {
                    DataType::LongInt
                } else if t == owned("integer") {
                    DataType::Integer
                } else if t == owned("time") {
                    DataType::Time
                } else {
                    DataType::Logic
                }
            },
            None => DataType::Logic,
        },
    }
}

/// The first packed dimension from its bound texts: both trimmed, and no
/// dimension when both are empty.
pub fn packed_range(msb: &str, lsb: &str) -> (r: Option<Range>)
    ensures
        match r {
            Some(rg) => rg.msb@ == trimmed(msb@) && rg.lsb@ == trimmed(lsb@) && !(trimmed(msb@).len() == 0
                && trimmed(lsb@).len() == 0),
            None => trimmed(msb@).len() == 0 && trimmed(lsb@).len() == 0,
        },
{
    let m = owned(trim_str(msb));
    let l = owned(trim_str(lsb));
    if m.as_str().unicode_len() == 0 && l.as_str().unicode_len() == 0 {
        None
    } else {
        Some(Range { msb: m, lsb: l })
    }
}

/// An unpacked dimension from its bound texts, both trimmed.
pub fn unpacked_range(msb: &str, lsb: &str) -> (r: Range)
    ensures
        r.msb@ == trimmed(msb@),
        r.lsb@ == trimmed(lsb@),
{
    Range { msb: owned(trim_str(msb)), lsb: owned(trim_str(lsb)) }
}

/// `s` without its leading backslashes.
pub open spec fn strip_backslashes(s: Seq<char>) -> Seq<char>
    decreases s.len(),
{
    if s.len() > 0 && s[0] == '\\' {
        strip_backslashes(s.drop_first())
    } else {
        s
    }
}

/// Text of an identifier: trimmed, and for an escaped identifier without
/// its leading backslashes first.
pub open spec fn identifier_of(raw: Seq<char>, escaped: bool) -> Seq<char> {
    if escaped {
        trimmed(strip_backslashes(raw))
    } else {
        trimmed(raw)
    }
}

pub fn identifier_text(raw: &str, escaped: bool) -> (r: String)
    ensures
        r@ == identifier_of(raw@, escaped),
{
    if escaped {
        let cs = chars_of(raw);
        let mut i: usize = 0;
        assert(cs@.subrange(0, cs.len() as int) =~= cs@);
        while i < cs.len() && cs[i] == '\\'
            invariant
                i <= cs.len(),
                cs@ == raw@,
                strip_backslashes(raw@) == strip_backslashes(cs@.subrange(i as int, cs.len() as int)),
            decreases cs.len() - i,
        {
            proof {
                assert(cs@.subrange(i as int, cs.len() as int).drop_first() =~= cs@.subrange(i + 1, cs.len() as int));
            }
            i += 1;
        }
        let rest = string_from_chars(&cs, i, cs.len());
        owned(trim_str(rest.as_str()))
    } else {
        owned(trim_str(raw))
    }
}

/// The `always` keyword of a procedural block.
#[derive(Debug, Clone, Copy, PartialEq, Eq, Structural)]
pub enum AlwaysKind {
    Always,
    AlwaysComb,
    AlwaysFf,
    AlwaysLatch,
}

/// An `always_ff` block, or a plain `always` block with an edge in its
/// sensitivity list.
pub open spec fn is_clocked(keyword: Option<AlwaysKind>, has_edge: bool) -> bool {
    match keyword {
        Some(AlwaysKind::AlwaysFf) => true,
        Some(AlwaysKind::Always) => has_edge,
        _ => false,
    }
}

pub fn always_is_clocked(keyword: Option<AlwaysKind>, has_edge: bool) -> (r: bool)
    ensures
        r == is_clocked(keyword, has_edge),
{
    match keyword {
        Some(AlwaysKind::AlwaysFf) => true,
        Some(AlwaysKind::Always) => has_edge,
        _ => false,
    }
}

/// The register that a non-blocking assignment target names: the text
/// before its first `[`, trimmed.
pub open spec fn base_name_of(target: Seq<char>) -> Seq<char> {
    trimmed(
        match find_char(target, '[', 0) {
            Some(i) => target.take(i),
            None => target,
        },
    )
}

/// The FF declaration for the target of a non-blocking assignment in a
/// clocked block: positive edge, no reset, no dimensions of its own.
pub fn ff_decl_for_target(target: &str) -> (r: FfDecl)
    ensures
        r.signal_name@ == base_name_of(target@),
        r.packed_width is None,
        r.unpacked_dims@.len() == 0,
        r.clock_edge == ClockEdge::Posedge,
        r.reset_kind == ResetKind::NoReset,
{
    let cs = chars_of(target);
    let mut i: usize = 0;
    while i < cs.len() && cs[i] != '['
        invariant
            i <= cs.len(),
            cs@ == target@,
            find_char(cs@, '[', 0) == find_char(cs@, '[', i as int),
        decreases cs.len() - i,
    {
        i += 1;
    }
    proof {
        if i == cs.len() {
            assert(cs@.take(i as int) =~= cs@);
        }
    }
    let head = string_from_chars(&cs, 0, i);
    assert(head@ =~= cs@.take(i as int));
    FfDecl {
        signal_name: owned(trim_str(head.as_str())),
        packed_width: None,
        unpacked_dims: Vec::new(),
        clock_edge: ClockEdge::Posedge,
        reset_kind: ResetKind::NoReset,
    }
}

/// A port of a non-ANSI declaration (`input`/`output`/`inout` list).
pub fn declared_port(name: String, direction: Direction, data_type: &DataType, packed_width: &Option<Range>) -> (r: Port)
    ensures
        r.name == name,
        r.direction == direction,
        r.net_kind == NetKind::Logic,
        r.data_type == *data_type,
        r.packed_width == *packed_width,
        r.unpacked_dims@.len() == 0,
{
    Port {
        name,
        direction,
        net_kind: NetKind::Logic,
        data_type: data_type.clone(),
        packed_width: packed_width.clone(),
        unpacked_dims: Vec::new(),
    }
}

/// A variable of a data declaration: `Var` with the `var` keyword, else `Logic`.
pub fn variable_signal(
    name: String,
    unpacked_dims: Vec<Range>,
    var_keyword: bool,
    data_type: &DataType,
    packed_width: &Option<Range>,
) -> (r: Signal)
    ensures
        r.name == name,
        r.net_kind == (if var_keyword { NetKind::Var } else { NetKind::Logic }),
        r.data_type == *data_type,
        r.packed_width == *packed_width,
        r.unpacked_dims == unpacked_dims,
{
    Signal {
        name,
        net_kind: if var_keyword {
            NetKind::Var
        } else {
            NetKind::Logic
        },
        data_type: data_type.clone(),
        packed_width: packed_width.clone(),
        unpacked_dims,
    }
}

/// A net of a net declaration: `Wire`, without unpacked dimensions.
pub fn net_signal(name: String, data_type: &DataType, packed_width: &Option<Range>) -> (r: Signal)
    ensures
        r.name == name,
        r.net_kind == NetKind::Wire,
        r.data_type == *data_type,
        r.packed_width == *packed_width,
        r.unpacked_dims@.len() == 0,
{
    Signal {
        name,
        net_kind: NetKind::Wire,
        data_type: data_type.clone(),
        packed_width: packed_width.clone(),
        unpacked_dims: Vec::new(),
    }
}

/// A parameter declaration, kept when both its name and a non-empty
/// (trimmed) value expression are there.
pub fn param_decl(name: Option<String>, value: Option<&str>) -> (r: Option<ParamDecl>)
    ensures
        match r {
            Some(p) => name == Some(p.name) && value is Some && p.value@ == trimmed(value->0@)
                && trimmed(value->0@).len() > 0,
            None => name is None || value is None || trimmed(value->0@).len() == 0,
        },
{
    match (name, value) {
        (Some(n), Some(v)) => {
            let t = owned(trim_str(v));
            if t.as_str().unicode_len() == 0 {
                None
            } else {
                Some(ParamDecl { name: n, value: t })
            }
        },
        _ => None,
    }
}

/// The instances of one module instantiation: none when the instantiation
/// names no module; otherwise one per named instance, each with its
/// bindings' expression texts trimmed.
pub fn instantiation(module_ref: Option<String>, named: Vec<(String, Vec<(String, String)>)>) -> (r: Vec<Instance>)
    ensures
        module_ref is None ==> r@.len() == 0,
        module_ref matches Some(m) ==> r@.len() == named@.len() && forall|i: int|
            0 <= i < named@.len() ==> {
                &&& (#[trigger] r@[i]).inst_name == named@[i].0
                &&& r@[i].module_ref@ == m@
                &&& r@[i].param_overrides@.len() == named@[i].1@.len()
                &&& forall|j: int|
                    0 <= j < named@[i].1@.len() ==> (#[trigger] r@[i].param_overrides@[j]).0
                        == named@[i].1@[j].0 && r@[i].param_overrides@[j].1@ == trimmed(
                        named@[i].1@[j].1@,
                    )
            },
{
    let mut out: Vec<Instance> = Vec::new();
    let m = match module_ref {
        Some(m) => m,
        None => {
            return out;
        },
    };
    let ghost named0 = named@;
    let mut named = named;
    let mut i: usize = 0;
    let n = named.len();
    while i < n
        invariant
            n == named0.len(),
            i <= n,
            named@ == named0,
            out@.len() == i,
            forall|k: int|
                0 <= k < i ==> {
                    &&& (#[trigger] out@[k]).inst_name == named0[k].0
                    &&& out@[k].module_ref@ == m@
                    &&& out@[k].param_overrides@.len() == named0[k].1@.len()
                    &&& forall|j: int|
                        0 <= j < named0[k].1@.len() ==> (#[trigger] out@[k].param_overrides@[j]).0
                            == named0[k].1@[j].0 && out@[k].param_overrides@[j].1@ == trimmed(
                            named0[k].1@[j].1@,
                        )
                },
        decreases n - i,
    {
        let (inst_name, overrides) = (named[i].0.clone(), &named[i].1);
        let mut bound: Vec<(String, String)> = Vec::new();
        let mut j: usize = 0;
        while j < overrides.len()
            invariant
                j <= overrides.len(),
                overrides@ == named0[i as int].1@,
                bound@.len() == j,
                forall|l: int|
                    0 <= l < j ==> (#[trigger] bound@[l]).0 == overrides@[l].0 && bound@[l].1@ == trimmed(
                        overrides@[l].1@,
                    ),
            decreases overrides.len() - j,
        {
            let pname = overrides[j].0.clone();
            let text = owned(trim_str(overrides[j].1.as_str()));
            bound.push((pname, text));
            j += 1;
        }
        out.push(Instance { inst_name, module_ref: m.clone(), param_overrides: bound });
        i += 1;
    }
    out
}

/// Header of an ANSI net port (`input wire [7:0] a`).
pub struct NetPortHeader {
    pub direction: Option<Direction>,
    pub data_type: DataType,
    pub packed_width: Option<Range>,
    pub net_kind: NetKind,
}

/// Header of an ANSI variable port (`output logic [7:0] q`).
pub struct VariablePortHeader {
    pub direction: Option<Direction>,
    pub data_type: DataType,
    pub packed_width: Option<Range>,
}

/// What the walk over a source file meets, in order.
pub enum VisitEvent {
    /// Start of a module declaration, ANSI-style or not; `None` when its
    /// name could not be read.
    EnterModule { ansi: bool, name: Option<String> },
    /// End of a module declaration.
    LeaveModule,
    /// An ANSI net port; without a header it repeats the previous port's.
    AnsiNetPort { name: Option<String>, header: Option<NetPortHeader>, unpacked_dims: Vec<Range> },
    /// An ANSI variable port; without a header it repeats the previous port's.
    AnsiVariablePort { name: Option<String>, header: Option<VariablePortHeader>, unpacked_dims: Vec<Range> },
    /// Ports of a non-ANSI port declaration.
    Ports(Vec<Port>),
    /// Signals of a data or net declaration.
    Signals(Vec<Signal>),
    /// Instances of a module instantiation.
    Instances(Vec<Instance>),
    /// Declarations of a `parameter` or `localparam` statement.
    Params(Vec<ParamDecl>),
    /// Start of a procedural block; whether it is clocked.
    EnterAlways(bool),
    /// End of a procedural block.
    LeaveAlways,
    /// A non-blocking assignment, with the FF that its target names.
    NonblockingAssignment(Option<FfDecl>),
}

/// The walk's state: the module declarations open around the current
/// point, the procedural blocks open in the current module, the header of
/// the last ANSI port, and the module being built.
pub struct Visitor {
    module_stack: Vec<String>,
    always_stack: Vec<bool>,
    last_port_dir: Direction,
    last_port_dtype: DataType,
    last_port_packed: Option<Range>,
    last_port_net_kind: NetKind,
    current: Option<Module>,
}

pub struct VisitorView {
    pub stack: Seq<Seq<char>>,
    pub always: Seq<bool>,
    pub last_dir: Direction,
    pub last_dtype: DataType,
    pub last_packed: Option<Range>,
    pub last_nk: NetKind,
    pub current: Option<ModuleView>,
}

pub open spec fn module_opt_view(m: Option<Module>) -> Option<ModuleView> {
    match m {
        Some(m) => Some(m@),
        None => None,
    }
}

impl View for Visitor {
    type V = VisitorView;

    closed spec fn view(&self) -> VisitorView {
        VisitorView {
            stack: self.module_stack@.map_values(|s: String| s@),
            always: self.always_stack@,
            last_dir: self.last_port_dir,
            last_dtype: self.last_port_dtype,
            last_packed: self.last_port_packed,
            last_nk: self.last_port_net_kind,
            current: module_opt_view(self.current),
        }
    }
}

pub open spec fn initial_visitor() -> VisitorView {
    VisitorView {
        stack: Seq::empty(),
        always: Seq::empty(),
        last_dir: Direction::Input,
        last_dtype: DataType::Logic,
        last_packed: None,
        last_nk: NetKind::Logic,
        current: None,
    }
}

pub open spec fn empty_module(name: Seq<char>, file: PathBuf) -> ModuleView {
    ModuleView {
        name,
        file,
        span: (0, 0),
        params: Seq::empty(),
        ports: Seq::empty(),
        signals: Seq::empty(),
        instances: Seq::empty(),
        ff_decls: Seq::empty(),
    }
}

pub open spec fn has_ff_named(ffs: Seq<FfDecl>, name: Seq<char>) -> bool {
    exists|i: int| 0 <= i < ffs.len() && (#[trigger] ffs[i]).signal_name@ == name
}

/// What an item event does to the module being built and the walk state.
pub open spec fn item_step(v: VisitorView, m: ModuleView, ev: VisitEvent) -> VisitorView {
    match ev {
        VisitEvent::AnsiNetPort { name, header, unpacked_dims } => match name {
            Some(n) => match header {
                Some(h) => {
                    let d = match h.direction {
                        Some(d) => d,
                        None => Direction::Input,
                    };
                    let p = Port {
                        name: n,
                        direction: d,
                        net_kind: h.net_kind,
                        data_type: h.data_type,
                        packed_width: h.packed_width,
                        unpacked_dims,
                    };
                    VisitorView {
                        last_dir: d,
                        last_dtype: h.data_type,
                        last_packed: h.packed_width,
                        last_nk: h.net_kind,
                        current: Some(ModuleView { ports: m.ports.push(p), ..m }),
                        ..v
                    }
                },
                None => {
                    let p = Port {
                        name: n,
                        direction: v.last_dir,
                        net_kind: v.last_nk,
                        data_type: v.last_dtype,
                        packed_width: v.last_packed,
                        unpacked_dims,
                    };
                    VisitorView { current: Some(ModuleView { ports: m.ports.push(p), ..m }), ..v }
                },
            },
            None => v,
        },
        VisitEvent::AnsiVariablePort { name, header, unpacked_dims } => match name {
            Some(n) => match header {
                Some(h) => {
                    let d = match h.direction {
                        Some(d) => d,
                        None => Direction::Output,
                    };
                    let p = Port {
                        name: n,
                        direction: d,
                        net_kind: NetKind::Logic,
                        data_type: h.data_type,
                        packed_width: h.packed_width,
                        unpacked_dims,
                    };
                    VisitorView {
                        last_dir: d,
                        last_dtype: h.data_type,
                        last_packed: h.packed_width,
                        current: Some(ModuleView { ports: m.ports.push(p), ..m }),
                        ..v
                    }
                },
                None => {
                    let p = Port {
                        name: n,
                        direction: v.last_dir,
                        net_kind: NetKind::Logic,
                        data_type: v.last_dtype,
                        packed_width: v.last_packed,
                        unpacked_dims,
                    };
                    VisitorView { current: Some(ModuleView { ports: m.ports.push(p), ..m }), ..v }
                },
            },
            None => v,
        },
        VisitEvent::Ports(ps) => VisitorView { current: Some(ModuleView { ports: m.ports + ps@, ..m }), ..v },
        VisitEvent::Signals(ss) => VisitorView {
            current: Some(ModuleView { signals: m.signals + ss@, ..m }),
            ..v
        },
        VisitEvent::Instances(is) => VisitorView {
            current: Some(ModuleView { instances: m.instances + is@, ..m }),
            ..v
        },
        VisitEvent::Params(ps) => VisitorView { current: Some(ModuleView { params: m.params + ps@, ..m }), ..v },
        VisitEvent::EnterAlways(c) => VisitorView { always: v.always.push(c), ..v },
        VisitEvent::LeaveAlways => if v.always.len() > 0 {
            VisitorView { always: v.always.drop_last(), ..v }
        } else {
            v
        },
        VisitEvent::NonblockingAssignment(ff) => match ff {
            Some(f) => if v.always.len() > 0 && v.always.last() && !has_ff_named(m.ff_decls, f.signal_name@) {
                VisitorView { current: Some(ModuleView { ff_decls: m.ff_decls.push(f), ..m }), ..v }
            } else {
                v
            },
            None => v,
        },
        _ => v,
    }
}

/// What one event does to the walk state and to the design's modules
/// (as views). Only events directly inside one module declaration touch
/// that module; a module is stored in the design when its declaration ends.
pub open spec fn step_spec(
    v: VisitorView,
    es: Seq<(Seq<char>, ModuleView)>,
    ev: VisitEvent,
    file: PathBuf,
) -> (VisitorView, Seq<(Seq<char>, ModuleView)>) {
    match ev {
        VisitEvent::EnterModule { ansi, name } => {
            let n = match name {
                Some(s) => s@,
                None => "<unknown>"@,
            };
            let v1 = if v.stack.len() == 0 {
                if ansi {
                    VisitorView {
                        current: Some(empty_module(n, file)),
                        last_dir: Direction::Input,
                        last_dtype: DataType::Logic,
                        last_packed: None,
                        last_nk: NetKind::Logic,
                        ..v
                    }
                } else {
                    VisitorView { current: Some(empty_module(n, file)), ..v }
                }
            } else {
                v
            };
            (VisitorView { stack: v1.stack.push(n), ..v1 }, es)
        },
        VisitEvent::LeaveModule => if v.stack.len() == 0 {
            (v, es)
        } else if v.stack.len() == 1 && v.current is Some {
            (
                VisitorView { stack: v.stack.drop_last(), current: None, ..v },
                entries_insert(es, v.current->0.name, v.current->0),
            )
        } else {
            (VisitorView { stack: v.stack.drop_last(), ..v }, es)
        },
        _ => if v.stack.len() == 1 && v.current is Some {
            (item_step(v, v.current->0, ev), es)
        } else {
            (v, es)
        },
    }
}

/// The design's modules after the walk has met `evs` from state `v`.
pub open spec fn run_spec(
    v: VisitorView,
    es: Seq<(Seq<char>, ModuleView)>,
    evs: Seq<VisitEvent>,
    file: PathBuf,
) -> (VisitorView, Seq<(Seq<char>, ModuleView)>)
    decreases evs.len(),
{
    if evs.len() == 0 {
        (v, es)
    } else {
        let (v1, es1) = run_spec(v, es, evs.drop_last(), file);
        step_spec(v1, es1, evs.last(), file)
    }
}

/// A module still open when the walk ends is stored as it stands.
pub open spec fn finish_spec(v: VisitorView, es: Seq<(Seq<char>, ModuleView)>) -> Seq<(Seq<char>, ModuleView)> {
    match v.current {
        Some(m) => entries_insert(es, m.name, m),
        None => es,
    }
}

/// The design's modules after a whole walk over one file.
pub open spec fn visit_spec(
    es: Seq<(Seq<char>, ModuleView)>,
    evs: Seq<VisitEvent>,
    file: PathBuf,
) -> Seq<(Seq<char>, ModuleView)> {
    let (v, es1) = run_spec(initial_visitor(), es, evs, file);
    finish_spec(v, es1)
}

pub open spec fn with_current(v: VisitorView, m: ModuleView) -> VisitorView {
    VisitorView { current: Some(m), ..v }
}

fn has_ff_named_exec(ffs: &Vec<FfDecl>, name: &String) -> (r: bool)
    ensures
        r == has_ff_named(ffs@, name@),
{
    let mut i: usize = 0;
    while i < ffs.len()
        invariant
            i <= ffs.len(),
            forall|j: int| 0 <= j < i ==> (#[trigger] ffs@[j]).signal_name@ != name@,
        decreases ffs.len() - i,
    {
        if ffs[i].signal_name == *name {
            return true;
        }
        i += 1;
    }
    false
}

fn clone_packed(p: &Option<Range>) -> (r: Option<Range>)
    ensures
        r == *p,
{
    match p {
        Some(rg) => Some(rg.clone()),
        None => None,
    }
}

impl Visitor {
    /// The state before the first event of a file.
    pub fn new() -> (r: Visitor)
        ensures
            r@ == initial_visitor(),
    {
        let r = Visitor {
            module_stack: Vec::new(),
            always_stack: Vec::new(),
            last_port_dir: Direction::Input,
            last_port_dtype: DataType::Logic,
            last_port_packed: None,
            last_port_net_kind: NetKind::Logic,
            current: None,
        };
        assert(r@.stack =~= Seq::<Seq<char>>::empty());
        r
    }

    /// Applies an item event to the module being built.
    fn apply_item(&mut self, m: &mut Module, ev: VisitEvent)
        requires
            !(ev is EnterModule),
            !(ev is LeaveModule),
        ensures
            with_current(final(self)@, final(m)@) == item_step(with_current(old(self)@, old(m)@), old(m)@, ev),
    {
        match ev {
            VisitEvent::AnsiNetPort { name, header, unpacked_dims } => {
                if let Some(n) = name {
                    match header {
                        Some(h) => {
                            let d = match h.direction {
                                Some(d) => d,
                                None => Direction::Input,
                            };
                            self.last_port_dir = d;
                            self.last_port_dtype = h.data_type.clone();
                            self.last_port_packed = clone_packed(&h.packed_width);
                            self.last_port_net_kind = h.net_kind.clone();
                            m.ports.push(
                                Port {
                                    name: n,
                                    direction: d,
                                    net_kind: h.net_kind,
                                    data_type: h.data_type,
                                    packed_width: h.packed_width,
                                    unpacked_dims,
                                },
                            );
                        },
                        None => {
                            m.ports.push(
                                Port {
                                    name: n,
                                    direction: self.last_port_dir,
                                    net_kind: self.last_port_net_kind.clone(),
                                    data_type: self.last_port_dtype.clone(),
                                    packed_width: clone_packed(&self.last_port_packed),
                                    unpacked_dims,
                                },
                            );
                        },
                    }
                }
            },
            VisitEvent::AnsiVariablePort { name, header, unpacked_dims } => {
                if let Some(n) = name {
                    match header {
                        Some(h) => {
                            let d = match h.direction {
                                Some(d) => d,
                                None => Direction::Output,
                            };
                            self.last_port_dir = d;
                            self.last_port_dtype = h.data_type.clone();
                            self.last_port_packed = clone_packed(&h.packed_width);
                            m.ports.push(
                                Port {
                                    name: n,
                                    direction: d,
                                    net_kind: NetKind::Logic,
                                    data_type: h.data_type,
                                    packed_width: h.packed_width,
                                    unpacked_dims,
                                },
                            );
                        },
                        None => {
                            m.ports.push(
                                Port {
                                    name: n,
                                    direction: self.last_port_dir,
                                    net_kind: NetKind::Logic,
                                    data_type: self.last_port_dtype.clone(),
                                    packed_width: clone_packed(&self.last_port_packed),
                                    unpacked_dims,
                                },
                            );
                        },
                    }
                }
            },
            VisitEvent::Ports(ps) => {
                let mut ps = ps;
                m.ports.append(&mut ps);
            },
            VisitEvent::Signals(ss) => {
                let mut ss = ss;
                m.signals.append(&mut ss);
            },
            VisitEvent::Instances(is) => {
                let mut is = is;
                m.instances.append(&mut is);
            },
            VisitEvent::Params(ps) => {
                let mut ps = ps;
                m.params.append(&mut ps);
            },
            VisitEvent::EnterAlways(c) => {
                self.always_stack.push(c);
            },
            VisitEvent::LeaveAlways => {
                if self.always_stack.len() > 0 {
                    self.always_stack.pop();
                }
            },
            VisitEvent::NonblockingAssignment(ff) => {
                if let Some(f) = ff {
                    let n = self.always_stack.len();
                    if n > 0 && self.always_stack[n - 1] && !has_ff_named_exec(&m.ff_decls, &f.signal_name) {
                        m.ff_decls.push(f);
                    }
                }
            },
            _ => {},
        }
    }

    /// Applies one event of the walk.
    pub fn step(&mut self, design: &mut Design, file: &PathBuf, ev: VisitEvent)
        ensures
            (final(self)@, entries_view(module_entries(final(design).modules))) == step_spec(
                old(self)@,
                entries_view(module_entries(old(design).modules)),
                ev,
                *file,
            ),
            final(design).files == old(design).files,
    {
        match ev {
            VisitEvent::EnterModule { ansi, name } => {
                let n = match name {
                    Some(s) => s,
                    None => owned("<unknown>"),
                };
                if self.module_stack.len() == 0 {
                    self.current = Some(
                        Module {
                            name: n.clone(),
                            file: clone_path(file),
                            span: (0, 0),
                            params: Vec::new(),
                            ports: Vec::new(),
                            signals: Vec::new(),
                            instances: Vec::new(),
                            ff_decls: Vec::new(),
                        },
                    );
                    if ansi {
                        self.last_port_dir = Direction::Input;
                        self.last_port_dtype = DataType::Logic;
                        self.last_port_packed = None;
                        self.last_port_net_kind = NetKind::Logic;
                    }
                }
                let ghost st = self.module_stack@;
                let ghost nv = n@;
                self.module_stack.push(n);
                assert(self.module_stack@.map_values(|s: String| s@) =~= st.map_values(|s: String| s@).push(nv));
            },
            VisitEvent::LeaveModule => {
                if self.module_stack.len() > 0 {
                    let ghost st = self.module_stack@;
                    self.module_stack.pop();
                    assert(self.module_stack@.map_values(|s: String| s@) =~= st.map_values(|s: String| s@).drop_last());
                    if self.module_stack.len() == 0 {
                        match self.current.take() {
                            Some(m) => {
                                let k = m.name.clone();
                                proof {
                                    lemma_entries_view_insert(module_entries(design.modules), k@, m);
                                }
                                insert_module(&mut design.modules, k, m);
                            },
                            None => {},
                        }
                    }
                }
            },
            other => {
                if self.module_stack.len() == 1 {
                    match self.current.take() {
                        Some(m) => {
                            let mut m = m;
                            self.apply_item(&mut m, other);
                            self.current = Some(m);
                        },
                        None => {},
                    }
                }
            },
        }
    }

    /// Stores the module still being built, if any, once the walk is over.
    pub fn finish(self, design: &mut Design)
        ensures
            entries_view(module_entries(final(design).modules)) == finish_spec(
                self@,
                entries_view(module_entries(old(design).modules)),
            ),
            final(design).files == old(design).files,
    {
        match self.current {
            Some(m) => {
                let k = m.name.clone();
                proof {
                    lemma_entries_view_insert(module_entries(design.modules), k@, m);
                }
                insert_module(&mut design.modules, k, m);
            },
            None => {},
        }
    }
}

/// Applies the events of a walk over `file`, in order, to the design.
pub fn visit_events(events: Vec<VisitEvent>, file: &PathBuf, design: &mut Design)
    ensures
        entries_view(module_entries(final(design).modules)) == visit_spec(
            entries_view(module_entries(old(design).modules)),
            events@,
            *file,
        ),
        final(design).files == old(design).files,
{
    let ghost evs = events@;
    let ghost es0 = entries_view(module_entries(design.modules));
    let mut pending = events;
    let mut reversed: Vec<VisitEvent> = Vec::new();
    while pending.len() > 0
        invariant
            evs == pending@ + reversed@.reverse(),
        decreases pending.len(),
    {
        let ghost before = pending@;
        let ghost rev_before = reversed@;
        match pending.pop() {
            Some(e) => {
                reversed.push(e);
                assert(evs =~= pending@ + reversed@.reverse()) by {
                    assert(reversed@.reverse() =~= seq![e] + rev_before.reverse());
                    assert(before =~= pending@.push(e));
                }
            },
            None => {},
        }
    }
    assert(evs =~= reversed@.reverse());
    let mut visitor = Visitor::new();
    let mut done: usize = 0;
    let n = reversed.len();
    while reversed.len() > 0
        invariant
            n == evs.len(),
            reversed@.len() + done == n,
            evs.subrange(done as int, n as int) == reversed@.reverse(),
            (visitor@, entries_view(module_entries(design.modules))) == run_spec(
                initial_visitor(),
                es0,
                evs.subrange(0, done as int),
                *file,
            ),
            design.files == old(design).files,
        decreases reversed.len(),
    {
        let ghost rb = reversed@;
        match reversed.pop() {
            Some(e) => {
                assert(rb.reverse()[0] == rb[rb.len() - 1]);
                assert(evs.subrange(done as int, n as int)[0] == evs[done as int]);
                assert(evs[done as int] == e);
                assert(evs.subrange(0, done + 1).drop_last() =~= evs.subrange(0, done as int));
                visitor.step(design, file, e);
                done += 1;
                assert(reversed@ =~= rb.subrange(0, rb.len() - 1));
                assert forall|k: int| 0 <= k < reversed@.len() implies evs.subrange(done as int, n as int)[k]
                    == reversed@.reverse()[k] by {
                    assert(evs.subrange(done - 1, n as int)[k + 1] == rb.reverse()[k + 1]);
                }
                assert(evs.subrange(done as int, n as int) =~= reversed@.reverse());
            },
            None => {},
        }
    }
    assert(evs.subrange(0, n as int) =~= evs);
    visitor.finish(design);
}

} // verus!
