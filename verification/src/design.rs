//! The design model: modules with their parameters, ports, signals,
//! instances and flip-flop declarations.
use vstd::prelude::*;
use std::path::PathBuf;
use indexmap::IndexMap;
use crate::params::ParamEnv;

verus! {

/// `std::path::PathBuf`, carried through as an opaque value.
#[verifier::external_type_specification]
#[verifier::external_body]
pub struct ExPathBuf(PathBuf);

/// `indexmap::IndexMap`, opaque; what a module map holds is named
/// `module_entries`.
#[verifier::external_type_specification]
#[verifier::external_body]
#[verifier::reject_recursive_types(K)]
#[verifier::reject_recursive_types(V)]
#[verifier::reject_recursive_types(S)]
pub struct ExIndexMap<K, V, S>(IndexMap<K, V, S>);

/// All modules of the parsed sources, keyed by name in definition order,
/// and the source files they came from.
pub struct Design {
    pub modules: IndexMap<String, Module>,
    pub files: Vec<PathBuf>,
}

#[derive(Debug)]
pub struct Module {
    pub name: String,
    pub file: PathBuf,
    pub span: (usize, usize),
    pub params: Vec<ParamDecl>,
    pub ports: Vec<Port>,
    pub signals: Vec<Signal>,
    pub instances: Vec<Instance>,
    pub ff_decls: Vec<FfDecl>,
}

/// Calls `PathBuf::clone`: an equal path.
#[verifier::external_body]
pub(crate) fn clone_path(p: &PathBuf) -> (r: PathBuf)
    ensures
        r == *p,
{
    p.clone()
}

impl Clone for Module {
    fn clone(&self) -> Self {
        Module {
            name: self.name.clone(),
            file: clone_path(&self.file),
            span: (self.span.0, self.span.1),
            params: self.params.clone(),
            ports: self.ports.clone(),
            signals: self.signals.clone(),
            instances: self.instances.clone(),
            ff_decls: self.ff_decls.clone(),
        }
    }
}

/// `parameter` or `localparam` with its default value expression.
#[derive(Debug, Clone)]
pub struct ParamDecl {
    pub name: String,
    pub value: String,
}

#[derive(Debug, Clone)]
pub struct Port {
    pub name: String,
    pub direction: Direction,
    pub net_kind: NetKind,
    pub data_type: DataType,
    pub packed_width: Option<Range>,
    pub unpacked_dims: Vec<Range>,
}

#[derive(Debug, Clone, Copy, PartialEq, Eq, Structural)]
pub enum Direction {
    Input,
    Output,
    Inout,
}

#[derive(Debug, PartialEq, Eq, Structural)]
pub enum NetKind {
    Wire,
    Logic,
    Reg,
    Var,
    Unknown,
}

#[derive(Debug)]
pub enum DataType {
    Bit,
    Logic,
    Reg,
    Byte,
    ShortInt,
    Int,
    LongInt,
    Integer,
    Time,
    Real,
    ShortReal,
    Double,
    Signed,
    Unsigned,
    Custom(String),
}

/// A `[msb:lsb]` dimension, each bound kept as source text.
#[derive(Debug)]
pub struct Range {
    pub msb: String,
    pub lsb: String,
}

#[derive(Debug, Clone)]
pub struct Signal {
    pub name: String,
    pub net_kind: NetKind,
    pub data_type: DataType,
    pub packed_width: Option<Range>,
    pub unpacked_dims: Vec<Range>,
}

/// An instantiation of `module_ref` named `inst_name`, with its parameter
/// bindings `.NAME(expr)`: each name and the source text of its expression.
#[derive(Debug, Clone)]
pub struct Instance {
    pub inst_name: String,
    pub module_ref: String,
    pub param_overrides: Vec<(String, String)>,
}

#[derive(Debug, Clone)]
pub struct FfDecl {
    pub signal_name: String,
    pub packed_width: Option<Range>,
    pub unpacked_dims: Vec<Range>,
    pub clock_edge: ClockEdge,
    pub reset_kind: ResetKind,
}

#[derive(Debug, Clone, Copy, PartialEq, Eq, Structural)]
pub enum ClockEdge {
    Posedge,
    Negedge,
}

#[derive(Debug, Clone, Copy, PartialEq, Eq, Structural)]
pub enum ResetKind {
    Sync,
    Async,
    /// No reset in the sensitivity list.
    NoReset,
}

impl Clone for NetKind {
    fn clone(&self) -> (r: Self)
        ensures
            r == *self,
    {
        match self {
            NetKind::Wire => NetKind::Wire,
            NetKind::Logic => NetKind::Logic,
            NetKind::Reg => NetKind::Reg,
            NetKind::Var => NetKind::Var,
            NetKind::Unknown => NetKind::Unknown,
        }
    }
}

impl Clone for DataType {
    fn clone(&self) -> (r: Self)
        ensures
            r == *self,
    {
        match self {
            DataType::Bit => DataType::Bit,
            DataType::Logic => DataType::Logic,
            DataType::Reg => DataType::Reg,
            DataType::Byte => DataType::Byte,
            DataType::ShortInt => DataType::ShortInt,
            DataType::Int => DataType::Int,
            DataType::LongInt => DataType::LongInt,
            DataType::Integer => DataType::Integer,
            DataType::Time => DataType::Time,
            DataType::Real => DataType::Real,
            DataType::ShortReal => DataType::ShortReal,
            DataType::Double => DataType::Double,
            DataType::Signed => DataType::Signed,
            DataType::Unsigned => DataType::Unsigned,
            DataType::Custom(name) => DataType::Custom(name.clone()),
        }
    }
}

impl Clone for Range {
    fn clone(&self) -> (r: Self)
        ensures
            r == *self,
    {
        Range { msb: self.msb.clone(), lsb: self.lsb.clone() }
    }
}

/// A module with its lists as sequences.
pub struct ModuleView {
    pub name: Seq<char>,
    pub file: PathBuf,
    pub span: (usize, usize),
    pub params: Seq<ParamDecl>,
    pub ports: Seq<Port>,
    pub signals: Seq<Signal>,
    pub instances: Seq<Instance>,
    pub ff_decls: Seq<FfDecl>,
}

impl View for Module {
    type V = ModuleView;

    open spec fn view(&self) -> ModuleView {
        ModuleView {
            name: self.name@,
            file: self.file,
            span: self.span,
            params: self.params@,
            ports: self.ports@,
            signals: self.signals@,
            instances: self.instances@,
            ff_decls: self.ff_decls@,
        }
    }
}

pub open spec fn entries_view(es: Seq<(Seq<char>, Module)>) -> Seq<(Seq<char>, ModuleView)> {
    es.map_values(|e: (Seq<char>, Module)| (e.0, e.1@))
}

pub proof fn lemma_entries_view_index(es: Seq<(Seq<char>, Module)>, k: Seq<char>, i: int)
    ensures
        entry_index_from(entries_view(es), k, i) == entry_index_from(es, k, i),
    decreases es.len() - i,
{
    if 0 <= i < es.len() && es[i].0 != k {
        lemma_entries_view_index(es, k, i + 1);
    }
}

pub proof fn lemma_entries_view_insert(es: Seq<(Seq<char>, Module)>, k: Seq<char>, m: Module)
    ensures
        entries_view(entries_insert(es, k, m)) == entries_insert(entries_view(es), k, m@),
{
    lemma_entries_view_index(es, k, 0);
    lemma_entry_index_from(es, k, 0);
    match entry_index(es, k) {
        Some(i) => {
            assert(entries_view(es.update(i, (k, m))) =~= entries_view(es).update(i, (k, m@)));
        },
        None => {
            assert(entries_view(es.push((k, m))) =~= entries_view(es).push((k, m@)));
        },
    }
}

/// The entries of a module map, in its order: name and module.
pub uninterp spec fn module_entries(m: IndexMap<String, Module>) -> Seq<(Seq<char>, Module)>;

/// Index of the first entry named `k` at or after `i`.
pub open spec fn entry_index_from<V>(es: Seq<(Seq<char>, V)>, k: Seq<char>, i: int) -> Option<int>
    decreases es.len() - i,
{
    if i < 0 || i >= es.len() {
        None
    } else if es[i].0 == k {
        Some(i)
    } else {
        entry_index_from(es, k, i + 1)
    }
}

pub open spec fn entry_index<V>(es: Seq<(Seq<char>, V)>, k: Seq<char>) -> Option<int> {
    entry_index_from(es, k, 0)
}

/// The module named `k`, if any.
pub open spec fn lookup_module(es: Seq<(Seq<char>, Module)>, k: Seq<char>) -> Option<Module> {
    match entry_index(es, k) {
        Some(i) => Some(es[i].1),
        None => None,
    }
}

/// Insertion as `IndexMap::insert` does it: a present name keeps its place
/// and takes the new module, a new name goes last.
pub open spec fn entries_insert<V>(es: Seq<(Seq<char>, V)>, k: Seq<char>, m: V) -> Seq<(Seq<char>, V)> {
    match entry_index(es, k) {
        Some(i) => es.update(i, (k, m)),
        None => es.push((k, m)),
    }
}

pub proof fn lemma_entry_index_from<V>(es: Seq<(Seq<char>, V)>, k: Seq<char>, i: int)
    requires
        0 <= i,
    ensures
        match entry_index_from(es, k, i) {
            Some(j) => i <= j < es.len() && es[j].0 == k && forall|l: int| i <= l < j ==> es[l].0 != k,
            None => forall|l: int| i <= l < es.len() ==> es[l].0 != k,
        },
    decreases es.len() - i,
{
    if i < es.len() && es[i].0 != k {
        lemma_entry_index_from(es, k, i + 1);
    }
}

/// Calls `IndexMap::new`: a map with no entries.
#[verifier::external_body]
pub(crate) fn new_module_map() -> (r: IndexMap<String, Module>)
    ensures
        module_entries(r) == Seq::<(Seq<char>, Module)>::empty(),
{
    IndexMap::new()
}

/// Calls `IndexMap::insert`: a name already present keeps its place and
/// takes the new module; a new name is added last.
#[verifier::external_body]
pub(crate) fn insert_module(m: &mut IndexMap<String, Module>, name: String, module: Module)
    ensures
        module_entries(*final(m)) == entries_insert(module_entries(*old(m)), name@, module),
{
    m.insert(name, module);
}

/// Calls `IndexMap::get`: the module stored under `name`.
#[verifier::external_body]
pub(crate) fn get_module<'a>(m: &'a IndexMap<String, Module>, name: &str) -> (r: Option<&'a Module>)
    ensures
        match r {
            Some(x) => lookup_module(module_entries(*m), name@) == Some(*x),
            None => lookup_module(module_entries(*m), name@) is None,
        },
{
    m.get(name)
}

/// Calls `IndexMap::len`: the number of entries.
#[verifier::external_body]
pub(crate) fn module_count(m: &IndexMap<String, Module>) -> (r: usize)
    ensures
        r == module_entries(*m).len(),
{
    m.len()
}

/// Calls `IndexMap::get_index`: the entry at position `i`.
#[verifier::external_body]
pub(crate) fn module_at<'a>(m: &'a IndexMap<String, Module>, i: usize) -> (r: (&'a String, &'a Module))
    requires
        i < module_entries(*m).len(),
    ensures
        r.0@ == module_entries(*m)[i as int].0,
        *r.1 == module_entries(*m)[i as int].1,
{
    m.get_index(i).unwrap()
}

impl Design {
    /// An empty design over the given source files.
    pub fn new(files: Vec<PathBuf>) -> (r: Design)
        ensures
            module_entries(r.modules) == Seq::<(Seq<char>, Module)>::empty(),
            r.files == files,
    {
        Design { modules: new_module_map(), files }
    }
}

/// An instance as text: its name, its module, its bindings.
pub open spec fn instance_text(i: Instance) -> (Seq<char>, Seq<char>, Seq<(Seq<char>, Seq<char>)>) {
    (i.inst_name@, i.module_ref@, i.param_overrides@.map_values(|b: (String, String)| (b.0@, b.1@)))
}

pub open spec fn instances_text(s: Seq<Instance>) -> Seq<(Seq<char>, Seq<char>, Seq<(Seq<char>, Seq<char>)>)> {
    s.map_values(|i: Instance| instance_text(i))
}

fn copy_instance(i: &Instance) -> (r: Instance)
    ensures
        instance_text(r) == instance_text(*i),
{
    let mut overrides: Vec<(String, String)> = Vec::new();
    let mut k: usize = 0;
    while k < i.param_overrides.len()
        invariant
            k <= i.param_overrides.len(),
            overrides@ == i.param_overrides@.take(k as int),
        decreases i.param_overrides.len() - k,
    {
        let (name, value) = &i.param_overrides[k];
        overrides.push((name.clone(), value.clone()));
        assert(overrides@ =~= i.param_overrides@.take(k + 1));
        k += 1;
    }
    assert(overrides@ =~= i.param_overrides@);
    Instance { inst_name: i.inst_name.clone(), module_ref: i.module_ref.clone(), param_overrides: overrides }
}

impl Design {
    /// Resolve a module's instance list under the given parameter
    /// environment: none for a module the design does not have. The design
    /// keeps no syntax trees in which generate constructs could be
    /// re-evaluated under `env`, so the module's instances are given as they
    /// were found with its default parameters.
    pub fn resolve_instances(&self, module_name: &str, _env: &ParamEnv) -> (r: Vec<Instance>)
        ensures
            match lookup_module(module_entries(self.modules), module_name@) {
                Some(m) => instances_text(r@) == instances_text(m.instances@),
                None => r@.len() == 0,
            },
    {
        let mut out: Vec<Instance> = Vec::new();
        match get_module(&self.modules, module_name) {
            Some(m) => {
                let mut k: usize = 0;
                while k < m.instances.len()
                    invariant
                        k <= m.instances.len(),
                        instances_text(out@) == instances_text(m.instances@.take(k as int)),
                    decreases m.instances.len() - k,
                {
                    let ghost before = out@;
                    let c = copy_instance(&m.instances[k]);
                    out.push(c);
                    assert(out@ == before.push(c));
                    assert(m.instances@.take(k + 1) =~= m.instances@.take(k as int).push(m.instances@[k as int]));
                    assert(instances_text(out@) =~= instances_text(before).push(instance_text(c)));
                    assert(instances_text(out@) =~= instances_text(m.instances@.take(k + 1)));
                    k += 1;
                }
                assert(m.instances@.take(m.instances.len() as int) =~= m.instances@);
                out
            },
            None => out,
        }
    }
}

} // verus!
