//! The instance hierarchy below a top module: which instance sits where,
//! and where a module already on the path would recur.
use vstd::prelude::*;
#[allow(unused_imports)]
use vstd::string::*;
use crate::design::{get_module, lookup_module, module_entries, Design, Instance, Module};
use crate::ff::{lemma_lookup_present, lemma_unvisited_push, names, unvisited};
use crate::text::owned;

verus! {

/// A node of a module hierarchy.
#[derive(Debug)]
pub struct HierarchyNode {
    pub module_name: String,
    pub instance_name: String,
    pub children: Vec<HierarchyNode>,
}

/// Why no hierarchy could be built.
#[derive(Debug)]
pub enum HierarchyError {
    /// Top module '{name}' not found
    TopNotFound(String),
}

pub open spec fn error_message(e: HierarchyError) -> Seq<char> {
    match e {
        HierarchyError::TopNotFound(name) => "Top module '"@ + name@ + "' not found"@,
    }
}

impl HierarchyError {
    /// The error's message: `Top module '<name>' not found`.
    pub fn message(&self) -> (r: String)
        ensures
            r@ == error_message(*self),
    {
        match self {
            HierarchyError::TopNotFound(name) => {
                let mut out = owned("Top module '");
                out.append(name.as_str());
                out.append("' not found");
                out
            },
        }
    }
}

/// `n` is the hierarchy below module `m`, reached as instance `inst`, with
/// `visited` the modules on the path above it: it is named after the
/// module and the instance; a module already on the path, or not in the
/// design, is not expanded; otherwise its children are the module's
/// instances in order, each the hierarchy below its module with `m` added
/// to the path.
pub open spec fn tree_below(
    n: HierarchyNode,
    es: Seq<(Seq<char>, Module)>,
    inst: Seq<char>,
    m: Seq<char>,
    visited: Seq<Seq<char>>,
) -> bool
    decreases unvisited(es, visited), 0int, 0int,
{
    &&& n.module_name@ == m
    &&& n.instance_name@ == inst
    &&& if visited.contains(m) || lookup_module(es, m) is None {
        n.children@.len() == 0
    } else {
        let insts = lookup_module(es, m)->0.instances@;
        proof {
            lemma_lookup_present(es, m);
            lemma_unvisited_push(es, visited, m);
        }
        &&& n.children@.len() == insts.len()
        &&& children_below(n.children@, es, insts, visited.push(m), insts.len() as int)
    }
}

/// The first `k` children are the hierarchies below the first `k`
/// instances, in order.
pub open spec fn children_below(
    cs: Seq<HierarchyNode>,
    es: Seq<(Seq<char>, Module)>,
    insts: Seq<Instance>,
    visited: Seq<Seq<char>>,
    k: int,
) -> bool
    decreases unvisited(es, visited), 1int, k,
{
    if k <= 0 {
        true
    } else {
        &&& children_below(cs, es, insts, visited, k - 1)
        &&& tree_below(cs[k - 1], es, insts[k - 1].inst_name@, insts[k - 1].module_ref@, visited)
    }
}

proof fn lemma_children_below_prefix(
    cs: Seq<HierarchyNode>,
    c: HierarchyNode,
    es: Seq<(Seq<char>, Module)>,
    insts: Seq<Instance>,
    visited: Seq<Seq<char>>,
    k: int,
)
    requires
        0 <= k <= cs.len(),
        children_below(cs, es, insts, visited, k),
    ensures
        children_below(cs.push(c), es, insts, visited, k),
    decreases k,
{
    if k > 0 {
        lemma_children_below_prefix(cs, c, es, insts, visited, k - 1);
        assert(cs.push(c)[k - 1] == cs[k - 1]);
    }
}

/// The hierarchy below module `mod_name`, reached as instance `inst_name`;
/// `visited` holds the modules on the path above it and is left as it was.
fn build_hierarchy_recursive(
    design: &Design,
    inst_name: &str,
    mod_name: &str,
    visited: &mut Vec<String>,
) -> (r: HierarchyNode)
    ensures
        final(visited)@ == old(visited)@,
        tree_below(r, module_entries(design.modules), inst_name@, mod_name@, names(old(visited)@)),
    decreases unvisited(module_entries(design.modules), names(old(visited)@)), 0int, 0int,
{
    let ghost es = module_entries(design.modules);
    let ghost vis = names(visited@);
    let name = owned(mod_name);
    let mut children: Vec<HierarchyNode> = Vec::new();
    if contains_name(visited, &name) {
        return HierarchyNode { module_name: name, instance_name: owned(inst_name), children };
    }
    let module = match get_module(&design.modules, mod_name) {
        Some(m) => m,
        None => {
            return HierarchyNode { module_name: name, instance_name: owned(inst_name), children };
        },
    };
    proof {
        lemma_lookup_present(es, mod_name@);
        lemma_unvisited_push(es, vis, mod_name@);
    }
    let ghost vis1 = vis.push(mod_name@);
    visited.push(owned(mod_name));
    assert(names(visited@) =~= vis1);
    let insts = &module.instances;
    let mut i: usize = 0;
    while i < insts.len()
        invariant
            i <= insts.len(),
            insts@ == module.instances@,
            es == module_entries(design.modules),
            lookup_module(es, mod_name@) == Some(*module),
            vis == names(old(visited)@),
            vis1 == vis.push(mod_name@),
            !vis.contains(mod_name@),
            unvisited(es, vis1) < unvisited(es, vis),
            names(visited@) == vis1,
            visited@ == old(visited)@.push(visited@.last()),
            visited@.len() == old(visited)@.len() + 1,
            children@.len() == i,
            children_below(children@, es, insts@, vis1, i as int),
        decreases insts.len() - i,
    {
        let inst = &insts[i];
        let child = build_hierarchy_recursive(design, inst.inst_name.as_str(), inst.module_ref.as_str(), visited);
        proof {
            lemma_children_below_prefix(children@, child, es, insts@, vis1, i as int);
        }
        children.push(child);
        i += 1;
    }
    visited.pop();
    assert(visited@ =~= old(visited)@);
    HierarchyNode { module_name: name, instance_name: owned(inst_name), children }
}

/// The hierarchy tree below `top_module`: where the design has that module,
/// its node (named after it, as instance and module) with the module's
/// instances as children, recursively, a module already on the path not
/// being expanded again; `TopNotFound` with its name where it has not.
pub fn build_hierarchy(design: &Design, top_module: &str) -> (r: Result<HierarchyNode, HierarchyError>)
    ensures
        match r {
            Ok(n) => lookup_module(module_entries(design.modules), top_module@) is Some && n.module_name@
                == top_module@ && tree_below(
                n,
                module_entries(design.modules),
                top_module@,
                top_module@,
                Seq::empty(),
            ),
            Err(e) => {
                &&& lookup_module(module_entries(design.modules), top_module@) is None
                &&& e matches HierarchyError::TopNotFound(name) && name@ == top_module@
                &&& error_message(e) == "Top module '"@ + top_module@ + "' not found"@
            },
        },
{
    let mut visited: Vec<String> = Vec::new();
    match get_module(&design.modules, top_module) {
        Some(_) => {
            assert(names(visited@) =~= Seq::<Seq<char>>::empty());
            Ok(build_hierarchy_recursive(design, top_module, top_module, &mut visited))
        },
        None => Err(HierarchyError::TopNotFound(owned(top_module))),
    }
}

/// One line of the instance hierarchy, in pre-order.
pub struct HierVisit {
    /// 0 for the top module, one more for each instance level below it.
    pub depth: usize,
    /// Position of the parent's line; none for the top module.
    pub parent: Option<usize>,
    /// The instance name; the top module's own name on its line.
    pub instance: String,
    pub module: String,
    /// Whether it is the last instance of its parent (the top is).
    pub last: bool,
    /// Whether the module is already on the path from the top: such an
    /// instance is shown but not expanded.
    pub circular: bool,
    /// The tree-drawing text in front of the line.
    pub prefix: String,
}

pub struct HierVisitView {
    pub depth: nat,
    pub parent: Option<int>,
    pub instance: Seq<char>,
    pub module: Seq<char>,
    pub last: bool,
    pub circular: bool,
    pub prefix: Seq<char>,
}

impl View for HierVisit {
    type V = HierVisitView;

    open spec fn view(&self) -> HierVisitView {
        HierVisitView {
            depth: self.depth as nat,
            parent: match self.parent {
                Some(p) => Some(p as int),
                None => None,
            },
            instance: self.instance@,
            module: self.module@,
            last: self.last,
            circular: self.circular,
            prefix: self.prefix@,
        }
    }
}

pub open spec fn visits_view(vs: Seq<HierVisit>) -> Seq<HierVisitView> {
    vs.map_values(|v: HierVisit| v@)
}

/// The prefix under a line: the line's own prefix and a bar, or blanks
/// below a last instance.
pub open spec fn child_prefix(prefix: Seq<char>, last: bool) -> Seq<char> {
    prefix + (if last {
        "   "@
    } else {
        "│  "@
    })
}

/// The lines below the line `at` of module `m` (depth `depth`, its children
/// drawn with prefix `cp`), `visited` being the modules on the path down to
/// and with `m`. A module that is not in the design has none.
pub open spec fn module_visits(
    es: Seq<(Seq<char>, Module)>,
    m: Seq<char>,
    visited: Seq<Seq<char>>,
    depth: nat,
    cp: Seq<char>,
    at: int,
) -> Seq<HierVisitView>
    decreases unvisited(es, visited), 2int, 0int,
{
    match lookup_module(es, m) {
        None => Seq::empty(),
        Some(md) => instance_visits(es, md.instances@, visited, depth, cp, at, md.instances@.len() as int),
    }
}

/// The lines of the first `k` instances of `insts` (those of the module on
/// line `at`) and of what lies below each: the instance's line, then, when
/// its module is not on the path, the lines below that module.
pub open spec fn instance_visits(
    es: Seq<(Seq<char>, Module)>,
    insts: Seq<Instance>,
    visited: Seq<Seq<char>>,
    depth: nat,
    cp: Seq<char>,
    at: int,
    k: int,
) -> Seq<HierVisitView>
    decreases unvisited(es, visited), 1int, k,
{
    if k <= 0 {
        Seq::empty()
    } else {
        let prev = instance_visits(es, insts, visited, depth, cp, at, k - 1);
        let r = insts[k - 1].module_ref@;
        let last = k == insts.len();
        let circular = visited.contains(r);
        let v = HierVisitView {
            depth: depth + 1,
            parent: Some(at),
            instance: insts[k - 1].inst_name@,
            module: r,
            last,
            circular,
            prefix: cp,
        };
        if circular || lookup_module(es, r) is None {
            prev.push(v)
        } else {
            proof {
                lemma_lookup_present(es, r);
                lemma_unvisited_push(es, visited, r);
            }
            prev.push(v) + module_visits(
                es,
                r,
                visited.push(r),
                depth + 1,
                child_prefix(cp, last),
                at + 1 + prev.len(),
            )
        }
    }
}

/// The whole hierarchy below `top`: its own line, then the lines below it.
pub open spec fn hierarchy_visits(es: Seq<(Seq<char>, Module)>, top: Seq<char>) -> Seq<HierVisitView> {
    seq![
        HierVisitView {
            depth: 0,
            parent: None,
            instance: top,
            module: top,
            last: true,
            circular: false,
            prefix: Seq::empty(),
        },
    ] + module_visits(es, top, seq![top], 0, child_prefix(Seq::empty(), true), 0)
}

fn contains_name(v: &Vec<String>, name: &String) -> (r: bool)
    ensures
        r == names(v@).contains(name@),
{
    let mut i: usize = 0;
    while i < v.len()
        invariant
            i <= v.len(),
            forall|j: int| 0 <= j < i ==> v@[j]@ != name@,
        decreases v.len() - i,
    {
        if v[i] == *name {
            assert(names(v@)[i as int] == name@);
            return true;
        }
        i += 1;
    }
    proof {
        if names(v@).contains(name@) {
            let j = choose|j: int| 0 <= j < names(v@).len() && names(v@)[j] == name@;
            assert(v@[j]@ == name@);
        }
    }
    false
}

fn prefix_below(prefix: &String, last: bool) -> (r: String)
    ensures
        r@ == child_prefix(prefix@, last),
{
    let mut out = prefix.clone();
    if last {
        out.append("   ");
    } else {
        out.append("│  ");
    }
    out
}

/// Appends the lines below module `m`, whose own line is `at`.
fn push_module_visits(
    design: &Design,
    m: &str,
    visited: &mut Vec<String>,
    depth: usize,
    cp: &String,
    at: usize,
    out: &mut Vec<HierVisit>,
)
    requires
        old(out).len() == at + 1,
        depth + 1 == old(visited).len(),
    ensures
        final(visited)@ == old(visited)@,
        visits_view(final(out)@) == visits_view(old(out)@) + module_visits(
            module_entries(design.modules),
            m@,
            names(old(visited)@),
            depth as nat,
            cp@,
            at as int,
        ),
    decreases unvisited(module_entries(design.modules), names(old(visited)@)), 2int, 0int,
{
    let ghost es = module_entries(design.modules);
    let ghost vis = names(visited@);
    let ghost out0 = visits_view(out@);
    let module = match get_module(&design.modules, m) {
        Some(md) => md,
        None => {
            assert(visits_view(out@) =~= out0 + Seq::<HierVisitView>::empty());
            return;
        },
    };
    let insts = &module.instances;
    let mut i: usize = 0;
    while i < insts.len()
        invariant
            i <= insts.len(),
            insts@ == module.instances@,
            es == module_entries(design.modules),
            lookup_module(es, m@) == Some(*module),
            vis == names(visited@),
            visited@ == old(visited)@,
            depth + 1 == visited.len(),
            out0 == visits_view(old(out)@),
            old(out).len() == at + 1,
            visits_view(out@) == out0 + instance_visits(es, insts@, vis, depth as nat, cp@, at as int, i as int),
        decreases insts.len() - i,
    {
        let ghost prev = instance_visits(es, insts@, vis, depth as nat, cp@, at as int, i as int);
        let inst = &insts[i];
        let last = i + 1 == insts.len();
        let circular = contains_name(visited, &inst.module_ref);
        let here = out.len();
        assert(here == at + 1 + prev.len()) by {
            assert(visits_view(out@).len() == out@.len());
        }
        let v = HierVisit {
            depth: depth + 1,
            parent: Some(at),
            instance: inst.inst_name.clone(),
            module: inst.module_ref.clone(),
            last,
            circular,
            prefix: cp.clone(),
        };
        let ghost vv = v@;
        let ghost before = out@;
        out.push(v);
        assert(visits_view(out@) =~= visits_view(before).push(vv));
        assert(visits_view(out@) =~= out0 + prev.push(vv));
        if !circular {
            let present = get_module(&design.modules, inst.module_ref.as_str()).is_some();
            if present {
                proof {
                    lemma_lookup_present(es, inst.module_ref@);
                    lemma_unvisited_push(es, vis, inst.module_ref@);
                }
                let below = prefix_below(cp, last);
                visited.push(inst.module_ref.clone());
                assert(names(visited@) =~= vis.push(inst.module_ref@));
                let ghost mid = visits_view(out@);
                push_module_visits(design, inst.module_ref.as_str(), visited, depth + 1, &below, here, out);
                visited.pop();
                assert(visited@ =~= old(visited)@);
                assert(visits_view(out@) =~= out0 + instance_visits(
                    es,
                    insts@,
                    vis,
                    depth as nat,
                    cp@,
                    at as int,
                    i + 1,
                ));
            }
        }
        i += 1;
    }
    assert(visits_view(out@) == out0 + module_visits(es, m@, vis, depth as nat, cp@, at as int));
}

/// The lines of the instance hierarchy below `top`, in pre-order.
pub fn hierarchy_lines(design: &Design, top: &str) -> (r: Vec<HierVisit>)
    ensures
        visits_view(r@) == hierarchy_visits(module_entries(design.modules), top@),
{
    let mut out: Vec<HierVisit> = Vec::new();
    out.push(
        HierVisit {
            depth: 0,
            parent: None,
            instance: owned(top),
            module: owned(top),
            last: true,
            circular: false,
            prefix: String::new(),
        },
    );
    let mut visited: Vec<String> = Vec::new();
    visited.push(owned(top));
    assert(names(visited@) =~= seq![top@]);
    let cp = prefix_below(&String::new(), true);
    let ghost first = visits_view(out@);
    push_module_visits(design, top, &mut visited, 0, &cp, 0, &mut out);
    assert(first =~= seq![
        HierVisitView {
            depth: 0,
            parent: None,
            instance: top@,
            module: top@,
            last: true,
            circular: false,
            prefix: Seq::empty(),
        },
    ]);
    out
}

} // verus!
