//! Flip-flop counts: per module from its FF declarations, and over an
//! instance hierarchy with parameter bindings passed down from parents.
use vstd::prelude::*;
use crate::design::{Design, FfDecl, Instance, Module, Port, Signal, get_module, lookup_module, module_entries, entry_index, lemma_entry_index_from};
use crate::env::ParamMap;
use crate::expr::Evaluation;
use crate::params::{ParamEnv, declared_env, expr_evaluation, overridden, try_evaluate_expr};
use crate::text::{trim_str, trimmed};
use crate::width::{dims_width, fits_i64, opt_i64, signal_width, try_dims_width};

verus! {

/// The first signal named `name`.
pub open spec fn first_signal(ss: Seq<Signal>, name: Seq<char>) -> Option<Signal>
    decreases ss.len(),
{
    if ss.len() == 0 {
        None
    } else if ss[0].name@ == name {
        Some(ss[0])
    } else {
        first_signal(ss.drop_first(), name)
    }
}

/// The first port named `name`.
pub open spec fn first_port(ps: Seq<Port>, name: Seq<char>) -> Option<Port>
    decreases ps.len(),
{
    if ps.len() == 0 {
        None
    } else if ps[0].name@ == name {
        Some(ps[0])
    } else {
        first_port(ps.drop_first(), name)
    }
}

/// FFs of one declaration: the width of the signal of that name, else of
/// the port of that name, else 1. `None` where computing it panics.
pub open spec fn ff_width(m: Module, ff: FfDecl, env: Map<Seq<char>, i64>) -> Option<int> {
    match first_signal(m.signals@, ff.signal_name@) {
        Some(s) => signal_width(s, env),
        None => match first_port(m.ports@, ff.signal_name@) {
            Some(p) => dims_width(p.packed_width, p.unpacked_dims@, env),
            None => Some(1),
        },
    }
}

/// Sum of the FF widths of `ffs`, added in order. `None` where the sum or a
/// width overflows.
pub open spec fn ff_total(m: Module, ffs: Seq<FfDecl>, env: Map<Seq<char>, i64>) -> Option<int>
    decreases ffs.len(),
{
    if ffs.len() == 0 {
        Some(0)
    } else {
        match ff_total(m, ffs.drop_last(), env) {
            Some(t) => match ff_width(m, ffs.last(), env) {
                Some(w) => if fits_i64(t + w) {
                    Some(t + w)
                } else {
                    None
                },
                None => None,
            },
            None => None,
        }
    }
}

/// Own FFs of a module under an environment.
pub open spec fn module_ff_count(m: Module, env: Map<Seq<char>, i64>) -> Option<int> {
    ff_total(m, m.ff_decls@, env)
}

fn find_signal<'a>(ss: &'a Vec<Signal>, name: &String) -> (r: Option<&'a Signal>)
    ensures
        match r {
            Some(s) => first_signal(ss@, name@) == Some(*s),
            None => first_signal(ss@, name@) is None,
        },
{
    let mut i: usize = 0;
    assert(ss@.subrange(0, ss.len() as int) =~= ss@);
    while i < ss.len()
        invariant
            i <= ss.len(),
            first_signal(ss@, name@) == first_signal(ss@.subrange(i as int, ss.len() as int), name@),
        decreases ss.len() - i,
    {
        proof {
            assert(ss@.subrange(i as int, ss.len() as int).drop_first() =~= ss@.subrange(i + 1, ss.len() as int));
        }
        if ss[i].name == *name {
            return Some(&ss[i]);
        }
        i += 1;
    }
    None
}

fn find_port<'a>(ps: &'a Vec<Port>, name: &String) -> (r: Option<&'a Port>)
    ensures
        match r {
            Some(p) => first_port(ps@, name@) == Some(*p),
            None => first_port(ps@, name@) is None,
        },
{
    let mut i: usize = 0;
    assert(ps@.subrange(0, ps.len() as int) =~= ps@);
    while i < ps.len()
        invariant
            i <= ps.len(),
            first_port(ps@, name@) == first_port(ps@.subrange(i as int, ps.len() as int), name@),
        decreases ps.len() - i,
    {
        proof {
            assert(ps@.subrange(i as int, ps.len() as int).drop_first() =~= ps@.subrange(i + 1, ps.len() as int));
        }
        if ps[i].name == *name {
            return Some(&ps[i]);
        }
        i += 1;
    }
    None
}

proof fn lemma_ff_total_none(m: Module, ffs: Seq<FfDecl>, env: Map<Seq<char>, i64>, k: int)
    requires
        0 < k <= ffs.len(),
        ff_total(m, ffs.subrange(0, k), env) is None,
    ensures
        ff_total(m, ffs, env) is None,
    decreases ffs.len() - k,
{
    if k < ffs.len() {
        assert(ffs.subrange(0, k + 1).drop_last() =~= ffs.subrange(0, k));
        lemma_ff_total_none(m, ffs, env, k + 1);
    } else {
        assert(ffs.subrange(0, k) =~= ffs);
    }
}

/// Own FFs of a module given an already-resolved environment, or `None`
/// where counting them overflows.
pub fn try_count_module_ffs(module: &Module, params: &ParamMap) -> (r: Option<i64>)
    ensures
        opt_i64(r) == module_ff_count(*module, params@),
{
    let ffs = &module.ff_decls;
    let ghost env = params@;
    let mut total: i64 = 0;
    let mut i: usize = 0;
    while i < ffs.len()
        invariant
            i <= ffs.len(),
            env == params@,
            ffs@ == module.ff_decls@,
            ff_total(*module, ffs@.subrange(0, i as int), env) == Some(total as int),
        decreases ffs.len() - i,
    {
        proof {
            assert(ffs@.subrange(0, i + 1).drop_last() =~= ffs@.subrange(0, i as int));
        }
        let ff = &ffs[i];
        let w = match find_signal(&module.signals, &ff.signal_name) {
            Some(sig) => try_dims_width(&sig.packed_width, &sig.unpacked_dims, params),
            None => match find_port(&module.ports, &ff.signal_name) {
                Some(port) => try_dims_width(&port.packed_width, &port.unpacked_dims, params),
                None => Some(1),
            },
        };
        match w {
            Some(w) => match total.checked_add(w) {
                Some(t) => {
                    total = t;
                },
                None => {
                    proof {
                        lemma_ff_total_none(*module, ffs@, env, i + 1);
                    }
                    return None;
                },
            },
            None => {
                proof {
                    lemma_ff_total_none(*module, ffs@, env, i + 1);
                }
                return None;
            },
        }
        i += 1;
    }
    assert(ffs@.subrange(0, ffs.len() as int) =~= ffs@);
    Some(total)
}

/// Count own FFs of a module given an already-resolved ParamEnv: for each
/// FF declaration the width of the signal of that name, else of the port of
/// that name, else 1 bit.
pub fn count_module_ffs_with_env(module: &Module, env: &ParamEnv) -> (r: i64)
    requires
        module_ff_count(*module, env@) is Some,
    ensures
        r == module_ff_count(*module, env@)->0,
{
    match try_count_module_ffs(module, env.as_map()) {
        Some(n) => n,
        None => 0,
    }
}

/// A row of the FF hierarchy: module name, own FFs, FFs including the
/// instances below it.
pub type FfRowView = (Seq<char>, i64, i64);

pub open spec fn names(v: Seq<String>) -> Seq<Seq<char>> {
    v.map_values(|s: String| s@)
}

pub open spec fn rows_view(v: Seq<(String, i64, i64)>) -> Seq<FfRowView> {
    v.map_values(|r: (String, i64, i64)| (r.0@, r.1, r.2))
}

/// Number of entries of the design whose name has not been visited.
pub open spec fn unvisited(es: Seq<(Seq<char>, Module)>, visited: Seq<Seq<char>>) -> nat
    decreases es.len(),
{
    if es.len() == 0 {
        0
    } else {
        unvisited(es.drop_last(), visited) + (if visited.contains(es.last().0) {
            0nat
        } else {
            1nat
        })
    }
}

pub proof fn lemma_unvisited_push(es: Seq<(Seq<char>, Module)>, visited: Seq<Seq<char>>, k: Seq<char>)
    ensures
        unvisited(es, visited.push(k)) <= unvisited(es, visited),
        (exists|i: int| 0 <= i < es.len() && es[i].0 == k) && !visited.contains(k) ==> unvisited(
            es,
            visited.push(k),
        ) < unvisited(es, visited),
    decreases es.len(),
{
    if es.len() > 0 {
        lemma_unvisited_push(es.drop_last(), visited, k);
        assert(visited.push(k).contains(es.last().0) <== visited.contains(es.last().0)) by {
            if visited.contains(es.last().0) {
                let j = choose|j: int| 0 <= j < visited.len() && visited[j] == es.last().0;
                assert(visited.push(k)[j] == es.last().0);
            }
        }
        if (exists|i: int| 0 <= i < es.len() && es[i].0 == k) && !visited.contains(k) {
            if es.last().0 == k {
                assert(visited.push(k)[visited.len() as int] == k);
            } else {
                let i = choose|i: int| 0 <= i < es.len() && es[i].0 == k;
                assert(es.drop_last()[i] == es[i]);
            }
        }
    }
}

pub proof fn lemma_lookup_present(es: Seq<(Seq<char>, Module)>, k: Seq<char>)
    requires
        lookup_module(es, k) is Some,
    ensures
        exists|i: int| 0 <= i < es.len() && es[i].0 == k,
{
    lemma_entry_index_from(es, k, 0);
    let i = entry_index(es, k)->0;
    assert(es[i].0 == k);
}

/// The bindings that an instance passes down: each `.NAME(expr)` whose
/// (trimmed) expression evaluates in the parent's environment, in order;
/// others are dropped. `None` where an evaluation traps.
pub open spec fn child_bindings(ovs: Seq<(String, String)>, env: Map<Seq<char>, i64>) -> Option<Seq<(String, i64)>>
    decreases ovs.len(),
{
    if ovs.len() == 0 {
        Some(Seq::empty())
    } else {
        match child_bindings(ovs.drop_last(), env) {
            Some(b) => match expr_evaluation(trimmed(ovs.last().1@), env) {
                Evaluation::Value(v) => Some(b.push((ovs.last().0, v))),
                Evaluation::Undefined => Some(b),
                Evaluation::Trap => None,
            },
            None => None,
        }
    }
}

/// Rows of the FF hierarchy below module `name`, depth first, pre-order:
/// the module's own row (own FFs and the total with the first row of each
/// instance's subtree) then the rows of its instances in order. A module
/// already on the path (`visited`) or not in the design gives no rows.
/// `None` where the computation panics.
pub open spec fn ff_rows(
    es: Seq<(Seq<char>, Module)>,
    name: Seq<char>,
    ovs: Seq<(String, i64)>,
    visited: Seq<Seq<char>>,
) -> Option<Seq<FfRowView>>
    decreases unvisited(es, visited), 0int, 0int,
{
    if visited.contains(name) {
        Some(Seq::empty())
    } else {
        match lookup_module(es, name) {
            None => Some(Seq::empty()),
            Some(m) => match declared_env(m.params@) {
                None => None,
                Some(m0) => {
                    let env = overridden(m0, ovs);
                    match module_ff_count(m, env) {
                        None => None,
                        Some(own) => {
                            proof {
                                lemma_lookup_present(es, name);
                                lemma_unvisited_push(es, visited, name);
                            }
                            match instance_rows(es, m.instances@, env, visited.push(name), m.instances@.len() as int) {
                                None => None,
                                Some((rows, child_total)) => if fits_i64(own + child_total) {
                                    Some(seq![(name, own as i64, (own + child_total) as i64)] + rows)
                                } else {
                                    None
                                },
                            }
                        },
                    }
                },
            },
        }
    }
}

/// Rows of the first `k` instances' subtrees and the sum of their totals.
pub open spec fn instance_rows(
    es: Seq<(Seq<char>, Module)>,
    insts: Seq<Instance>,
    env: Map<Seq<char>, i64>,
    visited: Seq<Seq<char>>,
    k: int,
) -> Option<(Seq<FfRowView>, int)>
    decreases unvisited(es, visited), 1int, k,
{
    if k <= 0 {
        Some((Seq::empty(), 0))
    } else {
        match instance_rows(es, insts, env, visited, k - 1) {
            None => None,
            Some((rows, total)) => match child_bindings(insts[k - 1].param_overrides@, env) {
                None => None,
                Some(co) => match ff_rows(es, insts[k - 1].module_ref@, co, visited) {
                    None => None,
                    Some(child) => {
                        let t = if child.len() > 0 {
                            total + child[0].2
                        } else {
                            total
                        };
                        if fits_i64(t) {
                            Some((rows + child, t))
                        } else {
                            None
                        }
                    },
                },
            },
        }
    }
}

fn contains_name(v: &Vec<String>, name: &String) -> (r: bool)
    ensures
        r == names(v@).contains(name@),
{
    let mut i: usize = 0;
    while i < v.len()
        invariant
            i <= v.len(),
            forall|j: int| 0 <= j < i ==> v@[j]@ != name@,
        decreases v.len() - i,
    {
        if v[i] == *name {
            assert(names(v@)[i as int] == name@);
            return true;
        }
        i += 1;
    }
    proof {
        if names(v@).contains(name@) {
            let j = choose|j: int| 0 <= j < names(v@).len() && names(v@)[j] == name@;
            assert(v@[j]@ == name@);
        }
    }
    false
}

fn try_child_bindings(ovs: &Vec<(String, String)>, env: &ParamMap) -> (r: Option<Vec<(String, i64)>>)
    ensures
        match r {
            Some(b) => child_bindings(ovs@, env@) == Some(b@),
            None => child_bindings(ovs@, env@) is None,
        },
{
    let mut out: Vec<(String, i64)> = Vec::new();
    let mut i: usize = 0;
    while i < ovs.len()
        invariant
            i <= ovs.len(),
            child_bindings(ovs@.subrange(0, i as int), env@) == Some(out@),
        decreases ovs.len() - i,
    {
        proof {
            assert(ovs@.subrange(0, i + 1).drop_last() =~= ovs@.subrange(0, i as int));
        }
        let (pname, expr) = &ovs[i];
        match try_evaluate_expr(trim_str(expr.as_str()), env) {
            Evaluation::Value(v) => {
                out.push((pname.clone(), v));
            },
            Evaluation::Undefined => {},
            Evaluation::Trap => {
                proof {
                    lemma_child_bindings_none(ovs@, env@, i + 1);
                }
                return None;
            },
        }
        i += 1;
    }
    assert(ovs@.subrange(0, ovs.len() as int) =~= ovs@);
    Some(out)
}

proof fn lemma_child_bindings_none(ovs: Seq<(String, String)>, env: Map<Seq<char>, i64>, k: int)
    requires
        0 < k <= ovs.len(),
        child_bindings(ovs.subrange(0, k), env) is None,
    ensures
        child_bindings(ovs, env) is None,
    decreases ovs.len() - k,
{
    if k < ovs.len() {
        assert(ovs.subrange(0, k + 1).drop_last() =~= ovs.subrange(0, k));
        lemma_child_bindings_none(ovs, env, k + 1);
    } else {
        assert(ovs.subrange(0, k) =~= ovs);
    }
}

proof fn lemma_instance_rows_none(
    es: Seq<(Seq<char>, Module)>,
    insts: Seq<Instance>,
    env: Map<Seq<char>, i64>,
    visited: Seq<Seq<char>>,
    k: int,
)
    requires
        0 < k <= insts.len(),
        instance_rows(es, insts, env, visited, k) is None,
    ensures
        instance_rows(es, insts, env, visited, insts.len() as int) is None,
    decreases insts.len() - k,
{
    if k < insts.len() {
        lemma_instance_rows_none(es, insts, env, visited, k + 1);
    }
}

/// Build (module_name, own_ffs, total_ffs) rows for the FF hierarchy below
/// `mod_name`, propagating parameter bindings from parent instances;
/// `None` where the computation panics. `visited` is the path of modules
/// above (a module met again on it is cut off) and is left as it was.
pub fn try_collect_ff_rows(
    design: &Design,
    mod_name: &str,
    instance_overrides: &[(String, i64)],
    visited: &mut Vec<String>,
) -> (r: Option<Vec<(String, i64, i64)>>)
    ensures
        final(visited)@ == old(visited)@,
        match r {
            Some(rows) => ff_rows(module_entries(design.modules), mod_name@, instance_overrides@, names(old(visited)@))
                == Some(rows_view(rows@)),
            None => ff_rows(module_entries(design.modules), mod_name@, instance_overrides@, names(old(visited)@)) is None,
        },
    decreases unvisited(module_entries(design.modules), names(old(visited)@)), 0int, 0int,
{
    let ghost es = module_entries(design.modules);
    let ghost vis0 = names(visited@);
    let name = crate::text::owned(mod_name);
    if contains_name(visited, &name) {
        return Some(Vec::new());
    }
    let module = match get_module(&design.modules, mod_name) {
        Some(m) => m,
        None => {
            return Some(Vec::new());
        },
    };
    let env = match ParamEnv::try_from_module(module) {
        Some(e) => e.with_overrides(instance_overrides),
        None => {
            return None;
        },
    };
    let own = match try_count_module_ffs(module, env.as_map()) {
        Some(n) => n,
        None => {
            return None;
        },
    };
    proof {
        lemma_lookup_present(es, mod_name@);
        lemma_unvisited_push(es, vis0, mod_name@);
    }
    let ghost vis1 = vis0.push(mod_name@);
    visited.push(name);
    assert(names(visited@) =~= vis1);
    let mut rows: Vec<(String, i64, i64)> = Vec::new();
    let mut child_total: i64 = 0;
    let insts = &module.instances;
    let mut i: usize = 0;
    while i < insts.len()
        invariant
            i <= insts.len(),
            insts@ == module.instances@,
            es == module_entries(design.modules),
            vis0 == names(old(visited)@),
            !vis0.contains(mod_name@),
            vis1 == vis0.push(mod_name@),
            unvisited(es, vis1) < unvisited(es, vis0),
            lookup_module(es, mod_name@) == Some(*module),
            declared_env(module.params@) is Some,
            env@ == overridden(declared_env(module.params@)->0, instance_overrides@),
            module_ff_count(*module, env@) == Some(own as int),
            names(visited@) == vis1,
            visited@ == old(visited)@.push(visited@.last()),
            visited@.len() == old(visited)@.len() + 1,
            instance_rows(es, insts@, env@, vis1, i as int) == Some((rows_view(rows@), child_total as int)),
        decreases insts.len() - i,
    {
        let inst = &insts[i];
        let co = match try_child_bindings(&inst.param_overrides, env.as_map()) {
            Some(co) => co,
            None => {
                proof {
                    lemma_instance_rows_none(es, insts@, env@, vis1, i + 1);
                }
                visited.pop();
                return None;
            },
        };
        let child = match try_collect_ff_rows(design, inst.module_ref.as_str(), co.as_slice(), visited) {
            Some(c) => c,
            None => {
                proof {
                    lemma_instance_rows_none(es, insts@, env@, vis1, i + 1);
                }
                visited.pop();
                return None;
            },
        };
        let t = if child.len() > 0 {
            child_total.checked_add(child[0].2)
        } else {
            Some(child_total)
        };
        match t {
            Some(t) => {
                child_total = t;
            },
            None => {
                proof {
                    lemma_instance_rows_none(es, insts@, env@, vis1, i + 1);
                }
                visited.pop();
                return None;
            },
        }
        let mut child = child;
        let ghost before = rows@;
        let ghost added = child@;
        rows.append(&mut child);
        assert(rows_view(rows@) =~= rows_view(before) + rows_view(added));
        i += 1;
    }
    visited.pop();
    assert(visited@ =~= old(visited)@);
    match own.checked_add(child_total) {
        Some(total) => {
            let mut out: Vec<(String, i64, i64)> = Vec::new();
            out.push((crate::text::owned(mod_name), own, total));
            let ghost tail = rows@;
            out.append(&mut rows);
            assert(rows_view(out@) =~= seq![(mod_name@, own, total)] + rows_view(tail));
            Some(out)
        },
        None => None,
    }
}

/// Build (module_name, own_ffs, total_ffs) rows for the FF hierarchy,
/// propagating parameter bindings from parent instances.
pub fn collect_ff_rows(
    design: &Design,
    mod_name: &str,
    instance_overrides: &[(String, i64)],
    visited: &mut Vec<String>,
) -> (r: Vec<(String, i64, i64)>)
    requires
        ff_rows(module_entries(design.modules), mod_name@, instance_overrides@, names(old(visited)@)) is Some,
    ensures
        final(visited)@ == old(visited)@,
        ff_rows(module_entries(design.modules), mod_name@, instance_overrides@, names(old(visited)@))
            == Some(rows_view(r@)),
{
    match try_collect_ff_rows(design, mod_name, instance_overrides, visited) {
        Some(rows) => rows,
        None => Vec::new(),
    }
}

} // verus!
