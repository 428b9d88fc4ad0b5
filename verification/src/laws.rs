//! What holds of the library as a whole: of widths and FF counts, of the
//! FF hierarchy and the instance hierarchy, of top-module detection, of the
//! walk that builds modules, of constant expressions, and of parameter
//! environments and `-D` arguments.
use vstd::prelude::*;
use crate::args::{is_referenced, unreferenced_names};
use crate::design::{Direction, Port, ParamDecl, entries_insert, entry_index, lemma_entry_index_from, lookup_module, FfDecl, Module, ModuleView, Range, Signal};
use crate::ff::{FfRowView, child_bindings, ff_rows, ff_total, first_port, first_signal, instance_rows, lemma_lookup_present, lemma_unvisited_push, module_ff_count, unvisited};
use crate::loader::{define_parts, lemma_find_char_first, lemma_find_char_none};
use crate::params::{alnum_flags, declared_env, expr_evaluation, expr_tokens, overridden};
use crate::expr::{
    lemma_add_expr, lemma_add_tail, lemma_and_expr, lemma_and_tail, lemma_compare_tail, lemma_mul_expr, lemma_mul_tail,
    lemma_or_expr, lemma_or_tail, lemma_power, lemma_primary, lemma_shift_expr, lemma_shift_tail, lemma_unary,
    lemma_xor_expr, lemma_xor_tail, Evaluation, Parsed, advances, add_expr, add_tail, and_expr, and_tail,
    checked_add, checked_mul, checked_sub, eval_tokens, mul_expr, mul_tail, or_expr, or_tail, power, primary,
    shift_amount, shift_expr, shift_tail, unary, xor_expr, xor_tail,
};
use crate::lexer::{lex, literal_end, word_end, Token, TokenView};
use crate::literal::{all_digits, digit_value, digits_number, lemma_digits_number_grows, literal_value, parse_radix, signed_radix, without_underscores};
use crate::text::{is_ascii_alnum, is_ascii_alpha, is_ascii_char, is_digit, is_ascii_seq, trim_end_ascii, trim_start_ascii, trimmed};
use crate::visit::{NetPortHeader, empty_module, has_ff_named, initial_visitor, item_step, run_spec, step_spec, visit_spec, VisitEvent, VisitorView};
use crate::width::{dims_product, dims_width, fits_i64, packed_width, range_width, signal_width};
use crate::analyze::hierarchy::{child_prefix, hierarchy_visits, instance_visits, module_visits, HierVisitView};
use std::path::PathBuf;

verus! {

// ─── widths and FF counts ────────────────────────────────────────────────────

proof fn lemma_range_width_positive(r: Range, env: Map<Seq<char>, i64>)
    ensures
        range_width(r, env) matches Some(w) ==> w >= 1,
{
}

proof fn lemma_dims_product_positive(dims: Seq<Range>, env: Map<Seq<char>, i64>)
    ensures
        dims_product(dims, env) matches Some(p) ==> p >= 1,
    decreases dims.len(),
{
    if dims.len() > 0 {
        lemma_dims_product_positive(dims.drop_last(), env);
        lemma_range_width_positive(dims.last(), env);
        if let Some(p) = dims_product(dims.drop_last(), env) {
            if let Some(w) = range_width(dims.last(), env) {
                assert(p * w >= 1) by (nonlinear_arith)
                    requires p >= 1, w >= 1;
            }
        }
    }
}

/// A packed dimension with unpacked dimensions that has a width has a
/// width of at least 1.
pub proof fn law_dims_width_positive(packed: Option<Range>, unpacked: Seq<Range>, env: Map<Seq<char>, i64>)
    ensures
        dims_width(packed, unpacked, env) matches Some(w) ==> w >= 1,
{
    lemma_dims_product_positive(unpacked, env);
    if let Some(r) = packed {
        lemma_range_width_positive(r, env);
    }
    if let (Some(a), Some(b)) = (packed_width(packed, env), dims_product(unpacked, env)) {
        assert(a * b >= 1) by (nonlinear_arith)
            requires a >= 1, b >= 1;
    }
}

/// Every signal whose width can be computed is at least one bit wide: each
/// dimension counts `|msb - lsb| + 1` bits, or 1 where a bound cannot be
/// evaluated, and the width is their product.
pub proof fn law_signal_width_positive(s: Signal, env: Map<Seq<char>, i64>)
    ensures
        signal_width(s, env) matches Some(w) ==> w >= 1,
{
    law_dims_width_positive(s.packed_width, s.unpacked_dims@, env);
}

proof fn lemma_ff_total_at_least(m: Module, ffs: Seq<FfDecl>, env: Map<Seq<char>, i64>)
    ensures
        ff_total(m, ffs, env) matches Some(t) ==> t >= ffs.len(),
    decreases ffs.len(),
{
    if ffs.len() > 0 {
        lemma_ff_total_at_least(m, ffs.drop_last(), env);
        let f = ffs.last();
        match first_signal(m.signals@, f.signal_name@) {
            Some(s) => law_signal_width_positive(s, env),
            None => match first_port(m.ports@, f.signal_name@) {
                Some(p) => law_dims_width_positive(p.packed_width, p.unpacked_dims@, env),
                None => {},
            },
        }
    }
}

/// A module counts at least one FF for each of its FF declarations.
pub proof fn law_ff_count_at_least_declarations(m: Module, env: Map<Seq<char>, i64>)
    ensures
        module_ff_count(m, env) matches Some(c) ==> c >= m.ff_decls@.len(),
{
    lemma_ff_total_at_least(m, m.ff_decls@, env);
}

// ─── widths do not depend on the order of bounds or dimensions ──────────────

/// The range with its bounds exchanged.
pub open spec fn swapped(r: Range) -> Range {
    Range { msb: r.lsb, lsb: r.msb }
}

/// A range is as wide written `[a:b]` as `[b:a]`, and the one overflows
/// where the other does.
pub proof fn law_range_width_ignores_bound_order(r: Range, env: Map<Seq<char>, i64>)
    ensures
        range_width(swapped(r), env) == range_width(r, env),
{
}

/// The widths of the dimensions, in order.
pub open spec fn dim_widths(dims: Seq<Range>, env: Map<Seq<char>, i64>) -> Seq<Option<int>> {
    dims.map_values(|r: Range| range_width(r, env))
}

pub open spec fn checked_product(ws: Seq<Option<int>>) -> Option<int>
    decreases ws.len(),
{
    if ws.len() == 0 {
        Some(1)
    } else {
        match (checked_product(ws.drop_last()), ws.last()) {
            (Some(p), Some(w)) => if fits_i64(p * w) {
                Some(p * w)
            } else {
                None
            },
            _ => None,
        }
    }
}

pub open spec fn width_or_one(w: Option<int>) -> int {
    match w {
        Some(x) => x,
        None => 1,
    }
}

pub open spec fn math_product(ws: Seq<Option<int>>) -> int
    decreases ws.len(),
{
    if ws.len() == 0 {
        1
    } else {
        math_product(ws.drop_last()) * width_or_one(ws.last())
    }
}

pub open spec fn all_known(ws: Seq<Option<int>>) -> bool {
    !ws.contains(None)
}

pub open spec fn at_least_one(ws: Seq<Option<int>>) -> bool {
    forall|i: int| 0 <= i < ws.len() ==> (#[trigger] ws[i] matches Some(w) ==> w >= 1)
}

proof fn lemma_dims_product_by_widths(dims: Seq<Range>, env: Map<Seq<char>, i64>)
    ensures
        dims_product(dims, env) == checked_product(dim_widths(dims, env)),
    decreases dims.len(),
{
    if dims.len() > 0 {
        lemma_dims_product_by_widths(dims.drop_last(), env);
        assert(dim_widths(dims, env).drop_last() =~= dim_widths(dims.drop_last(), env));
    }
}

proof fn lemma_dim_widths_at_least_one(dims: Seq<Range>, env: Map<Seq<char>, i64>)
    ensures
        at_least_one(dim_widths(dims, env)),
{
    assert forall|i: int| 0 <= i < dim_widths(dims, env).len() implies (#[trigger] dim_widths(dims, env)[i] matches Some(
        w,
    ) ==> w >= 1) by {
        lemma_range_width_positive(dims[i], env);
    }
}

proof fn lemma_checked_product(ws: Seq<Option<int>>)
    requires
        at_least_one(ws),
    ensures
        math_product(ws) >= 1,
        checked_product(ws) == (if all_known(ws) && math_product(ws) <= i64::MAX {
            Some(math_product(ws))
        } else {
            None
        }),
    decreases ws.len(),
{
    if ws.len() > 0 {
        let prev = ws.drop_last();
        assert(at_least_one(prev)) by {
            assert forall|i: int| 0 <= i < prev.len() implies (#[trigger] prev[i] matches Some(w) ==> w >= 1) by {
                assert(prev[i] == ws[i]);
            }
        }
        lemma_checked_product(prev);
        let p = math_product(prev);
        let x = ws.last();
        assert(ws[ws.len() - 1] == x);
        let w = width_or_one(x);
        assert(w >= 1);
        assert(p * w >= p) by (nonlinear_arith)
            requires p >= 1, w >= 1;
        assert(all_known(ws) <==> all_known(prev) && x is Some) by {
            if ws.contains(None) && x is Some {
                let j = choose|j: int| 0 <= j < ws.len() && ws[j] == None::<int>;
                assert(prev[j] == ws[j]);
            }
            if prev.contains(None) {
                let j = choose|j: int| 0 <= j < prev.len() && prev[j] == None::<int>;
                assert(ws[j] == prev[j]);
            }
            if x is None {
                assert(ws[ws.len() - 1] == None::<int>);
            }
        }
    }
}

proof fn lemma_math_product_remove(ws: Seq<Option<int>>, j: int)
    requires
        0 <= j < ws.len(),
    ensures
        math_product(ws) == math_product(ws.remove(j)) * width_or_one(ws[j]),
    decreases ws.len(),
{
    if j == ws.len() - 1 {
        assert(ws.remove(j) =~= ws.drop_last());
    } else {
        lemma_math_product_remove(ws.drop_last(), j);
        assert(ws.remove(j).drop_last() =~= ws.drop_last().remove(j));
        assert(ws.remove(j).last() == ws.last());
        let a = math_product(ws.drop_last().remove(j));
        let b = width_or_one(ws[j]);
        let c = width_or_one(ws.last());
        assert(a * b * c == a * c * b) by (nonlinear_arith);
    }
}

proof fn lemma_math_product_multiset(ws1: Seq<Option<int>>, ws2: Seq<Option<int>>)
    requires
        ws1.to_multiset() == ws2.to_multiset(),
    ensures
        math_product(ws1) == math_product(ws2),
        all_known(ws1) == all_known(ws2),
    decreases ws1.len(),
{
    broadcast use vstd::seq_lib::group_to_multiset_ensures;
    if ws1.len() == 0 {
        assert(ws1.to_multiset().len() == ws1.len());
        assert(ws2.to_multiset().len() == ws2.len());
        assert(ws2.len() == 0);
    } else {
        let x = ws1.last();
        assert(ws1.drop_last().push(x) =~= ws1);
        assert(ws1.to_multiset() =~= ws1.drop_last().to_multiset().insert(x));
        assert(ws1.contains(x)) by {
            assert(ws1[ws1.len() - 1] == x);
        }
        assert(ws2.to_multiset().count(x) > 0);
        assert(ws2.contains(x));
        let j = choose|j: int| 0 <= j < ws2.len() && ws2[j] == x;
        assert(ws2.remove(j).to_multiset() =~= ws2.to_multiset().remove(x));
        assert(ws2.remove(j).to_multiset() =~= ws1.drop_last().to_multiset());
        lemma_math_product_multiset(ws1.drop_last(), ws2.remove(j));
        lemma_math_product_remove(ws2, j);
        assert(ws1.contains(None::<int>) <==> ws1.to_multiset().count(None::<int>) > 0);
        assert(ws2.contains(None::<int>) <==> ws2.to_multiset().count(None::<int>) > 0);
    }
}

/// The product of the unpacked dimensions, and so the width with them,
/// depends only on which widths the dimensions have, not on their order:
/// dimensions with the same widths, in any order, give the same width, and
/// overflow alike.
pub proof fn law_width_ignores_dimension_order(
    packed: Option<Range>,
    dims1: Seq<Range>,
    dims2: Seq<Range>,
    env: Map<Seq<char>, i64>,
)
    requires
        dim_widths(dims1, env).to_multiset() == dim_widths(dims2, env).to_multiset(),
    ensures
        dims_product(dims1, env) == dims_product(dims2, env),
        dims_width(packed, dims1, env) == dims_width(packed, dims2, env),
{
    lemma_dims_product_by_widths(dims1, env);
    lemma_dims_product_by_widths(dims2, env);
    lemma_dim_widths_at_least_one(dims1, env);
    lemma_dim_widths_at_least_one(dims2, env);
    lemma_checked_product(dim_widths(dims1, env));
    lemma_checked_product(dim_widths(dims2, env));
    lemma_math_product_multiset(dim_widths(dims1, env), dim_widths(dims2, env));
}

/// Rearranging the dimensions keeps their widths: dimensions that are a
/// permutation of others, with any of them written with exchanged bounds,
/// have the same widths, counted with multiplicity.
pub proof fn law_rearranged_dimensions_keep_their_widths(
    dims1: Seq<Range>,
    dims2: Seq<Range>,
    flips: Seq<bool>,
    env: Map<Seq<char>, i64>,
)
    requires
        dims1.to_multiset() == dims2.to_multiset(),
        flips.len() == dims2.len(),
    ensures
        dim_widths(dims1, env).to_multiset() == dim_widths(flip_some(dims2, flips), env).to_multiset(),
    decreases dims1.len(),
{
    broadcast use vstd::seq_lib::group_to_multiset_ensures;
    assert(dim_widths(flip_some(dims2, flips), env) =~= dim_widths(dims2, env)) by {
        assert forall|i: int| 0 <= i < dims2.len() implies dim_widths(flip_some(dims2, flips), env)[i] == dim_widths(
            dims2,
            env,
        )[i] by {
            law_range_width_ignores_bound_order(dims2[i], env);
        }
    }
    lemma_widths_multiset(dims1, dims2, env);
}

/// Some of the ranges with their bounds exchanged: those where `flips` is set.
pub open spec fn flip_some(dims: Seq<Range>, flips: Seq<bool>) -> Seq<Range> {
    Seq::new(dims.len(), |i: int| if flips[i] { swapped(dims[i]) } else { dims[i] })
}

proof fn lemma_widths_multiset(dims1: Seq<Range>, dims2: Seq<Range>, env: Map<Seq<char>, i64>)
    requires
        dims1.to_multiset() == dims2.to_multiset(),
    ensures
        dim_widths(dims1, env).to_multiset() == dim_widths(dims2, env).to_multiset(),
    decreases dims1.len(),
{
    broadcast use vstd::seq_lib::group_to_multiset_ensures;
    if dims1.len() == 0 {
        assert(dims1.to_multiset().len() == dims1.len());
        assert(dims2.to_multiset().len() == dims2.len());
        assert(dims2.len() == 0);
        assert(dim_widths(dims1, env) =~= dim_widths(dims2, env));
    } else {
        let x = dims1.last();
        assert(dims1.drop_last().push(x) =~= dims1);
        assert(dims1.to_multiset() =~= dims1.drop_last().to_multiset().insert(x));
        assert(dims1.contains(x)) by {
            assert(dims1[dims1.len() - 1] == x);
        }
        assert(dims2.to_multiset().count(x) > 0);
        let j = choose|j: int| 0 <= j < dims2.len() && dims2[j] == x;
        assert(dims2.remove(j).to_multiset() =~= dims1.drop_last().to_multiset());
        lemma_widths_multiset(dims1.drop_last(), dims2.remove(j), env);
        let w1 = dim_widths(dims1, env);
        let w2 = dim_widths(dims2, env);
        assert(dim_widths(dims1.drop_last(), env) =~= w1.drop_last());
        assert(dim_widths(dims2.remove(j), env) =~= w2.remove(j));
        assert(w1.drop_last().push(w1.last()) =~= w1);
        assert(w1.to_multiset() =~= w1.drop_last().to_multiset().insert(w1.last()));
        assert(w2.remove(j).to_multiset() =~= w2.to_multiset().remove(w2[j]));
        assert(w2[j] == w1.last());
        assert(w2.contains(w2[j]));
        assert(w2.to_multiset().count(w2[j]) > 0);
        assert(w2.to_multiset() =~= w2.to_multiset().remove(w2[j]).insert(w2[j]));
    }
}

/// A signal whose packed range is written with its bounds either way round,
/// and whose unpacked dimensions have the same widths in any order (for
/// instance rearranged, some with exchanged bounds), has the same width,
/// which is at least 1 where it can be computed.
pub proof fn law_signal_width_ignores_order(s1: Signal, s2: Signal, env: Map<Seq<char>, i64>)
    requires
        s2.packed_width == s1.packed_width || (s1.packed_width matches Some(r) && s2.packed_width == Some(swapped(r))),
        dim_widths(s1.unpacked_dims@, env).to_multiset() == dim_widths(s2.unpacked_dims@, env).to_multiset(),
    ensures
        signal_width(s2, env) == signal_width(s1, env),
        signal_width(s1, env) matches Some(w) ==> w >= 1,
{
    if let Some(r) = s1.packed_width {
        law_range_width_ignores_bound_order(r, env);
    }
    law_width_ignores_dimension_order(s1.packed_width, s1.unpacked_dims@, s2.unpacked_dims@, env);
    law_signal_width_positive(s1, env);
}

// ─── the FF hierarchy ────────────────────────────────────────────────────────

proof fn lemma_ff_rows_shape(
    es: Seq<(Seq<char>, Module)>,
    name: Seq<char>,
    ovs: Seq<(String, i64)>,
    visited: Seq<Seq<char>>,
)
    ensures
        ff_rows(es, name, ovs, visited) matches Some(rows) ==> {
            &&& (rows.len() == 0 <==> (visited.contains(name) || lookup_module(es, name) is None))
            &&& rows.len() > 0 ==> rows[0].0 == name && 0 <= rows[0].1 <= rows[0].2
        },
    decreases unvisited(es, visited), 0int, 0int,
{
    if !visited.contains(name) {
        if let Some(m) = lookup_module(es, name) {
            if let Some(m0) = declared_env(m.params@) {
                let env = overridden(m0, ovs);
                law_ff_count_at_least_declarations(m, env);
                lemma_lookup_present(es, name);
                lemma_unvisited_push(es, visited, name);
                lemma_instance_rows_total(es, m.instances@, env, visited.push(name), m.instances@.len() as int);
            }
        }
    }
}

proof fn lemma_instance_rows_total(
    es: Seq<(Seq<char>, Module)>,
    insts: Seq<crate::design::Instance>,
    env: Map<Seq<char>, i64>,
    visited: Seq<Seq<char>>,
    k: int,
)
    ensures
        instance_rows(es, insts, env, visited, k) matches Some((rows, total)) ==> total >= 0,
    decreases unvisited(es, visited), 1int, k,
{
    if k > 0 {
        lemma_instance_rows_total(es, insts, env, visited, k - 1);
        if let Some(co) = child_bindings(insts[k - 1].param_overrides@, env) {
            lemma_ff_rows_shape(es, insts[k - 1].module_ref@, co, visited);
        }
    }
}

/// The FF hierarchy below a module (when it can be computed): no rows where
/// the module is already on the path or not in the design; otherwise the
/// first row is the module's own, whose FFs including those below it are
/// at least its own FFs, which are not negative.
pub proof fn law_ff_hierarchy_total_covers_own(
    es: Seq<(Seq<char>, Module)>,
    name: Seq<char>,
    ovs: Seq<(String, i64)>,
    visited: Seq<Seq<char>>,
)
    ensures
        ff_rows(es, name, ovs, visited) matches Some(rows) ==> {
            &&& (rows.len() == 0 <==> (visited.contains(name) || lookup_module(es, name) is None))
            &&& rows.len() > 0 ==> rows[0].0 == name && 0 <= rows[0].1 <= rows[0].2
        },
{
    lemma_ff_rows_shape(es, name, ovs, visited);
}

// ─── top modules ─────────────────────────────────────────────────────────────

/// The top modules are exactly the modules of the design that no module
/// instantiates.
pub proof fn law_top_modules_are_the_unreferenced(es: Seq<(Seq<char>, Module)>, k: Seq<char>)
    ensures
        unreferenced_names(es, es.len() as int).contains(k) <==> (exists|i: int|
            0 <= i < es.len() && (#[trigger] es[i]).0 == k) && !is_referenced(es, k),
{
    lemma_unreferenced_prefix(es, es.len() as int, k);
}

proof fn lemma_unreferenced_prefix(es: Seq<(Seq<char>, Module)>, n: int, k: Seq<char>)
    requires
        0 <= n <= es.len(),
    ensures
        unreferenced_names(es, n).contains(k) <==> (exists|i: int| 0 <= i < n && (#[trigger] es[i]).0 == k)
            && !is_referenced(es, k),
    decreases n,
{
    if n > 0 {
        lemma_unreferenced_prefix(es, n - 1, k);
        let prev = unreferenced_names(es, n - 1);
        let e = es[n - 1].0;
        if !is_referenced(es, e) {
            assert(prev.push(e)[prev.len() as int] == e);
            if prev.contains(k) {
                let j = choose|j: int| 0 <= j < prev.len() && prev[j] == k;
                assert(prev.push(e)[j] == k);
            }
            if prev.push(e).contains(k) && k != e {
                let j = choose|j: int| 0 <= j < prev.len() + 1 && prev.push(e)[j] == k;
                assert(prev[j] == k);
            }
        }
        if exists|i: int| 0 <= i < n && (#[trigger] es[i]).0 == k {
            let i = choose|i: int| 0 <= i < n && (#[trigger] es[i]).0 == k;
            if i < n - 1 {
                assert(exists|i: int| 0 <= i < n - 1 && (#[trigger] es[i]).0 == k);
            }
        }
    }
}

// ─── the walk that builds modules ────────────────────────────────────────────

/// No two FF declarations of the list name the same signal.
pub open spec fn ff_names_distinct(ffs: Seq<FfDecl>) -> bool {
    forall|i: int, j: int|
        0 <= i < j < ffs.len() ==> (#[trigger] ffs[i]).signal_name@ != (#[trigger] ffs[j]).signal_name@
}

/// Every module of the entries has distinct FF names.
pub open spec fn all_ff_names_distinct(es: Seq<(Seq<char>, ModuleView)>) -> bool {
    forall|i: int| 0 <= i < es.len() ==> ff_names_distinct((#[trigger] es[i]).1.ff_decls)
}

pub open spec fn walk_ff_distinct(v: VisitorView) -> bool {
    v.current matches Some(m) ==> ff_names_distinct(m.ff_decls)
}

proof fn lemma_item_step_distinct(v: VisitorView, m: ModuleView, ev: VisitEvent)
    requires
        ff_names_distinct(m.ff_decls),
    ensures
        walk_ff_distinct(item_step(v, m, ev)) || item_step(v, m, ev).current == v.current,
{
    if let VisitEvent::NonblockingAssignment(Some(f)) = ev {
        if v.always.len() > 0 && v.always.last() && !has_ff_named(m.ff_decls, f.signal_name@) {
            let ffs = m.ff_decls.push(f);
            assert forall|i: int, j: int| 0 <= i < j < ffs.len() implies (#[trigger] ffs[i]).signal_name@
                != (#[trigger] ffs[j]).signal_name@ by {
                if j == ffs.len() - 1 {
                    assert(ffs[i] == m.ff_decls[i]);
                } else {
                    assert(ffs[i] == m.ff_decls[i] && ffs[j] == m.ff_decls[j]);
                }
            }
        }
    }
}

proof fn lemma_insert_distinct(es: Seq<(Seq<char>, ModuleView)>, k: Seq<char>, m: ModuleView)
    requires
        all_ff_names_distinct(es),
        ff_names_distinct(m.ff_decls),
    ensures
        all_ff_names_distinct(entries_insert(es, k, m)),
{
    lemma_entry_index_from(es, k, 0);
    let r = entries_insert(es, k, m);
    assert forall|i: int| 0 <= i < r.len() implies ff_names_distinct((#[trigger] r[i]).1.ff_decls) by {
        match entry_index(es, k) {
            Some(j) => {
                if i != j {
                    assert(r[i] == es[i]);
                }
            },
            None => {
                if i < es.len() {
                    assert(r[i] == es[i]);
                }
            },
        }
    }
}

proof fn lemma_step_distinct(v: VisitorView, es: Seq<(Seq<char>, ModuleView)>, ev: VisitEvent, file: PathBuf)
    requires
        walk_ff_distinct(v),
        all_ff_names_distinct(es),
    ensures
        walk_ff_distinct(step_spec(v, es, ev, file).0),
        all_ff_names_distinct(step_spec(v, es, ev, file).1),
{
    match ev {
        VisitEvent::EnterModule { ansi, name } => {
            let n = match name {
                Some(s) => s@,
                None => "<unknown>"@,
            };
            assert(ff_names_distinct(empty_module(n, file).ff_decls));
        },
        VisitEvent::LeaveModule => {
            if v.stack.len() == 1 && v.current is Some {
                lemma_insert_distinct(es, v.current->0.name, v.current->0);
            }
        },
        _ => {
            if v.stack.len() == 1 && v.current is Some {
                lemma_item_step_distinct(v, v.current->0, ev);
            }
        },
    }
}

proof fn lemma_run_distinct(v: VisitorView, es: Seq<(Seq<char>, ModuleView)>, evs: Seq<VisitEvent>, file: PathBuf)
    requires
        walk_ff_distinct(v),
        all_ff_names_distinct(es),
    ensures
        walk_ff_distinct(run_spec(v, es, evs, file).0),
        all_ff_names_distinct(run_spec(v, es, evs, file).1),
    decreases evs.len(),
{
    if evs.len() > 0 {
        lemma_run_distinct(v, es, evs.drop_last(), file);
        let (v1, es1) = run_spec(v, es, evs.drop_last(), file);
        lemma_step_distinct(v1, es1, evs.last(), file);
    }
}

/// A signal assigned in several clocked blocks is one FF: after a walk
/// over a file, no module of the design has two FF declarations for the
/// same signal (where none had before).
pub proof fn law_walk_keeps_ff_names_distinct(
    es: Seq<(Seq<char>, ModuleView)>,
    evs: Seq<VisitEvent>,
    file: PathBuf,
)
    requires
        all_ff_names_distinct(es),
    ensures
        all_ff_names_distinct(visit_spec(es, evs, file)),
{
    lemma_run_distinct(initial_visitor(), es, evs, file);
    let (v, es1) = run_spec(initial_visitor(), es, evs, file);
    if let Some(m) = v.current {
        lemma_insert_distinct(es1, m.name, m);
    }
}

/// Every entry is stored under its module's own name.
pub open spec fn keyed_by_name(es: Seq<(Seq<char>, ModuleView)>) -> bool {
    forall|i: int| 0 <= i < es.len() ==> (#[trigger] es[i]).0 == es[i].1.name
}

proof fn lemma_insert_keyed(es: Seq<(Seq<char>, ModuleView)>, m: ModuleView)
    requires
        keyed_by_name(es),
    ensures
        keyed_by_name(entries_insert(es, m.name, m)),
{
    lemma_entry_index_from(es, m.name, 0);
    let r = entries_insert(es, m.name, m);
    assert forall|i: int| 0 <= i < r.len() implies (#[trigger] r[i]).0 == r[i].1.name by {
        match entry_index(es, m.name) {
            Some(j) => {
                if i != j {
                    assert(r[i] == es[i]);
                }
            },
            None => {
                if i < es.len() {
                    assert(r[i] == es[i]);
                }
            },
        }
    }
}

proof fn lemma_run_keyed(v: VisitorView, es: Seq<(Seq<char>, ModuleView)>, evs: Seq<VisitEvent>, file: PathBuf)
    requires
        keyed_by_name(es),
    ensures
        keyed_by_name(run_spec(v, es, evs, file).1),
    decreases evs.len(),
{
    if evs.len() > 0 {
        lemma_run_keyed(v, es, evs.drop_last(), file);
        let (v1, es1) = run_spec(v, es, evs.drop_last(), file);
        if let VisitEvent::LeaveModule = evs.last() {
            if v1.stack.len() == 1 && v1.current is Some {
                lemma_insert_keyed(es1, v1.current->0);
            }
        }
    }
}

/// The design's module map stays keyed by module name: after a walk over a
/// file, every module is stored under its own name (where every module
/// was before).
pub proof fn law_walk_keys_modules_by_name(es: Seq<(Seq<char>, ModuleView)>, evs: Seq<VisitEvent>, file: PathBuf)
    requires
        keyed_by_name(es),
    ensures
        keyed_by_name(visit_spec(es, evs, file)),
{
    lemma_run_keyed(initial_visitor(), es, evs, file);
    let (v, es1) = run_spec(initial_visitor(), es, evs, file);
    if let Some(m) = v.current {
        lemma_insert_keyed(es1, m);
    }
}

/// No module of the entries has an FF declaration.
pub open spec fn no_ffs(es: Seq<(Seq<char>, ModuleView)>) -> bool {
    forall|i: int| 0 <= i < es.len() ==> (#[trigger] es[i]).1.ff_decls.len() == 0
}

/// No open block is clocked, and the module being built has no FF.
pub open spec fn walk_without_ffs(v: VisitorView) -> bool {
    &&& forall|i: int| 0 <= i < v.always.len() ==> !(#[trigger] v.always[i])
    &&& v.current matches Some(m) ==> m.ff_decls.len() == 0
}

proof fn lemma_insert_no_ffs(es: Seq<(Seq<char>, ModuleView)>, k: Seq<char>, m: ModuleView)
    requires
        no_ffs(es),
        m.ff_decls.len() == 0,
    ensures
        no_ffs(entries_insert(es, k, m)),
{
    lemma_entry_index_from(es, k, 0);
    let r = entries_insert(es, k, m);
    assert forall|i: int| 0 <= i < r.len() implies (#[trigger] r[i]).1.ff_decls.len() == 0 by {
        match entry_index(es, k) {
            Some(j) => {
                if i != j {
                    assert(r[i] == es[i]);
                }
            },
            None => {
                if i < es.len() {
                    assert(r[i] == es[i]);
                }
            },
        }
    }
}

proof fn lemma_run_no_ffs(v: VisitorView, es: Seq<(Seq<char>, ModuleView)>, evs: Seq<VisitEvent>, file: PathBuf)
    requires
        walk_without_ffs(v),
        no_ffs(es),
        forall|i: int| 0 <= i < evs.len() ==> !(#[trigger] evs[i] matches VisitEvent::EnterAlways(true)),
    ensures
        walk_without_ffs(run_spec(v, es, evs, file).0),
        no_ffs(run_spec(v, es, evs, file).1),
    decreases evs.len(),
{
    if evs.len() > 0 {
        assert forall|i: int| 0 <= i < evs.drop_last().len() implies !(#[trigger] evs.drop_last()[i] matches VisitEvent::EnterAlways(true)) by {
            assert(evs.drop_last()[i] == evs[i]);
        }
        lemma_run_no_ffs(v, es, evs.drop_last(), file);
        let (v1, es1) = run_spec(v, es, evs.drop_last(), file);
        let ev = evs.last();
        assert(!(evs[evs.len() - 1] matches VisitEvent::EnterAlways(true)));
        match ev {
            VisitEvent::LeaveModule => {
                if v1.stack.len() == 1 && v1.current is Some {
                    lemma_insert_no_ffs(es1, v1.current->0.name, v1.current->0);
                }
            },
            VisitEvent::EnterAlways(c) => {
                let v2 = step_spec(v1, es1, ev, file).0;
                if v1.stack.len() == 1 && v1.current is Some {
                    assert forall|i: int| 0 <= i < v2.always.len() implies !(#[trigger] v2.always[i]) by {
                        if i < v1.always.len() {
                            assert(v2.always[i] == v1.always[i]);
                        }
                    }
                }
            },
            VisitEvent::LeaveAlways => {
                let v2 = step_spec(v1, es1, ev, file).0;
                if v1.stack.len() == 1 && v1.current is Some && v1.always.len() > 0 {
                    assert forall|i: int| 0 <= i < v2.always.len() implies !(#[trigger] v2.always[i]) by {
                        assert(v2.always[i] == v1.always[i]);
                    }
                }
            },
            VisitEvent::NonblockingAssignment(f) => {
                if v1.always.len() > 0 {
                    assert(!v1.always[v1.always.len() - 1]);
                }
            },
            _ => {},
        }
    }
}

/// Only clocked blocks give flip-flops: after a walk in which no clocked
/// block opens, no module has an FF declaration (where none had before).
pub proof fn law_no_clocked_block_no_ffs(es: Seq<(Seq<char>, ModuleView)>, evs: Seq<VisitEvent>, file: PathBuf)
    requires
        no_ffs(es),
        forall|i: int| 0 <= i < evs.len() ==> !(#[trigger] evs[i] matches VisitEvent::EnterAlways(true)),
    ensures
        no_ffs(visit_spec(es, evs, file)),
{
    lemma_run_no_ffs(initial_visitor(), es, evs, file);
    let (v, es1) = run_spec(initial_visitor(), es, evs, file);
    if let Some(m) = v.current {
        lemma_insert_no_ffs(es1, m.name, m);
    }
}

// ─── parameter environments and -D arguments ────────────────────────────────

/// An override replaces a parameter's value: after the overrides, a name
/// has the value of its last override.
pub proof fn law_last_override_wins(m: Map<Seq<char>, i64>, ovs: Seq<(String, i64)>, i: int, k: Seq<char>)
    requires
        0 <= i < ovs.len(),
        ovs[i].0@ == k,
        forall|j: int| i < j < ovs.len() ==> (#[trigger] ovs[j]).0@ != k,
    ensures
        overridden(m, ovs).contains_key(k),
        overridden(m, ovs)[k] == ovs[i].1,
    decreases ovs.len(),
{
    if i < ovs.len() - 1 {
        assert forall|j: int| i < j < ovs.drop_last().len() implies (#[trigger] ovs.drop_last()[j]).0@ != k by {
            assert(ovs.drop_last()[j] == ovs[j]);
        }
        law_last_override_wins(m, ovs.drop_last(), i, k);
    }
}

/// A name without an override keeps the value it had, or stays unbound.
pub proof fn law_override_keeps_others(m: Map<Seq<char>, i64>, ovs: Seq<(String, i64)>, k: Seq<char>)
    requires
        forall|i: int| 0 <= i < ovs.len() ==> (#[trigger] ovs[i]).0@ != k,
    ensures
        overridden(m, ovs).contains_key(k) == m.contains_key(k),
        m.contains_key(k) ==> overridden(m, ovs)[k] == m[k],
    decreases ovs.len(),
{
    if ovs.len() > 0 {
        assert forall|i: int| 0 <= i < ovs.drop_last().len() implies (#[trigger] ovs.drop_last()[i]).0@ != k by {
            assert(ovs.drop_last()[i] == ovs[i]);
        }
        law_override_keeps_others(m, ovs.drop_last(), k);
        assert(ovs[ovs.len() - 1].0@ != k);
    }
}

/// A parameter environment gives back what was last bound: after binding
/// `k` to `v`, `k` reads `v` and every other name reads what it read
/// before.
pub proof fn law_read_after_bind(m: Map<Seq<char>, i64>, k: Seq<char>, v: i64, other: Seq<char>)
    requires
        other != k,
    ensures
        m.insert(k, v).contains_key(k),
        m.insert(k, v)[k] == v,
        m.insert(k, v).contains_key(other) == m.contains_key(other),
        m.contains_key(other) ==> m.insert(k, v)[other] == m[other],
{
}

/// `-D NAME=VALUE` splits into the name and the value, at the first `=`;
/// `-D NAME` without `=` is the name and no value.
pub proof fn law_define_split(name: Seq<char>, value: Seq<char>)
    requires
        forall|i: int| 0 <= i < name.len() ==> name[i] != '=',
    ensures
        define_parts(name + "="@ + value) == (name, Some(value)),
        define_parts(name) == (name, None::<Seq<char>>),
{
    reveal_strlit("=");
    let d = name + "="@ + value;
    assert(d[name.len() as int] == '=');
    assert forall|k: int| 0 <= k < name.len() implies d[k] != '=' by {
        assert(d[k] == name[k]);
    }
    lemma_find_char_first(d, '=', name.len() as int, 0);
    assert(d.take(name.len() as int) =~= name);
    assert(d.skip(name.len() as int + 1) =~= value);
    lemma_find_char_none(name, '=', 0);
}

// ─── the instance hierarchy ─────────────────────────────────────────────────

/// Whether module `m` is that of line `p` or of one of its ancestors.
pub open spec fn on_path(vs: Seq<HierVisitView>, p: int, m: Seq<char>) -> bool
    decreases p,
{
    if p < 0 || p >= vs.len() {
        false
    } else if vs[p].module == m {
        true
    } else {
        match vs[p].parent {
            Some(q) => if 0 <= q < p {
                on_path(vs, q, m)
            } else {
                false
            },
            None => false,
        }
    }
}

/// Line `i` hangs one level below an earlier line, and is marked circular
/// exactly when its module is already on the path down to it.
pub open spec fn tree_line_ok(vs: Seq<HierVisitView>, i: int) -> bool {
    &&& vs[i].parent matches Some(p)
    &&& 0 <= vs[i].parent->0 < i
    &&& vs[vs[i].parent->0].depth + 1 == vs[i].depth
    &&& vs[i].circular <==> on_path(vs, vs[i].parent->0, vs[i].module)
}

pub open spec fn lines_ok_from(vs: Seq<HierVisitView>, s: int) -> bool {
    forall|i: int| s <= i < vs.len() ==> tree_line_ok(vs, i)
}

proof fn lemma_on_path_prefix(a: Seq<HierVisitView>, c: Seq<HierVisitView>, p: int, m: Seq<char>)
    requires
        p < a.len(),
    ensures
        on_path(a + c, p, m) == on_path(a, p, m),
    decreases p,
{
    if 0 <= p {
        assert((a + c)[p] == a[p]);
        if let Some(q) = a[p].parent {
            if 0 <= q < p {
                lemma_on_path_prefix(a, c, q, m);
            }
        }
    }
}

proof fn lemma_lines_ok_prefix(a: Seq<HierVisitView>, c: Seq<HierVisitView>, s: int)
    requires
        lines_ok_from(a, s),
    ensures
        forall|i: int| s <= i < a.len() ==> tree_line_ok(a + c, i),
{
    assert forall|i: int| s <= i < a.len() implies tree_line_ok(a + c, i) by {
        assert(tree_line_ok(a, i));
        let p = a[i].parent->0;
        assert((a + c)[i] == a[i]);
        assert((a + c)[p] == a[p]);
        lemma_on_path_prefix(a, c, p, a[i].module);
    }
}

proof fn lemma_module_visits_tree(
    es: Seq<(Seq<char>, Module)>,
    m: Seq<char>,
    visited: Seq<Seq<char>>,
    depth: nat,
    cp: Seq<char>,
    at: int,
    pre: Seq<HierVisitView>,
)
    requires
        pre.len() == at + 1,
        0 <= at,
        pre[at].depth == depth,
        forall|x: Seq<char>| #[trigger] visited.contains(x) <==> on_path(pre, at, x),
    ensures
        lines_ok_from(pre + module_visits(es, m, visited, depth, cp, at), at + 1),
    decreases unvisited(es, visited), 2int, 0int,
{
    match lookup_module(es, m) {
        None => {
            assert(pre + module_visits(es, m, visited, depth, cp, at) =~= pre);
        },
        Some(md) => {
            lemma_instance_visits_tree(es, md.instances@, visited, depth, cp, at, md.instances@.len() as int, pre);
        },
    }
}

proof fn lemma_instance_visits_tree(
    es: Seq<(Seq<char>, Module)>,
    insts: Seq<crate::design::Instance>,
    visited: Seq<Seq<char>>,
    depth: nat,
    cp: Seq<char>,
    at: int,
    k: int,
    pre: Seq<HierVisitView>,
)
    requires
        pre.len() == at + 1,
        0 <= at,
        k <= insts.len(),
        pre[at].depth == depth,
        forall|x: Seq<char>| #[trigger] visited.contains(x) <==> on_path(pre, at, x),
    ensures
        lines_ok_from(pre + instance_visits(es, insts, visited, depth, cp, at, k), at + 1),
    decreases unvisited(es, visited), 1int, k,
{
    if k <= 0 {
        assert(pre + instance_visits(es, insts, visited, depth, cp, at, k) =~= pre);
    } else {
        let prev = instance_visits(es, insts, visited, depth, cp, at, k - 1);
        lemma_instance_visits_tree(es, insts, visited, depth, cp, at, k - 1, pre);
        let r = insts[k - 1].module_ref@;
        let last = k == insts.len();
        let circular = visited.contains(r);
        let v = HierVisitView {
            depth: depth + 1,
            parent: Some(at),
            instance: insts[k - 1].inst_name@,
            module: r,
            last,
            circular,
            prefix: cp,
        };
        let here = at + 1 + prev.len();
        let pre2 = pre + prev.push(v);
        assert(pre2 =~= (pre + prev).push(v));
        assert(pre2[here] == v);
        assert(pre2[at] == pre[at]);
        lemma_on_path_prefix(pre, prev.push(v), at, r);
        lemma_lines_ok_prefix(pre + prev, seq![v], at + 1);
        assert((pre + prev) + seq![v] =~= pre2);
        assert(lines_ok_from(pre2, at + 1));
        if circular || lookup_module(es, r) is None {
            assert(pre + instance_visits(es, insts, visited, depth, cp, at, k) =~= pre2);
        } else {
            lemma_lookup_present(es, r);
            lemma_unvisited_push(es, visited, r);
            let vis2 = visited.push(r);
            assert forall|x: Seq<char>| #[trigger] vis2.contains(x) <==> on_path(pre2, here, x) by {
                lemma_on_path_prefix(pre, prev.push(v), at, x);
                if vis2.contains(x) && x != r {
                    let j = choose|j: int| 0 <= j < vis2.len() && vis2[j] == x;
                    assert(visited[j] == x);
                }
                if visited.contains(x) {
                    let j = choose|j: int| 0 <= j < visited.len() && visited[j] == x;
                    assert(vis2[j] == x);
                }
                if x == r {
                    assert(vis2[visited.len() as int] == r);
                }
            }
            let sub = module_visits(es, r, vis2, depth + 1, child_prefix(cp, last), here);
            lemma_module_visits_tree(es, r, vis2, depth + 1, child_prefix(cp, last), here, pre2);
            lemma_lines_ok_prefix(pre2, sub, at + 1);
            assert(pre + instance_visits(es, insts, visited, depth, cp, at, k) =~= pre2 + sub);
        }
    }
}

/// The hierarchy lines form a tree cut at cycles: the first line is the top
/// module at depth 0, every other line hangs one level below an earlier
/// line, and a line is marked circular, and not expanded, exactly when its
/// module is already on the path from the top down to it.
pub proof fn law_hierarchy_is_a_tree_cut_at_cycles(es: Seq<(Seq<char>, Module)>, top: Seq<char>)
    ensures
        hierarchy_visits(es, top).len() >= 1,
        hierarchy_visits(es, top)[0].depth == 0,
        hierarchy_visits(es, top)[0].parent is None,
        hierarchy_visits(es, top)[0].module == top,
        forall|i: int| 1 <= i < hierarchy_visits(es, top).len() ==> tree_line_ok(hierarchy_visits(es, top), i),
{
    let root = HierVisitView {
        depth: 0,
        parent: None,
        instance: top,
        module: top,
        last: true,
        circular: false,
        prefix: Seq::empty(),
    };
    let pre = seq![root];
    assert forall|x: Seq<char>| #[trigger] seq![top].contains(x) <==> on_path(pre, 0, x) by {
        if x == top {
            assert(seq![top][0] == top);
        }
    }
    lemma_module_visits_tree(es, top, seq![top], 0, child_prefix(Seq::empty(), true), 0, pre);
}

// ─── constant expressions ───────────────────────────────────────────────────

/// A SystemVerilog simple identifier in ASCII: a letter or `_`, then
/// letters, digits and `_`.
pub open spec fn is_identifier(s: Seq<char>) -> bool {
    &&& s.len() > 0
    &&& is_ascii_alpha(s[0]) || s[0] == '_'
    &&& forall|i: int| 0 <= i < s.len() ==> is_ascii_alnum(#[trigger] s[i]) || s[i] == '_'
}

proof fn lemma_identifier_word_end(s: Seq<char>, flags: Seq<bool>, i: int)
    requires
        is_identifier(s),
        0 <= i <= s.len(),
    ensures
        word_end(s, flags, i) == s.len(),
    decreases s.len() - i,
{
    if i < s.len() {
        assert(is_ascii_alnum(s[i]) || s[i] == '_');
        lemma_identifier_word_end(s, flags, i + 1);
    }
}

/// A parameter's name, as a whole expression, evaluates to the parameter's
/// value; a name without a value makes the expression unresolvable.
pub proof fn law_parameter_name_evaluates_to_its_value(name: Seq<char>, env: Map<Seq<char>, i64>)
    requires
        is_identifier(name),
    ensures
        expr_evaluation(name, env) == (if env.contains_key(name) {
            Evaluation::Value(env[name])
        } else {
            Evaluation::Undefined
        }),
{
    assert(is_ascii_seq(name)) by {
        assert forall|i: int| 0 <= i < name.len() implies is_ascii_char(#[trigger] name[i]) by {
            assert(is_ascii_alnum(name[i]) || name[i] == '_');
        }
    }
    let last = name.len() - 1;
    assert(is_ascii_alnum(name[last]) || name[last] == '_');
    assert(trim_start_ascii(name) == name);
    assert(trim_end_ascii(name) == name);
    assert(trimmed(name) == name);
    let flags = alnum_flags(name);
    lemma_identifier_word_end(name, flags, 0);
    assert(name.subrange(0, name.len() as int) =~= name);
    let ts = seq![Token::Ident(name)];
    assert(lex(name, flags, name.len() as int) == Some(Seq::<TokenView>::empty()));
    assert(lex(name, flags, 0) == Some(ts)) by {
        assert(seq![Token::Ident(name)] + Seq::<TokenView>::empty() =~= ts);
    }
    assert(expr_tokens(name) == Some(ts));
    lemma_primary(ts, env, 0);
    lemma_unary(ts, env, 0);
    lemma_power(ts, env, 0);
    lemma_mul_expr(ts, env, 0);
    lemma_add_expr(ts, env, 0);
    lemma_shift_expr(ts, env, 0);
    lemma_and_expr(ts, env, 0);
    lemma_xor_expr(ts, env, 0);
    lemma_or_expr(ts, env, 0);
    if env.contains_key(name) {
        let v = env[name];
        lemma_mul_tail(ts, env, 1, v);
        lemma_add_tail(ts, env, 1, v);
        lemma_shift_tail(ts, env, 1, v);
        lemma_and_tail(ts, env, 1, v);
        lemma_xor_tail(ts, env, 1, v);
        lemma_or_tail(ts, env, 1, v);
        lemma_compare_tail(ts, env, 1, v);
    }
}

/// Parameters are evaluated in order, each seeing the ones before it: a
/// parameter whose value names an earlier parameter takes that
/// parameter's value, and is left out where the name has none.
pub proof fn law_parameter_sees_earlier_ones(ps: Seq<ParamDecl>, p: ParamDecl)
    requires
        declared_env(ps) is Some,
        is_identifier(p.value@),
    ensures
        ({
            let m = declared_env(ps)->0;
            declared_env(ps.push(p)) == Some(
                if m.contains_key(p.value@) {
                    m.insert(p.name@, m[p.value@])
                } else {
                    m
                },
            )
        }),
{
    let m = declared_env(ps)->0;
    assert(ps.push(p).drop_last() =~= ps);
    law_parameter_name_evaluates_to_its_value(p.value@, m);
    let last = p.value@.len() - 1;
    assert(is_ascii_alnum(p.value@[last]) || p.value@[last] == '_');
    assert(is_ascii_seq(p.value@)) by {
        assert forall|i: int| 0 <= i < p.value@.len() implies is_ascii_char(#[trigger] p.value@[i]) by {
            assert(is_ascii_alnum(p.value@[i]) || p.value@[i] == '_');
        }
    }
    assert(trimmed(p.value@) == p.value@);
}

// ─── parentheses ────────────────────────────────────────────────────────────

/// Where a parse of the window `t` succeeds, the parse of the same place in
/// the whole sequence succeeds with the same value, at the same place
/// shifted by the window's start.
pub open spec fn framed(in_window: Parsed, in_whole: Parsed, a: int, len: int) -> bool {
    in_window matches Parsed::Done(v, q) ==> q <= len && in_whole == Parsed::Done(v, q + a)
}

proof fn frame_mul_expr(ts: Seq<TokenView>, t: Seq<TokenView>, a: int, b: int, env: Map<Seq<char>, i64>, p: int)
    requires
        0 <= a <= p <= b < ts.len(),
        ts[b] is RParen,
        t == ts.subrange(a, b),
    ensures
        framed(mul_expr(t, env, p - a), mul_expr(ts, env, p), a, t.len() as int),
    decreases t.len() - (p - a), 3int,
{
    lemma_mul_expr(t, env, p - a);
    lemma_mul_expr(ts, env, p);
    frame_power(ts, t, a, b, env, p);
    if let Parsed::Done(v, q) = power(t, env, p - a) {
        if advances(t.len() as int, p - a, q) {
            frame_mul_tail(ts, t, a, b, env, q + a, v);
        }
    }
}

proof fn frame_add_expr(ts: Seq<TokenView>, t: Seq<TokenView>, a: int, b: int, env: Map<Seq<char>, i64>, p: int)
    requires
        0 <= a <= p <= b < ts.len(),
        ts[b] is RParen,
        t == ts.subrange(a, b),
    ensures
        framed(add_expr(t, env, p - a), add_expr(ts, env, p), a, t.len() as int),
    decreases t.len() - (p - a), 5int,
{
    lemma_add_expr(t, env, p - a);
    lemma_add_expr(ts, env, p);
    frame_mul_expr(ts, t, a, b, env, p);
    if let Parsed::Done(v, q) = mul_expr(t, env, p - a) {
        if advances(t.len() as int, p - a, q) {
            frame_add_tail(ts, t, a, b, env, q + a, v);
        }
    }
}

proof fn frame_shift_expr(ts: Seq<TokenView>, t: Seq<TokenView>, a: int, b: int, env: Map<Seq<char>, i64>, p: int)
    requires
        0 <= a <= p <= b < ts.len(),
        ts[b] is RParen,
        t == ts.subrange(a, b),
    ensures
        framed(shift_expr(t, env, p - a), shift_expr(ts, env, p), a, t.len() as int),
    decreases t.len() - (p - a), 7int,
{
    lemma_shift_expr(t, env, p - a);
    lemma_shift_expr(ts, env, p);
    frame_add_expr(ts, t, a, b, env, p);
    if let Parsed::Done(v, q) = add_expr(t, env, p - a) {
        if advances(t.len() as int, p - a, q) {
            frame_shift_tail(ts, t, a, b, env, q + a, v);
        }
    }
}

proof fn frame_and_expr(ts: Seq<TokenView>, t: Seq<TokenView>, a: int, b: int, env: Map<Seq<char>, i64>, p: int)
    requires
        0 <= a <= p <= b < ts.len(),
        ts[b] is RParen,
        t == ts.subrange(a, b),
    ensures
        framed(and_expr(t, env, p - a), and_expr(ts, env, p), a, t.len() as int),
    decreases t.len() - (p - a), 9int,
{
    lemma_and_expr(t, env, p - a);
    lemma_and_expr(ts, env, p);
    frame_shift_expr(ts, t, a, b, env, p);
    if let Parsed::Done(v, q) = shift_expr(t, env, p - a) {
        if advances(t.len() as int, p - a, q) {
            frame_and_tail(ts, t, a, b, env, q + a, v);
        }
    }
}

proof fn frame_xor_expr(ts: Seq<TokenView>, t: Seq<TokenView>, a: int, b: int, env: Map<Seq<char>, i64>, p: int)
    requires
        0 <= a <= p <= b < ts.len(),
        ts[b] is RParen,
        t == ts.subrange(a, b),
    ensures
        framed(xor_expr(t, env, p - a), xor_expr(ts, env, p), a, t.len() as int),
    decreases t.len() - (p - a), 11int,
{
    lemma_xor_expr(t, env, p - a);
    lemma_xor_expr(ts, env, p);
    frame_and_expr(ts, t, a, b, env, p);
    if let Parsed::Done(v, q) = and_expr(t, env, p - a) {
        if advances(t.len() as int, p - a, q) {
            frame_xor_tail(ts, t, a, b, env, q + a, v);
        }
    }
}

proof fn frame_or_expr(ts: Seq<TokenView>, t: Seq<TokenView>, a: int, b: int, env: Map<Seq<char>, i64>, p: int)
    requires
        0 <= a <= p <= b < ts.len(),
        ts[b] is RParen,
        t == ts.subrange(a, b),
    ensures
        framed(or_expr(t, env, p - a), or_expr(ts, env, p), a, t.len() as int),
    decreases t.len() - (p - a), 13int,
{
    lemma_or_expr(t, env, p - a);
    lemma_or_expr(ts, env, p);
    frame_xor_expr(ts, t, a, b, env, p);
    if let Parsed::Done(v, q) = xor_expr(t, env, p - a) {
        if advances(t.len() as int, p - a, q) {
            frame_or_tail(ts, t, a, b, env, q + a, v);
        }
    }
}

proof fn frame_mul_tail(ts: Seq<TokenView>, t: Seq<TokenView>, a: int, b: int, env: Map<Seq<char>, i64>, p: int, acc: i64)
    requires
        0 <= a <= p <= b < ts.len(),
        ts[b] is RParen,
        t == ts.subrange(a, b),
    ensures
        framed(mul_tail(t, env, p - a, acc), mul_tail(ts, env, p, acc), a, t.len() as int),
    decreases t.len() - (p - a), 4int,
{
    lemma_mul_tail(t, env, p - a, acc);
    lemma_mul_tail(ts, env, p, acc);
    if p < b {
        assert(ts[p] == t[p - a]);
        if t[p - a] is Star || t[p - a] is Slash || t[p - a] is Percent {
            frame_power(ts, t, a, b, env, p + 1);
            if let Parsed::Done(v, q) = power(t, env, p - a + 1) {
                if advances(t.len() as int, p - a, q) {
                    frame_mul_tail(ts, t, a, b, env, q + a, checked_mul(acc, v)->0);
                    frame_mul_tail(ts, t, a, b, env, q + a, acc.checked_div(v)->0);
                    frame_mul_tail(ts, t, a, b, env, q + a, acc.checked_rem(v)->0);
                }
            }
        }
    }
}

proof fn frame_add_tail(ts: Seq<TokenView>, t: Seq<TokenView>, a: int, b: int, env: Map<Seq<char>, i64>, p: int, acc: i64)
    requires
        0 <= a <= p <= b < ts.len(),
        ts[b] is RParen,
        t == ts.subrange(a, b),
    ensures
        framed(add_tail(t, env, p - a, acc), add_tail(ts, env, p, acc), a, t.len() as int),
    decreases t.len() - (p - a), 6int,
{
    lemma_add_tail(t, env, p - a, acc);
    lemma_add_tail(ts, env, p, acc);
    if p < b {
        assert(ts[p] == t[p - a]);
        if t[p - a] is Plus || t[p - a] is Minus {
            frame_mul_expr(ts, t, a, b, env, p + 1);
            if let Parsed::Done(v, q) = mul_expr(t, env, p - a + 1) {
                if advances(t.len() as int, p - a, q) {
                    frame_add_tail(ts, t, a, b, env, q + a, checked_add(acc, v)->0);
                    frame_add_tail(ts, t, a, b, env, q + a, checked_sub(acc, v)->0);
                }
            }
        }
    }
}

proof fn frame_shift_tail(ts: Seq<TokenView>, t: Seq<TokenView>, a: int, b: int, env: Map<Seq<char>, i64>, p: int, acc: i64)
    requires
        0 <= a <= p <= b < ts.len(),
        ts[b] is RParen,
        t == ts.subrange(a, b),
    ensures
        framed(shift_tail(t, env, p - a, acc), shift_tail(ts, env, p, acc), a, t.len() as int),
    decreases t.len() - (p - a), 8int,
{
    lemma_shift_tail(t, env, p - a, acc);
    lemma_shift_tail(ts, env, p, acc);
    if p < b {
        assert(ts[p] == t[p - a]);
        if t[p - a] is LShift || t[p - a] is RShift {
            frame_add_expr(ts, t, a, b, env, p + 1);
            if let Parsed::Done(v, q) = add_expr(t, env, p - a + 1) {
                if advances(t.len() as int, p - a, q) {
                    frame_shift_tail(ts, t, a, b, env, q + a, acc << shift_amount(v));
                    frame_shift_tail(ts, t, a, b, env, q + a, acc >> shift_amount(v));
                }
            }
        }
    }
}

proof fn frame_and_tail(ts: Seq<TokenView>, t: Seq<TokenView>, a: int, b: int, env: Map<Seq<char>, i64>, p: int, acc: i64)
    requires
        0 <= a <= p <= b < ts.len(),
        ts[b] is RParen,
        t == ts.subrange(a, b),
    ensures
        framed(and_tail(t, env, p - a, acc), and_tail(ts, env, p, acc), a, t.len() as int),
    decreases t.len() - (p - a), 10int,
{
    lemma_and_tail(t, env, p - a, acc);
    lemma_and_tail(ts, env, p, acc);
    if p < b {
        assert(ts[p] == t[p - a]);
        if t[p - a] is Amp {
            frame_shift_expr(ts, t, a, b, env, p + 1);
            if let Parsed::Done(v, q) = shift_expr(t, env, p - a + 1) {
                if advances(t.len() as int, p - a, q) {
                    frame_and_tail(ts, t, a, b, env, q + a, acc & v);
                }
            }
        }
    }
}

proof fn frame_xor_tail(ts: Seq<TokenView>, t: Seq<TokenView>, a: int, b: int, env: Map<Seq<char>, i64>, p: int, acc: i64)
    requires
        0 <= a <= p <= b < ts.len(),
        ts[b] is RParen,
        t == ts.subrange(a, b),
    ensures
        framed(xor_tail(t, env, p - a, acc), xor_tail(ts, env, p, acc), a, t.len() as int),
    decreases t.len() - (p - a), 12int,
{
    lemma_xor_tail(t, env, p - a, acc);
    lemma_xor_tail(ts, env, p, acc);
    if p < b {
        assert(ts[p] == t[p - a]);
        if t[p - a] is Caret {
            frame_and_expr(ts, t, a, b, env, p + 1);
            if let Parsed::Done(v, q) = and_expr(t, env, p - a + 1) {
                if advances(t.len() as int, p - a, q) {
                    frame_xor_tail(ts, t, a, b, env, q + a, acc ^ v);
                }
            }
        }
    }
}

proof fn frame_or_tail(ts: Seq<TokenView>, t: Seq<TokenView>, a: int, b: int, env: Map<Seq<char>, i64>, p: int, acc: i64)
    requires
        0 <= a <= p <= b < ts.len(),
        ts[b] is RParen,
        t == ts.subrange(a, b),
    ensures
        framed(or_tail(t, env, p - a, acc), or_tail(ts, env, p, acc), a, t.len() as int),
    decreases t.len() - (p - a), 14int,
{
    lemma_or_tail(t, env, p - a, acc);
    lemma_or_tail(ts, env, p, acc);
    if p < b {
        assert(ts[p] == t[p - a]);
        if t[p - a] is Pipe {
            frame_xor_expr(ts, t, a, b, env, p + 1);
            if let Parsed::Done(v, q) = xor_expr(t, env, p - a + 1) {
                if advances(t.len() as int, p - a, q) {
                    frame_or_tail(ts, t, a, b, env, q + a, acc | v);
                }
            }
        }
    }
}

proof fn frame_power(ts: Seq<TokenView>, t: Seq<TokenView>, a: int, b: int, env: Map<Seq<char>, i64>, p: int)
    requires
        0 <= a <= p <= b < ts.len(),
        ts[b] is RParen,
        t == ts.subrange(a, b),
    ensures
        framed(power(t, env, p - a), power(ts, env, p), a, t.len() as int),
    decreases t.len() - (p - a), 2int,
{
    lemma_power(t, env, p - a);
    lemma_power(ts, env, p);
    frame_unary(ts, t, a, b, env, p);
    if let Parsed::Done(x, q) = unary(t, env, p - a) {
        if advances(t.len() as int, p - a, q) && q < t.len() {
            assert(ts[q + a] == t[q]);
            if t[q] is Power {
                frame_unary(ts, t, a, b, env, q + a + 1);
            }
        }
    }
}

proof fn frame_unary(ts: Seq<TokenView>, t: Seq<TokenView>, a: int, b: int, env: Map<Seq<char>, i64>, p: int)
    requires
        0 <= a <= p <= b < ts.len(),
        ts[b] is RParen,
        t == ts.subrange(a, b),
    ensures
        framed(unary(t, env, p - a), unary(ts, env, p), a, t.len() as int),
    decreases t.len() - (p - a), 1int,
{
    lemma_unary(t, env, p - a);
    lemma_unary(ts, env, p);
    if p < b {
        assert(ts[p] == t[p - a]);
        if t[p - a] is Minus || t[p - a] is Tilde {
            frame_unary(ts, t, a, b, env, p + 1);
        }
    }
    frame_primary(ts, t, a, b, env, p);
}

proof fn frame_primary(ts: Seq<TokenView>, t: Seq<TokenView>, a: int, b: int, env: Map<Seq<char>, i64>, p: int)
    requires
        0 <= a <= p <= b < ts.len(),
        ts[b] is RParen,
        t == ts.subrange(a, b),
    ensures
        framed(primary(t, env, p - a), primary(ts, env, p), a, t.len() as int),
    decreases t.len() - (p - a), 0int,
{
    lemma_primary(t, env, p - a);
    lemma_primary(ts, env, p);
    if p < b {
        assert(ts[p] == t[p - a]);
        if p + 1 < b {
            assert(ts[p + 1] == t[p - a + 1]);
        }
        frame_or_expr(ts, t, a, b, env, p + 1);
        if let Parsed::Done(x, q) = or_expr(t, env, p - a + 1) {
            if 0 <= q < t.len() {
                assert(ts[q + a] == t[q]);
            }
        }
        if p + 2 <= b {
            frame_or_expr(ts, t, a, b, env, p + 2);
            if let Parsed::Done(x, q) = or_expr(t, env, p - a + 2) {
                if 0 <= q < t.len() {
                    assert(ts[q + a] == t[q]);
                }
            }
        }
    }
}

proof fn lemma_or_tail_moves_on(t: Seq<TokenView>, env: Map<Seq<char>, i64>, p: int, acc: i64)
    ensures
        or_tail(t, env, p, acc) matches Parsed::Done(v, q) ==> q >= p,
    decreases t.len() - p,
{
    lemma_or_tail(t, env, p, acc);
    if 0 <= p < t.len() && t[p] is Pipe {
        if let Parsed::Done(v, q) = xor_expr(t, env, p + 1) {
            if advances(t.len() as int, p, q) {
                lemma_or_tail_moves_on(t, env, q, acc | v);
            }
        }
    }
}

/// Parentheses keep an expression's value: tokens that form one expression
/// below the comparisons (every `|`-level expression, which takes all of
/// them) evaluate, in parentheses, to what they evaluate to alone. (A
/// comparison in parentheses is not read at all, as the grammar puts a
/// parenthesis at the `|` level.)
pub proof fn law_parentheses_keep_the_value(t: Seq<TokenView>, env: Map<Seq<char>, i64>, v: i64)
    requires
        or_expr(t, env, 0) == Parsed::Done(v, t.len() as int),
    ensures
        eval_tokens(t, env) == Evaluation::Value(v),
        eval_tokens(seq![Token::LParen] + t + seq![Token::RParen], env) == Evaluation::Value(v),
{
    let ts = seq![Token::LParen] + t + seq![Token::RParen];
    let b = t.len() as int + 1;
    assert(ts.subrange(1, b) =~= t);
    assert(ts[b] == Token::<Seq<char>>::RParen);
    assert(ts[0] == Token::<Seq<char>>::LParen);
    frame_or_expr(ts, t, 1, b, env, 1);
    assert(or_expr(ts, env, 1) == Parsed::Done(v, b));
    // alone
    lemma_or_expr(t, env, 0);
    if let Parsed::Done(x, q) = xor_expr(t, env, 0) {
        if advances(t.len() as int, 0, q) {
            lemma_or_tail_moves_on(t, env, q, x);
        }
    }
    lemma_compare_tail(t, env, t.len() as int, v);
    // in parentheses
    let n = ts.len() as int;
    lemma_primary(ts, env, 0);
    lemma_unary(ts, env, 0);
    lemma_power(ts, env, 0);
    lemma_mul_expr(ts, env, 0);
    lemma_add_expr(ts, env, 0);
    lemma_shift_expr(ts, env, 0);
    lemma_and_expr(ts, env, 0);
    lemma_xor_expr(ts, env, 0);
    lemma_or_expr(ts, env, 0);
    lemma_mul_tail(ts, env, n, v);
    lemma_add_tail(ts, env, n, v);
    lemma_shift_tail(ts, env, n, v);
    lemma_and_tail(ts, env, n, v);
    lemma_xor_tail(ts, env, n, v);
    lemma_or_tail(ts, env, n, v);
    lemma_compare_tail(ts, env, n, v);
}

// ─── the FF hierarchy and the instance hierarchy ─────────────────────────────

/// The modules of the hierarchy lines that are expanded: not circular, and
/// in the design.
pub open spec fn expanded_modules(es: Seq<(Seq<char>, Module)>, vs: Seq<HierVisitView>) -> Seq<Seq<char>>
    decreases vs.len(),
{
    if vs.len() == 0 {
        Seq::empty()
    } else {
        let prev = expanded_modules(es, vs.drop_last());
        let v = vs.last();
        if !v.circular && lookup_module(es, v.module) is Some {
            prev.push(v.module)
        } else {
            prev
        }
    }
}

pub open spec fn row_modules(rows: Seq<FfRowView>) -> Seq<Seq<char>> {
    rows.map_values(|r: FfRowView| r.0)
}

proof fn lemma_expanded_concat(es: Seq<(Seq<char>, Module)>, a: Seq<HierVisitView>, b: Seq<HierVisitView>)
    ensures
        expanded_modules(es, a + b) == expanded_modules(es, a) + expanded_modules(es, b),
    decreases b.len(),
{
    if b.len() == 0 {
        assert(a + b =~= a);
        assert(expanded_modules(es, a) + expanded_modules(es, b) =~= expanded_modules(es, a));
    } else {
        lemma_expanded_concat(es, a, b.drop_last());
        assert((a + b).drop_last() =~= a + b.drop_last());
        assert((a + b).last() == b.last());
        let v = b.last();
        if !v.circular && lookup_module(es, v.module) is Some {
            assert(expanded_modules(es, a) + expanded_modules(es, b) =~= (expanded_modules(es, a)
                + expanded_modules(es, b.drop_last())).push(v.module));
        } else {
            assert(expanded_modules(es, a) + expanded_modules(es, b) =~= expanded_modules(es, a)
                + expanded_modules(es, b.drop_last()));
        }
    }
}

proof fn lemma_rows_follow_lines(
    es: Seq<(Seq<char>, Module)>,
    name: Seq<char>,
    ovs: Seq<(String, i64)>,
    visited: Seq<Seq<char>>,
    depth: nat,
    cp: Seq<char>,
    at: int,
)
    requires
        ff_rows(es, name, ovs, visited) is Some,
    ensures
        row_modules(ff_rows(es, name, ovs, visited)->0) == (if visited.contains(name) || lookup_module(es, name) is None {
            Seq::<Seq<char>>::empty()
        } else {
            seq![name] + expanded_modules(es, module_visits(es, name, visited.push(name), depth, cp, at))
        }),
    decreases unvisited(es, visited), 0int, 0int,
{
    if visited.contains(name) || lookup_module(es, name) is None {
        assert(row_modules(ff_rows(es, name, ovs, visited)->0) =~= Seq::<Seq<char>>::empty());
    } else {
        let m = lookup_module(es, name)->0;
        let m0 = declared_env(m.params@)->0;
        let env = overridden(m0, ovs);
        let own = module_ff_count(m, env)->0;
        lemma_lookup_present(es, name);
        lemma_unvisited_push(es, visited, name);
        let vis2 = visited.push(name);
        let k = m.instances@.len() as int;
        let (rows, t) = instance_rows(es, m.instances@, env, vis2, k)->0;
        lemma_instance_rows_follow_lines(es, m.instances@, env, vis2, depth, cp, at, k);
        let all = seq![(name, own as i64, (own + t) as i64)] + rows;
        assert(ff_rows(es, name, ovs, visited) == Some(all));
        assert(row_modules(all) =~= seq![name] + row_modules(rows));
    }
}

proof fn lemma_instance_rows_follow_lines(
    es: Seq<(Seq<char>, Module)>,
    insts: Seq<crate::design::Instance>,
    env: Map<Seq<char>, i64>,
    visited: Seq<Seq<char>>,
    depth: nat,
    cp: Seq<char>,
    at: int,
    k: int,
)
    requires
        instance_rows(es, insts, env, visited, k) is Some,
        k <= insts.len(),
    ensures
        row_modules((instance_rows(es, insts, env, visited, k)->0).0) == expanded_modules(
            es,
            instance_visits(es, insts, visited, depth, cp, at, k),
        ),
    decreases unvisited(es, visited), 1int, k,
{
    if k <= 0 {
        assert(row_modules((instance_rows(es, insts, env, visited, k)->0).0) =~= Seq::<Seq<char>>::empty());
    } else {
        lemma_instance_rows_follow_lines(es, insts, env, visited, depth, cp, at, k - 1);
        let (rows, total) = instance_rows(es, insts, env, visited, k - 1)->0;
        let co = child_bindings(insts[k - 1].param_overrides@, env)->0;
        let r = insts[k - 1].module_ref@;
        let child = ff_rows(es, r, co, visited)->0;
        let prev = instance_visits(es, insts, visited, depth, cp, at, k - 1);
        let last = k == insts.len();
        let circular = visited.contains(r);
        let v = HierVisitView {
            depth: depth + 1,
            parent: Some(at),
            instance: insts[k - 1].inst_name@,
            module: r,
            last,
            circular,
            prefix: cp,
        };
        let here = at + 1 + prev.len();
        lemma_rows_follow_lines(es, r, co, visited, depth + 1, child_prefix(cp, last), here);
        assert((instance_rows(es, insts, env, visited, k)->0).0 == rows + child);
        assert(row_modules(rows + child) =~= row_modules(rows) + row_modules(child));
        lemma_expanded_concat(es, prev, seq![v]);
        assert(prev + seq![v] =~= prev.push(v));
        assert(expanded_modules(es, seq![v]) == (if !circular && lookup_module(es, r) is Some {
            seq![r]
        } else {
            Seq::<Seq<char>>::empty()
        })) by {
            assert(seq![v].drop_last() =~= Seq::<HierVisitView>::empty());
            assert(seq![v].last() == v);
            assert(expanded_modules(es, Seq::<HierVisitView>::empty()) == Seq::<Seq<char>>::empty());
            assert(Seq::<Seq<char>>::empty().push(r) =~= seq![r]);
        }
        if circular || lookup_module(es, r) is None {
            assert(expanded_modules(es, seq![v]) + Seq::<Seq<char>>::empty() =~= expanded_modules(es, seq![v]));
            assert(expanded_modules(es, prev.push(v)) =~= expanded_modules(es, prev));
        } else {
            lemma_lookup_present(es, r);
            lemma_unvisited_push(es, visited, r);
            let sub = module_visits(es, r, visited.push(r), depth + 1, child_prefix(cp, last), here);
            lemma_expanded_concat(es, prev.push(v), sub);
            assert(row_modules(child) == seq![r] + expanded_modules(es, sub));
            assert(expanded_modules(es, prev.push(v)) =~= expanded_modules(es, prev) + seq![r]);
            assert(row_modules(rows) + row_modules(child) =~= expanded_modules(es, prev) + seq![r]
                + expanded_modules(es, sub));
        }
    }
}

/// The FF hierarchy follows the instance hierarchy: where it can be
/// computed, its rows name, in order, the modules of the hierarchy lines
/// below the same top that are expanded (those in the design that are not
/// circular), so each module has one row per path on which it is expanded.
pub proof fn law_ff_rows_follow_the_hierarchy(es: Seq<(Seq<char>, Module)>, top: Seq<char>, ovs: Seq<(String, i64)>)
    requires
        ff_rows(es, top, ovs, Seq::empty()) is Some,
    ensures
        row_modules(ff_rows(es, top, ovs, Seq::empty())->0) == expanded_modules(es, hierarchy_visits(es, top)),
{
    let cp = child_prefix(Seq::empty(), true);
    lemma_rows_follow_lines(es, top, ovs, Seq::empty(), 0, cp, 0);
    assert(Seq::<Seq<char>>::empty().push(top) =~= seq![top]);
    let root = HierVisitView {
        depth: 0,
        parent: None,
        instance: top,
        module: top,
        last: true,
        circular: false,
        prefix: Seq::empty(),
    };
    let mv = module_visits(es, top, seq![top], 0, cp, 0);
    lemma_expanded_concat(es, seq![root], mv);
    assert(seq![root].drop_last() =~= Seq::<HierVisitView>::empty());
    assert(!Seq::<Seq<char>>::empty().contains(top));
    if lookup_module(es, top) is None {
        assert(mv =~= Seq::<HierVisitView>::empty());
        assert(expanded_modules(es, seq![root]) + expanded_modules(es, mv) =~= Seq::<Seq<char>>::empty());
    } else {
        assert(seq![root].last() == root);
        assert(expanded_modules(es, Seq::<HierVisitView>::empty()) == Seq::<Seq<char>>::empty());
        assert(Seq::<Seq<char>>::empty().push(top) =~= seq![top]);
        assert(expanded_modules(es, seq![root]) =~= seq![top]);
    }
}

/// A string of decimal digits.
pub open spec fn is_decimal(s: Seq<char>) -> bool {
    s.len() > 0 && forall|i: int| 0 <= i < s.len() ==> is_digit(#[trigger] s[i])
}

proof fn lemma_decimal_literal_end(s: Seq<char>, i: int)
    requires
        is_decimal(s),
        0 <= i <= s.len(),
    ensures
        literal_end(s, i) == s.len(),
    decreases s.len() - i,
{
    if i < s.len() {
        assert(is_digit(s[i]));
        lemma_decimal_literal_end(s, i + 1);
    }
}

proof fn lemma_decimal_no_underscores(s: Seq<char>)
    requires
        forall|i: int| 0 <= i < s.len() ==> is_digit(#[trigger] s[i]),
    ensures
        without_underscores(s) == s,
    decreases s.len(),
{
    if s.len() > 0 {
        assert forall|i: int| 0 <= i < s.drop_last().len() implies is_digit(#[trigger] s.drop_last()[i]) by {
            assert(s.drop_last()[i] == s[i]);
        }
        lemma_decimal_no_underscores(s.drop_last());
        assert(is_digit(s[s.len() - 1]));
        assert(s.drop_last().push(s.last()) =~= s);
    }
}

/// A number written in decimal digits, as a whole expression, evaluates to
/// the number it writes, and is unresolvable where that does not fit in
/// `i64`.
pub proof fn law_decimal_number_evaluates_to_its_value(digits: Seq<char>, env: Map<Seq<char>, i64>)
    requires
        is_decimal(digits),
    ensures
        expr_evaluation(digits, env) == (if digits_number(digits, 10) <= i64::MAX {
            Evaluation::Value(digits_number(digits, 10) as i64)
        } else {
            Evaluation::Undefined
        }),
{
    assert(is_ascii_seq(digits)) by {
        assert forall|i: int| 0 <= i < digits.len() implies is_ascii_char(#[trigger] digits[i]) by {
            assert(is_digit(digits[i]));
        }
    }
    let last = digits.len() - 1;
    assert(is_digit(digits[last]));
    assert(is_digit(digits[0]));
    assert(trim_start_ascii(digits) == digits);
    assert(trim_end_ascii(digits) == digits);
    assert(trimmed(digits) == digits);
    let flags = alnum_flags(digits);
    lemma_decimal_literal_end(digits, 0);
    assert(digits.subrange(0, digits.len() as int) =~= digits);
    assert forall|k: int| 0 <= k < digits.len() implies digits[k] != '\'' by {
        assert(is_digit(digits[k]));
    }
    lemma_find_char_none(digits, '\'', 0);
    lemma_decimal_no_underscores(digits);
    assert(all_digits(digits, 10)) by {
        assert forall|i: int| 0 <= i < digits.len() implies digit_value(#[trigger] digits[i]) < 10 by {
            assert(is_digit(digits[i]));
        }
    }
    assert(literal_value(digits) == parse_radix(digits, 10));
    if digits_number(digits, 10) <= i64::MAX {
        lemma_digits_number_grows(digits, 10, 0);
        assert(digits.take(0) =~= Seq::<char>::empty());
        let v = digits_number(digits, 10) as i64;
        let ts = seq![Token::Num(v)];
        assert(lex(digits, flags, digits.len() as int) == Some(Seq::<TokenView>::empty()));
        assert(lex(digits, flags, 0) == Some(ts)) by {
            assert(seq![Token::Num(v)] + Seq::<TokenView>::empty() =~= ts);
        }
        assert(expr_tokens(digits) == Some(ts));
        lemma_primary(ts, env, 0);
        lemma_unary(ts, env, 0);
        lemma_power(ts, env, 0);
        lemma_mul_expr(ts, env, 0);
        lemma_add_expr(ts, env, 0);
        lemma_shift_expr(ts, env, 0);
        lemma_and_expr(ts, env, 0);
        lemma_xor_expr(ts, env, 0);
        lemma_or_expr(ts, env, 0);
        lemma_mul_tail(ts, env, 1, v);
        lemma_add_tail(ts, env, 1, v);
        lemma_shift_tail(ts, env, 1, v);
        lemma_and_tail(ts, env, 1, v);
        lemma_xor_tail(ts, env, 1, v);
        lemma_or_tail(ts, env, 1, v);
        lemma_compare_tail(ts, env, 1, v);
    } else {
        assert(lex(digits, flags, 0) is None);
    }
}

// ─── what a range counts, and what a total covers ───────────────────────────

/// Where both bounds of a range evaluate, to `x` and `y`, the range is
/// `|x - y| + 1` bits wide (unless that does not fit in `i64`).
pub proof fn law_range_width_is_distance_plus_one(r: Range, env: Map<Seq<char>, i64>, x: i64, y: i64)
    requires
        expr_evaluation(r.msb@, env) == Evaluation::Value(x),
        expr_evaluation(r.lsb@, env) == Evaluation::Value(y),
    ensures
        (if x >= y { x - y } else { y - x }) + 1 <= i64::MAX ==> range_width(r, env) == Some(
            (if x >= y { x - y } else { y - x }) + 1,
        ),
{
}

/// Shifting both bounds of a range by the same amount keeps its width: two
/// ranges whose bounds evaluate with the same difference are equally wide
/// (and overflow alike).
pub proof fn law_range_width_ignores_shift(
    r1: Range,
    r2: Range,
    env: Map<Seq<char>, i64>,
    x1: i64,
    y1: i64,
    x2: i64,
    y2: i64,
)
    requires
        expr_evaluation(r1.msb@, env) == Evaluation::Value(x1),
        expr_evaluation(r1.lsb@, env) == Evaluation::Value(y1),
        expr_evaluation(r2.msb@, env) == Evaluation::Value(x2),
        expr_evaluation(r2.lsb@, env) == Evaluation::Value(y2),
        x1 - y1 == x2 - y2,
    ensures
        range_width(r1, env) == range_width(r2, env),
{
}

/// The own FFs of the rows, added up.
pub open spec fn sum_own(rows: Seq<FfRowView>) -> int
    decreases rows.len(),
{
    if rows.len() == 0 {
        0
    } else {
        sum_own(rows.drop_last()) + rows.last().1
    }
}

proof fn lemma_sum_own_concat(a: Seq<FfRowView>, b: Seq<FfRowView>)
    ensures
        sum_own(a + b) == sum_own(a) + sum_own(b),
    decreases b.len(),
{
    if b.len() == 0 {
        assert(a + b =~= a);
    } else {
        lemma_sum_own_concat(a, b.drop_last());
        assert((a + b).drop_last() =~= a + b.drop_last());
        assert((a + b).last() == b.last());
    }
}

proof fn lemma_total_is_subtree_sum(
    es: Seq<(Seq<char>, Module)>,
    name: Seq<char>,
    ovs: Seq<(String, i64)>,
    visited: Seq<Seq<char>>,
)
    ensures
        ff_rows(es, name, ovs, visited) matches Some(rows) ==> (rows.len() > 0 ==> rows[0].2 == sum_own(rows)),
    decreases unvisited(es, visited), 0int, 0int,
{
    if !visited.contains(name) {
        if let Some(m) = lookup_module(es, name) {
            if let Some(m0) = declared_env(m.params@) {
                let env = overridden(m0, ovs);
                if let Some(own) = module_ff_count(m, env) {
                    lemma_lookup_present(es, name);
                    lemma_unvisited_push(es, visited, name);
                    let k = m.instances@.len() as int;
                    lemma_instance_total_is_sum(es, m.instances@, env, visited.push(name), k);
                    law_ff_count_at_least_declarations(m, env);
                    lemma_instance_rows_total(es, m.instances@, env, visited.push(name), k);
                    if let Some((rows, t)) = instance_rows(es, m.instances@, env, visited.push(name), k) {
                        let first = seq![(name, own as i64, (own + t) as i64)];
                        lemma_sum_own_concat(first, rows);
                        assert(first.drop_last() =~= Seq::<FfRowView>::empty());
                        assert(sum_own(Seq::<FfRowView>::empty()) == 0);
                        assert(sum_own(first) == own);
                        if fits_i64(own + t) {
                            assert(ff_rows(es, name, ovs, visited) == Some(first + rows));
                            assert((first + rows)[0] == first[0]);
                        }
                    }
                }
            }
        }
    }
}

proof fn lemma_instance_total_is_sum(
    es: Seq<(Seq<char>, Module)>,
    insts: Seq<crate::design::Instance>,
    env: Map<Seq<char>, i64>,
    visited: Seq<Seq<char>>,
    k: int,
)
    ensures
        instance_rows(es, insts, env, visited, k) matches Some((rows, total)) ==> total == sum_own(rows),
    decreases unvisited(es, visited), 1int, k,
{
    if k > 0 {
        lemma_instance_total_is_sum(es, insts, env, visited, k - 1);
        if let Some((rows, total)) = instance_rows(es, insts, env, visited, k - 1) {
            if let Some(co) = child_bindings(insts[k - 1].param_overrides@, env) {
                lemma_total_is_subtree_sum(es, insts[k - 1].module_ref@, co, visited);
                if let Some(child) = ff_rows(es, insts[k - 1].module_ref@, co, visited) {
                    lemma_sum_own_concat(rows, child);
                }
            }
        }
    }
}

/// A module's total in the FF hierarchy covers its whole subtree: the first
/// row's total is the sum of the own FFs of all the rows, its own and those
/// of every module expanded below it, at any depth.
pub proof fn law_ff_total_is_the_sum_of_own_ffs_below(
    es: Seq<(Seq<char>, Module)>,
    name: Seq<char>,
    ovs: Seq<(String, i64)>,
    visited: Seq<Seq<char>>,
)
    ensures
        ff_rows(es, name, ovs, visited) matches Some(rows) ==> (rows.len() > 0 ==> rows[0].2 == sum_own(rows)),
{
    lemma_total_is_subtree_sum(es, name, ovs, visited);
}

// ─── digits of based literals ───────────────────────────────────────────────

/// A lowercase ASCII letter in uppercase; any other character as it is.
pub open spec fn upper_char(c: char) -> char {
    if 'a' <= c && c <= 'z' {
        ((c as int) - 32) as char
    } else {
        c
    }
}

pub open spec fn upper_seq(s: Seq<char>) -> Seq<char> {
    s.map_values(|c: char| upper_char(c))
}

/// Letters are the digits from ten up, in either case: `a`/`A` is 10,
/// `b`/`B` is 11, and so on.
pub proof fn law_letter_digits(k: int)
    requires
        0 <= k < 26,
    ensures
        digit_value((('a' as int) + k) as char) == 10 + k,
        digit_value((('A' as int) + k) as char) == 10 + k,
{
}

/// A digit has the same value in either case.
pub proof fn law_digit_ignores_case(c: char)
    ensures
        digit_value(upper_char(c)) == digit_value(c),
{
}

proof fn lemma_without_underscores_upper(s: Seq<char>)
    ensures
        without_underscores(upper_seq(s)) == upper_seq(without_underscores(s)),
    decreases s.len(),
{
    if s.len() > 0 {
        lemma_without_underscores_upper(s.drop_last());
        assert(upper_seq(s).drop_last() =~= upper_seq(s.drop_last()));
        assert(upper_seq(s).last() == upper_char(s.last()));
        if s.last() != '_' {
            assert(upper_seq(without_underscores(s.drop_last()).push(s.last())) =~= upper_seq(
                without_underscores(s.drop_last()),
            ).push(upper_char(s.last())));
        }
    }
}

proof fn lemma_digits_number_upper(s: Seq<char>, radix: int)
    ensures
        digits_number(upper_seq(s), radix) == digits_number(s, radix),
        all_digits(upper_seq(s), radix) == all_digits(s, radix),
    decreases s.len(),
{
    if s.len() > 0 {
        lemma_digits_number_upper(s.drop_last(), radix);
        assert(upper_seq(s).drop_last() =~= upper_seq(s.drop_last()));
        law_digit_ignores_case(s.last());
    }
    let u = upper_seq(s);
    assert forall|i: int| 0 <= i < s.len() implies digit_value(#[trigger] u[i]) == digit_value(s[i]) by {
        law_digit_ignores_case(s[i]);
    }
    if all_digits(s, radix) {
        assert forall|i: int| 0 <= i < u.len() implies digit_value(#[trigger] u[i]) < radix by {
            assert(digit_value(s[i]) < radix);
        }
    }
    if all_digits(u, radix) {
        assert forall|i: int| 0 <= i < s.len() implies digit_value(#[trigger] s[i]) < radix by {
            assert(digit_value(u[i]) < radix);
        }
    }
}

proof fn lemma_signed_radix_upper(s: Seq<char>, radix: int)
    ensures
        signed_radix(upper_seq(s), radix) == signed_radix(s, radix),
{
    lemma_digits_number_upper(s, radix);
    if s.len() > 0 {
        assert(upper_seq(s)[0] == upper_char(s[0]));
        assert(upper_seq(s).skip(1) =~= upper_seq(s.skip(1)));
        lemma_digits_number_upper(s.skip(1), radix);
    }
}

/// The digits of a based literal are read in either case: `8'hff` and
/// `8'hFF` have the same value, as has any literal and the same literal
/// with its digits uppercased.
pub proof fn law_based_literal_ignores_case(size: Seq<char>, base: char, digits: Seq<char>)
    requires
        forall|i: int| 0 <= i < size.len() ==> size[i] != '\'',
    ensures
        literal_value(size + seq!['\'', base] + digits) == literal_value(size + seq!['\'', base] + upper_seq(digits)),
{
    let r1 = size + seq!['\'', base] + digits;
    let r2 = size + seq!['\'', base] + upper_seq(digits);
    let t = size.len() as int;
    assert forall|k: int| 0 <= k < t implies r1[k] != '\'' && r2[k] != '\'' by {
        assert(r1[k] == size[k] && r2[k] == size[k]);
    }
    assert(r1[t] == '\'' && r2[t] == '\'');
    lemma_find_char_first(r1, '\'', t, 0);
    lemma_find_char_first(r2, '\'', t, 0);
    let a1 = r1.subrange(t + 1, r1.len() as int);
    let a2 = r2.subrange(t + 1, r2.len() as int);
    assert(a1[0] == base && a2[0] == base);
    assert(a1.subrange(1, a1.len() as int) =~= digits);
    assert(a2.subrange(1, a2.len() as int) =~= upper_seq(digits));
    lemma_without_underscores_upper(digits);
    lemma_signed_radix_upper(without_underscores(digits), 2);
    lemma_signed_radix_upper(without_underscores(digits), 8);
    lemma_signed_radix_upper(without_underscores(digits), 10);
    lemma_signed_radix_upper(without_underscores(digits), 16);
}

// ─── what the walk keeps of ports and parameters ────────────────────────────

/// An ANSI port without a header repeats the header of the one before it:
/// after a net port with a header, the next net port without one gets that
/// header's direction (input where it names none), net kind, data type and
/// packed range, with its own name and unpacked dimensions.
pub proof fn law_headerless_port_repeats_previous_header(
    v: VisitorView,
    es: Seq<(Seq<char>, ModuleView)>,
    file: PathBuf,
    n1: String,
    h: NetPortHeader,
    u1: Vec<Range>,
    n2: String,
    u2: Vec<Range>,
)
    requires
        v.stack.len() == 1,
        v.current is Some,
    ensures
        ({
            let (v1, es1) = step_spec(
                v,
                es,
                VisitEvent::AnsiNetPort { name: Some(n1), header: Some(h), unpacked_dims: u1 },
                file,
            );
            let (v2, es2) = step_spec(
                v1,
                es1,
                VisitEvent::AnsiNetPort { name: Some(n2), header: None, unpacked_dims: u2 },
                file,
            );
            &&& v2.current matches Some(m)
            &&& m.ports.len() == v.current->0.ports.len() + 2
            &&& m.ports.last() == Port {
                name: n2,
                direction: match h.direction {
                    Some(d) => d,
                    None => Direction::Input,
                },
                net_kind: h.net_kind,
                data_type: h.data_type,
                packed_width: h.packed_width,
                unpacked_dims: u2,
            }
        }),
{
}

/// The parameter declarations of the `Params` events, in event order.
pub open spec fn params_of(evs: Seq<VisitEvent>) -> Seq<ParamDecl>
    decreases evs.len(),
{
    if evs.len() == 0 {
        Seq::empty()
    } else {
        params_of(evs.drop_last()) + match evs.last() {
            VisitEvent::Params(ps) => ps@,
            _ => Seq::empty(),
        }
    }
}

pub open spec fn is_item_event(ev: VisitEvent) -> bool {
    !(ev is EnterModule) && !(ev is LeaveModule)
}

proof fn lemma_walk_module_body(
    es: Seq<(Seq<char>, ModuleView)>,
    ansi: bool,
    name: String,
    body: Seq<VisitEvent>,
    file: PathBuf,
    k: int,
)
    requires
        0 <= k <= body.len(),
        forall|i: int| 0 <= i < body.len() ==> is_item_event(#[trigger] body[i]),
    ensures
        ({
            let (v, es1) = run_spec(
                initial_visitor(),
                es,
                seq![VisitEvent::EnterModule { ansi, name: Some(name) }] + body.take(k),
                file,
            );
            &&& es1 == es
            &&& v.stack == seq![name@]
            &&& v.current matches Some(m)
            &&& m.name == name@
            &&& m.params == params_of(body.take(k))
        }),
    decreases k,
{
    let enter = VisitEvent::EnterModule { ansi, name: Some(name) };
    if k == 0 {
        assert(seq![enter] + body.take(0) =~= seq![enter]);
        assert(seq![enter].drop_last() =~= Seq::<VisitEvent>::empty());
        assert(body.take(0) =~= Seq::<VisitEvent>::empty());
        assert(Seq::<Seq<char>>::empty().push(name@) =~= seq![name@]);
        assert(run_spec(initial_visitor(), es, Seq::<VisitEvent>::empty(), file) == (initial_visitor(), es));
        assert(params_of(Seq::<VisitEvent>::empty()) == Seq::<ParamDecl>::empty());
        assert(initial_visitor().stack.len() == 0);
    } else {
        lemma_walk_module_body(es, ansi, name, body, file, k - 1);
        let evs = seq![enter] + body.take(k);
        assert(evs.drop_last() =~= seq![enter] + body.take(k - 1));
        assert(evs.last() == body[k - 1]);
        assert(body.take(k).drop_last() =~= body.take(k - 1));
        assert(body.take(k).last() == body[k - 1]);
        assert(is_item_event(body[k - 1]));
        let (v0, es0) = run_spec(initial_visitor(), es, evs.drop_last(), file);
        let ev = body[k - 1];
        let cm = v0.current->0;
        assert(run_spec(initial_visitor(), es, evs, file) == step_spec(v0, es0, ev, file));
        assert(step_spec(v0, es0, ev, file) == (item_step(v0, cm, ev), es0));
        match ev {
            VisitEvent::Params(ps) => {
                assert(params_of(body.take(k)) == params_of(body.take(k - 1)) + ps@);
            },
            _ => {
                assert(params_of(body.take(k)) =~= params_of(body.take(k - 1)));
            },
        }
    }
}

proof fn lemma_insert_finds(es: Seq<(Seq<char>, ModuleView)>, k: Seq<char>, m: ModuleView)
    ensures
        entry_index(entries_insert(es, k, m), k) matches Some(i) && entries_insert(es, k, m)[i] == (k, m),
{
    lemma_entry_index_from(es, k, 0);
    let r = entries_insert(es, k, m);
    lemma_entry_index_from(r, k, 0);
    match entry_index(es, k) {
        Some(j) => {
            assert(r[j] == (k, m));
            if let Some(i) = entry_index(r, k) {
                if i < j {
                    assert(r[i] == es[i]);
                }
            }
        },
        None => {
            assert(r[es.len() as int] == (k, m));
            if let Some(i) = entry_index(r, k) {
                if i < es.len() {
                    assert(r[i] == es[i]);
                }
            }
        },
    }
}

/// A module keeps its parameter declarations in the order of the walk:
/// after a module declaration whose events in between are items, the
/// design holds the module under its name, with the declarations of its
/// `Params` events one after the other, in event order.
pub proof fn law_module_params_in_event_order(
    es: Seq<(Seq<char>, ModuleView)>,
    ansi: bool,
    name: String,
    body: Seq<VisitEvent>,
    file: PathBuf,
)
    requires
        forall|i: int| 0 <= i < body.len() ==> is_item_event(#[trigger] body[i]),
    ensures
        ({
            let out = visit_spec(
                es,
                seq![VisitEvent::EnterModule { ansi, name: Some(name) }] + body + seq![VisitEvent::LeaveModule],
                file,
            );
            &&& entry_index(out, name@) matches Some(i)
            &&& out[i].0 == name@
            &&& out[i].1.params == params_of(body)
        }),
{
    let enter = VisitEvent::EnterModule { ansi, name: Some(name) };
    lemma_walk_module_body(es, ansi, name, body, file, body.len() as int);
    assert(body.take(body.len() as int) =~= body);
    let evs = seq![enter] + body + seq![VisitEvent::LeaveModule];
    assert(evs.drop_last() =~= seq![enter] + body.take(body.len() as int));
    assert(evs.last() == VisitEvent::LeaveModule);
    let (v, es1) = run_spec(initial_visitor(), es, evs.drop_last(), file);
    let m = v.current->0;
    lemma_insert_finds(es, name@, m);
}

} // verus!
