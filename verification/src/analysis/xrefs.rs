//! Call graph and cross-reference indexes built from function reports.
//!
//! Calls are grouped into one edge per (caller, callee) pair; every function
//! gets the list of its callers; every imported API gets the call sites that
//! resolve to it, with its classification when there is one.

use crate::analysis::report::{
    is_sorted_by, lemma_stable_sorted_elements, lemma_stable_sorted_pairwise, lemma_stable_sorted_sorted,
    strict_order, SortKey, clone_call_refs, clone_string_refs, lowered, sort_stable, stable_sorted, views_of,
    ApiInsightReport, ApiInsightReportV, CallGraphEdge, CallGraphEdgeV, CallReference,
    CallReferenceV, CallerReference, CallerReferenceV, FunctionReport, FunctionReportV,
    FunctionXrefReport, FunctionXrefReportV, ImportCallerReference, ImportCallerReferenceV,
    ImportXrefReport, ImportXrefReportV, XrefReport, XrefReportV,
};
use crate::binary::parser::{ImportAddressInfo, ImportInfo};
use crate::decompiler::structure::{lemma_lex_irreflexive, lemma_lex_transitive, lex_lt};
use crate::disasm::ir::clone_opt_string;
use crate::text::{eq_chars, lower_seq};
use vstd::prelude::*;

verus! {

// ---------------------------------------------------------------------------
// Call graph
// ---------------------------------------------------------------------------

/// `es[j]` is the edge from `caller` to `callee`.
pub open spec fn edge_at(es: Seq<CallGraphEdgeV>, j: int, caller: u64, callee: u64) -> bool {
    0 <= j < es.len() && es[j].caller_address == caller && es[j].callee_address == callee
}

/// No two edges join the same caller to the same callee.
pub open spec fn edge_keys_unique(es: Seq<CallGraphEdgeV>) -> bool {
    forall|i: int, j: int|
        #![trigger es[i], es[j]]
        0 <= i < es.len() && 0 <= j < es.len() && i != j ==> !(es[i].caller_address
            == es[j].caller_address && es[i].callee_address == es[j].callee_address)
}

/// One more call from `caller` (named `name`): recorded on the edge to its
/// target, or on a new edge when there is none yet. An edge's count is the
/// number of its call sites.
pub open spec fn add_call(
    es: Seq<CallGraphEdgeV>,
    name: Seq<char>,
    caller: u64,
    c: CallReferenceV,
) -> Seq<CallGraphEdgeV> {
    if exists|j: int| edge_at(es, j, caller, c.target_address) {
        let j = choose|j: int| edge_at(es, j, caller, c.target_address);
        let e = es[j];
        es.update(
            j,
            CallGraphEdgeV {
                caller_name: e.caller_name,
                caller_address: e.caller_address,
                callee_address: e.callee_address,
                callee_name: e.callee_name,
                call_count: (e.call_sites.len() + 1) as usize,
                call_sites: e.call_sites.push(c.instruction_address),
            },
        )
    } else {
        es.push(
            CallGraphEdgeV {
                caller_name: name,
                caller_address: caller,
                callee_address: c.target_address,
                callee_name: c.target_name,
                call_count: 1,
                call_sites: seq![c.instruction_address],
            },
        )
    }
}

pub open spec fn add_calls(
    es: Seq<CallGraphEdgeV>,
    name: Seq<char>,
    caller: u64,
    calls: Seq<CallReferenceV>,
) -> Seq<CallGraphEdgeV>
    decreases calls.len(),
{
    if calls.len() == 0 {
        es
    } else {
        add_call(add_calls(es, name, caller, calls.drop_last()), name, caller, calls.last())
    }
}

/// The edges of all calls of all functions, in order of first appearance.
pub open spec fn grouped_edges(rs: Seq<FunctionReportV>) -> Seq<CallGraphEdgeV>
    decreases rs.len(),
{
    if rs.len() == 0 {
        seq![]
    } else {
        add_calls(grouped_edges(rs.drop_last()), rs.last().name, rs.last().address, rs.last().calls)
    }
}

/// The call graph: grouped edges ordered by caller, then callee address.
pub open spec fn call_graph_spec(rs: Seq<FunctionReportV>) -> Seq<CallGraphEdgeV> {
    stable_sorted::<CallGraphEdge>(grouped_edges(rs))
}

/// Every edge counts its call sites, and has at least one.
pub open spec fn counts_match(es: Seq<CallGraphEdgeV>) -> bool {
    forall|i: int|
        0 <= i < es.len() ==> (#[trigger] es[i]).call_count == es[i].call_sites.len()
            && es[i].call_sites.len() > 0
}

proof fn lemma_add_call_keeps(es: Seq<CallGraphEdgeV>, name: Seq<char>, caller: u64, c: CallReferenceV, t: nat)
    requires
        edge_keys_unique(es),
        counts_match(es),
        forall|i: int| 0 <= i < es.len() ==> (#[trigger] es[i]).call_sites.len() <= t,
        t + 1 <= usize::MAX,
    ensures
        edge_keys_unique(add_call(es, name, caller, c)),
        counts_match(add_call(es, name, caller, c)),
        forall|i: int|
            0 <= i < add_call(es, name, caller, c).len() ==> (#[trigger] add_call(
                es,
                name,
                caller,
                c,
            )[i]).call_sites.len() <= t + 1,
{
    let after = add_call(es, name, caller, c);
    if exists|j: int| edge_at(es, j, caller, c.target_address) {
        let j = choose|j: int| edge_at(es, j, caller, c.target_address);
        assert forall|a: int, b: int| 0 <= a < after.len() && 0 <= b < after.len() && a != b implies !(
        after[a].caller_address == after[b].caller_address && after[a].callee_address
            == after[b].callee_address) by {
            assert(after[a].caller_address == es[a].caller_address);
            assert(after[b].caller_address == es[b].caller_address);
            assert(after[a].callee_address == es[a].callee_address);
            assert(after[b].callee_address == es[b].callee_address);
        }
        assert forall|i: int| 0 <= i < after.len() implies (#[trigger] after[i]).call_count
            == after[i].call_sites.len() && after[i].call_sites.len() > 0 by {
            if i != j {
                assert(after[i] == es[i]);
            }
        }
        assert forall|i: int| 0 <= i < after.len() implies (#[trigger] after[i]).call_sites.len()
            <= t + 1 by {
            if i != j {
                assert(after[i] == es[i]);
            }
        }
    } else {
        assert forall|a: int, b: int| 0 <= a < after.len() && 0 <= b < after.len() && a != b implies !(
        after[a].caller_address == after[b].caller_address && after[a].callee_address
            == after[b].callee_address) by {
            if a == es.len() {
                assert(!edge_at(es, b, caller, c.target_address));
            } else if b == es.len() {
                assert(!edge_at(es, a, caller, c.target_address));
            } else {
                assert(after[a] == es[a] && after[b] == es[b]);
            }
        }
        assert forall|i: int| 0 <= i < after.len() implies (#[trigger] after[i]).call_count
            == after[i].call_sites.len() && after[i].call_sites.len() > 0 && after[i].call_sites.len()
            <= t + 1 by {
            if i < es.len() {
                assert(after[i] == es[i]);
            }
        }
    }
}

/// The total number of calls of the functions.
pub open spec fn total_calls(rs: Seq<FunctionReportV>) -> nat
    decreases rs.len(),
{
    if rs.len() == 0 {
        0
    } else {
        total_calls(rs.drop_last()) + rs.last().calls.len()
    }
}

proof fn lemma_add_calls_keeps(
    es: Seq<CallGraphEdgeV>,
    name: Seq<char>,
    caller: u64,
    calls: Seq<CallReferenceV>,
    t: nat,
)
    requires
        edge_keys_unique(es),
        counts_match(es),
        forall|i: int| 0 <= i < es.len() ==> (#[trigger] es[i]).call_sites.len() <= t,
        t + calls.len() <= usize::MAX,
    ensures
        edge_keys_unique(add_calls(es, name, caller, calls)),
        counts_match(add_calls(es, name, caller, calls)),
        forall|i: int|
            0 <= i < add_calls(es, name, caller, calls).len() ==> (#[trigger] add_calls(
                es,
                name,
                caller,
                calls,
            )[i]).call_sites.len() <= t + calls.len(),
    decreases calls.len(),
{
    if calls.len() > 0 {
        lemma_add_calls_keeps(es, name, caller, calls.drop_last(), t);
        let mid = add_calls(es, name, caller, calls.drop_last());
        lemma_add_call_keeps(mid, name, caller, calls.last(), (t + calls.len() - 1) as nat);
    }
}

proof fn lemma_grouped_edges_keeps(rs: Seq<FunctionReportV>)
    requires
        total_calls(rs) <= usize::MAX,
    ensures
        edge_keys_unique(grouped_edges(rs)),
        counts_match(grouped_edges(rs)),
        forall|i: int|
            0 <= i < grouped_edges(rs).len() ==> (#[trigger] grouped_edges(rs)[i]).call_sites.len()
                <= total_calls(rs),
    decreases rs.len(),
{
    if rs.len() > 0 {
        lemma_grouped_edges_keeps(rs.drop_last());
        lemma_add_calls_keeps(
            grouped_edges(rs.drop_last()),
            rs.last().name,
            rs.last().address,
            rs.last().calls,
            total_calls(rs.drop_last()),
        );
    }
}

proof fn lemma_edge_order_strict()
    ensures
        strict_order::<CallGraphEdge>(),
{
}

/// Law: the call graph has one edge per (caller, callee) pair, in strictly
/// increasing (caller, callee) order, and each edge counts its call sites
/// (at least one).
pub proof fn lemma_call_graph_laws(rs: Seq<FunctionReportV>)
    requires
        total_calls(rs) <= usize::MAX,
    ensures
        forall|i: int, j: int|
            0 <= i < j < call_graph_spec(rs).len() ==> {
                let a = #[trigger] call_graph_spec(rs)[i];
                let b = #[trigger] call_graph_spec(rs)[j];
                a.caller_address < b.caller_address || (a.caller_address == b.caller_address
                    && a.callee_address < b.callee_address)
            },
        counts_match(call_graph_spec(rs)),
{
    let g = grouped_edges(rs);
    let out = call_graph_spec(rs);
    lemma_grouped_edges_keeps(rs);
    lemma_edge_order_strict();
    lemma_stable_sorted_sorted::<CallGraphEdge>(g);
    lemma_stable_sorted_elements::<CallGraphEdge>(g);
    let p = |a: CallGraphEdgeV, b: CallGraphEdgeV|
        !(a.caller_address == b.caller_address && a.callee_address == b.callee_address);
    assert forall|i: int, j: int| 0 <= i < g.len() && 0 <= j < g.len() && i != j implies #[trigger] p(
        g[i],
        g[j],
    ) by {
    }
    lemma_stable_sorted_pairwise::<CallGraphEdge>(g, p);
    assert forall|i: int, j: int| 0 <= i < j < out.len() implies {
        let a = #[trigger] out[i];
        let b = #[trigger] out[j];
        a.caller_address < b.caller_address || (a.caller_address == b.caller_address
            && a.callee_address < b.callee_address)
    } by {
        assert(!CallGraphEdge::key_lt(out[j], out[i]));
        assert(p(out[i], out[j]));
    }
    assert forall|i: int| 0 <= i < out.len() implies (#[trigger] out[i]).call_count
        == out[i].call_sites.len() && out[i].call_sites.len() > 0 by {
        assert(out.contains(out[i]));
        let k = choose|k: int| 0 <= k < g.len() && g[k] == out[i];
    }
}

/// The number of call sites that the edges hold together.
pub open spec fn total_sites(es: Seq<CallGraphEdgeV>) -> nat
    decreases es.len(),
{
    if es.len() == 0 {
        0
    } else {
        total_sites(es.drop_last()) + es.last().call_sites.len()
    }
}

proof fn lemma_total_sites_update(es: Seq<CallGraphEdgeV>, j: int, e: CallGraphEdgeV)
    requires
        0 <= j < es.len(),
    ensures
        total_sites(es.update(j, e)) + es[j].call_sites.len() == total_sites(es) + e.call_sites.len(),
    decreases es.len(),
{
    let u = es.update(j, e);
    if j < es.len() - 1 {
        lemma_total_sites_update(es.drop_last(), j, e);
        assert(u.drop_last() =~= es.drop_last().update(j, e));
    } else {
        assert(u.drop_last() =~= es.drop_last());
    }
}

proof fn lemma_total_sites_insert(es: Seq<CallGraphEdgeV>, p: int, x: CallGraphEdgeV)
    requires
        0 <= p <= es.len(),
    ensures
        total_sites(es.insert(p, x)) == total_sites(es) + x.call_sites.len(),
    decreases es.len(),
{
    let u = es.insert(p, x);
    if p == es.len() {
        assert(u.drop_last() =~= es);
    } else {
        lemma_total_sites_insert(es.drop_last(), p, x);
        assert(u.drop_last() =~= es.drop_last().insert(p, x));
        assert(u.last() == es.last());
    }
}

proof fn lemma_total_sites_sorted(s: Seq<CallGraphEdgeV>)
    ensures
        total_sites(stable_sorted::<CallGraphEdge>(s)) == total_sites(s),
    decreases s.len(),
{
    if s.len() > 0 {
        let r = stable_sorted::<CallGraphEdge>(s.drop_last());
        lemma_total_sites_sorted(s.drop_last());
        crate::analysis::report::lemma_first_after_spec::<CallGraphEdge>(r, s.last(), 0);
        lemma_total_sites_insert(r, crate::analysis::report::first_after::<CallGraphEdge>(r, s.last(), 0), s.last());
    }
}

proof fn lemma_total_sites_add_calls(
    es: Seq<CallGraphEdgeV>,
    name: Seq<char>,
    caller: u64,
    calls: Seq<CallReferenceV>,
)
    ensures
        total_sites(add_calls(es, name, caller, calls)) == total_sites(es) + calls.len(),
    decreases calls.len(),
{
    if calls.len() > 0 {
        lemma_total_sites_add_calls(es, name, caller, calls.drop_last());
        let mid = add_calls(es, name, caller, calls.drop_last());
        let c = calls.last();
        if exists|j: int| edge_at(mid, j, caller, c.target_address) {
            let j = choose|j: int| edge_at(mid, j, caller, c.target_address);
            let e = mid[j];
            lemma_total_sites_update(
                mid,
                j,
                CallGraphEdgeV {
                    caller_name: e.caller_name,
                    caller_address: e.caller_address,
                    callee_address: e.callee_address,
                    callee_name: e.callee_name,
                    call_count: (e.call_sites.len() + 1) as usize,
                    call_sites: e.call_sites.push(c.instruction_address),
                },
            );
        } else {
            let e = CallGraphEdgeV {
                caller_name: name,
                caller_address: caller,
                callee_address: c.target_address,
                callee_name: c.target_name,
                call_count: 1,
                call_sites: seq![c.instruction_address],
            };
            assert(mid.push(e).drop_last() =~= mid);
        }
    }
}

proof fn lemma_total_sites_grouped(rs: Seq<FunctionReportV>)
    ensures
        total_sites(grouped_edges(rs)) == total_calls(rs),
    decreases rs.len(),
{
    if rs.len() > 0 {
        lemma_total_sites_grouped(rs.drop_last());
        lemma_total_sites_add_calls(
            grouped_edges(rs.drop_last()),
            rs.last().name,
            rs.last().address,
            rs.last().calls,
        );
    }
}

/// Law: the call graph's edges hold every call exactly once: their call
/// sites add up to the number of calls of the functions.
pub proof fn lemma_call_graph_counts_every_call(rs: Seq<FunctionReportV>)
    ensures
        total_sites(call_graph_spec(rs)) == total_calls(rs),
{
    lemma_total_sites_grouped(rs);
    lemma_total_sites_sorted(grouped_edges(rs));
}

/// Some function of `rs` has this address and this name.
pub open spec fn named_by(rs: Seq<FunctionReportV>, address: u64, name: Seq<char>) -> bool {
    exists|k: int| 0 <= k < rs.len() && #[trigger] rs[k].address == address && rs[k].name == name
}

/// Every edge's caller is a function of `rs`, by address and name.
pub open spec fn callers_named(es: Seq<CallGraphEdgeV>, rs: Seq<FunctionReportV>) -> bool {
    forall|i: int| 0 <= i < es.len() ==> named_by(rs, (#[trigger] es[i]).caller_address, es[i].caller_name)
}

proof fn lemma_callers_named_add_calls(
    es: Seq<CallGraphEdgeV>,
    rs: Seq<FunctionReportV>,
    name: Seq<char>,
    caller: u64,
    calls: Seq<CallReferenceV>,
)
    requires
        callers_named(es, rs),
        named_by(rs, caller, name),
    ensures
        callers_named(add_calls(es, name, caller, calls), rs),
    decreases calls.len(),
{
    if calls.len() > 0 {
        lemma_callers_named_add_calls(es, rs, name, caller, calls.drop_last());
        let mid = add_calls(es, name, caller, calls.drop_last());
        let after = add_calls(es, name, caller, calls);
        let c = calls.last();
        if exists|j: int| edge_at(mid, j, caller, c.target_address) {
            let j = choose|j: int| edge_at(mid, j, caller, c.target_address);
            assert forall|i: int| 0 <= i < after.len() implies named_by(
                rs,
                (#[trigger] after[i]).caller_address,
                after[i].caller_name,
            ) by {
                assert(named_by(rs, mid[i].caller_address, mid[i].caller_name));
            }
        } else {
            assert forall|i: int| 0 <= i < after.len() implies named_by(
                rs,
                (#[trigger] after[i]).caller_address,
                after[i].caller_name,
            ) by {
                if i < mid.len() {
                    assert(after[i] == mid[i]);
                    assert(named_by(rs, mid[i].caller_address, mid[i].caller_name));
                }
            }
        }
    }
}

proof fn lemma_callers_named_grouped(rs: Seq<FunctionReportV>, n: int)
    requires
        0 <= n <= rs.len(),
    ensures
        callers_named(grouped_edges(rs.take(n)), rs),
    decreases n,
{
    if n > 0 {
        lemma_callers_named_grouped(rs, n - 1);
        let t = rs.take(n);
        assert(t.drop_last() =~= rs.take(n - 1));
        assert(t.last() == rs[n - 1]);
        assert(named_by(rs, rs[n - 1].address, rs[n - 1].name));
        lemma_callers_named_add_calls(
            grouped_edges(rs.take(n - 1)),
            rs,
            rs[n - 1].name,
            rs[n - 1].address,
            rs[n - 1].calls,
        );
    }
}

/// Law: every call graph edge names as its caller a function of the
/// reports, by that function's address and name.
pub proof fn lemma_call_graph_callers_are_functions(rs: Seq<FunctionReportV>)
    ensures
        callers_named(call_graph_spec(rs), rs),
{
    lemma_callers_named_grouped(rs, rs.len() as int);
    assert(rs.take(rs.len() as int) =~= rs);
    let g = grouped_edges(rs);
    let out = call_graph_spec(rs);
    lemma_stable_sorted_elements::<CallGraphEdge>(g);
    assert forall|i: int| 0 <= i < out.len() implies named_by(
        rs,
        (#[trigger] out[i]).caller_address,
        out[i].caller_name,
    ) by {
        assert(out.contains(out[i]));
        let k = choose|k: int| 0 <= k < g.len() && g[k] == out[i];
        assert(named_by(rs, g[k].caller_address, g[k].caller_name));
    }
}

/// The call sites, in order, of the calls to `callee`.
pub open spec fn sites_to(calls: Seq<CallReferenceV>, callee: u64) -> Seq<u64>
    decreases calls.len(),
{
    if calls.len() == 0 {
        seq![]
    } else {
        sites_to(calls.drop_last(), callee) + (if calls.last().target_address == callee {
            seq![calls.last().instruction_address]
        } else {
            seq![]
        })
    }
}

/// The call sites, in order, of the calls from the functions at `caller`
/// to `callee`.
pub open spec fn all_sites(rs: Seq<FunctionReportV>, caller: u64, callee: u64) -> Seq<u64>
    decreases rs.len(),
{
    if rs.len() == 0 {
        seq![]
    } else {
        all_sites(rs.drop_last(), caller, callee) + (if rs.last().address == caller {
            sites_to(rs.last().calls, callee)
        } else {
            seq![]
        })
    }
}

/// The edges hold exactly the call sites that `f` gives for their caller and
/// callee, and there is an edge wherever `f` gives some.
pub open spec fn sites_match(es: Seq<CallGraphEdgeV>, f: spec_fn(u64, u64) -> Seq<u64>) -> bool {
    &&& forall|i: int|
        0 <= i < es.len() ==> (#[trigger] es[i]).call_sites == f(es[i].caller_address, es[i].callee_address)
    &&& forall|a: u64, b: u64| #[trigger] f(a, b).len() > 0 ==> exists|j: int| edge_at(es, j, a, b)
}

proof fn lemma_add_call_sites(
    es: Seq<CallGraphEdgeV>,
    name: Seq<char>,
    caller: u64,
    c: CallReferenceV,
    f: spec_fn(u64, u64) -> Seq<u64>,
    g: spec_fn(u64, u64) -> Seq<u64>,
)
    requires
        edge_keys_unique(es),
        sites_match(es, f),
        forall|a: u64, b: u64|
            #[trigger] g(a, b) == if a == caller && b == c.target_address {
                f(a, b).push(c.instruction_address)
            } else {
                f(a, b)
            },
    ensures
        sites_match(add_call(es, name, caller, c), g),
{
    let after = add_call(es, name, caller, c);
    if exists|j: int| edge_at(es, j, caller, c.target_address) {
        let j = choose|j: int| edge_at(es, j, caller, c.target_address);
        assert forall|i: int| 0 <= i < after.len() implies (#[trigger] after[i]).call_sites == g(
            after[i].caller_address,
            after[i].callee_address,
        ) by {
            if i != j {
                assert(after[i] == es[i]);
                assert(es[i].call_sites == f(es[i].caller_address, es[i].callee_address));
                assert(g(es[i].caller_address, es[i].callee_address) == f(
                    es[i].caller_address,
                    es[i].callee_address,
                ));
            } else {
                assert(es[j].call_sites == f(caller, c.target_address));
                assert(g(caller, c.target_address) == f(caller, c.target_address).push(c.instruction_address));
            }
        }
        assert forall|a: u64, b: u64| #[trigger] g(a, b).len() > 0 implies exists|k: int|
            edge_at(after, k, a, b) by {
            if a == caller && b == c.target_address {
                assert(edge_at(after, j, a, b));
            } else {
                assert(g(a, b) == f(a, b));
                assert(f(a, b).len() > 0);
                let k = choose|k: int| edge_at(es, k, a, b);
                assert(edge_at(after, k, a, b));
            }
        }
    } else {
        assert(f(caller, c.target_address).len() == 0) by {
            if f(caller, c.target_address).len() > 0 {
                assert(exists|k: int| edge_at(es, k, caller, c.target_address));
            }
        }
        assert forall|i: int| 0 <= i < after.len() implies (#[trigger] after[i]).call_sites == g(
            after[i].caller_address,
            after[i].callee_address,
        ) by {
            if i < es.len() {
                assert(after[i] == es[i]);
                assert(es[i].call_sites == f(es[i].caller_address, es[i].callee_address));
                assert(!edge_at(es, i, caller, c.target_address));
                assert(g(es[i].caller_address, es[i].callee_address) == f(
                    es[i].caller_address,
                    es[i].callee_address,
                ));
            } else {
                assert(f(caller, c.target_address).push(c.instruction_address) =~= seq![c.instruction_address]);
            }
        }
        assert forall|a: u64, b: u64| #[trigger] g(a, b).len() > 0 implies exists|k: int|
            edge_at(after, k, a, b) by {
            if a == caller && b == c.target_address {
                assert(edge_at(after, es.len() as int, a, b));
            } else {
                assert(g(a, b) == f(a, b));
                let k = choose|k: int| edge_at(es, k, a, b);
                assert(edge_at(after, k, a, b));
            }
        }
    }
}

proof fn lemma_add_calls_sites(
    es: Seq<CallGraphEdgeV>,
    name: Seq<char>,
    caller: u64,
    calls: Seq<CallReferenceV>,
    base: spec_fn(u64, u64) -> Seq<u64>,
    t: nat,
)
    requires
        edge_keys_unique(es),
        counts_match(es),
        forall|i: int| 0 <= i < es.len() ==> (#[trigger] es[i]).call_sites.len() <= t,
        t + calls.len() <= usize::MAX,
        sites_match(es, base),
    ensures
        sites_match(
            add_calls(es, name, caller, calls),
            |a: u64, b: u64|
                base(a, b) + (if a == caller {
                    sites_to(calls, b)
                } else {
                    seq![]
                }),
        ),
    decreases calls.len(),
{
    let fin = |a: u64, b: u64|
        base(a, b) + (if a == caller {
            sites_to(calls, b)
        } else {
            seq![]
        });
    if calls.len() == 0 {
        assert forall|a: u64, b: u64| #[trigger] fin(a, b) == base(a, b) by {
            assert(fin(a, b) =~= base(a, b));
        }
    } else {
        let pre = calls.drop_last();
        let mid_f = |a: u64, b: u64|
            base(a, b) + (if a == caller {
                sites_to(pre, b)
            } else {
                seq![]
            });
        lemma_add_calls_sites(es, name, caller, pre, base, t);
        lemma_add_calls_keeps(es, name, caller, pre, t);
        let mid = add_calls(es, name, caller, pre);
        let c = calls.last();
        assert forall|a: u64, b: u64| #[trigger] fin(a, b) == if a == caller && b == c.target_address {
            mid_f(a, b).push(c.instruction_address)
        } else {
            mid_f(a, b)
        } by {
            if a == caller {
                assert(sites_to(calls, b) == sites_to(pre, b) + (if c.target_address == b {
                    seq![c.instruction_address]
                } else {
                    seq![]
                }));
                if b == c.target_address {
                    assert(fin(a, b) =~= mid_f(a, b).push(c.instruction_address));
                } else {
                    assert(fin(a, b) =~= mid_f(a, b));
                }
            } else {
                assert(fin(a, b) =~= mid_f(a, b));
            }
        }
        lemma_add_call_sites(mid, name, caller, c, mid_f, fin);
    }
}

proof fn lemma_grouped_edges_sites(rs: Seq<FunctionReportV>)
    requires
        total_calls(rs) <= usize::MAX,
    ensures
        sites_match(grouped_edges(rs), |a: u64, b: u64| all_sites(rs, a, b)),
    decreases rs.len(),
{
    let f = |a: u64, b: u64| all_sites(rs, a, b);
    if rs.len() == 0 {
        assert forall|a: u64, b: u64| #[trigger] f(a, b).len() > 0 implies exists|j: int|
            edge_at(grouped_edges(rs), j, a, b) by {
        }
    } else {
        let pre = rs.drop_last();
        let base = |a: u64, b: u64| all_sites(pre, a, b);
        lemma_grouped_edges_sites(pre);
        lemma_grouped_edges_keeps(pre);
        let last = rs.last();
        lemma_add_calls_sites(grouped_edges(pre), last.name, last.address, last.calls, base, total_calls(pre));
        let g = |a: u64, b: u64|
            base(a, b) + (if a == last.address {
                sites_to(last.calls, b)
            } else {
                seq![]
            });
        let es = grouped_edges(rs);
        assert forall|a: u64, b: u64| #[trigger] g(a, b) == f(a, b) by {
            if a == last.address {
                assert(g(a, b) =~= f(a, b));
            } else {
                assert(g(a, b) =~= f(a, b));
            }
        }
        assert forall|i: int| 0 <= i < es.len() implies (#[trigger] es[i]).call_sites == f(
            es[i].caller_address,
            es[i].callee_address,
        ) by {
            assert(es[i].call_sites == g(es[i].caller_address, es[i].callee_address));
        }
        assert forall|a: u64, b: u64| #[trigger] f(a, b).len() > 0 implies exists|j: int|
            edge_at(es, j, a, b) by {
            assert(g(a, b).len() > 0);
        }
    }
}

/// Law: each call graph edge holds, in order, the call sites of exactly the
/// calls from the functions at its caller address to its callee, and every
/// caller and callee joined by some call have an edge.
pub proof fn lemma_call_graph_sites(rs: Seq<FunctionReportV>)
    requires
        total_calls(rs) <= usize::MAX,
    ensures
        forall|i: int|
            0 <= i < call_graph_spec(rs).len() ==> (#[trigger] call_graph_spec(rs)[i]).call_sites == all_sites(
                rs,
                call_graph_spec(rs)[i].caller_address,
                call_graph_spec(rs)[i].callee_address,
            ),
        forall|a: u64, b: u64|
            #[trigger] all_sites(rs, a, b).len() > 0 ==> exists|j: int| edge_at(call_graph_spec(rs), j, a, b),
{
    let g = grouped_edges(rs);
    let out = call_graph_spec(rs);
    lemma_grouped_edges_sites(rs);
    lemma_stable_sorted_elements::<CallGraphEdge>(g);
    assert forall|i: int| 0 <= i < out.len() implies (#[trigger] out[i]).call_sites == all_sites(
        rs,
        out[i].caller_address,
        out[i].callee_address,
    ) by {
        assert(out.contains(out[i]));
        let k = choose|k: int| 0 <= k < g.len() && g[k] == out[i];
        assert(g[k].call_sites == all_sites(rs, g[k].caller_address, g[k].callee_address));
    }
    assert forall|a: u64, b: u64| #[trigger] all_sites(rs, a, b).len() > 0 implies exists|j: int|
        edge_at(out, j, a, b) by {
        let f = |x: u64, y: u64| all_sites(rs, x, y);
        assert(f(a, b).len() > 0);
        let k = choose|k: int| edge_at(g, k, a, b);
        assert(g.contains(g[k]));
        assert(out.contains(g[k]));
        let j = choose|j: int| 0 <= j < out.len() && out[j] == g[k];
        assert(edge_at(out, j, a, b));
    }
}

fn find_edge(es: &Vec<CallGraphEdge>, caller: u64, callee: u64) -> (r: Option<usize>)
    ensures
        match r {
            Some(j) => edge_at(views_of(es@), j as int, caller, callee),
            None => forall|j: int| !edge_at(views_of(es@), j, caller, callee),
        },
{
    let mut j: usize = 0;
    while j < es.len()
        invariant
            j <= es@.len(),
            forall|i: int| 0 <= i < j ==> !edge_at(views_of(es@), i, caller, callee),
        decreases es@.len() - j,
    {
        if es[j].caller_address == caller && es[j].callee_address == callee {
            return Some(j);
        }
        j = j + 1;
    }
    None
}

fn add_one_call(out: &mut Vec<CallGraphEdge>, name: &String, caller: u64, c: &CallReference)
    requires
        edge_keys_unique(views_of(old(out)@)),
    ensures
        views_of(final(out)@) == add_call(views_of(old(out)@), name@, caller, c@),
        edge_keys_unique(views_of(final(out)@)),
{
    let ghost before = views_of(out@);
    match find_edge(out, caller, c.target_address) {
        Some(j) => {
            let mut e = out.remove(j);
            e.call_sites.push(c.instruction_address);
            e.call_count = e.call_sites.len();
            out.insert(j, e);
            proof {
                let jj = choose|jj: int| edge_at(before, jj, caller, c.target_address);
                assert(edge_at(before, jj, caller, c.target_address));
                assert(jj == j as int);
                assert(views_of(out@) =~= add_call(before, name@, caller, c@));
                let after = views_of(out@);
                assert forall|a: int, b: int|
                    0 <= a < after.len() && 0 <= b < after.len() && a != b implies !(
                    after[a].caller_address == after[b].caller_address && after[a].callee_address
                        == after[b].callee_address) by {
                    assert(before[a].caller_address == after[a].caller_address);
                    assert(before[b].caller_address == after[b].caller_address);
                    assert(before[a].callee_address == after[a].callee_address);
                    assert(before[b].callee_address == after[b].callee_address);
                }
            }
        },
        None => {
            let mut sites: Vec<u64> = Vec::new();
            sites.push(c.instruction_address);
            out.push(
                CallGraphEdge {
                    caller_name: name.clone(),
                    caller_address: caller,
                    callee_address: c.target_address,
                    callee_name: clone_opt_string(&c.target_name),
                    call_count: 1,
                    call_sites: sites,
                },
            );
            proof {
                assert(sites@ =~= seq![c.instruction_address]);
                assert(views_of(out@) =~= add_call(before, name@, caller, c@));
                let after = views_of(out@);
                assert forall|a: int, b: int|
                    0 <= a < after.len() && 0 <= b < after.len() && a != b implies !(
                    after[a].caller_address == after[b].caller_address && after[a].callee_address
                        == after[b].callee_address) by {
                    if a == before.len() {
                        assert(!edge_at(before, b, caller, c.target_address));
                    } else if b == before.len() {
                        assert(!edge_at(before, a, caller, c.target_address));
                    } else {
                        assert(before[a] == after[a]);
                        assert(before[b] == after[b]);
                    }
                }
            }
        },
    }
}

/// Deduplicated call graph edges with their call sites.
pub fn call_graph_edges(functions: &[FunctionReport]) -> (r: Vec<CallGraphEdge>)
    ensures
        views_of(r@) == call_graph_spec(views_of(functions@)),
{
    let ghost rv = views_of(functions@);
    let mut out: Vec<CallGraphEdge> = Vec::new();
    let mut k: usize = 0;
    proof {
        assert(rv.take(0) =~= seq![]);
        assert(views_of(out@) =~= seq![]);
    }
    while k < functions.len()
        invariant
            k <= functions@.len(),
            rv == views_of(functions@),
            views_of(out@) == grouped_edges(rv.take(k as int)),
            edge_keys_unique(views_of(out@)),
        decreases functions@.len() - k,
    {
        let f = &functions[k];
        let ghost start = views_of(out@);
        let ghost cs = views_of(f.calls@);
        let mut m: usize = 0;
        proof {
            assert(cs.take(0) =~= seq![]);
        }
        while m < f.calls.len()
            invariant
                m <= f.calls@.len(),
                cs == views_of(f.calls@),
                views_of(out@) == add_calls(start, f.name@, f.address, cs.take(m as int)),
                edge_keys_unique(views_of(out@)),
            decreases f.calls@.len() - m,
        {
            proof {
                assert(cs.take(m + 1).drop_last() =~= cs.take(m as int));
            }
            add_one_call(&mut out, &f.name, f.address, &f.calls[m]);
            m = m + 1;
        }
        proof {
            assert(rv.take(k + 1).drop_last() =~= rv.take(k as int));
            assert(rv[k as int] == f@);
            assert(cs.take(cs.len() as int) =~= cs);
            assert(f@.calls =~= cs);
        }
        k = k + 1;
    }
    proof {
        assert(rv.take(rv.len() as int) =~= rv);
    }
    sort_stable(out)
}

// ---------------------------------------------------------------------------
// Function cross-references
// ---------------------------------------------------------------------------

/// The call sites among `calls` (made by `caller`, named `name`) that target `target`.
pub open spec fn callers_in(
    name: Seq<char>,
    caller: u64,
    calls: Seq<CallReferenceV>,
    target: u64,
) -> Seq<CallerReferenceV>
    decreases calls.len(),
{
    if calls.len() == 0 {
        seq![]
    } else {
        let r = callers_in(name, caller, calls.drop_last(), target);
        if calls.last().target_address == target {
            r.push(
                CallerReferenceV {
                    caller_name: name,
                    caller_address: caller,
                    instruction_address: calls.last().instruction_address,
                },
            )
        } else {
            r
        }
    }
}

/// Every call site of every function that targets `target`, in order.
pub open spec fn callers_of_spec(rs: Seq<FunctionReportV>, target: u64) -> Seq<CallerReferenceV>
    decreases rs.len(),
{
    if rs.len() == 0 {
        seq![]
    } else {
        callers_of_spec(rs.drop_last(), target) + callers_in(
            rs.last().name,
            rs.last().address,
            rs.last().calls,
            target,
        )
    }
}

/// An earlier function report has the same address as the one at `k`.
pub open spec fn address_seen_before(rs: Seq<FunctionReportV>, k: int) -> bool {
    exists|i: int| 0 <= i < k && rs[i].address == rs[k].address
}

/// The cross-reference entry of the function at `k`: its calls and strings,
/// and the sites that call its address, ordered by caller and site (the
/// callers go to the first function at an address).
pub open spec fn function_xref_spec(rs: Seq<FunctionReportV>, k: int) -> FunctionXrefReportV {
    FunctionXrefReportV {
        function_name: rs[k].name,
        function_address: rs[k].address,
        calls_out: rs[k].calls,
        called_by: if address_seen_before(rs, k) {
            seq![]
        } else {
            stable_sorted::<CallerReference>(callers_of_spec(rs, rs[k].address))
        },
        strings: rs[k].string_refs,
    }
}

/// The cross-reference entries of all functions, ordered by address.
pub open spec fn function_xrefs_spec(rs: Seq<FunctionReportV>) -> Seq<FunctionXrefReportV> {
    stable_sorted::<FunctionXrefReport>(Seq::new(rs.len(), |k: int| function_xref_spec(rs, k)))
}

/// The sites, in order, that call `target`.
pub fn callers_of(functions: &[FunctionReport], target: u64) -> (r: Vec<CallerReference>)
    ensures
        views_of(r@) == callers_of_spec(views_of(functions@), target),
{
    let ghost rv = views_of(functions@);
    let mut out: Vec<CallerReference> = Vec::new();
    let mut k: usize = 0;
    proof {
        assert(rv.take(0) =~= seq![]);
        assert(views_of(out@) =~= seq![]);
    }
    while k < functions.len()
        invariant
            k <= functions@.len(),
            rv == views_of(functions@),
            views_of(out@) == callers_of_spec(rv.take(k as int), target),
        decreases functions@.len() - k,
    {
        let f = &functions[k];
        let ghost start = views_of(out@);
        let ghost cs = views_of(f.calls@);
        let mut m: usize = 0;
        proof {
            assert(cs.take(0) =~= seq![]);
            assert(start + callers_in(f.name@, f.address, cs.take(0), target) =~= start);
        }
        while m < f.calls.len()
            invariant
                m <= f.calls@.len(),
                cs == views_of(f.calls@),
                views_of(out@) == start + callers_in(f.name@, f.address, cs.take(m as int), target),
            decreases f.calls@.len() - m,
        {
            proof {
                assert(cs.take(m + 1).drop_last() =~= cs.take(m as int));
            }
            let c = &f.calls[m];
            let ghost before = views_of(out@);
            if c.target_address == target {
                let x = CallerReference {
                    caller_name: f.name.clone(),
                    caller_address: f.address,
                    instruction_address: c.instruction_address,
                };
                out.push(x);
                proof {
                    assert(views_of(out@) =~= before.push(x@));
                }
            }
            proof {
                assert(views_of(out@) =~= start + callers_in(
                    f.name@,
                    f.address,
                    cs.take(m + 1),
                    target,
                ));
            }
            m = m + 1;
        }
        proof {
            assert(rv.take(k + 1).drop_last() =~= rv.take(k as int));
            assert(rv[k as int] == f@);
            assert(cs.take(cs.len() as int) =~= cs);
            assert(f@.calls =~= cs);
        }
        k = k + 1;
    }
    proof {
        assert(rv.take(rv.len() as int) =~= rv);
    }
    out
}

fn seen_before(functions: &[FunctionReport], k: usize) -> (r: bool)
    requires
        k < functions@.len(),
    ensures
        r == address_seen_before(views_of(functions@), k as int),
{
    let ghost rv = views_of(functions@);
    let mut i: usize = 0;
    while i < k
        invariant
            i <= k < functions@.len(),
            rv == views_of(functions@),
            forall|j: int| 0 <= j < i ==> rv[j].address != rv[k as int].address,
        decreases k - i,
    {
        if functions[i].address == functions[k].address {
            proof {
                assert(rv[i as int].address == rv[k as int].address);
            }
            return true;
        }
        i = i + 1;
    }
    false
}

/// Per-function cross-references, ordered by function address.
pub fn function_xrefs(functions: &[FunctionReport]) -> (r: Vec<FunctionXrefReport>)
    ensures
        views_of(r@) == function_xrefs_spec(views_of(functions@)),
{
    let ghost rv = views_of(functions@);
    let ghost all = Seq::new(rv.len(), |k: int| function_xref_spec(rv, k));
    let mut out: Vec<FunctionXrefReport> = Vec::new();
    let mut k: usize = 0;
    while k < functions.len()
        invariant
            k <= functions@.len(),
            rv == views_of(functions@),
            all == Seq::new(rv.len(), |k: int| function_xref_spec(rv, k)),
            views_of(out@) == all.take(k as int),
        decreases functions@.len() - k,
    {
        let f = &functions[k];
        let called_by = if seen_before(functions, k) {
            Vec::new()
        } else {
            sort_stable(callers_of(functions, f.address))
        };
        let x = FunctionXrefReport {
            function_name: f.name.clone(),
            function_address: f.address,
            calls_out: clone_call_refs(&f.calls),
            called_by,
            strings: clone_string_refs(&f.string_refs),
        };
        let ghost before = views_of(out@);
        out.push(x);
        proof {
            assert(rv[k as int] == f@);
            assert(views_of(called_by@) == function_xref_spec(rv, k as int).called_by);
            assert(x@ == function_xref_spec(rv, k as int));
            assert(all[k as int] == x@);
            assert(views_of(out@) =~= before.push(x@));
            assert(all.take(k + 1) =~= all.take(k as int).push(all[k as int]));
        }
        k = k + 1;
    }
    proof {
        assert(all.take(all.len() as int) =~= all);
    }
    sort_stable(out)
}

// ---------------------------------------------------------------------------
// Import cross-references
// ---------------------------------------------------------------------------

/// Some text whose lower-case form is `l`.
pub open spec fn lower_is(o: Option<Seq<char>>, l: Seq<char>) -> bool {
    match o {
        Some(x) => lower_seq(x) == l,
        None => false,
    }
}

/// The call sites among `calls` that resolve to the import `lib!sym`
/// (compared in lower case).
pub open spec fn import_callers_in(
    name: Seq<char>,
    caller: u64,
    calls: Seq<CallReferenceV>,
    lib: Seq<char>,
    sym: Seq<char>,
) -> Seq<ImportCallerReferenceV>
    decreases calls.len(),
{
    if calls.len() == 0 {
        seq![]
    } else {
        let r = import_callers_in(name, caller, calls.drop_last(), lib, sym);
        let c = calls.last();
        if lower_is(c.target_library, lib) && lower_is(c.target_symbol, sym) {
            r.push(
                ImportCallerReferenceV {
                    function_name: name,
                    function_address: caller,
                    instruction_address: c.instruction_address,
                },
            )
        } else {
            r
        }
    }
}

pub open spec fn import_callers_flat(
    rs: Seq<FunctionReportV>,
    lib: Seq<char>,
    sym: Seq<char>,
) -> Seq<ImportCallerReferenceV>
    decreases rs.len(),
{
    if rs.len() == 0 {
        seq![]
    } else {
        import_callers_flat(rs.drop_last(), lib, sym) + import_callers_in(
            rs.last().name,
            rs.last().address,
            rs.last().calls,
            lib,
            sym,
        )
    }
}

/// The callers of the import `lib!sym`, ordered by function and site.
pub open spec fn import_callers_spec(
    rs: Seq<FunctionReportV>,
    lib: Seq<char>,
    sym: Seq<char>,
) -> Seq<ImportCallerReferenceV> {
    stable_sorted::<ImportCallerReference>(import_callers_flat(rs, lib, sym))
}

/// The last insight about `lib!func` (compared in lower case).
pub open spec fn insight_for(
    ins: Seq<ApiInsightReportV>,
    lib: Seq<char>,
    func: Seq<char>,
) -> Option<ApiInsightReportV>
    decreases ins.len(),
{
    if ins.len() == 0 {
        None
    } else if lower_seq(ins.last().library) == lib && lower_seq(ins.last().function) == func {
        Some(ins.last())
    } else {
        insight_for(ins.drop_last(), lib, func)
    }
}

/// The last import-table address of `lib!func` (compared in lower case).
pub open spec fn address_for(ia: Seq<ImportAddressInfo>, lib: Seq<char>, func: Seq<char>) -> Option<
    u64,
>
    decreases ia.len(),
{
    if ia.len() == 0 {
        None
    } else if lower_seq(ia.last().library@) == lib && lower_seq(ia.last().function@) == func {
        Some(ia.last().address)
    } else {
        address_for(ia.drop_last(), lib, func)
    }
}

/// The cross-reference entry of the import `name!func`.
pub open spec fn import_entry(
    rs: Seq<FunctionReportV>,
    ia: Seq<ImportAddressInfo>,
    ins: Seq<ApiInsightReportV>,
    name: Seq<char>,
    func: Seq<char>,
) -> ImportXrefReportV {
    let lib = lower_seq(name);
    let f = lower_seq(func);
    ImportXrefReportV {
        library: name,
        function: func,
        address: address_for(ia, lib, f),
        category: match insight_for(ins, lib, f) {
            Some(x) => Some(x.category),
            None => None,
        },
        severity: match insight_for(ins, lib, f) {
            Some(x) => Some(x.severity),
            None => None,
        },
        referenced_by: import_callers_spec(rs, lib, f),
    }
}

pub open spec fn entries_for(
    rs: Seq<FunctionReportV>,
    ia: Seq<ImportAddressInfo>,
    ins: Seq<ApiInsightReportV>,
    name: Seq<char>,
    funcs: Seq<Seq<char>>,
) -> Seq<ImportXrefReportV>
    decreases funcs.len(),
{
    if funcs.len() == 0 {
        seq![]
    } else {
        entries_for(rs, ia, ins, name, funcs.drop_last()).push(
            import_entry(rs, ia, ins, name, funcs.last()),
        )
    }
}

/// One entry per imported function, in import-table order.
pub open spec fn import_entries(
    rs: Seq<FunctionReportV>,
    imports: Seq<ImportInfo>,
    ia: Seq<ImportAddressInfo>,
    ins: Seq<ApiInsightReportV>,
) -> Seq<ImportXrefReportV>
    decreases imports.len(),
{
    if imports.len() == 0 {
        seq![]
    } else {
        import_entries(rs, imports.drop_last(), ia, ins) + entries_for(
            rs,
            ia,
            ins,
            imports.last().name@,
            imports.last().functions@.map_values(|s: String| s@),
        )
    }
}

/// Import cross-references ordered by library, then function, in lower case.
pub open spec fn import_xrefs_spec(
    rs: Seq<FunctionReportV>,
    imports: Seq<ImportInfo>,
    ia: Seq<ImportAddressInfo>,
    ins: Seq<ApiInsightReportV>,
) -> Seq<ImportXrefReportV> {
    stable_sorted::<ImportXrefReport>(import_entries(rs, imports, ia, ins))
}

/// How many functions the import table lists, over all libraries.
pub open spec fn imported_function_count(imports: Seq<ImportInfo>) -> nat
    decreases imports.len(),
{
    if imports.len() == 0 {
        0
    } else {
        imported_function_count(imports.drop_last()) + imports.last().functions@.len()
    }
}

/// Every entry is the cross-reference entry of its own library and function.
pub open spec fn entries_own(
    es: Seq<ImportXrefReportV>,
    rs: Seq<FunctionReportV>,
    ia: Seq<ImportAddressInfo>,
    ins: Seq<ApiInsightReportV>,
) -> bool {
    forall|i: int| 0 <= i < es.len() ==> #[trigger] es[i] == import_entry(rs, ia, ins, es[i].library, es[i].function)
}

proof fn lemma_entries_for(
    rs: Seq<FunctionReportV>,
    ia: Seq<ImportAddressInfo>,
    ins: Seq<ApiInsightReportV>,
    name: Seq<char>,
    funcs: Seq<Seq<char>>,
)
    ensures
        entries_for(rs, ia, ins, name, funcs).len() == funcs.len(),
        entries_own(entries_for(rs, ia, ins, name, funcs), rs, ia, ins),
    decreases funcs.len(),
{
    if funcs.len() > 0 {
        lemma_entries_for(rs, ia, ins, name, funcs.drop_last());
        let pre = entries_for(rs, ia, ins, name, funcs.drop_last());
        let e = entries_for(rs, ia, ins, name, funcs);
        assert forall|i: int| 0 <= i < e.len() implies #[trigger] e[i] == import_entry(
            rs,
            ia,
            ins,
            e[i].library,
            e[i].function,
        ) by {
            if i < pre.len() {
                assert(e[i] == pre[i]);
            }
        }
    }
}

proof fn lemma_import_entries(
    rs: Seq<FunctionReportV>,
    imports: Seq<ImportInfo>,
    ia: Seq<ImportAddressInfo>,
    ins: Seq<ApiInsightReportV>,
)
    ensures
        import_entries(rs, imports, ia, ins).len() == imported_function_count(imports),
        entries_own(import_entries(rs, imports, ia, ins), rs, ia, ins),
    decreases imports.len(),
{
    if imports.len() > 0 {
        lemma_import_entries(rs, imports.drop_last(), ia, ins);
        let funcs = imports.last().functions@.map_values(|x: String| x@);
        lemma_entries_for(rs, ia, ins, imports.last().name@, funcs);
        let a = import_entries(rs, imports.drop_last(), ia, ins);
        let b = entries_for(rs, ia, ins, imports.last().name@, funcs);
        let e = import_entries(rs, imports, ia, ins);
        assert(e == a + b);
        assert forall|i: int| 0 <= i < e.len() implies #[trigger] e[i] == import_entry(
            rs,
            ia,
            ins,
            e[i].library,
            e[i].function,
        ) by {
            if i < a.len() {
                assert(e[i] == a[i]);
            } else {
                assert(e[i] == b[i - a.len()]);
            }
        }
    }
}

proof fn lemma_import_order_strict()
    ensures
        strict_order::<ImportXrefReport>(),
        strict_order::<ImportCallerReference>(),
{
    assert forall|a: ImportXrefReportV| !#[trigger] ImportXrefReport::key_lt(a, a) by {
        lemma_lex_irreflexive(lower_seq(a.library));
        lemma_lex_irreflexive(lower_seq(a.function));
    }
    assert forall|a: ImportXrefReportV, b: ImportXrefReportV, c: ImportXrefReportV|
        #[trigger] ImportXrefReport::key_lt(a, b) && #[trigger] ImportXrefReport::key_lt(b, c) implies
        ImportXrefReport::key_lt(a, c) by {
        let (a1, a2) = (lower_seq(a.library), lower_seq(a.function));
        let (b1, b2) = (lower_seq(b.library), lower_seq(b.function));
        let (c1, c2) = (lower_seq(c.library), lower_seq(c.function));
        if lex_lt(a1, b1) && lex_lt(b1, c1) {
            lemma_lex_transitive(a1, b1, c1);
        }
        if lex_lt(a2, b2) && lex_lt(b2, c2) {
            lemma_lex_transitive(a2, b2, c2);
        }
    }
}

/// Law: the import cross-references hold one entry per function of the
/// import table, ordered by library and then function name compared in
/// lower case; each entry is the entry of its own library and function
/// (its import-table address and callers found by lower-case names), and
/// its call sites are ordered by function address, then instruction address.
pub proof fn lemma_import_xrefs_laws(
    rs: Seq<FunctionReportV>,
    imports: Seq<ImportInfo>,
    ia: Seq<ImportAddressInfo>,
    ins: Seq<ApiInsightReportV>,
)
    ensures
        import_xrefs_spec(rs, imports, ia, ins).len() == imported_function_count(imports),
        is_sorted_by::<ImportXrefReport>(import_xrefs_spec(rs, imports, ia, ins)),
        entries_own(import_xrefs_spec(rs, imports, ia, ins), rs, ia, ins),
        forall|i: int|
            0 <= i < import_xrefs_spec(rs, imports, ia, ins).len() ==> is_sorted_by::<ImportCallerReference>(
                (#[trigger] import_xrefs_spec(rs, imports, ia, ins)[i]).referenced_by,
            ),
{
    let e = import_entries(rs, imports, ia, ins);
    let out = import_xrefs_spec(rs, imports, ia, ins);
    lemma_import_entries(rs, imports, ia, ins);
    lemma_stable_sorted_elements::<ImportXrefReport>(e);
    lemma_import_order_strict();
    lemma_stable_sorted_sorted::<ImportXrefReport>(e);
    assert forall|i: int| 0 <= i < out.len() implies #[trigger] out[i] == import_entry(
        rs,
        ia,
        ins,
        out[i].library,
        out[i].function,
    ) by {
        assert(out.contains(out[i]));
        let k = choose|k: int| 0 <= k < e.len() && e[k] == out[i];
        assert(e[k] == import_entry(rs, ia, ins, e[k].library, e[k].function));
    }
    assert forall|i: int| 0 <= i < out.len() implies is_sorted_by::<ImportCallerReference>(
        (#[trigger] out[i]).referenced_by,
    ) by {
        assert(out[i] == import_entry(rs, ia, ins, out[i].library, out[i].function));
        lemma_stable_sorted_sorted::<ImportCallerReference>(
            import_callers_flat(rs, lower_seq(out[i].library), lower_seq(out[i].function)),
        );
    }
}

fn lower_matches(o: &Option<String>, l: &[char]) -> (r: bool)
    ensures
        r == lower_is(crate::disasm::ir::opt_str_v(*o), l@),
{
    match o {
        Some(x) => eq_chars(&lowered(x), l),
        None => false,
    }
}

/// The sites, ordered by function and site, that call the import `lib!sym`
/// (both given in lower case).
pub fn import_callers(functions: &[FunctionReport], lib: &[char], sym: &[char]) -> (r: Vec<
    ImportCallerReference,
>)
    ensures
        views_of(r@) == import_callers_spec(views_of(functions@), lib@, sym@),
{
    let ghost rv = views_of(functions@);
    let mut out: Vec<ImportCallerReference> = Vec::new();
    let mut k: usize = 0;
    proof {
        assert(rv.take(0) =~= seq![]);
        assert(views_of(out@) =~= seq![]);
    }
    while k < functions.len()
        invariant
            k <= functions@.len(),
            rv == views_of(functions@),
            views_of(out@) == import_callers_flat(rv.take(k as int), lib@, sym@),
        decreases functions@.len() - k,
    {
        let f = &functions[k];
        let ghost start = views_of(out@);
        let ghost cs = views_of(f.calls@);
        let mut m: usize = 0;
        proof {
            assert(cs.take(0) =~= seq![]);
            assert(start + import_callers_in(f.name@, f.address, cs.take(0), lib@, sym@) =~= start);
        }
        while m < f.calls.len()
            invariant
                m <= f.calls@.len(),
                cs == views_of(f.calls@),
                views_of(out@) == start + import_callers_in(
                    f.name@,
                    f.address,
                    cs.take(m as int),
                    lib@,
                    sym@,
                ),
            decreases f.calls@.len() - m,
        {
            proof {
                assert(cs.take(m + 1).drop_last() =~= cs.take(m as int));
            }
            let c = &f.calls[m];
            let ghost before = views_of(out@);
            if lower_matches(&c.target_library, lib) && lower_matches(&c.target_symbol, sym) {
                let x = ImportCallerReference {
                    function_name: f.name.clone(),
                    function_address: f.address,
                    instruction_address: c.instruction_address,
                };
                out.push(x);
                proof {
                    assert(views_of(out@) =~= before.push(x@));
                }
            }
            proof {
                assert(views_of(out@) =~= start + import_callers_in(
                    f.name@,
                    f.address,
                    cs.take(m + 1),
                    lib@,
                    sym@,
                ));
            }
            m = m + 1;
        }
        proof {
            assert(rv.take(k + 1).drop_last() =~= rv.take(k as int));
            assert(rv[k as int] == f@);
            assert(cs.take(cs.len() as int) =~= cs);
            assert(f@.calls =~= cs);
        }
        k = k + 1;
    }
    proof {
        assert(rv.take(rv.len() as int) =~= rv);
    }
    sort_stable(out)
}

fn find_insight(insights: &[ApiInsightReport], lib: &[char], func: &[char]) -> (r: Option<usize>)
    ensures
        match r {
            Some(i) => i < insights@.len() && insight_for(views_of(insights@), lib@, func@) == Some(
                insights@[i as int]@,
            ),
            None => insight_for(views_of(insights@), lib@, func@) is None,
        },
{
    let ghost v = views_of(insights@);
    let mut found: Option<usize> = None;
    let mut i: usize = 0;
    while i < insights.len()
        invariant
            i <= insights@.len(),
            v == views_of(insights@),
            match found {
                Some(j) => j < insights@.len() && insight_for(v.take(i as int), lib@, func@) == Some(
                    insights@[j as int]@,
                ),
                None => insight_for(v.take(i as int), lib@, func@) is None,
            },
        decreases insights@.len() - i,
    {
        proof {
            assert(v.take(i + 1).drop_last() =~= v.take(i as int));
            assert(v[i as int] == insights@[i as int]@);
        }
        let x = &insights[i];
        if eq_chars(&lowered(&x.library), lib) && eq_chars(&lowered(&x.function), func) {
            found = Some(i);
        }
        i = i + 1;
    }
    proof {
        assert(v.take(v.len() as int) =~= v);
    }
    found
}

fn find_import_address(ia: &[ImportAddressInfo], lib: &[char], func: &[char]) -> (r: Option<u64>)
    ensures
        r == address_for(ia@, lib@, func@),
{
    let mut found: Option<u64> = None;
    let mut i: usize = 0;
    while i < ia.len()
        invariant
            i <= ia@.len(),
            found == address_for(ia@.take(i as int), lib@, func@),
        decreases ia@.len() - i,
    {
        proof {
            assert(ia@.take(i + 1).drop_last() =~= ia@.take(i as int));
        }
        let x = &ia[i];
        if eq_chars(&lowered(&x.library), lib) && eq_chars(&lowered(&x.function), func) {
            found = Some(x.address);
        }
        i = i + 1;
    }
    proof {
        assert(ia@.take(ia@.len() as int) =~= ia@);
    }
    found
}

fn import_entry_of(
    functions: &[FunctionReport],
    import_addresses: &[ImportAddressInfo],
    insights: &[ApiInsightReport],
    name: &String,
    func: &String,
) -> (r: ImportXrefReport)
    ensures
        r@ == import_entry(
            views_of(functions@),
            import_addresses@,
            views_of(insights@),
            name@,
            func@,
        ),
{
    let lib = lowered(name);
    let f = lowered(func);
    let (category, severity) = match find_insight(insights, &lib, &f) {
        Some(i) => (Some(insights[i].category.clone()), Some(insights[i].severity.clone())),
        None => (None, None),
    };
    ImportXrefReport {
        library: name.clone(),
        function: func.clone(),
        address: find_import_address(import_addresses, &lib, &f),
        category,
        severity,
        referenced_by: import_callers(functions, &lib, &f),
    }
}

/// Import-table cross-references: address, classification and callers of
/// each imported function, ordered by library and function in lower case.
pub fn import_xrefs(
    functions: &[FunctionReport],
    imports: &[ImportInfo],
    import_addresses: &[ImportAddressInfo],
    api_insights: &[ApiInsightReport],
) -> (r: Vec<ImportXrefReport>)
    ensures
        views_of(r@) == import_xrefs_spec(
            views_of(functions@),
            imports@,
            import_addresses@,
            views_of(api_insights@),
        ),
{
    let ghost rv = views_of(functions@);
    let ghost iv = views_of(api_insights@);
    let mut out: Vec<ImportXrefReport> = Vec::new();
    let mut k: usize = 0;
    proof {
        assert(imports@.take(0) =~= seq![]);
        assert(views_of(out@) =~= seq![]);
    }
    while k < imports.len()
        invariant
            k <= imports@.len(),
            rv == views_of(functions@),
            iv == views_of(api_insights@),
            views_of(out@) == import_entries(rv, imports@.take(k as int), import_addresses@, iv),
        decreases imports@.len() - k,
    {
        let imp = &imports[k];
        let ghost start = views_of(out@);
        let ghost fs = imp.functions@.map_values(|s: String| s@);
        let mut m: usize = 0;
        proof {
            assert(fs.take(0) =~= seq![]);
            assert(start + entries_for(rv, import_addresses@, iv, imp.name@, fs.take(0)) =~= start);
        }
        while m < imp.functions.len()
            invariant
                m <= imp.functions@.len(),
                fs == imp.functions@.map_values(|s: String| s@),
                rv == views_of(functions@),
                iv == views_of(api_insights@),
                views_of(out@) == start + entries_for(
                    rv,
                    import_addresses@,
                    iv,
                    imp.name@,
                    fs.take(m as int),
                ),
            decreases imp.functions@.len() - m,
        {
            proof {
                assert(fs.take(m + 1).drop_last() =~= fs.take(m as int));
                assert(fs[m as int] == imp.functions@[m as int]@);
            }
            let x = import_entry_of(functions, import_addresses, api_insights, &imp.name, &imp.functions[m]);
            let ghost before = views_of(out@);
            out.push(x);
            proof {
                assert(views_of(out@) =~= before.push(x@));
                assert(views_of(out@) =~= start + entries_for(
                    rv,
                    import_addresses@,
                    iv,
                    imp.name@,
                    fs.take(m + 1),
                ));
            }
            m = m + 1;
        }
        proof {
            assert(imports@.take(k + 1).drop_last() =~= imports@.take(k as int));
            assert(imports@.take(k + 1).last() == *imp);
            assert(fs.take(fs.len() as int) =~= fs);
        }
        k = k + 1;
    }
    proof {
        assert(imports@.take(imports@.len() as int) =~= imports@);
    }
    sort_stable(out)
}

/// Function and import cross-references.
pub fn xref_report(
    functions: &[FunctionReport],
    imports: &[ImportInfo],
    import_addresses: &[ImportAddressInfo],
    api_insights: &[ApiInsightReport],
) -> (r: XrefReport)
    ensures
        r@ == (XrefReportV {
            functions: function_xrefs_spec(views_of(functions@)),
            imports: import_xrefs_spec(
                views_of(functions@),
                imports@,
                import_addresses@,
                views_of(api_insights@),
            ),
        }),
{
    let fx = function_xrefs(functions);
    let ix = import_xrefs(functions, imports, import_addresses, api_insights);
    let r = XrefReport { functions: fx, imports: ix };
    proof {
        assert(r@.functions =~= views_of(fx@));
        assert(r@.imports =~= views_of(ix@));
    }
    r
}

} // verus!
