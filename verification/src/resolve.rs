//! Single-threaded resolution of a round's task graph, driving the same node
//! operations the worker pool uses.  It proves the round's ordering laws:
//! every node runs exactly once, and a node runs only after each of its
//! predecessors has completed.

use vstd::prelude::*;
use crate::graph::{
    TaskGraph,
    WasmTask,
    nodes_wf,
    nodes_unstarted,
    node_ok,
    edge,
    input_flag,
    all_inputs_true,
    try_start,
    record_completion,
    lemma_wf_from_structure,
};
use vstd::set_lib::lemma_int_range;
use vstd::set_lib::lemma_len_subset;
use vstd::set_lib::set_int_range;

verus! {

/// The set of started node indices.
pub open spec fn started_set(s: Seq<WasmTask>) -> Set<int> {
    Set::new(|i: int| 0 <= i < s.len() && s[i].started)
}

/// The fixed part of the node table: everything but the started flags and
/// the completion flags.
pub open spec fn same_shape(s0: Seq<WasmTask>, s1: Seq<WasmTask>) -> bool {
    &&& s1.len() == s0.len()
    &&& (forall|i: int|
        0 <= i < s0.len() ==> (#[trigger] s1[i]).id == s0[i].id && s1[i].name@ == s0[i].name@
            && s1[i].vm_index == s0[i].vm_index && s1[i].outputs@ == s0[i].outputs@
            && s1[i].inputs@.len() == s0[i].inputs@.len())
    &&& (forall|i: int, k: int|
        0 <= i < s0.len() && 0 <= k < s0[i].inputs@.len() ==> (#[trigger] s1[i].inputs@[k]).0
            == s0[i].inputs@[k].0)
}

/// With the queue drained, every node has started: each predecessor starts by
/// induction, its completion flag is therefore set, so an unstarted node
/// would be ready and still queued.
proof fn lemma_all_started(s0: Seq<WasmTask>, s: Seq<WasmTask>, queue: Seq<u32>, q: int)
    requires
        nodes_wf(s0),
        same_shape(s0, s),
        queue.len() == 0,
        0 <= q < s.len(),
        forall|a: int, b: int|
            (#[trigger] input_flag(s, a, b)) && 0 <= b < s.len() ==> 0 <= a < s.len()
                && s[a].started,
        forall|a: int, b: int|
            0 <= a < s.len() && 0 <= b < s.len() && s[a].started && (#[trigger] edge(s0, a, b))
                ==> input_flag(s, a, b) || s[b].started,
        forall|b: int|
            0 <= b < s.len() && !(#[trigger] s[b]).started && all_inputs_true(s, b)
                ==> queue.contains((b + 1) as u32),
    ensures
        s[q].started,
    decreases q,
{
    if !s[q].started {
        assert(node_ok(s0, q));
        assert forall|k: int| 0 <= k < s[q].inputs@.len() implies (#[trigger]
        s[q].inputs@[k]).1 by {
            let p = s[q].inputs@[k].0 - 1;
            assert(s0[q].inputs@[k].0 == s[q].inputs@[k].0);
            assert(0 <= p < q);
            lemma_all_started(s0, s, queue, p);
            assert(edge(s0, p, q));
            assert(input_flag(s, p, q) || s[q].started);
            let k2 = choose|k2: int|
                0 <= k2 < s[q].inputs@.len() && (#[trigger] s[q].inputs@[k2]).0 == p + 1
                    && s[q].inputs@[k2].1;
            assert(s0[q].inputs@[k2].0 == p + 1);
            assert(k2 == k);
        }
        assert(all_inputs_true(s, q));
        assert(queue.contains((q + 1) as u32));
        assert(false);
    }
}

/// Resolve the whole round: repeatedly start ready nodes and propagate their
/// completions, until every declared task has run.
///
/// The returned trace is the execution order.  It holds every node exactly
/// once — no double execution, and no declared task is left behind — and
/// every node appears strictly after each of its predecessors: tasks sharing
/// a resource chain run in declaration order.
pub fn resolve_round(g: &mut TaskGraph) -> (trace: Vec<u32>)
    requires
        old(g).wf(),
        nodes_unstarted(old(g).nodes@),
    ensures
        trace@.len() == old(g).nodes@.len(),
        forall|i: int, j: int| 0 <= i < j < trace@.len() ==> trace@[i] != trace@[j],
        forall|i: int| 0 <= i < trace@.len() ==> 1 <= #[trigger] trace@[i] <= trace@.len(),
        forall|id: u32| 1 <= id <= old(g).nodes@.len() ==> trace@.contains(id),
        forall|j: int, p: int|
            #![trigger trace@[j], old(g).nodes@[p]]
            0 <= j < trace@.len() && edge(old(g).nodes@, p, trace@[j] - 1) ==> exists|i: int|
                0 <= i < j && #[trigger] trace@[i] == (p + 1) as u32,
{
    let ghost s0 = g.nodes@;
    let n = g.nodes.len();
    let mut trace: Vec<u32> = Vec::new();
    let mut queue: Vec<u32> = Vec::new();
    let mut w: usize = 0;
    while w < g.start_points.len()
        invariant
            w <= g.start_points@.len(),
            *g == *old(g),
            queue@.len() == w,
            forall|j: int| 0 <= j < w as int ==> queue@[j] == g.start_points@[j],
        decreases g.start_points@.len() - w,
    {
        queue.push(g.start_points[w]);
        w = w + 1;
    }
    proof {
        assert forall|b: int|
            0 <= b < g.nodes@.len() && !(#[trigger] g.nodes@[b]).started && all_inputs_true(
                g.nodes@,
                b,
            ) implies queue@.contains((b + 1) as u32) by {
            assert(g.nodes@[b].inputs@.len() == 0) by {
                if g.nodes@[b].inputs@.len() > 0 {
                    assert(!g.nodes@[b].inputs@[0].1);
                    assert(g.nodes@[b].inputs@[0].1);
                }
            }
            assert(g.start_points@.contains((b + 1) as u32));
            let j = choose|j: int|
                0 <= j < g.start_points@.len() && g.start_points@[j] == (b + 1) as u32;
            assert(queue@[j] == (b + 1) as u32);
        }
        assert(started_set(g.nodes@) =~= Set::<int>::empty());
        lemma_int_range(0, n as int);
    }
    while queue.len() > 0
        invariant
            nodes_wf(s0),
            n == s0.len(),
            nodes_wf(g.nodes@),
            same_shape(s0, g.nodes@),
            started_set(g.nodes@).finite(),
            trace@.len() == started_set(g.nodes@).len(),
            forall|q: int|
                0 <= q < n as int ==> ((#[trigger] g.nodes@[q]).started <==> trace@.contains(
                    (q + 1) as u32,
                )),
            forall|i: int, j: int| 0 <= i < j < trace@.len() ==> trace@[i] != trace@[j],
            forall|i: int| 0 <= i < trace@.len() ==> 1 <= #[trigger] trace@[i] <= n,
            forall|j: int, p: int|
                #![trigger trace@[j], s0[p]]
                0 <= j < trace@.len() && edge(s0, p, trace@[j] - 1) ==> exists|i: int|
                    0 <= i < j && #[trigger] trace@[i] == (p + 1) as u32,
            forall|i: int| 0 <= i < queue@.len() ==> 1 <= #[trigger] queue@[i] <= n,
            forall|a: int, b: int|
                (#[trigger] input_flag(g.nodes@, a, b)) && 0 <= b < n as int ==> 0 <= a < n as int
                    && g.nodes@[a].started,
            forall|a: int, b: int|
                0 <= a < n as int && 0 <= b < n as int && g.nodes@[a].started && (#[trigger] edge(
                    s0,
                    a,
                    b,
                )) ==> input_flag(g.nodes@, a, b) || g.nodes@[b].started,
            forall|b: int|
                0 <= b < n as int && !(#[trigger] g.nodes@[b]).started && all_inputs_true(
                    g.nodes@,
                    b,
                ) ==> queue@.contains((b + 1) as u32),
        decreases n - trace@.len(), queue@.len(),
    {
        let ghost queue_pre = queue@;
        let ghost nodes_pre = g.nodes@;
        let ghost trace_pre = trace@;
        let id_opt = queue.pop();
        let id = id_opt.unwrap();
        let q = (id - 1) as usize;
        let started = try_start(&mut g.nodes, q);
        if started {
            trace.push(id);
            proof {
                assert(started_set(g.nodes@) =~= started_set(nodes_pre).insert(q as int));
                vstd::set::axiom_set_insert_len(started_set(nodes_pre), q as int);
                lemma_int_range(0, n as int);
                assert(started_set(g.nodes@).subset_of(set_int_range(0, n as int)));
                lemma_len_subset(started_set(g.nodes@), set_int_range(0, n as int));
                assert forall|q2: int|
                    0 <= q2 < n as int implies ((#[trigger] g.nodes@[q2]).started
                    <==> trace@.contains((q2 + 1) as u32)) by {
                    if q2 == q as int {
                        assert(trace@.last() == id);
                    } else {
                        if g.nodes@[q2].started {
                            let i = choose|i: int|
                                0 <= i < trace_pre.len() && trace_pre[i] == (q2 + 1) as u32;
                            assert(trace@[i] == (q2 + 1) as u32);
                        }
                        if trace@.contains((q2 + 1) as u32) {
                            let i = choose|i: int|
                                0 <= i < trace@.len() && trace@[i] == (q2 + 1) as u32;
                            assert(i < trace@.len() - 1);
                            assert(trace_pre[i] == (q2 + 1) as u32);
                        }
                    }
                }
                assert forall|j: int, p: int|
                    #![trigger trace@[j], s0[p]]
                    0 <= j < trace@.len() && edge(s0, p, trace@[j] - 1) implies exists|i: int|
                    0 <= i < j && #[trigger] trace@[i] == (p + 1) as u32 by {
                    if j < trace@.len() - 1 {
                        assert(trace_pre[j] == trace@[j]);
                        let i = choose|i: int|
                            0 <= i < j && #[trigger] trace_pre[i] == (p + 1) as u32;
                        assert(trace@[i] == (p + 1) as u32);
                    } else {
                        let b = trace@[j] - 1;
                        assert(trace@[j] == id);
                        assert(b == q as int);
                        assert(all_inputs_true(nodes_pre, q as int));
                        let k0 = choose|k0: int|
                            0 <= k0 < s0[b].inputs@.len() && (#[trigger] s0[b].inputs@[k0]).0 == p
                                + 1;
                        assert(nodes_pre[b].inputs@[k0].0 == p + 1);
                        assert(nodes_pre[b].inputs@[k0].1);
                        assert(input_flag(nodes_pre, p, b));
                        assert(nodes_pre[p].started);
                        assert(trace_pre.contains((p + 1) as u32));
                        let i = choose|i: int|
                            0 <= i < trace_pre.len() && trace_pre[i] == (p + 1) as u32;
                        assert(trace@[i] == (p + 1) as u32);
                    }
                }
            }
            let ghost nodes_mid = g.nodes@;
            proof {
                assert(same_shape(s0, nodes_mid));
                lemma_wf_from_structure(s0, nodes_mid);
            }
            let mut ready = record_completion(&mut g.nodes, q);
            let ghost ready0 = ready@;
            proof {
                assert(started_set(g.nodes@) =~= started_set(nodes_mid));
                lemma_int_range(0, n as int);
            }
            queue.append(&mut ready);
            proof {
                assert forall|i: int| 0 <= i < queue@.len() implies 1 <= #[trigger] queue@[i]
                    <= n by {
                    if i < queue_pre.drop_last().len() {
                        assert(queue@[i] == queue_pre[i]);
                    } else {
                        assert(queue@[i] == ready0[i - queue_pre.drop_last().len()]);
                        assert(ready0.contains(queue@[i]));
                    }
                }
                assert forall|a: int, b: int|
                    (#[trigger] input_flag(g.nodes@, a, b)) && 0 <= b < n as int implies 0 <= a
                    < n as int && g.nodes@[a].started by {
                    let k = choose|k: int|
                        0 <= k < g.nodes@[b].inputs@.len() && (#[trigger] g.nodes@[b].inputs@[k]).0
                            == a + 1 && g.nodes@[b].inputs@[k].1;
                    if nodes_mid[b].inputs@[k].1 {
                        assert(input_flag(nodes_mid, a, b));
                        assert(nodes_mid[b].inputs@ == nodes_pre[b].inputs@);
                        assert(input_flag(nodes_pre, a, b));
                        assert(nodes_pre[a].started);
                        assert(g.nodes@[a].started);
                    } else {
                        assert(g.nodes@[b].inputs@[k].0 == q + 1);
                        assert(a == q as int);
                        assert(nodes_mid[q as int].started);
                        assert(g.nodes@[a].started);
                    }
                }
                assert forall|a: int, b: int|
                    0 <= a < n as int && 0 <= b < n as int && g.nodes@[a].started && (#[trigger]
                    edge(s0, a, b)) implies input_flag(g.nodes@, a, b)
                    || g.nodes@[b].started by {
                    if a == q as int {
                        if !g.nodes@[b].started {
                            assert(edge(nodes_mid, a, b)) by {
                                let k = choose|k: int|
                                    0 <= k < s0[b].inputs@.len() && (#[trigger]
                                    s0[b].inputs@[k]).0 == a + 1;
                                assert(nodes_mid[b].inputs@[k].0 == a + 1);
                            }
                            assert(input_flag(g.nodes@, a, b));
                        }
                    } else {
                        if nodes_mid[a].started && !nodes_mid[b].started {
                            assert(input_flag(nodes_mid, a, b) || nodes_mid[b].started);
                            if input_flag(nodes_mid, a, b) {
                                let k = choose|k: int|
                                    0 <= k < nodes_mid[b].inputs@.len() && (#[trigger]
                                    nodes_mid[b].inputs@[k]).0 == a + 1
                                        && nodes_mid[b].inputs@[k].1;
                                assert(g.nodes@[b].inputs@[k].1);
                                assert(g.nodes@[b].inputs@[k].0 == a + 1);
                            }
                        }
                    }
                }
                assert forall|b: int|
                    0 <= b < n as int && !(#[trigger] g.nodes@[b]).started && all_inputs_true(
                        g.nodes@,
                        b,
                    ) implies queue@.contains((b + 1) as u32) by {
                    if all_inputs_true(nodes_mid, b) {
                        assert(queue_pre.drop_last().contains((b + 1) as u32)) by {
                            assert(queue_pre.contains((b + 1) as u32));
                            let i = choose|i: int|
                                0 <= i < queue_pre.len() && queue_pre[i] == (b + 1) as u32;
                            if i == queue_pre.len() - 1 {
                                assert(b == q as int);
                                assert(false);
                            }
                            assert(queue_pre.drop_last()[i] == (b + 1) as u32);
                        }
                        let i = choose|i: int|
                            0 <= i < queue_pre.drop_last().len() && queue_pre.drop_last()[i] == (b
                                + 1) as u32;
                        assert(queue@[i] == (b + 1) as u32);
                    } else {
                        assert(ready0.contains((b + 1) as u32)) by {
                            assert(!nodes_mid[b].started);
                        }
                        let i = choose|i: int| 0 <= i < ready0.len() && ready0[i] == (b + 1) as u32;
                        assert(queue@[queue_pre.drop_last().len() + i] == (b + 1) as u32);
                    }
                }
            }
        } else {
            proof {
                assert(g.nodes@ == nodes_pre);
                assert(started_set(g.nodes@) =~= started_set(nodes_pre));
                assert forall|b: int|
                    0 <= b < n as int && !(#[trigger] g.nodes@[b]).started && all_inputs_true(
                        g.nodes@,
                        b,
                    ) implies queue@.contains((b + 1) as u32) by {
                    assert(queue_pre.contains((b + 1) as u32));
                    let i = choose|i: int|
                        0 <= i < queue_pre.len() && queue_pre[i] == (b + 1) as u32;
                    if i == queue_pre.len() - 1 {
                        assert(b == q as int);
                        assert(false);
                    }
                    assert(queue@[i] == (b + 1) as u32);
                }
            }
        }
    }
    proof {
        assert forall|q: int| 0 <= q < n as int implies (#[trigger] g.nodes@[q]).started by {
            lemma_all_started(s0, g.nodes@, queue@, q);
        }
        assert(started_set(g.nodes@) =~= set_int_range(0, n as int));
        lemma_int_range(0, n as int);
        assert(trace@.len() == n);
        assert forall|id: u32| 1 <= id <= n implies trace@.contains(id) by {
            assert(g.nodes@[id - 1].started);
        }
    }
    trace
}


/// The round's ordering law, end to end: when two declarations are
/// consecutive on one plain resource's chain, the builder links them with an
/// edge, and resolution therefore runs the earlier one strictly before the
/// later one.
pub proof fn lemma_chain_runs_in_declaration_order(
    decls: Seq<crate::graph::TaskDecl>,
    nodes0: Seq<WasmTask>,
    trace: Seq<u32>,
    a: int,
    b: int,
    r: Seq<char>,
)
    requires
        forall|a2: int, b2: int, r2: Seq<char>| #[trigger]
            crate::graph::chain_adjacent(decls, a2, b2, r2) ==> edge(nodes0, a2, b2),
        forall|j: int, p: int|
            #![trigger trace[j], nodes0[p]]
            0 <= j < trace.len() && edge(nodes0, p, trace[j] - 1) ==> exists|i: int|
                0 <= i < j && #[trigger] trace[i] == (p + 1) as u32,
        crate::graph::chain_adjacent(decls, a, b, r),
        decls.len() + 1 <= u32::MAX,
        trace.contains((b + 1) as u32),
    ensures
        exists|i: int, j: int|
            #![trigger trace[i], trace[j]]
            0 <= i < j < trace.len() && trace[i] == (a + 1) as u32 && trace[j] == (b + 1) as u32,
{
    let j = choose|j: int| 0 <= j < trace.len() && trace[j] == (b + 1) as u32;
    assert(0 <= a < b < decls.len());
    assert(trace[j] == b + 1);
    let na = nodes0[a];
    assert(edge(nodes0, a, b));
    assert(edge(nodes0, a, trace[j] - 1));
    let i = choose|i: int| 0 <= i < j && #[trigger] trace[i] == (a + 1) as u32;
    assert(0 <= i < j < trace.len() && trace[i] == (a + 1) as u32 && trace[j] == (b + 1) as u32);
}

} // verus!
