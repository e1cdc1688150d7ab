//! The cross-applet task dependency graph, built once per round from the
//! tasks all applets declared, and the node operations the resolution phase
//! uses.  Edges always point from a lower node id to a higher one, so the
//! graph is acyclic by construction and no declared task can be left
//! unreachable.

use vstd::prelude::*;
use crate::strutil::spec_starts_with;

verus! {

/// The mutual-exclusion token of one resource chain.
pub struct WasmLock {
    pub engaged: bool,
}

impl WasmLock {
    pub fn generate() -> (r: Self)
        ensures
            !r.engaged,
    {
        WasmLock { engaged: false }
    }
}

/// One node of the task graph: a declared task with its predecessor set
/// (input id and completion flag), successor set, owning applet index and the
/// one-shot started flag.
pub struct WasmTask {
    pub id: u32,
    pub name: String,
    pub inputs: Vec<(u32, bool)>,
    pub outputs: Vec<u32>,
    pub vm_index: u32,
    pub started: bool,
}

impl WasmTask {
    pub fn new() -> (r: Self)
        ensures
            r.id == 0,
            r.name@ =~= Seq::<char>::empty(),
            r.inputs@ =~= Seq::<(u32, bool)>::empty(),
            r.outputs@ =~= Seq::<u32>::empty(),
            r.vm_index == 0,
            !r.started,
    {
        WasmTask {
            id: 0,
            name: String::new(),
            inputs: Vec::new(),
            outputs: Vec::new(),
            vm_index: 0,
            started: false,
        }
    }
}

/// One declared task, flattened out of the contexts in batch order: owning
/// applet index, task name, and the declared resource names.
pub struct TaskDecl {
    pub vm_index: u32,
    pub name: String,
    pub deps: Vec<String>,
}

/// A resource name of the distinguished task-reference form.
pub open spec fn is_task_ref(r: Seq<char>) -> bool {
    spec_starts_with(r, "lock_"@)
}

/// Declaration `d` names the plain resource `r`.
pub open spec fn plain_ref(d: TaskDecl, r: Seq<char>) -> bool {
    !is_task_ref(r) && exists|i: int| 0 <= i < d.deps@.len() && #[trigger] d.deps@[i]@ == r
}

/// Declaration `d` names the plain resource `r` among its first `k` entries.
pub open spec fn ref_upto(d: TaskDecl, r: Seq<char>, k: int) -> bool {
    !is_task_ref(r) && exists|i: int| 0 <= i < k && i < d.deps@.len() && #[trigger] d.deps@[i]@ == r
}

/// Declaration `c` names the plain resource `r` within the region processed
/// by the builder: declarations before `b` wholly, declaration `b` up to its
/// `k`th resource.
pub open spec fn refs_at(decls: Seq<TaskDecl>, b: int, k: int, c: int, r: Seq<char>) -> bool {
    (0 <= c < b && plain_ref(decls[c], r)) || (0 <= c && c == b && ref_upto(decls[c], r, k))
}

/// `a` and `b` are consecutive declarations on resource `r`'s chain.
pub open spec fn chain_adjacent(decls: Seq<TaskDecl>, a: int, b: int, r: Seq<char>) -> bool {
    &&& 0 <= a < b < decls.len()
    &&& plain_ref(decls[a], r)
    &&& plain_ref(decls[b], r)
    &&& forall|c: int| a < c < b ==> !plain_ref(#[trigger] decls[c], r)
}

/// `b` is the first declaration naming resource `r`: the head of its chain.
pub open spec fn chain_head(decls: Seq<TaskDecl>, b: int, r: Seq<char>) -> bool {
    &&& 0 <= b < decls.len()
    &&& plain_ref(decls[b], r)
    &&& forall|a: int| 0 <= a < b ==> !plain_ref(#[trigger] decls[a], r)
}

/// Declaration `a` is a target of the `i`th resource of declaration `b`, read
/// as a task reference: an earlier task of the same applet with that name.
pub open spec fn task_ref_target(decls: Seq<TaskDecl>, a: int, b: int, i: int) -> bool {
    &&& 0 <= a < b < decls.len()
    &&& 0 <= i < decls[b].deps@.len()
    &&& decls[a].vm_index == decls[b].vm_index
    &&& decls[a].name@ == decls[b].deps@[i]@
}

/// The latest such target, the one the reference resolves to.
pub open spec fn last_task_ref_target(decls: Seq<TaskDecl>, a: int, b: int, i: int) -> bool {
    &&& task_ref_target(decls, a, b, i)
    &&& forall|c: int| a < c < b ==> !task_ref_target(decls, c, b, i)
}

/// Structural well-formedness of one node at index `i`: its id is `i + 1`,
/// inputs name strictly earlier nodes without repetition, outputs name
/// strictly later nodes without repetition.
pub open spec fn node_ok(s: Seq<WasmTask>, i: int) -> bool {
    let n = s[i];
    &&& n.id == i + 1
    &&& (forall|k: int| 0 <= k < n.inputs@.len() ==> 0 < (#[trigger] n.inputs@[k]).0 < n.id)
    &&& (forall|k1: int, k2: int|
        0 <= k1 < k2 < n.inputs@.len() ==> n.inputs@[k1].0 != n.inputs@[k2].0)
    &&& (forall|k: int| 0 <= k < n.outputs@.len() ==> n.id < #[trigger] n.outputs@[k] <= s.len())
    &&& (forall|k1: int, k2: int|
        0 <= k1 < k2 < n.outputs@.len() ==> n.outputs@[k1] != n.outputs@[k2])
}

/// There is an edge from node index `p` to node index `q`.
pub open spec fn edge(s: Seq<WasmTask>, p: int, q: int) -> bool {
    &&& 0 <= q < s.len()
    &&& exists|k: int| 0 <= k < s[q].inputs@.len() && (#[trigger] s[q].inputs@[k]).0 == p + 1
}

/// The completion flag of the edge from `p` to `q` is set.
pub open spec fn input_flag(s: Seq<WasmTask>, p: int, q: int) -> bool {
    &&& 0 <= q < s.len()
    &&& exists|k: int|
        0 <= k < s[q].inputs@.len() && (#[trigger] s[q].inputs@[k]).0 == p + 1
            && s[q].inputs@[k].1
}

/// Structural well-formedness of the whole node table, with input and output
/// sets mirroring each other.
pub open spec fn nodes_wf(s: Seq<WasmTask>) -> bool {
    &&& s.len() + 1 <= u32::MAX
    &&& (forall|i: int| 0 <= i < s.len() ==> node_ok(s, i))
    &&& (forall|q: int, k: int|
        0 <= q < s.len() && 0 <= k < s[q].inputs@.len() ==> s[(#[trigger] s[q].inputs@[k]).0
            - 1].outputs@.contains((q + 1) as u32))
}

/// No node has started and no completion flag is set.
pub open spec fn nodes_unstarted(s: Seq<WasmTask>) -> bool {
    &&& (forall|i: int| 0 <= i < s.len() ==> !(#[trigger] s[i]).started)
    &&& (forall|i: int, k: int|
        0 <= i < s.len() && 0 <= k < s[i].inputs@.len() ==> !(#[trigger] s[i].inputs@[k]).1)
}

/// Node metadata matches the declarations.
pub open spec fn nodes_match_decls(s: Seq<WasmTask>, decls: Seq<TaskDecl>) -> bool {
    &&& s.len() == decls.len()
    &&& (forall|i: int|
        0 <= i < s.len() ==> (#[trigger] s[i]).name@ == decls[i].name@ && s[i].vm_index
            == decls[i].vm_index)
}

pub fn outputs_contains(v: &Vec<u32>, x: u32) -> (r: bool)
    ensures
        r == v@.contains(x),
{
    let mut i: usize = 0;
    while i < v.len()
        invariant
            i <= v@.len(),
            forall|j: int| 0 <= j < i as int ==> v@[j] != x,
        decreases v@.len() - i,
    {
        if v[i] == x {
            return true;
        }
        i = i + 1;
    }
    false
}

pub fn input_key_index(v: &Vec<(u32, bool)>, x: u32) -> (r: Option<usize>)
    ensures
        match r {
            Some(i) => i < v@.len() && v@[i as int].0 == x,
            None => forall|j: int| 0 <= j < v@.len() ==> (#[trigger] v@[j]).0 != x,
        },
{
    let mut i: usize = 0;
    while i < v.len()
        invariant
            i <= v@.len(),
            forall|j: int| 0 <= j < i as int ==> (#[trigger] v@[j]).0 != x,
        decreases v@.len() - i,
    {
        if v[i].0 == x {
            return Some(i);
        }
        i = i + 1;
    }
    None
}

/// Insert the edge `p -> q` (node indices), extending both mirror sets; a
/// node is never made its own predecessor, and an existing edge is not
/// duplicated.
fn add_edge(nodes: &mut Vec<WasmTask>, p: usize, q: usize)
    requires
        nodes_wf(old(nodes)@),
        p < q < old(nodes)@.len(),
    ensures
        final(nodes)@.len() == old(nodes)@.len(),
        nodes_wf(final(nodes)@),
        edge(final(nodes)@, p as int, q as int),
        forall|a: int, b: int| edge(old(nodes)@, a, b) ==> edge(final(nodes)@, a, b),
        nodes_unstarted(old(nodes)@) ==> nodes_unstarted(final(nodes)@),
        forall|i: int|
            0 <= i < old(nodes)@.len() ==> (#[trigger] final(nodes)@[i]).id == old(nodes)@[i].id
                && final(nodes)@[i].name@ == old(nodes)@[i].name@ && final(nodes)@[i].vm_index
                == old(nodes)@[i].vm_index && final(nodes)@[i].started == old(nodes)@[i].started,
        forall|i: int|
            0 <= i < old(nodes)@.len() && i != q as int ==> (#[trigger] final(nodes)@[i]).inputs@
                == old(nodes)@[i].inputs@,
        forall|i: int|
            0 <= i < old(nodes)@.len() && i != p as int ==> (#[trigger] final(nodes)@[i]).outputs@
                == old(nodes)@[i].outputs@,
{
    let p1 = (p + 1) as u32;
    let q1 = (q + 1) as u32;
    let ghost s0 = nodes@;
    match input_key_index(&nodes[q].inputs, p1) {
        Some(i) => {
            proof {
                assert(s0[q as int].inputs@[i as int].0 == p1);
                assert(edge(nodes@, p as int, q as int));
            }
        },
        None => {
            nodes[q].inputs.push((p1, false));
            proof {
                let ni = nodes@[q as int].inputs@;
                let oi = s0[q as int].inputs@;
                assert(forall|k: int| 0 <= k < oi.len() ==> ni[k] == oi[k]);
                assert(ni.last() == (p1, false));
                assert(node_ok(s0, q as int));
                assert forall|k1: int, k2: int| 0 <= k1 < k2 < ni.len() implies ni[k1].0
                    != ni[k2].0 by {
                    if k2 == ni.len() - 1 {
                        assert(ni[k1] == oi[k1]);
                        assert(oi[k1].0 != p1);
                    } else {
                        assert(ni[k1] == oi[k1] && ni[k2] == oi[k2]);
                    }
                }
                assert forall|k: int| 0 <= k < ni.len() implies 0 < (#[trigger] ni[k]).0
                    < nodes@[q as int].id by {
                    if k < oi.len() {
                        assert(ni[k] == oi[k]);
                        assert(0 < oi[k].0 < s0[q as int].id);
                    } else {
                        assert(ni[k] == (p1, false));
                    }
                }
                assert(node_ok(nodes@, q as int));
                assert(edge(nodes@, p as int, q as int)) by {
                    assert(ni[ni.len() - 1].0 == p1);
                }
            }
        },
    }
    proof {
        assert(forall|i: int|
            0 <= i < nodes@.len() && i != q as int ==> nodes@[i] == s0[i]);
        assert(forall|i: int| 0 <= i < nodes@.len() ==> node_ok(nodes@, i)) by {
            assert(forall|i: int|
                0 <= i < nodes@.len() && i != q as int ==> node_ok(s0, i) && nodes@[i] == s0[i]);
        }
        assert forall|a: int, b: int| edge(s0, a, b) implies edge(nodes@, a, b) by {
            let k = choose|k: int|
                0 <= k < s0[b].inputs@.len() && (#[trigger] s0[b].inputs@[k]).0 == a + 1;
            assert(nodes@[b].inputs@[k].0 == a + 1);
        }
    }
    let ghost s1 = nodes@;
    if !outputs_contains(&nodes[p].outputs, q1) {
        nodes[p].outputs.push(q1);
        proof {
            let no = nodes@[p as int].outputs@;
            let oo = s1[p as int].outputs@;
            assert(forall|k: int| 0 <= k < oo.len() ==> no[k] == oo[k]);
            assert(no.last() == q1);
            assert(node_ok(s1, p as int));
            assert forall|k1: int, k2: int| 0 <= k1 < k2 < no.len() implies no[k1]
                != no[k2] by {
                if k2 == no.len() - 1 {
                    assert(no[k1] == oo[k1]);
                    assert(oo[k1] != q1);
                } else {
                    assert(no[k1] == oo[k1] && no[k2] == oo[k2]);
                }
            }
            assert forall|k: int| 0 <= k < no.len() implies nodes@[p as int].id
                < #[trigger] no[k] <= nodes@.len() by {
                if k < oo.len() {
                    assert(no[k] == oo[k]);
                    assert(s1[p as int].id < oo[k] <= s1.len());
                } else {
                    assert(no[k] == q1);
                }
            }
            assert(node_ok(nodes@, p as int));
        }
    }
    proof {
        assert(forall|i: int|
            0 <= i < nodes@.len() && i != p as int ==> nodes@[i] == s1[i]);
        assert(forall|i: int| 0 <= i < nodes@.len() ==> node_ok(nodes@, i)) by {
            assert(forall|i: int|
                0 <= i < nodes@.len() && i != p as int ==> node_ok(s1, i) && nodes@[i] == s1[i]);
            assert(node_ok(nodes@, p as int));
        }
        assert forall|a: int, b: int| edge(s1, a, b) implies edge(nodes@, a, b) by {
            let k = choose|k: int|
                0 <= k < s1[b].inputs@.len() && (#[trigger] s1[b].inputs@[k]).0 == a + 1;
            assert(nodes@[b].inputs@[k].0 == a + 1);
        }
        assert(edge(nodes@, p as int, q as int));
        assert(nodes@[p as int].outputs@.contains(q1)) by {
            if s1[p as int].outputs@.len() != nodes@[p as int].outputs@.len() {
                assert(nodes@[p as int].outputs@.last() == q1);
            } else {
                let k = choose|k: int|
                    0 <= k < s1[p as int].outputs@.len() && s1[p as int].outputs@[k] == q1;
                assert(nodes@[p as int].outputs@[k] == q1);
            }
        }
        assert(forall|i: int| 0 <= i < nodes@.len() ==> nodes@[i].inputs@ == s1[i].inputs@);
        assert(forall|i: int| 0 <= i < nodes@.len() ==> s1[i].outputs@ == s0[i].outputs@);
        assert forall|qq: int, k: int|
            0 <= qq < nodes@.len() && 0 <= k < nodes@[qq].inputs@.len() implies nodes@[(
        nodes@[qq].inputs@[k]).0 - 1].outputs@.contains((qq + 1) as u32) by {
            assert(node_ok(nodes@, qq));
            let pp = (nodes@[qq].inputs@[k].0 - 1) as int;
            assert(0 <= pp < nodes@.len());
            if qq == q as int && k == nodes@[qq].inputs@.len() - 1 && s0[q as int].inputs@.len()
                != nodes@[q as int].inputs@.len() {
                assert(nodes@[qq].inputs@[k].0 == p1);
                assert(pp == p as int);
                assert(nodes@[p as int].outputs@.contains(q1));
            } else {
                assert(s0[qq].inputs@[k] == nodes@[qq].inputs@[k]);
                assert(s0[pp].outputs@.contains((qq + 1) as u32));
                let kk = choose|kk: int|
                    0 <= kk < s0[pp].outputs@.len() && s0[pp].outputs@[kk] == (qq + 1) as u32;
                if pp == p as int {
                    assert(forall|j: int|
                        0 <= j < s1[p as int].outputs@.len() ==> nodes@[p as int].outputs@[j]
                            == s1[p as int].outputs@[j]);
                    assert(nodes@[pp].outputs@[kk] == (qq + 1) as u32);
                } else {
                    assert(nodes@[pp].outputs@ == s0[pp].outputs@);
                    assert(nodes@[pp].outputs@[kk] == (qq + 1) as u32);
                }
            }
        }
    }
}

/// A resource chain: the total order of the batch's tasks naming one plain
/// resource.  `head` is the first declaring node (a start point), `tail` the
/// latest one seen.
pub struct ResourceChain {
    pub name: String,
    pub head: u32,
    pub tail: u32,
    pub lock: WasmLock,
}

/// The dependency graph of one round.
pub struct TaskGraph {
    pub nodes: Vec<WasmTask>,
    pub start_points: Vec<u32>,
    pub chain_count: usize,
}

impl TaskGraph {
    /// Everything the resolution phase needs: structure, virgin flags, and a
    /// start set covering every node without predecessors.
    pub open spec fn wf(&self) -> bool {
        &&& nodes_wf(self.nodes@)
        &&& (forall|k: int|
            0 <= k < self.start_points@.len() ==> 1 <= #[trigger] self.start_points@[k]
                <= self.nodes@.len())
        &&& (forall|i: int|
            0 <= i < self.nodes@.len() && (#[trigger] self.nodes@[i]).inputs@.len() == 0
                ==> self.start_points@.contains((i + 1) as u32))
    }
}



/// Some resource's chain starts at declaration `b`.
pub open spec fn heads_some_chain(decls: Seq<TaskDecl>, b: int) -> bool {
    exists|r: Seq<char>| chain_head(decls, b, r)
}

/// Adjacency of two declarations on resource `r` within the region the
/// builder has processed.
pub open spec fn adjacent_at(
    decls: Seq<TaskDecl>,
    b: int,
    k: int,
    a: int,
    c: int,
    r: Seq<char>,
) -> bool {
    &&& 0 <= a < c
    &&& refs_at(decls, b, k, a, r)
    &&& refs_at(decls, b, k, c, r)
    &&& forall|m: int| a < m < c ==> !refs_at(decls, b, k, m, r)
}

/// Processing one more resource of declaration `b` extends the reference
/// region by exactly that resource.
proof fn lemma_refs_at_step(decls: Seq<TaskDecl>, b: int, k: int, c: int, r: Seq<char>)
    requires
        0 <= b < decls.len(),
        0 <= k < decls[b].deps@.len(),
    ensures
        refs_at(decls, b, k + 1, c, r) <==> (refs_at(decls, b, k, c, r) || (c == b && !is_task_ref(
            r,
        ) && decls[b].deps@[k]@ == r)),
{
    if refs_at(decls, b, k + 1, c, r) && !refs_at(decls, b, k, c, r) {
        if c == b && ref_upto(decls[b], r, k + 1) {
            let i = choose|i: int|
                0 <= i < k + 1 && i < decls[b].deps@.len() && #[trigger] decls[b].deps@[i]@ == r;
            if i < k {
                assert(ref_upto(decls[b], r, k));
            } else {
                assert(decls[b].deps@[k]@ == r);
            }
        }
    }
    if c == b && !is_task_ref(r) && decls[b].deps@[k]@ == r {
        assert(ref_upto(decls[b], r, k + 1));
    }
}

/// Finishing declaration `b` leaves the same region as starting `b + 1`.
proof fn lemma_refs_at_decl_done(decls: Seq<TaskDecl>, b: int, c: int, r: Seq<char>)
    requires
        0 <= b < decls.len(),
    ensures
        refs_at(decls, b + 1, 0, c, r) <==> refs_at(decls, b, decls[b].deps@.len() as int, c, r),
{
    let len = decls[b].deps@.len() as int;
    if c == b {
        if plain_ref(decls[b], r) {
            let i = choose|i: int|
                0 <= i < decls[b].deps@.len() && #[trigger] decls[b].deps@[i]@ == r;
            assert(ref_upto(decls[b], r, len));
        }
        if ref_upto(decls[b], r, len) {
            assert(plain_ref(decls[b], r));
        }
    }
}

/// At the end of the walk the region covers exactly the plain references of
/// the whole declaration list.
proof fn lemma_refs_at_end(decls: Seq<TaskDecl>, c: int, r: Seq<char>)
    ensures
        refs_at(decls, decls.len() as int, 0, c, r) <==> (0 <= c < decls.len() && plain_ref(
            decls[c],
            r,
        )),
{
}

fn chain_index(chains: &Vec<ResourceChain>, name: &String) -> (r: Option<usize>)
    ensures
        match r {
            Some(ci) => ci < chains@.len() && chains@[ci as int].name@ == name@,
            None => forall|ci: int| 0 <= ci < chains@.len() ==> (#[trigger] chains@[ci]).name@
                != name@,
        },
{
    let mut i: usize = 0;
    while i < chains.len()
        invariant
            i <= chains@.len(),
            forall|j: int| 0 <= j < i as int ==> (#[trigger] chains@[j]).name@ != name@,
        decreases chains@.len() - i,
    {
        if chains[i].name == *name {
            return Some(i);
        }
        i = i + 1;
    }
    None
}

/// The latest earlier declaration of the same applet whose task name matches
/// resource `k` of declaration `b`: the node a task reference resolves to.
fn find_task_ref_target(decls: &Vec<TaskDecl>, b: usize, k: usize) -> (r: Option<usize>)
    requires
        b < decls@.len(),
        k < decls@[b as int].deps@.len(),
    ensures
        match r {
            Some(a) => a < b && last_task_ref_target(decls@, a as int, b as int, k as int),
            None => forall|a: int| !task_ref_target(decls@, a, b as int, k as int),
        },
{
    let mut a: usize = b;
    while a > 0
        invariant
            a <= b,
            b < decls@.len(),
            k < decls@[b as int].deps@.len(),
            forall|c: int| a as int <= c < b as int ==> !task_ref_target(decls@, c, b as int, k as int),
        decreases a,
    {
        a = a - 1;
        if decls[a].vm_index == decls[b].vm_index && decls[a].name == decls[b].deps[k] {
            return Some(a);
        }
        proof {
            assert(!task_ref_target(decls@, a as int, b as int, k as int));
        }
    }
    None
}


/// Everything the builder maintains about one chain entry `ci` at region
/// `(b, k)`: its tail is the latest declaration so far naming the resource.
pub open spec fn builder_chain_ok(
    decls: Seq<TaskDecl>,
    chains: Seq<ResourceChain>,
    b: int,
    k: int,
    ci: int,
) -> bool {
    let t = chains[ci].tail as int;
    let r = chains[ci].name@;
    &&& !is_task_ref(r)
    &&& 1 <= t <= b + 1
    &&& t <= decls.len()
    &&& refs_at(decls, b, k, t - 1, r)
    &&& (forall|c: int| t - 1 < c <= b ==> !refs_at(decls, b, k, c, r))
}

/// The head recorded for chain `ci` is the first declaration naming it, and
/// it is a start point.
pub open spec fn builder_head_ok(
    decls: Seq<TaskDecl>,
    chains: Seq<ResourceChain>,
    start_points: Seq<u32>,
    b: int,
    k: int,
    ci: int,
) -> bool {
    let h = chains[ci].head as int;
    let r = chains[ci].name@;
    &&& 1 <= h <= decls.len()
    &&& start_points.contains(chains[ci].head)
    &&& refs_at(decls, b, k, h - 1, r)
    &&& (forall|c: int| 0 <= c < h - 1 ==> !refs_at(decls, b, k, c, r))
}


/// Some chain's head is this start point.
pub open spec fn sp_has_head(chains: Seq<ResourceChain>, h: u32) -> bool {
    exists|ci: int| 0 <= ci < chains.len() && (#[trigger] chains[ci]).head == h
}

/// The builder's full invariant over the region `(b, k)`.
pub open spec fn builder_inv(
    decls: Seq<TaskDecl>,
    nodes: Seq<WasmTask>,
    chains: Seq<ResourceChain>,
    start_points: Seq<u32>,
    b: int,
    k: int,
) -> bool {
    &&& (forall|ci: int, cj: int|
        0 <= ci < cj < chains.len() ==> chains[ci].name@ != chains[cj].name@)
    &&& (forall|ci: int| 0 <= ci < chains.len() ==> builder_chain_ok(decls, chains, b, k, ci))
    &&& (forall|ci: int|
        0 <= ci < chains.len() ==> builder_head_ok(decls, chains, start_points, b, k, ci))
    &&& (forall|c: int, r: Seq<char>|
        #[trigger] refs_at(decls, b, k, c, r) ==> exists|ci: int|
            0 <= ci < chains.len() && (#[trigger] chains[ci]).name@ == r)
    &&& (forall|sp: int|
        0 <= sp < start_points.len() ==> sp_has_head(chains, #[trigger] start_points[sp]))
    &&& (forall|a: int, c: int, r: Seq<char>|
        #[trigger] adjacent_at(decls, b, k, a, c, r) ==> edge(nodes, a, c))
    &&& (forall|a: int, c: int, i: int|
        #[trigger] last_task_ref_target(decls, a, c, i) && is_task_ref(decls[c].deps@[i]@) && (c
            < b || (c == b && i < k)) ==> edge(nodes, a, c))
}


/// When two processed regions admit exactly the same plain references, every
/// invariant clause but the task-reference law carries from one to the other
/// (edges may only have been added).
proof fn lemma_region_carries(
    decls: Seq<TaskDecl>,
    nodes_pre: Seq<WasmTask>,
    nodes: Seq<WasmTask>,
    chains: Seq<ResourceChain>,
    start_points: Seq<u32>,
    b0: int,
    k0: int,
    b1: int,
    k1: int,
)
    requires
        builder_inv(decls, nodes_pre, chains, start_points, b0, k0),
        forall|c: int, r: Seq<char>| #[trigger]
            refs_at(decls, b1, k1, c, r) == refs_at(decls, b0, k0, c, r),
        forall|a: int, c: int| edge(nodes_pre, a, c) ==> edge(nodes, a, c),
        0 <= b0 <= b1,
        forall|a: int, c: int, i: int|
            #[trigger] last_task_ref_target(decls, a, c, i) && is_task_ref(decls[c].deps@[i]@) && (c
                < b1 || (c == b1 && i < k1)) ==> edge(nodes, a, c),
    ensures
        builder_inv(decls, nodes, chains, start_points, b1, k1),
{
    assert forall|ci: int| 0 <= ci < chains.len() implies builder_chain_ok(
        decls,
        chains,
        b1,
        k1,
        ci,
    ) by {
        assert(builder_chain_ok(decls, chains, b0, k0, ci));
        let t = chains[ci].tail as int;
        let r = chains[ci].name@;
        assert(refs_at(decls, b1, k1, t - 1, r));
        assert forall|c: int| t - 1 < c <= b1 implies !refs_at(decls, b1, k1, c, r) by {
            if c > b0 {
                assert(!refs_at(decls, b0, k0, c, r));
            }
        }
    }
    assert forall|ci: int| 0 <= ci < chains.len() implies builder_head_ok(
        decls,
        chains,
        start_points,
        b1,
        k1,
        ci,
    ) by {
        assert(builder_head_ok(decls, chains, start_points, b0, k0, ci));
    }
    assert forall|a: int, c: int, r: Seq<char>| #[trigger]
        adjacent_at(decls, b1, k1, a, c, r) implies edge(nodes, a, c) by {
        assert(adjacent_at(decls, b0, k0, a, c, r)) by {
            assert forall|m: int| a < m < c implies !refs_at(decls, b0, k0, m, r) by {
                assert(!refs_at(decls, b1, k1, m, r));
            }
        }
        assert(edge(nodes_pre, a, c));
    }
}

/// The laws the builder promises, read off the final invariant state.
proof fn lemma_builder_final(
    decls: Seq<TaskDecl>,
    nodes: Seq<WasmTask>,
    chains: Seq<ResourceChain>,
    sp2: Seq<u32>,
    sp: Seq<u32>,
)
    requires
        builder_inv(decls, nodes, chains, sp2, decls.len() as int, 0),
        nodes.len() == decls.len(),
        forall|j: int| 0 <= j < sp2.len() ==> sp.contains(#[trigger] sp2[j]),
        forall|kk: int|
            0 <= kk < sp.len() ==> sp2.contains(#[trigger] sp[kk]) || (1 <= sp[kk] <= nodes.len()
                && nodes[sp[kk] - 1].inputs@.len() == 0),
        forall|j: int|
            0 <= j < nodes.len() && (#[trigger] nodes[j]).inputs@.len() == 0 ==> sp.contains(
                (j + 1) as u32,
            ),
    ensures
        forall|kk: int| 0 <= kk < sp.len() ==> 1 <= #[trigger] sp[kk] <= nodes.len(),
        forall|a: int, b: int, r: Seq<char>| #[trigger]
            chain_adjacent(decls, a, b, r) ==> edge(nodes, a, b),
        forall|a: int, b: int, i: int| #[trigger]
            last_task_ref_target(decls, a, b, i) && is_task_ref(decls[b].deps@[i]@) ==> edge(
                nodes,
                a,
                b,
            ),
        forall|b: int, r: Seq<char>| #[trigger]
            chain_head(decls, b, r) ==> sp.contains((b + 1) as u32),
        forall|kk: int|
            0 <= kk < sp.len() ==> heads_some_chain(decls, (#[trigger] sp[kk]) - 1) || nodes[sp[kk]
                - 1].inputs@.len() == 0,
{
    let n = decls.len() as int;
    assert forall|c: int, r: Seq<char>| #[trigger]
        refs_at(decls, n, 0, c, r) == (0 <= c < n && plain_ref(decls[c], r)) by {
        lemma_refs_at_end(decls, c, r);
    }
    assert forall|kk: int| 0 <= kk < sp.len() implies 1 <= #[trigger] sp[kk] <= nodes.len() by {
        if sp2.contains(sp[kk]) {
            let j = choose|j: int| 0 <= j < sp2.len() && sp2[j] == sp[kk];
            assert(sp_has_head(chains, sp2[j]));
            let ci = choose|ci: int|
                0 <= ci < chains.len() && (#[trigger] chains[ci]).head == sp2[j];
            assert(builder_head_ok(decls, chains, sp2, n, 0, ci));
        }
    }
    assert forall|a: int, b: int, r: Seq<char>| #[trigger]
        chain_adjacent(decls, a, b, r) implies edge(nodes, a, b) by {
        assert(adjacent_at(decls, n, 0, a, b, r));
    }
    assert forall|b: int, r: Seq<char>| #[trigger] chain_head(decls, b, r) implies sp.contains(
        (b + 1) as u32,
    ) by {
        assert(refs_at(decls, n, 0, b, r));
        let ci = choose|ci: int| 0 <= ci < chains.len() && (#[trigger] chains[ci]).name@ == r;
        assert(builder_head_ok(decls, chains, sp2, n, 0, ci));
        let h = chains[ci].head as int;
        assert(h - 1 == b) by {
            if h - 1 < b {
                assert(refs_at(decls, n, 0, h - 1, r));
                assert(plain_ref(decls[h - 1], r));
            } else if h - 1 > b {
                assert(refs_at(decls, n, 0, b, r));
                assert(!refs_at(decls, n, 0, b, r));
            }
        }
        assert(sp2.contains(chains[ci].head));
        let j = choose|j: int| 0 <= j < sp2.len() && sp2[j] == chains[ci].head;
        assert(sp.contains(sp2[j]));
    }
    assert forall|kk: int|
        0 <= kk < sp.len() implies heads_some_chain(decls, (#[trigger] sp[kk]) - 1) || nodes[sp[kk]
        - 1].inputs@.len() == 0 by {
        if sp2.contains(sp[kk]) {
            let j = choose|j: int| 0 <= j < sp2.len() && sp2[j] == sp[kk];
            assert(sp_has_head(chains, sp2[j]));
            let ci = choose|ci: int|
                0 <= ci < chains.len() && (#[trigger] chains[ci]).head == sp2[j];
            assert(builder_head_ok(decls, chains, sp2, n, 0, ci));
            let h = chains[ci].head as int;
            let r = chains[ci].name@;
            assert(chain_head(decls, h - 1, r)) by {
                assert(refs_at(decls, n, 0, h - 1, r));
                assert(plain_ref(decls[h - 1], r));
                assert forall|a: int| 0 <= a < h - 1 implies !plain_ref(
                    #[trigger] decls[a],
                    r,
                ) by {
                    assert(!refs_at(decls, n, 0, a, r));
                }
            }
            assert(sp[kk] - 1 == h - 1);
        }
    }
}


/// The distinct plain resource names the declarations reference.
pub open spec fn decl_resource_set(decls: Seq<TaskDecl>) -> Set<Seq<char>> {
    Set::new(|r: Seq<char>| exists|c: int| 0 <= c < decls.len() && #[trigger] plain_ref(decls[c], r))
}

/// The names of the builder's chains.
pub open spec fn chain_name_set(chains: Seq<ResourceChain>) -> Set<Seq<char>> {
    Set::new(|r: Seq<char>| exists|ci: int| 0 <= ci < chains.len() && (#[trigger] chains[ci]).name@ == r)
}

/// Distinct chain names make a set of exactly the chains' count.
proof fn lemma_chain_name_count(chains: Seq<ResourceChain>)
    requires
        forall|ci: int, cj: int| 0 <= ci < cj < chains.len() ==> chains[ci].name@ != chains[cj].name@,
    ensures
        chain_name_set(chains).finite(),
        chain_name_set(chains).len() == chains.len(),
    decreases chains.len(),
{
    if chains.len() == 0 {
        assert(chain_name_set(chains) =~= Set::<Seq<char>>::empty());
    } else {
        let rest = chains.drop_last();
        lemma_chain_name_count(rest);
        assert(chain_name_set(chains) =~= chain_name_set(rest).insert(chains.last().name@)) by {
            assert forall|r: Seq<char>| chain_name_set(chains).contains(r) implies chain_name_set(
                rest,
            ).insert(chains.last().name@).contains(r) by {
                let ci = choose|ci: int|
                    0 <= ci < chains.len() && (#[trigger] chains[ci]).name@ == r;
                if ci < chains.len() - 1 {
                    assert(rest[ci].name@ == r);
                }
            }
            assert forall|r: Seq<char>| chain_name_set(rest).insert(
                chains.last().name@,
            ).contains(r) implies chain_name_set(chains).contains(r) by {
                if r == chains.last().name@ {
                    assert(chains[chains.len() - 1].name@ == r);
                } else {
                    let ci = choose|ci: int| 0 <= ci < rest.len() && (#[trigger] rest[ci]).name@ == r;
                    assert(chains[ci].name@ == r);
                }
            }
        }
        assert(!chain_name_set(rest).contains(chains.last().name@)) by {
            if chain_name_set(rest).contains(chains.last().name@) {
                let ci = choose|ci: int|
                    0 <= ci < rest.len() && (#[trigger] rest[ci]).name@ == chains.last().name@;
                assert(chains[ci].name@ == chains[chains.len() - 1].name@);
            }
        }
        vstd::set::axiom_set_insert_len(chain_name_set(rest), chains.last().name@);
    }
}

/// Build the round's dependency graph from the declarations of all applets,
/// flattened in batch order then declaration order.
///
/// The ensured laws: node metadata mirrors the declarations and every flag is
/// virgin; consecutive declarations on one resource chain are linked by an
/// edge; a task reference is linked from the latest earlier task of the same
/// applet with the referenced name; the first declaration on each chain is a
/// start point; and every start point is a chain head or a node without
/// predecessors.
#[verifier::rlimit(100)]
pub fn build_task_graph(decls: &Vec<TaskDecl>) -> (g: TaskGraph)
    requires
        decls@.len() + 1 <= u32::MAX,
    ensures
        g.wf(),
        nodes_unstarted(g.nodes@),
        nodes_match_decls(g.nodes@, decls@),
        forall|a: int, b: int, r: Seq<char>| #[trigger]
            chain_adjacent(decls@, a, b, r) ==> edge(g.nodes@, a, b),
        forall|a: int, b: int, i: int| #[trigger]
            last_task_ref_target(decls@, a, b, i) && is_task_ref(decls@[b].deps@[i]@) ==> edge(
                g.nodes@,
                a,
                b,
            ),
        forall|b: int, r: Seq<char>| #[trigger]
            chain_head(decls@, b, r) ==> g.start_points@.contains((b + 1) as u32),
        forall|kk: int|
            0 <= kk < g.start_points@.len() ==> heads_some_chain(
                decls@,
                (#[trigger] g.start_points@[kk]) - 1,
            ) || g.nodes@[g.start_points@[kk] - 1].inputs@.len() == 0,
        g.chain_count == decl_resource_set(decls@).len(),
{
    let n = decls.len();
    let mut nodes: Vec<WasmTask> = Vec::new();
    let mut b: usize = 0;
    while b < n
        invariant
            b <= n,
            n == decls@.len(),
            decls@.len() + 1 <= u32::MAX,
            nodes@.len() == b,
            forall|i: int|
                0 <= i < b as int ==> (#[trigger] nodes@[i]).id == i + 1 && nodes@[i].inputs@.len()
                    == 0 && nodes@[i].outputs@.len() == 0 && !nodes@[i].started && nodes@[i].name@
                    == decls@[i].name@ && nodes@[i].vm_index == decls@[i].vm_index,
        decreases n - b,
    {
        nodes.push(
            WasmTask {
                id: (b + 1) as u32,
                name: decls[b].name.clone(),
                inputs: Vec::new(),
                outputs: Vec::new(),
                vm_index: decls[b].vm_index,
                started: false,
            },
        );
        b = b + 1;
    }
    proof {
        assert(nodes_wf(nodes@));
        assert(nodes_unstarted(nodes@));
        assert(nodes_match_decls(nodes@, decls@));
    }
    let mut chains: Vec<ResourceChain> = Vec::new();
    let mut start_points: Vec<u32> = Vec::new();
    let mut b: usize = 0;
    while b < n
        invariant
            b <= n,
            n == decls@.len(),
            decls@.len() + 1 <= u32::MAX,
            nodes@.len() == n,
            nodes_wf(nodes@),
            nodes_unstarted(nodes@),
            nodes_match_decls(nodes@, decls@),
            builder_inv(decls@, nodes@, chains@, start_points@, b as int, 0),
        decreases n - b,
    {
        let deps_len = decls[b].deps.len();
        let mut k: usize = 0;
        while k < deps_len
            invariant
                b < n,
                k <= deps_len,
                deps_len == decls@[b as int].deps@.len(),
                n == decls@.len(),
                decls@.len() + 1 <= u32::MAX,
                nodes@.len() == n,
                nodes_wf(nodes@),
                nodes_unstarted(nodes@),
                nodes_match_decls(nodes@, decls@),
                builder_inv(decls@, nodes@, chains@, start_points@, b as int, k as int),
            decreases deps_len - k,
        {
            let is_lock = crate::strutil::str_starts_with(decls[b].deps[k].as_str(), "lock_");
            let ghost nodes_pre = nodes@;
            let ghost chains_pre = chains@;
            let ghost rk = decls@[b as int].deps@[k as int]@;
            if is_lock {
                let found = find_task_ref_target(decls, b, k);
                match found {
                    Some(a) => {
                        add_edge(&mut nodes, a, b);
                    },
                    None => {},
                }
                proof {
                    assert(is_task_ref(rk));
                    assert forall|c: int, r: Seq<char>| #[trigger]
                        refs_at(decls@, b as int, k + 1 as int, c, r) == refs_at(
                        decls@,
                        b as int,
                        k as int,
                        c,
                        r,
                    ) by {
                        lemma_refs_at_step(decls@, b as int, k as int, c, r);
                    }
                    assert forall|a: int, c: int, i: int| #[trigger]
                        last_task_ref_target(decls@, a, c, i) && is_task_ref(decls@[c].deps@[i]@)
                            && (c < b as int || (c == b as int && i < k + 1)) implies edge(
                        nodes@,
                        a,
                        c,
                    ) by {
                        if c == b as int && i == k as int {
                            match found {
                                Some(aa) => {
                                    assert(last_task_ref_target(decls@, aa as int, b as int, k as int));
                                    assert(a == aa as int) by {
                                        if a < aa as int {
                                            assert(task_ref_target(decls@, aa as int, c, i));
                                        } else if a > aa as int {
                                            assert(task_ref_target(decls@, a, c, i));
                                        }
                                    }
                                    assert(edge(nodes@, a, c));
                                },
                                None => {
                                    assert(!task_ref_target(decls@, a, c, i));
                                },
                            }
                        } else {
                            assert(edge(nodes_pre, a, c));
                        }
                    }
                    lemma_region_carries(
                        decls@,
                        nodes_pre,
                        nodes@,
                        chains@,
                        start_points@,
                        b as int,
                        k as int,
                        b as int,
                        k + 1,
                    );
                }
            } else {
                match chain_index(&chains, &decls[b].deps[k]) {
                    Some(ci) => {
                        let t = chains[ci].tail;
                        if t as usize != b + 1 {
                            proof {
                                assert(builder_chain_ok(decls@, chains@, b as int, k as int, ci as int));
                                assert(1 <= t <= b);
                            }
                            add_edge(&mut nodes, (t - 1) as usize, b);
                            chains[ci].tail = (b + 1) as u32;
                        }
                        proof {
                            assert(!is_task_ref(rk));
                            assert(chains@[ci as int].name@ == rk);
                            assert forall|c: int, r: Seq<char>| #[trigger]
                                refs_at(decls@, b as int, k + 1 as int, c, r) == (refs_at(
                                decls@,
                                b as int,
                                k as int,
                                c,
                                r,
                            ) || (c == b as int && r == rk)) by {
                                lemma_refs_at_step(decls@, b as int, k as int, c, r);
                            }
                            let t = chains_pre[ci as int].tail as int;
                            assert(builder_chain_ok(decls@, chains_pre, b as int, k as int, ci as int));
                            assert forall|cj: int| #![trigger chains@[cj]]
                                0 <= cj < chains@.len() implies builder_chain_ok(
                                decls@,
                                chains@,
                                b as int,
                                k + 1,
                                cj,
                            ) by {
                                if cj != ci as int || t == b + 1 {
                                    assert(chains@[cj] == chains_pre[cj]);
                                    assert(builder_chain_ok(decls@, chains_pre, b as int, k as int, cj));
                                    if chains@[cj].name@ == rk {
                                        assert(cj == ci as int);
                                    }
                                } else {
                                    assert(chains@[cj].tail == (b + 1) as u32);
                                    assert(refs_at(decls@, b as int, k + 1, b as int, rk));
                                }
                            }
                            assert forall|cj: int| #![trigger chains@[cj]]
                                0 <= cj < chains@.len() implies builder_head_ok(
                                decls@,
                                chains@,
                                start_points@,
                                b as int,
                                k + 1,
                                cj,
                            ) by {
                                assert(chains@[cj].head == chains_pre[cj].head);
                                assert(chains@[cj].name@ == chains_pre[cj].name@);
                                assert(builder_head_ok(
                                    decls@,
                                    chains_pre,
                                    start_points@,
                                    b as int,
                                    k as int,
                                    cj,
                                ));
                                let h = chains@[cj].head as int;
                                if chains@[cj].name@ == rk {
                                    assert(cj == ci as int);
                                    assert(h - 1 <= b as int);
                                }
                            }
                            assert forall|c: int, r: Seq<char>| #[trigger]
                                refs_at(decls@, b as int, k + 1, c, r) implies exists|cj: int|
                                0 <= cj < chains@.len() && (#[trigger] chains@[cj]).name@
                                    == r by {
                                if refs_at(decls@, b as int, k as int, c, r) {
                                    let cj = choose|cj: int|
                                        0 <= cj < chains_pre.len() && (#[trigger] chains_pre[cj]).name@
                                            == r;
                                    assert(chains@[cj].name@ == r);
                                } else {
                                    assert(chains@[ci as int].name@ == r);
                                }
                            }
                            assert forall|sp: int|
                                0 <= sp < start_points@.len() implies sp_has_head(
                                chains@,
                                #[trigger] start_points@[sp],
                            ) by {
                                assert(sp_has_head(chains_pre, start_points@[sp]));
                                let cj = choose|cj: int|
                                    0 <= cj < chains_pre.len() && (#[trigger] chains_pre[cj]).head
                                        == start_points@[sp];
                                assert(chains@[cj].head == start_points@[sp]);
                            }
                            assert forall|a: int, c: int, r: Seq<char>| #[trigger]
                                adjacent_at(decls@, b as int, k + 1, a, c, r) implies edge(
                                nodes@,
                                a,
                                c,
                            ) by {
                                if refs_at(decls@, b as int, k as int, c, r) {
                                    assert(adjacent_at(decls@, b as int, k as int, a, c, r)) by {
                                        assert(refs_at(decls@, b as int, k as int, a, r)) by {
                                            if !refs_at(decls@, b as int, k as int, a, r) {
                                                assert(a == b as int && r == rk);
                                            }
                                        }
                                        assert forall|m: int| a < m < c implies !refs_at(
                                            decls@,
                                            b as int,
                                            k as int,
                                            m,
                                            r,
                                        ) by {
                                            assert(!refs_at(decls@, b as int, k + 1, m, r));
                                        }
                                    }
                                    assert(edge(nodes_pre, a, c));
                                    assert(edge(nodes@, a, c));
                                } else {
                                    assert(c == b as int && r == rk);
                                    assert(t != b + 1);
                                    assert(refs_at(decls@, b as int, k as int, t - 1, rk));
                                    assert(a == t - 1) by {
                                        if a < t - 1 {
                                            assert(refs_at(decls@, b as int, k + 1, t - 1, rk));
                                            assert(!refs_at(decls@, b as int, k + 1, t - 1, rk));
                                        } else if a > t - 1 {
                                            assert(!refs_at(decls@, b as int, k as int, a, rk));
                                            assert(refs_at(decls@, b as int, k + 1, a, rk));
                                            assert(a == b as int);
                                        }
                                    }
                                    assert(edge(nodes@, a, c));
                                }
                            }
                            assert forall|a: int, c: int, i: int| #[trigger]
                                last_task_ref_target(decls@, a, c, i) && is_task_ref(
                                decls@[c].deps@[i]@,
                            ) && (c < b as int || (c == b as int && i < k + 1)) implies edge(
                                nodes@,
                                a,
                                c,
                            ) by {
                                if c == b as int && i == k as int {
                                    assert(!is_task_ref(rk));
                                } else {
                                    assert(edge(nodes_pre, a, c));
                                }
                            }
                        }
                    },
                    None => {
                        chains.push(
                            ResourceChain {
                                name: decls[b].deps[k].clone(),
                                head: (b + 1) as u32,
                                tail: (b + 1) as u32,
                                lock: WasmLock::generate(),
                            },
                        );
                        let ghost sp_pre = start_points@;
                        start_points.push((b + 1) as u32);
                        proof {
                            assert(!is_task_ref(rk));
                            let nc = chains@.len() - 1;
                            assert(chains@[nc].name@ == rk);
                            assert(forall|cj: int| 0 <= cj < nc ==> chains@[cj] == chains_pre[cj]);
                            assert forall|c: int, r: Seq<char>| #[trigger]
                                refs_at(decls@, b as int, k + 1 as int, c, r) == (refs_at(
                                decls@,
                                b as int,
                                k as int,
                                c,
                                r,
                            ) || (c == b as int && r == rk)) by {
                                lemma_refs_at_step(decls@, b as int, k as int, c, r);
                            }
                            assert forall|c: int| !refs_at(decls@, b as int, k as int, c, rk) by {
                                if refs_at(decls@, b as int, k as int, c, rk) {
                                    let cj = choose|cj: int|
                                        0 <= cj < chains_pre.len() && (#[trigger] chains_pre[cj]).name@
                                            == rk;
                                }
                            }
                            assert forall|cj: int| #![trigger chains@[cj]]
                                0 <= cj < chains@.len() implies builder_chain_ok(
                                decls@,
                                chains@,
                                b as int,
                                k + 1,
                                cj,
                            ) && builder_head_ok(
                                decls@,
                                chains@,
                                start_points@,
                                b as int,
                                k + 1,
                                cj,
                            ) by {
                                if cj < nc {
                                    assert(builder_chain_ok(decls@, chains_pre, b as int, k as int, cj));
                                    assert(builder_head_ok(
                                        decls@,
                                        chains_pre,
                                        sp_pre,
                                        b as int,
                                        k as int,
                                        cj,
                                    ));
                                    assert(chains@[cj].name@ != rk);
                                    let w = choose|w: int|
                                        0 <= w < sp_pre.len() && sp_pre[w] == chains_pre[cj].head;
                                    assert(start_points@[w] == chains@[cj].head);
                                } else {
                                    assert(refs_at(decls@, b as int, k + 1, b as int, rk));
                                    assert(start_points@.last() == (b + 1) as u32);
                                }
                            }
                            assert forall|c: int, r: Seq<char>| #[trigger]
                                refs_at(decls@, b as int, k + 1, c, r) implies exists|cj: int|
                                0 <= cj < chains@.len() && (#[trigger] chains@[cj]).name@
                                    == r by {
                                if refs_at(decls@, b as int, k as int, c, r) {
                                    let cj = choose|cj: int|
                                        0 <= cj < chains_pre.len() && (#[trigger] chains_pre[cj]).name@
                                            == r;
                                    assert(chains@[cj].name@ == r);
                                } else {
                                    assert(chains@[nc].name@ == r);
                                }
                            }
                            assert forall|sp: int|
                                0 <= sp < start_points@.len() implies sp_has_head(
                                chains@,
                                #[trigger] start_points@[sp],
                            ) by {
                                if sp < sp_pre.len() {
                                    assert(sp_has_head(chains_pre, sp_pre[sp]));
                                    let cj = choose|cj: int|
                                        0 <= cj < chains_pre.len() && (#[trigger] chains_pre[cj]).head
                                            == sp_pre[sp];
                                    assert(chains@[cj].head == start_points@[sp]);
                                } else {
                                    assert(chains@[nc].head == start_points@[sp]);
                                }
                            }
                            assert forall|a: int, c: int, r: Seq<char>| #[trigger]
                                adjacent_at(decls@, b as int, k + 1, a, c, r) implies edge(
                                nodes@,
                                a,
                                c,
                            ) by {
                                if refs_at(decls@, b as int, k as int, c, r) && refs_at(
                                    decls@,
                                    b as int,
                                    k as int,
                                    a,
                                    r,
                                ) {
                                    assert(adjacent_at(decls@, b as int, k as int, a, c, r)) by {
                                        assert forall|m: int| a < m < c implies !refs_at(
                                            decls@,
                                            b as int,
                                            k as int,
                                            m,
                                            r,
                                        ) by {
                                            assert(!refs_at(decls@, b as int, k + 1, m, r));
                                        }
                                    }
                                } else {
                                    assert(r == rk);
                                    assert(refs_at(decls@, b as int, k + 1, a, rk));
                                    assert(a == b as int || refs_at(decls@, b as int, k as int, a, rk));
                                    assert(false);
                                }
                            }
                        }
                    },
                }
            }
            k = k + 1;
        }
        proof {
            assert forall|c: int, r: Seq<char>| #[trigger]
                refs_at(decls@, b + 1 as int, 0, c, r) == refs_at(
                decls@,
                b as int,
                deps_len as int,
                c,
                r,
            ) by {
                lemma_refs_at_decl_done(decls@, b as int, c, r);
            }
            assert forall|a: int, c: int, i: int|
                #[trigger] last_task_ref_target(decls@, a, c, i) && is_task_ref(
                decls@[c].deps@[i]@,
            ) && (c < b + 1 as int || (c == b + 1 as int && i < 0)) implies edge(
                nodes@,
                a,
                c,
            ) by {
                assert(c < b as int || (c == b as int && i < deps_len as int));
            }
            lemma_region_carries(
                decls@,
                nodes@,
                nodes@,
                chains@,
                start_points@,
                b as int,
                deps_len as int,
                b + 1 as int,
                0,
            );
        }
        b = b + 1;
    }
    let mut i: usize = 0;
    let ghost sp_pass2 = start_points@;
    while i < n
        invariant
            i <= n,
            n == decls@.len(),
            nodes@.len() == n,
            decls@.len() + 1 <= u32::MAX,
            nodes_wf(nodes@),
            nodes_unstarted(nodes@),
            nodes_match_decls(nodes@, decls@),
            builder_inv(decls@, nodes@, chains@, sp_pass2, n as int, 0),
            forall|j: int|
                0 <= j < sp_pass2.len() ==> start_points@.contains(#[trigger] sp_pass2[j]),
            forall|kk: int|
                0 <= kk < start_points@.len() ==> sp_pass2.contains(#[trigger] start_points@[kk])
                    || (1 <= start_points@[kk] <= n && nodes@[start_points@[kk] - 1].inputs@.len()
                    == 0),
            forall|j: int|
                0 <= j < i as int && (#[trigger] nodes@[j]).inputs@.len() == 0
                    ==> start_points@.contains((j + 1) as u32),
        decreases n - i,
    {
        if nodes[i].inputs.len() == 0 && !outputs_contains(&start_points, (i + 1) as u32) {
            let ghost sp_pre = start_points@;
            start_points.push((i + 1) as u32);
            proof {
                assert forall|j: int|
                    0 <= j < sp_pass2.len() implies start_points@.contains(
                    #[trigger] sp_pass2[j],
                ) by {
                    let w = choose|w: int| 0 <= w < sp_pre.len() && sp_pre[w] == sp_pass2[j];
                    assert(start_points@[w] == sp_pass2[j]);
                }
                assert forall|j: int|
                    0 <= j <= i as int && (#[trigger] nodes@[j]).inputs@.len() == 0 implies
                    start_points@.contains((j + 1) as u32) by {
                    if j < i as int {
                        let w = choose|w: int|
                            0 <= w < sp_pre.len() && sp_pre[w] == (j + 1) as u32;
                        assert(start_points@[w] == (j + 1) as u32);
                    } else {
                        assert(start_points@.last() == (i + 1) as u32);
                    }
                }
            }
        }
        i = i + 1;
    }
    let g = TaskGraph { nodes, start_points, chain_count: chains.len() };
    proof {
        lemma_builder_final(decls@, g.nodes@, chains@, sp_pass2, g.start_points@);
        assert forall|c: int, r: Seq<char>| #[trigger]
            refs_at(decls@, decls@.len() as int, 0, c, r) == (0 <= c < decls@.len() && plain_ref(
                decls@[c],
                r,
            )) by {
            lemma_refs_at_end(decls@, c, r);
        }
        assert(decl_resource_set(decls@) =~= chain_name_set(chains@)) by {
            assert forall|r: Seq<char>| decl_resource_set(decls@).contains(r) implies
                chain_name_set(chains@).contains(r) by {
                let c = choose|c: int| 0 <= c < decls@.len() && #[trigger] plain_ref(decls@[c], r);
                assert(refs_at(decls@, decls@.len() as int, 0, c, r));
                let ci = choose|ci: int|
                    0 <= ci < chains@.len() && (#[trigger] chains@[ci]).name@ == r;
                assert(chains@[ci].name@ == r);
            }
            assert forall|r: Seq<char>| chain_name_set(chains@).contains(r) implies
                decl_resource_set(decls@).contains(r) by {
                let ci = choose|ci: int|
                    0 <= ci < chains@.len() && (#[trigger] chains@[ci]).name@ == r;
                assert(builder_chain_ok(decls@, chains@, decls@.len() as int, 0, ci));
                let t = chains@[ci].tail as int;
                assert(refs_at(decls@, decls@.len() as int, 0, t - 1, r));
                assert(plain_ref(decls@[t - 1], r));
            }
        }
        lemma_chain_name_count(chains@);
    }
    g
}


/// Every completion flag of node `q` is set: the node is ready.
pub open spec fn all_inputs_true(s: Seq<WasmTask>, q: int) -> bool {
    forall|k: int| 0 <= k < s[q].inputs@.len() ==> (#[trigger] s[q].inputs@[k]).1
}

pub fn inputs_all_true(node: &WasmTask) -> (r: bool)
    ensures
        r == (forall|k: int| 0 <= k < node.inputs@.len() ==> (#[trigger] node.inputs@[k]).1),
{
    let mut i: usize = 0;
    while i < node.inputs.len()
        invariant
            i <= node.inputs@.len(),
            forall|k: int| 0 <= k < i as int ==> (#[trigger] node.inputs@[k]).1,
        decreases node.inputs@.len() - i,
    {
        if !node.inputs[i].1 {
            return false;
        }
        i = i + 1;
    }
    true
}

/// Start node `q` if it has not started and every completion flag is set: a
/// node is eligible for at most one start, whichever path submitted it.
pub fn try_start(nodes: &mut Vec<WasmTask>, q: usize) -> (started: bool)
    requires
        q < old(nodes)@.len(),
    ensures
        started == (!old(nodes)@[q as int].started && all_inputs_true(old(nodes)@, q as int)),
        final(nodes)@.len() == old(nodes)@.len(),
        forall|i: int|
            0 <= i < old(nodes)@.len() && i != q as int ==> final(nodes)@[i] == old(nodes)@[i],
        final(nodes)@[q as int].started == (old(nodes)@[q as int].started || started),
        final(nodes)@[q as int].inputs@ == old(nodes)@[q as int].inputs@,
        final(nodes)@[q as int].outputs@ == old(nodes)@[q as int].outputs@,
        final(nodes)@[q as int].id == old(nodes)@[q as int].id,
        final(nodes)@[q as int].name@ == old(nodes)@[q as int].name@,
        final(nodes)@[q as int].vm_index == old(nodes)@[q as int].vm_index,
        !started ==> final(nodes)@ == old(nodes)@,
{
    if !nodes[q].started && inputs_all_true(&nodes[q]) {
        nodes[q].started = true;
        true
    } else {
        false
    }
}

/// The `started` flag is one-shot: once a start succeeded, any later start of
/// the same node is refused, whatever happened in between (flags and other
/// nodes may have changed, but `started` is never unset).
pub proof fn lemma_start_at_most_once(
    s0: Seq<WasmTask>,
    s1: Seq<WasmTask>,
    s2: Seq<WasmTask>,
    q: int,
    r1: bool,
    r2: bool,
)
    requires
        0 <= q < s0.len(),
        0 <= q < s2.len(),
        r1 == (!s0[q].started && all_inputs_true(s0, q)),
        s1[q].started == (s0[q].started || r1),
        s1[q].started ==> s2[q].started,
        r2 == (!s2[q].started && all_inputs_true(s2, q)),
    ensures
        !(r1 && r2),
{
}

/// Set the completion flag for predecessor key `p1` in node `q`'s input set;
/// every other bit of the table is untouched.
fn set_input_flag(nodes: &mut Vec<WasmTask>, q: usize, p1: u32)
    requires
        q < old(nodes)@.len(),
    ensures
        final(nodes)@.len() == old(nodes)@.len(),
        forall|i: int|
            0 <= i < old(nodes)@.len() && i != q as int ==> final(nodes)@[i] == old(nodes)@[i],
        final(nodes)@[q as int].id == old(nodes)@[q as int].id,
        final(nodes)@[q as int].name@ == old(nodes)@[q as int].name@,
        final(nodes)@[q as int].vm_index == old(nodes)@[q as int].vm_index,
        final(nodes)@[q as int].started == old(nodes)@[q as int].started,
        final(nodes)@[q as int].outputs@ == old(nodes)@[q as int].outputs@,
        final(nodes)@[q as int].inputs@.len() == old(nodes)@[q as int].inputs@.len(),
        forall|k: int|
            0 <= k < old(nodes)@[q as int].inputs@.len() ==> (#[trigger] final(nodes)@[q as int].inputs@[k]) == (
                old(nodes)@[q as int].inputs@[k].0,
                old(nodes)@[q as int].inputs@[k].1 || old(nodes)@[q as int].inputs@[k].0 == p1,
            ),
{
    let len = nodes[q].inputs.len();
    let mut k: usize = 0;
    while k < len
        invariant
            q < nodes@.len(),
            len == nodes@[q as int].inputs@.len(),
            k <= len,
            nodes@.len() == old(nodes)@.len(),
            forall|i: int|
                0 <= i < old(nodes)@.len() && i != q as int ==> nodes@[i] == old(nodes)@[i],
            nodes@[q as int].id == old(nodes)@[q as int].id,
            nodes@[q as int].name@ == old(nodes)@[q as int].name@,
            nodes@[q as int].vm_index == old(nodes)@[q as int].vm_index,
            nodes@[q as int].started == old(nodes)@[q as int].started,
            nodes@[q as int].outputs@ == old(nodes)@[q as int].outputs@,
            nodes@[q as int].inputs@.len() == old(nodes)@[q as int].inputs@.len(),
            forall|j: int|
                k as int <= j < len ==> (#[trigger] nodes@[q as int].inputs@[j]) == old(nodes)@[q as int].inputs@[j],
            forall|j: int|
                0 <= j < k as int ==> (#[trigger] nodes@[q as int].inputs@[j]) == (
                    old(nodes)@[q as int].inputs@[j].0,
                    old(nodes)@[q as int].inputs@[j].1 || old(nodes)@[q as int].inputs@[j].0 == p1,
                ),
        decreases len - k,
    {
        if nodes[q].inputs[k].0 == p1 && !nodes[q].inputs[k].1 {
            nodes[q].inputs.set(k, (p1, true));
        }
        k = k + 1;
    }
}

/// Flag monotonicity keeps a ready node ready.
proof fn lemma_all_true_monotone(s0: Seq<WasmTask>, s1: Seq<WasmTask>, q: int)
    requires
        s1.len() == s0.len(),
        0 <= q < s0.len(),
        s1[q].inputs@.len() == s0[q].inputs@.len(),
        forall|k: int|
            0 <= k < s0[q].inputs@.len() && (#[trigger] s0[q].inputs@[k]).1 ==> s1[q].inputs@[k].1,
        all_inputs_true(s0, q),
    ensures
        all_inputs_true(s1, q),
{
    assert forall|k: int| 0 <= k < s1[q].inputs@.len() implies (#[trigger] s1[q].inputs@[k]).1 by {
        assert(s0[q].inputs@[k].1);
    }
}

/// A node table with the same shape as a well-formed one, with only the
/// completion flags possibly differing, is well formed too.
pub proof fn lemma_wf_from_structure(s0: Seq<WasmTask>, s1: Seq<WasmTask>)
    requires
        nodes_wf(s0),
        s1.len() == s0.len(),
        forall|i: int|
            0 <= i < s0.len() ==> (#[trigger] s1[i]).id == s0[i].id && s1[i].outputs@
                == s0[i].outputs@ && s1[i].inputs@.len() == s0[i].inputs@.len(),
        forall|i: int, k: int|
            0 <= i < s0.len() && 0 <= k < s0[i].inputs@.len() ==> (#[trigger]
            s1[i].inputs@[k]).0 == s0[i].inputs@[k].0,
    ensures
        nodes_wf(s1),
{
    assert forall|i: int| 0 <= i < s1.len() implies node_ok(s1, i) by {
        assert(node_ok(s0, i));
        assert(forall|k: int|
            0 <= k < s1[i].inputs@.len() ==> (#[trigger] s1[i].inputs@[k]).0
                == s0[i].inputs@[k].0);
    }
    assert forall|q: int, k: int|
        0 <= q < s1.len() && 0 <= k < s1[q].inputs@.len() implies s1[(#[trigger]
    s1[q].inputs@[k]).0 - 1].outputs@.contains((q + 1) as u32) by {
        assert(node_ok(s0, q));
        assert(s1[q].inputs@[k].0 == s0[q].inputs@[k].0);
        assert(s0[(s0[q].inputs@[k].0 - 1) as int].outputs@.contains((q + 1) as u32));
        assert(s1[(s0[q].inputs@[k].0 - 1) as int].outputs@ == s0[(s0[q].inputs@[k].0
            - 1) as int].outputs@);
    }
}

/// Record that node `p` has completed: set `p`'s flag in every not-yet-started
/// successor, and return the ids of the successors this made ready.
pub fn record_completion(nodes: &mut Vec<WasmTask>, p: usize) -> (newly_ready: Vec<u32>)
    requires
        nodes_wf(old(nodes)@),
        p < old(nodes)@.len(),
    ensures
        nodes_wf(final(nodes)@),
        final(nodes)@.len() == old(nodes)@.len(),
        forall|i: int|
            0 <= i < old(nodes)@.len() ==> (#[trigger] final(nodes)@[i]).id == old(nodes)@[i].id
                && final(nodes)@[i].name@ == old(nodes)@[i].name@ && final(nodes)@[i].vm_index
                == old(nodes)@[i].vm_index && final(nodes)@[i].started == old(nodes)@[i].started
                && final(nodes)@[i].outputs@ == old(nodes)@[i].outputs@,
        forall|i: int|
            0 <= i < old(nodes)@.len() ==> (#[trigger] final(nodes)@[i]).inputs@.len() == old(nodes)@[i].inputs@.len(),
        forall|i: int, k: int|
            0 <= i < old(nodes)@.len() && 0 <= k < old(nodes)@[i].inputs@.len() ==> (#[trigger] final(nodes)@[i].inputs@[k]).0 == old(nodes)@[i].inputs@[k].0,
        forall|i: int, k: int|
            0 <= i < old(nodes)@.len() && 0 <= k < old(nodes)@[i].inputs@.len() && (#[trigger] old(nodes)@[i].inputs@[k]).1 ==> final(nodes)@[i].inputs@[k].1,
        forall|i: int, k: int|
            0 <= i < old(nodes)@.len() && 0 <= k < old(nodes)@[i].inputs@.len() && (#[trigger]
            final(nodes)@[i].inputs@[k]).1 && !old(nodes)@[i].inputs@[k].1 ==> final(nodes)@[i].inputs@[k].0 == p + 1 && !old(nodes)@[i].started,
        forall|q: int|
            edge(old(nodes)@, p as int, q) && 0 <= q < old(nodes)@.len() && !old(nodes)@[q].started
                ==> input_flag(final(nodes)@, p as int, q),
        forall|x: u32|
            newly_ready@.contains(x) ==> 1 <= x <= old(nodes)@.len() && !final(nodes)@[x
                - 1].started && all_inputs_true(final(nodes)@, x - 1),
        forall|q: int|
            0 <= q < old(nodes)@.len() && !old(nodes)@[q].started && all_inputs_true(
                final(nodes)@,
                q,
            ) && !all_inputs_true(old(nodes)@, q) ==> newly_ready@.contains((q + 1) as u32),
{
    let mut newly_ready: Vec<u32> = Vec::new();
    let outputs_len = nodes[p].outputs.len();
    let ghost s0 = nodes@;
    let p1 = (p + 1) as u32;
    let mut w: usize = 0;
    while w < outputs_len
        invariant
            nodes_wf(s0),
            p < s0.len(),
            p1 == p + 1,
            outputs_len == s0[p as int].outputs@.len(),
            w <= outputs_len,
            nodes@.len() == s0.len(),
            forall|i: int|
                0 <= i < s0.len() ==> (#[trigger] nodes@[i]).id == s0[i].id && nodes@[i].name@
                    == s0[i].name@ && nodes@[i].vm_index == s0[i].vm_index && nodes@[i].started
                    == s0[i].started && nodes@[i].outputs@ == s0[i].outputs@,
            forall|i: int|
                0 <= i < s0.len() ==> (#[trigger] nodes@[i]).inputs@.len()
                    == s0[i].inputs@.len(),
            forall|i: int, k: int|
                0 <= i < s0.len() && 0 <= k < s0[i].inputs@.len() ==> (#[trigger]
                nodes@[i].inputs@[k]).0 == s0[i].inputs@[k].0,
            forall|i: int, k: int|
                0 <= i < s0.len() && 0 <= k < s0[i].inputs@.len() && (#[trigger]
                s0[i].inputs@[k]).1 ==> nodes@[i].inputs@[k].1,
            forall|i: int, k: int|
                0 <= i < s0.len() && 0 <= k < s0[i].inputs@.len() && (#[trigger]
                nodes@[i].inputs@[k]).1 && !s0[i].inputs@[k].1 ==> nodes@[i].inputs@[k].0 == p + 1
                    && !s0[i].started,
            forall|w2: int|
                0 <= w2 < w as int ==> (edge(s0, p as int, #[trigger] s0[p as int].outputs@[w2] - 1)
                    && !s0[s0[p as int].outputs@[w2] - 1].started ==> input_flag(
                    nodes@,
                    p as int,
                    s0[p as int].outputs@[w2] - 1,
                )),
            forall|x: u32|
                newly_ready@.contains(x) ==> 1 <= x <= s0.len() && !nodes@[x - 1].started
                    && all_inputs_true(nodes@, x - 1),
            forall|q: int|
                0 <= q < s0.len() && !s0[q].started && all_inputs_true(nodes@, q)
                    && !all_inputs_true(s0, q) ==> newly_ready@.contains((q + 1) as u32),
        decreases outputs_len - w,
    {
        let o = nodes[p].outputs[w];
        proof {
            assert(node_ok(s0, p as int));
            assert(p + 1 < o <= s0.len());
        }
        let q = (o - 1) as usize;
        let ghost pre = nodes@;
        let ghost ready_pre = newly_ready@;
        if !nodes[q].started {
            set_input_flag(nodes, q, p1);
            proof {
                assert forall|x: u32| ready_pre.contains(x) implies 1 <= x <= s0.len()
                    && !nodes@[x - 1].started && all_inputs_true(nodes@, x - 1) by {
                    lemma_all_true_monotone(pre, nodes@, x - 1);
                }
            }
            if inputs_all_true(&nodes[q]) {
                newly_ready.push(o);
                proof {
                    assert(newly_ready@.drop_last() =~= ready_pre);
                    lemma_ready_push_ok(nodes@, newly_ready@, s0, o, q as int);
                }
            }
        }
        proof {
            assert forall|x: u32| newly_ready@.contains(x) implies 1 <= x <= s0.len()
                && !nodes@[x - 1].started && all_inputs_true(nodes@, x - 1) by {
                if newly_ready@ == ready_pre {
                    lemma_all_true_monotone(pre, nodes@, x - 1);
                }
            }
            assert forall|q2: int|
                0 <= q2 < s0.len() && !s0[q2].started && all_inputs_true(nodes@, q2)
                    && !all_inputs_true(s0, q2) implies newly_ready@.contains(
                (q2 + 1) as u32,
            ) by {
                if all_inputs_true(pre, q2) {
                    assert(ready_pre.contains((q2 + 1) as u32));
                    let w2 = choose|w2: int|
                        0 <= w2 < ready_pre.len() && ready_pre[w2] == (q2 + 1) as u32;
                    assert(newly_ready@[w2] == (q2 + 1) as u32);
                } else {
                    assert(q2 == q as int) by {
                        let k = choose|k: int|
                            0 <= k < pre[q2].inputs@.len() && !(#[trigger] pre[q2].inputs@[k]).1;
                        assert(nodes@[q2].inputs@[k].1);
                    }
                    assert(newly_ready@.last() == (q2 + 1) as u32);
                }
            }
            assert forall|w2: int|
                0 <= w2 < w + 1 implies (edge(s0, p as int, #[trigger] s0[p as int].outputs@[w2]
                    - 1) && !s0[s0[p as int].outputs@[w2] - 1].started ==> input_flag(
                nodes@,
                p as int,
                s0[p as int].outputs@[w2] - 1,
            )) by {
                let qq = s0[p as int].outputs@[w2] - 1;
                if edge(s0, p as int, qq) && !s0[qq].started {
                    let k = choose|k: int|
                        0 <= k < s0[qq].inputs@.len() && (#[trigger] s0[qq].inputs@[k]).0 == p + 1;
                    if w2 < w as int {
                        assert(input_flag(pre, p as int, qq));
                        let k2 = choose|k2: int|
                            0 <= k2 < pre[qq].inputs@.len() && (#[trigger] pre[qq].inputs@[k2]).0
                                == p + 1 && pre[qq].inputs@[k2].1;
                        assert(nodes@[qq].inputs@[k2].1);
                        assert(nodes@[qq].inputs@[k2].0 == p + 1);
                    } else {
                        assert(qq == q as int);
                        assert(nodes@[qq].inputs@[k].0 == p + 1);
                        assert(nodes@[qq].inputs@[k].1);
                    }
                }
            }
        }
        w = w + 1;
    }
    proof {
        lemma_wf_from_structure(s0, nodes@);
        assert forall|q: int|
            edge(s0, p as int, q) && 0 <= q < s0.len() && !s0[q].started implies input_flag(
            nodes@,
            p as int,
            q,
        ) by {
            let k = choose|k: int|
                0 <= k < s0[q].inputs@.len() && (#[trigger] s0[q].inputs@[k]).0 == p + 1;
            assert(s0[(s0[q].inputs@[k].0 - 1) as int].outputs@.contains((q + 1) as u32));
            let w2 = choose|w2: int|
                0 <= w2 < s0[p as int].outputs@.len() && (#[trigger] s0[p as int].outputs@[w2])
                    == (q + 1) as u32;
            assert(s0[p as int].outputs@[w2] - 1 == q);
        }
    }
    newly_ready
}

/// The freshly pushed ready id satisfies the soundness clause, and the old
/// entries keep it.
proof fn lemma_ready_push_ok(
    nodes: Seq<WasmTask>,
    ready: Seq<u32>,
    s0: Seq<WasmTask>,
    o: u32,
    q: int,
)
    requires
        ready.len() > 0,
        ready.last() == o,
        q == o - 1,
        0 <= q < nodes.len(),
        nodes.len() == s0.len(),
        1 <= o <= s0.len(),
        !nodes[q].started,
        all_inputs_true(nodes, q),
        forall|x: u32|
            ready.drop_last().contains(x) ==> 1 <= x <= s0.len() && !nodes[x - 1].started
                && all_inputs_true(nodes, x - 1),
    ensures
        forall|x: u32|
            ready.contains(x) ==> 1 <= x <= s0.len() && !nodes[x - 1].started && all_inputs_true(
                nodes,
                x - 1,
            ),
{
    assert forall|x: u32| ready.contains(x) implies 1 <= x <= s0.len() && !nodes[x - 1].started
        && all_inputs_true(nodes, x - 1) by {
        let i = choose|i: int| 0 <= i < ready.len() && ready[i] == x;
        if i < ready.len() - 1 {
            assert(ready.drop_last()[i] == x);
            assert(ready.drop_last().contains(x));
        }
    }
}

} // verus!

