//! The round scheduler: owns the contexts of one onchain round, counts
//! completions behind a one-shot barrier, builds and resolves the task
//! graph, and collects one reported result per invocation.  Threads and the
//! transport stay outside the crate; every decision they act on is taken
//! here.

use vstd::prelude::*;
use crate::ops::{ChainTrx, SyncTask};
use crate::machine::{WasmMac, MacPhase};
use crate::pool::WasmThreadPool;
use crate::graph::{TaskDecl, TaskGraph, build_task_graph, nodes_unstarted, is_task_ref,
    plain_ref, chain_adjacent, chain_head, last_task_ref_target, heads_some_chain, edge,
    decl_resource_set};
use crate::hostmsg::OnchainResponse;
use crate::resolve::resolve_round;
use vstd::string::StringExecFns;

verus! {

/// Spec-level view of one task declaration: owning applet position, task
/// name, resource names.
pub struct DeclModel {
    pub vm: int,
    pub name: Seq<char>,
    pub deps: Seq<Seq<char>>,
}

pub open spec fn decl_view(d: TaskDecl) -> DeclModel {
    DeclModel {
        vm: d.vm_index as int,
        name: d.name@,
        deps: d.deps@.map_values(|s: String| s@),
    }
}

pub open spec fn decl_views(s: Seq<TaskDecl>) -> Seq<DeclModel> {
    s.map_values(|d: TaskDecl| decl_view(d))
}

/// The declarations contributed by the applet at position `i`.
pub open spec fn vm_decl_views(i: int, vm: WasmMac) -> Seq<DeclModel> {
    vm.sync_tasks@.map_values(
        |t: SyncTask| DeclModel { vm: i, name: t.name@, deps: t.deps@.map_values(|s: String| s@) },
    )
}

/// All declarations of the round, applets in batch order, declarations in
/// declaration order.
pub open spec fn flat_decl_views(vms: Seq<WasmMac>) -> Seq<DeclModel>
    decreases vms.len(),
{
    if vms.len() == 0 {
        Seq::empty()
    } else {
        flat_decl_views(vms.drop_last()) + vm_decl_views(vms.len() - 1, vms.last())
    }
}



/// Declaration `d` (as a view) names the plain resource `r`.
pub open spec fn view_plain_ref(d: DeclModel, r: Seq<char>) -> bool {
    !is_task_ref(r) && exists|i: int| 0 <= i < d.deps.len() && #[trigger] d.deps[i] == r
}

/// `a` and `b` are consecutive declarations on resource `r`'s chain.
pub open spec fn view_chain_adjacent(decls: Seq<DeclModel>, a: int, b: int, r: Seq<char>) -> bool {
    &&& 0 <= a < b < decls.len()
    &&& view_plain_ref(decls[a], r)
    &&& view_plain_ref(decls[b], r)
    &&& forall|c: int| a < c < b ==> !view_plain_ref(#[trigger] decls[c], r)
}

/// `b` is the first declaration naming resource `r`: the head of its chain.
pub open spec fn view_chain_head(decls: Seq<DeclModel>, b: int, r: Seq<char>) -> bool {
    &&& 0 <= b < decls.len()
    &&& view_plain_ref(decls[b], r)
    &&& forall|a: int| 0 <= a < b ==> !view_plain_ref(#[trigger] decls[a], r)
}

/// Some resource's chain starts at declaration `b`.
pub open spec fn view_heads_some_chain(decls: Seq<DeclModel>, b: int) -> bool {
    exists|r: Seq<char>| view_chain_head(decls, b, r)
}

/// Declaration `a` is a target of the `i`th resource of declaration `b`,
/// read as a task reference.
pub open spec fn view_task_ref_target(decls: Seq<DeclModel>, a: int, b: int, i: int) -> bool {
    &&& 0 <= a < b < decls.len()
    &&& 0 <= i < decls[b].deps.len()
    &&& decls[a].vm == decls[b].vm
    &&& decls[a].name == decls[b].deps[i]
}

/// The latest such target, the one the reference resolves to.
pub open spec fn view_last_task_ref_target(decls: Seq<DeclModel>, a: int, b: int, i: int) -> bool {
    &&& view_task_ref_target(decls, a, b, i)
    &&& forall|c: int| a < c < b ==> !view_task_ref_target(decls, c, b, i)
}

/// The distinct plain resource names the declarations reference.
pub open spec fn view_resource_set(decls: Seq<DeclModel>) -> Set<Seq<char>> {
    Set::new(
        |r: Seq<char>| exists|c: int| 0 <= c < decls.len() && #[trigger] view_plain_ref(decls[c], r),
    )
}

/// The declaration-level predicates and their view-level forms agree.
proof fn lemma_view_laws(decls: Seq<TaskDecl>, views: Seq<DeclModel>)
    requires
        decl_views(decls) =~= views,
    ensures
        views.len() == decls.len(),
        forall|c: int, r: Seq<char>|
            #![trigger plain_ref(decls[c], r)]
            #![trigger view_plain_ref(views[c], r)]
            0 <= c < decls.len() ==> plain_ref(decls[c], r) == view_plain_ref(views[c], r),
        forall|a: int, b: int, r: Seq<char>|
            #![trigger chain_adjacent(decls, a, b, r)]
            #![trigger view_chain_adjacent(views, a, b, r)]
            chain_adjacent(decls, a, b, r) == view_chain_adjacent(views, a, b, r),
        forall|b: int, r: Seq<char>|
            #![trigger chain_head(decls, b, r)]
            #![trigger view_chain_head(views, b, r)]
            chain_head(decls, b, r) == view_chain_head(views, b, r),
        forall|b: int|
            #![trigger heads_some_chain(decls, b)]
            #![trigger view_heads_some_chain(views, b)]
            heads_some_chain(decls, b) == view_heads_some_chain(views, b),
        forall|a: int, b: int, i: int|
            #![trigger last_task_ref_target(decls, a, b, i)]
            #![trigger view_last_task_ref_target(views, a, b, i)]
            last_task_ref_target(decls, a, b, i) == view_last_task_ref_target(views, a, b, i),
        forall|b: int, i: int|
            0 <= b < decls.len() && 0 <= i < decls[b].deps@.len() ==> (#[trigger] decls[b].deps@[i])@
                == views[b].deps[i],
        view_resource_set(views) =~= decl_resource_set(decls),
{
    assert forall|c: int, r: Seq<char>|
        #![trigger plain_ref(decls[c], r)]
        #![trigger view_plain_ref(views[c], r)]
        0 <= c < decls.len() implies plain_ref(decls[c], r) == view_plain_ref(views[c], r) by {
        assert(views[c] == decl_view(decls[c]));
        if plain_ref(decls[c], r) {
            let i = choose|i: int|
                0 <= i < decls[c].deps@.len() && #[trigger] decls[c].deps@[i]@ == r;
            assert(views[c].deps[i] == r);
            assert(view_plain_ref(views[c], r));
        }
        if view_plain_ref(views[c], r) {
            let i = choose|i: int| 0 <= i < views[c].deps.len() && #[trigger] views[c].deps[i] == r;
            assert(decls[c].deps@[i]@ == r);
            assert(plain_ref(decls[c], r));
        }
    }
    assert forall|a: int, b: int, r: Seq<char>|
        #![trigger chain_adjacent(decls, a, b, r)]
        #![trigger view_chain_adjacent(views, a, b, r)]
        chain_adjacent(decls, a, b, r) == view_chain_adjacent(views, a, b, r) by {
        if chain_adjacent(decls, a, b, r) {
            assert forall|c: int| a < c < b implies !view_plain_ref(#[trigger] views[c], r) by {
                assert(!plain_ref(decls[c], r));
            }
            assert(view_chain_adjacent(views, a, b, r));
        }
        if view_chain_adjacent(views, a, b, r) {
            assert forall|c: int| a < c < b implies !plain_ref(#[trigger] decls[c], r) by {
                assert(!view_plain_ref(views[c], r));
            }
            assert(chain_adjacent(decls, a, b, r));
        }
    }
    assert forall|b: int, r: Seq<char>|
        #![trigger chain_head(decls, b, r)]
        #![trigger view_chain_head(views, b, r)]
        chain_head(decls, b, r) == view_chain_head(views, b, r) by {
        if chain_head(decls, b, r) {
            assert forall|a: int| 0 <= a < b implies !view_plain_ref(#[trigger] views[a], r) by {
                assert(!plain_ref(decls[a], r));
            }
            assert(view_chain_head(views, b, r));
        }
        if view_chain_head(views, b, r) {
            assert forall|a: int| 0 <= a < b implies !plain_ref(#[trigger] decls[a], r) by {
                assert(!view_plain_ref(views[a], r));
            }
            assert(chain_head(decls, b, r));
        }
    }
    assert forall|b: int|
        #![trigger heads_some_chain(decls, b)]
        #![trigger view_heads_some_chain(views, b)]
        heads_some_chain(decls, b) == view_heads_some_chain(views, b) by {
        if heads_some_chain(decls, b) {
            let r = choose|r: Seq<char>| chain_head(decls, b, r);
            assert(view_chain_head(views, b, r));
        }
        if view_heads_some_chain(views, b) {
            let r = choose|r: Seq<char>| view_chain_head(views, b, r);
            assert(chain_head(decls, b, r));
        }
    }
    assert forall|a: int, b: int, i: int|
        #![trigger last_task_ref_target(decls, a, b, i)]
        #![trigger view_last_task_ref_target(views, a, b, i)]
        last_task_ref_target(decls, a, b, i) == view_last_task_ref_target(views, a, b, i) by {
        assert(forall|c: int, c2: int|
            0 <= c < decls.len() && 0 <= c2 < decls.len() ==> (#[trigger] crate::graph::task_ref_target(
                decls,
                c,
                c2,
                i,
            )) == view_task_ref_target(views, c, c2, i)) by {
            assert(forall|c: int| 0 <= c < decls.len() ==> (#[trigger] views[c]) == decl_view(
                decls[c],
            ));
        }
        if last_task_ref_target(decls, a, b, i) {
            assert forall|c: int| a < c < b implies !view_task_ref_target(views, c, b, i) by {
                assert(!crate::graph::task_ref_target(decls, c, b, i));
            }
            assert(view_last_task_ref_target(views, a, b, i));
        }
        if view_last_task_ref_target(views, a, b, i) {
            assert forall|c: int| a < c < b implies !crate::graph::task_ref_target(
                decls,
                c,
                b,
                i,
            ) by {
                assert(!view_task_ref_target(views, c, b, i));
            }
            assert(last_task_ref_target(decls, a, b, i));
        }
    }
    assert forall|r: Seq<char>| view_resource_set(views).contains(r) implies decl_resource_set(
        decls,
    ).contains(r) by {
        let c = choose|c: int| 0 <= c < views.len() && #[trigger] view_plain_ref(views[c], r);
        assert(plain_ref(decls[c], r));
    }
    assert forall|r: Seq<char>| decl_resource_set(decls).contains(r) implies view_resource_set(
        views,
    ).contains(r) by {
        let c = choose|c: int| 0 <= c < decls.len() && #[trigger] plain_ref(decls[c], r);
        assert(view_plain_ref(views[c], r));
    }
}

/// The laws the synchronization phase hands on: the graph's edges realize
/// the resource chains and task references of the round's declarations, the
/// chain heads are start points, every start point is a chain head or a node
/// without predecessors, and the chain count is the number of distinct plain
/// resource names.
pub open spec fn graph_obeys_round_laws(g: TaskGraph, views: Seq<DeclModel>) -> bool {
    &&& (forall|a: int, b: int, r: Seq<char>| #[trigger]
        view_chain_adjacent(views, a, b, r) ==> edge(g.nodes@, a, b))
    &&& (forall|a: int, b: int, i: int| #[trigger]
        view_last_task_ref_target(views, a, b, i) && is_task_ref(views[b].deps[i]) ==> edge(
            g.nodes@,
            a,
            b,
        ))
    &&& (forall|b: int, r: Seq<char>| #[trigger]
        view_chain_head(views, b, r) ==> g.start_points@.contains((b + 1) as u32))
    &&& (forall|kk: int|
        0 <= kk < g.start_points@.len() ==> view_heads_some_chain(
            views,
            (#[trigger] g.start_points@[kk]) - 1,
        ) || g.nodes@[g.start_points@[kk] - 1].inputs@.len() == 0)
    &&& g.chain_count == view_resource_set(views).len()
}

/// The graph's nodes are exactly the round's declared tasks, in batch order
/// then declaration order, each node carrying its task's name and owning
/// applet position.
pub open spec fn graph_matches_round(g: TaskGraph, vms: Seq<WasmMac>) -> bool {
    &&& g.nodes@.len() == flat_decl_views(vms).len()
    &&& (forall|i: int|
        0 <= i < g.nodes@.len() ==> (#[trigger] g.nodes@[i]).name@ == flat_decl_views(
            vms,
        )[i].name && g.nodes@[i].vm_index as int == flat_decl_views(vms)[i].vm)
}

/// What the synchronization phase decided: with no cross-applet start point
/// the results are collected immediately, otherwise the graph goes to the
/// pool for resolution.
pub enum CriticalAction {
    CollectNow(TaskGraph),
    Resolve(TaskGraph),
}

/// The round scheduler.  `wasm_done_tasks` and `critical_entered` form the
/// completion barrier: the applet that raises the counter to the round's
/// target and finds the latch unset is the only one to enter the
/// synchronization phase.
pub struct ConcurrentRunner {
    pub wasm_done_tasks: usize,
    pub wasm_count: usize,
    pub trxs: Vec<ChainTrx>,
    pub ast_store_path: String,
    pub wasm_vms: Vec<WasmMac>,
    pub thread_pool: WasmThreadPool,
    pub saved_key_counter: usize,
    pub critical_entered: bool,
}

impl ConcurrentRunner {
    /// A fresh scheduler for one round.
    pub fn init(ast_store_path: String, trxs: Vec<ChainTrx>) -> (r: Self)
        ensures
            r.wasm_done_tasks == 0,
            r.wasm_count == 0,
            r.trxs == trxs,
            r.ast_store_path@ == ast_store_path@,
            r.wasm_vms@.len() == 0,
            r.saved_key_counter == 0,
            !r.critical_entered,
    {
        ConcurrentRunner {
            wasm_done_tasks: 0,
            wasm_count: 0,
            trxs,
            ast_store_path,
            wasm_vms: Vec::new(),
            thread_pool: WasmThreadPool::generate(Some(0)),
            saved_key_counter: 0,
            critical_entered: false,
        }
    }

    /// Open the round: fix the applet count and reset the barrier.
    pub fn prepare_context(&mut self, vm_count: usize)
        ensures
            final(self).wasm_count == vm_count,
            final(self).wasm_done_tasks == 0,
            !final(self).critical_entered,
            final(self).trxs == old(self).trxs,
            final(self).wasm_vms@ == old(self).wasm_vms@,
            final(self).ast_store_path@ == old(self).ast_store_path@,
    {
        self.wasm_count = vm_count;
        self.wasm_done_tasks = 0;
        self.critical_entered = false;
    }

    /// Create the context for invocation `i`, pointing it at the applet's
    /// module under the round's module store.
    pub fn make_context(&self, i: usize) -> (r: WasmMac)
        requires
            i < self.trxs@.len(),
            i < u32::MAX,
        ensures
            r.wf(),
            r.onchain,
            r.index == i,
            r.machine_id@ == self.trxs@[i as int].machine_id@,
            r.id@ == crate::strutil::spec_decimal(i as nat),
            r.mod_path@ == self.ast_store_path@ + "/"@ + self.trxs@[i as int].machine_id@
                + "/module"@,
            !r.has_output,
            !r.stop_,
            r.cost == 0,
            r.sync_tasks@.len() == 0,
            r.trx.ops@.len() == 0,
            r.execution_result@ =~= Seq::<char>::empty(),
            r.run_error is None,
            r.phase == MacPhase::Created,
    {
        let machine_id = self.trxs[i].machine_id.clone();
        let mod_path = self.ast_store_path.clone().concat("/").concat(
            machine_id.as_str(),
        ).concat("/module");
        WasmMac::new_onchain(machine_id, crate::strutil::usize_to_decimal(i), i as u32, mod_path)
    }

    /// Register a finished-construction context at its batch position.
    pub fn register_wasm_mac(&mut self, rt: WasmMac)
        requires
            rt.index == old(self).wasm_vms@.len(),
        ensures
            final(self).wasm_vms@ =~= old(self).wasm_vms@.push(rt),
            final(self).trxs == old(self).trxs,
            final(self).wasm_count == old(self).wasm_count,
            final(self).wasm_done_tasks == old(self).wasm_done_tasks,
            final(self).critical_entered == old(self).critical_entered,
            final(self).ast_store_path@ == old(self).ast_store_path@,
    {
        self.wasm_vms.push(rt);
    }

    /// One applet's initial run has completed (or was cut short): raise the
    /// barrier counter.  The result is true exactly for the completion that
    /// reaches the round's target first and flips the one-shot latch — only
    /// that caller proceeds to the synchronization phase.
    pub fn applet_finished(&mut self) -> (enter: bool)
        requires
            old(self).wasm_done_tasks < old(self).wasm_count,
        ensures
            final(self).wasm_done_tasks == old(self).wasm_done_tasks + 1,
            enter == (old(self).wasm_done_tasks + 1 == old(self).wasm_count && !old(self).critical_entered),
            final(self).critical_entered == (old(self).critical_entered || enter),
            final(self).wasm_count == old(self).wasm_count,
            final(self).trxs == old(self).trxs,
            final(self).wasm_vms@ == old(self).wasm_vms@,
            final(self).ast_store_path@ == old(self).ast_store_path@,
    {
        self.wasm_done_tasks = self.wasm_done_tasks + 1;
        if self.wasm_done_tasks == self.wasm_count && !self.critical_entered {
            self.critical_entered = true;
            true
        } else {
            false
        }
    }

    /// Flatten every context's declared tasks, applets in batch order.
    pub fn gather_declared_tasks(&self) -> (r: Vec<TaskDecl>)
        requires
            self.wasm_vms@.len() <= u32::MAX,
        ensures
            decl_views(r@) =~= flat_decl_views(self.wasm_vms@),
    {
        let mut out: Vec<TaskDecl> = Vec::new();
        let mut i: usize = 0;
        while i < self.wasm_vms.len()
            invariant
                i <= self.wasm_vms@.len(),
                self.wasm_vms@.len() <= u32::MAX,
                decl_views(out@) =~= flat_decl_views(self.wasm_vms@.take(i as int)),
            decreases self.wasm_vms@.len() - i,
        {
            let vm = &self.wasm_vms[i];
            let mut j: usize = 0;
            while j < vm.sync_tasks.len()
                invariant
                    i < self.wasm_vms@.len(),
                    self.wasm_vms@.len() <= u32::MAX,
                    j <= vm.sync_tasks@.len(),
                    vm == self.wasm_vms@[i as int],
                    decl_views(out@) =~= flat_decl_views(self.wasm_vms@.take(i as int))
                        + vm_decl_views(i as int, self.wasm_vms@[i as int]).take(j as int),
                decreases vm.sync_tasks@.len() - j,
            {
                let t = &vm.sync_tasks[j];
                let mut deps: Vec<String> = Vec::new();
                let mut k: usize = 0;
                while k < t.deps.len()
                    invariant
                        k <= t.deps@.len(),
                        t == self.wasm_vms@[i as int].sync_tasks@[j as int],
                        j < self.wasm_vms@[i as int].sync_tasks@.len(),
                        i < self.wasm_vms@.len(),
                        deps@.len() == k,
                        forall|m: int| 0 <= m < k as int ==> deps@[m]@ == t.deps@[m]@,
                    decreases t.deps@.len() - k,
                {
                    deps.push(t.deps[k].clone());
                    k = k + 1;
                }
                let ghost outpre = out@;
                out.push(TaskDecl { vm_index: i as u32, name: t.name.clone(), deps });
                proof {
                    let vmv = vm_decl_views(i as int, self.wasm_vms@[i as int]);
                    assert(decl_view(out@.last()) == vmv[j as int]) by {
                        assert(out@.last().deps@.map_values(|s: String| s@)
                            =~= t.deps@.map_values(|s: String| s@));
                    }
                    assert(decl_views(out@) =~= decl_views(outpre).push(decl_view(out@.last())));
                    assert(vmv.take(j + 1 as int) =~= vmv.take(j as int).push(vmv[j as int]));
                }
                j = j + 1;
            }
            proof {
                let vmv = vm_decl_views(i as int, self.wasm_vms@[i as int]);
                assert(vmv.take(vmv.len() as int) =~= vmv);
                assert(self.wasm_vms@.take(i + 1 as int).drop_last() =~= self.wasm_vms@.take(
                    i as int,
                ));
                assert(flat_decl_views(self.wasm_vms@.take(i + 1 as int))
                    =~= flat_decl_views(self.wasm_vms@.take(i as int)) + vmv);
            }
            i = i + 1;
        }
        proof {
            assert(self.wasm_vms@.take(self.wasm_vms@.len() as int) =~= self.wasm_vms@);
        }
        out
    }

    /// The synchronization phase, run by the single barrier winner: build
    /// the dependency graph from all declarations.  Without a single start
    /// point there is nothing to resolve and results are collected
    /// immediately; otherwise the pool is sized to the number of resource
    /// chains and the graph goes to resolution.
    pub fn wasm_do_critical(&mut self) -> (r: CriticalAction)
        requires
            flat_decl_views(old(self).wasm_vms@).len() + 1 <= u32::MAX,
            old(self).wasm_vms@.len() <= u32::MAX,
        ensures
            final(self).wasm_vms@ == old(self).wasm_vms@,
            final(self).trxs@ == old(self).trxs@,
            final(self).wasm_count == old(self).wasm_count,
            match r {
                CriticalAction::CollectNow(g) => g.start_points@.len() == 0 && g.wf()
                    && nodes_unstarted(g.nodes@) && graph_matches_round(g, old(self).wasm_vms@)
                    && graph_obeys_round_laws(g, flat_decl_views(old(self).wasm_vms@)),
                CriticalAction::Resolve(g) => g.start_points@.len() > 0 && g.wf()
                    && nodes_unstarted(g.nodes@) && graph_matches_round(g, old(self).wasm_vms@)
                    && graph_obeys_round_laws(g, flat_decl_views(old(self).wasm_vms@))
                    && final(self).saved_key_counter == g.nodes@.len() && final(self).thread_pool.worker_count == g.chain_count && final(self).thread_pool.tasks_@
                    =~= g.start_points@ && !final(self).thread_pool.stop_,
            },
    {
        let decls = self.gather_declared_tasks();
        proof {
            assert(decls@.len() == flat_decl_views(self.wasm_vms@).len());
        }
        let g = build_task_graph(&decls);
        proof {
            assert forall|i: int| 0 <= i < g.nodes@.len() implies (#[trigger] g.nodes@[i]).name@
                == flat_decl_views(self.wasm_vms@)[i].name && g.nodes@[i].vm_index as int
                == flat_decl_views(self.wasm_vms@)[i].vm by {
                assert(decl_views(decls@)[i] == decl_view(decls@[i]));
            }
            lemma_view_laws(decls@, flat_decl_views(self.wasm_vms@));
            assert(graph_obeys_round_laws(g, flat_decl_views(self.wasm_vms@)));
        }
        if g.start_points.len() == 0 {
            CriticalAction::CollectNow(g)
        } else {
            self.thread_pool = WasmThreadPool::generate(Some(g.chain_count));
            let mut w: usize = 0;
            while w < g.start_points.len()
                invariant
                    w <= g.start_points@.len(),
                    self.thread_pool.tasks_@ =~= g.start_points@.take(w as int),
                    !self.thread_pool.stop_,
                    self.thread_pool.worker_count == g.chain_count,
                    self.wasm_vms@ == old(self).wasm_vms@,
                    self.trxs@ == old(self).trxs@,
                    self.wasm_count == old(self).wasm_count,
                decreases g.start_points@.len() - w,
            {
                self.thread_pool.enqueue(g.start_points[w]);
                proof {
                    assert(g.start_points@.take(w + 1 as int) =~= g.start_points@.take(
                        w as int,
                    ).push(g.start_points@[w as int]));
                }
                w = w + 1;
            }
            proof {
                assert(g.start_points@.take(g.start_points@.len() as int) =~= g.start_points@);
            }
            self.saved_key_counter = g.nodes.len();
            CriticalAction::Resolve(g)
        }
    }

    /// Collect the round's results: stop each context, finalize its log, and
    /// report one result per invocation, keyed by the caller-supplied
    /// correlation id.  Exactly one result per input invocation.
    pub fn collect_results(&mut self) -> (r: Vec<OnchainResponse>)
        requires
            old(self).wasm_vms@.len() == old(self).trxs@.len(),
            forall|i: int|
                0 <= i < old(self).wasm_vms@.len() ==> (#[trigger] old(self).wasm_vms@[i]).wf(),
        ensures
            r@.len() == old(self).trxs@.len(),
            forall|i: int|
                0 <= i < r@.len() ==> (#[trigger] r@[i]).callback_id@ == old(self).trxs@[
                    i].callback_id@,
            forall|i: int|
                0 <= i < r@.len() ==> (#[trigger] r@[i]).packet@ == old(self).wasm_vms@[
                    i].execution_result@ && r@[i].cost == old(self).wasm_vms@[i].cost && r@[
                    i].res_code == (if old(self).wasm_vms@[i].run_error is Some {
                    0i32
                } else {
                    1i32
                }) && r@[i].error@ == (match old(self).wasm_vms@[i].run_error {
                    Some(e) => e@,
                    None => Seq::<char>::empty(),
                }) && r@[i].token_id@ == old(self).wasm_vms@[i].chain_token_id@ && r@[
                    i].token_owner_id@ == old(self).wasm_vms@[i].token_owner_id@
                    && crate::ops::ops_model(r@[i].changes@) =~= crate::ops::ops_model(
                    old(self).wasm_vms@[i].trx.ops@,
                ) && (forall|k: int|
                    0 <= k < r@[i].changes@.len() ==> crate::ops::op_wf(
                        #[trigger] r@[i].changes@[k],
                    )),
            final(self).trxs@ == old(self).trxs@,
    {
        let ghost vms0 = self.wasm_vms@;
        let ghost trxs0 = self.trxs@;
        let mut out: Vec<OnchainResponse> = Vec::new();
        let n = self.wasm_vms.len();
        let mut i: usize = 0;
        while i < n
            invariant
                n == self.wasm_vms@.len(),
                n == self.trxs@.len(),
                i <= n,
                vms0 == old(self).wasm_vms@,
                trxs0 == old(self).trxs@,
                self.trxs@ == trxs0,
                self.wasm_vms@.len() == vms0.len(),
                forall|j: int|
                    0 <= j < vms0.len() ==> (#[trigger] vms0[j]).wf(),
                forall|j: int|
                    i as int <= j < n as int ==> (#[trigger] self.wasm_vms@[j]) == vms0[j],
                out@.len() == i,
                forall|j: int|
                    0 <= j < i as int ==> (#[trigger] out@[j]).callback_id@ == trxs0[
                        j].callback_id@ && out@[j].packet@ == vms0[j].execution_result@ && out@[
                        j].cost == vms0[j].cost && out@[j].res_code == (if vms0[j].run_error
                        is Some {
                        0i32
                    } else {
                        1i32
                    }) && out@[j].error@ == (match vms0[j].run_error {
                        Some(e) => e@,
                        None => Seq::<char>::empty(),
                    }) && out@[j].token_id@ == vms0[j].chain_token_id@ && out@[j].token_owner_id@
                        == vms0[j].token_owner_id@ && crate::ops::ops_model(out@[j].changes@)
                        =~= crate::ops::ops_model(vms0[j].trx.ops@) && (forall|k: int|
                        0 <= k < out@[j].changes@.len() ==> crate::ops::op_wf(
                            #[trigger] out@[j].changes@[k],
                        )),
            decreases n - i,
        {
            proof {
                assert(self.wasm_vms@[i as int] == vms0[i as int]);
                assert(self.wasm_vms@[i as int].wf());
            }
            self.wasm_vms[i].stop();
            let cost = self.wasm_vms[i].cost;
            let output = self.wasm_vms[i].execution_result.clone();
            let (res_code, error): (i32, String) = match &self.wasm_vms[i].run_error {
                Some(e) => (0, e.clone()),
                None => (1, String::new()),
            };
            let changes = self.wasm_vms[i].finalize();
            let resp = OnchainResponse {
                callback_id: self.trxs[i].callback_id.clone(),
                packet: output,
                res_code,
                error,
                changes,
                cost,
                token_id: self.wasm_vms[i].chain_token_id.clone(),
                token_owner_id: self.wasm_vms[i].token_owner_id.clone(),
            };
            out.push(resp);
            i = i + 1;
        }
        out
    }

    /// Tear the round down so a new one can start.
    pub fn cleanup(&mut self)
        ensures
            final(self).wasm_done_tasks == 0,
            final(self).wasm_count == 0,
            final(self).trxs@.len() == 0,
            final(self).ast_store_path@ =~= Seq::<char>::empty(),
            final(self).wasm_vms@.len() == 0,
            final(self).saved_key_counter == 0,
    {
        self.wasm_done_tasks = 0;
        self.wasm_count = 0;
        self.trxs = Vec::new();
        self.ast_store_path = String::new();
        self.wasm_vms = Vec::new();
        self.thread_pool = WasmThreadPool::generate(Some(0));
        self.saved_key_counter = 0;
    }
}

/// The synchronization phase is entered at most once per round: an entry
/// flips the one-shot latch, and any later completion finds it set, whatever
/// else happened in between (the latch is never unset).
pub proof fn lemma_sync_entered_once(
    c0: ConcurrentRunner,
    c1: ConcurrentRunner,
    c2: ConcurrentRunner,
    c3: ConcurrentRunner,
    e1: bool,
    e2: bool,
)
    requires
        e1 == (c0.wasm_done_tasks + 1 == c0.wasm_count && !c0.critical_entered),
        c1.critical_entered == (c0.critical_entered || e1),
        c1.critical_entered ==> c2.critical_entered,
        e2 == (c2.wasm_done_tasks + 1 == c2.wasm_count && !c2.critical_entered),
        c3.critical_entered == (c2.critical_entered || e2),
    ensures
        !(e1 && e2),
{
}


/// What one applet's sandbox run produced: the validity budget the host
/// returned, the token named in its input, and what the applet did while
/// running — its output, its metered cost, and the tasks it declared.
pub struct AppletOutcome {
    pub gas_limit: u64,
    pub token_id: String,
    pub output: String,
    pub cost: u64,
    pub declared: Vec<SyncTask>,
    /// A per-applet fatal failure during the run (cost overrun, trap),
    /// carried into the report as a non-success code.
    pub error: Option<String>,
}

/// Total number of declared tasks over a batch of outcomes.
pub open spec fn total_declared(outcomes: Seq<AppletOutcome>) -> int
    decreases outcomes.len(),
{
    if outcomes.len() == 0 {
        0
    } else {
        total_declared(outcomes.drop_last()) + outcomes.last().declared@.len()
    }
}

proof fn lemma_total_declared_nonneg(s: Seq<AppletOutcome>)
    ensures
        total_declared(s) >= 0,
    decreases s.len(),
{
    if s.len() > 0 {
        lemma_total_declared_nonneg(s.drop_last());
    }
}

proof fn lemma_flat_push(vms: Seq<WasmMac>, vm: WasmMac)
    ensures
        flat_decl_views(vms.push(vm)) =~= flat_decl_views(vms) + vm_decl_views(
            vms.len() as int,
            vm,
        ),
{
    assert(vms.push(vm).drop_last() =~= vms);
}

/// The declarations outcome `i` contributes when its applet ran.
pub open spec fn outcome_decl_views(i: int, o: AppletOutcome) -> Seq<DeclModel> {
    o.declared@.map_values(
        |t: SyncTask| DeclModel { vm: i, name: t.name@, deps: t.deps@.map_values(|s: String| s@) },
    )
}

/// All declarations of a simulated round: each applet that received a
/// positive budget contributes its declared tasks, in batch order.
pub open spec fn round_decl_views(outcomes: Seq<AppletOutcome>) -> Seq<DeclModel>
    decreases outcomes.len(),
{
    if outcomes.len() == 0 {
        Seq::empty()
    } else {
        round_decl_views(outcomes.drop_last()) + (if outcomes.last().gas_limit > 0 {
            outcome_decl_views(outcomes.len() - 1, outcomes.last())
        } else {
            Seq::empty()
        })
    }
}

proof fn lemma_round_decl_len(outcomes: Seq<AppletOutcome>)
    ensures
        round_decl_views(outcomes).len() <= total_declared(outcomes),
    decreases outcomes.len(),
{
    if outcomes.len() > 0 {
        lemma_round_decl_len(outcomes.drop_last());
    }
}

/// One whole onchain round, single-threaded: create a context per
/// invocation, validate it (a zero budget short-circuits the applet with no
/// output and an invalid token, but it still counts toward the barrier),
/// apply what its run produced, pass the one-shot barrier, build and resolve
/// the task graph, and collect the results.
///
/// Exactly one result is reported per input invocation, under that
/// invocation's correlation id, and the returned execution trace never runs
/// a task twice.
pub fn run_round(ast_store_path: String, trxs: Vec<ChainTrx>, outcomes: Vec<AppletOutcome>) -> (r:
    (Vec<OnchainResponse>, Vec<u32>))
    requires
        outcomes@.len() == trxs@.len(),
        trxs@.len() < u32::MAX,
        total_declared(outcomes@) + 1 <= u32::MAX,
    ensures
        r.0@.len() == trxs@.len(),
        forall|i: int|
            0 <= i < r.0@.len() ==> (#[trigger] r.0@[i]).callback_id@ == trxs@[i].callback_id@,
        forall|i: int|
            0 <= i < r.0@.len() ==> (#[trigger] r.0@[i]).packet@ == (if outcomes@[i].gas_limit > 0
                && outcomes@[i].error is None {
                outcomes@[i].output@
            } else {
                Seq::<char>::empty()
            }),
        forall|i: int|
            0 <= i < r.0@.len() ==> (#[trigger] r.0@[i]).cost == (if outcomes@[i].gas_limit > 0 {
                outcomes@[i].cost
            } else {
                0u64
            }),
        forall|i: int|
            0 <= i < r.0@.len() ==> (#[trigger] r.0@[i]).res_code == (if outcomes@[i].gas_limit > 0
                && outcomes@[i].error is Some {
                0i32
            } else {
                1i32
            }),
        forall|i: int|
            0 <= i < r.0@.len() ==> (#[trigger] r.0@[i]).error@ == (if outcomes@[i].gas_limit > 0 {
                match outcomes@[i].error {
                    Some(e) => e@,
                    None => Seq::<char>::empty(),
                }
            } else {
                Seq::<char>::empty()
            }),
        forall|i: int| 0 <= i < r.0@.len() ==> (#[trigger] r.0@[i]).changes@.len() == 0,
        forall|i: int, j: int| 0 <= i < j < r.1@.len() ==> r.1@[i] != r.1@[j],
        r.1@.len() == round_decl_views(outcomes@).len(),
        forall|id: u32| 1 <= id <= r.1@.len() ==> r.1@.contains(id),
        forall|a: int, b: int, rr: Seq<char>| #[trigger]
            view_chain_adjacent(round_decl_views(outcomes@), a, b, rr) ==> exists|i: int, j: int|
                #![trigger r.1@[i], r.1@[j]]
                0 <= i < j < r.1@.len() && r.1@[i] == (a + 1) as u32 && r.1@[j] == (b + 1) as u32,
{
    let n = trxs.len();
    let ghost trxs_v = trxs@;
    let ghost outcomes_v = outcomes@;
    let mut runner = ConcurrentRunner::init(ast_store_path, trxs);
    runner.prepare_context(n);
    let mut i: usize = 0;
    while i < n
        invariant
            n == trxs_v.len(),
            n == outcomes_v.len(),
            n < u32::MAX,
            total_declared(outcomes_v) + 1 <= u32::MAX,
            outcomes@ == outcomes_v,
            runner.trxs@ == trxs_v,
            runner.wasm_count == n,
            runner.wasm_done_tasks == i,
            i <= n,
            runner.critical_entered == (i == n && n > 0),
            runner.wasm_vms@.len() == i,
            flat_decl_views(runner.wasm_vms@) =~= round_decl_views(outcomes_v.take(i as int)),
            forall|j: int|
                0 <= j < i as int ==> (#[trigger] runner.wasm_vms@[j]).wf()
                    && runner.wasm_vms@[j].index == j && runner.wasm_vms@[j].trx.ops@.len() == 0
                    && runner.wasm_vms@[j].chain_token_id@ == outcomes_v[j].token_id@
                    && runner.wasm_vms@[j].token_owner_id@ == trxs_v[j].user_id@
                    && runner.wasm_vms@[j].execution_result@ == (if outcomes_v[j].gas_limit > 0
                    && outcomes_v[j].error is None {
                    outcomes_v[j].output@
                } else {
                    Seq::<char>::empty()
                }) && runner.wasm_vms@[j].cost == (if outcomes_v[j].gas_limit > 0 {
                    outcomes_v[j].cost
                } else {
                    0u64
                }) && runner.wasm_vms@[j].is_token_valid == (outcomes_v[j].gas_limit > 0)
                    && crate::ops::opt_text_view(runner.wasm_vms@[j].run_error) == (if
                outcomes_v[j].gas_limit > 0 {
                    crate::ops::opt_text_view(outcomes_v[j].error)
                } else {
                    None::<Seq<char>>
                }),
        decreases n - i,
    {
        let mut vm = runner.make_context(i);
        let user_id = runner.trxs[i].user_id.clone();
        let token_id = outcomes[i].token_id.clone();
        vm.begin_validation(user_id, token_id);
        let proceed = vm.on_validity_response(outcomes[i].gas_limit);
        if proceed {
            match &outcomes[i].error {
                Some(e) => {
                    vm.record_failure(e.clone());
                },
                None => {
                    vm.record_output(outcomes[i].output.clone());
                },
            }
            vm.record_cost(outcomes[i].cost);
            let ghost declared_v = outcomes_v[i as int].declared@;
            let mut j: usize = 0;
            while j < outcomes[i].declared.len()
                invariant
                    outcomes@ == outcomes_v,
                    i < n,
                    n == outcomes_v.len(),
                    j <= declared_v.len(),
                    declared_v == outcomes_v[i as int].declared@,
                    vm.sync_tasks@.len() == j,
                    forall|m: int|
                        0 <= m < j as int ==> (#[trigger] vm.sync_tasks@[m]).name@
                            == declared_v[m].name@ && vm.sync_tasks@[m].deps@.map_values(
                            |s: String| s@,
                        ) =~= declared_v[m].deps@.map_values(|s: String| s@),
                    vm.wf(),
                    vm.trx.ops@.len() == 0,
                    vm.index == i,
                    vm.machine_id@ == trxs_v[i as int].machine_id@,
                    vm.chain_token_id@ == outcomes_v[i as int].token_id@,
                    vm.token_owner_id@ == trxs_v[i as int].user_id@,
                    vm.execution_result@ == (if outcomes_v[i as int].error is None {
                        outcomes_v[i as int].output@
                    } else {
                        Seq::<char>::empty()
                    }),
                    vm.cost == outcomes_v[i as int].cost,
                    vm.is_token_valid,
                    crate::ops::opt_text_view(vm.run_error) == crate::ops::opt_text_view(
                        outcomes_v[i as int].error,
                    ),
                decreases declared_v.len() - j,
            {
                let c = outcomes[i].declared[j].clone();
                vm.declare_sync_task(c.name, c.deps);
                j = j + 1;
            }
        }
        let ghost vms_pre = runner.wasm_vms@;
        runner.register_wasm_mac(vm);
        proof {
            lemma_flat_push(vms_pre, runner.wasm_vms@.last());
            let vmv = vm_decl_views(vms_pre.len() as int, runner.wasm_vms@.last());
            assert(vmv =~= (if outcomes_v[i as int].gas_limit > 0 {
                outcome_decl_views(i as int, outcomes_v[i as int])
            } else {
                Seq::<DeclModel>::empty()
            })) by {
                if outcomes_v[i as int].gas_limit > 0 {
                    let ov = outcome_decl_views(i as int, outcomes_v[i as int]);
                    assert forall|m: int| 0 <= m < vmv.len() implies vmv[m] == ov[m] by {
                        assert(vmv[m].name == ov[m].name);
                        assert(vmv[m].deps =~= ov[m].deps);
                    }
                }
            }
            assert(outcomes_v.take(i + 1 as int).drop_last() =~= outcomes_v.take(i as int));
            assert(outcomes_v.take(i + 1 as int).last() == outcomes_v[i as int]);
            assert(flat_decl_views(runner.wasm_vms@) =~= round_decl_views(
                outcomes_v.take(i + 1 as int),
            ));
        }
        let entered = runner.applet_finished();
        proof {
            assert(entered == (i + 1 == n));
        }
        i = i + 1;
    }
    proof {
        assert(outcomes_v.take(n as int) =~= outcomes_v);
        lemma_round_decl_len(outcomes_v);
        lemma_total_declared_nonneg(outcomes_v);
    }
    let ghost rdv = round_decl_views(outcomes_v);
    let action = runner.wasm_do_critical();
    let trace: Vec<u32> = match action {
        CriticalAction::CollectNow(g) => {
            proof {
                assert(g.nodes@.len() == 0) by {
                    if g.nodes@.len() > 0 {
                        assert(crate::graph::node_ok(g.nodes@, 0));
                        assert(g.nodes@[0].inputs@.len() == 0) by {
                            if g.nodes@[0].inputs@.len() > 0 {
                                assert(0 < g.nodes@[0].inputs@[0].0 < 1);
                            }
                        }
                        assert(g.start_points@.contains(1u32));
                    }
                }
                assert(rdv.len() == 0);
            }
            Vec::new()
        },
        CriticalAction::Resolve(g) => {
            let ghost fv = flat_decl_views(runner.wasm_vms@);
            let mut gg = g;
            let t = resolve_round(&mut gg);
            proof {
                assert(fv =~= rdv);
                assert(t@.len() == rdv.len());
                assert forall|a: int, b: int, rr: Seq<char>| #[trigger]
                    view_chain_adjacent(rdv, a, b, rr) implies exists|i: int, j: int|
                    #![trigger t@[i], t@[j]]
                    0 <= i < j < t@.len() && t@[i] == (a + 1) as u32 && t@[j] == (b
                        + 1) as u32 by {
                    assert(view_chain_adjacent(fv, a, b, rr));
                    assert(edge(g.nodes@, a, b));
                    assert(0 <= b < rdv.len());
                    assert(t@.contains((b + 1) as u32)) by {
                        assert(1 <= (b + 1) as u32 <= t@.len());
                    }
                    let j = choose|j: int| 0 <= j < t@.len() && t@[j] == (b + 1) as u32;
                    assert(t@[j] == b + 1);
                    let na = g.nodes@[a];
                    assert(edge(g.nodes@, a, t@[j] - 1));
                    let i = choose|i: int| 0 <= i < j && #[trigger] t@[i] == (a + 1) as u32;
                    assert(0 <= i < j < t@.len() && t@[i] == (a + 1) as u32 && t@[j] == (b
                        + 1) as u32);
                }
            }
            t
        },
    };
    let responses = runner.collect_results();
    (responses, trace)
}


} // verus!
