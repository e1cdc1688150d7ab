//! One applet's execution context: the host-side wrapper around one sandbox
//! instance for one invocation.  It owns the applet's transaction log, the
//! declared synchronization tasks, and (onchain) the task-request queue its
//! dedicated thread drains.  The sandbox itself and the threads live outside
//! the crate; what is here is every state transition and every host call's
//! effect on the context.

use vstd::prelude::*;
use std::collections::VecDeque;
use crate::txlog::{Trx, BufferedRead, buffered_get_spec, durable_view, overlay_prefix_values,
    durable_prefix_values};
use crate::ops::{WasmDbOp, SyncTask, OpModel, ops_model};
use crate::strutil::{namespaced_key, spec_namespaced};
use crate::hostmsg::{TokenValidityRequest, SubmitTrxRequest, HttpPostRequest, RunDockerRequest,
    ExecDockerRequest, CopyToDockerRequest, PlantTriggerRequest, SignalPointRequest, TrxMeta,
    parse_trx_meta};

verus! {

/// The context's lifecycle.  Offchain contexts go `Created`, `Running`,
/// `Finalized`; onchain contexts pass through validation, the task-waiting
/// phase and a stop before finalizing.
pub enum MacPhase {
    Created,
    Validating,
    Running,
    AwaitingTasks,
    TaskRunning,
    Stopped,
    Finalized,
}

/// What the context's dedicated thread should do next.
pub enum TaskAction {
    /// Invoke the sandbox's named-task entry for the given task.
    Run(String),
    /// Sleep until a task arrives or a stop is signalled.
    Wait,
    /// Stopped and drained: leave the loop.
    Exit,
}

/// The execution context of one applet invocation.
pub struct WasmMac {
    pub onchain: bool,
    pub chain_token_id: String,
    pub token_owner_id: String,
    pub is_token_valid: bool,
    pub machine_id: String,
    pub point_id: String,
    pub id: String,
    pub index: u32,
    pub trx: Box<Trx>,
    pub sync_tasks: Vec<SyncTask>,
    pub mod_path: String,
    pub cost: u64,
    pub execution_result: String,
    pub has_output: bool,
    /// A per-applet fatal failure (cost overrun, trap, malformed declaration):
    /// the applet still participates in the barrier and the report, with a
    /// non-success code and this message.
    pub run_error: Option<String>,
    pub tasks_: VecDeque<String>,
    pub stop_: bool,
    pub phase: MacPhase,
}


/// The fields that identify a context never change after construction.
pub open spec fn same_identity(a: WasmMac, b: WasmMac) -> bool {
    &&& b.onchain == a.onchain
    &&& b.machine_id@ == a.machine_id@
    &&& b.point_id@ == a.point_id@
    &&& b.id@ == a.id@
    &&& b.index == a.index
    &&& b.mod_path@ == a.mod_path@
}

impl WasmMac {
    pub open spec fn wf(&self) -> bool {
        self.trx.wf()
    }

    pub fn new_offchain(machine_id: String, point_id: String, mod_path: String) -> (r: Self)
        ensures
            r.wf(),
            !r.onchain,
            r.machine_id@ == machine_id@,
            r.point_id@ == point_id@,
            r.mod_path@ == mod_path@,
            !r.is_token_valid,
            !r.has_output,
            !r.stop_,
            r.index == 0,
            r.cost == 0,
            r.sync_tasks@.len() == 0,
            r.tasks_@.len() == 0,
            r.trx.ops@.len() == 0,
            r.trx.store@ =~= Map::<Seq<char>, Seq<char>>::empty(),
            r.run_error is None,
            r.phase == MacPhase::Created,
    {
        WasmMac {
            onchain: false,
            chain_token_id: String::new(),
            token_owner_id: String::new(),
            is_token_valid: false,
            machine_id,
            point_id,
            id: String::new(),
            index: 0,
            trx: Box::new(Trx::new()),
            sync_tasks: Vec::new(),
            mod_path,
            cost: 0,
            execution_result: String::new(),
            has_output: false,
            run_error: None,
            tasks_: VecDeque::new(),
            stop_: false,
            phase: MacPhase::Created,
        }
    }

    pub fn new_onchain(machine_id: String, vm_id: String, index: u32, mod_path: String) -> (r:
        Self)
        ensures
            r.wf(),
            r.onchain,
            r.machine_id@ == machine_id@,
            r.id@ == vm_id@,
            r.index == index,
            r.mod_path@ == mod_path@,
            !r.is_token_valid,
            !r.has_output,
            !r.stop_,
            r.cost == 0,
            r.sync_tasks@.len() == 0,
            r.tasks_@.len() == 0,
            r.trx.ops@.len() == 0,
            r.trx.store@ =~= Map::<Seq<char>, Seq<char>>::empty(),
            r.execution_result@ =~= Seq::<char>::empty(),
            r.run_error is None,
            r.phase == MacPhase::Created,
    {
        WasmMac {
            onchain: true,
            chain_token_id: String::new(),
            token_owner_id: String::new(),
            is_token_valid: false,
            machine_id,
            point_id: String::new(),
            id: vm_id,
            index,
            trx: Box::new(Trx::new()),
            sync_tasks: Vec::new(),
            mod_path,
            cost: 0,
            execution_result: String::new(),
            has_output: false,
            run_error: None,
            tasks_: VecDeque::new(),
            stop_: false,
            phase: MacPhase::Created,
        }
    }

    /// Enter validation: record the token's owner and id, and produce the
    /// validity question for the host platform.
    pub fn begin_validation(&mut self, user_id: String, token_id: String) -> (r:
        TokenValidityRequest)
        ensures
            final(self).token_owner_id@ == user_id@,
            final(self).chain_token_id@ == token_id@,
            final(self).phase == MacPhase::Validating,
            r.token_owner_id@ == user_id@,
            r.token_id@ == token_id@,
            final(self).trx == old(self).trx,
            final(self).sync_tasks@ == old(self).sync_tasks@,
            final(self).has_output == old(self).has_output,
            final(self).is_token_valid == old(self).is_token_valid,
            same_identity(*old(self), *final(self)),
            final(self).execution_result@ == old(self).execution_result@,
            final(self).cost == old(self).cost,
            final(self).stop_ == old(self).stop_,
            final(self).tasks_@ == old(self).tasks_@,
            final(self).run_error == old(self).run_error,
    {
        self.token_owner_id = user_id.clone();
        self.chain_token_id = token_id.clone();
        self.phase = MacPhase::Validating;
        TokenValidityRequest { token_owner_id: user_id, token_id }
    }

    /// Settle validation with the cost budget the host returned.  A budget of
    /// zero is not an error: the context records no output and an invalid
    /// token, must not execute the sandbox, and is treated as instantly
    /// complete for barrier purposes.
    pub fn on_validity_response(&mut self, gas_limit: u64) -> (proceed: bool)
        ensures
            proceed == (gas_limit > 0),
            final(self).is_token_valid == (gas_limit > 0),
            !proceed ==> !final(self).has_output && final(self).phase == MacPhase::Stopped,
            proceed ==> final(self).has_output == old(self).has_output && final(self).phase
                == MacPhase::Running,
            final(self).trx == old(self).trx,
            final(self).sync_tasks@ == old(self).sync_tasks@,
            final(self).execution_result@ == (if proceed {
                old(self).execution_result@
            } else {
                Seq::<char>::empty()
            }),
            same_identity(*old(self), *final(self)),
            final(self).chain_token_id@ == old(self).chain_token_id@,
            final(self).token_owner_id@ == old(self).token_owner_id@,
            final(self).cost == old(self).cost,
            final(self).stop_ == old(self).stop_,
            final(self).tasks_@ == old(self).tasks_@,
            final(self).run_error == old(self).run_error,
    {
        if gas_limit == 0 {
            self.has_output = false;
            self.is_token_valid = false;
            self.execution_result = String::new();
            self.phase = MacPhase::Stopped;
            false
        } else {
            self.is_token_valid = true;
            self.phase = MacPhase::Running;
            true
        }
    }

    /// The sandbox declared a synchronization task.
    pub fn declare_sync_task(&mut self, name: String, deps: Vec<String>)
        ensures
            final(self).sync_tasks@.len() == old(self).sync_tasks@.len() + 1,
            forall|i: int|
                0 <= i < old(self).sync_tasks@.len() ==> final(self).sync_tasks@[i] == old(
                    self,
                ).sync_tasks@[i],
            final(self).sync_tasks@.last().name@ == name@,
            final(self).sync_tasks@.last().deps == deps,
            final(self).trx == old(self).trx,
            final(self).execution_result@ == old(self).execution_result@,
            final(self).has_output == old(self).has_output,
            final(self).phase == old(self).phase,
            same_identity(*old(self), *final(self)),
            final(self).chain_token_id@ == old(self).chain_token_id@,
            final(self).token_owner_id@ == old(self).token_owner_id@,
            final(self).is_token_valid == old(self).is_token_valid,
            final(self).cost == old(self).cost,
            final(self).stop_ == old(self).stop_,
            final(self).tasks_@ == old(self).tasks_@,
            final(self).run_error == old(self).run_error,
    {
        self.sync_tasks.push(SyncTask { deps, name });
    }

    /// The sandbox recorded its final output buffer.
    pub fn record_output(&mut self, text: String)
        ensures
            final(self).execution_result@ == text@,
            final(self).has_output,
            final(self).trx == old(self).trx,
            final(self).sync_tasks@ == old(self).sync_tasks@,
            final(self).phase == old(self).phase,
            same_identity(*old(self), *final(self)),
            final(self).chain_token_id@ == old(self).chain_token_id@,
            final(self).token_owner_id@ == old(self).token_owner_id@,
            final(self).is_token_valid == old(self).is_token_valid,
            final(self).cost == old(self).cost,
            final(self).stop_ == old(self).stop_,
            final(self).tasks_@ == old(self).tasks_@,
            final(self).run_error == old(self).run_error,
    {
        self.execution_result = text;
        self.has_output = true;
    }

    /// Record the accumulated cost read from the sandbox's statistics.
    pub fn record_cost(&mut self, cost: u64)
        ensures
            final(self).cost == cost,
            final(self).trx == old(self).trx,
            final(self).sync_tasks@ == old(self).sync_tasks@,
            final(self).execution_result@ == old(self).execution_result@,
            final(self).has_output == old(self).has_output,
            final(self).phase == old(self).phase,
            same_identity(*old(self), *final(self)),
            final(self).chain_token_id@ == old(self).chain_token_id@,
            final(self).token_owner_id@ == old(self).token_owner_id@,
            final(self).is_token_valid == old(self).is_token_valid,
            final(self).stop_ == old(self).stop_,
            final(self).tasks_@ == old(self).tasks_@,
            final(self).run_error == old(self).run_error,
    {
        self.cost = cost;
    }

    /// Record a per-applet fatal failure (cost-budget overrun, sandbox trap,
    /// malformed declaration): the applet's output is dropped and the round
    /// continues; the failure reaches the report as a non-success code with
    /// this message.
    pub fn record_failure(&mut self, error: String)
        ensures
            final(self).run_error == Some(error),
            final(self).execution_result@ =~= Seq::<char>::empty(),
            !final(self).has_output,
            final(self).trx == old(self).trx,
            final(self).sync_tasks@ == old(self).sync_tasks@,
            same_identity(*old(self), *final(self)),
            final(self).chain_token_id@ == old(self).chain_token_id@,
            final(self).token_owner_id@ == old(self).token_owner_id@,
            final(self).is_token_valid == old(self).is_token_valid,
            final(self).cost == old(self).cost,
            final(self).stop_ == old(self).stop_,
            final(self).tasks_@ == old(self).tasks_@,
            final(self).phase == old(self).phase,
    {
        self.run_error = Some(error);
        self.execution_result = String::new();
        self.has_output = false;
    }

    /// Host call `put`: buffer a write under the applet-namespaced key.
    pub fn host_put(&mut self, key: String, val: String)
        requires
            old(self).wf(),
        ensures
            final(self).wf(),
            final(self).trx.store@ =~= old(self).trx.store@.insert(
                spec_namespaced(old(self).machine_id@, key@),
                val@,
            ),
            ops_model(final(self).trx.ops@) =~= ops_model(old(self).trx.ops@).push(
                OpModel {
                    put: true,
                    key: spec_namespaced(old(self).machine_id@, key@),
                    val: val@,
                },
            ),
            final(self).machine_id@ == old(self).machine_id@,
            final(self).sync_tasks@ == old(self).sync_tasks@,
    {
        let k = namespaced_key(&self.machine_id, &key);
        self.trx.put(k, val);
    }

    /// Host call `del`: buffer a delete under the applet-namespaced key.
    pub fn host_del(&mut self, key: String)
        requires
            old(self).wf(),
        ensures
            final(self).wf(),
            final(self).trx.store@ =~= old(self).trx.store@.remove(
                spec_namespaced(old(self).machine_id@, key@),
            ),
            final(self).trx.newly_deleted@ =~= old(self).trx.newly_deleted@.insert(
                spec_namespaced(old(self).machine_id@, key@),
            ),
            ops_model(final(self).trx.ops@) =~= ops_model(old(self).trx.ops@).push(
                OpModel {
                    put: false,
                    key: spec_namespaced(old(self).machine_id@, key@),
                    val: Seq::empty(),
                },
            ),
            final(self).machine_id@ == old(self).machine_id@,
    {
        let k = namespaced_key(&self.machine_id, &key);
        self.trx.del(k);
    }

    /// Host call `get`, first half: read the overlay under the namespaced
    /// key; tells the caller whether the durable engine must be consulted.
    pub fn host_lookup(&self, key: &String) -> (r: BufferedRead)
        requires
            self.wf(),
        ensures
            match r {
                BufferedRead::Hit(v) => self.trx.store@.contains_key(
                    spec_namespaced(self.machine_id@, key@),
                ) && v@ == self.trx.store@[spec_namespaced(self.machine_id@, key@)],
                BufferedRead::Tombstoned => !self.trx.store@.contains_key(
                    spec_namespaced(self.machine_id@, key@),
                ) && self.trx.newly_deleted@.contains(spec_namespaced(self.machine_id@, key@)),
                BufferedRead::Miss => !self.trx.store@.contains_key(
                    spec_namespaced(self.machine_id@, key@),
                ) && !self.trx.newly_deleted@.contains(spec_namespaced(self.machine_id@, key@)),
            },
    {
        let k = namespaced_key(&self.machine_id, key);
        self.trx.lookup_buffered(&k)
    }

    /// Host call `get`, whole: overlay first, tombstones blocking, the
    /// supplied durable read only on a miss (and then memoized).
    pub fn host_get(&mut self, key: String, durable: Option<String>) -> (r: String)
        requires
            old(self).wf(),
        ensures
            final(self).wf(),
            r@ == buffered_get_spec(
                *old(self).trx,
                spec_namespaced(old(self).machine_id@, key@),
                durable_view(durable),
            ),
            final(self).machine_id@ == old(self).machine_id@,
            ops_model(final(self).trx.ops@) == ops_model(old(self).trx.ops@),
    {
        let k = namespaced_key(&self.machine_id, &key);
        self.trx.get(k, durable)
    }

    /// Host call `getByPrefix`: overlay matches first, then unshadowed,
    /// untombstoned durable pairs from the supplied scan.
    pub fn host_get_by_prefix(&self, prefix: &String, scanned: &Vec<(String, String)>) -> (r: Vec<
        String,
    >)
        requires
            self.wf(),
        ensures
            r@.map_values(|v: String| v@) =~= overlay_prefix_values(
                self.trx.store.entries@,
                spec_namespaced(self.machine_id@, prefix@),
            ) + durable_prefix_values(
                scanned@,
                spec_namespaced(self.machine_id@, prefix@),
                self.trx.store@,
                self.trx.newly_deleted@,
            ),
    {
        let p = namespaced_key(&self.machine_id, prefix);
        self.trx.get_by_prefix(&p, scanned)
    }

    /// Host call `submitOnchainTrx`: decode the metadata word and assemble
    /// the submission.  A base-chain submission carries no target machine.
    pub fn submit_trx_request(&self, key: String, input: String, meta: &str, target_machine:
        String) -> (r: SubmitTrxRequest)
        ensures
            r.is_base == (meta@.len() > 0 && meta@[0] == '1'),
            r.is_file == (meta@.len() > 1 && meta@[1] == '1'),
            meta@.len() >= 2 ==> r.tag@ == meta@.skip(2),
            r.target_machine_id@ == (if r.is_base {
                Seq::<char>::empty()
            } else {
                target_machine@
            }),
            r.point_id@ == self.point_id@,
            r.machine_id@ == self.machine_id@,
            r.key@ == key@,
            r.packet@ == input@,
            r.is_requester_onchain == self.onchain,
    {
        let m: TrxMeta = parse_trx_meta(meta);
        let target_machine_id = if m.is_base {
            String::new()
        } else {
            target_machine
        };
        SubmitTrxRequest {
            point_id: self.point_id.clone(),
            machine_id: self.machine_id.clone(),
            target_machine_id,
            key,
            tag: m.tag,
            packet: input,
            is_file: m.is_file,
            is_base: m.is_base,
            is_requester_onchain: self.onchain,
        }
    }

    /// Host call `httpPost`.
    pub fn http_post_request(&self, url: String, headers: String, body: String) -> (r:
        HttpPostRequest)
        ensures
            r.machine_id@ == self.machine_id@,
            r.url@ == url@,
            r.headers@ == headers@,
            r.body@ == body@,
    {
        HttpPostRequest { machine_id: self.machine_id.clone(), url, headers, body }
    }

    /// Host call `runDocker`.
    pub fn run_docker_request(&self, image_name: String, input_files: String, container_name:
        String) -> (r: RunDockerRequest)
        ensures
            r.machine_id@ == self.machine_id@,
            r.point_id@ == self.point_id@,
            r.input_files@ == input_files@,
            r.image_name@ == image_name@,
            r.container_name@ == container_name@,
    {
        RunDockerRequest {
            machine_id: self.machine_id.clone(),
            point_id: self.point_id.clone(),
            input_files,
            image_name,
            container_name,
        }
    }

    /// Host call `execDocker`.
    pub fn exec_docker_request(&self, image_name: String, container_name: String, command: String)
        -> (r: ExecDockerRequest)
        ensures
            r.machine_id@ == self.machine_id@,
            r.image_name@ == image_name@,
            r.container_name@ == container_name@,
            r.command@ == command@,
    {
        ExecDockerRequest {
            machine_id: self.machine_id.clone(),
            image_name,
            container_name,
            command,
        }
    }

    /// Host call `copyToDocker`.
    pub fn copy_to_docker_request(
        &self,
        image_name: String,
        container_name: String,
        file_name: String,
        content: String,
    ) -> (r: CopyToDockerRequest)
        ensures
            r.machine_id@ == self.machine_id@,
            r.image_name@ == image_name@,
            r.container_name@ == container_name@,
            r.file_name@ == file_name@,
            r.content@ == content@,
    {
        CopyToDockerRequest {
            machine_id: self.machine_id.clone(),
            image_name,
            container_name,
            file_name,
            content,
        }
    }

    /// Host call `plantTrigger`.
    pub fn plant_trigger_request(&self, tag: String, input: String, point_id: String, count: i32)
        -> (r: PlantTriggerRequest)
        ensures
            r.machine_id@ == self.machine_id@,
            r.point_id@ == point_id@,
            r.input@ == input@,
            r.tag@ == tag@,
            r.count == count,
    {
        PlantTriggerRequest { machine_id: self.machine_id.clone(), point_id, input, tag, count }
    }

    /// Host call `signalPoint`.
    pub fn signal_point_request(&self, type_: String, point_id: String, user_id: String, data:
        String) -> (r: SignalPointRequest)
        ensures
            r.machine_id@ == self.machine_id@,
            r.type_@ == type_@,
            r.point_id@ == point_id@,
            r.user_id@ == user_id@,
            r.data@ == data@,
    {
        SignalPointRequest {
            machine_id: self.machine_id.clone(),
            type_,
            point_id,
            user_id,
            data,
        }
    }

    /// Signal the context's thread to stop once its queue drains.
    pub fn stop(&mut self)
        ensures
            final(self).stop_,
            final(self).tasks_@ == old(self).tasks_@,
            final(self).trx == old(self).trx,
            final(self).sync_tasks@ == old(self).sync_tasks@,
            final(self).execution_result@ == old(self).execution_result@,
            final(self).cost == old(self).cost,
            final(self).has_output == old(self).has_output,
            final(self).machine_id@ == old(self).machine_id@,
            final(self).chain_token_id@ == old(self).chain_token_id@,
            final(self).token_owner_id@ == old(self).token_owner_id@,
            final(self).index == old(self).index,
            final(self).run_error == old(self).run_error,
            final(self).phase == old(self).phase,
    {
        self.stop_ = true;
    }

    /// Queue a named task for the context's dedicated thread.
    pub fn enqueue_task(&mut self, task_id: String)
        ensures
            final(self).tasks_@.len() == old(self).tasks_@.len() + 1,
            final(self).tasks_@.last()@ == task_id@,
            forall|i: int|
                0 <= i < old(self).tasks_@.len() ==> final(self).tasks_@[i] == old(self).tasks_@[i],
            final(self).stop_ == old(self).stop_,
            final(self).trx == old(self).trx,
    {
        self.tasks_.push_back(task_id);
    }

    /// The context thread's decision: run queued tasks first (the queue
    /// drains even after a stop), exit once stopped with nothing queued,
    /// otherwise wait.  Task invocations are strictly serialized: one thread,
    /// one decision at a time, so the sandbox is never entered concurrently.
    pub fn next_task_action(&mut self) -> (r: TaskAction)
        ensures
            old(self).tasks_@.len() > 0 ==> final(self).tasks_@ =~= old(self).tasks_@.drop_first()
                && match r {
                TaskAction::Run(name) => name@ == old(self).tasks_@[0]@,
                _ => false,
            } && final(self).phase == MacPhase::TaskRunning,
            old(self).tasks_@.len() == 0 ==> final(self).tasks_@ == old(self).tasks_@ && r == (
            if old(self).stop_ {
                TaskAction::Exit
            } else {
                TaskAction::Wait
            }) && final(self).phase == (if old(self).stop_ {
                MacPhase::Stopped
            } else {
                old(self).phase
            }),
            final(self).stop_ == old(self).stop_,
            final(self).trx == old(self).trx,
            final(self).sync_tasks@ == old(self).sync_tasks@,
            final(self).execution_result@ == old(self).execution_result@,
            final(self).cost == old(self).cost,
    {
        match self.tasks_.pop_front() {
            Some(name) => {
                self.phase = MacPhase::TaskRunning;
                TaskAction::Run(name)
            },
            None => {
                if self.stop_ {
                    self.phase = MacPhase::Stopped;
                    TaskAction::Exit
                } else {
                    TaskAction::Wait
                }
            },
        }
    }

    /// Settle the transaction log and hand the op list up.  The onchain
    /// policy performs no durable mutation at all: the ops are speculative
    /// until the host replays them.  Offchain, the caller commits the same
    /// list as one atomic transaction against the durable engine.
    pub fn finalize(&mut self) -> (r: Vec<WasmDbOp>)
        requires
            old(self).wf(),
        ensures
            final(self).wf(),
            ops_model(r@) =~= ops_model(old(self).trx.ops@),
            r@.len() == old(self).trx.ops@.len(),
            forall|i: int| 0 <= i < r@.len() ==> crate::ops::op_wf(#[trigger] r@[i]),
            final(self).trx == old(self).trx,
            final(self).phase == MacPhase::Finalized,
            final(self).execution_result@ == old(self).execution_result@,
            final(self).cost == old(self).cost,
            final(self).chain_token_id@ == old(self).chain_token_id@,
            final(self).token_owner_id@ == old(self).token_owner_id@,
            final(self).index == old(self).index,
            final(self).run_error == old(self).run_error,
    {
        if self.onchain {
            self.trx.dummy_commit();
        }
        let r = self.trx.ops_snapshot();
        self.phase = MacPhase::Finalized;
        r
    }
}

} // verus!
