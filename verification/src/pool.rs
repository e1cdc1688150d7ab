//! The worker pool's queue discipline: a condition-variable–gated task queue
//! with graceful stop.  The threads themselves live outside the crate; each
//! idle worker asks `next_action` what to do, so the drain-then-exit policy
//! is checked here.

use vstd::prelude::*;
use std::collections::VecDeque;

verus! {

/// What an idle worker should do next.
pub enum PoolAction {
    /// Run the task graph node with this id.
    Run(u32),
    /// Sleep on the queue's condition variable.
    Wait,
    /// The pool is stopped and drained: exit.
    Exit,
}

/// The bounded worker pool: a queue of node ids and a stop flag, sized once
/// per round.
pub struct WasmThreadPool {
    pub tasks_: VecDeque<u32>,
    pub stop_: bool,
    pub worker_count: usize,
}

impl WasmThreadPool {
    pub fn generate(num_threads: Option<usize>) -> (r: Self)
        ensures
            r.tasks_@ =~= Seq::<u32>::empty(),
            !r.stop_,
            r.worker_count == match num_threads {
                Some(n) => n,
                None => 1,
            },
    {
        let worker_count = match num_threads {
            Some(n) => n,
            None => 1,
        };
        WasmThreadPool { tasks_: VecDeque::new(), stop_: false, worker_count }
    }

    /// Request a graceful stop: no new work is taken once the queue drains.
    pub fn stop_pool(&mut self)
        ensures
            final(self).stop_,
            final(self).tasks_@ == old(self).tasks_@,
            final(self).worker_count == old(self).worker_count,
    {
        self.stop_ = true;
    }

    /// Queue one node for resolution.
    pub fn enqueue(&mut self, task: u32)
        ensures
            final(self).tasks_@ =~= old(self).tasks_@.push(task),
            final(self).stop_ == old(self).stop_,
            final(self).worker_count == old(self).worker_count,
    {
        self.tasks_.push_back(task);
    }

    /// The worker loop's decision: run queued work first (the pool drains
    /// even after a stop), exit once stopped with nothing queued, otherwise
    /// wait.
    pub fn next_action(&mut self) -> (r: PoolAction)
        ensures
            old(self).tasks_@.len() > 0 ==> r == PoolAction::Run(old(self).tasks_@[0])
                && final(self).tasks_@ =~= old(self).tasks_@.drop_first(),
            old(self).tasks_@.len() == 0 ==> final(self).tasks_@ == old(self).tasks_@ && r == (
            if old(self).stop_ {
                PoolAction::Exit
            } else {
                PoolAction::Wait
            }),
            final(self).stop_ == old(self).stop_,
            final(self).worker_count == old(self).worker_count,
    {
        match self.tasks_.pop_front() {
            Some(t) => PoolAction::Run(t),
            None => {
                if self.stop_ {
                    PoolAction::Exit
                } else {
                    PoolAction::Wait
                }
            },
        }
    }
}

} // verus!
