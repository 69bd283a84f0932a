use vstd::prelude::*;
use crate::common::NATIVE_RUN_CYCLES;
use crate::container::ContainerTask;
use crate::ext::op_cost;
use crate::interp::server_step;
use crate::master::{Master, tables_of};
use crate::native::{NativeTask, native_get_payload, native_get_status, native_put_status};
use crate::pushback::{parse_pushback, pushback_bytes, records_wf};
use crate::wireformat::{OPCODE_GET, OPCODE_PUT, Request, Response};

verus! {

#[derive(PartialEq, Eq, Structural, Clone, Copy, Debug)]
/// Lifecycle state of a task. The initial state is `Initialized`, the
/// terminal one `Completed`; transitions out of `Completed` never
/// occur.
pub enum TaskState {
    /// Constructed; never run.
    Initialized,
    /// Ready to run another slice.
    Runnable,
    /// Gave its core up at a yield point.
    Yielded,
    /// Blocked on an asynchronous dependency; woken by an external
    /// event.
    Waiting,
    /// Finished; its response is ready for transmit.
    Completed,
}

#[derive(PartialEq, Eq, Structural, Clone, Copy, Debug)]
/// Priority band a task is scheduled in. `Request` dominates; lower
/// bands serve background chores. The tie-break within a band is
/// first-in first-out.
pub enum TaskPriority {
    /// A task answering a client RPC.
    Request,
    /// A background chore.
    Background,
}

/// A schedulable task: a single-shot native operation or a resumable
/// extension invocation.
pub enum Task {
    /// A native get() or put().
    Native(NativeTask),
    /// An extension invocation.
    Container(ContainerTask),
}

impl Task {
    /// The wrapped task is well formed.
    pub open spec fn wf(self) -> bool {
        match self {
            Task::Native(t) => t.wf(),
            Task::Container(t) => t.wf(),
        }
    }

    /// The task's lifecycle state.
    pub open spec fn spec_state(self) -> TaskState {
        match self {
            Task::Native(t) => t.spec_state(),
            Task::Container(t) => t.spec_state(),
        }
    }

    /// The task's priority band.
    pub open spec fn spec_priority(self) -> TaskPriority {
        match self {
            Task::Native(t) => t.spec_priority(),
            Task::Container(t) => t.spec_priority(),
        }
    }

    /// The wrapped request packet.
    pub open spec fn spec_req(self) -> Request {
        match self {
            Task::Native(t) => t.spec_req(),
            Task::Container(t) => t.spec_req(),
        }
    }

    /// The response packet under construction.
    pub open spec fn spec_res(self) -> Response {
        match self {
            Task::Native(t) => t.spec_res(),
            Task::Container(t) => t.spec_res(),
        }
    }

    /// The stamp identifying the task: its request's stamp, unique per
    /// continuation.
    pub open spec fn spec_stamp(self) -> u64 {
        self.spec_req().stamp
    }

    /// The task's lifecycle state.
    pub fn state(&self) -> (r: TaskState)
        ensures
            r == self.spec_state(),
    {
        match self {
            Task::Native(t) => t.state(),
            Task::Container(t) => t.state(),
        }
    }

    /// The task's priority band.
    pub fn priority(&self) -> (r: TaskPriority)
        ensures
            r == self.spec_priority(),
    {
        match self {
            Task::Native(t) => t.priority(),
            Task::Container(t) => t.priority(),
        }
    }

    /// True when the task has overrun its whole-lifetime cycle budget
    /// and must be pushed back rather than re-enqueued. A native task
    /// never overruns.
    pub fn overrun(&self) -> (r: bool)
        ensures
            r == self.spec_overrun(),
    {
        match self {
            Task::Native(_) => false,
            Task::Container(t) => t.cycles_consumed() > t.cycles_budget(),
        }
    }

    /// True when the task has consumed more cycles than its budget.
    pub open spec fn spec_overrun(self) -> bool {
        match self {
            Task::Native(_) => false,
            Task::Container(t) => t.spec_cycles_consumed() > t.spec_cycles_budget(),
        }
    }

    /// Performs one cooperative slice of the task against the service
    /// and reports the state it left the task in and the cycles the
    /// slice consumed. A completed task stays completed and consumes
    /// nothing.
    pub fn run(&mut self, master: &mut Master) -> (r: (TaskState, u64))
        requires
            old(self).wf(),
            old(master).wf(),
        ensures
            final(self).wf(),
            final(master).wf(),
            final(master).exts() == old(master).exts(),
            r.0 == final(self).spec_state(),
            final(self).spec_req() == old(self).spec_req(),
            final(self).spec_stamp() == old(self).spec_stamp(),
            final(self).spec_priority() == old(self).spec_priority(),
            (*final(self)) is Native <==> (*old(self)) is Native,
            old(self).spec_state() is Completed ==> final(self).spec_state() is Completed
                && final(master)@ == old(master)@,
            final(self).spec_state() is Completed || final(self).spec_state() is Yielded,
            final(self).spec_res().stamp == old(self).spec_req().stamp,
            final(self).spec_res().opcode == old(self).spec_req().opcode,
            // A native task carries its handler's whole contract: the
            // one slice performs the lookup or the write and reports
            // exactly the statuses and payloads the handler specifies.
            (*old(self)) matches Task::Native(t0) ==> ((*final(self)) matches Task::Native(t1)
                && {
                &&& t1.spec_state() is Completed
                &&& (t0.spec_state() is Completed ==> t1 == t0 && final(master)@ == old(master)@
                    && r == (TaskState::Completed, 0u64))
                &&& (t0.spec_state() is Initialized ==> {
                    let req = t0.spec_req();
                    let tenant = req.tenant as u64;
                    let key = req.payload@.subrange(0, req.key_length as int);
                    let cap = t0.spec_res().capacity as nat;
                    &&& r.1 == NATIVE_RUN_CYCLES
                    &&& (req.opcode == OPCODE_GET ==> {
                        &&& final(master)@ == old(master)@
                        &&& t1.spec_res().status == native_get_status(
                            old(master)@,
                            tenant,
                            req.table_id,
                            key,
                            cap,
                        )
                        &&& t1.spec_res().payload@ == native_get_payload(
                            old(master)@,
                            tenant,
                            req.table_id,
                            key,
                            cap,
                        )
                        &&& t1.spec_res().value_length == native_get_payload(
                            old(master)@,
                            tenant,
                            req.table_id,
                            key,
                            cap,
                        ).len()
                    })
                    &&& (req.opcode == OPCODE_PUT ==> {
                        let value = req.payload@.subrange(
                            req.key_length as int,
                            req.payload@.len() as int,
                        );
                        &&& t1.spec_res().status == native_put_status(
                            old(master)@,
                            tenant,
                            req.table_id,
                            value,
                        )
                        &&& t1.spec_res().payload@.len() == 0
                        &&& (native_put_status(old(master)@, tenant, req.table_id, value)
                            is StatusOk ==> final(master)@ == old(master)@.insert(
                            tenant,
                            old(master)@[tenant].insert(
                                req.table_id,
                                old(master)@[tenant][req.table_id].insert(key, value),
                            ),
                        ))
                        &&& (!(native_put_status(old(master)@, tenant, req.table_id, value)
                            is StatusOk) ==> final(master)@ == old(master)@)
                    })
                })
            }),
            // An extension task carries its slice semantics: one
            // interpreter step per run, with the same bookkeeping its
            // own contract states.
            (*old(self)) matches Task::Container(c0) ==> ((*final(self)) matches Task::Container(
                c1,
            ) && {
                &&& c1.spec_tenant() == c0.spec_tenant()
                &&& c1.spec_prog() == c0.spec_prog()
                &&& c1.spec_args() == c0.spec_args()
                &&& c1.spec_cap() == c0.spec_cap()
                &&& c1.spec_cycles_budget() == c0.spec_cycles_budget()
                &&& (c0.spec_state() is Completed ==> c1 == c0 && final(master)@ == old(master)@
                    && r == (TaskState::Completed, 0u64))
                &&& (!(c0.spec_state() is Completed) && c0.spec_pc() == c0.spec_prog().len()
                    ==> {
                    &&& c1.spec_state() is Completed
                    &&& final(master)@ == old(master)@
                    &&& r.1 == 0
                    &&& c1.spec_res().payload@ == c0.spec_res().payload@
                    &&& c1.spec_res().status == c0.spec_res().status
                    &&& c1.spec_reads() == c0.spec_reads()
                    &&& c1.spec_writes() == c0.spec_writes()
                    &&& c1.spec_cycles_consumed() == c0.spec_cycles_consumed()
                })
                &&& (!(c0.spec_state() is Completed) && c0.spec_pc() < c0.spec_prog().len()
                    ==> {
                    let op = c0.spec_prog()[c0.spec_pc()];
                    let st1 = server_step(
                        c0.abs(old(master)@),
                        op,
                        c0.spec_args(),
                        c0.spec_cap(),
                    );
                    &&& c1.spec_pc() == c0.spec_pc() + 1
                    &&& tables_of(final(master)@, c0.spec_tenant()) == st1.tables
                    &&& (old(master)@.contains_key(c0.spec_tenant()) ==> final(master)@ == old(
                        master,
                    )@.insert(c0.spec_tenant(), st1.tables))
                    &&& (!old(master)@.contains_key(c0.spec_tenant()) ==> final(master)@ == old(
                        master,
                    )@)
                    &&& c1.spec_res().payload@ == st1.resp
                    &&& c1.spec_res().status == st1.status
                    &&& c1.spec_reads() == st1.reads
                    &&& c1.spec_writes() == st1.writes
                    &&& c1.spec_sum() == st1.sum
                    &&& c1.spec_state() == (if st1.done || c0.spec_pc() + 1
                        == c0.spec_prog().len() {
                        TaskState::Completed
                    } else {
                        TaskState::Yielded
                    })
                    &&& r.1 == op_cost(op)
                    &&& c1.spec_cycles_consumed() == (if c0.spec_cycles_consumed() + op_cost(op)
                        > u64::MAX {
                        u64::MAX
                    } else {
                        (c0.spec_cycles_consumed() + op_cost(op)) as u64
                    })
                })
            }),
    {
        match self {
            Task::Native(t) => t.run(master),
            Task::Container(t) => t.run(master),
        }
    }

    /// Serializes a yielded extension task's continuation into its
    /// response and surrenders both packets; the scheduler calls this
    /// when the task has overrun its lifetime budget. The response
    /// carries the request's stamp.
    pub fn pushback(self) -> (r: (Request, Response))
        requires
            self.wf(),
            self is Container,
            self.spec_state() is Yielded,
        ensures
            r.0 == self.spec_req(),
            r.1.stamp == r.0.stamp,
            r.1.wf(),
            r.1.status is StatusPushback || r.1.status is StatusInternalError,
            self matches Task::Container(t) ==> {
                let ok = records_wf(t.spec_reads()) && records_wf(t.spec_writes())
                    && pushback_bytes(t.spec_reads(), t.spec_writes()).len() <= t.spec_cap();
                &&& (ok ==> r.1.status is StatusPushback && r.1.payload@ == pushback_bytes(
                    t.spec_reads(),
                    t.spec_writes(),
                ) && parse_pushback(r.1.payload@) == Some((t.spec_reads(), t.spec_writes())))
                &&& (!ok ==> r.1.status is StatusInternalError && r.1.payload@.len() == 0)
            },
    {
        match self {
            Task::Container(t) => t.pushback(),
            Task::Native(t) => {
                proof {
                    assert(false);
                }
                t.commit()
            },
        }
    }

    /// Surrenders the request and the finished response for transmit;
    /// legal only on a completed task. The response carries the
    /// request's stamp.
    pub fn commit(self) -> (r: (Request, Response))
        requires
            self.wf(),
            self.spec_state() is Completed,
        ensures
            r.0 == self.spec_req(),
            r.1 == self.spec_res(),
            r.1.stamp == r.0.stamp,
            r.1.wf(),
    {
        match self {
            Task::Native(t) => t.commit(),
            Task::Container(t) => t.commit(),
        }
    }
}

} // verus!
