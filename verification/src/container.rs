use vstd::prelude::*;
use crate::ext::{ExtOp, LoadedExtension, ExtOpView, clone_bytes, op_cost};
use crate::interp::{ServerRun, rw_view, server_step, wrap_sum_exec};
use crate::master::{Master, tables_of};
use crate::pushback::{encode_rwset, lemma_pushback_round_trip, parse_pushback, pushback_bytes,
    records_wf};
use crate::task::{TaskPriority, TaskState};
use crate::util::u64_to_le;
use crate::wireformat::{OPCODE_INVOKE, Request, Response, RpcStatus};

verus! {

/// A container task: an extension invocation wrapped as a resumable
/// cooperative task. Each run() consumes one operation of the loaded
/// extension, so every operation boundary is a yield point; the task
/// owns the invocation's read/write-set, and a task that overruns its
/// cycle budget is serialized into a pushback response. The task
/// embeds its invocation environment — the packets and the argument
/// window a context carries — so a scheduler owns everything it runs.
pub struct ContainerTask {
    priority: TaskPriority,
    state: TaskState,
    tenant_id: u64,
    program: LoadedExtension,
    pc: usize,
    args: Vec<u8>,
    req: Request,
    res: Response,
    reads: Vec<(Vec<u8>, Vec<u8>)>,
    writes: Vec<(Vec<u8>, Vec<u8>)>,
    sum: u64,
    cycles_consumed: u64,
    cycles_budget: u64,
}

impl ContainerTask {
    /// The packets echo each other, the program counter stays within
    /// the program, and the task only ever rests between operations.
    pub closed spec fn wf(self) -> bool {
        &&& self.res.wf()
        &&& self.res.stamp == self.req.stamp
        &&& self.res.opcode == self.req.opcode
        &&& self.req.opcode == OPCODE_INVOKE
        &&& self.pc <= self.program@.len()
        &&& self.state is Initialized || self.state is Yielded || self.state is Completed
        &&& (self.state is Initialized ==> self.pc == 0)
    }

    /// The task's lifecycle state.
    pub closed spec fn spec_state(self) -> TaskState {
        self.state
    }

    /// The task's priority band.
    pub closed spec fn spec_priority(self) -> TaskPriority {
        self.priority
    }

    /// The issuing tenant.
    pub closed spec fn spec_tenant(self) -> u64 {
        self.tenant_id
    }

    /// The extension program being run.
    pub closed spec fn spec_prog(self) -> Seq<ExtOpView> {
        self.program@
    }

    /// Operations already consumed.
    pub closed spec fn spec_pc(self) -> int {
        self.pc as int
    }

    /// The invocation's argument blob.
    pub closed spec fn spec_args(self) -> Seq<u8> {
        self.args@
    }

    /// Payload bytes the response packet can carry.
    pub closed spec fn spec_cap(self) -> nat {
        self.res.capacity as nat
    }

    /// The wrapped request packet.
    pub closed spec fn spec_req(self) -> Request {
        self.req
    }

    /// The response packet under construction.
    pub closed spec fn spec_res(self) -> Response {
        self.res
    }

    /// The total cost of the slices run to date.
    pub closed spec fn spec_cycles_consumed(self) -> u64 {
        self.cycles_consumed
    }

    /// The task's whole-lifetime cycle budget.
    pub closed spec fn spec_cycles_budget(self) -> u64 {
        self.cycles_budget
    }

    /// Running sum of all value bytes read, wrapping at 64 bits.
    pub closed spec fn spec_sum(self) -> u64 {
        self.sum
    }

    /// The read-set accumulated so far, in observation order.
    pub closed spec fn spec_reads(self) -> Seq<(Seq<u8>, Seq<u8>)> {
        rw_view(self.reads@)
    }

    /// The write-set accumulated so far, in observation order.
    pub closed spec fn spec_writes(self) -> Seq<(Seq<u8>, Seq<u8>)> {
        rw_view(self.writes@)
    }

    /// The abstract state of this invocation, as the interpreter sees
    /// it, against a tenant map.
    pub open spec fn abs(self, m: Map<u64, Map<u64, Map<Seq<u8>, Seq<u8>>>>) -> ServerRun {
        ServerRun {
            tables: tables_of(m, self.spec_tenant()),
            resp: self.spec_res().payload@,
            reads: self.spec_reads(),
            writes: self.spec_writes(),
            sum: self.spec_sum(),
            status: self.spec_res().status,
            done: self.spec_state() is Completed,
        }
    }

    /// The task's lifecycle state.
    pub fn state(&self) -> (r: TaskState)
        ensures
            r == self.spec_state(),
    {
        self.state
    }

    /// The task's priority band.
    pub fn priority(&self) -> (r: TaskPriority)
        ensures
            r == self.spec_priority(),
    {
        self.priority
    }

    /// The total cost of the slices run to date.
    pub fn cycles_consumed(&self) -> (r: u64)
        ensures
            r == self.spec_cycles_consumed(),
    {
        self.cycles_consumed
    }

    /// The task's whole-lifetime cycle budget.
    pub fn cycles_budget(&self) -> (r: u64)
        ensures
            r == self.spec_cycles_budget(),
    {
        self.cycles_budget
    }

    /// Wraps a validated invocation as a fresh task.
    pub fn new(
        priority: TaskPriority,
        tenant_id: u64,
        program: LoadedExtension,
        args: Vec<u8>,
        req: Request,
        res: Response,
        cycles_budget: u64,
    ) -> (r: ContainerTask)
        requires
            res.wf(),
            res.stamp == req.stamp,
            res.opcode == req.opcode,
            req.opcode == OPCODE_INVOKE,
            res.payload@.len() == 0,
            res.status is StatusOk,
        ensures
            r.wf(),
            r.spec_state() is Initialized,
            r.spec_priority() == priority,
            r.spec_tenant() == tenant_id,
            r.spec_prog() == program@,
            r.spec_pc() == 0,
            r.spec_args() == args@,
            r.spec_req() == req,
            r.spec_res() == res,
            r.spec_cycles_consumed() == 0,
            r.spec_cycles_budget() == cycles_budget,
            r.spec_reads() == Seq::<(Seq<u8>, Seq<u8>)>::empty(),
            r.spec_writes() == Seq::<(Seq<u8>, Seq<u8>)>::empty(),
            r.spec_sum() == 0,
    {
        let r = ContainerTask {
            priority,
            state: TaskState::Initialized,
            tenant_id,
            program,
            pc: 0,
            args,
            req,
            res,
            reads: Vec::new(),
            writes: Vec::new(),
            sum: 0,
            cycles_consumed: 0,
            cycles_budget,
        };
        proof {
            assert(r.spec_reads() =~= Seq::<(Seq<u8>, Seq<u8>)>::empty());
            assert(r.spec_writes() =~= Seq::<(Seq<u8>, Seq<u8>)>::empty());
        }
        r
    }

    /// Performs one cooperative slice: the extension's next operation.
    /// The slice advances the abstract state by exactly one interpreter
    /// step; the task completes when the step ends the run or exhausts
    /// the program, and yields otherwise. The cycles the slice consumed
    /// are charged against the task's lifetime budget, saturating.
    pub fn run(&mut self, master: &mut Master) -> (r: (TaskState, u64))
        requires
            old(self).wf(),
            old(master).wf(),
        ensures
            final(self).wf(),
            final(master).wf(),
            final(master).exts() == old(master).exts(),
            r.0 == final(self).spec_state(),
            final(self).spec_state() is Completed || final(self).spec_state() is Yielded,
            final(self).spec_res().stamp == old(self).spec_req().stamp,
            final(self).spec_res().opcode == old(self).spec_req().opcode,
            final(self).spec_req() == old(self).spec_req(),
            final(self).spec_priority() == old(self).spec_priority(),
            final(self).spec_tenant() == old(self).spec_tenant(),
            final(self).spec_prog() == old(self).spec_prog(),
            final(self).spec_args() == old(self).spec_args(),
            final(self).spec_cap() == old(self).spec_cap(),
            final(self).spec_cycles_budget() == old(self).spec_cycles_budget(),
            old(self).spec_state() is Completed ==> *final(self) == *old(self) && final(master)@
                == old(master)@ && r == (TaskState::Completed, 0u64),
            !(old(self).spec_state() is Completed) && old(self).spec_pc() == old(
                self,
            ).spec_prog().len() ==> {
                &&& final(self).spec_state() is Completed
                &&& final(master)@ == old(master)@
                &&& r.1 == 0
                &&& final(self).spec_pc() == old(self).spec_pc()
                &&& final(self).spec_res().payload@ == old(self).spec_res().payload@
                &&& final(self).spec_res().status == old(self).spec_res().status
                &&& final(self).spec_reads() == old(self).spec_reads()
                &&& final(self).spec_writes() == old(self).spec_writes()
                &&& final(self).spec_cycles_consumed() == old(self).spec_cycles_consumed()
            },
            !(old(self).spec_state() is Completed) && old(self).spec_pc() < old(
                self,
            ).spec_prog().len() ==> {
                let op = old(self).spec_prog()[old(self).spec_pc()];
                let st1 = server_step(
                    old(self).abs(old(master)@),
                    op,
                    old(self).spec_args(),
                    old(self).spec_cap(),
                );
                &&& final(self).spec_pc() == old(self).spec_pc() + 1
                &&& tables_of(final(master)@, old(self).spec_tenant()) == st1.tables
                &&& (old(master)@.contains_key(old(self).spec_tenant()) ==> final(master)@ == old(
                    master,
                )@.insert(old(self).spec_tenant(), st1.tables))
                &&& (!old(master)@.contains_key(old(self).spec_tenant()) ==> final(master)@ == old(
                    master,
                )@)
                &&& final(self).spec_res().payload@ == st1.resp
                &&& final(self).spec_res().status == st1.status
                &&& final(self).spec_reads() == st1.reads
                &&& final(self).spec_writes() == st1.writes
                &&& final(self).spec_sum() == st1.sum
                &&& final(self).spec_state() == (if st1.done || old(self).spec_pc() + 1 == old(
                    self,
                ).spec_prog().len() {
                    TaskState::Completed
                } else {
                    TaskState::Yielded
                })
                &&& r.1 == op_cost(op)
                &&& final(self).spec_cycles_consumed() == (if old(self).spec_cycles_consumed()
                    + op_cost(op) > u64::MAX {
                    u64::MAX
                } else {
                    (old(self).spec_cycles_consumed() + op_cost(op)) as u64
                })
            },
    {
        if let TaskState::Completed = self.state {
            return (TaskState::Completed, 0);
        }
        let len = self.program.len();
        if self.pc == len {
            self.state = TaskState::Completed;
            return (TaskState::Completed, 0);
        }
        let cost = self.program.op_at(self.pc).cost();
        let mut ended = false;
        // Take an owned copy of the operation, so no borrow of the
        // program is held across the mutations below.
        let op = self.program.op_at(self.pc).duplicate();
        match op {
            ExtOp::Get { table, key, emit } => {
                match master.ctx_get(self.tenant_id, table, key.as_slice()) {
                    Some(v) => {
                        let ghost reads0 = rw_view(self.reads@);
                        self.reads.push((clone_bytes(&key), clone_bytes(&v)));
                        proof {
                            assert(rw_view(self.reads@) =~= reads0.push((key@, v@)));
                        }
                        self.sum = wrap_sum_exec(self.sum, v.as_slice());
                        if emit {
                            if !self.res.add_to_payload_tail(v.as_slice()) {
                                self.res.status = RpcStatus::StatusInternalError;
                                ended = true;
                            }
                        }
                    },
                    None => {
                        self.res.status = RpcStatus::StatusObjectDoesNotExist;
                        ended = true;
                    },
                }
            },
            ExtOp::Put { table, key, value } => {
                if master.ctx_put(self.tenant_id, table, key.as_slice(), value.as_slice()) {
                    let ghost writes0 = rw_view(self.writes@);
                    self.writes.push((key, value));
                    proof {
                        assert(rw_view(self.writes@) =~= writes0.push(
                            (self.writes@.last().0@, self.writes@.last().1@),
                        ));
                    }
                } else {
                    self.res.status = RpcStatus::StatusTableDoesNotExist;
                    ended = true;
                }
            },
            ExtOp::Emit { data } => {
                if !self.res.add_to_payload_tail(data.as_slice()) {
                    self.res.status = RpcStatus::StatusInternalError;
                    ended = true;
                }
            },
            ExtOp::EmitArgs => {
                let data = clone_bytes(&self.args);
                if !self.res.add_to_payload_tail(data.as_slice()) {
                    self.res.status = RpcStatus::StatusInternalError;
                    ended = true;
                }
            },
            ExtOp::EmitSum => {
                let data = u64_to_le(self.sum);
                if !self.res.add_to_payload_tail(data.as_slice()) {
                    self.res.status = RpcStatus::StatusInternalError;
                    ended = true;
                }
            },
            ExtOp::Work { cycles: _ } => {},
        }
        self.pc = self.pc + 1;
        self.cycles_consumed = self.cycles_consumed.saturating_add(cost);
        if ended || self.pc == len {
            self.state = TaskState::Completed;
        } else {
            self.state = TaskState::Yielded;
        }
        (self.state, cost)
    }

    /// Surrenders the request and the finished response for transmit.
    pub fn commit(self) -> (r: (Request, Response))
        requires
            self.wf(),
            self.spec_state() is Completed,
        ensures
            r.0 == self.spec_req(),
            r.1 == self.spec_res(),
            r.1.stamp == r.0.stamp,
            r.1.wf(),
    {
        let ContainerTask { req, res, .. } = self;
        (req, res)
    }

    /// Serializes the task's continuation — its read/write-set — into
    /// the response payload and surrenders both packets; the client
    /// resumes the task from them. Legal once the task has yielded.
    /// When a record does not fit the fixed wire widths, or the records
    /// do not fit in the packet, the response reports an internal error
    /// instead.
    pub fn pushback(self) -> (r: (Request, Response))
        requires
            self.wf(),
            self.spec_state() is Yielded,
        ensures
            r.0 == self.spec_req(),
            r.1.stamp == self.spec_req().stamp,
            r.1.opcode == self.spec_req().opcode,
            r.1.wf(),
            r.1.capacity == self.spec_res().capacity,
            ({
                let ok = records_wf(self.spec_reads()) && records_wf(self.spec_writes())
                    && pushback_bytes(self.spec_reads(), self.spec_writes()).len()
                    <= self.spec_cap();
                &&& (ok ==> r.1.status is StatusPushback && r.1.payload@ == pushback_bytes(
                    self.spec_reads(),
                    self.spec_writes(),
                ) && parse_pushback(r.1.payload@) == Some(
                    (self.spec_reads(), self.spec_writes()),
                ))
                &&& (!ok ==> r.1.status is StatusInternalError && r.1.payload@.len() == 0)
            }),
    {
        proof {
            if records_wf(self.spec_reads()) && records_wf(self.spec_writes()) {
                lemma_pushback_round_trip(self.spec_reads(), self.spec_writes());
            }
        }
        let ContainerTask { req, res, reads, writes, .. } = self;
        let mut out = Response::new(res.opcode, res.stamp, res.capacity);
        match encode_rwset(&reads, &writes) {
            Some(bytes) => {
                if out.add_to_payload_tail(bytes.as_slice()) {
                    out.status = RpcStatus::StatusPushback;
                } else {
                    let mut fresh = Response::new(res.opcode, res.stamp, res.capacity);
                    fresh.status = RpcStatus::StatusInternalError;
                    return (req, fresh);
                }
            },
            None => {
                out.status = RpcStatus::StatusInternalError;
            },
        }
        (req, out)
    }
}

} // verus!
