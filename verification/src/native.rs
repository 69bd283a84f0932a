use vstd::prelude::*;
use crate::common::NATIVE_RUN_CYCLES;
use crate::ext::clone_bytes;
use crate::master::{Master, PutOutcome};
use crate::task::{TaskPriority, TaskState};
use crate::wireformat::{OPCODE_GET, OPCODE_PUT, Request, Response, RpcStatus};

verus! {

/// The status a native get() answers, given the tenant map it runs
/// against.
pub open spec fn native_get_status(
    m: Map<u64, Map<u64, Map<Seq<u8>, Seq<u8>>>>,
    tenant: u64,
    table: u64,
    key: Seq<u8>,
    cap: nat,
) -> RpcStatus {
    if !m.contains_key(tenant) {
        RpcStatus::StatusTenantDoesNotExist
    } else if !m[tenant].contains_key(table) {
        RpcStatus::StatusTableDoesNotExist
    } else if !m[tenant][table].contains_key(key) {
        RpcStatus::StatusObjectDoesNotExist
    } else if m[tenant][table][key].len() <= cap {
        RpcStatus::StatusOk
    } else {
        RpcStatus::StatusInternalError
    }
}

/// The payload a native get() answers: the value on success, nothing
/// otherwise.
pub open spec fn native_get_payload(
    m: Map<u64, Map<u64, Map<Seq<u8>, Seq<u8>>>>,
    tenant: u64,
    table: u64,
    key: Seq<u8>,
    cap: nat,
) -> Seq<u8> {
    if native_get_status(m, tenant, table, key, cap) is StatusOk {
        m[tenant][table][key]
    } else {
        Seq::empty()
    }
}

/// The status a native put() answers. The tenant is checked first, then
/// the table, then that the payload carries a value at all.
pub open spec fn native_put_status(
    m: Map<u64, Map<u64, Map<Seq<u8>, Seq<u8>>>>,
    tenant: u64,
    table: u64,
    value: Seq<u8>,
) -> RpcStatus {
    if !m.contains_key(tenant) {
        RpcStatus::StatusTenantDoesNotExist
    } else if !m[tenant].contains_key(table) {
        RpcStatus::StatusTableDoesNotExist
    } else if value.len() == 0 {
        RpcStatus::StatusMalformedRequest
    } else {
        RpcStatus::StatusOk
    }
}

/// A native task: a single-shot get() or put() handler wrapped as a
/// schedulable task. It completes in one slice, never yields, and never
/// pushes back.
pub struct NativeTask {
    priority: TaskPriority,
    state: TaskState,
    req: Request,
    res: Response,
}

impl NativeTask {
    /// The packets echo each other, the declared key fits inside the
    /// payload, and the task is either fresh or finished.
    pub closed spec fn wf(self) -> bool {
        &&& self.res.wf()
        &&& self.res.stamp == self.req.stamp
        &&& self.res.opcode == self.req.opcode
        &&& self.req.opcode == OPCODE_GET || self.req.opcode == OPCODE_PUT
        &&& self.req.key_length as int <= self.req.payload@.len()
        &&& self.res.capacity <= 0xffff_ffffusize
        &&& self.state is Initialized || self.state is Completed
        &&& (self.state is Initialized ==> self.res.payload@.len() == 0 && self.res.status
            is StatusOk && self.res.value_length == 0)
    }

    /// The task's lifecycle state.
    pub closed spec fn spec_state(self) -> TaskState {
        self.state
    }

    /// The task's priority band.
    pub closed spec fn spec_priority(self) -> TaskPriority {
        self.priority
    }

    /// The wrapped request packet.
    pub closed spec fn spec_req(self) -> Request {
        self.req
    }

    /// The response packet under construction.
    pub closed spec fn spec_res(self) -> Response {
        self.res
    }

    /// The task's lifecycle state.
    pub fn state(&self) -> (r: TaskState)
        ensures
            r == self.spec_state(),
    {
        self.state
    }

    /// The task's priority band.
    pub fn priority(&self) -> (r: TaskPriority)
        ensures
            r == self.spec_priority(),
    {
        self.priority
    }

    /// Wraps a validated get() or put() request as a fresh task.
    pub fn new(priority: TaskPriority, req: Request, res: Response) -> (r: NativeTask)
        requires
            res.wf(),
            res.stamp == req.stamp,
            res.opcode == req.opcode,
            req.opcode == OPCODE_GET || req.opcode == OPCODE_PUT,
            req.key_length as int <= req.payload@.len(),
            res.capacity <= 0xffff_ffffusize,
            res.payload@.len() == 0,
            res.status is StatusOk,
            res.value_length == 0,
        ensures
            r.wf(),
            r.spec_state() is Initialized,
            r.spec_priority() == priority,
            r.spec_req() == req,
            r.spec_res() == res,
    {
        NativeTask { priority, state: TaskState::Initialized, req, res }
    }

    /// Performs the wrapped operation in one slice. A get() looks the
    /// key up and answers the value; a put() installs the key and value
    /// carried in the payload; either way the response status reports
    /// the first lookup that failed and the task completes.
    pub fn run(&mut self, master: &mut Master) -> (r: (TaskState, u64))
        requires
            old(self).wf(),
            old(master).wf(),
        ensures
            final(self).wf(),
            final(master).wf(),
            final(master).exts() == old(master).exts(),
            r.0 == final(self).spec_state(),
            final(self).spec_state() is Completed,
            final(self).spec_res().stamp == old(self).spec_req().stamp,
            final(self).spec_res().opcode == old(self).spec_req().opcode,
            final(self).spec_res().capacity == old(self).spec_res().capacity,
            final(self).spec_req() == old(self).spec_req(),
            final(self).spec_priority() == old(self).spec_priority(),
            old(self).spec_state() is Completed ==> *final(self) == *old(self) && final(master)@
                == old(master)@ && r == (TaskState::Completed, 0u64),
            old(self).spec_state() is Initialized ==> {
                let req = old(self).spec_req();
                let tenant = req.tenant as u64;
                let key = req.payload@.subrange(0, req.key_length as int);
                let cap = old(self).spec_res().capacity as nat;
                &&& final(self).spec_state() is Completed
                &&& r.1 == NATIVE_RUN_CYCLES
                &&& (req.opcode == OPCODE_GET ==> {
                    &&& final(master)@ == old(master)@
                    &&& final(self).spec_res().status == native_get_status(
                        old(master)@,
                        tenant,
                        req.table_id,
                        key,
                        cap,
                    )
                    &&& final(self).spec_res().payload@ == native_get_payload(
                        old(master)@,
                        tenant,
                        req.table_id,
                        key,
                        cap,
                    )
                    &&& final(self).spec_res().value_length == native_get_payload(
                        old(master)@,
                        tenant,
                        req.table_id,
                        key,
                        cap,
                    ).len()
                })
                &&& (req.opcode == OPCODE_PUT ==> {
                    let value = req.payload@.subrange(
                        req.key_length as int,
                        req.payload@.len() as int,
                    );
                    &&& final(self).spec_res().status == native_put_status(
                        old(master)@,
                        tenant,
                        req.table_id,
                        value,
                    )
                    &&& final(self).spec_res().payload@.len() == 0
                    &&& (native_put_status(old(master)@, tenant, req.table_id, value) is StatusOk
                        ==> final(master)@ == old(master)@.insert(
                        tenant,
                        old(master)@[tenant].insert(
                            req.table_id,
                            old(master)@[tenant][req.table_id].insert(key, value),
                        ),
                    ))
                    &&& (!(native_put_status(old(master)@, tenant, req.table_id, value)
                        is StatusOk) ==> final(master)@ == old(master)@)
                })
            },
    {
        if let TaskState::Completed = self.state {
            return (TaskState::Completed, 0);
        }
        let tenant_id = self.req.tenant as u64;
        let table_id = self.req.table_id;
        let key_length = self.req.key_length as usize;
        if self.req.opcode == OPCODE_GET {
            let mut status = RpcStatus::StatusTenantDoesNotExist;
            let mut value: Option<Vec<u8>> = None;
            match master.get_tenant(tenant_id) {
                Some(tenant) => {
                    status = RpcStatus::StatusTableDoesNotExist;
                    match tenant.get_table(table_id) {
                        Some(table) => {
                            status = RpcStatus::StatusObjectDoesNotExist;
                            let (key, _rest) = self.req.payload.as_slice().split_at(key_length);
                            match table.get(key) {
                                Some(object) => {
                                    status = RpcStatus::StatusInternalError;
                                    match master.heap().resolve(object) {
                                        Some((_k, v)) => {
                                            value = Some(clone_bytes(v));
                                        },
                                        None => {},
                                    }
                                },
                                None => {},
                            }
                        },
                        None => {},
                    }
                },
                None => {},
            }
            match value {
                Some(v) => {
                    if self.res.add_to_payload_tail(v.as_slice()) {
                        status = RpcStatus::StatusOk;
                        self.res.value_length = self.res.payload.len() as u32;
                    }
                },
                None => {},
            }
            self.res.status = status;
            self.state = TaskState::Completed;
            (TaskState::Completed, NATIVE_RUN_CYCLES)
        } else {
            let mut status = RpcStatus::StatusTenantDoesNotExist;
            let has_tenant: bool;
            let has_table: bool;
            match master.get_tenant(tenant_id) {
                Some(tenant) => {
                    has_tenant = true;
                    has_table = tenant.get_table(table_id).is_some();
                },
                None => {
                    has_tenant = false;
                    has_table = false;
                },
            }
            let (key, value) = self.req.payload.as_slice().split_at(key_length);
            if has_tenant {
                status = RpcStatus::StatusTableDoesNotExist;
                if has_table {
                    status = RpcStatus::StatusMalformedRequest;
                    if value.len() > 0 {
                        status = RpcStatus::StatusInternalError;
                        let allocated = master.heap().object(tenant_id, table_id, key, value);
                        if let Some((k, obj)) = allocated {
                            match master.tenant_table_put(tenant_id, table_id, k, obj) {
                                PutOutcome::Installed => {
                                    status = RpcStatus::StatusOk;
                                },
                                PutOutcome::NoTenant => {},
                                PutOutcome::NoTable => {},
                            }
                        }
                    }
                }
            }
            self.res.status = status;
            self.state = TaskState::Completed;
            (TaskState::Completed, NATIVE_RUN_CYCLES)
        }
    }

    /// Surrenders the request and the finished response for transmit.
    pub fn commit(self) -> (r: (Request, Response))
        requires
            self.wf(),
            self.spec_state() is Completed,
        ensures
            r.0 == self.spec_req(),
            r.1 == self.spec_res(),
            r.1.stamp == r.0.stamp,
            r.1.wf(),
    {
        let NativeTask { priority: _, state: _, req, res } = self;
        (req, res)
    }
}

} // verus!
