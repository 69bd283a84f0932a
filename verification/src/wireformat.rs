use vstd::prelude::*;

verus! {

/// RPC opcodes, as parsed off the common header.
pub enum OpCode {
    /// A native get() RPC.
    SandstormGetRpc,
    /// A native put() RPC.
    SandstormPutRpc,
    /// An invoke() RPC running a named extension.
    SandstormInvokeRpc,
    /// Any opcode this server does not understand.
    InvalidOperation,
}

#[derive(PartialEq, Eq, Structural, Clone, Copy, Debug)]
/// Status of an RPC, echoed to the client on the response.
pub enum RpcStatus {
    /// The RPC completed successfully.
    StatusOk,
    /// The request headers or payload were malformed.
    StatusMalformedRequest,
    /// The issuing tenant is unknown to the server.
    StatusTenantDoesNotExist,
    /// The tenant does not own a table with the requested identifier.
    StatusTableDoesNotExist,
    /// The table does not hold the requested key.
    StatusObjectDoesNotExist,
    /// The extension is not loaded for, or not authorized to, the tenant.
    StatusInvalidExtension,
    /// An allocation failed or a response payload overflowed.
    StatusInternalError,
    /// The task overran its budget; the response payload carries its
    /// serialized read/write-set so the client can resume it.
    StatusPushback,
}

/// The opcode byte naming a native get() on the wire.
pub const OPCODE_GET: u8 = 1;

/// The opcode byte naming a native put() on the wire.
pub const OPCODE_PUT: u8 = 2;

/// The opcode byte naming an invoke() on the wire.
pub const OPCODE_INVOKE: u8 = 3;

/// Parses the opcode byte of the common header.
pub fn parse_rpc_opcode(op: u8) -> (r: OpCode)
    ensures
        op == OPCODE_GET ==> r is SandstormGetRpc,
        op == OPCODE_PUT ==> r is SandstormPutRpc,
        op == OPCODE_INVOKE ==> r is SandstormInvokeRpc,
        op != OPCODE_GET && op != OPCODE_PUT && op != OPCODE_INVOKE ==> r is InvalidOperation,
{
    if op == OPCODE_GET {
        OpCode::SandstormGetRpc
    } else if op == OPCODE_PUT {
        OpCode::SandstormPutRpc
    } else if op == OPCODE_INVOKE {
        OpCode::SandstormInvokeRpc
    } else {
        OpCode::InvalidOperation
    }
}

/// A request packet as handed to the core by the I/O layer, with the
/// common header and the RPC-specific header already parsed off the
/// wire. Fields that the request's kind does not use are ignored.
pub struct Request {
    /// Opcode from the common header.
    pub opcode: u8,
    /// Issuing tenant, from the common header.
    pub tenant: u32,
    /// Client-chosen stamp; echoed on the response and used as the
    /// task's continuation key.
    pub stamp: u64,
    /// Table to operate on (get and put).
    pub table_id: u64,
    /// Length of the key at the head of the payload (get and put).
    pub key_length: u16,
    /// Length of the extension name at the head of the payload (invoke).
    pub name_length: u32,
    /// Length of the argument blob following the name (invoke).
    pub args_length: u32,
    /// The request payload.
    pub payload: Vec<u8>,
}

impl Request {
    /// Builds a native get() request.
    pub fn new_get(tenant: u32, stamp: u64, table_id: u64, key_length: u16, payload: Vec<u8>)
        -> (r: Request)
        ensures
            r.opcode == OPCODE_GET,
            r.tenant == tenant,
            r.stamp == stamp,
            r.table_id == table_id,
            r.key_length == key_length,
            r.payload@ == payload@,
    {
        Request {
            opcode: OPCODE_GET,
            tenant,
            stamp,
            table_id,
            key_length,
            name_length: 0,
            args_length: 0,
            payload,
        }
    }

    /// Builds a native put() request; the payload is the key followed by
    /// the value.
    pub fn new_put(tenant: u32, stamp: u64, table_id: u64, key_length: u16, payload: Vec<u8>)
        -> (r: Request)
        ensures
            r.opcode == OPCODE_PUT,
            r.tenant == tenant,
            r.stamp == stamp,
            r.table_id == table_id,
            r.key_length == key_length,
            r.payload@ == payload@,
    {
        Request {
            opcode: OPCODE_PUT,
            tenant,
            stamp,
            table_id,
            key_length,
            name_length: 0,
            args_length: 0,
            payload,
        }
    }

    /// Builds an invoke() request; the payload is the extension name
    /// followed by the argument blob.
    pub fn new_invoke(tenant: u32, stamp: u64, name_length: u32, args_length: u32, payload: Vec<u8>)
        -> (r: Request)
        ensures
            r.opcode == OPCODE_INVOKE,
            r.tenant == tenant,
            r.stamp == stamp,
            r.name_length == name_length,
            r.args_length == args_length,
            r.payload@ == payload@,
    {
        Request {
            opcode: OPCODE_INVOKE,
            tenant,
            stamp,
            table_id: 0,
            key_length: 0,
            name_length,
            args_length,
            payload,
        }
    }
}

/// A response packet under construction. The I/O layer pre-allocates the
/// packet, so the payload has a fixed capacity; appends beyond it fail.
pub struct Response {
    /// Opcode of the request this response answers.
    pub opcode: u8,
    /// Status of the RPC.
    pub status: RpcStatus,
    /// The request's stamp, echoed back.
    pub stamp: u64,
    /// Length of the returned value (get responses).
    pub value_length: u32,
    /// The response payload.
    pub payload: Vec<u8>,
    /// Bytes of payload the pre-allocated packet can carry.
    pub capacity: usize,
}

impl Response {
    /// Space in the payload still fits within the packet.
    pub open spec fn wf(self) -> bool {
        self.payload@.len() <= self.capacity
    }

    /// Builds an empty response for a request, echoing its opcode and
    /// stamp.
    pub fn new(opcode: u8, stamp: u64, capacity: usize) -> (r: Response)
        ensures
            r.opcode == opcode,
            r.status is StatusOk,
            r.stamp == stamp,
            r.value_length == 0,
            r.payload@ == Seq::<u8>::empty(),
            r.capacity == capacity,
            r.wf(),
    {
        Response {
            opcode,
            status: RpcStatus::StatusOk,
            stamp,
            value_length: 0,
            payload: Vec::new(),
            capacity,
        }
    }

    /// Appends bytes to the payload tail; fails, leaving the payload as
    /// it was, when the packet cannot carry them.
    pub fn add_to_payload_tail(&mut self, data: &[u8]) -> (r: bool)
        requires
            old(self).wf(),
        ensures
            final(self).wf(),
            final(self).opcode == old(self).opcode,
            final(self).status == old(self).status,
            final(self).stamp == old(self).stamp,
            final(self).value_length == old(self).value_length,
            final(self).capacity == old(self).capacity,
            r <==> old(self).payload@.len() + data@.len() <= old(self).capacity,
            r ==> final(self).payload@ == old(self).payload@ + data@,
            !r ==> final(self).payload@ == old(self).payload@,
    {
        if data.len() <= self.capacity - self.payload.len() {
            let n = data.len();
            proof {
                assert(self.payload@ =~= old(self).payload@ + data@.subrange(0, 0));
            }
            let mut i: usize = 0;
            while i < n
                invariant
                    n == data@.len(),
                    0 <= i <= n,
                    self.payload@ == old(self).payload@ + data@.subrange(0, i as int),
                    self.payload@.len() + n - i <= self.capacity,
                    self.opcode == old(self).opcode,
                    self.status == old(self).status,
                    self.stamp == old(self).stamp,
                    self.value_length == old(self).value_length,
                    self.capacity == old(self).capacity,
                decreases n - i,
            {
                self.payload.push(data[i]);
                proof {
                    assert(self.payload@ =~= old(self).payload@ + data@.subrange(0, i + 1));
                }
                i += 1;
            }
            proof {
                assert(data@.subrange(0, n as int) =~= data@);
            }
            true
        } else {
            false
        }
    }
}

} // verus!
