use vstd::prelude::*;
use crate::heap::WriteBuf;
use crate::master::{Master, tables_of};
use crate::wireformat::{Request, Response};

verus! {

/// The per-invocation environment handed to an extension: a view of
/// its arguments inside the request payload, the response under
/// construction, and data access on behalf of the issuing tenant. The
/// context is the sole capability an extension holds; it never sees
/// tables, tenants, or the allocator directly.
pub struct Context {
    /// The invoke() request packet, kept for its argument bytes.
    request: Request,
    /// Offset of the argument blob inside the request payload.
    args_offset: usize,
    /// Length of the argument blob.
    args_length: usize,
    /// The response packet under construction.
    response: Response,
    /// The issuing tenant, whose tables the context reads and writes.
    tenant: u64,
}

impl Context {
    /// The argument window lies inside the payload and the response is
    /// well formed.
    pub closed spec fn wf(self) -> bool {
        &&& self.args_offset + self.args_length <= self.request.payload@.len()
        &&& self.response.wf()
    }

    /// The argument bytes.
    pub closed spec fn spec_args(self) -> Seq<u8> {
        self.request.payload@.subrange(
            self.args_offset as int,
            self.args_offset + self.args_length,
        )
    }

    /// The response payload written so far.
    pub closed spec fn spec_resp(self) -> Seq<u8> {
        self.response.payload@
    }

    /// The issuing tenant.
    pub closed spec fn spec_tenant(self) -> u64 {
        self.tenant
    }

    /// The wrapped request packet.
    pub closed spec fn spec_req(self) -> Request {
        self.request
    }

    /// The response packet under construction.
    pub closed spec fn spec_res(self) -> Response {
        self.response
    }

    /// Builds the context for one invocation: the request, the window
    /// of its payload holding the extension's arguments, the
    /// pre-allocated response, and the issuing tenant.
    pub fn new(req: Request, args_off: usize, args_len: usize, res: Response, tenant: u64) -> (r:
        Context)
        requires
            args_off + args_len <= req.payload@.len(),
            res.wf(),
        ensures
            r.wf(),
            r.spec_req() == req,
            r.spec_res() == res,
            r.spec_tenant() == tenant,
            r.spec_args() == req.payload@.subrange(args_off as int, args_off + args_len),
            r.spec_resp() == res.payload@,
    {
        Context { request: req, args_offset: args_off, args_length: args_len, response: res, tenant }
    }

    /// A zero-copy view of the extension's arguments.
    pub fn args(&self) -> (r: &[u8])
        requires
            self.wf(),
        ensures
            r@ == self.spec_args(),
    {
        let (_head, rest) = self.request.payload.as_slice().split_at(self.args_offset);
        let (args, _tail) = rest.split_at(self.args_length);
        proof {
            assert(args@ =~= self.spec_args());
        }
        args
    }

    /// Appends bytes to the response payload; fails, changing nothing,
    /// when the packet cannot carry them — the error is the extension's
    /// to see.
    pub fn resp(&mut self, data: &[u8]) -> (r: bool)
        requires
            old(self).wf(),
        ensures
            final(self).wf(),
            final(self).spec_req() == old(self).spec_req(),
            final(self).spec_args() == old(self).spec_args(),
            final(self).spec_tenant() == old(self).spec_tenant(),
            r <==> old(self).spec_resp().len() + data@.len() <= old(self).spec_res().capacity,
            r ==> final(self).spec_resp() == old(self).spec_resp() + data@,
            !r ==> final(self).spec_resp() == old(self).spec_resp(),
    {
        self.response.add_to_payload_tail(data)
    }

    /// Reads a key of one of the issuing tenant's tables, exactly as
    /// the native get would; a missing tenant, table, or key all read
    /// as a miss.
    pub fn get(&self, master: &Master, table_id: u64, key: &[u8]) -> (r: Option<Vec<u8>>)
        requires
            master.wf(),
        ensures
            match r {
                Some(v) => {
                    &&& tables_of(master@, self.spec_tenant()).contains_key(table_id)
                    &&& tables_of(master@, self.spec_tenant())[table_id].contains_key(key@)
                    &&& v@ == tables_of(master@, self.spec_tenant())[table_id][key@]
                },
                None => !(tables_of(master@, self.spec_tenant()).contains_key(table_id)
                    && tables_of(master@, self.spec_tenant())[table_id].contains_key(key@)),
            },
    {
        master.ctx_get(self.tenant, table_id, key)
    }

    /// Allocates an uninitialized value region for a key of one of the
    /// tenant's tables; fails when the tenant owns no such table.
    pub fn allocate(&self, master: &Master, table_id: u64, key: &[u8], val_len: usize) -> (r: Option<
        WriteBuf,
    >)
        requires
            master.wf(),
        ensures
            match r {
                Some(b) => {
                    &&& tables_of(master@, self.spec_tenant()).contains_key(table_id)
                    &&& b.spec_table() == table_id
                    &&& b.spec_key() == key@
                    &&& b.spec_data() == Seq::<u8>::new(val_len as nat, |i: int| 0u8)
                },
                None => !tables_of(master@, self.spec_tenant()).contains_key(table_id),
            },
    {
        let tenant = match master.get_tenant(self.tenant) {
            Some(t) => t,
            None => {
                return None;
            },
        };
        if tenant.get_table(table_id).is_none() {
            return None;
        }
        master.heap().raw(self.tenant, table_id, key, val_len)
    }

    /// Freezes a filled buffer and installs it in the table it was
    /// allocated for; fails, changing nothing, when the table is
    /// unknown.
    pub fn put(&self, master: &mut Master, buf: WriteBuf) -> (r: bool)
        requires
            old(master).wf(),
        ensures
            final(master).wf(),
            final(master).exts() == old(master).exts(),
            r <==> tables_of(old(master)@, self.spec_tenant()).contains_key(buf.spec_table()),
            r ==> final(master)@ == old(master)@.insert(
                self.spec_tenant(),
                old(master)@[self.spec_tenant()].insert(
                    buf.spec_table(),
                    old(master)@[self.spec_tenant()][buf.spec_table()].insert(
                        buf.spec_key(),
                        buf.spec_data(),
                    ),
                ),
            ),
            !r ==> final(master)@ == old(master)@,
    {
        let (table_id, obj) = master.heap().freeze(buf);
        let key = match master.heap().resolve(&obj) {
            Some((k, _v)) => crate::ext::clone_bytes(k),
            None => {
                proof {
                    assert(false);
                }
                Vec::new()
            },
        };
        match master.tenant_table_put(self.tenant, table_id, key, obj) {
            crate::master::PutOutcome::Installed => true,
            crate::master::PutOutcome::NoTenant => false,
            crate::master::PutOutcome::NoTable => false,
        }
    }

    /// Disabled diagnostic channel; a no-op in release builds.
    pub fn debug_log(&self, _msg: &str) {
    }

    /// Consumes the context and surrenders the wrapped packets, ready
    /// for transmit; after this the context is gone for good.
    pub fn commit(self) -> (r: (Request, Response))
        ensures
            r.0 == self.spec_req(),
            r.1 == self.spec_res(),
    {
        let Context { request, response, .. } = self;
        (request, response)
    }
}

} // verus!
