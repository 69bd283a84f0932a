use vstd::prelude::*;
use crate::ext::{ExtOp, ExtOpView, LoadedExtension, clone_bytes, op_cost};
use crate::interp::{ClientRun, client_step, rw_view, seed_store, wrap_sum_exec};
use crate::pushback::{decode_rwset, parse_pushback};
use crate::task::TaskState;
use crate::util::{append_bytes, bytes_eq, u64_to_le};
use crate::wireformat::RpcStatus;

verus! {

/// True when some entry of `s` carries the key `k`.
pub open spec fn kv_has(s: Seq<(Vec<u8>, Vec<u8>)>, k: Seq<u8>) -> bool {
    exists|i: int| 0 <= i < s.len() && #[trigger] s[i].0@ == k
}

/// The index of the entry carrying `k`; meaningful only when the keys
/// of `s` are distinct and `k` is present.
pub open spec fn kv_index(s: Seq<(Vec<u8>, Vec<u8>)>, k: Seq<u8>) -> int {
    choose|i: int| 0 <= i < s.len() && #[trigger] s[i].0@ == k
}

/// No two entries carry the same key.
pub open spec fn kv_distinct(s: Seq<(Vec<u8>, Vec<u8>)>) -> bool {
    forall|i: int, j: int| 0 <= i < j < s.len() ==> #[trigger] s[i].0@ != #[trigger] s[j].0@
}

/// The key-to-value map a sequence of entries denotes.
pub open spec fn kv_view(s: Seq<(Vec<u8>, Vec<u8>)>) -> Map<Seq<u8>, Seq<u8>> {
    Map::new(|k: Seq<u8>| kv_has(s, k), |k: Seq<u8>| s[kv_index(s, k)].1@)
}

/// An entry known to sit at index `i` determines the denoted map at its
/// key.
proof fn lemma_kv_at(s: Seq<(Vec<u8>, Vec<u8>)>, i: int)
    requires
        kv_distinct(s),
        0 <= i < s.len(),
    ensures
        kv_view(s).contains_key(s[i].0@),
        kv_view(s)[s[i].0@] == s[i].1@,
{
    assert(kv_has(s, s[i].0@));
    let j = kv_index(s, s[i].0@);
    if i != j {
        assert(s[i].0@ != s[j].0@);
    }
}

/// Replacing the value at `i` updates the denoted map at that entry's
/// key and nowhere else.
proof fn lemma_kv_update(s: Seq<(Vec<u8>, Vec<u8>)>, i: int, e: (Vec<u8>, Vec<u8>))
    requires
        kv_distinct(s),
        0 <= i < s.len(),
        e.0@ == s[i].0@,
    ensures
        kv_distinct(s.update(i, e)),
        kv_view(s.update(i, e)) == kv_view(s).insert(s[i].0@, e.1@),
{
    let t = s.update(i, e);
    assert forall|a: int, b: int| 0 <= a < b < t.len() implies #[trigger] t[a].0@
        != #[trigger] t[b].0@ by {
        assert(t[a].0@ == s[a].0@);
        assert(t[b].0@ == s[b].0@);
    }
    assert forall|k: Seq<u8>| true implies kv_has(t, k) == kv_has(s, k) by {
        if kv_has(t, k) {
            let a = choose|a: int| 0 <= a < t.len() && #[trigger] t[a].0@ == k;
            assert(s[a].0@ == k);
        }
        if kv_has(s, k) {
            let a = choose|a: int| 0 <= a < s.len() && #[trigger] s[a].0@ == k;
            assert(t[a].0@ == k);
        }
    }
    assert forall|k: Seq<u8>| kv_has(t, k) implies kv_view(t)[k] == kv_view(s).insert(
        s[i].0@,
        e.1@,
    )[k] by {
        let a = kv_index(t, k);
        assert(0 <= a < t.len() && t[a].0@ == k);
        if k == s[i].0@ {
            if a != i {
                assert(t[a].0@ == s[a].0@ && t[i].0@ == s[i].0@);
                assert(s[a].0@ != s[i].0@);
            }
            assert(a == i);
            assert(kv_view(t)[k] == e.1@);
        } else {
            assert(a != i);
            assert(t[a] == s[a]);
            lemma_kv_at(s, a);
            assert(kv_view(t)[k] == s[a].1@);
        }
    }
    assert(kv_view(t) =~= kv_view(s).insert(s[i].0@, e.1@));
}

/// Appending an entry with a fresh key extends the denoted map by that
/// entry.
proof fn lemma_kv_push(s: Seq<(Vec<u8>, Vec<u8>)>, e: (Vec<u8>, Vec<u8>))
    requires
        kv_distinct(s),
        !kv_has(s, e.0@),
    ensures
        kv_distinct(s.push(e)),
        kv_view(s.push(e)) == kv_view(s).insert(e.0@, e.1@),
{
    let t = s.push(e);
    assert forall|a: int, b: int| 0 <= a < b < t.len() implies #[trigger] t[a].0@
        != #[trigger] t[b].0@ by {
        if b < s.len() {
            assert(t[a] == s[a] && t[b] == s[b]);
        } else {
            assert(t[a] == s[a] && t[b] == e);
            assert(s[a].0@ != e.0@) by {
                if s[a].0@ == e.0@ {
                    assert(kv_has(s, e.0@));
                }
            }
        }
    }
    assert forall|k: Seq<u8>| true implies kv_has(t, k) == (kv_has(s, k) || k == e.0@) by {
        if kv_has(t, k) {
            let a = choose|a: int| 0 <= a < t.len() && #[trigger] t[a].0@ == k;
            if a < s.len() {
                assert(s[a].0@ == k);
            }
        }
        if kv_has(s, k) {
            let a = choose|a: int| 0 <= a < s.len() && #[trigger] s[a].0@ == k;
            assert(t[a].0@ == k);
        }
        if k == e.0@ {
            assert(t[s.len() as int].0@ == k);
        }
    }
    assert forall|k: Seq<u8>| kv_has(t, k) implies kv_view(t)[k] == kv_view(s).insert(
        e.0@,
        e.1@,
    )[k] by {
        let a = kv_index(t, k);
        assert(0 <= a < t.len() && t[a].0@ == k);
        if k == e.0@ {
            if a < s.len() {
                assert(kv_has(s, e.0@));
            }
            assert(a == s.len());
            assert(kv_view(t)[k] == e.1@);
        } else {
            assert(a < s.len());
            assert(t[a] == s[a]);
            lemma_kv_at(s, a);
            assert(kv_view(t)[k] == s[a].1@);
        }
    }
    assert(kv_view(t) =~= kv_view(s).insert(e.0@, e.1@));
}

/// The client's local replica of the data service: one flat map from
/// key bytes to value bytes, as the pushback records carry no table
/// identifier.
pub struct LocalStore {
    entries: Vec<(Vec<u8>, Vec<u8>)>,
}

impl View for LocalStore {
    type V = Map<Seq<u8>, Seq<u8>>;

    closed spec fn view(&self) -> Map<Seq<u8>, Seq<u8>> {
        kv_view(self.entries@)
    }
}

impl LocalStore {
    /// The keys of the entries are distinct.
    pub closed spec fn wf(self) -> bool {
        kv_distinct(self.entries@)
    }

    /// Creates an empty replica.
    pub fn new() -> (r: LocalStore)
        ensures
            r.wf(),
            r@ == Map::<Seq<u8>, Seq<u8>>::empty(),
    {
        let r = LocalStore { entries: Vec::new() };
        proof {
            assert(r@ =~= Map::<Seq<u8>, Seq<u8>>::empty());
        }
        r
    }

    /// Looks a key up.
    pub fn get(&self, key: &[u8]) -> (r: Option<&Vec<u8>>)
        requires
            self.wf(),
        ensures
            match r {
                Some(v) => self@.contains_key(key@) && v@ == self@[key@],
                None => !self@.contains_key(key@),
            },
    {
        let n = self.entries.len();
        let mut i: usize = 0;
        while i < n
            invariant
                self.wf(),
                n == self.entries@.len(),
                0 <= i <= n,
                forall|j: int| 0 <= j < i ==> #[trigger] self.entries@[j].0@ != key@,
            decreases n - i,
        {
            if bytes_eq(self.entries[i].0.as_slice(), key) {
                proof {
                    lemma_kv_at(self.entries@, i as int);
                }
                return Some(&self.entries[i].1);
            }
            i += 1;
        }
        proof {
            assert(!kv_has(self.entries@, key@));
        }
        None
    }

    /// Installs a value under a key, replacing any value already there.
    pub fn put(&mut self, key: Vec<u8>, value: Vec<u8>)
        requires
            old(self).wf(),
        ensures
            final(self).wf(),
            final(self)@ == old(self)@.insert(key@, value@),
    {
        let ghost s0 = self.entries@;
        let n = self.entries.len();
        let mut i: usize = 0;
        while i < n
            invariant
                *self == *old(self),
                old(self).wf(),
                s0 == self.entries@,
                n == s0.len(),
                0 <= i <= n,
                forall|j: int| 0 <= j < i ==> #[trigger] s0[j].0@ != key@,
            decreases n - i,
        {
            if bytes_eq(self.entries[i].0.as_slice(), key.as_slice()) {
                self.entries[i].1 = value;
                proof {
                    lemma_kv_update(s0, i as int, self.entries@[i as int]);
                    assert(self.entries@ =~= s0.update(i as int, self.entries@[i as int]));
                }
                return;
            }
            i += 1;
        }
        self.entries.push((key, value));
        proof {
            lemma_kv_push(s0, self.entries@[s0.len() as int]);
        }
    }

    /// Installs a value only when the key is absent; seeding from a
    /// read-set keeps the first record of each key this way.
    pub fn put_if_absent(&mut self, key: Vec<u8>, value: Vec<u8>)
        requires
            old(self).wf(),
        ensures
            final(self).wf(),
            final(self)@ == (if old(self)@.contains_key(key@) {
                old(self)@
            } else {
                old(self)@.insert(key@, value@)
            }),
    {
        let present = match self.get(key.as_slice()) {
            Some(_) => true,
            None => false,
        };
        if !present {
            self.put(key, value);
        }
    }
}

/// The client half of a pushed-back invocation: the state needed to
/// resume the extension locally against a replica seeded from the
/// pushback's read-set. Server and client share the task definition;
/// only the schedulers differ, and only here can a task wait — on a
/// native get it issued for a key the replica lacks.
pub struct TaskManager {
    /// The original request's stamp: the continuation key.
    id: u64,
    /// The extension being resumed.
    program: LoadedExtension,
    /// Operations already consumed locally.
    pc: usize,
    /// The invocation's argument blob.
    args: Vec<u8>,
    /// The local replica.
    store: LocalStore,
    /// Response payload accumulated so far.
    resp: Vec<u8>,
    /// Payload bytes the response may carry.
    capacity: usize,
    /// Keys and values read, in observation order.
    reads: Vec<(Vec<u8>, Vec<u8>)>,
    /// Keys and values written, in observation order.
    writes: Vec<(Vec<u8>, Vec<u8>)>,
    /// Running sum of all value bytes read, wrapping at 64 bits.
    sum: u64,
    /// Status the final response will carry.
    status: RpcStatus,
    /// Lifecycle state; `Waiting` while a native get is in flight.
    state: TaskState,
    /// The table and key of the native get in flight, if any.
    pending: Option<(u64, Vec<u8>)>,
}

impl TaskManager {
    /// The program counter stays within the program, the replica is
    /// well formed, and the task waits exactly when a fetch is pending.
    pub closed spec fn wf(self) -> bool {
        &&& self.store.wf()
        &&& self.pc <= self.program@.len()
        &&& self.resp@.len() <= self.capacity
        &&& (self.state is Initialized || self.state is Yielded || self.state is Waiting
            || self.state is Completed)
        &&& (self.state is Initialized ==> self.pc == 0)
        &&& (self.pending is Some <==> self.state is Waiting)
        &&& (self.state is Waiting ==> self.pc < self.program@.len())
    }

    /// The continuation key: the original request's stamp.
    pub closed spec fn spec_id(self) -> u64 {
        self.id
    }

    /// The task's lifecycle state.
    pub closed spec fn spec_state(self) -> TaskState {
        self.state
    }

    /// The extension program being resumed.
    pub closed spec fn spec_prog(self) -> Seq<ExtOpView> {
        self.program@
    }

    /// Operations already consumed.
    pub closed spec fn spec_pc(self) -> int {
        self.pc as int
    }

    /// The invocation's argument blob.
    pub closed spec fn spec_args(self) -> Seq<u8> {
        self.args@
    }

    /// Payload bytes the response may carry.
    pub closed spec fn spec_cap(self) -> nat {
        self.capacity as nat
    }

    /// The local replica's contents.
    pub closed spec fn spec_store(self) -> Map<Seq<u8>, Seq<u8>> {
        self.store@
    }

    /// The response payload accumulated so far.
    pub closed spec fn spec_resp(self) -> Seq<u8> {
        self.resp@
    }

    /// The status the final response will carry.
    pub closed spec fn spec_status(self) -> RpcStatus {
        self.status
    }

    /// The read-set accumulated so far, in observation order.
    pub closed spec fn spec_reads(self) -> Seq<(Seq<u8>, Seq<u8>)> {
        rw_view(self.reads@)
    }

    /// The write-set accumulated so far, in observation order.
    pub closed spec fn spec_writes(self) -> Seq<(Seq<u8>, Seq<u8>)> {
        rw_view(self.writes@)
    }

    /// Running sum of all value bytes read, wrapping at 64 bits.
    pub closed spec fn spec_sum(self) -> u64 {
        self.sum
    }

    /// The table and key of the native get in flight, if any.
    pub closed spec fn spec_pending(self) -> Option<(u64, Seq<u8>)> {
        match self.pending {
            Some(p) => Some((p.0, p.1@)),
            None => None,
        }
    }

    /// The abstract state of this replay, as the interpreter sees it.
    pub open spec fn abs(self) -> ClientRun {
        ClientRun {
            store: self.spec_store(),
            resp: self.spec_resp(),
            reads: self.spec_reads(),
            writes: self.spec_writes(),
            sum: self.spec_sum(),
            status: self.spec_status(),
            done: self.spec_state() is Completed,
        }
    }

    /// Builds the client half of an invocation, before any response has
    /// come back: the extension, its arguments, and an empty replica.
    pub fn new(id: u64, program: LoadedExtension, args: Vec<u8>, capacity: usize) -> (r:
        TaskManager)
        ensures
            r.wf(),
            r.spec_id() == id,
            r.spec_state() is Initialized,
            r.spec_prog() == program@,
            r.spec_pc() == 0,
            r.spec_args() == args@,
            r.spec_cap() == capacity,
            r.spec_store() == Map::<Seq<u8>, Seq<u8>>::empty(),
            r.abs() == crate::interp::client_start(Map::<Seq<u8>, Seq<u8>>::empty()),
    {
        let r = TaskManager {
            id,
            program,
            pc: 0,
            args,
            store: LocalStore::new(),
            resp: Vec::new(),
            capacity,
            reads: Vec::new(),
            writes: Vec::new(),
            sum: 0,
            status: RpcStatus::StatusOk,
            state: TaskState::Initialized,
            pending: None,
        };
        proof {
            assert(rw_view(r.reads@) =~= Seq::<(Seq<u8>, Seq<u8>)>::empty());
            assert(rw_view(r.writes@) =~= Seq::<(Seq<u8>, Seq<u8>)>::empty());
            assert(r.resp@ =~= Seq::<u8>::empty());
        }
        r
    }

    /// The continuation key.
    pub fn get_id(&self) -> (r: u64)
        ensures
            r == self.spec_id(),
    {
        self.id
    }

    /// The task's lifecycle state.
    pub fn state(&self) -> (r: TaskState)
        ensures
            r == self.spec_state(),
    {
        self.state
    }

    /// The status the finished response carries.
    pub fn status(&self) -> (r: RpcStatus)
        ensures
            r == self.abs().status,
    {
        self.status
    }

    /// The response payload accumulated so far.
    pub fn response(&self) -> (r: &Vec<u8>)
        ensures
            r@ == self.abs().resp,
    {
        &self.resp
    }

    /// The native get the task is blocked on, if any: the table and key
    /// the client must fetch from the server.
    pub fn pending_request(&self) -> (r: Option<(u64, &Vec<u8>)>)
        ensures
            match r {
                Some(p) => self.spec_pending() == Some((p.0, p.1@)),
                None => self.spec_pending() is None,
            },
    {
        match &self.pending {
            Some(p) => Some((p.0, &p.1)),
            None => None,
        }
    }

    /// Restores the task's view of the data from a pushback response's
    /// payload: the read-set seeds the replica, first record of a key
    /// winning, since the first read observed the table before the
    /// extension touched the key. Fails, changing nothing, when the
    /// payload is not a well-formed continuation.
    pub fn update_rwset(&mut self, records: &[u8]) -> (r: bool)
        requires
            old(self).wf(),
            old(self).spec_state() is Initialized,
            old(self).abs() == crate::interp::client_start(Map::<Seq<u8>, Seq<u8>>::empty()),
        ensures
            final(self).wf(),
            r <==> parse_pushback(records@) is Some,
            r ==> {
                &&& final(self).spec_store() == seed_store(parse_pushback(records@).unwrap().0)
                &&& final(self).abs() == crate::interp::client_start(final(self).spec_store())
                &&& final(self).spec_state() is Yielded
            },
            !r ==> *final(self) == *old(self),
            final(self).spec_id() == old(self).spec_id(),
            final(self).spec_prog() == old(self).spec_prog(),
            final(self).spec_args() == old(self).spec_args(),
            final(self).spec_cap() == old(self).spec_cap(),
            final(self).spec_pc() == 0,
    {
        let decoded = match decode_rwset(records) {
            Some(sets) => sets,
            None => {
                return false;
            },
        };
        let (reads, _writes) = decoded;
        let ghost parsed = parse_pushback(records@).unwrap().0;
        proof {
            assert(rw_view(reads@) == parsed);
        }
        let n = reads.len();
        let mut i: usize = 0;
        proof {
            assert(parsed.take(0) =~= Seq::<(Seq<u8>, Seq<u8>)>::empty());
            assert(self.store@ =~= seed_store(parsed.take(0)));
        }
        while i < n
            invariant
                self.store.wf(),
                n == reads@.len(),
                0 <= i <= n,
                rw_view(reads@) == parsed,
                self.store@ == seed_store(parsed.take(i as int)),
                *self == (TaskManager { store: self.store, ..*old(self) }),
            decreases n - i,
        {
            let key = clone_bytes(&reads[i].0);
            let value = clone_bytes(&reads[i].1);
            proof {
                let t = parsed.take(i as int + 1);
                assert(t.drop_last() =~= parsed.take(i as int));
                assert(t.last() == parsed[i as int]);
                assert(parsed[i as int] == rw_view(reads@)[i as int]);
                assert(parsed[i as int] == (key@, value@));
            }
            self.store.put_if_absent(key, value);
            i += 1;
        }
        proof {
            assert(parsed.take(n as int) =~= parsed);
        }
        self.state = TaskState::Yielded;
        proof {
            assert(rw_view(self.reads@) =~= Seq::<(Seq<u8>, Seq<u8>)>::empty());
            assert(rw_view(self.writes@) =~= Seq::<(Seq<u8>, Seq<u8>)>::empty());
            assert(self.resp@ =~= Seq::<u8>::empty());
        }
        true
    }

    /// Runs one operation of the extension against the replica. A read
    /// the replica can answer, and every other operation, advances the
    /// abstract state by exactly one interpreter step; a read it cannot
    /// answer parks the task waiting on a native get of that key, to be
    /// answered by `deliver`, and changes nothing else.
    pub fn execute_task(&mut self) -> (r: (TaskState, u64))
        requires
            old(self).wf(),
            !(old(self).spec_state() is Waiting),
        ensures
            final(self).wf(),
            r.0 == final(self).spec_state(),
            final(self).spec_id() == old(self).spec_id(),
            final(self).spec_prog() == old(self).spec_prog(),
            final(self).spec_args() == old(self).spec_args(),
            final(self).spec_cap() == old(self).spec_cap(),
            old(self).spec_state() is Completed ==> *final(self) == *old(self) && r == (
                TaskState::Completed,
                0u64,
            ),
            !(old(self).spec_state() is Completed) && old(self).spec_pc() == old(
                self,
            ).spec_prog().len() ==> {
                &&& final(self).spec_state() is Completed
                &&& r.1 == 0
                &&& final(self).abs() == ClientRun { done: true, ..old(self).abs() }
            },
            !(old(self).spec_state() is Completed) && old(self).spec_pc() < old(
                self,
            ).spec_prog().len() ==> {
                let op = old(self).spec_prog()[old(self).spec_pc()];
                let st1 = client_step(old(self).abs(), op, old(self).spec_args(), old(self).spec_cap());
                &&& (final(self).spec_state() is Waiting ==> {
                    &&& op matches ExtOpView::Get { table, key, emit: _ } && !old(
                        self,
                    ).spec_store().contains_key(key) && final(self).spec_pending() == Some(
                        (table, key),
                    )
                    &&& final(self).spec_pc() == old(self).spec_pc()
                    &&& final(self).abs() == old(self).abs()
                })
                &&& (!(final(self).spec_state() is Waiting) ==> {
                    &&& final(self).spec_pc() == old(self).spec_pc() + 1
                    &&& final(self).abs() == ClientRun {
                        done: final(self).spec_state() is Completed,
                        ..st1
                    }
                    &&& final(self).spec_state() == (if st1.done || old(self).spec_pc() + 1 == old(
                        self,
                    ).spec_prog().len() {
                        TaskState::Completed
                    } else {
                        TaskState::Yielded
                    })
                    &&& r.1 == op_cost(op)
                })
            },
    {
        if let TaskState::Completed = self.state {
            return (TaskState::Completed, 0);
        }
        let len = self.program.len();
        if self.pc == len {
            self.state = TaskState::Completed;
            return (TaskState::Completed, 0);
        }
        let cost = self.program.op_at(self.pc).cost();
        let op = self.program.op_at(self.pc).duplicate();
        let mut ended = false;
        match op {
            ExtOp::Get { table, key, emit } => {
                let value = match self.store.get(key.as_slice()) {
                    Some(v) => clone_bytes(v),
                    None => {
                        self.pending = Some((table, key));
                        self.state = TaskState::Waiting;
                        return (TaskState::Waiting, 0);
                    },
                };
                let ghost reads0 = rw_view(self.reads@);
                self.reads.push((clone_bytes(&key), clone_bytes(&value)));
                proof {
                    assert(rw_view(self.reads@) =~= reads0.push((key@, value@)));
                }
                self.sum = wrap_sum_exec(self.sum, value.as_slice());
                if emit {
                    if self.capacity - self.resp.len() >= value.len() {
                        append_bytes(&mut self.resp, value.as_slice());
                    } else {
                        self.status = RpcStatus::StatusInternalError;
                        ended = true;
                    }
                }
            },
            ExtOp::Put { table: _, key, value } => {
                let ghost writes0 = rw_view(self.writes@);
                self.store.put(clone_bytes(&key), clone_bytes(&value));
                self.writes.push((key, value));
                proof {
                    assert(rw_view(self.writes@) =~= writes0.push(
                        (self.writes@.last().0@, self.writes@.last().1@),
                    ));
                }
            },
            ExtOp::Emit { data } => {
                if self.capacity - self.resp.len() >= data.len() {
                    append_bytes(&mut self.resp, data.as_slice());
                } else {
                    self.status = RpcStatus::StatusInternalError;
                    ended = true;
                }
            },
            ExtOp::EmitArgs => {
                let data = clone_bytes(&self.args);
                if self.capacity - self.resp.len() >= data.len() {
                    append_bytes(&mut self.resp, data.as_slice());
                } else {
                    self.status = RpcStatus::StatusInternalError;
                    ended = true;
                }
            },
            ExtOp::EmitSum => {
                let data = u64_to_le(self.sum);
                if self.capacity - self.resp.len() >= data.len() {
                    append_bytes(&mut self.resp, data.as_slice());
                } else {
                    self.status = RpcStatus::StatusInternalError;
                    ended = true;
                }
            },
            ExtOp::Work { cycles: _ } => {},
        }
        self.pc = self.pc + 1;
        if ended || self.pc == len {
            self.state = TaskState::Completed;
        } else {
            self.state = TaskState::Yielded;
        }
        (self.state, cost)
    }

    /// Wakes a waiting task with the server's answer to its native get:
    /// the value installs into the replica and the task becomes
    /// runnable, or the server reports the key missing and the task
    /// completes with that status, exactly as the read would have ended
    /// the run.
    pub fn deliver(&mut self, value: Option<Vec<u8>>)
        requires
            old(self).wf(),
            old(self).spec_state() is Waiting,
        ensures
            final(self).wf(),
            final(self).spec_id() == old(self).spec_id(),
            final(self).spec_prog() == old(self).spec_prog(),
            final(self).spec_args() == old(self).spec_args(),
            final(self).spec_cap() == old(self).spec_cap(),
            final(self).spec_pc() == old(self).spec_pc(),
            final(self).spec_pending() is None,
            match value {
                Some(v) => {
                    &&& final(self).spec_state() is Yielded
                    &&& final(self).abs() == ClientRun {
                        store: old(self).abs().store.insert(
                            old(self).spec_pending().unwrap().1,
                            v@,
                        ),
                        ..old(self).abs()
                    }
                },
                None => {
                    &&& final(self).spec_state() is Completed
                    &&& final(self).abs() == ClientRun {
                        status: RpcStatus::StatusObjectDoesNotExist,
                        done: true,
                        ..old(self).abs()
                    }
                },
            },
    {
        let pending = self.pending.take();
        match (pending, value) {
            (Some((_table, key)), Some(v)) => {
                self.store.put(key, v);
                self.state = TaskState::Yielded;
            },
            (Some(_), None) => {
                self.status = RpcStatus::StatusObjectDoesNotExist;
                self.state = TaskState::Completed;
            },
            (None, _) => {
                proof {
                    assert(false);
                }
            },
        }
    }
}

} // verus!
