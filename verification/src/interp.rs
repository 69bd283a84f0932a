use vstd::prelude::*;
use crate::ext::ExtOpView;
use crate::util::u64_le_seq;
use crate::wireformat::RpcStatus;

verus! {

/// One read-set or write-set record: the key and the value the
/// extension observed or installed.
pub type RwRecord = (Seq<u8>, Seq<u8>);

/// Adding one byte to the running sum, wrapping at 64 bits.
pub open spec fn wrap_add_byte(acc: u64, b: u8) -> u64 {
    if acc + b > u64::MAX {
        (acc + b - 0x1_0000_0000_0000_0000) as u64
    } else {
        (acc + b) as u64
    }
}

/// The running sum after all bytes of `v`, wrapping at 64 bits.
pub open spec fn wrap_sum(acc: u64, v: Seq<u8>) -> u64
    decreases v.len(),
{
    if v.len() == 0 {
        acc
    } else {
        wrap_add_byte(wrap_sum(acc, v.drop_last()), v.last())
    }
}

/// The records a pair vector of owned byte vectors denotes.
pub open spec fn rw_view(s: Seq<(Vec<u8>, Vec<u8>)>) -> Seq<RwRecord> {
    s.map(|i: int, e: (Vec<u8>, Vec<u8>)| (e.0@, e.1@))
}

/// Adds every byte of a slice to the running sum, wrapping at 64 bits.
pub fn wrap_sum_exec(acc: u64, v: &[u8]) -> (r: u64)
    ensures
        r == wrap_sum(acc, v@),
{
    let n = v.len();
    let mut cur = acc;
    let mut i: usize = 0;
    proof {
        assert(v@.subrange(0, 0) =~= Seq::<u8>::empty());
    }
    while i < n
        invariant
            n == v@.len(),
            0 <= i <= n,
            cur == wrap_sum(acc, v@.subrange(0, i as int)),
        decreases n - i,
    {
        let b = v[i];
        proof {
            assert(v@.subrange(0, i + 1).drop_last() =~= v@.subrange(0, i as int));
            assert(v@.subrange(0, i + 1).last() == v@[i as int]);
        }
        cur = cur.wrapping_add(b as u64);
        i += 1;
    }
    proof {
        assert(v@.subrange(0, n as int) =~= v@);
    }
    cur
}

/// Abstract state of one extension invocation running on the server
/// against the issuing tenant's tables.
pub struct ServerRun {
    /// The tenant's tables as the run has left them so far.
    pub tables: Map<u64, Map<Seq<u8>, Seq<u8>>>,
    /// Response payload accumulated so far.
    pub resp: Seq<u8>,
    /// Keys and values read, in observation order.
    pub reads: Seq<RwRecord>,
    /// Keys and values written, in observation order.
    pub writes: Seq<RwRecord>,
    /// Running sum of all value bytes read, wrapping at 64 bits.
    pub sum: u64,
    /// Status the response will carry.
    pub status: RpcStatus,
    /// True once the run can take no further step.
    pub done: bool,
}

/// Abstract state of the same invocation replayed on the client against
/// a local replica keyed by key bytes alone, as the pushback records
/// carry no table identifier.
pub struct ClientRun {
    /// The local replica as the replay has left it so far.
    pub store: Map<Seq<u8>, Seq<u8>>,
    /// Response payload accumulated so far.
    pub resp: Seq<u8>,
    /// Keys and values read, in observation order.
    pub reads: Seq<RwRecord>,
    /// Keys and values written, in observation order.
    pub writes: Seq<RwRecord>,
    /// Running sum of all value bytes read, wrapping at 64 bits.
    pub sum: u64,
    /// Status the response will carry.
    pub status: RpcStatus,
    /// True once the replay can take no further step.
    pub done: bool,
}

/// The state a server-side run starts from.
pub open spec fn server_start(tables: Map<u64, Map<Seq<u8>, Seq<u8>>>) -> ServerRun {
    ServerRun {
        tables,
        resp: Seq::empty(),
        reads: Seq::empty(),
        writes: Seq::empty(),
        sum: 0,
        status: RpcStatus::StatusOk,
        done: false,
    }
}

/// The state a client-side replay starts from.
pub open spec fn client_start(store: Map<Seq<u8>, Seq<u8>>) -> ClientRun {
    ClientRun {
        store,
        resp: Seq::empty(),
        reads: Seq::empty(),
        writes: Seq::empty(),
        sum: 0,
        status: RpcStatus::StatusOk,
        done: false,
    }
}

/// Appending bytes to the server-side response; a payload the packet
/// cannot carry ends the run with an internal error.
pub open spec fn server_emit(st: ServerRun, data: Seq<u8>, cap: nat) -> ServerRun {
    if st.resp.len() + data.len() <= cap {
        ServerRun { resp: st.resp + data, ..st }
    } else {
        ServerRun { status: RpcStatus::StatusInternalError, done: true, ..st }
    }
}

/// Appending bytes to the client-side response; same overflow rule as on
/// the server.
pub open spec fn client_emit(st: ClientRun, data: Seq<u8>, cap: nat) -> ClientRun {
    if st.resp.len() + data.len() <= cap {
        ClientRun { resp: st.resp + data, ..st }
    } else {
        ClientRun { status: RpcStatus::StatusInternalError, done: true, ..st }
    }
}

/// One slice of the extension on the server. A read miss — of the key
/// or of the whole table, which the context does not distinguish — ends
/// the run; a write into an unknown table ends it; a response overflow
/// ends it; everything else advances it.
pub open spec fn server_step(st: ServerRun, op: ExtOpView, args: Seq<u8>, cap: nat) -> ServerRun {
    match op {
        ExtOpView::Get { table, key, emit } => {
            if st.tables.contains_key(table) && st.tables[table].contains_key(key) {
                let v = st.tables[table][key];
                let st1 = ServerRun {
                    reads: st.reads.push((key, v)),
                    sum: wrap_sum(st.sum, v),
                    ..st
                };
                if emit {
                    server_emit(st1, v, cap)
                } else {
                    st1
                }
            } else {
                ServerRun { status: RpcStatus::StatusObjectDoesNotExist, done: true, ..st }
            }
        },
        ExtOpView::Put { table, key, value } => {
            if st.tables.contains_key(table) {
                ServerRun {
                    tables: st.tables.insert(table, st.tables[table].insert(key, value)),
                    writes: st.writes.push((key, value)),
                    ..st
                }
            } else {
                ServerRun { status: RpcStatus::StatusTableDoesNotExist, done: true, ..st }
            }
        },
        ExtOpView::Emit { data } => server_emit(st, data, cap),
        ExtOpView::EmitArgs => server_emit(st, args, cap),
        ExtOpView::EmitSum => server_emit(st, u64_le_seq(st.sum), cap),
        ExtOpView::Work { .. } => st,
    }
}

/// One slice of the extension replayed on the client.
pub open spec fn client_step(st: ClientRun, op: ExtOpView, args: Seq<u8>, cap: nat) -> ClientRun {
    match op {
        ExtOpView::Get { table: _, key, emit } => {
            if st.store.contains_key(key) {
                let v = st.store[key];
                let st1 = ClientRun {
                    reads: st.reads.push((key, v)),
                    sum: wrap_sum(st.sum, v),
                    ..st
                };
                if emit {
                    client_emit(st1, v, cap)
                } else {
                    st1
                }
            } else {
                ClientRun { status: RpcStatus::StatusObjectDoesNotExist, done: true, ..st }
            }
        },
        ExtOpView::Put { table: _, key, value } => {
            ClientRun {
                store: st.store.insert(key, value),
                writes: st.writes.push((key, value)),
                ..st
            }
        },
        ExtOpView::Emit { data } => client_emit(st, data, cap),
        ExtOpView::EmitArgs => client_emit(st, args, cap),
        ExtOpView::EmitSum => client_emit(st, u64_le_seq(st.sum), cap),
        ExtOpView::Work { .. } => st,
    }
}

/// The server-side run from position `i` until the program ends or a
/// step ends it.
pub open spec fn server_run_from(
    prog: Seq<ExtOpView>,
    args: Seq<u8>,
    cap: nat,
    st: ServerRun,
    i: int,
) -> ServerRun
    decreases prog.len() - i,
{
    if i < 0 || i >= prog.len() || st.done {
        st
    } else {
        server_run_from(prog, args, cap, server_step(st, prog[i], args, cap), i + 1)
    }
}

/// A whole server-side run of a program against a tenant's tables.
pub open spec fn server_run(
    prog: Seq<ExtOpView>,
    args: Seq<u8>,
    cap: nat,
    tables: Map<u64, Map<Seq<u8>, Seq<u8>>>,
) -> ServerRun {
    server_run_from(prog, args, cap, server_start(tables), 0)
}

/// The client-side replay from position `i` until the program ends or a
/// step ends it.
pub open spec fn client_run_from(
    prog: Seq<ExtOpView>,
    args: Seq<u8>,
    cap: nat,
    st: ClientRun,
    i: int,
) -> ClientRun
    decreases prog.len() - i,
{
    if i < 0 || i >= prog.len() || st.done {
        st
    } else {
        client_run_from(prog, args, cap, client_step(st, prog[i], args, cap), i + 1)
    }
}

/// A whole client-side replay of a program against a local replica.
pub open spec fn client_run(
    prog: Seq<ExtOpView>,
    args: Seq<u8>,
    cap: nat,
    store: Map<Seq<u8>, Seq<u8>>,
) -> ClientRun {
    client_run_from(prog, args, cap, client_start(store), 0)
}

/// The local replica a client seeds from a read-set: the first record
/// of each key wins, because the first read of a key is the one that
/// observed the table before the extension itself touched the key.
pub open spec fn seed_store(reads: Seq<RwRecord>) -> Map<Seq<u8>, Seq<u8>>
    decreases reads.len(),
{
    if reads.len() == 0 {
        Map::empty()
    } else {
        let m = seed_store(reads.drop_last());
        if m.contains_key(reads.last().0) {
            m
        } else {
            m.insert(reads.last().0, reads.last().1)
        }
    }
}

} // verus!
