use vstd::prelude::*;
use crate::ext::ExtOpView;
use crate::interp::{ClientRun, RwRecord, ServerRun, client_run, client_run_from, client_start,
    client_step, seed_store, server_run, server_run_from, server_start, server_step};

verus! {

/// A table map after a sequence of puts, applied oldest first.
pub open spec fn apply_puts(m: Map<Seq<u8>, Seq<u8>>, ps: Seq<RwRecord>) -> Map<Seq<u8>, Seq<u8>>
    decreases ps.len(),
{
    if ps.len() == 0 {
        m
    } else {
        apply_puts(m, ps.drop_last()).insert(ps.last().0, ps.last().1)
    }
}

/// What a get observes after a sequence of puts is the value of the
/// most recent put of its key: the last-write-wins law of a table.
/// `Table::put` ensures each put inserts into the table's denoted map
/// and `Table::get` ensures a get reads that map, so this speaks for
/// any interleaving of the two on one key.
pub proof fn lemma_most_recent_put(m: Map<Seq<u8>, Seq<u8>>, ps: Seq<RwRecord>, i: int)
    requires
        0 <= i < ps.len(),
        forall|j: int| i < j < ps.len() ==> (#[trigger] ps[j]).0 != ps[i].0,
    ensures
        apply_puts(m, ps).contains_key(ps[i].0),
        apply_puts(m, ps)[ps[i].0] == ps[i].1,
    decreases ps.len(),
{
    if i == ps.len() - 1 {
    } else {
        assert(ps.drop_last()[i] == ps[i]);
        lemma_most_recent_put(m, ps.drop_last(), i);
        assert(ps.last().0 != ps[i].0);
    }
}

/// The key an operation touches, when it touches the store at all.
pub open spec fn op_key(op: ExtOpView) -> Option<Seq<u8>> {
    match op {
        ExtOpView::Get { table: _, key, emit: _ } => Some(key),
        ExtOpView::Put { table: _, key, value: _ } => Some(key),
        _ => None,
    }
}

/// The table an operation touches; meaningful when `op_key` is some.
pub open spec fn op_table(op: ExtOpView) -> u64 {
    match op {
        ExtOpView::Get { table, key: _, emit: _ } => table,
        ExtOpView::Put { table, key: _, value: _ } => table,
        _ => 0,
    }
}

/// The operation reads key `x`.
pub open spec fn is_get_of(op: ExtOpView, x: Seq<u8>) -> bool {
    op matches ExtOpView::Get { table: _, key, emit: _ } && key == x
}

/// The operation writes key `x`.
pub open spec fn is_put_to(op: ExtOpView, x: Seq<u8>) -> bool {
    op matches ExtOpView::Put { table: _, key, value: _ } && key == x
}

/// No operation of `prog[lo..hi)` writes key `x`.
pub open spec fn no_put_to(prog: Seq<ExtOpView>, lo: int, hi: int, x: Seq<u8>) -> bool {
    forall|m: int| lo <= m < hi ==> !is_put_to(#[trigger] prog[m], x)
}

/// Key `x` is read externally: some read of it is not preceded by a
/// write of it, so the value observed came from the store the run began
/// with.
pub open spec fn external_read(prog: Seq<ExtOpView>, x: Seq<u8>) -> bool {
    exists|j: int| 0 <= j < prog.len() && is_get_of(#[trigger] prog[j], x) && no_put_to(
        prog,
        0,
        j,
        x,
    )
}

/// Every table the program names exists among the tenant's tables.
pub open spec fn tables_exist(prog: Seq<ExtOpView>, tables: Map<u64, Map<Seq<u8>, Seq<u8>>>) -> bool {
    forall|j: int| 0 <= j < prog.len() && op_key(#[trigger] prog[j]) is Some
        ==> tables.contains_key(op_table(prog[j]))
}

/// Each key is used with a single table throughout the program; the
/// wire records of a pushback carry no table identifier, so a replay
/// could not tell two tables apart on the same key.
pub open spec fn key_consistent(prog: Seq<ExtOpView>) -> bool {
    forall|j1: int, j2: int|
        0 <= j1 < prog.len() && 0 <= j2 < prog.len() && op_key(#[trigger] prog[j1]) is Some
            && op_key(#[trigger] prog[j2]) is Some && op_key(prog[j1]) == op_key(prog[j2])
            ==> op_table(prog[j1]) == op_table(prog[j2])
}

/// What a read of key `x` in table `t` observes on the server; the
/// context collapses a missing table and a missing key into one miss.
pub open spec fn server_lookup(
    tables: Map<u64, Map<Seq<u8>, Seq<u8>>>,
    t: u64,
    x: Seq<u8>,
) -> Option<Seq<u8>> {
    if tables.contains_key(t) && tables[t].contains_key(x) {
        Some(tables[t][x])
    } else {
        None
    }
}

/// What a read of key `x` observes on the client's replica.
pub open spec fn client_lookup(store: Map<Seq<u8>, Seq<u8>>, x: Seq<u8>) -> Option<Seq<u8>> {
    if store.contains_key(x) {
        Some(store[x])
    } else {
        None
    }
}

/// The read at position `j` observes the same value on both sides,
/// unless an intervening write (from position `i` on) feeds it anyway.
pub open spec fn agree_at(
    prog: Seq<ExtOpView>,
    i: int,
    j: int,
    tables: Map<u64, Map<Seq<u8>, Seq<u8>>>,
    store: Map<Seq<u8>, Seq<u8>>,
) -> bool {
    match prog[j] {
        ExtOpView::Get { table, key, emit: _ } => no_put_to(prog, i, j, key) ==> client_lookup(
            store,
            key,
        ) == server_lookup(tables, table, key),
        _ => true,
    }
}

/// Both sides agree on every read the rest of the program performs.
pub open spec fn agree_from(
    prog: Seq<ExtOpView>,
    i: int,
    tables: Map<u64, Map<Seq<u8>, Seq<u8>>>,
    store: Map<Seq<u8>, Seq<u8>>,
) -> bool {
    forall|j: int| i <= j < prog.len() ==> #[trigger] agree_at(prog, i, j, tables, store)
}

/// The two runs produced the same observable outcome: response bytes,
/// read- and write-set, running sum, status, and completion.
pub open spec fn same_outcome(s: ServerRun, c: ClientRun) -> bool {
    &&& s.resp == c.resp
    &&& s.reads == c.reads
    &&& s.writes == c.writes
    &&& s.sum == c.sum
    &&& s.status == c.status
    &&& s.done == c.done
}

/// A server-side run and a client-side replay that start in matching
/// states, against stores that agree on every read the rest of the
/// program performs, end in matching states: the interpreter is
/// deterministic in what the extension can observe.
proof fn lemma_agree_run(
    prog: Seq<ExtOpView>,
    args: Seq<u8>,
    cap: nat,
    s: ServerRun,
    c: ClientRun,
    i: int,
)
    requires
        0 <= i <= prog.len(),
        same_outcome(s, c),
        key_consistent(prog),
        forall|j: int| i <= j < prog.len() && op_key(#[trigger] prog[j]) is Some
            ==> s.tables.contains_key(op_table(prog[j])),
        agree_from(prog, i, s.tables, c.store),
    ensures
        same_outcome(
            server_run_from(prog, args, cap, s, i),
            client_run_from(prog, args, cap, c, i),
        ),
    decreases prog.len() - i,
{
    if i >= prog.len() || s.done {
        return;
    }
    let op = prog[i];
    let s1 = server_step(s, op, args, cap);
    let c1 = client_step(c, op, args, cap);
    assert(agree_at(prog, i, i, s.tables, c.store));
    match op {
        ExtOpView::Put { table, key, value } => {
            assert(op_key(prog[i]) is Some);
            assert(s.tables.contains_key(table));
            assert(same_outcome(s1, c1));
            assert forall|j: int| i + 1 <= j < prog.len() && op_key(#[trigger] prog[j]) is Some
                implies s1.tables.contains_key(op_table(prog[j])) by {
                assert(s.tables.contains_key(op_table(prog[j])));
            }
            assert forall|j: int| i + 1 <= j < prog.len() implies #[trigger] agree_at(
                prog,
                i + 1,
                j,
                s1.tables,
                c1.store,
            ) by {
                match prog[j] {
                    ExtOpView::Get { table: t2, key: k2, emit: _ } => {
                        if no_put_to(prog, i + 1, j, k2) {
                            if k2 == key {
                                assert(op_key(prog[i]) == Some::<Seq<u8>>(key));
                                assert(op_key(prog[j]) == Some::<Seq<u8>>(k2));
                                assert(t2 == table);
                                assert(client_lookup(c1.store, k2) == Some(value));
                                assert(server_lookup(s1.tables, t2, k2) == Some(value));
                            } else {
                                assert(!is_put_to(prog[i], k2));
                                assert(no_put_to(prog, i, j, k2));
                                assert(agree_at(prog, i, j, s.tables, c.store));
                                assert(server_lookup(s1.tables, t2, k2) == server_lookup(
                                    s.tables,
                                    t2,
                                    k2,
                                ));
                                assert(client_lookup(c1.store, k2) == client_lookup(c.store, k2));
                            }
                        }
                    },
                    _ => {},
                }
            }
            lemma_agree_run(prog, args, cap, s1, c1, i + 1);
        },
        ExtOpView::Get { table, key, emit: _ } => {
            assert(no_put_to(prog, i, i, key));
            assert(client_lookup(c.store, key) == server_lookup(s.tables, table, key));
            assert(same_outcome(s1, c1));
            assert(s1.tables == s.tables);
            assert(c1.store == c.store);
            assert forall|j: int| i + 1 <= j < prog.len() implies #[trigger] agree_at(
                prog,
                i + 1,
                j,
                s1.tables,
                c1.store,
            ) by {
                match prog[j] {
                    ExtOpView::Get { table: t2, key: k2, emit: _ } => {
                        if no_put_to(prog, i + 1, j, k2) {
                            assert(!is_put_to(prog[i], k2));
                            assert(no_put_to(prog, i, j, k2));
                            assert(agree_at(prog, i, j, s.tables, c.store));
                        }
                    },
                    _ => {},
                }
            }
            lemma_agree_run(prog, args, cap, s1, c1, i + 1);
        },
        _ => {
            assert(same_outcome(s1, c1));
            assert(s1.tables == s.tables);
            assert(c1.store == c.store);
            assert forall|j: int| i + 1 <= j < prog.len() implies #[trigger] agree_at(
                prog,
                i + 1,
                j,
                s1.tables,
                c1.store,
            ) by {
                match prog[j] {
                    ExtOpView::Get { table: t2, key: k2, emit: _ } => {
                        if no_put_to(prog, i + 1, j, k2) {
                            assert(!is_put_to(prog[i], k2));
                            assert(no_put_to(prog, i, j, k2));
                            assert(agree_at(prog, i, j, s.tables, c.store));
                        }
                    },
                    _ => {},
                }
            }
            lemma_agree_run(prog, args, cap, s1, c1, i + 1);
        },
    }
}

/// Pushing one record onto a read-set leaves the seeded replica as it
/// was when the key was already seeded, and seeds it otherwise: the
/// first record of a key wins.
proof fn lemma_seed_push(r: Seq<RwRecord>, e: RwRecord)
    ensures
        seed_store(r.push(e)) == (if seed_store(r).contains_key(e.0) {
            seed_store(r)
        } else {
            seed_store(r).insert(e.0, e.1)
        }),
{
    assert(r.push(e).drop_last() =~= r);
    assert(r.push(e).last() == e);
}

/// Some operation of `prog[0..i)` writes key `x`.
pub open spec fn put_before(prog: Seq<ExtOpView>, i: int, x: Seq<u8>) -> bool {
    !no_put_to(prog, 0, i, x)
}

/// What holds of the run's state after the first `i` operations, seen
/// against the tables `t0` the run began with.
spec fn prefix_inv(
    prog: Seq<ExtOpView>,
    i: int,
    t0: Map<u64, Map<Seq<u8>, Seq<u8>>>,
    st: ServerRun,
) -> bool {
    // Tables come and go only at administration time; a run only fills
    // them.
    &&& st.tables.dom() == t0.dom()
    // A key not yet written still reads as it did at the start.
    &&& (forall|x: Seq<u8>, t: u64| !put_before(prog, i, x) ==> #[trigger] server_lookup(
        st.tables,
        t,
        x,
    ) == server_lookup(t0, t, x))
    // While the run lives, every read it has passed left its key in the
    // seeded replica.
    &&& (!st.done ==> forall|j: int| 0 <= j < i ==> match #[trigger] prog[j] {
        ExtOpView::Get { table: _, key, emit: _ } => seed_store(st.reads).contains_key(key),
        _ => true,
    })
    // A seeded externally-read key carries the value the starting
    // tables held for it, under whichever table the program files it.
    &&& (forall|x: Seq<u8>, j: int|
        #![trigger seed_store(st.reads).contains_key(x), op_key(prog[j])]
        seed_store(st.reads).contains_key(x) && external_read(prog, x) && 0 <= j < prog.len()
            && op_key(prog[j]) == Some(x) ==> Some(seed_store(st.reads)[x]) == server_lookup(
            t0,
            op_table(prog[j]),
            x,
        ))
}

/// Running the first `i` operations maintains the prefix invariants.
proof fn lemma_prefix_inv(
    prog: Seq<ExtOpView>,
    args: Seq<u8>,
    cap: nat,
    t0: Map<u64, Map<Seq<u8>, Seq<u8>>>,
    i: int,
)
    requires
        0 <= i <= prog.len(),
        tables_exist(prog, t0),
        key_consistent(prog),
    ensures
        prefix_inv(prog, i, t0, server_run(prog.take(i), args, cap, t0)),
    decreases i,
{
    if i == 0 {
        assert(prog.take(0) =~= Seq::<ExtOpView>::empty());
        let st = server_run(prog.take(0), args, cap, t0);
        assert(st == server_start(t0));
        assert(seed_store(st.reads) =~= Map::<Seq<u8>, Seq<u8>>::empty());
        return;
    }
    lemma_prefix_inv(prog, args, cap, t0, i - 1);
    let p_prev = prog.take(i - 1);
    let st = server_run(p_prev, args, cap, t0);
    let op = prog[i - 1];
    assert(prog.take(i) =~= p_prev.push(op));
    lemma_server_snoc(p_prev, op, args, cap, server_start(t0), 0);
    let st1 = server_run(prog.take(i), args, cap, t0);
    if st.done {
        assert(st1 == st);
        assert forall|x: Seq<u8>, t: u64| !put_before(prog, i, x) implies #[trigger] server_lookup(
            st1.tables,
            t,
            x,
        ) == server_lookup(t0, t, x) by {
            assert(no_put_to(prog, 0, i - 1, x));
            assert(!put_before(prog, i - 1, x));
        }
        return;
    }
    assert(st1 == server_step(st, op, args, cap));
    match op {
        ExtOpView::Get { table, key, emit: _ } => {
            if st.tables.contains_key(table) && st.tables[table].contains_key(key) {
                let v = st.tables[table][key];
                assert(st1.tables == st.tables);
                assert(st1.reads == st.reads.push((key, v)));
                lemma_seed_push(st.reads, (key, v));
                let seed0 = seed_store(st.reads);
                let seed1 = seed_store(st1.reads);
                // The key not yet written reads its starting value.
                assert forall|x: Seq<u8>, t: u64| !put_before(prog, i, x) implies
                    #[trigger] server_lookup(st1.tables, t, x) == server_lookup(t0, t, x) by {
                    assert(no_put_to(prog, 0, i - 1, x));
                    assert(!put_before(prog, i - 1, x));
                }
                // Reads passed so far all seeded their keys.
                if !st1.done {
                    assert forall|j: int| 0 <= j < i implies match #[trigger] prog[j] {
                        ExtOpView::Get { table: _, key: k2, emit: _ } => seed_store(
                            st1.reads,
                        ).contains_key(k2),
                        _ => true,
                    } by {
                        if j < i - 1 {
                            match prog[j] {
                                ExtOpView::Get { table: _, key: k2, emit: _ } => {
                                    assert(seed0.contains_key(k2));
                                },
                                _ => {},
                            }
                        }
                    }
                }
                // Seeded externally-read keys carry starting values.
                assert forall|x: Seq<u8>, j: int|
                    #![trigger seed_store(st1.reads).contains_key(x), op_key(prog[j])]
                    seed_store(st1.reads).contains_key(x) && external_read(prog, x) && 0 <= j
                        < prog.len() && op_key(prog[j]) == Some::<Seq<u8>>(x) implies Some(
                    seed_store(st1.reads)[x],
                ) == server_lookup(t0, op_table(prog[j]), x) by {
                    if seed0.contains_key(x) {
                        assert(seed1[x] == seed0[x]);
                        assert(Some(seed0[x]) == server_lookup(t0, op_table(prog[j]), x));
                    } else if x == key {
                        // This read is the key's first access: no read
                        // of it came earlier, so no write of it
                        // precedes its externally-reading position.
                        assert(seed1[x] == v);
                        let w = choose|w: int|
                            0 <= w < prog.len() && is_get_of(#[trigger] prog[w], x) && no_put_to(
                                prog,
                                0,
                                w,
                                x,
                            );
                        assert forall|m: int| 0 <= m < i - 1 implies !is_put_to(
                            #[trigger] prog[m],
                            x,
                        ) by {
                            if is_put_to(prog[m], x) {
                                // A write of x before this first read
                                // forces the witness read after it,
                                // yet some read of x precedes i - 1
                                // only if its key were seeded.
                                assert(w > m);
                                if w < i - 1 {
                                    match prog[w] {
                                        ExtOpView::Get { table: _, key: k2, emit: _ } => {
                                            assert(k2 == x);
                                            assert(seed0.contains_key(x));
                                        },
                                        _ => {},
                                    }
                                }
                                assert(w >= i - 1);
                                assert(!is_put_to(prog[m], x));
                            }
                        }
                        assert(!put_before(prog, i - 1, x));
                        assert(server_lookup(st.tables, table, x) == server_lookup(t0, table, x));
                        assert(op_key(prog[i - 1]) == Some::<Seq<u8>>(x));
                        assert(op_table(prog[j]) == table);
                    } else {
                        assert(seed0.contains_key(x));
                    }
                }
            } else {
                // The read missed; the run is over and the state is
                // unchanged but for status and completion.
                assert(st1.reads == st.reads);
                assert(st1.tables == st.tables);
                assert forall|x: Seq<u8>, t: u64| !put_before(prog, i, x) implies
                    #[trigger] server_lookup(st1.tables, t, x) == server_lookup(t0, t, x) by {
                    assert(no_put_to(prog, 0, i - 1, x));
                    assert(!put_before(prog, i - 1, x));
                }
            }
        },
        ExtOpView::Put { table, key, value } => {
            assert(op_key(prog[i - 1]) is Some);
            assert(t0.contains_key(table));
            assert(st.tables.contains_key(table));
            assert(st1.tables.dom() =~= t0.dom());
            assert(st1.reads == st.reads);
            assert forall|x: Seq<u8>, t: u64| !put_before(prog, i, x) implies
                #[trigger] server_lookup(st1.tables, t, x) == server_lookup(t0, t, x) by {
                assert(!is_put_to(prog[i - 1], x));
                assert(x != key);
                assert(no_put_to(prog, 0, i - 1, x));
                assert(!put_before(prog, i - 1, x));
                assert(server_lookup(st1.tables, t, x) == server_lookup(st.tables, t, x));
            }
        },
        _ => {
            assert(st1.reads == st.reads);
            assert(st1.tables == st.tables);
            assert forall|x: Seq<u8>, t: u64| !put_before(prog, i, x) implies
                #[trigger] server_lookup(st1.tables, t, x) == server_lookup(t0, t, x) by {
                assert(no_put_to(prog, 0, i - 1, x));
                assert(!put_before(prog, i - 1, x));
            }
        },
    }
}

/// Running a program extended by one operation runs the program and
/// then, if it is still live, the extra operation.
proof fn lemma_server_snoc(
    p: Seq<ExtOpView>,
    op: ExtOpView,
    args: Seq<u8>,
    cap: nat,
    st: ServerRun,
    j: int,
)
    requires
        0 <= j <= p.len(),
    ensures
        server_run_from(p.push(op), args, cap, st, j) == ({
            let f = server_run_from(p, args, cap, st, j);
            if f.done {
                f
            } else {
                server_step(f, op, args, cap)
            }
        }),
    decreases p.len() - j,
{
    if st.done {
        assert(server_run_from(p.push(op), args, cap, st, j) == st);
        assert(server_run_from(p, args, cap, st, j) == st);
    } else if j == p.len() {
        assert(p.push(op)[j] == op);
        let st1 = server_step(st, op, args, cap);
        assert(server_run_from(p.push(op), args, cap, st, j) == server_run_from(
            p.push(op),
            args,
            cap,
            st1,
            j + 1,
        ));
        assert(server_run_from(p.push(op), args, cap, st1, j + 1) == st1);
    } else {
        assert(p.push(op)[j] == p[j]);
        lemma_server_snoc(p, op, args, cap, server_step(st, p[j], args, cap), j + 1);
    }
}

/// Replaying a pushed-back extension on the client yields the outcome
/// of an uninterrupted server run.
///
/// The server ran the first `k` operations and pushed the task back;
/// the client seeds a fresh replica from the pushback's read-set and
/// replays the whole program against it. Provided every table the
/// program names exists, each key keeps to one table, and every
/// externally-read key was already read before the cut — so the
/// read-set covers everything the replay must observe — the replay
/// produces the same response, status, read- and write-set, and sum as
/// letting the server finish would have.
pub proof fn lemma_pushback_replay(
    prog: Seq<ExtOpView>,
    args: Seq<u8>,
    cap: nat,
    tables: Map<u64, Map<Seq<u8>, Seq<u8>>>,
    k: int,
)
    requires
        0 <= k <= prog.len(),
        tables_exist(prog, tables),
        key_consistent(prog),
        forall|x: Seq<u8>| #[trigger] external_read(prog, x) ==> seed_store(
            server_run(prog.take(k), args, cap, tables).reads,
        ).contains_key(x),
    ensures
        same_outcome(
            server_run(prog, args, cap, tables),
            client_run(
                prog,
                args,
                cap,
                seed_store(server_run(prog.take(k), args, cap, tables).reads),
            ),
        ),
{
    let seed = seed_store(server_run(prog.take(k), args, cap, tables).reads);
    lemma_prefix_inv(prog, args, cap, tables, k);
    let stk = server_run(prog.take(k), args, cap, tables);
    assert forall|j: int| 0 <= j < prog.len() implies #[trigger] agree_at(
        prog,
        0,
        j,
        tables,
        seed,
    ) by {
        match prog[j] {
            ExtOpView::Get { table, key, emit: _ } => {
                if no_put_to(prog, 0, j, key) {
                    assert(is_get_of(prog[j], key));
                    assert(external_read(prog, key));
                    assert(seed.contains_key(key));
                    assert(op_key(prog[j]) == Some::<Seq<u8>>(key));
                    assert(Some(seed_store(stk.reads)[key]) == server_lookup(
                        tables,
                        op_table(prog[j]),
                        key,
                    ));
                    assert(client_lookup(seed, key) == Some(seed[key]));
                }
            },
            _ => {},
        }
    }
    lemma_agree_run(prog, args, cap, server_start(tables), client_start(seed), 0);
}

} // verus!
