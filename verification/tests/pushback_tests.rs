use sandstorm::client::TaskManager;
use sandstorm::common::{RECORD_SIZE, RESPONSE_CAPACITY};
use sandstorm::ext::{ExtOp, LoadedExtension};
use sandstorm::master::Master;
use sandstorm::pushback::{decode_rwset, encode_rwset};
use sandstorm::sched::Scheduler;
use sandstorm::task::TaskState;
use sandstorm::tenant::Tenant;
use sandstorm::wireformat::{Request, RpcStatus};

#[test]
fn rwset_round_trips_through_the_wire() {
    let reads = vec![
        (vec![1u8; 30], vec![7u8; 40]),
        (vec![2u8; 30], vec![8u8; 40]),
    ];
    let writes = vec![(vec![3u8; 30], vec![9u8; 40])];
    let bytes = encode_rwset(&reads, &writes).unwrap();
    assert_eq!(bytes.len(), RECORD_SIZE * 3);
    assert_eq!(bytes[0], 1);
    assert_eq!(bytes[RECORD_SIZE * 2], 2);
    let (reads2, writes2) = decode_rwset(&bytes).unwrap();
    assert_eq!(reads2, reads);
    assert_eq!(writes2, writes);
}

#[test]
fn misshapen_records_do_not_encode() {
    let reads = vec![(vec![1u8; 29], vec![7u8; 40])];
    assert!(encode_rwset(&reads, &Vec::new()).is_none());
}

#[test]
fn torn_payloads_do_not_decode() {
    assert!(decode_rwset(&[0u8; 70]).is_none());
    let mut bad = vec![3u8];
    bad.extend_from_slice(&[0u8; 70]);
    assert!(decode_rwset(&bad).is_none());
    // A write-set record may not precede a read-set record.
    let writes_first = {
        let mut b = Vec::new();
        b.push(2u8);
        b.extend_from_slice(&[0u8; 70]);
        b.push(1u8);
        b.extend_from_slice(&[0u8; 70]);
        b
    };
    assert!(decode_rwset(&writes_first).is_none());
}

/// A master holding tenant 1 whose table 1 maps thirty ones to forty
/// nines, plus the echo and over-budget extensions.
fn invoke_master() -> Master {
    let mut master = Master::new();
    let mut tenant = Tenant::new(1);
    tenant.create_table(1);
    master.insert_tenant(tenant);
    assert!(master.ctx_put(1, 1, &[1u8; 30], &[9u8; 40]));
    assert!(master.load_extension(1, b"id", vec![ExtOp::EmitArgs]));
    assert!(master.load_extension(1, b"sum", sum_program()));
    master
}

/// The over-budget extension: read one value, spin far past the task
/// budget, then answer the running sum.
fn sum_program() -> Vec<ExtOp> {
    vec![
        ExtOp::Get { table: 1, key: vec![1u8; 30], emit: false },
        ExtOp::Work { cycles: 1_000_000 },
        ExtOp::EmitSum,
    ]
}

#[test]
fn invoke_within_budget_completes() {
    let master = invoke_master();
    let mut sched = Scheduler::new(master);
    let mut payload = b"id".to_vec();
    payload.extend_from_slice(&[0xDE, 0xAD]);
    let req = Request::new_invoke(1, 31, 2, 2, payload);
    let out = sched.tick(vec![req], 10_000);
    assert_eq!(out.len(), 1);
    assert!(matches!(out[0].status, RpcStatus::StatusOk));
    assert_eq!(out[0].stamp, 31);
    assert_eq!(out[0].payload, vec![0xDE, 0xAD]);
}

#[test]
fn invoke_beyond_budget_pushes_back() {
    let master = invoke_master();
    let mut sched = Scheduler::new(master);
    let req = Request::new_invoke(1, 32, 3, 0, b"sum".to_vec());
    let out = sched.tick(vec![req], 10_000_000);
    assert_eq!(out.len(), 1);
    assert!(matches!(out[0].status, RpcStatus::StatusPushback));
    assert_eq!(out[0].stamp, 32);
    // The serialized record count is the read-set plus the write-set.
    assert_eq!(out[0].payload.len(), RECORD_SIZE * 1);
    let (reads, writes) = decode_rwset(&out[0].payload).unwrap();
    assert_eq!(reads, vec![(vec![1u8; 30], vec![9u8; 40])]);
    assert!(writes.is_empty());
}

#[test]
fn client_replay_matches_a_finished_run() {
    let master = invoke_master();
    let mut sched = Scheduler::new(master);
    let req = Request::new_invoke(1, 33, 3, 0, b"sum".to_vec());
    let out = sched.tick(vec![req], 10_000_000);
    assert!(matches!(out[0].status, RpcStatus::StatusPushback));

    // The client resumes the task against a replica seeded from the
    // pushback's read-set.
    let mut manager = TaskManager::new(
        33,
        LoadedExtension::new(sum_program()),
        Vec::new(),
        RESPONSE_CAPACITY,
    );
    assert!(manager.update_rwset(&out[0].payload));
    let mut guard: u32 = 0;
    loop {
        let (state, _used) = manager.execute_task();
        match state {
            TaskState::Completed => break,
            TaskState::Waiting => panic!("the read-set covers every read of this program"),
            _ => {},
        }
        guard += 1;
        assert!(guard < 100);
    }
    assert!(matches!(manager.status(), RpcStatus::StatusOk));
    // Forty bytes of nine sum to 360, answered as eight little-endian
    // bytes: what an uninterrupted server run would have answered.
    assert_eq!(manager.response(), &vec![0x68, 0x01, 0, 0, 0, 0, 0, 0]);
}

#[test]
fn a_write_set_travels_and_replays() {
    // The extension writes a key, overruns, and later reads its own
    // write back; the pushback carries both sets and the replay's own
    // write feeds the read.
    fn writing_program() -> Vec<ExtOp> {
        vec![
            ExtOp::Get { table: 1, key: vec![1u8; 30], emit: false },
            ExtOp::Put { table: 1, key: vec![2u8; 30], value: vec![4u8; 40] },
            ExtOp::Work { cycles: 1_000_000 },
            ExtOp::Get { table: 1, key: vec![2u8; 30], emit: true },
        ]
    }
    let mut master = invoke_master();
    assert!(master.load_extension(1, b"wrt", writing_program()));
    let mut sched = Scheduler::new(master);
    let req = Request::new_invoke(1, 40, 3, 0, b"wrt".to_vec());
    let out = sched.tick(vec![req], 10_000_000);
    assert!(matches!(out[0].status, RpcStatus::StatusPushback));
    assert_eq!(out[0].payload.len(), RECORD_SIZE * 2);
    let (reads, writes) = decode_rwset(&out[0].payload).unwrap();
    assert_eq!(reads, vec![(vec![1u8; 30], vec![9u8; 40])]);
    assert_eq!(writes, vec![(vec![2u8; 30], vec![4u8; 40])]);

    let mut manager = TaskManager::new(40, LoadedExtension::new(writing_program()), Vec::new(),
        RESPONSE_CAPACITY);
    assert!(manager.update_rwset(&out[0].payload));
    let mut guard: u32 = 0;
    loop {
        let (state, _used) = manager.execute_task();
        match state {
            TaskState::Completed => break,
            TaskState::Waiting => panic!("every read is covered by the read-set or a write"),
            _ => {},
        }
        guard += 1;
        assert!(guard < 100);
    }
    assert!(matches!(manager.status(), RpcStatus::StatusOk));
    assert_eq!(manager.response(), &vec![4u8; 40]);
}

#[test]
fn replay_fetches_missing_keys_before_finishing() {
    // A replay whose program reads a key the pushback's records do not
    // carry parks waiting on a native get and resumes once the value
    // arrives.
    let program = vec![
        ExtOp::Get { table: 1, key: vec![5u8; 30], emit: true },
    ];
    let mut manager = TaskManager::new(34, LoadedExtension::new(program), Vec::new(), 64);
    assert!(manager.update_rwset(&[]));
    let (state, _) = manager.execute_task();
    assert!(matches!(state, TaskState::Waiting));
    let pending = manager.pending_request();
    let (table, key) = pending.expect("a waiting task names its fetch");
    assert_eq!(table, 1);
    assert_eq!(key, &vec![5u8; 30]);
    manager.deliver(Some(vec![0xAB, 0xCD]));
    let (state, _) = manager.execute_task();
    assert!(matches!(state, TaskState::Completed));
    assert_eq!(manager.response(), &vec![0xAB, 0xCD]);
}

#[test]
fn replay_of_a_missing_key_reports_the_miss() {
    let program = vec![
        ExtOp::Get { table: 1, key: vec![5u8; 30], emit: true },
    ];
    let mut manager = TaskManager::new(35, LoadedExtension::new(program), Vec::new(), 64);
    assert!(manager.update_rwset(&[]));
    let (state, _) = manager.execute_task();
    assert!(matches!(state, TaskState::Waiting));
    manager.deliver(None);
    assert!(matches!(manager.state(), TaskState::Completed));
    assert!(matches!(manager.status(), RpcStatus::StatusObjectDoesNotExist));
}
