use sandstorm::common::RESPONSE_CAPACITY;
use sandstorm::ext::ExtOp;
use sandstorm::master::Master;
use sandstorm::sched::Scheduler;
use sandstorm::tenant::Tenant;
use sandstorm::wireformat::{OpCode, Request, Response, RpcStatus, OPCODE_GET, OPCODE_INVOKE};

/// A master holding tenant 1 with table 1, and the key of thirty ones
/// mapped to [0x5B, 0x64].
fn seeded_master() -> Master {
    let mut master = Master::new();
    let mut tenant = Tenant::new(1);
    tenant.create_table(1);
    master.insert_tenant(tenant);
    assert!(master.ctx_put(1, 1, &[1u8; 30], &[0x5B, 0x64]));
    master
}

#[test]
fn native_get_key_present() {
    let master = seeded_master();
    let mut sched = Scheduler::new(master);
    let req = Request::new_get(1, 99, 1, 30, vec![1u8; 30]);
    let out = sched.tick(vec![req], 1_000);
    assert_eq!(out.len(), 1);
    assert_eq!(out[0].opcode, OPCODE_GET);
    assert!(matches!(out[0].status, RpcStatus::StatusOk));
    assert_eq!(out[0].stamp, 99);
    assert_eq!(out[0].value_length, 2);
    assert_eq!(out[0].payload, vec![0x5B, 0x64]);
}

#[test]
fn native_get_key_absent() {
    let master = seeded_master();
    let mut sched = Scheduler::new(master);
    let req = Request::new_get(1, 100, 1, 30, vec![2u8; 30]);
    let out = sched.tick(vec![req], 1_000);
    assert_eq!(out.len(), 1);
    assert!(matches!(out[0].status, RpcStatus::StatusObjectDoesNotExist));
    assert_eq!(out[0].stamp, 100);
    assert!(out[0].payload.is_empty());
}

#[test]
fn native_put_then_get() {
    let master = seeded_master();
    let mut sched = Scheduler::new(master);
    let put = Request::new_put(1, 7, 1, 4, vec![7, 0, 0, 0, 0xAA, 0xBB]);
    let out = sched.tick(vec![put], 1_000);
    assert_eq!(out.len(), 1);
    assert!(matches!(out[0].status, RpcStatus::StatusOk));
    assert_eq!(out[0].stamp, 7);

    let get = Request::new_get(1, 8, 1, 4, vec![7, 0, 0, 0]);
    let out = sched.tick(vec![get], 1_000);
    assert_eq!(out.len(), 1);
    assert!(matches!(out[0].status, RpcStatus::StatusOk));
    assert_eq!(out[0].payload, vec![0xAA, 0xBB]);
}

#[test]
fn a_get_observes_the_most_recent_put() {
    let master = seeded_master();
    let mut sched = Scheduler::new(master);
    let first = Request::new_put(1, 60, 1, 4, vec![5, 5, 5, 5, 0x01]);
    let second = Request::new_put(1, 61, 1, 4, vec![5, 5, 5, 5, 0x02, 0x03]);
    let out = sched.tick(vec![first, second], 1_000);
    assert_eq!(out.len(), 2);
    assert!(matches!(out[0].status, RpcStatus::StatusOk));
    assert!(matches!(out[1].status, RpcStatus::StatusOk));
    let get = Request::new_get(1, 62, 1, 4, vec![5, 5, 5, 5]);
    let out = sched.tick(vec![get], 1_000);
    assert_eq!(out[0].payload, vec![0x02, 0x03]);
}

#[test]
fn short_payload_is_malformed() {
    let master = seeded_master();
    let mut sched = Scheduler::new(master);
    let req = Request::new_get(1, 11, 1, 30, vec![1u8; 10]);
    let out = sched.tick(vec![req], 1_000);
    assert_eq!(out.len(), 1);
    assert!(matches!(out[0].status, RpcStatus::StatusMalformedRequest));
    assert_eq!(out[0].stamp, 11);
}

#[test]
fn unknown_tenant_is_rejected() {
    let master = seeded_master();
    let mut sched = Scheduler::new(master);
    let req = Request::new_get(9, 12, 1, 4, vec![1, 2, 3, 4]);
    let out = sched.tick(vec![req], 1_000);
    assert_eq!(out.len(), 1);
    assert!(matches!(out[0].status, RpcStatus::StatusTenantDoesNotExist));
}

#[test]
fn unknown_table_is_rejected() {
    let master = seeded_master();
    let mut sched = Scheduler::new(master);
    let req = Request::new_get(1, 13, 7, 4, vec![1, 2, 3, 4]);
    let out = sched.tick(vec![req], 1_000);
    assert_eq!(out.len(), 1);
    assert!(matches!(out[0].status, RpcStatus::StatusTableDoesNotExist));
}

#[test]
fn unknown_opcode_is_malformed_without_a_task() {
    let master = seeded_master();
    let req = Request::new_get(1, 14, 1, 4, vec![1, 2, 3, 4]);
    let req = Request { opcode: 77, ..req };
    let res = Response::new(77, 14, RESPONSE_CAPACITY);
    match master.dispatch(OpCode::InvalidOperation, req, res) {
        Ok(_) => panic!("an unknown opcode must not create a task"),
        Err((_rq, rs)) => {
            assert!(matches!(rs.status, RpcStatus::StatusMalformedRequest));
            assert_eq!(rs.stamp, 14);
        },
    }
}

#[test]
fn unauthorized_extension_is_rejected() {
    let master = seeded_master();
    let mut sched = Scheduler::new(master);
    let mut payload = b"nope".to_vec();
    payload.extend_from_slice(&[1, 2]);
    let req = Request::new_invoke(1, 15, 4, 2, payload);
    let out = sched.tick(vec![req], 1_000);
    assert_eq!(out.len(), 1);
    assert!(matches!(out[0].status, RpcStatus::StatusInvalidExtension));
}

#[test]
fn response_overflow_is_an_internal_error() {
    let mut master = seeded_master();
    assert!(master.load_extension(1, b"big", vec![ExtOp::Emit { data: vec![0u8; 100] }]));
    let req = Request::new_invoke(1, 16, 3, 0, b"big".to_vec());
    // A pre-allocated response that cannot carry the extension's
    // output.
    let res = Response::new(OPCODE_INVOKE, 16, 10);
    let mut task = master.invoke(req, res).ok().unwrap();
    let (state, _used) = task.run(&mut master);
    assert!(matches!(state, sandstorm::task::TaskState::Completed));
    let (_rq, rs) = task.commit();
    assert!(matches!(rs.status, RpcStatus::StatusInternalError));
    assert_eq!(rs.stamp, 16);
}

#[test]
fn fill_test_installs_numbered_objects() {
    let mut master = Master::new();
    master.fill_test(4, 2, 3);
    let mut key = vec![0u8; 30];
    key[0] = 2;
    let value = master.ctx_get(4, 2, &key).unwrap();
    assert_eq!(value.len(), 100);
    assert_eq!(value[0], 2);
    assert!(value[4..].iter().all(|b| *b == 0));
    assert!(master.ctx_get(4, 2, &[9u8; 30]).is_none());
}

#[test]
fn shared_extensions_answer_for_other_tenants() {
    let mut master = Master::new();
    master.fill_test(2, 1, 1);
    master.load_test_shared(3);
    // Tenant 2 received the shared tao() extension, which echoes its
    // arguments.
    let mut payload = b"tao".to_vec();
    payload.extend_from_slice(&[0xCA, 0xFE]);
    let req = Request::new_invoke(2, 21, 3, 2, payload);
    let mut sched = Scheduler::new(master);
    let out = sched.tick(vec![req], 1_000);
    assert_eq!(out.len(), 1);
    assert!(matches!(out[0].status, RpcStatus::StatusOk));
    assert_eq!(out[0].payload, vec![0xCA, 0xFE]);
}
