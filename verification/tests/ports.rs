use bytes::Bytes;
use sandstorm::auth::check_password;
use sandstorm::common::RESPONSE_CAPACITY;
use sandstorm::context::Context;
use sandstorm::db::MockDB;
use sandstorm::dbcontext::dbcontext;
use sandstorm::extension_interface::{Extension, ExtensionResult};
use sandstorm::heap::Allocator;
use sandstorm::list::{find_last_elem, ListExtension, ListNode};
use sandstorm::master::Master;
use sandstorm::table::Table;
use sandstorm::tao::{init, Tao};
use sandstorm::tenant::Tenant;
use sandstorm::wireformat::{Request, Response, OPCODE_INVOKE};
use sandstorm::workload::workload_op;

#[test]
fn tao_numbers_objects_in_order() {
    let mut tao = Tao::new(MockDB::new());
    assert_eq!(tao.object_add(3, Bytes::copy_from_slice(&[1, 2, 3])), 0);
    assert_eq!(tao.object_add(3, Bytes::copy_from_slice(&[4])), 1);
    tao.object_update(0, Bytes::copy_from_slice(&[9]));
    tao.object_delete(1);
    tao.assocation_add(0, 5, 1);
    tao.association_delete(0, 1);
    // The mock data service holds nothing, so reads miss.
    assert!(tao.assocation_get(0, 1).is_none());
    let mut buf = Bytes::new();
    assert_eq!(tao.object_get(0, &mut buf), 0);
    assert_eq!(tao.object_add(3, Bytes::new()), 2);
    tao.reset();
    assert_eq!(tao.object_add(3, Bytes::new()), 0);
}

#[test]
fn tao_init_logs_once() {
    let mut db = MockDB::new();
    init(&mut db);
    assert!(db.assert_messages(&vec!["TAO Initialized".to_string()]));
}

#[test]
fn find_last_elem_walks_to_the_tail() {
    let nodes = vec![
        (1u64, ListNode { next_node_key: Some(2), data: b"head".to_vec() }),
        (2u64, ListNode { next_node_key: Some(3), data: b"mid".to_vec() }),
        (3u64, ListNode { next_node_key: None, data: b"tail".to_vec() }),
    ];
    let first = ListNode { next_node_key: Some(1), data: b"zero".to_vec() };
    assert_eq!(find_last_elem(&nodes, &first, 10), Ok(b"tail".to_vec()));
    // A single node is its own tail.
    let alone = ListNode { next_node_key: None, data: b"only".to_vec() };
    assert_eq!(find_last_elem(&nodes, &alone, 10), Ok(b"only".to_vec()));
    // A dangling link is an error.
    let dangling = ListNode { next_node_key: Some(9), data: Vec::new() };
    assert!(find_last_elem(&nodes, &dangling, 10).is_err());
    // A cycle exhausts the fuel instead of hanging.
    let cyclic = vec![
        (1u64, ListNode { next_node_key: Some(2), data: Vec::new() }),
        (2u64, ListNode { next_node_key: Some(1), data: Vec::new() }),
    ];
    let first = ListNode { next_node_key: Some(1), data: Vec::new() };
    assert!(find_last_elem(&cyclic, &first, 10).is_err());
}

#[test]
fn list_extension_answers_through_the_interface() {
    let mut ext = ListExtension {};
    let mut db = MockDB::new();
    <ListExtension as Extension<MockDB>>::init(&mut ext);
    let empty = <ListExtension as Extension<MockDB>>::call(&mut ext, &mut db, 1, Vec::new(), Vec::new());
    assert!(matches!(empty, ExtensionResult::ERROR(_)));
    let missed = <ListExtension as Extension<MockDB>>::call(&mut ext, &mut db, 1, vec![vec![1, 2]], Vec::new());
    assert!(matches!(missed, ExtensionResult::ERROR(_)));
    <ListExtension as Extension<MockDB>>::destroy(&mut ext);
}

#[test]
fn password_check_accepts_the_stored_hash() {
    // Build a credential record the way the authorization table holds
    // one: the bcrypt hash of (cost 1, salt, password), then the salt.
    let salt = [7u8; 16];
    let password = [0x41u8; 30];
    let mut hash = [0u8; 24];
    crypto::bcrypt::bcrypt(1, &salt, &password, &mut hash);
    let mut record = hash.to_vec();
    record.extend_from_slice(&salt);
    assert!(check_password(&record, &password));
    let mut wrong = password;
    wrong[0] = 0x42;
    assert!(!check_password(&record, &wrong));
}

#[test]
fn workload_op_builds_keys_from_samples() {
    let (is_get, key) = workload_op(5, 7, 10, 30);
    assert!(!is_get);
    assert_eq!(key.len(), 30);
    assert_eq!(&key[0..4], &[7, 0, 0, 0]);
    assert!(key[4..].iter().all(|b| *b == 0));
    let (is_get, _key) = workload_op(95, 1, 10, 4);
    assert!(is_get);
}

#[test]
fn dbcontext_files_and_hands_back_tables() {
    let mut ctx = dbcontext::new();
    assert!(ctx.get(1).is_none());
    ctx.put_table(Table::new(1));
    assert!(ctx.get(1).is_some());
    let heap = Allocator::new();
    let (key, obj) = heap.object(0, 1, &[1, 2], &[3, 4]).unwrap();
    // A handle can be duplicated freely; both resolve to the record.
    let dup = heap.duplicate_handle(&obj);
    let (dk, dv) = heap.resolve(&dup).unwrap();
    assert_eq!(dk, &vec![1, 2]);
    assert_eq!(dv, &vec![3, 4]);
    let mut table = ctx.get_mut(1).unwrap();
    table.put(key, obj);
    assert!(ctx.get(1).is_none());
    ctx.put_table(table);
    let table = ctx.get(1).unwrap();
    let found = table.get(&[1, 2]).unwrap();
    let (_k, v) = heap.resolve(found).unwrap();
    assert_eq!(v, &vec![3, 4]);
    assert!(table.get(&[9]).is_none());
}

#[test]
fn context_carries_args_and_response() {
    let mut master = Master::new();
    let mut tenant = Tenant::new(1);
    tenant.create_table(1);
    master.insert_tenant(tenant);

    let mut payload = b"id".to_vec();
    payload.extend_from_slice(&[0xAA, 0xBB, 0xCC]);
    let req = Request::new_invoke(1, 50, 2, 3, payload);
    let res = Response::new(OPCODE_INVOKE, 50, RESPONSE_CAPACITY);
    let mut ctx = Context::new(req, 2, 3, res, 1);
    assert_eq!(ctx.args(), &[0xAA, 0xBB, 0xCC]);

    // A write through the context lands in the tenant's table.
    let mut buf = ctx.allocate(&master, 1, &[1, 2, 3], 2).unwrap();
    buf.fill(&[0x10, 0x20]);
    assert!(ctx.put(&mut master, buf));
    assert_eq!(ctx.get(&master, 1, &[1, 2, 3]), Some(vec![0x10, 0x20]));
    assert!(ctx.get(&master, 2, &[1, 2, 3]).is_none());

    assert!(ctx.resp(&[1, 2]));
    ctx.debug_log("ignored");
    let (rq, rs) = ctx.commit();
    assert_eq!(rq.stamp, 50);
    assert_eq!(rs.stamp, 50);
    assert_eq!(rs.payload, vec![1, 2]);
}
