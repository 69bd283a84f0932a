use sandstorm::db::{MockDB, DB, SandstormErr};
use sandstorm::master::Master;

#[test]
fn it_works() {
    assert_eq!(2 + 2, 4);
}

#[test]
fn lib_it_works() {
    assert_eq!(2 + 2, 4);
}

#[test]
fn a_fresh_master_is_empty() {
    let master = Master::new();
    assert!(master.get_tenant(1).is_none());
}

#[test]
fn mock_db_records_messages() {
    let mut db = MockDB::new();
    db.debug_log("hello");
    db.debug_log("world");
    assert!(db.assert_messages(&vec!["hello".to_string(), "world".to_string()]));
    assert!(!db.assert_messages(&vec!["hello".to_string()]));
    assert!(!db.assert_messages(&vec!["hello".to_string(), "there".to_string()]));
    db.clear_messages();
    assert!(db.assert_messages(&Vec::new()));
}

#[test]
fn mock_db_answers_trivially() {
    let mut db = MockDB::new();
    assert!(db.create_table(7));
    assert!(db.get_key(7, &vec![1, 2, 3]).is_err());
    assert!(matches!(db.put_key(7, &vec![1], &vec![2]), SandstormErr::Success));
    assert!(db.allocate(7, &vec![1], 16).is_none());
}
