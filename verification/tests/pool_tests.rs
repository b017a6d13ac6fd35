use vstabs::pool::ServerTable;

#[test]
fn insert_then_lookup() {
    let mut t: ServerTable<u32> = ServerTable::new();
    assert_eq!(t.port_of("a"), None);
    assert!(t.insert("a".to_string(), 1000, 7).is_none());
    assert_eq!(t.port_of("a"), Some(1000));
    let st = t.status_of("a").unwrap();
    assert_eq!(st.project_id, "a");
    assert_eq!(st.port, 1000);
    assert!(st.running);
    assert!(t.status_of("b").is_none());
}

#[test]
fn insert_replaces_and_returns_the_old_handle() {
    let mut t: ServerTable<u32> = ServerTable::new();
    t.insert("a".to_string(), 1000, 7);
    assert_eq!(t.insert("a".to_string(), 2000, 8), Some(7));
    assert_eq!(t.port_of("a"), Some(2000));
    assert_eq!(t.statuses().len(), 1);
}

#[test]
fn remove_takes_the_backend_out() {
    let mut t: ServerTable<u32> = ServerTable::new();
    t.insert("a".to_string(), 1000, 7);
    t.insert("b".to_string(), 1001, 8);
    assert_eq!(t.remove("a"), Some(7));
    assert_eq!(t.port_of("a"), None);
    assert_eq!(t.port_of("b"), Some(1001));
    assert_eq!(t.remove("a"), None);
}

#[test]
fn insert_then_remove_leaves_the_table_as_it_was() {
    let mut t: ServerTable<u32> = ServerTable::new();
    t.insert("a".to_string(), 1000, 7);
    t.insert("b".to_string(), 1001, 8);
    t.remove("b");
    let s = t.statuses();
    assert_eq!(s.len(), 1);
    assert_eq!(s[0].project_id, "a");
}

#[test]
fn statuses_list_each_backend_once() {
    let mut t: ServerTable<u32> = ServerTable::new();
    t.insert("a".to_string(), 1000, 7);
    t.insert("b".to_string(), 1001, 8);
    t.insert("a".to_string(), 1002, 9);
    let s = t.statuses();
    assert_eq!(s.len(), 2);
    assert_eq!((s[0].project_id.as_str(), s[0].port, s[0].running), ("a", 1002, true));
    assert_eq!((s[1].project_id.as_str(), s[1].port, s[1].running), ("b", 1001, true));
}

#[test]
fn drain_returns_every_handle_and_empties() {
    let mut t: ServerTable<u32> = ServerTable::new();
    t.insert("a".to_string(), 1000, 7);
    t.insert("b".to_string(), 1001, 8);
    t.insert("c".to_string(), 1002, 9);
    assert_eq!(t.drain(), vec![7, 8, 9]);
    assert!(t.statuses().is_empty());
    assert_eq!(t.port_of("b"), None);
}
