use dhcp_server::lease::{select_entry, LeaseError, LeaseRecord, LeaseStore};
use dhcp_server::pool::AddressPool;

#[test]
fn pool_serves_from_the_end() {
    let mut p = AddressPool::from_vec(vec![3, 2, 1]);
    assert_eq!(p.pick_available_ip(), Some(1));
    assert_eq!(p.pick_available_ip(), Some(2));
    assert_eq!(p.pick_available_ip(), Some(3));
    assert_eq!(p.pick_available_ip(), None);
    assert_eq!(p.len(), 0);
}

#[test]
fn pick_then_release_keeps_size_and_defers_reuse() {
    let mut p = AddressPool::from_vec(vec![3, 2, 1]);
    let before = p.len();
    let a = p.pick_available_ip().unwrap();
    p.release_address(a);
    assert_eq!(p.len(), before);
    assert_ne!(p.pick_available_ip(), Some(a));
    assert_eq!(p.pick_available_ip(), Some(3));
    assert_eq!(p.pick_available_ip(), Some(a));
}

#[test]
fn pick_specified_removes_only_that_address() {
    let mut p = AddressPool::from_vec(vec![7, 8, 9]);
    assert_eq!(p.pick_specified_ip(8), Some(8));
    assert!(!p.contains(8));
    assert_eq!(p.len(), 2);
    assert_eq!(p.pick_specified_ip(8), None);
    assert_eq!(p.pick_specified_ip(42), None);
    assert_eq!(p.len(), 2);
}

#[test]
fn select_unknown_then_insert() {
    let mut s = LeaseStore::new();
    assert_eq!(s.select(0x0102), None);
    assert_eq!(select_entry(&s, 0x0102), None);
    assert_eq!(s.insert(0x0102, 0x0a000005), Ok(()));
    assert_eq!(s.select(0x0102), Some((0x0a000005, false)));
    assert_eq!(select_entry(&s, 0x0102), Some(0x0a000005));
    assert_eq!(s.select(0x0103), None);
}

#[test]
fn insert_over_active_lease_fails() {
    let mut s = LeaseStore::new();
    s.insert(1, 10).unwrap();
    assert_eq!(s.insert(1, 11), Err(LeaseError::ActiveLeaseExists));
    assert_eq!(s.select(1), Some((10, false)));
}

#[test]
fn update_and_release_keep_the_row() {
    let mut s = LeaseStore::new();
    s.insert(1, 10).unwrap();
    s.insert(2, 20).unwrap();
    assert!(s.update(1, 12, true));
    assert_eq!(s.select(1), Some((12, true)));
    assert_eq!(select_entry(&s, 1), Some(12));
    assert!(!s.update(3, 30, false));
    assert_eq!(s.select(3), None);
    assert_eq!(s.insert(1, 13), Ok(()));
    assert_eq!(s.select(1), Some((13, false)));
    assert_eq!(s.records().len(), 2);
    assert_eq!(s.records()[0], LeaseRecord { mac: 1, ip: 13, released: false });
}

#[test]
fn address_queries() {
    let mut s = LeaseStore::new();
    s.insert(1, 10).unwrap();
    s.insert(2, 20).unwrap();
    s.update(2, 20, true);
    assert!(s.has_active_ip(10));
    assert!(!s.has_active_ip(20));
    assert!(s.has_ip(20));
    assert!(!s.has_ip(30));
}
