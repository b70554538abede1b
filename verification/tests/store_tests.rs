use mdns_scan::record::IpAddress;
use mdns_scan::record::RecordEntry;
use mdns_scan::store::RecordEntries;

fn v4(addr: u32, name: &str) -> RecordEntry {
    RecordEntry::A(addr, String::from(name))
}

fn v6(addr: u128, name: &str) -> RecordEntry {
    RecordEntry::AAAA(addr, String::from(name))
}

#[test]
fn empty_store_finds_nothing() {
    let store = RecordEntries::new();
    let (a, b) = store.find(&String::from("printer.local"));
    assert_eq!(a, None);
    assert_eq!(b, None);
    assert!(store.distinct_host_names().is_empty());
}

#[test]
fn lookup_with_only_ipv4_is_present_absent() {
    let mut store = RecordEntries::new();
    store.apply(vec![v4(0x0a000005, "printer.local")]);
    let (a, b) = store.find(&String::from("printer.local"));
    assert_eq!(a, Some(IpAddress::V4(0x0a000005)));
    assert_eq!(b, None);
}

#[test]
fn rebinding_replaces_rather_than_accumulates() {
    let mut store = RecordEntries::new();
    store.apply(vec![v4(0x0a000005, "printer.local")]);
    store.apply(vec![v4(0x0a000009, "printer.local")]);
    let (a, b) = store.find(&String::from("printer.local"));
    assert_eq!(a, Some(IpAddress::V4(0x0a000009)));
    assert_eq!(b, None);
    assert_eq!(store.entries().len(), 1);
}

#[test]
fn both_families_share_one_display_row() {
    let mut store = RecordEntries::new();
    store.apply(vec![v4(0x0a000005, "a"), v6(1, "a")]);
    let names = store.distinct_host_names();
    assert_eq!(names, vec![String::from("a")]);
    let (a, b) = store.find(&String::from("a"));
    assert_eq!(a, Some(IpAddress::V4(0x0a000005)));
    assert_eq!(b, Some(IpAddress::V6(1)));
}

#[test]
fn at_most_one_binding_per_slot_within_one_batch() {
    let mut store = RecordEntries::new();
    store.apply(vec![v4(1, "h"), v4(2, "h"), v4(3, "other")]);
    assert_eq!(store.entries().len(), 2);
    let (a, _) = store.find(&String::from("h"));
    assert_eq!(a, Some(IpAddress::V4(2)));
}

#[test]
fn applying_the_same_batch_twice_changes_nothing() {
    let mut once = RecordEntries::new();
    let mut twice = RecordEntries::new();
    let batch = vec![v4(7, "x"), v6(9, "y"), v4(8, "x")];
    once.apply(batch.clone());
    twice.apply(batch.clone());
    twice.apply(batch);
    assert_eq!(once.entries(), twice.entries());
}

#[test]
fn clear_empties_the_snapshot_at_once() {
    let mut store = RecordEntries::new();
    store.apply(vec![v4(5, "host"), v6(6, "host")]);
    assert_eq!(store.snapshot().entries().len(), 2);
    store.clear();
    assert_eq!(store.snapshot().entries().len(), 0);
    assert!(store.distinct_host_names().is_empty());
}

#[test]
fn snapshot_is_a_faithful_copy() {
    let mut store = RecordEntries::new();
    store.apply(vec![v4(1, "a"), v6(2, "b")]);
    let snap = store.snapshot();
    assert_eq!(snap.entries(), store.entries());
    store.clear();
    assert_eq!(snap.entries().len(), 2);
}

#[test]
fn entries_come_out_in_display_order() {
    let mut store = RecordEntries::new();
    store.apply(vec![v6(1, "z"), v4(0xffffffff, "w"), v4(3, "q")]);
    let entries = store.entries();
    assert_eq!(entries.len(), 3);
    assert_eq!(entries[0].get_addr(), IpAddress::V4(3));
    assert_eq!(entries[1].get_addr(), IpAddress::V4(0xffffffff));
    assert_eq!(entries[2].get_addr(), IpAddress::V6(1));
}

#[test]
fn distinct_host_names_keep_first_seen_order() {
    let mut store = RecordEntries::new();
    store.apply(vec![v4(1, "b"), v4(2, "a"), v6(3, "b")]);
    let names = store.distinct_host_names();
    assert_eq!(names, vec![String::from("b"), String::from("a")]);
}

#[test]
fn applying_an_empty_batch_changes_nothing() {
    let mut store = RecordEntries::new();
    store.apply(vec![v4(1, "a")]);
    store.apply(vec![]);
    assert_eq!(store.entries().len(), 1);
}
