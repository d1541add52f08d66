use gallery_backend::prefetch::{prefetch, ReducedData};
use gallery_backend::snapshot::{get_data, SnapshotStore};

fn item(hash: &str) -> ReducedData {
    ReducedData { hash: hash.to_string(), width: 1, height: 1, date: 0 }
}

fn snap() -> Vec<ReducedData> {
    vec![item("h0"), item("h1"), item("h2"), item("h3"), item("h4")]
}

#[test]
fn read_inside_range() {
    assert_eq!(get_data(&snap(), 1, 3), vec!["h1".to_string(), "h2".to_string()]);
}

#[test]
fn read_is_cut_at_snapshot_end() {
    assert_eq!(get_data(&snap(), 3, 100), vec!["h3".to_string(), "h4".to_string()]);
    assert_eq!(get_data(&snap(), 3, 100), get_data(&snap(), 3, 5));
}

#[test]
fn empty_or_inverted_range_gives_nothing() {
    assert!(get_data(&snap(), 2, 2).is_empty());
    assert!(get_data(&snap(), 4, 1).is_empty());
    assert!(get_data(&snap(), 5, 9).is_empty());
    assert!(get_data(&vec![], 0, 10).is_empty());
}

#[test]
fn pages_tile_the_snapshot() {
    let mut joined = get_data(&snap(), 0, 2);
    joined.extend(get_data(&snap(), 2, 7));
    assert_eq!(joined, get_data(&snap(), 0, 7));
}

#[test]
fn whole_read_returns_every_hash() {
    let all: Vec<String> = snap().iter().map(|r| r.hash.clone()).collect();
    assert_eq!(get_data(&snap(), 0, snap().len()), all);
}

#[test]
fn located_item_is_found_by_a_one_item_read() {
    let (answer, snapshot) = prefetch(snap(), None, Some("h3".to_string()), "t".to_string());
    let i = answer.locate_to.unwrap();
    assert_eq!(get_data(&snapshot, i, i + 1), vec!["h3".to_string()]);
}

#[test]
fn store_reads_back_what_was_stored() {
    let mut store = SnapshotStore::new();
    assert!(store.read(&"t1".to_string()).is_none());
    store.insert("t1".to_string(), snap());
    store.insert("t2".to_string(), vec![item("x")]);
    assert_eq!(store.read(&"t1".to_string()), Some(&snap()));
    assert_eq!(store.read(&"t2".to_string()), Some(&vec![item("x")]));
    assert!(store.read(&"t3".to_string()).is_none());
}

#[test]
fn store_replaces_under_same_timestamp_only() {
    let mut store = SnapshotStore::new();
    store.insert("t1".to_string(), snap());
    store.insert("t2".to_string(), snap());
    store.insert("t1".to_string(), vec![item("y")]);
    assert_eq!(store.read(&"t1".to_string()), Some(&vec![item("y")]));
    assert_eq!(store.read(&"t2".to_string()), Some(&snap()));
}

#[test]
fn prefetch_then_read_through_store() {
    let keep = vec![true, false, true, false, true];
    let (answer, snapshot) = prefetch(snap(), Some(keep), None, "99".to_string());
    let mut store = SnapshotStore::new();
    store.insert(answer.timestamp.clone(), snapshot);
    let stored = store.read(&answer.timestamp).unwrap();
    assert_eq!(
        get_data(stored, 0, answer.data_length),
        vec!["h0".to_string(), "h2".to_string(), "h4".to_string()]
    );
}
