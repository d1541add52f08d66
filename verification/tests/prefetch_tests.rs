use gallery_backend::prefetch::{locate_hash, prefetch, select_reduced, Prefetch, ReducedData};

fn item(hash: &str, width: u32, height: u32, date: u128) -> ReducedData {
    ReducedData { hash: hash.to_string(), width, height, date }
}

fn sample() -> Vec<ReducedData> {
    vec![
        item("aa", 100, 200, 10),
        item("bb", 300, 400, 20),
        item("cc", 500, 600, 30),
        item("bb", 700, 800, 40),
    ]
}

#[test]
fn new_keeps_its_fields() {
    let p = Prefetch::new("1700000000000".to_string(), Some(3), 9);
    assert_eq!(p.timestamp, "1700000000000");
    assert_eq!(p.locate_to, Some(3));
    assert_eq!(p.data_length, 9);
}

#[test]
fn clone_of_prefetch_is_equal() {
    let p = Prefetch::new("5".to_string(), None, 0);
    assert_eq!(p.clone(), p);
}

#[test]
fn without_query_every_item_is_kept() {
    let (answer, snapshot) = prefetch(sample(), None, None, "42".to_string());
    assert_eq!(snapshot, sample());
    assert_eq!(answer.data_length, 4);
    assert_eq!(answer.locate_to, None);
    assert_eq!(answer.timestamp, "42");
}

#[test]
fn query_keeps_matched_items_in_order() {
    let keep = vec![false, true, true, false];
    let (answer, snapshot) = prefetch(sample(), Some(keep), None, "7".to_string());
    assert_eq!(snapshot, vec![item("bb", 300, 400, 20), item("cc", 500, 600, 30)]);
    assert_eq!(answer.data_length, 2);
}

#[test]
fn query_matching_nothing_gives_empty_snapshot() {
    let keep = vec![false; 4];
    let (answer, snapshot) =
        prefetch(sample(), Some(keep), Some("aa".to_string()), "7".to_string());
    assert!(snapshot.is_empty());
    assert_eq!(answer.data_length, 0);
    assert_eq!(answer.locate_to, None);
}

#[test]
fn locate_finds_first_occurrence() {
    let (answer, _) = prefetch(sample(), None, Some("bb".to_string()), "1".to_string());
    assert_eq!(answer.locate_to, Some(1));
}

#[test]
fn locate_is_relative_to_the_filtered_snapshot() {
    let keep = vec![true, false, true, true];
    let (answer, snapshot) =
        prefetch(sample(), Some(keep), Some("bb".to_string()), "1".to_string());
    assert_eq!(snapshot.len(), 3);
    assert_eq!(answer.locate_to, Some(2));
}

#[test]
fn locate_missing_hash_gives_none() {
    let (answer, _) = prefetch(sample(), None, Some("zz".to_string()), "1".to_string());
    assert_eq!(answer.locate_to, None);
}

#[test]
fn locate_hash_on_empty_and_found() {
    assert_eq!(locate_hash(&vec![], &"aa".to_string()), None);
    assert_eq!(locate_hash(&sample(), &"cc".to_string()), Some(2));
}

#[test]
fn select_reduced_all_and_none() {
    assert_eq!(select_reduced(&sample(), &vec![true; 4]), sample());
    assert_eq!(select_reduced(&sample(), &vec![false; 4]), vec![]);
    assert_eq!(
        select_reduced(&sample(), &vec![true, false, false, true]),
        vec![item("aa", 100, 200, 10), item("bb", 700, 800, 40)]
    );
}

#[test]
fn reduced_data_clone_is_equal() {
    let a = item("ff", 1, 2, 3);
    assert_eq!(a.clone(), a);
}
