use binary_search_tree::{BinarySearchTree, IoTDevice};

fn device(id: u64) -> IoTDevice {
    IoTDevice { numerical_id: id, address: format!("1.1.1.{}", id) }
}

fn sample() -> BinarySearchTree {
    let mut tree = BinarySearchTree::new();
    for id in [10u64, 5, 8, 11] {
        tree.add(device(id));
    }
    tree
}

fn ids(tree: &BinarySearchTree) -> Vec<u64> {
    tree.walk().iter().map(|d| d.numerical_id).collect()
}

#[test]
fn empty_index() {
    let tree = BinarySearchTree::new();
    assert_eq!(tree.size(), 0);
    assert!(tree.find(0).is_none());
    assert!(tree.walk().is_empty());
}

#[test]
fn size_counts_every_insert() {
    let mut tree = BinarySearchTree::new();
    let ids = [3u64, 3, 1, 7, 3, 0, u64::MAX];
    for (n, id) in ids.iter().enumerate() {
        tree.add(device(*id));
        assert_eq!(tree.size(), n as u64 + 1);
    }
    assert_eq!(tree.size(), 7);
}

#[test]
fn every_inserted_identifier_is_found() {
    let ids = [50u64, 20, 70, 20, 60, 80, 10, 30, 0, u64::MAX];
    let mut tree = BinarySearchTree::new();
    for id in ids {
        tree.add(device(id));
    }
    for id in ids {
        let found = tree.find(id).expect("inserted identifier not found");
        assert_eq!(found.numerical_id, id);
        assert_eq!(found.address, format!("1.1.1.{}", id));
    }
}

#[test]
fn never_inserted_identifier_is_absent() {
    let tree = sample();
    for id in [0u64, 4, 6, 9, 12, 99, u64::MAX] {
        assert!(tree.find(id).is_none());
    }
}

#[test]
fn branch_directions_agree() {
    let tree = sample();
    assert_eq!(tree.find(5).unwrap().address, "1.1.1.5");
    assert_eq!(tree.find(8).unwrap().address, "1.1.1.8");
    assert_eq!(tree.find(10).unwrap().address, "1.1.1.10");
    assert_eq!(tree.find(11).unwrap().address, "1.1.1.11");
    assert!(tree.find(99).is_none());
}

#[test]
fn walk_order_of_sample() {
    let tree = sample();
    assert_eq!(ids(&tree), vec![11, 10, 8, 5]);
    let addresses: Vec<String> = tree.walk().into_iter().map(|d| d.address).collect();
    assert_eq!(addresses, vec!["1.1.1.11", "1.1.1.10", "1.1.1.8", "1.1.1.5"]);
}

#[test]
fn walk_visits_each_record_once_and_repeats() {
    let mut tree = BinarySearchTree::new();
    for id in [4u64, 9, 1, 9, 6, 2, 4] {
        tree.add(device(id));
    }
    let first = ids(&tree);
    assert_eq!(first.len() as u64, tree.size());
    assert_eq!(first, vec![9, 9, 6, 4, 4, 2, 1]);
    assert_eq!(ids(&tree), first);
}

#[test]
fn reads_leave_the_index_unchanged() {
    let tree = sample();
    let before = ids(&tree);
    for _ in 0..3 {
        assert!(tree.find(8).is_some());
        assert!(tree.find(42).is_none());
        tree.walk();
    }
    assert_eq!(tree.size(), 4);
    assert_eq!(ids(&tree), before);
}

#[test]
fn duplicate_identifiers_are_both_kept() {
    let mut tree = sample();
    tree.add(IoTDevice { numerical_id: 7, address: String::from("first") });
    tree.add(IoTDevice { numerical_id: 7, address: String::from("second") });
    assert_eq!(tree.size(), 6);
    let found = tree.find(7).unwrap();
    assert_eq!(found.address, "first");
    let sevens: Vec<String> = tree
        .walk()
        .into_iter()
        .filter(|d| d.numerical_id == 7)
        .map(|d| d.address)
        .collect();
    assert_eq!(sevens.len(), 2);
    assert!(sevens.contains(&String::from("first")));
    assert!(sevens.contains(&String::from("second")));
}

#[test]
fn found_record_is_a_copy() {
    let tree = sample();
    let mut found = tree.find(5).unwrap();
    found.address.push_str("-changed");
    assert_eq!(tree.find(5).unwrap().address, "1.1.1.5");
}

#[test]
fn increasing_identifiers_walk_descending() {
    let mut tree = BinarySearchTree::new();
    for id in 0u64..50 {
        tree.add(device(id));
    }
    let expected: Vec<u64> = (0u64..50).rev().collect();
    assert_eq!(ids(&tree), expected);
    assert_eq!(tree.find(0).unwrap().numerical_id, 0);
    assert_eq!(tree.find(49).unwrap().numerical_id, 49);
}
