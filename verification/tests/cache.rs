use compgraph::cache::{same_tuple, Cache};

#[test]
fn new_cache_is_empty() {
    let cache = Cache::new();
    assert_eq!(cache.len(), 0);
    assert_eq!(cache.get(&vec![1, 2]), None);
    assert!(!cache.contains_key(&vec![]));
}

#[test]
fn inserted_value_is_found_by_its_whole_tuple() {
    let mut cache = Cache::new();
    cache.insert(vec![1, 2], 30);
    assert_eq!(cache.get(&vec![1, 2]), Some(30));
    assert!(cache.contains_key(&vec![1, 2]));
    assert_eq!(cache.get(&vec![2, 1]), None);
    assert_eq!(cache.get(&vec![1]), None);
    assert_eq!(cache.get(&vec![1, 2, 0]), None);
    assert_eq!(cache.get(&vec![]), None);
    assert_eq!(cache.len(), 1);
}

#[test]
fn entries_do_not_disturb_each_other() {
    let mut cache = Cache::new();
    cache.insert(vec![1, 2], 30);
    cache.insert(vec![2, 1], 40);
    cache.insert(vec![], 50);
    cache.insert(vec![7], 60);
    assert_eq!(cache.len(), 4);
    assert_eq!(cache.get(&vec![1, 2]), Some(30));
    assert_eq!(cache.get(&vec![2, 1]), Some(40));
    assert_eq!(cache.get(&vec![]), Some(50));
    assert_eq!(cache.get(&vec![7]), Some(60));
}

#[test]
fn insert_on_a_held_key_replaces_the_value() {
    let mut cache = Cache::new();
    cache.insert(vec![1, 2], 30);
    cache.insert(vec![3, 4], 70);
    cache.insert(vec![1, 2], 31);
    assert_eq!(cache.len(), 2);
    assert_eq!(cache.get(&vec![1, 2]), Some(31));
    assert_eq!(cache.get(&vec![3, 4]), Some(70));
}

#[test]
fn tuples_are_compared_element_by_element() {
    assert!(same_tuple(&vec![], &vec![]));
    assert!(same_tuple(&vec![5, 6, 7], &vec![5, 6, 7]));
    assert!(!same_tuple(&vec![5, 6, 7], &vec![5, 6, 8]));
    assert!(!same_tuple(&vec![5, 6], &vec![5, 6, 7]));
    assert!(!same_tuple(&vec![5, 6, 7], &vec![5, 6]));
    assert!(!same_tuple(&vec![0], &vec![0x8000_0000]));
}
