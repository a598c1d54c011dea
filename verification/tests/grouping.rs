use comick::group::group_by;

#[test]
fn grouping_an_empty_input_gives_an_empty_map() {
    let groups = group_by(Vec::<u32>::new(), |x: &u32| *x);
    assert!(groups.is_empty());
}

#[test]
fn grouping_keeps_input_order_inside_each_group() {
    let items = vec![(2u8, "a"), (1, "b"), (2, "c"), (3, "d"), (1, "e"), (2, "f")];
    let groups = group_by(items, |item: &(u8, &str)| item.0);
    assert_eq!(groups.len(), 3);
    assert_eq!(groups[&1], vec![(1, "b"), (1, "e")]);
    assert_eq!(groups[&2], vec![(2, "a"), (2, "c"), (2, "f")]);
    assert_eq!(groups[&3], vec![(3, "d")]);
}

#[test]
fn grouping_is_walked_in_ascending_key_order() {
    let items = vec![30u32, 11, 22, 10, 31, 20];
    let groups = group_by(items, |x: &u32| *x / 10);
    let keys: Vec<u32> = groups.keys().copied().collect();
    assert_eq!(keys, vec![1, 2, 3]);
    let walked: Vec<u32> = groups.values().flatten().copied().collect();
    assert_eq!(walked, vec![11, 10, 22, 20, 30, 31]);
}

#[test]
fn grouping_partitions_the_input() {
    let items: Vec<u32> = vec![5, 3, 8, 5, 1, 9, 3, 3, 0, 12];
    let groups = group_by(items.clone(), |x: &u32| *x % 3);
    let mut all: Vec<u32> = groups.values().flatten().copied().collect();
    let mut expected = items.clone();
    all.sort();
    expected.sort();
    assert_eq!(all, expected);
    for (key, group) in &groups {
        let picked: Vec<u32> = items.iter().copied().filter(|x| *x % 3 == *key).collect();
        assert_eq!(*group, picked);
    }
}

#[test]
fn grouping_by_text_keys() {
    let items = vec![(String::from("12-en"), 1), (String::from("11-en"), 2), (String::from("12-en"), 3)];
    let groups = group_by(items, |item: &(String, i32)| item.0.clone());
    let keys: Vec<&str> = groups.keys().map(|k| k.as_str()).collect();
    assert_eq!(keys, vec!["11-en", "12-en"]);
    assert_eq!(groups["12-en"].iter().map(|item| item.1).collect::<Vec<i32>>(), vec![1, 3]);
}

#[test]
fn grouping_asks_for_each_key_once() {
    let calls = std::cell::Cell::new(0u32);
    let items = vec![4u32, 4, 7, 4];
    let groups = group_by(items, |x: &u32| {
        calls.set(calls.get() + 1);
        *x
    });
    assert_eq!(calls.get(), 4);
    assert_eq!(groups[&4], vec![4, 4, 4]);
}
