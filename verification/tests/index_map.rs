use b_table::index_map::{order_of, IndexMap, NameOrder};

fn sample() -> IndexMap<u32> {
    let mut map = IndexMap::new();
    map.insert("width".to_string(), 1);
    map.insert("area".to_string(), 2);
    map.insert("height".to_string(), 3);
    map
}

#[test]
fn names_are_ordered_by_their_bytes() {
    assert!(matches!(order_of("a", "b"), NameOrder::Before));
    assert!(matches!(order_of("b", "a"), NameOrder::After));
    assert!(matches!(order_of("ab", "ab"), NameOrder::Same));
    assert!(matches!(order_of("ab", "abc"), NameOrder::Before));
    assert!(matches!(order_of("abc", "ab"), NameOrder::After));
    assert!(matches!(order_of("", "a"), NameOrder::Before));
    assert!(matches!(order_of("", ""), NameOrder::Same));
    assert!(matches!(order_of("Z", "a"), NameOrder::Before));
    assert!(matches!(order_of("z", "\u{e9}"), NameOrder::Before));
}

#[test]
fn entries_are_in_order_of_their_names() {
    let map = sample();
    assert_eq!(map.len(), 3);
    assert_eq!(map.at(0), (&"area".to_string(), &2));
    assert_eq!(map.at(1), (&"height".to_string(), &3));
    assert_eq!(map.at(2), (&"width".to_string(), &1));
    let names: Vec<String> = map.into_entries().into_iter().map(|(name, _)| name).collect();
    assert_eq!(names, vec!["area", "height", "width"]);
}

#[test]
fn the_order_does_not_depend_on_the_order_of_insertion() {
    let mut other = IndexMap::new();
    other.insert("height".to_string(), 30);
    other.insert("width".to_string(), 10);
    other.insert("area".to_string(), 20);
    let map = sample();
    for i in 0..3 {
        assert_eq!(map.at(i).0, other.at(i).0);
    }
}

#[test]
fn a_value_is_found_by_its_name() {
    let map = sample();
    assert_eq!(map.get("area"), Some(&2));
    assert_eq!(map.get("width"), Some(&1));
    assert_eq!(map.get("depth"), None);
    let empty: IndexMap<u32> = IndexMap::new();
    assert_eq!(empty.get("area"), None);
}

#[test]
fn an_insertion_replaces_the_value_of_a_name() {
    let mut map = sample();
    map.insert("height".to_string(), 33);
    assert_eq!(map.len(), 3);
    assert_eq!(map.get("height"), Some(&33));
    assert_eq!(map.get("area"), Some(&2));
}

#[test]
fn mapping_and_cloning_keep_the_names() {
    let map = sample();
    let copy = map.clone();
    let doubled = map.map(|value| u64::from(value) * 2);
    assert_eq!(doubled.get("width"), Some(&2));
    assert_eq!(doubled.get("height"), Some(&6));
    for i in 0..3 {
        assert_eq!(copy.at(i).0, doubled.at(i).0);
    }
    assert_eq!(copy.get("height"), Some(&3));
}
