use rustwtxt::map::SortedMap;

fn filled(pairs: &[(&str, &str)]) -> SortedMap<String> {
    let mut map = SortedMap::new();
    for (key, value) in pairs {
        map.insert(key.to_string(), value.to_string());
    }
    map
}

#[test]
fn new_map_is_empty() {
    let map: SortedMap<String> = SortedMap::new();
    assert_eq!(map.len(), 0);
    assert!(map.is_empty());
    assert!(map.get("a").is_none());
    assert!(!map.contains_key(""));
    assert_eq!(map.position("a"), None);
}

#[test]
fn entries_stand_in_the_order_of_their_keys() {
    let map = filled(&[("b", "2"), ("d", "4"), ("a", "1"), ("c", "3"), ("", "0"), ("ab", "1b")]);
    assert_eq!(map.len(), 6);
    let keys: Vec<&str> = (0..map.len()).map(|i| map.key_at(i)).collect();
    assert_eq!(keys, vec!["", "a", "ab", "b", "c", "d"]);
    let values: Vec<&String> = (0..map.len()).map(|i| map.value_at(i)).collect();
    assert_eq!(values, vec!["0", "1", "1b", "2", "3", "4"]);
    assert_eq!(map.position("ab"), Some(2));
    assert_eq!(map.position("abc"), None);
    assert!(map.contains_key("d"));
    assert!(!map.contains_key("e"));
}

#[test]
fn keys_are_ordered_by_code_point() {
    let map = filled(&[("é", "2"), ("z", "1"), ("\u{10000}", "4"), ("\u{ffff}", "3"), ("Z", "0")]);
    let keys: Vec<&str> = (0..map.len()).map(|i| map.key_at(i)).collect();
    assert_eq!(keys, vec!["Z", "z", "é", "\u{ffff}", "\u{10000}"]);
    let mut sorted = keys.clone();
    sorted.sort();
    assert_eq!(keys, sorted);
}

#[test]
fn later_value_replaces_earlier() {
    let mut map = filled(&[("a", "1"), ("b", "2")]);
    map.insert(String::from("a"), String::from("one"));
    assert_eq!(map.len(), 2);
    assert_eq!(map.get("a").unwrap(), "one");
    assert_eq!(map.get("b").unwrap(), "2");
    map.insert(String::from("b"), String::from("two"));
    assert_eq!(map.get("b").unwrap(), "two");
    assert_eq!(map, filled(&[("b", "two"), ("a", "one")]));
}

#[test]
fn clone_keeps_the_entries() {
    let map = filled(&[("b", "2"), ("a", "1")]);
    let copy = map.clone();
    assert_eq!(copy, map);
    assert_eq!(copy.key_at(0), "a");
    assert_eq!(copy.value_at(1), "2");
}
