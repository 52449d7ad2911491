use deno_graph::order::compare_text;
use deno_graph::order::same_text;
use deno_graph::order::Order;
use deno_graph::ordered_map::OrderedMap;
use deno_graph::ordered_map::OrderedSet;

#[test]
fn text_is_ordered_by_its_bytes() {
    assert_eq!(compare_text("a", "b"), Order::Less);
    assert_eq!(compare_text("b", "a"), Order::Greater);
    assert_eq!(compare_text("a", "a"), Order::Equal);
    assert_eq!(compare_text("", "a"), Order::Less);
    assert_eq!(compare_text("ab", "a"), Order::Greater);
    assert_eq!(compare_text("Z", "a"), Order::Less);
    assert_eq!(compare_text("\u{e9}", "z"), Order::Greater);
    assert_eq!(compare_text("\u{ffff}", "\u{10000}"), Order::Less);
    assert!(same_text("a", "a"));
    assert!(!same_text("a", "b"));
}

#[test]
fn last_value_of_a_key() {
    let mut map: OrderedMap<String, u32> = OrderedMap::new();
    for (key, value) in [("b", 1), ("a", 2), ("c", 3), ("b", 4)] {
        map.insert(key.to_string(), value);
    }
    assert_eq!(map.len(), 3);
    let entries: Vec<(&str, u32)> =
        (0..3).map(|i| (map.key_at(i).as_str(), *map.value_at(i))).collect();
    assert_eq!(entries, vec![("a", 2), ("b", 4), ("c", 3)]);
    assert_eq!(map.get(&"d".to_string()), None);
    *map.value_mut(&"c".to_string()) += 10;
    assert_eq!(map.get(&"c".to_string()), Some(&13));
    assert!(map.contains_key(&"a".to_string()));
}

#[test]
fn a_key_is_there_once() {
    let mut set: OrderedSet<String> = OrderedSet::new();
    for key in ["b", "a", "b", "a"] {
        set.insert(key.to_string());
    }
    assert_eq!(set.len(), 2);
    assert_eq!(set.at(0), "a");
    assert_eq!(set.at(1), "b");
    assert!(!set.contains(&"c".to_string()));
}
