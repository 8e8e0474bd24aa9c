use web_storage::order::{key_order, KeyOrder};
use web_storage::store::OriginStore;

#[test]
fn key_order_goes_by_bytes() {
    assert_eq!(key_order("a", "b"), KeyOrder::Before);
    assert_eq!(key_order("b", "a"), KeyOrder::After);
    assert_eq!(key_order("a", "a"), KeyOrder::Same);
    assert_eq!(key_order("", ""), KeyOrder::Same);
    assert_eq!(key_order("", "a"), KeyOrder::Before);
    assert_eq!(key_order("a", ""), KeyOrder::After);
    assert_eq!(key_order("ab", "abc"), KeyOrder::Before);
    assert_eq!(key_order("abc", "ab"), KeyOrder::After);
    assert_eq!(key_order("abd", "abc"), KeyOrder::After);
    assert_eq!(key_order("B", "a"), KeyOrder::Before);
    assert_eq!(key_order("10", "9"), KeyOrder::Before);
    assert_eq!(key_order("z", "é"), KeyOrder::Before);
    assert_eq!(key_order("é", "z"), KeyOrder::After);
    assert_eq!(key_order("é", "é"), KeyOrder::Same);
    assert_eq!(key_order("\u{ffff}", "\u{10000}"), KeyOrder::Before);
}

#[test]
fn key_order_agrees_with_the_order_of_str() {
    let words = ["", "a", "A", "ab", "abc", "b", "é", "e", "日本", "日", "~", "\u{10000}", "z"];
    for x in words {
        for y in words {
            let expected = if x < y {
                KeyOrder::Before
            } else if x == y {
                KeyOrder::Same
            } else {
                KeyOrder::After
            };
            assert_eq!(key_order(x, y), expected, "{:?} and {:?}", x, y);
        }
    }
}

#[test]
fn store_is_a_sorted_map() {
    let mut store = OriginStore::new();
    assert_eq!(store.len(), 0);
    assert_eq!(store.key(0), None);
    assert_eq!(store.get("a"), None);
    store.insert("b".to_string(), "2".to_string());
    store.insert("c".to_string(), "3".to_string());
    store.insert("a".to_string(), "1".to_string());
    assert_eq!(store.len(), 3);
    assert_eq!(store.key(0), Some(&"a".to_string()));
    assert_eq!(store.key(1), Some(&"b".to_string()));
    assert_eq!(store.key(2), Some(&"c".to_string()));
    assert_eq!(store.key(3), None);
    assert_eq!(store.get("b"), Some(&"2".to_string()));
    assert_eq!(store.get("d"), None);
    store.insert("b".to_string(), "two".to_string());
    assert_eq!(store.len(), 3);
    assert_eq!(store.key(1), Some(&"b".to_string()));
    assert_eq!(store.get("b"), Some(&"two".to_string()));
    store.remove("a");
    assert_eq!(store.len(), 2);
    assert_eq!(store.key(0), Some(&"b".to_string()));
    store.remove("a");
    assert_eq!(store.len(), 2);
    store.clear();
    assert_eq!(store.len(), 0);
    assert_eq!(store.get("b"), None);
    store.clear();
    assert_eq!(store.len(), 0);
}

#[test]
fn store_orders_keys_beyond_ascii_by_their_bytes() {
    let mut store = OriginStore::new();
    let mut names = vec!["é", "z", "日本", "a", "\u{10000}", "Z", "日"];
    for name in &names {
        store.insert(name.to_string(), name.to_uppercase());
    }
    names.sort();
    for (i, name) in names.iter().enumerate() {
        assert_eq!(store.key(i), Some(&name.to_string()));
        assert_eq!(store.get(name), Some(&name.to_uppercase()));
    }
}
