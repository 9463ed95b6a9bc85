use yarner_bib::registry::Registry;

#[test]
fn registering_twice_gives_the_same_index() {
    let mut registry = Registry::new();
    assert!(registry.is_empty());
    assert_eq!(registry.len(), 0);
    let first = registry.register("Knuth1997");
    let second = registry.register("Knuth1997");
    assert_eq!(first, 0);
    assert_eq!(second, 0);
    assert_eq!(registry.len(), 1);
    assert!(!registry.is_empty());
}

#[test]
fn distinct_keys_are_numbered_in_first_seen_order() {
    let mut registry = Registry::new();
    let keys = ["Zimmer2020", "Adams2010", "Knuth1997", "Aho1986", "B"];
    for (expected, key) in keys.iter().enumerate() {
        assert_eq!(registry.register(key), expected);
    }
    assert_eq!(registry.len(), 5);
    for (expected, key) in keys.iter().enumerate() {
        assert_eq!(registry.get(key), Some(expected));
        assert_eq!(registry.register(key), expected);
    }
    assert_eq!(registry.len(), 5);
    assert_eq!(registry.get("Missing"), None);
    assert_eq!(registry.get(""), None);
}

#[test]
fn a_key_keeps_its_index_when_others_follow() {
    let mut registry = Registry::new();
    assert_eq!(registry.register("b"), 0);
    assert_eq!(registry.register("a"), 1);
    assert_eq!(registry.register("b"), 0);
    assert_eq!(registry.register("c"), 2);
    assert_eq!(registry.register("a"), 1);
    assert_eq!(registry.get("b"), Some(0));
    assert_eq!(registry.get("c"), Some(2));
}

#[test]
fn snapshot_preserves_insertion_order() {
    let mut registry = Registry::new();
    assert_eq!(registry.snapshot(), vec![]);
    registry.register("Zimmer2020");
    registry.register("Adams2010");
    registry.register("Zimmer2020");
    registry.register("Mid2015");
    assert_eq!(
        registry.snapshot(),
        vec![
            ("Zimmer2020".to_string(), 0),
            ("Adams2010".to_string(), 1),
            ("Mid2015".to_string(), 2),
        ]
    );
}

#[test]
fn the_empty_key_is_a_key() {
    let mut registry = Registry::new();
    assert_eq!(registry.register(""), 0);
    assert_eq!(registry.register("x"), 1);
    assert_eq!(registry.get(""), Some(0));
}
