use tictactoe::registry::Registry;

#[test]
fn a_new_registry_is_empty() {
    let registry: Registry<u32> = Registry::new();
    assert_eq!(registry.len(), 0);
    assert!(!registry.contains_key("a"));
    assert_eq!(registry.get("a"), None);
    assert_eq!(registry.position("a"), None);
}

#[test]
fn insert_adds_a_record_or_replaces_it() {
    let mut registry: Registry<u32> = Registry::new();
    assert_eq!(registry.insert(String::from("a"), 1), None);
    assert_eq!(registry.insert(String::from("b"), 2), None);
    assert_eq!(registry.len(), 2);
    assert_eq!(registry.insert(String::from("a"), 3), Some(1));
    assert_eq!(registry.len(), 2);
    assert_eq!(registry.get("a"), Some(&3));
    assert_eq!(registry.get("b"), Some(&2));
    assert_eq!(registry.get("c"), None);
}

#[test]
fn records_are_scanned_in_the_order_they_came() {
    let mut registry: Registry<u32> = Registry::new();
    registry.insert(String::from("b"), 2);
    registry.insert(String::from("a"), 1);
    registry.insert(String::from("c"), 3);
    registry.insert(String::from("a"), 10);
    assert_eq!(registry.key_at(0), "b");
    assert_eq!(registry.key_at(1), "a");
    assert_eq!(registry.key_at(2), "c");
    assert_eq!(*registry.value_at(0), 2);
    assert_eq!(*registry.value_at(1), 10);
    assert_eq!(*registry.value_at(2), 3);
    assert_eq!(registry.position("c"), Some(2));
}

#[test]
fn remove_takes_the_record_out_and_keeps_the_order() {
    let mut registry: Registry<u32> = Registry::new();
    registry.insert(String::from("a"), 1);
    registry.insert(String::from("b"), 2);
    registry.insert(String::from("c"), 3);
    assert_eq!(registry.remove("b"), Some(2));
    assert_eq!(registry.remove("b"), None);
    assert_eq!(registry.len(), 2);
    assert!(!registry.contains_key("b"));
    assert_eq!(registry.key_at(0), "a");
    assert_eq!(registry.key_at(1), "c");
    assert_eq!(registry.get("c"), Some(&3));
}

#[test]
fn get_mut_changes_the_record_in_place() {
    let mut registry: Registry<u32> = Registry::new();
    registry.insert(String::from("a"), 1);
    registry.insert(String::from("b"), 2);
    if let Some(value) = registry.get_mut("a") {
        *value += 40;
    }
    assert!(registry.get_mut("z").is_none());
    assert_eq!(registry.get("a"), Some(&41));
    assert_eq!(registry.get("b"), Some(&2));
    assert_eq!(registry.len(), 2);
}

#[test]
fn keys_are_compared_as_whole_strings() {
    let mut registry: Registry<u32> = Registry::new();
    registry.insert(String::from("ab"), 1);
    assert!(!registry.contains_key("a"));
    assert!(!registry.contains_key("abc"));
    assert!(!registry.contains_key(""));
    assert!(registry.contains_key("ab"));
}
