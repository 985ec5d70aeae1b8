use os_support::registry::Registry;
use os_support::registry::tag_lists_equal;

fn strings(tags: &[&str]) -> Vec<String> {
    tags.iter().map(|t| t.to_string()).collect()
}

#[test]
fn register_then_query_returns_the_set_once() {
    let mut reg = Registry::new();
    let added = reg.register("Greeter".to_string(), strings(&["linux", "windows"]));
    assert!(added);
    assert_eq!(reg.facts.len(), 1);
    assert_eq!(reg.union_for_trait("Greeter"), strings(&["linux", "windows"]));
}

#[test]
fn query_of_unknown_trait_is_empty() {
    let mut reg = Registry::new();
    reg.register("Greeter".to_string(), strings(&["linux"]));
    assert_eq!(reg.union_for_trait("Other"), Vec::<String>::new());
}

#[test]
fn duplicate_registration_is_idempotent() {
    let mut reg = Registry::new();
    let first = reg.register("Greeter".to_string(), strings(&["linux", "windows"]));
    let second = reg.register("Greeter".to_string(), strings(&["linux", "windows"]));
    assert!(first);
    assert!(!second);
    assert_eq!(reg.facts.len(), 1);
    assert_eq!(reg.union_for_trait("Greeter"), strings(&["linux", "windows"]));
}

#[test]
fn same_trait_different_sets_accumulate() {
    let mut reg = Registry::new();
    assert!(reg.register("Greeter".to_string(), strings(&["linux"])));
    assert!(reg.register("Greeter".to_string(), strings(&["windows"])));
    assert_eq!(reg.facts.len(), 2);
    assert_eq!(reg.union_for_trait("Greeter"), strings(&["linux", "windows"]));
}

#[test]
fn traits_are_kept_apart() {
    let mut reg = Registry::new();
    reg.register("Greeter".to_string(), strings(&["linux"]));
    reg.register("Printer".to_string(), strings(&["windows"]));
    assert_eq!(reg.union_for_trait("Greeter"), strings(&["linux"]));
    assert_eq!(reg.union_for_trait("Printer"), strings(&["windows"]));
}

#[test]
fn tag_list_equality_is_exact() {
    assert!(tag_lists_equal(&strings(&["a", "b"]), &strings(&["a", "b"])));
    assert!(!tag_lists_equal(&strings(&["a", "b"]), &strings(&["b", "a"])));
    assert!(!tag_lists_equal(&strings(&["a"]), &strings(&["a", "a"])));
}
