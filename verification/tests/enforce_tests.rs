use os_support::enforce::Requirement;
use os_support::enforce::validate;
use os_support::enforce::missing_tags;
use os_support::enforce::requirement_message;
use os_support::enforce::missing_message;
use os_support::registry::Registry;

fn strings(tags: &[&str]) -> Vec<String> {
    tags.iter().map(|t| t.to_string()).collect()
}

fn req(trait_name: &str, platforms: &[&str]) -> Requirement {
    Requirement { trait_name: trait_name.to_string(), platforms: strings(platforms) }
}

#[test]
fn covered_requirement_validates() {
    let mut reg = Registry::new();
    reg.register("Greeter".to_string(), strings(&["linux"]));
    reg.register("Greeter".to_string(), strings(&["windows"]));
    assert!(validate(&reg, &req("Greeter", &["linux", "windows"])).is_ok());
}

#[test]
fn subset_of_one_fact_validates() {
    let mut reg = Registry::new();
    reg.register("Greeter".to_string(), strings(&["linux", "windows", "macos"]));
    assert!(validate(&reg, &req("Greeter", &["windows"])).is_ok());
}

#[test]
fn missing_platform_fails_and_is_named() {
    let mut reg = Registry::new();
    reg.register("Greeter".to_string(), strings(&["linux"]));
    let err = validate(&reg, &req("Greeter", &["linux", "macos"])).unwrap_err();
    assert_eq!(err.trait_name, "Greeter");
    assert_eq!(err.missing, strings(&["macos"]));
}

#[test]
fn unknown_trait_fails_with_every_tag_missing() {
    let reg = Registry::new();
    let err = validate(&reg, &req("Greeter", &["linux", "windows"])).unwrap_err();
    assert_eq!(err.trait_name, "Greeter");
    assert_eq!(err.missing, strings(&["linux", "windows"]));
}

#[test]
fn all_missing_tags_are_reported_together() {
    let mut reg = Registry::new();
    reg.register("Greeter".to_string(), strings(&["linux"]));
    let err = validate(&reg, &req("Greeter", &["macos", "linux", "freebsd"])).unwrap_err();
    assert_eq!(err.missing, strings(&["macos", "freebsd"]));
}

#[test]
fn validation_ignores_other_traits() {
    let mut reg = Registry::new();
    reg.register("Printer".to_string(), strings(&["linux"]));
    let err = validate(&reg, &req("Greeter", &["linux"])).unwrap_err();
    assert_eq!(err.missing, strings(&["linux"]));
}

#[test]
fn missing_tags_keeps_declaration_order() {
    let implemented = strings(&["windows"]);
    let required = strings(&["macos", "windows", "linux"]);
    assert_eq!(missing_tags(&required, &implemented), strings(&["macos", "linux"]));
}

#[test]
fn requirement_message_text() {
    assert_eq!(
        requirement_message("Greeter", &strings(&["linux", "windows"])),
        "Trait Greeter must be implemented for one of: linux, windows"
    );
}

#[test]
fn missing_message_text() {
    assert_eq!(
        missing_message("macos", "Greeter"),
        "Missing implementation for OS: macos for trait Greeter"
    );
}
