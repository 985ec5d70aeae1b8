use os_support::emit::fact_ident;
use os_support::emit::fact_binding_source;
use os_support::emit::os_condition;
use os_support::emit::registry_source;
use os_support::emit::surface_for_target;
use os_support::registry::Registry;

fn strings(tags: &[&str]) -> Vec<String> {
    tags.iter().map(|t| t.to_string()).collect()
}

#[test]
fn fact_ident_joins_trait_and_tags() {
    assert_eq!(
        fact_ident("Greeter", &strings(&["linux", "windows"])),
        "os_impl_Greeter_linux_windows"
    );
    assert_eq!(fact_ident("Greeter", &strings(&["macos"])), "os_impl_Greeter_macos");
}

#[test]
fn fact_ident_is_deterministic() {
    let a = fact_ident("Greeter", &strings(&["linux", "windows"]));
    let b = fact_ident("Greeter", &strings(&["linux", "windows"]));
    assert_eq!(a, b);
}

#[test]
fn underscores_and_escape_letters_are_escaped() {
    assert_eq!(fact_ident("My_Trait", &strings(&["linux"])), "os_impl_Myq0Trait_linux");
    assert_eq!(fact_ident("quic", &strings(&["os_2"])), "os_impl_q1uic_osq02");
}

#[test]
fn different_pairs_get_different_identifiers() {
    let a = fact_ident("X_linux", &strings(&["windows"]));
    let b = fact_ident("X", &strings(&["linux", "windows"]));
    assert_ne!(a, b);
    let c = fact_ident("X", &strings(&["a_b"]));
    let d = fact_ident("X_a", &strings(&["b"]));
    assert_ne!(c, d);
}

#[test]
fn os_condition_lists_every_tag() {
    assert_eq!(
        os_condition(&strings(&["linux", "windows"])),
        "any(target_os = \"linux\", target_os = \"windows\")"
    );
    assert_eq!(os_condition(&strings(&["macos"])), "any(target_os = \"macos\")");
}

#[test]
fn fact_binding_source_text() {
    assert_eq!(
        fact_binding_source("G", &strings(&["linux"])),
        "pub const os_impl_G_linux: (&str, &[&str]) = (\"G\", &[\"linux\"]);"
    );
    assert_eq!(
        fact_binding_source("Greeter", &strings(&["linux", "windows"])),
        "pub const os_impl_Greeter_linux_windows: (&str, &[&str]) = \
         (\"Greeter\", &[\"linux\", \"windows\"]);"
    );
}

#[test]
fn registry_source_lists_bindings_then_collection() {
    let mut reg = Registry::new();
    reg.register("Greeter".to_string(), strings(&["linux"]));
    reg.register("Printer".to_string(), strings(&["windows", "macos"]));
    let expected = "pub const os_impl_Greeter_linux: (&str, &[&str]) = (\"Greeter\", &[\"linux\"]);\n\
                    pub const os_impl_Printer_windows_macos: (&str, &[&str]) = \
                    (\"Printer\", &[\"windows\", \"macos\"]);\n\
                    pub const OS_IMPLS: &[(&str, &[&str])] = \
                    &[os_impl_Greeter_linux, os_impl_Printer_windows_macos];\n";
    assert_eq!(registry_source(&reg), expected);
}

#[test]
fn duplicate_emission_does_not_corrupt_the_artifact() {
    let mut reg = Registry::new();
    reg.register("Greeter".to_string(), strings(&["linux"]));
    reg.register("Greeter".to_string(), strings(&["linux"]));
    assert_eq!(
        registry_source(&reg),
        "pub const os_impl_Greeter_linux: (&str, &[&str]) = (\"Greeter\", &[\"linux\"]);\n\
         pub const OS_IMPLS: &[(&str, &[&str])] = &[os_impl_Greeter_linux];\n"
    );
}

#[test]
fn empty_registry_source_is_only_the_collection() {
    let reg = Registry::new();
    assert_eq!(registry_source(&reg), "pub const OS_IMPLS: &[(&str, &[&str])] = &[];\n");
}

#[test]
fn supported_targets_compile_the_real_impl_only() {
    let implemented = strings(&["linux", "windows"]);
    for target in ["linux", "windows"] {
        let s = surface_for_target(&implemented, target);
        assert!(s.real_impl);
        assert!(!s.stub);
    }
}

#[test]
fn unsupported_target_compiles_the_stub_only() {
    let implemented = strings(&["linux", "windows"]);
    let s = surface_for_target(&implemented, "macos");
    assert!(!s.real_impl);
    assert!(s.stub);
}

#[test]
fn platform_implemented_beyond_the_requirement_gets_no_stub() {
    let implemented = strings(&["linux", "windows", "macos"]);
    let s = surface_for_target(&implemented, "macos");
    assert!(s.real_impl);
    assert!(!s.stub);
}
