//! Tests of `forcelink`.
use leaf_codegen::forcelink::{
    crate_ident, emit, emit_expected_manifest, emit_force_link, ParticipatingSet,
};


fn flat(text: &str) -> String {
    let tokens = text.parse::<proc_macro2::TokenStream>().expect("tokens");
    tokens.to_string().split_whitespace().collect::<String>()
}

fn participating() -> ParticipatingSet {
    ParticipatingSet::from_names(&["leaf-redis", "leaf-tokio"])
}

#[test]
fn crate_ident_maps_dashes_to_underscores() {
    assert_eq!(crate_ident("leaf-redis"), "leaf_redis");
    assert_eq!(crate_ident("leaf"), "leaf");
    assert_eq!(crate_ident("my-cool-crate"), "my_cool_crate");
}

#[test]
fn participating_set_is_deduplicated_and_sorted() {
    let mut set = ParticipatingSet::new();
    set.add("leaf-tokio");
    set.add("leaf-redis");
    set.add("leaf-tokio"); // duplicate
    assert_eq!(set.len(), 2);
    assert_eq!(set.names(), vec!["leaf-redis", "leaf-tokio"]);
}

#[test]
fn force_link_emits_one_use_as_underscore_per_crate() {
    let ts = emit_force_link(&participating());
    syn::parse_str::<syn::File>(&ts).expect("force-link shim is valid Rust items");
    let s = flat(&ts);
    assert!(s.contains("useleaf_redisas_;"), "got: {s}");
    assert!(s.contains("useleaf_tokioas_;"), "got: {s}");
    assert_eq!(s.matches("as_;").count(), 2, "got: {s}");
}

#[test]
fn force_link_is_wrapped_in_a_hidden_private_module() {
    let s = flat(&emit_force_link(&participating()));
    assert!(s.contains("#[doc(hidden)]"), "got: {s}");
    assert!(s.contains("mod__leaf_force_link"), "got: {s}");
}

#[test]
fn force_link_for_an_empty_set_emits_an_empty_module() {
    let ts = emit_force_link(&ParticipatingSet::new());
    syn::parse_str::<syn::File>(&ts).expect("empty shim is valid Rust");
    let s = flat(&ts);
    assert_eq!(s.matches("as_;").count(), 0, "got: {s}");
}

#[test]
fn expected_manifest_emits_a_source_tag_per_crate_by_package_name() {
    let ts = emit_expected_manifest(&participating());
    syn::parse_str::<syn::File>(&ts).expect("manifest is valid Rust items");
    let s = flat(&ts);
    assert!(s.contains("&[::leaf_core::SourceTag"), "got: {s}");
    assert!(s.contains(r#"::leaf_core::SourceTag("leaf-redis")"#), "got: {s}");
    assert!(s.contains(r#"::leaf_core::SourceTag("leaf-tokio")"#), "got: {s}");
    assert!(!s.contains("leaf_redis"), "manifest must use package names: {s}");
}

#[test]
fn expected_manifest_is_a_named_const_for_the_assembly_pass() {
    let s = flat(&emit_expected_manifest(&participating()));
    assert!(s.contains("const__LEAF_EXPECTED_MANIFEST:"), "got: {s}");
}

#[test]
fn expected_manifest_is_deterministic_across_insertion_order() {
    let a = ParticipatingSet::from_names(&["leaf-redis", "leaf-tokio", "leaf"]);
    let b = ParticipatingSet::from_names(&["leaf", "leaf-tokio", "leaf-redis"]);
    assert_eq!(
        flat(&emit_expected_manifest(&a)),
        flat(&emit_expected_manifest(&b)),
    );
}

#[test]
fn emit_combines_both_anti_dce_halves_into_one_artifact() {
    let ts = emit(&participating());
    syn::parse_str::<syn::File>(&ts).expect("the whole artifact is valid Rust");
    let s = flat(&ts);
    assert!(s.contains("mod__leaf_force_link"), "got: {s}");
    assert!(s.contains("__LEAF_EXPECTED_MANIFEST"), "got: {s}");
}
