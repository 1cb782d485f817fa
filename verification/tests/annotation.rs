//! Tests of `annotation`.
use leaf_codegen::annotation::{merge, resolve, AliasFor, Annotation, AttrValue};


fn component() -> Annotation {
    Annotation::new("leaf::Component")
}

fn controller() -> Annotation {
    Annotation::new("leaf::Controller").with_meta(component())
}

fn rest_controller() -> Annotation {
    Annotation::new("leaf::RestController").with_meta(controller())
}

#[test]
fn composed_annotation_merges_transitive_marker_closure() {
    let merged = merge(&rest_controller());
    assert_eq!(
        merged.markers,
        vec![
            "leaf::RestController".to_string(),
            "leaf::Controller".to_string(),
            "leaf::Component".to_string(),
        ],
        "the flattened set is the self marker + the transitive meta closure"
    );
}

#[test]
fn distance_ranks_nearest_to_farthest() {
    let merged = merge(&rest_controller());
    assert_eq!(merged.distance_of("leaf::RestController"), Some(0));
    assert_eq!(merged.distance_of("leaf::Controller"), Some(1));
    assert_eq!(merged.distance_of("leaf::Component"), Some(2));
    assert_eq!(merged.distance_of("leaf::Service"), None);
}

#[test]
fn distance_keeps_the_shorter_path_in_a_diamond() {
    let a = Annotation::new("leaf::A").with_meta(component());
    let near = Annotation::new("leaf::Near")
        .with_meta(component()) // distance 1
        .with_meta(a); // also reaches @Component at distance 2
    let merged = merge(&near);
    assert_eq!(
        merged.distance_of("leaf::Component"),
        Some(1),
        "nearest path wins"
    );
}

#[test]
fn merge_resolves_attributes_nearest_wins() {
    let component_with_attr = Annotation::new("leaf::Component")
        .with_attr("name", AttrValue::Str(String::new()));
    let service = Annotation::new("leaf::Service")
        .with_attr("name", AttrValue::Str("svc".into()))
        .with_meta(component_with_attr);
    let merged = merge(&service);
    assert_eq!(
        merged.attr("name"),
        Some(&AttrValue::Str("svc".into())),
        "the nearest (distance-0) explicit attribute wins"
    );
}

#[test]
fn merge_inherits_attribute_from_meta_when_nearer_absent() {
    let qualifier = Annotation::new("leaf::Qualifier")
        .with_attr("value", AttrValue::Str("fast".into()));
    let composed = Annotation::new("leaf::Fast").with_meta(qualifier);
    let merged = merge(&composed);
    assert_eq!(merged.attr("value"), Some(&AttrValue::Str("fast".into())));
}

#[test]
fn explicit_alias_mirrors_within_the_same_annotation() {
    let ann = Annotation::new("leaf::Service")
        .with_attr("value", AttrValue::Str("userService".into()))
        .with_default("value", AttrValue::Str(String::new()))
        .with_default("name", AttrValue::Str(String::new()))
        .with_alias(AliasFor {
            from_attr: "value".into(),
            target_marker: None,
            target_attr: "name".into(),
        })
        .with_alias(AliasFor {
            from_attr: "name".into(),
            target_marker: None,
            target_attr: "value".into(),
        });
    let merged = resolve(&ann).expect("a well-formed explicit alias resolves");
    assert_eq!(merged.attr("value"), Some(&AttrValue::Str("userService".into())));
    assert_eq!(
        merged.attr("name"),
        Some(&AttrValue::Str("userService".into())),
        "the explicit alias mirrors the value onto its target attribute"
    );
}

#[test]
fn meta_override_alias_forwards_into_a_base_marker_attribute() {
    let component = Annotation::new("leaf::Component")
        .with_attr("name", AttrValue::Str(String::new()));
    let my = Annotation::new("leaf::MyComponent")
        .with_attr("name", AttrValue::Str("x".into()))
        .with_alias(AliasFor {
            from_attr: "name".into(),
            target_marker: Some("leaf::Component".into()),
            target_attr: "name".into(),
        })
        .with_meta(component);
    let merged = resolve(&my).expect("a well-formed meta override resolves");
    assert_eq!(merged.attr("name"), Some(&AttrValue::Str("x".into())));
}

#[test]
fn conflicting_aliases_error() {
    let ann = Annotation::new("leaf::Bad")
        .with_alias(AliasFor {
            from_attr: "value".into(),
            target_marker: None,
            target_attr: "name".into(),
        })
        .with_alias(AliasFor {
            from_attr: "value".into(),
            target_marker: None,
            target_attr: "id".into(),
        });
    let err = resolve(&ann).expect_err("conflicting alias targets must error");
    assert_eq!(err.on_marker, "leaf::Bad");
    assert!(err.message.contains("conflicting"), "got: {}", err.message);
}

#[test]
fn non_reciprocal_explicit_alias_errors() {
    let ann = Annotation::new("leaf::OneWay").with_alias(AliasFor {
        from_attr: "value".into(),
        target_marker: None,
        target_attr: "name".into(),
    });
    let err = resolve(&ann).expect_err("a one-way explicit alias must error");
    assert!(err.message.contains("reciprocal"), "got: {}", err.message);
}

#[test]
fn mismatched_aliased_defaults_error() {
    let ann = Annotation::new("leaf::Mismatch")
        .with_default("value", AttrValue::Str("a".into()))
        .with_default("name", AttrValue::Str("b".into()))
        .with_alias(AliasFor {
            from_attr: "value".into(),
            target_marker: None,
            target_attr: "name".into(),
        })
        .with_alias(AliasFor {
            from_attr: "name".into(),
            target_marker: None,
            target_attr: "value".into(),
        });
    let err = resolve(&ann).expect_err("mismatched defaults must error");
    assert!(err.message.contains("default"), "got: {}", err.message);
}

#[test]
fn self_alias_errors() {
    let ann = Annotation::new("leaf::SelfRef").with_alias(AliasFor {
        from_attr: "value".into(),
        target_marker: None,
        target_attr: "value".into(),
    });
    let err = resolve(&ann).expect_err("a self-alias must error");
    assert!(err.message.contains("itself"), "got: {}", err.message);
}

fn flat(text: &str) -> String {
    let tokens = text.parse::<proc_macro2::TokenStream>().expect("tokens");
    tokens.to_string().split_whitespace().collect::<String>()
}

#[test]
fn lower_emits_absolute_core_annotation_metadata() {
    let merged = resolve(&component()).expect("resolves");
    let ts = merged.lower();
    let s = flat(&ts);
    assert!(s.contains("::leaf_core::AnnotationMetadata"), "got: {s}");
    assert!(s.contains(r#"::leaf_core::MarkerId::of("leaf::Component")"#), "got: {s}");
    for field in [
        "markers", "qualifiers", "depends_on", "candidate_role", "autowire_candidate",
    ] {
        assert!(s.contains(&format!("{field}:")), "missing field {field} in: {s}");
    }
}

#[test]
fn lower_marker_closure_is_distance_ordered() {
    let merged = resolve(&rest_controller()).expect("resolves");
    let s = flat(&merged.lower());
    let rc = s.find("RestController").expect("self marker present");
    let c = s.find(r#"of("leaf::Controller")"#).expect("controller present");
    let comp = s.find(r#"of("leaf::Component")"#).expect("component present");
    assert!(rc < c && c < comp, "markers must be nearest-first: {s}");
}

#[test]
fn lower_primary_and_fallback_attributes_set_candidate_role() {
    let ann = Annotation::new("leaf::Service")
        .with_attr("primary", AttrValue::Bool(true))
        .with_attr("fallback", AttrValue::Bool(true));
    let merged = resolve(&ann).expect("resolves");
    let s = flat(&merged.lower());
    assert!(s.contains("::leaf_core::CandidateRole"), "got: {s}");
    assert!(s.contains("FALLBACK") && s.contains("primary"), "got: {s}");
}

#[test]
fn lower_plain_role_is_normal_and_autowire_default_true() {
    let merged = resolve(&component()).expect("resolves");
    let s = flat(&merged.lower());
    assert!(s.contains("::leaf_core::CandidateRole::NORMAL"), "got: {s}");
    assert!(s.contains("autowire_candidate:true"), "got: {s}");
}

#[test]
fn lower_depends_on_emits_contract_ids() {
    let ann = Annotation::new("leaf::Service").with_attr(
        "depends_on",
        AttrValue::List(vec![
            AttrValue::Str("a::Foo".into()),
            AttrValue::Str("b::Bar".into()),
        ]),
    );
    let merged = resolve(&ann).expect("resolves");
    let s = flat(&merged.lower());
    assert!(s.contains(r#"::leaf_core::ContractId::of("a::Foo")"#), "got: {s}");
    assert!(s.contains(r#"::leaf_core::ContractId::of("b::Bar")"#), "got: {s}");
}

#[test]
fn lower_qualifiers_emit_marker_ids() {
    let ann = Annotation::new("leaf::Service").with_attr(
        "qualifiers",
        AttrValue::List(vec![AttrValue::Str("leaf::q::Fast".into())]),
    );
    let merged = resolve(&ann).expect("resolves");
    let s = flat(&merged.lower());
    assert!(s.contains(r#"::leaf_core::MarkerId::of("leaf::q::Fast")"#), "got: {s}");
}

#[test]
fn lower_output_parses_as_an_expression() {
    let merged = resolve(&rest_controller()).expect("resolves");
    let ts = merged.lower();
    syn::parse_str::<syn::Expr>(&ts).expect("lowered metadata is a valid expression");
}

#[test]
fn end_to_end_stereotype_with_meta_override_and_role_lowers() {
    let service = Annotation::new("leaf::Service").with_meta(component());
    let stereotype = Annotation::new("leaf::PrimaryService")
        .with_attr("primary", AttrValue::Bool(true))
        .with_attr("name", AttrValue::Str("widget".into()))
        .with_alias(AliasFor {
            from_attr: "name".into(),
            target_marker: Some("leaf::Service".into()),
            target_attr: "name".into(),
        })
        .with_meta(service);
    let merged = resolve(&stereotype).expect("the full pipeline resolves");
    assert_eq!(
        merged.markers,
        vec![
            "leaf::PrimaryService".to_string(),
            "leaf::Service".to_string(),
            "leaf::Component".to_string(),
        ]
    );
    assert_eq!(merged.attr("name"), Some(&AttrValue::Str("widget".into())));
    let ts = merged.lower();
    syn::parse_str::<syn::Expr>(&ts).expect("valid expr");
    let s = flat(&ts);
    assert!(s.contains("::leaf_core::CandidateRole::PRIMARY"), "got: {s}");
    assert!(s.contains(r#"of("leaf::PrimaryService")"#));
    assert!(s.contains(r#"of("leaf::Service")"#));
    assert!(s.contains(r#"of("leaf::Component")"#));
}

#[test]
fn merge_deduplicates_diamond_meta_closure() {
    let a = Annotation::new("leaf::A").with_meta(component());
    let b = Annotation::new("leaf::B").with_meta(component());
    let diamond = Annotation::new("leaf::Diamond").with_meta(a).with_meta(b);
    let merged = merge(&diamond);
    let comp_count =
        merged.markers.iter().filter(|m| *m == "leaf::Component").count();
    assert_eq!(comp_count, 1, "diamond meta closure deduplicates @Component");
    assert_eq!(merged.markers[0], "leaf::Diamond");
}
