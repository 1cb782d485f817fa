//! Tests of `descriptor`.
use leaf_codegen::annotation::{resolve, Annotation, AttrValue};
use leaf_codegen::descriptor::{
    emit, BeanInput, Dependency, Role, Scope, ServiceView, Slice,
};

fn ty(s: &str) -> String {
    syn::parse_str::<syn::Type>(s).expect("a valid type");
    s.to_string()
}


fn flat(text: &str) -> String {
    let tokens = text.parse::<proc_macro2::TokenStream>().expect("tokens");
    tokens.to_string().split_whitespace().collect::<String>()
}

fn foo_with_bar() -> BeanInput {
    let mut input = BeanInput::new(&ty("Foo"), "Foo", "crate::Foo");
    input.deps.push(Dependency { name: "bar".into(), ty: ty("Bar") });
    input
}

#[test]
fn emits_an_absolute_core_descriptor_const_row() {
    let ts = emit(&foo_with_bar()).expect("a concrete bean emits");
    syn::parse_str::<syn::File>(&ts).expect("the emitted artifact is valid Rust items");
    let s = flat(&ts);
    assert!(s.contains("::leaf_core::Descriptor"), "got: {s}");
}

#[test]
fn descriptor_carries_the_contract_id_and_derived_name() {
    let ts = emit(&foo_with_bar()).expect("emits");
    let s = flat(&ts);
    assert!(s.contains(r#"::leaf_core::ContractId::of("crate::Foo")"#), "got: {s}");
    assert!(s.contains(r#"declared_name:::core::option::Option::Some("foo")"#), "got: {s}");
}

#[test]
fn module_qualified_contract_uses_module_path_at_the_definition_site() {
    let mut input = foo_with_bar();
    input.module_qualified = true;
    let s = flat(&emit(&input).expect("emits"));
    assert!(
        s.contains(
            r#"::leaf_core::ContractId::of(::core::concat!(::core::module_path!(),"::","Foo"))"#
        ),
        "got: {s}"
    );
}

#[test]
fn explicit_name_overrides_the_derived_one() {
    let mut input = foo_with_bar();
    input.explicit_name = Some("fooBean".into());
    let s = flat(&emit(&input).expect("emits"));
    assert!(s.contains(r#"Some("fooBean")"#), "got: {s}");
    assert!(!s.contains(r#"Some("foo")"#), "derived name must not also appear: {s}");
}

#[test]
fn self_type_is_emitted_through_the_const_typeid_seam() {
    let s = flat(&emit(&foo_with_bar()).expect("emits"));
    assert!(
        s.contains("self_type:const{::core::any::TypeId::of::<Foo>()}"),
        "got: {s}"
    );
}

#[test]
fn injection_plan_has_one_point_per_constructor_dependency() {
    let s = flat(&emit(&foo_with_bar()).expect("emits"));
    assert!(s.contains("::leaf_core::InjectionPlan"), "got: {s}");
    assert!(
        s.contains(
            r#"::leaf_core::InjectionPoint::single(const{::core::any::TypeId::of::<Bar>()},"bar")"#
        ),
        "got: {s}"
    );
    assert_eq!(s.matches("InjectionPoint::single").count(), 1, "got: {s}");
}

#[test]
fn a_bean_with_no_dependencies_has_an_empty_plan() {
    let input = BeanInput::new(&ty("Foo"), "Foo", "crate::Foo");
    let s = flat(&emit(&input).expect("emits"));
    assert!(s.contains("::leaf_core::InjectionPlan"), "got: {s}");
    assert_eq!(s.matches("InjectionPoint::single").count(), 0, "got: {s}");
}

#[test]
fn provider_seed_is_a_const_fn_pointer_that_builds_a_provider() {
    let s = flat(&emit(&foo_with_bar()).expect("emits"));
    assert!(s.contains("::leaf_core::ProviderSeed"), "got: {s}");
    assert!(s.contains("impl::leaf_core::Providerfor"), "got: {s}");
    assert!(s.contains("::std::sync::Arc::new"), "got: {s}");
}

#[test]
fn provider_resolves_each_dependency_and_invokes_the_constructor() {
    let s = flat(&emit(&foo_with_bar()).expect("emits"));
    assert!(s.contains("__engine.get::<Bar>().await?"), "got: {s}");
    assert!(s.contains("<Foo>::new(__dep_bar)"), "got: {s}");
    assert!(s.contains("::leaf_core::Published::shared_value"), "got: {s}");
}

#[test]
fn descriptor_is_submitted_into_the_components_linkme_slice() {
    let s = flat(&emit(&foo_with_bar()).expect("emits"));
    assert!(
        s.contains("#[::leaf_core::linkme::distributed_slice(::leaf_core::COMPONENTS)]"),
        "got: {s}"
    );
    assert!(s.contains("#[linkme(crate=::leaf_core::linkme)]"), "got: {s}");
}

#[test]
fn seed_and_injection_plan_are_submitted_into_their_pairing_slices() {
    let s = flat(&emit(&foo_with_bar()).expect("emits"));
    assert!(
        s.contains("#[::leaf_core::linkme::distributed_slice(::leaf_core::SEED_PAIRINGS)]"),
        "got: {s}"
    );
    assert!(s.contains("::leaf_core::SeedPairingRow{contract:"), "got: {s}");
    assert!(s.contains("seed:__leaf_seed_Foo"), "got: {s}");
    assert!(
        s.contains(
            "#[::leaf_core::linkme::distributed_slice(::leaf_core::INJECTION_PLAN_PAIRINGS)]"
        ),
        "got: {s}"
    );
    assert!(s.contains("::leaf_core::InjectionPlanPairingRow{contract:"), "got: {s}");
}

#[test]
fn an_auto_config_bean_targets_the_auto_configs_slice() {
    let mut input = foo_with_bar();
    input.slice = Slice::AutoConfigs;
    let s = flat(&emit(&input).expect("emits"));
    assert!(
        s.contains("#[::leaf_core::linkme::distributed_slice(::leaf_core::AUTO_CONFIGS)]"),
        "got: {s}"
    );
    assert!(
        !s.contains("#[::leaf_core::linkme::distributed_slice(::leaf_core::COMPONENTS)]"),
        "an auto-config must not be in COMPONENTS: {s}"
    );
}

#[test]
fn the_default_slice_is_components() {
    let s = flat(&emit(&foo_with_bar()).expect("emits"));
    assert!(
        s.contains("#[::leaf_core::linkme::distributed_slice(::leaf_core::COMPONENTS)]"),
        "got: {s}"
    );
}

#[test]
fn the_bean_gets_a_leaf_core_bean_impl_so_it_is_engine_resolvable() {
    let s = flat(&emit(&foo_with_bar()).expect("emits"));
    assert!(s.contains("impl::leaf_core::BeanforFoo{}"), "got: {s}");
}

#[test]
fn the_provider_seed_is_a_public_const_under_a_deterministic_ident() {
    let s = flat(&emit(&foo_with_bar()).expect("emits"));
    assert!(
        s.contains("pubconst__leaf_seed_Foo:::leaf_core::ProviderSeed"),
        "got: {s}"
    );
}

#[test]
fn role_axis_is_emitted_from_the_input() {
    let mut input = foo_with_bar();
    input.role = Role::Infrastructure;
    let s = flat(&emit(&input).expect("emits"));
    assert!(s.contains("role:::leaf_core::Role::Infrastructure"), "got: {s}");
}

#[test]
fn default_role_is_application_and_default_scope_is_singleton() {
    let s = flat(&emit(&foo_with_bar()).expect("emits"));
    assert!(s.contains("role:::leaf_core::Role::Application"), "got: {s}");
    assert!(s.contains("scope:::leaf_core::ScopeDef::SINGLETON"), "got: {s}");
}

#[test]
fn prototype_and_request_scopes_lower_to_their_const_triples() {
    let mut proto = foo_with_bar();
    proto.scope = Scope::Prototype;
    assert!(
        flat(&emit(&proto).expect("emits")).contains("::leaf_core::ScopeDef::PROTOTYPE")
    );
    let mut req = foo_with_bar();
    req.scope = Scope::Request;
    assert!(
        flat(&emit(&req).expect("emits")).contains("::leaf_core::ScopeDef::REQUEST")
    );
}

#[test]
fn candidate_role_rides_the_annotation_metadata() {
    let mut input = foo_with_bar();
    input.meta = resolve(
        &Annotation::new("leaf::Service").with_attr("primary", AttrValue::Bool(true)),
    )
    .expect("resolves");
    let s = flat(&emit(&input).expect("emits"));
    assert!(s.contains("::leaf_core::CandidateRole::PRIMARY"), "got: {s}");
}

#[test]
fn declared_service_views_emit_typerow_upcast_rows() {
    let mut input = foo_with_bar();
    input.provides.push(ServiceView { dyn_ty: ty("dyn Greeter") });
    let s = flat(&emit(&input).expect("emits"));
    assert!(s.contains("::leaf_core::TypeRow"), "got: {s}");
    assert!(
        s.contains("view:const{::core::any::TypeId::of::<dynGreeter>()}"),
        "got: {s}"
    );
    assert!(s.contains("upcast:|__bean:::leaf_core::ErasedBean|"), "got: {s}");
}

#[test]
fn no_declared_views_emit_an_empty_provides_slice() {
    let s = flat(&emit(&foo_with_bar()).expect("emits"));
    assert!(s.contains("provides:&[]"), "got: {s}");
}

#[test]
fn the_meta_markers_are_flattened_by_the_annotation_engine() {
    let mut input = foo_with_bar();
    let rest = Annotation::new("leaf::RestController")
        .with_meta(Annotation::new("leaf::Controller").with_meta(Annotation::new("leaf::Component")));
    input.meta = resolve(&rest).expect("resolves");
    let s = flat(&emit(&input).expect("emits"));
    assert!(s.contains(r#"::leaf_core::MarkerId::of("leaf::RestController")"#), "got: {s}");
    assert!(s.contains(r#"::leaf_core::MarkerId::of("leaf::Component")"#), "got: {s}");
}

#[test]
fn generic_bean_is_a_hard_error_with_a_register_component_hint() {
    let mut input = BeanInput::new(&ty("Repo<T>"), "Repo", "crate::Repo");
    input.is_generic = true;
    let err = emit(&input).expect_err("a generic bean must hard-error");
    assert!(err.message.contains("generic"), "got: {}", err.message);
    assert!(err.message.contains("register_component!"), "got: {}", err.message);
}

#[test]
fn factory_fn_bean_emits_through_the_same_const_row_shape() {
    let mut input = BeanInput::new(&ty("Svc"), "Svc", "crate::make");
    input.deps.push(Dependency { name: "a".into(), ty: ty("A") });
    input.deps.push(Dependency { name: "b".into(), ty: ty("B") });
    let ts = emit(&input).expect("emits");
    syn::parse_str::<syn::File>(&ts).expect("valid items");
    let s = flat(&ts);
    assert_eq!(s.matches("InjectionPoint::single").count(), 2, "got: {s}");
    assert!(s.contains("__engine.get::<A>().await?"), "got: {s}");
    assert!(s.contains("__engine.get::<B>().await?"), "got: {s}");
}

#[test]
fn a_bean_factory_fn_calls_the_free_function_instead_of_new() {
    let mut input = BeanInput::new(&ty("Svc"), "Svc", "crate::make_svc");
    input.deps.push(Dependency { name: "dep".into(), ty: ty("Dep") });
    input.ctor = Some("make_svc".into());
    let s = flat(&emit(&input).expect("emits"));
    assert!(s.contains("make_svc(__dep_dep)"), "got: {s}");
    assert!(!s.contains("Svc::new("), "the factory fn replaces ::new: {s}");
    assert!(s.contains("__engine.get::<Dep>().await?"), "got: {s}");
}

#[test]
fn a_configuration_class_bean_method_resolves_the_config_receiver_and_calls_the_method() {
    let mut input = BeanInput::new(&ty("Pool"), "pool", "crate::AppConfig::pool");
    input.deps.push(Dependency { name: "cfg".into(), ty: ty("DbConfig") });
    input.ctor = Some("pool".into());
    input.receiver_ty = Some(ty("AppConfig"));
    let ts = emit(&input).expect("emits");
    syn::parse_str::<syn::File>(&ts).expect("valid items");
    let s = flat(&ts);
    assert!(s.contains("let__recv:::leaf_core::Ref<AppConfig>=__engine.get::<AppConfig>().await?"), "got: {s}");
    assert!(s.contains("__engine.get::<DbConfig>().await?"), "got: {s}");
    assert!(s.contains("__recv.pool(__dep_cfg)"), "got: {s}");
    assert!(!s.contains("<Pool>::new("), "a config-method bean is not a ::new ctor: {s}");
}

#[test]
fn the_whole_emitted_artifact_is_a_valid_rust_file() {
    let mut input = foo_with_bar();
    input.role = Role::Support;
    input.scope = Scope::Prototype;
    input.explicit_name = Some("theFoo".into());
    input.provides.push(ServiceView { dyn_ty: ty("dyn Greeter") });
    input.deps.push(Dependency { name: "baz".into(), ty: ty("Baz") });
    input.meta = resolve(
        &Annotation::new("leaf::Service")
            .with_attr("qualifiers", AttrValue::List(vec![AttrValue::Str("leaf::q::Fast".into())])),
    )
    .expect("resolves");
    let ts = emit(&input).expect("emits");
    syn::parse_str::<syn::File>(&ts).expect("the full artifact is valid Rust");
}
