//! Tests of `stereotype`.
use leaf_codegen::annotation::resolve;
use leaf_codegen::descriptor::{emit, BeanInput, Role, Scope};
use leaf_codegen::items::{Attr, Field, Fields, FnItem, Param, StructItem};
use leaf_codegen::stereotype::{
    bean_input, emit_register, emit_register_with, emit_struct, parse_args, register_input,
    register_input_with, struct_input, Stereotype, StereotypeArgs,
};

fn text<T: quote::ToTokens>(t: &T) -> String {
    t.to_token_stream().to_string()
}

fn attr_of(a: &syn::Attribute) -> Attr {
    Attr {
        source: text(a),
        ident: a.path().get_ident().map(|i| i.to_string()),
        last: a.path().segments.last().map_or(String::new(), |s| s.ident.to_string()),
        args: match &a.meta {
            syn::Meta::List(l) => Some(l.tokens.to_string()),
            _ => None,
        },
    }
}

fn field_of(f: &syn::Field) -> Field {
    Field {
        ident: f.ident.as_ref().map_or(String::new(), |i| i.to_string()),
        ty: text(&f.ty),
        attrs: f.attrs.iter().map(attr_of).collect(),
    }
}

fn fields_of(fields: &syn::Fields) -> Fields {
    match fields {
        syn::Fields::Named(n) => Fields::Named(n.named.iter().map(field_of).collect()),
        syn::Fields::Unnamed(u) => Fields::Unnamed(u.unnamed.iter().map(field_of).collect()),
        syn::Fields::Unit => Fields::Unit,
    }
}

fn item(src: &str) -> StructItem {
    let item: syn::ItemStruct = syn::parse_str(src).expect("a valid struct item");
    let (impl_generics, type_generics, where_clause) = item.generics.split_for_impl();
    StructItem {
        source: text(&item),
        ident: item.ident.to_string(),
        generic: !item.generics.params.is_empty(),
        has_where: item.generics.where_clause.is_some(),
        impl_generics: text(&impl_generics),
        type_generics: text(&type_generics),
        where_clause: text(&where_clause),
        fields: fields_of(&item.fields),
    }
}

fn params_of(sig: &syn::Signature) -> Vec<Param> {
    sig.inputs
        .iter()
        .map(|arg| match arg {
            syn::FnArg::Receiver(_) => Param::Receiver,
            syn::FnArg::Typed(t) => Param::Typed {
                name: match &*t.pat {
                    syn::Pat::Ident(i) => Some(i.ident.to_string()),
                    _ => None,
                },
                ty: text(&t.ty),
            },
        })
        .collect()
}

fn output_of(sig: &syn::Signature) -> Option<String> {
    match &sig.output {
        syn::ReturnType::Default => None,
        syn::ReturnType::Type(_, ty) => Some(text(ty)),
    }
}

fn func(src: &str) -> FnItem {
    let item: syn::ItemFn = syn::parse_str(src).expect("a valid fn item");
    FnItem {
        source: text(&item),
        ident: item.sig.ident.to_string(),
        generic: !item.sig.generics.params.is_empty(),
        params: params_of(&item.sig),
        output: output_of(&item.sig),
    }
}


fn squeezed(source: &str) -> String {
    let tokens = source.parse::<proc_macro2::TokenStream>().expect("tokens");
    tokens.to_string().split_whitespace().collect()
}

fn flat(input: &BeanInput) -> String {
    squeezed(&emit(input).expect("emits"))
}

#[test]
fn component_marker_closure_is_just_component() {
    let merged = resolve(&Stereotype::Component.annotation()).expect("resolves");
    assert_eq!(merged.markers, vec!["leaf::Component".to_string()]);
}

#[test]
fn service_transitively_implies_component() {
    let merged = resolve(&Stereotype::Service.annotation()).expect("resolves");
    assert_eq!(
        merged.markers,
        vec!["leaf::Service".to_string(), "leaf::Component".to_string()]
    );
}

#[test]
fn every_stereotype_transitively_carries_component() {
    for st in [
        Stereotype::Service,
        Stereotype::Repository,
        Stereotype::Controller,
        Stereotype::Configuration,
    ] {
        let merged = resolve(&st.annotation()).expect("resolves");
        assert!(
            merged.markers.contains(&"leaf::Component".to_string()),
            "{st:?} must transitively imply @component"
        );
        assert_eq!(merged.markers[0], st.marker_path(), "self marker is first");
    }
}

#[test]
fn unit_struct_lowers_to_a_no_dependency_bean() {
    let input = struct_input(
        &item("struct Greeter;"),
        Stereotype::Component,
        None,
        None,
        Scope::Singleton,
    )
    .expect("a unit struct lowers");
    assert!(input.deps.is_empty(), "a unit struct has no injection points");
    assert_eq!(input.ident, "Greeter");
    assert!(input.module_qualified, "the contract is module-qualified");
    let s = flat(&input);
    assert!(s.contains(r#"Some("greeter")"#), "got: {s}");
}

#[test]
fn named_fields_become_named_injection_points() {
    let input = struct_input(
        &item("struct Loud { greeter: leaf_core::Ref<Greeter>, more: leaf_core::Ref<Other> }"),
        Stereotype::Component,
        None,
        None,
        Scope::Singleton,
    )
    .expect("lowers");
    assert_eq!(input.deps.len(), 2);
    assert_eq!(input.deps[0].name, "greeter");
    assert_eq!(input.deps[1].name, "more");
    let s = flat(&input);
    assert!(
        s.contains("<leaf_core::Ref<Greeter>as::leaf_core::Injectable>::inject(__cx).await?"),
        "got: {s}"
    );
}

#[test]
fn a_ref_handle_field_resolves_through_the_injectable_trait_verbatim() {
    let input = struct_input(
        &item("struct Loud { greeter: leaf_core::Ref<Greeter> }"),
        Stereotype::Component,
        None,
        None,
        Scope::Singleton,
    )
    .expect("lowers");
    assert_eq!(input.deps.len(), 1);
    let s = flat(&input);
    assert!(
        s.contains("<leaf_core::Ref<Greeter>as::leaf_core::Injectable>::inject(__cx).await?"),
        "got: {s}"
    );
    assert!(!s.contains("__engine.get::<Greeter>"), "got: {s}");
}

#[test]
fn field_default_resolves_through_the_injectable_trait_not_a_name_strip() {
    let input = struct_input(
        &item("struct Foo { dep: leaf_core::Ref<Bar> }"),
        Stereotype::Component,
        None,
        None,
        Scope::Singleton,
    )
    .expect("lowers");
    assert_eq!(input.deps.len(), 1);
    assert!(input.inject_via_trait, "the field-default routes through the trait");
    let s = flat(&input);
    assert!(
        s.contains(
            "<leaf_core::Ref<Bar>as::leaf_core::Injectable>::RESOLVABLE"
        ),
        "the injection point derives from `<FieldTy as Injectable>::RESOLVABLE`: {s}"
    );
    assert!(
        s.contains("<leaf_core::Ref<Bar>as::leaf_core::Injectable>::inject(__cx).await?"),
        "the provider resolves via `<FieldTy as Injectable>::inject`: {s}"
    );
    assert!(!s.contains("__engine.get::<Bar>"), "no name-stripped engine resolve: {s}");
    assert!(!s.contains("InjectionPoint::single"), "no name-stripped point: {s}");
}

#[test]
fn tuple_fields_become_positional_injection_points() {
    let input = struct_input(
        &item("struct Pair(Greeter, usize);"),
        Stereotype::Component,
        None,
        None,
        Scope::Singleton,
    )
    .expect("lowers");
    assert_eq!(input.deps.len(), 2);
    assert_eq!(input.deps[0].name, "_0");
    assert_eq!(input.deps[1].name, "_1");
}

#[test]
fn explicit_name_flows_through_to_the_input() {
    let input = struct_input(
        &item("struct Greeter;"),
        Stereotype::Component,
        Some("theGreeter".into()),
        None,
        Scope::Singleton,
    )
    .expect("lowers");
    assert_eq!(input.explicit_name, Some("theGreeter".into()));
}

#[test]
fn service_input_carries_the_service_marker() {
    let input = struct_input(
        &item("struct UserService;"),
        Stereotype::Service,
        None,
        None,
        Scope::Singleton,
    )
    .expect("lowers");
    let s = flat(&input);
    assert!(s.contains(r#"::leaf_core::MarkerId::of("leaf::Service")"#), "got: {s}");
    assert!(s.contains(r#"::leaf_core::MarkerId::of("leaf::Component")"#), "got: {s}");
}

#[test]
fn parse_args_empty_is_the_default() {
    let args = parse_args("").expect("empty parses");
    assert_eq!(args, StereotypeArgs::default());
    assert_eq!(args.scope, Scope::Singleton);
}

#[test]
fn parse_args_reads_name_and_scope() {
    let attr =
        r#"name = "userService", scope = "prototype""#;
    let args = parse_args(attr).expect("parses");
    assert_eq!(args.name, Some("userService".into()));
    assert_eq!(args.scope, Scope::Prototype);
}

#[test]
fn parse_args_rejects_unknown_key() {
    let attr = r#"bogus = "x""#;
    let err = parse_args(attr).expect_err("unknown key errors");
    assert!(err.message.contains("unknown stereotype argument"), "got: {}", err.message);
}

#[test]
fn parse_args_rejects_unknown_scope() {
    let attr = r#"scope = "galaxy""#;
    let err = parse_args(attr).expect_err("unknown scope errors");
    assert!(err.message.contains("unknown scope"), "got: {}", err.message);
}

#[test]
fn parse_args_reads_an_infrastructure_role() {
    let attr =
        r#"role = "infrastructure", name = "applicationTaskExecutor""#;
    let args = parse_args(attr).expect("parses");
    assert_eq!(args.role, Some(Role::Infrastructure));
    assert_eq!(args.name, Some("applicationTaskExecutor".into()));
}

#[test]
fn parse_args_rejects_an_unknown_role() {
    let attr = r#"role = "wizard""#;
    let err = parse_args(attr).expect_err("unknown role errors");
    assert!(err.message.contains("unknown role"), "got: {}", err.message);
}

#[test]
fn an_explicit_role_arg_overrides_the_stereotype_role_in_the_emitted_descriptor() {
    let ts = emit_struct(
        &item("struct TokioExecutionFacility;"),
        Stereotype::Component,
        r#"role = "infrastructure", name = "applicationTaskExecutor""#,
    )
    .expect("emits");
    let s: String = squeezed(&ts);
    assert!(s.contains("role:::leaf_core::Role::Infrastructure"), "got: {s}");
    assert!(s.contains(r#"Some("applicationTaskExecutor")"#), "got: {s}");
}

#[test]
fn no_role_arg_keeps_the_stereotype_role_application() {
    let input = struct_input(
        &item("struct Greeter;"),
        Stereotype::Component,
        None,
        None,
        Scope::Singleton,
    )
    .expect("lowers");
    let s = flat(&input);
    assert!(s.contains("role:::leaf_core::Role::Application"), "got: {s}");
}

#[test]
fn emit_struct_is_the_one_thin_macro_entry_point() {
    let ts = emit_struct(
        &item("struct Greeter;"),
        Stereotype::Component,
        "",
    )
    .expect("emits");
    syn::parse_str::<syn::File>(&ts).expect("valid items");
    let s: String = squeezed(&ts);
    assert!(
        s.contains("#[::leaf_core::linkme::distributed_slice(::leaf_core::COMPONENTS)]"),
        "got: {s}"
    );
    assert!(s.contains("impl::leaf_core::BeanforGreeter{}"), "got: {s}");
}

#[test]
fn emit_struct_honours_an_explicit_name_arg() {
    let attr =
        r#"name = "theGreeter""#;
    let ts = emit_struct(&item("struct Greeter;"), Stereotype::Component, attr)
        .expect("emits");
    let s: String = squeezed(&ts);
    assert!(s.contains(r#"Some("theGreeter")"#), "got: {s}");
}

#[test]
fn emit_struct_propagates_the_generic_hard_error() {
    let err = emit_struct(
        &item("struct Repo<T> { inner: T }"),
        Stereotype::Component,
        "",
    )
    .expect_err("generic struct hard-errors");
    assert!(err.message.contains("register_component!"), "got: {}", err.message);
}

#[test]
fn register_component_lowers_a_concrete_instantiation() {
    let ty = "Repo<u32>";
    let input = register_input(ty).expect("lowers");
    assert_eq!(input.ident, "Repo");
    assert!(input.deps.is_empty());
    assert!(!input.is_generic, "the concrete instantiation is not 'generic' here");
    let s = flat(&input);
    assert!(s.contains(r#"Some("repo")"#), "got: {s}");
    assert!(s.contains("::core::any::TypeId::of::<Repo<u32>>()"), "got: {s}");
    assert!(s.contains("<Repo<u32>>::new()"), "got: {s}");
}

#[test]
fn emit_register_emits_a_components_row() {
    let ty = "Repo<u32>";
    let ts = emit_register(ty).expect("emits");
    syn::parse_str::<syn::File>(&ts).expect("valid items");
    let s: String = squeezed(&ts);
    assert!(
        s.contains("#[::leaf_core::linkme::distributed_slice(::leaf_core::COMPONENTS)]"),
        "got: {s}"
    );
}

#[test]
fn register_input_with_carries_an_infrastructure_role_and_custom_name() {
    let ty = "TokioExecutionFacility";
    let input = register_input_with(
        ty,
        Some("applicationTaskExecutor".into()),
        Some(Role::Infrastructure),
    )
    .expect("lowers");
    assert!(input.deps.is_empty(), "no field injection on the register form");
    assert_eq!(input.role, Role::Infrastructure);
    assert_eq!(input.explicit_name, Some("applicationTaskExecutor".into()));
    let s = flat(&input);
    assert!(s.contains("role:::leaf_core::Role::Infrastructure"), "got: {s}");
    assert!(s.contains(r#"Some("applicationTaskExecutor")"#), "got: {s}");
    assert!(s.contains("<TokioExecutionFacility>::new()"), "got: {s}");
}

#[test]
fn emit_register_with_emits_the_full_components_and_seed_row() {
    let ty = "TokioExecutionFacility";
    let ts = emit_register_with(
        ty,
        Some("applicationTaskExecutor".into()),
        Some(Role::Infrastructure),
    )
    .expect("emits");
    syn::parse_str::<syn::File>(&ts).expect("valid items");
    let s: String = squeezed(&ts);
    assert!(
        s.contains("#[::leaf_core::linkme::distributed_slice(::leaf_core::COMPONENTS)]"),
        "got: {s}"
    );
    assert!(
        s.contains("#[::leaf_core::linkme::distributed_slice(::leaf_core::SEED_PAIRINGS)]"),
        "got: {s}"
    );
}

#[test]
fn bean_factory_fn_lowers_to_the_same_row_with_a_fn_ctor() {
    let input = bean_input(
        &func("fn data_source(cfg: leaf_core::Ref<Config>) -> DataSource { todo!() }"),
        None,
        Scope::Singleton,
    )
    .expect("a @bean fn lowers");
    assert_eq!(input.ident, "data_source");
    assert_eq!(input.deps.len(), 1);
    assert_eq!(input.deps[0].name, "cfg");
    let s = flat(&input);
    assert!(s.contains("::core::any::TypeId::of::<DataSource>()"), "got: {s}");
    assert!(s.contains(r#"Some("data_source")"#), "got: {s}");
    assert!(s.contains("data_source(__dep_cfg)"), "got: {s}");
    assert!(s.contains("__engine.get::<Config>().await?"), "got: {s}");
}

#[test]
fn bean_factory_fn_with_no_deps_lowers() {
    let input = bean_input(&func("fn clock() -> Clock { todo!() }"), None, Scope::Singleton)
        .expect("lowers");
    assert!(input.deps.is_empty());
    let s = flat(&input);
    assert!(s.contains("clock()"), "got: {s}");
}

#[test]
fn bean_with_no_return_type_is_an_error() {
    let err = bean_input(&func("fn nope() {}"), None, Scope::Singleton)
        .expect_err("a @bean must produce a value");
    assert!(err.message.contains("no return type"), "got: {}", err.message);
}

#[test]
fn bean_with_a_self_receiver_is_a_deferred_error() {
    let err = bean_input(
        &func("fn data_source(&self) -> DataSource { todo!() }"),
        None,
        Scope::Singleton,
    )
    .expect_err("the config-method form is deferred");
    assert!(err.message.contains("self"), "got: {}", err.message);
}

#[test]
fn generic_bean_factory_is_a_hard_error() {
    let err = bean_input(
        &func("fn make<T>() -> Wrap<T> { todo!() }"),
        None,
        Scope::Singleton,
    )
    .expect_err("a generic factory hard-errors");
    assert!(err.message.contains("register_component!"), "got: {}", err.message);
}

#[test]
fn generic_struct_is_a_hard_error_with_the_register_component_hint() {
    let input = struct_input(
        &item("struct Repo<T> { inner: T }"),
        Stereotype::Component,
        None,
        None,
        Scope::Singleton,
    )
    .expect("lowering itself succeeds; the emitter rejects the generic");
    assert!(input.is_generic);
    let err = emit(&input).expect_err("a generic bean must hard-error");
    assert!(err.message.contains("generic"), "got: {}", err.message);
    assert!(
        err.message.contains("register_component!"),
        "got: {}",
        err.message
    );
}
