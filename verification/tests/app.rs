//! Tests of `app`.
use leaf_codegen::app::{
    emit_failure_analyzer, emit_main, emit_runner, emit_runner_upcast, parse_main_args, MainArgs,
};
use leaf_codegen::items::{Attr, Field, Fields, FnItem, Param, StructItem};

fn text<T: quote::ToTokens>(t: &T) -> String {
    t.to_token_stream().to_string()
}

fn attr_of(a: &syn::Attribute) -> Attr {
    Attr {
        source: text(a),
        ident: a.path().get_ident().map(|i| i.to_string()),
        last: a.path().segments.last().map_or(String::new(), |s| s.ident.to_string()),
        args: match &a.meta {
            syn::Meta::List(l) => Some(l.tokens.to_string()),
            _ => None,
        },
    }
}

fn field_of(f: &syn::Field) -> Field {
    Field {
        ident: f.ident.as_ref().map_or(String::new(), |i| i.to_string()),
        ty: text(&f.ty),
        attrs: f.attrs.iter().map(attr_of).collect(),
    }
}

fn fields_of(fields: &syn::Fields) -> Fields {
    match fields {
        syn::Fields::Named(n) => Fields::Named(n.named.iter().map(field_of).collect()),
        syn::Fields::Unnamed(u) => Fields::Unnamed(u.unnamed.iter().map(field_of).collect()),
        syn::Fields::Unit => Fields::Unit,
    }
}

fn item(src: &str) -> StructItem {
    let item: syn::ItemStruct = syn::parse_str(src).expect("a valid struct item");
    let (impl_generics, type_generics, where_clause) = item.generics.split_for_impl();
    StructItem {
        source: text(&item),
        ident: item.ident.to_string(),
        generic: !item.generics.params.is_empty(),
        has_where: item.generics.where_clause.is_some(),
        impl_generics: text(&impl_generics),
        type_generics: text(&type_generics),
        where_clause: text(&where_clause),
        fields: fields_of(&item.fields),
    }
}

fn params_of(sig: &syn::Signature) -> Vec<Param> {
    sig.inputs
        .iter()
        .map(|arg| match arg {
            syn::FnArg::Receiver(_) => Param::Receiver,
            syn::FnArg::Typed(t) => Param::Typed {
                name: match &*t.pat {
                    syn::Pat::Ident(i) => Some(i.ident.to_string()),
                    _ => None,
                },
                ty: text(&t.ty),
            },
        })
        .collect()
}

fn output_of(sig: &syn::Signature) -> Option<String> {
    match &sig.output {
        syn::ReturnType::Default => None,
        syn::ReturnType::Type(_, ty) => Some(text(ty)),
    }
}

fn func(src: &str) -> FnItem {
    let item: syn::ItemFn = syn::parse_str(src).expect("a valid fn item");
    FnItem {
        source: text(&item),
        ident: item.sig.ident.to_string(),
        generic: !item.sig.generics.params.is_empty(),
        params: params_of(&item.sig),
        output: output_of(&item.sig),
    }
}


fn flat(text: &str) -> String {
    let tokens = text.parse::<proc_macro2::TokenStream>().expect("tokens");
    tokens.to_string().split_whitespace().collect::<String>()
}

#[test]
fn main_emits_the_anti_dce_seam_and_a_runnable_main() {
    let ts = emit_main(
        "my-app",
        &MainArgs::default(),
        &func("async fn main() -> Result<(), ::leaf::LeafError> { Ok(()) }"),
    );
    syn::parse_str::<syn::File>(&ts).expect("valid items");
    let s = flat(&ts);
    assert!(s.contains("mod__leaf_force_link"), "got: {s}");
    assert!(s.contains("__LEAF_EXPECTED_MANIFEST"), "got: {s}");
    assert!(s.contains("::leaf::force_link!()"), "got: {s}");
    assert!(s.contains("externcrateleafasleaf_core;"), "got: {s}");
    assert!(s.contains("externcrateleafasleaf_cache;"), "got: {s}");
    assert!(s.contains("externcrateleafasleaf_tx;"), "got: {s}");
    assert!(s.contains(r#"::leaf_core::SourceTag("my-app")"#), "got: {s}");
    assert!(s.contains("fnmain()->::core::result::Result<(),::leaf::LeafError>"), "got: {s}");
    assert!(s.contains("asyncfn__leaf_async_main()"), "got: {s}");
    assert!(s.contains(r#"::leaf::run_main("my-app","#), "got: {s}");
    assert!(
        s.contains("|_app:&::leaf::boot::RunningApp|::std::boxed::Box::pin(__leaf_async_main())"),
        "got: {s}"
    );
}

#[test]
fn main_invokes_the_umbrella_feature_gated_force_link() {
    let ts = emit_main(
        "my-app",
        &MainArgs::default(),
        &func("async fn main() -> Result<(), ::leaf::LeafError> { Ok(()) }"),
    );
    syn::parse_str::<syn::File>(&ts).expect("valid items");
    let s = flat(&ts);
    assert!(s.contains("::leaf::force_link!()"), "got: {s}");
}

#[test]
fn main_with_an_app_param_passes_the_running_app() {
    let ts = emit_main(
        "my-app",
        &MainArgs::default(),
        &func(
            "async fn main(app: &::leaf::boot::RunningApp) -> Result<(), ::leaf::LeafError> { Ok(()) }",
        ),
    );
    syn::parse_str::<syn::File>(&ts).expect("valid items");
    let s = flat(&ts);
    assert!(
        s.contains("|__app:&::leaf::boot::RunningApp|::std::boxed::Box::pin(__leaf_async_main(__app))"),
        "got: {s}"
    );
}

#[test]
fn main_rejects_more_than_one_parameter() {
    let ts = emit_main(
        "my-app",
        &MainArgs::default(),
        &func("async fn main(a: u8, b: u8) -> Result<(), ::leaf::LeafError> { Ok(()) }"),
    );
    let s = flat(&ts);
    assert!(s.contains("compile_error!"), "more than one param is a hard error: {s}");
}

#[test]
fn main_force_links_the_scan_list() {
    let args = parse_main_args(r#"scan("leaf-redis", "leaf-tokio")"#)
        .expect("parses");
    assert_eq!(args.scan, vec!["leaf-redis".to_string(), "leaf-tokio".to_string()]);
    let s = flat(&emit_main(
        "my-app",
        &args,
        &func("async fn main() -> Result<(), ::leaf::LeafError> { Ok(()) }"),
    ));
    assert!(s.contains("useleaf_redisas_;"), "got: {s}");
    assert!(s.contains("useleaf_tokioas_;"), "got: {s}");
    assert!(s.contains(r#"::leaf_core::SourceTag("leaf-redis")"#), "got: {s}");
}

#[test]
fn main_does_not_self_force_link_the_binary_crate() {
    let s = flat(&emit_main(
        "my-app",
        &MainArgs::default(),
        &func("async fn main() -> Result<(), ::leaf::LeafError> { Ok(()) }"),
    ));
    assert!(!s.contains("usemy_appas_;"), "the binary must not self-force-link: {s}");
    assert!(s.contains(r#"::leaf_core::SourceTag("my-app")"#), "got: {s}");
}

#[test]
fn main_parses_but_does_not_yet_thread_a_primary_source() {
    let args = parse_main_args("MyConfig").expect("parses");
    assert!(args.primary.is_some());
    let s = flat(&emit_main(
        "my-app",
        &args,
        &func("async fn main() -> Result<(), ::leaf::LeafError> { Ok(()) }"),
    ));
    assert!(s.contains(r#"::leaf::run_main("my-app","#), "got: {s}");
    assert!(!s.contains("compile_error!"), "a primary source is a no-op, not an error: {s}");
}

#[test]
fn main_rejects_two_primary_sources() {
    let err = parse_main_args("A, B")
        .expect_err("two primaries error");
    assert!(err.message.contains("at most one primary"), "got: {}", err.message);
}

#[test]
fn runner_emits_a_component_row_providing_the_runner_view() {
    let ts = emit_runner(&item("struct MigrateRunner;")).expect("emits");
    syn::parse_str::<syn::File>(&ts).expect("valid items");
    let s = flat(&ts);
    assert!(
        s.contains("#[::leaf_core::linkme::distributed_slice(::leaf_core::COMPONENTS)]"),
        "got: {s}"
    );
    assert!(s.contains("::leaf_core::TypeRow"), "got: {s}");
    assert!(
        s.contains("::core::any::TypeId::of::<dyn::leaf_core::Runner>()"),
        "got: {s}"
    );
}

#[test]
fn runner_rejects_a_generic_target() {
    let err = emit_runner(&item("struct R<T> { inner: T }"))
        .expect_err("a generic runner hard-errors");
    assert!(err.message.contains("register_component!") || err.message.contains("generic"), "got: {}", err.message);
}

#[test]
fn runner_emits_the_per_runner_upcast_thunk() {
    let ts = emit_runner(&item("struct MigrateRunner;")).expect("emits");
    syn::parse_str::<syn::File>(&ts).expect("valid items");
    let s = flat(&ts);
    assert!(
        s.contains(
            "pubfn__leaf_runner_upcast_MigrateRunner(__bean:::leaf_core::ErasedBean,)->::core::option::Option<::std::sync::Arc<dyn::leaf_core::Runner>>"
        ),
        "got: {s}"
    );
    assert!(s.contains("__bean.downcast::<MigrateRunner>().ok()"), "got: {s}");
    assert!(
        s.contains("__aas::std::sync::Arc<dyn::leaf_core::Runner>"),
        "got: {s}"
    );
}

#[test]
fn runner_upcast_thunk_is_emittable_standalone() {
    let ts = emit_runner_upcast("MigrateRunner");
    syn::parse_str::<syn::File>(&ts).expect("valid items");
    let s = flat(&ts);
    assert!(s.contains("__leaf_runner_upcast_MigrateRunner"), "got: {s}");
}

#[test]
fn runner_upcast_is_submitted_into_the_runner_pairings_slice() {
    let s = flat(&emit_runner_upcast("MigrateRunner"));
    assert!(
        s.contains("#[::leaf_core::linkme::distributed_slice(::leaf_core::RUNNER_PAIRINGS)]"),
        "got: {s}"
    );
    assert!(s.contains("::leaf_core::RunnerPairingRow{contract:"), "got: {s}");
    assert!(s.contains("upcast:__leaf_runner_upcast_MigrateRunner"), "got: {s}");
    assert!(s.contains("order:::leaf_core::OrderKey::implicit()"), "got: {s}");
}

#[test]
fn failure_analyzer_emits_a_static_and_a_slice_row() {
    let ts = emit_failure_analyzer("PortInUseAnalyzer");
    syn::parse_str::<syn::File>(&ts).expect("valid items");
    let s = flat(&ts);
    assert!(
        s.contains("#[::leaf_core::linkme::distributed_slice(::leaf_core::FAILURE_ANALYZERS)]"),
        "got: {s}"
    );
    assert!(s.contains("#[linkme(crate=::leaf_core::linkme)]"), "got: {s}");
    assert!(s.contains("&dyn::leaf_core::FailureAnalyzer=&__LEAF_ANALYZER_INSTANCE_PortInUseAnalyzer"), "got: {s}");
    assert!(s.contains("static__LEAF_ANALYZER_INSTANCE_PortInUseAnalyzer:PortInUseAnalyzer"), "got: {s}");
}
