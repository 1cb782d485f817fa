//! Tests of `config`.
use leaf_codegen::config::{
    emit_bind_target, emit_config_properties, emit_converter, emit_value, parse_config_args,
    ConfigPropertiesArgs,
};
use leaf_codegen::items::{Attr, DeriveItem, Field, Fields};

fn text<T: quote::ToTokens>(t: &T) -> String {
    t.to_token_stream().to_string()
}

fn attr_of(a: &syn::Attribute) -> Attr {
    Attr {
        source: text(a),
        ident: a.path().get_ident().map(|i| i.to_string()),
        last: a.path().segments.last().map_or(String::new(), |s| s.ident.to_string()),
        args: match &a.meta {
            syn::Meta::List(l) => Some(l.tokens.to_string()),
            _ => None,
        },
    }
}

fn field_of(f: &syn::Field) -> Field {
    Field {
        ident: f.ident.as_ref().map_or(String::new(), |i| i.to_string()),
        ty: text(&f.ty),
        attrs: f.attrs.iter().map(attr_of).collect(),
    }
}

fn fields_of(fields: &syn::Fields) -> Fields {
    match fields {
        syn::Fields::Named(n) => Fields::Named(n.named.iter().map(field_of).collect()),
        syn::Fields::Unnamed(u) => Fields::Unnamed(u.unnamed.iter().map(field_of).collect()),
        syn::Fields::Unit => Fields::Unit,
    }
}

fn derive(src: &str) -> DeriveItem {
    let item: syn::DeriveInput = syn::parse_str(src).expect("a valid derive input");
    DeriveItem {
        ident: item.ident.to_string(),
        generic: !item.generics.params.is_empty(),
        fields: match &item.data {
            syn::Data::Struct(s) => Some(fields_of(&s.fields)),
            _ => None,
        },
    }
}


fn flat(text: &str) -> String {
    let tokens = text.parse::<proc_macro2::TokenStream>().expect("tokens");
    tokens.to_string().split_whitespace().collect::<String>()
}

#[test]
fn bind_target_emits_a_const_object_node_schema() {
    let ts = emit_bind_target(&derive("struct ServerProps { port: u16, host: String }"))
        .expect("emits");
    syn::parse_str::<syn::File>(&ts).expect("valid items");
    let s = flat(&ts);
    assert!(s.contains("::leaf_core::NodeSchema::Object{"), "got: {s}");
    assert!(s.contains("method:::leaf_core::BindMethod::JavaBean"), "got: {s}");
    assert!(s.contains(r#"canonical:"port""#), "got: {s}");
    assert!(s.contains(r#"canonical:"host""#), "got: {s}");
}

#[test]
fn bind_target_emits_the_bindtarget_impl_with_a_scalar_fold() {
    let s = flat(&emit_bind_target(&derive("struct P { port: u16 }")).expect("emits"));
    assert!(s.contains("impl::leaf_core::BindTargetforP"), "got: {s}");
    assert!(s.contains(r#"__cursor.scalar::<u16>("port")"#), "got: {s}");
    assert!(s.contains("constSCHEMA:&'static::leaf_core::NodeSchema"), "got: {s}");
}

#[test]
fn snake_case_field_canonicalizes_to_kebab() {
    let s = flat(&emit_bind_target(&derive("struct P { max_connections: u32 }")).expect("emits"));
    assert!(s.contains(r#"canonical:"max-connections""#), "got: {s}");
    assert!(s.contains(r#"__cursor.scalar::<u32>("max-connections")"#), "got: {s}");
}

#[test]
fn a_vec_field_binds_as_a_list() {
    let s = flat(&emit_bind_target(&derive("struct P { hosts: Vec<String> }")).expect("emits"));
    assert!(s.contains(r#"__cursor.list::<String>("hosts")"#), "got: {s}");
    assert!(s.contains("::leaf_core::NodeSchema::List(&::leaf_core::NodeSchema::Scalar)"), "got: {s}");
}

#[test]
fn a_nested_struct_field_binds_through_nested() {
    let s = flat(&emit_bind_target(&derive("struct P { server: ServerProps }")).expect("emits"));
    assert!(s.contains(r#"__cursor.nested::<ServerProps>("server")"#), "got: {s}");
    assert!(s.contains("<ServerPropsas::leaf_core::BindTarget>::SCHEMA"), "got: {s}");
}

#[test]
fn bind_target_rejects_a_non_struct() {
    let err = emit_bind_target(&derive("enum E { A, B }")).expect_err("an enum is rejected");
    assert!(err.message.contains("not a struct"), "got: {}", err.message);
}

#[test]
fn bind_target_rejects_a_generic_target() {
    let err = emit_bind_target(&derive("struct P<T> { inner: T }"))
        .expect_err("a generic target is rejected");
    assert!(err.message.contains("generic"), "got: {}", err.message);
}

#[test]
fn config_properties_parses_the_prefix_arg() {
    let attr = r#"prefix = "app.server""#;
    let args = parse_config_args(attr).expect("parses");
    assert_eq!(args.prefix, "app.server");
}

#[test]
fn config_properties_requires_a_prefix() {
    let err = parse_config_args("").expect_err("prefix is required");
    assert!(err.message.contains("prefix"), "got: {}", err.message);
}

#[test]
fn config_properties_rejects_unknown_arg() {
    let attr = r#"bogus = "x""#;
    let err = parse_config_args(attr).expect_err("unknown arg errors");
    assert!(err.message.contains("unknown"), "got: {}", err.message);
}

#[test]
fn config_properties_validate_flag_defaults_off() {
    let attr = r#"prefix = "app""#;
    let args = parse_config_args(attr).expect("parses");
    assert!(!args.validate, "an unflagged config bean does not validate");
}

#[test]
fn config_properties_parses_the_bare_validate_flag() {
    let attr = r#"prefix = "app", validate"#;
    let args = parse_config_args(attr).expect("parses");
    assert_eq!(args.prefix, "app");
    assert!(args.validate, "the bare `validate` flag opts in");
}

#[test]
fn config_properties_rejects_unknown_bare_flag() {
    let attr = r#"prefix = "app", bogus"#;
    let err = parse_config_args(attr).expect_err("an unknown bare flag errors");
    assert!(err.message.contains("bogus"), "got: {}", err.message);
}

#[test]
fn config_properties_unflagged_thunk_has_no_validation() {
    let args = ConfigPropertiesArgs { prefix: "app".into(), validate: false };
    let s = flat(
        &emit_config_properties(&derive("struct AppProps { name: String }"), &args)
            .expect("emits"),
    );
    assert!(!s.contains("validate_config"), "no validation is wired when unflagged: {s}");
}

#[test]
fn config_properties_validate_flag_wires_validate_config_in_both_arms() {
    let args = ConfigPropertiesArgs { prefix: "app".into(), validate: true };
    let ts = emit_config_properties(&derive("struct AppProps { name: String }"), &args)
        .expect("emits");
    syn::parse_str::<syn::File>(&ts).expect("valid items");
    let s = flat(&ts);
    assert!(
        s.contains(r#"::leaf_validation::validate_config("app",&__bound)"#),
        "got: {s}"
    );
    assert!(s.contains("return::core::result::Result::Err(::std::vec![__verr]);"), "got: {s}");
    assert_eq!(
        s.matches(r#"::leaf_validation::validate_config("app",&__bound)"#).count(),
        2,
        "the bound arm AND the default arm both validate: {s}"
    );
}

#[test]
fn config_properties_emits_a_config_metadata_row() {
    let args = ConfigPropertiesArgs { prefix: "app".into(), validate: false };
    let ts = emit_config_properties(&derive("struct AppProps { name: String }"), &args)
        .expect("emits");
    syn::parse_str::<syn::File>(&ts).expect("valid items");
    let s = flat(&ts);
    assert!(
        s.contains("#[::leaf_core::linkme::distributed_slice(::leaf_core::CONFIG_METADATA)]"),
        "got: {s}"
    );
    assert!(s.contains("::leaf_core::ConfigMetadataRow"), "got: {s}");
    assert!(s.contains(r#"prefix:"app""#), "got: {s}");
    assert!(
        s.contains(r#"::leaf_core::ContractId::of(::core::concat!(::core::module_path!(),"::","AppProps"))"#),
        "got: {s}"
    );
}

#[test]
fn config_properties_auto_registers_the_bean_into_auto_configs_with_a_seed() {
    let args = ConfigPropertiesArgs { prefix: "app".into(), validate: false };
    let ts = emit_config_properties(&derive("struct AppProps { name: String }"), &args)
        .expect("emits");
    syn::parse_str::<syn::File>(&ts).expect("valid items");
    let s = flat(&ts);
    assert!(
        s.contains("#[::leaf_core::linkme::distributed_slice(::leaf_core::AUTO_CONFIGS)]"),
        "got: {s}"
    );
    assert!(s.contains("candidate_role:::leaf_core::CandidateRole::FALLBACK"), "got: {s}");
    assert!(s.contains("pubconst__leaf_seed_AppProps:::leaf_core::ProviderSeed"), "got: {s}");
    assert!(s.contains("<AppPropsas::core::default::Default>::default()"), "got: {s}");
    assert!(
        s.contains("#[::leaf_core::linkme::distributed_slice(::leaf_core::SEED_PAIRINGS)]"),
        "got: {s}"
    );
    assert!(
        s.contains("::leaf_core::SeedPairingRow::field_default("),
        "got: {s}"
    );
    assert!(s.contains("__leaf_seed_AppProps"), "got: {s}");
}

#[test]
fn config_properties_also_emits_the_bind_target_and_a_config_group() {
    let args = ConfigPropertiesArgs { prefix: "app".into(), validate: false };
    let s = flat(
        &emit_config_properties(&derive("struct AppProps { name: String, port: u16 }"), &args)
            .expect("emits"),
    );
    assert!(s.contains("impl::leaf_core::BindTargetforAppProps"), "got: {s}");
    assert!(s.contains("::leaf_core::ConfigGroup"), "got: {s}");
    assert!(s.contains("::leaf_core::Property"), "got: {s}");
    assert!(s.contains(r#"name:"name""#), "got: {s}");
    assert!(s.contains(r#"name:"port""#), "got: {s}");
    assert!(s.contains(r#"ty:"u16""#), "got: {s}");
}

#[test]
fn config_properties_emits_a_public_bind_thunk_pairing_const() {
    let args = ConfigPropertiesArgs { prefix: "app".into(), validate: false };
    let ts = emit_config_properties(&derive("struct AppProps { title: String, workers: u16 }"), &args)
        .expect("emits");
    syn::parse_str::<syn::File>(&ts).expect("valid items");
    let s = flat(&ts);
    assert!(
        s.contains("pubconst__leaf_config_bind_AppProps:::leaf_core::ConfigBindThunk"),
        "got: {s}"
    );
    assert!(s.contains("::leaf_core::Binder::new"), "got: {s}");
    assert!(s.contains("bind::<AppProps>"), "got: {s}");
    assert!(s.contains(r#"CanonicalName::parse("app")"#), "got: {s}");
    assert!(s.contains("::leaf_core::Published::shared_value"), "got: {s}");
    assert!(s.contains("impl::leaf_core::BeanforAppProps{}"), "got: {s}");
    assert!(
        s.contains(
            "#[::leaf_core::linkme::distributed_slice(::leaf_core::CONFIG_BIND_PAIRINGS)]"
        ),
        "got: {s}"
    );
    assert!(s.contains("::leaf_core::ConfigBindPairingRow{contract:"), "got: {s}");
    assert!(s.contains("thunk:__leaf_config_bind_AppProps"), "got: {s}");
}

#[test]
fn value_template_lowers_to_const_value_segments() {
    let attr = r#""${app.port:8080}""#;
    let ts = emit_value(attr).expect("emits");
    let s = flat(&ts);
    assert!(s.contains("::leaf_core::"), "got: {s}");
    assert!(s.contains("app.port") || s.contains(r#""app.port""#), "got: {s}");
    syn::parse_str::<syn::Expr>(&ts).expect("a valid const expr");
}

#[test]
fn value_rejects_a_non_string_body() {
    let attr = "42";
    let err = emit_value(attr).expect_err("a non-string body errors");
    assert!(err.message.contains("string-literal"), "got: {}", err.message);
}

#[test]
fn value_rejects_a_malformed_template() {
    let attr = r#""${unbalanced""#;
    let err = emit_value(attr).expect_err("an unbalanced template errors");
    assert!(err.message.contains("template"), "got: {}", err.message);
}

#[test]
fn converter_emits_a_catalog_row() {
    let ts = emit_converter("DurationConverter");
    syn::parse_str::<syn::File>(&ts).expect("valid items");
    let s = flat(&ts);
    assert!(
        s.contains("#[::leaf_core::linkme::distributed_slice(::leaf_core::CATALOGS)]"),
        "got: {s}"
    );
    assert!(s.contains("::leaf_core::CatalogRow"), "got: {s}");
    assert!(
        s.contains(r#"::leaf_core::ContractId::of(::core::concat!(::core::module_path!(),"::","DurationConverter"))"#),
        "got: {s}"
    );
}
