//! Tests of `conditional`.
use leaf_codegen::conditional::{
    emit_auto_config, emit_guard, emit_import, parse_conditional, parse_import, profile_to_cond,
    CondAttr, CondExpr,
};
use leaf_codegen::items::{Attr, Field, Fields, StructItem};
use leaf_codegen::profile::{parse_profile, parse_profile_attr, ProfileExpr};

fn text<T: quote::ToTokens>(t: &T) -> String {
    t.to_token_stream().to_string()
}

fn attr_of(a: &syn::Attribute) -> Attr {
    Attr {
        source: text(a),
        ident: a.path().get_ident().map(|i| i.to_string()),
        last: a.path().segments.last().map_or(String::new(), |s| s.ident.to_string()),
        args: match &a.meta {
            syn::Meta::List(l) => Some(l.tokens.to_string()),
            _ => None,
        },
    }
}

fn field_of(f: &syn::Field) -> Field {
    Field {
        ident: f.ident.as_ref().map_or(String::new(), |i| i.to_string()),
        ty: text(&f.ty),
        attrs: f.attrs.iter().map(attr_of).collect(),
    }
}

fn fields_of(fields: &syn::Fields) -> Fields {
    match fields {
        syn::Fields::Named(n) => Fields::Named(n.named.iter().map(field_of).collect()),
        syn::Fields::Unnamed(u) => Fields::Unnamed(u.unnamed.iter().map(field_of).collect()),
        syn::Fields::Unit => Fields::Unit,
    }
}

fn item(src: &str) -> StructItem {
    let item: syn::ItemStruct = syn::parse_str(src).expect("a valid struct item");
    let (impl_generics, type_generics, where_clause) = item.generics.split_for_impl();
    StructItem {
        source: text(&item),
        ident: item.ident.to_string(),
        generic: !item.generics.params.is_empty(),
        has_where: item.generics.where_clause.is_some(),
        impl_generics: text(&impl_generics),
        type_generics: text(&type_generics),
        where_clause: text(&where_clause),
        fields: fields_of(&item.fields),
    }
}


fn flat(text: &str) -> String {
    let tokens = text.parse::<proc_macro2::TokenStream>().expect("tokens");
    tokens.to_string().split_whitespace().collect::<String>()
}

fn cond(src: &str) -> CondExpr {
    parse_conditional(src).expect("parses")
}

#[test]
fn on_property_lowers_to_a_runtime_tier_condexpr_leaf() {
    let expr = cond(r#"on_property("app.enabled", having_value = "true")"#);
    let s = flat(&expr.lower());
    assert!(s.contains("::leaf_core::CondExpr::Leaf"), "got: {s}");
    assert!(
        s.contains(r#"::leaf_core::ConditionId(::leaf_core::contract_hash("leaf::condition::OnProperty")asu32)"#),
        "got: {s}"
    );
    assert!(s.contains(r#"::leaf_core::Attr::Str("name","app.enabled")"#), "got: {s}");
    assert!(s.contains(r#"::leaf_core::Attr::Str("having_value","true")"#), "got: {s}");
}

#[test]
fn on_property_match_if_missing_bool_attr() {
    let expr = cond(r#"on_property("k", match_if_missing = false)"#);
    let s = flat(&expr.lower());
    assert!(s.contains(r#"::leaf_core::Attr::Bool("match_if_missing",false)"#), "got: {s}");
}

#[test]
fn on_property_requires_a_key() {
    let err = parse_conditional(r#"on_property(having_value = "x")"#)
        .expect_err("a property leaf needs a key");
    assert!(err.message.contains("property key"), "got: {}", err.message);
}

#[test]
fn on_bean_carries_the_type_as_a_typeid_attr() {
    let expr = cond("on_bean(MyService)");
    let s = flat(&expr.lower());
    assert!(
        s.contains(r#"::leaf_core::ConditionId(::leaf_core::contract_hash("leaf::condition::OnBean")asu32)"#),
        "got: {s}"
    );
    assert!(
        s.contains(r#"::leaf_core::Attr::Type("type",const{::core::any::TypeId::of::<MyService>()})"#),
        "got: {s}"
    );
}

#[test]
fn on_missing_bean_mints_its_own_kind_id() {
    let expr = cond("on_missing_bean(DataSource)");
    let s = flat(&expr.lower());
    assert!(
        s.contains(r#"::leaf_core::contract_hash("leaf::condition::OnMissingBean")"#),
        "got: {s}"
    );
}

#[test]
fn all_any_not_are_first_class_boolean_nodes() {
    let expr = cond(r#"all(on_property("x"), any(on_bean(Foo), not(on_class("redis"))))"#);
    let s = flat(&expr.lower());
    assert!(s.contains("::leaf_core::CondExpr::All(&["), "got: {s}");
    assert!(s.contains("::leaf_core::CondExpr::Any(&["), "got: {s}");
    assert!(s.contains("::leaf_core::CondExpr::Not(&"), "got: {s}");
    syn::parse_str::<syn::Expr>(&expr.lower()).expect("a valid const expr");
}

#[test]
fn not_requires_exactly_one_child() {
    let err = parse_conditional(r#"not(on_property("a"), on_property("b"))"#)
        .expect_err("not takes one child");
    assert!(err.message.contains("exactly one"), "got: {}", err.message);
}

#[test]
fn multiple_top_level_conditions_are_implicitly_anded() {
    let expr = cond(r#"on_property("a"), on_bean(Foo)"#);
    match &expr {
        CondExpr::All(children) => assert_eq!(children.len(), 2),
        other => panic!("expected an All, got {other:?}"),
    }
}

#[test]
fn empty_conditional_is_unconditional_all() {
    let expr = parse_conditional("").expect("empty parses");
    assert_eq!(expr, CondExpr::All(Vec::new()));
}

#[test]
fn bool_literal_lowers_to_a_const_node() {
    let expr = cond("true");
    assert_eq!(expr, CondExpr::Const(true));
    assert!(flat(&expr.lower()).contains("::leaf_core::CondExpr::Const(true)"), "got");
}

#[test]
fn unknown_kind_is_a_hard_error() {
    let err = parse_conditional("on_quux(1)")
        .expect_err("unknown kind errors");
    assert!(err.message.contains("unknown"), "got: {}", err.message);
}

#[test]
fn emit_guard_emits_a_public_pairing_const_and_a_conditions_anchor() {
    let expr = cond(r#"on_property("app.enabled", having_value = "true")"#);
    let ts = emit_guard("MyBean", &expr);
    syn::parse_str::<syn::File>(&ts).expect("valid items");
    let s = flat(&ts);
    assert!(
        s.contains("pubconst__leaf_guard_MyBean:::leaf_core::CondExpr"),
        "got: {s}"
    );
    assert!(
        s.contains("#[::leaf_core::linkme::distributed_slice(::leaf_core::CONDITIONS)]"),
        "got: {s}"
    );
    assert!(s.contains("::leaf_core::ConditionRow"), "got: {s}");
    assert!(
        s.contains("#[::leaf_core::linkme::distributed_slice(::leaf_core::GUARD_PAIRINGS)]"),
        "got: {s}"
    );
    assert!(s.contains("::leaf_core::GuardPairingRow{contract:"), "got: {s}");
    assert!(s.contains("guard:&__leaf_guard_MyBean"), "got: {s}");
}

#[test]
fn emit_guard_emits_one_anchor_per_distinct_kind() {
    let expr = cond(r#"all(on_property("a"), on_property("b"), on_bean(Foo))"#);
    let s = flat(&emit_guard("E", &expr));
    assert_eq!(s.matches("::leaf_core::ConditionRow{").count(), 2, "got: {s}");
}

#[test]
fn profile_string_parses_the_three_operator_algebra() {
    let expr = parse_profile("prod & (eu | us)").expect("parses");
    assert_eq!(
        expr,
        ProfileExpr::And(vec![
            ProfileExpr::Name("prod".into()),
            ProfileExpr::Or(vec![
                ProfileExpr::Name("eu".into()),
                ProfileExpr::Name("us".into()),
            ]),
        ])
    );
}

#[test]
fn profile_negation_parses() {
    let expr = parse_profile("!test").expect("parses");
    assert_eq!(expr, ProfileExpr::Not(Box::new(ProfileExpr::Name("test".into()))));
}

#[test]
fn profile_mixed_operators_without_parens_is_a_hard_error() {
    let err = parse_profile("a & b | c").expect_err("mixed operators error");
    assert!(err.message.contains("mixed"), "got: {}", err.message);
}

#[test]
fn profile_expr_lowers_to_absolute_core_profile_expr() {
    let expr = parse_profile("prod & eu").expect("parses");
    let s = flat(&expr.lower());
    assert!(s.contains("::leaf_core::ProfileExpr::And(&["), "got: {s}");
    assert!(s.contains(r#"::leaf_core::ProfileExpr::Name("prod")"#), "got: {s}");
    assert!(s.contains(r#"::leaf_core::ProfileExpr::Name("eu")"#), "got: {s}");
    syn::parse_str::<syn::Expr>(&expr.lower()).expect("a valid const expr");
}

#[test]
fn parse_profile_attr_reads_a_string_literal() {
    let attr = r#""prod | staging""#;
    let expr = parse_profile_attr(attr).expect("parses");
    assert_eq!(
        expr,
        ProfileExpr::Or(vec![
            ProfileExpr::Name("prod".into()),
            ProfileExpr::Name("staging".into()),
        ])
    );
}

#[test]
fn empty_profile_attr_is_a_hard_error() {
    let err = parse_profile_attr("").expect_err("empty profile errors");
    assert!(err.message.contains("requires"), "got: {}", err.message);
}

#[test]
fn profile_lowers_to_a_single_on_profile_cond_leaf() {
    let expr = parse_profile("prod & eu").expect("parses");
    let cond = profile_to_cond(&expr);
    let s = flat(&cond.lower());
    assert!(
        s.contains(r#"::leaf_core::contract_hash("leaf::condition::OnProfile")"#),
        "got: {s}"
    );
    assert!(s.contains(r#"::leaf_core::Attr::Str("expr","prod&eu")"#), "got: {s}");
}

#[test]
fn profile_render_round_trips_through_the_grammar() {
    let expr = parse_profile("prod & (eu | us)").expect("parses");
    let cond = profile_to_cond(&expr);
    let rendered = match &cond {
        CondExpr::Leaf { attrs, .. } => match &attrs[0] {
            CondAttr::Str(_, v) => v.clone(),
            _ => panic!("expected a str attr"),
        },
        _ => panic!("expected a leaf"),
    };
    let reparsed = parse_profile(&rendered).expect("the rendered form re-parses");
    assert_eq!(reparsed, expr, "render must round-trip: {rendered}");
}

#[test]
fn auto_config_targets_the_auto_configs_slice_at_fallback() {
    let ts = emit_auto_config(&item("struct RedisAutoConfig;"), None).expect("emits");
    syn::parse_str::<syn::File>(&ts).expect("valid items");
    let s = flat(&ts);
    assert!(
        s.contains("#[::leaf_core::linkme::distributed_slice(::leaf_core::AUTO_CONFIGS)]"),
        "got: {s}"
    );
    assert!(s.contains("::leaf_core::CandidateRole::FALLBACK"), "got: {s}");
    assert!(
        !s.contains("#[::leaf_core::linkme::distributed_slice(::leaf_core::COMPONENTS)]"),
        "an auto-config must not be a COMPONENTS row: {s}"
    );
}

#[test]
fn auto_config_with_a_guard_emits_the_guard_and_conditions_anchor() {
    let guard = cond(r#"on_property("redis.enabled", having_value = "true")"#);
    let ts = emit_auto_config(&item("struct RedisAutoConfig;"), Some(&guard)).expect("emits");
    syn::parse_str::<syn::File>(&ts).expect("valid items");
    let s = flat(&ts);
    assert!(
        s.contains("#[::leaf_core::linkme::distributed_slice(::leaf_core::AUTO_CONFIGS)]"),
        "got: {s}"
    );
    assert!(
        s.contains("#[::leaf_core::linkme::distributed_slice(::leaf_core::CONDITIONS)]"),
        "got: {s}"
    );
    assert!(
        s.contains("pubconst__leaf_guard_RedisAutoConfig:::leaf_core::CondExpr"),
        "got: {s}"
    );
}

#[test]
fn auto_config_rejects_a_generic_target() {
    let err = emit_auto_config(&item("struct Generic<T> { inner: T }"), None)
        .expect_err("a generic auto-config is a hard error");
    assert!(err.message.contains("register_component!") || err.message.contains("generic"), "got: {}", err.message);
}

#[test]
fn import_parses_a_list_of_types() {
    let attr = "Foo, bar::Baz";
    let paths = parse_import(attr).expect("parses");
    assert_eq!(paths.len(), 2);
}

#[test]
fn empty_import_is_a_hard_error() {
    let err = parse_import("").expect_err("empty import errors");
    assert!(err.message.contains("requires"), "got: {}", err.message);
}

#[test]
fn import_emits_an_import_edge_and_an_anti_dce_reference() {
    let paths = parse_import("RedisAutoConfig, CacheAutoConfig").unwrap();
    let ts = emit_import("MyApp", &paths);
    syn::parse_str::<syn::File>(&ts).expect("valid items");
    let s = flat(&ts);
    assert!(s.contains("pubconst__LEAF_IMPORT_MyApp:::leaf_core::ImportEdge"), "got: {s}");
    assert!(s.contains("::leaf_core::ImportEdge{"), "got: {s}");
    assert!(
        s.contains(r#"::leaf_core::ContractId::of(::core::concat!(::core::module_path!(),"::","MyApp"))"#),
        "got: {s}"
    );
    assert!(s.contains(r#"::leaf_core::ContractId::of("RedisAutoConfig")"#), "got: {s}");
    assert!(s.contains("&RedisAutoConfig"), "got: {s}");
    assert!(s.contains("&CacheAutoConfig"), "got: {s}");
}
