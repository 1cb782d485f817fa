//! Tests of `advisor`.
use leaf_codegen::advisor::{
    emit_advisor, emit_advisor_pairing, emit_join_points, emit_method_table, parse_advice_args,
    parse_advisor_args, proxy_ident, AdviceKind, AdvisorArgs, MethodSpec,
};


fn flat(text: &str) -> String {
    let tokens = text.parse::<proc_macro2::TokenStream>().expect("tokens");
    tokens.to_string().split_whitespace().collect::<String>()
}

#[test]
fn emits_a_live_advisor_pairing_into_the_advisor_pairings_slice() {
    let ty = "AuditAspect";
    let ts = emit_advisor_pairing("AuditAspect", ty, &AdvisorArgs::default());
    syn::parse_str::<syn::File>(&ts).expect("the emitted artifact is valid Rust items");
    let s = flat(&ts);
    assert!(
        s.contains("#[::leaf_core::linkme::distributed_slice(::leaf_core::ADVISOR_PAIRINGS)]"),
        "got: {s}"
    );
    assert!(s.contains("::leaf_core::AdvisorPairingRow{"), "got: {s}");
    assert!(s.contains("pointcut:&::leaf_core::Anything"), "got: {s}");
    assert!(s.contains("make_interceptor:"), "got: {s}");
    assert!(s.contains("BeanKey::ByContract"), "got: {s}");
    assert!(s.contains(".downcast::<AuditAspect>()"), "got: {s}");
    assert!(s.contains("dyn::leaf_core::Interceptor"), "got: {s}");
    assert!(s.contains("role:::leaf_core::Role::Application"), "got: {s}");
}

#[test]
fn an_explicit_aspect_order_rides_the_advisor_pairing_row() {
    let args = AdvisorArgs { order: Some(50) };
    let ty = "A";
    let s = flat(&emit_advisor_pairing("A", ty, &args));
    assert!(s.contains("value:50i32"), "got: {s}");
    assert!(s.contains("source:::leaf_core::OrderSource::Annotation"), "got: {s}");
}

#[test]
fn emits_an_absolute_core_advisor_row_into_the_advisors_slice() {
    let ts = emit_advisor("TxAspect", AdviceKind::Around, &AdvisorArgs::default(), false)
        .expect("a concrete aspect emits");
    syn::parse_str::<syn::File>(&ts).expect("the emitted artifact is valid Rust items");
    let s = flat(&ts);
    assert!(
        s.contains("#[::leaf_core::linkme::distributed_slice(::leaf_core::ADVISORS)]"),
        "got: {s}"
    );
    assert!(s.contains("#[linkme(crate=::leaf_core::linkme)]"), "got: {s}");
    assert!(s.contains("::leaf_core::AdvisorRow{"), "got: {s}");
}

#[test]
fn advisor_contract_is_module_qualified_at_the_definition_site() {
    let s = flat(
        &emit_advisor("TxAspect", AdviceKind::Around, &AdvisorArgs::default(), false)
            .expect("emits"),
    );
    assert!(
        s.contains(
            r#"::leaf_core::ContractId::of(::core::concat!(::core::module_path!(),"::","TxAspect"))"#
        ),
        "got: {s}"
    );
}

#[test]
fn the_chain_order_rides_a_public_pairing_const() {
    let s = flat(
        &emit_advisor("TxAspect", AdviceKind::Around, &AdvisorArgs::default(), false)
            .expect("emits"),
    );
    assert!(
        s.contains("pubconst__leaf_advisor_TxAspect:::leaf_core::OrderKey"),
        "got: {s}"
    );
    assert!(s.contains("value:::leaf_core::DEFAULT_ORDER"), "got: {s}");
    assert!(s.contains("source:::leaf_core::OrderSource::Implicit"), "got: {s}");
}

#[test]
fn an_explicit_order_overrides_the_kind_floor() {
    let args = AdvisorArgs { order: Some(100) };
    let s = flat(&emit_advisor("A", AdviceKind::Around, &args, false).expect("emits"));
    assert!(s.contains("value:100i32"), "got: {s}");
    assert!(s.contains("source:::leaf_core::OrderSource::Annotation"), "got: {s}");
    assert!(!s.contains("::leaf_core::DEFAULT_ORDER"), "explicit order wins: {s}");
}

#[test]
fn a_negative_explicit_order_is_allowed() {
    let (_, args) = parse_advice_args("around, order = -50")
        .expect("parses");
    assert_eq!(args.order, Some(-50));
}

#[test]
fn a_generic_aspect_is_a_hard_error_with_a_register_proxy_hint() {
    let err = emit_advisor("Generic", AdviceKind::Around, &AdvisorArgs::default(), true)
        .expect_err("a generic aspect must hard-error");
    assert!(err.message.contains("generic"), "got: {}", err.message);
    assert!(err.message.contains("register_proxy!"), "got: {}", err.message);
}

#[test]
fn advice_kind_keyword_parses_and_defaults_to_around() {
    let (kind, _) = parse_advice_args("").expect("empty parses");
    assert_eq!(kind, AdviceKind::Around);
    let (kind, _) = parse_advice_args("before").expect("parses");
    assert_eq!(kind, AdviceKind::Before);
    let (kind, _) =
        parse_advice_args("after_throwing").expect("parses");
    assert_eq!(kind, AdviceKind::AfterThrowing);
}

#[test]
fn an_unknown_advice_kind_is_a_hard_error() {
    let err = parse_advice_args("sideways")
        .expect_err("unknown kind errors");
    assert!(err.message.contains("unknown advice kind"), "got: {}", err.message);
}

#[test]
fn an_unknown_advisor_arg_is_a_hard_error() {
    let err = parse_advisor_args(r#"bogus = 1"#)
        .expect_err("unknown arg errors");
    assert!(err.message.contains("unknown advisor argument"), "got: {}", err.message);
}

#[test]
fn proxy_ident_reads_the_leading_ident_of_a_concrete_type() {
    let ty = "Aspect<u32>";
    assert_eq!(proxy_ident(ty).expect("nameable"), "Aspect");
}

fn ty(s: &str) -> String {
    s.to_string()
}

#[test]
fn emits_a_public_bean_join_points_spec_pairing_const() {
    let ts = emit_join_points("OrderService", &ty("OrderService"), &[]);
    syn::parse_str::<syn::File>(&ts).expect("the emitted artifact is valid Rust items");
    let s = flat(&ts);
    assert!(
        s.contains("pubconst__leaf_joinpoints_OrderService:::leaf_core::BeanJoinPointsSpec"),
        "got: {s}"
    );
    assert!(
        s.contains("bean_type:const{::core::any::TypeId::of::<OrderService>()}"),
        "got: {s}"
    );
    assert!(s.contains("markers:&__LEAF_META_OrderService"), "got: {s}");
    assert!(s.contains("methods:&[]"), "got: {s}");
    assert!(
        s.contains(
            "#[::leaf_core::linkme::distributed_slice(::leaf_core::JOINPOINT_PAIRINGS)]"
        ),
        "got: {s}"
    );
    assert!(s.contains("::leaf_core::JoinPointPairingRow{contract:"), "got: {s}");
    assert!(s.contains("spec:&__leaf_joinpoints_OrderService"), "got: {s}");
}

#[test]
fn join_points_spec_carries_declared_method_rows() {
    let methods = vec![MethodSpec {
        method_path: "OrderService::place_order".into(),
        method_ident: Some("place_order".into()),
        is_async: false,
        arg_types: vec![ty("i64")],
        ret_type: ty("i64"),
    }];
    let s = flat(&emit_join_points("OrderService", &ty("OrderService"), &methods));
    assert!(s.contains("::leaf_core::MethodJoinPointSpec"), "got: {s}");
    assert!(
        s.contains(r#"::leaf_core::MethodKey::of("OrderService::place_order")"#),
        "got: {s}"
    );
    assert!(s.contains("ret_type:const{::core::any::TypeId::of::<i64>()}"), "got: {s}");
    assert!(s.contains("arg_types:&[const{::core::any::TypeId::of::<i64>()}]"), "got: {s}");
}

#[test]
fn method_spec_call_ident_falls_back_to_the_last_path_segment() {
    let m = MethodSpec {
        method_path: "OrderService::place_order".into(),
        method_ident: None,
        is_async: false,
        arg_types: vec![],
        ret_type: ty("()"),
    };
    assert_eq!(m.call_ident(), "place_order");
    let m2 = MethodSpec { method_ident: Some("renamed".into()), ..m };
    assert_eq!(m2.call_ident(), "renamed");
}

#[test]
fn emits_a_public_method_table_pairing_static() {
    let methods = vec![MethodSpec {
        method_path: "OrderService::place_order".into(),
        method_ident: Some("place_order".into()),
        is_async: false,
        arg_types: vec![ty("i64")],
        ret_type: ty("i64"),
    }];
    let ts = emit_method_table("OrderService", &ty("OrderService"), &methods);
    syn::parse_str::<syn::File>(&ts).expect("the emitted artifact is valid Rust items");
    let s = flat(&ts);
    assert!(
        s.contains(
            "pubstatic__leaf_methods_OrderService:&::leaf_core::MethodTable=&::leaf_core::MethodTable(&["
        ),
        "got: {s}"
    );
    assert!(s.contains("::leaf_core::MethodEntry{"), "got: {s}");
    assert!(
        s.contains(r#"key:::leaf_core::MethodKey::of("OrderService::place_order")"#),
        "got: {s}"
    );
    assert!(s.contains("invoke:__leaf_invoke_OrderService_place_order"), "got: {s}");
    assert!(
        s.contains(
            "#[::leaf_core::linkme::distributed_slice(::leaf_core::METHOD_TABLE_PAIRINGS)]"
        ),
        "got: {s}"
    );
    assert!(s.contains("::leaf_core::MethodTablePairingRow{contract:"), "got: {s}");
    assert!(s.contains("table:__leaf_methods_OrderService"), "got: {s}");
}

#[test]
fn method_table_thunk_downcasts_unpacks_calls_and_packs() {
    let methods = vec![MethodSpec {
        method_path: "OrderService::place_order".into(),
        method_ident: Some("place_order".into()),
        is_async: false,
        arg_types: vec![ty("i64")],
        ret_type: ty("i64"),
    }];
    let s = flat(&emit_method_table("OrderService", &ty("OrderService"), &methods));
    assert!(
        s.contains(
            "fn__leaf_invoke_OrderService_place_order(__bean:&::leaf_core::ErasedBean,__args:::leaf_core::ErasedArgs,__cx:&::leaf_core::ResolveCtx<'_>,)"
        ),
        "got: {s}"
    );
    assert!(
        s.contains("::std::sync::Arc::clone(__bean).downcast::<OrderService>()"),
        "got: {s}"
    );
    assert!(s.contains("__args.unpack::<(i64,)>()"), "got: {s}");
    assert!(s.contains("__target.place_order(__a0)"), "got: {s}");
    assert!(s.contains("::leaf_core::ErasedRet::pack(__target.place_order(__a0))"), "got: {s}");
    assert!(s.contains("::leaf_core::AdviceError::DowncastMismatch"), "got: {s}");
}

#[test]
fn method_table_thunk_awaits_an_async_method() {
    let methods = vec![MethodSpec {
        method_path: "OrderService::place_order".into(),
        method_ident: Some("place_order".into()),
        is_async: true,
        arg_types: vec![ty("i64")],
        ret_type: ty("i64"),
    }];
    let s = flat(&emit_method_table("OrderService", &ty("OrderService"), &methods));
    assert!(
        s.contains("::leaf_core::ErasedRet::pack(__target.place_order(__a0).await)"),
        "got: {s}"
    );
}

#[test]
fn method_table_thunk_handles_a_no_arg_method() {
    let methods = vec![MethodSpec {
        method_path: "Svc::ping".into(),
        method_ident: Some("ping".into()),
        is_async: false,
        arg_types: vec![],
        ret_type: ty("u8"),
    }];
    let s = flat(&emit_method_table("Svc", &ty("Svc"), &methods));
    assert!(s.contains("__args.unpack::<()>()"), "got: {s}");
    assert!(s.contains("::leaf_core::ErasedRet::pack(__target.ping())"), "got: {s}");
}

#[test]
fn method_table_thunk_handles_multiple_args() {
    let methods = vec![MethodSpec {
        method_path: "Svc::add".into(),
        method_ident: Some("add".into()),
        is_async: false,
        arg_types: vec![ty("i64"), ty("u32")],
        ret_type: ty("i64"),
    }];
    let s = flat(&emit_method_table("Svc", &ty("Svc"), &methods));
    assert!(s.contains("__args.unpack::<(i64,u32,)>()"), "got: {s}");
    assert!(s.contains("__target.add(__a0,__a1)"), "got: {s}");
}

#[test]
fn an_empty_method_table_is_a_valid_empty_const() {
    let ts = emit_method_table("Bare", &ty("Bare"), &[]);
    syn::parse_str::<syn::File>(&ts).expect("valid items");
    let s = flat(&ts);
    assert!(
        s.contains("pubstatic__leaf_methods_Bare:&::leaf_core::MethodTable=&::leaf_core::MethodTable(&[])"),
        "got: {s}"
    );
}
