//! Tests of `concern`.
use leaf_codegen::concern::{
    emit_cache, emit_concern, emit_concurrency_limit, emit_retryable, emit_transactional,
    emit_validated, parse_cache, parse_concurrency_limit, parse_retryable, parse_transactional,
    result_ok_ty, Backoff, CacheableArgs, Concern, ManagerRef, MethodSig, RetryableArgs,
};

fn ty(s: &str) -> String {
    syn::parse_str::<syn::Type>(s).expect("a valid type");
    s.to_string()
}

fn mgr_str(m: &ManagerRef) -> String {
    m.ty.split_whitespace().collect()
}


fn flat(text: &str) -> String {
    let tokens = text.parse::<proc_macro2::TokenStream>().expect("tokens");
    tokens.to_string().split_whitespace().collect::<String>()
}

fn sig(method: &str, ret: &str, arg: Option<&str>) -> MethodSig {
    MethodSig {
        method_path: method.into(),
        ret_type: ty(ret),
        first_arg_type: arg.map(ty),
    }
}

#[test]
fn recognises_every_concern_keyword() {
    assert_eq!(Concern::from_keyword("transactional"), Some(Concern::Transactional));
    assert_eq!(Concern::from_keyword("cacheable"), Some(Concern::Cacheable));
    assert_eq!(Concern::from_keyword("cache_put"), Some(Concern::CachePut));
    assert_eq!(Concern::from_keyword("cache_evict"), Some(Concern::CacheEvict));
    assert_eq!(Concern::from_keyword("validated"), Some(Concern::Validated));
    assert_eq!(Concern::from_keyword("retryable"), Some(Concern::Retryable));
    assert_eq!(Concern::from_keyword("concurrency_limit"), Some(Concern::ConcurrencyLimit));
    assert_eq!(Concern::from_keyword("bean"), None);
}

#[test]
fn transactional_emits_a_tx_advisor_pairing_row_keyed_by_the_bean_type() {
    let args = parse_transactional("manager = LedgerTxManager").expect("parses");
    let mgr = args.manager.as_ref().expect("a manager");
    assert_eq!(mgr_str(mgr), "LedgerTxManager");
    assert!(!mgr.is_trait_object(), "a concrete path is not a trait object");
    let ts = emit_transactional(
        &args,
        "LedgerService",
        &ty("LedgerService"),
        &sig("LedgerService::record", "Result<i64, LeafError>", Some("i64")),
    )
    .expect("emits");
    syn::parse_str::<syn::File>(&ts).expect("valid items");
    let s = flat(&ts);
    assert!(
        s.contains("::core::any::TypeId::of::<LedgerService>()"),
        "keyed by the bean TypeId: {s}"
    );
    assert!(s.contains("::leaf_tx::TxPointcut::new"), "got: {s}");
    assert!(
        s.contains("#[::leaf_core::linkme::distributed_slice(::leaf_core::ADVISOR_PAIRINGS)]"),
        "got: {s}"
    );
    assert!(
        s.contains("::leaf_tx::make_transaction_interceptor_for::<LedgerTxManager,i64>"),
        "got: {s}"
    );
    assert!(s.contains("order:::leaf_tx::tx_order_key()"), "got: {s}");
    assert!(s.contains("role:::leaf_core::Role::Infrastructure"), "got: {s}");
    assert!(
        s.contains(r#""leaf::tx::TransactionAdvisor","@""#),
        "per-method-unique contract: {s}"
    );
}

#[test]
fn transactional_requires_a_manager() {
    let err = parse_transactional("").expect_err("no manager errors");
    assert!(err.message.contains("manager"), "got: {}", err.message);
}

#[test]
fn transactional_accepts_rollback_for_without_error() {
    parse_transactional("manager = M, rollback_for(MyErr)").expect("rollback_for parses");
}

#[test]
fn transactional_manager_dyn_view_dispatches_to_the_by_trait_builder() {
    let args = parse_transactional("manager = dyn TransactionManager").expect("parses");
    let mgr = args.manager.as_ref().expect("a manager");
    assert!(mgr.is_trait_object(), "a `dyn Trait` manager is a trait object");
    let s = flat(
        &emit_transactional(
            &args,
            "LedgerService",
            &ty("LedgerService"),
            &sig("LedgerService::record", "Result<i64, LeafError>", Some("i64")),
        )
        .expect("emits"),
    );
    assert!(
        s.contains("::leaf_tx::make_transaction_interceptor_for_view::<i64>()"),
        "the dyn-view manager rides the by-trait builder: {s}"
    );
    assert!(
        !s.contains("make_transaction_interceptor_for::<"),
        "the dyn-view path does NOT use the concrete ByType builder: {s}"
    );
}

#[test]
fn transactional_manager_qualified_dyn_path_is_still_a_trait_object() {
    let args =
        parse_transactional("manager = dyn leaf::core::TransactionManager").expect("parses");
    assert!(args.manager.as_ref().expect("manager").is_trait_object());
}

#[test]
fn cacheable_emits_meta_plus_a_cache_advisor_row_with_a_unit_key() {
    let args = parse_cache(r#""users", manager = Mgr"#, Concern::Cacheable).expect("parses");
    assert_eq!(args.cache_names, vec!["users".to_string()]);
    assert_eq!(args.key_arg, None);
    let ts = emit_cache(
        Concern::Cacheable,
        &args,
        "UserService",
        &ty("UserService"),
        &sig("UserService::find", "i64", None),
    )
    .expect("emits");
    syn::parse_str::<syn::File>(&ts).expect("valid items");
    let s = flat(&ts);
    assert!(s.contains("::leaf_core::CacheOpMeta{"), "got: {s}");
    assert!(s.contains(r#"cache_names:&["users"]"#), "got: {s}");
    assert!(s.contains("::core::any::TypeId::of::<UserService>()"), "got: {s}");
    assert!(s.contains("::leaf_cache::CachePointcut::new"), "got: {s}");
    assert!(s.contains("::leaf_cache::CacheOp::Cacheable"), "got: {s}");
    assert!(
        s.contains("::leaf_cache::build_cache_interceptor::<Mgr,i64>"),
        "the manager + return-T ride the builder: {s}"
    );
    assert!(s.contains("::leaf_cache::unit_key_fn()"), "unit key by default: {s}");
    assert!(s.contains("order:::leaf_cache::cache_order_key()"), "at CACHE_ORDER: {s}");
    assert!(
        s.contains(r#""leaf::cache::CacheAdvisor","@""#),
        "per-method-unique contract: {s}"
    );
}

#[test]
fn cacheable_manager_dyn_view_dispatches_to_the_by_trait_builder() {
    let args = parse_cache(r##""prices", key = "#0", manager = dyn CacheManager"##, Concern::Cacheable)
        .expect("parses");
    assert!(args.manager.as_ref().expect("manager").is_trait_object());
    let s = flat(
        &emit_cache(
            Concern::Cacheable,
            &args,
            "CatalogService",
            &ty("CatalogService"),
            &sig("CatalogService::price_of", "Result<i64, LeafError>", Some("String")),
        )
        .expect("emits"),
    );
    assert!(
        s.contains("::leaf_cache::build_cache_interceptor_view::<Result<i64,LeafError>>"),
        "the dyn-view manager rides the by-trait builder: {s}"
    );
    assert!(
        !s.contains("::leaf_cache::build_cache_interceptor::<"),
        "the dyn-view path does NOT use the concrete ByType builder: {s}"
    );
    assert!(s.contains("__call.args.downcast_ref::<(String,)>()"), "the key fn rides: {s}");
    assert!(s.contains(r#"cache_names:&["prices"]"#), "the meta rides: {s}");
}

#[test]
fn cacheable_key_zero_emits_a_typed_arg_key_fn() {
    let args =
        parse_cache(r##"cache = "users", key = "#0", manager = Mgr"##, Concern::Cacheable)
            .expect("parses");
    assert_eq!(args.key_arg, Some(0));
    let ts = emit_cache(
        Concern::Cacheable,
        &args,
        "UserService",
        &ty("UserService"),
        &sig("UserService::find", "i64", Some("u64")),
    )
    .expect("emits");
    syn::parse_str::<syn::File>(&ts).expect("valid items");
    let s = flat(&ts);
    assert!(s.contains("__call.args.downcast_ref::<(u64,)>()"), "got: {s}");
    assert!(s.contains("as::leaf_cache::CacheKeyFn"), "got: {s}");
}

#[test]
fn cache_evict_all_entries_sets_the_flag_and_the_op() {
    let args =
        parse_cache(r#""users", all_entries, manager = Mgr"#, Concern::CacheEvict)
            .expect("parses");
    assert!(args.all_entries);
    let s = flat(
        &emit_cache(
            Concern::CacheEvict,
            &args,
            "UserService",
            &ty("UserService"),
            &sig("UserService::evict", "i64", None),
        )
        .expect("emits"),
    );
    assert!(s.contains("all_entries:true"), "got: {s}");
    assert!(s.contains("::leaf_cache::CacheOp::CacheEvict"), "got: {s}");
}

#[test]
fn cache_put_uses_the_put_op() {
    let args = parse_cache(r#""users", manager = Mgr"#, Concern::CachePut).expect("parses");
    let s = flat(
        &emit_cache(
            Concern::CachePut,
            &args,
            "S",
            &ty("S"),
            &sig("S::refresh", "i64", None),
        )
        .expect("emits"),
    );
    assert!(s.contains("::leaf_cache::CacheOp::CachePut"), "got: {s}");
}

#[test]
fn cacheable_requires_a_name_and_a_manager() {
    let err = parse_cache("manager = M", Concern::Cacheable).expect_err("no name errors");
    assert!(err.message.contains("cache name"), "got: {}", err.message);
    let err = parse_cache(r#""users""#, Concern::Cacheable).expect_err("no manager errors");
    assert!(err.message.contains("manager"), "got: {}", err.message);
}

#[test]
fn cacheable_key_on_a_no_arg_method_is_an_error() {
    let args = parse_cache(r##""u", key = "#0", manager = M"##, Concern::Cacheable).unwrap();
    let err = emit_cache(
        Concern::Cacheable,
        &args,
        "S",
        &ty("S"),
        &sig("S::find", "i64", None),
    )
    .expect_err("keying a no-arg method errors");
    assert!(err.message.contains("no argument to key on"), "got: {}", err.message);
}

#[test]
fn cacheable_key_non_zero_is_rejected_in_v1() {
    let err = parse_cache(r##""u", key = "#3", manager = M"##, Concern::Cacheable)
        .expect("parses the index")
        .key_arg;
    assert_eq!(err, Some(3));
    let args = CacheableArgs { key_arg: Some(3), ..Default::default() };
    let err = emit_cache(
        Concern::Cacheable,
        &CacheableArgs {
            cache_names: vec!["u".into()],
            manager: Some(ManagerRef { ty: ty("M"), trait_object: false }),
            ..args
        },
        "S",
        &ty("S"),
        &sig("S::find", "i64", Some("u64")),
    )
    .expect_err("a non-#0 key is rejected in v1");
    assert!(err.message.contains("only `key = \"#0\"`"), "got: {}", err.message);
}

#[test]
fn validated_emits_a_validation_advisor_row_over_the_first_arg() {
    let ts = emit_validated(
        "SignupService",
        &ty("SignupService"),
        &sig("SignupService::create", "Result<String, LeafError>", Some("CreateUser")),
    )
    .expect("emits");
    syn::parse_str::<syn::File>(&ts).expect("valid items");
    let s = flat(&ts);
    assert!(s.contains("::core::any::TypeId::of::<SignupService>()"), "got: {s}");
    assert!(s.contains("::leaf_validation::ValidationPointcut::new"), "got: {s}");
    assert!(
        s.contains("::leaf_validation::single_arg_make_interceptor::<CreateUser>()"),
        "the validator is keyed on the first arg type: {s}"
    );
    assert!(s.contains("order:::leaf_validation::validation_order_key()"), "got: {s}");
}

#[test]
fn validated_on_a_no_arg_method_is_an_error() {
    let err = emit_validated("S", &ty("S"), &sig("S::ping", "()", None))
        .expect_err("validating a no-arg method errors");
    assert!(err.message.contains("no argument"), "got: {}", err.message);
}

#[test]
fn retryable_defaults_to_three_attempts_no_backoff() {
    let args = parse_retryable("").expect("empty parses");
    assert_eq!(args, RetryableArgs { max: 3, backoff: Backoff::Immediate });
}

#[test]
fn retryable_emits_a_retry_advisor_row_with_the_classifier() {
    let args = parse_retryable("max = 5").expect("parses");
    assert_eq!(args.max, 5);
    let ts = emit_retryable(
        &args,
        "FlakyService",
        &ty("FlakyService"),
        &sig("FlakyService::flaky", "Result<i64, LeafError>", Some("i64")),
    )
    .expect("emits");
    syn::parse_str::<syn::File>(&ts).expect("valid items");
    let s = flat(&ts);
    assert!(s.contains("::core::any::TypeId::of::<FlakyService>()"), "got: {s}");
    assert!(s.contains("::leaf_resilience::ResiliencePointcut::new"), "got: {s}");
    assert!(s.contains("::leaf_core::RetryPolicy::new(5u32)"), "got: {s}");
    assert!(s.contains("::leaf_resilience::NoBackoff"), "got: {s}");
    assert!(s.contains("::leaf_resilience::result_classifier::<i64>()"), "got: {s}");
    assert!(s.contains("::leaf_resilience::retry_order_key()"), "got: {s}");
    assert!(s.contains(".with_sleeper(::leaf_resilience::default_sleeper())"), "got: {s}");
}

#[test]
fn retryable_exponential_backoff_lowers_to_the_const_policy() {
    let args = parse_retryable("max = 4, backoff = exponential(base = 10, mult = 2.0)")
        .expect("parses");
    assert_eq!(args.backoff, Backoff::Exponential { base_ms: 10, mult: "2".to_string() });
    let s = flat(
        &emit_retryable(
            &args,
            "S",
            &ty("S"),
            &sig("S::flaky", "Result<i64, LeafError>", None),
        )
        .expect("emits"),
    );
    assert!(s.contains("::leaf_resilience::ExponentialBackoff::new"), "got: {s}");
    assert!(s.contains("from_millis(10u64)"), "got: {s}");
}

#[test]
fn retryable_fixed_backoff_lowers() {
    let args = parse_retryable("backoff = fixed(50)").expect("parses");
    assert_eq!(args.backoff, Backoff::Fixed(50));
    let s = flat(
        &emit_retryable(&args, "S", &ty("S"), &sig("S::f", "Result<i64,E>", None)).expect("emits"),
    );
    assert!(s.contains("::leaf_resilience::FixedBackoff"), "got: {s}");
    assert!(s.contains("from_millis(50u64)"), "got: {s}");
}

#[test]
fn concurrency_limit_emits_a_gate_advisor_row() {
    let args = parse_concurrency_limit("2, gate = LimitGate").expect("parses");
    assert_eq!(args.gate.as_deref(), Some("LimitGate"));
    let ts = emit_concurrency_limit(
        &args,
        "GuardedService",
        &ty("GuardedService"),
        &sig("GuardedService::guarded", "i64", Some("i64")),
    )
    .expect("emits");
    syn::parse_str::<syn::File>(&ts).expect("valid items");
    let s = flat(&ts);
    assert!(s.contains("::core::any::TypeId::of::<GuardedService>()"), "got: {s}");
    assert!(
        s.contains("::leaf_resilience::make_concurrency_interceptor::<LimitGate>()"),
        "got: {s}"
    );
    assert!(s.contains("order:::leaf_resilience::concurrency_order_key()"), "got: {s}");
}

#[test]
fn concurrency_limit_requires_a_gate() {
    let err = parse_concurrency_limit("2").expect_err("no gate errors");
    assert!(err.message.contains("gate"), "got: {}", err.message);
}

#[test]
fn emit_concern_dispatches_to_the_right_concern() {
    let ts = emit_concern(
        Concern::Validated,
        "",
        "S",
        &ty("S"),
        &sig("S::create", "Result<String, E>", Some("Req")),
    )
    .expect("emits");
    assert!(flat(&ts).contains("::leaf_validation::single_arg_make_interceptor::<Req>()"));
}

#[test]
fn result_ok_ty_unwraps_result_else_passes_through() {
    let ok = result_ok_ty(&ty("Result<i64, E>"));
    assert_eq!(ok, "i64");
    let passthrough = result_ok_ty(&ty("u32"));
    assert_eq!(passthrough, "u32");
}
