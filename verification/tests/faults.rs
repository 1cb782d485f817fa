//! What is said where an input is refused.
use leaf_codegen::advisor::{parse_advice_args, parse_advisor_args, proxy_ident};
use leaf_codegen::annotation::{resolve, AliasFor, Annotation, AttrValue};
use leaf_codegen::app::{emit_runner, parse_main_args, runner_input};
use leaf_codegen::args::EmitError;
use leaf_codegen::cargo_leaf::parse_args as parse_command;
use leaf_codegen::concern::{
    emit_concern, parse_cache, parse_concurrency_limit, parse_retryable, parse_transactional,
    Concern, MethodSig,
};
use leaf_codegen::conditional::{
    auto_config_input, emit_auto_config, parse_conditional, parse_import,
};
use leaf_codegen::config::{emit_bind_target, emit_value, parse_config_args};
use leaf_codegen::config_impl::{emit_aspect_impl, emit_configuration_impl};
use leaf_codegen::grpc_controller::expand_grpc_controller_impl;
use leaf_codegen::holder::{parse_holder_args, validate_holder_struct};
use leaf_codegen::items::{
    Attr, DeriveItem, Field, Fields, FnItem, ImplItem, MethodItem, Param, PathItem, StructItem,
};
use leaf_codegen::listener::parse_listener_args;
use leaf_codegen::parsers::{max_arg_index, parse_value_template};
use leaf_codegen::profile::{parse_profile, parse_profile_attr};
use leaf_codegen::scheduling::{parse_cache_args, parse_catalog_args, parse_schedule};
use leaf_codegen::stereotype::{bean_input, emit_struct, parse_args, Stereotype};
use leaf_codegen::validate::emit_validate;
use leaf_codegen::descriptor::Scope;

fn said<T>(res: Result<T, EmitError>) -> String {
    match res {
        Ok(_) => panic!("accepted"),
        Err(e) => e.message,
    }
}

#[test]
fn profile_expressions_that_cannot_be_read() {
    let told = |s: &str| said(parse_profile(s));
    assert_eq!(told(""), "empty profile expression");
    assert_eq!(told("  "), "empty profile expression");
    assert_eq!(told("a &"), "unexpected end of profile expression");
    assert_eq!(told("(a | b"), "missing closing parenthesis in profile expression");
    assert_eq!(told("& a"), "expected a profile name, `!`, or `(`, got `And`");
    assert_eq!(told("a b"), "trailing tokens in profile expression `a b`");
    assert_eq!(told("a)"), "trailing tokens in profile expression `a)`");
    assert_eq!(
        told("a | b & c"),
        "mixed `&` and `|` without parentheses in profile expression"
    );
    assert!(told("a + b").contains("`+`"), "{}", told("a + b"));
    assert_eq!(
        said(parse_profile_attr("")),
        "#[profile(...)] requires a profile expression"
    );
}

#[test]
fn conditions_that_cannot_be_read() {
    let told = |s: &str| said(parse_conditional(s));
    assert_eq!(
        told("on_weather(\"rain\")"),
        "unknown #[conditional] kind `on_weather` (expected on_property/on_bean/on_missing_bean/on_single_candidate/on_class/on_missing_class/all/any/not)"
    );
    assert_eq!(
        told("on_property()"),
        "`on_property` requires a property key string as its first argument"
    );
    assert_eq!(told("on_bean(A, B)"), "`on_bean` takes exactly one type argument, got 2");
    assert_eq!(told("on_class()"), "`on_class` takes exactly one string argument, got 0");
    assert_eq!(told("not(true, false)"), "`not(..)` takes exactly one child, got 2");
    assert_eq!(
        told("on_property(\"k\", having_value = 3)"),
        "attribute `having_value` must be a string or bool, got `3`"
    );
    assert_eq!(told("f()()"), "a #[conditional] node must be a simple `kind(...)` call");
    assert_eq!(
        told("leaf::on_class(\"k\")"),
        "a #[conditional] node must be a simple `kind(...)` call"
    );
    assert_eq!(
        told("leaf::on_class"),
        "expected a condition kind like `on_property(...)`"
    );
    assert_eq!(
        told("on_property(\"k\", a::prefix = \"x\")"),
        "a named condition attribute must use a bare identifier key"
    );
    assert_eq!(
        told("7"),
        "unexpected #[conditional] expression `7` (expected `on_*(...)`, `all/any/not(...)`, or a bool literal)"
    );
    assert_eq!(
        said(parse_import("")),
        "#[import(..)] requires at least one type to import"
    );
}

#[test]
fn transactional_arguments_that_are_refused() {
    let told = |s: &str| said(parse_transactional(s));
    assert_eq!(
        told("rollback_for(E)"),
        "#[transactional] requires `manager = <TransactionManager bean type>` (there is no default manager bean type)"
    );
    assert_eq!(
        told("manager = M, colour = 1"),
        "unknown #[transactional] argument `colour` (expected `manager`)"
    );
    assert_eq!(
        told("manager = M, paint(1)"),
        "unknown #[transactional] argument `paint` (expected `manager`)"
    );
    assert_eq!(
        told("a::b(1)"),
        "#[transactional]: a call argument needs a bare name, e.g. `rollback_for(..)`"
    );
    assert!(
        told("manager = 3").starts_with("`manager` must be a bean TYPE (a path or `dyn Trait`): "),
        "{}",
        told("manager = 3")
    );
}

#[test]
fn cache_arguments_that_are_refused() {
    let told = |s: &str| said(parse_cache(s, Concern::CachePut));
    assert_eq!(
        told("manager = M"),
        "#[cache_put] requires at least one cache name (`\"users\"` or `cache = \"users\"`)"
    );
    assert_eq!(told("\"users\""), "#[cache_put] requires `manager = <CacheManager bean type>`");
    assert_eq!(
        told("\"users\", key = \"id\""),
        "unsupported cache key `\"id\"`: v1 supports only `\"#N\"` (a positional arg index)"
    );
    assert_eq!(
        told("\"users\", key = 0"),
        "`key` must be a string of the form `\"#0\"` (key on positional arg 0)"
    );
    assert_eq!(told("cache = 4"), "`cache` must be a cache-name string");
    assert_eq!(
        told("\"users\", ttl = 4"),
        "unknown #[cache_put] argument `ttl` (expected `cache`/`key`/`manager`/`all_entries`/`sync`)"
    );
    assert_eq!(told("7"), "unexpected #[cache_put] argument `7`");
}

#[test]
fn retry_arguments_that_are_refused() {
    let told = |s: &str| said(parse_retryable(s));
    assert_eq!(told("times = 3"), "unknown #[retryable] argument `times` (expected `max/backoff`)");
    assert_eq!(
        told("backoff = often(3)"),
        "unknown backoff `often` (expected `fixed`/`exponential`/`none`)"
    );
    assert_eq!(
        told("backoff = fixed()"),
        "`fixed(ms)` needs one integer-millisecond argument"
    );
    assert_eq!(told("backoff = exponential(mult = 2.0)"), "`exponential` needs `base = <ms>`");
    assert_eq!(
        told("backoff = exponential(base = 1, cap = 9)"),
        "unknown `exponential` arg `cap` (expected `base`/`mult`)"
    );
    assert_eq!(
        told("backoff = 12"),
        "backoff must be `fixed(ms)` / `exponential(base = ms, mult = f)` / `none`, got `12`"
    );
    assert_eq!(told("max = \"many\""), "expected an integer literal, got `\"many\"`");
    assert_eq!(
        told("backoff = exponential(base = 1, mult = \"x\")"),
        "expected a float, got `\"x\"`"
    );
}

#[test]
fn a_refused_expression_is_shown_as_it_is_printed() {
    let told = |s: &str| said(parse_retryable(s));
    assert_eq!(told("max=-1"), "unexpected #[retryable] argument `max = - 1`");
    assert_eq!(told("max = -1"), "expected an integer literal, got `- 1`");
    assert_eq!(told("max=&&x"), "unexpected #[retryable] argument `max = & & x`");
    assert_eq!(told("a::b"), "unexpected #[retryable] argument `a :: b`");
    assert_eq!(told("backoff = exponential(base = 1, mult = -1.5)"), "expected a float, got `- 1.5`");
}

#[test]
fn limit_arguments_that_are_refused() {
    let told = |s: &str| said(parse_concurrency_limit(s));
    assert!(
        told("2").starts_with("#[concurrency_limit] requires `gate = <ConcurrencyGate bean type>`"),
        "{}",
        told("2")
    );
    assert_eq!(
        told("permits = 2"),
        "unknown #[concurrency_limit] argument `permits` (expected `gate`)"
    );
}

#[test]
fn validated_takes_no_arguments() {
    let sig = MethodSig {
        method_path: "Desk::open".to_string(),
        ret_type: "()".to_string(),
        first_arg_type: Some("Form".to_string()),
    };
    assert_eq!(
        said(emit_concern(Concern::Validated, "strict", "Desk", "Desk", &sig)),
        "#[validated] takes no arguments"
    );
}

#[test]
fn advice_arguments_that_are_refused() {
    let told = |s: &str| said(parse_advice_args(s));
    assert_eq!(
        told("sideways"),
        "unknown advice kind `sideways` (expected before/after/after_returning/after_throwing/around)"
    );
    assert_eq!(
        told("before, sideways"),
        "unknown advice kind `sideways` (expected before/after/after_returning/after_throwing/around)"
    );
    assert_eq!(told("a::before"), "an #[advice] kind must be a bare identifier");
    assert_eq!(
        told("before, rank = 1"),
        "unknown #[advice] argument `rank` (expected `order`)"
    );
    assert_eq!(
        told("\"before\""),
        "unexpected #[advice] argument `\"before\"` (expected a kind keyword or `order = N`)"
    );
    assert_eq!(
        told("before, order = 2147483648"),
        "`order` must be an i32 integer: number too large to fit in target type"
    );
    assert_eq!(
        told("before, order = \"1\""),
        "`order` must be an integer literal, got `\"1\"`"
    );
    assert_eq!(
        said(parse_advisor_args("before")),
        "unexpected advisor argument `before` (expected `order = N`)"
    );
    assert!(proxy_ident("&u8").is_err());
}

#[test]
fn main_arguments_that_are_refused() {
    assert_eq!(
        said(parse_main_args("scan(core)")),
        "`scan(...)` entries must be crate-name string literals"
    );
    assert_eq!(
        said(parse_main_args("7")),
        "unexpected #[leaf::main] argument `7` (expected a primary source type and/or `scan(\"crate\", …)`)"
    );
}

#[test]
fn listener_arguments_that_are_refused() {
    let told = |s: &str| said(parse_listener_args(s, false));
    assert_eq!(told("condition = 1"), "`condition` must be a string expression");
    assert_eq!(
        told("phase = \"after_commit\""),
        "`phase` is only valid on #[transactional_event_listener]"
    );
    assert_eq!(
        told("rank = 1"),
        "unknown #[event_listener] argument `rank` (expected `order`/`condition`/`phase`)"
    );
    assert_eq!(
        told("fast"),
        "#[event_listener] arguments must be `key = value` pairs, got `fast`"
    );
    assert_eq!(said(parse_listener_args("phase = 1", true)), "`phase` must be a string");
    assert_eq!(
        said(parse_listener_args("phase = \"midway\"", true)),
        "unknown transactional phase `midway` (expected before_commit/after_commit/after_rollback/after_completion)"
    );
}

#[test]
fn schedule_arguments_that_are_refused() {
    let told = |s: &str| said(parse_schedule(s));
    assert_eq!(told(""), "#[scheduled] requires one of `cron`/`fixed_rate`/`fixed_delay`");
    assert_eq!(
        told("fixed_rate = 5, fixed_delay = 5"),
        "#[scheduled] accepts exactly one of `cron`/`fixed_rate`/`fixed_delay`"
    );
    assert_eq!(told("cron = 5"), "`cron` must be a string expression");
    assert_eq!(
        told("every = 5"),
        "unknown #[scheduled] argument `every` (expected `cron`/`fixed_rate`/`fixed_delay`/`initial_delay`)"
    );
    assert_eq!(told("daily"), "#[scheduled] arguments must be `key = value` pairs, got `daily`");
    assert_eq!(told("fixed_rate = \"5\""), "expected an integer literal, got `\"5\"`");
    assert_eq!(
        told("fixed_rate = 18446744073709551616"),
        "expected a non-negative integer: number too large to fit in target type"
    );
}

#[test]
fn cache_and_catalog_arguments_that_are_refused() {
    assert_eq!(said(parse_cache_args("")), "#[cacheable] requires at least one cache name");
    assert_eq!(
        said(parse_cache_args("\"a\", ttl = true")),
        "unknown #[cacheable] argument `ttl` (expected `sync`/`before_invocation`/`all_entries`)"
    );
    assert_eq!(said(parse_cache_args("\"a\", sync = 1")), "expected a bool, got `1`");
    assert_eq!(
        said(parse_cache_args("caches = \"a\"")),
        "expected a `[\"…\", …]` string array, got `\"a\"`"
    );
    assert_eq!(
        said(parse_cache_args("caches = [a]")),
        "array elements must be string literals"
    );
    assert_eq!(
        said(parse_cache_args("caches = []")),
        "#[cacheable] requires at least one cache name"
    );
    assert_eq!(said(parse_catalog_args("")), "#[catalog] requires a `basename`");
    assert_eq!(said(parse_catalog_args("basename = 1")), "`basename` must be a string");
    assert_eq!(
        said(parse_catalog_args("basename = \"m\", locales = [1]")),
        "array elements must be string literals"
    );
    assert_eq!(
        said(parse_catalog_args("basename = \"m\", locales = \"en\"")),
        "expected a `[\"…\", …]` string array, got `\"en\"`"
    );
}

#[test]
fn holder_arguments_that_are_refused() {
    let told = |s: &str| said(parse_holder_args(s));
    assert_eq!(told(""), "#[holder] requires a `name` and a `value`");
    assert_eq!(told("value = u8"), "#[holder] requires a `name`");
    assert_eq!(told("name = \"n\""), "#[holder] requires a `value` type");
    assert_eq!(told("name = 1"), "`name` must be a string");
    assert_eq!(
        told("policy = share"),
        "`policy` must be `inherit` or `isolate`, got `share`"
    );
    assert_eq!(
        told("size = 1"),
        "unknown #[holder] argument `size` (expected `name`/`policy`/`value`/`accessor`)"
    );
    assert_eq!(told("7"), "#[holder] arguments must be `key = value` pairs, got `7`");
    let mut item = unit("Current");
    item.fields = Fields::Named(vec![]);
    assert!(said(validate_holder_struct(&item)).contains("`struct Current;`"));
    item.fields = Fields::Unit;
    item.generic = true;
    assert!(said(validate_holder_struct(&item)).contains("non-generic unit struct"));
}

fn unit(ident: &str) -> StructItem {
    StructItem {
        source: format!("struct {ident};"),
        ident: ident.to_string(),
        generic: false,
        has_where: false,
        impl_generics: String::new(),
        type_generics: String::new(),
        where_clause: String::new(),
        fields: Fields::Unit,
    }
}

#[test]
fn stereotype_arguments_that_are_refused() {
    let told = |s: &str| said(parse_args(s));
    assert_eq!(
        told("scope = \"forever\""),
        "unknown scope `forever` (expected `singleton`/`prototype`/`request`)"
    );
    assert_eq!(
        told("role = \"king\""),
        "unknown role `king` (expected `application`/`support`/`infrastructure`)"
    );
    assert_eq!(
        told("rank = \"1\""),
        "unknown stereotype argument `rank` (expected `name`/`scope`/`role`)"
    );
    assert_eq!(told("name = 1"), "`name` must be a string literal");
    assert_eq!(told("lazy"), "stereotype arguments must be `key = \"value\"` pairs");
}

#[test]
fn generic_structs_are_no_beans() {
    let item = StructItem { generic: true, ..unit("Repo") };
    let wanted = "`Repo` is generic: a generic bean has no single concrete type to register as a const Descriptor row. Register a concrete instantiation with `register_component!(Repo<Concrete>)`.";
    assert_eq!(said(runner_input(&item)), wanted);
    assert_eq!(said(emit_runner(&item)), wanted);
    assert_eq!(said(auto_config_input(&item)), wanted);
    assert_eq!(said(emit_auto_config(&item, None)), wanted);
    assert_eq!(said(emit_struct(&item, Stereotype::Component, "")), wanted);
}

#[test]
fn a_bean_function_needs_a_result_and_no_receiver() {
    let mut func = FnItem {
        source: "fn make() { }".to_string(),
        ident: "make".to_string(),
        generic: false,
        params: vec![],
        output: None,
    };
    assert!(said(bean_input(&func, None, Scope::Singleton)).starts_with(
        "`make` is a @bean but has no return type"
    ));
    func.output = Some("Repo".to_string());
    func.params.push(Param::Receiver);
    assert!(said(bean_input(&func, None, Scope::Singleton)).starts_with(
        "`make` is a @bean with a `self` receiver"
    ));
}

#[test]
fn configuration_arguments_and_targets_that_are_refused() {
    assert_eq!(
        said(parse_config_args("")),
        "#[config_properties] requires a `prefix = \"...\"` argument"
    );
    assert_eq!(said(parse_config_args("prefix = 1")), "`prefix` must be a string literal");
    assert_eq!(
        said(parse_config_args("prefix = \"a\", colour = \"b\"")),
        "unknown #[config_properties] argument `colour` (expected `prefix` / `validate`)"
    );
    let target = |fields: Option<Fields>| DeriveItem {
        ident: "Conf".to_string(),
        generic: false,
        fields,
    };
    assert_eq!(
        said(emit_bind_target(&target(Some(Fields::Unit)))),
        "`Conf` has no named fields: a bind target must be a named-field struct."
    );
    assert_eq!(
        said(emit_bind_target(&target(None))),
        "`Conf` is not a struct: #[derive(BindTarget)] / #[config_properties] target a named-field struct (the JavaBean shape)."
    );
    assert!(said(emit_value("\"${open\"")).contains("unterminated `${` in value template"));
}

fn field(ident: &str, args: &str) -> DeriveItem {
    DeriveItem {
        ident: "Form".to_string(),
        generic: false,
        fields: Some(Fields::Named(vec![Field {
            ident: ident.to_string(),
            ty: "i64".to_string(),
            attrs: vec![Attr {
                source: format!("# [validate ({args})]"),
                ident: Some("validate".to_string()),
                last: "validate".to_string(),
                args: Some(args.to_string()),
            }],
        }])),
    }
}

#[test]
fn constraints_that_are_refused() {
    let told = |args: &str| said(emit_validate(&field("age", args)));
    assert_eq!(
        told("odd"),
        "unknown `#[validate(odd)]` constraint on field `age` (expected one of `not_empty`/`email`/`nested`/`min`/`max`/`range`/`pattern`)"
    );
    assert_eq!(
        told("min = \"1\""),
        "`#[validate(min = ...)]` on field `age` requires an integer literal"
    );
    assert_eq!(
        told("range(min = 1)"),
        "`#[validate(range(..))]` on field `age` requires both `min` and `max`"
    );
    assert_eq!(
        told("range(min = 1, step = 2)"),
        "unknown `#[validate(range(..))]` key `step` on field `age` (expected `min`/`max`)"
    );
    assert_eq!(
        told("pattern = 1"),
        "`#[validate(pattern = ...)]` on field `age` requires a string literal"
    );
    assert_eq!(
        told("a::b"),
        "a `#[validate(..)]` constraint must be a single identifier"
    );
}

fn method(ident: &str, attr: Option<&str>, params: Vec<Param>, output: Option<&str>) -> MethodItem {
    MethodItem {
        ident: ident.to_string(),
        generic: false,
        attrs: attr.into_iter().map(|a| Attr {
            source: format!("# [{a}]"),
            ident: Some(a.to_string()),
            last: a.to_string(),
            args: None,
        }).collect(),
        params,
        output: output.map(|t| t.to_string()),
        self_calls: vec![],
    }
}

#[test]
fn impl_blocks_that_are_refused() {
    let block = |methods: Vec<MethodItem>| ImplItem {
        generic: false,
        self_ty: "Conf".to_string(),
        trait_path: None,
        methods,
    };
    assert!(said(emit_configuration_impl(&block(vec![method("make", Some("bean"), vec![], Some("Repo"))])))
        .starts_with("`make` is a `#[configuration]` `#[bean]` method but takes no `self` receiver"));
    assert!(said(emit_configuration_impl(&block(vec![
        method("make", Some("bean"), vec![Param::Receiver], None)
    ])))
    .starts_with("`make` is a `#[bean]` method but has no return type"));
    let mut generic = block(vec![]);
    generic.generic = true;
    assert!(said(emit_aspect_impl(&generic)).starts_with("`Conf` is a generic aspect"));
    generic.methods = vec![method("log", Some("advice"), vec![Param::Receiver], None)];
    assert!(said(emit_aspect_impl(&generic)).starts_with("`Conf_log` is a generic aspect"));
    assert!(said(emit_configuration_impl(&generic)).contains("is a generic `#[configuration]` impl"));
    let mut of_trait = block(vec![]);
    of_trait.trait_path =
        Some(PathItem { leading_colon: false, parents: vec![], last: "Greeter".to_string() });
    assert!(said(emit_aspect_impl(&of_trait)).contains("not a trait impl"));
    assert!(said(expand_grpc_controller_impl(&block(vec![]))).contains("not an inherent impl"));
    let mut rpc = of_trait.clone();
    rpc.methods = vec![method("hello", None, vec![Param::Receiver], Some("u8"))];
    assert!(said(expand_grpc_controller_impl(&rpc)).contains("takes no request argument"));
    let arg = || Param::Typed { name: Some("arg".to_string()), ty: "Hello".to_string() };
    rpc.methods = vec![method("hello", None, vec![Param::Receiver, arg()], Some("u8"))];
    assert!(said(expand_grpc_controller_impl(&rpc)).contains("does not return a `Result<O, Status>`"));
}

#[test]
fn templates_and_patterns_that_are_refused() {
    let told = |s: &str| parse_value_template(s).expect_err("refused").message;
    assert_eq!(told("a ${b"), "unterminated `${` in value template (missing `}`)");
    assert_eq!(told("#{b"), "unterminated `#{` in value template (missing `}`)");
    let told = |s: &str| max_arg_index(s).expect_err("refused").message;
    assert!(told("a {0").starts_with("unterminated `{` in message pattern: \"a {0"), "{}", told("a {0"));
    assert!(told("a {x}").contains("`{x}` is not a `{n}` argument index in \"a {x}"), "{}", told("a {x}"));
}

#[test]
fn aliases_that_cannot_be() {
    let alias = |from: &str, to: &str| AliasFor {
        from_attr: from.to_string(),
        target_marker: None,
        target_attr: to.to_string(),
    };
    let told = |a: Annotation| resolve(&a).expect_err("refused");
    let lone = told(Annotation::new("M").with_alias(alias("a", "b")));
    assert_eq!(lone.on_marker, "M");
    assert!(lone.full_message().starts_with("@AliasFor on `M`: "), "{}", lone.full_message());
    assert!(lone.message.contains("is not reciprocal"), "{}", lone.message);
    let itself = told(Annotation::new("M").with_alias(alias("a", "a")));
    assert!(itself.message.contains("itself"), "{}", itself.message);
    let differ = told(
        Annotation::new("M")
            .with_default("a", AttrValue::Int(1))
            .with_default("b", AttrValue::Int(2))
            .with_alias(alias("a", "b"))
            .with_alias(alias("b", "a")),
    );
    assert!(differ.message.contains("default"), "{}", differ.message);
}

#[test]
fn commands_that_are_refused() {
    let told = |parts: &[&str]| {
        let args: Vec<String> = parts.iter().map(|p| p.to_string()).collect();
        parse_command(&args).expect_err("refused").message
    };
    assert_eq!(told(&["doctor", "now"]), "`doctor` takes no arguments (got `now`)");
    for help in ["help", "-h", "--help"] {
        assert_eq!(told(&[help, "--bogus"]), "`help` takes no arguments (got `--bogus`)");
    }
    assert_eq!(told(&["prepare", "--check", "-x"]), "unknown flag `-x` for `prepare`");
    assert!(told(&["dance"]).starts_with("unknown command `dance`\n\n"), "{}", told(&["dance"]));
}
