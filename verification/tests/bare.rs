//! Attributes without arguments.
use leaf_codegen::advisor::{parse_advice_args, parse_advisor_args, AdviceKind, AdvisorArgs};
use leaf_codegen::app::{parse_main_args, MainArgs};
use leaf_codegen::args::parse_arguments;
use leaf_codegen::concern::{
    parse_cache, parse_concurrency_limit, parse_retryable, Backoff, Concern, RetryableArgs,
};
use leaf_codegen::conditional::{parse_conditional, CondExpr};
use leaf_codegen::listener::{parse_listener_args, Defer, ListenerArgs};
use leaf_codegen::metas::parse_metas;
use leaf_codegen::stereotype::{parse_args, StereotypeArgs};

#[test]
fn there_is_nothing_in_an_empty_list() {
    assert_eq!(parse_arguments("").unwrap(), vec![]);
    assert_eq!(parse_metas("").unwrap(), vec![]);
}

#[test]
fn attributes_without_arguments_stand_for_their_defaults() {
    assert_eq!(parse_args("").unwrap(), StereotypeArgs::default());
    assert_eq!(
        parse_advice_args("").unwrap(),
        (AdviceKind::Around, AdvisorArgs { order: None })
    );
    assert_eq!(parse_advisor_args("").unwrap(), AdvisorArgs { order: None });
    assert_eq!(parse_main_args("").unwrap(), MainArgs { primary: None, scan: vec![] });
    assert_eq!(parse_conditional("").unwrap(), CondExpr::All(vec![]));
    assert_eq!(
        parse_retryable("").unwrap(),
        RetryableArgs { max: 3, backoff: Backoff::Immediate }
    );
    let listener = |defer| ListenerArgs { order: None, defer, has_condition: false };
    assert_eq!(parse_listener_args("", false).unwrap(), listener(Defer::Inline));
    assert_eq!(parse_listener_args("", true).unwrap(), listener(Defer::AfterCommit));
}

#[test]
fn attributes_that_need_an_argument_say_which() {
    for (concern, keyword) in [
        (Concern::Cacheable, "cacheable"),
        (Concern::CachePut, "cache_put"),
        (Concern::CacheEvict, "cache_evict"),
    ] {
        assert_eq!(
            parse_cache("", concern).unwrap_err().message,
            format!(
                "#[{keyword}] requires at least one cache name (`\"users\"` or `cache = \"users\"`)"
            )
        );
    }
    let told = parse_concurrency_limit("").unwrap_err().message;
    assert!(told.starts_with("#[concurrency_limit] requires `gate = <ConcurrencyGate bean type>`"), "got: {told}");
}
