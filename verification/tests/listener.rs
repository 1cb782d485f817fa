//! Tests of `listener`.
use leaf_codegen::listener::{emit_listener, parse_listener_args, Defer, ListenerArgs};


fn flat(text: &str) -> String {
    let tokens = text.parse::<proc_macro2::TokenStream>().expect("tokens");
    tokens.to_string().split_whitespace().collect::<String>()
}

#[test]
fn emits_an_absolute_core_event_listener_row_into_the_slice() {
    let ts = emit_listener("OnUserCreated", &ListenerArgs::default());
    syn::parse_str::<syn::File>(&ts).expect("valid Rust items");
    let s = flat(&ts);
    assert!(
        s.contains("#[::leaf_core::linkme::distributed_slice(::leaf_core::EVENT_LISTENERS)]"),
        "got: {s}"
    );
    assert!(s.contains("#[linkme(crate=::leaf_core::linkme)]"), "got: {s}");
    assert!(s.contains("::leaf_core::EventListenerRow{"), "got: {s}");
}

#[test]
fn listener_contract_is_module_qualified_at_the_definition_site() {
    let s = flat(&emit_listener("OnUserCreated", &ListenerArgs::default()));
    assert!(
        s.contains(
            r#"::leaf_core::ContractId::of(::core::concat!(::core::module_path!(),"::","OnUserCreated"))"#
        ),
        "got: {s}"
    );
}

#[test]
fn a_plain_listener_defers_to_none_inline() {
    let s = flat(&emit_listener("L", &ListenerArgs::default()));
    assert!(
        s.contains(
            "pubconst__leaf_listener_phase_L:::core::option::Option<::leaf_core::TxPhase>=::core::option::Option::None"
        ),
        "got: {s}"
    );
}

#[test]
fn a_transactional_listener_carries_its_tx_phase() {
    let args =
        parse_listener_args(r#"phase = "after_commit""#, true)
            .expect("parses");
    assert_eq!(args.defer, Defer::AfterCommit);
    let s = flat(&emit_listener("OnOrder", &args));
    assert!(
        s.contains("::core::option::Option::Some(::leaf_core::TxPhase::AfterCommit)"),
        "got: {s}"
    );
}

#[test]
fn the_transactional_default_phase_is_after_commit() {
    let args = parse_listener_args("", true).expect("parses");
    assert_eq!(args.defer, Defer::AfterCommit);
}

#[test]
fn a_condition_guard_sets_the_condition_slot_flag() {
    let args =
        parse_listener_args(r#"condition = "event.active""#, false)
            .expect("parses");
    assert!(args.has_condition);
    let s = flat(&emit_listener("L", &args));
    assert!(
        s.contains("pubconst__leaf_listener_has_condition_L:bool=true"),
        "got: {s}"
    );
}

#[test]
fn an_explicit_order_rides_the_pairing_const() {
    let args =
        parse_listener_args("order = 10", false).expect("parses");
    assert_eq!(args.order, Some(10));
    let s = flat(&emit_listener("L", &args));
    assert!(s.contains("value:10i32"), "got: {s}");
    assert!(s.contains("source:::leaf_core::OrderSource::Annotation"), "got: {s}");
}

#[test]
fn phase_on_a_plain_listener_is_a_hard_error() {
    let err = parse_listener_args(r#"phase = "after_commit""#, false)
        .expect_err("phase needs the transactional form");
    assert!(
        err.message.contains("transactional_event_listener"),
        "got: {}",
        err.message
    );
}

#[test]
fn an_unknown_phase_is_a_hard_error() {
    let err = parse_listener_args(r#"phase = "during_commit""#, true)
        .expect_err("unknown phase errors");
    assert!(err.message.contains("unknown transactional phase"), "got: {}", err.message);
}

#[test]
fn an_unknown_listener_arg_is_a_hard_error() {
    let err = parse_listener_args("bogus = 1", false)
        .expect_err("unknown arg errors");
    assert!(err.message.contains("unknown #[event_listener] argument"), "got: {}", err.message);
}
