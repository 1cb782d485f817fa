//! What arguments are read as, and what stands in front of the rows.
use leaf_codegen::advisor::{parse_advice_args, AdviceKind};
use leaf_codegen::app::parse_main_args;
use leaf_codegen::conditional::parse_conditional;
use leaf_codegen::descriptor::Scope;
use leaf_codegen::items::{Fields, FnItem, StructItem};
use leaf_codegen::scheduling::{parse_cache_args, parse_schedule, ScheduleSpec};
use leaf_codegen::stereotype::{emit_bean, emit_struct, Stereotype};

#[test]
fn caches_are_named_one_by_one_or_in_a_list() {
    let names = |attr: &str| parse_cache_args(attr).expect("parses").cache_names;
    assert_eq!(names("caches = [\"a\", \"b\"]"), vec!["a", "b"]);
    assert_eq!(names("\"z\", caches = [\"a\", \"b\"], \"y\""), vec!["z", "a", "b", "y"]);
    assert_eq!(names("\"a\", caches = []"), vec!["a"]);
}

#[test]
fn the_first_kind_of_an_advice_stays() {
    let kind = |attr: &str| parse_advice_args(attr).expect("parses").0;
    assert_eq!(kind("before, after"), AdviceKind::Before);
    assert_eq!(kind("order = 1, after, before"), AdviceKind::After);
    assert_eq!(kind("order = 1"), AdviceKind::Around);
}

#[test]
fn attributes_of_an_argument_are_passed_over() {
    let cache = parse_cache_args("#[x] \"a\", sync = #[y] true").expect("parses");
    assert_eq!(cache.cache_names, vec!["a"]);
    assert!(cache.sync);
    assert_eq!(parse_advice_args("#[x] before").expect("parses").0, AdviceKind::Before);
    assert_eq!(
        parse_schedule("cron = #[x] \"0 * * * *\"").expect("parses"),
        ScheduleSpec::Cron("0 * * * *".to_string())
    );
    assert!(parse_conditional("#[x] true").is_ok());
}

#[test]
fn a_primary_source_is_kept_as_a_path() {
    let primary = |attr: &str| parse_main_args(attr).expect("parses").primary;
    assert_eq!(primary("app::Main"), Some("app :: Main".to_string()));
    assert_eq!(primary("<A as B>::C"), Some("B :: C".to_string()));
    assert_eq!(primary("#[x] Main"), Some("Main".to_string()));
}

#[test]
fn the_item_stands_in_front_of_its_rows() {
    let item = StructItem {
        source: "pub struct Desk ;".to_string(),
        ident: "Desk".to_string(),
        generic: false,
        has_where: false,
        impl_generics: String::new(),
        type_generics: String::new(),
        where_clause: String::new(),
        fields: Fields::Unit,
    };
    let text = emit_struct(&item, Stereotype::Component, "").expect("emits");
    assert!(text.starts_with("pub struct Desk ; "), "got: {text}");
    assert_eq!(text.matches("pub struct Desk").count(), 1);
    assert!(text.len() > "pub struct Desk ; ".len());
    let func = FnItem {
        source: "fn desk () -> Desk { Desk }".to_string(),
        ident: "desk".to_string(),
        generic: false,
        params: vec![],
        output: Some("Desk".to_string()),
    };
    let text = emit_bean(&func, None, Scope::Singleton).expect("emits");
    assert!(text.starts_with("fn desk () -> Desk { Desk } "), "got: {text}");
}
