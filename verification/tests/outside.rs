//! What the library has from outside, through its public functions.
use leaf_codegen::advisor::{advice_args_of, parse_advice_args, proxy_ident, AdviceKind, AdvisorArgs};
use leaf_codegen::app::{emit_main, parse_main_args, MainArgs};
use leaf_codegen::args::{parse_arguments, parse_expression, ArgKind};
use leaf_codegen::chars::{lines_of, parse_number, trimmed, trimmed_start};
use leaf_codegen::concern::{
    parse_cache, parse_concurrency_limit, parse_transactional, result_ok_ty, Concern,
};
use leaf_codegen::conditional::{emit_import, parse_import};
use leaf_codegen::config::{canonical_name, emit_value};
use leaf_codegen::config_impl::emit_configuration_impl;
use leaf_codegen::descriptor::produced_ty;
use leaf_codegen::forcelink::crate_ident;
use leaf_codegen::holder::accessor_name;
use leaf_codegen::grpc_controller::descriptor_const_path;
use leaf_codegen::items::{Attr, FnItem, ImplItem, MethodItem, Param, PathItem};
use leaf_codegen::metas::{parse_metas, MetaArg, MetaValue};
use leaf_codegen::naming::{derive_default_name, literal_list_text};
use leaf_codegen::parsers::{
    emit_message_entry, max_arg_index, parse_message_bundle, MessageEntry,
};
use leaf_codegen::profile::{parse_profile, ProfileExpr};
use leaf_codegen::scheduling::emit_resource;
use leaf_codegen::stereotype::emit_register;

#[test]
fn texts_become_string_literals() {
    let list = literal_list_text(&["plain".to_string(), "a \"b\" \\ \n".to_string()]);
    assert_eq!(list, r#"&["plain", "a \"b\" \\ \n"]"#);
    let row = emit_resource("Logo", "img/\"x\".png");
    assert!(row.contains(r#""img/\"x\".png""#), "got: {row}");
    let entry = MessageEntry { code: "c".to_string(), pattern: "say \"hi\"".to_string() };
    assert!(emit_message_entry(&entry).contains(r#""say \"hi\"""#));
}

#[test]
fn a_faulty_pattern_is_shown_in_quotes() {
    let told = max_arg_index("say \"{\"").expect_err("refused").message;
    assert_eq!(told, r#"unterminated `{` in message pattern: "say \"{\"""#);
}

#[test]
fn expressions_are_told_apart() {
    let kind = |s: &str| parse_expression(s).unwrap().kind;
    let path = |ident: Option<&str>, path: &str, whole: &str| ArgKind::Path {
        ident: ident.map(|i| i.to_string()),
        path: path.to_string(),
        whole: whole.to_string(),
    };
    assert_eq!(kind("a::b"), path(None, "a :: b", "a :: b"));
    assert_eq!(kind("a"), path(Some("a"), "a", "a"));
    assert_eq!(kind("#[x] a"), path(Some("a"), "a", "a"));
    assert_eq!(kind("<A as B>::C"), path(None, "B :: C", "< A as B > :: C"));
    assert_eq!(kind("#[x] \"a\""), ArgKind::Str("a".to_string()));
    assert!(matches!(kind("\"a\\tb\""), ArgKind::Str(s) if s == "a\tb"));
    assert!(matches!(kind("true"), ArgKind::Bool(true)));
    assert!(matches!(kind("0x_ff_u8"), ArgKind::Int(d) if d == "255"));
    assert!(matches!(kind("1.50f32"), ArgKind::Float(d) if d == "1.50"));
    assert!(matches!(kind("-7"), ArgKind::Neg(inner) if matches!(inner.kind, ArgKind::Int(_))));
    assert!(matches!(kind("!a"), ArgKind::Other));
    assert!(matches!(kind("'c'"), ArgKind::Other));
    match kind("f(1, g)") {
        ArgKind::Call { func, args } => {
            assert_eq!(func.source, "f");
            assert_eq!(args.len(), 2);
            assert_eq!(args[1].source, "g");
        },
        other => panic!("got {other:?}"),
    }
    match kind("[\"a\", \"b\"]") {
        ArgKind::Array(items) => assert_eq!(items.len(), 2),
        other => panic!("got {other:?}"),
    }
    match kind("k = v") {
        ArgKind::Assign { left, right } => {
            assert_eq!((left.source.as_str(), right.source.as_str()), ("k", "v"));
        },
        other => panic!("got {other:?}"),
    }
    assert!(parse_expression("a b").is_err());
}

#[test]
fn a_list_of_arguments_is_split_at_its_commas() {
    let args = parse_arguments("f(1, 2), \"a, b\", k = v,").unwrap();
    assert_eq!(args.len(), 3);
    assert_eq!(args[1].kind, ArgKind::Str("a, b".to_string()));
    assert!(parse_arguments("a,, b").is_err());
    assert_eq!(parse_arguments("").unwrap().len(), 0);
    let read = parse_advice_args("around, order = -3").unwrap();
    assert_eq!(read, (AdviceKind::Around, AdvisorArgs { order: Some(-3) }));
    let same = advice_args_of(&parse_arguments("around, order = -3").unwrap()).unwrap();
    assert_eq!(same, read);
}

#[test]
fn attribute_items_are_told_apart() {
    let metas = parse_metas("lazy, name = \"n\", max = 3, range(min = 1), a::b, f = g").unwrap();
    assert_eq!(metas.len(), 6);
    assert!(matches!(&metas[0], MetaArg::Path(Some(k)) if k == "lazy"));
    assert!(
        matches!(&metas[1], MetaArg::NameValue(Some(k), MetaValue::Str(v)) if k == "name" && v == "n")
    );
    assert!(matches!(&metas[2], MetaArg::NameValue(_, MetaValue::Int(d)) if d == "3"));
    assert!(matches!(&metas[4], MetaArg::Path(None)));
    assert!(parse_metas("name = ").is_err());
}

#[test]
fn types_are_told_apart() {
    assert_eq!(result_ok_ty("std::result::Result<i64, E>"), "i64");
    assert_eq!(result_ok_ty("Vec<i64>"), "Vec<i64>");
    assert_eq!(produced_ty("Result<Repo, E>"), "Repo");
    assert_eq!(produced_ty("&'static Repo"), "&'static Repo");
    let proxy = proxy_ident("a::Desk<u8>").unwrap();
    assert_eq!(proxy, "Desk");
    assert!(emit_register("Repo").is_ok());
    assert!(emit_register("(u8, u8)").is_err());
}

#[test]
fn the_main_function_is_renamed() {
    let source = "async fn main() -> u8 { 7 }".to_string();
    let user_fn = FnItem {
        source,
        ident: "main".to_string(),
        generic: false,
        params: vec![],
        output: Some("u8".to_string()),
    };
    let text = emit_main("demo", &MainArgs::default(), &user_fn);
    assert!(text.contains("async fn __leaf_async_main () -> u8 { 7 }"), "got: {text}");
    assert_eq!(parse_main_args("scan(\"a\")").unwrap().scan, vec!["a".to_string()]);
}

#[test]
fn the_string_of_a_value_attribute_is_read() {
    let text = emit_value("\"a\\\"b ${k}\"").unwrap();
    assert!(text.contains("\"a\\\"b \""), "got: {text}");
    assert!(text.contains("\"k\""), "got: {text}");
}

#[test]
fn paths_of_imports_are_split() {
    let imports = parse_import("a::B, C<u8>").unwrap();
    assert_eq!(imports.len(), 2);
    assert_eq!(imports[0].last, "B");
    assert_eq!(imports[1].last, "C");
    assert!(emit_import("Conf", &imports).contains("a :: B"));
}

#[test]
fn the_tokens_of_an_attribute_are_split_at_commas_outside_brackets() {
    let args = parse_cache("\"a\", cache = \"b\", manager = Map<u8, Vec<u8>>, sync = true", Concern::Cacheable);
    // The comma between `<` and `>` is a comma of the list.
    assert!(args.is_err());
    let args = parse_cache("\"a\", cache = \"b\", manager = (u8, u8), sync = true", Concern::Cacheable)
        .unwrap();
    assert_eq!(args.cache_names, vec!["a".to_string(), "b".to_string()]);
    assert!(args.sync);
    assert!(!args.all_entries);
}

#[test]
fn the_type_of_a_bean_is_printed_back() {
    let args = parse_concurrency_limit("gate = pool::Gate<Vec<u8>>").unwrap();
    assert_eq!(args.gate.as_deref(), Some("pool :: Gate < Vec < u8 > >"));
    let args = parse_transactional("manager=Tx<&'a u8>").unwrap();
    assert_eq!(args.manager.unwrap().ty, "Tx < & 'a u8 >");
}

#[test]
fn white_space_is_what_unicode_says() {
    assert_eq!(trimmed("\u{a0} a b\u{2003}\n"), "a b");
    assert_eq!(trimmed_start("\t\u{85}a "), "a ");
    assert_eq!(lines_of("a\r\nb\n\nc"), vec!["a", "b", "", "c"]);
    assert_eq!(parse_message_bundle(" k = v \n# x\n"), vec![MessageEntry {
        code: "k".to_string(),
        pattern: "v".to_string(),
    }]);
}

#[test]
fn names_of_profiles_may_hold_letters_of_any_script() {
    assert_eq!(parse_profile("été").unwrap(), ProfileExpr::Name("été".to_string()));
    assert!(parse_profile("a\u{b7}b").is_err());
}

#[test]
fn case_is_what_unicode_says() {
    assert_eq!(accessor_name("CurrentUserKey"), "CURRENT_USER");
    assert_eq!(accessor_name("Key"), "KEY");
    assert_eq!(accessor_name("caféÉtat2B"), "CAFé_ÉTAT2_B");
    assert_eq!(derive_default_name("OrderService"), "orderService");
    assert_eq!(derive_default_name("URLMapper"), "URLMapper");
    assert_eq!(derive_default_name("Événement"), "événement");
    assert_eq!(canonical_name("max_pool"), "max-pool");
    assert_eq!(crate_ident("data-jpa"), "data_jpa");
    let service = PathItem {
        leading_colon: true,
        parents: vec!["pb".to_string()],
        last: "GreeterÉcho".to_string(),
    };
    assert_eq!(
        descriptor_const_path(&service, "sayHello"),
        "::pb::greeterécho::SAY_HELLO_DESCRIPTOR"
    );
}

#[test]
fn a_call_of_a_sibling_is_answered_with_the_type_to_take() {
    let bean = |name: &str, calls: &[&str]| MethodItem {
        ident: name.to_string(),
        generic: false,
        attrs: vec![Attr {
            source: "# [bean]".to_string(),
            ident: Some("bean".to_string()),
            last: "bean".to_string(),
            args: None,
        }],
        params: vec![Param::Receiver],
        output: Some("Thing".to_string()),
        self_calls: calls.iter().map(|c| c.to_string()).collect(),
    };
    let item = ImplItem {
        generic: false,
        self_ty: "Conf".to_string(),
        trait_path: None,
        methods: vec![bean("order_été", &[]), bean("shop", &["helper", "order_été"])],
    };
    let told = emit_configuration_impl(&item).expect_err("refused").message;
    assert!(told.contains("self.order_été()"), "got: {told}");
    assert!(told.contains("Ref<OrderÉté>"), "got: {told}");
}

#[test]
fn numerals_have_a_sign_at_most_in_front() {
    assert_eq!(parse_number("007", 255), Some(7));
    assert_eq!(parse_number("+7", 255), Some(7));
    assert_eq!(parse_number("256", 255), None);
    assert_eq!(parse_number("-1", 255), None);
    assert_eq!(parse_number("+", 255), None);
    assert_eq!(parse_number("", 255), None);
    assert_eq!(parse_number("18446744073709551615", u64::MAX), Some(u64::MAX));
    assert_eq!(parse_number("18446744073709551616", u64::MAX), None);
}
