//! What holds of the library as a whole, on concrete values.
use leaf_codegen::advisor::{emit_join_points, MethodSpec};
use leaf_codegen::annotation::{merge, resolve, AliasFor, Annotation, AttrValue};
use leaf_codegen::app::{emit_main, MainArgs};
use leaf_codegen::async_impl::{
    expand, BlockItem, ImplBlock, ImplMethod, MethodParam, TypePart,
};
use leaf_codegen::concern::{
    emit_retryable, emit_validated, parse_retryable, plain_number, Backoff, Concern, MethodSig,
};
use leaf_codegen::conditional::{auto_config_input, emit_guard, parse_conditional};
use leaf_codegen::config_impl::emit_aspect_impl;
use leaf_codegen::constfold::{emit, fold, plan_order, AutoConfigEntry, CondTree};
use leaf_codegen::descriptor::{Scope, Slice};
use leaf_codegen::forcelink::{emit as emit_linkage, ParticipatingSet};
use leaf_codegen::items::{Attr, Fields, FnItem, ImplItem, MethodItem, Param, StructItem};
use leaf_codegen::naming::mangle;
use leaf_codegen::cargo_leaf::parse_args as parse_command;
use leaf_codegen::parsers::{
    max_arg_index, parse_message_bundle, parse_value_template, MessageEntry, Segment,
};
use leaf_codegen::profile::{parse_profile, render_profile, ProfileExpr};
use leaf_codegen::rollup::{roll_up, ConfigMetadataRow, ContractId};
use leaf_codegen::stereotype::{stereotype_meta, struct_input, Stereotype};
use leaf_codegen::text::{decimal_text, signed_text};

fn flat(text: &str) -> String {
    let tokens = text.parse::<proc_macro2::TokenStream>().expect("tokens");
    tokens.to_string().split_whitespace().collect::<String>()
}

fn leaf(n: u32) -> CondTree {
    CondTree::Leaf { id: format!("id{n}"), attrs: "&[]".to_string() }
}

fn unit(ident: &str) -> StructItem {
    StructItem {
        source: format!("struct {ident};"),
        ident: ident.to_string(),
        generic: false,
        has_where: false,
        impl_generics: String::new(),
        type_generics: String::new(),
        where_clause: String::new(),
        fields: Fields::Unit,
    }
}

fn not(c: CondTree) -> CondTree {
    CondTree::Not(Box::new(c))
}

/// The truth of a tree where the leaf `idN` holds as `truth[N]` says.
fn holds(c: &CondTree, truth: &[bool]) -> bool {
    match c {
        CondTree::Leaf { id, .. } => truth[id["id".len()..].parse::<usize>().unwrap()],
        CondTree::All(children) => children.iter().all(|c| holds(c, truth)),
        CondTree::Any(children) => children.iter().any(|c| holds(c, truth)),
        CondTree::Not(inner) => !holds(inner, truth),
        CondTree::Const(b) => *b,
    }
}

fn trees() -> Vec<CondTree> {
    vec![
        CondTree::All(vec![leaf(0), CondTree::Const(true), not(leaf(1))]),
        CondTree::Any(vec![CondTree::All(vec![leaf(0), CondTree::Const(false)]), leaf(1)]),
        not(not(CondTree::Any(vec![leaf(0), CondTree::Const(false)]))),
        not(CondTree::All(vec![])),
        CondTree::Any(vec![CondTree::All(vec![leaf(0), leaf(1)]), not(CondTree::Const(true))]),
    ]
}

#[test]
fn folding_keeps_the_truth_of_a_condition() {
    for tree in trees() {
        let folded = fold(&tree);
        for truth in [[false, false], [false, true], [true, false], [true, true]] {
            assert_eq!(holds(&folded, &truth), holds(&tree, &truth), "{tree:?} under {truth:?}");
        }
    }
}

#[test]
fn folding_twice_is_folding_once() {
    for tree in trees() {
        let once = fold(&tree);
        assert_eq!(emit(&fold(&once)), emit(&once), "{tree:?}");
    }
}

#[test]
fn what_is_folded_holds_no_constant_but_itself() {
    for tree in trees() {
        let folded = fold(&tree);
        assert!(
            folded.is_const() || !emit(&folded).contains("Const"),
            "{tree:?} folded to {folded:?}"
        );
    }
}

#[test]
fn folding_leaves_only_leaves_that_were_there() {
    let tree = CondTree::Any(vec![CondTree::All(vec![leaf(0), CondTree::Const(false)]), leaf(1)]);
    let text = emit(&fold(&tree));
    assert!(text.contains("id1") && !text.contains("id0"), "got: {text}");
}

#[test]
fn a_plan_is_the_same_for_any_order_of_its_entries() {
    let a = || AutoConfigEntry::new("a");
    let b = || AutoConfigEntry::new("b").after("c");
    let c = || AutoConfigEntry::new("c").before("a");
    let wanted = vec!["c".to_string(), "a".to_string(), "b".to_string()];
    assert_eq!(plan_order(&[a(), b(), c()]).unwrap().order, wanted);
    assert_eq!(plan_order(&[c(), b(), a()]).unwrap().order, wanted);
    assert_eq!(plan_order(&[b(), a(), c()]).unwrap().order, wanted);
}

#[test]
fn a_cycle_leaves_no_plan_and_names_those_that_wait() {
    let entries = [
        AutoConfigEntry::new("free"),
        AutoConfigEntry::new("x").before("y"),
        AutoConfigEntry::new("y").before("x"),
        AutoConfigEntry::new("behind").after("y"),
    ];
    let cycle = plan_order(&entries).expect_err("x and y wait for one another");
    assert_eq!(cycle.message(), "auto-config ordering has a cycle among: behind, x, y");
}

#[test]
fn an_entry_before_itself_is_a_cycle() {
    let cycle = plan_order(&[AutoConfigEntry::new("x").before("x")]).expect_err("a cycle");
    assert_eq!(cycle.members, vec!["x".to_string()]);
}

#[test]
fn linkage_does_not_depend_on_the_order_of_the_packages() {
    let one = ParticipatingSet::from_names(&["web", "core", "web", "data-jpa"]);
    let other = ParticipatingSet::from_names(&["data-jpa", "web", "core"]);
    assert_eq!(one.names(), vec!["core", "data-jpa", "web"]);
    assert_eq!(emit_linkage(&one), emit_linkage(&other));
}

#[test]
fn an_application_expects_itself_and_does_not_link_itself() {
    let user_fn = FnItem {
        source: "async fn main() { }".to_string(),
        ident: "main".to_string(),
        generic: false,
        params: vec![],
        output: None,
    };
    let args = MainArgs { primary: None, scan: vec!["zeta".to_string(), "alpha".to_string()] };
    let text = emit_main("my-app", &args, &user_fn);
    let text = flat(&text);
    assert!(text.contains("mod__leaf_force_link{usealphaas_;usezetaas_;}"), "got: {text}");
    assert!(
        text.contains(
            r#"&[::leaf_core::SourceTag("alpha"),::leaf_core::SourceTag("my-app"),::leaf_core::SourceTag("zeta")]"#
        ),
        "got: {text}"
    );
}

#[test]
fn a_rollup_does_not_depend_on_the_order_of_the_rows() {
    let row = |prefix: &str, contract: u64| ConfigMetadataRow {
        contract: ContractId(contract),
        prefix: prefix.to_string(),
    };
    let one = roll_up(&[row("app", 4), row("db", 9), row("app", 2)]);
    let other = roll_up(&[row("app", 2), row("app", 4), row("db", 9)]);
    assert_eq!(one.rows, other.rows);
    assert_eq!(one.rows, vec![row("app", 2), row("db", 9)]);
    assert_eq!(one.duplicates, other.duplicates);
    assert_eq!(one.duplicates[0].contracts, vec![ContractId(2), ContractId(4)]);
}

#[test]
fn no_two_literals_of_a_template_stand_side_by_side() {
    let text = "a$b#c${k:d}e}f\\${g}";
    let parts = parse_value_template(text).unwrap();
    for pair in parts.windows(2) {
        assert!(
            !matches!((&pair[0], &pair[1]), (Segment::Literal(_), Segment::Literal(_))),
            "{parts:?}"
        );
    }
}

#[test]
fn the_parts_of_a_template_are_the_template() {
    let text = "a$b#c${k:d${e}}x#{f()}${g}";
    let whole: String = parse_value_template(text)
        .unwrap()
        .iter()
        .map(|part| match part {
            Segment::Literal(s) => s.clone(),
            Segment::Placeholder { key, default: Some(d) } => format!("${{{key}:{d}}}"),
            Segment::Placeholder { key, default: None } => format!("${{{key}}}"),
            Segment::Expr(body) => format!("#{{{body}}}"),
        })
        .collect();
    assert_eq!(whole, text);
}

#[test]
fn the_entries_of_a_bundle_stand_in_the_order_of_their_lines() {
    let entry = |code: &str, pattern: &str| MessageEntry {
        code: code.to_string(),
        pattern: pattern.to_string(),
    };
    let text = "z = 1\n! note\na: 2 \\\n  and 3\nz = 4\\\\\n";
    assert_eq!(
        parse_message_bundle(text),
        vec![entry("z", "1"), entry("a", "2 and 3"), entry("z", "4\\\\")]
    );
}

#[test]
fn the_entries_of_two_bundles_follow_one_another() {
    let firsts = [
        "",
        "k",
        "k = v",
        "k = v\r",
        "k = v \\\\",
        "k = v\\\\ \t",
        "k = v\\\n",
        "k = v\\\n \\\\\r",
        "k = v\\\n# w",
        "# note\n\nk : v\n",
    ];
    let seconds = ["", "a = 1", "  a = 1\\\n  2\n\nb = 3", "# note", "\n\na=1"];
    for first in firsts {
        for second in seconds {
            let mut wanted = parse_message_bundle(first);
            wanted.extend(parse_message_bundle(second));
            let whole = format!("{first}\n{second}");
            assert_eq!(parse_message_bundle(&whole), wanted, "{whole:?}");
        }
    }
    assert_eq!(parse_message_bundle("k = v\\\na = 1").len(), 1);
}

#[test]
fn each_marker_is_listed_once_the_annotation_itself_first() {
    let component = || Annotation::new("Component");
    let root = Annotation::new("Root")
        .with_meta(Annotation::new("Left").with_meta(component()))
        .with_meta(Annotation::new("Right").with_meta(component()))
        .with_meta(component());
    let merged = merge(&root);
    assert_eq!(merged.markers, vec!["Root", "Left", "Right", "Component"]);
    assert_eq!(merged.distance_of("Root"), Some(0));
    assert_eq!(merged.distance_of("Component"), Some(1));
}

#[test]
fn a_nearer_default_wins_over_a_farther_setting() {
    let far = Annotation::new("Far").with_attr("k", AttrValue::Int(1));
    let near = Annotation::new("Near").with_default("k", AttrValue::Int(2)).with_meta(far);
    assert_eq!(merge(&near).attr("k"), Some(&AttrValue::Int(2)));
    let set = Annotation::new("Set")
        .with_default("k", AttrValue::Int(2))
        .with_attr("k", AttrValue::Int(3));
    assert_eq!(merge(&set).attr("k"), Some(&AttrValue::Int(3)));
}

#[test]
fn resolving_without_aliases_is_merging() {
    let root = || {
        Annotation::new("Root")
            .with_attr("name", AttrValue::Str("x".to_string()))
            .with_meta(Annotation::new("Meta").with_default("flag", AttrValue::Bool(true)))
    };
    assert_eq!(resolve(&root()).unwrap(), merge(&root()));
}

#[test]
fn every_stereotype_is_a_component() {
    for kind in [
        Stereotype::Component,
        Stereotype::Service,
        Stereotype::Repository,
        Stereotype::Controller,
        Stereotype::Configuration,
    ] {
        let meta = stereotype_meta(kind);
        assert!(meta.distance_of("leaf::Component").is_some(), "{kind:?}");
        assert_eq!(meta.distance_of(kind.marker_path()), Some(0));
    }
}

#[test]
fn two_kinds_of_a_struct_differ_in_their_markers() {
    let input = |kind: Stereotype| {
        struct_input(&unit("Desk"), kind, None, None, Scope::Prototype).unwrap()
    };
    let (one, other) = (input(Stereotype::Service), input(Stereotype::Repository));
    assert_ne!(one.meta, other.meta);
    assert_eq!((one.role, one.scope, one.deps.len()), (other.role, other.scope, other.deps.len()));
    assert_eq!((one.ident, one.self_ty, one.slice), (other.ident, other.self_ty, other.slice));
}

#[test]
fn an_auto_configuration_is_a_configuration_in_a_list_of_its_own() {
    let auto = auto_config_input(&unit("Conf")).unwrap();
    let plain =
        struct_input(&unit("Conf"), Stereotype::Configuration, None, None, Scope::Singleton).unwrap();
    assert_eq!(auto.slice, Slice::AutoConfigs);
    assert_eq!(plain.slice, Slice::Components);
    assert_eq!(auto.meta.markers, plain.meta.markers);
    assert_eq!((auto.role, auto.scope, auto.deps.len()), (plain.role, plain.scope, plain.deps.len()));
}

#[test]
fn methods_that_are_not_async_are_kept() {
    let method = |is_async: bool| ImplMethod {
        source: "fn a(&self) { }".to_string(),
        is_async,
        front: "pub ".to_string(),
        ident: "a".to_string(),
        generics: vec!["T".to_string()],
        params: vec![
            MethodParam::Receiver {
                front: String::new(),
                borrowed: true,
                lifetime: None,
                rest: "self".to_string(),
            },
            MethodParam::Typed {
                pattern: "x".to_string(),
                ty: vec![TypePart::Amp, TypePart::Lifetime("a".to_string()), TypePart::Other("T ".to_string())],
            },
        ],
        output: None,
        where_clause: String::new(),
        body: "{ }".to_string(),
    };
    let shown = |is_async: bool| {
        expand(&ImplBlock {
            head: "impl D".to_string(),
            items: vec![BlockItem::Method(method(is_async)), BlockItem::Other("const C: u8 = 1;".to_string())],
        })
    };
    assert_eq!(shown(false), "impl D { fn a(&self) { } const C: u8 = 1; }");
    let changed = flat(&shown(true));
    assert!(
        changed.contains("pubfna<'__leaf_async,T>(&'__leaf_asyncself,x:&'aT)->::leaf_core::BoxFuture<'__leaf_async,()>"),
        "got: {changed}"
    );
    assert!(changed.ends_with("constC:u8=1;}"), "got: {changed}");
}

#[test]
fn each_kind_of_condition_is_named_once() {
    let cond = parse_conditional(
        r#"all(on_property("a"), any(on_class("x"), not(on_property("b"))), on_class("y"))"#,
    )
    .unwrap();
    assert_eq!(
        cond.leaf_kinds(),
        vec!["leaf::condition::OnProperty", "leaf::condition::OnClass"]
    );
}

#[test]
fn the_anchors_of_a_guard_are_numbered() {
    let cond = parse_conditional(r#"all(on_property("a"), on_class("x"))"#).unwrap();
    let text = flat(&emit_guard("Conf", &cond));
    assert!(text.contains("__LEAF_COND_Conf_0:"), "got: {text}");
    assert!(text.contains("__LEAF_COND_Conf_1:"), "got: {text}");
    assert!(!text.contains("__LEAF_COND_Conf_2"), "got: {text}");
}

#[test]
fn an_auto_configuration_is_a_fallback() {
    let input = auto_config_input(&unit("Conf")).unwrap();
    assert_eq!(input.meta.attr("fallback"), Some(&AttrValue::Bool(true)));
}

#[test]
fn a_profile_expression_reads_back_from_its_text() {
    let name = |s: &str| ProfileExpr::Name(s.to_string());
    let written = |p: ProfileExpr, text: &str| {
        assert_eq!(render_profile(&p), text);
        assert_eq!(parse_profile(text).unwrap(), p);
    };
    written(name("dev"), "dev");
    written(
        ProfileExpr::Not(Box::new(ProfileExpr::And(vec![name("a"), name("b")]))),
        "!(a & b)",
    );
    written(
        ProfileExpr::Or(vec![
            ProfileExpr::And(vec![name("a"), ProfileExpr::Not(Box::new(name("b")))]),
            name("c"),
        ]),
        "(a & !b) | c",
    );
    written(ProfileExpr::Not(Box::new(ProfileExpr::Not(Box::new(name("a"))))), "!!a");
}

#[test]
fn a_text_that_is_read_keeps_its_meaning_when_it_is_written() {
    for text in ["a", "!a", "a&b&c", "( a | b )", "!(a|(b&!c))", "((a))", "a & (b & c)"] {
        let read = parse_profile(text).unwrap();
        assert_eq!(parse_profile(&render_profile(&read)).unwrap(), read, "{text}");
    }
}

#[test]
fn expressions_in_brackets_are_combined_as_they_stand() {
    let texts = ["a", "!a", "a & b-1", "a|b|c", "(a & b) | !(c)", " a.b "];
    let read = |s: &str| parse_profile(s).unwrap();
    for s in texts {
        assert_eq!(read(&format!("({s})")), read(s));
        assert_eq!(read(&format!("!({s})")), ProfileExpr::Not(Box::new(read(s))));
        for t in texts {
            assert_eq!(
                read(&format!("({s}) & ({t})")),
                ProfileExpr::And(vec![read(s), read(t)])
            );
            assert_eq!(
                read(&format!("({s}) | ({t})")),
                ProfileExpr::Or(vec![read(s), read(t)])
            );
        }
    }
}

#[test]
fn zeros_that_say_nothing_are_left_out_of_a_factor() {
    for digits in ["2", "2.", "2.0", "2.000", "0_2.0_0", "2.0f64"] {
        let args = parse_retryable(&format!("backoff = exponential(base = 1, mult = {digits})"))
            .unwrap_or_else(|e| panic!("{digits}: {}", e.message));
        assert_eq!(
            args.backoff,
            Backoff::Exponential { base_ms: 1, mult: "2".to_string() },
            "{digits}"
        );
    }
    let sig = MethodSig {
        method_path: "S::f".to_string(),
        ret_type: "Result<i64,E>".to_string(),
        first_arg_type: None,
    };
    let args = parse_retryable("backoff = exponential(base = 1, mult = 1.50)").unwrap();
    let text = flat(&emit_retryable(&args, "S", "S", &sig).unwrap());
    assert!(text.contains("1.5f64"), "got: {text}");
    let args = parse_retryable("backoff = exponential(base = 1, mult = 1e3)").unwrap();
    let text = flat(&emit_retryable(&args, "S", "S", &sig).unwrap());
    assert!(text.contains("1000f64"), "got: {text}");
}

#[test]
fn the_exponent_of_a_factor_moves_its_point() {
    for (digits, wanted) in [
        ("1e3", "1000"),
        ("1E3", "1000"),
        ("1e+3", "1000"),
        ("1e0_3", "1000"),
        ("1e-3", "0.001"),
        ("1.5e1", "15"),
        ("12.5e-1", "1.25"),
        ("1.25e1", "12.5"),
        ("120e-1", "12"),
        ("0.02e2", "2"),
        ("2e0", "2"),
        ("0e9", "0"),
        ("0e99999", "0"),
        ("0.00e-99999", "0"),
    ] {
        assert_eq!(plain_number(&digits.replace('_', "")), wanted, "{digits}");
        let args = parse_retryable(&format!("backoff = exponential(base = 1, mult = {digits})"))
            .unwrap_or_else(|e| panic!("{digits}: {}", e.message));
        assert_eq!(
            args.backoff,
            Backoff::Exponential { base_ms: 1, mult: wanted.to_string() },
            "{digits}"
        );
        let value: f64 = digits.replace('_', "").parse().unwrap();
        assert_eq!(value.to_string(), wanted, "{digits}");
    }
    assert_eq!(plain_number("1e99999"), "1e99999");
    assert_eq!(plain_number("1e-99999"), "1e-99999");
}

#[test]
fn keywords_read_back_as_their_concerns() {
    for concern in [
        Concern::Transactional,
        Concern::Cacheable,
        Concern::CachePut,
        Concern::CacheEvict,
        Concern::Validated,
        Concern::Retryable,
        Concern::ConcurrencyLimit,
    ] {
        assert_eq!(Concern::from_keyword(concern.keyword()), Some(concern));
    }
}

#[test]
fn the_advisors_of_two_methods_differ() {
    let sig = |path: &str| MethodSig {
        method_path: path.to_string(),
        ret_type: "()".to_string(),
        first_arg_type: Some("Form".to_string()),
    };
    let one = emit_validated("Desk", "Desk", &sig("Desk::open")).unwrap();
    let other = emit_validated("Desk", "Desk", &sig("Desk::close")).unwrap();
    let identity = |method: &str| {
        format!("::core::module_path!(),\"::\",\"Desk\",\"::\",\"{method}\")")
    };
    assert!(flat(&one).contains(&identity("open")), "got: {one}");
    assert!(flat(&other).contains(&identity("close")), "got: {other}");
    assert_ne!(one, other);
}

#[test]
fn the_thunks_of_two_methods_differ() {
    let method = |path: &str| MethodSpec {
        method_path: path.to_string(),
        method_ident: None,
        is_async: false,
        arg_types: vec![],
        ret_type: "()".to_string(),
    };
    let text = flat(&emit_join_points("Desk", "Desk", &[method("m::open"), method("m::close")]));
    assert_eq!(text.matches("fn__leaf_invoke_Desk_open(").count(), 1, "got: {text}");
    assert_eq!(text.matches("fn__leaf_invoke_Desk_close(").count(), 1, "got: {text}");
}

#[test]
fn the_advice_methods_of_an_aspect_are_registered_apart() {
    let advice = |name: &str| MethodItem {
        ident: name.to_string(),
        generic: false,
        attrs: vec![Attr {
            source: "# [advice (before)]".to_string(),
            ident: Some("advice".to_string()),
            last: "advice".to_string(),
            args: Some("before".to_string()),
        }],
        params: vec![Param::Receiver],
        output: None,
        self_calls: vec![],
    };
    let item = ImplItem {
        generic: false,
        self_ty: "Audit".to_string(),
        trait_path: None,
        methods: vec![advice("log"), advice("count")],
    };
    let text = flat(&emit_aspect_impl(&item).unwrap());
    assert!(text.contains("Audit_log"), "got: {text}");
    assert!(text.contains("Audit_count"), "got: {text}");
}

#[test]
fn numbers_are_written_in_decimal() {
    assert_eq!(decimal_text(0), "0");
    assert_eq!(decimal_text(9), "9");
    assert_eq!(decimal_text(10), "10");
    assert_eq!(decimal_text(u64::MAX), "18446744073709551615");
    assert_eq!(signed_text(-7), "-7");
    assert_eq!(signed_text(i64::MIN), "-9223372036854775808");
}

#[test]
fn a_plain_name_is_mangled_to_itself() {
    assert_eq!(mangle("Order_2"), "Order_2");
    assert_eq!(mangle("Vec<u8>"), "Vec_u8_");
}

#[test]
fn copies_stand_for_the_same() {
    let profile = parse_profile("!(a & b) | c").unwrap();
    assert_eq!(profile.clone(), profile);
    let cond = parse_conditional(r#"any(on_property("a", having_value = "b"), not(true))"#).unwrap();
    assert_eq!(cond.clone(), cond);
    let root = Annotation::new("Root")
        .with_attr("k", AttrValue::List(vec![AttrValue::Int(1), AttrValue::Bool(true)]))
        .with_meta(Annotation::new("Meta"));
    assert_eq!(merge(&root.clone()), merge(&root));
    assert_eq!(merge(&root).clone(), merge(&root));
    assert_eq!(Annotation::default().path, "");
}

#[test]
fn an_alias_mirrors_what_is_set() {
    let alias = |from: &str, to: &str| AliasFor {
        from_attr: from.to_string(),
        target_marker: None,
        target_attr: to.to_string(),
    };
    let root = Annotation::new("Root")
        .with_attr("value", AttrValue::Int(7))
        .with_alias(alias("value", "name"))
        .with_alias(alias("name", "value"))
        .with_meta(Annotation::new("Meta").with_attr("name", AttrValue::Int(1)));
    let resolved = resolve(&root).unwrap();
    assert_eq!(resolved.attr("name"), Some(&AttrValue::Int(7)));
    assert_eq!(resolved.attr("value"), Some(&AttrValue::Int(7)));
}

#[test]
fn an_alias_overrides_what_an_annotation_is_composed_of() {
    let far = Annotation::new("Far").with_default("name", AttrValue::Int(1));
    let near = Annotation::new("Near").with_meta(far);
    let root = Annotation::new("Root")
        .with_attr("value", AttrValue::Int(7))
        .with_alias(AliasFor {
            from_attr: "value".to_string(),
            target_marker: Some("Far".to_string()),
            target_attr: "name".to_string(),
        })
        .with_meta(near);
    assert_eq!(resolve(&root).unwrap().attr("name"), Some(&AttrValue::Int(7)));
    assert_eq!(merge(&root).attr("name"), Some(&AttrValue::Int(1)));
}

#[test]
fn an_escaped_text_stands_for_itself() {
    for (written, text) in [
        ("\\${a}", "${a}"),
        ("x\\#{b}\\\\", "x#{b}\\"),
        ("5 \\$ or {6}", "5 $ or {6}"),
    ] {
        assert_eq!(parse_value_template(written).unwrap(), vec![Segment::Literal(text.to_string())]);
    }
    assert_eq!(parse_value_template("").unwrap(), vec![]);
}

#[test]
fn a_body_with_balanced_braces_is_one_part() {
    let literal = |s: &str| Segment::Literal(s.to_string());
    for body in ["", "a", "{x:{1}}", "f(\\}) {}"] {
        assert_eq!(
            parse_value_template(&format!("in \\$#{{{body}}}out")).unwrap(),
            vec![literal("in $"), Segment::Expr(body.to_string()), literal("out")],
            "{body}"
        );
    }
    assert_eq!(
        parse_value_template("${a:${b:c}}").unwrap(),
        vec![Segment::Placeholder { key: "a".to_string(), default: Some("${b:c}".to_string()) }]
    );
    assert!(parse_value_template("${a\\}").is_err());
}

#[test]
fn doubled_braces_name_no_argument() {
    assert_eq!(max_arg_index("{{0}} and }}{{").unwrap(), None);
    assert_eq!(max_arg_index("{{9}}{1}").unwrap(), Some(1));
}

#[test]
fn both_signs_on_one_level_are_refused() {
    for text in ["(a) & (b) | (c)", "(a | b) | (c) & (!d)"] {
        assert_eq!(
            parse_profile(text).unwrap_err().message,
            "mixed `&` and `|` without parentheses in profile expression"
        );
    }
}

#[test]
fn the_leaf_that_cargo_passes_along_changes_nothing() {
    let argv = |parts: &[&str]| parts.iter().map(|p| p.to_string()).collect::<Vec<String>>();
    for args in [&["prepare", "--check"][..], &["doctor", "now"], &["dance"], &[]] {
        let with = [&["leaf"], args].concat();
        assert_eq!(parse_command(&argv(&with)), parse_command(&argv(args)));
    }
}
