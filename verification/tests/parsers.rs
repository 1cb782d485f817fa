//! Tests of `parsers`.
use leaf_codegen::parsers::{
    emit_message_entry, emit_segments, has_expr, max_arg_index, parse_and_emit, parse_message_bundle,
    parse_value_template, MessageEntry, Segment,
};


fn flat(text: &str) -> String {
    let tokens = text.parse::<proc_macro2::TokenStream>().expect("tokens");
    tokens.to_string().split_whitespace().collect::<String>()
}

#[test]
fn parses_a_plain_literal_as_one_segment() {
    let segs = parse_value_template("just text").expect("parses");
    assert_eq!(segs, vec![Segment::Literal("just text".into())]);
}

#[test]
fn parses_a_bare_placeholder() {
    let segs = parse_value_template("${server.port}").expect("parses");
    assert_eq!(
        segs,
        vec![Segment::Placeholder {
            key: "server.port".into(),
            default: None
        }]
    );
}

#[test]
fn parses_a_placeholder_with_a_default() {
    let segs = parse_value_template("${server.port:8080}").expect("parses");
    assert_eq!(
        segs,
        vec![Segment::Placeholder {
            key: "server.port".into(),
            default: Some("8080".into())
        }]
    );
}

#[test]
fn parses_mixed_literal_and_placeholder_runs() {
    let segs = parse_value_template("http://${host}:8080").expect("parses");
    assert_eq!(
        segs,
        vec![
            Segment::Literal("http://".into()),
            Segment::Placeholder {
                key: "host".into(),
                default: None
            },
            Segment::Literal(":8080".into()),
        ]
    );
}

#[test]
fn parses_a_hash_expression_segment() {
    let segs = parse_value_template("#{ 1 + 1 }").expect("parses");
    assert_eq!(segs, vec![Segment::Expr(" 1 + 1 ".into())]);
    assert!(has_expr(&segs));
}

#[test]
fn nested_braces_in_a_default_are_balanced_into_one_segment() {
    let segs = parse_value_template("${a:${b}}").expect("parses");
    assert_eq!(
        segs,
        vec![Segment::Placeholder {
            key: "a".into(),
            default: Some("${b}".into())
        }]
    );
}

#[test]
fn the_separator_inside_a_nested_body_is_not_the_split_point() {
    let segs = parse_value_template("${a:${b:c}}").expect("parses");
    assert_eq!(
        segs,
        vec![Segment::Placeholder {
            key: "a".into(),
            default: Some("${b:c}".into())
        }]
    );
}

#[test]
fn an_escaped_dollar_brace_is_a_literal() {
    let segs = parse_value_template(r"\${literal}").expect("parses");
    assert_eq!(segs, vec![Segment::Literal("${literal}".into())]);
}

#[test]
fn an_unterminated_placeholder_is_a_loud_parse_error() {
    let err = parse_value_template("${oops").expect_err("must error");
    assert!(err.message.contains("unterminated"), "{}", err.message);
}

#[test]
fn emit_segments_lowers_through_absolute_core_paths_and_parses() {
    let segs = parse_value_template("http://${host:localhost}/#{path}").expect("parses");
    let ts = emit_segments(&segs);
    syn::parse_str::<syn::Expr>(&ts).expect("emitted segments are a valid expression");
    let s = flat(&ts);
    assert!(s.contains("::leaf_core::ValueSegment::Literal(::std::borrow::Cow::Borrowed(\"http://\"))"), "got: {s}");
    assert!(s.contains("::leaf_core::ValueSegment::Placeholder{key:::std::borrow::Cow::Borrowed(\"host\")"), "got: {s}");
    assert!(s.contains("::core::option::Option::Some(::std::borrow::Cow::Borrowed(\"localhost\"))"), "got: {s}");
    assert!(s.contains("::leaf_core::ValueSegment::Expr(::std::borrow::Cow::Borrowed(\"path\"))"), "got: {s}");
}

#[test]
fn parse_and_emit_is_the_one_entry_point() {
    let ts = parse_and_emit("${a}").expect("parses+emits");
    let s = flat(&ts);
    assert!(s.contains("::leaf_core::ValueSegment::Placeholder"), "got: {s}");
}

#[test]
fn parses_simple_key_value_messages_in_order() {
    let bundle = "greeting = Hello, {0}!\nfarewell = Bye, {0}.";
    let entries = parse_message_bundle(bundle);
    assert_eq!(
        entries,
        vec![
            MessageEntry {
                code: "greeting".into(),
                pattern: "Hello, {0}!".into()
            },
            MessageEntry {
                code: "farewell".into(),
                pattern: "Bye, {0}.".into()
            },
        ]
    );
}

#[test]
fn skips_comments_and_blank_lines() {
    let bundle = "# a comment\n! also a comment\n\nkey = value\n";
    let entries = parse_message_bundle(bundle);
    assert_eq!(entries.len(), 1);
    assert_eq!(entries[0].code, "key");
    assert_eq!(entries[0].pattern, "value");
}

#[test]
fn accepts_a_colon_separator_too() {
    let entries = parse_message_bundle("key : value");
    assert_eq!(entries[0].pattern, "value");
}

#[test]
fn joins_a_line_continuation() {
    let bundle = "long = first \\\nsecond";
    let entries = parse_message_bundle(bundle);
    assert_eq!(entries.len(), 1);
    assert_eq!(entries[0].pattern, "first second");
}

#[test]
fn max_arg_index_counts_positional_placeholders() {
    assert_eq!(max_arg_index("Hello {0}, you have {1} messages").unwrap(), Some(1));
    assert_eq!(max_arg_index("no args here").unwrap(), None);
}

#[test]
fn max_arg_index_reads_the_index_before_a_format_type() {
    assert_eq!(max_arg_index("count: {2,number}").unwrap(), Some(2));
}

#[test]
fn max_arg_index_treats_doubled_braces_as_literals() {
    assert_eq!(max_arg_index("a literal {{0}} brace").unwrap(), None);
}

#[test]
fn max_arg_index_rejects_a_non_numeric_placeholder() {
    let err = max_arg_index("hello {name}").expect_err("must reject");
    assert!(err.message.contains("argument index"), "{}", err.message);
}

#[test]
fn max_arg_index_rejects_an_unterminated_brace() {
    let err = max_arg_index("oops {0").expect_err("must reject");
    assert!(err.message.contains("unterminated"), "{}", err.message);
}

#[test]
fn emit_message_entry_lowers_to_a_const_message_pattern() {
    let entry = MessageEntry {
        code: "greeting".into(),
        pattern: "Hello, {0}!".into(),
    };
    let ts = emit_message_entry(&entry);
    syn::parse_str::<syn::Expr>(&ts).expect("emitted entry is a valid expression");
    let raw = ts.parse::<proc_macro2::TokenStream>().expect("tokens").to_string();
    assert!(raw.contains(r#"("Hello, {0}!")"#), "got: {raw}");
    let s = flat(&ts);
    assert!(s.contains(r#"("greeting",::leaf_core::MessagePattern("#), "got: {s}");
    assert!(s.contains("::std::sync::Arc::from("), "got: {s}");
}
