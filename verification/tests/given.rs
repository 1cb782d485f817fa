//! What the library does with what it is given from outside.
use leaf_codegen::app::{emit_main_with, MainArgs};
use leaf_codegen::args::{literal_kind, ArgKind};
use leaf_codegen::concern::{
    attr_items_of, emit_concurrency_limit_of, emit_retryable_of, emit_transactional_of,
    type_item_of, AttrItem, Backoff, ItemValue, ManagerRef, MethodSig, RetryableArgs,
    TransactionalArgs,
};
use leaf_codegen::conditional::import_paths;
use leaf_codegen::config::field_text;
use leaf_codegen::config_impl::{config_method_input_of, type_ident_of};
use leaf_codegen::descriptor::Scope;
use leaf_codegen::holder::value_type;
use leaf_codegen::items::{Field, Fields, FnItem, MethodItem, Param, StructItem};
use leaf_codegen::metas::{literal_meta, MetaValue};
use leaf_codegen::stereotype::{bean_input_of, struct_input_of, Stereotype};
use leaf_codegen::syntax::{Literal, PathShape, SourceToken, TypeShape};

fn path(last: &str, args: &[&str]) -> Result<TypeShape, String> {
    Ok(TypeShape::Path {
        last: last.to_string(),
        args: args.iter().map(|a| Some(a.to_string())).collect(),
    })
}

fn fault<T>() -> Result<T, String> {
    Err("odd".to_string())
}

fn sig(ret: &str) -> MethodSig {
    MethodSig {
        method_path: "Desk::open".to_string(),
        ret_type: ret.to_string(),
        first_arg_type: None,
    }
}

#[test]
fn a_function_that_could_not_be_renamed_is_kept() {
    let user_fn = FnItem {
        source: "fn main() { }".to_string(),
        ident: "main".to_string(),
        generic: false,
        params: vec![],
        output: None,
    };
    let shown = |inner: Result<String, String>| {
        emit_main_with("demo", &MainArgs::default(), &user_fn, &inner)
    };
    assert!(shown(Ok("fn other() { }".to_string())).contains("\nfn other() { }\n"));
    assert!(shown(fault()).contains("\nfn main() { }\n"));
}

#[test]
fn literals_are_sorted_by_their_kind() {
    assert_eq!(literal_kind(Ok(Literal::Float("1.5".to_string()))), ArgKind::Float("1.5".to_string()));
    assert_eq!(literal_kind(Ok(Literal::Bool(true))), ArgKind::Bool(true));
    assert_eq!(literal_kind(fault()), ArgKind::Other);
    assert_eq!(literal_meta(Ok(Literal::Int("3".to_string()))), MetaValue::Int("3".to_string()));
    assert_eq!(literal_meta(Ok(Literal::Bool(true))), MetaValue::Other);
}

#[test]
fn a_type_item_says_whether_it_is_a_trait_object() {
    let item = |shape| type_item_of("manager", "M".to_string(), &shape);
    let assigned = |object| AttrItem::Assign {
        key: "manager".to_string(),
        value: ItemValue::Type("M".to_string(), object),
    };
    assert_eq!(item(path("M", &[])).unwrap(), assigned(false));
    assert_eq!(item(Ok(TypeShape::TraitObject)).unwrap(), assigned(true));
    assert_eq!(
        item(fault()).unwrap_err().message,
        "`manager` must be a bean TYPE (a path or `dyn Trait`): odd"
    );
}

#[test]
fn tokens_are_split_at_commas() {
    let ident = |s: &str| SourceToken::Ident(s.to_string());
    let comma = || SourceToken::Sign(',', false);
    let items = attr_items_of(&vec![ident("a"), comma(), ident("b"), comma()], "kw").unwrap();
    assert_eq!(items.len(), 2);
    let items = attr_items_of(
        &vec![ident("k"), SourceToken::Sign('=', false), ident("v")],
        "kw",
    )
    .unwrap();
    assert!(matches!(&items[0], AttrItem::Assign { key, .. } if key == "k"));
    assert!(attr_items_of(&vec![comma()], "kw").is_err());
}

#[test]
fn rows_name_the_type_in_the_ok_of_a_result() {
    let args = TransactionalArgs {
        manager: Some(ManagerRef { ty: "M".to_string(), trait_object: false }),
    };
    let shown = |shape| emit_transactional_of(&args, &shape, "Desk", "Desk", &sig("R")).unwrap();
    assert!(shown(path("Result", &["u8"])).contains("make_transaction_interceptor_for::<M, u8>()"));
    assert!(shown(path("Option", &["u8"])).contains("make_transaction_interceptor_for::<M, R>()"));
    assert!(shown(fault()).contains("make_transaction_interceptor_for::<M, R>()"));
    let args = RetryableArgs { max: 4, backoff: Backoff::Fixed(20) };
    let row = emit_retryable_of(&args, &path("Result", &["u8"]), "Desk", "Desk", &sig("R"));
    assert!(row.contains("::leaf_core::RetryPolicy::new(4u32)"), "got: {row}");
    assert!(row.contains("::core::time::Duration::from_millis(20u64)"), "got: {row}");
    assert!(row.contains("result_classifier::<u8>()"), "got: {row}");
}

#[test]
fn a_gate_that_is_no_type_is_refused() {
    let shown = |shape| emit_concurrency_limit_of("G", &shape, "Desk", "Desk", &sig("R"));
    assert!(shown(path("G", &[])).unwrap().contains("make_concurrency_interceptor::<G>()"));
    assert_eq!(shown(fault()).unwrap_err().message, "`gate` is not a type: odd");
}

#[test]
fn imports_are_known_by_their_last_segment() {
    let paths = vec![
        ("a :: B".to_string(), path("B", &[])),
        ("odd".to_string(), fault()),
    ];
    let imports = import_paths(&paths).unwrap();
    assert_eq!((imports[0].source.as_str(), imports[0].last.as_str()), ("a :: B", "B"));
    assert_eq!((imports[1].source.as_str(), imports[1].last.as_str()), ("odd", ""));
    assert_eq!(
        import_paths(&vec![]).unwrap_err().message,
        "#[import(..)] requires at least one type to import"
    );
}

#[test]
fn fields_are_bound_by_the_form_of_their_type() {
    let field = Field { ident: "max_pool".to_string(), ty: "T < u8 >".to_string(), attrs: vec![] };
    let shown = |shape| field_text(&field, &shape);
    assert_eq!(
        shown(path("u32", &[])).row,
        "::leaf_core::Field { canonical: \"max-pool\", schema: &::leaf_core::NodeSchema::Scalar, has_default: true }"
    );
    assert!(shown(path("Vec", &["u8"])).bind.starts_with("match __cursor.list::<u8>(\"max-pool\") {"));
    assert!(shown(path("Pool", &[])).bind.starts_with("match __cursor.nested::<T < u8 >>(\"max-pool\") {"));
    assert!(shown(fault()).bind.starts_with("match __cursor.scalar::<T < u8 >>(\"max-pool\") {"));
    assert!(shown(fault()).property.contains("ty: \"T<u8>\""));
}

#[test]
fn names_that_cannot_be_read_are_refused() {
    let item = StructItem {
        source: "struct Desk;".to_string(),
        ident: "Desk".to_string(),
        generic: false,
        has_where: false,
        impl_generics: String::new(),
        type_generics: String::new(),
        where_clause: String::new(),
        fields: Fields::Unit,
    };
    let told = struct_input_of(&item, &fault(), Stereotype::Service, None, None, Scope::Singleton)
        .err()
        .expect("refused");
    assert_eq!(told.message, "`Desk` is not a valid self type: odd");
    let func = FnItem {
        source: String::new(),
        ident: "make".to_string(),
        generic: false,
        params: vec![],
        output: Some("Repo".to_string()),
    };
    let told = bean_input_of(&func, &fault(), None, Scope::Singleton).err().expect("refused");
    assert_eq!(told.message, "`make` is not a callable factory path: odd");
    let method = MethodItem {
        ident: "make".to_string(),
        generic: false,
        attrs: vec![],
        params: vec![Param::Receiver],
        output: Some("Repo".to_string()),
        self_calls: vec![],
    };
    let told = config_method_input_of("Conf", &method, &vec![], &fault()).err().expect("refused");
    assert_eq!(told.message, "`make` is not a callable method ident: odd");
    let read = Ok(PathShape {
        ident: Some("make".to_string()),
        path: "make".to_string(),
        whole: "make".to_string(),
    });
    let bean = config_method_input_of("Conf", &method, &vec![], &read).ok().expect("a bean");
    assert_eq!(bean.receiver_ty.as_deref(), Some("Conf"));
    assert_eq!(bean.ctor.as_deref(), Some("make"));
}

#[test]
fn a_type_without_a_name_is_called_self() {
    assert_eq!(type_ident_of(&path("Desk", &["u8"])), "Desk");
    assert_eq!(type_ident_of(&Ok(TypeShape::Other)), "Self");
    assert_eq!(value_type("u8", &path("u8", &[])).unwrap(), "u8");
    assert_eq!(
        value_type("7", &fault()).unwrap_err().message,
        "`value` must be a type, got `7`: odd"
    );
}
