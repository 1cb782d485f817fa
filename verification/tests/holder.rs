//! Tests of `holder`.
use leaf_codegen::holder::{
    emit_holder, parse_holder_args, validate_holder_struct, HolderArgs, HolderPolicy,
};
use leaf_codegen::items::{Attr, Field, Fields, StructItem};

fn spaced(source: &str) -> String {
    source.parse::<proc_macro2::TokenStream>().expect("tokens").to_string()
}

fn text<T: quote::ToTokens>(t: &T) -> String {
    t.to_token_stream().to_string()
}

fn attr_of(a: &syn::Attribute) -> Attr {
    Attr {
        source: text(a),
        ident: a.path().get_ident().map(|i| i.to_string()),
        last: a.path().segments.last().map_or(String::new(), |s| s.ident.to_string()),
        args: match &a.meta {
            syn::Meta::List(l) => Some(l.tokens.to_string()),
            _ => None,
        },
    }
}

fn field_of(f: &syn::Field) -> Field {
    Field {
        ident: f.ident.as_ref().map_or(String::new(), |i| i.to_string()),
        ty: text(&f.ty),
        attrs: f.attrs.iter().map(attr_of).collect(),
    }
}

fn fields_of(fields: &syn::Fields) -> Fields {
    match fields {
        syn::Fields::Named(n) => Fields::Named(n.named.iter().map(field_of).collect()),
        syn::Fields::Unnamed(u) => Fields::Unnamed(u.unnamed.iter().map(field_of).collect()),
        syn::Fields::Unit => Fields::Unit,
    }
}

fn item(src: &str) -> StructItem {
    let item: syn::ItemStruct = syn::parse_str(src).expect("a valid struct item");
    let (impl_generics, type_generics, where_clause) = item.generics.split_for_impl();
    StructItem {
        source: text(&item),
        ident: item.ident.to_string(),
        generic: !item.generics.params.is_empty(),
        has_where: item.generics.where_clause.is_some(),
        impl_generics: text(&impl_generics),
        type_generics: text(&type_generics),
        where_clause: text(&where_clause),
        fields: fields_of(&item.fields),
    }
}


fn parse(attr: &str) -> HolderArgs {
    parse_holder_args(attr).expect("args should parse")
}

#[test]
fn emits_cxkey_impl_and_inherit_holder_for_locale() {
    let args = parse(r#"name = "locale", policy = inherit, value = leaf_core::Locale"#);
    let out = spaced(&emit_holder("LocaleKey", &args));
    assert!(
        out.contains("impl :: leaf_core :: CxKey for LocaleKey"),
        "missing CxKey impl: {out}"
    );
    assert!(
        out.contains("const NAME : & 'static str = \"locale\""),
        "missing NAME const: {out}"
    );
    assert!(
        out.contains(":: leaf_core :: Propagation :: Inherit"),
        "missing Inherit policy: {out}"
    );
    assert!(
        out.contains("type Value = leaf_core :: Locale"),
        "missing Value type: {out}"
    );
    assert!(
        out.contains(
            "pub static LOCALE : :: leaf_core :: Holder < LocaleKey > = :: leaf_core :: Holder :: new ()"
        ),
        "missing LOCALE accessor: {out}"
    );
}

#[test]
fn policy_defaults_to_isolate_when_absent() {
    let args = parse(r#"name = "tx", value = TxBinding"#);
    assert_eq!(args.policy, HolderPolicy::Isolate);
    let out = spaced(&emit_holder("TxKey", &args));
    assert!(
        out.contains(":: leaf_core :: Propagation :: Isolate"),
        "default policy must be Isolate: {out}"
    );
}

#[test]
fn explicit_accessor_overrides_the_derived_name() {
    let args = parse(r#"name = "locale", value = leaf_core::Locale, accessor = FOO"#);
    let out = spaced(&emit_holder("LocaleKey", &args));
    assert!(
        out.contains("pub static FOO : :: leaf_core :: Holder < LocaleKey >"),
        "explicit accessor must win: {out}"
    );
    assert!(
        !out.contains("pub static LOCALE"),
        "derived accessor must not also appear: {out}"
    );
}

#[test]
fn accessor_defaults_to_screaming_snake_with_key_suffix_stripped() {
    let locale = parse(r#"name = "locale", value = leaf_core::Locale"#);
    assert!(spaced(&emit_holder("LocaleKey", &locale))
        .contains("pub static LOCALE : :: leaf_core :: Holder < LocaleKey >"));
    let ra = parse(r#"name = "ra", value = ReqAttrs"#);
    let out = spaced(&emit_holder("RequestAttributesKey", &ra));
    assert!(
        out.contains("pub static REQUEST_ATTRIBUTES : :: leaf_core :: Holder"),
        "accessor must strip `Key` then SCREAMING_SNAKE: {out}"
    );
}

#[test]
fn rejects_a_non_unit_struct() {
    let item = item(r#"struct K { field: u8 }"#);
    assert!(validate_holder_struct(&item).is_err());
}

#[test]
fn rejects_a_generic_struct() {
    let item = item(r#"struct K<T>;"#);
    assert!(validate_holder_struct(&item).is_err());
}

#[test]
fn accepts_a_unit_struct() {
    let item = item(r#"pub struct LocaleKey;"#);
    assert!(validate_holder_struct(&item).is_ok());
}

#[test]
fn rejects_a_bad_policy_keyword() {
    let err = parse_holder_args(r#"name = "x", value = V, policy = bogus"#);
    assert!(err.is_err(), "a bad policy keyword must be rejected");
}

#[test]
fn rejects_a_missing_value() {
    assert!(parse_holder_args(r#"name = "x""#).is_err());
}

#[test]
fn rejects_an_unknown_argument() {
    assert!(parse_holder_args(r#"name = "x", value = V, frob = 1"#).is_err());
}
