//! Tests of `validate`.
use leaf_codegen::items::{Attr, DeriveItem, Field, Fields};
use leaf_codegen::validate::emit_validate;

fn text<T: quote::ToTokens>(t: &T) -> String {
    t.to_token_stream().to_string()
}

fn attr_of(a: &syn::Attribute) -> Attr {
    Attr {
        source: text(a),
        ident: a.path().get_ident().map(|i| i.to_string()),
        last: a.path().segments.last().map_or(String::new(), |s| s.ident.to_string()),
        args: match &a.meta {
            syn::Meta::List(l) => Some(l.tokens.to_string()),
            _ => None,
        },
    }
}

fn field_of(f: &syn::Field) -> Field {
    Field {
        ident: f.ident.as_ref().map_or(String::new(), |i| i.to_string()),
        ty: text(&f.ty),
        attrs: f.attrs.iter().map(attr_of).collect(),
    }
}

fn fields_of(fields: &syn::Fields) -> Fields {
    match fields {
        syn::Fields::Named(n) => Fields::Named(n.named.iter().map(field_of).collect()),
        syn::Fields::Unnamed(u) => Fields::Unnamed(u.unnamed.iter().map(field_of).collect()),
        syn::Fields::Unit => Fields::Unit,
    }
}

fn derive(src: &str) -> DeriveItem {
    let item: syn::DeriveInput = syn::parse_str(src).expect("a valid derive input");
    DeriveItem {
        ident: item.ident.to_string(),
        generic: !item.generics.params.is_empty(),
        fields: match &item.data {
            syn::Data::Struct(s) => Some(fields_of(&s.fields)),
            _ => None,
        },
    }
}


fn flat(text: &str) -> String {
    let tokens = text.parse::<proc_macro2::TokenStream>().expect("tokens");
    tokens.to_string().split_whitespace().collect::<String>()
}

#[test]
fn validate_emits_a_validate_into_impl_with_per_field_checks() {
    let ts = emit_validate(&derive(
        "struct CreateUser { #[validate(not_empty)] name: String, \
         #[validate(range(min = 0, max = 150))] age: i64 }",
    ))
    .expect("emits");
    syn::parse_str::<syn::File>(&ts).expect("valid items");
    let s = flat(&ts);
    assert!(s.contains("impl::leaf_validation::ValidateIntoforCreateUser"), "got: {s}");
    assert!(
        s.contains("fnvalidate_into(&self,__c:&mut::leaf_validation::Cascade<'_>)"),
        "got: {s}"
    );
    assert!(
        s.contains(
            r#"__c.check("name",::leaf_validation::constraints::not_empty(&self.name))"#
        ),
        "got: {s}"
    );
    assert!(
        s.contains(
            r#"__c.check("age",::leaf_validation::constraints::range(self.age,0i64,150i64))"#
        ),
        "got: {s}"
    );
}

#[test]
fn validate_canonicalizes_field_names_to_kebab() {
    let s = flat(
        &emit_validate(&derive(
            "struct PoolProps { #[validate(min = 1)] max_connections: i64 }",
        ))
        .expect("emits"),
    );
    assert!(
        s.contains(
            r#"__c.check("max-connections",::leaf_validation::constraints::min(self.max_connections,1i64))"#
        ),
        "got: {s}"
    );
}

#[test]
fn validate_lowers_max_email_and_pattern() {
    let s = flat(
        &emit_validate(&derive(
            "struct M { #[validate(max = 10)] n: i64, \
             #[validate(email)] e: String, \
             #[validate(pattern = \"a*\")] p: String }",
        ))
        .expect("emits"),
    );
    assert!(
        s.contains(r#"__c.check("n",::leaf_validation::constraints::max(self.n,10i64))"#),
        "got: {s}"
    );
    assert!(
        s.contains(r#"__c.check("e",::leaf_validation::constraints::email(&self.e))"#),
        "got: {s}"
    );
    assert!(
        s.contains(r#"__c.check("p",::leaf_validation::constraints::pattern(&self.p,"a*"))"#),
        "got: {s}"
    );
}

#[test]
fn validate_collects_multiple_attrs_on_one_field() {
    let s = flat(
        &emit_validate(&derive(
            "struct M { #[validate(not_empty)] #[validate(pattern = \"x*\")] s: String }",
        ))
        .expect("emits"),
    );
    assert!(
        s.contains(r#"::leaf_validation::constraints::not_empty(&self.s)"#),
        "got: {s}"
    );
    assert!(
        s.contains(r#"::leaf_validation::constraints::pattern(&self.s,"x*")"#),
        "got: {s}"
    );
}

#[test]
fn validate_lowers_a_scalar_nested_field_through_the_uniform_tag() {
    let s = flat(
        &emit_validate(&derive("struct Order { #[validate(nested)] customer: Customer }"))
            .expect("emits"),
    );
    assert!(
        s.contains(
            r#"(&&::leaf_validation::CascadeTag(&self.customer)).leaf_cascade(__c,"customer")"#
        ),
        "got: {s}"
    );
}

#[test]
fn validate_lowers_a_vec_nested_field_through_the_same_uniform_tag() {
    let s = flat(
        &emit_validate(&derive("struct Order { #[validate(nested)] items: Vec<Item> }"))
            .expect("emits"),
    );
    assert!(
        s.contains(
            r#"(&&::leaf_validation::CascadeTag(&self.items)).leaf_cascade(__c,"items")"#
        ),
        "got: {s}"
    );
    assert!(!s.contains(".iter().enumerate()"), "no spelled Vec loop survives: {s}");
}

#[test]
fn validate_skips_unannotated_fields() {
    let s = flat(
        &emit_validate(&derive(
            "struct M { #[validate(not_empty)] a: String, b: String }",
        ))
        .expect("emits"),
    );
    assert!(s.contains(r#"not_empty(&self.a)"#), "got: {s}");
    assert!(!s.contains("self.b"), "the unannotated field is not checked: {s}");
}

#[test]
fn validate_rejects_a_non_struct() {
    let err = emit_validate(&derive("enum E { A, B }")).expect_err("an enum is rejected");
    assert!(err.message.contains("not a struct"), "got: {}", err.message);
}

#[test]
fn validate_rejects_a_generic_target() {
    let err = emit_validate(&derive("struct P<T> { #[validate(nested)] inner: T }"))
        .expect_err("a generic target is rejected");
    assert!(err.message.contains("generic"), "got: {}", err.message);
}

#[test]
fn validate_rejects_an_unknown_constraint() {
    let err = emit_validate(&derive("struct M { #[validate(bogus)] x: i64 }"))
        .expect_err("an unknown constraint key errors");
    assert!(err.message.contains("bogus") || err.message.contains("unknown"), "got: {}", err.message);
}
