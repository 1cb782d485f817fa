//! Tests of `async_impl`.
use leaf_codegen::async_impl::{
    expand, type_parts, BlockItem, Bracket, ImplBlock, ImplMethod, MethodParam,
    TypePart, TypeToken,
};
use quote::ToTokens;

fn text<T: quote::ToTokens>(t: &T) -> String {
    t.to_token_stream().to_string()
}

fn tokens_of(tokens: proc_macro2::TokenStream) -> Vec<TypeToken> {
    let token = |t: proc_macro2::TokenTree| match t {
        proc_macro2::TokenTree::Punct(p) => {
            TypeToken::Sign(p.as_char(), p.spacing() == proc_macro2::Spacing::Joint)
        }
        proc_macro2::TokenTree::Ident(i) => TypeToken::Ident(i.to_string()),
        proc_macro2::TokenTree::Group(g) => {
            let bracket = match g.delimiter() {
                proc_macro2::Delimiter::Parenthesis => Bracket::Round,
                proc_macro2::Delimiter::Bracket => Bracket::Square,
                proc_macro2::Delimiter::Brace => Bracket::Brace,
                proc_macro2::Delimiter::None => Bracket::Unseen,
            };
            TypeToken::Group(bracket, tokens_of(g.stream()), g.to_string())
        }
        proc_macro2::TokenTree::Literal(l) => TypeToken::Other(l.to_string()),
    };
    tokens.into_iter().map(token).collect()
}

fn param_of(arg: &syn::FnArg) -> MethodParam {
    match arg {
        syn::FnArg::Receiver(r) => match &r.reference {
            Some((_, lifetime)) => MethodParam::Receiver {
                front: String::new(),
                borrowed: true,
                lifetime: lifetime.as_ref().map(|l| l.ident.to_string()),
                rest: if r.mutability.is_some() { "mut self".into() } else { "self".into() },
            },
            None => MethodParam::Receiver {
                front: String::new(),
                borrowed: false,
                lifetime: None,
                rest: text(r),
            },
        },
        syn::FnArg::Typed(t) => MethodParam::Typed {
            pattern: text(&t.pat),
            ty: type_parts(&tokens_of(t.ty.to_token_stream())),
        },
    }
}

fn block(src: &str) -> ImplBlock {
    let item: syn::ItemImpl = syn::parse_str(src).expect("a valid impl block");
    let (_, trait_path, _) = item.trait_.as_ref().expect("a trait");
    let items = item
        .items
        .iter()
        .map(|i| match i {
            syn::ImplItem::Fn(m) => BlockItem::Method(ImplMethod {
                source: text(m),
                is_async: m.sig.asyncness.is_some(),
                front: String::new(),
                ident: m.sig.ident.to_string(),
                generics: m.sig.generics.params.iter().map(|p| text(p)).collect(),
                params: m.sig.inputs.iter().map(param_of).collect(),
                output: match &m.sig.output {
                    syn::ReturnType::Default => None,
                    syn::ReturnType::Type(_, ty) => Some(text(ty)),
                },
                where_clause: text(&m.sig.generics.where_clause),
                body: text(&m.block),
            }),
            other => BlockItem::Other(text(other)),
        })
        .collect();
    ImplBlock { head: format!("impl {} for {}", text(trait_path), text(&item.self_ty)), items }
}


fn flat(text: &str) -> String {
    let tokens = text.parse::<proc_macro2::TokenStream>().expect("tokens");
    tokens.to_string().split_whitespace().collect::<String>()
}

#[test]
fn desugars_an_async_trait_method_to_a_boxfuture() {
    let item = block(
        r#"impl Runner for StartupRunner {
            async fn run(&self, args: &ApplicationArguments) -> Result<(), LeafError> {
                self.go(args).await
            }
        }"#,
    );
    let s = flat(&expand(&item));
    assert!(!s.contains("asyncfnrun"), "async stripped from the signature: {s}");
    assert!(s.contains("Box::pin(asyncmove{"), "body is a boxed future: {s}");
    assert!(
        s.contains("->::leaf_core::BoxFuture<'__leaf_async,Result<(),LeafError>>"),
        "return is BoxFuture<'lt, Result>: {s}"
    );
    assert!(s.contains("&'__leaf_asyncself"), "receiver carries the lifetime: {s}");
    assert!(
        s.contains("args:&'__leaf_asyncApplicationArguments"),
        "the reference arg carries the lifetime: {s}"
    );
    assert!(s.contains("fnrun<'__leaf_async"), "the lifetime is declared: {s}");
}

#[test]
fn a_method_with_no_return_boxes_unit() {
    let item = block(
        r#"impl T for S {
            async fn tick(&self) {
                self.beat().await;
            }
        }"#,
    );
    let s = flat(&expand(&item));
    assert!(s.contains("->::leaf_core::BoxFuture<'__leaf_async,()>"), "unit output: {s}");
}

#[test]
fn a_nested_elided_lifetime_is_filled_recursively() {
    let item = block(
        r#"impl TransactionManager for Tm {
            async fn begin(&self, cx: &ResolveCtx<'_>) -> Result<TxState, LeafError> {
                self.inner.begin(cx).await
            }
        }"#,
    );
    let s = flat(&expand(&item));
    assert!(
        s.contains("cx:&'__leaf_asyncResolveCtx<'__leaf_async>"),
        "outer AND nested lifetimes are filled: {s}"
    );
}

#[test]
fn a_mut_receiver_carries_the_lifetime() {
    let item = block(
        r#"impl T for S {
            async fn poll(&mut self) -> Result<(), LeafError> { self.step().await }
        }"#,
    );
    let s = flat(&expand(&item));
    assert!(s.contains("&'__leaf_asyncmutself"), "&mut self carries the lifetime: {s}");
}

#[test]
fn an_owned_arg_keeps_its_type_and_sync_methods_pass_through() {
    let item = block(
        r#"impl TransactionManager for Tm {
            async fn commit(&self, st: TxState) -> Result<(), LeafError> { self.inner.commit(st).await }
            fn name(&self) -> &str { "tm" }
        }"#,
    );
    let s = flat(&expand(&item));
    assert!(s.contains("st:TxState"), "owned arg unchanged: {s}");
    assert!(s.contains("&'__leaf_asyncself,st:TxState"), "only the receiver is borrowed: {s}");
    assert!(s.contains(r#"fnname(&self)->&str{"tm"}"#), "sync method passes through: {s}");
}

fn parts_of(source: &str) -> Vec<TypePart> {
    let ty: syn::Type = syn::parse_str(source).expect("a type");
    type_parts(&tokens_of(ty.to_token_stream()))
}

fn other(source: &str) -> TypePart {
    TypePart::Other(source.to_string())
}

fn group(open: &str, inner: Vec<TypePart>, close: &str) -> TypePart {
    TypePart::Group(open.to_string(), inner, close.to_string())
}

#[test]
fn a_type_is_made_of_its_parts() {
    let lifetime = |name: &str| TypePart::Lifetime(name.to_string());
    assert_eq!(
        parts_of("&'a mut (A, &B)"),
        vec![
            TypePart::Amp,
            lifetime("a"),
            other("mut "),
            group("( ", vec![other("A "), other(", "), TypePart::Amp, other("B ")], ") "),
        ]
    );
    assert_eq!(
        parts_of("a::C<'_>"),
        vec![other("a "), other(":"), other(": "), other("C "), other("< "), lifetime("_"), other("> ")]
    );
}

#[test]
fn an_ampersand_is_an_operator_where_no_type_stands() {
    let shown = |ty: &str| {
        let source = format!("impl T for S {{ async fn f(&self, x: {ty}) {{}} }}");
        flat(&expand(&block(&source)))
    };
    let s = shown("[&u8; A & Self::N]");
    assert!(s.contains("x:[&'__leaf_asyncu8;A&Self::N]"), "got: {s}");
    let s = shown("Buf<{ N & M }, &u8>");
    assert!(s.contains("x:Buf<{N&M},&'__leaf_asyncu8>"), "got: {s}");
    let s = shown("[u8; size::<C<'_>>()]");
    assert!(s.contains("x:[u8;size::<C<'__leaf_async>>()]"), "got: {s}");
    let s = shown("Buf<{ (size::<&'_ u8>()) }>");
    assert!(s.contains("x:Buf<{(size::<&'__leaf_asyncu8>())}>"), "got: {s}");
}

#[test]
fn what_a_macro_is_given_is_left_as_it_is() {
    let item = block("impl T for S { async fn f(&self, x: Wrap<ty!(&'_ u8)>, y: &u8) {} }");
    let s = flat(&expand(&item));
    assert!(s.contains("x:Wrap<ty!(&'_u8)>"), "got: {s}");
    assert!(s.contains("y:&'__leaf_asyncu8"), "got: {s}");
}
