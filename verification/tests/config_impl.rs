//! Tests of `config_impl`.
use leaf_codegen::config_impl::{emit_aspect_impl, emit_configuration_impl};
use leaf_codegen::items::{Attr, ImplItem, MethodItem, Param, PathItem};

fn text<T: quote::ToTokens>(t: &T) -> String {
    t.to_token_stream().to_string()
}

fn attr_of(a: &syn::Attribute) -> Attr {
    Attr {
        source: text(a),
        ident: a.path().get_ident().map(|i| i.to_string()),
        last: a.path().segments.last().map_or(String::new(), |s| s.ident.to_string()),
        args: match &a.meta {
            syn::Meta::List(l) => Some(l.tokens.to_string()),
            _ => None,
        },
    }
}

fn params_of(sig: &syn::Signature) -> Vec<Param> {
    sig.inputs
        .iter()
        .map(|arg| match arg {
            syn::FnArg::Receiver(_) => Param::Receiver,
            syn::FnArg::Typed(t) => Param::Typed {
                name: match &*t.pat {
                    syn::Pat::Ident(i) => Some(i.ident.to_string()),
                    _ => None,
                },
                ty: text(&t.ty),
            },
        })
        .collect()
}

fn output_of(sig: &syn::Signature) -> Option<String> {
    match &sig.output {
        syn::ReturnType::Default => None,
        syn::ReturnType::Type(_, ty) => Some(text(ty)),
    }
}

struct SelfCalls {
    names: Vec<String>,
}

impl<'ast> syn::visit::Visit<'ast> for SelfCalls {
    fn visit_expr_method_call(&mut self, call: &'ast syn::ExprMethodCall) {
        if let syn::Expr::Path(p) = &*call.receiver {
            if p.path.is_ident("self") {
                self.names.push(call.method.to_string());
            }
        }
        syn::visit::visit_expr_method_call(self, call);
    }
}

fn method_of(m: &syn::ImplItemFn) -> MethodItem {
    let mut calls = SelfCalls { names: Vec::new() };
    syn::visit::Visit::visit_block(&mut calls, &m.block);
    MethodItem {
        ident: m.sig.ident.to_string(),
        generic: !m.sig.generics.params.is_empty(),
        attrs: m.attrs.iter().map(attr_of).collect(),
        params: params_of(&m.sig),
        output: output_of(&m.sig),
        self_calls: calls.names,
    }
}

fn path_of(path: &syn::Path) -> PathItem {
    let n = path.segments.len();
    PathItem {
        leading_colon: path.leading_colon.is_some(),
        parents: path.segments.iter().take(n - 1).map(|s| text(s)).collect(),
        last: path.segments[n - 1].ident.to_string(),
    }
}

fn impl_item(src: &str) -> ImplItem {
    let item: syn::ItemImpl = syn::parse_str(src).expect("a valid impl block");
    ImplItem {
        generic: !item.generics.params.is_empty(),
        self_ty: text(&item.self_ty),
        trait_path: item.trait_.as_ref().map(|(_, path, _)| path_of(path)),
        methods: item
            .items
            .iter()
            .filter_map(|i| match i {
                syn::ImplItem::Fn(m) => Some(method_of(m)),
                _ => None,
            })
            .collect(),
    }
}


fn flat(text: &str) -> String {
    let tokens = text.parse::<proc_macro2::TokenStream>().expect("tokens");
    tokens.to_string().split_whitespace().collect::<String>()
}

#[test]
fn a_configuration_impl_with_two_bean_methods_emits_two_descriptors() {
    let item = impl_item(
        "impl AppConfig {
            #[bean]
            fn pool(&self, cfg: leaf_core::Ref<DbConfig>) -> Pool { todo!() }
            #[bean]
            fn repo(&self, pool: leaf_core::Ref<Pool>) -> Repo { todo!() }
            fn not_a_bean(&self) -> u8 { 0 }
         }",
    );
    let ts = emit_configuration_impl(&item).expect("emits");
    syn::parse_str::<syn::File>(&ts).expect("valid items");
    let s = flat(&ts);
    assert_eq!(
        s.matches("#[::leaf_core::linkme::distributed_slice(::leaf_core::COMPONENTS)]")
            .count(),
        2,
        "two #[bean] methods => two COMPONENTS rows: {s}"
    );
    assert!(s.contains(r#"Some("pool")"#), "got: {s}");
    assert!(s.contains(r#"Some("repo")"#), "got: {s}");
    assert!(s.contains("::core::any::TypeId::of::<Pool>()"), "got: {s}");
    assert!(s.contains("::core::any::TypeId::of::<Repo>()"), "got: {s}");
    assert!(!s.contains(r#"Some("notABean")"#), "got: {s}");
}

#[test]
fn each_bean_method_resolves_the_config_receiver_through_the_engine() {
    let item = impl_item(
        "impl AppConfig {
            #[bean]
            fn pool(&self, cfg: leaf_core::Ref<DbConfig>) -> Pool { todo!() }
         }",
    );
    let s = flat(&emit_configuration_impl(&item).expect("emits"));
    assert!(
        s.contains("let__recv:::leaf_core::Ref<AppConfig>=__engine.get::<AppConfig>().await?"),
        "got: {s}"
    );
    assert!(s.contains("__engine.get::<DbConfig>().await?"), "got: {s}");
    assert!(s.contains("__recv.pool(__dep_cfg)"), "got: {s}");
}

#[test]
fn an_intra_config_bean_self_call_is_a_loud_compile_error() {
    let item = impl_item(
        "impl AppConfig {
            #[bean]
            fn repo(&self) -> Repo { todo!() }
            #[bean]
            fn service(&self) -> Service { Service::new(self.repo()) }
         }",
    );
    let err = emit_configuration_impl(&item).expect_err("the self-call must hard-error");
    assert!(err.message.contains("self.repo()"), "got: {}", err.message);
    assert!(err.message.contains("parameter instead"), "got: {}", err.message);
    assert!(err.message.contains("Ref<Repo>"), "got: {}", err.message);
}

#[test]
fn a_self_call_to_a_non_bean_method_is_allowed() {
    let item = impl_item(
        "impl AppConfig {
            fn helper(&self) -> u8 { 7 }
            #[bean]
            fn svc(&self) -> Service { Service::new(self.helper()) }
         }",
    );
    emit_configuration_impl(&item).expect("a non-#[bean] self-call is allowed");
}

#[test]
fn a_bean_method_with_no_return_type_is_an_error() {
    let item = impl_item(
        "impl AppConfig {
            #[bean]
            fn nope(&self) {}
         }",
    );
    let err = emit_configuration_impl(&item).expect_err("a @bean must produce a value");
    assert!(err.message.contains("no return type"), "got: {}", err.message);
}

#[test]
fn a_bean_method_with_no_self_receiver_is_an_error() {
    let item = impl_item(
        "impl AppConfig {
            #[bean]
            fn pool(cfg: leaf_core::Ref<DbConfig>) -> Pool { todo!() }
         }",
    );
    let err = emit_configuration_impl(&item).expect_err("a config @bean needs a receiver");
    assert!(err.message.contains("self"), "got: {}", err.message);
}

#[test]
fn an_aspect_impl_with_two_advice_methods_emits_two_advisor_rows() {
    let item = impl_item(
        "impl Audit {
            #[advice(around, order = 100)]
            fn time(&self) {}
            #[advice(before)]
            fn log(&self) {}
            fn helper(&self) {}
         }",
    );
    let ts = emit_aspect_impl(&item).expect("emits");
    syn::parse_str::<syn::File>(&ts).expect("valid items");
    let s = flat(&ts);
    assert_eq!(
        s.matches("#[::leaf_core::linkme::distributed_slice(::leaf_core::ADVISORS)]")
            .count(),
        2,
        "two #[advice] methods => two ADVISORS rows: {s}"
    );
    assert!(
        s.contains(r#"::core::concat!(::core::module_path!(),"::","Audit_time")"#),
        "got: {s}"
    );
    assert!(
        s.contains(r#"::core::concat!(::core::module_path!(),"::","Audit_log")"#),
        "got: {s}"
    );
    assert!(s.contains("value:100i32"), "got: {s}");
}

#[test]
fn an_aspect_impl_advice_chain_order_pairing_const_is_per_method() {
    let item = impl_item(
        "impl Audit {
            #[advice(around, order = 50)]
            fn time(&self) {}
         }",
    );
    let s = flat(&emit_aspect_impl(&item).expect("emits"));
    assert!(
        s.contains("pubconst__leaf_advisor_Audit_time:::leaf_core::OrderKey"),
        "got: {s}"
    );
}

#[test]
fn a_pointcut_method_in_an_aspect_impl_also_emits_an_advisor_row() {
    let item = impl_item(
        "impl Audit {
            #[pointcut]
            fn tx_methods(&self) {}
         }",
    );
    let s = flat(&emit_aspect_impl(&item).expect("emits"));
    assert!(
        s.contains("#[::leaf_core::linkme::distributed_slice(::leaf_core::ADVISORS)]"),
        "got: {s}"
    );
    assert!(
        s.contains(r#"::core::concat!(::core::module_path!(),"::","Audit_tx_methods")"#),
        "got: {s}"
    );
}

#[test]
fn an_aspect_impl_with_no_advice_methods_emits_nothing() {
    let item = impl_item("impl Audit { fn helper(&self) {} }");
    let ts = emit_aspect_impl(&item).expect("emits");
    assert!(ts.is_empty(), "no advice methods => no rows: {}", flat(&ts));
}

#[test]
fn a_trait_impl_is_rejected() {
    let item = impl_item("impl SomeTrait for AppConfig { fn f(&self) {} }");
    let err = emit_configuration_impl(&item).expect_err("a trait impl is rejected");
    assert!(err.message.contains("inherent"), "got: {}", err.message);
}

#[test]
fn a_generic_configuration_impl_is_a_hard_error() {
    let item = impl_item("impl<T> AppConfig<T> { #[bean] fn pool(&self) -> Pool { todo!() } }");
    let err = emit_configuration_impl(&item).expect_err("a generic config hard-errors");
    assert!(err.message.contains("generic"), "got: {}", err.message);
}
