//! Tests of `grpc_controller`.
use leaf_codegen::grpc_controller::{emit_grpc_controller_kind, expand_grpc_controller_impl};
use leaf_codegen::items::{
    Attr, Field, Fields, ImplItem, MethodItem, Param, PathItem, StructItem,
};
use leaf_codegen::stereotype::{emit_struct, Stereotype};

fn text<T: quote::ToTokens>(t: &T) -> String {
    t.to_token_stream().to_string()
}

fn attr_of(a: &syn::Attribute) -> Attr {
    Attr {
        source: text(a),
        ident: a.path().get_ident().map(|i| i.to_string()),
        last: a.path().segments.last().map_or(String::new(), |s| s.ident.to_string()),
        args: match &a.meta {
            syn::Meta::List(l) => Some(l.tokens.to_string()),
            _ => None,
        },
    }
}

fn field_of(f: &syn::Field) -> Field {
    Field {
        ident: f.ident.as_ref().map_or(String::new(), |i| i.to_string()),
        ty: text(&f.ty),
        attrs: f.attrs.iter().map(attr_of).collect(),
    }
}

fn fields_of(fields: &syn::Fields) -> Fields {
    match fields {
        syn::Fields::Named(n) => Fields::Named(n.named.iter().map(field_of).collect()),
        syn::Fields::Unnamed(u) => Fields::Unnamed(u.unnamed.iter().map(field_of).collect()),
        syn::Fields::Unit => Fields::Unit,
    }
}

fn struct_item(src: &str) -> StructItem {
    let item: syn::ItemStruct = syn::parse_str(src).expect("a valid struct item");
    let (impl_generics, type_generics, where_clause) = item.generics.split_for_impl();
    StructItem {
        source: text(&item),
        ident: item.ident.to_string(),
        generic: !item.generics.params.is_empty(),
        has_where: item.generics.where_clause.is_some(),
        impl_generics: text(&impl_generics),
        type_generics: text(&type_generics),
        where_clause: text(&where_clause),
        fields: fields_of(&item.fields),
    }
}

fn params_of(sig: &syn::Signature) -> Vec<Param> {
    sig.inputs
        .iter()
        .map(|arg| match arg {
            syn::FnArg::Receiver(_) => Param::Receiver,
            syn::FnArg::Typed(t) => Param::Typed {
                name: match &*t.pat {
                    syn::Pat::Ident(i) => Some(i.ident.to_string()),
                    _ => None,
                },
                ty: text(&t.ty),
            },
        })
        .collect()
}

fn output_of(sig: &syn::Signature) -> Option<String> {
    match &sig.output {
        syn::ReturnType::Default => None,
        syn::ReturnType::Type(_, ty) => Some(text(ty)),
    }
}

struct SelfCalls {
    names: Vec<String>,
}

impl<'ast> syn::visit::Visit<'ast> for SelfCalls {
    fn visit_expr_method_call(&mut self, call: &'ast syn::ExprMethodCall) {
        if let syn::Expr::Path(p) = &*call.receiver {
            if p.path.is_ident("self") {
                self.names.push(call.method.to_string());
            }
        }
        syn::visit::visit_expr_method_call(self, call);
    }
}

fn method_of(m: &syn::ImplItemFn) -> MethodItem {
    let mut calls = SelfCalls { names: Vec::new() };
    syn::visit::Visit::visit_block(&mut calls, &m.block);
    MethodItem {
        ident: m.sig.ident.to_string(),
        generic: !m.sig.generics.params.is_empty(),
        attrs: m.attrs.iter().map(attr_of).collect(),
        params: params_of(&m.sig),
        output: output_of(&m.sig),
        self_calls: calls.names,
    }
}

fn path_of(path: &syn::Path) -> PathItem {
    let n = path.segments.len();
    PathItem {
        leading_colon: path.leading_colon.is_some(),
        parents: path.segments.iter().take(n - 1).map(|s| text(s)).collect(),
        last: path.segments[n - 1].ident.to_string(),
    }
}

fn impl_item(src: &str) -> ImplItem {
    let item: syn::ItemImpl = syn::parse_str(src).expect("a valid impl block");
    ImplItem {
        generic: !item.generics.params.is_empty(),
        self_ty: text(&item.self_ty),
        trait_path: item.trait_.as_ref().map(|(_, path, _)| path_of(path)),
        methods: item
            .items
            .iter()
            .filter_map(|i| match i {
                syn::ImplItem::Fn(m) => Some(method_of(m)),
                _ => None,
            })
            .collect(),
    }
}


fn flat(text: &str) -> String {
    let tokens = text.parse::<proc_macro2::TokenStream>().expect("tokens");
    tokens.to_string().split_whitespace().collect::<String>()
}

#[test]
fn a_unary_rpc_method_emits_a_grpc_route_bean() {
    let item = impl_item(
        r#"impl catalog::Catalog for CatalogController {
            async fn get(&self, req: ProductReq) -> Result<Product, Status> { todo!() }
        }"#,
    );
    let ts = expand_grpc_controller_impl(&item).expect("emits");
    syn::parse_str::<syn::File>(&ts).expect("the emitted artifact is valid Rust items");
    let s = flat(&ts);

    assert!(
        s.contains("::core::any::TypeId::of::<dyn::leaf_grpc::GrpcRoute>()"),
        "the GrpcRoute bean must declare the `dyn ::leaf_grpc::GrpcRoute` provides[] view: {s}"
    );
    assert!(
        s.contains("#[::leaf_core::linkme::distributed_slice(::leaf_core::COMPONENTS)]"),
        "the GrpcRoute bean is a COMPONENTS row: {s}"
    );

    assert!(
        s.contains("catalog::catalog::GET_DESCRIPTOR.path"),
        "path() reads the Stage-3 descriptor seam by method name: {s}"
    );

    assert!(
        s.contains("controller:::leaf_core::Ref<CatalogController>"),
        "the controller is field-injected as Ref<Controller>: {s}"
    );
    assert!(
        s.contains("codec:::leaf_core::Ref<::leaf_grpc::ProstCodec>"),
        "the prost codec is field-injected as Ref<ProstCodec>: {s}"
    );

    assert!(
        s.contains("<ProductReqas::leaf_grpc::GrpcRecv>::recv(__req,__codec)"),
        "the arg type is recv'd through the GrpcRecv seam: {s}"
    );
    assert!(
        s.contains("<Productas::leaf_grpc::GrpcSend>::send("),
        "the Ok type is sent through the GrpcSend seam: {s}"
    );
    assert!(
        s.contains("self.controller.get(__arg).await"),
        "invokes the controller method on the injected Ref: {s}"
    );
}

#[test]
fn a_server_stream_rpc_sends_through_the_streaming_grpcsend_impl() {
    let item = impl_item(
        r#"impl catalog::Catalog for CatalogController {
            async fn list(&self, req: ListReq) -> Result<Streaming<Product>, Status> { todo!() }
        }"#,
    );
    let ts = expand_grpc_controller_impl(&item).expect("emits");
    syn::parse_str::<syn::File>(&ts).expect("valid items");
    let s = flat(&ts);
    assert!(
        s.contains("<ListReqas::leaf_grpc::GrpcRecv>::recv("),
        "the unary input is recv'd through GrpcRecv: {s}"
    );
    assert!(
        s.contains("<Streaming<Product>as::leaf_grpc::GrpcSend>::send("),
        "the streaming Ok type is sent through GrpcSend VERBATIM: {s}"
    );
    assert!(
        s.contains("self.controller.list(__arg).await"),
        "invokes the controller method: {s}"
    );
}

#[test]
fn a_client_stream_rpc_recvs_through_the_streaming_grpcrecv_impl() {
    let item = impl_item(
        r#"impl catalog::Catalog for CatalogController {
            async fn upload(&self, reqs: Streaming<Chunk>) -> Result<Summary, Status> { todo!() }
        }"#,
    );
    let ts = expand_grpc_controller_impl(&item).expect("emits");
    syn::parse_str::<syn::File>(&ts).expect("valid items");
    let s = flat(&ts);
    assert!(
        s.contains("<Streaming<Chunk>as::leaf_grpc::GrpcRecv>::recv("),
        "the streaming input is recv'd through GrpcRecv VERBATIM: {s}"
    );
    assert!(
        s.contains("<Summaryas::leaf_grpc::GrpcSend>::send("),
        "the unary Ok type is sent through GrpcSend: {s}"
    );
}

#[test]
fn a_bidi_rpc_uses_streaming_on_both_grpcrecv_and_grpcsend() {
    let item = impl_item(
        r#"impl catalog::Catalog for CatalogController {
            async fn chat(&self, reqs: Streaming<Msg>) -> Result<Streaming<Msg>, Status> { todo!() }
        }"#,
    );
    let ts = expand_grpc_controller_impl(&item).expect("emits");
    syn::parse_str::<syn::File>(&ts).expect("valid items");
    let s = flat(&ts);
    assert!(
        s.contains("<Streaming<Msg>as::leaf_grpc::GrpcRecv>::recv("),
        "bidi input recv'd through the streaming GrpcRecv impl: {s}"
    );
    assert!(
        s.contains("<Streaming<Msg>as::leaf_grpc::GrpcSend>::send("),
        "bidi output sent through the streaming GrpcSend impl: {s}"
    );
}

#[test]
fn a_grpc_controller_struct_is_a_component_and_emits_the_kind_marker() {
    let rows = emit_struct(
        &struct_item("struct CatalogController { repo: ::leaf_core::Ref<Repo> }"),
        Stereotype::Component,
        "",
    )
    .expect("emits");
    let kind = emit_grpc_controller_kind(&struct_item("struct CatalogController;"));
    let ts = format!("{rows} {kind}");
    syn::parse_str::<syn::File>(&ts).expect("valid items");
    let s = flat(&ts);
    assert!(
        s.contains("#[::leaf_core::linkme::distributed_slice(::leaf_core::COMPONENTS)]"),
        "the controller bean is a COMPONENTS row: {s}"
    );
    assert!(
        s.contains("<::leaf_core::Ref<Repo>as::leaf_core::Injectable>::inject(__cx).await?"),
        "the controller's collaborator is field-injected: {s}"
    );
    assert!(
        s.contains("impl::leaf_grpc::GrpcControllerKindforCatalogController"),
        "the struct emits the GrpcControllerKind marker: {s}"
    );
}

#[test]
fn a_grpc_controller_impl_emits_the_kind_mismatch_guard() {
    let item = impl_item(
        r#"impl catalog::Catalog for CatalogController {
            async fn get(&self, req: ProductReq) -> Result<Product, Status> { todo!() }
        }"#,
    );
    let s = flat(&expand_grpc_controller_impl(&item).expect("emits"));
    assert!(
        s.contains("<CatalogControlleras::leaf_grpc::GrpcControllerKind>::IS_GRPC_CONTROLLER"),
        "the impl asserts the struct carries the GrpcControllerKind marker: {s}"
    );
}

#[test]
fn a_generic_grpc_controller_impl_is_a_hard_error() {
    let item = impl_item(
        r#"impl<T> catalog::Catalog for CatalogController<T> {
            async fn get(&self, req: ProductReq) -> Result<Product, Status> { todo!() }
        }"#,
    );
    let err = expand_grpc_controller_impl(&item)
        .expect_err("a generic grpc-controller impl hard-errors");
    assert!(err.message.contains("generic"), "got: {}", err.message);
}

#[test]
fn an_inherent_grpc_controller_impl_is_a_hard_error() {
    let item = impl_item(
        r#"impl CatalogController {
            async fn get(&self, req: ProductReq) -> Result<Product, Status> { todo!() }
        }"#,
    );
    let err = expand_grpc_controller_impl(&item)
        .expect_err("an inherent grpc-controller impl hard-errors");
    assert!(err.message.contains("trait impl"), "got: {}", err.message);
}

#[test]
fn an_rpc_method_without_a_self_receiver_is_an_error() {
    let item = impl_item(
        r#"impl catalog::Catalog for CatalogController {
            async fn get(req: ProductReq) -> Result<Product, Status> { todo!() }
        }"#,
    );
    let err = expand_grpc_controller_impl(&item)
        .expect_err("an RPC method needs a self receiver");
    assert!(err.message.contains("self"), "got: {}", err.message);
}
