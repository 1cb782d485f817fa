//! Controllers whose methods answer remote procedure calls, and the source that registers
//! a route for each method.
use vstd::prelude::*;

use crate::annotation::merged;
use crate::args::{error, told, EmitError};
use crate::chars::{ascii_upper, lower_text, lowered_text, to_ascii_upper};
use crate::config_impl::{type_ident, type_name_of};
use crate::descriptor::{
    bean_source, emit, plain_bean, Bean, BeanInput, Dep, Dependency, FieldShape, Scope,
    ServiceView, Slice,
};
use crate::items::{ImplItem, MethodItem, Param, PathItem, StructItem};
use crate::reading::{pieces_are_gathered_in_order, series, stands_in};
use crate::stereotype::{annotation_of, has_receiver, stereotype_meta, Stereotype};
use crate::syntax::{type_in, type_shape, TypeForm, TypeShape};
use crate::template::{
    filled, filled_part, filled_plain, filled_step, is_name_char, no_slots, slot_at, slot_text,
    Slots,
};
use crate::text::{
    chars_of, each_followed, follow_each, gathered, gathered_step, gathered_stops,
};

verus! {

/// `s` in upper case with a `_` between words. A word begins with an upper-case letter
/// behind a lower-case letter or a digit; `behind` says that one of these stands in front
/// of `s`.
pub open spec fn screaming(s: Seq<char>, behind: bool) -> Seq<char>
    decreases s.len(),
{
    if s.len() == 0 {
        Seq::empty()
    } else {
        let c = s[0];
        let next = ('a' <= c && c <= 'z') || ('0' <= c && c <= '9');
        let rest = screaming(s.drop_first(), next);
        if 'A' <= c && c <= 'Z' && behind {
            seq!['_', ascii_upper(c)] + rest
        } else {
            seq![ascii_upper(c)] + rest
        }
    }
}

/// A name in upper case with a `_` between words.
fn screaming_snake(ident: &str) -> (res: String)
    ensures
        res@ == screaming(ident@, false),
{
    let chars = chars_of(ident);
    let mut out = String::new();
    let mut behind = false;
    let mut i: usize = 0;
    assert(chars@.skip(0) =~= ident@);
    assert(out@ + screaming(ident@, false) =~= screaming(ident@, false));
    while i < chars.len()
        invariant
            chars@ == ident@,
            i <= chars.len(),
            screaming(ident@, false) == out@ + screaming(ident@.skip(i as int), behind),
        decreases chars.len() - i,
    {
        let c = chars[i];
        let ghost here = ident@.skip(i as int);
        let ghost before = out@;
        let ghost was = behind;
        if 'A' <= c && c <= 'Z' && behind {
            out.push('_');
        }
        out.push(to_ascii_upper(c));
        behind = ('a' <= c && c <= 'z') || ('0' <= c && c <= '9');
        proof {
            assert(here[0] == c);
            assert(here.drop_first() =~= ident@.skip(i + 1));
            let rest = screaming(here.drop_first(), behind);
            assert(before + screaming(here, was) =~= out@ + rest);
        }
        i += 1;
    }
    assert(screaming(ident@.skip(i as int), behind) =~= Seq::<char>::empty());
    assert(out@ + Seq::<char>::empty() =~= out@);
    out
}

/// The path of the constant that describes a method of a service.
pub open spec fn descriptor_path(service: PathItem, method: Seq<char>) -> Seq<char> {
    let front = if service.leading_colon {
        "::"@
    } else {
        ""@
    };
    front + each_followed(service.parents.deep_view(), "::"@) + lowered_text(
        screaming(service.last@, false),
    ) + "::"@ + screaming(method, false) + "_DESCRIPTOR"@
}

/// Prints the path of the constant that describes a method of a service.
pub fn descriptor_const_path(service: &PathItem, method: &str) -> (res: String)
    ensures
        res@ == descriptor_path(*service, method@),
{
    let front = if service.leading_colon {
        "::"
    } else {
        ""
    };
    let parents = follow_each(service.parents.as_slice(), "::");
    let module = lower_text(screaming_snake(service.last.as_str()).as_str());
    let name = screaming_snake(method);
    front.to_string().concat(parents.as_str()).concat(module.as_str()).concat("::").concat(
        name.as_str(),
    ).concat("_DESCRIPTOR")
}

/// The descriptor of a method stands in the module of its service, behind the parents of that, and
/// is called after the method in upper case: a capital behind a small letter or a digit is set off
/// with `_`.
pub proof fn descriptor_is_called_after_the_method(
    service: PathItem,
    method: Seq<char>,
    c: char,
    rest: Seq<char>,
    behind: bool,
)
    ensures
        descriptor_path(service, method) == (if service.leading_colon {
            "::"@
        } else {
            ""@
        }) + each_followed(service.parents.deep_view(), "::"@) + lowered_text(
            screaming(service.last@, false),
        ) + "::"@ + screaming(method, false) + "_DESCRIPTOR"@,
        screaming(seq![c] + rest, behind) == (if 'A' <= c && c <= 'Z' && behind {
            seq!['_', ascii_upper(c)]
        } else {
            seq![ascii_upper(c)]
        }) + screaming(rest, ('a' <= c && c <= 'z') || ('0' <= c && c <= '9')),
        screaming(Seq::empty(), behind) == Seq::<char>::empty(),
{
    assert((seq![c] + rest).drop_first() =~= rest);
}

/// The type of the first parameter that is not `self`.
pub open spec fn first_typed(params: Seq<Param>) -> Option<Seq<char>>
    decreases params.len(),
{
    if params.len() == 0 {
        None
    } else {
        match params[0] {
            Param::Typed { ty, .. } => Some(ty@),
            Param::Receiver => first_typed(params.drop_first()),
        }
    }
}

/// The type of the first parameter that is not `self`.
fn first_param_type(params: &Vec<Param>) -> (res: Option<String>)
    ensures
        res.deep_view() == first_typed(params@),
{
    let mut i: usize = 0;
    assert(params@.skip(0) =~= params@);
    while i < params.len()
        invariant
            i <= params.len(),
            first_typed(params@) == first_typed(params@.skip(i as int)),
        decreases params.len() - i,
    {
        assert(params@.skip(i as int)[0] == params@[i as int]);
        assert(params@.skip(i as int).drop_first() =~= params@.skip(i + 1));
        match &params[i] {
            Param::Typed { ty, .. } => return Some(ty.clone()),
            Param::Receiver => {},
        }
        i += 1;
    }
    None
}

/// The first argument that is a type.
pub open spec fn first_type(args: Seq<Option<Seq<char>>>) -> Option<Seq<char>>
    decreases args.len(),
{
    if args.len() == 0 {
        None
    } else {
        match args[0] {
            Some(ty) => Some(ty),
            None => first_type(args.drop_first()),
        }
    }
}

/// The type of a result that is not an error.
pub open spec fn ok_type(form: Result<TypeForm, Seq<char>>) -> Option<Seq<char>> {
    match form {
        Ok(TypeForm::Path { args, .. }) => first_type(args),
        _ => None,
    }
}

/// The first argument that is a type.
fn first_type_arg(args: &Vec<Option<String>>) -> (res: Option<String>)
    ensures
        res.deep_view() == first_type(args.deep_view()),
{
    let ghost all = args.deep_view();
    let mut i: usize = 0;
    assert(all.skip(0) =~= all);
    while i < args.len()
        invariant
            all == args.deep_view(),
            i <= args.len(),
            first_type(all) == first_type(all.skip(i as int)),
        decreases args.len() - i,
    {
        assert(all.skip(i as int)[0] == args@[i as int].deep_view());
        assert(all.skip(i as int).drop_first() =~= all.skip(i + 1));
        match &args[i] {
            Some(ty) => return Some(ty.clone()),
            None => {},
        }
        i += 1;
    }
    None
}

/// The type of a result that is not an error.
pub fn result_ok_type(shape: &Result<TypeShape, String>) -> (res: Option<String>)
    ensures
        res.deep_view() == ok_type(crate::syntax::outcome(*shape)),
{
    match shape {
        Ok(TypeShape::Path { args, .. }) => first_type_arg(args),
        _ => None,
    }
}

/// The request is the first parameter behind the receiver.
pub proof fn request_is_the_first_parameter(params: Seq<Param>, i: int)
    requires
        0 <= i < params.len(),
        params[i] is Typed,
        forall|k: int| 0 <= k < i ==> (#[trigger] params[k]) is Receiver,
    ensures
        first_typed(params) == Some(params[i]->ty@),
    decreases i,
{
    if i > 0 {
        assert(params[0] is Receiver);
        let rest = params.drop_first();
        assert forall|k: int| 0 <= k < i - 1 implies (#[trigger] rest[k]) is Receiver by {
            assert(rest[k] == params[k + 1]);
        }
        request_is_the_first_parameter(rest, i - 1);
    }
}

/// The reply is the first type in the result.
pub proof fn reply_is_the_first_type(last: Seq<char>, ty: Seq<char>, rest: Seq<Option<Seq<char>>>)
    ensures
        ok_type(Ok(TypeForm::Path { last, args: seq![Some(ty)] + rest })) == Some(ty),
        ok_type(Ok(TypeForm::Path { last, args: seq![None] + rest })) == ok_type(
            Ok(TypeForm::Path { last, args: rest }),
        ),
        ok_type(Ok(TypeForm::Path { last, args: Seq::empty() })) is None,
        ok_type(Ok(TypeForm::Other)) is None,
{
    let none: Option<Seq<char>> = None;
    assert((seq![none] + rest).drop_first() =~= rest);
}

/// What a route does with a request.
pub const DISPATCH: &'static str =
    "let __arg = match <#arg_ty as ::leaf_grpc::GrpcRecv>::recv(__req, __codec).await {
                ::core::result::Result::Ok(__a) => __a,
                ::core::result::Result::Err(__status) => {
                    return ::leaf_grpc::dispatch::status_response(&__status);
                }
            };
            <#ok_ty as ::leaf_grpc::GrpcSend>::send(
                self.controller.#method(__arg).await,
                __codec,
            )";

/// The type that a method gives where it succeeds.
pub open spec fn method_ok_type(method: MethodItem) -> Option<Seq<char>> {
    match method.output {
        Some(output) => ok_type(type_in(output@)),
        None => None,
    }
}

/// What the route of a method does with a request.
pub open spec fn dispatch_source(method: MethodItem) -> Result<Seq<char>, Seq<char>> {
    match first_typed(method.params@) {
        None => Err(
            "`"@ + method.ident@
                + "` is a `#[grpc_controller]` RPC method but takes no request argument: an RPC method is `async fn m(&self, arg: A) -> Result<O, Status>`."@,
        ),
        Some(arg_ty) => match method_ok_type(method) {
            None => Err(
                "`"@ + method.ident@
                    + "` is a `#[grpc_controller]` RPC method but does not return a `Result<O, Status>`: an RPC method renders its `Ok` value (or a `Status`) to the wire, so the return must be a `Result`."@,
            ),
            Some(ok_ty) => Ok(
                filled(
                    DISPATCH@,
                    no_slots().push(("arg_ty"@, arg_ty)).push(("ok_ty"@, ok_ty)).push(
                        ("method"@, method.ident@),
                    ),
                ),
            ),
        },
    }
}

/// Prints what the route of a method does with a request.
fn shape_dispatch(method: &MethodItem) -> (res: Result<String, EmitError>)
    ensures
        told(res) == dispatch_source(*method),
{
    let arg_ty = match first_param_type(&method.params) {
        Some(ty) => ty,
        None => return error(
            "`".to_string().concat(method.ident.as_str()).concat(
                "` is a `#[grpc_controller]` RPC method but takes no request argument: an RPC method is `async fn m(&self, arg: A) -> Result<O, Status>`.",
            ),
        ),
    };
    let ok_ty = match &method.output {
        Some(output) => result_ok_type(&type_shape(output.as_str())),
        None => None,
    };
    match ok_ty {
        Some(ok_ty) => {
            let slots = Slots::new().with("arg_ty", arg_ty.as_str()).with(
                "ok_ty",
                ok_ty.as_str(),
            ).with("method", method.ident.as_str());
            Ok(slots.fill(DISPATCH))
        },
        None => error(
            "`".to_string().concat(method.ident.as_str()).concat(
                "` is a `#[grpc_controller]` RPC method but does not return a `Result<O, Status>`: an RPC method renders its `Ok` value (or a `Status`) to the wire, so the return must be a `Result`.",
            ),
        ),
    }
}

/// Pieces of the template, where they stand in it.
#[verifier::spinoff_prover]
#[verifier::rlimit(60)]
proof fn dispatch_pieces()
    ensures
        DISPATCH@.len() == 454,
        DISPATCH@.subrange(18, 275) == "<"@ + seq!['#'] + "arg_ty"@ + " as ::leaf_grpc::GrpcRecv>::recv(__req, __codec).await {\n                ::core::result::Result::Ok(__a) => __a,\n                ::core::result::Result::Err(__status) => {\n                    return ::leaf_grpc::dispatch::status_response(&__status);"@,
        !is_name_char(DISPATCH@[18]),
        !is_name_char(DISPATCH@[275]),
        DISPATCH@.subrange(321, 454) == "<"@ + seq!['#'] + "ok_ty"@ + (" as ::leaf_grpc::GrpcSend>::send(\n                self.controller."@ + seq!['#'] + "method"@ + "(__arg).await,\n                __codec,\n            )"@),
        !is_name_char(DISPATCH@[321]),
{
    reveal_strlit(
        "let __arg = match <#arg_ty as ::leaf_grpc::GrpcRecv>::recv(__req, __codec).await {
                ::core::result::Result::Ok(__a) => __a,
                ::core::result::Result::Err(__status) => {
                    return ::leaf_grpc::dispatch::status_response(&__status);
                }
            };
            <#ok_ty as ::leaf_grpc::GrpcSend>::send(
                self.controller.#method(__arg).await,
                __codec,
            )",
    );
    reveal_strlit(" as ::leaf_grpc::GrpcRecv>::recv(__req, __codec).await {\n                ::core::result::Result::Ok(__a) => __a,\n                ::core::result::Result::Err(__status) => {\n                    return ::leaf_grpc::dispatch::status_response(&__status);");
    reveal_strlit(" as ::leaf_grpc::GrpcSend>::send(\n                self.controller.");
    reveal_strlit("(__arg).await,\n                __codec,\n            )");
    reveal_strlit("<");
    reveal_strlit("arg_ty");
    reveal_strlit("method");
    reveal_strlit("ok_ty");
    assert(DISPATCH@.subrange(18, 275) =~= "<"@ + seq!['#'] + "arg_ty"@ + " as ::leaf_grpc::GrpcRecv>::recv(__req, __codec).await {\n                ::core::result::Result::Ok(__a) => __a,\n                ::core::result::Result::Err(__status) => {\n                    return ::leaf_grpc::dispatch::status_response(&__status);"@);
    assert(DISPATCH@.subrange(321, 454) =~= "<"@ + seq!['#'] + "ok_ty"@ + (" as ::leaf_grpc::GrpcSend>::send(\n                self.controller."@ + seq!['#'] + "method"@ + "(__arg).await,\n                __codec,\n            )"@));
}

/// What the slots of the template hold.
proof fn dispatch_slots_are_found(method: MethodItem, arg_ty: Seq<char>, ok_ty: Seq<char>)
    ensures
        ({
            let slots = no_slots().push(("arg_ty"@, arg_ty)).push(("ok_ty"@, ok_ty)).push(
                ("method"@, method.ident@),
            );
            &&& slot_text(slots, "arg_ty"@) == Some(arg_ty)
            &&& slot_text(slots, "ok_ty"@) == Some(ok_ty)
            &&& slot_text(slots, "method"@) == Some(method.ident@)
        }),
{
    reveal_strlit("arg_ty");
    reveal_strlit("ok_ty");
    reveal_strlit("method");
    let slots = no_slots().push(("arg_ty"@, arg_ty)).push(("ok_ty"@, ok_ty)).push(
                ("method"@, method.ident@),
            );
    slot_at(slots, 0);
    assert("arg_ty"@.len() != "ok_ty"@.len());
    slot_at(slots, 1);
    assert("arg_ty"@[0] != "method"@[0]);
    assert("ok_ty"@.len() != "method"@.len());
    slot_at(slots, 2);
}

/// A request is received as the parameter of the method, the method is called with it, and the
/// reply is sent as its result; a request that cannot be received is answered with its status.
#[verifier::spinoff_prover]
#[verifier::rlimit(60)]
pub proof fn request_goes_through_the_method(method: MethodItem, arg_ty: Seq<char>, ok_ty: Seq<char>)
    requires
        first_typed(method.params@) == Some(arg_ty),
        method_ok_type(method) == Some(ok_ty),
    ensures
        stands_in(
            "<"@ + arg_ty + " as ::leaf_grpc::GrpcRecv>::recv(__req, __codec).await {\n                ::core::result::Result::Ok(__a) => __a,\n                ::core::result::Result::Err(__status) => {\n                    return ::leaf_grpc::dispatch::status_response(&__status);"@,
            dispatch_source(method)->Ok_0,
        ),
        stands_in(
            "<"@ + ok_ty + " as ::leaf_grpc::GrpcSend>::send(\n                self.controller."@ + method.ident@ + "(__arg).await,\n                __codec,\n            )"@,
            dispatch_source(method)->Ok_0,
        ),
{
    dispatch_pieces();
    dispatch_slots_are_found(method, arg_ty, ok_ty);
    let t = DISPATCH@;
    let slots = no_slots().push(("arg_ty"@, arg_ty)).push(("ok_ty"@, ok_ty)).push(
                ("method"@, method.ident@),
            );
    assert(stands_in("<"@ + arg_ty + " as ::leaf_grpc::GrpcRecv>::recv(__req, __codec).await {\n                ::core::result::Result::Ok(__a) => __a,\n                ::core::result::Result::Err(__status) => {\n                    return ::leaf_grpc::dispatch::status_response(&__status);"@,dispatch_source(method)->Ok_0)) by {
        reveal_strlit("arg_ty");
        reveal_strlit(" as ::leaf_grpc::GrpcRecv>::recv(__req, __codec).await {\n                ::core::result::Result::Ok(__a) => __a,\n                ::core::result::Result::Err(__status) => {\n                    return ::leaf_grpc::dispatch::status_response(&__status);");
        reveal_strlit("<");
        let p1 = " as ::leaf_grpc::GrpcRecv>::recv(__req, __codec).await {\n                ::core::result::Result::Ok(__a) => __a,\n                ::core::result::Result::Err(__status) => {\n                    return ::leaf_grpc::dispatch::status_response(&__status);"@;
        let p0 = "<"@ + seq!['#'] + "arg_ty"@ + p1;
        filled_plain(p1, slots);
        filled_step("<"@, "arg_ty"@, p1, slots);
        filled_part(t, 18, 275, slots);
        assert(("<"@ + arg_ty + " as ::leaf_grpc::GrpcRecv>::recv(__req, __codec).await {\n                ::core::result::Result::Ok(__a) => __a,\n                ::core::result::Result::Err(__status) => {\n                    return ::leaf_grpc::dispatch::status_response(&__status);"@) =~= "<"@ + arg_ty + " as ::leaf_grpc::GrpcRecv>::recv(__req, __codec).await {\n                ::core::result::Result::Ok(__a) => __a,\n                ::core::result::Result::Err(__status) => {\n                    return ::leaf_grpc::dispatch::status_response(&__status);"@);
    }
    assert(stands_in("<"@ + ok_ty + " as ::leaf_grpc::GrpcSend>::send(\n                self.controller."@ + method.ident@ + "(__arg).await,\n                __codec,\n            )"@,dispatch_source(method)->Ok_0)) by {
        reveal_strlit("method");
        reveal_strlit("ok_ty");
        reveal_strlit(" as ::leaf_grpc::GrpcSend>::send(\n                self.controller.");
        reveal_strlit("(__arg).await,\n                __codec,\n            )");
        reveal_strlit("<");
        let p2 = "(__arg).await,\n                __codec,\n            )"@;
        let p1 = " as ::leaf_grpc::GrpcSend>::send(\n                self.controller."@ + seq!['#'] + "method"@ + p2;
        let p0 = "<"@ + seq!['#'] + "ok_ty"@ + p1;
        filled_plain(p2, slots);
        filled_step(" as ::leaf_grpc::GrpcSend>::send(\n                self.controller."@, "method"@, p2, slots);
        filled_step("<"@, "ok_ty"@, p1, slots);
        filled_part(t, 321, 454, slots);
        assert(("<"@ + ok_ty + (" as ::leaf_grpc::GrpcSend>::send(\n                self.controller."@ + method.ident@ + "(__arg).await,\n                __codec,\n            )"@)) =~= "<"@ + ok_ty + " as ::leaf_grpc::GrpcSend>::send(\n                self.controller."@ + method.ident@ + "(__arg).await,\n                __codec,\n            )"@);
    }
}

/// The route of a method: a struct that holds the controller, and what answers requests.
pub const ROUTE: &'static str = "#[doc(hidden)]
#[allow(non_upper_case_globals, non_camel_case_types, non_snake_case)]
pub struct #route {
    controller: ::leaf_core::Ref<#self_ty>,
    codec: ::leaf_core::Ref<::leaf_grpc::ProstCodec>,
}
#[allow(non_upper_case_globals, non_camel_case_types, non_snake_case)]
impl ::leaf_grpc::GrpcRoute for #route {
    fn path(&self) -> &str {
        #descriptor.path
    }
    fn handler(&self) -> &dyn ::leaf_grpc::GrpcHandler {
        self
    }
}
#[allow(non_upper_case_globals, non_camel_case_types, non_snake_case)]
impl ::leaf_grpc::GrpcHandler for #route {
    fn call<'__a>(
        &'__a self,
        __req: ::leaf_web::Request,
    ) -> ::leaf_core::BoxFuture<'__a, ::leaf_web::Response> {
        ::std::boxed::Box::pin(async move {
            let __codec: &::leaf_grpc::ProstCodec = &*self.codec;
            #dispatch
        })
    }
}
";

/// The name of the route of a method.
pub open spec fn route_name(controller: Seq<char>, method: Seq<char>) -> Seq<char> {
    "__LeafGrpcRoute_"@ + controller + "_"@ + method
}

/// The bean that the route of a method is.
pub open spec fn route_bean(route: Seq<char>, self_ty: Seq<char>) -> Bean {
    Bean {
        module_qualified: true,
        scope: Scope::Singleton,
        meta: merged(annotation_of(Stereotype::Component)),
        slice: Slice::Components,
        deps: Seq::empty().push(
            Dep { name: "controller"@, ty: "::leaf_core::Ref<"@ + self_ty + ">"@ },
        ).push(Dep { name: "codec"@, ty: "::leaf_core::Ref<::leaf_grpc::ProstCodec>"@ }),
        inject_via_trait: true,
        field_shape: FieldShape::Named,
        provides: Seq::empty().push("dyn ::leaf_grpc::GrpcRoute"@),
        ..plain_bean(route, route, route)
    }
}

/// The bean that the route of a method is.
fn route_input(route: &str, self_ty: &str) -> (res: BeanInput)
    ensures
        res@ == route_bean(route@, self_ty@),
{
    let mut deps: Vec<Dependency> = Vec::new();
    deps.push(
        Dependency {
            name: "controller".to_string(),
            ty: "::leaf_core::Ref<".to_string().concat(self_ty).concat(">"),
        },
    );
    deps.push(
        Dependency {
            name: "codec".to_string(),
            ty: "::leaf_core::Ref<::leaf_grpc::ProstCodec>".to_string(),
        },
    );
    let mut provides: Vec<ServiceView> = Vec::new();
    provides.push(ServiceView { dyn_ty: "dyn ::leaf_grpc::GrpcRoute".to_string() });
    assert(deps.deep_view() =~= route_bean(route@, self_ty@).deps);
    assert(provides.deep_view() =~= route_bean(route@, self_ty@).provides);
    let mut input = BeanInput::new(route, route, route);
    input.module_qualified = true;
    input.scope = Scope::Singleton;
    input.meta = stereotype_meta(Stereotype::Component);
    input.slice = Slice::Components;
    input.deps = deps;
    input.inject_via_trait = true;
    input.field_shape = FieldShape::Named;
    input.provides = provides;
    input
}

/// The route of a method of a controller, with its registration.
pub open spec fn route_source(
    self_ty: Seq<char>,
    service: PathItem,
    controller: Seq<char>,
    method: MethodItem,
) -> Result<Seq<char>, Seq<char>> {
    let route = route_name(controller, method.ident@);
    if !has_receiver(method.params@) {
        Err(
            "`"@ + controller + "::"@ + method.ident@
                + "` is a `#[grpc_controller]` RPC method but takes no `self` receiver: a handler method threads the controller bean through `&self`."@,
        )
    } else {
        match dispatch_source(method) {
            Err(message) => Err(message),
            Ok(dispatch) => match bean_source(route_bean(route, self_ty)) {
                Err(message) => Err(message),
                Ok(registration) => Ok(
                    filled(
                        ROUTE@,
                        no_slots().push(("route"@, route)).push(("self_ty"@, self_ty)).push(
                            ("descriptor"@, descriptor_path(service, method.ident@)),
                        ).push(("dispatch"@, dispatch)),
                    ) + registration,
                ),
            },
        }
    }
}

/// Whether there is a `self` among the parameters.
fn has_self_receiver(params: &Vec<Param>) -> (res: bool)
    ensures
        res == has_receiver(params@),
{
    let mut i: usize = 0;
    while i < params.len()
        invariant
            i <= params.len(),
            forall|k: int| 0 <= k < i ==> !((#[trigger] params@[k]) is Receiver),
        decreases params.len() - i,
    {
        match &params[i] {
            Param::Receiver => {
                assert(params@[i as int] is Receiver);
                return true;
            },
            _ => {},
        }
        i += 1;
    }
    false
}

/// Prints the route of a method of a controller, with its registration.
pub fn emit_grpc_route_bean(
    self_ty: &str,
    service: &PathItem,
    controller: &str,
    method: &MethodItem,
) -> (res: Result<String, EmitError>)
    ensures
        told(res) == route_source(self_ty@, *service, controller@, *method),
{
    let name = method.ident.as_str();
    if !has_self_receiver(&method.params) {
        return error(
            "`".to_string().concat(controller).concat("::").concat(name).concat(
                "` is a `#[grpc_controller]` RPC method but takes no `self` receiver: a handler method threads the controller bean through `&self`.",
            ),
        );
    }
    let dispatch = match shape_dispatch(method) {
        Ok(dispatch) => dispatch,
        Err(e) => return Err(e),
    };
    let route = "__LeafGrpcRoute_".to_string().concat(controller).concat("_").concat(name);
    let registration = match emit(&route_input(route.as_str(), self_ty)) {
        Ok(registration) => registration,
        Err(e) => return Err(e),
    };
    let slots = Slots::new().with("route", route.as_str()).with("self_ty", self_ty).with(
        "descriptor",
        descriptor_const_path(service, name).as_str(),
    ).with("dispatch", dispatch.as_str());
    Ok(slots.fill(ROUTE).concat(registration.as_str()))
}

/// The pieces that the route of a method is filled with.
pub open spec fn route_slots(
    self_ty: Seq<char>,
    service: PathItem,
    controller: Seq<char>,
    method: MethodItem,
) -> Seq<(Seq<char>, Seq<char>)> {
    no_slots().push(("route"@, route_name(controller, method.ident@))).push(("self_ty"@, self_ty)).push(
        ("descriptor"@, descriptor_path(service, method.ident@)),
    ).push(("dispatch"@, dispatch_source(method)->Ok_0))
}

/// Pieces of the template, where they stand in it.
#[verifier::spinoff_prover]
#[verifier::rlimit(60)]
proof fn route_pieces()
    ensures
        ROUTE@.len() == 858,
        ROUTE@.subrange(85, 149) == "\npub struct "@ + seq!['#'] + "route"@ + (" {\n    controller: ::leaf_core::Ref<"@ + seq!['#'] + "self_ty"@ + ">,"@),
        !is_name_char(ROUTE@[85]),
        !is_name_char(ROUTE@[149]),
        ROUTE@.subrange(282, 377) == "::leaf_grpc::GrpcRoute for "@ + seq!['#'] + "route"@ + (" {\n    fn path(&self) -> &str {\n        "@ + seq!['#'] + "descriptor"@ + ".path\n    }"@),
        !is_name_char(ROUTE@[282]),
        !is_name_char(ROUTE@[377]),
        ROUTE@.subrange(532, 569) == "::leaf_grpc::GrpcHandler for "@ + seq!['#'] + "route"@ + " {"@,
        !is_name_char(ROUTE@[532]),
        !is_name_char(ROUTE@[569]),
        ROUTE@.subrange(750, 849) == "\n            let __codec: &::leaf_grpc::ProstCodec = &*self.codec;\n            "@ + seq!['#'] + "dispatch"@ + "\n        })"@,
        !is_name_char(ROUTE@[750]),
        !is_name_char(ROUTE@[849]),
{
    reveal_strlit(
        "#[doc(hidden)]
#[allow(non_upper_case_globals, non_camel_case_types, non_snake_case)]
pub struct #route {
    controller: ::leaf_core::Ref<#self_ty>,
    codec: ::leaf_core::Ref<::leaf_grpc::ProstCodec>,
}
#[allow(non_upper_case_globals, non_camel_case_types, non_snake_case)]
impl ::leaf_grpc::GrpcRoute for #route {
    fn path(&self) -> &str {
        #descriptor.path
    }
    fn handler(&self) -> &dyn ::leaf_grpc::GrpcHandler {
        self
    }
}
#[allow(non_upper_case_globals, non_camel_case_types, non_snake_case)]
impl ::leaf_grpc::GrpcHandler for #route {
    fn call<'__a>(
        &'__a self,
        __req: ::leaf_web::Request,
    ) -> ::leaf_core::BoxFuture<'__a, ::leaf_web::Response> {
        ::std::boxed::Box::pin(async move {
            let __codec: &::leaf_grpc::ProstCodec = &*self.codec;
            #dispatch
        })
    }
}
",
    );
    reveal_strlit("\n            let __codec: &::leaf_grpc::ProstCodec = &*self.codec;\n            ");
    reveal_strlit("\n        })");
    reveal_strlit("\npub struct ");
    reveal_strlit(" {");
    reveal_strlit(" {\n    controller: ::leaf_core::Ref<");
    reveal_strlit(" {\n    fn path(&self) -> &str {\n        ");
    reveal_strlit(".path\n    }");
    reveal_strlit("::leaf_grpc::GrpcHandler for ");
    reveal_strlit("::leaf_grpc::GrpcRoute for ");
    reveal_strlit(">,");
    reveal_strlit("descriptor");
    reveal_strlit("dispatch");
    reveal_strlit("route");
    reveal_strlit("self_ty");
    assert(ROUTE@.subrange(85, 149) =~= "\npub struct "@ + seq!['#'] + "route"@ + (" {\n    controller: ::leaf_core::Ref<"@ + seq!['#'] + "self_ty"@ + ">,"@));
    assert(ROUTE@.subrange(282, 377) =~= "::leaf_grpc::GrpcRoute for "@ + seq!['#'] + "route"@ + (" {\n    fn path(&self) -> &str {\n        "@ + seq!['#'] + "descriptor"@ + ".path\n    }"@));
    assert(ROUTE@.subrange(532, 569) =~= "::leaf_grpc::GrpcHandler for "@ + seq!['#'] + "route"@ + " {"@);
    assert(ROUTE@.subrange(750, 849) =~= "\n            let __codec: &::leaf_grpc::ProstCodec = &*self.codec;\n            "@ + seq!['#'] + "dispatch"@ + "\n        })"@);
}

/// What the slots of the template hold.
proof fn route_slots_are_found(self_ty: Seq<char>, service: PathItem, controller: Seq<char>, method: MethodItem)
    ensures
        ({
            let slots = route_slots(self_ty, service, controller, method);
            &&& slot_text(slots, "route"@) == Some(route_name(controller, method.ident@))
            &&& slot_text(slots, "self_ty"@) == Some(self_ty)
            &&& slot_text(slots, "descriptor"@) == Some(descriptor_path(service, method.ident@))
            &&& slot_text(slots, "dispatch"@) == Some(dispatch_source(method)->Ok_0)
        }),
{
    reveal_strlit("route");
    reveal_strlit("self_ty");
    reveal_strlit("descriptor");
    reveal_strlit("dispatch");
    let slots = route_slots(self_ty, service, controller, method);
    slot_at(slots, 0);
    assert("route"@.len() != "self_ty"@.len());
    slot_at(slots, 1);
    assert("route"@.len() != "descriptor"@.len());
    assert("self_ty"@.len() != "descriptor"@.len());
    slot_at(slots, 2);
    assert("route"@.len() != "dispatch"@.len());
    assert("self_ty"@.len() != "dispatch"@.len());
    assert("descriptor"@.len() != "dispatch"@.len());
    slot_at(slots, 3);
}

/// A route holds its controller, has the path of its method, and answers a request through it.
#[verifier::spinoff_prover]
#[verifier::rlimit(60)]
pub proof fn route_answers_through_its_method(self_ty: Seq<char>, service: PathItem, controller: Seq<char>, method: MethodItem)
    ensures
        stands_in(
            "\npub struct "@ + route_name(controller, method.ident@) + " {\n    controller: ::leaf_core::Ref<"@ + self_ty + ">,"@,
            filled(ROUTE@, route_slots(self_ty, service, controller, method)),
        ),
        stands_in(
            "::leaf_grpc::GrpcRoute for "@ + route_name(controller, method.ident@) + " {\n    fn path(&self) -> &str {\n        "@ + descriptor_path(service, method.ident@) + ".path\n    }"@,
            filled(ROUTE@, route_slots(self_ty, service, controller, method)),
        ),
        stands_in(
            "::leaf_grpc::GrpcHandler for "@ + route_name(controller, method.ident@) + " {"@,
            filled(ROUTE@, route_slots(self_ty, service, controller, method)),
        ),
        stands_in(
            "\n            let __codec: &::leaf_grpc::ProstCodec = &*self.codec;\n            "@ + dispatch_source(method)->Ok_0 + "\n        })"@,
            filled(ROUTE@, route_slots(self_ty, service, controller, method)),
        ),
        route_source(self_ty, service, controller, method) matches Ok(s) ==> s == filled(
            ROUTE@,
            route_slots(self_ty, service, controller, method),
        ) + bean_source(route_bean(route_name(controller, method.ident@), self_ty))->Ok_0,
        !has_receiver(method.params@) || dispatch_source(method) is Err ==> route_source(
            self_ty,
            service,
            controller,
            method,
        ) is Err,
{
    route_pieces();
    route_slots_are_found(self_ty, service, controller, method);
    let t = ROUTE@;
    let slots = route_slots(self_ty, service, controller, method);
    assert(stands_in("\npub struct "@ + route_name(controller, method.ident@) + " {\n    controller: ::leaf_core::Ref<"@ + self_ty + ">,"@,filled(ROUTE@, route_slots(self_ty, service, controller, method)))) by {
        reveal_strlit("route");
        reveal_strlit("self_ty");
        reveal_strlit("\npub struct ");
        reveal_strlit(" {\n    controller: ::leaf_core::Ref<");
        reveal_strlit(">,");
        let p2 = ">,"@;
        let p1 = " {\n    controller: ::leaf_core::Ref<"@ + seq!['#'] + "self_ty"@ + p2;
        let p0 = "\npub struct "@ + seq!['#'] + "route"@ + p1;
        filled_plain(p2, slots);
        filled_step(" {\n    controller: ::leaf_core::Ref<"@, "self_ty"@, p2, slots);
        filled_step("\npub struct "@, "route"@, p1, slots);
        filled_part(t, 85, 149, slots);
        assert(("\npub struct "@ + route_name(controller, method.ident@) + (" {\n    controller: ::leaf_core::Ref<"@ + self_ty + ">,"@)) =~= "\npub struct "@ + route_name(controller, method.ident@) + " {\n    controller: ::leaf_core::Ref<"@ + self_ty + ">,"@);
    }
    assert(stands_in("::leaf_grpc::GrpcRoute for "@ + route_name(controller, method.ident@) + " {\n    fn path(&self) -> &str {\n        "@ + descriptor_path(service, method.ident@) + ".path\n    }"@,filled(ROUTE@, route_slots(self_ty, service, controller, method)))) by {
        reveal_strlit("descriptor");
        reveal_strlit("route");
        reveal_strlit(" {\n    fn path(&self) -> &str {\n        ");
        reveal_strlit(".path\n    }");
        reveal_strlit("::leaf_grpc::GrpcRoute for ");
        let p2 = ".path\n    }"@;
        let p1 = " {\n    fn path(&self) -> &str {\n        "@ + seq!['#'] + "descriptor"@ + p2;
        let p0 = "::leaf_grpc::GrpcRoute for "@ + seq!['#'] + "route"@ + p1;
        filled_plain(p2, slots);
        filled_step(" {\n    fn path(&self) -> &str {\n        "@, "descriptor"@, p2, slots);
        filled_step("::leaf_grpc::GrpcRoute for "@, "route"@, p1, slots);
        filled_part(t, 282, 377, slots);
        assert(("::leaf_grpc::GrpcRoute for "@ + route_name(controller, method.ident@) + (" {\n    fn path(&self) -> &str {\n        "@ + descriptor_path(service, method.ident@) + ".path\n    }"@)) =~= "::leaf_grpc::GrpcRoute for "@ + route_name(controller, method.ident@) + " {\n    fn path(&self) -> &str {\n        "@ + descriptor_path(service, method.ident@) + ".path\n    }"@);
    }
    assert(stands_in("::leaf_grpc::GrpcHandler for "@ + route_name(controller, method.ident@) + " {"@,filled(ROUTE@, route_slots(self_ty, service, controller, method)))) by {
        reveal_strlit("route");
        reveal_strlit(" {");
        reveal_strlit("::leaf_grpc::GrpcHandler for ");
        let p1 = " {"@;
        let p0 = "::leaf_grpc::GrpcHandler for "@ + seq!['#'] + "route"@ + p1;
        filled_plain(p1, slots);
        filled_step("::leaf_grpc::GrpcHandler for "@, "route"@, p1, slots);
        filled_part(t, 532, 569, slots);
        assert(("::leaf_grpc::GrpcHandler for "@ + route_name(controller, method.ident@) + " {"@) =~= "::leaf_grpc::GrpcHandler for "@ + route_name(controller, method.ident@) + " {"@);
    }
    assert(stands_in("\n            let __codec: &::leaf_grpc::ProstCodec = &*self.codec;\n            "@ + dispatch_source(method)->Ok_0 + "\n        })"@,filled(ROUTE@, route_slots(self_ty, service, controller, method)))) by {
        reveal_strlit("dispatch");
        reveal_strlit("\n            let __codec: &::leaf_grpc::ProstCodec = &*self.codec;\n            ");
        reveal_strlit("\n        })");
        let p1 = "\n        })"@;
        let p0 = "\n            let __codec: &::leaf_grpc::ProstCodec = &*self.codec;\n            "@ + seq!['#'] + "dispatch"@ + p1;
        filled_plain(p1, slots);
        filled_step("\n            let __codec: &::leaf_grpc::ProstCodec = &*self.codec;\n            "@, "dispatch"@, p1, slots);
        filled_part(t, 750, 849, slots);
        assert(("\n            let __codec: &::leaf_grpc::ProstCodec = &*self.codec;\n            "@ + dispatch_source(method)->Ok_0 + "\n        })"@) =~= "\n            let __codec: &::leaf_grpc::ProstCodec = &*self.codec;\n            "@ + dispatch_source(method)->Ok_0 + "\n        })"@);
    }
}

/// A route is a bean that is made from its controller and the codec, and can be had as a route.
pub proof fn route_is_made_from_its_controller(route: Seq<char>, self_ty: Seq<char>)
    ensures
        ({
            let b = route_bean(route, self_ty);
            &&& b.self_ty == route
            &&& b.ident == route
            &&& b.module_qualified
            &&& b.scope == Scope::Singleton
            &&& b.slice == Slice::Components
            &&& b.inject_via_trait
            &&& b.field_shape == FieldShape::Named
            &&& b.ctor is None
            &&& !b.is_generic
            &&& b.deps.len() == 2
            &&& b.deps[0].name == "controller"@
            &&& b.deps[0].ty == "::leaf_core::Ref<"@ + self_ty + ">"@
            &&& b.deps[1].name == "codec"@
            &&& b.deps[1].ty == "::leaf_core::Ref<::leaf_grpc::ProstCodec>"@
            &&& b.provides == seq!["dyn ::leaf_grpc::GrpcRoute"@]
        }),
{
    assert(route_bean(route, self_ty).provides =~= seq!["dyn ::leaf_grpc::GrpcRoute"@]);
}

/// The routes of the methods of a controller.
pub open spec fn route_parts(
    self_ty: Seq<char>,
    service: PathItem,
    controller: Seq<char>,
    methods: Seq<MethodItem>,
) -> Seq<Result<Seq<char>, Seq<char>>> {
    Seq::new(methods.len(), |i: int| route_source(self_ty, service, controller, methods[i]))
}

/// The assertion that a controller is marked as one.
pub const KIND_GUARD: &'static str = "const _: () = {
    ::core::assert!(
        <#self_ty as ::leaf_grpc::GrpcControllerKind>::IS_GRPC_CONTROLLER,
        \"gRPC controller stereotype mismatch: this `impl` block lowers RPC methods but its controller struct is not a `#[grpc_controller]`. Put `#[grpc_controller]` on BOTH the struct AND the `impl ServiceTrait for Controller` block.\"
    );
};
";

/// Pieces of the template, where they stand in it.
#[verifier::spinoff_prover]
#[verifier::rlimit(60)]
proof fn kind_guard_pieces()
    ensures
        KIND_GUARD@.len() == 357,
        KIND_GUARD@.subrange(20, 111) == "::core::assert!(\n        <"@ + seq!['#'] + "self_ty"@ + " as ::leaf_grpc::GrpcControllerKind>::IS_GRPC_CONTROLLER,"@,
        !is_name_char(KIND_GUARD@[20]),
        !is_name_char(KIND_GUARD@[111]),
{
    reveal_strlit(
        "const _: () = {
    ::core::assert!(
        <#self_ty as ::leaf_grpc::GrpcControllerKind>::IS_GRPC_CONTROLLER,
        \"gRPC controller stereotype mismatch: this `impl` block lowers RPC methods but its controller struct is not a `#[grpc_controller]`. Put `#[grpc_controller]` on BOTH the struct AND the `impl ServiceTrait for Controller` block.\"
    );
};
",
    );
    reveal_strlit(" as ::leaf_grpc::GrpcControllerKind>::IS_GRPC_CONTROLLER,");
    reveal_strlit("::core::assert!(\n        <");
    reveal_strlit("self_ty");
    assert(KIND_GUARD@.subrange(20, 111) =~= "::core::assert!(\n        <"@ + seq!['#'] + "self_ty"@ + " as ::leaf_grpc::GrpcControllerKind>::IS_GRPC_CONTROLLER,"@);
}

/// What the slots of the template hold.
proof fn kind_guard_slots_are_found(self_ty: Seq<char>)
    ensures
        ({
            let slots = no_slots().push(("self_ty"@, self_ty));
            &&& slot_text(slots, "self_ty"@) == Some(self_ty)
        }),
{
    reveal_strlit("self_ty");
    let slots = no_slots().push(("self_ty"@, self_ty));
    slot_at(slots, 0);
}

/// A controller has to be marked as one: its own mark is asserted.
#[verifier::spinoff_prover]
#[verifier::rlimit(60)]
pub proof fn controller_mark_is_asserted(self_ty: Seq<char>)
    ensures
        stands_in(
            "::core::assert!(\n        <"@ + self_ty + " as ::leaf_grpc::GrpcControllerKind>::IS_GRPC_CONTROLLER,"@,
            filled(KIND_GUARD@, no_slots().push(("self_ty"@, self_ty))),
        ),
{
    kind_guard_pieces();
    kind_guard_slots_are_found(self_ty);
    let t = KIND_GUARD@;
    let slots = no_slots().push(("self_ty"@, self_ty));
    assert(stands_in("::core::assert!(\n        <"@ + self_ty + " as ::leaf_grpc::GrpcControllerKind>::IS_GRPC_CONTROLLER,"@,filled(KIND_GUARD@, no_slots().push(("self_ty"@, self_ty))))) by {
        reveal_strlit("self_ty");
        reveal_strlit(" as ::leaf_grpc::GrpcControllerKind>::IS_GRPC_CONTROLLER,");
        reveal_strlit("::core::assert!(\n        <");
        let p1 = " as ::leaf_grpc::GrpcControllerKind>::IS_GRPC_CONTROLLER,"@;
        let p0 = "::core::assert!(\n        <"@ + seq!['#'] + "self_ty"@ + p1;
        filled_plain(p1, slots);
        filled_step("::core::assert!(\n        <"@, "self_ty"@, p1, slots);
        filled_part(t, 20, 111, slots);
        assert(("::core::assert!(\n        <"@ + self_ty + " as ::leaf_grpc::GrpcControllerKind>::IS_GRPC_CONTROLLER,"@) =~= "::core::assert!(\n        <"@ + self_ty + " as ::leaf_grpc::GrpcControllerKind>::IS_GRPC_CONTROLLER,"@);
    }
}

/// The routes of a controller, and the assertion that it is marked as one.
pub open spec fn controller_source(item: ImplItem) -> Result<Seq<char>, Seq<char>> {
    match item.trait_path {
        None => Err(
            "`#[grpc_controller]` applies to a `impl ServiceTrait for Controller { .. }` trait impl (the Stage-3 generated gRPC server trait), not an inherent impl."@,
        ),
        Some(service) => {
            let controller = type_name_of(type_in(item.self_ty@));
            if item.generic {
                Err(
                    "`"@ + controller
                        + "` is a generic `#[grpc_controller]` impl: a generic controller has no single concrete type to mint its per-method `GrpcRoute` beans. Make the controller concrete."@,
                )
            } else {
                match gathered(route_parts(item.self_ty@, service, controller, item.methods@)) {
                    Ok(rows) => Ok(
                        rows + filled(KIND_GUARD@, no_slots().push(("self_ty"@, item.self_ty@))),
                    ),
                    Err(message) => Err(message),
                }
            }
        },
    }
}

/// Prints the routes of the methods of a controller.
fn route_rows(
    self_ty: &str,
    service: &PathItem,
    controller: &str,
    methods: &Vec<MethodItem>,
) -> (res: Result<String, EmitError>)
    ensures
        told(res) == gathered(route_parts(self_ty@, *service, controller@, methods@)),
{
    let ghost parts = route_parts(self_ty@, *service, controller@, methods@);
    let mut rows = String::new();
    let mut i: usize = 0;
    assert(rows@ =~= Seq::<char>::empty());
    while i < methods.len()
        invariant
            i <= methods.len(),
            parts == route_parts(self_ty@, *service, controller@, methods@),
            gathered(parts.take(i as int)) == Ok::<Seq<char>, Seq<char>>(rows@),
        decreases methods.len() - i,
    {
        proof {
            gathered_step(parts, i as int);
        }
        match emit_grpc_route_bean(self_ty, service, controller, &methods[i]) {
            Ok(row) => rows.append(row.as_str()),
            Err(e) => {
                proof {
                    gathered_stops(parts, i + 1);
                }
                return Err(e);
            },
        }
        i += 1;
    }
    assert(parts.take(i as int) =~= parts);
    Ok(rows)
}

/// A controller has a route for each of its methods, in their order; an inherent impl or a generic
/// one is refused.
pub proof fn controller_has_its_routes(item: ImplItem)
    ensures
        item.trait_path is None || item.generic ==> controller_source(item) is Err,
        item.trait_path is Some && !item.generic ==> (controller_source(item) matches Ok(s) ==> {
            let rows = gathered(
                route_parts(
                    item.self_ty@,
                    item.trait_path->0,
                    type_name_of(type_in(item.self_ty@)),
                    item.methods@,
                ),
            )->Ok_0;
            &&& s == rows + filled(KIND_GUARD@, no_slots().push(("self_ty"@, item.self_ty@)))
            &&& series(
                rows,
                Seq::new(
                    item.methods@.len(),
                    |i: int|
                        route_source(
                            item.self_ty@,
                            item.trait_path->0,
                            type_name_of(type_in(item.self_ty@)),
                            item.methods@[i],
                        )->Ok_0,
                ),
                ""@,
            )
        }),
{
    if item.trait_path is Some && !item.generic {
        let parts = route_parts(
            item.self_ty@,
            item.trait_path->0,
            type_name_of(type_in(item.self_ty@)),
            item.methods@,
        );
        pieces_are_gathered_in_order(parts);
        assert(Seq::new(parts.len(), |i: int| parts[i]->Ok_0) =~= Seq::new(
            item.methods@.len(),
            |i: int|
                route_source(
                    item.self_ty@,
                    item.trait_path->0,
                    type_name_of(type_in(item.self_ty@)),
                    item.methods@[i],
                )->Ok_0,
        ));
    }
}

/// A method of a controller has its route where it has a receiver, its request can be dispatched and
/// its route registered; and a controller has its routes where each of its methods does.
pub proof fn sound_controller_has_its_routes(item: ImplItem, controller: Seq<char>, method: MethodItem)
    requires
        item.trait_path is Some,
        !item.generic,
    ensures
        has_receiver(method.params@) && dispatch_source(method) is Ok && bean_source(
            route_bean(route_name(controller, method.ident@), item.self_ty@),
        ) is Ok ==> route_source(item.self_ty@, item.trait_path->0, controller, method) is Ok,
        (forall|i: int|
            0 <= i < item.methods@.len() ==> route_source(
                item.self_ty@,
                item.trait_path->0,
                type_name_of(type_in(item.self_ty@)),
                #[trigger] item.methods@[i],
            ) is Ok) ==> controller_source(item) is Ok,
{
    let name = type_name_of(type_in(item.self_ty@));
    let parts = route_parts(item.self_ty@, item.trait_path->0, name, item.methods@);
    pieces_are_gathered_in_order(parts);
    if forall|i: int|
        0 <= i < item.methods@.len() ==> route_source(
            item.self_ty@,
            item.trait_path->0,
            name,
            #[trigger] item.methods@[i],
        ) is Ok {
        assert forall|i: int| 0 <= i < parts.len() implies #[trigger] parts[i] is Ok by {
            assert(parts[i] == route_source(
                item.self_ty@,
                item.trait_path->0,
                name,
                item.methods@[i],
            ));
        }
    }
}

/// A struct that is marked as a controller is one.
pub proof fn marked_struct_is_a_controller(item: StructItem)
    ensures
        kind_source(item) == "#[automatically_derived] #[doc(hidden)] impl "@ + item.impl_generics@
            + " ::leaf_grpc::GrpcControllerKind for "@ + item.ident@ + " "@ + item.type_generics@
            + " "@ + item.where_clause@ + " { const IS_GRPC_CONTROLLER: bool = true; }"@,
        route_name(item.ident@, item.source@) == "__LeafGrpcRoute_"@ + item.ident@ + "_"@
            + item.source@,
{
}

/// Prints the routes of a controller, and the assertion that it is marked as one.
pub fn expand_grpc_controller_impl(item: &ImplItem) -> (res: Result<String, EmitError>)
    ensures
        told(res) == controller_source(*item),
{
    let service = match &item.trait_path {
        Some(service) => service,
        None => return error(
            "`#[grpc_controller]` applies to a `impl ServiceTrait for Controller { .. }` trait impl (the Stage-3 generated gRPC server trait), not an inherent impl.".to_string(),
        ),
    };
    let controller = type_ident(item.self_ty.as_str());
    if item.generic {
        return error(
            "`".to_string().concat(controller.as_str()).concat(
                "` is a generic `#[grpc_controller]` impl: a generic controller has no single concrete type to mint its per-method `GrpcRoute` beans. Make the controller concrete.",
            ),
        );
    }
    match route_rows(item.self_ty.as_str(), service, controller.as_str(), &item.methods) {
        Ok(rows) => {
            let guard = Slots::new().with("self_ty", item.self_ty.as_str()).fill(KIND_GUARD);
            Ok(rows.concat(guard.as_str()))
        },
        Err(e) => Err(e),
    }
}

/// The mark of a controller.
pub open spec fn kind_source(item: StructItem) -> Seq<char> {
    "#[automatically_derived] #[doc(hidden)] impl "@ + item.impl_generics@
        + " ::leaf_grpc::GrpcControllerKind for "@ + item.ident@ + " "@ + item.type_generics@ + " "@
        + item.where_clause@ + " { const IS_GRPC_CONTROLLER: bool = true; }"@
}

/// Prints the mark of a controller.
pub fn emit_grpc_controller_kind(item: &StructItem) -> (res: String)
    ensures
        res@ == kind_source(*item),
{
    "#[automatically_derived] #[doc(hidden)] impl ".to_string().concat(
        item.impl_generics.as_str(),
    ).concat(" ::leaf_grpc::GrpcControllerKind for ").concat(item.ident.as_str()).concat(
        " ",
    ).concat(item.type_generics.as_str()).concat(" ").concat(item.where_clause.as_str()).concat(
        " { const IS_GRPC_CONTROLLER: bool = true; }",
    )
}

} // verus!
