//! Impl blocks whose methods make beans, or are advice.
use vstd::prelude::*;

use crate::advisor::{
    advice_arguments, advisor_arguments, advisor_source, emit_advisor, parse_advice_args,
    parse_advisor_args, AdviceKind, AdvisorArgs,
};
use crate::annotation::merged;
use crate::args::{error, told, EmitError};
use crate::chars::{raise, raised};
use crate::descriptor::{bean_source, emit, plain_bean, Bean, BeanInput, Dep, Dependency, Scope};
use crate::items::{Attr, ImplItem, MethodItem, Param};
use crate::naming::{is_plain, mangled, mangled_is_kept};
use crate::reading::{pieces_are_gathered_in_order, series};
use crate::stereotype::{
    annotation_of, has_receiver, param_dep, stereotype_meta, typed_dep, Stereotype,
};
use crate::syntax::{
    path_in, path_shape, type_in, type_shape, PathForm, PathShape, TypeForm, TypeShape,
};
use crate::text::{
    chars_of, contains_text, gathered, gathered_step, gathered_stops, str_eq,
};

verus! {

/// The attribute of a method that makes a bean.
pub const BEAN_ATTR: &'static str = "bean";

/// The first attribute whose path ends in `name`.
pub open spec fn attr_named(attrs: Seq<Attr>, name: Seq<char>) -> Option<Attr>
    decreases attrs.len(),
{
    if attrs.len() == 0 {
        None
    } else if attrs[0].last@ == name {
        Some(attrs[0])
    } else {
        attr_named(attrs.drop_first(), name)
    }
}

/// The first attribute whose path ends in `name`.
fn find_attr<'a>(attrs: &'a Vec<Attr>, name: &str) -> (res: Option<&'a Attr>)
    ensures
        match res {
            Some(attr) => attr_named(attrs@, name@) == Some(*attr),
            None => attr_named(attrs@, name@) is None,
        },
{
    let mut i: usize = 0;
    assert(attrs@.skip(0) =~= attrs@);
    while i < attrs.len()
        invariant
            i <= attrs.len(),
            attr_named(attrs@, name@) == attr_named(attrs@.skip(i as int), name@),
        decreases attrs.len() - i,
    {
        assert(attrs@.skip(i as int)[0] == attrs@[i as int]);
        if str_eq(attrs[i].last.as_str(), name) {
            return Some(&attrs[i]);
        }
        assert(attrs@.skip(i as int).drop_first() =~= attrs@.skip(i + 1));
        i += 1;
    }
    None
}

/// The attribute that is found is the first one of its name; none is found where there is none.
pub proof fn first_attribute_is_found(attrs: Seq<Attr>, name: Seq<char>)
    ensures
        match attr_named(attrs, name) {
            Some(attr) => exists|i: int|
                {
                    &&& 0 <= i < attrs.len()
                    &&& #[trigger] attrs[i] == attr
                    &&& attr.last@ == name
                    &&& forall|k: int| 0 <= k < i ==> (#[trigger] attrs[k]).last@ != name
                },
            None => forall|k: int| 0 <= k < attrs.len() ==> (#[trigger] attrs[k]).last@ != name,
        },
    decreases attrs.len(),
{
    if attrs.len() > 0 && attrs[0].last@ != name {
        let rest = attrs.drop_first();
        first_attribute_is_found(rest, name);
        match attr_named(rest, name) {
            Some(attr) => {
                let i = choose|i: int|
                    {
                        &&& 0 <= i < rest.len()
                        &&& #[trigger] rest[i] == attr
                        &&& attr.last@ == name
                        &&& forall|k: int| 0 <= k < i ==> (#[trigger] rest[k]).last@ != name
                    };
                assert(attrs[i + 1] == attr);
                assert forall|k: int| 0 <= k < i + 1 implies (#[trigger] attrs[k]).last@ != name by {
                    if k > 0 {
                        assert(rest[k - 1] == attrs[k]);
                    }
                }
            },
            None => {
                assert forall|k: int| 0 <= k < attrs.len() implies (#[trigger] attrs[k]).last@
                    != name by {
                    if k > 0 {
                        assert(rest[k - 1] == attrs[k]);
                    }
                }
            },
        }
    }
}

/// The identifier of a type, or `Self` for a type that has none.
pub open spec fn type_name_of(form: Result<TypeForm, Seq<char>>) -> Seq<char> {
    match form {
        Ok(TypeForm::Path { last, .. }) => last,
        _ => "Self"@,
    }
}

/// The identifier of a type of the given form, or `Self` for one that has none.
pub fn type_ident_of(shape: &Result<TypeShape, String>) -> (res: String)
    ensures
        res@ == type_name_of(crate::syntax::outcome(*shape)),
{
    match shape {
        Ok(TypeShape::Path { last, .. }) => last.clone(),
        _ => "Self".to_string(),
    }
}

/// The identifier of a type, or `Self` for a type that has none.
pub fn type_ident(ty: &str) -> (res: String)
    ensures
        res@ == type_name_of(type_in(ty@)),
{
    type_ident_of(&type_shape(ty))
}

/// The type of an impl block that is for no trait.
pub open spec fn inherent_type(item: ImplItem) -> Result<Seq<char>, Seq<char>> {
    match item.trait_path {
        Some(_) => Err(
            "`#[configuration]`/`#[aspect]` apply to an inherent `impl Type { .. }` block (the bean/advice carrier), not a trait impl."@,
        ),
        None => Ok(item.self_ty@),
    }
}

/// The type of an impl block that is for no trait.
fn self_ty_of(item: &ImplItem) -> (res: Result<String, EmitError>)
    ensures
        told(res) == inherent_type(*item),
{
    match &item.trait_path {
        Some(_) => error(
            "`#[configuration]`/`#[aspect]` apply to an inherent `impl Type { .. }` block (the bean/advice carrier), not a trait impl.".to_string(),
        ),
        None => Ok(item.self_ty.clone()),
    }
}

/// `s` with each letter behind a `_` in upper case and without the `_`; the first letter
/// is in upper case too where `upper`.
pub open spec fn camel(s: Seq<char>, upper: bool) -> Seq<char>
    decreases s.len(),
{
    if s.len() == 0 {
        Seq::empty()
    } else if s[0] == '_' {
        camel(s.drop_first(), true)
    } else if upper {
        raised(s[0]) + camel(s.drop_first(), false)
    } else {
        seq![s[0]] + camel(s.drop_first(), false)
    }
}

/// The name of a type, made from the name of a method.
fn upper_camel(ident: &str) -> (res: String)
    ensures
        res@ == camel(ident@, true),
{
    let chars = chars_of(ident);
    let mut out = String::new();
    let mut upper = true;
    let mut i: usize = 0;
    assert(chars@.skip(0) =~= ident@);
    assert(out@ + camel(ident@, true) =~= camel(ident@, true));
    while i < chars.len()
        invariant
            chars@ == ident@,
            i <= chars.len(),
            camel(ident@, true) == out@ + camel(ident@.skip(i as int), upper),
        decreases chars.len() - i,
    {
        let c = chars[i];
        let ghost rest = ident@.skip(i as int);
        let ghost before = out@;
        assert(rest[0] == c);
        assert(rest.drop_first() =~= ident@.skip(i + 1));
        if c == '_' {
            upper = true;
        } else if upper {
            let letter = raise(c);
            out.append(letter.as_str());
            upper = false;
            assert(before + (raised(c) + camel(rest.drop_first(), false)) =~= out@ + camel(
                rest.drop_first(),
                false,
            ));
        } else {
            out.push(c);
            assert(before + (seq![c] + camel(rest.drop_first(), false)) =~= out@ + camel(
                rest.drop_first(),
                false,
            ));
        }
        i += 1;
    }
    assert(camel(ident@.skip(i as int), upper) =~= Seq::<char>::empty());
    assert(out@ + Seq::<char>::empty() =~= out@);
    out
}

/// A name is set in camel case word by word: an `_` is left out and raises what follows it.
pub proof fn camel_case_drops_the_signs(c: char, rest: Seq<char>, upper: bool)
    ensures
        camel(seq!['_'] + rest, upper) == camel(rest, true),
        c != '_' ==> camel(seq![c] + rest, true) == raised(c) + camel(rest, false),
        c != '_' ==> camel(seq![c] + rest, false) == seq![c] + camel(rest, false),
        camel(Seq::empty(), upper) == Seq::<char>::empty(),
{
    assert((seq!['_'] + rest).drop_first() =~= rest);
    assert((seq![c] + rest).drop_first() =~= rest);
}

/// The first of `calls` that is among `siblings`.
pub open spec fn first_sibling(calls: Seq<Seq<char>>, siblings: Seq<Seq<char>>) -> Option<Seq<char>>
    decreases calls.len(),
{
    if calls.len() == 0 {
        None
    } else if siblings.contains(calls[0]) {
        Some(calls[0])
    } else {
        first_sibling(calls.drop_first(), siblings)
    }
}

/// The first of `calls` that is among `siblings`.
fn find_sibling(calls: &Vec<String>, siblings: &Vec<String>) -> (res: Option<String>)
    ensures
        res.deep_view() == first_sibling(calls.deep_view(), siblings.deep_view()),
{
    let ghost all = calls.deep_view();
    let mut i: usize = 0;
    assert(all.skip(0) =~= all);
    while i < calls.len()
        invariant
            all == calls.deep_view(),
            i <= calls.len(),
            first_sibling(all, siblings.deep_view()) == first_sibling(
                all.skip(i as int),
                siblings.deep_view(),
            ),
        decreases calls.len() - i,
    {
        assert(all.skip(i as int)[0] == calls@[i as int]@);
        if contains_text(siblings.as_slice(), calls[i].as_str()) {
            return Some(calls[i].clone());
        }
        assert(all.skip(i as int).drop_first() =~= all.skip(i + 1));
        i += 1;
    }
    None
}

/// The message for a method that makes a bean and calls another one that does.
pub open spec fn self_call_message(method: Seq<char>, other: Seq<char>) -> Seq<char> {
    "`"@ + method + "` makes an intra-config `#[bean]`→`#[bean]` self-call to `self."@ + other
        + "()`: under leaf's lite-only `#[configuration]` model this returns a SECOND unmanaged instance (not the managed singleton). Take `"@
        + other + ": Ref<"@ + camel(other, true)
        + ">` as a parameter instead, so the container injects the managed bean."@
}

/// The parameters of a method other than `self`, with their positions.
pub open spec fn typed_deps(params: Seq<Param>) -> Seq<Dep>
    decreases params.len(),
{
    if params.len() == 0 {
        Seq::empty()
    } else {
        let before = typed_deps(params.drop_last());
        if params.last() is Receiver {
            before
        } else {
            before.push(param_dep(params.last(), (params.len() - 1) as nat))
        }
    }
}

/// The dependencies that the parameters of a method are, or the message for a method that
/// has no `self` among them.
pub open spec fn method_deps_of(method: MethodItem) -> Result<Seq<Dep>, Seq<char>> {
    if has_receiver(method.params@) {
        Ok(typed_deps(method.params@))
    } else {
        Err(
            "`"@ + method.ident@
                + "` is a `#[configuration]` `#[bean]` method but takes no `self` receiver: a config-class @bean method threads the config instance through `&self`. Use a free `fn` `#[bean]` factory for a standalone factory."@,
        )
    }
}

/// The dependencies that the parameters of a method are.
fn method_deps(method: &MethodItem) -> (res: Result<Vec<Dependency>, EmitError>)
    ensures
        match res {
            Ok(deps) => method_deps_of(*method) == Ok::<Seq<Dep>, Seq<char>>(deps.deep_view()),
            Err(e) => method_deps_of(*method) == Err::<Seq<Dep>, Seq<char>>(e.message@),
        },
{
    let ghost all = method.params@;
    let mut deps: Vec<Dependency> = Vec::new();
    let mut saw_receiver = false;
    let mut i: usize = 0;
    assert(deps.deep_view() =~= typed_deps(all.take(0)));
    while i < method.params.len()
        invariant
            all == method.params@,
            i <= method.params.len(),
            saw_receiver == exists|k: int| 0 <= k < i && (#[trigger] all[k]) is Receiver,
            deps.deep_view() == typed_deps(all.take(i as int)),
        decreases method.params.len() - i,
    {
        proof {
            let next = all.take(i + 1);
            assert(next.drop_last() =~= all.take(i as int));
            assert(next.last() == all[i as int]);
        }
        match &method.params[i] {
            Param::Receiver => {
                saw_receiver = true;
                assert(all[i as int] is Receiver);
            },
            Param::Typed { name, ty } => {
                let ghost before = deps.deep_view();
                deps.push(typed_dep(name, ty, i));
                assert(deps.deep_view() =~= before.push(param_dep(all[i as int], i as nat)));
            },
        }
        i += 1;
    }
    assert(all.take(i as int) =~= all);
    if !saw_receiver {
        return error(
            "`".to_string().concat(method.ident.as_str()).concat(
                "` is a `#[configuration]` `#[bean]` method but takes no `self` receiver: a config-class @bean method threads the config instance through `&self`. Use a free `fn` `#[bean]` factory for a standalone factory.",
            ),
        );
    }
    Ok(deps)
}

/// The first call of another bean method is found, where there is one.
pub proof fn self_call_is_found(calls: Seq<Seq<char>>, siblings: Seq<Seq<char>>)
    ensures
        match first_sibling(calls, siblings) {
            Some(other) => calls.contains(other) && siblings.contains(other),
            None => forall|i: int|
                0 <= i < calls.len() ==> !siblings.contains(#[trigger] calls[i]),
        },
    decreases calls.len(),
{
    if calls.len() > 0 {
        let rest = calls.drop_first();
        self_call_is_found(rest, siblings);
        if siblings.contains(calls[0]) {
            assert(calls.contains(calls[0]));
        } else {
            match first_sibling(rest, siblings) {
                Some(other) => {
                    let i = choose|i: int| 0 <= i < rest.len() && rest[i] == other;
                    assert(calls[i + 1] == other);
                },
                None => {
                    assert forall|i: int| 0 <= i < calls.len() implies !siblings.contains(
                        #[trigger] calls[i],
                    ) by {
                        if i > 0 {
                            assert(rest[i - 1] == calls[i]);
                        }
                    }
                },
            }
        }
    }
}

/// The parameters behind a receiver are taken in their order, each under its own place.
pub proof fn parameters_behind_the_receiver(params: Seq<Param>)
    requires
        params.len() > 0,
        params[0] is Receiver,
        forall|i: int| 1 <= i < params.len() ==> !((#[trigger] params[i]) is Receiver),
    ensures
        typed_deps(params).len() == params.len() - 1,
        forall|i: int|
            1 <= i < params.len() ==> #[trigger] typed_deps(params)[i - 1] == param_dep(
                params[i],
                i as nat,
            ),
    decreases params.len(),
{
    reveal_with_fuel(typed_deps, 2);
    if params.len() == 1 {
        assert(params.drop_last() =~= Seq::<Param>::empty());
    } else {
        let front = params.drop_last();
        parameters_behind_the_receiver(front);
        assert(!(params[params.len() - 1] is Receiver));
        assert forall|i: int| 1 <= i < params.len() implies #[trigger] typed_deps(params)[i - 1]
            == param_dep(params[i], i as nat) by {
            if i < front.len() {
                assert(typed_deps(front)[i - 1] == param_dep(front[i], i as nat));
            }
        }
    }
}

/// The bean that a method of `self_ty` makes, among methods `siblings` that do, where its name
/// is read as the given path.
pub open spec fn method_bean_of(
    self_ty: Seq<char>,
    method: MethodItem,
    siblings: Seq<Seq<char>>,
    path: Result<PathForm, Seq<char>>,
) -> Result<Bean, Seq<char>> {
    let ident = method.ident@;
    if method.generic {
        Err(
            "`"@ + ident
                + "` is a generic `#[bean]` method: a generic factory has no single concrete product type. Register a concrete instantiation with `register_component!(Concrete)`."@,
        )
    } else {
        match method.output {
            None => Err(
                "`"@ + ident
                    + "` is a `#[bean]` method but has no return type: a @bean factory must produce the bean it registers."@,
            ),
            Some(output) => match method_deps_of(method) {
                Err(message) => Err(message),
                Ok(deps) => match first_sibling(method.self_calls.deep_view(), siblings) {
                    Some(other) => Err(self_call_message(ident, other)),
                    None => match path {
                        Err(message) => Err(
                            "`"@ + ident + "` is not a callable method ident: "@ + message,
                        ),
                        Ok(_) => Ok(
                            Bean {
                                module_qualified: true,
                                scope: Scope::Singleton,
                                meta: merged(annotation_of(Stereotype::Component)),
                                deps,
                                ctor: Some(ident),
                                receiver_ty: Some(self_ty),
                                ..plain_bean(output@, ident, ident)
                            },
                        ),
                    },
                },
            },
        }
    }
}

/// A bean method makes a bean of its result, on the configuration it stands in, from its
/// parameters; one that is generic, returns nothing, has no receiver or calls another bean method
/// on itself is refused.
pub proof fn bean_method_makes_its_result(
    self_ty: Seq<char>,
    method: MethodItem,
    siblings: Seq<Seq<char>>,
    path: PathForm,
)
    ensures
        method.generic || method.output is None || !has_receiver(method.params@) || first_sibling(
            method.self_calls.deep_view(),
            siblings,
        ) is Some ==> method_bean_of(self_ty, method, siblings, Ok(path)) is Err,
        !method.generic && method.output is Some && has_receiver(method.params@) && first_sibling(
            method.self_calls.deep_view(),
            siblings,
        ) is None ==> (method_bean_of(self_ty, method, siblings, Ok(path)) matches Ok(b) && {
            &&& b.self_ty == method.output->0@
            &&& b.ident == method.ident@
            &&& b.ctor == Some(method.ident@)
            &&& b.receiver_ty == Some(self_ty)
            &&& b.module_qualified
            &&& b.scope == Scope::Singleton
            &&& b.deps == typed_deps(method.params@)
            &&& !b.inject_via_trait
            &&& !b.is_generic
        }),
{
}

/// The bean that a method of `self_ty` makes, among methods `siblings` that do.
pub open spec fn method_bean(
    self_ty: Seq<char>,
    method: MethodItem,
    siblings: Seq<Seq<char>>,
) -> Result<Bean, Seq<char>> {
    method_bean_of(self_ty, method, siblings, path_in(method.ident@))
}

/// The bean that a method of `self_ty` makes, among methods `siblings` that do, where its name
/// is read as the given path.
pub fn config_method_input_of(
    self_ty: &str,
    method: &MethodItem,
    siblings: &Vec<String>,
    path: &Result<PathShape, String>,
) -> (res: Result<BeanInput, EmitError>)
    ensures
        told(res) == method_bean_of(
            self_ty@,
            *method,
            siblings.deep_view(),
            crate::syntax::outcome(*path),
        ),
{
    let ident = method.ident.as_str();
    if method.generic {
        return error(
            "`".to_string().concat(ident).concat(
                "` is a generic `#[bean]` method: a generic factory has no single concrete product type. Register a concrete instantiation with `register_component!(Concrete)`.",
            ),
        );
    }
    let output = match &method.output {
        Some(output) => output.clone(),
        None => return error(
            "`".to_string().concat(ident).concat(
                "` is a `#[bean]` method but has no return type: a @bean factory must produce the bean it registers.",
            ),
        ),
    };
    let deps = match method_deps(method) {
        Ok(deps) => deps,
        Err(e) => return Err(e),
    };
    if let Some(other) = find_sibling(&method.self_calls, siblings) {
        let other_ty = upper_camel(other.as_str());
        return error(
            "`".to_string().concat(ident).concat(
                "` makes an intra-config `#[bean]`→`#[bean]` self-call to `self.",
            ).concat(other.as_str()).concat(
                "()`: under leaf's lite-only `#[configuration]` model this returns a SECOND unmanaged instance (not the managed singleton). Take `",
            ).concat(other.as_str()).concat(": Ref<").concat(other_ty.as_str()).concat(
                ">` as a parameter instead, so the container injects the managed bean.",
            ),
        );
    }
    if let Err(message) = path {
        return error(
            "`".to_string().concat(ident).concat("` is not a callable method ident: ").concat(
                message.as_str(),
            ),
        );
    }
    let mut input = BeanInput::new(output.as_str(), ident, ident);
    input.module_qualified = true;
    input.scope = Scope::Singleton;
    input.meta = stereotype_meta(Stereotype::Component);
    input.deps = deps;
    input.ctor = Some(method.ident.clone());
    input.receiver_ty = Some(self_ty.to_string());
    Ok(input)
}

/// The bean that a method of `self_ty` makes, among methods `siblings` that do.
pub fn config_method_input(self_ty: &str, method: &MethodItem, siblings: &Vec<String>) -> (res:
    Result<BeanInput, EmitError>)
    ensures
        told(res) == method_bean(self_ty@, *method, siblings.deep_view()),
{
    config_method_input_of(self_ty, method, siblings, &path_shape(method.ident.as_str()))
}

/// A method has the attribute of those that make beans.
pub open spec fn makes_bean(method: MethodItem) -> bool {
    attr_named(method.attrs@, BEAN_ATTR@) is Some
}

/// The names of the methods that make beans, in order.
pub open spec fn bean_names(methods: Seq<MethodItem>) -> Seq<Seq<char>>
    decreases methods.len(),
{
    if methods.len() == 0 {
        Seq::empty()
    } else {
        let before = bean_names(methods.drop_last());
        if makes_bean(methods.last()) {
            before.push(methods.last().ident@)
        } else {
            before
        }
    }
}

/// The names of the methods that make beans, in order.
fn bean_method_names(methods: &Vec<MethodItem>) -> (res: Vec<String>)
    ensures
        res.deep_view() == bean_names(methods@),
{
    let mut names: Vec<String> = Vec::new();
    let mut i: usize = 0;
    assert(names.deep_view() =~= bean_names(methods@.take(0)));
    while i < methods.len()
        invariant
            i <= methods.len(),
            names.deep_view() == bean_names(methods@.take(i as int)),
        decreases methods.len() - i,
    {
        proof {
            let next = methods@.take(i + 1);
            assert(next.drop_last() =~= methods@.take(i as int));
            assert(next.last() == methods@[i as int]);
        }
        if find_attr(&methods[i].attrs, BEAN_ATTR).is_some() {
            let ghost before = names.deep_view();
            names.push(methods[i].ident.clone());
            assert(names.deep_view() =~= before.push(methods@[i as int].ident@));
        }
        i += 1;
    }
    assert(methods@.take(i as int) =~= methods@);
    names
}

/// The bean methods are those with the attribute of one.
pub proof fn bean_methods_are_marked(methods: Seq<MethodItem>, name: Seq<char>)
    ensures
        bean_names(methods).contains(name) <==> exists|i: int|
            0 <= i < methods.len() && makes_bean(#[trigger] methods[i]) && methods[i].ident@ == name,
    decreases methods.len(),
{
    if methods.len() > 0 {
        let front = methods.drop_last();
        bean_methods_are_marked(front, name);
        let before = bean_names(front);
        let all = bean_names(methods);
        let last = methods[methods.len() - 1];
        if before.contains(name) {
            let i = choose|i: int|
                0 <= i < front.len() && makes_bean(#[trigger] front[i]) && front[i].ident@ == name;
            assert(makes_bean(methods[i]));
            let k = choose|k: int| 0 <= k < before.len() && before[k] == name;
            assert(all[k] == name);
        }
        if makes_bean(last) && last.ident@ == name {
            assert(all[all.len() - 1] == name);
        }
        if all.contains(name) && !before.contains(name) {
            let k = choose|k: int| 0 <= k < all.len() && all[k] == name;
            if k < before.len() {
                assert(before[k] == name);
            }
            assert(makes_bean(last) && last.ident@ == name);
        }
        if exists|i: int|
            0 <= i < methods.len() && makes_bean(#[trigger] methods[i]) && methods[i].ident@ == name {
            let i = choose|i: int|
                0 <= i < methods.len() && makes_bean(#[trigger] methods[i]) && methods[i].ident@
                    == name;
            if i < front.len() {
                assert(makes_bean(front[i]));
            }
        }
    }
}

/// The registration of the bean that a method makes. A method that makes none has none.
pub open spec fn config_part(
    self_ty: Seq<char>,
    method: MethodItem,
    siblings: Seq<Seq<char>>,
) -> Result<Seq<char>, Seq<char>> {
    if makes_bean(method) {
        match method_bean(self_ty, method, siblings) {
            Ok(bean) => bean_source(bean),
            Err(message) => Err(message),
        }
    } else {
        Ok(Seq::empty())
    }
}

/// The registrations of the beans that methods make.
pub open spec fn config_parts(self_ty: Seq<char>, methods: Seq<MethodItem>) -> Seq<
    Result<Seq<char>, Seq<char>>,
> {
    Seq::new(methods.len(), |i: int| config_part(self_ty, methods[i], bean_names(methods)))
}

/// The registrations of the beans that the methods of a configuration make.
pub open spec fn configuration_source(item: ImplItem) -> Result<Seq<char>, Seq<char>> {
    match inherent_type(item) {
        Err(message) => Err(message),
        Ok(self_ty) => if item.generic {
            Err(
                "`"@ + type_name_of(type_in(self_ty))
                    + "` is a generic `#[configuration]` impl: a generic config has no single concrete type. Make the config concrete (its `#[bean]` methods register concrete products)."@,
            )
        } else {
            gathered(config_parts(self_ty, item.methods@))
        },
    }
}

/// Prints the registration of the bean that a method makes.
fn config_text(self_ty: &str, method: &MethodItem, siblings: &Vec<String>) -> (res: Result<
    String,
    EmitError,
>)
    ensures
        told(res) == config_part(self_ty@, *method, siblings.deep_view()),
{
    if find_attr(&method.attrs, BEAN_ATTR).is_none() {
        let none = String::new();
        assert(none@ =~= Seq::<char>::empty());
        return Ok(none);
    }
    match config_method_input(self_ty, method, siblings) {
        Ok(input) => emit(&input),
        Err(e) => Err(e),
    }
}

/// Prints the registrations of the beans that methods make.
fn config_rows(self_ty: &str, methods: &Vec<MethodItem>) -> (res: Result<String, EmitError>)
    ensures
        told(res) == gathered(config_parts(self_ty@, methods@)),
{
    let siblings = bean_method_names(methods);
    let ghost parts = config_parts(self_ty@, methods@);
    let mut rows = String::new();
    let mut i: usize = 0;
    assert(rows@ =~= Seq::<char>::empty());
    while i < methods.len()
        invariant
            i <= methods.len(),
            parts == config_parts(self_ty@, methods@),
            siblings.deep_view() == bean_names(methods@),
            gathered(parts.take(i as int)) == Ok::<Seq<char>, Seq<char>>(rows@),
        decreases methods.len() - i,
    {
        proof {
            gathered_step(parts, i as int);
        }
        match config_text(self_ty, &methods[i], &siblings) {
            Ok(row) => rows.append(row.as_str()),
            Err(e) => {
                proof {
                    gathered_stops(parts, i + 1);
                }
                return Err(e);
            },
        }
        i += 1;
    }
    assert(parts.take(i as int) =~= parts);
    Ok(rows)
}

/// A configuration registers the bean of each of its bean methods, in their order, and nothing for
/// any other method; a trait impl or a generic one is refused.
pub proof fn configuration_registers_its_beans(item: ImplItem)
    ensures
        item.trait_path is Some || item.generic ==> configuration_source(item) is Err,
        item.trait_path is None && !item.generic ==> (configuration_source(item) matches Ok(s)
            ==> series(
            s,
            Seq::new(
                item.methods@.len(),
                |i: int|
                    if makes_bean(item.methods@[i]) {
                        bean_source(
                            method_bean(
                                item.self_ty@,
                                item.methods@[i],
                                bean_names(item.methods@),
                            )->Ok_0,
                        )->Ok_0
                    } else {
                        Seq::empty()
                    },
            ),
            ""@,
        )),
{
    let parts = config_parts(item.self_ty@, item.methods@);
    pieces_are_gathered_in_order(parts);
    if gathered(parts) is Ok {
        let texts = Seq::new(parts.len(), |i: int| parts[i]->Ok_0);
        let rows = Seq::new(
            item.methods@.len(),
            |i: int|
                if makes_bean(item.methods@[i]) {
                    bean_source(
                        method_bean(
                            item.self_ty@,
                            item.methods@[i],
                            bean_names(item.methods@),
                        )->Ok_0,
                    )->Ok_0
                } else {
                    Seq::empty()
                },
        );
        assert forall|i: int| 0 <= i < parts.len() implies texts[i] == rows[i] by {
            assert(parts[i] is Ok);
        }
        assert(texts =~= rows);
    }
}

/// Prints the registrations of the beans that the methods of a configuration make.
pub fn emit_configuration_impl(item: &ImplItem) -> (res: Result<String, EmitError>)
    ensures
        told(res) == configuration_source(*item),
{
    let self_ty = match self_ty_of(item) {
        Ok(self_ty) => self_ty,
        Err(e) => return Err(e),
    };
    if item.generic {
        let ident = type_ident(self_ty.as_str());
        return error(
            "`".to_string().concat(ident.as_str()).concat(
                "` is a generic `#[configuration]` impl: a generic config has no single concrete type. Make the config concrete (its `#[bean]` methods register concrete products).",
            ),
        );
    }
    config_rows(self_ty.as_str(), &item.methods)
}

/// A configuration is registered where each of its bean methods makes a bean and its rows.
pub proof fn sound_configuration_is_registered(item: ImplItem)
    requires
        item.trait_path is None,
        !item.generic,
        forall|i: int|
            0 <= i < item.methods@.len() && makes_bean(#[trigger] item.methods@[i]) ==> {
                let bean = method_bean(item.self_ty@, item.methods@[i], bean_names(item.methods@));
                bean is Ok && bean_source(bean->Ok_0) is Ok
            },
    ensures
        configuration_source(item) is Ok,
{
    let parts = config_parts(item.self_ty@, item.methods@);
    pieces_are_gathered_in_order(parts);
    assert forall|i: int| 0 <= i < parts.len() implies #[trigger] parts[i] is Ok by {
        assert(parts[i] == config_part(item.self_ty@, item.methods@[i], bean_names(item.methods@)));
    }
}

/// The source of the arguments of an attribute.
pub open spec fn attr_args(attr: Attr) -> Seq<char> {
    match attr.args {
        Some(args) => args@,
        None => ""@,
    }
}

/// The source of the arguments of an attribute.
fn attr_tokens(attr: &Attr) -> (res: String)
    ensures
        res@ == attr_args(*attr),
{
    match &attr.args {
        Some(args) => args.clone(),
        None => "".to_string(),
    }
}

/// The kind and the order of the advice that a method is, where it is advice or a
/// pointcut.
pub open spec fn method_advice(attrs: Seq<Attr>) -> Result<
    Option<(AdviceKind, Option<i32>)>,
    Seq<char>,
> {
    match attr_named(attrs, "advice"@) {
        Some(attr) => match advice_arguments(attr_args(attr)) {
            Ok(advice) => Ok(Some(advice)),
            Err(message) => Err(message),
        },
        None => match attr_named(attrs, "pointcut"@) {
            Some(attr) => match advisor_arguments(attr_args(attr)) {
                Ok(order) => Ok(Some((AdviceKind::Around, order))),
                Err(message) => Err(message),
            },
            None => Ok(None),
        },
    }
}

/// The kind and the order of the advice that a method is.
fn advice_method_kind(method: &MethodItem) -> (res: Result<
    Option<(AdviceKind, AdvisorArgs)>,
    EmitError,
>)
    ensures
        match res {
            Ok(Some((kind, args))) => method_advice(method.attrs@) == Ok::<
                Option<(AdviceKind, Option<i32>)>,
                Seq<char>,
            >(Some((kind, args@))),
            Ok(None) => method_advice(method.attrs@) == Ok::<
                Option<(AdviceKind, Option<i32>)>,
                Seq<char>,
            >(None),
            Err(e) => method_advice(method.attrs@) == Err::<
                Option<(AdviceKind, Option<i32>)>,
                Seq<char>,
            >(e.message@),
        },
{
    if let Some(attr) = find_attr(&method.attrs, "advice") {
        return match parse_advice_args(attr_tokens(attr).as_str()) {
            Ok((kind, args)) => Ok(Some((kind, args))),
            Err(e) => Err(e),
        };
    }
    if let Some(attr) = find_attr(&method.attrs, "pointcut") {
        return match parse_advisor_args(attr_tokens(attr).as_str()) {
            Ok(args) => Ok(Some((AdviceKind::Around, args))),
            Err(e) => Err(e),
        };
    }
    Ok(None)
}

/// The name that the advice `method` of `aspect` is registered under.
pub open spec fn advice_name(aspect: Seq<char>, method: Seq<char>) -> Seq<char> {
    aspect + "_"@ + method
}

/// No two methods of an aspect give the same name to what is generated for them.
pub proof fn advice_names_differ(aspect: Seq<char>, a: Seq<char>, b: Seq<char>)
    requires
        is_plain(a),
        is_plain(b),
        mangled(advice_name(aspect, a)) == mangled(advice_name(aspect, b)),
    ensures
        a == b,
{
    let front = aspect + "_"@;
    mangled_is_kept(a);
    mangled_is_kept(b);
    assert(mangled(advice_name(aspect, a)).skip(front.len() as int) =~= mangled(a));
    assert(mangled(advice_name(aspect, b)).skip(front.len() as int) =~= mangled(b));
}

/// The registration of the advice that a method of an aspect is. A method that is no
/// advice has none.
pub open spec fn aspect_part(aspect: Seq<char>, method: MethodItem, is_generic: bool) -> Result<
    Seq<char>,
    Seq<char>,
> {
    match method_advice(method.attrs@) {
        Err(message) => Err(message),
        Ok(None) => Ok(Seq::empty()),
        Ok(Some((_, order))) => advisor_source(
            advice_name(aspect, method.ident@),
            order,
            is_generic,
        ),
    }
}

/// A method is advice where an attribute says so: `advice` with its kind and order goes before
/// `pointcut`, which goes round the call; without either a method is none, and registers nothing.
pub proof fn advice_is_what_the_attribute_says(aspect: Seq<char>, method: MethodItem)
    ensures
        ({
            let attrs = method.attrs@;
            let advice = attr_named(attrs, "advice"@);
            let pointcut = attr_named(attrs, "pointcut"@);
            &&& advice is Some ==> method_advice(attrs) == match advice_arguments(
                attr_args(advice->0),
            ) {
                Ok(given) => Ok::<Option<(AdviceKind, Option<i32>)>, Seq<char>>(Some(given)),
                Err(message) => Err(message),
            }
            &&& advice is None && pointcut is Some ==> method_advice(attrs)
                == match advisor_arguments(attr_args(pointcut->0)) {
                Ok(order) => Ok::<Option<(AdviceKind, Option<i32>)>, Seq<char>>(
                    Some((AdviceKind::Around, order)),
                ),
                Err(message) => Err(message),
            }
            &&& advice is None && pointcut is None ==> aspect_part(aspect, method, false) == Ok::<
                Seq<char>,
                Seq<char>,
            >(Seq::empty())
            &&& method_advice(attrs) matches Ok(Some((kind, order))) ==> aspect_part(
                aspect,
                method,
                false,
            ) == advisor_source(aspect + "_"@ + method.ident@, order, false)
        }),
{
}

/// The registrations of the advice that the methods of an aspect are.
pub open spec fn aspect_parts(
    aspect: Seq<char>,
    methods: Seq<MethodItem>,
    is_generic: bool,
) -> Seq<Result<Seq<char>, Seq<char>>> {
    Seq::new(methods.len(), |i: int| aspect_part(aspect, methods[i], is_generic))
}

/// The registrations of the advice that the methods of an aspect are. A generic aspect has
/// none, whether any of its methods is advice or not.
pub open spec fn aspect_source(item: ImplItem) -> Result<Seq<char>, Seq<char>> {
    match inherent_type(item) {
        Err(message) => Err(message),
        Ok(self_ty) => {
            let aspect = type_name_of(type_in(self_ty));
            match gathered(aspect_parts(aspect, item.methods@, item.generic)) {
                Ok(_) if item.generic => advisor_source(aspect, None, true),
                rows => rows,
            }
        },
    }
}

/// An aspect has the rows of its methods, in their order; one that is generic is refused as its own
/// type is, and so is one of a trait.
pub proof fn aspect_has_the_rows_of_its_methods(item: ImplItem)
    ensures
        item.trait_path is Some ==> aspect_source(item) is Err,
        item.trait_path is None && !item.generic ==> {
            let aspect = type_name_of(type_in(item.self_ty@));
            let rows = Seq::new(
                item.methods@.len(),
                |i: int| aspect_part(aspect, item.methods@[i], false),
            );
            &&& (aspect_source(item) is Ok <==> forall|i: int|
                0 <= i < rows.len() ==> #[trigger] rows[i] is Ok)
            &&& aspect_source(item) matches Ok(s) ==> series(
                s,
                Seq::new(rows.len(), |i: int| rows[i]->Ok_0),
                ""@,
            )
        },
{
    let aspect = type_name_of(type_in(item.self_ty@));
    let rows = Seq::new(item.methods@.len(), |i: int| aspect_part(aspect, item.methods@[i], false));
    assert(aspect_parts(aspect, item.methods@, false) =~= rows);
    pieces_are_gathered_in_order(rows);
}

/// Prints the registration of the advice that a method of an aspect is.
fn aspect_text(aspect: &str, method: &MethodItem, is_generic: bool) -> (res: Result<
    String,
    EmitError,
>)
    ensures
        told(res) == aspect_part(aspect@, *method, is_generic),
{
    match advice_method_kind(method) {
        Err(e) => Err(e),
        Ok(None) => {
            let none = String::new();
            assert(none@ =~= Seq::<char>::empty());
            Ok(none)
        },
        Ok(Some((kind, args))) => {
            let ident = aspect.to_string().concat("_").concat(method.ident.as_str());
            emit_advisor(ident.as_str(), kind, &args, is_generic)
        },
    }
}

/// Prints the registrations of the advice that the methods of an aspect are.
pub fn emit_aspect_impl(item: &ImplItem) -> (res: Result<String, EmitError>)
    ensures
        told(res) == aspect_source(*item),
{
    let self_ty = match self_ty_of(item) {
        Ok(self_ty) => self_ty,
        Err(e) => return Err(e),
    };
    let aspect = type_ident(self_ty.as_str());
    let ghost parts = aspect_parts(aspect@, item.methods@, item.generic);
    let mut rows = String::new();
    let mut i: usize = 0;
    assert(rows@ =~= Seq::<char>::empty());
    while i < item.methods.len()
        invariant
            i <= item.methods.len(),
            inherent_type(*item) == Ok::<Seq<char>, Seq<char>>(self_ty@),
            aspect@ == type_name_of(type_in(self_ty@)),
            parts == aspect_parts(aspect@, item.methods@, item.generic),
            gathered(parts.take(i as int)) == Ok::<Seq<char>, Seq<char>>(rows@),
        decreases item.methods.len() - i,
    {
        proof {
            gathered_step(parts, i as int);
        }
        match aspect_text(aspect.as_str(), &item.methods[i], item.generic) {
            Ok(row) => rows.append(row.as_str()),
            Err(e) => {
                proof {
                    gathered_stops(parts, i + 1);
                }
                return Err(e);
            },
        }
        i += 1;
    }
    assert(parts.take(i as int) =~= parts);
    if item.generic {
        return emit_advisor(
            aspect.as_str(),
            AdviceKind::Around,
            &AdvisorArgs { order: None },
            true,
        );
    }
    Ok(rows)
}

} // verus!
