//! Stereotypes: components of different kinds, concrete types that are registered, and
//! functions that make beans.
use vstd::prelude::*;

use crate::annotation::{
    alias_free, closure, first_depth, levels, markers, merged, next_level, resolve, resolved,
    resolving_without_aliases, visits, Ann, Annotation, Merged, MergedAnnotation,
};
use crate::args::{error, told, EmitError};
use crate::descriptor::{
    bean_source, emit, plain_bean, produced, produced_ty, Bean, BeanInput, Dep, Dependency, Role,
    Scope,
};
use crate::items::{Fields, FnItem, Param, StructItem};
use crate::metas::{
    items_in, key_or_empty, key_text, parse_metas, settle_metas, settled_metas, Given, Item,
    MetaArg, MetaSettings, MetaValue,
};
use crate::syntax::{
    path_in, path_shape, type_in, type_shape, PathForm, PathShape, TypeForm, TypeShape,
};
use crate::text::{decimal, decimal_text, str_eq};

verus! {

/// What the attribute of a component says.
#[derive(Clone, Debug, PartialEq, Eq)]
pub struct StereotypeArgs {
    /// The name, where one is given.
    pub name: Option<String>,
    /// How long an instance lives.
    pub scope: Scope,
    /// Whose bean it is, where that is given.
    pub role: Option<Role>,
}

impl Default for StereotypeArgs {
    fn default() -> (res: StereotypeArgs)
        ensures
            res@ == (None::<Seq<char>>, Scope::Singleton, None::<Role>),
    {
        StereotypeArgs { name: None, scope: Scope::Singleton, role: None }
    }
}

impl View for StereotypeArgs {
    type V = (Option<Seq<char>>, Scope, Option<Role>);

    /// The name, the scope and the role.
    open spec fn view(&self) -> (Option<Seq<char>>, Scope, Option<Role>) {
        (self.name.deep_view(), self.scope, self.role)
    }
}

/// The scope that a name stands for, or the message for a name that stands for none.
pub open spec fn scope_named(value: Seq<char>) -> Result<Scope, Seq<char>> {
    if value == "singleton"@ {
        Ok(Scope::Singleton)
    } else if value == "prototype"@ {
        Ok(Scope::Prototype)
    } else if value == "request"@ {
        Ok(Scope::Request)
    } else {
        Err(
            "unknown scope `"@ + value + "` (expected `singleton`/`prototype`/`request`)"@,
        )
    }
}

/// The role that a name stands for, or the message for a name that stands for none.
pub open spec fn role_named(value: Seq<char>) -> Result<Role, Seq<char>> {
    if value == "application"@ {
        Ok(Role::Application)
    } else if value == "support"@ {
        Ok(Role::Support)
    } else if value == "infrastructure"@ {
        Ok(Role::Infrastructure)
    } else {
        Err(
            "unknown role `"@ + value + "` (expected `application`/`support`/`infrastructure`)"@,
        )
    }
}

/// The scope that a name stands for.
fn parse_scope(value: &str) -> (res: Result<Scope, EmitError>)
    ensures
        match res {
            Ok(scope) => scope_named(value@) == Ok::<Scope, Seq<char>>(scope),
            Err(e) => scope_named(value@) == Err::<Scope, Seq<char>>(e.message@),
        },
{
    if str_eq(value, "singleton") {
        Ok(Scope::Singleton)
    } else if str_eq(value, "prototype") {
        Ok(Scope::Prototype)
    } else if str_eq(value, "request") {
        Ok(Scope::Request)
    } else {
        error(
            "unknown scope `".to_string().concat(value).concat(
                "` (expected `singleton`/`prototype`/`request`)",
            ),
        )
    }
}

/// The role that a name stands for.
fn parse_role(value: &str) -> (res: Result<Role, EmitError>)
    ensures
        match res {
            Ok(role) => role_named(value@) == Ok::<Role, Seq<char>>(role),
            Err(e) => role_named(value@) == Err::<Role, Seq<char>>(e.message@),
        },
{
    if str_eq(value, "application") {
        Ok(Role::Application)
    } else if str_eq(value, "support") {
        Ok(Role::Support)
    } else if str_eq(value, "infrastructure") {
        Ok(Role::Infrastructure)
    } else {
        error(
            "unknown role `".to_string().concat(value).concat(
                "` (expected `application`/`support`/`infrastructure`)",
            ),
        )
    }
}

/// Each scope and each role has its own name.
pub proof fn scopes_and_roles_have_their_names(value: Seq<char>)
    ensures
        scope_named("singleton"@) == Ok::<Scope, Seq<char>>(Scope::Singleton),
        scope_named("prototype"@) == Ok::<Scope, Seq<char>>(Scope::Prototype),
        scope_named("request"@) == Ok::<Scope, Seq<char>>(Scope::Request),
        value != "singleton"@ && value != "prototype"@ && value != "request"@ ==> scope_named(
            value,
        ) is Err,
        role_named("application"@) == Ok::<Role, Seq<char>>(Role::Application),
        role_named("support"@) == Ok::<Role, Seq<char>>(Role::Support),
        role_named("infrastructure"@) == Ok::<Role, Seq<char>>(Role::Infrastructure),
        value != "application"@ && value != "support"@ && value != "infrastructure"@ ==> role_named(
            value,
        ) is Err,
{
    reveal_strlit("singleton");
    reveal_strlit("prototype");
    reveal_strlit("request");
    assert("singleton"@[0] != "prototype"@[0]);
    assert("singleton"@.len() != "request"@.len());
    assert("prototype"@.len() != "request"@.len());
    reveal_strlit("application");
    reveal_strlit("support");
    reveal_strlit("infrastructure");
    assert("application"@.len() != "support"@.len());
    assert("application"@.len() != "infrastructure"@.len());
    assert("support"@.len() != "infrastructure"@.len());
}

/// What is said after one more item.
pub open spec fn after_stereotype(s: (Option<Seq<char>>, Scope, Option<Role>), item: Item) -> Result<
    (Option<Seq<char>>, Scope, Option<Role>),
    Seq<char>,
> {
    match item {
        Item::NameValue(key, value) => {
            let key = key_text(key);
            match value {
                Given::Str(value) => if key == "name"@ {
                    Ok((Some(value), s.1, s.2))
                } else if key == "scope"@ {
                    match scope_named(value) {
                        Ok(scope) => Ok((s.0, scope, s.2)),
                        Err(message) => Err(message),
                    }
                } else if key == "role"@ {
                    match role_named(value) {
                        Ok(role) => Ok((s.0, s.1, Some(role))),
                        Err(message) => Err(message),
                    }
                } else {
                    Err(
                        "unknown stereotype argument `"@ + key
                            + "` (expected `name`/`scope`/`role`)"@,
                    )
                },
                _ => Err("`"@ + key + "` must be a string literal"@),
            }
        },
        _ => Err("stereotype arguments must be `key = \"value\"` pairs"@),
    }
}

impl MetaSettings for StereotypeArgs {
    open spec fn after(settings: (Option<Seq<char>>, Scope, Option<Role>), item: Item) -> Result<
        (Option<Seq<char>>, Scope, Option<Role>),
        Seq<char>,
    > {
        after_stereotype(settings, item)
    }

    fn apply(self, meta: &MetaArg) -> (res: Result<StereotypeArgs, EmitError>) {
        let (key, value) = match meta {
            MetaArg::NameValue(key, value) => (key_or_empty(key), value),
            _ => return error(
                "stereotype arguments must be `key = \"value\"` pairs".to_string(),
            ),
        };
        let value = match value {
            MetaValue::Str(value) => value.clone(),
            _ => return error(
                "`".to_string().concat(key.as_str()).concat("` must be a string literal"),
            ),
        };
        let mut args = self;
        if str_eq(key.as_str(), "name") {
            args.name = Some(value);
        } else if str_eq(key.as_str(), "scope") {
            match parse_scope(value.as_str()) {
                Ok(scope) => args.scope = scope,
                Err(e) => return Err(e),
            }
        } else if str_eq(key.as_str(), "role") {
            match parse_role(value.as_str()) {
                Ok(role) => args.role = Some(role),
                Err(e) => return Err(e),
            }
        } else {
            return error(
                "unknown stereotype argument `".to_string().concat(key.as_str()).concat(
                    "` (expected `name`/`scope`/`role`)",
                ),
            );
        }
        Ok(args)
    }
}

/// Each key of a component sets what it names and leaves the rest.
pub proof fn stereotype_keys_set_their_own(
    s: (Option<Seq<char>>, Scope, Option<Role>),
    key: Seq<char>,
    value: Seq<char>,
)
    ensures
        ({
            let res = after_stereotype(s, Item::NameValue(Some(key), Given::Str(value)));
            &&& key == "name"@ ==> res == Ok::<
                (Option<Seq<char>>, Scope, Option<Role>),
                Seq<char>,
            >((Some(value), s.1, s.2))
            &&& key == "scope"@ && scope_named(value) is Ok ==> res == Ok::<
                (Option<Seq<char>>, Scope, Option<Role>),
                Seq<char>,
            >((s.0, scope_named(value)->Ok_0, s.2))
            &&& key == "role"@ && role_named(value) is Ok ==> res == Ok::<
                (Option<Seq<char>>, Scope, Option<Role>),
                Seq<char>,
            >((s.0, s.1, Some(role_named(value)->Ok_0)))
            &&& key == "scope"@ && scope_named(value) is Err ==> res is Err
            &&& key == "role"@ && role_named(value) is Err ==> res is Err
            &&& key != "name"@ && key != "scope"@ && key != "role"@ ==> res is Err
        }),
        stereotype_settings(Seq::empty()) == Ok::<
            (Option<Seq<char>>, Scope, Option<Role>),
            Seq<char>,
        >((None, Scope::Singleton, None)),
{
    reveal_strlit("name");
    reveal_strlit("scope");
    reveal_strlit("role");
    assert("name"@.len() != "scope"@.len());
    assert("name"@[0] != "role"@[0]);
    assert("scope"@.len() != "role"@.len());
}

/// What the arguments of a component give.
pub open spec fn stereotype_settings(items: Seq<Item>) -> Result<
    (Option<Seq<char>>, Scope, Option<Role>),
    Seq<char>,
> {
    settled_metas::<StereotypeArgs>((None, Scope::Singleton, None), items)
}

/// What the arguments of a component give.
pub fn stereotype_args_of(metas: &[MetaArg]) -> (res: Result<StereotypeArgs, EmitError>)
    ensures
        told(res) == stereotype_settings(metas.deep_view()),
{
    settle_metas(StereotypeArgs { name: None, scope: Scope::Singleton, role: None }, metas)
}

/// What the source of the arguments of a component gives.
pub open spec fn stereotype_arguments(attr: Seq<char>) -> Result<
    (Option<Seq<char>>, Scope, Option<Role>),
    Seq<char>,
> {
    match items_in(attr) {
        Ok(items) => stereotype_settings(items),
        Err(message) => Err("malformed stereotype attribute arguments: "@ + message),
    }
}

/// Reads the arguments of a component.
pub fn parse_args(attr: &str) -> (res: Result<StereotypeArgs, EmitError>)
    ensures
        told(res) == stereotype_arguments(attr@),
        attr@.len() == 0 ==> told(res) == Ok::<
            (Option<Seq<char>>, Scope, Option<Role>),
            Seq<char>,
        >((None, Scope::Singleton, None)),
{
    match parse_metas(attr) {
        Ok(metas) => stereotype_args_of(metas.as_slice()),
        Err(message) => error(
            "malformed stereotype attribute arguments: ".to_string().concat(message.as_str()),
        ),
    }
}

/// The kinds of components.
#[derive(Clone, Copy, Debug, PartialEq, Eq, Structural)]
pub enum Stereotype {
    /// A component and nothing more.
    Component,
    /// A service.
    Service,
    /// A repository.
    Repository,
    /// A controller.
    Controller,
    /// A configuration.
    Configuration,
}

/// The marker of a kind.
pub open spec fn marker_of(stereotype: Stereotype) -> Seq<char> {
    match stereotype {
        Stereotype::Component => "leaf::Component"@,
        Stereotype::Service => "leaf::Service"@,
        Stereotype::Repository => "leaf::Repository"@,
        Stereotype::Controller => "leaf::Controller"@,
        Stereotype::Configuration => "leaf::Configuration"@,
    }
}

/// An annotation with nothing but its path.
pub open spec fn bare_annotation(path: Seq<char>) -> Ann {
    Ann {
        path,
        attrs: Map::empty(),
        defaults: Map::empty(),
        aliases: Seq::empty(),
        meta: Seq::empty(),
    }
}

/// The annotation of a kind: every kind is composed of the component.
pub open spec fn annotation_of(stereotype: Stereotype) -> Ann {
    match stereotype {
        Stereotype::Component => bare_annotation("leaf::Component"@),
        _ => Ann {
            meta: Seq::empty().push(bare_annotation("leaf::Component"@)),
            ..bare_annotation(marker_of(stereotype))
        },
    }
}

impl Stereotype {
    /// The marker of this kind.
    pub fn marker_path(self) -> (res: &'static str)
        ensures
            res@ == marker_of(self),
    {
        match self {
            Stereotype::Component => "leaf::Component",
            Stereotype::Service => "leaf::Service",
            Stereotype::Repository => "leaf::Repository",
            Stereotype::Controller => "leaf::Controller",
            Stereotype::Configuration => "leaf::Configuration",
        }
    }

    /// Whose bean a component of this kind is.
    pub fn role(self) -> (res: Role)
        ensures
            res == Role::Application,
    {
        Role::Application
    }

    /// The annotation of this kind.
    pub fn annotation(self) -> (res: Annotation)
        ensures
            res@ == annotation_of(self),
    {
        match self {
            Stereotype::Component => Annotation::new("leaf::Component"),
            _ => Annotation::new(self.marker_path()).with_meta(Annotation::new("leaf::Component")),
        }
    }
}

/// The annotation of a kind holds no aliases, so that it can always be resolved.
proof fn annotation_resolves(stereotype: Stereotype)
    ensures
        resolved(annotation_of(stereotype)) == Ok::<Merged, (Seq<char>, Seq<char>)>(
            merged(annotation_of(stereotype)),
        ),
{
    let a = annotation_of(stereotype);
    reveal_with_fuel(alias_free, 2);
    assert(alias_free(bare_annotation("leaf::Component"@)));
    assert forall|i: int| 0 <= i < a.meta.len() implies alias_free(#[trigger] a.meta[i]) by {
        assert(a.meta[i] == bare_annotation("leaf::Component"@));
    }
    resolving_without_aliases(a);
}

/// The markers, the distances and the attributes of a kind.
pub fn stereotype_meta(stereotype: Stereotype) -> (res: MergedAnnotation)
    ensures
        res@ == merged(annotation_of(stereotype)),
{
    proof {
        annotation_resolves(stereotype);
    }
    match resolve(&stereotype.annotation()) {
        Ok(meta) => meta,
        Err(_) => MergedAnnotation::default(),
    }
}

/// Every kind has its own marker first, and is a component.
pub proof fn every_kind_is_a_component(stereotype: Stereotype)
    ensures
        merged(annotation_of(stereotype)).markers == match stereotype {
            Stereotype::Component => seq!["leaf::Component"@],
            _ => seq![marker_of(stereotype), "leaf::Component"@],
        },
{
    let a = annotation_of(stereotype);
    let c = bare_annotation("leaf::Component"@);
    let top = seq![a];
    let none = Seq::<Ann>::empty();
    assert(top.drop_last() =~= none);
    assert(next_level(none) =~= none);
    assert(next_level(top) =~= a.meta);
    assert(levels(none) =~= Seq::<Seq<Ann>>::empty());
    if stereotype == Stereotype::Component {
        assert(a.meta =~= none);
        assert(levels(top) =~= seq![top]);
        assert(seq![top].drop_last() =~= Seq::<Seq<Ann>>::empty());
        assert(visits(Seq::<Seq<Ann>>::empty()) =~= Seq::<(nat, Ann)>::empty());
        let met = closure(a);
        assert(met =~= seq![(0nat, a)]);
        assert(met.drop_last() =~= Seq::<(nat, Ann)>::empty());
        assert(markers(met.drop_last()) =~= Seq::<Seq<char>>::empty());
        assert(markers(met) =~= seq!["leaf::Component"@]);
    } else {
        let low = seq![c];
        assert(a.meta =~= low);
        assert(low.drop_last() =~= none);
        assert(next_level(low) =~= c.meta);
        assert(c.meta =~= none);
        assert(levels(low) =~= seq![low]);
        assert(levels(top) =~= seq![top, low]);
        let all = seq![top, low];
        assert(all.drop_last() =~= seq![top]);
        assert(seq![top].drop_last() =~= Seq::<Seq<Ann>>::empty());
        assert(visits(Seq::<Seq<Ann>>::empty()) =~= Seq::<(nat, Ann)>::empty());
        assert(visits(seq![top]) =~= seq![(0nat, a)]);
        let met = closure(a);
        assert(met =~= seq![(0nat, a), (1nat, c)]);
        assert(met.drop_last() =~= seq![(0nat, a)]);
        assert(seq![(0nat, a)].drop_last() =~= Seq::<(nat, Ann)>::empty());
        reveal_strlit("leaf::Component");
        reveal_strlit("leaf::Service");
        reveal_strlit("leaf::Repository");
        reveal_strlit("leaf::Controller");
        reveal_strlit("leaf::Configuration");
        assert(a.path.len() != c.path.len());
        assert(first_depth(Seq::<(nat, Ann)>::empty(), a.path) is None);
        assert(first_depth(Seq::<(nat, Ann)>::empty(), c.path) is None);
        assert(first_depth(seq![(0nat, a)], c.path) is None);
        assert(markers(Seq::<(nat, Ann)>::empty()) =~= Seq::<Seq<char>>::empty());
        assert(markers(seq![(0nat, a)]) =~= seq![a.path]);
        assert(markers(met) =~= seq![a.path, c.path]);
    }
}

/// The dependencies that fields are: by their names, or by their positions where they
/// have none.
pub open spec fn field_deps(fields: Fields) -> Seq<Dep> {
    match fields {
        Fields::Named(list) => Seq::new(
            list@.len(),
            |i: int| Dep { name: list@[i].ident@, ty: list@[i].ty@ },
        ),
        Fields::Unnamed(list) => Seq::new(
            list@.len(),
            |i: int| Dep { name: "_"@ + decimal(i as nat), ty: list@[i].ty@ },
        ),
        Fields::Unit => Seq::empty(),
    }
}

/// The dependencies that fields are.
fn fields_to_deps(fields: &Fields) -> (res: Vec<Dependency>)
    ensures
        res.deep_view() == field_deps(*fields),
{
    let mut deps: Vec<Dependency> = Vec::new();
    match fields {
        Fields::Named(list) => {
            let mut i: usize = 0;
            while i < list.len()
                invariant
                    i <= list.len(),
                    deps@.len() == i,
                    forall|k: int|
                        0 <= k < i ==> (#[trigger] deps@[k])@ == (Dep {
                            name: list@[k].ident@,
                            ty: list@[k].ty@,
                        }),
                decreases list.len() - i,
            {
                deps.push(Dependency { name: list[i].ident.clone(), ty: list[i].ty.clone() });
                i += 1;
            }
        },
        Fields::Unnamed(list) => {
            let mut i: usize = 0;
            while i < list.len()
                invariant
                    i <= list.len(),
                    deps@.len() == i,
                    forall|k: int|
                        0 <= k < i ==> (#[trigger] deps@[k])@ == (Dep {
                            name: "_"@ + decimal(k as nat),
                            ty: list@[k].ty@,
                        }),
                decreases list.len() - i,
            {
                let number = decimal_text(i as u64);
                let name = "_".to_string().concat(number.as_str());
                deps.push(Dependency { name, ty: list[i].ty.clone() });
                i += 1;
            }
        },
        Fields::Unit => {},
    }
    assert(deps.deep_view() =~= field_deps(*fields));
    deps
}

/// The component that a struct is, where its name is read as a type of the given form.
pub open spec fn struct_bean_of(
    item: StructItem,
    form: Result<TypeForm, Seq<char>>,
    stereotype: Stereotype,
    name: Option<Seq<char>>,
    role: Option<Role>,
    scope: Scope,
) -> Result<Bean, Seq<char>> {
    match form {
        Ok(_) => Ok(
            Bean {
                module_qualified: true,
                role: match role {
                    Some(role) => role,
                    None => Role::Application,
                },
                scope,
                explicit_name: name,
                meta: merged(annotation_of(stereotype)),
                deps: field_deps(item.fields),
                inject_via_trait: true,
                is_generic: item.generic,
                ..plain_bean(item.ident@, item.ident@, item.ident@)
            },
        ),
        Err(message) => Err("`"@ + item.ident@ + "` is not a valid self type: "@ + message),
    }
}

/// The component that a struct is.
pub open spec fn struct_bean(
    item: StructItem,
    stereotype: Stereotype,
    name: Option<Seq<char>>,
    role: Option<Role>,
    scope: Scope,
) -> Result<Bean, Seq<char>> {
    struct_bean_of(item, type_in(item.ident@), stereotype, name, role, scope)
}

/// The components that a struct is under two kinds differ in their markers and in nothing
/// else.
pub proof fn kinds_differ_in_markers(
    item: StructItem,
    a: Stereotype,
    b: Stereotype,
    name: Option<Seq<char>>,
    role: Option<Role>,
    scope: Scope,
)
    ensures
        match (struct_bean(item, a, name, role, scope), struct_bean(item, b, name, role, scope)) {
            (Ok(one), Ok(other)) => one == (Bean { meta: one.meta, ..other }),
            (Err(one), Err(other)) => one == other,
            _ => false,
        },
{
}

/// The component that a struct is, where its name is read as a type of the given form.
pub fn struct_input_of(
    item: &StructItem,
    shape: &Result<TypeShape, String>,
    stereotype: Stereotype,
    explicit_name: Option<String>,
    explicit_role: Option<Role>,
    scope: Scope,
) -> (res: Result<BeanInput, EmitError>)
    ensures
        told(res) == struct_bean_of(
            *item,
            crate::syntax::outcome(*shape),
            stereotype,
            explicit_name.deep_view(),
            explicit_role,
            scope,
        ),
{
    if let Err(message) = shape {
        return error(
            "`".to_string().concat(item.ident.as_str()).concat(
                "` is not a valid self type: ",
            ).concat(message.as_str()),
        );
    }
    let mut input = BeanInput::new(item.ident.as_str(), item.ident.as_str(), item.ident.as_str());
    input.module_qualified = true;
    input.role = match explicit_role {
        Some(role) => role,
        None => stereotype.role(),
    };
    input.scope = scope;
    input.explicit_name = explicit_name;
    input.meta = stereotype_meta(stereotype);
    input.deps = fields_to_deps(&item.fields);
    input.inject_via_trait = true;
    input.is_generic = item.generic;
    Ok(input)
}

/// The component that a struct is.
pub fn struct_input(
    item: &StructItem,
    stereotype: Stereotype,
    explicit_name: Option<String>,
    explicit_role: Option<Role>,
    scope: Scope,
) -> (res: Result<BeanInput, EmitError>)
    ensures
        told(res) == struct_bean(
            *item,
            stereotype,
            explicit_name.deep_view(),
            explicit_role,
            scope,
        ),
{
    let shape = type_shape(item.ident.as_str());
    struct_input_of(item, &shape, stereotype, explicit_name, explicit_role, scope)
}

/// Each kind of component has its own marker.
pub proof fn markers_are_those_of_the_kinds()
    ensures
        annotation_of(Stereotype::Component).path == "leaf::Component"@,
        annotation_of(Stereotype::Service).path == "leaf::Service"@,
        annotation_of(Stereotype::Repository).path == "leaf::Repository"@,
        annotation_of(Stereotype::Controller).path == "leaf::Controller"@,
        annotation_of(Stereotype::Configuration).path == "leaf::Configuration"@,
{
}

/// A component takes its fields, in their order, under their own names and as their own types, or
/// under their places where they have no names; the rest is what its attribute says.
pub proof fn component_takes_its_fields(
    item: StructItem,
    form: TypeForm,
    stereotype: Stereotype,
    name: Option<Seq<char>>,
    role: Option<Role>,
    scope: Scope,
)
    ensures
        struct_bean_of(item, Ok(form), stereotype, name, role, scope) matches Ok(b) && {
            &&& b.self_ty == item.ident@
            &&& b.ident == item.ident@
            &&& b.module_qualified
            &&& b.explicit_name == name
            &&& b.scope == scope
            &&& b.role == match role {
                Some(role) => role,
                None => Role::Application,
            }
            &&& b.inject_via_trait
            &&& b.is_generic == item.generic
            &&& b.ctor is None
            &&& b.receiver_ty is None
            &&& b.slice == crate::descriptor::Slice::Components
            &&& b.meta == merged(annotation_of(stereotype))
            &&& match item.fields {
                Fields::Named(list) => b.deps.len() == list@.len() && forall|i: int|
                    0 <= i < list@.len() ==> (#[trigger] b.deps[i]).name == list@[i].ident@
                        && b.deps[i].ty == list@[i].ty@,
                Fields::Unnamed(list) => b.deps.len() == list@.len() && forall|i: int|
                    0 <= i < list@.len() ==> (#[trigger] b.deps[i]).name == "_"@ + decimal(i as nat)
                        && b.deps[i].ty == list@[i].ty@,
                Fields::Unit => b.deps.len() == 0,
            }
        },
{
}

/// The source of an item with the rows of its registration behind it.
pub open spec fn item_and_rows(source: Seq<char>, rows: Result<Seq<char>, Seq<char>>) -> Result<
    Seq<char>,
    Seq<char>,
> {
    match rows {
        Ok(rows) => Ok(source + " "@ + rows),
        Err(message) => Err(message),
    }
}

/// Puts the source of an item in front of the rows of its registration.
fn with_item(source: &str, rows: Result<String, EmitError>) -> (res: Result<String, EmitError>)
    ensures
        told(res) == item_and_rows(source@, told(rows)),
{
    match rows {
        Ok(rows) => Ok(source.to_string().concat(" ").concat(rows.as_str())),
        Err(e) => Err(e),
    }
}

/// The struct with the registration of the component that it is under an attribute.
pub open spec fn struct_source(item: StructItem, stereotype: Stereotype, attr: Seq<char>) -> Result<
    Seq<char>,
    Seq<char>,
> {
    match stereotype_arguments(attr) {
        Err(message) => Err(message),
        Ok((name, scope, role)) => match struct_bean(item, stereotype, name, role, scope) {
            Err(message) => Err(message),
            Ok(bean) => item_and_rows(item.source@, bean_source(bean)),
        },
    }
}

/// Prints a struct, with the registration of the component that it is under an attribute.
pub fn emit_struct(item: &StructItem, stereotype: Stereotype, attr: &str) -> (res: Result<
    String,
    EmitError,
>)
    ensures
        told(res) == struct_source(*item, stereotype, attr@),
{
    let args = match parse_args(attr) {
        Ok(args) => args,
        Err(e) => return Err(e),
    };
    match struct_input(item, stereotype, args.name, args.role, args.scope) {
        Ok(input) => with_item(item.source.as_str(), emit(&input)),
        Err(e) => Err(e),
    }
}

/// The identifier that a concrete type is registered under.
pub open spec fn leading(form: Result<TypeForm, Seq<char>>) -> Option<Seq<char>> {
    match form {
        Ok(TypeForm::Path { last, .. }) => Some(last),
        _ => None,
    }
}

/// The identifier that a concrete type is registered under.
fn leading_ident(shape: &Result<TypeShape, String>) -> (res: Option<String>)
    ensures
        res.deep_view() == leading(crate::syntax::outcome(*shape)),
{
    match shape {
        Ok(TypeShape::Path { last, .. }) => Some(last.clone()),
        _ => None,
    }
}

/// The bean that a concrete type of the given form is registered as.
pub open spec fn registered_bean(
    ty: Seq<char>,
    form: Result<TypeForm, Seq<char>>,
    name: Option<Seq<char>>,
    role: Option<Role>,
) -> Result<Bean, Seq<char>> {
    match leading(form) {
        Some(ident) => Ok(
            Bean {
                module_qualified: true,
                meta: merged(annotation_of(Stereotype::Component)),
                explicit_name: name,
                role: match role {
                    Some(role) => role,
                    None => Role::Application,
                },
                ..plain_bean(ty, ident, ident)
            },
        ),
        None => Err("register_component! expects a concrete type with a nameable identifier"@),
    }
}

/// The bean that a concrete type of the given form is registered as.
pub fn register_input_of(
    ty: &str,
    shape: &Result<TypeShape, String>,
    explicit_name: Option<String>,
    explicit_role: Option<Role>,
) -> (res: Result<BeanInput, EmitError>)
    ensures
        told(res) == registered_bean(
            ty@,
            crate::syntax::outcome(*shape),
            explicit_name.deep_view(),
            explicit_role,
        ),
{
    let ident = match leading_ident(shape) {
        Some(ident) => ident,
        None => return error(
            "register_component! expects a concrete type with a nameable identifier".to_string(),
        ),
    };
    let mut input = BeanInput::new(ty, ident.as_str(), ident.as_str());
    input.module_qualified = true;
    input.meta = stereotype_meta(Stereotype::Component);
    input.explicit_name = explicit_name;
    input.role = match explicit_role {
        Some(role) => role,
        None => Role::Application,
    };
    Ok(input)
}

/// The bean that a concrete type is registered as, under a name and in a role.
pub fn register_input_with(ty: &str, explicit_name: Option<String>, explicit_role: Option<Role>) -> (
res: Result<BeanInput, EmitError>)
    ensures
        told(res) == registered_bean(
            ty@,
            type_in(ty@),
            explicit_name.deep_view(),
            explicit_role,
        ),
{
    let shape = type_shape(ty);
    register_input_of(ty, &shape, explicit_name, explicit_role)
}

/// The bean that a concrete type is registered as.
pub fn register_input(ty: &str) -> (res: Result<BeanInput, EmitError>)
    ensures
        told(res) == registered_bean(ty@, type_in(ty@), None, None),
{
    register_input_with(ty, None, None)
}

/// A type that is registered is a component of that type, under its own name or the given one.
pub proof fn registered_type_is_a_component(
    ty: Seq<char>,
    last: Seq<char>,
    args: Seq<Option<Seq<char>>>,
    name: Option<Seq<char>>,
    role: Option<Role>,
)
    ensures
        registered_bean(ty, Ok(TypeForm::Path { last, args }), name, role) matches Ok(b) && b.self_ty
            == ty && b.ident == last && b.module_qualified && b.explicit_name == name && b.role
            == match role {
            Some(role) => role,
            None => Role::Application,
        } && b.deps.len() == 0 && b.meta == merged(annotation_of(Stereotype::Component)),
        registered_bean(ty, Ok(TypeForm::Other), name, role) is Err,
        registered_bean(ty, Err(ty), name, role) is Err,
{
}

/// A struct stays as it is, with the rows of its bean behind it; where its arguments, its bean or its
/// rows are refused there is nothing.
pub proof fn component_is_printed_from_its_attribute(
    item: StructItem,
    stereotype: Stereotype,
    attr: Seq<char>,
    name: Option<Seq<char>>,
    scope: Scope,
    role: Option<Role>,
    bean: Bean,
    rows: Seq<char>,
)
    requires
        stereotype_arguments(attr) == Ok::<(Option<Seq<char>>, Scope, Option<Role>), Seq<char>>(
            (name, scope, role),
        ),
    ensures
        struct_bean(item, stereotype, name, role, scope) == Ok::<Bean, Seq<char>>(bean)
            && bean_source(bean) == Ok::<Seq<char>, Seq<char>>(rows) ==> struct_source(
            item,
            stereotype,
            attr,
        ) == Ok::<Seq<char>, Seq<char>>(item.source@ + " "@ + rows),
        struct_bean(item, stereotype, name, role, scope) is Err ==> struct_source(
            item,
            stereotype,
            attr,
        ) is Err,
        struct_bean(item, stereotype, name, role, scope) == Ok::<Bean, Seq<char>>(bean)
            && bean_source(bean) is Err ==> struct_source(item, stereotype, attr) is Err,
{
}

/// The registration of a concrete type.
pub open spec fn registered_source(
    ty: Seq<char>,
    name: Option<Seq<char>>,
    role: Option<Role>,
) -> Result<Seq<char>, Seq<char>> {
    match registered_bean(ty, type_in(ty), name, role) {
        Ok(bean) => bean_source(bean),
        Err(message) => Err(message),
    }
}

/// Prints the registration of a concrete type under a name and in a role.
pub fn emit_register_with(ty: &str, explicit_name: Option<String>, explicit_role: Option<Role>) -> (
res: Result<String, EmitError>)
    ensures
        told(res) == registered_source(ty@, explicit_name.deep_view(), explicit_role),
{
    match register_input_with(ty, explicit_name, explicit_role) {
        Ok(input) => emit(&input),
        Err(e) => Err(e),
    }
}

/// Prints the registration of a concrete type.
pub fn emit_register(ty: &str) -> (res: Result<String, EmitError>)
    ensures
        told(res) == registered_source(ty@, None, None),
{
    emit_register_with(ty, None, None)
}

/// The name of the parameter at position `i`: its own, or its position where it has none.
pub open spec fn param_name(name: Option<Seq<char>>, i: nat) -> Seq<char> {
    match name {
        Some(name) => name,
        None => "_"@ + decimal(i),
    }
}

/// The dependency that the parameter at position `i` is.
pub open spec fn param_dep(param: Param, i: nat) -> Dep {
    match param {
        Param::Receiver => Dep { name: ""@, ty: ""@ },
        Param::Typed { name, ty } => Dep {
            name: param_name(name.deep_view(), i),
            ty: produced(ty@, type_in(ty@)),
        },
    }
}

/// The dependency that a parameter with a type is.
pub fn typed_dep(name: &Option<String>, ty: &String, i: usize) -> (res: Dependency)
    ensures
        res@ == (Dep {
            name: param_name(name.deep_view(), i as nat),
            ty: produced(ty@, type_in(ty@)),
        }),
{
    let name = match name {
        Some(name) => name.clone(),
        None => {
            let number = decimal_text(i as u64);
            "_".to_string().concat(number.as_str())
        },
    };
    Dependency { name, ty: produced_ty(ty.as_str()) }
}

/// There is a `self` among the parameters.
pub open spec fn has_receiver(params: Seq<Param>) -> bool {
    exists|i: int| 0 <= i < params.len() && (#[trigger] params[i]) is Receiver
}

/// The dependencies that the parameters of a function are, or the message for a function
/// that has a `self` among them.
pub open spec fn fn_deps(func: FnItem) -> Result<Seq<Dep>, Seq<char>> {
    if has_receiver(func.params@) {
        Err(
            "`"@ + func.ident@
                + "` is a @bean with a `self` receiver: a config-class @bean METHOD (threading the config instance) is lowered by the IMPL-BLOCK macro, not the per-method attr. Put `#[bean]` on a method inside a `#[configuration] impl Cfg { .. }` block (the impl-block macro iterates the methods and emits one Descriptor per `#[bean]`), or use a free `fn` `#[bean]` factory for a standalone factory."@,
        )
    } else {
        Ok(Seq::new(func.params@.len(), |i: int| param_dep(func.params@[i], i as nat)))
    }
}

/// The dependencies that the parameters of a function are.
fn sig_to_deps(func: &FnItem) -> (res: Result<Vec<Dependency>, EmitError>)
    ensures
        match res {
            Ok(deps) => fn_deps(*func) == Ok::<Seq<Dep>, Seq<char>>(deps.deep_view()),
            Err(e) => fn_deps(*func) == Err::<Seq<Dep>, Seq<char>>(e.message@),
        },
{
    let mut deps: Vec<Dependency> = Vec::new();
    let mut i: usize = 0;
    while i < func.params.len()
        invariant
            i <= func.params.len(),
            deps@.len() == i,
            forall|k: int| 0 <= k < i ==> !((#[trigger] func.params@[k]) is Receiver),
            forall|k: int| 0 <= k < i ==> (#[trigger] deps@[k])@ == param_dep(
                func.params@[k],
                k as nat,
            ),
        decreases func.params.len() - i,
    {
        match &func.params[i] {
            Param::Receiver => {
                assert(func.params@[i as int] is Receiver);
                return error(
                    "`".to_string().concat(func.ident.as_str()).concat(
                        "` is a @bean with a `self` receiver: a config-class @bean METHOD (threading the config instance) is lowered by the IMPL-BLOCK macro, not the per-method attr. Put `#[bean]` on a method inside a `#[configuration] impl Cfg { .. }` block (the impl-block macro iterates the methods and emits one Descriptor per `#[bean]`), or use a free `fn` `#[bean]` factory for a standalone factory.",
                    ),
                );
            },
            Param::Typed { name, ty } => deps.push(typed_dep(name, ty, i)),
        }
        i += 1;
    }
    assert(deps.deep_view() =~= fn_deps(*func)->Ok_0);
    Ok(deps)
}

/// The bean that a function makes, where its name is read as the given path.
pub open spec fn fn_bean_of(
    func: FnItem,
    path: Result<PathForm, Seq<char>>,
    name: Option<Seq<char>>,
    scope: Scope,
) -> Result<Bean, Seq<char>> {
    if func.generic {
        Err(
            "`"@ + func.ident@
                + "` is a generic @bean factory: a generic factory has no single concrete product type. Register a concrete instantiation with `register_component!(Concrete)`."@,
        )
    } else {
        match func.output {
            None => Err(
                "`"@ + func.ident@
                    + "` is a @bean but has no return type: a @bean factory must produce the bean it registers."@,
            ),
            Some(output) => match fn_deps(func) {
                Err(message) => Err(message),
                Ok(deps) => match path {
                    Err(message) => Err(
                        "`"@ + func.ident@ + "` is not a callable factory path: "@ + message,
                    ),
                    Ok(_) => Ok(
                        Bean {
                            module_qualified: true,
                            scope,
                            explicit_name: name,
                            meta: merged(annotation_of(Stereotype::Component)),
                            deps,
                            ctor: Some(func.ident@),
                            ..plain_bean(output@, func.ident@, func.ident@)
                        },
                    ),
                },
            },
        }
    }
}

/// A factory makes a bean of its result from its parameters, in their order, and is itself what
/// makes it; one that is generic, returns nothing or has a receiver is refused.
pub proof fn factory_takes_its_parameters(
    func: FnItem,
    path: PathForm,
    name: Option<Seq<char>>,
    scope: Scope,
)
    ensures
        func.generic || func.output is None || has_receiver(func.params@) ==> fn_bean_of(
            func,
            Ok(path),
            name,
            scope,
        ) is Err,
        !func.generic && func.output is Some && !has_receiver(func.params@) ==> (fn_bean_of(
            func,
            Ok(path),
            name,
            scope,
        ) matches Ok(b) && {
            &&& b.self_ty == func.output->0@
            &&& b.ident == func.ident@
            &&& b.ctor == Some(func.ident@)
            &&& b.receiver_ty is None
            &&& b.module_qualified
            &&& b.explicit_name == name
            &&& b.scope == scope
            &&& !b.inject_via_trait
            &&& b.deps.len() == func.params@.len()
            &&& forall|i: int|
                0 <= i < func.params@.len() ==> (#[trigger] b.deps[i]) == param_dep(
                    func.params@[i],
                    i as nat,
                )
        }),
{
}

/// A parameter is taken under its name, or under its place where it has none, as what its type
/// refers to.
pub proof fn parameter_is_taken_under_its_name(param: Param, i: nat)
    requires
        param is Typed,
    ensures
        param_dep(param, i).ty == produced(param->ty@, type_in(param->ty@)),
        param->name is Some ==> param_dep(param, i).name == param->name->0@,
        param->name is None ==> param_dep(param, i).name == "_"@ + decimal(i),
{
}

/// What is generated for an item stands behind the item.
pub proof fn rows_follow_the_item(source: Seq<char>, rows: Seq<char>)
    ensures
        item_and_rows(source, Ok(rows)) == Ok::<Seq<char>, Seq<char>>(source + " "@ + rows),
        item_and_rows(source, Err(rows)) == Err::<Seq<char>, Seq<char>>(rows),
{
}

/// The bean that a function makes.
pub open spec fn fn_bean(func: FnItem, name: Option<Seq<char>>, scope: Scope) -> Result<
    Bean,
    Seq<char>,
> {
    fn_bean_of(func, path_in(func.ident@), name, scope)
}

/// The bean that a function makes, where its name is read as the given path.
pub fn bean_input_of(
    func: &FnItem,
    path: &Result<PathShape, String>,
    explicit_name: Option<String>,
    scope: Scope,
) -> (res: Result<BeanInput, EmitError>)
    ensures
        told(res) == fn_bean_of(
            *func,
            crate::syntax::outcome(*path),
            explicit_name.deep_view(),
            scope,
        ),
{
    if func.generic {
        return error(
            "`".to_string().concat(func.ident.as_str()).concat(
                "` is a generic @bean factory: a generic factory has no single concrete product type. Register a concrete instantiation with `register_component!(Concrete)`.",
            ),
        );
    }
    let output = match &func.output {
        Some(output) => output.clone(),
        None => return error(
            "`".to_string().concat(func.ident.as_str()).concat(
                "` is a @bean but has no return type: a @bean factory must produce the bean it registers.",
            ),
        ),
    };
    let deps = match sig_to_deps(func) {
        Ok(deps) => deps,
        Err(e) => return Err(e),
    };
    if let Err(message) = path {
        return error(
            "`".to_string().concat(func.ident.as_str()).concat(
                "` is not a callable factory path: ",
            ).concat(message.as_str()),
        );
    }
    let mut input = BeanInput::new(output.as_str(), func.ident.as_str(), func.ident.as_str());
    input.module_qualified = true;
    input.scope = scope;
    input.explicit_name = explicit_name;
    input.meta = stereotype_meta(Stereotype::Component);
    input.deps = deps;
    input.ctor = Some(func.ident.clone());
    Ok(input)
}

/// The bean that a function makes.
pub fn bean_input(func: &FnItem, explicit_name: Option<String>, scope: Scope) -> (res: Result<
    BeanInput,
    EmitError,
>)
    ensures
        told(res) == fn_bean(*func, explicit_name.deep_view(), scope),
{
    bean_input_of(func, &path_shape(func.ident.as_str()), explicit_name, scope)
}

/// Prints a function, with the registration of the bean that it makes.
pub fn emit_bean(func: &FnItem, explicit_name: Option<String>, scope: Scope) -> (res: Result<
    String,
    EmitError,
>)
    ensures
        told(res) == match fn_bean(*func, explicit_name.deep_view(), scope) {
            Ok(bean) => item_and_rows(func.source@, bean_source(bean)),
            Err(message) => Err(message),
        },
{
    match bean_input(func, explicit_name, scope) {
        Ok(input) => with_item(func.source.as_str(), emit(&input)),
        Err(e) => Err(e),
    }
}

} // verus!
