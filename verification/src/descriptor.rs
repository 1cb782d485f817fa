//! Beans: what is known of one, and the source that registers it.
use vstd::prelude::*;

use crate::annotation::{metadata_source, nothing, Merged, MergedAnnotation};
use crate::args::{error, told};
use crate::naming::{
    contract_here, contract_text, default_name, derive_default_name, mangle, mangled,
    type_id_source, type_id_text,
};
use crate::syntax::{
    literal_source, string_literal, type_in, type_shape, TypeForm, TypeShape,
};
use crate::reading::{
    followed_series, joined_lists, lists, series, stands_in, within, within_brackets,
};
use crate::template::{
    filled, filled_part, filled_plain, filled_step, is_name_char, no_slots, slot_at, slot_text,
    Slots,
};
use crate::text::{each_followed, follow_each, join, join_texts, str_eq};

pub use crate::args::EmitError;

verus! {

/// Whose bean it is.
#[derive(Clone, Copy, Debug, PartialEq, Eq, Structural)]
pub enum Role {
    /// The application's.
    Application,
    /// A supporting part's.
    Support,
    /// The framework's.
    Infrastructure,
}

impl Default for Role {
    fn default() -> (res: Role)
        ensures
            res == Role::Application,
    {
        Role::Application
    }
}

/// A role as a `::leaf_core::Role`.
pub open spec fn role_source(role: Role) -> Seq<char> {
    match role {
        Role::Application => "::leaf_core::Role::Application"@,
        Role::Support => "::leaf_core::Role::Support"@,
        Role::Infrastructure => "::leaf_core::Role::Infrastructure"@,
    }
}

impl Role {
    /// Prints the role.
    fn tokens(self) -> (res: &'static str)
        ensures
            res@ == role_source(self),
    {
        match self {
            Role::Application => "::leaf_core::Role::Application",
            Role::Support => "::leaf_core::Role::Support",
            Role::Infrastructure => "::leaf_core::Role::Infrastructure",
        }
    }
}

/// How long an instance lives.
#[derive(Clone, Copy, Debug, PartialEq, Eq, Structural)]
pub enum Scope {
    /// One instance for all.
    Singleton,
    /// A new instance each time.
    Prototype,
    /// One instance in each request.
    Request,
}

impl Default for Scope {
    fn default() -> (res: Scope)
        ensures
            res == Scope::Singleton,
    {
        Scope::Singleton
    }
}

/// A scope as a `::leaf_core::ScopeDef`.
pub open spec fn scope_source(scope: Scope) -> Seq<char> {
    match scope {
        Scope::Singleton => "::leaf_core::ScopeDef::SINGLETON"@,
        Scope::Prototype => "::leaf_core::ScopeDef::PROTOTYPE"@,
        Scope::Request => "::leaf_core::ScopeDef::REQUEST"@,
    }
}

impl Scope {
    /// Prints the scope.
    fn tokens(self) -> (res: &'static str)
        ensures
            res@ == scope_source(self),
    {
        match self {
            Scope::Singleton => "::leaf_core::ScopeDef::SINGLETON",
            Scope::Prototype => "::leaf_core::ScopeDef::PROTOTYPE",
            Scope::Request => "::leaf_core::ScopeDef::REQUEST",
        }
    }
}

/// Where the row of a bean is collected.
#[derive(Clone, Copy, Debug, PartialEq, Eq, Structural)]
pub enum Slice {
    /// Among the components.
    Components,
    /// Among the auto-configurations.
    AutoConfigs,
}

impl Default for Slice {
    fn default() -> (res: Slice)
        ensures
            res == Slice::Components,
    {
        Slice::Components
    }
}

/// The slice that rows are collected in.
pub open spec fn slice_source(slice: Slice) -> Seq<char> {
    match slice {
        Slice::Components => "::leaf_core::COMPONENTS"@,
        Slice::AutoConfigs => "::leaf_core::AUTO_CONFIGS"@,
    }
}

impl Slice {
    /// Prints the slice.
    fn tokens(self) -> (res: &'static str)
        ensures
            res@ == slice_source(self),
    {
        match self {
            Slice::Components => "::leaf_core::COMPONENTS",
            Slice::AutoConfigs => "::leaf_core::AUTO_CONFIGS",
        }
    }
}

/// What is known of the fields of a bean.
#[derive(Clone, Copy, Debug, PartialEq, Eq, Structural)]
pub enum FieldShape {
    /// Nothing: an instance is made by the constructor.
    Hidden,
    /// They have the names of the dependencies: an instance is written out.
    Named,
}

impl Default for FieldShape {
    fn default() -> (res: FieldShape)
        ensures
            res == FieldShape::Hidden,
    {
        FieldShape::Hidden
    }
}

/// What a bean is made from.
#[derive(Clone, Debug)]
pub struct Dependency {
    /// The name of the field or the parameter.
    pub name: String,
    /// The type.
    pub ty: String,
}

/// What a [`Dependency`] stands for.
pub ghost struct Dep {
    pub name: Seq<char>,
    pub ty: Seq<char>,
}

impl View for Dependency {
    type V = Dep;

    open spec fn view(&self) -> Dep {
        Dep { name: self.name@, ty: self.ty@ }
    }
}

impl DeepView for Dependency {
    type V = Dep;

    open spec fn deep_view(&self) -> Dep {
        self@
    }
}

/// A trait object that a bean can be had as.
#[derive(Clone, Debug)]
pub struct ServiceView {
    /// The type of the trait object.
    pub dyn_ty: String,
}

impl View for ServiceView {
    type V = Seq<char>;

    /// The type.
    open spec fn view(&self) -> Seq<char> {
        self.dyn_ty@
    }
}

impl DeepView for ServiceView {
    type V = Seq<char>;

    open spec fn deep_view(&self) -> Seq<char> {
        self@
    }
}

/// What is known of a bean.
#[derive(Clone, Debug)]
pub struct BeanInput {
    /// The type.
    pub self_ty: String,
    /// The identifier that names are made from.
    pub ident: String,
    /// The path that identifies the bean.
    pub contract_path: String,
    /// Whether the bean is identified by the module it stands in, and its identifier.
    pub module_qualified: bool,
    /// The name, where one is given.
    pub explicit_name: Option<String>,
    /// Whose bean it is.
    pub role: Role,
    /// How long an instance lives.
    pub scope: Scope,
    /// What it is made from.
    pub deps: Vec<Dependency>,
    /// What else it can be had as.
    pub provides: Vec<ServiceView>,
    /// Its annotations.
    pub meta: MergedAnnotation,
    /// The function or the method that makes it, where that is not the constructor.
    pub ctor: Option<String>,
    /// The type whose method makes it.
    pub receiver_ty: Option<String>,
    /// Whether the type of a dependency says how it is injected.
    pub inject_via_trait: bool,
    /// What is known of the fields.
    pub field_shape: FieldShape,
    /// Whether the type is generic.
    pub is_generic: bool,
    /// Where the row is collected.
    pub slice: Slice,
}

/// What a [`BeanInput`] stands for.
pub ghost struct Bean {
    pub self_ty: Seq<char>,
    pub ident: Seq<char>,
    pub contract_path: Seq<char>,
    pub module_qualified: bool,
    pub explicit_name: Option<Seq<char>>,
    pub role: Role,
    pub scope: Scope,
    pub deps: Seq<Dep>,
    pub provides: Seq<Seq<char>>,
    pub meta: Merged,
    pub ctor: Option<Seq<char>>,
    pub receiver_ty: Option<Seq<char>>,
    pub inject_via_trait: bool,
    pub field_shape: FieldShape,
    pub is_generic: bool,
    pub slice: Slice,
}

impl View for BeanInput {
    type V = Bean;

    open spec fn view(&self) -> Bean {
        Bean {
            self_ty: self.self_ty@,
            ident: self.ident@,
            contract_path: self.contract_path@,
            module_qualified: self.module_qualified,
            explicit_name: self.explicit_name.deep_view(),
            role: self.role,
            scope: self.scope,
            deps: self.deps.deep_view(),
            provides: self.provides.deep_view(),
            meta: self.meta@,
            ctor: self.ctor.deep_view(),
            receiver_ty: self.receiver_ty.deep_view(),
            inject_via_trait: self.inject_via_trait,
            field_shape: self.field_shape,
            is_generic: self.is_generic,
            slice: self.slice,
        }
    }
}

/// A bean of which nothing is said but its type, its identifier and its path.
pub open spec fn plain_bean(self_ty: Seq<char>, ident: Seq<char>, contract_path: Seq<char>) -> Bean {
    Bean {
        self_ty,
        ident,
        contract_path,
        module_qualified: false,
        explicit_name: None,
        role: Role::Application,
        scope: Scope::Singleton,
        deps: Seq::empty(),
        provides: Seq::empty(),
        meta: nothing(),
        ctor: None,
        receiver_ty: None,
        inject_via_trait: false,
        field_shape: FieldShape::Hidden,
        is_generic: false,
        slice: Slice::Components,
    }
}

impl BeanInput {
    /// A bean of which nothing else is said.
    pub fn new(self_ty: &str, ident: &str, contract_path: &str) -> (res: BeanInput)
        ensures
            res@ == plain_bean(self_ty@, ident@, contract_path@),
    {
        let res = BeanInput {
            self_ty: self_ty.to_string(),
            ident: ident.to_string(),
            contract_path: contract_path.to_string(),
            module_qualified: false,
            explicit_name: None,
            role: Role::Application,
            scope: Scope::Singleton,
            deps: Vec::new(),
            provides: Vec::new(),
            meta: MergedAnnotation::default(),
            ctor: None,
            receiver_ty: None,
            inject_via_trait: false,
            field_shape: FieldShape::Hidden,
            is_generic: false,
            slice: Slice::Components,
        };
        assert(res@.deps =~= Seq::<Dep>::empty());
        assert(res@.provides =~= Seq::<Seq<char>>::empty());
        res
    }
}

/// The contract id of a bean.
pub open spec fn bean_contract(b: Bean) -> Seq<char> {
    if b.module_qualified {
        contract_here(b.ident)
    } else {
        "::leaf_core::ContractId::of("@ + literal_source(b.contract_path) + ")"@
    }
}

/// Prints the contract id of a bean.
fn emit_contract(input: &BeanInput) -> (res: String)
    ensures
        res@ == bean_contract(input@),
{
    if input.module_qualified {
        contract_text(input.ident.as_str())
    } else {
        let path = string_literal(input.contract_path.as_str());
        "::leaf_core::ContractId::of(".to_string().concat(path.as_str()).concat(")")
    }
}

/// The type that is injected where a field or a parameter has the given type: what a
/// `Ref` refers to, and otherwise the type itself.
pub open spec fn produced(ty: Seq<char>, form: Result<TypeForm, Seq<char>>) -> Seq<char> {
    match form {
        Ok(TypeForm::Path { last, args }) => if last == "Ref"@ && args.len() > 0 {
            match args[0] {
                Some(inner) => inner,
                None => ty,
            }
        } else {
            ty
        },
        _ => ty,
    }
}

/// The type that is injected where a field or a parameter has the given type.
pub fn produced_ty_of(ty: &str, shape: &Result<TypeShape, String>) -> (res: String)
    ensures
        res@ == produced(ty@, crate::syntax::outcome(*shape)),
{
    match shape {
        Ok(TypeShape::Path { last, args }) => if str_eq(last.as_str(), "Ref") && args.len() > 0 {
            match &args[0] {
                Some(inner) => inner.clone(),
                None => ty.to_string(),
            }
        } else {
            ty.to_string()
        },
        _ => ty.to_string(),
    }
}

/// The type that is injected where a field or a parameter has the given type.
pub fn produced_ty(ty: &str) -> (res: String)
    ensures
        res@ == produced(ty@, type_in(ty@)),
{
    let shape = type_shape(ty);
    produced_ty_of(ty, &shape)
}

/// The point at which a dependency is injected.
pub open spec fn point_source(dep: Dep, via_trait: bool) -> Seq<char> {
    if via_trait {
        "::leaf_core::InjectionPoint::resolvable(<"@ + dep.ty
            + " as ::leaf_core::Injectable>::RESOLVABLE, "@ + literal_source(dep.name) + ")"@
    } else {
        "::leaf_core::InjectionPoint::single("@ + type_id_source(dep.ty) + ", "@ + literal_source(
            dep.name,
        ) + ")"@
    }
}

/// Prints the point at which a dependency is injected.
fn point_text(dep: &Dependency, via_trait: bool) -> (res: String)
    ensures
        res@ == point_source(dep@, via_trait),
{
    let name = string_literal(dep.name.as_str());
    if via_trait {
        "::leaf_core::InjectionPoint::resolvable(<".to_string().concat(dep.ty.as_str()).concat(
            " as ::leaf_core::Injectable>::RESOLVABLE, ",
        ).concat(name.as_str()).concat(")")
    } else {
        let id = type_id_text(dep.ty.as_str());
        "::leaf_core::InjectionPoint::single(".to_string().concat(id.as_str()).concat(", ").concat(
            name.as_str(),
        ).concat(")")
    }
}

/// The variable that a dependency is held in.
pub open spec fn local(dep: Dep) -> Seq<char> {
    "__dep_"@ + dep.name
}

/// The statement that gets a dependency.
pub open spec fn resolve_source(dep: Dep, via_trait: bool) -> Seq<char> {
    if via_trait {
        "let "@ + local(dep) + ": "@ + dep.ty + " = <"@ + dep.ty
            + " as ::leaf_core::Injectable>::inject(__cx).await?;"@
    } else {
        "let "@ + local(dep) + ": ::leaf_core::Ref<"@ + dep.ty + "> = __engine.get::<"@ + dep.ty
            + ">().await?;"@
    }
}

/// Prints the variable that a dependency is held in.
fn local_text(dep: &Dependency) -> (res: String)
    ensures
        res@ == local(dep@),
{
    "__dep_".to_string().concat(dep.name.as_str())
}

/// Prints the statement that gets a dependency.
fn resolve_text(dep: &Dependency, via_trait: bool) -> (res: String)
    ensures
        res@ == resolve_source(dep@, via_trait),
{
    let name = local_text(dep);
    if via_trait {
        "let ".to_string().concat(name.as_str()).concat(": ").concat(dep.ty.as_str()).concat(
            " = <",
        ).concat(dep.ty.as_str()).concat(" as ::leaf_core::Injectable>::inject(__cx).await?;")
    } else {
        "let ".to_string().concat(name.as_str()).concat(": ::leaf_core::Ref<").concat(
            dep.ty.as_str(),
        ).concat("> = __engine.get::<").concat(dep.ty.as_str()).concat(">().await?;")
    }
}

/// The points at which dependencies are injected.
pub open spec fn point_sources(deps: Seq<Dep>, via_trait: bool) -> Seq<Seq<char>> {
    Seq::new(deps.len(), |i: int| point_source(deps[i], via_trait))
}

/// The statements that get dependencies.
pub open spec fn resolve_sources(deps: Seq<Dep>, via_trait: bool) -> Seq<Seq<char>> {
    Seq::new(deps.len(), |i: int| resolve_source(deps[i], via_trait))
}

/// The variables that dependencies are held in.
pub open spec fn locals(deps: Seq<Dep>) -> Seq<Seq<char>> {
    Seq::new(deps.len(), |i: int| local(deps[i]))
}

/// The fields of an instance that is written out.
pub open spec fn field_inits(deps: Seq<Dep>) -> Seq<Seq<char>> {
    Seq::new(deps.len(), |i: int| deps[i].name + ": "@ + local(deps[i]))
}

/// What is printed of dependencies.
struct DepTexts {
    points: Vec<String>,
    resolves: Vec<String>,
    locals: Vec<String>,
    inits: Vec<String>,
}

/// Prints dependencies.
fn dep_texts(deps: &Vec<Dependency>, via_trait: bool) -> (res: DepTexts)
    ensures
        res.points.deep_view() == point_sources(deps.deep_view(), via_trait),
        res.resolves.deep_view() == resolve_sources(deps.deep_view(), via_trait),
        res.locals.deep_view() == locals(deps.deep_view()),
        res.inits.deep_view() == field_inits(deps.deep_view()),
{
    let mut points: Vec<String> = Vec::new();
    let mut resolves: Vec<String> = Vec::new();
    let mut names: Vec<String> = Vec::new();
    let mut inits: Vec<String> = Vec::new();
    let mut i: usize = 0;
    while i < deps.len()
        invariant
            i <= deps.len(),
            points@.len() == i,
            resolves@.len() == i,
            names@.len() == i,
            inits@.len() == i,
            forall|k: int| 0 <= k < i ==> (#[trigger] points@[k])@ == point_source(
                deps@[k]@,
                via_trait,
            ),
            forall|k: int| 0 <= k < i ==> (#[trigger] resolves@[k])@ == resolve_source(
                deps@[k]@,
                via_trait,
            ),
            forall|k: int| 0 <= k < i ==> (#[trigger] names@[k])@ == local(deps@[k]@),
            forall|k: int| 0 <= k < i ==> (#[trigger] inits@[k])@ == deps@[k]@.name + ": "@ + local(
                deps@[k]@,
            ),
        decreases deps.len() - i,
    {
        points.push(point_text(&deps[i], via_trait));
        resolves.push(resolve_text(&deps[i], via_trait));
        let name = local_text(&deps[i]);
        inits.push(deps[i].name.as_str().to_string().concat(": ").concat(name.as_str()));
        names.push(name);
        i += 1;
    }
    assert(points.deep_view() =~= point_sources(deps.deep_view(), via_trait));
    assert(resolves.deep_view() =~= resolve_sources(deps.deep_view(), via_trait));
    assert(names.deep_view() =~= locals(deps.deep_view()));
    assert(inits.deep_view() =~= field_inits(deps.deep_view()));
    DepTexts { points, resolves, locals: names, inits }
}

/// The row of a trait object that a bean can be had as.
pub open spec fn view_row(dyn_ty: Seq<char>) -> Seq<char> {
    "::leaf_core::TypeRow { view: "@ + type_id_source(dyn_ty)
        + ", upcast: |__bean: ::leaf_core::ErasedBean| -> ::leaf_core::ErasedBean { __bean } }"@
}

/// The rows of the trait objects that a bean can be had as.
pub open spec fn view_rows(types: Seq<Seq<char>>) -> Seq<Seq<char>> {
    Seq::new(types.len(), |i: int| view_row(types[i]))
}

/// The list of the trait objects that a bean can be had as.
pub open spec fn provides_source(types: Seq<Seq<char>>) -> Seq<char> {
    "&["@ + join(view_rows(types), ", "@) + "]"@
}

/// Prints the list of the trait objects that a bean can be had as.
fn emit_provides(provides: &Vec<ServiceView>) -> (res: String)
    ensures
        res@ == provides_source(provides.deep_view()),
{
    let mut rows: Vec<String> = Vec::new();
    let mut i: usize = 0;
    while i < provides.len()
        invariant
            i <= provides.len(),
            rows@.len() == i,
            forall|k: int| 0 <= k < i ==> (#[trigger] rows@[k])@ == view_row(provides@[k]@),
        decreases provides.len() - i,
    {
        let id = type_id_text(provides[i].dyn_ty.as_str());
        rows.push(
            "::leaf_core::TypeRow { view: ".to_string().concat(id.as_str()).concat(
                ", upcast: |__bean: ::leaf_core::ErasedBean| -> ::leaf_core::ErasedBean { __bean } }",
            ),
        );
        i += 1;
    }
    assert(rows.deep_view() =~= view_rows(provides.deep_view()));
    let list = join_texts(rows.as_slice(), ", ");
    "&[".to_string().concat(list.as_str()).concat("]")
}

/// The statement that gets the bean whose method makes another bean.
pub open spec fn receiver_source(b: Bean) -> Seq<char> {
    match (b.receiver_ty, b.ctor) {
        (Some(recv), Some(_)) => "let __recv: ::leaf_core::Ref<"@ + recv
            + "> = __engine.get::<"@ + recv + ">().await?;"@,
        _ => ""@,
    }
}

/// The expression that makes a bean.
pub open spec fn construct_source(b: Bean) -> Seq<char> {
    let args = join(locals(b.deps), ", "@);
    match (b.receiver_ty, b.ctor) {
        (Some(_), Some(method)) => "__recv."@ + method + "("@ + args + ")"@,
        (None, Some(path)) => path + "("@ + args + ")"@,
        (_, None) => match b.field_shape {
            FieldShape::Hidden => "<"@ + b.self_ty + ">::new("@ + args + ")"@,
            FieldShape::Named => b.self_ty + " { "@ + join(field_inits(b.deps), ", "@) + " }"@,
        },
    }
}

/// Prints the statement that gets the bean whose method makes another bean.
fn receiver_text(input: &BeanInput) -> (res: String)
    ensures
        res@ == receiver_source(input@),
{
    match (&input.receiver_ty, &input.ctor) {
        (Some(recv), Some(_)) => "let __recv: ::leaf_core::Ref<".to_string().concat(
            recv.as_str(),
        ).concat("> = __engine.get::<").concat(recv.as_str()).concat(">().await?;"),
        _ => "".to_string(),
    }
}

/// Prints the expression that makes a bean.
fn construct_text(input: &BeanInput, deps: &DepTexts) -> (res: String)
    requires
        deps.locals.deep_view() == locals(input@.deps),
        deps.inits.deep_view() == field_inits(input@.deps),
    ensures
        res@ == construct_source(input@),
{
    let args = join_texts(deps.locals.as_slice(), ", ");
    match (&input.receiver_ty, &input.ctor) {
        (Some(_), Some(method)) => "__recv.".to_string().concat(method.as_str()).concat("(").concat(
            args.as_str(),
        ).concat(")"),
        (None, Some(path)) => path.clone().concat("(").concat(args.as_str()).concat(")"),
        (_, None) => match input.field_shape {
            FieldShape::Hidden => "<".to_string().concat(input.self_ty.as_str()).concat(
                ">::new(",
            ).concat(args.as_str()).concat(")"),
            FieldShape::Named => {
                let inits = join_texts(deps.inits.as_slice(), ", ");
                input.self_ty.clone().concat(" { ").concat(inits.as_str()).concat(" }")
            },
        },
    }
}

/// A bean is made from its dependencies, each in the place that it was declared in: the local
/// of the k-th dependency is the k-th argument of what makes the bean, and fields that are
/// written out have the locals of their own names.
pub proof fn dependencies_keep_their_places(b: Bean)
    ensures
        ({
            let locals = Seq::new(b.deps.len(), |k: int| "__dep_"@ + b.deps[k].name);
            let fields = Seq::new(
                b.deps.len(),
                |k: int| b.deps[k].name + ": "@ + ("__dep_"@ + b.deps[k].name),
            );
            let call = match (b.receiver_ty, b.ctor) {
                (Some(_), Some(method)) => Some("__recv."@ + method + "("@),
                (None, Some(path)) => Some(path + "("@),
                (_, None) => match b.field_shape {
                    FieldShape::Hidden => Some("<"@ + b.self_ty + ">::new("@),
                    FieldShape::Named => None,
                },
            };
            match call {
                Some(open) => within(construct_source(b), open, ")"@) matches Some(args) && lists(
                    args,
                    locals,
                    ", "@,
                ),
                None => within(construct_source(b), b.self_ty + " { "@, " }"@) matches Some(inits)
                    && lists(inits, fields, ", "@),
            }
        }),
{
    let names = Seq::new(b.deps.len(), |k: int| "__dep_"@ + b.deps[k].name);
    let fields = Seq::new(
        b.deps.len(),
        |k: int| b.deps[k].name + ": "@ + ("__dep_"@ + b.deps[k].name),
    );
    assert(names =~= locals(b.deps));
    assert(fields =~= field_inits(b.deps));
    joined_lists(names, ", "@);
    joined_lists(fields, ", "@);
    let args = join(names, ", "@);
    match (b.receiver_ty, b.ctor) {
        (Some(_), Some(method)) => within_brackets("__recv."@ + method + "("@, args, ")"@),
        (None, Some(path)) => within_brackets(path + "("@, args, ")"@),
        (_, None) => match b.field_shape {
            FieldShape::Hidden => within_brackets("<"@ + b.self_ty + ">::new("@, args, ")"@),
            FieldShape::Named => within_brackets(b.self_ty + " { "@, join(fields, ", "@), " }"@),
        },
    }
}

/// Each dependency is got as what its type says, into the local of its name, and is declared
/// at a point of that type and that name, in the order of the dependencies.
pub proof fn each_dependency_is_got(b: Bean)
    ensures
        b.inject_via_trait ==> {
            &&& series(
                each_followed(resolve_sources(b.deps, b.inject_via_trait), " "@),
                Seq::new(
                    b.deps.len(),
                    |k: int|
                        "let "@ + ("__dep_"@ + b.deps[k].name) + ": "@ + b.deps[k].ty + " = <"@
                            + b.deps[k].ty + " as ::leaf_core::Injectable>::inject(__cx).await?;"@,
                ),
                " "@,
            )
            &&& lists(
                join(point_sources(b.deps, b.inject_via_trait), ", "@),
                Seq::new(
                    b.deps.len(),
                    |k: int|
                        "::leaf_core::InjectionPoint::resolvable(<"@ + b.deps[k].ty
                            + " as ::leaf_core::Injectable>::RESOLVABLE, "@ + literal_source(
                            b.deps[k].name,
                        ) + ")"@,
                ),
                ", "@,
            )
        },
        !b.inject_via_trait ==> {
            &&& series(
                each_followed(resolve_sources(b.deps, b.inject_via_trait), " "@),
                Seq::new(
                    b.deps.len(),
                    |k: int|
                        "let "@ + ("__dep_"@ + b.deps[k].name) + ": ::leaf_core::Ref<"@
                            + b.deps[k].ty + "> = __engine.get::<"@ + b.deps[k].ty
                            + ">().await?;"@,
                ),
                " "@,
            )
            &&& lists(
                join(point_sources(b.deps, b.inject_via_trait), ", "@),
                Seq::new(
                    b.deps.len(),
                    |k: int|
                        "::leaf_core::InjectionPoint::single("@ + type_id_source(b.deps[k].ty)
                            + ", "@ + literal_source(b.deps[k].name) + ")"@,
                ),
                ", "@,
            )
        },
{
    let n = b.deps.len();
    let via = b.inject_via_trait;
    followed_series(resolve_sources(b.deps, via), " "@);
    joined_lists(point_sources(b.deps, via), ", "@);
    if via {
        assert(resolve_sources(b.deps, via) =~= Seq::new(
            n,
            |k: int|
                "let "@ + ("__dep_"@ + b.deps[k].name) + ": "@ + b.deps[k].ty + " = <"@
                    + b.deps[k].ty + " as ::leaf_core::Injectable>::inject(__cx).await?;"@,
        ));
        assert(point_sources(b.deps, via) =~= Seq::new(
            n,
            |k: int|
                "::leaf_core::InjectionPoint::resolvable(<"@ + b.deps[k].ty
                    + " as ::leaf_core::Injectable>::RESOLVABLE, "@ + literal_source(b.deps[k].name)
                    + ")"@,
        ));
    } else {
        assert(resolve_sources(b.deps, via) =~= Seq::new(
            n,
            |k: int|
                "let "@ + ("__dep_"@ + b.deps[k].name) + ": ::leaf_core::Ref<"@ + b.deps[k].ty
                    + "> = __engine.get::<"@ + b.deps[k].ty + ">().await?;"@,
        ));
        assert(point_sources(b.deps, via) =~= Seq::new(
            n,
            |k: int|
                "::leaf_core::InjectionPoint::single("@ + type_id_source(b.deps[k].ty) + ", "@
                    + literal_source(b.deps[k].name) + ")"@,
        ));
    }
}

/// The bean whose method makes another bean is got by its type, and only there.
pub proof fn receiver_is_got(b: Bean)
    ensures
        match b.receiver_ty {
            Some(recv) if b.ctor is Some => receiver_source(b) == "let __recv: ::leaf_core::Ref<"@
                + recv + "> = __engine.get::<"@ + recv + ">().await?;"@,
            _ => receiver_source(b).len() == 0,
        },
{
    reveal_strlit("");
}

/// What a bean can be had as is listed in the order in which it was given, each as a row of its
/// type.
pub proof fn views_are_listed(types: Seq<Seq<char>>)
    ensures
        within(provides_source(types), "&["@, "]"@) matches Some(rows) && lists(
            rows,
            Seq::new(
                types.len(),
                |k: int|
                    "::leaf_core::TypeRow { view: "@ + type_id_source(types[k])
                        + ", upcast: |__bean: ::leaf_core::ErasedBean| -> ::leaf_core::ErasedBean { __bean } }"@,
            ),
            ", "@,
        ),
{
    let rows = Seq::new(
        types.len(),
        |k: int|
            "::leaf_core::TypeRow { view: "@ + type_id_source(types[k])
                + ", upcast: |__bean: ::leaf_core::ErasedBean| -> ::leaf_core::ErasedBean { __bean } }"@,
    );
    assert(rows =~= view_rows(types));
    joined_lists(rows, ", "@);
    within_brackets("&["@, join(rows, ", "@), "]"@);
}

/// A role, a scope and a slice are printed by their own names.
pub proof fn settings_are_printed_by_name()
    ensures
        role_source(Role::Application) == "::leaf_core::Role::Application"@,
        role_source(Role::Support) == "::leaf_core::Role::Support"@,
        role_source(Role::Infrastructure) == "::leaf_core::Role::Infrastructure"@,
        scope_source(Scope::Singleton) == "::leaf_core::ScopeDef::SINGLETON"@,
        scope_source(Scope::Prototype) == "::leaf_core::ScopeDef::PROTOTYPE"@,
        scope_source(Scope::Request) == "::leaf_core::ScopeDef::REQUEST"@,
        slice_source(Slice::Components) == "::leaf_core::COMPONENTS"@,
        slice_source(Slice::AutoConfigs) == "::leaf_core::AUTO_CONFIGS"@,
{
}

/// What a `Ref` refers to is injected; any other type is injected itself.
pub proof fn reference_is_looked_through(ty: Seq<char>, inner: Seq<char>, last: Seq<char>, rest: Seq<Option<Seq<char>>>)
    ensures
        produced(
            ty,
            Ok(TypeForm::Path { last: "Ref"@, args: seq![Some(inner)] + rest }),
        ) == inner,
        last != "Ref"@ ==> produced(ty, Ok(TypeForm::Path { last, args: rest })) == ty,
{
}

/// The name of a bean: the one given, or the one made from the identifier.
pub open spec fn declared_name(b: Bean) -> Seq<char> {
    match b.explicit_name {
        Some(name) => name,
        None => default_name(b.ident),
    }
}

/// A name that is given goes before the one that the identifier would give, and a bean that is
/// known by its module is identified by that.
pub proof fn given_name_goes_first(b: Bean, name: Seq<char>)
    ensures
        declared_name(Bean { explicit_name: Some(name), ..b }) == name,
        declared_name(Bean { explicit_name: None, ..b }) == default_name(b.ident),
        bean_contract(Bean { module_qualified: true, ..b }) == contract_here(b.ident),
        within(
            bean_contract(Bean { module_qualified: false, ..b }),
            "::leaf_core::ContractId::of("@,
            ")"@,
        ) == Some(literal_source(b.contract_path)),
{
    within_brackets("::leaf_core::ContractId::of("@, literal_source(b.contract_path), ")"@);
}

/// The registration of a bean.
pub const BEAN: &'static str = "#[allow(non_upper_case_globals)]
const __LEAF_POINTS_#mangled: &[::leaf_core::InjectionPoint] = &[#points];
#[allow(non_upper_case_globals)]
const __LEAF_PLAN_#mangled: ::leaf_core::InjectionPlan = ::leaf_core::InjectionPlan { points: __LEAF_POINTS_#mangled };
#[allow(non_upper_case_globals)]
static __LEAF_META_#mangled: ::leaf_core::AnnotationMetadata = #meta;
impl ::leaf_core::Bean for #self_ty {}
#[allow(non_camel_case_types)]
struct __LeafProvider_#mangled;
impl ::leaf_core::Provider for __LeafProvider_#mangled {
    fn descriptor(&self) -> &::leaf_core::Descriptor {
        &__LEAF_DESCRIPTOR_#mangled
    }
    fn provide<'__a>(
        &'__a self,
        __cx: &'__a ::leaf_core::ResolveCtx<'__a>,
    ) -> ::leaf_core::BoxFuture<
        '__a,
        ::core::result::Result<::leaf_core::Published, ::leaf_core::LeafError>,
    > {
        ::std::boxed::Box::pin(async move {
            let __engine = __cx.engine().ok_or_else(|| {
                ::leaf_core::LeafError::new(::leaf_core::ErrorKind::ConstructionFailed)
            })?;
            #receiver
            #resolves
            let __instance = #construct;
            ::core::result::Result::Ok(::leaf_core::Published::shared_value(__instance))
        })
    }
}
#[allow(non_upper_case_globals)]
#[doc(hidden)]
pub const __leaf_seed_#mangled: ::leaf_core::ProviderSeed = || ::std::sync::Arc::new(__LeafProvider_#mangled);
#[allow(non_upper_case_globals)]
#[::leaf_core::linkme::distributed_slice(#slice)]
#[linkme(crate = ::leaf_core::linkme)]
static __LEAF_DESCRIPTOR_#mangled: ::leaf_core::Descriptor = ::leaf_core::Descriptor {
    contract: #contract,
    self_type: #type_id,
    provides: #provides,
    declared_name: ::core::option::Option::Some(#declared_name),
    aliases: &[],
    scope: #scope,
    role: #role,
    meta: &__LEAF_META_#mangled,
    parent: ::core::option::Option::None,
    origin: ::leaf_core::Origin::Native {
        crate_name: ::core::option::Option::Some(::core::env!(\"CARGO_PKG_NAME\")),
    },
};
#[allow(non_upper_case_globals)]
#[::leaf_core::linkme::distributed_slice(::leaf_core::SEED_PAIRINGS)]
#[linkme(crate = ::leaf_core::linkme)]
static __LEAF_SEED_PAIRING_#mangled: ::leaf_core::SeedPairingRow = ::leaf_core::SeedPairingRow {
    contract: #contract,
    seed: __leaf_seed_#mangled,
};
#[allow(non_upper_case_globals)]
#[::leaf_core::linkme::distributed_slice(::leaf_core::INJECTION_PLAN_PAIRINGS)]
#[linkme(crate = ::leaf_core::linkme)]
static __LEAF_PLAN_PAIRING_#mangled: ::leaf_core::InjectionPlanPairingRow = ::leaf_core::InjectionPlanPairingRow {
    contract: #contract,
    plan: __LEAF_PLAN_#mangled,
};
";

/// The pieces that the registration of a bean is filled with.
pub open spec fn bean_slots(b: Bean) -> Seq<(Seq<char>, Seq<char>)> {
    no_slots().push(("mangled"@, mangled(b.ident))).push(
        ("points"@, join(point_sources(b.deps, b.inject_via_trait), ", "@)),
    ).push(("meta"@, metadata_source(b.meta))).push(("self_ty"@, b.self_ty)).push(
        ("receiver"@, receiver_source(b)),
    ).push(
        ("resolves"@, each_followed(resolve_sources(b.deps, b.inject_via_trait), " "@)),
    ).push(("construct"@, construct_source(b))).push(("slice"@, slice_source(b.slice))).push(
        ("contract"@, bean_contract(b)),
    ).push(("type_id"@, type_id_source(b.self_ty))).push(
        ("provides"@, provides_source(b.provides)),
    ).push(("declared_name"@, literal_source(declared_name(b)))).push(
        ("scope"@, scope_source(b.scope)),
    ).push(("role"@, role_source(b.role)))
}

/// The message for a generic bean.
pub open spec fn generic_message(ident: Seq<char>) -> Seq<char> {
    "`"@ + ident
        + "` is generic: a generic bean has no single concrete type to register as a const Descriptor row. Register a concrete instantiation with `register_component!("@
        + ident + "<Concrete>)`."@
}

/// The message for a generic bean.
pub(crate) fn generic_text(ident: &str) -> (res: String)
    ensures
        res@ == generic_message(ident@),
{
    "`".to_string().concat(ident).concat(
        "` is generic: a generic bean has no single concrete type to register as a const Descriptor row. Register a concrete instantiation with `register_component!(",
    ).concat(ident).concat("<Concrete>)`.")
}

/// The source that registers a bean, or the message for a generic one.
pub open spec fn bean_source(b: Bean) -> Result<Seq<char>, Seq<char>> {
    if b.is_generic {
        Err(generic_message(b.ident))
    } else {
        Ok(filled(BEAN@, bean_slots(b)))
    }
}

/// Pieces of the template, where they stand in it.
#[verifier::spinoff_prover]
#[verifier::rlimit(60)]
proof fn bean_pieces()
    ensures
        BEAN@.len() == 2644,
        BEAN@.subrange(1053, 1228) == "\n            "@ + seq!['#'] + "receiver"@ + ("\n            "@ + seq!['#'] + "resolves"@ + ("\n            let __instance = "@ + seq!['#'] + "construct"@ + ";\n            ::core::result::Result::Ok(::leaf_core::Published::shared_value(__instance))\n"@)),
        !is_name_char(BEAN@[1053]),
        !is_name_char(BEAN@[1228]),
        BEAN@.subrange(38, 107) == " __LEAF_POINTS_"@ + seq!['#'] + "mangled"@ + (": &[::leaf_core::InjectionPoint] = &["@ + seq!['#'] + "points"@ + "];"@),
        !is_name_char(BEAN@[38]),
        !is_name_char(BEAN@[107]),
        BEAN@.subrange(198, 260) == "::leaf_core::InjectionPlan { points: __LEAF_POINTS_"@ + seq!['#'] + "mangled"@ + " };"@,
        !is_name_char(BEAN@[198]),
        !is_name_char(BEAN@[260]),
        BEAN@.subrange(300, 363) == " __LEAF_META_"@ + seq!['#'] + "mangled"@ + (": ::leaf_core::AnnotationMetadata = "@ + seq!['#'] + "meta"@ + ";"@),
        !is_name_char(BEAN@[300]),
        !is_name_char(BEAN@[363]),
        BEAN@.subrange(363, 402) == "\nimpl ::leaf_core::Bean for "@ + seq!['#'] + "self_ty"@ + " {}"@,
        !is_name_char(BEAN@[402]),
        BEAN@.subrange(1440, 1488) == "[::leaf_core::linkme::distributed_slice("@ + seq!['#'] + "slice"@ + ")]"@,
        !is_name_char(BEAN@[1440]),
        !is_name_char(BEAN@[1488]),
        BEAN@.subrange(1589, 1664) == "::leaf_core::Descriptor {\n    contract: "@ + seq!['#'] + "contract"@ + (",\n    self_type: "@ + seq!['#'] + "type_id"@ + ","@),
        !is_name_char(BEAN@[1589]),
        !is_name_char(BEAN@[1664]),
        BEAN@.subrange(1664, 1754) == "\n    provides: "@ + seq!['#'] + "provides"@ + (",\n    declared_name: ::core::option::Option::Some("@ + seq!['#'] + "declared_name"@ + "),"@),
        !is_name_char(BEAN@[1754]),
        BEAN@.subrange(1772, 1808) == "\n    scope: "@ + seq!['#'] + "scope"@ + (",\n    role: "@ + seq!['#'] + "role"@ + ","@),
        !is_name_char(BEAN@[1772]),
        !is_name_char(BEAN@[1808]),
        BEAN@.subrange(1808, 1841) == "\n    meta: &__LEAF_META_"@ + seq!['#'] + "mangled"@ + ","@,
        !is_name_char(BEAN@[1841]),
        BEAN@.subrange(465, 522) == "\nimpl ::leaf_core::Provider for __LeafProvider_"@ + seq!['#'] + "mangled"@ + " {"@,
        !is_name_char(BEAN@[465]),
        !is_name_char(BEAN@[522]),
        BEAN@.subrange(577, 614) == "\n        &__LEAF_DESCRIPTOR_"@ + seq!['#'] + "mangled"@ + "\n"@,
        !is_name_char(BEAN@[577]),
        !is_name_char(BEAN@[614]),
        BEAN@.subrange(1304, 1405) == " __leaf_seed_"@ + seq!['#'] + "mangled"@ + (": ::leaf_core::ProviderSeed = || ::std::sync::Arc::new(__LeafProvider_"@ + seq!['#'] + "mangled"@ + ");"@),
        !is_name_char(BEAN@[1304]),
        !is_name_char(BEAN@[1405]),
        BEAN@.subrange(2052, 2120) == "[::leaf_core::linkme::distributed_slice(::leaf_core::SEED_PAIRINGS)]"@,
        !is_name_char(BEAN@[2052]),
        !is_name_char(BEAN@[2120]),
        BEAN@.subrange(2256, 2313) == "\n    contract: "@ + seq!['#'] + "contract"@ + (",\n    seed: __leaf_seed_"@ + seq!['#'] + "mangled"@ + ","@),
        !is_name_char(BEAN@[2256]),
        !is_name_char(BEAN@[2313]),
        BEAN@.subrange(2351, 2429) == "[::leaf_core::linkme::distributed_slice(::leaf_core::INJECTION_PLAN_PAIRINGS)]"@,
        !is_name_char(BEAN@[2351]),
        !is_name_char(BEAN@[2429]),
        BEAN@.subrange(2583, 2640) == "\n    contract: "@ + seq!['#'] + "contract"@ + (",\n    plan: __LEAF_PLAN_"@ + seq!['#'] + "mangled"@ + ","@),
        !is_name_char(BEAN@[2583]),
        !is_name_char(BEAN@[2640]),
{
    reveal_strlit(
        "#[allow(non_upper_case_globals)]
const __LEAF_POINTS_#mangled: &[::leaf_core::InjectionPoint] = &[#points];
#[allow(non_upper_case_globals)]
const __LEAF_PLAN_#mangled: ::leaf_core::InjectionPlan = ::leaf_core::InjectionPlan { points: __LEAF_POINTS_#mangled };
#[allow(non_upper_case_globals)]
static __LEAF_META_#mangled: ::leaf_core::AnnotationMetadata = #meta;
impl ::leaf_core::Bean for #self_ty {}
#[allow(non_camel_case_types)]
struct __LeafProvider_#mangled;
impl ::leaf_core::Provider for __LeafProvider_#mangled {
    fn descriptor(&self) -> &::leaf_core::Descriptor {
        &__LEAF_DESCRIPTOR_#mangled
    }
    fn provide<'__a>(
        &'__a self,
        __cx: &'__a ::leaf_core::ResolveCtx<'__a>,
    ) -> ::leaf_core::BoxFuture<
        '__a,
        ::core::result::Result<::leaf_core::Published, ::leaf_core::LeafError>,
    > {
        ::std::boxed::Box::pin(async move {
            let __engine = __cx.engine().ok_or_else(|| {
                ::leaf_core::LeafError::new(::leaf_core::ErrorKind::ConstructionFailed)
            })?;
            #receiver
            #resolves
            let __instance = #construct;
            ::core::result::Result::Ok(::leaf_core::Published::shared_value(__instance))
        })
    }
}
#[allow(non_upper_case_globals)]
#[doc(hidden)]
pub const __leaf_seed_#mangled: ::leaf_core::ProviderSeed = || ::std::sync::Arc::new(__LeafProvider_#mangled);
#[allow(non_upper_case_globals)]
#[::leaf_core::linkme::distributed_slice(#slice)]
#[linkme(crate = ::leaf_core::linkme)]
static __LEAF_DESCRIPTOR_#mangled: ::leaf_core::Descriptor = ::leaf_core::Descriptor {
    contract: #contract,
    self_type: #type_id,
    provides: #provides,
    declared_name: ::core::option::Option::Some(#declared_name),
    aliases: &[],
    scope: #scope,
    role: #role,
    meta: &__LEAF_META_#mangled,
    parent: ::core::option::Option::None,
    origin: ::leaf_core::Origin::Native {
        crate_name: ::core::option::Option::Some(::core::env!(\"CARGO_PKG_NAME\")),
    },
};
#[allow(non_upper_case_globals)]
#[::leaf_core::linkme::distributed_slice(::leaf_core::SEED_PAIRINGS)]
#[linkme(crate = ::leaf_core::linkme)]
static __LEAF_SEED_PAIRING_#mangled: ::leaf_core::SeedPairingRow = ::leaf_core::SeedPairingRow {
    contract: #contract,
    seed: __leaf_seed_#mangled,
};
#[allow(non_upper_case_globals)]
#[::leaf_core::linkme::distributed_slice(::leaf_core::INJECTION_PLAN_PAIRINGS)]
#[linkme(crate = ::leaf_core::linkme)]
static __LEAF_PLAN_PAIRING_#mangled: ::leaf_core::InjectionPlanPairingRow = ::leaf_core::InjectionPlanPairingRow {
    contract: #contract,
    plan: __LEAF_PLAN_#mangled,
};
",
    );
    reveal_strlit("\n");
    reveal_strlit("\n            ");
    reveal_strlit("\n            let __instance = ");
    reveal_strlit("\n        &__LEAF_DESCRIPTOR_");
    reveal_strlit("\n    contract: ");
    reveal_strlit("\n    meta: &__LEAF_META_");
    reveal_strlit("\n    provides: ");
    reveal_strlit("\n    scope: ");
    reveal_strlit("\nimpl ::leaf_core::Bean for ");
    reveal_strlit("\nimpl ::leaf_core::Provider for __LeafProvider_");
    reveal_strlit(" __LEAF_META_");
    reveal_strlit(" __LEAF_POINTS_");
    reveal_strlit(" __leaf_seed_");
    reveal_strlit(" {");
    reveal_strlit(" {}");
    reveal_strlit(" };");
    reveal_strlit("),");
    reveal_strlit(");");
    reveal_strlit(")]");
    reveal_strlit(",");
    reveal_strlit(",\n    declared_name: ::core::option::Option::Some(");
    reveal_strlit(",\n    plan: __LEAF_PLAN_");
    reveal_strlit(",\n    role: ");
    reveal_strlit(",\n    seed: __leaf_seed_");
    reveal_strlit(",\n    self_type: ");
    reveal_strlit(": &[::leaf_core::InjectionPoint] = &[");
    reveal_strlit(": ::leaf_core::AnnotationMetadata = ");
    reveal_strlit(": ::leaf_core::ProviderSeed = || ::std::sync::Arc::new(__LeafProvider_");
    reveal_strlit("::leaf_core::Descriptor {\n    contract: ");
    reveal_strlit("::leaf_core::InjectionPlan { points: __LEAF_POINTS_");
    reveal_strlit(";");
    reveal_strlit(";\n            ::core::result::Result::Ok(::leaf_core::Published::shared_value(__instance))\n");
    reveal_strlit("[::leaf_core::linkme::distributed_slice(");
    reveal_strlit("[::leaf_core::linkme::distributed_slice(::leaf_core::INJECTION_PLAN_PAIRINGS)]");
    reveal_strlit("[::leaf_core::linkme::distributed_slice(::leaf_core::SEED_PAIRINGS)]");
    reveal_strlit("];");
    reveal_strlit("construct");
    reveal_strlit("contract");
    reveal_strlit("declared_name");
    reveal_strlit("mangled");
    reveal_strlit("meta");
    reveal_strlit("points");
    reveal_strlit("provides");
    reveal_strlit("receiver");
    reveal_strlit("resolves");
    reveal_strlit("role");
    reveal_strlit("scope");
    reveal_strlit("self_ty");
    reveal_strlit("slice");
    reveal_strlit("type_id");
    assert(BEAN@.subrange(1053, 1228) =~= "\n            "@ + seq!['#'] + "receiver"@ + ("\n            "@ + seq!['#'] + "resolves"@ + ("\n            let __instance = "@ + seq!['#'] + "construct"@ + ";\n            ::core::result::Result::Ok(::leaf_core::Published::shared_value(__instance))\n"@)));
    assert(BEAN@.subrange(38, 107) =~= " __LEAF_POINTS_"@ + seq!['#'] + "mangled"@ + (": &[::leaf_core::InjectionPoint] = &["@ + seq!['#'] + "points"@ + "];"@));
    assert(BEAN@.subrange(198, 260) =~= "::leaf_core::InjectionPlan { points: __LEAF_POINTS_"@ + seq!['#'] + "mangled"@ + " };"@);
    assert(BEAN@.subrange(300, 363) =~= " __LEAF_META_"@ + seq!['#'] + "mangled"@ + (": ::leaf_core::AnnotationMetadata = "@ + seq!['#'] + "meta"@ + ";"@));
    assert(BEAN@.subrange(363, 402) =~= "\nimpl ::leaf_core::Bean for "@ + seq!['#'] + "self_ty"@ + " {}"@);
    assert(BEAN@.subrange(1440, 1488) =~= "[::leaf_core::linkme::distributed_slice("@ + seq!['#'] + "slice"@ + ")]"@);
    assert(BEAN@.subrange(1589, 1664) =~= "::leaf_core::Descriptor {\n    contract: "@ + seq!['#'] + "contract"@ + (",\n    self_type: "@ + seq!['#'] + "type_id"@ + ","@));
    assert(BEAN@.subrange(1664, 1754) =~= "\n    provides: "@ + seq!['#'] + "provides"@ + (",\n    declared_name: ::core::option::Option::Some("@ + seq!['#'] + "declared_name"@ + "),"@));
    assert(BEAN@.subrange(1772, 1808) =~= "\n    scope: "@ + seq!['#'] + "scope"@ + (",\n    role: "@ + seq!['#'] + "role"@ + ","@));
    assert(BEAN@.subrange(1808, 1841) =~= "\n    meta: &__LEAF_META_"@ + seq!['#'] + "mangled"@ + ","@);
    assert(BEAN@.subrange(465, 522) =~= "\nimpl ::leaf_core::Provider for __LeafProvider_"@ + seq!['#'] + "mangled"@ + " {"@);
    assert(BEAN@.subrange(577, 614) =~= "\n        &__LEAF_DESCRIPTOR_"@ + seq!['#'] + "mangled"@ + "\n"@);
    assert(BEAN@.subrange(1304, 1405) =~= " __leaf_seed_"@ + seq!['#'] + "mangled"@ + (": ::leaf_core::ProviderSeed = || ::std::sync::Arc::new(__LeafProvider_"@ + seq!['#'] + "mangled"@ + ");"@));
    assert(BEAN@.subrange(2052, 2120) =~= "[::leaf_core::linkme::distributed_slice(::leaf_core::SEED_PAIRINGS)]"@);
    assert(BEAN@.subrange(2256, 2313) =~= "\n    contract: "@ + seq!['#'] + "contract"@ + (",\n    seed: __leaf_seed_"@ + seq!['#'] + "mangled"@ + ","@));
    assert(BEAN@.subrange(2351, 2429) =~= "[::leaf_core::linkme::distributed_slice(::leaf_core::INJECTION_PLAN_PAIRINGS)]"@);
    assert(BEAN@.subrange(2583, 2640) =~= "\n    contract: "@ + seq!['#'] + "contract"@ + (",\n    plan: __LEAF_PLAN_"@ + seq!['#'] + "mangled"@ + ","@));
}

/// What the slots of the template hold.
proof fn bean_slots_are_found(b: Bean)
    ensures
        ({
            let slots = bean_slots(b);
            &&& slot_text(slots, "receiver"@) == Some(receiver_source(b))
            &&& slot_text(slots, "resolves"@) == Some(each_followed(resolve_sources(b.deps, b.inject_via_trait), " "@))
            &&& slot_text(slots, "construct"@) == Some(construct_source(b))
            &&& slot_text(slots, "mangled"@) == Some(mangled(b.ident))
            &&& slot_text(slots, "points"@) == Some(join(point_sources(b.deps, b.inject_via_trait), ", "@))
            &&& slot_text(slots, "meta"@) == Some(metadata_source(b.meta))
            &&& slot_text(slots, "self_ty"@) == Some(b.self_ty)
            &&& slot_text(slots, "slice"@) == Some(slice_source(b.slice))
            &&& slot_text(slots, "contract"@) == Some(bean_contract(b))
            &&& slot_text(slots, "type_id"@) == Some(type_id_source(b.self_ty))
            &&& slot_text(slots, "provides"@) == Some(provides_source(b.provides))
            &&& slot_text(slots, "declared_name"@) == Some(literal_source(declared_name(b)))
            &&& slot_text(slots, "scope"@) == Some(scope_source(b.scope))
            &&& slot_text(slots, "role"@) == Some(role_source(b.role))
        }),
{
    reveal_strlit("mangled");
    reveal_strlit("points");
    reveal_strlit("meta");
    reveal_strlit("self_ty");
    reveal_strlit("receiver");
    reveal_strlit("resolves");
    reveal_strlit("construct");
    reveal_strlit("slice");
    reveal_strlit("contract");
    reveal_strlit("type_id");
    reveal_strlit("provides");
    reveal_strlit("declared_name");
    reveal_strlit("scope");
    reveal_strlit("role");
    let slots = bean_slots(b);
    assert("mangled"@.len() != "receiver"@.len());
    assert("points"@.len() != "receiver"@.len());
    assert("meta"@.len() != "receiver"@.len());
    assert("self_ty"@.len() != "receiver"@.len());
    slot_at(slots, 4);
    assert("mangled"@.len() != "resolves"@.len());
    assert("points"@.len() != "resolves"@.len());
    assert("meta"@.len() != "resolves"@.len());
    assert("self_ty"@.len() != "resolves"@.len());
    assert("receiver"@[2] != "resolves"@[2]);
    slot_at(slots, 5);
    assert("mangled"@.len() != "construct"@.len());
    assert("points"@.len() != "construct"@.len());
    assert("meta"@.len() != "construct"@.len());
    assert("self_ty"@.len() != "construct"@.len());
    assert("receiver"@.len() != "construct"@.len());
    assert("resolves"@.len() != "construct"@.len());
    slot_at(slots, 6);
    slot_at(slots, 0);
    assert("mangled"@.len() != "points"@.len());
    slot_at(slots, 1);
    assert("mangled"@.len() != "meta"@.len());
    assert("points"@.len() != "meta"@.len());
    slot_at(slots, 2);
    assert("mangled"@[0] != "self_ty"@[0]);
    assert("points"@.len() != "self_ty"@.len());
    assert("meta"@.len() != "self_ty"@.len());
    slot_at(slots, 3);
    assert("mangled"@.len() != "slice"@.len());
    assert("points"@.len() != "slice"@.len());
    assert("meta"@.len() != "slice"@.len());
    assert("self_ty"@.len() != "slice"@.len());
    assert("receiver"@.len() != "slice"@.len());
    assert("resolves"@.len() != "slice"@.len());
    assert("construct"@.len() != "slice"@.len());
    slot_at(slots, 7);
    assert("mangled"@.len() != "contract"@.len());
    assert("points"@.len() != "contract"@.len());
    assert("meta"@.len() != "contract"@.len());
    assert("self_ty"@.len() != "contract"@.len());
    assert("receiver"@[0] != "contract"@[0]);
    assert("resolves"@[0] != "contract"@[0]);
    assert("construct"@.len() != "contract"@.len());
    assert("slice"@.len() != "contract"@.len());
    slot_at(slots, 8);
    assert("mangled"@[0] != "type_id"@[0]);
    assert("points"@.len() != "type_id"@.len());
    assert("meta"@.len() != "type_id"@.len());
    assert("self_ty"@[0] != "type_id"@[0]);
    assert("receiver"@.len() != "type_id"@.len());
    assert("resolves"@.len() != "type_id"@.len());
    assert("construct"@.len() != "type_id"@.len());
    assert("slice"@.len() != "type_id"@.len());
    assert("contract"@.len() != "type_id"@.len());
    slot_at(slots, 9);
    assert("mangled"@.len() != "provides"@.len());
    assert("points"@.len() != "provides"@.len());
    assert("meta"@.len() != "provides"@.len());
    assert("self_ty"@.len() != "provides"@.len());
    assert("receiver"@[0] != "provides"@[0]);
    assert("resolves"@[0] != "provides"@[0]);
    assert("construct"@.len() != "provides"@.len());
    assert("slice"@.len() != "provides"@.len());
    assert("contract"@[0] != "provides"@[0]);
    assert("type_id"@.len() != "provides"@.len());
    slot_at(slots, 10);
    assert("mangled"@.len() != "declared_name"@.len());
    assert("points"@.len() != "declared_name"@.len());
    assert("meta"@.len() != "declared_name"@.len());
    assert("self_ty"@.len() != "declared_name"@.len());
    assert("receiver"@.len() != "declared_name"@.len());
    assert("resolves"@.len() != "declared_name"@.len());
    assert("construct"@.len() != "declared_name"@.len());
    assert("slice"@.len() != "declared_name"@.len());
    assert("contract"@.len() != "declared_name"@.len());
    assert("type_id"@.len() != "declared_name"@.len());
    assert("provides"@.len() != "declared_name"@.len());
    slot_at(slots, 11);
    assert("mangled"@.len() != "scope"@.len());
    assert("points"@.len() != "scope"@.len());
    assert("meta"@.len() != "scope"@.len());
    assert("self_ty"@.len() != "scope"@.len());
    assert("receiver"@.len() != "scope"@.len());
    assert("resolves"@.len() != "scope"@.len());
    assert("construct"@.len() != "scope"@.len());
    assert("slice"@[1] != "scope"@[1]);
    assert("contract"@.len() != "scope"@.len());
    assert("type_id"@.len() != "scope"@.len());
    assert("provides"@.len() != "scope"@.len());
    assert("declared_name"@.len() != "scope"@.len());
    slot_at(slots, 12);
    assert("mangled"@.len() != "role"@.len());
    assert("points"@.len() != "role"@.len());
    assert("meta"@[0] != "role"@[0]);
    assert("self_ty"@.len() != "role"@.len());
    assert("receiver"@.len() != "role"@.len());
    assert("resolves"@.len() != "role"@.len());
    assert("construct"@.len() != "role"@.len());
    assert("slice"@.len() != "role"@.len());
    assert("contract"@.len() != "role"@.len());
    assert("type_id"@.len() != "role"@.len());
    assert("provides"@.len() != "role"@.len());
    assert("declared_name"@.len() != "role"@.len());
    assert("scope"@.len() != "role"@.len());
    slot_at(slots, 13);
}

/// A bean is made behind what it is made from: first the bean whose method makes it is got, then
/// the dependencies, then the instance is made and published.
#[verifier::spinoff_prover]
#[verifier::rlimit(60)]
pub proof fn bean_is_made_last(b: Bean)
    requires
        !b.is_generic,
    ensures
        stands_in(
            "\n            "@ + receiver_source(b) + "\n            "@ + each_followed(resolve_sources(b.deps, b.inject_via_trait), " "@) + "\n            let __instance = "@ + construct_source(b) + ";\n            ::core::result::Result::Ok(::leaf_core::Published::shared_value(__instance))\n"@,
            bean_source(b)->Ok_0,
        ),
{
    bean_pieces();
    bean_slots_are_found(b);
    let t = BEAN@;
    let slots = bean_slots(b);
    assert(stands_in("\n            "@ + receiver_source(b) + "\n            "@ + each_followed(resolve_sources(b.deps, b.inject_via_trait), " "@) + "\n            let __instance = "@ + construct_source(b) + ";\n            ::core::result::Result::Ok(::leaf_core::Published::shared_value(__instance))\n"@,bean_source(b)->Ok_0)) by {
        reveal_strlit("construct");
        reveal_strlit("receiver");
        reveal_strlit("resolves");
        reveal_strlit("\n            ");
        reveal_strlit("\n            let __instance = ");
        reveal_strlit(";\n            ::core::result::Result::Ok(::leaf_core::Published::shared_value(__instance))\n");
        let p3 = ";\n            ::core::result::Result::Ok(::leaf_core::Published::shared_value(__instance))\n"@;
        let p2 = "\n            let __instance = "@ + seq!['#'] + "construct"@ + p3;
        let p1 = "\n            "@ + seq!['#'] + "resolves"@ + p2;
        let p0 = "\n            "@ + seq!['#'] + "receiver"@ + p1;
        filled_plain(p3, slots);
        filled_step("\n            let __instance = "@, "construct"@, p3, slots);
        filled_step("\n            "@, "resolves"@, p2, slots);
        filled_step("\n            "@, "receiver"@, p1, slots);
        filled_part(t, 1053, 1228, slots);
        assert(("\n            "@ + receiver_source(b) + ("\n            "@ + each_followed(resolve_sources(b.deps, b.inject_via_trait), " "@) + ("\n            let __instance = "@ + construct_source(b) + ";\n            ::core::result::Result::Ok(::leaf_core::Published::shared_value(__instance))\n"@))) =~= "\n            "@ + receiver_source(b) + "\n            "@ + each_followed(resolve_sources(b.deps, b.inject_via_trait), " "@) + "\n            let __instance = "@ + construct_source(b) + ";\n            ::core::result::Result::Ok(::leaf_core::Published::shared_value(__instance))\n"@);
    }
}

/// The points at which a bean is injected are those of its plan, and its markers are its own.
#[verifier::spinoff_prover]
#[verifier::rlimit(60)]
pub proof fn bean_has_its_plan(b: Bean)
    requires
        !b.is_generic,
    ensures
        stands_in(
            " __LEAF_POINTS_"@ + mangled(b.ident) + ": &[::leaf_core::InjectionPoint] = &["@ + join(point_sources(b.deps, b.inject_via_trait), ", "@) + "];"@,
            bean_source(b)->Ok_0,
        ),
        stands_in(
            "::leaf_core::InjectionPlan { points: __LEAF_POINTS_"@ + mangled(b.ident) + " };"@,
            bean_source(b)->Ok_0,
        ),
        stands_in(
            " __LEAF_META_"@ + mangled(b.ident) + ": ::leaf_core::AnnotationMetadata = "@ + metadata_source(b.meta) + ";"@,
            bean_source(b)->Ok_0,
        ),
        stands_in(
            "\nimpl ::leaf_core::Bean for "@ + b.self_ty + " {}"@,
            bean_source(b)->Ok_0,
        ),
{
    bean_pieces();
    bean_slots_are_found(b);
    let t = BEAN@;
    let slots = bean_slots(b);
    assert(stands_in(" __LEAF_POINTS_"@ + mangled(b.ident) + ": &[::leaf_core::InjectionPoint] = &["@ + join(point_sources(b.deps, b.inject_via_trait), ", "@) + "];"@,bean_source(b)->Ok_0)) by {
        reveal_strlit("mangled");
        reveal_strlit("points");
        reveal_strlit(" __LEAF_POINTS_");
        reveal_strlit(": &[::leaf_core::InjectionPoint] = &[");
        reveal_strlit("];");
        let p2 = "];"@;
        let p1 = ": &[::leaf_core::InjectionPoint] = &["@ + seq!['#'] + "points"@ + p2;
        let p0 = " __LEAF_POINTS_"@ + seq!['#'] + "mangled"@ + p1;
        filled_plain(p2, slots);
        filled_step(": &[::leaf_core::InjectionPoint] = &["@, "points"@, p2, slots);
        filled_step(" __LEAF_POINTS_"@, "mangled"@, p1, slots);
        filled_part(t, 38, 107, slots);
        assert((" __LEAF_POINTS_"@ + mangled(b.ident) + (": &[::leaf_core::InjectionPoint] = &["@ + join(point_sources(b.deps, b.inject_via_trait), ", "@) + "];"@)) =~= " __LEAF_POINTS_"@ + mangled(b.ident) + ": &[::leaf_core::InjectionPoint] = &["@ + join(point_sources(b.deps, b.inject_via_trait), ", "@) + "];"@);
    }
    assert(stands_in("::leaf_core::InjectionPlan { points: __LEAF_POINTS_"@ + mangled(b.ident) + " };"@,bean_source(b)->Ok_0)) by {
        reveal_strlit("mangled");
        reveal_strlit(" };");
        reveal_strlit("::leaf_core::InjectionPlan { points: __LEAF_POINTS_");
        let p1 = " };"@;
        let p0 = "::leaf_core::InjectionPlan { points: __LEAF_POINTS_"@ + seq!['#'] + "mangled"@ + p1;
        filled_plain(p1, slots);
        filled_step("::leaf_core::InjectionPlan { points: __LEAF_POINTS_"@, "mangled"@, p1, slots);
        filled_part(t, 198, 260, slots);
        assert(("::leaf_core::InjectionPlan { points: __LEAF_POINTS_"@ + mangled(b.ident) + " };"@) =~= "::leaf_core::InjectionPlan { points: __LEAF_POINTS_"@ + mangled(b.ident) + " };"@);
    }
    assert(stands_in(" __LEAF_META_"@ + mangled(b.ident) + ": ::leaf_core::AnnotationMetadata = "@ + metadata_source(b.meta) + ";"@,bean_source(b)->Ok_0)) by {
        reveal_strlit("mangled");
        reveal_strlit("meta");
        reveal_strlit(" __LEAF_META_");
        reveal_strlit(": ::leaf_core::AnnotationMetadata = ");
        reveal_strlit(";");
        let p2 = ";"@;
        let p1 = ": ::leaf_core::AnnotationMetadata = "@ + seq!['#'] + "meta"@ + p2;
        let p0 = " __LEAF_META_"@ + seq!['#'] + "mangled"@ + p1;
        filled_plain(p2, slots);
        filled_step(": ::leaf_core::AnnotationMetadata = "@, "meta"@, p2, slots);
        filled_step(" __LEAF_META_"@, "mangled"@, p1, slots);
        filled_part(t, 300, 363, slots);
        assert((" __LEAF_META_"@ + mangled(b.ident) + (": ::leaf_core::AnnotationMetadata = "@ + metadata_source(b.meta) + ";"@)) =~= " __LEAF_META_"@ + mangled(b.ident) + ": ::leaf_core::AnnotationMetadata = "@ + metadata_source(b.meta) + ";"@);
    }
    assert(stands_in("\nimpl ::leaf_core::Bean for "@ + b.self_ty + " {}"@,bean_source(b)->Ok_0)) by {
        reveal_strlit("self_ty");
        reveal_strlit("\nimpl ::leaf_core::Bean for ");
        reveal_strlit(" {}");
        let p1 = " {}"@;
        let p0 = "\nimpl ::leaf_core::Bean for "@ + seq!['#'] + "self_ty"@ + p1;
        filled_plain(p1, slots);
        filled_step("\nimpl ::leaf_core::Bean for "@, "self_ty"@, p1, slots);
        filled_part(t, 363, 402, slots);
        assert(("\nimpl ::leaf_core::Bean for "@ + b.self_ty + " {}"@) =~= "\nimpl ::leaf_core::Bean for "@ + b.self_ty + " {}"@);
    }
}

/// The row of a bean says what is known of it, each in the field of that name, and stands in the
/// slice of the bean.
#[verifier::spinoff_prover]
#[verifier::rlimit(60)]
pub proof fn bean_row_says_what_is_known(b: Bean)
    requires
        !b.is_generic,
    ensures
        stands_in(
            "[::leaf_core::linkme::distributed_slice("@ + slice_source(b.slice) + ")]"@,
            bean_source(b)->Ok_0,
        ),
        stands_in(
            "::leaf_core::Descriptor {\n    contract: "@ + bean_contract(b) + ",\n    self_type: "@ + type_id_source(b.self_ty) + ","@,
            bean_source(b)->Ok_0,
        ),
        stands_in(
            "\n    provides: "@ + provides_source(b.provides) + ",\n    declared_name: ::core::option::Option::Some("@ + literal_source(declared_name(b)) + "),"@,
            bean_source(b)->Ok_0,
        ),
        stands_in(
            "\n    scope: "@ + scope_source(b.scope) + ",\n    role: "@ + role_source(b.role) + ","@,
            bean_source(b)->Ok_0,
        ),
        stands_in(
            "\n    meta: &__LEAF_META_"@ + mangled(b.ident) + ","@,
            bean_source(b)->Ok_0,
        ),
{
    bean_pieces();
    bean_slots_are_found(b);
    let t = BEAN@;
    let slots = bean_slots(b);
    assert(stands_in("[::leaf_core::linkme::distributed_slice("@ + slice_source(b.slice) + ")]"@,bean_source(b)->Ok_0)) by {
        reveal_strlit("slice");
        reveal_strlit(")]");
        reveal_strlit("[::leaf_core::linkme::distributed_slice(");
        let p1 = ")]"@;
        let p0 = "[::leaf_core::linkme::distributed_slice("@ + seq!['#'] + "slice"@ + p1;
        filled_plain(p1, slots);
        filled_step("[::leaf_core::linkme::distributed_slice("@, "slice"@, p1, slots);
        filled_part(t, 1440, 1488, slots);
        assert(("[::leaf_core::linkme::distributed_slice("@ + slice_source(b.slice) + ")]"@) =~= "[::leaf_core::linkme::distributed_slice("@ + slice_source(b.slice) + ")]"@);
    }
    assert(stands_in("::leaf_core::Descriptor {\n    contract: "@ + bean_contract(b) + ",\n    self_type: "@ + type_id_source(b.self_ty) + ","@,bean_source(b)->Ok_0)) by {
        reveal_strlit("contract");
        reveal_strlit("type_id");
        reveal_strlit(",");
        reveal_strlit(",\n    self_type: ");
        reveal_strlit("::leaf_core::Descriptor {\n    contract: ");
        let p2 = ","@;
        let p1 = ",\n    self_type: "@ + seq!['#'] + "type_id"@ + p2;
        let p0 = "::leaf_core::Descriptor {\n    contract: "@ + seq!['#'] + "contract"@ + p1;
        filled_plain(p2, slots);
        filled_step(",\n    self_type: "@, "type_id"@, p2, slots);
        filled_step("::leaf_core::Descriptor {\n    contract: "@, "contract"@, p1, slots);
        filled_part(t, 1589, 1664, slots);
        assert(("::leaf_core::Descriptor {\n    contract: "@ + bean_contract(b) + (",\n    self_type: "@ + type_id_source(b.self_ty) + ","@)) =~= "::leaf_core::Descriptor {\n    contract: "@ + bean_contract(b) + ",\n    self_type: "@ + type_id_source(b.self_ty) + ","@);
    }
    assert(stands_in("\n    provides: "@ + provides_source(b.provides) + ",\n    declared_name: ::core::option::Option::Some("@ + literal_source(declared_name(b)) + "),"@,bean_source(b)->Ok_0)) by {
        reveal_strlit("declared_name");
        reveal_strlit("provides");
        reveal_strlit("\n    provides: ");
        reveal_strlit("),");
        reveal_strlit(",\n    declared_name: ::core::option::Option::Some(");
        let p2 = "),"@;
        let p1 = ",\n    declared_name: ::core::option::Option::Some("@ + seq!['#'] + "declared_name"@ + p2;
        let p0 = "\n    provides: "@ + seq!['#'] + "provides"@ + p1;
        filled_plain(p2, slots);
        filled_step(",\n    declared_name: ::core::option::Option::Some("@, "declared_name"@, p2, slots);
        filled_step("\n    provides: "@, "provides"@, p1, slots);
        filled_part(t, 1664, 1754, slots);
        assert(("\n    provides: "@ + provides_source(b.provides) + (",\n    declared_name: ::core::option::Option::Some("@ + literal_source(declared_name(b)) + "),"@)) =~= "\n    provides: "@ + provides_source(b.provides) + ",\n    declared_name: ::core::option::Option::Some("@ + literal_source(declared_name(b)) + "),"@);
    }
    assert(stands_in("\n    scope: "@ + scope_source(b.scope) + ",\n    role: "@ + role_source(b.role) + ","@,bean_source(b)->Ok_0)) by {
        reveal_strlit("role");
        reveal_strlit("scope");
        reveal_strlit("\n    scope: ");
        reveal_strlit(",");
        reveal_strlit(",\n    role: ");
        let p2 = ","@;
        let p1 = ",\n    role: "@ + seq!['#'] + "role"@ + p2;
        let p0 = "\n    scope: "@ + seq!['#'] + "scope"@ + p1;
        filled_plain(p2, slots);
        filled_step(",\n    role: "@, "role"@, p2, slots);
        filled_step("\n    scope: "@, "scope"@, p1, slots);
        filled_part(t, 1772, 1808, slots);
        assert(("\n    scope: "@ + scope_source(b.scope) + (",\n    role: "@ + role_source(b.role) + ","@)) =~= "\n    scope: "@ + scope_source(b.scope) + ",\n    role: "@ + role_source(b.role) + ","@);
    }
    assert(stands_in("\n    meta: &__LEAF_META_"@ + mangled(b.ident) + ","@,bean_source(b)->Ok_0)) by {
        reveal_strlit("mangled");
        reveal_strlit("\n    meta: &__LEAF_META_");
        reveal_strlit(",");
        let p1 = ","@;
        let p0 = "\n    meta: &__LEAF_META_"@ + seq!['#'] + "mangled"@ + p1;
        filled_plain(p1, slots);
        filled_step("\n    meta: &__LEAF_META_"@, "mangled"@, p1, slots);
        filled_part(t, 1808, 1841, slots);
        assert(("\n    meta: &__LEAF_META_"@ + mangled(b.ident) + ","@) =~= "\n    meta: &__LEAF_META_"@ + mangled(b.ident) + ","@);
    }
}

/// The provider of a bean and its plan are paired with the contract of the bean.
#[verifier::spinoff_prover]
#[verifier::rlimit(60)]
pub proof fn bean_is_paired_with_its_provider(b: Bean)
    requires
        !b.is_generic,
    ensures
        stands_in(
            "\nimpl ::leaf_core::Provider for __LeafProvider_"@ + mangled(b.ident) + " {"@,
            bean_source(b)->Ok_0,
        ),
        stands_in(
            "\n        &__LEAF_DESCRIPTOR_"@ + mangled(b.ident) + "\n"@,
            bean_source(b)->Ok_0,
        ),
        stands_in(
            " __leaf_seed_"@ + mangled(b.ident) + ": ::leaf_core::ProviderSeed = || ::std::sync::Arc::new(__LeafProvider_"@ + mangled(b.ident) + ");"@,
            bean_source(b)->Ok_0,
        ),
        stands_in(
            "[::leaf_core::linkme::distributed_slice(::leaf_core::SEED_PAIRINGS)]"@,
            bean_source(b)->Ok_0,
        ),
        stands_in(
            "\n    contract: "@ + bean_contract(b) + ",\n    seed: __leaf_seed_"@ + mangled(b.ident) + ","@,
            bean_source(b)->Ok_0,
        ),
        stands_in(
            "[::leaf_core::linkme::distributed_slice(::leaf_core::INJECTION_PLAN_PAIRINGS)]"@,
            bean_source(b)->Ok_0,
        ),
        stands_in(
            "\n    contract: "@ + bean_contract(b) + ",\n    plan: __LEAF_PLAN_"@ + mangled(b.ident) + ","@,
            bean_source(b)->Ok_0,
        ),
{
    bean_pieces();
    bean_slots_are_found(b);
    let t = BEAN@;
    let slots = bean_slots(b);
    assert(stands_in("\nimpl ::leaf_core::Provider for __LeafProvider_"@ + mangled(b.ident) + " {"@,bean_source(b)->Ok_0)) by {
        reveal_strlit("mangled");
        reveal_strlit("\nimpl ::leaf_core::Provider for __LeafProvider_");
        reveal_strlit(" {");
        let p1 = " {"@;
        let p0 = "\nimpl ::leaf_core::Provider for __LeafProvider_"@ + seq!['#'] + "mangled"@ + p1;
        filled_plain(p1, slots);
        filled_step("\nimpl ::leaf_core::Provider for __LeafProvider_"@, "mangled"@, p1, slots);
        filled_part(t, 465, 522, slots);
        assert(("\nimpl ::leaf_core::Provider for __LeafProvider_"@ + mangled(b.ident) + " {"@) =~= "\nimpl ::leaf_core::Provider for __LeafProvider_"@ + mangled(b.ident) + " {"@);
    }
    assert(stands_in("\n        &__LEAF_DESCRIPTOR_"@ + mangled(b.ident) + "\n"@,bean_source(b)->Ok_0)) by {
        reveal_strlit("mangled");
        reveal_strlit("\n");
        reveal_strlit("\n        &__LEAF_DESCRIPTOR_");
        let p1 = "\n"@;
        let p0 = "\n        &__LEAF_DESCRIPTOR_"@ + seq!['#'] + "mangled"@ + p1;
        filled_plain(p1, slots);
        filled_step("\n        &__LEAF_DESCRIPTOR_"@, "mangled"@, p1, slots);
        filled_part(t, 577, 614, slots);
        assert(("\n        &__LEAF_DESCRIPTOR_"@ + mangled(b.ident) + "\n"@) =~= "\n        &__LEAF_DESCRIPTOR_"@ + mangled(b.ident) + "\n"@);
    }
    assert(stands_in(" __leaf_seed_"@ + mangled(b.ident) + ": ::leaf_core::ProviderSeed = || ::std::sync::Arc::new(__LeafProvider_"@ + mangled(b.ident) + ");"@,bean_source(b)->Ok_0)) by {
        reveal_strlit("mangled");
        reveal_strlit(" __leaf_seed_");
        reveal_strlit(");");
        reveal_strlit(": ::leaf_core::ProviderSeed = || ::std::sync::Arc::new(__LeafProvider_");
        let p2 = ");"@;
        let p1 = ": ::leaf_core::ProviderSeed = || ::std::sync::Arc::new(__LeafProvider_"@ + seq!['#'] + "mangled"@ + p2;
        let p0 = " __leaf_seed_"@ + seq!['#'] + "mangled"@ + p1;
        filled_plain(p2, slots);
        filled_step(": ::leaf_core::ProviderSeed = || ::std::sync::Arc::new(__LeafProvider_"@, "mangled"@, p2, slots);
        filled_step(" __leaf_seed_"@, "mangled"@, p1, slots);
        filled_part(t, 1304, 1405, slots);
        assert((" __leaf_seed_"@ + mangled(b.ident) + (": ::leaf_core::ProviderSeed = || ::std::sync::Arc::new(__LeafProvider_"@ + mangled(b.ident) + ");"@)) =~= " __leaf_seed_"@ + mangled(b.ident) + ": ::leaf_core::ProviderSeed = || ::std::sync::Arc::new(__LeafProvider_"@ + mangled(b.ident) + ");"@);
    }
    assert(stands_in("[::leaf_core::linkme::distributed_slice(::leaf_core::SEED_PAIRINGS)]"@,bean_source(b)->Ok_0)) by {
        reveal_strlit("[::leaf_core::linkme::distributed_slice(::leaf_core::SEED_PAIRINGS)]");
        let p0 = "[::leaf_core::linkme::distributed_slice(::leaf_core::SEED_PAIRINGS)]"@;
        filled_plain(p0, slots);
        filled_part(t, 2052, 2120, slots);
        assert("[::leaf_core::linkme::distributed_slice(::leaf_core::SEED_PAIRINGS)]"@ =~= "[::leaf_core::linkme::distributed_slice(::leaf_core::SEED_PAIRINGS)]"@);
    }
    assert(stands_in("\n    contract: "@ + bean_contract(b) + ",\n    seed: __leaf_seed_"@ + mangled(b.ident) + ","@,bean_source(b)->Ok_0)) by {
        reveal_strlit("contract");
        reveal_strlit("mangled");
        reveal_strlit("\n    contract: ");
        reveal_strlit(",");
        reveal_strlit(",\n    seed: __leaf_seed_");
        let p2 = ","@;
        let p1 = ",\n    seed: __leaf_seed_"@ + seq!['#'] + "mangled"@ + p2;
        let p0 = "\n    contract: "@ + seq!['#'] + "contract"@ + p1;
        filled_plain(p2, slots);
        filled_step(",\n    seed: __leaf_seed_"@, "mangled"@, p2, slots);
        filled_step("\n    contract: "@, "contract"@, p1, slots);
        filled_part(t, 2256, 2313, slots);
        assert(("\n    contract: "@ + bean_contract(b) + (",\n    seed: __leaf_seed_"@ + mangled(b.ident) + ","@)) =~= "\n    contract: "@ + bean_contract(b) + ",\n    seed: __leaf_seed_"@ + mangled(b.ident) + ","@);
    }
    assert(stands_in("[::leaf_core::linkme::distributed_slice(::leaf_core::INJECTION_PLAN_PAIRINGS)]"@,bean_source(b)->Ok_0)) by {
        reveal_strlit("[::leaf_core::linkme::distributed_slice(::leaf_core::INJECTION_PLAN_PAIRINGS)]");
        let p0 = "[::leaf_core::linkme::distributed_slice(::leaf_core::INJECTION_PLAN_PAIRINGS)]"@;
        filled_plain(p0, slots);
        filled_part(t, 2351, 2429, slots);
        assert("[::leaf_core::linkme::distributed_slice(::leaf_core::INJECTION_PLAN_PAIRINGS)]"@ =~= "[::leaf_core::linkme::distributed_slice(::leaf_core::INJECTION_PLAN_PAIRINGS)]"@);
    }
    assert(stands_in("\n    contract: "@ + bean_contract(b) + ",\n    plan: __LEAF_PLAN_"@ + mangled(b.ident) + ","@,bean_source(b)->Ok_0)) by {
        reveal_strlit("contract");
        reveal_strlit("mangled");
        reveal_strlit("\n    contract: ");
        reveal_strlit(",");
        reveal_strlit(",\n    plan: __LEAF_PLAN_");
        let p2 = ","@;
        let p1 = ",\n    plan: __LEAF_PLAN_"@ + seq!['#'] + "mangled"@ + p2;
        let p0 = "\n    contract: "@ + seq!['#'] + "contract"@ + p1;
        filled_plain(p2, slots);
        filled_step(",\n    plan: __LEAF_PLAN_"@, "mangled"@, p2, slots);
        filled_step("\n    contract: "@, "contract"@, p1, slots);
        filled_part(t, 2583, 2640, slots);
        assert(("\n    contract: "@ + bean_contract(b) + (",\n    plan: __LEAF_PLAN_"@ + mangled(b.ident) + ","@)) =~= "\n    contract: "@ + bean_contract(b) + ",\n    plan: __LEAF_PLAN_"@ + mangled(b.ident) + ","@);
    }
}

/// Prints the registration of a bean.
pub fn emit(input: &BeanInput) -> (res: Result<String, EmitError>)
    ensures
        told(res) == bean_source(input@),
{
    if input.is_generic {
        return error(generic_text(input.ident.as_str()));
    }
    let name = match &input.explicit_name {
        Some(name) => name.clone(),
        None => derive_default_name(input.ident.as_str()),
    };
    let deps = dep_texts(&input.deps, input.inject_via_trait);
    let slots = Slots::new().with("mangled", mangle(input.ident.as_str()).as_str()).with(
        "points",
        join_texts(deps.points.as_slice(), ", ").as_str(),
    ).with("meta", input.meta.lower().as_str()).with("self_ty", input.self_ty.as_str()).with(
        "receiver",
        receiver_text(input).as_str(),
    ).with("resolves", follow_each(deps.resolves.as_slice(), " ").as_str()).with(
        "construct",
        construct_text(input, &deps).as_str(),
    ).with("slice", input.slice.tokens()).with("contract", emit_contract(input).as_str()).with(
        "type_id",
        type_id_text(input.self_ty.as_str()).as_str(),
    ).with("provides", emit_provides(&input.provides).as_str()).with(
        "declared_name",
        string_literal(name.as_str()).as_str(),
    ).with("scope", input.scope.tokens()).with("role", input.role.tokens());
    Ok(slots.fill(BEAN))
}

} // verus!
