//! Items of source: what is read of structs, functions and impl blocks.
use vstd::prelude::*;

verus! {

/// An attribute on an item.
#[derive(Clone, Debug, PartialEq, Eq)]
pub struct Attr {
    /// The source.
    pub source: String,
    /// The path, where it is no more than an identifier.
    pub ident: Option<String>,
    /// The last segment of the path.
    pub last: String,
    /// The source of the arguments, where there are brackets round them.
    pub args: Option<String>,
}

/// A field of a struct.
#[derive(Clone, Debug, PartialEq, Eq)]
pub struct Field {
    /// The name; empty where the field has none.
    pub ident: String,
    /// The type.
    pub ty: String,
    /// The attributes.
    pub attrs: Vec<Attr>,
}

/// The fields of a struct.
#[derive(Clone, Debug, PartialEq, Eq)]
pub enum Fields {
    /// With names.
    Named(Vec<Field>),
    /// Without names.
    Unnamed(Vec<Field>),
    /// None.
    Unit,
}

/// A struct.
#[derive(Clone, Debug, PartialEq, Eq)]
pub struct StructItem {
    /// The source.
    pub source: String,
    /// The name.
    pub ident: String,
    /// Whether there are generic parameters.
    pub generic: bool,
    /// Whether there is a `where` clause.
    pub has_where: bool,
    /// The generics behind `impl`.
    pub impl_generics: String,
    /// The generics behind the name.
    pub type_generics: String,
    /// The `where` clause.
    pub where_clause: String,
    /// The fields.
    pub fields: Fields,
}

/// What a derive is applied to.
#[derive(Clone, Debug, PartialEq, Eq)]
pub struct DeriveItem {
    /// The name.
    pub ident: String,
    /// Whether there are generic parameters.
    pub generic: bool,
    /// The fields, where it is a struct.
    pub fields: Option<Fields>,
}

/// A parameter of a function.
#[derive(Clone, Debug, PartialEq, Eq)]
pub enum Param {
    /// `self`, in any form.
    Receiver,
    /// Any other: the name, where the pattern is no more than that, and the type.
    Typed {
        /// The name.
        name: Option<String>,
        /// The type.
        ty: String,
    },
}

/// A function.
#[derive(Clone, Debug, PartialEq, Eq)]
pub struct FnItem {
    /// The source.
    pub source: String,
    /// The name.
    pub ident: String,
    /// Whether there are generic parameters.
    pub generic: bool,
    /// The parameters.
    pub params: Vec<Param>,
    /// The type of the result, where one is given.
    pub output: Option<String>,
}

/// A method in an impl block.
#[derive(Clone, Debug, PartialEq, Eq)]
pub struct MethodItem {
    /// The name.
    pub ident: String,
    /// Whether there are generic parameters.
    pub generic: bool,
    /// The attributes.
    pub attrs: Vec<Attr>,
    /// The parameters.
    pub params: Vec<Param>,
    /// The type of the result, where one is given.
    pub output: Option<String>,
    /// The methods that the body calls on `self`, in the order in which it does.
    pub self_calls: Vec<String>,
}

/// A path.
#[derive(Clone, Debug, PartialEq, Eq)]
pub struct PathItem {
    /// Whether it begins with `::`.
    pub leading_colon: bool,
    /// The segments in front of the last.
    pub parents: Vec<String>,
    /// The identifier of the last segment.
    pub last: String,
}

/// An impl block.
#[derive(Clone, Debug, PartialEq, Eq)]
pub struct ImplItem {
    /// Whether there are generic parameters.
    pub generic: bool,
    /// The type.
    pub self_ty: String,
    /// The trait, where there is one.
    pub trait_path: Option<PathItem>,
    /// The methods, in order.
    pub methods: Vec<MethodItem>,
}

} // verus!
