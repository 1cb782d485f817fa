//! Rust source as the outside crates read and print it.
//!
//! What a source is read as, and how its parts are printed, depends on the source alone:
//! `proc_macro2` is built without its `proc-macro` feature, so it reads and prints tokens
//! itself, here as well as inside the compiler, and hands nothing on to the compiler.
use proc_macro2::{Spacing, TokenStream, TokenTree};
use quote::ToTokens;
use syn::parse::Parser;
use syn::punctuated::Punctuated;
use syn::token::Comma;
use syn::{
    Attribute, Expr, ExprPath, GenericArgument, Ident, ItemFn, Lit, LitStr, Meta, Path,
    PathArguments, Type, UnOp,
};
use vstd::prelude::*;

verus! {

/// A result whose value has a view, as the contracts speak of it.
pub open spec fn outcome<T: View>(res: Result<T, String>) -> Result<T::V, Seq<char>> {
    match res {
        Ok(value) => Ok(value@),
        Err(message) => Err(message@),
    }
}

/// A result that is a list of texts, as the contracts speak of it.
pub open spec fn list_outcome(res: Result<Vec<String>, String>) -> Result<
    Seq<Seq<char>>,
    Seq<char>,
> {
    match res {
        Ok(list) => Ok(list.deep_view()),
        Err(message) => Err(message@),
    }
}

/// Printable ASCII other than the double quote and the backslash: the characters
/// that stand for themselves in a string literal.
pub open spec fn stands_for_itself(c: char) -> bool {
    ' ' <= c && c <= '~' && c != '"' && c != '\\'
}

/// A text of characters that stand for themselves.
pub open spec fn is_literal(text: Seq<char>) -> bool {
    forall|i: int| 0 <= i < text.len() ==> stands_for_itself(#[trigger] text[i])
}

/// `text` between double quotes.
pub open spec fn quoted(text: Seq<char>) -> Seq<char> {
    seq!['"'] + text + seq!['"']
}

/// The source of a string literal for a text that has to be escaped.
pub uninterp spec fn escaped_source(text: Seq<char>) -> Seq<char>;

/// The source of a string literal whose value is the given text.
pub open spec fn literal_source(text: Seq<char>) -> Seq<char> {
    if is_literal(text) {
        quoted(text)
    } else {
        escaped_source(text)
    }
}

/// Calls `proc_macro2::Literal::string` and prints the literal. The contract says that a text
/// of characters that stand for themselves is printed as it is, between double quotes, and
/// names the source for any other text.
#[verifier::external_body]
pub(crate) fn string_literal(text: &str) -> (res: String)
    ensures
        res@ == (if is_literal(text@) {
            quoted(text@)
        } else {
            escaped_source(text@)
        }),
{
    proc_macro2::Literal::string(text).to_string()
}

/// A text that has to be escaped, as the debug format of strings shows it.
pub uninterp spec fn escaped_debug(text: Seq<char>) -> Seq<char>;

/// A text as the debug format of strings shows it.
pub open spec fn debug_source(text: Seq<char>) -> Seq<char> {
    if is_literal(text) {
        quoted(text)
    } else {
        escaped_debug(text)
    }
}

/// Formats `text` with `{:?}`. The contract says that a text of characters that stand for
/// themselves is shown as it is, between double quotes, and names what is shown of any other
/// text.
#[verifier::external_body]
pub(crate) fn debug_text(text: &str) -> (res: String)
    ensures
        res@ == (if is_literal(text@) {
            quoted(text@)
        } else {
            escaped_debug(text@)
        }),
{
    format!("{:?}", text)
}

/// The outermost form of an expression, with the source of what it is made of.
#[derive(Debug, PartialEq, Eq)]
pub enum ExprShape {
    /// A path.
    Path,
    /// A literal.
    Literal,
    /// An assignment.
    Assign { left: String, right: String },
    /// A call: what is called, and the list of its arguments.
    Call { func: String, args: String },
    /// The negative of an expression.
    Negation(String),
    /// An array: the list of its elements.
    Array(String),
    /// Anything else.
    Other,
}

/// What an [`ExprShape`] stands for.
pub ghost enum Shape {
    Path,
    Literal,
    Assign { left: Seq<char>, right: Seq<char> },
    Call { func: Seq<char>, args: Seq<char> },
    Negation(Seq<char>),
    Array(Seq<char>),
    Other,
}

impl View for ExprShape {
    type V = Shape;

    open spec fn view(&self) -> Shape {
        match self {
            ExprShape::Path => Shape::Path,
            ExprShape::Literal => Shape::Literal,
            ExprShape::Assign { left, right } => Shape::Assign { left: left@, right: right@ },
            ExprShape::Call { func, args } => Shape::Call { func: func@, args: args@ },
            ExprShape::Negation(inner) => Shape::Negation(inner@),
            ExprShape::Array(items) => Shape::Array(items@),
            ExprShape::Other => Shape::Other,
        }
    }
}

/// The form of the expression that a source is, or what is wrong with the source.
pub uninterp spec fn shape_of(source: Seq<char>) -> Result<Shape, Seq<char>>;

/// Calls `syn::parse_str` for a `syn::Expr` and tells its variants apart; what the
/// expression is made of is printed back to source. The contract names the result.
#[verifier::external_body]
pub(crate) fn expr_shape(source: &str) -> (res: Result<ExprShape, String>)
    ensures
        outcome(res) == shape_of(source@),
{
    let show = |e: &dyn ToTokens| e.to_token_stream().to_string();
    Ok(match syn::parse_str::<Expr>(source).map_err(|e| e.to_string())? {
        Expr::Path(_) => ExprShape::Path,
        Expr::Lit(_) => ExprShape::Literal,
        Expr::Assign(a) => ExprShape::Assign { left: show(&a.left), right: show(&a.right) },
        Expr::Call(c) => ExprShape::Call { func: show(&c.func), args: show(&c.args) },
        Expr::Unary(u) if matches!(u.op, UnOp::Neg(_)) => ExprShape::Negation(show(&u.expr)),
        Expr::Array(a) => ExprShape::Array(show(&a.elems)),
        _ => ExprShape::Other,
    })
}

/// A path.
#[derive(Debug, PartialEq, Eq)]
pub struct PathShape {
    /// The identifier, where the path is no more than that.
    pub ident: Option<String>,
    /// The path alone, without the type in front of it.
    pub path: String,
    /// The path, with the type in front of it where there is one, as in `<A as B>::C`.
    pub whole: String,
}

/// What a [`PathShape`] stands for.
pub ghost struct PathForm {
    pub ident: Option<Seq<char>>,
    pub path: Seq<char>,
    pub whole: Seq<char>,
}

impl View for PathShape {
    type V = PathForm;

    open spec fn view(&self) -> PathForm {
        PathForm { ident: self.ident.deep_view(), path: self.path@, whole: self.whole@ }
    }
}

/// The path that a source is, without attributes in front of it, or what is wrong with the
/// source.
pub uninterp spec fn path_in(source: Seq<char>) -> Result<PathForm, Seq<char>>;

/// Calls `syn::parse_str` for a `syn::ExprPath`, then `get_ident` of its path; the path, and
/// the whole without its attributes, are printed back to source. The contract names the
/// result.
#[verifier::external_body]
pub(crate) fn path_shape(source: &str) -> (res: Result<PathShape, String>)
    ensures
        outcome(res) == path_in(source@),
{
    let p = syn::parse_str::<ExprPath>(source).map_err(|e| e.to_string())?;
    Ok(PathShape {
        ident: p.path.get_ident().map(|i| i.to_string()),
        path: p.path.to_token_stream().to_string(),
        whole: ExprPath { attrs: Vec::new(), ..p }.to_token_stream().to_string(),
    })
}

/// A literal.
#[derive(Debug, PartialEq, Eq)]
pub enum Literal {
    /// The value of a string.
    Str(String),
    /// A truth value.
    Bool(bool),
    /// The decimal digits of an integer.
    Int(String),
    /// The digits of a floating-point number.
    Float(String),
    /// Any other literal.
    Other,
}

/// What a [`Literal`] stands for.
pub ghost enum LiteralValue {
    Str(Seq<char>),
    Bool(bool),
    Int(Seq<char>),
    Float(Seq<char>),
    Other,
}

impl View for Literal {
    type V = LiteralValue;

    open spec fn view(&self) -> LiteralValue {
        match self {
            Literal::Str(s) => LiteralValue::Str(s@),
            Literal::Bool(b) => LiteralValue::Bool(*b),
            Literal::Int(digits) => LiteralValue::Int(digits@),
            Literal::Float(digits) => LiteralValue::Float(digits@),
            Literal::Other => LiteralValue::Other,
        }
    }
}

/// The literal that a source is, with or without attributes in front of it, or what is wrong
/// with the source.
pub uninterp spec fn literal_in(source: Seq<char>) -> Result<LiteralValue, Seq<char>>;

/// Calls `syn::parse_str` for a `syn::Expr`, and tells the variants of its `syn::Lit` apart
/// where it is a literal. The contract names the result.
#[verifier::external_body]
pub(crate) fn literal_value(source: &str) -> (res: Result<Literal, String>)
    ensures
        outcome(res) == literal_in(source@),
{
    let show = |l: Lit| match l {
        Lit::Str(s) => Literal::Str(s.value()),
        Lit::Bool(b) => Literal::Bool(b.value),
        Lit::Int(i) => Literal::Int(i.base10_digits().to_string()),
        Lit::Float(f) => Literal::Float(f.base10_digits().to_string()),
        _ => Literal::Other,
    };
    Ok(match syn::parse_str::<Expr>(source).map_err(|e| e.to_string())? {
        Expr::Lit(l) => show(l.lit),
        _ => Literal::Other,
    })
}

/// The sources of the expressions in a list that commas separate, or what is wrong with
/// the list.
pub uninterp spec fn expressions_in(source: Seq<char>) -> Result<Seq<Seq<char>>, Seq<char>>;

/// Calls `syn::parse::Parser::parse_str` with `Punctuated::parse_terminated` for
/// `syn::Expr` and prints each expression back to source. The contract names the result.
#[verifier::external_body]
pub(crate) fn split_exprs(source: &str) -> (res: Result<Vec<String>, String>)
    ensures
        list_outcome(res) == expressions_in(source@),
{
    let list = Punctuated::<Expr, Comma>::parse_terminated.parse_str(source);
    match list {
        Ok(list) => Ok(list.iter().map(|e| e.to_token_stream().to_string()).collect()),
        Err(e) => Err(e.to_string()),
    }
}

/// The outermost form of a type, with the source of what it is made of.
#[derive(Debug, PartialEq, Eq)]
pub enum TypeShape {
    /// A path: its last segment, and the arguments of that segment where they are types.
    Path { last: String, args: Vec<Option<String>> },
    /// A trait object.
    TraitObject,
    /// Anything else.
    Other,
}

/// What a [`TypeShape`] stands for.
pub ghost enum TypeForm {
    Path { last: Seq<char>, args: Seq<Option<Seq<char>>> },
    TraitObject,
    Other,
}

impl View for TypeShape {
    type V = TypeForm;

    open spec fn view(&self) -> TypeForm {
        match self {
            TypeShape::Path { last, args } => TypeForm::Path {
                last: last@,
                args: args.deep_view(),
            },
            TypeShape::TraitObject => TypeForm::TraitObject,
            TypeShape::Other => TypeForm::Other,
        }
    }
}

/// The form of the type that a source is, or what is wrong with the source.
pub uninterp spec fn type_in(source: Seq<char>) -> Result<TypeForm, Seq<char>>;

/// Calls `syn::parse_str` for a `syn::Type` and tells its variants apart; what the type
/// is made of is printed back to source. The contract names the result.
#[verifier::external_body]
pub(crate) fn type_shape(source: &str) -> (res: Result<TypeShape, String>)
    ensures
        outcome(res) == type_in(source@),
{
    let show = |g: &GenericArgument| match g {
        GenericArgument::Type(t) => Some(t.to_token_stream().to_string()),
        _ => None,
    };
    let list = |a: &PathArguments| match a {
        PathArguments::AngleBracketed(a) => a.args.iter().map(show).collect(),
        _ => Vec::new(),
    };
    Ok(match syn::parse_str::<Type>(source).map_err(|e| e.to_string())? {
        Type::Path(p) => p.path.segments.last().map_or(TypeShape::Other, |s| TypeShape::Path { last: s.ident.to_string(), args: list(&s.arguments) }),
        Type::TraitObject(_) => TypeShape::TraitObject,
        _ => TypeShape::Other,
    })
}

/// The source of a type as it is printed back, or what is wrong with the source.
pub uninterp spec fn type_printed(source: Seq<char>) -> Result<Seq<char>, Seq<char>>;

/// Calls `syn::parse_str` for a `syn::Type` and prints the whole type back to source. The
/// contract names the result.
#[verifier::external_body]
pub(crate) fn print_type(source: &str) -> (res: Result<String, String>)
    ensures
        outcome(res) == type_printed(source@),
{
    match syn::parse_str::<Type>(source) {
        Ok(ty) => Ok(ty.to_token_stream().to_string()),
        Err(e) => Err(e.to_string()),
    }
}

/// An item in the arguments of an attribute.
#[derive(Debug, PartialEq, Eq)]
pub enum MetaShape {
    /// A path: the identifier where it is no more than that.
    Path(Option<String>),
    /// `key = value`: the key where it is an identifier, and the source of the value where
    /// it is a literal.
    NameValue(Option<String>, Option<String>),
    /// `key(items)`: the key where it is an identifier, and the source of the items.
    List(Option<String>, String),
}

/// What a [`MetaShape`] stands for.
pub ghost enum MetaForm {
    Path(Option<Seq<char>>),
    NameValue(Option<Seq<char>>, Option<Seq<char>>),
    List(Option<Seq<char>>, Seq<char>),
}

impl View for MetaShape {
    type V = MetaForm;

    open spec fn view(&self) -> MetaForm {
        match self {
            MetaShape::Path(ident) => MetaForm::Path(ident.deep_view()),
            MetaShape::NameValue(key, value) => MetaForm::NameValue(
                key.deep_view(),
                value.deep_view(),
            ),
            MetaShape::List(key, items) => MetaForm::List(key.deep_view(), items@),
        }
    }
}

impl DeepView for MetaShape {
    type V = MetaForm;

    open spec fn deep_view(&self) -> MetaForm {
        self@
    }
}

/// A result that is a list of items, as the contracts speak of it.
pub open spec fn metas_outcome(res: Result<Vec<MetaShape>, String>) -> Result<
    Seq<MetaForm>,
    Seq<char>,
> {
    match res {
        Ok(list) => Ok(list.deep_view()),
        Err(message) => Err(message@),
    }
}

/// The items in the arguments of an attribute, or what is wrong with them.
pub uninterp spec fn metas_in(source: Seq<char>) -> Result<Seq<MetaForm>, Seq<char>>;

/// Calls `syn::parse::Parser::parse_str` with `Punctuated::parse_terminated` for
/// `syn::Meta` and tells its variants apart. The contract names the result.
#[verifier::external_body]
pub(crate) fn split_metas(source: &str) -> (res: Result<Vec<MetaShape>, String>)
    ensures
        metas_outcome(res) == metas_in(source@),
{
    let key = |p: &Path| p.get_ident().map(|i| i.to_string());
    let value = |e: &Expr| match e {
        Expr::Lit(l) => Some(l.lit.to_token_stream().to_string()),
        _ => None,
    };
    let list = Punctuated::<Meta, Comma>::parse_terminated.parse_str(source).map_err(|e| e.to_string())?;
    Ok(list.iter().map(|m| match m {
        Meta::Path(p) => MetaShape::Path(key(p)),
        Meta::NameValue(v) => MetaShape::NameValue(key(&v.path), value(&v.value)),
        Meta::List(l) => MetaShape::List(key(&l.path), l.tokens.to_string()),
    }).collect())
}

/// The source of the arguments of the attribute that a source is, or what is wrong with it.
pub uninterp spec fn arguments_of(attribute: Seq<char>) -> Result<Seq<char>, Seq<char>>;

/// Calls `syn::Attribute::parse_outer`, then `parse_args` of the attribute for a stream of
/// tokens. The contract names the result; where there is no attribute the arguments are empty.
#[verifier::external_body]
pub(crate) fn attribute_args(attribute: &str) -> (res: Result<String, String>)
    ensures
        outcome(res) == arguments_of(attribute@),
{
    let attrs = Attribute::parse_outer.parse_str(attribute).map_err(|e| e.to_string())?;
    attrs.first().map_or(Ok(String::new()), |a| {
        a.parse_args::<TokenStream>().map_or_else(|e| Err(e.to_string()), |t| Ok(t.to_string()))
    })
}

/// The value of the string literal that a source is, or what is wrong with the source.
pub uninterp spec fn string_in(source: Seq<char>) -> Result<Seq<char>, Seq<char>>;

/// Calls `syn::parse_str` for a `syn::LitStr`, then `value`. The contract names the result.
#[verifier::external_body]
pub(crate) fn string_value(source: &str) -> (res: Result<String, String>)
    ensures
        outcome(res) == string_in(source@),
{
    syn::parse_str::<LitStr>(source).map_or_else(|e| Err(e.to_string()), |l| Ok(l.value()))
}

/// The source of a function under another name, or what is wrong with the source.
pub uninterp spec fn renamed(source: Seq<char>, name: Seq<char>) -> Result<Seq<char>, Seq<char>>;

/// Calls `syn::parse_str` for a `syn::ItemFn`, puts another identifier in place of its name,
/// and prints it. The contract names the result.
#[verifier::external_body]
pub(crate) fn rename_fn(source: &str, name: &str) -> (res: Result<String, String>)
    ensures
        outcome(res) == renamed(source@, name@),
{
    let mut item = syn::parse_str::<ItemFn>(source).map_err(|e| e.to_string())?;
    item.sig.ident = syn::parse_str::<Ident>(name).map_err(|e| e.to_string())?;
    Ok(item.to_token_stream().to_string())
}

/// The sources of the paths in a list that commas separate, or what is wrong with the list.
pub uninterp spec fn paths_in(source: Seq<char>) -> Result<Seq<Seq<char>>, Seq<char>>;

/// Calls `syn::parse::Parser::parse_str` with `Punctuated::parse_terminated` for `syn::Path`
/// and prints each path back to source. The contract names the result.
#[verifier::external_body]
pub(crate) fn split_paths(source: &str) -> (res: Result<Vec<String>, String>)
    ensures
        list_outcome(res) == paths_in(source@),
{
    let list = Punctuated::<Path, Comma>::parse_terminated.parse_str(source);
    match list {
        Ok(list) => Ok(list.iter().map(|p| p.to_token_stream().to_string()).collect()),
        Err(e) => Err(e.to_string()),
    }
}

/// A token of source; what stands in brackets is one token.
#[derive(Clone, Debug, PartialEq, Eq)]
pub enum SourceToken {
    /// An identifier.
    Ident(String),
    /// A sign, and whether it belongs together with what follows it directly.
    Sign(char, bool),
    /// The source of any other token.
    Other(String),
}

/// What a [`SourceToken`] stands for.
pub ghost enum TokenForm {
    Ident(Seq<char>),
    Sign(char, bool),
    Other(Seq<char>),
}

impl View for SourceToken {
    type V = TokenForm;

    open spec fn view(&self) -> TokenForm {
        match self {
            SourceToken::Ident(name) => TokenForm::Ident(name@),
            SourceToken::Sign(c, joint) => TokenForm::Sign(*c, *joint),
            SourceToken::Other(text) => TokenForm::Other(text@),
        }
    }
}

impl DeepView for SourceToken {
    type V = TokenForm;

    open spec fn deep_view(&self) -> TokenForm {
        self@
    }
}

/// A result that is a list of tokens, as the contracts speak of it.
pub open spec fn tokens_outcome(res: Result<Vec<SourceToken>, String>) -> Result<
    Seq<TokenForm>,
    Seq<char>,
> {
    match res {
        Ok(list) => Ok(list.deep_view()),
        Err(message) => Err(message@),
    }
}

/// The tokens of a source, or what is wrong with it.
pub uninterp spec fn tokens_in(source: Seq<char>) -> Result<Seq<TokenForm>, Seq<char>>;

/// Calls `str::parse` for a `proc_macro2::TokenStream` and tells the variants of its token
/// trees apart. The contract names the result.
#[verifier::external_body]
pub(crate) fn source_tokens(source: &str) -> (res: Result<Vec<SourceToken>, String>)
    ensures
        tokens_outcome(res) == tokens_in(source@),
{
    let stream = source.parse::<TokenStream>().map_err(|e| e.to_string())?;
    Ok(stream.into_iter().map(|t| match t {
        TokenTree::Ident(i) => SourceToken::Ident(i.to_string()),
        TokenTree::Punct(p) => SourceToken::Sign(p.as_char(), matches!(p.spacing(), Spacing::Joint)),
        other => SourceToken::Other(other.to_string()),
    }).collect())
}

} // verus!
