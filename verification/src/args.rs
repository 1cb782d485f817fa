//! The arguments of attributes as trees of expressions.
use vstd::prelude::*;

use crate::chars::{
    number, numeral_error, numeral_error_text, numeral_stands_for_its_number, parse_number,
};
use crate::syntax::{
    expr_shape, expressions_in, literal_in, literal_value, outcome, path_in, path_shape, shape_of,
    split_exprs, ExprShape, Literal, LiteralValue, Shape,
};
use crate::text::{decimal};

verus! {

/// What the author of an attribute has to be told.
#[derive(Clone, Debug, PartialEq, Eq)]
pub struct EmitError {
    /// The explanation for a reader.
    pub message: String,
}

/// A result as the contracts speak of it: the view of the value, or the message.
pub open spec fn told<T: View>(res: Result<T, EmitError>) -> Result<T::V, Seq<char>> {
    match res {
        Ok(value) => Ok(value@),
        Err(e) => Err(e.message@),
    }
}

/// An expression in an attribute, with the source it is written in.
#[derive(Debug, PartialEq, Eq)]
pub struct Arg {
    /// The source.
    pub source: String,
    /// The form.
    pub kind: ArgKind,
}

/// The form of an expression in an attribute.
#[derive(Debug, PartialEq, Eq)]
pub enum ArgKind {
    /// A path: the identifier where it is no more than that, the path alone, and the path with
    /// the type in front of it where there is one.
    Path { ident: Option<String>, path: String, whole: String },
    /// A string.
    Str(String),
    /// A truth value.
    Bool(bool),
    /// The decimal digits of an integer.
    Int(String),
    /// The digits of a floating-point number.
    Float(String),
    /// `left = right`.
    Assign { left: Box<Arg>, right: Box<Arg> },
    /// `func(args)`.
    Call { func: Box<Arg>, args: Vec<Arg> },
    /// The negative of an expression.
    Neg(Box<Arg>),
    /// `[items]`.
    Array(Vec<Arg>),
    /// Anything else.
    Other,
}

/// What an [`Arg`] stands for.
pub ghost struct Expression {
    pub source: Seq<char>,
    pub kind: Form,
}

/// What an [`ArgKind`] stands for.
pub ghost enum Form {
    Path { ident: Option<Seq<char>>, path: Seq<char>, whole: Seq<char> },
    Str(Seq<char>),
    Bool(bool),
    Int(Seq<char>),
    Float(Seq<char>),
    Assign { left: Box<Expression>, right: Box<Expression> },
    Call { func: Box<Expression>, args: Seq<Expression> },
    Neg(Box<Expression>),
    Array(Seq<Expression>),
    Other,
}

/// The expression that `a` stands for.
pub open spec fn expression_of(a: Arg) -> Expression
    decreases a,
{
    Expression { source: a.source@, kind: form_of(a.kind) }
}

/// The form that `k` stands for.
pub open spec fn form_of(k: ArgKind) -> Form
    decreases k,
{
    match k {
        ArgKind::Path { ident, path, whole } => Form::Path {
            ident: ident.deep_view(),
            path: path@,
            whole: whole@,
        },
        ArgKind::Str(s) => Form::Str(s@),
        ArgKind::Bool(b) => Form::Bool(b),
        ArgKind::Int(digits) => Form::Int(digits@),
        ArgKind::Float(digits) => Form::Float(digits@),
        ArgKind::Assign { left, right } => Form::Assign {
            left: Box::new(expression_of(*left)),
            right: Box::new(expression_of(*right)),
        },
        ArgKind::Call { func, args } => Form::Call {
            func: Box::new(expression_of(*func)),
            args: Seq::new(
                args@.len(),
                |i: int|
                    if 0 <= i < args@.len() {
                        expression_of(args@[i])
                    } else {
                        arbitrary()
                    },
            ),
        },
        ArgKind::Neg(inner) => Form::Neg(Box::new(expression_of(*inner))),
        ArgKind::Array(items) => Form::Array(
            Seq::new(
                items@.len(),
                |i: int|
                    if 0 <= i < items@.len() {
                        expression_of(items@[i])
                    } else {
                        arbitrary()
                    },
            ),
        ),
        ArgKind::Other => Form::Other,
    }
}

impl View for Arg {
    type V = Expression;

    open spec fn view(&self) -> Expression {
        expression_of(*self)
    }
}

impl DeepView for Arg {
    type V = Expression;

    open spec fn deep_view(&self) -> Expression {
        expression_of(*self)
    }
}

/// The form of an expression that is a literal.
pub open spec fn literal_form(literal: Result<LiteralValue, Seq<char>>) -> Form {
    match literal {
        Ok(LiteralValue::Str(s)) => Form::Str(s),
        Ok(LiteralValue::Bool(b)) => Form::Bool(b),
        Ok(LiteralValue::Int(digits)) => Form::Int(digits),
        Ok(LiteralValue::Float(digits)) => Form::Float(digits),
        _ => Form::Other,
    }
}

/// The form of an expression that is a literal.
pub fn literal_kind(literal: Result<Literal, String>) -> (res: ArgKind)
    ensures
        form_of(res) == literal_form(crate::syntax::outcome(literal)),
{
    match literal {
        Ok(Literal::Str(s)) => ArgKind::Str(s),
        Ok(Literal::Bool(b)) => ArgKind::Bool(b),
        Ok(Literal::Int(digits)) => ArgKind::Int(digits),
        Ok(Literal::Float(digits)) => ArgKind::Float(digits),
        _ => ArgKind::Other,
    }
}

/// The tree of the expression `source`, `depth` levels deep. What lies deeper is left as
/// it is written.
pub open spec fn tree(source: Seq<char>, depth: nat) -> Expression
    decreases depth, 1nat,
{
    let kind = if depth == 0 {
        Form::Other
    } else {
        let below = (depth - 1) as nat;
        match shape_of(source) {
            Ok(Shape::Path) => match path_in(source) {
                Ok(p) => Form::Path { ident: p.ident, path: p.path, whole: p.whole },
                Err(_) => Form::Other,
            },
            Ok(Shape::Literal) => literal_form(literal_in(source)),
            Ok(Shape::Assign { left, right }) => Form::Assign {
                left: Box::new(tree(left, below)),
                right: Box::new(tree(right, below)),
            },
            Ok(Shape::Call { func, args }) => match expressions_in(args) {
                Ok(sources) => Form::Call {
                    func: Box::new(tree(func, below)),
                    args: trees(sources, below),
                },
                Err(_) => Form::Other,
            },
            Ok(Shape::Negation(inner)) => Form::Neg(Box::new(tree(inner, below))),
            Ok(Shape::Array(items)) => match expressions_in(items) {
                Ok(sources) => Form::Array(trees(sources, below)),
                Err(_) => Form::Other,
            },
            _ => Form::Other,
        }
    };
    Expression { source, kind }
}

/// The trees of several expressions.
pub open spec fn trees(sources: Seq<Seq<char>>, depth: nat) -> Seq<Expression>
    decreases depth, 2nat,
{
    Seq::new(sources.len(), |i: int| tree(sources[i], depth))
}

/// The expressions in the arguments of an attribute, or what is wrong with them. Where
/// nothing is written there are none. No tree is deeper than its source is long.
pub open spec fn arguments(source: Seq<char>) -> Result<Seq<Expression>, Seq<char>> {
    if source.len() == 0 {
        Ok(Seq::empty())
    } else {
        match expressions_in(source) {
            Ok(sources) => Ok(
                Seq::new(sources.len(), |i: int| tree(sources[i], sources[i].len())),
            ),
            Err(message) => Err(message),
        }
    }
}

/// An expression is taken apart as it is written: an assignment has its own left and right, a call
/// what it calls and its arguments in their order, an array its items in their order.
pub proof fn expression_is_taken_apart(
    source: Seq<char>,
    depth: nat,
    a: Seq<char>,
    b: Seq<char>,
    list: Seq<Seq<char>>,
    text: Seq<char>,
)
    ensures
        tree(source, depth).source == source,
        shape_of(source) == Ok::<Shape, Seq<char>>(Shape::Assign { left: a, right: b }) ==> {
            let kind = tree(source, depth + 1).kind;
            &&& kind is Assign
            &&& *kind->left == tree(a, depth)
            &&& *kind->right == tree(b, depth)
        },
        shape_of(source) == Ok::<Shape, Seq<char>>(Shape::Call { func: a, args: b })
            && expressions_in(b) == Ok::<Seq<Seq<char>>, Seq<char>>(list) ==> {
            let kind = tree(source, depth + 1).kind;
            &&& kind is Call
            &&& *kind->func == tree(a, depth)
            &&& kind->args.len() == list.len()
            &&& forall|i: int|
                0 <= i < list.len() ==> #[trigger] kind->args[i] == tree(list[i], depth)
        },
        shape_of(source) == Ok::<Shape, Seq<char>>(Shape::Array(b)) && expressions_in(b) == Ok::<
            Seq<Seq<char>>,
            Seq<char>,
        >(list) ==> {
            let kind = tree(source, depth + 1).kind;
            &&& kind is Array
            &&& kind->Array_0.len() == list.len()
            &&& forall|i: int|
                0 <= i < list.len() ==> #[trigger] kind->Array_0[i] == tree(list[i], depth)
        },
        shape_of(source) == Ok::<Shape, Seq<char>>(Shape::Negation(a)) ==> tree(
            source,
            depth + 1,
        ).kind == Form::Neg(Box::new(tree(a, depth))),
        shape_of(source) == Ok::<Shape, Seq<char>>(Shape::Path) && path_in(source) is Ok ==> {
            let kind = tree(source, depth + 1).kind;
            let p = path_in(source)->Ok_0;
            kind == Form::Path { ident: p.ident, path: p.path, whole: p.whole }
        },
        shape_of(source) == Ok::<Shape, Seq<char>>(Shape::Literal) ==> {
            let kind = tree(source, depth + 1).kind;
            &&& literal_in(source) == Ok::<LiteralValue, Seq<char>>(LiteralValue::Str(text)) ==> kind
                == Form::Str(text)
            &&& literal_in(source) == Ok::<LiteralValue, Seq<char>>(LiteralValue::Int(text)) ==> kind
                == Form::Int(text)
            &&& literal_in(source) == Ok::<LiteralValue, Seq<char>>(LiteralValue::Float(text))
                ==> kind == Form::Float(text)
        },
{
    reveal_with_fuel(tree, 2);
    reveal_with_fuel(trees, 3);
}

/// The arguments of an attribute are its expressions, in their order.
pub proof fn arguments_are_read_in_order(source: Seq<char>, list: Seq<Seq<char>>)
    ensures
        arguments(Seq::empty()) == Ok::<Seq<Expression>, Seq<char>>(Seq::empty()),
        source.len() > 0 && expressions_in(source) == Ok::<Seq<Seq<char>>, Seq<char>>(list) ==> {
            &&& arguments(source) is Ok
            &&& arguments(source)->Ok_0.len() == list.len()
            &&& forall|i: int|
                0 <= i < list.len() ==> (#[trigger] arguments(source)->Ok_0[i]).source == list[i]
                    && arguments(source)->Ok_0[i] == tree(list[i], list[i].len())
        },
        source.len() > 0 && expressions_in(source) is Err ==> arguments(source) is Err,
{
}

/// Reads the tree of the expression `source`, `depth` levels deep.
fn read_arg(source: &str, depth: usize) -> (res: Arg)
    ensures
        res@ == tree(source@, depth as nat),
    decreases depth, 1nat,
{
    let kind = if depth == 0 {
        ArgKind::Other
    } else {
        let below: usize = depth - 1;
        match expr_shape(source) {
            Ok(ExprShape::Path) => match path_shape(source) {
                Ok(p) => ArgKind::Path { ident: p.ident, path: p.path, whole: p.whole },
                Err(_) => ArgKind::Other,
            },
            Ok(ExprShape::Literal) => literal_kind(literal_value(source)),
            Ok(ExprShape::Assign { left, right }) => ArgKind::Assign {
                left: Box::new(read_arg(left.as_str(), below)),
                right: Box::new(read_arg(right.as_str(), below)),
            },
            Ok(ExprShape::Call { func, args }) => match split_exprs(args.as_str()) {
                Ok(sources) => {
                    let func = Box::new(read_arg(func.as_str(), below));
                    let list = read_args(&sources, below);
                    assert(form_of(ArgKind::Call { func, args: list })->args =~= trees(
                        sources.deep_view(),
                        below as nat,
                    ));
                    ArgKind::Call { func, args: list }
                },
                Err(_) => ArgKind::Other,
            },
            Ok(ExprShape::Negation(inner)) => ArgKind::Neg(
                Box::new(read_arg(inner.as_str(), below)),
            ),
            Ok(ExprShape::Array(items)) => match split_exprs(items.as_str()) {
                Ok(sources) => {
                    let list = read_args(&sources, below);
                    assert(form_of(ArgKind::Array(list))->Array_0 =~= trees(
                        sources.deep_view(),
                        below as nat,
                    ));
                    ArgKind::Array(list)
                },
                Err(_) => ArgKind::Other,
            },
            _ => ArgKind::Other,
        }
    };
    Arg { source: source.to_string(), kind }
}

/// Reads the trees of several expressions.
fn read_args(sources: &Vec<String>, depth: usize) -> (res: Vec<Arg>)
    ensures
        res.deep_view() == trees(sources.deep_view(), depth as nat),
    decreases depth, 2nat,
{
    let mut out: Vec<Arg> = Vec::new();
    let mut i: usize = 0;
    while i < sources.len()
        invariant
            i <= sources.len(),
            out@.len() == i,
            forall|k: int| 0 <= k < i ==> (#[trigger] out@[k])@ == tree(sources@[k]@, depth as nat),
        decreases sources.len() - i,
    {
        out.push(read_arg(sources[i].as_str(), depth));
        i += 1;
    }
    assert(out.deep_view() =~= trees(sources.deep_view(), depth as nat));
    out
}

/// A result that is a list of expressions, as the contracts speak of it.
pub open spec fn args_outcome(res: Result<Vec<Arg>, String>) -> Result<Seq<Expression>, Seq<char>> {
    match res {
        Ok(list) => Ok(list.deep_view()),
        Err(message) => Err(message@),
    }
}

/// Reads the arguments of an attribute.
pub fn parse_arguments(source: &str) -> (res: Result<Vec<Arg>, String>)
    ensures
        args_outcome(res) == arguments(source@),
{
    if source.unicode_len() == 0 {
        let none: Vec<Arg> = Vec::new();
        assert(none.deep_view() =~= Seq::<Expression>::empty());
        return Ok(none);
    }
    match split_exprs(source) {
        Ok(sources) => {
            let mut out: Vec<Arg> = Vec::new();
            let mut i: usize = 0;
            while i < sources.len()
                invariant
                    i <= sources.len(),
                    out@.len() == i,
                    forall|k: int|
                        0 <= k < i ==> (#[trigger] out@[k])@ == tree(
                            sources@[k]@,
                            sources@[k]@.len(),
                        ),
                decreases sources.len() - i,
            {
                let depth = sources[i].as_str().unicode_len();
                out.push(read_arg(sources[i].as_str(), depth));
                i += 1;
            }
            assert(out.deep_view() =~= arguments(source@)->Ok_0);
            Ok(out)
        },
        Err(message) => Err(message),
    }
}

/// The identifier that the key of an argument is.
pub open spec fn bare_key(e: Expression) -> Result<Seq<char>, Seq<char>> {
    match e.kind {
        Form::Path { ident: Some(ident), .. } => Ok(ident),
        _ => Err("a named argument must use a bare identifier key"@),
    }
}

/// `e` is `key = value`.
pub open spec fn assigns(e: Expression, key: Seq<char>, value: Expression) -> bool {
    e.kind matches Form::Assign { left, right } && *right == value && (left.kind
        matches Form::Path { ident: Some(ident), .. } && ident == key)
}

/// `e` is `name(args)`.
pub open spec fn calls(e: Expression, name: Seq<char>, args: Seq<Expression>) -> bool {
    e.kind matches Form::Call { func, args: given } && given == args && (func.kind
        matches Form::Path { ident: Some(ident), .. } && ident == name)
}

/// The identifier that the key of an argument is.
pub fn assign_ident(arg: &Arg) -> (res: Result<String, EmitError>)
    ensures
        told(res) == bare_key(arg@),
{
    match &arg.kind {
        ArgKind::Path { ident: Some(ident), .. } => Ok(ident.clone()),
        _ => Err(
            EmitError { message: "a named argument must use a bare identifier key".to_string() },
        ),
    }
}

/// The value of a string.
pub open spec fn text_value(e: Expression) -> Option<Seq<char>> {
    match e.kind {
        Form::Str(s) => Some(s),
        _ => None,
    }
}

/// The value of a string.
pub fn str_value(arg: &Arg) -> (res: Option<String>)
    ensures
        res.deep_view() == text_value(arg@),
{
    match &arg.kind {
        ArgKind::Str(s) => Some(s.clone()),
        _ => None,
    }
}

/// A truth value.
pub open spec fn flag_value(e: Expression) -> Result<bool, Seq<char>> {
    match e.kind {
        Form::Bool(b) => Ok(b),
        _ => Err("expected a bool, got `"@ + e.source + "`"@),
    }
}

/// A truth value.
pub fn bool_value(arg: &Arg) -> (res: Result<bool, EmitError>)
    ensures
        told(res) == flag_value(arg@),
{
    match &arg.kind {
        ArgKind::Bool(b) => Ok(*b),
        _ => Err(
            EmitError {
                message: "expected a bool, got `".to_string().concat(arg.source.as_str()).concat(
                    "`",
                ),
            },
        ),
    }
}

/// The value of an order: an integer, with any number of signs before it.
pub open spec fn order_value(e: Expression) -> Result<i32, Seq<char>>
    decreases e,
{
    match e.kind {
        Form::Int(digits) => match number(digits, i32::MAX as nat) {
            Some(n) => Ok(n as i32),
            None => Err("`order` must be an i32 integer: "@ + numeral_error(digits)),
        },
        Form::Neg(inner) => match order_value(*inner) {
            Ok(n) => Ok((-n) as i32),
            Err(message) => Err(message),
        },
        _ => Err("`order` must be an integer literal, got `"@ + e.source + "`"@),
    }
}

/// The value of an order.
pub fn int_value(arg: &Arg) -> (res: Result<i32, EmitError>)
    ensures
        told(res) == order_value(arg@),
        res matches Ok(n) ==> -i32::MAX <= n <= i32::MAX,
    decreases arg,
{
    match &arg.kind {
        ArgKind::Int(digits) => match parse_number(digits.as_str(), 0x7fff_ffff) {
            Some(n) => Ok(n as i32),
            None => {
                let why = numeral_error_text(digits.as_str());
                Err(
                    EmitError {
                        message: "`order` must be an i32 integer: ".to_string().concat(
                            why.as_str(),
                        ),
                    },
                )
            },
        },
        ArgKind::Neg(inner) => {
            assert(decreases_to!(arg => arg.kind));
            assert(decreases_to!(arg.kind => arg.kind->Neg_0));
            match int_value(inner) {
                Ok(n) => Ok(-n),
                Err(e) => Err(e),
            }
        },
        _ => Err(
            EmitError {
                message: "`order` must be an integer literal, got `".to_string().concat(
                    arg.source.as_str(),
                ).concat("`"),
            },
        ),
    }
}

/// The value of an unsigned integer.
pub open spec fn count_value(e: Expression) -> Result<u64, Seq<char>> {
    match e.kind {
        Form::Int(digits) => match number(digits, u64::MAX as nat) {
            Some(n) => Ok(n as u64),
            None => Err("expected a non-negative integer: "@ + numeral_error(digits)),
        },
        _ => Err("expected an integer literal, got `"@ + e.source + "`"@),
    }
}

/// The value of an unsigned integer.
pub fn uint_value(arg: &Arg) -> (res: Result<u64, EmitError>)
    ensures
        told(res) == count_value(arg@),
{
    match &arg.kind {
        ArgKind::Int(digits) => match parse_number(digits.as_str(), 0xffff_ffff_ffff_ffff) {
            Some(n) => Ok(n),
            None => {
                let why = numeral_error_text(digits.as_str());
                error("expected a non-negative integer: ".to_string().concat(why.as_str()))
            },
        },
        _ => error(
            "expected an integer literal, got `".to_string().concat(arg.source.as_str()).concat("`"),
        ),
    }
}

/// A literal is read as the value it is written for: a numeral as its number, with the signs in
/// front of it, where the number is not too large, a text and a truth value as themselves.
pub proof fn literals_are_read(e: Expression, n: nat, s: Seq<char>, b: bool, inner: Expression)
    ensures
        e.kind == Form::Int(decimal(n)) && n <= u64::MAX ==> count_value(e) == Ok::<u64, Seq<char>>(
            n as u64,
        ),
        e.kind == Form::Int(decimal(n)) && n > u64::MAX ==> count_value(e) is Err,
        e.kind == Form::Int(decimal(n)) && n <= i32::MAX ==> order_value(e) == Ok::<i32, Seq<char>>(
            n as i32,
        ),
        e.kind == Form::Int(decimal(n)) && n > i32::MAX ==> order_value(e) is Err,
        e.kind == Form::Neg(Box::new(inner)) ==> order_value(e) == match order_value(inner) {
            Ok(m) => Ok::<i32, Seq<char>>((-m) as i32),
            Err(message) => Err(message),
        },
        e.kind == Form::Str(s) ==> text_value(e) == Some(s),
        e.kind == Form::Bool(b) ==> flag_value(e) == Ok::<bool, Seq<char>>(b),
        e.kind is Int || e.kind is Bool ==> text_value(e) is None,
        e.kind is Int || e.kind is Str ==> flag_value(e) is Err,
        e.kind is Str || e.kind is Bool ==> count_value(e) is Err && order_value(e) is Err,
{
    numeral_stands_for_its_number(n, u64::MAX as nat);
    numeral_stands_for_its_number(n, i32::MAX as nat);
}

/// Whether all of `items` are strings.
pub open spec fn all_texts(items: Seq<Expression>) -> bool {
    forall|i: int| 0 <= i < items.len() ==> text_value(#[trigger] items[i]) is Some
}

/// The values of strings.
pub open spec fn text_values(items: Seq<Expression>) -> Seq<Seq<char>> {
    Seq::new(items.len(), |i: int| text_value(items[i])->0)
}

/// The values of the strings in an array.
pub open spec fn texts_value(e: Expression) -> Result<Seq<Seq<char>>, Seq<char>> {
    match e.kind {
        Form::Array(items) => if all_texts(items) {
            Ok(text_values(items))
        } else {
            Err("array elements must be string literals"@)
        },
        _ => Err("expected a `[\"…\", …]` string array, got `"@ + e.source + "`"@),
    }
}

/// The values of strings, where all of `items` are.
pub fn strings(items: &Vec<Arg>) -> (res: Option<Vec<String>>)
    ensures
        match res {
            Some(list) => all_texts(items.deep_view()) && list.deep_view() == text_values(
                items.deep_view(),
            ),
            None => !all_texts(items.deep_view()),
        },
{
    let ghost all = items.deep_view();
    let mut out: Vec<String> = Vec::new();
    let mut i: usize = 0;
    while i < items.len()
        invariant
            all == items.deep_view(),
            i <= items.len(),
            out@.len() == i,
            forall|k: int| 0 <= k < i ==> text_value(#[trigger] all[k]) is Some,
            forall|k: int| 0 <= k < i ==> (#[trigger] out@[k])@ == text_value(all[k])->0,
        decreases items.len() - i,
    {
        assert(all[i as int] == items@[i as int]@);
        match str_value(&items[i]) {
            Some(s) => out.push(s),
            None => return None,
        }
        i += 1;
    }
    assert(out.deep_view() =~= text_values(all));
    Some(out)
}

/// An array of strings is read as their texts, in their order; any other array is refused.
pub proof fn texts_keep_their_places(e: Expression, items: Seq<Expression>)
    requires
        e.kind == Form::Array(items),
    ensures
        texts_value(e) is Ok <==> forall|i: int| 0 <= i < items.len() ==> (#[trigger] items[i]).kind is Str,
        texts_value(e) matches Ok(list) ==> list.len() == items.len() && forall|i: int|
            0 <= i < items.len() ==> (#[trigger] items[i]).kind == Form::Str(list[i]),
{
    if all_texts(items) {
        assert forall|i: int| 0 <= i < items.len() implies (#[trigger] items[i]).kind is Str by {
            assert(text_value(items[i]) is Some);
        }
    }
}

/// A result that is a list of texts, as the contracts speak of it.
pub open spec fn told_texts(res: Result<Vec<String>, EmitError>) -> Result<
    Seq<Seq<char>>,
    Seq<char>,
> {
    match res {
        Ok(list) => Ok(list.deep_view()),
        Err(e) => Err(e.message@),
    }
}

/// The values of the strings in an array.
pub fn str_array(arg: &Arg) -> (res: Result<Vec<String>, EmitError>)
    ensures
        told_texts(res) == texts_value(arg@),
{
    match &arg.kind {
        ArgKind::Array(items) => {
            assert(items.deep_view() =~= arg@.kind->Array_0);
            match strings(items) {
                Some(list) => Ok(list),
                None => error("array elements must be string literals".to_string()),
            }
        },
        _ => error(
            "expected a `[\"…\", …]` string array, got `".to_string().concat(
                arg.source.as_str(),
            ).concat("`"),
        ),
    }
}

/// What the arguments of an attribute set, one after the other.
pub trait Settings: View + Sized {
    /// The settings after one more argument, or the message for an argument that cannot be.
    spec fn after(settings: Self::V, e: Expression) -> Result<Self::V, Seq<char>>;

    /// Takes in one more argument.
    fn apply(self, arg: &Arg) -> (res: Result<Self, EmitError>)
        ensures
            told(res) == Self::after(self@, arg@),
    ;
}

/// The settings after all of `items`. The first argument that cannot be decides.
pub open spec fn settled<S: Settings>(start: S::V, items: Seq<Expression>) -> Result<
    S::V,
    Seq<char>,
>
    decreases items.len(),
{
    if items.len() == 0 {
        Ok(start)
    } else {
        match settled::<S>(start, items.drop_last()) {
            Ok(settings) => S::after(settings, items.last()),
            Err(message) => Err(message),
        }
    }
}

/// An argument that cannot be decides, whatever follows.
proof fn settled_stops<S: Settings>(start: S::V, items: Seq<Expression>, n: int)
    requires
        0 <= n <= items.len(),
        settled::<S>(start, items.take(n)) is Err,
    ensures
        settled::<S>(start, items) == settled::<S>(start, items.take(n)),
    decreases items.len(),
{
    if n == items.len() {
        assert(items.take(n) =~= items);
    } else {
        assert(items.drop_last().take(n) =~= items.take(n));
        settled_stops::<S>(start, items.drop_last(), n);
    }
}

/// Arguments are taken in in their order: those in front first, then those behind them, and the
/// first one that cannot be decides.
pub proof fn arguments_are_taken_in_order<S: Settings>(
    start: S::V,
    a: Seq<Expression>,
    b: Seq<Expression>,
    e: Expression,
)
    ensures
        settled::<S>(start, a + b) == match settled::<S>(start, a) {
            Ok(settings) => settled::<S>(settings, b),
            Err(message) => Err(message),
        },
        settled::<S>(start, seq![e]) == S::after(start, e),
        settled::<S>(start, Seq::empty()) == Ok::<S::V, Seq<char>>(start),
    decreases b.len(),
{
    reveal_with_fuel(settled, 2);
    assert(seq![e].drop_last() =~= Seq::<Expression>::empty());
    if b.len() == 0 {
        assert(a + b =~= a);
    } else {
        arguments_are_taken_in_order::<S>(start, a, b.drop_last(), e);
        assert((a + b).drop_last() =~= a + b.drop_last());
        assert((a + b).last() == b.last());
    }
}

/// Takes in all of `items`.
pub fn settle<S: Settings>(start: S, items: &[Arg]) -> (res: Result<S, EmitError>)
    ensures
        told(res) == settled::<S>(start@, items.deep_view()),
{
    let ghost all = items.deep_view();
    let ghost first = start@;
    let mut settings = start;
    let mut i: usize = 0;
    assert(all.take(0) =~= Seq::<Expression>::empty());
    while i < items.len()
        invariant
            all == items.deep_view(),
            first == start@,
            i <= items@.len(),
            settled::<S>(first, all.take(i as int)) == Ok::<S::V, Seq<char>>(settings@),
        decreases items@.len() - i,
    {
        proof {
            let next = all.take(i + 1);
            assert(next.drop_last() =~= all.take(i as int));
            assert(next.last() == items@[i as int]@);
        }
        match settings.apply(&items[i]) {
            Ok(after) => {
                settings = after;
            },
            Err(e) => {
                proof {
                    settled_stops::<S>(first, all, i + 1);
                }
                return Err(e);
            },
        }
        i += 1;
    }
    assert(all.take(i as int) =~= all);
    Ok(settings)
}

/// An error with the given message.
pub fn error<T>(message: String) -> (res: Result<T, EmitError>)
    ensures
        res matches Err(e) && e.message@ == message@,
{
    Err(EmitError { message })
}

/// The source of an expression as it is printed back.
pub open spec fn printed(source: Seq<char>) -> Seq<char> {
    match expressions_in(source) {
        Ok(list) if list.len() == 1 => list[0],
        _ => source,
    }
}

/// The expression that a source is, or what is wrong with it.
pub open spec fn expression(source: Seq<char>) -> Result<Expression, Seq<char>> {
    match shape_of(source) {
        Ok(_) => Ok(tree(printed(source), printed(source).len())),
        Err(message) => Err(message),
    }
}

/// Prints the source of an expression back.
fn print_back(source: &str) -> (res: String)
    ensures
        res@ == printed(source@),
{
    match split_exprs(source) {
        Ok(list) => if list.len() == 1 {
            assert(list.deep_view()[0] == list@[0]@);
            list[0].clone()
        } else {
            source.to_string()
        },
        Err(_) => source.to_string(),
    }
}

/// Reads the expression that a source is.
pub fn parse_expression(source: &str) -> (res: Result<Arg, String>)
    ensures
        outcome(res) == expression(source@),
{
    match expr_shape(source) {
        Ok(_) => {
            let source = print_back(source);
            Ok(read_arg(source.as_str(), source.as_str().unicode_len()))
        },
        Err(message) => Err(message),
    }
}

} // verus!
