//! Methods that are written as `async fn` and printed as functions that return a boxed
//! future.
use vstd::prelude::*;

use crate::reading::{join_is_a_series, joined_lists, lists, series, within, within_brackets};
use crate::text::{join, join_texts, str_eq};

verus! {

/// A part of the source of a type.
#[derive(Debug, PartialEq, Eq)]
pub enum TypePart {
    /// The `&` of a reference.
    Amp,
    /// A lifetime, without the quote.
    Lifetime(String),
    /// A bracket, what stands in it, and its end.
    Group(String, Vec<TypePart>, String),
    /// Anything else.
    Other(String),
}

/// What a [`TypePart`] stands for.
pub ghost enum Part {
    Amp,
    Lifetime(Seq<char>),
    Group(Seq<char>, Seq<Part>, Seq<char>),
    Other(Seq<char>),
}

/// The part that `p` stands for.
pub open spec fn part_of(p: TypePart) -> Part
    decreases p,
{
    match p {
        TypePart::Amp => Part::Amp,
        TypePart::Lifetime(name) => Part::Lifetime(name@),
        TypePart::Group(open, inner, close) => Part::Group(
            open@,
            Seq::new(
                inner@.len(),
                |i: int|
                    if 0 <= i < inner@.len() {
                        part_of(inner@[i])
                    } else {
                        arbitrary()
                    },
            ),
            close@,
        ),
        TypePart::Other(text) => Part::Other(text@),
    }
}

impl View for TypePart {
    type V = Part;

    open spec fn view(&self) -> Part {
        part_of(*self)
    }
}

impl DeepView for TypePart {
    type V = Part;

    open spec fn deep_view(&self) -> Part {
        part_of(*self)
    }
}

/// What stands round a group of tokens.
#[derive(Clone, Copy, Debug, PartialEq, Eq, Structural)]
pub enum Bracket {
    /// `(` and `)`.
    Round,
    /// `[` and `]`.
    Square,
    /// `{` and `}`.
    Brace,
    /// Nothing.
    Unseen,
}

/// A token of the source of a type.
#[derive(Debug, PartialEq, Eq)]
pub enum TypeToken {
    /// A sign, and whether it belongs together with what follows it directly.
    Sign(char, bool),
    /// An identifier.
    Ident(String),
    /// A group: what stands round it, its tokens, and its source.
    Group(Bracket, Vec<TypeToken>, String),
    /// The source of any other token.
    Other(String),
}

/// What a [`TypeToken`] stands for.
pub ghost enum Token {
    Sign(char, bool),
    Ident(Seq<char>),
    Group(Bracket, Seq<Token>, Seq<char>),
    Other(Seq<char>),
}

/// The token that `t` stands for.
pub open spec fn token_of(t: TypeToken) -> Token
    decreases t,
{
    match t {
        TypeToken::Sign(c, joint) => Token::Sign(c, joint),
        TypeToken::Ident(name) => Token::Ident(name@),
        TypeToken::Group(bracket, inner, source) => Token::Group(
            bracket,
            Seq::new(
                inner@.len(),
                |i: int|
                    if 0 <= i < inner@.len() {
                        token_of(inner@[i])
                    } else {
                        arbitrary()
                    },
            ),
            source@,
        ),
        TypeToken::Other(text) => Token::Other(text@),
    }
}

impl View for TypeToken {
    type V = Token;

    open spec fn view(&self) -> Token {
        token_of(*self)
    }
}

impl DeepView for TypeToken {
    type V = Token;

    open spec fn deep_view(&self) -> Token {
        token_of(*self)
    }
}

/// The sign `c` stands at `i`.
pub open spec fn sign_at(tokens: Seq<Token>, i: int, c: char) -> bool {
    0 <= i < tokens.len() && (tokens[i] matches Token::Sign(sign, _) && sign == c)
}

/// A semicolon stands before `i`: what follows it in the brackets of an array is the length.
pub open spec fn in_length(tokens: Seq<Token>, i: int) -> bool {
    exists|k: int| 0 <= k < i && #[trigger] sign_at(tokens, k, ';')
}

/// The source of a token, with a space behind it unless it belongs together with the next.
pub open spec fn token_source(t: Token) -> Seq<char> {
    match t {
        Token::Sign(c, true) => seq![c],
        Token::Sign(c, false) => seq![c, ' '],
        Token::Ident(name) => name + " "@,
        Token::Group(_, _, source) => source + " "@,
        Token::Other(text) => text + " "@,
    }
}

/// `tokens[i]` is left as it is: a macro or an attribute is given it.
pub open spec fn is_given(tokens: Seq<Token>, i: int) -> bool {
    sign_at(tokens, i - 1, '!') || sign_at(tokens, i - 1, '#')
}

/// The part that `tokens[i]` is; the quote of a lifetime is none by itself. `typed` says
/// whether the tokens are a type. The length of an array and what stands in braces are none:
/// there `&` is an operator, and a reference has its lifetime written.
pub open spec fn part_at(tokens: Seq<Token>, i: int, typed: bool) -> Seq<Part>
    decreases tokens, 1nat,
    when 0 <= i < tokens.len()
{
    let here = typed && !in_length(tokens, i);
    match tokens[i] {
        Token::Sign(c, _) => if c == '\'' {
            Seq::empty()
        } else if c == '&' && here {
            seq![Part::Amp]
        } else {
            seq![Part::Other(token_source(tokens[i]))]
        },
        Token::Ident(name) => if sign_at(tokens, i - 1, '\'') {
            seq![Part::Lifetime(name)]
        } else {
            seq![Part::Other(token_source(tokens[i]))]
        },
        Token::Group(bracket, inner, _) => if is_given(tokens, i) {
            seq![Part::Other(token_source(tokens[i]))]
        } else {
            match bracket {
                Bracket::Round => seq![Part::Group("( "@, parts_in(inner, here), ") "@)],
                Bracket::Square => seq![Part::Group("[ "@, parts_in(inner, here), "] "@)],
                Bracket::Brace => seq![Part::Group("{ "@, parts_in(inner, false), "} "@)],
                Bracket::Unseen => seq![Part::Group(""@, parts_in(inner, here), ""@)],
            }
        },
        Token::Other(_) => seq![Part::Other(token_source(tokens[i]))],
    }
}

/// The parts that the first `n` of `tokens` are.
pub open spec fn parts_up_to(tokens: Seq<Token>, n: nat, typed: bool) -> Seq<Part>
    decreases tokens, 2nat, n,
    when n <= tokens.len()
{
    if n == 0 {
        Seq::empty()
    } else {
        parts_up_to(tokens, (n - 1) as nat, typed) + part_at(tokens, n - 1, typed)
    }
}

/// The parts that `tokens` are. `typed` says whether they are a type.
pub open spec fn parts_in(tokens: Seq<Token>, typed: bool) -> Seq<Part>
    decreases tokens, 3nat,
{
    parts_up_to(tokens, tokens.len(), typed)
}

/// Whether the sign `c` stands at `i`.
fn is_sign(tokens: &Vec<TypeToken>, i: usize, c: char) -> (res: bool)
    requires
        i < tokens.len(),
    ensures
        res == sign_at(tokens.deep_view(), i as int, c),
{
    match &tokens[i] {
        TypeToken::Sign(sign, _) => *sign == c,
        _ => false,
    }
}

/// Prints a token, with a space behind it unless it belongs together with the next.
fn print_token(token: &TypeToken) -> (res: String)
    ensures
        res@ == token_source(token@),
{
    match token {
        TypeToken::Sign(c, joint) => {
            let mut out = String::new();
            out.push(*c);
            if !*joint {
                out.push(' ');
            }
            assert(out@ =~= token_source(token@));
            out
        },
        TypeToken::Ident(name) => name.as_str().to_string().concat(" "),
        TypeToken::Group(_, _, source) => source.as_str().to_string().concat(" "),
        TypeToken::Other(text) => text.as_str().to_string().concat(" "),
    }
}

/// A group of parts and what stands round it.
fn group_part(open: &str, inner: Vec<TypePart>, close: &str) -> (res: TypePart)
    ensures
        res@ == Part::Group(open@, inner.deep_view(), close@),
{
    let ghost parts = inner.deep_view();
    let res = TypePart::Group(open.to_string(), inner, close.to_string());
    assert(res@->Group_1 =~= parts);
    res
}

/// The parts that `tokens` are.
fn read_parts(tokens: &Vec<TypeToken>, typed: bool) -> (res: Vec<TypePart>)
    ensures
        res.deep_view() == parts_in(tokens.deep_view(), typed),
    decreases tokens,
{
    let ghost all = tokens.deep_view();
    let mut out: Vec<TypePart> = Vec::new();
    let mut length = false;
    let mut i: usize = 0;
    assert(out.deep_view() =~= Seq::<Part>::empty());
    while i < tokens.len()
        invariant
            all == tokens.deep_view(),
            i <= tokens.len(),
            length == in_length(all, i as int),
            out.deep_view() == parts_up_to(all, i as nat, typed),
        decreases tokens.len() - i,
    {
        let ghost before = out.deep_view();
        let token = &tokens[i];
        assert(all[i as int] == token@);
        let here = typed && !length;
        let quoted = i > 0 && is_sign(tokens, i - 1, '\'');
        let given = i > 0 && (is_sign(tokens, i - 1, '!') || is_sign(tokens, i - 1, '#'));
        let part = match token {
            TypeToken::Sign(c, _) => if *c == '\'' {
                None
            } else if *c == '&' && here {
                Some(TypePart::Amp)
            } else {
                Some(TypePart::Other(print_token(token)))
            },
            TypeToken::Ident(name) => if quoted {
                Some(TypePart::Lifetime(name.clone()))
            } else {
                Some(TypePart::Other(print_token(token)))
            },
            TypeToken::Group(bracket, inner, _) => {
                assert(inner.deep_view() =~= all[i as int]->Group_1);
                assert(decreases_to!(tokens => tokens@[i as int]));
                assert(decreases_to!(tokens@[i as int] => tokens@[i as int]->Group_1));
                if given {
                    Some(TypePart::Other(print_token(token)))
                } else {
                    Some(
                        match bracket {
                            Bracket::Round => group_part("( ", read_parts(inner, here), ") "),
                            Bracket::Square => group_part("[ ", read_parts(inner, here), "] "),
                            Bracket::Brace => group_part("{ ", read_parts(inner, false), "} "),
                            Bracket::Unseen => group_part("", read_parts(inner, here), ""),
                        },
                    )
                }
            },
            TypeToken::Other(_) => Some(TypePart::Other(print_token(token))),
        };
        let semicolon = is_sign(tokens, i, ';');
        match part {
            Some(part) => {
                let ghost added = part@;
                assert(part_at(all, i as int, typed) == seq![added]);
                out.push(part);
                assert(out.deep_view() =~= before + seq![added]);
            },
            None => {
                assert(part_at(all, i as int, typed) == Seq::<Part>::empty());
                assert(before + Seq::<Part>::empty() =~= before);
            },
        }
        proof {
            reveal_with_fuel(parts_up_to, 2);
            assert(parts_up_to(all, (i + 1) as nat, typed) == before + part_at(
                all,
                i as int,
                typed,
            ));
            if semicolon {
                assert(sign_at(all, i as int, ';'));
            }
            assert(in_length(all, i + 1) == (length || semicolon));
        }
        length = length || semicolon;
        i += 1;
    }
    out
}

/// The parts of the type that `tokens` are.
pub fn type_parts(tokens: &Vec<TypeToken>) -> (res: Vec<TypePart>)
    ensures
        res.deep_view() == parts_in(tokens.deep_view(), true),
{
    read_parts(tokens, true)
}

/// The lifetime that goes through the receiver, the arguments and the future.
pub const THREADED: &'static str = "'__leaf_async ";

/// The source of `parts[i]`. A lifetime that is left out, behind `&` or as `'_`, is the one
/// that goes through.
pub open spec fn part_source(parts: Seq<Part>, i: int) -> Seq<char>
    decreases parts, 1nat,
    when 0 <= i < parts.len()
{
    match parts[i] {
        Part::Amp => if i + 1 < parts.len() && parts[i + 1] is Lifetime {
            "&"@
        } else {
            "&"@ + THREADED@
        },
        Part::Lifetime(name) => if name == "_"@ {
            THREADED@
        } else {
            "'"@ + name + " "@
        },
        Part::Group(open, inner, close) => open + parts_source(inner) + close,
        Part::Other(text) => text,
    }
}

/// The source of all of `parts`, with the lifetimes filled in.
pub open spec fn parts_source(parts: Seq<Part>) -> Seq<char>
    decreases parts, 3nat,
{
    join(part_sources(parts), ""@)
}

/// The source of each of `parts`, with the lifetimes filled in.
pub open spec fn part_sources(parts: Seq<Part>) -> Seq<Seq<char>>
    decreases parts, 2nat,
{
    Seq::new(
        parts.len(),
        |i: int|
            if 0 <= i < parts.len() {
                part_source(parts, i)
            } else {
                arbitrary()
            },
    )
}

/// A lifetime that is left out is the threaded one, behind an `&` as well as where `'_` stands for
/// it; a named one stays. The parts of a type are printed in their order.
pub proof fn elided_lifetimes_are_threaded(parts: Seq<Part>, i: int, name: Seq<char>)
    requires
        0 <= i < parts.len(),
    ensures
        parts[i] == Part::Lifetime("_"@) ==> part_source(parts, i) == "'__leaf_async "@,
        parts[i] == Part::Lifetime(name) && name != "_"@ ==> part_source(parts, i) == "'"@ + name
            + " "@,
        parts[i] == Part::Amp && i + 1 < parts.len() && parts[i + 1] is Lifetime ==> part_source(
            parts,
            i,
        ) == "&"@,
        parts[i] == Part::Amp && (i + 1 == parts.len() || !(parts[i + 1] is Lifetime))
            ==> part_source(parts, i) == "&"@ + "'__leaf_async "@,
        parts[i] matches Part::Group(open, inner, close) ==> part_source(parts, i) == open
            + parts_source(inner) + close,
        parts[i] matches Part::Other(text) ==> part_source(parts, i) == text,
        series(parts_source(parts), part_sources(parts), ""@),
        part_sources(parts)[i] == part_source(parts, i),
        part_sources(parts).len() == parts.len(),
{
    join_is_a_series(part_sources(parts));
}

/// No lifetime is left out: each `&` has one behind it, and none is `'_`.
pub open spec fn all_named(parts: Seq<Part>) -> bool
    decreases parts,
{
    forall|i: int|
        0 <= i < parts.len() ==> match #[trigger] parts[i] {
            Part::Amp => i + 1 < parts.len() && parts[i + 1] is Lifetime,
            Part::Lifetime(name) => name != "_"@,
            Part::Group(_, inner, _) => all_named(inner),
            Part::Other(_) => true,
        }
}

/// The parts of the tokens of a type stand in the order of the tokens.
pub proof fn parts_keep_the_order_of_tokens(tokens: Seq<Token>, i: nat, typed: bool)
    requires
        i < tokens.len(),
    ensures
        ({
            let all = parts_in(tokens, typed);
            let front = parts_up_to(tokens, i, typed).len() as int;
            let here = part_at(tokens, i as int, typed);
            &&& front + here.len() <= all.len()
            &&& all.subrange(front, front + here.len()) == here
            &&& all.take(front) == parts_up_to(tokens, i, typed)
        }),
{
    let all = parts_in(tokens, typed);
    let front = parts_up_to(tokens, i, typed);
    let here = part_at(tokens, i as int, typed);
    first_parts_come_first(tokens, i + 1, tokens.len(), typed);
    assert(parts_up_to(tokens, i + 1, typed) == front + here);
    assert(all.take((front + here).len() as int) == front + here);
    assert(all.subrange(front.len() as int, (front.len() + here.len()) as int) =~= here) by {
        assert(all.take((front + here).len() as int).skip(front.len() as int) =~= all.subrange(
            front.len() as int,
            (front.len() + here.len()) as int,
        ));
        assert((front + here).skip(front.len() as int) =~= here);
    }
    assert(all.take(front.len() as int) =~= (front + here).take(front.len() as int));
    assert((front + here).take(front.len() as int) =~= front);
}

/// The parts of the first tokens come first.
proof fn first_parts_come_first(tokens: Seq<Token>, i: nat, n: nat, typed: bool)
    requires
        i <= n <= tokens.len(),
    ensures
        parts_up_to(tokens, i, typed).len() <= parts_up_to(tokens, n, typed).len(),
        parts_up_to(tokens, n, typed).take(parts_up_to(tokens, i, typed).len() as int)
            == parts_up_to(tokens, i, typed),
    decreases n,
{
    if i < n {
        first_parts_come_first(tokens, i, (n - 1) as nat, typed);
        let short = parts_up_to(tokens, (n - 1) as nat, typed);
        let front = parts_up_to(tokens, i, typed);
        assert(parts_up_to(tokens, n, typed).take(front.len() as int) =~= short.take(
            front.len() as int,
        ));
    }
}

/// A token of a type becomes its part: a quote and the name behind it are a lifetime; an `&` borrows
/// in a type, but not in the length of an array; what stands in brackets is read on, as a type unless
/// the brackets are braces; and what a macro or an attribute is given stays as it is written.
pub proof fn tokens_become_their_parts(tokens: Seq<Token>, i: int, typed: bool, before: Token)
    requires
        0 < i < tokens.len(),
        before == tokens[i - 1],
    ensures
        tokens[i] matches Token::Sign(c, joint) ==> part_at(tokens, i, typed) == if c == '\'' {
            Seq::<Part>::empty()
        } else if c == '&' && typed && !(exists|k: int|
            0 <= k < i && (#[trigger] tokens[k] matches Token::Sign(end, _) && end == ';')) {
            seq![Part::Amp]
        } else if joint {
            seq![Part::Other(seq![c])]
        } else {
            seq![Part::Other(seq![c, ' '])]
        },
        tokens[i] matches Token::Ident(name) ==> part_at(tokens, i, typed) == if (before matches Token::Sign(
            c,
            _,
        ) && c == '\'') {
            seq![Part::Lifetime(name)]
        } else {
            seq![Part::Other(name + " "@)]
        },
        tokens[i] matches Token::Other(text) ==> part_at(tokens, i, typed) == seq![
            Part::Other(text + " "@),
        ],
        tokens[i] matches Token::Group(bracket, inner, source) ==> (if (before matches Token::Sign(
            c,
            _,
        ) && (c == '!' || c == '#')) {
            part_at(tokens, i, typed) == seq![Part::Other(source + " "@)]
        } else if bracket == Bracket::Brace {
            part_at(tokens, i, typed) == seq![Part::Group("{ "@, parts_in(inner, false), "} "@)]
        } else {
            let here = typed && !(exists|k: int|
                0 <= k < i && (#[trigger] tokens[k] matches Token::Sign(end, _) && end == ';'));
            part_at(tokens, i, typed) == if bracket == Bracket::Round {
                seq![Part::Group("( "@, parts_in(inner, here), ") "@)]
            } else if bracket == Bracket::Square {
                seq![Part::Group("[ "@, parts_in(inner, here), "] "@)]
            } else {
                seq![Part::Group(""@, parts_in(inner, here), ""@)]
            }
        }),
{
    let ended = exists|k: int|
        0 <= k < i && (#[trigger] tokens[k] matches Token::Sign(end, _) && end == ';');
    assert(in_length(tokens, i) == ended) by {
        if ended {
            let k = choose|k: int|
                0 <= k < i && (#[trigger] tokens[k] matches Token::Sign(end, _) && end == ';');
            assert(sign_at(tokens, k, ';'));
        }
        if in_length(tokens, i) {
            let k = choose|k: int| 0 <= k < i && #[trigger] sign_at(tokens, k, ';');
            assert(tokens[k] matches Token::Sign(end, _) && end == ';');
        }
    }
}

/// The source of `parts[i]`, as it is written.
pub open spec fn part_as_written(parts: Seq<Part>, i: int) -> Seq<char>
    decreases parts, 1nat,
    when 0 <= i < parts.len()
{
    match parts[i] {
        Part::Amp => "&"@,
        Part::Lifetime(name) => "'"@ + name + " "@,
        Part::Group(open, inner, close) => open + as_written(inner) + close,
        Part::Other(text) => text,
    }
}

/// The source of each of `parts`, as it is written.
pub open spec fn parts_as_written(parts: Seq<Part>) -> Seq<Seq<char>>
    decreases parts, 2nat,
{
    Seq::new(
        parts.len(),
        |i: int|
            if 0 <= i < parts.len() {
                part_as_written(parts, i)
            } else {
                arbitrary()
            },
    )
}

/// The source of all of `parts`, as they are written.
pub open spec fn as_written(parts: Seq<Part>) -> Seq<char>
    decreases parts, 3nat,
{
    join(parts_as_written(parts), ""@)
}

/// A type in which no lifetime is left out is printed as it is written.
pub proof fn named_lifetimes_are_kept(parts: Seq<Part>)
    requires
        all_named(parts),
    ensures
        parts_source(parts) == as_written(parts),
    decreases parts,
{
    reveal_with_fuel(all_named, 2);
    assert forall|i: int| 0 <= i < parts.len() implies #[trigger] part_sources(parts)[i]
        == parts_as_written(parts)[i] by {
        reveal_with_fuel(part_sources, 3);
        reveal_with_fuel(parts_as_written, 3);
        if let Part::Group(_, inner, _) = parts[i] {
            assert(decreases_to!(parts => parts[i]));
            assert(decreases_to!(parts[i] => parts[i]->Group_1));
            named_lifetimes_are_kept(inner);
        }
        assert(part_source(parts, i) == part_as_written(parts, i));
    }
    assert(part_sources(parts) =~= parts_as_written(parts));
}

/// Prints all of `parts`, with the lifetimes filled in.
fn print_parts(parts: &Vec<TypePart>) -> (res: String)
    ensures
        res@ == parts_source(parts.deep_view()),
    decreases parts,
{
    let ghost all = parts.deep_view();
    let mut rows: Vec<String> = Vec::new();
    let mut i: usize = 0;
    while i < parts.len()
        invariant
            all == parts.deep_view(),
            i <= parts.len(),
            rows@.len() == i,
            forall|k: int| 0 <= k < i ==> (#[trigger] rows@[k])@ == part_source(all, k),
        decreases parts.len() - i,
    {
        assert(all[i as int] == parts@[i as int]@);
        assert(decreases_to!(parts => parts@[i as int]));
        let row = match &parts[i] {
            TypePart::Amp => {
                let named = if i + 1 < parts.len() {
                    assert(all[i + 1] == parts@[i + 1]@);
                    match &parts[i + 1] {
                        TypePart::Lifetime(_) => true,
                        _ => false,
                    }
                } else {
                    false
                };
                if named {
                    "&".to_string()
                } else {
                    "&".to_string().concat(THREADED)
                }
            },
            TypePart::Lifetime(name) => if str_eq(name.as_str(), "_") {
                THREADED.to_string()
            } else {
                "'".to_string().concat(name.as_str()).concat(" ")
            },
            TypePart::Group(open, inner, close) => {
                assert(decreases_to!(parts@[i as int] => parts@[i as int]->Group_1));
                assert(inner.deep_view() =~= all[i as int]->Group_1);
                let inner = print_parts(inner);
                open.clone().concat(inner.as_str()).concat(close.as_str())
            },
            TypePart::Other(text) => text.clone(),
        };
        assert(row@ == part_source(all, i as int));
        rows.push(row);
        i += 1;
    }
    assert(rows.deep_view() =~= part_sources(all));
    join_texts(&rows, "")
}

/// A parameter of a method.
#[derive(Debug, PartialEq, Eq)]
pub enum MethodParam {
    /// The receiver: its attributes, whether it is borrowed, the lifetime where one is
    /// written, without the quote, and what follows.
    Receiver { front: String, borrowed: bool, lifetime: Option<String>, rest: String },
    /// An argument: its pattern and its type.
    Typed { pattern: String, ty: Vec<TypePart> },
}

/// What a [`MethodParam`] stands for.
pub ghost enum ParamForm {
    Receiver { front: Seq<char>, borrowed: bool, lifetime: Option<Seq<char>>, rest: Seq<char> },
    Typed { pattern: Seq<char>, ty: Seq<Part> },
}

impl View for MethodParam {
    type V = ParamForm;

    open spec fn view(&self) -> ParamForm {
        match self {
            MethodParam::Receiver { front, borrowed, lifetime, rest } => ParamForm::Receiver {
                front: front@,
                borrowed: *borrowed,
                lifetime: lifetime.deep_view(),
                rest: rest@,
            },
            MethodParam::Typed { pattern, ty } => ParamForm::Typed {
                pattern: pattern@,
                ty: ty.deep_view(),
            },
        }
    }
}

impl DeepView for MethodParam {
    type V = ParamForm;

    open spec fn deep_view(&self) -> ParamForm {
        self@
    }
}

/// A method of an `impl` block.
#[derive(Debug, PartialEq, Eq)]
pub struct ImplMethod {
    /// The whole source.
    pub source: String,
    /// Whether it is written as `async fn`.
    pub is_async: bool,
    /// What stands before `fn`, without `async`.
    pub front: String,
    /// The name.
    pub ident: String,
    /// The generic parameters.
    pub generics: Vec<String>,
    /// The parameters.
    pub params: Vec<MethodParam>,
    /// The type that it returns, where one is written.
    pub output: Option<String>,
    /// The `where` clause.
    pub where_clause: String,
    /// The body, in its braces.
    pub body: String,
}

/// What an [`ImplMethod`] stands for.
pub ghost struct MethodForm {
    pub source: Seq<char>,
    pub is_async: bool,
    pub front: Seq<char>,
    pub ident: Seq<char>,
    pub generics: Seq<Seq<char>>,
    pub params: Seq<ParamForm>,
    pub output: Option<Seq<char>>,
    pub where_clause: Seq<char>,
    pub body: Seq<char>,
}

impl View for ImplMethod {
    type V = MethodForm;

    open spec fn view(&self) -> MethodForm {
        MethodForm {
            source: self.source@,
            is_async: self.is_async,
            front: self.front@,
            ident: self.ident@,
            generics: self.generics.deep_view(),
            params: self.params.deep_view(),
            output: self.output.deep_view(),
            where_clause: self.where_clause@,
            body: self.body@,
        }
    }
}

impl DeepView for ImplMethod {
    type V = MethodForm;

    open spec fn deep_view(&self) -> MethodForm {
        self@
    }
}

/// An item of an `impl` block.
#[derive(Debug, PartialEq, Eq)]
pub enum BlockItem {
    /// A method.
    Method(ImplMethod),
    /// The source of anything else.
    Other(String),
}

/// What a [`BlockItem`] stands for.
pub ghost enum BlockForm {
    Method(MethodForm),
    Other(Seq<char>),
}

impl View for BlockItem {
    type V = BlockForm;

    open spec fn view(&self) -> BlockForm {
        match self {
            BlockItem::Method(method) => BlockForm::Method(method@),
            BlockItem::Other(source) => BlockForm::Other(source@),
        }
    }
}

impl DeepView for BlockItem {
    type V = BlockForm;

    open spec fn deep_view(&self) -> BlockForm {
        self@
    }
}

/// An `impl` block.
#[derive(Debug, PartialEq, Eq)]
pub struct ImplBlock {
    /// What stands before the braces.
    pub head: String,
    /// The items.
    pub items: Vec<BlockItem>,
}

/// The source of a parameter: the lifetime goes through a receiver that is borrowed without
/// one, and through the type of an argument.
pub open spec fn param_source(p: ParamForm) -> Seq<char> {
    match p {
        ParamForm::Receiver { front, borrowed, lifetime, rest } => front + (if !borrowed {
            rest
        } else {
            match lifetime {
                Some(name) => "&'"@ + name + " "@ + rest,
                None => "&"@ + THREADED@ + rest,
            }
        }),
        ParamForm::Typed { pattern, ty } => pattern + ": "@ + parts_source(ty),
    }
}

/// A parameter is printed with its pattern and its type; a receiver that is borrowed without a
/// lifetime is borrowed for the threaded one, and any other stays as it is.
pub proof fn receiver_is_threaded(front: Seq<char>, rest: Seq<char>, name: Seq<char>, ty: Seq<Part>)
    ensures
        param_source(ParamForm::Receiver { front, borrowed: true, lifetime: None, rest }) == front + (
        "&"@ + "'__leaf_async "@ + rest),
        param_source(ParamForm::Receiver { front, borrowed: true, lifetime: Some(name), rest })
            == front + ("&'"@ + name + " "@ + rest),
        param_source(ParamForm::Receiver { front, borrowed: false, lifetime: None, rest }) == front
            + rest,
        param_source(ParamForm::Typed { pattern: front, ty }) == front + ": "@ + parts_source(ty),
{
}

/// The source of parameters.
pub open spec fn param_sources(params: Seq<ParamForm>) -> Seq<Seq<char>> {
    Seq::new(params.len(), |i: int| param_source(params[i]))
}

/// Prints a parameter.
fn print_param(param: &MethodParam) -> (res: String)
    ensures
        res@ == param_source(param@),
{
    match param {
        MethodParam::Receiver { front, borrowed, lifetime, rest } => {
            let receiver = if !*borrowed {
                rest.clone()
            } else {
                match lifetime {
                    Some(name) => "&'".to_string().concat(name.as_str()).concat(" ").concat(
                        rest.as_str(),
                    ),
                    None => "&".to_string().concat(THREADED).concat(rest.as_str()),
                }
            };
            front.clone().concat(receiver.as_str())
        },
        MethodParam::Typed { pattern, ty } => {
            let ty = print_parts(ty);
            pattern.clone().concat(": ").concat(ty.as_str())
        },
    }
}

/// The source of a method: an `async fn` returns a boxed future in place of what it is
/// declared to return, and any other method is left as it is.
pub open spec fn method_source(m: MethodForm) -> Seq<char> {
    if !m.is_async {
        m.source
    } else {
        m.front + "fn "@ + m.ident + "<"@ + join(
            Seq::empty().push(THREADED@) + m.generics,
            ", "@,
        ) + ">("@ + join(param_sources(m.params), ", "@) + ") -> ::leaf_core::BoxFuture<"@
            + THREADED@ + ", "@ + match m.output {
            Some(ty) => ty,
            None => "()"@,
        } + "> "@ + m.where_clause + " { ::std::boxed::Box::pin(async move "@ + m.body + ") }"@
    }
}

/// Prints a method.
fn desugar(method: &ImplMethod) -> (res: String)
    ensures
        res@ == method_source(method@),
{
    if !method.is_async {
        return method.source.clone();
    }
    let mut generics: Vec<String> = Vec::new();
    generics.push(THREADED.to_string());
    let mut i: usize = 0;
    assert(generics.deep_view() =~= Seq::empty().push(THREADED@) + method@.generics.take(0));
    while i < method.generics.len()
        invariant
            i <= method.generics.len(),
            generics.deep_view() == Seq::empty().push(THREADED@) + method@.generics.take(i as int),
        decreases method.generics.len() - i,
    {
        let ghost before = generics.deep_view();
        generics.push(method.generics[i].clone());
        assert(generics.deep_view() =~= before.push(method@.generics[i as int]));
        assert(method@.generics.take(i + 1) =~= method@.generics.take(i as int).push(
            method@.generics[i as int],
        ));
        i += 1;
    }
    assert(method@.generics.take(i as int) =~= method@.generics);
    let mut params: Vec<String> = Vec::new();
    let mut k: usize = 0;
    while k < method.params.len()
        invariant
            k <= method.params.len(),
            params@.len() == k,
            forall|n: int|
                0 <= n < k ==> (#[trigger] params@[n])@ == param_source(method.params@[n]@),
        decreases method.params.len() - k,
    {
        params.push(print_param(&method.params[k]));
        k += 1;
    }
    assert(params.deep_view() =~= param_sources(method@.params));
    let generics = join_texts(&generics, ", ");
    let params = join_texts(&params, ", ");
    let output = match &method.output {
        Some(ty) => ty.as_str(),
        None => "()",
    };
    method.front.clone().concat("fn ").concat(method.ident.as_str()).concat("<").concat(
        generics.as_str(),
    ).concat(">(").concat(params.as_str()).concat(") -> ::leaf_core::BoxFuture<").concat(
        THREADED,
    ).concat(", ").concat(output).concat("> ").concat(method.where_clause.as_str()).concat(
        " { ::std::boxed::Box::pin(async move ",
    ).concat(method.body.as_str()).concat(") }")
}

/// A method that is not asynchronous stays as it is. One that is becomes a function over the threaded
/// lifetime, in front of its own generics, with its parameters, in their order; it returns a future
/// of its result, or of nothing, which runs its body.
pub proof fn async_method_returns_a_future(m: MethodForm)
    ensures
        !m.is_async ==> method_source(m) == m.source,
        m.is_async ==> {
            let generics = join(Seq::empty().push(THREADED@) + m.generics, ", "@);
            let params = join(param_sources(m.params), ", "@);
            &&& lists(generics, seq!["'__leaf_async "@] + m.generics, ", "@)
            &&& lists(
                params,
                Seq::new(m.params.len(), |i: int| param_source(m.params[i])),
                ", "@,
            )
            &&& within(
                method_source(m),
                m.front + "fn "@ + m.ident + "<"@ + generics + ">("@ + params
                    + ") -> ::leaf_core::BoxFuture<"@ + "'__leaf_async "@ + ", "@
                    + match m.output {
                    Some(ty) => ty,
                    None => "()"@,
                } + "> "@ + m.where_clause + " { ::std::boxed::Box::pin(async move "@,
                ") }"@,
            ) == Some(m.body)
        },
{
    if m.is_async {
        let names = seq!["'__leaf_async "@] + m.generics;
        assert(Seq::<Seq<char>>::empty().push(THREADED@) + m.generics =~= names);
        joined_lists(names, ", "@);
        joined_lists(param_sources(m.params), ", "@);
        assert(param_sources(m.params) =~= Seq::new(
            m.params.len(),
            |i: int| param_source(m.params[i]),
        ));
        within_brackets(
            m.front + "fn "@ + m.ident + "<"@ + join(names, ", "@) + ">("@ + join(
                param_sources(m.params),
                ", "@,
            ) + ") -> ::leaf_core::BoxFuture<"@ + "'__leaf_async "@ + ", "@ + match m.output {
                Some(ty) => ty,
                None => "()"@,
            } + "> "@ + m.where_clause + " { ::std::boxed::Box::pin(async move "@,
            m.body,
            ") }"@,
        );
    }
}

/// The source of an item.
pub open spec fn item_source(item: BlockForm) -> Seq<char> {
    match item {
        BlockForm::Method(method) => method_source(method),
        BlockForm::Other(source) => source,
    }
}

/// Whatever is no `async fn` is printed as it is written.
pub proof fn other_items_are_kept(item: BlockForm)
    ensures
        item matches BlockForm::Other(source) ==> item_source(item) == source,
        item matches BlockForm::Method(m) ==> !m.is_async ==> item_source(item) == m.source,
{
}

/// The source of items.
pub open spec fn item_sources(items: Seq<BlockForm>) -> Seq<Seq<char>> {
    Seq::new(items.len(), |i: int| item_source(items[i]))
}

/// Prints an `impl` block in which every `async fn` returns a boxed future.
pub fn expand(item: &ImplBlock) -> (res: String)
    ensures
        res@ == item.head@ + " { "@ + join(item_sources(item.items.deep_view()), " "@) + " }"@,
        within(res@, item.head@ + " { "@, " }"@) matches Some(inner) && lists(
            inner,
            Seq::new(item.items@.len(), |i: int| item_source(item.items@[i]@)),
            " "@,
        ),
{
    proof {
        let each = Seq::new(item.items@.len(), |i: int| item_source(item.items@[i]@));
        assert(item_sources(item.items.deep_view()) =~= each);
        joined_lists(each, " "@);
        within_brackets(item.head@ + " { "@, join(each, " "@), " }"@);
    }
    let mut rows: Vec<String> = Vec::new();
    let mut i: usize = 0;
    while i < item.items.len()
        invariant
            i <= item.items.len(),
            rows@.len() == i,
            forall|k: int| 0 <= k < i ==> (#[trigger] rows@[k])@ == item_source(item.items@[k]@),
        decreases item.items.len() - i,
    {
        let row = match &item.items[i] {
            BlockItem::Method(method) => desugar(method),
            BlockItem::Other(source) => source.clone(),
        };
        rows.push(row);
        i += 1;
    }
    assert(rows.deep_view() =~= item_sources(item.items.deep_view()));
    let rows = join_texts(&rows, " ");
    item.head.clone().concat(" { ").concat(rows.as_str()).concat(" }")
}

} // verus!
