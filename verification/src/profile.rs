//! Profile expressions: names of profiles under `!`, `&` and `|`.
use vstd::prelude::*;

use crate::args::{arguments, error, parse_arguments, told, Arg, ArgKind, EmitError, Expression, Form};
use crate::chars::{alphanumeric, is_alphanumeric, is_white_space, white_space};
use crate::reading::{encloses, list_is_enclosed, within, within_brackets};
use crate::syntax::{literal_source, string_literal};
use crate::text::{chars_of, join, join_texts, slice_text};

verus! {

/// An expression over the names of profiles.
#[derive(Debug, PartialEq, Eq)]
pub enum ProfileExpr {
    /// The profile of that name is active.
    Name(String),
    /// The expression does not hold.
    Not(Box<ProfileExpr>),
    /// Every one holds.
    And(Vec<ProfileExpr>),
    /// One of them holds at least.
    Or(Vec<ProfileExpr>),
}

/// What a [`ProfileExpr`] stands for.
pub ghost enum Profile {
    Name(Seq<char>),
    Not(Box<Profile>),
    And(Seq<Profile>),
    Or(Seq<Profile>),
}

/// The expression that `p` stands for.
pub open spec fn profile_of(p: ProfileExpr) -> Profile
    decreases p,
{
    match p {
        ProfileExpr::Name(name) => Profile::Name(name@),
        ProfileExpr::Not(inner) => Profile::Not(Box::new(profile_of(*inner))),
        ProfileExpr::And(parts) => Profile::And(
            Seq::new(
                parts@.len(),
                |i: int|
                    if 0 <= i < parts@.len() {
                        profile_of(parts@[i])
                    } else {
                        arbitrary()
                    },
            ),
        ),
        ProfileExpr::Or(parts) => Profile::Or(
            Seq::new(
                parts@.len(),
                |i: int|
                    if 0 <= i < parts@.len() {
                        profile_of(parts@[i])
                    } else {
                        arbitrary()
                    },
            ),
        ),
    }
}

impl View for ProfileExpr {
    type V = Profile;

    open spec fn view(&self) -> Profile {
        profile_of(*self)
    }
}

impl DeepView for ProfileExpr {
    type V = Profile;

    open spec fn deep_view(&self) -> Profile {
        profile_of(*self)
    }
}

/// A token of a profile expression.
#[derive(Debug, PartialEq, Eq)]
pub enum PTok {
    /// A name.
    Name(String),
    /// `!`.
    Not,
    /// `&`.
    And,
    /// `|`.
    Or,
    /// `(`.
    LParen,
    /// `)`.
    RParen,
}

/// What a [`PTok`] stands for.
pub ghost enum Token {
    Name(Seq<char>),
    Not,
    And,
    Or,
    LParen,
    RParen,
}

impl View for PTok {
    type V = Token;

    open spec fn view(&self) -> Token {
        match self {
            PTok::Name(name) => Token::Name(name@),
            PTok::Not => Token::Not,
            PTok::And => Token::And,
            PTok::Or => Token::Or,
            PTok::LParen => Token::LParen,
            PTok::RParen => Token::RParen,
        }
    }
}

impl DeepView for PTok {
    type V = Token;

    open spec fn deep_view(&self) -> Token {
        self@
    }
}

/// `c` separates tokens: it is white space.
pub open spec fn separates(c: char) -> bool {
    white_space(c)
}

/// `c` can stand in a name: a letter, a numeric character, `_`, `.` or `-`.
pub open spec fn in_name(c: char) -> bool {
    c == '_' || c == '.' || c == '-' || alphanumeric(c)
}

/// Whether `c` separates tokens.
fn is_separator(c: char) -> (res: bool)
    ensures
        res == separates(c),
{
    is_white_space(c)
}

/// Whether `c` can stand in a name.
fn is_in_name(c: char) -> (res: bool)
    ensures
        res == in_name(c),
{
    c == '_' || c == '.' || c == '-' || is_alphanumeric(c)
}

/// The token that a character is by itself.
pub open spec fn sign(c: char) -> Option<Token> {
    if c == '!' {
        Some(Token::Not)
    } else if c == '&' {
        Some(Token::And)
    } else if c == '|' {
        Some(Token::Or)
    } else if c == '(' {
        Some(Token::LParen)
    } else if c == ')' {
        Some(Token::RParen)
    } else {
        None
    }
}

/// The length of the name that `s` begins with.
pub open spec fn run(s: Seq<char>) -> nat
    decreases s.len(),
{
    if s.len() > 0 && in_name(s[0]) {
        1 + run(s.drop_first())
    } else {
        0
    }
}

/// A name is never longer than the text it is read from.
proof fn run_bound(s: Seq<char>)
    ensures
        run(s) <= s.len(),
        forall|i: int| 0 <= i < run(s) ==> in_name(#[trigger] s[i]),
    decreases s.len(),
{
    if s.len() > 0 && in_name(s[0]) {
        run_bound(s.drop_first());
        assert forall|i: int| 0 <= i < run(s) implies in_name(#[trigger] s[i]) by {
            if i > 0 {
                assert(s[i] == s.drop_first()[i - 1]);
            }
        }
    }
}

/// The tokens of `s` behind a first one.
pub open spec fn behind(
    first: Token,
    rest: Result<Seq<Token>, Seq<char>>,
) -> Result<Seq<Token>, Seq<char>> {
    match rest {
        Ok(more) => Ok(seq![first] + more),
        Err(message) => Err(message),
    }
}

/// The tokens of `s`, or what is wrong with it.
pub open spec fn tokens(s: Seq<char>) -> Result<Seq<Token>, Seq<char>>
    decreases s.len(),
{
    if s.len() == 0 {
        Ok(Seq::empty())
    } else if separates(s[0]) {
        tokens(s.drop_first())
    } else if sign(s[0]) is Some {
        behind(sign(s[0])->0, tokens(s.drop_first()))
    } else if 0 < run(s) <= s.len() {
        behind(Token::Name(s.take(run(s) as int)), tokens(s.skip(run(s) as int)))
    } else {
        Err("illegal character `"@ + seq![s[0]] + "` in profile expression"@)
    }
}

/// The token that a character is by itself.
fn sign_of(c: char) -> (res: Option<PTok>)
    ensures
        res.deep_view() == sign(c),
{
    if c == '!' {
        Some(PTok::Not)
    } else if c == '&' {
        Some(PTok::And)
    } else if c == '|' {
        Some(PTok::Or)
    } else if c == '(' {
        Some(PTok::LParen)
    } else if c == ')' {
        Some(PTok::RParen)
    } else {
        None
    }
}

/// Where the name that begins at `from` ends.
fn name_end(chars: &Vec<char>, from: usize) -> (res: usize)
    requires
        from <= chars.len(),
    ensures
        from <= res <= chars.len(),
        res - from == run(chars@.skip(from as int)),
{
    let mut i: usize = from;
    while i < chars.len() && is_in_name(chars[i])
        invariant
            from <= i <= chars.len(),
            run(chars@.skip(from as int)) == (i - from) + run(chars@.skip(i as int)),
        decreases chars.len() - i,
    {
        assert(chars@.skip(i as int).drop_first() =~= chars@.skip(i + 1));
        i += 1;
    }
    i
}

/// A result that is a list of tokens, as the contracts speak of it.
pub open spec fn told_tokens(res: Result<Vec<PTok>, EmitError>) -> Result<Seq<Token>, Seq<char>> {
    match res {
        Ok(list) => Ok(list.deep_view()),
        Err(e) => Err(e.message@),
    }
}

/// The tokens of an expression, of which there is one at least.
pub open spec fn expression_tokens(s: Seq<char>) -> Result<Seq<Token>, Seq<char>> {
    match tokens(s) {
        Ok(list) => if list.len() == 0 {
            Err("empty profile expression"@)
        } else {
            Ok(list)
        },
        Err(message) => Err(message),
    }
}

/// The tokens of `rest` behind those of `out`.
spec fn joined(
    out: Seq<Token>,
    rest: Result<Seq<Token>, Seq<char>>,
) -> Result<Seq<Token>, Seq<char>> {
    match rest {
        Ok(more) => Ok(out + more),
        Err(message) => Err(message),
    }
}

/// Reads the tokens of a profile expression.
fn tokenize_profile(s: &str) -> (res: Result<Vec<PTok>, EmitError>)
    ensures
        told_tokens(res) == expression_tokens(s@),
{
    let chars = chars_of(s);
    let mut out: Vec<PTok> = Vec::new();
    let mut i: usize = 0;
    proof {
        assert(chars@.skip(0) =~= s@);
        if tokens(s@) is Ok {
            assert(out.deep_view() + tokens(s@)->Ok_0 =~= tokens(s@)->Ok_0);
        }
    }
    while i < chars.len()
        invariant
            chars@ == s@,
            i <= chars.len(),
            tokens(s@) == joined(out.deep_view(), tokens(chars@.skip(i as int))),
        decreases chars.len() - i,
    {
        let c = chars[i];
        let ghost here = chars@.skip(i as int);
        let ghost before = out.deep_view();
        assert(here[0] == c);
        assert(here.drop_first() =~= chars@.skip(i + 1));
        if is_separator(c) {
            i += 1;
        } else {
            match sign_of(c) {
                Some(token) => {
                    let ghost first = token@;
                    out.push(token);
                    i += 1;
                    proof {
                        assert(out.deep_view() =~= before.push(first));
                        let rest = tokens(chars@.skip(i as int));
                        if rest is Ok {
                            assert(before + (seq![first] + rest->Ok_0) =~= out.deep_view()
                                + rest->Ok_0);
                        }
                    }
                },
                None => {
                    let end = name_end(&chars, i);
                    if end == i {
                        assert(run(here) == 0);
                        let mut one = String::new();
                        one.push(c);
                        assert(one@ =~= seq![c]);
                        return error(
                            "illegal character `".to_string().concat(one.as_str()).concat(
                                "` in profile expression",
                            ),
                        );
                    }
                    let name = slice_text(&chars, i, end);
                    proof {
                        assert(here.take(run(here) as int) =~= chars@.subrange(
                            i as int,
                            end as int,
                        ));
                        assert(here.skip(run(here) as int) =~= chars@.skip(end as int));
                    }
                    let ghost first = Token::Name(name@);
                    out.push(PTok::Name(name));
                    i = end;
                    proof {
                        assert(out.deep_view() =~= before.push(first));
                        let rest = tokens(chars@.skip(i as int));
                        if rest is Ok {
                            assert(before + (seq![first] + rest->Ok_0) =~= out.deep_view()
                                + rest->Ok_0);
                        }
                    }
                },
            }
        }
    }
    assert(out.deep_view() + Seq::<Token>::empty() =~= out.deep_view());
    if out.len() == 0 {
        error("empty profile expression".to_string())
    } else {
        Ok(out)
    }
}

/// `t` combines expressions.
pub open spec fn combines(t: Token) -> bool {
    t is And || t is Or
}

/// How a token is shown where a name, `!` or `(` was looked for.
pub open spec fn token_name(t: Token) -> Seq<char> {
    match t {
        Token::And => "And"@,
        Token::Or => "Or"@,
        _ => "RParen"@,
    }
}

/// The expressions combined by `op`.
pub open spec fn combination(op: Token, parts: Seq<Profile>) -> Profile {
    if op is And {
        Profile::And(parts)
    } else {
        Profile::Or(parts)
    }
}

/// The expression that begins at `pos` and holds no sign outside brackets but `!`, with
/// the place behind it; or what is wrong.
pub open spec fn primary(t: Seq<Token>, pos: nat) -> Result<(Profile, nat), Seq<char>>
    decreases t.len() - pos, 0nat,
{
    if pos >= t.len() {
        Err("unexpected end of profile expression"@)
    } else {
        match t[pos as int] {
            Token::Not => match primary(t, pos + 1) {
                Ok((inner, next)) => Ok((Profile::Not(Box::new(inner)), next)),
                Err(message) => Err(message),
            },
            Token::LParen => match level(t, pos + 1) {
                Ok((inner, next)) => if next < t.len() && t[next as int] is RParen {
                    Ok((inner, next + 1))
                } else {
                    Err("missing closing parenthesis in profile expression"@)
                },
                Err(message) => Err(message),
            },
            Token::Name(name) => Ok((Profile::Name(name), pos + 1)),
            other => Err(
                "expected a profile name, `!`, or `(`, got `"@ + token_name(other) + "`"@,
            ),
        }
    }
}

/// The expression that begins at `pos`, with the place behind it; or what is wrong. One
/// level of brackets combines with `&` alone or with `|` alone.
pub open spec fn level(t: Seq<Token>, pos: nat) -> Result<(Profile, nat), Seq<char>>
    decreases t.len() - pos, 1nat,
{
    match primary(t, pos) {
        Ok((first, next)) => if pos < next < t.len() && combines(t[next as int]) {
            match operands(t, next, t[next as int]) {
                Ok((more, end)) => Ok((combination(t[next as int], seq![first] + more), end)),
                Err(message) => Err(message),
            }
        } else {
            Ok((first, next))
        },
        Err(message) => Err(message),
    }
}

/// The expressions behind `pos` that `op` combines with what stands before, with the place
/// behind them; or what is wrong.
pub open spec fn operands(t: Seq<Token>, pos: nat, op: Token) -> Result<
    (Seq<Profile>, nat),
    Seq<char>,
>
    decreases t.len() - pos, 0nat,
{
    if pos < t.len() && combines(t[pos as int]) {
        if t[pos as int] == op {
            match primary(t, pos + 1) {
                Ok((one, next)) => if pos < next <= t.len() {
                    match operands(t, next, op) {
                        Ok((more, end)) => Ok((seq![one] + more, end)),
                        Err(message) => Err(message),
                    }
                } else {
                    Ok((Seq::empty(), pos))
                },
                Err(message) => Err(message),
            }
        } else {
            Err("mixed `&` and `|` without parentheses in profile expression"@)
        }
    } else {
        Ok((Seq::empty(), pos))
    }
}

/// An expression takes one token at least, and no more than there are.
proof fn primary_advances(t: Seq<Token>, pos: nat)
    ensures
        primary(t, pos) matches Ok((_, next)) ==> pos < next <= t.len(),
    decreases t.len() - pos, 0nat,
{
    if pos < t.len() {
        match t[pos as int] {
            Token::Not => primary_advances(t, pos + 1),
            Token::LParen => level_advances(t, pos + 1),
            _ => {},
        }
    }
}

/// An expression takes one token at least, and no more than there are.
proof fn level_advances(t: Seq<Token>, pos: nat)
    ensures
        level(t, pos) matches Ok((_, next)) ==> pos < next <= t.len(),
    decreases t.len() - pos, 1nat,
{
    primary_advances(t, pos);
    if let Ok((_, next)) = primary(t, pos) {
        if next < t.len() && combines(t[next as int]) {
            operands_advance(t, next, t[next as int]);
        }
    }
}

/// Expressions take no more tokens than there are.
proof fn operands_advance(t: Seq<Token>, pos: nat, op: Token)
    ensures
        operands(t, pos, op) matches Ok((_, end)) ==> pos <= end && (pos <= t.len() ==> end
            <= t.len()),
    decreases t.len() - pos, 0nat,
{
    if pos < t.len() && combines(t[pos as int]) && t[pos as int] == op {
        primary_advances(t, pos + 1);
        if let Ok((_, next)) = primary(t, pos + 1) {
            operands_advance(t, next, op);
        }
    }
}

/// The expression that `s` is, or what is wrong with it.
pub open spec fn parsed(s: Seq<char>) -> Result<Profile, Seq<char>> {
    match expression_tokens(s) {
        Ok(list) => match level(list, 0) {
            Ok((expr, next)) => if next == list.len() {
                Ok(expr)
            } else {
                Err("trailing tokens in profile expression `"@ + s + "`"@)
            },
            Err(message) => Err(message),
        },
        Err(message) => Err(message),
    }
}

/// A result with the place behind it, as the contracts speak of it.
spec fn told_place(res: Result<(ProfileExpr, usize), EmitError>) -> Result<
    (Profile, nat),
    Seq<char>,
> {
    match res {
        Ok((expr, next)) => Ok((expr@, next as nat)),
        Err(e) => Err(e.message@),
    }
}

/// Reads the expression that begins at `pos`.
fn parse_profile_inner(t: &Vec<PTok>, pos: usize) -> (res: Result<(ProfileExpr, usize), EmitError>)
    ensures
        told_place(res) == level(t.deep_view(), pos as nat),
    decreases t.len() - pos, 1nat,
{
    let ghost all = t.deep_view();
    proof {
        primary_advances(all, pos as nat);
    }
    let (first, next) = match parse_profile_primary(t, pos) {
        Ok(pair) => pair,
        Err(e) => return Err(e),
    };
    if next >= t.len() {
        return Ok((first, next));
    }
    assert(all[next as int] == t@[next as int]@);
    let conjunction = match &t[next] {
        PTok::And => true,
        PTok::Or => false,
        _ => return Ok((first, next)),
    };
    let ghost op = all[next as int];
    let ghost start = next;
    let ghost one = first@;
    let mut parts: Vec<ProfileExpr> = Vec::new();
    parts.push(first);
    let mut at: usize = next;
    assert(parts.deep_view() =~= seq![one]);
    proof {
        if operands(all, start as nat, op) is Ok {
            let more = (operands(all, start as nat, op)->Ok_0).0;
            assert(parts.deep_view() + more =~= seq![one] + more);
        }
    }
    while at < t.len()
        invariant
            all == t.deep_view(),
            pos < start <= at <= t.len(),
            op == (if conjunction {
                Token::And
            } else {
                Token::Or
            }),
            level(all, pos as nat) == (match operands(all, at as nat, op) {
                Ok((more, end)) => Ok((combination(op, parts.deep_view() + more), end)),
                Err(message) => Err(message),
            }),
        decreases t.len() - at,
    {
        assert(all[at as int] == t@[at as int]@);
        let same = match &t[at] {
            PTok::And => conjunction,
            PTok::Or => !conjunction,
            _ => {
                assert(parts.deep_view() + Seq::<Profile>::empty() =~= parts.deep_view());
                return Ok((combine(conjunction, parts), at));
            },
        };
        if !same {
            return error(
                "mixed `&` and `|` without parentheses in profile expression".to_string(),
            );
        }
        proof {
            primary_advances(all, (at + 1) as nat);
        }
        match parse_profile_primary(t, at + 1) {
            Ok((part, after)) => {
                let ghost before = parts.deep_view();
                let ghost added = part@;
                parts.push(part);
                proof {
                    assert(parts.deep_view() =~= before.push(added));
                    if operands(all, after as nat, op) is Ok {
                        let more = (operands(all, after as nat, op)->Ok_0).0;
                        assert(before + (seq![added] + more) =~= parts.deep_view() + more);
                    }
                }
                at = after;
            },
            Err(e) => return Err(e),
        }
    }
    assert(parts.deep_view() + Seq::<Profile>::empty() =~= parts.deep_view());
    Ok((combine(conjunction, parts), at))
}

/// The conjunction or the disjunction of `parts`.
fn combine(conjunction: bool, parts: Vec<ProfileExpr>) -> (res: ProfileExpr)
    ensures
        res@ == combination(
            if conjunction {
                Token::And
            } else {
                Token::Or
            },
            parts.deep_view(),
        ),
{
    if conjunction {
        let res = ProfileExpr::And(parts);
        assert(res@->And_0 =~= parts.deep_view());
        res
    } else {
        let res = ProfileExpr::Or(parts);
        assert(res@->Or_0 =~= parts.deep_view());
        res
    }
}

/// Reads the expression that begins at `pos` and holds no sign outside brackets but `!`.
fn parse_profile_primary(t: &Vec<PTok>, pos: usize) -> (res: Result<
    (ProfileExpr, usize),
    EmitError,
>)
    ensures
        told_place(res) == primary(t.deep_view(), pos as nat),
    decreases t.len() - pos, 0nat,
{
    let ghost all = t.deep_view();
    if pos >= t.len() {
        return error("unexpected end of profile expression".to_string());
    }
    assert(all[pos as int] == t@[pos as int]@);
    let name = match &t[pos] {
        PTok::Not => {
            return match parse_profile_primary(t, pos + 1) {
                Ok((inner, next)) => Ok((ProfileExpr::Not(Box::new(inner)), next)),
                Err(e) => Err(e),
            };
        },
        PTok::LParen => {
            let (inner, next) = match parse_profile_inner(t, pos + 1) {
                Ok(pair) => pair,
                Err(e) => return Err(e),
            };
            if next < t.len() {
                assert(all[next as int] == t@[next as int]@);
                if let PTok::RParen = &t[next] {
                    return Ok((inner, next + 1));
                }
            }
            return error("missing closing parenthesis in profile expression".to_string());
        },
        PTok::Name(name) => {
            return Ok((ProfileExpr::Name(name.clone()), pos + 1));
        },
        PTok::And => "And",
        PTok::Or => "Or",
        PTok::RParen => "RParen",
    };
    error(
        "expected a profile name, `!`, or `(`, got `".to_string().concat(name).concat("`"),
    )
}

/// Reads a profile expression.
pub fn parse_profile(s: &str) -> (res: Result<ProfileExpr, EmitError>)
    ensures
        told(res) == parsed(s@),
{
    let list = match tokenize_profile(s) {
        Ok(list) => list,
        Err(e) => return Err(e),
    };
    match parse_profile_inner(&list, 0) {
        Ok((expr, next)) => if next == list.len() {
            Ok(expr)
        } else {
            error("trailing tokens in profile expression `".to_string().concat(s).concat("`"))
        },
        Err(e) => Err(e),
    }
}

/// The source of `p` as a constant `::leaf_core::ProfileExpr` expression.
pub open spec fn lowered_profile(p: Profile) -> Seq<char>
    decreases p,
{
    match p {
        Profile::Name(name) => "::leaf_core::ProfileExpr::Name("@ + literal_source(name) + ")"@,
        Profile::Not(inner) => "::leaf_core::ProfileExpr::Not(&"@ + lowered_profile(*inner)
            + ")"@,
        Profile::And(parts) => "::leaf_core::ProfileExpr::And(&["@ + join(
            lowered_profiles(parts),
            ", "@,
        ) + "])"@,
        Profile::Or(parts) => "::leaf_core::ProfileExpr::Or(&["@ + join(
            lowered_profiles(parts),
            ", "@,
        ) + "])"@,
    }
}

/// The source of each of `parts`.
pub open spec fn lowered_profiles(parts: Seq<Profile>) -> Seq<Seq<char>>
    decreases parts,
{
    Seq::new(
        parts.len(),
        |i: int|
            if 0 <= i < parts.len() {
                lowered_profile(parts[i])
            } else {
                arbitrary()
            },
    )
}

impl Clone for ProfileExpr {
    fn clone(&self) -> (res: ProfileExpr)
        ensures
            res@ == self@,
    {
        copy_profile(self)
    }
}

/// An expression that stands for the same as `expr`.
fn copy_profile(expr: &ProfileExpr) -> (res: ProfileExpr)
    ensures
        res@ == expr@,
    decreases expr, 0nat,
{
    match expr {
        ProfileExpr::Name(name) => ProfileExpr::Name(name.clone()),
        ProfileExpr::Not(inner) => ProfileExpr::Not(Box::new(copy_profile(inner))),
        ProfileExpr::And(parts) => {
            assert(decreases_to!(expr => expr->And_0));
            let res = ProfileExpr::And(copy_profiles(parts));
            assert(res@->And_0 =~= expr@->And_0);
            res
        },
        ProfileExpr::Or(parts) => {
            assert(decreases_to!(expr => expr->Or_0));
            let res = ProfileExpr::Or(copy_profiles(parts));
            assert(res@->Or_0 =~= expr@->Or_0);
            res
        },
    }
}

/// Expressions that stand for the same as `parts`.
fn copy_profiles(parts: &Vec<ProfileExpr>) -> (res: Vec<ProfileExpr>)
    ensures
        res@.len() == parts@.len(),
        forall|k: int| 0 <= k < parts@.len() ==> (#[trigger] res@[k])@ == parts@[k]@,
    decreases parts, 1nat,
{
    let mut out: Vec<ProfileExpr> = Vec::new();
    let mut i: usize = 0;
    while i < parts.len()
        invariant
            i <= parts.len(),
            out@.len() == i,
            forall|k: int| 0 <= k < i ==> (#[trigger] out@[k])@ == parts@[k]@,
        decreases parts.len() - i,
    {
        assert(decreases_to!(parts => parts@[i as int]));
        out.push(copy_profile(&parts[i]));
        i += 1;
    }
    out
}

impl ProfileExpr {
    /// Prints the expression as a constant `::leaf_core::ProfileExpr` expression.
    pub fn lower(&self) -> (res: String)
        ensures
            res@ == lowered_profile(self@),
        decreases self,
    {
        match self {
            ProfileExpr::Name(name) => {
                let name = string_literal(name.as_str());
                "::leaf_core::ProfileExpr::Name(".to_string().concat(name.as_str()).concat(")")
            },
            ProfileExpr::Not(inner) => {
                let row = inner.lower();
                "::leaf_core::ProfileExpr::Not(&".to_string().concat(row.as_str()).concat(")")
            },
            ProfileExpr::And(parts) => {
                assert(decreases_to!(self => self->And_0));
                assert(parts.deep_view() =~= self@->And_0);
                let list = lower_all(parts);
                "::leaf_core::ProfileExpr::And(&[".to_string().concat(list.as_str()).concat("])")
            },
            ProfileExpr::Or(parts) => {
                assert(decreases_to!(self => self->Or_0));
                assert(parts.deep_view() =~= self@->Or_0);
                let list = lower_all(parts);
                "::leaf_core::ProfileExpr::Or(&[".to_string().concat(list.as_str()).concat("])")
            },
        }
    }
}

/// Prints `parts` with commas between them.
fn lower_all(parts: &Vec<ProfileExpr>) -> (res: String)
    ensures
        res@ == join(lowered_profiles(parts.deep_view()), ", "@),
    decreases parts,
{
    let mut rows: Vec<String> = Vec::new();
    let mut i: usize = 0;
    while i < parts.len()
        invariant
            i <= parts.len(),
            rows@.len() == i,
            forall|k: int| 0 <= k < i ==> (#[trigger] rows@[k])@ == lowered_profile(parts@[k]@),
        decreases parts.len() - i,
    {
        assert(decreases_to!(parts => parts@[i as int]));
        rows.push(parts[i].lower());
        i += 1;
    }
    assert(rows.deep_view() =~= lowered_profiles(parts.deep_view()));
    join_texts(&rows, ", ")
}

/// `s` is the source of a profile expression: a conjunction lists the sources of its parts, in their
/// order, and so does a disjunction; a negation holds the source of what it denies, a name its
/// literal.
pub open spec fn tells(s: Seq<char>, p: Profile) -> bool
    decreases p,
{
    match p {
        Profile::Name(name) => within(s, "::leaf_core::ProfileExpr::Name("@, ")"@) == Some(
            literal_source(name),
        ),
        Profile::Not(denied) => within(s, "::leaf_core::ProfileExpr::Not(&"@, ")"@) matches Some(
            inner,
        ) && tells(inner, *denied),
        Profile::And(parts) => exists|texts: Seq<Seq<char>>|
            {
                &&& texts.len() == parts.len()
                &&& forall|k: int| 0 <= k < parts.len() ==> tells(#[trigger] texts[k], parts[k])
                &&& #[trigger] encloses(s, "::leaf_core::ProfileExpr::And(&["@, texts, "])"@)
            },
        Profile::Or(parts) => exists|texts: Seq<Seq<char>>|
            {
                &&& texts.len() == parts.len()
                &&& forall|k: int| 0 <= k < parts.len() ==> tells(#[trigger] texts[k], parts[k])
                &&& #[trigger] encloses(s, "::leaf_core::ProfileExpr::Or(&["@, texts, "])"@)
            },
    }
}

/// The source of a profile expression tells the expression.
pub proof fn profile_is_told(p: Profile)
    ensures
        tells(lowered_profile(p), p),
    decreases p,
{
    match p {
        Profile::Name(name) => {
            within_brackets("::leaf_core::ProfileExpr::Name("@, literal_source(name), ")"@);
        },
        Profile::Not(inner) => {
            profile_is_told(*inner);
            within_brackets("::leaf_core::ProfileExpr::Not(&"@, lowered_profile(*inner), ")"@);
        },
        Profile::And(parts) => {
            profiles_are_told(parts);
            list_is_enclosed("::leaf_core::ProfileExpr::And(&["@, lowered_profiles(parts), "])"@);
        },
        Profile::Or(parts) => {
            profiles_are_told(parts);
            list_is_enclosed("::leaf_core::ProfileExpr::Or(&["@, lowered_profiles(parts), "])"@);
        },
    }
}

/// The sources of profile expressions tell the expressions.
proof fn profiles_are_told(parts: Seq<Profile>)
    ensures
        lowered_profiles(parts).len() == parts.len(),
        forall|k: int|
            0 <= k < parts.len() ==> tells(#[trigger] lowered_profiles(parts)[k], parts[k]),
    decreases parts,
{
    assert forall|k: int| 0 <= k < parts.len() implies tells(
        #[trigger] lowered_profiles(parts)[k],
        parts[k],
    ) by {
        profile_is_told(parts[k]);
    }
}

/// The text of `p`.
pub open spec fn rendered(p: Profile) -> Seq<char>
    decreases p, 0nat,
{
    match p {
        Profile::Name(name) => name,
        Profile::Not(inner) => "!"@ + grouped(*inner),
        Profile::And(parts) => join(grouped_all(parts), " & "@),
        Profile::Or(parts) => join(grouped_all(parts), " | "@),
    }
}

/// The text of `p` as a part of an expression: in brackets where it combines others.
pub open spec fn grouped(p: Profile) -> Seq<char>
    decreases p, 1nat,
{
    match p {
        Profile::Name(_) | Profile::Not(_) => rendered(p),
        Profile::And(_) | Profile::Or(_) => "("@ + rendered(p) + ")"@,
    }
}

/// The text of each of `parts`, as parts of an expression.
pub open spec fn grouped_all(parts: Seq<Profile>) -> Seq<Seq<char>>
    decreases parts, 2nat,
{
    Seq::new(
        parts.len(),
        |i: int|
            if 0 <= i < parts.len() {
                grouped(parts[i])
            } else {
                arbitrary()
            },
    )
}

/// Prints an expression so that it reads back as the same expression.
pub fn render_profile(expr: &ProfileExpr) -> (res: String)
    ensures
        res@ == rendered(expr@),
    decreases expr, 0nat,
{
    match expr {
        ProfileExpr::Name(name) => name.clone(),
        ProfileExpr::Not(inner) => {
            let text = render_profile_grouped(inner);
            "!".to_string().concat(text.as_str())
        },
        ProfileExpr::And(parts) => {
            assert(decreases_to!(expr => expr->And_0));
            assert(parts.deep_view() =~= expr@->And_0);
            render_parts(parts, " & ")
        },
        ProfileExpr::Or(parts) => {
            assert(decreases_to!(expr => expr->Or_0));
            assert(parts.deep_view() =~= expr@->Or_0);
            render_parts(parts, " | ")
        },
    }
}

/// Prints a part of an expression, in brackets where it combines others.
fn render_profile_grouped(expr: &ProfileExpr) -> (res: String)
    ensures
        res@ == grouped(expr@),
    decreases expr, 1nat,
{
    let text = render_profile(expr);
    match expr {
        ProfileExpr::Name(_) | ProfileExpr::Not(_) => text,
        ProfileExpr::And(_) | ProfileExpr::Or(_) => "(".to_string().concat(text.as_str()).concat(
            ")",
        ),
    }
}

/// Prints the parts of an expression with `sep` between them.
fn render_parts(parts: &Vec<ProfileExpr>, sep: &str) -> (res: String)
    ensures
        res@ == join(grouped_all(parts.deep_view()), sep@),
    decreases parts, 2nat,
{
    let mut rows: Vec<String> = Vec::new();
    let mut i: usize = 0;
    while i < parts.len()
        invariant
            i <= parts.len(),
            rows@.len() == i,
            forall|k: int| 0 <= k < i ==> (#[trigger] rows@[k])@ == grouped(parts@[k]@),
        decreases parts.len() - i,
    {
        assert(decreases_to!(parts => parts@[i as int]));
        rows.push(render_profile_grouped(&parts[i]));
        i += 1;
    }
    assert(rows.deep_view() =~= grouped_all(parts.deep_view()));
    join_texts(&rows, sep)
}

/// `name` is written as one token.
pub open spec fn is_name(name: Seq<char>) -> bool {
    &&& name.len() > 0
    &&& !separates(name[0])
    &&& forall|i: int| 0 <= i < name.len() ==> in_name(#[trigger] name[i])
}

/// `p` can be written: its names are names, and what combines others combines two at least.
pub open spec fn writable(p: Profile) -> bool
    decreases p,
{
    match p {
        Profile::Name(name) => is_name(name),
        Profile::Not(inner) => writable(*inner),
        Profile::And(parts) => parts.len() >= 2 && all_writable(parts),
        Profile::Or(parts) => parts.len() >= 2 && all_writable(parts),
    }
}

/// All of `parts` can be written.
pub open spec fn all_writable(parts: Seq<Profile>) -> bool
    decreases parts,
{
    forall|i: int| 0 <= i < parts.len() ==> writable(#[trigger] parts[i])
}

/// The tokens of the text of `p`.
spec fn shown(p: Profile) -> Seq<Token>
    decreases p, 0nat,
{
    match p {
        Profile::Name(name) => seq![Token::Name(name)],
        Profile::Not(inner) => seq![Token::Not] + shown_grouped(*inner),
        Profile::And(parts) => strung(shown_all(parts), Token::And),
        Profile::Or(parts) => strung(shown_all(parts), Token::Or),
    }
}

/// The tokens of the text of `p` as a part of an expression.
spec fn shown_grouped(p: Profile) -> Seq<Token>
    decreases p, 1nat,
{
    match p {
        Profile::Name(_) | Profile::Not(_) => shown(p),
        Profile::And(_) | Profile::Or(_) => seq![Token::LParen] + shown(p) + seq![Token::RParen],
    }
}

/// The tokens of each of `parts`.
spec fn shown_all(parts: Seq<Profile>) -> Seq<Seq<Token>>
    decreases parts, 2nat,
{
    Seq::new(
        parts.len(),
        |i: int|
            if 0 <= i < parts.len() {
                shown_grouped(parts[i])
            } else {
                arbitrary()
            },
    )
}

/// `lists` one after the other with `op` between neighbours.
spec fn strung(lists: Seq<Seq<Token>>, op: Token) -> Seq<Token>
    decreases lists.len(),
{
    if lists.len() == 0 {
        Seq::empty()
    } else if lists.len() == 1 {
        lists[0]
    } else {
        strung(lists.drop_last(), op) + seq![op] + lists.last()
    }
}

/// What may follow an expression inside a text: the end, a space or a closing bracket.
spec fn ends(rest: Seq<char>) -> bool {
    rest.len() == 0 || rest[0] == ' ' || rest[0] == ')'
}

/// The name in front of something else is the run of its characters.
proof fn run_of_name(name: Seq<char>, rest: Seq<char>)
    requires
        forall|i: int| 0 <= i < name.len() ==> in_name(#[trigger] name[i]),
        rest.len() > 0 ==> !in_name(rest[0]),
    ensures
        run(name + rest) == name.len(),
    decreases name.len(),
{
    if name.len() == 0 {
        assert(name + rest =~= rest);
    } else {
        assert((name + rest)[0] == name[0]);
        assert((name + rest).drop_first() =~= name.drop_first() + rest);
        run_of_name(name.drop_first(), rest);
    }
}

/// A sign in front of a text is its first token.
proof fn sign_in_front(c: char, rest: Seq<char>)
    requires
        sign(c) is Some,
    ensures
        tokens(seq![c] + rest) == behind(sign(c)->0, tokens(rest)),
{
    assert((seq![c] + rest).drop_first() =~= rest);
}

/// A space in front of a text changes nothing.
proof fn space_in_front(rest: Seq<char>)
    ensures
        tokens(seq![' '] + rest) == tokens(rest),
{
    assert((seq![' '] + rest).drop_first() =~= rest);
}

/// The tokens of an expression come out of its text, whatever follows.
proof fn text_gives_tokens(p: Profile, rest: Seq<char>)
    requires
        writable(p),
        ends(rest),
    ensures
        tokens(rendered(p) + rest) == joined(shown(p), tokens(rest)),
    decreases p, 0nat,
{
    match p {
        Profile::Name(name) => {
            let text = name + rest;
            run_of_name(name, rest);
            assert(text[0] == name[0]);
            assert(in_name(name[0]));
            assert(sign(name[0]) is None);
            assert(text.take(name.len() as int) =~= name);
            assert(text.skip(name.len() as int) =~= rest);
        },
        Profile::Not(inner) => {
            reveal_strlit("!");
            text_gives_tokens_grouped(*inner, rest);
            let text = grouped(*inner) + rest;
            assert("!"@ =~= seq!['!']);
            assert(rendered(p) + rest =~= seq!['!'] + text);
            sign_in_front('!', text);
            if tokens(rest) is Ok {
                let more = tokens(rest)->Ok_0;
                assert(seq![Token::Not] + (shown_grouped(*inner) + more) =~= shown(p) + more);
            }
        },
        Profile::And(parts) => {
            reveal_strlit(" & ");
            assert(" & "@ =~= seq![' '] + (seq!['&'] + seq![' ']));
            texts_give_tokens(parts, parts.len(), '&', rest);
            assert(parts.take(parts.len() as int) =~= parts);
        },
        Profile::Or(parts) => {
            reveal_strlit(" | ");
            assert(" | "@ =~= seq![' '] + (seq!['|'] + seq![' ']));
            texts_give_tokens(parts, parts.len(), '|', rest);
            assert(parts.take(parts.len() as int) =~= parts);
        },
    }
}

/// The tokens of a part of an expression come out of its text, whatever follows.
proof fn text_gives_tokens_grouped(p: Profile, rest: Seq<char>)
    requires
        writable(p),
        ends(rest),
    ensures
        tokens(grouped(p) + rest) == joined(shown_grouped(p), tokens(rest)),
    decreases p, 1nat,
{
    if p is Name || p is Not {
        text_gives_tokens(p, rest);
    } else {
        reveal_strlit("(");
        reveal_strlit(")");
        assert("("@ =~= seq!['(']);
        assert(")"@ =~= seq![')']);
        let closing = seq![')'] + rest;
        text_gives_tokens(p, closing);
        let text = rendered(p) + closing;
        assert(grouped(p) + rest =~= seq!['('] + text);
        sign_in_front('(', text);
        sign_in_front(')', rest);
        if tokens(rest) is Ok {
            let more = tokens(rest)->Ok_0;
            assert(seq![Token::LParen] + (shown(p) + (seq![Token::RParen] + more))
                =~= shown_grouped(p) + more);
        }
    }
}

/// The tokens of the first `n` of several parts come out of their text.
proof fn texts_give_tokens(parts: Seq<Profile>, n: nat, c: char, rest: Seq<char>)
    requires
        0 < n <= parts.len(),
        all_writable(parts),
        ends(rest),
        c == '&' || c == '|',
    ensures
        tokens(join(grouped_all(parts.take(n as int)), seq![' '] + (seq![c] + seq![' '])) + rest)
            == joined(strung(shown_all(parts.take(n as int)), sign(c)->0), tokens(rest)),
    decreases parts, 2nat, n,
{
    let some = parts.take(n as int);
    let sep = seq![' '] + (seq![c] + seq![' ']);
    let last = parts[n - 1];
    assert(writable(last));
    assert(decreases_to!(parts => parts[n - 1]));
    text_gives_tokens_grouped(last, rest);
    if n == 1 {
        assert(grouped_all(some)[0] == grouped(last));
        assert(shown_all(some)[0] == shown_grouped(last));
    } else {
        let fewer = parts.take(n - 1);
        assert(grouped_all(some).drop_last() =~= grouped_all(fewer));
        assert(shown_all(some).drop_last() =~= shown_all(fewer));
        let text = grouped(last) + rest;
        let tail = seq![' '] + (seq![c] + (seq![' '] + text));
        texts_give_tokens(parts, (n - 1) as nat, c, tail);
        assert(join(grouped_all(some), sep) + rest =~= join(grouped_all(fewer), sep) + tail);
        space_in_front(seq![c] + (seq![' '] + text));
        sign_in_front(c, seq![' '] + text);
        space_in_front(text);
        if tokens(rest) is Ok {
            let more = tokens(rest)->Ok_0;
            let op = sign(c)->0;
            assert(strung(shown_all(fewer), op) + (seq![op] + (shown_grouped(last) + more))
                =~= strung(shown_all(some), op) + more);
        }
    }
}

/// `s` stands in `t` at `pos`.
spec fn stands(t: Seq<Token>, pos: nat, s: Seq<Token>) -> bool {
    &&& pos + s.len() <= t.len()
    &&& forall|k: int| 0 <= k < s.len() ==> #[trigger] s[k] == t[pos + k]
}

/// Where two sequences stand one after the other, each stands.
proof fn stands_apart(t: Seq<Token>, pos: nat, a: Seq<Token>, b: Seq<Token>)
    requires
        stands(t, pos, a + b),
    ensures
        stands(t, pos, a),
        stands(t, pos + a.len(), b),
{
    assert forall|k: int| 0 <= k < a.len() implies #[trigger] a[k] == t[pos + k] by {
        assert((a + b)[k] == a[k]);
    }
    assert forall|k: int| 0 <= k < b.len() implies #[trigger] b[k] == t[pos + a.len() + k] by {
        assert((a + b)[a.len() + k] == b[k]);
    }
}

/// Where several lists stand strung together, the first `n` stand there too, the sign
/// stands behind them, and the next list behind the sign.
proof fn strung_apart(t: Seq<Token>, pos: nat, lists: Seq<Seq<Token>>, op: Token, n: nat)
    requires
        0 < n < lists.len(),
        stands(t, pos, strung(lists, op)),
    ensures
        ({
            let front = strung(lists.take(n as int), op).len();
            &&& pos + front < t.len()
            &&& t[(pos + front) as int] == op
            &&& stands(t, pos + front + 1, lists[n as int])
            &&& strung(lists.take((n + 1) as int), op).len() == front + 1 + lists[n as int].len()
        }),
    decreases lists.len(),
{
    let fewer = lists.drop_last();
    let front = strung(fewer, op);
    assert(strung(lists, op) =~= front + (seq![op] + lists.last()));
    stands_apart(t, pos, front, seq![op] + lists.last());
    stands_apart(t, pos + front.len(), seq![op], lists.last());
    if n == fewer.len() {
        assert(lists.take(n as int) =~= fewer);
        assert(lists.take((n + 1) as int) =~= lists);
        assert(seq![op][0] == op);
    } else {
        strung_apart(t, pos, fewer, op, n);
        assert(fewer.take(n as int) =~= lists.take(n as int));
        assert(fewer.take((n + 1) as int) =~= lists.take((n + 1) as int));
    }
}

/// The first of several lists strung together stands in front.
proof fn strung_begins(t: Seq<Token>, pos: nat, lists: Seq<Seq<Token>>, op: Token)
    requires
        lists.len() > 0,
        stands(t, pos, strung(lists, op)),
    ensures
        stands(t, pos, lists[0]),
    decreases lists.len(),
{
    if lists.len() > 1 {
        let front = strung(lists.drop_last(), op);
        assert(strung(lists, op) =~= front + (seq![op] + lists.last()));
        stands_apart(t, pos, front, seq![op] + lists.last());
        strung_begins(t, pos, lists.drop_last(), op);
    }
}

/// The tokens of a part of an expression read as that part.
proof fn tokens_give_part(t: Seq<Token>, pos: nat, p: Profile)
    requires
        writable(p),
        stands(t, pos, shown_grouped(p)),
    ensures
        primary(t, pos) == Ok::<(Profile, nat), Seq<char>>((p, pos + shown_grouped(p).len())),
    decreases p, 0nat,
{
    match p {
        Profile::Name(name) => {
            assert(shown_grouped(p)[0] == Token::Name(name));
        },
        Profile::Not(inner) => {
            assert(shown_grouped(p)[0] == Token::Not);
            stands_apart(t, pos, seq![Token::Not], shown_grouped(*inner));
            tokens_give_part(t, pos + 1, *inner);
        },
        Profile::And(parts) => {
            bracket_gives_parts(t, pos, p, parts, Token::And);
        },
        Profile::Or(parts) => {
            bracket_gives_parts(t, pos, p, parts, Token::Or);
        },
    }
}

/// The tokens of several parts in brackets read as their combination.
proof fn bracket_gives_parts(t: Seq<Token>, pos: nat, p: Profile, parts: Seq<Profile>, op: Token)
    requires
        combines(op),
        p == combination(op, parts),
        writable(p),
        stands(t, pos, shown_grouped(p)),
    ensures
        primary(t, pos) == Ok::<(Profile, nat), Seq<char>>((p, pos + shown_grouped(p).len())),
    decreases parts, 3nat,
{
    let middle = shown(p);
    assert(shown_grouped(p) =~= seq![Token::LParen] + (middle + seq![Token::RParen]));
    stands_apart(t, pos, seq![Token::LParen], middle + seq![Token::RParen]);
    stands_apart(t, pos + 1, middle, seq![Token::RParen]);
    assert(shown_grouped(p)[0] == Token::LParen);
    assert(seq![Token::RParen][0] == Token::RParen);
    tokens_give_parts(t, pos + 1, parts, op);
}

/// The tokens of several parts read as their combination, where no other sign follows.
proof fn tokens_give_parts(t: Seq<Token>, pos: nat, parts: Seq<Profile>, op: Token)
    requires
        combines(op),
        parts.len() >= 2,
        all_writable(parts),
        stands(t, pos, strung(shown_all(parts), op)),
        ({
            let end = pos + strung(shown_all(parts), op).len();
            end < t.len() ==> !combines(t[end as int])
        }),
    ensures
        level(t, pos) == Ok::<(Profile, nat), Seq<char>>(
            (combination(op, parts), pos + strung(shown_all(parts), op).len()),
        ),
    decreases parts, 2nat,
{
    let lists = shown_all(parts);
    strung_begins(t, pos, lists, op);
    assert(writable(parts[0]));
    assert(decreases_to!(parts => parts[0]));
    assert(lists[0] == shown_grouped(parts[0]));
    tokens_give_part(t, pos, parts[0]);
    strung_apart(t, pos, lists, op, 1);
    assert(lists.take(1) =~= seq![lists[0]]);
    primary_advances(t, pos);
    tokens_give_operands(t, pos, parts, op, 1);
    assert(seq![parts[0]] + parts.skip(1) =~= parts);
}

/// The tokens of the parts from the `n`th on read as those parts.
proof fn tokens_give_operands(t: Seq<Token>, pos: nat, parts: Seq<Profile>, op: Token, n: nat)
    requires
        combines(op),
        0 < n <= parts.len(),
        all_writable(parts),
        stands(t, pos, strung(shown_all(parts), op)),
        ({
            let end = pos + strung(shown_all(parts), op).len();
            end < t.len() ==> !combines(t[end as int])
        }),
    ensures
        operands(t, pos + strung(shown_all(parts).take(n as int), op).len(), op) == Ok::<
            (Seq<Profile>, nat),
            Seq<char>,
        >((parts.skip(n as int), pos + strung(shown_all(parts), op).len())),
    decreases parts, 1nat, parts.len() - n,
{
    let lists = shown_all(parts);
    if n == parts.len() {
        assert(lists.take(n as int) =~= lists);
        assert(parts.skip(n as int) =~= Seq::<Profile>::empty());
    } else {
        let at = pos + strung(lists.take(n as int), op).len();
        strung_apart(t, pos, lists, op, n);
        assert(writable(parts[n as int]));
        assert(decreases_to!(parts => parts[n as int]));
        assert(lists[n as int] == shown_grouped(parts[n as int]));
        tokens_give_part(t, at + 1, parts[n as int]);
        tokens_give_operands(t, pos, parts, op, n + 1);
        assert(seq![parts[n as int]] + parts.skip((n + 1) as int) =~= parts.skip(n as int));
    }
}

/// The text of a part of an expression is not empty.
proof fn part_is_shown(p: Profile)
    requires
        writable(p),
    ensures
        shown_grouped(p).len() > 0,
        shown(p).len() > 0,
    decreases p,
{
    match p {
        Profile::Name(_) => {},
        Profile::Not(inner) => part_is_shown(*inner),
        Profile::And(_) => {},
        Profile::Or(_) => {},
    }
}

/// What an expression is printed as reads back as the same expression.
pub proof fn text_reads_back(p: Profile)
    requires
        writable(p),
    ensures
        parsed(rendered(p)) == Ok::<Profile, Seq<char>>(p),
{
    let none = Seq::<char>::empty();
    assert(rendered(p) + none =~= rendered(p));
    text_gives_tokens(p, none);
    let t = shown(p);
    assert(t + Seq::<Token>::empty() =~= t);
    part_is_shown(p);
    match p {
        Profile::Name(_) | Profile::Not(_) => tokens_give_part(t, 0, p),
        Profile::And(parts) => tokens_give_parts(t, 0, parts, Token::And),
        Profile::Or(parts) => tokens_give_parts(t, 0, parts, Token::Or),
    }
}

/// The names among the tokens of a text are names.
proof fn names_are_names(s: Seq<char>)
    ensures
        tokens(s) matches Ok(list) ==> forall|i: int|
            0 <= i < list.len() ==> (#[trigger] list[i] matches Token::Name(name) ==> is_name(
                name,
            )),
    decreases s.len(),
{
    if s.len() == 0 {
    } else if separates(s[0]) {
        names_are_names(s.drop_first());
    } else if sign(s[0]) is Some {
        names_are_names(s.drop_first());
    } else if 0 < run(s) <= s.len() {
        run_bound(s);
        let name = s.take(run(s) as int);
        assert(name[0] == s[0]);
        assert(forall|i: int| 0 <= i < name.len() ==> name[i] == #[trigger] s[i]);
        names_are_names(s.skip(run(s) as int));
    }
}

/// The names among tokens are names.
spec fn are_names(t: Seq<Token>) -> bool {
    forall|i: int|
        0 <= i < t.len() ==> (#[trigger] t[i] matches Token::Name(name) ==> is_name(name))
}

/// What is read can be written.
proof fn part_is_writable(t: Seq<Token>, pos: nat)
    requires
        are_names(t),
    ensures
        primary(t, pos) matches Ok((p, _)) ==> writable(p),
    decreases t.len() - pos, 0nat,
{
    if pos < t.len() {
        match t[pos as int] {
            Token::Not => part_is_writable(t, pos + 1),
            Token::LParen => level_is_writable(t, pos + 1),
            _ => {},
        }
    }
}

/// What is read can be written.
proof fn level_is_writable(t: Seq<Token>, pos: nat)
    requires
        are_names(t),
    ensures
        level(t, pos) matches Ok((p, _)) ==> writable(p),
    decreases t.len() - pos, 1nat,
{
    part_is_writable(t, pos);
    if let Ok((first, next)) = primary(t, pos) {
        if pos < next < t.len() && combines(t[next as int]) {
            operands_are_writable(t, next, t[next as int]);
            if let Ok((more, _)) = operands(t, next, t[next as int]) {
                let parts = seq![first] + more;
                assert(all_writable(parts));
            }
        }
    }
}

/// What is read can be written, and where a sign stands something is read.
proof fn operands_are_writable(t: Seq<Token>, pos: nat, op: Token)
    requires
        are_names(t),
    ensures
        operands(t, pos, op) matches Ok((parts, _)) ==> all_writable(parts) && (pos < t.len()
            && combines(t[pos as int]) ==> parts.len() > 0),
    decreases t.len() - pos, 0nat,
{
    if pos < t.len() && combines(t[pos as int]) && t[pos as int] == op {
        part_is_writable(t, pos + 1);
        primary_advances(t, pos + 1);
        if let Ok((one, next)) = primary(t, pos + 1) {
            operands_are_writable(t, next, op);
            if let Ok((more, _)) = operands(t, next, op) {
                assert(all_writable(seq![one] + more));
            }
        }
    }
}

/// What an expression was read from may be replaced by what it is printed as: both read as
/// the same expression.
pub proof fn reading_is_kept(s: Seq<char>)
    requires
        parsed(s) is Ok,
    ensures
        writable(parsed(s)->Ok_0),
        parsed(rendered(parsed(s)->Ok_0)) == parsed(s),
{
    names_are_names(s);
    let t = tokens(s)->Ok_0;
    level_is_writable(t, 0);
    text_reads_back(parsed(s)->Ok_0);
}

/// The tokens of a text come first, where what follows it goes on with no name.
proof fn tokens_in_front(s: Seq<char>, rest: Seq<char>)
    requires
        tokens(s) is Ok,
        rest.len() > 0 ==> !in_name(rest[0]),
    ensures
        tokens(s + rest) == joined(tokens(s)->Ok_0, tokens(rest)),
    decreases s.len(),
{
    let whole = s + rest;
    if s.len() == 0 {
        assert(whole =~= rest);
        if tokens(rest) is Ok {
            assert(tokens(s)->Ok_0 + tokens(rest)->Ok_0 =~= tokens(rest)->Ok_0);
        }
    } else {
        assert(whole[0] == s[0]);
        assert(whole.drop_first() =~= s.drop_first() + rest);
        if separates(s[0]) {
            tokens_in_front(s.drop_first(), rest);
        } else {
            let n = run(s) as int;
            let (first, left) = if sign(s[0]) is Some {
                (sign(s[0])->0, s.drop_first())
            } else {
                (Token::Name(s.take(n)), s.skip(n))
            };
            if sign(s[0]) is None {
                run_in_front(s, rest);
                assert(whole.take(n) =~= s.take(n));
                assert(whole.skip(n) =~= left + rest);
            }
            tokens_in_front(left, rest);
            if tokens(rest) is Ok {
                assert(seq![first] + (tokens(left)->Ok_0 + tokens(rest)->Ok_0) =~= seq![first]
                    + tokens(left)->Ok_0 + tokens(rest)->Ok_0);
            }
        }
    }
}

/// A name at the front of a text is as long where something follows that text.
proof fn run_in_front(s: Seq<char>, rest: Seq<char>)
    requires
        rest.len() > 0 ==> !in_name(rest[0]),
    ensures
        run(s + rest) == run(s),
    decreases s.len(),
{
    if s.len() == 0 {
        assert(s + rest =~= rest);
    } else {
        assert((s + rest)[0] == s[0]);
        assert((s + rest).drop_first() =~= s.drop_first() + rest);
        run_in_front(s.drop_first(), rest);
    }
}

/// An expression without a sign outside brackets is read alike wherever its tokens stand.
proof fn part_elsewhere(t: Seq<Token>, pos: nat, u: Seq<Token>, at: nat)
    requires
        stands(u, at, t),
    ensures
        primary(t, pos) matches Ok((p, next)) ==> primary(u, at + pos) == Ok::<
            (Profile, nat),
            Seq<char>,
        >((p, at + next)),
    decreases t.len() - pos, 0nat,
{
    if pos < t.len() {
        assert(t[pos as int] == u[at + (pos as int)]);
        match t[pos as int] {
            Token::Not => part_elsewhere(t, pos + 1, u, at),
            Token::LParen => {
                if let Ok((inner, next)) = level(t, pos + 1) {
                    if next < t.len() && t[next as int] is RParen {
                        level_elsewhere(t, pos + 1, u, at);
                    }
                }
            },
            _ => {},
        }
    }
}

/// An expression is read alike wherever its tokens stand, where no sign goes on behind it.
proof fn level_elsewhere(t: Seq<Token>, pos: nat, u: Seq<Token>, at: nat)
    requires
        stands(u, at, t),
        level(t, pos) is Ok,
        level(t, pos)->Ok_0.1 < t.len() || at + t.len() == u.len() || !combines(
            u[(at + t.len()) as int],
        ),
    ensures
        level(u, at + pos) == Ok::<(Profile, nat), Seq<char>>(
            (level(t, pos)->Ok_0.0, at + level(t, pos)->Ok_0.1),
        ),
    decreases t.len() - pos, 1nat,
{
    part_elsewhere(t, pos, u, at);
    primary_advances(t, pos);
    let (first, next) = primary(t, pos)->Ok_0;
    if next < t.len() {
        assert(t[next as int] == u[at + (next as int)]);
        if combines(t[next as int]) {
            operands_elsewhere(t, next, t[next as int], u, at);
        }
    }
}

/// Expressions behind a sign are read alike wherever their tokens stand.
proof fn operands_elsewhere(t: Seq<Token>, pos: nat, op: Token, u: Seq<Token>, at: nat)
    requires
        stands(u, at, t),
        pos <= t.len(),
        operands(t, pos, op) is Ok,
        operands(t, pos, op)->Ok_0.1 < t.len() || at + t.len() == u.len() || !combines(
            u[(at + t.len()) as int],
        ),
    ensures
        operands(u, at + pos, op) == Ok::<(Seq<Profile>, nat), Seq<char>>(
            (operands(t, pos, op)->Ok_0.0, at + operands(t, pos, op)->Ok_0.1),
        ),
    decreases t.len() - pos, 0nat,
{
    if pos < t.len() {
        assert(t[pos as int] == u[at + (pos as int)]);
        if combines(t[pos as int]) {
            part_elsewhere(t, pos + 1, u, at);
            primary_advances(t, pos + 1);
            let (one, next) = primary(t, pos + 1)->Ok_0;
            operands_elsewhere(t, next, op, u, at);
        }
    }
}

/// `s` in brackets.
pub open spec fn bracketed(s: Seq<char>) -> Seq<char> {
    seq!['('] + s + seq![')']
}

/// Tokens in brackets.
spec fn fenced(list: Seq<Token>) -> Seq<Token> {
    seq![Token::LParen] + list + seq![Token::RParen]
}

/// The tokens of a text in brackets, with what follows.
proof fn brackets_give_tokens(s: Seq<char>, rest: Seq<char>)
    requires
        tokens(s) is Ok,
        tokens(rest) is Ok,
    ensures
        tokens(bracketed(s) + rest) == Ok::<Seq<Token>, Seq<char>>(
            fenced(tokens(s)->Ok_0) + tokens(rest)->Ok_0,
        ),
{
    let list = tokens(s)->Ok_0;
    let more = tokens(rest)->Ok_0;
    let end = seq![')'] + rest;
    assert(bracketed(s) + rest =~= seq!['('] + (s + end));
    sign_in_front(')', rest);
    tokens_in_front(s, end);
    sign_in_front('(', s + end);
    assert(fenced(list) + more =~= seq![Token::LParen] + (list + (seq![Token::RParen] + more)));
}

/// An expression in brackets is read at the place where they open.
proof fn brackets_give_part(u: Seq<Token>, at: nat, list: Seq<Token>, p: Profile)
    requires
        stands(u, at, fenced(list)),
        level(list, 0) == Ok::<(Profile, nat), Seq<char>>((p, list.len())),
    ensures
        primary(u, at) == Ok::<(Profile, nat), Seq<char>>((p, at + fenced(list).len())),
{
    let open = seq![Token::LParen];
    let close = seq![Token::RParen];
    stands_apart(u, at, open + list, close);
    stands_apart(u, at, open, list);
    assert(open[0] == u[at + 0int]);
    assert(close[0] == u[at + (open + list).len() + 0int]);
    level_elsewhere(list, 0, u, at + 1);
}

/// An expression in brackets is the same expression, and behind `!` it is negated.
pub proof fn brackets_change_nothing(s: Seq<char>)
    requires
        parsed(s) is Ok,
    ensures
        parsed(bracketed(s)) == parsed(s),
        parsed(seq!['!'] + bracketed(s)) == Ok::<Profile, Seq<char>>(
            Profile::Not(Box::new(parsed(s)->Ok_0)),
        ),
{
    let none = Seq::<char>::empty();
    let list = tokens(s)->Ok_0;
    let p = parsed(s)->Ok_0;
    brackets_give_tokens(s, none);
    assert(bracketed(s) + none =~= bracketed(s));
    let t = fenced(list);
    assert(t + Seq::<Token>::empty() =~= t);
    brackets_give_part(t, 0, list, p);
    sign_in_front('!', bracketed(s));
    let u = seq![Token::Not] + t;
    assert(stands(u, 1, t));
    brackets_give_part(u, 1, list, p);
}

/// Two expressions in brackets with a sign between them.
proof fn sign_between_brackets(s: Seq<char>, t: Seq<char>, c: char)
    requires
        parsed(s) is Ok,
        parsed(t) is Ok,
        c == '&' || c == '|',
    ensures
        parsed(bracketed(s) + seq![' ', c, ' '] + bracketed(t)) == Ok::<Profile, Seq<char>>(
            combination(sign(c)->0, seq![parsed(s)->Ok_0, parsed(t)->Ok_0]),
        ),
{
    let none = Seq::<char>::empty();
    let op = sign(c)->0;
    let a = tokens(s)->Ok_0;
    let b = tokens(t)->Ok_0;
    let p = parsed(s)->Ok_0;
    let q = parsed(t)->Ok_0;
    brackets_give_tokens(t, none);
    assert(bracketed(t) + none =~= bracketed(t));
    assert(fenced(b) + Seq::<Token>::empty() =~= fenced(b));
    space_in_front(bracketed(t));
    let right = seq![c] + (seq![' '] + bracketed(t));
    sign_in_front(c, seq![' '] + bracketed(t));
    space_in_front(right);
    brackets_give_tokens(s, seq![' '] + right);
    assert(bracketed(s) + seq![' ', c, ' '] + bracketed(t) =~= bracketed(s) + (seq![' ']
        + right));
    let u = fenced(a) + (seq![op] + fenced(b));
    let at = fenced(a).len();
    assert(stands(u, 0, fenced(a)));
    assert(stands(u, at + 1, fenced(b)));
    assert(u[at as int] == op);
    brackets_give_part(u, 0, a, p);
    brackets_give_part(u, at + 1, b, q);
    assert(u.len() == at + 1 + fenced(b).len());
    assert(operands(u, u.len(), op) == Ok::<(Seq<Profile>, nat), Seq<char>>(
        (Seq::empty(), u.len()),
    ));
    assert(seq![q] + Seq::<Profile>::empty() =~= seq![q]);
    assert(operands(u, at, op) == Ok::<(Seq<Profile>, nat), Seq<char>>((seq![q], u.len())));
    assert(seq![p] + seq![q] =~= seq![p, q]);
}

/// Two expressions in brackets are combined by the sign between them, whatever signs the
/// brackets hold.
pub proof fn brackets_are_combined(s: Seq<char>, t: Seq<char>)
    requires
        parsed(s) is Ok,
        parsed(t) is Ok,
    ensures
        parsed(bracketed(s) + " & "@ + bracketed(t)) == Ok::<Profile, Seq<char>>(
            Profile::And(seq![parsed(s)->Ok_0, parsed(t)->Ok_0]),
        ),
        parsed(bracketed(s) + " | "@ + bracketed(t)) == Ok::<Profile, Seq<char>>(
            Profile::Or(seq![parsed(s)->Ok_0, parsed(t)->Ok_0]),
        ),
{
    reveal_strlit(" & ");
    reveal_strlit(" | ");
    assert(" & "@ =~= seq![' ', '&', ' ']);
    assert(" | "@ =~= seq![' ', '|', ' ']);
    sign_between_brackets(s, t, '&');
    sign_between_brackets(s, t, '|');
}

/// Three expressions in brackets with two signs between them that are not the same.
proof fn signs_between_brackets_differ(
    s: Seq<char>,
    c: char,
    t: Seq<char>,
    d: char,
    r: Seq<char>,
)
    requires
        parsed(s) is Ok,
        parsed(t) is Ok,
        parsed(r) is Ok,
        c == '&' && d == '|' || c == '|' && d == '&',
    ensures
        parsed(
            bracketed(s) + seq![' ', c, ' '] + bracketed(t) + seq![' ', d, ' '] + bracketed(r),
        ) == Err::<Profile, Seq<char>>(
            "mixed `&` and `|` without parentheses in profile expression"@,
        ),
{
    let none = Seq::<char>::empty();
    let a = tokens(s)->Ok_0;
    let b = tokens(t)->Ok_0;
    let op = sign(c)->0;
    let other = sign(d)->0;
    brackets_give_tokens(r, none);
    assert(bracketed(r) + none =~= bracketed(r));
    let right = seq![d] + (seq![' '] + bracketed(r));
    space_in_front(bracketed(r));
    sign_in_front(d, seq![' '] + bracketed(r));
    space_in_front(right);
    brackets_give_tokens(t, seq![' '] + right);
    let mid = bracketed(t) + (seq![' '] + right);
    let left = seq![c] + (seq![' '] + mid);
    space_in_front(mid);
    sign_in_front(c, seq![' '] + mid);
    space_in_front(left);
    brackets_give_tokens(s, seq![' '] + left);
    assert(bracketed(s) + seq![' ', c, ' '] + bracketed(t) + seq![' ', d, ' '] + bracketed(r)
        =~= bracketed(s) + (seq![' '] + left));
    let u = tokens(bracketed(s) + (seq![' '] + left))->Ok_0;
    let at = fenced(a).len();
    let next = at + 1 + fenced(b).len();
    assert(stands(u, 0, fenced(a)));
    assert(stands(u, at + 1, fenced(b)));
    assert(u[at as int] == op);
    assert(u[next as int] == other);
    brackets_give_part(u, 0, a, parsed(s)->Ok_0);
    brackets_give_part(u, at + 1, b, parsed(t)->Ok_0);
    assert(operands(u, next, op) is Err);
    assert(operands(u, at, op) is Err);
}

/// Expressions that both signs combine on one level are refused.
pub proof fn mixed_signs_are_refused(s: Seq<char>, t: Seq<char>, r: Seq<char>)
    requires
        parsed(s) is Ok,
        parsed(t) is Ok,
        parsed(r) is Ok,
    ensures
        parsed(bracketed(s) + " & "@ + bracketed(t) + " | "@ + bracketed(r)) == Err::<
            Profile,
            Seq<char>,
        >("mixed `&` and `|` without parentheses in profile expression"@),
        parsed(bracketed(s) + " | "@ + bracketed(t) + " & "@ + bracketed(r)) == Err::<
            Profile,
            Seq<char>,
        >("mixed `&` and `|` without parentheses in profile expression"@),
{
    reveal_strlit(" & ");
    reveal_strlit(" | ");
    assert(" & "@ =~= seq![' ', '&', ' ']);
    assert(" | "@ =~= seq![' ', '|', ' ']);
    signs_between_brackets_differ(s, '&', t, '|', r);
    signs_between_brackets_differ(s, '|', t, '&', r);
}

/// The expression in an argument.
pub open spec fn profile_in(e: Expression) -> Result<Profile, Seq<char>> {
    match e.kind {
        Form::Str(s) => parsed(s),
        _ => Err("#[profile] expects string profile expressions, got `"@ + e.source + "`"@),
    }
}

/// The expressions in the arguments. The first one that cannot be decides.
pub open spec fn profiles_in(items: Seq<Expression>) -> Result<Seq<Profile>, Seq<char>>
    decreases items.len(),
{
    if items.len() == 0 {
        Ok(Seq::empty())
    } else {
        match profiles_in(items.drop_last()) {
            Ok(list) => match profile_in(items.last()) {
                Ok(p) => Ok(list.push(p)),
                Err(message) => Err(message),
            },
            Err(message) => Err(message),
        }
    }
}

/// An argument that cannot be decides, whatever follows.
proof fn profiles_stop(items: Seq<Expression>, n: int)
    requires
        0 <= n <= items.len(),
        profiles_in(items.take(n)) is Err,
    ensures
        profiles_in(items) == profiles_in(items.take(n)),
    decreases items.len(),
{
    if n == items.len() {
        assert(items.take(n) =~= items);
    } else {
        assert(items.drop_last().take(n) =~= items.take(n));
        profiles_stop(items.drop_last(), n);
    }
}

/// Profile expressions are read in their order; one stands for itself, several are alternatives, and
/// none are refused.
pub proof fn several_profiles_are_alternatives(
    items: Seq<Expression>,
    list: Seq<Profile>,
    e: Expression,
    text: Seq<char>,
    p: Profile,
)
    requires
        e.kind == Form::Str(text),
        parsed(text) == Ok::<Profile, Seq<char>>(p),
    ensures
        profile_settings(Seq::empty()) is Err,
        profile_settings(seq![e]) == Ok::<Profile, Seq<char>>(p),
        profiles_in(items) == Ok::<Seq<Profile>, Seq<char>>(list) ==> {
            &&& profiles_in(items.push(e)) == Ok::<Seq<Profile>, Seq<char>>(list.push(p))
            &&& items.len() > 0 ==> profile_settings(items.push(e)) == Ok::<Profile, Seq<char>>(
                Profile::Or(list.push(p)),
            )
        },
        profiles_in(items) is Err ==> profiles_in(items.push(e)) is Err,
        profiles_in(items) is Ok ==> profiles_in(items)->Ok_0.len() == items.len(),
    decreases items.len(),
{
    reveal_with_fuel(profiles_in, 2);
    assert(seq![e].drop_last() =~= Seq::<Expression>::empty());
    assert(items.push(e).drop_last() =~= items);
    profiles_are_as_many(items);
}

/// There are as many profiles as expressions.
proof fn profiles_are_as_many(items: Seq<Expression>)
    ensures
        profiles_in(items) matches Ok(list) ==> list.len() == items.len(),
    decreases items.len(),
{
    if items.len() > 0 {
        profiles_are_as_many(items.drop_last());
    }
}

/// The expression that arguments stand for: one is that expression, of several one has to
/// hold.
pub open spec fn profile_settings(items: Seq<Expression>) -> Result<Profile, Seq<char>> {
    if items.len() == 0 {
        Err("#[profile(...)] requires a profile expression"@)
    } else {
        match profiles_in(items) {
            Ok(list) => Ok(
                if list.len() == 1 {
                    list[0]
                } else {
                    Profile::Or(list)
                },
            ),
            Err(message) => Err(message),
        }
    }
}

/// The expression that arguments stand for.
pub fn profile_of_args(args: &[Arg]) -> (res: Result<ProfileExpr, EmitError>)
    ensures
        told(res) == profile_settings(args.deep_view()),
{
    let ghost all = args.deep_view();
    if args.len() == 0 {
        return error("#[profile(...)] requires a profile expression".to_string());
    }
    let mut list: Vec<ProfileExpr> = Vec::new();
    let mut i: usize = 0;
    assert(list.deep_view() =~= Seq::<Profile>::empty());
    while i < args.len()
        invariant
            all == args.deep_view(),
            i <= args@.len(),
            args@.len() > 0,
            list@.len() == i,
            profiles_in(all.take(i as int)) == Ok::<Seq<Profile>, Seq<char>>(list.deep_view()),
        decreases args@.len() - i,
    {
        let ghost before = list.deep_view();
        proof {
            let next = all.take(i + 1);
            assert(next.drop_last() =~= all.take(i as int));
            assert(next.last() == args@[i as int]@);
        }
        let one = match &args[i].kind {
            ArgKind::Str(s) => parse_profile(s.as_str()),
            _ => error(
                "#[profile] expects string profile expressions, got `".to_string().concat(
                    args[i].source.as_str(),
                ).concat("`"),
            ),
        };
        assert(told(one) == profile_in(args@[i as int]@));
        match one {
            Ok(p) => {
                let ghost added = p@;
                list.push(p);
                assert(list.deep_view() =~= before.push(added));
            },
            Err(e) => {
                proof {
                    profiles_stop(all, i + 1);
                }
                return Err(e);
            },
        }
        i += 1;
    }
    assert(all.take(i as int) =~= all);
    if list.len() == 1 {
        assert(list.deep_view()[0] == list@[0]@);
        Ok(list.swap_remove(0))
    } else {
        let ghost parts = list.deep_view();
        let res = ProfileExpr::Or(list);
        assert(res@->Or_0 =~= parts);
        Ok(res)
    }
}

/// The expression that the source of the arguments stands for.
pub open spec fn profile_attr(attr: Seq<char>) -> Result<Profile, Seq<char>> {
    match arguments(attr) {
        Ok(items) => profile_settings(items),
        Err(message) => Err("malformed #[profile] arguments: "@ + message),
    }
}

/// Reads the arguments of `#[profile]`.
pub fn parse_profile_attr(attr: &str) -> (res: Result<ProfileExpr, EmitError>)
    ensures
        told(res) == profile_attr(attr@),
        attr@.len() == 0 ==> told(res) == Err::<Profile, Seq<char>>(
            "#[profile(...)] requires a profile expression"@,
        ),
{
    match parse_arguments(attr) {
        Ok(args) => profile_of_args(args.as_slice()),
        Err(message) => error(
            "malformed #[profile] arguments: ".to_string().concat(message.as_str()),
        ),
    }
}

} // verus!
