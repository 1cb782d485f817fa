//! Concerns of methods: the arguments of their attributes, and the source that ties the
//! interceptors of the concerns to the methods.
use vstd::prelude::*;

use crate::args::{
    assign_ident, assigns, bare_key, bool_value, calls, error, expression, flag_value,
    parse_expression, settle, settled, told, Arg, ArgKind, EmitError, Expression, Form, Settings,
};
use crate::chars::{number, numeral_stands_for_its_number, parse_number};
use crate::naming::{
    last_segment, last_segment_text, literal_list, literal_list_text, mangle, mangled,
    type_id_source, type_id_text,
};
use crate::reading::{
    behind, behind_front, decimal_is_read, decimal_reads_back, is_digit, leading_number, stands_in,
    within, within_brackets,
};
use crate::syntax::{
    debug_source, debug_text, literal_source, outcome, source_tokens, string_literal, tokens_in,
    print_type, type_in, type_printed, type_shape, SourceToken, TokenForm, TypeForm, TypeShape,
};
use crate::template::{
    filled, filled_part, filled_plain, filled_sign, filled_step, is_name_char, no_slots, slot_at,
    slot_text, unnamed_slot, Slots,
};
use crate::text::{bool_source, bool_text, chars_of, decimal, decimal_text, slice_text, str_eq};

verus! {

/// A concern of a method.
#[derive(Clone, Copy, Debug, PartialEq, Eq, Structural)]
pub enum Concern {
    /// The method runs in a transaction.
    Transactional,
    /// What the method returns is kept, and the method is not run while it is.
    Cacheable,
    /// What the method returns replaces what was kept.
    CachePut,
    /// What was kept is dropped.
    CacheEvict,
    /// The argument is checked before the method is run.
    Validated,
    /// The method is run again where it failed.
    Retryable,
    /// Only so many calls of the method run at a time.
    ConcurrencyLimit,
}

/// The name of the attribute of a concern.
pub open spec fn keyword_of(concern: Concern) -> Seq<char> {
    match concern {
        Concern::Transactional => "transactional"@,
        Concern::Cacheable => "cacheable"@,
        Concern::CachePut => "cache_put"@,
        Concern::CacheEvict => "cache_evict"@,
        Concern::Validated => "validated"@,
        Concern::Retryable => "retryable"@,
        Concern::ConcurrencyLimit => "concurrency_limit"@,
    }
}

/// No two concerns have the same attribute.
pub proof fn keywords_differ(a: Concern, b: Concern)
    requires
        keyword_of(a) == keyword_of(b),
    ensures
        a == b,
{
    reveal_strlit("transactional");
    reveal_strlit("cacheable");
    reveal_strlit("cache_put");
    reveal_strlit("cache_evict");
    reveal_strlit("validated");
    reveal_strlit("retryable");
    reveal_strlit("concurrency_limit");
    let k = keyword_of(a);
    let l = keyword_of(b);
    assert(k.len() == l.len());
    assert(k[0] == l[0]);
    assert(k[5] == l[5]);
}

impl Concern {
    /// The name of the attribute of this concern.
    pub fn keyword(self) -> (res: &'static str)
        ensures
            res@ == keyword_of(self),
    {
        match self {
            Concern::Transactional => "transactional",
            Concern::Cacheable => "cacheable",
            Concern::CachePut => "cache_put",
            Concern::CacheEvict => "cache_evict",
            Concern::Validated => "validated",
            Concern::Retryable => "retryable",
            Concern::ConcurrencyLimit => "concurrency_limit",
        }
    }

    /// The concern whose attribute has the given name.
    pub fn from_keyword(name: &str) -> (res: Option<Concern>)
        ensures
            match res {
                Some(concern) => keyword_of(concern) == name@,
                None => forall|concern: Concern| #[trigger] keyword_of(concern) != name@,
            },
    {
        if str_eq(name, "transactional") {
            Some(Concern::Transactional)
        } else if str_eq(name, "cacheable") {
            Some(Concern::Cacheable)
        } else if str_eq(name, "cache_put") {
            Some(Concern::CachePut)
        } else if str_eq(name, "cache_evict") {
            Some(Concern::CacheEvict)
        } else if str_eq(name, "validated") {
            Some(Concern::Validated)
        } else if str_eq(name, "retryable") {
            Some(Concern::Retryable)
        } else if str_eq(name, "concurrency_limit") {
            Some(Concern::ConcurrencyLimit)
        } else {
            None
        }
    }

    /// Whether this is a concern with a cache.
    pub fn is_cache(self) -> (res: bool)
        ensures
            res == (self == Concern::Cacheable || self == Concern::CachePut || self
                == Concern::CacheEvict),
    {
        match self {
            Concern::Cacheable | Concern::CachePut | Concern::CacheEvict => true,
            _ => false,
        }
    }
}

/// Each concern has its own keyword.
pub proof fn keywords_are_those_of_the_concerns()
    ensures
        keyword_of(Concern::Transactional) == "transactional"@,
        keyword_of(Concern::Cacheable) == "cacheable"@,
        keyword_of(Concern::CachePut) == "cache_put"@,
        keyword_of(Concern::CacheEvict) == "cache_evict"@,
        keyword_of(Concern::Validated) == "validated"@,
        keyword_of(Concern::Retryable) == "retryable"@,
        keyword_of(Concern::ConcurrencyLimit) == "concurrency_limit"@,
{
}

/// The value of an item in the arguments of an attribute.
#[derive(Debug, PartialEq, Eq)]
pub enum ItemValue {
    /// A type: its source, and whether it is a trait object.
    Type(String, bool),
    /// An expression.
    Expr(Arg),
}

/// An item in the arguments of an attribute.
#[derive(Debug, PartialEq, Eq)]
pub enum AttrItem {
    /// `key = value`.
    Assign { key: String, value: ItemValue },
    /// `name(..)`.
    Call { name: String },
    /// Any other expression.
    Positional(Arg),
}

/// What an [`ItemValue`] stands for.
pub ghost enum ValueForm {
    Type(Seq<char>, bool),
    Expr(Expression),
}

/// What an [`AttrItem`] stands for.
pub ghost enum ItemForm {
    Assign { key: Seq<char>, value: ValueForm },
    Call { name: Seq<char> },
    Positional(Expression),
}

impl View for ItemValue {
    type V = ValueForm;

    open spec fn view(&self) -> ValueForm {
        match self {
            ItemValue::Type(source, object) => ValueForm::Type(source@, *object),
            ItemValue::Expr(e) => ValueForm::Expr(e@),
        }
    }
}

impl View for AttrItem {
    type V = ItemForm;

    open spec fn view(&self) -> ItemForm {
        match self {
            AttrItem::Assign { key, value } => ItemForm::Assign { key: key@, value: value@ },
            AttrItem::Call { name } => ItemForm::Call { name: name@ },
            AttrItem::Positional(e) => ItemForm::Positional(e@),
        }
    }
}

impl DeepView for AttrItem {
    type V = ItemForm;

    open spec fn deep_view(&self) -> ItemForm {
        self@
    }
}

/// The pieces of `tokens` between commas, where `piece` has been read of the first. Nothing
/// follows the last comma unless there are tokens behind it.
pub open spec fn pieces_from(tokens: Seq<TokenForm>, piece: Seq<TokenForm>) -> Seq<Seq<TokenForm>>
    decreases tokens.len(),
{
    if tokens.len() == 0 {
        if piece.len() == 0 {
            Seq::empty()
        } else {
            seq![piece]
        }
    } else if is_comma(tokens[0]) {
        seq![piece] + pieces_from(tokens.drop_first(), Seq::empty())
    } else {
        pieces_from(tokens.drop_first(), piece.push(tokens[0]))
    }
}

/// `t` is a comma.
pub open spec fn is_comma(t: TokenForm) -> bool {
    t matches TokenForm::Sign(c, _) && c == ','
}

/// The text of a token.
pub open spec fn token_text(t: TokenForm) -> Seq<char> {
    match t {
        TokenForm::Ident(name) => name,
        TokenForm::Sign(c, _) => seq![c],
        TokenForm::Other(text) => text,
    }
}

/// What stands between `t` and the next token.
pub open spec fn gap(t: TokenForm) -> Seq<char> {
    match t {
        TokenForm::Sign(_, true) => Seq::empty(),
        _ => seq![' '],
    }
}

/// The text of tokens.
pub open spec fn tokens_text(tokens: Seq<TokenForm>) -> Seq<char>
    decreases tokens.len(),
{
    if tokens.len() == 0 {
        Seq::empty()
    } else if tokens.len() == 1 {
        token_text(tokens[0])
    } else {
        tokens_text(tokens.drop_last()) + gap(tokens[tokens.len() - 2]) + token_text(tokens.last())
    }
}

/// Prints the tokens from `from` to `to`.
fn print_tokens(tokens: &Vec<SourceToken>, from: usize, to: usize) -> (res: String)
    requires
        from <= to <= tokens.len(),
    ensures
        res@ == tokens_text(tokens.deep_view().subrange(from as int, to as int)),
{
    let ghost all = tokens.deep_view();
    let mut out = String::new();
    let mut joint = true;
    let mut i: usize = from;
    assert(all.subrange(from as int, from as int) =~= Seq::<TokenForm>::empty());
    while i < to
        invariant
            all == tokens.deep_view(),
            from <= i <= to <= tokens.len(),
            joint == (i == from || gap(all[i - 1]).len() == 0),
            out@ == tokens_text(all.subrange(from as int, i as int)),
        decreases to - i,
    {
        let ghost before = out@;
        let ghost next = all.subrange(from as int, i + 1);
        proof {
            assert(next.drop_last() =~= all.subrange(from as int, i as int));
            assert(next.last() == tokens@[i as int]@);
            if i > from {
                assert(next[next.len() - 2] == all[i - 1]);
            }
        }
        if !joint {
            out.push(' ');
        }
        let ghost spaced = out@;
        joint = false;
        match &tokens[i] {
            SourceToken::Ident(name) => {
                out.append(name.as_str());
            },
            SourceToken::Sign(c, together) => {
                out.push(*c);
                joint = *together;
            },
            SourceToken::Other(text) => {
                out.append(text.as_str());
            },
        }
        proof {
            assert(out@ =~= spaced + token_text(next.last()));
            if i > from {
                assert(spaced =~= before + gap(all[i - 1]));
            } else {
                assert(before =~= Seq::<char>::empty());
                assert(out@ =~= token_text(next.last()));
            }
        }
        i += 1;
    }
    out
}

/// The pieces of `tokens` at the given places.
spec fn pieces_at(tokens: Seq<TokenForm>, places: Seq<(usize, usize)>) -> Seq<Seq<TokenForm>> {
    Seq::new(places.len(), |i: int| tokens.subrange(places[i].0 as int, places[i].1 as int))
}

/// Where the pieces of `tokens` between commas begin and end.
fn split_top_level_commas(tokens: &Vec<SourceToken>) -> (res: Vec<(usize, usize)>)
    ensures
        pieces_at(tokens.deep_view(), res@) == pieces_from(tokens.deep_view(), Seq::empty()),
        forall|i: int|
            0 <= i < res@.len() ==> (#[trigger] res@[i]).0 <= res@[i].1 <= tokens@.len(),
{
    let ghost all = tokens.deep_view();
    let mut out: Vec<(usize, usize)> = Vec::new();
    let mut from: usize = 0;
    let mut i: usize = 0;
    proof {
        assert(all.skip(0) =~= all);
        assert(all.subrange(0, 0) =~= Seq::<TokenForm>::empty());
        assert(pieces_at(all, out@) + pieces_from(all, Seq::empty()) =~= pieces_from(
            all,
            Seq::empty(),
        ));
    }
    while i < tokens.len()
        invariant
            all == tokens.deep_view(),
            from <= i <= tokens.len(),
            forall|k: int|
                0 <= k < out@.len() ==> (#[trigger] out@[k]).0 <= out@[k].1 <= tokens@.len(),
            pieces_from(all, Seq::empty()) == pieces_at(all, out@) + pieces_from(
                all.skip(i as int),
                all.subrange(from as int, i as int),
            ),
        decreases tokens.len() - i,
    {
        let ghost piece = all.subrange(from as int, i as int);
        let ghost rest = all.skip(i as int);
        let ghost before = pieces_at(all, out@);
        proof {
            assert(rest[0] == tokens@[i as int]@);
            assert(rest.drop_first() =~= all.skip(i + 1));
        }
        let comma = match &tokens[i] {
            SourceToken::Sign(c, _) => *c == ',',
            _ => false,
        };
        if comma {
            out.push((from, i));
            from = i + 1;
            proof {
                assert(pieces_at(all, out@) =~= before.push(piece));
                assert(all.subrange(from as int, from as int) =~= Seq::<TokenForm>::empty());
                let more = pieces_from(all.skip(i + 1), Seq::empty());
                assert(before + (seq![piece] + more) =~= pieces_at(all, out@) + more);
            }
        } else {
            assert(piece.push(rest[0]) =~= all.subrange(from as int, i + 1));
        }
        i += 1;
    }
    let ghost before = pieces_at(all, out@);
    if from < tokens.len() {
        let ghost piece = all.subrange(from as int, i as int);
        out.push((from, i));
        assert(pieces_at(all, out@) =~= before.push(piece));
        assert(before + seq![piece] =~= pieces_at(all, out@));
    } else {
        assert(before + Seq::<Seq<TokenForm>>::empty() =~= before);
    }
    out
}

/// The tokens of an attribute are split at its commas: what stands before the first one is a piece,
/// and what follows is split by itself.
pub proof fn tokens_are_split_at_commas(piece: Seq<TokenForm>, c: TokenForm, rest: Seq<TokenForm>, read: Seq<TokenForm>)
    requires
        forall|i: int| 0 <= i < piece.len() ==> !is_comma(#[trigger] piece[i]),
        c matches TokenForm::Sign(sign, _) && sign == ',',
    ensures
        pieces_from(piece + seq![c] + rest, read) == seq![read + piece] + pieces_from(rest, Seq::empty()),
        piece.len() + read.len() > 0 ==> pieces_from(piece, read) == seq![read + piece],
        piece.len() + read.len() == 0 ==> pieces_from(piece, read).len() == 0,
    decreases piece.len(),
{
    let all = piece + seq![c] + rest;
    if piece.len() == 0 {
        assert(all[0] == c);
        assert(all.drop_first() =~= rest);
        assert(read + piece =~= read);
    } else {
        assert(!is_comma(piece[0]));
        let tail = piece.drop_first();
        assert(all[0] == piece[0]);
        assert(all.drop_first() =~= tail + seq![c] + rest);
        assert forall|i: int| 0 <= i < tail.len() implies !is_comma(#[trigger] tail[i]) by {
            assert(tail[i] == piece[i + 1]);
        }
        tokens_are_split_at_commas(tail, c, rest, read.push(piece[0]));
        assert(read.push(piece[0]) + tail =~= read + piece);
    }
}

/// Tokens are printed in their order, with a space behind each but where a sign belongs together
/// with what follows it.
pub proof fn tokens_are_printed_in_order(front: Seq<TokenForm>, sign: char, joint: bool, t: TokenForm)
    ensures
        tokens_text(front.push(TokenForm::Sign(sign, joint)).push(t)) == tokens_text(
            front.push(TokenForm::Sign(sign, joint)),
        ) + (if joint {
            Seq::empty()
        } else {
            seq![' ']
        }) + (match t {
            TokenForm::Ident(name) => name,
            TokenForm::Sign(c, _) => seq![c],
            TokenForm::Other(text) => text,
        }),
        front.len() > 0 && !(front.last() is Sign) ==> tokens_text(front.push(t)) == tokens_text(
            front,
        ) + seq![' '] + (match t {
            TokenForm::Ident(name) => name,
            TokenForm::Sign(c, _) => seq![c],
            TokenForm::Other(text) => text,
        }),
{
    let more = front.push(TokenForm::Sign(sign, joint));
    assert(more.push(t).drop_last() =~= more);
    assert(front.push(t).drop_last() =~= front);
}

/// The value of `key` is a type.
pub open spec fn is_type_key(key: Seq<char>) -> bool {
    key == "manager"@ || key == "gate"@
}

/// `piece` is `key = value`.
pub open spec fn is_assignment(piece: Seq<TokenForm>) -> bool {
    piece.len() >= 2 && piece[0] is Ident && piece[1] == TokenForm::Sign('=', false)
}

/// The item `key = value`, where the value is a type of the given form.
pub open spec fn type_item(
    key: Seq<char>,
    value: Seq<char>,
    form: Result<TypeForm, Seq<char>>,
) -> Result<ItemForm, Seq<char>> {
    match form {
        Ok(form) => Ok(
            ItemForm::Assign { key, value: ValueForm::Type(value, form is TraitObject) },
        ),
        Err(message) => Err(
            "`"@ + key + "` must be a bean TYPE (a path or `dyn Trait`): "@ + message,
        ),
    }
}

/// The source of a type as it is printed back.
pub open spec fn type_text(source: Seq<char>) -> Seq<char> {
    match type_printed(source) {
        Ok(text) => text,
        Err(_) => source,
    }
}

/// The item `key = value`.
pub open spec fn assignment(key: Seq<char>, value: Seq<char>, kw: Seq<char>) -> Result<
    ItemForm,
    Seq<char>,
> {
    if is_type_key(key) {
        type_item(key, type_text(value), type_in(value))
    } else {
        match expression(value) {
            Ok(e) => Ok(ItemForm::Assign { key, value: ValueForm::Expr(e) }),
            Err(message) => Err(
                "malformed #["@ + kw + "] argument `"@ + key + " = …`: "@ + message,
            ),
        }
    }
}

/// The item that an expression is by itself.
pub open spec fn lone_item(e: Expression, kw: Seq<char>) -> Result<ItemForm, Seq<char>> {
    match e.kind {
        Form::Call { func, .. } => match bare_key(*func) {
            Ok(name) => Ok(ItemForm::Call { name }),
            Err(_) => Err(
                "#["@ + kw + "]: a call argument needs a bare name, e.g. `rollback_for(..)`"@,
            ),
        },
        _ => Ok(ItemForm::Positional(e)),
    }
}

/// The item that the tokens between two commas are, or what is wrong with them.
pub open spec fn item_in(piece: Seq<TokenForm>, kw: Seq<char>) -> Result<ItemForm, Seq<char>> {
    if is_assignment(piece) {
        assignment(piece[0]->Ident_0, tokens_text(piece.skip(2)), kw)
    } else {
        match expression(tokens_text(piece)) {
            Ok(e) => lone_item(e, kw),
            Err(message) => Err("malformed #["@ + kw + "] argument: "@ + message),
        }
    }
}

/// The item `key = value`, where the value is a type of the given form.
pub fn type_item_of(key: &str, value: String, shape: &Result<TypeShape, String>) -> (res: Result<
    AttrItem,
    EmitError,
>)
    ensures
        told(res) == type_item(key@, value@, crate::syntax::outcome(*shape)),
{
    match shape {
        Ok(shape) => {
            let object = match shape {
                TypeShape::TraitObject => true,
                _ => false,
            };
            Ok(AttrItem::Assign { key: key.to_string(), value: ItemValue::Type(value, object) })
        },
        Err(message) => error(
            "`".to_string().concat(key).concat(
                "` must be a bean TYPE (a path or `dyn Trait`): ",
            ).concat(message.as_str()),
        ),
    }
}

/// The item `key = value`.
fn parse_assignment(key: &str, value: String, kw: &str) -> (res: Result<AttrItem, EmitError>)
    ensures
        told(res) == assignment(key@, value@, kw@),
{
    if str_eq(key, "manager") || str_eq(key, "gate") {
        let shape = type_shape(value.as_str());
        let text = match print_type(value.as_str()) {
            Ok(text) => text,
            Err(_) => value,
        };
        type_item_of(key, text, &shape)
    } else {
        match parse_expression(value.as_str()) {
            Ok(e) => Ok(AttrItem::Assign { key: key.to_string(), value: ItemValue::Expr(e) }),
            Err(message) => error(
                "malformed #[".to_string().concat(kw).concat("] argument `").concat(key).concat(
                    " = …`: ",
                ).concat(message.as_str()),
            ),
        }
    }
}

/// The item that an expression is by itself.
fn lone(e: Arg, kw: &str) -> (res: Result<AttrItem, EmitError>)
    ensures
        told(res) == lone_item(e@, kw@),
{
    if let ArgKind::Call { func, .. } = &e.kind {
        return match assign_ident(func) {
            Ok(name) => Ok(AttrItem::Call { name }),
            Err(_) => error(
                "#[".to_string().concat(kw).concat(
                    "]: a call argument needs a bare name, e.g. `rollback_for(..)`",
                ),
            ),
        };
    }
    Ok(AttrItem::Positional(e))
}

/// The key of the assignment that the tokens from `from` to `to` are.
fn split_assign(tokens: &Vec<SourceToken>, from: usize, to: usize) -> (res: Option<String>)
    requires
        from <= to <= tokens.len(),
    ensures
        ({
            let piece = tokens.deep_view().subrange(from as int, to as int);
            match res {
                Some(key) => is_assignment(piece) && piece[0]->Ident_0 == key@,
                None => !is_assignment(piece),
            }
        }),
{
    let ghost all = tokens.deep_view();
    if to - from < 2 {
        return None;
    }
    proof {
        let piece = all.subrange(from as int, to as int);
        assert(piece[0] == tokens@[from as int]@);
        assert(piece[1] == tokens@[from + 1]@);
    }
    match (&tokens[from], &tokens[from + 1]) {
        (SourceToken::Ident(key), SourceToken::Sign(c, joint)) => if *c == '=' && !*joint {
            Some(key.clone())
        } else {
            None
        },
        _ => None,
    }
}

/// The item that the tokens from `from` to `to` are.
fn parse_attr_item(tokens: &Vec<SourceToken>, from: usize, to: usize, kw: &str) -> (res: Result<
    AttrItem,
    EmitError,
>)
    requires
        from <= to <= tokens.len(),
    ensures
        told(res) == item_in(tokens.deep_view().subrange(from as int, to as int), kw@),
{
    let ghost piece = tokens.deep_view().subrange(from as int, to as int);
    match split_assign(tokens, from, to) {
        Some(key) => {
            assert(piece.skip(2) =~= tokens.deep_view().subrange(from + 2, to as int));
            let value = print_tokens(tokens, from + 2, to);
            parse_assignment(key.as_str(), value, kw)
        },
        None => {
            let text = print_tokens(tokens, from, to);
            match parse_expression(text.as_str()) {
                Ok(e) => lone(e, kw),
                Err(message) => error(
                    "malformed #[".to_string().concat(kw).concat("] argument: ").concat(
                        message.as_str(),
                    ),
                ),
            }
        },
    }
}

/// An assignment is `key = value`: `manager` and `gate` are types, anything else is an
/// expression; a call is known by its name, and any other expression stands for itself.
pub proof fn items_are_what_they_are_written_as(
    key: Seq<char>,
    value: Seq<char>,
    kw: Seq<char>,
    rest: Seq<TokenForm>,
    e: Expression,
    name: Seq<char>,
    args: Seq<Expression>,
)
    ensures
        item_in(seq![TokenForm::Ident(key), TokenForm::Sign('=', false)] + rest, kw) == assignment(
            key,
            tokens_text(rest),
            kw,
        ),
        type_in(value) is Ok && (key == "manager"@ || key == "gate"@) ==> assignment(key, value, kw)
            == Ok::<ItemForm, Seq<char>>(
            ItemForm::Assign {
                key,
                value: ValueForm::Type(type_text(value), type_in(value)->Ok_0 is TraitObject),
            },
        ),
        expression(value) is Ok && key != "manager"@ && key != "gate"@ ==> assignment(key, value, kw)
            == Ok::<ItemForm, Seq<char>>(
            ItemForm::Assign { key, value: ValueForm::Expr(expression(value)->Ok_0) },
        ),
        calls(e, name, args) ==> lone_item(e, kw) == Ok::<ItemForm, Seq<char>>(
            ItemForm::Call { name },
        ),
        !(e.kind is Call) ==> lone_item(e, kw) == Ok::<ItemForm, Seq<char>>(ItemForm::Positional(e)),
{
    let piece = seq![TokenForm::Ident(key), TokenForm::Sign('=', false)] + rest;
    assert(piece.skip(2) =~= rest);
}

/// The items that pieces are. The first one that cannot be decides.
pub open spec fn items_of(pieces: Seq<Seq<TokenForm>>, kw: Seq<char>) -> Result<
    Seq<ItemForm>,
    Seq<char>,
>
    decreases pieces.len(),
{
    if pieces.len() == 0 {
        Ok(Seq::empty())
    } else {
        match items_of(pieces.drop_last(), kw) {
            Ok(list) => match item_in(pieces.last(), kw) {
                Ok(one) => Ok(list.push(one)),
                Err(message) => Err(message),
            },
            Err(message) => Err(message),
        }
    }
}

/// A piece that cannot be decides, whatever follows.
proof fn items_stop(pieces: Seq<Seq<TokenForm>>, kw: Seq<char>, n: int)
    requires
        0 <= n <= pieces.len(),
        items_of(pieces.take(n), kw) is Err,
    ensures
        items_of(pieces, kw) == items_of(pieces.take(n), kw),
    decreases pieces.len(),
{
    if n == pieces.len() {
        assert(pieces.take(n) =~= pieces);
    } else {
        assert(pieces.drop_last().take(n) =~= pieces.take(n));
        items_stop(pieces.drop_last(), kw, n);
    }
}

/// The items in the arguments of the attribute `kw`, or what is wrong with them. Where
/// nothing is written there are none.
pub open spec fn items_in(attr: Seq<char>, kw: Seq<char>) -> Result<Seq<ItemForm>, Seq<char>> {
    if attr.len() == 0 {
        Ok(Seq::empty())
    } else {
        match tokens_in(attr) {
            Ok(tokens) => items_of(pieces_from(tokens, Seq::empty()), kw),
            Err(message) => Err("malformed #["@ + kw + "] argument: "@ + message),
        }
    }
}

/// A result that is a list of items, as the contracts speak of it.
pub open spec fn told_items(res: Result<Vec<AttrItem>, EmitError>) -> Result<
    Seq<ItemForm>,
    Seq<char>,
> {
    match res {
        Ok(list) => Ok(list.deep_view()),
        Err(e) => Err(e.message@),
    }
}

/// Reads the items that tokens are in the arguments of the attribute `kw`.
pub fn attr_items_of(tokens: &Vec<SourceToken>, kw: &str) -> (res: Result<
    Vec<AttrItem>,
    EmitError,
>)
    ensures
        told_items(res) == items_of(pieces_from(tokens.deep_view(), Seq::empty()), kw@),
{
    let places = split_top_level_commas(tokens);
    let ghost all = tokens.deep_view();
    let ghost pieces = pieces_at(all, places@);
    let mut out: Vec<AttrItem> = Vec::new();
    let mut i: usize = 0;
    assert(out.deep_view() =~= Seq::<ItemForm>::empty());
    assert(pieces.take(0) =~= Seq::<Seq<TokenForm>>::empty());
    while i < places.len()
        invariant
            all == tokens.deep_view(),
            pieces == pieces_at(all, places@),
            pieces == pieces_from(all, Seq::empty()),
            forall|k: int|
                0 <= k < places@.len() ==> (#[trigger] places@[k]).0 <= places@[k].1
                    <= tokens@.len(),
            i <= places.len(),
            items_of(pieces.take(i as int), kw@) == Ok::<Seq<ItemForm>, Seq<char>>(out.deep_view()),
        decreases places.len() - i,
    {
        let ghost before = out.deep_view();
        proof {
            let next = pieces.take(i + 1);
            assert(next.drop_last() =~= pieces.take(i as int));
            assert(next.last() == pieces[i as int]);
        }
        let (from, to) = places[i];
        match parse_attr_item(tokens, from, to, kw) {
            Ok(one) => {
                let ghost added = one@;
                out.push(one);
                assert(out.deep_view() =~= before.push(added));
            },
            Err(e) => {
                proof {
                    items_stop(pieces, kw@, i + 1);
                }
                return Err(e);
            },
        }
        i += 1;
    }
    assert(pieces.take(i as int) =~= pieces);
    Ok(out)
}

/// Reads the items in the arguments of the attribute `kw`. A comma inside brackets
/// separates nothing.
pub fn attr_items(attr: &str, kw: &str) -> (res: Result<Vec<AttrItem>, EmitError>)
    ensures
        told_items(res) == items_in(attr@, kw@),
{
    if attr.unicode_len() == 0 {
        let none: Vec<AttrItem> = Vec::new();
        assert(none.deep_view() =~= Seq::<ItemForm>::empty());
        return Ok(none);
    }
    match source_tokens(attr) {
        Ok(tokens) => attr_items_of(&tokens, kw),
        Err(message) => error(
            "malformed #[".to_string().concat(kw).concat("] argument: ").concat(message.as_str()),
        ),
    }
}

/// What the items in the arguments of an attribute set, one after the other.
pub trait ItemSettings: View + Sized {
    /// The settings after one more item, or the message for an item that cannot be.
    spec fn after(settings: Self::V, item: ItemForm) -> Result<Self::V, Seq<char>>;

    /// Takes in one more item.
    fn apply(self, item: &AttrItem) -> (res: Result<Self, EmitError>)
        ensures
            told(res) == Self::after(self@, item@),
    ;
}

/// The settings after all of `items`. The first item that cannot be decides.
pub open spec fn settled_items<S: ItemSettings>(start: S::V, items: Seq<ItemForm>) -> Result<
    S::V,
    Seq<char>,
>
    decreases items.len(),
{
    if items.len() == 0 {
        Ok(start)
    } else {
        match settled_items::<S>(start, items.drop_last()) {
            Ok(settings) => S::after(settings, items.last()),
            Err(message) => Err(message),
        }
    }
}

/// An item that cannot be decides, whatever follows.
proof fn settled_items_stop<S: ItemSettings>(start: S::V, items: Seq<ItemForm>, n: int)
    requires
        0 <= n <= items.len(),
        settled_items::<S>(start, items.take(n)) is Err,
    ensures
        settled_items::<S>(start, items) == settled_items::<S>(start, items.take(n)),
    decreases items.len(),
{
    if n == items.len() {
        assert(items.take(n) =~= items);
    } else {
        assert(items.drop_last().take(n) =~= items.take(n));
        settled_items_stop::<S>(start, items.drop_last(), n);
    }
}

/// Takes in all of `items`.
fn settle_items<S: ItemSettings>(start: S, items: &[AttrItem]) -> (res: Result<S, EmitError>)
    ensures
        told(res) == settled_items::<S>(start@, items.deep_view()),
{
    let ghost all = items.deep_view();
    let ghost first = start@;
    let mut settings = start;
    let mut i: usize = 0;
    assert(all.take(0) =~= Seq::<ItemForm>::empty());
    while i < items.len()
        invariant
            all == items.deep_view(),
            first == start@,
            i <= items@.len(),
            settled_items::<S>(first, all.take(i as int)) == Ok::<S::V, Seq<char>>(settings@),
        decreases items@.len() - i,
    {
        proof {
            let next = all.take(i + 1);
            assert(next.drop_last() =~= all.take(i as int));
            assert(next.last() == items@[i as int]@);
        }
        match settings.apply(&items[i]) {
            Ok(after) => {
                settings = after;
            },
            Err(e) => {
                proof {
                    settled_items_stop::<S>(first, all, i + 1);
                }
                return Err(e);
            },
        }
        i += 1;
    }
    assert(all.take(i as int) =~= all);
    Ok(settings)
}

/// Items are taken in in their order, and the first one that cannot be decides.
pub proof fn attribute_items_are_taken_in_order<S: ItemSettings>(
    start: S::V,
    a: Seq<ItemForm>,
    b: Seq<ItemForm>,
    e: ItemForm,
)
    ensures
        settled_items::<S>(start, a + b) == match settled_items::<S>(start, a) {
            Ok(settings) => settled_items::<S>(settings, b),
            Err(message) => Err(message),
        },
        settled_items::<S>(start, seq![e]) == S::after(start, e),
        settled_items::<S>(start, Seq::empty()) == Ok::<S::V, Seq<char>>(start),
    decreases b.len(),
{
    reveal_with_fuel(settled_items, 2);
    assert(seq![e].drop_last() =~= Seq::<ItemForm>::empty());
    if b.len() == 0 {
        assert(a + b =~= a);
    } else {
        attribute_items_are_taken_in_order::<S>(start, a, b.drop_last(), e);
        assert((a + b).drop_last() =~= a + b.drop_last());
        assert((a + b).last() == b.last());
    }
}

/// The message for an argument that `#[kw]` does not have.
pub open spec fn unknown_argument(key: Seq<char>, kw: Seq<char>, expected: Seq<char>) -> Seq<char> {
    "unknown #["@ + kw + "] argument `"@ + key + "` (expected `"@ + expected + "`)"@
}

/// The error for an argument that `#[kw]` does not have.
fn unknown<T>(key: &str, kw: &str, expected: &str) -> (res: Result<T, EmitError>)
    ensures
        res matches Err(e) && e.message@ == unknown_argument(key@, kw@, expected@),
{
    error(
        "unknown #[".to_string().concat(kw).concat("] argument `").concat(key).concat(
            "` (expected `",
        ).concat(expected).concat("`)"),
    )
}

/// The message for an expression that `#[kw]` has no use for.
pub open spec fn stray_argument(e: Expression, kw: Seq<char>) -> Seq<char> {
    "unexpected #["@ + kw + "] argument `"@ + e.source + "`"@
}

/// The error for an expression that `#[kw]` has no use for.
fn positional<T>(e: &Arg, kw: &str) -> (res: Result<T, EmitError>)
    ensures
        res matches Err(err) && err.message@ == stray_argument(e@, kw@),
{
    error(
        "unexpected #[".to_string().concat(kw).concat("] argument `").concat(
            e.source.as_str(),
        ).concat("`"),
    )
}

/// The type that a manager is found by.
#[derive(Clone, Debug, PartialEq, Eq)]
pub struct ManagerRef {
    /// The source of the type.
    pub ty: String,
    /// Whether the type is a trait object.
    pub trait_object: bool,
}

impl View for ManagerRef {
    type V = (Seq<char>, bool);

    /// The source of the type, and whether it is a trait object.
    open spec fn view(&self) -> (Seq<char>, bool) {
        (self.ty@, self.trait_object)
    }
}

impl DeepView for ManagerRef {
    type V = (Seq<char>, bool);

    open spec fn deep_view(&self) -> (Seq<char>, bool) {
        self@
    }
}

impl ManagerRef {
    /// Whether the manager is found by a trait.
    pub fn is_trait_object(&self) -> (res: bool)
        ensures
            res == self@.1,
    {
        self.trait_object
    }
}

/// The type that the value of `key` is.
pub open spec fn type_of(value: ValueForm, key: Seq<char>) -> Result<(Seq<char>, bool), Seq<char>> {
    match value {
        ValueForm::Type(source, object) => Ok((source, object)),
        ValueForm::Expr(e) => Err("`"@ + key + "` must be a bean TYPE, got `"@ + e.source + "`"@),
    }
}

/// The type that the value of `key` is.
fn type_value(value: &ItemValue, key: &str) -> (res: Result<ManagerRef, EmitError>)
    ensures
        told(res) == type_of(value@, key@),
{
    match value {
        ItemValue::Type(source, object) => Ok(
            ManagerRef { ty: source.clone(), trait_object: *object },
        ),
        ItemValue::Expr(e) => error(
            "`".to_string().concat(key).concat("` must be a bean TYPE, got `").concat(
                e.source.as_str(),
            ).concat("`"),
        ),
    }
}

/// The expression that the value of `key` is.
pub open spec fn expr_of(value: ValueForm, key: Seq<char>) -> Result<Expression, Seq<char>> {
    match value {
        ValueForm::Expr(e) => Ok(e),
        ValueForm::Type(source, _) => Err(
            "`"@ + key + "` must be a value, got the type `"@ + source + "`"@,
        ),
    }
}

impl ItemValue {
    /// The expression that the value of `key` is.
    fn expect_expr(&self, key: &str) -> (res: Result<&Arg, EmitError>)
        ensures
            match res {
                Ok(e) => expr_of(self@, key@) == Ok::<Expression, Seq<char>>(e@),
                Err(e) => expr_of(self@, key@) == Err::<Expression, Seq<char>>(e.message@),
            },
    {
        match self {
            ItemValue::Expr(e) => Ok(e),
            ItemValue::Type(source, _) => error(
                "`".to_string().concat(key).concat("` must be a value, got the type `").concat(
                    source.as_str(),
                ).concat("`"),
            ),
        }
    }
}

/// What `#[transactional]` says.
#[derive(Clone, Debug, PartialEq, Eq)]
pub struct TransactionalArgs {
    /// The manager of the transaction.
    pub manager: Option<ManagerRef>,
}

impl Default for TransactionalArgs {
    fn default() -> (res: TransactionalArgs)
        ensures
            res@ is None,
    {
        TransactionalArgs { manager: None }
    }
}

impl View for TransactionalArgs {
    type V = Option<(Seq<char>, bool)>;

    /// The manager.
    open spec fn view(&self) -> Option<(Seq<char>, bool)> {
        self.manager.deep_view()
    }
}

impl ItemSettings for TransactionalArgs {
    open spec fn after(manager: Option<(Seq<char>, bool)>, item: ItemForm) -> Result<
        Option<(Seq<char>, bool)>,
        Seq<char>,
    > {
        match item {
            ItemForm::Assign { key, value } => if key == "manager"@ {
                match type_of(value, "manager"@) {
                    Ok(ty) => Ok(Some(ty)),
                    Err(message) => Err(message),
                }
            } else {
                Err(unknown_argument(key, "transactional"@, "manager"@))
            },
            ItemForm::Call { name } => if name == "rollback_for"@ || name == "no_rollback_for"@ {
                Ok(manager)
            } else {
                Err(unknown_argument(name, "transactional"@, "manager"@))
            },
            ItemForm::Positional(e) => Err(stray_argument(e, "transactional"@)),
        }
    }

    fn apply(self, item: &AttrItem) -> (res: Result<TransactionalArgs, EmitError>) {
        match item {
            AttrItem::Assign { key, value } => if str_eq(key.as_str(), "manager") {
                match type_value(value, "manager") {
                    Ok(ty) => Ok(TransactionalArgs { manager: Some(ty) }),
                    Err(e) => Err(e),
                }
            } else {
                unknown(key.as_str(), "transactional", "manager")
            },
            AttrItem::Call { name } => if str_eq(name.as_str(), "rollback_for") || str_eq(
                name.as_str(),
                "no_rollback_for",
            ) {
                Ok(self)
            } else {
                unknown(name.as_str(), "transactional", "manager")
            },
            AttrItem::Positional(e) => positional(e, "transactional"),
        }
    }
}

/// The manager that items name.
pub open spec fn transactional_settings(items: Seq<ItemForm>) -> Result<
    Option<(Seq<char>, bool)>,
    Seq<char>,
> {
    match settled_items::<TransactionalArgs>(None, items) {
        Ok(None) => Err(
            "#[transactional] requires `manager = <TransactionManager bean type>` (there is no default manager bean type)"@,
        ),
        other => other,
    }
}

/// The manager that items name.
pub fn transactional_of(items: &[AttrItem]) -> (res: Result<TransactionalArgs, EmitError>)
    ensures
        told(res) == transactional_settings(items.deep_view()),
{
    match settle_items(TransactionalArgs::default(), items) {
        Ok(args) => if args.manager.is_none() {
            error(
                "#[transactional] requires `manager = <TransactionManager bean type>` (there is no default manager bean type)".to_string(),
            )
        } else {
            Ok(args)
        },
        Err(e) => Err(e),
    }
}

/// The manager that the source of the arguments names.
pub open spec fn transactional_arguments(attr: Seq<char>) -> Result<
    Option<(Seq<char>, bool)>,
    Seq<char>,
> {
    match items_in(attr, "transactional"@) {
        Ok(items) => transactional_settings(items),
        Err(message) => Err(message),
    }
}

/// Reads the arguments of `#[transactional]`.
pub fn parse_transactional(attr: &str) -> (res: Result<TransactionalArgs, EmitError>)
    ensures
        told(res) == transactional_arguments(attr@),
        attr@.len() == 0 ==> told(res) == Err::<Option<(Seq<char>, bool)>, Seq<char>>(
            "#[transactional] requires `manager = <TransactionManager bean type>` (there is no default manager bean type)"@,
        ),
{
    match attr_items(attr, "transactional") {
        Ok(items) => transactional_of(items.as_slice()),
        Err(e) => Err(e),
    }
}

/// The manager of a transaction is the one given last; rules of rolling back leave it, and nothing
/// else is taken. There has to be one.
pub proof fn transaction_takes_its_manager(
    manager: Option<(Seq<char>, bool)>,
    ty: Seq<char>,
    object: bool,
    key: Seq<char>,
    value: ValueForm,
    e: Expression,
    items: Seq<ItemForm>,
)
    ensures
        <TransactionalArgs as ItemSettings>::after(
            manager,
            ItemForm::Assign { key: "manager"@, value: ValueForm::Type(ty, object) },
        ) == Ok::<Option<(Seq<char>, bool)>, Seq<char>>(Some((ty, object))),
        key != "manager"@ ==> <TransactionalArgs as ItemSettings>::after(
            manager,
            ItemForm::Assign { key, value },
        ) is Err,
        <TransactionalArgs as ItemSettings>::after(manager, ItemForm::Call { name: "rollback_for"@ })
            == Ok::<Option<(Seq<char>, bool)>, Seq<char>>(manager),
        <TransactionalArgs as ItemSettings>::after(
            manager,
            ItemForm::Call { name: "no_rollback_for"@ },
        ) == Ok::<Option<(Seq<char>, bool)>, Seq<char>>(manager),
        <TransactionalArgs as ItemSettings>::after(manager, ItemForm::Positional(e)) is Err,
        settled_items::<TransactionalArgs>(None, items) matches Ok(given) ==> (if given is Some {
            transactional_settings(items) == Ok::<Option<(Seq<char>, bool)>, Seq<char>>(given)
        } else {
            transactional_settings(items) is Err
        }),
{
}

/// What the attribute of a concern with a cache says.
#[derive(Clone, Debug, PartialEq, Eq)]
pub struct CacheableArgs {
    /// The names of the caches.
    pub cache_names: Vec<String>,
    /// The manager of the caches.
    pub manager: Option<ManagerRef>,
    /// The position of the argument that is the key, where one is.
    pub key_arg: Option<usize>,
    /// Whether all entries are dropped.
    pub all_entries: bool,
    /// Whether what is missing is computed by one caller at a time.
    pub sync: bool,
}

/// What [`CacheableArgs`] stand for.
pub ghost struct Cached {
    pub names: Seq<Seq<char>>,
    pub manager: Option<(Seq<char>, bool)>,
    pub key: Option<usize>,
    pub all: bool,
    pub sync: bool,
}

impl View for CacheableArgs {
    type V = Cached;

    open spec fn view(&self) -> Cached {
        Cached {
            names: self.cache_names.deep_view(),
            manager: self.manager.deep_view(),
            key: self.key_arg,
            all: self.all_entries,
            sync: self.sync,
        }
    }
}

/// What an attribute without arguments says of a cache.
pub open spec fn uncached() -> Cached {
    Cached { names: Seq::empty(), manager: None, key: None, all: false, sync: false }
}

impl Default for CacheableArgs {
    fn default() -> (res: CacheableArgs)
        ensures
            res@ == uncached(),
    {
        let res = CacheableArgs {
            cache_names: Vec::new(),
            manager: None,
            key_arg: None,
            all_entries: false,
            sync: false,
        };
        assert(res@.names =~= Seq::<Seq<char>>::empty());
        res
    }
}

/// The position in a key: `#` and a number.
pub open spec fn key_position(s: Seq<char>) -> Option<usize> {
    if s.len() > 0 && s[0] == '#' {
        match number(s.drop_first(), usize::MAX as nat) {
            Some(n) => Some(n as usize),
            None => None,
        }
    } else {
        None
    }
}

/// The position of the argument that is the key.
pub open spec fn key_of(e: Expression) -> Result<usize, Seq<char>> {
    match e.kind {
        Form::Str(s) => match key_position(s) {
            Some(n) => Ok(n),
            None => Err(
                "unsupported cache key `"@ + debug_source(s)
                    + "`: v1 supports only `\"#N\"` (a positional arg index)"@,
            ),
        },
        _ => Err("`key` must be a string of the form `\"#0\"` (key on positional arg 0)"@),
    }
}

/// The position of the argument that is the key.
fn parse_key(e: &Arg) -> (res: Result<usize, EmitError>)
    ensures
        told(res) == key_of(e@),
{
    let s = match &e.kind {
        ArgKind::Str(s) => s,
        _ => return error(
            "`key` must be a string of the form `\"#0\"` (key on positional arg 0)".to_string(),
        ),
    };
    let chars = chars_of(s.as_str());
    if chars.len() > 0 && chars[0] == '#' {
        let digits = slice_text(&chars, 1, chars.len());
        assert(digits@ =~= s@.drop_first());
        if let Some(n) = parse_number(digits.as_str(), usize::MAX as u64) {
            return Ok(n as usize);
        }
    }
    let shown = debug_text(s.as_str());
    error(
        "unsupported cache key `".to_string().concat(shown.as_str()).concat(
            "`: v1 supports only `\"#N\"` (a positional arg index)",
        ),
    )
}

/// The settings of a concern with a cache.
pub struct CacheSettings {
    /// The concern.
    pub concern: Concern,
    /// What its attribute says.
    pub args: CacheableArgs,
}

impl View for CacheSettings {
    type V = (Concern, Cached);

    open spec fn view(&self) -> (Concern, Cached) {
        (self.concern, self.args@)
    }
}

/// The settings after `key = value`.
pub open spec fn after_cache_value(c: Cached, kw: Seq<char>, key: Seq<char>, value: ValueForm) -> Result<
    Cached,
    Seq<char>,
> {
    if key == "cache"@ || key == "value"@ {
        match expr_of(value, key) {
            Ok(e) => match e.kind {
                Form::Str(s) => Ok(Cached { names: c.names.push(s), ..c }),
                _ => Err("`"@ + key + "` must be a cache-name string"@),
            },
            Err(message) => Err(message),
        }
    } else if key == "manager"@ {
        match type_of(value, "manager"@) {
            Ok(ty) => Ok(Cached { manager: Some(ty), ..c }),
            Err(message) => Err(message),
        }
    } else if key == "key"@ {
        match expr_of(value, key) {
            Ok(e) => match key_of(e) {
                Ok(n) => Ok(Cached { key: Some(n), ..c }),
                Err(message) => Err(message),
            },
            Err(message) => Err(message),
        }
    } else if key == "all_entries"@ {
        match expr_of(value, key) {
            Ok(e) => match flag_value(e) {
                Ok(b) => Ok(Cached { all: b, ..c }),
                Err(message) => Err(message),
            },
            Err(message) => Err(message),
        }
    } else if key == "sync"@ {
        match expr_of(value, key) {
            Ok(e) => match flag_value(e) {
                Ok(b) => Ok(Cached { sync: b, ..c }),
                Err(message) => Err(message),
            },
            Err(message) => Err(message),
        }
    } else {
        Err(
            "unknown #["@ + kw + "] argument `"@ + key
                + "` (expected `cache`/`key`/`manager`/`all_entries`/`sync`)"@,
        )
    }
}

/// The settings after an expression by itself.
pub open spec fn after_cache_word(c: Cached, kw: Seq<char>, e: Expression) -> Result<
    Cached,
    Seq<char>,
> {
    match e.kind {
        Form::Str(s) => Ok(Cached { names: c.names.push(s), ..c }),
        Form::Path { ident: Some(word), .. } => if word == "all_entries"@ {
            Ok(Cached { all: true, ..c })
        } else if word == "sync"@ {
            Ok(Cached { sync: true, ..c })
        } else {
            Err(stray_argument(e, kw))
        },
        _ => Err(stray_argument(e, kw)),
    }
}

/// The caches after one more name.
fn with_name(args: CacheableArgs, name: &String) -> (res: CacheableArgs)
    ensures
        res@ == (Cached { names: args@.names.push(name@), ..args@ }),
{
    let mut args = args;
    let ghost before = args@;
    args.cache_names.push(name.clone());
    assert(args@.names =~= before.names.push(name@));
    args
}

/// The settings after `key = value`.
fn apply_cache_value(args: CacheableArgs, kw: &str, key: &str, value: &ItemValue) -> (res: Result<
    CacheableArgs,
    EmitError,
>)
    ensures
        told(res) == after_cache_value(args@, kw@, key@, value@),
{
    let mut args = args;
    if str_eq(key, "cache") || str_eq(key, "value") {
        let e = match value.expect_expr(key) {
            Ok(e) => e,
            Err(e) => return Err(e),
        };
        match &e.kind {
            ArgKind::Str(s) => Ok(with_name(args, s)),
            _ => error("`".to_string().concat(key).concat("` must be a cache-name string")),
        }
    } else if str_eq(key, "manager") {
        match type_value(value, "manager") {
            Ok(ty) => {
                args.manager = Some(ty);
                Ok(args)
            },
            Err(e) => Err(e),
        }
    } else if str_eq(key, "key") {
        let e = match value.expect_expr(key) {
            Ok(e) => e,
            Err(e) => return Err(e),
        };
        match parse_key(e) {
            Ok(n) => {
                args.key_arg = Some(n);
                Ok(args)
            },
            Err(e) => Err(e),
        }
    } else if str_eq(key, "all_entries") {
        let e = match value.expect_expr(key) {
            Ok(e) => e,
            Err(e) => return Err(e),
        };
        match bool_value(e) {
            Ok(b) => {
                args.all_entries = b;
                Ok(args)
            },
            Err(e) => Err(e),
        }
    } else if str_eq(key, "sync") {
        let e = match value.expect_expr(key) {
            Ok(e) => e,
            Err(e) => return Err(e),
        };
        match bool_value(e) {
            Ok(b) => {
                args.sync = b;
                Ok(args)
            },
            Err(e) => Err(e),
        }
    } else {
        error(
            "unknown #[".to_string().concat(kw).concat("] argument `").concat(key).concat(
                "` (expected `cache`/`key`/`manager`/`all_entries`/`sync`)",
            ),
        )
    }
}

/// The settings after an expression by itself.
fn apply_cache_word(args: CacheableArgs, kw: &str, e: &Arg) -> (res: Result<
    CacheableArgs,
    EmitError,
>)
    ensures
        told(res) == after_cache_word(args@, kw@, e@),
{
    let mut args = args;
    match &e.kind {
        ArgKind::Str(s) => Ok(with_name(args, s)),
        ArgKind::Path { ident: Some(word), .. } => if str_eq(word.as_str(), "all_entries") {
            args.all_entries = true;
            Ok(args)
        } else if str_eq(word.as_str(), "sync") {
            args.sync = true;
            Ok(args)
        } else {
            positional(e, kw)
        },
        _ => positional(e, kw),
    }
}

impl ItemSettings for CacheSettings {
    open spec fn after(s: (Concern, Cached), item: ItemForm) -> Result<
        (Concern, Cached),
        Seq<char>,
    > {
        let kw = keyword_of(s.0);
        let next = match item {
            ItemForm::Assign { key, value } => after_cache_value(s.1, kw, key, value),
            ItemForm::Call { name } => Err(unknown_argument(name, kw, "cache/key/manager"@)),
            ItemForm::Positional(e) => after_cache_word(s.1, kw, e),
        };
        match next {
            Ok(cached) => Ok((s.0, cached)),
            Err(message) => Err(message),
        }
    }

    fn apply(self, item: &AttrItem) -> (res: Result<CacheSettings, EmitError>) {
        let concern = self.concern;
        let kw = concern.keyword();
        let next = match item {
            AttrItem::Assign { key, value } => apply_cache_value(
                self.args,
                kw,
                key.as_str(),
                value,
            ),
            AttrItem::Call { name } => unknown(name.as_str(), kw, "cache/key/manager"),
            AttrItem::Positional(e) => apply_cache_word(self.args, kw, e),
        };
        match next {
            Ok(args) => Ok(CacheSettings { concern, args }),
            Err(e) => Err(e),
        }
    }
}

/// What items say of a cache.
pub open spec fn cache_settings(items: Seq<ItemForm>, concern: Concern) -> Result<
    Cached,
    Seq<char>,
> {
    match settled_items::<CacheSettings>((concern, uncached()), items) {
        Ok((_, cached)) => if cached.names.len() == 0 {
            Err(
                "#["@ + keyword_of(concern)
                    + "] requires at least one cache name (`\"users\"` or `cache = \"users\"`)"@,
            )
        } else if cached.manager is None {
            Err("#["@ + keyword_of(concern) + "] requires `manager = <CacheManager bean type>`"@)
        } else {
            Ok(cached)
        },
        Err(message) => Err(message),
    }
}

/// What items say of a cache.
pub fn cache_of(items: &[AttrItem], concern: Concern) -> (res: Result<CacheableArgs, EmitError>)
    ensures
        told(res) == cache_settings(items.deep_view(), concern),
{
    let kw = concern.keyword();
    match settle_items(CacheSettings { concern, args: CacheableArgs::default() }, items) {
        Ok(settings) => if settings.args.cache_names.len() == 0 {
            error(
                "#[".to_string().concat(kw).concat(
                    "] requires at least one cache name (`\"users\"` or `cache = \"users\"`)",
                ),
            )
        } else if settings.args.manager.is_none() {
            error(
                "#[".to_string().concat(kw).concat(
                    "] requires `manager = <CacheManager bean type>`",
                ),
            )
        } else {
            Ok(settings.args)
        },
        Err(e) => Err(e),
    }
}

/// What the source of the arguments says of a cache.
pub open spec fn cache_arguments(attr: Seq<char>, concern: Concern) -> Result<Cached, Seq<char>> {
    match items_in(attr, keyword_of(concern)) {
        Ok(items) => cache_settings(items, concern),
        Err(message) => Err(message),
    }
}

/// Reads the arguments of the attribute of a concern with a cache.
pub fn parse_cache(attr: &str, concern: Concern) -> (res: Result<CacheableArgs, EmitError>)
    ensures
        told(res) == cache_arguments(attr@, concern),
        attr@.len() == 0 ==> told(res) == Err::<Cached, Seq<char>>(
            "#["@ + keyword_of(concern)
                + "] requires at least one cache name (`\"users\"` or `cache = \"users\"`)"@,
        ),
{
    match attr_items(attr, concern.keyword()) {
        Ok(items) => cache_of(items.as_slice(), concern),
        Err(e) => Err(e),
    }
}

/// Each key of a cache sets what it names and leaves the rest; names are added behind those given
/// before, a key is an argument by its place, and a flag can stand alone. A name and a manager have
/// to be there.
pub proof fn cache_items_set_their_own(
    c: Cached,
    kw: Seq<char>,
    key: Seq<char>,
    e: Expression,
    ty: Seq<char>,
    object: bool,
    n: nat,
)
    ensures
        (key == "cache"@ || key == "value"@) && e.kind is Str ==> after_cache_value(
            c,
            kw,
            key,
            ValueForm::Expr(e),
        ) == Ok::<Cached, Seq<char>>(Cached { names: c.names.push(e.kind->Str_0), ..c }),
        after_cache_value(c, kw, "manager"@, ValueForm::Type(ty, object)) == Ok::<Cached, Seq<char>>(
            Cached { manager: Some((ty, object)), ..c },
        ),
        e.kind == Form::Str(seq!['#'] + decimal(n)) && n <= usize::MAX ==> after_cache_value(
            c,
            kw,
            "key"@,
            ValueForm::Expr(e),
        ) == Ok::<Cached, Seq<char>>(Cached { key: Some(n as usize), ..c }),
        e.kind is Bool ==> after_cache_value(c, kw, "all_entries"@, ValueForm::Expr(e)) == Ok::<
            Cached,
            Seq<char>,
        >(Cached { all: e.kind->Bool_0, ..c }),
        e.kind is Bool ==> after_cache_value(c, kw, "sync"@, ValueForm::Expr(e)) == Ok::<
            Cached,
            Seq<char>,
        >(Cached { sync: e.kind->Bool_0, ..c }),
        key != "cache"@ && key != "value"@ && key != "manager"@ && key != "key"@ && key
            != "all_entries"@ && key != "sync"@ ==> after_cache_value(c, kw, key, ValueForm::Expr(e)) is Err,
        e.kind is Str ==> after_cache_word(c, kw, e) == Ok::<Cached, Seq<char>>(
            Cached { names: c.names.push(e.kind->Str_0), ..c },
        ),
        e.kind is Path && e.kind->ident == Some("all_entries"@) ==> after_cache_word(c, kw, e)
            == Ok::<Cached, Seq<char>>(Cached { all: true, ..c }),
        e.kind is Path && e.kind->ident == Some("sync"@) ==> after_cache_word(c, kw, e) == Ok::<
            Cached,
            Seq<char>,
        >(Cached { sync: true, ..c }),
        uncached() == (Cached {
            names: Seq::empty(),
            manager: None,
            key: None,
            all: false,
            sync: false,
        }),
{
    reveal_strlit("cache");
    reveal_strlit("value");
    reveal_strlit("manager");
    reveal_strlit("key");
    reveal_strlit("all_entries");
    reveal_strlit("sync");
    assert("cache"@[0] != "value"@[0]);
    assert("cache"@.len() != "manager"@.len());
    assert("cache"@.len() != "key"@.len());
    assert("cache"@.len() != "all_entries"@.len());
    assert("cache"@.len() != "sync"@.len());
    assert("value"@.len() != "manager"@.len());
    assert("value"@.len() != "key"@.len());
    assert("value"@.len() != "all_entries"@.len());
    assert("value"@.len() != "sync"@.len());
    assert("manager"@.len() != "key"@.len());
    assert("manager"@.len() != "all_entries"@.len());
    assert("manager"@.len() != "sync"@.len());
    assert("key"@.len() != "all_entries"@.len());
    assert("key"@.len() != "sync"@.len());
    assert("all_entries"@.len() != "sync"@.len());
    numeral_stands_for_its_number(n, usize::MAX as nat);
    assert((seq!['#'] + decimal(n)).drop_first() =~= decimal(n));
}

/// What is said of a cache holds where it has a name and a manager, and is refused otherwise.
pub proof fn cache_needs_name_and_manager(items: Seq<ItemForm>, concern: Concern)
    ensures
        settled_items::<CacheSettings>((concern, uncached()), items) matches Ok((c, cached)) ==> (
        if cached.names.len() > 0 && cached.manager is Some {
            cache_settings(items, concern) == Ok::<Cached, Seq<char>>(cached)
        } else {
            cache_settings(items, concern) is Err
        }),
{
}

/// How long to wait before a method is run again.
#[derive(Clone, Debug, PartialEq, Eq)]
pub enum Backoff {
    /// Not at all.
    Immediate,
    /// Always the same number of milliseconds.
    Fixed(u64),
    /// At first a number of milliseconds, and each time longer by a factor, of which the
    /// digits are given. They are those of the attribute, not rounded to an `f64`.
    Exponential { base_ms: u64, mult: String },
}

/// What a [`Backoff`] stands for.
pub ghost enum Delay {
    Immediate,
    Fixed(u64),
    Exponential { base_ms: u64, mult: Seq<char> },
}

impl View for Backoff {
    type V = Delay;

    open spec fn view(&self) -> Delay {
        match self {
            Backoff::Immediate => Delay::Immediate,
            Backoff::Fixed(ms) => Delay::Fixed(*ms),
            Backoff::Exponential { base_ms, mult } => Delay::Exponential {
                base_ms: *base_ms,
                mult: mult@,
            },
        }
    }
}

/// What `#[retryable]` says.
#[derive(Clone, Debug, PartialEq, Eq)]
pub struct RetryableArgs {
    /// How often the method is run at most.
    pub max: u32,
    /// How long to wait in between.
    pub backoff: Backoff,
}

impl View for RetryableArgs {
    type V = (u32, Delay);

    /// How often, and how long to wait in between.
    open spec fn view(&self) -> (u32, Delay) {
        (self.max, self.backoff@)
    }
}

impl Default for RetryableArgs {
    fn default() -> (res: RetryableArgs)
        ensures
            res@ == (3u32, Delay::Immediate),
    {
        RetryableArgs { max: 3, backoff: Backoff::Immediate }
    }
}

/// The value of an unsigned integer.
pub open spec fn whole(e: Expression) -> Option<u64> {
    match e.kind {
        Form::Int(digits) => match number(digits, u64::MAX as nat) {
            Some(n) => Some(n as u64),
            None => None,
        },
        _ => None,
    }
}

/// The value of an unsigned integer.
fn uint_lit(e: &Arg) -> (res: Option<u64>)
    ensures
        res == whole(e@),
{
    match &e.kind {
        ArgKind::Int(digits) => parse_number(digits.as_str(), 0xffff_ffff_ffff_ffff),
        _ => None,
    }
}

/// The value of an unsigned integer, or the message where there is none.
pub open spec fn whole_value(e: Expression) -> Result<u64, Seq<char>> {
    match whole(e) {
        Some(n) => Ok(n),
        None => Err("expected an integer literal, got `"@ + e.source + "`"@),
    }
}

/// The value of an unsigned integer.
fn uint_value(e: &Arg) -> (res: Result<u64, EmitError>)
    ensures
        told(res) == whole_value(e@),
{
    match uint_lit(e) {
        Some(n) => Ok(n),
        None => error(
            "expected an integer literal, got `".to_string().concat(e.source.as_str()).concat("`"),
        ),
    }
}

/// `s` without the zeros in front of its first digit.
pub open spec fn without_leading_zeros(s: Seq<char>) -> Seq<char>
    decreases s.len(),
{
    if s.len() > 1 && s[0] == '0' && '0' <= s[1] && s[1] <= '9' {
        without_leading_zeros(s.drop_first())
    } else {
        s
    }
}

/// `s` without the zeros it ends with, and without the point where it ends with that.
pub open spec fn without_trailing_zeros(s: Seq<char>) -> Seq<char>
    decreases s.len(),
{
    if s.len() == 0 {
        s
    } else if s.last() == '0' {
        without_trailing_zeros(s.drop_last())
    } else if s.last() == '.' {
        s.drop_last()
    } else {
        s
    }
}

/// How long `s` is up to its exponent.
pub open spec fn mantissa_len(s: Seq<char>) -> nat
    decreases s.len(),
{
    if s.len() == 0 || s[0] == 'e' {
        0
    } else {
        1 + mantissa_len(s.drop_first())
    }
}

/// How long `s` is up to its point.
pub open spec fn whole_len(s: Seq<char>) -> nat
    decreases s.len(),
{
    if s.len() == 0 || s[0] == '.' {
        0
    } else {
        1 + whole_len(s.drop_first())
    }
}

/// The digits of a number without its point.
pub open spec fn all_digits(s: Seq<char>) -> Seq<char> {
    let n = whole_len(s) as int;
    if n < s.len() {
        s.take(n) + s.skip(n + 1)
    } else {
        s
    }
}

/// As many zeros.
pub open spec fn zeros(n: nat) -> Seq<char> {
    Seq::new(n, |i: int| '0')
}

/// `digits` with a point behind the first `point` of them, and with zeros where there are
/// none.
pub open spec fn pointed(digits: Seq<char>, point: int) -> Seq<char> {
    if point <= 0 {
        "0."@ + zeros((-point) as nat) + digits
    } else if point >= digits.len() {
        digits + zeros((point - digits.len()) as nat)
    } else {
        digits.take(point) + seq!['.'] + digits.skip(point)
    }
}

/// `s` without the digits that say nothing: zeros in front, zeros behind the point, and a
/// point that nothing follows.
pub open spec fn tidy(s: Seq<char>) -> Seq<char> {
    let front = without_leading_zeros(s);
    if front.contains('.') {
        without_trailing_zeros(front)
    } else {
        front
    }
}

/// How far an exponent moves a point at most.
pub const FARTHEST: u64 = 9999;

/// The number behind the `e` that `s` begins with, where it is not beyond the farthest. Where
/// `s` is empty it is zero.
pub open spec fn exponent(s: Seq<char>) -> Option<int> {
    if s.len() == 0 {
        Some(0)
    } else if s.len() > 1 && s[1] == '-' {
        match number(s.skip(2), FARTHEST as nat) {
            Some(n) => Some(-n),
            None => None,
        }
    } else {
        match number(s.skip(1), FARTHEST as nat) {
            Some(n) => Some(n as int),
            None => None,
        }
    }
}

/// The digits of a number as it is written without an exponent and without what says nothing.
/// Beyond the farthest exponent it stays as it is, unless it is zero.
pub open spec fn plain_digits(s: Seq<char>) -> Seq<char> {
    let n = mantissa_len(s) as int;
    let mantissa = s.take(n);
    match exponent(s.skip(n)) {
        Some(x) => tidy(pointed(all_digits(mantissa), whole_len(mantissa) + x)),
        None => if tidy(mantissa) == "0"@ {
            "0"@
        } else {
            s
        },
    }
}

/// Without an exponent a number is all mantissa.
proof fn mantissa_is_all(s: Seq<char>)
    requires
        !s.contains('e'),
    ensures
        mantissa_len(s) == s.len(),
    decreases s.len(),
{
    if s.len() > 0 {
        assert(s[0] != 'e');
        assert forall|i: int| 0 <= i < s.drop_first().len() implies s.drop_first()[i] != 'e' by {
            assert(s[i + 1] != 'e');
        }
        mantissa_is_all(s.drop_first());
    }
}

/// A zero at the end takes no part in what stands in front.
proof fn leading_zeros_with(s: Seq<char>)
    requires
        s.contains('.'),
    ensures
        without_leading_zeros(s.push('0')) == without_leading_zeros(s).push('0'),
        without_leading_zeros(s).contains('.'),
    decreases s.len(),
{
    let more = s.push('0');
    let i = choose|i: int| 0 <= i < s.len() && s[i] == '.';
    if s.len() > 1 && s[0] == '0' && '0' <= s[1] && s[1] <= '9' {
        assert(s.drop_first()[i - 1] == '.');
        assert(more.drop_first() =~= s.drop_first().push('0'));
        leading_zeros_with(s.drop_first());
    }
}

/// A point behind digits takes no part in what stands in front.
proof fn leading_zeros_before(s: Seq<char>)
    requires
        !s.contains('.'),
    ensures
        without_leading_zeros(s + ".0"@) == without_leading_zeros(s) + ".0"@,
        !without_leading_zeros(s).contains('.'),
    decreases s.len(),
{
    reveal_strlit(".0");
    let more = s + ".0"@;
    if s.len() > 1 {
        assert(more[1] == s[1]);
        if s[0] == '0' && '0' <= s[1] && s[1] <= '9' {
            assert(more.drop_first() =~= s.drop_first() + ".0"@);
            assert forall|i: int| 0 <= i < s.drop_first().len() implies s.drop_first()[i] != '.' by {
                assert(s.contains(s[i + 1]));
            }
            leading_zeros_before(s.drop_first());
        }
    } else {
        assert(more[s.len() as int] == '.');
    }
}

/// One more character at the end moves no point.
proof fn whole_len_with(s: Seq<char>, c: char)
    requires
        s.contains('.'),
    ensures
        whole_len(s.push(c)) == whole_len(s),
        whole_len(s) < s.len(),
        !s.take(whole_len(s) as int).contains('.'),
    decreases s.len(),
{
    let i = choose|i: int| 0 <= i < s.len() && s[i] == '.';
    let n = whole_len(s) as int;
    if s[0] != '.' {
        assert(s.drop_first()[i - 1] == '.');
        assert(s.push(c).drop_first() =~= s.drop_first().push(c));
        whole_len_with(s.drop_first(), c);
        assert forall|k: int| 0 <= k < n implies s[k] != '.' by {
            if k > 0 {
                let front = s.drop_first().take(n - 1);
                assert(front[k - 1] == s[k]);
                assert(front.contains(front[k - 1]));
            }
        }
    }
}

/// A zero behind a point is taken off.
proof fn tidy_with(s: Seq<char>)
    requires
        s.contains('.'),
    ensures
        tidy(s.push('0')) == tidy(s),
{
    leading_zeros_with(s);
    let front = without_leading_zeros(s);
    let k = choose|k: int| 0 <= k < front.len() && front[k] == '.';
    assert(front.push('0')[k] == '.');
    assert(front.push('0').drop_last() =~= front);
}

/// One more zero behind the point changes nothing.
pub proof fn zeros_behind_the_point_say_nothing(s: Seq<char>)
    requires
        s.contains('.'),
        !s.contains('e'),
    ensures
        plain_digits(s.push('0')) == plain_digits(s),
{
    let more = s.push('0');
    assert forall|i: int| 0 <= i < more.len() implies more[i] != 'e' by {
        if i < s.len() {
            assert(s[i] != 'e');
        }
    }
    mantissa_is_all(s);
    mantissa_is_all(more);
    assert(s.take(s.len() as int) =~= s);
    assert(more.take(more.len() as int) =~= more);
    assert(s.skip(s.len() as int) =~= Seq::<char>::empty());
    assert(more.skip(more.len() as int) =~= Seq::<char>::empty());
    whole_len_with(s, '0');
    let n = whole_len(s) as int;
    let d = all_digits(s);
    assert(all_digits(more) =~= d.push('0'));
    reveal_strlit("0.");
    reveal_strlit(".0");
    if n == 0 {
        let text = pointed(d, n);
        assert(text[1] == '.');
        assert(pointed(d.push('0'), n) =~= text.push('0'));
        tidy_with(text);
    } else if n == d.len() {
        assert(d =~= s.take(n));
        assert(pointed(d, n) =~= d);
        assert(pointed(d.push('0'), n) =~= d + ".0"@);
        leading_zeros_before(d);
        let front = without_leading_zeros(d);
        let long = front + ".0"@;
        assert(long[front.len() as int] == '.');
        assert(long.drop_last().drop_last() =~= front);
        assert(long.drop_last().last() == '.');
        assert(without_trailing_zeros(long) == without_trailing_zeros(long.drop_last()));
    } else {
        let text = pointed(d, n);
        assert(text[n] == '.');
        assert(pointed(d.push('0'), n) =~= text.push('0'));
        tidy_with(text);
    }
}

/// The point comes to stand where it is asked for: the digits stay in their order, with zeros in front
/// of them or behind them where the point lies outside them.
pub proof fn point_stands_where_it_is_put(digits: Seq<char>, point: int)
    requires
        !digits.contains('.'),
    ensures
        0 < point < digits.len() ==> {
            &&& whole_len(pointed(digits, point)) == point
            &&& all_digits(pointed(digits, point)) == digits
        },
        point >= digits.len() && point > 0 ==> {
            &&& pointed(digits, point).len() == point
            &&& pointed(digits, point).take(digits.len() as int) == digits
            &&& forall|i: int|
                digits.len() <= i < point ==> #[trigger] pointed(digits, point)[i] == '0'
        },
        point <= 0 ==> {
            let text = pointed(digits, point);
            &&& text.len() == 2 - point + digits.len()
            &&& text[0] == '0' && text[1] == '.'
            &&& text.skip(2 - point) == digits
            &&& forall|i: int| 2 <= i < 2 - point ==> #[trigger] text[i] == '0'
        },
{
    let text = pointed(digits, point);
    reveal_strlit("0.");
    if 0 < point < digits.len() {
        assert forall|i: int| 0 <= i < point implies #[trigger] text[i] != '.' by {
            assert(digits[i] != '.');
        }
        whole_part_ends_at_the_point(text, point);
        assert(all_digits(text) =~= digits);
    } else if point > 0 {
        assert(text.take(digits.len() as int) =~= digits);
    } else {
        assert(text.skip(2 - point) =~= digits);
    }
}

/// The whole part of a text ends at the first point.
proof fn whole_part_ends_at_the_point(s: Seq<char>, n: int)
    requires
        0 <= n < s.len(),
        s[n] == '.',
        forall|i: int| 0 <= i < n ==> #[trigger] s[i] != '.',
    ensures
        whole_len(s) == n,
    decreases n,
{
    if n > 0 {
        assert(s[0] != '.');
        let rest = s.drop_first();
        assert forall|i: int| 0 <= i < n - 1 implies #[trigger] rest[i] != '.' by {
            assert(s[i + 1] != '.');
        }
        whole_part_ends_at_the_point(rest, n - 1);
    }
}

/// An exponent is the number behind its letter, less than zero behind a minus sign; without one it is
/// zero.
pub proof fn exponents_are_read(c: char, n: nat)
    requires
        n <= FARTHEST,
    ensures
        exponent(Seq::empty()) == Some(0int),
        exponent(seq![c] + decimal(n)) == Some(n as int),
        exponent(seq![c, '+'] + decimal(n)) == Some(n as int),
        exponent(seq![c, '-'] + decimal(n)) == Some(-n),
{
    numeral_stands_for_its_number(n, FARTHEST as nat);
    decimal_reads_back(n);
    assert(crate::reading::is_digit(decimal(n)[0]));
    assert((seq![c] + decimal(n)).skip(1) =~= decimal(n));
    assert((seq![c, '+'] + decimal(n)).skip(1) =~= seq!['+'] + decimal(n));
    assert((seq![c, '-'] + decimal(n)).skip(2) =~= decimal(n));
}

/// Where the digits up to `n` begin that say something.
fn drop_leading_zeros(chars: &Vec<char>, n: usize) -> (res: usize)
    requires
        n <= chars@.len(),
    ensures
        res <= n,
        without_leading_zeros(chars@.take(n as int)) == chars@.subrange(res as int, n as int),
{
    let ghost whole = chars@.take(n as int);
    let mut from: usize = 0;
    assert(whole.skip(0) =~= whole);
    while from < n && n - from > 1 && chars[from] == '0' && '0' <= chars[from + 1] && chars[from
        + 1] <= '9'
        invariant
            from <= n <= chars@.len(),
            whole == chars@.take(n as int),
            without_leading_zeros(whole) == without_leading_zeros(whole.skip(from as int)),
        decreases n - from,
    {
        assert(whole.skip(from as int).drop_first() =~= whole.skip(from + 1));
        from += 1;
    }
    assert(whole.skip(from as int) =~= chars@.subrange(from as int, n as int));
    from
}

/// Where the digits from `from` to `n` end that say something, where there is a point among
/// them.
fn drop_trailing_zeros(chars: &Vec<char>, from: usize, n: usize) -> (res: usize)
    requires
        from <= n <= chars@.len(),
    ensures
        from <= res <= n,
        without_trailing_zeros(chars@.subrange(from as int, n as int)) == chars@.subrange(
            from as int,
            res as int,
        ),
{
    let ghost front = chars@.subrange(from as int, n as int);
    let mut to: usize = n;
    while to > from && chars[to - 1] == '0'
        invariant
            from <= to <= n <= chars@.len(),
            without_trailing_zeros(front) == without_trailing_zeros(
                chars@.subrange(from as int, to as int),
            ),
        decreases to,
    {
        assert(chars@.subrange(from as int, to as int).drop_last() =~= chars@.subrange(
            from as int,
            to - 1,
        ));
        to -= 1;
    }
    if to > from && chars[to - 1] == '.' {
        assert(chars@.subrange(from as int, to as int).drop_last() =~= chars@.subrange(
            from as int,
            to - 1,
        ));
        to -= 1;
    }
    to
}

/// Whether there is a point from `from` to `n`.
fn has_point(chars: &Vec<char>, from: usize, n: usize) -> (res: bool)
    requires
        from <= n <= chars@.len(),
    ensures
        res == chars@.subrange(from as int, n as int).contains('.'),
{
    let ghost front = chars@.subrange(from as int, n as int);
    let mut i: usize = from;
    while i < n
        invariant
            from <= i <= n <= chars@.len(),
            front == chars@.subrange(from as int, n as int),
            forall|k: int| 0 <= k < i - from ==> #[trigger] front[k] != '.',
        decreases n - i,
    {
        assert(front[i - from] == chars@[i as int]);
        if chars[i] == '.' {
            return true;
        }
        i += 1;
    }
    false
}

/// Takes off the digits that say nothing.
fn tidied(text: &str) -> (res: String)
    ensures
        res@ == tidy(text@),
{
    let chars = chars_of(text);
    let n = chars.len();
    assert(chars@.take(n as int) =~= text@);
    let from = drop_leading_zeros(&chars, n);
    let to = if has_point(&chars, from, n) {
        drop_trailing_zeros(&chars, from, n)
    } else {
        n
    };
    slice_text(&chars, from, to)
}

/// `text` with `n` zeros behind it.
fn with_zeros(text: String, n: usize) -> (res: String)
    ensures
        res@ == text@ + zeros(n as nat),
{
    let mut out = text;
    let ghost front = out@;
    let mut i: usize = 0;
    assert(out@ =~= front + zeros(0));
    while i < n
        invariant
            i <= n,
            out@ == front + zeros(i as nat),
        decreases n - i,
    {
        out.push('0');
        i += 1;
        assert(out@ =~= front + zeros(i as nat));
    }
    out
}

/// `digits` with a point `x` places behind the first `whole` of them, or in front where
/// `back` says so.
fn point_text(digits: &str, whole: usize, back: bool, x: usize) -> (res: String)
    requires
        whole <= digits@.len(),
    ensures
        res@ == pointed(
            digits@,
            if back {
                whole - x
            } else {
                whole + x
            },
        ),
{
    let chars = chars_of(digits);
    let rest: usize = chars.len() - whole;
    if (back && x >= whole) || (whole == 0 && x == 0) {
        return with_zeros("0.".to_string(), x - whole).concat(digits);
    }
    if !back && x >= rest {
        return with_zeros(digits.to_string(), x - rest);
    }
    let point: usize = if back {
        whole - x
    } else {
        whole + x
    };
    if point >= chars.len() {
        assert(digits@ + zeros(0) =~= digits@);
        return digits.to_string();
    }
    let right = slice_text(&chars, point, chars.len());
    let mut left = slice_text(&chars, 0, point);
    left.push('.');
    assert(left@ + right@ =~= pointed(digits@, point as int));
    left.concat(right.as_str())
}

/// The number behind the `e` at `n`, and whether it is negative.
fn read_exponent(chars: &Vec<char>, n: usize) -> (res: (bool, Option<usize>))
    requires
        n <= chars@.len(),
    ensures
        ({
            let s = chars@.skip(n as int);
            &&& res.0 == (s.len() > 1 && s[1] == '-')
            &&& exponent(s) == match res.1 {
                Some(x) => Some(
                    if res.0 {
                        -x
                    } else {
                        x as int
                    },
                ),
                None => None,
            }
        }),
{
    let len = chars.len();
    let ghost s = chars@.skip(n as int);
    if n == len {
        return (false, Some(0));
    }
    let back = len - n > 1 && chars[n + 1] == '-';
    let from: usize = if back {
        n + 2
    } else {
        n + 1
    };
    let digits = slice_text(chars, from, len);
    assert(digits@ =~= s.skip(from - n));
    match parse_number(digits.as_str(), FARTHEST) {
        Some(x) => (back, Some(x as usize)),
        None => (back, None),
    }
}

/// How long a number is up to its exponent.
fn mantissa_end(chars: &Vec<char>) -> (res: usize)
    ensures
        res <= chars.len(),
        res == mantissa_len(chars@),
{
    let mut n: usize = 0;
    assert(chars@.skip(0) =~= chars@);
    while n < chars.len() && chars[n] != 'e'
        invariant
            n <= chars.len(),
            mantissa_len(chars@) == n + mantissa_len(chars@.skip(n as int)),
        decreases chars.len() - n,
    {
        assert(chars@.skip(n as int).drop_first() =~= chars@.skip(n + 1));
        n += 1;
    }
    n
}

/// How long the mantissa, which ends at `n`, is up to its point.
fn whole_end(chars: &Vec<char>, n: usize) -> (res: usize)
    requires
        n <= chars.len(),
    ensures
        res <= n,
        res == whole_len(chars@.take(n as int)),
{
    let ghost mantissa = chars@.take(n as int);
    let mut w: usize = 0;
    assert(mantissa.skip(0) =~= mantissa);
    while w < n && chars[w] != '.'
        invariant
            w <= n <= chars.len(),
            mantissa == chars@.take(n as int),
            whole_len(mantissa) == w + whole_len(mantissa.skip(w as int)),
        decreases n - w,
    {
        assert(mantissa.skip(w as int).drop_first() =~= mantissa.skip(w + 1));
        w += 1;
    }
    w
}

/// Writes a number without an exponent and without what says nothing.
pub fn plain_number(digits: &str) -> (res: String)
    ensures
        res@ == plain_digits(digits@),
{
    let chars = chars_of(digits);
    let n = mantissa_end(&chars);
    let w = whole_end(&chars, n);
    let ghost mantissa = digits@.take(n as int);
    let (back, x) = read_exponent(&chars, n);
    match x {
        Some(x) => {
            let whole = slice_text(&chars, 0, w);
            let text = if w < n {
                whole.concat(slice_text(&chars, w + 1, n).as_str())
            } else {
                whole
            };
            assert(text@ =~= all_digits(mantissa));
            tidied(point_text(text.as_str(), w, back, x).as_str())
        },
        None => {
            let text = slice_text(&chars, 0, n);
            assert(text@ =~= mantissa);
            if str_eq(tidied(text.as_str()).as_str(), "0") {
                "0".to_string()
            } else {
                digits.to_string()
            }
        },
    }
}

/// The digits of a factor, without an exponent and without what says nothing.
pub open spec fn factor(e: Expression) -> Result<Seq<char>, Seq<char>> {
    match e.kind {
        Form::Float(digits) => Ok(plain_digits(digits)),
        Form::Int(digits) => Ok(plain_digits(digits)),
        _ => Err("expected a float, got `"@ + e.source + "`"@),
    }
}

/// The digits of a factor.
fn factor_value(e: &Arg) -> (res: Result<String, EmitError>)
    ensures
        told(res) == factor(e@),
{
    match &e.kind {
        ArgKind::Float(digits) => Ok(plain_number(digits.as_str())),
        ArgKind::Int(digits) => Ok(plain_number(digits.as_str())),
        _ => error("expected a float, got `".to_string().concat(e.source.as_str()).concat("`")),
    }
}

/// The base and the factor after one more argument of `exponential`.
pub open spec fn after_exponential(s: (Option<u64>, Option<Seq<char>>), e: Expression) -> Result<
    (Option<u64>, Option<Seq<char>>),
    Seq<char>,
> {
    match e.kind {
        Form::Assign { left, right } => match bare_key(*left) {
            Ok(key) => if key == "base"@ {
                match whole_value(*right) {
                    Ok(n) => Ok((Some(n), s.1)),
                    Err(message) => Err(message),
                }
            } else if key == "mult"@ {
                match factor(*right) {
                    Ok(digits) => Ok((s.0, Some(digits))),
                    Err(message) => Err(message),
                }
            } else {
                Err("unknown `exponential` arg `"@ + key + "` (expected `base`/`mult`)"@)
            },
            Err(message) => Err(message),
        },
        _ => Err("`exponential` arguments are `base = ms, mult = f`"@),
    }
}

/// The base and the factor of `exponential`.
pub struct Growth {
    /// The base.
    pub base_ms: Option<u64>,
    /// The digits of the factor.
    pub mult: Option<String>,
}

impl View for Growth {
    type V = (Option<u64>, Option<Seq<char>>);

    open spec fn view(&self) -> (Option<u64>, Option<Seq<char>>) {
        (self.base_ms, self.mult.deep_view())
    }
}

impl Settings for Growth {
    open spec fn after(s: (Option<u64>, Option<Seq<char>>), e: Expression) -> Result<
        (Option<u64>, Option<Seq<char>>),
        Seq<char>,
    > {
        after_exponential(s, e)
    }

    fn apply(self, arg: &Arg) -> (res: Result<Growth, EmitError>) {
        match &arg.kind {
            ArgKind::Assign { left, right } => {
                let key = match assign_ident(left) {
                    Ok(key) => key,
                    Err(e) => return Err(e),
                };
                if str_eq(key.as_str(), "base") {
                    match uint_value(right) {
                        Ok(n) => Ok(Growth { base_ms: Some(n), mult: self.mult }),
                        Err(e) => Err(e),
                    }
                } else if str_eq(key.as_str(), "mult") {
                    match factor_value(right) {
                        Ok(digits) => Ok(Growth { base_ms: self.base_ms, mult: Some(digits) }),
                        Err(e) => Err(e),
                    }
                } else {
                    error(
                        "unknown `exponential` arg `".to_string().concat(key.as_str()).concat(
                            "` (expected `base`/`mult`)",
                        ),
                    )
                }
            },
            _ => error("`exponential` arguments are `base = ms, mult = f`".to_string()),
        }
    }
}

/// The delay that the arguments of `exponential` stand for. The factor is two unless it is
/// given.
pub open spec fn exponential(items: Seq<Expression>) -> Result<Delay, Seq<char>> {
    match settled::<Growth>((None, None), items) {
        Ok((Some(base_ms), mult)) => Ok(
            Delay::Exponential {
                base_ms,
                mult: match mult {
                    Some(digits) => digits,
                    None => "2"@,
                },
            },
        ),
        Ok((None, _)) => Err("`exponential` needs `base = <ms>`"@),
        Err(message) => Err(message),
    }
}

/// The delay that the arguments of `exponential` stand for.
fn parse_exponential(args: &Vec<Arg>) -> (res: Result<Backoff, EmitError>)
    ensures
        told(res) == exponential(args.deep_view()),
{
    let growth = match settle(Growth { base_ms: None, mult: None }, args.as_slice()) {
        Ok(growth) => growth,
        Err(e) => return Err(e),
    };
    match growth.base_ms {
        Some(base_ms) => {
            let mult = match growth.mult {
                Some(digits) => digits,
                None => "2".to_string(),
            };
            Ok(Backoff::Exponential { base_ms, mult })
        },
        None => error("`exponential` needs `base = <ms>`".to_string()),
    }
}

/// The delay that an expression stands for.
pub open spec fn delay(e: Expression) -> Result<Delay, Seq<char>> {
    let wanted = "backoff must be `fixed(ms)` / `exponential(base = ms, mult = f)` / `none`"@;
    match e.kind {
        Form::Path { ident: Some(word), .. } if word == "none"@ => Ok(Delay::Immediate),
        Form::Call { func, args } => match bare_key(*func) {
            Ok(name) => if name == "fixed"@ {
                if args.len() > 0 && whole(args[0]) is Some {
                    Ok(Delay::Fixed(whole(args[0])->0))
                } else {
                    Err("`fixed(ms)` needs one integer-millisecond argument"@)
                }
            } else if name == "exponential"@ {
                exponential(args)
            } else {
                Err(
                    "unknown backoff `"@ + name + "` (expected `fixed`/`exponential`/`none`)"@,
                )
            },
            Err(_) => Err(wanted),
        },
        _ => Err(wanted + ", got `"@ + e.source + "`"@),
    }
}

/// The delay that an expression stands for.
fn parse_backoff(e: &Arg) -> (res: Result<Backoff, EmitError>)
    ensures
        told(res) == delay(e@),
{
    let wanted = "backoff must be `fixed(ms)` / `exponential(base = ms, mult = f)` / `none`";
    match &e.kind {
        ArgKind::Path { ident: Some(word), .. } if str_eq(word.as_str(), "none") => Ok(
            Backoff::Immediate,
        ),
        ArgKind::Call { func, args } => {
            assert(args.deep_view() =~= e@.kind->args);
            let name = match assign_ident(func) {
                Ok(name) => name,
                Err(_) => return error(wanted.to_string()),
            };
            if str_eq(name.as_str(), "fixed") {
                if args.len() > 0 {
                    assert(args.deep_view()[0] == args@[0]@);
                    if let Some(ms) = uint_lit(&args[0]) {
                        return Ok(Backoff::Fixed(ms));
                    }
                }
                error("`fixed(ms)` needs one integer-millisecond argument".to_string())
            } else if str_eq(name.as_str(), "exponential") {
                parse_exponential(args)
            } else {
                error(
                    "unknown backoff `".to_string().concat(name.as_str()).concat(
                        "` (expected `fixed`/`exponential`/`none`)",
                    ),
                )
            }
        },
        _ => error(
            wanted.to_string().concat(", got `").concat(e.source.as_str()).concat("`"),
        ),
    }
}

impl ItemSettings for RetryableArgs {
    open spec fn after(s: (u32, Delay), item: ItemForm) -> Result<(u32, Delay), Seq<char>> {
        match item {
            ItemForm::Assign { key, value } => if key == "max"@ || key == "max_attempts"@ {
                match expr_of(value, key) {
                    Ok(e) => match whole_value(e) {
                        Ok(n) => Ok(((n % 0x1_0000_0000) as u32, s.1)),
                        Err(message) => Err(message),
                    },
                    Err(message) => Err(message),
                }
            } else if key == "backoff"@ {
                match expr_of(value, key) {
                    Ok(e) => match delay(e) {
                        Ok(d) => Ok((s.0, d)),
                        Err(message) => Err(message),
                    },
                    Err(message) => Err(message),
                }
            } else {
                Err(unknown_argument(key, "retryable"@, "max/backoff"@))
            },
            ItemForm::Call { name } => if name == "backoff"@ {
                Err(
                    "#[retryable] `backoff` is `backoff = fixed(ms)` / `backoff = exponential(base = ms, mult = f)` / `backoff = none`"@,
                )
            } else {
                Err(unknown_argument(name, "retryable"@, "max/backoff"@))
            },
            ItemForm::Positional(e) => Err(stray_argument(e, "retryable"@)),
        }
    }

    fn apply(self, item: &AttrItem) -> (res: Result<RetryableArgs, EmitError>) {
        match item {
            AttrItem::Assign { key, value } => if str_eq(key.as_str(), "max") || str_eq(
                key.as_str(),
                "max_attempts",
            ) {
                let e = match value.expect_expr(key.as_str()) {
                    Ok(e) => e,
                    Err(e) => return Err(e),
                };
                match uint_value(e) {
                    Ok(n) => Ok(
                        RetryableArgs { max: (n % 0x1_0000_0000) as u32, backoff: self.backoff },
                    ),
                    Err(e) => Err(e),
                }
            } else if str_eq(key.as_str(), "backoff") {
                let e = match value.expect_expr(key.as_str()) {
                    Ok(e) => e,
                    Err(e) => return Err(e),
                };
                match parse_backoff(e) {
                    Ok(backoff) => Ok(RetryableArgs { max: self.max, backoff }),
                    Err(e) => Err(e),
                }
            } else {
                unknown(key.as_str(), "retryable", "max/backoff")
            },
            AttrItem::Call { name } => if str_eq(name.as_str(), "backoff") {
                error(
                    "#[retryable] `backoff` is `backoff = fixed(ms)` / `backoff = exponential(base = ms, mult = f)` / `backoff = none`".to_string(),
                )
            } else {
                unknown(name.as_str(), "retryable", "max/backoff")
            },
            AttrItem::Positional(e) => positional(e, "retryable"),
        }
    }
}

/// How often a method is run again, and how long to wait in between, as items say it.
pub open spec fn retryable_settings(items: Seq<ItemForm>) -> Result<(u32, Delay), Seq<char>> {
    settled_items::<RetryableArgs>((3u32, Delay::Immediate), items)
}

/// How often a method is run again, and how long to wait in between, as items say it.
pub fn retryable_of(items: &[AttrItem]) -> (res: Result<RetryableArgs, EmitError>)
    ensures
        told(res) == retryable_settings(items.deep_view()),
{
    settle_items(RetryableArgs::default(), items)
}

/// How often a method is run again, and how long to wait in between, as the source of the
/// arguments says it.
pub open spec fn retryable_arguments(attr: Seq<char>) -> Result<(u32, Delay), Seq<char>> {
    match items_in(attr, "retryable"@) {
        Ok(items) => retryable_settings(items),
        Err(message) => Err(message),
    }
}

/// Reads the arguments of `#[retryable]`. The factor keeps the digits that an `f64` would round
/// off.
pub fn parse_retryable(attr: &str) -> (res: Result<RetryableArgs, EmitError>)
    ensures
        told(res) == retryable_arguments(attr@),
        attr@.len() == 0 ==> told(res) == Ok::<(u32, Delay), Seq<char>>((3u32, Delay::Immediate)),
{
    match attr_items(attr, "retryable") {
        Ok(items) => retryable_of(items.as_slice()),
        Err(e) => Err(e),
    }
}

/// A delay is none, a fixed number of milliseconds, or grows from its base by its factor, which is
/// two where none is given.
pub proof fn delays_are_read(
    e: Expression,
    args: Seq<Expression>,
    n: nat,
    base: Expression,
    mult: Expression,
    b: Expression,
    m: Expression,
    digits: Seq<char>,
)
    requires
        n <= u64::MAX,
        b.kind == Form::Int(decimal(n)),
        m.kind == Form::Float(digits),
        assigns(base, "base"@, b),
        assigns(mult, "mult"@, m),
    ensures
        e.kind is Path && e.kind->ident == Some("none"@) ==> delay(e) == Ok::<Delay, Seq<char>>(
            Delay::Immediate,
        ),
        calls(e, "fixed"@, args) && args.len() > 0 && args[0] == b ==> delay(e) == Ok::<
            Delay,
            Seq<char>,
        >(Delay::Fixed(n as u64)),
        calls(e, "exponential"@, seq![base]) ==> delay(e) == Ok::<Delay, Seq<char>>(
            Delay::Exponential { base_ms: n as u64, mult: "2"@ },
        ),
        calls(e, "exponential"@, seq![base, mult]) ==> delay(e) == Ok::<Delay, Seq<char>>(
            Delay::Exponential { base_ms: n as u64, mult: plain_digits(digits) },
        ),
        calls(e, "exponential"@, seq![mult, base]) ==> delay(e) == Ok::<Delay, Seq<char>>(
            Delay::Exponential { base_ms: n as u64, mult: plain_digits(digits) },
        ),
        calls(e, "exponential"@, seq![mult]) ==> delay(e) is Err,
{
    reveal_strlit("fixed");
    reveal_strlit("exponential");
    assert("fixed"@.len() != "exponential"@.len());
    reveal_strlit("base");
    reveal_strlit("mult");
    assert("base"@[0] != "mult"@[0]);
    numeral_stands_for_its_number(n, u64::MAX as nat);
    reveal_with_fuel(settled, 3);
    assert(seq![base].drop_last() =~= Seq::<Expression>::empty());
    assert(seq![mult].drop_last() =~= Seq::<Expression>::empty());
    assert(seq![base, mult].drop_last() =~= seq![base]);
    assert(seq![mult, base].drop_last() =~= seq![mult]);
}

/// How often a method is run and how long to wait in between are set apart from one another; by
/// default it is run three times, without waiting.
pub proof fn retry_items_set_their_own(s: (u32, Delay), e: Expression, n: nat, key: Seq<char>)
    ensures
        e.kind == Form::Int(decimal(n)) && n <= u32::MAX && (key == "max"@ || key
            == "max_attempts"@) ==> <RetryableArgs as ItemSettings>::after(
            s,
            ItemForm::Assign { key, value: ValueForm::Expr(e) },
        ) == Ok::<(u32, Delay), Seq<char>>((n as u32, s.1)),
        delay(e) is Ok ==> <RetryableArgs as ItemSettings>::after(
            s,
            ItemForm::Assign { key: "backoff"@, value: ValueForm::Expr(e) },
        ) == Ok::<(u32, Delay), Seq<char>>((s.0, delay(e)->Ok_0)),
        key != "max"@ && key != "max_attempts"@ && key != "backoff"@
            ==> <RetryableArgs as ItemSettings>::after(
            s,
            ItemForm::Assign { key, value: ValueForm::Expr(e) },
        ) is Err,
        <RetryableArgs as ItemSettings>::after(s, ItemForm::Positional(e)) is Err,
        <RetryableArgs as ItemSettings>::after(s, ItemForm::Call { name: key }) is Err,
        retryable_settings(Seq::empty()) == Ok::<(u32, Delay), Seq<char>>((3u32, Delay::Immediate)),
{
    reveal_strlit("max");
    reveal_strlit("max_attempts");
    reveal_strlit("backoff");
    assert("max"@.len() != "max_attempts"@.len());
    assert("max"@.len() != "backoff"@.len());
    assert("max_attempts"@.len() != "backoff"@.len());
    numeral_stands_for_its_number(n, u64::MAX as nat);
}

/// What `#[concurrency_limit]` says.
#[derive(Clone, Debug, PartialEq, Eq)]
pub struct ConcurrencyLimitArgs {
    /// The type of the bean that lets calls in.
    pub gate: Option<String>,
}

impl View for ConcurrencyLimitArgs {
    type V = Option<Seq<char>>;

    /// The type of the bean that lets calls in.
    open spec fn view(&self) -> Option<Seq<char>> {
        self.gate.deep_view()
    }
}

impl Default for ConcurrencyLimitArgs {
    fn default() -> (res: ConcurrencyLimitArgs)
        ensures
            res@ is None,
    {
        ConcurrencyLimitArgs { gate: None }
    }
}

impl ItemSettings for ConcurrencyLimitArgs {
    open spec fn after(gate: Option<Seq<char>>, item: ItemForm) -> Result<
        Option<Seq<char>>,
        Seq<char>,
    > {
        match item {
            ItemForm::Positional(e) => if e.kind is Int {
                Ok(gate)
            } else {
                Err(stray_argument(e, "concurrency_limit"@))
            },
            ItemForm::Assign { key, value } => if key == "gate"@ {
                match type_of(value, "gate"@) {
                    Ok((ty, _)) => Ok(Some(ty)),
                    Err(message) => Err(message),
                }
            } else {
                Err(unknown_argument(key, "concurrency_limit"@, "gate"@))
            },
            ItemForm::Call { name } => Err(unknown_argument(name, "concurrency_limit"@, "gate"@)),
        }
    }

    fn apply(self, item: &AttrItem) -> (res: Result<ConcurrencyLimitArgs, EmitError>) {
        match item {
            AttrItem::Positional(e) => {
                if let ArgKind::Int(_) = &e.kind {
                    return Ok(self);
                }
                positional(e, "concurrency_limit")
            },
            AttrItem::Assign { key, value } => if str_eq(key.as_str(), "gate") {
                match type_value(value, "gate") {
                    Ok(ty) => Ok(ConcurrencyLimitArgs { gate: Some(ty.ty) }),
                    Err(e) => Err(e),
                }
            } else {
                unknown(key.as_str(), "concurrency_limit", "gate")
            },
            AttrItem::Call { name } => unknown(name.as_str(), "concurrency_limit", "gate"),
        }
    }
}

/// The message where no bean is named that lets calls in.
pub open spec fn limit_missing(key: Seq<char>) -> Seq<char> {
    "#[concurrency_limit] requires `"@ + key + " = <ConcurrencyGate bean type>` (the "@ + key
        + " bean is sized from `n` by its own `::new()`)"@
}

/// The bean that items name.
pub open spec fn limit_settings(items: Seq<ItemForm>) -> Result<Option<Seq<char>>, Seq<char>> {
    match settled_items::<ConcurrencyLimitArgs>(None, items) {
        Ok(None) => Err(limit_missing("gate"@)),
        other => other,
    }
}

/// The bean that items name.
pub fn limit_of(items: &[AttrItem]) -> (res: Result<ConcurrencyLimitArgs, EmitError>)
    ensures
        told(res) == limit_settings(items.deep_view()),
{
    match settle_items(ConcurrencyLimitArgs::default(), items) {
        Ok(args) => if args.gate.is_none() {
            let key = "gate";
            error(
                "#[concurrency_limit] requires `".to_string().concat(key).concat(
                    " = <ConcurrencyGate bean type>` (the ",
                ).concat(key).concat(" bean is sized from `n` by its own `::new()`)"),
            )
        } else {
            Ok(args)
        },
        Err(e) => Err(e),
    }
}

/// The bean that the source of the arguments names.
pub open spec fn limit_arguments(attr: Seq<char>) -> Result<Option<Seq<char>>, Seq<char>> {
    match items_in(attr, "concurrency_limit"@) {
        Ok(items) => limit_settings(items),
        Err(message) => Err(message),
    }
}

/// Reads the arguments of `#[concurrency_limit]`.
pub fn parse_concurrency_limit(attr: &str) -> (res: Result<ConcurrencyLimitArgs, EmitError>)
    ensures
        told(res) == limit_arguments(attr@),
        attr@.len() == 0 ==> told(res) == Err::<Option<Seq<char>>, Seq<char>>(
            limit_missing("gate"@),
        ),
{
    match attr_items(attr, "concurrency_limit") {
        Ok(items) => limit_of(items.as_slice()),
        Err(e) => Err(e),
    }
}

/// A limit takes the type that was given last as its `gate`; the number of the limit leaves it.
/// There has to be one.
pub proof fn limit_takes_its_gate(
    gate: Option<Seq<char>>,
    ty: Seq<char>,
    object: bool,
    key: Seq<char>,
    value: ValueForm,
    e: Expression,
    items: Seq<ItemForm>,
)
    ensures
        <ConcurrencyLimitArgs as ItemSettings>::after(
            gate,
            ItemForm::Assign { key: "gate"@, value: ValueForm::Type(ty, object) },
        ) == Ok::<Option<Seq<char>>, Seq<char>>(Some(ty)),
        key != "gate"@ ==> <ConcurrencyLimitArgs as ItemSettings>::after(
            gate,
            ItemForm::Assign { key, value },
        ) is Err,
        e.kind is Int ==> <ConcurrencyLimitArgs as ItemSettings>::after(
            gate,
            ItemForm::Positional(e),
        ) == Ok::<Option<Seq<char>>, Seq<char>>(gate),
        !(e.kind is Int) ==> <ConcurrencyLimitArgs as ItemSettings>::after(
            gate,
            ItemForm::Positional(e),
        ) is Err,
        settled_items::<ConcurrencyLimitArgs>(None, items) matches Ok(given) ==> (if given is Some {
            limit_settings(items) == Ok::<Option<Seq<char>>, Seq<char>>(given)
        } else {
            limit_settings(items) is Err
        }),
{
}

/// What is known of a method.
#[derive(Clone, Debug, PartialEq, Eq)]
pub struct MethodSig {
    /// The path of the method, such as `Bean::method`.
    pub method_path: String,
    /// The type that it returns.
    pub ret_type: String,
    /// The type of its first argument, where it has one.
    pub first_arg_type: Option<String>,
}

/// What a [`MethodSig`] stands for.
pub ghost struct Sig {
    pub path: Seq<char>,
    pub ret: Seq<char>,
    pub arg: Option<Seq<char>>,
}

impl View for MethodSig {
    type V = Sig;

    open spec fn view(&self) -> Sig {
        Sig {
            path: self.method_path@,
            ret: self.ret_type@,
            arg: self.first_arg_type.deep_view(),
        }
    }
}

/// The type in the `Ok` of a result, and any other type as it is.
pub open spec fn ok_type(ty: Seq<char>, form: Result<TypeForm, Seq<char>>) -> Seq<char> {
    match form {
        Ok(TypeForm::Path { last, args }) if last == "Result"@ && args.len() > 0
            && args[0] is Some => args[0]->0,
        _ => ty,
    }
}

/// The type in the `Ok` of a result with the given form.
pub fn result_ok_ty_of(ty: &str, shape: &Result<TypeShape, String>) -> (res: String)
    ensures
        res@ == ok_type(ty@, outcome(*shape)),
{
    if let Ok(TypeShape::Path { last, args }) = shape {
        if str_eq(last.as_str(), "Result") && args.len() > 0 {
            assert(args.deep_view()[0] == args@[0].deep_view());
            if let Some(ok) = &args[0] {
                return ok.clone();
            }
        }
    }
    ty.to_string()
}

/// The type in the `Ok` of a result.
pub fn result_ok_ty(ty: &str) -> (res: String)
    ensures
        res@ == ok_type(ty@, type_in(ty@)),
{
    result_ok_ty_of(ty, &type_shape(ty))
}

/// The row that ties an interceptor to a bean.
pub const ADVISOR: &'static str = "#[allow(non_upper_case_globals)]
static #types: [::core::any::TypeId; 1] = [#type_id];
#[allow(non_upper_case_globals)]
static #pointcut: #pointcut_ty = #pointcut_ty::new(&#types);
#meta#[allow(non_upper_case_globals)]
#[::leaf_core::linkme::distributed_slice(::leaf_core::ADVISOR_PAIRINGS)]
#[linkme(crate = ::leaf_core::linkme)]
static #row: ::leaf_core::AdvisorPairingRow = ::leaf_core::AdvisorPairingRow {
    contract: #contract,
    order: #order,
    role: ::leaf_core::Role::Infrastructure,
    pointcut: &#pointcut,
    make_interceptor: #make,
};
";

/// The contract id of the advisor of a family for a method, unlike that of any other method.
pub open spec fn advisor_contract(family: Seq<char>, bean: Seq<char>, method: Seq<char>) -> Seq<char> {
    "::leaf_core::ContractId::of(::core::concat!("@ + literal_source(family)
        + ", \"@\", ::core::module_path!(), \"::\", "@ + literal_source(bean) + ", \"::\", "@
        + literal_source(method) + "))"@
}

/// The text that the contract id of an advisor is made of in the module `module`: what the
/// `concat!` in its source puts together there.
pub open spec fn advisor_identity(
    family: Seq<char>,
    module: Seq<char>,
    bean: Seq<char>,
    method: Seq<char>,
) -> Seq<char> {
    family + "@"@ + module + "::"@ + bean + "::"@ + method
}

/// Where what follows the last `::` holds no colon, both parts can be told.
proof fn colons_part(a: Seq<char>, b: Seq<char>, c: Seq<char>, d: Seq<char>)
    requires
        !b.contains(':'),
        !d.contains(':'),
        a + "::"@ + b == c + "::"@ + d,
    ensures
        a == c,
        b == d,
{
    reveal_strlit("::");
    let left = a + "::"@ + b;
    let right = c + "::"@ + d;
    assert("::"@.len() == 2 && "::"@[0] == ':' && "::"@[1] == ':');
    assert(left.len() == a.len() + 2 + b.len());
    assert(right.len() == c.len() + 2 + d.len());
    if b.len() > d.len() {
        assert(right[(c.len() + 1) as int] == ':');
        assert(left[(c.len() + 1) as int] == b[c.len() - a.len() - 1]);
        assert(b.contains(':'));
    } else if d.len() > b.len() {
        assert(left[(a.len() + 1) as int] == ':');
        assert(right[(a.len() + 1) as int] == d[a.len() - c.len() - 1]);
        assert(d.contains(':'));
    }
    assert(a =~= left.take(a.len() as int));
    assert(c =~= right.take(c.len() as int));
    assert(b =~= left.skip((a.len() + 2) as int));
    assert(d =~= right.skip((c.len() + 2) as int));
}

/// The advisors of different families, beans or methods have different contract ids, even
/// across modules. Names of beans and methods hold no colon, and those of families no `@`.
pub proof fn advisors_differ(
    family: Seq<char>,
    module: Seq<char>,
    bean: Seq<char>,
    method: Seq<char>,
    other_family: Seq<char>,
    other_module: Seq<char>,
    other_bean: Seq<char>,
    other_method: Seq<char>,
)
    requires
        !family.contains('@'),
        !other_family.contains('@'),
        !bean.contains(':'),
        !other_bean.contains(':'),
        !method.contains(':'),
        !other_method.contains(':'),
        advisor_identity(family, module, bean, method) == advisor_identity(
            other_family,
            other_module,
            other_bean,
            other_method,
        ),
    ensures
        family == other_family,
        module == other_module,
        bean == other_bean,
        method == other_method,
{
    let front = family + "@"@ + module;
    let other_front = other_family + "@"@ + other_module;
    colons_part(front + "::"@ + bean, method, other_front + "::"@ + other_bean, other_method);
    colons_part(front, bean, other_front, other_bean);
    reveal_strlit("@");
    if family.len() < other_family.len() {
        assert(front[family.len() as int] == '@');
        assert(other_front[family.len() as int] == other_family[family.len() as int]);
    } else if other_family.len() < family.len() {
        assert(other_front[other_family.len() as int] == '@');
        assert(front[other_family.len() as int] == family[other_family.len() as int]);
    }
    assert(family =~= front.take(family.len() as int));
    assert(other_family =~= other_front.take(other_family.len() as int));
    assert(module =~= front.skip((family.len() + 1) as int));
    assert(other_module =~= other_front.skip((other_family.len() + 1) as int));
}

/// Prints the contract id of the advisor of a family for a method.
fn unique_contract(family: &str, bean: &str, method: &str) -> (res: String)
    ensures
        res@ == advisor_contract(family@, bean@, method@),
{
    let family = string_literal(family);
    let bean = string_literal(bean);
    let method = string_literal(method);
    "::leaf_core::ContractId::of(::core::concat!(".to_string().concat(family.as_str()).concat(
        ", \"@\", ::core::module_path!(), \"::\", ",
    ).concat(bean.as_str()).concat(", \"::\", ").concat(method.as_str()).concat("))")
}

/// What the rows of one family of advisors have in common.
pub struct Family {
    /// The part of the names of its items.
    pub tag: &'static str,
    /// The path that its contracts begin with.
    pub base: &'static str,
    /// The type of its pointcuts.
    pub pointcut: &'static str,
    /// Its place in the order.
    pub order: &'static str,
}

/// The name of an item of a family for a method.
pub open spec fn item_name(tag: Seq<char>, part: Seq<char>, bean: Seq<char>, path: Seq<char>) -> Seq<char> {
    "__LEAF_"@ + tag + part + mangled(bean + "_"@ + last_segment(path))
}

/// The name of an item of a family for a method.
fn item_ident(tag: &str, part: &str, bean: &str, sig: &MethodSig) -> (res: String)
    ensures
        res@ == item_name(tag@, part@, bean@, sig@.path),
{
    let method = last_segment_text(sig.method_path.as_str());
    let base = mangle(bean.to_string().concat("_").concat(method).as_str());
    "__LEAF_".to_string().concat(tag).concat(part).concat(base.as_str())
}

/// The row of a family that ties an interceptor to a bean for a method.
pub open spec fn advisor_source(
    family: Family,
    meta: Seq<char>,
    make: Seq<char>,
    bean: Seq<char>,
    self_ty: Seq<char>,
    path: Seq<char>,
) -> Seq<char> {
    filled(
        ADVISOR@,
        no_slots().push(("types"@, item_name(family.tag@, "_TYPES_"@, bean, path))).push(
            ("type_id"@, type_id_source(self_ty)),
        ).push(("pointcut"@, item_name(family.tag@, "_POINTCUT_"@, bean, path))).push(
            ("pointcut_ty"@, family.pointcut@),
        ).push(("meta"@, meta)).push(("row"@, item_name(family.tag@, "_ADVISOR_"@, bean, path))).push(
            ("contract"@, advisor_contract(family.base@, bean, last_segment(path))),
        ).push(("order"@, family.order@)).push(("make"@, make)),
    )
}

/// Prints the row of a family that ties an interceptor to a bean for a method.
fn emit_advisor(
    family: &Family,
    meta: &str,
    make: &str,
    bean: &str,
    self_ty: &str,
    sig: &MethodSig,
) -> (res: String)
    ensures
        res@ == advisor_source(*family, meta@, make@, bean@, self_ty@, sig@.path),
{
    let method = last_segment_text(sig.method_path.as_str());
    Slots::new().with("types", item_ident(family.tag, "_TYPES_", bean, sig).as_str()).with(
        "type_id",
        type_id_text(self_ty).as_str(),
    ).with("pointcut", item_ident(family.tag, "_POINTCUT_", bean, sig).as_str()).with(
        "pointcut_ty",
        family.pointcut,
    ).with("meta", meta).with("row", item_ident(family.tag, "_ADVISOR_", bean, sig).as_str()).with(
        "contract",
        unique_contract(family.base, bean, method).as_str(),
    ).with("order", family.order).with("make", make).fill(ADVISOR)
}

/// The result of a method is what a `Result` holds where it succeeds, and otherwise its type; an item
/// of an advisor is called after its family, its part, the bean and the method.
pub proof fn result_is_looked_into(
    ty: Seq<char>,
    inner: Seq<char>,
    rest: Seq<Option<Seq<char>>>,
    last: Seq<char>,
    tag: Seq<char>,
    part: Seq<char>,
    bean: Seq<char>,
    path: Seq<char>,
    method: Seq<char>,
)
    ensures
        ok_type(ty, Ok(TypeForm::Path { last: "Result"@, args: seq![Some(inner)] + rest })) == inner,
        last != "Result"@ ==> ok_type(ty, Ok(TypeForm::Path { last, args: rest })) == ty,
        ok_type(ty, Err(last)) == ty,
        item_name(tag, part, bean, path) == "__LEAF_"@ + tag + part + mangled(
            bean + "_"@ + last_segment(path),
        ),
        within(
            advisor_contract(tag, bean, method),
            "::leaf_core::ContractId::of(::core::concat!("@ + literal_source(tag)
                + ", \"@\", ::core::module_path!(), \"::\", "@,
            "))"@,
        ) == Some(literal_source(bean) + ", \"::\", "@ + literal_source(method)),
{
    let open = "::leaf_core::ContractId::of(::core::concat!("@ + literal_source(tag)
        + ", \"@\", ::core::module_path!(), \"::\", "@;
    let inside = literal_source(bean) + ", \"::\", "@ + literal_source(method);
    within_brackets(open, inside, "))"@);
    assert(advisor_contract(tag, bean, method) =~= open + inside + "))"@);
}

/// Pieces of the template, where they stand in it.
#[verifier::spinoff_prover]
#[verifier::rlimit(60)]
proof fn advisor_pieces()
    ensures
        ADVISOR@.len() == 557,
        ADVISOR@.subrange(32, 86) == "\nstatic "@ + seq!['#'] + "types"@ + (": [::core::any::TypeId; 1] = ["@ + seq!['#'] + "type_id"@ + "];"@),
        !is_name_char(ADVISOR@[32]),
        !is_name_char(ADVISOR@[86]),
        ADVISOR@.subrange(119, 180) == "\nstatic "@ + seq!['#'] + "pointcut"@ + (": "@ + seq!['#'] + "pointcut_ty"@ + (" = "@ + seq!['#'] + "pointcut_ty"@ + ("::new(&"@ + seq!['#'] + "types"@ + ");"@))),
        !is_name_char(ADVISOR@[119]),
        !is_name_char(ADVISOR@[180]),
        ADVISOR@.subrange(220, 291) == "[::leaf_core::linkme::distributed_slice(::leaf_core::ADVISOR_PAIRINGS)]"@,
        !is_name_char(ADVISOR@[220]),
        !is_name_char(ADVISOR@[291]),
        ADVISOR@.subrange(330, 374) == "\nstatic "@ + seq!['#'] + "row"@ + ": ::leaf_core::AdvisorPairingRow"@,
        !is_name_char(ADVISOR@[330]),
        !is_name_char(ADVISOR@[374]),
        ADVISOR@.subrange(409, 498) == "\n    contract: "@ + seq!['#'] + "contract"@ + (",\n    order: "@ + seq!['#'] + "order"@ + ",\n    role: ::leaf_core::Role::Infrastructure,"@),
        !is_name_char(ADVISOR@[409]),
        !is_name_char(ADVISOR@[498]),
        ADVISOR@.subrange(498, 553) == "\n    pointcut: &"@ + seq!['#'] + "pointcut"@ + (",\n    make_interceptor: "@ + seq!['#'] + "make"@ + ","@),
        !is_name_char(ADVISOR@[553]),
        ADVISOR@.subrange(180, 218) == "\n"@ + seq!['#'] + "meta"@ + (""@ + seq!['#'] + "[allow(non_upper_case_globals)]"@),
        !is_name_char(ADVISOR@[218]),
{
    reveal_strlit(
        "#[allow(non_upper_case_globals)]
static #types: [::core::any::TypeId; 1] = [#type_id];
#[allow(non_upper_case_globals)]
static #pointcut: #pointcut_ty = #pointcut_ty::new(&#types);
#meta#[allow(non_upper_case_globals)]
#[::leaf_core::linkme::distributed_slice(::leaf_core::ADVISOR_PAIRINGS)]
#[linkme(crate = ::leaf_core::linkme)]
static #row: ::leaf_core::AdvisorPairingRow = ::leaf_core::AdvisorPairingRow {
    contract: #contract,
    order: #order,
    role: ::leaf_core::Role::Infrastructure,
    pointcut: &#pointcut,
    make_interceptor: #make,
};
",
    );
    reveal_strlit("");
    reveal_strlit("\n");
    reveal_strlit("\n    contract: ");
    reveal_strlit("\n    pointcut: &");
    reveal_strlit("\nstatic ");
    reveal_strlit(" = ");
    reveal_strlit(");");
    reveal_strlit(",");
    reveal_strlit(",\n    make_interceptor: ");
    reveal_strlit(",\n    order: ");
    reveal_strlit(",\n    role: ::leaf_core::Role::Infrastructure,");
    reveal_strlit(": ");
    reveal_strlit(": ::leaf_core::AdvisorPairingRow");
    reveal_strlit(": [::core::any::TypeId; 1] = [");
    reveal_strlit("::new(&");
    reveal_strlit("[::leaf_core::linkme::distributed_slice(::leaf_core::ADVISOR_PAIRINGS)]");
    reveal_strlit("[allow(non_upper_case_globals)]");
    reveal_strlit("];");
    reveal_strlit("contract");
    reveal_strlit("make");
    reveal_strlit("meta");
    reveal_strlit("order");
    reveal_strlit("pointcut");
    reveal_strlit("pointcut_ty");
    reveal_strlit("row");
    reveal_strlit("type_id");
    reveal_strlit("types");
    assert(ADVISOR@.subrange(32, 86) =~= "\nstatic "@ + seq!['#'] + "types"@ + (": [::core::any::TypeId; 1] = ["@ + seq!['#'] + "type_id"@ + "];"@));
    assert(ADVISOR@.subrange(119, 180) =~= "\nstatic "@ + seq!['#'] + "pointcut"@ + (": "@ + seq!['#'] + "pointcut_ty"@ + (" = "@ + seq!['#'] + "pointcut_ty"@ + ("::new(&"@ + seq!['#'] + "types"@ + ");"@))));
    assert(ADVISOR@.subrange(220, 291) =~= "[::leaf_core::linkme::distributed_slice(::leaf_core::ADVISOR_PAIRINGS)]"@);
    assert(ADVISOR@.subrange(330, 374) =~= "\nstatic "@ + seq!['#'] + "row"@ + ": ::leaf_core::AdvisorPairingRow"@);
    assert(ADVISOR@.subrange(409, 498) =~= "\n    contract: "@ + seq!['#'] + "contract"@ + (",\n    order: "@ + seq!['#'] + "order"@ + ",\n    role: ::leaf_core::Role::Infrastructure,"@));
    assert(ADVISOR@.subrange(498, 553) =~= "\n    pointcut: &"@ + seq!['#'] + "pointcut"@ + (",\n    make_interceptor: "@ + seq!['#'] + "make"@ + ","@));
    assert(ADVISOR@.subrange(180, 218) =~= "\n"@ + seq!['#'] + "meta"@ + (""@ + seq!['#'] + "[allow(non_upper_case_globals)]"@));
}

/// What the slots of the template hold.
proof fn advisor_slots_are_found(family: Family, meta: Seq<char>, make: Seq<char>, bean: Seq<char>, self_ty: Seq<char>, path: Seq<char>)
    ensures
        ({
            let slots = no_slots().push(("types"@, item_name(family.tag@, "_TYPES_"@, bean, path))).push(
                ("type_id"@, type_id_source(self_ty)),
            ).push(("pointcut"@, item_name(family.tag@, "_POINTCUT_"@, bean, path))).push(
                ("pointcut_ty"@, family.pointcut@),
            ).push(("meta"@, meta)).push(("row"@, item_name(family.tag@, "_ADVISOR_"@, bean, path))).push(
                ("contract"@, advisor_contract(family.base@, bean, last_segment(path))),
            ).push(("order"@, family.order@)).push(("make"@, make));
            &&& slot_text(slots, "types"@) == Some(item_name(family.tag@, "_TYPES_"@, bean, path))
            &&& slot_text(slots, "type_id"@) == Some(type_id_source(self_ty))
            &&& slot_text(slots, "pointcut"@) == Some(item_name(family.tag@, "_POINTCUT_"@, bean, path))
            &&& slot_text(slots, "pointcut_ty"@) == Some(family.pointcut@)
            &&& slot_text(slots, "row"@) == Some(item_name(family.tag@, "_ADVISOR_"@, bean, path))
            &&& slot_text(slots, "contract"@) == Some(advisor_contract(family.base@, bean, last_segment(path)))
            &&& slot_text(slots, "order"@) == Some(family.order@)
            &&& slot_text(slots, "make"@) == Some(make)
            &&& slot_text(slots, "meta"@) == Some(meta)
            &&& slot_text(slots, Seq::empty()) is None
        }),
{
    reveal_strlit("types");
    reveal_strlit("type_id");
    reveal_strlit("pointcut");
    reveal_strlit("pointcut_ty");
    reveal_strlit("meta");
    reveal_strlit("row");
    reveal_strlit("contract");
    reveal_strlit("order");
    reveal_strlit("make");
    let slots = no_slots().push(("types"@, item_name(family.tag@, "_TYPES_"@, bean, path))).push(
                ("type_id"@, type_id_source(self_ty)),
            ).push(("pointcut"@, item_name(family.tag@, "_POINTCUT_"@, bean, path))).push(
                ("pointcut_ty"@, family.pointcut@),
            ).push(("meta"@, meta)).push(("row"@, item_name(family.tag@, "_ADVISOR_"@, bean, path))).push(
                ("contract"@, advisor_contract(family.base@, bean, last_segment(path))),
            ).push(("order"@, family.order@)).push(("make"@, make));
    unnamed_slot(slots);
    slot_at(slots, 0);
    assert("types"@.len() != "type_id"@.len());
    slot_at(slots, 1);
    assert("types"@.len() != "pointcut"@.len());
    assert("type_id"@.len() != "pointcut"@.len());
    slot_at(slots, 2);
    assert("types"@.len() != "pointcut_ty"@.len());
    assert("type_id"@.len() != "pointcut_ty"@.len());
    assert("pointcut"@.len() != "pointcut_ty"@.len());
    slot_at(slots, 3);
    assert("types"@.len() != "row"@.len());
    assert("type_id"@.len() != "row"@.len());
    assert("pointcut"@.len() != "row"@.len());
    assert("pointcut_ty"@.len() != "row"@.len());
    assert("meta"@.len() != "row"@.len());
    slot_at(slots, 5);
    assert("types"@.len() != "contract"@.len());
    assert("type_id"@.len() != "contract"@.len());
    assert("pointcut"@[0] != "contract"@[0]);
    assert("pointcut_ty"@.len() != "contract"@.len());
    assert("meta"@.len() != "contract"@.len());
    assert("row"@.len() != "contract"@.len());
    slot_at(slots, 6);
    assert("types"@[0] != "order"@[0]);
    assert("type_id"@.len() != "order"@.len());
    assert("pointcut"@.len() != "order"@.len());
    assert("pointcut_ty"@.len() != "order"@.len());
    assert("meta"@.len() != "order"@.len());
    assert("row"@.len() != "order"@.len());
    assert("contract"@.len() != "order"@.len());
    slot_at(slots, 7);
    assert("types"@.len() != "make"@.len());
    assert("type_id"@.len() != "make"@.len());
    assert("pointcut"@.len() != "make"@.len());
    assert("pointcut_ty"@.len() != "make"@.len());
    assert("meta"@[1] != "make"@[1]);
    assert("row"@.len() != "make"@.len());
    assert("contract"@.len() != "make"@.len());
    assert("order"@.len() != "make"@.len());
    slot_at(slots, 8);
    assert("types"@.len() != "meta"@.len());
    assert("type_id"@.len() != "meta"@.len());
    assert("pointcut"@.len() != "meta"@.len());
    assert("pointcut_ty"@.len() != "meta"@.len());
    slot_at(slots, 4);
}

/// A concern is tied to the type of its bean through the pointcut of its family, in the order of
/// the family, and its interceptor is made as it says.
#[verifier::spinoff_prover]
#[verifier::rlimit(60)]
pub proof fn concern_is_tied_to_its_bean(family: Family, meta: Seq<char>, make: Seq<char>, bean: Seq<char>, self_ty: Seq<char>, path: Seq<char>)
    ensures
        stands_in(
            "\nstatic "@ + item_name(family.tag@, "_TYPES_"@, bean, path) + ": [::core::any::TypeId; 1] = ["@ + type_id_source(self_ty) + "];"@,
            advisor_source(family, meta, make, bean, self_ty, path),
        ),
        stands_in(
            "\nstatic "@ + item_name(family.tag@, "_POINTCUT_"@, bean, path) + ": "@ + family.pointcut@ + " = "@ + family.pointcut@ + "::new(&"@ + item_name(family.tag@, "_TYPES_"@, bean, path) + ");"@,
            advisor_source(family, meta, make, bean, self_ty, path),
        ),
        stands_in(
            "[::leaf_core::linkme::distributed_slice(::leaf_core::ADVISOR_PAIRINGS)]"@,
            advisor_source(family, meta, make, bean, self_ty, path),
        ),
        stands_in(
            "\nstatic "@ + item_name(family.tag@, "_ADVISOR_"@, bean, path) + ": ::leaf_core::AdvisorPairingRow"@,
            advisor_source(family, meta, make, bean, self_ty, path),
        ),
        stands_in(
            "\n    contract: "@ + advisor_contract(family.base@, bean, last_segment(path)) + ",\n    order: "@ + family.order@ + ",\n    role: ::leaf_core::Role::Infrastructure,"@,
            advisor_source(family, meta, make, bean, self_ty, path),
        ),
        stands_in(
            "\n    pointcut: &"@ + item_name(family.tag@, "_POINTCUT_"@, bean, path) + ",\n    make_interceptor: "@ + make + ","@,
            advisor_source(family, meta, make, bean, self_ty, path),
        ),
        stands_in(
            "\n"@ + meta + "#[allow(non_upper_case_globals)]"@,
            advisor_source(family, meta, make, bean, self_ty, path),
        ),
{
    advisor_pieces();
    advisor_slots_are_found(family, meta, make, bean, self_ty, path);
    let t = ADVISOR@;
    let slots = no_slots().push(("types"@, item_name(family.tag@, "_TYPES_"@, bean, path))).push(
                ("type_id"@, type_id_source(self_ty)),
            ).push(("pointcut"@, item_name(family.tag@, "_POINTCUT_"@, bean, path))).push(
                ("pointcut_ty"@, family.pointcut@),
            ).push(("meta"@, meta)).push(("row"@, item_name(family.tag@, "_ADVISOR_"@, bean, path))).push(
                ("contract"@, advisor_contract(family.base@, bean, last_segment(path))),
            ).push(("order"@, family.order@)).push(("make"@, make));
    assert(stands_in("\nstatic "@ + item_name(family.tag@, "_TYPES_"@, bean, path) + ": [::core::any::TypeId; 1] = ["@ + type_id_source(self_ty) + "];"@,advisor_source(family, meta, make, bean, self_ty, path))) by {
        reveal_strlit("type_id");
        reveal_strlit("types");
        reveal_strlit("\nstatic ");
        reveal_strlit(": [::core::any::TypeId; 1] = [");
        reveal_strlit("];");
        let p2 = "];"@;
        let p1 = ": [::core::any::TypeId; 1] = ["@ + seq!['#'] + "type_id"@ + p2;
        let p0 = "\nstatic "@ + seq!['#'] + "types"@ + p1;
        filled_plain(p2, slots);
        filled_step(": [::core::any::TypeId; 1] = ["@, "type_id"@, p2, slots);
        filled_step("\nstatic "@, "types"@, p1, slots);
        filled_part(t, 32, 86, slots);
        assert(("\nstatic "@ + item_name(family.tag@, "_TYPES_"@, bean, path) + (": [::core::any::TypeId; 1] = ["@ + type_id_source(self_ty) + "];"@)) =~= "\nstatic "@ + item_name(family.tag@, "_TYPES_"@, bean, path) + ": [::core::any::TypeId; 1] = ["@ + type_id_source(self_ty) + "];"@);
    }
    assert(stands_in("\nstatic "@ + item_name(family.tag@, "_POINTCUT_"@, bean, path) + ": "@ + family.pointcut@ + " = "@ + family.pointcut@ + "::new(&"@ + item_name(family.tag@, "_TYPES_"@, bean, path) + ");"@,advisor_source(family, meta, make, bean, self_ty, path))) by {
        reveal_strlit("pointcut");
        reveal_strlit("pointcut_ty");
        reveal_strlit("types");
        reveal_strlit("\nstatic ");
        reveal_strlit(" = ");
        reveal_strlit(");");
        reveal_strlit(": ");
        reveal_strlit("::new(&");
        let p4 = ");"@;
        let p3 = "::new(&"@ + seq!['#'] + "types"@ + p4;
        let p2 = " = "@ + seq!['#'] + "pointcut_ty"@ + p3;
        let p1 = ": "@ + seq!['#'] + "pointcut_ty"@ + p2;
        let p0 = "\nstatic "@ + seq!['#'] + "pointcut"@ + p1;
        filled_plain(p4, slots);
        filled_step("::new(&"@, "types"@, p4, slots);
        filled_step(" = "@, "pointcut_ty"@, p3, slots);
        filled_step(": "@, "pointcut_ty"@, p2, slots);
        filled_step("\nstatic "@, "pointcut"@, p1, slots);
        filled_part(t, 119, 180, slots);
        assert(("\nstatic "@ + item_name(family.tag@, "_POINTCUT_"@, bean, path) + (": "@ + family.pointcut@ + (" = "@ + family.pointcut@ + ("::new(&"@ + item_name(family.tag@, "_TYPES_"@, bean, path) + ");"@)))) =~= "\nstatic "@ + item_name(family.tag@, "_POINTCUT_"@, bean, path) + ": "@ + family.pointcut@ + " = "@ + family.pointcut@ + "::new(&"@ + item_name(family.tag@, "_TYPES_"@, bean, path) + ");"@);
    }
    assert(stands_in("[::leaf_core::linkme::distributed_slice(::leaf_core::ADVISOR_PAIRINGS)]"@,advisor_source(family, meta, make, bean, self_ty, path))) by {
        reveal_strlit("[::leaf_core::linkme::distributed_slice(::leaf_core::ADVISOR_PAIRINGS)]");
        let p0 = "[::leaf_core::linkme::distributed_slice(::leaf_core::ADVISOR_PAIRINGS)]"@;
        filled_plain(p0, slots);
        filled_part(t, 220, 291, slots);
        assert("[::leaf_core::linkme::distributed_slice(::leaf_core::ADVISOR_PAIRINGS)]"@ =~= "[::leaf_core::linkme::distributed_slice(::leaf_core::ADVISOR_PAIRINGS)]"@);
    }
    assert(stands_in("\nstatic "@ + item_name(family.tag@, "_ADVISOR_"@, bean, path) + ": ::leaf_core::AdvisorPairingRow"@,advisor_source(family, meta, make, bean, self_ty, path))) by {
        reveal_strlit("row");
        reveal_strlit("\nstatic ");
        reveal_strlit(": ::leaf_core::AdvisorPairingRow");
        let p1 = ": ::leaf_core::AdvisorPairingRow"@;
        let p0 = "\nstatic "@ + seq!['#'] + "row"@ + p1;
        filled_plain(p1, slots);
        filled_step("\nstatic "@, "row"@, p1, slots);
        filled_part(t, 330, 374, slots);
        assert(("\nstatic "@ + item_name(family.tag@, "_ADVISOR_"@, bean, path) + ": ::leaf_core::AdvisorPairingRow"@) =~= "\nstatic "@ + item_name(family.tag@, "_ADVISOR_"@, bean, path) + ": ::leaf_core::AdvisorPairingRow"@);
    }
    assert(stands_in("\n    contract: "@ + advisor_contract(family.base@, bean, last_segment(path)) + ",\n    order: "@ + family.order@ + ",\n    role: ::leaf_core::Role::Infrastructure,"@,advisor_source(family, meta, make, bean, self_ty, path))) by {
        reveal_strlit("contract");
        reveal_strlit("order");
        reveal_strlit("\n    contract: ");
        reveal_strlit(",\n    order: ");
        reveal_strlit(",\n    role: ::leaf_core::Role::Infrastructure,");
        let p2 = ",\n    role: ::leaf_core::Role::Infrastructure,"@;
        let p1 = ",\n    order: "@ + seq!['#'] + "order"@ + p2;
        let p0 = "\n    contract: "@ + seq!['#'] + "contract"@ + p1;
        filled_plain(p2, slots);
        filled_step(",\n    order: "@, "order"@, p2, slots);
        filled_step("\n    contract: "@, "contract"@, p1, slots);
        filled_part(t, 409, 498, slots);
        assert(("\n    contract: "@ + advisor_contract(family.base@, bean, last_segment(path)) + (",\n    order: "@ + family.order@ + ",\n    role: ::leaf_core::Role::Infrastructure,"@)) =~= "\n    contract: "@ + advisor_contract(family.base@, bean, last_segment(path)) + ",\n    order: "@ + family.order@ + ",\n    role: ::leaf_core::Role::Infrastructure,"@);
    }
    assert(stands_in("\n    pointcut: &"@ + item_name(family.tag@, "_POINTCUT_"@, bean, path) + ",\n    make_interceptor: "@ + make + ","@,advisor_source(family, meta, make, bean, self_ty, path))) by {
        reveal_strlit("make");
        reveal_strlit("pointcut");
        reveal_strlit("\n    pointcut: &");
        reveal_strlit(",");
        reveal_strlit(",\n    make_interceptor: ");
        let p2 = ","@;
        let p1 = ",\n    make_interceptor: "@ + seq!['#'] + "make"@ + p2;
        let p0 = "\n    pointcut: &"@ + seq!['#'] + "pointcut"@ + p1;
        filled_plain(p2, slots);
        filled_step(",\n    make_interceptor: "@, "make"@, p2, slots);
        filled_step("\n    pointcut: &"@, "pointcut"@, p1, slots);
        filled_part(t, 498, 553, slots);
        assert(("\n    pointcut: &"@ + item_name(family.tag@, "_POINTCUT_"@, bean, path) + (",\n    make_interceptor: "@ + make + ","@)) =~= "\n    pointcut: &"@ + item_name(family.tag@, "_POINTCUT_"@, bean, path) + ",\n    make_interceptor: "@ + make + ","@);
    }
    assert(stands_in("\n"@ + meta + "#[allow(non_upper_case_globals)]"@,advisor_source(family, meta, make, bean, self_ty, path))) by {
        reveal_strlit("meta");
        reveal_strlit("");
        reveal_strlit("\n");
        reveal_strlit("#[allow(non_upper_case_globals)]");
        reveal_strlit("[allow(non_upper_case_globals)]");
        let p2 = "[allow(non_upper_case_globals)]"@;
        let p1 = ""@ + seq!['#'] + p2;
        let p0 = "\n"@ + seq!['#'] + "meta"@ + p1;
        filled_plain(p2, slots);
        filled_sign(""@, p2, slots);
        filled_step("\n"@, "meta"@, p1, slots);
        filled_part(t, 180, 218, slots);
        assert(("\n"@ + meta + (""@ + seq!['#'] + "[allow(non_upper_case_globals)]"@)) =~= "\n"@ + meta + "#[allow(non_upper_case_globals)]"@);
    }
}

/// The advisors of transactions.
pub open spec fn tx_family() -> Family {
    Family {
        tag: "TX",
        base: "leaf::tx::TransactionAdvisor",
        pointcut: "::leaf_tx::TxPointcut",
        order: "::leaf_tx::tx_order_key()",
    }
}

/// What makes the interceptor of a transaction: with a manager that is found by a trait the
/// type of the manager is not named.
pub open spec fn tx_make(manager: (Seq<char>, bool), ok: Seq<char>) -> Seq<char> {
    if manager.1 {
        "::leaf_tx::make_transaction_interceptor_for_view::<"@ + ok + ">()"@
    } else {
        "::leaf_tx::make_transaction_interceptor_for::<"@ + manager.0 + ", "@ + ok + ">()"@
    }
}

/// The row of a method that runs in a transaction and returns a type of the given form.
pub open spec fn transactional_source_of(
    manager: Option<(Seq<char>, bool)>,
    form: Result<TypeForm, Seq<char>>,
    bean: Seq<char>,
    self_ty: Seq<char>,
    sig: Sig,
) -> Result<Seq<char>, Seq<char>> {
    match manager {
        Some(manager) => Ok(
            advisor_source(
                tx_family(),
                ""@,
                tx_make(manager, ok_type(sig.ret, form)),
                bean,
                self_ty,
                sig.path,
            ),
        ),
        None => Err("#[transactional] requires `manager = …`"@),
    }
}

/// The row of a method that runs in a transaction.
pub open spec fn transactional_source(
    manager: Option<(Seq<char>, bool)>,
    bean: Seq<char>,
    self_ty: Seq<char>,
    sig: Sig,
) -> Result<Seq<char>, Seq<char>> {
    transactional_source_of(manager, type_in(sig.ret), bean, self_ty, sig)
}

/// Prints the row of a method that runs in a transaction and returns a type of the given form.
pub fn emit_transactional_of(
    args: &TransactionalArgs,
    shape: &Result<TypeShape, String>,
    bean_ident: &str,
    self_ty: &str,
    sig: &MethodSig,
) -> (res: Result<String, EmitError>)
    ensures
        told(res) == transactional_source_of(
            args@,
            crate::syntax::outcome(*shape),
            bean_ident@,
            self_ty@,
            sig@,
        ),
{
    let manager = match &args.manager {
        Some(manager) => manager,
        None => return error("#[transactional] requires `manager = …`".to_string()),
    };
    let ok = result_ok_ty_of(sig.ret_type.as_str(), shape);
    let make = if manager.is_trait_object() {
        "::leaf_tx::make_transaction_interceptor_for_view::<".to_string().concat(
            ok.as_str(),
        ).concat(">()")
    } else {
        "::leaf_tx::make_transaction_interceptor_for::<".to_string().concat(
            manager.ty.as_str(),
        ).concat(", ").concat(ok.as_str()).concat(">()")
    };
    let family = Family {
        tag: "TX",
        base: "leaf::tx::TransactionAdvisor",
        pointcut: "::leaf_tx::TxPointcut",
        order: "::leaf_tx::tx_order_key()",
    };
    Ok(emit_advisor(&family, "", make.as_str(), bean_ident, self_ty, sig))
}

/// Prints the row of a method that runs in a transaction.
pub fn emit_transactional(
    args: &TransactionalArgs,
    bean_ident: &str,
    self_ty: &str,
    sig: &MethodSig,
) -> (res: Result<String, EmitError>)
    ensures
        told(res) == transactional_source(args@, bean_ident@, self_ty@, sig@),
{
    let shape = type_shape(sig.ret_type.as_str());
    emit_transactional_of(args, &shape, bean_ident, self_ty, sig)
}

/// The advisors of caches.
pub open spec fn cache_family() -> Family {
    Family {
        tag: "CACHE",
        base: "leaf::cache::CacheAdvisor",
        pointcut: "::leaf_cache::CachePointcut",
        order: "::leaf_cache::cache_order_key()",
    }
}

/// `concern` is one with a cache.
pub open spec fn with_cache(concern: Concern) -> bool {
    concern == Concern::Cacheable || concern == Concern::CachePut || concern == Concern::CacheEvict
}

/// What a concern does with its caches.
pub open spec fn cache_operation(concern: Concern) -> Seq<char> {
    match concern {
        Concern::Cacheable => "::leaf_cache::CacheOp::Cacheable"@,
        Concern::CachePut => "::leaf_cache::CacheOp::CachePut"@,
        _ => "::leaf_cache::CacheOp::CacheEvict"@,
    }
}

/// What is known of the caches of a method.
pub const CACHE_META: &'static str = "#[allow(non_upper_case_globals)]
pub const #ident: ::leaf_core::CacheOpMeta = ::leaf_core::CacheOpMeta {
    cache_names: &[#names],
    all_entries: #all,
    before_invocation: false,
    sync: #sync,
};
";

/// What is known of the caches of a method.
pub open spec fn cache_meta(ident: Seq<char>, c: Cached) -> Seq<char> {
    filled(
        CACHE_META@,
        no_slots().push(("ident"@, ident)).push(("names"@, literal_list(c.names))).push(
            ("all"@, bool_source(c.all)),
        ).push(("sync"@, bool_source(c.sync))),
    )
}

/// Pieces of the template, where they stand in it.
#[verifier::spinoff_prover]
#[verifier::rlimit(60)]
proof fn cache_meta_pieces()
    ensures
        CACHE_META@.len() == 206,
        CACHE_META@.subrange(42, 132) == " "@ + seq!['#'] + "ident"@ + (": ::leaf_core::CacheOpMeta = ::leaf_core::CacheOpMeta {\n    cache_names: &["@ + seq!['#'] + "names"@ + "],"@),
        !is_name_char(CACHE_META@[42]),
        !is_name_char(CACHE_META@[132]),
        CACHE_META@.subrange(132, 202) == "\n    all_entries: "@ + seq!['#'] + "all"@ + (",\n    before_invocation: false,\n    sync: "@ + seq!['#'] + "sync"@ + ","@),
        !is_name_char(CACHE_META@[202]),
{
    reveal_strlit(
        "#[allow(non_upper_case_globals)]
pub const #ident: ::leaf_core::CacheOpMeta = ::leaf_core::CacheOpMeta {
    cache_names: &[#names],
    all_entries: #all,
    before_invocation: false,
    sync: #sync,
};
",
    );
    reveal_strlit("\n    all_entries: ");
    reveal_strlit(" ");
    reveal_strlit(",");
    reveal_strlit(",\n    before_invocation: false,\n    sync: ");
    reveal_strlit(": ::leaf_core::CacheOpMeta = ::leaf_core::CacheOpMeta {\n    cache_names: &[");
    reveal_strlit("],");
    reveal_strlit("all");
    reveal_strlit("ident");
    reveal_strlit("names");
    reveal_strlit("sync");
    assert(CACHE_META@.subrange(42, 132) =~= " "@ + seq!['#'] + "ident"@ + (": ::leaf_core::CacheOpMeta = ::leaf_core::CacheOpMeta {\n    cache_names: &["@ + seq!['#'] + "names"@ + "],"@));
    assert(CACHE_META@.subrange(132, 202) =~= "\n    all_entries: "@ + seq!['#'] + "all"@ + (",\n    before_invocation: false,\n    sync: "@ + seq!['#'] + "sync"@ + ","@));
}

/// What the slots of the template hold.
proof fn cache_meta_slots_are_found(ident: Seq<char>, c: Cached)
    ensures
        ({
            let slots = no_slots().push(("ident"@, ident)).push(("names"@, literal_list(c.names))).push(
                ("all"@, bool_source(c.all)),
            ).push(("sync"@, bool_source(c.sync)));
            &&& slot_text(slots, "ident"@) == Some(ident)
            &&& slot_text(slots, "names"@) == Some(literal_list(c.names))
            &&& slot_text(slots, "all"@) == Some(bool_source(c.all))
            &&& slot_text(slots, "sync"@) == Some(bool_source(c.sync))
        }),
{
    reveal_strlit("ident");
    reveal_strlit("names");
    reveal_strlit("all");
    reveal_strlit("sync");
    let slots = no_slots().push(("ident"@, ident)).push(("names"@, literal_list(c.names))).push(
                ("all"@, bool_source(c.all)),
            ).push(("sync"@, bool_source(c.sync)));
    slot_at(slots, 0);
    assert("ident"@[0] != "names"@[0]);
    slot_at(slots, 1);
    assert("ident"@.len() != "all"@.len());
    assert("names"@.len() != "all"@.len());
    slot_at(slots, 2);
    assert("ident"@.len() != "sync"@.len());
    assert("names"@.len() != "sync"@.len());
    assert("all"@.len() != "sync"@.len());
    slot_at(slots, 3);
}

/// Each setting of a cache stands in the field of its name.
#[verifier::spinoff_prover]
#[verifier::rlimit(60)]
pub proof fn cache_has_its_settings(ident: Seq<char>, c: Cached)
    ensures
        stands_in(
            " "@ + ident + ": ::leaf_core::CacheOpMeta = ::leaf_core::CacheOpMeta {\n    cache_names: &["@ + literal_list(c.names) + "],"@,
            cache_meta(ident, c),
        ),
        stands_in(
            "\n    all_entries: "@ + bool_source(c.all) + ",\n    before_invocation: false,\n    sync: "@ + bool_source(c.sync) + ","@,
            cache_meta(ident, c),
        ),
{
    cache_meta_pieces();
    cache_meta_slots_are_found(ident, c);
    let t = CACHE_META@;
    let slots = no_slots().push(("ident"@, ident)).push(("names"@, literal_list(c.names))).push(
                ("all"@, bool_source(c.all)),
            ).push(("sync"@, bool_source(c.sync)));
    assert(stands_in(" "@ + ident + ": ::leaf_core::CacheOpMeta = ::leaf_core::CacheOpMeta {\n    cache_names: &["@ + literal_list(c.names) + "],"@,cache_meta(ident, c))) by {
        reveal_strlit("ident");
        reveal_strlit("names");
        reveal_strlit(" ");
        reveal_strlit(": ::leaf_core::CacheOpMeta = ::leaf_core::CacheOpMeta {\n    cache_names: &[");
        reveal_strlit("],");
        let p2 = "],"@;
        let p1 = ": ::leaf_core::CacheOpMeta = ::leaf_core::CacheOpMeta {\n    cache_names: &["@ + seq!['#'] + "names"@ + p2;
        let p0 = " "@ + seq!['#'] + "ident"@ + p1;
        filled_plain(p2, slots);
        filled_step(": ::leaf_core::CacheOpMeta = ::leaf_core::CacheOpMeta {\n    cache_names: &["@, "names"@, p2, slots);
        filled_step(" "@, "ident"@, p1, slots);
        filled_part(t, 42, 132, slots);
        assert((" "@ + ident + (": ::leaf_core::CacheOpMeta = ::leaf_core::CacheOpMeta {\n    cache_names: &["@ + literal_list(c.names) + "],"@)) =~= " "@ + ident + ": ::leaf_core::CacheOpMeta = ::leaf_core::CacheOpMeta {\n    cache_names: &["@ + literal_list(c.names) + "],"@);
    }
    assert(stands_in("\n    all_entries: "@ + bool_source(c.all) + ",\n    before_invocation: false,\n    sync: "@ + bool_source(c.sync) + ","@,cache_meta(ident, c))) by {
        reveal_strlit("all");
        reveal_strlit("sync");
        reveal_strlit("\n    all_entries: ");
        reveal_strlit(",");
        reveal_strlit(",\n    before_invocation: false,\n    sync: ");
        let p2 = ","@;
        let p1 = ",\n    before_invocation: false,\n    sync: "@ + seq!['#'] + "sync"@ + p2;
        let p0 = "\n    all_entries: "@ + seq!['#'] + "all"@ + p1;
        filled_plain(p2, slots);
        filled_step(",\n    before_invocation: false,\n    sync: "@, "sync"@, p2, slots);
        filled_step("\n    all_entries: "@, "all"@, p1, slots);
        filled_part(t, 132, 202, slots);
        assert(("\n    all_entries: "@ + bool_source(c.all) + (",\n    before_invocation: false,\n    sync: "@ + bool_source(c.sync) + ","@)) =~= "\n    all_entries: "@ + bool_source(c.all) + ",\n    before_invocation: false,\n    sync: "@ + bool_source(c.sync) + ","@);
    }
}

/// The function that makes a key of the argument of a call.
pub const KEY_FN: &'static str = "(|__call: &::leaf_core::Call<'_>| -> ::core::option::Option<::std::boxed::Box<[u8]>> {
    let (__a0,) = __call.args.downcast_ref::<(#arg,)>()?;
    ::core::option::Option::Some(::std::format!(\"{:?}\", __a0).into_bytes().into_boxed_slice())
}) as ::leaf_cache::CacheKeyFn";

/// The function that makes the key: of the first argument, or the same key for all calls.
pub open spec fn key_fn(concern: Concern, key: Option<usize>, arg: Option<Seq<char>>) -> Result<
    Seq<char>,
    Seq<char>,
> {
    match key {
        None => Ok("::leaf_cache::unit_key_fn()"@),
        Some(n) => match arg {
            None => Err(
                "#["@ + keyword_of(concern) + "] key = \"#"@ + decimal(n as nat)
                    + "\" but the method takes no argument to key on"@,
            ),
            Some(arg) => if n != 0 {
                Err(
                    "#["@ + keyword_of(concern) + "] key = \"#"@ + decimal(n as nat)
                        + "\": v1 supports only `key = \"#0\"` (the first arg)"@,
                )
            } else {
                Ok(filled(KEY_FN@, no_slots().push(("arg"@, arg))))
            },
        },
    }
}

/// Prints the function that makes the key.
fn emit_key_fn(concern: Concern, key: Option<usize>, arg: &Option<String>) -> (res: Result<
    String,
    EmitError,
>)
    ensures
        told(res) == key_fn(concern, key, arg.deep_view()),
{
    match key {
        None => Ok("::leaf_cache::unit_key_fn()".to_string()),
        Some(n) => {
            let number = decimal_text(n as u64);
            let front = "#[".to_string().concat(concern.keyword()).concat("] key = \"#").concat(
                number.as_str(),
            );
            match arg {
                None => error(front.concat("\" but the method takes no argument to key on")),
                Some(arg) => if n != 0 {
                    error(
                        front.concat("\": v1 supports only `key = \"#0\"` (the first arg)"),
                    )
                } else {
                    Ok(Slots::new().with("arg", arg.as_str()).fill(KEY_FN))
                },
            }
        },
    }
}

/// Pieces of the template, where they stand in it.
#[verifier::spinoff_prover]
#[verifier::rlimit(60)]
proof fn key_fn_pieces()
    ensures
        KEY_FN@.len() == 270,
        KEY_FN@.subrange(116, 239) == ".downcast_ref::<("@ + seq!['#'] + "arg"@ + ",)>()?;\n    ::core::option::Option::Some(::std::format!(\"{:?}\", __a0).into_bytes().into_boxed_slice())"@,
        !is_name_char(KEY_FN@[116]),
        !is_name_char(KEY_FN@[239]),
{
    reveal_strlit(
        "(|__call: &::leaf_core::Call<'_>| -> ::core::option::Option<::std::boxed::Box<[u8]>> {
    let (__a0,) = __call.args.downcast_ref::<(#arg,)>()?;
    ::core::option::Option::Some(::std::format!(\"{:?}\", __a0).into_bytes().into_boxed_slice())
}) as ::leaf_cache::CacheKeyFn",
    );
    reveal_strlit(",)>()?;\n    ::core::option::Option::Some(::std::format!(\"{:?}\", __a0).into_bytes().into_boxed_slice())");
    reveal_strlit(".downcast_ref::<(");
    reveal_strlit("arg");
    assert(KEY_FN@.subrange(116, 239) =~= ".downcast_ref::<("@ + seq!['#'] + "arg"@ + ",)>()?;\n    ::core::option::Option::Some(::std::format!(\"{:?}\", __a0).into_bytes().into_boxed_slice())"@);
}

/// What the slots of the template hold.
proof fn key_fn_slots_are_found(concern: Concern, arg: Seq<char>)
    ensures
        ({
            let slots = no_slots().push(("arg"@, arg));
            &&& slot_text(slots, "arg"@) == Some(arg)
        }),
{
    reveal_strlit("arg");
    let slots = no_slots().push(("arg"@, arg));
    slot_at(slots, 0);
}

/// The key of a call is made of its first argument, as the type of that; without a key all calls
/// have the same one. No other argument can be the key, and there has to be one.
#[verifier::spinoff_prover]
#[verifier::rlimit(60)]
pub proof fn key_is_made_of_the_first_argument(concern: Concern, arg: Seq<char>)
    ensures
        stands_in(
            ".downcast_ref::<("@ + arg + ",)>()?;\n    ::core::option::Option::Some(::std::format!(\"{:?}\", __a0).into_bytes().into_boxed_slice())"@,
            key_fn(concern, Some(0usize), Some(arg))->Ok_0,
        ),
        key_fn(concern, Some(0usize), Some(arg)) is Ok,
        key_fn(concern, None, Some(arg)) == Ok::<Seq<char>, Seq<char>>("::leaf_cache::unit_key_fn()"@),
        key_fn(concern, None, None) == Ok::<Seq<char>, Seq<char>>("::leaf_cache::unit_key_fn()"@),
        forall|n: usize| n > 0 ==> #[trigger] key_fn(concern, Some(n), Some(arg)) is Err,
        forall|n: usize| #[trigger] key_fn(concern, Some(n), None) is Err,
{
    key_fn_pieces();
    key_fn_slots_are_found(concern, arg);
    let t = KEY_FN@;
    let slots = no_slots().push(("arg"@, arg));
    assert(stands_in(".downcast_ref::<("@ + arg + ",)>()?;\n    ::core::option::Option::Some(::std::format!(\"{:?}\", __a0).into_bytes().into_boxed_slice())"@,key_fn(concern, Some(0usize), Some(arg))->Ok_0)) by {
        reveal_strlit("arg");
        reveal_strlit(",)>()?;\n    ::core::option::Option::Some(::std::format!(\"{:?}\", __a0).into_bytes().into_boxed_slice())");
        reveal_strlit(".downcast_ref::<(");
        let p1 = ",)>()?;\n    ::core::option::Option::Some(::std::format!(\"{:?}\", __a0).into_bytes().into_boxed_slice())"@;
        let p0 = ".downcast_ref::<("@ + seq!['#'] + "arg"@ + p1;
        filled_plain(p1, slots);
        filled_step(".downcast_ref::<("@, "arg"@, p1, slots);
        filled_part(t, 116, 239, slots);
        assert((".downcast_ref::<("@ + arg + ",)>()?;\n    ::core::option::Option::Some(::std::format!(\"{:?}\", __a0).into_bytes().into_boxed_slice())"@) =~= ".downcast_ref::<("@ + arg + ",)>()?;\n    ::core::option::Option::Some(::std::format!(\"{:?}\", __a0).into_bytes().into_boxed_slice())"@);
    }
}

/// What makes the interceptor of a cache.
pub const CACHE_MAKE: &'static str = "|__c: &dyn ::leaf_core::Container| {
    ::std::boxed::Box::pin(#builder(
        __c,
        ::leaf_core::MethodKey::of(#path),
        #op,
        &#ident,
        #key_fn,
    ))
}";

/// What builds the interceptor of a cache: with a manager that is found by a trait the type
/// of the manager is not named.
pub open spec fn cache_builder(manager: (Seq<char>, bool), value: Seq<char>) -> Seq<char> {
    if manager.1 {
        "::leaf_cache::build_cache_interceptor_view::<"@ + value + ">"@
    } else {
        "::leaf_cache::build_cache_interceptor::<"@ + manager.0 + ", "@ + value + ">"@
    }
}

/// What makes the interceptor of a cache.
pub open spec fn cache_make(
    concern: Concern,
    manager: (Seq<char>, bool),
    ident: Seq<char>,
    key: Seq<char>,
    sig: Sig,
) -> Seq<char> {
    filled(
        CACHE_MAKE@,
        no_slots().push(("builder"@, cache_builder(manager, sig.ret))).push(
            ("path"@, literal_source(sig.path)),
        ).push(("op"@, cache_operation(concern))).push(("ident"@, ident)).push(("key_fn"@, key)),
    )
}

/// The row of a method with a cache.
pub open spec fn cache_source(
    concern: Concern,
    c: Cached,
    bean: Seq<char>,
    self_ty: Seq<char>,
    sig: Sig,
) -> Result<Seq<char>, Seq<char>> {
    let ident = item_name("CACHE"@, "_META_"@, bean, sig.path);
    match c.manager {
        None => Err("#["@ + keyword_of(concern) + "] requires `manager = …`"@),
        Some(manager) => match key_fn(concern, c.key, sig.arg) {
            Err(message) => Err(message),
            Ok(key) => Ok(
                advisor_source(
                    cache_family(),
                    cache_meta(ident, c),
                    cache_make(concern, manager, ident, key, sig),
                    bean,
                    self_ty,
                    sig.path,
                ),
            ),
        },
    }
}

/// Prints the row of a method with a cache.
pub fn emit_cache(
    concern: Concern,
    args: &CacheableArgs,
    bean_ident: &str,
    self_ty: &str,
    sig: &MethodSig,
) -> (res: Result<String, EmitError>)
    requires
        with_cache(concern),
    ensures
        told(res) == cache_source(concern, args@, bean_ident@, self_ty@, sig@),
{
    let manager = match &args.manager {
        Some(manager) => manager,
        None => return error(
            "#[".to_string().concat(concern.keyword()).concat("] requires `manager = …`"),
        ),
    };
    let key = match emit_key_fn(concern, args.key_arg, &sig.first_arg_type) {
        Ok(key) => key,
        Err(e) => return Err(e),
    };
    let op = match concern {
        Concern::Cacheable => "::leaf_cache::CacheOp::Cacheable",
        Concern::CachePut => "::leaf_cache::CacheOp::CachePut",
        _ => "::leaf_cache::CacheOp::CacheEvict",
    };
    let ident = item_ident("CACHE", "_META_", bean_ident, sig);
    let meta = Slots::new().with("ident", ident.as_str()).with(
        "names",
        literal_list_text(args.cache_names.as_slice()).as_str(),
    ).with("all", bool_text(args.all_entries)).with("sync", bool_text(args.sync)).fill(CACHE_META);
    let value = sig.ret_type.as_str();
    let builder = if manager.is_trait_object() {
        "::leaf_cache::build_cache_interceptor_view::<".to_string().concat(value).concat(">")
    } else {
        "::leaf_cache::build_cache_interceptor::<".to_string().concat(manager.ty.as_str()).concat(
            ", ",
        ).concat(value).concat(">")
    };
    let path = string_literal(sig.method_path.as_str());
    let make = Slots::new().with("builder", builder.as_str()).with("path", path.as_str()).with(
        "op",
        op,
    ).with("ident", ident.as_str()).with("key_fn", key.as_str()).fill(CACHE_MAKE);
    let family = Family {
        tag: "CACHE",
        base: "leaf::cache::CacheAdvisor",
        pointcut: "::leaf_cache::CachePointcut",
        order: "::leaf_cache::cache_order_key()",
    };
    Ok(emit_advisor(&family, meta.as_str(), make.as_str(), bean_ident, self_ty, sig))
}

/// Pieces of the template, where they stand in it.
#[verifier::spinoff_prover]
#[verifier::rlimit(60)]
proof fn cache_make_pieces()
    ensures
        CACHE_MAKE@.len() == 185,
        CACHE_MAKE@.subrange(63, 142) == "("@ + seq!['#'] + "builder"@ + ("(\n        __c,\n        ::leaf_core::MethodKey::of("@ + seq!['#'] + "path"@ + ("),\n        "@ + seq!['#'] + "op"@ + ","@)),
        !is_name_char(CACHE_MAKE@[63]),
        !is_name_char(CACHE_MAKE@[142]),
        CACHE_MAKE@.subrange(142, 183) == "\n        &"@ + seq!['#'] + "ident"@ + (",\n        "@ + seq!['#'] + "key_fn"@ + ",\n    ))"@),
        !is_name_char(CACHE_MAKE@[183]),
{
    reveal_strlit(
        "|__c: &dyn ::leaf_core::Container| {
    ::std::boxed::Box::pin(#builder(
        __c,
        ::leaf_core::MethodKey::of(#path),
        #op,
        &#ident,
        #key_fn,
    ))
}",
    );
    reveal_strlit("\n        &");
    reveal_strlit("(");
    reveal_strlit("(\n        __c,\n        ::leaf_core::MethodKey::of(");
    reveal_strlit("),\n        ");
    reveal_strlit(",");
    reveal_strlit(",\n        ");
    reveal_strlit(",\n    ))");
    reveal_strlit("builder");
    reveal_strlit("ident");
    reveal_strlit("key_fn");
    reveal_strlit("op");
    reveal_strlit("path");
    assert(CACHE_MAKE@.subrange(63, 142) =~= "("@ + seq!['#'] + "builder"@ + ("(\n        __c,\n        ::leaf_core::MethodKey::of("@ + seq!['#'] + "path"@ + ("),\n        "@ + seq!['#'] + "op"@ + ","@)));
    assert(CACHE_MAKE@.subrange(142, 183) =~= "\n        &"@ + seq!['#'] + "ident"@ + (",\n        "@ + seq!['#'] + "key_fn"@ + ",\n    ))"@));
}

/// What the slots of the template hold.
proof fn cache_make_slots_are_found(concern: Concern, manager: (Seq<char>, bool), ident: Seq<char>, key: Seq<char>, sig: Sig)
    ensures
        ({
            let slots = no_slots().push(("builder"@, cache_builder(manager, sig.ret))).push(
                ("path"@, literal_source(sig.path)),
            ).push(("op"@, cache_operation(concern))).push(("ident"@, ident)).push(("key_fn"@, key));
            &&& slot_text(slots, "builder"@) == Some(cache_builder(manager, sig.ret))
            &&& slot_text(slots, "path"@) == Some(literal_source(sig.path))
            &&& slot_text(slots, "op"@) == Some(cache_operation(concern))
            &&& slot_text(slots, "ident"@) == Some(ident)
            &&& slot_text(slots, "key_fn"@) == Some(key)
        }),
{
    reveal_strlit("builder");
    reveal_strlit("path");
    reveal_strlit("op");
    reveal_strlit("ident");
    reveal_strlit("key_fn");
    let slots = no_slots().push(("builder"@, cache_builder(manager, sig.ret))).push(
                ("path"@, literal_source(sig.path)),
            ).push(("op"@, cache_operation(concern))).push(("ident"@, ident)).push(("key_fn"@, key));
    slot_at(slots, 0);
    assert("builder"@.len() != "path"@.len());
    slot_at(slots, 1);
    assert("builder"@.len() != "op"@.len());
    assert("path"@.len() != "op"@.len());
    slot_at(slots, 2);
    assert("builder"@.len() != "ident"@.len());
    assert("path"@.len() != "ident"@.len());
    assert("op"@.len() != "ident"@.len());
    slot_at(slots, 3);
    assert("builder"@.len() != "key_fn"@.len());
    assert("path"@.len() != "key_fn"@.len());
    assert("op"@.len() != "key_fn"@.len());
    assert("ident"@.len() != "key_fn"@.len());
    slot_at(slots, 4);
}

/// The interceptor of a cache is made for its method, with the operation of the concern, its
/// settings and its key.
#[verifier::spinoff_prover]
#[verifier::rlimit(60)]
pub proof fn cache_interceptor_is_that_of_the_method(concern: Concern, manager: (Seq<char>, bool), ident: Seq<char>, key: Seq<char>, sig: Sig)
    ensures
        stands_in(
            "("@ + cache_builder(manager, sig.ret) + "(\n        __c,\n        ::leaf_core::MethodKey::of("@ + literal_source(sig.path) + "),\n        "@ + cache_operation(concern) + ","@,
            cache_make(concern, manager, ident, key, sig),
        ),
        stands_in(
            "\n        &"@ + ident + ",\n        "@ + key + ",\n    ))"@,
            cache_make(concern, manager, ident, key, sig),
        ),
        cache_operation(Concern::Cacheable) == "::leaf_cache::CacheOp::Cacheable"@,
        cache_operation(Concern::CachePut) == "::leaf_cache::CacheOp::CachePut"@,
        cache_operation(Concern::CacheEvict) == "::leaf_cache::CacheOp::CacheEvict"@,
        !manager.1 ==> cache_builder(manager, sig.ret)
            == "::leaf_cache::build_cache_interceptor::<"@ + manager.0 + ", "@ + sig.ret + ">"@,
        manager.1 ==> cache_builder(manager, sig.ret)
            == "::leaf_cache::build_cache_interceptor_view::<"@ + sig.ret + ">"@,
{
    cache_make_pieces();
    cache_make_slots_are_found(concern, manager, ident, key, sig);
    let t = CACHE_MAKE@;
    let slots = no_slots().push(("builder"@, cache_builder(manager, sig.ret))).push(
                ("path"@, literal_source(sig.path)),
            ).push(("op"@, cache_operation(concern))).push(("ident"@, ident)).push(("key_fn"@, key));
    assert(stands_in("("@ + cache_builder(manager, sig.ret) + "(\n        __c,\n        ::leaf_core::MethodKey::of("@ + literal_source(sig.path) + "),\n        "@ + cache_operation(concern) + ","@,cache_make(concern, manager, ident, key, sig))) by {
        reveal_strlit("builder");
        reveal_strlit("op");
        reveal_strlit("path");
        reveal_strlit("(");
        reveal_strlit("(\n        __c,\n        ::leaf_core::MethodKey::of(");
        reveal_strlit("),\n        ");
        reveal_strlit(",");
        let p3 = ","@;
        let p2 = "),\n        "@ + seq!['#'] + "op"@ + p3;
        let p1 = "(\n        __c,\n        ::leaf_core::MethodKey::of("@ + seq!['#'] + "path"@ + p2;
        let p0 = "("@ + seq!['#'] + "builder"@ + p1;
        filled_plain(p3, slots);
        filled_step("),\n        "@, "op"@, p3, slots);
        filled_step("(\n        __c,\n        ::leaf_core::MethodKey::of("@, "path"@, p2, slots);
        filled_step("("@, "builder"@, p1, slots);
        filled_part(t, 63, 142, slots);
        assert(("("@ + cache_builder(manager, sig.ret) + ("(\n        __c,\n        ::leaf_core::MethodKey::of("@ + literal_source(sig.path) + ("),\n        "@ + cache_operation(concern) + ","@))) =~= "("@ + cache_builder(manager, sig.ret) + "(\n        __c,\n        ::leaf_core::MethodKey::of("@ + literal_source(sig.path) + "),\n        "@ + cache_operation(concern) + ","@);
    }
    assert(stands_in("\n        &"@ + ident + ",\n        "@ + key + ",\n    ))"@,cache_make(concern, manager, ident, key, sig))) by {
        reveal_strlit("ident");
        reveal_strlit("key_fn");
        reveal_strlit("\n        &");
        reveal_strlit(",\n        ");
        reveal_strlit(",\n    ))");
        let p2 = ",\n    ))"@;
        let p1 = ",\n        "@ + seq!['#'] + "key_fn"@ + p2;
        let p0 = "\n        &"@ + seq!['#'] + "ident"@ + p1;
        filled_plain(p2, slots);
        filled_step(",\n        "@, "key_fn"@, p2, slots);
        filled_step("\n        &"@, "ident"@, p1, slots);
        filled_part(t, 142, 183, slots);
        assert(("\n        &"@ + ident + (",\n        "@ + key + ",\n    ))"@)) =~= "\n        &"@ + ident + ",\n        "@ + key + ",\n    ))"@);
    }
}

/// The advisors of validation.
pub open spec fn validation_family() -> Family {
    Family {
        tag: "VALID",
        base: "leaf::validation::MethodValidationAdvisor",
        pointcut: "::leaf_validation::ValidationPointcut",
        order: "::leaf_validation::validation_order_key()",
    }
}

/// The row of a method whose argument is checked.
pub open spec fn validated_source(bean: Seq<char>, self_ty: Seq<char>, sig: Sig) -> Result<
    Seq<char>,
    Seq<char>,
> {
    match sig.arg {
        None => Err(
            "#[validated] on `"@ + sig.path
                + "` validates the method's first `@Valid` argument, but the method takes no argument"@,
        ),
        Some(arg) => Ok(
            advisor_source(
                validation_family(),
                ""@,
                "::leaf_validation::single_arg_make_interceptor::<"@ + arg + ">()"@,
                bean,
                self_ty,
                sig.path,
            ),
        ),
    }
}

/// Prints the row of a method whose argument is checked.
pub fn emit_validated(bean_ident: &str, self_ty: &str, sig: &MethodSig) -> (res: Result<
    String,
    EmitError,
>)
    ensures
        told(res) == validated_source(bean_ident@, self_ty@, sig@),
{
    let arg = match &sig.first_arg_type {
        Some(arg) => arg,
        None => return error(
            "#[validated] on `".to_string().concat(sig.method_path.as_str()).concat(
                "` validates the method's first `@Valid` argument, but the method takes no argument",
            ),
        ),
    };
    let make = "::leaf_validation::single_arg_make_interceptor::<".to_string().concat(
        arg.as_str(),
    ).concat(">()");
    let family = Family {
        tag: "VALID",
        base: "leaf::validation::MethodValidationAdvisor",
        pointcut: "::leaf_validation::ValidationPointcut",
        order: "::leaf_validation::validation_order_key()",
    };
    Ok(emit_advisor(&family, "", make.as_str(), bean_ident, self_ty, sig))
}

/// The source of a delay.
pub open spec fn delay_source(d: Delay) -> Seq<char> {
    match d {
        Delay::Immediate => "::std::sync::Arc::new(::leaf_resilience::NoBackoff) as ::std::sync::Arc<dyn ::leaf_core::BackoffPolicy>"@,
        Delay::Fixed(ms) => "::std::sync::Arc::new(::leaf_resilience::FixedBackoff { delay: ::core::time::Duration::from_millis("@
            + decimal(ms as nat)
            + "u64) }) as ::std::sync::Arc<dyn ::leaf_core::BackoffPolicy>"@,
        Delay::Exponential { base_ms, mult } => "::std::sync::Arc::new(::leaf_resilience::ExponentialBackoff::new(::core::time::Duration::from_millis("@
            + decimal(base_ms as nat) + "u64), "@ + mult
            + "f64)) as ::std::sync::Arc<dyn ::leaf_core::BackoffPolicy>"@,
    }
}

/// Prints a delay. The factor is printed with the digits it was given with.
fn lower_backoff(backoff: &Backoff) -> (res: String)
    ensures
        res@ == delay_source(backoff@),
{
    match backoff {
        Backoff::Immediate => "::std::sync::Arc::new(::leaf_resilience::NoBackoff) as ::std::sync::Arc<dyn ::leaf_core::BackoffPolicy>".to_string(),
        Backoff::Fixed(ms) => {
            let ms = decimal_text(*ms);
            "::std::sync::Arc::new(::leaf_resilience::FixedBackoff { delay: ::core::time::Duration::from_millis(".to_string().concat(
                ms.as_str(),
            ).concat("u64) }) as ::std::sync::Arc<dyn ::leaf_core::BackoffPolicy>")
        },
        Backoff::Exponential { base_ms, mult } => {
            let base = decimal_text(*base_ms);
            "::std::sync::Arc::new(::leaf_resilience::ExponentialBackoff::new(::core::time::Duration::from_millis(".to_string().concat(
                base.as_str(),
            ).concat("u64), ").concat(mult.as_str()).concat(
                "f64)) as ::std::sync::Arc<dyn ::leaf_core::BackoffPolicy>",
            )
        },
    }
}

/// The advisors of retries.
pub open spec fn retry_family() -> Family {
    Family {
        tag: "RETRY",
        base: "leaf::resilience::RetryAdvisor",
        pointcut: "::leaf_resilience::ResiliencePointcut",
        order: "::leaf_resilience::retry_order_key()",
    }
}

/// What makes the interceptor of a method that is run again.
pub const RETRY_MAKE: &'static str = "|_c: &dyn ::leaf_core::Container| {
    ::std::boxed::Box::pin(async move {
        let __retry = ::leaf_resilience::ResilientRetry::new(
            ::leaf_core::RetryPolicy::new(#max),
            #backoff,
        );
        let __interceptor = ::leaf_resilience::RetryInterceptor::new(__retry)
            .with_sleeper(::leaf_resilience::default_sleeper())
            .with_return_classifier(::leaf_resilience::result_classifier::<#ok>());
        ::core::result::Result::Ok(
            ::std::sync::Arc::new(__interceptor) as ::std::sync::Arc<dyn ::leaf_core::Interceptor>,
        )
    })
}";

/// The row of a method that is run again and returns a type of the given form.
pub open spec fn retryable_source_of(
    args: (u32, Delay),
    form: Result<TypeForm, Seq<char>>,
    bean: Seq<char>,
    self_ty: Seq<char>,
    sig: Sig,
) -> Seq<char> {
    advisor_source(
        retry_family(),
        ""@,
        filled(
            RETRY_MAKE@,
            no_slots().push(("max"@, decimal(args.0 as nat) + "u32"@)).push(
                ("backoff"@, delay_source(args.1)),
            ).push(("ok"@, ok_type(sig.ret, form))),
        ),
        bean,
        self_ty,
        sig.path,
    )
}

/// The row of a method that is run again.
pub open spec fn retryable_source(
    args: (u32, Delay),
    bean: Seq<char>,
    self_ty: Seq<char>,
    sig: Sig,
) -> Seq<char> {
    retryable_source_of(args, type_in(sig.ret), bean, self_ty, sig)
}

/// Prints the row of a method that is run again and returns a type of the given form.
pub fn emit_retryable_of(
    args: &RetryableArgs,
    shape: &Result<TypeShape, String>,
    bean_ident: &str,
    self_ty: &str,
    sig: &MethodSig,
) -> (res: String)
    ensures
        res@ == retryable_source_of(
            args@,
            crate::syntax::outcome(*shape),
            bean_ident@,
            self_ty@,
            sig@,
        ),
{
    let max = decimal_text(args.max as u64).concat("u32");
    let backoff = lower_backoff(&args.backoff);
    let ok = result_ok_ty_of(sig.ret_type.as_str(), shape);
    let make = Slots::new().with("max", max.as_str()).with("backoff", backoff.as_str()).with(
        "ok",
        ok.as_str(),
    ).fill(RETRY_MAKE);
    let family = Family {
        tag: "RETRY",
        base: "leaf::resilience::RetryAdvisor",
        pointcut: "::leaf_resilience::ResiliencePointcut",
        order: "::leaf_resilience::retry_order_key()",
    };
    emit_advisor(&family, "", make.as_str(), bean_ident, self_ty, sig)
}

/// Prints the row of a method that is run again.
pub fn emit_retryable(args: &RetryableArgs, bean_ident: &str, self_ty: &str, sig: &MethodSig) -> (
    res: Result<String, EmitError>)
    ensures
        told(res) == Ok::<Seq<char>, Seq<char>>(
            retryable_source(args@, bean_ident@, self_ty@, sig@),
        ),
{
    let shape = type_shape(sig.ret_type.as_str());
    Ok(emit_retryable_of(args, &shape, bean_ident, self_ty, sig))
}

/// Pieces of the template, where they stand in it.
#[verifier::spinoff_prover]
#[verifier::rlimit(60)]
proof fn retry_make_pieces()
    ensures
        RETRY_MAKE@.len() == 600,
        RETRY_MAKE@.subrange(137, 219) == "\n            ::leaf_core::RetryPolicy::new("@ + seq!['#'] + "max"@ + ("),\n            "@ + seq!['#'] + "backoff"@ + ",\n        );"@),
        !is_name_char(RETRY_MAKE@[137]),
        !is_name_char(RETRY_MAKE@[219]),
        RETRY_MAKE@.subrange(374, 445) == ".with_return_classifier(::leaf_resilience::result_classifier::<"@ + seq!['#'] + "ok"@ + ">());"@,
        !is_name_char(RETRY_MAKE@[374]),
        !is_name_char(RETRY_MAKE@[445]),
{
    reveal_strlit(
        "|_c: &dyn ::leaf_core::Container| {
    ::std::boxed::Box::pin(async move {
        let __retry = ::leaf_resilience::ResilientRetry::new(
            ::leaf_core::RetryPolicy::new(#max),
            #backoff,
        );
        let __interceptor = ::leaf_resilience::RetryInterceptor::new(__retry)
            .with_sleeper(::leaf_resilience::default_sleeper())
            .with_return_classifier(::leaf_resilience::result_classifier::<#ok>());
        ::core::result::Result::Ok(
            ::std::sync::Arc::new(__interceptor) as ::std::sync::Arc<dyn ::leaf_core::Interceptor>,
        )
    })
}",
    );
    reveal_strlit("\n            ::leaf_core::RetryPolicy::new(");
    reveal_strlit("),\n            ");
    reveal_strlit(",\n        );");
    reveal_strlit(".with_return_classifier(::leaf_resilience::result_classifier::<");
    reveal_strlit(">());");
    reveal_strlit("backoff");
    reveal_strlit("max");
    reveal_strlit("ok");
    assert(RETRY_MAKE@.subrange(137, 219) =~= "\n            ::leaf_core::RetryPolicy::new("@ + seq!['#'] + "max"@ + ("),\n            "@ + seq!['#'] + "backoff"@ + ",\n        );"@));
    assert(RETRY_MAKE@.subrange(374, 445) =~= ".with_return_classifier(::leaf_resilience::result_classifier::<"@ + seq!['#'] + "ok"@ + ">());"@);
}

/// What the slots of the template hold.
proof fn retry_make_slots_are_found(max: u32, d: Delay, ok: Seq<char>)
    ensures
        ({
            let slots = no_slots().push(("max"@, decimal(max as nat) + "u32"@)).push(
                ("backoff"@, delay_source(d)),
            ).push(("ok"@, ok));
            &&& slot_text(slots, "max"@) == Some((decimal(max as nat) + "u32"@))
            &&& slot_text(slots, "backoff"@) == Some(delay_source(d))
            &&& slot_text(slots, "ok"@) == Some(ok)
        }),
{
    reveal_strlit("max");
    reveal_strlit("backoff");
    reveal_strlit("ok");
    let slots = no_slots().push(("max"@, decimal(max as nat) + "u32"@)).push(
                ("backoff"@, delay_source(d)),
            ).push(("ok"@, ok));
    slot_at(slots, 0);
    assert("max"@.len() != "backoff"@.len());
    slot_at(slots, 1);
    assert("max"@.len() != "ok"@.len());
    assert("backoff"@.len() != "ok"@.len());
    slot_at(slots, 2);
}

/// A method is run again up to its number of times, with its delay, where its result says so.
#[verifier::spinoff_prover]
#[verifier::rlimit(60)]
pub proof fn retry_has_its_policy(max: u32, d: Delay, ok: Seq<char>)
    ensures
        stands_in(
            "\n            ::leaf_core::RetryPolicy::new("@ + (decimal(max as nat) + "u32"@) + "),\n            "@ + delay_source(d) + ",\n        );"@,
            filled(RETRY_MAKE@, no_slots().push(("max"@, decimal(max as nat) + "u32"@)).push(
                ("backoff"@, delay_source(d)),
            ).push(("ok"@, ok))),
        ),
        stands_in(
            ".with_return_classifier(::leaf_resilience::result_classifier::<"@ + ok + ">());"@,
            filled(RETRY_MAKE@, no_slots().push(("max"@, decimal(max as nat) + "u32"@)).push(
                ("backoff"@, delay_source(d)),
            ).push(("ok"@, ok))),
        ),
{
    retry_make_pieces();
    retry_make_slots_are_found(max, d, ok);
    let t = RETRY_MAKE@;
    let slots = no_slots().push(("max"@, decimal(max as nat) + "u32"@)).push(
                ("backoff"@, delay_source(d)),
            ).push(("ok"@, ok));
    assert(stands_in("\n            ::leaf_core::RetryPolicy::new("@ + (decimal(max as nat) + "u32"@) + "),\n            "@ + delay_source(d) + ",\n        );"@,filled(RETRY_MAKE@, no_slots().push(("max"@, decimal(max as nat) + "u32"@)).push(    ("backoff"@, delay_source(d)),).push(("ok"@, ok))))) by {
        reveal_strlit("backoff");
        reveal_strlit("max");
        reveal_strlit("\n            ::leaf_core::RetryPolicy::new(");
        reveal_strlit("),\n            ");
        reveal_strlit(",\n        );");
        let p2 = ",\n        );"@;
        let p1 = "),\n            "@ + seq!['#'] + "backoff"@ + p2;
        let p0 = "\n            ::leaf_core::RetryPolicy::new("@ + seq!['#'] + "max"@ + p1;
        filled_plain(p2, slots);
        filled_step("),\n            "@, "backoff"@, p2, slots);
        filled_step("\n            ::leaf_core::RetryPolicy::new("@, "max"@, p1, slots);
        filled_part(t, 137, 219, slots);
        assert(("\n            ::leaf_core::RetryPolicy::new("@ + (decimal(max as nat) + "u32"@) + ("),\n            "@ + delay_source(d) + ",\n        );"@)) =~= "\n            ::leaf_core::RetryPolicy::new("@ + (decimal(max as nat) + "u32"@) + "),\n            "@ + delay_source(d) + ",\n        );"@);
    }
    assert(stands_in(".with_return_classifier(::leaf_resilience::result_classifier::<"@ + ok + ">());"@,filled(RETRY_MAKE@, no_slots().push(("max"@, decimal(max as nat) + "u32"@)).push(    ("backoff"@, delay_source(d)),).push(("ok"@, ok))))) by {
        reveal_strlit("ok");
        reveal_strlit(".with_return_classifier(::leaf_resilience::result_classifier::<");
        reveal_strlit(">());");
        let p1 = ">());"@;
        let p0 = ".with_return_classifier(::leaf_resilience::result_classifier::<"@ + seq!['#'] + "ok"@ + p1;
        filled_plain(p1, slots);
        filled_step(".with_return_classifier(::leaf_resilience::result_classifier::<"@, "ok"@, p1, slots);
        filled_part(t, 374, 445, slots);
        assert((".with_return_classifier(::leaf_resilience::result_classifier::<"@ + ok + ">());"@) =~= ".with_return_classifier(::leaf_resilience::result_classifier::<"@ + ok + ">());"@);
    }
}

/// A delay is printed as the policy of its kind, with its own number of milliseconds and its factor.
pub proof fn delay_reads_back(ms: u64, mult: Seq<char>)
    ensures
        delay_source(Delay::Immediate)
            == "::std::sync::Arc::new(::leaf_resilience::NoBackoff) as ::std::sync::Arc<dyn ::leaf_core::BackoffPolicy>"@,
        behind(
            delay_source(Delay::Fixed(ms)),
            "::std::sync::Arc::new(::leaf_resilience::FixedBackoff { delay: ::core::time::Duration::from_millis("@,
        ) matches Some(rest) && leading_number(rest) == Some(
            (
                ms as nat,
                "u64) }) as ::std::sync::Arc<dyn ::leaf_core::BackoffPolicy>"@,
            ),
        ),
        behind(
            delay_source(Delay::Exponential { base_ms: ms, mult }),
            "::std::sync::Arc::new(::leaf_resilience::ExponentialBackoff::new(::core::time::Duration::from_millis("@,
        ) matches Some(rest) && leading_number(rest) == Some(
            (
                ms as nat,
                "u64), "@ + mult + "f64)) as ::std::sync::Arc<dyn ::leaf_core::BackoffPolicy>"@,
            ),
        ),
{
    let fixed =
        "::std::sync::Arc::new(::leaf_resilience::FixedBackoff { delay: ::core::time::Duration::from_millis("@;
    let growing =
        "::std::sync::Arc::new(::leaf_resilience::ExponentialBackoff::new(::core::time::Duration::from_millis("@;
    let a = "u64) }) as ::std::sync::Arc<dyn ::leaf_core::BackoffPolicy>"@;
    let b = "u64), "@ + mult + "f64)) as ::std::sync::Arc<dyn ::leaf_core::BackoffPolicy>"@;
    reveal_strlit("u64) }) as ::std::sync::Arc<dyn ::leaf_core::BackoffPolicy>");
    reveal_strlit("u64), ");
    assert(!is_digit(a[0]));
    assert(b[0] == "u64), "@[0]);
    assert(!is_digit(b[0]));
    assert(delay_source(Delay::Fixed(ms)) =~= fixed + (decimal(ms as nat) + a));
    assert(delay_source(Delay::Exponential { base_ms: ms, mult }) =~= growing + (decimal(ms as nat)
        + b));
    behind_front(fixed, decimal(ms as nat) + a);
    behind_front(growing, decimal(ms as nat) + b);
    decimal_is_read(ms as nat, a);
    decimal_is_read(ms as nat, b);
}

/// The advisors of limits.
pub open spec fn limit_family() -> Family {
    Family {
        tag: "LIMIT",
        base: "leaf::resilience::ConcurrencyLimitAdvisor",
        pointcut: "::leaf_resilience::ResiliencePointcut",
        order: "::leaf_resilience::concurrency_order_key()",
    }
}

/// The row of a method of which only so many calls run at a time, as a bean of the type
/// `gate` lets them, which is read as the given form.
pub open spec fn limit_source_of(
    gate: Seq<char>,
    form: Result<TypeForm, Seq<char>>,
    bean: Seq<char>,
    self_ty: Seq<char>,
    sig: Sig,
) -> Result<Seq<char>, Seq<char>> {
    match form {
        Err(message) => Err("`gate` is not a type: "@ + message),
        Ok(_) => Ok(
            advisor_source(
                limit_family(),
                ""@,
                "::leaf_resilience::make_concurrency_interceptor::<"@ + gate + ">()"@,
                bean,
                self_ty,
                sig.path,
            ),
        ),
    }
}

/// The row of a method of which only so many calls run at a time.
pub open spec fn limit_source(
    gate: Option<Seq<char>>,
    bean: Seq<char>,
    self_ty: Seq<char>,
    sig: Sig,
) -> Result<Seq<char>, Seq<char>> {
    let gate = match gate {
        Some(gate) => gate,
        None => ""@,
    };
    limit_source_of(gate, type_in(gate), bean, self_ty, sig)
}

/// Prints the row of a method of which only so many calls run at a time, as a bean of the type
/// `gate` lets them, which is read as the given form.
pub fn emit_concurrency_limit_of(
    gate: &str,
    shape: &Result<TypeShape, String>,
    bean_ident: &str,
    self_ty: &str,
    sig: &MethodSig,
) -> (res: Result<String, EmitError>)
    ensures
        told(res) == limit_source_of(
            gate@,
            crate::syntax::outcome(*shape),
            bean_ident@,
            self_ty@,
            sig@,
        ),
{
    if let Err(message) = shape {
        return error("`gate` is not a type: ".to_string().concat(message.as_str()));
    }
    let make = "::leaf_resilience::make_concurrency_interceptor::<".to_string().concat(
        gate,
    ).concat(">()");
    let family = Family {
        tag: "LIMIT",
        base: "leaf::resilience::ConcurrencyLimitAdvisor",
        pointcut: "::leaf_resilience::ResiliencePointcut",
        order: "::leaf_resilience::concurrency_order_key()",
    };
    Ok(emit_advisor(&family, "", make.as_str(), bean_ident, self_ty, sig))
}

/// Prints the row of a method of which only so many calls run at a time.
pub fn emit_concurrency_limit(
    args: &ConcurrencyLimitArgs,
    bean_ident: &str,
    self_ty: &str,
    sig: &MethodSig,
) -> (res: Result<String, EmitError>)
    ensures
        told(res) == limit_source(args@, bean_ident@, self_ty@, sig@),
{
    let gate = match &args.gate {
        Some(gate) => gate.as_str(),
        None => "",
    };
    emit_concurrency_limit_of(gate, &type_shape(gate), bean_ident, self_ty, sig)
}

/// Each concern comes from its own family, with the interceptor that its attribute asks for: one of
/// the manager that is named, or of any where it is a trait object, one of the first argument, or
/// one of its `gate`.
pub proof fn concerns_have_their_interceptors(
    manager: Seq<char>,
    ok: Seq<char>,
    gate: Seq<char>,
    form: TypeForm,
    arg: Seq<char>,
    bean: Seq<char>,
    self_ty: Seq<char>,
    sig: Sig,
)
    ensures
        tx_make((manager, false), ok) == "::leaf_tx::make_transaction_interceptor_for::<"@ + manager
            + ", "@ + ok + ">()"@,
        tx_make((manager, true), ok) == "::leaf_tx::make_transaction_interceptor_for_view::<"@ + ok
            + ">()"@,
        transactional_source_of(Some((manager, false)), Ok(form), bean, self_ty, sig) == Ok::<
            Seq<char>,
            Seq<char>,
        >(
            advisor_source(
                tx_family(),
                ""@,
                tx_make((manager, false), ok_type(sig.ret, Ok(form))),
                bean,
                self_ty,
                sig.path,
            ),
        ),
        transactional_source_of(None, Ok(form), bean, self_ty, sig) is Err,
        validated_source(bean, self_ty, Sig { arg: Some(arg), ..sig }) == Ok::<Seq<char>, Seq<char>>(
            advisor_source(
                validation_family(),
                ""@,
                "::leaf_validation::single_arg_make_interceptor::<"@ + arg + ">()"@,
                bean,
                self_ty,
                sig.path,
            ),
        ),
        validated_source(bean, self_ty, Sig { arg: None, ..sig }) is Err,
        limit_source_of(gate, Ok(form), bean, self_ty, sig) == Ok::<Seq<char>, Seq<char>>(
            advisor_source(
                limit_family(),
                ""@,
                "::leaf_resilience::make_concurrency_interceptor::<"@ + gate + ">()"@,
                bean,
                self_ty,
                sig.path,
            ),
        ),
        limit_source_of(gate, Err(arg), bean, self_ty, sig) is Err,
{
}

/// The families of concerns have their own tags, contracts, pointcuts and orders.
pub proof fn families_are_those_of_the_concerns()
    ensures
        tx_family().tag@ == "TX"@ && tx_family().base@ == "leaf::tx::TransactionAdvisor"@
            && tx_family().pointcut@ == "::leaf_tx::TxPointcut"@ && tx_family().order@
            == "::leaf_tx::tx_order_key()"@,
        cache_family().tag@ == "CACHE"@ && cache_family().base@ == "leaf::cache::CacheAdvisor"@
            && cache_family().pointcut@ == "::leaf_cache::CachePointcut"@ && cache_family().order@
            == "::leaf_cache::cache_order_key()"@,
        validation_family().tag@ == "VALID"@ && validation_family().base@
            == "leaf::validation::MethodValidationAdvisor"@ && validation_family().pointcut@
            == "::leaf_validation::ValidationPointcut"@ && validation_family().order@
            == "::leaf_validation::validation_order_key()"@,
        retry_family().tag@ == "RETRY"@ && retry_family().base@ == "leaf::resilience::RetryAdvisor"@
            && retry_family().pointcut@ == "::leaf_resilience::ResiliencePointcut"@
            && retry_family().order@ == "::leaf_resilience::retry_order_key()"@,
        limit_family().tag@ == "LIMIT"@ && limit_family().base@
            == "leaf::resilience::ConcurrencyLimitAdvisor"@ && limit_family().pointcut@
            == "::leaf_resilience::ResiliencePointcut"@ && limit_family().order@
            == "::leaf_resilience::concurrency_order_key()"@,
{
}

/// The row of a concern of a method.
pub open spec fn concern_source(
    concern: Concern,
    attr: Seq<char>,
    bean: Seq<char>,
    self_ty: Seq<char>,
    sig: Sig,
) -> Result<Seq<char>, Seq<char>> {
    match concern {
        Concern::Transactional => match transactional_arguments(attr) {
            Ok(manager) => transactional_source(manager, bean, self_ty, sig),
            Err(message) => Err(message),
        },
        Concern::Cacheable | Concern::CachePut | Concern::CacheEvict => match cache_arguments(
            attr,
            concern,
        ) {
            Ok(cached) => cache_source(concern, cached, bean, self_ty, sig),
            Err(message) => Err(message),
        },
        Concern::Validated => match items_in(attr, "validated"@) {
            Ok(items) => if items.len() == 0 {
                validated_source(bean, self_ty, sig)
            } else {
                Err("#[validated] takes no arguments"@)
            },
            Err(message) => Err(message),
        },
        Concern::Retryable => match retryable_arguments(attr) {
            Ok(args) => Ok(retryable_source(args, bean, self_ty, sig)),
            Err(message) => Err(message),
        },
        Concern::ConcurrencyLimit => match limit_arguments(attr) {
            Ok(gate) => limit_source(gate, bean, self_ty, sig),
            Err(message) => Err(message),
        },
    }
}

/// A concern is printed from what its own attribute says, by its own family: the interceptor of a
/// transaction is that of its manager, that of a cache of its settings, that of a limit of its
/// `gate`. Anything said of a validation is refused.
pub proof fn concern_is_printed_from_its_attribute(
    concern: Concern,
    attr: Seq<char>,
    manager: (Seq<char>, bool),
    c: Cached,
    key: Seq<char>,
    args: (u32, Delay),
    gate: Seq<char>,
    bean: Seq<char>,
    self_ty: Seq<char>,
    sig: Sig,
)
    requires
        c.manager == Some(manager),
    ensures
        transactional_arguments(attr) == Ok::<Option<(Seq<char>, bool)>, Seq<char>>(Some(manager))
            ==> concern_source(Concern::Transactional, attr, bean, self_ty, sig) == Ok::<
            Seq<char>,
            Seq<char>,
        >(
            advisor_source(
                tx_family(),
                ""@,
                tx_make(manager, ok_type(sig.ret, type_in(sig.ret))),
                bean,
                self_ty,
                sig.path,
            ),
        ),
        (concern == Concern::Cacheable || concern == Concern::CachePut || concern
            == Concern::CacheEvict) && cache_arguments(attr, concern) == Ok::<Cached, Seq<char>>(c)
            && key_fn(concern, c.key, sig.arg) == Ok::<Seq<char>, Seq<char>>(key)
            ==> concern_source(concern, attr, bean, self_ty, sig) == Ok::<Seq<char>, Seq<char>>(
            advisor_source(
                cache_family(),
                cache_meta(
                    "__LEAF_CACHE_META_"@ + mangled(bean + "_"@ + last_segment(sig.path)),
                    c,
                ),
                cache_make(
                    concern,
                    manager,
                    "__LEAF_CACHE_META_"@ + mangled(bean + "_"@ + last_segment(sig.path)),
                    key,
                    sig,
                ),
                bean,
                self_ty,
                sig.path,
            ),
        ),
        items_in(attr, "validated"@) == Ok::<Seq<ItemForm>, Seq<char>>(Seq::empty())
            ==> concern_source(Concern::Validated, attr, bean, self_ty, sig) == validated_source(
            bean,
            self_ty,
            sig,
        ),
        items_in(attr, "validated"@) is Ok && items_in(attr, "validated"@)->Ok_0.len() > 0
            ==> concern_source(Concern::Validated, attr, bean, self_ty, sig) is Err,
        retryable_arguments(attr) == Ok::<(u32, Delay), Seq<char>>(args) ==> concern_source(
            Concern::Retryable,
            attr,
            bean,
            self_ty,
            sig,
        ) == Ok::<Seq<char>, Seq<char>>(
            advisor_source(
                retry_family(),
                ""@,
                filled(
                    RETRY_MAKE@,
                    no_slots().push(("max"@, decimal(args.0 as nat) + "u32"@)).push(
                        ("backoff"@, delay_source(args.1)),
                    ).push(("ok"@, ok_type(sig.ret, type_in(sig.ret)))),
                ),
                bean,
                self_ty,
                sig.path,
            ),
        ),
        limit_arguments(attr) == Ok::<Option<Seq<char>>, Seq<char>>(Some(gate)) && type_in(
            gate,
        ) is Ok ==> concern_source(Concern::ConcurrencyLimit, attr, bean, self_ty, sig) == Ok::<
            Seq<char>,
            Seq<char>,
        >(
            advisor_source(
                limit_family(),
                ""@,
                "::leaf_resilience::make_concurrency_interceptor::<"@ + gate + ">()"@,
                bean,
                self_ty,
                sig.path,
            ),
        ),
        transactional_arguments(attr) is Err ==> concern_source(
            Concern::Transactional,
            attr,
            bean,
            self_ty,
            sig,
        ) is Err,
        retryable_arguments(attr) is Err ==> concern_source(
            Concern::Retryable,
            attr,
            bean,
            self_ty,
            sig,
        ) is Err,
        limit_arguments(attr) is Err ==> concern_source(
            Concern::ConcurrencyLimit,
            attr,
            bean,
            self_ty,
            sig,
        ) is Err,
{
    reveal_strlit("__LEAF_");
    reveal_strlit("CACHE");
    reveal_strlit("_META_");
    reveal_strlit("__LEAF_CACHE_META_");
    assert("__LEAF_"@ + "CACHE"@ + "_META_"@ =~= "__LEAF_CACHE_META_"@);
}

/// Prints the row of a concern of a method.
pub fn emit_concern(
    concern: Concern,
    args_attr: &str,
    bean_ident: &str,
    self_ty: &str,
    sig: &MethodSig,
) -> (res: Result<String, EmitError>)
    ensures
        told(res) == concern_source(concern, args_attr@, bean_ident@, self_ty@, sig@),
{
    match concern {
        Concern::Transactional => match parse_transactional(args_attr) {
            Ok(args) => emit_transactional(&args, bean_ident, self_ty, sig),
            Err(e) => Err(e),
        },
        Concern::Cacheable | Concern::CachePut | Concern::CacheEvict => match parse_cache(
            args_attr,
            concern,
        ) {
            Ok(args) => emit_cache(concern, &args, bean_ident, self_ty, sig),
            Err(e) => Err(e),
        },
        Concern::Validated => match attr_items(args_attr, "validated") {
            Ok(items) => if items.len() == 0 {
                emit_validated(bean_ident, self_ty, sig)
            } else {
                error("#[validated] takes no arguments".to_string())
            },
            Err(e) => Err(e),
        },
        Concern::Retryable => match parse_retryable(args_attr) {
            Ok(args) => emit_retryable(&args, bean_ident, self_ty, sig),
            Err(e) => Err(e),
        },
        Concern::ConcurrencyLimit => match parse_concurrency_limit(args_attr) {
            Ok(args) => emit_concurrency_limit(&args, bean_ident, self_ty, sig),
            Err(e) => Err(e),
        },
    }
}

} // verus!
