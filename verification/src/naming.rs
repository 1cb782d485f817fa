//! Names of generated items, and the pieces of source that many of them share.
use vstd::prelude::*;

use crate::chars::{
    ascii_alphanumeric, is_ascii_alphanumeric, is_uppercase, lower, lowered, uppercase,
};
use crate::reading::{
    behind, behind_front, decimal_is_read, is_digit, joined_lists, leading_number, lists, within,
    within_brackets,
};
use crate::syntax::{literal_source, string_literal};
use crate::text::{chars_of, decimal, join, join_texts, signed_decimal, signed_text, slice_text};

verus! {

/// `name` with `_` in place of whatever is neither an ASCII letter, a digit nor `_`.
pub open spec fn mangled(name: Seq<char>) -> Seq<char> {
    Seq::new(
        name.len(),
        |i: int|
            if ascii_alphanumeric(name[i]) || name[i] == '_' {
                name[i]
            } else {
                '_'
            },
    )
}

/// Makes a name safe as a part of an identifier.
pub fn mangle(name: &str) -> (res: String)
    ensures
        res@ == mangled(name@),
{
    let chars = chars_of(name);
    let mut out = String::new();
    let mut i: usize = 0;
    while i < chars.len()
        invariant
            chars@ == name@,
            i <= chars.len(),
            out@ == mangled(name@).take(i as int),
        decreases chars.len() - i,
    {
        let c = chars[i];
        if is_ascii_alphanumeric(c) || c == '_' {
            out.push(c);
        } else {
            out.push('_');
        }
        assert(out@ =~= mangled(name@).take(i + 1));
        i += 1;
    }
    assert(mangled(name@).take(i as int) =~= mangled(name@));
    out
}

/// `name` is made of ASCII letters, digits and `_`.
pub open spec fn is_plain(name: Seq<char>) -> bool {
    forall|i: int|
        0 <= i < name.len() ==> ascii_alphanumeric(#[trigger] name[i]) || name[i] == '_'
}

/// A name of ASCII letters, digits and `_` is left as it is.
pub proof fn mangled_is_kept(name: Seq<char>)
    requires
        is_plain(name),
    ensures
        mangled(name) == name,
{
    assert(mangled(name) =~= name);
}

/// Two names of ASCII letters, digits and `_` are not mangled into one.
pub proof fn plain_names_differ(a: Seq<char>, b: Seq<char>)
    requires
        is_plain(a),
        is_plain(b),
        mangled(a) == mangled(b),
    ensures
        a == b,
{
    mangled_is_kept(a);
    mangled_is_kept(b);
}

/// Where what follows the last `::` in `path.take(n)` begins.
pub open spec fn segment_start(path: Seq<char>, n: nat) -> nat
    decreases n,
{
    if n < 2 {
        0
    } else if path[n - 1] == ':' && path[n - 2] == ':' {
        n
    } else {
        segment_start(path, (n - 1) as nat)
    }
}

/// What follows the last `::` of a path.
pub open spec fn last_segment(path: Seq<char>) -> Seq<char> {
    path.skip(segment_start(path, path.len()) as int)
}

/// What follows the last `::` of a path.
pub fn last_segment_text(path: &str) -> (res: &str)
    ensures
        res@ == last_segment(path@),
{
    let len = path.unicode_len();
    let mut n: usize = len;
    while n >= 2 && !(path.get_char(n - 1) == ':' && path.get_char(n - 2) == ':')
        invariant
            n <= len == path@.len(),
            segment_start(path@, len as nat) == segment_start(path@, n as nat),
        decreases n,
    {
        n -= 1;
    }
    let start: usize = if n >= 2 {
        n
    } else {
        0
    };
    path.substring_char(start, len)
}

/// The contract id of `ident` in the module that the source is placed in.
pub open spec fn contract_here(ident: Seq<char>) -> Seq<char> {
    "::leaf_core::ContractId::of(::core::concat!(::core::module_path!(), \"::\", "@
        + literal_source(ident) + "))"@
}

/// Prints the contract id of `ident` in the module that the source is placed in.
pub fn contract_text(ident: &str) -> (res: String)
    ensures
        res@ == contract_here(ident@),
{
    let name = string_literal(ident);
    "::leaf_core::ContractId::of(::core::concat!(::core::module_path!(), \"::\", "
        .to_string().concat(name.as_str()).concat("))")
}

/// The type id of a type.
pub open spec fn type_id_source(ty: Seq<char>) -> Seq<char> {
    "const { ::core::any::TypeId::of::<"@ + ty + ">() }"@
}

/// Prints the type id of a type.
pub fn type_id_text(ty: &str) -> (res: String)
    ensures
        res@ == type_id_source(ty@),
{
    "const { ::core::any::TypeId::of::<".to_string().concat(ty).concat(">() }")
}

/// An order that was given.
pub open spec fn given_order(n: i32) -> Seq<char> {
    "::leaf_core::OrderKey { value: "@ + signed_decimal(n as int)
        + "i32, source: ::leaf_core::OrderSource::Annotation }"@
}

/// Prints an order that was given.
pub fn given_order_text(n: i32) -> (res: String)
    ensures
        res@ == given_order(n),
{
    let value = signed_text(n as i64);
    "::leaf_core::OrderKey { value: ".to_string().concat(value.as_str()).concat(
        "i32, source: ::leaf_core::OrderSource::Annotation }",
    )
}

/// An item is identified by the module it stands in and its own name, and a type by itself.
pub proof fn ids_name_what_they_identify(ident: Seq<char>, ty: Seq<char>)
    ensures
        within(
            contract_here(ident),
            "::leaf_core::ContractId::of(::core::concat!(::core::module_path!(), \"::\", "@,
            "))"@,
        ) == Some(literal_source(ident)),
        within(type_id_source(ty), "const { ::core::any::TypeId::of::<"@, ">() }"@) == Some(ty),
{
    within_brackets(
        "::leaf_core::ContractId::of(::core::concat!(::core::module_path!(), \"::\", "@,
        literal_source(ident),
        "))"@,
    );
    within_brackets("const { ::core::any::TypeId::of::<"@, ty, ">() }"@);
}

/// An order that was given is read back, with its sign, and is marked as given.
pub proof fn given_order_reads_back(n: i32)
    ensures
        n >= 0 ==> (behind(given_order(n), "::leaf_core::OrderKey { value: "@) matches Some(rest)
            && leading_number(rest) == Some(
            (n as nat, "i32, source: ::leaf_core::OrderSource::Annotation }"@),
        )),
        n < 0 ==> (behind(given_order(n), "::leaf_core::OrderKey { value: "@ + seq!['-']) matches Some(
            rest,
        ) && leading_number(rest) == Some(
            ((-n) as nat, "i32, source: ::leaf_core::OrderSource::Annotation }"@),
        )),
{
    let front = "::leaf_core::OrderKey { value: "@;
    let back = "i32, source: ::leaf_core::OrderSource::Annotation }"@;
    reveal_strlit("i32, source: ::leaf_core::OrderSource::Annotation }");
    assert(!is_digit(back[0]));
    if n >= 0 {
        assert(given_order(n) =~= front + (decimal(n as nat) + back));
        behind_front(front, decimal(n as nat) + back);
        decimal_is_read(n as nat, back);
    } else {
        let m = (-n) as nat;
        assert(given_order(n) =~= front + seq!['-'] + (decimal(m) + back));
        behind_front(front + seq!['-'], decimal(m) + back);
        decimal_is_read(m, back);
    }
}

/// What follows the last `::` of a path is its last segment; a path without one is its own.
pub proof fn last_segment_follows_the_path(path: Seq<char>, name: Seq<char>)
    requires
        !name.contains(':'),
    ensures
        last_segment(path + seq![':', ':'] + name) == name,
        last_segment(name) == name,
{
    let whole = path + seq![':', ':'] + name;
    let n = path.len() + 2;
    segment_starts(whole, n, whole.len());
    segment_starts(name, 0, name.len());
    assert(whole[n - 1] == ':' && whole[n - 2] == ':');
    assert(whole.skip(n as int) =~= name);
    assert(name.skip(0) =~= name);
}

/// No segment starts in a stretch without colons.
proof fn segment_starts(path: Seq<char>, from: nat, n: nat)
    requires
        from <= n <= path.len(),
        !path.subrange(from as int, n as int).contains(':'),
    ensures
        segment_start(path, n) == segment_start(path, from),
    decreases n,
{
    let part = path.subrange(from as int, n as int);
    if n > from {
        assert(part[n - 1 - from] == path[n - 1]);
        assert(part.contains(path[n - 1]));
        assert(path[n - 1] != ':');
        let shorter = path.subrange(from as int, n - 1);
        assert forall|i: int| 0 <= i < shorter.len() implies shorter[i] != ':' by {
            assert(part[i] == shorter[i]);
            assert(part.contains(part[i]));
        }
        segment_starts(path, from, (n - 1) as nat);
    }
}

/// A mangled name has the length of the name, and is made of ASCII letters, digits and `_`.
pub proof fn mangled_is_plain(name: Seq<char>)
    ensures
        is_plain(mangled(name)),
        mangled(name).len() == name.len(),
        forall|i: int|
            0 <= i < name.len() && !(ascii_alphanumeric(name[i]) || name[i] == '_') ==> #[trigger] mangled(
                name,
            )[i] == '_',
{
    assert forall|i: int| 0 <= i < mangled(name).len() implies ascii_alphanumeric(
        #[trigger] mangled(name)[i],
    ) || mangled(name)[i] == '_' by {}
}

/// The string literals of texts.
pub open spec fn literals(texts: Seq<Seq<char>>) -> Seq<Seq<char>> {
    Seq::new(texts.len(), |i: int| literal_source(texts[i]))
}

/// The string literals of texts, with commas between them.
pub open spec fn literal_list(texts: Seq<Seq<char>>) -> Seq<char> {
    join(literals(texts), ", "@)
}

/// A list of texts holds the literal of each, in their order.
pub proof fn texts_are_listed(texts: Seq<Seq<char>>)
    ensures
        lists(
            literal_list(texts),
            Seq::new(texts.len(), |i: int| literal_source(texts[i])),
            ", "@,
        ),
{
    assert(literals(texts) =~= Seq::new(texts.len(), |i: int| literal_source(texts[i])));
    joined_lists(literals(texts), ", "@);
}

/// Prints the string literals of texts, with commas between them.
pub fn literal_list_text(texts: &[String]) -> (res: String)
    ensures
        res@ == literal_list(texts.deep_view()),
{
    let mut out: Vec<String> = Vec::new();
    let mut i: usize = 0;
    while i < texts.len()
        invariant
            i <= texts@.len(),
            out@.len() == i,
            forall|k: int| 0 <= k < i ==> (#[trigger] out@[k])@ == literal_source(texts@[k]@),
        decreases texts@.len() - i,
    {
        out.push(string_literal(texts[i].as_str()));
        i += 1;
    }
    assert(out.deep_view() =~= literals(texts.deep_view()));
    join_texts(out.as_slice(), ", ")
}

/// The name that a bean has by default: its identifier with the first letter in lower
/// case. An identifier that begins with two upper-case letters is left as it is.
pub open spec fn default_name(ident: Seq<char>) -> Seq<char> {
    if ident.len() == 0 || (ident.len() >= 2 && uppercase(ident[0]) && uppercase(ident[1])) {
        ident
    } else {
        lowered(ident[0]) + ident.skip(1)
    }
}

/// The default name of a bean differs from its identifier in the case of the first letter at most;
/// an identifier that begins with two upper-case letters keeps that one too.
pub proof fn default_name_keeps_the_rest(first: char, rest: Seq<char>)
    ensures
        rest.len() > 0 && uppercase(first) && uppercase(rest[0]) ==> default_name(
            seq![first] + rest,
        ) == seq![first] + rest,
        rest.len() == 0 || !uppercase(first) || !uppercase(rest[0]) ==> default_name(
            seq![first] + rest,
        ) == lowered(first) + rest,
        default_name(Seq::empty()) == Seq::<char>::empty(),
{
    let ident = seq![first] + rest;
    assert(ident.skip(1) =~= rest);
    if rest.len() > 0 {
        assert(ident[1] == rest[0]);
    }
}

/// The name that a bean has by default.
pub fn derive_default_name(ident: &str) -> (res: String)
    ensures
        res@ == default_name(ident@),
{
    let chars = chars_of(ident);
    if chars.len() == 0 {
        return ident.to_string();
    }
    if chars.len() >= 2 && is_uppercase(chars[0]) && is_uppercase(chars[1]) {
        return ident.to_string();
    }
    let rest = slice_text(&chars, 1, chars.len());
    assert(rest@ =~= ident@.skip(1));
    lower(chars[0]).concat(rest.as_str())
}

} // verus!
