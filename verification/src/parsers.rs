//! Value templates with `${..}` and `#{..}` parts, and message bundles.
use vstd::prelude::*;

use crate::chars::{
    ended_lines_from, last_line, lines, lines_of, lines_of_two_texts, number,
    numeral_stands_for_its_number, parse_number, trim, trim_end, trim_end_of_tail, trim_keeps_what_is_tight, trim_of_white, trim_start, trim_start_is_a_tail, trimmed,
    trimmed_start, white_space, without_return,
};
use crate::reading::{
    decimal_reads_back, encloses, is_digit, list_is_enclosed, within, within_brackets,
};
use crate::syntax::{debug_source, debug_text, literal_source, string_literal};
use crate::text::{chars_of, decimal, join, join_texts, slice_text};

verus! {

/// A part of a value template.
#[derive(Clone, Debug, PartialEq, Eq)]
pub enum Segment {
    /// Text that stands for itself.
    Literal(String),
    /// `${key}` or `${key:default}`.
    Placeholder { key: String, default: Option<String> },
    /// `#{body}`.
    Expr(String),
}

/// What a [`Segment`] stands for.
pub ghost enum Part {
    Literal(Seq<char>),
    Placeholder { key: Seq<char>, default: Option<Seq<char>> },
    Expr(Seq<char>),
}

impl View for Segment {
    type V = Part;

    open spec fn view(&self) -> Part {
        match self {
            Segment::Literal(s) => Part::Literal(s@),
            Segment::Placeholder { key, default } => Part::Placeholder {
                key: key@,
                default: default.deep_view(),
            },
            Segment::Expr(s) => Part::Expr(s@),
        }
    }
}

impl DeepView for Segment {
    type V = Part;

    open spec fn deep_view(&self) -> Part {
        self.view()
    }
}

/// A text that could not be read.
#[derive(Clone, Debug, PartialEq, Eq)]
pub struct ParseError {
    /// The explanation for a reader.
    pub message: String,
}

/// The length of the body that ends at the brace which closes `depth` open ones. A
/// backslash takes the next character along, whatever it is.
pub open spec fn body_len(t: Seq<char>, depth: nat) -> Option<nat>
    decreases t.len(),
{
    if t.len() == 0 {
        None
    } else if t[0] == '\\' && t.len() >= 2 {
        match body_len(t.skip(2), depth) {
            Some(n) => Some(n + 2),
            None => None,
        }
    } else if t[0] == '}' && depth <= 1 {
        Some(0)
    } else {
        let inside = if t[0] == '{' {
            depth + 1
        } else if t[0] == '}' {
            (depth - 1) as nat
        } else {
            depth
        };
        match body_len(t.skip(1), inside) {
            Some(n) => Some(n + 1),
            None => None,
        }
    }
}

/// Where the first `:` outside of braces stands that no backslash takes along.
pub open spec fn separator(t: Seq<char>, depth: nat) -> Option<nat>
    decreases t.len(),
{
    if t.len() == 0 {
        None
    } else if t[0] == '\\' && t.len() >= 2 {
        match separator(t.skip(2), depth) {
            Some(n) => Some(n + 2),
            None => None,
        }
    } else if t[0] == ':' && depth == 0 {
        Some(0)
    } else {
        let inside = if t[0] == '{' {
            depth + 1
        } else if t[0] == '}' && depth > 0 {
            (depth - 1) as nat
        } else {
            depth
        };
        match separator(t.skip(1), inside) {
            Some(n) => Some(n + 1),
            None => None,
        }
    }
}

/// The placeholder with the given body: what stands before the separator is the key,
/// what stands behind it is the default.
pub open spec fn placeholder(body: Seq<char>) -> Part {
    match separator(body, 0) {
        Some(n) if n < body.len() => Part::Placeholder {
            key: body.take(n as int),
            default: Some(body.skip((n + 1) as int)),
        },
        _ => Part::Placeholder { key: body, default: None },
    }
}

/// `text` as a part, where there is any.
pub open spec fn literal_parts(text: Seq<char>) -> Seq<Part> {
    if text.len() == 0 {
        Seq::empty()
    } else {
        seq![Part::Literal(text)]
    }
}

/// `done` in front of what follows, unless that is an error.
pub open spec fn after(done: Seq<Part>, rest: Result<Seq<Part>, char>) -> Result<Seq<Part>, char> {
    match rest {
        Ok(parts) => Ok(done + parts),
        Err(kind) => Err(kind),
    }
}

/// The parts of `t` where `literal` is the text that has been read since the last
/// part. An error is the character before a brace that is never closed.
pub open spec fn parts_from(t: Seq<char>, literal: Seq<char>) -> Result<Seq<Part>, char>
    decreases t.len(),
{
    if t.len() == 0 {
        Ok(literal_parts(literal))
    } else if t[0] == '\\' && t.len() >= 2 {
        parts_from(t.skip(2), literal.push(t[1]))
    } else if (t[0] == '$' || t[0] == '#') && t.len() >= 2 && t[1] == '{' {
        match body_len(t.skip(2), 1) {
            Some(n) if n + 3 <= t.len() => {
                let body = t.subrange(2, (n + 2) as int);
                let part = if t[0] == '$' {
                    placeholder(body)
                } else {
                    Part::Expr(body)
                };
                after(literal_parts(literal).push(part), parts_from(t.skip((n + 3) as int), Seq::empty()))
            },
            _ => Err(t[0]),
        }
    } else {
        parts_from(t.skip(1), literal.push(t[0]))
    }
}

/// The parts of a value template.
pub open spec fn parts(t: Seq<char>) -> Result<Seq<Part>, char> {
    parts_from(t, Seq::empty())
}

/// The message for a brace that is never closed.
pub open spec fn unterminated(kind: char) -> Seq<char> {
    "unterminated `"@ + seq![kind] + "{` in value template (missing `}`)"@
}

/// A body ends before the text does.
proof fn body_len_bound(t: Seq<char>, depth: nat)
    ensures
        match body_len(t, depth) {
            Some(n) => n < t.len() && t[n as int] == '}',
            None => true,
        },
    decreases t.len(),
{
    if t.len() == 0 {
    } else if t[0] == '\\' && t.len() >= 2 {
        body_len_bound(t.skip(2), depth);
    } else if t[0] == '}' && depth <= 1 {
    } else {
        let inside = if t[0] == '{' {
            depth + 1
        } else if t[0] == '}' {
            (depth - 1) as nat
        } else {
            depth
        };
        body_len_bound(t.skip(1), inside);
    }
}

/// A separator stands inside the text, and is a colon.
proof fn separator_bound(t: Seq<char>, depth: nat)
    ensures
        match separator(t, depth) {
            Some(n) => n < t.len() && t[n as int] == ':',
            None => true,
        },
    decreases t.len(),
{
    if t.len() == 0 {
    } else if t[0] == '\\' && t.len() >= 2 {
        separator_bound(t.skip(2), depth);
    } else if t[0] == ':' && depth == 0 {
    } else {
        let inside = if t[0] == '{' {
            depth + 1
        } else if t[0] == '}' && depth > 0 {
            (depth - 1) as nat
        } else {
            depth
        };
        separator_bound(t.skip(1), inside);
    }
}

/// Where the body that begins at `from` ends.
fn body_end(chars: &[char], from: usize) -> (res: Option<usize>)
    requires
        1 <= from <= chars@.len(),
    ensures
        match res {
            Some(end) => {
                &&& from <= end < chars@.len()
                &&& body_len(chars@.skip(from as int), 1) == Some((end - from) as nat)
            },
            None => body_len(chars@.skip(from as int), 1) is None,
        },
{
    let mut depth: usize = 1;
    let mut i: usize = from;
    while i < chars.len()
        invariant
            1 <= from <= i <= chars@.len(),
            1 <= depth <= i - from + 1,
            body_len(chars@.skip(from as int), 1) == (match body_len(
                chars@.skip(i as int),
                depth as nat,
            ) {
                Some(n) => Some((n + (i - from)) as nat),
                None => None,
            }),
        decreases chars@.len() - i,
    {
        let c = chars[i];
        let ghost here = chars@.skip(i as int);
        if c == '\\' && i + 1 < chars.len() {
            assert(here.skip(2) =~= chars@.skip(i + 2));
            i += 2;
            continue;
        }
        assert(here.skip(1) =~= chars@.skip(i + 1));
        if c == '{' {
            depth += 1;
        } else if c == '}' {
            if depth == 1 {
                return Some(i);
            }
            depth -= 1;
        }
        i += 1;
    }
    None
}

/// Splits the body of a `${..}` at its separator.
fn split_placeholder(body: &str) -> (res: Segment)
    ensures
        res@ == placeholder(body@),
{
    let chars = chars_of(body);
    let mut i: usize = 0;
    let mut depth: usize = 0;
    assert(chars@.skip(0) =~= body@);
    while i < chars.len()
        invariant
            chars@ == body@,
            i <= chars.len(),
            depth <= i,
            separator(body@, 0) == (match separator(chars@.skip(i as int), depth as nat) {
                Some(n) => Some((n + i) as nat),
                None => None,
            }),
        decreases chars.len() - i,
    {
        let c = chars[i];
        let ghost here = chars@.skip(i as int);
        if c == '\\' && i + 1 < chars.len() {
            assert(here.skip(2) =~= chars@.skip(i + 2));
            i += 2;
            continue;
        }
        assert(here.skip(1) =~= chars@.skip(i + 1));
        if c == ':' && depth == 0 {
            let key = slice_text(&chars, 0, i);
            let default = slice_text(&chars, i + 1, chars.len());
            proof {
                assert(key@ =~= body@.take(i as int));
                assert(default@ =~= body@.skip(i + 1));
            }
            return Segment::Placeholder { key, default: Some(default) };
        }
        if c == '{' {
            depth += 1;
        } else if c == '}' && depth > 0 {
            depth -= 1;
        }
        i += 1;
    }
    Segment::Placeholder { key: body.to_string(), default: None }
}

/// A template result as the contracts speak of it.
pub open spec fn template_outcome(res: Result<Vec<Segment>, ParseError>) -> Result<
    Seq<Part>,
    Seq<char>,
> {
    match res {
        Ok(segments) => Ok(segments.deep_view()),
        Err(e) => Err(e.message@),
    }
}

/// The parts, or the message for the brace that is never closed.
pub open spec fn parsed_template(t: Seq<char>) -> Result<Seq<Part>, Seq<char>> {
    match parts(t) {
        Ok(parts) => Ok(parts),
        Err(kind) => Err(unterminated(kind)),
    }
}

/// Splits a value template into its parts.
pub fn parse_value_template(text: &str) -> (res: Result<Vec<Segment>, ParseError>)
    ensures
        template_outcome(res) == parsed_template(text@),
{
    let chars = chars_of(text);
    let mut segments: Vec<Segment> = Vec::new();
    let mut literal = String::new();
    let mut i: usize = 0;
    proof {
        assert(chars@.skip(0) =~= text@);
        assert(segments.deep_view() =~= Seq::<Part>::empty());
        nothing_before(parts_from(text@, literal@));
    }
    while i < chars.len()
        invariant
            chars@ == text@,
            i <= chars.len(),
            parts(text@) == after(
                segments.deep_view(),
                parts_from(chars@.skip(i as int), literal@),
            ),
        decreases chars.len() - i,
    {
        let c = chars[i];
        let ghost here = chars@.skip(i as int);
        if c == '\\' && i + 1 < chars.len() {
            literal.push(chars[i + 1]);
            assert(here.skip(2) =~= chars@.skip(i + 2));
            i += 2;
            continue;
        }
        if (c == '$' || c == '#') && i + 1 < chars.len() && chars[i + 1] == '{' {
            assert(here.skip(2) =~= chars@.skip(i + 2));
            let end = match body_end(&chars, i + 2) {
                Some(end) => end,
                None => {
                    let mut message = "unterminated `".to_string();
                    let mut kind = String::new();
                    kind.push(c);
                    message.append(kind.as_str());
                    message.append("{` in value template (missing `}`)");
                    assert(kind@ =~= seq![c]);
                    return Err(ParseError { message });
                },
            };
            let ghost n = (end - (i + 2)) as nat;
            let ghost before = segments.deep_view();
            let ghost text_so_far = literal@;
            let body = slice_text(&chars, i + 2, end);
            proof {
                assert(body@ =~= here.subrange(2, (n + 2) as int));
                assert(here.skip((n + 3) as int) =~= chars@.skip(end + 1));
            }
            if !literal.as_str().is_empty() {
                segments.push(Segment::Literal(literal));
                literal = String::new();
            }
            assert(segments.deep_view() =~= before + literal_parts(text_so_far));
            let ghost flushed = segments.deep_view();
            let ghost part = if c == '$' {
                placeholder(body@)
            } else {
                Part::Expr(body@)
            };
            if c == '$' {
                segments.push(split_placeholder(body.as_str()));
            } else {
                segments.push(Segment::Expr(body));
            }
            proof {
                assert(segments.deep_view() =~= flushed.push(part));
                assert(literal@ =~= Seq::<char>::empty());
                assert(segments.deep_view() =~= before + literal_parts(text_so_far).push(part));
                after_after(
                    before,
                    literal_parts(text_so_far).push(part),
                    parts_from(chars@.skip(end + 1), Seq::empty()),
                );
            }
            i = end + 1;
            continue;
        }
        literal.push(c);
        assert(here.skip(1) =~= chars@.skip(i + 1));
        i += 1;
    }
    let ghost before = segments.deep_view();
    let ghost text_so_far = literal@;
    if !literal.as_str().is_empty() {
        segments.push(Segment::Literal(literal));
    }
    assert(segments.deep_view() =~= before + literal_parts(text_so_far));
    Ok(segments)
}

/// Nothing in front changes nothing.
proof fn nothing_before(rest: Result<Seq<Part>, char>)
    ensures
        after(Seq::empty(), rest) == rest,
{
    if rest is Ok {
        assert(Seq::<Part>::empty() + rest->Ok_0 =~= rest->Ok_0);
    }
}

/// Parts in front of parts in front of the rest.
proof fn after_after(a: Seq<Part>, b: Seq<Part>, rest: Result<Seq<Part>, char>)
    ensures
        after(a, after(b, rest)) == after(a + b, rest),
{
    if rest is Ok {
        assert(a + (b + rest->Ok_0) =~= a + b + rest->Ok_0);
    }
}

/// Whether one of the parts is an expression.
pub fn has_expr(segments: &[Segment]) -> (res: bool)
    ensures
        res == (exists|i: int| 0 <= i < segments@.len() && (#[trigger] segments@[i])@ is Expr),
{
    let mut i: usize = 0;
    while i < segments.len()
        invariant
            i <= segments@.len(),
            forall|k: int| 0 <= k < i ==> !((#[trigger] segments@[k])@ is Expr),
        decreases segments@.len() - i,
    {
        if let Segment::Expr(_) = &segments[i] {
            assert(segments@[i as int]@ is Expr);
            return true;
        }
        i += 1;
    }
    false
}

/// No empty literal, and no two literals side by side.
pub open spec fn coalesced(parts: Seq<Part>) -> bool {
    &&& forall|i: int|
        0 <= i < parts.len() && #[trigger] parts[i] is Literal ==> parts[i]->Literal_0.len() > 0
    &&& forall|i: int, j: int|
        0 <= i && j == i + 1 && j < parts.len() ==> !(#[trigger] parts[i] is Literal
            && #[trigger] parts[j] is Literal)
}

/// A split template is minimal: it holds no empty literal, and no two literals side by
/// side.
pub proof fn template_is_coalesced(t: Seq<char>)
    ensures
        parts(t) is Ok ==> coalesced(parts(t)->Ok_0),
{
    parts_coalesced(t, Seq::empty());
}

/// [`template_is_coalesced`], in the middle of a literal.
proof fn parts_coalesced(t: Seq<char>, literal: Seq<char>)
    ensures
        parts_from(t, literal) is Ok ==> coalesced(parts_from(t, literal)->Ok_0),
    decreases t.len(),
{
    if t.len() == 0 {
    } else if t[0] == '\\' && t.len() >= 2 {
        parts_coalesced(t.skip(2), literal.push(t[1]));
    } else if (t[0] == '$' || t[0] == '#') && t.len() >= 2 && t[1] == '{' {
        match body_len(t.skip(2), 1) {
            Some(n) if n + 3 <= t.len() => {
                parts_coalesced(t.skip((n + 3) as int), Seq::empty());
            },
            _ => {},
        }
    } else {
        parts_coalesced(t.skip(1), literal.push(t[0]));
    }
}

/// A part as it is written in a template.
pub open spec fn written(part: Part) -> Seq<char> {
    match part {
        Part::Literal(text) => text,
        Part::Placeholder { key, default: None } => "${"@ + key + "}"@,
        Part::Placeholder { key, default: Some(default) } => "${"@ + key + ":"@ + default + "}"@,
        Part::Expr(body) => "#{"@ + body + "}"@,
    }
}

/// Parts as they are written one after the other.
pub open spec fn written_all(parts: Seq<Part>) -> Seq<char>
    decreases parts.len(),
{
    if parts.len() == 0 {
        Seq::empty()
    } else {
        written(parts[0]) + written_all(parts.drop_first())
    }
}

/// Splitting loses nothing: the parts of a template without backslashes, written one
/// after the other, are the template.
pub proof fn template_is_kept(t: Seq<char>)
    requires
        !t.contains('\\'),
    ensures
        parts(t) is Ok ==> written_all(parts(t)->Ok_0) == t,
{
    parts_kept(t, Seq::empty());
    assert(Seq::<char>::empty() + t =~= t);
}

/// Text without backslashes has none behind any of its positions either.
proof fn no_backslash_behind(t: Seq<char>, n: int)
    requires
        !t.contains('\\'),
        0 <= n <= t.len(),
    ensures
        !t.skip(n).contains('\\'),
{
    if t.skip(n).contains('\\') {
        let i = choose|i: int| 0 <= i < t.skip(n).len() && t.skip(n)[i] == '\\';
        assert(t[i + n] == '\\');
    }
}

/// A placeholder is written with its body between the braces.
proof fn placeholder_written(body: Seq<char>)
    ensures
        written(placeholder(body)) == "${"@ + body + "}"@,
{
    separator_bound(body, 0);
    match separator(body, 0) {
        Some(n) if n < body.len() => {
            reveal_strlit(":");
            assert(body =~= body.take(n as int) + ":"@ + body.skip((n + 1) as int));
            assert("${"@ + body + "}"@ =~= "${"@ + body.take(n as int) + ":"@ + body.skip(
                (n + 1) as int,
            ) + "}"@);
        },
        _ => {},
    }
}

/// What is written of parts that follow others.
proof fn written_after(a: Seq<Part>, b: Seq<Part>)
    ensures
        written_all(a + b) == written_all(a) + written_all(b),
    decreases a.len(),
{
    if a.len() == 0 {
        assert(a + b =~= b);
        assert(written_all(a) + written_all(b) =~= written_all(b));
    } else {
        written_after(a.drop_first(), b);
        assert((a + b).drop_first() =~= a.drop_first() + b);
        assert(written(a[0]) + (written_all(a.drop_first()) + written_all(b)) =~= written(a[0])
            + written_all(a.drop_first()) + written_all(b));
    }
}

/// [`template_is_kept`], in the middle of a literal.
#[verifier::spinoff_prover]
#[verifier::rlimit(40)]
proof fn parts_kept(t: Seq<char>, literal: Seq<char>)
    requires
        !t.contains('\\'),
    ensures
        parts_from(t, literal) is Ok ==> written_all(parts_from(t, literal)->Ok_0) == literal + t,
    decreases t.len(),
{
    reveal_with_fuel(written_all, 3);
    if t.len() == 0 {
        assert(literal + t =~= literal);
        if literal.len() == 0 {
            assert(literal =~= Seq::<char>::empty());
        } else {
            assert(literal + Seq::<char>::empty() =~= literal);
        }
    } else {
        assert(t.contains(t[0]));
        if (t[0] == '$' || t[0] == '#') && t.len() >= 2 && t[1] == '{' {
            body_len_bound(t.skip(2), 1);
            match body_len(t.skip(2), 1) {
                Some(n) if n + 3 <= t.len() => {
                    let body = t.subrange(2, (n + 2) as int);
                    let rest = t.skip((n + 3) as int);
                    let part = if t[0] == '$' {
                        placeholder(body)
                    } else {
                        Part::Expr(body)
                    };
                    no_backslash_behind(t, (n + 3) as int);
                    parts_kept(rest, Seq::empty());
                    placeholder_written(body);
                    reveal_strlit("${");
                    reveal_strlit("#{");
                    reveal_strlit("}");
                    assert(t.skip(2)[n as int] == t[(n + 2) as int]);
                    if parts_from(rest, Seq::empty()) is Ok {
                        let more = parts_from(rest, Seq::empty())->Ok_0;
                        let front = literal_parts(literal);
                        assert(Seq::<char>::empty() + rest =~= rest);
                        written_after(front.push(part), more);
                        assert(front.push(part) =~= front + seq![part]);
                        written_after(front, seq![part]);
                        assert(seq![part].drop_first() =~= Seq::<Part>::empty());
                        assert(written_all(seq![part]) =~= written(part));
                        assert(written_all(front) =~= literal) by {
                            if literal.len() > 0 {
                                assert(front.drop_first() =~= Seq::<Part>::empty());
                            }
                        }
                        assert(written(part) + rest =~= t);
                        assert(literal + written(part) + rest =~= literal + (written(part) + rest));
                    }
                },
                _ => {},
            }
        } else {
            no_backslash_behind(t, 1);
            parts_kept(t.skip(1), literal.push(t[0]));
            assert(literal.push(t[0]) + t.skip(1) =~= literal + t);
        }
    }
}

/// `s` with a backslash in front of each character that would otherwise open something.
pub open spec fn escaped(s: Seq<char>) -> Seq<char>
    decreases s.len(),
{
    if s.len() == 0 {
        Seq::empty()
    } else if s[0] == '$' || s[0] == '#' || s[0] == '\\' {
        seq!['\\', s[0]] + escaped(s.skip(1))
    } else {
        seq![s[0]] + escaped(s.skip(1))
    }
}

/// An escaped text is read as literal text, whatever follows.
proof fn escaped_in_front(s: Seq<char>, rest: Seq<char>, literal: Seq<char>)
    ensures
        parts_from(escaped(s) + rest, literal) == parts_from(rest, literal + s),
    decreases s.len(),
{
    let t = escaped(s) + rest;
    if s.len() == 0 {
        assert(t =~= rest);
        assert(literal + s =~= literal);
    } else {
        let behind = escaped(s.skip(1)) + rest;
        if s[0] == '$' || s[0] == '#' || s[0] == '\\' {
            assert(t.skip(2) =~= behind);
            assert(t[0] == '\\' && t[1] == s[0]);
        } else {
            assert(t.skip(1) =~= behind);
            assert(t[0] == s[0]);
        }
        escaped_in_front(s.skip(1), rest, literal.push(s[0]));
        assert(literal.push(s[0]) + s.skip(1) =~= literal + s);
    }
}

/// A text whose openings are escaped stands for itself.
pub proof fn escaped_text_is_literal(s: Seq<char>)
    ensures
        parts(escaped(s)) == Ok::<Seq<Part>, char>(literal_parts(s)),
{
    let none = Seq::<char>::empty();
    escaped_in_front(s, none, none);
    assert(escaped(s) + none =~= escaped(s));
    assert(none + s =~= s);
}

/// The braces in `t` are closed in turn, where `depth` of them stand open in front of it. A
/// backslash takes the next character along, and one stands there.
pub open spec fn balanced(t: Seq<char>, depth: nat) -> bool
    decreases t.len(),
{
    if t.len() == 0 {
        depth == 0
    } else if t[0] == '\\' {
        t.len() >= 2 && balanced(t.skip(2), depth)
    } else if t[0] == '{' {
        balanced(t.skip(1), depth + 1)
    } else if t[0] == '}' {
        depth > 0 && balanced(t.skip(1), (depth - 1) as nat)
    } else {
        balanced(t.skip(1), depth)
    }
}

/// A body with balanced braces reaches to the brace behind it.
proof fn balanced_body_ends(t: Seq<char>, depth: nat, rest: Seq<char>)
    requires
        balanced(t, depth),
    ensures
        body_len(t + seq!['}'] + rest, depth + 1) == Some(t.len()),
    decreases t.len(),
{
    let whole = t + seq!['}'] + rest;
    if t.len() == 0 {
        assert(whole[0] == '}');
    } else {
        assert(whole[0] == t[0]);
        if t[0] == '\\' {
            assert(whole.skip(2) =~= t.skip(2) + seq!['}'] + rest);
            balanced_body_ends(t.skip(2), depth, rest);
        } else {
            assert(whole.skip(1) =~= t.skip(1) + seq!['}'] + rest);
            let inside = if t[0] == '{' {
                depth + 1
            } else if t[0] == '}' {
                (depth - 1) as nat
            } else {
                depth
            };
            balanced_body_ends(t.skip(1), inside, rest);
        }
    }
}

/// A body whose braces are balanced is one part of the kind that its opening says.
proof fn opened_body_is_one_part(text: Seq<char>, c: char, body: Seq<char>, rest: Seq<char>)
    requires
        balanced(body, 0),
        c == '$' || c == '#',
    ensures
        parts(escaped(text) + seq![c, '{'] + body + seq!['}'] + rest) == after(
            literal_parts(text).push(
                if c == '$' {
                    placeholder(body)
                } else {
                    Part::Expr(body)
                },
            ),
            parts(rest),
        ),
{
    let none = Seq::<char>::empty();
    let end = body + seq!['}'] + rest;
    let t = seq![c, '{'] + end;
    balanced_body_ends(body, 0, rest);
    assert(escaped(text) + seq![c, '{'] + body + seq!['}'] + rest =~= escaped(text) + t);
    escaped_in_front(text, t, none);
    assert(none + text =~= text);
    assert(t.skip(2) =~= end);
    assert(t.subrange(2, (body.len() + 2) as int) =~= body);
    assert(t.skip((body.len() + 3) as int) =~= rest);
}

/// A body whose braces are balanced is one part, whatever it holds: it comes behind the text
/// in front of it, and the parts of what follows come behind it.
pub proof fn balanced_body_is_one_part(text: Seq<char>, body: Seq<char>, rest: Seq<char>)
    requires
        balanced(body, 0),
    ensures
        parts(escaped(text) + seq!['$', '{'] + body + seq!['}'] + rest) == after(
            literal_parts(text).push(placeholder(body)),
            parts(rest),
        ),
        parts(escaped(text) + seq!['#', '{'] + body + seq!['}'] + rest) == after(
            literal_parts(text).push(Part::Expr(body)),
            parts(rest),
        ),
{
    opened_body_is_one_part(text, '$', body, rest);
    opened_body_is_one_part(text, '#', body, rest);
}

/// `t` can be the key of a placeholder: its braces are closed in turn, where `depth` of them stand
/// open in front of it, and no colon stands outside of them that no backslash takes along.
pub open spec fn is_key(t: Seq<char>, depth: nat) -> bool
    decreases t.len(),
{
    if t.len() == 0 {
        depth == 0
    } else if t[0] == '\\' {
        t.len() >= 2 && is_key(t.skip(2), depth)
    } else if t[0] == ':' {
        depth > 0 && is_key(t.skip(1), depth)
    } else if t[0] == '{' {
        is_key(t.skip(1), depth + 1)
    } else if t[0] == '}' {
        depth > 0 && is_key(t.skip(1), (depth - 1) as nat)
    } else {
        is_key(t.skip(1), depth)
    }
}

/// The separator stands behind the key.
proof fn separator_ends_the_key(key: Seq<char>, depth: nat, default: Seq<char>)
    requires
        is_key(key, depth),
    ensures
        separator(key + seq![':'] + default, depth) == Some(key.len()),
        separator(key, depth) is None,
    decreases key.len(),
{
    let t = key + seq![':'] + default;
    if key.len() == 0 {
        assert(t[0] == ':');
    } else {
        assert(t[0] == key[0]);
        if key[0] == '\\' {
            assert(t.skip(2) =~= key.skip(2) + seq![':'] + default);
            separator_ends_the_key(key.skip(2), depth, default);
        } else {
            assert(t.skip(1) =~= key.skip(1) + seq![':'] + default);
            let inside = if key[0] == '{' {
                depth + 1
            } else if key[0] == '}' {
                (depth - 1) as nat
            } else {
                depth
            };
            separator_ends_the_key(key.skip(1), inside, default);
        }
    }
}

/// A key and a default with balanced braces make a balanced body.
proof fn key_and_default_are_balanced(key: Seq<char>, depth: nat, default: Seq<char>)
    requires
        is_key(key, depth),
        balanced(default, 0),
    ensures
        balanced(key + seq![':'] + default, depth),
        balanced(key, depth),
    decreases key.len(),
{
    let t = key + seq![':'] + default;
    if key.len() == 0 {
        assert(t[0] == ':');
        assert(t.skip(1) =~= default);
    } else {
        assert(t[0] == key[0]);
        if key[0] == '\\' {
            assert(t.skip(2) =~= key.skip(2) + seq![':'] + default);
            key_and_default_are_balanced(key.skip(2), depth, default);
        } else {
            assert(t.skip(1) =~= key.skip(1) + seq![':'] + default);
            let inside = if key[0] == '{' {
                depth + 1
            } else if key[0] == '}' {
                (depth - 1) as nat
            } else {
                depth
            };
            key_and_default_are_balanced(key.skip(1), inside, default);
        }
    }
}

/// A placeholder is split at its first colon: what stands before it is the key, and all that
/// stands behind it, further colons included, is the default. Text in front of a placeholder is
/// a part of its own, and what follows is split by itself.
pub proof fn placeholder_is_split_at_its_first_colon(
    text: Seq<char>,
    key: Seq<char>,
    default: Seq<char>,
    rest: Seq<char>,
)
    requires
        is_key(key, 0),
        balanced(default, 0),
    ensures
        parts(seq!['$', '{'] + key + seq![':'] + default + seq!['}']) == Ok::<Seq<Part>, char>(
            seq![Part::Placeholder { key, default: Some(default) }],
        ),
        parts(seq!['$', '{'] + key + seq!['}']) == Ok::<Seq<Part>, char>(
            seq![Part::Placeholder { key, default: None }],
        ),
        parts(seq!['#', '{'] + default + seq!['}']) == Ok::<Seq<Part>, char>(
            seq![Part::Expr(default)],
        ),
        text.len() > 0 ==> match parts(rest) {
            Ok(more) => {
                &&& parts(
                    escaped(text) + seq!['$', '{'] + (key + seq![':'] + default) + seq!['}'] + rest,
                ) == Ok::<Seq<Part>, char>(
                    seq![
                        Part::Literal(text),
                        Part::Placeholder { key, default: Some(default) },
                    ] + more,
                )
                &&& parts(escaped(text) + seq!['#', '{'] + default + seq!['}'] + rest) == Ok::<
                    Seq<Part>,
                    char,
                >(seq![Part::Literal(text), Part::Expr(default)] + more)
            },
            Err(c) => parts(
                escaped(text) + seq!['$', '{'] + (key + seq![':'] + default) + seq!['}'] + rest,
            ) == Err::<Seq<Part>, char>(c),
        },
{
    let none = Seq::<char>::empty();
    let body = key + seq![':'] + default;
    separator_ends_the_key(key, 0, default);
    key_and_default_are_balanced(key, 0, default);
    assert(body.take(key.len() as int) =~= key);
    assert(body.skip((key.len() + 1) as int) =~= default);
    assert(placeholder(body) == (Part::Placeholder { key, default: Some(default) }));
    assert(placeholder(key) == (Part::Placeholder { key, default: None }));
    balanced_body_is_one_part(none, body, none);
    balanced_body_is_one_part(none, key, none);
    balanced_body_is_one_part(none, default, none);
    balanced_body_is_one_part(text, body, rest);
    balanced_body_is_one_part(text, default, rest);
    assert(escaped(none) =~= none);
    assert(none + seq!['$', '{'] + body + seq!['}'] + none =~= seq!['$', '{'] + key + seq![':']
        + default + seq!['}']);
    assert(none + seq!['$', '{'] + key + seq!['}'] + none =~= seq!['$', '{'] + key + seq!['}']);
    assert(none + seq!['#', '{'] + default + seq!['}'] + none =~= seq!['#', '{'] + default
        + seq!['}']);
    let nothing = Seq::<Part>::empty();
    assert(parts(none) == Ok::<Seq<Part>, char>(nothing));
    let split = Part::Placeholder { key, default: Some(default) };
    let whole = Part::Placeholder { key, default: None };
    assert(nothing.push(split) + nothing =~= seq![split]);
    assert(nothing.push(whole) + nothing =~= seq![whole]);
    assert(nothing.push(Part::Expr(default)) + nothing =~= seq![Part::Expr(default)]);
    if text.len() > 0 {
        assert(literal_parts(text).push(split) =~= seq![Part::Literal(text), split]);
        assert(literal_parts(text).push(Part::Expr(default)) =~= seq![
            Part::Literal(text),
            Part::Expr(default),
        ]);
    }
}

/// A brace that opens a part has to be closed.
proof fn open_body_has_no_end(t: Seq<char>, depth: nat)
    requires
        !t.contains('}'),
    ensures
        body_len(t, depth) is None,
    decreases t.len(),
{
    if t.len() > 0 {
        assert(t.contains(t[0]));
        assert forall|n: int| 0 <= n <= t.len() implies !(#[trigger] t.skip(n)).contains('}') by {
            if t.skip(n).contains('}') {
                let i = choose|i: int| 0 <= i < t.skip(n).len() && t.skip(n)[i] == '}';
                assert(t[i + n] == '}');
            }
        }
        if t[0] == '\\' && t.len() >= 2 {
            open_body_has_no_end(t.skip(2), depth);
        } else if t[0] == '{' {
            open_body_has_no_end(t.skip(1), depth + 1);
        } else {
            open_body_has_no_end(t.skip(1), depth);
        }
    }
}

/// A text without parts stands for itself, and a part that is never closed is an error that names
/// its opening.
pub proof fn open_part_is_refused(text: Seq<char>, body: Seq<char>)
    requires
        !body.contains('}'),
    ensures
        text.len() > 0 ==> parts(escaped(text)) == Ok::<Seq<Part>, char>(seq![Part::Literal(text)]),
        parts(Seq::empty()) == Ok::<Seq<Part>, char>(Seq::empty()),
        parts(escaped(text) + seq!['$', '{'] + body) == Err::<Seq<Part>, char>('$'),
        parts(escaped(text) + seq!['#', '{'] + body) == Err::<Seq<Part>, char>('#'),
        parsed_template(escaped(text) + seq!['$', '{'] + body) == Err::<Seq<Part>, Seq<char>>(
            "unterminated `"@ + seq!['$'] + "{` in value template (missing `}`)"@,
        ),
{
    let none = Seq::<char>::empty();
    escaped_text_is_literal(text);
    open_body_has_no_end(body, 1);
    let dollar = seq!['$', '{'] + body;
    let hash = seq!['#', '{'] + body;
    assert(escaped(text) + seq!['$', '{'] + body =~= escaped(text) + dollar);
    assert(escaped(text) + seq!['#', '{'] + body =~= escaped(text) + hash);
    escaped_in_front(text, dollar, none);
    escaped_in_front(text, hash, none);
    assert(dollar.skip(2) =~= body);
    assert(hash.skip(2) =~= body);
}

/// A part as a constant `::leaf_core::ValueSegment`.
pub open spec fn segment_row(part: Part) -> Seq<char> {
    match part {
        Part::Literal(text) =>
            "::leaf_core::ValueSegment::Literal(::std::borrow::Cow::Borrowed("@ + literal_source(
            text,
        ) + "))"@,
        Part::Placeholder { key, default } =>
            "::leaf_core::ValueSegment::Placeholder { key: ::std::borrow::Cow::Borrowed("@
            + literal_source(key) + "), default: "@ + (match default {
            Some(text) => "::core::option::Option::Some(::std::borrow::Cow::Borrowed("@
                + literal_source(text) + "))"@,
            None => "::core::option::Option::None"@,
        }) + " }"@,
        Part::Expr(body) =>
            "::leaf_core::ValueSegment::Expr(::std::borrow::Cow::Borrowed("@ + literal_source(
            body,
        ) + "))"@,
    }
}

/// The rows of parts.
pub open spec fn segment_rows(parts: Seq<Part>) -> Seq<Seq<char>> {
    Seq::new(parts.len(), |i: int| segment_row(parts[i]))
}

/// The constant list of parts.
pub open spec fn segments_source(parts: Seq<Part>) -> Seq<char> {
    "&["@ + join(segment_rows(parts), ", "@) + "]"@
}

/// Each part is printed as what it is, in its place: a literal and an expression with their text,
/// a placeholder with its key and the default that it has.
pub proof fn parts_are_printed_in_order(parts: Seq<Part>, text: Seq<char>, key: Seq<char>)
    ensures
        encloses(
            segments_source(parts),
            "&["@,
            Seq::new(parts.len(), |i: int| segment_row(parts[i])),
            "]"@,
        ),
        within(
            segment_row(Part::Literal(text)),
            "::leaf_core::ValueSegment::Literal(::std::borrow::Cow::Borrowed("@,
            "))"@,
        ) == Some(literal_source(text)),
        within(
            segment_row(Part::Expr(text)),
            "::leaf_core::ValueSegment::Expr(::std::borrow::Cow::Borrowed("@,
            "))"@,
        ) == Some(literal_source(text)),
        within(
            segment_row(Part::Placeholder { key, default: None }),
            "::leaf_core::ValueSegment::Placeholder { key: ::std::borrow::Cow::Borrowed("@,
            " }"@,
        ) == Some(literal_source(key) + "), default: "@ + "::core::option::Option::None"@),
        within(
            segment_row(Part::Placeholder { key, default: Some(text) }),
            "::leaf_core::ValueSegment::Placeholder { key: ::std::borrow::Cow::Borrowed("@,
            " }"@,
        ) == Some(
            literal_source(key) + "), default: "@ + (
            "::core::option::Option::Some(::std::borrow::Cow::Borrowed("@ + literal_source(text)
                + "))"@),
        ),
{
    let rows = Seq::new(parts.len(), |i: int| segment_row(parts[i]));
    assert(rows =~= segment_rows(parts));
    list_is_enclosed("&["@, rows, "]"@);
    within_brackets(
        "::leaf_core::ValueSegment::Literal(::std::borrow::Cow::Borrowed("@,
        literal_source(text),
        "))"@,
    );
    within_brackets(
        "::leaf_core::ValueSegment::Expr(::std::borrow::Cow::Borrowed("@,
        literal_source(text),
        "))"@,
    );
    let open = "::leaf_core::ValueSegment::Placeholder { key: ::std::borrow::Cow::Borrowed("@;
    let bare = literal_source(key) + "), default: "@ + "::core::option::Option::None"@;
    let given = literal_source(key) + "), default: "@ + (
    "::core::option::Option::Some(::std::borrow::Cow::Borrowed("@ + literal_source(text) + "))"@);
    within_brackets(open, bare, " }"@);
    within_brackets(open, given, " }"@);
    assert(segment_row(Part::Placeholder { key, default: None }) =~= open + bare + " }"@);
    assert(segment_row(Part::Placeholder { key, default: Some(text) }) =~= open + given + " }"@);
}

/// Prints one part.
fn emit_segment(segment: &Segment) -> (res: String)
    ensures
        res@ == segment_row(segment@),
{
    match segment {
        Segment::Literal(text) => {
            let text = string_literal(text.as_str());
            "::leaf_core::ValueSegment::Literal(::std::borrow::Cow::Borrowed(".to_string().concat(
                text.as_str(),
            ).concat("))")
        },
        Segment::Placeholder { key, default } => {
            let key = string_literal(key.as_str());
            let default = match default {
                Some(text) => {
                    let text = string_literal(text.as_str());
                    "::core::option::Option::Some(::std::borrow::Cow::Borrowed("
                        .to_string().concat(text.as_str()).concat("))")
                },
                None => "::core::option::Option::None".to_string(),
            };
            "::leaf_core::ValueSegment::Placeholder { key: ::std::borrow::Cow::Borrowed("
                .to_string().concat(key.as_str()).concat("), default: ").concat(
                default.as_str(),
            ).concat(" }")
        },
        Segment::Expr(body) => {
            let body = string_literal(body.as_str());
            "::leaf_core::ValueSegment::Expr(::std::borrow::Cow::Borrowed(".to_string().concat(
                body.as_str(),
            ).concat("))")
        },
    }
}

/// Prints the parts as a constant list of `::leaf_core::ValueSegment`.
pub fn emit_segments(segments: &[Segment]) -> (res: String)
    ensures
        res@ == segments_source(segments.deep_view()),
{
    let mut rows: Vec<String> = Vec::new();
    let mut i: usize = 0;
    while i < segments.len()
        invariant
            i <= segments@.len(),
            rows@.len() == i,
            forall|k: int|
                0 <= k < i ==> (#[trigger] rows@[k])@ == segment_rows(segments.deep_view())[k],
        decreases segments@.len() - i,
    {
        rows.push(emit_segment(&segments[i]));
        i += 1;
    }
    assert(rows.deep_view() =~= segment_rows(segments.deep_view()));
    let list = join_texts(&rows, ", ");
    "&[".to_string().concat(list.as_str()).concat("]")
}

/// Splits a template, then prints its parts.
pub fn parse_and_emit(text: &str) -> (res: Result<String, ParseError>)
    ensures
        match parsed_template(text@) {
            Ok(parts) => res matches Ok(source) && source@ == segments_source(parts),
            Err(message) => res matches Err(e) && e.message@ == message,
        },
{
    match parse_value_template(text) {
        Ok(segments) => Ok(emit_segments(&segments)),
        Err(e) => Err(e),
    }
}

/// An entry of a message bundle.
#[derive(Clone, Debug, PartialEq, Eq)]
pub struct MessageEntry {
    /// The code the message is looked up by.
    pub code: String,
    /// The pattern.
    pub pattern: String,
}

impl View for MessageEntry {
    type V = (Seq<char>, Seq<char>);

    /// The code and the pattern.
    open spec fn view(&self) -> (Seq<char>, Seq<char>) {
        (self.code@, self.pattern@)
    }
}

impl DeepView for MessageEntry {
    type V = (Seq<char>, Seq<char>);

    open spec fn deep_view(&self) -> (Seq<char>, Seq<char>) {
        self.view()
    }
}

/// Where the first `=` or `:` stands that no backslash takes along.
pub open spec fn key_end(line: Seq<char>) -> Option<nat>
    decreases line.len(),
{
    if line.len() == 0 {
        None
    } else if line[0] == '\\' && line.len() >= 2 {
        match key_end(line.skip(2)) {
            Some(n) => Some(n + 2),
            None => None,
        }
    } else if line[0] == '=' || line[0] == ':' {
        Some(0)
    } else {
        match key_end(line.skip(1)) {
            Some(n) => Some(n + 1),
            None => None,
        }
    }
}

/// How many backslashes `s` ends with.
pub open spec fn trailing_backslashes(s: Seq<char>) -> nat
    decreases s.len(),
{
    if s.len() > 0 && s.last() == '\\' {
        1 + trailing_backslashes(s.drop_last())
    } else {
        0
    }
}

/// `s` ends with a backslash that is not itself escaped.
pub open spec fn is_continued(s: Seq<char>) -> bool {
    trailing_backslashes(s) % 2 == 1
}

/// `value` with the lines that continue it, and how many of `rest` these are.
pub open spec fn continued(value: Seq<char>, rest: Seq<Seq<char>>) -> (Seq<char>, nat)
    decreases rest.len(),
{
    if !is_continued(value) {
        (value, 0)
    } else if rest.len() == 0 {
        (value.drop_last(), 0)
    } else {
        let (whole, n) = continued(
            value.drop_last() + trim_start(rest[0]),
            rest.drop_first(),
        );
        (whole, n + 1)
    }
}

/// A line that says nothing: blank, or a comment.
pub open spec fn is_ignored(line: Seq<char>) -> bool {
    line.len() == 0 || line[0] == '#' || line[0] == '!'
}

/// The entries in `lines`: a code and a pattern for each line that is neither blank nor
/// a comment and that has a separator, with the lines that continue it.
pub open spec fn entries(lines: Seq<Seq<char>>) -> Seq<(Seq<char>, Seq<char>)>
    decreases lines.len(),
{
    if lines.len() == 0 {
        Seq::empty()
    } else {
        let line = trim_start(lines[0]);
        let rest = lines.drop_first();
        match key_end(line) {
            Some(n) if !is_ignored(line) && n < line.len() => {
                let (value, used) = continued(trim(line.skip((n + 1) as int)), rest);
                let entry = (trim(line.take(n as int)), trim(value));
                seq![entry] + (if used <= rest.len() {
                    entries(rest.skip(used as int))
                } else {
                    Seq::empty()
                })
            },
            _ => entries(rest),
        }
    }
}

/// The backslashes at the end of a text with another in front of it.
proof fn backslashes_behind(front: Seq<char>, back: Seq<char>)
    ensures
        trailing_backslashes(back) <= back.len(),
        trailing_backslashes(front + back) == trailing_backslashes(back) + (
        if trailing_backslashes(back) == back.len() {
            trailing_backslashes(front)
        } else {
            0
        }),
    decreases back.len(),
{
    let whole = front + back;
    if back.len() == 0 {
        assert(whole =~= front);
    } else {
        assert(whole.last() == back.last());
        assert(whole.drop_last() =~= front + back.drop_last());
        backslashes_behind(front, back.drop_last());
    }
}

/// No line continues what is left of a line behind a character that is no backslash,
/// where none continues the line.
proof fn tail_is_whole(raw: Seq<char>, k: int)
    requires
        0 < k <= raw.len(),
        raw[k - 1] != '\\',
        !is_continued(trim_end(raw)),
    ensures
        !is_continued(trim_end(raw.skip(k))),
{
    let tail = raw.skip(k);
    if trim_end(tail).len() > 0 {
        assert(raw =~= raw.take(k) + tail);
        trim_end_of_tail(raw.take(k), tail);
        backslashes_behind(raw.take(k), trim_end(tail));
        assert(raw.take(k).last() == raw[k - 1]);
    }
}

/// Where no line continues `raw`, none continues the value in it.
proof fn value_is_whole(raw: Seq<char>, n: nat)
    requires
        !is_continued(trim_end(raw)),
        key_end(trim_start(raw)) == Some(n),
    ensures
        !is_continued(trim(trim_start(raw).skip((n + 1) as int))),
{
    let line = trim_start(raw);
    key_end_bound(line);
    let k = trim_start_is_a_tail(raw);
    let right = line.skip((n + 1) as int);
    let j = trim_start_is_a_tail(right);
    let at = k + n + 1 + j;
    assert(right.skip(j) =~= raw.skip(at));
    if j == 0 {
        assert(raw[at - 1] == line[n as int]);
    } else {
        assert(raw[at - 1] == right[j - 1]);
        assert(white_space(right[j - 1]));
    }
    tail_is_whole(raw, at);
}

/// Where no line continues `raw`, none continues a value behind which it stands.
proof fn continuation_is_whole(value: Seq<char>, raw: Seq<char>)
    requires
        is_continued(value),
        !is_continued(trim_end(raw)),
    ensures
        !is_continued(value.drop_last() + trim_start(raw)),
{
    let line = trim_start(raw);
    let k = trim_start_is_a_tail(raw);
    let front = value.drop_last();
    backslashes_behind(front, line);
    if line.len() > 0 {
        assert(line.last() == raw.last());
        if !white_space(raw.last()) {
            assert(trim_end(raw) == raw);
            assert(raw =~= raw.take(k) + line);
            backslashes_behind(raw.take(k), line);
            if k > 0 {
                assert(raw.take(k).last() == raw[k - 1]);
                assert(white_space(raw[k - 1]));
                assert(trailing_backslashes(raw.take(k)) == 0);
            } else {
                assert(raw.take(k) =~= Seq::<char>::empty());
            }
        }
    }
}

/// A value ends with the last of the lines that follow it at the latest, where no line
/// continues that one.
proof fn value_ends(value: Seq<char>, lines: Seq<Seq<char>>, rest: Seq<Seq<char>>)
    requires
        lines.len() > 0,
        !is_continued(trim_end(lines.last())),
    ensures
        continued(value, lines + rest) == continued(value, lines),
        continued(value, lines).1 <= lines.len(),
    decreases lines.len(),
{
    continued_bound(value, lines);
    if is_continued(value) {
        let longer = value.drop_last() + trim_start(lines[0]);
        let behind = lines.drop_first();
        assert((lines + rest)[0] == lines[0]);
        assert((lines + rest).drop_first() =~= behind + rest);
        if behind.len() == 0 {
            continuation_is_whole(value, lines[0]);
        } else {
            assert(behind.last() == lines.last());
            value_ends(longer, behind, rest);
        }
    }
}

/// The entries stand in the order of their lines: where no line continues the last of
/// `first`, the entries of `first` come first, and those of what follows behind them.
pub proof fn entries_keep_their_order(first: Seq<Seq<char>>, rest: Seq<Seq<char>>)
    requires
        first.len() > 0 ==> !is_continued(trim_end(first.last())),
    ensures
        entries(first + rest) == entries(first) + entries(rest),
    decreases first.len(),
{
    if first.len() == 0 {
        assert(first + rest =~= rest);
        assert(entries(first) + entries(rest) =~= entries(rest));
    } else {
        let behind = first.drop_first();
        assert((first + rest).drop_first() =~= behind + rest);
        assert((first + rest)[0] == first[0]);
        assert(behind.len() > 0 ==> behind.last() == first.last());
        let line = trim_start(first[0]);
        key_end_bound(line);
        if key_end(line) is Some && !is_ignored(line) {
            let n = key_end(line)->0;
            let value = trim(line.skip((n + 1) as int));
            if behind.len() == 0 {
                value_is_whole(first[0], n);
            } else {
                value_ends(value, behind, rest);
            }
            continued_bound(value, behind);
            let (whole, used) = continued(value, behind);
            assert(continued(value, behind + rest) == (whole, used));
            let entry = (trim(line.take(n as int)), trim(whole));
            let left = behind.skip(used as int);
            assert((behind + rest).skip(used as int) =~= left + rest);
            assert(left.len() > 0 ==> left.last() == first.last());
            entries_keep_their_order(left, rest);
            assert(entries(first) == seq![entry] + entries(left));
            assert(entries(first + rest) == seq![entry] + entries(left + rest));
            assert(seq![entry] + (entries(left) + entries(rest)) =~= seq![entry] + entries(left)
                + entries(rest));
        } else {
            entries_keep_their_order(behind, rest);
            assert(entries(first) == entries(behind));
            assert(entries(first + rest) == entries(behind + rest));
        }
    }
}

/// A carriage return at its end moves no separator of a line.
proof fn return_moves_no_key(line: Seq<char>)
    ensures
        key_end(line.push('\r')) == key_end(line),
    decreases line.len(),
{
    let more = line.push('\r');
    if line.len() == 0 {
        assert(more.skip(1) =~= line);
    } else if line[0] == '\\' && line.len() >= 2 {
        assert(more.skip(2) =~= line.skip(2).push('\r'));
        return_moves_no_key(line.skip(2));
    } else if line[0] == '\\' {
        assert(more.skip(2) =~= Seq::<char>::empty());
        assert(line.skip(1) =~= Seq::<char>::empty());
    } else if line[0] == '=' || line[0] == ':' {
    } else {
        assert(more.skip(1) =~= line.skip(1).push('\r'));
        return_moves_no_key(line.skip(1));
    }
}

/// A carriage return at the end of the last line says nothing to a value, where no line
/// continues that one.
proof fn return_ends_no_value(value: Seq<char>, lines: Seq<Seq<char>>, raw: Seq<char>)
    requires
        !is_continued(trim_end(raw)),
    ensures
        continued(value, lines.push(raw.push('\r'))).1 == continued(value, lines.push(raw)).1,
        trim(continued(value, lines.push(raw.push('\r'))).0) == trim(
            continued(value, lines.push(raw)).0,
        ),
    decreases lines.len(),
{
    reveal_with_fuel(continued, 2);
    let ended = raw.push('\r');
    if is_continued(value) {
        if lines.len() == 0 {
            let front = value.drop_last();
            assert(ended.drop_last() =~= raw);
            assert(trim_end(ended) == trim_end(raw));
            continuation_is_whole(value, raw);
            continuation_is_whole(value, ended);
            trim_of_white(raw, '\r');
            trim_of_white(front + trim_start(raw), '\r');
            assert(front + trim_start(raw).push('\r') =~= (front + trim_start(raw)).push('\r'));
            if trim_start(raw).len() == 0 {
                assert(trim_start(ended) =~= trim_start(raw));
            }
            assert(lines.push(raw)[0] == raw);
            assert(lines.push(ended)[0] == ended);
        } else {
            let longer = value.drop_last() + trim_start(lines[0]);
            assert(lines.push(raw).drop_first() =~= lines.drop_first().push(raw));
            assert(lines.push(ended).drop_first() =~= lines.drop_first().push(ended));
            return_ends_no_value(longer, lines.drop_first(), raw);
        }
    }
}

/// A carriage return at the end of the last line adds nothing to the entries, where no
/// line continues that one.
proof fn return_adds_nothing(lines: Seq<Seq<char>>, raw: Seq<char>)
    requires
        !is_continued(trim_end(raw)),
    ensures
        entries(lines.push(raw.push('\r'))) == entries(lines.push(raw)),
    decreases lines.len(),
{
    let ended = raw.push('\r');
    let plain = lines.push(raw);
    let other = lines.push(ended);
    if lines.len() == 0 {
        assert(plain.drop_first() =~= lines);
        assert(other.drop_first() =~= lines);
        let line = trim_start(raw);
        trim_of_white(raw, '\r');
        if line.len() > 0 {
            return_moves_no_key(line);
            key_end_bound(line);
            if key_end(line) is Some && !is_ignored(line) {
                let n = key_end(line)->0;
                let right = line.skip((n + 1) as int);
                assert(line.push('\r').skip((n + 1) as int) =~= right.push('\r'));
                assert(line.push('\r').take(n as int) =~= line.take(n as int));
                trim_of_white(right, '\r');
            }
        }
    } else {
        let behind = lines.drop_first();
        assert(plain.drop_first() =~= behind.push(raw));
        assert(other.drop_first() =~= behind.push(ended));
        let line = trim_start(lines[0]);
        key_end_bound(line);
        if key_end(line) is Some && !is_ignored(line) {
            let n = key_end(line)->0;
            let value = trim(line.skip((n + 1) as int));
            return_ends_no_value(value, behind, raw);
            continued_bound(value, behind.push(raw));
            let used = continued(value, behind.push(raw)).1;
            if used <= behind.len() {
                let left = behind.skip(used as int);
                assert(behind.push(raw).skip(used as int) =~= left.push(raw));
                assert(behind.push(ended).skip(used as int) =~= left.push(ended));
                return_adds_nothing(left, raw);
            } else {
                assert(behind.push(raw).skip(used as int) =~= Seq::<Seq<char>>::empty());
                assert(behind.push(ended).skip(used as int) =~= Seq::<Seq<char>>::empty());
            }
        } else {
            return_adds_nothing(behind, raw);
        }
    }
}

/// An empty line behind the others adds nothing to a value.
proof fn blank_ends_no_value(value: Seq<char>, lines: Seq<Seq<char>>)
    ensures
        continued(value, lines.push(Seq::empty())).0 == continued(value, lines).0,
        continued(value, lines).1 <= continued(value, lines.push(Seq::empty())).1,
        continued(value, lines).1 < continued(value, lines.push(Seq::empty())).1
            ==> continued(value, lines).1 == lines.len(),
    decreases lines.len(),
{
    reveal_with_fuel(continued, 2);
    let more = lines.push(Seq::empty());
    if is_continued(value) {
        if lines.len() == 0 {
            assert(more[0] =~= Seq::<char>::empty());
            assert(value.drop_last() + trim_start(more[0]) =~= value.drop_last());
        } else {
            assert(more.drop_first() =~= lines.drop_first().push(Seq::empty()));
            blank_ends_no_value(
                value.drop_last() + trim_start(lines[0]),
                lines.drop_first(),
            );
        }
    }
}

/// An empty line behind the others adds nothing to the entries.
proof fn blank_adds_nothing(lines: Seq<Seq<char>>)
    ensures
        entries(lines.push(Seq::empty())) == entries(lines),
    decreases lines.len(),
{
    let more = lines.push(Seq::empty());
    if lines.len() == 0 {
        assert(more[0] =~= Seq::<char>::empty());
        assert(more.drop_first() =~= lines);
    } else {
        let behind = lines.drop_first();
        assert(more.drop_first() =~= behind.push(Seq::empty()));
        let line = trim_start(lines[0]);
        key_end_bound(line);
        if key_end(line) is Some && !is_ignored(line) {
            let n = key_end(line)->0;
            let value = trim(line.skip((n + 1) as int));
            blank_ends_no_value(value, behind);
            continued_bound(value, behind);
            continued_bound(value, behind.push(Seq::empty()));
            let used = continued(value, behind).1;
            let taken = continued(value, behind.push(Seq::empty())).1;
            let left = behind.skip(used as int);
            if taken == used {
                assert(behind.push(Seq::empty()).skip(used as int) =~= left.push(Seq::empty()));
                blank_adds_nothing(left);
            } else {
                assert(left =~= Seq::<Seq<char>>::empty());
                assert(behind.push(Seq::empty()).skip(taken as int) =~= left);
            }
        } else {
            blank_adds_nothing(behind);
        }
    }
}

/// Two bundles, one below the other, have the entries of the first and behind them those
/// of the second, unless a backslash at the end of the first takes its line on.
pub proof fn bundles_follow_one_another(a: Seq<char>, b: Seq<char>)
    requires
        !is_continued(trim_end(last_line(a))),
    ensures
        entries(lines(a + seq!['\n'] + b)) == entries(lines(a)) + entries(lines(b)),
{
    let ended = ended_lines_from(a, Seq::empty());
    let tail = last_line(a);
    let line = without_return(tail);
    lines_of_two_texts(a, Seq::empty(), b);
    if tail.len() > 0 && tail.last() == '\r' {
        assert(line.push('\r') =~= tail);
        assert(tail.drop_last() =~= line);
    } else {
        assert(line == tail);
    }
    assert(trim_end(line) == trim_end(tail));
    assert(ended.push(line).last() == line);
    entries_keep_their_order(ended.push(line), lines(b));
    if tail.len() == 0 {
        assert(line =~= Seq::<char>::empty());
        blank_adds_nothing(ended);
        assert(lines(a) =~= ended);
    } else {
        assert(lines(a) =~= ended.push(tail));
        if tail.last() == '\r' {
            return_adds_nothing(ended, line);
        }
    }
}

/// No more lines continue a value than there are.
proof fn continued_bound(value: Seq<char>, rest: Seq<Seq<char>>)
    ensures
        continued(value, rest).1 <= rest.len(),
    decreases rest.len(),
{
    if is_continued(value) && rest.len() > 0 {
        continued_bound(value.drop_last() + trim_start(rest[0]), rest.drop_first());
    }
}

/// A separator stands inside the line.
proof fn key_end_bound(line: Seq<char>)
    ensures
        match key_end(line) {
            Some(n) => n < line.len() && (line[n as int] == '=' || line[n as int] == ':'),
            None => true,
        },
    decreases line.len(),
{
    if line.len() == 0 {
    } else if line[0] == '\\' && line.len() >= 2 {
        key_end_bound(line.skip(2));
    } else if line[0] == '=' || line[0] == ':' {
    } else {
        key_end_bound(line.skip(1));
    }
}

/// A key without separators and backslashes reaches to the first separator.
proof fn key_reaches_to_its_separator(key: Seq<char>, c: char, rest: Seq<char>)
    requires
        !key.contains('='),
        !key.contains(':'),
        !key.contains('\\'),
        c == '=' || c == ':',
    ensures
        key_end(key + seq![c] + rest) == Some(key.len()),
    decreases key.len(),
{
    let line = key + seq![c] + rest;
    if key.len() == 0 {
        assert(line[0] == c);
    } else {
        assert(key.contains(key[0]));
        assert(line[0] == key[0]);
        assert(line.skip(1) =~= key.skip(1) + seq![c] + rest);
        assert forall|d: char| !key.contains(d) implies !(#[trigger] key.skip(1).contains(d)) by {
            if key.skip(1).contains(d) {
                let i = choose|i: int| 0 <= i < key.skip(1).len() && key.skip(1)[i] == d;
                assert(key[i + 1] == d);
            }
        }
        assert(!key.skip(1).contains('=') && !key.skip(1).contains(':') && !key.skip(1).contains(
            '\\',
        ));
        key_reaches_to_its_separator(key.skip(1), c, rest);
    }
}

/// A line of a bundle is split at its first separator, `=` or `:`: the code stands before it, and
/// the pattern is all that stands behind it, further separators included. Where the line ends
/// with a backslash, the next line goes on with the pattern.
pub proof fn line_is_split_at_its_first_separator(
    code: Seq<char>,
    c: char,
    pattern: Seq<char>,
    more: Seq<char>,
)
    requires
        c == '=' || c == ':',
        code.len() > 0,
        !code.contains('='),
        !code.contains(':'),
        !code.contains('\\'),
        code[0] != '#',
        code[0] != '!',
        !white_space(code[0]),
        !white_space(code.last()),
        pattern.len() > 0,
        !white_space(pattern[0]),
        !white_space(pattern.last()),
        pattern.last() != '\\',
        more.len() > 0,
        !white_space(more[0]),
        !white_space(more.last()),
        more.last() != '\\',
    ensures
        entries(seq![code + seq![c] + pattern]) == seq![(code, pattern)],
        entries(seq![code + seq![c] + pattern.push('\\'), more]) == seq![(code, pattern + more)],
{
    reveal_with_fuel(entries, 3);
    reveal_with_fuel(continued, 3);
    reveal_with_fuel(trailing_backslashes, 3);
    let none = Seq::<Seq<char>>::empty();
    let line = code + seq![c] + pattern;
    let open = pattern.push('\\');
    let long = code + seq![c] + open;
    key_reaches_to_its_separator(code, c, pattern);
    key_reaches_to_its_separator(code, c, open);
    trim_keeps_what_is_tight(code);
    trim_keeps_what_is_tight(pattern);
    trim_keeps_what_is_tight(more);
    backslash_is_not_white();
    trim_keeps_what_is_tight(open);
    trim_keeps_what_is_tight(line);
    trim_keeps_what_is_tight(long);
    assert(line.last() == pattern.last());
    assert(long.last() == '\\');
    assert(line.take(code.len() as int) =~= code);
    assert(line.skip((code.len() + 1) as int) =~= pattern);
    assert(long.take(code.len() as int) =~= code);
    assert(long.skip((code.len() + 1) as int) =~= open);
    assert(seq![line].drop_first() =~= none);
    assert(none.skip(0) =~= none);
    assert(entries(none) =~= Seq::<(Seq<char>, Seq<char>)>::empty());
    assert(seq![(code, pattern)] + entries(none) =~= seq![(code, pattern)]);
    assert(open.drop_last() =~= pattern);
    let whole = pattern + more;
    assert(whole.last() == more.last());
    assert(whole[0] == pattern[0]);
    trim_keeps_what_is_tight(whole);
    assert(seq![long, more].drop_first() =~= seq![more]);
    assert(seq![more].drop_first() =~= none);
    assert(is_continued(open));
    assert(!is_continued(whole));
    assert(continued(whole, none) == (whole, 0nat));
    assert(continued(open, seq![more]) == (whole, 1nat));
    assert(seq![more].skip(1) =~= none);
    assert(seq![(code, whole)] + entries(none) =~= seq![(code, whole)]);
}

/// A backslash is no white space.
proof fn backslash_is_not_white()
    ensures
        !white_space('\\'),
{
}

/// Blank lines, comments and lines without a separator say nothing.
pub proof fn comments_say_nothing(line: Seq<char>, rest: Seq<Seq<char>>)
    requires
        trim_start(line).len() == 0 || trim_start(line)[0] == '#' || trim_start(line)[0] == '!'
            || (!line.contains('=') && !line.contains(':')),
    ensures
        entries(seq![line] + rest) == entries(rest),
{
    let tail = trim_start(line);
    let k = trim_start_is_a_tail(line);
    key_end_bound(tail);
    assert((seq![line] + rest).drop_first() =~= rest);
    if key_end(tail) is Some {
        let n = key_end(tail)->0 as int;
        assert(line[k + n] == tail[n]);
    }
}

/// The key and the value of a line, split at its separator.
fn split_kv(line: &str) -> (res: Option<(String, String)>)
    ensures
        match res {
            Some((key, value)) => {
                &&& key_end(line@) is Some
                &&& key_end(line@)->0 < line@.len()
                &&& key@ == line@.take(key_end(line@)->0 as int)
                &&& value@ == trim(line@.skip((key_end(line@)->0 + 1) as int))
            },
            None => key_end(line@) is None,
        },
{
    let chars = chars_of(line);
    let mut i: usize = 0;
    assert(chars@.skip(0) =~= line@);
    while i < chars.len()
        invariant
            chars@ == line@,
            i <= chars.len(),
            key_end(line@) == (match key_end(chars@.skip(i as int)) {
                Some(n) => Some((n + i) as nat),
                None => None,
            }),
        decreases chars.len() - i,
    {
        let c = chars[i];
        let ghost here = chars@.skip(i as int);
        if c == '\\' && i + 1 < chars.len() {
            assert(here.skip(2) =~= chars@.skip(i + 2));
            i += 2;
            continue;
        }
        assert(here.skip(1) =~= chars@.skip(i + 1));
        if c == '=' || c == ':' {
            let key = slice_text(&chars, 0, i);
            let value = slice_text(&chars, i + 1, chars.len());
            proof {
                assert(key@ =~= line@.take(i as int));
                assert(value@ =~= line@.skip(i + 1));
            }
            return Some((key, trimmed(value.as_str())));
        }
        i += 1;
    }
    None
}

/// Whether `value` ends with a backslash that is not itself escaped.
fn ends_with_continuation(value: &str) -> (res: bool)
    ensures
        res == is_continued(value@),
{
    let chars = chars_of(value);
    let mut n: usize = chars.len();
    let mut odd = false;
    assert(chars@.take(n as int) =~= value@);
    while n > 0 && chars[n - 1] == '\\'
        invariant
            n <= chars.len(),
            chars@ == value@,
            is_continued(value@) == (odd != is_continued(chars@.take(n as int))),
        decreases n,
    {
        assert(chars@.take(n as int).drop_last() =~= chars@.take(n - 1));
        odd = !odd;
        n -= 1;
    }
    odd
}

/// `value` without its last character.
fn without_last(value: &str) -> (res: String)
    requires
        value@.len() > 0,
    ensures
        res@ == value@.drop_last(),
{
    let chars = chars_of(value);
    assert(chars@.subrange(0, chars@.len() - 1) =~= value@.drop_last());
    slice_text(&chars, 0, chars.len() - 1)
}

/// Joins to `value` the lines from `from` on that continue it, and says where the rest
/// begins.
fn join_continued(value: String, lines: &Vec<String>, from: usize) -> (res: (String, usize))
    requires
        from <= lines@.len(),
    ensures
        from <= res.1 <= lines@.len(),
        continued(value@, lines.deep_view().skip(from as int)) == (
            res.0@,
            (res.1 - from) as nat,
        ),
{
    let ghost all = lines.deep_view();
    let mut whole = value;
    let mut next: usize = from;
    while ends_with_continuation(whole.as_str())
        invariant
            all == lines.deep_view(),
            from <= next <= lines@.len(),
            continued(value@, all.skip(from as int)).0 == continued(
                whole@,
                all.skip(next as int),
            ).0,
            continued(value@, all.skip(from as int)).1 == continued(
                whole@,
                all.skip(next as int),
            ).1 + (next - from),
        decreases lines@.len() - next,
    {
        let ghost rest = all.skip(next as int);
        assert(whole@.len() > 0);
        let mut shorter = without_last(whole.as_str());
        if next >= lines.len() {
            return (shorter, next);
        }
        let more = trimmed_start(lines[next].as_str());
        shorter.append(more.as_str());
        proof {
            assert(rest[0] == lines@[next as int]@);
            assert(rest.drop_first() =~= all.skip(next + 1));
        }
        whole = shorter;
        next += 1;
    }
    (whole, next)
}

/// Reads a message bundle.
pub fn parse_message_bundle(text: &str) -> (res: Vec<MessageEntry>)
    ensures
        res.deep_view() == entries(lines(text@)),
{
    let all = lines_of(text);
    let mut out: Vec<MessageEntry> = Vec::new();
    let mut i: usize = 0;
    let ghost view = all.deep_view();
    assert(view.skip(0) =~= view);
    assert(out.deep_view() + entries(view) =~= entries(view));
    while i < all.len()
        invariant
            view == all.deep_view(),
            view == lines(text@),
            i <= all@.len(),
            entries(view) == out.deep_view() + entries(view.skip(i as int)),
        decreases all@.len() - i,
    {
        let line = trimmed_start(all[i].as_str());
        let chars = chars_of(line.as_str());
        let ghost here = view.skip(i as int);
        let ghost before = out.deep_view();
        proof {
            assert(here[0] == all@[i as int]@);
            assert(here.drop_first() =~= view.skip(i + 1));
            key_end_bound(line@);
        }
        let next = i + 1;
        if chars.len() == 0 || chars[0] == '#' || chars[0] == '!' {
            i = next;
            continue;
        }
        match split_kv(line.as_str()) {
            None => {
                i = next;
            },
            Some((key, value)) => {
                let ghost first = value@;
                let (whole, after) = join_continued(value, &all, next);
                let entry = MessageEntry {
                    code: trimmed(key.as_str()),
                    pattern: trimmed(whole.as_str()),
                };
                proof {
                    continued_bound(first, view.skip(next as int));
                    assert(view.skip(next as int).skip(after - next) =~= view.skip(after as int));
                }
                out.push(entry);
                proof {
                    assert(out.deep_view() =~= before.push(entry@));
                    assert(before + (seq![entry@] + entries(view.skip(after as int)))
                        =~= out.deep_view() + entries(view.skip(after as int)));
                }
                i = after;
            },
        }
    }
    assert(out.deep_view() + entries(view.skip(i as int)) =~= out.deep_view());
    out
}

/// The length of what stands before the first `c`.
pub open spec fn until(t: Seq<char>, c: char) -> nat
    decreases t.len(),
{
    if t.len() == 0 || t[0] == c {
        0
    } else {
        1 + until(t.skip(1), c)
    }
}

/// The argument index that the body of a placeholder begins with, before any comma.
pub open spec fn argument_index(body: Seq<char>) -> Option<nat> {
    number(trim(body.take(until(body, ',') as int)), u32::MAX as nat)
}

/// The greater of an index and the greatest so far.
pub open spec fn greatest(max: Option<u32>, index: u32) -> Option<u32> {
    match max {
        Some(m) if m > index => max,
        _ => Some(index),
    }
}

/// What is wrong with a pattern.
pub ghost enum PatternFault {
    /// A `}` that closes nothing.
    Unbalanced,
    /// A `{` that is never closed.
    Unterminated,
    /// A placeholder whose body does not begin with an index.
    NotAnIndex(Seq<char>),
}

/// The greatest argument index in `t`, where `max` is the greatest so far. A doubled
/// brace is a literal one.
pub open spec fn greatest_index(t: Seq<char>, max: Option<u32>) -> Result<
    Option<u32>,
    PatternFault,
>
    decreases t.len(),
{
    if t.len() == 0 {
        Ok(max)
    } else if (t[0] == '{' || t[0] == '}') && t.len() >= 2 && t[1] == t[0] {
        greatest_index(t.skip(2), max)
    } else if t[0] == '}' {
        Err(PatternFault::Unbalanced)
    } else if t[0] == '{' {
        let n = until(t.skip(1), '}');
        if n + 1 >= t.len() {
            Err(PatternFault::Unterminated)
        } else {
            let body = t.subrange(1, (n + 1) as int);
            match argument_index(body) {
                Some(index) => greatest_index(
                    t.skip((n + 2) as int),
                    greatest(max, index as u32),
                ),
                None => Err(PatternFault::NotAnIndex(body)),
            }
        }
    } else {
        greatest_index(t.skip(1), max)
    }
}

/// The message for a fault in `pattern`.
pub open spec fn fault_message(fault: PatternFault, pattern: Seq<char>) -> Seq<char> {
    match fault {
        PatternFault::Unbalanced => "unbalanced `}` in message pattern: "@ + debug_source(pattern),
        PatternFault::Unterminated => "unterminated `{` in message pattern: "@ + debug_source(
            pattern,
        ),
        PatternFault::NotAnIndex(body) => "message placeholder `{"@ + body
            + "}` is not a `{n}` argument index in "@ + debug_source(pattern),
    }
}

/// `s` with each brace doubled.
pub open spec fn doubled(s: Seq<char>) -> Seq<char>
    decreases s.len(),
{
    if s.len() == 0 {
        Seq::empty()
    } else if s[0] == '{' || s[0] == '}' {
        seq![s[0], s[0]] + doubled(s.skip(1))
    } else {
        seq![s[0]] + doubled(s.skip(1))
    }
}

/// A text whose braces are doubled names no argument: in front of a pattern it changes
/// nothing.
pub proof fn doubled_braces_are_literal(s: Seq<char>, rest: Seq<char>, max: Option<u32>)
    ensures
        greatest_index(doubled(s) + rest, max) == greatest_index(rest, max),
    decreases s.len(),
{
    let t = doubled(s) + rest;
    if s.len() == 0 {
        assert(t =~= rest);
    } else {
        let behind = doubled(s.skip(1)) + rest;
        if s[0] == '{' || s[0] == '}' {
            assert(t.skip(2) =~= behind);
            assert(t[0] == s[0] && t[1] == s[0]);
        } else {
            assert(t.skip(1) =~= behind);
            assert(t[0] == s[0]);
        }
        doubled_braces_are_literal(s.skip(1), rest, max);
    }
}

/// What stands before the first of a character reaches to it.
proof fn until_reaches(front: Seq<char>, c: char, rest: Seq<char>)
    requires
        !front.contains(c),
    ensures
        until(front + seq![c] + rest, c) == front.len(),
        until(front, c) == front.len(),
    decreases front.len(),
{
    let t = front + seq![c] + rest;
    if front.len() == 0 {
        assert(t[0] == c);
    } else {
        assert(front.contains(front[0]));
        assert(t[0] == front[0]);
        assert(t.skip(1) =~= front.skip(1) + seq![c] + rest);
        if front.skip(1).contains(c) {
            let i = choose|i: int| 0 <= i < front.skip(1).len() && front.skip(1)[i] == c;
            assert(front[i + 1] == c);
        }
        until_reaches(front.skip(1), c, rest);
    }
}

/// An index in braces, with or without a format behind a comma, counts with the others: the
/// greatest one is what is asked for.
pub proof fn greatest_index_counts(n: nat, style: Seq<char>, rest: Seq<char>, max: Option<u32>)
    requires
        n <= u32::MAX,
        !style.contains('}'),
    ensures
        ({
            let more = match max {
                Some(m) => Some(
                    if m > n {
                        m
                    } else {
                        n as u32
                    },
                ),
                None => Some(n as u32),
            };
            &&& greatest_index(seq!['{'] + decimal(n) + seq!['}'] + rest, max) == greatest_index(
                rest,
                more,
            )
            &&& greatest_index(
                seq!['{'] + (decimal(n) + seq![','] + style) + seq!['}'] + rest,
                max,
            ) == greatest_index(rest, more)
        }),
        greatest_index(Seq::empty(), max) == Ok::<Option<u32>, PatternFault>(max),
{
    let text = decimal(n);
    decimal_reads_back(n);
    numeral_stands_for_its_number(n, u32::MAX as nat);
    assert(is_digit(text[0]) && is_digit(text[text.len() - 1]));
    assert forall|i: int| 0 <= i < text.len() implies text[i] != '}' && text[i] != ',' && text[i]
        != '{' by {
        assert(is_digit(text[i]));
    }
    trim_keeps_what_is_tight(text);
    let styled = text + seq![','] + style;
    assert(!styled.contains('}')) by {
        if styled.contains('}') {
            let i = choose|i: int| 0 <= i < styled.len() && styled[i] == '}';
            if i > text.len() {
                assert(style[i - text.len() - 1] == '}');
            }
        }
    }
    index_is_read(text, n, rest, max);
    index_is_read(styled, n, rest, max);
    until_reaches(text, ',', style);
    assert(text.take(text.len() as int) =~= text);
    assert(styled.take(text.len() as int) =~= text);
}

/// A body that begins with an index is counted.
proof fn index_is_read(body: Seq<char>, n: nat, rest: Seq<char>, max: Option<u32>)
    requires
        body.len() > 0,
        body[0] != '{',
        !body.contains('}'),
    ensures
        argument_index(body) == Some(n) ==> greatest_index(seq!['{'] + body + seq!['}'] + rest, max)
            == greatest_index(rest, greatest(max, n as u32)),
        argument_index(body) is None ==> greatest_index(seq!['{'] + body + seq!['}'] + rest, max)
            == Err::<Option<u32>, PatternFault>(PatternFault::NotAnIndex(body)),
{
    let t = seq!['{'] + body + seq!['}'] + rest;
    assert(t[1] == body[0]);
    assert(t.skip(1) =~= body + seq!['}'] + rest);
    until_reaches(body, '}', rest);
    assert(t.subrange(1, (body.len() + 1) as int) =~= body);
    assert(t.skip((body.len() + 2) as int) =~= rest);
}

/// What is no index is refused, and so is a brace that is never closed or that closes nothing;
/// each is told with the pattern.
pub proof fn faulty_patterns_are_refused(
    body: Seq<char>,
    rest: Seq<char>,
    max: Option<u32>,
    pattern: Seq<char>,
)
    requires
        body.len() > 0,
        body[0] != '{',
        !body.contains('}'),
    ensures
        argument_index(body) is None ==> greatest_index(seq!['{'] + body + seq!['}'] + rest, max)
            == Err::<Option<u32>, PatternFault>(PatternFault::NotAnIndex(body)),
        greatest_index(seq!['{'] + body, max) == Err::<Option<u32>, PatternFault>(
            PatternFault::Unterminated,
        ),
        rest.len() == 0 || rest[0] != '}' ==> greatest_index(seq!['}'] + rest, max) == Err::<
            Option<u32>,
            PatternFault,
        >(PatternFault::Unbalanced),
        fault_message(PatternFault::Unbalanced, pattern) == "unbalanced `}` in message pattern: "@
            + debug_source(pattern),
        fault_message(PatternFault::Unterminated, pattern)
            == "unterminated `{` in message pattern: "@ + debug_source(pattern),
        fault_message(PatternFault::NotAnIndex(body), pattern) == "message placeholder `{"@ + body
            + "}` is not a `{n}` argument index in "@ + debug_source(pattern),
{
    index_is_read(body, 0, rest, max);
    let open = seq!['{'] + body;
    assert(open[1] == body[0]);
    assert(open.skip(1) =~= body);
    until_reaches(body, '}', rest);
    let closed = seq!['}'] + rest;
    if rest.len() > 0 {
        assert(closed[1] == rest[0]);
    }
}

/// `until` stops inside the text, at the character it looks for, or at its end.
proof fn until_bound(t: Seq<char>, c: char)
    ensures
        until(t, c) <= t.len(),
        until(t, c) < t.len() ==> t[until(t, c) as int] == c,
    decreases t.len(),
{
    if t.len() > 0 && t[0] != c {
        until_bound(t.skip(1), c);
    }
}

/// The first position from `from` on that holds `c`, or the end.
fn position_of(chars: &[char], from: usize, c: char) -> (res: usize)
    requires
        from <= chars@.len(),
    ensures
        from <= res <= chars@.len(),
        res - from == until(chars@.skip(from as int), c),
{
    let mut i: usize = from;
    while i < chars.len() && chars[i] != c
        invariant
            from <= i <= chars@.len(),
            until(chars@.skip(from as int), c) == (i - from) + until(chars@.skip(i as int), c),
        decreases chars@.len() - i,
    {
        assert(chars@.skip(i as int).skip(1) =~= chars@.skip(i + 1));
        i += 1;
    }
    i
}

/// The index that the body of a placeholder begins with.
fn index_of(body: &str) -> (res: Option<u32>)
    ensures
        match res {
            Some(index) => argument_index(body@) == Some(index as nat),
            None => argument_index(body@) is None,
        },
{
    let chars = chars_of(body);
    assert(chars@.skip(0) =~= body@);
    let end = position_of(&chars, 0, ',');
    let head = slice_text(&chars, 0, end);
    assert(head@ =~= body@.take(end as int));
    let head = trimmed(head.as_str());
    match parse_number(head.as_str(), 0xffff_ffff) {
        Some(n) => Some(n as u32),
        None => None,
    }
}

/// The greatest argument index that `pattern` refers to.
pub fn max_arg_index(pattern: &str) -> (res: Result<Option<u32>, ParseError>)
    ensures
        match greatest_index(pattern@, None) {
            Ok(max) => res == Ok::<Option<u32>, ParseError>(max),
            Err(fault) => res matches Err(e) && e.message@ == fault_message(fault, pattern@),
        },
{
    let chars = chars_of(pattern);
    let mut i: usize = 0;
    let mut max: Option<u32> = None;
    assert(chars@.skip(0) =~= pattern@);
    while i < chars.len()
        invariant
            chars@ == pattern@,
            i <= chars.len(),
            greatest_index(pattern@, None) == greatest_index(chars@.skip(i as int), max),
        decreases chars.len() - i,
    {
        let c = chars[i];
        let ghost here = chars@.skip(i as int);
        assert(here.skip(1) =~= chars@.skip(i + 1));
        if (c == '{' || c == '}') && i + 1 < chars.len() && chars[i + 1] == c {
            assert(here.skip(2) =~= chars@.skip(i + 2));
            i += 2;
            continue;
        }
        if c == '}' {
            let shown = debug_text(pattern);
            return Err(
                ParseError {
                    message: "unbalanced `}` in message pattern: ".to_string().concat(
                        shown.as_str(),
                    ),
                },
            );
        }
        if c == '{' {
            let end = position_of(&chars, i + 1, '}');
            if end >= chars.len() {
                let shown = debug_text(pattern);
                return Err(
                    ParseError {
                        message: "unterminated `{` in message pattern: ".to_string().concat(
                            shown.as_str(),
                        ),
                    },
                );
            }
            let body = slice_text(&chars, i + 1, end);
            assert(body@ =~= here.subrange(1, end - i));
            let index = match index_of(body.as_str()) {
                Some(index) => index,
                None => {
                    let shown = debug_text(pattern);
                    return Err(
                        ParseError {
                            message: "message placeholder `{".to_string().concat(
                                body.as_str(),
                            ).concat("}` is not a `{n}` argument index in ").concat(
                                shown.as_str(),
                            ),
                        },
                    );
                },
            };
            assert(here.skip(end - i + 1) =~= chars@.skip(end + 1));
            max = match max {
                Some(m) if m > index => max,
                _ => Some(index),
            };
            i = end + 1;
            continue;
        }
        i += 1;
    }
    Ok(max)
}

/// An entry as a row of a message table.
pub open spec fn entry_row(code: Seq<char>, pattern: Seq<char>) -> Seq<char> {
    "("@ + literal_source(code) + ", ::leaf_core::MessagePattern(::std::sync::Arc::from("@
        + literal_source(pattern) + ")))"@
}

/// A row of a message table holds the code and then the pattern.
pub proof fn row_holds_code_and_pattern(code: Seq<char>, pattern: Seq<char>)
    ensures
        within(entry_row(code, pattern), "("@, ")))"@) == Some(
            literal_source(code) + ", ::leaf_core::MessagePattern(::std::sync::Arc::from("@
                + literal_source(pattern),
        ),
{
    let inner = literal_source(code) + ", ::leaf_core::MessagePattern(::std::sync::Arc::from("@
        + literal_source(pattern);
    within_brackets("("@, inner, ")))"@);
    assert(entry_row(code, pattern) =~= "("@ + inner + ")))"@);
}

/// Prints an entry as a row of a message table.
pub fn emit_message_entry(entry: &MessageEntry) -> (res: String)
    ensures
        res@ == entry_row(entry.code@, entry.pattern@),
{
    let code = string_literal(entry.code.as_str());
    let pattern = string_literal(entry.pattern.as_str());
    "(".to_string().concat(code.as_str()).concat(
        ", ::leaf_core::MessagePattern(::std::sync::Arc::from(",
    ).concat(pattern.as_str()).concat(")))")
}

} // verus!
