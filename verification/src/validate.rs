//! Validation: the constraints on the fields of a struct, and the source that checks them.
use vstd::prelude::*;

use crate::args::{error, told, EmitError};
use crate::config::{canonical_name, kebab};
use crate::items::{Attr, DeriveItem, Field, Fields};
use crate::metas::{
    items_in, parse_metas, settle_metas, settled_metas, Given, Item, MetaArg, MetaSettings,
    MetaValue,
};
use crate::reading::{pieces_are_gathered_in_order, series, within, within_brackets};
use crate::syntax::{arguments_of, attribute_args, literal_source, string_literal};
use crate::text::{gathered, gathered_step, gathered_stops, str_eq};

verus! {

/// The key of a constraint, or the message for one that is no identifier.
pub open spec fn constraint_key(key: Option<Seq<char>>) -> Result<Seq<char>, Seq<char>> {
    match key {
        Some(ident) => Ok(ident),
        None => Err("a `#[validate(..)]` constraint must be a single identifier"@),
    }
}

/// The key of a constraint.
fn path_key(key: &Option<String>) -> (res: Result<String, EmitError>)
    ensures
        told(res) == constraint_key(key.deep_view()),
{
    match key {
        Some(ident) => Ok(ident.clone()),
        None => error("a `#[validate(..)]` constraint must be a single identifier".to_string()),
    }
}

/// The message for a constraint that is not known.
pub open spec fn unknown_constraint(key: Seq<char>, fid: Seq<char>) -> Seq<char> {
    "unknown `#[validate("@ + key + ")]` constraint on field `"@ + fid
        + "` (expected one of `not_empty`/`email`/`nested`/`min`/`max`/`range`/`pattern`)"@
}

/// Tells of a constraint that is not known.
fn unknown(key: &str, fid: &str) -> (res: Result<String, EmitError>)
    ensures
        res matches Err(e) && e.message@ == unknown_constraint(key@, fid@),
{
    error(
        "unknown `#[validate(".to_string().concat(key).concat(")]` constraint on field `").concat(
            fid,
        ).concat(
            "` (expected one of `not_empty`/`email`/`nested`/`min`/`max`/`range`/`pattern`)",
        ),
    )
}

/// A bound as an `i64`.
pub open spec fn bound(value: Given, key: Seq<char>, fid: Seq<char>) -> Result<
    Seq<char>,
    Seq<char>,
> {
    match value {
        Given::Int(digits) => Ok(digits + "i64"@),
        _ => Err(
            "`#[validate("@ + key + " = ...)]` on field `"@ + fid
                + "` requires an integer literal"@,
        ),
    }
}

/// A bound as an `i64`.
fn int_value(value: &MetaValue, key: &str, fid: &str) -> (res: Result<String, EmitError>)
    ensures
        told(res) == bound(value@, key@, fid@),
{
    match value {
        MetaValue::Int(digits) => Ok(digits.clone().concat("i64")),
        _ => error(
            "`#[validate(".to_string().concat(key).concat(" = ...)]` on field `").concat(
                fid,
            ).concat("` requires an integer literal"),
        ),
    }
}

/// What `range` has said so far of a field.
pub struct RangeSettings {
    /// The field.
    pub field: String,
    /// The lower bound.
    pub lower: Option<String>,
    /// The upper bound.
    pub upper: Option<String>,
}

impl View for RangeSettings {
    type V = (Seq<char>, Option<Seq<char>>, Option<Seq<char>>);

    /// The field and the bounds.
    open spec fn view(&self) -> (Seq<char>, Option<Seq<char>>, Option<Seq<char>>) {
        (self.field@, self.lower.deep_view(), self.upper.deep_view())
    }
}

/// What `range` says after one more item.
pub open spec fn after_range(
    s: (Seq<char>, Option<Seq<char>>, Option<Seq<char>>),
    item: Item,
) -> Result<(Seq<char>, Option<Seq<char>>, Option<Seq<char>>), Seq<char>> {
    match item {
        Item::NameValue(key, value) => match constraint_key(key) {
            Err(message) => Err(message),
            Ok(key) => if key == "min"@ {
                match bound(value, "range.min"@, s.0) {
                    Ok(lower) => Ok((s.0, Some(lower), s.2)),
                    Err(message) => Err(message),
                }
            } else if key == "max"@ {
                match bound(value, "range.max"@, s.0) {
                    Ok(upper) => Ok((s.0, s.1, Some(upper))),
                    Err(message) => Err(message),
                }
            } else {
                Err(
                    "unknown `#[validate(range(..))]` key `"@ + key + "` on field `"@ + s.0
                        + "` (expected `min`/`max`)"@,
                )
            },
        },
        _ => Err(
            "`#[validate(range(..))]` on field `"@ + s.0 + "` expects `min = A, max = B`"@,
        ),
    }
}

impl MetaSettings for RangeSettings {
    open spec fn after(
        settings: (Seq<char>, Option<Seq<char>>, Option<Seq<char>>),
        item: Item,
    ) -> Result<(Seq<char>, Option<Seq<char>>, Option<Seq<char>>), Seq<char>> {
        after_range(settings, item)
    }

    fn apply(self, meta: &MetaArg) -> (res: Result<RangeSettings, EmitError>) {
        let mut settings = self;
        match meta {
            MetaArg::NameValue(key, value) => {
                let key = match path_key(key) {
                    Ok(key) => key,
                    Err(e) => return Err(e),
                };
                if str_eq(key.as_str(), "min") {
                    match int_value(value, "range.min", settings.field.as_str()) {
                        Ok(lower) => settings.lower = Some(lower),
                        Err(e) => return Err(e),
                    }
                } else if str_eq(key.as_str(), "max") {
                    match int_value(value, "range.max", settings.field.as_str()) {
                        Ok(upper) => settings.upper = Some(upper),
                        Err(e) => return Err(e),
                    }
                } else {
                    return error(
                        "unknown `#[validate(range(..))]` key `".to_string().concat(
                            key.as_str(),
                        ).concat("` on field `").concat(settings.field.as_str()).concat(
                            "` (expected `min`/`max`)",
                        ),
                    );
                }
                Ok(settings)
            },
            _ => error(
                "`#[validate(range(..))]` on field `".to_string().concat(
                    settings.field.as_str(),
                ).concat("` expects `min = A, max = B`"),
            ),
        }
    }
}

/// The bounds that `range` gives a field. Both have to be there.
pub open spec fn range_settings(items: Seq<Item>, fid: Seq<char>) -> Result<
    (Seq<char>, Seq<char>),
    Seq<char>,
> {
    match settled_metas::<RangeSettings>((fid, None, None), items) {
        Ok((_, Some(lower), Some(upper))) => Ok((lower, upper)),
        Ok(_) => Err(
            "`#[validate(range(..))]` on field `"@ + fid + "` requires both `min` and `max`"@,
        ),
        Err(message) => Err(message),
    }
}

/// The bounds that `range` gives a field.
pub fn range_of(metas: &[MetaArg], fid: &str) -> (res: Result<(String, String), EmitError>)
    ensures
        told(res) == range_settings(metas.deep_view(), fid@),
{
    let start = RangeSettings { field: fid.to_string(), lower: None, upper: None };
    match settle_metas(start, metas) {
        Ok(settings) => match (settings.lower, settings.upper) {
            (Some(lower), Some(upper)) => Ok((lower, upper)),
            _ => error(
                "`#[validate(range(..))]` on field `".to_string().concat(fid).concat(
                    "` requires both `min` and `max`",
                ),
            ),
        },
        Err(e) => Err(e),
    }
}

/// The bounds in the source of the arguments of `range`.
pub open spec fn range_in(source: Seq<char>, fid: Seq<char>) -> Result<
    (Seq<char>, Seq<char>),
    Seq<char>,
> {
    match items_in(source) {
        Ok(items) => range_settings(items, fid),
        Err(message) => Err(
            "malformed `#[validate(range(..))]` on field `"@ + fid + "`: "@ + message,
        ),
    }
}

/// Reads the bounds in the arguments of `range`.
fn parse_range(source: &str, fid: &str) -> (res: Result<(String, String), EmitError>)
    ensures
        told(res) == range_in(source@, fid@),
{
    match parse_metas(source) {
        Ok(metas) => range_of(metas.as_slice(), fid),
        Err(message) => error(
            "malformed `#[validate(range(..))]` on field `".to_string().concat(fid).concat(
                "`: ",
            ).concat(message.as_str()),
        ),
    }
}

/// The statement that a check becomes.
pub open spec fn check_source(seg: Seq<char>, call: Seq<char>) -> Seq<char> {
    "__c.check("@ + literal_source(seg) + ", ::leaf_validation::constraints::"@ + call + "); "@
}

/// Prints the statement that a check becomes.
fn check_text(seg: &str, call: &str) -> (res: String)
    ensures
        res@ == check_source(seg@, call@),
{
    let seg = string_literal(seg);
    "__c.check(".to_string().concat(seg.as_str()).concat(
        ", ::leaf_validation::constraints::",
    ).concat(call).concat("); ")
}

/// The statement that validates what a field holds.
pub open spec fn nested_source(fid: Seq<char>, seg: Seq<char>) -> Seq<char> {
    "{ #[allow(unused_imports)] use ::leaf_validation::{CascadeList as _, CascadeOne as _}; (&&::leaf_validation::CascadeTag(&self."@
        + fid + ")).leaf_cascade(__c, "@ + literal_source(seg) + "); } "@
}

/// Prints the statement that validates what a field holds.
fn emit_nested(fid: &str, seg: &str) -> (res: String)
    ensures
        res@ == nested_source(fid@, seg@),
{
    let seg = string_literal(seg);
    "{ #[allow(unused_imports)] use ::leaf_validation::{CascadeList as _, CascadeOne as _}; (&&::leaf_validation::CascadeTag(&self."
        .to_string().concat(fid).concat(")).leaf_cascade(__c, ").concat(seg.as_str()).concat(
        "); } ",
    )
}

/// The statement that a constraint on the field `fid`, reported under `seg`, becomes.
pub open spec fn constraint_source(item: Item, fid: Seq<char>, seg: Seq<char>) -> Result<
    Seq<char>,
    Seq<char>,
> {
    match item {
        Item::Path(key) => match constraint_key(key) {
            Err(message) => Err(message),
            Ok(key) => if key == "not_empty"@ {
                Ok(check_source(seg, "not_empty(&self."@ + fid + ")"@))
            } else if key == "email"@ {
                Ok(check_source(seg, "email(&self."@ + fid + ")"@))
            } else if key == "nested"@ {
                Ok(nested_source(fid, seg))
            } else {
                Err(unknown_constraint(key, fid))
            },
        },
        Item::NameValue(key, value) => match constraint_key(key) {
            Err(message) => Err(message),
            Ok(key) => if key == "min"@ {
                match bound(value, "min"@, fid) {
                    Ok(n) => Ok(check_source(seg, "min(self."@ + fid + ", "@ + n + ")"@)),
                    Err(message) => Err(message),
                }
            } else if key == "max"@ {
                match bound(value, "max"@, fid) {
                    Ok(n) => Ok(check_source(seg, "max(self."@ + fid + ", "@ + n + ")"@)),
                    Err(message) => Err(message),
                }
            } else if key == "pattern"@ {
                match value {
                    Given::Str(glob) => Ok(
                        check_source(
                            seg,
                            "pattern(&self."@ + fid + ", "@ + literal_source(glob) + ")"@,
                        ),
                    ),
                    _ => Err(
                        "`#[validate(pattern = ...)]` on field `"@ + fid
                            + "` requires a string literal"@,
                    ),
                }
            } else {
                Err(unknown_constraint(key, fid))
            },
        },
        Item::List(key, source) => match constraint_key(key) {
            Err(message) => Err(message),
            Ok(key) => if key == "range"@ {
                match range_in(source, fid) {
                    Ok((lower, upper)) => Ok(
                        check_source(
                            seg,
                            "range(self."@ + fid + ", "@ + lower + ", "@ + upper + ")"@,
                        ),
                    ),
                    Err(message) => Err(message),
                }
            } else {
                Err(unknown_constraint(key, fid))
            },
        },
    }
}

/// Prints the statement that a constraint on the field `fid`, reported under `seg`, becomes.
pub fn lower_constraint(meta: &MetaArg, fid: &str, seg: &str) -> (res: Result<String, EmitError>)
    ensures
        told(res) == constraint_source(meta@, fid@, seg@),
{
    match meta {
        MetaArg::Path(key) => {
            let key = match path_key(key) {
                Ok(key) => key,
                Err(e) => return Err(e),
            };
            if str_eq(key.as_str(), "not_empty") {
                let call = "not_empty(&self.".to_string().concat(fid).concat(")");
                Ok(check_text(seg, call.as_str()))
            } else if str_eq(key.as_str(), "email") {
                let call = "email(&self.".to_string().concat(fid).concat(")");
                Ok(check_text(seg, call.as_str()))
            } else if str_eq(key.as_str(), "nested") {
                Ok(emit_nested(fid, seg))
            } else {
                unknown(key.as_str(), fid)
            }
        },
        MetaArg::NameValue(key, value) => {
            let key = match path_key(key) {
                Ok(key) => key,
                Err(e) => return Err(e),
            };
            if str_eq(key.as_str(), "min") {
                let n = match int_value(value, "min", fid) {
                    Ok(n) => n,
                    Err(e) => return Err(e),
                };
                let call = "min(self.".to_string().concat(fid).concat(", ").concat(
                    n.as_str(),
                ).concat(")");
                Ok(check_text(seg, call.as_str()))
            } else if str_eq(key.as_str(), "max") {
                let n = match int_value(value, "max", fid) {
                    Ok(n) => n,
                    Err(e) => return Err(e),
                };
                let call = "max(self.".to_string().concat(fid).concat(", ").concat(
                    n.as_str(),
                ).concat(")");
                Ok(check_text(seg, call.as_str()))
            } else if str_eq(key.as_str(), "pattern") {
                match value {
                    MetaValue::Str(glob) => {
                        let glob = string_literal(glob.as_str());
                        let call = "pattern(&self.".to_string().concat(fid).concat(", ").concat(
                            glob.as_str(),
                        ).concat(")");
                        Ok(check_text(seg, call.as_str()))
                    },
                    _ => error(
                        "`#[validate(pattern = ...)]` on field `".to_string().concat(fid).concat(
                            "` requires a string literal",
                        ),
                    ),
                }
            } else {
                unknown(key.as_str(), fid)
            }
        },
        MetaArg::List(key, source) => {
            let key = match path_key(key) {
                Ok(key) => key,
                Err(e) => return Err(e),
            };
            if str_eq(key.as_str(), "range") {
                match parse_range(source.as_str(), fid) {
                    Ok((lower, upper)) => {
                        let call = "range(self.".to_string().concat(fid).concat(", ").concat(
                            lower.as_str(),
                        ).concat(", ").concat(upper.as_str()).concat(")");
                        Ok(check_text(seg, call.as_str()))
                    },
                    Err(e) => Err(e),
                }
            } else {
                unknown(key.as_str(), fid)
            }
        },
    }
}

/// Each constraint checks what it names, on its own field, under the segment of the field: bounds are
/// checked against the number given, a range against its lower and then its upper bound.
pub proof fn constraints_check_their_field(
    fid: Seq<char>,
    seg: Seq<char>,
    digits: Seq<char>,
    glob: Seq<char>,
    source: Seq<char>,
    key: Seq<char>,
)
    ensures
        constraint_source(Item::Path(Some("not_empty"@)), fid, seg) == Ok::<Seq<char>, Seq<char>>(
            checked(seg, "not_empty(&self."@ + fid + ")"@),
        ),
        constraint_source(Item::Path(Some("email"@)), fid, seg) == Ok::<Seq<char>, Seq<char>>(
            checked(seg, "email(&self."@ + fid + ")"@),
        ),
        constraint_source(Item::Path(Some("nested"@)), fid, seg) == Ok::<Seq<char>, Seq<char>>(
            "{ #[allow(unused_imports)] use ::leaf_validation::{CascadeList as _, CascadeOne as _}; (&&::leaf_validation::CascadeTag(&self."@
                + fid + ")).leaf_cascade(__c, "@ + literal_source(seg) + "); } "@,
        ),
        constraint_source(Item::NameValue(Some("min"@), Given::Int(digits)), fid, seg) == Ok::<
            Seq<char>,
            Seq<char>,
        >(checked(seg, "min(self."@ + fid + ", "@ + (digits + "i64"@) + ")"@)),
        constraint_source(Item::NameValue(Some("max"@), Given::Int(digits)), fid, seg) == Ok::<
            Seq<char>,
            Seq<char>,
        >(checked(seg, "max(self."@ + fid + ", "@ + (digits + "i64"@) + ")"@)),
        constraint_source(Item::NameValue(Some("pattern"@), Given::Str(glob)), fid, seg) == Ok::<
            Seq<char>,
            Seq<char>,
        >(checked(seg, "pattern(&self."@ + fid + ", "@ + literal_source(glob) + ")"@)),
        range_in(source, fid) matches Ok((lower, upper)) ==> constraint_source(
            Item::List(Some("range"@), source),
            fid,
            seg,
        ) == Ok::<Seq<char>, Seq<char>>(
            checked(seg, "range(self."@ + fid + ", "@ + lower + ", "@ + upper + ")"@),
        ),
        key != "not_empty"@ && key != "email"@ && key != "nested"@ ==> constraint_source(
            Item::Path(Some(key)),
            fid,
            seg,
        ) is Err,
        key != "min"@ && key != "max"@ && key != "pattern"@ ==> constraint_source(
            Item::NameValue(Some(key), Given::Str(glob)),
            fid,
            seg,
        ) is Err,
        key != "range"@ ==> constraint_source(Item::List(Some(key), source), fid, seg) is Err,
{
    reveal_strlit("not_empty");
    reveal_strlit("email");
    reveal_strlit("nested");
    assert("not_empty"@.len() != "email"@.len());
    assert("not_empty"@.len() != "nested"@.len());
    assert("email"@.len() != "nested"@.len());
    reveal_strlit("min");
    reveal_strlit("max");
    reveal_strlit("pattern");
    assert("min"@[1] != "max"@[1]);
    assert("min"@.len() != "pattern"@.len());
    assert("max"@.len() != "pattern"@.len());
}

/// A check of a constraint, under a segment.
pub open spec fn checked(seg: Seq<char>, call: Seq<char>) -> Seq<char> {
    "__c.check("@ + literal_source(seg) + ", ::leaf_validation::constraints::"@ + call + "); "@
}

/// The bounds of a range are those under `min` and `max`; both have to be there.
pub proof fn range_takes_its_bounds(
    s: (Seq<char>, Option<Seq<char>>, Option<Seq<char>>),
    digits: Seq<char>,
    items: Seq<Item>,
    fid: Seq<char>,
)
    ensures
        after_range(s, Item::NameValue(Some("min"@), Given::Int(digits))) == Ok::<
            (Seq<char>, Option<Seq<char>>, Option<Seq<char>>),
            Seq<char>,
        >((s.0, Some(digits + "i64"@), s.2)),
        after_range(s, Item::NameValue(Some("max"@), Given::Int(digits))) == Ok::<
            (Seq<char>, Option<Seq<char>>, Option<Seq<char>>),
            Seq<char>,
        >((s.0, s.1, Some(digits + "i64"@))),
        settled_metas::<RangeSettings>((fid, None, None), items) matches Ok((f, lower, upper)) ==> (
        if lower is Some && upper is Some {
            range_settings(items, fid) == Ok::<(Seq<char>, Seq<char>), Seq<char>>(
                (lower->0, upper->0),
            )
        } else {
            range_settings(items, fid) is Err
        }),
{
    reveal_strlit("min");
    reveal_strlit("max");
    assert("min"@[1] != "max"@[1]);
}

/// The statements that constraints become.
pub open spec fn constraint_parts(items: Seq<Item>, fid: Seq<char>) -> Seq<
    Result<Seq<char>, Seq<char>>,
> {
    Seq::new(items.len(), |i: int| constraint_source(items[i], fid, kebab(fid)))
}

/// Prints the statements that constraints on a field become.
pub fn lower_constraints(metas: &[MetaArg], fid: &str) -> (res: Result<String, EmitError>)
    ensures
        told(res) == gathered(constraint_parts(metas.deep_view(), fid@)),
{
    let seg = canonical_name(fid);
    let ghost parts = constraint_parts(metas.deep_view(), fid@);
    let mut out = String::new();
    let mut i: usize = 0;
    assert(out@ =~= Seq::<char>::empty());
    while i < metas.len()
        invariant
            i <= metas@.len(),
            seg@ == kebab(fid@),
            parts == constraint_parts(metas.deep_view(), fid@),
            gathered(parts.take(i as int)) == Ok::<Seq<char>, Seq<char>>(out@),
        decreases metas@.len() - i,
    {
        proof {
            gathered_step(parts, i as int);
            assert(metas.deep_view()[i as int] == metas@[i as int]@);
        }
        match lower_constraint(&metas[i], fid, seg.as_str()) {
            Ok(statement) => out.append(statement.as_str()),
            Err(e) => {
                proof {
                    gathered_stops(parts, i + 1);
                }
                return Err(e);
            },
        }
        i += 1;
    }
    assert(parts.take(i as int) =~= parts);
    Ok(out)
}

/// The items in an attribute, or what is wrong with it.
pub open spec fn attribute_items(source: Seq<char>) -> Result<Seq<Item>, Seq<char>> {
    match arguments_of(source) {
        Ok(args) => items_in(args),
        Err(message) => Err(message),
    }
}

/// The statements that the constraints in an attribute on a field become. An attribute that
/// is not for validation has none.
pub open spec fn attr_part(attr: Attr, fid: Seq<char>) -> Result<Seq<char>, Seq<char>> {
    if attr.ident.deep_view() == Some("validate"@) {
        match attribute_items(attr.source@) {
            Ok(items) => gathered(constraint_parts(items, fid)),
            Err(message) => Err(
                "malformed `#[validate(..)]` on field `"@ + fid + "`: "@ + message,
            ),
        }
    } else {
        Ok(Seq::empty())
    }
}

/// Prints the statements that the constraints in an attribute on a field become.
fn attr_text(attr: &Attr, fid: &str) -> (res: Result<String, EmitError>)
    ensures
        told(res) == attr_part(*attr, fid@),
{
    let validates = match &attr.ident {
        Some(ident) => str_eq(ident.as_str(), "validate"),
        None => false,
    };
    if !validates {
        let none = String::new();
        assert(none@ =~= Seq::<char>::empty());
        return Ok(none);
    }
    let metas = match attribute_args(attr.source.as_str()) {
        Ok(args) => parse_metas(args.as_str()),
        Err(message) => Err(message),
    };
    match metas {
        Ok(metas) => lower_constraints(metas.as_slice(), fid),
        Err(message) => error(
            "malformed `#[validate(..)]` on field `".to_string().concat(fid).concat("`: ").concat(
                message.as_str(),
            ),
        ),
    }
}

/// The constraints of an attribute are checked in their order, under the key of the field; an
/// attribute of another name says nothing.
pub proof fn constraints_keep_their_order(items: Seq<Item>, attr: Attr, fid: Seq<char>)
    ensures
        gathered(constraint_parts(items, fid)) matches Ok(s) ==> series(
            s,
            Seq::new(items.len(), |i: int| constraint_source(items[i], fid, kebab(fid))->Ok_0),
            ""@,
        ),
        attr.ident.deep_view() != Some("validate"@) ==> attr_part(attr, fid) == Ok::<
            Seq<char>,
            Seq<char>,
        >(Seq::empty()),
{
    let parts = constraint_parts(items, fid);
    pieces_are_gathered_in_order(parts);
    assert(Seq::new(parts.len(), |i: int| parts[i]->Ok_0) =~= Seq::new(
        items.len(),
        |i: int| constraint_source(items[i], fid, kebab(fid))->Ok_0,
    ));
}

/// The statements of the attributes on a field.
pub open spec fn attr_parts(attrs: Seq<Attr>, fid: Seq<char>) -> Seq<Result<Seq<char>, Seq<char>>> {
    Seq::new(attrs.len(), |i: int| attr_part(attrs[i], fid))
}

/// The statements of a field.
pub open spec fn field_part(f: Field) -> Result<Seq<char>, Seq<char>> {
    gathered(attr_parts(f.attrs@, f.ident@))
}

/// Prints the statements of a field.
fn field_statements(f: &Field) -> (res: Result<String, EmitError>)
    ensures
        told(res) == field_part(*f),
{
    let ghost parts = attr_parts(f.attrs@, f.ident@);
    let mut out = String::new();
    let mut i: usize = 0;
    assert(out@ =~= Seq::<char>::empty());
    while i < f.attrs.len()
        invariant
            i <= f.attrs.len(),
            parts == attr_parts(f.attrs@, f.ident@),
            gathered(parts.take(i as int)) == Ok::<Seq<char>, Seq<char>>(out@),
        decreases f.attrs.len() - i,
    {
        proof {
            gathered_step(parts, i as int);
        }
        match attr_text(&f.attrs[i], f.ident.as_str()) {
            Ok(statements) => out.append(statements.as_str()),
            Err(e) => {
                proof {
                    gathered_stops(parts, i + 1);
                }
                return Err(e);
            },
        }
        i += 1;
    }
    assert(parts.take(i as int) =~= parts);
    Ok(out)
}

/// The statements of fields.
pub open spec fn field_parts(fields: Seq<Field>) -> Seq<Result<Seq<char>, Seq<char>>> {
    Seq::new(fields.len(), |i: int| field_part(fields[i]))
}

/// Prints the statements of fields.
fn all_statements(fields: &Vec<Field>) -> (res: Result<String, EmitError>)
    ensures
        told(res) == gathered(field_parts(fields@)),
{
    let ghost parts = field_parts(fields@);
    let mut out = String::new();
    let mut i: usize = 0;
    assert(out@ =~= Seq::<char>::empty());
    while i < fields.len()
        invariant
            i <= fields.len(),
            parts == field_parts(fields@),
            gathered(parts.take(i as int)) == Ok::<Seq<char>, Seq<char>>(out@),
        decreases fields.len() - i,
    {
        proof {
            gathered_step(parts, i as int);
        }
        match field_statements(&fields[i]) {
            Ok(statements) => out.append(statements.as_str()),
            Err(e) => {
                proof {
                    gathered_stops(parts, i + 1);
                }
                return Err(e);
            },
        }
        i += 1;
    }
    assert(parts.take(i as int) =~= parts);
    Ok(out)
}

/// The source that validates what a derive is applied to, or what stands in the way.
pub open spec fn validate_source(item: DeriveItem) -> Result<Seq<char>, Seq<char>> {
    if item.generic {
        Err(
            "`"@ + item.ident@
                + "` is a generic #[derive(Validate)]: a generic validate target has no single concrete `ValidateInto` impl. Derive on a concrete instantiation."@,
        )
    } else {
        match item.fields {
            None => Err(
                "`"@ + item.ident@
                    + "` is not a struct: #[derive(Validate)] targets a named-field struct (the JavaBean shape)."@,
            ),
            Some(Fields::Named(fields)) => match gathered(field_parts(fields@)) {
                Ok(statements) => Ok(
                    "impl ::leaf_validation::ValidateInto for "@ + item.ident@
                        + " { fn validate_into(&self, __c: &mut ::leaf_validation::Cascade<'_>) { "@
                        + statements + "} }"@,
                ),
                Err(message) => Err(message),
            },
            Some(_) => Err(
                "`"@ + item.ident@
                    + "` has no named fields: a validate target must be a named-field struct."@,
            ),
        }
    }
}

/// A struct is validated field by field, in their order; a generic one, or one without named fields,
/// is refused.
pub proof fn struct_is_validated_field_by_field(item: DeriveItem)
    ensures
        item.generic || !(item.fields is Some && item.fields->0 is Named) ==> validate_source(item) is Err,
        !item.generic && item.fields is Some && item.fields->0 is Named ==> (validate_source(
            item,
        ) matches Ok(s) ==> (within(
            s,
            "impl ::leaf_validation::ValidateInto for "@ + item.ident@
                + " { fn validate_into(&self, __c: &mut ::leaf_validation::Cascade<'_>) { "@,
            "} }"@,
        ) matches Some(statements) && series(
            statements,
            Seq::new(
                item.fields->0->Named_0@.len(),
                |i: int| field_part(item.fields->0->Named_0@[i])->Ok_0,
            ),
            ""@,
        ))),
{
    if !item.generic && item.fields is Some && item.fields->0 is Named {
        let fields = item.fields->0->Named_0@;
        let parts = field_parts(fields);
        pieces_are_gathered_in_order(parts);
        if gathered(parts) is Ok {
            assert(Seq::new(parts.len(), |i: int| parts[i]->Ok_0) =~= Seq::new(
                fields.len(),
                |i: int| field_part(fields[i])->Ok_0,
            ));
            within_brackets(
                "impl ::leaf_validation::ValidateInto for "@ + item.ident@
                    + " { fn validate_into(&self, __c: &mut ::leaf_validation::Cascade<'_>) { "@,
                gathered(parts)->Ok_0,
                "} }"@,
            );
        }
    }
}

/// A struct is validated where each of its fields is.
pub proof fn sound_struct_is_validated(item: DeriveItem)
    requires
        !item.generic,
        item.fields is Some,
        item.fields->0 is Named,
        forall|i: int|
            0 <= i < item.fields->0->Named_0@.len() ==> field_part(
                #[trigger] item.fields->0->Named_0@[i],
            ) is Ok,
    ensures
        validate_source(item) is Ok,
{
    let fields = item.fields->0->Named_0@;
    let parts = field_parts(fields);
    pieces_are_gathered_in_order(parts);
    assert forall|i: int| 0 <= i < parts.len() implies #[trigger] parts[i] is Ok by {
        assert(parts[i] == field_part(fields[i]));
    }
}

/// Prints what validates the struct that a derive is applied to.
pub fn emit_validate(item: &DeriveItem) -> (res: Result<String, EmitError>)
    ensures
        told(res) == validate_source(*item),
{
    if item.generic {
        return error(
            "`".to_string().concat(item.ident.as_str()).concat(
                "` is a generic #[derive(Validate)]: a generic validate target has no single concrete `ValidateInto` impl. Derive on a concrete instantiation.",
            ),
        );
    }
    match &item.fields {
        None => error(
            "`".to_string().concat(item.ident.as_str()).concat(
                "` is not a struct: #[derive(Validate)] targets a named-field struct (the JavaBean shape).",
            ),
        ),
        Some(Fields::Named(fields)) => match all_statements(fields) {
            Ok(statements) => Ok(
                "impl ::leaf_validation::ValidateInto for ".to_string().concat(
                    item.ident.as_str(),
                ).concat(
                    " { fn validate_into(&self, __c: &mut ::leaf_validation::Cascade<'_>) { ",
                ).concat(statements.as_str()).concat("} }"),
            ),
            Err(e) => Err(e),
        },
        Some(_) => error(
            "`".to_string().concat(item.ident.as_str()).concat(
                "` has no named fields: a validate target must be a named-field struct.",
            ),
        ),
    }
}

} // verus!
