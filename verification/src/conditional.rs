//! Conditions under which an element takes part, the guards that are made of them, and
//! auto-configurations and imports.
use vstd::prelude::*;

use crate::annotation::{
    alias_free, candidate_role, closure, levels, merged, next_level, resolve, resolved,
    resolving_without_aliases, visits, winner, Ann, AttrValue, Merged, Value,
};
use crate::args::{
    arguments, assigns, calls, error, parse_arguments, told, Arg, ArgKind, EmitError, Expression,
    Form,
};
use crate::descriptor::{
    bean_source, emit, generic_message, generic_text, Bean, BeanInput, Scope, Slice,
};
use crate::items::StructItem;
use crate::naming::{
    contract_here, contract_text, mangle, mangled, type_id_source, type_id_text,
};
use crate::profile::{render_profile, rendered, Profile, ProfileExpr};
use crate::stereotype::{annotation_of, bare_annotation, struct_bean, struct_input, Stereotype};
use crate::syntax::{
    literal_source, paths_in, split_paths, string_literal, type_in, type_shape, TypeForm, TypeShape,
};
use crate::reading::{
    encloses, join_is_a_series, joined_lists, list_is_enclosed, lists, series, stands_in, within,
    within_brackets,
};
use crate::template::{
    filled, filled_part, filled_plain, filled_step, is_name_char, no_slots, slot_at, slot_text,
    Slots,
};
use crate::text::{
    bool_source, bool_text, contains_text, decimal, decimal_text, decimals_differ, join,
    join_texts, str_eq,
};

verus! {

/// A condition.
#[derive(Debug, PartialEq, Eq)]
pub enum CondExpr {
    /// A condition of some kind: the path of the kind, and its attributes.
    Leaf { kind: String, attrs: Vec<CondAttr> },
    /// Every one holds.
    All(Vec<CondExpr>),
    /// One of them holds at least.
    Any(Vec<CondExpr>),
    /// The condition does not hold.
    Not(Box<CondExpr>),
    /// A constant.
    Const(bool),
}

/// An attribute of a condition, under its key.
#[derive(Clone, Debug, PartialEq, Eq)]
pub enum CondAttr {
    /// A string.
    Str(String, String),
    /// A truth value.
    Bool(String, bool),
    /// A type.
    Type(String, String),
}

/// What a [`CondExpr`] stands for.
pub ghost enum Condition {
    Leaf { kind: Seq<char>, attrs: Seq<Trait> },
    All(Seq<Condition>),
    Any(Seq<Condition>),
    Not(Box<Condition>),
    Const(bool),
}

/// What a [`CondAttr`] stands for.
pub ghost enum Trait {
    Str(Seq<char>, Seq<char>),
    Bool(Seq<char>, bool),
    Type(Seq<char>, Seq<char>),
}

impl View for CondAttr {
    type V = Trait;

    open spec fn view(&self) -> Trait {
        match self {
            CondAttr::Str(key, value) => Trait::Str(key@, value@),
            CondAttr::Bool(key, value) => Trait::Bool(key@, *value),
            CondAttr::Type(key, ty) => Trait::Type(key@, ty@),
        }
    }
}

impl DeepView for CondAttr {
    type V = Trait;

    open spec fn deep_view(&self) -> Trait {
        self@
    }
}

/// The condition that `c` stands for.
pub open spec fn condition_of(c: CondExpr) -> Condition
    decreases c,
{
    match c {
        CondExpr::Leaf { kind, attrs } => Condition::Leaf { kind: kind@, attrs: attrs.deep_view() },
        CondExpr::All(parts) => Condition::All(
            Seq::new(
                parts@.len(),
                |i: int|
                    if 0 <= i < parts@.len() {
                        condition_of(parts@[i])
                    } else {
                        arbitrary()
                    },
            ),
        ),
        CondExpr::Any(parts) => Condition::Any(
            Seq::new(
                parts@.len(),
                |i: int|
                    if 0 <= i < parts@.len() {
                        condition_of(parts@[i])
                    } else {
                        arbitrary()
                    },
            ),
        ),
        CondExpr::Not(inner) => Condition::Not(Box::new(condition_of(*inner))),
        CondExpr::Const(b) => Condition::Const(b),
    }
}

impl View for CondExpr {
    type V = Condition;

    open spec fn view(&self) -> Condition {
        condition_of(*self)
    }
}

impl DeepView for CondExpr {
    type V = Condition;

    open spec fn deep_view(&self) -> Condition {
        condition_of(*self)
    }
}

/// The source of an attribute as a constant `::leaf_core::Attr` expression.
pub open spec fn trait_source(t: Trait) -> Seq<char> {
    match t {
        Trait::Str(key, value) => "::leaf_core::Attr::Str("@ + literal_source(key) + ", "@
            + literal_source(value) + ")"@,
        Trait::Bool(key, value) => "::leaf_core::Attr::Bool("@ + literal_source(key) + ", "@
            + bool_source(value) + ")"@,
        Trait::Type(key, ty) => "::leaf_core::Attr::Type("@ + literal_source(key) + ", "@
            + type_id_source(ty) + ")"@,
    }
}

impl CondAttr {
    /// Prints the attribute as a constant `::leaf_core::Attr` expression.
    pub fn lower(&self) -> (res: String)
        ensures
            res@ == trait_source(self@),
    {
        match self {
            CondAttr::Str(key, value) => {
                let key = string_literal(key.as_str());
                let value = string_literal(value.as_str());
                "::leaf_core::Attr::Str(".to_string().concat(key.as_str()).concat(", ").concat(
                    value.as_str(),
                ).concat(")")
            },
            CondAttr::Bool(key, value) => {
                let key = string_literal(key.as_str());
                "::leaf_core::Attr::Bool(".to_string().concat(key.as_str()).concat(", ").concat(
                    bool_text(*value),
                ).concat(")")
            },
            CondAttr::Type(key, ty) => {
                let key = string_literal(key.as_str());
                let ty = type_id_text(ty.as_str());
                "::leaf_core::Attr::Type(".to_string().concat(key.as_str()).concat(", ").concat(
                    ty.as_str(),
                ).concat(")")
            },
        }
    }
}

/// The source of the id of a kind of conditions.
pub open spec fn condition_id(kind: Seq<char>) -> Seq<char> {
    "::leaf_core::ConditionId(::leaf_core::contract_hash("@ + literal_source(kind) + ") as u32)"@
}

/// Prints the id of a kind of conditions.
fn lower_condition_id(kind: &str) -> (res: String)
    ensures
        res@ == condition_id(kind@),
{
    let kind = string_literal(kind);
    "::leaf_core::ConditionId(::leaf_core::contract_hash(".to_string().concat(
        kind.as_str(),
    ).concat(") as u32)")
}

/// The source of attributes.
pub open spec fn trait_sources(attrs: Seq<Trait>) -> Seq<Seq<char>> {
    Seq::new(attrs.len(), |i: int| trait_source(attrs[i]))
}

/// The source of `c` as a constant `::leaf_core::CondExpr` expression.
pub open spec fn condition_source(c: Condition) -> Seq<char>
    decreases c,
{
    match c {
        Condition::Const(b) => "::leaf_core::CondExpr::Const("@ + bool_source(b) + ")"@,
        Condition::Leaf { kind, attrs } => "::leaf_core::CondExpr::Leaf("@ + condition_id(kind)
            + ", &["@ + join(trait_sources(attrs), ", "@) + "])"@,
        Condition::All(parts) => "::leaf_core::CondExpr::All(&["@ + join(
            condition_sources(parts),
            ", "@,
        ) + "])"@,
        Condition::Any(parts) => "::leaf_core::CondExpr::Any(&["@ + join(
            condition_sources(parts),
            ", "@,
        ) + "])"@,
        Condition::Not(inner) => "::leaf_core::CondExpr::Not(&"@ + condition_source(*inner)
            + ")"@,
    }
}

/// The source of each of `parts`.
pub open spec fn condition_sources(parts: Seq<Condition>) -> Seq<Seq<char>>
    decreases parts,
{
    Seq::new(
        parts.len(),
        |i: int|
            if 0 <= i < parts.len() {
                condition_source(parts[i])
            } else {
                arbitrary()
            },
    )
}

/// `s` is the source of an attribute: of its own kind, with its key and its value.
pub open spec fn tells_trait(s: Seq<char>, t: Trait) -> bool {
    match t {
        Trait::Str(key, value) => within(s, "::leaf_core::Attr::Str("@, ")"@) == Some(
            literal_source(key) + ", "@ + literal_source(value),
        ),
        Trait::Bool(key, value) => within(s, "::leaf_core::Attr::Bool("@, ")"@) == Some(
            literal_source(key) + ", "@ + if value {
                "true"@
            } else {
                "false"@
            },
        ),
        Trait::Type(key, ty) => within(s, "::leaf_core::Attr::Type("@, ")"@) == Some(
            literal_source(key) + ", "@ + ("const { ::core::any::TypeId::of::<"@ + ty + ">() }"@),
        ),
    }
}

/// `s` is the source of a condition: a conjunction lists the sources of its parts, in their
/// order, and so does a disjunction; a negation holds the source of what it denies; a
/// condition of some kind holds the id of the kind and lists its attributes.
pub open spec fn tells(s: Seq<char>, c: Condition) -> bool
    decreases c,
{
    match c {
        Condition::Const(b) => s == if b {
            "::leaf_core::CondExpr::Const(true)"@
        } else {
            "::leaf_core::CondExpr::Const(false)"@
        },
        Condition::Leaf { kind, attrs } => exists|texts: Seq<Seq<char>>|
            {
                &&& texts.len() == attrs.len()
                &&& forall|k: int| 0 <= k < attrs.len() ==> tells_trait(#[trigger] texts[k], attrs[k])
                &&& #[trigger] encloses(
                    s,
                    "::leaf_core::CondExpr::Leaf("@
                        + ("::leaf_core::ConditionId(::leaf_core::contract_hash("@ + literal_source(
                        kind,
                    ) + ") as u32)"@) + ", &["@,
                    texts,
                    "])"@,
                )
            },
        Condition::All(parts) => exists|texts: Seq<Seq<char>>|
            {
                &&& texts.len() == parts.len()
                &&& forall|k: int| 0 <= k < parts.len() ==> tells(#[trigger] texts[k], parts[k])
                &&& #[trigger] encloses(s, "::leaf_core::CondExpr::All(&["@, texts, "])"@)
            },
        Condition::Any(parts) => exists|texts: Seq<Seq<char>>|
            {
                &&& texts.len() == parts.len()
                &&& forall|k: int| 0 <= k < parts.len() ==> tells(#[trigger] texts[k], parts[k])
                &&& #[trigger] encloses(s, "::leaf_core::CondExpr::Any(&["@, texts, "])"@)
            },
        Condition::Not(denied) => within(s, "::leaf_core::CondExpr::Not(&"@, ")"@) matches Some(
            inner,
        ) && tells(inner, *denied),
    }
}

/// The source of an attribute tells the attribute.
pub proof fn attribute_is_told(t: Trait)
    ensures
        tells_trait(trait_source(t), t),
{
    match t {
        Trait::Str(key, value) => {
            let inner = literal_source(key) + ", "@ + literal_source(value);
            within_brackets("::leaf_core::Attr::Str("@, inner, ")"@);
            assert(trait_source(t) =~= "::leaf_core::Attr::Str("@ + inner + ")"@);
        },
        Trait::Bool(key, value) => {
            let inner = literal_source(key) + ", "@ + if value {
                "true"@
            } else {
                "false"@
            };
            within_brackets("::leaf_core::Attr::Bool("@, inner, ")"@);
            assert(trait_source(t) =~= "::leaf_core::Attr::Bool("@ + inner + ")"@);
        },
        Trait::Type(key, ty) => {
            let inner = literal_source(key) + ", "@ + ("const { ::core::any::TypeId::of::<"@ + ty
                + ">() }"@);
            within_brackets("::leaf_core::Attr::Type("@, inner, ")"@);
            assert(trait_source(t) =~= "::leaf_core::Attr::Type("@ + inner + ")"@);
        },
    }
}

/// The source of a condition tells the condition: what is a conjunction is printed as one, what
/// is a disjunction as one, and each part stands in its place.
pub proof fn condition_is_told(c: Condition)
    ensures
        tells(condition_source(c), c),
    decreases c,
{
    match c {
        Condition::Const(b) => {
            reveal_strlit("::leaf_core::CondExpr::Const(true)");
            reveal_strlit("::leaf_core::CondExpr::Const(false)");
            reveal_strlit("::leaf_core::CondExpr::Const(");
            reveal_strlit("true");
            reveal_strlit("false");
            reveal_strlit(")");
            if b {
                assert(condition_source(c) =~= "::leaf_core::CondExpr::Const(true)"@);
            } else {
                assert(condition_source(c) =~= "::leaf_core::CondExpr::Const(false)"@);
            }
        },
        Condition::Leaf { kind, attrs } => {
            let texts = trait_sources(attrs);
            assert forall|k: int| 0 <= k < attrs.len() implies tells_trait(
                #[trigger] texts[k],
                attrs[k],
            ) by {
                attribute_is_told(attrs[k]);
            }
            list_is_enclosed(
                "::leaf_core::CondExpr::Leaf("@
                    + ("::leaf_core::ConditionId(::leaf_core::contract_hash("@ + literal_source(
                    kind,
                ) + ") as u32)"@) + ", &["@,
                texts,
                "])"@,
            );
        },
        Condition::All(parts) => {
            parts_are_told(parts);
            let texts = condition_sources(parts);
            list_is_enclosed("::leaf_core::CondExpr::All(&["@, texts, "])"@);
        },
        Condition::Any(parts) => {
            parts_are_told(parts);
            let texts = condition_sources(parts);
            list_is_enclosed("::leaf_core::CondExpr::Any(&["@, texts, "])"@);
        },
        Condition::Not(inner) => {
            condition_is_told(*inner);
            within_brackets("::leaf_core::CondExpr::Not(&"@, condition_source(*inner), ")"@);
        },
    }
}

/// The sources of parts tell the parts.
proof fn parts_are_told(parts: Seq<Condition>)
    ensures
        condition_sources(parts).len() == parts.len(),
        forall|k: int|
            0 <= k < parts.len() ==> tells(#[trigger] condition_sources(parts)[k], parts[k]),
    decreases parts,
{
    assert forall|k: int| 0 <= k < parts.len() implies tells(
        #[trigger] condition_sources(parts)[k],
        parts[k],
    ) by {
        condition_is_told(parts[k]);
    }
}

/// The kinds that `c` speaks of behind those in `met`, each where it is met first.
pub open spec fn kinds_from(c: Condition, met: Seq<Seq<char>>) -> Seq<Seq<char>>
    decreases c,
{
    match c {
        Condition::Leaf { kind, .. } => if met.contains(kind) {
            met
        } else {
            met.push(kind)
        },
        Condition::All(parts) => kinds_from_all(parts, met),
        Condition::Any(parts) => kinds_from_all(parts, met),
        Condition::Not(inner) => kinds_from(*inner, met),
        Condition::Const(_) => met,
    }
}

/// The kinds that `parts` speak of behind those in `met`.
pub open spec fn kinds_from_all(parts: Seq<Condition>, met: Seq<Seq<char>>) -> Seq<Seq<char>>
    decreases parts,
{
    if parts.len() == 0 {
        met
    } else {
        kinds_from(parts.last(), kinds_from_all(parts.drop_last(), met))
    }
}

/// The kinds that `c` speaks of.
pub open spec fn kinds(c: Condition) -> Seq<Seq<char>> {
    kinds_from(c, Seq::empty())
}

impl Clone for CondExpr {
    fn clone(&self) -> (res: CondExpr)
        ensures
            res@ == self@,
    {
        copy_condition(self)
    }
}

/// An attribute that stands for the same as `attr`.
fn copy_attr(attr: &CondAttr) -> (res: CondAttr)
    ensures
        res@ == attr@,
{
    match attr {
        CondAttr::Str(key, value) => CondAttr::Str(key.clone(), value.clone()),
        CondAttr::Bool(key, value) => CondAttr::Bool(key.clone(), *value),
        CondAttr::Type(key, ty) => CondAttr::Type(key.clone(), ty.clone()),
    }
}

/// A condition that stands for the same as `expr`.
fn copy_condition(expr: &CondExpr) -> (res: CondExpr)
    ensures
        res@ == expr@,
    decreases expr, 0nat,
{
    match expr {
        CondExpr::Leaf { kind, attrs } => {
            let mut copies: Vec<CondAttr> = Vec::new();
            let mut i: usize = 0;
            while i < attrs.len()
                invariant
                    i <= attrs.len(),
                    copies@.len() == i,
                    forall|k: int| 0 <= k < i ==> (#[trigger] copies@[k])@ == attrs@[k]@,
                decreases attrs.len() - i,
            {
                copies.push(copy_attr(&attrs[i]));
                i += 1;
            }
            let res = CondExpr::Leaf { kind: kind.clone(), attrs: copies };
            assert(res@->attrs =~= expr@->attrs);
            res
        },
        CondExpr::All(parts) => {
            assert(decreases_to!(expr => expr->All_0));
            let res = CondExpr::All(copy_conditions(parts));
            assert(res@->All_0 =~= expr@->All_0);
            res
        },
        CondExpr::Any(parts) => {
            assert(decreases_to!(expr => expr->Any_0));
            let res = CondExpr::Any(copy_conditions(parts));
            assert(res@->Any_0 =~= expr@->Any_0);
            res
        },
        CondExpr::Not(inner) => CondExpr::Not(Box::new(copy_condition(inner))),
        CondExpr::Const(b) => CondExpr::Const(*b),
    }
}

/// Conditions that stand for the same as `parts`.
fn copy_conditions(parts: &Vec<CondExpr>) -> (res: Vec<CondExpr>)
    ensures
        res@.len() == parts@.len(),
        forall|k: int| 0 <= k < parts@.len() ==> (#[trigger] res@[k])@ == parts@[k]@,
    decreases parts, 1nat,
{
    let mut out: Vec<CondExpr> = Vec::new();
    let mut i: usize = 0;
    while i < parts.len()
        invariant
            i <= parts.len(),
            out@.len() == i,
            forall|k: int| 0 <= k < i ==> (#[trigger] out@[k])@ == parts@[k]@,
        decreases parts.len() - i,
    {
        assert(decreases_to!(parts => parts@[i as int]));
        out.push(copy_condition(&parts[i]));
        i += 1;
    }
    out
}

impl CondExpr {
    /// Prints the condition as a constant `::leaf_core::CondExpr` expression.
    pub fn lower(&self) -> (res: String)
        ensures
            res@ == condition_source(self@),
        decreases self,
    {
        match self {
            CondExpr::Const(b) => "::leaf_core::CondExpr::Const(".to_string().concat(
                bool_text(*b),
            ).concat(")"),
            CondExpr::Leaf { kind, attrs } => {
                let id = lower_condition_id(kind.as_str());
                let list = lower_attrs(attrs);
                "::leaf_core::CondExpr::Leaf(".to_string().concat(id.as_str()).concat(
                    ", &[",
                ).concat(list.as_str()).concat("])")
            },
            CondExpr::All(parts) => {
                assert(decreases_to!(self => self->All_0));
                assert(parts.deep_view() =~= self@->All_0);
                let list = lower_all(parts);
                "::leaf_core::CondExpr::All(&[".to_string().concat(list.as_str()).concat("])")
            },
            CondExpr::Any(parts) => {
                assert(decreases_to!(self => self->Any_0));
                assert(parts.deep_view() =~= self@->Any_0);
                let list = lower_all(parts);
                "::leaf_core::CondExpr::Any(&[".to_string().concat(list.as_str()).concat("])")
            },
            CondExpr::Not(inner) => {
                let row = inner.lower();
                "::leaf_core::CondExpr::Not(&".to_string().concat(row.as_str()).concat(")")
            },
        }
    }

    /// The kinds that the condition speaks of, each once, in the order they are met.
    pub fn leaf_kinds(&self) -> (res: Vec<String>)
        ensures
            res.deep_view() == kinds(self@),
    {
        let mut out: Vec<String> = Vec::new();
        assert(out.deep_view() =~= Seq::<Seq<char>>::empty());
        self.collect_kinds(&mut out);
        out
    }

    fn collect_kinds(&self, out: &mut Vec<String>)
        ensures
            final(out).deep_view() == kinds_from(self@, old(out).deep_view()),
        decreases self,
    {
        match self {
            CondExpr::Leaf { kind, .. } => {
                if !contains_text(out.as_slice(), kind.as_str()) {
                    let ghost before = out.deep_view();
                    out.push(kind.clone());
                    assert(out.deep_view() =~= before.push(kind@));
                }
            },
            CondExpr::All(parts) => {
                assert(decreases_to!(self => self->All_0));
                assert(parts.deep_view() =~= self@->All_0);
                collect_all(parts, out);
            },
            CondExpr::Any(parts) => {
                assert(decreases_to!(self => self->Any_0));
                assert(parts.deep_view() =~= self@->Any_0);
                collect_all(parts, out);
            },
            CondExpr::Not(inner) => inner.collect_kinds(out),
            CondExpr::Const(_) => {},
        }
    }
}

/// Adds the kinds that `parts` speak of.
fn collect_all(parts: &Vec<CondExpr>, out: &mut Vec<String>)
    ensures
        final(out).deep_view() == kinds_from_all(parts.deep_view(), old(out).deep_view()),
    decreases parts,
{
    let ghost all = parts.deep_view();
    let ghost met = out.deep_view();
    let mut i: usize = 0;
    assert(all.take(0) =~= Seq::<Condition>::empty());
    while i < parts.len()
        invariant
            all == parts.deep_view(),
            i <= parts.len(),
            out.deep_view() == kinds_from_all(all.take(i as int), met),
        decreases parts.len() - i,
    {
        proof {
            let next = all.take(i + 1);
            assert(next.drop_last() =~= all.take(i as int));
            assert(next.last() == parts@[i as int]@);
        }
        assert(decreases_to!(parts => parts@[i as int]));
        parts[i].collect_kinds(out);
        i += 1;
    }
    assert(all.take(i as int) =~= all);
}

/// Prints attributes with commas between them.
fn lower_attrs(attrs: &Vec<CondAttr>) -> (res: String)
    ensures
        res@ == join(trait_sources(attrs.deep_view()), ", "@),
{
    let mut rows: Vec<String> = Vec::new();
    let mut i: usize = 0;
    while i < attrs.len()
        invariant
            i <= attrs.len(),
            rows@.len() == i,
            forall|k: int| 0 <= k < i ==> (#[trigger] rows@[k])@ == trait_source(attrs@[k]@),
        decreases attrs.len() - i,
    {
        rows.push(attrs[i].lower());
        i += 1;
    }
    assert(rows.deep_view() =~= trait_sources(attrs.deep_view()));
    join_texts(&rows, ", ")
}

/// Prints conditions with commas between them.
fn lower_all(parts: &Vec<CondExpr>) -> (res: String)
    ensures
        res@ == join(condition_sources(parts.deep_view()), ", "@),
    decreases parts,
{
    let mut rows: Vec<String> = Vec::new();
    let mut i: usize = 0;
    while i < parts.len()
        invariant
            i <= parts.len(),
            rows@.len() == i,
            forall|k: int| 0 <= k < i ==> (#[trigger] rows@[k])@ == condition_source(parts@[k]@),
        decreases parts.len() - i,
    {
        assert(decreases_to!(parts => parts@[i as int]));
        rows.push(parts[i].lower());
        i += 1;
    }
    assert(rows.deep_view() =~= condition_sources(parts.deep_view()));
    join_texts(&rows, ", ")
}

/// `c` speaks of `kind`.
pub open spec fn speaks_of(c: Condition, kind: Seq<char>) -> bool
    decreases c,
{
    match c {
        Condition::Leaf { kind: own, .. } => own == kind,
        Condition::All(parts) => one_speaks_of(parts, kind),
        Condition::Any(parts) => one_speaks_of(parts, kind),
        Condition::Not(inner) => speaks_of(*inner, kind),
        Condition::Const(_) => false,
    }
}

/// One of `parts` speaks of `kind`.
pub open spec fn one_speaks_of(parts: Seq<Condition>, kind: Seq<char>) -> bool
    decreases parts,
{
    exists|i: int| 0 <= i < parts.len() && speaks_of(#[trigger] parts[i], kind)
}

/// Kinds that are met are added, none twice.
proof fn kinds_are_added(c: Condition, met: Seq<Seq<char>>)
    requires
        met.no_duplicates(),
    ensures
        kinds_from(c, met).no_duplicates(),
        forall|k: Seq<char>| #[trigger]
            kinds_from(c, met).contains(k) <==> met.contains(k) || speaks_of(c, k),
    decreases c,
{
    match c {
        Condition::Leaf { kind, .. } => {
            if !met.contains(kind) {
                let more = met.push(kind);
                assert forall|k: Seq<char>| #[trigger] more.contains(k) <==> met.contains(k) || kind
                    == k by {
                    if met.contains(k) {
                        let i = choose|i: int| 0 <= i < met.len() && met[i] == k;
                        assert(more[i] == k);
                    }
                    if kind == k {
                        assert(more[met.len() as int] == k);
                    }
                }
            }
        },
        Condition::All(parts) => {
            kinds_of_all_are_added(parts, met);
        },
        Condition::Any(parts) => {
            kinds_of_all_are_added(parts, met);
        },
        Condition::Not(inner) => {
            kinds_are_added(*inner, met);
        },
        Condition::Const(_) => {},
    }
}

/// Kinds that are met are added, none twice.
proof fn kinds_of_all_are_added(parts: Seq<Condition>, met: Seq<Seq<char>>)
    requires
        met.no_duplicates(),
    ensures
        kinds_from_all(parts, met).no_duplicates(),
        forall|k: Seq<char>| #[trigger]
            kinds_from_all(parts, met).contains(k) <==> met.contains(k) || one_speaks_of(parts, k),
    decreases parts,
{
    if parts.len() > 0 {
        let fewer = parts.drop_last();
        kinds_of_all_are_added(fewer, met);
        let before = kinds_from_all(fewer, met);
        kinds_are_added(parts.last(), before);
        assert forall|k: Seq<char>| #[trigger]
            kinds_from_all(parts, met).contains(k) <==> met.contains(k) || one_speaks_of(
            parts,
            k,
        ) by {
            assert(before.contains(k) <==> met.contains(k) || one_speaks_of(fewer, k));
            if one_speaks_of(fewer, k) {
                let i = choose|i: int| 0 <= i < fewer.len() && speaks_of(#[trigger] fewer[i], k);
                assert(speaks_of(parts[i], k));
            }
            if one_speaks_of(parts, k) {
                let i = choose|i: int| 0 <= i < parts.len() && speaks_of(#[trigger] parts[i], k);
                if i < fewer.len() {
                    assert(speaks_of(fewer[i], k));
                }
            }
        }
    }
}

/// The kinds of a condition are those it speaks of, each once.
pub proof fn kinds_are_met_once(c: Condition)
    ensures
        kinds(c).no_duplicates(),
        forall|k: Seq<char>| #[trigger] kinds(c).contains(k) <==> speaks_of(c, k),
{
    kinds_are_added(c, Seq::empty());
}

/// The path of the kind of conditions that is called `name`.
pub open spec fn canonical(name: Seq<char>) -> Result<Seq<char>, Seq<char>> {
    if name == "on_property"@ {
        Ok("leaf::condition::OnProperty"@)
    } else if name == "on_missing_property"@ {
        Ok("leaf::condition::OnMissingProperty"@)
    } else if name == "on_bean"@ {
        Ok("leaf::condition::OnBean"@)
    } else if name == "on_missing_bean"@ {
        Ok("leaf::condition::OnMissingBean"@)
    } else if name == "on_single_candidate"@ {
        Ok("leaf::condition::OnSingleCandidate"@)
    } else if name == "on_class"@ {
        Ok("leaf::condition::OnClass"@)
    } else if name == "on_missing_class"@ {
        Ok("leaf::condition::OnMissingClass"@)
    } else {
        Err("unknown condition kind `"@ + name + "`"@)
    }
}

/// The path of the kind of conditions that is called `name`.
fn canonical_kind(name: &str) -> (res: Result<String, EmitError>)
    ensures
        told(res) == canonical(name@),
{
    if str_eq(name, "on_property") {
        Ok("leaf::condition::OnProperty".to_string())
    } else if str_eq(name, "on_missing_property") {
        Ok("leaf::condition::OnMissingProperty".to_string())
    } else if str_eq(name, "on_bean") {
        Ok("leaf::condition::OnBean".to_string())
    } else if str_eq(name, "on_missing_bean") {
        Ok("leaf::condition::OnMissingBean".to_string())
    } else if str_eq(name, "on_single_candidate") {
        Ok("leaf::condition::OnSingleCandidate".to_string())
    } else if str_eq(name, "on_class") {
        Ok("leaf::condition::OnClass".to_string())
    } else if str_eq(name, "on_missing_class") {
        Ok("leaf::condition::OnMissingClass".to_string())
    } else {
        error("unknown condition kind `".to_string().concat(name).concat("`"))
    }
}

/// The identifier that an expression is.
pub open spec fn path_name(e: Expression) -> Option<Seq<char>> {
    match e.kind {
        Form::Path { ident, .. } => ident,
        _ => None,
    }
}

/// The identifier that an expression is.
fn path_ident(arg: &Arg) -> (res: Option<String>)
    ensures
        res.deep_view() == path_name(arg@),
{
    match &arg.kind {
        ArgKind::Path { ident: Some(ident), .. } => Some(ident.clone()),
        _ => None,
    }
}

/// The attribute `key = value` of a condition.
pub open spec fn named_trait(key: Seq<char>, value: Expression) -> Result<Trait, Seq<char>> {
    match value.kind {
        Form::Str(s) => Ok(Trait::Str(key, s)),
        Form::Bool(b) => Ok(Trait::Bool(key, b)),
        _ => Err(
            "attribute `"@ + key + "` must be a string or bool, got `"@ + value.source + "`"@,
        ),
    }
}

/// The attribute `key = value` of a condition.
fn parse_named_attr(key: &str, value: &Arg) -> (res: Result<CondAttr, EmitError>)
    ensures
        told(res) == named_trait(key@, value@),
{
    match &value.kind {
        ArgKind::Str(s) => Ok(CondAttr::Str(key.to_string(), s.clone())),
        ArgKind::Bool(b) => Ok(CondAttr::Bool(key.to_string(), *b)),
        _ => error(
            "attribute `".to_string().concat(key).concat(
                "` must be a string or bool, got `",
            ).concat(value.source.as_str()).concat("`"),
        ),
    }
}

/// The attribute that the argument at `i` of a condition on a property is: the key of the
/// property in front, `name = value` elsewhere.
pub open spec fn property_trait(name: Seq<char>, e: Expression, i: nat) -> Result<
    Trait,
    Seq<char>,
> {
    match e.kind {
        Form::Str(s) if i == 0 => Ok(Trait::Str("name"@, s)),
        Form::Assign { left, right } => match path_name(*left) {
            Some(key) => named_trait(key, *right),
            None => Err("a named condition attribute must use a bare identifier key"@),
        },
        _ => Err(
            "`"@ + name + "` expects a property key string then `name = value` pairs, got `"@
                + e.source + "`"@,
        ),
    }
}

/// The attribute that the argument at `i` of a condition on a property is.
fn parse_property_attr(name: &str, arg: &Arg, i: usize) -> (res: Result<CondAttr, EmitError>)
    ensures
        told(res) == property_trait(name@, arg@, i as nat),
{
    match &arg.kind {
        ArgKind::Str(s) if i == 0 => Ok(CondAttr::Str("name".to_string(), s.clone())),
        ArgKind::Assign { left, right } => match path_ident(left) {
            Some(key) => parse_named_attr(key.as_str(), right),
            None => error(
                "a named condition attribute must use a bare identifier key".to_string(),
            ),
        },
        _ => error(
            "`".to_string().concat(name).concat(
                "` expects a property key string then `name = value` pairs, got `",
            ).concat(arg.source.as_str()).concat("`"),
        ),
    }
}

/// The attributes that the arguments of a condition on a property are. The first argument
/// that cannot be decides.
pub open spec fn property_traits(name: Seq<char>, items: Seq<Expression>) -> Result<
    Seq<Trait>,
    Seq<char>,
>
    decreases items.len(),
{
    if items.len() == 0 {
        Ok(Seq::empty())
    } else {
        match property_traits(name, items.drop_last()) {
            Ok(list) => match property_trait(name, items.last(), (items.len() - 1) as nat) {
                Ok(one) => Ok(list.push(one)),
                Err(message) => Err(message),
            },
            Err(message) => Err(message),
        }
    }
}

/// An argument that cannot be decides, whatever follows.
proof fn property_traits_stop(name: Seq<char>, items: Seq<Expression>, n: int)
    requires
        0 <= n <= items.len(),
        property_traits(name, items.take(n)) is Err,
    ensures
        property_traits(name, items) == property_traits(name, items.take(n)),
    decreases items.len(),
{
    if n == items.len() {
        assert(items.take(n) =~= items);
    } else {
        assert(items.drop_last().take(n) =~= items.take(n));
        property_traits_stop(name, items.drop_last(), n);
    }
}

/// A condition of the kind that is called `name`.
pub open spec fn leaf(name: Seq<char>, attrs: Seq<Trait>) -> Result<Condition, Seq<char>> {
    match canonical(name) {
        Ok(kind) => Ok(Condition::Leaf { kind, attrs }),
        Err(message) => Err(message),
    }
}

/// A condition of the kind that is called `name`.
fn make_leaf(name: &str, attrs: Vec<CondAttr>) -> (res: Result<CondExpr, EmitError>)
    ensures
        told(res) == leaf(name@, attrs.deep_view()),
{
    match canonical_kind(name) {
        Ok(kind) => Ok(CondExpr::Leaf { kind, attrs }),
        Err(e) => Err(e),
    }
}

/// A condition on a property.
pub open spec fn property_leaf(name: Seq<char>, items: Seq<Expression>) -> Result<
    Condition,
    Seq<char>,
> {
    match property_traits(name, items) {
        Ok(attrs) => if items.len() > 0 && items[0].kind is Str {
            leaf(name, attrs)
        } else {
            Err("`"@ + name + "` requires a property key string as its first argument"@)
        },
        Err(message) => Err(message),
    }
}

/// A condition on a property.
fn parse_property_leaf(name: &str, args: &Vec<Arg>) -> (res: Result<CondExpr, EmitError>)
    ensures
        told(res) == property_leaf(name@, args.deep_view()),
{
    let ghost all = args.deep_view();
    let mut attrs: Vec<CondAttr> = Vec::new();
    let mut i: usize = 0;
    assert(attrs.deep_view() =~= Seq::<Trait>::empty());
    assert(all.take(0) =~= Seq::<Expression>::empty());
    while i < args.len()
        invariant
            all == args.deep_view(),
            i <= args.len(),
            property_traits(name@, all.take(i as int)) == Ok::<Seq<Trait>, Seq<char>>(
                attrs.deep_view(),
            ),
        decreases args.len() - i,
    {
        let ghost before = attrs.deep_view();
        proof {
            let next = all.take(i + 1);
            assert(next.drop_last() =~= all.take(i as int));
            assert(next.last() == args@[i as int]@);
        }
        match parse_property_attr(name, &args[i], i) {
            Ok(one) => {
                let ghost added = one@;
                attrs.push(one);
                assert(attrs.deep_view() =~= before.push(added));
            },
            Err(e) => {
                proof {
                    property_traits_stop(name@, all, i + 1);
                }
                return Err(e);
            },
        }
        i += 1;
    }
    assert(all.take(i as int) =~= all);
    if args.len() > 0 {
        assert(all[0] == args@[0]@);
        if let ArgKind::Str(_) = &args[0].kind {
            return make_leaf(name, attrs);
        }
    }
    error(
        "`".to_string().concat(name).concat(
            "` requires a property key string as its first argument",
        ),
    )
}

/// A condition on the beans of a type.
pub open spec fn bean_leaf(name: Seq<char>, items: Seq<Expression>) -> Result<
    Condition,
    Seq<char>,
> {
    if items.len() != 1 {
        Err("`"@ + name + "` takes exactly one type argument, got "@ + decimal(items.len()))
    } else if let Form::Path { whole, .. } = items[0].kind {
        leaf(name, seq![Trait::Type("type"@, whole)])
    } else {
        Err(
            "`"@ + name + "` expects a bean TYPE argument (e.g. `"@ + name + "(MyService)`)"@,
        )
    }
}

/// A condition on the beans of a type.
fn parse_bean_leaf(name: &str, args: &Vec<Arg>) -> (res: Result<CondExpr, EmitError>)
    ensures
        told(res) == bean_leaf(name@, args.deep_view()),
{
    if args.len() != 1 {
        let count = decimal_text(args.len() as u64);
        return error(
            "`".to_string().concat(name).concat("` takes exactly one type argument, got ").concat(
                count.as_str(),
            ),
        );
    }
    assert(args.deep_view()[0] == args@[0]@);
    if let ArgKind::Path { whole, .. } = &args[0].kind {
        let mut attrs: Vec<CondAttr> = Vec::new();
        attrs.push(CondAttr::Type("type".to_string(), whole.clone()));
        assert(attrs.deep_view() =~= seq![Trait::Type("type"@, whole@)]);
        return make_leaf(name, attrs);
    }
    error(
        "`".to_string().concat(name).concat("` expects a bean TYPE argument (e.g. `").concat(
            name,
        ).concat("(MyService)`)"),
    )
}

/// A condition on a class.
pub open spec fn class_leaf(name: Seq<char>, items: Seq<Expression>) -> Result<
    Condition,
    Seq<char>,
> {
    if items.len() != 1 {
        Err("`"@ + name + "` takes exactly one string argument, got "@ + decimal(items.len()))
    } else {
        match items[0].kind {
            Form::Str(s) => leaf(name, seq![Trait::Str("class"@, s)]),
            _ => Err(
                "`"@ + name + "` expects a string argument, got `"@ + items[0].source + "`"@,
            ),
        }
    }
}

/// A condition on a class.
fn parse_class_leaf(name: &str, args: &Vec<Arg>) -> (res: Result<CondExpr, EmitError>)
    ensures
        told(res) == class_leaf(name@, args.deep_view()),
{
    if args.len() != 1 {
        let count = decimal_text(args.len() as u64);
        return error(
            "`".to_string().concat(name).concat(
                "` takes exactly one string argument, got ",
            ).concat(count.as_str()),
        );
    }
    assert(args.deep_view()[0] == args@[0]@);
    match &args[0].kind {
        ArgKind::Str(s) => {
            let mut attrs: Vec<CondAttr> = Vec::new();
            attrs.push(CondAttr::Str("class".to_string(), s.clone()));
            assert(attrs.deep_view() =~= seq![Trait::Str("class"@, s@)]);
            make_leaf(name, attrs)
        },
        _ => error(
            "`".to_string().concat(name).concat("` expects a string argument, got `").concat(
                args[0].source.as_str(),
            ).concat("`"),
        ),
    }
}

/// The condition that an expression is, or what is wrong with it.
pub open spec fn condition_in(e: Expression) -> Result<Condition, Seq<char>>
    decreases e,
{
    match e.kind {
        Form::Bool(b) => Ok(Condition::Const(b)),
        Form::Call { func, args } => match path_name(*func) {
            Some(name) => if name == "all"@ {
                match conditions_in(args) {
                    Ok(list) => Ok(Condition::All(list)),
                    Err(message) => Err(message),
                }
            } else if name == "any"@ {
                match conditions_in(args) {
                    Ok(list) => Ok(Condition::Any(list)),
                    Err(message) => Err(message),
                }
            } else if name == "not"@ {
                if args.len() != 1 {
                    Err("`not(..)` takes exactly one child, got "@ + decimal(args.len()))
                } else {
                    match condition_in(args[0]) {
                        Ok(inner) => Ok(Condition::Not(Box::new(inner))),
                        Err(message) => Err(message),
                    }
                }
            } else if name == "on_property"@ || name == "on_missing_property"@ {
                property_leaf(name, args)
            } else if name == "on_bean"@ || name == "on_missing_bean"@ || name
                == "on_single_candidate"@ {
                bean_leaf(name, args)
            } else if name == "on_class"@ || name == "on_missing_class"@ {
                class_leaf(name, args)
            } else {
                Err(
                    "unknown #[conditional] kind `"@ + name
                        + "` (expected on_property/on_bean/on_missing_bean/on_single_candidate/on_class/on_missing_class/all/any/not)"@,
                )
            },
            None => Err("a #[conditional] node must be a simple `kind(...)` call"@),
        },
        Form::Path { ident: Some(name), .. } => leaf(name, Seq::empty()),
        Form::Path { ident: None, .. } => Err("expected a condition kind like `on_property(...)`"@),
        _ => Err(
            "unexpected #[conditional] expression `"@ + e.source
                + "` (expected `on_*(...)`, `all/any/not(...)`, or a bool literal)"@,
        ),
    }
}

/// The conditions that expressions are. The first one that cannot be decides.
pub open spec fn conditions_in(items: Seq<Expression>) -> Result<Seq<Condition>, Seq<char>>
    decreases items,
{
    if items.len() == 0 {
        Ok(Seq::empty())
    } else {
        match conditions_in(items.drop_last()) {
            Ok(list) => match condition_in(items.last()) {
                Ok(one) => Ok(list.push(one)),
                Err(message) => Err(message),
            },
            Err(message) => Err(message),
        }
    }
}

/// An expression that cannot be decides, whatever follows.
proof fn conditions_stop(items: Seq<Expression>, n: int)
    requires
        0 <= n <= items.len(),
        conditions_in(items.take(n)) is Err,
    ensures
        conditions_in(items) == conditions_in(items.take(n)),
    decreases items.len(),
{
    if n == items.len() {
        assert(items.take(n) =~= items);
    } else {
        assert(items.drop_last().take(n) =~= items.take(n));
        conditions_stop(items.drop_last(), n);
    }
}

/// Reads the condition that an expression is.
fn parse_cond_expr(arg: &Arg) -> (res: Result<CondExpr, EmitError>)
    ensures
        told(res) == condition_in(arg@),
    decreases arg, 0nat,
{
    match &arg.kind {
        ArgKind::Bool(b) => Ok(CondExpr::Const(*b)),
        ArgKind::Call { func, args } => {
            assert(decreases_to!(arg => arg.kind));
            assert(decreases_to!(arg.kind => arg.kind->args));
            assert(args.deep_view() =~= arg@.kind->args);
            match path_ident(func) {
                Some(name) => parse_cond_call(name.as_str(), args),
                None => error(
                    "a #[conditional] node must be a simple `kind(...)` call".to_string(),
                ),
            }
        },
        ArgKind::Path { .. } => {
            let attrs: Vec<CondAttr> = Vec::new();
            assert(attrs.deep_view() =~= Seq::<Trait>::empty());
            match path_ident(arg) {
                Some(name) => make_leaf(name.as_str(), attrs),
                None => error("expected a condition kind like `on_property(...)`".to_string()),
            }
        },
        _ => error(
            "unexpected #[conditional] expression `".to_string().concat(
                arg.source.as_str(),
            ).concat("` (expected `on_*(...)`, `all/any/not(...)`, or a bool literal)"),
        ),
    }
}

/// What the call of a path is, which names the kind.
spec fn call_condition(name: Seq<char>, args: Seq<Expression>) -> Result<Condition, Seq<char>> {
    condition_in(
        Expression {
            source: Seq::empty(),
            kind: Form::Call {
                func: Box::new(
                    Expression {
                        source: Seq::empty(),
                        kind: Form::Path { ident: Some(name), path: name, whole: name },
                    },
                ),
                args,
            },
        },
    )
}

/// Reads the condition that `name(args)` is.
fn parse_cond_call(name: &str, args: &Vec<Arg>) -> (res: Result<CondExpr, EmitError>)
    ensures
        told(res) == call_condition(name@, args.deep_view()),
    decreases args, 1nat,
{
    if str_eq(name, "all") || str_eq(name, "any") {
        let parts = match parse_cond_exprs(args) {
            Ok(parts) => parts,
            Err(e) => return Err(e),
        };
        let ghost list = parts.deep_view();
        if str_eq(name, "all") {
            let res = CondExpr::All(parts);
            assert(res@->All_0 =~= list);
            Ok(res)
        } else {
            let res = CondExpr::Any(parts);
            assert(res@->Any_0 =~= list);
            Ok(res)
        }
    } else if str_eq(name, "not") {
        if args.len() != 1 {
            let count = decimal_text(args.len() as u64);
            return error(
                "`not(..)` takes exactly one child, got ".to_string().concat(count.as_str()),
            );
        }
        assert(decreases_to!(args => args@[0]));
        assert(args.deep_view()[0] == args@[0]@);
        match parse_cond_expr(&args[0]) {
            Ok(inner) => Ok(CondExpr::Not(Box::new(inner))),
            Err(e) => Err(e),
        }
    } else if str_eq(name, "on_property") || str_eq(name, "on_missing_property") {
        parse_property_leaf(name, args)
    } else if str_eq(name, "on_bean") || str_eq(name, "on_missing_bean") || str_eq(
        name,
        "on_single_candidate",
    ) {
        parse_bean_leaf(name, args)
    } else if str_eq(name, "on_class") || str_eq(name, "on_missing_class") {
        parse_class_leaf(name, args)
    } else {
        error(
            "unknown #[conditional] kind `".to_string().concat(name).concat(
                "` (expected on_property/on_bean/on_missing_bean/on_single_candidate/on_class/on_missing_class/all/any/not)",
            ),
        )
    }
}

/// A result that is a list of conditions, as the contracts speak of it.
pub open spec fn told_conditions(res: Result<Vec<CondExpr>, EmitError>) -> Result<
    Seq<Condition>,
    Seq<char>,
> {
    match res {
        Ok(list) => Ok(list.deep_view()),
        Err(e) => Err(e.message@),
    }
}

/// Reads the conditions that expressions are.
fn parse_cond_exprs(args: &Vec<Arg>) -> (res: Result<Vec<CondExpr>, EmitError>)
    ensures
        told_conditions(res) == conditions_in(args.deep_view()),
    decreases args, 0nat,
{
    let ghost all = args.deep_view();
    let mut out: Vec<CondExpr> = Vec::new();
    let mut i: usize = 0;
    assert(out.deep_view() =~= Seq::<Condition>::empty());
    assert(all.take(0) =~= Seq::<Expression>::empty());
    while i < args.len()
        invariant
            all == args.deep_view(),
            i <= args.len(),
            out@.len() == i,
            conditions_in(all.take(i as int)) == Ok::<Seq<Condition>, Seq<char>>(out.deep_view()),
        decreases args.len() - i,
    {
        let ghost before = out.deep_view();
        proof {
            let next = all.take(i + 1);
            assert(next.drop_last() =~= all.take(i as int));
            assert(next.last() == args@[i as int]@);
        }
        assert(decreases_to!(args => args@[i as int]));
        match parse_cond_expr(&args[i]) {
            Ok(one) => {
                let ghost added = one@;
                out.push(one);
                assert(out.deep_view() =~= before.push(added));
            },
            Err(e) => {
                proof {
                    conditions_stop(all, i + 1);
                }
                return Err(e);
            },
        }
        i += 1;
    }
    assert(all.take(i as int) =~= all);
    Ok(out)
}

/// The condition that arguments stand for: one is that condition, otherwise all of them
/// have to hold.
pub open spec fn conditional_settings(items: Seq<Expression>) -> Result<Condition, Seq<char>> {
    match conditions_in(items) {
        Ok(list) => Ok(
            if list.len() == 1 {
                list[0]
            } else {
                Condition::All(list)
            },
        ),
        Err(message) => Err(message),
    }
}

/// The condition that arguments stand for.
pub fn conditional_of(args: &Vec<Arg>) -> (res: Result<CondExpr, EmitError>)
    ensures
        told(res) == conditional_settings(args.deep_view()),
{
    match parse_cond_exprs(args) {
        Ok(mut list) => if list.len() == 1 {
            assert(list.deep_view()[0] == list@[0]@);
            Ok(list.swap_remove(0))
        } else {
            let ghost parts = list.deep_view();
            let res = CondExpr::All(list);
            assert(res@->All_0 =~= parts);
            Ok(res)
        },
        Err(e) => Err(e),
    }
}

/// Expressions are conditions where each one is, and each stands for its own.
pub proof fn conditions_keep_their_places(items: Seq<Expression>)
    ensures
        conditions_in(items) is Ok <==> forall|k: int|
            0 <= k < items.len() ==> condition_in(#[trigger] items[k]) is Ok,
        conditions_in(items) matches Ok(list) ==> list.len() == items.len() && forall|k: int|
            0 <= k < items.len() ==> condition_in(items[k]) == Ok::<Condition, Seq<char>>(
                #[trigger] list[k],
            ),
    decreases items.len(),
{
    if items.len() > 0 {
        let front = items.drop_last();
        conditions_keep_their_places(front);
        assert(items.last() == items[items.len() - 1]);
        if forall|k: int| 0 <= k < items.len() ==> condition_in(#[trigger] items[k]) is Ok {
            assert forall|k: int| 0 <= k < front.len() implies condition_in(
                #[trigger] front[k],
            ) is Ok by {
                assert(front[k] == items[k]);
            }
        }
        if conditions_in(items) is Ok {
            assert forall|k: int| 0 <= k < items.len() implies condition_in(
                #[trigger] items[k],
            ) is Ok by {
                if k < front.len() {
                    assert(front[k] == items[k]);
                }
            }
        }
    }
}

/// `all`, `any` and `not` stand for the conjunction, the disjunction and the negation of what
/// is in their brackets, and a truth value for itself.
pub proof fn connectives_are_read(e: Expression, args: Seq<Expression>)
    ensures
        calls(e, "all"@, args) ==> condition_in(e) == match conditions_in(args) {
            Ok(list) => Ok::<Condition, Seq<char>>(Condition::All(list)),
            Err(message) => Err(message),
        },
        calls(e, "any"@, args) ==> condition_in(e) == match conditions_in(args) {
            Ok(list) => Ok::<Condition, Seq<char>>(Condition::Any(list)),
            Err(message) => Err(message),
        },
        calls(e, "not"@, args) && args.len() == 1 && condition_in(args[0]) is Ok ==> condition_in(e)
            == Ok::<Condition, Seq<char>>(
            Condition::Not(Box::new(condition_in(args[0])->Ok_0)),
        ),
        calls(e, "not"@, args) && args.len() != 1 ==> condition_in(e) is Err,
        e.kind matches Form::Bool(b) ==> condition_in(e) == Ok::<Condition, Seq<char>>(
            Condition::Const(b),
        ),
        conditional_settings(seq![e]) == condition_in(e),
{
    reveal_strlit("all");
    reveal_strlit("any");
    reveal_strlit("not");
    assert("all"@[0] != "any"@[0] || "all"@[1] != "any"@[1]);
    assert("all"@[0] != "not"@[0]);
    assert("any"@[0] != "not"@[0]);
    reveal_with_fuel(conditions_in, 2);
    assert(seq![e].drop_last() =~= Seq::<Expression>::empty());
}

/// Several conditions all have to hold.
pub proof fn several_conditions_all_hold(items: Seq<Expression>)
    requires
        items.len() != 1,
        conditions_in(items) is Ok,
    ensures
        conditional_settings(items) == Ok::<Condition, Seq<char>>(
            Condition::All(conditions_in(items)->Ok_0),
        ),
{
    conditions_keep_their_places(items);
}

/// Each name stands for the kind of conditions of that name.
pub proof fn kinds_have_their_names()
    ensures
        canonical("on_property"@) == Ok::<Seq<char>, Seq<char>>("leaf::condition::OnProperty"@),
        canonical("on_missing_property"@) == Ok::<Seq<char>, Seq<char>>(
            "leaf::condition::OnMissingProperty"@,
        ),
        canonical("on_bean"@) == Ok::<Seq<char>, Seq<char>>("leaf::condition::OnBean"@),
        canonical("on_missing_bean"@) == Ok::<Seq<char>, Seq<char>>(
            "leaf::condition::OnMissingBean"@,
        ),
        canonical("on_single_candidate"@) == Ok::<Seq<char>, Seq<char>>(
            "leaf::condition::OnSingleCandidate"@,
        ),
        canonical("on_class"@) == Ok::<Seq<char>, Seq<char>>("leaf::condition::OnClass"@),
        canonical("on_missing_class"@) == Ok::<Seq<char>, Seq<char>>(
            "leaf::condition::OnMissingClass"@,
        ),
{
    reveal_strlit("on_property");
    reveal_strlit("on_missing_property");
    reveal_strlit("on_bean");
    reveal_strlit("on_missing_bean");
    reveal_strlit("on_single_candidate");
    reveal_strlit("on_class");
    reveal_strlit("on_missing_class");
    assert("on_property"@.len() == 11 && "on_missing_property"@.len() == 19);
    assert("on_bean"@.len() == 7 && "on_missing_bean"@.len() == 15);
    assert("on_single_candidate"@.len() == 19 && "on_class"@.len() == 8);
    assert("on_missing_class"@.len() == 16);
    assert("on_missing_property"@[3] != "on_single_candidate"@[3]);
}

/// A condition on a property holds the key of the property under `name`, and behind it what its
/// other arguments set, in their order.
pub proof fn property_condition_holds_its_key(name: Seq<char>, items: Seq<Expression>)
    ensures
        property_traits(name, items) matches Ok(attrs) ==> {
            &&& attrs.len() == items.len()
            &&& items.len() > 0 ==> (items[0].kind matches Form::Str(key) ==> attrs[0]
                == Trait::Str("name"@, key))
            &&& forall|k: int, key: Seq<char>, value: Expression|
                #![trigger items[k], assigns(items[k], key, value)]
                0 <= k < items.len() && assigns(items[k], key, value) ==> match value.kind {
                    Form::Str(s) => attrs[k] == Trait::Str(key, s),
                    Form::Bool(b) => attrs[k] == Trait::Bool(key, b),
                    _ => false,
                }
        },
    decreases items.len(),
{
    if items.len() > 0 {
        let front = items.drop_last();
        property_condition_holds_its_key(name, front);
        if property_traits(name, items) is Ok {
            let attrs = property_traits(name, items)->Ok_0;
            assert forall|k: int, key: Seq<char>, value: Expression|
                #![trigger items[k], assigns(items[k], key, value)]
                0 <= k < items.len() && assigns(items[k], key, value) implies match value.kind {
                Form::Str(s) => attrs[k] == Trait::Str(key, s),
                Form::Bool(b) => attrs[k] == Trait::Bool(key, b),
                _ => false,
            } by {
                if k < front.len() {
                    assert(front[k] == items[k]);
                    assert(assigns(front[k], key, value));
                }
            }
        }
    }
}

/// What a condition on beans or on a class asks for stands under its own key, and what is
/// called by the name of a kind is of that kind.
pub proof fn leaf_holds_its_argument(e: Expression, name: Seq<char>, arg: Expression)
    requires
        calls(e, name, seq![arg]),
    ensures
        arg.kind matches Form::Path { whole, .. } && (name == "on_bean"@ || name
            == "on_missing_bean"@ || name == "on_single_candidate"@) ==> condition_in(e) == leaf(
            name,
            seq![Trait::Type("type"@, arg.kind->whole)],
        ),
        arg.kind matches Form::Str(s) && (name == "on_class"@ || name == "on_missing_class"@)
            ==> condition_in(e) == leaf(name, seq![Trait::Str("class"@, arg.kind->Str_0)]),
        arg.kind matches Form::Str(s) && (name == "on_property"@ || name == "on_missing_property"@)
            ==> condition_in(e) == leaf(name, seq![Trait::Str("name"@, arg.kind->Str_0)]),
        leaf(name, Seq::empty()) matches Ok(c) ==> canonical(name) == Ok::<Seq<char>, Seq<char>>(
            c->kind,
        ),
{
    reveal_strlit("all");
    reveal_strlit("any");
    reveal_strlit("not");
    reveal_strlit("on_property");
    reveal_strlit("on_missing_property");
    reveal_strlit("on_bean");
    reveal_strlit("on_missing_bean");
    reveal_strlit("on_single_candidate");
    reveal_strlit("on_class");
    reveal_strlit("on_missing_class");
    assert("on_property"@.len() == 11 && "on_missing_property"@.len() == 19);
    assert("on_bean"@.len() == 7 && "on_missing_bean"@.len() == 15);
    assert("on_single_candidate"@.len() == 19 && "on_class"@.len() == 8);
    assert("on_missing_class"@.len() == 16);
    assert("on_missing_property"@[3] != "on_single_candidate"@[3]);
    reveal_with_fuel(property_traits, 2);
    assert(seq![arg].drop_last() =~= Seq::<Expression>::empty());
    assert(Seq::<Trait>::empty().push(Trait::Str("name"@, arg.kind->Str_0)) =~= seq![
        Trait::Str("name"@, arg.kind->Str_0),
    ]);
}

/// The condition that the source of the arguments stands for.
pub open spec fn conditional_arguments(attr: Seq<char>) -> Result<Condition, Seq<char>> {
    match arguments(attr) {
        Ok(items) => conditional_settings(items),
        Err(message) => Err("malformed #[conditional] arguments: "@ + message),
    }
}

/// Reads the arguments of `#[conditional]`.
pub fn parse_conditional(attr: &str) -> (res: Result<CondExpr, EmitError>)
    ensures
        told(res) == conditional_arguments(attr@),
        attr@.len() == 0 ==> told(res) == Ok::<Condition, Seq<char>>(
            Condition::All(Seq::empty()),
        ),
{
    match parse_arguments(attr) {
        Ok(args) => conditional_of(&args),
        Err(message) => error(
            "malformed #[conditional] arguments: ".to_string().concat(message.as_str()),
        ),
    }
}

/// The condition that a profile expression is: one of its own kind, which holds the text.
pub open spec fn profile_condition(p: Profile) -> Condition {
    Condition::Leaf {
        kind: "leaf::condition::OnProfile"@,
        attrs: seq![Trait::Str("expr"@, rendered(p))],
    }
}

/// The condition that a profile expression is.
pub fn profile_to_cond(expr: &ProfileExpr) -> (res: CondExpr)
    ensures
        res@ == profile_condition(expr@),
{
    let mut attrs: Vec<CondAttr> = Vec::new();
    attrs.push(CondAttr::Str("expr".to_string(), render_profile(expr)));
    assert(attrs.deep_view() =~= seq![Trait::Str("expr"@, rendered(expr@))]);
    CondExpr::Leaf { kind: "leaf::condition::OnProfile".to_string(), attrs }
}

/// The row that keeps a kind of conditions in the program.
pub const ANCHOR: &'static str = "#[allow(non_upper_case_globals)]
#[::leaf_core::linkme::distributed_slice(::leaf_core::CONDITIONS)]
#[linkme(crate = ::leaf_core::linkme)]
static #row: ::leaf_core::ConditionRow = ::leaf_core::ConditionRow {
    contract: ::leaf_core::ContractId::of(#kind),
    marker: ::leaf_core::MarkerId::of(#kind),
};
const _: ::leaf_core::ConditionId = #id;
";

/// The name of the row that keeps the kind at `i` of a guard in the program.
pub open spec fn anchor_name(name: Seq<char>, i: nat) -> Seq<char> {
    "__LEAF_COND_"@ + name + "_"@ + decimal(i)
}

/// No two rows of a guard have the same name.
pub proof fn anchor_names_differ(name: Seq<char>, i: nat, j: nat)
    requires
        anchor_name(name, i) == anchor_name(name, j),
    ensures
        i == j,
{
    let front = "__LEAF_COND_"@ + name + "_"@;
    assert(anchor_name(name, i).skip(front.len() as int) =~= decimal(i));
    assert(anchor_name(name, j).skip(front.len() as int) =~= decimal(j));
    decimals_differ(i, j);
}

/// The row that keeps the kind at `i` of a guard in the program.
pub open spec fn anchor_source(name: Seq<char>, kind: Seq<char>, i: nat) -> Seq<char> {
    filled(
        ANCHOR@,
        no_slots().push(("row"@, anchor_name(name, i))).push(
            ("kind"@, literal_source(kind)),
        ).push(("id"@, condition_id(kind))),
    )
}

/// Pieces of the template, where they stand in it.
#[verifier::spinoff_prover]
#[verifier::rlimit(60)]
proof fn anchor_pieces()
    ensures
        ANCHOR@.len() == 348,
        ANCHOR@.subrange(34, 99) == "[::leaf_core::linkme::distributed_slice(::leaf_core::CONDITIONS)]"@,
        !is_name_char(ANCHOR@[34]),
        !is_name_char(ANCHOR@[99]),
        ANCHOR@.subrange(138, 257) == "\nstatic "@ + seq!['#'] + "row"@ + (": ::leaf_core::ConditionRow = ::leaf_core::ConditionRow {\n    contract: ::leaf_core::ContractId::of("@ + seq!['#'] + "kind"@ + "),"@),
        !is_name_char(ANCHOR@[138]),
        !is_name_char(ANCHOR@[257]),
        ANCHOR@.subrange(257, 303) == "\n    marker: ::leaf_core::MarkerId::of("@ + seq!['#'] + "kind"@ + "),"@,
        !is_name_char(ANCHOR@[303]),
        ANCHOR@.subrange(306, 347) == "\nconst _: ::leaf_core::ConditionId = "@ + seq!['#'] + "id"@ + ";"@,
        !is_name_char(ANCHOR@[306]),
        !is_name_char(ANCHOR@[347]),
{
    reveal_strlit(
        "#[allow(non_upper_case_globals)]
#[::leaf_core::linkme::distributed_slice(::leaf_core::CONDITIONS)]
#[linkme(crate = ::leaf_core::linkme)]
static #row: ::leaf_core::ConditionRow = ::leaf_core::ConditionRow {
    contract: ::leaf_core::ContractId::of(#kind),
    marker: ::leaf_core::MarkerId::of(#kind),
};
const _: ::leaf_core::ConditionId = #id;
",
    );
    reveal_strlit("\n    marker: ::leaf_core::MarkerId::of(");
    reveal_strlit("\nconst _: ::leaf_core::ConditionId = ");
    reveal_strlit("\nstatic ");
    reveal_strlit("),");
    reveal_strlit(": ::leaf_core::ConditionRow = ::leaf_core::ConditionRow {\n    contract: ::leaf_core::ContractId::of(");
    reveal_strlit(";");
    reveal_strlit("[::leaf_core::linkme::distributed_slice(::leaf_core::CONDITIONS)]");
    reveal_strlit("id");
    reveal_strlit("kind");
    reveal_strlit("row");
    assert(ANCHOR@.subrange(34, 99) =~= "[::leaf_core::linkme::distributed_slice(::leaf_core::CONDITIONS)]"@);
    assert(ANCHOR@.subrange(138, 257) =~= "\nstatic "@ + seq!['#'] + "row"@ + (": ::leaf_core::ConditionRow = ::leaf_core::ConditionRow {\n    contract: ::leaf_core::ContractId::of("@ + seq!['#'] + "kind"@ + "),"@));
    assert(ANCHOR@.subrange(257, 303) =~= "\n    marker: ::leaf_core::MarkerId::of("@ + seq!['#'] + "kind"@ + "),"@);
    assert(ANCHOR@.subrange(306, 347) =~= "\nconst _: ::leaf_core::ConditionId = "@ + seq!['#'] + "id"@ + ";"@);
}

/// What the slots of the template hold.
proof fn anchor_slots_are_found(name: Seq<char>, kind: Seq<char>, i: nat)
    ensures
        ({
            let slots = no_slots().push(("row"@, anchor_name(name, i))).push(
                ("kind"@, literal_source(kind)),
            ).push(("id"@, condition_id(kind)));
            &&& slot_text(slots, "row"@) == Some(anchor_name(name, i))
            &&& slot_text(slots, "kind"@) == Some(literal_source(kind))
            &&& slot_text(slots, "id"@) == Some(condition_id(kind))
        }),
{
    reveal_strlit("row");
    reveal_strlit("kind");
    reveal_strlit("id");
    let slots = no_slots().push(("row"@, anchor_name(name, i))).push(
                ("kind"@, literal_source(kind)),
            ).push(("id"@, condition_id(kind)));
    slot_at(slots, 0);
    assert("row"@.len() != "kind"@.len());
    slot_at(slots, 1);
    assert("row"@.len() != "id"@.len());
    assert("kind"@.len() != "id"@.len());
    slot_at(slots, 2);
}

/// The row that keeps a kind of conditions in the program is that of the kind.
#[verifier::spinoff_prover]
#[verifier::rlimit(60)]
pub proof fn anchor_keeps_its_kind(name: Seq<char>, kind: Seq<char>, i: nat)
    ensures
        stands_in(
            "[::leaf_core::linkme::distributed_slice(::leaf_core::CONDITIONS)]"@,
            anchor_source(name, kind, i),
        ),
        stands_in(
            "\nstatic "@ + anchor_name(name, i) + ": ::leaf_core::ConditionRow = ::leaf_core::ConditionRow {\n    contract: ::leaf_core::ContractId::of("@ + literal_source(kind) + "),"@,
            anchor_source(name, kind, i),
        ),
        stands_in(
            "\n    marker: ::leaf_core::MarkerId::of("@ + literal_source(kind) + "),"@,
            anchor_source(name, kind, i),
        ),
        stands_in(
            "\nconst _: ::leaf_core::ConditionId = "@ + condition_id(kind) + ";"@,
            anchor_source(name, kind, i),
        ),
{
    anchor_pieces();
    anchor_slots_are_found(name, kind, i);
    let t = ANCHOR@;
    let slots = no_slots().push(("row"@, anchor_name(name, i))).push(
                ("kind"@, literal_source(kind)),
            ).push(("id"@, condition_id(kind)));
    assert(stands_in("[::leaf_core::linkme::distributed_slice(::leaf_core::CONDITIONS)]"@,anchor_source(name, kind, i))) by {
        reveal_strlit("[::leaf_core::linkme::distributed_slice(::leaf_core::CONDITIONS)]");
        let p0 = "[::leaf_core::linkme::distributed_slice(::leaf_core::CONDITIONS)]"@;
        filled_plain(p0, slots);
        filled_part(t, 34, 99, slots);
        assert("[::leaf_core::linkme::distributed_slice(::leaf_core::CONDITIONS)]"@ =~= "[::leaf_core::linkme::distributed_slice(::leaf_core::CONDITIONS)]"@);
    }
    assert(stands_in("\nstatic "@ + anchor_name(name, i) + ": ::leaf_core::ConditionRow = ::leaf_core::ConditionRow {\n    contract: ::leaf_core::ContractId::of("@ + literal_source(kind) + "),"@,anchor_source(name, kind, i))) by {
        reveal_strlit("kind");
        reveal_strlit("row");
        reveal_strlit("\nstatic ");
        reveal_strlit("),");
        reveal_strlit(": ::leaf_core::ConditionRow = ::leaf_core::ConditionRow {\n    contract: ::leaf_core::ContractId::of(");
        let p2 = "),"@;
        let p1 = ": ::leaf_core::ConditionRow = ::leaf_core::ConditionRow {\n    contract: ::leaf_core::ContractId::of("@ + seq!['#'] + "kind"@ + p2;
        let p0 = "\nstatic "@ + seq!['#'] + "row"@ + p1;
        filled_plain(p2, slots);
        filled_step(": ::leaf_core::ConditionRow = ::leaf_core::ConditionRow {\n    contract: ::leaf_core::ContractId::of("@, "kind"@, p2, slots);
        filled_step("\nstatic "@, "row"@, p1, slots);
        filled_part(t, 138, 257, slots);
        assert(("\nstatic "@ + anchor_name(name, i) + (": ::leaf_core::ConditionRow = ::leaf_core::ConditionRow {\n    contract: ::leaf_core::ContractId::of("@ + literal_source(kind) + "),"@)) =~= "\nstatic "@ + anchor_name(name, i) + ": ::leaf_core::ConditionRow = ::leaf_core::ConditionRow {\n    contract: ::leaf_core::ContractId::of("@ + literal_source(kind) + "),"@);
    }
    assert(stands_in("\n    marker: ::leaf_core::MarkerId::of("@ + literal_source(kind) + "),"@,anchor_source(name, kind, i))) by {
        reveal_strlit("kind");
        reveal_strlit("\n    marker: ::leaf_core::MarkerId::of(");
        reveal_strlit("),");
        let p1 = "),"@;
        let p0 = "\n    marker: ::leaf_core::MarkerId::of("@ + seq!['#'] + "kind"@ + p1;
        filled_plain(p1, slots);
        filled_step("\n    marker: ::leaf_core::MarkerId::of("@, "kind"@, p1, slots);
        filled_part(t, 257, 303, slots);
        assert(("\n    marker: ::leaf_core::MarkerId::of("@ + literal_source(kind) + "),"@) =~= "\n    marker: ::leaf_core::MarkerId::of("@ + literal_source(kind) + "),"@);
    }
    assert(stands_in("\nconst _: ::leaf_core::ConditionId = "@ + condition_id(kind) + ";"@,anchor_source(name, kind, i))) by {
        reveal_strlit("id");
        reveal_strlit("\nconst _: ::leaf_core::ConditionId = ");
        reveal_strlit(";");
        let p1 = ";"@;
        let p0 = "\nconst _: ::leaf_core::ConditionId = "@ + seq!['#'] + "id"@ + p1;
        filled_plain(p1, slots);
        filled_step("\nconst _: ::leaf_core::ConditionId = "@, "id"@, p1, slots);
        filled_part(t, 306, 347, slots);
        assert(("\nconst _: ::leaf_core::ConditionId = "@ + condition_id(kind) + ";"@) =~= "\nconst _: ::leaf_core::ConditionId = "@ + condition_id(kind) + ";"@);
    }
}

/// The rows that keep kinds in the program.
pub open spec fn anchor_sources(name: Seq<char>, kinds: Seq<Seq<char>>) -> Seq<Seq<char>> {
    Seq::new(kinds.len(), |i: int| anchor_source(name, kinds[i], i as nat))
}

/// Prints the rows that keep kinds in the program.
fn emit_anchors(name: &str, kinds: &Vec<String>) -> (res: String)
    ensures
        res@ == join(anchor_sources(name@, kinds.deep_view()), ""@),
{
    let mut rows: Vec<String> = Vec::new();
    let mut i: usize = 0;
    while i < kinds.len()
        invariant
            i <= kinds.len(),
            rows@.len() == i,
            forall|k: int|
                0 <= k < i ==> (#[trigger] rows@[k])@ == anchor_source(
                    name@,
                    kinds@[k]@,
                    k as nat,
                ),
        decreases kinds.len() - i,
    {
        let index = decimal_text(i as u64);
        let row = "__LEAF_COND_".to_string().concat(name).concat("_").concat(index.as_str());
        let kind = string_literal(kinds[i].as_str());
        let id = lower_condition_id(kinds[i].as_str());
        rows.push(
            Slots::new().with("row", row.as_str()).with("kind", kind.as_str()).with(
                "id",
                id.as_str(),
            ).fill(ANCHOR),
        );
        i += 1;
    }
    assert(rows.deep_view() =~= anchor_sources(name@, kinds.deep_view()));
    join_texts(&rows, "")
}

/// The guard of an element, the row that pairs the two, and the rows that keep the kinds of
/// its conditions in the program.
pub const GUARD: &'static str = "#[allow(non_upper_case_globals)]
#[doc(hidden)]
pub const __leaf_guard_#mangled: ::leaf_core::CondExpr = #tree;
#[allow(non_upper_case_globals)]
#[::leaf_core::linkme::distributed_slice(::leaf_core::GUARD_PAIRINGS)]
#[linkme(crate = ::leaf_core::linkme)]
static __LEAF_GUARD_PAIRING_#mangled: ::leaf_core::GuardPairingRow = ::leaf_core::GuardPairingRow {
    contract: #contract,
    guard: &__leaf_guard_#mangled,
};
#anchors";

/// The guard of the element `ident`.
pub open spec fn guard_source(ident: Seq<char>, c: Condition) -> Seq<char> {
    filled(
        GUARD@,
        no_slots().push(("mangled"@, mangled(ident))).push(("tree"@, condition_source(c))).push(
            ("contract"@, contract_here(ident)),
        ).push(("anchors"@, join(anchor_sources(mangled(ident), kinds(c)), ""@))),
    )
}

/// Pieces of the template, where they stand in it.
#[verifier::spinoff_prover]
#[verifier::rlimit(60)]
proof fn guard_pieces()
    ensures
        GUARD@.len() == 426,
        GUARD@.subrange(57, 111) == " __leaf_guard_"@ + seq!['#'] + "mangled"@ + (": ::leaf_core::CondExpr = "@ + seq!['#'] + "tree"@ + ";"@),
        !is_name_char(GUARD@[57]),
        !is_name_char(GUARD@[111]),
        GUARD@.subrange(146, 215) == "[::leaf_core::linkme::distributed_slice(::leaf_core::GUARD_PAIRINGS)]"@,
        !is_name_char(GUARD@[146]),
        !is_name_char(GUARD@[215]),
        GUARD@.subrange(354, 414) == "\n    contract: "@ + seq!['#'] + "contract"@ + (",\n    guard: &__leaf_guard_"@ + seq!['#'] + "mangled"@ + ","@),
        !is_name_char(GUARD@[354]),
        !is_name_char(GUARD@[414]),
        GUARD@.subrange(414, 426) == "\n};\n"@ + seq!['#'] + "anchors"@ + ""@,
{
    reveal_strlit(
        "#[allow(non_upper_case_globals)]
#[doc(hidden)]
pub const __leaf_guard_#mangled: ::leaf_core::CondExpr = #tree;
#[allow(non_upper_case_globals)]
#[::leaf_core::linkme::distributed_slice(::leaf_core::GUARD_PAIRINGS)]
#[linkme(crate = ::leaf_core::linkme)]
static __LEAF_GUARD_PAIRING_#mangled: ::leaf_core::GuardPairingRow = ::leaf_core::GuardPairingRow {
    contract: #contract,
    guard: &__leaf_guard_#mangled,
};
#anchors",
    );
    reveal_strlit("");
    reveal_strlit("\n    contract: ");
    reveal_strlit("\n};\n");
    reveal_strlit(" __leaf_guard_");
    reveal_strlit(",");
    reveal_strlit(",\n    guard: &__leaf_guard_");
    reveal_strlit(": ::leaf_core::CondExpr = ");
    reveal_strlit(";");
    reveal_strlit("[::leaf_core::linkme::distributed_slice(::leaf_core::GUARD_PAIRINGS)]");
    reveal_strlit("anchors");
    reveal_strlit("contract");
    reveal_strlit("mangled");
    reveal_strlit("tree");
    assert(GUARD@.subrange(57, 111) =~= " __leaf_guard_"@ + seq!['#'] + "mangled"@ + (": ::leaf_core::CondExpr = "@ + seq!['#'] + "tree"@ + ";"@));
    assert(GUARD@.subrange(146, 215) =~= "[::leaf_core::linkme::distributed_slice(::leaf_core::GUARD_PAIRINGS)]"@);
    assert(GUARD@.subrange(354, 414) =~= "\n    contract: "@ + seq!['#'] + "contract"@ + (",\n    guard: &__leaf_guard_"@ + seq!['#'] + "mangled"@ + ","@));
    assert(GUARD@.subrange(414, 426) =~= "\n};\n"@ + seq!['#'] + "anchors"@ + ""@);
}

/// What the slots of the template hold.
proof fn guard_slots_are_found(ident: Seq<char>, c: Condition)
    ensures
        ({
            let slots = no_slots().push(("mangled"@, mangled(ident))).push(("tree"@, condition_source(c))).push(
                ("contract"@, contract_here(ident)),
            ).push(("anchors"@, join(anchor_sources(mangled(ident), kinds(c)), ""@)));
            &&& slot_text(slots, "mangled"@) == Some(mangled(ident))
            &&& slot_text(slots, "tree"@) == Some(condition_source(c))
            &&& slot_text(slots, "contract"@) == Some(contract_here(ident))
            &&& slot_text(slots, "anchors"@) == Some(join(anchor_sources(mangled(ident), kinds(c)), ""@))
        }),
{
    reveal_strlit("mangled");
    reveal_strlit("tree");
    reveal_strlit("contract");
    reveal_strlit("anchors");
    let slots = no_slots().push(("mangled"@, mangled(ident))).push(("tree"@, condition_source(c))).push(
                ("contract"@, contract_here(ident)),
            ).push(("anchors"@, join(anchor_sources(mangled(ident), kinds(c)), ""@)));
    slot_at(slots, 0);
    assert("mangled"@.len() != "tree"@.len());
    slot_at(slots, 1);
    assert("mangled"@.len() != "contract"@.len());
    assert("tree"@.len() != "contract"@.len());
    slot_at(slots, 2);
    assert("mangled"@[0] != "anchors"@[0]);
    assert("tree"@.len() != "anchors"@.len());
    assert("contract"@.len() != "anchors"@.len());
    slot_at(slots, 3);
}

/// The guard of an element is its condition, is paired with the contract of the element, and
/// keeps each kind that the condition speaks of in the program.
#[verifier::spinoff_prover]
#[verifier::rlimit(60)]
pub proof fn guard_is_the_condition(ident: Seq<char>, c: Condition)
    ensures
        stands_in(
            " __leaf_guard_"@ + mangled(ident) + ": ::leaf_core::CondExpr = "@ + condition_source(c) + ";"@,
            guard_source(ident, c),
        ),
        stands_in(
            "[::leaf_core::linkme::distributed_slice(::leaf_core::GUARD_PAIRINGS)]"@,
            guard_source(ident, c),
        ),
        stands_in(
            "\n    contract: "@ + contract_here(ident) + ",\n    guard: &__leaf_guard_"@ + mangled(ident) + ","@,
            guard_source(ident, c),
        ),
        stands_in(
            "\n};\n"@ + join(anchor_sources(mangled(ident), kinds(c)), ""@),
            guard_source(ident, c),
        ),
        series(
            join(anchor_sources(mangled(ident), kinds(c)), ""@),
            Seq::new(
                kinds(c).len(),
                |i: int| anchor_source(mangled(ident), kinds(c)[i], i as nat),
            ),
            ""@,
        ),
{
    guard_pieces();
    guard_slots_are_found(ident, c);
    let t = GUARD@;
    let slots = no_slots().push(("mangled"@, mangled(ident))).push(("tree"@, condition_source(c))).push(
                ("contract"@, contract_here(ident)),
            ).push(("anchors"@, join(anchor_sources(mangled(ident), kinds(c)), ""@)));
    join_is_a_series(anchor_sources(mangled(ident), kinds(c)));
    assert(anchor_sources(mangled(ident), kinds(c)) =~= Seq::new(
        kinds(c).len(),
        |i: int| anchor_source(mangled(ident), kinds(c)[i], i as nat),
    ));
    assert(stands_in(" __leaf_guard_"@ + mangled(ident) + ": ::leaf_core::CondExpr = "@ + condition_source(c) + ";"@,guard_source(ident, c))) by {
        reveal_strlit("mangled");
        reveal_strlit("tree");
        reveal_strlit(" __leaf_guard_");
        reveal_strlit(": ::leaf_core::CondExpr = ");
        reveal_strlit(";");
        let p2 = ";"@;
        let p1 = ": ::leaf_core::CondExpr = "@ + seq!['#'] + "tree"@ + p2;
        let p0 = " __leaf_guard_"@ + seq!['#'] + "mangled"@ + p1;
        filled_plain(p2, slots);
        filled_step(": ::leaf_core::CondExpr = "@, "tree"@, p2, slots);
        filled_step(" __leaf_guard_"@, "mangled"@, p1, slots);
        filled_part(t, 57, 111, slots);
        assert((" __leaf_guard_"@ + mangled(ident) + (": ::leaf_core::CondExpr = "@ + condition_source(c) + ";"@)) =~= " __leaf_guard_"@ + mangled(ident) + ": ::leaf_core::CondExpr = "@ + condition_source(c) + ";"@);
    }
    assert(stands_in("[::leaf_core::linkme::distributed_slice(::leaf_core::GUARD_PAIRINGS)]"@,guard_source(ident, c))) by {
        reveal_strlit("[::leaf_core::linkme::distributed_slice(::leaf_core::GUARD_PAIRINGS)]");
        let p0 = "[::leaf_core::linkme::distributed_slice(::leaf_core::GUARD_PAIRINGS)]"@;
        filled_plain(p0, slots);
        filled_part(t, 146, 215, slots);
        assert("[::leaf_core::linkme::distributed_slice(::leaf_core::GUARD_PAIRINGS)]"@ =~= "[::leaf_core::linkme::distributed_slice(::leaf_core::GUARD_PAIRINGS)]"@);
    }
    assert(stands_in("\n    contract: "@ + contract_here(ident) + ",\n    guard: &__leaf_guard_"@ + mangled(ident) + ","@,guard_source(ident, c))) by {
        reveal_strlit("contract");
        reveal_strlit("mangled");
        reveal_strlit("\n    contract: ");
        reveal_strlit(",");
        reveal_strlit(",\n    guard: &__leaf_guard_");
        let p2 = ","@;
        let p1 = ",\n    guard: &__leaf_guard_"@ + seq!['#'] + "mangled"@ + p2;
        let p0 = "\n    contract: "@ + seq!['#'] + "contract"@ + p1;
        filled_plain(p2, slots);
        filled_step(",\n    guard: &__leaf_guard_"@, "mangled"@, p2, slots);
        filled_step("\n    contract: "@, "contract"@, p1, slots);
        filled_part(t, 354, 414, slots);
        assert(("\n    contract: "@ + contract_here(ident) + (",\n    guard: &__leaf_guard_"@ + mangled(ident) + ","@)) =~= "\n    contract: "@ + contract_here(ident) + ",\n    guard: &__leaf_guard_"@ + mangled(ident) + ","@);
    }
    assert(stands_in("\n};\n"@ + join(anchor_sources(mangled(ident), kinds(c)), ""@),guard_source(ident, c))) by {
        reveal_strlit("anchors");
        reveal_strlit("");
        reveal_strlit("\n};\n");
        let p1 = ""@;
        let p0 = "\n};\n"@ + seq!['#'] + "anchors"@ + p1;
        filled_plain(p1, slots);
        filled_step("\n};\n"@, "anchors"@, p1, slots);
        filled_part(t, 414, 426, slots);
        assert(("\n};\n"@ + join(anchor_sources(mangled(ident), kinds(c)), ""@) + ""@) =~= "\n};\n"@ + join(anchor_sources(mangled(ident), kinds(c)), ""@));
    }
}

/// Prints the guard of the element `ident`.
pub fn emit_guard(ident: &str, expr: &CondExpr) -> (res: String)
    ensures
        res@ == guard_source(ident@, expr@),
{
    let name = mangle(ident);
    let tree = expr.lower();
    let contract = contract_text(ident);
    let kinds = expr.leaf_kinds();
    let anchors = emit_anchors(name.as_str(), &kinds);
    Slots::new().with("mangled", name.as_str()).with("tree", tree.as_str()).with(
        "contract",
        contract.as_str(),
    ).with("anchors", anchors.as_str()).fill(GUARD)
}

/// The annotation of an auto-configuration: that of a configuration, as a fallback.
pub open spec fn fallback_annotation() -> Ann {
    let a = annotation_of(Stereotype::Configuration);
    Ann { attrs: a.attrs.insert("fallback"@, Value::Bool(true)), ..a }
}

/// The annotation of an auto-configuration holds no aliases.
proof fn fallback_resolves()
    ensures
        resolved(fallback_annotation()) == Ok::<Merged, (Seq<char>, Seq<char>)>(
            merged(fallback_annotation()),
        ),
{
    let a = fallback_annotation();
    reveal_with_fuel(alias_free, 2);
    assert(alias_free(bare_annotation("leaf::Component"@)));
    assert forall|i: int| 0 <= i < a.meta.len() implies alias_free(#[trigger] a.meta[i]) by {
        assert(a.meta[i] == bare_annotation("leaf::Component"@));
    }
    resolving_without_aliases(a);
}

/// The auto-configuration that a struct is. A generic struct is none.
pub open spec fn auto_config_bean(item: StructItem) -> Result<Bean, Seq<char>> {
    match struct_bean(item, Stereotype::Configuration, None, None, Scope::Singleton) {
        Ok(bean) => if bean.is_generic {
            Err(generic_message(bean.ident))
        } else {
            Ok(Bean { slice: Slice::AutoConfigs, meta: merged(fallback_annotation()), ..bean })
        },
        Err(message) => Err(message),
    }
}

/// The auto-configuration that a struct is.
pub fn auto_config_input(item: &StructItem) -> (res: Result<BeanInput, EmitError>)
    ensures
        told(res) == auto_config_bean(*item),
{
    let mut input = match struct_input(
        item,
        Stereotype::Configuration,
        None,
        None,
        Scope::Singleton,
    ) {
        Ok(input) => input,
        Err(e) => return Err(e),
    };
    if input.is_generic {
        return error(generic_text(input.ident.as_str()));
    }
    proof {
        fallback_resolves();
    }
    let annotation = Stereotype::Configuration.annotation().with_attr(
        "fallback",
        AttrValue::Bool(true),
    );
    input.slice = Slice::AutoConfigs;
    match resolve(&annotation) {
        Ok(meta) => {
            input.meta = meta;
            Ok(input)
        },
        Err(e) => error(e.full_message()),
    }
}

/// The registration of an auto-configuration, with its guard where there is one.
pub open spec fn auto_config_source(item: StructItem, guard: Option<Condition>) -> Result<
    Seq<char>,
    Seq<char>,
> {
    match auto_config_bean(item) {
        Ok(bean) => match bean_source(bean) {
            Ok(row) => Ok(
                row + match guard {
                    Some(c) => guard_source(item.ident@, c),
                    None => ""@,
                },
            ),
            Err(message) => Err(message),
        },
        Err(message) => Err(message),
    }
}

/// Prints the registration of an auto-configuration, with its guard where there is one.
pub fn emit_auto_config(item: &StructItem, guard: Option<&CondExpr>) -> (res: Result<
    String,
    EmitError,
>)
    ensures
        told(res) == auto_config_source(
            *item,
            match guard {
                Some(expr) => Some(expr@),
                None => None,
            },
        ),
{
    let input = match auto_config_input(item) {
        Ok(input) => input,
        Err(e) => return Err(e),
    };
    let row = match emit(&input) {
        Ok(row) => row,
        Err(e) => return Err(e),
    };
    let guard = match guard {
        Some(expr) => emit_guard(item.ident.as_str(), expr),
        None => "".to_string(),
    };
    Ok(row.concat(guard.as_str()))
}

/// An auto-configuration differs from a configuration in the list that it stands in and in
/// its markers, and in nothing else.
pub proof fn auto_config_is_a_configuration(item: StructItem)
    requires
        !item.generic,
    ensures
        match (
            auto_config_bean(item),
            struct_bean(item, Stereotype::Configuration, None, None, Scope::Singleton),
        ) {
            (Ok(one), Ok(other)) => one == (Bean { slice: one.slice, meta: one.meta, ..other }),
            (Err(one), Err(other)) => one == other,
            _ => false,
        },
{
}

/// An auto-configuration stands among the auto-configurations, as a fallback: what else
/// there is of its type goes before it.
pub proof fn auto_config_is_a_fallback(item: StructItem)
    ensures
        auto_config_bean(item) matches Ok(bean) ==> bean.slice == Slice::AutoConfigs
            && candidate_role(bean.meta.attrs) == "::leaf_core::CandidateRole::FALLBACK"@,
{
    let a = fallback_annotation();
    let c = bare_annotation("leaf::Component"@);
    let top = seq![a];
    let low = seq![c];
    let none = Seq::<Ann>::empty();
    assert(top.drop_last() =~= none);
    assert(low.drop_last() =~= none);
    assert(next_level(none) =~= none);
    assert(next_level(top) =~= a.meta);
    assert(a.meta =~= low);
    assert(next_level(low) =~= c.meta);
    assert(c.meta =~= none);
    assert(levels(none) =~= Seq::<Seq<Ann>>::empty());
    assert(levels(low) =~= seq![low]);
    assert(levels(top) =~= seq![top, low]);
    let all = seq![top, low];
    assert(all.drop_last() =~= seq![top]);
    assert(seq![top].drop_last() =~= Seq::<Seq<Ann>>::empty());
    assert(visits(Seq::<Seq<Ann>>::empty()) =~= Seq::<(nat, Ann)>::empty());
    assert(visits(seq![top]) =~= seq![(0nat, a)]);
    let met = closure(a);
    let first = seq![(0nat, a)];
    assert(met =~= seq![(0nat, a), (1nat, c)]);
    assert(met.drop_last() =~= first);
    assert(first.drop_last() =~= Seq::<(nat, Ann)>::empty());
    reveal_strlit("fallback");
    reveal_strlit("primary");
    assert("primary"@.len() != "fallback"@.len());
    assert(winner(Seq::<(nat, Ann)>::empty(), "fallback"@) is None);
    assert(winner(Seq::<(nat, Ann)>::empty(), "primary"@) is None);
    assert(winner(first, "fallback"@) == Some(((0nat, 0nat), Value::Bool(true))));
    assert(winner(first, "primary"@) is None);
    assert(winner(met, "fallback"@) == Some(((0nat, 0nat), Value::Bool(true))));
    assert(winner(met, "primary"@) is None);
}

/// The guard of an auto-configuration stands behind its registration, and a profile is a
/// condition on the text of the profile.
pub proof fn guard_follows_the_registration(item: StructItem, c: Condition, p: Profile)
    ensures
        auto_config_source(item, None) matches Ok(row) ==> auto_config_source(item, Some(c)) == Ok::<
            Seq<char>,
            Seq<char>,
        >(row + guard_source(item.ident@, c)),
        profile_condition(p) == (Condition::Leaf {
            kind: "leaf::condition::OnProfile"@,
            attrs: seq![Trait::Str("expr"@, rendered(p))],
        }),
{
    reveal_strlit("");
    if let Ok(row) = auto_config_source(item, None) {
        assert(row + ""@ =~= row);
        let bean = auto_config_bean(item)->Ok_0;
        assert(bean_source(bean)->Ok_0 + ""@ =~= bean_source(bean)->Ok_0);
    }
}

/// An automatic configuration is a configuration of its own slice, which yields to others; it is
/// registered unless it is generic, with its guard behind it.
pub proof fn sound_auto_config_is_registered(item: StructItem, c: Condition, bean: Bean)
    requires
        struct_bean(item, Stereotype::Configuration, None, None, Scope::Singleton) == Ok::<
            Bean,
            Seq<char>,
        >(bean),
    ensures
        bean.is_generic ==> auto_config_bean(item) is Err && auto_config_source(item, Some(c)) is Err,
        !bean.is_generic ==> {
            let own = Bean {
                slice: Slice::AutoConfigs,
                meta: merged(fallback_annotation()),
                ..bean
            };
            &&& auto_config_bean(item) == Ok::<Bean, Seq<char>>(own)
            &&& bean_source(own) matches Ok(row) ==> auto_config_source(item, None) == Ok::<
                Seq<char>,
                Seq<char>,
            >(row + ""@) && auto_config_source(item, Some(c)) == Ok::<Seq<char>, Seq<char>>(
                row + guard_source(item.ident@, c),
            )
        },
{
}

/// A type that is imported.
#[derive(Clone, Debug, PartialEq, Eq)]
pub struct ImportPath {
    /// The source of the path.
    pub source: String,
    /// The last segment of the path.
    pub last: String,
}

impl View for ImportPath {
    type V = (Seq<char>, Seq<char>);

    /// The source and the last segment.
    open spec fn view(&self) -> (Seq<char>, Seq<char>) {
        (self.source@, self.last@)
    }
}

impl DeepView for ImportPath {
    type V = (Seq<char>, Seq<char>);

    open spec fn deep_view(&self) -> (Seq<char>, Seq<char>) {
        self@
    }
}

/// The last segment of a path with the given form.
pub open spec fn last_segment(form: Result<TypeForm, Seq<char>>) -> Seq<char> {
    match form {
        Ok(TypeForm::Path { last, .. }) => last,
        _ => ""@,
    }
}

/// The types that paths stand for, each with the form it is read as.
pub open spec fn imports_of(
    paths: Seq<(Seq<char>, Result<TypeForm, Seq<char>>)>,
) -> Result<Seq<(Seq<char>, Seq<char>)>, Seq<char>> {
    if paths.len() == 0 {
        Err("#[import(..)] requires at least one type to import"@)
    } else {
        Ok(Seq::new(paths.len(), |i: int| (paths[i].0, last_segment(paths[i].1))))
    }
}

/// The types in the arguments of `#[import]`. Where nothing is written there are none.
pub open spec fn imports_in(attr: Seq<char>) -> Result<Seq<(Seq<char>, Seq<char>)>, Seq<char>> {
    if attr.len() == 0 {
        imports_of(Seq::empty())
    } else {
        match paths_in(attr) {
            Ok(paths) => imports_of(
                Seq::new(paths.len(), |i: int| (paths[i], type_in(paths[i]))),
            ),
            Err(message) => Err("malformed #[import] arguments: "@ + message),
        }
    }
}

/// A result that is a list of imports, as the contracts speak of it.
pub open spec fn told_imports(res: Result<Vec<ImportPath>, EmitError>) -> Result<
    Seq<(Seq<char>, Seq<char>)>,
    Seq<char>,
> {
    match res {
        Ok(list) => Ok(list.deep_view()),
        Err(e) => Err(e.message@),
    }
}

/// Paths with the forms they are read as, as the contracts speak of them.
pub open spec fn read_paths(
    paths: Seq<(String, Result<TypeShape, String>)>,
) -> Seq<(Seq<char>, Result<TypeForm, Seq<char>>)> {
    Seq::new(paths.len(), |i: int| (paths[i].0@, crate::syntax::outcome(paths[i].1)))
}

/// The types that paths stand for, each with the form it is read as.
pub fn import_paths(paths: &Vec<(String, Result<TypeShape, String>)>) -> (res: Result<
    Vec<ImportPath>,
    EmitError,
>)
    ensures
        told_imports(res) == imports_of(read_paths(paths@)),
{
    if paths.len() == 0 {
        return error("#[import(..)] requires at least one type to import".to_string());
    }
    let mut out: Vec<ImportPath> = Vec::new();
    let mut i: usize = 0;
    while i < paths.len()
        invariant
            i <= paths.len(),
            out@.len() == i,
            forall|k: int|
                0 <= k < i ==> (#[trigger] out@[k])@ == (
                    paths@[k].0@,
                    last_segment(crate::syntax::outcome(paths@[k].1)),
                ),
        decreases paths.len() - i,
    {
        let last = match &paths[i].1 {
            Ok(TypeShape::Path { last, .. }) => last.clone(),
            _ => "".to_string(),
        };
        out.push(ImportPath { source: paths[i].0.clone(), last });
        i += 1;
    }
    assert(out.deep_view() =~= imports_of(read_paths(paths@))->Ok_0);
    Ok(out)
}

/// Reads the arguments of `#[import]`.
pub fn parse_import(attr: &str) -> (res: Result<Vec<ImportPath>, EmitError>)
    ensures
        told_imports(res) == imports_in(attr@),
        attr@.len() == 0 ==> told_imports(res) == Err::<
            Seq<(Seq<char>, Seq<char>)>,
            Seq<char>,
        >("#[import(..)] requires at least one type to import"@),
{
    if attr.unicode_len() == 0 {
        return error("#[import(..)] requires at least one type to import".to_string());
    }
    let paths = match split_paths(attr) {
        Ok(paths) => paths,
        Err(message) => return error(
            "malformed #[import] arguments: ".to_string().concat(message.as_str()),
        ),
    };
    let mut read: Vec<(String, Result<TypeShape, String>)> = Vec::new();
    let mut i: usize = 0;
    while i < paths.len()
        invariant
            i <= paths.len(),
            read@.len() == i,
            forall|k: int|
                0 <= k < i ==> (#[trigger] read@[k]).0@ == paths@[k]@ && crate::syntax::outcome(
                    read@[k].1,
                ) == type_in(paths@[k]@),
        decreases paths.len() - i,
    {
        let shape = type_shape(paths[i].as_str());
        read.push((paths[i].clone(), shape));
        i += 1;
    }
    proof {
        let given = paths.deep_view();
        assert(read_paths(read@) =~= Seq::new(
            given.len(),
            |i: int| (given[i], type_in(given[i])),
        ));
    }
    import_paths(&read)
}

/// The types that are imported are read in their order, each with the last name of its path; there
/// has to be one.
pub proof fn imports_are_read_in_order(attr: Seq<char>, paths: Seq<Seq<char>>)
    requires
        attr.len() > 0,
        paths_in(attr) == Ok::<Seq<Seq<char>>, Seq<char>>(paths),
    ensures
        paths.len() == 0 ==> imports_in(attr) is Err,
        paths.len() > 0 ==> {
            &&& imports_in(attr) is Ok
            &&& imports_in(attr)->Ok_0.len() == paths.len()
            &&& forall|i: int|
                0 <= i < paths.len() ==> (#[trigger] imports_in(attr)->Ok_0[i]).0 == paths[i] && (
                type_in(paths[i]) matches Ok(TypeForm::Path { last, .. })
                    ==> imports_in(attr)->Ok_0[i].1 == last)
        },
        imports_in(Seq::empty()) is Err,
{
}

/// The contract id of a type that is imported.
pub open spec fn importee_source(import: (Seq<char>, Seq<char>)) -> Seq<char> {
    "::leaf_core::ContractId::of("@ + literal_source(import.1) + ")"@
}

/// The contract ids of the types that are imported.
pub open spec fn importee_sources(imports: Seq<(Seq<char>, Seq<char>)>) -> Seq<Seq<char>> {
    Seq::new(imports.len(), |i: int| importee_source(imports[i]))
}

/// A reference to the type that is imported at `i`.
pub open spec fn reference_source(import: (Seq<char>, Seq<char>), i: nat) -> Seq<char> {
    "let __r"@ + decimal(i) + ": ::core::option::Option<&"@ + import.0
        + "> = ::core::option::Option::None; let _ = __r"@ + decimal(i) + "; "@
}

/// References to the types that are imported.
pub open spec fn reference_sources(imports: Seq<(Seq<char>, Seq<char>)>) -> Seq<Seq<char>> {
    Seq::new(imports.len(), |i: int| reference_source(imports[i], i as nat))
}

/// What an element imports.
pub const IMPORT: &'static str = "#[allow(non_upper_case_globals)]
pub const __LEAF_IMPORT_#mangled: ::leaf_core::ImportEdge = ::leaf_core::ImportEdge {
    from: #from,
    to: &[#to],
};
#[allow(non_snake_case)]
#[allow(dead_code, clippy::let_unit_value)]
fn __leaf_import_refs_#mangled() {
    #refs
}
";

/// What the element `ident` imports.
pub open spec fn import_source(ident: Seq<char>, imports: Seq<(Seq<char>, Seq<char>)>) -> Seq<char> {
    filled(
        IMPORT@,
        no_slots().push(("mangled"@, mangled(ident))).push(("from"@, contract_here(ident))).push(
            ("to"@, join(importee_sources(imports), ", "@)),
        ).push(("refs"@, join(reference_sources(imports), ""@))),
    )
}

/// Pieces of the template, where they stand in it.
#[verifier::spinoff_prover]
#[verifier::rlimit(60)]
proof fn import_pieces()
    ensures
        IMPORT@.len() == 271,
        IMPORT@.subrange(42, 151) == " __LEAF_IMPORT_"@ + seq!['#'] + "mangled"@ + (": ::leaf_core::ImportEdge = ::leaf_core::ImportEdge {\n    from: "@ + seq!['#'] + "from"@ + (",\n    to: &["@ + seq!['#'] + "to"@ + "],"@)),
        !is_name_char(IMPORT@[42]),
        !is_name_char(IMPORT@[151]),
        IMPORT@.subrange(254, 270) == "() {\n    "@ + seq!['#'] + "refs"@ + "\n}"@,
        !is_name_char(IMPORT@[254]),
        !is_name_char(IMPORT@[270]),
{
    reveal_strlit(
        "#[allow(non_upper_case_globals)]
pub const __LEAF_IMPORT_#mangled: ::leaf_core::ImportEdge = ::leaf_core::ImportEdge {
    from: #from,
    to: &[#to],
};
#[allow(non_snake_case)]
#[allow(dead_code, clippy::let_unit_value)]
fn __leaf_import_refs_#mangled() {
    #refs
}
",
    );
    reveal_strlit("\n}");
    reveal_strlit(" __LEAF_IMPORT_");
    reveal_strlit("() {\n    ");
    reveal_strlit(",\n    to: &[");
    reveal_strlit(": ::leaf_core::ImportEdge = ::leaf_core::ImportEdge {\n    from: ");
    reveal_strlit("],");
    reveal_strlit("from");
    reveal_strlit("mangled");
    reveal_strlit("refs");
    reveal_strlit("to");
    assert(IMPORT@.subrange(42, 151) =~= " __LEAF_IMPORT_"@ + seq!['#'] + "mangled"@ + (": ::leaf_core::ImportEdge = ::leaf_core::ImportEdge {\n    from: "@ + seq!['#'] + "from"@ + (",\n    to: &["@ + seq!['#'] + "to"@ + "],"@)));
    assert(IMPORT@.subrange(254, 270) =~= "() {\n    "@ + seq!['#'] + "refs"@ + "\n}"@);
}

/// What the slots of the template hold.
proof fn import_slots_are_found(ident: Seq<char>, imports: Seq<(Seq<char>, Seq<char>)>)
    ensures
        ({
            let slots = no_slots().push(("mangled"@, mangled(ident))).push(("from"@, contract_here(ident))).push(
                ("to"@, join(importee_sources(imports), ", "@)),
            ).push(("refs"@, join(reference_sources(imports), ""@)));
            &&& slot_text(slots, "mangled"@) == Some(mangled(ident))
            &&& slot_text(slots, "from"@) == Some(contract_here(ident))
            &&& slot_text(slots, "to"@) == Some(join(importee_sources(imports), ", "@))
            &&& slot_text(slots, "refs"@) == Some(join(reference_sources(imports), ""@))
        }),
{
    reveal_strlit("mangled");
    reveal_strlit("from");
    reveal_strlit("to");
    reveal_strlit("refs");
    let slots = no_slots().push(("mangled"@, mangled(ident))).push(("from"@, contract_here(ident))).push(
                ("to"@, join(importee_sources(imports), ", "@)),
            ).push(("refs"@, join(reference_sources(imports), ""@)));
    slot_at(slots, 0);
    assert("mangled"@.len() != "from"@.len());
    slot_at(slots, 1);
    assert("mangled"@.len() != "to"@.len());
    assert("from"@.len() != "to"@.len());
    slot_at(slots, 2);
    assert("mangled"@.len() != "refs"@.len());
    assert("from"@[0] != "refs"@[0]);
    assert("to"@.len() != "refs"@.len());
    slot_at(slots, 3);
}

/// What an element imports leads from the element to each type that is imported, in their order,
/// and each of the types is referred to.
#[verifier::spinoff_prover]
#[verifier::rlimit(60)]
pub proof fn import_leads_to_each_type(ident: Seq<char>, imports: Seq<(Seq<char>, Seq<char>)>)
    ensures
        stands_in(
            " __LEAF_IMPORT_"@ + mangled(ident) + ": ::leaf_core::ImportEdge = ::leaf_core::ImportEdge {\n    from: "@ + contract_here(ident) + ",\n    to: &["@ + join(importee_sources(imports), ", "@) + "],"@,
            import_source(ident, imports),
        ),
        stands_in(
            "() {\n    "@ + join(reference_sources(imports), ""@) + "\n}"@,
            import_source(ident, imports),
        ),
        lists(
            join(importee_sources(imports), ", "@),
            Seq::new(
                imports.len(),
                |i: int| "::leaf_core::ContractId::of("@ + literal_source(imports[i].1) + ")"@,
            ),
            ", "@,
        ),
        series(
            join(reference_sources(imports), ""@),
            Seq::new(
                imports.len(),
                |i: int|
                    "let __r"@ + decimal(i as nat) + ": ::core::option::Option<&"@ + imports[i].0
                        + "> = ::core::option::Option::None; let _ = __r"@ + decimal(i as nat)
                        + "; "@,
            ),
            ""@,
        ),
{
    import_pieces();
    import_slots_are_found(ident, imports);
    let t = IMPORT@;
    let slots = no_slots().push(("mangled"@, mangled(ident))).push(("from"@, contract_here(ident))).push(
                ("to"@, join(importee_sources(imports), ", "@)),
            ).push(("refs"@, join(reference_sources(imports), ""@)));
    joined_lists(importee_sources(imports), ", "@);
    join_is_a_series(reference_sources(imports));
    assert(importee_sources(imports) =~= Seq::new(
        imports.len(),
        |i: int| "::leaf_core::ContractId::of("@ + literal_source(imports[i].1) + ")"@,
    ));
    assert(reference_sources(imports) =~= Seq::new(
        imports.len(),
        |i: int|
            "let __r"@ + decimal(i as nat) + ": ::core::option::Option<&"@ + imports[i].0
                + "> = ::core::option::Option::None; let _ = __r"@ + decimal(i as nat) + "; "@,
    ));
    assert(stands_in(" __LEAF_IMPORT_"@ + mangled(ident) + ": ::leaf_core::ImportEdge = ::leaf_core::ImportEdge {\n    from: "@ + contract_here(ident) + ",\n    to: &["@ + join(importee_sources(imports), ", "@) + "],"@,import_source(ident, imports))) by {
        reveal_strlit("from");
        reveal_strlit("mangled");
        reveal_strlit("to");
        reveal_strlit(" __LEAF_IMPORT_");
        reveal_strlit(",\n    to: &[");
        reveal_strlit(": ::leaf_core::ImportEdge = ::leaf_core::ImportEdge {\n    from: ");
        reveal_strlit("],");
        let p3 = "],"@;
        let p2 = ",\n    to: &["@ + seq!['#'] + "to"@ + p3;
        let p1 = ": ::leaf_core::ImportEdge = ::leaf_core::ImportEdge {\n    from: "@ + seq!['#'] + "from"@ + p2;
        let p0 = " __LEAF_IMPORT_"@ + seq!['#'] + "mangled"@ + p1;
        filled_plain(p3, slots);
        filled_step(",\n    to: &["@, "to"@, p3, slots);
        filled_step(": ::leaf_core::ImportEdge = ::leaf_core::ImportEdge {\n    from: "@, "from"@, p2, slots);
        filled_step(" __LEAF_IMPORT_"@, "mangled"@, p1, slots);
        filled_part(t, 42, 151, slots);
        assert((" __LEAF_IMPORT_"@ + mangled(ident) + (": ::leaf_core::ImportEdge = ::leaf_core::ImportEdge {\n    from: "@ + contract_here(ident) + (",\n    to: &["@ + join(importee_sources(imports), ", "@) + "],"@))) =~= " __LEAF_IMPORT_"@ + mangled(ident) + ": ::leaf_core::ImportEdge = ::leaf_core::ImportEdge {\n    from: "@ + contract_here(ident) + ",\n    to: &["@ + join(importee_sources(imports), ", "@) + "],"@);
    }
    assert(stands_in("() {\n    "@ + join(reference_sources(imports), ""@) + "\n}"@,import_source(ident, imports))) by {
        reveal_strlit("refs");
        reveal_strlit("\n}");
        reveal_strlit("() {\n    ");
        let p1 = "\n}"@;
        let p0 = "() {\n    "@ + seq!['#'] + "refs"@ + p1;
        filled_plain(p1, slots);
        filled_step("() {\n    "@, "refs"@, p1, slots);
        filled_part(t, 254, 270, slots);
        assert(("() {\n    "@ + join(reference_sources(imports), ""@) + "\n}"@) =~= "() {\n    "@ + join(reference_sources(imports), ""@) + "\n}"@);
    }
}

/// Prints what the element `ident` imports.
pub fn emit_import(ident: &str, imports: &[ImportPath]) -> (res: String)
    ensures
        res@ == import_source(ident@, imports.deep_view()),
{
    let ghost all = imports.deep_view();
    let mut to: Vec<String> = Vec::new();
    let mut refs: Vec<String> = Vec::new();
    let mut i: usize = 0;
    while i < imports.len()
        invariant
            all == imports.deep_view(),
            i <= imports@.len(),
            to@.len() == i,
            refs@.len() == i,
            forall|k: int| 0 <= k < i ==> (#[trigger] to@[k])@ == importee_source(all[k]),
            forall|k: int| 0 <= k < i ==> (#[trigger] refs@[k])@ == reference_source(all[k], k as nat),
        decreases imports@.len() - i,
    {
        assert(all[i as int] == imports@[i as int]@);
        let name = string_literal(imports[i].last.as_str());
        to.push("::leaf_core::ContractId::of(".to_string().concat(name.as_str()).concat(")"));
        let index = decimal_text(i as u64);
        refs.push(
            "let __r".to_string().concat(index.as_str()).concat(
                ": ::core::option::Option<&",
            ).concat(imports[i].source.as_str()).concat(
                "> = ::core::option::Option::None; let _ = __r",
            ).concat(index.as_str()).concat("; "),
        );
        i += 1;
    }
    assert(to.deep_view() =~= importee_sources(all));
    assert(refs.deep_view() =~= reference_sources(all));
    let name = mangle(ident);
    let from = contract_text(ident);
    let to = join_texts(&to, ", ");
    let refs = join_texts(&refs, "");
    Slots::new().with("mangled", name.as_str()).with("from", from.as_str()).with(
        "to",
        to.as_str(),
    ).with("refs", refs.as_str()).fill(IMPORT)
}

} // verus!
