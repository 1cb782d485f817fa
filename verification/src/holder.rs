//! Holders of context values: the arguments of their attribute, and the source that
//! declares them.
use vstd::prelude::*;

use crate::args::{
    arguments, assign_ident, assigns, bare_key, error, parse_arguments, settle, settled, str_value,
    text_value, told, Arg, ArgKind, EmitError, Expression, Form, Settings,
};
use crate::chars::{
    ascii_upper, is_lowercase, is_uppercase, lowercase, to_ascii_upper, uppercase,
};
use crate::items::{Fields, StructItem};
use crate::reading::{stands_in};
use crate::syntax::{literal_source, string_literal, type_in, type_shape, TypeForm, TypeShape};
use crate::template::{
    filled, filled_part, filled_plain, filled_step, is_name_char, no_slots, slot_at, slot_text,
    Slots,
};
use crate::text::{chars_of, slice_text, str_eq};

verus! {

/// Whether a value goes along when work is handed on.
#[derive(Clone, Copy, Debug, PartialEq, Eq, Structural)]
pub enum HolderPolicy {
    /// It does.
    Inherit,
    /// It does not.
    Isolate,
}

impl Default for HolderPolicy {
    fn default() -> (res: HolderPolicy)
        ensures
            res == HolderPolicy::Isolate,
    {
        HolderPolicy::Isolate
    }
}

/// What the attribute of a holder says.
#[derive(Clone, Debug)]
pub struct HolderArgs {
    /// The name of the value.
    pub name: String,
    /// Whether it goes along when work is handed on.
    pub policy: HolderPolicy,
    /// The type of the value.
    pub value: String,
    /// The name of the accessor, where one is given.
    pub accessor: Option<String>,
}

/// What [`HolderArgs`] stand for.
pub ghost struct Held {
    pub name: Seq<char>,
    pub policy: HolderPolicy,
    pub value: Seq<char>,
    pub accessor: Option<Seq<char>>,
}

impl View for HolderArgs {
    type V = Held;

    open spec fn view(&self) -> Held {
        Held {
            name: self.name@,
            policy: self.policy,
            value: self.value@,
            accessor: self.accessor.deep_view(),
        }
    }
}

/// The identifier that an argument is and nothing more.
pub open spec fn bare_ident(e: Expression) -> Option<Seq<char>> {
    match e.kind {
        Form::Path { ident, .. } => ident,
        _ => None,
    }
}

/// The identifier that an argument is and nothing more.
fn path_ident(arg: &Arg) -> (res: Option<String>)
    ensures
        res.deep_view() == bare_ident(arg@),
{
    match &arg.kind {
        ArgKind::Path { ident, .. } => ident.clone(),
        _ => None,
    }
}

/// The policy that an argument stands for.
pub open spec fn policy_value(e: Expression) -> Result<HolderPolicy, Seq<char>> {
    match bare_ident(e) {
        None => Err("`policy` must be `inherit` or `isolate`, got `"@ + e.source + "`"@),
        Some(ident) => if ident == "inherit"@ {
            Ok(HolderPolicy::Inherit)
        } else if ident == "isolate"@ {
            Ok(HolderPolicy::Isolate)
        } else {
            Err("`policy` must be `inherit` or `isolate`, got `"@ + ident + "`"@)
        },
    }
}

/// The policy that an argument stands for.
fn parse_policy(arg: &Arg) -> (res: Result<HolderPolicy, EmitError>)
    ensures
        match res {
            Ok(policy) => policy_value(arg@) == Ok::<HolderPolicy, Seq<char>>(policy),
            Err(e) => policy_value(arg@) == Err::<HolderPolicy, Seq<char>>(e.message@),
        },
{
    match path_ident(arg) {
        None => error(
            "`policy` must be `inherit` or `isolate`, got `".to_string().concat(
                arg.source.as_str(),
            ).concat("`"),
        ),
        Some(ident) => if str_eq(ident.as_str(), "inherit") {
            Ok(HolderPolicy::Inherit)
        } else if str_eq(ident.as_str(), "isolate") {
            Ok(HolderPolicy::Isolate)
        } else {
            error(
                "`policy` must be `inherit` or `isolate`, got `".to_string().concat(
                    ident.as_str(),
                ).concat("`"),
            )
        },
    }
}

/// What the attribute of a holder has said so far.
pub struct HolderSettings {
    /// The name.
    pub name: Option<String>,
    /// The policy.
    pub policy: HolderPolicy,
    /// The type of the value.
    pub value: Option<String>,
    /// The name of the accessor.
    pub accessor: Option<String>,
}

/// What [`HolderSettings`] stand for.
pub ghost struct HolderKeys {
    pub name: Option<Seq<char>>,
    pub policy: HolderPolicy,
    pub value: Option<Seq<char>>,
    pub accessor: Option<Seq<char>>,
}

impl View for HolderSettings {
    type V = HolderKeys;

    open spec fn view(&self) -> HolderKeys {
        HolderKeys {
            name: self.name.deep_view(),
            policy: self.policy,
            value: self.value.deep_view(),
            accessor: self.accessor.deep_view(),
        }
    }
}

/// The type that is held, where its source is read as the given form.
pub open spec fn held_type(source: Seq<char>, form: Result<TypeForm, Seq<char>>) -> Result<
    Seq<char>,
    Seq<char>,
> {
    match form {
        Ok(_) => Ok(source),
        Err(message) => Err("`value` must be a type, got `"@ + source + "`: "@ + message),
    }
}

/// The type that is held, where its source is read as the given form.
pub fn value_type(source: &str, shape: &Result<TypeShape, String>) -> (res: Result<
    String,
    EmitError,
>)
    ensures
        told(res) == held_type(source@, crate::syntax::outcome(*shape)),
{
    match shape {
        Ok(_) => Ok(source.to_string()),
        Err(message) => error(
            "`value` must be a type, got `".to_string().concat(source).concat("`: ").concat(
                message.as_str(),
            ),
        ),
    }
}

/// What is said after one more argument.
pub open spec fn after_holder(s: HolderKeys, e: Expression) -> Result<HolderKeys, Seq<char>> {
    match e.kind {
        Form::Assign { left, right } => match bare_key(*left) {
            Err(message) => Err(message),
            Ok(key) => if key == "name"@ {
                match text_value(*right) {
                    Some(name) => Ok(HolderKeys { name: Some(name), ..s }),
                    None => Err("`name` must be a string"@),
                }
            } else if key == "policy"@ {
                match policy_value(*right) {
                    Ok(policy) => Ok(HolderKeys { policy, ..s }),
                    Err(message) => Err(message),
                }
            } else if key == "value"@ {
                match held_type(right.source, type_in(right.source)) {
                    Ok(ty) => Ok(HolderKeys { value: Some(ty), ..s }),
                    Err(message) => Err(message),
                }
            } else if key == "accessor"@ {
                match bare_ident(*right) {
                    Some(ident) => Ok(HolderKeys { accessor: Some(ident), ..s }),
                    None => Err("expected a bare identifier, got `"@ + right.source + "`"@),
                }
            } else {
                Err(
                    "unknown #[holder] argument `"@ + key
                        + "` (expected `name`/`policy`/`value`/`accessor`)"@,
                )
            },
        },
        _ => Err("#[holder] arguments must be `key = value` pairs, got `"@ + e.source + "`"@),
    }
}

impl Settings for HolderSettings {
    open spec fn after(settings: HolderKeys, e: Expression) -> Result<HolderKeys, Seq<char>> {
        after_holder(settings, e)
    }

    fn apply(self, arg: &Arg) -> (res: Result<HolderSettings, EmitError>) {
        let (left, right) = match &arg.kind {
            ArgKind::Assign { left, right } => (left, right),
            _ => return error(
                "#[holder] arguments must be `key = value` pairs, got `".to_string().concat(
                    arg.source.as_str(),
                ).concat("`"),
            ),
        };
        let key = match assign_ident(left) {
            Ok(key) => key,
            Err(e) => return Err(e),
        };
        let mut settings = self;
        if str_eq(key.as_str(), "name") {
            match str_value(right) {
                Some(name) => settings.name = Some(name),
                None => return error("`name` must be a string".to_string()),
            }
        } else if str_eq(key.as_str(), "policy") {
            match parse_policy(right) {
                Ok(policy) => settings.policy = policy,
                Err(e) => return Err(e),
            }
        } else if str_eq(key.as_str(), "value") {
            match value_type(right.source.as_str(), &type_shape(right.source.as_str())) {
                Ok(ty) => settings.value = Some(ty),
                Err(e) => return Err(e),
            }
        } else if str_eq(key.as_str(), "accessor") {
            match path_ident(right) {
                Some(ident) => settings.accessor = Some(ident),
                None => return error(
                    "expected a bare identifier, got `".to_string().concat(
                        right.source.as_str(),
                    ).concat("`"),
                ),
            }
        } else {
            return error(
                "unknown #[holder] argument `".to_string().concat(key.as_str()).concat(
                    "` (expected `name`/`policy`/`value`/`accessor`)",
                ),
            );
        }
        Ok(settings)
    }
}

/// Each key of a holder sets what it names and leaves the rest.
pub proof fn holder_keys_set_their_own(s: HolderKeys, e: Expression, key: Seq<char>, v: Expression)
    requires
        assigns(e, key, v),
    ensures
        key == "name"@ && v.kind is Str ==> after_holder(s, e) == Ok::<HolderKeys, Seq<char>>(
            HolderKeys { name: Some(v.kind->Str_0), ..s },
        ),
        key == "policy"@ && v.kind is Path && v.kind->ident is Some ==> {
            &&& v.kind->ident->0 == "inherit"@ ==> after_holder(s, e) == Ok::<
                HolderKeys,
                Seq<char>,
            >(HolderKeys { policy: HolderPolicy::Inherit, ..s })
            &&& v.kind->ident->0 == "isolate"@ ==> after_holder(s, e) == Ok::<
                HolderKeys,
                Seq<char>,
            >(HolderKeys { policy: HolderPolicy::Isolate, ..s })
            &&& v.kind->ident->0 != "inherit"@ && v.kind->ident->0 != "isolate"@ ==> after_holder(
                s,
                e,
            ) is Err
        },
        key == "value"@ && type_in(v.source) is Ok ==> after_holder(s, e) == Ok::<
            HolderKeys,
            Seq<char>,
        >(HolderKeys { value: Some(v.source), ..s }),
        key == "value"@ && type_in(v.source) is Err ==> after_holder(s, e) is Err,
        key == "accessor"@ && v.kind is Path && v.kind->ident is Some ==> after_holder(
            s,
            e,
        ) == Ok::<HolderKeys, Seq<char>>(HolderKeys { accessor: v.kind->ident, ..s }),
        key != "name"@ && key != "policy"@ && key != "value"@ && key != "accessor"@ ==> after_holder(
            s,
            e,
        ) is Err,
        silent_holder() == (HolderKeys {
            name: None,
            policy: HolderPolicy::Isolate,
            value: None,
            accessor: None,
        }),
{
    reveal_strlit("name");
    reveal_strlit("policy");
    reveal_strlit("value");
    reveal_strlit("accessor");
    assert("name"@.len() != "policy"@.len());
    assert("name"@.len() != "value"@.len());
    assert("name"@.len() != "accessor"@.len());
    assert("policy"@.len() != "value"@.len());
    assert("policy"@.len() != "accessor"@.len());
    assert("value"@.len() != "accessor"@.len());
    reveal_strlit("inherit");
    reveal_strlit("isolate");
    assert("inherit"@[1] != "isolate"@[1]);
}

/// What an attribute that says nothing sets.
pub open spec fn silent_holder() -> HolderKeys {
    HolderKeys { name: None, policy: HolderPolicy::Isolate, value: None, accessor: None }
}

/// A holder is what its items come to; it has to have a name and a type.
pub proof fn items_make_the_holder(items: Seq<Expression>)
    ensures
        holder_settings(Seq::empty()) is Err,
        settled::<HolderSettings>(silent_holder(), items) is Err ==> holder_settings(items) is Err,
        settled::<HolderSettings>(silent_holder(), items) matches Ok(s) ==> {
            &&& s.name is None || s.value is None ==> holder_settings(items) is Err
            &&& items.len() > 0 && s.name is Some && s.value is Some ==> holder_settings(items) == Ok::<
                Held,
                Seq<char>,
            >(
                Held {
                    name: s.name->0,
                    policy: s.policy,
                    value: s.value->0,
                    accessor: s.accessor,
                },
            )
        },
{
}

/// What the arguments of a holder give. The name and the value have to be there.
pub open spec fn holder_settings(items: Seq<Expression>) -> Result<Held, Seq<char>> {
    if items.len() == 0 {
        Err("#[holder] requires a `name` and a `value`"@)
    } else {
        match settled::<HolderSettings>(silent_holder(), items) {
            Err(message) => Err(message),
            Ok(s) => match (s.name, s.value) {
                (None, _) => Err("#[holder] requires a `name`"@),
                (_, None) => Err("#[holder] requires a `value` type"@),
                (Some(name), Some(value)) => Ok(
                    Held { name, policy: s.policy, value, accessor: s.accessor },
                ),
            },
        }
    }
}

/// What the arguments of a holder give.
pub fn holder_args_of(items: &[Arg]) -> (res: Result<HolderArgs, EmitError>)
    ensures
        told(res) == holder_settings(items.deep_view()),
{
    if items.len() == 0 {
        return error("#[holder] requires a `name` and a `value`".to_string());
    }
    let start = HolderSettings {
        name: None,
        policy: HolderPolicy::Isolate,
        value: None,
        accessor: None,
    };
    assert(start@ == silent_holder());
    let settings = match settle(start, items) {
        Ok(settings) => settings,
        Err(e) => return Err(e),
    };
    let name = match settings.name {
        Some(name) => name,
        None => return error("#[holder] requires a `name`".to_string()),
    };
    let value = match settings.value {
        Some(value) => value,
        None => return error("#[holder] requires a `value` type".to_string()),
    };
    Ok(HolderArgs { name, policy: settings.policy, value, accessor: settings.accessor })
}

/// Reads the arguments of a holder.
pub fn parse_holder_args(attr: &str) -> (res: Result<HolderArgs, EmitError>)
    ensures
        told(res) == match arguments(attr@) {
            Ok(items) => holder_settings(items),
            Err(message) => Err("malformed #[holder] arguments: "@ + message),
        },
        attr@.len() == 0 ==> told(res) == Err::<Held, Seq<char>>(
            "#[holder] requires a `name` and a `value`"@,
        ),
{
    match parse_arguments(attr) {
        Ok(items) => holder_args_of(items.as_slice()),
        Err(message) => error("malformed #[holder] arguments: ".to_string().concat(message.as_str())),
    }
}

/// Whether a struct can be a holder: it has to be a unit struct and not generic.
pub open spec fn holder_struct(item: StructItem) -> Result<(), Seq<char>> {
    if item.generic || item.has_where {
        Err(
            "#[holder] requires a non-generic unit struct, but `"@ + item.ident@
                + "` is generic (a CxKey is a zero-sized concrete type)"@,
        )
    } else if item.fields is Unit {
        Ok(())
    } else {
        Err(
            "#[holder] requires a unit struct (`struct "@ + item.ident@ + ";`), but `"@ + item.ident@
                + "` has fields"@,
        )
    }
}

/// Whether a struct can be a holder.
pub fn validate_holder_struct(item: &StructItem) -> (res: Result<(), EmitError>)
    ensures
        told(res) == holder_struct(*item),
{
    if item.generic || item.has_where {
        return error(
            "#[holder] requires a non-generic unit struct, but `".to_string().concat(
                item.ident.as_str(),
            ).concat("` is generic (a CxKey is a zero-sized concrete type)"),
        );
    }
    match &item.fields {
        Fields::Unit => Ok(()),
        _ => error(
            "#[holder] requires a unit struct (`struct ".to_string().concat(
                item.ident.as_str(),
            ).concat(";`), but `").concat(item.ident.as_str()).concat("` has fields"),
        ),
    }
}

/// `s` in upper case with a `_` between words. A word begins with an upper-case letter
/// behind a lower-case letter or a digit; `behind` says that one of these stands in front
/// of `s`.
pub open spec fn shouted(s: Seq<char>, behind: bool) -> Seq<char>
    decreases s.len(),
{
    if s.len() == 0 {
        Seq::empty()
    } else {
        let c = s[0];
        let rest = shouted(s.drop_first(), lowercase(c) || ('0' <= c && c <= '9'));
        if uppercase(c) && behind {
            seq!['_', ascii_upper(c)] + rest
        } else {
            seq![ascii_upper(c)] + rest
        }
    }
}

/// A name in upper case with a `_` between words.
fn screaming_snake(ident: &str) -> (res: String)
    ensures
        res@ == shouted(ident@, false),
{
    let chars = chars_of(ident);
    let mut out = String::new();
    let mut behind = false;
    let mut i: usize = 0;
    assert(chars@.skip(0) =~= ident@);
    assert(out@ + shouted(ident@, false) =~= shouted(ident@, false));
    while i < chars.len()
        invariant
            chars@ == ident@,
            i <= chars.len(),
            shouted(ident@, false) == out@ + shouted(ident@.skip(i as int), behind),
        decreases chars.len() - i,
    {
        let c = chars[i];
        let ghost here = ident@.skip(i as int);
        let ghost before = out@;
        let ghost was = behind;
        if is_uppercase(c) && behind {
            out.push('_');
        }
        out.push(to_ascii_upper(c));
        behind = is_lowercase(c) || ('0' <= c && c <= '9');
        proof {
            assert(here[0] == c);
            assert(here.drop_first() =~= ident@.skip(i + 1));
            let rest = shouted(here.drop_first(), behind);
            assert(before + shouted(here, was) =~= out@ + rest);
        }
        i += 1;
    }
    assert(shouted(ident@.skip(i as int), behind) =~= Seq::<char>::empty());
    assert(out@ + Seq::<char>::empty() =~= out@);
    out
}

/// `ident` without the `Key` it ends in, unless it is nothing else.
pub open spec fn key_stem(ident: Seq<char>) -> Seq<char> {
    if ident.len() > 3 && ident.skip(ident.len() - 3) == "Key"@ {
        ident.take(ident.len() - 3)
    } else {
        ident
    }
}

/// The name of the accessor that a holder has where none is given.
pub open spec fn accessor_for(ident: Seq<char>) -> Seq<char> {
    shouted(key_stem(ident), false)
}

/// The name of the accessor that a holder has where none is given.
pub fn accessor_name(ident: &str) -> (res: String)
    ensures
        res@ == accessor_for(ident@),
{
    let chars = chars_of(ident);
    let len = chars.len();
    if len > 3 {
        let tail = slice_text(&chars, len - 3, len);
        assert(tail@ =~= ident@.skip(ident@.len() - 3));
        if str_eq(tail.as_str(), "Key") {
            let stem = slice_text(&chars, 0, len - 3);
            assert(stem@ =~= ident@.take(ident@.len() - 3));
            return screaming_snake(stem.as_str());
        }
    }
    screaming_snake(ident)
}

/// The declaration of a holder: its key and its accessor.
pub const HOLDER: &'static str = "impl ::leaf_core::CxKey for #ident {
    type Value = #value;
    const NAME: & 'static str = #name;
    const POLICY: ::leaf_core::Propagation = #policy;
}
#[allow(missing_docs)]
pub static #accessor: ::leaf_core::Holder<#ident> = ::leaf_core::Holder::new();
";

/// The source that declares a holder.
pub open spec fn holder_source(ident: Seq<char>, held: Held) -> Seq<char> {
    filled(
        HOLDER@,
        no_slots().push(("ident"@, ident)).push(("value"@, held.value)).push(
            ("name"@, literal_source(held.name)),
        ).push(
            (
                "policy"@,
                match held.policy {
                    HolderPolicy::Inherit => "::leaf_core::Propagation::Inherit"@,
                    HolderPolicy::Isolate => "::leaf_core::Propagation::Isolate"@,
                },
            ),
        ).push(
            (
                "accessor"@,
                match held.accessor {
                    Some(accessor) => accessor,
                    None => accessor_for(ident),
                },
            ),
        ),
    )
}

/// The policy that a holder is printed with.
pub open spec fn policy_source(policy: HolderPolicy) -> Seq<char> {
    match policy {
        HolderPolicy::Inherit => "::leaf_core::Propagation::Inherit"@,
        HolderPolicy::Isolate => "::leaf_core::Propagation::Isolate"@,
    }
}

/// The accessor of a holder: the one given, or the one that its name gives.
pub open spec fn accessor_name_of(ident: Seq<char>, given: Option<Seq<char>>) -> Seq<char> {
    match given {
        Some(accessor) => accessor,
        None => accessor_for(ident),
    }
}

/// Pieces of the template, where they stand in it.
#[verifier::spinoff_prover]
#[verifier::rlimit(60)]
proof fn holder_pieces()
    ensures
        HOLDER@.len() == 260,
        HOLDER@.subrange(5, 61) == "::leaf_core::CxKey for "@ + seq!['#'] + "ident"@ + (" {\n    type Value = "@ + seq!['#'] + "value"@ + ";"@),
        !is_name_char(HOLDER@[5]),
        !is_name_char(HOLDER@[61]),
        HOLDER@.subrange(61, 154) == "\n    const NAME: & 'static str = "@ + seq!['#'] + "name"@ + (";\n    const POLICY: ::leaf_core::Propagation = "@ + seq!['#'] + "policy"@ + ";"@),
        !is_name_char(HOLDER@[154]),
        HOLDER@.subrange(179, 259) == "\npub static "@ + seq!['#'] + "accessor"@ + (": ::leaf_core::Holder<"@ + seq!['#'] + "ident"@ + "> = ::leaf_core::Holder::new();"@),
        !is_name_char(HOLDER@[179]),
        !is_name_char(HOLDER@[259]),
{
    reveal_strlit(
        "impl ::leaf_core::CxKey for #ident {
    type Value = #value;
    const NAME: & 'static str = #name;
    const POLICY: ::leaf_core::Propagation = #policy;
}
#[allow(missing_docs)]
pub static #accessor: ::leaf_core::Holder<#ident> = ::leaf_core::Holder::new();
",
    );
    reveal_strlit("\n    const NAME: & 'static str = ");
    reveal_strlit("\npub static ");
    reveal_strlit(" {\n    type Value = ");
    reveal_strlit(": ::leaf_core::Holder<");
    reveal_strlit("::leaf_core::CxKey for ");
    reveal_strlit(";");
    reveal_strlit(";\n    const POLICY: ::leaf_core::Propagation = ");
    reveal_strlit("> = ::leaf_core::Holder::new();");
    reveal_strlit("accessor");
    reveal_strlit("ident");
    reveal_strlit("name");
    reveal_strlit("policy");
    reveal_strlit("value");
    assert(HOLDER@.subrange(5, 61) =~= "::leaf_core::CxKey for "@ + seq!['#'] + "ident"@ + (" {\n    type Value = "@ + seq!['#'] + "value"@ + ";"@));
    assert(HOLDER@.subrange(61, 154) =~= "\n    const NAME: & 'static str = "@ + seq!['#'] + "name"@ + (";\n    const POLICY: ::leaf_core::Propagation = "@ + seq!['#'] + "policy"@ + ";"@));
    assert(HOLDER@.subrange(179, 259) =~= "\npub static "@ + seq!['#'] + "accessor"@ + (": ::leaf_core::Holder<"@ + seq!['#'] + "ident"@ + "> = ::leaf_core::Holder::new();"@));
}

/// What the slots of the template hold.
proof fn holder_slots_are_found(ident: Seq<char>, held: Held)
    ensures
        ({
            let slots = no_slots().push(("ident"@, ident)).push(("value"@, held.value)).push(
                ("name"@, literal_source(held.name)),
            ).push(("policy"@, policy_source(held.policy))).push(
                ("accessor"@, accessor_name_of(ident, held.accessor)),
            );
            &&& slot_text(slots, "ident"@) == Some(ident)
            &&& slot_text(slots, "value"@) == Some(held.value)
            &&& slot_text(slots, "name"@) == Some(literal_source(held.name))
            &&& slot_text(slots, "policy"@) == Some(policy_source(held.policy))
            &&& slot_text(slots, "accessor"@) == Some(accessor_name_of(ident, held.accessor))
        }),
{
    reveal_strlit("ident");
    reveal_strlit("value");
    reveal_strlit("name");
    reveal_strlit("policy");
    reveal_strlit("accessor");
    let slots = no_slots().push(("ident"@, ident)).push(("value"@, held.value)).push(
                ("name"@, literal_source(held.name)),
            ).push(("policy"@, policy_source(held.policy))).push(
                ("accessor"@, accessor_name_of(ident, held.accessor)),
            );
    slot_at(slots, 0);
    assert("ident"@[0] != "value"@[0]);
    slot_at(slots, 1);
    assert("ident"@.len() != "name"@.len());
    assert("value"@.len() != "name"@.len());
    slot_at(slots, 2);
    assert("ident"@.len() != "policy"@.len());
    assert("value"@.len() != "policy"@.len());
    assert("name"@.len() != "policy"@.len());
    slot_at(slots, 3);
    assert("ident"@.len() != "accessor"@.len());
    assert("value"@.len() != "accessor"@.len());
    assert("name"@.len() != "accessor"@.len());
    assert("policy"@.len() != "accessor"@.len());
    slot_at(slots, 4);
}

/// A holder is the key of its value, with its name and its policy, and has its accessor.
#[verifier::spinoff_prover]
#[verifier::rlimit(60)]
pub proof fn holder_says_its_settings(ident: Seq<char>, held: Held)
    ensures
        stands_in(
            "::leaf_core::CxKey for "@ + ident + " {\n    type Value = "@ + held.value + ";"@,
            holder_source(ident, held),
        ),
        stands_in(
            "\n    const NAME: & 'static str = "@ + literal_source(held.name) + ";\n    const POLICY: ::leaf_core::Propagation = "@ + policy_source(held.policy) + ";"@,
            holder_source(ident, held),
        ),
        stands_in(
            "\npub static "@ + accessor_name_of(ident, held.accessor) + ": ::leaf_core::Holder<"@ + ident + "> = ::leaf_core::Holder::new();"@,
            holder_source(ident, held),
        ),
{
    holder_pieces();
    holder_slots_are_found(ident, held);
    let t = HOLDER@;
    let slots = no_slots().push(("ident"@, ident)).push(("value"@, held.value)).push(
                ("name"@, literal_source(held.name)),
            ).push(("policy"@, policy_source(held.policy))).push(
                ("accessor"@, accessor_name_of(ident, held.accessor)),
            );
    assert(stands_in("::leaf_core::CxKey for "@ + ident + " {\n    type Value = "@ + held.value + ";"@,holder_source(ident, held))) by {
        reveal_strlit("ident");
        reveal_strlit("value");
        reveal_strlit(" {\n    type Value = ");
        reveal_strlit("::leaf_core::CxKey for ");
        reveal_strlit(";");
        let p2 = ";"@;
        let p1 = " {\n    type Value = "@ + seq!['#'] + "value"@ + p2;
        let p0 = "::leaf_core::CxKey for "@ + seq!['#'] + "ident"@ + p1;
        filled_plain(p2, slots);
        filled_step(" {\n    type Value = "@, "value"@, p2, slots);
        filled_step("::leaf_core::CxKey for "@, "ident"@, p1, slots);
        filled_part(t, 5, 61, slots);
        assert(("::leaf_core::CxKey for "@ + ident + (" {\n    type Value = "@ + held.value + ";"@)) =~= "::leaf_core::CxKey for "@ + ident + " {\n    type Value = "@ + held.value + ";"@);
    }
    assert(stands_in("\n    const NAME: & 'static str = "@ + literal_source(held.name) + ";\n    const POLICY: ::leaf_core::Propagation = "@ + policy_source(held.policy) + ";"@,holder_source(ident, held))) by {
        reveal_strlit("name");
        reveal_strlit("policy");
        reveal_strlit("\n    const NAME: & 'static str = ");
        reveal_strlit(";");
        reveal_strlit(";\n    const POLICY: ::leaf_core::Propagation = ");
        let p2 = ";"@;
        let p1 = ";\n    const POLICY: ::leaf_core::Propagation = "@ + seq!['#'] + "policy"@ + p2;
        let p0 = "\n    const NAME: & 'static str = "@ + seq!['#'] + "name"@ + p1;
        filled_plain(p2, slots);
        filled_step(";\n    const POLICY: ::leaf_core::Propagation = "@, "policy"@, p2, slots);
        filled_step("\n    const NAME: & 'static str = "@, "name"@, p1, slots);
        filled_part(t, 61, 154, slots);
        assert(("\n    const NAME: & 'static str = "@ + literal_source(held.name) + (";\n    const POLICY: ::leaf_core::Propagation = "@ + policy_source(held.policy) + ";"@)) =~= "\n    const NAME: & 'static str = "@ + literal_source(held.name) + ";\n    const POLICY: ::leaf_core::Propagation = "@ + policy_source(held.policy) + ";"@);
    }
    assert(stands_in("\npub static "@ + accessor_name_of(ident, held.accessor) + ": ::leaf_core::Holder<"@ + ident + "> = ::leaf_core::Holder::new();"@,holder_source(ident, held))) by {
        reveal_strlit("accessor");
        reveal_strlit("ident");
        reveal_strlit("\npub static ");
        reveal_strlit(": ::leaf_core::Holder<");
        reveal_strlit("> = ::leaf_core::Holder::new();");
        let p2 = "> = ::leaf_core::Holder::new();"@;
        let p1 = ": ::leaf_core::Holder<"@ + seq!['#'] + "ident"@ + p2;
        let p0 = "\npub static "@ + seq!['#'] + "accessor"@ + p1;
        filled_plain(p2, slots);
        filled_step(": ::leaf_core::Holder<"@, "ident"@, p2, slots);
        filled_step("\npub static "@, "accessor"@, p1, slots);
        filled_part(t, 179, 259, slots);
        assert(("\npub static "@ + accessor_name_of(ident, held.accessor) + (": ::leaf_core::Holder<"@ + ident + "> = ::leaf_core::Holder::new();"@)) =~= "\npub static "@ + accessor_name_of(ident, held.accessor) + ": ::leaf_core::Holder<"@ + ident + "> = ::leaf_core::Holder::new();"@);
    }
}

/// A trailing `Key` is left out of the name of an accessor, unless it is all there is; what follows
/// a lower-case letter or a digit in upper case is set off with `_`, and nothing else is added.
pub proof fn accessor_is_the_stem_in_upper_case(stem: Seq<char>, c: char, rest: Seq<char>, behind: bool)
    ensures
        stem.len() > 0 ==> accessor_for(stem + "Key"@) == shouted(stem, false),
        key_stem("Key"@) == "Key"@,
        shouted(seq![c] + rest, behind) == (if uppercase(c) && behind {
            seq!['_', ascii_upper(c)]
        } else {
            seq![ascii_upper(c)]
        }) + shouted(rest, lowercase(c) || ('0' <= c && c <= '9')),
        shouted(Seq::empty(), behind) == Seq::<char>::empty(),
{
    reveal_strlit("Key");
    let ident = stem + "Key"@;
    assert(ident.skip(ident.len() - 3) =~= "Key"@);
    assert(ident.take(ident.len() - 3) =~= stem);
    assert((seq![c] + rest).drop_first() =~= rest);
}

/// Prints the declaration of the holder `ident`.
pub fn emit_holder(ident: &str, args: &HolderArgs) -> (res: String)
    ensures
        res@ == holder_source(ident@, args@),
{
    let policy = match args.policy {
        HolderPolicy::Inherit => "::leaf_core::Propagation::Inherit",
        HolderPolicy::Isolate => "::leaf_core::Propagation::Isolate",
    };
    let accessor = match &args.accessor {
        Some(accessor) => accessor.clone(),
        None => accessor_name(ident),
    };
    let slots = Slots::new().with("ident", ident).with("value", args.value.as_str()).with(
        "name",
        string_literal(args.name.as_str()).as_str(),
    ).with("policy", policy).with("accessor", accessor.as_str());
    slots.fill(HOLDER)
}

} // verus!
