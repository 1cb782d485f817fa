//! Configuration properties: how a struct is bound from them, the source that does it, and
//! the arguments of the attributes.
use vstd::prelude::*;

use crate::args::{error, told, EmitError};
use crate::chars::{is_white_space, white_space};
use crate::items::{DeriveItem, Field, Fields};
use crate::metas::{
    items_in, key_or_empty, key_text, parse_metas, settle_metas, settled_metas, Given, Item,
    MetaArg, MetaSettings, MetaValue,
};
use crate::naming::{
    contract_here, contract_text, default_name, derive_default_name, mangle, mangled,
};
use crate::parsers::{parse_and_emit, parsed_template, segments_source};
use crate::syntax::{
    literal_source, string_in, string_literal, string_value, type_in, type_shape, TypeForm,
    TypeShape,
};
use crate::reading::{
    behind, followed_series, joined_lists, lists, series, stands_in, within, within_brackets,
};
use crate::template::{
    filled, filled_part, filled_plain, filled_sign, filled_step, is_name_char, no_slots, slot_at, slot_text, unnamed_slot, Slots,
};
use crate::text::{chars_of, each_followed, follow_each, join, join_texts, str_eq};

verus! {

/// How a field is bound.
#[derive(Clone, Copy, Debug, PartialEq, Eq, Structural)]
pub enum FieldShape {
    /// From one value.
    Scalar,
    /// From a list of values.
    List,
    /// From properties of its own.
    Nested,
}

/// The names of the types that one value is enough for.
pub open spec fn scalar_name(name: Seq<char>) -> bool {
    name == "String"@ || name == "bool"@ || name == "char"@ || name == "u8"@ || name == "u16"@
        || name == "u32"@ || name == "u64"@ || name == "u128"@ || name == "usize"@ || name == "i8"@
        || name == "i16"@ || name == "i32"@ || name == "i64"@ || name == "i128"@ || name
        == "isize"@ || name == "f32"@ || name == "f64"@ || name == "Duration"@ || name == "Period"@
        || name == "DataSize"@ || name == "PathBuf"@ || name == "IpAddr"@ || name == "SocketAddr"@
}

/// Whether one value is enough for a type of that name.
fn is_scalar_ident(name: &str) -> (res: bool)
    ensures
        res == scalar_name(name@),
{
    str_eq(name, "String") || str_eq(name, "bool") || str_eq(name, "char") || str_eq(name, "u8")
        || str_eq(name, "u16") || str_eq(name, "u32") || str_eq(name, "u64") || str_eq(
        name,
        "u128",
    ) || str_eq(name, "usize") || str_eq(name, "i8") || str_eq(name, "i16") || str_eq(name, "i32")
        || str_eq(name, "i64") || str_eq(name, "i128") || str_eq(name, "isize") || str_eq(
        name,
        "f32",
    ) || str_eq(name, "f64") || str_eq(name, "Duration") || str_eq(name, "Period") || str_eq(
        name,
        "DataSize",
    ) || str_eq(name, "PathBuf") || str_eq(name, "IpAddr") || str_eq(name, "SocketAddr")
}

/// How a field of a type is bound. A type that is no path is bound from one value.
pub open spec fn shape_for(form: Result<TypeForm, Seq<char>>) -> FieldShape {
    match form {
        Ok(TypeForm::Path { last, .. }) => if last == "Vec"@ {
            FieldShape::List
        } else if scalar_name(last) {
            FieldShape::Scalar
        } else {
            FieldShape::Nested
        },
        _ => FieldShape::Scalar,
    }
}

/// How a field of a type is bound.
pub fn field_shape(shape: &Result<TypeShape, String>) -> (res: FieldShape)
    ensures
        res == shape_for(crate::syntax::outcome(*shape)),
{
    match shape {
        Ok(TypeShape::Path { last, .. }) => if str_eq(last.as_str(), "Vec") {
            FieldShape::List
        } else if is_scalar_ident(last.as_str()) {
            FieldShape::Scalar
        } else {
            FieldShape::Nested
        },
        _ => FieldShape::Scalar,
    }
}

/// The type of the elements of a `Vec`; any other type is left as it is.
pub open spec fn element(ty: Seq<char>, form: Result<TypeForm, Seq<char>>) -> Seq<char> {
    match form {
        Ok(TypeForm::Path { last, args }) => if last == "Vec"@ && args.len() > 0 {
            match args[0] {
                Some(inner) => inner,
                None => ty,
            }
        } else {
            ty
        },
        _ => ty,
    }
}

/// The type of the elements of a `Vec`.
fn vec_elem(ty: &str, shape: &Result<TypeShape, String>) -> (res: String)
    ensures
        res@ == element(ty@, crate::syntax::outcome(*shape)),
{
    match shape {
        Ok(TypeShape::Path { last, args }) => if str_eq(last.as_str(), "Vec") && args.len() > 0 {
            match &args[0] {
                Some(inner) => inner.clone(),
                None => ty.to_string(),
            }
        } else {
            ty.to_string()
        },
        _ => ty.to_string(),
    }
}

/// The key that a field is bound from: its name with `-` in place of `_`.
pub open spec fn kebab(ident: Seq<char>) -> Seq<char> {
    Seq::new(
        ident.len(),
        |i: int|
            if ident[i] == '_' {
                '-'
            } else {
                ident[i]
            },
    )
}

/// The key that a field is bound from.
pub fn canonical_name(ident: &str) -> (res: String)
    ensures
        res@ == kebab(ident@),
{
    let chars = chars_of(ident);
    let mut out = String::new();
    let mut i: usize = 0;
    while i < chars.len()
        invariant
            chars@ == ident@,
            i <= chars.len(),
            out@ == kebab(ident@).take(i as int),
        decreases chars.len() - i,
    {
        if chars[i] == '_' {
            out.push('-');
        } else {
            out.push(chars[i]);
        }
        assert(out@ =~= kebab(ident@).take(i + 1));
        i += 1;
    }
    assert(kebab(ident@).take(i as int) =~= kebab(ident@));
    out
}

/// `s` without its white space.
pub open spec fn unspaced(s: Seq<char>) -> Seq<char>
    decreases s.len(),
{
    if s.len() == 0 {
        Seq::empty()
    } else if white_space(s.last()) {
        unspaced(s.drop_last())
    } else {
        unspaced(s.drop_last()).push(s.last())
    }
}

/// A type as it is shown: without white space.
fn render_type(ty: &str) -> (res: String)
    ensures
        res@ == unspaced(ty@),
{
    let chars = chars_of(ty);
    let mut out = String::new();
    let mut i: usize = 0;
    assert(out@ =~= unspaced(ty@.take(0)));
    while i < chars.len()
        invariant
            chars@ == ty@,
            i <= chars.len(),
            out@ == unspaced(ty@.take(i as int)),
        decreases chars.len() - i,
    {
        proof {
            let next = ty@.take(i + 1);
            assert(next.drop_last() =~= ty@.take(i as int));
            assert(next.last() == chars@[i as int]);
        }
        if !is_white_space(chars[i]) {
            out.push(chars[i]);
        }
        i += 1;
    }
    assert(ty@.take(i as int) =~= ty@);
    out
}

/// The named fields of what a derive is applied to.
pub open spec fn named_fields(item: DeriveItem) -> Result<Seq<Field>, Seq<char>> {
    match item.fields {
        None => Err(
            "`"@ + item.ident@
                + "` is not a struct: #[derive(BindTarget)] / #[config_properties] target a named-field struct (the JavaBean shape)."@,
        ),
        Some(Fields::Named(list)) => Ok(list@),
        Some(_) => Err(
            "`"@ + item.ident@
                + "` has no named fields: a bind target must be a named-field struct."@,
        ),
    }
}

/// The named fields of what a derive is applied to.
fn struct_fields(item: &DeriveItem) -> (res: Result<&Vec<Field>, EmitError>)
    ensures
        match res {
            Ok(list) => named_fields(*item) == Ok::<Seq<Field>, Seq<char>>(list@),
            Err(e) => named_fields(*item) == Err::<Seq<Field>, Seq<char>>(e.message@),
        },
{
    match &item.fields {
        None => error(
            "`".to_string().concat(item.ident.as_str()).concat(
                "` is not a struct: #[derive(BindTarget)] / #[config_properties] target a named-field struct (the JavaBean shape).",
            ),
        ),
        Some(Fields::Named(list)) => Ok(list),
        Some(_) => error(
            "`".to_string().concat(item.ident.as_str()).concat(
                "` has no named fields: a bind target must be a named-field struct.",
            ),
        ),
    }
}

/// The schema of a field whose type has the given form.
pub open spec fn node_source(f: Field, form: Result<TypeForm, Seq<char>>) -> Seq<char> {
    match shape_for(form) {
        FieldShape::Scalar => "&::leaf_core::NodeSchema::Scalar"@,
        FieldShape::List => "&::leaf_core::NodeSchema::List(&::leaf_core::NodeSchema::Scalar)"@,
        FieldShape::Nested => "<"@ + f.ty@ + " as ::leaf_core::BindTarget>::SCHEMA"@,
    }
}

/// The row of a field in the schema of its struct, where its type has the given form.
pub open spec fn schema_row(f: Field, form: Result<TypeForm, Seq<char>>) -> Seq<char> {
    "::leaf_core::Field { canonical: "@ + literal_source(kebab(f.ident@)) + ", schema: "@
        + node_source(f, form) + ", has_default: true }"@
}

/// The call that binds a field whose type has the given form.
pub open spec fn bind_call(f: Field, form: Result<TypeForm, Seq<char>>) -> Seq<char> {
    let key = literal_source(kebab(f.ident@));
    match shape_for(form) {
        FieldShape::Scalar => "__cursor.scalar::<"@ + f.ty@ + ">("@ + key + ")"@,
        FieldShape::List => "__cursor.list::<"@ + element(f.ty@, form) + ">("@ + key + ")"@,
        FieldShape::Nested => "__cursor.nested::<"@ + f.ty@ + ">("@ + key + ")"@,
    }
}

/// The statement that binds a field whose type has the given form.
pub open spec fn bind_statement(f: Field, form: Result<TypeForm, Seq<char>>) -> Seq<char> {
    "match "@ + bind_call(f, form) + " { ::leaf_core::BindResult::Bound(__v) => { __out."@ + f.ident@
        + " = __v; __any = true; } ::leaf_core::BindResult::Unbound => {} ::leaf_core::BindResult::Failed(__e) => { return ::leaf_core::BindResult::Failed(__e); } }"@
}

/// The row of a field in the metadata of its struct.
pub open spec fn property_row(f: Field) -> Seq<char> {
    "::leaf_core::Property { name: "@ + literal_source(kebab(f.ident@)) + ", ty: "@
        + literal_source(unspaced(f.ty@))
        + ", description: ::core::option::Option::None, default: ::core::option::Option::None, deprecation: ::core::option::Option::None, hints: &[], origin: ::leaf_core::CodeSpan { file: ::core::file!(), line: ::core::line!(), column: ::core::column!() } }"@
}

/// The rows of fields in the schema of their struct.
pub open spec fn schema_rows(fields: Seq<Field>) -> Seq<Seq<char>> {
    Seq::new(fields.len(), |i: int| schema_row(fields[i], type_in(fields[i].ty@)))
}

/// The statements that bind fields.
pub open spec fn bind_statements(fields: Seq<Field>) -> Seq<Seq<char>> {
    Seq::new(fields.len(), |i: int| bind_statement(fields[i], type_in(fields[i].ty@)))
}

/// The rows of fields in the metadata of their struct.
pub open spec fn property_rows(fields: Seq<Field>) -> Seq<Seq<char>> {
    Seq::new(fields.len(), |i: int| property_row(fields[i]))
}

/// A field that is bound takes the value, and it is kept in mind that something was bound; one
/// that is not bound stays as it is; one that fails ends the binding with that failure.
pub proof fn bound_field_is_kept(f: Field, form: Result<TypeForm, Seq<char>>)
    ensures
        within(bind_statement(f, form), "match "@ + bind_call(f, form) + " { "@, " }"@) matches Some(
            arms,
        ) && lists(
            arms,
            seq![
                "::leaf_core::BindResult::Bound(__v) => { __out."@ + f.ident@
                    + " = __v; __any = true; }"@,
                "::leaf_core::BindResult::Unbound => {}"@,
                "::leaf_core::BindResult::Failed(__e) => { return ::leaf_core::BindResult::Failed(__e); }"@,
            ],
            " "@,
        ),
{
    reveal_strlit(" { ::leaf_core::BindResult::Bound(__v) => { __out.");
    reveal_strlit("::leaf_core::BindResult::Bound(__v) => { __out.");
    reveal_strlit(" = __v; __any = true; }");
    reveal_strlit("::leaf_core::BindResult::Unbound => {}");
    reveal_strlit("::leaf_core::BindResult::Failed(__e) => { return ::leaf_core::BindResult::Failed(__e); }");
    reveal_strlit(" { ");
    reveal_strlit(" }");
    reveal_strlit(" ");
    reveal_strlit(
        " = __v; __any = true; } ::leaf_core::BindResult::Unbound => {} ::leaf_core::BindResult::Failed(__e) => { return ::leaf_core::BindResult::Failed(__e); } }",
    );
    let bound = "::leaf_core::BindResult::Bound(__v) => { __out."@ + f.ident@
        + " = __v; __any = true; }"@;
    let unbound = "::leaf_core::BindResult::Unbound => {}"@;
    let failed =
        "::leaf_core::BindResult::Failed(__e) => { return ::leaf_core::BindResult::Failed(__e); }"@;
    let arms = seq![bound, unbound, failed];
    let text = join(arms, " "@);
    joined_lists(arms, " "@);
    assert(arms.drop_last() =~= seq![bound, unbound]);
    assert(seq![bound, unbound].drop_last() =~= seq![bound]);
    assert(join(seq![bound], " "@) == bound);
    assert(join(seq![bound, unbound], " "@) == bound + " "@ + unbound);
    assert(text == bound + " "@ + unbound + " "@ + failed);
    let open = "match "@ + bind_call(f, form) + " { "@;
    within_brackets(open, text, " }"@);
    let front = "match "@ + bind_call(f, form);
    assert(" { "@ + "::leaf_core::BindResult::Bound(__v) => { __out."@
        =~= " { ::leaf_core::BindResult::Bound(__v) => { __out."@);
    assert(" = __v; __any = true; }"@ + " "@ + unbound + " "@ + failed + " }"@
        =~= " = __v; __any = true; } ::leaf_core::BindResult::Unbound => {} ::leaf_core::BindResult::Failed(__e) => { return ::leaf_core::BindResult::Failed(__e); } }"@);
    assert(bind_statement(f, form) =~= open + text + " }"@);
}

/// A field is bound from the key of its name: a `Vec` as a list of its elements, a type of one
/// value as that, any other type from properties of its own.
pub proof fn field_is_bound_by_its_shape(f: Field, form: Result<TypeForm, Seq<char>>, last: Seq<char>, inner: Seq<char>, rest: Seq<Option<Seq<char>>>)
    ensures
        ({
            let key = literal_source(kebab(f.ident@));
            let vec = Ok(TypeForm::Path { last: "Vec"@, args: seq![Some(inner)] + rest });
            let plain = Ok(TypeForm::Path { last, args: rest });
            &&& bind_call(f, vec) == "__cursor.list::<"@ + inner + ">("@ + key + ")"@
            &&& node_source(f, vec)
                == "&::leaf_core::NodeSchema::List(&::leaf_core::NodeSchema::Scalar)"@
            &&& last != "Vec"@ && scalar_name(last) ==> bind_call(f, plain)
                == "__cursor.scalar::<"@ + f.ty@ + ">("@ + key + ")"@ && node_source(f, plain)
                == "&::leaf_core::NodeSchema::Scalar"@
            &&& last != "Vec"@ && !scalar_name(last) ==> bind_call(f, plain)
                == "__cursor.nested::<"@ + f.ty@ + ">("@ + key + ")"@ && node_source(f, plain)
                == "<"@ + f.ty@ + " as ::leaf_core::BindTarget>::SCHEMA"@
            &&& form is Err || !(form->Ok_0 is Path) ==> bind_call(f, form)
                == "__cursor.scalar::<"@ + f.ty@ + ">("@ + key + ")"@ && node_source(f, form)
                == "&::leaf_core::NodeSchema::Scalar"@
        }),
{
}

/// Numbers, truth values, texts, durations, sizes, paths and addresses are types of one value.
pub proof fn types_of_one_value(name: Seq<char>)
    ensures
        scalar_name(name) <==> seq![
            "String"@,
            "bool"@,
            "char"@,
            "u8"@,
            "u16"@,
            "u32"@,
            "u64"@,
            "u128"@,
            "usize"@,
            "i8"@,
            "i16"@,
            "i32"@,
            "i64"@,
            "i128"@,
            "isize"@,
            "f32"@,
            "f64"@,
            "Duration"@,
            "Period"@,
            "DataSize"@,
            "PathBuf"@,
            "IpAddr"@,
            "SocketAddr"@,
        ].contains(name),
{
    let all = seq![
        "String"@,
        "bool"@,
        "char"@,
        "u8"@,
        "u16"@,
        "u32"@,
        "u64"@,
        "u128"@,
        "usize"@,
        "i8"@,
        "i16"@,
        "i32"@,
        "i64"@,
        "i128"@,
        "isize"@,
        "f32"@,
        "f64"@,
        "Duration"@,
        "Period"@,
        "DataSize"@,
        "PathBuf"@,
        "IpAddr"@,
        "SocketAddr"@,
    ];
    assert(all.len() == 23);
    if scalar_name(name) {
        assert(exists|i: int| 0 <= i < all.len() && all[i] == name) by {
            assert(all[0] == name || all[1] == name || all[2] == name || all[3] == name || all[4]
                == name || all[5] == name || all[6] == name || all[7] == name || all[8] == name
                || all[9] == name || all[10] == name || all[11] == name || all[12] == name
                || all[13] == name || all[14] == name || all[15] == name || all[16] == name
                || all[17] == name || all[18] == name || all[19] == name || all[20] == name
                || all[21] == name || all[22] == name);
        }
    }
}

/// The key of a field is its name with `-` in place of each `_`, and nothing else is changed.
pub proof fn key_keeps_the_name(ident: Seq<char>)
    ensures
        kebab(ident).len() == ident.len(),
        !kebab(ident).contains('_'),
        forall|i: int|
            0 <= i < ident.len() ==> (if ident[i] == '_' {
                #[trigger] kebab(ident)[i] == '-'
            } else {
                kebab(ident)[i] == ident[i]
            }),
{
    assert forall|i: int| 0 <= i < kebab(ident).len() implies kebab(ident)[i] != '_' by {}
}

/// A type is shown without its white space: what has none is shown as it is, white space is left
/// out, and what follows is shown behind what goes before.
pub proof fn type_is_shown_without_space(a: Seq<char>, b: Seq<char>, c: char)
    ensures
        unspaced(a + b) == unspaced(a) + unspaced(b),
        white_space(c) ==> unspaced(seq![c]).len() == 0,
        !white_space(c) ==> unspaced(seq![c]) == seq![c],
    decreases b.len(),
{
    reveal_with_fuel(unspaced, 2);
    assert(seq![c].drop_last() =~= Seq::<char>::empty());
    assert(Seq::<char>::empty().push(c) =~= seq![c]);
    if b.len() == 0 {
        assert(a + b =~= a);
        assert(unspaced(a) + unspaced(b) =~= unspaced(a));
    } else {
        type_is_shown_without_space(a, b.drop_last(), c);
        assert((a + b).drop_last() =~= a + b.drop_last());
        assert((a + b).last() == b.last());
        assert(unspaced(a) + unspaced(b.drop_last()).push(b.last()) =~= (unspaced(a) + unspaced(
            b.drop_last(),
        )).push(b.last()));
    }
}

/// The schema and the metadata of a struct hold a row for each field, in the order of the
/// fields, under the key of the field.
pub proof fn each_field_has_its_rows(fields: Seq<Field>)
    ensures
        lists(
            join(schema_rows(fields), ", "@),
            Seq::new(
                fields.len(),
                |i: int|
                    "::leaf_core::Field { canonical: "@ + literal_source(kebab(fields[i].ident@))
                        + ", schema: "@ + node_source(fields[i], type_in(fields[i].ty@))
                        + ", has_default: true }"@,
            ),
            ", "@,
        ),
        lists(
            join(property_rows(fields), ", "@),
            Seq::new(
                fields.len(),
                |i: int|
                    "::leaf_core::Property { name: "@ + literal_source(kebab(fields[i].ident@))
                        + ", ty: "@ + literal_source(unspaced(fields[i].ty@))
                        + ", description: ::core::option::Option::None, default: ::core::option::Option::None, deprecation: ::core::option::Option::None, hints: &[], origin: ::leaf_core::CodeSpan { file: ::core::file!(), line: ::core::line!(), column: ::core::column!() } }"@,
            ),
            ", "@,
        ),
        series(
            each_followed(bind_statements(fields), " "@),
            Seq::new(
                fields.len(),
                |i: int| bind_statement(fields[i], type_in(fields[i].ty@)),
            ),
            " "@,
        ),
{
    joined_lists(schema_rows(fields), ", "@);
    joined_lists(property_rows(fields), ", "@);
    followed_series(bind_statements(fields), " "@);
    assert(schema_rows(fields) =~= Seq::new(
        fields.len(),
        |i: int|
            "::leaf_core::Field { canonical: "@ + literal_source(kebab(fields[i].ident@))
                + ", schema: "@ + node_source(fields[i], type_in(fields[i].ty@))
                + ", has_default: true }"@,
    ));
    assert(property_rows(fields) =~= Seq::new(
        fields.len(),
        |i: int|
            "::leaf_core::Property { name: "@ + literal_source(kebab(fields[i].ident@)) + ", ty: "@
                + literal_source(unspaced(fields[i].ty@))
                + ", description: ::core::option::Option::None, default: ::core::option::Option::None, deprecation: ::core::option::Option::None, hints: &[], origin: ::leaf_core::CodeSpan { file: ::core::file!(), line: ::core::line!(), column: ::core::column!() } }"@,
    ));
    assert(bind_statements(fields) =~= Seq::new(
        fields.len(),
        |i: int| bind_statement(fields[i], type_in(fields[i].ty@)),
    ));
}

/// What is printed of a field.
pub struct FieldText {
    /// Its row in the schema.
    pub row: String,
    /// The statement that binds it.
    pub bind: String,
    /// Its row in the metadata.
    pub property: String,
}

/// Prints a field whose type has the given form.
pub fn field_text(f: &Field, shape: &Result<TypeShape, String>) -> (res: FieldText)
    ensures
        res.row@ == schema_row(*f, crate::syntax::outcome(*shape)),
        res.bind@ == bind_statement(*f, crate::syntax::outcome(*shape)),
        res.property@ == property_row(*f),
{
    let key = string_literal(canonical_name(f.ident.as_str()).as_str());
    let shown = string_literal(render_type(f.ty.as_str()).as_str());
    let (node, call) = match field_shape(shape) {
        FieldShape::Scalar => (
            "&::leaf_core::NodeSchema::Scalar".to_string(),
            "__cursor.scalar::<".to_string().concat(f.ty.as_str()).concat(">(").concat(
                key.as_str(),
            ).concat(")"),
        ),
        FieldShape::List => {
            let inner = vec_elem(f.ty.as_str(), shape);
            (
                "&::leaf_core::NodeSchema::List(&::leaf_core::NodeSchema::Scalar)".to_string(),
                "__cursor.list::<".to_string().concat(inner.as_str()).concat(">(").concat(
                    key.as_str(),
                ).concat(")"),
            )
        },
        FieldShape::Nested => (
            "<".to_string().concat(f.ty.as_str()).concat(" as ::leaf_core::BindTarget>::SCHEMA"),
            "__cursor.nested::<".to_string().concat(f.ty.as_str()).concat(">(").concat(
                key.as_str(),
            ).concat(")"),
        ),
    };
    let row = "::leaf_core::Field { canonical: ".to_string().concat(key.as_str()).concat(
        ", schema: ",
    ).concat(node.as_str()).concat(", has_default: true }");
    let bind = "match ".to_string().concat(call.as_str()).concat(
        " { ::leaf_core::BindResult::Bound(__v) => { __out.",
    ).concat(f.ident.as_str()).concat(
        " = __v; __any = true; } ::leaf_core::BindResult::Unbound => {} ::leaf_core::BindResult::Failed(__e) => { return ::leaf_core::BindResult::Failed(__e); } }",
    );
    let property = "::leaf_core::Property { name: ".to_string().concat(key.as_str()).concat(
        ", ty: ",
    ).concat(shown.as_str()).concat(
        ", description: ::core::option::Option::None, default: ::core::option::Option::None, deprecation: ::core::option::Option::None, hints: &[], origin: ::leaf_core::CodeSpan { file: ::core::file!(), line: ::core::line!(), column: ::core::column!() } }",
    );
    FieldText { row, bind, property }
}

/// What is printed of fields.
struct FieldTexts {
    rows: Vec<String>,
    binds: Vec<String>,
    properties: Vec<String>,
}

/// Prints fields.
fn field_texts(fields: &Vec<Field>) -> (res: FieldTexts)
    ensures
        res.rows.deep_view() == schema_rows(fields@),
        res.binds.deep_view() == bind_statements(fields@),
        res.properties.deep_view() == property_rows(fields@),
{
    let mut rows: Vec<String> = Vec::new();
    let mut binds: Vec<String> = Vec::new();
    let mut properties: Vec<String> = Vec::new();
    let mut i: usize = 0;
    while i < fields.len()
        invariant
            i <= fields.len(),
            rows@.len() == i,
            binds@.len() == i,
            properties@.len() == i,
            forall|k: int|
                0 <= k < i ==> (#[trigger] rows@[k])@ == schema_row(
                    fields@[k],
                    type_in(fields@[k].ty@),
                ),
            forall|k: int|
                0 <= k < i ==> (#[trigger] binds@[k])@ == bind_statement(
                    fields@[k],
                    type_in(fields@[k].ty@),
                ),
            forall|k: int| 0 <= k < i ==> (#[trigger] properties@[k])@ == property_row(fields@[k]),
        decreases fields.len() - i,
    {
        let text = field_text(&fields[i], &type_shape(fields[i].ty.as_str()));
        rows.push(text.row);
        binds.push(text.bind);
        properties.push(text.property);
        i += 1;
    }
    assert(rows.deep_view() =~= schema_rows(fields@));
    assert(binds.deep_view() =~= bind_statements(fields@));
    assert(properties.deep_view() =~= property_rows(fields@));
    FieldTexts { rows, binds, properties }
}

/// The schema of a struct and how it is bound.
pub const BIND_TARGET: &'static str = "#[allow(non_upper_case_globals)]
static __LEAF_BIND_FIELDS_#mangled: &[::leaf_core::Field] = &[#rows];
#[allow(non_upper_case_globals)]
static __LEAF_BIND_SCHEMA_#mangled: ::leaf_core::NodeSchema = ::leaf_core::NodeSchema::Object {
    method: ::leaf_core::BindMethod::JavaBean,
    fields: __LEAF_BIND_FIELDS_#mangled,
};
impl ::leaf_core::BindTarget for #ident {
    const SCHEMA: &'static ::leaf_core::NodeSchema = &__LEAF_BIND_SCHEMA_#mangled;
    fn bind(
        __cursor: &mut ::leaf_core::BindCursor<'_, '_>,
    ) -> ::leaf_core::BindResult<Self> {
        let mut __out = <#ident as ::core::default::Default>::default();
        let mut __any = false;
        #binds
        if __any {
            ::leaf_core::BindResult::Bound(__out)
        } else {
            ::leaf_core::BindResult::Unbound
        }
    }
}
";

/// The source that binds a struct with the given fields.
pub open spec fn bind_source(ident: Seq<char>, fields: Seq<Field>) -> Seq<char> {
    filled(
        BIND_TARGET@,
        no_slots().push(("mangled"@, mangled(ident))).push(
            ("rows"@, join(schema_rows(fields), ", "@)),
        ).push(("ident"@, ident)).push(
            ("binds"@, each_followed(bind_statements(fields), " "@)),
        ),
    )
}

/// Pieces of the template, where they stand in it.
#[verifier::spinoff_prover]
#[verifier::rlimit(60)]
proof fn bind_target_pieces()
    ensures
        BIND_TARGET@.len() == 826,
        BIND_TARGET@.subrange(557, 817) == "\n        let mut __out = <"@ + seq!['#'] + "ident"@ + (" as ::core::default::Default>::default();\n        let mut __any = false;\n        "@ + seq!['#'] + "binds"@ + "\n        if __any {\n            ::leaf_core::BindResult::Bound(__out)\n        } else {\n            ::leaf_core::BindResult::Unbound\n        }"@),
        !is_name_char(BIND_TARGET@[557]),
        !is_name_char(BIND_TARGET@[817]),
        BIND_TARGET@.subrange(39, 102) == " __LEAF_BIND_FIELDS_"@ + seq!['#'] + "mangled"@ + (": &[::leaf_core::Field] = &["@ + seq!['#'] + "rows"@ + "];"@),
        !is_name_char(BIND_TARGET@[39]),
        !is_name_char(BIND_TARGET@[102]),
        BIND_TARGET@.subrange(278, 319) == "\n    fields: __LEAF_BIND_FIELDS_"@ + seq!['#'] + "mangled"@ + ","@,
        !is_name_char(BIND_TARGET@[278]),
        !is_name_char(BIND_TARGET@[319]),
        BIND_TARGET@.subrange(322, 447) == "\nimpl ::leaf_core::BindTarget for "@ + seq!['#'] + "ident"@ + (" {\n    const SCHEMA: &'static ::leaf_core::NodeSchema = &__LEAF_BIND_SCHEMA_"@ + seq!['#'] + "mangled"@ + ";"@),
        !is_name_char(BIND_TARGET@[322]),
        !is_name_char(BIND_TARGET@[447]),
{
    reveal_strlit(
        "#[allow(non_upper_case_globals)]
static __LEAF_BIND_FIELDS_#mangled: &[::leaf_core::Field] = &[#rows];
#[allow(non_upper_case_globals)]
static __LEAF_BIND_SCHEMA_#mangled: ::leaf_core::NodeSchema = ::leaf_core::NodeSchema::Object {
    method: ::leaf_core::BindMethod::JavaBean,
    fields: __LEAF_BIND_FIELDS_#mangled,
};
impl ::leaf_core::BindTarget for #ident {
    const SCHEMA: &'static ::leaf_core::NodeSchema = &__LEAF_BIND_SCHEMA_#mangled;
    fn bind(
        __cursor: &mut ::leaf_core::BindCursor<'_, '_>,
    ) -> ::leaf_core::BindResult<Self> {
        let mut __out = <#ident as ::core::default::Default>::default();
        let mut __any = false;
        #binds
        if __any {
            ::leaf_core::BindResult::Bound(__out)
        } else {
            ::leaf_core::BindResult::Unbound
        }
    }
}
",
    );
    reveal_strlit("\n        if __any {\n            ::leaf_core::BindResult::Bound(__out)\n        } else {\n            ::leaf_core::BindResult::Unbound\n        }");
    reveal_strlit("\n        let mut __out = <");
    reveal_strlit("\n    fields: __LEAF_BIND_FIELDS_");
    reveal_strlit("\nimpl ::leaf_core::BindTarget for ");
    reveal_strlit(" __LEAF_BIND_FIELDS_");
    reveal_strlit(" as ::core::default::Default>::default();\n        let mut __any = false;\n        ");
    reveal_strlit(" {\n    const SCHEMA: &'static ::leaf_core::NodeSchema = &__LEAF_BIND_SCHEMA_");
    reveal_strlit(",");
    reveal_strlit(": &[::leaf_core::Field] = &[");
    reveal_strlit(";");
    reveal_strlit("];");
    reveal_strlit("binds");
    reveal_strlit("ident");
    reveal_strlit("mangled");
    reveal_strlit("rows");
    assert(BIND_TARGET@.subrange(557, 817) =~= "\n        let mut __out = <"@ + seq!['#'] + "ident"@ + (" as ::core::default::Default>::default();\n        let mut __any = false;\n        "@ + seq!['#'] + "binds"@ + "\n        if __any {\n            ::leaf_core::BindResult::Bound(__out)\n        } else {\n            ::leaf_core::BindResult::Unbound\n        }"@));
    assert(BIND_TARGET@.subrange(39, 102) =~= " __LEAF_BIND_FIELDS_"@ + seq!['#'] + "mangled"@ + (": &[::leaf_core::Field] = &["@ + seq!['#'] + "rows"@ + "];"@));
    assert(BIND_TARGET@.subrange(278, 319) =~= "\n    fields: __LEAF_BIND_FIELDS_"@ + seq!['#'] + "mangled"@ + ","@);
    assert(BIND_TARGET@.subrange(322, 447) =~= "\nimpl ::leaf_core::BindTarget for "@ + seq!['#'] + "ident"@ + (" {\n    const SCHEMA: &'static ::leaf_core::NodeSchema = &__LEAF_BIND_SCHEMA_"@ + seq!['#'] + "mangled"@ + ";"@));
}

/// What the slots of the template hold.
proof fn bind_target_slots_are_found(ident: Seq<char>, fields: Seq<Field>)
    ensures
        ({
            let slots = no_slots().push(("mangled"@, mangled(ident))).push(
                ("rows"@, join(schema_rows(fields), ", "@)),
            ).push(("ident"@, ident)).push(
                ("binds"@, each_followed(bind_statements(fields), " "@)),
            );
            &&& slot_text(slots, "ident"@) == Some(ident)
            &&& slot_text(slots, "binds"@) == Some(each_followed(bind_statements(fields), " "@))
            &&& slot_text(slots, "mangled"@) == Some(mangled(ident))
            &&& slot_text(slots, "rows"@) == Some(join(schema_rows(fields), ", "@))
        }),
{
    reveal_strlit("mangled");
    reveal_strlit("rows");
    reveal_strlit("ident");
    reveal_strlit("binds");
    let slots = no_slots().push(("mangled"@, mangled(ident))).push(
                ("rows"@, join(schema_rows(fields), ", "@)),
            ).push(("ident"@, ident)).push(
                ("binds"@, each_followed(bind_statements(fields), " "@)),
            );
    assert("mangled"@.len() != "ident"@.len());
    assert("rows"@.len() != "ident"@.len());
    slot_at(slots, 2);
    assert("mangled"@.len() != "binds"@.len());
    assert("rows"@.len() != "binds"@.len());
    assert("ident"@[0] != "binds"@[0]);
    slot_at(slots, 3);
    slot_at(slots, 0);
    assert("mangled"@.len() != "rows"@.len());
    slot_at(slots, 1);
}

/// A struct is bound field by field, from its default on; it is bound where one of its fields
/// is, and unbound otherwise.
#[verifier::spinoff_prover]
#[verifier::rlimit(60)]
pub proof fn struct_is_bound_where_a_field_is(ident: Seq<char>, fields: Seq<Field>)
    ensures
        stands_in(
            "\n        let mut __out = <"@ + ident + " as ::core::default::Default>::default();\n        let mut __any = false;\n        "@ + each_followed(bind_statements(fields), " "@) + "\n        if __any {\n            ::leaf_core::BindResult::Bound(__out)\n        } else {\n            ::leaf_core::BindResult::Unbound\n        }"@,
            bind_source(ident, fields),
        ),
        stands_in(
            " __LEAF_BIND_FIELDS_"@ + mangled(ident) + ": &[::leaf_core::Field] = &["@ + join(schema_rows(fields), ", "@) + "];"@,
            bind_source(ident, fields),
        ),
        stands_in(
            "\n    fields: __LEAF_BIND_FIELDS_"@ + mangled(ident) + ","@,
            bind_source(ident, fields),
        ),
        stands_in(
            "\nimpl ::leaf_core::BindTarget for "@ + ident + " {\n    const SCHEMA: &'static ::leaf_core::NodeSchema = &__LEAF_BIND_SCHEMA_"@ + mangled(ident) + ";"@,
            bind_source(ident, fields),
        ),
{
    bind_target_pieces();
    bind_target_slots_are_found(ident, fields);
    let t = BIND_TARGET@;
    let slots = no_slots().push(("mangled"@, mangled(ident))).push(
                ("rows"@, join(schema_rows(fields), ", "@)),
            ).push(("ident"@, ident)).push(
                ("binds"@, each_followed(bind_statements(fields), " "@)),
            );
    assert(stands_in("\n        let mut __out = <"@ + ident + " as ::core::default::Default>::default();\n        let mut __any = false;\n        "@ + each_followed(bind_statements(fields), " "@) + "\n        if __any {\n            ::leaf_core::BindResult::Bound(__out)\n        } else {\n            ::leaf_core::BindResult::Unbound\n        }"@,bind_source(ident, fields))) by {
        reveal_strlit("binds");
        reveal_strlit("ident");
        reveal_strlit("\n        if __any {\n            ::leaf_core::BindResult::Bound(__out)\n        } else {\n            ::leaf_core::BindResult::Unbound\n        }");
        reveal_strlit("\n        let mut __out = <");
        reveal_strlit(" as ::core::default::Default>::default();\n        let mut __any = false;\n        ");
        let p2 = "\n        if __any {\n            ::leaf_core::BindResult::Bound(__out)\n        } else {\n            ::leaf_core::BindResult::Unbound\n        }"@;
        let p1 = " as ::core::default::Default>::default();\n        let mut __any = false;\n        "@ + seq!['#'] + "binds"@ + p2;
        let p0 = "\n        let mut __out = <"@ + seq!['#'] + "ident"@ + p1;
        filled_plain(p2, slots);
        filled_step(" as ::core::default::Default>::default();\n        let mut __any = false;\n        "@, "binds"@, p2, slots);
        filled_step("\n        let mut __out = <"@, "ident"@, p1, slots);
        filled_part(t, 557, 817, slots);
        assert(("\n        let mut __out = <"@ + ident + (" as ::core::default::Default>::default();\n        let mut __any = false;\n        "@ + each_followed(bind_statements(fields), " "@) + "\n        if __any {\n            ::leaf_core::BindResult::Bound(__out)\n        } else {\n            ::leaf_core::BindResult::Unbound\n        }"@)) =~= "\n        let mut __out = <"@ + ident + " as ::core::default::Default>::default();\n        let mut __any = false;\n        "@ + each_followed(bind_statements(fields), " "@) + "\n        if __any {\n            ::leaf_core::BindResult::Bound(__out)\n        } else {\n            ::leaf_core::BindResult::Unbound\n        }"@);
    }
    assert(stands_in(" __LEAF_BIND_FIELDS_"@ + mangled(ident) + ": &[::leaf_core::Field] = &["@ + join(schema_rows(fields), ", "@) + "];"@,bind_source(ident, fields))) by {
        reveal_strlit("mangled");
        reveal_strlit("rows");
        reveal_strlit(" __LEAF_BIND_FIELDS_");
        reveal_strlit(": &[::leaf_core::Field] = &[");
        reveal_strlit("];");
        let p2 = "];"@;
        let p1 = ": &[::leaf_core::Field] = &["@ + seq!['#'] + "rows"@ + p2;
        let p0 = " __LEAF_BIND_FIELDS_"@ + seq!['#'] + "mangled"@ + p1;
        filled_plain(p2, slots);
        filled_step(": &[::leaf_core::Field] = &["@, "rows"@, p2, slots);
        filled_step(" __LEAF_BIND_FIELDS_"@, "mangled"@, p1, slots);
        filled_part(t, 39, 102, slots);
        assert((" __LEAF_BIND_FIELDS_"@ + mangled(ident) + (": &[::leaf_core::Field] = &["@ + join(schema_rows(fields), ", "@) + "];"@)) =~= " __LEAF_BIND_FIELDS_"@ + mangled(ident) + ": &[::leaf_core::Field] = &["@ + join(schema_rows(fields), ", "@) + "];"@);
    }
    assert(stands_in("\n    fields: __LEAF_BIND_FIELDS_"@ + mangled(ident) + ","@,bind_source(ident, fields))) by {
        reveal_strlit("mangled");
        reveal_strlit("\n    fields: __LEAF_BIND_FIELDS_");
        reveal_strlit(",");
        let p1 = ","@;
        let p0 = "\n    fields: __LEAF_BIND_FIELDS_"@ + seq!['#'] + "mangled"@ + p1;
        filled_plain(p1, slots);
        filled_step("\n    fields: __LEAF_BIND_FIELDS_"@, "mangled"@, p1, slots);
        filled_part(t, 278, 319, slots);
        assert(("\n    fields: __LEAF_BIND_FIELDS_"@ + mangled(ident) + ","@) =~= "\n    fields: __LEAF_BIND_FIELDS_"@ + mangled(ident) + ","@);
    }
    assert(stands_in("\nimpl ::leaf_core::BindTarget for "@ + ident + " {\n    const SCHEMA: &'static ::leaf_core::NodeSchema = &__LEAF_BIND_SCHEMA_"@ + mangled(ident) + ";"@,bind_source(ident, fields))) by {
        reveal_strlit("ident");
        reveal_strlit("mangled");
        reveal_strlit("\nimpl ::leaf_core::BindTarget for ");
        reveal_strlit(" {\n    const SCHEMA: &'static ::leaf_core::NodeSchema = &__LEAF_BIND_SCHEMA_");
        reveal_strlit(";");
        let p2 = ";"@;
        let p1 = " {\n    const SCHEMA: &'static ::leaf_core::NodeSchema = &__LEAF_BIND_SCHEMA_"@ + seq!['#'] + "mangled"@ + p2;
        let p0 = "\nimpl ::leaf_core::BindTarget for "@ + seq!['#'] + "ident"@ + p1;
        filled_plain(p2, slots);
        filled_step(" {\n    const SCHEMA: &'static ::leaf_core::NodeSchema = &__LEAF_BIND_SCHEMA_"@, "mangled"@, p2, slots);
        filled_step("\nimpl ::leaf_core::BindTarget for "@, "ident"@, p1, slots);
        filled_part(t, 322, 447, slots);
        assert(("\nimpl ::leaf_core::BindTarget for "@ + ident + (" {\n    const SCHEMA: &'static ::leaf_core::NodeSchema = &__LEAF_BIND_SCHEMA_"@ + mangled(ident) + ";"@)) =~= "\nimpl ::leaf_core::BindTarget for "@ + ident + " {\n    const SCHEMA: &'static ::leaf_core::NodeSchema = &__LEAF_BIND_SCHEMA_"@ + mangled(ident) + ";"@);
    }
}

/// The fields of what can be bound, or what stands in the way.
pub open spec fn bindable(item: DeriveItem) -> Result<Seq<Field>, Seq<char>> {
    if item.generic {
        Err(
            "`"@ + item.ident@
                + "` is a generic #[derive(BindTarget)]: a generic config target has no single concrete bind schema. Bind a concrete instantiation."@,
        )
    } else {
        named_fields(item)
    }
}

/// The fields of what can be bound.
fn bindable_fields(item: &DeriveItem) -> (res: Result<&Vec<Field>, EmitError>)
    ensures
        match res {
            Ok(list) => bindable(*item) == Ok::<Seq<Field>, Seq<char>>(list@),
            Err(e) => bindable(*item) == Err::<Seq<Field>, Seq<char>>(e.message@),
        },
{
    if item.generic {
        return error(
            "`".to_string().concat(item.ident.as_str()).concat(
                "` is a generic #[derive(BindTarget)]: a generic config target has no single concrete bind schema. Bind a concrete instantiation.",
            ),
        );
    }
    struct_fields(item)
}

/// Prints what binds a struct.
fn bind_text(ident: &str, fields: &Vec<Field>, texts: &FieldTexts) -> (res: String)
    requires
        texts.rows.deep_view() == schema_rows(fields@),
        texts.binds.deep_view() == bind_statements(fields@),
    ensures
        res@ == bind_source(ident@, fields@),
{
    let slots = Slots::new().with("mangled", mangle(ident).as_str()).with(
        "rows",
        join_texts(texts.rows.as_slice(), ", ").as_str(),
    ).with("ident", ident).with("binds", follow_each(texts.binds.as_slice(), " ").as_str());
    slots.fill(BIND_TARGET)
}

/// Prints what binds a struct.
pub fn emit_bind_target(item: &DeriveItem) -> (res: Result<String, EmitError>)
    ensures
        told(res) == match bindable(*item) {
            Ok(fields) => Ok(bind_source(item.ident@, fields)),
            Err(message) => Err(message),
        },
{
    match bindable_fields(item) {
        Ok(fields) => Ok(bind_text(item.ident.as_str(), fields, &field_texts(fields))),
        Err(e) => Err(e),
    }
}

/// What the attribute of configuration properties says.
#[derive(Clone, Debug, Default, PartialEq, Eq)]
pub struct ConfigPropertiesArgs {
    /// What the keys begin with.
    pub prefix: String,
    /// Whether what is bound is validated.
    pub validate: bool,
}

impl View for ConfigPropertiesArgs {
    type V = (Seq<char>, bool);

    /// The prefix, and whether what is bound is validated.
    open spec fn view(&self) -> (Seq<char>, bool) {
        (self.prefix@, self.validate)
    }
}

/// What the attribute of configuration properties has said so far.
pub struct ConfigSettings {
    /// The prefix, where it has been given.
    pub prefix: Option<String>,
    /// Whether what is bound is validated.
    pub validate: bool,
}

impl View for ConfigSettings {
    type V = (Option<Seq<char>>, bool);

    open spec fn view(&self) -> (Option<Seq<char>>, bool) {
        (self.prefix.deep_view(), self.validate)
    }
}

/// The message for an argument that is not known.
pub open spec fn unknown_config(key: Seq<char>) -> Seq<char> {
    "unknown #[config_properties] argument `"@ + key + "` (expected `prefix` / `validate`)"@
}

/// Tells of an argument that is not known.
fn unknown_config_error(key: &str) -> (res: Result<ConfigSettings, EmitError>)
    ensures
        res matches Err(e) && e.message@ == unknown_config(key@),
{
    error(
        "unknown #[config_properties] argument `".to_string().concat(key).concat(
            "` (expected `prefix` / `validate`)",
        ),
    )
}

/// What is said after one more item.
pub open spec fn after_config(s: (Option<Seq<char>>, bool), item: Item) -> Result<
    (Option<Seq<char>>, bool),
    Seq<char>,
> {
    match item {
        Item::NameValue(key, value) => if key_text(key) == "prefix"@ {
            match value {
                Given::Str(prefix) => Ok((Some(prefix), s.1)),
                _ => Err("`prefix` must be a string literal"@),
            }
        } else {
            Err(unknown_config(key_text(key)))
        },
        Item::Path(key) => if key_text(key) == "validate"@ {
            Ok((s.0, true))
        } else {
            Err(unknown_config(key_text(key)))
        },
        Item::List(_, _) => Err(
            "#[config_properties] arguments are `prefix = \"...\"` and the bare `validate` flag"@,
        ),
    }
}

impl MetaSettings for ConfigSettings {
    open spec fn after(settings: (Option<Seq<char>>, bool), item: Item) -> Result<
        (Option<Seq<char>>, bool),
        Seq<char>,
    > {
        after_config(settings, item)
    }

    fn apply(self, meta: &MetaArg) -> (res: Result<ConfigSettings, EmitError>) {
        match meta {
            MetaArg::NameValue(key, value) => {
                let key = key_or_empty(key);
                if !str_eq(key.as_str(), "prefix") {
                    return unknown_config_error(key.as_str());
                }
                match value {
                    MetaValue::Str(prefix) => Ok(
                        ConfigSettings { prefix: Some(prefix.clone()), validate: self.validate },
                    ),
                    _ => error("`prefix` must be a string literal".to_string()),
                }
            },
            MetaArg::Path(key) => {
                let key = key_or_empty(key);
                if !str_eq(key.as_str(), "validate") {
                    return unknown_config_error(key.as_str());
                }
                Ok(ConfigSettings { prefix: self.prefix, validate: true })
            },
            MetaArg::List(_, _) => error(
                "#[config_properties] arguments are `prefix = \"...\"` and the bare `validate` flag".to_string(),
            ),
        }
    }
}

/// The prefix is the one given last, and `validate` asks for validation; nothing else is taken, and
/// neither changes the other.
pub proof fn config_keys_set_their_own(
    s: (Option<Seq<char>>, bool),
    prefix: Seq<char>,
    value: Given,
    key: Option<Seq<char>>,
    items: Seq<Item>,
)
    ensures
        after_config(s, Item::NameValue(Some("prefix"@), Given::Str(prefix))) == Ok::<
            (Option<Seq<char>>, bool),
            Seq<char>,
        >((Some(prefix), s.1)),
        after_config(s, Item::Path(Some("validate"@))) == Ok::<
            (Option<Seq<char>>, bool),
            Seq<char>,
        >((s.0, true)),
        key matches Some(ident) && ident != "prefix"@ ==> after_config(
            s,
            Item::NameValue(key, value),
        ) is Err,
        key matches Some(ident) && ident != "validate"@ ==> after_config(s, Item::Path(key)) is Err,
        settled_metas::<ConfigSettings>((None, false), items) matches Ok((Some(given), validate))
            ==> config_settings(items) == Ok::<(Seq<char>, bool), Seq<char>>((given, validate)),
{
}

/// What the arguments of configuration properties give. The prefix has to be there.
pub open spec fn config_settings(items: Seq<Item>) -> Result<(Seq<char>, bool), Seq<char>> {
    match settled_metas::<ConfigSettings>((None, false), items) {
        Ok((Some(prefix), validate)) => Ok((prefix, validate)),
        Ok((None, _)) => Err("#[config_properties] requires a `prefix = \"...\"` argument"@),
        Err(message) => Err(message),
    }
}

/// What the arguments of configuration properties give.
pub fn config_args_of(metas: &[MetaArg]) -> (res: Result<ConfigPropertiesArgs, EmitError>)
    ensures
        told(res) == config_settings(metas.deep_view()),
{
    match settle_metas(ConfigSettings { prefix: None, validate: false }, metas) {
        Ok(settings) => match settings.prefix {
            Some(prefix) => Ok(ConfigPropertiesArgs { prefix, validate: settings.validate }),
            None => error(
                "#[config_properties] requires a `prefix = \"...\"` argument".to_string(),
            ),
        },
        Err(e) => Err(e),
    }
}

/// Reads the arguments of configuration properties.
pub fn parse_config_args(attr: &str) -> (res: Result<ConfigPropertiesArgs, EmitError>)
    ensures
        told(res) == match items_in(attr@) {
            Ok(items) => config_settings(items),
            Err(message) => Err("malformed #[config_properties] arguments: "@ + message),
        },
        attr@.len() == 0 ==> told(res) == Err::<(Seq<char>, bool), Seq<char>>(
            "#[config_properties] requires a `prefix = \"...\"` argument"@,
        ),
{
    match parse_metas(attr) {
        Ok(metas) => config_args_of(metas.as_slice()),
        Err(message) => error(
            "malformed #[config_properties] arguments: ".to_string().concat(message.as_str()),
        ),
    }
}

/// What publishes a bound value that has been validated.
pub const VALIDATED: &'static str =
    "if let ::core::option::Option::Some(__verr) = ::leaf_validation::validate_config(#prefix, &__bound) {
                return ::core::result::Result::Err(::std::vec![__verr]);
            }
            ::core::result::Result::Ok(::leaf_core::Published::shared_value(__bound))";

/// What publishes a bound value.
pub open spec fn publish_source(prefix: Seq<char>, validate: bool) -> Seq<char> {
    if validate {
        filled(VALIDATED@, no_slots().push(("prefix"@, literal_source(prefix))))
    } else {
        "::core::result::Result::Ok(::leaf_core::Published::shared_value(__bound))"@
    }
}

/// Pieces of the template, where they stand in it.
#[verifier::spinoff_prover]
#[verifier::rlimit(60)]
proof fn validated_pieces()
    ensures
        VALIDATED@.len() == 274,
        VALIDATED@.subrange(46, 274) == "::leaf_validation::validate_config("@ + seq!['#'] + "prefix"@ + ", &__bound) {\n                return ::core::result::Result::Err(::std::vec![__verr]);\n            }\n            ::core::result::Result::Ok(::leaf_core::Published::shared_value(__bound))"@,
        !is_name_char(VALIDATED@[46]),
{
    reveal_strlit(
        "if let ::core::option::Option::Some(__verr) = ::leaf_validation::validate_config(#prefix, &__bound) {
                return ::core::result::Result::Err(::std::vec![__verr]);
            }
            ::core::result::Result::Ok(::leaf_core::Published::shared_value(__bound))",
    );
    reveal_strlit(", &__bound) {\n                return ::core::result::Result::Err(::std::vec![__verr]);\n            }\n            ::core::result::Result::Ok(::leaf_core::Published::shared_value(__bound))");
    reveal_strlit("::leaf_validation::validate_config(");
    reveal_strlit("prefix");
    assert(VALIDATED@.subrange(46, 274) =~= "::leaf_validation::validate_config("@ + seq!['#'] + "prefix"@ + ", &__bound) {\n                return ::core::result::Result::Err(::std::vec![__verr]);\n            }\n            ::core::result::Result::Ok(::leaf_core::Published::shared_value(__bound))"@);
}

/// What the slots of the template hold.
proof fn validated_slots_are_found(prefix: Seq<char>)
    ensures
        ({
            let slots = no_slots().push(("prefix"@, literal_source(prefix)));
            &&& slot_text(slots, "prefix"@) == Some(literal_source(prefix))
        }),
{
    reveal_strlit("prefix");
    let slots = no_slots().push(("prefix"@, literal_source(prefix)));
    slot_at(slots, 0);
}

/// What is to be validated is published only where the validation has found nothing.
#[verifier::spinoff_prover]
#[verifier::rlimit(60)]
pub proof fn validated_value_is_published(prefix: Seq<char>)
    ensures
        stands_in(
            "::leaf_validation::validate_config("@ + literal_source(prefix) + ", &__bound) {\n                return ::core::result::Result::Err(::std::vec![__verr]);\n            }\n            ::core::result::Result::Ok(::leaf_core::Published::shared_value(__bound))"@,
            publish_source(prefix, true),
        ),
        publish_source(prefix, false)
            == "::core::result::Result::Ok(::leaf_core::Published::shared_value(__bound))"@,
{
    validated_pieces();
    validated_slots_are_found(prefix);
    let t = VALIDATED@;
    let slots = no_slots().push(("prefix"@, literal_source(prefix)));
    assert(stands_in("::leaf_validation::validate_config("@ + literal_source(prefix) + ", &__bound) {\n                return ::core::result::Result::Err(::std::vec![__verr]);\n            }\n            ::core::result::Result::Ok(::leaf_core::Published::shared_value(__bound))"@,publish_source(prefix, true))) by {
        reveal_strlit("prefix");
        reveal_strlit(", &__bound) {\n                return ::core::result::Result::Err(::std::vec![__verr]);\n            }\n            ::core::result::Result::Ok(::leaf_core::Published::shared_value(__bound))");
        reveal_strlit("::leaf_validation::validate_config(");
        let p1 = ", &__bound) {\n                return ::core::result::Result::Err(::std::vec![__verr]);\n            }\n            ::core::result::Result::Ok(::leaf_core::Published::shared_value(__bound))"@;
        let p0 = "::leaf_validation::validate_config("@ + seq!['#'] + "prefix"@ + p1;
        filled_plain(p1, slots);
        filled_step("::leaf_validation::validate_config("@, "prefix"@, p1, slots);
        filled_part(t, 46, 274, slots);
        assert(("::leaf_validation::validate_config("@ + literal_source(prefix) + ", &__bound) {\n                return ::core::result::Result::Err(::std::vec![__verr]);\n            }\n            ::core::result::Result::Ok(::leaf_core::Published::shared_value(__bound))"@) =~= "::leaf_validation::validate_config("@ + literal_source(prefix) + ", &__bound) {\n                return ::core::result::Result::Err(::std::vec![__verr]);\n            }\n            ::core::result::Result::Ok(::leaf_core::Published::shared_value(__bound))"@);
    }
}

/// The function that binds configuration properties at startup.
pub const BIND_THUNK: &'static str = "impl ::leaf_core::Bean for #ident {}
#[allow(non_upper_case_globals)]
pub const __leaf_config_bind_#mangled: ::leaf_core::ConfigBindThunk = |__env: &::leaf_core::Env, __lever: ::leaf_core::StartupValidation| -> ::leaf_core::ConfigBindOutcome {
    let _ = __lever;
    let __cps = ::leaf_core::StackCps::new(__env.clone());
    let __conv = ::leaf_core::ConversionService::new();
    let __handler = ::leaf_core::NoopBindHandler;
    let __binder = ::leaf_core::Binder::new(&__cps, &__conv, &__handler);
    let __prefix = match ::leaf_core::CanonicalName::parse(#prefix) {
        ::core::result::Result::Ok(__p) => __p,
        ::core::result::Result::Err(__e) => {
            return ::core::result::Result::Err(::std::vec![
                ::leaf_core::LeafError::new(::leaf_core::ErrorKind::BindError).caused_by(
                    ::leaf_core::Cause::plain(
                        \"binding @ConfigurationProperties\",
                        ::std::format!(\"invalid prefix `{}`: {}\", #prefix, __e),
                    )
                )
            ]);
        }
    };
    match __binder.bind::<#ident>(&__prefix) {
        ::leaf_core::BindResult::Bound(__bound) => {
            #publish
        }
        ::leaf_core::BindResult::Unbound => {
            let __bound = <#ident as ::core::default::Default>::default();
            #publish
        }
        ::leaf_core::BindResult::Failed(__e) => {
            ::core::result::Result::Err(::std::vec![__e])
        }
    }
};
";

/// The function that binds configuration properties at startup.
pub open spec fn thunk_source(ident: Seq<char>, prefix: Seq<char>, validate: bool) -> Seq<char> {
    filled(
        BIND_THUNK@,
        no_slots().push(("ident"@, ident)).push(("mangled"@, mangled(ident))).push(
            ("prefix"@, literal_source(prefix)),
        ).push(("publish"@, publish_source(prefix, validate))),
    )
}

/// Pieces of the template, where they stand in it.
#[verifier::spinoff_prover]
#[verifier::rlimit(60)]
proof fn bind_thunk_pieces()
    ensures
        BIND_THUNK@.len() == 1489,
        BIND_THUNK@.subrange(79, 137) == " __leaf_config_bind_"@ + seq!['#'] + "mangled"@ + ": ::leaf_core::ConfigBindThunk"@,
        !is_name_char(BIND_THUNK@[79]),
        !is_name_char(BIND_THUNK@[137]),
        BIND_THUNK@.subrange(529, 573) == "::leaf_core::CanonicalName::parse("@ + seq!['#'] + "prefix"@ + ") {"@,
        !is_name_char(BIND_THUNK@[529]),
        !is_name_char(BIND_THUNK@[573]),
        BIND_THUNK@.subrange(1078, 1255) == "\n    match __binder.bind::<"@ + seq!['#'] + "ident"@ + (">(&__prefix) {\n        ::leaf_core::BindResult::Bound(__bound) => {\n            "@ + seq!['#'] + "publish"@ + "\n        }\n        ::leaf_core::BindResult::Unbound => {"@),
        !is_name_char(BIND_THUNK@[1078]),
        !is_name_char(BIND_THUNK@[1255]),
        BIND_THUNK@.subrange(1253, 1361) == " {\n            let __bound = <"@ + seq!['#'] + "ident"@ + (" as ::core::default::Default>::default();\n            "@ + seq!['#'] + "publish"@ + "\n        }"@),
        !is_name_char(BIND_THUNK@[1253]),
        !is_name_char(BIND_THUNK@[1361]),
        BIND_THUNK@.subrange(1370, 1479) == "::leaf_core::BindResult::Failed(__e) => {\n            ::core::result::Result::Err(::std::vec![__e])\n        }"@,
        !is_name_char(BIND_THUNK@[1370]),
        !is_name_char(BIND_THUNK@[1479]),
{
    reveal_strlit(
        "impl ::leaf_core::Bean for #ident {}
#[allow(non_upper_case_globals)]
pub const __leaf_config_bind_#mangled: ::leaf_core::ConfigBindThunk = |__env: &::leaf_core::Env, __lever: ::leaf_core::StartupValidation| -> ::leaf_core::ConfigBindOutcome {
    let _ = __lever;
    let __cps = ::leaf_core::StackCps::new(__env.clone());
    let __conv = ::leaf_core::ConversionService::new();
    let __handler = ::leaf_core::NoopBindHandler;
    let __binder = ::leaf_core::Binder::new(&__cps, &__conv, &__handler);
    let __prefix = match ::leaf_core::CanonicalName::parse(#prefix) {
        ::core::result::Result::Ok(__p) => __p,
        ::core::result::Result::Err(__e) => {
            return ::core::result::Result::Err(::std::vec![
                ::leaf_core::LeafError::new(::leaf_core::ErrorKind::BindError).caused_by(
                    ::leaf_core::Cause::plain(
                        \"binding @ConfigurationProperties\",
                        ::std::format!(\"invalid prefix `{}`: {}\", #prefix, __e),
                    )
                )
            ]);
        }
    };
    match __binder.bind::<#ident>(&__prefix) {
        ::leaf_core::BindResult::Bound(__bound) => {
            #publish
        }
        ::leaf_core::BindResult::Unbound => {
            let __bound = <#ident as ::core::default::Default>::default();
            #publish
        }
        ::leaf_core::BindResult::Failed(__e) => {
            ::core::result::Result::Err(::std::vec![__e])
        }
    }
};
",
    );
    reveal_strlit("\n        }");
    reveal_strlit("\n        }\n        ::leaf_core::BindResult::Unbound => {");
    reveal_strlit("\n    match __binder.bind::<");
    reveal_strlit(" __leaf_config_bind_");
    reveal_strlit(" as ::core::default::Default>::default();\n            ");
    reveal_strlit(" {\n            let __bound = <");
    reveal_strlit(") {");
    reveal_strlit(": ::leaf_core::ConfigBindThunk");
    reveal_strlit("::leaf_core::BindResult::Failed(__e) => {\n            ::core::result::Result::Err(::std::vec![__e])\n        }");
    reveal_strlit("::leaf_core::CanonicalName::parse(");
    reveal_strlit(">(&__prefix) {\n        ::leaf_core::BindResult::Bound(__bound) => {\n            ");
    reveal_strlit("ident");
    reveal_strlit("mangled");
    reveal_strlit("prefix");
    reveal_strlit("publish");
    assert(BIND_THUNK@.subrange(79, 137) =~= " __leaf_config_bind_"@ + seq!['#'] + "mangled"@ + ": ::leaf_core::ConfigBindThunk"@);
    assert(BIND_THUNK@.subrange(529, 573) =~= "::leaf_core::CanonicalName::parse("@ + seq!['#'] + "prefix"@ + ") {"@);
    assert(BIND_THUNK@.subrange(1078, 1255) =~= "\n    match __binder.bind::<"@ + seq!['#'] + "ident"@ + (">(&__prefix) {\n        ::leaf_core::BindResult::Bound(__bound) => {\n            "@ + seq!['#'] + "publish"@ + "\n        }\n        ::leaf_core::BindResult::Unbound => {"@));
    assert(BIND_THUNK@.subrange(1253, 1361) =~= " {\n            let __bound = <"@ + seq!['#'] + "ident"@ + (" as ::core::default::Default>::default();\n            "@ + seq!['#'] + "publish"@ + "\n        }"@));
    assert(BIND_THUNK@.subrange(1370, 1479) =~= "::leaf_core::BindResult::Failed(__e) => {\n            ::core::result::Result::Err(::std::vec![__e])\n        }"@);
}

/// What the slots of the template hold.
proof fn bind_thunk_slots_are_found(ident: Seq<char>, prefix: Seq<char>, validate: bool)
    ensures
        ({
            let slots = no_slots().push(("ident"@, ident)).push(("mangled"@, mangled(ident))).push(
                ("prefix"@, literal_source(prefix)),
            ).push(("publish"@, publish_source(prefix, validate)));
            &&& slot_text(slots, "mangled"@) == Some(mangled(ident))
            &&& slot_text(slots, "prefix"@) == Some(literal_source(prefix))
            &&& slot_text(slots, "ident"@) == Some(ident)
            &&& slot_text(slots, "publish"@) == Some(publish_source(prefix, validate))
        }),
{
    reveal_strlit("ident");
    reveal_strlit("mangled");
    reveal_strlit("prefix");
    reveal_strlit("publish");
    let slots = no_slots().push(("ident"@, ident)).push(("mangled"@, mangled(ident))).push(
                ("prefix"@, literal_source(prefix)),
            ).push(("publish"@, publish_source(prefix, validate)));
    assert("ident"@.len() != "mangled"@.len());
    slot_at(slots, 1);
    assert("ident"@.len() != "prefix"@.len());
    assert("mangled"@.len() != "prefix"@.len());
    slot_at(slots, 2);
    slot_at(slots, 0);
    assert("ident"@.len() != "publish"@.len());
    assert("mangled"@[0] != "publish"@[0]);
    assert("prefix"@.len() != "publish"@.len());
    slot_at(slots, 3);
}

/// Configuration properties are bound under their prefix: what was bound is published, the
/// default where nothing was, and a failure is handed on.
#[verifier::spinoff_prover]
#[verifier::rlimit(60)]
pub proof fn bound_properties_are_published(ident: Seq<char>, prefix: Seq<char>, validate: bool)
    ensures
        stands_in(
            " __leaf_config_bind_"@ + mangled(ident) + ": ::leaf_core::ConfigBindThunk"@,
            thunk_source(ident, prefix, validate),
        ),
        stands_in(
            "::leaf_core::CanonicalName::parse("@ + literal_source(prefix) + ") {"@,
            thunk_source(ident, prefix, validate),
        ),
        stands_in(
            "\n    match __binder.bind::<"@ + ident + ">(&__prefix) {\n        ::leaf_core::BindResult::Bound(__bound) => {\n            "@ + publish_source(prefix, validate) + "\n        }\n        ::leaf_core::BindResult::Unbound => {"@,
            thunk_source(ident, prefix, validate),
        ),
        stands_in(
            " {\n            let __bound = <"@ + ident + " as ::core::default::Default>::default();\n            "@ + publish_source(prefix, validate) + "\n        }"@,
            thunk_source(ident, prefix, validate),
        ),
        stands_in(
            "::leaf_core::BindResult::Failed(__e) => {\n            ::core::result::Result::Err(::std::vec![__e])\n        }"@,
            thunk_source(ident, prefix, validate),
        ),
{
    bind_thunk_pieces();
    bind_thunk_slots_are_found(ident, prefix, validate);
    let t = BIND_THUNK@;
    let slots = no_slots().push(("ident"@, ident)).push(("mangled"@, mangled(ident))).push(
                ("prefix"@, literal_source(prefix)),
            ).push(("publish"@, publish_source(prefix, validate)));
    assert(stands_in(" __leaf_config_bind_"@ + mangled(ident) + ": ::leaf_core::ConfigBindThunk"@,thunk_source(ident, prefix, validate))) by {
        reveal_strlit("mangled");
        reveal_strlit(" __leaf_config_bind_");
        reveal_strlit(": ::leaf_core::ConfigBindThunk");
        let p1 = ": ::leaf_core::ConfigBindThunk"@;
        let p0 = " __leaf_config_bind_"@ + seq!['#'] + "mangled"@ + p1;
        filled_plain(p1, slots);
        filled_step(" __leaf_config_bind_"@, "mangled"@, p1, slots);
        filled_part(t, 79, 137, slots);
        assert((" __leaf_config_bind_"@ + mangled(ident) + ": ::leaf_core::ConfigBindThunk"@) =~= " __leaf_config_bind_"@ + mangled(ident) + ": ::leaf_core::ConfigBindThunk"@);
    }
    assert(stands_in("::leaf_core::CanonicalName::parse("@ + literal_source(prefix) + ") {"@,thunk_source(ident, prefix, validate))) by {
        reveal_strlit("prefix");
        reveal_strlit(") {");
        reveal_strlit("::leaf_core::CanonicalName::parse(");
        let p1 = ") {"@;
        let p0 = "::leaf_core::CanonicalName::parse("@ + seq!['#'] + "prefix"@ + p1;
        filled_plain(p1, slots);
        filled_step("::leaf_core::CanonicalName::parse("@, "prefix"@, p1, slots);
        filled_part(t, 529, 573, slots);
        assert(("::leaf_core::CanonicalName::parse("@ + literal_source(prefix) + ") {"@) =~= "::leaf_core::CanonicalName::parse("@ + literal_source(prefix) + ") {"@);
    }
    assert(stands_in("\n    match __binder.bind::<"@ + ident + ">(&__prefix) {\n        ::leaf_core::BindResult::Bound(__bound) => {\n            "@ + publish_source(prefix, validate) + "\n        }\n        ::leaf_core::BindResult::Unbound => {"@,thunk_source(ident, prefix, validate))) by {
        reveal_strlit("ident");
        reveal_strlit("publish");
        reveal_strlit("\n        }\n        ::leaf_core::BindResult::Unbound => {");
        reveal_strlit("\n    match __binder.bind::<");
        reveal_strlit(">(&__prefix) {\n        ::leaf_core::BindResult::Bound(__bound) => {\n            ");
        let p2 = "\n        }\n        ::leaf_core::BindResult::Unbound => {"@;
        let p1 = ">(&__prefix) {\n        ::leaf_core::BindResult::Bound(__bound) => {\n            "@ + seq!['#'] + "publish"@ + p2;
        let p0 = "\n    match __binder.bind::<"@ + seq!['#'] + "ident"@ + p1;
        filled_plain(p2, slots);
        filled_step(">(&__prefix) {\n        ::leaf_core::BindResult::Bound(__bound) => {\n            "@, "publish"@, p2, slots);
        filled_step("\n    match __binder.bind::<"@, "ident"@, p1, slots);
        filled_part(t, 1078, 1255, slots);
        assert(("\n    match __binder.bind::<"@ + ident + (">(&__prefix) {\n        ::leaf_core::BindResult::Bound(__bound) => {\n            "@ + publish_source(prefix, validate) + "\n        }\n        ::leaf_core::BindResult::Unbound => {"@)) =~= "\n    match __binder.bind::<"@ + ident + ">(&__prefix) {\n        ::leaf_core::BindResult::Bound(__bound) => {\n            "@ + publish_source(prefix, validate) + "\n        }\n        ::leaf_core::BindResult::Unbound => {"@);
    }
    assert(stands_in(" {\n            let __bound = <"@ + ident + " as ::core::default::Default>::default();\n            "@ + publish_source(prefix, validate) + "\n        }"@,thunk_source(ident, prefix, validate))) by {
        reveal_strlit("ident");
        reveal_strlit("publish");
        reveal_strlit("\n        }");
        reveal_strlit(" as ::core::default::Default>::default();\n            ");
        reveal_strlit(" {\n            let __bound = <");
        let p2 = "\n        }"@;
        let p1 = " as ::core::default::Default>::default();\n            "@ + seq!['#'] + "publish"@ + p2;
        let p0 = " {\n            let __bound = <"@ + seq!['#'] + "ident"@ + p1;
        filled_plain(p2, slots);
        filled_step(" as ::core::default::Default>::default();\n            "@, "publish"@, p2, slots);
        filled_step(" {\n            let __bound = <"@, "ident"@, p1, slots);
        filled_part(t, 1253, 1361, slots);
        assert((" {\n            let __bound = <"@ + ident + (" as ::core::default::Default>::default();\n            "@ + publish_source(prefix, validate) + "\n        }"@)) =~= " {\n            let __bound = <"@ + ident + " as ::core::default::Default>::default();\n            "@ + publish_source(prefix, validate) + "\n        }"@);
    }
    assert(stands_in("::leaf_core::BindResult::Failed(__e) => {\n            ::core::result::Result::Err(::std::vec![__e])\n        }"@,thunk_source(ident, prefix, validate))) by {
        reveal_strlit("::leaf_core::BindResult::Failed(__e) => {\n            ::core::result::Result::Err(::std::vec![__e])\n        }");
        let p0 = "::leaf_core::BindResult::Failed(__e) => {\n            ::core::result::Result::Err(::std::vec![__e])\n        }"@;
        filled_plain(p0, slots);
        filled_part(t, 1370, 1479, slots);
        assert("::leaf_core::BindResult::Failed(__e) => {\n            ::core::result::Result::Err(::std::vec![__e])\n        }"@ =~= "::leaf_core::BindResult::Failed(__e) => {\n            ::core::result::Result::Err(::std::vec![__e])\n        }"@);
    }
}

/// Prints the function that binds configuration properties at startup.
fn emit_config_bind_thunk(ident: &str, prefix: &str, validate: bool) -> (res: String)
    ensures
        res@ == thunk_source(ident@, prefix@, validate),
{
    let key = string_literal(prefix);
    let publish = if validate {
        Slots::new().with("prefix", key.as_str()).fill(VALIDATED)
    } else {
        "::core::result::Result::Ok(::leaf_core::Published::shared_value(__bound))".to_string()
    };
    let slots = Slots::new().with("ident", ident).with("mangled", mangle(ident).as_str()).with(
        "prefix",
        key.as_str(),
    ).with("publish", publish.as_str());
    slots.fill(BIND_THUNK)
}

/// The registration of configuration properties as a bean that others take precedence of.
pub const CONFIG_BEAN: &'static str = "#[allow(non_upper_case_globals)]
static __LEAF_CONFIG_BEAN_META_#mangled: ::leaf_core::AnnotationMetadata = ::leaf_core::AnnotationMetadata {
    qualifiers: &[],
    markers: &[],
    depends_on: &[],
    candidate_role: ::leaf_core::CandidateRole::FALLBACK,
    autowire_candidate: true,
};
#[allow(non_camel_case_types)]
struct __LeafConfigProvider_#mangled(::leaf_core::Descriptor);
impl ::leaf_core::Provider for __LeafConfigProvider_#mangled {
    fn descriptor(&self) -> &::leaf_core::Descriptor {
        &self.0
    }
    fn provide<'a>(
        &'a self,
        _cx: &'a ::leaf_core::ResolveCtx<'a>,
    ) -> ::leaf_core::BoxFuture<'a, ::core::result::Result<::leaf_core::Published, ::leaf_core::LeafError>> {
        ::std::boxed::Box::pin(async move {
            ::core::result::Result::Ok(::leaf_core::Published::shared_value(
                <#ident as ::core::default::Default>::default(),
            ))
        })
    }
}
#[allow(non_upper_case_globals)]
pub const __leaf_seed_#mangled: ::leaf_core::ProviderSeed = || {
    ::std::sync::Arc::new(__LeafConfigProvider_#mangled(::leaf_core::Descriptor {
        contract: #contract,
        self_type: const { ::core::any::TypeId::of::<#ident>() },
        provides: &[],
        declared_name: ::core::option::Option::Some(#declared_name),
        aliases: &[],
        scope: ::leaf_core::ScopeDef::SINGLETON,
        role: ::leaf_core::Role::Application,
        meta: &__LEAF_CONFIG_BEAN_META_#mangled,
        parent: ::core::option::Option::None,
        origin: ::leaf_core::Origin::Native {
            crate_name: ::core::option::Option::Some(::core::env!(\"CARGO_PKG_NAME\")),
        },
    }))
};
#[allow(non_upper_case_globals)]
#[::leaf_core::linkme::distributed_slice(::leaf_core::AUTO_CONFIGS)]
#[linkme(crate = ::leaf_core::linkme)]
static __LEAF_CONFIG_DESCRIPTOR_#mangled: ::leaf_core::Descriptor = ::leaf_core::Descriptor {
    contract: #contract,
    self_type: const { ::core::any::TypeId::of::<#ident>() },
    provides: &[],
    declared_name: ::core::option::Option::Some(#declared_name),
    aliases: &[],
    scope: ::leaf_core::ScopeDef::SINGLETON,
    role: ::leaf_core::Role::Application,
    meta: &__LEAF_CONFIG_BEAN_META_#mangled,
    parent: ::core::option::Option::None,
    origin: ::leaf_core::Origin::Native {
        crate_name: ::core::option::Option::Some(::core::env!(\"CARGO_PKG_NAME\")),
    },
};
#[allow(non_upper_case_globals)]
#[::leaf_core::linkme::distributed_slice(::leaf_core::SEED_PAIRINGS)]
#[linkme(crate = ::leaf_core::linkme)]
static __LEAF_CONFIG_SEED_PAIRING_#mangled: ::leaf_core::SeedPairingRow = ::leaf_core::SeedPairingRow::field_default(#contract, __leaf_seed_#mangled);
";

/// The registration of configuration properties as a bean.
pub open spec fn config_bean_source(ident: Seq<char>) -> Seq<char> {
    filled(
        CONFIG_BEAN@,
        no_slots().push(("mangled"@, mangled(ident))).push(("ident"@, ident)).push(
            ("contract"@, contract_here(ident)),
        ).push(("declared_name"@, literal_source(default_name(ident)))),
    )
}

/// Pieces of the template, where they stand in it.
#[verifier::spinoff_prover]
#[verifier::rlimit(60)]
proof fn config_bean_pieces()
    ensures
        CONFIG_BEAN@.len() == 2699,
        CONFIG_BEAN@.subrange(201, 259) == "\n    candidate_role: ::leaf_core::CandidateRole::FALLBACK,"@,
        !is_name_char(CONFIG_BEAN@[201]),
        !is_name_char(CONFIG_BEAN@[259]),
        CONFIG_BEAN@.subrange(1708, 1775) == "[::leaf_core::linkme::distributed_slice(::leaf_core::AUTO_CONFIGS)]"@,
        !is_name_char(CONFIG_BEAN@[1708]),
        !is_name_char(CONFIG_BEAN@[1775]),
        CONFIG_BEAN@.subrange(1821, 1933) == " __LEAF_CONFIG_DESCRIPTOR_"@ + seq!['#'] + "mangled"@ + (": ::leaf_core::Descriptor = ::leaf_core::Descriptor {\n    contract: "@ + seq!['#'] + "contract"@ + ","@),
        !is_name_char(CONFIG_BEAN@[1821]),
        !is_name_char(CONFIG_BEAN@[1933]),
        CONFIG_BEAN@.subrange(1933, 1995) == "\n    self_type: const { ::core::any::TypeId::of::<"@ + seq!['#'] + "ident"@ + ">() },"@,
        !is_name_char(CONFIG_BEAN@[1995]),
        CONFIG_BEAN@.subrange(2014, 2079) == "\n    declared_name: ::core::option::Option::Some("@ + seq!['#'] + "declared_name"@ + "),"@,
        !is_name_char(CONFIG_BEAN@[2014]),
        !is_name_char(CONFIG_BEAN@[2079]),
        CONFIG_BEAN@.subrange(841, 906) == "\n                <"@ + seq!['#'] + "ident"@ + " as ::core::default::Default>::default(),"@,
        !is_name_char(CONFIG_BEAN@[841]),
        !is_name_char(CONFIG_BEAN@[906]),
        CONFIG_BEAN@.subrange(2622, 2698) == "::leaf_core::SeedPairingRow::field_default("@ + seq!['#'] + "contract"@ + (", __leaf_seed_"@ + seq!['#'] + "mangled"@ + ");"@),
        !is_name_char(CONFIG_BEAN@[2622]),
        !is_name_char(CONFIG_BEAN@[2698]),
{
    reveal_strlit(
        "#[allow(non_upper_case_globals)]
static __LEAF_CONFIG_BEAN_META_#mangled: ::leaf_core::AnnotationMetadata = ::leaf_core::AnnotationMetadata {
    qualifiers: &[],
    markers: &[],
    depends_on: &[],
    candidate_role: ::leaf_core::CandidateRole::FALLBACK,
    autowire_candidate: true,
};
#[allow(non_camel_case_types)]
struct __LeafConfigProvider_#mangled(::leaf_core::Descriptor);
impl ::leaf_core::Provider for __LeafConfigProvider_#mangled {
    fn descriptor(&self) -> &::leaf_core::Descriptor {
        &self.0
    }
    fn provide<'a>(
        &'a self,
        _cx: &'a ::leaf_core::ResolveCtx<'a>,
    ) -> ::leaf_core::BoxFuture<'a, ::core::result::Result<::leaf_core::Published, ::leaf_core::LeafError>> {
        ::std::boxed::Box::pin(async move {
            ::core::result::Result::Ok(::leaf_core::Published::shared_value(
                <#ident as ::core::default::Default>::default(),
            ))
        })
    }
}
#[allow(non_upper_case_globals)]
pub const __leaf_seed_#mangled: ::leaf_core::ProviderSeed = || {
    ::std::sync::Arc::new(__LeafConfigProvider_#mangled(::leaf_core::Descriptor {
        contract: #contract,
        self_type: const { ::core::any::TypeId::of::<#ident>() },
        provides: &[],
        declared_name: ::core::option::Option::Some(#declared_name),
        aliases: &[],
        scope: ::leaf_core::ScopeDef::SINGLETON,
        role: ::leaf_core::Role::Application,
        meta: &__LEAF_CONFIG_BEAN_META_#mangled,
        parent: ::core::option::Option::None,
        origin: ::leaf_core::Origin::Native {
            crate_name: ::core::option::Option::Some(::core::env!(\"CARGO_PKG_NAME\")),
        },
    }))
};
#[allow(non_upper_case_globals)]
#[::leaf_core::linkme::distributed_slice(::leaf_core::AUTO_CONFIGS)]
#[linkme(crate = ::leaf_core::linkme)]
static __LEAF_CONFIG_DESCRIPTOR_#mangled: ::leaf_core::Descriptor = ::leaf_core::Descriptor {
    contract: #contract,
    self_type: const { ::core::any::TypeId::of::<#ident>() },
    provides: &[],
    declared_name: ::core::option::Option::Some(#declared_name),
    aliases: &[],
    scope: ::leaf_core::ScopeDef::SINGLETON,
    role: ::leaf_core::Role::Application,
    meta: &__LEAF_CONFIG_BEAN_META_#mangled,
    parent: ::core::option::Option::None,
    origin: ::leaf_core::Origin::Native {
        crate_name: ::core::option::Option::Some(::core::env!(\"CARGO_PKG_NAME\")),
    },
};
#[allow(non_upper_case_globals)]
#[::leaf_core::linkme::distributed_slice(::leaf_core::SEED_PAIRINGS)]
#[linkme(crate = ::leaf_core::linkme)]
static __LEAF_CONFIG_SEED_PAIRING_#mangled: ::leaf_core::SeedPairingRow = ::leaf_core::SeedPairingRow::field_default(#contract, __leaf_seed_#mangled);
",
    );
    reveal_strlit("\n                <");
    reveal_strlit("\n    candidate_role: ::leaf_core::CandidateRole::FALLBACK,");
    reveal_strlit("\n    declared_name: ::core::option::Option::Some(");
    reveal_strlit("\n    self_type: const { ::core::any::TypeId::of::<");
    reveal_strlit(" __LEAF_CONFIG_DESCRIPTOR_");
    reveal_strlit(" as ::core::default::Default>::default(),");
    reveal_strlit("),");
    reveal_strlit(");");
    reveal_strlit(",");
    reveal_strlit(", __leaf_seed_");
    reveal_strlit(": ::leaf_core::Descriptor = ::leaf_core::Descriptor {\n    contract: ");
    reveal_strlit("::leaf_core::SeedPairingRow::field_default(");
    reveal_strlit(">() },");
    reveal_strlit("[::leaf_core::linkme::distributed_slice(::leaf_core::AUTO_CONFIGS)]");
    reveal_strlit("contract");
    reveal_strlit("declared_name");
    reveal_strlit("ident");
    reveal_strlit("mangled");
    assert(CONFIG_BEAN@.subrange(201, 259) =~= "\n    candidate_role: ::leaf_core::CandidateRole::FALLBACK,"@);
    assert(CONFIG_BEAN@.subrange(1708, 1775) =~= "[::leaf_core::linkme::distributed_slice(::leaf_core::AUTO_CONFIGS)]"@);
    assert(CONFIG_BEAN@.subrange(1821, 1933) =~= " __LEAF_CONFIG_DESCRIPTOR_"@ + seq!['#'] + "mangled"@ + (": ::leaf_core::Descriptor = ::leaf_core::Descriptor {\n    contract: "@ + seq!['#'] + "contract"@ + ","@));
    assert(CONFIG_BEAN@.subrange(1933, 1995) =~= "\n    self_type: const { ::core::any::TypeId::of::<"@ + seq!['#'] + "ident"@ + ">() },"@);
    assert(CONFIG_BEAN@.subrange(2014, 2079) =~= "\n    declared_name: ::core::option::Option::Some("@ + seq!['#'] + "declared_name"@ + "),"@);
    assert(CONFIG_BEAN@.subrange(841, 906) =~= "\n                <"@ + seq!['#'] + "ident"@ + " as ::core::default::Default>::default(),"@);
    assert(CONFIG_BEAN@.subrange(2622, 2698) =~= "::leaf_core::SeedPairingRow::field_default("@ + seq!['#'] + "contract"@ + (", __leaf_seed_"@ + seq!['#'] + "mangled"@ + ");"@));
}

/// What the slots of the template hold.
proof fn config_bean_slots_are_found(ident: Seq<char>)
    ensures
        ({
            let slots = no_slots().push(("mangled"@, mangled(ident))).push(("ident"@, ident)).push(
                ("contract"@, contract_here(ident)),
            ).push(("declared_name"@, literal_source(default_name(ident))));
            &&& slot_text(slots, "mangled"@) == Some(mangled(ident))
            &&& slot_text(slots, "contract"@) == Some(contract_here(ident))
            &&& slot_text(slots, "ident"@) == Some(ident)
            &&& slot_text(slots, "declared_name"@) == Some(literal_source(default_name(ident)))
        }),
{
    reveal_strlit("mangled");
    reveal_strlit("ident");
    reveal_strlit("contract");
    reveal_strlit("declared_name");
    let slots = no_slots().push(("mangled"@, mangled(ident))).push(("ident"@, ident)).push(
                ("contract"@, contract_here(ident)),
            ).push(("declared_name"@, literal_source(default_name(ident))));
    slot_at(slots, 0);
    assert("mangled"@.len() != "contract"@.len());
    assert("ident"@.len() != "contract"@.len());
    slot_at(slots, 2);
    assert("mangled"@.len() != "ident"@.len());
    slot_at(slots, 1);
    assert("mangled"@.len() != "declared_name"@.len());
    assert("ident"@.len() != "declared_name"@.len());
    assert("contract"@.len() != "declared_name"@.len());
    slot_at(slots, 3);
}

/// Configuration properties are a bean of their own type, under their default name, that any
/// other one goes before.
#[verifier::spinoff_prover]
#[verifier::rlimit(60)]
pub proof fn config_bean_is_a_fallback(ident: Seq<char>)
    ensures
        stands_in(
            "\n    candidate_role: ::leaf_core::CandidateRole::FALLBACK,"@,
            config_bean_source(ident),
        ),
        stands_in(
            "[::leaf_core::linkme::distributed_slice(::leaf_core::AUTO_CONFIGS)]"@,
            config_bean_source(ident),
        ),
        stands_in(
            " __LEAF_CONFIG_DESCRIPTOR_"@ + mangled(ident) + ": ::leaf_core::Descriptor = ::leaf_core::Descriptor {\n    contract: "@ + contract_here(ident) + ","@,
            config_bean_source(ident),
        ),
        stands_in(
            "\n    self_type: const { ::core::any::TypeId::of::<"@ + ident + ">() },"@,
            config_bean_source(ident),
        ),
        stands_in(
            "\n    declared_name: ::core::option::Option::Some("@ + literal_source(default_name(ident)) + "),"@,
            config_bean_source(ident),
        ),
        stands_in(
            "\n                <"@ + ident + " as ::core::default::Default>::default(),"@,
            config_bean_source(ident),
        ),
        stands_in(
            "::leaf_core::SeedPairingRow::field_default("@ + contract_here(ident) + ", __leaf_seed_"@ + mangled(ident) + ");"@,
            config_bean_source(ident),
        ),
{
    config_bean_pieces();
    config_bean_slots_are_found(ident);
    let t = CONFIG_BEAN@;
    let slots = no_slots().push(("mangled"@, mangled(ident))).push(("ident"@, ident)).push(
                ("contract"@, contract_here(ident)),
            ).push(("declared_name"@, literal_source(default_name(ident))));
    assert(stands_in("\n    candidate_role: ::leaf_core::CandidateRole::FALLBACK,"@,config_bean_source(ident))) by {
        reveal_strlit("\n    candidate_role: ::leaf_core::CandidateRole::FALLBACK,");
        let p0 = "\n    candidate_role: ::leaf_core::CandidateRole::FALLBACK,"@;
        filled_plain(p0, slots);
        filled_part(t, 201, 259, slots);
        assert("\n    candidate_role: ::leaf_core::CandidateRole::FALLBACK,"@ =~= "\n    candidate_role: ::leaf_core::CandidateRole::FALLBACK,"@);
    }
    assert(stands_in("[::leaf_core::linkme::distributed_slice(::leaf_core::AUTO_CONFIGS)]"@,config_bean_source(ident))) by {
        reveal_strlit("[::leaf_core::linkme::distributed_slice(::leaf_core::AUTO_CONFIGS)]");
        let p0 = "[::leaf_core::linkme::distributed_slice(::leaf_core::AUTO_CONFIGS)]"@;
        filled_plain(p0, slots);
        filled_part(t, 1708, 1775, slots);
        assert("[::leaf_core::linkme::distributed_slice(::leaf_core::AUTO_CONFIGS)]"@ =~= "[::leaf_core::linkme::distributed_slice(::leaf_core::AUTO_CONFIGS)]"@);
    }
    assert(stands_in(" __LEAF_CONFIG_DESCRIPTOR_"@ + mangled(ident) + ": ::leaf_core::Descriptor = ::leaf_core::Descriptor {\n    contract: "@ + contract_here(ident) + ","@,config_bean_source(ident))) by {
        reveal_strlit("contract");
        reveal_strlit("mangled");
        reveal_strlit(" __LEAF_CONFIG_DESCRIPTOR_");
        reveal_strlit(",");
        reveal_strlit(": ::leaf_core::Descriptor = ::leaf_core::Descriptor {\n    contract: ");
        let p2 = ","@;
        let p1 = ": ::leaf_core::Descriptor = ::leaf_core::Descriptor {\n    contract: "@ + seq!['#'] + "contract"@ + p2;
        let p0 = " __LEAF_CONFIG_DESCRIPTOR_"@ + seq!['#'] + "mangled"@ + p1;
        filled_plain(p2, slots);
        filled_step(": ::leaf_core::Descriptor = ::leaf_core::Descriptor {\n    contract: "@, "contract"@, p2, slots);
        filled_step(" __LEAF_CONFIG_DESCRIPTOR_"@, "mangled"@, p1, slots);
        filled_part(t, 1821, 1933, slots);
        assert((" __LEAF_CONFIG_DESCRIPTOR_"@ + mangled(ident) + (": ::leaf_core::Descriptor = ::leaf_core::Descriptor {\n    contract: "@ + contract_here(ident) + ","@)) =~= " __LEAF_CONFIG_DESCRIPTOR_"@ + mangled(ident) + ": ::leaf_core::Descriptor = ::leaf_core::Descriptor {\n    contract: "@ + contract_here(ident) + ","@);
    }
    assert(stands_in("\n    self_type: const { ::core::any::TypeId::of::<"@ + ident + ">() },"@,config_bean_source(ident))) by {
        reveal_strlit("ident");
        reveal_strlit("\n    self_type: const { ::core::any::TypeId::of::<");
        reveal_strlit(">() },");
        let p1 = ">() },"@;
        let p0 = "\n    self_type: const { ::core::any::TypeId::of::<"@ + seq!['#'] + "ident"@ + p1;
        filled_plain(p1, slots);
        filled_step("\n    self_type: const { ::core::any::TypeId::of::<"@, "ident"@, p1, slots);
        filled_part(t, 1933, 1995, slots);
        assert(("\n    self_type: const { ::core::any::TypeId::of::<"@ + ident + ">() },"@) =~= "\n    self_type: const { ::core::any::TypeId::of::<"@ + ident + ">() },"@);
    }
    assert(stands_in("\n    declared_name: ::core::option::Option::Some("@ + literal_source(default_name(ident)) + "),"@,config_bean_source(ident))) by {
        reveal_strlit("declared_name");
        reveal_strlit("\n    declared_name: ::core::option::Option::Some(");
        reveal_strlit("),");
        let p1 = "),"@;
        let p0 = "\n    declared_name: ::core::option::Option::Some("@ + seq!['#'] + "declared_name"@ + p1;
        filled_plain(p1, slots);
        filled_step("\n    declared_name: ::core::option::Option::Some("@, "declared_name"@, p1, slots);
        filled_part(t, 2014, 2079, slots);
        assert(("\n    declared_name: ::core::option::Option::Some("@ + literal_source(default_name(ident)) + "),"@) =~= "\n    declared_name: ::core::option::Option::Some("@ + literal_source(default_name(ident)) + "),"@);
    }
    assert(stands_in("\n                <"@ + ident + " as ::core::default::Default>::default(),"@,config_bean_source(ident))) by {
        reveal_strlit("ident");
        reveal_strlit("\n                <");
        reveal_strlit(" as ::core::default::Default>::default(),");
        let p1 = " as ::core::default::Default>::default(),"@;
        let p0 = "\n                <"@ + seq!['#'] + "ident"@ + p1;
        filled_plain(p1, slots);
        filled_step("\n                <"@, "ident"@, p1, slots);
        filled_part(t, 841, 906, slots);
        assert(("\n                <"@ + ident + " as ::core::default::Default>::default(),"@) =~= "\n                <"@ + ident + " as ::core::default::Default>::default(),"@);
    }
    assert(stands_in("::leaf_core::SeedPairingRow::field_default("@ + contract_here(ident) + ", __leaf_seed_"@ + mangled(ident) + ");"@,config_bean_source(ident))) by {
        reveal_strlit("contract");
        reveal_strlit("mangled");
        reveal_strlit(");");
        reveal_strlit(", __leaf_seed_");
        reveal_strlit("::leaf_core::SeedPairingRow::field_default(");
        let p2 = ");"@;
        let p1 = ", __leaf_seed_"@ + seq!['#'] + "mangled"@ + p2;
        let p0 = "::leaf_core::SeedPairingRow::field_default("@ + seq!['#'] + "contract"@ + p1;
        filled_plain(p2, slots);
        filled_step(", __leaf_seed_"@, "mangled"@, p2, slots);
        filled_step("::leaf_core::SeedPairingRow::field_default("@, "contract"@, p1, slots);
        filled_part(t, 2622, 2698, slots);
        assert(("::leaf_core::SeedPairingRow::field_default("@ + contract_here(ident) + (", __leaf_seed_"@ + mangled(ident) + ");"@)) =~= "::leaf_core::SeedPairingRow::field_default("@ + contract_here(ident) + ", __leaf_seed_"@ + mangled(ident) + ");"@);
    }
}

/// Prints the registration of configuration properties as a bean.
fn emit_config_bean_registration(ident: &str) -> (res: String)
    ensures
        res@ == config_bean_source(ident@),
{
    let slots = Slots::new().with("mangled", mangle(ident).as_str()).with("ident", ident).with(
        "contract",
        contract_text(ident).as_str(),
    ).with(
        "declared_name",
        string_literal(derive_default_name(ident).as_str()).as_str(),
    );
    slots.fill(CONFIG_BEAN)
}

/// The metadata of configuration properties, with all that binds and registers them.
pub const CONFIG_PROPERTIES: &'static str = "#bind#thunk#[allow(non_upper_case_globals)]
static __LEAF_CONFIG_PROPS_#mangled: &[::leaf_core::Property] = &[#properties];
#[allow(non_upper_case_globals)]
pub const __LEAF_CONFIG_GROUP_#mangled: ::leaf_core::ConfigGroup = ::leaf_core::ConfigGroup {
    prefix: #prefix,
    type_name: ::core::concat!(::core::module_path!(), \"::\", #name),
    description: ::core::option::Option::None,
    properties: __LEAF_CONFIG_PROPS_#mangled,
    contract: #contract,
};
#[allow(non_upper_case_globals)]
#[::leaf_core::linkme::distributed_slice(::leaf_core::CONFIG_METADATA)]
#[linkme(crate = ::leaf_core::linkme)]
static __LEAF_CONFIG_META_#mangled: ::leaf_core::ConfigMetadataRow = ::leaf_core::ConfigMetadataRow {
    contract: #contract,
    prefix: #prefix,
};
#[allow(non_upper_case_globals)]
#[::leaf_core::linkme::distributed_slice(::leaf_core::CONFIG_BIND_PAIRINGS)]
#[linkme(crate = ::leaf_core::linkme)]
static __LEAF_CONFIG_BIND_PAIRING_#mangled: ::leaf_core::ConfigBindPairingRow = ::leaf_core::ConfigBindPairingRow {
    contract: #contract,
    thunk: __leaf_config_bind_#mangled,
};
#bean";

/// The source of configuration properties with the given fields.
pub open spec fn properties_source(
    ident: Seq<char>,
    fields: Seq<Field>,
    prefix: Seq<char>,
    validate: bool,
) -> Seq<char> {
    filled(
        CONFIG_PROPERTIES@,
        no_slots().push(("bind"@, bind_source(ident, fields))).push(
            ("thunk"@, thunk_source(ident, prefix, validate)),
        ).push(("mangled"@, mangled(ident))).push(
            ("properties"@, join(property_rows(fields), ", "@)),
        ).push(("prefix"@, literal_source(prefix))).push(("name"@, literal_source(ident))).push(
            ("contract"@, contract_here(ident)),
        ).push(("bean"@, config_bean_source(ident))),
    )
}

/// Pieces of the template, where they stand in it.
#[verifier::spinoff_prover]
#[verifier::rlimit(60)]
proof fn config_properties_pieces()
    ensures
        CONFIG_PROPERTIES@.len() == 1095,
        CONFIG_PROPERTIES@.subrange(0, 43) == ""@ + seq!['#'] + "bind"@ + (""@ + seq!['#'] + "thunk"@ + (""@ + seq!['#'] + "[allow(non_upper_case_globals)]"@)),
        !is_name_char(CONFIG_PROPERTIES@[0]),
        !is_name_char(CONFIG_PROPERTIES@[43]),
        CONFIG_PROPERTIES@.subrange(50, 123) == " __LEAF_CONFIG_PROPS_"@ + seq!['#'] + "mangled"@ + (": &[::leaf_core::Property] = &["@ + seq!['#'] + "properties"@ + "];"@),
        !is_name_char(CONFIG_PROPERTIES@[50]),
        !is_name_char(CONFIG_PROPERTIES@[123]),
        CONFIG_PROPERTIES@.subrange(224, 271) == "::leaf_core::ConfigGroup {\n    prefix: "@ + seq!['#'] + "prefix"@ + ","@,
        !is_name_char(CONFIG_PROPERTIES@[224]),
        !is_name_char(CONFIG_PROPERTIES@[271]),
        CONFIG_PROPERTIES@.subrange(303, 340) == "::core::module_path!(), \"::\", "@ + seq!['#'] + "name"@ + "),"@,
        !is_name_char(CONFIG_PROPERTIES@[303]),
        !is_name_char(CONFIG_PROPERTIES@[340]),
        CONFIG_PROPERTIES@.subrange(387, 458) == "\n    properties: __LEAF_CONFIG_PROPS_"@ + seq!['#'] + "mangled"@ + (",\n    contract: "@ + seq!['#'] + "contract"@ + ","@),
        !is_name_char(CONFIG_PROPERTIES@[387]),
        !is_name_char(CONFIG_PROPERTIES@[458]),
        CONFIG_PROPERTIES@.subrange(496, 566) == "[::leaf_core::linkme::distributed_slice(::leaf_core::CONFIG_METADATA)]"@,
        !is_name_char(CONFIG_PROPERTIES@[496]),
        !is_name_char(CONFIG_PROPERTIES@[566]),
        CONFIG_PROPERTIES@.subrange(675, 753) == "::leaf_core::ConfigMetadataRow {\n    contract: "@ + seq!['#'] + "contract"@ + (",\n    prefix: "@ + seq!['#'] + "prefix"@ + ","@),
        !is_name_char(CONFIG_PROPERTIES@[675]),
        !is_name_char(CONFIG_PROPERTIES@[753]),
        CONFIG_PROPERTIES@.subrange(791, 866) == "[::leaf_core::linkme::distributed_slice(::leaf_core::CONFIG_BIND_PAIRINGS)]"@,
        !is_name_char(CONFIG_PROPERTIES@[791]),
        !is_name_char(CONFIG_PROPERTIES@[866]),
        CONFIG_PROPERTIES@.subrange(1021, 1095) == "\n    contract: "@ + seq!['#'] + "contract"@ + (",\n    thunk: __leaf_config_bind_"@ + seq!['#'] + "mangled"@ + (",\n};\n"@ + seq!['#'] + "bean"@ + ""@)),
        !is_name_char(CONFIG_PROPERTIES@[1021]),
{
    reveal_strlit(
        "#bind#thunk#[allow(non_upper_case_globals)]
static __LEAF_CONFIG_PROPS_#mangled: &[::leaf_core::Property] = &[#properties];
#[allow(non_upper_case_globals)]
pub const __LEAF_CONFIG_GROUP_#mangled: ::leaf_core::ConfigGroup = ::leaf_core::ConfigGroup {
    prefix: #prefix,
    type_name: ::core::concat!(::core::module_path!(), \"::\", #name),
    description: ::core::option::Option::None,
    properties: __LEAF_CONFIG_PROPS_#mangled,
    contract: #contract,
};
#[allow(non_upper_case_globals)]
#[::leaf_core::linkme::distributed_slice(::leaf_core::CONFIG_METADATA)]
#[linkme(crate = ::leaf_core::linkme)]
static __LEAF_CONFIG_META_#mangled: ::leaf_core::ConfigMetadataRow = ::leaf_core::ConfigMetadataRow {
    contract: #contract,
    prefix: #prefix,
};
#[allow(non_upper_case_globals)]
#[::leaf_core::linkme::distributed_slice(::leaf_core::CONFIG_BIND_PAIRINGS)]
#[linkme(crate = ::leaf_core::linkme)]
static __LEAF_CONFIG_BIND_PAIRING_#mangled: ::leaf_core::ConfigBindPairingRow = ::leaf_core::ConfigBindPairingRow {
    contract: #contract,
    thunk: __leaf_config_bind_#mangled,
};
#bean",
    );
    reveal_strlit("");
    reveal_strlit("\n    contract: ");
    reveal_strlit("\n    properties: __LEAF_CONFIG_PROPS_");
    reveal_strlit(" __LEAF_CONFIG_PROPS_");
    reveal_strlit("),");
    reveal_strlit(",");
    reveal_strlit(",\n    contract: ");
    reveal_strlit(",\n    prefix: ");
    reveal_strlit(",\n    thunk: __leaf_config_bind_");
    reveal_strlit(",\n};\n");
    reveal_strlit(": &[::leaf_core::Property] = &[");
    reveal_strlit("::core::module_path!(), \"::\", ");
    reveal_strlit("::leaf_core::ConfigGroup {\n    prefix: ");
    reveal_strlit("::leaf_core::ConfigMetadataRow {\n    contract: ");
    reveal_strlit("[::leaf_core::linkme::distributed_slice(::leaf_core::CONFIG_BIND_PAIRINGS)]");
    reveal_strlit("[::leaf_core::linkme::distributed_slice(::leaf_core::CONFIG_METADATA)]");
    reveal_strlit("[allow(non_upper_case_globals)]");
    reveal_strlit("];");
    reveal_strlit("bean");
    reveal_strlit("bind");
    reveal_strlit("contract");
    reveal_strlit("mangled");
    reveal_strlit("name");
    reveal_strlit("prefix");
    reveal_strlit("properties");
    reveal_strlit("thunk");
    assert(CONFIG_PROPERTIES@.subrange(0, 43) =~= ""@ + seq!['#'] + "bind"@ + (""@ + seq!['#'] + "thunk"@ + (""@ + seq!['#'] + "[allow(non_upper_case_globals)]"@)));
    assert(CONFIG_PROPERTIES@.subrange(50, 123) =~= " __LEAF_CONFIG_PROPS_"@ + seq!['#'] + "mangled"@ + (": &[::leaf_core::Property] = &["@ + seq!['#'] + "properties"@ + "];"@));
    assert(CONFIG_PROPERTIES@.subrange(224, 271) =~= "::leaf_core::ConfigGroup {\n    prefix: "@ + seq!['#'] + "prefix"@ + ","@);
    assert(CONFIG_PROPERTIES@.subrange(303, 340) =~= "::core::module_path!(), \"::\", "@ + seq!['#'] + "name"@ + "),"@);
    assert(CONFIG_PROPERTIES@.subrange(387, 458) =~= "\n    properties: __LEAF_CONFIG_PROPS_"@ + seq!['#'] + "mangled"@ + (",\n    contract: "@ + seq!['#'] + "contract"@ + ","@));
    assert(CONFIG_PROPERTIES@.subrange(496, 566) =~= "[::leaf_core::linkme::distributed_slice(::leaf_core::CONFIG_METADATA)]"@);
    assert(CONFIG_PROPERTIES@.subrange(675, 753) =~= "::leaf_core::ConfigMetadataRow {\n    contract: "@ + seq!['#'] + "contract"@ + (",\n    prefix: "@ + seq!['#'] + "prefix"@ + ","@));
    assert(CONFIG_PROPERTIES@.subrange(791, 866) =~= "[::leaf_core::linkme::distributed_slice(::leaf_core::CONFIG_BIND_PAIRINGS)]"@);
    assert(CONFIG_PROPERTIES@.subrange(1021, 1095) =~= "\n    contract: "@ + seq!['#'] + "contract"@ + (",\n    thunk: __leaf_config_bind_"@ + seq!['#'] + "mangled"@ + (",\n};\n"@ + seq!['#'] + "bean"@ + ""@)));
}

/// What the slots of the template hold.
proof fn config_properties_slots_are_found(ident: Seq<char>, fields: Seq<Field>, prefix: Seq<char>, validate: bool)
    ensures
        ({
            let slots = no_slots().push(("bind"@, bind_source(ident, fields))).push(
                ("thunk"@, thunk_source(ident, prefix, validate)),
            ).push(("mangled"@, mangled(ident))).push(
                ("properties"@, join(property_rows(fields), ", "@)),
            ).push(("prefix"@, literal_source(prefix))).push(("name"@, literal_source(ident))).push(
                ("contract"@, contract_here(ident)),
            ).push(("bean"@, config_bean_source(ident)));
            &&& slot_text(slots, "bind"@) == Some(bind_source(ident, fields))
            &&& slot_text(slots, "thunk"@) == Some(thunk_source(ident, prefix, validate))
            &&& slot_text(slots, "mangled"@) == Some(mangled(ident))
            &&& slot_text(slots, "properties"@) == Some(join(property_rows(fields), ", "@))
            &&& slot_text(slots, "prefix"@) == Some(literal_source(prefix))
            &&& slot_text(slots, "name"@) == Some(literal_source(ident))
            &&& slot_text(slots, "contract"@) == Some(contract_here(ident))
            &&& slot_text(slots, "bean"@) == Some(config_bean_source(ident))
            &&& slot_text(slots, Seq::empty()) is None
        }),
{
    reveal_strlit("bind");
    reveal_strlit("thunk");
    reveal_strlit("mangled");
    reveal_strlit("properties");
    reveal_strlit("prefix");
    reveal_strlit("name");
    reveal_strlit("contract");
    reveal_strlit("bean");
    let slots = no_slots().push(("bind"@, bind_source(ident, fields))).push(
                ("thunk"@, thunk_source(ident, prefix, validate)),
            ).push(("mangled"@, mangled(ident))).push(
                ("properties"@, join(property_rows(fields), ", "@)),
            ).push(("prefix"@, literal_source(prefix))).push(("name"@, literal_source(ident))).push(
                ("contract"@, contract_here(ident)),
            ).push(("bean"@, config_bean_source(ident)));
    unnamed_slot(slots);
    slot_at(slots, 0);
    assert("bind"@.len() != "thunk"@.len());
    slot_at(slots, 1);
    assert("bind"@.len() != "mangled"@.len());
    assert("thunk"@.len() != "mangled"@.len());
    slot_at(slots, 2);
    assert("bind"@.len() != "properties"@.len());
    assert("thunk"@.len() != "properties"@.len());
    assert("mangled"@.len() != "properties"@.len());
    slot_at(slots, 3);
    assert("bind"@.len() != "prefix"@.len());
    assert("thunk"@.len() != "prefix"@.len());
    assert("mangled"@.len() != "prefix"@.len());
    assert("properties"@.len() != "prefix"@.len());
    slot_at(slots, 4);
    assert("bind"@[0] != "name"@[0]);
    assert("thunk"@.len() != "name"@.len());
    assert("mangled"@.len() != "name"@.len());
    assert("properties"@.len() != "name"@.len());
    assert("prefix"@.len() != "name"@.len());
    slot_at(slots, 5);
    assert("bind"@.len() != "contract"@.len());
    assert("thunk"@.len() != "contract"@.len());
    assert("mangled"@.len() != "contract"@.len());
    assert("properties"@.len() != "contract"@.len());
    assert("prefix"@.len() != "contract"@.len());
    assert("name"@.len() != "contract"@.len());
    slot_at(slots, 6);
    assert("bind"@[1] != "bean"@[1]);
    assert("thunk"@.len() != "bean"@.len());
    assert("mangled"@.len() != "bean"@.len());
    assert("properties"@.len() != "bean"@.len());
    assert("prefix"@.len() != "bean"@.len());
    assert("name"@[0] != "bean"@[0]);
    assert("contract"@.len() != "bean"@.len());
    slot_at(slots, 7);
}

/// Configuration properties come with what binds them, their metadata and their bean; the
/// metadata has their prefix, and the function that binds them is paired with their contract.
#[verifier::spinoff_prover]
#[verifier::rlimit(60)]
pub proof fn properties_have_their_parts(ident: Seq<char>, fields: Seq<Field>, prefix: Seq<char>, validate: bool)
    ensures
        stands_in(
            bind_source(ident, fields) + thunk_source(ident, prefix, validate) + "#[allow(non_upper_case_globals)]"@,
            properties_source(ident, fields, prefix, validate),
        ),
        stands_in(
            " __LEAF_CONFIG_PROPS_"@ + mangled(ident) + ": &[::leaf_core::Property] = &["@ + join(property_rows(fields), ", "@) + "];"@,
            properties_source(ident, fields, prefix, validate),
        ),
        stands_in(
            "::leaf_core::ConfigGroup {\n    prefix: "@ + literal_source(prefix) + ","@,
            properties_source(ident, fields, prefix, validate),
        ),
        stands_in(
            "::core::module_path!(), \"::\", "@ + literal_source(ident) + "),"@,
            properties_source(ident, fields, prefix, validate),
        ),
        stands_in(
            "\n    properties: __LEAF_CONFIG_PROPS_"@ + mangled(ident) + ",\n    contract: "@ + contract_here(ident) + ","@,
            properties_source(ident, fields, prefix, validate),
        ),
        stands_in(
            "[::leaf_core::linkme::distributed_slice(::leaf_core::CONFIG_METADATA)]"@,
            properties_source(ident, fields, prefix, validate),
        ),
        stands_in(
            "::leaf_core::ConfigMetadataRow {\n    contract: "@ + contract_here(ident) + ",\n    prefix: "@ + literal_source(prefix) + ","@,
            properties_source(ident, fields, prefix, validate),
        ),
        stands_in(
            "[::leaf_core::linkme::distributed_slice(::leaf_core::CONFIG_BIND_PAIRINGS)]"@,
            properties_source(ident, fields, prefix, validate),
        ),
        stands_in(
            "\n    contract: "@ + contract_here(ident) + ",\n    thunk: __leaf_config_bind_"@ + mangled(ident) + ",\n};\n"@ + config_bean_source(ident),
            properties_source(ident, fields, prefix, validate),
        ),
{
    config_properties_pieces();
    config_properties_slots_are_found(ident, fields, prefix, validate);
    let t = CONFIG_PROPERTIES@;
    let slots = no_slots().push(("bind"@, bind_source(ident, fields))).push(
                ("thunk"@, thunk_source(ident, prefix, validate)),
            ).push(("mangled"@, mangled(ident))).push(
                ("properties"@, join(property_rows(fields), ", "@)),
            ).push(("prefix"@, literal_source(prefix))).push(("name"@, literal_source(ident))).push(
                ("contract"@, contract_here(ident)),
            ).push(("bean"@, config_bean_source(ident)));
    assert(stands_in(bind_source(ident, fields) + thunk_source(ident, prefix, validate) + "#[allow(non_upper_case_globals)]"@,properties_source(ident, fields, prefix, validate))) by {
        reveal_strlit("bind");
        reveal_strlit("thunk");
        reveal_strlit("");
        reveal_strlit("#[allow(non_upper_case_globals)]");
        reveal_strlit("[allow(non_upper_case_globals)]");
        let p3 = "[allow(non_upper_case_globals)]"@;
        let p2 = ""@ + seq!['#'] + p3;
        let p1 = ""@ + seq!['#'] + "thunk"@ + p2;
        let p0 = ""@ + seq!['#'] + "bind"@ + p1;
        filled_plain(p3, slots);
        filled_sign(""@, p3, slots);
        filled_step(""@, "thunk"@, p2, slots);
        filled_step(""@, "bind"@, p1, slots);
        filled_part(t, 0, 43, slots);
        assert((""@ + bind_source(ident, fields) + (""@ + thunk_source(ident, prefix, validate) + (""@ + seq!['#'] + "[allow(non_upper_case_globals)]"@))) =~= bind_source(ident, fields) + thunk_source(ident, prefix, validate) + "#[allow(non_upper_case_globals)]"@);
    }
    assert(stands_in(" __LEAF_CONFIG_PROPS_"@ + mangled(ident) + ": &[::leaf_core::Property] = &["@ + join(property_rows(fields), ", "@) + "];"@,properties_source(ident, fields, prefix, validate))) by {
        reveal_strlit("mangled");
        reveal_strlit("properties");
        reveal_strlit(" __LEAF_CONFIG_PROPS_");
        reveal_strlit(": &[::leaf_core::Property] = &[");
        reveal_strlit("];");
        let p2 = "];"@;
        let p1 = ": &[::leaf_core::Property] = &["@ + seq!['#'] + "properties"@ + p2;
        let p0 = " __LEAF_CONFIG_PROPS_"@ + seq!['#'] + "mangled"@ + p1;
        filled_plain(p2, slots);
        filled_step(": &[::leaf_core::Property] = &["@, "properties"@, p2, slots);
        filled_step(" __LEAF_CONFIG_PROPS_"@, "mangled"@, p1, slots);
        filled_part(t, 50, 123, slots);
        assert((" __LEAF_CONFIG_PROPS_"@ + mangled(ident) + (": &[::leaf_core::Property] = &["@ + join(property_rows(fields), ", "@) + "];"@)) =~= " __LEAF_CONFIG_PROPS_"@ + mangled(ident) + ": &[::leaf_core::Property] = &["@ + join(property_rows(fields), ", "@) + "];"@);
    }
    assert(stands_in("::leaf_core::ConfigGroup {\n    prefix: "@ + literal_source(prefix) + ","@,properties_source(ident, fields, prefix, validate))) by {
        reveal_strlit("prefix");
        reveal_strlit(",");
        reveal_strlit("::leaf_core::ConfigGroup {\n    prefix: ");
        let p1 = ","@;
        let p0 = "::leaf_core::ConfigGroup {\n    prefix: "@ + seq!['#'] + "prefix"@ + p1;
        filled_plain(p1, slots);
        filled_step("::leaf_core::ConfigGroup {\n    prefix: "@, "prefix"@, p1, slots);
        filled_part(t, 224, 271, slots);
        assert(("::leaf_core::ConfigGroup {\n    prefix: "@ + literal_source(prefix) + ","@) =~= "::leaf_core::ConfigGroup {\n    prefix: "@ + literal_source(prefix) + ","@);
    }
    assert(stands_in("::core::module_path!(), \"::\", "@ + literal_source(ident) + "),"@,properties_source(ident, fields, prefix, validate))) by {
        reveal_strlit("name");
        reveal_strlit("),");
        reveal_strlit("::core::module_path!(), \"::\", ");
        let p1 = "),"@;
        let p0 = "::core::module_path!(), \"::\", "@ + seq!['#'] + "name"@ + p1;
        filled_plain(p1, slots);
        filled_step("::core::module_path!(), \"::\", "@, "name"@, p1, slots);
        filled_part(t, 303, 340, slots);
        assert(("::core::module_path!(), \"::\", "@ + literal_source(ident) + "),"@) =~= "::core::module_path!(), \"::\", "@ + literal_source(ident) + "),"@);
    }
    assert(stands_in("\n    properties: __LEAF_CONFIG_PROPS_"@ + mangled(ident) + ",\n    contract: "@ + contract_here(ident) + ","@,properties_source(ident, fields, prefix, validate))) by {
        reveal_strlit("contract");
        reveal_strlit("mangled");
        reveal_strlit("\n    properties: __LEAF_CONFIG_PROPS_");
        reveal_strlit(",");
        reveal_strlit(",\n    contract: ");
        let p2 = ","@;
        let p1 = ",\n    contract: "@ + seq!['#'] + "contract"@ + p2;
        let p0 = "\n    properties: __LEAF_CONFIG_PROPS_"@ + seq!['#'] + "mangled"@ + p1;
        filled_plain(p2, slots);
        filled_step(",\n    contract: "@, "contract"@, p2, slots);
        filled_step("\n    properties: __LEAF_CONFIG_PROPS_"@, "mangled"@, p1, slots);
        filled_part(t, 387, 458, slots);
        assert(("\n    properties: __LEAF_CONFIG_PROPS_"@ + mangled(ident) + (",\n    contract: "@ + contract_here(ident) + ","@)) =~= "\n    properties: __LEAF_CONFIG_PROPS_"@ + mangled(ident) + ",\n    contract: "@ + contract_here(ident) + ","@);
    }
    assert(stands_in("[::leaf_core::linkme::distributed_slice(::leaf_core::CONFIG_METADATA)]"@,properties_source(ident, fields, prefix, validate))) by {
        reveal_strlit("[::leaf_core::linkme::distributed_slice(::leaf_core::CONFIG_METADATA)]");
        let p0 = "[::leaf_core::linkme::distributed_slice(::leaf_core::CONFIG_METADATA)]"@;
        filled_plain(p0, slots);
        filled_part(t, 496, 566, slots);
        assert("[::leaf_core::linkme::distributed_slice(::leaf_core::CONFIG_METADATA)]"@ =~= "[::leaf_core::linkme::distributed_slice(::leaf_core::CONFIG_METADATA)]"@);
    }
    assert(stands_in("::leaf_core::ConfigMetadataRow {\n    contract: "@ + contract_here(ident) + ",\n    prefix: "@ + literal_source(prefix) + ","@,properties_source(ident, fields, prefix, validate))) by {
        reveal_strlit("contract");
        reveal_strlit("prefix");
        reveal_strlit(",");
        reveal_strlit(",\n    prefix: ");
        reveal_strlit("::leaf_core::ConfigMetadataRow {\n    contract: ");
        let p2 = ","@;
        let p1 = ",\n    prefix: "@ + seq!['#'] + "prefix"@ + p2;
        let p0 = "::leaf_core::ConfigMetadataRow {\n    contract: "@ + seq!['#'] + "contract"@ + p1;
        filled_plain(p2, slots);
        filled_step(",\n    prefix: "@, "prefix"@, p2, slots);
        filled_step("::leaf_core::ConfigMetadataRow {\n    contract: "@, "contract"@, p1, slots);
        filled_part(t, 675, 753, slots);
        assert(("::leaf_core::ConfigMetadataRow {\n    contract: "@ + contract_here(ident) + (",\n    prefix: "@ + literal_source(prefix) + ","@)) =~= "::leaf_core::ConfigMetadataRow {\n    contract: "@ + contract_here(ident) + ",\n    prefix: "@ + literal_source(prefix) + ","@);
    }
    assert(stands_in("[::leaf_core::linkme::distributed_slice(::leaf_core::CONFIG_BIND_PAIRINGS)]"@,properties_source(ident, fields, prefix, validate))) by {
        reveal_strlit("[::leaf_core::linkme::distributed_slice(::leaf_core::CONFIG_BIND_PAIRINGS)]");
        let p0 = "[::leaf_core::linkme::distributed_slice(::leaf_core::CONFIG_BIND_PAIRINGS)]"@;
        filled_plain(p0, slots);
        filled_part(t, 791, 866, slots);
        assert("[::leaf_core::linkme::distributed_slice(::leaf_core::CONFIG_BIND_PAIRINGS)]"@ =~= "[::leaf_core::linkme::distributed_slice(::leaf_core::CONFIG_BIND_PAIRINGS)]"@);
    }
    assert(stands_in("\n    contract: "@ + contract_here(ident) + ",\n    thunk: __leaf_config_bind_"@ + mangled(ident) + ",\n};\n"@ + config_bean_source(ident),properties_source(ident, fields, prefix, validate))) by {
        reveal_strlit("bean");
        reveal_strlit("contract");
        reveal_strlit("mangled");
        reveal_strlit("");
        reveal_strlit("\n    contract: ");
        reveal_strlit(",\n    thunk: __leaf_config_bind_");
        reveal_strlit(",\n};\n");
        let p3 = ""@;
        let p2 = ",\n};\n"@ + seq!['#'] + "bean"@ + p3;
        let p1 = ",\n    thunk: __leaf_config_bind_"@ + seq!['#'] + "mangled"@ + p2;
        let p0 = "\n    contract: "@ + seq!['#'] + "contract"@ + p1;
        filled_plain(p3, slots);
        filled_step(",\n};\n"@, "bean"@, p3, slots);
        filled_step(",\n    thunk: __leaf_config_bind_"@, "mangled"@, p2, slots);
        filled_step("\n    contract: "@, "contract"@, p1, slots);
        filled_part(t, 1021, 1095, slots);
        assert(("\n    contract: "@ + contract_here(ident) + (",\n    thunk: __leaf_config_bind_"@ + mangled(ident) + (",\n};\n"@ + config_bean_source(ident) + ""@))) =~= "\n    contract: "@ + contract_here(ident) + ",\n    thunk: __leaf_config_bind_"@ + mangled(ident) + ",\n};\n"@ + config_bean_source(ident));
    }
}

/// Prints configuration properties.
pub fn emit_config_properties(item: &DeriveItem, args: &ConfigPropertiesArgs) -> (res: Result<
    String,
    EmitError,
>)
    ensures
        told(res) == match bindable(*item) {
            Ok(fields) => Ok(
                properties_source(item.ident@, fields, args.prefix@, args.validate),
            ),
            Err(message) => Err(message),
        },
{
    let fields = match bindable_fields(item) {
        Ok(fields) => fields,
        Err(e) => return Err(e),
    };
    let ident = item.ident.as_str();
    let prefix = args.prefix.as_str();
    let texts = field_texts(fields);
    let slots = Slots::new().with("bind", bind_text(ident, fields, &texts).as_str()).with(
        "thunk",
        emit_config_bind_thunk(ident, prefix, args.validate).as_str(),
    ).with("mangled", mangle(ident).as_str()).with(
        "properties",
        join_texts(texts.properties.as_slice(), ", ").as_str(),
    ).with("prefix", string_literal(prefix).as_str()).with(
        "name",
        string_literal(ident).as_str(),
    ).with("contract", contract_text(ident).as_str()).with(
        "bean",
        emit_config_bean_registration(ident).as_str(),
    );
    Ok(slots.fill(CONFIG_PROPERTIES))
}

/// The source of the value that a template stands for.
pub open spec fn value_source(template: Seq<char>) -> Result<Seq<char>, Seq<char>> {
    match parsed_template(template) {
        Ok(parts) => Ok(segments_source(parts)),
        Err(message) => Err("#[value] template: "@ + message),
    }
}

/// Prints the value that a template stands for.
pub fn emit_value_of(template: &str) -> (res: Result<String, EmitError>)
    ensures
        told(res) == value_source(template@),
{
    match parse_and_emit(template) {
        Ok(source) => Ok(source),
        Err(e) => error("#[value] template: ".to_string().concat(e.message.as_str())),
    }
}

/// Prints the value that the template in an attribute stands for.
pub fn emit_value(attr: &str) -> (res: Result<String, EmitError>)
    ensures
        told(res) == match string_in(attr@) {
            Ok(template) => value_source(template),
            Err(message) => Err(
                "#[value] expects a single string-literal template: "@ + message,
            ),
        },
{
    match string_value(attr) {
        Ok(template) => emit_value_of(template.as_str()),
        Err(message) => error(
            "#[value] expects a single string-literal template: ".to_string().concat(
                message.as_str(),
            ),
        ),
    }
}

/// The registration of a converter.
pub const CONVERTER: &'static str = "#[allow(non_upper_case_globals)]
#[::leaf_core::linkme::distributed_slice(::leaf_core::CATALOGS)]
#[linkme(crate = ::leaf_core::linkme)]
static __LEAF_CATALOG_#mangled: ::leaf_core::CatalogRow = ::leaf_core::CatalogRow {
    contract: #contract,
};
";

/// The source that registers a converter.
pub open spec fn converter_source(ident: Seq<char>) -> Seq<char> {
    filled(
        CONVERTER@,
        no_slots().push(("mangled"@, mangled(ident))).push(("contract"@, contract_here(ident))),
    )
}

/// Pieces of the template, where they stand in it.
#[verifier::spinoff_prover]
#[verifier::rlimit(60)]
proof fn converter_pieces()
    ensures
        CONVERTER@.len() == 249,
        CONVERTER@.subrange(34, 97) == "[::leaf_core::linkme::distributed_slice(::leaf_core::CATALOGS)]"@,
        !is_name_char(CONVERTER@[34]),
        !is_name_char(CONVERTER@[97]),
        CONVERTER@.subrange(136, 245) == "\nstatic __LEAF_CATALOG_"@ + seq!['#'] + "mangled"@ + (": ::leaf_core::CatalogRow = ::leaf_core::CatalogRow {\n    contract: "@ + seq!['#'] + "contract"@ + ","@),
        !is_name_char(CONVERTER@[136]),
        !is_name_char(CONVERTER@[245]),
{
    reveal_strlit(
        "#[allow(non_upper_case_globals)]
#[::leaf_core::linkme::distributed_slice(::leaf_core::CATALOGS)]
#[linkme(crate = ::leaf_core::linkme)]
static __LEAF_CATALOG_#mangled: ::leaf_core::CatalogRow = ::leaf_core::CatalogRow {
    contract: #contract,
};
",
    );
    reveal_strlit("\nstatic __LEAF_CATALOG_");
    reveal_strlit(",");
    reveal_strlit(": ::leaf_core::CatalogRow = ::leaf_core::CatalogRow {\n    contract: ");
    reveal_strlit("[::leaf_core::linkme::distributed_slice(::leaf_core::CATALOGS)]");
    reveal_strlit("contract");
    reveal_strlit("mangled");
    assert(CONVERTER@.subrange(34, 97) =~= "[::leaf_core::linkme::distributed_slice(::leaf_core::CATALOGS)]"@);
    assert(CONVERTER@.subrange(136, 245) =~= "\nstatic __LEAF_CATALOG_"@ + seq!['#'] + "mangled"@ + (": ::leaf_core::CatalogRow = ::leaf_core::CatalogRow {\n    contract: "@ + seq!['#'] + "contract"@ + ","@));
}

/// What the slots of the template hold.
proof fn converter_slots_are_found(ident: Seq<char>)
    ensures
        ({
            let slots = no_slots().push(("mangled"@, mangled(ident))).push(("contract"@, contract_here(ident)));
            &&& slot_text(slots, "mangled"@) == Some(mangled(ident))
            &&& slot_text(slots, "contract"@) == Some(contract_here(ident))
        }),
{
    reveal_strlit("mangled");
    reveal_strlit("contract");
    let slots = no_slots().push(("mangled"@, mangled(ident))).push(("contract"@, contract_here(ident)));
    slot_at(slots, 0);
    assert("mangled"@.len() != "contract"@.len());
    slot_at(slots, 1);
}

/// A converter is collected among the catalogs, under its contract.
#[verifier::spinoff_prover]
#[verifier::rlimit(60)]
pub proof fn converter_is_collected(ident: Seq<char>)
    ensures
        stands_in(
            "[::leaf_core::linkme::distributed_slice(::leaf_core::CATALOGS)]"@,
            converter_source(ident),
        ),
        stands_in(
            "\nstatic __LEAF_CATALOG_"@ + mangled(ident) + ": ::leaf_core::CatalogRow = ::leaf_core::CatalogRow {\n    contract: "@ + contract_here(ident) + ","@,
            converter_source(ident),
        ),
{
    converter_pieces();
    converter_slots_are_found(ident);
    let t = CONVERTER@;
    let slots = no_slots().push(("mangled"@, mangled(ident))).push(("contract"@, contract_here(ident)));
    assert(stands_in("[::leaf_core::linkme::distributed_slice(::leaf_core::CATALOGS)]"@,converter_source(ident))) by {
        reveal_strlit("[::leaf_core::linkme::distributed_slice(::leaf_core::CATALOGS)]");
        let p0 = "[::leaf_core::linkme::distributed_slice(::leaf_core::CATALOGS)]"@;
        filled_plain(p0, slots);
        filled_part(t, 34, 97, slots);
        assert("[::leaf_core::linkme::distributed_slice(::leaf_core::CATALOGS)]"@ =~= "[::leaf_core::linkme::distributed_slice(::leaf_core::CATALOGS)]"@);
    }
    assert(stands_in("\nstatic __LEAF_CATALOG_"@ + mangled(ident) + ": ::leaf_core::CatalogRow = ::leaf_core::CatalogRow {\n    contract: "@ + contract_here(ident) + ","@,converter_source(ident))) by {
        reveal_strlit("contract");
        reveal_strlit("mangled");
        reveal_strlit("\nstatic __LEAF_CATALOG_");
        reveal_strlit(",");
        reveal_strlit(": ::leaf_core::CatalogRow = ::leaf_core::CatalogRow {\n    contract: ");
        let p2 = ","@;
        let p1 = ": ::leaf_core::CatalogRow = ::leaf_core::CatalogRow {\n    contract: "@ + seq!['#'] + "contract"@ + p2;
        let p0 = "\nstatic __LEAF_CATALOG_"@ + seq!['#'] + "mangled"@ + p1;
        filled_plain(p2, slots);
        filled_step(": ::leaf_core::CatalogRow = ::leaf_core::CatalogRow {\n    contract: "@, "contract"@, p2, slots);
        filled_step("\nstatic __LEAF_CATALOG_"@, "mangled"@, p1, slots);
        filled_part(t, 136, 245, slots);
        assert(("\nstatic __LEAF_CATALOG_"@ + mangled(ident) + (": ::leaf_core::CatalogRow = ::leaf_core::CatalogRow {\n    contract: "@ + contract_here(ident) + ","@)) =~= "\nstatic __LEAF_CATALOG_"@ + mangled(ident) + ": ::leaf_core::CatalogRow = ::leaf_core::CatalogRow {\n    contract: "@ + contract_here(ident) + ","@);
    }
}

/// Prints the registration of the converter `ident`.
pub fn emit_converter(ident: &str) -> (res: String)
    ensures
        res@ == converter_source(ident@),
{
    let slots = Slots::new().with("mangled", mangle(ident).as_str()).with(
        "contract",
        contract_text(ident).as_str(),
    );
    slots.fill(CONVERTER)
}

} // verus!
