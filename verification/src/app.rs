//! Applications: the arguments of the main attribute, the entry point, runners and failure
//! analyzers.
use vstd::prelude::*;

use crate::args::{
    all_texts, arguments, error, parse_arguments, settle, settled, strings, text_values,
    told, Arg, ArgKind, EmitError, Expression, Form, Settings,
};
use crate::descriptor::{
    bean_source, emit, generic_message, generic_text, Bean, BeanInput, Scope, ServiceView,
};
use crate::forcelink::{
    emit_expected_manifest, emit_force_link, force_link_source, listing, listing_exists,
    listing_is, listing_with, manifest_source, participating,
};
use crate::items::{FnItem, StructItem};
use crate::naming::{contract_here, contract_text, mangle, mangled};
use crate::reading::{stands_in};
use crate::stereotype::{struct_bean, struct_input, Stereotype};
use crate::syntax::{literal_source, rename_fn, renamed, string_literal};
use crate::template::{
    filled, filled_part, filled_plain, filled_step, is_name_char, no_slots, slot_at, slot_text,
    Slots,
};
use crate::text::str_eq;

verus! {

/// What the main attribute says.
#[derive(Clone, Debug, Default, PartialEq, Eq)]
pub struct MainArgs {
    /// The primary source of the application, where one is given.
    pub primary: Option<String>,
    /// The packages that are linked.
    pub scan: Vec<String>,
}

impl View for MainArgs {
    type V = (Option<Seq<char>>, Seq<Seq<char>>);

    /// The primary source and the packages.
    open spec fn view(&self) -> (Option<Seq<char>>, Seq<Seq<char>>) {
        (self.primary.deep_view(), self.scan.deep_view())
    }
}

/// `e` is a call of the function that is called `name` and nothing more.
pub open spec fn calls(e: Expression, name: Seq<char>) -> bool {
    e.kind matches Form::Call { func, .. } && func.kind matches Form::Path { ident, .. } && ident
        == Some(name)
}

/// What is said after one more argument.
pub open spec fn after_main(s: (Option<Seq<char>>, Seq<Seq<char>>), e: Expression) -> Result<
    (Option<Seq<char>>, Seq<Seq<char>>),
    Seq<char>,
> {
    if calls(e, "scan"@) {
        if all_texts(e.kind->args) {
            Ok((s.0, s.1 + text_values(e.kind->args)))
        } else {
            Err("`scan(...)` entries must be crate-name string literals"@)
        }
    } else if let Form::Path { path, .. } = e.kind {
        if s.0 is Some {
            Err("#[leaf::main] accepts at most one primary source type"@)
        } else {
            Ok((Some(path), s.1))
        }
    } else {
        Err(
            "unexpected #[leaf::main] argument `"@ + e.source
                + "` (expected a primary source type and/or `scan(\"crate\", …)`)"@,
        )
    }
}

/// Whether an argument is a call of the function that is called `name` and nothing more.
fn call_is(func: &Arg, name: &str) -> (res: bool)
    ensures
        res == (func@.kind matches Form::Path { ident, .. } && ident == Some(name@)),
{
    match &func.kind {
        ArgKind::Path { ident: Some(ident), .. } => str_eq(ident.as_str(), name),
        _ => false,
    }
}

impl Settings for MainArgs {
    open spec fn after(settings: (Option<Seq<char>>, Seq<Seq<char>>), e: Expression) -> Result<
        (Option<Seq<char>>, Seq<Seq<char>>),
        Seq<char>,
    > {
        after_main(settings, e)
    }

    fn apply(self, arg: &Arg) -> (res: Result<MainArgs, EmitError>) {
        let mut main = self;
        match &arg.kind {
            ArgKind::Call { func, args } => {
                if !call_is(func, "scan") {
                    return error(
                        "unexpected #[leaf::main] argument `".to_string().concat(
                            arg.source.as_str(),
                        ).concat(
                            "` (expected a primary source type and/or `scan(\"crate\", …)`)",
                        ),
                    );
                }
                assert(args.deep_view() =~= arg@.kind->args);
                match strings(args) {
                    Some(names) => {
                        let mut names = names;
                        let ghost new = names.deep_view();
                        main.scan.append(&mut names);
                        assert(main@.1 =~= self@.1 + new);
                        Ok(main)
                    },
                    None => error(
                        "`scan(...)` entries must be crate-name string literals".to_string(),
                    ),
                }
            },
            ArgKind::Path { path, .. } => {
                if main.primary.is_some() {
                    return error(
                        "#[leaf::main] accepts at most one primary source type".to_string(),
                    );
                }
                main.primary = Some(path.clone());
                Ok(main)
            },
            _ => error(
                "unexpected #[leaf::main] argument `".to_string().concat(
                    arg.source.as_str(),
                ).concat("` (expected a primary source type and/or `scan(\"crate\", …)`)"),
            ),
        }
    }
}

/// The primary source of an application is the one type that is given, and the packages in `scan`
/// are added behind those given before; neither changes the other.
pub proof fn main_arguments_set_their_own(
    s: (Option<Seq<char>>, Seq<Seq<char>>),
    e: Expression,
    packages: Seq<Seq<char>>,
)
    ensures
        e.kind is Path && s.0 is None ==> after_main(s, e) == Ok::<
            (Option<Seq<char>>, Seq<Seq<char>>),
            Seq<char>,
        >((Some(e.kind->path), s.1)),
        e.kind is Path && s.0 is Some ==> after_main(s, e) is Err,
        crate::args::calls(e, "scan"@, e.kind->args) && e.kind->args.len() == packages.len() && (
        forall|i: int|
            0 <= i < packages.len() ==> (#[trigger] e.kind->args[i]).kind == Form::Str(packages[i]))
            ==> after_main(s, e) == Ok::<(Option<Seq<char>>, Seq<Seq<char>>), Seq<char>>(
            (s.0, s.1 + packages),
        ),
        e.kind is Str || e.kind is Int || e.kind is Bool || e.kind is Assign ==> after_main(s, e) is Err,
        main_settings(Seq::empty()) == Ok::<(Option<Seq<char>>, Seq<Seq<char>>), Seq<char>>(
            (None, Seq::empty()),
        ),
{
    if crate::args::calls(e, "scan"@, e.kind->args) && e.kind->args.len() == packages.len() && (
    forall|i: int|
        0 <= i < packages.len() ==> (#[trigger] e.kind->args[i]).kind == Form::Str(packages[i])) {
        let args = e.kind->args;
        assert forall|i: int| 0 <= i < args.len() implies crate::args::text_value(
            #[trigger] args[i],
        ) is Some by {
            assert(args[i].kind == Form::Str(packages[i]));
        }
        assert(text_values(args) =~= packages);
    }
}

/// What the arguments of the main attribute give.
pub open spec fn main_settings(items: Seq<Expression>) -> Result<
    (Option<Seq<char>>, Seq<Seq<char>>),
    Seq<char>,
> {
    settled::<MainArgs>((None, Seq::empty()), items)
}

/// What the arguments of the main attribute give.
pub fn main_args_of(items: &[Arg]) -> (res: Result<MainArgs, EmitError>)
    ensures
        told(res) == main_settings(items.deep_view()),
{
    let start = MainArgs { primary: None, scan: Vec::new() };
    assert(start@.1 =~= Seq::<Seq<char>>::empty());
    settle(start, items)
}

/// Reads the arguments of the main attribute.
pub fn parse_main_args(attr: &str) -> (res: Result<MainArgs, EmitError>)
    ensures
        told(res) == match arguments(attr@) {
            Ok(items) => main_settings(items),
            Err(message) => Err("malformed #[leaf::main] arguments: "@ + message),
        },
        attr@.len() == 0 ==> told(res) == Ok::<(Option<Seq<char>>, Seq<Seq<char>>), Seq<char>>(
            (None, Seq::empty()),
        ),
{
    match parse_arguments(attr) {
        Ok(items) => main_args_of(items.as_slice()),
        Err(message) => error(
            "malformed #[leaf::main] arguments: ".to_string().concat(message.as_str()),
        ),
    }
}

/// The name that the function of the user has in the generated source.
pub const INNER: &'static str = "__leaf_async_main";

/// The entry point of an application.
pub const MAIN: &'static str = "#[allow(unused_extern_crates)]
extern crate leaf as leaf_core;
#[allow(unused_extern_crates)]
extern crate leaf as leaf_cache;
#[allow(unused_extern_crates)]
extern crate leaf as leaf_tx;
#force_link
::leaf::force_link!();
#manifest
#inner
fn main() -> ::core::result::Result<(), ::leaf::LeafError> {
    ::leaf::run_main(#binary, #body)
}
";

/// What is printed for a function with too many parameters.
pub const TOO_MANY_PARAMETERS: &'static str = "#user
::core::compile_error!(\"#[leaf::main] async fn main takes either no parameters (the bare orchestration form) or one `&leaf::boot::RunningApp` parameter (the app-aware form)\");
";

/// The function of the user under the name it has in the generated source. A source that is
/// no function, and cannot be renamed, is left as it is.
pub open spec fn inner_source(
    source: Seq<char>,
    renamed: Result<Seq<char>, Seq<char>>,
) -> Seq<char> {
    match renamed {
        Ok(text) => text,
        Err(_) => source,
    }
}

/// The entry point that calls a function with `arity` parameters, with what the function is
/// under its new name.
pub open spec fn main_source(
    binary: Seq<char>,
    scan: Seq<Seq<char>>,
    user: Seq<char>,
    renamed: Result<Seq<char>, Seq<char>>,
    arity: nat,
) -> Seq<char> {
    if arity > 1 {
        filled(TOO_MANY_PARAMETERS@, no_slots().push(("user"@, user)))
    } else {
        filled(
            MAIN@,
            no_slots().push(("force_link"@, force_link_source(listing(scan)))).push(
                ("manifest"@, manifest_source(listing(scan.push(binary)))),
            ).push(("inner"@, inner_source(user, renamed))).push(("binary"@, literal_source(binary))).push(
                (
                    "body"@,
                    if arity == 0 {
                        "(|_app: &::leaf::boot::RunningApp| ::std::boxed::Box::pin(__leaf_async_main()))"@
                    } else {
                        "(|__app: &::leaf::boot::RunningApp| ::std::boxed::Box::pin(__leaf_async_main(__app)))"@
                    },
                ),
            ),
        )
    }
}

/// What an application runs: the function of the user, with the application where it takes that.
pub open spec fn main_body(arity: nat) -> Seq<char> {
    if arity == 0 {
        "(|_app: &::leaf::boot::RunningApp| ::std::boxed::Box::pin(__leaf_async_main()))"@
    } else {
        "(|__app: &::leaf::boot::RunningApp| ::std::boxed::Box::pin(__leaf_async_main(__app)))"@
    }
}

/// Pieces of the template, where they stand in it.
#[verifier::spinoff_prover]
#[verifier::rlimit(60)]
proof fn main_pieces()
    ensures
        MAIN@.len() == 340,
        MAIN@.subrange(187, 249) == "\n"@ + seq!['#'] + "force_link"@ + ("\n::leaf::force_link!();\n"@ + seq!['#'] + "manifest"@ + ("\n"@ + seq!['#'] + "inner"@ + "\nfn main()"@)),
        !is_name_char(MAIN@[187]),
        !is_name_char(MAIN@[249]),
        MAIN@.subrange(300, 339) == "\n    ::leaf::run_main("@ + seq!['#'] + "binary"@ + (", "@ + seq!['#'] + "body"@ + ")\n}"@),
        !is_name_char(MAIN@[300]),
        !is_name_char(MAIN@[339]),
{
    reveal_strlit(
        "#[allow(unused_extern_crates)]
extern crate leaf as leaf_core;
#[allow(unused_extern_crates)]
extern crate leaf as leaf_cache;
#[allow(unused_extern_crates)]
extern crate leaf as leaf_tx;
#force_link
::leaf::force_link!();
#manifest
#inner
fn main() -> ::core::result::Result<(), ::leaf::LeafError> {
    ::leaf::run_main(#binary, #body)
}
",
    );
    reveal_strlit("\n");
    reveal_strlit("\n    ::leaf::run_main(");
    reveal_strlit("\n::leaf::force_link!();\n");
    reveal_strlit("\nfn main()");
    reveal_strlit(")\n}");
    reveal_strlit(", ");
    reveal_strlit("binary");
    reveal_strlit("body");
    reveal_strlit("force_link");
    reveal_strlit("inner");
    reveal_strlit("manifest");
    assert(MAIN@.subrange(187, 249) =~= "\n"@ + seq!['#'] + "force_link"@ + ("\n::leaf::force_link!();\n"@ + seq!['#'] + "manifest"@ + ("\n"@ + seq!['#'] + "inner"@ + "\nfn main()"@)));
    assert(MAIN@.subrange(300, 339) =~= "\n    ::leaf::run_main("@ + seq!['#'] + "binary"@ + (", "@ + seq!['#'] + "body"@ + ")\n}"@));
}

/// What the slots of the template hold.
proof fn main_slots_are_found(binary: Seq<char>, scan: Seq<Seq<char>>, user: Seq<char>, renamed: Result<Seq<char>, Seq<char>>, arity: nat)
    ensures
        ({
            let slots = no_slots().push(("force_link"@, force_link_source(listing(scan)))).push(
                ("manifest"@, manifest_source(listing(scan.push(binary)))),
            ).push(("inner"@, inner_source(user, renamed))).push(("binary"@, literal_source(binary))).push(
                ("body"@, main_body(arity)),
            );
            &&& slot_text(slots, "force_link"@) == Some(force_link_source(listing(scan)))
            &&& slot_text(slots, "manifest"@) == Some(manifest_source(listing(scan.push(binary))))
            &&& slot_text(slots, "inner"@) == Some(inner_source(user, renamed))
            &&& slot_text(slots, "binary"@) == Some(literal_source(binary))
            &&& slot_text(slots, "body"@) == Some(main_body(arity))
        }),
{
    reveal_strlit("force_link");
    reveal_strlit("manifest");
    reveal_strlit("inner");
    reveal_strlit("binary");
    reveal_strlit("body");
    let slots = no_slots().push(("force_link"@, force_link_source(listing(scan)))).push(
                ("manifest"@, manifest_source(listing(scan.push(binary)))),
            ).push(("inner"@, inner_source(user, renamed))).push(("binary"@, literal_source(binary))).push(
                ("body"@, main_body(arity)),
            );
    slot_at(slots, 0);
    assert("force_link"@.len() != "manifest"@.len());
    slot_at(slots, 1);
    assert("force_link"@.len() != "inner"@.len());
    assert("manifest"@.len() != "inner"@.len());
    slot_at(slots, 2);
    assert("force_link"@.len() != "binary"@.len());
    assert("manifest"@.len() != "binary"@.len());
    assert("inner"@.len() != "binary"@.len());
    slot_at(slots, 3);
    assert("force_link"@.len() != "body"@.len());
    assert("manifest"@.len() != "body"@.len());
    assert("inner"@.len() != "body"@.len());
    assert("binary"@.len() != "body"@.len());
    slot_at(slots, 4);
}

/// An application links what it scans, says what it expects, and runs the function of the user
/// under its own package; the function is the renamed one, where it can be renamed.
#[verifier::spinoff_prover]
#[verifier::rlimit(60)]
pub proof fn application_runs_the_function(binary: Seq<char>, scan: Seq<Seq<char>>, user: Seq<char>, renamed: Result<Seq<char>, Seq<char>>, arity: nat)
    requires
        arity <= 1,
    ensures
        stands_in(
            "\n"@ + force_link_source(listing(scan)) + "\n::leaf::force_link!();\n"@ + manifest_source(listing(scan.push(binary))) + "\n"@ + inner_source(user, renamed) + "\nfn main()"@,
            main_source(binary, scan, user, renamed, arity),
        ),
        stands_in(
            "\n    ::leaf::run_main("@ + literal_source(binary) + ", "@ + main_body(arity) + ")\n}"@,
            main_source(binary, scan, user, renamed, arity),
        ),
        renamed is Ok ==> inner_source(user, renamed) == renamed->Ok_0,
        renamed is Err ==> inner_source(user, renamed) == user,
{
    main_pieces();
    main_slots_are_found(binary, scan, user, renamed, arity);
    let t = MAIN@;
    let slots = no_slots().push(("force_link"@, force_link_source(listing(scan)))).push(
                ("manifest"@, manifest_source(listing(scan.push(binary)))),
            ).push(("inner"@, inner_source(user, renamed))).push(("binary"@, literal_source(binary))).push(
                ("body"@, main_body(arity)),
            );
    assert(stands_in("\n"@ + force_link_source(listing(scan)) + "\n::leaf::force_link!();\n"@ + manifest_source(listing(scan.push(binary))) + "\n"@ + inner_source(user, renamed) + "\nfn main()"@,main_source(binary, scan, user, renamed, arity))) by {
        reveal_strlit("force_link");
        reveal_strlit("inner");
        reveal_strlit("manifest");
        reveal_strlit("\n");
        reveal_strlit("\n::leaf::force_link!();\n");
        reveal_strlit("\nfn main()");
        let p3 = "\nfn main()"@;
        let p2 = "\n"@ + seq!['#'] + "inner"@ + p3;
        let p1 = "\n::leaf::force_link!();\n"@ + seq!['#'] + "manifest"@ + p2;
        let p0 = "\n"@ + seq!['#'] + "force_link"@ + p1;
        filled_plain(p3, slots);
        filled_step("\n"@, "inner"@, p3, slots);
        filled_step("\n::leaf::force_link!();\n"@, "manifest"@, p2, slots);
        filled_step("\n"@, "force_link"@, p1, slots);
        filled_part(t, 187, 249, slots);
        assert(("\n"@ + force_link_source(listing(scan)) + ("\n::leaf::force_link!();\n"@ + manifest_source(listing(scan.push(binary))) + ("\n"@ + inner_source(user, renamed) + "\nfn main()"@))) =~= "\n"@ + force_link_source(listing(scan)) + "\n::leaf::force_link!();\n"@ + manifest_source(listing(scan.push(binary))) + "\n"@ + inner_source(user, renamed) + "\nfn main()"@);
    }
    assert(stands_in("\n    ::leaf::run_main("@ + literal_source(binary) + ", "@ + main_body(arity) + ")\n}"@,main_source(binary, scan, user, renamed, arity))) by {
        reveal_strlit("binary");
        reveal_strlit("body");
        reveal_strlit("\n    ::leaf::run_main(");
        reveal_strlit(")\n}");
        reveal_strlit(", ");
        let p2 = ")\n}"@;
        let p1 = ", "@ + seq!['#'] + "body"@ + p2;
        let p0 = "\n    ::leaf::run_main("@ + seq!['#'] + "binary"@ + p1;
        filled_plain(p2, slots);
        filled_step(", "@, "body"@, p2, slots);
        filled_step("\n    ::leaf::run_main("@, "binary"@, p1, slots);
        filled_part(t, 300, 339, slots);
        assert(("\n    ::leaf::run_main("@ + literal_source(binary) + (", "@ + main_body(arity) + ")\n}"@)) =~= "\n    ::leaf::run_main("@ + literal_source(binary) + ", "@ + main_body(arity) + ")\n}"@);
    }
}

/// The packages an application expects are its own and those it scans; those it links are
/// the ones it scans, so that it links itself only where it scans itself.
pub proof fn main_expects_itself(binary: Seq<char>, scan: Seq<Seq<char>>)
    ensures
        forall|n: Seq<char>| #[trigger]
            listing(scan.push(binary)).contains(n) <==> scan.contains(n) || n == binary,
        forall|n: Seq<char>| #[trigger] listing(scan).contains(n) <==> scan.contains(n),
{
    let more = scan.push(binary);
    listing_exists(scan);
    listing_exists(more);
    assert forall|n: Seq<char>| #[trigger] listing(more).contains(n) <==> scan.contains(n) || n
        == binary by {
        assert(listing(more).contains(n) <==> more.contains(n));
        if scan.contains(n) {
            let k = choose|k: int| 0 <= k < scan.len() && scan[k] == n;
            assert(more[k] == n);
        }
        if n == binary {
            assert(more[scan.len() as int] == n);
        }
        if more.contains(n) {
            let k = choose|k: int| 0 <= k < more.len() && more[k] == n;
            if k < scan.len() {
                assert(scan[k] == n);
            }
        }
    }
}

/// Prints the entry point of the application in the package `binary_crate`, which calls
/// `user_fn`; `inner` is the source of that function under its new name.
pub fn emit_main_with(
    binary_crate: &str,
    args: &MainArgs,
    user_fn: &FnItem,
    inner: &Result<String, String>,
) -> (res: String)
    ensures
        res@ == main_source(
            binary_crate@,
            args.scan.deep_view(),
            user_fn.source@,
            crate::syntax::outcome(*inner),
            user_fn.params@.len(),
        ),
{
    let arity = user_fn.params.len();
    if arity > 1 {
        return Slots::new().with("user", user_fn.source.as_str()).fill(TOO_MANY_PARAMETERS);
    }
    let linked = participating(args.scan.as_slice());
    let mut expected = linked.clone();
    expected.add(binary_crate);
    proof {
        let scan = args.scan.deep_view();
        listing_is(linked@, scan);
        listing_with(linked@, expected@, scan, binary_crate@);
        listing_is(expected@, scan.push(binary_crate@));
    }
    let inner = match inner {
        Ok(text) => text.clone(),
        Err(_) => user_fn.source.clone(),
    };
    let body = if arity == 0 {
        "(|_app: &::leaf::boot::RunningApp| ::std::boxed::Box::pin(__leaf_async_main()))"
    } else {
        "(|__app: &::leaf::boot::RunningApp| ::std::boxed::Box::pin(__leaf_async_main(__app)))"
    };
    let slots = Slots::new().with("force_link", emit_force_link(&linked).as_str()).with(
        "manifest",
        emit_expected_manifest(&expected).as_str(),
    ).with("inner", inner.as_str()).with("binary", string_literal(binary_crate).as_str()).with(
        "body",
        body,
    );
    slots.fill(MAIN)
}

/// Prints the entry point of the application in the package `binary_crate`, which calls
/// `user_fn`.
pub fn emit_main(binary_crate: &str, args: &MainArgs, user_fn: &FnItem) -> (res: String)
    ensures
        res@ == main_source(
            binary_crate@,
            args.scan.deep_view(),
            user_fn.source@,
            renamed(user_fn.source@, INNER@),
            user_fn.params@.len(),
        ),
{
    emit_main_with(binary_crate, args, user_fn, &rename_fn(user_fn.source.as_str(), INNER))
}

/// The bean that a runner is: a component that can also be had as a runner. A generic struct
/// is none.
pub open spec fn runner_bean(item: StructItem) -> Result<Bean, Seq<char>> {
    match struct_bean(item, Stereotype::Component, None, None, Scope::Singleton) {
        Ok(bean) => if bean.is_generic {
            Err(generic_message(bean.ident))
        } else {
            Ok(Bean { provides: bean.provides.push("dyn ::leaf_core::Runner"@), ..bean })
        },
        Err(message) => Err(message),
    }
}

/// The bean that a runner is.
pub fn runner_input(item: &StructItem) -> (res: Result<BeanInput, EmitError>)
    ensures
        told(res) == runner_bean(*item),
{
    let mut input = match struct_input(
        item,
        Stereotype::Component,
        None,
        None,
        Scope::Singleton,
    ) {
        Ok(input) => input,
        Err(e) => return Err(e),
    };
    if input.is_generic {
        return error(generic_text(input.ident.as_str()));
    }
    let ghost before = input@;
    input.provides.push(ServiceView { dyn_ty: "dyn ::leaf_core::Runner".to_string() });
    assert(input@.provides =~= before.provides.push("dyn ::leaf_core::Runner"@));
    Ok(input)
}

/// The function that makes a runner of a bean, and its row.
pub const RUNNER: &'static str = "#[allow(non_upper_case_globals, non_snake_case, missing_docs)]
pub fn __leaf_runner_upcast_#mangled(
    __bean: ::leaf_core::ErasedBean,
) -> ::core::option::Option<::std::sync::Arc<dyn ::leaf_core::Runner>> {
    __bean.downcast::<#ident>().ok().map(|__a| __a as ::std::sync::Arc<dyn ::leaf_core::Runner>)
}
#[allow(non_upper_case_globals)]
#[::leaf_core::linkme::distributed_slice(::leaf_core::RUNNER_PAIRINGS)]
#[linkme(crate = ::leaf_core::linkme)]
static __LEAF_RUNNER_PAIRING_#mangled: ::leaf_core::RunnerPairingRow = ::leaf_core::RunnerPairingRow {
    contract: #contract,
    upcast: __leaf_runner_upcast_#mangled,
    order: ::leaf_core::OrderKey::implicit(),
};
";

/// The function that makes a runner of a bean, and its row.
pub open spec fn runner_upcast_source(ident: Seq<char>) -> Seq<char> {
    filled(
        RUNNER@,
        no_slots().push(("mangled"@, mangled(ident))).push(("ident"@, ident)).push(
            ("contract"@, contract_here(ident)),
        ),
    )
}

/// Prints the function that makes a runner of the bean `ident`, and its row.
pub fn emit_runner_upcast(ident: &str) -> (res: String)
    ensures
        res@ == runner_upcast_source(ident@),
{
    let slots = Slots::new().with("mangled", mangle(ident).as_str()).with("ident", ident).with(
        "contract",
        contract_text(ident).as_str(),
    );
    slots.fill(RUNNER)
}

/// Pieces of the template, where they stand in it.
#[verifier::spinoff_prover]
#[verifier::rlimit(60)]
proof fn runner_pieces()
    ensures
        RUNNER@.len() == 674,
        RUNNER@.subrange(62, 100) == "\npub fn __leaf_runner_upcast_"@ + seq!['#'] + "mangled"@ + "("@,
        !is_name_char(RUNNER@[62]),
        !is_name_char(RUNNER@[100]),
        RUNNER@.subrange(210, 247) == "\n    __bean.downcast::<"@ + seq!['#'] + "ident"@ + ">().ok()"@,
        !is_name_char(RUNNER@[210]),
        !is_name_char(RUNNER@[247]),
        RUNNER@.subrange(344, 414) == "[::leaf_core::linkme::distributed_slice(::leaf_core::RUNNER_PAIRINGS)]"@,
        !is_name_char(RUNNER@[344]),
        !is_name_char(RUNNER@[414]),
        RUNNER@.subrange(556, 624) == "\n    contract: "@ + seq!['#'] + "contract"@ + (",\n    upcast: __leaf_runner_upcast_"@ + seq!['#'] + "mangled"@ + ","@),
        !is_name_char(RUNNER@[556]),
        !is_name_char(RUNNER@[624]),
{
    reveal_strlit(
        "#[allow(non_upper_case_globals, non_snake_case, missing_docs)]
pub fn __leaf_runner_upcast_#mangled(
    __bean: ::leaf_core::ErasedBean,
) -> ::core::option::Option<::std::sync::Arc<dyn ::leaf_core::Runner>> {
    __bean.downcast::<#ident>().ok().map(|__a| __a as ::std::sync::Arc<dyn ::leaf_core::Runner>)
}
#[allow(non_upper_case_globals)]
#[::leaf_core::linkme::distributed_slice(::leaf_core::RUNNER_PAIRINGS)]
#[linkme(crate = ::leaf_core::linkme)]
static __LEAF_RUNNER_PAIRING_#mangled: ::leaf_core::RunnerPairingRow = ::leaf_core::RunnerPairingRow {
    contract: #contract,
    upcast: __leaf_runner_upcast_#mangled,
    order: ::leaf_core::OrderKey::implicit(),
};
",
    );
    reveal_strlit("\n    __bean.downcast::<");
    reveal_strlit("\n    contract: ");
    reveal_strlit("\npub fn __leaf_runner_upcast_");
    reveal_strlit("(");
    reveal_strlit(",");
    reveal_strlit(",\n    upcast: __leaf_runner_upcast_");
    reveal_strlit(">().ok()");
    reveal_strlit("[::leaf_core::linkme::distributed_slice(::leaf_core::RUNNER_PAIRINGS)]");
    reveal_strlit("contract");
    reveal_strlit("ident");
    reveal_strlit("mangled");
    assert(RUNNER@.subrange(62, 100) =~= "\npub fn __leaf_runner_upcast_"@ + seq!['#'] + "mangled"@ + "("@);
    assert(RUNNER@.subrange(210, 247) =~= "\n    __bean.downcast::<"@ + seq!['#'] + "ident"@ + ">().ok()"@);
    assert(RUNNER@.subrange(344, 414) =~= "[::leaf_core::linkme::distributed_slice(::leaf_core::RUNNER_PAIRINGS)]"@);
    assert(RUNNER@.subrange(556, 624) =~= "\n    contract: "@ + seq!['#'] + "contract"@ + (",\n    upcast: __leaf_runner_upcast_"@ + seq!['#'] + "mangled"@ + ","@));
}

/// What the slots of the template hold.
proof fn runner_slots_are_found(ident: Seq<char>)
    ensures
        ({
            let slots = no_slots().push(("mangled"@, mangled(ident))).push(("ident"@, ident)).push(
                ("contract"@, contract_here(ident)),
            );
            &&& slot_text(slots, "mangled"@) == Some(mangled(ident))
            &&& slot_text(slots, "ident"@) == Some(ident)
            &&& slot_text(slots, "contract"@) == Some(contract_here(ident))
        }),
{
    reveal_strlit("mangled");
    reveal_strlit("ident");
    reveal_strlit("contract");
    let slots = no_slots().push(("mangled"@, mangled(ident))).push(("ident"@, ident)).push(
                ("contract"@, contract_here(ident)),
            );
    slot_at(slots, 0);
    assert("mangled"@.len() != "ident"@.len());
    slot_at(slots, 1);
    assert("mangled"@.len() != "contract"@.len());
    assert("ident"@.len() != "contract"@.len());
    slot_at(slots, 2);
}

/// A runner is had from the bean of its type, and is paired with its contract.
#[verifier::spinoff_prover]
#[verifier::rlimit(60)]
pub proof fn runner_is_had_from_its_bean(ident: Seq<char>)
    ensures
        stands_in(
            "\npub fn __leaf_runner_upcast_"@ + mangled(ident) + "("@,
            runner_upcast_source(ident),
        ),
        stands_in(
            "\n    __bean.downcast::<"@ + ident + ">().ok()"@,
            runner_upcast_source(ident),
        ),
        stands_in(
            "[::leaf_core::linkme::distributed_slice(::leaf_core::RUNNER_PAIRINGS)]"@,
            runner_upcast_source(ident),
        ),
        stands_in(
            "\n    contract: "@ + contract_here(ident) + ",\n    upcast: __leaf_runner_upcast_"@ + mangled(ident) + ","@,
            runner_upcast_source(ident),
        ),
{
    runner_pieces();
    runner_slots_are_found(ident);
    let t = RUNNER@;
    let slots = no_slots().push(("mangled"@, mangled(ident))).push(("ident"@, ident)).push(
                ("contract"@, contract_here(ident)),
            );
    assert(stands_in("\npub fn __leaf_runner_upcast_"@ + mangled(ident) + "("@,runner_upcast_source(ident))) by {
        reveal_strlit("mangled");
        reveal_strlit("\npub fn __leaf_runner_upcast_");
        reveal_strlit("(");
        let p1 = "("@;
        let p0 = "\npub fn __leaf_runner_upcast_"@ + seq!['#'] + "mangled"@ + p1;
        filled_plain(p1, slots);
        filled_step("\npub fn __leaf_runner_upcast_"@, "mangled"@, p1, slots);
        filled_part(t, 62, 100, slots);
        assert(("\npub fn __leaf_runner_upcast_"@ + mangled(ident) + "("@) =~= "\npub fn __leaf_runner_upcast_"@ + mangled(ident) + "("@);
    }
    assert(stands_in("\n    __bean.downcast::<"@ + ident + ">().ok()"@,runner_upcast_source(ident))) by {
        reveal_strlit("ident");
        reveal_strlit("\n    __bean.downcast::<");
        reveal_strlit(">().ok()");
        let p1 = ">().ok()"@;
        let p0 = "\n    __bean.downcast::<"@ + seq!['#'] + "ident"@ + p1;
        filled_plain(p1, slots);
        filled_step("\n    __bean.downcast::<"@, "ident"@, p1, slots);
        filled_part(t, 210, 247, slots);
        assert(("\n    __bean.downcast::<"@ + ident + ">().ok()"@) =~= "\n    __bean.downcast::<"@ + ident + ">().ok()"@);
    }
    assert(stands_in("[::leaf_core::linkme::distributed_slice(::leaf_core::RUNNER_PAIRINGS)]"@,runner_upcast_source(ident))) by {
        reveal_strlit("[::leaf_core::linkme::distributed_slice(::leaf_core::RUNNER_PAIRINGS)]");
        let p0 = "[::leaf_core::linkme::distributed_slice(::leaf_core::RUNNER_PAIRINGS)]"@;
        filled_plain(p0, slots);
        filled_part(t, 344, 414, slots);
        assert("[::leaf_core::linkme::distributed_slice(::leaf_core::RUNNER_PAIRINGS)]"@ =~= "[::leaf_core::linkme::distributed_slice(::leaf_core::RUNNER_PAIRINGS)]"@);
    }
    assert(stands_in("\n    contract: "@ + contract_here(ident) + ",\n    upcast: __leaf_runner_upcast_"@ + mangled(ident) + ","@,runner_upcast_source(ident))) by {
        reveal_strlit("contract");
        reveal_strlit("mangled");
        reveal_strlit("\n    contract: ");
        reveal_strlit(",");
        reveal_strlit(",\n    upcast: __leaf_runner_upcast_");
        let p2 = ","@;
        let p1 = ",\n    upcast: __leaf_runner_upcast_"@ + seq!['#'] + "mangled"@ + p2;
        let p0 = "\n    contract: "@ + seq!['#'] + "contract"@ + p1;
        filled_plain(p2, slots);
        filled_step(",\n    upcast: __leaf_runner_upcast_"@, "mangled"@, p2, slots);
        filled_step("\n    contract: "@, "contract"@, p1, slots);
        filled_part(t, 556, 624, slots);
        assert(("\n    contract: "@ + contract_here(ident) + (",\n    upcast: __leaf_runner_upcast_"@ + mangled(ident) + ","@)) =~= "\n    contract: "@ + contract_here(ident) + ",\n    upcast: __leaf_runner_upcast_"@ + mangled(ident) + ","@);
    }
}

/// A runner is a component that can be had as a runner, and nothing else sets it apart; a generic one
/// is refused.
pub proof fn runner_is_a_component(item: StructItem)
    ensures
        match struct_bean(item, Stereotype::Component, None, None, Scope::Singleton) {
            Ok(bean) => if item.generic {
                runner_bean(item) is Err
            } else {
                runner_bean(item) matches Ok(b) && b.provides.len() == bean.provides.len() + 1
                    && b.provides.last() == "dyn ::leaf_core::Runner"@ && b == (Bean {
                    provides: b.provides,
                    ..bean
                })
            },
            Err(message) => runner_bean(item) == Err::<Bean, Seq<char>>(message),
        },
{
}

/// The registration of a runner.
pub open spec fn runner_source(item: StructItem) -> Result<Seq<char>, Seq<char>> {
    match runner_bean(item) {
        Err(message) => Err(message),
        Ok(bean) => match bean_source(bean) {
            Ok(rows) => Ok(rows + runner_upcast_source(item.ident@)),
            Err(message) => Err(message),
        },
    }
}

/// Prints the registration of a runner.
pub fn emit_runner(item: &StructItem) -> (res: Result<String, EmitError>)
    ensures
        told(res) == runner_source(*item),
{
    let input = match runner_input(item) {
        Ok(input) => input,
        Err(e) => return Err(e),
    };
    match emit(&input) {
        Ok(rows) => {
            let upcast = emit_runner_upcast(item.ident.as_str());
            Ok(rows.concat(upcast.as_str()))
        },
        Err(e) => Err(e),
    }
}

/// The registration of a failure analyzer.
pub const FAILURE_ANALYZER: &'static str = "#[allow(non_upper_case_globals)]
static __LEAF_ANALYZER_INSTANCE_#mangled: #ident = #ident;
#[allow(non_upper_case_globals)]
#[::leaf_core::linkme::distributed_slice(::leaf_core::FAILURE_ANALYZERS)]
#[linkme(crate = ::leaf_core::linkme)]
static __LEAF_ANALYZER_#mangled: &dyn ::leaf_core::FailureAnalyzer = &__LEAF_ANALYZER_INSTANCE_#mangled;
";

/// The rows of a runner are those of its bean, with the way to the runner behind them.
pub proof fn runner_follows_its_bean(item: StructItem, bean: Bean, rows: Seq<char>)
    requires
        runner_bean(item) == Ok::<Bean, Seq<char>>(bean),
    ensures
        bean_source(bean) == Ok::<Seq<char>, Seq<char>>(rows) ==> runner_source(item) == Ok::<
            Seq<char>,
            Seq<char>,
        >(rows + runner_upcast_source(item.ident@)),
        bean_source(bean) is Err ==> runner_source(item) is Err,
{
}

/// The source that registers a failure analyzer.
pub open spec fn failure_analyzer_source(ident: Seq<char>) -> Seq<char> {
    filled(
        FAILURE_ANALYZER@,
        no_slots().push(("mangled"@, mangled(ident))).push(("ident"@, ident)),
    )
}

/// Pieces of the template, where they stand in it.
#[verifier::spinoff_prover]
#[verifier::rlimit(60)]
proof fn failure_analyzer_pieces()
    ensures
        FAILURE_ANALYZER@.len() == 343,
        FAILURE_ANALYZER@.subrange(32, 91) == "\nstatic __LEAF_ANALYZER_INSTANCE_"@ + seq!['#'] + "mangled"@ + (": "@ + seq!['#'] + "ident"@ + (" = "@ + seq!['#'] + "ident"@ + ";"@)),
        !is_name_char(FAILURE_ANALYZER@[32]),
        !is_name_char(FAILURE_ANALYZER@[91]),
        FAILURE_ANALYZER@.subrange(126, 198) == "[::leaf_core::linkme::distributed_slice(::leaf_core::FAILURE_ANALYZERS)]"@,
        !is_name_char(FAILURE_ANALYZER@[126]),
        !is_name_char(FAILURE_ANALYZER@[198]),
        FAILURE_ANALYZER@.subrange(244, 342) == " __LEAF_ANALYZER_"@ + seq!['#'] + "mangled"@ + (": &dyn ::leaf_core::FailureAnalyzer = &__LEAF_ANALYZER_INSTANCE_"@ + seq!['#'] + "mangled"@ + ";"@),
        !is_name_char(FAILURE_ANALYZER@[244]),
        !is_name_char(FAILURE_ANALYZER@[342]),
{
    reveal_strlit(
        "#[allow(non_upper_case_globals)]
static __LEAF_ANALYZER_INSTANCE_#mangled: #ident = #ident;
#[allow(non_upper_case_globals)]
#[::leaf_core::linkme::distributed_slice(::leaf_core::FAILURE_ANALYZERS)]
#[linkme(crate = ::leaf_core::linkme)]
static __LEAF_ANALYZER_#mangled: &dyn ::leaf_core::FailureAnalyzer = &__LEAF_ANALYZER_INSTANCE_#mangled;
",
    );
    reveal_strlit("\nstatic __LEAF_ANALYZER_INSTANCE_");
    reveal_strlit(" = ");
    reveal_strlit(" __LEAF_ANALYZER_");
    reveal_strlit(": ");
    reveal_strlit(": &dyn ::leaf_core::FailureAnalyzer = &__LEAF_ANALYZER_INSTANCE_");
    reveal_strlit(";");
    reveal_strlit("[::leaf_core::linkme::distributed_slice(::leaf_core::FAILURE_ANALYZERS)]");
    reveal_strlit("ident");
    reveal_strlit("mangled");
    assert(FAILURE_ANALYZER@.subrange(32, 91) =~= "\nstatic __LEAF_ANALYZER_INSTANCE_"@ + seq!['#'] + "mangled"@ + (": "@ + seq!['#'] + "ident"@ + (" = "@ + seq!['#'] + "ident"@ + ";"@)));
    assert(FAILURE_ANALYZER@.subrange(126, 198) =~= "[::leaf_core::linkme::distributed_slice(::leaf_core::FAILURE_ANALYZERS)]"@);
    assert(FAILURE_ANALYZER@.subrange(244, 342) =~= " __LEAF_ANALYZER_"@ + seq!['#'] + "mangled"@ + (": &dyn ::leaf_core::FailureAnalyzer = &__LEAF_ANALYZER_INSTANCE_"@ + seq!['#'] + "mangled"@ + ";"@));
}

/// What the slots of the template hold.
proof fn failure_analyzer_slots_are_found(ident: Seq<char>)
    ensures
        ({
            let slots = no_slots().push(("mangled"@, mangled(ident))).push(("ident"@, ident));
            &&& slot_text(slots, "mangled"@) == Some(mangled(ident))
            &&& slot_text(slots, "ident"@) == Some(ident)
        }),
{
    reveal_strlit("mangled");
    reveal_strlit("ident");
    let slots = no_slots().push(("mangled"@, mangled(ident))).push(("ident"@, ident));
    slot_at(slots, 0);
    assert("mangled"@.len() != "ident"@.len());
    slot_at(slots, 1);
}

/// A failure analyzer is collected as an instance of its own.
#[verifier::spinoff_prover]
#[verifier::rlimit(60)]
pub proof fn failure_analyzer_is_collected(ident: Seq<char>)
    ensures
        stands_in(
            "\nstatic __LEAF_ANALYZER_INSTANCE_"@ + mangled(ident) + ": "@ + ident + " = "@ + ident + ";"@,
            failure_analyzer_source(ident),
        ),
        stands_in(
            "[::leaf_core::linkme::distributed_slice(::leaf_core::FAILURE_ANALYZERS)]"@,
            failure_analyzer_source(ident),
        ),
        stands_in(
            " __LEAF_ANALYZER_"@ + mangled(ident) + ": &dyn ::leaf_core::FailureAnalyzer = &__LEAF_ANALYZER_INSTANCE_"@ + mangled(ident) + ";"@,
            failure_analyzer_source(ident),
        ),
{
    failure_analyzer_pieces();
    failure_analyzer_slots_are_found(ident);
    let t = FAILURE_ANALYZER@;
    let slots = no_slots().push(("mangled"@, mangled(ident))).push(("ident"@, ident));
    assert(stands_in("\nstatic __LEAF_ANALYZER_INSTANCE_"@ + mangled(ident) + ": "@ + ident + " = "@ + ident + ";"@,failure_analyzer_source(ident))) by {
        reveal_strlit("ident");
        reveal_strlit("mangled");
        reveal_strlit("\nstatic __LEAF_ANALYZER_INSTANCE_");
        reveal_strlit(" = ");
        reveal_strlit(": ");
        reveal_strlit(";");
        let p3 = ";"@;
        let p2 = " = "@ + seq!['#'] + "ident"@ + p3;
        let p1 = ": "@ + seq!['#'] + "ident"@ + p2;
        let p0 = "\nstatic __LEAF_ANALYZER_INSTANCE_"@ + seq!['#'] + "mangled"@ + p1;
        filled_plain(p3, slots);
        filled_step(" = "@, "ident"@, p3, slots);
        filled_step(": "@, "ident"@, p2, slots);
        filled_step("\nstatic __LEAF_ANALYZER_INSTANCE_"@, "mangled"@, p1, slots);
        filled_part(t, 32, 91, slots);
        assert(("\nstatic __LEAF_ANALYZER_INSTANCE_"@ + mangled(ident) + (": "@ + ident + (" = "@ + ident + ";"@))) =~= "\nstatic __LEAF_ANALYZER_INSTANCE_"@ + mangled(ident) + ": "@ + ident + " = "@ + ident + ";"@);
    }
    assert(stands_in("[::leaf_core::linkme::distributed_slice(::leaf_core::FAILURE_ANALYZERS)]"@,failure_analyzer_source(ident))) by {
        reveal_strlit("[::leaf_core::linkme::distributed_slice(::leaf_core::FAILURE_ANALYZERS)]");
        let p0 = "[::leaf_core::linkme::distributed_slice(::leaf_core::FAILURE_ANALYZERS)]"@;
        filled_plain(p0, slots);
        filled_part(t, 126, 198, slots);
        assert("[::leaf_core::linkme::distributed_slice(::leaf_core::FAILURE_ANALYZERS)]"@ =~= "[::leaf_core::linkme::distributed_slice(::leaf_core::FAILURE_ANALYZERS)]"@);
    }
    assert(stands_in(" __LEAF_ANALYZER_"@ + mangled(ident) + ": &dyn ::leaf_core::FailureAnalyzer = &__LEAF_ANALYZER_INSTANCE_"@ + mangled(ident) + ";"@,failure_analyzer_source(ident))) by {
        reveal_strlit("mangled");
        reveal_strlit(" __LEAF_ANALYZER_");
        reveal_strlit(": &dyn ::leaf_core::FailureAnalyzer = &__LEAF_ANALYZER_INSTANCE_");
        reveal_strlit(";");
        let p2 = ";"@;
        let p1 = ": &dyn ::leaf_core::FailureAnalyzer = &__LEAF_ANALYZER_INSTANCE_"@ + seq!['#'] + "mangled"@ + p2;
        let p0 = " __LEAF_ANALYZER_"@ + seq!['#'] + "mangled"@ + p1;
        filled_plain(p2, slots);
        filled_step(": &dyn ::leaf_core::FailureAnalyzer = &__LEAF_ANALYZER_INSTANCE_"@, "mangled"@, p2, slots);
        filled_step(" __LEAF_ANALYZER_"@, "mangled"@, p1, slots);
        filled_part(t, 244, 342, slots);
        assert((" __LEAF_ANALYZER_"@ + mangled(ident) + (": &dyn ::leaf_core::FailureAnalyzer = &__LEAF_ANALYZER_INSTANCE_"@ + mangled(ident) + ";"@)) =~= " __LEAF_ANALYZER_"@ + mangled(ident) + ": &dyn ::leaf_core::FailureAnalyzer = &__LEAF_ANALYZER_INSTANCE_"@ + mangled(ident) + ";"@);
    }
}

/// Prints the registration of the failure analyzer `ident`.
pub fn emit_failure_analyzer(ident: &str) -> (res: String)
    ensures
        res@ == failure_analyzer_source(ident@),
{
    let slots = Slots::new().with("mangled", mangle(ident).as_str()).with("ident", ident);
    slots.fill(FAILURE_ANALYZER)
}

} // verus!
