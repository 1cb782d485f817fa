//! Event listeners: the arguments of their attributes, and the source that registers them.
use vstd::prelude::*;

use crate::args::{
    arguments, assign_ident, assigns, bare_key, error, int_value, order_value, parse_arguments,
    settle, settled, str_value, text_value, told, Arg, ArgKind, EmitError, Expression, Form,
    Settings,
};
use crate::naming::{contract_here, contract_text, given_order, given_order_text, mangle, mangled};
use crate::reading::{stands_in};
use crate::template::{
    filled, filled_part, filled_plain, filled_step, is_name_char, no_slots, slot_at, slot_text,
    Slots,
};
use crate::text::{bool_source, bool_text, str_eq};

verus! {

/// When a listener hears of an event.
#[derive(Clone, Copy, Debug, PartialEq, Eq, Structural)]
pub enum Defer {
    /// When it is published.
    Inline,
    /// Before the transaction commits.
    BeforeCommit,
    /// After it has committed.
    AfterCommit,
    /// After it has rolled back.
    AfterRollback,
    /// After it has ended, either way.
    AfterCompletion,
}

impl Default for Defer {
    fn default() -> (res: Defer)
        ensures
            res == Defer::Inline,
    {
        Defer::Inline
    }
}

impl View for Defer {
    type V = Defer;

    open spec fn view(&self) -> Defer {
        *self
    }
}

/// The phase that a name stands for, or the message for a name that stands for none.
pub open spec fn phase_named(value: Seq<char>) -> Result<Defer, Seq<char>> {
    if value == "before_commit"@ {
        Ok(Defer::BeforeCommit)
    } else if value == "after_commit"@ {
        Ok(Defer::AfterCommit)
    } else if value == "after_rollback"@ {
        Ok(Defer::AfterRollback)
    } else if value == "after_completion"@ {
        Ok(Defer::AfterCompletion)
    } else {
        Err(
            "unknown transactional phase `"@ + value
                + "` (expected before_commit/after_commit/after_rollback/after_completion)"@,
        )
    }
}

/// The phase as an `Option` of a `::leaf_core::TxPhase`.
pub open spec fn phase_source(defer: Defer) -> Seq<char> {
    match defer {
        Defer::Inline => "::core::option::Option::None"@,
        Defer::BeforeCommit => "::core::option::Option::Some(::leaf_core::TxPhase::BeforeCommit)"@,
        Defer::AfterCommit => "::core::option::Option::Some(::leaf_core::TxPhase::AfterCommit)"@,
        Defer::AfterRollback =>
            "::core::option::Option::Some(::leaf_core::TxPhase::AfterRollback)"@,
        Defer::AfterCompletion =>
            "::core::option::Option::Some(::leaf_core::TxPhase::AfterCompletion)"@,
    }
}

impl Defer {
    /// The phase that a name stands for.
    pub fn parse(value: &str) -> (res: Result<Defer, EmitError>)
        ensures
            told(res) == phase_named(value@),
    {
        if str_eq(value, "before_commit") {
            Ok(Defer::BeforeCommit)
        } else if str_eq(value, "after_commit") {
            Ok(Defer::AfterCommit)
        } else if str_eq(value, "after_rollback") {
            Ok(Defer::AfterRollback)
        } else if str_eq(value, "after_completion") {
            Ok(Defer::AfterCompletion)
        } else {
            error(
                "unknown transactional phase `".to_string().concat(value).concat(
                    "` (expected before_commit/after_commit/after_rollback/after_completion)",
                ),
            )
        }
    }

    /// Prints the phase.
    pub fn tokens(self) -> (res: String)
        ensures
            res@ == phase_source(self),
    {
        match self {
            Defer::Inline => "::core::option::Option::None".to_string(),
            Defer::BeforeCommit =>
                "::core::option::Option::Some(::leaf_core::TxPhase::BeforeCommit)".to_string(),
            Defer::AfterCommit =>
                "::core::option::Option::Some(::leaf_core::TxPhase::AfterCommit)".to_string(),
            Defer::AfterRollback =>
                "::core::option::Option::Some(::leaf_core::TxPhase::AfterRollback)".to_string(),
            Defer::AfterCompletion =>
                "::core::option::Option::Some(::leaf_core::TxPhase::AfterCompletion)".to_string(),
        }
    }
}

/// Each phase has its own name, in the attribute and in what is printed.
pub proof fn phases_have_their_names(value: Seq<char>)
    ensures
        phase_named("before_commit"@) == Ok::<Defer, Seq<char>>(Defer::BeforeCommit),
        phase_named("after_commit"@) == Ok::<Defer, Seq<char>>(Defer::AfterCommit),
        phase_named("after_rollback"@) == Ok::<Defer, Seq<char>>(Defer::AfterRollback),
        phase_named("after_completion"@) == Ok::<Defer, Seq<char>>(Defer::AfterCompletion),
        value != "before_commit"@ && value != "after_commit"@ && value != "after_rollback"@ && value
            != "after_completion"@ ==> phase_named(value) is Err,
        phase_source(Defer::Inline) == "::core::option::Option::None"@,
        phase_source(Defer::BeforeCommit)
            == "::core::option::Option::Some(::leaf_core::TxPhase::BeforeCommit)"@,
        phase_source(Defer::AfterCommit)
            == "::core::option::Option::Some(::leaf_core::TxPhase::AfterCommit)"@,
        phase_source(Defer::AfterRollback)
            == "::core::option::Option::Some(::leaf_core::TxPhase::AfterRollback)"@,
        phase_source(Defer::AfterCompletion)
            == "::core::option::Option::Some(::leaf_core::TxPhase::AfterCompletion)"@,
{
    reveal_strlit("before_commit");
    reveal_strlit("after_commit");
    reveal_strlit("after_rollback");
    reveal_strlit("after_completion");
    assert("before_commit"@.len() != "after_commit"@.len());
    assert("before_commit"@.len() != "after_rollback"@.len());
    assert("before_commit"@.len() != "after_completion"@.len());
    assert("after_commit"@.len() != "after_rollback"@.len());
    assert("after_commit"@.len() != "after_completion"@.len());
    assert("after_rollback"@.len() != "after_completion"@.len());
}

/// What the attribute of a listener says.
#[derive(Clone, Debug, PartialEq, Eq)]
pub struct ListenerArgs {
    /// The order, where one is given.
    pub order: Option<i32>,
    /// When the listener hears of an event.
    pub defer: Defer,
    /// Whether a condition is given.
    pub has_condition: bool,
}

impl Default for ListenerArgs {
    fn default() -> (res: ListenerArgs)
        ensures
            res == (ListenerArgs { order: None, defer: Defer::Inline, has_condition: false }),
    {
        ListenerArgs { order: None, defer: Defer::Inline, has_condition: false }
    }
}

impl View for ListenerArgs {
    type V = ListenerArgs;

    open spec fn view(&self) -> ListenerArgs {
        *self
    }
}

/// What the attribute of a listener has said so far, and which of the two it is.
pub struct ListenerSettings {
    /// Whether the attribute is the transactional one.
    pub transactional: bool,
    /// What it has said.
    pub args: ListenerArgs,
}

impl View for ListenerSettings {
    type V = ListenerSettings;

    open spec fn view(&self) -> ListenerSettings {
        *self
    }
}

/// The settings after one more argument.
pub open spec fn after_listener(s: ListenerSettings, e: Expression) -> Result<
    ListenerSettings,
    Seq<char>,
> {
    match e.kind {
        Form::Assign { left, right } => match bare_key(*left) {
            Err(message) => Err(message),
            Ok(key) => if key == "order"@ {
                match order_value(*right) {
                    Ok(n) => Ok(
                        ListenerSettings {
                            args: ListenerArgs { order: Some(n), ..s.args },
                            ..s
                        },
                    ),
                    Err(message) => Err(message),
                }
            } else if key == "condition"@ {
                match text_value(*right) {
                    Some(_) => Ok(
                        ListenerSettings {
                            args: ListenerArgs { has_condition: true, ..s.args },
                            ..s
                        },
                    ),
                    None => Err("`condition` must be a string expression"@),
                }
            } else if key == "phase"@ {
                if !s.transactional {
                    Err("`phase` is only valid on #[transactional_event_listener]"@)
                } else {
                    match text_value(*right) {
                        Some(value) => match phase_named(value) {
                            Ok(defer) => Ok(
                                ListenerSettings { args: ListenerArgs { defer, ..s.args }, ..s },
                            ),
                            Err(message) => Err(message),
                        },
                        None => Err("`phase` must be a string"@),
                    }
                }
            } else {
                Err(
                    "unknown #[event_listener] argument `"@ + key
                        + "` (expected `order`/`condition`/`phase`)"@,
                )
            },
        },
        _ => Err(
            "#[event_listener] arguments must be `key = value` pairs, got `"@ + e.source + "`"@,
        ),
    }
}

impl Settings for ListenerSettings {
    open spec fn after(settings: ListenerSettings, e: Expression) -> Result<
        ListenerSettings,
        Seq<char>,
    > {
        after_listener(settings, e)
    }

    fn apply(self, arg: &Arg) -> (res: Result<ListenerSettings, EmitError>) {
        let (left, right) = match &arg.kind {
            ArgKind::Assign { left, right } => (left, right),
            _ => return error(
                "#[event_listener] arguments must be `key = value` pairs, got `".to_string().concat(
                    arg.source.as_str(),
                ).concat("`"),
            ),
        };
        let key = match assign_ident(left) {
            Ok(key) => key,
            Err(e) => return Err(e),
        };
        let mut settings = self;
        if str_eq(key.as_str(), "order") {
            match int_value(right) {
                Ok(n) => settings.args.order = Some(n),
                Err(e) => return Err(e),
            }
        } else if str_eq(key.as_str(), "condition") {
            match str_value(right) {
                Some(_) => settings.args.has_condition = true,
                None => return error("`condition` must be a string expression".to_string()),
            }
        } else if str_eq(key.as_str(), "phase") {
            if !settings.transactional {
                return error(
                    "`phase` is only valid on #[transactional_event_listener]".to_string(),
                );
            }
            match str_value(right) {
                Some(value) => match Defer::parse(value.as_str()) {
                    Ok(defer) => settings.args.defer = defer,
                    Err(e) => return Err(e),
                },
                None => return error("`phase` must be a string".to_string()),
            }
        } else {
            return error(
                "unknown #[event_listener] argument `".to_string().concat(key.as_str()).concat(
                    "` (expected `order`/`condition`/`phase`)",
                ),
            );
        }
        Ok(settings)
    }
}

/// What an attribute that says nothing sets: a transactional listener waits for the commit.
pub open spec fn silent_listener(transactional: bool) -> ListenerSettings {
    ListenerSettings {
        transactional,
        args: ListenerArgs {
            order: None,
            defer: if transactional {
                Defer::AfterCommit
            } else {
                Defer::Inline
            },
            has_condition: false,
        },
    }
}

/// A listener is what its items come to, and is refused where one of them is.
pub proof fn items_make_the_listener(items: Seq<Expression>, transactional: bool)
    ensures
        settled::<ListenerSettings>(silent_listener(transactional), items) matches Ok(s)
            ==> listener_settings(items, transactional) == Ok::<ListenerArgs, Seq<char>>(s.args),
        settled::<ListenerSettings>(silent_listener(transactional), items) is Err
            ==> listener_settings(items, transactional) is Err,
{
}

/// What the arguments of a listener give.
pub open spec fn listener_settings(items: Seq<Expression>, transactional: bool) -> Result<
    ListenerArgs,
    Seq<char>,
> {
    match settled::<ListenerSettings>(silent_listener(transactional), items) {
        Ok(settings) => Ok(settings.args),
        Err(message) => Err(message),
    }
}

/// What the arguments of a listener give.
pub fn listener_args_of(items: &[Arg], transactional: bool) -> (res: Result<
    ListenerArgs,
    EmitError,
>)
    ensures
        told(res) == listener_settings(items.deep_view(), transactional),
{
    let start = ListenerSettings {
        transactional,
        args: ListenerArgs {
            order: None,
            defer: if transactional {
                Defer::AfterCommit
            } else {
                Defer::Inline
            },
            has_condition: false,
        },
    };
    match settle(start, items) {
        Ok(settings) => Ok(settings.args),
        Err(e) => Err(e),
    }
}

/// Reads the arguments of a listener.
pub fn parse_listener_args(attr: &str, transactional: bool) -> (res: Result<
    ListenerArgs,
    EmitError,
>)
    ensures
        told(res) == match arguments(attr@) {
            Ok(items) => listener_settings(items, transactional),
            Err(message) => Err("malformed #[event_listener] arguments: "@ + message),
        },
        attr@.len() == 0 ==> told(res) == Ok::<ListenerArgs, Seq<char>>(
            ListenerArgs {
                order: None,
                defer: if transactional {
                    Defer::AfterCommit
                } else {
                    Defer::Inline
                },
                has_condition: false,
            },
        ),
{
    match parse_arguments(attr) {
        Ok(items) => listener_args_of(items.as_slice(), transactional),
        Err(message) => error(
            "malformed #[event_listener] arguments: ".to_string().concat(message.as_str()),
        ),
    }
}

/// Each key of a listener sets what it names and leaves the rest; a phase is for transactional
/// listeners only.
pub proof fn listener_keys_set_their_own(
    s: ListenerSettings,
    e: Expression,
    key: Seq<char>,
    v: Expression,
)
    requires
        assigns(e, key, v),
    ensures
        key == "order"@ && order_value(v) is Ok ==> after_listener(s, e) == Ok::<
            ListenerSettings,
            Seq<char>,
        >(
            ListenerSettings {
                args: ListenerArgs { order: Some(order_value(v)->Ok_0), ..s.args },
                ..s
            },
        ),
        key == "condition"@ && v.kind is Str ==> after_listener(s, e) == Ok::<
            ListenerSettings,
            Seq<char>,
        >(ListenerSettings { args: ListenerArgs { has_condition: true, ..s.args }, ..s }),
        key == "phase"@ && s.transactional && v.kind is Str && phase_named(v.kind->Str_0) is Ok
            ==> after_listener(s, e) == Ok::<ListenerSettings, Seq<char>>(
            ListenerSettings {
                args: ListenerArgs { defer: phase_named(v.kind->Str_0)->Ok_0, ..s.args },
                ..s
            },
        ),
        key == "phase"@ && (!s.transactional || !(v.kind is Str) || phase_named(
            v.kind->Str_0,
        ) is Err) ==> after_listener(s, e) is Err,
        key != "order"@ && key != "condition"@ && key != "phase"@ ==> after_listener(s, e) is Err,
        silent_listener(true).args.defer == Defer::AfterCommit,
        silent_listener(false).args.defer == Defer::Inline,
        silent_listener(s.transactional).args.order is None,
        !silent_listener(s.transactional).args.has_condition,
{
    reveal_strlit("order");
    reveal_strlit("condition");
    reveal_strlit("phase");
    assert("order"@.len() != "condition"@.len());
    assert("order"@[0] != "phase"@[0]);
    assert("condition"@.len() != "phase"@.len());
}

/// The registration of a listener: what it says as public constants, and its row.
pub const LISTENER: &'static str = "#[allow(non_upper_case_globals)]
pub const __leaf_listener_order_#mangled: ::leaf_core::OrderKey = #order;
#[allow(non_upper_case_globals)]
pub const __leaf_listener_phase_#mangled: ::core::option::Option<::leaf_core::TxPhase> = #phase;
#[allow(non_upper_case_globals)]
pub const __leaf_listener_has_condition_#mangled: bool = #has_condition;
#[allow(non_upper_case_globals)]
#[::leaf_core::linkme::distributed_slice(::leaf_core::EVENT_LISTENERS)]
#[linkme(crate = ::leaf_core::linkme)]
static __LEAF_LISTENER_#mangled: ::leaf_core::EventListenerRow = ::leaf_core::EventListenerRow {
    contract: #contract,
    order: __leaf_listener_order_#mangled,
};
";

/// The source that registers a listener.
pub open spec fn listener_source(ident: Seq<char>, args: ListenerArgs) -> Seq<char> {
    filled(
        LISTENER@,
        no_slots().push(("mangled"@, mangled(ident))).push(
            (
                "order"@,
                match args.order {
                    Some(n) => given_order(n),
                    None => "::leaf_core::OrderKey::implicit()"@,
                },
            ),
        ).push(("phase"@, phase_source(args.defer))).push(
            ("has_condition"@, bool_source(args.has_condition)),
        ).push(("contract"@, contract_here(ident))),
    )
}

/// The order that a listener is printed with.
pub open spec fn listener_order(order: Option<i32>) -> Seq<char> {
    match order {
        Some(n) => given_order(n),
        None => "::leaf_core::OrderKey::implicit()"@,
    }
}

/// Pieces of the template, where they stand in it.
#[verifier::spinoff_prover]
#[verifier::rlimit(60)]
proof fn listener_pieces()
    ensures
        LISTENER@.len() == 655,
        LISTENER@.subrange(42, 106) == " __leaf_listener_order_"@ + seq!['#'] + "mangled"@ + (": ::leaf_core::OrderKey = "@ + seq!['#'] + "order"@ + ";"@),
        !is_name_char(LISTENER@[42]),
        !is_name_char(LISTENER@[106]),
        LISTENER@.subrange(149, 236) == " __leaf_listener_phase_"@ + seq!['#'] + "mangled"@ + (": ::core::option::Option<::leaf_core::TxPhase> = "@ + seq!['#'] + "phase"@ + ";"@),
        !is_name_char(LISTENER@[149]),
        !is_name_char(LISTENER@[236]),
        LISTENER@.subrange(279, 342) == " __leaf_listener_has_condition_"@ + seq!['#'] + "mangled"@ + (": bool = "@ + seq!['#'] + "has_condition"@ + ";"@),
        !is_name_char(LISTENER@[279]),
        !is_name_char(LISTENER@[342]),
        LISTENER@.subrange(377, 447) == "[::leaf_core::linkme::distributed_slice(::leaf_core::EVENT_LISTENERS)]"@,
        !is_name_char(LISTENER@[377]),
        !is_name_char(LISTENER@[447]),
        LISTENER@.subrange(583, 651) == "\n    contract: "@ + seq!['#'] + "contract"@ + (",\n    order: __leaf_listener_order_"@ + seq!['#'] + "mangled"@ + ","@),
        !is_name_char(LISTENER@[583]),
        !is_name_char(LISTENER@[651]),
{
    reveal_strlit(
        "#[allow(non_upper_case_globals)]
pub const __leaf_listener_order_#mangled: ::leaf_core::OrderKey = #order;
#[allow(non_upper_case_globals)]
pub const __leaf_listener_phase_#mangled: ::core::option::Option<::leaf_core::TxPhase> = #phase;
#[allow(non_upper_case_globals)]
pub const __leaf_listener_has_condition_#mangled: bool = #has_condition;
#[allow(non_upper_case_globals)]
#[::leaf_core::linkme::distributed_slice(::leaf_core::EVENT_LISTENERS)]
#[linkme(crate = ::leaf_core::linkme)]
static __LEAF_LISTENER_#mangled: ::leaf_core::EventListenerRow = ::leaf_core::EventListenerRow {
    contract: #contract,
    order: __leaf_listener_order_#mangled,
};
",
    );
    reveal_strlit("\n    contract: ");
    reveal_strlit(" __leaf_listener_has_condition_");
    reveal_strlit(" __leaf_listener_order_");
    reveal_strlit(" __leaf_listener_phase_");
    reveal_strlit(",");
    reveal_strlit(",\n    order: __leaf_listener_order_");
    reveal_strlit(": ::core::option::Option<::leaf_core::TxPhase> = ");
    reveal_strlit(": ::leaf_core::OrderKey = ");
    reveal_strlit(": bool = ");
    reveal_strlit(";");
    reveal_strlit("[::leaf_core::linkme::distributed_slice(::leaf_core::EVENT_LISTENERS)]");
    reveal_strlit("contract");
    reveal_strlit("has_condition");
    reveal_strlit("mangled");
    reveal_strlit("order");
    reveal_strlit("phase");
    assert(LISTENER@.subrange(42, 106) =~= " __leaf_listener_order_"@ + seq!['#'] + "mangled"@ + (": ::leaf_core::OrderKey = "@ + seq!['#'] + "order"@ + ";"@));
    assert(LISTENER@.subrange(149, 236) =~= " __leaf_listener_phase_"@ + seq!['#'] + "mangled"@ + (": ::core::option::Option<::leaf_core::TxPhase> = "@ + seq!['#'] + "phase"@ + ";"@));
    assert(LISTENER@.subrange(279, 342) =~= " __leaf_listener_has_condition_"@ + seq!['#'] + "mangled"@ + (": bool = "@ + seq!['#'] + "has_condition"@ + ";"@));
    assert(LISTENER@.subrange(377, 447) =~= "[::leaf_core::linkme::distributed_slice(::leaf_core::EVENT_LISTENERS)]"@);
    assert(LISTENER@.subrange(583, 651) =~= "\n    contract: "@ + seq!['#'] + "contract"@ + (",\n    order: __leaf_listener_order_"@ + seq!['#'] + "mangled"@ + ","@));
}

/// What the slots of the template hold.
proof fn listener_slots_are_found(ident: Seq<char>, args: ListenerArgs)
    ensures
        ({
            let slots = no_slots().push(("mangled"@, mangled(ident))).push(("order"@, listener_order(args.order))).push(
                ("phase"@, phase_source(args.defer)),
            ).push(("has_condition"@, bool_source(args.has_condition))).push(
                ("contract"@, contract_here(ident)),
            );
            &&& slot_text(slots, "mangled"@) == Some(mangled(ident))
            &&& slot_text(slots, "order"@) == Some(listener_order(args.order))
            &&& slot_text(slots, "phase"@) == Some(phase_source(args.defer))
            &&& slot_text(slots, "has_condition"@) == Some(bool_source(args.has_condition))
            &&& slot_text(slots, "contract"@) == Some(contract_here(ident))
        }),
{
    reveal_strlit("mangled");
    reveal_strlit("order");
    reveal_strlit("phase");
    reveal_strlit("has_condition");
    reveal_strlit("contract");
    let slots = no_slots().push(("mangled"@, mangled(ident))).push(("order"@, listener_order(args.order))).push(
                ("phase"@, phase_source(args.defer)),
            ).push(("has_condition"@, bool_source(args.has_condition))).push(
                ("contract"@, contract_here(ident)),
            );
    slot_at(slots, 0);
    assert("mangled"@.len() != "order"@.len());
    slot_at(slots, 1);
    assert("mangled"@.len() != "phase"@.len());
    assert("order"@[0] != "phase"@[0]);
    slot_at(slots, 2);
    assert("mangled"@.len() != "has_condition"@.len());
    assert("order"@.len() != "has_condition"@.len());
    assert("phase"@.len() != "has_condition"@.len());
    slot_at(slots, 3);
    assert("mangled"@.len() != "contract"@.len());
    assert("order"@.len() != "contract"@.len());
    assert("phase"@.len() != "contract"@.len());
    assert("has_condition"@.len() != "contract"@.len());
    slot_at(slots, 4);
}

/// A listener says its order, its phase and whether it has a condition, each in its own constant,
/// and is collected under its contract.
#[verifier::spinoff_prover]
#[verifier::rlimit(60)]
pub proof fn listener_says_its_settings(ident: Seq<char>, args: ListenerArgs)
    ensures
        stands_in(
            " __leaf_listener_order_"@ + mangled(ident) + ": ::leaf_core::OrderKey = "@ + listener_order(args.order) + ";"@,
            listener_source(ident, args),
        ),
        stands_in(
            " __leaf_listener_phase_"@ + mangled(ident) + ": ::core::option::Option<::leaf_core::TxPhase> = "@ + phase_source(args.defer) + ";"@,
            listener_source(ident, args),
        ),
        stands_in(
            " __leaf_listener_has_condition_"@ + mangled(ident) + ": bool = "@ + bool_source(args.has_condition) + ";"@,
            listener_source(ident, args),
        ),
        stands_in(
            "[::leaf_core::linkme::distributed_slice(::leaf_core::EVENT_LISTENERS)]"@,
            listener_source(ident, args),
        ),
        stands_in(
            "\n    contract: "@ + contract_here(ident) + ",\n    order: __leaf_listener_order_"@ + mangled(ident) + ","@,
            listener_source(ident, args),
        ),
{
    listener_pieces();
    listener_slots_are_found(ident, args);
    let t = LISTENER@;
    let slots = no_slots().push(("mangled"@, mangled(ident))).push(("order"@, listener_order(args.order))).push(
                ("phase"@, phase_source(args.defer)),
            ).push(("has_condition"@, bool_source(args.has_condition))).push(
                ("contract"@, contract_here(ident)),
            );
    assert(stands_in(" __leaf_listener_order_"@ + mangled(ident) + ": ::leaf_core::OrderKey = "@ + listener_order(args.order) + ";"@,listener_source(ident, args))) by {
        reveal_strlit("mangled");
        reveal_strlit("order");
        reveal_strlit(" __leaf_listener_order_");
        reveal_strlit(": ::leaf_core::OrderKey = ");
        reveal_strlit(";");
        let p2 = ";"@;
        let p1 = ": ::leaf_core::OrderKey = "@ + seq!['#'] + "order"@ + p2;
        let p0 = " __leaf_listener_order_"@ + seq!['#'] + "mangled"@ + p1;
        filled_plain(p2, slots);
        filled_step(": ::leaf_core::OrderKey = "@, "order"@, p2, slots);
        filled_step(" __leaf_listener_order_"@, "mangled"@, p1, slots);
        filled_part(t, 42, 106, slots);
        assert((" __leaf_listener_order_"@ + mangled(ident) + (": ::leaf_core::OrderKey = "@ + listener_order(args.order) + ";"@)) =~= " __leaf_listener_order_"@ + mangled(ident) + ": ::leaf_core::OrderKey = "@ + listener_order(args.order) + ";"@);
    }
    assert(stands_in(" __leaf_listener_phase_"@ + mangled(ident) + ": ::core::option::Option<::leaf_core::TxPhase> = "@ + phase_source(args.defer) + ";"@,listener_source(ident, args))) by {
        reveal_strlit("mangled");
        reveal_strlit("phase");
        reveal_strlit(" __leaf_listener_phase_");
        reveal_strlit(": ::core::option::Option<::leaf_core::TxPhase> = ");
        reveal_strlit(";");
        let p2 = ";"@;
        let p1 = ": ::core::option::Option<::leaf_core::TxPhase> = "@ + seq!['#'] + "phase"@ + p2;
        let p0 = " __leaf_listener_phase_"@ + seq!['#'] + "mangled"@ + p1;
        filled_plain(p2, slots);
        filled_step(": ::core::option::Option<::leaf_core::TxPhase> = "@, "phase"@, p2, slots);
        filled_step(" __leaf_listener_phase_"@, "mangled"@, p1, slots);
        filled_part(t, 149, 236, slots);
        assert((" __leaf_listener_phase_"@ + mangled(ident) + (": ::core::option::Option<::leaf_core::TxPhase> = "@ + phase_source(args.defer) + ";"@)) =~= " __leaf_listener_phase_"@ + mangled(ident) + ": ::core::option::Option<::leaf_core::TxPhase> = "@ + phase_source(args.defer) + ";"@);
    }
    assert(stands_in(" __leaf_listener_has_condition_"@ + mangled(ident) + ": bool = "@ + bool_source(args.has_condition) + ";"@,listener_source(ident, args))) by {
        reveal_strlit("has_condition");
        reveal_strlit("mangled");
        reveal_strlit(" __leaf_listener_has_condition_");
        reveal_strlit(": bool = ");
        reveal_strlit(";");
        let p2 = ";"@;
        let p1 = ": bool = "@ + seq!['#'] + "has_condition"@ + p2;
        let p0 = " __leaf_listener_has_condition_"@ + seq!['#'] + "mangled"@ + p1;
        filled_plain(p2, slots);
        filled_step(": bool = "@, "has_condition"@, p2, slots);
        filled_step(" __leaf_listener_has_condition_"@, "mangled"@, p1, slots);
        filled_part(t, 279, 342, slots);
        assert((" __leaf_listener_has_condition_"@ + mangled(ident) + (": bool = "@ + bool_source(args.has_condition) + ";"@)) =~= " __leaf_listener_has_condition_"@ + mangled(ident) + ": bool = "@ + bool_source(args.has_condition) + ";"@);
    }
    assert(stands_in("[::leaf_core::linkme::distributed_slice(::leaf_core::EVENT_LISTENERS)]"@,listener_source(ident, args))) by {
        reveal_strlit("[::leaf_core::linkme::distributed_slice(::leaf_core::EVENT_LISTENERS)]");
        let p0 = "[::leaf_core::linkme::distributed_slice(::leaf_core::EVENT_LISTENERS)]"@;
        filled_plain(p0, slots);
        filled_part(t, 377, 447, slots);
        assert("[::leaf_core::linkme::distributed_slice(::leaf_core::EVENT_LISTENERS)]"@ =~= "[::leaf_core::linkme::distributed_slice(::leaf_core::EVENT_LISTENERS)]"@);
    }
    assert(stands_in("\n    contract: "@ + contract_here(ident) + ",\n    order: __leaf_listener_order_"@ + mangled(ident) + ","@,listener_source(ident, args))) by {
        reveal_strlit("contract");
        reveal_strlit("mangled");
        reveal_strlit("\n    contract: ");
        reveal_strlit(",");
        reveal_strlit(",\n    order: __leaf_listener_order_");
        let p2 = ","@;
        let p1 = ",\n    order: __leaf_listener_order_"@ + seq!['#'] + "mangled"@ + p2;
        let p0 = "\n    contract: "@ + seq!['#'] + "contract"@ + p1;
        filled_plain(p2, slots);
        filled_step(",\n    order: __leaf_listener_order_"@, "mangled"@, p2, slots);
        filled_step("\n    contract: "@, "contract"@, p1, slots);
        filled_part(t, 583, 651, slots);
        assert(("\n    contract: "@ + contract_here(ident) + (",\n    order: __leaf_listener_order_"@ + mangled(ident) + ","@)) =~= "\n    contract: "@ + contract_here(ident) + ",\n    order: __leaf_listener_order_"@ + mangled(ident) + ","@);
    }
}

/// Prints the registration of the listener `ident`.
pub fn emit_listener(ident: &str, args: &ListenerArgs) -> (res: String)
    ensures
        res@ == listener_source(ident@, *args),
{
    let order = match args.order {
        Some(n) => given_order_text(n),
        None => "::leaf_core::OrderKey::implicit()".to_string(),
    };
    let slots = Slots::new().with("mangled", mangle(ident).as_str()).with(
        "order",
        order.as_str(),
    ).with("phase", args.defer.tokens().as_str()).with(
        "has_condition",
        bool_text(args.has_condition),
    ).with("contract", contract_text(ident).as_str());
    slots.fill(LISTENER)
}

} // verus!
