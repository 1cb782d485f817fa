//! Advisors: the arguments of advice attributes, and the source that registers advisors,
//! join points and method tables.
use vstd::prelude::*;

use crate::args::{
    arguments, assign_ident, assigns, bare_key, error, int_value, order_value, parse_arguments,
    settle, settled, told, Arg, ArgKind, EmitError, Expression, Form, Settings,
};
use crate::naming::{
    contract_here, contract_text, given_order, given_order_text, is_plain, last_segment,
    last_segment_text, mangle, mangled, mangled_is_kept, type_id_source, type_id_text,
};
use crate::reading::{
    followed_series, joined_lists, lists, series, stands_in, within, within_brackets,
};
use crate::syntax::{literal_source, string_literal, type_in, type_shape, TypeForm, TypeShape};
use crate::template::{
    filled, filled_part, filled_plain, filled_sign, filled_step, is_name_char, no_slots, slot_at,
    slot_text, unnamed_slot, Slots,
};
use crate::text::{
    decimal, decimal_text, each_followed, follow_each, join, join_texts, str_eq,
};

verus! {

/// When advice runs.
#[derive(Clone, Copy, Debug, PartialEq, Eq, Structural)]
pub enum AdviceKind {
    /// Before the call.
    Before,
    /// After the call, however it ends.
    After,
    /// After a call that returns.
    AfterReturning,
    /// After a call that fails.
    AfterThrowing,
    /// Around the call.
    Around,
}

/// The kind that a keyword names.
pub open spec fn kind_named(name: Seq<char>) -> Option<AdviceKind> {
    if name == "before"@ {
        Some(AdviceKind::Before)
    } else if name == "after"@ {
        Some(AdviceKind::After)
    } else if name == "after_returning"@ {
        Some(AdviceKind::AfterReturning)
    } else if name == "after_throwing"@ {
        Some(AdviceKind::AfterThrowing)
    } else if name == "around"@ {
        Some(AdviceKind::Around)
    } else {
        None
    }
}

/// The kind that a keyword names, or the message for a keyword that names none.
pub open spec fn parsed_kind(name: Seq<char>) -> Result<AdviceKind, Seq<char>> {
    match kind_named(name) {
        Some(kind) => Ok(kind),
        None => Err(
            "unknown advice kind `"@ + name
                + "` (expected before/after/after_returning/after_throwing/around)"@,
        ),
    }
}

impl View for AdviceKind {
    type V = AdviceKind;

    open spec fn view(&self) -> AdviceKind {
        *self
    }
}

/// The order of advice that gives none.
pub open spec fn implicit_order() -> Seq<char> {
    "::leaf_core::OrderKey { value: ::leaf_core::DEFAULT_ORDER, source: ::leaf_core::OrderSource::Implicit }"@
}

impl AdviceKind {
    /// The kind that a keyword names.
    pub fn parse(name: &str) -> (res: Result<AdviceKind, EmitError>)
        ensures
            told(res) == parsed_kind(name@),
    {
        if str_eq(name, "before") {
            Ok(AdviceKind::Before)
        } else if str_eq(name, "after") {
            Ok(AdviceKind::After)
        } else if str_eq(name, "after_returning") {
            Ok(AdviceKind::AfterReturning)
        } else if str_eq(name, "after_throwing") {
            Ok(AdviceKind::AfterThrowing)
        } else if str_eq(name, "around") {
            Ok(AdviceKind::Around)
        } else {
            error(
                "unknown advice kind `".to_string().concat(name).concat(
                    "` (expected before/after/after_returning/after_throwing/around)",
                ),
            )
        }
    }

    /// The order of advice of this kind that gives none.
    pub fn order_tokens(self) -> (res: String)
        ensures
            res@ == implicit_order(),
    {
        "::leaf_core::OrderKey { value: ::leaf_core::DEFAULT_ORDER, source: ::leaf_core::OrderSource::Implicit }"
            .to_string()
    }
}

/// Each name of a kind of advice stands for that kind, and no other name for any.
pub proof fn advice_kinds_have_their_names(name: Seq<char>)
    ensures
        parsed_kind("before"@) == Ok::<AdviceKind, Seq<char>>(AdviceKind::Before),
        parsed_kind("after"@) == Ok::<AdviceKind, Seq<char>>(AdviceKind::After),
        parsed_kind("after_returning"@) == Ok::<AdviceKind, Seq<char>>(AdviceKind::AfterReturning),
        parsed_kind("after_throwing"@) == Ok::<AdviceKind, Seq<char>>(AdviceKind::AfterThrowing),
        parsed_kind("around"@) == Ok::<AdviceKind, Seq<char>>(AdviceKind::Around),
        name != "before"@ && name != "after"@ && name != "after_returning"@ && name
            != "after_throwing"@ && name != "around"@ ==> parsed_kind(name) is Err,
{
    reveal_strlit("before");
    reveal_strlit("after");
    reveal_strlit("after_returning");
    reveal_strlit("after_throwing");
    reveal_strlit("around");
    assert("before"@.len() != "after"@.len());
    assert("before"@.len() != "after_returning"@.len());
    assert("before"@.len() != "after_throwing"@.len());
    assert("before"@[0] != "around"@[0]);
    assert("after"@.len() != "after_returning"@.len());
    assert("after"@.len() != "after_throwing"@.len());
    assert("after"@.len() != "around"@.len());
    assert("after_returning"@.len() != "after_throwing"@.len());
    assert("after_returning"@.len() != "around"@.len());
    assert("after_throwing"@.len() != "around"@.len());
}

/// What the attribute of an advisor says.
#[derive(Clone, Debug, Default, PartialEq, Eq)]
pub struct AdvisorArgs {
    /// The order, where one is given.
    pub order: Option<i32>,
}

impl View for AdvisorArgs {
    type V = Option<i32>;

    /// The order.
    open spec fn view(&self) -> Option<i32> {
        self.order
    }
}

/// What the attribute of advice says.
pub struct AdviceSettings {
    /// When it runs, where that is given.
    pub kind: Option<AdviceKind>,
    /// The other arguments.
    pub args: AdvisorArgs,
}

impl View for AdviceSettings {
    type V = (Option<AdviceKind>, Option<i32>);

    open spec fn view(&self) -> (Option<AdviceKind>, Option<i32>) {
        (self.kind, self.args.order)
    }
}

/// The kind and the order after one more argument. The first kind that is given stays.
pub open spec fn after_advice(s: (Option<AdviceKind>, Option<i32>), e: Expression) -> Result<
    (Option<AdviceKind>, Option<i32>),
    Seq<char>,
> {
    match e.kind {
        Form::Path { ident: None, .. } => Err("an #[advice] kind must be a bare identifier"@),
        Form::Path { ident: Some(name), .. } => match parsed_kind(name) {
            Ok(kind) => Ok(
                (
                    if s.0 is Some {
                        s.0
                    } else {
                        Some(kind)
                    },
                    s.1,
                ),
            ),
            Err(message) => Err(message),
        },
        Form::Assign { left, right } => match bare_key(*left) {
            Err(message) => Err(message),
            Ok(key) => if key != "order"@ {
                Err("unknown #[advice] argument `"@ + key + "` (expected `order`)"@)
            } else {
                match order_value(*right) {
                    Ok(n) => Ok((s.0, Some(n))),
                    Err(message) => Err(message),
                }
            },
        },
        _ => Err(
            "unexpected #[advice] argument `"@ + e.source
                + "` (expected a kind keyword or `order = N`)"@,
        ),
    }
}

impl Settings for AdviceSettings {
    open spec fn after(settings: (Option<AdviceKind>, Option<i32>), e: Expression) -> Result<
        (Option<AdviceKind>, Option<i32>),
        Seq<char>,
    > {
        after_advice(settings, e)
    }

    fn apply(self, arg: &Arg) -> (res: Result<AdviceSettings, EmitError>) {
        match &arg.kind {
            ArgKind::Path { ident: None, .. } => error(
                "an #[advice] kind must be a bare identifier".to_string(),
            ),
            ArgKind::Path { ident: Some(name), .. } => match AdviceKind::parse(name.as_str()) {
                Ok(kind) => {
                    let first = match self.kind {
                        Some(first) => first,
                        None => kind,
                    };
                    Ok(AdviceSettings { kind: Some(first), args: self.args })
                },
                Err(e) => Err(e),
            },
            ArgKind::Assign { left, right } => {
                let key = match assign_ident(left) {
                    Ok(key) => key,
                    Err(e) => return Err(e),
                };
                if !str_eq(key.as_str(), "order") {
                    return error(
                        "unknown #[advice] argument `".to_string().concat(key.as_str()).concat(
                            "` (expected `order`)",
                        ),
                    );
                }
                match int_value(right) {
                    Ok(n) => Ok(
                        AdviceSettings { kind: self.kind, args: AdvisorArgs { order: Some(n) } },
                    ),
                    Err(e) => Err(e),
                }
            },
            _ => error(
                "unexpected #[advice] argument `".to_string().concat(arg.source.as_str()).concat(
                    "` (expected a kind keyword or `order = N`)",
                ),
            ),
        }
    }
}

/// What the arguments of advice set. Advice of which no kind is given goes around.
pub open spec fn advice_settings(items: Seq<Expression>) -> Result<
    (AdviceKind, Option<i32>),
    Seq<char>,
> {
    match settled::<AdviceSettings>((None, None), items) {
        Ok((Some(kind), order)) => Ok((kind, order)),
        Ok((None, order)) => Ok((AdviceKind::Around, order)),
        Err(message) => Err(message),
    }
}

/// The kind and the order that the arguments of advice give.
pub fn advice_args_of(items: &[Arg]) -> (res: Result<(AdviceKind, AdvisorArgs), EmitError>)
    ensures
        told(res) == advice_settings(items.deep_view()),
{
    match settle(AdviceSettings { kind: None, args: AdvisorArgs { order: None } }, items) {
        Ok(settings) => {
            let kind = match settings.kind {
                Some(kind) => kind,
                None => AdviceKind::Around,
            };
            Ok((kind, settings.args))
        },
        Err(e) => Err(e),
    }
}

/// What the source of the arguments of advice gives.
pub open spec fn advice_arguments(attr: Seq<char>) -> Result<(AdviceKind, Option<i32>), Seq<char>> {
    match arguments(attr) {
        Ok(items) => advice_settings(items),
        Err(message) => Err("malformed #[advice] arguments: "@ + message),
    }
}

/// Reads the arguments of advice.
pub fn parse_advice_args(attr: &str) -> (res: Result<(AdviceKind, AdvisorArgs), EmitError>)
    ensures
        told(res) == advice_arguments(attr@),
        attr@.len() == 0 ==> told(res) == Ok::<(AdviceKind, Option<i32>), Seq<char>>(
            (AdviceKind::Around, None),
        ),
{
    match parse_arguments(attr) {
        Ok(items) => advice_args_of(items.as_slice()),
        Err(message) => error(
            "malformed #[advice] arguments: ".to_string().concat(message.as_str()),
        ),
    }
}

/// The order after one more argument of an advisor.
pub open spec fn after_advisor(order: Option<i32>, e: Expression) -> Result<
    Option<i32>,
    Seq<char>,
> {
    match e.kind {
        Form::Assign { left, right } => match bare_key(*left) {
            Err(message) => Err(message),
            Ok(key) => if key != "order"@ {
                Err("unknown advisor argument `"@ + key + "` (expected `order`)"@)
            } else {
                match order_value(*right) {
                    Ok(n) => Ok(Some(n)),
                    Err(message) => Err(message),
                }
            },
        },
        _ => Err("unexpected advisor argument `"@ + e.source + "` (expected `order = N`)"@),
    }
}

impl Settings for AdvisorArgs {
    open spec fn after(settings: Option<i32>, e: Expression) -> Result<Option<i32>, Seq<char>> {
        after_advisor(settings, e)
    }

    fn apply(self, arg: &Arg) -> (res: Result<AdvisorArgs, EmitError>) {
        match &arg.kind {
            ArgKind::Assign { left, right } => {
                let key = match assign_ident(left) {
                    Ok(key) => key,
                    Err(e) => return Err(e),
                };
                if !str_eq(key.as_str(), "order") {
                    return error(
                        "unknown advisor argument `".to_string().concat(key.as_str()).concat(
                            "` (expected `order`)",
                        ),
                    );
                }
                match int_value(right) {
                    Ok(n) => Ok(AdvisorArgs { order: Some(n) }),
                    Err(e) => Err(e),
                }
            },
            _ => error(
                "unexpected advisor argument `".to_string().concat(arg.source.as_str()).concat(
                    "` (expected `order = N`)",
                ),
            ),
        }
    }
}

/// What the arguments of an advisor set, from an attribute that says nothing.
pub open spec fn advisor_settings(items: Seq<Expression>) -> Result<Option<i32>, Seq<char>> {
    settled::<AdvisorArgs>(None, items)
}

/// What the arguments of an advisor give.
pub fn advisor_args_of(items: &[Arg]) -> (res: Result<AdvisorArgs, EmitError>)
    ensures
        told(res) == advisor_settings(items.deep_view()),
{
    settle(AdvisorArgs { order: None }, items)
}

/// What the source of the arguments of an advisor gives.
pub open spec fn advisor_arguments(attr: Seq<char>) -> Result<Option<i32>, Seq<char>> {
    match arguments(attr) {
        Ok(items) => advisor_settings(items),
        Err(message) => Err("malformed advisor arguments: "@ + message),
    }
}

/// Reads the arguments of an advisor.
pub fn parse_advisor_args(attr: &str) -> (res: Result<AdvisorArgs, EmitError>)
    ensures
        told(res) == advisor_arguments(attr@),
        attr@.len() == 0 ==> told(res) == Ok::<Option<i32>, Seq<char>>(None),
{
    match parse_arguments(attr) {
        Ok(items) => advisor_args_of(items.as_slice()),
        Err(message) => error("malformed advisor arguments: ".to_string().concat(message.as_str())),
    }
}

/// The order of an advisor: the one given, or the one of advice that gives none.
pub open spec fn order_source(order: Option<i32>) -> Seq<char> {
    match order {
        Some(n) => given_order(n),
        None => implicit_order(),
    }
}

/// Prints the order of an advisor.
fn order_text(order: Option<i32>) -> (res: String)
    ensures
        res@ == order_source(order),
{
    match order {
        Some(n) => given_order_text(n),
        None => AdviceKind::Around.order_tokens(),
    }
}

/// The first kind that advice is given counts, and the last order; without a kind it goes round the
/// call. An advisor takes an order and nothing else.
pub proof fn advice_keys_set_their_own(
    s: (Option<AdviceKind>, Option<i32>),
    e: Expression,
    name: Seq<char>,
    v: Expression,
    items: Seq<Expression>,
)
    ensures
        e.kind matches Form::Path { ident: Some(ident), .. } && parsed_kind(ident) is Ok
            ==> after_advice(s, e) == Ok::<(Option<AdviceKind>, Option<i32>), Seq<char>>(
            (
                if s.0 is Some {
                    s.0
                } else {
                    Some(parsed_kind(e.kind->ident->0)->Ok_0)
                },
                s.1,
            ),
        ),
        assigns(e, "order"@, v) && order_value(v) is Ok ==> after_advice(s, e) == Ok::<
            (Option<AdviceKind>, Option<i32>),
            Seq<char>,
        >((s.0, Some(order_value(v)->Ok_0))) && after_advisor(s.1, e) == Ok::<
            Option<i32>,
            Seq<char>,
        >(Some(order_value(v)->Ok_0)),
        assigns(e, name, v) && name != "order"@ ==> after_advice(s, e) is Err && after_advisor(
            s.1,
            e,
        ) is Err,
        settled::<AdviceSettings>((None, None), items) matches Ok((kind, order)) ==> advice_settings(
            items,
        ) == Ok::<(AdviceKind, Option<i32>), Seq<char>>(
            (
                match kind {
                    Some(kind) => kind,
                    None => AdviceKind::Around,
                },
                order,
            ),
        ),
{
}

/// An order that is given is printed; otherwise the default one is, marked as not given.
pub proof fn order_is_the_one_given(n: i32)
    ensures
        order_source(Some(n)) == given_order(n),
        order_source(None)
            == "::leaf_core::OrderKey { value: ::leaf_core::DEFAULT_ORDER, source: ::leaf_core::OrderSource::Implicit }"@,
{
}

/// The registration of an advisor: its order as a public constant, and its row.
pub const ADVISOR: &'static str = "#[allow(non_upper_case_globals)]
pub const __leaf_advisor_#mangled: ::leaf_core::OrderKey = #order;
#[::leaf_core::linkme::distributed_slice(::leaf_core::ADVISORS)]
#[linkme(crate = ::leaf_core::linkme)]
static __LEAF_ADVISOR_#mangled: ::leaf_core::AdvisorRow = ::leaf_core::AdvisorRow {
    contract: #contract,
    order: __leaf_advisor_#mangled,
};
";

/// The source that registers an advisor, or the message for a generic one.
pub open spec fn advisor_source(ident: Seq<char>, order: Option<i32>, is_generic: bool) -> Result<
    Seq<char>,
    Seq<char>,
> {
    if is_generic {
        Err(
            "`"@ + ident
                + "` is a generic aspect: a generic aspect has no single concrete type to register as a const advisor row. Register a concrete instantiation with `register_proxy!("@
                + ident + "<Concrete>)`."@,
        )
    } else {
        Ok(
            filled(
                ADVISOR@,
                no_slots().push(("mangled"@, mangled(ident))).push(("order"@, order_source(order))).push(("contract"@, contract_here(ident))),
            ),
        )
    }
}

/// Prints the registration of an advisor.
pub fn emit_advisor(ident: &str, kind: AdviceKind, args: &AdvisorArgs, is_generic: bool) -> (res:
    Result<String, EmitError>)
    ensures
        told(res) == advisor_source(ident@, args@, is_generic),
{
    if is_generic {
        return error(
            "`".to_string().concat(ident).concat(
                "` is a generic aspect: a generic aspect has no single concrete type to register as a const advisor row. Register a concrete instantiation with `register_proxy!(",
            ).concat(ident).concat("<Concrete>)`."),
        );
    }
    let order = match args.order {
        Some(n) => given_order_text(n),
        None => kind.order_tokens(),
    };
    let slots = Slots::new().with("mangled", mangle(ident).as_str()).with(
        "order",
        order.as_str(),
    ).with("contract", contract_text(ident).as_str());
    Ok(slots.fill(ADVISOR))
}

/// Pieces of the template, where they stand in it.
#[verifier::spinoff_prover]
#[verifier::rlimit(60)]
proof fn advisor_pieces()
    ensures
        ADVISOR@.len() == 352,
        ADVISOR@.subrange(42, 99) == " __leaf_advisor_"@ + seq!['#'] + "mangled"@ + (": ::leaf_core::OrderKey = "@ + seq!['#'] + "order"@ + ";"@),
        !is_name_char(ADVISOR@[42]),
        !is_name_char(ADVISOR@[99]),
        ADVISOR@.subrange(101, 164) == "[::leaf_core::linkme::distributed_slice(::leaf_core::ADVISORS)]"@,
        !is_name_char(ADVISOR@[101]),
        !is_name_char(ADVISOR@[164]),
        ADVISOR@.subrange(262, 348) == "::leaf_core::AdvisorRow {\n    contract: "@ + seq!['#'] + "contract"@ + (",\n    order: __leaf_advisor_"@ + seq!['#'] + "mangled"@ + ","@),
        !is_name_char(ADVISOR@[262]),
        !is_name_char(ADVISOR@[348]),
{
    reveal_strlit(
        "#[allow(non_upper_case_globals)]
pub const __leaf_advisor_#mangled: ::leaf_core::OrderKey = #order;
#[::leaf_core::linkme::distributed_slice(::leaf_core::ADVISORS)]
#[linkme(crate = ::leaf_core::linkme)]
static __LEAF_ADVISOR_#mangled: ::leaf_core::AdvisorRow = ::leaf_core::AdvisorRow {
    contract: #contract,
    order: __leaf_advisor_#mangled,
};
",
    );
    reveal_strlit(" __leaf_advisor_");
    reveal_strlit(",");
    reveal_strlit(",\n    order: __leaf_advisor_");
    reveal_strlit(": ::leaf_core::OrderKey = ");
    reveal_strlit("::leaf_core::AdvisorRow {\n    contract: ");
    reveal_strlit(";");
    reveal_strlit("[::leaf_core::linkme::distributed_slice(::leaf_core::ADVISORS)]");
    reveal_strlit("contract");
    reveal_strlit("mangled");
    reveal_strlit("order");
    assert(ADVISOR@.subrange(42, 99) =~= " __leaf_advisor_"@ + seq!['#'] + "mangled"@ + (": ::leaf_core::OrderKey = "@ + seq!['#'] + "order"@ + ";"@));
    assert(ADVISOR@.subrange(101, 164) =~= "[::leaf_core::linkme::distributed_slice(::leaf_core::ADVISORS)]"@);
    assert(ADVISOR@.subrange(262, 348) =~= "::leaf_core::AdvisorRow {\n    contract: "@ + seq!['#'] + "contract"@ + (",\n    order: __leaf_advisor_"@ + seq!['#'] + "mangled"@ + ","@));
}

/// What the slots of the template hold.
proof fn advisor_slots_are_found(ident: Seq<char>, order: Option<i32>)
    ensures
        ({
            let slots = no_slots().push(("mangled"@, mangled(ident))).push(("order"@, order_source(order))).push(("contract"@, contract_here(ident)));
            &&& slot_text(slots, "mangled"@) == Some(mangled(ident))
            &&& slot_text(slots, "order"@) == Some(order_source(order))
            &&& slot_text(slots, "contract"@) == Some(contract_here(ident))
        }),
{
    reveal_strlit("mangled");
    reveal_strlit("order");
    reveal_strlit("contract");
    let slots = no_slots().push(("mangled"@, mangled(ident))).push(("order"@, order_source(order))).push(("contract"@, contract_here(ident)));
    slot_at(slots, 0);
    assert("mangled"@.len() != "order"@.len());
    slot_at(slots, 1);
    assert("mangled"@.len() != "contract"@.len());
    assert("order"@.len() != "contract"@.len());
    slot_at(slots, 2);
}

/// An advisor is collected under its contract, with its order; a generic one is refused.
#[verifier::spinoff_prover]
#[verifier::rlimit(60)]
pub proof fn advisor_has_its_order(ident: Seq<char>, order: Option<i32>)
    ensures
        stands_in(
            " __leaf_advisor_"@ + mangled(ident) + ": ::leaf_core::OrderKey = "@ + order_source(order) + ";"@,
            advisor_source(ident, order, false)->Ok_0,
        ),
        stands_in(
            "[::leaf_core::linkme::distributed_slice(::leaf_core::ADVISORS)]"@,
            advisor_source(ident, order, false)->Ok_0,
        ),
        stands_in(
            "::leaf_core::AdvisorRow {\n    contract: "@ + contract_here(ident) + ",\n    order: __leaf_advisor_"@ + mangled(ident) + ","@,
            advisor_source(ident, order, false)->Ok_0,
        ),
        advisor_source(ident, order, true) is Err,
        advisor_source(ident, order, false) is Ok,
{
    advisor_pieces();
    advisor_slots_are_found(ident, order);
    let t = ADVISOR@;
    let slots = no_slots().push(("mangled"@, mangled(ident))).push(("order"@, order_source(order))).push(("contract"@, contract_here(ident)));
    assert(stands_in(" __leaf_advisor_"@ + mangled(ident) + ": ::leaf_core::OrderKey = "@ + order_source(order) + ";"@,advisor_source(ident, order, false)->Ok_0)) by {
        reveal_strlit("mangled");
        reveal_strlit("order");
        reveal_strlit(" __leaf_advisor_");
        reveal_strlit(": ::leaf_core::OrderKey = ");
        reveal_strlit(";");
        let p2 = ";"@;
        let p1 = ": ::leaf_core::OrderKey = "@ + seq!['#'] + "order"@ + p2;
        let p0 = " __leaf_advisor_"@ + seq!['#'] + "mangled"@ + p1;
        filled_plain(p2, slots);
        filled_step(": ::leaf_core::OrderKey = "@, "order"@, p2, slots);
        filled_step(" __leaf_advisor_"@, "mangled"@, p1, slots);
        filled_part(t, 42, 99, slots);
        assert((" __leaf_advisor_"@ + mangled(ident) + (": ::leaf_core::OrderKey = "@ + order_source(order) + ";"@)) =~= " __leaf_advisor_"@ + mangled(ident) + ": ::leaf_core::OrderKey = "@ + order_source(order) + ";"@);
    }
    assert(stands_in("[::leaf_core::linkme::distributed_slice(::leaf_core::ADVISORS)]"@,advisor_source(ident, order, false)->Ok_0)) by {
        reveal_strlit("[::leaf_core::linkme::distributed_slice(::leaf_core::ADVISORS)]");
        let p0 = "[::leaf_core::linkme::distributed_slice(::leaf_core::ADVISORS)]"@;
        filled_plain(p0, slots);
        filled_part(t, 101, 164, slots);
        assert("[::leaf_core::linkme::distributed_slice(::leaf_core::ADVISORS)]"@ =~= "[::leaf_core::linkme::distributed_slice(::leaf_core::ADVISORS)]"@);
    }
    assert(stands_in("::leaf_core::AdvisorRow {\n    contract: "@ + contract_here(ident) + ",\n    order: __leaf_advisor_"@ + mangled(ident) + ","@,advisor_source(ident, order, false)->Ok_0)) by {
        reveal_strlit("contract");
        reveal_strlit("mangled");
        reveal_strlit(",");
        reveal_strlit(",\n    order: __leaf_advisor_");
        reveal_strlit("::leaf_core::AdvisorRow {\n    contract: ");
        let p2 = ","@;
        let p1 = ",\n    order: __leaf_advisor_"@ + seq!['#'] + "mangled"@ + p2;
        let p0 = "::leaf_core::AdvisorRow {\n    contract: "@ + seq!['#'] + "contract"@ + p1;
        filled_plain(p2, slots);
        filled_step(",\n    order: __leaf_advisor_"@, "mangled"@, p2, slots);
        filled_step("::leaf_core::AdvisorRow {\n    contract: "@, "contract"@, p1, slots);
        filled_part(t, 262, 348, slots);
        assert(("::leaf_core::AdvisorRow {\n    contract: "@ + contract_here(ident) + (",\n    order: __leaf_advisor_"@ + mangled(ident) + ","@)) =~= "::leaf_core::AdvisorRow {\n    contract: "@ + contract_here(ident) + ",\n    order: __leaf_advisor_"@ + mangled(ident) + ","@);
    }
}

/// The pairing of an aspect with the interceptor that it is.
pub const ADVISOR_PAIRING: &'static str =
    "#[::leaf_core::linkme::distributed_slice(::leaf_core::ADVISOR_PAIRINGS)]
#[linkme(crate = ::leaf_core::linkme)]
static __LEAF_ADVISOR_PAIRING_#mangled: ::leaf_core::AdvisorPairingRow = ::leaf_core::AdvisorPairingRow {
    contract: #contract,
    order: #order,
    role: ::leaf_core::Role::Application,
    pointcut: &::leaf_core::Anything,
    make_interceptor: |__c: &dyn ::leaf_core::Container| {
        ::std::boxed::Box::pin(async move {
            let __published = __c
                .resolve(
                    ::leaf_core::BeanKey::ByContract(#contract),
                    ::leaf_core::Strictness::Strict,
                    ::leaf_core::Cardinality::Single,
                )
                .await?;
            let __mismatch = || ::leaf_core::LeafError::new(
                ::leaf_core::ErrorKind::ConstructionFailed,
            );
            let __erased = __published.into_shared().ok_or_else(__mismatch)?;
            match __erased.downcast::<#self_ty>() {
                ::core::result::Result::Ok(__aspect) => ::core::result::Result::Ok(
                    __aspect as ::std::sync::Arc<dyn ::leaf_core::Interceptor>,
                ),
                ::core::result::Result::Err(_) => {
                    ::core::result::Result::Err(__mismatch())
                }
            }
        })
    },
};
";

/// The source that pairs an aspect with the interceptor that it is.
pub open spec fn advisor_pairing_source(
    ident: Seq<char>,
    self_ty: Seq<char>,
    order: Option<i32>,
) -> Seq<char> {
    filled(
        ADVISOR_PAIRING@,
        no_slots().push(("mangled"@, mangled(ident))).push(("contract"@, contract_here(ident))).push(("order"@, order_source(order))).push(("self_ty"@, self_ty)),
    )
}

/// Prints the pairing of the aspect `ident`, whose type is `self_ty`, with the
/// interceptor that it is.
pub fn emit_advisor_pairing(ident: &str, self_ty: &str, args: &AdvisorArgs) -> (res: String)
    ensures
        res@ == advisor_pairing_source(ident@, self_ty@, args@),
{
    let slots = Slots::new().with("mangled", mangle(ident).as_str()).with(
        "contract",
        contract_text(ident).as_str(),
    ).with("order", order_text(args.order).as_str()).with("self_ty", self_ty);
    slots.fill(ADVISOR_PAIRING)
}

/// Pieces of the template, where they stand in it.
#[verifier::spinoff_prover]
#[verifier::rlimit(60)]
proof fn advisor_pairing_pieces()
    ensures
        ADVISOR_PAIRING@.len() == 1336,
        ADVISOR_PAIRING@.subrange(1, 72) == "[::leaf_core::linkme::distributed_slice(::leaf_core::ADVISOR_PAIRINGS)]"@,
        !is_name_char(ADVISOR_PAIRING@[1]),
        !is_name_char(ADVISOR_PAIRING@[72]),
        ADVISOR_PAIRING@.subrange(185, 341) == "::leaf_core::AdvisorPairingRow {\n    contract: "@ + seq!['#'] + "contract"@ + (",\n    order: "@ + seq!['#'] + "order"@ + ",\n    role: ::leaf_core::Role::Application,\n    pointcut: &::leaf_core::Anything,"@),
        !is_name_char(ADVISOR_PAIRING@[185]),
        !is_name_char(ADVISOR_PAIRING@[341]),
        ADVISOR_PAIRING@.subrange(504, 569) == "\n                    ::leaf_core::BeanKey::ByContract("@ + seq!['#'] + "contract"@ + "),"@,
        !is_name_char(ADVISOR_PAIRING@[504]),
        !is_name_char(ADVISOR_PAIRING@[569]),
        ADVISOR_PAIRING@.subrange(933, 1101) == "\n            match __erased.downcast::<"@ + seq!['#'] + "self_ty"@ + ">() {\n                ::core::result::Result::Ok(__aspect) => ::core::result::Result::Ok(\n                    __aspect as"@,
        !is_name_char(ADVISOR_PAIRING@[933]),
        !is_name_char(ADVISOR_PAIRING@[1101]),
{
    reveal_strlit(
        "#[::leaf_core::linkme::distributed_slice(::leaf_core::ADVISOR_PAIRINGS)]
#[linkme(crate = ::leaf_core::linkme)]
static __LEAF_ADVISOR_PAIRING_#mangled: ::leaf_core::AdvisorPairingRow = ::leaf_core::AdvisorPairingRow {
    contract: #contract,
    order: #order,
    role: ::leaf_core::Role::Application,
    pointcut: &::leaf_core::Anything,
    make_interceptor: |__c: &dyn ::leaf_core::Container| {
        ::std::boxed::Box::pin(async move {
            let __published = __c
                .resolve(
                    ::leaf_core::BeanKey::ByContract(#contract),
                    ::leaf_core::Strictness::Strict,
                    ::leaf_core::Cardinality::Single,
                )
                .await?;
            let __mismatch = || ::leaf_core::LeafError::new(
                ::leaf_core::ErrorKind::ConstructionFailed,
            );
            let __erased = __published.into_shared().ok_or_else(__mismatch)?;
            match __erased.downcast::<#self_ty>() {
                ::core::result::Result::Ok(__aspect) => ::core::result::Result::Ok(
                    __aspect as ::std::sync::Arc<dyn ::leaf_core::Interceptor>,
                ),
                ::core::result::Result::Err(_) => {
                    ::core::result::Result::Err(__mismatch())
                }
            }
        })
    },
};
",
    );
    reveal_strlit("\n                    ::leaf_core::BeanKey::ByContract(");
    reveal_strlit("\n            match __erased.downcast::<");
    reveal_strlit("),");
    reveal_strlit(",\n    order: ");
    reveal_strlit(",\n    role: ::leaf_core::Role::Application,\n    pointcut: &::leaf_core::Anything,");
    reveal_strlit("::leaf_core::AdvisorPairingRow {\n    contract: ");
    reveal_strlit(">() {\n                ::core::result::Result::Ok(__aspect) => ::core::result::Result::Ok(\n                    __aspect as");
    reveal_strlit("[::leaf_core::linkme::distributed_slice(::leaf_core::ADVISOR_PAIRINGS)]");
    reveal_strlit("contract");
    reveal_strlit("order");
    reveal_strlit("self_ty");
    assert(ADVISOR_PAIRING@.subrange(1, 72) =~= "[::leaf_core::linkme::distributed_slice(::leaf_core::ADVISOR_PAIRINGS)]"@);
    assert(ADVISOR_PAIRING@.subrange(185, 341) =~= "::leaf_core::AdvisorPairingRow {\n    contract: "@ + seq!['#'] + "contract"@ + (",\n    order: "@ + seq!['#'] + "order"@ + ",\n    role: ::leaf_core::Role::Application,\n    pointcut: &::leaf_core::Anything,"@));
    assert(ADVISOR_PAIRING@.subrange(504, 569) =~= "\n                    ::leaf_core::BeanKey::ByContract("@ + seq!['#'] + "contract"@ + "),"@);
    assert(ADVISOR_PAIRING@.subrange(933, 1101) =~= "\n            match __erased.downcast::<"@ + seq!['#'] + "self_ty"@ + ">() {\n                ::core::result::Result::Ok(__aspect) => ::core::result::Result::Ok(\n                    __aspect as"@);
}

/// What the slots of the template hold.
proof fn advisor_pairing_slots_are_found(ident: Seq<char>, self_ty: Seq<char>, order: Option<i32>)
    ensures
        ({
            let slots = no_slots().push(("mangled"@, mangled(ident))).push(("contract"@, contract_here(ident))).push(("order"@, order_source(order))).push(("self_ty"@, self_ty));
            &&& slot_text(slots, "contract"@) == Some(contract_here(ident))
            &&& slot_text(slots, "order"@) == Some(order_source(order))
            &&& slot_text(slots, "self_ty"@) == Some(self_ty)
        }),
{
    reveal_strlit("mangled");
    reveal_strlit("contract");
    reveal_strlit("order");
    reveal_strlit("self_ty");
    let slots = no_slots().push(("mangled"@, mangled(ident))).push(("contract"@, contract_here(ident))).push(("order"@, order_source(order))).push(("self_ty"@, self_ty));
    assert("mangled"@.len() != "contract"@.len());
    slot_at(slots, 1);
    assert("mangled"@.len() != "order"@.len());
    assert("contract"@.len() != "order"@.len());
    slot_at(slots, 2);
    assert("mangled"@[0] != "self_ty"@[0]);
    assert("contract"@.len() != "self_ty"@.len());
    assert("order"@.len() != "self_ty"@.len());
    slot_at(slots, 3);
}

/// An aspect is paired with its contract and its order, and its interceptor is the bean of that
/// contract, as its own type.
#[verifier::spinoff_prover]
#[verifier::rlimit(60)]
pub proof fn aspect_is_its_interceptor(ident: Seq<char>, self_ty: Seq<char>, order: Option<i32>)
    ensures
        stands_in(
            "[::leaf_core::linkme::distributed_slice(::leaf_core::ADVISOR_PAIRINGS)]"@,
            advisor_pairing_source(ident, self_ty, order),
        ),
        stands_in(
            "::leaf_core::AdvisorPairingRow {\n    contract: "@ + contract_here(ident) + ",\n    order: "@ + order_source(order) + ",\n    role: ::leaf_core::Role::Application,\n    pointcut: &::leaf_core::Anything,"@,
            advisor_pairing_source(ident, self_ty, order),
        ),
        stands_in(
            "\n                    ::leaf_core::BeanKey::ByContract("@ + contract_here(ident) + "),"@,
            advisor_pairing_source(ident, self_ty, order),
        ),
        stands_in(
            "\n            match __erased.downcast::<"@ + self_ty + ">() {\n                ::core::result::Result::Ok(__aspect) => ::core::result::Result::Ok(\n                    __aspect as"@,
            advisor_pairing_source(ident, self_ty, order),
        ),
{
    advisor_pairing_pieces();
    advisor_pairing_slots_are_found(ident, self_ty, order);
    let t = ADVISOR_PAIRING@;
    let slots = no_slots().push(("mangled"@, mangled(ident))).push(("contract"@, contract_here(ident))).push(("order"@, order_source(order))).push(("self_ty"@, self_ty));
    assert(stands_in("[::leaf_core::linkme::distributed_slice(::leaf_core::ADVISOR_PAIRINGS)]"@,advisor_pairing_source(ident, self_ty, order))) by {
        reveal_strlit("[::leaf_core::linkme::distributed_slice(::leaf_core::ADVISOR_PAIRINGS)]");
        let p0 = "[::leaf_core::linkme::distributed_slice(::leaf_core::ADVISOR_PAIRINGS)]"@;
        filled_plain(p0, slots);
        filled_part(t, 1, 72, slots);
        assert("[::leaf_core::linkme::distributed_slice(::leaf_core::ADVISOR_PAIRINGS)]"@ =~= "[::leaf_core::linkme::distributed_slice(::leaf_core::ADVISOR_PAIRINGS)]"@);
    }
    assert(stands_in("::leaf_core::AdvisorPairingRow {\n    contract: "@ + contract_here(ident) + ",\n    order: "@ + order_source(order) + ",\n    role: ::leaf_core::Role::Application,\n    pointcut: &::leaf_core::Anything,"@,advisor_pairing_source(ident, self_ty, order))) by {
        reveal_strlit("contract");
        reveal_strlit("order");
        reveal_strlit(",\n    order: ");
        reveal_strlit(",\n    role: ::leaf_core::Role::Application,\n    pointcut: &::leaf_core::Anything,");
        reveal_strlit("::leaf_core::AdvisorPairingRow {\n    contract: ");
        let p2 = ",\n    role: ::leaf_core::Role::Application,\n    pointcut: &::leaf_core::Anything,"@;
        let p1 = ",\n    order: "@ + seq!['#'] + "order"@ + p2;
        let p0 = "::leaf_core::AdvisorPairingRow {\n    contract: "@ + seq!['#'] + "contract"@ + p1;
        filled_plain(p2, slots);
        filled_step(",\n    order: "@, "order"@, p2, slots);
        filled_step("::leaf_core::AdvisorPairingRow {\n    contract: "@, "contract"@, p1, slots);
        filled_part(t, 185, 341, slots);
        assert(("::leaf_core::AdvisorPairingRow {\n    contract: "@ + contract_here(ident) + (",\n    order: "@ + order_source(order) + ",\n    role: ::leaf_core::Role::Application,\n    pointcut: &::leaf_core::Anything,"@)) =~= "::leaf_core::AdvisorPairingRow {\n    contract: "@ + contract_here(ident) + ",\n    order: "@ + order_source(order) + ",\n    role: ::leaf_core::Role::Application,\n    pointcut: &::leaf_core::Anything,"@);
    }
    assert(stands_in("\n                    ::leaf_core::BeanKey::ByContract("@ + contract_here(ident) + "),"@,advisor_pairing_source(ident, self_ty, order))) by {
        reveal_strlit("contract");
        reveal_strlit("\n                    ::leaf_core::BeanKey::ByContract(");
        reveal_strlit("),");
        let p1 = "),"@;
        let p0 = "\n                    ::leaf_core::BeanKey::ByContract("@ + seq!['#'] + "contract"@ + p1;
        filled_plain(p1, slots);
        filled_step("\n                    ::leaf_core::BeanKey::ByContract("@, "contract"@, p1, slots);
        filled_part(t, 504, 569, slots);
        assert(("\n                    ::leaf_core::BeanKey::ByContract("@ + contract_here(ident) + "),"@) =~= "\n                    ::leaf_core::BeanKey::ByContract("@ + contract_here(ident) + "),"@);
    }
    assert(stands_in("\n            match __erased.downcast::<"@ + self_ty + ">() {\n                ::core::result::Result::Ok(__aspect) => ::core::result::Result::Ok(\n                    __aspect as"@,advisor_pairing_source(ident, self_ty, order))) by {
        reveal_strlit("self_ty");
        reveal_strlit("\n            match __erased.downcast::<");
        reveal_strlit(">() {\n                ::core::result::Result::Ok(__aspect) => ::core::result::Result::Ok(\n                    __aspect as");
        let p1 = ">() {\n                ::core::result::Result::Ok(__aspect) => ::core::result::Result::Ok(\n                    __aspect as"@;
        let p0 = "\n            match __erased.downcast::<"@ + seq!['#'] + "self_ty"@ + p1;
        filled_plain(p1, slots);
        filled_step("\n            match __erased.downcast::<"@, "self_ty"@, p1, slots);
        filled_part(t, 933, 1101, slots);
        assert(("\n            match __erased.downcast::<"@ + self_ty + ">() {\n                ::core::result::Result::Ok(__aspect) => ::core::result::Result::Ok(\n                    __aspect as"@) =~= "\n            match __erased.downcast::<"@ + self_ty + ">() {\n                ::core::result::Result::Ok(__aspect) => ::core::result::Result::Ok(\n                    __aspect as"@);
    }
}

/// A method that advice applies to.
#[derive(Clone, Debug)]
pub struct MethodSpec {
    /// The path that identifies the method.
    pub method_path: String,
    /// What the method is called as, where that is not the last segment of the path.
    pub method_ident: Option<String>,
    /// Whether a call has to be awaited.
    pub is_async: bool,
    /// The types of the arguments.
    pub arg_types: Vec<String>,
    /// The type of the result.
    pub ret_type: String,
}

/// What a [`MethodSpec`] stands for.
pub ghost struct Method {
    pub path: Seq<char>,
    pub ident: Option<Seq<char>>,
    pub is_async: bool,
    pub args: Seq<Seq<char>>,
    pub ret: Seq<char>,
}

impl View for MethodSpec {
    type V = Method;

    open spec fn view(&self) -> Method {
        Method {
            path: self.method_path@,
            ident: self.method_ident.deep_view(),
            is_async: self.is_async,
            args: self.arg_types.deep_view(),
            ret: self.ret_type@,
        }
    }
}

impl DeepView for MethodSpec {
    type V = Method;

    open spec fn deep_view(&self) -> Method {
        self@
    }
}

/// What a method is called as.
pub open spec fn called(m: Method) -> Seq<char> {
    match m.ident {
        Some(ident) => ident,
        None => last_segment(m.path),
    }
}

impl MethodSpec {
    /// What the method is called as.
    pub fn call_ident(&self) -> (res: &str)
        ensures
            res@ == called(self@),
    {
        match &self.method_ident {
            Some(ident) => ident.as_str(),
            None => last_segment_text(self.method_path.as_str()),
        }
    }
}

/// The type ids of types.
pub open spec fn type_ids(types: Seq<Seq<char>>) -> Seq<Seq<char>> {
    Seq::new(types.len(), |i: int| type_id_source(types[i]))
}

/// Prints the type ids of types.
fn type_id_texts(types: &[String]) -> (res: Vec<String>)
    ensures
        res.deep_view() == type_ids(types.deep_view()),
{
    let mut out: Vec<String> = Vec::new();
    let mut i: usize = 0;
    while i < types.len()
        invariant
            i <= types@.len(),
            out@.len() == i,
            forall|k: int| 0 <= k < i ==> (#[trigger] out@[k])@ == type_id_source(types@[k]@),
        decreases types@.len() - i,
    {
        out.push(type_id_text(types[i].as_str()));
        i += 1;
    }
    assert(out.deep_view() =~= type_ids(types.deep_view()));
    out
}

/// The row of a method at which advice may run.
pub open spec fn join_point_row(m: Method) -> Seq<char> {
    "::leaf_core::MethodJoinPointSpec { method: ::leaf_core::MethodKey::of("@ + literal_source(
        m.path,
    ) + "), arg_types: &["@ + join(type_ids(m.args), ", "@) + "], ret_type: "@ + type_id_source(
        m.ret,
    ) + " }"@
}

/// Prints the row of a method at which advice may run.
fn join_point_text(m: &MethodSpec) -> (res: String)
    ensures
        res@ == join_point_row(m@),
{
    let path = string_literal(m.method_path.as_str());
    let ids = type_id_texts(m.arg_types.as_slice());
    let args = join_texts(ids.as_slice(), ", ");
    let ret = type_id_text(m.ret_type.as_str());
    "::leaf_core::MethodJoinPointSpec { method: ::leaf_core::MethodKey::of(".to_string().concat(
        path.as_str(),
    ).concat("), arg_types: &[").concat(args.as_str()).concat("], ret_type: ").concat(
        ret.as_str(),
    ).concat(" }")
}

/// The rows of methods at which advice may run.
pub open spec fn join_point_rows(methods: Seq<Method>) -> Seq<Seq<char>> {
    Seq::new(methods.len(), |i: int| join_point_row(methods[i]))
}

/// A join point holds the path of the method, the types of its arguments, in their order, and the
/// type of its result; a method is called by the name it is given, or else by the last segment of
/// its path.
pub proof fn join_point_says_the_method(m: Method, ident: Seq<char>)
    ensures
        within(
            join_point_row(m),
            "::leaf_core::MethodJoinPointSpec { method: ::leaf_core::MethodKey::of("@
                + literal_source(m.path) + "), arg_types: &["@,
            "], ret_type: "@ + type_id_source(m.ret) + " }"@,
        ) matches Some(types) && lists(
            types,
            Seq::new(m.args.len(), |i: int| type_id_source(m.args[i])),
            ", "@,
        ),
        m.ident is Some ==> called(m) == m.ident->0,
        m.ident is None ==> called(m) == last_segment(m.path),
        entry_source(ident, m) == "::leaf_core::MethodEntry { key: ::leaf_core::MethodKey::of("@
            + literal_source(m.path) + "), invoke: "@ + ("__leaf_invoke_"@ + mangled(ident) + "_"@
            + mangled(called(m))) + " }"@,
{
    let open = "::leaf_core::MethodJoinPointSpec { method: ::leaf_core::MethodKey::of("@
        + literal_source(m.path) + "), arg_types: &["@;
    let close = "], ret_type: "@ + type_id_source(m.ret) + " }"@;
    let types = Seq::new(m.args.len(), |i: int| type_id_source(m.args[i]));
    assert(types =~= type_ids(m.args));
    joined_lists(types, ", "@);
    within_brackets(open, join(types, ", "@), close);
    assert(join_point_row(m) =~= open + join(types, ", "@) + close);
}

/// The join points of a bean.
pub const JOIN_POINTS: &'static str = "#[allow(non_upper_case_globals)]
pub const __leaf_joinpoints_#mangled: ::leaf_core::BeanJoinPointsSpec = ::leaf_core::BeanJoinPointsSpec {
    bean_type: #bean_type,
    markers: &__LEAF_META_#mangled,
    methods: &[#rows],
};
#[::leaf_core::linkme::distributed_slice(::leaf_core::JOINPOINT_PAIRINGS)]
#[linkme(crate = ::leaf_core::linkme)]
static __LEAF_JOINPOINT_PAIRING_#mangled: ::leaf_core::JoinPointPairingRow = ::leaf_core::JoinPointPairingRow {
    contract: #contract,
    spec: &__leaf_joinpoints_#mangled,
};
";

/// The source of the join points of a bean.
pub open spec fn join_points_source(
    ident: Seq<char>,
    self_ty: Seq<char>,
    methods: Seq<Method>,
) -> Seq<char> {
    filled(
        JOIN_POINTS@,
        no_slots().push(("mangled"@, mangled(ident))).push(
            ("bean_type"@, type_id_source(self_ty)),
        ).push(("rows"@, join(join_point_rows(methods), ", "@))).push(
            ("contract"@, contract_here(ident)),
        ),
    )
}

/// Prints the join points of the bean `ident`, whose type is `self_ty`.
pub fn emit_join_points(ident: &str, self_ty: &str, methods: &[MethodSpec]) -> (res: String)
    ensures
        res@ == join_points_source(ident@, self_ty@, methods.deep_view()),
{
    let mut rows: Vec<String> = Vec::new();
    let mut i: usize = 0;
    while i < methods.len()
        invariant
            i <= methods@.len(),
            rows@.len() == i,
            forall|k: int| 0 <= k < i ==> (#[trigger] rows@[k])@ == join_point_row(methods@[k]@),
        decreases methods@.len() - i,
    {
        rows.push(join_point_text(&methods[i]));
        i += 1;
    }
    assert(rows.deep_view() =~= join_point_rows(methods.deep_view()));
    let slots = Slots::new().with("mangled", mangle(ident).as_str()).with(
        "bean_type",
        type_id_text(self_ty).as_str(),
    ).with("rows", join_texts(rows.as_slice(), ", ").as_str()).with(
        "contract",
        contract_text(ident).as_str(),
    );
    slots.fill(JOIN_POINTS)
}

/// Pieces of the template, where they stand in it.
#[verifier::spinoff_prover]
#[verifier::rlimit(60)]
proof fn join_points_pieces()
    ensures
        JOIN_POINTS@.len() == 521,
        JOIN_POINTS@.subrange(105, 165) == "::leaf_core::BeanJoinPointsSpec {\n    bean_type: "@ + seq!['#'] + "bean_type"@ + ","@,
        !is_name_char(JOIN_POINTS@[105]),
        !is_name_char(JOIN_POINTS@[165]),
        JOIN_POINTS@.subrange(165, 224) == "\n    markers: &__LEAF_META_"@ + seq!['#'] + "mangled"@ + (",\n    methods: &["@ + seq!['#'] + "rows"@ + "],"@),
        !is_name_char(JOIN_POINTS@[224]),
        JOIN_POINTS@.subrange(229, 302) == "[::leaf_core::linkme::distributed_slice(::leaf_core::JOINPOINT_PAIRINGS)]"@,
        !is_name_char(JOIN_POINTS@[229]),
        !is_name_char(JOIN_POINTS@[302]),
        JOIN_POINTS@.subrange(453, 517) == "\n    contract: "@ + seq!['#'] + "contract"@ + (",\n    spec: &__leaf_joinpoints_"@ + seq!['#'] + "mangled"@ + ","@),
        !is_name_char(JOIN_POINTS@[453]),
        !is_name_char(JOIN_POINTS@[517]),
{
    reveal_strlit(
        "#[allow(non_upper_case_globals)]
pub const __leaf_joinpoints_#mangled: ::leaf_core::BeanJoinPointsSpec = ::leaf_core::BeanJoinPointsSpec {
    bean_type: #bean_type,
    markers: &__LEAF_META_#mangled,
    methods: &[#rows],
};
#[::leaf_core::linkme::distributed_slice(::leaf_core::JOINPOINT_PAIRINGS)]
#[linkme(crate = ::leaf_core::linkme)]
static __LEAF_JOINPOINT_PAIRING_#mangled: ::leaf_core::JoinPointPairingRow = ::leaf_core::JoinPointPairingRow {
    contract: #contract,
    spec: &__leaf_joinpoints_#mangled,
};
",
    );
    reveal_strlit("\n    contract: ");
    reveal_strlit("\n    markers: &__LEAF_META_");
    reveal_strlit(",");
    reveal_strlit(",\n    methods: &[");
    reveal_strlit(",\n    spec: &__leaf_joinpoints_");
    reveal_strlit("::leaf_core::BeanJoinPointsSpec {\n    bean_type: ");
    reveal_strlit("[::leaf_core::linkme::distributed_slice(::leaf_core::JOINPOINT_PAIRINGS)]");
    reveal_strlit("],");
    reveal_strlit("bean_type");
    reveal_strlit("contract");
    reveal_strlit("mangled");
    reveal_strlit("rows");
    assert(JOIN_POINTS@.subrange(105, 165) =~= "::leaf_core::BeanJoinPointsSpec {\n    bean_type: "@ + seq!['#'] + "bean_type"@ + ","@);
    assert(JOIN_POINTS@.subrange(165, 224) =~= "\n    markers: &__LEAF_META_"@ + seq!['#'] + "mangled"@ + (",\n    methods: &["@ + seq!['#'] + "rows"@ + "],"@));
    assert(JOIN_POINTS@.subrange(229, 302) =~= "[::leaf_core::linkme::distributed_slice(::leaf_core::JOINPOINT_PAIRINGS)]"@);
    assert(JOIN_POINTS@.subrange(453, 517) =~= "\n    contract: "@ + seq!['#'] + "contract"@ + (",\n    spec: &__leaf_joinpoints_"@ + seq!['#'] + "mangled"@ + ","@));
}

/// What the slots of the template hold.
proof fn join_points_slots_are_found(ident: Seq<char>, self_ty: Seq<char>, methods: Seq<Method>)
    ensures
        ({
            let slots = no_slots().push(("mangled"@, mangled(ident))).push(
                ("bean_type"@, type_id_source(self_ty)),
            ).push(("rows"@, join(join_point_rows(methods), ", "@))).push(
                ("contract"@, contract_here(ident)),
            );
            &&& slot_text(slots, "bean_type"@) == Some(type_id_source(self_ty))
            &&& slot_text(slots, "mangled"@) == Some(mangled(ident))
            &&& slot_text(slots, "rows"@) == Some(join(join_point_rows(methods), ", "@))
            &&& slot_text(slots, "contract"@) == Some(contract_here(ident))
        }),
{
    reveal_strlit("mangled");
    reveal_strlit("bean_type");
    reveal_strlit("rows");
    reveal_strlit("contract");
    let slots = no_slots().push(("mangled"@, mangled(ident))).push(
                ("bean_type"@, type_id_source(self_ty)),
            ).push(("rows"@, join(join_point_rows(methods), ", "@))).push(
                ("contract"@, contract_here(ident)),
            );
    assert("mangled"@.len() != "bean_type"@.len());
    slot_at(slots, 1);
    slot_at(slots, 0);
    assert("mangled"@.len() != "rows"@.len());
    assert("bean_type"@.len() != "rows"@.len());
    slot_at(slots, 2);
    assert("mangled"@.len() != "contract"@.len());
    assert("bean_type"@.len() != "contract"@.len());
    assert("rows"@.len() != "contract"@.len());
    slot_at(slots, 3);
}

/// The join points of a bean are those of its methods, in their order, and are paired with its
/// contract.
#[verifier::spinoff_prover]
#[verifier::rlimit(60)]
pub proof fn join_points_are_those_of_the_methods(ident: Seq<char>, self_ty: Seq<char>, methods: Seq<Method>)
    ensures
        stands_in(
            "::leaf_core::BeanJoinPointsSpec {\n    bean_type: "@ + type_id_source(self_ty) + ","@,
            join_points_source(ident, self_ty, methods),
        ),
        stands_in(
            "\n    markers: &__LEAF_META_"@ + mangled(ident) + ",\n    methods: &["@ + join(join_point_rows(methods), ", "@) + "],"@,
            join_points_source(ident, self_ty, methods),
        ),
        stands_in(
            "[::leaf_core::linkme::distributed_slice(::leaf_core::JOINPOINT_PAIRINGS)]"@,
            join_points_source(ident, self_ty, methods),
        ),
        stands_in(
            "\n    contract: "@ + contract_here(ident) + ",\n    spec: &__leaf_joinpoints_"@ + mangled(ident) + ","@,
            join_points_source(ident, self_ty, methods),
        ),
        lists(
            join(join_point_rows(methods), ", "@),
            Seq::new(methods.len(), |i: int| join_point_row(methods[i])),
            ", "@,
        ),
{
    join_points_pieces();
    join_points_slots_are_found(ident, self_ty, methods);
    let t = JOIN_POINTS@;
    let slots = no_slots().push(("mangled"@, mangled(ident))).push(
                ("bean_type"@, type_id_source(self_ty)),
            ).push(("rows"@, join(join_point_rows(methods), ", "@))).push(
                ("contract"@, contract_here(ident)),
            );
    joined_lists(join_point_rows(methods), ", "@);
    assert(join_point_rows(methods) =~= Seq::new(
        methods.len(),
        |i: int| join_point_row(methods[i]),
    ));
    assert(stands_in("::leaf_core::BeanJoinPointsSpec {\n    bean_type: "@ + type_id_source(self_ty) + ","@,join_points_source(ident, self_ty, methods))) by {
        reveal_strlit("bean_type");
        reveal_strlit(",");
        reveal_strlit("::leaf_core::BeanJoinPointsSpec {\n    bean_type: ");
        let p1 = ","@;
        let p0 = "::leaf_core::BeanJoinPointsSpec {\n    bean_type: "@ + seq!['#'] + "bean_type"@ + p1;
        filled_plain(p1, slots);
        filled_step("::leaf_core::BeanJoinPointsSpec {\n    bean_type: "@, "bean_type"@, p1, slots);
        filled_part(t, 105, 165, slots);
        assert(("::leaf_core::BeanJoinPointsSpec {\n    bean_type: "@ + type_id_source(self_ty) + ","@) =~= "::leaf_core::BeanJoinPointsSpec {\n    bean_type: "@ + type_id_source(self_ty) + ","@);
    }
    assert(stands_in("\n    markers: &__LEAF_META_"@ + mangled(ident) + ",\n    methods: &["@ + join(join_point_rows(methods), ", "@) + "],"@,join_points_source(ident, self_ty, methods))) by {
        reveal_strlit("mangled");
        reveal_strlit("rows");
        reveal_strlit("\n    markers: &__LEAF_META_");
        reveal_strlit(",\n    methods: &[");
        reveal_strlit("],");
        let p2 = "],"@;
        let p1 = ",\n    methods: &["@ + seq!['#'] + "rows"@ + p2;
        let p0 = "\n    markers: &__LEAF_META_"@ + seq!['#'] + "mangled"@ + p1;
        filled_plain(p2, slots);
        filled_step(",\n    methods: &["@, "rows"@, p2, slots);
        filled_step("\n    markers: &__LEAF_META_"@, "mangled"@, p1, slots);
        filled_part(t, 165, 224, slots);
        assert(("\n    markers: &__LEAF_META_"@ + mangled(ident) + (",\n    methods: &["@ + join(join_point_rows(methods), ", "@) + "],"@)) =~= "\n    markers: &__LEAF_META_"@ + mangled(ident) + ",\n    methods: &["@ + join(join_point_rows(methods), ", "@) + "],"@);
    }
    assert(stands_in("[::leaf_core::linkme::distributed_slice(::leaf_core::JOINPOINT_PAIRINGS)]"@,join_points_source(ident, self_ty, methods))) by {
        reveal_strlit("[::leaf_core::linkme::distributed_slice(::leaf_core::JOINPOINT_PAIRINGS)]");
        let p0 = "[::leaf_core::linkme::distributed_slice(::leaf_core::JOINPOINT_PAIRINGS)]"@;
        filled_plain(p0, slots);
        filled_part(t, 229, 302, slots);
        assert("[::leaf_core::linkme::distributed_slice(::leaf_core::JOINPOINT_PAIRINGS)]"@ =~= "[::leaf_core::linkme::distributed_slice(::leaf_core::JOINPOINT_PAIRINGS)]"@);
    }
    assert(stands_in("\n    contract: "@ + contract_here(ident) + ",\n    spec: &__leaf_joinpoints_"@ + mangled(ident) + ","@,join_points_source(ident, self_ty, methods))) by {
        reveal_strlit("contract");
        reveal_strlit("mangled");
        reveal_strlit("\n    contract: ");
        reveal_strlit(",");
        reveal_strlit(",\n    spec: &__leaf_joinpoints_");
        let p2 = ","@;
        let p1 = ",\n    spec: &__leaf_joinpoints_"@ + seq!['#'] + "mangled"@ + p2;
        let p0 = "\n    contract: "@ + seq!['#'] + "contract"@ + p1;
        filled_plain(p2, slots);
        filled_step(",\n    spec: &__leaf_joinpoints_"@, "mangled"@, p2, slots);
        filled_step("\n    contract: "@, "contract"@, p1, slots);
        filled_part(t, 453, 517, slots);
        assert(("\n    contract: "@ + contract_here(ident) + (",\n    spec: &__leaf_joinpoints_"@ + mangled(ident) + ","@)) =~= "\n    contract: "@ + contract_here(ident) + ",\n    spec: &__leaf_joinpoints_"@ + mangled(ident) + ","@);
    }
}

/// The function that calls a method of a bean that is known by its type only.
pub const METHOD_THUNK: &'static str = "#[allow(non_snake_case)]
fn #thunk(
    __bean: &::leaf_core::ErasedBean,
    __args: ::leaf_core::ErasedArgs,
    __cx: &::leaf_core::ResolveCtx<'_>,
) -> ::leaf_core::BoxFuture<'static, ::core::result::Result<::leaf_core::ErasedRet, ::leaf_core::AdviceError>> {
    let __ = __cx;
    let __downcast = ::std::sync::Arc::clone(__bean).downcast::<#self_ty>();
    ::std::boxed::Box::pin(async move {
        let __target = __downcast.map_err(|_| {
            ::leaf_core::AdviceError::DowncastMismatch {
                method: ::leaf_core::MethodKey::of(#path),
            }
        })?;
        let (#names) = __args.unpack::<(#types)>().map_err(|_| {
            ::leaf_core::AdviceError::DowncastMismatch {
                method: ::leaf_core::MethodKey::of(#path),
            }
        })?;
        ::core::result::Result::Ok(::leaf_core::ErasedRet::pack(__target.#call(#operands)#awaited))
    })
}
";

/// The names that the arguments of a call are bound to.
pub open spec fn operand_names(n: nat) -> Seq<Seq<char>> {
    Seq::new(n, |i: int| "__a"@ + decimal(i as nat))
}

/// Prints the names that the arguments of a call are bound to.
fn operand_texts(n: usize) -> (res: Vec<String>)
    ensures
        res.deep_view() == operand_names(n as nat),
{
    let mut out: Vec<String> = Vec::new();
    let mut i: usize = 0;
    while i < n
        invariant
            i <= n,
            out@.len() == i,
            forall|k: int| 0 <= k < i ==> (#[trigger] out@[k])@ == "__a"@ + decimal(k as nat),
        decreases n - i,
    {
        let number = decimal_text(i as u64);
        out.push("__a".to_string().concat(number.as_str()));
        i += 1;
    }
    assert(out.deep_view() =~= operand_names(n as nat));
    out
}

/// The name of the function that calls a method.
pub open spec fn thunk_name(ident: Seq<char>, m: Method) -> Seq<char> {
    "__leaf_invoke_"@ + mangled(ident) + "_"@ + mangled(called(m))
}

/// No two methods of a bean that are called by different names are called through the same
/// function.
pub proof fn thunks_differ(ident: Seq<char>, a: Method, b: Method)
    requires
        is_plain(called(a)),
        is_plain(called(b)),
        thunk_name(ident, a) == thunk_name(ident, b),
    ensures
        called(a) == called(b),
{
    let front = "__leaf_invoke_"@ + mangled(ident) + "_"@;
    mangled_is_kept(called(a));
    mangled_is_kept(called(b));
    assert(thunk_name(ident, a).skip(front.len() as int) =~= called(a));
    assert(thunk_name(ident, b).skip(front.len() as int) =~= called(b));
}

/// Prints the name of the function that calls a method.
fn thunk_name_text(ident: &str, m: &MethodSpec) -> (res: String)
    ensures
        res@ == thunk_name(ident@, m@),
{
    let bean = mangle(ident);
    let method = mangle(m.call_ident());
    "__leaf_invoke_".to_string().concat(bean.as_str()).concat("_").concat(method.as_str())
}

/// The function that calls a method.
pub open spec fn thunk_source(ident: Seq<char>, self_ty: Seq<char>, m: Method) -> Seq<char> {
    filled(
        METHOD_THUNK@,
        no_slots().push(("thunk"@, thunk_name(ident, m))).push(("self_ty"@, self_ty)).push(
            ("path"@, literal_source(m.path)),
        ).push(("names"@, each_followed(operand_names(m.args.len()), ", "@))).push(
            ("types"@, each_followed(m.args, ", "@)),
        ).push(("call"@, called(m))).push(
            ("operands"@, join(operand_names(m.args.len()), ", "@)),
        ).push(
            (
                "awaited"@,
                if m.is_async {
                    ".await"@
                } else {
                    ""@
                },
            ),
        ),
    )
}

/// Prints the function that calls a method.
fn thunk_text(ident: &str, self_ty: &str, m: &MethodSpec) -> (res: String)
    ensures
        res@ == thunk_source(ident@, self_ty@, m@),
{
    let names = operand_texts(m.arg_types.len());
    let awaited = if m.is_async {
        ".await"
    } else {
        ""
    };
    let slots = Slots::new().with("thunk", thunk_name_text(ident, m).as_str()).with(
        "self_ty",
        self_ty,
    ).with("path", string_literal(m.method_path.as_str()).as_str()).with(
        "names",
        follow_each(names.as_slice(), ", ").as_str(),
    ).with("types", follow_each(m.arg_types.as_slice(), ", ").as_str()).with(
        "call",
        m.call_ident(),
    ).with("operands", join_texts(names.as_slice(), ", ").as_str()).with("awaited", awaited);
    slots.fill(METHOD_THUNK)
}

/// What awaits the call of a method, where it has to be awaited.
pub open spec fn awaited(m: Method) -> Seq<char> {
    if m.is_async {
        ".await"@
    } else {
        ""@
    }
}

/// Pieces of the template, where they stand in it.
#[verifier::spinoff_prover]
#[verifier::rlimit(60)]
proof fn method_thunk_pieces()
    ensures
        METHOD_THUNK@.len() == 908,
        METHOD_THUNK@.subrange(24, 35) == "\nfn "@ + seq!['#'] + "thunk"@ + "("@,
        !is_name_char(METHOD_THUNK@[24]),
        !is_name_char(METHOD_THUNK@[35]),
        METHOD_THUNK@.subrange(335, 359) == ".downcast::<"@ + seq!['#'] + "self_ty"@ + ">();"@,
        !is_name_char(METHOD_THUNK@[335]),
        !is_name_char(METHOD_THUNK@[359]),
        METHOD_THUNK@.subrange(590, 641) == "\n        let ("@ + seq!['#'] + "names"@ + (") = __args.unpack::<("@ + seq!['#'] + "types"@ + ")>()"@),
        !is_name_char(METHOD_THUNK@[590]),
        !is_name_char(METHOD_THUNK@[641]),
        METHOD_THUNK@.subrange(862, 898) == "(__target."@ + seq!['#'] + "call"@ + ("("@ + seq!['#'] + "operands"@ + (")"@ + seq!['#'] + "awaited"@ + "))"@)),
        !is_name_char(METHOD_THUNK@[862]),
        !is_name_char(METHOD_THUNK@[898]),
{
    reveal_strlit(
        "#[allow(non_snake_case)]
fn #thunk(
    __bean: &::leaf_core::ErasedBean,
    __args: ::leaf_core::ErasedArgs,
    __cx: &::leaf_core::ResolveCtx<'_>,
) -> ::leaf_core::BoxFuture<'static, ::core::result::Result<::leaf_core::ErasedRet, ::leaf_core::AdviceError>> {
    let __ = __cx;
    let __downcast = ::std::sync::Arc::clone(__bean).downcast::<#self_ty>();
    ::std::boxed::Box::pin(async move {
        let __target = __downcast.map_err(|_| {
            ::leaf_core::AdviceError::DowncastMismatch {
                method: ::leaf_core::MethodKey::of(#path),
            }
        })?;
        let (#names) = __args.unpack::<(#types)>().map_err(|_| {
            ::leaf_core::AdviceError::DowncastMismatch {
                method: ::leaf_core::MethodKey::of(#path),
            }
        })?;
        ::core::result::Result::Ok(::leaf_core::ErasedRet::pack(__target.#call(#operands)#awaited))
    })
}
",
    );
    reveal_strlit("\n        let (");
    reveal_strlit("\nfn ");
    reveal_strlit("(");
    reveal_strlit("(__target.");
    reveal_strlit(")");
    reveal_strlit(") = __args.unpack::<(");
    reveal_strlit("))");
    reveal_strlit(")>()");
    reveal_strlit(".downcast::<");
    reveal_strlit(">();");
    reveal_strlit("awaited");
    reveal_strlit("call");
    reveal_strlit("names");
    reveal_strlit("operands");
    reveal_strlit("self_ty");
    reveal_strlit("thunk");
    reveal_strlit("types");
    assert(METHOD_THUNK@.subrange(24, 35) =~= "\nfn "@ + seq!['#'] + "thunk"@ + "("@);
    assert(METHOD_THUNK@.subrange(335, 359) =~= ".downcast::<"@ + seq!['#'] + "self_ty"@ + ">();"@);
    assert(METHOD_THUNK@.subrange(590, 641) =~= "\n        let ("@ + seq!['#'] + "names"@ + (") = __args.unpack::<("@ + seq!['#'] + "types"@ + ")>()"@));
    assert(METHOD_THUNK@.subrange(862, 898) =~= "(__target."@ + seq!['#'] + "call"@ + ("("@ + seq!['#'] + "operands"@ + (")"@ + seq!['#'] + "awaited"@ + "))"@)));
}

/// What the slots of the template hold.
proof fn method_thunk_slots_are_found(ident: Seq<char>, self_ty: Seq<char>, m: Method)
    ensures
        ({
            let slots = no_slots().push(("thunk"@, thunk_name(ident, m))).push(("self_ty"@, self_ty)).push(
                ("path"@, literal_source(m.path)),
            ).push(("names"@, each_followed(operand_names(m.args.len()), ", "@))).push(
                ("types"@, each_followed(m.args, ", "@)),
            ).push(("call"@, called(m))).push(
                ("operands"@, join(operand_names(m.args.len()), ", "@)),
            ).push(("awaited"@, awaited(m)));
            &&& slot_text(slots, "thunk"@) == Some(thunk_name(ident, m))
            &&& slot_text(slots, "self_ty"@) == Some(self_ty)
            &&& slot_text(slots, "names"@) == Some(each_followed(operand_names(m.args.len()), ", "@))
            &&& slot_text(slots, "types"@) == Some(each_followed(m.args, ", "@))
            &&& slot_text(slots, "call"@) == Some(called(m))
            &&& slot_text(slots, "operands"@) == Some(join(operand_names(m.args.len()), ", "@))
            &&& slot_text(slots, "awaited"@) == Some(awaited(m))
        }),
{
    reveal_strlit("thunk");
    reveal_strlit("self_ty");
    reveal_strlit("path");
    reveal_strlit("names");
    reveal_strlit("types");
    reveal_strlit("call");
    reveal_strlit("operands");
    reveal_strlit("awaited");
    let slots = no_slots().push(("thunk"@, thunk_name(ident, m))).push(("self_ty"@, self_ty)).push(
                ("path"@, literal_source(m.path)),
            ).push(("names"@, each_followed(operand_names(m.args.len()), ", "@))).push(
                ("types"@, each_followed(m.args, ", "@)),
            ).push(("call"@, called(m))).push(
                ("operands"@, join(operand_names(m.args.len()), ", "@)),
            ).push(("awaited"@, awaited(m)));
    slot_at(slots, 0);
    assert("thunk"@.len() != "self_ty"@.len());
    slot_at(slots, 1);
    assert("thunk"@[0] != "names"@[0]);
    assert("self_ty"@.len() != "names"@.len());
    assert("path"@.len() != "names"@.len());
    slot_at(slots, 3);
    assert("thunk"@[1] != "types"@[1]);
    assert("self_ty"@.len() != "types"@.len());
    assert("path"@.len() != "types"@.len());
    assert("names"@[0] != "types"@[0]);
    slot_at(slots, 4);
    assert("thunk"@.len() != "call"@.len());
    assert("self_ty"@.len() != "call"@.len());
    assert("path"@[0] != "call"@[0]);
    assert("names"@.len() != "call"@.len());
    assert("types"@.len() != "call"@.len());
    slot_at(slots, 5);
    assert("thunk"@.len() != "operands"@.len());
    assert("self_ty"@.len() != "operands"@.len());
    assert("path"@.len() != "operands"@.len());
    assert("names"@.len() != "operands"@.len());
    assert("types"@.len() != "operands"@.len());
    assert("call"@.len() != "operands"@.len());
    slot_at(slots, 6);
    assert("thunk"@.len() != "awaited"@.len());
    assert("self_ty"@[0] != "awaited"@[0]);
    assert("path"@.len() != "awaited"@.len());
    assert("names"@.len() != "awaited"@.len());
    assert("types"@.len() != "awaited"@.len());
    assert("call"@.len() != "awaited"@.len());
    assert("operands"@.len() != "awaited"@.len());
    slot_at(slots, 7);
}

/// A method is called through its function with the arguments that were handed over, each in its
/// place and of its own type, and is awaited where it has to be.
#[verifier::spinoff_prover]
#[verifier::rlimit(60)]
pub proof fn method_is_called_with_its_arguments(ident: Seq<char>, self_ty: Seq<char>, m: Method)
    ensures
        stands_in(
            "\nfn "@ + thunk_name(ident, m) + "("@,
            thunk_source(ident, self_ty, m),
        ),
        stands_in(
            ".downcast::<"@ + self_ty + ">();"@,
            thunk_source(ident, self_ty, m),
        ),
        stands_in(
            "\n        let ("@ + each_followed(operand_names(m.args.len()), ", "@) + ") = __args.unpack::<("@ + each_followed(m.args, ", "@) + ")>()"@,
            thunk_source(ident, self_ty, m),
        ),
        stands_in(
            "(__target."@ + called(m) + "("@ + join(operand_names(m.args.len()), ", "@) + ")"@ + awaited(m) + "))"@,
            thunk_source(ident, self_ty, m),
        ),
        series(
            each_followed(operand_names(m.args.len()), ", "@),
            Seq::new(m.args.len(), |i: int| "__a"@ + decimal(i as nat)),
            ", "@,
        ),
        lists(
            join(operand_names(m.args.len()), ", "@),
            Seq::new(m.args.len(), |i: int| "__a"@ + decimal(i as nat)),
            ", "@,
        ),
        series(each_followed(m.args, ", "@), m.args, ", "@),
{
    method_thunk_pieces();
    method_thunk_slots_are_found(ident, self_ty, m);
    let t = METHOD_THUNK@;
    let slots = no_slots().push(("thunk"@, thunk_name(ident, m))).push(("self_ty"@, self_ty)).push(
                ("path"@, literal_source(m.path)),
            ).push(("names"@, each_followed(operand_names(m.args.len()), ", "@))).push(
                ("types"@, each_followed(m.args, ", "@)),
            ).push(("call"@, called(m))).push(
                ("operands"@, join(operand_names(m.args.len()), ", "@)),
            ).push(("awaited"@, awaited(m)));
    let operands = Seq::new(m.args.len(), |i: int| "__a"@ + decimal(i as nat));
    assert(operand_names(m.args.len()) =~= operands);
    followed_series(operands, ", "@);
    joined_lists(operands, ", "@);
    followed_series(m.args, ", "@);
    assert(stands_in("\nfn "@ + thunk_name(ident, m) + "("@,thunk_source(ident, self_ty, m))) by {
        reveal_strlit("thunk");
        reveal_strlit("\nfn ");
        reveal_strlit("(");
        let p1 = "("@;
        let p0 = "\nfn "@ + seq!['#'] + "thunk"@ + p1;
        filled_plain(p1, slots);
        filled_step("\nfn "@, "thunk"@, p1, slots);
        filled_part(t, 24, 35, slots);
        assert(("\nfn "@ + thunk_name(ident, m) + "("@) =~= "\nfn "@ + thunk_name(ident, m) + "("@);
    }
    assert(stands_in(".downcast::<"@ + self_ty + ">();"@,thunk_source(ident, self_ty, m))) by {
        reveal_strlit("self_ty");
        reveal_strlit(".downcast::<");
        reveal_strlit(">();");
        let p1 = ">();"@;
        let p0 = ".downcast::<"@ + seq!['#'] + "self_ty"@ + p1;
        filled_plain(p1, slots);
        filled_step(".downcast::<"@, "self_ty"@, p1, slots);
        filled_part(t, 335, 359, slots);
        assert((".downcast::<"@ + self_ty + ">();"@) =~= ".downcast::<"@ + self_ty + ">();"@);
    }
    assert(stands_in("\n        let ("@ + each_followed(operand_names(m.args.len()), ", "@) + ") = __args.unpack::<("@ + each_followed(m.args, ", "@) + ")>()"@,thunk_source(ident, self_ty, m))) by {
        reveal_strlit("names");
        reveal_strlit("types");
        reveal_strlit("\n        let (");
        reveal_strlit(") = __args.unpack::<(");
        reveal_strlit(")>()");
        let p2 = ")>()"@;
        let p1 = ") = __args.unpack::<("@ + seq!['#'] + "types"@ + p2;
        let p0 = "\n        let ("@ + seq!['#'] + "names"@ + p1;
        filled_plain(p2, slots);
        filled_step(") = __args.unpack::<("@, "types"@, p2, slots);
        filled_step("\n        let ("@, "names"@, p1, slots);
        filled_part(t, 590, 641, slots);
        assert(("\n        let ("@ + each_followed(operand_names(m.args.len()), ", "@) + (") = __args.unpack::<("@ + each_followed(m.args, ", "@) + ")>()"@)) =~= "\n        let ("@ + each_followed(operand_names(m.args.len()), ", "@) + ") = __args.unpack::<("@ + each_followed(m.args, ", "@) + ")>()"@);
    }
    assert(stands_in("(__target."@ + called(m) + "("@ + join(operand_names(m.args.len()), ", "@) + ")"@ + awaited(m) + "))"@,thunk_source(ident, self_ty, m))) by {
        reveal_strlit("awaited");
        reveal_strlit("call");
        reveal_strlit("operands");
        reveal_strlit("(");
        reveal_strlit("(__target.");
        reveal_strlit(")");
        reveal_strlit("))");
        let p3 = "))"@;
        let p2 = ")"@ + seq!['#'] + "awaited"@ + p3;
        let p1 = "("@ + seq!['#'] + "operands"@ + p2;
        let p0 = "(__target."@ + seq!['#'] + "call"@ + p1;
        filled_plain(p3, slots);
        filled_step(")"@, "awaited"@, p3, slots);
        filled_step("("@, "operands"@, p2, slots);
        filled_step("(__target."@, "call"@, p1, slots);
        filled_part(t, 862, 898, slots);
        assert(("(__target."@ + called(m) + ("("@ + join(operand_names(m.args.len()), ", "@) + (")"@ + awaited(m) + "))"@))) =~= "(__target."@ + called(m) + "("@ + join(operand_names(m.args.len()), ", "@) + ")"@ + awaited(m) + "))"@);
    }
}

/// The entry of a method in the table.
pub open spec fn entry_source(ident: Seq<char>, m: Method) -> Seq<char> {
    "::leaf_core::MethodEntry { key: ::leaf_core::MethodKey::of("@ + literal_source(m.path)
        + "), invoke: "@ + thunk_name(ident, m) + " }"@
}

/// Prints the entry of a method in the table.
fn entry_text(ident: &str, m: &MethodSpec) -> (res: String)
    ensures
        res@ == entry_source(ident@, m@),
{
    let path = string_literal(m.method_path.as_str());
    let thunk = thunk_name_text(ident, m);
    "::leaf_core::MethodEntry { key: ::leaf_core::MethodKey::of(".to_string().concat(
        path.as_str(),
    ).concat("), invoke: ").concat(thunk.as_str()).concat(" }")
}

/// The method table of a bean.
pub const METHOD_TABLE: &'static str = "#thunks#[allow(non_upper_case_globals)]
pub static __leaf_methods_#mangled: &::leaf_core::MethodTable = &::leaf_core::MethodTable(&[#entries]);
#[::leaf_core::linkme::distributed_slice(::leaf_core::METHOD_TABLE_PAIRINGS)]
#[linkme(crate = ::leaf_core::linkme)]
static __LEAF_METHOD_TABLE_PAIRING_#mangled: ::leaf_core::MethodTablePairingRow = ::leaf_core::MethodTablePairingRow {
    contract: #contract,
    table: __leaf_methods_#mangled,
};
";

/// The functions that call the methods of a bean.
pub open spec fn thunk_sources(
    ident: Seq<char>,
    self_ty: Seq<char>,
    methods: Seq<Method>,
) -> Seq<Seq<char>> {
    Seq::new(methods.len(), |i: int| thunk_source(ident, self_ty, methods[i]))
}

/// The entries of the methods of a bean.
pub open spec fn entry_sources(ident: Seq<char>, methods: Seq<Method>) -> Seq<Seq<char>> {
    Seq::new(methods.len(), |i: int| entry_source(ident, methods[i]))
}

/// The source of the method table of a bean.
pub open spec fn method_table_source(
    ident: Seq<char>,
    self_ty: Seq<char>,
    methods: Seq<Method>,
) -> Seq<char> {
    filled(
        METHOD_TABLE@,
        no_slots().push(("thunks"@, each_followed(thunk_sources(ident, self_ty, methods), ""@))).push(
            ("mangled"@, mangled(ident)),
        ).push(("entries"@, each_followed(entry_sources(ident, methods), ", "@))).push(
            ("contract"@, contract_here(ident)),
        ),
    )
}

/// Prints the method table of the bean `ident`, whose type is `self_ty`.
pub fn emit_method_table(ident: &str, self_ty: &str, methods: &[MethodSpec]) -> (res: String)
    ensures
        res@ == method_table_source(ident@, self_ty@, methods.deep_view()),
{
    let mut thunks: Vec<String> = Vec::new();
    let mut entries: Vec<String> = Vec::new();
    let mut i: usize = 0;
    while i < methods.len()
        invariant
            i <= methods@.len(),
            thunks@.len() == i,
            entries@.len() == i,
            forall|k: int|
                0 <= k < i ==> (#[trigger] thunks@[k])@ == thunk_source(
                    ident@,
                    self_ty@,
                    methods@[k]@,
                ),
            forall|k: int| 0 <= k < i ==> (#[trigger] entries@[k])@ == entry_source(
                ident@,
                methods@[k]@,
            ),
        decreases methods@.len() - i,
    {
        thunks.push(thunk_text(ident, self_ty, &methods[i]));
        entries.push(entry_text(ident, &methods[i]));
        i += 1;
    }
    assert(thunks.deep_view() =~= thunk_sources(ident@, self_ty@, methods.deep_view()));
    assert(entries.deep_view() =~= entry_sources(ident@, methods.deep_view()));
    let slots = Slots::new().with("thunks", follow_each(thunks.as_slice(), "").as_str()).with(
        "mangled",
        mangle(ident).as_str(),
    ).with("entries", follow_each(entries.as_slice(), ", ").as_str()).with(
        "contract",
        contract_text(ident).as_str(),
    );
    slots.fill(METHOD_TABLE)
}

/// Pieces of the template, where they stand in it.
#[verifier::spinoff_prover]
#[verifier::rlimit(60)]
proof fn method_table_pieces()
    ensures
        METHOD_TABLE@.len() == 444,
        METHOD_TABLE@.subrange(0, 14) == ""@ + seq!['#'] + "thunks"@ + (""@ + seq!['#'] + "[allow"@),
        !is_name_char(METHOD_TABLE@[0]),
        !is_name_char(METHOD_TABLE@[14]),
        METHOD_TABLE@.subrange(50, 143) == " __leaf_methods_"@ + seq!['#'] + "mangled"@ + (": &::leaf_core::MethodTable = &::leaf_core::MethodTable(&["@ + seq!['#'] + "entries"@ + "]);"@),
        !is_name_char(METHOD_TABLE@[50]),
        !is_name_char(METHOD_TABLE@[143]),
        METHOD_TABLE@.subrange(145, 221) == "[::leaf_core::linkme::distributed_slice(::leaf_core::METHOD_TABLE_PAIRINGS)]"@,
        !is_name_char(METHOD_TABLE@[145]),
        !is_name_char(METHOD_TABLE@[221]),
        METHOD_TABLE@.subrange(379, 440) == "\n    contract: "@ + seq!['#'] + "contract"@ + (",\n    table: __leaf_methods_"@ + seq!['#'] + "mangled"@ + ","@),
        !is_name_char(METHOD_TABLE@[379]),
        !is_name_char(METHOD_TABLE@[440]),
{
    reveal_strlit(
        "#thunks#[allow(non_upper_case_globals)]
pub static __leaf_methods_#mangled: &::leaf_core::MethodTable = &::leaf_core::MethodTable(&[#entries]);
#[::leaf_core::linkme::distributed_slice(::leaf_core::METHOD_TABLE_PAIRINGS)]
#[linkme(crate = ::leaf_core::linkme)]
static __LEAF_METHOD_TABLE_PAIRING_#mangled: ::leaf_core::MethodTablePairingRow = ::leaf_core::MethodTablePairingRow {
    contract: #contract,
    table: __leaf_methods_#mangled,
};
",
    );
    reveal_strlit("");
    reveal_strlit("\n    contract: ");
    reveal_strlit(" __leaf_methods_");
    reveal_strlit(",");
    reveal_strlit(",\n    table: __leaf_methods_");
    reveal_strlit(": &::leaf_core::MethodTable = &::leaf_core::MethodTable(&[");
    reveal_strlit("[::leaf_core::linkme::distributed_slice(::leaf_core::METHOD_TABLE_PAIRINGS)]");
    reveal_strlit("[allow");
    reveal_strlit("]);");
    reveal_strlit("contract");
    reveal_strlit("entries");
    reveal_strlit("mangled");
    reveal_strlit("thunks");
    assert(METHOD_TABLE@.subrange(0, 14) =~= ""@ + seq!['#'] + "thunks"@ + (""@ + seq!['#'] + "[allow"@));
    assert(METHOD_TABLE@.subrange(50, 143) =~= " __leaf_methods_"@ + seq!['#'] + "mangled"@ + (": &::leaf_core::MethodTable = &::leaf_core::MethodTable(&["@ + seq!['#'] + "entries"@ + "]);"@));
    assert(METHOD_TABLE@.subrange(145, 221) =~= "[::leaf_core::linkme::distributed_slice(::leaf_core::METHOD_TABLE_PAIRINGS)]"@);
    assert(METHOD_TABLE@.subrange(379, 440) =~= "\n    contract: "@ + seq!['#'] + "contract"@ + (",\n    table: __leaf_methods_"@ + seq!['#'] + "mangled"@ + ","@));
}

/// What the slots of the template hold.
proof fn method_table_slots_are_found(ident: Seq<char>, self_ty: Seq<char>, methods: Seq<Method>)
    ensures
        ({
            let slots = no_slots().push(("thunks"@, each_followed(thunk_sources(ident, self_ty, methods), ""@))).push(
                ("mangled"@, mangled(ident)),
            ).push(("entries"@, each_followed(entry_sources(ident, methods), ", "@))).push(
                ("contract"@, contract_here(ident)),
            );
            &&& slot_text(slots, "thunks"@) == Some(each_followed(thunk_sources(ident, self_ty, methods), ""@))
            &&& slot_text(slots, "mangled"@) == Some(mangled(ident))
            &&& slot_text(slots, "entries"@) == Some(each_followed(entry_sources(ident, methods), ", "@))
            &&& slot_text(slots, "contract"@) == Some(contract_here(ident))
            &&& slot_text(slots, Seq::empty()) is None
        }),
{
    reveal_strlit("thunks");
    reveal_strlit("mangled");
    reveal_strlit("entries");
    reveal_strlit("contract");
    let slots = no_slots().push(("thunks"@, each_followed(thunk_sources(ident, self_ty, methods), ""@))).push(
                ("mangled"@, mangled(ident)),
            ).push(("entries"@, each_followed(entry_sources(ident, methods), ", "@))).push(
                ("contract"@, contract_here(ident)),
            );
    unnamed_slot(slots);
    slot_at(slots, 0);
    assert("thunks"@.len() != "mangled"@.len());
    slot_at(slots, 1);
    assert("thunks"@.len() != "entries"@.len());
    assert("mangled"@[0] != "entries"@[0]);
    slot_at(slots, 2);
    assert("thunks"@.len() != "contract"@.len());
    assert("mangled"@.len() != "contract"@.len());
    assert("entries"@.len() != "contract"@.len());
    slot_at(slots, 3);
}

/// The method table of a bean has an entry and a function for each method, in their order, and is
/// paired with its contract.
#[verifier::spinoff_prover]
#[verifier::rlimit(60)]
pub proof fn method_table_holds_each_method(ident: Seq<char>, self_ty: Seq<char>, methods: Seq<Method>)
    ensures
        stands_in(
            each_followed(thunk_sources(ident, self_ty, methods), ""@) + "#[allow"@,
            method_table_source(ident, self_ty, methods),
        ),
        stands_in(
            " __leaf_methods_"@ + mangled(ident) + ": &::leaf_core::MethodTable = &::leaf_core::MethodTable(&["@ + each_followed(entry_sources(ident, methods), ", "@) + "]);"@,
            method_table_source(ident, self_ty, methods),
        ),
        stands_in(
            "[::leaf_core::linkme::distributed_slice(::leaf_core::METHOD_TABLE_PAIRINGS)]"@,
            method_table_source(ident, self_ty, methods),
        ),
        stands_in(
            "\n    contract: "@ + contract_here(ident) + ",\n    table: __leaf_methods_"@ + mangled(ident) + ","@,
            method_table_source(ident, self_ty, methods),
        ),
        series(
            each_followed(thunk_sources(ident, self_ty, methods), ""@),
            Seq::new(methods.len(), |i: int| thunk_source(ident, self_ty, methods[i])),
            ""@,
        ),
        series(
            each_followed(entry_sources(ident, methods), ", "@),
            Seq::new(methods.len(), |i: int| entry_source(ident, methods[i])),
            ", "@,
        ),
{
    method_table_pieces();
    method_table_slots_are_found(ident, self_ty, methods);
    let t = METHOD_TABLE@;
    let slots = no_slots().push(("thunks"@, each_followed(thunk_sources(ident, self_ty, methods), ""@))).push(
                ("mangled"@, mangled(ident)),
            ).push(("entries"@, each_followed(entry_sources(ident, methods), ", "@))).push(
                ("contract"@, contract_here(ident)),
            );
    followed_series(thunk_sources(ident, self_ty, methods), ""@);
    followed_series(entry_sources(ident, methods), ", "@);
    assert(thunk_sources(ident, self_ty, methods) =~= Seq::new(
        methods.len(),
        |i: int| thunk_source(ident, self_ty, methods[i]),
    ));
    assert(entry_sources(ident, methods) =~= Seq::new(
        methods.len(),
        |i: int| entry_source(ident, methods[i]),
    ));
    assert(stands_in(each_followed(thunk_sources(ident, self_ty, methods), ""@) + "#[allow"@,method_table_source(ident, self_ty, methods))) by {
        reveal_strlit("thunks");
        reveal_strlit("");
        reveal_strlit("#[allow");
        reveal_strlit("[allow");
        let p2 = "[allow"@;
        let p1 = ""@ + seq!['#'] + p2;
        let p0 = ""@ + seq!['#'] + "thunks"@ + p1;
        filled_plain(p2, slots);
        filled_sign(""@, p2, slots);
        filled_step(""@, "thunks"@, p1, slots);
        filled_part(t, 0, 14, slots);
        assert((""@ + each_followed(thunk_sources(ident, self_ty, methods), ""@) + (""@ + seq!['#'] + "[allow"@)) =~= each_followed(thunk_sources(ident, self_ty, methods), ""@) + "#[allow"@);
    }
    assert(stands_in(" __leaf_methods_"@ + mangled(ident) + ": &::leaf_core::MethodTable = &::leaf_core::MethodTable(&["@ + each_followed(entry_sources(ident, methods), ", "@) + "]);"@,method_table_source(ident, self_ty, methods))) by {
        reveal_strlit("entries");
        reveal_strlit("mangled");
        reveal_strlit(" __leaf_methods_");
        reveal_strlit(": &::leaf_core::MethodTable = &::leaf_core::MethodTable(&[");
        reveal_strlit("]);");
        let p2 = "]);"@;
        let p1 = ": &::leaf_core::MethodTable = &::leaf_core::MethodTable(&["@ + seq!['#'] + "entries"@ + p2;
        let p0 = " __leaf_methods_"@ + seq!['#'] + "mangled"@ + p1;
        filled_plain(p2, slots);
        filled_step(": &::leaf_core::MethodTable = &::leaf_core::MethodTable(&["@, "entries"@, p2, slots);
        filled_step(" __leaf_methods_"@, "mangled"@, p1, slots);
        filled_part(t, 50, 143, slots);
        assert((" __leaf_methods_"@ + mangled(ident) + (": &::leaf_core::MethodTable = &::leaf_core::MethodTable(&["@ + each_followed(entry_sources(ident, methods), ", "@) + "]);"@)) =~= " __leaf_methods_"@ + mangled(ident) + ": &::leaf_core::MethodTable = &::leaf_core::MethodTable(&["@ + each_followed(entry_sources(ident, methods), ", "@) + "]);"@);
    }
    assert(stands_in("[::leaf_core::linkme::distributed_slice(::leaf_core::METHOD_TABLE_PAIRINGS)]"@,method_table_source(ident, self_ty, methods))) by {
        reveal_strlit("[::leaf_core::linkme::distributed_slice(::leaf_core::METHOD_TABLE_PAIRINGS)]");
        let p0 = "[::leaf_core::linkme::distributed_slice(::leaf_core::METHOD_TABLE_PAIRINGS)]"@;
        filled_plain(p0, slots);
        filled_part(t, 145, 221, slots);
        assert("[::leaf_core::linkme::distributed_slice(::leaf_core::METHOD_TABLE_PAIRINGS)]"@ =~= "[::leaf_core::linkme::distributed_slice(::leaf_core::METHOD_TABLE_PAIRINGS)]"@);
    }
    assert(stands_in("\n    contract: "@ + contract_here(ident) + ",\n    table: __leaf_methods_"@ + mangled(ident) + ","@,method_table_source(ident, self_ty, methods))) by {
        reveal_strlit("contract");
        reveal_strlit("mangled");
        reveal_strlit("\n    contract: ");
        reveal_strlit(",");
        reveal_strlit(",\n    table: __leaf_methods_");
        let p2 = ","@;
        let p1 = ",\n    table: __leaf_methods_"@ + seq!['#'] + "mangled"@ + p2;
        let p0 = "\n    contract: "@ + seq!['#'] + "contract"@ + p1;
        filled_plain(p2, slots);
        filled_step(",\n    table: __leaf_methods_"@, "mangled"@, p2, slots);
        filled_step("\n    contract: "@, "contract"@, p1, slots);
        filled_part(t, 379, 440, slots);
        assert(("\n    contract: "@ + contract_here(ident) + (",\n    table: __leaf_methods_"@ + mangled(ident) + ","@)) =~= "\n    contract: "@ + contract_here(ident) + ",\n    table: __leaf_methods_"@ + mangled(ident) + ","@);
    }
}

/// The name of the concrete type that a proxy is registered for.
pub open spec fn proxy_name(form: TypeForm) -> Result<Seq<char>, Seq<char>> {
    match form {
        TypeForm::Path { last, .. } => Ok(last),
        _ => Err("register_proxy! expects a concrete type with a nameable identifier"@),
    }
}

/// The name of the concrete type that a proxy is registered for.
pub fn proxy_ident_of(shape: &TypeShape) -> (res: Result<String, EmitError>)
    ensures
        told(res) == proxy_name(shape@),
{
    match shape {
        TypeShape::Path { last, .. } => Ok(last.clone()),
        _ => error(
            "register_proxy! expects a concrete type with a nameable identifier".to_string(),
        ),
    }
}

/// The name of the concrete type that a proxy is registered for. A source that is no
/// type has none.
pub fn proxy_ident(ty: &str) -> (res: Result<String, EmitError>)
    ensures
        told(res) == match type_in(ty@) {
            Ok(form) => proxy_name(form),
            Err(_) => proxy_name(TypeForm::Other),
        },
{
    match type_shape(ty) {
        Ok(shape) => proxy_ident_of(&shape),
        Err(_) => proxy_ident_of(&TypeShape::Other),
    }
}

} // verus!
