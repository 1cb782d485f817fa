//! Scheduled methods, cached methods, resources and message catalogs: the arguments of
//! their attributes, and the source that registers them.
use vstd::prelude::*;

use crate::args::{
    arguments, assign_ident, assigns, bare_key, bool_value, count_value, error, flag_value,
    parse_arguments, settle, settled, str_array, str_value, text_value, texts_value, told,
    uint_value, Arg, ArgKind, EmitError, Expression, Form, Settings,
};
use crate::naming::{
    contract_here, contract_text, literal_list, literal_list_text, mangle, mangled,
};
use crate::syntax::{literal_source, string_literal};
use crate::reading::{
    behind, behind_front, decimal_is_read, is_digit, leading_number, stands_in, within,
    within_brackets,
};
use crate::template::{
    filled, filled_part, filled_plain, filled_step, is_name_char, no_slots, slot_at, slot_text,
    Slots,
};
use crate::text::{bool_source, bool_text, decimal, decimal_text, str_eq};

verus! {

/// When a scheduled method runs.
#[derive(Clone, Debug, PartialEq, Eq)]
pub enum ScheduleSpec {
    /// At the times of a cron expression.
    Cron(String),
    /// At a fixed rate.
    FixedRate {
        /// From start to start, in milliseconds.
        period_ms: u64,
        /// Before the first start, in milliseconds.
        initial_delay_ms: u64,
    },
    /// At a fixed distance.
    FixedDelay {
        /// From end to start, in milliseconds.
        delay_ms: u64,
        /// Before the first start, in milliseconds.
        initial_delay_ms: u64,
    },
}

/// What a [`ScheduleSpec`] stands for.
pub ghost enum Schedule {
    Cron(Seq<char>),
    FixedRate { period: nat, initial: nat },
    FixedDelay { delay: nat, initial: nat },
}

impl View for ScheduleSpec {
    type V = Schedule;

    open spec fn view(&self) -> Schedule {
        match self {
            ScheduleSpec::Cron(expr) => Schedule::Cron(expr@),
            ScheduleSpec::FixedRate { period_ms, initial_delay_ms } => Schedule::FixedRate {
                period: *period_ms as nat,
                initial: *initial_delay_ms as nat,
            },
            ScheduleSpec::FixedDelay { delay_ms, initial_delay_ms } => Schedule::FixedDelay {
                delay: *delay_ms as nat,
                initial: *initial_delay_ms as nat,
            },
        }
    }
}

/// A number of milliseconds as a duration.
pub open spec fn millis_source(ms: nat) -> Seq<char> {
    "::core::time::Duration::from_millis("@ + decimal(ms) + "u64)"@
}

/// Prints a number of milliseconds as a duration.
fn duration_ms(ms: u64) -> (res: String)
    ensures
        res@ == millis_source(ms as nat),
{
    let number = decimal_text(ms);
    "::core::time::Duration::from_millis(".to_string().concat(number.as_str()).concat("u64)")
}

/// A schedule as a `::leaf_core::TriggerSpec`.
pub open spec fn trigger_source(schedule: Schedule) -> Seq<char> {
    match schedule {
        Schedule::Cron(expr) => "::leaf_core::TriggerSpec::Cron("@ + literal_source(expr) + ")"@,
        Schedule::FixedRate { period, initial } => "::leaf_core::TriggerSpec::FixedRate { period: "@
            + millis_source(period) + ", initial_delay: "@ + millis_source(initial) + " }"@,
        Schedule::FixedDelay { delay, initial } => "::leaf_core::TriggerSpec::FixedDelay { delay: "@
            + millis_source(delay) + ", initial_delay: "@ + millis_source(initial) + " }"@,
    }
}

/// The number of milliseconds that `s` begins with as a duration, and what follows it.
pub open spec fn leading_millis(s: Seq<char>) -> Option<(nat, Seq<char>)> {
    match behind(s, "::core::time::Duration::from_millis("@) {
        Some(digits) => match leading_number(digits) {
            Some((ms, rest)) => match behind(rest, "u64)"@) {
                Some(rest) => Some((ms, rest)),
                None => None,
            },
            None => None,
        },
        None => None,
    }
}

/// The two durations in a trigger: what stands behind `front`, and the initial delay.
pub open spec fn two_durations(s: Seq<char>, front: Seq<char>) -> Option<(nat, nat)> {
    match behind(s, front) {
        Some(rest) => match leading_millis(rest) {
            Some((first, rest)) => match behind(rest, ", initial_delay: "@) {
                Some(rest) => match leading_millis(rest) {
                    Some((second, rest)) => if rest == " }"@ {
                        Some((first, second))
                    } else {
                        None
                    },
                    None => None,
                },
                None => None,
            },
            None => None,
        },
        None => None,
    }
}

/// The schedule that a trigger is read as.
pub open spec fn trigger_read(s: Seq<char>) -> Option<Schedule> {
    match two_durations(s, "::leaf_core::TriggerSpec::FixedRate { period: "@) {
        Some((period, initial)) => Some(Schedule::FixedRate { period, initial }),
        None => match two_durations(s, "::leaf_core::TriggerSpec::FixedDelay { delay: "@) {
            Some((delay, initial)) => Some(Schedule::FixedDelay { delay, initial }),
            None => None,
        },
    }
}

/// A duration is read up to what follows it.
proof fn millis_are_read(ms: nat, rest: Seq<char>)
    ensures
        leading_millis(millis_source(ms) + rest) == Some((ms, rest)),
{
    reveal_strlit("u64)");
    let front = "::core::time::Duration::from_millis("@;
    let back = "u64)"@ + rest;
    assert(millis_source(ms) + rest =~= front + (decimal(ms) + back));
    behind_front(front, decimal(ms) + back);
    assert(!is_digit(back[0]));
    decimal_is_read(ms, back);
    behind_front("u64)"@, rest);
}

/// Two durations are read, each in its place.
proof fn durations_are_read(front: Seq<char>, first: nat, second: nat)
    ensures
        two_durations(
            front + millis_source(first) + ", initial_delay: "@ + millis_source(second) + " }"@,
            front,
        ) == Some((first, second)),
{
    let end = millis_source(second) + " }"@;
    let mid = ", initial_delay: "@ + end;
    let s = front + (millis_source(first) + mid);
    assert(front + millis_source(first) + ", initial_delay: "@ + millis_source(second) + " }"@
        =~= s);
    behind_front(front, millis_source(first) + mid);
    millis_are_read(first, mid);
    behind_front(", initial_delay: "@, end);
    millis_are_read(second, " }"@);
}

/// A trigger at a fixed rate or a fixed distance is read as the schedule it was printed for:
/// each duration stands in its own field. A cron trigger holds its expression.
pub proof fn trigger_reads_back(schedule: Schedule)
    ensures
        schedule matches Schedule::Cron(expr) ==> within(
            trigger_source(schedule),
            "::leaf_core::TriggerSpec::Cron("@,
            ")"@,
        ) == Some(literal_source(expr)),
        !(schedule is Cron) ==> trigger_read(trigger_source(schedule)) == Some(schedule),
{
    let s = trigger_source(schedule);
    let rate = "::leaf_core::TriggerSpec::FixedRate { period: "@;
    let delay = "::leaf_core::TriggerSpec::FixedDelay { delay: "@;
    match schedule {
        Schedule::Cron(expr) => {
            within_brackets("::leaf_core::TriggerSpec::Cron("@, literal_source(expr), ")"@);
        },
        Schedule::FixedRate { period, initial } => {
            durations_are_read(rate, period, initial);
        },
        Schedule::FixedDelay { delay: d, initial } => {
            durations_are_read(delay, d, initial);
            reveal_strlit("::leaf_core::TriggerSpec::FixedRate { period: ");
            reveal_strlit("::leaf_core::TriggerSpec::FixedDelay { delay: ");
            assert(delay[31] == 'D');
            assert(rate[31] == 'R');
            assert(s[31] == delay[31]);
            if s.len() >= rate.len() {
                assert(s.take(rate.len() as int)[31] == s[31]);
            }
        },
    }
}

impl ScheduleSpec {
    /// Prints the schedule.
    pub fn lower(&self) -> (res: String)
        ensures
            res@ == trigger_source(self@),
    {
        match self {
            ScheduleSpec::Cron(expr) => {
                let expr = string_literal(expr.as_str());
                "::leaf_core::TriggerSpec::Cron(".to_string().concat(expr.as_str()).concat(")")
            },
            ScheduleSpec::FixedRate { period_ms, initial_delay_ms } => {
                let period = duration_ms(*period_ms);
                let initial = duration_ms(*initial_delay_ms);
                "::leaf_core::TriggerSpec::FixedRate { period: ".to_string().concat(
                    period.as_str(),
                ).concat(", initial_delay: ").concat(initial.as_str()).concat(" }")
            },
            ScheduleSpec::FixedDelay { delay_ms, initial_delay_ms } => {
                let delay = duration_ms(*delay_ms);
                let initial = duration_ms(*initial_delay_ms);
                "::leaf_core::TriggerSpec::FixedDelay { delay: ".to_string().concat(
                    delay.as_str(),
                ).concat(", initial_delay: ").concat(initial.as_str()).concat(" }")
            },
        }
    }
}

/// What the attribute of a scheduled method has said so far.
pub struct ScheduleSettings {
    /// The cron expression.
    pub cron: Option<String>,
    /// The fixed rate.
    pub fixed_rate: Option<u64>,
    /// The fixed distance.
    pub fixed_delay: Option<u64>,
    /// The delay before the first start.
    pub initial_delay: u64,
}

/// What [`ScheduleSettings`] stand for.
pub ghost struct ScheduleKeys {
    pub cron: Option<Seq<char>>,
    pub rate: Option<u64>,
    pub delay: Option<u64>,
    pub initial: u64,
}

impl View for ScheduleSettings {
    type V = ScheduleKeys;

    open spec fn view(&self) -> ScheduleKeys {
        ScheduleKeys {
            cron: self.cron.deep_view(),
            rate: self.fixed_rate,
            delay: self.fixed_delay,
            initial: self.initial_delay,
        }
    }
}

/// The keys after one more argument.
pub open spec fn after_schedule(s: ScheduleKeys, e: Expression) -> Result<
    ScheduleKeys,
    Seq<char>,
> {
    match e.kind {
        Form::Assign { left, right } => match bare_key(*left) {
            Err(message) => Err(message),
            Ok(key) => if key == "cron"@ {
                match text_value(*right) {
                    Some(expr) => Ok(ScheduleKeys { cron: Some(expr), ..s }),
                    None => Err("`cron` must be a string expression"@),
                }
            } else if key == "fixed_rate"@ {
                match count_value(*right) {
                    Ok(n) => Ok(ScheduleKeys { rate: Some(n), ..s }),
                    Err(message) => Err(message),
                }
            } else if key == "fixed_delay"@ {
                match count_value(*right) {
                    Ok(n) => Ok(ScheduleKeys { delay: Some(n), ..s }),
                    Err(message) => Err(message),
                }
            } else if key == "initial_delay"@ {
                match count_value(*right) {
                    Ok(n) => Ok(ScheduleKeys { initial: n, ..s }),
                    Err(message) => Err(message),
                }
            } else {
                Err(
                    "unknown #[scheduled] argument `"@ + key
                        + "` (expected `cron`/`fixed_rate`/`fixed_delay`/`initial_delay`)"@,
                )
            },
        },
        _ => Err("#[scheduled] arguments must be `key = value` pairs, got `"@ + e.source + "`"@),
    }
}

impl Settings for ScheduleSettings {
    open spec fn after(settings: ScheduleKeys, e: Expression) -> Result<ScheduleKeys, Seq<char>> {
        after_schedule(settings, e)
    }

    fn apply(self, arg: &Arg) -> (res: Result<ScheduleSettings, EmitError>) {
        let (left, right) = match &arg.kind {
            ArgKind::Assign { left, right } => (left, right),
            _ => return error(
                "#[scheduled] arguments must be `key = value` pairs, got `".to_string().concat(
                    arg.source.as_str(),
                ).concat("`"),
            ),
        };
        let key = match assign_ident(left) {
            Ok(key) => key,
            Err(e) => return Err(e),
        };
        let mut settings = self;
        if str_eq(key.as_str(), "cron") {
            match str_value(right) {
                Some(expr) => settings.cron = Some(expr),
                None => return error("`cron` must be a string expression".to_string()),
            }
        } else if str_eq(key.as_str(), "fixed_rate") {
            match uint_value(right) {
                Ok(n) => settings.fixed_rate = Some(n),
                Err(e) => return Err(e),
            }
        } else if str_eq(key.as_str(), "fixed_delay") {
            match uint_value(right) {
                Ok(n) => settings.fixed_delay = Some(n),
                Err(e) => return Err(e),
            }
        } else if str_eq(key.as_str(), "initial_delay") {
            match uint_value(right) {
                Ok(n) => settings.initial_delay = n,
                Err(e) => return Err(e),
            }
        } else {
            return error(
                "unknown #[scheduled] argument `".to_string().concat(key.as_str()).concat(
                    "` (expected `cron`/`fixed_rate`/`fixed_delay`/`initial_delay`)",
                ),
            );
        }
        Ok(settings)
    }
}

/// Each key of a schedule sets what it names and leaves the rest; any other key is refused.
pub proof fn schedule_keys_set_their_own(s: ScheduleKeys, e: Expression, key: Seq<char>, v: Expression)
    requires
        assigns(e, key, v),
    ensures
        key == "cron"@ && v.kind is Str ==> after_schedule(s, e) == Ok::<ScheduleKeys, Seq<char>>(
            ScheduleKeys { cron: Some(v.kind->Str_0), ..s },
        ),
        key == "fixed_rate"@ && count_value(v) is Ok ==> after_schedule(s, e) == Ok::<
            ScheduleKeys,
            Seq<char>,
        >(ScheduleKeys { rate: Some(count_value(v)->Ok_0), ..s }),
        key == "fixed_delay"@ && count_value(v) is Ok ==> after_schedule(s, e) == Ok::<
            ScheduleKeys,
            Seq<char>,
        >(ScheduleKeys { delay: Some(count_value(v)->Ok_0), ..s }),
        key == "initial_delay"@ && count_value(v) is Ok ==> after_schedule(s, e) == Ok::<
            ScheduleKeys,
            Seq<char>,
        >(ScheduleKeys { initial: count_value(v)->Ok_0, ..s }),
        key != "cron"@ && key != "fixed_rate"@ && key != "fixed_delay"@ && key != "initial_delay"@
            ==> after_schedule(s, e) is Err,
        key == "cron"@ && !(v.kind is Str) ==> after_schedule(s, e) is Err,
        key != "cron"@ && count_value(v) is Err ==> after_schedule(s, e) is Err,
{
    reveal_strlit("cron");
    reveal_strlit("fixed_rate");
    reveal_strlit("fixed_delay");
    reveal_strlit("initial_delay");
    assert("cron"@.len() != "fixed_rate"@.len());
    assert("cron"@.len() != "fixed_delay"@.len());
    assert("cron"@.len() != "initial_delay"@.len());
    assert("fixed_rate"@.len() != "fixed_delay"@.len());
    assert("fixed_rate"@.len() != "initial_delay"@.len());
    assert("fixed_delay"@.len() != "initial_delay"@.len());
}

/// The schedule that the keys give: exactly one of the three triggers has to be there.
pub open spec fn schedule_given(s: ScheduleKeys) -> Result<Schedule, Seq<char>> {
    match (s.cron, s.rate, s.delay) {
        (Some(expr), None, None) => Ok(Schedule::Cron(expr)),
        (None, Some(period), None) => Ok(
            Schedule::FixedRate { period: period as nat, initial: s.initial as nat },
        ),
        (None, None, Some(delay)) => Ok(
            Schedule::FixedDelay { delay: delay as nat, initial: s.initial as nat },
        ),
        (None, None, None) => Err(
            "#[scheduled] requires one of `cron`/`fixed_rate`/`fixed_delay`"@,
        ),
        _ => Err("#[scheduled] accepts exactly one of `cron`/`fixed_rate`/`fixed_delay`"@),
    }
}

/// A schedule is given by exactly one trigger, which keeps its own number, and the initial delay.
pub proof fn one_trigger_is_given(s: ScheduleKeys)
    ensures
        schedule_given(s) is Ok <==> (s.cron is Some && s.rate is None && s.delay is None) || (
        s.cron is None && s.rate is Some && s.delay is None) || (s.cron is None && s.rate is None
            && s.delay is Some),
        schedule_given(s) matches Ok(schedule) ==> {
            &&& s.cron matches Some(expr) ==> schedule == Schedule::Cron(expr)
            &&& s.rate matches Some(n) ==> schedule == (Schedule::FixedRate {
                period: n as nat,
                initial: s.initial as nat,
            })
            &&& s.delay matches Some(n) ==> schedule == (Schedule::FixedDelay {
                delay: n as nat,
                initial: s.initial as nat,
            })
        },
        silent_schedule() == (ScheduleKeys { cron: None, rate: None, delay: None, initial: 0 }),
{
}

/// What an attribute that says nothing sets.
pub open spec fn silent_schedule() -> ScheduleKeys {
    ScheduleKeys { cron: None, rate: None, delay: None, initial: 0 }
}

/// The schedule that the arguments of a scheduled method give.
pub open spec fn schedule_settings(items: Seq<Expression>) -> Result<Schedule, Seq<char>> {
    match settled::<ScheduleSettings>(silent_schedule(), items) {
        Ok(settings) => schedule_given(settings),
        Err(message) => Err(message),
    }
}

/// A schedule is what its items come to, and is refused where one of them is.
pub proof fn items_make_the_schedule(items: Seq<Expression>)
    ensures
        settled::<ScheduleSettings>(silent_schedule(), items) matches Ok(s) ==> schedule_settings(
            items,
        ) == schedule_given(s),
        settled::<ScheduleSettings>(silent_schedule(), items) is Err ==> schedule_settings(
            items,
        ) is Err,
        schedule_settings(Seq::empty()) is Err,
{
}

/// The schedule that the arguments of a scheduled method give.
pub fn schedule_of(items: &[Arg]) -> (res: Result<ScheduleSpec, EmitError>)
    ensures
        told(res) == schedule_settings(items.deep_view()),
{
    let start = ScheduleSettings {
        cron: None,
        fixed_rate: None,
        fixed_delay: None,
        initial_delay: 0,
    };
    assert(start@ == silent_schedule());
    let settings = match settle(start, items) {
        Ok(settings) => settings,
        Err(e) => return Err(e),
    };
    let initial_delay_ms = settings.initial_delay;
    match (settings.cron, settings.fixed_rate, settings.fixed_delay) {
        (Some(expr), None, None) => Ok(ScheduleSpec::Cron(expr)),
        (None, Some(period_ms), None) => Ok(
            ScheduleSpec::FixedRate { period_ms, initial_delay_ms },
        ),
        (None, None, Some(delay_ms)) => Ok(ScheduleSpec::FixedDelay { delay_ms, initial_delay_ms }),
        (None, None, None) => error(
            "#[scheduled] requires one of `cron`/`fixed_rate`/`fixed_delay`".to_string(),
        ),
        _ => error(
            "#[scheduled] accepts exactly one of `cron`/`fixed_rate`/`fixed_delay`".to_string(),
        ),
    }
}

/// Reads the arguments of a scheduled method.
pub fn parse_schedule(attr: &str) -> (res: Result<ScheduleSpec, EmitError>)
    ensures
        told(res) == match arguments(attr@) {
            Ok(items) => schedule_settings(items),
            Err(message) => Err("malformed #[scheduled] arguments: "@ + message),
        },
        attr@.len() == 0 ==> told(res) == Err::<Schedule, Seq<char>>(
            "#[scheduled] requires one of `cron`/`fixed_rate`/`fixed_delay`"@,
        ),
{
    match parse_arguments(attr) {
        Ok(items) => schedule_of(items.as_slice()),
        Err(message) => error(
            "malformed #[scheduled] arguments: ".to_string().concat(message.as_str()),
        ),
    }
}

/// The path of a method in the module that the source is placed in.
pub open spec fn method_here(ident: Seq<char>, method: Seq<char>) -> Seq<char> {
    "::core::concat!(::core::module_path!(), \"::\", "@ + literal_source(ident) + ", \"::\", "@
        + literal_source(method) + ")"@
}

/// Prints the path of a method in the module that the source is placed in.
fn method_text(ident: &str, method: &str) -> (res: String)
    ensures
        res@ == method_here(ident@, method@),
{
    let bean = string_literal(ident);
    let name = string_literal(method);
    "::core::concat!(::core::module_path!(), \"::\", ".to_string().concat(bean.as_str()).concat(
        ", \"::\", ",
    ).concat(name.as_str()).concat(")")
}

/// The names of a bean and a method as a part of an identifier.
pub open spec fn mangled_method(ident: Seq<char>, method: Seq<char>) -> Seq<char> {
    mangled(ident + "_"@ + method)
}

/// Makes the names of a bean and a method a part of an identifier.
fn mangle_method(ident: &str, method: &str) -> (res: String)
    ensures
        res@ == mangled_method(ident@, method@),
{
    mangle(ident.to_string().concat("_").concat(method).as_str())
}

/// The path of a method names its bean and then the method.
pub proof fn method_path_names_bean_and_method(ident: Seq<char>, method: Seq<char>)
    ensures
        within(
            method_here(ident, method),
            "::core::concat!(::core::module_path!(), \"::\", "@,
            ")"@,
        ) == Some(literal_source(ident) + ", \"::\", "@ + literal_source(method)),
        mangled_method(ident, method) == mangled(ident + "_"@ + method),
{
    let inner = literal_source(ident) + ", \"::\", "@ + literal_source(method);
    within_brackets("::core::concat!(::core::module_path!(), \"::\", "@, inner, ")"@);
    assert(method_here(ident, method) =~= "::core::concat!(::core::module_path!(), \"::\", "@
        + inner + ")"@);
}

/// The registration of a scheduled method.
pub const SCHEDULED: &'static str = "#[allow(non_upper_case_globals)]
pub const __leaf_scheduled_#mangled: ::leaf_core::ScheduledMethodDescriptor = ::leaf_core::ScheduledMethodDescriptor::new(
    #contract,
    ::leaf_core::MethodKey::of(#path),
    #trigger,
);
#[::linkme::distributed_slice(::leaf_core::SCHEDULED)]
static __LEAF_SCHEDULED_#mangled: ::leaf_core::ScheduledRow = __leaf_scheduled_#mangled.to_row();
";

/// The source that registers a scheduled method.
pub open spec fn scheduled_source(
    ident: Seq<char>,
    method: Seq<char>,
    schedule: Schedule,
) -> Seq<char> {
    filled(
        SCHEDULED@,
        no_slots().push(("mangled"@, mangled_method(ident, method))).push(
            ("contract"@, contract_here(ident)),
        ).push(("path"@, method_here(ident, method))).push(
            ("trigger"@, trigger_source(schedule)),
        ),
    )
}

/// Pieces of the template, where they stand in it.
#[verifier::spinoff_prover]
#[verifier::rlimit(60)]
proof fn scheduled_pieces()
    ensures
        SCHEDULED@.len() == 380,
        SCHEDULED@.subrange(149, 226) == "::new(\n    "@ + seq!['#'] + "contract"@ + (",\n    ::leaf_core::MethodKey::of("@ + seq!['#'] + "path"@ + ("),\n    "@ + seq!['#'] + "trigger"@ + ",\n);"@)),
        !is_name_char(SCHEDULED@[149]),
        !is_name_char(SCHEDULED@[226]),
        SCHEDULED@.subrange(228, 379) == "[::linkme::distributed_slice(::leaf_core::SCHEDULED)]\nstatic __LEAF_SCHEDULED_"@ + seq!['#'] + "mangled"@ + (": ::leaf_core::ScheduledRow = __leaf_scheduled_"@ + seq!['#'] + "mangled"@ + ".to_row();"@),
        !is_name_char(SCHEDULED@[228]),
        !is_name_char(SCHEDULED@[379]),
{
    reveal_strlit(
        "#[allow(non_upper_case_globals)]
pub const __leaf_scheduled_#mangled: ::leaf_core::ScheduledMethodDescriptor = ::leaf_core::ScheduledMethodDescriptor::new(
    #contract,
    ::leaf_core::MethodKey::of(#path),
    #trigger,
);
#[::linkme::distributed_slice(::leaf_core::SCHEDULED)]
static __LEAF_SCHEDULED_#mangled: ::leaf_core::ScheduledRow = __leaf_scheduled_#mangled.to_row();
",
    );
    reveal_strlit("),\n    ");
    reveal_strlit(",\n    ::leaf_core::MethodKey::of(");
    reveal_strlit(",\n);");
    reveal_strlit(".to_row();");
    reveal_strlit(": ::leaf_core::ScheduledRow = __leaf_scheduled_");
    reveal_strlit("::new(\n    ");
    reveal_strlit("[::linkme::distributed_slice(::leaf_core::SCHEDULED)]\nstatic __LEAF_SCHEDULED_");
    reveal_strlit("contract");
    reveal_strlit("mangled");
    reveal_strlit("path");
    reveal_strlit("trigger");
    assert(SCHEDULED@.subrange(149, 226) =~= "::new(\n    "@ + seq!['#'] + "contract"@ + (",\n    ::leaf_core::MethodKey::of("@ + seq!['#'] + "path"@ + ("),\n    "@ + seq!['#'] + "trigger"@ + ",\n);"@)));
    assert(SCHEDULED@.subrange(228, 379) =~= "[::linkme::distributed_slice(::leaf_core::SCHEDULED)]\nstatic __LEAF_SCHEDULED_"@ + seq!['#'] + "mangled"@ + (": ::leaf_core::ScheduledRow = __leaf_scheduled_"@ + seq!['#'] + "mangled"@ + ".to_row();"@));
}

/// What the slots of the template hold.
proof fn scheduled_slots_are_found(ident: Seq<char>, method: Seq<char>, schedule: Schedule)
    ensures
        ({
            let slots = no_slots().push(("mangled"@, mangled_method(ident, method))).push(
        ("contract"@, contract_here(ident)),
    ).push(("path"@, method_here(ident, method))).push(("trigger"@, trigger_source(schedule)));
            &&& slot_text(slots, "contract"@) == Some(contract_here(ident))
            &&& slot_text(slots, "path"@) == Some(method_here(ident, method))
            &&& slot_text(slots, "trigger"@) == Some(trigger_source(schedule))
            &&& slot_text(slots, "mangled"@) == Some(mangled_method(ident, method))
        }),
{
    reveal_strlit("mangled");
    reveal_strlit("contract");
    reveal_strlit("path");
    reveal_strlit("trigger");
    let slots = no_slots().push(("mangled"@, mangled_method(ident, method))).push(
        ("contract"@, contract_here(ident)),
    ).push(("path"@, method_here(ident, method))).push(("trigger"@, trigger_source(schedule)));
    assert("mangled"@.len() != "contract"@.len());
    slot_at(slots, 1);
    assert("mangled"@.len() != "path"@.len());
    assert("contract"@.len() != "path"@.len());
    slot_at(slots, 2);
    assert("mangled"@[0] != "trigger"@[0]);
    assert("contract"@.len() != "trigger"@.len());
    assert("path"@.len() != "trigger"@.len());
    slot_at(slots, 3);
    slot_at(slots, 0);
}

/// A scheduled method is registered under its bean and its own path, with its trigger, and
/// the row that is collected is made of that registration.
#[verifier::spinoff_prover]
#[verifier::rlimit(60)]
pub proof fn scheduled_method_has_its_trigger(ident: Seq<char>, method: Seq<char>, schedule: Schedule)
    ensures
        stands_in(
            "::new(\n    "@ + contract_here(ident) + ",\n    ::leaf_core::MethodKey::of("@ + method_here(ident, method) + "),\n    "@ + trigger_source(schedule) + ",\n);"@,
            scheduled_source(ident, method, schedule),
        ),
        stands_in(
            "[::linkme::distributed_slice(::leaf_core::SCHEDULED)]\nstatic __LEAF_SCHEDULED_"@ + mangled_method(ident, method) + ": ::leaf_core::ScheduledRow = __leaf_scheduled_"@ + mangled_method(ident, method) + ".to_row();"@,
            scheduled_source(ident, method, schedule),
        ),
{
    scheduled_pieces();
    scheduled_slots_are_found(ident, method, schedule);
    let t = SCHEDULED@;
    let slots = no_slots().push(("mangled"@, mangled_method(ident, method))).push(
        ("contract"@, contract_here(ident)),
    ).push(("path"@, method_here(ident, method))).push(("trigger"@, trigger_source(schedule)));
    assert(stands_in("::new(\n    "@ + contract_here(ident) + ",\n    ::leaf_core::MethodKey::of("@ + method_here(ident, method) + "),\n    "@ + trigger_source(schedule) + ",\n);"@,scheduled_source(ident, method, schedule))) by {
        reveal_strlit("contract");
        reveal_strlit("path");
        reveal_strlit("trigger");
        reveal_strlit("),\n    ");
        reveal_strlit(",\n    ::leaf_core::MethodKey::of(");
        reveal_strlit(",\n);");
        reveal_strlit("::new(\n    ");
        let p3 = ",\n);"@;
        let p2 = "),\n    "@ + seq!['#'] + "trigger"@ + p3;
        let p1 = ",\n    ::leaf_core::MethodKey::of("@ + seq!['#'] + "path"@ + p2;
        let p0 = "::new(\n    "@ + seq!['#'] + "contract"@ + p1;
        filled_plain(p3, slots);
        filled_step("),\n    "@, "trigger"@, p3, slots);
        filled_step(",\n    ::leaf_core::MethodKey::of("@, "path"@, p2, slots);
        filled_step("::new(\n    "@, "contract"@, p1, slots);
        filled_part(t, 149, 226, slots);
        assert(("::new(\n    "@ + contract_here(ident) + (",\n    ::leaf_core::MethodKey::of("@ + method_here(ident, method) + ("),\n    "@ + trigger_source(schedule) + ",\n);"@))) =~= "::new(\n    "@ + contract_here(ident) + ",\n    ::leaf_core::MethodKey::of("@ + method_here(ident, method) + "),\n    "@ + trigger_source(schedule) + ",\n);"@);
    }
    assert(stands_in("[::linkme::distributed_slice(::leaf_core::SCHEDULED)]\nstatic __LEAF_SCHEDULED_"@ + mangled_method(ident, method) + ": ::leaf_core::ScheduledRow = __leaf_scheduled_"@ + mangled_method(ident, method) + ".to_row();"@,scheduled_source(ident, method, schedule))) by {
        reveal_strlit("mangled");
        reveal_strlit(".to_row();");
        reveal_strlit(": ::leaf_core::ScheduledRow = __leaf_scheduled_");
        reveal_strlit("[::linkme::distributed_slice(::leaf_core::SCHEDULED)]\nstatic __LEAF_SCHEDULED_");
        let p2 = ".to_row();"@;
        let p1 = ": ::leaf_core::ScheduledRow = __leaf_scheduled_"@ + seq!['#'] + "mangled"@ + p2;
        let p0 = "[::linkme::distributed_slice(::leaf_core::SCHEDULED)]\nstatic __LEAF_SCHEDULED_"@ + seq!['#'] + "mangled"@ + p1;
        filled_plain(p2, slots);
        filled_step(": ::leaf_core::ScheduledRow = __leaf_scheduled_"@, "mangled"@, p2, slots);
        filled_step("[::linkme::distributed_slice(::leaf_core::SCHEDULED)]\nstatic __LEAF_SCHEDULED_"@, "mangled"@, p1, slots);
        filled_part(t, 228, 379, slots);
        assert(("[::linkme::distributed_slice(::leaf_core::SCHEDULED)]\nstatic __LEAF_SCHEDULED_"@ + mangled_method(ident, method) + (": ::leaf_core::ScheduledRow = __leaf_scheduled_"@ + mangled_method(ident, method) + ".to_row();"@)) =~= "[::linkme::distributed_slice(::leaf_core::SCHEDULED)]\nstatic __LEAF_SCHEDULED_"@ + mangled_method(ident, method) + ": ::leaf_core::ScheduledRow = __leaf_scheduled_"@ + mangled_method(ident, method) + ".to_row();"@);
    }
}

/// Prints the registration of the scheduled method `method` of the bean `ident`.
pub fn emit_scheduled(ident: &str, method: &str, spec: &ScheduleSpec) -> (res: String)
    ensures
        res@ == scheduled_source(ident@, method@, spec@),
{
    let slots = Slots::new().with("mangled", mangle_method(ident, method).as_str()).with(
        "contract",
        contract_text(ident).as_str(),
    ).with("path", method_text(ident, method).as_str()).with("trigger", spec.lower().as_str());
    slots.fill(SCHEDULED)
}

/// What the attribute of a cached method says.
#[derive(Clone, Debug, Default, PartialEq, Eq)]
pub struct CacheArgs {
    /// The names of the caches.
    pub cache_names: Vec<String>,
    /// Whether the cache is worked on before the method runs.
    pub before_invocation: bool,
    /// Whether calls wait for one another.
    pub sync: bool,
    /// Whether all entries are meant.
    pub all_entries: bool,
}

/// What [`CacheArgs`] stand for.
pub ghost struct CacheOp {
    pub names: Seq<Seq<char>>,
    pub before: bool,
    pub sync: bool,
    pub all: bool,
}

impl View for CacheArgs {
    type V = CacheOp;

    open spec fn view(&self) -> CacheOp {
        CacheOp {
            names: self.cache_names.deep_view(),
            before: self.before_invocation,
            sync: self.sync,
            all: self.all_entries,
        }
    }
}

/// What is said after one more argument.
pub open spec fn after_cache(s: CacheOp, e: Expression) -> Result<CacheOp, Seq<char>> {
    match e.kind {
        Form::Str(name) => Ok(CacheOp { names: s.names.push(name), ..s }),
        Form::Assign { left, right } => match bare_key(*left) {
            Err(message) => Err(message),
            Ok(key) => if key == "caches"@ {
                match texts_value(*right) {
                    Ok(names) => Ok(CacheOp { names: s.names + names, ..s }),
                    Err(message) => Err(message),
                }
            } else if key == "sync"@ {
                match flag_value(*right) {
                    Ok(b) => Ok(CacheOp { sync: b, ..s }),
                    Err(message) => Err(message),
                }
            } else if key == "before_invocation"@ {
                match flag_value(*right) {
                    Ok(b) => Ok(CacheOp { before: b, ..s }),
                    Err(message) => Err(message),
                }
            } else if key == "all_entries"@ {
                match flag_value(*right) {
                    Ok(b) => Ok(CacheOp { all: b, ..s }),
                    Err(message) => Err(message),
                }
            } else {
                Err(
                    "unknown #[cacheable] argument `"@ + key
                        + "` (expected `sync`/`before_invocation`/`all_entries`)"@,
                )
            },
        },
        _ => Err(
            "#[cacheable] expects cache-name strings then `name = value` flags, got `"@ + e.source
                + "`"@,
        ),
    }
}

impl Settings for CacheArgs {
    open spec fn after(settings: CacheOp, e: Expression) -> Result<CacheOp, Seq<char>> {
        after_cache(settings, e)
    }

    fn apply(self, arg: &Arg) -> (res: Result<CacheArgs, EmitError>) {
        let mut args = self;
        match &arg.kind {
            ArgKind::Str(name) => {
                args.cache_names.push(name.clone());
                assert(args@.names =~= self@.names.push(name@));
            },
            ArgKind::Assign { left, right } => {
                let key = match assign_ident(left) {
                    Ok(key) => key,
                    Err(e) => return Err(e),
                };
                if str_eq(key.as_str(), "caches") {
                    return match str_array(right) {
                        Ok(names) => {
                            let mut names = names;
                            let ghost new = names.deep_view();
                            args.cache_names.append(&mut names);
                            assert(args@.names =~= self@.names + new);
                            Ok(args)
                        },
                        Err(e) => Err(e),
                    };
                }
                let sync = str_eq(key.as_str(), "sync");
                let before = str_eq(key.as_str(), "before_invocation");
                let all = str_eq(key.as_str(), "all_entries");
                if !sync && !before && !all {
                    return error(
                        "unknown #[cacheable] argument `".to_string().concat(key.as_str()).concat(
                            "` (expected `sync`/`before_invocation`/`all_entries`)",
                        ),
                    );
                }
                let flag = match bool_value(right) {
                    Ok(flag) => flag,
                    Err(e) => return Err(e),
                };
                if sync {
                    args.sync = flag;
                } else if before {
                    args.before_invocation = flag;
                } else {
                    args.all_entries = flag;
                }
            },
            _ => return error(
                "#[cacheable] expects cache-name strings then `name = value` flags, got `"
                    .to_string().concat(arg.source.as_str()).concat("`"),
            ),
        }
        Ok(args)
    }
}

/// Each key of a cached method sets what it names and leaves the rest; names are added behind those
/// that were given before.
pub proof fn cache_keys_set_their_own(s: CacheOp, e: Expression, key: Seq<char>, v: Expression)
    ensures
        e.kind is Str ==> after_cache(s, e) == Ok::<CacheOp, Seq<char>>(
            CacheOp { names: s.names.push(e.kind->Str_0), ..s },
        ),
        assigns(e, key, v) ==> {
            &&& key == "caches"@ && texts_value(v) is Ok ==> after_cache(s, e) == Ok::<
                CacheOp,
                Seq<char>,
            >(CacheOp { names: s.names + texts_value(v)->Ok_0, ..s })
            &&& key == "sync"@ && v.kind is Bool ==> after_cache(s, e) == Ok::<CacheOp, Seq<char>>(
                CacheOp { sync: v.kind->Bool_0, ..s },
            )
            &&& key == "before_invocation"@ && v.kind is Bool ==> after_cache(s, e) == Ok::<
                CacheOp,
                Seq<char>,
            >(CacheOp { before: v.kind->Bool_0, ..s })
            &&& key == "all_entries"@ && v.kind is Bool ==> after_cache(s, e) == Ok::<
                CacheOp,
                Seq<char>,
            >(CacheOp { all: v.kind->Bool_0, ..s })
            &&& key != "caches"@ && key != "sync"@ && key != "before_invocation"@ && key
                != "all_entries"@ ==> after_cache(s, e) is Err
        },
        silent_cache() == (CacheOp { names: Seq::empty(), before: false, sync: false, all: false }),
{
    reveal_strlit("caches");
    reveal_strlit("sync");
    reveal_strlit("before_invocation");
    reveal_strlit("all_entries");
    assert("caches"@.len() != "sync"@.len());
    assert("caches"@.len() != "before_invocation"@.len());
    assert("caches"@.len() != "all_entries"@.len());
    assert("sync"@.len() != "before_invocation"@.len());
    assert("sync"@.len() != "all_entries"@.len());
    assert("before_invocation"@.len() != "all_entries"@.len());
}

/// What an attribute that says nothing sets.
pub open spec fn silent_cache() -> CacheOp {
    CacheOp { names: Seq::empty(), before: false, sync: false, all: false }
}

/// What the arguments of a cached method give. At least one cache has to be named.
pub open spec fn cache_settings(items: Seq<Expression>) -> Result<CacheOp, Seq<char>> {
    match settled::<CacheArgs>(silent_cache(), items) {
        Ok(op) => if op.names.len() == 0 {
            Err("#[cacheable] requires at least one cache name"@)
        } else {
            Ok(op)
        },
        Err(message) => Err(message),
    }
}

/// What the arguments of a cached method give.
pub fn cache_args_of(items: &[Arg]) -> (res: Result<CacheArgs, EmitError>)
    ensures
        told(res) == cache_settings(items.deep_view()),
{
    let start = CacheArgs {
        cache_names: Vec::new(),
        before_invocation: false,
        sync: false,
        all_entries: false,
    };
    assert(start@.names =~= silent_cache().names);
    match settle(start, items) {
        Ok(args) => if args.cache_names.len() == 0 {
            error("#[cacheable] requires at least one cache name".to_string())
        } else {
            Ok(args)
        },
        Err(e) => Err(e),
    }
}

/// Reads the arguments of a cached method.
pub fn parse_cache_args(attr: &str) -> (res: Result<CacheArgs, EmitError>)
    ensures
        told(res) == match arguments(attr@) {
            Ok(items) => cache_settings(items),
            Err(message) => Err("malformed #[cacheable] arguments: "@ + message),
        },
        attr@.len() == 0 ==> told(res) == Err::<CacheOp, Seq<char>>(
            "#[cacheable] requires at least one cache name"@,
        ),
{
    match parse_arguments(attr) {
        Ok(items) => cache_args_of(items.as_slice()),
        Err(message) => error(
            "malformed #[cacheable] arguments: ".to_string().concat(message.as_str()),
        ),
    }
}

/// The registration of a cached method.
pub const CACHEABLE: &'static str = "#[allow(non_upper_case_globals)]
pub const __leaf_cache_#mangled: ::leaf_core::CacheOpMeta = ::leaf_core::CacheOpMeta {
    cache_names: &[#names],
    all_entries: #all,
    before_invocation: #before,
    sync: #sync,
};
#[::linkme::distributed_slice(::leaf_core::ADVISORS)]
static __LEAF_CACHE_ADVISOR_#mangled: ::leaf_core::AdvisorRow = ::leaf_core::AdvisorRow {
    contract: ::leaf_core::ContractId::of(#path),
    order: ::leaf_core::OrderKey {
        value: ::leaf_core::CACHE_ORDER,
        source: ::leaf_core::OrderSource::Annotation,
    },
};
";

/// The source that registers a cached method.
pub open spec fn cacheable_source(ident: Seq<char>, method: Seq<char>, op: CacheOp) -> Seq<char> {
    filled(
        CACHEABLE@,
        no_slots().push(("mangled"@, mangled_method(ident, method))).push(
            ("names"@, literal_list(op.names)),
        ).push(("all"@, bool_source(op.all))).push(("before"@, bool_source(op.before))).push(
            ("sync"@, bool_source(op.sync)),
        ).push(("path"@, method_here(ident, method))),
    )
}

/// Pieces of the template, where they stand in it.
#[verifier::spinoff_prover]
#[verifier::rlimit(60)]
proof fn cacheable_pieces()
    ensures
        CACHEABLE@.len() == 557,
        CACHEABLE@.subrange(42, 147) == " __leaf_cache_"@ + seq!['#'] + "mangled"@ + (": ::leaf_core::CacheOpMeta = ::leaf_core::CacheOpMeta {\n    cache_names: &["@ + seq!['#'] + "names"@ + "],"@),
        !is_name_char(CACHEABLE@[42]),
        !is_name_char(CACHEABLE@[147]),
        CACHEABLE@.subrange(147, 202) == "\n    all_entries: "@ + seq!['#'] + "all"@ + (",\n    before_invocation: "@ + seq!['#'] + "before"@ + ","@),
        !is_name_char(CACHEABLE@[202]),
        CACHEABLE@.subrange(202, 223) == "\n    sync: "@ + seq!['#'] + "sync"@ + ",\n};\n"@,
        !is_name_char(CACHEABLE@[223]),
        CACHEABLE@.subrange(224, 314) == "[::linkme::distributed_slice(::leaf_core::ADVISORS)]\nstatic __LEAF_CACHE_ADVISOR_"@ + seq!['#'] + "mangled"@ + ":"@,
        !is_name_char(CACHEABLE@[224]),
        !is_name_char(CACHEABLE@[314]),
        CACHEABLE@.subrange(341, 492) == "::leaf_core::AdvisorRow {\n    contract: ::leaf_core::ContractId::of("@ + seq!['#'] + "path"@ + "),\n    order: ::leaf_core::OrderKey {\n        value: ::leaf_core::CACHE_ORDER,"@,
        !is_name_char(CACHEABLE@[341]),
        !is_name_char(CACHEABLE@[492]),
{
    reveal_strlit(
        "#[allow(non_upper_case_globals)]
pub const __leaf_cache_#mangled: ::leaf_core::CacheOpMeta = ::leaf_core::CacheOpMeta {
    cache_names: &[#names],
    all_entries: #all,
    before_invocation: #before,
    sync: #sync,
};
#[::linkme::distributed_slice(::leaf_core::ADVISORS)]
static __LEAF_CACHE_ADVISOR_#mangled: ::leaf_core::AdvisorRow = ::leaf_core::AdvisorRow {
    contract: ::leaf_core::ContractId::of(#path),
    order: ::leaf_core::OrderKey {
        value: ::leaf_core::CACHE_ORDER,
        source: ::leaf_core::OrderSource::Annotation,
    },
};
",
    );
    reveal_strlit("\n    all_entries: ");
    reveal_strlit("\n    sync: ");
    reveal_strlit(" __leaf_cache_");
    reveal_strlit("),\n    order: ::leaf_core::OrderKey {\n        value: ::leaf_core::CACHE_ORDER,");
    reveal_strlit(",");
    reveal_strlit(",\n    before_invocation: ");
    reveal_strlit(",\n};\n");
    reveal_strlit(":");
    reveal_strlit(": ::leaf_core::CacheOpMeta = ::leaf_core::CacheOpMeta {\n    cache_names: &[");
    reveal_strlit("::leaf_core::AdvisorRow {\n    contract: ::leaf_core::ContractId::of(");
    reveal_strlit("[::linkme::distributed_slice(::leaf_core::ADVISORS)]\nstatic __LEAF_CACHE_ADVISOR_");
    reveal_strlit("],");
    reveal_strlit("all");
    reveal_strlit("before");
    reveal_strlit("mangled");
    reveal_strlit("names");
    reveal_strlit("path");
    reveal_strlit("sync");
    assert(CACHEABLE@.subrange(42, 147) =~= " __leaf_cache_"@ + seq!['#'] + "mangled"@ + (": ::leaf_core::CacheOpMeta = ::leaf_core::CacheOpMeta {\n    cache_names: &["@ + seq!['#'] + "names"@ + "],"@));
    assert(CACHEABLE@.subrange(147, 202) =~= "\n    all_entries: "@ + seq!['#'] + "all"@ + (",\n    before_invocation: "@ + seq!['#'] + "before"@ + ","@));
    assert(CACHEABLE@.subrange(202, 223) =~= "\n    sync: "@ + seq!['#'] + "sync"@ + ",\n};\n"@);
    assert(CACHEABLE@.subrange(224, 314) =~= "[::linkme::distributed_slice(::leaf_core::ADVISORS)]\nstatic __LEAF_CACHE_ADVISOR_"@ + seq!['#'] + "mangled"@ + ":"@);
    assert(CACHEABLE@.subrange(341, 492) =~= "::leaf_core::AdvisorRow {\n    contract: ::leaf_core::ContractId::of("@ + seq!['#'] + "path"@ + "),\n    order: ::leaf_core::OrderKey {\n        value: ::leaf_core::CACHE_ORDER,"@);
}

/// What the slots of the template hold.
proof fn cacheable_slots_are_found(ident: Seq<char>, method: Seq<char>, op: CacheOp)
    ensures
        ({
            let slots = no_slots().push(("mangled"@, mangled_method(ident, method))).push(
        ("names"@, literal_list(op.names)),
    ).push(("all"@, bool_source(op.all))).push(("before"@, bool_source(op.before))).push(
        ("sync"@, bool_source(op.sync)),
    ).push(("path"@, method_here(ident, method)));
            &&& slot_text(slots, "mangled"@) == Some(mangled_method(ident, method))
            &&& slot_text(slots, "names"@) == Some(literal_list(op.names))
            &&& slot_text(slots, "all"@) == Some(bool_source(op.all))
            &&& slot_text(slots, "before"@) == Some(bool_source(op.before))
            &&& slot_text(slots, "sync"@) == Some(bool_source(op.sync))
            &&& slot_text(slots, "path"@) == Some(method_here(ident, method))
        }),
{
    reveal_strlit("mangled");
    reveal_strlit("names");
    reveal_strlit("all");
    reveal_strlit("before");
    reveal_strlit("sync");
    reveal_strlit("path");
    let slots = no_slots().push(("mangled"@, mangled_method(ident, method))).push(
        ("names"@, literal_list(op.names)),
    ).push(("all"@, bool_source(op.all))).push(("before"@, bool_source(op.before))).push(
        ("sync"@, bool_source(op.sync)),
    ).push(("path"@, method_here(ident, method)));
    slot_at(slots, 0);
    assert("mangled"@.len() != "names"@.len());
    slot_at(slots, 1);
    assert("mangled"@.len() != "all"@.len());
    assert("names"@.len() != "all"@.len());
    slot_at(slots, 2);
    assert("mangled"@.len() != "before"@.len());
    assert("names"@.len() != "before"@.len());
    assert("all"@.len() != "before"@.len());
    slot_at(slots, 3);
    assert("mangled"@.len() != "sync"@.len());
    assert("names"@.len() != "sync"@.len());
    assert("all"@.len() != "sync"@.len());
    assert("before"@.len() != "sync"@.len());
    slot_at(slots, 4);
    assert("mangled"@.len() != "path"@.len());
    assert("names"@.len() != "path"@.len());
    assert("all"@.len() != "path"@.len());
    assert("before"@.len() != "path"@.len());
    assert("sync"@[0] != "path"@[0]);
    slot_at(slots, 5);
}

/// Each setting of a cached method stands in the field of its name, and the advisor is that
/// of the method, in the place of caches.
#[verifier::spinoff_prover]
#[verifier::rlimit(60)]
pub proof fn cached_method_has_its_settings(ident: Seq<char>, method: Seq<char>, op: CacheOp)
    ensures
        stands_in(
            " __leaf_cache_"@ + mangled_method(ident, method) + ": ::leaf_core::CacheOpMeta = ::leaf_core::CacheOpMeta {\n    cache_names: &["@ + literal_list(op.names) + "],"@,
            cacheable_source(ident, method, op),
        ),
        stands_in(
            "\n    all_entries: "@ + bool_source(op.all) + ",\n    before_invocation: "@ + bool_source(op.before) + ","@,
            cacheable_source(ident, method, op),
        ),
        stands_in(
            "\n    sync: "@ + bool_source(op.sync) + ",\n};\n"@,
            cacheable_source(ident, method, op),
        ),
        stands_in(
            "[::linkme::distributed_slice(::leaf_core::ADVISORS)]\nstatic __LEAF_CACHE_ADVISOR_"@ + mangled_method(ident, method) + ":"@,
            cacheable_source(ident, method, op),
        ),
        stands_in(
            "::leaf_core::AdvisorRow {\n    contract: ::leaf_core::ContractId::of("@ + method_here(ident, method) + "),\n    order: ::leaf_core::OrderKey {\n        value: ::leaf_core::CACHE_ORDER,"@,
            cacheable_source(ident, method, op),
        ),
{
    cacheable_pieces();
    cacheable_slots_are_found(ident, method, op);
    let t = CACHEABLE@;
    let slots = no_slots().push(("mangled"@, mangled_method(ident, method))).push(
        ("names"@, literal_list(op.names)),
    ).push(("all"@, bool_source(op.all))).push(("before"@, bool_source(op.before))).push(
        ("sync"@, bool_source(op.sync)),
    ).push(("path"@, method_here(ident, method)));
    assert(stands_in(" __leaf_cache_"@ + mangled_method(ident, method) + ": ::leaf_core::CacheOpMeta = ::leaf_core::CacheOpMeta {\n    cache_names: &["@ + literal_list(op.names) + "],"@,cacheable_source(ident, method, op))) by {
        reveal_strlit("mangled");
        reveal_strlit("names");
        reveal_strlit(" __leaf_cache_");
        reveal_strlit(": ::leaf_core::CacheOpMeta = ::leaf_core::CacheOpMeta {\n    cache_names: &[");
        reveal_strlit("],");
        let p2 = "],"@;
        let p1 = ": ::leaf_core::CacheOpMeta = ::leaf_core::CacheOpMeta {\n    cache_names: &["@ + seq!['#'] + "names"@ + p2;
        let p0 = " __leaf_cache_"@ + seq!['#'] + "mangled"@ + p1;
        filled_plain(p2, slots);
        filled_step(": ::leaf_core::CacheOpMeta = ::leaf_core::CacheOpMeta {\n    cache_names: &["@, "names"@, p2, slots);
        filled_step(" __leaf_cache_"@, "mangled"@, p1, slots);
        filled_part(t, 42, 147, slots);
        assert((" __leaf_cache_"@ + mangled_method(ident, method) + (": ::leaf_core::CacheOpMeta = ::leaf_core::CacheOpMeta {\n    cache_names: &["@ + literal_list(op.names) + "],"@)) =~= " __leaf_cache_"@ + mangled_method(ident, method) + ": ::leaf_core::CacheOpMeta = ::leaf_core::CacheOpMeta {\n    cache_names: &["@ + literal_list(op.names) + "],"@);
    }
    assert(stands_in("\n    all_entries: "@ + bool_source(op.all) + ",\n    before_invocation: "@ + bool_source(op.before) + ","@,cacheable_source(ident, method, op))) by {
        reveal_strlit("all");
        reveal_strlit("before");
        reveal_strlit("\n    all_entries: ");
        reveal_strlit(",");
        reveal_strlit(",\n    before_invocation: ");
        let p2 = ","@;
        let p1 = ",\n    before_invocation: "@ + seq!['#'] + "before"@ + p2;
        let p0 = "\n    all_entries: "@ + seq!['#'] + "all"@ + p1;
        filled_plain(p2, slots);
        filled_step(",\n    before_invocation: "@, "before"@, p2, slots);
        filled_step("\n    all_entries: "@, "all"@, p1, slots);
        filled_part(t, 147, 202, slots);
        assert(("\n    all_entries: "@ + bool_source(op.all) + (",\n    before_invocation: "@ + bool_source(op.before) + ","@)) =~= "\n    all_entries: "@ + bool_source(op.all) + ",\n    before_invocation: "@ + bool_source(op.before) + ","@);
    }
    assert(stands_in("\n    sync: "@ + bool_source(op.sync) + ",\n};\n"@,cacheable_source(ident, method, op))) by {
        reveal_strlit("sync");
        reveal_strlit("\n    sync: ");
        reveal_strlit(",\n};\n");
        let p1 = ",\n};\n"@;
        let p0 = "\n    sync: "@ + seq!['#'] + "sync"@ + p1;
        filled_plain(p1, slots);
        filled_step("\n    sync: "@, "sync"@, p1, slots);
        filled_part(t, 202, 223, slots);
        assert(("\n    sync: "@ + bool_source(op.sync) + ",\n};\n"@) =~= "\n    sync: "@ + bool_source(op.sync) + ",\n};\n"@);
    }
    assert(stands_in("[::linkme::distributed_slice(::leaf_core::ADVISORS)]\nstatic __LEAF_CACHE_ADVISOR_"@ + mangled_method(ident, method) + ":"@,cacheable_source(ident, method, op))) by {
        reveal_strlit("mangled");
        reveal_strlit(":");
        reveal_strlit("[::linkme::distributed_slice(::leaf_core::ADVISORS)]\nstatic __LEAF_CACHE_ADVISOR_");
        let p1 = ":"@;
        let p0 = "[::linkme::distributed_slice(::leaf_core::ADVISORS)]\nstatic __LEAF_CACHE_ADVISOR_"@ + seq!['#'] + "mangled"@ + p1;
        filled_plain(p1, slots);
        filled_step("[::linkme::distributed_slice(::leaf_core::ADVISORS)]\nstatic __LEAF_CACHE_ADVISOR_"@, "mangled"@, p1, slots);
        filled_part(t, 224, 314, slots);
        assert(("[::linkme::distributed_slice(::leaf_core::ADVISORS)]\nstatic __LEAF_CACHE_ADVISOR_"@ + mangled_method(ident, method) + ":"@) =~= "[::linkme::distributed_slice(::leaf_core::ADVISORS)]\nstatic __LEAF_CACHE_ADVISOR_"@ + mangled_method(ident, method) + ":"@);
    }
    assert(stands_in("::leaf_core::AdvisorRow {\n    contract: ::leaf_core::ContractId::of("@ + method_here(ident, method) + "),\n    order: ::leaf_core::OrderKey {\n        value: ::leaf_core::CACHE_ORDER,"@,cacheable_source(ident, method, op))) by {
        reveal_strlit("path");
        reveal_strlit("),\n    order: ::leaf_core::OrderKey {\n        value: ::leaf_core::CACHE_ORDER,");
        reveal_strlit("::leaf_core::AdvisorRow {\n    contract: ::leaf_core::ContractId::of(");
        let p1 = "),\n    order: ::leaf_core::OrderKey {\n        value: ::leaf_core::CACHE_ORDER,"@;
        let p0 = "::leaf_core::AdvisorRow {\n    contract: ::leaf_core::ContractId::of("@ + seq!['#'] + "path"@ + p1;
        filled_plain(p1, slots);
        filled_step("::leaf_core::AdvisorRow {\n    contract: ::leaf_core::ContractId::of("@, "path"@, p1, slots);
        filled_part(t, 341, 492, slots);
        assert(("::leaf_core::AdvisorRow {\n    contract: ::leaf_core::ContractId::of("@ + method_here(ident, method) + "),\n    order: ::leaf_core::OrderKey {\n        value: ::leaf_core::CACHE_ORDER,"@) =~= "::leaf_core::AdvisorRow {\n    contract: ::leaf_core::ContractId::of("@ + method_here(ident, method) + "),\n    order: ::leaf_core::OrderKey {\n        value: ::leaf_core::CACHE_ORDER,"@);
    }
}

/// Prints the registration of the cached method `method` of the bean `ident`.
pub fn emit_cacheable(ident: &str, method: &str, args: &CacheArgs) -> (res: String)
    ensures
        res@ == cacheable_source(ident@, method@, args@),
{
    let slots = Slots::new().with("mangled", mangle_method(ident, method).as_str()).with(
        "names",
        literal_list_text(args.cache_names.as_slice()).as_str(),
    ).with("all", bool_text(args.all_entries)).with(
        "before",
        bool_text(args.before_invocation),
    ).with("sync", bool_text(args.sync)).with("path", method_text(ident, method).as_str());
    slots.fill(CACHEABLE)
}

/// The registration of a resource.
pub const RESOURCE: &'static str = "#[allow(non_upper_case_globals)]
pub const __leaf_resource_#mangled: ::leaf_core::ResourceEntry = ::leaf_core::ResourceEntry {
    logical_path: #path,
    bytes_fn: || ::core::include_bytes!(#path),
};
#[::linkme::distributed_slice(::leaf_core::RESOURCES)]
static __LEAF_RESOURCE_#mangled: ::leaf_core::ResourceRow = ::leaf_core::ResourceRow {
    contract: #contract,
    location: #path,
};
";

/// The source that registers a resource.
pub open spec fn resource_source(ident: Seq<char>, path: Seq<char>) -> Seq<char> {
    filled(
        RESOURCE@,
        no_slots().push(("mangled"@, mangled(ident))).push(("path"@, literal_source(path))).push(
            ("contract"@, contract_here(ident)),
        ),
    )
}

/// Pieces of the template, where they stand in it.
#[verifier::spinoff_prover]
#[verifier::rlimit(60)]
proof fn resource_pieces()
    ensures
        RESOURCE@.len() == 394,
        RESOURCE@.subrange(126, 199) == "\n    logical_path: "@ + seq!['#'] + "path"@ + (",\n    bytes_fn: || ::core::include_bytes!("@ + seq!['#'] + "path"@ + "),"@),
        !is_name_char(RESOURCE@[126]),
        !is_name_char(RESOURCE@[199]),
        RESOURCE@.subrange(204, 290) == "[::linkme::distributed_slice(::leaf_core::RESOURCES)]\nstatic __LEAF_RESOURCE_"@ + seq!['#'] + "mangled"@ + ":"@,
        !is_name_char(RESOURCE@[204]),
        !is_name_char(RESOURCE@[290]),
        RESOURCE@.subrange(344, 393) == "\n    contract: "@ + seq!['#'] + "contract"@ + (",\n    location: "@ + seq!['#'] + "path"@ + ",\n};"@),
        !is_name_char(RESOURCE@[344]),
        !is_name_char(RESOURCE@[393]),
{
    reveal_strlit(
        "#[allow(non_upper_case_globals)]
pub const __leaf_resource_#mangled: ::leaf_core::ResourceEntry = ::leaf_core::ResourceEntry {
    logical_path: #path,
    bytes_fn: || ::core::include_bytes!(#path),
};
#[::linkme::distributed_slice(::leaf_core::RESOURCES)]
static __LEAF_RESOURCE_#mangled: ::leaf_core::ResourceRow = ::leaf_core::ResourceRow {
    contract: #contract,
    location: #path,
};
",
    );
    reveal_strlit("\n    contract: ");
    reveal_strlit("\n    logical_path: ");
    reveal_strlit("),");
    reveal_strlit(",\n    bytes_fn: || ::core::include_bytes!(");
    reveal_strlit(",\n    location: ");
    reveal_strlit(",\n};");
    reveal_strlit(":");
    reveal_strlit("[::linkme::distributed_slice(::leaf_core::RESOURCES)]\nstatic __LEAF_RESOURCE_");
    reveal_strlit("contract");
    reveal_strlit("mangled");
    reveal_strlit("path");
    assert(RESOURCE@.subrange(126, 199) =~= "\n    logical_path: "@ + seq!['#'] + "path"@ + (",\n    bytes_fn: || ::core::include_bytes!("@ + seq!['#'] + "path"@ + "),"@));
    assert(RESOURCE@.subrange(204, 290) =~= "[::linkme::distributed_slice(::leaf_core::RESOURCES)]\nstatic __LEAF_RESOURCE_"@ + seq!['#'] + "mangled"@ + ":"@);
    assert(RESOURCE@.subrange(344, 393) =~= "\n    contract: "@ + seq!['#'] + "contract"@ + (",\n    location: "@ + seq!['#'] + "path"@ + ",\n};"@));
}

/// What the slots of the template hold.
proof fn resource_slots_are_found(ident: Seq<char>, path: Seq<char>)
    ensures
        ({
            let slots = no_slots().push(("mangled"@, mangled(ident))).push(("path"@, literal_source(path))).push(
        ("contract"@, contract_here(ident)),
    );
            &&& slot_text(slots, "path"@) == Some(literal_source(path))
            &&& slot_text(slots, "mangled"@) == Some(mangled(ident))
            &&& slot_text(slots, "contract"@) == Some(contract_here(ident))
        }),
{
    reveal_strlit("mangled");
    reveal_strlit("path");
    reveal_strlit("contract");
    let slots = no_slots().push(("mangled"@, mangled(ident))).push(("path"@, literal_source(path))).push(
        ("contract"@, contract_here(ident)),
    );
    assert("mangled"@.len() != "path"@.len());
    slot_at(slots, 1);
    slot_at(slots, 0);
    assert("mangled"@.len() != "contract"@.len());
    assert("path"@.len() != "contract"@.len());
    slot_at(slots, 2);
}

/// A resource is known under its path, and has the bytes of the file at that path.
#[verifier::spinoff_prover]
#[verifier::rlimit(60)]
pub proof fn resource_has_its_path(ident: Seq<char>, path: Seq<char>)
    ensures
        stands_in(
            "\n    logical_path: "@ + literal_source(path) + ",\n    bytes_fn: || ::core::include_bytes!("@ + literal_source(path) + "),"@,
            resource_source(ident, path),
        ),
        stands_in(
            "[::linkme::distributed_slice(::leaf_core::RESOURCES)]\nstatic __LEAF_RESOURCE_"@ + mangled(ident) + ":"@,
            resource_source(ident, path),
        ),
        stands_in(
            "\n    contract: "@ + contract_here(ident) + ",\n    location: "@ + literal_source(path) + ",\n};"@,
            resource_source(ident, path),
        ),
{
    resource_pieces();
    resource_slots_are_found(ident, path);
    let t = RESOURCE@;
    let slots = no_slots().push(("mangled"@, mangled(ident))).push(("path"@, literal_source(path))).push(
        ("contract"@, contract_here(ident)),
    );
    assert(stands_in("\n    logical_path: "@ + literal_source(path) + ",\n    bytes_fn: || ::core::include_bytes!("@ + literal_source(path) + "),"@,resource_source(ident, path))) by {
        reveal_strlit("path");
        reveal_strlit("\n    logical_path: ");
        reveal_strlit("),");
        reveal_strlit(",\n    bytes_fn: || ::core::include_bytes!(");
        let p2 = "),"@;
        let p1 = ",\n    bytes_fn: || ::core::include_bytes!("@ + seq!['#'] + "path"@ + p2;
        let p0 = "\n    logical_path: "@ + seq!['#'] + "path"@ + p1;
        filled_plain(p2, slots);
        filled_step(",\n    bytes_fn: || ::core::include_bytes!("@, "path"@, p2, slots);
        filled_step("\n    logical_path: "@, "path"@, p1, slots);
        filled_part(t, 126, 199, slots);
        assert(("\n    logical_path: "@ + literal_source(path) + (",\n    bytes_fn: || ::core::include_bytes!("@ + literal_source(path) + "),"@)) =~= "\n    logical_path: "@ + literal_source(path) + ",\n    bytes_fn: || ::core::include_bytes!("@ + literal_source(path) + "),"@);
    }
    assert(stands_in("[::linkme::distributed_slice(::leaf_core::RESOURCES)]\nstatic __LEAF_RESOURCE_"@ + mangled(ident) + ":"@,resource_source(ident, path))) by {
        reveal_strlit("mangled");
        reveal_strlit(":");
        reveal_strlit("[::linkme::distributed_slice(::leaf_core::RESOURCES)]\nstatic __LEAF_RESOURCE_");
        let p1 = ":"@;
        let p0 = "[::linkme::distributed_slice(::leaf_core::RESOURCES)]\nstatic __LEAF_RESOURCE_"@ + seq!['#'] + "mangled"@ + p1;
        filled_plain(p1, slots);
        filled_step("[::linkme::distributed_slice(::leaf_core::RESOURCES)]\nstatic __LEAF_RESOURCE_"@, "mangled"@, p1, slots);
        filled_part(t, 204, 290, slots);
        assert(("[::linkme::distributed_slice(::leaf_core::RESOURCES)]\nstatic __LEAF_RESOURCE_"@ + mangled(ident) + ":"@) =~= "[::linkme::distributed_slice(::leaf_core::RESOURCES)]\nstatic __LEAF_RESOURCE_"@ + mangled(ident) + ":"@);
    }
    assert(stands_in("\n    contract: "@ + contract_here(ident) + ",\n    location: "@ + literal_source(path) + ",\n};"@,resource_source(ident, path))) by {
        reveal_strlit("contract");
        reveal_strlit("path");
        reveal_strlit("\n    contract: ");
        reveal_strlit(",\n    location: ");
        reveal_strlit(",\n};");
        let p2 = ",\n};"@;
        let p1 = ",\n    location: "@ + seq!['#'] + "path"@ + p2;
        let p0 = "\n    contract: "@ + seq!['#'] + "contract"@ + p1;
        filled_plain(p2, slots);
        filled_step(",\n    location: "@, "path"@, p2, slots);
        filled_step("\n    contract: "@, "contract"@, p1, slots);
        filled_part(t, 344, 393, slots);
        assert(("\n    contract: "@ + contract_here(ident) + (",\n    location: "@ + literal_source(path) + ",\n};"@)) =~= "\n    contract: "@ + contract_here(ident) + ",\n    location: "@ + literal_source(path) + ",\n};"@);
    }
}

/// Prints the registration of the resource `ident`, whose bytes are the file at `path`.
pub fn emit_resource(ident: &str, path: &str) -> (res: String)
    ensures
        res@ == resource_source(ident@, path@),
{
    let slots = Slots::new().with("mangled", mangle(ident).as_str()).with(
        "path",
        string_literal(path).as_str(),
    ).with("contract", contract_text(ident).as_str());
    slots.fill(RESOURCE)
}

/// What the attribute of a message catalog says.
#[derive(Clone, Debug, Default, PartialEq, Eq)]
pub struct CatalogArgs {
    /// The name that the files of the catalog begin with.
    pub basename: String,
    /// The locales that the catalog has files for.
    pub locales: Vec<String>,
}

impl View for CatalogArgs {
    type V = (Seq<char>, Seq<Seq<char>>);

    /// The base name and the locales.
    open spec fn view(&self) -> (Seq<char>, Seq<Seq<char>>) {
        (self.basename@, self.locales.deep_view())
    }
}

/// What the attribute of a message catalog has said so far.
pub struct CatalogSettings {
    /// The base name, where it has been given.
    pub basename: Option<String>,
    /// The locales.
    pub locales: Vec<String>,
}

impl View for CatalogSettings {
    type V = (Option<Seq<char>>, Seq<Seq<char>>);

    open spec fn view(&self) -> (Option<Seq<char>>, Seq<Seq<char>>) {
        (self.basename.deep_view(), self.locales.deep_view())
    }
}

/// What is said after one more argument.
pub open spec fn after_catalog(
    s: (Option<Seq<char>>, Seq<Seq<char>>),
    e: Expression,
) -> Result<(Option<Seq<char>>, Seq<Seq<char>>), Seq<char>> {
    match e.kind {
        Form::Assign { left, right } => match bare_key(*left) {
            Err(message) => Err(message),
            Ok(key) => if key == "basename"@ {
                match text_value(*right) {
                    Some(name) => Ok((Some(name), s.1)),
                    None => Err("`basename` must be a string"@),
                }
            } else if key == "locales"@ {
                match texts_value(*right) {
                    Ok(locales) => Ok((s.0, locales)),
                    Err(message) => Err(message),
                }
            } else {
                Err(
                    "unknown #[catalog] argument `"@ + key + "` (expected `basename`/`locales`)"@,
                )
            },
        },
        _ => Err("#[catalog] arguments must be `key = value` pairs, got `"@ + e.source + "`"@),
    }
}

impl Settings for CatalogSettings {
    open spec fn after(settings: (Option<Seq<char>>, Seq<Seq<char>>), e: Expression) -> Result<
        (Option<Seq<char>>, Seq<Seq<char>>),
        Seq<char>,
    > {
        after_catalog(settings, e)
    }

    fn apply(self, arg: &Arg) -> (res: Result<CatalogSettings, EmitError>) {
        let (left, right) = match &arg.kind {
            ArgKind::Assign { left, right } => (left, right),
            _ => return error(
                "#[catalog] arguments must be `key = value` pairs, got `".to_string().concat(
                    arg.source.as_str(),
                ).concat("`"),
            ),
        };
        let key = match assign_ident(left) {
            Ok(key) => key,
            Err(e) => return Err(e),
        };
        if str_eq(key.as_str(), "basename") {
            match str_value(right) {
                Some(name) => Ok(CatalogSettings { basename: Some(name), locales: self.locales }),
                None => error("`basename` must be a string".to_string()),
            }
        } else if str_eq(key.as_str(), "locales") {
            match str_array(right) {
                Ok(locales) => Ok(CatalogSettings { basename: self.basename, locales }),
                Err(e) => Err(e),
            }
        } else {
            error(
                "unknown #[catalog] argument `".to_string().concat(key.as_str()).concat(
                    "` (expected `basename`/`locales`)",
                ),
            )
        }
    }
}

/// Each key of a message catalog sets what it names and leaves the rest.
pub proof fn catalog_keys_set_their_own(
    s: (Option<Seq<char>>, Seq<Seq<char>>),
    e: Expression,
    key: Seq<char>,
    v: Expression,
)
    requires
        assigns(e, key, v),
    ensures
        key == "basename"@ && v.kind is Str ==> after_catalog(s, e) == Ok::<
            (Option<Seq<char>>, Seq<Seq<char>>),
            Seq<char>,
        >((Some(v.kind->Str_0), s.1)),
        key == "locales"@ && texts_value(v) is Ok ==> after_catalog(s, e) == Ok::<
            (Option<Seq<char>>, Seq<Seq<char>>),
            Seq<char>,
        >((s.0, texts_value(v)->Ok_0)),
        key != "basename"@ && key != "locales"@ ==> after_catalog(s, e) is Err,
{
    reveal_strlit("basename");
    reveal_strlit("locales");
    assert("basename"@.len() != "locales"@.len());
}

/// A catalog is what its items come to; it has to have a name.
pub proof fn items_make_the_catalog(items: Seq<Expression>)
    ensures
        settled::<CatalogSettings>((None, Seq::empty()), items) matches Ok((name, locales)) ==> {
            &&& name matches Some(given) ==> catalog_settings(items) == Ok::<
                (Seq<char>, Seq<Seq<char>>),
                Seq<char>,
            >((given, locales))
            &&& name is None ==> catalog_settings(items) is Err
        },
        settled::<CatalogSettings>((None, Seq::empty()), items) is Err ==> catalog_settings(
            items,
        ) is Err,
{
}

/// What the arguments of a message catalog give. The base name has to be there.
pub open spec fn catalog_settings(items: Seq<Expression>) -> Result<
    (Seq<char>, Seq<Seq<char>>),
    Seq<char>,
> {
    match settled::<CatalogSettings>((None, Seq::empty()), items) {
        Ok((Some(name), locales)) => Ok((name, locales)),
        Ok((None, _)) => Err("#[catalog] requires a `basename`"@),
        Err(message) => Err(message),
    }
}

/// What the arguments of a message catalog give.
pub fn catalog_args_of(items: &[Arg]) -> (res: Result<CatalogArgs, EmitError>)
    ensures
        told(res) == catalog_settings(items.deep_view()),
{
    let start = CatalogSettings { basename: None, locales: Vec::new() };
    assert(start@.1 =~= Seq::<Seq<char>>::empty());
    match settle(start, items) {
        Ok(settings) => match settings.basename {
            Some(basename) => Ok(CatalogArgs { basename, locales: settings.locales }),
            None => error("#[catalog] requires a `basename`".to_string()),
        },
        Err(e) => Err(e),
    }
}

/// Reads the arguments of a message catalog.
pub fn parse_catalog_args(attr: &str) -> (res: Result<CatalogArgs, EmitError>)
    ensures
        told(res) == match arguments(attr@) {
            Ok(items) => catalog_settings(items),
            Err(message) => Err("malformed #[catalog] arguments: "@ + message),
        },
        attr@.len() == 0 ==> told(res) == Err::<(Seq<char>, Seq<Seq<char>>), Seq<char>>(
            "#[catalog] requires a `basename`"@,
        ),
{
    match parse_arguments(attr) {
        Ok(items) => catalog_args_of(items.as_slice()),
        Err(message) => error("malformed #[catalog] arguments: ".to_string().concat(message.as_str())),
    }
}

/// The registration of a message catalog.
pub const CATALOG: &'static str = "#[allow(non_upper_case_globals)]
pub const __leaf_catalog_#mangled: ::leaf_core::CatalogDescriptor = ::leaf_core::CatalogDescriptor {
    contract: #contract,
    basename: #basename,
    locales: &[#locales],
};
#[::linkme::distributed_slice(::leaf_core::CATALOGS)]
static __LEAF_CATALOG_#mangled: ::leaf_core::CatalogRow = ::leaf_core::CatalogRow {
    contract: #contract,
};
";

/// The source that registers a message catalog.
pub open spec fn catalog_source(
    ident: Seq<char>,
    basename: Seq<char>,
    locales: Seq<Seq<char>>,
) -> Seq<char> {
    filled(
        CATALOG@,
        no_slots().push(("mangled"@, mangled(ident))).push(("contract"@, contract_here(ident))).push(
            ("basename"@, literal_source(basename)),
        ).push(("locales"@, literal_list(locales))),
    )
}

/// Pieces of the template, where they stand in it.
#[verifier::spinoff_prover]
#[verifier::rlimit(60)]
proof fn catalog_pieces()
    ensures
        CATALOG@.len() == 379,
        CATALOG@.subrange(101, 183) == "::leaf_core::CatalogDescriptor {\n    contract: "@ + seq!['#'] + "contract"@ + (",\n    basename: "@ + seq!['#'] + "basename"@ + ","@),
        !is_name_char(CATALOG@[101]),
        !is_name_char(CATALOG@[183]),
        CATALOG@.subrange(183, 209) == "\n    locales: &["@ + seq!['#'] + "locales"@ + "],"@,
        !is_name_char(CATALOG@[209]),
        CATALOG@.subrange(214, 298) == "[::linkme::distributed_slice(::leaf_core::CATALOGS)]\nstatic __LEAF_CATALOG_"@ + seq!['#'] + "mangled"@ + ":"@,
        !is_name_char(CATALOG@[214]),
        !is_name_char(CATALOG@[298]),
        CATALOG@.subrange(325, 375) == "::leaf_core::CatalogRow {\n    contract: "@ + seq!['#'] + "contract"@ + ","@,
        !is_name_char(CATALOG@[325]),
        !is_name_char(CATALOG@[375]),
{
    reveal_strlit(
        "#[allow(non_upper_case_globals)]
pub const __leaf_catalog_#mangled: ::leaf_core::CatalogDescriptor = ::leaf_core::CatalogDescriptor {
    contract: #contract,
    basename: #basename,
    locales: &[#locales],
};
#[::linkme::distributed_slice(::leaf_core::CATALOGS)]
static __LEAF_CATALOG_#mangled: ::leaf_core::CatalogRow = ::leaf_core::CatalogRow {
    contract: #contract,
};
",
    );
    reveal_strlit("\n    locales: &[");
    reveal_strlit(",");
    reveal_strlit(",\n    basename: ");
    reveal_strlit(":");
    reveal_strlit("::leaf_core::CatalogDescriptor {\n    contract: ");
    reveal_strlit("::leaf_core::CatalogRow {\n    contract: ");
    reveal_strlit("[::linkme::distributed_slice(::leaf_core::CATALOGS)]\nstatic __LEAF_CATALOG_");
    reveal_strlit("],");
    reveal_strlit("basename");
    reveal_strlit("contract");
    reveal_strlit("locales");
    reveal_strlit("mangled");
    assert(CATALOG@.subrange(101, 183) =~= "::leaf_core::CatalogDescriptor {\n    contract: "@ + seq!['#'] + "contract"@ + (",\n    basename: "@ + seq!['#'] + "basename"@ + ","@));
    assert(CATALOG@.subrange(183, 209) =~= "\n    locales: &["@ + seq!['#'] + "locales"@ + "],"@);
    assert(CATALOG@.subrange(214, 298) =~= "[::linkme::distributed_slice(::leaf_core::CATALOGS)]\nstatic __LEAF_CATALOG_"@ + seq!['#'] + "mangled"@ + ":"@);
    assert(CATALOG@.subrange(325, 375) =~= "::leaf_core::CatalogRow {\n    contract: "@ + seq!['#'] + "contract"@ + ","@);
}

/// What the slots of the template hold.
proof fn catalog_slots_are_found(ident: Seq<char>, basename: Seq<char>, locales: Seq<Seq<char>>)
    ensures
        ({
            let slots = no_slots().push(("mangled"@, mangled(ident))).push(("contract"@, contract_here(ident))).push(
        ("basename"@, literal_source(basename)),
    ).push(("locales"@, literal_list(locales)));
            &&& slot_text(slots, "contract"@) == Some(contract_here(ident))
            &&& slot_text(slots, "basename"@) == Some(literal_source(basename))
            &&& slot_text(slots, "locales"@) == Some(literal_list(locales))
            &&& slot_text(slots, "mangled"@) == Some(mangled(ident))
        }),
{
    reveal_strlit("mangled");
    reveal_strlit("contract");
    reveal_strlit("basename");
    reveal_strlit("locales");
    let slots = no_slots().push(("mangled"@, mangled(ident))).push(("contract"@, contract_here(ident))).push(
        ("basename"@, literal_source(basename)),
    ).push(("locales"@, literal_list(locales)));
    assert("mangled"@.len() != "contract"@.len());
    slot_at(slots, 1);
    assert("mangled"@.len() != "basename"@.len());
    assert("contract"@[0] != "basename"@[0]);
    slot_at(slots, 2);
    assert("mangled"@[0] != "locales"@[0]);
    assert("contract"@.len() != "locales"@.len());
    assert("basename"@.len() != "locales"@.len());
    slot_at(slots, 3);
    slot_at(slots, 0);
}

/// A message catalog has the base name and the locales of its attribute.
#[verifier::spinoff_prover]
#[verifier::rlimit(60)]
pub proof fn catalog_has_its_names(ident: Seq<char>, basename: Seq<char>, locales: Seq<Seq<char>>)
    ensures
        stands_in(
            "::leaf_core::CatalogDescriptor {\n    contract: "@ + contract_here(ident) + ",\n    basename: "@ + literal_source(basename) + ","@,
            catalog_source(ident, basename, locales),
        ),
        stands_in(
            "\n    locales: &["@ + literal_list(locales) + "],"@,
            catalog_source(ident, basename, locales),
        ),
        stands_in(
            "[::linkme::distributed_slice(::leaf_core::CATALOGS)]\nstatic __LEAF_CATALOG_"@ + mangled(ident) + ":"@,
            catalog_source(ident, basename, locales),
        ),
        stands_in(
            "::leaf_core::CatalogRow {\n    contract: "@ + contract_here(ident) + ","@,
            catalog_source(ident, basename, locales),
        ),
{
    catalog_pieces();
    catalog_slots_are_found(ident, basename, locales);
    let t = CATALOG@;
    let slots = no_slots().push(("mangled"@, mangled(ident))).push(("contract"@, contract_here(ident))).push(
        ("basename"@, literal_source(basename)),
    ).push(("locales"@, literal_list(locales)));
    assert(stands_in("::leaf_core::CatalogDescriptor {\n    contract: "@ + contract_here(ident) + ",\n    basename: "@ + literal_source(basename) + ","@,catalog_source(ident, basename, locales))) by {
        reveal_strlit("basename");
        reveal_strlit("contract");
        reveal_strlit(",");
        reveal_strlit(",\n    basename: ");
        reveal_strlit("::leaf_core::CatalogDescriptor {\n    contract: ");
        let p2 = ","@;
        let p1 = ",\n    basename: "@ + seq!['#'] + "basename"@ + p2;
        let p0 = "::leaf_core::CatalogDescriptor {\n    contract: "@ + seq!['#'] + "contract"@ + p1;
        filled_plain(p2, slots);
        filled_step(",\n    basename: "@, "basename"@, p2, slots);
        filled_step("::leaf_core::CatalogDescriptor {\n    contract: "@, "contract"@, p1, slots);
        filled_part(t, 101, 183, slots);
        assert(("::leaf_core::CatalogDescriptor {\n    contract: "@ + contract_here(ident) + (",\n    basename: "@ + literal_source(basename) + ","@)) =~= "::leaf_core::CatalogDescriptor {\n    contract: "@ + contract_here(ident) + ",\n    basename: "@ + literal_source(basename) + ","@);
    }
    assert(stands_in("\n    locales: &["@ + literal_list(locales) + "],"@,catalog_source(ident, basename, locales))) by {
        reveal_strlit("locales");
        reveal_strlit("\n    locales: &[");
        reveal_strlit("],");
        let p1 = "],"@;
        let p0 = "\n    locales: &["@ + seq!['#'] + "locales"@ + p1;
        filled_plain(p1, slots);
        filled_step("\n    locales: &["@, "locales"@, p1, slots);
        filled_part(t, 183, 209, slots);
        assert(("\n    locales: &["@ + literal_list(locales) + "],"@) =~= "\n    locales: &["@ + literal_list(locales) + "],"@);
    }
    assert(stands_in("[::linkme::distributed_slice(::leaf_core::CATALOGS)]\nstatic __LEAF_CATALOG_"@ + mangled(ident) + ":"@,catalog_source(ident, basename, locales))) by {
        reveal_strlit("mangled");
        reveal_strlit(":");
        reveal_strlit("[::linkme::distributed_slice(::leaf_core::CATALOGS)]\nstatic __LEAF_CATALOG_");
        let p1 = ":"@;
        let p0 = "[::linkme::distributed_slice(::leaf_core::CATALOGS)]\nstatic __LEAF_CATALOG_"@ + seq!['#'] + "mangled"@ + p1;
        filled_plain(p1, slots);
        filled_step("[::linkme::distributed_slice(::leaf_core::CATALOGS)]\nstatic __LEAF_CATALOG_"@, "mangled"@, p1, slots);
        filled_part(t, 214, 298, slots);
        assert(("[::linkme::distributed_slice(::leaf_core::CATALOGS)]\nstatic __LEAF_CATALOG_"@ + mangled(ident) + ":"@) =~= "[::linkme::distributed_slice(::leaf_core::CATALOGS)]\nstatic __LEAF_CATALOG_"@ + mangled(ident) + ":"@);
    }
    assert(stands_in("::leaf_core::CatalogRow {\n    contract: "@ + contract_here(ident) + ","@,catalog_source(ident, basename, locales))) by {
        reveal_strlit("contract");
        reveal_strlit(",");
        reveal_strlit("::leaf_core::CatalogRow {\n    contract: ");
        let p1 = ","@;
        let p0 = "::leaf_core::CatalogRow {\n    contract: "@ + seq!['#'] + "contract"@ + p1;
        filled_plain(p1, slots);
        filled_step("::leaf_core::CatalogRow {\n    contract: "@, "contract"@, p1, slots);
        filled_part(t, 325, 375, slots);
        assert(("::leaf_core::CatalogRow {\n    contract: "@ + contract_here(ident) + ","@) =~= "::leaf_core::CatalogRow {\n    contract: "@ + contract_here(ident) + ","@);
    }
}

/// Prints the registration of the message catalog `ident`.
pub fn emit_catalog(ident: &str, args: &CatalogArgs) -> (res: String)
    ensures
        res@ == catalog_source(ident@, args.basename@, args.locales.deep_view()),
{
    let slots = Slots::new().with("mangled", mangle(ident).as_str()).with(
        "contract",
        contract_text(ident).as_str(),
    ).with("basename", string_literal(args.basename.as_str()).as_str()).with(
        "locales",
        literal_list_text(args.locales.as_slice()).as_str(),
    );
    slots.fill(CATALOG)
}

} // verus!
