//! The command line of `cargo leaf`.
use vstd::prelude::*;

use crate::text::str_eq;

verus! {

/// What `cargo leaf` is asked to do.
#[derive(Clone, Debug, PartialEq, Eq, Structural)]
pub enum Command {
    /// Write the generated artifacts, or with `check` only compare them.
    Prepare { check: bool },
    /// List the registrations that were found.
    Doctor,
    /// Print the table of configuration prefixes.
    Metadata,
    /// Print the usage message.
    Help,
}

/// A command line that asks for nothing known.
#[derive(Clone, Debug, PartialEq, Eq)]
pub struct UsageError {
    /// The explanation for a reader.
    pub message: String,
}

/// The usage message.
pub const USAGE: &'static str = "\
cargo leaf <COMMAND>

Commands:
  prepare [--check]   Emit (or --check) the force-link + ExpectedManifest + auto-config plan
  doctor              List discovered registrations + per-source row counts
  metadata            Print the config-metadata rollup + duplicate-prefix collisions
  help                Print this message";

/// The first of `flags` that is not `--check`.
pub open spec fn first_unknown_flag(flags: Seq<Seq<char>>) -> Option<Seq<char>>
    decreases flags.len(),
{
    if flags.len() == 0 {
        None
    } else if flags[0] == "--check"@ {
        first_unknown_flag(flags.drop_first())
    } else {
        Some(flags[0])
    }
}

/// `command`, where nothing follows it.
pub open spec fn without_arguments(
    command: Command,
    name: Seq<char>,
    rest: Seq<Seq<char>>,
) -> Result<Command, Seq<char>> {
    if rest.len() == 0 {
        Ok(command)
    } else {
        Err("`"@ + name + "` takes no arguments (got `"@ + rest[0] + "`)"@)
    }
}

/// What the arguments ask for, or the message that says why they ask for nothing. A
/// leading `leaf`, which cargo passes along, is skipped.
pub open spec fn asked(args: Seq<Seq<char>>) -> Result<Command, Seq<char>> {
    let args = if args.len() > 0 && args[0] == "leaf"@ {
        args.drop_first()
    } else {
        args
    };
    if args.len() == 0 {
        Ok(Command::Help)
    } else {
        let name = args[0];
        let rest = args.drop_first();
        if name == "help"@ || name == "-h"@ || name == "--help"@ {
            without_arguments(Command::Help, "help"@, rest)
        } else if name == "prepare"@ {
            match first_unknown_flag(rest) {
                Some(flag) => Err("unknown flag `"@ + flag + "` for `prepare`"@),
                None => Ok(Command::Prepare { check: rest.len() > 0 }),
            }
        } else if name == "doctor"@ {
            without_arguments(Command::Doctor, "doctor"@, rest)
        } else if name == "metadata"@ {
            without_arguments(Command::Metadata, "metadata"@, rest)
        } else {
            Err("unknown command `"@ + name + "`\n\n"@ + USAGE@)
        }
    }
}

/// The `leaf` that cargo passes along changes nothing.
pub proof fn leading_leaf_is_skipped(args: Seq<Seq<char>>)
    requires
        args.len() > 0 ==> args[0] != "leaf"@,
    ensures
        asked(seq!["leaf"@] + args) == asked(args),
{
    assert((seq!["leaf"@] + args).drop_first() =~= args);
}

/// What is prepared is checked where the flag for it is given, once or more; any other flag is
/// refused.
pub proof fn prepare_takes_only_its_flag(flags: Seq<Seq<char>>)
    ensures
        asked(seq!["prepare"@] + flags) is Ok <==> forall|i: int|
            0 <= i < flags.len() ==> #[trigger] flags[i] == "--check"@,
        asked(seq!["prepare"@] + flags) is Ok ==> asked(seq!["prepare"@] + flags) == Ok::<
            Command,
            Seq<char>,
        >(Command::Prepare { check: flags.len() > 0 }),
{
    reveal_strlit("leaf");
    reveal_strlit("help");
    reveal_strlit("-h");
    reveal_strlit("--help");
    reveal_strlit("prepare");
    assert("prepare"@.len() != "leaf"@.len());
    assert("prepare"@.len() != "help"@.len());
    assert("prepare"@.len() != "-h"@.len());
    assert("prepare"@.len() != "--help"@.len());
    assert((seq!["prepare"@] + flags).drop_first() =~= flags);
    unknown_flag_is_another(flags);
}

/// There is an unknown flag where one is not the known one.
proof fn unknown_flag_is_another(flags: Seq<Seq<char>>)
    ensures
        first_unknown_flag(flags) is None <==> forall|i: int|
            0 <= i < flags.len() ==> #[trigger] flags[i] == "--check"@,
    decreases flags.len(),
{
    if flags.len() > 0 {
        let rest = flags.drop_first();
        unknown_flag_is_another(rest);
        if first_unknown_flag(flags) is None {
            assert forall|i: int| 0 <= i < flags.len() implies #[trigger] flags[i] == "--check"@ by {
                if i > 0 {
                    assert(rest[i - 1] == flags[i]);
                }
            }
        } else if forall|i: int| 0 <= i < flags.len() ==> #[trigger] flags[i] == "--check"@ {
            assert forall|i: int| 0 <= i < rest.len() implies #[trigger] rest[i] == "--check"@ by {
                assert(rest[i] == flags[i + 1]);
            }
        }
    }
}

/// Each command is asked for by its own name, and takes no arguments but that `prepare` can be told
/// to check; without a command there is help.
pub proof fn commands_have_their_names(name: Seq<char>, rest: Seq<Seq<char>>, more: Seq<char>)
    requires
        rest.len() > 0,
        name != "leaf"@,
    ensures
        asked(Seq::empty()) == Ok::<Command, Seq<char>>(Command::Help),
        asked(seq!["prepare"@]) == Ok::<Command, Seq<char>>(Command::Prepare { check: false }),
        asked(seq!["prepare"@, "--check"@]) == Ok::<Command, Seq<char>>(
            Command::Prepare { check: true },
        ),
        more != "--check"@ ==> asked(seq!["prepare"@, more]) is Err,
        asked(seq!["doctor"@]) == Ok::<Command, Seq<char>>(Command::Doctor),
        asked(seq!["metadata"@]) == Ok::<Command, Seq<char>>(Command::Metadata),
        asked(seq!["help"@]) == Ok::<Command, Seq<char>>(Command::Help),
        asked(seq!["--help"@]) == Ok::<Command, Seq<char>>(Command::Help),
        asked(seq!["-h"@]) == Ok::<Command, Seq<char>>(Command::Help),
        asked(seq!["doctor"@] + rest) is Err,
        asked(seq!["metadata"@] + rest) is Err,
        asked(seq!["help"@] + rest) is Err,
        name != "prepare"@ && name != "doctor"@ && name != "metadata"@ && name != "help"@ && name
            != "--help"@ && name != "-h"@ ==> asked(seq![name] + rest) is Err,
{
    reveal_strlit("leaf");
    reveal_strlit("help");
    reveal_strlit("-h");
    reveal_strlit("--help");
    reveal_strlit("prepare");
    reveal_strlit("doctor");
    reveal_strlit("metadata");
    assert("leaf"@[0] != "help"@[0]);
    assert("leaf"@.len() != "-h"@.len());
    assert("leaf"@.len() != "--help"@.len());
    assert("leaf"@.len() != "prepare"@.len());
    assert("leaf"@.len() != "doctor"@.len());
    assert("leaf"@.len() != "metadata"@.len());
    assert("help"@.len() != "-h"@.len());
    assert("help"@.len() != "--help"@.len());
    assert("help"@.len() != "prepare"@.len());
    assert("help"@.len() != "doctor"@.len());
    assert("help"@.len() != "metadata"@.len());
    assert("-h"@.len() != "--help"@.len());
    assert("-h"@.len() != "prepare"@.len());
    assert("-h"@.len() != "doctor"@.len());
    assert("-h"@.len() != "metadata"@.len());
    assert("--help"@.len() != "prepare"@.len());
    assert("--help"@[0] != "doctor"@[0]);
    assert("--help"@.len() != "metadata"@.len());
    assert("prepare"@.len() != "doctor"@.len());
    assert("prepare"@.len() != "metadata"@.len());
    assert("doctor"@.len() != "metadata"@.len());
    let none = Seq::<Seq<char>>::empty();
    reveal_with_fuel(first_unknown_flag, 3);
    assert(seq!["prepare"@].drop_first() =~= none);
    assert(seq!["doctor"@].drop_first() =~= none);
    assert(seq!["metadata"@].drop_first() =~= none);
    assert(seq!["help"@].drop_first() =~= none);
    assert(seq!["--help"@].drop_first() =~= none);
    assert(seq!["-h"@].drop_first() =~= none);
    assert(seq!["prepare"@, "--check"@].drop_first() =~= seq!["--check"@]);
    assert(seq!["--check"@].drop_first() =~= none);
    assert(seq!["prepare"@, more].drop_first() =~= seq![more]);
    assert((seq!["doctor"@] + rest).drop_first() =~= rest);
    assert((seq!["metadata"@] + rest).drop_first() =~= rest);
    assert((seq!["help"@] + rest).drop_first() =~= rest);
    assert((seq![name] + rest).drop_first() =~= rest);
}

/// A parse result as the contracts speak of it: the command or the message.
pub open spec fn outcome(res: Result<Command, UsageError>) -> Result<Command, Seq<char>> {
    match res {
        Ok(command) => Ok(command),
        Err(e) => Err(e.message@),
    }
}

/// Reads the arguments behind `cargo leaf`.
pub fn parse_args(args: &[String]) -> (res: Result<Command, UsageError>)
    ensures
        outcome(res) == asked(args.deep_view()),
{
    let ghost all = args.deep_view();
    let first: usize = if args.len() > 0 && str_eq(args[0].as_str(), "leaf") {
        1
    } else {
        0
    };
    let ghost used = if first == 1 {
        all.drop_first()
    } else {
        all
    };
    assert(used =~= all.skip(first as int));
    if first >= args.len() {
        return Ok(Command::Help);
    }
    let name = args[first].as_str();
    let next = first + 1;
    assert(used.drop_first() =~= all.skip(next as int));
    if str_eq(name, "help") || str_eq(name, "-h") || str_eq(name, "--help") {
        match rest_must_be_empty(args, next, "help") {
            Ok(()) => Ok(Command::Help),
            Err(e) => Err(e),
        }
    } else if str_eq(name, "prepare") {
        match unknown_flag(args, next) {
            Some(flag) => Err(
                UsageError {
                    message: "unknown flag `".to_string().concat(flag).concat("` for `prepare`"),
                },
            ),
            None => Ok(Command::Prepare { check: next < args.len() }),
        }
    } else if str_eq(name, "doctor") {
        match rest_must_be_empty(args, next, "doctor") {
            Ok(()) => Ok(Command::Doctor),
            Err(e) => Err(e),
        }
    } else if str_eq(name, "metadata") {
        match rest_must_be_empty(args, next, "metadata") {
            Ok(()) => Ok(Command::Metadata),
            Err(e) => Err(e),
        }
    } else {
        Err(
            UsageError {
                message: "unknown command `".to_string().concat(name).concat("`\n\n").concat(USAGE),
            },
        )
    }
}

/// The first flag from position `from` on that is not `--check`.
fn unknown_flag(args: &[String], from: usize) -> (res: Option<&str>)
    requires
        from <= args@.len(),
    ensures
        res.deep_view() == first_unknown_flag(args.deep_view().skip(from as int)),
{
    let ghost all = args.deep_view();
    let mut i: usize = from;
    while i < args.len()
        invariant
            from <= i <= args@.len(),
            all == args.deep_view(),
            first_unknown_flag(all.skip(from as int)) == first_unknown_flag(all.skip(i as int)),
        decreases args@.len() - i,
    {
        let flag = args[i].as_str();
        assert(all.skip(i as int)[0] == flag@);
        if !str_eq(flag, "--check") {
            return Some(flag);
        }
        assert(all.skip(i as int).drop_first() =~= all.skip(i + 1));
        i += 1;
    }
    None
}

/// Refuses arguments from position `next` on.
fn rest_must_be_empty(args: &[String], next: usize, name: &str) -> (res: Result<(), UsageError>)
    ensures
        match res {
            Ok(()) => next >= args@.len(),
            Err(e) => next < args@.len() && e.message@ == "`"@ + name@
                + "` takes no arguments (got `"@ + args@[next as int]@ + "`)"@,
        },
{
    if next < args.len() {
        Err(
            UsageError {
                message: "`".to_string().concat(name).concat(
                    "` takes no arguments (got `",
                ).concat(args[next].as_str()).concat("`)"),
            },
        )
    } else {
        Ok(())
    }
}

/// The build-script line that keeps the linker from dropping registrations.
pub fn anti_dce_link_directive() -> (res: &'static str)
    ensures
        res@ == "cargo::rustc-link-arg=-Wl,-z,nostart-stop-gc"@,
{
    "cargo::rustc-link-arg=-Wl,-z,nostart-stop-gc"
}

/// What `command` does, in words.
pub open spec fn description(command: Command) -> Seq<char> {
    match command {
        Command::Prepare { check: false } =>
            "emit force-link shim + ExpectedManifest + auto-config plan"@,
        Command::Prepare { check: true } =>
            "verify the checked-in artifact is up to date (fail if stale)"@,
        Command::Doctor => "list discovered registrations + per-source row counts"@,
        Command::Metadata => "print the config-metadata rollup + duplicate prefixes"@,
        Command::Help => USAGE@,
    }
}

/// A command is described by what it does; preparing and checking what is prepared are told apart.
pub proof fn commands_are_described()
    ensures
        description(Command::Prepare { check: false })
            == "emit force-link shim + ExpectedManifest + auto-config plan"@,
        description(Command::Prepare { check: true })
            == "verify the checked-in artifact is up to date (fail if stale)"@,
        description(Command::Doctor) == "list discovered registrations + per-source row counts"@,
        description(Command::Metadata) == "print the config-metadata rollup + duplicate prefixes"@,
        description(Command::Help) == USAGE@,
{
}

/// Says in words what `command` does.
pub fn describe(command: &Command) -> (res: String)
    ensures
        res@ == description(*command),
{
    match command {
        Command::Prepare { check: false } => {
            "emit force-link shim + ExpectedManifest + auto-config plan".to_string()
        },
        Command::Prepare { check: true } => {
            "verify the checked-in artifact is up to date (fail if stale)".to_string()
        },
        Command::Doctor => "list discovered registrations + per-source row counts".to_string(),
        Command::Metadata => "print the config-metadata rollup + duplicate prefixes".to_string(),
        Command::Help => USAGE.to_string(),
    }
}

} // verus!
