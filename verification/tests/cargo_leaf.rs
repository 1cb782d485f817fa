//! Tests of `cargo_leaf`.
use leaf_codegen::cargo_leaf::{anti_dce_link_directive, describe, parse_args, Command, USAGE};


fn argv(parts: &[&str]) -> Vec<String> {
    parts.iter().map(|s| (*s).to_string()).collect()
}

#[test]
fn no_args_is_help() {
    assert_eq!(parse_args(&[]).unwrap(), Command::Help);
}

#[test]
fn tolerates_the_leading_leaf_token_cargo_injects() {
    assert_eq!(parse_args(&argv(&["leaf", "doctor"])).unwrap(), Command::Doctor);
    assert_eq!(parse_args(&argv(&["doctor"])).unwrap(), Command::Doctor);
}

#[test]
fn parses_prepare_with_and_without_check() {
    assert_eq!(
        parse_args(&argv(&["prepare"])).unwrap(),
        Command::Prepare { check: false }
    );
    assert_eq!(
        parse_args(&argv(&["prepare", "--check"])).unwrap(),
        Command::Prepare { check: true }
    );
}

#[test]
fn parses_doctor_and_metadata() {
    assert_eq!(parse_args(&argv(&["doctor"])).unwrap(), Command::Doctor);
    assert_eq!(parse_args(&argv(&["metadata"])).unwrap(), Command::Metadata);
}

#[test]
fn help_flags_are_help() {
    for h in ["help", "-h", "--help"] {
        assert_eq!(parse_args(&argv(&[h])).unwrap(), Command::Help);
    }
}

#[test]
fn an_unknown_command_is_a_loud_usage_error() {
    let err = parse_args(&argv(&["frobnicate"])).expect_err("unknown command must error");
    assert!(err.message.contains("unknown command"), "{}", err.message);
    assert!(err.message.contains("Commands:"), "{}", err.message);
}

#[test]
fn an_unknown_prepare_flag_is_a_loud_usage_error() {
    let err = parse_args(&argv(&["prepare", "--nope"])).expect_err("unknown flag must error");
    assert!(err.message.contains("unknown flag"), "{}", err.message);
}

#[test]
fn a_flagless_subcommand_rejects_trailing_args() {
    let err = parse_args(&argv(&["doctor", "extra"])).expect_err("doctor takes no args");
    assert!(err.message.contains("takes no arguments"), "{}", err.message);
}

#[test]
fn anti_dce_directive_is_the_nostart_stop_gc_link_arg() {
    let d = anti_dce_link_directive();
    assert!(d.starts_with("cargo::rustc-link-arg="), "got: {d}");
    assert!(d.contains("nostart-stop-gc"), "got: {d}");
}

#[test]
fn describe_maps_each_command_to_a_planned_action() {
    assert!(describe(&Command::Prepare { check: false }).contains("force-link"));
    assert!(describe(&Command::Prepare { check: true }).contains("stale"));
    assert!(describe(&Command::Doctor).contains("registrations"));
    assert!(describe(&Command::Metadata).contains("rollup"));
    assert_eq!(describe(&Command::Help), USAGE);
}
