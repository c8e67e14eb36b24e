use sure_rm::cli::{
    Command, HelpTopic, Invocation, RequestedMode, SureBypass, build_sure_bypass,
    filter_passthrough_args, has_sure_flag, invoked_as_unlink, parse_delete_with_mode,
    parse_invocation, parse_list, parse_purge, parse_restore, parse_unlink, split_leading_mode,
    subcommand_usage, usage, version,
};
use sure_rm::text::EnvValue;

fn os(args: &[&str]) -> Vec<Vec<u8>> {
    args.iter().map(|a| a.as_bytes().to_vec()).collect()
}

#[test]
fn parses_combined_short_flags() {
    let Command::Delete(options) =
        parse_delete_with_mode(RequestedMode::Auto, os(&["-rfv", "target", "other"])).unwrap()
    else {
        panic!("expected delete command");
    };

    assert!(options.recursive);
    assert!(options.force);
    assert!(options.verbose);
    assert_eq!(options.paths.len(), 2);
}

#[test]
fn i_overrides_previous_f() {
    let Command::Delete(options) =
        parse_delete_with_mode(RequestedMode::Auto, os(&["-fi", "target"])).unwrap()
    else {
        panic!("expected delete command");
    };

    assert!(!options.force);
    assert!(options.interactive_each);
}

#[test]
fn parses_d_x_p_flags() {
    let Command::Delete(options) =
        parse_delete_with_mode(RequestedMode::Auto, os(&["-dxpv", "target"])).unwrap()
    else {
        panic!("expected delete command");
    };

    assert!(options.allow_dir);
    assert!(options.one_file_system);
    assert!(options.permanent);
    assert!(options.verbose);
}

#[test]
fn parses_mode_long_option() {
    let Command::Delete(options) = parse_delete_with_mode(
        RequestedMode::Auto,
        os(&["--mode", "interactive", "target"]),
    )
    .unwrap() else {
        panic!("expected delete command");
    };

    assert_eq!(options.mode, RequestedMode::Interactive);
    assert_eq!(options.paths, vec![b"target".to_vec()]);
}

#[test]
fn parses_mode_equals_syntax() {
    let Command::Delete(options) =
        parse_delete_with_mode(RequestedMode::Auto, os(&["--mode=batch", "target"])).unwrap()
    else {
        panic!("expected delete command");
    };

    assert_eq!(options.mode, RequestedMode::Batch);
}

#[test]
fn parses_unlink_path() {
    let Command::Unlink(options) = parse_unlink(os(&["--", "-file"])).unwrap() else {
        panic!("expected unlink command");
    };

    assert_eq!(options.path, b"-file".to_vec());
}

#[test]
fn w_flag_returns_error() {
    let error = parse_delete_with_mode(RequestedMode::Auto, os(&["-W", "target"])).unwrap_err();
    assert!(error.contains("restore"));
}

#[test]
fn unlink_detects_program_name() {
    assert!(invoked_as_unlink(Some(b"/usr/local/bin/unlink".as_slice())));
    assert!(!invoked_as_unlink(Some(b"/usr/local/bin/sure-rm".as_slice())));
}

fn bypass(args: &[&str]) -> Option<SureBypass> {
    let argv = os(args);
    build_sure_bypass(None, &argv)
}

#[test]
fn sure_after_double_dash_does_not_trigger_bypass() {
    assert!(bypass(&["--", "--sure"]).is_none());
}

#[test]
fn sure_before_double_dash_still_triggers_bypass() {
    assert!(bypass(&["--sure", "--", "file"]).is_some());
}

#[test]
fn sure_bypass_skips_non_delete_subcommands() {
    for sub in &["list", "restore", "purge", "help", "--help"] {
        assert!(
            bypass(&[sub, "--sure"]).is_none(),
            "should not bypass for {sub}"
        );
    }
}

#[test]
fn sure_bypass_uses_rm_and_strips_sure_rm_flags() {
    let b = bypass(&["--mode", "interactive", "--sure", "-rf", "target"]).unwrap();
    assert_eq!(
        b,
        SureBypass {
            program: "/bin/rm",
            args: os(&["-rf", "target"]),
        }
    );
}

#[test]
fn sure_bypass_uses_unlink_for_subcommand() {
    let b = bypass(&["unlink", "--sure", "--", "-file"]).unwrap();
    assert_eq!(
        b,
        SureBypass {
            program: "/bin/unlink",
            args: os(&["--", "-file"]),
        }
    );
}

#[test]
fn short_s_triggers_sure_bypass() {
    let b = bypass(&["-sf", "target"]).unwrap();
    assert_eq!(
        b,
        SureBypass {
            program: "/bin/rm",
            args: os(&["-f", "target"]),
        }
    );
}

#[test]
fn short_s_alone_triggers_sure_bypass() {
    let b = bypass(&["-s", "target"]).unwrap();
    assert_eq!(
        b,
        SureBypass {
            program: "/bin/rm",
            args: os(&["target"]),
        }
    );
}

#[test]
fn filter_passthrough_args_keeps_operands_after_double_dash() {
    let filtered = filter_passthrough_args(&os(&[
        "--mode=interactive",
        "--",
        "--mode",
        "--sure",
        "file",
    ]));
    assert_eq!(filtered, os(&["--", "--mode", "--sure", "file"]));
}

// ---------------------------------------------------------------------------

#[test]
fn mode_parse_accepts_the_three_modes() {
    assert_eq!(RequestedMode::parse("auto"), Ok(RequestedMode::Auto));
    assert_eq!(RequestedMode::parse("interactive"), Ok(RequestedMode::Interactive));
    assert_eq!(RequestedMode::parse("batch"), Ok(RequestedMode::Batch));
    assert_eq!(
        RequestedMode::parse("loud"),
        Err("invalid mode: loud (expected auto, interactive, or batch)".to_string())
    );
}

#[test]
fn mode_from_env_values() {
    assert_eq!(RequestedMode::from_env(&EnvValue::Unset), Ok(RequestedMode::Auto));
    assert_eq!(
        RequestedMode::from_env(&EnvValue::Text("batch".to_string())),
        Ok(RequestedMode::Batch)
    );
    assert_eq!(
        RequestedMode::from_env(&EnvValue::Text("x".to_string())),
        Err("invalid SURE_RM_MODE: x (expected auto, interactive, or batch)".to_string())
    );
    assert_eq!(
        RequestedMode::from_env(&EnvValue::NotUnicode),
        Err("invalid SURE_RM_MODE: value must be valid UTF-8".to_string())
    );
}

#[test]
fn delete_errors_and_help() {
    let e = parse_delete_with_mode(RequestedMode::Auto, os(&["--bogus"])).unwrap_err();
    assert_eq!(e, "unknown option: --bogus");
    let e = parse_delete_with_mode(RequestedMode::Auto, os(&["-q"])).unwrap_err();
    assert_eq!(e, "unknown option: -q");
    let e = parse_delete_with_mode(RequestedMode::Auto, os(&["--mode"])).unwrap_err();
    assert_eq!(e, "missing value after --mode");
    assert!(matches!(
        parse_delete_with_mode(RequestedMode::Auto, os(&["-h"])).unwrap(),
        Command::Help(HelpTopic::General)
    ));
    assert!(matches!(
        parse_delete_with_mode(RequestedMode::Auto, os(&["--help"])).unwrap(),
        Command::Help(HelpTopic::General)
    ));
}

#[test]
fn delete_after_double_dash_takes_paths() {
    let Command::Delete(options) =
        parse_delete_with_mode(RequestedMode::Batch, os(&["-r", "--", "-f", "-"])).unwrap()
    else {
        panic!("expected delete command");
    };
    assert!(options.recursive);
    assert!(!options.force);
    assert_eq!(options.mode, RequestedMode::Batch);
    assert_eq!(options.paths, os(&["-f", "-"]));
}

#[test]
fn non_utf8_argument_is_a_path() {
    let raw = vec![b'-', 0xff, b'x'];
    let Command::Delete(options) =
        parse_delete_with_mode(RequestedMode::Auto, vec![raw.clone()]).unwrap()
    else {
        panic!("expected delete command");
    };
    assert_eq!(options.paths, vec![raw]);
}

#[test]
fn list_restore_purge_arguments() {
    assert!(matches!(parse_list(os(&[])).unwrap(), Command::List));
    assert!(matches!(parse_list(os(&["-h"])).unwrap(), Command::Help(HelpTopic::List)));
    assert_eq!(
        parse_list(os(&["x"])).unwrap_err(),
        "list does not accept positional arguments"
    );

    let Command::Restore(r) = parse_restore(os(&["abc", "--to", "/tmp/x"])).unwrap() else {
        panic!("expected restore command");
    };
    assert_eq!(r.query, "abc");
    assert_eq!(r.destination, Some(b"/tmp/x".to_vec()));
    assert_eq!(parse_restore(os(&[])).unwrap_err(), "restore requires an id or path");
    assert_eq!(
        parse_restore(os(&["a", "b"])).unwrap_err(),
        "restore accepts exactly one id or path"
    );
    assert_eq!(
        parse_restore(os(&["a", "--to"])).unwrap_err(),
        "restore requires a path after --to"
    );
    assert_eq!(parse_restore(os(&["-x"])).unwrap_err(), "unknown restore option: -x");

    let Command::Purge(p) = parse_purge(os(&["--all", "a", "b"])).unwrap() else {
        panic!("expected purge command");
    };
    assert!(p.all);
    assert_eq!(p.queries, vec!["a".to_string(), "b".to_string()]);
    assert_eq!(parse_purge(os(&["-z"])).unwrap_err(), "unknown purge option: -z");
}

#[test]
fn unlink_argument_errors() {
    assert_eq!(parse_unlink(os(&[])).unwrap_err(), "unlink requires exactly one path");
    assert_eq!(parse_unlink(os(&["a", "b"])).unwrap_err(), "unlink accepts exactly one path");
    assert_eq!(
        parse_unlink(os(&["-f"])).unwrap_err(),
        "unlink does not accept options other than --"
    );
    assert!(matches!(parse_unlink(os(&["-h"])).unwrap(), Command::Help(HelpTopic::Unlink)));
}

#[test]
fn leading_mode_is_split_off() {
    let (lead, rest) = split_leading_mode(os(&["--mode", "batch", "--mode=auto", "list"])).unwrap();
    assert_eq!(lead, os(&["--mode", "batch", "--mode=auto"]));
    assert_eq!(rest, os(&["list"]));
    assert_eq!(split_leading_mode(os(&["--mode"])).unwrap_err(), "missing value after --mode");
}

#[test]
fn invocation_reads_subcommands_and_bypass() {
    let inv = parse_invocation(None, os(&["--mode", "interactive", "list", "--sure"]), &EnvValue::Unset)
        .unwrap_err();
    assert_eq!(inv, "list does not accept positional arguments");
    let inv = parse_invocation(None, os(&[]), &EnvValue::Unset).unwrap();
    assert!(matches!(inv, Invocation::Command(Command::Help(HelpTopic::General))));
    let inv = parse_invocation(None, os(&["--version"]), &EnvValue::Unset).unwrap();
    assert!(matches!(inv, Invocation::Command(Command::Version)));
    let inv = parse_invocation(None, os(&["-s", "x"]), &EnvValue::Unset).unwrap();
    assert!(matches!(inv, Invocation::Bypass(_)));
    let inv = parse_invocation(Some(b"/bin/unlink".to_vec()), os(&["f"]), &EnvValue::Unset).unwrap();
    assert!(matches!(inv, Invocation::Command(Command::Unlink(_))));
    let err = parse_invocation(None, os(&["f"]), &EnvValue::Text("nope".to_string())).unwrap_err();
    assert_eq!(err, "invalid SURE_RM_MODE: nope (expected auto, interactive, or batch)");
    let Invocation::Command(Command::Delete(o)) =
        parse_invocation(None, os(&["--mode", "batch", "f"]), &EnvValue::Unset).unwrap()
    else {
        panic!("expected delete command");
    };
    assert_eq!(o.mode, RequestedMode::Batch);
    assert_eq!(o.paths, os(&["f"]));
}

#[test]
fn sure_flag_detection() {
    assert!(has_sure_flag(&os(&["x", "-vs"])));
    assert!(!has_sure_flag(&os(&["--sx"])));
    assert!(!has_sure_flag(&os(&["x", "--", "-s"])));
}

#[test]
fn usage_and_version_texts() {
    assert!(usage().starts_with("sure-rm "));
    assert!(usage().contains("Usage:"));
    assert!(usage().ends_with("show version\n\n"));
    assert_eq!(subcommand_usage(HelpTopic::General), usage());
    assert!(subcommand_usage(HelpTopic::List).starts_with("list all entries in sure-rm trash\n"));
    assert!(subcommand_usage(HelpTopic::Unlink).contains("Usage: sure-rm unlink [--] <PATH>"));
    assert!(!version().is_empty());
}

fn force_and_prompt(list: &[&str]) -> (bool, bool) {
    let Command::Delete(o) = parse_delete_with_mode(RequestedMode::Auto, os(list)).unwrap() else {
        panic!("expected delete command");
    };
    (o.force, o.interactive_each)
}

#[test]
fn last_force_or_prompt_letter_wins() {
    assert_eq!(force_and_prompt(&["x"]), (false, false));
    assert_eq!(force_and_prompt(&["-rv", "x"]), (false, false));
    assert_eq!(force_and_prompt(&["-f", "x"]), (true, false));
    assert_eq!(force_and_prompt(&["-i", "x"]), (false, true));
    assert_eq!(force_and_prompt(&["-if", "x"]), (true, false));
    assert_eq!(force_and_prompt(&["-f", "-ri", "x"]), (false, true));
    assert_eq!(force_and_prompt(&["-i", "x", "-fv"]), (true, false));
    assert_eq!(force_and_prompt(&["-i", "--", "-f"]), (false, true));
    assert_eq!(force_and_prompt(&["--mode", "batch", "-f", "--", "-i"]), (true, false));
}
