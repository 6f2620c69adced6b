use crushr::command::{decide_app_action, AppAction, AppCommand};
use crushr::lab::cli::{parse_cli_options as parse_lab, CliError as LabCliError, Mode};
use crushr::salvage::cli::{parse_cli_options as parse_salvage, CliError as SalvageCliError};

fn args(xs: &[&str]) -> Vec<String> {
    xs.iter().map(|s| s.to_string()).collect()
}

#[test]
fn app_commands_parse_by_name() {
    assert_eq!(AppCommand::parse("pack"), Some(AppCommand::Pack));
    assert_eq!(AppCommand::parse("lab"), Some(AppCommand::Lab));
    assert_eq!(AppCommand::parse("Pack"), None);
}

#[test]
fn app_actions_for_help_version_and_errors() {
    assert!(matches!(decide_app_action(&args(&[])), AppAction::Help { exit_code: 1 }));
    assert!(matches!(decide_app_action(&args(&["-h"])), AppAction::Help { exit_code: 0 }));
    assert!(matches!(decide_app_action(&args(&["--version"])), AppAction::Version));
    match decide_app_action(&args(&["frobnicate", "x"])) {
        AppAction::UnknownCommand(c) => assert_eq!(c, "frobnicate"),
        _ => panic!("expected an unknown command"),
    }
    assert!(matches!(decide_app_action(&args(&["verify"])), AppAction::VerifyUsage));
    assert!(matches!(decide_app_action(&args(&["about", "x"])), AppAction::AboutUsage));
}

#[test]
fn app_actions_forward_arguments() {
    match decide_app_action(&args(&["verify", "a.crs"])) {
        AppAction::Run { command, args } => {
            assert_eq!(command, AppCommand::Verify);
            assert_eq!(args, vec!["--verify".to_string(), "a.crs".to_string()]);
        }
        _ => panic!("expected a run"),
    }
    match decide_app_action(&args(&["pack", "in", "-o", "out"])) {
        AppAction::Run { command, args } => {
            assert_eq!(command, AppCommand::Pack);
            assert_eq!(args.len(), 3);
        }
        _ => panic!("expected a run"),
    }
}

#[test]
fn lab_experiment_runs_need_input_and_output() {
    let o = parse_lab(&args(&["in", "--output", "out", "--limit", "3", "--export-fragments"])).ok().unwrap();
    match o.mode {
        Mode::RunExperiment { input_dir, experiment_dir } => {
            assert_eq!(input_dir, "in");
            assert_eq!(experiment_dir, "out");
        }
        _ => panic!("expected an experiment run"),
    }
    assert_eq!(o.limit, Some(3));
    assert!(o.export_fragments);
    assert!(matches!(parse_lab(&args(&["in"])), Err(LabCliError::Usage)));
    assert!(matches!(parse_lab(&args(&[])), Err(LabCliError::Usage)));
}

#[test]
fn lab_flag_errors() {
    match parse_lab(&args(&["in", "--limit", "x"])) {
        Err(LabCliError::InvalidLimit(v)) => assert_eq!(v, "x"),
        _ => panic!("expected an invalid limit"),
    }
    match parse_lab(&args(&["in", "--bogus"])) {
        Err(LabCliError::UnsupportedFlag(v)) => assert_eq!(v, "--bogus"),
        _ => panic!("expected an unsupported flag"),
    }
    match parse_lab(&args(&["in", "extra", "--output", "o"])) {
        Err(LabCliError::UnexpectedArgument(v)) => assert_eq!(v, "extra"),
        _ => panic!("expected an unexpected argument"),
    }
    match parse_lab(&args(&["in", "run-format09-comparison"])) {
        Err(LabCliError::SubcommandNotFirst(v)) => assert_eq!(v, "run-format09-comparison"),
        _ => panic!("expected a misplaced subcommand"),
    }
    assert!(matches!(parse_lab(&args(&["--resummarize", "d", "--limit", "1"])), Err(LabCliError::ResummarizeWithRunFlags)));
}

#[test]
fn lab_comparisons_and_help() {
    match parse_lab(&args(&["run-format10-pruning-comparison", "--output", "c", "--verbose"])) {
        Ok(o) => {
            assert!(o.verbose);
            assert!(matches!(o.mode, Mode::RunFormat10PruningComparison { .. }));
        }
        Err(_) => panic!("expected a comparison"),
    }
    match parse_lab(&args(&["run-redundant-map-comparison", "--what"])) {
        Err(LabCliError::UnsupportedComparisonArgument(v)) => assert_eq!(v, "--what"),
        _ => panic!("expected an unsupported comparison argument"),
    }
    assert!(matches!(parse_lab(&args(&["help"])).ok().unwrap().mode, Mode::Help));
    assert!(matches!(parse_lab(&args(&["run-format09-comparison", "-h"])).ok().unwrap().mode, Mode::Help));
    match parse_lab(&args(&["--resummarize", "exp"])) {
        Ok(o) => assert!(matches!(o.mode, Mode::Resummarize { .. })),
        Err(_) => panic!("expected a resummarize"),
    }
}

#[test]
fn salvage_options() {
    let o = parse_salvage(&args(&["a.crs", "--json", "--json-out", "p.json", "--export-fragments", "dir"])).ok().unwrap();
    assert_eq!(o.archive, "a.crs");
    assert!(o.json);
    assert_eq!(o.json_out.as_deref(), Some("p.json"));
    assert_eq!(o.export_fragments.as_deref(), Some("dir"));
    assert!(matches!(parse_salvage(&args(&["--json"])), Err(SalvageCliError::Usage)));
    assert!(matches!(parse_salvage(&args(&["a", "--json-out"])), Err(SalvageCliError::Usage)));
    match parse_salvage(&args(&["a", "--nope"])) {
        Err(SalvageCliError::UnsupportedFlag(f)) => assert_eq!(f, "--nope"),
        _ => panic!("expected an unsupported flag"),
    }
    match parse_salvage(&args(&["a", "b"])) {
        Err(SalvageCliError::UnexpectedArgument(f)) => assert_eq!(f, "b"),
        _ => panic!("expected an unexpected argument"),
    }
}
