//! The top-level command of the `crushr` program and what a command line
//! asks it to do.
use vstd::prelude::*;
use vstd::string::*;
use crate::text::str_equals;

verus! {

/// The commands of the `crushr` program.
#[derive(Clone, Copy, Debug, PartialEq, Eq, Structural)]
pub enum AppCommand {
    Pack,
    Extract,
    Verify,
    Info,
    About,
    Completion,
    Man,
    Lab,
}

/// The command a name stands for.
pub open spec fn spec_app_command(value: Seq<char>) -> Option<AppCommand> {
    if value == "pack"@ {
        Some(AppCommand::Pack)
    } else if value == "extract"@ {
        Some(AppCommand::Extract)
    } else if value == "verify"@ {
        Some(AppCommand::Verify)
    } else if value == "info"@ {
        Some(AppCommand::Info)
    } else if value == "about"@ {
        Some(AppCommand::About)
    } else if value == "completion"@ {
        Some(AppCommand::Completion)
    } else if value == "man"@ {
        Some(AppCommand::Man)
    } else if value == "lab"@ {
        Some(AppCommand::Lab)
    } else {
        None
    }
}

impl AppCommand {
    /// The command a name stands for, if any.
    pub fn parse(value: &str) -> (r: Option<AppCommand>)
        ensures
            r == spec_app_command(value@),
    {
        if str_equals(value, "pack") {
            Some(AppCommand::Pack)
        } else if str_equals(value, "extract") {
            Some(AppCommand::Extract)
        } else if str_equals(value, "verify") {
            Some(AppCommand::Verify)
        } else if str_equals(value, "info") {
            Some(AppCommand::Info)
        } else if str_equals(value, "about") {
            Some(AppCommand::About)
        } else if str_equals(value, "completion") {
            Some(AppCommand::Completion)
        } else if str_equals(value, "man") {
            Some(AppCommand::Man)
        } else if str_equals(value, "lab") {
            Some(AppCommand::Lab)
        } else {
            None
        }
    }
}

/// What a command line asks the program to do.
pub enum AppAction {
    /// Print the help; exit with the given code.
    Help { exit_code: i32 },
    /// Print the product version.
    Version,
    /// The first argument names no command.
    UnknownCommand(String),
    /// `verify` without an archive.
    VerifyUsage,
    /// `about` with arguments.
    AboutUsage,
    /// Run a command with the arguments after its name (for `verify`,
    /// `--verify` first: it runs as `extract --verify`).
    Run { command: AppCommand, args: Vec<String> },
}

/// What the arguments (program name excluded) ask for.
pub open spec fn spec_app_action(args: Seq<Seq<char>>) -> (int, Option<AppCommand>, Seq<Seq<char>>) {
    if args.len() == 0 {
        (0, None, seq![])
    } else if args[0] == "--help"@ || args[0] == "-h"@ {
        (1, None, seq![])
    } else if args[0] == "--version"@ || args[0] == "-V"@ {
        (2, None, seq![])
    } else {
        match spec_app_command(args[0]) {
            None => (3, None, seq![args[0]]),
            Some(c) => {
                let rest = args.skip(1);
                if c == AppCommand::Verify && rest.len() == 0 {
                    (4, None, seq![])
                } else if c == AppCommand::About && rest.len() > 0 {
                    (5, None, seq![])
                } else if c == AppCommand::Verify {
                    (6, Some(c), seq!["--verify"@] + rest)
                } else {
                    (6, Some(c), rest)
                }
            },
        }
    }
}

/// The number, command and arguments an action stands for in `spec_app_action`.
pub open spec fn action_view(a: AppAction) -> (int, Option<AppCommand>, Seq<Seq<char>>) {
    match a {
        AppAction::Help { exit_code } => if exit_code == 1 { (0, None, seq![]) } else { (1, None, seq![]) },
        AppAction::Version => (2, None, seq![]),
        AppAction::UnknownCommand(s) => (3, None, seq![s@]),
        AppAction::VerifyUsage => (4, None, seq![]),
        AppAction::AboutUsage => (5, None, seq![]),
        AppAction::Run { command, args } => (6, Some(command), args@.map_values(|s: String| s@)),
    }
}

/// Decides what a command line asks for: no arguments print the help and
/// fail, `--help` prints it and succeeds, `--version` prints the version;
/// otherwise the first argument must name a command.
pub fn decide_app_action(args: &Vec<String>) -> (r: AppAction)
    ensures
        action_view(r) == spec_app_action(args@.map_values(|s: String| s@)),
        r matches AppAction::Help { exit_code } ==> exit_code == 0 || exit_code == 1,
{
    let ghost av = args@.map_values(|s: String| s@);
    if args.len() == 0 {
        return AppAction::Help { exit_code: 1 };
    }
    let first = args[0].as_str();
    proof {
        assert(av[0] == first@);
    }
    if str_equals(first, "--help") || str_equals(first, "-h") {
        return AppAction::Help { exit_code: 0 };
    }
    if str_equals(first, "--version") || str_equals(first, "-V") {
        return AppAction::Version;
    }
    let command = match AppCommand::parse(first) {
        Some(c) => c,
        None => return AppAction::UnknownCommand(args[0].clone()),
    };
    let is_verify = command == AppCommand::Verify;
    if is_verify && args.len() == 1 {
        return AppAction::VerifyUsage;
    }
    if command == AppCommand::About && args.len() > 1 {
        return AppAction::AboutUsage;
    }
    let mut rest: Vec<String> = Vec::new();
    if is_verify {
        rest.push(String::from_str("--verify"));
    }
    let ghost base = rest@.map_values(|s: String| s@);
    proof {
        reveal_strlit("--verify");
        if is_verify {
            assert(base =~= seq!["--verify"@]);
        } else {
            assert(base =~= Seq::<Seq<char>>::empty());
        }
    }
    let mut i: usize = 1;
    while i < args.len()
        invariant
            1 <= i <= args@.len(),
            av == args@.map_values(|s: String| s@),
            rest@.map_values(|s: String| s@) == base + av.subrange(1, i as int),
        decreases args.len() - i,
    {
        let ghost old_rest = rest@;
        rest.push(args[i].clone());
        proof {
            assert(rest@.map_values(|s: String| s@) =~= old_rest.map_values(|s: String| s@).push(av[i as int]));
            assert(av.subrange(1, i + 1) =~= av.subrange(1, i as int).push(av[i as int]));
            assert(base + av.subrange(1, i + 1) =~= (base + av.subrange(1, i as int)).push(av[i as int]));
        }
        i = i + 1;
    }
    proof {
        assert(av.subrange(1, av.len() as int) =~= av.skip(1));
        if !is_verify {
            assert(base + av.skip(1) =~= av.skip(1));
        }
    }
    AppAction::Run { command, args: rest }
}

} // verus!
