//! Command-line options of the salvage lab.
use vstd::prelude::*;
use vstd::string::*;
use crate::text::{str_equals, parse_usize, parse_usize_spec};

verus! {

/// What the lab was asked to do.
pub enum Mode {
    Help,
    RunExperiment { input_dir: String, experiment_dir: String },
    Resummarize { experiment_dir: String },
    RunRedundantMapComparison { comparison_dir: String },
    RunExperimentalResilienceComparison { comparison_dir: String },
    RunFileIdentityComparison { comparison_dir: String },
    RunFormat04Comparison { comparison_dir: String },
    RunFormat05Comparison { comparison_dir: String },
    RunFormat06Comparison { comparison_dir: String },
    RunFormat07Comparison { comparison_dir: String },
    RunFormat08PlacementComparison { comparison_dir: String },
    RunFormat09Comparison { comparison_dir: String },
    RunFormat10PruningComparison { comparison_dir: String },
    RunFormat11ExtentIdentityComparison { comparison_dir: String },
    /// The format-12 to format-15 comparisons: modes of the harness that
    /// the command-line parser does not select.
    RunFormat12InlinePathComparison { comparison_dir: String },
    RunFormat12StressComparison { comparison_dir: String },
    RunFormat13Comparison { comparison_dir: String },
    RunFormat13StressComparison { comparison_dir: String },
    RunFormat14aDictionaryResilienceComparison { comparison_dir: String },
    RunFormat14aDictionaryResilienceStressComparison { comparison_dir: String },
    RunFormat15Comparison { comparison_dir: String },
    RunFormat15StressComparison { comparison_dir: String },
}

/// A mode as plain values; comparisons are numbered in the order of `comparison_kind`.
pub enum ModeView {
    Help,
    RunExperiment { input_dir: Seq<char>, experiment_dir: Seq<char> },
    Resummarize { experiment_dir: Seq<char> },
    Comparison { kind: int, comparison_dir: Seq<char> },
}

impl View for Mode {
    type V = ModeView;

    open spec fn view(&self) -> ModeView {
        match self {
            Mode::Help => ModeView::Help,
            Mode::RunExperiment { input_dir, experiment_dir } => ModeView::RunExperiment {
                input_dir: input_dir@,
                experiment_dir: experiment_dir@,
            },
            Mode::Resummarize { experiment_dir } => ModeView::Resummarize { experiment_dir: experiment_dir@ },
            Mode::RunRedundantMapComparison { comparison_dir } => ModeView::Comparison { kind: 0, comparison_dir: comparison_dir@ },
            Mode::RunExperimentalResilienceComparison { comparison_dir } => ModeView::Comparison { kind: 1, comparison_dir: comparison_dir@ },
            Mode::RunFileIdentityComparison { comparison_dir } => ModeView::Comparison { kind: 2, comparison_dir: comparison_dir@ },
            Mode::RunFormat04Comparison { comparison_dir } => ModeView::Comparison { kind: 3, comparison_dir: comparison_dir@ },
            Mode::RunFormat05Comparison { comparison_dir } => ModeView::Comparison { kind: 4, comparison_dir: comparison_dir@ },
            Mode::RunFormat06Comparison { comparison_dir } => ModeView::Comparison { kind: 5, comparison_dir: comparison_dir@ },
            Mode::RunFormat07Comparison { comparison_dir } => ModeView::Comparison { kind: 6, comparison_dir: comparison_dir@ },
            Mode::RunFormat08PlacementComparison { comparison_dir } => ModeView::Comparison { kind: 7, comparison_dir: comparison_dir@ },
            Mode::RunFormat09Comparison { comparison_dir } => ModeView::Comparison { kind: 8, comparison_dir: comparison_dir@ },
            Mode::RunFormat10PruningComparison { comparison_dir } => ModeView::Comparison { kind: 9, comparison_dir: comparison_dir@ },
            Mode::RunFormat11ExtentIdentityComparison { comparison_dir } => ModeView::Comparison { kind: 10, comparison_dir: comparison_dir@ },
            Mode::RunFormat12InlinePathComparison { comparison_dir } => ModeView::Comparison { kind: 11, comparison_dir: comparison_dir@ },
            Mode::RunFormat12StressComparison { comparison_dir } => ModeView::Comparison { kind: 12, comparison_dir: comparison_dir@ },
            Mode::RunFormat13Comparison { comparison_dir } => ModeView::Comparison { kind: 13, comparison_dir: comparison_dir@ },
            Mode::RunFormat13StressComparison { comparison_dir } => ModeView::Comparison { kind: 14, comparison_dir: comparison_dir@ },
            Mode::RunFormat14aDictionaryResilienceComparison { comparison_dir } => ModeView::Comparison { kind: 15, comparison_dir: comparison_dir@ },
            Mode::RunFormat14aDictionaryResilienceStressComparison { comparison_dir } => ModeView::Comparison { kind: 16, comparison_dir: comparison_dir@ },
            Mode::RunFormat15Comparison { comparison_dir } => ModeView::Comparison { kind: 17, comparison_dir: comparison_dir@ },
            Mode::RunFormat15StressComparison { comparison_dir } => ModeView::Comparison { kind: 18, comparison_dir: comparison_dir@ },
        }
    }
}

/// The lab's options.
pub struct CliOptions {
    pub mode: Mode,
    pub export_fragments: bool,
    pub limit: Option<usize>,
    pub verbose: bool,
}

/// The options as plain values.
pub struct CliView {
    pub mode: ModeView,
    pub export_fragments: bool,
    pub limit: Option<usize>,
    pub verbose: bool,
}

impl View for CliOptions {
    type V = CliView;

    open spec fn view(&self) -> CliView {
        CliView { mode: self.mode@, export_fragments: self.export_fragments, limit: self.limit, verbose: self.verbose }
    }
}

/// Why the arguments were refused.
pub enum CliError {
    /// Required arguments are missing; the usage text applies.
    Usage,
    UnsupportedComparisonArgument(String),
    InvalidLimit(String),
    SubcommandNotFirst(String),
    UnsupportedFlag(String),
    UnexpectedArgument(String),
    ResummarizeWithRunFlags,
}

/// An error as plain values.
pub enum CliErrorView {
    Usage,
    UnsupportedComparisonArgument(Seq<char>),
    InvalidLimit(Seq<char>),
    SubcommandNotFirst(Seq<char>),
    UnsupportedFlag(Seq<char>),
    UnexpectedArgument(Seq<char>),
    ResummarizeWithRunFlags,
}

impl View for CliError {
    type V = CliErrorView;

    open spec fn view(&self) -> CliErrorView {
        match self {
            CliError::Usage => CliErrorView::Usage,
            CliError::UnsupportedComparisonArgument(a) => CliErrorView::UnsupportedComparisonArgument(a@),
            CliError::InvalidLimit(a) => CliErrorView::InvalidLimit(a@),
            CliError::SubcommandNotFirst(a) => CliErrorView::SubcommandNotFirst(a@),
            CliError::UnsupportedFlag(a) => CliErrorView::UnsupportedFlag(a@),
            CliError::UnexpectedArgument(a) => CliErrorView::UnexpectedArgument(a@),
            CliError::ResummarizeWithRunFlags => CliErrorView::ResummarizeWithRunFlags,
        }
    }
}

/// The comparison a subcommand names, numbered.
pub open spec fn comparison_kind(a: Seq<char>) -> Option<int> {
    if a == "run-redundant-map-comparison"@ {
        Some(0)
    } else if a == "run-experimental-resilience-comparison"@ {
        Some(1)
    } else if a == "run-file-identity-comparison"@ {
        Some(2)
    } else if a == "run-format04-comparison"@ {
        Some(3)
    } else if a == "run-format05-comparison"@ {
        Some(4)
    } else if a == "run-format06-comparison"@ {
        Some(5)
    } else if a == "run-format07-comparison"@ {
        Some(6)
    } else if a == "run-format08-placement-comparison"@ {
        Some(7)
    } else if a == "run-format09-comparison"@ {
        Some(8)
    } else if a == "run-format10-pruning-comparison"@ {
        Some(9)
    } else if a == "run-format11-extent-identity-comparison"@ {
        Some(10)
    } else {
        None
    }
}

/// The help request.
pub open spec fn help_view() -> CliView {
    CliView { mode: ModeView::Help, export_fragments: false, limit: None, verbose: false }
}

/// The flags after a comparison subcommand, from `i` on: `--output DIR`,
/// `--verbose`, or a help request (`None`); anything else is refused.
pub open spec fn comparison_scan(
    args: Seq<Seq<char>>,
    i: int,
    output: Option<Seq<char>>,
    verbose: bool,
) -> Result<Option<(Option<Seq<char>>, bool)>, CliErrorView>
    decreases args.len() - i,
{
    if i < 0 || i >= args.len() {
        Ok(Some((output, verbose)))
    } else if args[i] == "--output"@ {
        if i + 1 < args.len() {
            comparison_scan(args, i + 2, Some(args[i + 1]), verbose)
        } else {
            Err(CliErrorView::Usage)
        }
    } else if args[i] == "--verbose"@ {
        comparison_scan(args, i + 1, output, true)
    } else if args[i] == "--help"@ || args[i] == "-h"@ {
        Ok(None)
    } else {
        Err(CliErrorView::UnsupportedComparisonArgument(args[i]))
    }
}

/// The flags of an experiment run gathered so far.
pub struct ExperimentFlags {
    pub input: Option<Seq<char>>,
    pub output: Option<Seq<char>>,
    pub resummarize: Option<Seq<char>>,
    pub export_fragments: bool,
    pub limit: Option<usize>,
    pub verbose: bool,
}

/// The arguments of an experiment run, from `i` on, or a help request (`None`).
pub open spec fn experiment_scan(args: Seq<Seq<char>>, i: int, st: ExperimentFlags) -> Result<Option<ExperimentFlags>, CliErrorView>
    decreases args.len() - i,
{
    if i < 0 || i >= args.len() {
        Ok(Some(st))
    } else {
        let a = args[i];
        if a == "--output"@ {
            if i + 1 < args.len() {
                experiment_scan(args, i + 2, ExperimentFlags { output: Some(args[i + 1]), ..st })
            } else {
                Err(CliErrorView::Usage)
            }
        } else if a == "--export-fragments"@ {
            experiment_scan(args, i + 1, ExperimentFlags { export_fragments: true, ..st })
        } else if a == "--limit"@ {
            if i + 1 < args.len() {
                match parse_usize_spec(args[i + 1]) {
                    Some(n) => experiment_scan(args, i + 2, ExperimentFlags { limit: Some(n), ..st }),
                    None => Err(CliErrorView::InvalidLimit(args[i + 1])),
                }
            } else {
                Err(CliErrorView::Usage)
            }
        } else if a == "--verbose"@ {
            experiment_scan(args, i + 1, ExperimentFlags { verbose: true, ..st })
        } else if a == "--resummarize"@ {
            if i + 1 < args.len() {
                experiment_scan(args, i + 2, ExperimentFlags { resummarize: Some(args[i + 1]), ..st })
            } else {
                Err(CliErrorView::Usage)
            }
        } else if a == "--help"@ || a == "-h"@ {
            Ok(None)
        } else if comparison_kind(a) is Some {
            Err(CliErrorView::SubcommandNotFirst(a))
        } else if a.len() > 0 && a[0] == '-' {
            Err(CliErrorView::UnsupportedFlag(a))
        } else if st.input is None {
            experiment_scan(args, i + 1, ExperimentFlags { input: Some(a), ..st })
        } else {
            Err(CliErrorView::UnexpectedArgument(a))
        }
    }
}

/// No flags yet.
pub open spec fn no_flags() -> ExperimentFlags {
    ExperimentFlags { input: None, output: None, resummarize: None, export_fragments: false, limit: None, verbose: false }
}

/// The options an experiment run's flags give: resummarizing admits no run
/// flag; a run needs an input and an output directory.
pub open spec fn experiment_options(st: ExperimentFlags) -> Result<CliView, CliErrorView> {
    match st.resummarize {
        Some(dir) => if st.input is Some || st.limit is Some || st.export_fragments || st.output is Some {
            Err(CliErrorView::ResummarizeWithRunFlags)
        } else {
            Ok(CliView { mode: ModeView::Resummarize { experiment_dir: dir }, export_fragments: st.export_fragments, limit: st.limit, verbose: st.verbose })
        },
        None => match (st.input, st.output) {
            (Some(i), Some(o)) => Ok(CliView {
                mode: ModeView::RunExperiment { input_dir: i, experiment_dir: o },
                export_fragments: st.export_fragments,
                limit: st.limit,
                verbose: st.verbose,
            }),
            _ => Err(CliErrorView::Usage),
        },
    }
}

/// What the arguments (program name excluded) ask for.
pub open spec fn spec_parse_cli(args: Seq<Seq<char>>) -> Result<CliView, CliErrorView> {
    if args.len() == 0 {
        Err(CliErrorView::Usage)
    } else if args[0] == "--help"@ || args[0] == "-h"@ || args[0] == "help"@ {
        Ok(help_view())
    } else {
        match comparison_kind(args[0]) {
            Some(k) => match comparison_scan(args, 1, None, false) {
                Err(e) => Err(e),
                Ok(None) => Ok(help_view()),
                Ok(Some((out, verbose))) => match out {
                    Some(d) => Ok(CliView { mode: ModeView::Comparison { kind: k, comparison_dir: d }, export_fragments: false, limit: None, verbose }),
                    None => Err(CliErrorView::Usage),
                },
            },
            None => match experiment_scan(args, 0, no_flags()) {
                Err(e) => Err(e),
                Ok(None) => Ok(help_view()),
                Ok(Some(st)) => experiment_options(st),
            },
        }
    }
}

fn comparison_kind_of(a: &str) -> (r: Option<u8>)
    ensures
        match r {
            Some(k) => comparison_kind(a@) == Some(k as int),
            None => comparison_kind(a@) is None,
        },
{
    if str_equals(a, "run-redundant-map-comparison") {
        Some(0)
    } else if str_equals(a, "run-experimental-resilience-comparison") {
        Some(1)
    } else if str_equals(a, "run-file-identity-comparison") {
        Some(2)
    } else if str_equals(a, "run-format04-comparison") {
        Some(3)
    } else if str_equals(a, "run-format05-comparison") {
        Some(4)
    } else if str_equals(a, "run-format06-comparison") {
        Some(5)
    } else if str_equals(a, "run-format07-comparison") {
        Some(6)
    } else if str_equals(a, "run-format08-placement-comparison") {
        Some(7)
    } else if str_equals(a, "run-format09-comparison") {
        Some(8)
    } else if str_equals(a, "run-format10-pruning-comparison") {
        Some(9)
    } else if str_equals(a, "run-format11-extent-identity-comparison") {
        Some(10)
    } else {
        None
    }
}

fn comparison_mode(k: u8, dir: String) -> (m: Mode)
    requires
        k <= 10,
    ensures
        m@ == (ModeView::Comparison { kind: k as int, comparison_dir: dir@ }),
{
    if k == 0 {
        Mode::RunRedundantMapComparison { comparison_dir: dir }
    } else if k == 1 {
        Mode::RunExperimentalResilienceComparison { comparison_dir: dir }
    } else if k == 2 {
        Mode::RunFileIdentityComparison { comparison_dir: dir }
    } else if k == 3 {
        Mode::RunFormat04Comparison { comparison_dir: dir }
    } else if k == 4 {
        Mode::RunFormat05Comparison { comparison_dir: dir }
    } else if k == 5 {
        Mode::RunFormat06Comparison { comparison_dir: dir }
    } else if k == 6 {
        Mode::RunFormat07Comparison { comparison_dir: dir }
    } else if k == 7 {
        Mode::RunFormat08PlacementComparison { comparison_dir: dir }
    } else if k == 8 {
        Mode::RunFormat09Comparison { comparison_dir: dir }
    } else if k == 9 {
        Mode::RunFormat10PruningComparison { comparison_dir: dir }
    } else {
        Mode::RunFormat11ExtentIdentityComparison { comparison_dir: dir }
    }
}

fn help_options() -> (o: CliOptions)
    ensures
        o@ == help_view(),
{
    CliOptions { mode: Mode::Help, export_fragments: false, limit: None, verbose: false }
}

/// The arguments as plain values.
pub open spec fn arg_views(args: Seq<String>) -> Seq<Seq<char>> {
    args.map_values(|a: String| a@)
}

/// Parses the lab's arguments (program name excluded): a help request, a
/// comparison subcommand with `--output DIR` and `--verbose`, or an
/// experiment run (`INPUT --output DIR [--export-fragments] [--limit N]
/// [--verbose]`) or a resummarize request (`--resummarize DIR`).
#[verifier::loop_isolation(false)]
pub fn parse_cli_options(args: &Vec<String>) -> (r: Result<CliOptions, CliError>)
    ensures
        match r {
            Ok(o) => spec_parse_cli(arg_views(args@)) == Ok::<CliView, CliErrorView>(o@),
            Err(e) => spec_parse_cli(arg_views(args@)) == Err::<CliView, CliErrorView>(e@),
        },
{
    let ghost av = arg_views(args@);
    if args.len() == 0 {
        return Err(CliError::Usage);
    }
    let first = args[0].as_str();
    proof {
        assert(av[0] == first@);
    }
    if str_equals(first, "--help") || str_equals(first, "-h") || str_equals(first, "help") {
        return Ok(help_options());
    }
    match comparison_kind_of(first) {
        Some(k) => {
            let mut output: Option<String> = None;
            let mut verbose = false;
            let mut i: usize = 1;
            while i < args.len()
                invariant
                    1 <= i <= args@.len(),
                    av == arg_views(args@),
                    comparison_scan(av, 1, None, false) == comparison_scan(
                        av,
                        i as int,
                        match output { Some(o) => Some(o@), None => None },
                        verbose,
                    ),
                decreases args.len() - i,
            {
                let a = args[i].as_str();
                proof {
                    assert(av[i as int] == a@);
                }
                if str_equals(a, "--output") {
                    if i + 1 < args.len() {
                        proof {
                            assert(av[i + 1] == args@[i + 1]@);
                        }
                        output = Some(args[i + 1].clone());
                        i = i + 2;
                    } else {
                        return Err(CliError::Usage);
                    }
                } else if str_equals(a, "--verbose") {
                    verbose = true;
                    i = i + 1;
                } else if str_equals(a, "--help") || str_equals(a, "-h") {
                    return Ok(help_options());
                } else {
                    return Err(CliError::UnsupportedComparisonArgument(args[i].clone()));
                }
            }
            match output {
                Some(d) => Ok(CliOptions { mode: comparison_mode(k, d), export_fragments: false, limit: None, verbose }),
                None => Err(CliError::Usage),
            }
        },
        None => {
            let mut input: Option<String> = None;
            let mut output: Option<String> = None;
            let mut resummarize: Option<String> = None;
            let mut export_fragments = false;
            let mut limit: Option<usize> = None;
            let mut verbose = false;
            let mut i: usize = 0;
            while i < args.len()
                invariant
                    i <= args@.len(),
                    av == arg_views(args@),
                    experiment_scan(av, 0, no_flags()) == experiment_scan(
                        av,
                        i as int,
                        ExperimentFlags {
                            input: match input { Some(x) => Some(x@), None => None },
                            output: match output { Some(x) => Some(x@), None => None },
                            resummarize: match resummarize { Some(x) => Some(x@), None => None },
                            export_fragments,
                            limit,
                            verbose,
                        },
                    ),
                decreases args.len() - i,
            {
                let a = args[i].as_str();
                proof {
                    assert(av[i as int] == a@);
                }
                if str_equals(a, "--output") {
                    if i + 1 < args.len() {
                        proof {
                            assert(av[i + 1] == args@[i + 1]@);
                        }
                        output = Some(args[i + 1].clone());
                        i = i + 2;
                    } else {
                        return Err(CliError::Usage);
                    }
                } else if str_equals(a, "--export-fragments") {
                    export_fragments = true;
                    i = i + 1;
                } else if str_equals(a, "--limit") {
                    if i + 1 < args.len() {
                        proof {
                            assert(av[i + 1] == args@[i + 1]@);
                        }
                        match parse_usize(args[i + 1].as_str()) {
                            Some(n) => {
                                limit = Some(n);
                                i = i + 2;
                            },
                            None => return Err(CliError::InvalidLimit(args[i + 1].clone())),
                        }
                    } else {
                        return Err(CliError::Usage);
                    }
                } else if str_equals(a, "--verbose") {
                    verbose = true;
                    i = i + 1;
                } else if str_equals(a, "--resummarize") {
                    if i + 1 < args.len() {
                        proof {
                            assert(av[i + 1] == args@[i + 1]@);
                        }
                        resummarize = Some(args[i + 1].clone());
                        i = i + 2;
                    } else {
                        return Err(CliError::Usage);
                    }
                } else if str_equals(a, "--help") || str_equals(a, "-h") {
                    return Ok(help_options());
                } else if comparison_kind_of(a).is_some() {
                    return Err(CliError::SubcommandNotFirst(args[i].clone()));
                } else if a.unicode_len() > 0 && a.get_char(0) == '-' {
                    return Err(CliError::UnsupportedFlag(args[i].clone()));
                } else if input.is_none() {
                    input = Some(args[i].clone());
                    i = i + 1;
                } else {
                    return Err(CliError::UnexpectedArgument(args[i].clone()));
                }
            }
            match resummarize {
                Some(dir) => {
                    if input.is_some() || limit.is_some() || export_fragments || output.is_some() {
                        Err(CliError::ResummarizeWithRunFlags)
                    } else {
                        Ok(CliOptions { mode: Mode::Resummarize { experiment_dir: dir }, export_fragments, limit, verbose })
                    }
                },
                None => match (input, output) {
                    (Some(i_dir), Some(o_dir)) => Ok(CliOptions {
                        mode: Mode::RunExperiment { input_dir: i_dir, experiment_dir: o_dir },
                        export_fragments,
                        limit,
                        verbose,
                    }),
                    _ => Err(CliError::Usage),
                },
            }
        },
    }
}

} // verus!
