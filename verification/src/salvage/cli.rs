//! Command-line options of the salvage tool.
use vstd::prelude::*;
use vstd::string::*;
use crate::text::str_equals;

verus! {

/// The salvage tool's options.
pub struct CliOptions {
    pub archive: String,
    pub json: bool,
    pub json_out: Option<String>,
    pub export_fragments: Option<String>,
    pub silent: bool,
}

/// Why the arguments were refused.
pub enum CliError {
    /// An archive path is missing, or a flag's value is; the usage text applies.
    Usage,
    UnsupportedFlag(String),
    UnexpectedArgument(String),
}

/// The options as plain values.
pub struct SalvageFlags {
    pub archive: Option<Seq<char>>,
    pub json: bool,
    pub json_out: Option<Seq<char>>,
    pub export_fragments: Option<Seq<char>>,
    pub silent: bool,
}

/// An error as plain values.
pub enum SalvageCliErrorView {
    Usage,
    UnsupportedFlag(Seq<char>),
    UnexpectedArgument(Seq<char>),
}

/// The arguments from `i` on: `--json`, `--silent`, `--json-out PATH`,
/// `--export-fragments DIR`, and one archive path; other flags and a second
/// path are refused.
pub open spec fn salvage_scan(args: Seq<Seq<char>>, i: int, st: SalvageFlags) -> Result<SalvageFlags, SalvageCliErrorView>
    decreases args.len() - i,
{
    if i < 0 || i >= args.len() {
        Ok(st)
    } else {
        let a = args[i];
        if a == "--json"@ {
            salvage_scan(args, i + 1, SalvageFlags { json: true, ..st })
        } else if a == "--silent"@ {
            salvage_scan(args, i + 1, SalvageFlags { silent: true, ..st })
        } else if a == "--json-out"@ {
            if i + 1 < args.len() {
                salvage_scan(args, i + 2, SalvageFlags { json_out: Some(args[i + 1]), ..st })
            } else {
                Err(SalvageCliErrorView::Usage)
            }
        } else if a == "--export-fragments"@ {
            if i + 1 < args.len() {
                salvage_scan(args, i + 2, SalvageFlags { export_fragments: Some(args[i + 1]), ..st })
            } else {
                Err(SalvageCliErrorView::Usage)
            }
        } else if a.len() > 0 && a[0] == '-' {
            Err(SalvageCliErrorView::UnsupportedFlag(a))
        } else if st.archive is None {
            salvage_scan(args, i + 1, SalvageFlags { archive: Some(a), ..st })
        } else {
            Err(SalvageCliErrorView::UnexpectedArgument(a))
        }
    }
}

/// What the arguments (program name excluded) give; an archive path is required.
pub open spec fn spec_salvage_cli(args: Seq<Seq<char>>) -> Result<SalvageFlags, SalvageCliErrorView> {
    match salvage_scan(args, 0, SalvageFlags { archive: None, json: false, json_out: None, export_fragments: None, silent: false }) {
        Ok(st) => if st.archive is Some { Ok(st) } else { Err(SalvageCliErrorView::Usage) },
        Err(e) => Err(e),
    }
}

/// An optional string's text.
pub open spec fn opt_view(s: Option<String>) -> Option<Seq<char>> {
    match s {
        Some(x) => Some(x@),
        None => None,
    }
}

/// Parses the salvage tool's arguments (program name excluded).
#[verifier::loop_isolation(false)]
pub fn parse_cli_options(args: &Vec<String>) -> (r: Result<CliOptions, CliError>)
    ensures
        match r {
            Ok(o) => spec_salvage_cli(args@.map_values(|a: String| a@)) == Ok::<SalvageFlags, SalvageCliErrorView>(SalvageFlags {
                archive: Some(o.archive@),
                json: o.json,
                json_out: opt_view(o.json_out),
                export_fragments: opt_view(o.export_fragments),
                silent: o.silent,
            }),
            Err(e) => spec_salvage_cli(args@.map_values(|a: String| a@)) == Err::<SalvageFlags, SalvageCliErrorView>(match e {
                CliError::Usage => SalvageCliErrorView::Usage,
                CliError::UnsupportedFlag(a) => SalvageCliErrorView::UnsupportedFlag(a@),
                CliError::UnexpectedArgument(a) => SalvageCliErrorView::UnexpectedArgument(a@),
            }),
        },
{
    let ghost av = args@.map_values(|a: String| a@);
    let mut archive: Option<String> = None;
    let mut json = false;
    let mut json_out: Option<String> = None;
    let mut export_fragments: Option<String> = None;
    let mut silent = false;
    let mut i: usize = 0;
    while i < args.len()
        invariant
            i <= args@.len(),
            av == args@.map_values(|a: String| a@),
            salvage_scan(av, 0, SalvageFlags { archive: None, json: false, json_out: None, export_fragments: None, silent: false })
                == salvage_scan(av, i as int, SalvageFlags {
                    archive: opt_view(archive),
                    json,
                    json_out: opt_view(json_out),
                    export_fragments: opt_view(export_fragments),
                    silent,
                }),
        decreases args.len() - i,
    {
        let a = args[i].as_str();
        proof {
            assert(av[i as int] == a@);
        }
        if str_equals(a, "--json") {
            json = true;
            i = i + 1;
        } else if str_equals(a, "--silent") {
            silent = true;
            i = i + 1;
        } else if str_equals(a, "--json-out") {
            if i + 1 < args.len() {
                proof {
                    assert(av[i + 1] == args@[i + 1]@);
                }
                json_out = Some(args[i + 1].clone());
                i = i + 2;
            } else {
                return Err(CliError::Usage);
            }
        } else if str_equals(a, "--export-fragments") {
            if i + 1 < args.len() {
                proof {
                    assert(av[i + 1] == args@[i + 1]@);
                }
                export_fragments = Some(args[i + 1].clone());
                i = i + 2;
            } else {
                return Err(CliError::Usage);
            }
        } else if a.unicode_len() > 0 && a.get_char(0) == '-' {
            return Err(CliError::UnsupportedFlag(args[i].clone()));
        } else if archive.is_none() {
            archive = Some(args[i].clone());
            i = i + 1;
        } else {
            return Err(CliError::UnexpectedArgument(args[i].clone()));
        }
    }
    match archive {
        Some(archive) => Ok(CliOptions { archive, json, json_out, export_fragments, silent }),
        None => Err(CliError::Usage),
    }
}

} // verus!
