//! The benchmark runner: its command line and its baseline files.

use vstd::prelude::*;
use vstd::string::StringExecFns;

use crate::bytecode::chunk::string_views;
use crate::cli::words::{begins, pieces, split, strip_prefix, to_text, trim, trimmed};
use crate::text::{characters, decimal, push_decimal, str_equal};

verus! {

/// The usage text of the benchmark runner.
pub const BENCH_USAGE: &'static str = "Ferrix benchmark runner\n\nUsage:\n  ferrix-benchmarks\n  ferrix-benchmarks --check <baseline.csv>\n  ferrix-benchmarks --refresh <baseline.csv>\n  ferrix-benchmarks --help\n";

/// The comment at the beginning of a baseline file.
pub const BASELINE_HEADER: &'static str = "# Ferrix benchmark baseline v1\n# Columns:\n# case,compile_ms,compile_threshold_pct,verify_ms,verify_threshold_pct,run_avg_us,run_threshold_pct\n";

/// The line of a baseline file that names its columns.
pub const BASELINE_COLUMNS: &'static str = "case,compile_ms,compile_threshold_pct,verify_ms,verify_threshold_pct,run_avg_us,run_threshold_pct\n";

/// What the benchmark runner is asked to do.
#[derive(Clone, Debug, PartialEq, Eq)]
pub enum Mode {
    /// Measure and print the benchmark table without threshold checks.
    Run,
    /// Compare measurements against a baseline file and fail on regressions.
    Check { path: String },
    /// Measure and write a new baseline file.
    Refresh { path: String },
    /// Print command usage.
    Help,
}

/// The mathematical content of a mode.
pub enum ModeView {
    Run,
    Check { path: Seq<char> },
    Refresh { path: Seq<char> },
    Help,
}

impl View for Mode {
    type V = ModeView;

    open spec fn view(&self) -> ModeView {
        match self {
            Mode::Run => ModeView::Run,
            Mode::Check { path } => ModeView::Check { path: path@ },
            Mode::Refresh { path } => ModeView::Refresh { path: path@ },
            Mode::Help => ModeView::Help,
        }
    }
}

/// A message about an argument, which stands in backquotes behind it.
pub open spec fn about(message: Seq<char>, argument: Seq<char>) -> Seq<char> {
    message + " `"@ + argument + "`"@
}

/// The mode that some arguments ask for, or what is wrong with them.
pub open spec fn mode_of(args: Seq<Seq<char>>) -> Result<ModeView, Seq<char>> {
    if args.len() == 0 {
        Ok(ModeView::Run)
    } else if args[0] == "--help"@ || args[0] == "-h"@ {
        Ok(ModeView::Help)
    } else if args[0] == "--check"@ {
        if args.len() == 1 {
            Err("expected a baseline path after --check"@)
        } else if args.len() > 2 {
            Err(about("unexpected argument"@, args[2]))
        } else {
            Ok(ModeView::Check { path: args[1] })
        }
    } else if args[0] == "--refresh"@ {
        if args.len() == 1 {
            Err("expected a baseline path after --refresh"@)
        } else if args.len() > 2 {
            Err(about("unexpected argument"@, args[2]))
        } else {
            Ok(ModeView::Refresh { path: args[1] })
        }
    } else {
        Err(about("unknown argument"@, args[0]))
    }
}

fn about_argument(message: &str, argument: &str) -> (text: String)
    ensures
        text@ == about(message@, argument@),
{
    let mut text = String::from_str(message);
    text.append(" `");
    text.append(argument);
    text.append("`");
    text
}

/// Finds the mode that some arguments ask for.
pub fn parse_mode(args: &Vec<String>) -> (result: Result<Mode, String>)
    ensures
        match result {
            Ok(mode) => mode_of(string_views(args@)) == Ok::<ModeView, Seq<char>>(mode@),
            Err(message) => mode_of(string_views(args@)) == Err::<ModeView, Seq<char>>(message@),
        },
{
    assert(string_views(args@).len() == args@.len());
    if args.len() == 0 {
        return Ok(Mode::Run);
    }
    assert(string_views(args@)[0] == args@[0]@);
    let first = args[0].as_str();
    if str_equal(first, "--help") || str_equal(first, "-h") {
        Ok(Mode::Help)
    } else if str_equal(first, "--check") {
        if args.len() == 1 {
            Err(String::from_str("expected a baseline path after --check"))
        } else {
            reject_extra_args(args)?;
            Ok(Mode::Check { path: args[1].clone() })
        }
    } else if str_equal(first, "--refresh") {
        if args.len() == 1 {
            Err(String::from_str("expected a baseline path after --refresh"))
        } else {
            reject_extra_args(args)?;
            Ok(Mode::Refresh { path: args[1].clone() })
        }
    } else {
        Err(about_argument("unknown argument", first))
    }
}

/// Rejects what follows the first two arguments.
fn reject_extra_args(args: &Vec<String>) -> (result: Result<(), String>)
    ensures
        match result {
            Ok(_) => args@.len() <= 2,
            Err(message) => args@.len() > 2 && message@ == about(
                "unexpected argument"@,
                args@[2]@,
            ),
        },
{
    if args.len() > 2 {
        Err(about_argument("unexpected argument", args[2].as_str()))
    } else {
        Ok(())
    }
}

/// The fields of one case in a baseline file.
#[derive(Clone, Debug, PartialEq, Eq)]
pub struct BaselineFields {
    /// Benchmark scenario label.
    pub name: String,
    /// Baseline compile duration in milliseconds.
    pub compile_ms: String,
    /// Allowed compile regression percentage.
    pub compile_threshold_pct: String,
    /// Baseline average verification duration in milliseconds.
    pub verify_ms: String,
    /// Allowed verification regression percentage.
    pub verify_threshold_pct: String,
    /// Baseline average run duration in microseconds.
    pub run_avg_us: String,
    /// Allowed runtime regression percentage.
    pub run_threshold_pct: String,
}

impl View for BaselineFields {
    type V = Seq<Seq<char>>;

    open spec fn view(&self) -> Seq<Seq<char>> {
        seq![
            self.name@,
            self.compile_ms@,
            self.compile_threshold_pct@,
            self.verify_ms@,
            self.verify_threshold_pct@,
            self.run_avg_us@,
            self.run_threshold_pct@,
        ]
    }
}

/// Whether a line, without the white space around it, says nothing of a case.
pub open spec fn skipped(line: Seq<char>) -> bool {
    line.len() == 0 || begins(line, "#"@) || begins(line, "case,"@)
}

/// The fields of a line: what commas separate, without the white space around it.
pub open spec fn fields_of(line: Seq<char>) -> Seq<Seq<char>> {
    let parts = pieces(line, ',');
    Seq::new(parts.len(), |i: int| trimmed(parts[i]))
}

/// What a line of a baseline file says: nothing, the seven fields of a case, or an error.
pub open spec fn baseline_line(line: Seq<char>, number: nat) -> Result<
    Option<Seq<Seq<char>>>,
    Seq<char>,
> {
    let line = trimmed(line);
    if skipped(line) {
        Ok(None)
    } else if fields_of(line).len() != 7 {
        Err("line "@ + decimal(number) + ": expected 7 comma-separated fields"@)
    } else {
        Ok(Some(fields_of(line)))
    }
}

/// A field of a line without the white space around it.
fn trimmed_field(parts: &Vec<String>, i: usize) -> (field: String)
    requires
        i < parts@.len(),
    ensures
        field@ == trimmed(string_views(parts@)[i as int]),
{
    let chars = characters(parts[i].as_str());
    to_text(trim(chars.as_slice()))
}

/// Reads a line of a baseline file. Lines are numbered from one.
pub fn parse_baseline_line(line: &str, number: u64) -> (result: Result<
    Option<BaselineFields>,
    String,
>)
    ensures
        match result {
            Ok(Some(fields)) => baseline_line(line@, number as nat) == Ok::<
                Option<Seq<Seq<char>>>,
                Seq<char>,
            >(Some(fields@)),
            Ok(None) => baseline_line(line@, number as nat) == Ok::<
                Option<Seq<Seq<char>>>,
                Seq<char>,
            >(None),
            Err(message) => baseline_line(line@, number as nat) == Err::<
                Option<Seq<Seq<char>>>,
                Seq<char>,
            >(message@),
        },
{
    let chars = characters(line);
    let text = trim(chars.as_slice());
    if text.len() == 0 || strip_prefix(text, "#").is_some() || strip_prefix(text, "case,").is_some() {
        return Ok(None);
    }
    let parts = split(text, ',');
    assert(string_views(parts@).len() == parts@.len());
    if parts.len() != 7 {
        let mut message = String::from_str("line ");
        push_decimal(&mut message, number);
        message.append(": expected 7 comma-separated fields");
        return Err(message);
    }
    let fields = BaselineFields {
        name: trimmed_field(&parts, 0),
        compile_ms: trimmed_field(&parts, 1),
        compile_threshold_pct: trimmed_field(&parts, 2),
        verify_ms: trimmed_field(&parts, 3),
        verify_threshold_pct: trimmed_field(&parts, 4),
        run_avg_us: trimmed_field(&parts, 5),
        run_threshold_pct: trimmed_field(&parts, 6),
    };
    assert(fields@ =~= fields_of(text@));
    Ok(Some(fields))
}

/// The error of a field that is not a number.
pub fn invalid_value_text(number: u64, field: &str, value: &str, error: &str) -> (text: String)
    ensures
        text@ == "line "@ + decimal(number as nat) + ": invalid "@ + field@ + " value `"@ + value@
            + "`: "@ + error@,
{
    let mut text = String::from_str("line ");
    push_decimal(&mut text, number);
    text.append(": invalid ");
    text.append(field);
    text.append(" value `");
    text.append(value);
    text.append("`: ");
    text.append(error);
    text
}

} // verus!
