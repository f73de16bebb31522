//! Command dispatch and the reports of failed commands.

use vstd::prelude::*;
use vstd::string::StringExecFns;

use crate::bytecode::chunk::{option_view, string_views};
use crate::cli::words::{trim, trimmed};
use crate::text::{characters, str_equal};

verus! {

/// The usage text.
pub const USAGE: &'static str = "Ferrix\n\nUsage:\n  ferrix run <file|package>\n  ferrix check <file|package>\n  ferrix compile <file|package> <output>\n  ferrix run-bytecode <file>\n  ferrix debug <file|package>\n  ferrix --help\n  ferrix --version\n";

/// Exit code of a command line that is not understood.
pub const EXIT_USAGE: i32 = 64;

/// Exit code of input that is not accepted.
pub const EXIT_DATA: i32 = 65;

/// Exit code of input that cannot be read or output that cannot be written.
pub const EXIT_NO_INPUT: i32 = 66;

/// Exit code of a command that needs a service that is not there.
pub const EXIT_UNAVAILABLE: i32 = 69;

/// What is printed where a command needs the runtime service and it is not running.
pub const RUNTIME_NOT_RUNNING: &'static str = "Ferrix runtime is not running.\nStart it with: ferrix runtime start\n";

/// How programs are executed.
#[derive(Clone, Copy, Debug, PartialEq, Eq)]
pub enum RuntimeMode {
    /// In the process of the command.
    Embedded,
    /// By a runtime service that has to run already.
    Required,
    /// By a runtime service that is started where it does not run.
    Managed,
}

/// What is asked of the runtime service.
#[derive(Clone, Copy, Debug, PartialEq, Eq)]
pub enum RuntimeAction {
    Start,
    Status,
    Restart,
    Stop,
}

/// What a command line asks for.
#[derive(Clone, Debug, PartialEq, Eq)]
pub enum Command {
    Help,
    Version,
    Run { path: String, stats: bool, audit: bool },
    Check { path: String },
    Compile { path: String, output: String, explain: bool },
    RunBytecode { path: String },
    Debug { path: String },
    Runtime { action: RuntimeAction },
    /// The running processes of the runtime service.
    Processes,
    /// The finished processes of the runtime service.
    Logs,
    /// One process of the runtime service.
    Info { process: String },
    /// A command line that is not understood.
    Misuse { message: String },
    /// A command that is not for users.
    Internal { message: String },
}

/// The mathematical content of a command.
pub enum CommandView {
    Help,
    Version,
    Run { path: Seq<char>, stats: bool, audit: bool },
    Check { path: Seq<char> },
    Compile { path: Seq<char>, output: Seq<char>, explain: bool },
    RunBytecode { path: Seq<char> },
    Debug { path: Seq<char> },
    Runtime { action: RuntimeAction },
    Processes,
    Logs,
    Info { process: Seq<char> },
    Misuse { message: Seq<char> },
    Internal { message: Seq<char> },
}

impl View for Command {
    type V = CommandView;

    open spec fn view(&self) -> CommandView {
        match self {
            Command::Help => CommandView::Help,
            Command::Version => CommandView::Version,
            Command::Run { path, stats, audit } => CommandView::Run {
                path: path@,
                stats: *stats,
                audit: *audit,
            },
            Command::Check { path } => CommandView::Check { path: path@ },
            Command::Compile { path, output, explain } => CommandView::Compile {
                path: path@,
                output: output@,
                explain: *explain,
            },
            Command::RunBytecode { path } => CommandView::RunBytecode { path: path@ },
            Command::Debug { path } => CommandView::Debug { path: path@ },
            Command::Runtime { action } => CommandView::Runtime { action: *action },
            Command::Processes => CommandView::Processes,
            Command::Logs => CommandView::Logs,
            Command::Info { process } => CommandView::Info { process: process@ },
            Command::Misuse { message } => CommandView::Misuse { message: message@ },
            Command::Internal { message } => CommandView::Internal { message: message@ },
        }
    }
}

/// The options that `run` takes behind its path.
pub open spec fn is_run_option(option: Seq<char>) -> bool {
    option == "--stats"@ || option == "--audit"@
}

/// The command that the arguments of `run` ask for.
pub open spec fn run_of(args: Seq<Seq<char>>) -> CommandView {
    if args.len() >= 2 && forall|i: int| 2 <= i < args.len() ==> #[trigger] is_run_option(args[i]) {
        CommandView::Run {
            path: args[1],
            stats: args.skip(2).contains("--stats"@),
            audit: args.skip(2).contains("--audit"@),
        }
    } else {
        CommandView::Misuse { message: "expected a file or package path"@ }
    }
}

/// The command that the arguments of `compile` ask for.
pub open spec fn compile_of(args: Seq<Seq<char>>) -> CommandView {
    if args.len() == 3 {
        CommandView::Compile { path: args[1], output: args[2], explain: false }
    } else if args.len() == 4 && args[3] == "--explain-optimizations"@ {
        CommandView::Compile { path: args[1], output: args[2], explain: true }
    } else {
        CommandView::Misuse { message: "expected input and output file paths"@ }
    }
}

/// The command that the arguments of `runtime` ask for.
pub open spec fn runtime_of(args: Seq<Seq<char>>) -> CommandView {
    if args.len() >= 2 && args[1] == "serve"@ {
        CommandView::Internal { message: "runtime serve is an internal command"@ }
    } else if args.len() == 2 && args[1] == "start"@ {
        CommandView::Runtime { action: RuntimeAction::Start }
    } else if args.len() == 2 && args[1] == "status"@ {
        CommandView::Runtime { action: RuntimeAction::Status }
    } else if args.len() == 2 && args[1] == "restart"@ {
        CommandView::Runtime { action: RuntimeAction::Restart }
    } else if args.len() == 2 && args[1] == "stop"@ {
        CommandView::Runtime { action: RuntimeAction::Stop }
    } else {
        CommandView::Misuse { message: "expected start, status, restart, or stop"@ }
    }
}

/// The command that some arguments ask for.
pub open spec fn command_of(args: Seq<Seq<char>>) -> CommandView {
    if args.len() == 0 {
        CommandView::Help
    } else if args.len() == 1 && (args[0] == "--help"@ || args[0] == "-h"@) {
        CommandView::Help
    } else if args.len() == 1 && (args[0] == "--version"@ || args[0] == "-V"@) {
        CommandView::Version
    } else if args[0] == "run"@ {
        run_of(args)
    } else if args[0] == "check"@ {
        if args.len() == 2 {
            CommandView::Check { path: args[1] }
        } else {
            CommandView::Misuse { message: "expected a file or package path"@ }
        }
    } else if args[0] == "compile"@ {
        compile_of(args)
    } else if args[0] == "run-bytecode"@ {
        if args.len() == 2 {
            CommandView::RunBytecode { path: args[1] }
        } else {
            CommandView::Misuse { message: "expected a bytecode file path"@ }
        }
    } else if args[0] == "debug"@ {
        if args.len() == 2 {
            CommandView::Debug { path: args[1] }
        } else {
            CommandView::Misuse { message: "expected a file or package path"@ }
        }
    } else if args[0] == "runtime"@ {
        runtime_of(args)
    } else if args[0] == "ps"@ && args.len() == 1 {
        CommandView::Processes
    } else if args[0] == "logs"@ {
        if args.len() == 1 {
            CommandView::Logs
        } else {
            CommandView::Misuse {
                message: "logs does not accept a process id; use ferrix info <pid>"@,
            }
        }
    } else if args[0] == "info"@ {
        if args.len() == 2 {
            CommandView::Info { process: args[1] }
        } else {
            CommandView::Misuse { message: "expected a process id"@ }
        }
    } else {
        CommandView::Misuse { message: "unknown command"@ }
    }
}

fn misuse(message: &str) -> (command: Command)
    ensures
        command@ == (CommandView::Misuse { message: message@ }),
{
    Command::Misuse { message: String::from_str(message) }
}

/// Finds the command that the arguments of `run` ask for.
fn parse_run(args: &Vec<String>) -> (command: Command)
    ensures
        command@ == run_of(string_views(args@)),
{
    let ghost views = string_views(args@);
    if args.len() < 2 {
        return misuse("expected a file or package path");
    }
    let mut stats = false;
    let mut audit = false;
    let mut i: usize = 2;
    assert(views.subrange(2, 2) =~= Seq::empty());
    while i < args.len()
        invariant
            2 <= i <= args@.len(),
            views == string_views(args@),
            forall|k: int| 2 <= k < i ==> #[trigger] is_run_option(views[k]),
            stats == views.subrange(2, i as int).contains("--stats"@),
            audit == views.subrange(2, i as int).contains("--audit"@),
        decreases args.len() - i,
    {
        let option = args[i].as_str();
        let ghost before = views.subrange(2, i as int);
        assert(views[i as int] == option@);
        let asks_stats = str_equal(option, "--stats");
        let asks_audit = str_equal(option, "--audit");
        if !asks_stats && !asks_audit {
            assert(!is_run_option(views[i as int]));
            return misuse("expected a file or package path");
        }
        proof {
            let after = views.subrange(2, i + 1);
            assert(after =~= before.push(option@));
            lemma_push_contains(before, option@, "--stats"@);
            lemma_push_contains(before, option@, "--audit"@);
        }
        stats = stats || asks_stats;
        audit = audit || asks_audit;
        i = i + 1;
    }
    assert(views.subrange(2, i as int) =~= views.skip(2));
    assert(views[1] == args@[1]@);
    Command::Run { path: args[1].clone(), stats, audit }
}

proof fn lemma_push_contains(s: Seq<Seq<char>>, pushed: Seq<char>, wanted: Seq<char>)
    ensures
        s.push(pushed).contains(wanted) <==> s.contains(wanted) || pushed == wanted,
{
    if s.contains(wanted) {
        let i = choose|i: int| 0 <= i < s.len() && s[i] == wanted;
        assert(s.push(pushed)[i] == wanted);
    }
    assert(s.push(pushed).last() == pushed);
    if s.push(pushed).contains(wanted) {
        let i = choose|i: int| 0 <= i < s.push(pushed).len() && s.push(pushed)[i] == wanted;
        if i < s.len() {
            assert(s[i] == wanted);
        }
    }
}

/// Finds the command that the arguments of `compile` ask for.
fn parse_compile(args: &Vec<String>) -> (command: Command)
    ensures
        command@ == compile_of(string_views(args@)),
{
    let ghost views = string_views(args@);
    if args.len() == 3 {
        Command::Compile { path: args[1].clone(), output: args[2].clone(), explain: false }
    } else if args.len() == 4 && str_equal(args[3].as_str(), "--explain-optimizations") {
        assert(views[3] == args@[3]@);
        Command::Compile { path: args[1].clone(), output: args[2].clone(), explain: true }
    } else {
        assert(args@.len() == 4 ==> views[3] == args@[3]@);
        misuse("expected input and output file paths")
    }
}

/// Finds the command that the arguments of `runtime` ask for.
fn parse_runtime(args: &Vec<String>) -> (command: Command)
    ensures
        command@ == runtime_of(string_views(args@)),
{
    let ghost views = string_views(args@);
    if args.len() < 2 {
        return misuse("expected start, status, restart, or stop");
    }
    assert(views[1] == args@[1]@);
    let action = args[1].as_str();
    if str_equal(action, "serve") {
        Command::Internal { message: String::from_str("runtime serve is an internal command") }
    } else if args.len() == 2 && str_equal(action, "start") {
        Command::Runtime { action: RuntimeAction::Start }
    } else if args.len() == 2 && str_equal(action, "status") {
        Command::Runtime { action: RuntimeAction::Status }
    } else if args.len() == 2 && str_equal(action, "restart") {
        Command::Runtime { action: RuntimeAction::Restart }
    } else if args.len() == 2 && str_equal(action, "stop") {
        Command::Runtime { action: RuntimeAction::Stop }
    } else {
        misuse("expected start, status, restart, or stop")
    }
}

/// Finds the command that some arguments ask for.
pub fn parse_command(args: &Vec<String>) -> (command: Command)
    ensures
        command@ == command_of(string_views(args@)),
{
    let ghost views = string_views(args@);
    if args.len() == 0 {
        return Command::Help;
    }
    assert(views[0] == args@[0]@);
    assert(args@.len() >= 2 ==> views[1] == args@[1]@);
    let first = args[0].as_str();
    if args.len() == 1 && (str_equal(first, "--help") || str_equal(first, "-h")) {
        return Command::Help;
    }
    if args.len() == 1 && (str_equal(first, "--version") || str_equal(first, "-V")) {
        return Command::Version;
    }
    if str_equal(first, "run") {
        parse_run(args)
    } else if str_equal(first, "check") {
        if args.len() == 2 {
            Command::Check { path: args[1].clone() }
        } else {
            misuse("expected a file or package path")
        }
    } else if str_equal(first, "compile") {
        parse_compile(args)
    } else if str_equal(first, "run-bytecode") {
        if args.len() == 2 {
            Command::RunBytecode { path: args[1].clone() }
        } else {
            misuse("expected a bytecode file path")
        }
    } else if str_equal(first, "debug") {
        if args.len() == 2 {
            Command::Debug { path: args[1].clone() }
        } else {
            misuse("expected a file or package path")
        }
    } else if str_equal(first, "runtime") {
        parse_runtime(args)
    } else if args.len() == 1 && str_equal(first, "ps") {
        Command::Processes
    } else if str_equal(first, "logs") {
        if args.len() == 1 {
            Command::Logs
        } else {
            misuse("logs does not accept a process id; use ferrix info <pid>")
        }
    } else if str_equal(first, "info") {
        if args.len() == 2 {
            Command::Info { process: args[1].clone() }
        } else {
            misuse("expected a process id")
        }
    } else {
        misuse("unknown command")
    }
}

/// A command with the options that stand before it.
#[derive(Clone, Debug, PartialEq, Eq)]
pub struct Invocation {
    /// The last `--runtime-mode`.
    pub mode: Option<String>,
    /// The last `--runtime-home`.
    pub home: Option<String>,
    /// The command.
    pub command: Command,
}

/// The mathematical content of an invocation.
pub struct InvocationView {
    pub mode: Option<Seq<char>>,
    pub home: Option<Seq<char>>,
    pub command: CommandView,
}

impl View for Invocation {
    type V = InvocationView;

    open spec fn view(&self) -> InvocationView {
        InvocationView {
            mode: option_view(self.mode),
            home: option_view(self.home),
            command: self.command@,
        }
    }
}

/// The invocation that some arguments stand for, behind the options given.
pub open spec fn invocation_of(
    args: Seq<Seq<char>>,
    mode: Option<Seq<char>>,
    home: Option<Seq<char>>,
) -> InvocationView
    decreases args.len(),
{
    if args.len() >= 2 && args[0] == "--runtime-mode"@ {
        invocation_of(args.skip(2), Some(args[1]), home)
    } else if args.len() >= 2 && args[0] == "--runtime-home"@ {
        invocation_of(args.skip(2), mode, Some(args[1]))
    } else {
        InvocationView { mode, home, command: command_of(args) }
    }
}

/// Whether an option with a value stands at a position.
fn is_option(args: &Vec<String>, at: usize, option: &str) -> (found: bool)
    requires
        at <= args@.len(),
    ensures
        found == (at + 2 <= args@.len() && args@[at as int]@ == option@),
{
    args.len() - at >= 2 && str_equal(args[at].as_str(), option)
}

/// Finds the options and the command in some arguments.
pub fn parse_invocation(args: &Vec<String>) -> (invocation: Invocation)
    ensures
        invocation@ == invocation_of(string_views(args@), None, None),
{
    let ghost views = string_views(args@);
    let mut mode: Option<String> = None;
    let mut home: Option<String> = None;
    let mut i: usize = 0;
    assert(views.skip(0) =~= views);
    while is_option(args, i, "--runtime-mode") || is_option(args, i, "--runtime-home")
        invariant
            i <= args@.len(),
            views == string_views(args@),
            invocation_of(views, None, None) == invocation_of(
                views.skip(i as int),
                option_view(mode),
                option_view(home),
            ),
        decreases args.len() - i,
    {
        assert(views.skip(i as int)[0] == args@[i as int]@);
        assert(views.skip(i as int)[1] == args@[i + 1]@);
        assert(views.skip(i as int).skip(2) =~= views.skip(i + 2));
        if is_option(args, i, "--runtime-mode") {
            mode = Some(args[i + 1].clone());
        } else {
            home = Some(args[i + 1].clone());
        }
        i = i + 2;
    }
    assert(i + 2 <= args@.len() ==> views.skip(i as int)[0] == args@[i as int]@);
    let mut rest: Vec<String> = Vec::new();
    let ghost start = i as int;
    while i < args.len()
        invariant
            0 <= start <= i <= args@.len(),
            views == string_views(args@),
            string_views(rest@) =~= views.subrange(start, i as int),
        decreases args.len() - i,
    {
        let ghost before = rest@;
        rest.push(args[i].clone());
        assert(string_views(rest@) =~= string_views(before).push(args@[i as int]@));
        assert(views.subrange(start, i + 1) =~= views.subrange(start, i as int).push(
            views[i as int],
        ));
        i = i + 1;
    }
    assert(views.subrange(start, i as int) =~= views.skip(start));
    assert(string_views(rest@) == views.skip(start));
    Invocation { mode, home, command: parse_command(&rest) }
}

/// How programs are executed where a mode is asked for; a blank mode is none.
pub open spec fn runtime_mode_of(mode: Option<Seq<char>>) -> Result<RuntimeMode, Seq<char>> {
    match mode {
        None => Ok(RuntimeMode::Embedded),
        Some(mode) => if trimmed(mode).len() == 0 || mode == "embedded"@ {
            Ok(RuntimeMode::Embedded)
        } else if mode == "required"@ {
            Ok(RuntimeMode::Required)
        } else if mode == "managed"@ {
            Ok(RuntimeMode::Managed)
        } else {
            Err(
                "invalid runtime mode `"@ + mode
                    + "`; expected embedded, required, or managed"@,
            )
        },
    }
}

/// Finds how programs are executed where a mode is asked for.
pub fn parse_runtime_mode(mode: &Option<String>) -> (result: Result<RuntimeMode, String>)
    ensures
        result matches Ok(parsed) ==> runtime_mode_of(option_view(*mode)) == Ok::<
            RuntimeMode,
            Seq<char>,
        >(parsed),
        result matches Err(message) ==> runtime_mode_of(option_view(*mode)) == Err::<
            RuntimeMode,
            Seq<char>,
        >(message@),
{
    match mode {
        None => Ok(RuntimeMode::Embedded),
        Some(text) => {
            let chars = characters(text.as_str());
            if trim(chars.as_slice()).len() == 0 || str_equal(text.as_str(), "embedded") {
                Ok(RuntimeMode::Embedded)
            } else if str_equal(text.as_str(), "required") {
                Ok(RuntimeMode::Required)
            } else if str_equal(text.as_str(), "managed") {
                Ok(RuntimeMode::Managed)
            } else {
                let mut message = String::from_str("invalid runtime mode `");
                message.append(text.as_str());
                message.append("`; expected embedded, required, or managed");
                Err(message)
            }
        },
    }
}

/// What is printed for a command line that is not understood.
pub fn misuse_text(message: &str) -> (text: String)
    ensures
        text@ == "error: "@ + message@ + "\n\n"@ + USAGE@,
{
    let mut text = String::from_str("error: ");
    text.append(message);
    text.append("\n\n");
    text.append(USAGE);
    text
}

/// What is printed for a command that is not for users.
pub fn internal_text(message: &str) -> (text: String)
    ensures
        text@ == "error: "@ + message@ + "\n"@,
{
    let mut text = String::from_str("error: ");
    text.append(message);
    text.append("\n");
    text
}

/// Why a program could not be loaded or compiled.
#[derive(Clone, Debug, PartialEq, Eq)]
pub enum LoadError {
    /// A source file could not be read from disk.
    Read { path: String, error: String },
    /// Package manifest syntax or required fields are invalid.
    Manifest { path: String, message: String },
    /// An imported source file could not be resolved relative to its importer.
    ReadImport { importer: String, module: String, path: String, error: String },
    /// A package-local import was not found under the manifest module roots.
    PackageImport { importer: String, package: String, module: String, searched: Vec<String> },
    /// Compiling failed; the rendered diagnostic.
    Compile { diagnostic: String },
    /// Recursive imports reached a file already on the active load stack.
    ImportCycle { path: String },
}

/// The mathematical content of a load error.
pub enum LoadErrorView {
    Read { path: Seq<char>, error: Seq<char> },
    Manifest { path: Seq<char>, message: Seq<char> },
    ReadImport { importer: Seq<char>, module: Seq<char>, path: Seq<char>, error: Seq<char> },
    PackageImport {
        importer: Seq<char>,
        package: Seq<char>,
        module: Seq<char>,
        searched: Seq<Seq<char>>,
    },
    Compile { diagnostic: Seq<char> },
    ImportCycle { path: Seq<char> },
}

impl View for LoadError {
    type V = LoadErrorView;

    open spec fn view(&self) -> LoadErrorView {
        match self {
            LoadError::Read { path, error } => LoadErrorView::Read { path: path@, error: error@ },
            LoadError::Manifest { path, message } => LoadErrorView::Manifest {
                path: path@,
                message: message@,
            },
            LoadError::ReadImport { importer, module, path, error } => LoadErrorView::ReadImport {
                importer: importer@,
                module: module@,
                path: path@,
                error: error@,
            },
            LoadError::PackageImport { importer, package, module, searched } =>
                LoadErrorView::PackageImport {
                importer: importer@,
                package: package@,
                module: module@,
                searched: string_views(searched@),
            },
            LoadError::Compile { diagnostic } => LoadErrorView::Compile {
                diagnostic: diagnostic@,
            },
            LoadError::ImportCycle { path } => LoadErrorView::ImportCycle { path: path@ },
        }
    }
}

/// The first `n` names of a list in backquotes, separated by commas.
pub open spec fn quoted_list(names: Seq<Seq<char>>, n: nat) -> Seq<char>
    decreases n,
{
    if n == 0 {
        Seq::empty()
    } else {
        let front = quoted_list(names, (n - 1) as nat);
        let separator = if n == 1 {
            Seq::empty()
        } else {
            ", "@
        };
        front + separator + "`"@ + names[n - 1] + "`"@
    }
}

/// What is printed for a load error.
pub open spec fn load_error_text(error: LoadErrorView) -> Seq<char> {
    match error {
        LoadErrorView::Read { path, error } => "error: could not read `"@ + path + "`: "@ + error
            + "\n"@,
        LoadErrorView::Manifest { path, message } => "error: invalid package manifest `"@ + path
            + "`: "@ + message + "\n"@,
        LoadErrorView::ReadImport { importer, module, path, error } =>
            "error: could not resolve import `"@ + module + "` from `"@ + importer + "` as `"@ + path
            + "`: "@ + error + "\n"@,
        LoadErrorView::PackageImport { importer, package, module, searched } =>
            "error: could not resolve package import `"@ + module + "` from `"@ + importer
            + "` in package `"@ + package + "`; searched "@ + quoted_list(searched, searched.len())
            + "\n"@,
        LoadErrorView::Compile { diagnostic } => diagnostic,
        LoadErrorView::ImportCycle { path } => "error: import cycle involving `"@ + path + "`\n"@,
    }
}

/// The exit code of a load error.
pub open spec fn load_error_code(error: LoadErrorView) -> i32 {
    match error {
        LoadErrorView::Read { .. } => EXIT_NO_INPUT,
        LoadErrorView::ReadImport { .. } => EXIT_NO_INPUT,
        LoadErrorView::PackageImport { .. } => EXIT_NO_INPUT,
        LoadErrorView::Manifest { .. } => EXIT_DATA,
        LoadErrorView::Compile { .. } => EXIT_DATA,
        LoadErrorView::ImportCycle { .. } => EXIT_DATA,
    }
}

/// Appends names in backquotes, separated by commas.
fn push_quoted_list(text: &mut String, names: &Vec<String>)
    ensures
        final(text)@ == old(text)@ + quoted_list(string_views(names@), names@.len()),
{
    let ghost views = string_views(names@);
    let mut i: usize = 0;
    assert(text@ =~= old(text)@ + quoted_list(views, 0));
    while i < names.len()
        invariant
            i <= names@.len(),
            views == string_views(names@),
            text@ == old(text)@ + quoted_list(views, i as nat),
        decreases names.len() - i,
    {
        assert(views[i as int] == names@[i as int]@);
        if i > 0 {
            text.append(", ");
        }
        text.append("`");
        text.append(names[i].as_str());
        text.append("`");
        i = i + 1;
        assert(text@ =~= old(text)@ + quoted_list(views, i as nat));
    }
}

impl LoadError {
    /// What is printed for the error, and the exit code of the command.
    pub fn report(&self) -> (report: (String, i32))
        ensures
            report.0@ == load_error_text(self@),
            report.1 == load_error_code(self@),
    {
        match self {
            LoadError::Read { path, error } => {
                let mut text = String::from_str("error: could not read `");
                text.append(path.as_str());
                text.append("`: ");
                text.append(error.as_str());
                text.append("\n");
                (text, EXIT_NO_INPUT)
            },
            LoadError::Manifest { path, message } => {
                let mut text = String::from_str("error: invalid package manifest `");
                text.append(path.as_str());
                text.append("`: ");
                text.append(message.as_str());
                text.append("\n");
                (text, EXIT_DATA)
            },
            LoadError::ReadImport { importer, module, path, error } => {
                let mut text = String::from_str("error: could not resolve import `");
                text.append(module.as_str());
                text.append("` from `");
                text.append(importer.as_str());
                text.append("` as `");
                text.append(path.as_str());
                text.append("`: ");
                text.append(error.as_str());
                text.append("\n");
                (text, EXIT_NO_INPUT)
            },
            LoadError::PackageImport { importer, package, module, searched } => {
                let mut text = String::from_str("error: could not resolve package import `");
                text.append(module.as_str());
                text.append("` from `");
                text.append(importer.as_str());
                text.append("` in package `");
                text.append(package.as_str());
                text.append("`; searched ");
                push_quoted_list(&mut text, searched);
                text.append("\n");
                assert(string_views(searched@).len() == searched@.len());
                (text, EXIT_NO_INPUT)
            },
            LoadError::Compile { diagnostic } => (diagnostic.clone(), EXIT_DATA),
            LoadError::ImportCycle { path } => {
                let mut text = String::from_str("error: import cycle involving `");
                text.append(path.as_str());
                text.append("`\n");
                (text, EXIT_DATA)
            },
        }
    }
}

} // verus!
