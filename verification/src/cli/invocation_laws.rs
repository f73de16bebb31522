//! What command lines ask for, where modules are looked for, and how values are shown.

use vstd::prelude::*;

use crate::cli::bench::{baseline_line, mode_of, ModeView};
use crate::cli::command::{
    command_of, invocation_of, is_run_option, load_error_code, runtime_mode_of, CommandView,
    LoadErrorView, RuntimeAction, RuntimeMode,
};
use crate::cli::display::{
    entries_text, heap_text, object_from, values_text, Floats, HeapObject,
};
use crate::cli::modules::{
    directory_part, first_existing, imports_from, joined, module_file_text, package_import,
};
use crate::cli::text_laws::{between, pieces_make_up_their_text};
use crate::cli::words::{pieces, trimmed};
use crate::compiler::ast::StmtView;
use crate::compiler::link_laws::{lemma_front, lemma_skip};
use crate::object::{Obj, ObjRef};
use crate::value::Value;

verus! {

// ---------------------------------------------------------------------------
// Commands
// ---------------------------------------------------------------------------

/// Whether arguments are a word and what follows it.
pub open spec fn is_call(args: Seq<Seq<char>>, word: Seq<char>, given: Seq<Seq<char>>) -> bool {
    args == seq![word] + given
}

/// Whether arguments run a program.
pub open spec fn runs(args: Seq<Seq<char>>) -> bool {
    args.len() >= 2 && args[0] == "run"@ && forall|i: int|
        2 <= i < args.len() ==> (#[trigger] args[i] == "--stats"@ || args[i] == "--audit"@)
}

/// Whether an option stands behind the path of a program that is run.
pub open spec fn has_option(args: Seq<Seq<char>>, option: Seq<char>) -> bool {
    exists|i: int| 2 <= i < args.len() && #[trigger] args[i] == option
}

/// Whether arguments ask for a command.
pub open spec fn asks(args: Seq<Seq<char>>, command: CommandView) -> bool {
    match command {
        CommandView::Help => args.len() == 0 || args == seq!["--help"@] || args == seq!["-h"@],
        CommandView::Version => args == seq!["--version"@] || args == seq!["-V"@],
        CommandView::Run { path, stats, audit } => runs(args) && path == args[1] && (stats <==>
            has_option(args, "--stats"@)) && (audit <==> has_option(args, "--audit"@)),
        CommandView::Check { path } => is_call(args, "check"@, seq![path]),
        CommandView::Compile { path, output, explain } => if explain {
            is_call(args, "compile"@, seq![path, output, "--explain-optimizations"@])
        } else {
            is_call(args, "compile"@, seq![path, output])
        },
        CommandView::RunBytecode { path } => is_call(args, "run-bytecode"@, seq![path]),
        CommandView::Debug { path } => is_call(args, "debug"@, seq![path]),
        CommandView::Runtime { action } => is_call(
            args,
            "runtime"@,
            seq![
                match action {
                    RuntimeAction::Start => "start"@,
                    RuntimeAction::Status => "status"@,
                    RuntimeAction::Restart => "restart"@,
                    RuntimeAction::Stop => "stop"@,
                },
            ],
        ),
        CommandView::Processes => args == seq!["ps"@],
        CommandView::Logs => args == seq!["logs"@],
        CommandView::Info { process } => is_call(args, "info"@, seq![process]),
        CommandView::Internal { .. } => args.len() >= 2 && args[0] == "runtime"@ && args[1]
            == "serve"@,
        CommandView::Misuse { .. } => {
            &&& args.len() > 0
            &&& args != seq!["--help"@] && args != seq!["-h"@]
            &&& args != seq!["--version"@] && args != seq!["-V"@]
            &&& args != seq!["ps"@] && args != seq!["logs"@]
            &&& !runs(args)
            &&& !(args.len() == 2 && one_of_four(args[0], "check"@, "run-bytecode"@, "debug"@, "info"@))
            &&& !(args.len() == 3 && args[0] == "compile"@)
            &&& !(args.len() == 4 && args[0] == "compile"@ && args[3] == "--explain-optimizations"@)
            &&& !(args.len() == 2 && args[0] == "runtime"@ && one_of_four(
                args[1],
                "start"@,
                "status"@,
                "restart"@,
                "stop"@,
            ))
        },
    }
}

/// Whether a text is one of four words.
pub open spec fn one_of_four(
    text: Seq<char>,
    a: Seq<char>,
    b: Seq<char>,
    c: Seq<char>,
    d: Seq<char>,
) -> bool {
    text == a || text == b || text == c || text == d
}

proof fn lemma_short(args: Seq<Seq<char>>)
    ensures
        args.len() == 1 ==> args == seq![args[0]],
        args.len() == 2 ==> args == seq![args[0]] + seq![args[1]],
        args.len() == 3 ==> args == seq![args[0]] + seq![args[1], args[2]],
        args.len() == 4 ==> args == seq![args[0]] + seq![args[1], args[2], args[3]],
{
    if args.len() == 1 {
        assert(args =~= seq![args[0]]);
    } else if args.len() == 2 {
        assert(args =~= seq![args[0]] + seq![args[1]]);
    } else if args.len() == 3 {
        assert(args =~= seq![args[0]] + seq![args[1], args[2]]);
    } else if args.len() == 4 {
        assert(args =~= seq![args[0]] + seq![args[1], args[2], args[3]]);
    }
}

proof fn lemma_runs(args: Seq<Seq<char>>, option: Seq<char>)
    requires
        args.len() >= 2,
    ensures
        args.skip(2).contains(option) <==> has_option(args, option),
        (forall|i: int| 2 <= i < args.len() ==> #[trigger] is_run_option(args[i])) <==> (forall|
            i: int,
        |
            2 <= i < args.len() ==> (#[trigger] args[i] == "--stats"@ || args[i] == "--audit"@)),
{
    let rest = args.skip(2);
    if rest.contains(option) {
        let k = choose|k: int| 0 <= k < rest.len() && rest[k] == option;
        assert(args[k + 2] == option);
    }
    if has_option(args, option) {
        let i = choose|i: int| 2 <= i < args.len() && #[trigger] args[i] == option;
        assert(rest[i - 2] == option);
    }
    if forall|i: int| 2 <= i < args.len() ==> #[trigger] is_run_option(args[i]) {
        assert forall|i: int| 2 <= i < args.len() implies (#[trigger] args[i] == "--stats"@
            || args[i] == "--audit"@) by {
            assert(is_run_option(args[i]));
        }
    }
}

/// Arguments ask for the command that they are taken for, and are misused only where they ask for
/// none.
pub proof fn arguments_ask_for_their_command(args: Seq<Seq<char>>)
    ensures
        asks(args, command_of(args)),
{
    lemma_short(args);
    if args.len() >= 2 {
        lemma_runs(args, "--stats"@);
        lemma_runs(args, "--audit"@);
    }
    lemma_alone(args, "--help"@);
    lemma_alone(args, "-h"@);
    lemma_alone(args, "--version"@);
    lemma_alone(args, "-V"@);
    lemma_alone(args, "ps"@);
    lemma_alone(args, "logs"@);
    lemma_words_differ();
    match command_of(args) {
        CommandView::Misuse { .. } => {
            assert(!runs(args));
        },
        _ => {},
    }
}

proof fn lemma_alone(args: Seq<Seq<char>>, word: Seq<char>)
    ensures
        args == seq![word] <==> args.len() == 1 && args[0] == word,
{
    if args.len() == 1 && args[0] == word {
        assert(args =~= seq![word]);
    }
}

/// Words with different lengths or first letters differ.
proof fn lemma_words_differ()
    ensures
        "run"@.len() == 3 && "check"@.len() == 5 && "compile"@.len() == 7,
        "run-bytecode"@.len() == 12 && "debug"@.len() == 5 && "runtime"@.len() == 7,
        "ps"@.len() == 2 && "logs"@.len() == 4 && "info"@.len() == 4,
        "check"@[0] != "debug"@[0] && "compile"@[0] != "runtime"@[0] && "logs"@[0] != "info"@[0],
        "serve"@.len() == 5 && "start"@.len() == 5 && "serve"@[1] != "start"@[1],
        "status"@.len() == 6 && "restart"@.len() == 7 && "stop"@.len() == 4,
        "--help"@.len() == 6 && "-h"@.len() == 2 && "--version"@.len() == 9 && "-V"@.len() == 2,
        "-h"@[0] != "ps"@[0] && "-V"@[0] != "ps"@[0] && "-h"@[1] != "-V"@[1],
{
    reveal_strlit("run");
    reveal_strlit("check");
    reveal_strlit("compile");
    reveal_strlit("run-bytecode");
    reveal_strlit("debug");
    reveal_strlit("runtime");
    reveal_strlit("ps");
    reveal_strlit("logs");
    reveal_strlit("info");
    reveal_strlit("serve");
    reveal_strlit("start");
    reveal_strlit("status");
    reveal_strlit("restart");
    reveal_strlit("stop");
    reveal_strlit("--help");
    reveal_strlit("-h");
    reveal_strlit("--version");
    reveal_strlit("-V");
}

/// Options with their values stand before the command; the last one of a kind holds.
pub proof fn options_stand_before_the_command(
    args: Seq<Seq<char>>,
    value: Seq<char>,
    mode: Option<Seq<char>>,
    home: Option<Seq<char>>,
)
    ensures
        invocation_of(seq!["--runtime-mode"@, value] + args, mode, home) == invocation_of(
            args,
            Some(value),
            home,
        ),
        invocation_of(seq!["--runtime-home"@, value] + args, mode, home) == invocation_of(
            args,
            mode,
            Some(value),
        ),
        args.len() == 0 || (args[0] != "--runtime-mode"@ && args[0] != "--runtime-home"@) ==> {
            let invocation = invocation_of(args, mode, home);
            invocation.mode == mode && invocation.home == home && asks(args, invocation.command)
        },
{
    reveal_strlit("--runtime-mode");
    reveal_strlit("--runtime-home");
    let a = seq!["--runtime-mode"@, value] + args;
    let b = seq!["--runtime-home"@, value] + args;
    assert(a.skip(2) =~= args);
    assert(b.skip(2) =~= args);
    assert("--runtime-mode"@[10] != "--runtime-home"@[10]);
    arguments_ask_for_their_command(args);
}

/// Programs run embedded unless another mode is named.
pub proof fn modes_have_their_names(mode: Option<Seq<char>>)
    ensures
        runtime_mode_of(mode) matches Ok(m) ==> match m {
            RuntimeMode::Embedded => mode is None || trimmed(mode->0).len() == 0 || mode->0
                == "embedded"@,
            RuntimeMode::Required => mode == Some("required"@),
            RuntimeMode::Managed => mode == Some("managed"@),
        },
        runtime_mode_of(mode) is Err ==> (mode matches Some(m) && trimmed(m).len() > 0 && m
            != "embedded"@ && m != "required"@ && m != "managed"@),
{
}

/// Input that cannot be read and input that is wrong have exit codes of their own.
pub proof fn exit_codes_tell_errors_apart(error: LoadErrorView)
    ensures
        load_error_code(error) == (if error is Read || error is ReadImport
            || error is PackageImport {
            66i32
        } else {
            65i32
        }),
{
}

/// The benchmark runs without arguments; it checks or refreshes one baseline.
pub proof fn benchmarks_have_three_modes(args: Seq<Seq<char>>)
    ensures
        mode_of(args) matches Ok(mode) ==> match mode {
            ModeView::Run => args.len() == 0,
            ModeView::Help => args.len() > 0 && (args[0] == "--help"@ || args[0] == "-h"@),
            ModeView::Check { path } => args == seq!["--check"@, path],
            ModeView::Refresh { path } => args == seq!["--refresh"@, path],
        },
        mode_of(args) is Err ==> args.len() > 0 && args[0] != "--help"@ && args[0] != "-h"@ && !(
        args.len() == 2 && (args[0] == "--check"@ || args[0] == "--refresh"@)),
{
    if args.len() == 2 {
        assert(args =~= seq![args[0], args[1]]);
    }
}

/// A line of a baseline holds a case just where it has seven fields and is no comment, no heading
/// and not blank; the fields with commas between them are the line, but for white space.
pub proof fn baseline_lines_have_seven_fields(line: Seq<char>, number: nat)
    ensures
        baseline_line(line, number) matches Ok(Some(fields)) ==> {
            &&& fields.len() == 7
            &&& pieces(trimmed(line), ',').len() == 7
            &&& between(pieces(trimmed(line), ','), ',') == trimmed(line)
            &&& forall|i: int|
                0 <= i < 7 ==> #[trigger] fields[i] == trimmed(pieces(trimmed(line), ',')[i])
        },
        trimmed(line).len() > 0 && trimmed(line)[0] != '#' && trimmed(line)[0] != 'c' && pieces(
            trimmed(line),
            ',',
        ).len() == 7 ==> baseline_line(line, number) matches Ok(Some(_)),
        trimmed(line).len() == 0 || trimmed(line)[0] == '#' ==> baseline_line(line, number)
            matches Ok(None),
{
    let text = trimmed(line);
    pieces_make_up_their_text(text, ',');
    reveal_strlit("#");
    reveal_strlit("case,");
    if text.len() > 0 {
        if text[0] == '#' {
            assert(text.take(1) =~= "#"@);
        } else {
            assert(text.take(1)[0] == text[0]);
        }
        if text.len() >= 5 {
            assert(text.take(5)[0] == text[0]);
        }
    }
}

// ---------------------------------------------------------------------------
// Modules
// ---------------------------------------------------------------------------

proof fn lemma_joined(names: Seq<Seq<char>>)
    ensures
        joined(names) == between(names, '/'),
    decreases names.len(),
{
    reveal_strlit("/");
    assert("/"@ =~= seq!['/']);
    if names.len() > 1 {
        lemma_joined(names.drop_last());
        lemma_between_last(names, '/');
    }
}

proof fn lemma_between_last(names: Seq<Seq<char>>, c: char)
    requires
        names.len() > 1,
    ensures
        between(names, c) == between(names.drop_last(), c) + seq![c] + names.last(),
    decreases names.len(),
{
    let rest = names.drop_first();
    if names.len() == 2 {
        reveal_with_fuel(between, 2);
        assert(names.drop_last() =~= seq![names[0]]);
        assert(rest =~= seq![names[1]]);
    } else {
        lemma_between_last(rest, c);
        assert(names.drop_last().drop_first() =~= rest.drop_last());
        assert(names.drop_last()[0] == names[0]);
        let inner = between(rest.drop_last(), c);
        assert(names[0] + seq![c] + (inner + seq![c] + names.last()) =~= (names[0] + seq![c] + inner)
            + seq![c] + names.last());
    }
}

/// A text with slashes in place of dots.
pub open spec fn slashed(text: Seq<char>) -> Seq<char> {
    text.map_values(
        |c: char|
            if c == '.' {
                '/'
            } else {
                c
            },
    )
}

proof fn lemma_slashed(names: Seq<Seq<char>>)
    requires
        forall|k: int| 0 <= k < names.len() ==> !(#[trigger] names[k]).contains('.'),
    ensures
        slashed(between(names, '.')) == between(names, '/'),
    decreases names.len(),
{
    if names.len() == 1 {
        assert(!names[0].contains('.'));
        assert(slashed(names[0]) =~= names[0]) by {
            assert forall|i: int| 0 <= i < names[0].len() implies names[0][i] != '.' by {
                assert(names[0].contains(names[0][i]));
            }
        }
    } else if names.len() > 1 {
        let rest = names.drop_first();
        assert forall|k: int| 0 <= k < rest.len() implies !(#[trigger] rest[k]).contains('.') by {
            assert(rest[k] == names[k + 1]);
        }
        lemma_slashed(rest);
        assert(!names[0].contains('.'));
        assert forall|i: int| 0 <= i < names[0].len() implies names[0][i] != '.' by {
            assert(names[0].contains(names[0][i]));
        }
        let tail = between(rest, '.');
        assert(slashed(names[0] + seq!['.'] + tail) =~= names[0] + seq!['/'] + slashed(tail));
    } else {
        assert(slashed(between(names, '.')) =~= between(names, '/'));
    }
}

/// The file of a module has the module's name, with slashes in place of dots and `.fx` behind it.
pub proof fn modules_are_files(module: Seq<char>)
    ensures
        module_file_text(module) == slashed(module) + seq!['.', 'f', 'x'],
{
    pieces_make_up_their_text(module, '.');
    let parts = pieces(module, '.');
    lemma_joined(parts);
    lemma_slashed(parts);
    reveal_strlit(".fx");
    assert(".fx"@ =~= seq!['.', 'f', 'x']);
}

/// A path is its directory and a name without a slash; a directory is empty or ends with a slash.
pub proof fn directories_end_with_a_slash(path: Seq<char>) -> (name: Seq<char>)
    ensures
        path == directory_part(path) + name,
        !name.contains('/'),
        directory_part(path).len() == 0 || directory_part(path).last() == '/',
    decreases path.len(),
{
    if path.len() == 0 || path.last() == '/' {
        assert(path =~= path + Seq::<char>::empty());
        Seq::empty()
    } else {
        let name = directories_end_with_a_slash(path.drop_last());
        let longer = name.push(path.last());
        let directory = directory_part(path);
        assert(path =~= path.drop_last().push(path.last()));
        assert(directory + longer =~= (directory + name).push(path.last()));
        assert(!longer.contains('/')) by {
            if longer.contains('/') {
                let k = choose|k: int| 0 <= k < longer.len() && longer[k] == '/';
                assert(k < name.len());
                assert(name[k] == '/');
            }
        }
        longer
    }
}

proof fn lemma_existing(exists_at: Seq<bool>, i: int)
    requires
        0 <= i <= exists_at.len(),
    ensures
        i <= first_existing(exists_at, i) <= exists_at.len(),
        first_existing(exists_at, i) < exists_at.len() ==> exists_at[first_existing(exists_at, i)],
        forall|k: int| i <= k < first_existing(exists_at, i) ==> !#[trigger] exists_at[k],
    decreases exists_at.len() - i,
{
    if i < exists_at.len() && !exists_at[i] {
        lemma_existing(exists_at, i + 1);
    }
}

/// An import from a package is the first of the searched files that exists, for importers inside
/// the package only.
pub proof fn package_imports_are_the_first_that_exist(
    importer: Seq<char>,
    package: Seq<char>,
    module: Seq<char>,
    inside: bool,
    searched: Seq<Seq<char>>,
    exists_at: Seq<bool>,
)
    requires
        searched.len() == exists_at.len(),
    ensures
        match package_import(importer, package, module, inside, searched, exists_at) {
            Ok(path) => inside && exists|k: int|
                0 <= k < searched.len() && #[trigger] exists_at[k] && path == searched[k] && forall|
                    j: int,
                |
                    0 <= j < k ==> !#[trigger] exists_at[j],
            Err(_) => !inside || forall|k: int|
                0 <= k < exists_at.len() ==> !#[trigger] exists_at[k],
        },
{
    lemma_existing(exists_at, 0);
    let at = first_existing(exists_at, 0);
    if inside && at < searched.len() {
        assert(exists_at[at]);
    }
}

/// The module that a statement imports.
pub open spec fn imported() -> spec_fn(StmtView) -> Option<Seq<char>> {
    |stmt: StmtView|
        match stmt {
            StmtView::Import { module, .. } => Some(module),
            _ => None,
        }
}

/// The modules of a program are those that its statements import, in order.
pub proof fn imports_are_loaded_in_order(stmts: Seq<StmtView>, i: int)
    requires
        0 <= i <= stmts.len(),
    ensures
        imports_from(stmts, i) == stmts.skip(i).filter_map(imported()),
    decreases stmts.len() - i,
{
    if i < stmts.len() {
        lemma_skip(stmts, i);
        lemma_front(stmts[i], stmts.skip(i + 1), imported());
        imports_are_loaded_in_order(stmts, i + 1);
    } else {
        assert(stmts.skip(i) =~= Seq::empty());
    }
}

// ---------------------------------------------------------------------------
// Values
// ---------------------------------------------------------------------------

/// The object behind a reference is the first one with that reference.
pub proof fn references_find_their_objects(objects: Seq<HeapObject>, reference: ObjRef, i: int)
    requires
        0 <= i <= objects.len(),
    ensures
        match object_from(objects, reference, i) {
            Some(object) => exists|k: int|
                i <= k < objects.len() && (#[trigger] objects[k]).reference == reference && object
                    == objects[k].object && forall|j: int|
                    i <= j < k ==> (#[trigger] objects[j]).reference != reference,
            None => forall|k: int|
                i <= k < objects.len() ==> (#[trigger] objects[k]).reference != reference,
        },
    decreases objects.len() - i,
{
    if i < objects.len() {
        if objects[i].reference == reference {
            assert(objects[i].reference == reference);
        } else {
            references_find_their_objects(objects, reference, i + 1);
            if let Some(object) = object_from(objects, reference, i) {
                let k = choose|k: int|
                    i + 1 <= k < objects.len() && (#[trigger] objects[k]).reference == reference
                        && object == objects[k].object && forall|j: int|
                        i + 1 <= j < k ==> (#[trigger] objects[j]).reference != reference;
                assert(objects[k].reference == reference);
                assert forall|j: int| i <= j < k implies (#[trigger] objects[j]).reference
                    != reference by {}
            }
        }
    }
}

/// Texts with commas and spaces between them.
pub open spec fn commas(texts: Seq<Seq<char>>) -> Seq<char>
    decreases texts.len(),
{
    if texts.len() == 0 {
        Seq::empty()
    } else if texts.len() == 1 {
        texts[0]
    } else {
        commas(texts.drop_last()) + seq![',', ' '] + texts.last()
    }
}

proof fn lemma_values(
    objects: Seq<HeapObject>,
    values: Seq<Value>,
    n: nat,
    depth: nat,
    floats: Floats,
)
    requires
        n <= values.len(),
    ensures
        values_text(objects, values, n, depth, floats) == commas(
            values.take(n as int).map_values(|v: Value| heap_text(objects, v, depth, floats)),
        ),
    decreases n,
{
    let texts = values.take(n as int).map_values(|v: Value| heap_text(objects, v, depth, floats));
    reveal_strlit(", ");
    assert(", "@ =~= seq![',', ' ']);
    if n > 0 {
        lemma_values(objects, values, (n - 1) as nat, depth, floats);
        assert(texts.drop_last() =~= values.take(n - 1).map_values(
            |v: Value| heap_text(objects, v, depth, floats),
        ));
        assert(texts.last() == heap_text(objects, values[n - 1], depth, floats));
        if n == 1 {
            assert(Seq::<char>::empty() + Seq::<char>::empty() + texts[0] =~= texts[0]);
        }
    }
}

proof fn lemma_entries(
    objects: Seq<HeapObject>,
    entries: Seq<(Value, Value)>,
    n: nat,
    depth: nat,
    floats: Floats,
)
    requires
        n <= entries.len(),
    ensures
        entries_text(objects, entries, n, depth, floats) == commas(
            entries.take(n as int).map_values(
                |e: (Value, Value)|
                    heap_text(objects, e.0, depth, floats) + seq![':', ' '] + heap_text(
                        objects,
                        e.1,
                        depth,
                        floats,
                    ),
            ),
        ),
    decreases n,
{
    let shown = |e: (Value, Value)|
        heap_text(objects, e.0, depth, floats) + seq![':', ' '] + heap_text(
            objects,
            e.1,
            depth,
            floats,
        );
    let texts = entries.take(n as int).map_values(shown);
    reveal_strlit(", ");
    reveal_strlit(": ");
    assert(", "@ =~= seq![',', ' ']);
    assert(": "@ =~= seq![':', ' ']);
    if n > 0 {
        lemma_entries(objects, entries, (n - 1) as nat, depth, floats);
        assert(texts.drop_last() =~= entries.take(n - 1).map_values(shown));
        let key = heap_text(objects, entries[n - 1].0, depth, floats);
        let value = heap_text(objects, entries[n - 1].1, depth, floats);
        assert(texts.last() == key + seq![':', ' '] + value);
        if n == 1 {
            assert(Seq::<char>::empty() + Seq::<char>::empty() + key + seq![':', ' '] + value
                =~= texts[0]);
        } else {
            let front = commas(texts.drop_last());
            assert(front + seq![',', ' '] + key + seq![':', ' '] + value =~= front + seq![',', ' ']
                + (key + seq![':', ' '] + value));
        }
    }
}

/// A string is shown as it is, an array as its values in brackets, and a map as its keys and values
/// in braces.
pub proof fn objects_are_shown_with_their_contents(
    objects: Seq<HeapObject>,
    reference: ObjRef,
    depth: nat,
    floats: Floats,
)
    requires
        depth < 8,
    ensures
        object_from(objects, reference, 0) matches Some(object) ==> match object {
            Obj::String(text) => heap_text(objects, Value::Obj(reference), depth, floats) == text@,
            Obj::Array(values) => heap_text(objects, Value::Obj(reference), depth, floats)
                == seq!['['] + commas(
                values@.map_values(|v: Value| heap_text(objects, v, depth + 1, floats)),
            ) + seq![']'],
            Obj::MapEntries(entries) => heap_text(objects, Value::Obj(reference), depth, floats)
                == seq!['{'] + commas(
                entries@.map_values(
                    |e: (Value, Value)|
                        heap_text(objects, e.0, depth + 1, floats) + seq![':', ' '] + heap_text(
                            objects,
                            e.1,
                            depth + 1,
                            floats,
                        ),
                ),
            ) + seq!['}'],
            _ => true,
        },
{
    reveal_strlit("[");
    reveal_strlit("]");
    reveal_strlit("{");
    reveal_strlit("}");
    assert("["@ =~= seq!['['] && "]"@ =~= seq![']'] && "{"@ =~= seq!['{'] && "}"@ =~= seq!['}']);
    if let Some(object) = object_from(objects, reference, 0) {
        match object {
            Obj::Array(values) => {
                lemma_values(objects, values@, values@.len(), depth + 1, floats);
                assert(values@.take(values@.len() as int) =~= values@);
            },
            Obj::MapEntries(entries) => {
                lemma_entries(objects, entries@, entries@.len(), depth + 1, floats);
                assert(entries@.take(entries@.len() as int) =~= entries@);
            },
            _ => {},
        }
    }
}

} // verus!
