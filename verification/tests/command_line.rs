//! Tests of the command line tools: commands, packages, modules, and debugger sessions.

use ferrix::{
    bytecode::{
        bytecode_features, decode_bytecode, encode_container, encode_program, inspect_container,
        optimize_chunk_with_report, FunctionId, FunctionKind, Instruction, Register,
        VerifiedProgram,
    },
    cli::{
        bench::{invalid_value_text, parse_baseline_line, parse_mode, BaselineFields, Mode},
        command::{
            internal_text, misuse_text, parse_command, parse_invocation, parse_runtime_mode,
            Command, Invocation, LoadError, RuntimeAction, RuntimeMode, RUNTIME_NOT_RUNNING, USAGE,
        },
        debugger::{finished_line, CallFrame, CliDebugger, DebugAction, DebugEvent},
        display::{shown_result, HeapObject, HeapSnapshot},
        explain::{explain, explained_metadata},
        manifest::parse_package_manifest,
        modules::{
            import_path, is_manifest_name, module_file, module_segments, pick_package_import,
            LoadStep, ModuleLoader,
        },
    },
    compiler::{
        analysis::build_compile_report, compile_program_ast_with_named_modules,
        compile_source_with_file_id,
    },
    diagnostics::{FileId, SourceManager},
    value::FloatTexts,
    Obj, ObjRef, Value,
};

fn words(args: &[&str]) -> Vec<String> {
    args.iter().map(|arg| arg.to_string()).collect()
}

fn command(args: &[&str]) -> Command {
    parse_command(&words(args))
}

// Loading of files from a list of paths and sources.

fn load(
    files: &[(&str, &str)],
    entry: &str,
) -> Result<(SourceManager, VerifiedProgram), (String, i32)> {
    let mut sources = SourceManager::new();
    let mut loader = ModuleLoader::new(entry, entry);
    loop {
        match loader.next_step() {
            LoadStep::Read { path } => match files.iter().find(|file| file.0 == path) {
                Some((_, source)) => {
                    if let Err(error) = loader.source_read(source, &mut sources) {
                        return Err(error.report());
                    }
                }
                None => return Err(loader.read_failed("no such file").report()),
            },
            LoadStep::Resolve { importer, module } => {
                let path = import_path(&importer, &module);
                if let Err(error) = loader.resolved(&path, &path) {
                    return Err(error.report());
                }
            }
            LoadStep::Done { entry } => {
                return match compile_program_ast_with_named_modules(entry, loader.modules) {
                    Ok(program) => Ok((sources, program)),
                    Err(error) => Err((sources.render_diagnostic(&error.to_diagnostic()), 65)),
                };
            }
        }
    }
}

// A machine with call frames that asks a debugger before every instruction.

struct Machine {
    heap: HeapSnapshot,
    frames: Vec<CallFrame>,
    returns: Vec<Register>,
    output: String,
}

impl Machine {
    fn new() -> Self {
        Machine {
            heap: HeapSnapshot {
                objects: Vec::new(),
            },
            frames: Vec::new(),
            returns: Vec::new(),
            output: String::new(),
        }
    }

    fn allocate(&mut self, object: Obj) -> Value {
        let reference = ObjRef::new(self.heap.objects.len() as u32, 0);
        self.heap.objects.push(HeapObject { reference, object });
        Value::Obj(reference)
    }

    fn object(&mut self, value: Value) -> &mut Obj {
        let reference = value.as_obj_ref().unwrap();
        &mut self.heap.objects[reference.index as usize].object
    }

    fn enter(&mut self, program: &VerifiedProgram, function: FunctionId, args: &[Value]) {
        let mut registers = args.to_vec();
        let count = program.as_program().functions[function.0 as usize].register_count;
        registers.resize(count as usize, Value::Nil);
        self.frames.push(CallFrame {
            function_id: function,
            ip: 0,
            registers,
        });
    }

    fn equal(&mut self, a: Value, b: Value) -> bool {
        if a == b {
            return true;
        }
        let texts = [a, b].map(|value| value.as_obj_ref().and_then(|r| match self.heap.get(r) {
            Some(Obj::String(text)) => Some(text.clone()),
            _ => None,
        }));
        texts[0].is_some() && texts[0] == texts[1]
    }

    /// Runs a program; `None` where the debugger quits.
    fn run(
        &mut self,
        program: &VerifiedProgram,
        before: &mut dyn FnMut(&DebugEvent<'_>) -> DebugAction,
    ) -> Option<Value> {
        let table = &program.as_program().functions;
        self.enter(program, program.as_program().entry, &[]);
        loop {
            let frame = self.frames.last().unwrap();
            let function = frame.function_id;
            let ip = frame.ip;
            let chunk = table[function.0 as usize].chunk().unwrap();
            let instruction = chunk.instructions[ip].clone();
            let event = DebugEvent {
                program: program.as_program(),
                function,
                function_name: &table[function.0 as usize].name,
                instruction_ip: ip,
                instruction: &instruction,
                source_span: chunk.source_map[ip],
                registers: &frame.registers,
                frames: &self.frames,
                heap: &self.heap,
            };
            if before(&event) == DebugAction::Quit {
                return None;
            }
            let registers = frame.registers.clone();
            let at = |register: Register| registers[register.0 as usize];
            let run = |start: Register, count: u8| {
                registers[start.0 as usize..start.0 as usize + count as usize].to_vec()
            };
            let (dst, value) = match instruction {
                Instruction::LoadConst { dst, constant } => {
                    (dst, chunk.constants[constant.0 as usize])
                }
                Instruction::LoadString { dst, string } => {
                    let text = chunk.strings[string.0 as usize].clone();
                    (dst, self.allocate(Obj::String(text)))
                }
                Instruction::Move { dst, src } => (dst, at(src)),
                Instruction::Add { dst, lhs, rhs } => match (at(lhs), at(rhs)) {
                    (Value::Int(a), Value::Int(b)) => (dst, Value::Int(a + b)),
                    _ => panic!("operands of an addition"),
                },
                Instruction::ArrayNew {
                    dst,
                    elements_start,
                    element_count,
                } => (
                    dst,
                    self.allocate(Obj::Array(run(elements_start, element_count))),
                ),
                Instruction::MapNew {
                    dst,
                    entries_start,
                    entry_count,
                } => {
                    let entries = run(entries_start, 2 * entry_count)
                        .chunks(2)
                        .map(|pair| (pair[0], pair[1]))
                        .collect();
                    (dst, self.allocate(Obj::MapEntries(entries)))
                }
                Instruction::IndexSet {
                    target,
                    index,
                    value,
                } => {
                    let (index, value) = (at(index), at(value));
                    match self.object(at(target)).clone() {
                        Obj::Array(mut elements) => {
                            if let Value::Int(i) = index {
                                elements[i as usize] = value;
                            }
                            *self.object(at(target)) = Obj::Array(elements);
                        }
                        Obj::MapEntries(mut entries) => {
                            match entries
                                .iter()
                                .position(|entry| self.equal(entry.0, index))
                            {
                                Some(i) => entries[i].1 = value,
                                None => entries.push((index, value)),
                            }
                            *self.object(at(target)) = Obj::MapEntries(entries);
                        }
                        _ => panic!("an indexed object"),
                    }
                    (target, at(target))
                }
                Instruction::CallFunction {
                    dst,
                    function,
                    args_start,
                    arg_count,
                } => {
                    let args = run(args_start, arg_count);
                    match &table[function.0 as usize].kind {
                        FunctionKind::Native { name } if name == "len" => {
                            match self.object(args[0]) {
                                Obj::Array(elements) => (dst, Value::Int(elements.len() as i64)),
                                _ => panic!("an object with a length"),
                            }
                        }
                        FunctionKind::Native { name } if name == "print" => {
                            let text = self.heap.display(args[0], &FloatTexts::new());
                            self.output.push_str(&text);
                            self.output.push('\n');
                            (dst, Value::Nil)
                        }
                        FunctionKind::Native { .. } => panic!("a native function"),
                        FunctionKind::Bytecode(_) => {
                            self.returns.push(dst);
                            self.enter(program, function, &args);
                            continue;
                        }
                    }
                }
                Instruction::Return { src } => {
                    let value = at(src);
                    self.frames.pop();
                    match self.returns.pop() {
                        Some(dst) => (dst, value),
                        None => return Some(value),
                    }
                }
                other => panic!("{other:?}"),
            };
            let frame = self.frames.last_mut().unwrap();
            frame.registers[dst.0 as usize] = value;
            frame.ip += 1;
        }
    }
}

fn run(files: &[(&str, &str)]) -> String {
    let (_, program) = load(files, "main.fx").unwrap();
    run_program(&program)
}

fn run_program(program: &VerifiedProgram) -> String {
    let mut machine = Machine::new();
    let value = machine.run(program, &mut |_| DebugAction::Continue).unwrap();
    let text = machine.heap.display(value, &FloatTexts::new());
    format!("{}{}\n", machine.output, text)
}

fn debug(source: &str, input: &str) -> String {
    let mut sources = SourceManager::new();
    sources.add_file("work/main.fx", source);
    let program = compile_source_with_file_id(source, FileId(0)).unwrap();
    let floats = FloatTexts::new();
    let mut lines = input.lines();
    let mut debugger = CliDebugger::new();
    let mut machine = Machine::new();
    let mut output = String::new();
    let value = machine.run(&program, &mut |event| {
        let Some(shown) = debugger.before_instruction(event, &sources, &floats) else {
            return DebugAction::Continue;
        };
        output.push_str(&shown);
        loop {
            output.push_str("debug> ");
            let Some(line) = lines.next() else {
                return DebugAction::Quit;
            };
            let (answer, action) =
                debugger.execute(event, &format!("{line}\n"), &sources, &floats);
            output.push_str(&answer);
            if let Some(action) = action {
                return action;
            }
        }
    });
    match value {
        Some(value) => output.push_str(&finished_line(&machine.heap, value, &floats)),
        None => output.push_str("debug: quit\n"),
    }
    output
}

#[test]
fn help_prints_usage() {
    assert_eq!(command(&["--help"]), Command::Help);
    assert_eq!(command(&["-h"]), Command::Help);
    assert_eq!(command(&[]), Command::Help);
    assert!(USAGE.contains("ferrix run <file|package>"));
    assert!(USAGE.contains("ferrix check <file|package>"));
}

#[test]
fn commands_take_their_paths() {
    assert_eq!(command(&["--version"]), Command::Version);
    assert_eq!(command(&["-V"]), Command::Version);
    assert_eq!(
        command(&["run", "a.fx"]),
        Command::Run {
            path: "a.fx".to_string(),
            stats: false,
            audit: false
        }
    );
    assert_eq!(
        command(&["run", "a.fx", "--stats", "--audit"]),
        Command::Run {
            path: "a.fx".to_string(),
            stats: true,
            audit: true
        }
    );
    assert_eq!(
        command(&["check", "a.fx"]),
        Command::Check {
            path: "a.fx".to_string()
        }
    );
    assert_eq!(
        command(&["compile", "a.fx", "a.fxb"]),
        Command::Compile {
            path: "a.fx".to_string(),
            output: "a.fxb".to_string(),
            explain: false
        }
    );
    assert_eq!(
        command(&["run-bytecode", "a.fxb"]),
        Command::RunBytecode {
            path: "a.fxb".to_string()
        }
    );
    assert_eq!(
        command(&["debug", "a.fx"]),
        Command::Debug {
            path: "a.fx".to_string()
        }
    );
    assert_eq!(
        command(&["runtime", "restart"]),
        Command::Runtime {
            action: RuntimeAction::Restart
        }
    );
    assert_eq!(command(&["ps"]), Command::Processes);
    assert_eq!(command(&["logs"]), Command::Logs);
    assert_eq!(
        command(&["info", "1"]),
        Command::Info {
            process: "1".to_string()
        }
    );
}

#[test]
fn misused_commands_say_what_is_expected() {
    let expected = |args: &[&str], message: &str| {
        assert_eq!(
            command(args),
            Command::Misuse {
                message: message.to_string()
            }
        );
    };
    expected(&["run"], "expected a file or package path");
    expected(&["run", "a", "b"], "expected a file or package path");
    expected(&["check", "a", "b"], "expected a file or package path");
    expected(&["compile", "a"], "expected input and output file paths");
    expected(
        &["compile", "a", "b", "c"],
        "expected input and output file paths",
    );
    expected(&["run-bytecode"], "expected a bytecode file path");
    expected(&["debug"], "expected a file or package path");
    expected(&["runtime"], "expected start, status, restart, or stop");
    expected(&["info"], "expected a process id");
    expected(&["--help", "x"], "unknown command");
    expected(&["frobnicate"], "unknown command");
    assert_eq!(
        misuse_text("unknown command"),
        format!("error: unknown command\n\n{USAGE}")
    );
}

#[test]
fn logs_with_pid_points_to_info_command() {
    match command(&["logs", "1"]) {
        Command::Misuse { message } => {
            assert!(message.contains("logs does not accept a process id"));
            assert!(message.contains("ferrix info <pid>"));
        }
        other => panic!("{other:?}"),
    }
}

#[test]
fn runtime_serve_is_internal_only() {
    for args in [
        vec!["runtime", "serve"],
        vec!["runtime", "serve", "--internal"],
        vec!["--runtime-mode", "managed", "runtime", "serve", "--internal", "7"],
    ] {
        match parse_invocation(&words(&args)).command {
            Command::Internal { message } => assert_eq!(
                internal_text(&message),
                "error: runtime serve is an internal command\n"
            ),
            other => panic!("{other:?}"),
        }
    }
}

#[test]
fn options_stand_before_the_command() {
    assert_eq!(
        parse_invocation(&words(&[
            "--runtime-mode",
            "required",
            "--runtime-home",
            "home",
            "check",
            "a.fx"
        ])),
        Invocation {
            mode: Some("required".to_string()),
            home: Some("home".to_string()),
            command: Command::Check {
                path: "a.fx".to_string()
            },
        }
    );
    assert_eq!(
        parse_invocation(&words(&["--runtime-home"])).command,
        Command::Misuse {
            message: "unknown command".to_string()
        }
    );
}

#[test]
fn invalid_runtime_mode_is_reported_for_execution_commands() {
    assert_eq!(
        parse_runtime_mode(&Some("daemon".to_string())),
        Err(
            "invalid runtime mode `daemon`; expected embedded, required, or managed".to_string()
        )
    );
    assert_eq!(parse_runtime_mode(&None), Ok(RuntimeMode::Embedded));
    assert_eq!(
        parse_runtime_mode(&Some(" \t".to_string())),
        Ok(RuntimeMode::Embedded)
    );
    assert_eq!(
        parse_runtime_mode(&Some("required".to_string())),
        Ok(RuntimeMode::Required)
    );
    assert_eq!(
        parse_runtime_mode(&Some("managed".to_string())),
        Ok(RuntimeMode::Managed)
    );
    assert_eq!(
        RUNTIME_NOT_RUNNING,
        "Ferrix runtime is not running.\nStart it with: ferrix runtime start\n"
    );
}

#[test]
fn run_file_prints_non_nil_result() {
    assert_eq!(run(&[("main.fx", "return 40 + 2;\n")]), "42\n");
}

#[test]
fn run_file_prints_string_result() {
    assert_eq!(run(&[("main.fx", "return \"ferrix\";\n")]), "ferrix\n");
}

#[test]
fn run_file_prints_function_call_result() {
    let source = "\
fn add(a, b) {
    return a + b;
}
return add(40, 2);
";
    assert_eq!(run(&[("main.fx", source)]), "42\n");
}

#[test]
fn run_file_supports_static_function_imports() {
    let math = "\
fn add(a, b) {
    return a + b;
}
";
    let main = "\
import math;
return add(40, 2);
";
    assert_eq!(run(&[("math.fx", math), ("main.fx", main)]), "42\n");
}

#[test]
fn run_file_supports_namespaced_static_function_imports() {
    let math = "\
fn add(a, b) {
    return a + b;
}
";
    let main = "\
import math;
return math.add(40, 2);
";
    assert_eq!(run(&[("math.fx", math), ("main.fx", main)]), "42\n");
}

#[test]
fn run_file_supports_explicit_module_exports() {
    let math = "\
fn hidden() {
    return 40;
}

export fn answer() {
    return hidden();
}

export let offset = 2;
";
    let main = "\
import math;
return math.answer() + math.offset;
";
    assert_eq!(run(&[("math.fx", math), ("main.fx", main)]), "42\n");
}

#[test]
fn run_file_reports_private_module_exports() {
    let math = "\
fn hidden() {
    return 42;
}

export fn visible() {
    return hidden();
}
";
    let main = "\
import math;
return math.hidden();
";
    let (text, code) = load(&[("math.fx", math), ("main.fx", main)], "main.fx").unwrap_err();
    assert_eq!(code, 65);
    assert!(text.contains("undefined export `hidden` in module `math`"));
}

#[test]
fn run_file_supports_transitive_static_imports() {
    let base = "\
fn one() {
    return 1;
}
";
    let math = "\
import base;
fn add_one(value) {
    return value + one();
}
";
    let main = "\
import math;
return add_one(41);
";
    assert_eq!(
        run(&[("base.fx", base), ("math.fx", math), ("main.fx", main)]),
        "42\n"
    );
}

#[test]
fn run_file_reports_missing_static_imports() {
    let (text, code) = load(
        &[("work/main.fx", "import missing;\nreturn 1;\n")],
        "work/main.fx",
    )
    .unwrap_err();
    assert_eq!(code, 66);
    assert_eq!(
        text,
        "error: could not resolve import `missing` from `work/main.fx` as `work/missing.fx`: \
no such file\n"
    );
}

#[test]
fn missing_file_is_reported() {
    let (text, code) = load(&[], "missing.fx").unwrap_err();
    assert_eq!(code, 66);
    assert_eq!(text, "error: could not read `missing.fx`: no such file\n");
}

#[test]
fn run_file_renders_compile_diagnostics() {
    let (text, code) = load(&[("main.fx", "return missing;\n")], "main.fx").unwrap_err();
    assert_eq!(code, 65);
    assert_eq!(
        text,
        "\
error: undefined variable `missing`
 --> main.fx:1:8
  |
1 | return missing;
  |        ^^^^^^^
"
    );
}

#[test]
fn files_that_do_not_parse_are_reported() {
    let (text, code) = load(
        &[("main.fx", "import bad;\n"), ("bad.fx", "let = 1;\n")],
        "main.fx",
    )
    .unwrap_err();
    assert_eq!(code, 65);
    assert_eq!(
        text,
        "\
error: expected identifier, found `=`
 --> bad.fx:1:5
  |
1 | let = 1;
  |     ^
"
    );
}

#[test]
fn import_cycles_are_told() {
    let (text, code) = load(
        &[
            ("main.fx", "import a;\n"),
            ("a.fx", "import b;\n"),
            ("b.fx", "import a;\n"),
        ],
        "main.fx",
    )
    .unwrap_err();
    assert_eq!(code, 65);
    assert_eq!(text, "error: import cycle involving `a.fx`\n");
}

#[test]
fn modules_are_loaded_once() {
    let mut sources = SourceManager::new();
    let mut loader = ModuleLoader::new("main.fx", "main.fx");
    let mut reads = Vec::new();
    loop {
        match loader.next_step() {
            LoadStep::Read { path } => {
                reads.push(path.clone());
                let source = match path.as_str() {
                    "main.fx" => "import left;\nimport right;\n",
                    "left.fx" => "import base;\n",
                    "right.fx" => "import base;\n",
                    _ => "fn one() { return 1; }\n",
                };
                loader.source_read(source, &mut sources).unwrap();
            }
            LoadStep::Resolve { module, .. } => {
                let path = format!("{module}.fx");
                loader.resolved(&path, &path).unwrap();
            }
            LoadStep::Done { entry } => {
                assert_eq!(entry.statements.len(), 2);
                break;
            }
        }
    }
    assert_eq!(reads, ["main.fx", "left.fx", "base.fx", "right.fx"]);
    let names = loader.modules.iter().map(|module| module.name.as_str());
    assert_eq!(names.collect::<Vec<_>>(), ["base", "left", "right"]);
}

#[test]
fn run_package_uses_manifest_entry_and_module_roots() {
    let manifest = parse_package_manifest(
        "\
name = \"demo\"
entry = \"src/main.fx\"
module_roots = [\"src\"]
dependencies = [\"stdlib@0.1\"]
",
    )
    .unwrap();
    assert_eq!(manifest.name, "demo");
    assert_eq!(manifest.entry, "src/main.fx");
    assert_eq!(manifest.module_roots, Some(vec!["src".to_string()]));
    assert_eq!(manifest.dependencies.len(), 1);
    assert_eq!(manifest.dependencies[0].name, "stdlib");
    assert_eq!(
        manifest.dependencies[0].requirement,
        Some("0.1".to_string())
    );
}

#[test]
fn manifests_have_comments_and_escapes() {
    let manifest = parse_package_manifest(
        "\
# a package
name = \"a # \\\"b\\\" \\\\ c\" # its name

  entry = \"main.fx\"\t
dependencies = [ \"x\" , \"y@1@2\" ]
module_roots = []
",
    )
    .unwrap();
    assert_eq!(manifest.name, "a # \"b\" \\ c");
    assert_eq!(manifest.entry, "main.fx");
    assert_eq!(manifest.module_roots, Some(Vec::new()));
    assert_eq!(manifest.dependencies[0].name, "x");
    assert_eq!(manifest.dependencies[0].requirement, None);
    assert_eq!(manifest.dependencies[1].name, "y");
    assert_eq!(
        manifest.dependencies[1].requirement,
        Some("1@2".to_string())
    );
    let plain = parse_package_manifest("name = \"n\"\nentry = \"e\"").unwrap();
    assert_eq!(plain.module_roots, None);
    assert!(plain.dependencies.is_empty());
}

#[test]
fn faults_of_manifests_are_told() {
    let told = |source: &str, message: &str| {
        assert_eq!(parse_package_manifest(source), Err(message.to_string()));
    };
    told("name", "line 1: expected `key = value`");
    told("\nname = x", "line 2: expected quoted string");
    told("name = \"x", "line 1: expected quoted string");
    told("name = \"", "line 1: expected quoted string");
    told("module_roots = \"x\"", "line 1: expected string array");
    told("module_roots = [x]", "line 1: expected quoted string");
    told("license = \"x\"", "line 1: unknown manifest key");
    told("entry = \"x\"", "missing `name`");
    told("name = \"x\"", "missing `entry`");
    assert_eq!(
        LoadError::Manifest {
            path: "Ferrix.toml".to_string(),
            message: "missing `name`".to_string()
        }
        .report(),
        (
            "error: invalid package manifest `Ferrix.toml`: missing `name`\n".to_string(),
            65
        )
    );
}

#[test]
fn imports_are_looked_for_beside_the_importing_file() {
    assert_eq!(import_path("main.fx", "math"), "math.fx");
    assert_eq!(import_path("src/main.fx", "math"), "src/math.fx");
    assert_eq!(
        import_path("/src/app/main.fx", "util.math"),
        "/src/app/util/math.fx"
    );
    assert_eq!(import_path("/main.fx", "a.b.c"), "/a/b/c.fx");
}

#[test]
fn results_are_shown_unless_they_are_nil() {
    assert_eq!(shown_result(Value::Nil, "nil"), None);
    assert_eq!(
        shown_result(Value::Int(42), "42"),
        Some("42".to_string())
    );
    assert_eq!(
        shown_result(Value::Bool(false), "false"),
        Some("false".to_string())
    );
}

#[test]
fn manifests_are_found_by_name() {
    assert!(is_manifest_name("Ferrix.toml"));
    assert!(is_manifest_name("ferrix.toml"));
    assert!(!is_manifest_name("FERRIX.toml"));
    assert!(!is_manifest_name("ferrix.tom"));
}

#[test]
fn run_package_resolves_nested_modules_from_manifest_roots() {
    assert_eq!(module_segments("util.math"), ["util", "math"]);
    assert_eq!(module_segments("math"), ["math"]);
    assert_eq!(module_segments(".a."), ["", "a", ""]);
    assert_eq!(module_file("util.math"), "util/math.fx");
    let searched = words(&["modules/util/math.fx", "src/util/math.fx"]);
    assert_eq!(
        pick_package_import(
            "src/main.fx",
            "nested",
            "util.math",
            true,
            &searched,
            &vec![true, true]
        ),
        Ok("modules/util/math.fx".to_string())
    );
    assert_eq!(
        pick_package_import(
            "src/main.fx",
            "nested",
            "util.math",
            true,
            &searched,
            &vec![false, true]
        ),
        Ok("src/util/math.fx".to_string())
    );
    let math = "\
export fn answer() {
    return 42;
}
";
    let main = "\
import util.math;
return answer();
";
    assert_eq!(run(&[("util/math.fx", math), ("main.fx", main)]), "42\n");
}

#[test]
fn run_package_reports_missing_modules_with_search_roots() {
    let error = pick_package_import(
        "src/main.fx",
        "missing-demo",
        "local",
        true,
        &words(&["modules/local.fx", "more/local.fx"]),
        &vec![false, false],
    )
    .unwrap_err();
    let (text, code) = error.report();
    assert_eq!(code, 66);
    assert_eq!(
        text,
        "error: could not resolve package import `local` from `src/main.fx` in package \
`missing-demo`; searched `modules/local.fx`, `more/local.fx`\n"
    );
}

#[test]
fn packages_import_from_inside_only() {
    let error = pick_package_import(
        "other/main.fx",
        "demo",
        "local",
        false,
        &words(&["modules/local.fx"]),
        &vec![true],
    )
    .unwrap_err();
    assert_eq!(
        error,
        LoadError::PackageImport {
            importer: "other/main.fx".to_string(),
            package: "demo".to_string(),
            module: "local".to_string(),
            searched: Vec::new(),
        }
    );
}

#[test]
fn compile_and_run_bytecode_file() {
    let (_, program) = load(&[("main.fx", "return 40 + 2;\n")], "main.fx").unwrap();
    let bytes = encode_program(program.as_program()).unwrap();
    let decoded = decode_bytecode(&bytes).unwrap();
    assert_eq!(run_program(&decoded), "42\n");
}

#[test]
fn compile_can_explain_optimizations_and_write_feature_metadata() {
    let source = "\
print(\"hello\");
return len([1, 2, 3]);
";
    let (_, program) = load(&[("main.fx", source)], "main.fx").unwrap();
    assert_eq!(run_program(&program), "hello\n3\n");
    let chunks = program
        .as_program()
        .functions
        .iter()
        .filter_map(|function| function.chunk())
        .map(|chunk| optimize_chunk_with_report(chunk.clone()).report)
        .collect::<Vec<_>>();
    let report = build_compile_report(program.as_program(), Vec::new(), chunks);
    let text = explain(&report);
    assert!(text.contains("features: "));
    assert!(text.contains("arrays"));
    assert!(text.contains("native-calls"));
    assert!(text.contains("capabilities: io.output,native.call"));
    assert!(text.contains("optimizer: chunks="));
    assert!(text.ends_with("\noptimizer: chunks=1\n"));

    assert_eq!(
        command(&["compile", "main.fx", "main.fxb", "--explain-optimizations"]),
        Command::Compile {
            path: "main.fx".to_string(),
            output: "main.fxb".to_string(),
            explain: true
        }
    );
    let metadata = explained_metadata(program.as_program(), &report);
    let bytes = encode_container(program.as_program(), Some(metadata)).unwrap();
    let metadata = inspect_container(&bytes).unwrap();
    let features = bytecode_features(metadata.feature_flags)
        .into_iter()
        .map(|feature| feature.as_str().to_string())
        .collect::<Vec<_>>();
    assert!(features.contains(&"arrays".to_string()));
    assert!(features.contains(&"native-calls".to_string()));
    assert_eq!(
        metadata.required_capabilities,
        vec!["io.output".to_string(), "native.call".to_string()]
    );
    assert_eq!(run_program(&decode_bytecode(&bytes).unwrap()), "hello\n3\n");
}

#[test]
fn run_file_prints_array_results_and_supports_len() {
    let source = "\
let values = [1, 2, 3];
values[1] = len(values);
return values;
";
    assert_eq!(run(&[("main.fx", source)]), "[1, 3, 3]\n");
}

#[test]
fn run_file_prints_map_results_and_supports_indexing() {
    let source = "\
let user = { \"name\": \"Onur\" };
user[\"age\"] = 30;
return user;
";
    assert_eq!(run(&[("main.fx", source)]), "{name: Onur, age: 30}\n");
}

#[test]
fn deep_values_are_cut_off() {
    let mut machine = Machine::new();
    let mut value = Value::Int(1);
    for _ in 0..9 {
        value = machine.allocate(Obj::Array(vec![value]));
    }
    assert_eq!(
        machine.heap.display(value, &FloatTexts::new()),
        "[[[[[[[[...]]]]]]]]"
    );
    let empty = machine.allocate(Obj::MapEntries(Vec::new()));
    assert_eq!(machine.heap.display(empty, &FloatTexts::new()), "{}");
    let gone = Value::Obj(ObjRef::new(77, 1));
    assert_eq!(
        machine.heap.display(gone, &FloatTexts::new()),
        gone.to_string(&FloatTexts::new())
    );
    let module = machine.allocate(Obj::Module("m".to_string()));
    assert_eq!(
        machine.heap.display(module, &FloatTexts::new()),
        module.to_string(&FloatTexts::new())
    );
}

#[test]
fn debug_file_steps_and_prints_registers() {
    let output = debug(
        "let x = 40 + 2;\nreturn x;\n",
        "registers\nstep\ncontinue\n",
    );
    assert!(output.contains("stopped at fn#0 main ip=0"));
    assert!(output.contains("r0 = nil"));
    assert!(output.contains("debug: finished with 42"));
}

#[test]
fn debug_file_supports_instruction_breakpoints() {
    let output = debug(
        "let x = 1;\nlet y = 41;\nreturn x + y;\n",
        "break 2\ncontinue\nstep\ncontinue\n",
    );
    assert!(output.contains("set breakpoint at ip=2"));
    assert!(output.contains("stopped at fn#0 main ip=2"));
    assert!(!output.contains("stopped at fn#0 main ip=1"));
    assert!(output.contains("debug: finished with 42"));
}

#[test]
fn debug_file_supports_source_line_breakpoints() {
    let output = debug(
        "let x = 1;\nlet y = 41;\nreturn x + y;\n",
        "break line 2\ncontinue\ncontinue\n",
    );
    assert!(output.contains("set breakpoint at line 2"));
    assert!(output.contains(" --> work/main.fx:2:"));
    assert!(output.contains("  | let y = 41;"));
    assert!(output.contains("debug: finished with 42"));
}

#[test]
fn debug_file_supports_watches_and_disassembly() {
    let output = debug(
        "let x = 40 + 2;\nreturn x;\n",
        "watch r1\ndisasm 1\nstep\ncontinue\n",
    );
    assert!(output.contains("watch #0: r1 = nil"));
    assert!(output.contains("disassembly for frame #0 main"));
    assert!(output.contains("=> 0000"));
    assert!(output.contains("watch #0: r1 = 40"));
    assert!(output.contains("debug: finished with 42"));
}

#[test]
fn debug_file_supports_frame_selection() {
    let output = debug(
        "\
fn add(a, b) {
    return a + b;
}
return add(40, 2);
",
        "break add:0\ncontinue\nstack\nframe 1\nregisters\ncontinue\n",
    );
    assert!(output.contains("set breakpoint at fn#0:0"));
    assert!(output.contains("#0 * at add (fn#0, ip=0)"));
    assert!(output.contains("#1 at main (fn#1, ip="));
    assert!(output.contains("selected frame #1 at main (fn#1, ip="));
    assert!(output.contains("registers for frame #1 main (fn#1, ip="));
    assert!(output.contains("debug: finished with 42"));
}

#[test]
fn debugger_sets_and_clears_breakpoints() {
    let output = debug(
        "return 1;\n",
        "b fn#3:7\nbreak main:1\nb main.fx:9\nb x\nb line x\nclear 5\ncl main:1\nclear y:z\nclear\nquit\n",
    );
    assert!(output.contains("debug> set breakpoint at fn#3:7\n"));
    assert!(output.contains("debug> set breakpoint at fn#0:1\n"));
    assert!(output.contains("debug> set breakpoint at main.fx:9\n"));
    assert!(output.contains("debug> invalid breakpoint `x`\n"));
    assert!(output.contains("debug> invalid breakpoint `line x`\n"));
    assert!(output.contains("debug> not found breakpoint at ip=5\n"));
    assert!(output.contains("debug> cleared breakpoint at fn#0:1\n"));
    assert!(output.contains("debug> invalid breakpoint `y:z`\n"));
    assert!(output.contains("debug> cleared all breakpoints\n"));
    assert!(output.ends_with("debug> debug: quit\n"));
}

#[test]
fn cleared_breakpoints_do_not_stop() {
    let source = "let x = 1;\nlet y = 41;\nreturn x + y;\n";
    let output = debug(source, "break 2\nclear 2\ncontinue\n");
    assert!(output.contains("cleared breakpoint at ip=2"));
    assert!(!output.contains("main ip=2"));
    assert!(output.ends_with("debug: finished with 42\n"));
    let scoped = debug(source, "break other.fx:2\nbreak main.fx:3\ncontinue\nquit\n");
    assert!(!scoped.contains(" --> work/main.fx:2:"));
    assert!(scoped.contains(" --> work/main.fx:3:"));
}

#[test]
fn debugger_answers_unusable_input() {
    let output = debug(
        "return nil;\n",
        "frame 9\nframe x\nframe\nwatch\nwatch y\nwatch r9\nunwatch 7\nuw x\nunwatch 0\nwatches\nfly\ni\nhelp\n\n\n",
    );
    assert!(output.contains("debug> frame #9 is unavailable; stack has 1 frame(s)\n"));
    assert!(output.contains("debug> invalid frame `x`\n"));
    assert!(output.contains("debug> selected frame #0 at main (fn#0, ip=0)\n"));
    assert!(output.contains("debug> watch #0: y (unknown watch expression `y`)\n"));
    assert!(output.contains("debug> watch #1: r9 (register r9 is unavailable)\n"));
    assert!(output.contains("debug> watch #7 is unavailable\n"));
    assert!(output.contains("debug> invalid watch `x`\n"));
    assert!(output.contains("debug> removed watch #0: y\n"));
    assert!(output.contains("debug> watch #0: r9 (register r9 is unavailable)\n"));
    assert!(output.contains("debug> unknown command `fly`; type `help`\n"));
    assert!(output.contains("debug> commands:\n  step | s              execute one instruction\n"));
    assert!(output.ends_with("debug> debug: finished\n"));
}

#[test]
fn benchmark_modes_are_parsed() {
    assert_eq!(parse_mode(&words(&[])), Ok(Mode::Run));
    assert_eq!(parse_mode(&words(&["--help"])), Ok(Mode::Help));
    assert_eq!(
        parse_mode(&words(&["--check", "b.csv"])),
        Ok(Mode::Check {
            path: "b.csv".to_string()
        })
    );
    assert_eq!(
        parse_mode(&words(&["--refresh", "b.csv"])),
        Ok(Mode::Refresh {
            path: "b.csv".to_string()
        })
    );
    let refused = |args: &[&str], message: &str| {
        assert_eq!(parse_mode(&words(args)), Err(message.to_string()));
    };
    refused(&["--check"], "expected a baseline path after --check");
    refused(&["--refresh"], "expected a baseline path after --refresh");
    refused(&["--check", "a", "b"], "unexpected argument `b`");
    refused(&["--fast"], "unknown argument `--fast`");
}

#[test]
fn baseline_lines_have_seven_columns() {
    assert_eq!(parse_baseline_line("# comment", 1), Ok(None));
    assert_eq!(parse_baseline_line("  ", 2), Ok(None));
    assert_eq!(
        parse_baseline_line("loop, 1.5,20 ,0.5,20,100,30", 3),
        Ok(Some(BaselineFields {
            name: "loop".to_string(),
            compile_ms: "1.5".to_string(),
            compile_threshold_pct: "20".to_string(),
            verify_ms: "0.5".to_string(),
            verify_threshold_pct: "20".to_string(),
            run_avg_us: "100".to_string(),
            run_threshold_pct: "30".to_string(),
        }))
    );
    assert_eq!(
        parse_baseline_line("loop,1.5", 4),
        Err("line 4: expected 7 comma-separated fields".to_string())
    );
    assert_eq!(
        invalid_value_text(5, "verify_ms", "x", "invalid float literal"),
        "line 5: invalid verify_ms value `x`: invalid float literal"
    );
}
