//! Tests of the compiler stages: tokens, syntax trees, names, linking and reports.

use ferrix::{
    bytecode::{
        optimize_chunk_with_report, Chunk, Function, FunctionId, Instruction, Program, Register,
        VerificationError, VerificationErrorKind,
    },
    compiler::{
        analysis::{build_compile_report, collect_module_dependencies},
        ast::{BinaryOp, Expr, Literal, ProgramAst, Stmt},
        compile_program_ast, compile_program_ast_with_named_modules, compile_source,
        lexer::{lex, TokenKind},
        parse_source_with_file_id,
        parser::parse,
        sema::analyze,
        CompileError, CompileErrorKind, ImportedModuleAst, ProgramOptimizationReport,
    },
    diagnostics::{FileId, SourceSpan},
    Value,
};

fn kinds(source: &str) -> Vec<TokenKind> {
    lex(source, FileId(0))
        .unwrap()
        .into_iter()
        .map(|token| token.kind)
        .collect()
}

fn ast(source: &str) -> ProgramAst {
    parse_source_with_file_id(source, FileId(0)).unwrap()
}

fn span(start: usize, end: usize) -> SourceSpan {
    SourceSpan::new(FileId(0), start, end)
}

fn fails(source: &str, kind: CompileErrorKind, shown: &str) {
    let error = compile_source(source).unwrap_err();
    assert_eq!(error.kind, kind);
    assert_eq!(error.to_string(), shown);
    assert_eq!(error.to_diagnostic().message, shown);
    assert_eq!(error.to_diagnostic().span, error.span);
}

fn name(text: &str) -> String {
    text.to_string()
}

#[test]
fn every_token_is_found() {
    assert_eq!(
        kinds("let fn export import if else while return throw try catch true false nil"),
        [
            TokenKind::Let,
            TokenKind::Fn,
            TokenKind::Export,
            TokenKind::Import,
            TokenKind::If,
            TokenKind::Else,
            TokenKind::While,
            TokenKind::Return,
            TokenKind::Throw,
            TokenKind::Try,
            TokenKind::Catch,
            TokenKind::True,
            TokenKind::False,
            TokenKind::Nil,
            TokenKind::Eof,
        ]
    );
    assert_eq!(
        kinds("+-*/ = == != < <= > >= (){}[]:.,;"),
        [
            TokenKind::Plus,
            TokenKind::Minus,
            TokenKind::Star,
            TokenKind::Slash,
            TokenKind::Equal,
            TokenKind::EqualEqual,
            TokenKind::BangEqual,
            TokenKind::Less,
            TokenKind::LessEqual,
            TokenKind::Greater,
            TokenKind::GreaterEqual,
            TokenKind::LeftParen,
            TokenKind::RightParen,
            TokenKind::LeftBrace,
            TokenKind::RightBrace,
            TokenKind::LeftBracket,
            TokenKind::RightBracket,
            TokenKind::Colon,
            TokenKind::Dot,
            TokenKind::Comma,
            TokenKind::Semicolon,
            TokenKind::Eof,
        ]
    );
    assert_eq!(
        kinds("lets _x1 9223372036854775807 \"a\\\"\\\\\\n\\r\\té\""),
        [
            TokenKind::Identifier(name("lets")),
            TokenKind::Identifier(name("_x1")),
            TokenKind::Integer(9223372036854775807),
            TokenKind::String(name("a\"\\\n\r\té")),
            TokenKind::Eof,
        ]
    );
}

#[test]
fn tokens_lie_in_order_in_the_source() {
    let source = "let naïve";
    assert!(lex(source, FileId(4)).is_err());
    let source = "let \"é\" x1;\n";
    let tokens = lex(source, FileId(4)).unwrap();
    let spans = tokens
        .iter()
        .map(|token| (token.span.start, token.span.end))
        .collect::<Vec<_>>();
    assert_eq!(spans, [(0, 3), (4, 8), (9, 11), (11, 12), (13, 13)]);
    assert_eq!(&source[9..11], "x1");
    assert!(tokens.iter().all(|token| token.span.file_id == FileId(4)));
}

#[test]
fn faulty_text_is_told() {
    fails(
        "return 1 $ 2;",
        CompileErrorKind::UnexpectedCharacter { character: '$' },
        "unexpected character `$`",
    );
    fails(
        "return !x;",
        CompileErrorKind::UnexpectedCharacter { character: '!' },
        "unexpected character `!`",
    );
    fails(
        "é",
        CompileErrorKind::UnexpectedCharacter { character: 'Ã' },
        "unexpected character `Ã`",
    );
    fails(
        "return 9223372036854775808;",
        CompileErrorKind::InvalidInteger {
            literal: name("9223372036854775808"),
        },
        "invalid integer literal `9223372036854775808`",
    );
    fails(
        "return \"abc",
        CompileErrorKind::UnterminatedString,
        "unterminated string literal",
    );
    fails(
        "return \"a\nb\";",
        CompileErrorKind::UnterminatedString,
        "unterminated string literal",
    );
    fails(
        "return \"\\q\";",
        CompileErrorKind::InvalidStringEscape { escape: 'q' },
        "invalid string escape `\\q`",
    );
    let error = compile_source("let x = 007; return \"\\é\";").unwrap_err();
    assert_eq!(
        error.kind,
        CompileErrorKind::InvalidStringEscape { escape: 'é' }
    );
    assert_eq!(error.span, Some(span(20, 24)));
}

#[test]
fn faulty_syntax_is_told() {
    fails(
        "let x 1;",
        CompileErrorKind::UnexpectedToken {
            expected: name("`=`"),
            found: name("integer `1`"),
        },
        "expected `=`, found integer `1`",
    );
    fails(
        "return 1",
        CompileErrorKind::UnexpectedToken {
            expected: name("`;`"),
            found: name("end of file"),
        },
        "expected `;`, found end of file",
    );
    fails(
        "return (",
        CompileErrorKind::ExpectedExpression,
        "expected expression",
    );
    fails(
        "return 1 + * 2;",
        CompileErrorKind::UnexpectedToken {
            expected: name("expression"),
            found: name("`*`"),
        },
        "expected expression, found `*`",
    );
    fails(
        "return 1(2);",
        CompileErrorKind::UnexpectedToken {
            expected: name("function name"),
            found: name("expression"),
        },
        "expected function name, found expression",
    );
}

#[test]
fn products_bind_more_than_sums_and_sums_more_than_comparisons() {
    let program = ast("return 1 + 2 * 3 < 4 - 5;");
    let Stmt::Return { value, .. } = &program.statements[0] else {
        panic!("a return");
    };
    let Expr::Binary { op, lhs, rhs, .. } = value else {
        panic!("a comparison");
    };
    assert_eq!(*op, BinaryOp::Less);
    assert_eq!(value.span(), span(7, 24));
    let Expr::Binary { op, rhs: product, .. } = &**lhs else {
        panic!("a sum");
    };
    assert_eq!(*op, BinaryOp::Add);
    assert_eq!(lhs.span(), span(7, 16));
    assert!(matches!(
        **product,
        Expr::Binary {
            op: BinaryOp::Mul,
            ..
        }
    ));
    assert!(matches!(
        **rhs,
        Expr::Binary {
            op: BinaryOp::Sub,
            ..
        }
    ));
    let program = ast("return 10 - 4 - 3;");
    let Stmt::Return { value, .. } = &program.statements[0] else {
        panic!("a return");
    };
    let Expr::Binary { lhs, rhs, .. } = value else {
        panic!("a difference");
    };
    assert!(matches!(**lhs, Expr::Binary { .. }));
    assert!(matches!(
        **rhs,
        Expr::Literal {
            value: Literal::Int(3),
            ..
        }
    ));
}

#[test]
fn statements_cover_their_tokens() {
    let source = "let x = (1); { x = x[0]; } while (x < 2) { x = 3; }";
    let program = ast(source);
    let covered = program
        .statements
        .iter()
        .map(|stmt| match stmt {
            Stmt::Let { span, .. } | Stmt::Block { span, .. } | Stmt::While { span, .. } => {
                &source[span.start..span.end]
            }
            _ => panic!("another statement"),
        })
        .collect::<Vec<_>>();
    assert_eq!(
        covered,
        ["let x = (1);", "{ x = x[0]; }", "while (x < 2) { x = 3; }"]
    );
}

#[test]
fn parsed_tokens_end_with_the_file() {
    let tokens = lex("", FileId(0)).unwrap();
    assert_eq!(tokens.len(), 1);
    assert!(parse(tokens).unwrap().statements.is_empty());
    assert_eq!(
        ast("import a.b;").statements,
        [Stmt::Import {
            module: name("a.b"),
            span: span(0, 11)
        }]
    );
}

#[test]
fn names_have_to_be_bound() {
    fails(
        "return x;",
        CompileErrorKind::UndefinedVariable { name: name("x") },
        "undefined variable `x`",
    );
    fails(
        "return f();",
        CompileErrorKind::UndefinedFunction { name: name("f") },
        "undefined function `f`",
    );
    fails(
        "let x = 1; let x = 2; return x;",
        CompileErrorKind::DuplicateVariable { name: name("x") },
        "duplicate variable `x`",
    );
    fails(
        "fn f() { return 1; } fn f() { return 2; } return f();",
        CompileErrorKind::DuplicateFunction { name: name("f") },
        "duplicate function `f`",
    );
    fails(
        "fn f(a, a) { return a; } return f(1, 2);",
        CompileErrorKind::DuplicateParameter { name: name("a") },
        "duplicate parameter `a`",
    );
    fails(
        "fn f(a) { return a; } return f(1, 2);",
        CompileErrorKind::WrongCallArity {
            name: name("f"),
            expected: 1,
            actual: 2,
        },
        "wrong argument count for `f`; expected 1, got 2",
    );
}

#[test]
fn bindings_end_with_their_block() {
    fails(
        "{ let x = 1; } return x;",
        CompileErrorKind::UndefinedVariable { name: name("x") },
        "undefined variable `x`",
    );
    assert!(compile_source("let x = 1; { x = 2; } return x;").is_ok());
    assert!(analyze(&ast("{ let y = 1; } { let y = 2; } return 0;")).is_ok());
}

#[test]
fn lists_have_limits() {
    let list = |count: usize| vec!["1"; count].join(", ");
    assert!(analyze(&ast(&format!("return [{}];", list(255)))).is_ok());
    let error = analyze(&ast(&format!("return [{}];", list(256)))).unwrap_err();
    assert_eq!(
        error.kind,
        CompileErrorKind::TooManyArrayElements { max: 255 }
    );
    assert_eq!(error.to_string(), "too many array elements; maximum is 255");
    let entries = vec!["1: 2"; 256].join(", ");
    let error = analyze(&ast(&format!("return {{{entries}}};"))).unwrap_err();
    assert_eq!(error.kind, CompileErrorKind::TooManyMapEntries { max: 255 });
    assert_eq!(error.to_string(), "too many map entries; maximum is 255");
    let params = (0..256)
        .map(|i| format!("p{i}"))
        .collect::<Vec<_>>()
        .join(", ");
    let source = format!("fn f({params}) {{ return 1; }} return 0;");
    let error = analyze(&ast(&source)).unwrap_err();
    assert_eq!(error.kind, CompileErrorKind::TooManyParameters { max: 255 });
    assert_eq!(
        error.to_string(),
        "too many function parameters; maximum is 255"
    );
    let source = format!("return len({});", list(256));
    let error = analyze(&ast(&source)).unwrap_err();
    assert_eq!(error.kind, CompileErrorKind::TooManyArguments { max: 255 });
    assert_eq!(error.to_string(), "too many call arguments; maximum is 255");
    let lets = (0..256)
        .map(|i| format!("let v{i} = {i};\n"))
        .collect::<String>();
    fails(
        &format!("{lets}return 0;"),
        CompileErrorKind::TooManyRegisters,
        "too many registers in function",
    );
}

#[test]
fn other_errors_have_texts() {
    let shown = |kind: CompileErrorKind| CompileError::new(kind, None).to_string();
    assert_eq!(
        shown(CompileErrorKind::UndefinedMethod { name: name("m") }),
        "undefined method `m`"
    );
    assert_eq!(
        shown(CompileErrorKind::TypeMismatch {
            expected: name("int"),
            found: name("bool")
        }),
        "type mismatch; expected int, got bool"
    );
    assert_eq!(
        shown(CompileErrorKind::UnknownType { name: name("t") }),
        "unknown type `t`"
    );
    assert_eq!(
        shown(CompileErrorKind::TooManyRecordFields { max: 255 }),
        "too many record fields; maximum is 255"
    );
    assert_eq!(
        shown(CompileErrorKind::TooManyInstructions),
        "too many instructions in function"
    );
    assert_eq!(
        shown(CompileErrorKind::TooManyConstants { max: 7 }),
        "too many constants; maximum is 7"
    );
    assert_eq!(
        shown(CompileErrorKind::TooManyStrings { max: 7 }),
        "too many strings; maximum is 7"
    );
    assert_eq!(
        shown(CompileErrorKind::TooManyFunctions { max: 7 }),
        "too many functions; maximum is 7"
    );
    assert_eq!(
        shown(CompileErrorKind::BytecodeVerification(
            VerificationError::new(
                Some(FunctionId(2)),
                None,
                VerificationErrorKind::MissingReturn
            )
        )),
        "chunk has no return instruction in fn#2"
    );
}

#[test]
fn modules_are_reached_by_their_names() {
    let module = |text: &str| ImportedModuleAst {
        name: name("math"),
        ast: ast(text),
    };
    let linked = |entry: &str, text: &str| {
        compile_program_ast_with_named_modules(ast(entry), vec![module(text)])
    };
    assert!(linked(
        "import math; return math.two();",
        "fn two() { return 2; }"
    )
    .is_ok());
    let error = linked(
        "import math; return math.one();",
        "fn one() { return 1; } export fn two() { return 2; }",
    )
    .unwrap_err();
    assert_eq!(
        error.kind,
        CompileErrorKind::UndefinedModuleExport {
            module: name("math"),
            name: name("one")
        }
    );
    assert_eq!(
        error.to_string(),
        "undefined export `one` in module `math`"
    );
}

#[test]
fn only_modules_with_exports_lack_exports() {
    let error = |entry: &str, text: &str| {
        let module = ImportedModuleAst {
            name: name("math"),
            ast: ast(text),
        };
        compile_program_ast_with_named_modules(ast(entry), vec![module])
            .unwrap_err()
            .kind
    };
    let missing = |text: &str| CompileErrorKind::UndefinedModuleExport {
        module: name("math"),
        name: name(text),
    };
    assert_eq!(
        error("import math; return math.one();", "fn two() { return 2; }"),
        CompileErrorKind::UndefinedFunction {
            name: name("math.one")
        }
    );
    assert_eq!(
        error("import math; return math.one;", "fn two() { return 2; }"),
        CompileErrorKind::UndefinedVariable {
            name: name("math.one")
        }
    );
    assert_eq!(
        error("import math; return math.one();", "export let two = 2;"),
        missing("one")
    );
    assert_eq!(
        error("import math; return math.one;", "export let two = 2;"),
        missing("one")
    );
    assert_eq!(
        error("import math; return other.one;", "export let two = 2;"),
        CompileErrorKind::UndefinedVariable {
            name: name("other.one")
        }
    );
}

#[test]
fn top_level_names_become_functions() {
    let program = compile_program_ast(ast("fn one() { return 1; } print(one()); return nil;")).unwrap();
    let names = program
        .as_program()
        .functions
        .iter()
        .map(|function| (function.name.as_str(), function.native_name()))
        .collect::<Vec<_>>();
    assert_eq!(
        names,
        [("one", None), ("print", Some("print")), ("main", None)]
    );
    assert_eq!(program.as_program().entry, FunctionId(2));
    let error = compile_program_ast(ast("print(1);")).unwrap_err();
    assert_eq!(
        error.kind,
        CompileErrorKind::BytecodeVerification(VerificationError::new(
            Some(FunctionId(1)),
            None,
            VerificationErrorKind::MissingReturn
        ))
    );
}

#[test]
fn dependencies_are_listed_in_order() {
    let import = |module: &str| Stmt::Import {
        module: name(module),
        span: span(0, 0),
    };
    let first = ast("import zeta; import alpha;");
    let second = ProgramAst {
        statements: vec![
            Stmt::Block {
                statements: vec![import("beta"), import("alpha")],
                span: span(0, 0),
            },
            Stmt::Expr {
                value: Expr::Function {
                    params: Vec::new(),
                    body: vec![import("eta")],
                    span: span(0, 0),
                },
                span: span(0, 0),
            },
        ],
    };
    assert_eq!(
        collect_module_dependencies(&[&first, &second]),
        ["alpha", "beta", "eta", "zeta"]
    );
    assert!(collect_module_dependencies(&[]).is_empty());
}

#[test]
fn reports_tell_of_programs() {
    let mut main = Chunk::new("main", 1);
    main.push_instruction(Instruction::Move {
        dst: Register(0),
        src: Register(0),
    });
    main.push_instruction(Instruction::Return { src: Register(0) });
    let optimized = optimize_chunk_with_report(main.clone());
    let mut program = Program::new(FunctionId(0));
    program.add_function(Function::bytecode(main)).unwrap();
    program.add_function(Function::native("print", 1)).unwrap();
    program.add_function(Function::native("len", 1)).unwrap();
    let report = build_compile_report(&program, vec![name("m")], vec![optimized.report]);
    assert_eq!(report.analysis.native_dependencies, ["len", "print"]);
    assert_eq!(
        report.analysis.required_capabilities,
        ["io.output", "native.call"]
    );
    assert_eq!(report.analysis.required_features, ["native-calls"]);
    assert_eq!(report.analysis.module_dependencies, ["m"]);
    assert!(report.analysis.custom_extension_dependencies.is_empty());
    assert_eq!(report.analysis.bytecode_function_count, 1);
    assert_eq!(report.analysis.bytecode_instruction_count, 2);
    assert_eq!(report.optimization.total_passes(), 6);
    assert_eq!(report.optimization.total_transformations(), 1);
    assert!(report.optimization.changed());
    let nothing = ProgramOptimizationReport { chunks: Vec::new() };
    assert_eq!(nothing.total_passes(), 0);
    assert!(!nothing.changed());
}

#[test]
fn optimization_reports_name_their_passes() {
    let mut chunk = Chunk::new("f", 3);
    chunk.add_constant(Value::Int(2)).unwrap();
    chunk.push_instruction(Instruction::LoadConst {
        dst: Register(0),
        constant: ferrix::bytecode::ConstId(0),
    });
    chunk.push_instruction(Instruction::Mul {
        dst: Register(1),
        lhs: Register(0),
        rhs: Register(0),
    });
    chunk.push_instruction(Instruction::Return { src: Register(1) });
    let optimized = optimize_chunk_with_report(chunk);
    let report = optimized.report;
    assert_eq!(report.chunk_name, "f");
    assert_eq!(report.instructions_before, 3);
    assert_eq!(report.instructions_after, 3);
    assert_eq!(report.total_transformations(), 1);
    let names = report.passes.iter().map(|pass| (pass.name, pass.changed));
    assert_eq!(
        names.collect::<Vec<_>>(),
        [
            ("constant-folding", true),
            ("integer-specialization", false),
            ("jump-chain-collapse", false),
            ("redundant-move-removal", false),
            ("unreachable-code-removal", false),
            ("post-compact-jump-chain-collapse", false),
        ]
    );
    assert_eq!(optimized.chunk.constants, [Value::Int(2), Value::Int(4)]);
}
