//! Tests of what the library guarantees across its functions, on concrete values.

use ferrix::{
    assembler::Assembler,
    bytecode::{
        decode_container, decode_program, encode_container, encode_program, format_instruction,
        optimize_chunk, BytecodeDecodeError, Chunk, ConstId, Instruction, JumpTarget, Register,
        StringId, VerifiedProgram,
    },
    compiler::{
        ast::{Expr, Stmt},
        compile_source,
        lexer::{lex, TokenKind},
        parse_source_with_file_id,
    },
    diagnostics::{FileId, SourceManager, SourceSpan},
};

fn program() -> VerifiedProgram {
    compile_source("fn add(a, b) { return a + b; } return add(40, 2);").unwrap()
}

#[test]
fn different_instructions_have_different_texts() {
    let r = Register;
    let instructions = [
        Instruction::PopHandler,
        Instruction::Return { src: r(1) },
        Instruction::Throw { src: r(1) },
        Instruction::Move { dst: r(1), src: r(2) },
        Instruction::Move { dst: r(12), src: r(2) },
        Instruction::Move { dst: r(1), src: r(22) },
        Instruction::Not { dst: r(1), src: r(2) },
        Instruction::LoadConst {
            dst: r(1),
            constant: ConstId(2),
        },
        Instruction::GreaterEqual {
            dst: r(1),
            lhs: r(2),
            rhs: r(3),
        },
        Instruction::GreaterEqualInt {
            dst: r(1),
            lhs: r(2),
            rhs: r(3),
        },
        Instruction::RecordNew {
            dst: r(0),
            fields_start: r(1),
            fields: vec![],
        },
        Instruction::RecordNew {
            dst: r(0),
            fields_start: r(1),
            fields: vec![StringId(1), StringId(2)],
        },
        Instruction::RecordNew {
            dst: r(0),
            fields_start: r(1),
            fields: vec![StringId(12)],
        },
    ];
    for a in &instructions {
        for b in &instructions {
            assert_eq!(format_instruction(a) == format_instruction(b), a == b);
        }
    }
}

#[test]
fn programs_that_are_cut_short_end_too_early() {
    let bytes = encode_program(program().as_program()).unwrap();
    decode_program(&bytes).unwrap();
    for n in 0..bytes.len() {
        assert_eq!(
            decode_program(&bytes[..n]).unwrap_err(),
            BytecodeDecodeError::UnexpectedEof
        );
    }
}

#[test]
fn bytes_behind_a_program_are_counted() {
    let mut bytes = encode_program(program().as_program()).unwrap();
    for count in 1..4 {
        bytes.push(7);
        assert_eq!(
            decode_program(&bytes).unwrap_err(),
            BytecodeDecodeError::TrailingBytes { count }
        );
    }
}

#[test]
fn every_damaged_byte_of_a_payload_is_noticed() {
    let bytes = encode_container(program().as_program(), None).unwrap();
    let container = decode_container(&bytes).unwrap();
    let section = &container.sections[0];
    for i in section.offset..section.offset + section.len {
        let mut damaged = bytes.clone();
        damaged[i] ^= 0x40;
        match decode_container(&damaged).unwrap_err() {
            BytecodeDecodeError::ChecksumMismatch { expected, actual } => {
                assert_ne!(expected, actual)
            }
            error => panic!("{error:?}"),
        }
    }
}

fn jump(target: u32) -> Instruction {
    Instruction::Jump {
        target: JumpTarget(target),
    }
}

#[test]
fn jumps_go_to_the_end_of_their_chain() {
    let branch = |target| Instruction::JumpIfTrue {
        condition: Register(0),
        target: JumpTarget(target),
    };
    let mut chunk = Chunk::new("chain", 1);
    for instruction in [
        branch(2),
        Instruction::Return { src: Register(0) },
        jump(3),
        jump(4),
        Instruction::Throw { src: Register(0) },
    ] {
        chunk.push_instruction(instruction);
    }
    let optimized = optimize_chunk(chunk);
    assert_eq!(optimized.instructions[0], branch(2));
    assert_eq!(
        optimized.instructions[2],
        Instruction::Throw { src: Register(0) }
    );

    let mut circle = Chunk::new("circle", 1);
    for instruction in [
        branch(2),
        Instruction::Return { src: Register(0) },
        jump(3),
        jump(4),
        jump(3),
    ] {
        circle.push_instruction(instruction);
    }
    assert_eq!(
        optimize_chunk(circle).instructions,
        [
            branch(2),
            Instruction::Return { src: Register(0) },
            jump(3),
            jump(2),
        ]
    );
}

const SOURCE: &str = "import util.math;\nfn f(a, _b2) { if (a <= 10) { return \"é\\n\"; } else { a = [1, nil]; } }\nlet x = f(1, true) + 2 * -0;";

#[test]
fn tokens_are_the_same_when_they_stand_alone() {
    let source = SOURCE.replace("-0", "3");
    for token in lex(&source, FileId(3)).unwrap() {
        let word = &source[token.span.start..token.span.end];
        let alone = lex(word, FileId(3)).unwrap();
        if token.kind == TokenKind::Eof {
            assert_eq!(alone.len(), 1);
            continue;
        }
        assert_eq!(alone.len(), 2);
        assert_eq!(alone[0].kind, token.kind);
        assert_eq!(
            alone[0].span,
            SourceSpan::new(FileId(3), 0, word.len())
        );
        assert_eq!(alone[1].kind, TokenKind::Eof);
    }
}

#[test]
fn descriptions_name_their_tokens() {
    for token in lex(SOURCE, FileId(0)).unwrap() {
        let word = &SOURCE[token.span.start..token.span.end];
        let expected = match &token.kind {
            TokenKind::Identifier(name) => format!("identifier `{name}`"),
            TokenKind::Integer(value) => format!("integer `{value}`"),
            TokenKind::String(_) => "string literal".to_string(),
            TokenKind::Eof => "end of file".to_string(),
            _ => format!("`{word}`"),
        };
        assert_eq!(token.kind.describe(), expected);
    }
}

fn span(stmt: &Stmt) -> SourceSpan {
    match stmt {
        Stmt::Import { span, .. }
        | Stmt::Let { span, .. }
        | Stmt::Function { span, .. }
        | Stmt::Assign { span, .. }
        | Stmt::IndexAssign { span, .. }
        | Stmt::Return { span, .. }
        | Stmt::If { span, .. }
        | Stmt::While { span, .. }
        | Stmt::Block { span, .. }
        | Stmt::Expr { span, .. } => *span,
    }
}

#[test]
fn statements_part_the_tokens() {
    let source = SOURCE.replace("-0", "3");
    let statements = parse_source_with_file_id(&source, FileId(1)).unwrap().statements;
    let tokens = lex(&source, FileId(1)).unwrap();
    for token in &tokens[..tokens.len() - 1] {
        let around = statements
            .iter()
            .filter(|stmt| span(stmt).start <= token.span.start && token.span.end <= span(stmt).end)
            .count();
        assert_eq!(around, 1);
    }
    for pair in statements.windows(2) {
        assert!(span(&pair[0]).end <= span(&pair[1]).start);
    }
    let Stmt::Let { initializer, .. } = &statements[2] else {
        panic!("a binding");
    };
    let Expr::Binary { lhs, rhs, .. } = initializer else {
        panic!("a sum");
    };
    assert!(span(&statements[2]).start < lhs.span().start);
    assert!(lhs.span().end < rhs.span().start);
    assert!(rhs.span().end < span(&statements[2]).end);
}

fn inside(outer: SourceSpan, expr: &Expr) {
    let span = expr.span();
    assert_eq!(span.file_id, outer.file_id);
    assert!(outer.start <= span.start && span.start <= span.end && span.end <= outer.end);
    match expr {
        Expr::Literal { .. } | Expr::Variable { .. } => {}
        Expr::Binary { lhs, rhs, .. } => {
            inside(span, lhs);
            inside(span, rhs);
        }
        Expr::Call { args, .. } => args.iter().for_each(|arg| inside(span, arg)),
        Expr::Function { body, .. } => body.iter().for_each(|stmt| inside_stmt(span, stmt)),
        Expr::Index { target, index, .. } => {
            inside(span, target);
            inside(span, index);
        }
        Expr::Array { elements, .. } => elements.iter().for_each(|item| inside(span, item)),
        Expr::MapLiteral { entries, .. } => entries.iter().for_each(|(key, value)| {
            inside(span, key);
            inside(span, value);
        }),
        Expr::Grouping { expr, .. } => inside(span, expr),
    }
}

fn inside_stmt(outer: SourceSpan, stmt: &Stmt) {
    let own = span(stmt);
    assert_eq!(own.file_id, outer.file_id);
    assert!(outer.start <= own.start && own.start <= own.end && own.end <= outer.end);
    match stmt {
        Stmt::Import { .. } => {}
        Stmt::Let { initializer, .. } => inside(own, initializer),
        Stmt::Function { body, .. } => body.iter().for_each(|stmt| inside_stmt(own, stmt)),
        Stmt::Assign { value, .. } | Stmt::Return { value, .. } | Stmt::Expr { value, .. } => {
            inside(own, value)
        }
        Stmt::IndexAssign {
            target,
            index,
            value,
            ..
        } => {
            inside(own, target);
            inside(own, index);
            inside(own, value);
        }
        Stmt::If {
            condition,
            then_branch,
            else_branch,
            ..
        } => {
            inside(own, condition);
            then_branch
                .iter()
                .chain(else_branch)
                .for_each(|stmt| inside_stmt(own, stmt));
        }
        Stmt::While {
            condition, body, ..
        } => {
            inside(own, condition);
            body.iter().for_each(|stmt| inside_stmt(own, stmt));
        }
        Stmt::Block { statements, .. } => {
            statements.iter().for_each(|stmt| inside_stmt(own, stmt))
        }
    }
}

#[test]
fn spans_lie_within_their_parents() {
    let source = "export let x = fn(a) { return { \"k\": [a, (a + 1) * 2] }; };\nfn f() { while (x < 2) { y.z[1] = g(1, x)[0]; { x = 3; } } if (true) { f(); } else { return nil; } }\n";
    let file = SourceSpan::new(FileId(4), 0, source.len());
    let statements = parse_source_with_file_id(source, FileId(4)).unwrap().statements;
    assert_eq!(statements.len(), 2);
    for stmt in &statements {
        inside_stmt(file, stmt);
    }
}

#[test]
fn two_texts_parse_to_the_statements_of_both() {
    let a = "let é = \"ü\";\nif (true) { return 1; }";
    let b = "fn f() { return g(1)[2]; }\nwhile (x < 3) { x = x + 1; }";
    let parse = |source: &str| {
        parse_source_with_file_id(source, FileId(0)).map(|program| program.statements)
    };
    let a = a.replace('é', "e");
    let first = parse(&a).unwrap();
    let second = parse(b).unwrap();
    let both = parse(&format!("{a}\n{b}")).unwrap();
    assert_eq!(both.len(), first.len() + second.len());
    assert_eq!(both[..first.len()], first[..]);
    for (moved, stmt) in both[first.len()..].iter().zip(&second) {
        assert_eq!(span(moved).start, span(stmt).start + a.len() + 1);
        assert_eq!(span(moved).end, span(stmt).end + a.len() + 1);
    }
    assert!(parse(&format!("{a}\nelse {{}}")).is_ok());
    assert!(parse("else {}").is_err());
}

#[test]
fn copies_are_equal() {
    let assembler = Assembler::new("copy").registers(1).integer(7);
    let copy = assembler.clone();
    assert_eq!(format!("{copy:?}"), format!("{assembler:?}"));
    let mut sources = SourceManager::new();
    sources.add_file("a.fx", "let x = 1;\nreturn x;\n");
    assert_eq!(sources.clone(), sources);
    let chunk = Chunk::new("main", 1);
    assert_eq!(chunk.clone(), chunk);
    let bytes = encode_container(program().as_program(), None).unwrap();
    let container = decode_container(&bytes).unwrap();
    assert_eq!(container.clone(), container);
}
