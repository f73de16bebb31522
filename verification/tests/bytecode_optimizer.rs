//! Tests for verifier-safe bytecode optimization rewrites.

use ferrix::{
    Value,
    bytecode::{
        Chunk, ConstId, Instruction, JumpTarget, Register, StructuralVerifier, optimize_chunk,
    },
};

#[test]
fn folds_constant_integer_arithmetic() {
    let mut chunk = Chunk::new("fold", 3);
    let forty = chunk.add_constant(Value::Int(40)).unwrap();
    let two = chunk.add_constant(Value::Int(2)).unwrap();
    chunk.push_instruction(Instruction::LoadConst {
        dst: Register(0),
        constant: forty,
    });
    chunk.push_instruction(Instruction::LoadConst {
        dst: Register(1),
        constant: two,
    });
    chunk.push_instruction(Instruction::Add {
        dst: Register(2),
        lhs: Register(0),
        rhs: Register(1),
    });
    chunk.push_instruction(Instruction::Return { src: Register(2) });

    let optimized = optimize_chunk(chunk);

    assert!(matches!(
        optimized.instructions[2],
        Instruction::LoadConst {
            dst: Register(2),
            ..
        }
    ));
    let Instruction::LoadConst { constant, .. } = optimized.instructions[2] else {
        unreachable!("asserted load const");
    };
    assert_eq!(optimized.constants[usize::from(constant.0)], Value::Int(42));
    StructuralVerifier::verify(optimized).unwrap();
}

#[test]
fn removes_redundant_moves_and_unreachable_instructions() {
    let mut chunk = Chunk::new("compact", 1);
    let value = chunk.add_constant(Value::Int(42)).unwrap();
    chunk.push_instruction(Instruction::LoadConst {
        dst: Register(0),
        constant: value,
    });
    chunk.push_instruction(Instruction::Move {
        dst: Register(0),
        src: Register(0),
    });
    chunk.push_instruction(Instruction::Jump {
        target: JumpTarget(5),
    });
    chunk.push_instruction(Instruction::LoadConst {
        dst: Register(0),
        constant: value,
    });
    chunk.push_instruction(Instruction::Return { src: Register(0) });
    chunk.push_instruction(Instruction::Return { src: Register(0) });

    let optimized = optimize_chunk(chunk);

    assert_eq!(
        optimized.instructions,
        vec![
            Instruction::LoadConst {
                dst: Register(0),
                constant: value,
            },
            Instruction::Jump {
                target: JumpTarget(2),
            },
            Instruction::Return { src: Register(0) },
        ]
    );
    StructuralVerifier::verify(optimized).unwrap();
}

#[test]
fn collapses_jump_to_jump_chains() {
    let mut chunk = Chunk::new("jumps", 1);
    let value = chunk.add_constant(Value::Int(42)).unwrap();
    chunk.push_instruction(Instruction::Jump {
        target: JumpTarget(1),
    });
    chunk.push_instruction(Instruction::Jump {
        target: JumpTarget(2),
    });
    chunk.push_instruction(Instruction::LoadConst {
        dst: Register(0),
        constant: value,
    });
    chunk.push_instruction(Instruction::Return { src: Register(0) });

    let optimized = optimize_chunk(chunk);

    assert!(matches!(
        optimized.instructions[0],
        Instruction::Jump {
            target: JumpTarget(1)
        }
    ));
    StructuralVerifier::verify(optimized).unwrap();
}

/// Loads two constants, compares them for equality and returns the result.
fn comparison(a: Value, b: Value) -> Chunk {
    let mut chunk = Chunk::new("compare", 3);
    chunk.constants = vec![a, b];
    for i in 0..2 {
        chunk.push_instruction(Instruction::LoadConst {
            dst: Register(i),
            constant: ConstId(u16::from(i)),
        });
    }
    chunk.push_instruction(Instruction::Equal {
        dst: Register(2),
        lhs: Register(0),
        rhs: Register(1),
    });
    chunk.push_instruction(Instruction::Return { src: Register(2) });
    chunk
}

fn folded(chunk: Chunk) -> Value {
    let optimized = optimize_chunk(chunk);
    let Instruction::LoadConst { constant, .. } = optimized.instructions[2] else {
        panic!("a folded comparison");
    };
    optimized.constants[usize::from(constant.0)]
}

#[test]
fn floats_are_compared_bit_by_bit() {
    let float = |number: f64| Value::Float(number.to_bits());
    assert_eq!(
        folded(comparison(float(0.0), float(-0.0))),
        Value::Bool(false)
    );
    assert_eq!(
        folded(comparison(float(1.5), float(1.5))),
        Value::Bool(true)
    );
    assert_eq!(
        folded(comparison(float(f64::NAN), float(f64::NAN))),
        Value::Bool(true)
    );
    assert_eq!(
        folded(comparison(Value::Int(1), Value::Bool(true))),
        Value::Bool(false)
    );
}

#[test]
fn failing_arithmetic_is_not_folded() {
    for (lhs, rhs) in [(1, 0), (i64::MIN, -1)] {
        let mut chunk = Chunk::new("div", 3);
        chunk.constants = vec![Value::Int(lhs), Value::Int(rhs)];
        for i in 0..2 {
            chunk.push_instruction(Instruction::LoadConst {
                dst: Register(i),
                constant: ConstId(u16::from(i)),
            });
        }
        chunk.push_instruction(Instruction::Div {
            dst: Register(2),
            lhs: Register(0),
            rhs: Register(1),
        });
        chunk.push_instruction(Instruction::Return { src: Register(2) });
        let optimized = optimize_chunk(chunk);
        assert!(!matches!(
            optimized.instructions[2],
            Instruction::LoadConst { .. }
        ));
        StructuralVerifier::check(&optimized).unwrap();
    }
}

#[test]
fn optimized_chunks_stay_valid() {
    let mut chunk = Chunk::new("loop", 1);
    chunk.push_instruction(Instruction::Jump {
        target: JumpTarget(0),
    });
    chunk.push_instruction(Instruction::Return { src: Register(0) });
    StructuralVerifier::check(&chunk).unwrap();
    chunk.push_instruction(Instruction::Return { src: Register(0) });
    let optimized = optimize_chunk(chunk);
    assert_eq!(
        optimized.instructions,
        [
            Instruction::Jump {
                target: JumpTarget(0),
            },
            Instruction::Return { src: Register(0) },
        ]
    );
    StructuralVerifier::check(&optimized).unwrap();
}
