//! The text of an instruction tells which instruction it is.

use vstd::prelude::*;

use crate::bytecode::disassembler::{
    instruction_text, joined_operands, mnemonic, operand_text,
};
use crate::bytecode::instruction::{
    field_count_byte,
    OP_ADD, OP_ADD_INT, OP_ARRAY_GET, OP_ARRAY_NEW, OP_ARRAY_SET, OP_CALL_EXTENSION,
    OP_CALL_FUNCTION, OP_CALL_VALUE, OP_DIV, OP_DIV_INT, OP_EQUAL, OP_FIELD_GET, OP_FIELD_SET,
    OP_GREATER, OP_GREATER_EQUAL, OP_GREATER_EQUAL_INT, OP_GREATER_INT, OP_INDEX_GET, OP_INDEX_SET,
    OP_JUMP, OP_JUMP_IF_FALSE, OP_JUMP_IF_TRUE, OP_LESS, OP_LESS_EQUAL, OP_LESS_EQUAL_INT,
    OP_LESS_INT, OP_LOAD_CAPTURE, OP_LOAD_CAPTURE_CELL, OP_LOAD_CONST, OP_LOAD_STRING,
    OP_LOAD_UPVALUE, OP_MAKE_CLOSURE, OP_MAKE_UPVALUE, OP_MAP_NEW, OP_MOVE, OP_MUL, OP_MUL_INT,
    OP_NOT, OP_NOT_EQUAL, OP_POP_HANDLER, OP_PUSH_HANDLER, OP_RECORD_NEW, OP_RETURN,
    OP_STORE_CAPTURE, OP_STORE_UPVALUE, OP_SUB, OP_SUB_INT, OP_THROW, Instruction, InstructionView,
    Operand,
};
use crate::bytecode::layout::{kind_of, kinds_of, layout};
use crate::text::{decimal, lemma_decimal_digits, lemma_decimal_injective, pad_right};

verus! {

// ---------------------------------------------------------------------------
// Opcodes
// ---------------------------------------------------------------------------

/// The opcode of an instruction, told from the first characters of its text.
pub open spec fn named_opcode(text: Seq<char>) -> u8 {
    if text[2] == 'a' {
        if text[5] == 'a' {
            if text[11] == ' ' {
                OP_LOAD_CAPTURE
            } else {
                OP_LOAD_CAPTURE_CELL
            }
        } else if text[5] == 'o' {
            OP_LOAD_CONST
        } else if text[5] == 'p' {
            OP_LOAD_UPVALUE
        } else {
            OP_LOAD_STRING
        }
    } else if text[2] == 'b' {
        if text[3] == ' ' {
            OP_SUB
        } else {
            OP_SUB_INT
        }
    } else if text[2] == 'c' {
        OP_RECORD_NEW
    } else if text[2] == 'd' {
        if text[5] == ' ' {
            OP_ADD
        } else if text[5] == 'G' {
            OP_INDEX_GET
        } else if text[5] == 'S' {
            OP_INDEX_SET
        } else {
            OP_ADD_INT
        }
    } else if text[2] == 'e' {
        if text[7] == ' ' {
            OP_GREATER
        } else if text[7] == 'E' {
            if text[12] == ' ' {
                OP_GREATER_EQUAL
            } else {
                OP_GREATER_EQUAL_INT
            }
        } else if text[7] == 'I' {
            OP_GREATER_INT
        } else {
            if text[5] == 'G' {
                OP_FIELD_GET
            } else {
                OP_FIELD_SET
            }
        }
    } else if text[2] == 'k' {
        if text[4] == 'C' {
            OP_MAKE_CLOSURE
        } else {
            OP_MAKE_UPVALUE
        }
    } else if text[2] == 'l' {
        if text[4] == ' ' {
            OP_MUL
        } else if text[4] == 'E' {
            OP_CALL_EXTENSION
        } else if text[4] == 'F' {
            OP_CALL_FUNCTION
        } else if text[4] == 'V' {
            OP_CALL_VALUE
        } else {
            OP_MUL_INT
        }
    } else if text[2] == 'm' {
        if text[6] == ' ' {
            OP_JUMP
        } else if text[6] == 'F' {
            OP_JUMP_IF_FALSE
        } else {
            OP_JUMP_IF_TRUE
        }
    } else if text[2] == 'o' {
        if text[5] == 'C' {
            OP_STORE_CAPTURE
        } else {
            OP_STORE_UPVALUE
        }
    } else if text[2] == 'p' {
        if text[0] == 'M' {
            OP_MAP_NEW
        } else {
            OP_POP_HANDLER
        }
    } else if text[2] == 'r' {
        if text[5] == ' ' {
            OP_THROW
        } else if text[5] == 'G' {
            OP_ARRAY_GET
        } else if text[5] == 'N' {
            OP_ARRAY_NEW
        } else {
            OP_ARRAY_SET
        }
    } else if text[2] == 's' {
        if text[4] == ' ' {
            OP_LESS
        } else if text[4] == 'E' {
            if text[9] == ' ' {
                OP_LESS_EQUAL
            } else {
                OP_LESS_EQUAL_INT
            }
        } else if text[4] == 'H' {
            OP_PUSH_HANDLER
        } else {
            OP_LESS_INT
        }
    } else if text[2] == 't' {
        if text[3] == ' ' {
            OP_NOT
        } else if text[3] == 'E' {
            OP_NOT_EQUAL
        } else {
            OP_RETURN
        }
    } else if text[2] == 'u' {
        OP_EQUAL
    } else {
        if text[3] == ' ' {
            OP_DIV
        } else if text[3] == 'I' {
            OP_DIV_INT
        } else {
            OP_MOVE
        }
    }
}

/// Whether the fixed operands of an instruction are those that its opcode calls for, and what
/// follows those of a record are the names of its fields, all of them counted.
pub open spec fn formed(v: InstructionView) -> bool {
    match layout(v.opcode) {
        Some(kinds) => if v.opcode == OP_RECORD_NEW {
            &&& v.operands.len() >= 3
            &&& kinds_of(v.operands.take(3)) == kinds
            &&& v.operands[2] == Operand::Count(field_count_byte((v.operands.len() - 3) as nat))
            &&& forall|i: int| 3 <= i < v.operands.len() ==> #[trigger] v.operands[i] is Text
        } else {
            kinds_of(v.operands) == kinds
        },
        None => false,
    }
}

proof fn lemma_formed(instruction: Instruction)
    ensures
        formed(instruction@),
{
    let v = instruction@;
    match instruction {
        Instruction::RecordNew { .. } => {
            assert(kinds_of(v.operands.take(3)) =~= layout(v.opcode)->0);
        },
        _ => {
            assert(kinds_of(v.operands) =~= layout(v.opcode)->0);
        },
    }
}

/// The text of an instruction behind its mnemonic.
pub open spec fn operands_text(v: InstructionView) -> Seq<char> {
    if v.opcode == OP_RECORD_NEW {
        joined_operands(v.operands.take(2)) + ", ["@ + joined_operands(v.operands.skip(3)) + "]"@
    } else {
        joined_operands(v.operands)
    }
}

proof fn lemma_text_parts(v: InstructionView)
    requires
        v.opcode != OP_POP_HANDLER,
    ensures
        instruction_text(v) == pad_right(mnemonic(v.opcode), 11) + " "@ + operands_text(v),
{
    if v.opcode == OP_RECORD_NEW {
        assert(instruction_text(v) =~= pad_right(mnemonic(v.opcode), 11) + " "@ + operands_text(v));
    }
}

proof fn lemma_column(name: Seq<char>, rest: Seq<char>)
    ensures
        ({
            let text = pad_right(name, 11) + " "@ + rest;
            &&& forall|k: int| 0 <= k < name.len() ==> #[trigger] text[k] == name[k]
            &&& forall|k: int|
                name.len() <= k < 12 || k == name.len() ==> #[trigger] text[k] == ' '
        }),
{
    reveal_strlit(" ");
}

#[verifier::rlimit(60)]
proof fn lemma_named(v: InstructionView)
    requires
        layout(v.opcode) is Some,
    ensures
        named_opcode(instruction_text(v)) == v.opcode,
{
    if v.opcode != OP_POP_HANDLER {
        lemma_text_parts(v);
        lemma_column(mnemonic(v.opcode), operands_text(v));
    }
    if v.opcode == OP_LOAD_CONST {
        reveal_strlit("LoadConst");
    } else if v.opcode == OP_LOAD_STRING {
        reveal_strlit("LoadString");
    } else if v.opcode == OP_MOVE {
        reveal_strlit("Move");
    } else if v.opcode == OP_ADD {
        reveal_strlit("Add");
    } else if v.opcode == OP_ADD_INT {
        reveal_strlit("AddInt");
    } else if v.opcode == OP_SUB {
        reveal_strlit("Sub");
    } else if v.opcode == OP_SUB_INT {
        reveal_strlit("SubInt");
    } else if v.opcode == OP_MUL {
        reveal_strlit("Mul");
    } else if v.opcode == OP_MUL_INT {
        reveal_strlit("MulInt");
    } else if v.opcode == OP_DIV {
        reveal_strlit("Div");
    } else if v.opcode == OP_DIV_INT {
        reveal_strlit("DivInt");
    } else if v.opcode == OP_JUMP {
        reveal_strlit("Jump");
    } else if v.opcode == OP_JUMP_IF_FALSE {
        reveal_strlit("JumpIfFalse");
    } else if v.opcode == OP_JUMP_IF_TRUE {
        reveal_strlit("JumpIfTrue");
    } else if v.opcode == OP_EQUAL {
        reveal_strlit("Equal");
    } else if v.opcode == OP_NOT_EQUAL {
        reveal_strlit("NotEqual");
    } else if v.opcode == OP_LESS {
        reveal_strlit("Less");
    } else if v.opcode == OP_LESS_INT {
        reveal_strlit("LessInt");
    } else if v.opcode == OP_LESS_EQUAL {
        reveal_strlit("LessEqual");
    } else if v.opcode == OP_LESS_EQUAL_INT {
        reveal_strlit("LessEqualInt");
    } else if v.opcode == OP_GREATER {
        reveal_strlit("Greater");
    } else if v.opcode == OP_GREATER_INT {
        reveal_strlit("GreaterInt");
    } else if v.opcode == OP_GREATER_EQUAL {
        reveal_strlit("GreaterEqual");
    } else if v.opcode == OP_GREATER_EQUAL_INT {
        reveal_strlit("GreaterEqualInt");
    } else if v.opcode == OP_NOT {
        reveal_strlit("Not");
    } else if v.opcode == OP_CALL_FUNCTION {
        reveal_strlit("CallFunction");
    } else if v.opcode == OP_MAKE_UPVALUE {
        reveal_strlit("MakeUpvalue");
    } else if v.opcode == OP_LOAD_UPVALUE {
        reveal_strlit("LoadUpvalue");
    } else if v.opcode == OP_STORE_UPVALUE {
        reveal_strlit("StoreUpvalue");
    } else if v.opcode == OP_MAKE_CLOSURE {
        reveal_strlit("MakeClosure");
    } else if v.opcode == OP_LOAD_CAPTURE {
        reveal_strlit("LoadCapture");
    } else if v.opcode == OP_LOAD_CAPTURE_CELL {
        reveal_strlit("LoadCaptureCell");
    } else if v.opcode == OP_STORE_CAPTURE {
        reveal_strlit("StoreCapture");
    } else if v.opcode == OP_CALL_VALUE {
        reveal_strlit("CallValue");
    } else if v.opcode == OP_CALL_EXTENSION {
        reveal_strlit("CallExtension");
    } else if v.opcode == OP_ARRAY_NEW {
        reveal_strlit("ArrayNew");
    } else if v.opcode == OP_MAP_NEW {
        reveal_strlit("MapNew");
    } else if v.opcode == OP_RECORD_NEW {
        reveal_strlit("RecordNew");
    } else if v.opcode == OP_INDEX_GET {
        reveal_strlit("IndexGet");
    } else if v.opcode == OP_INDEX_SET {
        reveal_strlit("IndexSet");
    } else if v.opcode == OP_ARRAY_GET {
        reveal_strlit("ArrayGet");
    } else if v.opcode == OP_ARRAY_SET {
        reveal_strlit("ArraySet");
    } else if v.opcode == OP_FIELD_GET {
        reveal_strlit("FieldGet");
    } else if v.opcode == OP_FIELD_SET {
        reveal_strlit("FieldSet");
    } else if v.opcode == OP_PUSH_HANDLER {
        reveal_strlit("PushHandler");
    } else if v.opcode == OP_POP_HANDLER {
        reveal_strlit("PopHandler");
    } else if v.opcode == OP_THROW {
        reveal_strlit("Throw");
    } else if v.opcode == OP_RETURN {
        reveal_strlit("Return");
    }
}

// ---------------------------------------------------------------------------
// Operands
// ---------------------------------------------------------------------------

/// Whether a character occurs.
pub open spec fn occurs(c: char, s: Seq<char>) -> bool {
    exists|i: int| 0 <= i < s.len() && #[trigger] s[i] == c
}

proof fn lemma_first_split(a: Seq<char>, b: Seq<char>, x: Seq<char>, y: Seq<char>, c: char)
    requires
        a + seq![c] + x == b + seq![c] + y,
        !occurs(c, a),
        !occurs(c, b),
    ensures
        a == b,
        x == y,
{
    let s = a + seq![c] + x;
    let t = b + seq![c] + y;
    assert(s[a.len() as int] == c && t[b.len() as int] == c);
    if a.len() < b.len() {
        assert(b[a.len() as int] == c);
    }
    if b.len() < a.len() {
        assert(a[b.len() as int] == c);
    }
    assert(a =~= s.take(a.len() as int));
    assert(b =~= t.take(b.len() as int));
    assert(x =~= s.skip(a.len() as int + 1));
    assert(y =~= t.skip(b.len() as int + 1));
}

proof fn lemma_last_split(a: Seq<char>, b: Seq<char>, x: Seq<char>, y: Seq<char>, c: char)
    requires
        a + seq![c] + x == b + seq![c] + y,
        !occurs(c, x),
        !occurs(c, y),
    ensures
        a == b,
        x == y,
{
    let s = a + seq![c] + x;
    let t = b + seq![c] + y;
    assert(s.len() == t.len());
    assert(s[a.len() as int] == c && t[b.len() as int] == c);
    if a.len() < b.len() {
        assert(s[b.len() as int] == x[b.len() - a.len() - 1]);
    }
    if b.len() < a.len() {
        assert(t[a.len() as int] == y[a.len() - b.len() - 1]);
    }
    assert(a =~= s.take(a.len() as int));
    assert(b =~= t.take(b.len() as int));
    assert(x =~= s.skip(a.len() as int + 1));
    assert(y =~= t.skip(b.len() as int + 1));
}

/// The number of an operand.
pub open spec fn operand_number(operand: Operand) -> nat {
    match operand {
        Operand::Register(r) => r.0 as nat,
        Operand::Constant(c) => c.0 as nat,
        Operand::Text(s) => s.0 as nat,
        Operand::Function(f) => f.0 as nat,
        Operand::Target(t) => t.0 as nat,
        Operand::Capture(c) => c.0 as nat,
        Operand::Count(n) => n as nat,
    }
}

/// What stands before the number of an operand.
pub open spec fn operand_mark(operand: Operand) -> Seq<char> {
    match operand {
        Operand::Register(_) => "r"@,
        Operand::Constant(_) => "#"@,
        Operand::Text(_) => "str#"@,
        Operand::Function(_) => "fn#"@,
        Operand::Target(_) => "@"@,
        Operand::Capture(_) => "cap#"@,
        Operand::Count(_) => Seq::empty(),
    }
}

proof fn lemma_operand_text(operand: Operand)
    ensures
        operand_text(operand) == operand_mark(operand) + decimal(operand_number(operand)),
        operand_text(operand).len() > 0,
        !occurs(',', operand_text(operand)),
        !occurs('[', operand_text(operand)),
{
    reveal_strlit("r");
    reveal_strlit("#");
    reveal_strlit("str#");
    reveal_strlit("fn#");
    reveal_strlit("@");
    reveal_strlit("cap#");
    lemma_decimal_digits(operand_number(operand));
    assert(operand_text(operand) =~= operand_mark(operand) + decimal(operand_number(operand)));
    let text = operand_text(operand);
    let mark = operand_mark(operand);
    assert forall|i: int| 0 <= i < text.len() implies text[i] != ',' && text[i] != '[' by {
        if i >= mark.len() {
            assert(text[i] == decimal(operand_number(operand))[i - mark.len()]);
        } else {
            assert(i == 0 || i == 1 || i == 2 || i == 3);
        }
    }
}

proof fn lemma_operand_told(a: Operand, b: Operand)
    requires
        kind_of(a) == kind_of(b),
        operand_text(a) == operand_text(b),
    ensures
        a == b,
{
    lemma_operand_text(a);
    lemma_operand_text(b);
    let mark = operand_mark(a);
    assert(decimal(operand_number(a)) =~= operand_text(a).skip(mark.len() as int));
    assert(decimal(operand_number(b)) =~= operand_text(b).skip(mark.len() as int));
    lemma_decimal_injective(operand_number(a), operand_number(b));
}

proof fn lemma_joined(operands: Seq<Operand>)
    ensures
        operands.len() > 0 ==> joined_operands(operands).len() > 0,
        operands.len() > 1 ==> occurs(',', joined_operands(operands)),
        operands.len() > 1 ==> joined_operands(operands) == joined_operands(operands.drop_last())
            + seq![','] + (seq![' '] + operand_text(operands.last())),
        !occurs('[', joined_operands(operands)),
    decreases operands.len(),
{
    reveal_strlit(", ");
    let text = joined_operands(operands);
    if operands.len() > 0 {
        lemma_operand_text(operands.last());
    }
    if operands.len() > 1 {
        lemma_joined(operands.drop_last());
        let front = joined_operands(operands.drop_last());
        let last = operand_text(operands.last());
        assert(text =~= front + seq![','] + (seq![' '] + last));
        assert(text[front.len() as int] == ',');
        assert forall|i: int| 0 <= i < text.len() implies text[i] != '[' by {
            if i < front.len() {
                assert(front[i] == text[i]);
            } else if i >= front.len() + 2 {
                assert(last[i - front.len() - 2] == text[i]);
            }
        }
    }
}

proof fn lemma_operands_told(a: Seq<Operand>, b: Seq<Operand>)
    requires
        joined_operands(a) == joined_operands(b),
        kinds_of(a) == kinds_of(b) || {
            &&& forall|i: int| 0 <= i < a.len() ==> #[trigger] a[i] is Text
            &&& forall|i: int| 0 <= i < b.len() ==> #[trigger] b[i] is Text
        },
    ensures
        a == b,
    decreases a.len(),
{
    lemma_joined(a);
    lemma_joined(b);
    if kinds_of(a) == kinds_of(b) {
        assert(kinds_of(a).len() == kinds_of(b).len());
    }
    if a.len() > 0 && b.len() > 0 {
        lemma_operand_text(a.last());
        lemma_operand_text(b.last());
        assert(kind_of(a.last()) == kind_of(b.last())) by {
            if kinds_of(a) == kinds_of(b) {
                assert(kinds_of(a)[a.len() - 1] == kinds_of(b)[a.len() - 1]);
            }
        }
        if a.len() > 1 && b.len() > 1 {
            let x = seq![' '] + operand_text(a.last());
            let y = seq![' '] + operand_text(b.last());
            assert(!occurs(',', x)) by {
                assert forall|i: int| 0 <= i < x.len() implies x[i] != ',' by {
                    if i > 0 {
                        assert(operand_text(a.last())[i - 1] == x[i]);
                    }
                }
            }
            assert(!occurs(',', y)) by {
                assert forall|i: int| 0 <= i < y.len() implies y[i] != ',' by {
                    if i > 0 {
                        assert(operand_text(b.last())[i - 1] == y[i]);
                    }
                }
            }
            lemma_last_split(
                joined_operands(a.drop_last()),
                joined_operands(b.drop_last()),
                x,
                y,
                ',',
            );
            assert(operand_text(a.last()) =~= x.skip(1));
            assert(operand_text(b.last()) =~= y.skip(1));
            assert(kinds_of(a) == kinds_of(b) ==> kinds_of(a.drop_last()) == kinds_of(
                b.drop_last(),
            )) by {
                if kinds_of(a) == kinds_of(b) {
                    assert(kinds_of(a.drop_last()) =~= kinds_of(a).drop_last());
                    assert(kinds_of(b.drop_last()) =~= kinds_of(b).drop_last());
                }
            }
            lemma_operands_told(a.drop_last(), b.drop_last());
        }
        lemma_operand_told(a.last(), b.last());
        assert(a =~= a.drop_last().push(a.last()));
        assert(b =~= b.drop_last().push(b.last()));
        if a.len() == 1 {
            assert(a.drop_last() =~= b.drop_last());
        }
    } else {
        assert(a =~= b);
    }
}

proof fn lemma_record_told(a: InstructionView, b: InstructionView)
    requires
        formed(a),
        formed(b),
        a.opcode == OP_RECORD_NEW,
        b.opcode == OP_RECORD_NEW,
        operands_text(a) == operands_text(b),
    ensures
        a.operands == b.operands,
{
    reveal_strlit(", [");
    reveal_strlit("]");
    let (p, q) = (joined_operands(a.operands.take(2)), joined_operands(b.operands.take(2)));
    let (f, g) = (joined_operands(a.operands.skip(3)), joined_operands(b.operands.skip(3)));
    lemma_joined(a.operands.take(2));
    lemma_joined(b.operands.take(2));
    let (left, right) = (p + seq![',', ' '], q + seq![',', ' ']);
    assert(operands_text(a) =~= left + seq!['['] + (f + seq![']']));
    assert(operands_text(b) =~= right + seq!['['] + (g + seq![']']));
    assert forall|i: int| 0 <= i < left.len() implies left[i] != '[' by {
        if i < p.len() {
            assert(p[i] == left[i]);
        }
    }
    assert forall|i: int| 0 <= i < right.len() implies right[i] != '[' by {
        if i < q.len() {
            assert(q[i] == right[i]);
        }
    }
    lemma_first_split(left, right, f + seq![']'], g + seq![']'], '[');
    assert(p =~= left.drop_last().drop_last());
    assert(q =~= right.drop_last().drop_last());
    assert(f =~= (f + seq![']']).drop_last());
    assert(g =~= (g + seq![']']).drop_last());
    assert(kinds_of(a.operands.take(2)) =~= kinds_of(a.operands.take(3)).take(2));
    assert(kinds_of(b.operands.take(2)) =~= kinds_of(b.operands.take(3)).take(2));
    lemma_operands_told(a.operands.take(2), b.operands.take(2));
    lemma_operands_told(a.operands.skip(3), b.operands.skip(3));
    assert(a.operands.len() == 3 + a.operands.skip(3).len());
    assert(b.operands.len() == 3 + b.operands.skip(3).len());
    assert(a.operands =~= a.operands.take(2).push(a.operands[2]) + a.operands.skip(3));
    assert(b.operands =~= b.operands.take(2).push(b.operands[2]) + b.operands.skip(3));
}

/// Different instructions have different texts: the text of an instruction tells its opcode and
/// its operands.
pub proof fn instruction_texts_differ(a: Instruction, b: Instruction)
    ensures
        instruction_text(a@) == instruction_text(b@) <==> a@ == b@,
{
    let (v, w) = (a@, b@);
    if instruction_text(v) == instruction_text(w) {
        lemma_formed(a);
        lemma_formed(b);
        lemma_named(v);
        lemma_named(w);
        if v.opcode == OP_POP_HANDLER {
            assert(kinds_of(v.operands).len() == 0 && kinds_of(w.operands).len() == 0);
            assert(v.operands =~= w.operands);
        } else {
            let head = pad_right(mnemonic(v.opcode), 11) + " "@;
            lemma_text_parts(v);
            lemma_text_parts(w);
            assert(operands_text(v) =~= instruction_text(v).skip(head.len() as int));
            assert(operands_text(w) =~= instruction_text(w).skip(head.len() as int));
            if v.opcode == OP_RECORD_NEW {
                lemma_record_told(v, w);
            } else {
                lemma_operands_told(v.operands, w.operands);
            }
        }
    }
}

} // verus!
