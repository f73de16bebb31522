//! Generated code does what its source means.

use vstd::prelude::*;

use crate::bytecode::chunk::{instruction_views, string_views, Chunk, ChunkView};
use crate::bytecode::execution::{
    combined, content, ends_with, entered, next, run, takes, Effect, Effects, Ending, State, Step,
    Test,
};
use crate::bytecode::instruction::{
    CaptureId, ConstId, FunctionId, Instruction, JumpTarget, Operand, Register, StringId,
};
use crate::bytecode::optimizer::{body, Body};
use crate::compiler::ast::{ExprView, LiteralView, StmtView};
use crate::compiler::captures::{always_return, always_returns, captured_in_stmts, free_names};
use crate::compiler::codegen::body_code;
use crate::compiler::code_laws::{
    builds_on, in_order, lemma_all_fit, lemma_begin, lemma_block, lemma_emit, lemma_entries,
    lemma_expr, lemma_fresh, lemma_into, lemma_list, lemma_load_cells, lemma_named, lemma_prefix,
    lemma_read_variable, lemma_reserve, lemma_row, lemma_stmt, lemma_stmts,
};
use crate::compiler::emitter::{
    begin, boxed_register, bytecode_function, closure_name, emit, enter, finished, fresh,
    gen_block, gen_closure, gen_entries, gen_expr, gen_into, gen_list, gen_row, gen_stmt,
    gen_stmts, known_names, load_cell, load_cells, load_literal, load_variable, named_local, nth,
    numbered, open_jump, open_jump_if_false, operation, patch_here, read_variable, reserve,
    retargeted, Emitted, FunctionIds, Gen, Local, MAX_OPERANDS,
};
use crate::compiler::error::CompileErrorView;
use crate::diagnostics::span::SourceSpan;
use crate::compiler::literal_laws::{
    lemma_begin_literals, lemma_block_literals, lemma_expr_literals, lemma_into_literals,
    lemma_stmt_literals,
};
use crate::compiler::meaning::{
    assigned, boxed_arguments, called, captured_cells, captured_with, cell_of, cells_of,
    entries_listed, evaluate, evaluate_entries, evaluate_list, execute, execute_all, execute_block,
    list_listed, listed, literal_value, literals_in, literals_in_stmts, machine_op, parameters,
    place, stmt_listed, stmts_listed, tested, tied, variable, visible, Binding, Evaluated,
    Progress, Setting,
};
use crate::value::Value;

verus! {

// ---------------------------------------------------------------------------
// The machine and its states
// ---------------------------------------------------------------------------

/// A chunk in the surroundings in which it executes; `cells` are those that its function captured.
#[verifier::reject_recursive_types(W)]
pub struct Scene<W> {
    pub body: Body,
    pub strings: Seq<Seq<char>>,
    pub cells: Seq<Value>,
    pub setting: Setting<W>,
}

/// What an instruction that is left open does.
pub open spec fn other<W>(
    e: Effects<W>,
    instruction: Instruction,
    registers: Seq<Value>,
    world: W,
) -> Effect<W> {
    (e.other)(instruction@, registers, world)
}

/// The contents of registers in a row.
pub open spec fn row(registers: Seq<Value>, start: Register, count: int) -> Seq<Value> {
    registers.subrange(start.0 as int, start.0 + count)
}

/// The machine provides the open operations of the language.
pub open spec fn provides<W>(m: Scene<W>) -> bool {
    let e = m.setting.effects;
    let o = m.setting.operations;
    &&& forall|dst: Register, string: StringId, registers: Seq<Value>, world: W|
        string.0 < m.strings.len() ==> #[trigger] other(
            e,
            Instruction::LoadString { dst, string },
            registers,
            world,
        ) == (o.text)(m.strings[string.0 as int], world)
    &&& forall|
        dst: Register,
        elements_start: Register,
        element_count: u8,
        registers: Seq<Value>,
        world: W,
    |
        elements_start.0 + element_count <= registers.len() ==> #[trigger] other(
            e,
            Instruction::ArrayNew { dst, elements_start, element_count },
            registers,
            world,
        ) == (o.array)(row(registers, elements_start, element_count as int), world)
    &&& forall|
        dst: Register,
        entries_start: Register,
        entry_count: u8,
        registers: Seq<Value>,
        world: W,
    |
        entries_start.0 + 2 * entry_count <= registers.len() ==> #[trigger] other(
            e,
            Instruction::MapNew { dst, entries_start, entry_count },
            registers,
            world,
        ) == (o.map)(row(registers, entries_start, 2 * entry_count), world)
    &&& forall|
        dst: Register,
        target: Register,
        index: Register,
        registers: Seq<Value>,
        world: W,
    | #[trigger]
        other(e, Instruction::IndexGet { dst, target, index }, registers, world) == (o.index)(
            content(registers, target),
            content(registers, index),
            world,
        )
    &&& forall|
        target: Register,
        index: Register,
        value: Register,
        registers: Seq<Value>,
        world: W,
    | #[trigger]
        other(e, Instruction::IndexSet { target, index, value }, registers, world) == (o.set_index)(
            content(registers, target),
            content(registers, index),
            content(registers, value),
            world,
        )
    &&& forall|
        dst: Register,
        function: FunctionId,
        args_start: Register,
        arg_count: u8,
        registers: Seq<Value>,
        world: W,
    |
        args_start.0 + arg_count <= registers.len() ==> #[trigger] other(
            e,
            Instruction::CallFunction { dst, function, args_start, arg_count },
            registers,
            world,
        ) == (o.call)(function, row(registers, args_start, arg_count as int), world)
    &&& forall|
        dst: Register,
        callee: Register,
        args_start: Register,
        arg_count: u8,
        registers: Seq<Value>,
        world: W,
    |
        args_start.0 + arg_count <= registers.len() ==> #[trigger] other(
            e,
            Instruction::CallValue { dst, callee, args_start, arg_count },
            registers,
            world,
        ) == (o.call_value)(
            content(registers, callee),
            row(registers, args_start, arg_count as int),
            world,
        )
    &&& provides_cells(m)
}

/// The machine provides the operations on cells and functions with cells. What a new cell holds
/// before a function that may capture it is stored in it does not show.
pub open spec fn provides_cells<W>(m: Scene<W>) -> bool {
    let e = m.setting.effects;
    let o = m.setting.operations;
    &&& forall|dst: Register, src: Register, registers: Seq<Value>, world: W| #[trigger]
        other(e, Instruction::MakeUpvalue { dst, src }, registers, world) == (o.cell)(
            content(registers, src),
            world,
        )
    &&& forall|dst: Register, upvalue: Register, registers: Seq<Value>, world: W| #[trigger]
        other(e, Instruction::LoadUpvalue { dst, upvalue }, registers, world) == (o.get)(
            content(registers, upvalue),
            world,
        )
    &&& forall|upvalue: Register, src: Register, registers: Seq<Value>, world: W| #[trigger]
        other(e, Instruction::StoreUpvalue { upvalue, src }, registers, world) == (o.set)(
            content(registers, upvalue),
            content(registers, src),
            world,
        )
    &&& forall|dst: Register, capture: CaptureId, registers: Seq<Value>, world: W|
        capture.0 < m.cells.len() ==> #[trigger] other(
            e,
            Instruction::LoadCapture { dst, capture },
            registers,
            world,
        ) == (o.get)(m.cells[capture.0 as int], world)
    &&& forall|dst: Register, capture: CaptureId, registers: Seq<Value>, world: W|
        capture.0 < m.cells.len() ==> #[trigger] other(
            e,
            Instruction::LoadCaptureCell { dst, capture },
            registers,
            world,
        ) == (Effect::Gives { value: m.cells[capture.0 as int], world })
    &&& forall|capture: CaptureId, src: Register, registers: Seq<Value>, world: W|
        capture.0 < m.cells.len() ==> #[trigger] other(
            e,
            Instruction::StoreCapture { capture, src },
            registers,
            world,
        ) == (o.set)(m.cells[capture.0 as int], content(registers, src), world)
    &&& forall|
        dst: Register,
        function: FunctionId,
        captures_start: Register,
        capture_count: u8,
        registers: Seq<Value>,
        world: W,
    |
        captures_start.0 + capture_count <= registers.len() ==> #[trigger] other(
            e,
            Instruction::MakeClosure { dst, function, captures_start, capture_count },
            registers,
            world,
        ) == (o.closure)(function, row(registers, captures_start, capture_count as int), world)
    &&& forall|first: Value, function: FunctionId, captured: spec_fn(Value) -> Seq<Value>, world: W|
        #[trigger]
        tied(first, function, captured, world, o) == tied(Value::Nil, function, captured, world, o)
}

/// Whether `n` instructions lead from one state to another.
pub open spec fn leads<W>(m: Scene<W>, s: State<W>, n: nat, t: State<W>) -> bool
    decreases n,
{
    if n == 0 {
        s == t
    } else {
        next(m.body, s, m.setting.effects) matches Step::Goes { state } && leads(
            m,
            state,
            (n - 1) as nat,
            t,
        )
    }
}

/// Whether execution from a state ends within `n` instructions in a way.
pub open spec fn ends<W>(m: Scene<W>, s: State<W>, n: nat, ending: Ending<W>) -> bool {
    run(m.body, s, m.setting.effects, n) == Some(ending)
}

proof fn lemma_leads_both<W>(
    m: Scene<W>,
    s: State<W>,
    n: nat,
    t: State<W>,
    k: nat,
    u: State<W>,
)
    requires
        leads(m, s, n, t),
        leads(m, t, k, u),
    ensures
        leads(m, s, n + k, u),
    decreases n,
{
    if n > 0 {
        if let Step::Goes { state } = next(m.body, s, m.setting.effects) {
            lemma_leads_both(m, state, (n - 1) as nat, t, k, u);
            assert((n + k - 1) as nat == (n - 1) as nat + k);
        }
    }
}

proof fn lemma_leads_to_end<W>(
    m: Scene<W>,
    s: State<W>,
    n: nat,
    t: State<W>,
    k: nat,
    ending: Ending<W>,
)
    requires
        leads(m, s, n, t),
        ends(m, t, k, ending),
    ensures
        ends(m, s, n + k, ending),
    decreases n,
{
    if n > 0 {
        if let Step::Goes { state } = next(m.body, s, m.setting.effects) {
            lemma_leads_to_end(m, state, (n - 1) as nat, t, k, ending);
            assert((n + k - 1) as nat == (n - 1) as nat + k);
        }
    }
}

/// One instruction that writes a register with the result of an operation.
proof fn lemma_takes<W>(
    m: Scene<W>,
    s: State<W>,
    n: nat,
    t: State<W>,
    dst: Option<Register>,
    effect: Effect<W>,
) -> (u: State<W>)
    requires
        leads(m, s, n, t),
        t.handlers.len() == 0,
        next(m.body, t, m.setting.effects) == takes(t, dst, effect),
        dst matches Some(register) ==> register.0 < t.registers.len(),
    ensures
        match effect {
            Effect::Gives { value, world } => {
                &&& leads(m, s, n + 1, u)
                &&& u.ip == t.ip + 1
                &&& u.handlers == t.handlers
                &&& u.world == world
                &&& u.registers == match dst {
                    Some(register) => t.registers.update(register.0 as int, value),
                    None => t.registers,
                }
            },
            Effect::Raises { value, world } => ends(
                m,
                s,
                n + 1,
                Ending::Uncaught { value, world },
            ),
        },
{
    match effect {
        Effect::Gives { value, world } => {
            let registers = match dst {
                Some(register) => t.registers.update(register.0 as int, value),
                None => t.registers,
            };
            let u = State { ip: t.ip + 1, registers, handlers: t.handlers, world };
            assert(leads(m, u, 0, u));
            assert(leads(m, t, 1, u));
            lemma_leads_both(m, s, n, t, 1, u);
            u
        },
        Effect::Raises { value, world } => {
            assert(ends(m, t, 1, Ending::Uncaught { value, world }));
            lemma_leads_to_end(m, s, n, t, 1, Ending::Uncaught { value, world });
            t
        },
    }
}

// ---------------------------------------------------------------------------
// Variables in registers
// ---------------------------------------------------------------------------

/// Every variable has a register of its own, and the generator knows which, and which variables
/// live in cells.
pub open spec fn laid_out(bindings: Seq<Binding>, layout: Seq<Register>, g: Gen) -> bool {
    &&& layout.len() == bindings.len()
    &&& forall|i: int| 0 <= i < layout.len() ==> (#[trigger] layout[i]).0 < g.next_register
    &&& forall|i: int, j: int|
        0 <= i < j < layout.len() ==> (#[trigger] layout[i]) != (#[trigger] layout[j])
    &&& forall|name: Seq<char>| #[trigger]
        g.locals.contains_key(name) <==> place(bindings, name) >= 0
    &&& forall|name: Seq<char>| #[trigger]
        g.locals.contains_key(name) ==> g.locals[name] == (Local {
            register: layout[place(bindings, name)],
            cell: bindings[place(bindings, name)].cell,
        })
}

/// The generator knows which variables live in cells and which are captured.
pub open spec fn suits<W>(m: Scene<W>, g: Gen) -> bool {
    &&& g.boxed == m.setting.boxed
    &&& forall|name: Seq<char>| #[trigger]
        g.captures.contains_key(name) <==> m.setting.captured.contains_key(name)
    &&& forall|name: Seq<char>| #[trigger]
        g.captures.contains_key(name) ==> g.captures[name].0 < m.cells.len()
            && m.cells[g.captures[name].0 as int] == m.setting.captured[name]
}

/// Variables of one name that live in a cell both or neither.
pub open spec fn alike(a: Binding, b: Binding) -> bool {
    a.name == b.name && a.cell == b.cell
}

/// The registers of the variables hold their values or their cells.
pub open spec fn filled(
    bindings: Seq<Binding>,
    layout: Seq<Register>,
    registers: Seq<Value>,
) -> bool {
    forall|i: int|
        0 <= i < bindings.len() ==> (#[trigger] layout[i]).0 < registers.len()
            && registers[layout[i].0 as int] == bindings[i].value
}

/// The code from `g` to `h` stands in the chunk, with the constants and strings before `h`.
pub open spec fn placed<W>(m: Scene<W>, g: Gen, h: Gen) -> bool {
    &&& h.code.len() <= m.body.instructions.len()
    &&& forall|i: int|
        g.code.len() <= i < h.code.len() ==> #[trigger] m.body.instructions[i] == h.code[i]
    &&& h.constants.len() <= m.body.constants.len()
    &&& forall|i: int|
        0 <= i < h.constants.len() ==> #[trigger] m.body.constants[i] == h.constants[i]
    &&& h.strings.len() <= m.strings.len()
    &&& forall|i: int| 0 <= i < h.strings.len() ==> #[trigger] m.strings[i] == h.strings[i]
}

/// Code that has been generated behind other code.
pub open spec fn extends(g: Gen, h: Gen) -> bool {
    &&& g.code.len() <= h.code.len()
    &&& h.code.take(g.code.len() as int) == g.code
    &&& g.constants.len() <= h.constants.len()
    &&& h.constants.take(g.constants.len() as int) == g.constants
    &&& g.strings.len() <= h.strings.len()
    &&& h.strings.take(g.strings.len() as int) == g.strings
    &&& g.next_register <= h.next_register
    &&& h.captures == g.captures
    &&& h.boxed == g.boxed
}

/// A state before the code from `g` to `h` is executed.
pub open spec fn ready<W>(
    m: Scene<W>,
    g: Gen,
    h: Gen,
    s: State<W>,
    bindings: Seq<Binding>,
    layout: Seq<Register>,
) -> bool {
    &&& provides(m)
    &&& in_order(g)
    &&& suits(m, g)
    &&& placed(m, g, h)
    &&& laid_out(bindings, layout, g)
    &&& filled(bindings, layout, s.registers)
    &&& s.handlers.len() == 0
    &&& s.ip == g.code.len()
    &&& h.next_register <= s.registers.len()
}

/// Registers that keep their contents: those below a limit, but for one.
pub open spec fn kept(a: Seq<Value>, b: Seq<Value>, limit: nat, but: int) -> bool {
    &&& a.len() == b.len()
    &&& forall|i: int| 0 <= i < limit && i < a.len() && i != but ==> #[trigger] a[i] == b[i]
}

/// A state behind code whose execution gives a value in a register.
pub open spec fn gave<W>(
    m: Scene<W>,
    s: State<W>,
    r: (nat, State<W>),
    end: nat,
    value: Value,
    world: W,
    dst: Register,
    limit: nat,
    but: int,
) -> bool {
    let t = r.1;
    &&& leads(m, s, r.0, t)
    &&& t.ip == end
    &&& t.handlers == s.handlers
    &&& t.world == world
    &&& kept(s.registers, t.registers, limit, but)
    &&& dst.0 < t.registers.len()
    &&& t.registers[dst.0 as int] == value
}

proof fn lemma_place(bindings: Seq<Binding>, name: Seq<char>)
    ensures
        -1 <= place(bindings, name) < bindings.len(),
        place(bindings, name) >= 0 ==> bindings[place(bindings, name)].name == name,
    decreases bindings.len(),
{
    if bindings.len() > 0 && bindings.last().name != name {
        lemma_place(bindings.drop_last(), name);
    }
}

proof fn lemma_extends_both(f: Gen, g: Gen, h: Gen)
    requires
        extends(f, g),
        extends(g, h),
    ensures
        extends(f, h),
{
    lemma_prefix(f.code, g.code, h.code);
    lemma_prefix(f.constants, g.constants, h.constants);
    lemma_prefix(f.strings, g.strings, h.strings);
}

proof fn lemma_extends_itself(g: Gen)
    ensures
        extends(g, g),
{
    assert(g.code.take(g.code.len() as int) =~= g.code);
    assert(g.constants.take(g.constants.len() as int) =~= g.constants);
    assert(g.strings.take(g.strings.len() as int) =~= g.strings);
}

proof fn lemma_extends_emitted(f: Gen, g: Gen, instruction: Instruction, span: Option<SourceSpan>)
    requires
        extends(f, g),
    ensures
        extends(f, emit(g, instruction, span)),
        extends(g, emit(g, instruction, span)),
{
    let h = emit(g, instruction, span);
    assert(h.code.take(g.code.len() as int) =~= g.code);
    assert(h.constants.take(g.constants.len() as int) =~= g.constants);
    assert(h.strings.take(g.strings.len() as int) =~= g.strings);
    lemma_extends_both(f, g, h);
}

proof fn lemma_builds_extends(g: Gen, h: Gen)
    requires
        builds_on(g, h),
    ensures
        extends(g, h),
{
}

/// The first part of some code is placed where the whole is, and so is the rest.
proof fn lemma_placed_parts<W>(m: Scene<W>, g: Gen, f: Gen, h: Gen)
    requires
        placed(m, g, h),
        extends(g, f),
        extends(f, h),
    ensures
        placed(m, g, f),
        placed(m, f, h),
{
    assert forall|i: int| g.code.len() <= i < f.code.len() implies
        #[trigger] m.body.instructions[i] == f.code[i] by {
        assert(h.code.take(f.code.len() as int)[i] == h.code[i]);
    }
    assert forall|i: int| 0 <= i < f.constants.len() implies
        #[trigger] m.body.constants[i] == f.constants[i] by {
        assert(h.constants.take(f.constants.len() as int)[i] == h.constants[i]);
    }
    assert forall|i: int| 0 <= i < f.strings.len() implies
        #[trigger] m.strings[i] == f.strings[i] by {
        assert(h.strings.take(f.strings.len() as int)[i] == h.strings[i]);
    }
}

/// The variables stay in their registers when only others are written.
proof fn lemma_still_filled(
    bindings: Seq<Binding>,
    layout: Seq<Register>,
    a: Seq<Value>,
    b: Seq<Value>,
    limit: nat,
)
    requires
        layout.len() == bindings.len(),
        filled(bindings, layout, a),
        kept(a, b, limit, -1),
        forall|i: int| 0 <= i < layout.len() ==> (#[trigger] layout[i]).0 < limit,
    ensures
        filled(bindings, layout, b),
{
}

/// The first part of some code is ready where the whole is.
proof fn lemma_ready_first<W>(
    m: Scene<W>,
    g: Gen,
    f: Gen,
    h: Gen,
    s: State<W>,
    bindings: Seq<Binding>,
    layout: Seq<Register>,
)
    requires
        ready(m, g, h, s, bindings, layout),
        extends(g, f),
        extends(f, h),
    ensures
        ready(m, g, f, s, bindings, layout),
{
    lemma_placed_parts(m, g, f, h);
}

/// The rest of some code is ready behind its first part.
proof fn lemma_ready_rest<W>(
    m: Scene<W>,
    g: Gen,
    f: Gen,
    h: Gen,
    s: State<W>,
    t: State<W>,
    bindings: Seq<Binding>,
    layout: Seq<Register>,
)
    requires
        ready(m, g, h, s, bindings, layout),
        in_order(f),
        extends(g, f),
        extends(f, h),
        f.locals == g.locals,
        t.ip == f.code.len(),
        t.handlers == s.handlers,
        t.registers.len() == s.registers.len(),
        filled(bindings, layout, t.registers),
    ensures
        ready(m, f, h, t, bindings, layout),
{
    lemma_placed_parts(m, g, f, h);
}

/// The register of a variable holds its value or its cell.
proof fn lemma_variable<W>(
    m: Scene<W>,
    g: Gen,
    h: Gen,
    s: State<W>,
    bindings: Seq<Binding>,
    layout: Seq<Register>,
    name: Seq<char>,
)
    requires
        ready(m, g, h, s, bindings, layout),
        g.locals.contains_key(name),
    ensures
        0 <= place(bindings, name) < bindings.len(),
        bindings[place(bindings, name)].name == name,
        g.locals[name].cell == bindings[place(bindings, name)].cell,
        g.locals[name].register == layout[place(bindings, name)],
        g.locals[name].register.0 < g.next_register,
        g.locals[name].register.0 < s.registers.len(),
        s.registers[g.locals[name].register.0 as int] == bindings[place(bindings, name)].value,
{
    lemma_place(bindings, name);
}

/// The code that loads a variable puts its value into a register.
proof fn lemma_load_runs<W>(
    m: Scene<W>,
    name: Seq<char>,
    span: SourceSpan,
    dst: Register,
    g: Gen,
    h: Gen,
    s: State<W>,
    bindings: Seq<Binding>,
    layout: Seq<Register>,
) -> (r: (nat, State<W>))
    requires
        ready(m, g, h, s, bindings, layout),
        load_variable(name, span, dst, g) == Ok::<Gen, CompileErrorView>(h),
        dst.0 < g.next_register,
    ensures
        match variable(bindings, name, s.world, m.setting) {
            Effect::Gives { value, world } => gave(
                m,
                s,
                r,
                h.code.len(),
                value,
                world,
                dst,
                g.next_register,
                dst.0 as int,
            ),
            Effect::Raises { value, world } => ends(m, s, r.0, Ending::Uncaught { value, world }),
        },
{
    assert(leads(m, s, 0, s));
    let e = m.setting.effects;
    if g.locals.contains_key(name) {
        lemma_variable(m, g, h, s, bindings, layout, name);
        let src = g.locals[name].register;
        if g.locals[name].cell {
            let last = Instruction::LoadUpvalue { dst, upvalue: src };
            assert(h == emit(g, last, Some(span)));
            assert(m.body.instructions[s.ip] == h.code[s.ip]);
            let t = lemma_takes(m, s, 0, s, Some(dst), other(e, last, s.registers, s.world));
            (1, t)
        } else if src == dst {
            (0, s)
        } else {
            let effect = Effect::Gives { value: content(s.registers, src), world: s.world };
            assert(m.body.instructions[s.ip] == h.code[s.ip]);
            let t = lemma_takes(m, s, 0, s, Some(dst), effect);
            (1, t)
        }
    } else {
        assert(g.captures.contains_key(name));
        let last = Instruction::LoadCapture { dst, capture: g.captures[name] };
        assert(h == emit(g, last, Some(span)));
        assert(m.body.instructions[s.ip] == h.code[s.ip]);
        let t = lemma_takes(m, s, 0, s, Some(dst), other(e, last, s.registers, s.world));
        (1, t)
    }
}

/// The code that reads a variable leaves its value in a register.
proof fn lemma_read_runs<W>(
    m: Scene<W>,
    name: Seq<char>,
    span: SourceSpan,
    register: Register,
    g: Gen,
    h: Gen,
    s: State<W>,
    bindings: Seq<Binding>,
    layout: Seq<Register>,
) -> (r: (nat, State<W>))
    requires
        ready(m, g, h, s, bindings, layout),
        read_variable(name, span, g) == Ok::<(Gen, Register), CompileErrorView>((h, register)),
    ensures
        match variable(bindings, name, s.world, m.setting) {
            Effect::Gives { value, world } => gave(
                m,
                s,
                r,
                h.code.len(),
                value,
                world,
                register,
                g.next_register,
                -1,
            ),
            Effect::Raises { value, world } => ends(m, s, r.0, Ending::Uncaught { value, world }),
        },
{
    if g.locals.contains_key(name) && !g.locals[name].cell {
        lemma_variable(m, g, h, s, bindings, layout, name);
        assert(leads(m, s, 0, s));
        (0, s)
    } else {
        lemma_fresh(g);
        let (f, dst) = fresh(g)->Ok_0;
        assert(ready(m, f, h, s, bindings, layout));
        lemma_load_runs(m, name, span, dst, f, h, s, bindings, layout)
    }
}

// ---------------------------------------------------------------------------
// Expressions
// ---------------------------------------------------------------------------

/// The code of an expression leaves its value in a register.
proof fn lemma_expr_runs<W>(
    m: Scene<W>,
    expr: ExprView,
    register: Register,
    g: Gen,
    h: Gen,
    s: State<W>,
    bindings: Seq<Binding>,
    layout: Seq<Register>,
) -> (r: (nat, State<W>))
    requires
        ready(m, g, h, s, bindings, layout),
        listed(expr, g.next_function_id, m.setting.literals),
        gen_expr(expr, g, m.setting.functions) == Ok::<(Gen, Register), CompileErrorView>(
            (h, register),
        ),
    ensures
        match evaluate(expr, bindings, s.world, m.setting) {
            Effect::Gives { value, world } => gave(
                m,
                s,
                r,
                h.code.len(),
                value,
                world,
                register,
                g.next_register,
                -1,
            ),
            Effect::Raises { value, world } => ends(m, s, r.0, Ending::Uncaught { value, world }),
        },
    decreases expr, 2int,
{
    if let ExprView::Variable { name, span } = expr {
        lemma_read_runs(m, name, span, register, g, h, s, bindings, layout)
    } else {
        lemma_fresh(g);
        let (f, dst) = fresh(g)->Ok_0;
        assert(ready(m, f, h, s, bindings, layout));
        lemma_into_runs(m, expr, dst, f, h, s, bindings, layout)
    }
}

/// The code that puts the value of an expression into a register does so.
proof fn lemma_into_runs<W>(
    m: Scene<W>,
    expr: ExprView,
    dst: Register,
    g: Gen,
    h: Gen,
    s: State<W>,
    bindings: Seq<Binding>,
    layout: Seq<Register>,
) -> (r: (nat, State<W>))
    requires
        ready(m, g, h, s, bindings, layout),
        listed(expr, g.next_function_id, m.setting.literals),
        gen_into(expr, dst, g, m.setting.functions) == Ok::<Gen, CompileErrorView>(h),
        dst.0 < g.next_register,
    ensures
        match evaluate(expr, bindings, s.world, m.setting) {
            Effect::Gives { value, world } => gave(
                m,
                s,
                r,
                h.code.len(),
                value,
                world,
                dst,
                g.next_register,
                dst.0 as int,
            ),
            Effect::Raises { value, world } => ends(m, s, r.0, Ending::Uncaught { value, world }),
        },
    decreases expr, 1int,
{
    let fs = m.setting.functions;
    assert(leads(m, s, 0, s));
    match expr {
        ExprView::Literal { value, span } => {
            lemma_literal_runs(m, value, span, dst, g, h, s, bindings, layout)
        },
        ExprView::Variable { name, span } => {
            lemma_load_runs(m, name, span, dst, g, h, s, bindings, layout)
        },
        ExprView::Binary { .. } => lemma_binary_runs(m, expr, dst, g, h, s, bindings, layout),
        ExprView::Index { .. } => lemma_index_runs(m, expr, dst, g, h, s, bindings, layout),
        ExprView::Array { .. } => lemma_array_runs(m, expr, dst, g, h, s, bindings, layout),
        ExprView::MapLiteral { .. } => lemma_map_runs(m, expr, dst, g, h, s, bindings, layout),
        ExprView::Call { .. } => lemma_call_runs(m, expr, dst, g, h, s, bindings, layout),
        ExprView::Grouping { expr: inner, .. } => {
            lemma_into_runs(m, *inner, dst, g, h, s, bindings, layout)
        },
        ExprView::Function { .. } => lemma_closure_runs(m, expr, dst, g, h, s, bindings, layout),
    }
}

/// The generator and the meaning agree on which names are names of variables.
proof fn lemma_visible<W>(
    m: Scene<W>,
    names: Seq<Seq<char>>,
    i: int,
    g: Gen,
    bindings: Seq<Binding>,
    layout: Seq<Register>,
)
    requires
        suits(m, g),
        laid_out(bindings, layout, g),
    ensures
        known_names(names, i, g) == visible(names, i, bindings, m.setting),
    decreases names.len() - i,
{
    if 0 <= i < names.len() {
        assert(g.locals.contains_key(names[i]) <==> place(bindings, names[i]) >= 0);
        assert(g.captures.contains_key(names[i]) <==> m.setting.captured.contains_key(names[i]));
        lemma_visible(m, names, i + 1, g, bindings, layout);
    }
}

/// The code that loads cells from `i` on puts the rest of the cells into their row.
proof fn lemma_cells_run<W>(
    m: Scene<W>,
    names: Seq<Seq<char>>,
    i: int,
    start: Register,
    span: SourceSpan,
    limit: nat,
    g: Gen,
    h: Gen,
    s: State<W>,
    bindings: Seq<Binding>,
    layout: Seq<Register>,
) -> (r: (nat, State<W>))
    requires
        ready(m, g, h, s, bindings, layout),
        load_cells(names, i, start, span, g) == Ok::<Gen, CompileErrorView>(h),
        0 <= i <= names.len(),
        start.0 + names.len() <= g.next_register,
        names.len() == 0 || limit <= start.0,
        forall|j: int| 0 <= j < layout.len() ==> (#[trigger] layout[j]).0 < limit,
        row(s.registers, start, i) == cells_of(names, bindings, m.setting).take(i),
    ensures
        gave_row(
            m,
            s,
            r,
            h.code.len(),
            cells_of(names, bindings, m.setting),
            s.world,
            start,
            limit,
        ),
    decreases names.len() - i,
{
    let cells = cells_of(names, bindings, m.setting);
    assert(leads(m, s, 0, s));
    if i < names.len() {
        let dst = nth(start, i);
        let f = load_cell(names[i], span, dst, g)->Ok_0;
        let cell = cell_of(bindings, names[i], m.setting);
        let effect: Effect<W> = Effect::Gives { value: cell, world: s.world };
        let last = if g.locals.contains_key(names[i]) {
            lemma_variable(m, g, h, s, bindings, layout, names[i]);
            Instruction::Move { dst, src: g.locals[names[i]].register }
        } else {
            assert(g.captures.contains_key(names[i]));
            let last = Instruction::LoadCaptureCell { dst, capture: g.captures[names[i]] };
            assert(other(m.setting.effects, last, s.registers, s.world) == effect);
            last
        };
        assert(f == emit(g, last, Some(span)));
        lemma_one_cell(names, i, start, span, g);
        lemma_builds_extends(g, f);
        lemma_builds_extends(f, h);
        assert(f.code[s.ip] == last);
        assert(h.code.take(f.code.len() as int)[s.ip] == h.code[s.ip]);
        assert(m.body.instructions[s.ip] == h.code[s.ip]);
        let t = lemma_takes(m, s, 0, s, Some(dst), effect);
        assert(kept(s.registers, t.registers, limit, -1));
        lemma_still_filled(bindings, layout, s.registers, t.registers, limit);
        lemma_ready_rest(m, g, f, h, s, t, bindings, layout);
        assert(row(t.registers, start, i + 1) =~= cells.take(i + 1)) by {
            assert forall|j: int| 0 <= j < i implies #[trigger] row(
                t.registers,
                start,
                i + 1,
            )[j] == cells[j] by {
                assert(row(s.registers, start, i)[j] == s.registers[start.0 + j]);
                assert(cells.take(i)[j] == cells[j]);
                assert(t.registers[start.0 + j] == s.registers[start.0 + j]);
            }
        }
        let r = lemma_cells_run(m, names, i + 1, start, span, limit, f, h, t, bindings, layout);
        lemma_leads_both(m, s, 1, t, r.0, r.1);
        (1 + r.0, r.1)
    } else {
        assert(cells.take(i) =~= cells);
        (0, s)
    }
}

/// The code of the cells behind the first of them.
proof fn lemma_one_cell(names: Seq<Seq<char>>, i: int, start: Register, span: SourceSpan, g: Gen)
    requires
        in_order(g),
        0 <= i < names.len(),
        start.0 + names.len() <= g.next_register,
        load_cells(names, i, start, span, g) is Ok,
    ensures
        load_cell(names[i], span, nth(start, i), g) matches Ok(f) && {
            &&& builds_on(g, f)
            &&& f.locals == g.locals
            &&& load_cells(names, i + 1, start, span, f) matches Ok(h) && builds_on(f, h)
        },
{
    let dst = nth(start, i);
    let name = names[i];
    if g.locals.contains_key(name) {
        lemma_emit(g, Instruction::Move { dst, src: g.locals[name].register }, Some(span));
    } else {
        lemma_emit(
            g,
            Instruction::LoadCaptureCell { dst, capture: g.captures[name] },
            Some(span),
        );
    }
    lemma_load_cells(names, i + 1, start, span, load_cell(name, span, dst, g)->Ok_0);
}

/// The code of a function literal makes a function with the cells of the variables it captures.
proof fn lemma_closure_runs<W>(
    m: Scene<W>,
    expr: ExprView,
    dst: Register,
    g: Gen,
    h: Gen,
    s: State<W>,
    bindings: Seq<Binding>,
    layout: Seq<Register>,
) -> (r: (nat, State<W>))
    requires
        expr is Function,
        ready(m, g, h, s, bindings, layout),
        listed(expr, g.next_function_id, m.setting.literals),
        gen_into(expr, dst, g, m.setting.functions) == Ok::<Gen, CompileErrorView>(h),
        dst.0 < g.next_register,
    ensures
        match evaluate(expr, bindings, s.world, m.setting) {
            Effect::Gives { value, world } => gave(
                m,
                s,
                r,
                h.code.len(),
                value,
                world,
                dst,
                g.next_register,
                dst.0 as int,
            ),
            Effect::Raises { value, world } => ends(m, s, r.0, Ending::Uncaught { value, world }),
        },
{
    let fs = m.setting.functions;
    if let ExprView::Function { params, body, span } = expr {
        let free = free_names(params, body, fs);
        let names = known_names(free, 0, g);
        let id = g.next_function_id;
        let boxed = captured_in_stmts(body, 0, fs, Set::empty());
        let first = begin(closure_name(id), params, names, boxed, id + 1)->Ok_0;
        let inner = gen_stmts(body, 0, first, fs)->Ok_0;
        let chunk = finished(inner)->Ok_0;
        let e = Gen {
            next_function_id: inner.next_function_id,
            generated: g.generated.push(bytecode_function(chunk)) + inner.generated,
            ..g
        };
        assert(gen_closure(names, id, span, inner, dst, g) == Ok::<Gen, CompileErrorView>(h));
        assert(ready(m, e, h, s, bindings, layout));
        lemma_reserve(e, names.len());
        let (f, start) = reserve(e, names.len())->Ok_0;
        lemma_load_cells(names, 0, start, span, f);
        let k = load_cells(names, 0, start, span, f)->Ok_0;
        let last = Instruction::MakeClosure {
            dst,
            function: FunctionId(id as u16),
            captures_start: start,
            capture_count: names.len() as u8,
        };
        assert(h == emit(k, last, Some(span)));
        lemma_extends_itself(k);
        lemma_extends_emitted(k, k, last, Some(span));
        lemma_builds_extends(e, f);
        lemma_builds_extends(f, k);
        lemma_extends_both(f, k, h);
        lemma_ready_rest(m, e, f, h, s, s, bindings, layout);
        lemma_ready_first(m, f, k, h, s, bindings, layout);
        lemma_visible(m, free, 0, g, bindings, layout);
        let cells = cells_of(names, bindings, m.setting);
        assert(row(s.registers, start, 0) =~= cells.take(0));
        let r = lemma_cells_run(
            m,
            names,
            0,
            start,
            span,
            g.next_register,
            f,
            k,
            s,
            bindings,
            layout,
        );
        let t = r.1;
        assert(m.body.instructions[t.ip] == h.code[t.ip]);
        let effect = other(m.setting.effects, last, t.registers, t.world);
        assert(effect == evaluate(expr, bindings, s.world, m.setting));
        let v = lemma_takes(m, s, r.0, t, Some(dst), effect);
        (r.0 + 1, v)
    } else {
        (0, s)
    }
}

proof fn lemma_binary_runs<W>(
    m: Scene<W>,
    expr: ExprView,
    dst: Register,
    g: Gen,
    h: Gen,
    s: State<W>,
    bindings: Seq<Binding>,
    layout: Seq<Register>,
) -> (r: (nat, State<W>))
    requires
        expr is Binary,
        ready(m, g, h, s, bindings, layout),
        listed(expr, g.next_function_id, m.setting.literals),
        gen_into(expr, dst, g, m.setting.functions) == Ok::<Gen, CompileErrorView>(h),
        dst.0 < g.next_register,
    ensures
        match evaluate(expr, bindings, s.world, m.setting) {
            Effect::Gives { value, world } => gave(
                m,
                s,
                r,
                h.code.len(),
                value,
                world,
                dst,
                g.next_register,
                dst.0 as int,
            ),
            Effect::Raises { value, world } => ends(m, s, r.0, Ending::Uncaught { value, world }),
        },
    decreases expr, 0int,
{
    let fs = m.setting.functions;
    if let ExprView::Binary { op, lhs, rhs, span } = expr {
        let (f, left) = gen_expr(*lhs, g, fs)->Ok_0;
        let (k, right) = gen_expr(*rhs, f, fs)->Ok_0;
        lemma_two_parts(m, *lhs, *rhs, g, h, operation(op, dst, left, right), Some(span));
        lemma_expr_literals(*lhs, g, fs);
        lemma_ready_first(m, g, f, h, s, bindings, layout);
        let r1 = lemma_expr_runs(m, *lhs, left, g, f, s, bindings, layout);
        match evaluate(*lhs, bindings, s.world, m.setting) {
            Effect::Raises { .. } => r1,
            Effect::Gives { value: a, world } => {
                let t = r1.1;
                lemma_ready_second(m, g, f, k, h, s, t, bindings, layout);
                let r2 = lemma_expr_runs(m, *rhs, right, f, k, t, bindings, layout);
                match evaluate(*rhs, bindings, t.world, m.setting) {
                    Effect::Raises { value, world } => {
                        let ending = Ending::Uncaught { value, world };
                        lemma_leads_to_end(m, s, r1.0, t, r2.0, ending);
                        (r1.0 + r2.0, t)
                    },
                    Effect::Gives { value: b, world } => {
                        let u = r2.1;
                        lemma_leads_both(m, s, r1.0, t, r2.0, u);
                        assert(m.body.instructions[u.ip] == h.code[u.ip]);
                        let effect = combined(
                            machine_op(op),
                            a,
                            b,
                            world,
                            m.setting.effects,
                        );
                        let v = lemma_takes(m, s, r1.0 + r2.0, u, Some(dst), effect);
                        (r1.0 + r2.0 + 1, v)
                    },
                }
            },
        }
    } else {
        (0, s)
    }
}

proof fn lemma_index_runs<W>(
    m: Scene<W>,
    expr: ExprView,
    dst: Register,
    g: Gen,
    h: Gen,
    s: State<W>,
    bindings: Seq<Binding>,
    layout: Seq<Register>,
) -> (r: (nat, State<W>))
    requires
        expr is Index,
        ready(m, g, h, s, bindings, layout),
        listed(expr, g.next_function_id, m.setting.literals),
        gen_into(expr, dst, g, m.setting.functions) == Ok::<Gen, CompileErrorView>(h),
        dst.0 < g.next_register,
    ensures
        match evaluate(expr, bindings, s.world, m.setting) {
            Effect::Gives { value, world } => gave(
                m,
                s,
                r,
                h.code.len(),
                value,
                world,
                dst,
                g.next_register,
                dst.0 as int,
            ),
            Effect::Raises { value, world } => ends(m, s, r.0, Ending::Uncaught { value, world }),
        },
    decreases expr, 0int,
{
    let fs = m.setting.functions;
    if let ExprView::Index { target, index, span } = expr {
        let (f, left) = gen_expr(*target, g, fs)->Ok_0;
        let (k, right) = gen_expr(*index, f, fs)->Ok_0;
        let last = Instruction::IndexGet { dst, target: left, index: right };
        lemma_two_parts(m, *target, *index, g, h, last, Some(span));
        lemma_expr_literals(*target, g, fs);
        lemma_ready_first(m, g, f, h, s, bindings, layout);
        let r1 = lemma_expr_runs(m, *target, left, g, f, s, bindings, layout);
        match evaluate(*target, bindings, s.world, m.setting) {
            Effect::Raises { .. } => r1,
            Effect::Gives { value: a, world } => {
                let t = r1.1;
                lemma_ready_second(m, g, f, k, h, s, t, bindings, layout);
                let r2 = lemma_expr_runs(m, *index, right, f, k, t, bindings, layout);
                match evaluate(*index, bindings, t.world, m.setting) {
                    Effect::Raises { value, world } => {
                        let ending = Ending::Uncaught { value, world };
                        lemma_leads_to_end(m, s, r1.0, t, r2.0, ending);
                        (r1.0 + r2.0, t)
                    },
                    Effect::Gives { value: b, world } => {
                        let u = r2.1;
                        lemma_leads_both(m, s, r1.0, t, r2.0, u);
                        assert(m.body.instructions[u.ip] == h.code[u.ip]);
                        let effect = other(m.setting.effects, last, u.registers, u.world);
                        let v = lemma_takes(m, s, r1.0 + r2.0, u, Some(dst), effect);
                        (r1.0 + r2.0 + 1, v)
                    },
                }
            },
        }
    } else {
        (0, s)
    }
}

proof fn lemma_array_runs<W>(
    m: Scene<W>,
    expr: ExprView,
    dst: Register,
    g: Gen,
    h: Gen,
    s: State<W>,
    bindings: Seq<Binding>,
    layout: Seq<Register>,
) -> (r: (nat, State<W>))
    requires
        expr is Array,
        ready(m, g, h, s, bindings, layout),
        listed(expr, g.next_function_id, m.setting.literals),
        gen_into(expr, dst, g, m.setting.functions) == Ok::<Gen, CompileErrorView>(h),
        dst.0 < g.next_register,
    ensures
        match evaluate(expr, bindings, s.world, m.setting) {
            Effect::Gives { value, world } => gave(
                m,
                s,
                r,
                h.code.len(),
                value,
                world,
                dst,
                g.next_register,
                dst.0 as int,
            ),
            Effect::Raises { value, world } => ends(m, s, r.0, Ending::Uncaught { value, world }),
        },
    decreases expr, 0int,
{
    let fs = m.setting.functions;
    if let ExprView::Array { elements, span } = expr {
        let (k, start) = gen_row(elements, g, fs)->Ok_0;
        lemma_row(elements, g, fs);
        let last = Instruction::ArrayNew {
            dst,
            elements_start: start,
            element_count: elements.len() as u8,
        };
        lemma_extends_itself(k);
        lemma_extends_emitted(k, k, last, Some(span));
        let r1 = lemma_row_runs(m, elements, start, g, k, h, s, bindings, layout);
        match evaluate_list(elements, elements.len(), bindings, s.world, m.setting) {
            Evaluated::Raises { .. } => r1,
            Evaluated::Values { values, world } => {
                let t = r1.1;
                assert(m.body.instructions[t.ip] == h.code[t.ip]);
                let effect = other(m.setting.effects, last, t.registers, t.world);
                let v = lemma_takes(m, s, r1.0, t, Some(dst), effect);
                (r1.0 + 1, v)
            },
        }
    } else {
        (0, s)
    }
}

proof fn lemma_map_runs<W>(
    m: Scene<W>,
    expr: ExprView,
    dst: Register,
    g: Gen,
    h: Gen,
    s: State<W>,
    bindings: Seq<Binding>,
    layout: Seq<Register>,
) -> (r: (nat, State<W>))
    requires
        expr is MapLiteral,
        ready(m, g, h, s, bindings, layout),
        listed(expr, g.next_function_id, m.setting.literals),
        gen_into(expr, dst, g, m.setting.functions) == Ok::<Gen, CompileErrorView>(h),
        dst.0 < g.next_register,
    ensures
        match evaluate(expr, bindings, s.world, m.setting) {
            Effect::Gives { value, world } => gave(
                m,
                s,
                r,
                h.code.len(),
                value,
                world,
                dst,
                g.next_register,
                dst.0 as int,
            ),
            Effect::Raises { value, world } => ends(m, s, r.0, Ending::Uncaught { value, world }),
        },
    decreases expr, 0int,
{
    let fs = m.setting.functions;
    if let ExprView::MapLiteral { entries, span } = expr {
        let (f, start) = reserve(g, 2 * entries.len())->Ok_0;
        let k = gen_entries(entries, 0, start, f, fs)->Ok_0;
        let last = Instruction::MapNew {
            dst,
            entries_start: start,
            entry_count: entries.len() as u8,
        };
        lemma_extends_itself(k);
        lemma_extends_emitted(k, k, last, Some(span));
        lemma_reserve(g, 2 * entries.len());
        lemma_entries(entries, 0, start, f, fs);
        lemma_builds_extends(g, f);
        lemma_builds_extends(f, k);
        lemma_extends_both(f, k, h);
        lemma_ready_rest(m, g, f, h, s, s, bindings, layout);
        lemma_ready_first(m, f, k, h, s, bindings, layout);
        assert(row(s.registers, start, 0) =~= Seq::empty());
        let r1 = lemma_entries_run(
            m,
            entries,
            0,
            start,
            g.next_register,
            f,
            k,
            s,
            s.world,
            bindings,
            layout,
        );
        match evaluate_entries(entries, entries.len(), bindings, s.world, m.setting) {
            Evaluated::Raises { .. } => r1,
            Evaluated::Values { values, world } => {
                let t = r1.1;
                assert(m.body.instructions[t.ip] == h.code[t.ip]);
                let effect = other(m.setting.effects, last, t.registers, t.world);
                let v = lemma_takes(m, s, r1.0, t, Some(dst), effect);
                (r1.0 + 1, v)
            },
        }
    } else {
        (0, s)
    }
}

proof fn lemma_call_runs<W>(
    m: Scene<W>,
    expr: ExprView,
    dst: Register,
    g: Gen,
    h: Gen,
    s: State<W>,
    bindings: Seq<Binding>,
    layout: Seq<Register>,
) -> (r: (nat, State<W>))
    requires
        expr is Call,
        ready(m, g, h, s, bindings, layout),
        listed(expr, g.next_function_id, m.setting.literals),
        gen_into(expr, dst, g, m.setting.functions) == Ok::<Gen, CompileErrorView>(h),
        dst.0 < g.next_register,
    ensures
        match evaluate(expr, bindings, s.world, m.setting) {
            Effect::Gives { value, world } => gave(
                m,
                s,
                r,
                h.code.len(),
                value,
                world,
                dst,
                g.next_register,
                dst.0 as int,
            ),
            Effect::Raises { value, world } => ends(m, s, r.0, Ending::Uncaught { value, world }),
        },
    decreases expr, 0int,
{
    let fs = m.setting.functions;
    if let ExprView::Call { callee, args, span } = expr {
        let (k, start) = gen_row(args, g, fs)->Ok_0;
        lemma_row(args, g, fs);
        let count = args.len() as u8;
        if fs.contains_key(callee) {
            let last = Instruction::CallFunction {
                dst,
                function: fs[callee],
                args_start: start,
                arg_count: count,
            };
            assert(h == emit(k, last, Some(span)));
            lemma_extends_itself(k);
            lemma_extends_emitted(k, k, last, Some(span));
            let r1 = lemma_row_runs(m, args, start, g, k, h, s, bindings, layout);
            match evaluate_list(args, args.len(), bindings, s.world, m.setting) {
                Evaluated::Raises { .. } => r1,
                Evaluated::Values { values, world } => {
                    let t = r1.1;
                    assert(m.body.instructions[t.ip] == h.code[t.ip]);
                    let effect = other(m.setting.effects, last, t.registers, t.world);
                    let v = lemma_takes(m, s, r1.0, t, Some(dst), effect);
                    (r1.0 + 1, v)
                },
            }
        } else {
            let (j, register) = read_variable(callee, span, k)->Ok_0;
            lemma_read_variable(callee, span, k);
            let last = Instruction::CallValue {
                dst,
                callee: register,
                args_start: start,
                arg_count: count,
            };
            assert(h == emit(j, last, Some(span)));
            lemma_builds_extends(g, k);
            lemma_builds_extends(k, j);
            lemma_extends_emitted(k, j, last, Some(span));
            let r1 = lemma_row_runs(m, args, start, g, k, h, s, bindings, layout);
            match evaluate_list(args, args.len(), bindings, s.world, m.setting) {
                Evaluated::Raises { .. } => r1,
                Evaluated::Values { values, world } => {
                    let t = r1.1;
                    lemma_still_filled(bindings, layout, s.registers, t.registers, g.next_register);
                    lemma_ready_rest(m, g, k, h, s, t, bindings, layout);
                    lemma_ready_first(m, k, j, h, t, bindings, layout);
                    let r2 = lemma_read_runs(
                        m,
                        callee,
                        span,
                        register,
                        k,
                        j,
                        t,
                        bindings,
                        layout,
                    );
                    match variable(bindings, callee, t.world, m.setting) {
                        Effect::Raises { value, world } => {
                            let ending = Ending::Uncaught { value, world };
                            lemma_leads_to_end(m, s, r1.0, t, r2.0, ending);
                            (r1.0 + r2.0, t)
                        },
                        Effect::Gives { value, world } => {
                            let u = r2.1;
                            lemma_leads_both(m, s, r1.0, t, r2.0, u);
                            assert(row(u.registers, start, count as int) =~= values) by {
                                assert forall|i: int| 0 <= i < values.len() implies #[trigger] row(
                                    u.registers,
                                    start,
                                    count as int,
                                )[i] == values[i] by {
                                    assert(row(t.registers, start, count as int)[i]
                                        == t.registers[start.0 + i]);
                                    assert(u.registers[start.0 + i] == t.registers[start.0 + i]);
                                }
                            }
                            assert(m.body.instructions[u.ip] == h.code[u.ip]);
                            let effect = other(m.setting.effects, last, u.registers, u.world);
                            let v = lemma_takes(m, s, r1.0 + r2.0, u, Some(dst), effect);
                            (r1.0 + r2.0 + 1, v)
                        },
                    }
                },
            }
        }
    } else {
        (0, s)
    }
}

proof fn lemma_literal_runs<W>(
    m: Scene<W>,
    literal: LiteralView,
    span: SourceSpan,
    dst: Register,
    g: Gen,
    h: Gen,
    s: State<W>,
    bindings: Seq<Binding>,
    layout: Seq<Register>,
) -> (r: (nat, State<W>))
    requires
        ready(m, g, h, s, bindings, layout),
        load_literal(literal, span, dst, g) == Ok::<Gen, CompileErrorView>(h),
        dst.0 < g.next_register,
    ensures
        match literal_value(literal, s.world, m.setting) {
            Effect::Gives { value, world } => gave(
                m,
                s,
                r,
                h.code.len(),
                value,
                world,
                dst,
                g.next_register,
                dst.0 as int,
            ),
            Effect::Raises { value, world } => ends(m, s, r.0, Ending::Uncaught { value, world }),
        },
{
    assert(leads(m, s, 0, s));
    assert(m.body.instructions[s.ip] == h.code[s.ip]);
    let effect = literal_value(literal, s.world, m.setting);
    if let LiteralView::Text(text) = literal {
        let string = StringId(g.strings.len() as u16);
        let last = Instruction::LoadString { dst, string };
        assert(h.strings[g.strings.len() as int] == text);
        assert(m.strings[g.strings.len() as int] == text);
        assert(other(m.setting.effects, last, s.registers, s.world) == effect);
    } else {
        let constant = ConstId(g.constants.len() as u16);
        assert(h.code[s.ip] == (Instruction::LoadConst { dst, constant }));
        assert(m.body.constants[g.constants.len() as int]
            == h.constants[g.constants.len() as int]);
    }
    let t = lemma_takes(m, s, 0, s, Some(dst), effect);
    (1, t)
}

/// The code of two expressions and one instruction falls into its parts.
proof fn lemma_two_parts<W>(
    m: Scene<W>,
    a: ExprView,
    b: ExprView,
    g: Gen,
    h: Gen,
    last: Instruction,
    span: Option<SourceSpan>,
)
    requires
        in_order(g),
        gen_expr(a, g, m.setting.functions) matches Ok((f, _)) && gen_expr(
            b,
            f,
            m.setting.functions,
        ) matches Ok((k, _)) && h == emit(k, last, span),
    ensures
        gen_expr(a, g, m.setting.functions) matches Ok((f, left)) && gen_expr(
            b,
            f,
            m.setting.functions,
        ) matches Ok((k, right)) && {
            &&& in_order(f)
            &&& f.locals == g.locals
            &&& left.0 < f.next_register
            &&& right.0 < k.next_register
            &&& extends(g, f)
            &&& extends(f, k)
            &&& extends(f, h)
            &&& extends(k, h)
        },
{
    let fs = m.setting.functions;
    lemma_expr(a, g, fs);
    let (f, left) = gen_expr(a, g, fs)->Ok_0;
    lemma_expr(b, f, fs);
    let (k, right) = gen_expr(b, f, fs)->Ok_0;
    lemma_builds_extends(g, f);
    lemma_builds_extends(f, k);
    lemma_extends_emitted(f, k, last, span);
}

/// A second expression is ready behind a first one.
proof fn lemma_ready_second<W>(
    m: Scene<W>,
    g: Gen,
    f: Gen,
    k: Gen,
    h: Gen,
    s: State<W>,
    t: State<W>,
    bindings: Seq<Binding>,
    layout: Seq<Register>,
)
    requires
        ready(m, g, h, s, bindings, layout),
        in_order(f),
        extends(g, f),
        extends(f, k),
        extends(f, h),
        extends(k, h),
        f.locals == g.locals,
        t.ip == f.code.len(),
        t.handlers == s.handlers,
        kept(s.registers, t.registers, g.next_register, -1),
    ensures
        ready(m, f, k, t, bindings, layout),
{
    lemma_still_filled(bindings, layout, s.registers, t.registers, g.next_register);
    lemma_ready_rest(m, g, f, h, s, t, bindings, layout);
    lemma_ready_first(m, f, k, h, t, bindings, layout);
}

/// A state behind code that has put values into registers in a row.
pub open spec fn gave_row<W>(
    m: Scene<W>,
    s: State<W>,
    r: (nat, State<W>),
    end: nat,
    values: Seq<Value>,
    world: W,
    start: Register,
    limit: nat,
) -> bool {
    let t = r.1;
    &&& leads(m, s, r.0, t)
    &&& t.ip == end
    &&& t.handlers == s.handlers
    &&& t.world == world
    &&& kept(s.registers, t.registers, limit, -1)
    &&& start.0 + values.len() <= t.registers.len()
    &&& row(t.registers, start, values.len() as int) == values
}

/// The code of a row puts the values of the expressions into it.
proof fn lemma_row_runs<W>(
    m: Scene<W>,
    exprs: Seq<ExprView>,
    start: Register,
    g: Gen,
    k: Gen,
    h: Gen,
    s: State<W>,
    bindings: Seq<Binding>,
    layout: Seq<Register>,
) -> (r: (nat, State<W>))
    requires
        ready(m, g, h, s, bindings, layout),
        list_listed(exprs, 0, g.next_function_id, m.setting.literals),
        g.next_register > 0,
        gen_row(exprs, g, m.setting.functions) == Ok::<(Gen, Register), CompileErrorView>(
            (k, start),
        ),
        extends(k, h),
    ensures
        match evaluate_list(exprs, exprs.len(), bindings, s.world, m.setting) {
            Evaluated::Values { values, world } => values.len() == exprs.len() && gave_row(
                m,
                s,
                r,
                k.code.len(),
                values,
                world,
                start,
                g.next_register,
            ),
            Evaluated::Raises { value, world } => ends(
                m,
                s,
                r.0,
                Ending::Uncaught { value, world },
            ),
        },
    decreases exprs, exprs.len() + 1,
{
    let fs = m.setting.functions;
    lemma_reserve(g, exprs.len());
    let (f, _) = reserve(g, exprs.len())->Ok_0;
    lemma_list(exprs, 0, start, f, fs);
    lemma_builds_extends(g, f);
    lemma_builds_extends(f, k);
    lemma_extends_both(f, k, h);
    lemma_ready_rest(m, g, f, h, s, s, bindings, layout);
    lemma_ready_first(m, f, k, h, s, bindings, layout);
    assert(row(s.registers, start, 0) =~= Seq::empty());
    lemma_list_runs(m, exprs, 0, start, g.next_register, f, k, s, s.world, bindings, layout)
}

proof fn lemma_list_raised<W>(
    exprs: Seq<ExprView>,
    i: nat,
    n: nat,
    bindings: Seq<Binding>,
    world: W,
    setting: Setting<W>,
)
    requires
        0 < i <= n <= exprs.len(),
        evaluate_list(exprs, i, bindings, world, setting) is Raises,
    ensures
        evaluate_list(exprs, n, bindings, world, setting) == evaluate_list(
            exprs,
            i,
            bindings,
            world,
            setting,
        ),
    decreases n,
{
    if i < n {
        lemma_list_raised(exprs, i, (n - 1) as nat, bindings, world, setting);
    }
}

/// The code of a list from `i` on puts the values of the rest of the expressions into their row.
proof fn lemma_list_runs<W>(
    m: Scene<W>,
    exprs: Seq<ExprView>,
    i: int,
    start: Register,
    limit: nat,
    g: Gen,
    h: Gen,
    s: State<W>,
    world0: W,
    bindings: Seq<Binding>,
    layout: Seq<Register>,
) -> (r: (nat, State<W>))
    requires
        ready(m, g, h, s, bindings, layout),
        list_listed(exprs, i, g.next_function_id, m.setting.literals),
        gen_list(exprs, i, start, g, m.setting.functions) == Ok::<Gen, CompileErrorView>(h),
        0 <= i <= exprs.len(),
        start.0 + exprs.len() <= g.next_register,
        exprs.len() == 0 || limit <= start.0,
        forall|j: int| 0 <= j < layout.len() ==> (#[trigger] layout[j]).0 < limit,
        evaluate_list(exprs, i as nat, bindings, world0, m.setting) matches Evaluated::Values {
            values,
            world,
        } && world == s.world && values.len() == i && row(s.registers, start, i) == values,
    ensures
        match evaluate_list(exprs, exprs.len(), bindings, world0, m.setting) {
            Evaluated::Values { values, world } => values.len() == exprs.len() && gave_row(
                m,
                s,
                r,
                h.code.len(),
                values,
                world,
                start,
                limit,
            ),
            Evaluated::Raises { value, world } => ends(
                m,
                s,
                r.0,
                Ending::Uncaught { value, world },
            ),
        },
    decreases exprs, exprs.len() - i,
{
    let fs = m.setting.functions;
    assert(leads(m, s, 0, s));
    if i < exprs.len() {
        let dst = nth(start, i);
        let f = gen_into(exprs[i], dst, g, fs)->Ok_0;
        let values = evaluate_list(exprs, i as nat, bindings, world0, m.setting)->values;
        lemma_into(exprs[i], dst, g, fs);
        lemma_into_literals(exprs[i], dst, g, fs);
        lemma_list(exprs, i + 1, start, f, fs);
        lemma_builds_extends(g, f);
        lemma_builds_extends(f, h);
        lemma_ready_first(m, g, f, h, s, bindings, layout);
        let r1 = lemma_into_runs(m, exprs[i], dst, g, f, s, bindings, layout);
        match evaluate(exprs[i], bindings, s.world, m.setting) {
            Effect::Raises { .. } => {
                lemma_list_raised(
                    exprs,
                    (i + 1) as nat,
                    exprs.len(),
                    bindings,
                    world0,
                    m.setting,
                );
                r1
            },
            Effect::Gives { value, world } => {
                let t = r1.1;
                assert(kept(s.registers, t.registers, limit, -1));
                lemma_still_filled(bindings, layout, s.registers, t.registers, limit);
                lemma_ready_rest(m, g, f, h, s, t, bindings, layout);
                assert(row(t.registers, start, i + 1) =~= values.push(value)) by {
                    assert forall|j: int| 0 <= j < i implies #[trigger] row(
                        t.registers,
                        start,
                        i + 1,
                    )[j] == values[j] by {
                        assert(row(s.registers, start, i)[j] == s.registers[start.0 + j]);
                        assert(t.registers[start.0 + j] == s.registers[start.0 + j]);
                    }
                }
                let r2 = lemma_list_runs(
                    m,
                    exprs,
                    i + 1,
                    start,
                    limit,
                    f,
                    h,
                    t,
                    world0,
                    bindings,
                    layout,
                );
                match evaluate_list(exprs, exprs.len(), bindings, world0, m.setting) {
                    Evaluated::Values { .. } => {
                        lemma_leads_both(m, s, r1.0, t, r2.0, r2.1);
                    },
                    Evaluated::Raises { value, world } => {
                        let ending = Ending::Uncaught { value, world };
                        lemma_leads_to_end(m, s, r1.0, t, r2.0, ending);
                    },
                }
                (r1.0 + r2.0, r2.1)
            },
        }
    } else {
        (0, s)
    }
}

proof fn lemma_entries_raised<W>(
    entries: Seq<(ExprView, ExprView)>,
    i: nat,
    n: nat,
    bindings: Seq<Binding>,
    world: W,
    setting: Setting<W>,
)
    requires
        0 < i <= n <= entries.len(),
        evaluate_entries(entries, i, bindings, world, setting) is Raises,
    ensures
        evaluate_entries(entries, n, bindings, world, setting) == evaluate_entries(
            entries,
            i,
            bindings,
            world,
            setting,
        ),
    decreases n,
{
    if i < n {
        lemma_entries_raised(entries, i, (n - 1) as nat, bindings, world, setting);
    }
}

/// The code of pairs from `i` on puts the rest of the keys and values into their row.
#[verifier::rlimit(40)]
proof fn lemma_entries_run<W>(
    m: Scene<W>,
    entries: Seq<(ExprView, ExprView)>,
    i: int,
    start: Register,
    limit: nat,
    g: Gen,
    h: Gen,
    s: State<W>,
    world0: W,
    bindings: Seq<Binding>,
    layout: Seq<Register>,
) -> (r: (nat, State<W>))
    requires
        ready(m, g, h, s, bindings, layout),
        entries_listed(entries, i, g.next_function_id, m.setting.literals),
        gen_entries(entries, i, start, g, m.setting.functions) == Ok::<Gen, CompileErrorView>(h),
        0 <= i <= entries.len(),
        start.0 + 2 * entries.len() <= g.next_register,
        entries.len() == 0 || limit <= start.0,
        forall|j: int| 0 <= j < layout.len() ==> (#[trigger] layout[j]).0 < limit,
        evaluate_entries(entries, i as nat, bindings, world0, m.setting) matches Evaluated::Values {
            values,
            world,
        } && world == s.world && values.len() == 2 * i && row(s.registers, start, 2 * i) == values,
    ensures
        match evaluate_entries(entries, entries.len(), bindings, world0, m.setting) {
            Evaluated::Values { values, world } => values.len() == 2 * entries.len() && gave_row(
                m,
                s,
                r,
                h.code.len(),
                values,
                world,
                start,
                limit,
            ),
            Evaluated::Raises { value, world } => ends(
                m,
                s,
                r.0,
                Ending::Uncaught { value, world },
            ),
        },
    decreases entries, entries.len() - i,
{
    let fs = m.setting.functions;
    assert(leads(m, s, 0, s));
    if i < entries.len() {
        let first = nth(start, 2 * i);
        let second = nth(start, 2 * i + 1);
        let f = gen_into(entries[i].0, first, g, fs)->Ok_0;
        let k = gen_into(entries[i].1, second, f, fs)->Ok_0;
        let values = evaluate_entries(entries, i as nat, bindings, world0, m.setting)->values;
        lemma_into(entries[i].0, first, g, fs);
        lemma_into(entries[i].1, second, f, fs);
        lemma_into_literals(entries[i].0, first, g, fs);
        lemma_into_literals(entries[i].1, second, f, fs);
        lemma_entries(entries, i + 1, start, k, fs);
        lemma_builds_extends(g, f);
        lemma_builds_extends(f, k);
        lemma_builds_extends(k, h);
        lemma_extends_both(f, k, h);
        lemma_ready_first(m, g, f, h, s, bindings, layout);
        let r1 = lemma_into_runs(m, entries[i].0, first, g, f, s, bindings, layout);
        match evaluate(entries[i].0, bindings, s.world, m.setting) {
            Effect::Raises { .. } => {
                lemma_entries_raised(
                    entries,
                    (i + 1) as nat,
                    entries.len(),
                    bindings,
                    world0,
                    m.setting,
                );
                r1
            },
            Effect::Gives { value: key, world } => {
                let t = r1.1;
                assert(kept(s.registers, t.registers, limit, -1));
                lemma_still_filled(bindings, layout, s.registers, t.registers, limit);
                lemma_ready_rest(m, g, f, h, s, t, bindings, layout);
                lemma_ready_first(m, f, k, h, t, bindings, layout);
                let r2 = lemma_into_runs(m, entries[i].1, second, f, k, t, bindings, layout);
                match evaluate(entries[i].1, bindings, t.world, m.setting) {
                    Effect::Raises { value, world } => {
                        lemma_entries_raised(
                            entries,
                            (i + 1) as nat,
                            entries.len(),
                            bindings,
                            world0,
                            m.setting,
                        );
                        let ending = Ending::Uncaught { value, world };
                        lemma_leads_to_end(m, s, r1.0, t, r2.0, ending);
                        (r1.0 + r2.0, t)
                    },
                    Effect::Gives { value, world } => {
                        let u = r2.1;
                        lemma_leads_both(m, s, r1.0, t, r2.0, u);
                        assert(kept(t.registers, u.registers, limit, -1));
                        lemma_still_filled(bindings, layout, t.registers, u.registers, limit);
                        lemma_ready_rest(m, f, k, h, t, u, bindings, layout);
                        let longer = values.push(key).push(value);
                        assert(row(u.registers, start, 2 * (i + 1)) =~= longer) by {
                            assert forall|j: int| 0 <= j < 2 * i implies #[trigger] row(
                                u.registers,
                                start,
                                2 * (i + 1),
                            )[j] == values[j] by {
                                assert(row(s.registers, start, 2 * i)[j] == s.registers[start.0
                                    + j]);
                                assert(t.registers[start.0 + j] == s.registers[start.0 + j]);
                                assert(u.registers[start.0 + j] == t.registers[start.0 + j]);
                            }
                            assert(u.registers[start.0 + 2 * i] == key);
                        }
                        let r3 = lemma_entries_run(
                            m,
                            entries,
                            i + 1,
                            start,
                            limit,
                            k,
                            h,
                            u,
                            world0,
                            bindings,
                            layout,
                        );
                        match evaluate_entries(
                            entries,
                            entries.len(),
                            bindings,
                            world0,
                            m.setting,
                        ) {
                            Evaluated::Values { .. } => {
                                lemma_leads_both(m, s, r1.0 + r2.0, u, r3.0, r3.1);
                            },
                            Evaluated::Raises { value, world } => {
                                let ending = Ending::Uncaught { value, world };
                                lemma_leads_to_end(m, s, r1.0 + r2.0, u, r3.0, ending);
                            },
                        }
                        (r1.0 + r2.0 + r3.0, r3.1)
                    },
                }
            },
        }
    } else {
        (0, s)
    }
}

// ---------------------------------------------------------------------------
// Statements
// ---------------------------------------------------------------------------

/// What came of statements came of their code too. Code that has not ended has executed as many
/// instructions as repetitions were allowed.
pub open spec fn progressed<W>(
    m: Scene<W>,
    s: State<W>,
    r: (nat, State<W>, Seq<Register>),
    h: Gen,
    bindings: Seq<Binding>,
    layout: Seq<Register>,
    progress: Progress<W>,
    fuel: nat,
) -> bool {
    match progress {
        Progress::Goes { bindings: after, world } => {
            &&& leads(m, s, r.0, r.1)
            &&& r.1.ip == h.code.len()
            &&& r.1.handlers == s.handlers
            &&& r.1.world == world
            &&& r.1.registers.len() == s.registers.len()
            &&& laid_out(after, r.2, h)
            &&& filled(after, r.2, r.1.registers)
            &&& bindings.len() <= after.len()
            &&& forall|i: int| 0 <= i < bindings.len() ==> alike(#[trigger] after[i], bindings[i])
            &&& r.2.take(layout.len() as int) == layout
        },
        Progress::Returns { value, world } => ends(m, s, r.0, Ending::Returned { value, world }),
        Progress::Raises { value, world } => ends(m, s, r.0, Ending::Uncaught { value, world }),
        Progress::Unfinished => leads(m, s, r.0, r.1) && r.0 >= fuel,
    }
}

/// The variables stay where they are when more registers are in use.
proof fn lemma_laid_out_later(bindings: Seq<Binding>, layout: Seq<Register>, g: Gen, h: Gen)
    requires
        laid_out(bindings, layout, g),
        h.locals == g.locals,
        g.next_register <= h.next_register,
    ensures
        laid_out(bindings, layout, h),
{
}

/// Positions go by names alone.
proof fn lemma_place_by_names(a: Seq<Binding>, b: Seq<Binding>, name: Seq<char>)
    requires
        a.len() == b.len(),
        forall|i: int| 0 <= i < a.len() ==> (#[trigger] a[i]).name == b[i].name,
    ensures
        place(a, name) == place(b, name),
    decreases a.len(),
{
    if a.len() > 0 {
        assert(a[a.len() - 1].name == b[a.len() - 1].name);
        assert forall|i: int| 0 <= i < a.drop_last().len() implies (
        #[trigger] a.drop_last()[i]).name == b.drop_last()[i].name by {
            assert(a[i].name == b[i].name);
        }
        lemma_place_by_names(a.drop_last(), b.drop_last(), name);
    }
}

/// The variables are where they were when only their values have changed.
proof fn lemma_laid_out_again(
    a: Seq<Binding>,
    b: Seq<Binding>,
    layout: Seq<Register>,
    g: Gen,
)
    requires
        laid_out(a, layout, g),
        a.len() == b.len(),
        forall|i: int| 0 <= i < a.len() ==> alike(#[trigger] a[i], b[i]),
    ensures
        laid_out(b, layout, g),
{
    assert forall|name: Seq<char>| true implies place(a, name) == #[trigger] place(b, name) && (
    place(a, name) >= 0 ==> a[place(a, name)].cell == b[place(a, name)].cell) by {
        assert forall|i: int| 0 <= i < a.len() implies (#[trigger] a[i]).name == b[i].name by {
            assert(alike(a[i], b[i]));
        }
        lemma_place_by_names(a, b, name);
        lemma_place(a, name);
    }
}

/// Progress behind some first instructions.
proof fn lemma_progress_behind<W>(
    m: Scene<W>,
    s: State<W>,
    n: nat,
    t: State<W>,
    r: (nat, State<W>, Seq<Register>),
    h: Gen,
    bindings: Seq<Binding>,
    layout: Seq<Register>,
    progress: Progress<W>,
    fuel: nat,
) -> (q: (nat, State<W>, Seq<Register>))
    requires
        leads(m, s, n, t),
        t.handlers == s.handlers,
        t.registers.len() == s.registers.len(),
        progressed(m, t, r, h, bindings, layout, progress, fuel),
    ensures
        progressed(m, s, q, h, bindings, layout, progress, n + fuel),
        q.1 == r.1,
        q.2 == r.2,
{
    match progress {
        Progress::Goes { .. } => {
            lemma_leads_both(m, s, n, t, r.0, r.1);
        },
        Progress::Returns { value, world } => {
            lemma_leads_to_end(m, s, n, t, r.0, Ending::Returned { value, world });
        },
        Progress::Raises { value, world } => {
            lemma_leads_to_end(m, s, n, t, r.0, Ending::Uncaught { value, world });
        },
        Progress::Unfinished => {
            lemma_leads_both(m, s, n, t, r.0, r.1);
        },
    }
    (n + r.0, r.1, r.2)
}

/// Statements that return on every path are never gone past.
proof fn lemma_never_past<W>(
    stmts: Seq<StmtView>,
    i: int,
    bindings: Seq<Binding>,
    world: W,
    setting: Setting<W>,
    fuel: nat,
)
    requires
        0 <= i < stmts.len(),
        always_return(stmts),
    ensures
        !(execute_all(stmts, i, bindings, world, setting, fuel) is Goes),
    decreases stmts, stmts.len() - i,
{
    if i < stmts.len() - 1 {
        if let Progress::Goes { bindings, world } = execute(
            stmts[i],
            bindings,
            world,
            setting,
            fuel,
        ) {
            lemma_never_past(stmts, i + 1, bindings, world, setting, fuel);
        }
    } else {
        lemma_never_past_one(stmts[i], bindings, world, setting, fuel);
    }
}

proof fn lemma_never_past_one<W>(
    stmt: StmtView,
    bindings: Seq<Binding>,
    world: W,
    setting: Setting<W>,
    fuel: nat,
)
    requires
        always_returns(stmt),
    ensures
        !(execute(stmt, bindings, world, setting, fuel) is Goes),
    decreases stmt, 0int,
{
    match stmt {
        StmtView::Block { statements, .. } => {
            lemma_never_past(statements, 0, bindings, world, setting, fuel);
            assert(!(execute_block(statements, bindings, world, setting, fuel) is Goes));
        },
        StmtView::If { condition, then_branch, else_branch, .. } => {
            if let Effect::Gives { world, .. } = evaluate(condition, bindings, world, setting) {
                lemma_never_past(then_branch, 0, bindings, world, setting, fuel);
                lemma_never_past(else_branch, 0, bindings, world, setting, fuel);
                assert(!(execute_block(then_branch, bindings, world, setting, fuel) is Goes));
                assert(!(execute_block(else_branch, bindings, world, setting, fuel) is Goes));
            }
        },
        _ => {},
    }
}

/// The code of statements from `i` on does what they mean.
proof fn lemma_stmts_run<W>(
    m: Scene<W>,
    stmts: Seq<StmtView>,
    i: int,
    g: Gen,
    h: Gen,
    s: State<W>,
    bindings: Seq<Binding>,
    layout: Seq<Register>,
    fuel: nat,
) -> (r: (nat, State<W>, Seq<Register>))
    requires
        ready(m, g, h, s, bindings, layout),
        0 <= i <= stmts.len(),
        stmts_listed(stmts, i, g.next_function_id, m.setting.literals),
        gen_stmts(stmts, i, g, m.setting.functions) == Ok::<Gen, CompileErrorView>(h),
    ensures
        progressed(
            m,
            s,
            r,
            h,
            bindings,
            layout,
            execute_all(stmts, i, bindings, s.world, m.setting, fuel),
            fuel,
        ),
    decreases fuel, stmts, stmts.len() - i,
{
    let fs = m.setting.functions;
    if i < stmts.len() {
        let f = gen_stmt(stmts[i], g, fs)->Ok_0;
        lemma_stmt(stmts[i], g, fs);
        lemma_stmt_literals(stmts[i], g, fs);
        lemma_stmts(stmts, i + 1, f, fs);
        lemma_builds_extends(g, f);
        lemma_builds_extends(f, h);
        lemma_ready_first(m, g, f, h, s, bindings, layout);
        let r1 = lemma_stmt_runs(m, stmts[i], g, f, s, bindings, layout, fuel);
        match execute(stmts[i], bindings, s.world, m.setting, fuel) {
            Progress::Goes { bindings: after, .. } => {
                let t = r1.1;
                lemma_placed_parts(m, g, f, h);
                let r2 = lemma_stmts_run(m, stmts, i + 1, f, h, t, after, r1.2, fuel);
                let progress = execute_all(stmts, i + 1, after, t.world, m.setting, fuel);
                let r = lemma_progress_behind(m, s, r1.0, t, r2, h, after, r1.2, progress, fuel);
                if let Progress::Goes { bindings: last, .. } = progress {
                    assert(r.2.take(layout.len() as int) =~= layout) by {
                        assert(r.2.take(r1.2.len() as int).take(layout.len() as int) =~= layout);
                    }
                    assert forall|j: int| 0 <= j < bindings.len() implies alike(
                        #[trigger] last[j],
                        bindings[j],
                    ) by {
                        assert(alike(after[j], bindings[j]));
                    }
                }
                r
            },
            _ => r1,
        }
    } else {
        assert(leads(m, s, 0, s));
        assert(layout.take(layout.len() as int) =~= layout);
        (0, s, layout)
    }
}

/// The code of a block does what the block means.
proof fn lemma_block_runs<W>(
    m: Scene<W>,
    stmts: Seq<StmtView>,
    g: Gen,
    h: Gen,
    s: State<W>,
    bindings: Seq<Binding>,
    layout: Seq<Register>,
    fuel: nat,
) -> (r: (nat, State<W>, Seq<Register>))
    requires
        ready(m, g, h, s, bindings, layout),
        stmts_listed(stmts, 0, g.next_function_id, m.setting.literals),
        gen_block(stmts, g, m.setting.functions) == Ok::<Gen, CompileErrorView>(h),
    ensures
        progressed(
            m,
            s,
            r,
            h,
            bindings,
            layout,
            execute_block(stmts, bindings, s.world, m.setting, fuel),
            fuel,
        ),
        execute_block(stmts, bindings, s.world, m.setting, fuel) matches Progress::Goes {
            bindings: after,
            ..
        } ==> after.len() == bindings.len() && r.2 == layout,
    decreases fuel, stmts, stmts.len() + 1,
{
    let f = gen_stmts(stmts, 0, g, m.setting.functions)->Ok_0;
    lemma_stmts(stmts, 0, g, m.setting.functions);
    let r = lemma_stmts_run(m, stmts, 0, g, f, s, bindings, layout, fuel);
    match execute_all(stmts, 0, bindings, s.world, m.setting, fuel) {
        Progress::Goes { bindings: inner, .. } => {
            let after = inner.take(bindings.len() as int);
            assert forall|j: int| 0 <= j < bindings.len() implies alike(
                #[trigger] bindings[j],
                after[j],
            ) by {
                assert(alike(inner[j], bindings[j]));
            }
            lemma_laid_out_again(bindings, after, layout, g);
            lemma_laid_out_later(after, layout, g, h);
            assert forall|j: int| 0 <= j < after.len() implies (#[trigger] layout[j]).0
                < r.1.registers.len() && r.1.registers[layout[j].0 as int] == after[j].value by {
                assert(r.2.take(layout.len() as int)[j] == r.2[j]);
            }
            assert(layout.take(layout.len() as int) =~= layout);
            (r.0, r.1, layout)
        },
        _ => r,
    }
}

/// The code of a statement does what the statement means.
proof fn lemma_stmt_runs<W>(
    m: Scene<W>,
    stmt: StmtView,
    g: Gen,
    h: Gen,
    s: State<W>,
    bindings: Seq<Binding>,
    layout: Seq<Register>,
    fuel: nat,
) -> (r: (nat, State<W>, Seq<Register>))
    requires
        ready(m, g, h, s, bindings, layout),
        stmt_listed(stmt, g.next_function_id, m.setting.literals),
        gen_stmt(stmt, g, m.setting.functions) == Ok::<Gen, CompileErrorView>(h),
    ensures
        progressed(
            m,
            s,
            r,
            h,
            bindings,
            layout,
            execute(stmt, bindings, s.world, m.setting, fuel),
            fuel,
        ),
    decreases fuel, stmt, 3int,
{
    assert(leads(m, s, 0, s));
    assert(layout.take(layout.len() as int) =~= layout);
    match stmt {
        StmtView::Import { .. } => (0, s, layout),
        StmtView::Function { .. } => (0, s, layout),
        StmtView::Let { .. } => lemma_let_runs(m, stmt, g, h, s, bindings, layout, fuel),
        StmtView::Assign { .. } => lemma_assign_runs(m, stmt, g, h, s, bindings, layout, fuel),
        StmtView::IndexAssign { .. } => lemma_index_assign_runs(
            m,
            stmt,
            g,
            h,
            s,
            bindings,
            layout,
            fuel,
        ),
        StmtView::Return { .. } => lemma_return_runs(m, stmt, g, h, s, bindings, layout, fuel),
        StmtView::Expr { .. } => lemma_value_runs(m, stmt, g, h, s, bindings, layout, fuel),
        StmtView::Block { statements, .. } => lemma_block_runs(
            m,
            statements,
            g,
            h,
            s,
            bindings,
            layout,
            fuel,
        ),
        StmtView::If { .. } => lemma_if_runs(m, stmt, g, h, s, bindings, layout, fuel),
        StmtView::While { .. } => lemma_while_runs(m, stmt, g, h, s, bindings, layout, fuel),
    }
}

proof fn lemma_let_runs<W>(
    m: Scene<W>,
    stmt: StmtView,
    g: Gen,
    h: Gen,
    s: State<W>,
    bindings: Seq<Binding>,
    layout: Seq<Register>,
    fuel: nat,
) -> (r: (nat, State<W>, Seq<Register>))
    requires
        stmt is Let,
        ready(m, g, h, s, bindings, layout),
        stmt_listed(stmt, g.next_function_id, m.setting.literals),
        gen_stmt(stmt, g, m.setting.functions) == Ok::<Gen, CompileErrorView>(h),
    ensures
        progressed(
            m,
            s,
            r,
            h,
            bindings,
            layout,
            execute(stmt, bindings, s.world, m.setting, fuel),
            fuel,
        ),
{
    let fs = m.setting.functions;
    if let StmtView::Let { name, initializer, span, .. } = stmt {
        lemma_fresh(g);
        let (e, register) = fresh(g)->Ok_0;
        let pushed = layout.push(register);
        let cell = g.boxed.contains(name);
        if cell && initializer is Function {
            lemma_let_function_runs(m, stmt, g, h, s, bindings, layout, fuel)
        } else {
            let f = gen_into(initializer, register, e, fs)->Ok_0;
            let last = Instruction::MakeUpvalue { dst: register, src: register };
            lemma_into(initializer, register, e, fs);
            lemma_builds_extends(e, f);
            lemma_extends_itself(f);
            lemma_extends_emitted(f, f, last, Some(span));
            assert(extends(f, h));
            assert(ready(m, e, h, s, bindings, layout));
            lemma_ready_first(m, e, f, h, s, bindings, layout);
            let r = lemma_into_runs(m, initializer, register, e, f, s, bindings, layout);
            match evaluate(initializer, bindings, s.world, m.setting) {
                Effect::Raises { .. } => (r.0, r.1, layout),
                Effect::Gives { value, world } => {
                    let t = r.1;
                    if cell {
                        assert(m.body.instructions[t.ip] == h.code[t.ip]);
                        let effect = other(m.setting.effects, last, t.registers, t.world);
                        let u = lemma_takes(m, s, r.0, t, Some(register), effect);
                        if let Effect::Gives { value: inside, .. } = effect {
                            let after = bindings.push(Binding { name, value: inside, cell });
                            lemma_defined(name, inside, cell, register, bindings, layout, g, h);
                            assert(pushed.take(layout.len() as int) =~= layout);
                            assert(filled(after, pushed, u.registers));
                            (r.0 + 1, u, pushed)
                        } else {
                            (r.0 + 1, u, layout)
                        }
                    } else {
                        let after = bindings.push(Binding { name, value, cell });
                        lemma_defined(name, value, cell, register, bindings, layout, g, h);
                        assert(pushed.take(layout.len() as int) =~= layout);
                        assert(filled(after, pushed, t.registers));
                        (r.0, t, pushed)
                    }
                },
            }
        }
    } else {
        (0, s, layout)
    }
}

/// A variable that is defined has a register of its own.
proof fn lemma_defined(
    name: Seq<char>,
    value: Value,
    cell: bool,
    register: Register,
    bindings: Seq<Binding>,
    layout: Seq<Register>,
    g: Gen,
    h: Gen,
)
    requires
        laid_out(bindings, layout, g),
        h.locals == g.locals.insert(name, Local { register, cell }),
        g.next_register <= h.next_register,
        register.0 < h.next_register,
        forall|i: int| 0 <= i < layout.len() ==> (#[trigger] layout[i]) != register,
    ensures
        laid_out(bindings.push(Binding { name, value, cell }), layout.push(register), h),
{
    let after = bindings.push(Binding { name, value, cell });
    let pushed = layout.push(register);
    assert(after.drop_last() =~= bindings);
    assert forall|other: Seq<char>| #[trigger]
        h.locals.contains_key(other) <==> place(after, other) >= 0 by {
        assert(h.locals.contains_key(other) <==> other == name || g.locals.contains_key(other));
    }
    assert forall|other: Seq<char>| #[trigger]
        h.locals.contains_key(other) implies h.locals[other] == (Local {
        register: pushed[place(after, other)],
        cell: after[place(after, other)].cell,
    }) by {
        if other != name {
            assert(g.locals.contains_key(other));
            lemma_place(bindings, other);
        }
    }
}

/// A variable in a cell that holds a function which may capture it.
proof fn lemma_let_function_runs<W>(
    m: Scene<W>,
    stmt: StmtView,
    g: Gen,
    h: Gen,
    s: State<W>,
    bindings: Seq<Binding>,
    layout: Seq<Register>,
    fuel: nat,
) -> (r: (nat, State<W>, Seq<Register>))
    requires
        stmt matches StmtView::Let { name, initializer, .. } && initializer is Function
            && g.boxed.contains(name),
        ready(m, g, h, s, bindings, layout),
        stmt_listed(stmt, g.next_function_id, m.setting.literals),
        gen_stmt(stmt, g, m.setting.functions) == Ok::<Gen, CompileErrorView>(h),
    ensures
        progressed(
            m,
            s,
            r,
            h,
            bindings,
            layout,
            execute(stmt, bindings, s.world, m.setting, fuel),
            fuel,
        ),
{
    let fs = m.setting.functions;
    let o = m.setting.operations;
    if let StmtView::Let { name, initializer, span, .. } = stmt {
        lemma_fresh(g);
        let (e, register) = fresh(g)->Ok_0;
        let make = Instruction::MakeUpvalue { dst: register, src: register };
        let b = boxed_register(register, span, e);
        let n = named_local(name, register, true, b);
        let (f, src) = gen_expr(initializer, n, fs)->Ok_0;
        let store = Instruction::StoreUpvalue { upvalue: register, src };
        let pushed = layout.push(register);
        let params = initializer->Function_params;
        let body = initializer->Function_body;
        let function = m.setting.literals[initializer];
        let captured = captured_with(params, body, name, bindings, m.setting);
        let junk = content(s.registers, register);
        lemma_emit(e, make, Some(span));
        lemma_named(name, register, true, b);
        lemma_expr(initializer, n, fs);
        lemma_builds_extends(n, f);
        assert(f.locals == n.locals);
        assert(h == emit(f, store, Some(span)));
        lemma_extends_itself(f);
        lemma_extends_emitted(f, f, store, Some(span));
        lemma_builds_extends(e, b);
        assert(extends(e, n));
        lemma_extends_both(n, f, h);
        assert(ready(m, e, h, s, bindings, layout));
        lemma_placed_parts(m, e, n, h);
        assert(leads(m, s, 0, s));
        assert(n.code[s.ip] == make);
        assert(m.body.instructions[s.ip] == n.code[s.ip]);
        assert(tied(junk, function, captured, s.world, o) == tied(
            Value::Nil,
            function,
            captured,
            s.world,
            o,
        ));
        let made = other(m.setting.effects, make, s.registers, s.world);
        let t = lemma_takes(m, s, 0, s, Some(register), made);
        match made {
            Effect::Raises { .. } => (1, t, layout),
            Effect::Gives { value: cell, .. } => {
                let inner = bindings.push(Binding { name, value: cell, cell: true });
                lemma_defined(name, cell, true, register, bindings, layout, g, n);
                assert(filled(inner, pushed, t.registers));
                assert(ready(m, n, h, t, inner, pushed));
                lemma_ready_first(m, n, f, h, t, inner, pushed);
                let r = lemma_expr_runs(m, initializer, src, n, f, t, inner, pushed);
                assert(captured(cell) == captured_cells(params, body, inner, m.setting));
                match evaluate(initializer, inner, t.world, m.setting) {
                    Effect::Raises { value, world } => {
                        lemma_leads_to_end(m, s, 1, t, r.0, Ending::Uncaught { value, world });
                        (1 + r.0, t, layout)
                    },
                    Effect::Gives { value, .. } => {
                        let u = r.1;
                        lemma_leads_both(m, s, 1, t, r.0, u);
                        assert(m.body.instructions[u.ip] == h.code[u.ip]);
                        assert(content(u.registers, register) == cell);
                        let stored = other(m.setting.effects, store, u.registers, u.world);
                        let v = lemma_takes(m, s, 1 + r.0, u, None, stored);
                        if stored is Gives {
                            lemma_still_filled(
                                inner,
                                pushed,
                                t.registers,
                                u.registers,
                                n.next_register,
                            );
                            lemma_laid_out_later(inner, pushed, n, h);
                            assert(pushed.take(layout.len() as int) =~= layout);
                        }
                        (1 + r.0 + 1, v, pushed)
                    },
                }
            },
        }
    } else {
        (0, s, layout)
    }
}

proof fn lemma_assign_runs<W>(
    m: Scene<W>,
    stmt: StmtView,
    g: Gen,
    h: Gen,
    s: State<W>,
    bindings: Seq<Binding>,
    layout: Seq<Register>,
    fuel: nat,
) -> (r: (nat, State<W>, Seq<Register>))
    requires
        stmt is Assign,
        ready(m, g, h, s, bindings, layout),
        stmt_listed(stmt, g.next_function_id, m.setting.literals),
        gen_stmt(stmt, g, m.setting.functions) == Ok::<Gen, CompileErrorView>(h),
    ensures
        progressed(
            m,
            s,
            r,
            h,
            bindings,
            layout,
            execute(stmt, bindings, s.world, m.setting, fuel),
            fuel,
        ),
{
    let fs = m.setting.functions;
    assert(layout.take(layout.len() as int) =~= layout);
    if let StmtView::Assign { name, value, span } = stmt {
        let at = place(bindings, name);
        if g.locals.contains_key(name) {
            lemma_variable(m, g, h, s, bindings, layout, name);
        }
        if g.locals.contains_key(name) && !g.locals[name].cell {
            let register = g.locals[name].register;
            lemma_into(value, register, g, fs);
            let r = lemma_into_runs(m, value, register, g, h, s, bindings, layout);
            if let Effect::Gives { value, .. } = evaluate(value, bindings, s.world, m.setting) {
                let after = bindings.update(at, Binding { name, value, cell: false });
                assert forall|j: int| 0 <= j < bindings.len() implies alike(
                    #[trigger] bindings[j],
                    after[j],
                ) by {}
                lemma_laid_out_again(bindings, after, layout, g);
                lemma_laid_out_later(after, layout, g, h);
                assert forall|j: int| 0 <= j < after.len() implies (#[trigger] layout[j]).0
                    < r.1.registers.len() && r.1.registers[layout[j].0 as int] == after[j].value by {
                    if j < at {
                        assert(layout[j] != layout[at]);
                    } else if at < j {
                        assert(layout[at] != layout[j]);
                    }
                }
            }
            (r.0, r.1, layout)
        } else {
            let (f, src) = gen_expr(value, g, fs)->Ok_0;
            lemma_expr(value, g, fs);
            lemma_builds_extends(g, f);
            let last = if g.locals.contains_key(name) {
                Instruction::StoreUpvalue { upvalue: g.locals[name].register, src }
            } else {
                assert(g.captures.contains_key(name));
                Instruction::StoreCapture { capture: g.captures[name], src }
            };
            assert(h == emit(f, last, Some(span)));
            lemma_extends_itself(f);
            lemma_extends_emitted(f, f, last, Some(span));
            lemma_ready_first(m, g, f, h, s, bindings, layout);
            let r = lemma_expr_runs(m, value, src, g, f, s, bindings, layout);
            match evaluate(value, bindings, s.world, m.setting) {
                Effect::Raises { .. } => (r.0, r.1, layout),
                Effect::Gives { value, .. } => {
                    let t = r.1;
                    assert(m.body.instructions[t.ip] == h.code[t.ip]);
                    let effect = other(m.setting.effects, last, t.registers, t.world);
                    assert(effect == (m.setting.operations.set)(
                        cell_of(bindings, name, m.setting),
                        value,
                        t.world,
                    ));
                    let u = lemma_takes(m, s, r.0, t, None, effect);
                    lemma_still_filled(bindings, layout, s.registers, t.registers, g.next_register);
                    lemma_laid_out_later(bindings, layout, g, h);
                    (r.0 + 1, u, layout)
                },
            }
        }
    } else {
        (0, s, layout)
    }
}

proof fn lemma_return_runs<W>(
    m: Scene<W>,
    stmt: StmtView,
    g: Gen,
    h: Gen,
    s: State<W>,
    bindings: Seq<Binding>,
    layout: Seq<Register>,
    fuel: nat,
) -> (r: (nat, State<W>, Seq<Register>))
    requires
        stmt is Return,
        ready(m, g, h, s, bindings, layout),
        stmt_listed(stmt, g.next_function_id, m.setting.literals),
        gen_stmt(stmt, g, m.setting.functions) == Ok::<Gen, CompileErrorView>(h),
    ensures
        progressed(
            m,
            s,
            r,
            h,
            bindings,
            layout,
            execute(stmt, bindings, s.world, m.setting, fuel),
            fuel,
        ),
{
    let fs = m.setting.functions;
    if let StmtView::Return { value, span } = stmt {
        let (f, src) = gen_expr(value, g, fs)->Ok_0;
        lemma_expr(value, g, fs);
        lemma_builds_extends(g, f);
        lemma_extends_emitted(g, f, Instruction::Return { src }, Some(span));
        lemma_ready_first(m, g, f, h, s, bindings, layout);
        let r = lemma_expr_runs(m, value, src, g, f, s, bindings, layout);
        match evaluate(value, bindings, s.world, m.setting) {
            Effect::Gives { value, world } => {
                let t = r.1;
                assert(m.body.instructions[t.ip] == h.code[t.ip]);
                let ending = Ending::Returned { value, world };
                assert(ends(m, t, 1, ending));
                lemma_leads_to_end(m, s, r.0, t, 1, ending);
                (r.0 + 1, t, layout)
            },
            Effect::Raises { .. } => (r.0, r.1, layout),
        }
    } else {
        (0, s, layout)
    }
}

proof fn lemma_index_assign_runs<W>(
    m: Scene<W>,
    stmt: StmtView,
    g: Gen,
    h: Gen,
    s: State<W>,
    bindings: Seq<Binding>,
    layout: Seq<Register>,
    fuel: nat,
) -> (r: (nat, State<W>, Seq<Register>))
    requires
        stmt is IndexAssign,
        ready(m, g, h, s, bindings, layout),
        stmt_listed(stmt, g.next_function_id, m.setting.literals),
        gen_stmt(stmt, g, m.setting.functions) == Ok::<Gen, CompileErrorView>(h),
    ensures
        progressed(
            m,
            s,
            r,
            h,
            bindings,
            layout,
            execute(stmt, bindings, s.world, m.setting, fuel),
            fuel,
        ),
{
    let fs = m.setting.functions;
    if let StmtView::IndexAssign { target, index, value, span } = stmt {
        let (e, first) = gen_expr(target, g, fs)->Ok_0;
        let (f, second) = gen_expr(index, e, fs)->Ok_0;
        let (k, third) = gen_expr(value, f, fs)->Ok_0;
        let last = Instruction::IndexSet { target: first, index: second, value: third };
        lemma_expr(target, g, fs);
        lemma_expr(index, e, fs);
        lemma_expr(value, f, fs);
        lemma_expr_literals(target, g, fs);
        lemma_expr_literals(index, e, fs);
        lemma_builds_extends(g, e);
        lemma_builds_extends(e, f);
        lemma_builds_extends(f, k);
        lemma_extends_emitted(f, k, last, Some(span));
        lemma_extends_both(e, f, h);
        lemma_extends_both(e, f, k);
        lemma_extends_both(g, e, h);
        lemma_ready_first(m, g, e, h, s, bindings, layout);
        let r1 = lemma_expr_runs(m, target, first, g, e, s, bindings, layout);
        match evaluate(target, bindings, s.world, m.setting) {
            Effect::Raises { .. } => (r1.0, r1.1, layout),
            Effect::Gives { value: a, .. } => {
                let t = r1.1;
                lemma_ready_second(m, g, e, f, h, s, t, bindings, layout);
                let r2 = lemma_expr_runs(m, index, second, e, f, t, bindings, layout);
                match evaluate(index, bindings, t.world, m.setting) {
                    Effect::Raises { value, world } => {
                        let ending = Ending::Uncaught { value, world };
                        lemma_leads_to_end(m, s, r1.0, t, r2.0, ending);
                        (r1.0 + r2.0, t, layout)
                    },
                    Effect::Gives { value: b, .. } => {
                        let u = r2.1;
                        lemma_leads_both(m, s, r1.0, t, r2.0, u);
                        assert(kept(s.registers, u.registers, g.next_register, -1));
                        lemma_extends_both(g, e, f);
                        lemma_ready_second(m, g, f, k, h, s, u, bindings, layout);
                        let r3 = lemma_expr_runs(m, value, third, f, k, u, bindings, layout);
                        match evaluate(value, bindings, u.world, m.setting) {
                            Effect::Raises { value, world } => {
                                let ending = Ending::Uncaught { value, world };
                                lemma_leads_to_end(m, s, r1.0 + r2.0, u, r3.0, ending);
                                (r1.0 + r2.0 + r3.0, u, layout)
                            },
                            Effect::Gives { value: c, .. } => {
                                let v = r3.1;
                                let n = r1.0 + r2.0 + r3.0;
                                lemma_leads_both(m, s, r1.0 + r2.0, u, r3.0, v);
                                assert(kept(s.registers, v.registers, g.next_register, -1));
                                assert(m.body.instructions[v.ip] == h.code[v.ip]);
                                let effect = other(m.setting.effects, last, v.registers, v.world);
                                assert(content(v.registers, first) == a);
                                assert(content(v.registers, second) == b);
                                let w = lemma_takes(m, s, n, v, None, effect);
                                lemma_still_filled(
                                    bindings,
                                    layout,
                                    s.registers,
                                    v.registers,
                                    g.next_register,
                                );
                                lemma_laid_out_later(bindings, layout, g, h);
                                assert(layout.take(layout.len() as int) =~= layout);
                                (n + 1, w, layout)
                            },
                        }
                    },
                }
            },
        }
    } else {
        (0, s, layout)
    }
}

proof fn lemma_value_runs<W>(
    m: Scene<W>,
    stmt: StmtView,
    g: Gen,
    h: Gen,
    s: State<W>,
    bindings: Seq<Binding>,
    layout: Seq<Register>,
    fuel: nat,
) -> (r: (nat, State<W>, Seq<Register>))
    requires
        stmt is Expr,
        ready(m, g, h, s, bindings, layout),
        stmt_listed(stmt, g.next_function_id, m.setting.literals),
        gen_stmt(stmt, g, m.setting.functions) == Ok::<Gen, CompileErrorView>(h),
    ensures
        progressed(
            m,
            s,
            r,
            h,
            bindings,
            layout,
            execute(stmt, bindings, s.world, m.setting, fuel),
            fuel,
        ),
{
    let fs = m.setting.functions;
    assert(layout.take(layout.len() as int) =~= layout);
    if let StmtView::Expr { value, .. } = stmt {
        let (_, register) = gen_expr(value, g, fs)->Ok_0;
        lemma_expr(value, g, fs);
        let r = lemma_expr_runs(m, value, register, g, h, s, bindings, layout);
        if evaluate(value, bindings, s.world, m.setting) is Gives {
            lemma_still_filled(bindings, layout, s.registers, r.1.registers, g.next_register);
            lemma_laid_out_later(bindings, layout, g, h);
        }
        (r.0, r.1, layout)
    } else {
        (0, s, layout)
    }
}

// ---------------------------------------------------------------------------
// Branches and loops
// ---------------------------------------------------------------------------

/// A piece of some code: it stands there as it was generated.
pub open spec fn piece_of(p: Gen, q: Gen, h: Gen) -> bool {
    &&& p.code.len() <= q.code.len() <= h.code.len()
    &&& forall|i: int| p.code.len() <= i < q.code.len() ==> #[trigger] h.code[i] == q.code[i]
    &&& q.constants.len() <= h.constants.len()
    &&& h.constants.take(q.constants.len() as int) == q.constants
    &&& q.strings.len() <= h.strings.len()
    &&& h.strings.take(q.strings.len() as int) == q.strings
    &&& q.next_register <= h.next_register
}

/// A piece of some code is ready where control reaches it with the variables in place.
proof fn lemma_piece_ready<W>(
    m: Scene<W>,
    g: Gen,
    h: Gen,
    p: Gen,
    q: Gen,
    s: State<W>,
    t: State<W>,
    bindings: Seq<Binding>,
    layout: Seq<Register>,
)
    requires
        ready(m, g, h, s, bindings, layout),
        piece_of(p, q, h),
        g.code.len() <= p.code.len(),
        in_order(p),
        p.locals == g.locals,
        p.captures == g.captures,
        p.boxed == g.boxed,
        g.next_register <= p.next_register,
        t.ip == p.code.len(),
        t.handlers == s.handlers,
        kept(s.registers, t.registers, g.next_register, -1),
    ensures
        ready(m, p, q, t, bindings, layout),
{
    lemma_still_filled(bindings, layout, s.registers, t.registers, g.next_register);
    lemma_laid_out_later(bindings, layout, g, p);
    assert forall|i: int| 0 <= i < q.constants.len() implies
        #[trigger] m.body.constants[i] == q.constants[i] by {
        assert(h.constants.take(q.constants.len() as int)[i] == h.constants[i]);
    }
    assert forall|i: int| 0 <= i < q.strings.len() implies
        #[trigger] m.strings[i] == q.strings[i] by {
        assert(h.strings.take(q.strings.len() as int)[i] == h.strings[i]);
    }
}

/// A condition is evaluated and tested, and control goes on or elsewhere.
proof fn lemma_condition_runs<W>(
    m: Scene<W>,
    condition: ExprView,
    register: Register,
    target: u32,
    g: Gen,
    e: Gen,
    h: Gen,
    s: State<W>,
    bindings: Seq<Binding>,
    layout: Seq<Register>,
) -> (r: (nat, State<W>))
    requires
        ready(m, g, h, s, bindings, layout),
        listed(condition, g.next_function_id, m.setting.literals),
        gen_expr(condition, g, m.setting.functions) == Ok::<(Gen, Register), CompileErrorView>(
            (e, register),
        ),
        piece_of(g, e, h),
        e.code.len() < h.code.len(),
        h.code[e.code.len() as int] == (Instruction::JumpIfFalse {
            condition: register,
            target: JumpTarget(target),
        }),
    ensures
        match evaluate(condition, bindings, s.world, m.setting) {
            Effect::Gives { value, world } => match tested(value, world, m.setting) {
                Test::Truth { holds } => {
                    let t = r.1;
                    &&& leads(m, s, r.0, t)
                    &&& t.ip == if holds {
                        (e.code.len() + 1) as int
                    } else {
                        target as int
                    }
                    &&& t.handlers == s.handlers
                    &&& t.world == world
                    &&& kept(s.registers, t.registers, g.next_register, -1)
                },
                Test::Raises { value, world } => ends(
                    m,
                    s,
                    r.0,
                    Ending::Uncaught { value, world },
                ),
            },
            Effect::Raises { value, world } => ends(m, s, r.0, Ending::Uncaught { value, world }),
        },
{
    assert(kept(s.registers, s.registers, g.next_register, -1));
    lemma_piece_ready(m, g, h, g, e, s, s, bindings, layout);
    let r = lemma_expr_runs(m, condition, register, g, e, s, bindings, layout);
    match evaluate(condition, bindings, s.world, m.setting) {
        Effect::Gives { value, world } => {
            let t = r.1;
            lemma_expr(condition, g, m.setting.functions);
            assert(m.body.instructions[t.ip] == h.code[t.ip]);
            assert(content(t.registers, register) == value);
            match tested(value, world, m.setting) {
                Test::Truth { holds } => {
                    let u = State {
                        ip: if holds {
                            t.ip + 1
                        } else {
                            target as int
                        },
                        ..t
                    };
                    assert(leads(m, u, 0, u));
                    assert(leads(m, t, 1, u));
                    lemma_leads_both(m, s, r.0, t, 1, u);
                    (r.0 + 1, u)
                },
                Test::Raises { value, world } => {
                    let ending = Ending::Uncaught { value, world };
                    assert(ends(m, t, 1, ending));
                    lemma_leads_to_end(m, s, r.0, t, 1, ending);
                    (r.0 + 1, t)
                },
            }
        },
        Effect::Raises { .. } => r,
    }
}

/// A block at the end of which control is behind the whole.
proof fn lemma_branch_runs<W>(
    m: Scene<W>,
    stmts: Seq<StmtView>,
    g: Gen,
    h: Gen,
    p: Gen,
    q: Gen,
    s: State<W>,
    n: nat,
    t: State<W>,
    bindings: Seq<Binding>,
    layout: Seq<Register>,
    fuel: nat,
) -> (r: (nat, State<W>, Seq<Register>))
    requires
        ready(m, g, h, s, bindings, layout),
        stmts_listed(stmts, 0, p.next_function_id, m.setting.literals),
        gen_block(stmts, p, m.setting.functions) == Ok::<Gen, CompileErrorView>(q),
        piece_of(p, q, h),
        g.code.len() <= p.code.len(),
        in_order(p),
        p.locals == g.locals,
        h.locals == g.locals,
        p.captures == g.captures,
        p.boxed == g.boxed,
        g.next_register <= p.next_register,
        leads(m, s, n, t),
        t.ip == p.code.len(),
        t.handlers == s.handlers,
        kept(s.registers, t.registers, g.next_register, -1),
        ({
            ||| q.code.len() == h.code.len()
            ||| q.code.len() < h.code.len() && h.code[q.code.len() as int] == (Instruction::Jump {
                target: JumpTarget(h.code.len() as u32),
            }) && h.code.len() <= u32::MAX
            ||| always_return(stmts)
        }),
    ensures
        progressed(
            m,
            s,
            r,
            h,
            bindings,
            layout,
            execute_block(stmts, bindings, t.world, m.setting, fuel),
            fuel,
        ),
    decreases fuel, stmts, stmts.len() + 2,
{
    lemma_piece_ready(m, g, h, p, q, s, t, bindings, layout);
    let r1 = lemma_block_runs(m, stmts, p, q, t, bindings, layout, fuel);
    let progress = execute_block(stmts, bindings, t.world, m.setting, fuel);
    let r = lemma_progress_behind(m, s, n, t, r1, q, bindings, layout, progress, fuel);
    if let Progress::Goes { bindings: after, .. } = progress {
        if always_return(stmts) {
            lemma_never_past(stmts, 0, bindings, t.world, m.setting, fuel);
        }
        lemma_block(stmts, p, m.setting.functions);
        lemma_laid_out_later(after, layout, q, h);
        if q.code.len() == h.code.len() {
            r
        } else {
            let v = State { ip: h.code.len() as int, ..r.1 };
            assert(m.body.instructions[r.1.ip] == h.code[r.1.ip]);
            assert(leads(m, v, 0, v));
            assert(leads(m, r.1, 1, v));
            lemma_leads_both(m, s, r.0, r.1, 1, v);
            (r.0 + 1, v, layout)
        }
    } else {
        r
    }
}

/// Code before a jump that is pointed at its target afterwards.
proof fn lemma_patched(g: Gen, index: nat)
    requires
        index < g.code.len(),
        in_order(g),
    ensures
        patch_here(g, index) matches Ok(h) ==> {
            &&& in_order(h)
            &&& g.code.len() <= u32::MAX
            &&& h.code.len() == g.code.len()
            &&& h.code[index as int] == retargeted(g.code[index as int], g.code.len() as u32)
            &&& forall|i: int|
                0 <= i < g.code.len() && i != index ==> #[trigger] h.code[i] == g.code[i]
            &&& h.locals == g.locals
            &&& h.captures == g.captures
            &&& h.boxed == g.boxed
            &&& h.constants == g.constants
            &&& h.strings == g.strings
            &&& h.next_register == g.next_register
            &&& h.next_function_id == g.next_function_id
        },
{
}

/// What generating a block behind other code leaves as it is.
proof fn lemma_block_after(stmts: Seq<StmtView>, p: Gen, fs: FunctionIds)
    requires
        in_order(p),
    ensures
        gen_block(stmts, p, fs) matches Ok(q) ==> {
            &&& in_order(q)
            &&& extends(p, q)
            &&& q.locals == p.locals
            &&& forall|i: int| 0 <= i < p.code.len() ==> #[trigger] q.code[i] == p.code[i]
        },
{
    lemma_block(stmts, p, fs);
    if let Ok(q) = gen_block(stmts, p, fs) {
        lemma_builds_extends(p, q);
        assert forall|i: int| 0 <= i < p.code.len() implies #[trigger] q.code[i] == p.code[i] by {
            assert(q.code.take(p.code.len() as int)[i] == q.code[i]);
        }
    }
}

/// The code of a condition and of the branch behind it.
proof fn lemma_if_start(
    condition: ExprView,
    then_branch: Seq<StmtView>,
    span: SourceSpan,
    g: Gen,
    fs: FunctionIds,
)
    requires
        in_order(g),
    ensures
        gen_expr(condition, g, fs) matches Ok((e, register)) ==> {
            let jumped = emit(e, open_jump_if_false(register), Some(span));
            &&& extends(g, e)
            &&& in_order(jumped)
            &&& e.locals == g.locals
            &&& extends(e, jumped)
            &&& jumped.next_function_id == g.next_function_id + literals_in(condition)
            &&& gen_block(then_branch, jumped, fs) matches Ok(f) ==> {
                &&& in_order(f)
                &&& extends(jumped, f)
                &&& extends(e, f)
                &&& f.locals == g.locals
                &&& f.next_function_id == jumped.next_function_id + literals_in_stmts(
                    then_branch,
                    0,
                )
                &&& f.code[e.code.len() as int] == open_jump_if_false(register)
                &&& forall|i: int| 0 <= i < e.code.len() ==> #[trigger] f.code[i] == e.code[i]
            }
        },
{
    lemma_expr(condition, g, fs);
    lemma_expr_literals(condition, g, fs);
    if let Ok((e, register)) = gen_expr(condition, g, fs) {
        let jumped = emit(e, open_jump_if_false(register), Some(span));
        lemma_builds_extends(g, e);
        lemma_extends_itself(e);
        lemma_extends_emitted(e, e, open_jump_if_false(register), Some(span));
        assert(in_order(jumped));
        lemma_block_after(then_branch, jumped, fs);
        lemma_block_literals(then_branch, jumped, fs);
        if let Ok(f) = gen_block(then_branch, jumped, fs) {
            lemma_extends_both(e, jumped, f);
            assert forall|i: int| 0 <= i < e.code.len() implies #[trigger] f.code[i] == e.code[i] by {
                assert(jumped.code[i] == e.code[i]);
            }
        }
    }
}

proof fn lemma_if_runs<W>(
    m: Scene<W>,
    stmt: StmtView,
    g: Gen,
    h: Gen,
    s: State<W>,
    bindings: Seq<Binding>,
    layout: Seq<Register>,
    fuel: nat,
) -> (r: (nat, State<W>, Seq<Register>))
    requires
        stmt is If,
        ready(m, g, h, s, bindings, layout),
        stmt_listed(stmt, g.next_function_id, m.setting.literals),
        gen_stmt(stmt, g, m.setting.functions) == Ok::<Gen, CompileErrorView>(h),
    ensures
        progressed(
            m,
            s,
            r,
            h,
            bindings,
            layout,
            execute(stmt, bindings, s.world, m.setting, fuel),
            fuel,
        ),
    decreases fuel, stmt, 2int,
{
    if stmt->else_branch.len() == 0 {
        lemma_if_alone_runs(m, stmt, g, h, s, bindings, layout, fuel)
    } else if always_return(stmt->then_branch) {
        lemma_if_returning_runs(m, stmt, g, h, s, bindings, layout, fuel)
    } else {
        lemma_if_else_runs(m, stmt, g, h, s, bindings, layout, fuel)
    }
}

proof fn lemma_if_alone_runs<W>(
    m: Scene<W>,
    stmt: StmtView,
    g: Gen,
    h: Gen,
    s: State<W>,
    bindings: Seq<Binding>,
    layout: Seq<Register>,
    fuel: nat,
) -> (r: (nat, State<W>, Seq<Register>))
    requires
        stmt is If,
        ready(m, g, h, s, bindings, layout),
        stmt_listed(stmt, g.next_function_id, m.setting.literals),
        gen_stmt(stmt, g, m.setting.functions) == Ok::<Gen, CompileErrorView>(h),
        stmt->else_branch.len() == 0,
    ensures
        progressed(
            m,
            s,
            r,
            h,
            bindings,
            layout,
            execute(stmt, bindings, s.world, m.setting, fuel),
            fuel,
        ),
    decreases fuel, stmt, 1int,
{
    let fs = m.setting.functions;
    let condition = stmt->If_condition;
    let then_branch = stmt->then_branch;
    let else_branch = stmt->else_branch;
    let span = stmt->If_span;
    let (e, register) = gen_expr(condition, g, fs)->Ok_0;
    let to_else = e.code.len();
    let jumped = emit(e, open_jump_if_false(register), Some(span));
    let f = gen_block(then_branch, jumped, fs)->Ok_0;
    lemma_if_start(condition, then_branch, span, g, fs);
    lemma_patched(f, to_else);
    assert(piece_of(h, h, h)) by {
        lemma_extends_itself(h);
    }
    let target = f.code.len() as u32;
    assert(piece_of(g, e, h));
    assert(piece_of(jumped, f, h));
    let r1 = lemma_condition_runs(m, condition, register, target, g, e, h, s, bindings, layout);
    lemma_if_ends(m, stmt, g, h, jumped, f, h, h, s, r1, target, bindings, layout, fuel)
}

proof fn lemma_if_returning_runs<W>(
    m: Scene<W>,
    stmt: StmtView,
    g: Gen,
    h: Gen,
    s: State<W>,
    bindings: Seq<Binding>,
    layout: Seq<Register>,
    fuel: nat,
) -> (r: (nat, State<W>, Seq<Register>))
    requires
        stmt is If,
        ready(m, g, h, s, bindings, layout),
        stmt_listed(stmt, g.next_function_id, m.setting.literals),
        gen_stmt(stmt, g, m.setting.functions) == Ok::<Gen, CompileErrorView>(h),
        stmt->else_branch.len() > 0,
        always_return(stmt->then_branch),
    ensures
        progressed(
            m,
            s,
            r,
            h,
            bindings,
            layout,
            execute(stmt, bindings, s.world, m.setting, fuel),
            fuel,
        ),
    decreases fuel, stmt, 1int,
{
    let fs = m.setting.functions;
    let condition = stmt->If_condition;
    let then_branch = stmt->then_branch;
    let else_branch = stmt->else_branch;
    let span = stmt->If_span;
    let (e, register) = gen_expr(condition, g, fs)->Ok_0;
    let to_else = e.code.len();
    let jumped = emit(e, open_jump_if_false(register), Some(span));
    let f = gen_block(then_branch, jumped, fs)->Ok_0;
    lemma_if_start(condition, then_branch, span, g, fs);
    lemma_patched(f, to_else);
    let k = patch_here(f, to_else)->Ok_0;
    lemma_block_after(else_branch, k, fs);
    lemma_prefix(e.constants, k.constants, h.constants);
    lemma_prefix(e.strings, k.strings, h.strings);
    assert(piece_of(k, h, h)) by {
        lemma_extends_itself(h);
    }
    assert forall|i: int| 0 <= i < f.code.len() && i != to_else implies #[trigger] h.code[i]
        == f.code[i] by {
        assert(h.code[i] == k.code[i]);
    }
    assert(h.code[to_else as int] == k.code[to_else as int]);
    let target = f.code.len() as u32;
    assert(piece_of(g, e, h));
    assert(piece_of(jumped, f, h));
    let r1 = lemma_condition_runs(m, condition, register, target, g, e, h, s, bindings, layout);
    lemma_if_ends(m, stmt, g, h, jumped, f, k, h, s, r1, target, bindings, layout, fuel)
}

proof fn lemma_if_else_runs<W>(
    m: Scene<W>,
    stmt: StmtView,
    g: Gen,
    h: Gen,
    s: State<W>,
    bindings: Seq<Binding>,
    layout: Seq<Register>,
    fuel: nat,
) -> (r: (nat, State<W>, Seq<Register>))
    requires
        stmt is If,
        ready(m, g, h, s, bindings, layout),
        stmt_listed(stmt, g.next_function_id, m.setting.literals),
        gen_stmt(stmt, g, m.setting.functions) == Ok::<Gen, CompileErrorView>(h),
        stmt->else_branch.len() > 0,
        !always_return(stmt->then_branch),
    ensures
        progressed(
            m,
            s,
            r,
            h,
            bindings,
            layout,
            execute(stmt, bindings, s.world, m.setting, fuel),
            fuel,
        ),
    decreases fuel, stmt, 1int,
{
    let fs = m.setting.functions;
    let condition = stmt->If_condition;
    let then_branch = stmt->then_branch;
    let else_branch = stmt->else_branch;
    let span = stmt->If_span;
    let (e, register) = gen_expr(condition, g, fs)->Ok_0;
    let to_else = e.code.len();
    let jumped = emit(e, open_jump_if_false(register), Some(span));
    let f = gen_block(then_branch, jumped, fs)->Ok_0;
    lemma_if_start(condition, then_branch, span, g, fs);
    let to_end = f.code.len();
    let behind = emit(f, open_jump(), Some(span));
    assert(in_order(behind));
    lemma_patched(behind, to_else);
    let k = patch_here(behind, to_else)->Ok_0;
    lemma_block_after(else_branch, k, fs);
    let l = gen_block(else_branch, k, fs)->Ok_0;
    lemma_patched(l, to_end);
    lemma_prefix(e.constants, k.constants, l.constants);
    lemma_prefix(e.strings, k.strings, l.strings);
    assert(piece_of(k, l, h)) by {
        lemma_extends_itself(l);
    }
    assert forall|i: int| 0 <= i < f.code.len() && i != to_else implies #[trigger] h.code[i]
        == f.code[i] by {
        assert(h.code[i] == l.code[i]);
        assert(l.code[i] == k.code[i]);
        assert(k.code[i] == behind.code[i]);
    }
    assert(h.code[to_else as int] == l.code[to_else as int]);
    assert(l.code[to_else as int] == k.code[to_else as int]);
    assert(l.code[to_end as int] == k.code[to_end as int]);
    assert(k.code[to_end as int] == behind.code[to_end as int]);
    let target = behind.code.len() as u32;
    assert(piece_of(g, e, h));
    assert(piece_of(jumped, f, h));
    let r1 = lemma_condition_runs(m, condition, register, target, g, e, h, s, bindings, layout);
    lemma_if_ends(m, stmt, g, h, jumped, f, k, l, s, r1, target, bindings, layout, fuel)
}

/// The branches of a condition that has been tested.
proof fn lemma_if_ends<W>(
    m: Scene<W>,
    stmt: StmtView,
    g: Gen,
    h: Gen,
    p: Gen,
    q: Gen,
    k: Gen,
    l: Gen,
    s: State<W>,
    r1: (nat, State<W>),
    target: u32,
    bindings: Seq<Binding>,
    layout: Seq<Register>,
    fuel: nat,
) -> (r: (nat, State<W>, Seq<Register>))
    requires
        stmt is If,
        ready(m, g, h, s, bindings, layout),
        stmt_listed(stmt, g.next_function_id, m.setting.literals),
        g.code.len() <= p.code.len(),
        piece_of(p, q, h),
        piece_of(k, l, h),
        in_order(p),
        in_order(k),
        p.locals == g.locals,
        k.locals == g.locals,
        h.locals == g.locals,
        p.captures == g.captures,
        k.captures == g.captures,
        p.boxed == g.boxed,
        k.boxed == g.boxed,
        p.next_function_id == g.next_function_id + literals_in(stmt->If_condition),
        stmt->else_branch.len() > 0 ==> k.next_function_id == p.next_function_id
            + literals_in_stmts(stmt->then_branch, 0),
        g.next_register <= p.next_register,
        g.next_register <= k.next_register,
        g.next_register <= h.next_register,
        k.code.len() == target,
        g.code.len() <= target,
        l.code.len() == h.code.len(),
        gen_block(stmt->then_branch, p, m.setting.functions) == Ok::<Gen, CompileErrorView>(q),
        ({
            ||| stmt->else_branch.len() == 0 && k.code.len() == h.code.len()
            ||| gen_block(stmt->else_branch, k, m.setting.functions) == Ok::<
                Gen,
                CompileErrorView,
            >(l)
        }),
        ({
            ||| q.code.len() == h.code.len()
            ||| q.code.len() < h.code.len() && h.code[q.code.len() as int] == (Instruction::Jump {
                target: JumpTarget(h.code.len() as u32),
            }) && h.code.len() <= u32::MAX
            ||| always_return(stmt->then_branch)
        }),
        match evaluate(stmt->If_condition, bindings, s.world, m.setting) {
            Effect::Gives { value, world } => match tested(value, world, m.setting) {
                Test::Truth { holds } => {
                    let t = r1.1;
                    &&& leads(m, s, r1.0, t)
                    &&& t.ip == if holds {
                        p.code.len() as int
                    } else {
                        target as int
                    }
                    &&& t.handlers == s.handlers
                    &&& t.world == world
                    &&& kept(s.registers, t.registers, g.next_register, -1)
                },
                Test::Raises { value, world } => ends(
                    m,
                    s,
                    r1.0,
                    Ending::Uncaught { value, world },
                ),
            },
            Effect::Raises { value, world } => ends(m, s, r1.0, Ending::Uncaught { value, world }),
        },
    ensures
        progressed(
            m,
            s,
            r,
            h,
            bindings,
            layout,
            execute(stmt, bindings, s.world, m.setting, fuel),
            fuel,
        ),
    decreases fuel, stmt, 0int,
{
    let then_branch = stmt->then_branch;
    let else_branch = stmt->else_branch;
    let t = r1.1;
    assert(layout.take(layout.len() as int) =~= layout);
    match evaluate(stmt->If_condition, bindings, s.world, m.setting) {
        Effect::Gives { value, world } => match tested(value, world, m.setting) {
            Test::Truth { holds } => if holds {
                lemma_branch_runs(
                    m,
                    then_branch,
                    g,
                    h,
                    p,
                    q,
                    s,
                    r1.0,
                    t,
                    bindings,
                    layout,
                    fuel,
                )
            } else if else_branch.len() == 0 {
                lemma_still_filled(bindings, layout, s.registers, t.registers, g.next_register);
                lemma_laid_out_later(bindings, layout, g, h);
                let none = execute_all(else_branch, 0, bindings, world, m.setting, fuel);
                assert(none == (Progress::Goes { bindings, world }));
                assert(bindings.take(bindings.len() as int) =~= bindings);
                assert(execute_block(else_branch, bindings, world, m.setting, fuel) == none);
                (r1.0, t, layout)
            } else {
                lemma_branch_runs(
                    m,
                    else_branch,
                    g,
                    h,
                    k,
                    l,
                    s,
                    r1.0,
                    t,
                    bindings,
                    layout,
                    fuel,
                )
            },
            Test::Raises { .. } => (r1.0, t, layout),
        },
        Effect::Raises { .. } => (r1.0, t, layout),
    }
}

proof fn lemma_while_runs<W>(
    m: Scene<W>,
    stmt: StmtView,
    g: Gen,
    h: Gen,
    s: State<W>,
    bindings: Seq<Binding>,
    layout: Seq<Register>,
    fuel: nat,
) -> (r: (nat, State<W>, Seq<Register>))
    requires
        stmt is While,
        ready(m, g, h, s, bindings, layout),
        stmt_listed(stmt, g.next_function_id, m.setting.literals),
        gen_stmt(stmt, g, m.setting.functions) == Ok::<Gen, CompileErrorView>(h),
    ensures
        progressed(
            m,
            s,
            r,
            h,
            bindings,
            layout,
            execute(stmt, bindings, s.world, m.setting, fuel),
            fuel,
        ),
    decreases fuel, stmt, 0int,
{
    let fs = m.setting.functions;
    assert(layout.take(layout.len() as int) =~= layout);
    if let StmtView::While { condition, body, span } = stmt {
        let (e, register) = gen_expr(condition, g, fs)->Ok_0;
        let to_end = e.code.len();
        let jumped = emit(e, open_jump_if_false(register), Some(span));
        let f = gen_block(body, jumped, fs)->Ok_0;
        let back = Instruction::Jump { target: JumpTarget(g.code.len() as u32) };
        let looped = emit(f, back, Some(span));
        lemma_expr(condition, g, fs);
        lemma_expr_literals(condition, g, fs);
        lemma_builds_extends(g, e);
        lemma_extends_itself(e);
        lemma_extends_emitted(e, e, open_jump_if_false(register), Some(span));
        assert(in_order(jumped));
        lemma_block_after(body, jumped, fs);
        lemma_extends_both(e, jumped, f);
        lemma_extends_emitted(e, f, back, Some(span));
        assert(in_order(looped));
        lemma_patched(looped, to_end);
        let target = looped.code.len() as u32;
        assert(piece_of(g, e, h));
        assert(piece_of(jumped, f, h));
        let r1 = lemma_condition_runs(
            m,
            condition,
            register,
            target,
            g,
            e,
            h,
            s,
            bindings,
            layout,
        );
        let t = r1.1;
        match evaluate(condition, bindings, s.world, m.setting) {
            Effect::Gives { value, world } => match tested(value, world, m.setting) {
                Test::Truth { holds } => if !holds {
                    lemma_still_filled(
                        bindings,
                        layout,
                        s.registers,
                        t.registers,
                        g.next_register,
                    );
                    lemma_laid_out_later(bindings, layout, g, h);
                    (r1.0, t, layout)
                } else if fuel == 0 {
                    (r1.0, t, layout)
                } else {
                    lemma_piece_ready(m, g, h, jumped, f, s, t, bindings, layout);
                    let r2 = lemma_block_runs(m, body, jumped, f, t, bindings, layout, fuel);
                    let once = execute_block(body, bindings, world, m.setting, fuel);
                    let r3 = lemma_progress_behind(
                        m,
                        s,
                        r1.0,
                        t,
                        r2,
                        f,
                        bindings,
                        layout,
                        once,
                        fuel,
                    );
                    lemma_again_runs(m, stmt, g, h, f, s, r3, once, bindings, layout, fuel)
                },
                Test::Raises { .. } => (r1.0, t, layout),
            },
            Effect::Raises { .. } => (r1.0, t, layout),
        }
    } else {
        (0, s, layout)
    }
}

/// A loop goes back to its beginning behind its body.
proof fn lemma_again_runs<W>(
    m: Scene<W>,
    stmt: StmtView,
    g: Gen,
    h: Gen,
    f: Gen,
    s: State<W>,
    r3: (nat, State<W>, Seq<Register>),
    once: Progress<W>,
    bindings: Seq<Binding>,
    layout: Seq<Register>,
    fuel: nat,
) -> (r: (nat, State<W>, Seq<Register>))
    requires
        stmt is While,
        fuel > 0,
        ready(m, g, h, s, bindings, layout),
        stmt_listed(stmt, g.next_function_id, m.setting.literals),
        gen_stmt(stmt, g, m.setting.functions) == Ok::<Gen, CompileErrorView>(h),
        f.locals == g.locals,
        h.locals == g.locals,
        g.code.len() <= f.code.len() < h.code.len() <= u32::MAX,
        h.code[f.code.len() as int] == (Instruction::Jump {
            target: JumpTarget(g.code.len() as u32),
        }),
        progressed(m, s, r3, f, bindings, layout, once, fuel),
        once matches Progress::Goes { bindings: after, .. } ==> after.len() == bindings.len()
            && r3.2 == layout,
    ensures
        progressed(
            m,
            s,
            r,
            h,
            bindings,
            layout,
            match once {
                Progress::Goes { bindings: after, world } => execute(
                    stmt,
                    after,
                    world,
                    m.setting,
                    (fuel - 1) as nat,
                ),
                other => other,
            },
            fuel,
        ),
    decreases (fuel - 1) as nat, stmt, 1int,
{
    if let Progress::Goes { bindings: after, world } = once {
        let t = r3.1;
        let u = State { ip: g.code.len() as int, ..t };
        assert(m.body.instructions[t.ip] == h.code[t.ip]);
        assert(leads(m, u, 0, u));
        assert(leads(m, t, 1, u));
        lemma_leads_both(m, s, r3.0, t, 1, u);
        assert forall|i: int| 0 <= i < bindings.len() implies alike(
            #[trigger] bindings[i],
            after[i],
        ) by {
            assert(alike(after[i], bindings[i]));
        }
        lemma_laid_out_again(bindings, after, layout, g);
        let less = (fuel - 1) as nat;
        let r4 = lemma_while_runs(m, stmt, g, h, u, after, layout, less);
        let rest = execute(stmt, after, world, m.setting, less);
        let r = lemma_progress_behind(m, s, r3.0 + 1, u, r4, h, after, layout, rest, less);
        if let Progress::Goes { bindings: last, .. } = rest {
            assert forall|i: int| 0 <= i < bindings.len() implies alike(
                #[trigger] last[i],
                bindings[i],
            ) by {
                assert(alike(after[i], bindings[i]));
            }
        }
        r
    } else {
        r3
    }
}

// ---------------------------------------------------------------------------
// Functions
// ---------------------------------------------------------------------------

/// The registers of parameters.
pub open spec fn first_registers(count: nat) -> Seq<Register> {
    Seq::new(count, |i: int| Register(i as u8))
}

/// The code that puts parameters into cells stands behind what was there before.
proof fn lemma_enter_extends(params: Seq<Seq<char>>, i: int, g: Gen)
    ensures
        extends(g, enter(params, i, g)),
        enter(params, i, g).next_register == g.next_register,
    decreases params.len() - i,
{
    lemma_extends_itself(g);
    if 0 <= i < params.len() {
        let register = Register(i as u8);
        let cell = g.boxed.contains(params[i]);
        let named = named_local(params[i], register, cell, g);
        if cell {
            let make = Instruction::MakeUpvalue { dst: register, src: register };
            let f = emit(named, make, None);
            lemma_extends_emitted(named, named, make, None);
            lemma_enter_extends(params, i + 1, f);
            lemma_extends_both(g, f, enter(params, i + 1, f));
        } else {
            lemma_enter_extends(params, i + 1, named);
        }
    }
}

/// A function begins with its parameters in its first registers, those that live in cells in
/// cells.
proof fn lemma_enter_runs<W>(
    m: Scene<W>,
    params: Seq<Seq<char>>,
    i: int,
    args: Seq<Value>,
    g: Gen,
    s: State<W>,
) -> (r: (nat, State<W>))
    requires
        0 <= i <= params.len(),
        params.len() == args.len(),
        params.len() <= MAX_OPERANDS,
        params.len() <= g.next_register <= s.registers.len(),
        provides(m),
        g.boxed == m.setting.boxed,
        placed(m, g, enter(params, i, g)),
        s.handlers.len() == 0,
        s.ip == g.code.len(),
        forall|j: int| 0 <= j < params.len() ==> #[trigger] s.registers[j] == args[j],
        laid_out(
            parameters(params, args, g.boxed).take(i),
            first_registers(params.len()).take(i),
            g,
        ),
    ensures
        match boxed_arguments(params, i, args, s.world, m.setting) {
            Evaluated::Values { values, world } => {
                let t = r.1;
                &&& leads(m, s, r.0, t)
                &&& t.ip == enter(params, i, g).code.len()
                &&& t.handlers == s.handlers
                &&& t.world == world
                &&& t.registers.len() == s.registers.len()
                &&& filled(
                    parameters(params, values, g.boxed),
                    first_registers(params.len()),
                    t.registers,
                )
                &&& laid_out(
                    parameters(params, values, g.boxed),
                    first_registers(params.len()),
                    enter(params, i, g),
                )
            },
            Evaluated::Raises { value, world } => ends(
                m,
                s,
                r.0,
                Ending::Uncaught { value, world },
            ),
        },
    decreases params.len() - i,
{
    let all = parameters(params, args, g.boxed);
    let registers = first_registers(params.len());
    assert(leads(m, s, 0, s));
    if i < params.len() {
        let register = Register(i as u8);
        let cell = g.boxed.contains(params[i]);
        let named = named_local(params[i], register, cell, g);
        let h = enter(params, i, g);
        assert(registers.take(i + 1) =~= registers.take(i).push(register));
        assert forall|j: int| 0 <= j < i implies (#[trigger] registers.take(i)[j]) != register by {
            assert(registers.take(i)[j] == Register(j as u8));
        }
        if cell {
            let make = Instruction::MakeUpvalue { dst: register, src: register };
            let f = emit(named, make, None);
            lemma_extends_itself(named);
            lemma_extends_emitted(named, named, make, None);
            lemma_enter_extends(params, i + 1, f);
            assert(h == enter(params, i + 1, f));
            assert(extends(g, f));
            lemma_placed_parts(m, g, f, h);
            assert(f.code[s.ip] == make);
            assert(m.body.instructions[s.ip] == f.code[s.ip]);
            let effect = other(m.setting.effects, make, s.registers, s.world);
            assert(content(s.registers, register) == args[i]);
            let t = lemma_takes(m, s, 0, s, Some(register), effect);
            if let Effect::Gives { value, .. } = effect {
                let now = args.update(i, value);
                let after = parameters(params, now, g.boxed);
                assert(after.take(i) =~= all.take(i));
                assert(after.take(i + 1) =~= after.take(i).push(
                    Binding { name: params[i], value, cell },
                ));
                lemma_defined(
                    params[i],
                    value,
                    cell,
                    register,
                    after.take(i),
                    registers.take(i),
                    g,
                    f,
                );
                let r = lemma_enter_runs(m, params, i + 1, now, f, t);
                match boxed_arguments(params, i + 1, now, t.world, m.setting) {
                    Evaluated::Values { .. } => lemma_leads_both(m, s, 1, t, r.0, r.1),
                    Evaluated::Raises { value, world } => {
                        lemma_leads_to_end(m, s, 1, t, r.0, Ending::Uncaught { value, world });
                    },
                }
                (1 + r.0, r.1)
            } else {
                (1, t)
            }
        } else {
            assert(all.take(i + 1) =~= all.take(i).push(
                Binding { name: params[i], value: args[i], cell },
            ));
            lemma_defined(
                params[i],
                args[i],
                cell,
                register,
                all.take(i),
                registers.take(i),
                g,
                named,
            );
            lemma_enter_runs(m, params, i + 1, args, named, s)
        }
    } else {
        assert(all.take(i) =~= all);
        assert(registers.take(i) =~= registers);
        (0, s)
    }
}

/// Captured variables by name: the cells of the names in their order.
pub open spec fn captured_as(
    names: Seq<Seq<char>>,
    cells: Seq<Value>,
    captured: Map<Seq<char>, Value>,
) -> bool {
    &&& cells.len() == names.len()
    &&& forall|name: Seq<char>| #[trigger]
        captured.contains_key(name) <==> names.contains(name)
    &&& forall|i: int|
        0 <= i < names.len() ==> captured[#[trigger] names[i]] == cells[i]
}

/// Captured variables are numbered in their order.
proof fn lemma_numbered_names(names: Seq<Seq<char>>, i: int, captures: Map<Seq<char>, CaptureId>)
    requires
        0 <= i <= names.len() <= MAX_OPERANDS,
        forall|name: Seq<char>| #[trigger]
            captures.contains_key(name) <==> names.take(i).contains(name),
        forall|name: Seq<char>| #[trigger]
            captures.contains_key(name) ==> captures[name].0 < i
                && names[captures[name].0 as int] == name,
    ensures
        forall|name: Seq<char>| #[trigger]
            numbered(names, i, captures).contains_key(name) <==> names.contains(name),
        forall|name: Seq<char>| #[trigger]
            numbered(names, i, captures).contains_key(name) ==> numbered(
                names,
                i,
                captures,
            )[name].0 < names.len() && names[numbered(names, i, captures)[name].0 as int] == name,
    decreases names.len() - i,
{
    if i < names.len() {
        let more = captures.insert(names[i], CaptureId(i as u8));
        assert(names.take(i + 1) =~= names.take(i).push(names[i]));
        assert forall|name: Seq<char>| #[trigger]
            more.contains_key(name) <==> names.take(i + 1).contains(name) by {
            assert(names.take(i + 1)[i] == names[i]);
            if names.take(i).contains(name) {
                let k = names.take(i).index_of(name);
                assert(names.take(i + 1)[k] == name);
            }
            if names.take(i + 1).contains(name) && name != names[i] {
                let k = names.take(i + 1).index_of(name);
                assert(names.take(i)[k] == name);
            }
            assert(captures.contains_key(name) <==> names.take(i).contains(name));
        }
        assert forall|name: Seq<char>| #[trigger]
            more.contains_key(name) implies more[name].0 < i + 1
            && names[more[name].0 as int] == name by {
            if name != names[i] {
                assert(captures.contains_key(name));
            }
        }
        lemma_numbered_names(names, i + 1, more);
        assert(numbered(names, i, captures) == numbered(names, i + 1, more));
    } else {
        assert(names.take(i) =~= names);
        assert(numbered(names, i, captures) == captures);
    }
}

/// An instruction without a list of its own is told by its view.
proof fn lemma_same_instruction(a: Instruction, b: Instruction)
    requires
        a@ == b@,
        !(a is RecordNew),
    ensures
        a == b,
{
    assert(a@.opcode == b@.opcode);
    assert(a@.operands[0] == b@.operands[0]);
    assert(a@.operands[1] == b@.operands[1]);
    assert(a@.operands[2] == b@.operands[2]);
    assert(a@.operands[3] == b@.operands[3]);
    match a {
        Instruction::Jump { target } => assert(a@.operands[0] == Operand::Target(target)),
        Instruction::Throw { src } => assert(a@.operands[0] == Operand::Register(src)),
        Instruction::Return { src } => assert(a@.operands[0] == Operand::Register(src)),
        _ => {},
    }
    match b {
        Instruction::Jump { target } => assert(b@.operands[0] == Operand::Target(target)),
        Instruction::Throw { src } => assert(b@.operands[0] == Operand::Register(src)),
        Instruction::Return { src } => assert(b@.operands[0] == Operand::Register(src)),
        _ => {},
    }
}

/// The registers of a function that is called with some arguments.
pub open spec fn frame(args: Seq<Value>, register_count: nat) -> Seq<Value> {
    Seq::new(
        register_count,
        |i: int|
            if i < args.len() {
                args[i]
            } else {
                Value::Nil
            },
    )
}

/// Execution that has not ended after `n` instructions has not ended within fewer.
proof fn lemma_not_ended<W>(m: Scene<W>, s: State<W>, n: nat, t: State<W>, k: nat)
    requires
        leads(m, s, n, t),
        k <= n,
    ensures
        run(m.body, s, m.setting.effects, k) is None,
    decreases k,
{
    if k > 0 {
        if let Step::Goes { state } = next(m.body, s, m.setting.effects) {
            lemma_not_ended(m, state, (n - 1) as nat, t, (k - 1) as nat);
        }
    }
}

/// Execution ends in one way.
proof fn lemma_one_ending<W>(b: Body, s: State<W>, e: Effects<W>, n: nat, k: nat)
    requires
        run(b, s, e, n) is Some,
        run(b, s, e, k) is Some,
    ensures
        run(b, s, e, n) == run(b, s, e, k),
    decreases n,
{
    if let Step::Goes { state } = next(b, s, e) {
        lemma_one_ending(b, state, e, (n - 1) as nat, (k - 1) as nat);
    }
}

/// How a function whose body comes to something ends.
pub open spec fn amounts_to<W>(progress: Progress<W>) -> Option<Ending<W>> {
    match progress {
        Progress::Goes { world, .. } => Some(Ending::FellOff { world }),
        Progress::Returns { value, world } => Some(Ending::Returned { value, world }),
        Progress::Raises { value, world } => Some(Ending::Uncaught { value, world }),
        Progress::Unfinished => None,
    }
}

/// The code of the body of a function that captures variables of some names.
pub open spec fn function_code(
    name: Seq<char>,
    params: Seq<Seq<char>>,
    names: Seq<Seq<char>>,
    stmts: Seq<StmtView>,
    next_function_id: nat,
    fs: FunctionIds,
) -> Emitted {
    match begin(
        name,
        params,
        names,
        captured_in_stmts(stmts, 0, fs, Set::empty()),
        next_function_id,
    ) {
        Ok(g) => gen_stmts(stmts, 0, g, fs),
        Err(error) => Err(error),
    }
}

/// The surroundings of a chunk are those of its function: the machine provides the operations,
/// and the variables in cells, the captured ones and the function literals are those of the body.
pub open spec fn surrounds<W>(
    m: Scene<W>,
    chunk: Chunk,
    names: Seq<Seq<char>>,
    stmts: Seq<StmtView>,
    next_function_id: nat,
) -> bool {
    &&& m.body == body(chunk)
    &&& m.strings == string_views(chunk.strings@)
    &&& m.setting.boxed == captured_in_stmts(stmts, 0, m.setting.functions, Set::empty())
    &&& captured_as(names, m.cells, m.setting.captured)
    &&& stmts_listed(stmts, 0, next_function_id, m.setting.literals)
    &&& provides(m)
}

/// A function begins as its parameters and captured variables ask for.
proof fn lemma_begin_runs<W>(
    m: Scene<W>,
    name: Seq<char>,
    params: Seq<Seq<char>>,
    names: Seq<Seq<char>>,
    next_function_id: nat,
    first: Gen,
    g: Gen,
    args: Seq<Value>,
    s: State<W>,
) -> (r: (nat, State<W>))
    requires
        begin(name, params, names, m.setting.boxed, next_function_id) == Ok::<
            Gen,
            CompileErrorView,
        >(first),
        captured_as(names, m.cells, m.setting.captured),
        provides(m),
        in_order(first),
        extends(first, g),
        params.len() == args.len(),
        g.next_register <= s.registers.len(),
        g.code.len() == m.body.instructions.len(),
        forall|i: int|
            0 <= i < g.code.len() ==> #[trigger] m.body.instructions[i] == g.code[i],
        m.body.constants == g.constants,
        m.strings == g.strings,
        s.ip == 0,
        s.handlers.len() == 0,
        forall|j: int| 0 <= j < params.len() ==> #[trigger] s.registers[j] == args[j],
    ensures
        match boxed_arguments(params, 0, args, s.world, m.setting) {
            Evaluated::Values { values, world } => {
                &&& leads(m, s, r.0, r.1)
                &&& r.1.handlers == s.handlers
                &&& r.1.world == world
                &&& r.1.registers.len() == s.registers.len()
                &&& ready(
                    m,
                    first,
                    g,
                    r.1,
                    parameters(params, values, m.setting.boxed),
                    first_registers(params.len()),
                )
            },
            Evaluated::Raises { value, world } => ends(
                m,
                s,
                r.0,
                Ending::Uncaught { value, world },
            ),
        },
{
    let boxed = m.setting.boxed;
    let zero = Gen {
        name,
        arity: params.len() as u8,
        capture_count: names.len() as u8,
        constants: Seq::empty(),
        strings: Seq::empty(),
        code: Seq::empty(),
        spans: Seq::empty(),
        locals: Map::empty(),
        captures: numbered(names, 0, Map::empty()),
        boxed,
        next_register: params.len(),
        next_function_id,
        generated: Seq::empty(),
    };
    assert(first == enter(params, 0, zero));
    lemma_enter_extends(params, 0, zero);
    assert(placed(m, zero, g));
    lemma_placed_parts(m, zero, first, g);
    let none = parameters(params, args, boxed).take(0);
    assert(none =~= Seq::empty());
    assert(first_registers(params.len()).take(0) =~= Seq::empty());
    assert(laid_out(none, first_registers(params.len()).take(0), zero));
    assert(names.take(0) =~= Seq::empty());
    lemma_numbered_names(names, 0, Map::empty());
    assert(suits(m, first)) by {
        assert forall|name: Seq<char>| #[trigger]
            first.captures.contains_key(name) <==> m.setting.captured.contains_key(name) by {
            assert(m.setting.captured.contains_key(name) <==> names.contains(name));
            assert(zero.captures.contains_key(name) <==> names.contains(name));
        }
        assert forall|name: Seq<char>| #[trigger]
            first.captures.contains_key(name) implies first.captures[name].0 < m.cells.len()
            && m.cells[first.captures[name].0 as int] == m.setting.captured[name] by {
            assert(zero.captures.contains_key(name));
            let k = zero.captures[name].0 as int;
            assert(m.setting.captured[names[k]] == m.cells[k]);
        }
    }
    lemma_enter_runs(m, params, 0, args, zero, s)
}

/// The body of a function ends in its chunk as it does in its source, if it ends within `fuel`
/// repetitions; else it executes as many instructions.
proof fn lemma_function_runs<W>(
    name: Seq<char>,
    params: Seq<Seq<char>>,
    names: Seq<Seq<char>>,
    stmts: Seq<StmtView>,
    next_function_id: nat,
    g: Gen,
    chunk: Chunk,
    m: Scene<W>,
    args: Seq<Value>,
    world: W,
    fuel: nat,
)
    requires
        function_code(name, params, names, stmts, next_function_id, m.setting.functions) == Ok::<
            Gen,
            CompileErrorView,
        >(g),
        finished(g) == Ok::<ChunkView, CompileErrorView>(chunk@),
        args.len() == params.len(),
        surrounds(m, chunk, names, stmts, next_function_id),
    ensures
        match amounts_to(called(params, stmts, args, world, m.setting, fuel)) {
            Some(ending) => exists|n: nat| #[trigger]
                run(
                    m.body,
                    entered(frame(args, chunk.register_count as nat), world),
                    m.setting.effects,
                    n,
                ) == Some(ending),
            None => run(
                m.body,
                entered(frame(args, chunk.register_count as nat), world),
                m.setting.effects,
                fuel,
            ) is None,
        },
{
    let fs = m.setting.functions;
    let s = entered(frame(args, chunk.register_count as nat), world);
    let boxed = m.setting.boxed;
    let layout = first_registers(params.len());
    lemma_begin(name, params, names, boxed, next_function_id);
    lemma_begin_literals(name, params, names, boxed, next_function_id);
    let first = begin(name, params, names, boxed, next_function_id)->Ok_0;
    lemma_stmts(stmts, 0, first, fs);
    lemma_builds_extends(first, g);
    lemma_all_fit(first, g);
    assert(instruction_views(chunk.instructions@).len() == chunk.instructions@.len());
    assert(instruction_views(g.code).len() == g.code.len());
    assert forall|i: int| 0 <= i < g.code.len() implies
        #[trigger] m.body.instructions[i] == g.code[i] by {
        assert(instruction_views(chunk.instructions@)[i] == chunk.instructions@[i]@);
        assert(instruction_views(g.code)[i] == g.code[i]@);
        lemma_same_instruction(g.code[i], m.body.instructions[i]);
    }
    let r0 = lemma_begin_runs(m, name, params, names, next_function_id, first, g, args, s);
    match boxed_arguments(params, 0, args, world, m.setting) {
        Evaluated::Raises { value, world } => {
            let ending = Ending::Uncaught { value, world };
            assert(run(m.body, s, m.setting.effects, r0.0) == Some(ending));
        },
        Evaluated::Values { values, world } => {
            let t = r0.1;
            let bindings = parameters(params, values, boxed);
            let r1 = lemma_stmts_run(m, stmts, 0, first, g, t, bindings, layout, fuel);
            let progress = execute_all(stmts, 0, bindings, world, m.setting, fuel);
            let r = lemma_progress_behind(
                m,
                s,
                r0.0,
                t,
                r1,
                g,
                bindings,
                layout,
                progress,
                fuel,
            );
            match progress {
                Progress::Goes { world, .. } => {
                    let ending = Ending::FellOff { world };
                    assert(ends(m, r.1, 1, ending));
                    lemma_leads_to_end(m, s, r.0, r.1, 1, ending);
                    assert(run(m.body, s, m.setting.effects, r.0 + 1) == Some(ending));
                },
                Progress::Returns { value, world } => {
                    let ending = Ending::Returned { value, world };
                    assert(run(m.body, s, m.setting.effects, r.0) == Some(ending));
                },
                Progress::Raises { value, world } => {
                    let ending = Ending::Uncaught { value, world };
                    assert(run(m.body, s, m.setting.effects, r.0) == Some(ending));
                },
                Progress::Unfinished => lemma_not_ended(m, s, r.0, r.1, fuel),
            }
        },
    }
}

/// A function that ends in its chunk ends in its source in the same way, and the other way round.
proof fn lemma_function_ends<W>(
    name: Seq<char>,
    params: Seq<Seq<char>>,
    names: Seq<Seq<char>>,
    stmts: Seq<StmtView>,
    next_function_id: nat,
    g: Gen,
    chunk: Chunk,
    m: Scene<W>,
    args: Seq<Value>,
    world: W,
    ending: Ending<W>,
)
    requires
        function_code(name, params, names, stmts, next_function_id, m.setting.functions) == Ok::<
            Gen,
            CompileErrorView,
        >(g),
        finished(g) == Ok::<ChunkView, CompileErrorView>(chunk@),
        args.len() == params.len(),
        surrounds(m, chunk, names, stmts, next_function_id),
    ensures
        ends_with(
            body(chunk),
            entered(frame(args, chunk.register_count as nat), world),
            m.setting.effects,
            ending,
        ) <==> exists|fuel: nat|
            amounts_to(#[trigger] called(params, stmts, args, world, m.setting, fuel)) == Some(
                ending,
            ),
{
    let s = entered(frame(args, chunk.register_count as nat), world);
    let e = m.setting.effects;
    let id = next_function_id;
    if exists|fuel: nat|
        amounts_to(#[trigger] called(params, stmts, args, world, m.setting, fuel)) == Some(
            ending,
        ) {
        let fuel = choose|fuel: nat|
            amounts_to(#[trigger] called(params, stmts, args, world, m.setting, fuel)) == Some(
                ending,
            );
        lemma_function_runs(name, params, names, stmts, id, g, chunk, m, args, world, fuel);
    }
    if ends_with(m.body, s, e, ending) {
        let n = choose|n: nat| #[trigger] run(m.body, s, e, n) == Some(ending);
        lemma_function_runs(name, params, names, stmts, id, g, chunk, m, args, world, n);
        let found = amounts_to(called(params, stmts, args, world, m.setting, n));
        let k = choose|k: nat| #[trigger] run(m.body, s, e, k) == found;
        lemma_one_ending(m.body, s, e, n, k);
    }
}

/// A compiled function does what its source means. Whatever calls, heap objects and cells do: the
/// chunk of a function, called with some arguments, returns a value, raises one or runs behind its
/// end if and only if the body of the function does so in its source, with the same value and the
/// same effects on the world.
pub proof fn compiled_functions_do_what_they_mean<W>(
    name: Seq<char>,
    params: Seq<Seq<char>>,
    stmts: Seq<StmtView>,
    next_function_id: nat,
    g: Gen,
    chunk: Chunk,
    m: Scene<W>,
    args: Seq<Value>,
    world: W,
    ending: Ending<W>,
)
    requires
        body_code(name, params, stmts, next_function_id, m.setting.functions) == Ok::<
            Gen,
            CompileErrorView,
        >(g),
        finished(g) == Ok::<ChunkView, CompileErrorView>(chunk@),
        args.len() == params.len(),
        surrounds(m, chunk, Seq::empty(), stmts, next_function_id),
    ensures
        ends_with(
            body(chunk),
            entered(frame(args, chunk.register_count as nat), world),
            m.setting.effects,
            ending,
        ) <==> exists|fuel: nat|
            amounts_to(#[trigger] called(params, stmts, args, world, m.setting, fuel)) == Some(
                ending,
            ),
{
    lemma_function_ends(
        name,
        params,
        Seq::empty(),
        stmts,
        next_function_id,
        g,
        chunk,
        m,
        args,
        world,
        ending,
    );
}

/// A compiled function literal does what its source means. The function generated for a literal,
/// called with some arguments and with the cells of the variables that it captured, ends as the
/// body of the literal does in its source: it reads and writes the captured variables in those
/// cells, so that all functions that captured one variable share it.
pub proof fn compiled_function_literals_do_what_they_mean<W>(
    params: Seq<Seq<char>>,
    stmts: Seq<StmtView>,
    span: SourceSpan,
    dst: Register,
    g: Gen,
    h: Gen,
    chunk: Chunk,
    m: Scene<W>,
    args: Seq<Value>,
    world: W,
    ending: Ending<W>,
)
    requires
        gen_into(
            (ExprView::Function { params, body: stmts, span }),
            dst,
            g,
            m.setting.functions,
        ) == Ok::<Gen, CompileErrorView>(h),
        h.generated[g.generated.len() as int] == bytecode_function(chunk@),
        args.len() == params.len(),
        surrounds(
            m,
            chunk,
            known_names(free_names(params, stmts, m.setting.functions), 0, g),
            stmts,
            g.next_function_id + 1,
        ),
    ensures
        ends_with(
            body(chunk),
            entered(frame(args, chunk.register_count as nat), world),
            m.setting.effects,
            ending,
        ) <==> exists|fuel: nat|
            amounts_to(#[trigger] called(params, stmts, args, world, m.setting, fuel)) == Some(
                ending,
            ),
{
    let fs = m.setting.functions;
    let id = g.next_function_id;
    let names = known_names(free_names(params, stmts, fs), 0, g);
    let boxed = captured_in_stmts(stmts, 0, fs, Set::empty());
    let first = begin(closure_name(id), params, names, boxed, id + 1)->Ok_0;
    let inner = gen_stmts(stmts, 0, first, fs)->Ok_0;
    assert(gen_closure(names, id, span, inner, dst, g) == Ok::<Gen, CompileErrorView>(h));
    let made = finished(inner)->Ok_0;
    let e = Gen {
        next_function_id: inner.next_function_id,
        generated: g.generated.push(bytecode_function(made)) + inner.generated,
        ..g
    };
    let (f, start) = reserve(e, names.len())->Ok_0;
    lemma_cells_keep_functions(names, 0, start, span, f);
    assert(h.generated[g.generated.len() as int] == bytecode_function(made));
    assert(bytecode_function(made).kind == bytecode_function(chunk@).kind);
    lemma_function_ends(
        closure_name(id),
        params,
        names,
        stmts,
        id + 1,
        inner,
        chunk,
        m,
        args,
        world,
        ending,
    );
}

/// Functions capture variables, not values: two function literals that capture one variable at
/// one place get the same cell.
pub proof fn functions_capture_variables<W>(
    params: Seq<Seq<char>>,
    stmts: Seq<StmtView>,
    i: int,
    other_params: Seq<Seq<char>>,
    other_stmts: Seq<StmtView>,
    j: int,
    bindings: Seq<Binding>,
    setting: Setting<W>,
)
    requires
        ({
            let fs = setting.functions;
            let names = visible(free_names(params, stmts, fs), 0, bindings, setting);
            let others = visible(free_names(other_params, other_stmts, fs), 0, bindings, setting);
            0 <= i < names.len() && 0 <= j < others.len() && names[i] == others[j]
        }),
    ensures
        captured_cells(params, stmts, bindings, setting)[i] == captured_cells(
            other_params,
            other_stmts,
            bindings,
            setting,
        )[j],
{
}

/// What one function stores in a captured variable, another that captured the same cell reads, if
/// a cell holds what was stored in it.
pub proof fn captured_variables_are_shared<W>(
    name: Seq<char>,
    value: Value,
    bindings: Seq<Binding>,
    setting: Setting<W>,
    other_bindings: Seq<Binding>,
    other_setting: Setting<W>,
    world: W,
)
    requires
        place(bindings, name) < 0,
        place(other_bindings, name) < 0,
        setting.captured[name] == other_setting.captured[name],
        setting.operations == other_setting.operations,
        forall|cell: Value, value: Value, world: W| #[trigger]
            (setting.operations.set)(cell, value, world) matches Effect::Gives { world: after, .. }
                ==> (setting.operations.get)(cell, after) == (Effect::Gives { value, world: after }),
    ensures
        assigned(name, value, bindings, world, setting) matches Progress::Goes {
            world: after,
            ..
        } ==> variable(other_bindings, name, after, other_setting) == (Effect::Gives {
            value,
            world: after,
        }),
{
}

/// Loading cells generates no functions.
proof fn lemma_cells_keep_functions(
    names: Seq<Seq<char>>,
    i: int,
    start: Register,
    span: SourceSpan,
    g: Gen,
)
    ensures
        load_cells(names, i, start, span, g) matches Ok(h) ==> h.generated == g.generated,
    decreases names.len() - i,
{
    if 0 <= i < names.len() {
        if let Ok(f) = load_cell(names[i], span, nth(start, i), g) {
            lemma_cells_keep_functions(names, i + 1, start, span, f);
        }
    }
}

} // verus!
