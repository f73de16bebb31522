//! What source code means. Calls, heap objects and the cells of captured variables are left open:
//! whatever they do is a parameter of the meaning.

use vstd::prelude::*;

use crate::bytecode::execution::{combined, Effect, Effects, Test};
use crate::bytecode::instruction::FunctionId;
use crate::bytecode::optimizer::BinaryOp as MachineOp;
use crate::compiler::ast::{BinaryOp, ExprView, LiteralView, StmtView};
use crate::compiler::captures::free_names;
use crate::compiler::emitter::FunctionIds;
use crate::value::Value;

verus! {

/// A variable and its value, or the cell that it lives in.
pub struct Binding {
    pub name: Seq<char>,
    pub value: Value,
    pub cell: bool,
}

/// The open operations of the language.
#[verifier::reject_recursive_types(W)]
pub struct Operations<W> {
    /// A string with a text.
    pub text: spec_fn(Seq<char>, W) -> Effect<W>,
    /// An array of values.
    pub array: spec_fn(Seq<Value>, W) -> Effect<W>,
    /// A map of keys and values in turn.
    pub map: spec_fn(Seq<Value>, W) -> Effect<W>,
    /// The element of an object at an index.
    pub index: spec_fn(Value, Value, W) -> Effect<W>,
    /// The storing of a value in an object at an index.
    pub set_index: spec_fn(Value, Value, Value, W) -> Effect<W>,
    /// The call of a function.
    pub call: spec_fn(FunctionId, Seq<Value>, W) -> Effect<W>,
    /// The call of a value.
    pub call_value: spec_fn(Value, Seq<Value>, W) -> Effect<W>,
    /// A cell that holds a value.
    pub cell: spec_fn(Value, W) -> Effect<W>,
    /// The value that a cell holds.
    pub get: spec_fn(Value, W) -> Effect<W>,
    /// The storing of a value in a cell.
    pub set: spec_fn(Value, Value, W) -> Effect<W>,
    /// The value of a function with the cells of the variables that it captures.
    pub closure: spec_fn(FunctionId, Seq<Value>, W) -> Effect<W>,
}

/// The surroundings in which the code of a function means something: the operations of the
/// machine, those of the language, the functions by name, those of function literals, the names
/// of the function's variables that live in cells, and the cells of the variables that it captures.
#[verifier::reject_recursive_types(W)]
pub struct Setting<W> {
    pub effects: Effects<W>,
    pub operations: Operations<W>,
    pub functions: FunctionIds,
    pub literals: Map<ExprView, FunctionId>,
    pub boxed: Set<Seq<char>>,
    pub captured: Map<Seq<char>, Value>,
}

/// The values of some expressions, or the value that one of them raises.
pub enum Evaluated<W> {
    Values { values: Seq<Value>, world: W },
    Raises { value: Value, world: W },
}

/// What comes of statements.
pub enum Progress<W> {
    /// Control goes on behind them.
    Goes { bindings: Seq<Binding>, world: W },
    /// They return a value.
    Returns { value: Value, world: W },
    /// They raise a value.
    Raises { value: Value, world: W },
    /// They have not ended within the number of repetitions allowed.
    Unfinished,
}

/// The position of the innermost variable of a name, or -1.
pub open spec fn place(bindings: Seq<Binding>, name: Seq<char>) -> int
    decreases bindings.len(),
{
    if bindings.len() == 0 {
        -1
    } else if bindings.last().name == name {
        bindings.len() - 1
    } else {
        place(bindings.drop_last(), name)
    }
}

/// The value of the innermost variable of a name.
pub open spec fn variable<W>(
    bindings: Seq<Binding>,
    name: Seq<char>,
    world: W,
    setting: Setting<W>,
) -> Effect<W> {
    let at = place(bindings, name);
    if at >= 0 && !bindings[at].cell {
        Effect::Gives { value: bindings[at].value, world }
    } else {
        (setting.operations.get)(cell_of(bindings, name, setting), world)
    }
}

/// The cell of the innermost variable of a name.
pub open spec fn cell_of<W>(
    bindings: Seq<Binding>,
    name: Seq<char>,
    setting: Setting<W>,
) -> Value {
    let at = place(bindings, name);
    if at >= 0 {
        bindings[at].value
    } else {
        setting.captured[name]
    }
}

/// Those of the names from `i` on that are names of variables.
pub open spec fn visible<W>(
    names: Seq<Seq<char>>,
    i: int,
    bindings: Seq<Binding>,
    setting: Setting<W>,
) -> Seq<Seq<char>>
    decreases names.len() - i,
{
    if 0 <= i < names.len() {
        if place(bindings, names[i]) >= 0 || setting.captured.contains_key(names[i]) {
            seq![names[i]] + visible(names, i + 1, bindings, setting)
        } else {
            visible(names, i + 1, bindings, setting)
        }
    } else {
        Seq::empty()
    }
}

/// The cells of some variables.
pub open spec fn cells_of<W>(
    names: Seq<Seq<char>>,
    bindings: Seq<Binding>,
    setting: Setting<W>,
) -> Seq<Value> {
    Seq::new(names.len(), |i: int| cell_of(bindings, names[i], setting))
}

/// The cells of the variables that a function literal captures.
pub open spec fn captured_cells<W>(
    params: Seq<Seq<char>>,
    body: Seq<StmtView>,
    bindings: Seq<Binding>,
    setting: Setting<W>,
) -> Seq<Value> {
    cells_of(
        visible(free_names(params, body, setting.functions), 0, bindings, setting),
        bindings,
        setting,
    )
}

/// The cells that a function literal captures, by the cell of the variable that it is stored in.
pub open spec fn captured_with<W>(
    params: Seq<Seq<char>>,
    body: Seq<StmtView>,
    name: Seq<char>,
    bindings: Seq<Binding>,
    setting: Setting<W>,
) -> spec_fn(Value) -> Seq<Value> {
    |cell: Value|
        captured_cells(
            params,
            body,
            bindings.push(Binding { name, value: cell, cell: true }),
            setting,
        )
}

/// A new cell in which a function that may capture it is stored; `first` is what the cell holds
/// before.
pub open spec fn tied<W>(
    first: Value,
    function: FunctionId,
    captured: spec_fn(Value) -> Seq<Value>,
    world: W,
    operations: Operations<W>,
) -> Effect<W> {
    match (operations.cell)(first, world) {
        Effect::Gives { value: cell, world } => match (operations.closure)(
            function,
            captured(cell),
            world,
        ) {
            Effect::Gives { value, world } => match (operations.set)(cell, value, world) {
                Effect::Gives { world, .. } => Effect::Gives { value: cell, world },
                raised => raised,
            },
            raised => raised,
        },
        raised => raised,
    }
}

/// The machine's operation for an operator.
pub open spec fn machine_op(op: BinaryOp) -> MachineOp {
    match op {
        BinaryOp::Add => MachineOp::Add,
        BinaryOp::Sub => MachineOp::Sub,
        BinaryOp::Mul => MachineOp::Mul,
        BinaryOp::Div => MachineOp::Div,
        BinaryOp::Equal => MachineOp::Equal,
        BinaryOp::NotEqual => MachineOp::NotEqual,
        BinaryOp::Less => MachineOp::Less,
        BinaryOp::LessEqual => MachineOp::LessEqual,
        BinaryOp::Greater => MachineOp::Greater,
        BinaryOp::GreaterEqual => MachineOp::GreaterEqual,
    }
}

/// The value of a literal.
pub open spec fn literal_value<W>(literal: LiteralView, world: W, setting: Setting<W>) -> Effect<W> {
    match literal {
        LiteralView::Int(value) => Effect::Gives { value: Value::Int(value), world },
        LiteralView::Bool(value) => Effect::Gives { value: Value::Bool(value), world },
        LiteralView::Nil => Effect::Gives { value: Value::Nil, world },
        LiteralView::Text(text) => (setting.operations.text)(text, world),
    }
}

/// The value of an expression.
pub open spec fn evaluate<W>(
    expr: ExprView,
    bindings: Seq<Binding>,
    world: W,
    setting: Setting<W>,
) -> Effect<W>
    decreases expr, 0int,
{
    match expr {
        ExprView::Literal { value, .. } => literal_value(value, world, setting),
        ExprView::Variable { name, .. } => variable(bindings, name, world, setting),
        ExprView::Binary { op, lhs, rhs, .. } => match evaluate(*lhs, bindings, world, setting) {
            Effect::Gives { value: left, world } => match evaluate(*rhs, bindings, world, setting) {
                Effect::Gives { value: right, world } => combined(
                    machine_op(op),
                    left,
                    right,
                    world,
                    setting.effects,
                ),
                raised => raised,
            },
            raised => raised,
        },
        ExprView::Array { elements, .. } => match evaluate_list(
            elements,
            elements.len(),
            bindings,
            world,
            setting,
        ) {
            Evaluated::Values { values, world } => (setting.operations.array)(values, world),
            Evaluated::Raises { value, world } => Effect::Raises { value, world },
        },
        ExprView::MapLiteral { entries, .. } => match evaluate_entries(
            entries,
            entries.len(),
            bindings,
            world,
            setting,
        ) {
            Evaluated::Values { values, world } => (setting.operations.map)(values, world),
            Evaluated::Raises { value, world } => Effect::Raises { value, world },
        },
        ExprView::Index { target, index, .. } => match evaluate(*target, bindings, world, setting) {
            Effect::Gives { value: target, world } => match evaluate(
                *index,
                bindings,
                world,
                setting,
            ) {
                Effect::Gives { value: index, world } => (setting.operations.index)(
                    target,
                    index,
                    world,
                ),
                raised => raised,
            },
            raised => raised,
        },
        ExprView::Call { callee, args, .. } => match evaluate_list(
            args,
            args.len(),
            bindings,
            world,
            setting,
        ) {
            Evaluated::Values { values, world } => if setting.functions.contains_key(callee) {
                (setting.operations.call)(setting.functions[callee], values, world)
            } else {
                match variable(bindings, callee, world, setting) {
                    Effect::Gives { value, world } => (setting.operations.call_value)(
                        value,
                        values,
                        world,
                    ),
                    raised => raised,
                }
            },
            Evaluated::Raises { value, world } => Effect::Raises { value, world },
        },
        ExprView::Grouping { expr, .. } => evaluate(*expr, bindings, world, setting),
        ExprView::Function { params, body, .. } => (setting.operations.closure)(
            setting.literals[expr],
            captured_cells(params, body, bindings, setting),
            world,
        ),
    }
}

/// The values of the first `n` expressions, one after the other.
pub open spec fn evaluate_list<W>(
    exprs: Seq<ExprView>,
    n: nat,
    bindings: Seq<Binding>,
    world: W,
    setting: Setting<W>,
) -> Evaluated<W>
    decreases exprs, n,
{
    if n == 0 || n > exprs.len() {
        Evaluated::Values { values: Seq::empty(), world }
    } else {
        match evaluate_list(exprs, (n - 1) as nat, bindings, world, setting) {
            Evaluated::Values { values, world } => match evaluate(
                exprs[n - 1],
                bindings,
                world,
                setting,
            ) {
                Effect::Gives { value, world } => Evaluated::Values {
                    values: values.push(value),
                    world,
                },
                Effect::Raises { value, world } => Evaluated::Raises { value, world },
            },
            raised => raised,
        }
    }
}

/// The keys and values of the first `n` pairs, one after the other.
pub open spec fn evaluate_entries<W>(
    entries: Seq<(ExprView, ExprView)>,
    n: nat,
    bindings: Seq<Binding>,
    world: W,
    setting: Setting<W>,
) -> Evaluated<W>
    decreases entries, n,
{
    if n == 0 || n > entries.len() {
        Evaluated::Values { values: Seq::empty(), world }
    } else {
        match evaluate_entries(entries, (n - 1) as nat, bindings, world, setting) {
            Evaluated::Values { values, world } => match evaluate(
                entries[n - 1].0,
                bindings,
                world,
                setting,
            ) {
                Effect::Gives { value: key, world } => match evaluate(
                    entries[n - 1].1,
                    bindings,
                    world,
                    setting,
                ) {
                    Effect::Gives { value, world } => Evaluated::Values {
                        values: values.push(key).push(value),
                        world,
                    },
                    Effect::Raises { value, world } => Evaluated::Raises { value, world },
                },
                Effect::Raises { value, world } => Evaluated::Raises { value, world },
            },
            raised => raised,
        }
    }
}

/// What a variable is defined as: its value, or the cell in which it is stored.
pub open spec fn defined<W>(
    name: Seq<char>,
    initializer: ExprView,
    bindings: Seq<Binding>,
    world: W,
    setting: Setting<W>,
) -> Effect<W> {
    if !setting.boxed.contains(name) {
        evaluate(initializer, bindings, world, setting)
    } else if let ExprView::Function { params, body, .. } = initializer {
        tied(
            Value::Nil,
            setting.literals[initializer],
            captured_with(params, body, name, bindings, setting),
            world,
            setting.operations,
        )
    } else {
        match evaluate(initializer, bindings, world, setting) {
            Effect::Gives { value, world } => (setting.operations.cell)(value, world),
            raised => raised,
        }
    }
}

/// What comes of the storing of a value in a variable.
pub open spec fn assigned<W>(
    name: Seq<char>,
    value: Value,
    bindings: Seq<Binding>,
    world: W,
    setting: Setting<W>,
) -> Progress<W> {
    let at = place(bindings, name);
    if at >= 0 && !bindings[at].cell {
        Progress::Goes {
            bindings: bindings.update(at, Binding { name, value, cell: false }),
            world,
        }
    } else {
        match (setting.operations.set)(cell_of(bindings, name, setting), value, world) {
            Effect::Gives { world, .. } => Progress::Goes { bindings, world },
            Effect::Raises { value, world } => Progress::Raises { value, world },
        }
    }
}

/// Whether a condition holds, or what testing it raises.
pub open spec fn tested<W>(condition: Value, world: W, setting: Setting<W>) -> Test<W> {
    match condition {
        Value::Bool(holds) => Test::Truth { holds },
        _ => (setting.effects.test)(condition, world),
    }
}

/// What comes of the statements from `i` on, if no loop is repeated more than `fuel` times.
pub open spec fn execute_all<W>(
    stmts: Seq<StmtView>,
    i: int,
    bindings: Seq<Binding>,
    world: W,
    setting: Setting<W>,
    fuel: nat,
) -> Progress<W>
    decreases fuel, stmts, stmts.len() - i,
{
    if 0 <= i < stmts.len() {
        match execute(stmts[i], bindings, world, setting, fuel) {
            Progress::Goes { bindings, world } => execute_all(
                stmts,
                i + 1,
                bindings,
                world,
                setting,
                fuel,
            ),
            other => other,
        }
    } else {
        Progress::Goes { bindings, world }
    }
}

/// What comes of a block; its variables end with it.
pub open spec fn execute_block<W>(
    stmts: Seq<StmtView>,
    bindings: Seq<Binding>,
    world: W,
    setting: Setting<W>,
    fuel: nat,
) -> Progress<W>
    decreases fuel, stmts, stmts.len() + 1,
{
    match execute_all(stmts, 0, bindings, world, setting, fuel) {
        Progress::Goes { bindings: inner, world } => Progress::Goes {
            bindings: inner.take(bindings.len() as int),
            world,
        },
        other => other,
    }
}

/// What comes of a statement.
pub open spec fn execute<W>(
    stmt: StmtView,
    bindings: Seq<Binding>,
    world: W,
    setting: Setting<W>,
    fuel: nat,
) -> Progress<W>
    decreases fuel, stmt, 0int,
{
    match stmt {
        StmtView::Import { .. } => Progress::Goes { bindings, world },
        StmtView::Function { .. } => Progress::Goes { bindings, world },
        StmtView::Let { name, initializer, .. } => match defined(
            name,
            initializer,
            bindings,
            world,
            setting,
        ) {
            Effect::Gives { value, world } => Progress::Goes {
                bindings: bindings.push(
                    Binding { name, value, cell: setting.boxed.contains(name) },
                ),
                world,
            },
            Effect::Raises { value, world } => Progress::Raises { value, world },
        },
        StmtView::Assign { name, value, .. } => match evaluate(value, bindings, world, setting) {
            Effect::Gives { value, world } => assigned(name, value, bindings, world, setting),
            Effect::Raises { value, world } => Progress::Raises { value, world },
        },
        StmtView::IndexAssign { target, index, value, .. } => match evaluate(
            target,
            bindings,
            world,
            setting,
        ) {
            Effect::Gives { value: target, world } => match evaluate(
                index,
                bindings,
                world,
                setting,
            ) {
                Effect::Gives { value: index, world } => match evaluate(
                    value,
                    bindings,
                    world,
                    setting,
                ) {
                    Effect::Gives { value, world } => match (setting.operations.set_index)(
                        target,
                        index,
                        value,
                        world,
                    ) {
                        Effect::Gives { world, .. } => Progress::Goes { bindings, world },
                        Effect::Raises { value, world } => Progress::Raises { value, world },
                    },
                    Effect::Raises { value, world } => Progress::Raises { value, world },
                },
                Effect::Raises { value, world } => Progress::Raises { value, world },
            },
            Effect::Raises { value, world } => Progress::Raises { value, world },
        },
        StmtView::Return { value, .. } => match evaluate(value, bindings, world, setting) {
            Effect::Gives { value, world } => Progress::Returns { value, world },
            Effect::Raises { value, world } => Progress::Raises { value, world },
        },
        StmtView::Expr { value, .. } => match evaluate(value, bindings, world, setting) {
            Effect::Gives { world, .. } => Progress::Goes { bindings, world },
            Effect::Raises { value, world } => Progress::Raises { value, world },
        },
        StmtView::If { condition, then_branch, else_branch, .. } => match evaluate(
            condition,
            bindings,
            world,
            setting,
        ) {
            Effect::Gives { value: condition, world } => match tested(condition, world, setting) {
                Test::Truth { holds } => if holds {
                    execute_block(then_branch, bindings, world, setting, fuel)
                } else {
                    execute_block(else_branch, bindings, world, setting, fuel)
                },
                Test::Raises { value, world } => Progress::Raises { value, world },
            },
            Effect::Raises { value, world } => Progress::Raises { value, world },
        },
        StmtView::While { condition, body, .. } => match evaluate(
            condition,
            bindings,
            world,
            setting,
        ) {
            Effect::Gives { value: condition, world } => match tested(condition, world, setting) {
                Test::Truth { holds } => if !holds {
                    Progress::Goes { bindings, world }
                } else if fuel == 0 {
                    Progress::Unfinished
                } else {
                    match execute_block(body, bindings, world, setting, fuel) {
                        Progress::Goes { bindings, world } => execute(
                            stmt,
                            bindings,
                            world,
                            setting,
                            (fuel - 1) as nat,
                        ),
                        other => other,
                    }
                },
                Test::Raises { value, world } => Progress::Raises { value, world },
            },
            Effect::Raises { value, world } => Progress::Raises { value, world },
        },
        StmtView::Block { statements, .. } => execute_block(
            statements,
            bindings,
            world,
            setting,
            fuel,
        ),
    }
}

/// The arguments of a function, those from `i` on that live in cells put into cells.
pub open spec fn boxed_arguments<W>(
    params: Seq<Seq<char>>,
    i: int,
    args: Seq<Value>,
    world: W,
    setting: Setting<W>,
) -> Evaluated<W>
    decreases params.len() - i,
{
    if 0 <= i < params.len() {
        if setting.boxed.contains(params[i]) {
            match (setting.operations.cell)(args[i], world) {
                Effect::Gives { value, world } => boxed_arguments(
                    params,
                    i + 1,
                    args.update(i, value),
                    world,
                    setting,
                ),
                Effect::Raises { value, world } => Evaluated::Raises { value, world },
            }
        } else {
            boxed_arguments(params, i + 1, args, world, setting)
        }
    } else {
        Evaluated::Values { values: args, world }
    }
}

/// The variables of a function when it begins.
pub open spec fn parameters(
    params: Seq<Seq<char>>,
    values: Seq<Value>,
    boxed: Set<Seq<char>>,
) -> Seq<Binding> {
    Seq::new(
        params.len(),
        |i: int| Binding { name: params[i], value: values[i], cell: boxed.contains(params[i]) },
    )
}

/// What comes of the body of a function that is called with some arguments.
pub open spec fn called<W>(
    params: Seq<Seq<char>>,
    body: Seq<StmtView>,
    args: Seq<Value>,
    world: W,
    setting: Setting<W>,
    fuel: nat,
) -> Progress<W> {
    match boxed_arguments(params, 0, args, world, setting) {
        Evaluated::Values { values, world } => execute_all(
            body,
            0,
            parameters(params, values, setting.boxed),
            world,
            setting,
            fuel,
        ),
        Evaluated::Raises { value, world } => Progress::Raises { value, world },
    }
}

// ---------------------------------------------------------------------------
// The function literals of some code
// ---------------------------------------------------------------------------

/// How many function literals there are in an expression, those in function literals too.
pub open spec fn literals_in(expr: ExprView) -> nat
    decreases expr, 0int,
{
    match expr {
        ExprView::Literal { .. } => 0,
        ExprView::Variable { .. } => 0,
        ExprView::Binary { lhs, rhs, .. } => literals_in(*lhs) + literals_in(*rhs),
        ExprView::Array { elements, .. } => literals_in_list(elements, 0),
        ExprView::MapLiteral { entries, .. } => literals_in_entries(entries, 0),
        ExprView::Index { target, index, .. } => literals_in(*target) + literals_in(*index),
        ExprView::Call { args, .. } => literals_in_list(args, 0),
        ExprView::Grouping { expr, .. } => literals_in(*expr),
        ExprView::Function { body, .. } => 1 + literals_in_stmts(body, 0),
    }
}

/// How many function literals there are in the expressions from `i` on.
pub open spec fn literals_in_list(exprs: Seq<ExprView>, i: int) -> nat
    decreases exprs, exprs.len() - i,
{
    if 0 <= i < exprs.len() {
        literals_in(exprs[i]) + literals_in_list(exprs, i + 1)
    } else {
        0
    }
}

/// How many function literals there are in the pairs from `i` on.
pub open spec fn literals_in_entries(entries: Seq<(ExprView, ExprView)>, i: int) -> nat
    decreases entries, entries.len() - i,
{
    if 0 <= i < entries.len() {
        literals_in(entries[i].0) + literals_in(entries[i].1) + literals_in_entries(entries, i + 1)
    } else {
        0
    }
}

/// How many function literals there are in a statement; a function statement is a function of its
/// own.
pub open spec fn literals_in_stmt(stmt: StmtView) -> nat
    decreases stmt, 0int,
{
    match stmt {
        StmtView::Import { .. } => 0,
        StmtView::Function { .. } => 0,
        StmtView::Let { initializer, .. } => literals_in(initializer),
        StmtView::Assign { value, .. } => literals_in(value),
        StmtView::IndexAssign { target, index, value, .. } => literals_in(target) + literals_in(
            index,
        ) + literals_in(value),
        StmtView::Return { value, .. } => literals_in(value),
        StmtView::Expr { value, .. } => literals_in(value),
        StmtView::If { condition, then_branch, else_branch, .. } => literals_in(condition)
            + literals_in_stmts(then_branch, 0) + literals_in_stmts(else_branch, 0),
        StmtView::While { condition, body, .. } => literals_in(condition) + literals_in_stmts(
            body,
            0,
        ),
        StmtView::Block { statements, .. } => literals_in_stmts(statements, 0),
    }
}

/// How many function literals there are in the statements from `i` on.
pub open spec fn literals_in_stmts(stmts: Seq<StmtView>, i: int) -> nat
    decreases stmts, stmts.len() - i,
{
    if 0 <= i < stmts.len() {
        literals_in_stmt(stmts[i]) + literals_in_stmts(stmts, i + 1)
    } else {
        0
    }
}

/// Whether the function literals of an expression have the functions from `id` on, in their
/// order. Those in function literals are no matter of this function.
pub open spec fn listed(expr: ExprView, id: nat, literals: Map<ExprView, FunctionId>) -> bool
    decreases expr, 0int,
{
    match expr {
        ExprView::Literal { .. } => true,
        ExprView::Variable { .. } => true,
        ExprView::Binary { lhs, rhs, .. } => listed(*lhs, id, literals) && listed(
            *rhs,
            id + literals_in(*lhs),
            literals,
        ),
        ExprView::Array { elements, .. } => list_listed(elements, 0, id, literals),
        ExprView::MapLiteral { entries, .. } => entries_listed(entries, 0, id, literals),
        ExprView::Index { target, index, .. } => listed(*target, id, literals) && listed(
            *index,
            id + literals_in(*target),
            literals,
        ),
        ExprView::Call { args, .. } => list_listed(args, 0, id, literals),
        ExprView::Grouping { expr, .. } => listed(*expr, id, literals),
        ExprView::Function { .. } => literals[expr] == FunctionId(id as u16),
    }
}

/// The same of the expressions from `i` on.
pub open spec fn list_listed(
    exprs: Seq<ExprView>,
    i: int,
    id: nat,
    literals: Map<ExprView, FunctionId>,
) -> bool
    decreases exprs, exprs.len() - i,
{
    0 <= i < exprs.len() ==> listed(exprs[i], id, literals) && list_listed(
        exprs,
        i + 1,
        id + literals_in(exprs[i]),
        literals,
    )
}

/// The same of the pairs from `i` on.
pub open spec fn entries_listed(
    entries: Seq<(ExprView, ExprView)>,
    i: int,
    id: nat,
    literals: Map<ExprView, FunctionId>,
) -> bool
    decreases entries, entries.len() - i,
{
    0 <= i < entries.len() ==> listed(entries[i].0, id, literals) && listed(
        entries[i].1,
        id + literals_in(entries[i].0),
        literals,
    ) && entries_listed(
        entries,
        i + 1,
        id + literals_in(entries[i].0) + literals_in(entries[i].1),
        literals,
    )
}

/// The same of a statement.
pub open spec fn stmt_listed(stmt: StmtView, id: nat, literals: Map<ExprView, FunctionId>) -> bool
    decreases stmt, 0int,
{
    match stmt {
        StmtView::Import { .. } => true,
        StmtView::Function { .. } => true,
        StmtView::Let { initializer, .. } => listed(initializer, id, literals),
        StmtView::Assign { value, .. } => listed(value, id, literals),
        StmtView::IndexAssign { target, index, value, .. } => listed(target, id, literals)
            && listed(index, id + literals_in(target), literals) && listed(
            value,
            id + literals_in(target) + literals_in(index),
            literals,
        ),
        StmtView::Return { value, .. } => listed(value, id, literals),
        StmtView::Expr { value, .. } => listed(value, id, literals),
        StmtView::If { condition, then_branch, else_branch, .. } => listed(condition, id, literals)
            && stmts_listed(then_branch, 0, id + literals_in(condition), literals) && stmts_listed(
            else_branch,
            0,
            id + literals_in(condition) + literals_in_stmts(then_branch, 0),
            literals,
        ),
        StmtView::While { condition, body, .. } => listed(condition, id, literals) && stmts_listed(
            body,
            0,
            id + literals_in(condition),
            literals,
        ),
        StmtView::Block { statements, .. } => stmts_listed(statements, 0, id, literals),
    }
}

/// The same of the statements from `i` on.
pub open spec fn stmts_listed(
    stmts: Seq<StmtView>,
    i: int,
    id: nat,
    literals: Map<ExprView, FunctionId>,
) -> bool
    decreases stmts, stmts.len() - i,
{
    0 <= i < stmts.len() ==> stmt_listed(stmts[i], id, literals) && stmts_listed(
        stmts,
        i + 1,
        id + literals_in_stmt(stmts[i]),
        literals,
    )
}

} // verus!
