//! Compiler analysis and optimization reporting.
//!
//! Records what the compiler can infer from the syntax tree and the emitted bytecode:
//! dependencies, feature flags, host capability hints, and optimizer pass metrics.

use vstd::prelude::*;
use vstd::string::StringExecFns;

use crate::bytecode::chunk::string_views;
use crate::bytecode::features::{
    all_features, bytecode_features, features_among, functions_flags, infer_program_feature_flags,
    BytecodeFeature,
};
use crate::bytecode::optimizer::{transformation_sum, OptimizationReport};
use crate::bytecode::program::{FunctionKind, FunctionKindView, FunctionView, Program};
use crate::compiler::ast::{
    entry_views, expr_view, expr_views, stmt_view, stmt_views, Expr, ExprView, ProgramAst, Stmt,
    StmtView,
};
use crate::sorted::{insert_name, lists};
use crate::text::str_equal;

verus! {

/// End-to-end compiler report attached to a successful compile.
#[derive(Clone, Debug, PartialEq, Eq)]
pub struct CompileReport {
    /// Static analysis facts inferred from source and bytecode.
    pub analysis: CompilerAnalysisReport,
    /// Optimizer pass breakdown for emitted bytecode chunks.
    pub optimization: ProgramOptimizationReport,
}

/// Source/bytecode facts useful to command line and runtime tooling.
#[derive(Clone, Debug, PartialEq, Eq)]
pub struct CompilerAnalysisReport {
    /// Required bytecode feature flags.
    pub required_feature_flags: u32,
    /// Human-readable bytecode feature names.
    pub required_features: Vec<String>,
    /// Dotted host capability names inferred from known native calls.
    pub required_capabilities: Vec<String>,
    /// Source-level module imports discovered before module linking.
    pub module_dependencies: Vec<String>,
    /// Native function names referenced by the program.
    pub native_dependencies: Vec<String>,
    /// Custom host extension ids referenced by the program.
    pub custom_extension_dependencies: Vec<String>,
    /// Number of bytecode functions emitted.
    pub bytecode_function_count: usize,
    /// Total instruction count across bytecode functions.
    pub bytecode_instruction_count: usize,
}

/// Whole-program optimizer report.
#[derive(Clone, Debug, PartialEq, Eq)]
pub struct ProgramOptimizationReport {
    /// Per-chunk optimizer reports.
    pub chunks: Vec<OptimizationReport>,
}

/// The number of passes in the reports from `i` on.
pub open spec fn pass_count(chunks: Seq<OptimizationReport>, i: int) -> nat
    decreases chunks.len() - i,
{
    if 0 <= i < chunks.len() {
        chunks[i].passes@.len() + pass_count(chunks, i + 1)
    } else {
        0
    }
}

/// The number of transformations in the reports from `i` on.
pub open spec fn transformation_count(chunks: Seq<OptimizationReport>, i: int) -> nat
    decreases chunks.len() - i,
{
    if 0 <= i < chunks.len() {
        transformation_sum(chunks[i].passes@) + transformation_count(chunks, i + 1)
    } else {
        0
    }
}

/// A pass that changed its chunk.
pub open spec fn changed_pass(report: OptimizationReport) -> bool {
    exists|k: int| 0 <= k < report.passes@.len() && (#[trigger] report.passes@[k]).changed
}

impl ProgramOptimizationReport {
    /// Returns the total number of optimizer passes that ran.
    pub fn total_passes(&self) -> (total: usize)
        requires
            pass_count(self.chunks@, 0) <= usize::MAX,
        ensures
            total == pass_count(self.chunks@, 0),
    {
        let mut total: usize = 0;
        let mut i: usize = 0;
        while i < self.chunks.len()
            invariant
                i <= self.chunks@.len(),
                pass_count(self.chunks@, 0) <= usize::MAX,
                total + pass_count(self.chunks@, i as int) == pass_count(self.chunks@, 0),
            decreases self.chunks.len() - i,
        {
            total = total + self.chunks[i].passes.len();
            i = i + 1;
        }
        total
    }

    /// Returns the total number of transformations across all chunks.
    pub fn total_transformations(&self) -> (total: usize)
        requires
            transformation_count(self.chunks@, 0) <= usize::MAX,
        ensures
            total == transformation_count(self.chunks@, 0),
    {
        let mut total: usize = 0;
        let mut i: usize = 0;
        while i < self.chunks.len()
            invariant
                i <= self.chunks@.len(),
                transformation_count(self.chunks@, 0) <= usize::MAX,
                total + transformation_count(self.chunks@, i as int) == transformation_count(
                    self.chunks@,
                    0,
                ),
            decreases self.chunks.len() - i,
        {
            total = total + self.chunks[i].total_transformations();
            i = i + 1;
        }
        total
    }

    /// Returns true when any optimizer pass changed bytecode.
    pub fn changed(&self) -> (found: bool)
        ensures
            found == exists|i: int| 0 <= i < self.chunks@.len() && #[trigger] changed_pass(self.chunks@[i]),
    {
        let mut i: usize = 0;
        while i < self.chunks.len()
            invariant
                i <= self.chunks@.len(),
                forall|k: int| 0 <= k < i ==> !#[trigger] changed_pass(self.chunks@[k]),
            decreases self.chunks.len() - i,
        {
            let passes = &self.chunks[i].passes;
            let mut k: usize = 0;
            while k < passes.len()
                invariant
                    k <= passes@.len(),
                    i < self.chunks@.len(),
                    passes@ == self.chunks@[i as int].passes@,
                    forall|m: int| 0 <= m < k ==> !(#[trigger] passes@[m]).changed,
                decreases passes.len() - k,
            {
                if passes[k].changed {
                    assert(changed_pass(self.chunks@[i as int]));
                    return true;
                }
                k = k + 1;
            }
            i = i + 1;
        }
        false
    }
}

/// The names of features.
pub open spec fn feature_names(features: Seq<BytecodeFeature>) -> Seq<Seq<char>> {
    Seq::new(features.len(), |i: int| features[i].name())
}

/// The names of the native functions in a table.
pub open spec fn native_names(functions: Seq<FunctionView>) -> Set<Seq<char>> {
    Set::new(
        |name: Seq<char>|
            exists|i: int|
                0 <= i < functions.len() && (#[trigger] functions[i]).kind
                    == FunctionKindView::Native(name),
    )
}

/// The host capabilities that native functions need.
pub open spec fn capabilities(natives: Set<Seq<char>>) -> Seq<Seq<char>> {
    if natives.contains("print"@) {
        seq!["io.output"@, "native.call"@]
    } else if natives =~= Set::empty() {
        Seq::empty()
    } else {
        seq!["native.call"@]
    }
}

/// The number of bytecode functions from `i` on.
pub open spec fn bytecode_count(functions: Seq<FunctionView>, i: int) -> nat
    decreases functions.len() - i,
{
    if 0 <= i < functions.len() {
        bytecode_count(functions, i + 1) + if functions[i].kind is Bytecode {
            1nat
        } else {
            0nat
        }
    } else {
        0
    }
}

/// The number of instructions in the bytecode functions from `i` on.
pub open spec fn instruction_count(functions: Seq<FunctionView>, i: int) -> nat
    decreases functions.len() - i,
{
    if 0 <= i < functions.len() {
        instruction_count(functions, i + 1) + match functions[i].kind {
            FunctionKindView::Bytecode(chunk) => chunk.instructions.len(),
            FunctionKindView::Native(_) => 0,
        }
    } else {
        0
    }
}

/// Builds a compile report from source-level imports, emitted bytecode, and optimizer metadata.
pub fn build_compile_report(
    program: &Program,
    module_dependencies: Vec<String>,
    chunks: Vec<OptimizationReport>,
) -> (report: CompileReport)
    requires
        instruction_count(program@.functions, 0) <= usize::MAX,
    ensures
        ({
            let flags = functions_flags(program@.functions);
            let natives = native_names(program@.functions);
            let analysis = report.analysis;
            &&& analysis.required_feature_flags == flags
            &&& string_views(analysis.required_features@) == feature_names(
                features_among(all_features(), flags),
            )
            &&& string_views(analysis.required_capabilities@) == capabilities(natives)
            &&& analysis.module_dependencies == module_dependencies
            &&& lists(string_views(analysis.native_dependencies@), natives)
            &&& analysis.custom_extension_dependencies@.len() == 0
            &&& analysis.bytecode_function_count == bytecode_count(program@.functions, 0)
            &&& analysis.bytecode_instruction_count == instruction_count(program@.functions, 0)
            &&& report.optimization.chunks == chunks
        }),
{
    let required_feature_flags: u32 = infer_program_feature_flags(program);
    let features = bytecode_features(required_feature_flags);
    let mut required_features: Vec<String> = Vec::new();
    let mut k: usize = 0;
    while k < features.len()
        invariant
            k <= features@.len(),
            required_features@.len() == k,
            forall|m: int|
                0 <= m < k ==> #[trigger] required_features@[m]@ == features@[m].name(),
        decreases features.len() - k,
    {
        required_features.push(features[k].as_str().to_owned());
        k = k + 1;
    }
    assert(string_views(required_features@) =~= feature_names(features@));
    let native_dependencies = native_dependencies(program);
    let required_capabilities = required_capabilities_for_natives(
        &native_dependencies,
        Ghost(native_names(program@.functions)),
    );
    let ghost functions = program@.functions;
    let mut bytecode_function_count: usize = 0;
    let mut bytecode_instruction_count: usize = 0;
    let mut i: usize = 0;
    while i < program.functions.len()
        invariant
            i <= program.functions@.len(),
            functions == program@.functions,
            bytecode_function_count <= i,
            bytecode_function_count + bytecode_count(functions, i as int) == bytecode_count(
                functions,
                0,
            ),
            bytecode_instruction_count + instruction_count(functions, i as int)
                == instruction_count(functions, 0),
            instruction_count(functions, 0) <= usize::MAX,
        decreases program.functions.len() - i,
    {
        assert(functions[i as int] == program.functions@[i as int]@);
        if let FunctionKind::Bytecode(chunk) = &program.functions[i].kind {
            bytecode_function_count = bytecode_function_count + 1;
            bytecode_instruction_count = bytecode_instruction_count + chunk.instructions.len();
        }
        i = i + 1;
    }
    CompileReport {
        analysis: CompilerAnalysisReport {
            required_feature_flags,
            required_features,
            required_capabilities,
            module_dependencies,
            native_dependencies,
            custom_extension_dependencies: Vec::new(),
            bytecode_function_count,
            bytecode_instruction_count,
        },
        optimization: ProgramOptimizationReport { chunks },
    }
}

/// The names of the native functions of a program, in order.
fn native_dependencies(program: &Program) -> (names: Vec<String>)
    ensures
        lists(string_views(names@), native_names(program@.functions)),
{
    let ghost functions = program@.functions;
    let mut names: Vec<String> = Vec::new();
    let mut i: usize = 0;
    assert(string_views(names@) =~= Seq::empty());
    assert(native_names(functions.take(0)) =~= Set::empty());
    while i < program.functions.len()
        invariant
            i <= program.functions@.len(),
            functions == program@.functions,
            lists(string_views(names@), native_names(functions.take(i as int))),
        decreases program.functions.len() - i,
    {
        assert(functions[i as int] == program.functions@[i as int]@);
        let ghost seen = native_names(functions.take(i as int));
        match program.functions[i].native_name() {
            Some(name) => {
                insert_name(&mut names, name, Ghost(seen));
                proof {
                    lemma_native_added(functions, i as int, name@);
                }
            },
            None => {
                proof {
                    lemma_native_skipped(functions, i as int);
                }
            },
        }
        i = i + 1;
    }
    assert(functions.take(i as int) =~= functions);
    names
}

proof fn lemma_native_added(functions: Seq<FunctionView>, i: int, name: Seq<char>)
    requires
        0 <= i < functions.len(),
        functions[i].kind == FunctionKindView::Native(name),
    ensures
        native_names(functions.take(i + 1)) == native_names(functions.take(i)).insert(name),
{
    let short = functions.take(i);
    let long = functions.take(i + 1);
    assert forall|other: Seq<char>| native_names(long).contains(other) == native_names(
        short,
    ).insert(name).contains(other) by {
        if native_names(long).contains(other) && other != name {
            let k = choose|k: int|
                0 <= k < long.len() && (#[trigger] long[k]).kind == FunctionKindView::Native(other);
            assert(short[k].kind == FunctionKindView::Native(other));
        }
        if native_names(short).contains(other) {
            let k = choose|k: int|
                0 <= k < short.len() && (#[trigger] short[k]).kind == FunctionKindView::Native(
                    other,
                );
            assert(long[k].kind == FunctionKindView::Native(other));
        }
        assert(long[i].kind == FunctionKindView::Native(name));
    }
    assert(native_names(long) =~= native_names(short).insert(name));
}

proof fn lemma_native_skipped(functions: Seq<FunctionView>, i: int)
    requires
        0 <= i < functions.len(),
        !(functions[i].kind is Native),
    ensures
        native_names(functions.take(i + 1)) == native_names(functions.take(i)),
{
    let short = functions.take(i);
    let long = functions.take(i + 1);
    assert forall|other: Seq<char>| native_names(long).contains(other) == native_names(
        short,
    ).contains(other) by {
        if native_names(long).contains(other) {
            let k = choose|k: int|
                0 <= k < long.len() && (#[trigger] long[k]).kind == FunctionKindView::Native(other);
            assert(short[k].kind == FunctionKindView::Native(other));
        }
        if native_names(short).contains(other) {
            let k = choose|k: int|
                0 <= k < short.len() && (#[trigger] short[k]).kind == FunctionKindView::Native(
                    other,
                );
            assert(long[k].kind == FunctionKindView::Native(other));
        }
    }
    assert(native_names(long) =~= native_names(short));
}

/// The host capabilities that native functions need.
fn required_capabilities_for_natives(
    native_dependencies: &Vec<String>,
    natives: Ghost<Set<Seq<char>>>,
) -> (names: Vec<String>)
    requires
        lists(string_views(native_dependencies@), natives@),
    ensures
        string_views(names@) == capabilities(natives@),
{
    let ghost list = string_views(native_dependencies@);
    let mut printing: bool = false;
    let mut i: usize = 0;
    while i < native_dependencies.len()
        invariant
            i <= native_dependencies@.len(),
            list == string_views(native_dependencies@),
            printing == exists|k: int| 0 <= k < i && #[trigger] list[k] == "print"@,
        decreases native_dependencies.len() - i,
    {
        assert(list[i as int] == native_dependencies@[i as int]@);
        if str_equal(native_dependencies[i].as_str(), "print") {
            printing = true;
        }
        i = i + 1;
    }
    proof {
        assert(printing == list.contains("print"@));
        if list.len() > 0 {
            assert(list.contains(list[0]));
            assert(natives@.contains(list[0]));
        } else {
            assert(natives@ =~= Set::empty()) by {
                assert forall|name: Seq<char>| !natives@.contains(name) by {
                    assert(!list.contains(name));
                }
            }
        }
    }
    let mut names: Vec<String> = Vec::new();
    if printing {
        names.push(String::from_str("io.output"));
    }
    if native_dependencies.len() > 0 {
        names.push(String::from_str("native.call"));
    }
    assert(string_views(names@) =~= capabilities(natives@));
    names
}

// ---------------------------------------------------------------------------
// Imports
// ---------------------------------------------------------------------------

/// A set of module names with those that an expression imports.
pub open spec fn expr_imports(expr: ExprView, set: Set<Seq<char>>) -> Set<Seq<char>>
    decreases expr, 0int,
{
    match expr {
        ExprView::Literal { .. } => set,
        ExprView::Variable { .. } => set,
        ExprView::Binary { lhs, rhs, .. } => expr_imports(*rhs, expr_imports(*lhs, set)),
        ExprView::Call { args, .. } => exprs_imports(args, 0, set),
        ExprView::Function { body, .. } => stmts_imports(body, 0, set),
        ExprView::Index { target, index, .. } => expr_imports(*index, expr_imports(*target, set)),
        ExprView::Array { elements, .. } => exprs_imports(elements, 0, set),
        ExprView::MapLiteral { entries, .. } => entries_imports(entries, 0, set),
        ExprView::Grouping { expr, .. } => expr_imports(*expr, set),
    }
}

pub open spec fn exprs_imports(exprs: Seq<ExprView>, i: int, set: Set<Seq<char>>) -> Set<Seq<char>>
    decreases exprs, exprs.len() - i,
{
    if 0 <= i < exprs.len() {
        exprs_imports(exprs, i + 1, expr_imports(exprs[i], set))
    } else {
        set
    }
}

pub open spec fn entries_imports(
    entries: Seq<(ExprView, ExprView)>,
    i: int,
    set: Set<Seq<char>>,
) -> Set<Seq<char>>
    decreases entries, entries.len() - i,
{
    if 0 <= i < entries.len() {
        entries_imports(
            entries,
            i + 1,
            expr_imports(entries[i].1, expr_imports(entries[i].0, set)),
        )
    } else {
        set
    }
}

/// A set of module names with those that a statement imports.
pub open spec fn stmt_imports(stmt: StmtView, set: Set<Seq<char>>) -> Set<Seq<char>>
    decreases stmt, 0int,
{
    match stmt {
        StmtView::Import { module, .. } => set.insert(module),
        StmtView::Let { initializer, .. } => expr_imports(initializer, set),
        StmtView::Function { body, .. } => stmts_imports(body, 0, set),
        StmtView::Assign { value, .. } => expr_imports(value, set),
        StmtView::IndexAssign { target, index, value, .. } => expr_imports(
            value,
            expr_imports(index, expr_imports(target, set)),
        ),
        StmtView::Return { value, .. } => expr_imports(value, set),
        StmtView::Expr { value, .. } => expr_imports(value, set),
        StmtView::If { condition, then_branch, else_branch, .. } => stmts_imports(
            else_branch,
            0,
            stmts_imports(then_branch, 0, expr_imports(condition, set)),
        ),
        StmtView::While { condition, body, .. } => stmts_imports(
            body,
            0,
            expr_imports(condition, set),
        ),
        StmtView::Block { statements, .. } => stmts_imports(statements, 0, set),
    }
}

pub open spec fn stmts_imports(stmts: Seq<StmtView>, i: int, set: Set<Seq<char>>) -> Set<Seq<char>>
    decreases stmts, stmts.len() - i,
{
    if 0 <= i < stmts.len() {
        stmts_imports(stmts, i + 1, stmt_imports(stmts[i], set))
    } else {
        set
    }
}

/// The modules that programs import.
pub open spec fn all_imports(programs: Seq<&ProgramAst>, i: int, set: Set<Seq<char>>) -> Set<
    Seq<char>,
>
    decreases programs.len() - i,
{
    if 0 <= i < programs.len() {
        all_imports(programs, i + 1, stmts_imports(programs[i]@, 0, set))
    } else {
        set
    }
}

/// Collects `import ...;` dependencies from syntax trees before linking removes them.
pub fn collect_module_dependencies(programs: &[&ProgramAst]) -> (names: Vec<String>)
    ensures
        lists(string_views(names@), all_imports(programs@, 0, Set::empty())),
{
    let mut names: Vec<String> = Vec::new();
    let mut set: Ghost<Set<Seq<char>>> = Ghost(Set::empty());
    assert(string_views(names@) =~= Seq::empty());
    let mut i: usize = 0;
    while i < programs.len()
        invariant
            i <= programs@.len(),
            lists(string_views(names@), set@),
            all_imports(programs@, 0, Set::empty()) == all_imports(programs@, i as int, set@),
        decreases programs.len() - i,
    {
        collect_stmt_imports(&programs[i].statements, &mut names, set);
        proof {
            set@ = stmts_imports(programs@[i as int]@, 0, set@);
        }
        i = i + 1;
    }
    names
}

/// Adds the modules that statements import.
fn collect_stmt_imports(stmts: &Vec<Stmt>, names: &mut Vec<String>, set: Ghost<Set<Seq<char>>>)
    requires
        lists(string_views(old(names)@), set@),
    ensures
        lists(string_views(final(names)@), stmts_imports(stmt_views(stmts@), 0, set@)),
    decreases *stmts, 0int,
{
    let ghost views = stmt_views(stmts@);
    let mut seen: Ghost<Set<Seq<char>>> = set;
    let mut i: usize = 0;
    while i < stmts.len()
        invariant
            i <= stmts@.len(),
            views == stmt_views(stmts@),
            lists(string_views(names@), seen@),
            stmts_imports(views, 0, set@) == stmts_imports(views, i as int, seen@),
        decreases stmts.len() - i,
    {
        assert(views[i as int] == stmt_view(stmts@[i as int]));
        collect_imports(&stmts[i], names, seen);
        proof {
            seen@ = stmt_imports(views[i as int], seen@);
        }
        i = i + 1;
    }
}

/// Adds the modules that a statement imports.
fn collect_imports(stmt: &Stmt, names: &mut Vec<String>, set: Ghost<Set<Seq<char>>>)
    requires
        lists(string_views(old(names)@), set@),
    ensures
        lists(string_views(final(names)@), stmt_imports(stmt@, set@)),
    decreases *stmt, 0int,
{
    match stmt {
        Stmt::Import { module, .. } => {
            insert_name(names, module.as_str(), set);
        },
        Stmt::Let { initializer, .. } => {
            collect_expr_imports(initializer, names, set);
        },
        Stmt::Function { body, .. } => {
            collect_stmt_imports(body, names, set);
        },
        Stmt::Assign { value, .. } => {
            collect_expr_imports(value, names, set);
        },
        Stmt::IndexAssign { target, index, value, .. } => {
            collect_expr_imports(target, names, set);
            let set: Ghost<Set<Seq<char>>> = Ghost(expr_imports(target@, set@));
            collect_expr_imports(index, names, set);
            let set: Ghost<Set<Seq<char>>> = Ghost(expr_imports(index@, set@));
            collect_expr_imports(value, names, set);
        },
        Stmt::Return { value, .. } => {
            collect_expr_imports(value, names, set);
        },
        Stmt::Expr { value, .. } => {
            collect_expr_imports(value, names, set);
        },
        Stmt::If { condition, then_branch, else_branch, .. } => {
            collect_expr_imports(condition, names, set);
            let set: Ghost<Set<Seq<char>>> = Ghost(expr_imports(condition@, set@));
            collect_stmt_imports(then_branch, names, set);
            let set: Ghost<Set<Seq<char>>> = Ghost(
                stmts_imports(stmt_views(then_branch@), 0, set@),
            );
            collect_stmt_imports(else_branch, names, set);
        },
        Stmt::While { condition, body, .. } => {
            collect_expr_imports(condition, names, set);
            let set: Ghost<Set<Seq<char>>> = Ghost(expr_imports(condition@, set@));
            collect_stmt_imports(body, names, set);
        },
        Stmt::Block { statements, .. } => {
            collect_stmt_imports(statements, names, set);
        },
    }
}

/// Adds the modules that function literals in an expression import.
fn collect_expr_imports(expr: &Expr, names: &mut Vec<String>, set: Ghost<Set<Seq<char>>>)
    requires
        lists(string_views(old(names)@), set@),
    ensures
        lists(string_views(final(names)@), expr_imports(expr@, set@)),
    decreases *expr, 0int,
{
    match expr {
        Expr::Literal { .. } => {},
        Expr::Variable { .. } => {},
        Expr::Binary { lhs, rhs, .. } => {
            collect_expr_imports(lhs, names, set);
            collect_expr_imports(rhs, names, Ghost(expr_imports(lhs@, set@)));
        },
        Expr::Call { args, .. } => {
            collect_exprs_imports(args, names, set);
        },
        Expr::Function { body, .. } => {
            collect_stmt_imports(body, names, set);
        },
        Expr::Index { target, index, .. } => {
            collect_expr_imports(target, names, set);
            collect_expr_imports(index, names, Ghost(expr_imports(target@, set@)));
        },
        Expr::Array { elements, .. } => {
            collect_exprs_imports(elements, names, set);
        },
        Expr::MapLiteral { entries, .. } => {
            collect_entries_imports(entries, names, set);
        },
        Expr::Grouping { expr, .. } => {
            collect_expr_imports(expr, names, set);
        },
    }
}

fn collect_exprs_imports(exprs: &Vec<Expr>, names: &mut Vec<String>, set: Ghost<Set<Seq<char>>>)
    requires
        lists(string_views(old(names)@), set@),
    ensures
        lists(string_views(final(names)@), exprs_imports(expr_views(exprs@), 0, set@)),
    decreases *exprs, 0int,
{
    let ghost views = expr_views(exprs@);
    let mut seen: Ghost<Set<Seq<char>>> = set;
    let mut i: usize = 0;
    while i < exprs.len()
        invariant
            i <= exprs@.len(),
            views == expr_views(exprs@),
            lists(string_views(names@), seen@),
            exprs_imports(views, 0, set@) == exprs_imports(views, i as int, seen@),
        decreases exprs.len() - i,
    {
        assert(views[i as int] == expr_view(exprs@[i as int]));
        collect_expr_imports(&exprs[i], names, seen);
        proof {
            seen@ = expr_imports(views[i as int], seen@);
        }
        i = i + 1;
    }
}

fn collect_entries_imports(
    entries: &Vec<(Expr, Expr)>,
    names: &mut Vec<String>,
    set: Ghost<Set<Seq<char>>>,
)
    requires
        lists(string_views(old(names)@), set@),
    ensures
        lists(string_views(final(names)@), entries_imports(entry_views(entries@), 0, set@)),
    decreases *entries, 0int,
{
    let ghost views = entry_views(entries@);
    let mut seen: Ghost<Set<Seq<char>>> = set;
    let mut i: usize = 0;
    while i < entries.len()
        invariant
            i <= entries@.len(),
            views == entry_views(entries@),
            lists(string_views(names@), seen@),
            entries_imports(views, 0, set@) == entries_imports(views, i as int, seen@),
        decreases entries.len() - i,
    {
        assert(views[i as int] == (expr_view(entries@[i as int].0), expr_view(
            entries@[i as int].1,
        )));
        let entry = &entries[i];
        assert(decreases_to!(*entries => entries@[i as int]));
        collect_expr_imports(&entry.0, names, seen);
        proof {
            seen@ = expr_imports(views[i as int].0, seen@);
        }
        collect_expr_imports(&entry.1, names, seen);
        proof {
            seen@ = expr_imports(views[i as int].1, seen@);
        }
        i = i + 1;
    }
}

} // verus!
