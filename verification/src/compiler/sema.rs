//! Semantic analysis of syntax trees.
//!
//! Validates names and arity before code generation. Variables are resolved through lexical
//! scopes, so block-local bindings can shadow outer names without leaking after the block exits.

use vstd::prelude::*;
use vstd::string::StringExecFns;

use crate::bytecode::chunk::string_views;
use crate::compiler::ast::{
    entry_views, expr_view, expr_views, stmt_view, stmt_views, Expr, ExprView, ProgramAst, Stmt,
    StmtView,
};
use crate::compiler::error::{
    CompileError, CompileErrorKind, CompileErrorKindView, CompileErrorView,
};
use crate::compiler::parser::failure;
use crate::diagnostics::span::SourceSpan;
use crate::names::NameMap;
use crate::text::characters;

verus! {

// ---------------------------------------------------------------------------
// What a well-formed program is
// ---------------------------------------------------------------------------

/// The names declared in each scope, outermost first.
pub type Scopes = Seq<Set<Seq<char>>>;

/// The functions that a program can call, with their arities, and the modules that mark what they
/// export.
pub struct Env {
    pub functions: Map<Seq<char>, usize>,
    pub modules: Set<Seq<char>>,
}

/// The largest number of parameters, arguments, elements or entries in one list.
pub const MAX_LIST: usize = 255;

/// A name that some scope declares.
pub open spec fn visible(scopes: Scopes, name: Seq<char>) -> bool {
    exists|i: int| 0 <= i < scopes.len() && (#[trigger] scopes[i]).contains(name)
}

/// The scopes after the innermost one has declared a name.
pub open spec fn declared(scopes: Scopes, name: Seq<char>) -> Scopes {
    scopes.update(scopes.len() - 1, scopes.last().insert(name))
}

/// The scopes with an empty scope inside them.
pub open spec fn opened(scopes: Scopes) -> Scopes {
    scopes.push(Set::empty())
}

/// The position of the last dot in a name, or -1.
pub open spec fn last_dot(name: Seq<char>) -> int
    decreases name.len(),
{
    if name.len() == 0 {
        -1
    } else if name.last() == '.' {
        name.len() - 1
    } else {
        last_dot(name.drop_last())
    }
}

/// The module part of a dotted name.
pub open spec fn module_of(name: Seq<char>) -> Option<Seq<char>> {
    if last_dot(name) >= 0 {
        Some(name.take(last_dot(name)))
    } else {
        None
    }
}

/// The error of an unknown name: an export that a module with exports lacks, or the plain error.
pub open spec fn unknown(
    name: Seq<char>,
    env: Env,
    plain: CompileErrorKindView,
) -> CompileErrorKindView {
    match module_of(name) {
        Some(module) => if env.modules.contains(module) {
            CompileErrorKindView::UndefinedModuleExport {
                module,
                name: name.skip(last_dot(name) + 1),
            }
        } else {
            plain
        },
        None => plain,
    }
}

/// The first of two errors.
pub open spec fn first_of(
    a: Option<CompileErrorView>,
    b: Option<CompileErrorView>,
) -> Option<CompileErrorView> {
    if a is Some {
        a
    } else {
        b
    }
}

/// The first error in an expression.
pub open spec fn expr_error(expr: ExprView, scopes: Scopes, env: Env) -> Option<CompileErrorView>
    decreases expr, 0int,
{
    match expr {
        ExprView::Literal { .. } => None,
        ExprView::Variable { name, span } => if visible(scopes, name) {
            None
        } else {
            Some(
                failure(
                    unknown(name, env, CompileErrorKindView::UndefinedVariable { name }),
                    span,
                ),
            )
        },
        ExprView::Binary { lhs, rhs, .. } => first_of(
            expr_error(*lhs, scopes, env),
            expr_error(*rhs, scopes, env),
        ),
        ExprView::Array { elements, span } => if elements.len() > MAX_LIST {
            Some(failure(CompileErrorKindView::TooManyArrayElements { max: MAX_LIST as nat }, span))
        } else {
            exprs_error(elements, 0, scopes, env)
        },
        ExprView::MapLiteral { entries, span } => if entries.len() > MAX_LIST {
            Some(failure(CompileErrorKindView::TooManyMapEntries { max: MAX_LIST as nat }, span))
        } else {
            entries_error(entries, 0, scopes, env)
        },
        ExprView::Index { target, index, .. } => first_of(
            expr_error(*target, scopes, env),
            expr_error(*index, scopes, env),
        ),
        ExprView::Call { callee, args, span } => if args.len() > MAX_LIST {
            Some(failure(CompileErrorKindView::TooManyArguments { max: MAX_LIST as nat }, span))
        } else if visible(scopes, callee) {
            exprs_error(args, 0, scopes, env)
        } else if !env.functions.contains_key(callee) {
            Some(
                failure(
                    unknown(callee, env, CompileErrorKindView::UndefinedFunction { name: callee }),
                    span,
                ),
            )
        } else if env.functions[callee] != args.len() {
            Some(
                failure(
                    CompileErrorKindView::WrongCallArity {
                        name: callee,
                        expected: env.functions[callee] as nat,
                        actual: args.len(),
                    },
                    span,
                ),
            )
        } else {
            exprs_error(args, 0, scopes, env)
        },
        ExprView::Function { params, body, span } => match with_params(
            params,
            span,
            opened(scopes),
        ) {
            Ok(inner) => scoped_error(body, inner, env),
            Err(error) => Some(error),
        },
        ExprView::Grouping { expr, .. } => expr_error(*expr, scopes, env),
    }
}

/// The first error in a list of expressions from `i` on.
pub open spec fn exprs_error(
    exprs: Seq<ExprView>,
    i: int,
    scopes: Scopes,
    env: Env,
) -> Option<CompileErrorView>
    decreases exprs, exprs.len() - i,
{
    if 0 <= i < exprs.len() {
        first_of(expr_error(exprs[i], scopes, env), exprs_error(exprs, i + 1, scopes, env))
    } else {
        None
    }
}

/// The first error in a list of key/value pairs from `i` on.
pub open spec fn entries_error(
    entries: Seq<(ExprView, ExprView)>,
    i: int,
    scopes: Scopes,
    env: Env,
) -> Option<CompileErrorView>
    decreases entries, entries.len() - i,
{
    if 0 <= i < entries.len() {
        first_of(
            expr_error(entries[i].0, scopes, env),
            first_of(
                expr_error(entries[i].1, scopes, env),
                entries_error(entries, i + 1, scopes, env),
            ),
        )
    } else {
        None
    }
}

/// The first error in statements that have a scope of their own.
pub open spec fn scoped_error(stmts: Seq<StmtView>, scopes: Scopes, env: Env) -> Option<
    CompileErrorView,
>
    decreases stmts, stmts.len() + 1,
{
    match after_stmts(stmts, 0, opened(scopes), env) {
        Ok(_) => None,
        Err(error) => Some(error),
    }
}

/// The scopes after the statements from `i` on, or the first error in them.
pub open spec fn after_stmts(stmts: Seq<StmtView>, i: int, scopes: Scopes, env: Env) -> Result<
    Scopes,
    CompileErrorView,
>
    decreases stmts, stmts.len() - i,
{
    if 0 <= i < stmts.len() {
        match after_stmt(stmts[i], scopes, env) {
            Ok(next) => after_stmts(stmts, i + 1, next, env),
            Err(error) => Err(error),
        }
    } else {
        Ok(scopes)
    }
}

/// The scopes, where there is no error.
pub open spec fn unless(error: Option<CompileErrorView>, scopes: Scopes) -> Result<
    Scopes,
    CompileErrorView,
> {
    match error {
        None => Ok(scopes),
        Some(error) => Err(error),
    }
}

/// The scopes after a statement, or the first error in it.
pub open spec fn after_stmt(stmt: StmtView, scopes: Scopes, env: Env) -> Result<
    Scopes,
    CompileErrorView,
>
    decreases stmt, 0int,
{
    match stmt {
        StmtView::Import { .. } => Ok(scopes),
        StmtView::Function { .. } => Ok(scopes),
        StmtView::Let { name, initializer, span, .. } => if scopes.last().contains(name) {
            Err(failure(CompileErrorKindView::DuplicateVariable { name }, span))
        } else if initializer is Function {
            unless(
                expr_error(initializer, declared(scopes, name), env),
                declared(scopes, name),
            )
        } else {
            unless(expr_error(initializer, scopes, env), declared(scopes, name))
        },
        StmtView::Assign { name, value, span } => if visible(scopes, name) {
            unless(expr_error(value, scopes, env), scopes)
        } else {
            Err(failure(CompileErrorKindView::UndefinedVariable { name }, span))
        },
        StmtView::IndexAssign { target, index, value, .. } => unless(
            first_of(
                expr_error(target, scopes, env),
                first_of(expr_error(index, scopes, env), expr_error(value, scopes, env)),
            ),
            scopes,
        ),
        StmtView::Return { value, .. } => unless(expr_error(value, scopes, env), scopes),
        StmtView::Expr { value, .. } => unless(expr_error(value, scopes, env), scopes),
        StmtView::If { condition, then_branch, else_branch, .. } => unless(
            first_of(
                expr_error(condition, scopes, env),
                first_of(
                    scoped_error(then_branch, scopes, env),
                    scoped_error(else_branch, scopes, env),
                ),
            ),
            scopes,
        ),
        StmtView::While { condition, body, .. } => unless(
            first_of(expr_error(condition, scopes, env), scoped_error(body, scopes, env)),
            scopes,
        ),
        StmtView::Block { statements, .. } => unless(
            scoped_error(statements, scopes, env),
            scopes,
        ),
    }
}

/// The scopes after the innermost one has declared the parameters from `i` on.
pub open spec fn with_params_from(
    params: Seq<Seq<char>>,
    i: int,
    span: SourceSpan,
    scopes: Scopes,
) -> Result<Scopes, CompileErrorView>
    decreases params.len() - i,
{
    if 0 <= i < params.len() {
        if scopes.last().contains(params[i]) {
            Err(failure(CompileErrorKindView::DuplicateParameter { name: params[i] }, span))
        } else {
            with_params_from(params, i + 1, span, declared(scopes, params[i]))
        }
    } else {
        Ok(scopes)
    }
}

/// The scopes after the innermost one has declared parameters.
pub open spec fn with_params(params: Seq<Seq<char>>, span: SourceSpan, scopes: Scopes) -> Result<
    Scopes,
    CompileErrorView,
> {
    if params.len() > MAX_LIST {
        Err(failure(CompileErrorKindView::TooManyParameters { max: MAX_LIST as nat }, span))
    } else {
        with_params_from(params, 0, span, scopes)
    }
}

/// The arities of the functions that exist in every program.
pub open spec fn builtin_arities() -> Map<Seq<char>, usize> {
    Map::empty().insert("print"@, 1usize).insert("len"@, 1usize).insert("type_of"@, 1usize)
}

/// The functions after the declarations of the statements from `i` on.
pub open spec fn with_declarations(
    stmts: Seq<StmtView>,
    i: int,
    functions: Map<Seq<char>, usize>,
) -> Result<Map<Seq<char>, usize>, CompileErrorView>
    decreases stmts.len() - i,
{
    if 0 <= i < stmts.len() {
        match stmts[i] {
            StmtView::Function { name, params, span, .. } => if functions.contains_key(name) {
                Err(failure(CompileErrorKindView::DuplicateFunction { name }, span))
            } else {
                with_declarations(stmts, i + 1, functions.insert(name, params.len() as usize))
            },
            _ => with_declarations(stmts, i + 1, functions),
        }
    } else {
        Ok(functions)
    }
}

/// The functions after the aliases from `i` on: an alias has the arity of its target, where the
/// target exists and the alias is not taken.
pub open spec fn with_aliases<V>(
    aliases: Seq<(Seq<char>, Seq<char>)>,
    i: int,
    functions: Map<Seq<char>, V>,
) -> Map<Seq<char>, V>
    decreases aliases.len() - i,
{
    if 0 <= i < aliases.len() {
        let (alias, target) = aliases[i];
        if functions.contains_key(target) && !functions.contains_key(alias) {
            with_aliases(aliases, i + 1, functions.insert(alias, functions[target]))
        } else {
            with_aliases(aliases, i + 1, functions)
        }
    } else {
        functions
    }
}

/// The first error in the top-level statements from `i` on that are not functions.
pub open spec fn main_error(stmts: Seq<StmtView>, i: int, scopes: Scopes, env: Env) -> Option<
    CompileErrorView,
>
    decreases stmts.len() - i,
{
    if 0 <= i < stmts.len() {
        match after_stmt(stmts[i], scopes, env) {
            Ok(next) => main_error(stmts, i + 1, next, env),
            Err(error) => Some(error),
        }
    } else {
        None
    }
}

/// The first error in the bodies of the functions declared from `i` on.
pub open spec fn bodies_error(stmts: Seq<StmtView>, i: int, env: Env) -> Option<CompileErrorView>
    decreases stmts.len() - i,
{
    if 0 <= i < stmts.len() {
        match stmts[i] {
            StmtView::Function { params, body, span, .. } => {
                let error = match with_params(params, span, seq![Set::empty()]) {
                    Ok(scopes) => scoped_error(body, scopes, env),
                    Err(error) => Some(error),
                };
                first_of(error, bodies_error(stmts, i + 1, env))
            },
            _ => bodies_error(stmts, i + 1, env),
        }
    } else {
        None
    }
}

/// The first error in a program, where the given modules mark what they export.
pub open spec fn program_error(
    stmts: Seq<StmtView>,
    aliases: Seq<(Seq<char>, Seq<char>)>,
    exporting: Seq<Seq<char>>,
) -> Option<CompileErrorView> {
    match with_declarations(stmts, 0, builtin_arities()) {
        Ok(functions) => {
            let env = Env {
                functions: with_aliases(aliases, 0, functions),
                modules: exporting.to_set(),
            };
            first_of(
                main_error(stmts, 0, seq![Set::empty()], env),
                bodies_error(stmts, 0, env),
            )
        },
        Err(error) => Some(error),
    }
}

// ---------------------------------------------------------------------------
// The scope stack
// ---------------------------------------------------------------------------

struct ScopeStack {
    scopes: Vec<NameMap<bool>>,
}

impl View for ScopeStack {
    type V = Scopes;

    closed spec fn view(&self) -> Scopes {
        Seq::new(self.scopes@.len(), |i: int| self.scopes@[i]@.dom())
    }
}

impl ScopeStack {
    fn new() -> (stack: Self)
        ensures
            stack@ == seq![Set::<Seq<char>>::empty()],
    {
        let mut scopes: Vec<NameMap<bool>> = Vec::new();
        scopes.push(NameMap::new());
        let stack = ScopeStack { scopes };
        assert(stack@ =~= seq![Set::<Seq<char>>::empty()]);
        stack
    }

    fn push_scope(&mut self)
        ensures
            final(self)@ == opened(old(self)@),
    {
        self.scopes.push(NameMap::new());
        assert(self@ =~= opened(old(self)@));
    }

    fn pop_scope(&mut self)
        requires
            old(self)@.len() > 0,
        ensures
            final(self)@ == old(self)@.drop_last(),
    {
        self.scopes.pop();
        assert(self@ =~= old(self)@.drop_last());
    }

    fn contains(&self, name: &str) -> (found: bool)
        ensures
            found == visible(self@, name@),
    {
        let mut i: usize = self.scopes.len();
        while i > 0
            invariant
                i <= self.scopes@.len(),
                forall|k: int| i <= k < self@.len() ==> !(#[trigger] self@[k]).contains(name@),
            decreases i,
        {
            i = i - 1;
            if self.scopes[i].contains(name) {
                assert(self@[i as int].contains(name@));
                return true;
            }
        }
        false
    }

    fn contains_current(&self, name: &str) -> (found: bool)
        requires
            self@.len() > 0,
        ensures
            found == self@.last().contains(name@),
    {
        self.scopes[self.scopes.len() - 1].contains(name)
    }

    fn declare(&mut self, name: &str)
        requires
            old(self)@.len() > 0,
        ensures
            final(self)@ == declared(old(self)@, name@),
    {
        match self.scopes.pop() {
            Some(scope) => {
                let mut scope = scope;
                let ghost before = scope@;
                scope.insert(name, true);
                assert(scope@.dom() =~= before.dom().insert(name@));
                self.scopes.push(scope);
                assert(self@ =~= declared(old(self)@, name@));
            },
            None => {},
        }
    }
}

// ---------------------------------------------------------------------------
// The analysis
// ---------------------------------------------------------------------------

/// The functions that a program can call, and the modules that mark what they export.
struct Names {
    functions: NameMap<usize>,
    modules: NameMap<bool>,
}

impl Names {
    spec fn env(&self) -> Env {
        Env { functions: self.functions@, modules: self.modules@.dom() }
    }
}

/// The texts of a list of alias pairs.
pub open spec fn alias_views(aliases: Seq<(String, String)>) -> Seq<(Seq<char>, Seq<char>)> {
    Seq::new(aliases.len(), |i: int| (aliases[i].0@, aliases[i].1@))
}

/// The outcome of a check agrees with the first error that there is.
pub open spec fn checked(result: Result<(), CompileError>, error: Option<CompileErrorView>) -> bool {
    match result {
        Ok(_) => error is None,
        Err(e) => error == Some(e@),
    }
}

/// Runs semantic checks for a program without module aliases.
pub fn analyze(program: &ProgramAst) -> (result: Result<(), CompileError>)
    ensures
        checked(result, program_error(program@, Seq::empty(), Seq::empty())),
{
    let aliases: Vec<(String, String)> = Vec::new();
    assert(alias_views(aliases@) =~= Seq::empty());
    analyze_with_function_aliases(program, &aliases)
}

/// Runs semantic checks while allowing namespaced aliases to point at functions.
pub fn analyze_with_function_aliases(
    program: &ProgramAst,
    aliases: &Vec<(String, String)>,
) -> (result: Result<(), CompileError>)
    ensures
        checked(result, program_error(program@, alias_views(aliases@), Seq::empty())),
{
    let exporting: Vec<String> = Vec::new();
    assert(string_views(exporting@) =~= Seq::empty());
    analyze_with_exports(program, aliases, &exporting)
}

/// Runs semantic checks with aliases of functions and the names of the modules that mark what
/// they export.
pub fn analyze_with_exports(
    program: &ProgramAst,
    aliases: &Vec<(String, String)>,
    exporting: &Vec<String>,
) -> (result: Result<(), CompileError>)
    ensures
        checked(
            result,
            program_error(program@, alias_views(aliases@), string_views(exporting@)),
        ),
{
    let functions = collect_functions(program, aliases)?;
    let modules = collect_modules(exporting);
    let names = Names { functions, modules };
    let ghost env = names.env();
    let ghost stmts = program@;
    let mut scopes = ScopeStack::new();
    let mut i: usize = 0;
    while i < program.statements.len()
        invariant
            i <= program.statements@.len(),
            stmts == program@,
            env == names.env(),
            scopes@.len() > 0,
            program_error(program@, alias_views(aliases@), string_views(exporting@)) == first_of(
                main_error(stmts, i as int, scopes@, env),
                bodies_error(stmts, 0, env),
            ),
        decreases program.statements.len() - i,
    {
        assert(stmts[i as int] == stmt_view(program.statements@[i as int]));
        if !matches!(program.statements[i], Stmt::Function { .. }) {
            check_stmt(&program.statements[i], &mut scopes, &names)?;
        }
        i = i + 1;
    }
    let mut k: usize = 0;
    while k < program.statements.len()
        invariant
            k <= program.statements@.len(),
            stmts == program@,
            env == names.env(),
            program_error(program@, alias_views(aliases@), string_views(exporting@))
                == bodies_error(stmts, k as int, env),
        decreases program.statements.len() - k,
    {
        assert(stmts[k as int] == stmt_view(program.statements@[k as int]));
        if let Stmt::Function { params, body, span, .. } = &program.statements[k] {
            let mut function_scopes = ScopeStack::new();
            declare_parameters(params, *span, &mut function_scopes)?;
            check_scoped_statements(body, &mut function_scopes, &names)?;
        }
        k = k + 1;
    }
    Ok(())
}

/// The functions that a program can call.
fn collect_functions(program: &ProgramAst, aliases: &Vec<(String, String)>) -> (result: Result<
    NameMap<usize>,
    CompileError,
>)
    ensures
        match result {
            Ok(functions) => with_declarations(program@, 0, builtin_arities()) matches Ok(declared)
                && functions@ == with_aliases(alias_views(aliases@), 0, declared),
            Err(error) => with_declarations(program@, 0, builtin_arities()) matches Err(e) && e
                == error@,
        },
{
    let mut functions: NameMap<usize> = NameMap::new();
    functions.insert("print", 1);
    functions.insert("len", 1);
    functions.insert("type_of", 1);
    let ghost stmts = program@;
    let mut i: usize = 0;
    while i < program.statements.len()
        invariant
            i <= program.statements@.len(),
            stmts == program@,
            with_declarations(stmts, 0, builtin_arities()) == with_declarations(
                stmts,
                i as int,
                functions@,
            ),
        decreases program.statements.len() - i,
    {
        assert(stmts[i as int] == stmt_view(program.statements@[i as int]));
        if let Stmt::Function { name, params, span, .. } = &program.statements[i] {
            if functions.contains(name.as_str()) {
                return Err(
                    CompileError::new(
                        CompileErrorKind::DuplicateFunction { name: name.clone() },
                        Some(*span),
                    ),
                );
            }
            functions.insert(name.as_str(), params.len());
        }
        i = i + 1;
    }
    let ghost declared = functions@;
    let ghost names = alias_views(aliases@);
    let mut k: usize = 0;
    while k < aliases.len()
        invariant
            k <= aliases@.len(),
            names == alias_views(aliases@),
            with_aliases(names, 0, declared) == with_aliases(names, k as int, functions@),
        decreases aliases.len() - k,
    {
        let alias = &aliases[k];
        assert(names[k as int] == (alias.0@, alias.1@));
        if let Some(arity) = functions.get(alias.1.as_str()) {
            if !functions.contains(alias.0.as_str()) {
                functions.insert(alias.0.as_str(), arity);
            }
        }
        k = k + 1;
    }
    Ok(functions)
}

/// The names in a list, as a table.
fn collect_modules(exporting: &Vec<String>) -> (modules: NameMap<bool>)
    ensures
        modules@.dom() == string_views(exporting@).to_set(),
{
    let mut modules: NameMap<bool> = NameMap::new();
    let ghost names = string_views(exporting@);
    assert(modules@.dom() =~= names.take(0).to_set());
    let mut k: usize = 0;
    while k < exporting.len()
        invariant
            k <= exporting@.len(),
            names == string_views(exporting@),
            modules@.dom() == names.take(k as int).to_set(),
        decreases exporting.len() - k,
    {
        let ghost before = modules@;
        modules.insert(exporting[k].as_str(), true);
        proof {
            let next = names.take(k + 1);
            assert(next =~= names.take(k as int).push(names[k as int]));
            assert(modules@.dom() =~= before.dom().insert(names[k as int]));
            assert forall|name: Seq<char>| next.to_set().contains(name) == modules@.dom().contains(
                name,
            ) by {
                if modules@.dom().contains(name) {
                    if name == names[k as int] {
                        assert(next[k as int] == name);
                    } else {
                        let i = choose|i: int| 0 <= i < k && names.take(k as int)[i] == name;
                        assert(next[i] == name);
                    }
                } else if next.contains(name) {
                    let i = choose|i: int| 0 <= i < next.len() && next[i] == name;
                    assert(names.take(k as int).contains(names.take(k as int)[i]));
                }
            }
            assert(modules@.dom() =~= next.to_set());
        }
        k = k + 1;
    }
    assert(names.take(k as int) =~= names);
    modules
}

/// The characters `[from, to)` of a list.
fn chars_between(chars: &Vec<char>, from: usize, to: usize) -> (s: String)
    requires
        from <= to <= chars@.len(),
    ensures
        s@ == chars@.subrange(from as int, to as int),
{
    let mut s = String::new();
    let mut i: usize = from;
    while i < to
        invariant
            from <= i <= to <= chars@.len(),
            s@ == chars@.subrange(from as int, i as int),
        decreases to - i,
    {
        s.push(chars[i]);
        i = i + 1;
        assert(s@ =~= chars@.subrange(from as int, i as int));
    }
    s
}

/// Splits a dotted name at its last dot.
fn split_name(name: &str) -> (parts: Option<(String, String)>)
    ensures
        match parts {
            Some((module, member)) => {
                &&& module_of(name@) == Some(module@)
                &&& member@ == name@.skip(last_dot(name@) + 1)
            },
            None => module_of(name@) is None,
        },
{
    let chars = characters(name);
    let mut i: usize = chars.len();
    assert(name@.take(i as int) =~= name@);
    while i > 0
        invariant
            i <= chars@.len(),
            chars@ == name@,
            last_dot(name@) == last_dot(name@.take(i as int)),
        decreases i,
    {
        assert(name@.take(i as int).drop_last() =~= name@.take(i - 1));
        assert(name@.take(i as int).last() == name@[i - 1]);
        if chars[i - 1] == '.' {
            let module = chars_between(&chars, 0, i - 1);
            let member = chars_between(&chars, i, chars.len());
            assert(module@ =~= name@.take(i - 1));
            assert(member@ =~= name@.skip(i as int));
            return Some((module, member));
        }
        i = i - 1;
    }
    None
}

/// The error of an unknown name.
fn unknown_name(name: &str, names: &Names, plain: CompileErrorKind, span: SourceSpan) -> (error:
    CompileError)
    ensures
        error@ == failure(unknown(name@, names.env(), plain@), span),
{
    if let Some((module, member)) = split_name(name) {
        if names.modules.contains(module.as_str()) {
            return CompileError::new(
                CompileErrorKind::UndefinedModuleExport { module, name: member },
                Some(span),
            );
        }
    }
    CompileError::new(plain, Some(span))
}

/// The scopes around the innermost one are the same.
pub open spec fn kept_around(before: Scopes, after: Scopes) -> bool {
    &&& after.len() == before.len()
    &&& after.drop_last() == before.drop_last()
}

/// Checks statements that have a scope of their own.
fn check_scoped_statements(stmts: &Vec<Stmt>, scopes: &mut ScopeStack, names: &Names) -> (result:
    Result<(), CompileError>)
    requires
        old(scopes)@.len() > 0,
    ensures
        checked(result, scoped_error(stmt_views(stmts@), old(scopes)@, names.env())),
        final(scopes)@ == old(scopes)@,
    decreases *stmts, 1int,
{
    scopes.push_scope();
    let result = check_statements(stmts, scopes, names);
    scopes.pop_scope();
    assert(scopes@ =~= old(scopes)@);
    result
}

/// Checks statements in the current scope.
fn check_statements(stmts: &Vec<Stmt>, scopes: &mut ScopeStack, names: &Names) -> (result: Result<
    (),
    CompileError,
>)
    requires
        old(scopes)@.len() > 0,
    ensures
        match result {
            Ok(_) => after_stmts(stmt_views(stmts@), 0, old(scopes)@, names.env()) == Ok::<
                Scopes,
                CompileErrorView,
            >(final(scopes)@),
            Err(error) => after_stmts(stmt_views(stmts@), 0, old(scopes)@, names.env()) == Err::<
                Scopes,
                CompileErrorView,
            >(error@),
        },
        kept_around(old(scopes)@, final(scopes)@),
    decreases *stmts, 0int,
{
    let ghost views = stmt_views(stmts@);
    let mut i: usize = 0;
    while i < stmts.len()
        invariant
            i <= stmts@.len(),
            views == stmt_views(stmts@),
            scopes@.len() > 0,
            kept_around(old(scopes)@, scopes@),
            after_stmts(views, 0, old(scopes)@, names.env()) == after_stmts(
                views,
                i as int,
                scopes@,
                names.env(),
            ),
        decreases stmts.len() - i,
    {
        assert(views[i as int] == stmt_view(stmts@[i as int]));
        check_stmt(&stmts[i], scopes, names)?;
        i = i + 1;
    }
    Ok(())
}

/// Checks a statement.
fn check_stmt(stmt: &Stmt, scopes: &mut ScopeStack, names: &Names) -> (result: Result<
    (),
    CompileError,
>)
    requires
        old(scopes)@.len() > 0,
    ensures
        match result {
            Ok(_) => after_stmt(stmt@, old(scopes)@, names.env()) == Ok::<Scopes, CompileErrorView>(
                final(scopes)@,
            ),
            Err(error) => after_stmt(stmt@, old(scopes)@, names.env()) == Err::<
                Scopes,
                CompileErrorView,
            >(error@),
        },
        kept_around(old(scopes)@, final(scopes)@),
    decreases *stmt, 0int,
{
    assert(forall|name: Seq<char>|
        (#[trigger] declared(old(scopes)@, name)).drop_last() =~= old(scopes)@.drop_last());
    match stmt {
        Stmt::Import { .. } => Ok(()),
        Stmt::Function { .. } => Ok(()),
        Stmt::Let { name, initializer, span, .. } => {
            if scopes.contains_current(name.as_str()) {
                return Err(
                    CompileError::new(
                        CompileErrorKind::DuplicateVariable { name: name.clone() },
                        Some(*span),
                    ),
                );
            }
            if matches!(initializer, Expr::Function { .. }) {
                scopes.declare(name.as_str());
                check_expr(initializer, scopes, names)
            } else {
                check_expr(initializer, scopes, names)?;
                scopes.declare(name.as_str());
                Ok(())
            }
        },
        Stmt::Assign { name, value, span } => {
            if !scopes.contains(name.as_str()) {
                return Err(
                    CompileError::new(
                        CompileErrorKind::UndefinedVariable { name: name.clone() },
                        Some(*span),
                    ),
                );
            }
            check_expr(value, scopes, names)
        },
        Stmt::IndexAssign { target, index, value, .. } => {
            check_expr(target, scopes, names)?;
            check_expr(index, scopes, names)?;
            check_expr(value, scopes, names)
        },
        Stmt::Return { value, .. } => check_expr(value, scopes, names),
        Stmt::Expr { value, .. } => check_expr(value, scopes, names),
        Stmt::If { condition, then_branch, else_branch, .. } => {
            check_expr(condition, scopes, names)?;
            check_scoped_statements(then_branch, scopes, names)?;
            check_scoped_statements(else_branch, scopes, names)
        },
        Stmt::While { condition, body, .. } => {
            check_expr(condition, scopes, names)?;
            check_scoped_statements(body, scopes, names)
        },
        Stmt::Block { statements, .. } => check_scoped_statements(statements, scopes, names),
    }
}

/// Declares parameters in the current scope.
fn declare_parameters(params: &Vec<String>, span: SourceSpan, scopes: &mut ScopeStack) -> (result:
    Result<(), CompileError>)
    requires
        old(scopes)@.len() > 0,
    ensures
        match result {
            Ok(_) => with_params(string_views(params@), span, old(scopes)@) == Ok::<
                Scopes,
                CompileErrorView,
            >(final(scopes)@),
            Err(error) => with_params(string_views(params@), span, old(scopes)@) == Err::<
                Scopes,
                CompileErrorView,
            >(error@),
        },
        kept_around(old(scopes)@, final(scopes)@),
{
    if params.len() > MAX_LIST {
        return Err(
            CompileError::new(CompileErrorKind::TooManyParameters { max: MAX_LIST }, Some(span)),
        );
    }
    let ghost views = string_views(params@);
    let mut i: usize = 0;
    while i < params.len()
        invariant
            i <= params@.len(),
            views == string_views(params@),
            scopes@.len() > 0,
            kept_around(old(scopes)@, scopes@),
            with_params(views, span, old(scopes)@) == with_params_from(
                views,
                i as int,
                span,
                scopes@,
            ),
        decreases params.len() - i,
    {
        assert(views[i as int] == params@[i as int]@);
        let param = params[i].as_str();
        if scopes.contains_current(param) {
            return Err(
                CompileError::new(
                    CompileErrorKind::DuplicateParameter { name: params[i].clone() },
                    Some(span),
                ),
            );
        }
        let ghost before = scopes@;
        scopes.declare(param);
        assert(scopes@.drop_last() =~= before.drop_last());
        i = i + 1;
    }
    Ok(())
}

/// Checks an expression; the scopes stay as they are.
fn check_expr(expr: &Expr, scopes: &mut ScopeStack, names: &Names) -> (result: Result<
    (),
    CompileError,
>)
    requires
        old(scopes)@.len() > 0,
    ensures
        checked(result, expr_error(expr@, old(scopes)@, names.env())),
        final(scopes)@ == old(scopes)@,
    decreases *expr, 0int,
{
    match expr {
        Expr::Literal { .. } => Ok(()),
        Expr::Variable { name, span } => {
            if scopes.contains(name.as_str()) {
                Ok(())
            } else {
                Err(
                    unknown_name(
                        name.as_str(),
                        names,
                        CompileErrorKind::UndefinedVariable { name: name.clone() },
                        *span,
                    ),
                )
            }
        },
        Expr::Binary { lhs, rhs, .. } => {
            check_expr(lhs, scopes, names)?;
            check_expr(rhs, scopes, names)
        },
        Expr::Array { elements, span } => {
            assert(expr_views(elements@).len() == elements@.len());
            if elements.len() > MAX_LIST {
                return Err(
                    CompileError::new(
                        CompileErrorKind::TooManyArrayElements { max: MAX_LIST },
                        Some(*span),
                    ),
                );
            }
            check_exprs(elements, scopes, names)
        },
        Expr::MapLiteral { entries, span } => {
            assert(entry_views(entries@).len() == entries@.len());
            if entries.len() > MAX_LIST {
                return Err(
                    CompileError::new(
                        CompileErrorKind::TooManyMapEntries { max: MAX_LIST },
                        Some(*span),
                    ),
                );
            }
            check_entries(entries, scopes, names)
        },
        Expr::Index { target, index, .. } => {
            check_expr(target, scopes, names)?;
            check_expr(index, scopes, names)
        },
        Expr::Call { callee, args, span } => {
            assert(expr_views(args@).len() == args@.len());
            if args.len() > MAX_LIST {
                return Err(
                    CompileError::new(
                        CompileErrorKind::TooManyArguments { max: MAX_LIST },
                        Some(*span),
                    ),
                );
            }
            if !scopes.contains(callee.as_str()) {
                match names.functions.get(callee.as_str()) {
                    Some(expected) => {
                        if expected != args.len() {
                            return Err(
                                CompileError::new(
                                    CompileErrorKind::WrongCallArity {
                                        name: callee.clone(),
                                        expected,
                                        actual: args.len(),
                                    },
                                    Some(*span),
                                ),
                            );
                        }
                    },
                    None => {
                        return Err(
                            unknown_name(
                                callee.as_str(),
                                names,
                                CompileErrorKind::UndefinedFunction { name: callee.clone() },
                                *span,
                            ),
                        );
                    },
                }
            }
            check_exprs(args, scopes, names)
        },
        Expr::Function { params, body, span } => {
            scopes.push_scope();
            let declared = declare_parameters(params, *span, scopes);
            let result = if declared.is_ok() {
                check_scoped_statements(body, scopes, names)
            } else {
                declared
            };
            scopes.pop_scope();
            assert(scopes@ =~= old(scopes)@);
            result
        },
        Expr::Grouping { expr, .. } => check_expr(expr, scopes, names),
    }
}

/// Checks a list of expressions.
fn check_exprs(exprs: &Vec<Expr>, scopes: &mut ScopeStack, names: &Names) -> (result: Result<
    (),
    CompileError,
>)
    requires
        old(scopes)@.len() > 0,
    ensures
        checked(result, exprs_error(expr_views(exprs@), 0, old(scopes)@, names.env())),
        final(scopes)@ == old(scopes)@,
    decreases *exprs, 0int,
{
    let ghost views = expr_views(exprs@);
    let mut i: usize = 0;
    while i < exprs.len()
        invariant
            i <= exprs@.len(),
            views == expr_views(exprs@),
            scopes@ == old(scopes)@,
            scopes@.len() > 0,
            exprs_error(views, 0, old(scopes)@, names.env()) == exprs_error(
                views,
                i as int,
                old(scopes)@,
                names.env(),
            ),
        decreases exprs.len() - i,
    {
        assert(views[i as int] == expr_view(exprs@[i as int]));
        check_expr(&exprs[i], scopes, names)?;
        i = i + 1;
    }
    Ok(())
}

/// Checks a list of key/value pairs.
fn check_entries(entries: &Vec<(Expr, Expr)>, scopes: &mut ScopeStack, names: &Names) -> (result:
    Result<(), CompileError>)
    requires
        old(scopes)@.len() > 0,
    ensures
        checked(result, entries_error(entry_views(entries@), 0, old(scopes)@, names.env())),
        final(scopes)@ == old(scopes)@,
    decreases *entries, 0int,
{
    let ghost views = entry_views(entries@);
    let mut i: usize = 0;
    while i < entries.len()
        invariant
            i <= entries@.len(),
            views == entry_views(entries@),
            scopes@ == old(scopes)@,
            scopes@.len() > 0,
            entries_error(views, 0, old(scopes)@, names.env()) == entries_error(
                views,
                i as int,
                old(scopes)@,
                names.env(),
            ),
        decreases entries.len() - i,
    {
        assert(views[i as int] == (expr_view(entries@[i as int].0), expr_view(
            entries@[i as int].1,
        )));
        let entry = &entries[i];
        assert(decreases_to!(*entries => entries@[i as int]));
        check_expr(&entry.0, scopes, names)?;
        check_expr(&entry.1, scopes, names)?;
        i = i + 1;
    }
    Ok(())
}

// ---------------------------------------------------------------------------
// What the analysis guarantees
// ---------------------------------------------------------------------------

/// Statements change the innermost scope alone, and only add names to it.
pub open spec fn grown(before: Scopes, after: Scopes) -> bool {
    &&& after.len() == before.len()
    &&& after.drop_last() == before.drop_last()
    &&& before.last().subset_of(after.last())
}

proof fn lemma_stmt_scopes_kept(stmt: StmtView, scopes: Scopes, env: Env)
    requires
        scopes.len() > 0,
    ensures
        after_stmt(stmt, scopes, env) matches Ok(after) ==> grown(scopes, after),
{
    if let StmtView::Let { name, .. } = stmt {
        assert(declared(scopes, name).drop_last() =~= scopes.drop_last());
    }
}

proof fn lemma_scopes_kept(stmts: Seq<StmtView>, i: int, scopes: Scopes, env: Env)
    requires
        scopes.len() > 0,
    ensures
        after_stmts(stmts, i, scopes, env) matches Ok(after) ==> grown(scopes, after),
    decreases stmts.len() - i,
{
    if 0 <= i < stmts.len() {
        lemma_stmt_scopes_kept(stmts[i], scopes, env);
        if let Ok(next) = after_stmt(stmts[i], scopes, env) {
            lemma_scopes_kept(stmts, i + 1, next, env);
        }
    }
}

/// Bindings of a block do not leak: after a block, a conditional or a loop, the visible names
/// are those before it.
pub proof fn block_bindings_do_not_leak(stmt: StmtView, scopes: Scopes, env: Env)
    requires
        stmt is Block || stmt is If || stmt is While,
        after_stmt(stmt, scopes, env) is Ok,
    ensures
        after_stmt(stmt, scopes, env)->Ok_0 == scopes,
{
}

/// Names that are visible before statements stay visible after them.
pub proof fn declared_names_stay_visible(
    stmts: Seq<StmtView>,
    scopes: Scopes,
    env: Env,
    name: Seq<char>,
)
    requires
        scopes.len() > 0,
        after_stmts(stmts, 0, scopes, env) is Ok,
        visible(scopes, name),
    ensures
        visible(after_stmts(stmts, 0, scopes, env)->Ok_0, name),
{
    lemma_scopes_kept(stmts, 0, scopes, env);
    let after = after_stmts(stmts, 0, scopes, env)->Ok_0;
    let i = choose|i: int| 0 <= i < scopes.len() && (#[trigger] scopes[i]).contains(name);
    if i < scopes.len() - 1 {
        assert(scopes.drop_last()[i] == after.drop_last()[i]);
    }
    assert(after[i].contains(name));
}

/// An accepted binding is visible behind its statement, and a second binding of the name in the
/// same scope is rejected.
pub proof fn binding_twice_is_rejected(
    first: StmtView,
    second: StmtView,
    scopes: Scopes,
    env: Env,
)
    requires
        scopes.len() > 0,
        first matches StmtView::Let { name, .. } && second matches StmtView::Let { name: other, .. }
            && name == other,
        after_stmt(first, scopes, env) is Ok,
    ensures
        ({
            let after = after_stmt(first, scopes, env)->Ok_0;
            let name = first->Let_name;
            &&& visible(after, name)
            &&& after_stmt(second, after, env) == Err::<Scopes, CompileErrorView>(
                failure(
                    CompileErrorKindView::DuplicateVariable { name },
                    second->Let_span,
                ),
            )
        }),
{
    let after = after_stmt(first, scopes, env)->Ok_0;
    assert(after[after.len() - 1].contains(first->Let_name));
}

} // verus!
