//! Linking of modules: the functions and exports of imported modules before the entry program.

use vstd::prelude::*;
use vstd::string::StringExecFns;

use crate::bytecode::chunk::string_views;
use crate::compiler::ast::{stmt_view, stmt_views, ProgramAst, Stmt, StmtView};
use crate::compiler::sema::alias_views;

verus! {

/// Imported module paired with the namespace visible from the entry file.
#[derive(Debug, PartialEq, Eq)]
pub struct ImportedModuleAst {
    /// Namespace prefix used by calls such as `math.add(...)`.
    pub name: String,
    /// Parsed program of the imported source file.
    pub ast: ProgramAst,
}

/// The mathematical content of an imported module.
pub struct ImportedModuleView {
    pub name: Seq<char>,
    pub ast: Seq<StmtView>,
}

impl View for ImportedModuleAst {
    type V = ImportedModuleView;

    open spec fn view(&self) -> ImportedModuleView {
        ImportedModuleView { name: self.name@, ast: self.ast@ }
    }
}

impl Clone for ImportedModuleAst {
    fn clone(&self) -> (copy: Self)
        ensures
            copy@ == self@,
    {
        ImportedModuleAst { name: self.name.clone(), ast: self.ast.clone() }
    }
}

/// The contents of a list of modules.
pub open spec fn module_views(modules: Seq<ImportedModuleAst>) -> Seq<ImportedModuleView> {
    Seq::new(modules.len(), |i: int| modules[i]@)
}

/// The contents of a list of programs.
pub open spec fn program_views(programs: Seq<ProgramAst>) -> Seq<Seq<StmtView>> {
    Seq::new(programs.len(), |i: int| programs[i]@)
}

/// The function declarations among the statements from `i` on.
pub open spec fn functions_from(stmts: Seq<StmtView>, i: int) -> Seq<StmtView>
    decreases stmts.len() - i,
{
    if 0 <= i < stmts.len() {
        if stmts[i] is Function {
            seq![stmts[i]] + functions_from(stmts, i + 1)
        } else {
            functions_from(stmts, i + 1)
        }
    } else {
        Seq::empty()
    }
}

/// The statements from `i` on that are no imports.
pub open spec fn code_from(stmts: Seq<StmtView>, i: int) -> Seq<StmtView>
    decreases stmts.len() - i,
{
    if 0 <= i < stmts.len() {
        if stmts[i] is Import {
            code_from(stmts, i + 1)
        } else {
            seq![stmts[i]] + code_from(stmts, i + 1)
        }
    } else {
        Seq::empty()
    }
}

/// The function declarations of the modules from `i` on.
pub open spec fn module_functions(modules: Seq<Seq<StmtView>>, i: int) -> Seq<StmtView>
    decreases modules.len() - i,
{
    if 0 <= i < modules.len() {
        functions_from(modules[i], 0) + module_functions(modules, i + 1)
    } else {
        Seq::empty()
    }
}

/// The functions of modules before the code of the entry program.
pub open spec fn linked(entry: Seq<StmtView>, modules: Seq<Seq<StmtView>>) -> Seq<StmtView> {
    module_functions(modules, 0) + code_from(entry, 0)
}

/// Whether a statement is marked for export.
pub open spec fn is_exported(stmt: StmtView) -> bool {
    match stmt {
        StmtView::Let { exported, .. } => exported,
        StmtView::Function { exported, .. } => exported,
        _ => false,
    }
}

/// Whether one of the statements from `i` on is marked for export.
pub open spec fn exports_from(stmts: Seq<StmtView>, i: int) -> bool
    decreases stmts.len() - i,
{
    0 <= i < stmts.len() && (is_exported(stmts[i]) || exports_from(stmts, i + 1))
}

/// The name of an export of a module.
pub open spec fn qualified(module: Seq<char>, name: Seq<char>) -> Seq<char> {
    module + "."@ + name
}

/// The names of the modules from `i` on that mark something for export.
pub open spec fn exporting_from(modules: Seq<ImportedModuleView>, i: int) -> Seq<Seq<char>>
    decreases modules.len() - i,
{
    if 0 <= i < modules.len() {
        if exports_from(modules[i].ast, 0) {
            seq![modules[i].name] + exporting_from(modules, i + 1)
        } else {
            exporting_from(modules, i + 1)
        }
    } else {
        Seq::empty()
    }
}

/// What a module adds to a linked program: its functions, and its exported bindings under
/// their qualified names.
pub open spec fn members_from(module: ImportedModuleView, i: int) -> Seq<StmtView>
    decreases module.ast.len() - i,
{
    if 0 <= i < module.ast.len() {
        match module.ast[i] {
            StmtView::Function { .. } => seq![module.ast[i]] + members_from(module, i + 1),
            StmtView::Let { name, initializer, exported, span } => if exported {
                seq![
                    StmtView::Let {
                        name: qualified(module.name, name),
                        initializer,
                        exported,
                        span,
                    },
                ] + members_from(module, i + 1)
            } else {
                members_from(module, i + 1)
            },
            _ => members_from(module, i + 1),
        }
    } else {
        Seq::empty()
    }
}

/// The qualified names of the functions that a module exposes. A module without exports
/// exposes all of them.
pub open spec fn exposed_from(module: ImportedModuleView, i: int) -> Seq<(Seq<char>, Seq<char>)>
    decreases module.ast.len() - i,
{
    if 0 <= i < module.ast.len() {
        match module.ast[i] {
            StmtView::Function { name, exported, .. } => if exported || !exports_from(
                module.ast,
                0,
            ) {
                seq![(qualified(module.name, name), name)] + exposed_from(module, i + 1)
            } else {
                exposed_from(module, i + 1)
            },
            _ => exposed_from(module, i + 1),
        }
    } else {
        Seq::empty()
    }
}

/// What the modules from `i` on add to a linked program.
pub open spec fn all_members(modules: Seq<ImportedModuleView>, i: int) -> Seq<StmtView>
    decreases modules.len() - i,
{
    if 0 <= i < modules.len() {
        members_from(modules[i], 0) + all_members(modules, i + 1)
    } else {
        Seq::empty()
    }
}

/// The qualified function names that the modules from `i` on expose.
pub open spec fn all_exposed(modules: Seq<ImportedModuleView>, i: int) -> Seq<
    (Seq<char>, Seq<char>),
>
    decreases modules.len() - i,
{
    if 0 <= i < modules.len() {
        exposed_from(modules[i], 0) + all_exposed(modules, i + 1)
    } else {
        Seq::empty()
    }
}

/// The members of named modules before the code of the entry program.
pub open spec fn linked_named(
    entry: Seq<StmtView>,
    modules: Seq<ImportedModuleView>,
) -> Seq<StmtView> {
    all_members(modules, 0) + code_from(entry, 0)
}

/// Appends the statements of the entry program that are no imports.
fn append_code(statements: &mut Vec<Stmt>, entry: ProgramAst)
    ensures
        stmt_views(final(statements)@) == stmt_views(old(statements)@) + code_from(entry@, 0),
{
    let ghost stmts = entry@;
    let ghost first = stmt_views(statements@);
    for stmt in it: entry.statements.into_iter()
        invariant
            it.seq() == entry.statements@,
            stmts == stmt_views(entry.statements@),
            first + code_from(stmts, 0) == stmt_views(statements@) + code_from(stmts, it.index() as int),
    {
        let ghost i = it.index() as int;
        assert(stmts[i] == stmt_view(entry.statements@[i]));
        let ghost before = stmt_views(statements@);
        if !matches!(stmt, Stmt::Import { .. }) {
            statements.push(stmt);
            assert(stmt_views(statements@) =~= before.push(stmts[i]));
            assert(before + (seq![stmts[i]] + code_from(stmts, i + 1)) =~= before.push(stmts[i])
                + code_from(stmts, i + 1));
        }
    }
    assert(stmt_views(statements@) + Seq::<StmtView>::empty() =~= stmt_views(statements@));
}

/// Appends the function declarations of a module.
fn append_functions(statements: &mut Vec<Stmt>, module: ProgramAst)
    ensures
        stmt_views(final(statements)@) == stmt_views(old(statements)@) + functions_from(module@, 0),
{
    let ghost stmts = module@;
    let ghost first = stmt_views(statements@);
    for stmt in it: module.statements.into_iter()
        invariant
            it.seq() == module.statements@,
            stmts == stmt_views(module.statements@),
            first + functions_from(stmts, 0) == stmt_views(statements@) + functions_from(
                stmts,
                it.index() as int,
            ),
    {
        let ghost i = it.index() as int;
        assert(stmts[i] == stmt_view(module.statements@[i]));
        let ghost before = stmt_views(statements@);
        if matches!(stmt, Stmt::Function { .. }) {
            statements.push(stmt);
            assert(stmt_views(statements@) =~= before.push(stmts[i]));
            assert(before + (seq![stmts[i]] + functions_from(stmts, i + 1)) =~= before.push(
                stmts[i],
            ) + functions_from(stmts, i + 1));
        }
    }
    assert(stmt_views(statements@) + Seq::<StmtView>::empty() =~= stmt_views(statements@));
}

/// Puts the functions of modules before the code of the entry program.
pub fn link_modules(entry: ProgramAst, modules: Vec<ProgramAst>) -> (program: ProgramAst)
    ensures
        program@ == linked(entry@, program_views(modules@)),
{
    let mut statements: Vec<Stmt> = Vec::new();
    let ghost views = program_views(modules@);
    proof {
        assert(stmt_views(statements@) =~= Seq::empty());
        assert(stmt_views(statements@) + module_functions(views, 0) =~= module_functions(views, 0));
    }
    for module in it: modules.into_iter()
        invariant
            it.seq() == modules@,
            views == program_views(modules@),
            module_functions(views, 0) == stmt_views(statements@) + module_functions(
                views,
                it.index() as int,
            ),
    {
        let ghost i = it.index() as int;
        assert(views[i] == modules@[i]@);
        let ghost before = stmt_views(statements@);
        append_functions(&mut statements, module);
        assert(before + (functions_from(views[i], 0) + module_functions(views, i + 1)) =~= (before
            + functions_from(views[i], 0)) + module_functions(views, i + 1));
    }
    assert(stmt_views(statements@) + Seq::<StmtView>::empty() =~= stmt_views(statements@));
    append_code(&mut statements, entry);
    ProgramAst { statements }
}

/// Whether a module marks anything for export.
fn has_exports(module: &ProgramAst) -> (found: bool)
    ensures
        found == exports_from(module@, 0),
{
    let ghost stmts = module@;
    let mut i: usize = 0;
    while i < module.statements.len()
        invariant
            i <= module.statements@.len(),
            stmts == module@,
            exports_from(stmts, 0) == exports_from(stmts, i as int),
        decreases module.statements.len() - i,
    {
        assert(stmts[i as int] == stmt_view(module.statements@[i as int]));
        let exported = match &module.statements[i] {
            Stmt::Let { exported, .. } => *exported,
            Stmt::Function { exported, .. } => *exported,
            _ => false,
        };
        if exported {
            return true;
        }
        i = i + 1;
    }
    false
}

/// The names of the modules that mark something for export.
pub fn exporting_modules(modules: &Vec<ImportedModuleAst>) -> (names: Vec<String>)
    ensures
        string_views(names@) == exporting_from(module_views(modules@), 0),
{
    let mut names: Vec<String> = Vec::new();
    let ghost views = module_views(modules@);
    assert(string_views(names@) + exporting_from(views, 0) =~= exporting_from(views, 0));
    let mut i: usize = 0;
    while i < modules.len()
        invariant
            i <= modules@.len(),
            views == module_views(modules@),
            exporting_from(views, 0) == string_views(names@) + exporting_from(views, i as int),
        decreases modules.len() - i,
    {
        assert(views[i as int] == modules@[i as int]@);
        if has_exports(&modules[i].ast) {
            let ghost before = string_views(names@);
            let ghost name = views[i as int].name;
            names.push(modules[i].name.clone());
            assert(string_views(names@) =~= before.push(name));
            assert(before + (seq![name] + exporting_from(views, i + 1)) =~= before.push(name)
                + exporting_from(views, i + 1));
        }
        i = i + 1;
    }
    assert(string_views(names@) + Seq::<Seq<char>>::empty() =~= string_views(names@));
    names
}

/// The name of an export of a module.
fn qualified_name(module: &str, name: &str) -> (s: String)
    ensures
        s@ == qualified(module@, name@),
{
    let mut s = String::from_str(module);
    s.append(".");
    s.append(name);
    s
}

/// Appends the members of a module and the names that it exposes.
fn append_members(
    statements: &mut Vec<Stmt>,
    aliases: &mut Vec<(String, String)>,
    module: ImportedModuleAst,
)
    ensures
        stmt_views(final(statements)@) == stmt_views(old(statements)@) + members_from(module@, 0),
        alias_views(final(aliases)@) == alias_views(old(aliases)@) + exposed_from(module@, 0),
{
    let all = !has_exports(&module.ast);
    let ghost view = module@;
    let ghost stmts = view.ast;
    let ghost first = stmt_views(statements@);
    let ghost known = alias_views(aliases@);
    let name = module.name;
    for stmt in it: module.ast.statements.into_iter()
        invariant
            it.seq() == module.ast.statements@,
            stmts == stmt_views(module.ast.statements@),
            view.ast == stmts,
            view.name == name@,
            all == !exports_from(stmts, 0),
            first + members_from(view, 0) == stmt_views(statements@) + members_from(
                view,
                it.index() as int,
            ),
            known + exposed_from(view, 0) == alias_views(aliases@) + exposed_from(
                view,
                it.index() as int,
            ),
    {
        let ghost i = it.index() as int;
        assert(stmts[i] == stmt_view(module.ast.statements@[i]));
        let ghost before = stmt_views(statements@);
        let ghost named = alias_views(aliases@);
        let ghost members = members_from(view, i + 1);
        let ghost exposed = exposed_from(view, i + 1);
        match stmt {
            Stmt::Function { name: function, params, body, exported, span } => {
                if exported || all {
                    let alias = (qualified_name(name.as_str(), function.as_str()), function.clone());
                    let ghost pair = (alias.0@, alias.1@);
                    aliases.push(alias);
                    assert(alias_views(aliases@) =~= named.push(pair));
                    assert(named + (seq![pair] + exposed) =~= named.push(pair) + exposed);
                }
                statements.push(Stmt::Function { name: function, params, body, exported, span });
                assert(stmt_views(statements@) =~= before.push(stmts[i]));
                assert(before + (seq![stmts[i]] + members) =~= before.push(stmts[i]) + members);
            },
            Stmt::Let { name: binding, initializer, exported, span } => {
                if exported {
                    let stmt = Stmt::Let {
                        name: qualified_name(name.as_str(), binding.as_str()),
                        initializer,
                        exported,
                        span,
                    };
                    let ghost added = stmt@;
                    statements.push(stmt);
                    assert(stmt_views(statements@) =~= before.push(added));
                    assert(before + (seq![added] + members) =~= before.push(added) + members);
                }
            },
            _ => {},
        }
    }
    assert(stmt_views(statements@) + Seq::<StmtView>::empty() =~= stmt_views(statements@));
    assert(alias_views(aliases@) + Seq::<(Seq<char>, Seq<char>)>::empty() =~= alias_views(
        aliases@,
    ));
}

/// Puts the members of named modules before the code of the entry program, and collects the
/// qualified names of the functions that they expose.
pub fn link_named_modules(entry: ProgramAst, modules: Vec<ImportedModuleAst>) -> (result: (
    ProgramAst,
    Vec<(String, String)>,
))
    ensures
        result.0@ == linked_named(entry@, module_views(modules@)),
        alias_views(result.1@) == all_exposed(module_views(modules@), 0),
{
    let mut statements: Vec<Stmt> = Vec::new();
    let mut aliases: Vec<(String, String)> = Vec::new();
    let ghost views = module_views(modules@);
    proof {
        assert(stmt_views(statements@) =~= Seq::empty());
        assert(alias_views(aliases@) =~= Seq::empty());
        assert(stmt_views(statements@) + all_members(views, 0) =~= all_members(views, 0));
        assert(alias_views(aliases@) + all_exposed(views, 0) =~= all_exposed(views, 0));
    }
    for module in it: modules.into_iter()
        invariant
            it.seq() == modules@,
            views == module_views(modules@),
            all_members(views, 0) == stmt_views(statements@) + all_members(
                views,
                it.index() as int,
            ),
            all_exposed(views, 0) == alias_views(aliases@) + all_exposed(
                views,
                it.index() as int,
            ),
    {
        let ghost i = it.index() as int;
        assert(views[i] == modules@[i]@);
        let ghost before = stmt_views(statements@);
        let ghost named = alias_views(aliases@);
        append_members(&mut statements, &mut aliases, module);
        assert(before + (members_from(views[i], 0) + all_members(views, i + 1)) =~= (before
            + members_from(views[i], 0)) + all_members(views, i + 1));
        assert(named + (exposed_from(views[i], 0) + all_exposed(views, i + 1)) =~= (named
            + exposed_from(views[i], 0)) + all_exposed(views, i + 1));
    }
    assert(stmt_views(statements@) + Seq::<StmtView>::empty() =~= stmt_views(statements@));
    assert(alias_views(aliases@) + Seq::<(Seq<char>, Seq<char>)>::empty() =~= alias_views(
        aliases@,
    ));
    append_code(&mut statements, entry);
    (ProgramAst { statements }, aliases)
}

} // verus!
