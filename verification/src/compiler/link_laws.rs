//! What a linked program is made of.

use vstd::prelude::*;

use crate::compiler::ast::StmtView;
use crate::compiler::link::{
    all_exposed, all_members, code_from, exporting_from, exports_from, exposed_from,
    functions_from, linked, linked_named, members_from, module_functions, qualified, ImportedModuleView,
};

verus! {

/// Whether a statement carries the mark of an export.
pub open spec fn marked(stmt: StmtView) -> bool {
    ||| stmt matches StmtView::Let { exported, .. } && exported
    ||| stmt matches StmtView::Function { exported, .. } && exported
}

/// Whether some statement of a module carries the mark of an export.
pub open spec fn marks_exports(stmts: Seq<StmtView>) -> bool {
    exists|i: int| 0 <= i < stmts.len() && marked(#[trigger] stmts[i])
}

/// A name of a module's own under the module's name.
pub open spec fn under(module: Seq<char>, name: Seq<char>) -> Seq<char> {
    module.push('.') + name
}

/// What becomes of a statement of a module in a linked program: a function stays as it is, an
/// exported binding is bound under the module's name, and everything else is left out.
pub open spec fn member(module: Seq<char>) -> spec_fn(StmtView) -> Option<StmtView> {
    |stmt: StmtView|
        match stmt {
            StmtView::Function { .. } => Some(stmt),
            StmtView::Let { name, initializer, exported, span } => if exported {
                Some(StmtView::Let { name: under(module, name), initializer, exported, span })
            } else {
                None
            },
            _ => None,
        }
}

/// The name under which a function of a module can be called from outside: every function, or
/// only the marked ones where the module marks any.
pub open spec fn exposed(module: ImportedModuleView) -> spec_fn(StmtView) -> Option<
    (Seq<char>, Seq<char>),
> {
    |stmt: StmtView|
        match stmt {
            StmtView::Function { name, exported, .. } => if exported || !marks_exports(module.ast) {
                Some((under(module.name, name), name))
            } else {
                None
            },
            _ => None,
        }
}

/// A function of a module.
pub open spec fn function() -> spec_fn(StmtView) -> Option<StmtView> {
    |stmt: StmtView|
        if stmt is Function {
            Some(stmt)
        } else {
            None
        }
}

/// A statement of the entry program that is no import.
pub open spec fn code() -> spec_fn(StmtView) -> Option<StmtView> {
    |stmt: StmtView|
        if stmt is Import {
            None
        } else {
            Some(stmt)
        }
}

pub(crate) proof fn lemma_front<A, B>(first: A, rest: Seq<A>, f: spec_fn(A) -> Option<B>)
    ensures
        (seq![first] + rest).filter_map(f) == match f(first) {
            Some(b) => seq![b] + rest.filter_map(f),
            None => rest.filter_map(f),
        },
    decreases rest.len(),
{
    let all = seq![first] + rest;
    reveal_with_fuel(Seq::filter_map, 2);
    if rest.len() == 0 {
        assert(all.drop_last() =~= Seq::empty());
        assert(all.last() == first);
        assert(rest.filter_map(f) =~= Seq::empty());
        if let Some(b) = f(first) {
            assert(Seq::<B>::empty() + seq![b] =~= seq![b] + Seq::<B>::empty());
        }
    } else {
        lemma_front(first, rest.drop_last(), f);
        assert(all.drop_last() =~= seq![first] + rest.drop_last());
        assert(all.last() == rest.last());
        match (f(first), f(rest.last())) {
            (Some(b), Some(c)) => {
                assert((seq![b] + rest.drop_last().filter_map(f)) + seq![c] =~= seq![b] + (
                rest.drop_last().filter_map(f) + seq![c]));
            },
            _ => {},
        }
    }
}

pub(crate) proof fn lemma_skip<A>(s: Seq<A>, i: int)
    requires
        0 <= i < s.len(),
    ensures
        s.skip(i) == seq![s[i]] + s.skip(i + 1),
{
    assert(s.skip(i) =~= seq![s[i]] + s.skip(i + 1));
}

proof fn lemma_functions(stmts: Seq<StmtView>, i: int)
    requires
        0 <= i <= stmts.len(),
    ensures
        functions_from(stmts, i) == stmts.skip(i).filter_map(function()),
    decreases stmts.len() - i,
{
    if i < stmts.len() {
        lemma_skip(stmts, i);
        lemma_front(stmts[i], stmts.skip(i + 1), function());
        lemma_functions(stmts, i + 1);
    } else {
        assert(stmts.skip(i) =~= Seq::empty());
    }
}

proof fn lemma_code(stmts: Seq<StmtView>, i: int)
    requires
        0 <= i <= stmts.len(),
    ensures
        code_from(stmts, i) == stmts.skip(i).filter_map(code()),
    decreases stmts.len() - i,
{
    if i < stmts.len() {
        lemma_skip(stmts, i);
        lemma_front(stmts[i], stmts.skip(i + 1), code());
        lemma_code(stmts, i + 1);
    } else {
        assert(stmts.skip(i) =~= Seq::empty());
    }
}

proof fn lemma_marks(stmts: Seq<StmtView>, i: int)
    requires
        0 <= i <= stmts.len(),
    ensures
        exports_from(stmts, i) <==> exists|k: int| i <= k < stmts.len() && marked(#[trigger] stmts[k]),
    decreases stmts.len() - i,
{
    if i < stmts.len() {
        lemma_marks(stmts, i + 1);
        if exports_from(stmts, i) && !marked(stmts[i]) {
            let k = choose|k: int| i + 1 <= k < stmts.len() && marked(#[trigger] stmts[k]);
            assert(marked(stmts[k]));
        }
    }
}

proof fn lemma_under(module: Seq<char>, name: Seq<char>)
    ensures
        qualified(module, name) == under(module, name),
{
    reveal_strlit(".");
    assert(qualified(module, name) =~= under(module, name));
}

proof fn lemma_members(module: ImportedModuleView, i: int)
    requires
        0 <= i <= module.ast.len(),
    ensures
        members_from(module, i) == module.ast.skip(i).filter_map(member(module.name)),
    decreases module.ast.len() - i,
{
    if i < module.ast.len() {
        lemma_skip(module.ast, i);
        lemma_front(module.ast[i], module.ast.skip(i + 1), member(module.name));
        lemma_members(module, i + 1);
        if let StmtView::Let { name, .. } = module.ast[i] {
            lemma_under(module.name, name);
        }
    } else {
        assert(module.ast.skip(i) =~= Seq::empty());
    }
}

proof fn lemma_exposed(module: ImportedModuleView, i: int)
    requires
        0 <= i <= module.ast.len(),
    ensures
        exposed_from(module, i) == module.ast.skip(i).filter_map(exposed(module)),
    decreases module.ast.len() - i,
{
    lemma_marks(module.ast, 0);
    if i < module.ast.len() {
        lemma_skip(module.ast, i);
        lemma_front(module.ast[i], module.ast.skip(i + 1), exposed(module));
        lemma_exposed(module, i + 1);
        if let StmtView::Function { name, .. } = module.ast[i] {
            lemma_under(module.name, name);
        }
    } else {
        assert(module.ast.skip(i) =~= Seq::empty());
    }
}

proof fn lemma_module_functions(modules: Seq<Seq<StmtView>>, i: int)
    requires
        0 <= i <= modules.len(),
    ensures
        module_functions(modules, i) == modules.skip(i).map_values(
            |stmts: Seq<StmtView>| stmts.filter_map(function()),
        ).flatten(),
    decreases modules.len() - i,
{
    let f = |stmts: Seq<StmtView>| stmts.filter_map(function());
    let rest = modules.skip(i).map_values(f);
    if i < modules.len() {
        lemma_functions(modules[i], 0);
        assert(modules[i].skip(0) =~= modules[i]);
        lemma_module_functions(modules, i + 1);
        assert(rest.first() == f(modules[i]));
        assert(rest.drop_first() =~= modules.skip(i + 1).map_values(f));
    }
}

proof fn lemma_all_members(modules: Seq<ImportedModuleView>, i: int)
    requires
        0 <= i <= modules.len(),
    ensures
        all_members(modules, i) == modules.skip(i).map_values(
            |module: ImportedModuleView| module.ast.filter_map(member(module.name)),
        ).flatten(),
    decreases modules.len() - i,
{
    let f = |module: ImportedModuleView| module.ast.filter_map(member(module.name));
    let rest = modules.skip(i).map_values(f);
    if i < modules.len() {
        lemma_members(modules[i], 0);
        assert(modules[i].ast.skip(0) =~= modules[i].ast);
        lemma_all_members(modules, i + 1);
        assert(rest.first() == f(modules[i]));
        assert(rest.drop_first() =~= modules.skip(i + 1).map_values(f));
    }
}

proof fn lemma_all_exposed(modules: Seq<ImportedModuleView>, i: int)
    requires
        0 <= i <= modules.len(),
    ensures
        all_exposed(modules, i) == modules.skip(i).map_values(
            |module: ImportedModuleView| module.ast.filter_map(exposed(module)),
        ).flatten(),
    decreases modules.len() - i,
{
    let f = |module: ImportedModuleView| module.ast.filter_map(exposed(module));
    let rest = modules.skip(i).map_values(f);
    if i < modules.len() {
        lemma_exposed(modules[i], 0);
        assert(modules[i].ast.skip(0) =~= modules[i].ast);
        lemma_all_exposed(modules, i + 1);
        assert(rest.first() == f(modules[i]));
        assert(rest.drop_first() =~= modules.skip(i + 1).map_values(f));
    }
}

proof fn lemma_exporting(modules: Seq<ImportedModuleView>, i: int)
    requires
        0 <= i <= modules.len(),
    ensures
        exporting_from(modules, i) == modules.skip(i).filter_map(exporter()),
    decreases modules.len() - i,
{
    if i < modules.len() {
        lemma_skip(modules, i);
        lemma_front(modules[i], modules.skip(i + 1), exporter());
        lemma_exporting(modules, i + 1);
        lemma_marks(modules[i].ast, 0);
    } else {
        assert(modules.skip(i) =~= Seq::empty());
    }
}

/// The name of a module that marks what it exports.
pub open spec fn exporter() -> spec_fn(ImportedModuleView) -> Option<Seq<char>> {
    |module: ImportedModuleView|
        if marks_exports(module.ast) {
            Some(module.name)
        } else {
            None
        }
}

/// A program linked with modules is the functions of the modules, in order, and then the entry
/// program without its imports.
pub proof fn linked_programs_hold_all_functions(
    entry: Seq<StmtView>,
    modules: Seq<Seq<StmtView>>,
)
    ensures
        linked(entry, modules) == modules.map_values(
            |stmts: Seq<StmtView>| stmts.filter_map(function()),
        ).flatten() + entry.filter_map(code()),
{
    lemma_module_functions(modules, 0);
    lemma_code(entry, 0);
    assert(modules.skip(0) =~= modules);
    assert(entry.skip(0) =~= entry);
}

/// A program linked with named modules is the functions and exported bindings of the modules, in
/// order, and then the entry program without its imports. An exported binding is bound under the
/// name of its module. A function can be called under the name of its module if it is marked for
/// export, or if its module marks nothing.
pub proof fn linked_programs_hold_all_members(
    entry: Seq<StmtView>,
    modules: Seq<ImportedModuleView>,
)
    ensures
        linked_named(entry, modules) == modules.map_values(
            |module: ImportedModuleView| module.ast.filter_map(member(module.name)),
        ).flatten() + entry.filter_map(code()),
        all_exposed(modules, 0) == modules.map_values(
            |module: ImportedModuleView| module.ast.filter_map(exposed(module)),
        ).flatten(),
        exporting_from(modules, 0) == modules.filter_map(exporter()),
{
    lemma_all_members(modules, 0);
    lemma_all_exposed(modules, 0);
    lemma_exporting(modules, 0);
    lemma_code(entry, 0);
    assert(modules.skip(0) =~= modules);
    assert(entry.skip(0) =~= entry);
}

} // verus!
