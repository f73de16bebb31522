//! Loading of a program with the modules that it imports.
//!
//! A host reads the files and finds the paths of imports. `ModuleLoader::next_step` says what it
//! has to do next. Modules are loaded once each, before the files that import them.

use vstd::prelude::*;
use vstd::string::StringExecFns;
use vstd::utf8::encode_utf8;

use crate::bytecode::chunk::{clone_strings, string_views};
use crate::cli::command::{LoadError, LoadErrorView};
use crate::cli::words::{pieces, split, to_text};
use crate::compiler::ast::{stmt_view, ProgramAst, Stmt, StmtView};
use crate::compiler::codegen::{parse_source_with_file_id, source_tree};
use crate::compiler::error::compile_error_text;
use crate::compiler::link::{module_views, ImportedModuleAst, ImportedModuleView};
use crate::diagnostics::error::{diagnostic_text, DiagnosticView};
use crate::diagnostics::source::{FileView, SourceManager};
use crate::diagnostics::span::FileId;
use crate::text::{characters, str_equal};

verus! {

/// The names of the files and directories that a module stands in: dots separate them.
pub fn module_segments(module: &str) -> (segments: Vec<String>)
    ensures
        string_views(segments@) == pieces(module@, '.'),
{
    let chars = characters(module);
    split(chars.as_slice(), '.')
}

/// Names with slashes between them.
pub open spec fn joined(names: Seq<Seq<char>>) -> Seq<char>
    decreases names.len(),
{
    if names.len() == 0 {
        Seq::empty()
    } else if names.len() == 1 {
        names[0]
    } else {
        joined(names.drop_last()) + "/"@ + names.last()
    }
}

/// The file of a module, below the directory that it is looked for in.
pub open spec fn module_file_text(module: Seq<char>) -> Seq<char> {
    joined(pieces(module, '.')) + ".fx"@
}

/// The part of a path up to its last slash.
pub open spec fn directory_part(path: Seq<char>) -> Seq<char>
    decreases path.len(),
{
    if path.len() == 0 || path.last() == '/' {
        path
    } else {
        directory_part(path.drop_last())
    }
}

/// The file of a module, below the directory that it is looked for in.
pub fn module_file(module: &str) -> (path: String)
    ensures
        path@ == module_file_text(module@),
{
    let segments = module_segments(module);
    let ghost names = string_views(segments@);
    let mut path = String::new();
    let mut i: usize = 0;
    assert(names.take(0) =~= Seq::empty());
    while i < segments.len()
        invariant
            i <= segments@.len(),
            names == string_views(segments@),
            path@ == joined(names.take(i as int)),
        decreases segments.len() - i,
    {
        if i > 0 {
            path.append("/");
        }
        path.append(segments[i].as_str());
        proof {
            let next = names.take(i + 1);
            assert(next.drop_last() =~= names.take(i as int));
            assert(next.last() == segments@[i as int]@);
            assert(path@ =~= joined(next));
        }
        i = i + 1;
    }
    assert(names.take(i as int) =~= names);
    path.append(".fx");
    path
}

/// The file that a file imports a module from, outside of packages: the importing file's
/// directory, the names in the module's name with slashes between them, and the extension.
pub fn import_path(importer: &str, module: &str) -> (path: String)
    ensures
        path@ == directory_part(importer@) + module_file_text(module@),
{
    let chars = characters(importer);
    let mut end: usize = chars.len();
    assert(chars@.take(end as int) =~= chars@);
    while end > 0 && chars[end - 1] != '/'
        invariant
            end <= chars@.len(),
            directory_part(chars@) == directory_part(chars@.take(end as int)),
        decreases end,
    {
        assert(chars@.take(end as int).drop_last() =~= chars@.take(end - 1));
        end = end - 1;
    }
    let mut path = to_text(vstd::slice::slice_subrange(chars.as_slice(), 0, end));
    assert(path@ =~= chars@.take(end as int));
    path.append(module_file(module).as_str());
    path
}

/// Whether a file name is one of the names of package manifests.
pub fn is_manifest_name(name: &str) -> (found: bool)
    ensures
        found == (name@ == "Ferrix.toml"@ || name@ == "ferrix.toml"@),
{
    str_equal(name, "Ferrix.toml") || str_equal(name, "ferrix.toml")
}

/// The first of the files that exists, from `i` on.
pub open spec fn first_existing(exists_at: Seq<bool>, i: int) -> int
    decreases exists_at.len() - i,
{
    if 0 <= i < exists_at.len() && !exists_at[i] {
        first_existing(exists_at, i + 1)
    } else {
        i
    }
}

/// The file of a package import: the first of the searched files that exists. An importer
/// outside of the package finds none.
pub open spec fn package_import(
    importer: Seq<char>,
    package: Seq<char>,
    module: Seq<char>,
    inside: bool,
    searched: Seq<Seq<char>>,
    exists_at: Seq<bool>,
) -> Result<Seq<char>, LoadErrorView> {
    let at = first_existing(exists_at, 0);
    if !inside {
        Err(LoadErrorView::PackageImport { importer, package, module, searched: Seq::empty() })
    } else if at < searched.len() {
        Ok(searched[at])
    } else {
        Err(LoadErrorView::PackageImport { importer, package, module, searched })
    }
}

/// Picks the file of a package import. `inside` says whether the importer lies under the root of
/// the package, and `exists_at` which of the searched files exist.
pub fn pick_package_import(
    importer: &str,
    package: &str,
    module: &str,
    inside: bool,
    searched: &Vec<String>,
    exists_at: &Vec<bool>,
) -> (result: Result<String, LoadError>)
    requires
        searched@.len() == exists_at@.len(),
    ensures
        match result {
            Ok(path) => package_import(
                importer@,
                package@,
                module@,
                inside,
                string_views(searched@),
                exists_at@,
            ) == Ok::<Seq<char>, LoadErrorView>(path@),
            Err(error) => package_import(
                importer@,
                package@,
                module@,
                inside,
                string_views(searched@),
                exists_at@,
            ) == Err::<Seq<char>, LoadErrorView>(error@),
        },
{
    let importer = String::from_str(importer);
    let package = String::from_str(package);
    let module = String::from_str(module);
    if !inside {
        let none: Vec<String> = Vec::new();
        assert(string_views(none@) =~= Seq::empty());
        return Err(LoadError::PackageImport { importer, package, module, searched: none });
    }
    let mut i: usize = 0;
    assert(string_views(searched@).len() == searched@.len());
    while i < searched.len()
        invariant
            inside,
            i <= searched@.len(),
            searched@.len() == exists_at@.len(),
            string_views(searched@).len() == searched@.len(),
            first_existing(exists_at@, 0) == first_existing(exists_at@, i as int),
        decreases searched.len() - i,
    {
        if exists_at[i] {
            assert(string_views(searched@)[i as int] == searched@[i as int]@);
            return Ok(searched[i].clone());
        }
        i = i + 1;
    }
    Err(LoadError::PackageImport { importer, package, module, searched: clone_strings(searched) })
}

/// A file that is being loaded.
#[derive(Debug)]
pub struct PendingModule {
    /// The name that the file is imported by; empty for the entry.
    pub module: String,
    pub path: String,
    /// What tells files apart.
    pub key: String,
    /// The syntax tree, once the file has been read.
    pub ast: Option<ProgramAst>,
    /// The modules that the file imports.
    pub imports: Vec<String>,
    /// The number of imports that have been dealt with.
    pub next: usize,
}

/// The mathematical content of a file that is being loaded.
pub struct PendingView {
    pub module: Seq<char>,
    pub path: Seq<char>,
    pub key: Seq<char>,
    pub ast: Option<Seq<StmtView>>,
    pub imports: Seq<Seq<char>>,
    pub next: nat,
}

impl View for PendingModule {
    type V = PendingView;

    open spec fn view(&self) -> PendingView {
        PendingView {
            module: self.module@,
            path: self.path@,
            key: self.key@,
            ast: match self.ast {
                Some(ast) => Some(ast@),
                None => None,
            },
            imports: string_views(self.imports@),
            next: self.next as nat,
        }
    }
}

/// The contents of a list of files.
pub open spec fn pending_views(pending: Seq<PendingModule>) -> Seq<PendingView> {
    Seq::new(pending.len(), |i: int| pending[i]@)
}

/// Loads a program with the modules that it imports.
#[derive(Debug)]
pub struct ModuleLoader {
    /// The keys of the files that have been loaded.
    pub loaded: Vec<String>,
    /// The files that are being loaded, each imported by the one before it.
    pub stack: Vec<PendingModule>,
    /// The modules that have been loaded.
    pub modules: Vec<ImportedModuleAst>,
}

/// The mathematical content of a loader.
pub struct LoaderView {
    pub loaded: Seq<Seq<char>>,
    pub stack: Seq<PendingView>,
    pub modules: Seq<ImportedModuleView>,
}

impl View for ModuleLoader {
    type V = LoaderView;

    open spec fn view(&self) -> LoaderView {
        LoaderView {
            loaded: string_views(self.loaded@),
            stack: pending_views(self.stack@),
            modules: module_views(self.modules@),
        }
    }
}

/// What a host has to do next.
#[derive(Debug)]
pub enum LoadStep {
    /// Read a file, and answer with `source_read` or `read_failed`.
    Read { path: String },
    /// Find the path of an import, and answer with `resolved`.
    Resolve { importer: String, module: String },
    /// Everything is loaded.
    Done { entry: ProgramAst },
}

/// The mathematical content of a step.
pub enum StepView {
    Read { path: Seq<char> },
    Resolve { importer: Seq<char>, module: Seq<char> },
    Done { entry: Seq<StmtView> },
}

impl View for LoadStep {
    type V = StepView;

    open spec fn view(&self) -> StepView {
        match self {
            LoadStep::Read { path } => StepView::Read { path: path@ },
            LoadStep::Resolve { importer, module } => StepView::Resolve {
                importer: importer@,
                module: module@,
            },
            LoadStep::Done { entry } => StepView::Done { entry: entry@ },
        }
    }
}

/// The modules that the top-level statements from `i` on import.
pub open spec fn imports_from(stmts: Seq<StmtView>, i: int) -> Seq<Seq<char>>
    decreases stmts.len() - i,
{
    if 0 <= i < stmts.len() {
        match stmts[i] {
            StmtView::Import { module, .. } => seq![module] + imports_from(stmts, i + 1),
            _ => imports_from(stmts, i + 1),
        }
    } else {
        Seq::empty()
    }
}

/// A file that has not been read.
pub open spec fn unread(module: Seq<char>, path: Seq<char>, key: Seq<char>) -> PendingView {
    PendingView { module, path, key, ast: None, imports: Seq::empty(), next: 0 }
}

/// The state after all finished files have been taken off the stack, and what comes next.
pub open spec fn settled(v: LoaderView) -> (LoaderView, StepView)
    decreases v.stack.len(),
{
    if v.stack.len() == 0 {
        (v, StepView::Done { entry: Seq::empty() })
    } else {
        let top = v.stack.last();
        match top.ast {
            None => (v, StepView::Read { path: top.path }),
            Some(ast) => if top.next < top.imports.len() {
                (
                    v,
                    StepView::Resolve {
                        importer: top.path,
                        module: top.imports[top.next as int],
                    },
                )
            } else {
                let rest = LoaderView {
                    loaded: v.loaded.push(top.key),
                    stack: v.stack.drop_last(),
                    modules: v.modules,
                };
                if v.stack.len() == 1 {
                    (rest, StepView::Done { entry: ast })
                } else {
                    settled(
                        LoaderView {
                            modules: v.modules.push(ImportedModuleView { name: top.module, ast }),
                            ..rest
                        },
                    )
                }
            },
        }
    }
}

/// Whether a file is on the stack.
pub open spec fn visiting(stack: Seq<PendingView>, key: Seq<char>) -> bool {
    exists|i: int| 0 <= i < stack.len() && (#[trigger] stack[i]).key == key
}

/// The stack after the innermost file has dealt with one more import.
pub open spec fn import_done(stack: Seq<PendingView>) -> Seq<PendingView> {
    stack.update(
        stack.len() - 1,
        PendingView { next: stack.last().next + 1, ..stack.last() },
    )
}

/// The state after the next import has been found at a path: a loaded file is not loaded again,
/// a file on the stack is a cycle, and any other file is loaded.
pub open spec fn after_resolved(v: LoaderView, path: Seq<char>, key: Seq<char>) -> Result<
    LoaderView,
    LoadErrorView,
> {
    let top = v.stack.last();
    let stack = import_done(v.stack);
    if v.loaded.contains(key) {
        Ok(LoaderView { stack, ..v })
    } else if visiting(v.stack, key) {
        Err(LoadErrorView::ImportCycle { path })
    } else {
        Ok(
            LoaderView {
                stack: stack.push(unread(top.imports[top.next as int], path, key)),
                ..v
            },
        )
    }
}

/// The error of a file that cannot be read.
pub open spec fn read_error(stack: Seq<PendingView>, error: Seq<char>) -> LoadErrorView {
    let top = stack.last();
    if stack.len() == 1 {
        LoadErrorView::Read { path: top.path, error }
    } else {
        LoadErrorView::ReadImport {
            importer: stack[stack.len() - 2].path,
            module: top.module,
            path: top.path,
            error,
        }
    }
}

/// The state after the innermost file has been read, or the error in it.
pub open spec fn after_read(v: LoaderView, source: Seq<char>, files: Seq<FileView>) -> Result<
    LoaderView,
    LoadErrorView,
> {
    let top = v.stack.last();
    match source_tree(source, FileId((files.len() - 1) as u32)) {
        Ok(ast) => Ok(
            LoaderView {
                stack: v.stack.update(
                    v.stack.len() - 1,
                    PendingView { ast: Some(ast), imports: imports_from(ast, 0), next: 0, ..top },
                ),
                ..v
            },
        ),
        Err(error) => Err(
            LoadErrorView::Compile {
                diagnostic: diagnostic_text(
                    DiagnosticView {
                        message: compile_error_text(error.kind),
                        span: error.span,
                        notes: Seq::empty(),
                    },
                    files,
                ),
            },
        ),
    }
}

impl ModuleLoader {
    /// Begins to load an entry file.
    pub fn new(path: &str, key: &str) -> (loader: Self)
        ensures
            loader@ == (LoaderView {
                loaded: Seq::empty(),
                stack: seq![unread(Seq::empty(), path@, key@)],
                modules: Seq::empty(),
            }),
            loads_once(loader@),
    {
        let mut stack: Vec<PendingModule> = Vec::new();
        stack.push(pending_module(String::new(), path, key));
        let loader = ModuleLoader { loaded: Vec::new(), stack, modules: Vec::new() };
        assert(loader@.loaded =~= Seq::empty());
        assert(loader@.stack =~= seq![unread(Seq::empty(), path@, key@)]);
        assert(loader@.modules =~= Seq::empty());
        loader
    }

    /// Says what has to be done next.
    pub fn next_step(&mut self) -> (step: LoadStep)
        requires
            old(self)@.stack.len() > 0,
        ensures
            settled(old(self)@) == (final(self)@, step@),
    {
        let ghost start = self@;
        loop
            invariant
                self@.stack.len() > 0,
                settled(start) == settled(self@),
                start == old(self)@,
            decreases self@.stack.len(),
        {
            let n: usize = self.stack.len();
            assert(self@.stack.last() == self.stack@[n - 1]@);
            if self.stack[n - 1].ast.is_none() {
                return LoadStep::Read { path: self.stack[n - 1].path.clone() };
            }
            let next: usize = self.stack[n - 1].next;
            assert(self@.stack.last().imports.len() == self.stack@[n - 1].imports@.len());
            if next < self.stack[n - 1].imports.len() {
                return LoadStep::Resolve {
                    importer: self.stack[n - 1].path.clone(),
                    module: self.stack[n - 1].imports[next].clone(),
                };
            }
            let ghost before = self@;
            let ghost top = self@.stack.last();
            if let Some(finished) = self.stack.pop() {
                let PendingModule { module, key, ast, .. } = finished;
                self.loaded.push(key);
                assert(self@.stack =~= before.stack.drop_last());
                assert(self@.loaded =~= before.loaded.push(top.key));
                if let Some(ast) = ast {
                    if n == 1 {
                        return LoadStep::Done { entry: ast };
                    }
                    let imported = ImportedModuleAst { name: module, ast };
                    let ghost view = imported@;
                    self.modules.push(imported);
                    assert(self@.modules =~= before.modules.push(view));
                }
            }
        }
    }

    /// Takes the path of the import that `next_step` asked for.
    pub fn resolved(&mut self, path: &str, key: &str) -> (result: Result<(), LoadError>)
        requires
            old(self)@.stack.len() > 0,
            old(self)@.stack.last().next < old(self)@.stack.last().imports.len(),
        ensures
            match result {
                Ok(_) => after_resolved(old(self)@, path@, key@) == Ok::<LoaderView, LoadErrorView>(
                    final(self)@,
                ),
                Err(error) => after_resolved(old(self)@, path@, key@) == Err::<
                    LoaderView,
                    LoadErrorView,
                >(error@),
            },
    {
        let n: usize = self.stack.len();
        let ghost before = self@;
        assert(before.stack.last() == self.stack@[n - 1]@);
        if !self.is_loaded(key) && self.is_visiting(key) {
            return Err(LoadError::ImportCycle { path: String::from_str(path) });
        }
        let known = self.is_loaded(key);
        if let Some(top) = self.stack.pop() {
            let mut top = top;
            assert(top.imports.len() == top.imports@.len());
            let module = top.imports[top.next].clone();
            top.next = top.next + 1;
            self.stack.push(top);
            assert(self@.stack =~= import_done(before.stack));
            if !known {
                let pending = pending_module(module, path, key);
                let ghost view = pending@;
                self.stack.push(pending);
                assert(self@.stack =~= import_done(before.stack).push(view));
            }
        }
        Ok(())
    }

    /// Whether a file has been loaded.
    fn is_loaded(&self, key: &str) -> (found: bool)
        ensures
            found == self@.loaded.contains(key@),
    {
        let mut i: usize = 0;
        while i < self.loaded.len()
            invariant
                i <= self.loaded@.len(),
                forall|k: int| 0 <= k < i ==> #[trigger] self@.loaded[k] != key@,
            decreases self.loaded.len() - i,
        {
            assert(self@.loaded[i as int] == self.loaded@[i as int]@);
            if str_equal(self.loaded[i].as_str(), key) {
                assert(self@.loaded.contains(key@));
                return true;
            }
            i = i + 1;
        }
        false
    }

    /// Whether a file is being loaded.
    fn is_visiting(&self, key: &str) -> (found: bool)
        ensures
            found == visiting(self@.stack, key@),
    {
        let mut i: usize = 0;
        while i < self.stack.len()
            invariant
                i <= self.stack@.len(),
                forall|k: int| 0 <= k < i ==> (#[trigger] self@.stack[k]).key != key@,
            decreases self.stack.len() - i,
        {
            assert(self@.stack[i as int] == self.stack@[i as int]@);
            if str_equal(self.stack[i].key.as_str(), key) {
                return true;
            }
            i = i + 1;
        }
        false
    }

    /// The error of the file that `next_step` asked for and that cannot be read.
    pub fn read_failed(&self, error: &str) -> (failure: LoadError)
        requires
            self@.stack.len() > 0,
        ensures
            failure@ == read_error(self@.stack, error@),
    {
        let n: usize = self.stack.len();
        let top = &self.stack[n - 1];
        assert(self@.stack.last() == top@);
        if n == 1 {
            LoadError::Read { path: top.path.clone(), error: String::from_str(error) }
        } else {
            assert(self@.stack[n - 2] == self.stack@[n - 2]@);
            LoadError::ReadImport {
                importer: self.stack[n - 2].path.clone(),
                module: top.module.clone(),
                path: top.path.clone(),
                error: String::from_str(error),
            }
        }
    }

    /// Takes the content of the file that `next_step` asked for.
    pub fn source_read(&mut self, source: &str, sources: &mut SourceManager) -> (result: Result<
        (),
        LoadError,
    >)
        requires
            old(self)@.stack.len() > 0,
            encode_utf8(source@).len() < usize::MAX,
            old(sources)@.len() < u32::MAX,
        ensures
            final(sources)@ == old(sources)@.push(
                FileView { name: old(self)@.stack.last().path, source: source@ },
            ),
            match result {
                Ok(_) => after_read(old(self)@, source@, final(sources)@) == Ok::<
                    LoaderView,
                    LoadErrorView,
                >(final(self)@),
                Err(error) => after_read(old(self)@, source@, final(sources)@) == Err::<
                    LoaderView,
                    LoadErrorView,
                >(error@),
            },
    {
        let n: usize = self.stack.len();
        let ghost before = self@;
        assert(before.stack.last() == self.stack@[n - 1]@);
        let file_id = sources.add_file(self.stack[n - 1].path.as_str(), source);
        match parse_source_with_file_id(source, file_id) {
            Ok(ast) => {
                let imports = module_imports(&ast);
                if let Some(top) = self.stack.pop() {
                    let mut top = top;
                    top.imports = imports;
                    top.ast = Some(ast);
                    top.next = 0;
                    let ghost view = top@;
                    self.stack.push(top);
                    assert(self@.stack =~= before.stack.update(before.stack.len() - 1, view));
                }
                Ok(())
            },
            Err(error) => {
                let diagnostic = error.to_diagnostic();
                Err(LoadError::Compile { diagnostic: sources.render_diagnostic(&diagnostic) })
            },
        }
    }
}

/// A file that has not been read.
fn pending_module(module: String, path: &str, key: &str) -> (pending: PendingModule)
    ensures
        pending@ == unread(module@, path@, key@),
{
    let pending = PendingModule {
        module,
        path: String::from_str(path),
        key: String::from_str(key),
        ast: None,
        imports: Vec::new(),
        next: 0,
    };
    assert(pending@.imports =~= Seq::empty());
    pending
}

/// The modules that a program imports.
pub fn module_imports(ast: &ProgramAst) -> (imports: Vec<String>)
    ensures
        string_views(imports@) == imports_from(ast@, 0),
{
    let ghost stmts = ast@;
    let mut imports: Vec<String> = Vec::new();
    let mut i: usize = 0;
    assert(string_views(imports@) + imports_from(stmts, 0) =~= imports_from(stmts, 0));
    while i < ast.statements.len()
        invariant
            i <= ast.statements@.len(),
            stmts == ast@,
            imports_from(stmts, 0) == string_views(imports@) + imports_from(stmts, i as int),
        decreases ast.statements.len() - i,
    {
        assert(stmts[i as int] == stmt_view(ast.statements@[i as int]));
        if let Stmt::Import { module, .. } = &ast.statements[i] {
            let ghost before = string_views(imports@);
            let ghost rest = imports_from(stmts, i + 1);
            imports.push(module.clone());
            assert(string_views(imports@) =~= before.push(module@));
            assert(before + (seq![module@] + rest) =~= before.push(module@) + rest);
        }
        i = i + 1;
    }
    assert(string_views(imports@) + Seq::<Seq<char>>::empty() =~= string_views(imports@));
    imports
}

// ---------------------------------------------------------------------------
// What loading guarantees
// ---------------------------------------------------------------------------

/// No file stands twice among the loaded files and the files on the stack.
pub open spec fn loads_once(v: LoaderView) -> bool {
    &&& v.loaded.no_duplicates()
    &&& forall|i: int, j: int|
        0 <= i < j < v.stack.len() ==> (#[trigger] v.stack[i]).key != (#[trigger] v.stack[j]).key
    &&& forall|i: int| 0 <= i < v.stack.len() ==> !v.loaded.contains((#[trigger] v.stack[i]).key)
}

/// Finding an import keeps every file loaded at most once.
pub proof fn resolving_loads_once(v: LoaderView, path: Seq<char>, key: Seq<char>)
    requires
        loads_once(v),
        v.stack.len() > 0,
        after_resolved(v, path, key) is Ok,
    ensures
        loads_once(after_resolved(v, path, key)->Ok_0),
{
    let after = after_resolved(v, path, key)->Ok_0;
    let done = import_done(v.stack);
    assert forall|i: int| 0 <= i < v.stack.len() implies (#[trigger] done[i]).key
        == v.stack[i].key by {}
    if !v.loaded.contains(key) {
        assert forall|i: int, j: int| 0 <= i < j < after.stack.len() implies (
        #[trigger] after.stack[i]).key != (#[trigger] after.stack[j]).key by {
            assert(after.stack[i].key == v.stack[i].key);
            if j < v.stack.len() {
                assert(after.stack[j].key == v.stack[j].key);
            }
        }
        assert forall|i: int| 0 <= i < after.stack.len() implies !after.loaded.contains(
            (#[trigger] after.stack[i]).key,
        ) by {
            if i < v.stack.len() {
                assert(after.stack[i].key == v.stack[i].key);
            }
        }
    } else {
        assert forall|i: int, j: int| 0 <= i < j < after.stack.len() implies (
        #[trigger] after.stack[i]).key != (#[trigger] after.stack[j]).key by {
            assert(after.stack[i].key == v.stack[i].key);
            assert(after.stack[j].key == v.stack[j].key);
        }
        assert forall|i: int| 0 <= i < after.stack.len() implies !after.loaded.contains(
            (#[trigger] after.stack[i]).key,
        ) by {
            assert(after.stack[i].key == v.stack[i].key);
        }
    }
}

/// Reading a file keeps every file loaded at most once.
pub proof fn reading_loads_once(v: LoaderView, source: Seq<char>, files: Seq<FileView>)
    requires
        loads_once(v),
        v.stack.len() > 0,
        after_read(v, source, files) is Ok,
    ensures
        loads_once(after_read(v, source, files)->Ok_0),
{
    let after = after_read(v, source, files)->Ok_0;
    assert forall|i: int| 0 <= i < v.stack.len() implies (#[trigger] after.stack[i]).key
        == v.stack[i].key by {}
}

/// Taking finished files off the stack keeps every file loaded at most once, and a loaded
/// file stays loaded.
pub proof fn settling_loads_once(v: LoaderView)
    requires
        loads_once(v),
    ensures
        loads_once(settled(v).0),
        forall|key: Seq<char>| v.loaded.contains(key) ==> #[trigger] settled(v).0.loaded.contains(key),
    decreases v.stack.len(),
{
    if v.stack.len() > 0 {
        let top = v.stack.last();
        if top.ast is Some && top.next >= top.imports.len() {
            let loaded = v.loaded.push(top.key);
            let stack = v.stack.drop_last();
            assert forall|i: int| 0 <= i < stack.len() implies !loaded.contains(
                (#[trigger] stack[i]).key,
            ) by {
                assert(v.stack[i].key != v.stack[v.stack.len() - 1].key);
                if loaded.contains(stack[i].key) {
                    let k = choose|k: int| 0 <= k < loaded.len() && loaded[k] == stack[i].key;
                    assert(v.loaded[k] == stack[i].key);
                    assert(v.loaded.contains(v.stack[i].key));
                }
            }
            assert(loaded.no_duplicates()) by {
                assert(!v.loaded.contains(v.stack[v.stack.len() - 1].key));
            }
            assert forall|key: Seq<char>| v.loaded.contains(key) implies #[trigger] loaded.contains(
                key,
            ) by {
                let k = choose|k: int| 0 <= k < v.loaded.len() && v.loaded[k] == key;
                assert(loaded[k] == key);
            }
            let rest = LoaderView { loaded, stack, modules: v.modules };
            if v.stack.len() > 1 {
                let next = LoaderView {
                    modules: v.modules.push(
                        ImportedModuleView { name: top.module, ast: top.ast->0 },
                    ),
                    ..rest
                };
                settling_loads_once(next);
            }
        }
    }
}

/// Each loaded file but the entry is a module of the program: none is left out, and none is there
/// twice.
pub proof fn loaded_files_are_modules(v: LoaderView)
    requires
        v.stack.len() > 0,
        v.modules.len() == v.loaded.len(),
    ensures
        match settled(v).1 {
            StepView::Done { .. } => settled(v).0.modules.len() + 1 == settled(v).0.loaded.len(),
            _ => settled(v).0.modules.len() == settled(v).0.loaded.len(),
        },
    decreases v.stack.len(),
{
    let top = v.stack.last();
    if top.ast is Some && top.next >= top.imports.len() && v.stack.len() > 1 {
        loaded_files_are_modules(
            LoaderView {
                loaded: v.loaded.push(top.key),
                stack: v.stack.drop_last(),
                modules: v.modules.push(
                    ImportedModuleView { name: top.module, ast: top.ast->0 },
                ),
            },
        );
    }
}

/// A file leaves the stack only when all of its imports have been dealt with, so a module stands
/// behind the modules that it imports.
pub proof fn imports_are_dealt_with_first(v: LoaderView)
    ensures
        settled(v).0.stack.len() <= v.stack.len(),
        settled(v).0.stack == v.stack.take(settled(v).0.stack.len() as int),
        forall|i: int|
            settled(v).0.stack.len() <= i < v.stack.len() ==> (#[trigger] v.stack[i]).next
                >= v.stack[i].imports.len(),
    decreases v.stack.len(),
{
    assert(v.stack.take(v.stack.len() as int) =~= v.stack);
    if v.stack.len() > 0 {
        let top = v.stack.last();
        if top.ast is Some && top.next >= top.imports.len() {
            let rest = LoaderView {
                loaded: v.loaded.push(top.key),
                stack: v.stack.drop_last(),
                modules: v.modules.push(
                    ImportedModuleView { name: top.module, ast: top.ast->0 },
                ),
            };
            imports_are_dealt_with_first(rest);
            let end = settled(v).0.stack;
            assert(end =~= v.stack.take(end.len() as int));
            assert forall|i: int| end.len() <= i < v.stack.len() implies (
            #[trigger] v.stack[i]).next >= v.stack[i].imports.len() by {
                if i < rest.stack.len() {
                    assert(rest.stack[i] == v.stack[i]);
                }
            }
        }
    }
}

/// A file that imports itself, directly or through others, is reported as a cycle and never
/// loaded again.
pub proof fn import_cycles_are_reported(v: LoaderView, path: Seq<char>, key: Seq<char>, i: int)
    requires
        loads_once(v),
        0 <= i < v.stack.len(),
        v.stack[i].key == key,
    ensures
        after_resolved(v, path, key) == Err::<LoaderView, LoadErrorView>(
            LoadErrorView::ImportCycle { path },
        ),
{
    assert(!v.loaded.contains(v.stack[i].key));
    assert(visiting(v.stack, key));
}

} // verus!
