//! Compiler pipeline: parse source, compile a single program, or compile an entry file with
//! imported modules, each into a verified bytecode program.

use vstd::prelude::*;
use vstd::string::StringSliceAdditionalSpecFns;
use vstd::utf8::encode_utf8;

use crate::bytecode::chunk::string_views;
use crate::bytecode::format::{BYTECODE_MAGIC, CURRENT_BYTECODE_VERSION, NO_FEATURE_FLAGS};
use crate::bytecode::instruction::FunctionId;
use crate::bytecode::program::{
    function_views, Function, FunctionKindView, FunctionView, Program, ProgramBuildError,
    ProgramView,
};
use crate::bytecode::verification::{rejected_with, valid_program, VerifiedProgram};
use crate::compiler::ast::{stmt_view, ProgramAst, Stmt, StmtView};
use crate::compiler::captures::{captured_in_stmts, captured_names, stmts_call, stmts_reference_call};
use crate::compiler::emitter::{
    begin, bytecode_function, done, failed, finished, gen_stmts, unplaced, Codegen, Emitted,
    FunctionIds, MAX_FUNCTIONS,
};
use crate::compiler::error::{
    CompileError, CompileErrorKind, CompileErrorKindView, CompileErrorView,
};
use crate::compiler::lexer::{lex, token_views, tokens_end_with_one_eof, tokens_from};
use crate::compiler::link::{
    all_exposed, exporting_from, exporting_modules, link_modules, link_named_modules, linked,
    linked_named, module_views, program_views, ImportedModuleAst,
};
use crate::compiler::parser::{failure, parse, parsed};
use crate::compiler::sema::{
    alias_views, analyze, analyze_with_exports, program_error, with_aliases,
};
use crate::diagnostics::span::FileId;
use crate::names::NameMap;

verus! {

// ---------------------------------------------------------------------------
// The code of a program
// ---------------------------------------------------------------------------

/// The natives that a program calls, in a fixed order.
pub open spec fn referenced(stmts: Seq<StmtView>) -> Seq<Seq<char>> {
    let print = if stmts_call(stmts, 0, "print"@) {
        seq!["print"@]
    } else {
        Seq::empty()
    };
    let len = if stmts_call(stmts, 0, "len"@) {
        seq!["len"@]
    } else {
        Seq::empty()
    };
    let type_of = if stmts_call(stmts, 0, "type_of"@) {
        seq!["type_of"@]
    } else {
        Seq::empty()
    };
    print + len + type_of
}

/// The number of function declarations among the statements from `i` on.
pub open spec fn function_count(stmts: Seq<StmtView>, i: int) -> nat
    decreases stmts.len() - i,
{
    if 0 <= i < stmts.len() {
        function_count(stmts, i + 1) + if stmts[i] is Function {
            1nat
        } else {
            0nat
        }
    } else {
        0
    }
}

pub open spec fn too_many_functions() -> CompileErrorKindView {
    CompileErrorKindView::TooManyFunctions { max: MAX_FUNCTIONS as nat }
}

/// The function ids with those of the declarations from `i` on, numbered from `next` on.
pub open spec fn declared_ids(stmts: Seq<StmtView>, i: int, next: nat, ids: FunctionIds) -> Result<
    FunctionIds,
    CompileErrorView,
>
    decreases stmts.len() - i,
{
    if 0 <= i < stmts.len() {
        match stmts[i] {
            StmtView::Function { name, span, .. } => if next > MAX_FUNCTIONS {
                Err(failure(too_many_functions(), span))
            } else {
                declared_ids(stmts, i + 1, next + 1, ids.insert(name, FunctionId(next as u16)))
            },
            _ => declared_ids(stmts, i + 1, next, ids),
        }
    } else {
        Ok(ids)
    }
}

/// The function ids with those of the natives from `i` on, numbered from `next` on.
pub open spec fn native_ids(names: Seq<Seq<char>>, i: int, next: nat, ids: FunctionIds) -> Result<
    FunctionIds,
    CompileErrorView,
>
    decreases names.len() - i,
{
    if 0 <= i < names.len() {
        if next > MAX_FUNCTIONS {
            Err(unplaced(too_many_functions()))
        } else {
            native_ids(names, i + 1, next + 1, ids.insert(names[i], FunctionId(next as u16)))
        }
    } else {
        Ok(ids)
    }
}

/// The function ids of a program by name: declarations, natives, aliases.
pub open spec fn all_ids(stmts: Seq<StmtView>, aliases: Seq<(Seq<char>, Seq<char>)>) -> Result<
    FunctionIds,
    CompileErrorView,
> {
    match declared_ids(stmts, 0, 0, Map::empty()) {
        Ok(ids) => match native_ids(referenced(stmts), 0, function_count(stmts, 0), ids) {
            Ok(ids) => Ok(with_aliases(aliases, 0, ids)),
            Err(error) => Err(error),
        },
        Err(error) => Err(error),
    }
}

pub open spec fn native_function(name: Seq<char>, arity: u8) -> FunctionView {
    FunctionView {
        name,
        arity,
        register_count: arity,
        capture_count: 0,
        kind: FunctionKindView::Native(name),
    }
}

/// A function table with a place for each declaration, and the natives behind them.
pub open spec fn table_outline(stmts: Seq<StmtView>) -> Seq<FunctionView> {
    Seq::new(function_count(stmts, 0), |i: int| native_function("__pending"@, 0)) + Seq::new(
        referenced(stmts).len(),
        |i: int| native_function(referenced(stmts)[i], 1),
    )
}

/// A function table with more functions behind it.
pub open spec fn appended(table: Seq<FunctionView>, functions: Seq<FunctionView>) -> Result<
    Seq<FunctionView>,
    CompileErrorView,
> {
    if functions.len() > 0 && table.len() + functions.len() > 65536 {
        Err(unplaced(CompileErrorKindView::TooManyFunctions { max: 65536 }))
    } else {
        Ok(table + functions)
    }
}

/// The code of a function body.
pub open spec fn body_code(
    name: Seq<char>,
    params: Seq<Seq<char>>,
    body: Seq<StmtView>,
    next_function_id: nat,
    ids: FunctionIds,
) -> Emitted {
    match begin(
        name,
        params,
        Seq::empty(),
        captured_in_stmts(body, 0, ids, Set::empty()),
        next_function_id,
    ) {
        Ok(g) => gen_stmts(body, 0, g, ids),
        Err(error) => Err(error),
    }
}

/// The function table after a declared function has been put in its place.
pub open spec fn with_function(
    table: Seq<FunctionView>,
    index: nat,
    code: Emitted,
) -> Result<Seq<FunctionView>, CompileErrorView> {
    match code {
        Ok(g) => match finished(g) {
            Ok(chunk) => appended(
                table.update(index as int, bytecode_function(chunk)),
                g.generated,
            ),
            Err(error) => Err(error),
        },
        Err(error) => Err(error),
    }
}

/// The function table after the declarations from `i` on, the first of which is number `index`.
pub open spec fn with_functions(
    stmts: Seq<StmtView>,
    i: int,
    index: nat,
    ids: FunctionIds,
    table: Seq<FunctionView>,
) -> Result<Seq<FunctionView>, CompileErrorView>
    decreases stmts.len() - i,
{
    if 0 <= i < stmts.len() {
        match stmts[i] {
            StmtView::Function { name, params, body, span, .. } => if table.len() > MAX_FUNCTIONS {
                Err(failure(too_many_functions(), span))
            } else {
                match with_function(table, index, body_code(name, params, body, table.len(), ids)) {
                    Ok(table) => with_functions(stmts, i + 1, index + 1, ids, table),
                    Err(error) => Err(error),
                }
            },
            _ => with_functions(stmts, i + 1, index, ids, table),
        }
    } else {
        Ok(table)
    }
}

/// The program with the main function behind the others.
pub open spec fn with_main(stmts: Seq<StmtView>, ids: FunctionIds, table: Seq<FunctionView>) -> Result<
    ProgramView,
    CompileErrorView,
> {
    if table.len() > MAX_FUNCTIONS {
        Err(unplaced(too_many_functions()))
    } else {
        match body_code("main"@, Seq::empty(), stmts, table.len(), ids) {
            Ok(g) => match appended(table, g.generated) {
                Ok(table) => match finished(g) {
                    Ok(chunk) => if table.len() > u16::MAX {
                        Err(unplaced(CompileErrorKindView::TooManyFunctions { max: 65536 }))
                    } else {
                        Ok(
                            ProgramView {
                                magic: BYTECODE_MAGIC@,
                                version: CURRENT_BYTECODE_VERSION,
                                feature_flags: NO_FEATURE_FLAGS,
                                functions: table.push(bytecode_function(chunk)),
                                entry: FunctionId(table.len() as u16),
                            },
                        )
                    },
                    Err(error) => Err(error),
                },
                Err(error) => Err(error),
            },
            Err(error) => Err(error),
        }
    }
}

/// The bytecode program of a source program whose names have been checked.
pub open spec fn program_code(
    stmts: Seq<StmtView>,
    aliases: Seq<(Seq<char>, Seq<char>)>,
) -> Result<ProgramView, CompileErrorView> {
    match all_ids(stmts, aliases) {
        Ok(ids) => if function_count(stmts, 0) + referenced(stmts).len() > MAX_FUNCTIONS {
            Err(unplaced(too_many_functions()))
        } else {
            match with_functions(stmts, 0, 0, ids, table_outline(stmts)) {
                Ok(table) => with_main(stmts, ids, table),
                Err(error) => Err(error),
            }
        },
        Err(error) => Err(error),
    }
}

/// The bytecode program of a source program, or the first error, where the given modules mark what
/// they export.
pub open spec fn compiled_code(
    stmts: Seq<StmtView>,
    aliases: Seq<(Seq<char>, Seq<char>)>,
    exporting: Seq<Seq<char>>,
) -> Result<ProgramView, CompileErrorView> {
    match program_error(stmts, aliases, exporting) {
        Some(error) => Err(error),
        None => program_code(stmts, aliases),
    }
}

/// A compilation ends with the verified program of some code, with the error in place of the
/// code, or with the error of its verification.
pub open spec fn compiles_to(
    result: Result<VerifiedProgram, CompileError>,
    code: Result<ProgramView, CompileErrorView>,
) -> bool {
    match code {
        Ok(program) => match result {
            Ok(verified) => valid_program(program) && verified@ == program,
            Err(error) => {
                &&& !valid_program(program)
                &&& error.span is None
                &&& error.kind matches CompileErrorKind::BytecodeVerification(e) && rejected_with(
                    program,
                    e,
                )
            },
        },
        Err(expected) => result matches Err(error) && error@ == expected,
    }
}

/// The syntax tree of a source text, or the first error.
pub open spec fn source_tree(source: Seq<char>, file_id: FileId) -> Result<
    Seq<StmtView>,
    CompileErrorView,
> {
    match tokens_from(source, 0, file_id) {
        Ok(tokens) => parsed(tokens),
        Err(error) => Err(error),
    }
}

/// The bytecode program of a source text, or the first error.
pub open spec fn source_code(source: Seq<char>, file_id: FileId) -> Result<
    ProgramView,
    CompileErrorView,
> {
    match source_tree(source, file_id) {
        Ok(stmts) => compiled_code(stmts, Seq::empty(), Seq::empty()),
        Err(error) => Err(error),
    }
}

// ---------------------------------------------------------------------------
// The pipeline
// ---------------------------------------------------------------------------

/// Parses, analyzes, compiles, and verifies a source string using file id `0`.
pub fn compile_source(source: &str) -> (result: Result<VerifiedProgram, CompileError>)
    ensures
        compiles_to(result, source_code(source@, FileId(0))),
{
    compile_source_with_file_id(source, FileId(0))
}

/// Parses, analyzes, compiles, and verifies a source string with a source file id.
pub fn compile_source_with_file_id(source: &str, file_id: FileId) -> (result: Result<
    VerifiedProgram,
    CompileError,
>)
    ensures
        compiles_to(result, source_code(source@, file_id)),
{
    let program = parse_source_with_file_id(source, file_id)?;
    compile_program_ast(program)
}

/// Lexes and parses a source string into a syntax tree with stable source spans.
pub fn parse_source_with_file_id(source: &str, file_id: FileId) -> (result: Result<
    ProgramAst,
    CompileError,
>)
    ensures
        match result {
            Ok(program) => done(source_tree(source@, file_id), program@),
            Err(error) => failed(source_tree(source@, file_id), error@),
        },
{
    let bytes = source.as_bytes();
    assert(bytes.len() == bytes@.len());
    let tokens = lex(source, file_id)?;
    proof {
        tokens_end_with_one_eof(source@, file_id);
        let views = token_views(tokens@);
        assert(views[views.len() - 1].kind is Eof);
    }
    parse(tokens)
}

/// Analyzes, compiles, and verifies one program without external modules.
pub fn compile_program_ast(program_ast: ProgramAst) -> (result: Result<
    VerifiedProgram,
    CompileError,
>)
    ensures
        compiles_to(result, compiled_code(program_ast@, Seq::empty(), Seq::empty())),
{
    analyze(&program_ast)?;
    let aliases: Vec<(String, String)> = Vec::new();
    assert(alias_views(aliases@) =~= Seq::empty());
    compile_program(&program_ast, &aliases)
}

/// Compiles an entry program with anonymous modules linked before code generation.
pub fn compile_program_ast_with_modules(entry: ProgramAst, modules: Vec<ProgramAst>) -> (result:
    Result<VerifiedProgram, CompileError>)
    ensures
        compiles_to(
            result,
            compiled_code(
                linked(entry@, program_views(modules@)),
                Seq::empty(),
                Seq::empty(),
            ),
        ),
{
    compile_program_ast(link_modules(entry, modules))
}

/// Compiles an entry program with modules exposed through namespace aliases.
pub fn compile_program_ast_with_named_modules(
    entry: ProgramAst,
    modules: Vec<ImportedModuleAst>,
) -> (result: Result<VerifiedProgram, CompileError>)
    ensures
        compiles_to(
            result,
            compiled_code(
                linked_named(entry@, module_views(modules@)),
                all_exposed(module_views(modules@), 0),
                exporting_from(module_views(modules@), 0),
            ),
        ),
{
    let exporting = exporting_modules(&modules);
    let (program, aliases) = link_named_modules(entry, modules);
    analyze_with_exports(&program, &aliases, &exporting)?;
    compile_program(&program, &aliases)
}

/// Generates and verifies the bytecode of a program whose names have been checked.
fn compile_program(program_ast: &ProgramAst, aliases: &Vec<(String, String)>) -> (result: Result<
    VerifiedProgram,
    CompileError,
>)
    ensures
        compiles_to(result, program_code(program_ast@, alias_views(aliases@))),
{
    let natives = referenced_builtins(program_ast);
    let ids = function_ids(program_ast, &natives, aliases)?;
    let count: usize = count_functions(program_ast);
    if count > MAX_FUNCTIONS || count + natives.len() > MAX_FUNCTIONS {
        return Err(
            CompileError::new(CompileErrorKind::TooManyFunctions { max: MAX_FUNCTIONS }, None),
        );
    }
    let main_id = FunctionId((count + natives.len()) as u16);
    let mut program = outline(program_ast, count, &natives, main_id);
    compile_functions(program_ast, &ids, &mut program)?;
    compile_main(program_ast, &ids, &mut program)?;
    match VerifiedProgram::new(program) {
        Ok(verified) => Ok(verified),
        Err(error) => Err(CompileError::new(CompileErrorKind::BytecodeVerification(error), None)),
    }
}

/// The natives that a program calls.
fn referenced_builtins(program_ast: &ProgramAst) -> (names: Vec<&'static str>)
    ensures
        str_views(names@) == referenced(program_ast@),
{
    let mut names: Vec<&'static str> = Vec::new();
    if stmts_reference_call(&program_ast.statements, "print") {
        names.push("print");
    }
    if stmts_reference_call(&program_ast.statements, "len") {
        names.push("len");
    }
    if stmts_reference_call(&program_ast.statements, "type_of") {
        names.push("type_of");
    }
    assert(str_views(names@) =~= referenced(program_ast@));
    names
}

/// The texts of a list of string slices.
pub open spec fn str_views(names: Seq<&'static str>) -> Seq<Seq<char>> {
    Seq::new(names.len(), |i: int| names[i]@)
}

/// The number of function declarations of a program.
fn count_functions(program_ast: &ProgramAst) -> (count: usize)
    ensures
        count == function_count(program_ast@, 0),
{
    let ghost stmts = program_ast@;
    let mut count: usize = 0;
    let mut i: usize = 0;
    while i < program_ast.statements.len()
        invariant
            i <= program_ast.statements@.len(),
            stmts == program_ast@,
            count <= i,
            function_count(stmts, 0) == count + function_count(stmts, i as int),
        decreases program_ast.statements.len() - i,
    {
        assert(stmts[i as int] == stmt_view(program_ast.statements@[i as int]));
        if matches!(program_ast.statements[i], Stmt::Function { .. }) {
            count = count + 1;
        }
        i = i + 1;
    }
    count
}

/// The function ids of a program by name.
fn function_ids(
    program_ast: &ProgramAst,
    natives: &Vec<&'static str>,
    aliases: &Vec<(String, String)>,
) -> (result: Result<NameMap<FunctionId>, CompileError>)
    requires
        str_views(natives@) == referenced(program_ast@),
    ensures
        match result {
            Ok(ids) => done(all_ids(program_ast@, alias_views(aliases@)), ids@),
            Err(error) => failed(all_ids(program_ast@, alias_views(aliases@)), error@),
        },
{
    let mut ids: NameMap<FunctionId> = NameMap::new();
    let ghost stmts = program_ast@;
    let mut next: usize = 0;
    let mut i: usize = 0;
    while i < program_ast.statements.len()
        invariant
            i <= program_ast.statements@.len(),
            stmts == program_ast@,
            next <= i,
            function_count(stmts, 0) == next + function_count(stmts, i as int),
            declared_ids(stmts, 0, 0, Map::empty()) == declared_ids(
                stmts,
                i as int,
                next as nat,
                ids@,
            ),
        decreases program_ast.statements.len() - i,
    {
        assert(stmts[i as int] == stmt_view(program_ast.statements@[i as int]));
        if let Stmt::Function { name, span, .. } = &program_ast.statements[i] {
            if next > MAX_FUNCTIONS {
                return Err(
                    CompileError::new(
                        CompileErrorKind::TooManyFunctions { max: MAX_FUNCTIONS },
                        Some(*span),
                    ),
                );
            }
            ids.insert(name.as_str(), FunctionId(next as u16));
            next = next + 1;
        }
        i = i + 1;
    }
    let ghost count = next as nat;
    let ghost declared = ids@;
    let ghost names = str_views(natives@);
    let mut k: usize = 0;
    while k < natives.len()
        invariant
            k <= natives@.len(),
            names == str_views(natives@),
            next == count + k,
            next <= MAX_FUNCTIONS + 1 || k == 0,
            native_ids(names, 0, count, declared) == native_ids(
                names,
                k as int,
                next as nat,
                ids@,
            ),
            names == referenced(program_ast@),
            count == function_count(program_ast@, 0),
            done(declared_ids(program_ast@, 0, 0, Map::empty()), declared),
        decreases natives.len() - k,
    {
        assert(names[k as int] == natives@[k as int]@);
        if next > MAX_FUNCTIONS {
            return Err(
                CompileError::new(CompileErrorKind::TooManyFunctions { max: MAX_FUNCTIONS }, None),
            );
        }
        ids.insert(natives[k], FunctionId(next as u16));
        next = next + 1;
        k = k + 1;
    }
    let ghost own = ids@;
    let ghost pairs = alias_views(aliases@);
    let mut j: usize = 0;
    while j < aliases.len()
        invariant
            j <= aliases@.len(),
            pairs == alias_views(aliases@),
            with_aliases(pairs, 0, own) == with_aliases(pairs, j as int, ids@),
        decreases aliases.len() - j,
    {
        let alias = &aliases[j];
        assert(pairs[j as int] == (alias.0@, alias.1@));
        if let Some(id) = ids.get(alias.1.as_str()) {
            if !ids.contains(alias.0.as_str()) {
                ids.insert(alias.0.as_str(), id);
            }
        }
        j = j + 1;
    }
    Ok(ids)
}

/// A program with a place for each declared function, and the natives behind them.
fn outline(
    program_ast: &ProgramAst,
    count: usize,
    natives: &Vec<&'static str>,
    main_id: FunctionId,
) -> (program: Program)
    requires
        count == function_count(program_ast@, 0),
        str_views(natives@) == referenced(program_ast@),
        count + natives@.len() <= MAX_FUNCTIONS,
    ensures
        program.format.is_current(),
        function_views(program.functions@) == table_outline(program_ast@),
{
    let mut program = Program::new(main_id);
    let mut i: usize = 0;
    while i < count
        invariant
            i <= count,
            program.format.is_current(),
            program.functions@.len() == i,
            forall|k: int|
                0 <= k < i ==> #[trigger] program.functions@[k]@ == native_function("__pending"@, 0),
        decreases count - i,
    {
        program.functions.push(Function::native("__pending", 0));
        i = i + 1;
    }
    let ghost names = str_views(natives@);
    let mut j: usize = 0;
    while j < natives.len()
        invariant
            j <= natives@.len(),
            names == str_views(natives@),
            program.format.is_current(),
            program.functions@.len() == count + j,
            forall|k: int|
                0 <= k < count ==> #[trigger] program.functions@[k]@ == native_function(
                    "__pending"@,
                    0,
                ),
            forall|k: int|
                count <= k < count + j ==> #[trigger] program.functions@[k]@ == native_function(
                    names[k - count],
                    1,
                ),
        decreases natives.len() - j,
    {
        assert(names[j as int] == natives@[j as int]@);
        program.functions.push(Function::native(natives[j], 1));
        j = j + 1;
    }
    assert(function_views(program.functions@) =~= table_outline(program_ast@));
    program
}

fn map_program_error(error: ProgramBuildError) -> (mapped: CompileError)
    ensures
        mapped@ == unplaced(
            CompileErrorKindView::TooManyFunctions {
                max: match error {
                    ProgramBuildError::TooManyFunctions { max } => max as nat,
                },
            },
        ),
{
    match error {
        ProgramBuildError::TooManyFunctions { max } => {
            CompileError::new(CompileErrorKind::TooManyFunctions { max }, None)
        },
    }
}

/// Puts functions behind a function table.
fn append_generated_functions(program: &mut Program, functions: Vec<Function>) -> (result: Result<
    (),
    CompileError,
>)
    requires
        old(program).functions@.len() <= 65536,
    ensures
        final(program).format == old(program).format,
        match result {
            Ok(_) => done(
                appended(
                    function_views(old(program).functions@),
                    function_views(functions@),
                ),
                function_views(final(program).functions@),
            ) && final(program).functions@.len() <= 65536,
            Err(error) => failed(
                appended(
                    function_views(old(program).functions@),
                    function_views(functions@),
                ),
                error@,
            ),
        },
{
    let ghost before = program.functions@;
    for function in it: functions.into_iter()
        invariant
            it.seq() == functions@,
            program.format == old(program).format,
            before == old(program).functions@,
            program.functions@ == before + functions@.take(it.index() as int),
            program.functions@.len() <= 65536,
    {
        match program.add_function(function) {
            Ok(_) => {},
            Err(error) => {
                return Err(map_program_error(error));
            },
        }
        assert(program.functions@ =~= before + functions@.take(it.index() + 1));
    }
    assert(functions@.take(functions@.len() as int) =~= functions@);
    assert(function_views(program.functions@) =~= function_views(before) + function_views(
        functions@,
    ));
    Ok(())
}

/// Generates the declared functions.
fn compile_functions(
    program_ast: &ProgramAst,
    ids: &NameMap<FunctionId>,
    program: &mut Program,
) -> (result: Result<(), CompileError>)
    requires
        old(program).functions@.len() <= 65536,
        old(program).functions@.len() >= function_count(program_ast@, 0),
    ensures
        final(program).format == old(program).format,
        match result {
            Ok(_) => done(
                with_functions(
                    program_ast@,
                    0,
                    0,
                    ids@,
                    function_views(old(program).functions@),
                ),
                function_views(final(program).functions@),
            ) && final(program).functions@.len() <= 65536,
            Err(error) => failed(
                with_functions(
                    program_ast@,
                    0,
                    0,
                    ids@,
                    function_views(old(program).functions@),
                ),
                error@,
            ),
        },
{
    let ghost stmts = program_ast@;
    let captures: Vec<String> = Vec::new();
    assert(string_views(captures@) =~= Seq::empty());
    let mut index: usize = 0;
    let mut i: usize = 0;
    while i < program_ast.statements.len()
        invariant
            i <= program_ast.statements@.len(),
            stmts == program_ast@,
            index <= i,
            string_views(captures@) == Seq::<Seq<char>>::empty(),
            program.format == old(program).format,
            program.functions@.len() <= 65536,
            program.functions@.len() >= index + function_count(stmts, i as int),
            with_functions(stmts, 0, 0, ids@, function_views(old(program).functions@))
                == with_functions(
                stmts,
                i as int,
                index as nat,
                ids@,
                function_views(program.functions@),
            ),
        decreases program_ast.statements.len() - i,
    {
        assert(stmts[i as int] == stmt_view(program_ast.statements@[i as int]));
        if let Stmt::Function { name, params, body, span, .. } = &program_ast.statements[i] {
            let next: usize = program.functions.len();
            if next > MAX_FUNCTIONS {
                return Err(
                    CompileError::new(
                        CompileErrorKind::TooManyFunctions { max: MAX_FUNCTIONS },
                        Some(*span),
                    ),
                );
            }
            let ghost table = function_views(program.functions@);
            let boxed = captured_names(body, ids);
            let mut codegen = Codegen::new(name.as_str(), params, &captures, boxed, next as u16)?;
            codegen.compile_stmts(body, ids)?;
            let generated = codegen.take_generated();
            let function = codegen.finish()?;
            program.functions[index] = function;
            assert(function_views(program.functions@) =~= table.update(index as int, function@));
            append_generated_functions(program, generated)?;
            index = index + 1;
        }
        i = i + 1;
    }
    Ok(())
}

/// Generates the main function and makes it the entry.
fn compile_main(
    program_ast: &ProgramAst,
    ids: &NameMap<FunctionId>,
    program: &mut Program,
) -> (result: Result<(), CompileError>)
    requires
        old(program).functions@.len() <= 65536,
        old(program).format.is_current(),
    ensures
        match result {
            Ok(_) => done(
                with_main(program_ast@, ids@, function_views(old(program).functions@)),
                final(program)@,
            ),
            Err(error) => failed(
                with_main(program_ast@, ids@, function_views(old(program).functions@)),
                error@,
            ),
        },
{
    let next: usize = program.functions.len();
    if next > MAX_FUNCTIONS {
        return Err(
            CompileError::new(CompileErrorKind::TooManyFunctions { max: MAX_FUNCTIONS }, None),
        );
    }
    let none: Vec<String> = Vec::new();
    assert(string_views(none@) =~= Seq::empty());
    let boxed = captured_names(&program_ast.statements, ids);
    let mut codegen = Codegen::new("main", &none, &none, boxed, next as u16)?;
    codegen.compile_stmts(&program_ast.statements, ids)?;
    let generated = codegen.take_generated();
    append_generated_functions(program, generated)?;
    let function = codegen.finish()?;
    match program.add_function(function) {
        Ok(main_id) => {
            program.entry = main_id;
            Ok(())
        },
        Err(error) => Err(map_program_error(error)),
    }
}

} // verus!
