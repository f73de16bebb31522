//! What holds of whole programs: semantic analysis leaves only limits for code generation to
//! report, and programs that return on every path compile to programs that verification accepts.

use vstd::prelude::*;

use crate::bytecode::chunk::ChunkView;
use crate::bytecode::format::{max_instruction_count, BYTECODE_MAGIC, CURRENT_BYTECODE_VERSION};
use crate::bytecode::instruction::{
    FunctionId, InstructionView, OP_CALL_FUNCTION, OP_MAKE_CLOSURE,
};
use crate::bytecode::program::{FunctionKindView, FunctionView, ProgramView};
use crate::bytecode::verification::{
    first_function_error, first_reference_error, function_error, reference_error, valid_chunk,
    valid_program,
};
use crate::compiler::ast::StmtView;
use crate::compiler::captures::{
    always_return, captured_in_stmts, stmt_calls, stmts_call, with_names,
};
use crate::compiler::code_laws::{lemma_begin, lemma_returning, lemma_stmts};
use crate::compiler::codegen::{
    all_ids, appended, body_code, compiled_code, declared_ids, function_count, native_ids,
    program_code, referenced, table_outline, with_functions, with_main,
};
use crate::compiler::emitter::{
    begin, bytecode_function, finished, gen_stmts, Emitted, FunctionIds, Gen, MAX_FUNCTIONS,
};
use crate::compiler::error::CompileErrorView;
use crate::compiler::name_laws::{
    covers, knows_function, lemma_accepted_scope, lemma_accepted_stmts, lemma_covers_params,
    lemma_with_names, no_functions, resolved_stmts, tidy_stmts, Arities,
};
use crate::compiler::reference_laws::{
    calls_by_name, function_refers, harmless, is_jump, is_limit, lemma_fine_stmts, ready, refers,
    Context,
};
use crate::compiler::sema::{
    after_stmt, after_stmts, bodies_error, builtin_arities, main_error,
    program_error, scoped_error, with_aliases, with_declarations, with_params, Env, Scopes,
    MAX_LIST,
};

verus! {

// ---------------------------------------------------------------------------
// The functions of a program
// ---------------------------------------------------------------------------

/// The numbers of parameters with those of the declarations from `i` on.
pub open spec fn declared_arities(stmts: Seq<StmtView>, i: int, arities: Arities) -> Arities
    decreases stmts.len() - i,
{
    if 0 <= i < stmts.len() {
        match stmts[i] {
            StmtView::Function { name, params, .. } => declared_arities(
                stmts,
                i + 1,
                arities.insert(name, params.len()),
            ),
            _ => declared_arities(stmts, i + 1, arities),
        }
    } else {
        arities
    }
}

/// The numbers of parameters with those of the natives from `i` on.
pub open spec fn native_arities(names: Seq<Seq<char>>, i: int, arities: Arities) -> Arities
    decreases names.len() - i,
{
    if 0 <= i < names.len() {
        native_arities(names, i + 1, arities.insert(names[i], 1))
    } else {
        arities
    }
}

/// The numbers of parameters of the functions that a program can call: declarations, natives that
/// it calls, aliases.
pub open spec fn arities_of(
    stmts: Seq<StmtView>,
    aliases: Seq<(Seq<char>, Seq<char>)>,
) -> Arities {
    with_aliases(
        aliases,
        0,
        native_arities(referenced(stmts), 0, declared_arities(stmts, 0, Map::empty())),
    )
}

pub open spec fn is_builtin(name: Seq<char>) -> bool {
    name == "print"@ || name == "len"@ || name == "type_of"@
}

/// Aliases that do not touch the natives.
pub open spec fn plain_aliases(aliases: Seq<(Seq<char>, Seq<char>)>) -> bool {
    forall|i: int|
        0 <= i < aliases.len() ==> !is_builtin((#[trigger] aliases[i]).0) && !is_builtin(
            aliases[i].1,
        )
}

/// No variable of a program has the name of a function that the program can call. Where `strict`
/// asks for it, all function bodies return on every path.
pub open spec fn tidy_program(stmts: Seq<StmtView>, arities: Arities, strict: bool) -> bool {
    &&& tidy_stmts(stmts, 0, arities, strict)
    &&& forall|k: int| 0 <= k < stmts.len() ==> #[trigger] tidy_declaration(
        stmts[k],
        arities,
        strict,
    )
}

pub open spec fn tidy_declaration(stmt: StmtView, arities: Arities, strict: bool) -> bool {
    match stmt {
        StmtView::Function { params, body, .. } => {
            &&& no_functions(params, arities)
            &&& strict ==> always_return(body)
            &&& tidy_stmts(body, 0, arities, strict)
        },
        _ => true,
    }
}

/// A function declaration whose names resolve.
pub open spec fn resolved_declaration(stmt: StmtView, arities: Arities, strict: bool) -> bool {
    match stmt {
        StmtView::Function { params, body, .. } => {
            &&& no_functions(params, arities)
            &&& strict ==> always_return(body)
            &&& resolved_stmts(body, 0, with_names(params, 0, Set::empty()), arities, strict)
        },
        _ => true,
    }
}

// ---------------------------------------------------------------------------
// Analysis and generation know the same functions
// ---------------------------------------------------------------------------

/// What the analysis knows of functions, and what generation knows of them: the same, but for
/// natives that are not called.
pub open spec fn agree(env: Map<Seq<char>, usize>, arities: Arities) -> bool {
    &&& forall|name: Seq<char>|
        !is_builtin(name) ==> (#[trigger] env.contains_key(name) == arities.contains_key(name))
    &&& forall|name: Seq<char>| #[trigger]
        arities.contains_key(name) ==> env.contains_key(name) && env[name] == arities[name]
}

/// The natives are still there.
pub open spec fn keeps_builtins(env: Map<Seq<char>, usize>, all: Map<Seq<char>, usize>) -> bool {
    forall|name: Seq<char>| #[trigger]
        is_builtin(name) ==> all.contains_key(name) && all[name] == env[name]
}

proof fn lemma_agree_declared(stmts: Seq<StmtView>, i: int, env: Map<Seq<char>, usize>, arities: Arities)
    requires
        0 <= i <= stmts.len(),
        agree(env, arities),
        forall|name: Seq<char>| is_builtin(name) ==> #[trigger] env.contains_key(name),
        forall|k: int|
            i <= k < stmts.len() ==> (#[trigger] stmts[k] matches StmtView::Function { params, .. }
                ==> params.len() <= MAX_LIST),
    ensures
        with_declarations(stmts, i, env) matches Ok(all) ==> {
            &&& agree(all, declared_arities(stmts, i, arities))
            &&& keeps_builtins(env, all)
        },
    decreases stmts.len() - i,
{
    if i < stmts.len() {
        match stmts[i] {
            StmtView::Function { name, params, .. } => {
                if !env.contains_key(name) {
                    let more = env.insert(name, params.len() as usize);
                    assert(agree(more, arities.insert(name, params.len())));
                    lemma_agree_declared(stmts, i + 1, more, arities.insert(name, params.len()));
                    if let Ok(all) = with_declarations(stmts, i + 1, more) {
                        assert(keeps_builtins(more, all));
                        assert forall|n: Seq<char>| #[trigger] is_builtin(n) implies all.contains_key(
                            n,
                        ) && all[n] == env[n] by {
                            assert(env.contains_key(n));
                        }
                    }
                }
            },
            _ => lemma_agree_declared(stmts, i + 1, env, arities),
        }
    }
}

proof fn lemma_agree_natives(
    names: Seq<Seq<char>>,
    i: int,
    env: Map<Seq<char>, usize>,
    arities: Arities,
)
    requires
        0 <= i <= names.len(),
        agree(env, arities),
        forall|k: int|
            0 <= k < names.len() ==> is_builtin(#[trigger] names[k]) && env.contains_key(names[k])
                && env[names[k]] == 1,
    ensures
        agree(env, native_arities(names, i, arities)),
        forall|k: int|
            i <= k < names.len() ==> native_arities(names, i, arities).contains_key(
                #[trigger] names[k],
            ),
        forall|name: Seq<char>|
            arities.contains_key(name) ==> #[trigger] native_arities(
                names,
                i,
                arities,
            ).contains_key(name),
    decreases names.len() - i,
{
    if i < names.len() {
        lemma_agree_natives(names, i + 1, env, arities.insert(names[i], 1));
    }
}

proof fn lemma_agree_aliases(
    aliases: Seq<(Seq<char>, Seq<char>)>,
    i: int,
    env: Map<Seq<char>, usize>,
    arities: Arities,
)
    requires
        0 <= i <= aliases.len(),
        agree(env, arities),
        plain_aliases(aliases),
    ensures
        agree(with_aliases(aliases, i, env), with_aliases(aliases, i, arities)),
        forall|name: Seq<char>|
            arities.contains_key(name) ==> #[trigger] with_aliases(
                aliases,
                i,
                arities,
            ).contains_key(name),
    decreases aliases.len() - i,
{
    if i < aliases.len() {
        let (alias, target) = aliases[i];
        assert(!is_builtin(aliases[i].0) && !is_builtin(aliases[i].1));
        assert(env.contains_key(target) == arities.contains_key(target));
        assert(env.contains_key(alias) == arities.contains_key(alias));
        if env.contains_key(target) && !env.contains_key(alias) {
            assert(agree(
                env.insert(alias, env[target]),
                arities.insert(alias, arities[target]),
            ));
            lemma_agree_aliases(
                aliases,
                i + 1,
                env.insert(alias, env[target]),
                arities.insert(alias, arities[target]),
            );
        } else {
            lemma_agree_aliases(aliases, i + 1, env, arities);
        }
    }
}

proof fn lemma_referenced(stmts: Seq<StmtView>)
    ensures
        forall|k: int| 0 <= k < referenced(stmts).len() ==> is_builtin(#[trigger] referenced(stmts)[k]),
        forall|name: Seq<char>|
            is_builtin(name) && #[trigger] stmts_call(stmts, 0, name) ==> referenced(
                stmts,
            ).contains(name),
{
    let all = referenced(stmts);
    let print = stmts_call(stmts, 0, "print"@);
    let len = stmts_call(stmts, 0, "len"@);
    let type_of = stmts_call(stmts, 0, "type_of"@);
    assert forall|name: Seq<char>|
        is_builtin(name) && #[trigger] stmts_call(stmts, 0, name) implies all.contains(name) by {
        if name == "print"@ {
            assert(all[0] == name);
        } else if name == "len"@ {
            if print {
                assert(all[1] == name);
            } else {
                assert(all[0] == name);
            }
        } else {
            assert(all[all.len() - 1] == name);
        }
    }
}

proof fn lemma_builtins()
    ensures
        forall|name: Seq<char>| #[trigger]
            builtin_arities().contains_key(name) <==> is_builtin(name),
        forall|name: Seq<char>| is_builtin(name) ==> #[trigger] builtin_arities()[name] == 1,
{
}

/// The analysis checks the number of parameters of every declaration.
proof fn lemma_few_params(stmts: Seq<StmtView>, i: int, env: Env)
    requires
        0 <= i <= stmts.len(),
        bodies_error(stmts, i, env) is None,
    ensures
        forall|k: int|
            i <= k < stmts.len() ==> (#[trigger] stmts[k] matches StmtView::Function { params, .. }
                ==> params.len() <= MAX_LIST),
    decreases stmts.len() - i,
{
    if i < stmts.len() {
        lemma_few_params(stmts, i + 1, env);
    }
}

/// Every function that a program calls is known with its number of parameters.
proof fn lemma_called_functions(
    stmts: Seq<StmtView>,
    aliases: Seq<(Seq<char>, Seq<char>)>,
    functions: Map<Seq<char>, usize>,
    env: Env,
)
    requires
        with_declarations(stmts, 0, builtin_arities()) == Ok::<
            Map<Seq<char>, usize>,
            CompileErrorView,
        >(functions),
        env.functions == with_aliases(aliases, 0, functions),
        bodies_error(stmts, 0, env) is None,
        plain_aliases(aliases),
    ensures
        forall|name: Seq<char>| stmts_call(stmts, 0, name) ==> #[trigger] knows_function(
            env,
            arities_of(stmts, aliases),
            name,
        ),
{
    lemma_builtins();
    lemma_few_params(stmts, 0, env);
    let none: Arities = Map::empty();
    assert(agree(builtin_arities(), none));
    lemma_agree_declared(stmts, 0, builtin_arities(), none);
    let own = declared_arities(stmts, 0, none);
    lemma_referenced(stmts);
    let names = referenced(stmts);
    assert forall|k: int| 0 <= k < names.len() implies is_builtin(#[trigger] names[k])
        && functions.contains_key(names[k]) && functions[names[k]] == 1 by {
        assert(is_builtin(names[k]));
        assert(builtin_arities()[names[k]] == 1);
    }
    lemma_agree_natives(names, 0, functions, own);
    let with_natives = native_arities(names, 0, own);
    lemma_agree_aliases(aliases, 0, functions, with_natives);
    let arities = arities_of(stmts, aliases);
    assert forall|name: Seq<char>| stmts_call(stmts, 0, name) implies #[trigger] knows_function(
        env,
        arities,
        name,
    ) by {
        if env.functions.contains_key(name) {
            if is_builtin(name) {
                assert(names.contains(name));
                let k = choose|k: int| 0 <= k < names.len() && names[k] == name;
                assert(with_natives.contains_key(names[k]));
                assert(arities.contains_key(name));
            } else {
                assert(arities.contains_key(name));
            }
        }
    }
}

// ---------------------------------------------------------------------------
// Accepted programs resolve
// ---------------------------------------------------------------------------

proof fn lemma_main_stmts(stmts: Seq<StmtView>, i: int, scopes: Scopes, env: Env)
    requires
        0 <= i <= stmts.len(),
        main_error(stmts, i, scopes, env) is None,
    ensures
        after_stmts(stmts, i, scopes, env) is Ok,
    decreases stmts.len() - i,
{
    if i < stmts.len() {
        if let Ok(next) = after_stmt(stmts[i], scopes, env) {
            lemma_main_stmts(stmts, i + 1, next, env);
        }
    }
}

/// What a statement calls, the program calls.
proof fn lemma_calls_inside(stmts: Seq<StmtView>, i: int, k: int, name: Seq<char>)
    requires
        0 <= i <= k < stmts.len(),
        stmt_calls(stmts[k], name),
    ensures
        stmts_call(stmts, i, name),
    decreases k - i,
{
    if i < k {
        lemma_calls_inside(stmts, i + 1, k, name);
    }
}

proof fn lemma_body_accepted(stmts: Seq<StmtView>, i: int, k: int, env: Env)
    requires
        0 <= i <= k < stmts.len(),
        bodies_error(stmts, i, env) is None,
    ensures
        stmts[k] matches StmtView::Function { params, body, span, .. } ==> {
            &&& with_params(params, span, seq![Set::empty()]) matches Ok(scopes)
            &&& scoped_error(body, scopes, env) is None
        },
    decreases k - i,
{
    if i < k {
        lemma_body_accepted(stmts, i + 1, k, env);
    }
}

proof fn lemma_nothing_covered(arities: Arities)
    ensures
        covers(Set::empty(), seq![Set::empty()], arities),
{
    let scopes: Scopes = seq![Set::empty()];
    assert forall|name: Seq<char>| crate::compiler::sema::visible(scopes, name) implies #[trigger] Set::<
        Seq<char>,
    >::empty().contains(name) by {
        let i = choose|i: int| 0 <= i < scopes.len() && (#[trigger] scopes[i]).contains(name);
        assert(scopes[i] == Set::<Seq<char>>::empty());
    }
}

/// A program that the analysis accepts resolves.
pub proof fn accepted_programs_resolve(
    stmts: Seq<StmtView>,
    aliases: Seq<(Seq<char>, Seq<char>)>,
    exporting: Seq<Seq<char>>,
    strict: bool,
)
    requires
        program_error(stmts, aliases, exporting) is None,
        plain_aliases(aliases),
        tidy_program(stmts, arities_of(stmts, aliases), strict),
    ensures
        resolved_stmts(stmts, 0, Set::empty(), arities_of(stmts, aliases), strict),
        forall|k: int|
            0 <= k < stmts.len() ==> #[trigger] resolved_declaration(
                stmts[k],
                arities_of(stmts, aliases),
                strict,
            ),
{
    let arities = arities_of(stmts, aliases);
    let none = Set::<Seq<char>>::empty();
    let outside: Scopes = seq![none];
    if let Ok(functions) = with_declarations(stmts, 0, builtin_arities()) {
        let env = Env {
            functions: with_aliases(aliases, 0, functions),
            modules: exporting.to_set(),
        };
        lemma_called_functions(stmts, aliases, functions, env);
        lemma_nothing_covered(arities);
        lemma_main_stmts(stmts, 0, outside, env);
        lemma_accepted_stmts(stmts, 0, outside, env, none, arities, strict);
        assert forall|k: int| 0 <= k < stmts.len() implies #[trigger] resolved_declaration(
            stmts[k],
            arities,
            strict,
        ) by {
            assert(tidy_declaration(stmts[k], arities, strict));
            if let StmtView::Function { params, body, span, .. } = stmts[k] {
                lemma_body_accepted(stmts, 0, k, env);
                lemma_covers_params(none, outside, arities, params, 0, span);
                if let Ok(scopes) = with_params(params, span, outside) {
                    assert forall|name: Seq<char>|
                        stmts_call(body, 0, name) implies #[trigger] knows_function(
                        env,
                        arities,
                        name,
                    ) by {
                        lemma_calls_inside(stmts, 0, k, name);
                    }
                    lemma_accepted_scope(
                        body,
                        scopes,
                        env,
                        with_names(params, 0, none),
                        arities,
                        strict,
                    );
                }
            }
        }
    }
}

// ---------------------------------------------------------------------------
// Function numbers
// ---------------------------------------------------------------------------

/// The number of declarations before a statement.
pub open spec fn number(stmts: Seq<StmtView>, k: int) -> int {
    function_count(stmts, 0) - function_count(stmts, k)
}

/// The declaration behind a function number.
pub open spec fn declares(stmts: Seq<StmtView>, k: int, id: FunctionId, arity: nat) -> bool {
    &&& 0 <= k < stmts.len()
    &&& number(stmts, k) == id.0
    &&& stmts[k] matches StmtView::Function { params, .. }
    &&& params.len() == arity
}

/// The place of a function in the table: a declaration, or a native behind the declarations.
pub open spec fn placed(stmts: Seq<StmtView>, id: FunctionId, arity: nat) -> bool {
    ||| exists|k: int| #[trigger] declares(stmts, k, id, arity)
    ||| {
        &&& function_count(stmts, 0) <= id.0 < function_count(stmts, 0) + referenced(stmts).len()
        &&& arity == 1
    }
}

/// Function ids and numbers of parameters speak of the same functions.
pub open spec fn numbers_agree(stmts: Seq<StmtView>, ids: FunctionIds, arities: Arities) -> bool {
    &&& ids.dom() == arities.dom()
    &&& forall|name: Seq<char>| #[trigger]
        ids.contains_key(name) ==> placed(stmts, ids[name], arities[name])
}

proof fn lemma_count_left(stmts: Seq<StmtView>, i: int)
    requires
        0 <= i <= stmts.len(),
    ensures
        function_count(stmts, i) <= function_count(stmts, 0),
    decreases i,
{
    if i > 0 {
        lemma_count_left(stmts, i - 1);
    }
}

proof fn lemma_declared_agree(
    stmts: Seq<StmtView>,
    i: int,
    next: nat,
    ids: FunctionIds,
    arities: Arities,
)
    requires
        0 <= i <= stmts.len(),
        next == number(stmts, i),
        numbers_agree(stmts, ids, arities),
    ensures
        match declared_ids(stmts, i, next, ids) {
            Ok(all) => numbers_agree(stmts, all, declared_arities(stmts, i, arities)),
            Err(error) => is_limit(error.kind),
        },
    decreases stmts.len() - i,
{
    if i < stmts.len() {
        match stmts[i] {
            StmtView::Function { name, params, .. } => {
                if next <= MAX_FUNCTIONS {
                    let id = FunctionId(next as u16);
                    assert(declares(stmts, i, id, params.len()));
                    let more = ids.insert(name, id);
                    let counts = arities.insert(name, params.len());
                    assert(more.dom() =~= counts.dom());
                    assert(numbers_agree(stmts, more, counts));
                    lemma_declared_agree(stmts, i + 1, next + 1, more, counts);
                }
            },
            _ => lemma_declared_agree(stmts, i + 1, next, ids, arities),
        }
    }
}

proof fn lemma_natives_agree(
    stmts: Seq<StmtView>,
    i: int,
    next: nat,
    ids: FunctionIds,
    arities: Arities,
)
    requires
        0 <= i <= referenced(stmts).len(),
        next == function_count(stmts, 0) + i,
        numbers_agree(stmts, ids, arities),
    ensures
        match native_ids(referenced(stmts), i, next, ids) {
            Ok(all) => numbers_agree(stmts, all, native_arities(referenced(stmts), i, arities)),
            Err(error) => is_limit(error.kind),
        },
    decreases referenced(stmts).len() - i,
{
    let names = referenced(stmts);
    if i < names.len() {
        if next <= MAX_FUNCTIONS {
            let id = FunctionId(next as u16);
            let more = ids.insert(names[i], id);
            let counts = arities.insert(names[i], 1);
            assert(more.dom() =~= counts.dom());
            assert(placed(stmts, id, 1));
            assert(numbers_agree(stmts, more, counts));
            lemma_natives_agree(stmts, i + 1, next + 1, more, counts);
        }
    }
}

proof fn lemma_aliases_agree(
    stmts: Seq<StmtView>,
    aliases: Seq<(Seq<char>, Seq<char>)>,
    i: int,
    ids: FunctionIds,
    arities: Arities,
)
    requires
        0 <= i <= aliases.len(),
        numbers_agree(stmts, ids, arities),
    ensures
        numbers_agree(stmts, with_aliases(aliases, i, ids), with_aliases(aliases, i, arities)),
    decreases aliases.len() - i,
{
    if i < aliases.len() {
        let (alias, target) = aliases[i];
        assert(ids.dom().contains(target) == arities.dom().contains(target));
        assert(ids.dom().contains(alias) == arities.dom().contains(alias));
        if ids.contains_key(target) && !ids.contains_key(alias) {
            let more = ids.insert(alias, ids[target]);
            let counts = arities.insert(alias, arities[target]);
            assert(more.dom() =~= counts.dom());
            assert(numbers_agree(stmts, more, counts));
            lemma_aliases_agree(stmts, aliases, i + 1, more, counts);
        } else {
            lemma_aliases_agree(stmts, aliases, i + 1, ids, arities);
        }
    }
}

proof fn lemma_ids_agree(stmts: Seq<StmtView>, aliases: Seq<(Seq<char>, Seq<char>)>)
    ensures
        match all_ids(stmts, aliases) {
            Ok(ids) => numbers_agree(stmts, ids, arities_of(stmts, aliases)),
            Err(error) => is_limit(error.kind),
        },
{
    let none: FunctionIds = Map::empty();
    let nothing: Arities = Map::empty();
    assert(none.dom() =~= nothing.dom());
    lemma_declared_agree(stmts, 0, 0, none, nothing);
    if let Ok(ids) = declared_ids(stmts, 0, 0, none) {
        let own = declared_arities(stmts, 0, nothing);
        lemma_natives_agree(stmts, 0, function_count(stmts, 0), ids, own);
        if let Ok(ids) = native_ids(referenced(stmts), 0, function_count(stmts, 0), ids) {
            lemma_aliases_agree(
                stmts,
                aliases,
                0,
                ids,
                native_arities(referenced(stmts), 0, own),
            );
        }
    }
}

// ---------------------------------------------------------------------------
// The function table
// ---------------------------------------------------------------------------

/// A call by name, or a closure over a function behind the first `low` ones of a table that has as
/// many captures.
pub open spec fn table_refers(
    v: InstructionView,
    table: Seq<FunctionView>,
    low: nat,
    ctx: Context,
) -> bool {
    &&& v.opcode == OP_CALL_FUNCTION ==> exists|name: Seq<char>| calls_by_name(name, v, ctx)
    &&& v.opcode == OP_MAKE_CLOSURE ==> {
        &&& v.function() matches Some(id)
        &&& low <= id.0 < table.len()
        &&& table[id.0 as int].capture_count == v.count_at(3)
    }
}

/// The chunk of a function in a table is in order.
pub open spec fn chunk_in_order(
    c: ChunkView,
    table: Seq<FunctionView>,
    low: nat,
    ctx: Context,
) -> bool {
    &&& forall|ip: int|
        0 <= ip < c.instructions.len() ==> table_refers(
            #[trigger] c.instructions[ip],
            table,
            low,
            ctx,
        )
    &&& ctx.strict && c.instructions.len() <= max_instruction_count() ==> valid_chunk(c)
}

/// A function in a table is in order.
pub open spec fn entry_in_order(
    f: FunctionView,
    table: Seq<FunctionView>,
    low: nat,
    ctx: Context,
) -> bool {
    match f.kind {
        FunctionKindView::Native(name) => f.name == name && f.register_count == f.arity
            && f.capture_count == 0,
        FunctionKindView::Bytecode(c) => f == bytecode_function(c) && chunk_in_order(
            c,
            table,
            low,
            ctx,
        ),
    }
}

pub open spec fn table_in_order(table: Seq<FunctionView>, low: nat, ctx: Context) -> bool {
    forall|j: int| 0 <= j < table.len() ==> entry_in_order(#[trigger] table[j], table, low, ctx)
}

/// A table that holds the functions of another one from `low` on.
pub open spec fn keeps_from(
    table: Seq<FunctionView>,
    after: Seq<FunctionView>,
    low: nat,
) -> bool {
    &&& table.len() <= after.len()
    &&& forall|j: int| low <= j < table.len() ==> #[trigger] after[j] == table[j]
}

proof fn lemma_entry_kept(
    f: FunctionView,
    table: Seq<FunctionView>,
    after: Seq<FunctionView>,
    low: nat,
    ctx: Context,
)
    requires
        entry_in_order(f, table, low, ctx),
        keeps_from(table, after, low),
    ensures
        entry_in_order(f, after, low, ctx),
{
    if let FunctionKindView::Bytecode(c) = f.kind {
        assert forall|ip: int| 0 <= ip < c.instructions.len() implies table_refers(
            #[trigger] c.instructions[ip],
            after,
            low,
            ctx,
        ) by {
            assert(table_refers(c.instructions[ip], table, low, ctx));
        }
    }
}

/// The context of code whose function literals stand at `base` and behind it.
pub open spec fn at(ctx: Context, base: nat) -> Context {
    Context { base, ..ctx }
}

/// What code refers to, in a table with its function literals at the end.
proof fn lemma_refers_in_table(
    v: InstructionView,
    table: Seq<FunctionView>,
    generated: Seq<FunctionView>,
    low: nat,
    ctx: Context,
)
    requires
        refers(v, generated, at(ctx, table.len())),
        low <= table.len(),
    ensures
        table_refers(v, table + generated, low, ctx),
{
    if v.opcode == OP_CALL_FUNCTION {
        let name = choose|name: Seq<char>| calls_by_name(name, v, at(ctx, table.len()));
        assert(calls_by_name(name, v, ctx));
    }
}

/// The code of a function whose names resolve.
pub open spec fn body_in_order(code: Emitted, base: nat, arity: nat, ctx: Context) -> bool {
    match code {
        Ok(g) => {
            &&& forall|i: int|
                0 <= i < g.generated.len() ==> function_refers(
                    #[trigger] g.generated[i],
                    g.generated,
                    at(ctx, base),
                )
            &&& forall|i: int|
                0 <= i < g.code.len() ==> refers(
                    (#[trigger] g.code[i])@,
                    g.generated,
                    at(ctx, base),
                )
            &&& g.arity == arity
            &&& finished(g) matches Ok(c) ==> ctx.strict && c.instructions.len()
                <= max_instruction_count() ==> valid_chunk(c)
        },
        Err(error) => is_limit(error.kind),
    }
}

proof fn lemma_body(
    name: Seq<char>,
    params: Seq<Seq<char>>,
    body: Seq<StmtView>,
    base: nat,
    ctx: Context,
)
    requires
        ctx.fs.dom() == ctx.arities.dom(),
        no_functions(params, ctx.arities),
        ctx.strict ==> always_return(body),
        resolved_stmts(body, 0, with_names(params, 0, Set::empty()), ctx.arities, ctx.strict),
    ensures
        body_in_order(
            body_code(name, params, body, base, ctx.fs),
            base,
            params.len(),
            ctx,
        ),
{
    let boxed = captured_in_stmts(body, 0, ctx.fs, Set::empty());
    let here = at(ctx, base);
    let names = with_names(params, 0, Set::empty());
    lemma_begin(name, params, Seq::empty(), boxed, base);
    lemma_with_names(params, 0, Set::empty());
    if let Ok(first) = begin(name, params, Seq::empty(), boxed, base) {
        assert(ready(first, names, here)) by {
            assert forall|n: Seq<char>| #[trigger]
                names.contains(n) implies first.locals.contains_key(n)
                || first.captures.contains_key(n) by {
                let k = choose|k: int| 0 <= k < params.len() && params[k] == n;
                assert(first.locals.contains_key(params[k]));
            }
            assert forall|n: Seq<char>| #[trigger] names.contains(n) implies !ctx.arities.contains_key(
                n,
            ) by {
                let k = choose|k: int| 0 <= k < params.len() && params[k] == n;
                assert(!ctx.arities.contains_key(params[k]));
            }
        }
        lemma_fine_stmts(body, 0, first, names, here);
        lemma_stmts(body, 0, first, ctx.fs);
        if let Ok(g) = gen_stmts(body, 0, first, ctx.fs) {
            assert forall|i: int| 0 <= i < g.code.len() implies refers(
                (#[trigger] g.code[i])@,
                g.generated,
                here,
            ) by {
                if i < first.code.len() {
                    assert(g.code[i] == first.code[i] || is_jump(g.code[i]));
                    assert(first.code[i] is MakeUpvalue);
                    assert(harmless(g.code[i]));
                }
            }
            if let Ok(c) = finished(g) {
                if ctx.strict && c.instructions.len() <= max_instruction_count() {
                    lemma_returning(first, body, ctx.fs, g, c);
                }
            }
        }
    }
}

/// A table after a function has been put into a place, with its function literals at the end.
proof fn lemma_function_added(
    table: Seq<FunctionView>,
    index: nat,
    g: Gen,
    c: ChunkView,
    low: nat,
    ctx: Context,
)
    requires
        table_in_order(table, low, ctx),
        index < low <= table.len(),
        body_in_order(Ok(g), table.len(), g.arity as nat, ctx),
        finished(g) == Ok::<ChunkView, CompileErrorView>(c),
    ensures
        table_in_order(
            table.update(index as int, bytecode_function(c)) + g.generated,
            low,
            ctx,
        ),
        keeps_from(table, table.update(index as int, bytecode_function(c)) + g.generated, low),
{
    let own = bytecode_function(c);
    let placed = table.update(index as int, own);
    let after = placed + g.generated;
    assert(keeps_from(table, after, low));
    assert(c.instructions.len() == g.code.len());
    assert forall|ip: int| 0 <= ip < c.instructions.len() implies table_refers(
        #[trigger] c.instructions[ip],
        after,
        low,
        ctx,
    ) by {
        assert(c.instructions[ip] == g.code[ip]@);
        lemma_refers_in_table(g.code[ip]@, placed, g.generated, low, ctx);
    }
    assert(entry_in_order(own, after, low, ctx));
    assert forall|j: int| 0 <= j < after.len() implies entry_in_order(
        #[trigger] after[j],
        after,
        low,
        ctx,
    ) by {
        if j == index {
        } else if j < table.len() {
            assert(after[j] == table[j]);
            lemma_entry_kept(table[j], table, after, low, ctx);
        } else {
            lemma_literal_entry(g.generated[j - table.len()], placed, g.generated, low, ctx);
        }
    }
}

/// The function of a function literal in the table that it is appended to.
proof fn lemma_literal_entry(
    f: FunctionView,
    table: Seq<FunctionView>,
    generated: Seq<FunctionView>,
    low: nat,
    ctx: Context,
)
    requires
        function_refers(f, generated, at(ctx, table.len())),
        low <= table.len(),
    ensures
        entry_in_order(f, table + generated, low, ctx),
{
    if let FunctionKindView::Bytecode(c) = f.kind {
        assert forall|ip: int| 0 <= ip < c.instructions.len() implies table_refers(
            #[trigger] c.instructions[ip],
            table + generated,
            low,
            ctx,
        ) by {
            lemma_refers_in_table(c.instructions[ip], table, generated, low, ctx);
        }
    }
}

/// The declarations before a statement stand in their places, and the natives behind them.
pub open spec fn places_filled(stmts: Seq<StmtView>, i: int, table: Seq<FunctionView>) -> bool {
    &&& function_count(stmts, 0) + referenced(stmts).len() <= table.len()
    &&& forall|k: int|
        0 <= k < i ==> (#[trigger] stmts[k] matches StmtView::Function { params, .. }
            ==> table[number(stmts, k)].arity == params.len())
    &&& forall|j: int|
        function_count(stmts, 0) <= j < function_count(stmts, 0) + referenced(stmts).len() ==> (
        #[trigger] table[j]).arity == 1
}

/// Declarations have ascending numbers.
proof fn lemma_numbers_ascend(stmts: Seq<StmtView>, k: int, i: int)
    requires
        0 <= k < i <= stmts.len(),
        stmts[k] is Function,
    ensures
        0 <= number(stmts, k) < number(stmts, i),
    decreases i - k,
{
    lemma_count_left(stmts, k);
    if k + 1 < i {
        lemma_count_falls(stmts, k + 1, i);
    }
}

proof fn lemma_count_falls(stmts: Seq<StmtView>, k: int, i: int)
    requires
        0 <= k <= i <= stmts.len(),
    ensures
        function_count(stmts, i) <= function_count(stmts, k),
    decreases i - k,
{
    if k < i {
        lemma_count_falls(stmts, k + 1, i);
    }
}

#[verifier::rlimit(40)]
proof fn lemma_functions(
    stmts: Seq<StmtView>,
    i: int,
    index: nat,
    table: Seq<FunctionView>,
    low: nat,
    ctx: Context,
)
    requires
        0 <= i <= stmts.len(),
        index == number(stmts, i),
        low == function_count(stmts, 0) + referenced(stmts).len(),
        ctx.fs.dom() == ctx.arities.dom(),
        table_in_order(table, low, ctx),
        places_filled(stmts, i, table),
        forall|k: int|
            0 <= k < stmts.len() ==> #[trigger] resolved_declaration(
                stmts[k],
                ctx.arities,
                ctx.strict,
            ),
    ensures
        match with_functions(stmts, i, index, ctx.fs, table) {
            Ok(after) => table_in_order(after, low, ctx) && places_filled(
                stmts,
                stmts.len() as int,
                after,
            ),
            Err(error) => is_limit(error.kind),
        },
    decreases stmts.len() - i,
{
    if i < stmts.len() {
        match stmts[i] {
            StmtView::Function { name, params, body, .. } => {
                if table.len() <= MAX_FUNCTIONS {
                    assert(resolved_declaration(stmts[i], ctx.arities, ctx.strict));
                    lemma_body(name, params, body, table.len(), ctx);
                    let code = body_code(name, params, body, table.len(), ctx.fs);
                    lemma_numbers_ascend(stmts, i, stmts.len() as int);
                    if let Ok(g) = code {
                        if let Ok(c) = finished(g) {
                            lemma_function_added(table, index, g, c, low, ctx);
                            let placed = table.update(index as int, bytecode_function(c));
                            let after = placed + g.generated;
                            lemma_places_kept(stmts, i, index, table, bytecode_function(c), after);
                            lemma_functions(stmts, i + 1, index + 1, after, low, ctx);
                        }
                    }
                }
            },
            _ => lemma_functions(stmts, i + 1, index, table, low, ctx),
        }
    }
}

/// The next declaration fills its place and leaves the others.
proof fn lemma_places_kept(
    stmts: Seq<StmtView>,
    i: int,
    index: nat,
    table: Seq<FunctionView>,
    f: FunctionView,
    after: Seq<FunctionView>,
)
    requires
        0 <= i < stmts.len(),
        index == number(stmts, i),
        places_filled(stmts, i, table),
        stmts[i] matches StmtView::Function { params, .. } && f.arity == params.len(),
        table.len() <= after.len(),
        forall|j: int| 0 <= j < table.len() && j != index ==> #[trigger] after[j] == table[j],
        after[index as int] == f,
    ensures
        places_filled(stmts, i + 1, after),
{
    lemma_numbers_ascend(stmts, i, stmts.len() as int);
    assert forall|k: int| 0 <= k < i + 1 implies (#[trigger] stmts[k] matches StmtView::Function {
        params,
        ..
    } ==> after[number(stmts, k)].arity == params.len()) by {
        if k < i && stmts[k] is Function {
            lemma_numbers_ascend(stmts, k, i);
        }
    }
}

/// The table before any function has been generated is in order.
proof fn lemma_outline(stmts: Seq<StmtView>, low: nat, ctx: Context)
    requires
        low == function_count(stmts, 0) + referenced(stmts).len(),
    ensures
        table_in_order(table_outline(stmts), low, ctx),
        places_filled(stmts, 0, table_outline(stmts)),
{
    let table = table_outline(stmts);
    assert forall|j: int| 0 <= j < table.len() implies entry_in_order(
        #[trigger] table[j],
        table,
        low,
        ctx,
    ) by {
        assert(table[j].kind is Native);
    }
}

/// The names of a program resolve, and the tables of its functions agree.
pub open spec fn settled_names(stmts: Seq<StmtView>, ctx: Context) -> bool {
    &&& numbers_agree(stmts, ctx.fs, ctx.arities)
    &&& resolved_stmts(stmts, 0, Set::empty(), ctx.arities, ctx.strict)
    &&& ctx.strict ==> always_return(stmts)
    &&& forall|k: int|
        0 <= k < stmts.len() ==> #[trigger] resolved_declaration(
            stmts[k],
            ctx.arities,
            ctx.strict,
        )
}

/// A program whose functions are in order.
pub open spec fn program_in_order(stmts: Seq<StmtView>, p: ProgramView, ctx: Context) -> bool {
    let low = function_count(stmts, 0) + referenced(stmts).len();
    &&& p.magic == BYTECODE_MAGIC@
    &&& p.version == CURRENT_BYTECODE_VERSION
    &&& p.functions.len() <= 0x1_0000
    &&& p.entry.0 < p.functions.len()
    &&& table_in_order(p.functions, low, ctx)
    &&& places_filled(stmts, stmts.len() as int, p.functions)
}

proof fn lemma_main(stmts: Seq<StmtView>, table: Seq<FunctionView>, low: nat, ctx: Context)
    requires
        low == function_count(stmts, 0) + referenced(stmts).len(),
        settled_names(stmts, ctx),
        table_in_order(table, low, ctx),
        places_filled(stmts, stmts.len() as int, table),
    ensures
        match with_main(stmts, ctx.fs, table) {
            Ok(p) => program_in_order(stmts, p, ctx),
            Err(error) => is_limit(error.kind),
        },
{
    let none: Seq<Seq<char>> = Seq::empty();
    assert(with_names(none, 0, Set::empty()) == Set::<Seq<char>>::empty());
    lemma_body("main"@, none, stmts, table.len(), ctx);
    if table.len() <= MAX_FUNCTIONS {
        if let Ok(g) = body_code("main"@, none, stmts, table.len(), ctx.fs) {
            if let Ok(more) = appended(table, g.generated) {
                assert(more == table + g.generated);
                if let Ok(c) = finished(g) {
                    if more.len() <= u16::MAX {
                        lemma_main_added(stmts, table, g, c, low, ctx);
                    }
                }
            }
        }
    }
}

/// A table with the function literals of the main function and the main function behind it.
proof fn lemma_main_added(
    stmts: Seq<StmtView>,
    table: Seq<FunctionView>,
    g: Gen,
    c: ChunkView,
    low: nat,
    ctx: Context,
)
    requires
        table_in_order(table, low, ctx),
        low == function_count(stmts, 0) + referenced(stmts).len(),
        places_filled(stmts, stmts.len() as int, table),
        body_in_order(Ok(g), table.len(), 0, ctx),
        finished(g) == Ok::<ChunkView, CompileErrorView>(c),
    ensures
        table_in_order((table + g.generated).push(bytecode_function(c)), low, ctx),
        places_filled(
            stmts,
            stmts.len() as int,
            (table + g.generated).push(bytecode_function(c)),
        ),
{
    let own = bytecode_function(c);
    let more = table + g.generated;
    let after = more.push(own);
    assert(keeps_from(more, after, low));
    assert(c.instructions.len() == g.code.len());
    assert forall|ip: int| 0 <= ip < c.instructions.len() implies table_refers(
        #[trigger] c.instructions[ip],
        more,
        low,
        ctx,
    ) by {
        assert(c.instructions[ip] == g.code[ip]@);
        lemma_refers_in_table(g.code[ip]@, table, g.generated, low, ctx);
    }
    assert(entry_in_order(own, more, low, ctx));
    assert forall|j: int| 0 <= j < after.len() implies entry_in_order(
        #[trigger] after[j],
        after,
        low,
        ctx,
    ) by {
        if j == more.len() {
            lemma_entry_kept(own, more, after, low, ctx);
        } else if j < table.len() {
            assert(after[j] == table[j]);
            lemma_entry_kept(table[j], table, after, low, ctx);
        } else {
            lemma_literal_entry(g.generated[j - table.len()], table, g.generated, low, ctx);
            lemma_entry_kept(after[j], more, after, low, ctx);
        }
    }
    assert forall|k: int| 0 <= k < stmts.len() implies (#[trigger] stmts[k] matches StmtView::Function {
        params,
        ..
    } ==> after[number(stmts, k)].arity == params.len()) by {
        if stmts[k] is Function {
            lemma_numbers_ascend(stmts, k, stmts.len() as int);
        }
    }
}

/// Generation of a program whose names resolve.
proof fn lemma_program(
    stmts: Seq<StmtView>,
    aliases: Seq<(Seq<char>, Seq<char>)>,
    exporting: Seq<Seq<char>>,
    strict: bool,
)
    requires
        program_error(stmts, aliases, exporting) is None,
        plain_aliases(aliases),
        tidy_program(stmts, arities_of(stmts, aliases), strict),
        strict ==> always_return(stmts),
    ensures
        match program_code(stmts, aliases) {
            Ok(p) => all_ids(stmts, aliases) matches Ok(ids) && numbers_agree(
                stmts,
                ids,
                arities_of(stmts, aliases),
            ) && program_in_order(
                stmts,
                p,
                (Context { base: 0, fs: ids, arities: arities_of(stmts, aliases), strict }),
            ),
            Err(error) => is_limit(error.kind),
        },
{
    let arities = arities_of(stmts, aliases);
    let low = function_count(stmts, 0) + referenced(stmts).len();
    accepted_programs_resolve(stmts, aliases, exporting, strict);
    lemma_ids_agree(stmts, aliases);
    if let Ok(ids) = all_ids(stmts, aliases) {
        let ctx = Context { base: 0, fs: ids, arities, strict };
        assert(settled_names(stmts, ctx));
        lemma_outline(stmts, low, ctx);
        lemma_functions(stmts, 0, 0, table_outline(stmts), low, ctx);
        if low <= MAX_FUNCTIONS {
            if let Ok(table) = with_functions(stmts, 0, 0, ids, table_outline(stmts)) {
                lemma_main(stmts, table, low, ctx);
            }
        }
    }
}

/// In a program that semantic analysis accepts, and in which no variable has the name of a
/// function, every name is defined: only a limit can stop code generation.
pub proof fn accepted_programs_only_hit_limits(
    stmts: Seq<StmtView>,
    aliases: Seq<(Seq<char>, Seq<char>)>,
    exporting: Seq<Seq<char>>,
)
    requires
        program_error(stmts, aliases, exporting) is None,
        plain_aliases(aliases),
        tidy_program(stmts, arities_of(stmts, aliases), false),
    ensures
        program_code(stmts, aliases) matches Err(error) ==> is_limit(error.kind),
{
    lemma_program(stmts, aliases, exporting, false);
}

/// All functions of a program are small enough to be verified.
pub open spec fn small_enough(p: ProgramView) -> bool {
    forall|j: int|
        0 <= j < p.functions.len() ==> (#[trigger] p.functions[j].kind
            matches FunctionKindView::Bytecode(c) ==> c.instructions.len()
            <= max_instruction_count())
}

/// A program that semantic analysis accepts, in which no variable has the name of a function, and
/// whose functions and top-level statements return on every path, compiles to a program that
/// verification accepts, unless a limit stops its compilation.
pub proof fn returning_programs_are_valid(
    stmts: Seq<StmtView>,
    aliases: Seq<(Seq<char>, Seq<char>)>,
    exporting: Seq<Seq<char>>,
    p: ProgramView,
)
    requires
        plain_aliases(aliases),
        tidy_program(stmts, arities_of(stmts, aliases), true),
        always_return(stmts),
        compiled_code(stmts, aliases, exporting) == Ok::<ProgramView, CompileErrorView>(p),
        small_enough(p),
    ensures
        valid_program(p),
{
    lemma_program(stmts, aliases, exporting, true);
    if let Ok(ids) = all_ids(stmts, aliases) {
        let arities = arities_of(stmts, aliases);
        let ctx = Context { base: 0, fs: ids, arities, strict: true };
        lemma_functions_valid(stmts, p, ctx, 0);
    }
}

/// No function of a program in order has an error.
proof fn lemma_functions_valid(stmts: Seq<StmtView>, p: ProgramView, ctx: Context, from: nat)
    requires
        program_in_order(stmts, p, ctx),
        numbers_agree(stmts, ctx.fs, ctx.arities),
        ctx.strict,
        small_enough(p),
    ensures
        first_function_error(p, from) is None,
    decreases p.functions.len() - from,
{
    if from < p.functions.len() {
        lemma_functions_valid(stmts, p, ctx, from + 1);
        let low = function_count(stmts, 0) + referenced(stmts).len();
        let f = p.functions[from as int];
        assert(entry_in_order(f, p.functions, low, ctx));
        assert(FunctionId(from as u16).0 == from);
        if let FunctionKindView::Bytecode(c) = p.functions[from as int].kind {
            assert(c.instructions.len() <= max_instruction_count());
            lemma_references_valid(stmts, p, ctx, FunctionId(from as u16), c, low, 0);
        }
        assert(function_error(p, FunctionId(from as u16)) is None);
    }
}

proof fn lemma_references_valid(
    stmts: Seq<StmtView>,
    p: ProgramView,
    ctx: Context,
    id: FunctionId,
    c: ChunkView,
    low: nat,
    from: nat,
)
    requires
        program_in_order(stmts, p, ctx),
        numbers_agree(stmts, ctx.fs, ctx.arities),
        chunk_in_order(c, p.functions, low, ctx),
    ensures
        first_reference_error(p, id, c, from) is None,
    decreases c.instructions.len() - from,
{
    if from < c.instructions.len() {
        lemma_references_valid(stmts, p, ctx, id, c, low, from + 1);
        let v = c.instructions[from as int];
        assert(table_refers(v, p.functions, low, ctx));
        if v.opcode == OP_CALL_FUNCTION {
            let name = choose|name: Seq<char>| calls_by_name(name, v, ctx);
            assert(calls_by_name(name, v, ctx));
            let callee = ctx.fs[name];
            assert(placed(stmts, callee, ctx.arities[name]));
            if exists|k: int| #[trigger] declares(stmts, k, callee, ctx.arities[name]) {
                let k = choose|k: int| #[trigger]
                    declares(stmts, k, callee, ctx.arities[name]);
                lemma_numbers_ascend(stmts, k, stmts.len() as int);
                assert(stmts[k] is Function);
                assert(p.functions[number(stmts, k)].arity == ctx.arities[name]);
            } else {
                assert(p.functions[callee.0 as int].arity == 1);
            }
        }
        assert(reference_error(p, v) is None);
    }
}

} // verus!
