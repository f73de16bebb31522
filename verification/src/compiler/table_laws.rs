//! Where the functions of a source program stand in the compiled program.

use vstd::prelude::*;

use crate::bytecode::instruction::{FunctionId, Register};
use crate::bytecode::program::{FunctionKindView, FunctionView, ProgramView};
use crate::compiler::ast::{LiteralView, StmtView};
use crate::compiler::captures::stmts_call;
use crate::compiler::codegen::{
    all_ids, body_code, compiled_code, declared_ids, function_count, native_function, native_ids,
    program_code, referenced, source_code, table_outline, with_function, with_functions,
};
use crate::compiler::emitter::{
    begin, bytecode_function, finished, fresh, here, load_literal, reserve, FunctionIds, Gen,
    MAX_FUNCTIONS,
};
use crate::compiler::error::CompileErrorView;
use crate::compiler::lexer::tokens_from;
use crate::compiler::parser::parsed;
use crate::compiler::scope_laws::{
    block_fits, callable, declares, function_fits, functions_apart, functions_of, is_builtin,
    programs_are_accepted_when_their_names_fit,
};
use crate::compiler::sema::with_aliases;
use crate::diagnostics::span::{FileId, SourceSpan};

verus! {

/// How many of the first `n` statements declare a function.
pub open spec fn functions_before(stmts: Seq<StmtView>, n: int) -> nat
    decreases n,
{
    if n <= 0 {
        0
    } else if stmts[n - 1] is Function {
        functions_before(stmts, n - 1) + 1
    } else {
        functions_before(stmts, n - 1)
    }
}

/// Whether a function of a table is compiled from a declaration: it is the code of its parameters
/// and body, and the functions of the function literals in it stand in the table where the code
/// says, behind the first `fixed` functions.
pub open spec fn compiled_from(
    stmt: StmtView,
    ids: FunctionIds,
    function: FunctionView,
    fixed: nat,
    table: Seq<FunctionView>,
) -> bool {
    exists|first: nat|
        first >= fixed && #[trigger] compiled_body(
            stmt->Function_name,
            stmt->Function_params,
            stmt->Function_body,
            ids,
            first,
            function,
            table,
        )
}

/// Whether a function of a table is the code of a body whose function literals have the numbers
/// from `first` on.
pub open spec fn compiled_body(
    name: Seq<char>,
    params: Seq<Seq<char>>,
    body: Seq<StmtView>,
    ids: FunctionIds,
    first: nat,
    function: FunctionView,
    table: Seq<FunctionView>,
) -> bool {
    &&& body_code(name, params, body, first, ids) matches Ok(g)
    &&& finished(g) matches Ok(chunk)
    &&& function == bytecode_function(chunk)
    &&& first + g.generated.len() <= table.len()
    &&& forall|k: int|
        0 <= k < g.generated.len() ==> table[first + k] == #[trigger] g.generated[k]
}

proof fn lemma_counted(stmts: Seq<StmtView>, i: int)
    requires
        0 <= i <= stmts.len(),
    ensures
        functions_before(stmts, i) + function_count(stmts, i) == functions_before(
            stmts,
            stmts.len() as int,
        ),
    decreases stmts.len() - i,
{
    if i < stmts.len() {
        lemma_counted(stmts, i + 1);
    }
}

proof fn lemma_before(stmts: Seq<StmtView>, i: int, j: int)
    requires
        0 <= i <= j <= stmts.len(),
    ensures
        functions_before(stmts, i) <= functions_before(stmts, j),
    decreases j - i,
{
    if i < j {
        lemma_before(stmts, i, j - 1);
    }
}

proof fn lemma_declared_ids(stmts: Seq<StmtView>, i: int, ids: FunctionIds)
    requires
        0 <= i <= stmts.len(),
        forall|k: int, name: Seq<char>|
            k < i && #[trigger] declares(stmts, k, name) && !(exists|l: int|
                k < l < i && #[trigger] declares(stmts, l, name)) ==> ids.contains_key(name)
                && ids[name] == FunctionId(functions_before(stmts, k) as u16),
        forall|name: Seq<char>| #[trigger]
            ids.contains_key(name) ==> exists|k: int| k < i && #[trigger] declares(stmts, k, name),
    ensures
        declared_ids(stmts, i, functions_before(stmts, i), ids) matches Ok(all) ==> {
            let n = stmts.len() as int;
            &&& forall|k: int, name: Seq<char>|
                k < n && #[trigger] declares(stmts, k, name) && !(exists|l: int|
                    k < l < n && #[trigger] declares(stmts, l, name)) ==> all.contains_key(name)
                    && all[name] == FunctionId(functions_before(stmts, k) as u16)
            &&& forall|name: Seq<char>| #[trigger]
                all.contains_key(name) ==> exists|k: int|
                    k < n && #[trigger] declares(stmts, k, name)
        },
    decreases stmts.len() - i,
{
    if i < stmts.len() {
        let next = functions_before(stmts, i);
        if let StmtView::Function { name, .. } = stmts[i] {
            assert(declares(stmts, i, name));
            let more = ids.insert(name, FunctionId(next as u16));
            assert forall|k: int, other: Seq<char>|
                k < i + 1 && #[trigger] declares(stmts, k, other) && !(exists|l: int|
                    k < l < i + 1 && #[trigger] declares(stmts, l, other)) implies more.contains_key(
                other,
            ) && more[other] == FunctionId(functions_before(stmts, k) as u16) by {
                if k < i {
                    if other == name {
                        assert(declares(stmts, i, other));
                    }
                    assert(!(exists|l: int| k < l < i && #[trigger] declares(stmts, l, other))) by {
                        if exists|l: int| k < l < i && #[trigger] declares(stmts, l, other) {
                            let l = choose|l: int|
                                k < l < i && #[trigger] declares(stmts, l, other);
                            assert(k < l < i + 1 && declares(stmts, l, other));
                        }
                    }
                }
            }
            assert forall|other: Seq<char>| #[trigger] more.contains_key(other) implies exists|
                k: int,
            |
                k < i + 1 && #[trigger] declares(stmts, k, other) by {
                if other == name {
                    assert(declares(stmts, i, name));
                } else {
                    let k = choose|k: int| k < i && #[trigger] declares(stmts, k, other);
                    assert(k < i + 1 && declares(stmts, k, other));
                }
            }
            lemma_declared_ids(stmts, i + 1, more);
        } else {
            assert forall|name: Seq<char>| !#[trigger] declares(stmts, i, name) by {}
            assert forall|k: int, other: Seq<char>|
                k < i + 1 && #[trigger] declares(stmts, k, other) && !(exists|l: int|
                    k < l < i + 1 && #[trigger] declares(stmts, l, other)) implies ids.contains_key(
                other,
            ) && ids[other] == FunctionId(functions_before(stmts, k) as u16) by {
                assert(!declares(stmts, i, other));
                assert(!(exists|l: int| k < l < i && #[trigger] declares(stmts, l, other))) by {
                    if exists|l: int| k < l < i && #[trigger] declares(stmts, l, other) {
                        let l = choose|l: int| k < l < i && #[trigger] declares(stmts, l, other);
                        assert(k < l < i + 1 && declares(stmts, l, other));
                    }
                }
            }
            assert forall|other: Seq<char>| #[trigger] ids.contains_key(other) implies exists|
                k: int,
            |
                k < i + 1 && #[trigger] declares(stmts, k, other) by {
                let k = choose|k: int| k < i && #[trigger] declares(stmts, k, other);
                assert(k < i + 1 && declares(stmts, k, other));
            }
            lemma_declared_ids(stmts, i + 1, ids);
        }
    }
}

proof fn lemma_native_ids(names: Seq<Seq<char>>, i: int, next: nat, ids: FunctionIds)
    requires
        0 <= i <= names.len(),
        names.no_duplicates(),
    ensures
        native_ids(names, i, next, ids) matches Ok(all) ==> {
            &&& forall|k: int|
                i <= k < names.len() ==> all.contains_key(#[trigger] names[k]) && all[names[k]]
                    == FunctionId((next + k - i) as u16)
            &&& forall|name: Seq<char>|
                #![trigger all.contains_key(name)]
                #![trigger all[name]]
                ids.contains_key(name) && !names.skip(i).contains(name) ==> all.contains_key(name)
                    && all[name] == ids[name]
        },
    decreases names.len() - i,
{
    if i < names.len() {
        let more = ids.insert(names[i], FunctionId(next as u16));
        lemma_native_ids(names, i + 1, next + 1, more);
        if let Ok(all) = native_ids(names, i, next, ids) {
            assert forall|name: Seq<char>|
                #![trigger all.contains_key(name)]
                #![trigger all[name]]
                ids.contains_key(name) && !names.skip(i).contains(name) implies all.contains_key(
                name,
            ) && all[name] == ids[name] by {
                assert(names.skip(i)[0] == names[i]);
                let rest = names.skip(i + 1);
                if rest.contains(name) {
                    let k = choose|k: int| 0 <= k < rest.len() && #[trigger] rest[k] == name;
                    assert(names.skip(i)[k + 1] == name);
                }
            }
            assert(!names.skip(i + 1).contains(names[i])) by {
                let rest = names.skip(i + 1);
                if rest.contains(names[i]) {
                    let k = choose|k: int| 0 <= k < rest.len() && #[trigger] rest[k] == names[i];
                    assert(names[i + 1 + k] == names[i]);
                }
            }
            assert(all[names[i]] == more[names[i]]);
            assert forall|k: int| i <= k < names.len() implies all.contains_key(
                #[trigger] names[k],
            ) && all[names[k]] == FunctionId((next + k - i) as u16) by {
                if k > i {
                    assert((next + 1 + k - (i + 1)) as u16 == (next + k - i) as u16);
                }
            }
        }
    }
}

proof fn lemma_aliases_keep(
    aliases: Seq<(Seq<char>, Seq<char>)>,
    i: int,
    ids: FunctionIds,
    name: Seq<char>,
)
    requires
        0 <= i <= aliases.len(),
        ids.contains_key(name),
    ensures
        with_aliases(aliases, i, ids).contains_key(name),
        with_aliases(aliases, i, ids)[name] == ids[name],
    decreases aliases.len() - i,
{
    if i < aliases.len() {
        let (alias, target) = aliases[i];
        let more = if ids.contains_key(target) && !ids.contains_key(alias) {
            ids.insert(alias, ids[target])
        } else {
            ids
        };
        lemma_aliases_keep(aliases, i + 1, more, name);
    }
}

/// A function stays compiled when the functions behind the fixed ones stay where they are.
proof fn lemma_still_compiled(
    stmt: StmtView,
    ids: FunctionIds,
    function: FunctionView,
    fixed: nat,
    table: Seq<FunctionView>,
    after: Seq<FunctionView>,
)
    requires
        compiled_from(stmt, ids, function, fixed, table),
        table.len() <= after.len(),
        forall|k: int| fixed <= k < table.len() ==> #[trigger] after[k] == table[k],
    ensures
        compiled_from(stmt, ids, function, fixed, after),
{
    let name = stmt->Function_name;
    let params = stmt->Function_params;
    let body = stmt->Function_body;
    let first = choose|first: nat|
        first >= fixed && #[trigger] compiled_body(name, params, body, ids, first, function, table);
    assert(compiled_body(name, params, body, ids, first, function, after));
}

/// Whether the declarations among the first `i` statements stand compiled in a function table, in
/// their order.
pub open spec fn filled(
    stmts: Seq<StmtView>,
    i: int,
    ids: FunctionIds,
    fixed: nat,
    table: Seq<FunctionView>,
) -> bool {
    forall|j: int|
        0 <= j < i && (#[trigger] stmts[j]) is Function ==> compiled_from(
            stmts[j],
            ids,
            table[functions_before(stmts, j) as int],
            fixed,
            table,
        )
}

proof fn lemma_filled(
    stmts: Seq<StmtView>,
    i: int,
    ids: FunctionIds,
    fixed: nat,
    table: Seq<FunctionView>,
)
    requires
        0 <= i <= stmts.len(),
        functions_before(stmts, stmts.len() as int) <= fixed <= table.len(),
        filled(stmts, i, ids, fixed, table),
    ensures
        with_functions(stmts, i, functions_before(stmts, i), ids, table) matches Ok(all) ==> {
            &&& filled(stmts, stmts.len() as int, ids, fixed, all)
            &&& table.len() <= all.len()
            &&& forall|k: int|
                functions_before(stmts, stmts.len() as int) <= k < table.len() ==> #[trigger] all[k]
                    == table[k]
        },
    decreases stmts.len() - i,
{
    let index = functions_before(stmts, i);
    let total = functions_before(stmts, stmts.len() as int);
    if i < stmts.len() {
        lemma_before(stmts, i + 1, stmts.len() as int);
        if let StmtView::Function { name, params, body, .. } = stmts[i] {
            let code = body_code(name, params, body, table.len(), ids);
            if table.len() <= MAX_FUNCTIONS {
                if let Ok(after) = with_function(table, index, code) {
                    let g = code->Ok_0;
                    let function = bytecode_function(finished(g)->Ok_0);
                    assert(after =~= table.update(index as int, function) + g.generated);
                    assert(after[index as int] == function);
                    assert(compiled_body(name, params, body, ids, table.len(), function, after));
                    assert forall|j: int|
                        0 <= j < i + 1 && (#[trigger] stmts[j]) is Function implies compiled_from(
                        stmts[j],
                        ids,
                        after[functions_before(stmts, j) as int],
                        fixed,
                        after,
                    ) by {
                        if j < i {
                            lemma_before(stmts, j + 1, i);
                            lemma_still_compiled(
                                stmts[j],
                                ids,
                                table[functions_before(stmts, j) as int],
                                fixed,
                                table,
                                after,
                            );
                        }
                    }
                    lemma_filled(stmts, i + 1, ids, fixed, after);
                    if let Ok(all) = with_functions(stmts, i + 1, index + 1, ids, after) {
                        assert forall|k: int| total <= k < table.len() implies #[trigger] all[k]
                            == table[k] by {
                            assert(all[k] == after[k]);
                        }
                    }
                }
            }
        } else {
            lemma_filled(stmts, i + 1, ids, fixed, table);
        }
    }
}

proof fn lemma_referenced(stmts: Seq<StmtView>)
    ensures
        referenced(stmts).no_duplicates(),
        forall|name: Seq<char>|
            #![trigger referenced(stmts).contains(name)]
            referenced(stmts).contains(name) <==> is_builtin(name) && stmts_call(stmts, 0, name),
{
    reveal_strlit("print");
    reveal_strlit("len");
    reveal_strlit("type_of");
    let names = referenced(stmts);
    assert("print"@.len() == 5 && "len"@.len() == 3 && "type_of"@.len() == 7);
    assert forall|name: Seq<char>|
        #![trigger names.contains(name)]
        names.contains(name) <==> is_builtin(name) && stmts_call(stmts, 0, name) by {
        if names.contains(name) {
            let k = choose|k: int| 0 <= k < names.len() && names[k] == name;
            assert(names[k] == name);
        }
        if is_builtin(name) && stmts_call(stmts, 0, name) {
            let p: int = if stmts_call(stmts, 0, "print"@) {
                1
            } else {
                0
            };
            let l: int = if stmts_call(stmts, 0, "len"@) {
                1
            } else {
                0
            };
            if name == "print"@ {
                assert(names[0] == name);
            } else if name == "len"@ {
                assert(names[p] == name);
            } else {
                assert(names[p + l] == name);
            }
        }
    }
}

/// The functions of a compiled program: the declared ones in the order of their declarations, then
/// the natives that the program calls, then those of function literals, and last the statements of
/// the program itself, where it starts. A declared function is called by the number of its own
/// place, which holds the code of its own body, and a native by the number of the place of the
/// native of its name, which takes one argument.
pub proof fn functions_stand_in_their_places(
    stmts: Seq<StmtView>,
    aliases: Seq<(Seq<char>, Seq<char>)>,
) -> (ids: FunctionIds)
    requires
        functions_apart(stmts, stmts.len() as int),
    ensures
        program_code(stmts, aliases) matches Ok(program) ==> {
            let total = functions_before(stmts, stmts.len() as int);
            let natives = referenced(stmts);
            let fixed = total + natives.len();
            &&& filled(stmts, stmts.len() as int, ids, fixed, program.functions)
            &&& forall|i: int, name: Seq<char>| #[trigger]
                declares(stmts, i, name) ==> ids.contains_key(name) && ids[name].0
                    == functions_before(stmts, i)
            &&& natives.no_duplicates()
            &&& forall|name: Seq<char>|
                #![trigger natives.contains(name)]
                natives.contains(name) <==> is_builtin(name) && stmts_call(stmts, 0, name)
            &&& forall|k: int|
                0 <= k < natives.len() ==> {
                    &&& ids.contains_key(#[trigger] natives[k])
                    &&& ids[natives[k]].0 == total + k
                    &&& program.functions[total + k] == (FunctionView {
                        name: natives[k],
                        arity: 1,
                        register_count: 1,
                        capture_count: 0,
                        kind: FunctionKindView::Native(natives[k]),
                    })
                }
            &&& program.entry.0 == program.functions.len() - 1
            &&& exists|first: nat|
                first >= fixed && #[trigger] compiled_body(
                    "main"@,
                    Seq::empty(),
                    stmts,
                    ids,
                    first,
                    program.functions.last(),
                    program.functions,
                )
        },
{
    let ids = match all_ids(stmts, aliases) {
        Ok(ids) => ids,
        Err(_) => Map::empty(),
    };
    let n = stmts.len() as int;
    let total = functions_before(stmts, n);
    let natives = referenced(stmts);
    let fixed = total + natives.len();
    let outline = table_outline(stmts);
    lemma_counted(stmts, 0);
    lemma_referenced(stmts);
    if let Ok(program) = program_code(stmts, aliases) {
        lemma_declared_ids(stmts, 0, Map::empty());
        let declared = declared_ids(stmts, 0, 0, Map::empty())->Ok_0;
        lemma_native_ids(natives, 0, total, declared);
        let both = native_ids(natives, 0, total, declared)->Ok_0;
        assert forall|i: int, name: Seq<char>| #[trigger] declares(stmts, i, name) implies
            ids.contains_key(name) && ids[name].0 == functions_before(stmts, i) by {
            lemma_before(stmts, i, n);
            assert(natives.skip(0) =~= natives);
            assert(!natives.contains(name));
            assert(declared.contains_key(name));
            lemma_aliases_keep(aliases, 0, both, name);
        }
        assert forall|k: int| 0 <= k < natives.len() implies ids.contains_key(
            #[trigger] natives[k],
        ) && ids[natives[k]].0 == total + k by {
            lemma_aliases_keep(aliases, 0, both, natives[k]);
        }
        lemma_filled(stmts, 0, ids, fixed, outline);
        let table = with_functions(stmts, 0, 0, ids, outline)->Ok_0;
        let g = body_code("main"@, Seq::empty(), stmts, table.len(), ids)->Ok_0;
        let main = bytecode_function(finished(g)->Ok_0);
        assert(program.functions =~= (table + g.generated).push(main));
        assert(compiled_body(
            "main"@,
            Seq::empty(),
            stmts,
            ids,
            table.len(),
            program.functions.last(),
            program.functions,
        ));
        assert forall|j: int|
            0 <= j < n && (#[trigger] stmts[j]) is Function implies compiled_from(
            stmts[j],
            ids,
            program.functions[functions_before(stmts, j) as int],
            fixed,
            program.functions,
        ) by {
            lemma_before(stmts, j + 1, n);
            lemma_still_compiled(
                stmts[j],
                ids,
                table[functions_before(stmts, j) as int],
                fixed,
                table,
                program.functions,
            );
        }
        assert forall|k: int| 0 <= k < natives.len() implies program.functions[total + k]
            == native_function(#[trigger] natives[k], 1) by {
            assert(table[total + k] == outline[total + k]);
        }
    }
    ids
}

/// A program compiles only where its names fit, and then to the code of its statements; where its
/// names fit, only its code can be refused.
pub proof fn programs_compile_when_their_names_fit(
    stmts: Seq<StmtView>,
    aliases: Seq<(Seq<char>, Seq<char>)>,
    exporting: Seq<Seq<char>>,
) -> (callees: Map<Seq<char>, usize>)
    ensures
        ({
            let fits = functions_apart(stmts, stmts.len() as int) && block_fits(
                stmts,
                Set::empty(),
                callees,
            ) && forall|i: int|
                0 <= i < stmts.len() ==> function_fits(#[trigger] stmts[i], callees);
            &&& fits ==> compiled_code(stmts, aliases, exporting) == program_code(stmts, aliases)
            &&& !fits ==> compiled_code(stmts, aliases, exporting) is Err
        }),
        functions_apart(stmts, stmts.len() as int) ==> exists|own: Map<Seq<char>, usize>|
            #[trigger] functions_of(stmts, stmts.len() as int, own) && callable(
                aliases,
                own,
                callees,
            ),
{
    let names = programs_are_accepted_when_their_names_fit(stmts, aliases, exporting);
    if functions_apart(stmts, stmts.len() as int) {
        assert(functions_of(stmts, stmts.len() as int, names.0));
    }
    names.1
}

/// A text is compiled by way of its tokens and its tree; what cannot be read or parsed does not
/// compile.
pub proof fn texts_compile_by_way_of_their_trees(source: Seq<char>, file_id: FileId)
    ensures
        tokens_from(source, 0, file_id) matches Err(error) ==> source_code(source, file_id) == Err::<
            ProgramView,
            CompileErrorView,
        >(error),
        tokens_from(source, 0, file_id) matches Ok(tokens) ==> {
            &&& parsed(tokens) matches Err(error) ==> source_code(source, file_id) == Err::<
                ProgramView,
                CompileErrorView,
            >(error)
            &&& parsed(tokens) matches Ok(tree) ==> source_code(source, file_id) == compiled_code(
                tree,
                Seq::empty(),
                Seq::empty(),
            )
        },
{
}

/// Code is refused for a limit only where the limit is passed: a function has at most 255
/// parameters and takes at most 255 variables from outside, registers are numbered up to 255, and
/// there are at most 65536 constants and as many strings.
pub proof fn limits_are_passed_where_they_are_reported(
    name: Seq<char>,
    params: Seq<Seq<char>>,
    captures: Seq<Seq<char>>,
    boxed: Set<Seq<char>>,
    id: nat,
    g: Gen,
    count: nat,
    value: LiteralView,
    span: SourceSpan,
    dst: Register,
)
    ensures
        begin(name, params, captures, boxed, id) is Ok <==> params.len() <= 255 && captures.len()
            <= 255,
        fresh(g) is Ok <==> g.next_register <= 255,
        reserve(g, count) is Ok <==> count == 0 || g.next_register + count <= 256,
        load_literal(value, span, dst, g) is Ok <==> if value is Text {
            g.strings.len() < 65536
        } else {
            g.constants.len() < 65536
        },
        here(g) is Ok <==> g.code.len() < 4294967296,
        finished(g) is Ok <==> g.next_register <= 255,
{
}

} // verus!
