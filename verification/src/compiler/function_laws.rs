//! What holds of the code of functions and of their order in the code of a module.

use crate::common::UntypedValue;
use crate::compiler::fresh_engine;
use crate::compiler::laws::law_locals_are_zero;
use crate::compiler::laws::law_swap_rotates;
use crate::compiler::translation::locals_code;
use crate::compiler::translation::swap_code;
use crate::compiler::translation::Progress;
use crate::compiler::translation::Source;
use crate::compiler::Compiler;
use crate::compiler::CompilerError;
use crate::compiler::Error;
use crate::engine::Engine;
use crate::engine::FuncBody;
use crate::engine::FuncType;
use crate::import_linker::ImportLinker;
use crate::instruction::Instruction;
use crate::machine::lemma_run_append;
use crate::machine::Machine;
use crate::module::export_among;
use crate::module::ExternIdx;
use crate::module::ImportName;
use crate::module::Module;
use vstd::prelude::*;

verus! {

// ---- What a compiler holds ----

/// A compiler of a loaded module compiles that module with that engine, and calls the host
/// functions of the linker that it was given. A binary that could not be loaded is reported
/// with the reason.
pub proof fn law_compiler_holds_what_was_loaded(
    loaded: Result<(Engine, Module), Error>,
    linker: Option<&ImportLinker>,
    r: Result<Compiler, CompilerError>,
)
    requires
        Compiler::loaded_as(loaded, linker, r),
    ensures
        match loaded {
            Ok(parts) => {
                &&& r is Ok
                &&& r->Ok_0.source().engine == parts.0
                &&& r->Ok_0.source().module == parts.1
                &&& linker is None <==> r->Ok_0.source().linker is None
                &&& linker is Some ==> r->Ok_0.source().linker->Some_0 == linker->Some_0@
                &&& r->Ok_0.progress().code.len() == 0
                &&& r->Ok_0.progress().mapping.dom() == Set::<u32>::empty()
                &&& !r->Ok_0.translated()
            },
            Err(error) => r is Err && r->Err_0 == CompilerError::ModuleError(error),
        },
{
    if loaded is Ok {
        assert(r->Ok_0.progress().mapping.dom() =~= Set::<u32>::empty());
    }
}

/// A compiler of a binary holds what the loader gave for that binary, when it was handed an
/// engine without fuel metering, and calls the host functions of the linker.
pub proof fn law_loader_decides<L: FnOnce(Engine, &[u8]) -> Result<(Engine, Module), Error>>(
    load: L,
    wasm_binary: &[u8],
    linker: Option<&ImportLinker>,
    r: Result<Compiler, CompilerError>,
)
    requires
        Compiler::loaded_by(load, wasm_binary, linker, r),
    ensures
        exists|engine: Engine, loaded: Result<(Engine, Module), Error>|
            {
                &&& !engine.consume_fuel
                &&& #[trigger] call_ensures(load, (engine, wasm_binary), loaded)
                &&& loaded is Ok ==> {
                    &&& r is Ok
                    &&& r->Ok_0.source().engine == loaded->Ok_0.0
                    &&& r->Ok_0.source().module == loaded->Ok_0.1
                    &&& linker is None <==> r->Ok_0.source().linker is None
                    &&& linker is Some ==> r->Ok_0.source().linker->Some_0 == linker->Some_0@
                }
                &&& loaded is Err ==> r is Err && r->Err_0 == CompilerError::ModuleError(
                    loaded->Err_0,
                )
            },
{
    let (engine, loaded) = choose|engine: Engine, loaded: Result<(Engine, Module), Error>|
        {
            &&& fresh_engine(engine)
            &&& #[trigger] call_ensures(load, (engine, wasm_binary), loaded)
            &&& Compiler::loaded_as(loaded, linker, r)
        };
    law_compiler_holds_what_was_loaded(loaded, linker, r);
    assert(call_ensures(load, (engine, wasm_binary), loaded));
}

/// A module is loaded into an engine that holds nothing and does not meter fuel.
pub proof fn law_loading_starts_from_nothing(engine: Engine)
    requires
        fresh_engine(engine),
    ensures
        !engine.consume_fuel,
        engine.func_types@ == Seq::<FuncType>::empty(),
        engine.func_bodies@ == Seq::<FuncBody>::empty(),
        engine.consts@ == Seq::<UntypedValue>::empty(),
{
}

/// A compiler to which code has been added is the same but for that code, which stands at the
/// end.
pub proof fn law_growing_keeps_the_rest(
    before: Compiler,
    after: Compiler,
    code: Seq<Instruction>,
)
    requires
        after.grown(&before, code),
    ensures
        after.source() == before.source(),
        after.translated() == before.translated(),
        after.progress().mapping == before.progress().mapping,
        after.progress().code.len() == before.progress().code.len() + code.len(),
        before.progress().code.is_prefix_of(after.progress().code),
        code.is_suffix_of(after.progress().code),
{
    assert(after.progress().code.subrange(
        before.progress().code.len() as int,
        after.progress().code.len() as int,
    ) =~= code);
}

/// Imports have the same name where both parts of it are the same.
pub proof fn law_names_have_two_parts(one: ImportName, other: ImportName)
    ensures
        one@ == other@ <==> one.module@ == other.module@ && one.field@ == other.field@,
{
}

// ---- The code of one function ----

/// The stack of a function that has put its parameters and locals in their places: the top
/// value lies below the other `params - 1`, and zeros lie on top.
pub open spec fn entered(stack: Seq<UntypedValue>, params: nat, locals: nat) -> Seq<UntypedValue> {
    let len = stack.len() as int;
    let zeros = Seq::new(locals, |i: int| UntypedValue { bits: 0 });
    if params == 0 {
        stack + zeros
    } else {
        stack.take(len - params).push(stack.last()) + stack.subrange(len - params, len - 1) + zeros
    }
}

proof fn lemma_swap_len(n: nat)
    ensures
        swap_code(n).len() == 4 * n,
    decreases n,
{
    if n > 0 {
        lemma_swap_len((n - 1) as nat);
    }
}

proof fn lemma_run_prologue(machine: Machine, params: nat, locals: nat)
    requires
        params <= machine.stack.len(),
        params < u32::MAX,
    ensures
        machine.run(swap_code(params) + locals_code(locals)) == Some(
            Machine { stack: entered(machine.stack, params, locals), ..machine },
        ),
{
    lemma_run_append(machine, swap_code(params), locals_code(locals));
    if params > 0 {
        law_swap_rotates(machine, params);
    } else {
        assert(machine.run(swap_code(0)) == Some(machine));
    }
    law_locals_are_zero(machine.run(swap_code(params))->Some_0, locals);
}

/// The code of a function that is not imported begins by giving the parameters of its type
/// and the locals of its body their places. Then comes the code of its body, from the first
/// instruction on.
pub proof fn law_function_enters_its_body(
    source: Source,
    len: nat,
    func: u32,
    is_main: bool,
    machine: Machine,
)
    requires
        source.module.imports.len_funcs <= func < source.module.funcs@.len(),
        func - source.module.imports.len_funcs < source.module.compiled_funcs@.len(),
        source.engine.func_types@[source.module.funcs@[func as int] as int].params@.len()
            < u32::MAX,
        source.engine.func_types@[source.module.funcs@[func as int] as int].params@.len()
            <= machine.stack.len(),
    ensures
        ({
            let module = source.module;
            let params = source.engine.func_types@[module.funcs@[func as int] as int].params@.len();
            let body = source.engine.func_bodies@[module.compiled_funcs@[func
                - module.imports.len_funcs] as int];
            let entry = (4 * params + body.len_locals) as nat;
            let emitted = source.function_emitted(len, func, is_main);
            let inner = source.body_emitted(len + entry, body.instrs@, 0, is_main);
            &&& emitted.code.len() == entry + inner.code.len()
            &&& machine.run(emitted.code.take(entry as int)) == Some(
                Machine {
                    stack: entered(machine.stack, params, body.len_locals as nat),
                    ..machine
                },
            )
            &&& emitted.code.skip(entry as int) == inner.code
            &&& emitted.result == inner.result
        }),
{
    let module = source.module;
    let params = source.engine.func_types@[module.funcs@[func as int] as int].params@.len();
    let body = source.engine.func_bodies@[module.compiled_funcs@[func
        - module.imports.len_funcs] as int];
    let entry = 4 * params + body.len_locals;
    let emitted = source.function_emitted(len, func, is_main);
    lemma_swap_len(params);
    lemma_run_prologue(machine, params, body.len_locals as nat);
    assert(source.params_count(func) == params);
    assert(emitted.code.take(entry) =~= swap_code(params) + locals_code(body.len_locals as nat));
    assert(emitted.code.skip(entry) =~= source.body_emitted(
        (len + entry) as nat,
        body.instrs@,
        0,
        is_main,
    ).code);
}

/// A function without a body fails once its parameters have their places.
pub proof fn law_missing_body_is_reported(
    source: Source,
    len: nat,
    func: u32,
    is_main: bool,
    machine: Machine,
)
    requires
        source.module.imports.len_funcs <= func < source.module.funcs@.len(),
        func - source.module.imports.len_funcs >= source.module.compiled_funcs@.len(),
        source.engine.func_types@[source.module.funcs@[func as int] as int].params@.len()
            < u32::MAX,
        source.engine.func_types@[source.module.funcs@[func as int] as int].params@.len()
            <= machine.stack.len(),
    ensures
        ({
            let params =
                source.engine.func_types@[source.module.funcs@[func as int] as int].params@.len();
            let emitted = source.function_emitted(len, func, is_main);
            &&& emitted.result == Err::<(), _>(CompilerError::MissingFunction)
            &&& emitted.code.len() == 4 * params
            &&& machine.run(emitted.code) == Some(
                Machine { stack: entered(machine.stack, params, 0), ..machine },
            )
        }),
{
    let params = source.engine.func_types@[source.module.funcs@[func as int] as int].params@.len();
    lemma_swap_len(params);
    lemma_run_prologue(machine, params, 0);
    assert(swap_code(params) + locals_code(0) =~= swap_code(params));
}

/// Translating a function adds its code at the end. Where that succeeds, the function is
/// found from then on, by its index among those that are not imported, at the place at which
/// the code ended before; the places of others stay. An imported function changes nothing.
pub proof fn law_function_is_added_at_the_end(
    source: Source,
    before: Progress,
    func: u32,
    is_main: bool,
    other: u32,
)
    requires
        source.module.imports.len_funcs <= u32::MAX,
        before.code.len() <= u32::MAX,
    ensures
        ({
            let imported = source.module.imports.len_funcs;
            let after = source.with_function(before, func, is_main);
            let emitted = source.function_emitted(before.code.len(), func, is_main);
            let index = (func - imported) as u32;
            if func < imported {
                after == before
            } else {
                &&& after.code == before.code + emitted.code
                &&& after.result == emitted.result
                &&& emitted.result is Err ==> after.mapping == before.mapping
                &&& emitted.result is Ok ==> {
                    &&& after.mapping.contains_key(index)
                    &&& after.mapping[index] == before.code.len()
                    &&& other != index ==> {
                        &&& after.mapping.contains_key(other) == before.mapping.contains_key(other)
                        &&& after.mapping.contains_key(other) ==> after.mapping[other]
                            == before.mapping[other]
                    }
                }
            }
        }),
{
}

// ---- The functions of a module ----

/// What a name is exported as is what its first export refers to.
pub proof fn law_first_export_of_a_name_counts(module: Module, name: Seq<char>, i: int)
    requires
        0 <= i < module.exports@.len(),
        module.exports@[i].0@ == name,
        forall|k: int| 0 <= k < i ==> (#[trigger] module.exports@[k]).0@ != name,
    ensures
        module.export(name) == Some(module.exports@[i].1),
{
    lemma_not_exported(module.exports@, name, i as nat);
    lemma_exported(module.exports@, name, (i + 1) as nat, module.exports@.len());
}

/// A name without an export is exported as nothing.
pub proof fn law_unexported_name(module: Module, name: Seq<char>)
    requires
        forall|k: int|
            0 <= k < module.exports@.len() ==> (#[trigger] module.exports@[k]).0@ != name,
    ensures
        module.export(name) is None,
{
    lemma_not_exported(module.exports@, name, module.exports@.len());
}

proof fn lemma_not_exported(exports: Seq<(String, ExternIdx)>, name: Seq<char>, n: nat)
    requires
        n <= exports.len(),
        forall|k: int| 0 <= k < n ==> (#[trigger] exports[k]).0@ != name,
    ensures
        export_among(exports, name, n) is None,
    decreases n,
{
    if n > 0 {
        lemma_not_exported(exports, name, (n - 1) as nat);
        assert(exports[n - 1].0@ != name);
    }
}

proof fn lemma_exported(exports: Seq<(String, ExternIdx)>, name: Seq<char>, few: nat, many: nat)
    requires
        few <= many,
        export_among(exports, name, few) is Some,
    ensures
        export_among(exports, name, many) == export_among(exports, name, few),
    decreases many,
{
    if few < many {
        lemma_exported(exports, name, few, (many - 1) as nat);
    }
}

/// The function that a module starts with is the one that it exports under the name `main`.
pub proof fn law_entrypoint_is_main(source: Source, i: int)
    requires
        0 <= i < source.module.exports@.len(),
        source.module.exports@[i].0@ == "main"@,
        forall|k: int|
            0 <= k < i ==> (#[trigger] source.module.exports@[k]).0@ != "main"@,
    ensures
        match source.module.exports@[i].1 {
            ExternIdx::Func(func) => source.entrypoint() == Some(func),
            ExternIdx::Table(_) => source.entrypoint() is None,
            ExternIdx::Memory(_) => source.entrypoint() is None,
            ExternIdx::Global(_) => source.entrypoint() is None,
        },
{
    law_first_export_of_a_name_counts(source.module, "main"@, i);
}

/// A module that exports nothing under the name `main`, or no function, has nothing to start
/// with. Its translation ends with that, behind the code that sets it up.
pub proof fn law_missing_main_is_reported(source: Source, before: Progress)
    requires
        before.result is Ok,
        source.with_state(before).result is Ok,
        forall|k: int|
            0 <= k < source.module.exports@.len() ==> (#[trigger] source.module.exports@[k]).0@
                != "main"@ || source.module.exports@[k].1 !is Func,
    ensures
        ({
            let after = source.translated(before, None);
            &&& after.result == Err::<(), _>(CompilerError::MissingEntrypoint)
            &&& after.code == source.with_state(before).code
            &&& after.mapping == before.mapping
        }),
{
    let exports = source.module.exports@;
    lemma_export_is_one(exports, "main"@, exports.len());
}

proof fn lemma_export_is_one(exports: Seq<(String, ExternIdx)>, name: Seq<char>, n: nat)
    requires
        n <= exports.len(),
    ensures
        export_among(exports, name, n) is Some ==> exists|k: int|
            0 <= k < n && (#[trigger] exports[k]).0@ == name && export_among(exports, name, n)
                == Some(exports[k].1),
    decreases n,
{
    if n > 0 {
        lemma_export_is_one(exports, name, (n - 1) as nat);
        if export_among(exports, name, (n - 1) as nat) is None && exports[n - 1].0@ == name {
            assert(export_among(exports, name, n) == Some(exports[n - 1].1));
        }
    }
}

/// Where the setup of a module fails, so does its translation, and nothing is added behind.
pub proof fn law_failed_setup_ends_translation(
    source: Source,
    before: Progress,
    func: Option<u32>,
)
    requires
        source.with_state(before).result is Err,
    ensures
        source.translated(before, func) == source.with_state(before),
{
}

/// Where one function is asked for, its code is all that follows the setup. It is translated
/// as `main` is.
pub proof fn law_one_function_is_translated_alone(source: Source, before: Progress, func: u32)
    requires
        source.with_state(before).result is Ok,
        source.module.imports.len_funcs <= u32::MAX,
    ensures
        ({
            let state = source.with_state(before);
            let after = source.translated(before, Some(func));
            let emitted = source.function_emitted(state.code.len(), func, true);
            if func < source.module.imports.len_funcs {
                after == state
            } else {
                &&& after.code == state.code + emitted.code
                &&& after.result == emitted.result
                &&& emitted.result is Ok ==> after.mapping == state.mapping.insert(
                    (func - source.module.imports.len_funcs) as u32,
                    state.code.len() as u32,
                )
                &&& emitted.result is Err ==> after.mapping == state.mapping
            }
        }),
{
}

/// Where `main` fails, the translation of a module ends with it, behind the code up to the
/// failure.
pub proof fn law_failed_main_ends_translation(source: Source, before: Progress)
    requires
        source.with_state(before).result is Ok,
        source.entrypoint() is Some,
        source.module.imports.len_funcs <= source.entrypoint()->Some_0,
    ensures
        ({
            let state = source.with_state(before);
            let emitted = source.function_emitted(
                state.code.len(),
                source.entrypoint()->Some_0,
                true,
            );
            let after = source.translated(before, None);
            emitted.result is Err ==> {
                &&& after.result == emitted.result
                &&& after.code == state.code + emitted.code
                &&& after.mapping == state.mapping
            }
        }),
{
}

/// Where another function is the first to fail, the translation of a module ends with it,
/// behind the code up to the failure.
pub proof fn law_failed_function_ends_translation(source: Source, before: Progress, func: u32)
    requires
        source.with_state(before).result is Ok,
        source.entrypoint() is Some,
        source.entrypoint() != Some(func),
        source.module.imports.len_funcs <= func < source.module.funcs@.len(),
    ensures
        ({
            let main = source.entrypoint()->Some_0;
            let entry = source.with_function(source.with_state(before), main, true);
            let others = source.with_functions(entry, main, func as nat);
            let emitted = source.function_emitted(others.code.len(), func, false);
            let after = source.translated(before, None);
            entry.result is Ok && others.result is Ok && emitted.result is Err ==> {
                &&& after.result == emitted.result
                &&& after.code == others.code + emitted.code
                &&& after.mapping == others.mapping
            }
        }),
{
    let main = source.entrypoint()->Some_0;
    let entry = source.with_function(source.with_state(before), main, true);
    source.lemma_functions_stop(
        entry,
        main,
        func as nat + 1,
        source.module.funcs@.len(),
    );
}

/// The function behind one in the code of a module: the one with the next index, but for
/// `main`, which has its place in front.
pub open spec fn function_behind(func: nat, main: u32) -> nat {
    if func + 1 == main {
        func + 2
    } else {
        func + 1
    }
}

/// Where the code of a function begins. What would be behind the last function begins at the
/// end of the code.
pub open spec fn function_begin(source: Source, progress: Progress, func: nat) -> nat {
    if func < source.module.funcs@.len() {
        progress.mapping[(func - source.module.imports.len_funcs) as u32] as nat
    } else {
        progress.code.len()
    }
}

/// Where the code of a function ends.
pub open spec fn function_end(source: Source, progress: Progress, func: u32, main: u32) -> nat {
    let begin = function_begin(source, progress, func as nat);
    begin + source.function_emitted(begin, func, func == main).code.len()
}

proof fn lemma_functions_grow(source: Source, before: Progress, main: u32, few: nat, many: nat)
    requires
        few <= many,
    ensures
        source.with_functions(before, main, few).code.len() <= source.with_functions(
            before,
            main,
            many,
        ).code.len(),
        source.with_functions(before, main, many).result is Ok ==> source.with_functions(
            before,
            main,
            few,
        ).result is Ok,
    decreases many,
{
    if few < many {
        lemma_functions_grow(source, before, main, few, (many - 1) as nat);
    }
}

/// A function begins where the code of those before it ends.
proof fn lemma_place_of_function(source: Source, before: Progress, main: u32, func: nat, n: nat)
    requires
        source.module.imports.len_funcs <= func < n <= source.module.funcs@.len() <= u32::MAX,
        func != main,
        source.with_functions(before, main, n).result is Ok,
        source.with_functions(before, main, n).code.len() <= u32::MAX,
    ensures
        ({
            let index = (func - source.module.imports.len_funcs) as u32;
            let after = source.with_functions(before, main, n);
            let begin = source.with_functions(before, main, func).code.len();
            &&& after.mapping.contains_key(index)
            &&& after.mapping[index] == begin
        }),
    decreases n,
{
    lemma_functions_grow(source, before, main, (n - 1) as nat, n);
    lemma_functions_grow(source, before, main, func, n);
    if func < n - 1 {
        lemma_place_of_function(source, before, main, func, (n - 1) as nat);
    }
}

proof fn lemma_place_of_main(source: Source, before: Progress, main: u32, n: nat)
    requires
        n <= source.module.funcs@.len() <= u32::MAX,
        source.module.imports.len_funcs <= main,
        before.mapping.contains_key((main - source.module.imports.len_funcs) as u32),
    ensures
        ({
            let index = (main - source.module.imports.len_funcs) as u32;
            let after = source.with_functions(before, main, n);
            after.mapping.contains_key(index) && after.mapping[index] == before.mapping[index]
        }),
    decreases n,
{
    if n > 0 {
        lemma_place_of_main(source, before, main, (n - 1) as nat);
    }
}

proof fn lemma_imports_add_nothing(source: Source, before: Progress, main: u32, n: nat)
    requires
        n <= source.module.imports.len_funcs <= u32::MAX,
    ensures
        source.with_functions(before, main, n) == before,
    decreases n,
{
    if n > 0 {
        lemma_imports_add_nothing(source, before, main, (n - 1) as nat);
    }
}

/// In a whole module, the code of the functions is without gaps and each function has its
/// code once: that of `main` begins where the setup ends, the first other function follows
/// it, then they follow each other in the order of their indices, and the last one ends the
/// code.
pub proof fn law_functions_follow_each_other(source: Source, before: Progress, func: u32)
    requires
        source.translated(before, None).result is Ok,
        source.translated(before, None).code.len() <= u32::MAX,
        source.module.imports.len_funcs <= func < source.module.funcs@.len() <= u32::MAX,
        source.entrypoint() is Some ==> source.entrypoint()->Some_0 < source.module.funcs@.len(),
    ensures
        source.entrypoint() is Some,
        ({
            let imported = source.module.imports.len_funcs;
            let setup = source.with_state(before).code.len();
            let after = source.translated(before, None);
            let main = source.entrypoint()->Some_0;
            let first = if main == imported {
                imported as nat + 1
            } else {
                imported as nat
            };
            &&& after.mapping.contains_key((func - imported) as u32)
            &&& if main < imported {
                function_begin(source, after, first) == setup
            } else {
                &&& function_begin(source, after, main as nat) == setup
                &&& function_begin(source, after, first) == function_end(source, after, main, main)
            }
            &&& func != main ==> function_begin(
                source,
                after,
                function_behind(func as nat, main),
            ) == function_end(source, after, func, main)
        }),
{
    let imported = source.module.imports.len_funcs as nat;
    let state = source.with_state(before);
    let main = source.entrypoint()->Some_0;
    let entry = source.with_function(state, main, true);
    let n = source.module.funcs@.len();
    let after = source.translated(before, None);
    let first = if main == imported {
        imported + 1
    } else {
        imported
    };
    assert(after == source.with_functions(entry, main, n));
    lemma_functions_grow(source, entry, main, 0, n);
    lemma_imports_add_nothing(source, entry, main, imported);
    if main >= imported {
        assert(entry.mapping.contains_key((main - imported) as u32));
        lemma_place_of_main(source, entry, main, n);
    }
    if first < n {
        lemma_place_of_function(source, entry, main, first, n);
        assert(source.with_functions(entry, main, first).code.len() == entry.code.len()) by {
            if first == imported + 1 {
                assert(source.with_functions(entry, main, first) == source.with_functions(
                    entry,
                    main,
                    imported,
                ));
            }
        }
    } else if first == imported + 1 {
        assert(n == imported + 1);
        assert(source.with_functions(entry, main, n) == source.with_functions(
            entry,
            main,
            imported,
        ));
    }
    if func != main {
        let f = func as nat;
        let next = function_behind(f, main);
        lemma_place_of_function(source, entry, main, f, n);
        lemma_functions_grow(source, entry, main, f + 1, n);
        lemma_functions_grow(source, entry, main, f, n);
        let here = source.with_functions(entry, main, f);
        assert(source.with_functions(entry, main, f + 1) == source.with_function(
            here,
            func,
            false,
        ));
        if next < n {
            lemma_place_of_function(source, entry, main, next, n);
        }
        if next == f + 2 {
            assert(source.with_functions(entry, main, f + 2) == source.with_functions(
                entry,
                main,
                f + 1,
            ));
        }
        if next >= n {
            assert(next == n);
        }
    }
}

} // verus!
