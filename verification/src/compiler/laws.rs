//! What holds of translated code as a whole.

use crate::binary_format::lemma_patch_keeps_size;
use crate::binary_format::BinaryFormat;
use crate::common::UntypedValue;
use crate::compiler::drop_keep::copy_down_code;
use crate::compiler::drop_keep::drop_keep_code;
use crate::compiler::drop_keep::DropKeepWithReturnParam;
use crate::compiler::link::binary;
use crate::compiler::link::byte_offset;
use crate::compiler::link::calls_resolved;
use crate::compiler::link::lemma_byte_offset_grows;
use crate::compiler::link::linkable;
use crate::compiler::link::linked;
use crate::compiler::translation::globals_code;
use crate::compiler::translation::init_code;
use crate::compiler::translation::items_code;
use crate::compiler::translation::items_count;
use crate::compiler::translation::locals_code;
use crate::compiler::translation::memory_emitted;
use crate::compiler::translation::segment_emitted;
use crate::compiler::translation::segment_fills;
use crate::compiler::translation::segments_emitted;
use crate::compiler::translation::skip_code;
use crate::compiler::translation::swap_code;
use crate::compiler::translation::swap_with_depth_code;
use crate::compiler::translation::table_emitted;
use crate::compiler::translation::tables_emitted;
use crate::compiler::translation::Progress;
use crate::compiler::translation::Source;
use crate::compiler::fresh_engine;
use crate::compiler::Compiler;
use crate::compiler::CompilerError;
use crate::compiler::Error;
use crate::compiler::Translator;
use crate::engine::Engine;
use crate::import_linker::ImportLinker;
use crate::instruction::BranchOffset;
use crate::instruction::DropKeep;
use crate::instruction::Instruction;
use crate::instruction_set::lemma_le_value_bound;
use crate::instruction_set::memory_code;
use crate::instruction_set::store_code;
use crate::instruction_set::store_width;
use crate::machine::le_value;
use crate::machine::lemma_le_bytes_of_value;
use crate::machine::lemma_run_append;
use crate::machine::lemma_run_one;
use crate::machine::overwrite;
use crate::machine::Machine;
use crate::module::ConstExpr;
use crate::module::ElementSegment;
use crate::module::ElementSegmentKind;
use crate::module::Module;
use vstd::prelude::*;

verus! {

// ---- What a compiler starts from ----

/// What a loaded module and a linker give, a compiler or an error, is determined by them.
pub proof fn law_loading_determines_compiler(
    loaded: Result<(Engine, Module), Error>,
    linker: Option<&ImportLinker>,
    one: Result<Compiler, CompilerError>,
    other: Result<Compiler, CompilerError>,
)
    requires
        Compiler::loaded_as(loaded, linker, one),
        Compiler::loaded_as(loaded, linker, other),
    ensures
        Compiler::same_outcome(one, other),
{
}

/// Whether a loader gives one result for a binary, whichever fresh engine it reads it into.
pub open spec fn loads_alike<L: FnOnce(Engine, &[u8]) -> Result<(Engine, Module), Error>>(
    load: L,
    wasm_binary: &[u8],
) -> bool {
    forall|
        engine1: Engine,
        engine2: Engine,
        loaded1: Result<(Engine, Module), Error>,
        loaded2: Result<(Engine, Module), Error>,
    |
        fresh_engine(engine1) && fresh_engine(engine2) && #[trigger] call_ensures(
            load,
            (engine1, wasm_binary),
            loaded1,
        ) && #[trigger] call_ensures(load, (engine2, wasm_binary), loaded2) ==> loaded1 == loaded2
}

/// Making a compiler without naming a linker, and making it with none, have the same outcome:
/// the same error of the module, or a compiler without host functions that has translated
/// nothing.
pub proof fn law_new_has_no_linker<L: FnOnce(Engine, &[u8]) -> Result<(Engine, Module), Error>>(
    load: L,
    wasm_binary: &[u8],
    made: Result<Compiler, CompilerError>,
    made_with_none: Result<Compiler, CompilerError>,
)
    requires
        loads_alike(load, wasm_binary),
        // what `new` promises
        Compiler::loaded_by(load, wasm_binary, None, made),
        // what `new_with_linker` promises
        Compiler::loaded_by(load, wasm_binary, None, made_with_none),
    ensures
        Compiler::same_outcome(made, made_with_none),
        match made {
            Ok(compiler) => {
                &&& compiler.source().linker is None
                &&& compiler.progress().code == Seq::<Instruction>::empty()
                &&& compiler.progress().mapping == Map::<u32, u32>::empty()
                &&& !compiler.translated()
            },
            Err(error) => error is ModuleError,
        },
{
    let (engine1, loaded1) = choose|engine: Engine, loaded: Result<(Engine, Module), Error>|
        {
            &&& fresh_engine(engine)
            &&& #[trigger] call_ensures(load, (engine, wasm_binary), loaded)
            &&& Compiler::loaded_as(loaded, None, made)
        };
    let (engine2, loaded2) = choose|engine: Engine, loaded: Result<(Engine, Module), Error>|
        {
            &&& fresh_engine(engine)
            &&& #[trigger] call_ensures(load, (engine, wasm_binary), loaded)
            &&& Compiler::loaded_as(loaded, None, made_with_none)
        };
    assert(loaded1 == loaded2);
    law_loading_determines_compiler(loaded1, None, made, made_with_none);
}

// ---- What the code does to the stack and the memory ----

/// Dropping values one by one leaves the stack without its top values.
proof fn lemma_run_drops(machine: Machine, n: nat)
    requires
        n <= machine.stack.len(),
    ensures
        machine.run(Seq::new(n, |i: int| Instruction::Drop)) == Some(
            Machine { stack: machine.stack.take(machine.stack.len() - n), ..machine },
        ),
    decreases n,
{
    let code = Seq::new(n, |i: int| Instruction::Drop);
    if n == 0 {
        assert(machine.stack.take(machine.stack.len() as int) =~= machine.stack);
    } else {
        lemma_run_drops(machine, (n - 1) as nat);
        assert(code.drop_last() =~= Seq::new((n - 1) as nat, |i: int| Instruction::Drop));
        assert(machine.stack.take(machine.stack.len() - (n - 1)).drop_last()
            =~= machine.stack.take(machine.stack.len() - n));
    }
}

/// A stack after `n` of its top values have been popped, each into the slot `drop` below it.
spec fn popped_down(stack: Seq<UntypedValue>, drop: nat, n: nat) -> Seq<UntypedValue> {
    Seq::new(
        (stack.len() - n) as nat,
        |p: int|
            if stack.len() - drop - n <= p < stack.len() - drop {
                stack[p + drop]
            } else {
                stack[p]
            },
    )
}

proof fn lemma_run_pops(machine: Machine, drop: nat, n: nat)
    requires
        n <= drop <= u32::MAX,
        0 < drop,
        drop + n <= machine.stack.len(),
    ensures
        machine.run(Seq::new(n, |i: int| Instruction::LocalSet(drop as u32))) == Some(
            Machine { stack: popped_down(machine.stack, drop, n), ..machine },
        ),
    decreases n,
{
    let code = Seq::new(n, |i: int| Instruction::LocalSet(drop as u32));
    if n == 0 {
        assert(popped_down(machine.stack, drop, 0) =~= machine.stack);
    } else {
        let m = (n - 1) as nat;
        lemma_run_pops(machine, drop, m);
        assert(code.drop_last() =~= Seq::new(m, |i: int| Instruction::LocalSet(drop as u32)));
        let before = popped_down(machine.stack, drop, m);
        let len = before.len() as int;
        assert(before.update(len - 1 - drop, before[len - 1]).drop_last() =~= popped_down(
            machine.stack,
            drop,
            n,
        ));
    }
}

/// A stack after the lowest `n` of its top `keep` values have been copied down.
spec fn copied_down(stack: Seq<UntypedValue>, drop: nat, keep: nat, n: nat) -> Seq<
    UntypedValue,
> {
    let base = stack.len() - drop - keep;
    Seq::new(
        stack.len(),
        |p: int|
            if base <= p < base + n {
                stack[p + drop]
            } else {
                stack[p]
            },
    )
}

proof fn lemma_run_copies(machine: Machine, drop: nat, keep: nat, n: nat)
    requires
        0 < drop,
        n <= keep,
        drop + keep <= u32::MAX,
        drop + keep <= machine.stack.len(),
    ensures
        machine.run(copy_down_code(drop, keep, n)) == Some(
            Machine { stack: copied_down(machine.stack, drop, keep, n), ..machine },
        ),
    decreases n,
{
    if n == 0 {
        assert(copied_down(machine.stack, drop, keep, 0) =~= machine.stack);
    } else {
        let i = (n - 1) as nat;
        lemma_run_copies(machine, drop, keep, i);
        let before = Machine { stack: copied_down(machine.stack, drop, keep, i), ..machine };
        let get = Instruction::LocalGet((keep - 1 - i) as u32);
        let set = Instruction::LocalSet((drop + keep - i) as u32);
        lemma_run_append(machine, copy_down_code(drop, keep, i), seq![get, set]);
        lemma_run_append(before, seq![get], seq![set]);
        assert(seq![get] + seq![set] =~= seq![get, set]);
        lemma_run_one(before, get);
        let middle = before.step(get)->Some_0;
        lemma_run_one(middle, set);
        let len = middle.stack.len() as int;
        assert(middle.stack.update(len - 1 - (drop + keep - i), middle.stack[len - 1]).drop_last()
            =~= copied_down(machine.stack, drop, keep, n));
    }
}

/// The code of a pair drops values from below the top values that it keeps, and does nothing
/// else.
pub proof fn law_drop_keep(machine: Machine, drop: nat, keep: nat)
    requires
        drop + keep <= machine.stack.len(),
        drop + keep <= u32::MAX,
    ensures
        ({
            let len = machine.stack.len();
            machine.run(drop_keep_code(drop, keep)) == Some(
                Machine {
                    stack: machine.stack.take(len - drop - keep) + machine.stack.skip(len - keep),
                    ..machine
                },
            )
        }),
{
    let stack = machine.stack;
    let len = stack.len();
    let result = stack.take(len - drop - keep) + stack.skip(len - keep);
    if drop == 0 {
        assert(result =~= stack);
    } else if keep <= drop {
        let sets = Seq::new(keep, |i: int| Instruction::LocalSet(drop as u32));
        let rest = (drop - keep) as nat;
        lemma_run_pops(machine, drop, keep);
        let middle = Machine { stack: popped_down(stack, drop, keep), ..machine };
        lemma_run_append(machine, sets, Seq::new(rest, |i: int| Instruction::Drop));
        lemma_run_drops(middle, rest);
        assert(middle.stack.take(middle.stack.len() - rest) =~= result);
    } else {
        lemma_run_copies(machine, drop, keep, keep);
        let middle = Machine { stack: copied_down(stack, drop, keep, keep), ..machine };
        lemma_run_append(
            machine,
            copy_down_code(drop, keep, keep),
            Seq::new(drop, |i: int| Instruction::Drop),
        );
        lemma_run_drops(middle, drop);
        assert(middle.stack.take(middle.stack.len() - drop) =~= result);
    }
}

/// Where the values that a pair drops lie on a return address, the code of the pair with the
/// return address leaves the kept values with the address on top of them.
pub proof fn law_drop_keep_with_return_param(
    machine: Machine,
    base: Seq<UntypedValue>,
    address: UntypedValue,
    dropped: Seq<UntypedValue>,
    kept: Seq<UntypedValue>,
)
    requires
        dropped.len() < u16::MAX,
        kept.len() < u16::MAX,
        machine.stack == base.push(address) + dropped + kept,
    ensures
        ({
            let dk = DropKeepWithReturnParam(
                DropKeep { drop: dropped.len() as u16, keep: kept.len() as u16 },
            );
            &&& dk.translation() is Ok
            &&& machine.run(dk.translation()->Ok_0) == Some(
                Machine { stack: base + kept.push(address), ..machine },
            )
        }),
{
    let (drop, keep) = (dropped.len(), kept.len());
    if drop == 0 && keep == 0 {
        assert(base + kept.push(address) =~= machine.stack);
    } else {
        let get = Instruction::LocalGet((drop + keep) as u32);
        lemma_run_append(machine, seq![get], drop_keep_code(drop + 1, keep + 1));
        lemma_run_one(machine, get);
        let middle = machine.step(get)->Some_0;
        assert(middle.stack == machine.stack.push(address));
        law_drop_keep(middle, drop + 1, keep + 1);
        let len = middle.stack.len();
        assert(middle.stack.take(len - (drop + 1) - (keep + 1)) + middle.stack.skip(
            len - (keep + 1),
        ) =~= base + kept.push(address));
    }
}

/// The code that exchanges the top value with the one at a depth does that alone.
pub proof fn law_swap_with_depth(machine: Machine, depth: u32)
    requires
        depth < machine.stack.len(),
        depth + 2 <= u32::MAX,
    ensures
        ({
            let top = machine.stack.len() - 1;
            machine.run(swap_with_depth_code(depth)) == Some(
                Machine {
                    stack: machine.stack.update(top - depth, machine.stack[top]).update(
                        top,
                        machine.stack[top - depth],
                    ),
                    ..machine
                },
            )
        }),
{
    let code = swap_with_depth_code(depth);
    let stack = machine.stack;
    let top = stack.len() - 1;
    let (i0, i1, i2, i3) = (code[0], code[1], code[2], code[3]);
    assert(code =~= seq![i0] + (seq![i1] + (seq![i2] + seq![i3])));
    lemma_run_append(machine, seq![i0], seq![i1] + (seq![i2] + seq![i3]));
    lemma_run_one(machine, i0);
    let m1 = machine.step(i0)->Some_0;
    lemma_run_append(m1, seq![i1], seq![i2] + seq![i3]);
    lemma_run_one(m1, i1);
    let m2 = m1.step(i1)->Some_0;
    lemma_run_append(m2, seq![i2], seq![i3]);
    lemma_run_one(m2, i2);
    let m3 = m2.step(i2)->Some_0;
    lemma_run_one(m3, i3);
    let m4 = m3.step(i3)->Some_0;
    assert(m4.stack =~= stack.update(top - depth, stack[top]).update(top, stack[top - depth]));
}

/// The code that exchanges the top value with those at the depths below `n` moves the top
/// value below the other `n - 1` and does nothing else.
pub proof fn law_swap_rotates(machine: Machine, n: nat)
    requires
        0 < n <= machine.stack.len(),
        n < u32::MAX,
    ensures
        ({
            let stack = machine.stack;
            let len = stack.len() as int;
            machine.run(swap_code(n)) == Some(
                Machine {
                    stack: stack.take(len - n).push(stack[len - 1]) + stack.subrange(
                        len - n,
                        len - 1,
                    ),
                    ..machine
                },
            )
        }),
    decreases n,
{
    let stack = machine.stack;
    let len = stack.len() as int;
    let depth = (n - 1) as u32;
    lemma_run_append(machine, swap_with_depth_code(depth), swap_code((n - 1) as nat));
    law_swap_with_depth(machine, depth);
    let middle = machine.run(swap_with_depth_code(depth))->Some_0;
    let result = stack.take(len - n).push(stack[len - 1]) + stack.subrange(len - n, len - 1);
    if n == 1 {
        assert(middle.run(swap_code(0)) == Some(middle));
        assert(middle.stack =~= result);
    } else {
        law_swap_rotates(middle, (n - 1) as nat);
        assert(middle.stack.take(len - (n - 1)).push(middle.stack[len - 1])
            + middle.stack.subrange(len - (n - 1), len - 1) =~= result);
    }
}

/// The code for the locals of a function pushes a zero for each and does nothing else.
pub proof fn law_locals_are_zero(machine: Machine, n: nat)
    ensures
        machine.run(locals_code(n)) == Some(
            Machine {
                stack: machine.stack + Seq::new(n, |i: int| UntypedValue { bits: 0 }),
                ..machine
            },
        ),
    decreases n,
{
    if n == 0 {
        assert(machine.stack + Seq::new(0, |i: int| UntypedValue { bits: 0 }) =~= machine.stack);
    } else {
        law_locals_are_zero(machine, (n - 1) as nat);
        assert(locals_code(n).drop_last() =~= locals_code((n - 1) as nat));
        assert((machine.stack + Seq::new((n - 1) as nat, |i: int| UntypedValue { bits: 0 })).push(
            UntypedValue { bits: 0 },
        ) =~= machine.stack + Seq::new(n, |i: int| UntypedValue { bits: 0 }));
    }
}

/// One store of a data segment writes its bytes and does nothing else.
proof fn lemma_run_store(machine: Machine, offset: u32, bytes: Seq<u8>, from: int)
    requires
        0 <= from < bytes.len() <= u32::MAX,
        offset + bytes.len() <= machine.memory.len(),
    ensures
        ({
            let chunk = bytes.subrange(from, from + store_width(bytes.len() - from));
            machine.run(store_code(offset, bytes, from)) == Some(
                Machine {
                    memory: overwrite(machine.memory, offset + from, chunk),
                    ..machine
                },
            )
        }),
{
    let width = store_width(bytes.len() - from);
    let chunk = bytes.subrange(from, from + width);
    let code = store_code(offset, bytes, from);
    let (i0, i1, i2) = (code[0], code[1], code[2]);
    assert(code =~= seq![i0] + (seq![i1] + seq![i2]));
    lemma_run_append(machine, seq![i0], seq![i1] + seq![i2]);
    lemma_run_one(machine, i0);
    let m1 = machine.step(i0)->Some_0;
    lemma_run_append(m1, seq![i1], seq![i2]);
    lemma_run_one(m1, i1);
    let m2 = m1.step(i1)->Some_0;
    lemma_run_one(m2, i2);
    lemma_le_bytes_of_value(chunk);
    lemma_le_value_bound(chunk);
    let len = m2.stack.len() as int;
    assert(m2.stack.take(len - 2) =~= machine.stack);
    assert(m2.stack[len - 2].bits == offset);
    assert(m2.stack[len - 1].bits == le_value(chunk));
    assert(m2.step(i2) == m2.store(from as u32, width as nat));
}

/// The code that writes a data segment from its byte `from` on puts these bytes where they
/// belong and does nothing else.
proof fn lemma_run_memory(machine: Machine, offset: u32, bytes: Seq<u8>, from: int)
    requires
        0 <= from,
        bytes.len() <= u32::MAX,
        offset + bytes.len() <= machine.memory.len(),
    ensures
        from <= bytes.len() ==> machine.run(memory_code(offset, bytes, from)) == Some(
            Machine {
                memory: overwrite(machine.memory, offset + from, bytes.skip(from)),
                ..machine
            },
        ),
    decreases bytes.len() - from,
{
    if from == bytes.len() {
        assert(overwrite(machine.memory, offset + from, bytes.skip(from)) =~= machine.memory);
    } else if from < bytes.len() {
        let width = store_width(bytes.len() - from);
        let chunk = bytes.subrange(from, from + width);
        lemma_run_store(machine, offset, bytes, from);
        let middle = Machine {
            memory: overwrite(machine.memory, offset + from, chunk),
            ..machine
        };
        lemma_run_append(
            machine,
            store_code(offset, bytes, from),
            memory_code(offset, bytes, from + width),
        );
        lemma_run_memory(middle, offset, bytes, from + width);
        assert(overwrite(middle.memory, offset + from + width, bytes.skip(from + width))
            =~= overwrite(machine.memory, offset + from, bytes.skip(from)));
    }
}

/// The code for a data segment that lies within the memory writes its bytes at its offset
/// and does nothing else.
pub proof fn law_data_segment_is_written(machine: Machine, offset: u32, bytes: Seq<u8>)
    requires
        bytes.len() <= u32::MAX,
        offset + bytes.len() <= machine.memory.len(),
    ensures
        machine.run(memory_code(offset, bytes, 0)) == Some(
            Machine { memory: overwrite(machine.memory, offset as int, bytes), ..machine },
        ),
{
    lemma_run_memory(machine, offset, bytes, 0);
    assert(bytes.skip(0) =~= bytes);
}

// ---- What a translation consists of ----

/// A translation only adds code: what was there stays in front.
pub proof fn law_translation_appends(source: Source, before: Progress, func: Option<u32>)
    ensures
        before.code.is_prefix_of(source.translated(before, func).code),
{
    let state = source.with_state(before);
    let main = source.entrypoint();
    lemma_state_appends(source, before);
    if func is Some {
        lemma_function_appends(source, state, func->Some_0, true);
    } else if main is Some {
        lemma_function_appends(source, state, main->Some_0, true);
        lemma_functions_append(
            source,
            source.with_function(state, main->Some_0, true),
            main->Some_0,
            source.module.funcs@.len(),
        );
    }
}

proof fn lemma_state_appends(source: Source, before: Progress)
    ensures
        before.code.is_prefix_of(source.with_state(before).code),
{
}

proof fn lemma_function_appends(source: Source, before: Progress, func: u32, is_main: bool)
    ensures
        before.code.is_prefix_of(source.with_function(before, func, is_main).code),
{
}

proof fn lemma_functions_append(source: Source, before: Progress, main: u32, n: nat)
    ensures
        before.code.is_prefix_of(source.with_functions(before, main, n).code),
    decreases n,
{
    if n > 0 {
        let most = source.with_functions(before, main, (n - 1) as nat);
        lemma_functions_append(source, before, main, (n - 1) as nat);
        lemma_function_appends(source, most, (n - 1) as u32, false);
    }
}

/// The code that sets up the module comes first: globals, then tables, then memory.
pub proof fn law_state_comes_first(source: Source, before: Progress, func: Option<u32>)
    requires
        source.translated(before, func).result is Ok,
        before.result is Ok,
    ensures
        ({
            let module = source.module;
            let tables = tables_emitted(module, module.tables@.len());
            let memory = memory_emitted(module.data_segments@, module.data_segments@.len());
            let setup = globals_code(module, module.globals@.len()) + tables.code + memory.code;
            &&& tables.result is Ok
            &&& memory.result is Ok
            &&& (before.code + setup).is_prefix_of(source.translated(before, func).code)
        }),
{
    let module = source.module;
    let tables = tables_emitted(module, module.tables@.len());
    let memory = memory_emitted(module.data_segments@, module.data_segments@.len());
    let setup = globals_code(module, module.globals@.len()) + tables.code + memory.code;
    let state = source.with_state(before);
    assert(state.code =~= before.code + setup);
    if func is Some {
        lemma_function_appends(source, state, func->Some_0, true);
    } else {
        let main = source.entrypoint()->Some_0;
        lemma_function_appends(source, state, main, true);
        lemma_functions_append(
            source,
            source.with_function(state, main, true),
            main,
            module.funcs@.len(),
        );
    }
}

/// Whether a translation fails, and why, depends on what is translated and not on the code
/// before it.
pub proof fn law_errors_come_from_the_source(
    source: Source,
    one: Progress,
    other: Progress,
    func: Option<u32>,
)
    requires
        one.result is Ok,
        other.result is Ok,
    ensures
        source.translated(one, func).result == source.translated(other, func).result,
{
    let (state1, state2) = (source.with_state(one), source.with_state(other));
    if state1.result is Ok {
        if let Some(func) = func {
            lemma_function_result(source, state1, state2, func, true);
        } else if let Some(main) = source.entrypoint() {
            lemma_function_result(source, state1, state2, main, true);
            lemma_functions_result(
                source,
                source.with_function(state1, main, true),
                source.with_function(state2, main, true),
                main,
                source.module.funcs@.len(),
            );
        }
    }
}

proof fn lemma_body_result(
    source: Source,
    len1: nat,
    len2: nat,
    body: Seq<Instruction>,
    pos: int,
    is_main: bool,
)
    ensures
        source.body_emitted(len1, body, pos, is_main).result == source.body_emitted(
            len2,
            body,
            pos,
            is_main,
        ).result,
    decreases body.len() + 4 - pos,
{
    if pos < body.len() {
        let step1 = source.step(len1, body, pos, is_main);
        let step2 = source.step(len2, body, pos, is_main);
        source.lemma_step_moves(len1, body, pos, is_main);
        if step1.emitted.result is Ok {
            lemma_body_result(
                source,
                len1 + step1.emitted.code.len(),
                len2 + step2.emitted.code.len(),
                body,
                step1.next,
                is_main,
            );
        }
    }
}

proof fn lemma_function_result(
    source: Source,
    one: Progress,
    other: Progress,
    func: u32,
    is_main: bool,
)
    requires
        one.result == other.result,
    ensures
        source.with_function(one, func, is_main).result == source.with_function(
            other,
            func,
            is_main,
        ).result,
{
    let prologue = source.prologue_code(func).len();
    let body = source.module.compiled_funcs@[source.body_index(func)];
    lemma_body_result(
        source,
        one.code.len() + prologue,
        other.code.len() + prologue,
        source.engine.body_code(body),
        0,
        is_main,
    );
}

proof fn lemma_functions_result(
    source: Source,
    one: Progress,
    other: Progress,
    main: u32,
    n: nat,
)
    requires
        one.result == other.result,
    ensures
        source.with_functions(one, main, n).result == source.with_functions(
            other,
            main,
            n,
        ).result,
    decreases n,
{
    if n > 0 {
        lemma_functions_result(source, one, other, main, (n - 1) as nat);
        lemma_function_result(
            source,
            source.with_functions(one, main, (n - 1) as nat),
            source.with_functions(other, main, (n - 1) as nat),
            (n - 1) as u32,
            false,
        );
    }
}

/// An imported function adds no code.
pub proof fn law_imports_have_no_code(
    source: Source,
    before: Progress,
    func: u32,
    is_main: bool,
)
    requires
        source.is_imported(func),
    ensures
        source.with_function(before, func, is_main) == before,
{
}

/// Whether each function begins within the code or at its end.
pub open spec fn offsets_in_code(progress: Progress) -> bool {
    forall|index: u32|
        progress.mapping.contains_key(index) ==> #[trigger] progress.mapping[index]
            <= progress.code.len()
}

/// Functions begin within the code, whatever is translated.
pub proof fn law_functions_begin_in_code(source: Source, before: Progress, func: Option<u32>)
    requires
        offsets_in_code(before),
    ensures
        offsets_in_code(source.translated(before, func)),
{
    let state = source.with_state(before);
    lemma_state_appends(source, before);
    assert(offsets_in_code(state));
    let main = source.entrypoint();
    if func is Some {
        lemma_function_begins_in_code(source, state, func->Some_0, true);
    } else if main is Some {
        lemma_function_begins_in_code(source, state, main->Some_0, true);
        lemma_functions_begin_in_code(
            source,
            source.with_function(state, main->Some_0, true),
            main->Some_0,
            source.module.funcs@.len(),
        );
    }
}

proof fn lemma_function_begins_in_code(
    source: Source,
    before: Progress,
    func: u32,
    is_main: bool,
)
    requires
        offsets_in_code(before),
    ensures
        offsets_in_code(source.with_function(before, func, is_main)),
{
    let after = source.with_function(before, func, is_main);
    assert forall|index: u32| after.mapping.contains_key(index) implies #[trigger] after.mapping[index]
        <= after.code.len() by {
        if before.mapping.contains_key(index) {
            assert(before.mapping[index] <= before.code.len());
        }
    }
}

proof fn lemma_functions_begin_in_code(source: Source, before: Progress, main: u32, n: nat)
    requires
        offsets_in_code(before),
    ensures
        offsets_in_code(source.with_functions(before, main, n)),
    decreases n,
{
    if n > 0 {
        lemma_functions_begin_in_code(source, before, main, (n - 1) as nat);
        lemma_function_begins_in_code(
            source,
            source.with_functions(before, main, (n - 1) as nat),
            (n - 1) as u32,
            false,
        );
    }
}

proof fn lemma_functions_keep_main(source: Source, before: Progress, main: u32, n: nat)
    requires
        n <= source.module.funcs@.len() <= u32::MAX,
        !source.is_imported(main),
        before.mapping.contains_key(source.body_index(main) as u32),
    ensures
        ({
            let index = source.body_index(main) as u32;
            let after = source.with_functions(before, main, n);
            after.mapping.contains_key(index) && after.mapping[index] == before.mapping[index]
        }),
    decreases n,
{
    if n > 0 {
        lemma_functions_keep_main(source, before, main, (n - 1) as nat);
    }
}

/// In a whole module, the code of `main` is the first behind the code that sets it up.
pub proof fn law_main_comes_first(source: Source, before: Progress)
    requires
        source.translated(before, None).result is Ok,
        source.module.funcs@.len() <= u32::MAX,
        source.with_state(before).code.len() <= u32::MAX,
    ensures
        source.entrypoint() is Some,
        ({
            let main = source.entrypoint()->Some_0;
            let index = source.body_index(main) as u32;
            let after = source.translated(before, None);
            !source.is_imported(main) ==> after.mapping.contains_key(index)
                && after.mapping[index] == source.with_state(before).code.len()
        }),
{
    let state = source.with_state(before);
    let main = source.entrypoint()->Some_0;
    if !source.is_imported(main) {
        lemma_functions_keep_main(
            source,
            source.with_function(state, main, true),
            main,
            source.module.funcs@.len(),
        );
    }
}

/// Whether the code of a function stands where the translation says that it begins.
pub open spec fn function_found(
    source: Source,
    progress: Progress,
    func: u32,
    is_main: bool,
) -> bool {
    let index = source.body_index(func) as u32;
    let begin = progress.mapping[index] as nat;
    let emitted = source.function_emitted(begin, func, is_main);
    &&& progress.mapping.contains_key(index)
    &&& emitted.result is Ok
    &&& begin + emitted.code.len() <= progress.code.len()
    &&& progress.code.subrange(begin as int, (begin + emitted.code.len()) as int) == emitted.code
}

/// A function that has just been translated is found where its code begins.
pub proof fn law_translated_function_is_found(
    source: Source,
    before: Progress,
    func: u32,
    is_main: bool,
)
    requires
        !source.is_imported(func),
        before.code.len() <= u32::MAX,
        source.with_function(before, func, is_main).result is Ok,
    ensures
        function_found(source, source.with_function(before, func, is_main), func, is_main),
{
    let after = source.with_function(before, func, is_main);
    let emitted = source.function_emitted(before.code.len(), func, is_main);
    assert(after.code.subrange(before.code.len() as int, after.code.len() as int)
        =~= emitted.code);
}

/// A function stays found when another one is translated.
proof fn lemma_function_stays_found(
    source: Source,
    before: Progress,
    func: u32,
    is_main: bool,
    other: u32,
)
    requires
        !source.is_imported(func),
        func != other,
        function_found(source, before, func, is_main),
    ensures
        function_found(source, source.with_function(before, other, false), func, is_main),
{
    let after = source.with_function(before, other, false);
    let index = source.body_index(func) as u32;
    let begin = before.mapping[index] as nat;
    let emitted = source.function_emitted(begin, func, is_main);
    let end = (begin + emitted.code.len()) as int;
    assert(after.code.subrange(begin as int, end) =~= before.code.subrange(begin as int, end));
}

proof fn lemma_functions_found(
    source: Source,
    before: Progress,
    main: u32,
    n: nat,
    func: u32,
    is_main: bool,
)
    requires
        n <= source.module.funcs@.len() <= u32::MAX,
        source.with_functions(before, main, n).result is Ok,
        source.with_functions(before, main, n).code.len() <= u32::MAX,
        !source.is_imported(func),
        func == main ==> is_main && function_found(source, before, main, true),
        func != main ==> !is_main && func < n,
    ensures
        function_found(source, source.with_functions(before, main, n), func, is_main),
    decreases n,
{
    if n > 0 {
        let most = source.with_functions(before, main, (n - 1) as nat);
        if n - 1 == main {
            lemma_functions_found(source, before, main, (n - 1) as nat, func, is_main);
        } else {
            lemma_function_appends(source, most, (n - 1) as u32, false);
            if func == n - 1 {
                law_translated_function_is_found(source, most, func, false);
            } else {
                lemma_functions_found(source, before, main, (n - 1) as nat, func, is_main);
                lemma_function_stays_found(source, most, func, is_main, (n - 1) as u32);
            }
        }
    }
}

/// Once a whole module has been translated, `main` and every other function with a body is
/// found where its code begins.
pub proof fn law_every_function_is_found(source: Source, before: Progress, func: u32)
    requires
        source.module.funcs@.len() <= u32::MAX,
        source.translated(before, None).result is Ok,
        source.translated(before, None).code.len() <= u32::MAX,
        func < source.module.funcs@.len() || source.entrypoint() == Some(func),
        !source.is_imported(func),
    ensures
        source.entrypoint() is Some,
        function_found(
            source,
            source.translated(before, None),
            func,
            source.entrypoint() == Some(func),
        ),
{
    let state = source.with_state(before);
    let main = source.entrypoint()->Some_0;
    let entry = source.with_function(state, main, true);
    let n = source.module.funcs@.len();
    lemma_functions_append(source, entry, main, n);
    lemma_function_appends(source, state, main, true);
    if func == main {
        law_translated_function_is_found(source, state, main, true);
    }
    lemma_functions_found(source, entry, main, n, func, func == main);
}

/// An internal call pushes the place of the instruction behind it, to which the function
/// returns.
pub proof fn law_call_returns_behind_itself(
    source: Source,
    len: nat,
    body: Seq<Instruction>,
    pos: int,
    is_main: bool,
)
    requires
        source.step_defined(len, body, pos),
        body[pos] is CallInternal,
    ensures
        ({
            let code = source.step(len, body, pos, is_main).emitted.code;
            &&& code.last() == body[pos]
            &&& code[0] == Instruction::I32Const(UntypedValue { bits: (len + code.len()) as u64 })
        }),
{
}

/// The branch in front of skipped code lands on the instruction behind it.
pub proof fn law_skip_lands_behind(skipped: Seq<Instruction>)
    requires
        skipped.len() < i32::MAX,
    ensures
        skip_code(skipped)[0].jump_offset() is Some,
        skip_code(skipped)[0].jump_offset()->Some_0.0 == skip_code(skipped).len(),
        skip_code(skipped).skip(1) == skipped,
{
    assert(skip_code(skipped).skip(1) =~= skipped);
}

/// The number of table items that code sets.
pub open spec fn table_sets(code: Seq<Instruction>) -> nat
    decreases code.len(),
{
    if code.len() == 0 {
        0
    } else {
        table_sets(code.drop_last()) + if code.last() is TableSet {
            1nat
        } else {
            0
        }
    }
}

proof fn lemma_table_sets_append(first: Seq<Instruction>, second: Seq<Instruction>)
    ensures
        table_sets(first + second) == table_sets(first) + table_sets(second),
    decreases second.len(),
{
    if second.len() == 0 {
        assert(first + second =~= first);
    } else {
        lemma_table_sets_append(first, second.drop_last());
        assert((first + second).drop_last() =~= first + second.drop_last());
    }
}

proof fn lemma_items_set(items: Seq<ConstExpr>, slot: u32, n: nat)
    ensures
        table_sets(items_code(items, slot, n)) == n,
    decreases n,
{
    if n > 0 {
        lemma_items_set(items, slot, (n - 1) as nat);
        let init = init_code(items[n - 1]);
        lemma_table_sets_append(
            items_code(items, slot, (n - 1) as nat),
            init.push(Instruction::TableSet(slot)),
        );
        assert(table_sets(init) == 0) by {
            assert(init.len() > 0 ==> init.drop_last() =~= Seq::<Instruction>::empty());
            assert(table_sets(Seq::<Instruction>::empty()) == 0);
        }
        assert(init.push(Instruction::TableSet(slot)).drop_last() =~= init);
    }
}

proof fn lemma_segments_set(segments: Seq<ElementSegment>, table: u32, n: nat)
    requires
        segments_emitted(segments, table, n).result is Ok,
    ensures
        table_sets(segments_emitted(segments, table, n).code) == items_count(segments, table, n),
    decreases n,
{
    if n > 0 {
        lemma_segments_set(segments, table, (n - 1) as nat);
        let before = segments_emitted(segments, table, (n - 1) as nat).code;
        let last = segment_emitted(segments[n - 1], table).code;
        lemma_table_sets_append(before, last);
        if segment_fills(segments[n - 1], table) {
            match segments[n - 1].kind {
                ElementSegmentKind::Active { offset, .. } => {
                    lemma_items_set(
                        segments[n - 1].items@,
                        offset.const_value()->Some_0.bits as u32,
                        segments[n - 1].items@.len(),
                    );
                },
                _ => {},
            }
        }
    }
}

/// A table is grown by as many items as are then set in it.
pub proof fn law_table_grows_by_its_items(module: Module, table: u32)
    requires
        table_emitted(module, table).result is Ok,
        items_count(module.element_segments@, table, module.element_segments@.len()) <= u64::MAX,
    ensures
        ({
            let code = table_emitted(module, table).code;
            &&& code.len() >= 2
            &&& code[0] == Instruction::I64Const(UntypedValue { bits: table_sets(code) as u64 })
            &&& code[1] == Instruction::TableGrow(table)
        }),
{
    let segments = module.element_segments@;
    let count = items_count(segments, table, segments.len());
    let grow = seq![
        Instruction::I64Const(UntypedValue::of_u64(count as u64)),
        Instruction::TableGrow(table),
    ];
    lemma_segments_set(segments, table, segments.len());
    lemma_table_sets_append(grow, segments_emitted(segments, table, segments.len()).code);
    reveal_with_fuel(table_sets, 3);
    assert(grow.drop_last() =~= seq![grow[0]]);
    assert(seq![grow[0]].drop_last() =~= Seq::<Instruction>::empty());
}

// ---- What the binary consists of ----

/// No internal call is left in resolved code: each has become a branch that lands where the
/// code of the function begins.
pub proof fn law_calls_become_branches(code: Seq<Instruction>, mapping: Map<u32, u32>, i: int)
    requires
        linkable(code, mapping),
        0 <= i < code.len(),
    ensures
        calls_resolved(code, mapping)[i] !is CallInternal,
        match code[i] {
            Instruction::CallInternal(func) => {
                let offset = calls_resolved(code, mapping)[i].jump_offset();
                offset is Some && i + offset->Some_0.0 == mapping[func]
            },
            instr => calls_resolved(code, mapping)[i] == instr,
        },
{
    assert(code[i] is CallInternal ==> mapping[code[i]->CallInternal_0] <= i32::MAX);
}

/// Once a module has been turned into bytes, it can be turned into bytes again and gives the
/// same bytes, or fails for the same reason.
pub proof fn law_finalize_repeats(before: Compiler, after: Compiler)
    requires
        before.finalizable(),
        after.finalized(&before),
    ensures
        after.output() == before.output(),
        after.translated() ==> after.finalizable(),
{
    let ready = before.ready();
    if ready.result is Ok {
        let code = calls_resolved(ready.code, ready.mapping);
        assert(calls_resolved(code, ready.mapping) =~= code);
    } else {
        before.lemma_progress_is_ok();
        after.lemma_progress_is_ok();
        law_errors_come_from_the_source(
            before.source(),
            before.progress(),
            after.progress(),
            None,
        );
    }
}

/// Turning a module into bytes starts with its translation: it makes no difference whether
/// the module has been translated before.
pub proof fn law_finalize_translates_first(fresh: Compiler, translated: Compiler)
    requires
        !fresh.translated(),
        translated.translated(),
        translated.source() == fresh.source(),
        translated.progress() == fresh.source().translated(fresh.progress(), None),
    ensures
        fresh.output() == translated.output(),
{
}

/// The binary is the linked instructions one after the other, each at its place.
pub proof fn law_binary_layout(
    code: Seq<Instruction>,
    mapping: Map<u32, u32>,
    n: nat,
    i: int,
)
    requires
        binary(code, mapping, n) is Ok,
        0 <= i < n <= code.len(),
    ensures
        ({
            let bytes = binary(code, mapping, n)->Ok_0;
            &&& bytes.len() == byte_offset(code, n as int)
            &&& linked(code, mapping, i) is Ok
            &&& 0 <= byte_offset(code, i) < byte_offset(code, i + 1) <= bytes.len()
            &&& bytes.subrange(byte_offset(code, i), byte_offset(code, i + 1)) == linked(
                code,
                mapping,
                i,
            )->Ok_0.encoding()
        }),
    decreases n,
{
    let bytes = binary(code, mapping, n)->Ok_0;
    let most = binary(code, mapping, (n - 1) as nat)->Ok_0;
    lemma_binary_len(code, mapping, n);
    lemma_binary_len(code, mapping, (n - 1) as nat);
    lemma_byte_offset_grows(code, 0, i);
    lemma_byte_offset_grows(code, i + 1, n as int);
    lemma_linked_size(code, mapping, n - 1);
    lemma_patch_keeps_size(code[i], BranchOffset(0), 0);
    if i == n - 1 {
        assert(bytes.subrange(byte_offset(code, i), byte_offset(code, i + 1)) =~= linked(
            code,
            mapping,
            i,
        )->Ok_0.encoding());
    } else {
        law_binary_layout(code, mapping, (n - 1) as nat, i);
        assert(bytes.subrange(byte_offset(code, i), byte_offset(code, i + 1)) =~= most.subrange(
            byte_offset(code, i),
            byte_offset(code, i + 1),
        ));
    }
}

proof fn lemma_linked_size(code: Seq<Instruction>, mapping: Map<u32, u32>, i: int)
    requires
        linked(code, mapping, i) is Ok,
    ensures
        linked(code, mapping, i)->Ok_0.encoding().len() == code[i].encoding().len(),
{
    if let Some(func) = code[i].code_reference() {
        lemma_patch_keeps_size(
            code[i],
            BranchOffset(0),
            byte_offset(code, mapping[func] as int) as u32,
        );
    } else if let Some(offset) = code[i].jump_offset() {
        lemma_patch_keeps_size(
            code[i],
            BranchOffset(byte_offset(code, offset.0 + i) as u32 as i32),
            0,
        );
    }
}

proof fn lemma_binary_len(code: Seq<Instruction>, mapping: Map<u32, u32>, n: nat)
    requires
        binary(code, mapping, n) is Ok,
    ensures
        binary(code, mapping, n)->Ok_0.len() == byte_offset(code, n as int),
    decreases n,
{
    if n > 0 {
        lemma_binary_len(code, mapping, (n - 1) as nat);
        lemma_linked_size(code, mapping, n - 1);
    }
}

/// In the binary, a branch holds the place at which its target stands.
pub proof fn law_branch_holds_place_of_target(
    code: Seq<Instruction>,
    mapping: Map<u32, u32>,
    i: int,
)
    requires
        0 <= i < code.len(),
        byte_offset(code, code.len() as int) <= u32::MAX,
        code[i].jump_offset() is Some,
        linked(code, mapping, i) is Ok,
    ensures
        ({
            let label = code[i].jump_offset()->Some_0.0 + i;
            let held = linked(code, mapping, i)->Ok_0.jump_offset();
            &&& 0 <= label < code.len()
            &&& held is Some
            &&& held->Some_0.0 as u32 == byte_offset(code, label)
        }),
{
    let label = code[i].jump_offset()->Some_0.0 + i;
    lemma_byte_offset_grows(code, label, code.len() as int);
    let place = byte_offset(code, label) as u32;
    assert((place as i32) as u32 == place) by (bit_vector);
}

/// In the binary, a reference to a function, which names it by its index among those with a
/// body, holds the place at which its code begins.
pub proof fn law_reference_holds_place_of_function(
    code: Seq<Instruction>,
    mapping: Map<u32, u32>,
    i: int,
)
    requires
        0 <= i < code.len(),
        byte_offset(code, code.len() as int) <= u32::MAX,
        code[i].code_reference() is Some,
        mapping[code[i].code_reference()->Some_0] < code.len(),
        linked(code, mapping, i) is Ok,
    ensures
        ({
            let func = code[i].code_reference()->Some_0;
            let held = linked(code, mapping, i)->Ok_0.code_reference();
            &&& mapping.contains_key(func)
            &&& held is Some
            &&& held->Some_0 == byte_offset(code, mapping[func] as int)
        }),
{
    let func = code[i].code_reference()->Some_0;
    lemma_byte_offset_grows(code, mapping[func] as int, code.len() as int);
}

} // verus!
