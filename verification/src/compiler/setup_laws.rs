//! What holds of the code that sets up the globals, tables and memory of a module.

use crate::common::UntypedValue;
use crate::compiler::laws::law_data_segment_is_written;
use crate::compiler::translation::data_emitted;
use crate::compiler::translation::global_code;
use crate::compiler::translation::globals_code;
use crate::compiler::translation::items_code;
use crate::compiler::translation::items_count;
use crate::compiler::translation::memory_emitted;
use crate::compiler::translation::segment_emitted;
use crate::compiler::translation::segment_error;
use crate::compiler::translation::segments_emitted;
use crate::compiler::translation::segments_error;
use crate::compiler::translation::table_emitted;
use crate::compiler::translation::tables_emitted;
use crate::compiler::translation::Progress;
use crate::compiler::translation::Source;
use crate::compiler::CompilerError;
use crate::instruction::Instruction;
use crate::instruction_set::memory_code;
use crate::instruction_set::store_code;
use crate::instruction_set::store_width;
use crate::machine::lemma_run_append;
use crate::machine::overwrite;
use crate::machine::Machine;
use crate::module::ConstExpr;
use crate::module::DataSegment;
use crate::module::DataSegmentKind;
use crate::module::ElementSegment;
use crate::module::ElementSegmentKind;
use crate::module::Module;
use vstd::prelude::*;

verus! {

broadcast use Seq::lemma_flatten_push;

/// The lowest 32 bits of a value, as an offset is read from it.
pub open spec fn offset_of(value: UntypedValue) -> u32 {
    (value.bits % 0x1_0000_0000) as u32
}

proof fn lemma_offset_is_low_bits(value: UntypedValue)
    ensures
        value.bits as u32 == offset_of(value),
{
    let bits = value.bits;
    assert(bits as u32 == bits % 0x1_0000_0000) by (bit_vector);
}

/// What an instruction that takes a value, such as one that sets a global, has in front of
/// it: the constant or the function reference that the value is, where it is known.
pub open spec fn valued(expr: ConstExpr, taker: Instruction) -> Seq<Instruction> {
    if expr is Const {
        seq![Instruction::I64Const(expr->Const_0), taker]
    } else if expr is FuncRef {
        seq![Instruction::RefFunc(expr->FuncRef_0), taker]
    } else {
        seq![taker]
    }
}

/// Constants and function references are told apart from each other and from the rest.
pub proof fn law_expressions(expr: ConstExpr, value: UntypedValue, func: u32)
    ensures
        expr.const_value() == Some(value) <==> expr == ConstExpr::Const(value),
        expr.func_ref() == Some(func) <==> expr == ConstExpr::FuncRef(func),
{
}

// ---- Globals ----

/// A global is set to its own initial value.
pub proof fn law_global_is_set_to_its_value(module: Module, global: u32)
    ensures
        global_code(module, global) == valued(
            module.globals_init@[global as int],
            Instruction::GlobalSet(global),
        ),
{
    assert(global_code(module, global) =~= valued(
        module.globals_init@[global as int],
        Instruction::GlobalSet(global),
    ));
}

/// The globals are set one after the other, each to its own initial value.
pub proof fn law_globals_are_set_in_order(module: Module, n: nat)
    requires
        n <= u32::MAX,
    ensures
        globals_code(module, n) == Seq::new(
            n,
            |g: int| valued(module.globals_init@[g], Instruction::GlobalSet(g as u32)),
        ).flatten(),
    decreases n,
{
    let parts = Seq::new(
        n,
        |g: int| valued(module.globals_init@[g], Instruction::GlobalSet(g as u32)),
    );
    if n > 0 {
        let most = Seq::new(
            (n - 1) as nat,
            |g: int| valued(module.globals_init@[g], Instruction::GlobalSet(g as u32)),
        );
        law_globals_are_set_in_order(module, (n - 1) as nat);
        law_global_is_set_to_its_value(module, (n - 1) as u32);
        assert(parts =~= most.push(parts[n - 1]));
    }
}

/// The globals that code sets, in the order in which it does.
pub open spec fn globals_set(code: Seq<Instruction>) -> Seq<u32>
    decreases code.len(),
{
    if code.len() == 0 {
        Seq::empty()
    } else if code.last() is GlobalSet {
        globals_set(code.drop_last()).push(code.last()->GlobalSet_0)
    } else {
        globals_set(code.drop_last())
    }
}

proof fn lemma_globals_set_append(first: Seq<Instruction>, second: Seq<Instruction>)
    ensures
        globals_set(first + second) == globals_set(first) + globals_set(second),
    decreases second.len(),
{
    if second.len() == 0 {
        assert(first + second =~= first);
    } else {
        lemma_globals_set_append(first, second.drop_last());
        assert((first + second).drop_last() =~= first + second.drop_last());
    }
}

/// Code without an instruction that sets a global sets none.
proof fn lemma_no_globals_set(code: Seq<Instruction>)
    requires
        forall|i: int| 0 <= i < code.len() ==> #[trigger] code[i] !is GlobalSet,
    ensures
        globals_set(code).len() == 0,
    decreases code.len(),
{
    if code.len() > 0 {
        assert(code[code.len() - 1] !is GlobalSet);
        lemma_no_globals_set(code.drop_last());
    }
}

proof fn lemma_globals_code_sets(module: Module, n: nat)
    requires
        n <= u32::MAX,
    ensures
        globals_set(globals_code(module, n)) == Seq::new(n, |g: int| g as u32),
    decreases n,
{
    if n > 0 {
        let g = (n - 1) as u32;
        let code = global_code(module, g);
        lemma_globals_code_sets(module, (n - 1) as nat);
        lemma_globals_set_append(globals_code(module, (n - 1) as nat), code);
        law_global_is_set_to_its_value(module, g);
        lemma_no_globals_set(code.drop_last());
        assert(globals_set(code) =~= seq![g]);
        assert(Seq::new((n - 1) as nat, |g: int| g as u32) + seq![g] =~= Seq::new(
            n,
            |g: int| g as u32,
        ));
    }
}

proof fn lemma_store_sets_no_global(offset: u32, bytes: Seq<u8>, from: int)
    ensures
        forall|i: int|
            0 <= i < memory_code(offset, bytes, from).len() ==> #[trigger] memory_code(
                offset,
                bytes,
                from,
            )[i] !is GlobalSet,
    decreases bytes.len() - from,
{
    if from < bytes.len() {
        lemma_store_sets_no_global(offset, bytes, from + store_width(bytes.len() - from));
        assert(forall|i: int| 0 <= i < 3 ==> #[trigger] store_code(offset, bytes, from)[i] !is GlobalSet);
    }
}

proof fn lemma_memory_sets_no_global(segments: Seq<DataSegment>, n: nat)
    ensures
        forall|i: int|
            0 <= i < memory_emitted(segments, n).code.len() ==> #[trigger] memory_emitted(
                segments,
                n,
            ).code[i] !is GlobalSet,
    decreases n,
{
    if n > 0 {
        lemma_memory_sets_no_global(segments, (n - 1) as nat);
        if let DataSegmentKind::Active { offset, .. } = segments[n - 1].kind {
            if let ConstExpr::Const(value) = offset {
                lemma_store_sets_no_global(value.bits as u32, segments[n - 1].bytes@, 0);
            }
        }
    }
}

proof fn lemma_items_set_no_global(items: Seq<ConstExpr>, slot: u32, n: nat)
    ensures
        forall|i: int|
            0 <= i < items_code(items, slot, n).len() ==> #[trigger] items_code(
                items,
                slot,
                n,
            )[i] !is GlobalSet,
    decreases n,
{
    if n > 0 {
        lemma_items_set_no_global(items, slot, (n - 1) as nat);
    }
}

proof fn lemma_segments_set_no_global(segments: Seq<ElementSegment>, table: u32, n: nat)
    ensures
        forall|i: int|
            0 <= i < segments_emitted(segments, table, n).code.len()
                ==> #[trigger] segments_emitted(segments, table, n).code[i] !is GlobalSet,
    decreases n,
{
    if n > 0 {
        lemma_segments_set_no_global(segments, table, (n - 1) as nat);
        let last = segments[n - 1];
        if let ElementSegmentKind::Active { offset, .. } = last.kind {
            if let ConstExpr::Const(value) = offset {
                lemma_items_set_no_global(last.items@, value.bits as u32, last.items@.len());
            }
        }
    }
}

proof fn lemma_tables_set_no_global(module: Module, n: nat)
    ensures
        forall|i: int|
            0 <= i < tables_emitted(module, n).code.len() ==> #[trigger] tables_emitted(
                module,
                n,
            ).code[i] !is GlobalSet,
    decreases n,
{
    if n > 0 {
        lemma_tables_set_no_global(module, (n - 1) as nat);
        let segments = module.element_segments@;
        lemma_segments_set_no_global(segments, (n - 1) as u32, segments.len());
    }
}

/// The code that sets up a module sets each global once, in the order of the globals, and
/// begins with the code that does so: each is set to its own initial value, which stands
/// directly in front.
pub proof fn law_setup_sets_each_global_once(source: Source, before: Progress)
    requires
        before.result is Ok,
        source.module.globals@.len() <= u32::MAX,
    ensures
        ({
            let n = source.module.globals@.len();
            let after = source.with_state(before).code;
            let setup = after.skip(before.code.len() as int);
            let globals = Seq::new(
                n,
                |g: int|
                    valued(source.module.globals_init@[g], Instruction::GlobalSet(g as u32)),
            ).flatten();
            &&& before.code.is_prefix_of(after)
            &&& globals.is_prefix_of(setup)
            &&& globals_set(setup) == Seq::new(n, |g: int| g as u32)
        }),
{
    let module = source.module;
    let n = module.globals@.len();
    let setup = source.with_state(before).code.skip(before.code.len() as int);
    let globals = globals_code(module, n);
    let tables = tables_emitted(module, module.tables@.len());
    let memory = memory_emitted(module.data_segments@, module.data_segments@.len());
    law_globals_are_set_in_order(module, n);
    lemma_globals_code_sets(module, n);
    lemma_tables_set_no_global(module, module.tables@.len());
    lemma_memory_sets_no_global(module.data_segments@, module.data_segments@.len());
    let rest = if tables.result is Ok {
        tables.code + memory.code
    } else {
        tables.code
    };
    assert(setup =~= globals + rest);
    lemma_no_globals_set(rest);
    lemma_globals_set_append(globals, rest);
    assert(globals_set(rest) =~= Seq::<u32>::empty());
}

/// How setting up a module ends: with the first failure among its tables, else with the first
/// among its data segments. The code for the memory stands behind that for the tables, and
/// that behind the one for the globals.
pub proof fn law_setup_ends_with_first_failure(source: Source, before: Progress)
    requires
        before.result is Ok,
    ensures
        ({
            let module = source.module;
            let globals = globals_code(module, module.globals@.len());
            let tables = tables_emitted(module, module.tables@.len());
            let memory = memory_emitted(module.data_segments@, module.data_segments@.len());
            let after = source.with_state(before);
            &&& after.mapping == before.mapping
            &&& if tables.result is Err {
                after.result == tables.result && after.code == before.code + globals + tables.code
            } else {
                after.result == memory.result && after.code == before.code + globals + tables.code
                    + memory.code
            }
        }),
{
}

// ---- Memory ----

/// A data segment that can be written: it lies in the first memory at a constant offset.
pub open spec fn writable(segment: DataSegment) -> bool {
    segment.kind matches DataSegmentKind::Active { memory_index, offset } && memory_index == 0
        && offset is Const
}

/// Where a data segment that can be written begins.
pub open spec fn segment_begin(segment: DataSegment) -> u32 {
    offset_of(segment.kind->Active_offset->Const_0)
}

/// Why a data segment that cannot be written is refused.
pub open spec fn refusal(segment: DataSegment) -> CompilerError {
    if segment.kind is Passive {
        CompilerError::NotSupported("passive mode is not supported")
    } else if segment.kind->Active_offset !is Const {
        CompilerError::NotSupported("can't eval offset")
    } else {
        CompilerError::NotSupported("not zero index")
    }
}

/// A memory after the first `n` data segments have been written, each at its own offset.
pub open spec fn written(memory: Seq<u8>, segments: Seq<DataSegment>, n: nat) -> Seq<u8>
    decreases n,
{
    if n == 0 {
        memory
    } else {
        overwrite(
            written(memory, segments, (n - 1) as nat),
            segment_begin(segments[n - 1]) as int,
            segments[n - 1].bytes@,
        )
    }
}

proof fn lemma_written_len(memory: Seq<u8>, segments: Seq<DataSegment>, n: nat)
    ensures
        written(memory, segments, n).len() == memory.len(),
    decreases n,
{
    if n > 0 {
        lemma_written_len(memory, segments, (n - 1) as nat);
    }
}

/// The code for data segments that lie in the memory writes each of them at its own offset,
/// one after the other, and does nothing else.
pub proof fn law_data_segments_are_written(machine: Machine, segments: Seq<DataSegment>, n: nat)
    requires
        n <= segments.len(),
        forall|s: int|
            0 <= s < n ==> {
                &&& writable(#[trigger] segments[s])
                &&& segments[s].bytes@.len() <= u32::MAX
                &&& segment_begin(segments[s]) + segments[s].bytes@.len() <= machine.memory.len()
            },
    ensures
        memory_emitted(segments, n).result is Ok,
        machine.run(memory_emitted(segments, n).code) == Some(
            Machine { memory: written(machine.memory, segments, n), ..machine },
        ),
    decreases n,
{
    if n > 0 {
        let m = (n - 1) as nat;
        let last = segments[n - 1];
        law_data_segments_are_written(machine, segments, m);
        lemma_written_len(machine.memory, segments, m);
        let middle = Machine { memory: written(machine.memory, segments, m), ..machine };
        assert(writable(segments[n - 1]));
        lemma_offset_is_low_bits(last.kind->Active_offset->Const_0);
        lemma_run_append(machine, memory_emitted(segments, m).code, data_emitted(last).code);
        law_data_segment_is_written(middle, segment_begin(last), last.bytes@);
    }
}

/// Where all of the first `s` data segments can be written and the next one cannot, the code
/// ends with theirs, for the reason that the next one is refused.
pub proof fn law_data_segments_end_with_refusal(segments: Seq<DataSegment>, s: nat, n: nat)
    requires
        s < n <= segments.len(),
        forall|k: int| 0 <= k < s ==> writable(#[trigger] segments[k]),
        !writable(segments[s as int]),
    ensures
        memory_emitted(segments, s).result is Ok,
        memory_emitted(segments, n).result == Err::<(), _>(refusal(segments[s as int])),
        memory_emitted(segments, n).code == memory_emitted(segments, s).code,
    decreases n,
{
    lemma_writable_memory(segments, s);
    if s + 1 < n {
        law_data_segments_end_with_refusal(segments, s, (n - 1) as nat);
    } else {
        assert(memory_emitted(segments, n).code =~= memory_emitted(segments, s).code);
    }
}

proof fn lemma_writable_memory(segments: Seq<DataSegment>, n: nat)
    requires
        n <= segments.len(),
        forall|k: int| 0 <= k < n ==> writable(#[trigger] segments[k]),
    ensures
        memory_emitted(segments, n).result is Ok,
    decreases n,
{
    if n > 0 {
        lemma_writable_memory(segments, (n - 1) as nat);
        assert(writable(segments[n - 1]));
    }
}

// ---- Tables ----

/// Whether an element segment is one for a table.
pub open spec fn is_for(segment: ElementSegment, table: u32) -> bool {
    segment.kind matches ElementSegmentKind::Active { table_index, .. } && table_index == table
}

/// Whether an element segment may stand in a module when a table is set up: it is active, and
/// where it is for the table, it has function references.
pub open spec fn acceptable(segment: ElementSegment, table: u32) -> bool {
    segment.kind is Active && (is_for(segment, table) ==> segment.ty is FuncRef)
}

/// What sets the items of an element segment: each item in order, at the segment's offset.
pub open spec fn items_set(segment: ElementSegment) -> Seq<Instruction> {
    Seq::new(
        segment.items@.len(),
        |k: int|
            valued(
                segment.items@[k],
                Instruction::TableSet(offset_of(segment.kind->Active_offset->Const_0)),
            ),
    ).flatten()
}

/// What sets the items of the first `n` element segments that are for a table.
pub open spec fn segments_set(segments: Seq<ElementSegment>, table: u32, n: nat) -> Seq<
    Instruction,
> {
    Seq::new(
        n,
        |s: int|
            if is_for(segments[s], table) {
                items_set(segments[s])
            } else {
                Seq::empty()
            },
    ).flatten()
}

proof fn lemma_items_code(items: Seq<ConstExpr>, slot: u32, n: nat)
    requires
        n <= items.len(),
    ensures
        items_code(items, slot, n) == Seq::new(
            n,
            |k: int| valued(items[k], Instruction::TableSet(slot)),
        ).flatten(),
    decreases n,
{
    let parts = Seq::new(n, |k: int| valued(items[k], Instruction::TableSet(slot)));
    if n > 0 {
        let most = Seq::new(
            (n - 1) as nat,
            |k: int| valued(items[k], Instruction::TableSet(slot)),
        );
        lemma_items_code(items, slot, (n - 1) as nat);
        assert(parts =~= most.push(parts[n - 1]));
        assert(items_code(items, slot, n) =~= most.flatten() + parts[n - 1]);
    }
}

proof fn lemma_segments_code(segments: Seq<ElementSegment>, table: u32, n: nat)
    requires
        n <= segments.len(),
        forall|s: int|
            0 <= s < n && is_for(#[trigger] segments[s], table)
                ==> segments[s].kind->Active_offset is Const,
    ensures
        segments_emitted(segments, table, n).result is Ok,
        segments_emitted(segments, table, n).code == segments_set(segments, table, n),
    decreases n,
{
    let part = |s: int|
        if is_for(segments[s], table) {
            items_set(segments[s])
        } else {
            Seq::empty()
        };
    if n > 0 {
        let last = segments[n - 1];
        lemma_segments_code(segments, table, (n - 1) as nat);
        assert(Seq::new(n, part) =~= Seq::new((n - 1) as nat, part).push(part(n - 1)));
        if is_for(last, table) {
            let value = last.kind->Active_offset->Const_0;
            lemma_offset_is_low_bits(value);
            lemma_items_code(last.items@, value.bits as u32, last.items@.len());
            assert(Seq::new(
                last.items@.len(),
                |k: int| valued(last.items@[k], Instruction::TableSet(value.bits as u32)),
            ) =~= Seq::new(
                last.items@.len(),
                |k: int|
                    valued(
                        last.items@[k],
                        Instruction::TableSet(offset_of(last.kind->Active_offset->Const_0)),
                    ),
            ));
        }
        assert(segment_emitted(last, table).code =~= part(n - 1));
    }
}

proof fn lemma_acceptable_segments(segments: Seq<ElementSegment>, table: u32, n: nat)
    requires
        n <= segments.len(),
        forall|s: int| 0 <= s < n ==> acceptable(#[trigger] segments[s], table),
    ensures
        segments_error(segments, table, n) is None,
    decreases n,
{
    if n > 0 {
        lemma_acceptable_segments(segments, table, (n - 1) as nat);
        assert(acceptable(segments[n - 1], table));
    }
}

proof fn lemma_unacceptable_segment(segments: Seq<ElementSegment>, table: u32, s: nat, n: nat)
    requires
        s < n <= segments.len(),
        forall|k: int| 0 <= k < s ==> acceptable(#[trigger] segments[k], table),
        !acceptable(segments[s as int], table),
    ensures
        segments_error(segments, table, n) == segment_error(segments[s as int], table),
        segments_error(segments, table, n) is Some,
    decreases n,
{
    lemma_acceptable_segments(segments, table, s);
    if s + 1 < n {
        lemma_unacceptable_segment(segments, table, s, (n - 1) as nat);
    }
}

proof fn lemma_items_count_total(segments: Seq<ElementSegment>, table: u32, n: nat)
    requires
        n <= segments.len(),
    ensures
        items_count(segments, table, n) == items_total(segments, table, n),
    decreases n,
{
    if n > 0 {
        lemma_items_count_total(segments, table, (n - 1) as nat);
    }
}

/// The number of items of the first `n` element segments that are for a table.
pub open spec fn items_total(segments: Seq<ElementSegment>, table: u32, n: nat) -> nat
    decreases n,
{
    if n == 0 {
        0
    } else {
        items_total(segments, table, (n - 1) as nat) + if is_for(segments[n - 1], table) {
            segments[n - 1].items@.len()
        } else {
            0
        }
    }
}

/// A table of function references whose segments can be translated gets room for all of its
/// items. Then each is set, segment by segment, at its segment's offset.
pub proof fn law_table_is_filled(module: Module, table: u32)
    requires
        table < module.tables@.len(),
        module.tables@[table as int].element is FuncRef,
        forall|s: int|
            0 <= s < module.element_segments@.len() ==> {
                &&& acceptable(#[trigger] module.element_segments@[s], table)
                &&& is_for(module.element_segments@[s], table)
                    ==> module.element_segments@[s].kind->Active_offset is Const
            },
    ensures
        ({
            let segments = module.element_segments@;
            let n = segments.len();
            &&& table_emitted(module, table).result is Ok
            &&& table_emitted(module, table).code == seq![
                Instruction::I64Const(
                    UntypedValue { bits: items_total(segments, table, n) as u64 },
                ),
                Instruction::TableGrow(table),
            ] + segments_set(segments, table, n)
        }),
{
    let segments = module.element_segments@;
    lemma_acceptable_segments(segments, table, segments.len());
    lemma_segments_code(segments, table, segments.len());
    lemma_items_count_total(segments, table, segments.len());
}

/// A table of anything else is refused.
pub proof fn law_table_of_others_is_refused(module: Module, table: u32)
    requires
        table < module.tables@.len(),
        module.tables@[table as int].element !is FuncRef,
    ensures
        table_emitted(module, table).code.len() == 0,
        table_emitted(module, table).result == Err::<(), _>(
            CompilerError::NotSupported("only funcref type is supported for tables"),
        ),
{
}

/// A table of function references is refused for the first segment that is not acceptable,
/// before anything is added.
pub proof fn law_unacceptable_segment_is_refused(module: Module, table: u32, s: int)
    requires
        table < module.tables@.len(),
        module.tables@[table as int].element is FuncRef,
        0 <= s < module.element_segments@.len(),
        forall|k: int|
            0 <= k < s ==> acceptable(#[trigger] module.element_segments@[k], table),
        !acceptable(module.element_segments@[s], table),
    ensures
        table_emitted(module, table).code.len() == 0,
        table_emitted(module, table).result == Err::<(), _>(
            CompilerError::NotSupported(
                if module.element_segments@[s].kind is Active {
                    "only funcref type is supported for element segments"
                } else {
                    "passive or declared mode for element segments is not supported"
                },
            ),
        ),
{
    let segments = module.element_segments@;
    lemma_unacceptable_segment(segments, table, s as nat, segments.len());
}

/// Where all segments are acceptable, a table is refused for the first of its own that has no
/// constant offset. The room is made by then, and the items before it are set.
pub proof fn law_unknown_offset_is_refused(module: Module, table: u32, s: int)
    requires
        table < module.tables@.len(),
        module.tables@[table as int].element is FuncRef,
        0 <= s < module.element_segments@.len(),
        forall|k: int|
            0 <= k < module.element_segments@.len() ==> acceptable(
                #[trigger] module.element_segments@[k],
                table,
            ),
        forall|k: int|
            0 <= k < s && is_for(#[trigger] module.element_segments@[k], table)
                ==> module.element_segments@[k].kind->Active_offset is Const,
        is_for(module.element_segments@[s], table),
        module.element_segments@[s].kind->Active_offset !is Const,
    ensures
        ({
            let segments = module.element_segments@;
            let n = segments.len();
            &&& table_emitted(module, table).result == Err::<(), _>(
                CompilerError::NotSupported("only static global variables supported"),
            )
            &&& table_emitted(module, table).code == seq![
                Instruction::I64Const(
                    UntypedValue { bits: items_total(segments, table, n) as u64 },
                ),
                Instruction::TableGrow(table),
            ] + segments_set(segments, table, s as nat)
        }),
{
    let segments = module.element_segments@;
    lemma_acceptable_segments(segments, table, segments.len());
    lemma_segments_code(segments, table, s as nat);
    lemma_segments_end(segments, table, s as nat, segments.len());
    lemma_items_count_total(segments, table, segments.len());
}

proof fn lemma_segments_end(segments: Seq<ElementSegment>, table: u32, s: nat, n: nat)
    requires
        s < n <= segments.len(),
        segments_emitted(segments, table, s).result is Ok,
        is_for(segments[s as int], table),
        segments[s as int].kind->Active_offset !is Const,
    ensures
        segments_emitted(segments, table, n).code == segments_emitted(segments, table, s).code,
        segments_emitted(segments, table, n).result == Err::<(), _>(
            CompilerError::NotSupported("only static global variables supported"),
        ),
    decreases n,
{
    if s + 1 < n {
        lemma_segments_end(segments, table, s, (n - 1) as nat);
    } else {
        assert(segments_emitted(segments, table, n).code =~= segments_emitted(
            segments,
            table,
            s,
        ).code);
    }
}

/// Tables are set up one after the other, each as itself.
pub proof fn law_tables_are_set_up_in_order(module: Module, n: nat)
    requires
        n <= u32::MAX,
        forall|t: int| 0 <= t < n ==> (#[trigger] table_emitted(module, t as u32)).result is Ok,
    ensures
        tables_emitted(module, n).result is Ok,
        tables_emitted(module, n).code == Seq::new(
            n,
            |t: int| table_emitted(module, t as u32).code,
        ).flatten(),
    decreases n,
{
    let part = |t: int| table_emitted(module, t as u32).code;
    if n > 0 {
        law_tables_are_set_up_in_order(module, (n - 1) as nat);
        assert(table_emitted(module, (n - 1) as u32).result is Ok);
        assert(Seq::new(n, part) =~= Seq::new((n - 1) as nat, part).push(part(n - 1)));
    }
}

/// Setting up tables ends with the first one that is refused, behind what was added for it
/// and for those before it.
pub proof fn law_tables_end_with_refusal(module: Module, t: nat, n: nat)
    requires
        t < n <= u32::MAX,
        tables_emitted(module, t).result is Ok,
        table_emitted(module, t as u32).result is Err,
    ensures
        tables_emitted(module, n).result == table_emitted(module, t as u32).result,
        tables_emitted(module, n).code == tables_emitted(module, t).code + table_emitted(
            module,
            t as u32,
        ).code,
    decreases n,
{
    if t + 1 < n {
        law_tables_end_with_refusal(module, t, (n - 1) as nat);
    }
}

} // verus!
