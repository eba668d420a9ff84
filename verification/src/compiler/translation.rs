//! What bytecode a module stands for.

use crate::common::UntypedValue;
use crate::common::ValueType;
use crate::compiler::drop_keep::DropKeepWithReturnParam;
use crate::compiler::CompilerError;
use crate::compiler::Translator;
use crate::engine::Engine;
use crate::instruction::BranchOffset;
use crate::instruction::DropKeep;
use crate::instruction::Instruction;
use crate::instruction_set::memory_code;
use crate::module::ConstExpr;
use crate::module::DataSegment;
use crate::module::DataSegmentKind;
use crate::module::ElementSegment;
use crate::module::ElementSegmentKind;
use crate::module::Imported;
use crate::module::Module;
use vstd::prelude::*;

verus! {

/// What is compiled: a module, the engine that holds its function bodies, and the host
/// functions that it may call.
pub struct Source {
    pub engine: Engine,
    pub module: Module,
    pub linker: Option<Map<(Seq<char>, Seq<char>), u32>>,
}

/// Code that a translation step has added, and how it ended.
pub struct Emitted {
    pub code: Seq<Instruction>,
    pub result: Result<(), CompilerError>,
}

/// How far a translation has got: the code, the place in it at which each function begins,
/// and the error that ended it early.
pub struct Progress {
    pub code: Seq<Instruction>,
    pub mapping: Map<u32, u32>,
    pub result: Result<(), CompilerError>,
}

impl Progress {
    /// The same with the code of one more step, where no step before it failed.
    pub open spec fn then_emit(self, emitted: Emitted) -> Progress {
        if self.result is Ok {
            Progress { code: self.code + emitted.code, result: emitted.result, ..self }
        } else {
            self
        }
    }
}

// ---- Globals, tables and memory ----

/// The code that puts the value of an expression on the stack, where it is known.
pub open spec fn init_code(expr: ConstExpr) -> Seq<Instruction> {
    match expr {
        ConstExpr::Const(value) => seq![Instruction::I64Const(value)],
        ConstExpr::FuncRef(func) => seq![Instruction::RefFunc(func)],
        ConstExpr::GlobalGet(_) => Seq::empty(),
    }
}

/// The code that initializes a global.
pub open spec fn global_code(module: Module, global: u32) -> Seq<Instruction> {
    init_code(module.globals_init@[global as int]).push(Instruction::GlobalSet(global))
}

/// The code that initializes the first `n` globals.
pub open spec fn globals_code(module: Module, n: nat) -> Seq<Instruction>
    decreases n,
{
    if n == 0 {
        Seq::empty()
    } else {
        globals_code(module, (n - 1) as nat) + global_code(module, (n - 1) as u32)
    }
}

/// A global that the module defines, with an initial value.
pub open spec fn global_defined(module: Module, global: u32) -> bool {
    &&& module.imports.len_globals <= module.globals@.len()
    &&& global < (module.globals@.len() - module.imports.len_globals) as u32
    &&& global < module.globals_init@.len() as u32
}

/// Why an element segment cannot be translated for a table.
pub open spec fn segment_error(segment: ElementSegment, table: u32) -> Option<CompilerError> {
    match segment.kind {
        ElementSegmentKind::Passive | ElementSegmentKind::Declared => Some(
            CompilerError::NotSupported(
                "passive or declared mode for element segments is not supported",
            ),
        ),
        ElementSegmentKind::Active { table_index, .. } => if table_index == table && segment.ty
            != ValueType::FuncRef {
            Some(
                CompilerError::NotSupported("only funcref type is supported for element segments"),
            )
        } else {
            None
        },
    }
}

/// Why one of the first `n` element segments cannot be translated, the first such.
pub open spec fn segments_error(
    segments: Seq<ElementSegment>,
    table: u32,
    n: nat,
) -> Option<CompilerError>
    decreases n,
{
    if n == 0 {
        None
    } else {
        match segments_error(segments, table, (n - 1) as nat) {
            Some(error) => Some(error),
            None => segment_error(segments[n - 1], table),
        }
    }
}

/// Whether an element segment fills a table.
pub open spec fn segment_fills(segment: ElementSegment, table: u32) -> bool {
    match segment.kind {
        ElementSegmentKind::Active { table_index, .. } => table_index == table,
        _ => false,
    }
}

/// The number of items that the first `n` element segments have for a table.
pub open spec fn items_count(segments: Seq<ElementSegment>, table: u32, n: nat) -> nat
    decreases n,
{
    if n == 0 {
        0
    } else {
        let count = items_count(segments, table, (n - 1) as nat);
        if segment_fills(segments[n - 1], table) {
            count + segments[n - 1].items@.len()
        } else {
            count
        }
    }
}

/// The code for the first `n` items of an element segment with the offset `slot`.
pub open spec fn items_code(items: Seq<ConstExpr>, slot: u32, n: nat) -> Seq<Instruction>
    decreases n,
{
    if n == 0 {
        Seq::empty()
    } else {
        items_code(items, slot, (n - 1) as nat) + init_code(items[n - 1]).push(
            Instruction::TableSet(slot),
        )
    }
}

/// The code for an element segment, whose offset has to be a constant.
pub open spec fn segment_emitted(segment: ElementSegment, table: u32) -> Emitted {
    match segment.kind {
        ElementSegmentKind::Active { table_index, offset } => if table_index != table {
            Emitted { code: Seq::empty(), result: Ok(()) }
        } else {
            match offset.const_value() {
                Some(value) => Emitted {
                    code: items_code(segment.items@, value.bits as u32, segment.items@.len()),
                    result: Ok(()),
                },
                None => Emitted {
                    code: Seq::empty(),
                    result: Err(
                        CompilerError::NotSupported("only static global variables supported"),
                    ),
                },
            }
        },
        _ => Emitted { code: Seq::empty(), result: Ok(()) },
    }
}

/// The code for the first `n` element segments, up to one that cannot be translated.
pub open spec fn segments_emitted(segments: Seq<ElementSegment>, table: u32, n: nat) -> Emitted
    decreases n,
{
    if n == 0 {
        Emitted { code: Seq::empty(), result: Ok(()) }
    } else {
        let before = segments_emitted(segments, table, (n - 1) as nat);
        if before.result is Err {
            before
        } else {
            let last = segment_emitted(segments[n - 1], table);
            Emitted { code: before.code + last.code, result: last.result }
        }
    }
}

/// The code that makes room for the items of a table and sets them.
pub open spec fn table_emitted(module: Module, table: u32) -> Emitted {
    let segments = module.element_segments@;
    if module.tables@[table as int].element != ValueType::FuncRef {
        Emitted {
            code: Seq::empty(),
            result: Err(
                CompilerError::NotSupported("only funcref type is supported for tables"),
            ),
        }
    } else {
        match segments_error(segments, table, segments.len()) {
            Some(error) => Emitted { code: Seq::empty(), result: Err(error) },
            None => {
                let count = items_count(segments, table, segments.len());
                let items = segments_emitted(segments, table, segments.len());
                Emitted {
                    code: seq![
                        Instruction::I64Const(UntypedValue::of_u64(count as u64)),
                        Instruction::TableGrow(table),
                    ] + items.code,
                    result: items.result,
                }
            },
        }
    }
}

/// A table of the module, whose items can be counted.
pub open spec fn table_defined(module: Module, table: u32) -> bool {
    &&& table < module.tables@.len() as u32
    &&& items_count(module.element_segments@, table, module.element_segments@.len()) <= usize::MAX
}

/// The code for the first `n` tables, up to one that cannot be translated.
pub open spec fn tables_emitted(module: Module, n: nat) -> Emitted
    decreases n,
{
    if n == 0 {
        Emitted { code: Seq::empty(), result: Ok(()) }
    } else {
        let before = tables_emitted(module, (n - 1) as nat);
        if before.result is Err {
            before
        } else {
            let last = table_emitted(module, (n - 1) as u32);
            Emitted { code: before.code + last.code, result: last.result }
        }
    }
}

/// The code that writes a data segment, which has to lie in the one memory at a constant
/// offset.
pub open spec fn data_emitted(segment: DataSegment) -> Emitted {
    match segment.kind {
        DataSegmentKind::Active { memory_index, offset } => match offset.const_value() {
            Some(value) => if memory_index != 0 {
                Emitted {
                    code: Seq::empty(),
                    result: Err(CompilerError::NotSupported("not zero index")),
                }
            } else {
                Emitted {
                    code: memory_code(value.bits as u32, segment.bytes@, 0),
                    result: Ok(()),
                }
            },
            None => Emitted {
                code: Seq::empty(),
                result: Err(CompilerError::NotSupported("can't eval offset")),
            },
        },
        DataSegmentKind::Passive => Emitted {
            code: Seq::empty(),
            result: Err(CompilerError::NotSupported("passive mode is not supported")),
        },
    }
}

/// The code for the first `n` data segments, up to one that cannot be translated.
pub open spec fn memory_emitted(segments: Seq<DataSegment>, n: nat) -> Emitted
    decreases n,
{
    if n == 0 {
        Emitted { code: Seq::empty(), result: Ok(()) }
    } else {
        let before = memory_emitted(segments, (n - 1) as nat);
        if before.result is Err {
            before
        } else {
            let last = data_emitted(segments[n - 1]);
            Emitted { code: before.code + last.code, result: last.result }
        }
    }
}

// ---- Functions ----

/// The code that exchanges the top value with the one at a depth.
pub open spec fn swap_with_depth_code(depth: u32) -> Seq<Instruction> {
    seq![
        Instruction::LocalGet(depth),
        Instruction::LocalGet(1),
        Instruction::LocalSet((depth + 2) as u32),
        Instruction::LocalSet(1),
    ]
}

/// The code that exchanges the top value with those at the depths below `n`, the deepest
/// first.
pub open spec fn swap_code(n: nat) -> Seq<Instruction>
    decreases n,
{
    if n == 0 {
        Seq::empty()
    } else {
        swap_with_depth_code((n - 1) as u32) + swap_code((n - 1) as nat)
    }
}

/// The zeros that stand for the locals of a function when it begins.
pub open spec fn locals_code(n: nat) -> Seq<Instruction> {
    Seq::new(n, |i: int| Instruction::I32Const(UntypedValue::of_u32(0)))
}

/// The code of a branch over `skipped`: where the condition is zero, `skipped` is not run.
pub open spec fn skip_code(skipped: Seq<Instruction>) -> Seq<Instruction> {
    seq![Instruction::BrIfEqz(BranchOffset((1 + skipped.len()) as i32))] + skipped
}

/// What one instruction of a function body, with the operands that follow it, is translated
/// to, and where the next one is.
pub struct Step {
    pub emitted: Emitted,
    pub next: int,
}

impl Source {
    /// A call of an imported function.
    pub open spec fn host_call(self, func: u32) -> Result<Instruction, CompilerError> {
        let items = self.module.imports.items@;
        if func >= items.len() as u32 {
            Err(CompilerError::NotSupportedImport)
        } else {
            match items[func as int] {
                Imported::Func(name) => match self.linker {
                    Some(linker) => if linker.contains_key(name@) {
                        Ok(Instruction::Call(linker[name@]))
                    } else {
                        Err(CompilerError::UnknownImport(name))
                    },
                    None => Err(CompilerError::UnknownImport(name)),
                },
                _ => Err(CompilerError::NotSupportedImport),
            }
        }
    }

    /// The pair of a return that a branch or a call carries as an operand.
    pub open spec fn return_operand(body: Seq<Instruction>, pos: int) -> DropKeep
        recommends
            body[pos] is Return,
    {
        body[pos]->Return_0
    }

    /// Whether the body has a return at a place.
    pub open spec fn has_return(body: Seq<Instruction>, pos: int) -> bool {
        0 <= pos < body.len() && body[pos] is Return
    }

    /// Whether the instruction at `pos` can be translated when `len` instructions stand
    /// before its code: it has its operands, and it is no tail call of an import or through
    /// a table.
    pub open spec fn step_defined(self, len: nat, body: Seq<Instruction>, pos: int) -> bool {
        &&& 0 <= pos < body.len()
        &&& match body[pos] {
            Instruction::BrAdjust(_) => Self::has_return(body, pos + 1),
            Instruction::BrAdjustIfNez(_) => {
                &&& Self::has_return(body, pos + 1)
                &&& len + 1 + Self::return_operand(body, pos + 1).code().len() <= u32::MAX
            },
            Instruction::ReturnCallInternal(_) => Self::has_return(body, pos + 1),
            Instruction::ReturnCall(_) => false,
            Instruction::CallIndirect(_) => {
                &&& pos + 1 < body.len()
                &&& body[pos + 1] is TableGet
                &&& Self::has_return(body, pos + 3)
            },
            Instruction::ReturnCallIndirect(_) => false,
            Instruction::ReturnIfNez(dk) => len + 1 + dk.code().len() <= u32::MAX,
            Instruction::CallInternal(_) => len + 2 <= u32::MAX,
            Instruction::ConstRef(index) => index < self.engine.consts@.len(),
            _ => true,
        }
    }

    /// The translation of the instruction at `pos` when `len` instructions stand before its
    /// code.
    pub open spec fn step(
        self,
        len: nat,
        body: Seq<Instruction>,
        pos: int,
        is_main: bool,
    ) -> Step {
        match body[pos] {
            Instruction::BrAdjust(offset) => Step {
                emitted: Emitted {
                    code: Self::return_operand(body, pos + 1).code() + seq![
                        Instruction::Br(offset),
                        Instruction::Return(DropKeep::nothing()),
                    ],
                    result: Ok(()),
                },
                next: pos + 2,
            },
            Instruction::BrAdjustIfNez(offset) => Step {
                emitted: Emitted {
                    code: skip_code(Self::return_operand(body, pos + 1).code()) + seq![
                        Instruction::Br(offset),
                        Instruction::Return(DropKeep::nothing()),
                    ],
                    result: Ok(()),
                },
                next: pos + 2,
            },
            Instruction::ReturnCallInternal(_) => {
                let dk = DropKeepWithReturnParam(Self::return_operand(body, pos + 1));
                match dk.translation() {
                    Ok(code) => Step {
                        emitted: Emitted {
                            code: code.push(Instruction::BrIndirect),
                            result: Ok(()),
                        },
                        next: pos + 2,
                    },
                    Err(error) => Step {
                        emitted: Emitted { code: Seq::empty(), result: Err(error) },
                        next: pos + 1,
                    },
                }
            },
            Instruction::CallIndirect(_) => Step {
                emitted: Emitted {
                    code: Self::return_operand(body, pos + 3).code() + seq![
                        body[pos + 1],
                        Instruction::BrIndirect,
                    ],
                    result: Ok(()),
                },
                next: pos + 4,
            },
            Instruction::Return(dk) => if is_main {
                Step {
                    emitted: Emitted {
                        code: dk.code().push(Instruction::Return(DropKeep::nothing())),
                        result: Ok(()),
                    },
                    next: pos + 1,
                }
            } else {
                match DropKeepWithReturnParam(dk).translation() {
                    Ok(code) => Step {
                        emitted: Emitted {
                            code: code.push(Instruction::BrIndirect),
                            result: Ok(()),
                        },
                        next: pos + 1,
                    },
                    Err(error) => Step {
                        emitted: Emitted { code: Seq::empty(), result: Err(error) },
                        next: pos,
                    },
                }
            },
            Instruction::ReturnIfNez(dk) => Step {
                emitted: Emitted {
                    code: skip_code(dk.code()).push(Instruction::ReturnIfNez(DropKeep::nothing())),
                    result: Ok(()),
                },
                next: pos + 1,
            },
            Instruction::CallInternal(func) => Step {
                emitted: Emitted {
                    code: seq![
                        Instruction::I32Const(UntypedValue::of_u32((len + 2) as u32)),
                        Instruction::CallInternal(func),
                    ],
                    result: Ok(()),
                },
                next: pos + 1,
            },
            Instruction::Call(func) => match self.host_call(func) {
                Ok(call) => Step {
                    emitted: Emitted { code: seq![call], result: Ok(()) },
                    next: pos + 1,
                },
                Err(error) => Step {
                    emitted: Emitted { code: Seq::empty(), result: Err(error) },
                    next: pos,
                },
            },
            Instruction::ConstRef(index) => Step {
                emitted: Emitted {
                    code: seq![Instruction::I64Const(self.engine.consts@[index as int])],
                    result: Ok(()),
                },
                next: pos + 1,
            },
            _ => Step {
                emitted: Emitted { code: seq![body[pos]], result: Ok(()) },
                next: pos + 1,
            },
        }
    }

    /// A step that succeeds moves forward.
    pub proof fn lemma_step_moves(
        self,
        len: nat,
        body: Seq<Instruction>,
        pos: int,
        is_main: bool,
    )
        ensures
            ({
                let step = self.step(len, body, pos, is_main);
                step.emitted.result is Ok ==> pos < step.next <= pos + 4
            }),
    {
    }

    /// The code of a function body from `pos` on, when `len` instructions stand before it.
    pub open spec fn body_emitted(
        self,
        len: nat,
        body: Seq<Instruction>,
        pos: int,
        is_main: bool,
    ) -> Emitted
        decreases body.len() + 4 - pos,
    {
        if pos >= body.len() {
            Emitted { code: Seq::empty(), result: Ok(()) }
        } else {
            let step = self.step(len, body, pos, is_main);
            proof {
                self.lemma_step_moves(len, body, pos, is_main);
            }
            if step.emitted.result is Err {
                step.emitted
            } else {
                let rest = self.body_emitted(
                    len + step.emitted.code.len(),
                    body,
                    step.next,
                    is_main,
                );
                Emitted { code: step.emitted.code + rest.code, result: rest.result }
            }
        }
    }

    /// Whether a function body has a translation, beginning at `pos`: each instruction up to one
    /// that fails can, and the last one ends where the body does.
    pub open spec fn body_defined(
        self,
        len: nat,
        body: Seq<Instruction>,
        pos: int,
        is_main: bool,
    ) -> bool
        decreases body.len() + 4 - pos,
    {
        if pos >= body.len() {
            pos == body.len()
        } else {
            let step = self.step(len, body, pos, is_main);
            proof {
                self.lemma_step_moves(len, body, pos, is_main);
            }
            &&& self.step_defined(len, body, pos)
            &&& step.emitted.result is Ok ==> self.body_defined(
                len + step.emitted.code.len(),
                body,
                step.next,
                is_main,
            )
        }
    }

    /// Whether a function is imported. Such a function has no code.
    pub open spec fn is_imported(self, func: u32) -> bool {
        func < self.module.imports.len_funcs as u32
    }

    /// The index of a function among those with a body.
    pub open spec fn body_index(self, func: u32) -> int {
        func - self.module.imports.len_funcs as u32
    }

    /// The type of a function with a body.
    pub open spec fn type_index(self, func: u32) -> u32 {
        self.module.funcs@[self.body_index(func) + self.module.imports.len_funcs]
    }

    /// The number of parameters of a function with a body.
    pub open spec fn params_count(self, func: u32) -> u32 {
        self.engine.func_types@[self.type_index(func) as int].params@.len() as u32
    }

    /// The code that a function begins with: its parameters and its locals get their places.
    pub open spec fn prologue_code(self, func: u32) -> Seq<Instruction> {
        let body = self.module.compiled_funcs@[self.body_index(func)];
        swap_code(self.params_count(func) as nat) + locals_code(
            self.engine.func_bodies@[body as int].len_locals as nat,
        )
    }

    /// The code of a function with a body, when `len` instructions stand before it. Where
    /// the body is missing, only its parameters are given their places.
    pub open spec fn function_emitted(self, len: nat, func: u32, is_main: bool) -> Emitted {
        if self.body_index(func) >= self.module.compiled_funcs@.len() {
            Emitted {
                code: swap_code(self.params_count(func) as nat),
                result: Err(CompilerError::MissingFunction),
            }
        } else {
            let body = self.module.compiled_funcs@[self.body_index(func)];
            let prologue = self.prologue_code(func);
            let rest = self.body_emitted(
                len + prologue.len(),
                self.engine.body_code(body),
                0,
                is_main,
            );
            Emitted { code: prologue + rest.code, result: rest.result }
        }
    }

    /// A translation with the code of one more function, which is found from then on where
    /// its code begins. An imported function adds nothing.
    pub open spec fn with_function(self, before: Progress, func: u32, is_main: bool) -> Progress {
        if self.is_imported(func) {
            before
        } else {
            let emitted = self.function_emitted(before.code.len(), func, is_main);
            Progress {
                code: before.code + emitted.code,
                mapping: if emitted.result is Ok {
                    before.mapping.insert(self.body_index(func) as u32, before.code.len() as u32)
                } else {
                    before.mapping
                },
                result: emitted.result,
            }
        }
    }

    /// Whether a function can be translated when `len` instructions stand before it: it is
    /// imported, or its type is known and its body can be translated.
    pub open spec fn function_defined(self, len: nat, func: u32, is_main: bool) -> bool {
        self.is_imported(func) || {
            &&& self.body_index(func) + self.module.imports.len_funcs < self.module.funcs@.len()
            &&& self.type_index(func) < self.engine.func_types@.len()
            &&& self.params_count(func) < u32::MAX
            &&& self.body_index(func) < self.module.compiled_funcs@.len() ==> {
                let body = self.module.compiled_funcs@[self.body_index(func)];
                &&& body < self.engine.func_bodies@.len()
                &&& self.body_defined(
                    len + self.prologue_code(func).len(),
                    self.engine.body_code(body),
                    0,
                    is_main,
                )
            }
        }
    }

    // ---- The whole module ----

    /// The function that the module exports as `main`.
    pub open spec fn entrypoint(self) -> Option<u32> {
        match self.module.export("main"@) {
            Some(index) => index.func_idx(),
            None => None,
        }
    }

    /// A translation with the code for all globals, tables and data segments.
    pub open spec fn with_state(self, before: Progress) -> Progress {
        before.then_emit(
            Emitted {
                code: globals_code(self.module, self.module.globals@.len()),
                result: Ok(()),
            },
        ).then_emit(tables_emitted(self.module, self.module.tables@.len())).then_emit(
            memory_emitted(self.module.data_segments@, self.module.data_segments@.len()),
        )
    }

    /// A translation with the code of the first `n` functions but `main`, up to one that
    /// fails.
    pub open spec fn with_functions(self, before: Progress, main: u32, n: nat) -> Progress
        decreases n,
    {
        if n == 0 {
            before
        } else {
            let most = self.with_functions(before, main, (n - 1) as nat);
            if most.result is Err || n - 1 == main {
                most
            } else {
                self.with_function(most, (n - 1) as u32, false)
            }
        }
    }

    /// Functions behind one that cannot be translated add nothing.
    pub proof fn lemma_functions_stop(self, before: Progress, main: u32, few: nat, many: nat)
        requires
            few <= many,
        ensures
            self.with_functions(before, main, few).result is Err ==> self.with_functions(
                before,
                main,
                many,
            ) == self.with_functions(before, main, few),
        decreases many,
    {
        if few < many {
            self.lemma_functions_stop(before, main, few, (many - 1) as nat);
        }
    }

    /// A translation with the code of the whole module: first what sets up its globals,
    /// tables and memory, then the function `func`. Where no function is asked for, that is
    /// `main`, and all other functions follow it.
    pub open spec fn translated(self, before: Progress, func: Option<u32>) -> Progress {
        let state = self.with_state(before);
        if state.result is Err {
            state
        } else {
            match func {
                Some(func) => self.with_function(state, func, true),
                None => match self.entrypoint() {
                    Some(main) => {
                        let entry = self.with_function(state, main, true);
                        if entry.result is Err {
                            entry
                        } else {
                            self.with_functions(entry, main, self.module.funcs@.len())
                        }
                    },
                    None => Progress {
                        result: Err(CompilerError::MissingEntrypoint),
                        ..state
                    },
                },
            }
        }
    }

    /// Whether the functions that are translated after `main` can be.
    pub open spec fn functions_defined(self, before: Progress, main: u32) -> bool {
        forall|i: nat|
            i < self.module.funcs@.len() && i != main && (#[trigger] self.with_functions(
                before,
                main,
                i,
            )).result is Ok ==> self.function_defined(
                self.with_functions(before, main, i).code.len(),
                i as u32,
                false,
            )
    }

    /// Whether the globals are the module's own and have initial values, and the items of its
    /// tables can be counted.
    pub open spec fn state_defined(self) -> bool {
        &&& forall|i: nat|
            i < self.module.globals@.len() ==> #[trigger] global_defined(self.module, i as u32)
        &&& forall|i: nat|
            i < self.module.tables@.len() ==> #[trigger] table_defined(self.module, i as u32)
    }

    /// Whether a module can be translated, be it to code or to an error: its state can be set
    /// up, and each function that is reached can be translated.
    pub open spec fn translatable(self, before: Progress, func: Option<u32>) -> bool {
        let state = self.with_state(before);
        &&& self.state_defined()
        &&& state.result is Ok ==> match func {
            Some(func) => self.function_defined(state.code.len(), func, true),
            None => match self.entrypoint() {
                Some(main) => {
                    let entry = self.with_function(state, main, true);
                    &&& self.function_defined(state.code.len(), main, true)
                    &&& entry.result is Ok ==> self.functions_defined(entry, main)
                },
                None => true,
            },
        }
    }
}

} // verus!
