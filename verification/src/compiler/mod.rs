//! The compiler from a loaded module to bytecode.

pub mod drop_keep;
pub mod function_laws;
pub mod laws;
pub mod link;
pub mod link_laws;
pub mod setup_laws;
pub mod step_laws;
pub mod translation;

use crate::binary_format::BinaryFormatError;
use crate::common::UntypedValue;
use crate::common::ValueType;
use crate::compiler::drop_keep::lemma_drop_keep_len;
use crate::compiler::drop_keep::DropKeepWithReturnParam;
use crate::compiler::link::binary;
use crate::compiler::link::calls_resolved;
use crate::compiler::link::join;
use crate::compiler::link::layout;
use crate::compiler::link::lemma_joined_is_binary;
use crate::compiler::link::linkable;
use crate::compiler::link::patch;
use crate::compiler::link::resolve_calls;
use crate::compiler::translation::global_code;
use crate::compiler::translation::global_defined;
use crate::compiler::translation::globals_code;
use crate::compiler::translation::init_code;
use crate::compiler::translation::items_code;
use crate::compiler::translation::items_count;
use crate::compiler::translation::locals_code;
use crate::compiler::translation::memory_emitted;
use crate::compiler::translation::segments_emitted;
use crate::compiler::translation::segments_error;
use crate::compiler::translation::skip_code;
use crate::compiler::translation::swap_code;
use crate::compiler::translation::swap_with_depth_code;
use crate::compiler::translation::table_defined;
use crate::compiler::translation::table_emitted;
use crate::compiler::translation::tables_emitted;
use crate::compiler::translation::Progress;
use crate::compiler::translation::Source;
use crate::engine::Config;
use crate::engine::Engine;
use crate::engine::InstructionPtr;
use crate::import_linker::ImportLinker;
use crate::instruction::BranchOffset;
use crate::instruction::DropKeep;
use crate::instruction::Instruction;
use crate::instruction_set::InstructionSet;
use crate::module::ConstExpr;
use crate::module::DataSegment;
use crate::module::DataSegmentKind;
use crate::module::ElementSegment;
use crate::module::ElementSegmentKind;
use crate::module::ImportName;
use crate::module::Imported;
use crate::module::Module;
use std::collections::BTreeMap;
use vstd::prelude::*;

verus! {

/// Why a Wasm binary could not be loaded as a module.
#[derive(Debug, PartialEq, Eq)]
pub struct Error {
    pub message: String,
}

/// Why a module could not be compiled.
#[derive(Debug, PartialEq, Eq)]
pub enum CompilerError {
    /// The Wasm binary is not a module.
    ModuleError(Error),
    /// The module exports no function `main`.
    MissingEntrypoint,
    /// A function has no code.
    MissingFunction,
    /// The module uses a feature without a translation.
    NotSupported(&'static str),
    /// A jump leaves the code.
    OutOfBuffer,
    /// An instruction could not be written.
    BinaryFormat(BinaryFormatError),
    /// A call of an import that is not a function.
    NotSupportedImport,
    /// A call of an import that the linker does not know.
    UnknownImport(ImportName),
    /// Too many values to drop or keep.
    DropKeepOutOfBounds,
}

/// What translates itself to bytecode.
pub trait Translator {
    /// The bytecode, or why there is none.
    spec fn translation(&self) -> Result<Seq<Instruction>, CompilerError>;

    /// Adds the bytecode to `result`, which stays as it is where there is none.
    fn translate(&self, result: &mut InstructionSet) -> (r: Result<(), CompilerError>)
        ensures
            match self.translation() {
                Ok(code) => r is Ok && final(result)@ == old(result)@ + code,
                Err(error) => r == Err::<(), _>(error) && final(result)@ == old(result)@,
            },
    ;
}

/// A compiler of one module.
pub struct Compiler<'linker> {
    engine: Engine,
    module: Module,
    // translation state
    pub(crate) code_section: InstructionSet,
    function_mapping: BTreeMap<u32, u32>,
    import_linker: Option<&'linker ImportLinker>,
    is_translated: bool,
}

/// What the loading of a module starts from: an engine that holds nothing and does not
/// meter fuel.
pub open spec fn fresh_engine(engine: Engine) -> bool {
    &&& !engine.consume_fuel
    &&& engine.func_types@.len() == 0
    &&& engine.func_bodies@.len() == 0
    &&& engine.consts@.len() == 0
}

/// The host functions that a linker offers.
pub open spec fn linker_map(linker: Option<&ImportLinker>) -> Option<
    Map<(Seq<char>, Seq<char>), u32>,
> {
    match linker {
        Some(linker) => Some(linker@),
        None => None,
    }
}

impl<'linker> Compiler<'linker> {
    /// What is compiled.
    pub closed spec fn source(&self) -> Source {
        Source {
            engine: self.engine,
            module: self.module,
            linker: linker_map(self.import_linker),
        }
    }

    /// The code so far, and where in it each function begins.
    pub closed spec fn progress(&self) -> Progress {
        Progress {
            code: self.code_section@,
            mapping: self.function_mapping@,
            result: Ok(()),
        }
    }

    /// Whether the module has been translated.
    pub closed spec fn translated(&self) -> bool {
        self.is_translated
    }

    /// A compiler of a source that has translated nothing yet.
    pub open spec fn fresh(
        &self,
        engine: Engine,
        module: Module,
        linker: Option<&ImportLinker>,
    ) -> bool {
        &&& self.source() == Source { engine, module, linker: linker_map(linker) }
        &&& self.progress() == Progress {
            code: Seq::empty(),
            mapping: Map::empty(),
            result: Ok(()),
        }
        &&& !self.translated()
    }

    /// The compiler that a loaded module gives, or why there is none.
    pub open spec fn loaded_as(
        loaded: Result<(Engine, Module), Error>,
        linker: Option<&ImportLinker>,
        r: Result<Self, CompilerError>,
    ) -> bool {
        match loaded {
            Ok((engine, module)) => r is Ok && r->Ok_0.fresh(engine, module, linker),
            Err(error) => r == Err::<Self, _>(CompilerError::ModuleError(error)),
        }
    }

    /// The compiler that a Wasm binary gives, or why there is none, when `load` reads it into
    /// a fresh engine.
    pub open spec fn loaded_by<L: FnOnce(Engine, &[u8]) -> Result<(Engine, Module), Error>>(
        load: L,
        wasm_binary: &[u8],
        linker: Option<&ImportLinker>,
        r: Result<Self, CompilerError>,
    ) -> bool {
        exists|engine: Engine, loaded: Result<(Engine, Module), Error>|
            {
                &&& fresh_engine(engine)
                &&& #[trigger] call_ensures(load, (engine, wasm_binary), loaded)
                &&& Self::loaded_as(loaded, linker, r)
            }
    }

    /// Whether two outcomes are the same: the same error, or compilers of the same source that
    /// have got equally far.
    pub open spec fn same_outcome(
        one: Result<Self, CompilerError>,
        other: Result<Self, CompilerError>,
    ) -> bool {
        match (one, other) {
            (Ok(one), Ok(other)) => {
                &&& one.source() == other.source()
                &&& one.progress() == other.progress()
                &&& one.translated() == other.translated()
            },
            (Err(one), Err(other)) => one == other,
            _ => false,
        }
    }

    /// A compiler holds no error of its own: a translation that begins with its code begins
    /// without one.
    pub proof fn lemma_progress_is_ok(&self)
        ensures
            self.progress().result is Ok,
    {
    }

    /// The same compiler with `code` added to its code.
    pub open spec fn grown(&self, before: &Self, code: Seq<Instruction>) -> bool {
        &&& self.source() == before.source()
        &&& self.progress() == Progress {
            code: before.progress().code + code,
            ..before.progress()
        }
        &&& self.translated() == before.translated()
    }

    /// Makes a compiler that knows no host functions.
    pub fn new<L: FnOnce(Engine, &[u8]) -> Result<(Engine, Module), Error>>(
        wasm_binary: &[u8],
        load: L,
    ) -> (r: Result<Self, CompilerError>)
        requires
            forall|engine: Engine|
                fresh_engine(engine) ==> call_requires(load, (engine, wasm_binary)),
        ensures
            Self::loaded_by(load, wasm_binary, None, r),
    {
        Self::new_with_linker(wasm_binary, load, None)
    }

    /// Makes a compiler of a Wasm binary. `load` reads the binary into an engine without fuel
    /// metering.
    pub fn new_with_linker<L: FnOnce(Engine, &[u8]) -> Result<(Engine, Module), Error>>(
        wasm_binary: &[u8],
        load: L,
        import_linker: Option<&'linker ImportLinker>,
    ) -> (r: Result<Self, CompilerError>)
        requires
            forall|engine: Engine|
                fresh_engine(engine) ==> call_requires(load, (engine, wasm_binary)),
        ensures
            Self::loaded_by(load, wasm_binary, import_linker, r),
    {
        let mut config: Config = Config::default();
        config.consume_fuel(false);
        let engine: Engine = Engine::new(&config);
        let ghost fresh = engine;
        assert(fresh_engine(fresh));
        let loaded: Result<(Engine, Module), Error> = load(engine, wasm_binary);
        let ghost copy = loaded;
        let r: Result<Self, CompilerError> = Self::from_loaded(loaded, import_linker);
        assert(call_ensures(load, (fresh, wasm_binary), copy));
        r
    }

    /// Makes a compiler of a module that has been loaded, or not.
    pub fn from_loaded(
        loaded: Result<(Engine, Module), Error>,
        import_linker: Option<&'linker ImportLinker>,
    ) -> (r: Result<Self, CompilerError>)
        ensures
            Self::loaded_as(loaded, import_linker, r),
    {
        match loaded {
            Ok((engine, module)) => Ok(
                Compiler {
                    engine,
                    module,
                    code_section: InstructionSet::new(),
                    function_mapping: BTreeMap::new(),
                    import_linker,
                    is_translated: false,
                },
            ),
            Err(error) => Err(CompilerError::ModuleError(error)),
        }
    }

    /// The code so far.
    pub fn code_section(&self) -> (code: &InstructionSet)
        ensures
            code@ == self.progress().code,
    {
        &self.code_section
    }

    /// Adds the code that writes the data segments into the memory.
    pub fn translate_memory(&mut self) -> (r: Result<(), CompilerError>)
        ensures
            ({
                let segments = old(self).source().module.data_segments@;
                let emitted = memory_emitted(segments, segments.len());
                r == emitted.result && final(self).grown(old(self), emitted.code)
            }),
    {
        let len: usize = self.module.data_segments.len();
        let mut i: usize = 0;
        assert(self.code_section@ =~= old(self).code_section@ + Seq::<Instruction>::empty());
        while i < len
            invariant
                i <= len == self.module.data_segments@.len(),
                memory_emitted(self.module.data_segments@, i as nat).result is Ok,
                self.grown(
                    old(self),
                    memory_emitted(self.module.data_segments@, i as nat).code,
                ),
            decreases len - i,
        {
            let ghost segments = self.module.data_segments@;
            proof {
                lemma_memory_stops(segments, (i + 1) as nat, len as nat);
            }
            let ghost before = memory_emitted(segments, i as nat).code;
            assert(before + Seq::<Instruction>::empty() =~= before);
            let offset: UntypedValue = match self.module.data_segments[i].kind {
                DataSegmentKind::Active { memory_index, offset } => {
                    let data_offset: UntypedValue = match offset.eval_const() {
                        Some(value) => value,
                        None => {
                            return Err(CompilerError::NotSupported("can't eval offset"));
                        },
                    };
                    if memory_index != 0 {
                        return Err(CompilerError::NotSupported("not zero index"));
                    }
                    data_offset
                },
                DataSegmentKind::Passive => {
                    return Err(CompilerError::NotSupported("passive mode is not supported"));
                },
            };
            let offset: u32 = offset.to_bits() as u32;
            self.code_section.add_memory(offset, &self.module.data_segments[i].bytes);
            i += 1;
            assert(self.code_section@ =~= old(self).code_section@ + memory_emitted(
                segments,
                i as nat,
            ).code);
        }
        Ok(())
    }

    /// Adds the code that initializes a global.
    pub fn translate_global(&mut self, global_index: u32) -> (r: Result<(), CompilerError>)
        requires
            global_defined(old(self).source().module, global_index),
        ensures
            r is Ok,
            final(self).grown(
                old(self),
                global_code(old(self).source().module, global_index),
            ),
    {
        let global_expr: ConstExpr = self.module.globals_init[global_index as usize];
        if let Some(value) = global_expr.eval_const() {
            self.code_section.op_i64_const(value);
        } else if let Some(value) = global_expr.funcref() {
            self.code_section.op_ref_func(value);
        }
        self.code_section.op_global_set(global_index);
        assert(self.code_section@ =~= old(self).code_section@ + global_code(
            old(self).module,
            global_index,
        ));
        Ok(())
    }

    /// The value of an expression that has to be a constant.
    pub fn translate_const_expr(&self, const_expr: &ConstExpr) -> (r: Result<
        UntypedValue,
        CompilerError,
    >)
        ensures
            r == match const_expr.const_value() {
                Some(value) => Ok::<_, CompilerError>(value),
                None => Err(CompilerError::NotSupported("only static global variables supported")),
            },
    {
        match const_expr.eval_const() {
            Some(value) => Ok(value),
            None => Err(CompilerError::NotSupported("only static global variables supported")),
        }
    }

    /// Adds the code that makes room for the items of a table and sets them.
    pub fn translate_table(&mut self, table_index: u32) -> (r: Result<(), CompilerError>)
        requires
            table_defined(old(self).source().module, table_index),
        ensures
            ({
                let emitted = table_emitted(old(self).source().module, table_index);
                r == emitted.result && final(self).grown(old(self), emitted.code)
            }),
    {
        assert(self.code_section@ =~= old(self).code_section@ + Seq::<Instruction>::empty());
        if self.module.tables[table_index as usize].element != ValueType::FuncRef {
            return Err(CompilerError::NotSupported("only funcref type is supported for tables"));
        }
        let ghost segments = self.module.element_segments@;
        let len: usize = self.module.element_segments.len();
        let mut table_init_size: usize = 0;
        let mut i: usize = 0;
        while i < len
            invariant
                i <= len == self.module.element_segments@.len(),
                *self == *old(self),
                segments == self.module.element_segments@,
                self.code_section@ == old(self).code_section@ + Seq::<Instruction>::empty(),
                table_index < self.module.tables@.len(),
                self.module.tables@[table_index as int].element == ValueType::FuncRef,
                segments_error(segments, table_index, i as nat) is None,
                table_init_size == items_count(segments, table_index, i as nat),
                items_count(segments, table_index, len as nat) <= usize::MAX,
            decreases len - i,
        {
            proof {
                lemma_segments_error_stays(segments, table_index, (i + 1) as nat, len as nat);
                lemma_items_count_grows(segments, table_index, (i + 1) as nat, len as nat);
            }
            match self.module.element_segments[i].kind {
                ElementSegmentKind::Passive | ElementSegmentKind::Declared => {
                    return Err(
                        CompilerError::NotSupported(
                            "passive or declared mode for element segments is not supported",
                        ),
                    );
                },
                ElementSegmentKind::Active { table_index: filled, .. } => {
                    if filled == table_index {
                        if self.module.element_segments[i].ty != ValueType::FuncRef {
                            return Err(
                                CompilerError::NotSupported(
                                    "only funcref type is supported for element segments",
                                ),
                            );
                        }
                        table_init_size += self.module.element_segments[i].items.len();
                    }
                },
            }
            i += 1;
        }
        self.code_section.op_i64_const(UntypedValue::from_u64(table_init_size as u64));
        self.code_section.op_table_grow(table_index);
        let ghost grown = self.code_section@;
        assert(grown =~= old(self).code_section@ + seq![
            Instruction::I64Const(
                UntypedValue::of_u64(
                    items_count(segments, table_index, len as nat) as u64,
                ),
            ),
            Instruction::TableGrow(table_index),
        ]);
        let mut i: usize = 0;
        while i < len
            invariant
                i <= len == segments.len(),
                segments == self.module.element_segments@,
                self.source() == old(self).source(),
                self.translated() == old(self).translated(),
                self.function_mapping@ == old(self).function_mapping@,
                segments_error(segments, table_index, len as nat) is None,
                segments_emitted(segments, table_index, i as nat).result is Ok,
                self.code_section@ =~= grown + segments_emitted(
                    segments,
                    table_index,
                    i as nat,
                ).code,
                table_index < self.module.tables@.len(),
                self.module.tables@[table_index as int].element == ValueType::FuncRef,
                grown == old(self).code_section@ + seq![
                    Instruction::I64Const(
                        UntypedValue::of_u64(
                            items_count(segments, table_index, len as nat) as u64,
                        ),
                    ),
                    Instruction::TableGrow(table_index),
                ],
            decreases len - i,
        {
            proof {
                lemma_segments_error_stays(segments, table_index, (i + 1) as nat, len as nat);
                lemma_segments_stop(segments, table_index, (i + 1) as nat, len as nat);
            }
            match self.module.element_segments[i].kind {
                ElementSegmentKind::Passive | ElementSegmentKind::Declared => {
                    return Err(
                        CompilerError::NotSupported(
                            "passive or declared mode for element segments is not supported",
                        ),
                    );
                },
                ElementSegmentKind::Active { table_index: filled, offset } => {
                    if filled == table_index {
                        if self.module.element_segments[i].ty != ValueType::FuncRef {
                            return Err(
                                CompilerError::NotSupported(
                                    "only funcref type is supported for element segments",
                                ),
                            );
                        }
                        let table_idx: UntypedValue = match self.translate_const_expr(&offset) {
                            Ok(value) => value,
                            Err(error) => {
                                assert(self.code_section@ =~= old(self).code_section@
                                    + table_emitted(old(self).module, table_index).code);
                                return Err(error);
                            },
                        };
                        let slot: u32 = table_idx.to_bits() as u32;
                        self.translate_items(i, slot);
                    }
                },
            }
            i += 1;
            assert(self.code_section@ =~= grown + segments_emitted(
                segments,
                table_index,
                i as nat,
            ).code);
        }
        assert(self.code_section@ =~= old(self).code_section@ + table_emitted(
            old(self).module,
            table_index,
        ).code);
        Ok(())
    }

    /// Adds the code for the items of an element segment with the offset `slot`.
    fn translate_items(&mut self, segment: usize, slot: u32)
        requires
            segment < old(self).source().module.element_segments@.len(),
        ensures
            ({
                let items = old(self).source().module.element_segments@[segment as int].items@;
                final(self).grown(old(self), items_code(items, slot, items.len()))
            }),
    {
        let len: usize = self.module.element_segments[segment].items.len();
        let mut k: usize = 0;
        assert(self.code_section@ =~= old(self).code_section@ + Seq::<Instruction>::empty());
        while k < len
            invariant
                segment < self.module.element_segments@.len(),
                k <= len == self.module.element_segments@[segment as int].items@.len(),
                self.grown(
                    old(self),
                    items_code(
                        self.module.element_segments@[segment as int].items@,
                        slot,
                        k as nat,
                    ),
                ),
            decreases len - k,
        {
            let ghost before = self.code_section@;
            let item: ConstExpr = self.module.element_segments[segment].items[k];
            if let Some(value) = item.eval_const() {
                self.code_section.op_i64_const(value);
            } else if let Some(value) = item.funcref() {
                self.code_section.op_ref_func(value);
            }
            self.code_section.op_table_set(slot);
            assert(self.code_section@ =~= before + init_code(item).push(
                Instruction::TableSet(slot),
            ));
            k += 1;
            assert(self.code_section@ =~= old(self).code_section@ + items_code(
                self.module.element_segments@[segment as int].items@,
                slot,
                k as nat,
            ));
        }
    }

    /// Adds the code that exchanges the top value with the one at a depth.
    pub fn swap_with_depth(&mut self, depth: u32)
        requires
            depth + 2 <= u32::MAX,
        ensures
            final(self).grown(old(self), swap_with_depth_code(depth)),
    {
        self.code_section.op_local_get(depth);
        self.code_section.op_local_get(1);
        self.code_section.op_local_set(depth + 2);
        self.code_section.op_local_set(1);
        assert(self.code_section@ =~= old(self).code_section@ + swap_with_depth_code(depth));
    }

    /// Adds the code that exchanges the top value with those at the depths below
    /// `param_num`, the deepest first.
    pub fn swap(&mut self, param_num: u32)
        requires
            param_num < u32::MAX,
        ensures
            final(self).grown(old(self), swap_code(param_num as nat)),
    {
        let mut left: u32 = param_num;
        while left > 0
            invariant
                left <= param_num < u32::MAX,
                self.source() == old(self).source(),
                self.translated() == old(self).translated(),
                self.function_mapping@ == old(self).function_mapping@,
                self.code_section@ + swap_code(left as nat) =~= old(self).code_section@
                    + swap_code(param_num as nat),
            decreases left,
        {
            left -= 1;
            self.swap_with_depth(left);
        }
        assert(self.code_section@ + swap_code(0) =~= self.code_section@);
    }

    /// Adds the call of an imported function.
    pub fn translate_host_call(&mut self, fn_index: u32) -> (r: Result<(), CompilerError>)
        ensures
            match old(self).source().host_call(fn_index) {
                Ok(call) => r is Ok && final(self).grown(old(self), seq![call]),
                Err(error) => r == Err::<(), _>(error) && *final(self) == *old(self),
            },
    {
        if fn_index >= self.module.imports.items.len() as u32 {
            return Err(CompilerError::NotSupportedImport);
        }
        let import_index: Option<u32> = match &self.module.imports.items[fn_index as usize] {
            Imported::Func(import_name) => {
                let found: Option<u32> = match self.import_linker {
                    Some(linker) => linker.get(import_name),
                    None => None,
                };
                if found.is_none() {
                    return Err(CompilerError::UnknownImport(import_name.clone()));
                }
                found
            },
            _ => {
                return Err(CompilerError::NotSupportedImport);
            },
        };
        if let Some(import_index) = import_index {
            self.code_section.op_call(import_index);
        }
        assert(self.code_section@ =~= old(self).code_section@ + seq![
            old(self).source().host_call(fn_index)->Ok_0,
        ]);
        Ok(())
    }

    /// Moves to the return that an instruction carries as an operand, and gives its pair.
    fn extract_drop_keep(
        engine: &Engine,
        instr_ptr: &mut InstructionPtr,
        ptr_offset: usize,
    ) -> (drop_keep: DropKeep)
        requires
            old(instr_ptr).body < engine.func_bodies@.len(),
            Source::has_return(
                engine.body_code(old(instr_ptr).body),
                old(instr_ptr).pos + ptr_offset,
            ),
        ensures
            final(instr_ptr).body == old(instr_ptr).body,
            final(instr_ptr).pos == old(instr_ptr).pos + ptr_offset,
            drop_keep == Source::return_operand(
                engine.body_code(old(instr_ptr).body),
                old(instr_ptr).pos + ptr_offset,
            ),
    {
        proof {
            lemma_body_len(*engine, instr_ptr.body);
        }
        instr_ptr.add(ptr_offset);
        match instr_ptr.get(engine) {
            Instruction::Return(drop_keep) => drop_keep,
            _ => DropKeep::none(),
        }
    }

    /// Moves to the table access that an instruction carries as an operand, and gives its
    /// table.
    fn extract_table(engine: &Engine, instr_ptr: &mut InstructionPtr) -> (table: u32)
        requires
            old(instr_ptr).body < engine.func_bodies@.len(),
            old(instr_ptr).pos + 1 < engine.body_code(old(instr_ptr).body).len(),
            engine.body_code(old(instr_ptr).body)[old(instr_ptr).pos + 1] is TableGet,
        ensures
            final(instr_ptr).body == old(instr_ptr).body,
            final(instr_ptr).pos == old(instr_ptr).pos + 1,
            Instruction::TableGet(table) == engine.body_code(
                old(instr_ptr).body,
            )[old(instr_ptr).pos + 1],
    {
        proof {
            lemma_body_len(*engine, instr_ptr.body);
        }
        instr_ptr.add(1);
        match instr_ptr.get(engine) {
            Instruction::TableGet(table) => table,
            _ => 0,
        }
    }

    /// Adds the code that drops and keeps values, behind a branch over it.
    fn translate_skipped(&mut self, drop_keep: DropKeep)
        requires
            old(self).progress().code.len() + 1 + drop_keep.code().len() <= u32::MAX,
        ensures
            final(self).grown(old(self), skip_code(drop_keep.code())),
    {
        proof {
            lemma_drop_keep_len(drop_keep);
        }
        let br_if_offset: u32 = self.code_section.len();
        self.code_section.op_br_if_eqz(BranchOffset::from_i32(0));
        let _ = drop_keep.translate(&mut self.code_section);
        let drop_keep_len: u32 = self.code_section.len() - br_if_offset - 1;
        let mut branch: Instruction = self.code_section.instr[br_if_offset as usize];
        branch.update_branch_offset(BranchOffset::from_i32(1 + drop_keep_len as i32));
        self.code_section.instr.set(br_if_offset as usize, branch);
        assert(self.code_section@ =~= old(self).code_section@ + skip_code(drop_keep.code()));
    }

    /// Adds the code of the instruction at `instr_ptr`, and moves on to the next.
    pub fn translate_opcode(
        &mut self,
        instr_ptr: &mut InstructionPtr,
        is_main: bool,
    ) -> (r: Result<(), CompilerError>)
        requires
            old(instr_ptr).body < old(self).source().engine.func_bodies@.len(),
            old(self).source().step_defined(
                old(self).progress().code.len(),
                old(self).source().engine.body_code(old(instr_ptr).body),
                old(instr_ptr).pos as int,
            ),
        ensures
            ({
                let step = old(self).source().step(
                    old(self).progress().code.len(),
                    old(self).source().engine.body_code(old(instr_ptr).body),
                    old(instr_ptr).pos as int,
                    is_main,
                );
                &&& r == step.emitted.result
                &&& final(self).grown(old(self), step.emitted.code)
                &&& final(instr_ptr).body == old(instr_ptr).body
                &&& final(instr_ptr).pos == step.next
            }),
    {
        let ghost source = self.source();
        let ghost body = self.engine.body_code(instr_ptr.body);
        let ghost pos = instr_ptr.pos as int;
        let ghost before = self.code_section@;
        let ghost step = source.step(before.len(), body, pos, is_main);
        proof {
            lemma_body_len(self.engine, instr_ptr.body);
        }
        assert(before + Seq::<Instruction>::empty() =~= before);
        match instr_ptr.get(&self.engine) {
            Instruction::BrAdjust(branch_offset) => {
                let drop_keep: DropKeep = Self::extract_drop_keep(&self.engine, instr_ptr, 1);
                let _ = drop_keep.translate(&mut self.code_section);
                self.code_section.op_br(branch_offset);
                self.code_section.op_return();
            },
            Instruction::BrAdjustIfNez(branch_offset) => {
                let drop_keep: DropKeep = Self::extract_drop_keep(&self.engine, instr_ptr, 1);
                self.translate_skipped(drop_keep);
                self.code_section.op_br(branch_offset);
                self.code_section.op_return();
            },
            Instruction::ReturnCallInternal(_) => {
                let drop_keep: DropKeep = Self::extract_drop_keep(&self.engine, instr_ptr, 1);
                match DropKeepWithReturnParam(drop_keep).translate(&mut self.code_section) {
                    Ok(_) => {},
                    Err(error) => {
                        return Err(error);
                    },
                }
                self.code_section.op_br_indirect();
            },
            Instruction::CallIndirect(_) => {
                let table_idx: u32 = Self::extract_table(&self.engine, instr_ptr);
                let drop_keep: DropKeep = Self::extract_drop_keep(&self.engine, instr_ptr, 2);
                let _ = drop_keep.translate(&mut self.code_section);
                self.code_section.op_table_get(table_idx);
                self.code_section.op_br_indirect();
            },
            Instruction::Return(drop_keep) => {
                if is_main {
                    let _ = drop_keep.translate(&mut self.code_section);
                    self.code_section.op_return();
                } else {
                    match DropKeepWithReturnParam(drop_keep).translate(&mut self.code_section) {
                        Ok(_) => {},
                        Err(error) => {
                            return Err(error);
                        },
                    }
                    self.code_section.op_br_indirect();
                }
            },
            Instruction::ReturnIfNez(drop_keep) => {
                self.translate_skipped(drop_keep);
                self.code_section.op_return_if_nez();
            },
            Instruction::CallInternal(func_idx) => {
                let target: u32 = self.code_section.len() + 2;
                self.code_section.op_i32_const(target);
                self.code_section.op_call_internal(func_idx);
            },
            Instruction::Call(func_idx) => {
                match self.translate_host_call(func_idx) {
                    Ok(_) => {},
                    Err(error) => {
                        return Err(error);
                    },
                }
            },
            Instruction::ConstRef(const_ref) => {
                if let Some(resolved_const) = self.engine.resolve_const(const_ref) {
                    self.code_section.op_i64_const(resolved_const);
                }
            },
            instr => {
                self.code_section.push(instr);
            },
        }
        instr_ptr.add(1);
        assert(self.code_section@ =~= before + step.emitted.code);
        Ok(())
    }

    /// Adds the code of a function, and remembers where it begins. An imported function has
    /// none.
    pub fn translate_function(&mut self, fn_index: u32, is_main: bool) -> (r: Result<
        (),
        CompilerError,
    >)
        requires
            old(self).source().function_defined(
                old(self).progress().code.len(),
                fn_index,
                is_main,
            ),
        ensures
            ({
                let after = old(self).source().with_function(
                    old(self).progress(),
                    fn_index,
                    is_main,
                );
                &&& r == after.result
                &&& final(self).progress() == Progress { result: Ok(()), ..after }
                &&& final(self).source() == old(self).source()
                &&& final(self).translated() == old(self).translated()
            }),
    {
        let ghost source = self.source();
        let ghost start = self.code_section@;
        let import_len: usize = self.module.imports.len_funcs;
        if fn_index < import_len as u32 {
            return Ok(());
        }
        let total_fns: usize = self.module.funcs.len();
        let body_index: u32 = fn_index - import_len as u32;
        assert(source.body_index(fn_index) + import_len < total_fns);
        let func_type: u32 = self.module.funcs[body_index as usize + import_len];
        let num_inputs: u32 = self.engine.resolve_func_type(func_type).params.len() as u32;
        let beginning_offset: u32 = self.code_section.len();

        self.swap(num_inputs);

        if body_index as usize >= self.module.compiled_funcs.len() {
            return Err(CompilerError::MissingFunction);
        }
        let func_body: u32 = self.module.compiled_funcs[body_index as usize];

        // reserve stack for locals
        let len_locals: usize = self.engine.num_locals(func_body);
        let ghost swapped = self.code_section@;
        let mut i: usize = 0;
        while i < len_locals
            invariant
                i <= len_locals,
                self.source() == source,
                self.translated() == old(self).translated(),
                self.function_mapping@ == old(self).function_mapping@,
                self.code_section@ =~= swapped + locals_code(i as nat),
            decreases len_locals - i,
        {
            self.code_section.op_i32_const(0);
            i += 1;
        }
        assert(self.code_section@ =~= start + source.prologue_code(fn_index));

        // translate instructions
        let (mut instr_ptr, instr_end) = self.engine.instr_ptr(func_body);
        let ghost body = self.engine.body_code(func_body);
        let ghost prologue = source.prologue_code(fn_index);
        let ghost whole = source.body_emitted(
            start.len() + prologue.len(),
            body,
            0,
            is_main,
        );
        assert(prologue + Seq::<Instruction>::empty() =~= prologue);
        let ghost mut done: Seq<Instruction> = Seq::empty();
        while instr_ptr != instr_end
            invariant
                self.source() == source,
                self.translated() == old(self).translated(),
                self.function_mapping@ == old(self).function_mapping@,
                body == source.engine.body_code(func_body),
                func_body < source.engine.func_bodies@.len(),
                instr_ptr.body == func_body,
                instr_end.body == func_body,
                instr_end.pos == body.len(),
                whole == source.body_emitted(start.len() + prologue.len(), body, 0, is_main),
                self.code_section@ =~= start + (prologue + done),
                source.body_defined(
                    self.code_section@.len(),
                    body,
                    instr_ptr.pos as int,
                    is_main,
                ),
                ({
                    let rest = source.body_emitted(
                        self.code_section@.len(),
                        body,
                        instr_ptr.pos as int,
                        is_main,
                    );
                    whole.code == done + rest.code && whole.result == rest.result
                }),
                old(self).source() == source,
                old(self).progress().code == start,
                !source.is_imported(fn_index),
                source.body_index(fn_index) < source.module.compiled_funcs@.len(),
                func_body == source.module.compiled_funcs@[source.body_index(fn_index)],
                prologue == source.prologue_code(fn_index),
            decreases body.len() - instr_ptr.pos,
        {
            let ghost len = self.code_section@.len();
            let ghost pos = instr_ptr.pos as int;
            let ghost step = source.step(len, body, pos, is_main);
            proof {
                source.lemma_step_moves(len, body, pos, is_main);
            }
            match self.translate_opcode(&mut instr_ptr, is_main) {
                Ok(_) => {},
                Err(error) => {
                    assert(self.code_section@ =~= start + (prologue + whole.code));
                    return Err(error);
                },
            }
            proof {
                let rest = source.body_emitted(
                    len + step.emitted.code.len(),
                    body,
                    step.next,
                    is_main,
                );
                assert(done + (step.emitted.code + rest.code) =~= (done + step.emitted.code)
                    + rest.code);
                done = done + step.emitted.code;
            }
        }
        assert(whole.code =~= done);
        // remember function offset in the mapping
        self.function_mapping.insert(body_index, beginning_offset);
        Ok(())
    }

    /// Adds the code that sets up the globals, tables and memory.
    fn translate_state(&mut self) -> (r: Result<(), CompilerError>)
        requires
            old(self).source().state_defined(),
        ensures
            ({
                let after = old(self).source().with_state(old(self).progress());
                &&& r == after.result
                &&& final(self).progress() == Progress { result: Ok(()), ..after }
                &&& final(self).source() == old(self).source()
                &&& final(self).translated() == old(self).translated()
            }),
    {
        let ghost source = self.source();
        let ghost start = self.progress();
        let total_globals: usize = self.module.globals.len();
        let mut i: usize = 0;
        assert(start.code + globals_code(source.module, 0) =~= start.code);
        while i < total_globals
            invariant
                i <= total_globals == source.module.globals@.len(),
                self.grown(old(self), globals_code(source.module, i as nat)),
                source == old(self).source(),
                forall|k: nat|
                    k < total_globals ==> #[trigger] global_defined(source.module, k as u32),
            decreases total_globals - i,
        {
            assert(global_defined(source.module, (i as nat) as u32));
            let _ = self.translate_global(i as u32);
            i += 1;
            assert(self.code_section@ =~= old(self).code_section@ + globals_code(
                source.module,
                i as nat,
            ));
        }
        let ghost globals = self.progress();
        let total_tables: usize = self.module.tables.len();
        let mut i: usize = 0;
        assert(globals.code + Seq::<Instruction>::empty() =~= globals.code);
        while i < total_tables
            invariant
                i <= total_tables == source.module.tables@.len(),
                tables_emitted(source.module, i as nat).result is Ok,
                self.source() == source,
                self.translated() == old(self).translated(),
                self.progress() == (Progress {
                    code: globals.code + tables_emitted(source.module, i as nat).code,
                    ..globals
                }),
                source == old(self).source(),
                start == old(self).progress(),
                globals == (Progress {
                    code: start.code + globals_code(source.module, source.module.globals@.len()),
                    ..start
                }),
                globals.result is Ok,
                forall|k: nat|
                    k < total_tables ==> #[trigger] table_defined(source.module, k as u32),
            decreases total_tables - i,
        {
            proof {
                lemma_tables_stop(source.module, (i + 1) as nat, total_tables as nat);
            }
            assert(table_defined(source.module, (i as nat) as u32));
            let table: Result<(), CompilerError> = self.translate_table(i as u32);
            i += 1;
            assert(self.code_section@ =~= globals.code + tables_emitted(
                source.module,
                i as nat,
            ).code);
            match table {
                Ok(_) => {},
                Err(error) => {
                    return Err(error);
                },
            }
        }
        self.translate_memory()
    }

    /// Adds the code of all functions but `main_index`.
    fn translate_others(&mut self, main_index: u32) -> (r: Result<(), CompilerError>)
        requires
            old(self).source().functions_defined(old(self).progress(), main_index),
        ensures
            ({
                let after = old(self).source().with_functions(
                    old(self).progress(),
                    main_index,
                    old(self).source().module.funcs@.len(),
                );
                &&& r == after.result
                &&& final(self).progress() == Progress { result: Ok(()), ..after }
                &&& final(self).source() == old(self).source()
                &&& final(self).translated() == old(self).translated()
            }),
    {
        let ghost source = self.source();
        let ghost entry = self.progress();
        let total_fns: usize = self.module.funcs.len();
        let mut i: usize = 0;
        while i < total_fns
            invariant
                i <= total_fns == source.module.funcs@.len(),
                self.source() == source,
                self.translated() == old(self).translated(),
                source == old(self).source(),
                entry == old(self).progress(),
                source.functions_defined(entry, main_index),
                self.progress() == source.with_functions(entry, main_index, i as nat),
            decreases total_fns - i,
        {
            proof {
                source.lemma_functions_stop(entry, main_index, (i + 1) as nat, total_fns as nat);
            }
            let ghost before = self.progress();
            if i != main_index as usize {
                match self.translate_function(i as u32, false) {
                    Ok(done) => {
                        assert(done == ());
                        assert(self.progress() == source.with_function(before, i as u32, false));
                    },
                    Err(error) => {
                        return Err(error);
                    },
                }
            }
            i += 1;
        }
        Ok(())
    }

    /// Translates the module: what sets up its globals, tables and memory, then the function
    /// `fn_idx`, or `main` and all other functions where none is given.
    pub fn translate(&mut self, fn_idx: Option<u32>) -> (r: Result<(), CompilerError>)
        requires
            !old(self).translated(),
            old(self).source().translatable(old(self).progress(), fn_idx),
        ensures
            ({
                let after = old(self).source().translated(old(self).progress(), fn_idx);
                &&& r == after.result
                &&& final(self).progress() == Progress { result: Ok(()), ..after }
                &&& final(self).source() == old(self).source()
                &&& final(self).translated() == (r is Ok)
            }),
    {
        // translate globals, tables and memory
        let ghost source = self.source();
        let ghost state = source.with_state(self.progress());
        match self.translate_state() {
            Ok(done) => {
                assert(done == ());
                assert(self.progress() == state);
            },
            Err(error) => {
                return Err(error);
            },
        }
        if let Some(fn_idx) = fn_idx {
            match self.translate_function(fn_idx, true) {
                Ok(done) => {
                    assert(done == ());
                },
                Err(error) => {
                    return Err(error);
                },
            }
        } else {
            // find main entrypoint
            let main_index: u32 = match self.module.get_export("main") {
                Some(index) => match index.into_func_idx() {
                    Some(main_index) => main_index,
                    None => {
                        return Err(CompilerError::MissingEntrypoint);
                    },
                },
                None => {
                    return Err(CompilerError::MissingEntrypoint);
                },
            };
            // translate main entrypoint
            match self.translate_function(main_index, true) {
                Ok(done) => {
                    assert(done == ());
                    assert(self.progress() == source.with_function(state, main_index, true));
                },
                Err(error) => {
                    return Err(error);
                },
            }
            match self.translate_others(main_index) {
                Ok(done) => {
                    assert(done == ());
                },
                Err(error) => {
                    return Err(error);
                },
            }
        }
        // there is no need to inject because code is already validated
        self.code_section.finalize(false);
        self.is_translated = true;
        Ok(())
    }

    /// The translation that is turned into bytes: the one so far, or else that of the whole
    /// module.
    pub open spec fn ready(&self) -> Progress {
        if self.translated() {
            self.progress()
        } else {
            self.source().translated(self.progress(), None)
        }
    }

    /// Whether the module can be turned into bytes, be it with success or not.
    pub open spec fn finalizable(&self) -> bool {
        &&& !self.translated() ==> self.source().translatable(self.progress(), None)
        &&& self.ready().result is Ok ==> linkable(self.ready().code, self.ready().mapping)
    }

    /// The bytes that the module is turned into, or why there are none.
    pub open spec fn output(&self) -> Result<Seq<u8>, CompilerError> {
        let ready = self.ready();
        let code = calls_resolved(ready.code, ready.mapping);
        match ready.result {
            Ok(_) => binary(code, ready.mapping, code.len()),
            Err(error) => Err(error),
        }
    }

    /// The same compiler once it has turned the module into bytes: the module is translated
    /// and its internal calls are branches. Where it could not be translated, the code up to
    /// there is left.
    pub open spec fn finalized(&self, before: &Self) -> bool {
        let ready = before.ready();
        &&& self.source() == before.source()
        &&& self.translated() == (ready.result is Ok)
        &&& self.progress() == match ready.result {
            Ok(_) => Progress { code: calls_resolved(ready.code, ready.mapping), ..ready },
            Err(_) => Progress { result: Ok(()), ..ready },
        }
    }

    /// Turns the module into bytes. It is translated first, unless it has been.
    pub fn finalize(&mut self) -> (r: Result<Vec<u8>, CompilerError>)
        requires
            old(self).finalizable(),
        ensures
            final(self).finalized(old(self)),
            match old(self).output() {
                Ok(bytes) => r is Ok && r->Ok_0@ == bytes,
                Err(error) => r == Err::<Vec<u8>, _>(error),
            },
    {
        let ghost ready = self.ready();
        if !self.is_translated {
            match self.translate(None) {
                Ok(done) => {
                    assert(done == ());
                },
                Err(error) => {
                    return Err(error);
                },
            }
        }
        assert(self.progress() == ready);
        let ghost code = calls_resolved(ready.code, ready.mapping);
        resolve_calls(&mut self.code_section.instr, &self.function_mapping);
        let mut states: Vec<(u32, u32, Vec<u8>)> = match layout(&self.code_section.instr) {
            Ok(states) => states,
            Err(error) => {
                return Err(error);
            },
        };
        match patch(&self.code_section.instr, &self.function_mapping, &mut states) {
            Ok(_) => {},
            Err(error) => {
                return Err(error);
            },
        }
        let res: Vec<u8> = join(&states);
        proof {
            lemma_joined_is_binary(code, ready.mapping, states@, code.len());
        }
        Ok(res)
    }
}

/// The length of a function body fits in a machine word.
proof fn lemma_body_len(engine: Engine, body: u32)
    ensures
        engine.body_code(body).len() <= usize::MAX,
{
    assert(engine.func_bodies@[body as int].instrs.len() == engine.body_code(body).len());
}

/// Tables behind one that cannot be translated add nothing.
proof fn lemma_tables_stop(module: Module, few: nat, many: nat)
    requires
        few <= many,
    ensures
        tables_emitted(module, few).result is Err ==> tables_emitted(module, many)
            == tables_emitted(module, few),
    decreases many,
{
    if few < many {
        lemma_tables_stop(module, few, (many - 1) as nat);
    }
}

/// Data segments behind one that cannot be translated add nothing.
proof fn lemma_memory_stops(segments: Seq<DataSegment>, few: nat, many: nat)
    requires
        few <= many,
    ensures
        memory_emitted(segments, few).result is Err ==> memory_emitted(segments, many)
            == memory_emitted(segments, few),
    decreases many,
{
    if few < many {
        lemma_memory_stops(segments, few, (many - 1) as nat);
    }
}

/// The first error of few element segments is that of more of them.
proof fn lemma_segments_error_stays(
    segments: Seq<ElementSegment>,
    table: u32,
    few: nat,
    many: nat,
)
    requires
        few <= many,
    ensures
        segments_error(segments, table, few) is Some ==> segments_error(segments, table, many)
            == segments_error(segments, table, few),
    decreases many,
{
    if few < many {
        lemma_segments_error_stays(segments, table, few, (many - 1) as nat);
    }
}

/// More element segments have no fewer items.
proof fn lemma_items_count_grows(
    segments: Seq<ElementSegment>,
    table: u32,
    few: nat,
    many: nat,
)
    requires
        few <= many,
    ensures
        items_count(segments, table, few) <= items_count(segments, table, many),
    decreases many,
{
    if few < many {
        lemma_items_count_grows(segments, table, few, (many - 1) as nat);
    }
}

/// Element segments behind one that cannot be translated add nothing.
proof fn lemma_segments_stop(
    segments: Seq<ElementSegment>,
    table: u32,
    few: nat,
    many: nat,
)
    requires
        few <= many,
    ensures
        segments_emitted(segments, table, few).result is Err ==> segments_emitted(
            segments,
            table,
            many,
        ) == segments_emitted(segments, table, few),
    decreases many,
{
    if few < many {
        lemma_segments_stop(segments, table, few, (many - 1) as nat);
    }
}

} // verus!
