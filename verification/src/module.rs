//! A loaded Wasm module.

use crate::common::UntypedValue;
use crate::common::ValueType;
use vstd::prelude::*;

verus! {

/// The two-part name of an import.
#[derive(Debug, PartialEq, Eq)]
pub struct ImportName {
    pub module: String,
    pub field: String,
}

impl View for ImportName {
    type V = (Seq<char>, Seq<char>);

    open spec fn view(&self) -> (Seq<char>, Seq<char>) {
        (self.module@, self.field@)
    }
}

impl Clone for ImportName {
    fn clone(&self) -> (name: ImportName)
        ensures
            name == *self,
    {
        ImportName { module: self.module.clone(), field: self.field.clone() }
    }
}

impl ImportName {
    /// Whether two names are the same.
    pub fn same(&self, other: &ImportName) -> (r: bool)
        ensures
            r == (self@ == other@),
    {
        self.module == other.module && self.field == other.field
    }
}

/// An import, by its name.
pub enum Imported {
    Func(ImportName),
    Table(ImportName),
    Memory(ImportName),
    Global(ImportName),
}

/// The imports of a module, and how many of them are functions and globals.
pub struct ModuleImports {
    pub items: Vec<Imported>,
    pub len_funcs: usize,
    pub len_globals: usize,
}

/// What an export refers to.
#[derive(Clone, Copy, Debug, PartialEq, Eq, Structural)]
pub enum ExternIdx {
    Func(u32),
    Table(u32),
    Memory(u32),
    Global(u32),
}

impl ExternIdx {
    /// The function that is meant, where it is one.
    pub open spec fn func_idx(self) -> Option<u32> {
        match self {
            ExternIdx::Func(index) => Some(index),
            _ => None,
        }
    }

    pub fn into_func_idx(self) -> (index: Option<u32>)
        ensures
            index == self.func_idx(),
    {
        match self {
            ExternIdx::Func(index) => Some(index),
            _ => None,
        }
    }
}

/// An expression that initializes a global, an element or an offset.
#[derive(Clone, Copy, Debug, PartialEq, Eq, Structural)]
pub enum ConstExpr {
    /// A constant.
    Const(UntypedValue),
    /// A reference to a function.
    FuncRef(u32),
    /// The value of an imported global, which is known at link time only.
    GlobalGet(u32),
}

impl ConstExpr {
    /// The value, where it is a constant.
    pub open spec fn const_value(self) -> Option<UntypedValue> {
        match self {
            ConstExpr::Const(value) => Some(value),
            _ => None,
        }
    }

    /// The function, where it is a reference to one.
    pub open spec fn func_ref(self) -> Option<u32> {
        match self {
            ConstExpr::FuncRef(func) => Some(func),
            _ => None,
        }
    }

    pub fn eval_const(&self) -> (value: Option<UntypedValue>)
        ensures
            value == self.const_value(),
    {
        match *self {
            ConstExpr::Const(value) => Some(value),
            _ => None,
        }
    }

    pub fn funcref(&self) -> (func: Option<u32>)
        ensures
            func == self.func_ref(),
    {
        match *self {
            ConstExpr::FuncRef(func) => Some(func),
            _ => None,
        }
    }
}

/// When a data segment is written, and where.
#[derive(Clone, Copy, Debug, PartialEq, Eq, Structural)]
pub enum DataSegmentKind {
    Active { memory_index: u32, offset: ConstExpr },
    Passive,
}

/// Bytes for a linear memory.
pub struct DataSegment {
    pub kind: DataSegmentKind,
    pub bytes: Vec<u8>,
}

/// When an element segment is written, and where.
#[derive(Clone, Copy, Debug, PartialEq, Eq, Structural)]
pub enum ElementSegmentKind {
    Passive,
    Declared,
    Active { table_index: u32, offset: ConstExpr },
}

/// Items for a table.
pub struct ElementSegment {
    pub kind: ElementSegmentKind,
    pub ty: ValueType,
    pub items: Vec<ConstExpr>,
}

/// A table, by the type of its elements.
#[derive(Clone, Copy, Debug, PartialEq, Eq, Structural)]
pub struct TableType {
    pub element: ValueType,
}

/// A loaded module.
///
/// Functions, tables and globals have one index space each, in which what is imported comes
/// first. Of each function `funcs` holds the index of its type, and of each function with a
/// body `compiled_funcs` holds the index of the body. Exports have different names; else the
/// first one with a name counts.
pub struct Module {
    pub imports: ModuleImports,
    pub funcs: Vec<u32>,
    pub compiled_funcs: Vec<u32>,
    pub tables: Vec<TableType>,
    pub globals: Vec<ValueType>,
    pub globals_init: Vec<ConstExpr>,
    pub exports: Vec<(String, ExternIdx)>,
    pub element_segments: Vec<ElementSegment>,
    pub data_segments: Vec<DataSegment>,
}

/// What a name is exported as, among the first `n` exports.
pub open spec fn export_among(
    exports: Seq<(String, ExternIdx)>,
    name: Seq<char>,
    n: nat,
) -> Option<ExternIdx>
    decreases n,
{
    if n == 0 {
        None
    } else {
        match export_among(exports, name, (n - 1) as nat) {
            Some(found) => Some(found),
            None => if exports[n - 1].0@ == name {
                Some(exports[n - 1].1)
            } else {
                None
            },
        }
    }
}

impl Module {
    /// What a name is exported as.
    pub open spec fn export(&self, name: Seq<char>) -> Option<ExternIdx> {
        export_among(self.exports@, name, self.exports@.len())
    }

    /// Looks up an export by its name.
    pub fn get_export(&self, name: &str) -> (found: Option<ExternIdx>)
        ensures
            found == self.export(name@),
    {
        let wanted: String = name.to_owned();
        let len: usize = self.exports.len();
        let mut i: usize = 0;
        while i < len
            invariant
                i <= len == self.exports@.len(),
                wanted@ == name@,
                export_among(self.exports@, name@, i as nat) is None,
            decreases len - i,
        {
            if self.exports[i].0 == wanted {
                let found: ExternIdx = self.exports[i].1;
                proof {
                    lemma_export_found(self.exports@, name@, (i + 1) as nat, len as nat);
                }
                return Some(found);
            }
            i += 1;
        }
        None
    }
}

/// What has been found among the first exports is what is found among more of them.
proof fn lemma_export_found(
    exports: Seq<(String, ExternIdx)>,
    name: Seq<char>,
    few: nat,
    many: nat,
)
    requires
        few <= many,
        export_among(exports, name, few) is Some,
    ensures
        export_among(exports, name, many) == export_among(exports, name, few),
    decreases many,
{
    if few < many {
        lemma_export_found(exports, name, few, (many - 1) as nat);
    }
}

} // verus!
