//! The tree that a module decodes to: sections, their entries and instructions.
//! Every node that stands for bytes of the source buffer records their span.
#![allow(non_camel_case_types)]
use vstd::prelude::*;

verus! {

/// A decoded payload with the half-open byte range `[start_offset, end_offset)`
/// that it occupied in the source buffer. Nodes built in memory have an empty
/// range at zero.
#[derive(Debug, Clone, Copy)]
pub struct Value<T> {
    pub value: T,
    pub start_offset: usize,
    pub end_offset: usize,
}

impl<T> Value<T> {
    /// A node that is not tied to source bytes.
    pub fn new(value: T) -> (r: Self)
        ensures
            r.value == value,
            r.start_offset == 0,
            r.end_offset == 0,
    {
        Value { start_offset: 0, end_offset: 0, value }
    }
}

#[derive(Debug, Clone, Copy, PartialEq, Eq, Structural)]
pub enum NumType {
    I32,
    I64,
    F32,
    F64,
}

#[derive(Debug, Clone, Copy, PartialEq, Eq, Structural)]
pub enum ValueType {
    NumType(NumType),
}

#[derive(Debug, Clone, Copy, PartialEq, Eq, Structural)]
pub enum Reftype {
    Func,
    Extern,
}

#[derive(Debug, Clone, Copy, PartialEq, Eq, Structural)]
pub struct Limits {
    pub min: u32,
    pub max: Option<u32>,
}

/// A linear memory: its initial size in pages, kept with its span so that it
/// can be patched in place, and an optional maximum.
#[derive(Debug, Clone, Copy)]
pub struct Memory {
    pub initial_memory: Value<u32>,
    pub max: Option<u32>,
}

#[derive(Debug, Clone, Copy, PartialEq, Eq, Structural)]
pub struct Table {
    pub reftype: Reftype,
    pub limits: Limits,
}

/// A run of `count` locals of one value type.
#[derive(Debug, Clone, Copy, PartialEq, Eq, Structural)]
pub struct CodeLocal {
    pub count: u32,
    pub value_type: ValueType,
}

/// One function body: its size prefix, its locals and its instructions
/// (without the closing `end`).
#[derive(Debug)]
pub struct Code {
    pub size: Value<u32>,
    pub locals: Vec<CodeLocal>,
    pub body: Value<Vec<Value<Instr>>>,
}

#[derive(Debug, Clone)]
pub struct Type {
    pub params: Vec<ValueType>,
    pub results: Vec<ValueType>,
}

#[derive(Debug, Clone, Copy, PartialEq, Eq, Structural)]
pub struct GlobalType {
    pub valtype: ValueType,
    pub mutable: bool,
}

#[derive(Debug)]
pub struct Global {
    pub global_type: GlobalType,
    pub expr: Vec<Value<Instr>>,
}

#[derive(Debug, Clone)]
pub enum ImportType {
    Func(u32),
    Table(Table),
    Memory(Memory),
    Global(GlobalType),
}

#[derive(Debug, Clone)]
pub struct Import {
    pub module: Vec<u8>,
    pub name: Vec<u8>,
    pub import_type: ImportType,
}

#[derive(Debug, Clone, Copy, PartialEq, Eq, Structural)]
pub enum ExportDescr {
    Func(u32),
    Table(u32),
    Memory(u32),
    Global(u32),
}

#[derive(Debug, Clone)]
pub struct Export {
    pub name: Vec<u8>,
    pub descr: ExportDescr,
}

/// An active segment of memory 0: its offset expression and its bytes.
#[derive(Debug)]
pub struct DataSegment {
    pub offset: Value<Vec<Value<Instr>>>,
    pub bytes: Vec<u8>,
}

/// The offset expression of a data segment is a single `i32.const`.
pub open spec fn data_offset_literal(d: DataSegment) -> bool {
    d.offset.value@.len() == 1 && d.offset.value@[0].value is i32_const
}

impl DataSegment {
    /// The literal base offset of the segment.
    pub fn compute_offset(&self) -> (r: i64)
        requires
            data_offset_literal(*self),
        ensures
            self.offset.value@[0].value == Instr::i32_const(r),
    {
        match &self.offset.value[0].value {
            Instr::i32_const(v) => *v,
            _ => 0,
        }
    }
}

/// An instruction. `Block`, `Loop` and `If` own their nested instructions
/// (without the closing `end`); floating-point immediates are kept as the
/// bits of their IEEE 754 representation.
#[derive(Debug)]
pub enum Instr {
    unreachable,
    nop,
    Block(u8, Vec<Value<Instr>>),
    Loop(u8, Vec<Value<Instr>>),
    If(u8, Vec<Value<Instr>>),
    else_end,
    br(u32),
    br_if(u32),
    br_table(Vec<u32>, u32),
    Return,
    call(u32),
    call_indirect(u32, u32),
    drop,
    select,
    local_get(u32),
    local_set(u32),
    local_tee(u32),
    global_get(u32),
    global_set(u32),
    table_get(u32),
    table_set(u32),
    i32_load(u32, u32),
    i64_load(u32, u32),
    f32_load(u32, u32),
    f64_load(u32, u32),
    i32_load8_s(u32, u32),
    i32_load8_u(u32, u32),
    i32_load16_s(u32, u32),
    i32_load16_u(u32, u32),
    i64_load8_s(u32, u32),
    i64_load8_u(u32, u32),
    i64_load16_s(u32, u32),
    i64_load16_u(u32, u32),
    i64_load32_s(u32, u32),
    i64_load32_u(u32, u32),
    i32_store(u32, u32),
    i64_store(u32, u32),
    f32_store(u32, u32),
    f64_store(u32, u32),
    i32_store8(u32, u32),
    i32_store16(u32, u32),
    i64_store8(u32, u32),
    i64_store16(u32, u32),
    i64_store32(u32, u32),
    memory_size(u8),
    memory_grow(u8),
    i32_const(i64),
    i64_const(i64),
    f32_const(u32),
    f64_const(u64),
    i32_eqz,
    i32_eq,
    i32_ne,
    i32_lt_s,
    i32_lt_u,
    i32_gt_s,
    i32_gt_u,
    i32_le_s,
    i32_le_u,
    i32_ge_s,
    i32_ge_u,
    i64_eqz,
    i64_eq,
    i64_ne,
    i64_lt_s,
    i64_lt_u,
    i64_gt_s,
    i64_gt_u,
    i64_le_s,
    i64_le_u,
    i64_ge_s,
    i64_ge_u,
    f32_eq,
    f32_ne,
    f32_lt,
    f32_gt,
    f32_le,
    f32_ge,
    f64_eq,
    f64_ne,
    f64_lt,
    f64_gt,
    f64_le,
    f64_ge,
    i32_clz,
    i32_ctz,
    i32_popcnt,
    i32_add,
    i32_sub,
    i32_mul,
    i32_div_s,
    i32_div_u,
    i32_rem_s,
    i32_rem_u,
    i32_and,
    i32_or,
    i32_xor,
    i32_shl,
    i32_shr_s,
    i32_shr_u,
    i32_rotl,
    i32_rotr,
    i64_clz,
    i64_ctz,
    i64_popcnt,
    i64_add,
    i64_sub,
    i64_mul,
    i64_div_s,
    i64_div_u,
    i64_rem_s,
    i64_rem_u,
    i64_and,
    i64_or,
    i64_xor,
    i64_shl,
    i64_shr_s,
    i64_shr_u,
    i64_rotl,
    i64_rotr,
    f32_abs,
    f32_neg,
    f32_ceil,
    f32_floor,
    f32_trunc,
    f32_nearest,
    f32_sqrt,
    f32_add,
    f32_sub,
    f32_mul,
    f32_div,
    f32_min,
    f32_max,
    f32_copysign,
    f64_abs,
    f64_neg,
    f64_ceil,
    f64_floor,
    f64_trunc,
    f64_nearest,
    f64_sqrt,
    f64_add,
    f64_sub,
    f64_mul,
    f64_div,
    f64_min,
    f64_max,
    f64_copysign,
    i32_wrap_i64,
    i32_trunc_f32_s,
    i32_trunc_f32_u,
    i32_trunc_f64_s,
    i32_trunc_f64_u,
    i64_extend_i32_s,
    i64_extend_i32_u,
    i64_trunc_f32_s,
    i64_trunc_f32_u,
    i64_trunc_f64_s,
    i64_trunc_f64_u,
    f32_convert_i32_s,
    f32_convert_i32_u,
    f32_convert_i64_s,
    f32_convert_i64_u,
    f32_demote_f64,
    f64_convert_i32_s,
    f64_convert_i32_u,
    f64_convert_i64_s,
    f64_convert_i64_u,
    f64_promote_f32,
    i32_reinterpret_f32,
    i64_reinterpret_f64,
    f32_reinterpret_i32,
    f64_reinterpret_i64,
    i32_extend8_s,
    i32_extend16_s,
    i64_extend8_s,
    i64_extend16_s,
    i64_extend32_s,
}

/// A top-level section with its declared size, or an unrecognised one kept
/// as its id, declared size and raw payload.
#[derive(Debug)]
pub enum Section {
    Type(Value<u32>, Vec<Type>),
    Import(Value<u32>, Vec<Import>),
    Func(Value<u32>, Vec<u32>),
    Table(Value<u32>, Vec<Table>),
    Memory(Value<u32>, Vec<Memory>),
    Global(Value<u32>, Vec<Global>),
    Export(Value<u32>, Vec<Export>),
    Code(Value<u32>, Vec<Code>),
    Data(Value<u32>, Vec<DataSegment>),
    Unknown(u8, u32, Vec<u8>),
}

#[derive(Debug)]
pub struct Module {
    pub sections: Vec<Section>,
}

} // verus!
