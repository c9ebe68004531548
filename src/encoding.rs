//! The wire format as spec functions: the bytes that each node of the tree
//! stands for. The encoder produces exactly these bytes and the decoder
//! accepts only input that they reproduce.
use vstd::prelude::*;
use crate::ast::{
    Code, CodeLocal, DataSegment, Export, ExportDescr, Global, GlobalType, Import, ImportType, Instr,
    Memory, Module, NumType, Reftype, Section, Table, Type, Value, ValueType,
};
use crate::leb::{uleb, sleb};

verus! {

pub open spec fn magic_and_version() -> Seq<u8> {
    seq![0x00u8, 0x61u8, 0x73u8, 0x6du8, 0x01u8, 0x00u8, 0x00u8, 0x00u8]
}

/// Little-endian bytes of a 32-bit word.
pub open spec fn le32(v: u32) -> Seq<u8> {
    seq![(v & 0xff) as u8, ((v >> 8u32) & 0xff) as u8, ((v >> 16u32) & 0xff) as u8, ((v >> 24u32) & 0xff) as u8]
}

/// Little-endian bytes of a 64-bit word.
pub open spec fn le64(v: u64) -> Seq<u8> {
    le32((v & 0xffff_ffff) as u32) + le32((v >> 32u64) as u32)
}

/// The concatenation of `f` over the items of `s`, in order.
pub open spec fn concat_map<T>(s: Seq<T>, f: spec_fn(T) -> Seq<u8>) -> Seq<u8>
    decreases s.len(),
{
    if s.len() == 0 {
        Seq::empty()
    } else {
        concat_map(s.drop_last(), f) + f(s.last())
    }
}

/// A vector: its length, then its items.
pub open spec fn vec_bytes<T>(s: Seq<T>, f: spec_fn(T) -> Seq<u8>) -> Seq<u8> {
    uleb(s.len()) + concat_map(s, f)
}

pub open spec fn u32_bytes(v: u32) -> Seq<u8> {
    uleb(v as nat)
}

/// The operation byte of an instruction.
pub open spec fn opcode(i: Instr) -> u8 {
    match i {
        Instr::unreachable => 0x00,
        Instr::nop => 0x01,
        Instr::Block(..) => 0x02,
        Instr::Loop(..) => 0x03,
        Instr::If(..) => 0x04,
        Instr::else_end => 0x05,
        Instr::br(..) => 0x0c,
        Instr::br_if(..) => 0x0d,
        Instr::br_table(..) => 0x0e,
        Instr::Return => 0x0f,
        Instr::call(..) => 0x10,
        Instr::call_indirect(..) => 0x11,
        Instr::drop => 0x1a,
        Instr::select => 0x1b,
        Instr::local_get(..) => 0x20,
        Instr::local_set(..) => 0x21,
        Instr::local_tee(..) => 0x22,
        Instr::global_get(..) => 0x23,
        Instr::global_set(..) => 0x24,
        Instr::table_get(..) => 0x25,
        Instr::table_set(..) => 0x26,
        Instr::i32_load(..) => 0x28,
        Instr::i64_load(..) => 0x29,
        Instr::f32_load(..) => 0x2a,
        Instr::f64_load(..) => 0x2b,
        Instr::i32_load8_s(..) => 0x2c,
        Instr::i32_load8_u(..) => 0x2d,
        Instr::i32_load16_s(..) => 0x2e,
        Instr::i32_load16_u(..) => 0x2f,
        Instr::i64_load8_s(..) => 0x30,
        Instr::i64_load8_u(..) => 0x31,
        Instr::i64_load16_s(..) => 0x32,
        Instr::i64_load16_u(..) => 0x33,
        Instr::i64_load32_s(..) => 0x34,
        Instr::i64_load32_u(..) => 0x35,
        Instr::i32_store(..) => 0x36,
        Instr::i64_store(..) => 0x37,
        Instr::f32_store(..) => 0x38,
        Instr::f64_store(..) => 0x39,
        Instr::i32_store8(..) => 0x3a,
        Instr::i32_store16(..) => 0x3b,
        Instr::i64_store8(..) => 0x3c,
        Instr::i64_store16(..) => 0x3d,
        Instr::i64_store32(..) => 0x3e,
        Instr::memory_size(..) => 0x3f,
        Instr::memory_grow(..) => 0x40,
        Instr::i32_const(..) => 0x41,
        Instr::i64_const(..) => 0x42,
        Instr::f32_const(..) => 0x43,
        Instr::f64_const(..) => 0x44,
        Instr::i32_eqz => 0x45,
        Instr::i32_eq => 0x46,
        Instr::i32_ne => 0x47,
        Instr::i32_lt_s => 0x48,
        Instr::i32_lt_u => 0x49,
        Instr::i32_gt_s => 0x4a,
        Instr::i32_gt_u => 0x4b,
        Instr::i32_le_s => 0x4c,
        Instr::i32_le_u => 0x4d,
        Instr::i32_ge_s => 0x4e,
        Instr::i32_ge_u => 0x4f,
        Instr::i64_eqz => 0x50,
        Instr::i64_eq => 0x51,
        Instr::i64_ne => 0x52,
        Instr::i64_lt_s => 0x53,
        Instr::i64_lt_u => 0x54,
        Instr::i64_gt_s => 0x55,
        Instr::i64_gt_u => 0x56,
        Instr::i64_le_s => 0x57,
        Instr::i64_le_u => 0x58,
        Instr::i64_ge_s => 0x59,
        Instr::i64_ge_u => 0x5a,
        Instr::f32_eq => 0x5b,
        Instr::f32_ne => 0x5c,
        Instr::f32_lt => 0x5d,
        Instr::f32_gt => 0x5e,
        Instr::f32_le => 0x5f,
        Instr::f32_ge => 0x60,
        Instr::f64_eq => 0x61,
        Instr::f64_ne => 0x62,
        Instr::f64_lt => 0x63,
        Instr::f64_gt => 0x64,
        Instr::f64_le => 0x65,
        Instr::f64_ge => 0x66,
        Instr::i32_clz => 0x67,
        Instr::i32_ctz => 0x68,
        Instr::i32_popcnt => 0x69,
        Instr::i32_add => 0x6a,
        Instr::i32_sub => 0x6b,
        Instr::i32_mul => 0x6c,
        Instr::i32_div_s => 0x6d,
        Instr::i32_div_u => 0x6e,
        Instr::i32_rem_s => 0x6f,
        Instr::i32_rem_u => 0x70,
        Instr::i32_and => 0x71,
        Instr::i32_or => 0x72,
        Instr::i32_xor => 0x73,
        Instr::i32_shl => 0x74,
        Instr::i32_shr_s => 0x75,
        Instr::i32_shr_u => 0x76,
        Instr::i32_rotl => 0x77,
        Instr::i32_rotr => 0x78,
        Instr::i64_clz => 0x79,
        Instr::i64_ctz => 0x7a,
        Instr::i64_popcnt => 0x7b,
        Instr::i64_add => 0x7c,
        Instr::i64_sub => 0x7d,
        Instr::i64_mul => 0x7e,
        Instr::i64_div_s => 0x7f,
        Instr::i64_div_u => 0x80,
        Instr::i64_rem_s => 0x81,
        Instr::i64_rem_u => 0x82,
        Instr::i64_and => 0x83,
        Instr::i64_or => 0x84,
        Instr::i64_xor => 0x85,
        Instr::i64_shl => 0x86,
        Instr::i64_shr_s => 0x87,
        Instr::i64_shr_u => 0x88,
        Instr::i64_rotl => 0x89,
        Instr::i64_rotr => 0x8a,
        Instr::f32_abs => 0x8b,
        Instr::f32_neg => 0x8c,
        Instr::f32_ceil => 0x8d,
        Instr::f32_floor => 0x8e,
        Instr::f32_trunc => 0x8f,
        Instr::f32_nearest => 0x90,
        Instr::f32_sqrt => 0x91,
        Instr::f32_add => 0x92,
        Instr::f32_sub => 0x93,
        Instr::f32_mul => 0x94,
        Instr::f32_div => 0x95,
        Instr::f32_min => 0x96,
        Instr::f32_max => 0x97,
        Instr::f32_copysign => 0x98,
        Instr::f64_abs => 0x99,
        Instr::f64_neg => 0x9a,
        Instr::f64_ceil => 0x9b,
        Instr::f64_floor => 0x9c,
        Instr::f64_trunc => 0x9d,
        Instr::f64_nearest => 0x9e,
        Instr::f64_sqrt => 0x9f,
        Instr::f64_add => 0xa0,
        Instr::f64_sub => 0xa1,
        Instr::f64_mul => 0xa2,
        Instr::f64_div => 0xa3,
        Instr::f64_min => 0xa4,
        Instr::f64_max => 0xa5,
        Instr::f64_copysign => 0xa6,
        Instr::i32_wrap_i64 => 0xa7,
        Instr::i32_trunc_f32_s => 0xa8,
        Instr::i32_trunc_f32_u => 0xa9,
        Instr::i32_trunc_f64_s => 0xaa,
        Instr::i32_trunc_f64_u => 0xab,
        Instr::i64_extend_i32_s => 0xac,
        Instr::i64_extend_i32_u => 0xad,
        Instr::i64_trunc_f32_s => 0xae,
        Instr::i64_trunc_f32_u => 0xaf,
        Instr::i64_trunc_f64_s => 0xb0,
        Instr::i64_trunc_f64_u => 0xb1,
        Instr::f32_convert_i32_s => 0xb2,
        Instr::f32_convert_i32_u => 0xb3,
        Instr::f32_convert_i64_s => 0xb4,
        Instr::f32_convert_i64_u => 0xb5,
        Instr::f32_demote_f64 => 0xb6,
        Instr::f64_convert_i32_s => 0xb7,
        Instr::f64_convert_i32_u => 0xb8,
        Instr::f64_convert_i64_s => 0xb9,
        Instr::f64_convert_i64_u => 0xba,
        Instr::f64_promote_f32 => 0xbb,
        Instr::i32_reinterpret_f32 => 0xbc,
        Instr::i64_reinterpret_f64 => 0xbd,
        Instr::f32_reinterpret_i32 => 0xbe,
        Instr::f64_reinterpret_i64 => 0xbf,
        Instr::i32_extend8_s => 0xc0,
        Instr::i32_extend16_s => 0xc1,
        Instr::i64_extend8_s => 0xc2,
        Instr::i64_extend16_s => 0xc3,
        Instr::i64_extend32_s => 0xc4,
    }
}

/// The bytes of one instruction: its operation byte, then its immediates.
pub open spec fn instr_bytes(i: Instr) -> Seq<u8>
    decreases i, 1int,
{
    seq![opcode(i)] + match i {
        Instr::Block(bt, body) => seq![bt] + body_bytes(body@) + seq![0x0bu8],
        Instr::Loop(bt, body) => seq![bt] + body_bytes(body@) + seq![0x0bu8],
        Instr::If(bt, body) => seq![bt] + body_bytes(body@) + seq![0x0bu8],
        Instr::br(x) | Instr::br_if(x) | Instr::call(x) | Instr::local_get(x) | Instr::local_set(x)
        | Instr::local_tee(x) | Instr::global_get(x) | Instr::global_set(x) | Instr::table_get(x)
        | Instr::table_set(x) => uleb(x as nat),
        Instr::br_table(targets, default) => vec_bytes(targets@, |x: u32| u32_bytes(x)) + uleb(default as nat),
        Instr::memory_size(b) | Instr::memory_grow(b) => seq![b],
        Instr::i32_const(v) | Instr::i64_const(v) => sleb(v as int),
        Instr::f32_const(bits) => le32(bits),
        Instr::f64_const(bits) => le64(bits),
        _ => match memarg(i) {
            Some((a, o)) => uleb(a as nat) + uleb(o as nat),
            None => Seq::empty(),
        },
    }
}

/// The two immediates of `call_indirect` and of the memory instructions.
pub open spec fn memarg(i: Instr) -> Option<(u32, u32)> {
    match i {
        Instr::call_indirect(a, o)
        | Instr::i32_load(a, o)
        | Instr::i64_load(a, o)
        | Instr::f32_load(a, o)
        | Instr::f64_load(a, o)
        | Instr::i32_load8_s(a, o)
        | Instr::i32_load8_u(a, o)
        | Instr::i32_load16_s(a, o)
        | Instr::i32_load16_u(a, o)
        | Instr::i64_load8_s(a, o)
        | Instr::i64_load8_u(a, o)
        | Instr::i64_load16_s(a, o)
        | Instr::i64_load16_u(a, o)
        | Instr::i64_load32_s(a, o)
        | Instr::i64_load32_u(a, o)
        | Instr::i32_store(a, o)
        | Instr::i64_store(a, o)
        | Instr::f32_store(a, o)
        | Instr::f64_store(a, o)
        | Instr::i32_store8(a, o)
        | Instr::i32_store16(a, o)
        | Instr::i64_store8(a, o)
        | Instr::i64_store16(a, o)
        | Instr::i64_store32(a, o) => Some((a, o)),
        _ => None,
    }
}

/// The bytes of an instruction sequence, without a terminator.
pub open spec fn body_bytes(s: Seq<Value<Instr>>) -> Seq<u8>
    decreases s, 0int,
{
    if s.len() == 0 {
        Seq::empty()
    } else {
        body_bytes(s.drop_last()) + instr_bytes(s.last().value)
    }
}

/// An expression: its instructions, then `end`.
pub open spec fn expr_bytes(s: Seq<Value<Instr>>) -> Seq<u8> {
    body_bytes(s) + seq![0x0bu8]
}


/// `s` followed by one more item adds that item's bytes at the end.
pub proof fn lemma_concat_map_push<T>(s: Seq<T>, j: int, f: spec_fn(T) -> Seq<u8>)
    requires
        0 <= j < s.len(),
    ensures
        concat_map(s.subrange(0, j + 1), f) == concat_map(s.subrange(0, j), f) + f(s[j]),
{
    assert(s.subrange(0, j + 1).drop_last() =~= s.subrange(0, j));
}

pub proof fn lemma_body_bytes_push(s: Seq<Value<Instr>>, j: int)
    requires
        0 <= j < s.len(),
    ensures
        body_bytes(s.subrange(0, j + 1)) == body_bytes(s.subrange(0, j)) + instr_bytes(s[j].value),
{
    assert(s.subrange(0, j + 1).drop_last() =~= s.subrange(0, j));
}

pub open spec fn valtype_byte(v: ValueType) -> u8 {
    match v {
        ValueType::NumType(NumType::I32) => 0x7f,
        ValueType::NumType(NumType::I64) => 0x7e,
        ValueType::NumType(NumType::F32) => 0x7d,
        ValueType::NumType(NumType::F64) => 0x7c,
    }
}

pub open spec fn valtype_bytes(v: ValueType) -> Seq<u8> {
    seq![valtype_byte(v)]
}

pub open spec fn type_bytes(t: Type) -> Seq<u8> {
    seq![0x60u8] + vec_bytes(t.params@, |v: ValueType| valtype_bytes(v)) + vec_bytes(
        t.results@,
        |v: ValueType| valtype_bytes(v),
    )
}

pub open spec fn limits_bytes(min: u32, max: Option<u32>) -> Seq<u8> {
    match max {
        None => seq![0x00u8] + uleb(min as nat),
        Some(m) => seq![0x01u8] + uleb(min as nat) + uleb(m as nat),
    }
}

pub open spec fn reftype_byte(r: Reftype) -> u8 {
    match r {
        Reftype::Func => 0x70,
        Reftype::Extern => 0x6f,
    }
}

pub open spec fn table_bytes(t: Table) -> Seq<u8> {
    seq![reftype_byte(t.reftype)] + limits_bytes(t.limits.min, t.limits.max)
}

pub open spec fn memory_bytes(m: Memory) -> Seq<u8> {
    limits_bytes(m.initial_memory.value, m.max)
}

pub open spec fn global_type_bytes(g: GlobalType) -> Seq<u8> {
    seq![valtype_byte(g.valtype), if g.mutable { 1u8 } else { 0u8 }]
}

pub open spec fn global_bytes(g: Global) -> Seq<u8> {
    global_type_bytes(g.global_type) + expr_bytes(g.expr@)
}

pub open spec fn name_bytes(n: Seq<u8>) -> Seq<u8> {
    uleb(n.len()) + n
}

pub open spec fn import_type_bytes(t: ImportType) -> Seq<u8> {
    match t {
        ImportType::Func(x) => seq![0x00u8] + uleb(x as nat),
        ImportType::Table(t) => seq![0x01u8] + table_bytes(t),
        ImportType::Memory(m) => seq![0x02u8] + memory_bytes(m),
        ImportType::Global(g) => seq![0x03u8] + global_type_bytes(g),
    }
}

pub open spec fn import_bytes(i: Import) -> Seq<u8> {
    name_bytes(i.module@) + name_bytes(i.name@) + import_type_bytes(i.import_type)
}

pub open spec fn export_descr_bytes(d: ExportDescr) -> Seq<u8> {
    match d {
        ExportDescr::Func(x) => seq![0x00u8] + uleb(x as nat),
        ExportDescr::Table(x) => seq![0x01u8] + uleb(x as nat),
        ExportDescr::Memory(x) => seq![0x02u8] + uleb(x as nat),
        ExportDescr::Global(x) => seq![0x03u8] + uleb(x as nat),
    }
}

pub open spec fn export_bytes(e: Export) -> Seq<u8> {
    name_bytes(e.name@) + export_descr_bytes(e.descr)
}

pub open spec fn local_bytes(l: CodeLocal) -> Seq<u8> {
    uleb(l.count as nat) + seq![valtype_byte(l.value_type)]
}

/// A function body without its size prefix: locals, then the expression.
pub open spec fn code_inner_bytes(c: Code) -> Seq<u8> {
    vec_bytes(c.locals@, |l: CodeLocal| local_bytes(l)) + expr_bytes(c.body.value@)
}

pub open spec fn code_bytes(c: Code) -> Seq<u8> {
    uleb(code_inner_bytes(c).len()) + code_inner_bytes(c)
}

pub open spec fn data_bytes(d: DataSegment) -> Seq<u8> {
    seq![0x00u8] + expr_bytes(d.offset.value@) + name_bytes(d.bytes@)
}

pub open spec fn section_id(s: Section) -> u8 {
    match s {
        Section::Type(..) => 1,
        Section::Import(..) => 2,
        Section::Func(..) => 3,
        Section::Table(..) => 4,
        Section::Memory(..) => 5,
        Section::Global(..) => 6,
        Section::Export(..) => 7,
        Section::Code(..) => 10,
        Section::Data(..) => 11,
        Section::Unknown(id, _, _) => id,
    }
}

/// A section's payload, without its id and size.
pub open spec fn section_payload(s: Section) -> Seq<u8> {
    match s {
        Section::Type(_, v) => vec_bytes(v@, |t: Type| type_bytes(t)),
        Section::Import(_, v) => vec_bytes(v@, |i: Import| import_bytes(i)),
        Section::Func(_, v) => vec_bytes(v@, |x: u32| u32_bytes(x)),
        Section::Table(_, v) => vec_bytes(v@, |t: Table| table_bytes(t)),
        Section::Memory(_, v) => vec_bytes(v@, |m: Memory| memory_bytes(m)),
        Section::Global(_, v) => vec_bytes(v@, |g: Global| global_bytes(g)),
        Section::Export(_, v) => vec_bytes(v@, |e: Export| export_bytes(e)),
        Section::Code(_, v) => vec_bytes(v@, |c: Code| code_bytes(c)),
        Section::Data(_, v) => vec_bytes(v@, |d: DataSegment| data_bytes(d)),
        Section::Unknown(_, _, raw) => raw@,
    }
}

pub open spec fn section_bytes(s: Section) -> Seq<u8> {
    seq![section_id(s)] + uleb(section_payload(s).len()) + section_payload(s)
}

/// The whole binary: header, then each section in order.
pub open spec fn module_bytes(m: Module) -> Seq<u8> {
    magic_and_version() + concat_map(m.sections@, |s: Section| section_bytes(s))
}

} // verus!
