//! Full regeneration: serialise the tree bottom-up, recomputing every
//! length prefix from the bytes it covers.
use vstd::prelude::*;
use crate::ast::{
    Code, CodeLocal, DataSegment, Export, ExportDescr, Global, GlobalType, Import, ImportType, Instr,
    Memory, Module, NumType, Reftype, Section, Table, Type, Value, ValueType,
};
use crate::encoding::{
    body_bytes, code_bytes, code_inner_bytes, concat_map, data_bytes, expr_bytes, export_bytes,
    global_bytes, global_type_bytes, import_bytes, instr_bytes, le32, le64, lemma_body_bytes_push,
    lemma_concat_map_push, limits_bytes, local_bytes, memory_bytes, module_bytes, name_bytes,
    opcode, section_bytes, section_payload, table_bytes, type_bytes, u32_bytes, valtype_byte,
    valtype_bytes, vec_bytes, magic_and_version,
};
use crate::leb::{uleb, write_signed, write_unsigned};

verus! {

fn opcode_of(i: &Instr) -> (r: u8)
    ensures
        r == opcode(*i),
{
    match i {
        Instr::unreachable => 0x00,
        Instr::nop => 0x01,
        Instr::Block(..) => 0x02,
        Instr::Loop(..) => 0x03,
        Instr::If(..) => 0x04,
        Instr::else_end => 0x05,
        Instr::br(..) => 0x0c,
        Instr::br_if(..) => 0x0d,
        Instr::br_table(..) => 0x0e,
        Instr::Return => 0x0f,
        Instr::call(..) => 0x10,
        Instr::call_indirect(..) => 0x11,
        Instr::drop => 0x1a,
        Instr::select => 0x1b,
        Instr::local_get(..) => 0x20,
        Instr::local_set(..) => 0x21,
        Instr::local_tee(..) => 0x22,
        Instr::global_get(..) => 0x23,
        Instr::global_set(..) => 0x24,
        Instr::table_get(..) => 0x25,
        Instr::table_set(..) => 0x26,
        Instr::i32_load(..) => 0x28,
        Instr::i64_load(..) => 0x29,
        Instr::f32_load(..) => 0x2a,
        Instr::f64_load(..) => 0x2b,
        Instr::i32_load8_s(..) => 0x2c,
        Instr::i32_load8_u(..) => 0x2d,
        Instr::i32_load16_s(..) => 0x2e,
        Instr::i32_load16_u(..) => 0x2f,
        Instr::i64_load8_s(..) => 0x30,
        Instr::i64_load8_u(..) => 0x31,
        Instr::i64_load16_s(..) => 0x32,
        Instr::i64_load16_u(..) => 0x33,
        Instr::i64_load32_s(..) => 0x34,
        Instr::i64_load32_u(..) => 0x35,
        Instr::i32_store(..) => 0x36,
        Instr::i64_store(..) => 0x37,
        Instr::f32_store(..) => 0x38,
        Instr::f64_store(..) => 0x39,
        Instr::i32_store8(..) => 0x3a,
        Instr::i32_store16(..) => 0x3b,
        Instr::i64_store8(..) => 0x3c,
        Instr::i64_store16(..) => 0x3d,
        Instr::i64_store32(..) => 0x3e,
        Instr::memory_size(..) => 0x3f,
        Instr::memory_grow(..) => 0x40,
        Instr::i32_const(..) => 0x41,
        Instr::i64_const(..) => 0x42,
        Instr::f32_const(..) => 0x43,
        Instr::f64_const(..) => 0x44,
        Instr::i32_eqz => 0x45,
        Instr::i32_eq => 0x46,
        Instr::i32_ne => 0x47,
        Instr::i32_lt_s => 0x48,
        Instr::i32_lt_u => 0x49,
        Instr::i32_gt_s => 0x4a,
        Instr::i32_gt_u => 0x4b,
        Instr::i32_le_s => 0x4c,
        Instr::i32_le_u => 0x4d,
        Instr::i32_ge_s => 0x4e,
        Instr::i32_ge_u => 0x4f,
        Instr::i64_eqz => 0x50,
        Instr::i64_eq => 0x51,
        Instr::i64_ne => 0x52,
        Instr::i64_lt_s => 0x53,
        Instr::i64_lt_u => 0x54,
        Instr::i64_gt_s => 0x55,
        Instr::i64_gt_u => 0x56,
        Instr::i64_le_s => 0x57,
        Instr::i64_le_u => 0x58,
        Instr::i64_ge_s => 0x59,
        Instr::i64_ge_u => 0x5a,
        Instr::f32_eq => 0x5b,
        Instr::f32_ne => 0x5c,
        Instr::f32_lt => 0x5d,
        Instr::f32_gt => 0x5e,
        Instr::f32_le => 0x5f,
        Instr::f32_ge => 0x60,
        Instr::f64_eq => 0x61,
        Instr::f64_ne => 0x62,
        Instr::f64_lt => 0x63,
        Instr::f64_gt => 0x64,
        Instr::f64_le => 0x65,
        Instr::f64_ge => 0x66,
        Instr::i32_clz => 0x67,
        Instr::i32_ctz => 0x68,
        Instr::i32_popcnt => 0x69,
        Instr::i32_add => 0x6a,
        Instr::i32_sub => 0x6b,
        Instr::i32_mul => 0x6c,
        Instr::i32_div_s => 0x6d,
        Instr::i32_div_u => 0x6e,
        Instr::i32_rem_s => 0x6f,
        Instr::i32_rem_u => 0x70,
        Instr::i32_and => 0x71,
        Instr::i32_or => 0x72,
        Instr::i32_xor => 0x73,
        Instr::i32_shl => 0x74,
        Instr::i32_shr_s => 0x75,
        Instr::i32_shr_u => 0x76,
        Instr::i32_rotl => 0x77,
        Instr::i32_rotr => 0x78,
        Instr::i64_clz => 0x79,
        Instr::i64_ctz => 0x7a,
        Instr::i64_popcnt => 0x7b,
        Instr::i64_add => 0x7c,
        Instr::i64_sub => 0x7d,
        Instr::i64_mul => 0x7e,
        Instr::i64_div_s => 0x7f,
        Instr::i64_div_u => 0x80,
        Instr::i64_rem_s => 0x81,
        Instr::i64_rem_u => 0x82,
        Instr::i64_and => 0x83,
        Instr::i64_or => 0x84,
        Instr::i64_xor => 0x85,
        Instr::i64_shl => 0x86,
        Instr::i64_shr_s => 0x87,
        Instr::i64_shr_u => 0x88,
        Instr::i64_rotl => 0x89,
        Instr::i64_rotr => 0x8a,
        Instr::f32_abs => 0x8b,
        Instr::f32_neg => 0x8c,
        Instr::f32_ceil => 0x8d,
        Instr::f32_floor => 0x8e,
        Instr::f32_trunc => 0x8f,
        Instr::f32_nearest => 0x90,
        Instr::f32_sqrt => 0x91,
        Instr::f32_add => 0x92,
        Instr::f32_sub => 0x93,
        Instr::f32_mul => 0x94,
        Instr::f32_div => 0x95,
        Instr::f32_min => 0x96,
        Instr::f32_max => 0x97,
        Instr::f32_copysign => 0x98,
        Instr::f64_abs => 0x99,
        Instr::f64_neg => 0x9a,
        Instr::f64_ceil => 0x9b,
        Instr::f64_floor => 0x9c,
        Instr::f64_trunc => 0x9d,
        Instr::f64_nearest => 0x9e,
        Instr::f64_sqrt => 0x9f,
        Instr::f64_add => 0xa0,
        Instr::f64_sub => 0xa1,
        Instr::f64_mul => 0xa2,
        Instr::f64_div => 0xa3,
        Instr::f64_min => 0xa4,
        Instr::f64_max => 0xa5,
        Instr::f64_copysign => 0xa6,
        Instr::i32_wrap_i64 => 0xa7,
        Instr::i32_trunc_f32_s => 0xa8,
        Instr::i32_trunc_f32_u => 0xa9,
        Instr::i32_trunc_f64_s => 0xaa,
        Instr::i32_trunc_f64_u => 0xab,
        Instr::i64_extend_i32_s => 0xac,
        Instr::i64_extend_i32_u => 0xad,
        Instr::i64_trunc_f32_s => 0xae,
        Instr::i64_trunc_f32_u => 0xaf,
        Instr::i64_trunc_f64_s => 0xb0,
        Instr::i64_trunc_f64_u => 0xb1,
        Instr::f32_convert_i32_s => 0xb2,
        Instr::f32_convert_i32_u => 0xb3,
        Instr::f32_convert_i64_s => 0xb4,
        Instr::f32_convert_i64_u => 0xb5,
        Instr::f32_demote_f64 => 0xb6,
        Instr::f64_convert_i32_s => 0xb7,
        Instr::f64_convert_i32_u => 0xb8,
        Instr::f64_convert_i64_s => 0xb9,
        Instr::f64_convert_i64_u => 0xba,
        Instr::f64_promote_f32 => 0xbb,
        Instr::i32_reinterpret_f32 => 0xbc,
        Instr::i64_reinterpret_f64 => 0xbd,
        Instr::f32_reinterpret_i32 => 0xbe,
        Instr::f64_reinterpret_i64 => 0xbf,
        Instr::i32_extend8_s => 0xc0,
        Instr::i32_extend16_s => 0xc1,
        Instr::i64_extend8_s => 0xc2,
        Instr::i64_extend16_s => 0xc3,
        Instr::i64_extend32_s => 0xc4,
    }
}

fn write_le32(buf: &mut Vec<u8>, v: u32)
    ensures
        final(buf)@ == old(buf)@ + le32(v),
{
    buf.push((v & 0xff) as u8);
    buf.push(((v >> 8u32) & 0xff) as u8);
    buf.push(((v >> 16u32) & 0xff) as u8);
    buf.push(((v >> 24u32) & 0xff) as u8);
    assert(buf@ =~= old(buf)@ + le32(v));
}

fn write_le64(buf: &mut Vec<u8>, v: u64)
    ensures
        final(buf)@ == old(buf)@ + le64(v),
{
    write_le32(buf, (v & 0xffff_ffff) as u32);
    write_le32(buf, (v >> 32u64) as u32);
    assert(buf@ =~= old(buf)@ + le64(v));
}

fn write_u32s(buf: &mut Vec<u8>, v: &Vec<u32>)
    ensures
        final(buf)@ == old(buf)@ + vec_bytes(v@, |x: u32| u32_bytes(x)),
{
    write_unsigned(buf, v.len() as u64);
    let mut j: usize = 0;
    while j < v.len()
        invariant
            j <= v.len(),
            buf@ == old(buf)@ + uleb(v@.len()) + concat_map(v@.subrange(0, j as int), |x: u32| u32_bytes(x)),
        decreases v.len() - j,
    {
        proof { lemma_concat_map_push(v@, j as int, |x: u32| u32_bytes(x)); }
        write_unsigned(buf, v[j] as u64);
        j += 1;
        assert(buf@ =~= old(buf)@ + uleb(v@.len()) + concat_map(v@.subrange(0, j as int), |x: u32| u32_bytes(x)));
    }
    assert(v@.subrange(0, v@.len() as int) =~= v@);
    assert(buf@ =~= old(buf)@ + vec_bytes(v@, |x: u32| u32_bytes(x)));
}

/// Appends the bytes of one instruction, nested bodies included.
pub fn write_instr(buf: &mut Vec<u8>, i: &Instr)
    ensures
        final(buf)@ == old(buf)@ + instr_bytes(*i),
    decreases i, 1int,
{
    buf.push(opcode_of(i));
    match i {
        Instr::Block(bt, body) | Instr::Loop(bt, body) | Instr::If(bt, body) => {
            buf.push(*bt);
            write_body(buf, body);
            buf.push(0x0b);
        },
        Instr::br(x) | Instr::br_if(x) | Instr::call(x) | Instr::local_get(x) | Instr::local_set(x)
        | Instr::local_tee(x) | Instr::global_get(x) | Instr::global_set(x) | Instr::table_get(x)
        | Instr::table_set(x) => {
            write_unsigned(buf, *x as u64);
        },
        Instr::br_table(targets, default) => {
            write_u32s(buf, targets);
            write_unsigned(buf, *default as u64);
        },
        Instr::memory_size(b) | Instr::memory_grow(b) => {
            buf.push(*b);
        },
        Instr::i32_const(v) | Instr::i64_const(v) => {
            write_signed(buf, *v);
        },
        Instr::f32_const(bits) => {
            write_le32(buf, *bits);
        },
        Instr::f64_const(bits) => {
            write_le64(buf, *bits);
        },
        Instr::call_indirect(a, o)
        | Instr::i32_load(a, o)
        | Instr::i64_load(a, o)
        | Instr::f32_load(a, o)
        | Instr::f64_load(a, o)
        | Instr::i32_load8_s(a, o)
        | Instr::i32_load8_u(a, o)
        | Instr::i32_load16_s(a, o)
        | Instr::i32_load16_u(a, o)
        | Instr::i64_load8_s(a, o)
        | Instr::i64_load8_u(a, o)
        | Instr::i64_load16_s(a, o)
        | Instr::i64_load16_u(a, o)
        | Instr::i64_load32_s(a, o)
        | Instr::i64_load32_u(a, o)
        | Instr::i32_store(a, o)
        | Instr::i64_store(a, o)
        | Instr::f32_store(a, o)
        | Instr::f64_store(a, o)
        | Instr::i32_store8(a, o)
        | Instr::i32_store16(a, o)
        | Instr::i64_store8(a, o)
        | Instr::i64_store16(a, o)
        | Instr::i64_store32(a, o) => {
            write_unsigned(buf, *a as u64);
            write_unsigned(buf, *o as u64);
        },
        _ => {},
    }
    assert(buf@ =~= old(buf)@ + instr_bytes(*i));
}

/// Appends the bytes of an instruction sequence, without a terminator.
pub fn write_body(buf: &mut Vec<u8>, body: &Vec<Value<Instr>>)
    ensures
        final(buf)@ == old(buf)@ + body_bytes(body@),
    decreases body, 0int,
{
    let mut j: usize = 0;
    while j < body.len()
        invariant
            j <= body.len(),
            buf@ == old(buf)@ + body_bytes(body@.subrange(0, j as int)),
        decreases body.len() - j,
    {
        proof { lemma_body_bytes_push(body@, j as int); }
        assert(decreases_to!(body => body@[j as int].value));
        write_instr(buf, &body[j].value);
        j += 1;
        assert(buf@ =~= old(buf)@ + body_bytes(body@.subrange(0, j as int)));
    }
    assert(body@.subrange(0, body@.len() as int) =~= body@);
}

fn valtype_code(v: &ValueType) -> (r: u8)
    ensures
        r == valtype_byte(*v),
{
    match v {
        ValueType::NumType(NumType::I32) => 0x7f,
        ValueType::NumType(NumType::I64) => 0x7e,
        ValueType::NumType(NumType::F32) => 0x7d,
        ValueType::NumType(NumType::F64) => 0x7c,
    }
}

fn write_valtype(buf: &mut Vec<u8>, v: &ValueType)
    ensures
        final(buf)@ == old(buf)@ + valtype_bytes(*v),
{
    buf.push(valtype_code(v));
    assert(buf@ =~= old(buf)@ + valtype_bytes(*v));
}

fn write_type(buf: &mut Vec<u8>, t: &Type)
    ensures
        final(buf)@ == old(buf)@ + type_bytes(*t),
{
    buf.push(0x60);
    write_valtypes(buf, &t.params);
    write_valtypes(buf, &t.results);
    assert(buf@ =~= old(buf)@ + type_bytes(*t));
}

fn write_limits(buf: &mut Vec<u8>, min: u32, max: Option<u32>)
    ensures
        final(buf)@ == old(buf)@ + limits_bytes(min, max),
{
    match max {
        None => {
            buf.push(0x00);
            write_unsigned(buf, min as u64);
        },
        Some(m) => {
            buf.push(0x01);
            write_unsigned(buf, min as u64);
            write_unsigned(buf, m as u64);
        },
    }
    assert(buf@ =~= old(buf)@ + limits_bytes(min, max));
}

fn write_table(buf: &mut Vec<u8>, t: &Table)
    ensures
        final(buf)@ == old(buf)@ + table_bytes(*t),
{
    let code: u8 = match t.reftype {
        Reftype::Func => 0x70,
        Reftype::Extern => 0x6f,
    };
    buf.push(code);
    write_limits(buf, t.limits.min, t.limits.max);
    assert(buf@ =~= old(buf)@ + table_bytes(*t));
}

fn write_memory(buf: &mut Vec<u8>, m: &Memory)
    ensures
        final(buf)@ == old(buf)@ + memory_bytes(*m),
{
    write_limits(buf, m.initial_memory.value, m.max);
}

fn write_global_type(buf: &mut Vec<u8>, g: &GlobalType)
    ensures
        final(buf)@ == old(buf)@ + global_type_bytes(*g),
{
    buf.push(valtype_code(&g.valtype));
    buf.push(if g.mutable { 1u8 } else { 0u8 });
    assert(buf@ =~= old(buf)@ + global_type_bytes(*g));
}

fn write_expr(buf: &mut Vec<u8>, e: &Vec<Value<Instr>>)
    ensures
        final(buf)@ == old(buf)@ + expr_bytes(e@),
{
    write_body(buf, e);
    buf.push(0x0b);
    assert(buf@ =~= old(buf)@ + expr_bytes(e@));
}

fn write_global(buf: &mut Vec<u8>, g: &Global)
    ensures
        final(buf)@ == old(buf)@ + global_bytes(*g),
{
    write_global_type(buf, &g.global_type);
    write_expr(buf, &g.expr);
    assert(buf@ =~= old(buf)@ + global_bytes(*g));
}

fn write_name(buf: &mut Vec<u8>, n: &Vec<u8>)
    ensures
        final(buf)@ == old(buf)@ + name_bytes(n@),
{
    write_unsigned(buf, n.len() as u64);
    let mut j: usize = 0;
    while j < n.len()
        invariant
            j <= n.len(),
            buf@ == old(buf)@ + uleb(n@.len()) + n@.subrange(0, j as int),
        decreases n.len() - j,
    {
        buf.push(n[j]);
        j += 1;
        assert(buf@ =~= old(buf)@ + uleb(n@.len()) + n@.subrange(0, j as int));
    }
    assert(n@.subrange(0, n@.len() as int) =~= n@);
    assert(buf@ =~= old(buf)@ + name_bytes(n@));
}

fn write_import(buf: &mut Vec<u8>, i: &Import)
    ensures
        final(buf)@ == old(buf)@ + import_bytes(*i),
{
    write_name(buf, &i.module);
    write_name(buf, &i.name);
    match &i.import_type {
        ImportType::Func(x) => {
            buf.push(0x00);
            write_unsigned(buf, *x as u64);
        },
        ImportType::Table(t) => {
            buf.push(0x01);
            write_table(buf, t);
        },
        ImportType::Memory(m) => {
            buf.push(0x02);
            write_memory(buf, m);
        },
        ImportType::Global(g) => {
            buf.push(0x03);
            write_global_type(buf, g);
        },
    }
    assert(buf@ =~= old(buf)@ + import_bytes(*i));
}

fn write_export(buf: &mut Vec<u8>, e: &Export)
    ensures
        final(buf)@ == old(buf)@ + export_bytes(*e),
{
    write_name(buf, &e.name);
    let (kind, x): (u8, u32) = match e.descr {
        ExportDescr::Func(x) => (0x00, x),
        ExportDescr::Table(x) => (0x01, x),
        ExportDescr::Memory(x) => (0x02, x),
        ExportDescr::Global(x) => (0x03, x),
    };
    buf.push(kind);
    write_unsigned(buf, x as u64);
    assert(buf@ =~= old(buf)@ + export_bytes(*e));
}

fn write_local(buf: &mut Vec<u8>, l: &CodeLocal)
    ensures
        final(buf)@ == old(buf)@ + local_bytes(*l),
{
    write_unsigned(buf, l.count as u64);
    buf.push(valtype_code(&l.value_type));
    assert(buf@ =~= old(buf)@ + local_bytes(*l));
}

/// Appends `payload` after its length prefix.
fn write_sized(buf: &mut Vec<u8>, payload: &Vec<u8>)
    ensures
        final(buf)@ == old(buf)@ + uleb(payload@.len()) + payload@,
{
    write_name(buf, payload);
}

fn write_code(buf: &mut Vec<u8>, c: &Code)
    ensures
        final(buf)@ == old(buf)@ + code_bytes(*c),
{
    let mut inner: Vec<u8> = Vec::new();
    write_locals(&mut inner, &c.locals);
    write_expr(&mut inner, &c.body.value);
    assert(inner@ =~= code_inner_bytes(*c));
    write_sized(buf, &inner);
}

fn write_data(buf: &mut Vec<u8>, d: &DataSegment)
    ensures
        final(buf)@ == old(buf)@ + data_bytes(*d),
{
    buf.push(0x00);
    write_expr(buf, &d.offset.value);
    write_name(buf, &d.bytes);
    assert(buf@ =~= old(buf)@ + data_bytes(*d));
}

fn write_valtypes(buf: &mut Vec<u8>, v: &Vec<ValueType>)
    ensures
        final(buf)@ == old(buf)@ + vec_bytes(v@, |x: ValueType| valtype_bytes(x)),
{
    write_unsigned(buf, v.len() as u64);
    let mut j: usize = 0;
    while j < v.len()
        invariant
            j <= v.len(),
            buf@ == old(buf)@ + uleb(v@.len()) + concat_map(v@.subrange(0, j as int), |x: ValueType| valtype_bytes(x)),
        decreases v.len() - j,
    {
        proof { lemma_concat_map_push(v@, j as int, |x: ValueType| valtype_bytes(x)); }
        write_valtype(buf, &v[j]);
        j += 1;
        assert(buf@ =~= old(buf)@ + uleb(v@.len()) + concat_map(v@.subrange(0, j as int), |x: ValueType| valtype_bytes(x)));
    }
    assert(v@.subrange(0, v@.len() as int) =~= v@);
    assert(buf@ =~= old(buf)@ + vec_bytes(v@, |x: ValueType| valtype_bytes(x)));
}

fn write_locals(buf: &mut Vec<u8>, v: &Vec<CodeLocal>)
    ensures
        final(buf)@ == old(buf)@ + vec_bytes(v@, |x: CodeLocal| local_bytes(x)),
{
    write_unsigned(buf, v.len() as u64);
    let mut j: usize = 0;
    while j < v.len()
        invariant
            j <= v.len(),
            buf@ == old(buf)@ + uleb(v@.len()) + concat_map(v@.subrange(0, j as int), |x: CodeLocal| local_bytes(x)),
        decreases v.len() - j,
    {
        proof { lemma_concat_map_push(v@, j as int, |x: CodeLocal| local_bytes(x)); }
        write_local(buf, &v[j]);
        j += 1;
        assert(buf@ =~= old(buf)@ + uleb(v@.len()) + concat_map(v@.subrange(0, j as int), |x: CodeLocal| local_bytes(x)));
    }
    assert(v@.subrange(0, v@.len() as int) =~= v@);
    assert(buf@ =~= old(buf)@ + vec_bytes(v@, |x: CodeLocal| local_bytes(x)));
}

fn write_types(buf: &mut Vec<u8>, v: &Vec<Type>)
    ensures
        final(buf)@ == old(buf)@ + vec_bytes(v@, |x: Type| type_bytes(x)),
{
    write_unsigned(buf, v.len() as u64);
    let mut j: usize = 0;
    while j < v.len()
        invariant
            j <= v.len(),
            buf@ == old(buf)@ + uleb(v@.len()) + concat_map(v@.subrange(0, j as int), |x: Type| type_bytes(x)),
        decreases v.len() - j,
    {
        proof { lemma_concat_map_push(v@, j as int, |x: Type| type_bytes(x)); }
        write_type(buf, &v[j]);
        j += 1;
        assert(buf@ =~= old(buf)@ + uleb(v@.len()) + concat_map(v@.subrange(0, j as int), |x: Type| type_bytes(x)));
    }
    assert(v@.subrange(0, v@.len() as int) =~= v@);
    assert(buf@ =~= old(buf)@ + vec_bytes(v@, |x: Type| type_bytes(x)));
}

fn write_imports(buf: &mut Vec<u8>, v: &Vec<Import>)
    ensures
        final(buf)@ == old(buf)@ + vec_bytes(v@, |x: Import| import_bytes(x)),
{
    write_unsigned(buf, v.len() as u64);
    let mut j: usize = 0;
    while j < v.len()
        invariant
            j <= v.len(),
            buf@ == old(buf)@ + uleb(v@.len()) + concat_map(v@.subrange(0, j as int), |x: Import| import_bytes(x)),
        decreases v.len() - j,
    {
        proof { lemma_concat_map_push(v@, j as int, |x: Import| import_bytes(x)); }
        write_import(buf, &v[j]);
        j += 1;
        assert(buf@ =~= old(buf)@ + uleb(v@.len()) + concat_map(v@.subrange(0, j as int), |x: Import| import_bytes(x)));
    }
    assert(v@.subrange(0, v@.len() as int) =~= v@);
    assert(buf@ =~= old(buf)@ + vec_bytes(v@, |x: Import| import_bytes(x)));
}

fn write_tables(buf: &mut Vec<u8>, v: &Vec<Table>)
    ensures
        final(buf)@ == old(buf)@ + vec_bytes(v@, |x: Table| table_bytes(x)),
{
    write_unsigned(buf, v.len() as u64);
    let mut j: usize = 0;
    while j < v.len()
        invariant
            j <= v.len(),
            buf@ == old(buf)@ + uleb(v@.len()) + concat_map(v@.subrange(0, j as int), |x: Table| table_bytes(x)),
        decreases v.len() - j,
    {
        proof { lemma_concat_map_push(v@, j as int, |x: Table| table_bytes(x)); }
        write_table(buf, &v[j]);
        j += 1;
        assert(buf@ =~= old(buf)@ + uleb(v@.len()) + concat_map(v@.subrange(0, j as int), |x: Table| table_bytes(x)));
    }
    assert(v@.subrange(0, v@.len() as int) =~= v@);
    assert(buf@ =~= old(buf)@ + vec_bytes(v@, |x: Table| table_bytes(x)));
}

fn write_memories(buf: &mut Vec<u8>, v: &Vec<Memory>)
    ensures
        final(buf)@ == old(buf)@ + vec_bytes(v@, |x: Memory| memory_bytes(x)),
{
    write_unsigned(buf, v.len() as u64);
    let mut j: usize = 0;
    while j < v.len()
        invariant
            j <= v.len(),
            buf@ == old(buf)@ + uleb(v@.len()) + concat_map(v@.subrange(0, j as int), |x: Memory| memory_bytes(x)),
        decreases v.len() - j,
    {
        proof { lemma_concat_map_push(v@, j as int, |x: Memory| memory_bytes(x)); }
        write_memory(buf, &v[j]);
        j += 1;
        assert(buf@ =~= old(buf)@ + uleb(v@.len()) + concat_map(v@.subrange(0, j as int), |x: Memory| memory_bytes(x)));
    }
    assert(v@.subrange(0, v@.len() as int) =~= v@);
    assert(buf@ =~= old(buf)@ + vec_bytes(v@, |x: Memory| memory_bytes(x)));
}

fn write_globals(buf: &mut Vec<u8>, v: &Vec<Global>)
    ensures
        final(buf)@ == old(buf)@ + vec_bytes(v@, |x: Global| global_bytes(x)),
{
    write_unsigned(buf, v.len() as u64);
    let mut j: usize = 0;
    while j < v.len()
        invariant
            j <= v.len(),
            buf@ == old(buf)@ + uleb(v@.len()) + concat_map(v@.subrange(0, j as int), |x: Global| global_bytes(x)),
        decreases v.len() - j,
    {
        proof { lemma_concat_map_push(v@, j as int, |x: Global| global_bytes(x)); }
        write_global(buf, &v[j]);
        j += 1;
        assert(buf@ =~= old(buf)@ + uleb(v@.len()) + concat_map(v@.subrange(0, j as int), |x: Global| global_bytes(x)));
    }
    assert(v@.subrange(0, v@.len() as int) =~= v@);
    assert(buf@ =~= old(buf)@ + vec_bytes(v@, |x: Global| global_bytes(x)));
}

fn write_exports(buf: &mut Vec<u8>, v: &Vec<Export>)
    ensures
        final(buf)@ == old(buf)@ + vec_bytes(v@, |x: Export| export_bytes(x)),
{
    write_unsigned(buf, v.len() as u64);
    let mut j: usize = 0;
    while j < v.len()
        invariant
            j <= v.len(),
            buf@ == old(buf)@ + uleb(v@.len()) + concat_map(v@.subrange(0, j as int), |x: Export| export_bytes(x)),
        decreases v.len() - j,
    {
        proof { lemma_concat_map_push(v@, j as int, |x: Export| export_bytes(x)); }
        write_export(buf, &v[j]);
        j += 1;
        assert(buf@ =~= old(buf)@ + uleb(v@.len()) + concat_map(v@.subrange(0, j as int), |x: Export| export_bytes(x)));
    }
    assert(v@.subrange(0, v@.len() as int) =~= v@);
    assert(buf@ =~= old(buf)@ + vec_bytes(v@, |x: Export| export_bytes(x)));
}

fn write_codes(buf: &mut Vec<u8>, v: &Vec<Code>)
    ensures
        final(buf)@ == old(buf)@ + vec_bytes(v@, |x: Code| code_bytes(x)),
{
    write_unsigned(buf, v.len() as u64);
    let mut j: usize = 0;
    while j < v.len()
        invariant
            j <= v.len(),
            buf@ == old(buf)@ + uleb(v@.len()) + concat_map(v@.subrange(0, j as int), |x: Code| code_bytes(x)),
        decreases v.len() - j,
    {
        proof { lemma_concat_map_push(v@, j as int, |x: Code| code_bytes(x)); }
        write_code(buf, &v[j]);
        j += 1;
        assert(buf@ =~= old(buf)@ + uleb(v@.len()) + concat_map(v@.subrange(0, j as int), |x: Code| code_bytes(x)));
    }
    assert(v@.subrange(0, v@.len() as int) =~= v@);
    assert(buf@ =~= old(buf)@ + vec_bytes(v@, |x: Code| code_bytes(x)));
}

fn write_datas(buf: &mut Vec<u8>, v: &Vec<DataSegment>)
    ensures
        final(buf)@ == old(buf)@ + vec_bytes(v@, |x: DataSegment| data_bytes(x)),
{
    write_unsigned(buf, v.len() as u64);
    let mut j: usize = 0;
    while j < v.len()
        invariant
            j <= v.len(),
            buf@ == old(buf)@ + uleb(v@.len()) + concat_map(v@.subrange(0, j as int), |x: DataSegment| data_bytes(x)),
        decreases v.len() - j,
    {
        proof { lemma_concat_map_push(v@, j as int, |x: DataSegment| data_bytes(x)); }
        write_data(buf, &v[j]);
        j += 1;
        assert(buf@ =~= old(buf)@ + uleb(v@.len()) + concat_map(v@.subrange(0, j as int), |x: DataSegment| data_bytes(x)));
    }
    assert(v@.subrange(0, v@.len() as int) =~= v@);
    assert(buf@ =~= old(buf)@ + vec_bytes(v@, |x: DataSegment| data_bytes(x)));
}

fn write_section(buf: &mut Vec<u8>, s: &Section)
    ensures
        final(buf)@ == old(buf)@ + section_bytes(*s),
{
    let mut payload: Vec<u8> = Vec::new();
    let id: u8 = match s {
        Section::Type(_, v) => {
            write_types(&mut payload, v);
            1
        },
        Section::Import(_, v) => {
            write_imports(&mut payload, v);
            2
        },
        Section::Func(_, v) => {
            write_u32s(&mut payload, v);
            3
        },
        Section::Table(_, v) => {
            write_tables(&mut payload, v);
            4
        },
        Section::Memory(_, v) => {
            write_memories(&mut payload, v);
            5
        },
        Section::Global(_, v) => {
            write_globals(&mut payload, v);
            6
        },
        Section::Export(_, v) => {
            write_exports(&mut payload, v);
            7
        },
        Section::Code(_, v) => {
            write_codes(&mut payload, v);
            10
        },
        Section::Data(_, v) => {
            write_datas(&mut payload, v);
            11
        },
        Section::Unknown(id, _, raw) => {
            write_bytes(&mut payload, raw);
            *id
        },
    };
    assert(payload@ =~= section_payload(*s));
    buf.push(id);
    write_sized(buf, &payload);
    assert(buf@ =~= old(buf)@ + section_bytes(*s));
}

fn write_bytes(buf: &mut Vec<u8>, b: &Vec<u8>)
    ensures
        final(buf)@ == old(buf)@ + b@,
{
    let mut j: usize = 0;
    while j < b.len()
        invariant
            j <= b.len(),
            buf@ == old(buf)@ + b@.subrange(0, j as int),
        decreases b.len() - j,
    {
        buf.push(b[j]);
        j += 1;
        assert(buf@ =~= old(buf)@ + b@.subrange(0, j as int));
    }
    assert(b@.subrange(0, b@.len() as int) =~= b@);
}

/// Serialises a module: the header, then each section with a size prefix
/// recomputed from its regenerated payload.
pub fn encode(module: &Module) -> (r: Vec<u8>)
    ensures
        r@ == module_bytes(*module),
{
    let mut buf: Vec<u8> = Vec::new();
    buf.push(0x00);
    buf.push(0x61);
    buf.push(0x73);
    buf.push(0x6d);
    buf.push(0x01);
    buf.push(0x00);
    buf.push(0x00);
    buf.push(0x00);
    let v = &module.sections;
    let mut j: usize = 0;
    while j < v.len()
        invariant
            j <= v.len(),
            buf@ == magic_and_version() + concat_map(v@.subrange(0, j as int), |x: Section| section_bytes(x)),
        decreases v.len() - j,
    {
        proof { lemma_concat_map_push(v@, j as int, |x: Section| section_bytes(x)); }
        write_section(&mut buf, &v[j]);
        j += 1;
        assert(buf@ =~= magic_and_version() + concat_map(v@.subrange(0, j as int), |x: Section| section_bytes(x)));
    }
    assert(v@.subrange(0, v@.len() as int) =~= v@);
    buf
}

} // verus!
