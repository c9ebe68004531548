//! Binary decoder: bytes to tree, recording the span of every node. Each
//! decoding step is proved to consume exactly the bytes that the decoded node
//! encodes to, so a decoded module re-encodes to its input.
use vstd::prelude::*;
use vstd::slice::{slice_subrange, slice_to_vec};
use crate::ast::{
    Code, CodeLocal, DataSegment, Export, ExportDescr, Global, GlobalType, Import, ImportType, Instr,
    Limits, Memory, Module, NumType, Reftype, Section, Table, Type, Value, ValueType, data_offset_literal,
};
use crate::encoding::{
    body_bytes, code_bytes, code_inner_bytes, concat_map, data_bytes, expr_bytes, export_bytes,
    global_bytes, global_type_bytes, import_bytes, import_type_bytes, instr_bytes, le32, le64,
    lemma_concat_map_push, limits_bytes, local_bytes, memarg, memory_bytes, opcode, module_bytes, name_bytes,
    section_bytes, section_payload, table_bytes, type_bytes, u32_bytes, valtype_byte, valtype_bytes, vec_bytes,
    reftype_byte, export_descr_bytes, section_id,
    magic_and_version,
};
use crate::leb::{
    leb_groups, lemma_framed_unique, lemma_sleb_i64, lemma_sleb_round_trip, lemma_uleb_len_u32,
    lemma_uleb_round_trip, read_signed, read_unsigned, sleb, uleb, write_signed, write_unsigned,
};

verus! {

/// Why a buffer could not be decoded.
#[derive(Debug, Clone, Copy, PartialEq, Eq, Structural)]
pub enum DecodeError {
    /// The input ended inside a node.
    UnexpectedEnd,
    /// The first four bytes are not `\0asm`.
    BadMagic,
    /// The version word is not 1.
    UnsupportedVersion,
    /// A variable-length integer is malformed, out of range or not minimal.
    InvalidInteger,
    /// An instruction byte that this decoder does not know.
    UnknownOpcode(u8),
    /// A value type other than the four numeric ones.
    UnsupportedValueType(u8),
    /// A form (limits flag, reference type, import or export kind, function
    /// type tag, mutability flag, data segment flag) that is not supported.
    UnsupportedForm(u8),
    /// A data segment offset that is not a single `i32.const`.
    NonLiteralOffset,
    /// A section or function body whose content does not fill its declared size.
    SizeMismatch,
}

/// `v` records the span `[start_offset, end_offset)` of `input`, and that span
/// holds `bytes`.
pub open spec fn span_holds<T>(v: Value<T>, input: Seq<u8>, bytes: Seq<u8>) -> bool {
    &&& v.start_offset <= v.end_offset <= input.len()
    &&& input.subrange(v.start_offset as int, v.end_offset as int) == bytes
}

/// The span of an instruction, and of every instruction nested in it, holds
/// that instruction's bytes.
pub open spec fn instr_spans(v: Value<Instr>, input: Seq<u8>) -> bool
    decreases v, 1int,
{
    &&& span_holds(v, input, instr_bytes(v.value))
    &&& match v.value {
        Instr::Block(_, body) => body_spans(body@, input),
        Instr::Loop(_, body) => body_spans(body@, input),
        Instr::If(_, body) => body_spans(body@, input),
        _ => true,
    }
}

pub open spec fn body_spans(s: Seq<Value<Instr>>, input: Seq<u8>) -> bool
    decreases s, 0int,
{
    if s.len() == 0 {
        true
    } else {
        body_spans(s.drop_last(), input) && instr_spans(s.last(), input)
    }
}

pub proof fn lemma_body_spans_push(s: Seq<Value<Instr>>, v: Value<Instr>, input: Seq<u8>)
    requires
        body_spans(s, input),
        instr_spans(v, input),
    ensures
        body_spans(s.push(v), input),
        body_bytes(s.push(v)) == body_bytes(s) + instr_bytes(v.value),
{
    assert(s.push(v).drop_last() =~= s);
}

proof fn lemma_subrange_concat(s: Seq<u8>, a: int, b: int, c: int)
    requires
        0 <= a <= b <= c <= s.len(),
    ensures
        s.subrange(a, c) == s.subrange(a, b) + s.subrange(b, c),
{
    assert(s.subrange(a, c) =~= s.subrange(a, b) + s.subrange(b, c));
}

fn read_byte(input: &[u8], pos: usize, end: usize) -> (r: Result<(u8, usize), DecodeError>)
    requires
        pos <= end <= input@.len(),
    ensures
        r matches Ok((b, p)) ==> p == pos + 1 && p <= end && input@.subrange(pos as int, p as int) == seq![b],
        r is Err ==> r == Err::<(u8, usize), DecodeError>(DecodeError::UnexpectedEnd) && pos == end,
{
    if pos >= end {
        return Err(DecodeError::UnexpectedEnd);
    }
    assert(input@.subrange(pos as int, pos + 1) =~= seq![input@[pos as int]]);
    Ok((input[pos], pos + 1))
}

/// Whether `input[pos..]` starts with `expected`.
fn starts_with_at(input: &[u8], pos: usize, expected: &Vec<u8>) -> (r: bool)
    requires
        pos + expected@.len() <= input@.len(),
    ensures
        r == (input@.subrange(pos as int, pos + expected@.len()) == expected@),
{
    let n = input.len();
    let mut j: usize = 0;
    while j < expected.len()
        invariant
            j <= expected@.len(),
            pos + expected@.len() <= input@.len(),
            n == input@.len(),
            input@.subrange(pos as int, pos + j) == expected@.subrange(0, j as int),
        decreases expected.len() - j,
    {
        if input[pos + j] != expected[j] {
            assert(input@.subrange(pos as int, pos + expected@.len())[j as int] != expected@[j as int]);
            return false;
        }
        j += 1;
        assert(input@.subrange(pos as int, pos + j) =~= expected@.subrange(0, j as int));
    }
    assert(expected@.subrange(0, j as int) =~= expected@);
    true
}

/// `input[pos..end]` starts with `bytes`.
pub open spec fn starts_with(input: Seq<u8>, pos: int, end: int, bytes: Seq<u8>) -> bool {
    pos + bytes.len() <= end && input.subrange(pos, pos + bytes.len()) == bytes
}

/// A minimally encoded unsigned integer of at most 32 bits; any such
/// encoding is read.
fn read_u32(input: &[u8], pos: usize, end: usize) -> (r: Result<(u32, usize), DecodeError>)
    requires
        pos <= end <= input@.len(),
    ensures
        r matches Ok((v, p)) ==> pos < p <= end && input@.subrange(pos as int, p as int) == uleb(v as nat),
        forall|v: u32|
            #![trigger uleb(v as nat)]
            starts_with(input@, pos as int, end as int, uleb(v as nat)) ==> r == Ok::<(u32, usize), DecodeError>(
                (v, (pos + uleb(v as nat).len()) as usize),
            ),
{
    let r = if pos >= end {
        Err(DecodeError::UnexpectedEnd)
    } else {
        let rest = slice_subrange(input, pos, end);
        match read_unsigned(rest) {
            None => Err(DecodeError::InvalidInteger),
            Some((v, unread)) => {
                let k = rest.len() - unread.len();
                if v > 0xffff_ffffu64 {
                    Err(DecodeError::InvalidInteger)
                } else {
                    let mut canonical: Vec<u8> = Vec::new();
                    write_unsigned(&mut canonical, v);
                    if canonical.len() != k || !starts_with_at(input, pos, &canonical) {
                        Err(DecodeError::InvalidInteger)
                    } else {
                        assert(canonical@ =~= uleb(v as nat));
                        Ok((v as u32, pos + k))
                    }
                }
            },
        }
    };
    proof {
        assert forall|v: u32|
            #![trigger uleb(v as nat)]
            starts_with(input@, pos as int, end as int, uleb(v as nat)) implies r == Ok::<(u32, usize), DecodeError>(
                (v, (pos + uleb(v as nat).len()) as usize),
            ) by {
            let e = uleb(v as nat);
            let k = e.len() as int;
            let rest = input@.subrange(pos as int, end as int);
            lemma_uleb_len_u32(v as nat);
            lemma_uleb_round_trip(v as nat);
            assert(rest.take(k) =~= e);
            if r is Ok {
                let w = (r->Ok_0).0;
                let p = (r->Ok_0).1;
                let k2 = p - pos;
                assert(rest.take(k2) =~= uleb(w as nat));
                lemma_uleb_round_trip(w as nat);
                lemma_framed_unique(rest, k, k2);
                assert(w as nat == leb_groups(e));
            }
        }
    }
    r
}

/// A minimally encoded signed integer of at most 64 bits; any such encoding
/// is read.
fn read_i64(input: &[u8], pos: usize, end: usize) -> (r: Result<(i64, usize), DecodeError>)
    requires
        pos <= end <= input@.len(),
    ensures
        r matches Ok((v, p)) ==> pos < p <= end && input@.subrange(pos as int, p as int) == sleb(v as int),
        forall|v: i64|
            #![trigger sleb(v as int)]
            starts_with(input@, pos as int, end as int, sleb(v as int)) ==> r == Ok::<(i64, usize), DecodeError>(
                (v, (pos + sleb(v as int).len()) as usize),
            ),
{
    let r = if pos >= end {
        Err(DecodeError::UnexpectedEnd)
    } else {
        let rest = slice_subrange(input, pos, end);
        match read_signed(rest) {
            None => Err(DecodeError::InvalidInteger),
            Some((v, unread)) => {
                let k = rest.len() - unread.len();
                let mut canonical: Vec<u8> = Vec::new();
                write_signed(&mut canonical, v);
                if canonical.len() != k || !starts_with_at(input, pos, &canonical) {
                    Err(DecodeError::InvalidInteger)
                } else {
                    assert(canonical@ =~= sleb(v as int));
                    Ok((v, pos + k))
                }
            },
        }
    };
    proof {
        assert forall|v: i64|
            #![trigger sleb(v as int)]
            starts_with(input@, pos as int, end as int, sleb(v as int)) implies r == Ok::<(i64, usize), DecodeError>(
                (v, (pos + sleb(v as int).len()) as usize),
            ) by {
            let e = sleb(v as int);
            let k = e.len() as int;
            let rest = input@.subrange(pos as int, end as int);
            lemma_sleb_i64(v as int);
            lemma_sleb_round_trip(v as int);
            assert(rest.take(k) =~= e);
            if k == 10 {
                assert(rest[9] == e[9]);
            }
            if r is Ok {
                let w = (r->Ok_0).0;
                let p = (r->Ok_0).1;
                let k2 = p - pos;
                assert(rest.take(k2) =~= sleb(w as int));
                lemma_sleb_round_trip(w as int);
                lemma_framed_unique(rest, k, k2);
            }
        }
    }
    r
}

proof fn lemma_le32(b0: u8, b1: u8, b2: u8, b3: u8)
    ensures
        le32(((b0 as u32) | ((b1 as u32) << 8u32) | ((b2 as u32) << 16u32) | ((b3 as u32) << 24u32)))
            == seq![b0, b1, b2, b3],
{
    let v: u32 = (b0 as u32) | ((b1 as u32) << 8u32) | ((b2 as u32) << 16u32) | ((b3 as u32) << 24u32);
    assert((v & 0xff) as u8 == b0) by (bit_vector)
        requires v == (b0 as u32) | ((b1 as u32) << 8u32) | ((b2 as u32) << 16u32) | ((b3 as u32) << 24u32);
    assert(((v >> 8u32) & 0xff) as u8 == b1) by (bit_vector)
        requires v == (b0 as u32) | ((b1 as u32) << 8u32) | ((b2 as u32) << 16u32) | ((b3 as u32) << 24u32);
    assert(((v >> 16u32) & 0xff) as u8 == b2) by (bit_vector)
        requires v == (b0 as u32) | ((b1 as u32) << 8u32) | ((b2 as u32) << 16u32) | ((b3 as u32) << 24u32);
    assert(((v >> 24u32) & 0xff) as u8 == b3) by (bit_vector)
        requires v == (b0 as u32) | ((b1 as u32) << 8u32) | ((b2 as u32) << 16u32) | ((b3 as u32) << 24u32);
    assert(le32(v) =~= seq![b0, b1, b2, b3]);
}

/// A little-endian 32-bit word.
fn read_word32(input: &[u8], pos: usize, end: usize) -> (r: Result<(u32, usize), DecodeError>)
    requires
        pos <= end <= input@.len(),
    ensures
        r matches Ok((v, p)) ==> p == pos + 4 && p <= end && input@.subrange(pos as int, p as int) == le32(v),
        r is Ok <==> pos + 4 <= end,
{
    if end - pos < 4 {
        return Err(DecodeError::UnexpectedEnd);
    }
    let (b0, b1, b2, b3) = (input[pos], input[pos + 1], input[pos + 2], input[pos + 3]);
    let v: u32 = (b0 as u32) | ((b1 as u32) << 8u32) | ((b2 as u32) << 16u32) | ((b3 as u32) << 24u32);
    proof { lemma_le32(b0, b1, b2, b3); }
    assert(input@.subrange(pos as int, pos + 4) =~= seq![b0, b1, b2, b3]);
    Ok((v, pos + 4))
}

/// A little-endian 64-bit word.
fn read_word64(input: &[u8], pos: usize, end: usize) -> (r: Result<(u64, usize), DecodeError>)
    requires
        pos <= end <= input@.len(),
    ensures
        r matches Ok((v, p)) ==> p == pos + 8 && p <= end && input@.subrange(pos as int, p as int) == le64(v),
        r is Ok <==> pos + 8 <= end,
{
    if end - pos < 8 {
        return Err(DecodeError::UnexpectedEnd);
    }
    let (lo, p) = read_word32(input, pos, end)?;
    let (hi, p) = read_word32(input, p, end)?;
    let v: u64 = (lo as u64) | ((hi as u64) << 32u64);
    assert((v & 0xffff_ffff) as u32 == lo && (v >> 32u64) as u32 == hi) by (bit_vector)
        requires v == (lo as u64) | ((hi as u64) << 32u64);
    proof { lemma_subrange_concat(input@, pos as int, pos + 4, p as int); }
    Ok((v, p))
}

/// An instruction whose one immediate is an index.
fn index_instr(op: u8, x: u32) -> (r: Option<Instr>)
    ensures
        r == index_op(op, x),
        r matches Some(i) ==> instr_bytes(i) == seq![op] + uleb(x as nat),
        r matches Some(i) ==> !(i is Block) && !(i is Loop) && !(i is If),
{
    match op {
        0x0c => Some(Instr::br(x)),
        0x0d => Some(Instr::br_if(x)),
        0x10 => Some(Instr::call(x)),
        0x20 => Some(Instr::local_get(x)),
        0x21 => Some(Instr::local_set(x)),
        0x22 => Some(Instr::local_tee(x)),
        0x23 => Some(Instr::global_get(x)),
        0x24 => Some(Instr::global_set(x)),
        0x25 => Some(Instr::table_get(x)),
        0x26 => Some(Instr::table_set(x)),
        _ => None,
    }
}

/// An instruction whose immediates are two integers (alignment and offset,
/// or type and table).
fn memarg_instr(op: u8, a: u32, o: u32) -> (r: Option<Instr>)
    ensures
        r == memarg_op(op, a, o),
        r matches Some(i) ==> instr_bytes(i) == seq![op] + uleb(a as nat) + uleb(o as nat),
        r matches Some(i) ==> !(i is Block) && !(i is Loop) && !(i is If),
{
    match op {
        0x11 => Some(Instr::call_indirect(a, o)),
        0x28 => Some(Instr::i32_load(a, o)),
        0x29 => Some(Instr::i64_load(a, o)),
        0x2a => Some(Instr::f32_load(a, o)),
        0x2b => Some(Instr::f64_load(a, o)),
        0x2c => Some(Instr::i32_load8_s(a, o)),
        0x2d => Some(Instr::i32_load8_u(a, o)),
        0x2e => Some(Instr::i32_load16_s(a, o)),
        0x2f => Some(Instr::i32_load16_u(a, o)),
        0x30 => Some(Instr::i64_load8_s(a, o)),
        0x31 => Some(Instr::i64_load8_u(a, o)),
        0x32 => Some(Instr::i64_load16_s(a, o)),
        0x33 => Some(Instr::i64_load16_u(a, o)),
        0x34 => Some(Instr::i64_load32_s(a, o)),
        0x35 => Some(Instr::i64_load32_u(a, o)),
        0x36 => Some(Instr::i32_store(a, o)),
        0x37 => Some(Instr::i64_store(a, o)),
        0x38 => Some(Instr::f32_store(a, o)),
        0x39 => Some(Instr::f64_store(a, o)),
        0x3a => Some(Instr::i32_store8(a, o)),
        0x3b => Some(Instr::i32_store16(a, o)),
        0x3c => Some(Instr::i64_store8(a, o)),
        0x3d => Some(Instr::i64_store16(a, o)),
        0x3e => Some(Instr::i64_store32(a, o)),
        _ => None,
    }
}

/// An instruction without immediates.
fn plain_instr(op: u8) -> (r: Option<Instr>)
    ensures
        r == plain_op(op),
        r matches Some(i) ==> instr_bytes(i) == seq![op],
        r matches Some(i) ==> !(i is Block) && !(i is Loop) && !(i is If),
{
    match op {
        0x00 => Some(Instr::unreachable),
        0x01 => Some(Instr::nop),
        0x05 => Some(Instr::else_end),
        0x0f => Some(Instr::Return),
        0x1a => Some(Instr::drop),
        0x1b => Some(Instr::select),
        0x45 => Some(Instr::i32_eqz),
        0x46 => Some(Instr::i32_eq),
        0x47 => Some(Instr::i32_ne),
        0x48 => Some(Instr::i32_lt_s),
        0x49 => Some(Instr::i32_lt_u),
        0x4a => Some(Instr::i32_gt_s),
        0x4b => Some(Instr::i32_gt_u),
        0x4c => Some(Instr::i32_le_s),
        0x4d => Some(Instr::i32_le_u),
        0x4e => Some(Instr::i32_ge_s),
        0x4f => Some(Instr::i32_ge_u),
        0x50 => Some(Instr::i64_eqz),
        0x51 => Some(Instr::i64_eq),
        0x52 => Some(Instr::i64_ne),
        0x53 => Some(Instr::i64_lt_s),
        0x54 => Some(Instr::i64_lt_u),
        0x55 => Some(Instr::i64_gt_s),
        0x56 => Some(Instr::i64_gt_u),
        0x57 => Some(Instr::i64_le_s),
        0x58 => Some(Instr::i64_le_u),
        0x59 => Some(Instr::i64_ge_s),
        0x5a => Some(Instr::i64_ge_u),
        0x5b => Some(Instr::f32_eq),
        0x5c => Some(Instr::f32_ne),
        0x5d => Some(Instr::f32_lt),
        0x5e => Some(Instr::f32_gt),
        0x5f => Some(Instr::f32_le),
        0x60 => Some(Instr::f32_ge),
        0x61 => Some(Instr::f64_eq),
        0x62 => Some(Instr::f64_ne),
        0x63 => Some(Instr::f64_lt),
        0x64 => Some(Instr::f64_gt),
        0x65 => Some(Instr::f64_le),
        0x66 => Some(Instr::f64_ge),
        0x67 => Some(Instr::i32_clz),
        0x68 => Some(Instr::i32_ctz),
        0x69 => Some(Instr::i32_popcnt),
        0x6a => Some(Instr::i32_add),
        0x6b => Some(Instr::i32_sub),
        0x6c => Some(Instr::i32_mul),
        0x6d => Some(Instr::i32_div_s),
        0x6e => Some(Instr::i32_div_u),
        0x6f => Some(Instr::i32_rem_s),
        0x70 => Some(Instr::i32_rem_u),
        0x71 => Some(Instr::i32_and),
        0x72 => Some(Instr::i32_or),
        0x73 => Some(Instr::i32_xor),
        0x74 => Some(Instr::i32_shl),
        0x75 => Some(Instr::i32_shr_s),
        0x76 => Some(Instr::i32_shr_u),
        0x77 => Some(Instr::i32_rotl),
        0x78 => Some(Instr::i32_rotr),
        0x79 => Some(Instr::i64_clz),
        0x7a => Some(Instr::i64_ctz),
        0x7b => Some(Instr::i64_popcnt),
        0x7c => Some(Instr::i64_add),
        0x7d => Some(Instr::i64_sub),
        0x7e => Some(Instr::i64_mul),
        0x7f => Some(Instr::i64_div_s),
        0x80 => Some(Instr::i64_div_u),
        0x81 => Some(Instr::i64_rem_s),
        0x82 => Some(Instr::i64_rem_u),
        0x83 => Some(Instr::i64_and),
        0x84 => Some(Instr::i64_or),
        0x85 => Some(Instr::i64_xor),
        0x86 => Some(Instr::i64_shl),
        0x87 => Some(Instr::i64_shr_s),
        0x88 => Some(Instr::i64_shr_u),
        0x89 => Some(Instr::i64_rotl),
        0x8a => Some(Instr::i64_rotr),
        0x8b => Some(Instr::f32_abs),
        0x8c => Some(Instr::f32_neg),
        0x8d => Some(Instr::f32_ceil),
        0x8e => Some(Instr::f32_floor),
        0x8f => Some(Instr::f32_trunc),
        0x90 => Some(Instr::f32_nearest),
        0x91 => Some(Instr::f32_sqrt),
        0x92 => Some(Instr::f32_add),
        0x93 => Some(Instr::f32_sub),
        0x94 => Some(Instr::f32_mul),
        0x95 => Some(Instr::f32_div),
        0x96 => Some(Instr::f32_min),
        0x97 => Some(Instr::f32_max),
        0x98 => Some(Instr::f32_copysign),
        0x99 => Some(Instr::f64_abs),
        0x9a => Some(Instr::f64_neg),
        0x9b => Some(Instr::f64_ceil),
        0x9c => Some(Instr::f64_floor),
        0x9d => Some(Instr::f64_trunc),
        0x9e => Some(Instr::f64_nearest),
        0x9f => Some(Instr::f64_sqrt),
        0xa0 => Some(Instr::f64_add),
        0xa1 => Some(Instr::f64_sub),
        0xa2 => Some(Instr::f64_mul),
        0xa3 => Some(Instr::f64_div),
        0xa4 => Some(Instr::f64_min),
        0xa5 => Some(Instr::f64_max),
        0xa6 => Some(Instr::f64_copysign),
        0xa7 => Some(Instr::i32_wrap_i64),
        0xa8 => Some(Instr::i32_trunc_f32_s),
        0xa9 => Some(Instr::i32_trunc_f32_u),
        0xaa => Some(Instr::i32_trunc_f64_s),
        0xab => Some(Instr::i32_trunc_f64_u),
        0xac => Some(Instr::i64_extend_i32_s),
        0xad => Some(Instr::i64_extend_i32_u),
        0xae => Some(Instr::i64_trunc_f32_s),
        0xaf => Some(Instr::i64_trunc_f32_u),
        0xb0 => Some(Instr::i64_trunc_f64_s),
        0xb1 => Some(Instr::i64_trunc_f64_u),
        0xb2 => Some(Instr::f32_convert_i32_s),
        0xb3 => Some(Instr::f32_convert_i32_u),
        0xb4 => Some(Instr::f32_convert_i64_s),
        0xb5 => Some(Instr::f32_convert_i64_u),
        0xb6 => Some(Instr::f32_demote_f64),
        0xb7 => Some(Instr::f64_convert_i32_s),
        0xb8 => Some(Instr::f64_convert_i32_u),
        0xb9 => Some(Instr::f64_convert_i64_s),
        0xba => Some(Instr::f64_convert_i64_u),
        0xbb => Some(Instr::f64_promote_f32),
        0xbc => Some(Instr::i32_reinterpret_f32),
        0xbd => Some(Instr::i64_reinterpret_f64),
        0xbe => Some(Instr::f32_reinterpret_i32),
        0xbf => Some(Instr::f64_reinterpret_i64),
        0xc0 => Some(Instr::i32_extend8_s),
        0xc1 => Some(Instr::i32_extend16_s),
        0xc2 => Some(Instr::i64_extend8_s),
        0xc3 => Some(Instr::i64_extend16_s),
        0xc4 => Some(Instr::i64_extend32_s),
        _ => None,
    }
}

pub open spec fn is_block_op(op: u8) -> bool {
    op == 0x02 || op == 0x03 || op == 0x04
}

pub open spec fn is_index_op(op: u8) -> bool {
    op == 0x0c || op == 0x0d || op == 0x10 || (0x20 <= op && op <= 0x26)
}

pub open spec fn is_memarg_op(op: u8) -> bool {
    op == 0x11 || (0x28 <= op && op <= 0x3e)
}

/// The operation bytes whose immediates are read by their own branch.
pub open spec fn is_special_op(op: u8) -> bool {
    is_block_op(op) || op == 0x0e || op == 0x3f || op == 0x40 || op == 0x41 || op == 0x42 || op == 0x43
        || op == 0x44
}

/// An operation byte that this decoder knows.
pub open spec fn known_op(op: u8) -> bool {
    is_special_op(op) || is_index_op(op) || is_memarg_op(op) || plain_op(op) is Some
}

/// The instruction with index immediate `x` for operation byte `op`.
pub open spec fn index_op(op: u8, x: u32) -> Option<Instr> {
    match op {
        0x0c => Some(Instr::br(x)),
        0x0d => Some(Instr::br_if(x)),
        0x10 => Some(Instr::call(x)),
        0x20 => Some(Instr::local_get(x)),
        0x21 => Some(Instr::local_set(x)),
        0x22 => Some(Instr::local_tee(x)),
        0x23 => Some(Instr::global_get(x)),
        0x24 => Some(Instr::global_set(x)),
        0x25 => Some(Instr::table_get(x)),
        0x26 => Some(Instr::table_set(x)),
        _ => None,
    }
}

/// The instruction with immediates `a`, `o` for operation byte `op`.
pub open spec fn memarg_op(op: u8, a: u32, o: u32) -> Option<Instr> {
    match op {
        0x11 => Some(Instr::call_indirect(a, o)),
        0x28 => Some(Instr::i32_load(a, o)),
        0x29 => Some(Instr::i64_load(a, o)),
        0x2a => Some(Instr::f32_load(a, o)),
        0x2b => Some(Instr::f64_load(a, o)),
        0x2c => Some(Instr::i32_load8_s(a, o)),
        0x2d => Some(Instr::i32_load8_u(a, o)),
        0x2e => Some(Instr::i32_load16_s(a, o)),
        0x2f => Some(Instr::i32_load16_u(a, o)),
        0x30 => Some(Instr::i64_load8_s(a, o)),
        0x31 => Some(Instr::i64_load8_u(a, o)),
        0x32 => Some(Instr::i64_load16_s(a, o)),
        0x33 => Some(Instr::i64_load16_u(a, o)),
        0x34 => Some(Instr::i64_load32_s(a, o)),
        0x35 => Some(Instr::i64_load32_u(a, o)),
        0x36 => Some(Instr::i32_store(a, o)),
        0x37 => Some(Instr::i64_store(a, o)),
        0x38 => Some(Instr::f32_store(a, o)),
        0x39 => Some(Instr::f64_store(a, o)),
        0x3a => Some(Instr::i32_store8(a, o)),
        0x3b => Some(Instr::i32_store16(a, o)),
        0x3c => Some(Instr::i64_store8(a, o)),
        0x3d => Some(Instr::i64_store16(a, o)),
        0x3e => Some(Instr::i64_store32(a, o)),
        _ => None,
    }
}

/// The instruction without immediates for operation byte `op`.
pub open spec fn plain_op(op: u8) -> Option<Instr> {
    match op {
        0x00 => Some(Instr::unreachable),
        0x01 => Some(Instr::nop),
        0x05 => Some(Instr::else_end),
        0x0f => Some(Instr::Return),
        0x1a => Some(Instr::drop),
        0x1b => Some(Instr::select),
        0x45 => Some(Instr::i32_eqz),
        0x46 => Some(Instr::i32_eq),
        0x47 => Some(Instr::i32_ne),
        0x48 => Some(Instr::i32_lt_s),
        0x49 => Some(Instr::i32_lt_u),
        0x4a => Some(Instr::i32_gt_s),
        0x4b => Some(Instr::i32_gt_u),
        0x4c => Some(Instr::i32_le_s),
        0x4d => Some(Instr::i32_le_u),
        0x4e => Some(Instr::i32_ge_s),
        0x4f => Some(Instr::i32_ge_u),
        0x50 => Some(Instr::i64_eqz),
        0x51 => Some(Instr::i64_eq),
        0x52 => Some(Instr::i64_ne),
        0x53 => Some(Instr::i64_lt_s),
        0x54 => Some(Instr::i64_lt_u),
        0x55 => Some(Instr::i64_gt_s),
        0x56 => Some(Instr::i64_gt_u),
        0x57 => Some(Instr::i64_le_s),
        0x58 => Some(Instr::i64_le_u),
        0x59 => Some(Instr::i64_ge_s),
        0x5a => Some(Instr::i64_ge_u),
        0x5b => Some(Instr::f32_eq),
        0x5c => Some(Instr::f32_ne),
        0x5d => Some(Instr::f32_lt),
        0x5e => Some(Instr::f32_gt),
        0x5f => Some(Instr::f32_le),
        0x60 => Some(Instr::f32_ge),
        0x61 => Some(Instr::f64_eq),
        0x62 => Some(Instr::f64_ne),
        0x63 => Some(Instr::f64_lt),
        0x64 => Some(Instr::f64_gt),
        0x65 => Some(Instr::f64_le),
        0x66 => Some(Instr::f64_ge),
        0x67 => Some(Instr::i32_clz),
        0x68 => Some(Instr::i32_ctz),
        0x69 => Some(Instr::i32_popcnt),
        0x6a => Some(Instr::i32_add),
        0x6b => Some(Instr::i32_sub),
        0x6c => Some(Instr::i32_mul),
        0x6d => Some(Instr::i32_div_s),
        0x6e => Some(Instr::i32_div_u),
        0x6f => Some(Instr::i32_rem_s),
        0x70 => Some(Instr::i32_rem_u),
        0x71 => Some(Instr::i32_and),
        0x72 => Some(Instr::i32_or),
        0x73 => Some(Instr::i32_xor),
        0x74 => Some(Instr::i32_shl),
        0x75 => Some(Instr::i32_shr_s),
        0x76 => Some(Instr::i32_shr_u),
        0x77 => Some(Instr::i32_rotl),
        0x78 => Some(Instr::i32_rotr),
        0x79 => Some(Instr::i64_clz),
        0x7a => Some(Instr::i64_ctz),
        0x7b => Some(Instr::i64_popcnt),
        0x7c => Some(Instr::i64_add),
        0x7d => Some(Instr::i64_sub),
        0x7e => Some(Instr::i64_mul),
        0x7f => Some(Instr::i64_div_s),
        0x80 => Some(Instr::i64_div_u),
        0x81 => Some(Instr::i64_rem_s),
        0x82 => Some(Instr::i64_rem_u),
        0x83 => Some(Instr::i64_and),
        0x84 => Some(Instr::i64_or),
        0x85 => Some(Instr::i64_xor),
        0x86 => Some(Instr::i64_shl),
        0x87 => Some(Instr::i64_shr_s),
        0x88 => Some(Instr::i64_shr_u),
        0x89 => Some(Instr::i64_rotl),
        0x8a => Some(Instr::i64_rotr),
        0x8b => Some(Instr::f32_abs),
        0x8c => Some(Instr::f32_neg),
        0x8d => Some(Instr::f32_ceil),
        0x8e => Some(Instr::f32_floor),
        0x8f => Some(Instr::f32_trunc),
        0x90 => Some(Instr::f32_nearest),
        0x91 => Some(Instr::f32_sqrt),
        0x92 => Some(Instr::f32_add),
        0x93 => Some(Instr::f32_sub),
        0x94 => Some(Instr::f32_mul),
        0x95 => Some(Instr::f32_div),
        0x96 => Some(Instr::f32_min),
        0x97 => Some(Instr::f32_max),
        0x98 => Some(Instr::f32_copysign),
        0x99 => Some(Instr::f64_abs),
        0x9a => Some(Instr::f64_neg),
        0x9b => Some(Instr::f64_ceil),
        0x9c => Some(Instr::f64_floor),
        0x9d => Some(Instr::f64_trunc),
        0x9e => Some(Instr::f64_nearest),
        0x9f => Some(Instr::f64_sqrt),
        0xa0 => Some(Instr::f64_add),
        0xa1 => Some(Instr::f64_sub),
        0xa2 => Some(Instr::f64_mul),
        0xa3 => Some(Instr::f64_div),
        0xa4 => Some(Instr::f64_min),
        0xa5 => Some(Instr::f64_max),
        0xa6 => Some(Instr::f64_copysign),
        0xa7 => Some(Instr::i32_wrap_i64),
        0xa8 => Some(Instr::i32_trunc_f32_s),
        0xa9 => Some(Instr::i32_trunc_f32_u),
        0xaa => Some(Instr::i32_trunc_f64_s),
        0xab => Some(Instr::i32_trunc_f64_u),
        0xac => Some(Instr::i64_extend_i32_s),
        0xad => Some(Instr::i64_extend_i32_u),
        0xae => Some(Instr::i64_trunc_f32_s),
        0xaf => Some(Instr::i64_trunc_f32_u),
        0xb0 => Some(Instr::i64_trunc_f64_s),
        0xb1 => Some(Instr::i64_trunc_f64_u),
        0xb2 => Some(Instr::f32_convert_i32_s),
        0xb3 => Some(Instr::f32_convert_i32_u),
        0xb4 => Some(Instr::f32_convert_i64_s),
        0xb5 => Some(Instr::f32_convert_i64_u),
        0xb6 => Some(Instr::f32_demote_f64),
        0xb7 => Some(Instr::f64_convert_i32_s),
        0xb8 => Some(Instr::f64_convert_i32_u),
        0xb9 => Some(Instr::f64_convert_i64_s),
        0xba => Some(Instr::f64_convert_i64_u),
        0xbb => Some(Instr::f64_promote_f32),
        0xbc => Some(Instr::i32_reinterpret_f32),
        0xbd => Some(Instr::i64_reinterpret_f64),
        0xbe => Some(Instr::f32_reinterpret_i32),
        0xbf => Some(Instr::f64_reinterpret_i64),
        0xc0 => Some(Instr::i32_extend8_s),
        0xc1 => Some(Instr::i32_extend16_s),
        0xc2 => Some(Instr::i64_extend8_s),
        0xc3 => Some(Instr::i64_extend16_s),
        0xc4 => Some(Instr::i64_extend32_s),
        _ => None,
    }
}

/// How the immediates of an instruction are laid out.
pub open spec fn instr_class(i: Instr) -> u8 {
    match i {
        Instr::Block(..) | Instr::Loop(..) | Instr::If(..) => 1,
        Instr::br_table(..) => 2,
        Instr::memory_size(_) | Instr::memory_grow(_) => 3,
        Instr::i32_const(_) | Instr::i64_const(_) => 4,
        Instr::f32_const(_) => 5,
        Instr::f64_const(_) => 6,
        Instr::br(_)
        | Instr::br_if(_)
        | Instr::call(_)
        | Instr::local_get(_)
        | Instr::local_set(_)
        | Instr::local_tee(_)
        | Instr::global_get(_)
        | Instr::global_set(_)
        | Instr::table_get(_)
        | Instr::table_set(_) => 7,
        _ => if memarg(i) is Some { 8 } else { 9 },
    }
}

/// The index immediate of an instruction of class 7.
pub open spec fn index_imm(i: Instr) -> u32 {
    match i {
        Instr::br(x)
        | Instr::br_if(x)
        | Instr::call(x)
        | Instr::local_get(x)
        | Instr::local_set(x)
        | Instr::local_tee(x)
        | Instr::global_get(x)
        | Instr::global_set(x)
        | Instr::table_get(x)
        | Instr::table_set(x) => x,
        _ => 0,
    }
}

/// Which branch of the decoder reads each instruction back.
pub proof fn lemma_dispatch(i: Instr)
    ensures
        opcode(i) != 0x0b,
        instr_class(i) == 1 ==> is_block_op(opcode(i)),
        instr_class(i) == 2 ==> opcode(i) == 0x0e,
        instr_class(i) == 3 ==> opcode(i) == 0x3f || opcode(i) == 0x40,
        instr_class(i) == 4 ==> opcode(i) == 0x41 || opcode(i) == 0x42,
        instr_class(i) == 5 ==> opcode(i) == 0x43,
        instr_class(i) == 6 ==> opcode(i) == 0x44,
        instr_class(i) == 7 ==> {
            &&& !is_special_op(opcode(i)) && is_index_op(opcode(i))
            &&& index_op(opcode(i), index_imm(i)) == Some(i)
            &&& instr_bytes(i) == seq![opcode(i)] + uleb(index_imm(i) as nat)
        },
        instr_class(i) == 8 ==> {
            &&& !is_special_op(opcode(i)) && !is_index_op(opcode(i)) && is_memarg_op(opcode(i))
            &&& memarg(i) is Some
            &&& memarg_op(opcode(i), (memarg(i)->0).0, (memarg(i)->0).1) == Some(i)
            &&& instr_bytes(i) == seq![opcode(i)] + uleb((memarg(i)->0).0 as nat) + uleb((memarg(i)->0).1 as nat)
        },
        instr_class(i) == 9 ==> {
            &&& !is_special_op(opcode(i)) && !is_index_op(opcode(i)) && !is_memarg_op(opcode(i))
            &&& plain_op(opcode(i)) == Some(i)
            &&& instr_bytes(i) == seq![opcode(i)]
        },
{
    match i {
        Instr::unreachable => {
            assert(instr_bytes(i) =~= seq![opcode(i)]);
        },
        Instr::nop => {
            assert(instr_bytes(i) =~= seq![opcode(i)]);
        },
        Instr::Block(..) => {},
        Instr::Loop(..) => {},
        Instr::If(..) => {},
        Instr::else_end => {
            assert(instr_bytes(i) =~= seq![opcode(i)]);
        },
        Instr::br(x) => {
            assert(instr_bytes(i) =~= seq![opcode(i)] + uleb(x as nat));
        },
        Instr::br_if(x) => {
            assert(instr_bytes(i) =~= seq![opcode(i)] + uleb(x as nat));
        },
        Instr::br_table(..) => {},
        Instr::Return => {
            assert(instr_bytes(i) =~= seq![opcode(i)]);
        },
        Instr::call(x) => {
            assert(instr_bytes(i) =~= seq![opcode(i)] + uleb(x as nat));
        },
        Instr::call_indirect(a, o) => {
            assert(instr_bytes(i) =~= seq![opcode(i)] + uleb(a as nat) + uleb(o as nat));
        },
        Instr::drop => {
            assert(instr_bytes(i) =~= seq![opcode(i)]);
        },
        Instr::select => {
            assert(instr_bytes(i) =~= seq![opcode(i)]);
        },
        Instr::local_get(x) => {
            assert(instr_bytes(i) =~= seq![opcode(i)] + uleb(x as nat));
        },
        Instr::local_set(x) => {
            assert(instr_bytes(i) =~= seq![opcode(i)] + uleb(x as nat));
        },
        Instr::local_tee(x) => {
            assert(instr_bytes(i) =~= seq![opcode(i)] + uleb(x as nat));
        },
        Instr::global_get(x) => {
            assert(instr_bytes(i) =~= seq![opcode(i)] + uleb(x as nat));
        },
        Instr::global_set(x) => {
            assert(instr_bytes(i) =~= seq![opcode(i)] + uleb(x as nat));
        },
        Instr::table_get(x) => {
            assert(instr_bytes(i) =~= seq![opcode(i)] + uleb(x as nat));
        },
        Instr::table_set(x) => {
            assert(instr_bytes(i) =~= seq![opcode(i)] + uleb(x as nat));
        },
        Instr::i32_load(a, o) => {
            assert(instr_bytes(i) =~= seq![opcode(i)] + uleb(a as nat) + uleb(o as nat));
        },
        Instr::i64_load(a, o) => {
            assert(instr_bytes(i) =~= seq![opcode(i)] + uleb(a as nat) + uleb(o as nat));
        },
        Instr::f32_load(a, o) => {
            assert(instr_bytes(i) =~= seq![opcode(i)] + uleb(a as nat) + uleb(o as nat));
        },
        Instr::f64_load(a, o) => {
            assert(instr_bytes(i) =~= seq![opcode(i)] + uleb(a as nat) + uleb(o as nat));
        },
        Instr::i32_load8_s(a, o) => {
            assert(instr_bytes(i) =~= seq![opcode(i)] + uleb(a as nat) + uleb(o as nat));
        },
        Instr::i32_load8_u(a, o) => {
            assert(instr_bytes(i) =~= seq![opcode(i)] + uleb(a as nat) + uleb(o as nat));
        },
        Instr::i32_load16_s(a, o) => {
            assert(instr_bytes(i) =~= seq![opcode(i)] + uleb(a as nat) + uleb(o as nat));
        },
        Instr::i32_load16_u(a, o) => {
            assert(instr_bytes(i) =~= seq![opcode(i)] + uleb(a as nat) + uleb(o as nat));
        },
        Instr::i64_load8_s(a, o) => {
            assert(instr_bytes(i) =~= seq![opcode(i)] + uleb(a as nat) + uleb(o as nat));
        },
        Instr::i64_load8_u(a, o) => {
            assert(instr_bytes(i) =~= seq![opcode(i)] + uleb(a as nat) + uleb(o as nat));
        },
        Instr::i64_load16_s(a, o) => {
            assert(instr_bytes(i) =~= seq![opcode(i)] + uleb(a as nat) + uleb(o as nat));
        },
        Instr::i64_load16_u(a, o) => {
            assert(instr_bytes(i) =~= seq![opcode(i)] + uleb(a as nat) + uleb(o as nat));
        },
        Instr::i64_load32_s(a, o) => {
            assert(instr_bytes(i) =~= seq![opcode(i)] + uleb(a as nat) + uleb(o as nat));
        },
        Instr::i64_load32_u(a, o) => {
            assert(instr_bytes(i) =~= seq![opcode(i)] + uleb(a as nat) + uleb(o as nat));
        },
        Instr::i32_store(a, o) => {
            assert(instr_bytes(i) =~= seq![opcode(i)] + uleb(a as nat) + uleb(o as nat));
        },
        Instr::i64_store(a, o) => {
            assert(instr_bytes(i) =~= seq![opcode(i)] + uleb(a as nat) + uleb(o as nat));
        },
        Instr::f32_store(a, o) => {
            assert(instr_bytes(i) =~= seq![opcode(i)] + uleb(a as nat) + uleb(o as nat));
        },
        Instr::f64_store(a, o) => {
            assert(instr_bytes(i) =~= seq![opcode(i)] + uleb(a as nat) + uleb(o as nat));
        },
        Instr::i32_store8(a, o) => {
            assert(instr_bytes(i) =~= seq![opcode(i)] + uleb(a as nat) + uleb(o as nat));
        },
        Instr::i32_store16(a, o) => {
            assert(instr_bytes(i) =~= seq![opcode(i)] + uleb(a as nat) + uleb(o as nat));
        },
        Instr::i64_store8(a, o) => {
            assert(instr_bytes(i) =~= seq![opcode(i)] + uleb(a as nat) + uleb(o as nat));
        },
        Instr::i64_store16(a, o) => {
            assert(instr_bytes(i) =~= seq![opcode(i)] + uleb(a as nat) + uleb(o as nat));
        },
        Instr::i64_store32(a, o) => {
            assert(instr_bytes(i) =~= seq![opcode(i)] + uleb(a as nat) + uleb(o as nat));
        },
        Instr::memory_size(..) => {},
        Instr::memory_grow(..) => {},
        Instr::i32_const(..) => {},
        Instr::i64_const(..) => {},
        Instr::f32_const(..) => {},
        Instr::f64_const(..) => {},
        Instr::i32_eqz => {
            assert(instr_bytes(i) =~= seq![opcode(i)]);
        },
        Instr::i32_eq => {
            assert(instr_bytes(i) =~= seq![opcode(i)]);
        },
        Instr::i32_ne => {
            assert(instr_bytes(i) =~= seq![opcode(i)]);
        },
        Instr::i32_lt_s => {
            assert(instr_bytes(i) =~= seq![opcode(i)]);
        },
        Instr::i32_lt_u => {
            assert(instr_bytes(i) =~= seq![opcode(i)]);
        },
        Instr::i32_gt_s => {
            assert(instr_bytes(i) =~= seq![opcode(i)]);
        },
        Instr::i32_gt_u => {
            assert(instr_bytes(i) =~= seq![opcode(i)]);
        },
        Instr::i32_le_s => {
            assert(instr_bytes(i) =~= seq![opcode(i)]);
        },
        Instr::i32_le_u => {
            assert(instr_bytes(i) =~= seq![opcode(i)]);
        },
        Instr::i32_ge_s => {
            assert(instr_bytes(i) =~= seq![opcode(i)]);
        },
        Instr::i32_ge_u => {
            assert(instr_bytes(i) =~= seq![opcode(i)]);
        },
        Instr::i64_eqz => {
            assert(instr_bytes(i) =~= seq![opcode(i)]);
        },
        Instr::i64_eq => {
            assert(instr_bytes(i) =~= seq![opcode(i)]);
        },
        Instr::i64_ne => {
            assert(instr_bytes(i) =~= seq![opcode(i)]);
        },
        Instr::i64_lt_s => {
            assert(instr_bytes(i) =~= seq![opcode(i)]);
        },
        Instr::i64_lt_u => {
            assert(instr_bytes(i) =~= seq![opcode(i)]);
        },
        Instr::i64_gt_s => {
            assert(instr_bytes(i) =~= seq![opcode(i)]);
        },
        Instr::i64_gt_u => {
            assert(instr_bytes(i) =~= seq![opcode(i)]);
        },
        Instr::i64_le_s => {
            assert(instr_bytes(i) =~= seq![opcode(i)]);
        },
        Instr::i64_le_u => {
            assert(instr_bytes(i) =~= seq![opcode(i)]);
        },
        Instr::i64_ge_s => {
            assert(instr_bytes(i) =~= seq![opcode(i)]);
        },
        Instr::i64_ge_u => {
            assert(instr_bytes(i) =~= seq![opcode(i)]);
        },
        Instr::f32_eq => {
            assert(instr_bytes(i) =~= seq![opcode(i)]);
        },
        Instr::f32_ne => {
            assert(instr_bytes(i) =~= seq![opcode(i)]);
        },
        Instr::f32_lt => {
            assert(instr_bytes(i) =~= seq![opcode(i)]);
        },
        Instr::f32_gt => {
            assert(instr_bytes(i) =~= seq![opcode(i)]);
        },
        Instr::f32_le => {
            assert(instr_bytes(i) =~= seq![opcode(i)]);
        },
        Instr::f32_ge => {
            assert(instr_bytes(i) =~= seq![opcode(i)]);
        },
        Instr::f64_eq => {
            assert(instr_bytes(i) =~= seq![opcode(i)]);
        },
        Instr::f64_ne => {
            assert(instr_bytes(i) =~= seq![opcode(i)]);
        },
        Instr::f64_lt => {
            assert(instr_bytes(i) =~= seq![opcode(i)]);
        },
        Instr::f64_gt => {
            assert(instr_bytes(i) =~= seq![opcode(i)]);
        },
        Instr::f64_le => {
            assert(instr_bytes(i) =~= seq![opcode(i)]);
        },
        Instr::f64_ge => {
            assert(instr_bytes(i) =~= seq![opcode(i)]);
        },
        Instr::i32_clz => {
            assert(instr_bytes(i) =~= seq![opcode(i)]);
        },
        Instr::i32_ctz => {
            assert(instr_bytes(i) =~= seq![opcode(i)]);
        },
        Instr::i32_popcnt => {
            assert(instr_bytes(i) =~= seq![opcode(i)]);
        },
        Instr::i32_add => {
            assert(instr_bytes(i) =~= seq![opcode(i)]);
        },
        Instr::i32_sub => {
            assert(instr_bytes(i) =~= seq![opcode(i)]);
        },
        Instr::i32_mul => {
            assert(instr_bytes(i) =~= seq![opcode(i)]);
        },
        Instr::i32_div_s => {
            assert(instr_bytes(i) =~= seq![opcode(i)]);
        },
        Instr::i32_div_u => {
            assert(instr_bytes(i) =~= seq![opcode(i)]);
        },
        Instr::i32_rem_s => {
            assert(instr_bytes(i) =~= seq![opcode(i)]);
        },
        Instr::i32_rem_u => {
            assert(instr_bytes(i) =~= seq![opcode(i)]);
        },
        Instr::i32_and => {
            assert(instr_bytes(i) =~= seq![opcode(i)]);
        },
        Instr::i32_or => {
            assert(instr_bytes(i) =~= seq![opcode(i)]);
        },
        Instr::i32_xor => {
            assert(instr_bytes(i) =~= seq![opcode(i)]);
        },
        Instr::i32_shl => {
            assert(instr_bytes(i) =~= seq![opcode(i)]);
        },
        Instr::i32_shr_s => {
            assert(instr_bytes(i) =~= seq![opcode(i)]);
        },
        Instr::i32_shr_u => {
            assert(instr_bytes(i) =~= seq![opcode(i)]);
        },
        Instr::i32_rotl => {
            assert(instr_bytes(i) =~= seq![opcode(i)]);
        },
        Instr::i32_rotr => {
            assert(instr_bytes(i) =~= seq![opcode(i)]);
        },
        Instr::i64_clz => {
            assert(instr_bytes(i) =~= seq![opcode(i)]);
        },
        Instr::i64_ctz => {
            assert(instr_bytes(i) =~= seq![opcode(i)]);
        },
        Instr::i64_popcnt => {
            assert(instr_bytes(i) =~= seq![opcode(i)]);
        },
        Instr::i64_add => {
            assert(instr_bytes(i) =~= seq![opcode(i)]);
        },
        Instr::i64_sub => {
            assert(instr_bytes(i) =~= seq![opcode(i)]);
        },
        Instr::i64_mul => {
            assert(instr_bytes(i) =~= seq![opcode(i)]);
        },
        Instr::i64_div_s => {
            assert(instr_bytes(i) =~= seq![opcode(i)]);
        },
        Instr::i64_div_u => {
            assert(instr_bytes(i) =~= seq![opcode(i)]);
        },
        Instr::i64_rem_s => {
            assert(instr_bytes(i) =~= seq![opcode(i)]);
        },
        Instr::i64_rem_u => {
            assert(instr_bytes(i) =~= seq![opcode(i)]);
        },
        Instr::i64_and => {
            assert(instr_bytes(i) =~= seq![opcode(i)]);
        },
        Instr::i64_or => {
            assert(instr_bytes(i) =~= seq![opcode(i)]);
        },
        Instr::i64_xor => {
            assert(instr_bytes(i) =~= seq![opcode(i)]);
        },
        Instr::i64_shl => {
            assert(instr_bytes(i) =~= seq![opcode(i)]);
        },
        Instr::i64_shr_s => {
            assert(instr_bytes(i) =~= seq![opcode(i)]);
        },
        Instr::i64_shr_u => {
            assert(instr_bytes(i) =~= seq![opcode(i)]);
        },
        Instr::i64_rotl => {
            assert(instr_bytes(i) =~= seq![opcode(i)]);
        },
        Instr::i64_rotr => {
            assert(instr_bytes(i) =~= seq![opcode(i)]);
        },
        Instr::f32_abs => {
            assert(instr_bytes(i) =~= seq![opcode(i)]);
        },
        Instr::f32_neg => {
            assert(instr_bytes(i) =~= seq![opcode(i)]);
        },
        Instr::f32_ceil => {
            assert(instr_bytes(i) =~= seq![opcode(i)]);
        },
        Instr::f32_floor => {
            assert(instr_bytes(i) =~= seq![opcode(i)]);
        },
        Instr::f32_trunc => {
            assert(instr_bytes(i) =~= seq![opcode(i)]);
        },
        Instr::f32_nearest => {
            assert(instr_bytes(i) =~= seq![opcode(i)]);
        },
        Instr::f32_sqrt => {
            assert(instr_bytes(i) =~= seq![opcode(i)]);
        },
        Instr::f32_add => {
            assert(instr_bytes(i) =~= seq![opcode(i)]);
        },
        Instr::f32_sub => {
            assert(instr_bytes(i) =~= seq![opcode(i)]);
        },
        Instr::f32_mul => {
            assert(instr_bytes(i) =~= seq![opcode(i)]);
        },
        Instr::f32_div => {
            assert(instr_bytes(i) =~= seq![opcode(i)]);
        },
        Instr::f32_min => {
            assert(instr_bytes(i) =~= seq![opcode(i)]);
        },
        Instr::f32_max => {
            assert(instr_bytes(i) =~= seq![opcode(i)]);
        },
        Instr::f32_copysign => {
            assert(instr_bytes(i) =~= seq![opcode(i)]);
        },
        Instr::f64_abs => {
            assert(instr_bytes(i) =~= seq![opcode(i)]);
        },
        Instr::f64_neg => {
            assert(instr_bytes(i) =~= seq![opcode(i)]);
        },
        Instr::f64_ceil => {
            assert(instr_bytes(i) =~= seq![opcode(i)]);
        },
        Instr::f64_floor => {
            assert(instr_bytes(i) =~= seq![opcode(i)]);
        },
        Instr::f64_trunc => {
            assert(instr_bytes(i) =~= seq![opcode(i)]);
        },
        Instr::f64_nearest => {
            assert(instr_bytes(i) =~= seq![opcode(i)]);
        },
        Instr::f64_sqrt => {
            assert(instr_bytes(i) =~= seq![opcode(i)]);
        },
        Instr::f64_add => {
            assert(instr_bytes(i) =~= seq![opcode(i)]);
        },
        Instr::f64_sub => {
            assert(instr_bytes(i) =~= seq![opcode(i)]);
        },
        Instr::f64_mul => {
            assert(instr_bytes(i) =~= seq![opcode(i)]);
        },
        Instr::f64_div => {
            assert(instr_bytes(i) =~= seq![opcode(i)]);
        },
        Instr::f64_min => {
            assert(instr_bytes(i) =~= seq![opcode(i)]);
        },
        Instr::f64_max => {
            assert(instr_bytes(i) =~= seq![opcode(i)]);
        },
        Instr::f64_copysign => {
            assert(instr_bytes(i) =~= seq![opcode(i)]);
        },
        Instr::i32_wrap_i64 => {
            assert(instr_bytes(i) =~= seq![opcode(i)]);
        },
        Instr::i32_trunc_f32_s => {
            assert(instr_bytes(i) =~= seq![opcode(i)]);
        },
        Instr::i32_trunc_f32_u => {
            assert(instr_bytes(i) =~= seq![opcode(i)]);
        },
        Instr::i32_trunc_f64_s => {
            assert(instr_bytes(i) =~= seq![opcode(i)]);
        },
        Instr::i32_trunc_f64_u => {
            assert(instr_bytes(i) =~= seq![opcode(i)]);
        },
        Instr::i64_extend_i32_s => {
            assert(instr_bytes(i) =~= seq![opcode(i)]);
        },
        Instr::i64_extend_i32_u => {
            assert(instr_bytes(i) =~= seq![opcode(i)]);
        },
        Instr::i64_trunc_f32_s => {
            assert(instr_bytes(i) =~= seq![opcode(i)]);
        },
        Instr::i64_trunc_f32_u => {
            assert(instr_bytes(i) =~= seq![opcode(i)]);
        },
        Instr::i64_trunc_f64_s => {
            assert(instr_bytes(i) =~= seq![opcode(i)]);
        },
        Instr::i64_trunc_f64_u => {
            assert(instr_bytes(i) =~= seq![opcode(i)]);
        },
        Instr::f32_convert_i32_s => {
            assert(instr_bytes(i) =~= seq![opcode(i)]);
        },
        Instr::f32_convert_i32_u => {
            assert(instr_bytes(i) =~= seq![opcode(i)]);
        },
        Instr::f32_convert_i64_s => {
            assert(instr_bytes(i) =~= seq![opcode(i)]);
        },
        Instr::f32_convert_i64_u => {
            assert(instr_bytes(i) =~= seq![opcode(i)]);
        },
        Instr::f32_demote_f64 => {
            assert(instr_bytes(i) =~= seq![opcode(i)]);
        },
        Instr::f64_convert_i32_s => {
            assert(instr_bytes(i) =~= seq![opcode(i)]);
        },
        Instr::f64_convert_i32_u => {
            assert(instr_bytes(i) =~= seq![opcode(i)]);
        },
        Instr::f64_convert_i64_s => {
            assert(instr_bytes(i) =~= seq![opcode(i)]);
        },
        Instr::f64_convert_i64_u => {
            assert(instr_bytes(i) =~= seq![opcode(i)]);
        },
        Instr::f64_promote_f32 => {
            assert(instr_bytes(i) =~= seq![opcode(i)]);
        },
        Instr::i32_reinterpret_f32 => {
            assert(instr_bytes(i) =~= seq![opcode(i)]);
        },
        Instr::i64_reinterpret_f64 => {
            assert(instr_bytes(i) =~= seq![opcode(i)]);
        },
        Instr::f32_reinterpret_i32 => {
            assert(instr_bytes(i) =~= seq![opcode(i)]);
        },
        Instr::f64_reinterpret_i64 => {
            assert(instr_bytes(i) =~= seq![opcode(i)]);
        },
        Instr::i32_extend8_s => {
            assert(instr_bytes(i) =~= seq![opcode(i)]);
        },
        Instr::i32_extend16_s => {
            assert(instr_bytes(i) =~= seq![opcode(i)]);
        },
        Instr::i64_extend8_s => {
            assert(instr_bytes(i) =~= seq![opcode(i)]);
        },
        Instr::i64_extend16_s => {
            assert(instr_bytes(i) =~= seq![opcode(i)]);
        },
        Instr::i64_extend32_s => {
            assert(instr_bytes(i) =~= seq![opcode(i)]);
        },
    }
}

/// Relies on nom::bytes::complete::take on a byte slice: it splits off the
/// first `n` bytes, and fails when fewer than `n` remain. Gives the taken
/// bytes and the rest.
#[verifier::external_body]
fn take<'a>(input: &'a [u8], n: usize) -> (r: Option<(&'a [u8], &'a [u8])>)
    ensures
        r is Some <==> n <= input@.len(),
        r matches Some((taken, rest)) ==> {
            &&& taken@ == input@.subrange(0, n as int)
            &&& rest@ == input@.subrange(n as int, input@.len() as int)
        },
{
    match nom::bytes::complete::take::<usize, &[u8], nom::error::Error<&[u8]>>(n)(input) {
        Ok((rest, taken)) => Some((taken, rest)),
        Err(_) => None,
    }
}

/// The next `n` bytes.
fn read_bytes<'a>(input: &'a [u8], pos: usize, end: usize, n: usize) -> (r: Result<(&'a [u8], usize), DecodeError>)
    requires
        pos <= end <= input@.len(),
    ensures
        r matches Ok((b, p)) ==> p == pos + n && p <= end && b@ == input@.subrange(pos as int, p as int),
        r is Err <==> pos + n > end,
{
    let rest = slice_subrange(input, pos, end);
    match take(rest, n) {
        None => Err(DecodeError::UnexpectedEnd),
        Some((taken, _)) => {
            assert(taken@ =~= input@.subrange(pos as int, pos + n));
            Ok((taken, pos + n))
        },
    }
}

/// A length-prefixed byte string (a name, or a data segment's payload).
fn read_name(input: &[u8], pos: usize, end: usize) -> (r: Result<(Vec<u8>, usize), DecodeError>)
    requires
        pos <= end <= input@.len(),
    ensures
        r matches Ok((b, p)) ==> pos < p <= end && input@.subrange(pos as int, p as int) == name_bytes(b@),
        forall|b: Seq<u8>|
            #![trigger name_bytes(b)]
            b.len() <= u32::MAX && starts_with(input@, pos as int, end as int, name_bytes(b)) ==> (r is Ok && (r->Ok_0).1
                == pos + name_bytes(b).len()),
{
    proof {
        assert forall|x: Seq<u8>|
            #![trigger name_bytes(x)]
            starts_with(input@, pos as int, end as int, name_bytes(x)) implies (x.len() <= u32::MAX ==> starts_with(input@, pos as int, end as int, uleb(((x.len() as u32) as nat)))) by {
            if x.len() <= u32::MAX {
                lemma_starts_with_split(input@, pos as int, end as int, uleb(x.len()), x);
                assert(uleb(x.len()) == uleb(((x.len() as u32) as nat)));
            }
        }
    }
    let (n, p) = read_u32(input, pos, end)?;
    proof {
        assert forall|b: Seq<u8>|
            #![trigger name_bytes(b)]
            b.len() <= u32::MAX && starts_with(input@, pos as int, end as int, name_bytes(b)) implies n == b.len() && p
                == pos + uleb(b.len()).len() && p + b.len() <= end by {
            lemma_starts_with_split(input@, pos as int, end as int, uleb(b.len()), b);
            assert(uleb(b.len()) == uleb(((b.len() as u32) as nat)));
        }
    }
    let (b, q) = read_bytes(input, p, end, n as usize)?;
    let v = slice_to_vec(b);
    proof { lemma_subrange_concat(input@, pos as int, p as int, q as int); }
    Ok((v, q))
}


/// An instruction the decoder reads back: its vectors have 32-bit lengths,
/// at every depth.
pub open spec fn supported_instr(i: Instr) -> bool
    decreases i, 1int,
{
    match i {
        Instr::Block(_, b) => supported_body(b@),
        Instr::Loop(_, b) => supported_body(b@),
        Instr::If(_, b) => supported_body(b@),
        Instr::br_table(t, _) => t@.len() <= u32::MAX,
        _ => true,
    }
}

pub open spec fn supported_body(s: Seq<Value<Instr>>) -> bool
    decreases s, 0int,
{
    forall|k: int| 0 <= k < s.len() ==> supported_instr(#[trigger] s[k].value)
}

/// `input[pos..end]` starts with `a` followed by `b`.
pub proof fn lemma_starts_with_split(input: Seq<u8>, pos: int, end: int, a: Seq<u8>, b: Seq<u8>)
    requires
        0 <= pos,
        end <= input.len(),
        starts_with(input, pos, end, a + b),
    ensures
        starts_with(input, pos, end, a),
        starts_with(input, pos + a.len(), end, b),
{
    let w = input.subrange(pos, pos + (a + b).len());
    assert(w == a + b);
    assert(input.subrange(pos, pos + a.len()) =~= w.subrange(0, a.len() as int));
    assert(w.subrange(0, a.len() as int) =~= a);
    assert(input.subrange(pos + a.len(), pos + a.len() + b.len()) =~= w.subrange(a.len() as int, w.len() as int));
    assert(w.subrange(a.len() as int, w.len() as int) =~= b);
}

pub proof fn lemma_concat_map_append<T>(a: Seq<T>, b: Seq<T>, f: spec_fn(T) -> Seq<u8>)
    ensures
        concat_map(a + b, f) == concat_map(a, f) + concat_map(b, f),
    decreases b.len(),
{
    if b.len() == 0 {
        assert(a + b =~= a);
        assert(concat_map(a, f) + concat_map(b, f) =~= concat_map(a, f));
    } else {
        lemma_concat_map_append(a, b.drop_last(), f);
        assert((a + b).drop_last() =~= a + b.drop_last());
        assert(concat_map(a + b, f) =~= concat_map(a, f) + concat_map(b, f));
    }
}

/// The bytes of `s` from item `k` on start with the bytes of item `k`.
pub proof fn lemma_concat_map_at<T>(s: Seq<T>, k: int, f: spec_fn(T) -> Seq<u8>)
    requires
        0 <= k < s.len(),
    ensures
        concat_map(s, f) == concat_map(s.take(k), f) + f(s[k]) + concat_map(s.skip(k + 1), f),
        concat_map(s.take(k + 1), f) == concat_map(s.take(k), f) + f(s[k]),
{
    assert(s =~= s.take(k + 1) + s.skip(k + 1));
    lemma_concat_map_append(s.take(k + 1), s.skip(k + 1), f);
    assert(s.take(k + 1).drop_last() =~= s.take(k));
}

pub proof fn lemma_body_bytes_append(a: Seq<Value<Instr>>, b: Seq<Value<Instr>>)
    ensures
        body_bytes(a + b) == body_bytes(a) + body_bytes(b),
    decreases b.len(),
{
    if b.len() == 0 {
        assert(a + b =~= a);
        assert(body_bytes(a) + body_bytes(b) =~= body_bytes(a));
    } else {
        lemma_body_bytes_append(a, b.drop_last());
        assert((a + b).drop_last() =~= a + b.drop_last());
        assert(body_bytes(a + b) =~= body_bytes(a) + body_bytes(b));
    }
}

pub proof fn lemma_body_bytes_at(s: Seq<Value<Instr>>, k: int)
    requires
        0 <= k < s.len(),
    ensures
        body_bytes(s) == body_bytes(s.take(k)) + instr_bytes(s[k].value) + body_bytes(s.skip(k + 1)),
        body_bytes(s.take(k + 1)) == body_bytes(s.take(k)) + instr_bytes(s[k].value),
{
    assert(s =~= s.take(k + 1) + s.skip(k + 1));
    lemma_body_bytes_append(s.take(k + 1), s.skip(k + 1));
    assert(s.take(k + 1).drop_last() =~= s.take(k));
}

/// The bytes of a list of indices, without its length.
pub open spec fn u32s_bytes(t: Seq<u32>) -> Seq<u8> {
    concat_map(t, |x: u32| u32_bytes(x))
}

/// `n` minimally encoded 32-bit integers; any `n` such encodings are read.
fn read_u32s(input: &[u8], pos: usize, end: usize, n: u32) -> (r: Result<(Vec<u32>, usize), DecodeError>)
    requires
        pos <= end <= input@.len(),
    ensures
        r matches Ok((v, p)) ==> pos <= p <= end && v@.len() == n && input@.subrange(pos as int, p as int)
            == u32s_bytes(v@),
        forall|t: Seq<u32>|
            #![trigger u32s_bytes(t)]
            t.len() == n && starts_with(input@, pos as int, end as int, u32s_bytes(t)) ==> (r is Ok && (r->Ok_0).1
                == pos + u32s_bytes(t).len()),
{
    let mut items: Vec<u32> = Vec::new();
    let mut q = pos;
    let mut failed: Option<DecodeError> = None;
    while items.len() < n as usize && failed.is_none()
        invariant
            pos <= q <= end <= input@.len(),
            items@.len() <= n,
            input@.subrange(pos as int, q as int) == u32s_bytes(items@),
            failed is Some ==> forall|t: Seq<u32>|
                #![trigger u32s_bytes(t)]
                !(t.len() == n && starts_with(input@, pos as int, end as int, u32s_bytes(t))),
            forall|t: Seq<u32>|
                #![trigger u32s_bytes(t)]
                t.len() == n && starts_with(input@, pos as int, end as int, u32s_bytes(t)) ==> q == pos
                    + u32s_bytes(t.take(items@.len() as int)).len(),
        decreases n - items@.len() + (if failed is None { 1int } else { 0int }),
    {
        let k = items.len();
        match read_u32(input, q, end) {
            Ok((x, q2)) => {
                proof {
                    lemma_subrange_concat(input@, pos as int, q as int, q2 as int);
                    lemma_concat_map_push(items@.push(x), k as int, |x: u32| u32_bytes(x));
                    assert(items@.push(x).subrange(0, k as int) =~= items@);
                    assert(items@.push(x).subrange(0, k as int + 1) =~= items@.push(x));
                    assert forall|t: Seq<u32>|
                        #![trigger u32s_bytes(t)]
                        t.len() == n && starts_with(input@, pos as int, end as int, u32s_bytes(t)) implies q2 == pos
                            + u32s_bytes(t.take(k + 1)).len() by {
                        lemma_concat_map_at(t, k as int, |x: u32| u32_bytes(x));
                        lemma_starts_with_split(input@, pos as int, end as int, u32s_bytes(t.take(k as int)) + u32_bytes(t[k as int]), u32s_bytes(t.skip(k + 1)));
                        lemma_starts_with_split(input@, pos as int, end as int, u32s_bytes(t.take(k as int)), u32_bytes(t[k as int]));
                        assert(uleb(t[k as int] as nat) == u32_bytes(t[k as int]));
                    }
                }
                items.push(x);
                q = q2;
            },
            Err(e) => {
                proof {
                    assert forall|t: Seq<u32>|
                        #![trigger u32s_bytes(t)]
                        !(t.len() == n && starts_with(input@, pos as int, end as int, u32s_bytes(t))) by {
                        if t.len() == n && starts_with(input@, pos as int, end as int, u32s_bytes(t)) {
                            lemma_concat_map_at(t, k as int, |x: u32| u32_bytes(x));
                            lemma_starts_with_split(input@, pos as int, end as int, u32s_bytes(t.take(k as int)) + u32_bytes(t[k as int]), u32s_bytes(t.skip(k + 1)));
                            lemma_starts_with_split(input@, pos as int, end as int, u32s_bytes(t.take(k as int)), u32_bytes(t[k as int]));
                            assert(uleb(t[k as int] as nat) == u32_bytes(t[k as int]));
                        }
                    }
                }
                failed = Some(e);
            },
        }
    }
    match failed {
        Some(e) => Err(e),
        None => {
            proof {
                assert forall|t: Seq<u32>|
                    #![trigger u32s_bytes(t)]
                    t.len() == n && starts_with(input@, pos as int, end as int, u32s_bytes(t)) implies q == pos
                        + u32s_bytes(t).len() by {
                    assert(t.take(n as int) =~= t);
                }
            }
            Ok((items, q))
        },
    }
}

/// One instruction, with the nested body of a `block`, `loop` or `if`. Any
/// supported instruction is read back, exactly over its bytes.
#[verifier::spinoff_prover]
#[verifier::rlimit(100)]
fn decode_instr(input: &[u8], pos: usize, end: usize) -> (r: Result<(Value<Instr>, usize), DecodeError>)
    requires
        pos <= end <= input@.len(),
    ensures
        r matches Ok((v, p)) ==> {
            &&& pos < p <= end
            &&& v.start_offset == pos && v.end_offset == p
            &&& instr_spans(v, input@)
        },
        forall|i: Instr|
            #![trigger instr_bytes(i)]
            supported_instr(i) && starts_with(input@, pos as int, end as int, instr_bytes(i)) ==> (r is Ok && (r->Ok_0).1
                == pos + instr_bytes(i).len()),
        pos < end && !known_op(input@[pos as int]) ==> r == Err::<(Value<Instr>, usize), DecodeError>(
            DecodeError::UnknownOpcode(input@[pos as int]),
        ),
    decreases end - pos, 0int,
{
    if pos >= end {
        return Err(DecodeError::UnexpectedEnd);
    }
    let op = input[pos];
    let p = pos + 1;
    assert(input@.subrange(pos as int, p as int) =~= seq![op]);
    let res: Result<(Instr, usize), DecodeError> = if op == 0x02 || op == 0x03 || op == 0x04 {
        match read_byte(input, p, end) {
            Err(e) => Err(e),
            Ok((bt, p2)) => match decode_expr(input, p2, end) {
                Err(e) => Err(e),
                Ok((body, q)) => {
                    proof {
                        lemma_subrange_concat(input@, pos as int, p as int, p2 as int);
                        lemma_subrange_concat(input@, pos as int, p2 as int, q as int);
                    }
                    let instr = if op == 0x02 {
                        Instr::Block(bt, body)
                    } else if op == 0x03 {
                        Instr::Loop(bt, body)
                    } else {
                        Instr::If(bt, body)
                    };
                    assert(input@.subrange(pos as int, q as int) =~= instr_bytes(instr));
                    Ok((instr, q))
                },
            },
        }
    } else if op == 0x0e {
        match read_u32(input, p, end) {
            Err(e) => Err(e),
            Ok((n, p2)) => match read_u32s(input, p2, end, n) {
                Err(e) => Err(e),
                Ok((targets, p3)) => match read_u32(input, p3, end) {
                    Err(e) => Err(e),
                    Ok((default, q)) => {
                        proof {
                            lemma_subrange_concat(input@, p as int, p2 as int, p3 as int);
                            lemma_subrange_concat(input@, p as int, p3 as int, q as int);
                            lemma_subrange_concat(input@, pos as int, p as int, q as int);
                        }
                        let instr = Instr::br_table(targets, default);
                        assert(input@.subrange(pos as int, q as int) =~= instr_bytes(instr));
                        Ok((instr, q))
                    },
                },
            },
        }
    } else if op == 0x3f || op == 0x40 {
        match read_byte(input, p, end) {
            Err(e) => Err(e),
            Ok((b, q)) => {
                proof { lemma_subrange_concat(input@, pos as int, p as int, q as int); }
                let instr = if op == 0x3f { Instr::memory_size(b) } else { Instr::memory_grow(b) };
                assert(input@.subrange(pos as int, q as int) =~= instr_bytes(instr));
                Ok((instr, q))
            },
        }
    } else if op == 0x41 || op == 0x42 {
        match read_i64(input, p, end) {
            Err(e) => Err(e),
            Ok((v, q)) => {
                proof { lemma_subrange_concat(input@, pos as int, p as int, q as int); }
                let instr = if op == 0x41 { Instr::i32_const(v) } else { Instr::i64_const(v) };
                assert(input@.subrange(pos as int, q as int) =~= instr_bytes(instr));
                Ok((instr, q))
            },
        }
    } else if op == 0x43 {
        match read_word32(input, p, end) {
            Err(e) => Err(e),
            Ok((v, q)) => {
                proof { lemma_subrange_concat(input@, pos as int, p as int, q as int); }
                let instr = Instr::f32_const(v);
                assert(input@.subrange(pos as int, q as int) =~= instr_bytes(instr));
                Ok((instr, q))
            },
        }
    } else if op == 0x44 {
        match read_word64(input, p, end) {
            Err(e) => Err(e),
            Ok((v, q)) => {
                proof { lemma_subrange_concat(input@, pos as int, p as int, q as int); }
                let instr = Instr::f64_const(v);
                assert(input@.subrange(pos as int, q as int) =~= instr_bytes(instr));
                Ok((instr, q))
            },
        }
    } else if op == 0x0c || op == 0x0d || op == 0x10 || (0x20 <= op && op <= 0x26) {
        match read_u32(input, p, end) {
            Err(e) => Err(e),
            Ok((x, q)) => {
                proof { lemma_subrange_concat(input@, pos as int, p as int, q as int); }
                match index_instr(op, x) {
                    Some(instr) => {
                        assert(input@.subrange(pos as int, q as int) =~= instr_bytes(instr));
                        Ok((instr, q))
                    },
                    None => Err(DecodeError::UnknownOpcode(op)),
                }
            },
        }
    } else if op == 0x11 || (0x28 <= op && op <= 0x3e) {
        match read_u32(input, p, end) {
            Err(e) => Err(e),
            Ok((a, p2)) => match read_u32(input, p2, end) {
                Err(e) => Err(e),
                Ok((o, q)) => {
                    proof {
                        lemma_subrange_concat(input@, pos as int, p as int, p2 as int);
                        lemma_subrange_concat(input@, pos as int, p2 as int, q as int);
                    }
                    match memarg_instr(op, a, o) {
                        Some(instr) => {
                            assert(input@.subrange(pos as int, q as int) =~= instr_bytes(instr));
                            Ok((instr, q))
                        },
                        None => Err(DecodeError::UnknownOpcode(op)),
                    }
                },
            },
        }
    } else {
        match plain_instr(op) {
            Some(instr) => Ok((instr, p)),
            None => Err(DecodeError::UnknownOpcode(op)),
        }
    };
    proof {
        assert forall|i: Instr|
            #![trigger instr_bytes(i)]
            supported_instr(i) && starts_with(input@, pos as int, end as int, instr_bytes(i)) implies (res is Ok && (
            res->Ok_0).1 == pos + instr_bytes(i).len()) by {
            lemma_dispatch(i);
            let b = instr_bytes(i);
            let imm = b.subrange(1, b.len() as int);
            assert(b =~= seq![opcode(i)] + imm);
            lemma_starts_with_split(input@, pos as int, end as int, seq![opcode(i)], imm);
            assert(input@.subrange(pos as int, pos + 1)[0] == op);
            assert(op == opcode(i));
            let c = instr_class(i);
            if c == 7 {
                assert(imm =~= uleb(index_imm(i) as nat));
            } else if c == 8 {
                let (a, o) = memarg(i)->0;
                assert(imm =~= uleb(a as nat) + uleb(o as nat));
                lemma_starts_with_split(input@, p as int, end as int, uleb(a as nat), uleb(o as nat));
            } else if c == 9 {
            } else {
                match i {
                    Instr::Block(bt, body) => {
                        assert(imm =~= seq![bt] + expr_bytes(body@));
                        lemma_starts_with_split(input@, p as int, end as int, seq![bt], expr_bytes(body@));
                    },
                    Instr::Loop(bt, body) => {
                        assert(imm =~= seq![bt] + expr_bytes(body@));
                        lemma_starts_with_split(input@, p as int, end as int, seq![bt], expr_bytes(body@));
                    },
                    Instr::If(bt, body) => {
                        assert(imm =~= seq![bt] + expr_bytes(body@));
                        lemma_starts_with_split(input@, p as int, end as int, seq![bt], expr_bytes(body@));
                    },
                    Instr::br_table(t, d) => {
                        let n = t@.len();
                        assert(imm =~= uleb(n) + u32s_bytes(t@) + uleb(d as nat));
                        lemma_starts_with_split(input@, p as int, end as int, uleb(n) + u32s_bytes(t@), uleb(d as nat));
                        lemma_starts_with_split(input@, p as int, end as int, uleb(n), u32s_bytes(t@));
                        assert(uleb(n) == uleb((n as u32) as nat));
                    },
                    Instr::memory_size(x) => {
                        assert(imm =~= seq![x]);
                    },
                    Instr::memory_grow(x) => {
                        assert(imm =~= seq![x]);
                    },
                    Instr::i32_const(v) => {
                        assert(imm =~= sleb(v as int));
                    },
                    Instr::i64_const(v) => {
                        assert(imm =~= sleb(v as int));
                    },
                    Instr::f32_const(v) => {
                    },
                    Instr::f64_const(v) => {
                    },
                    _ => {},
                }
            }
        }
    }
    match res {
        Ok((instr, q)) => Ok((Value { value: instr, start_offset: pos, end_offset: q }, q)),
        Err(e) => Err(e),
    }
}

/// Instructions up to the `end` that closes them; the `end` is consumed and
/// not kept. Any supported expression is read back, exactly over its bytes.
#[verifier::spinoff_prover]
#[verifier::rlimit(100)]
fn decode_expr(input: &[u8], pos: usize, end: usize) -> (r: Result<(Vec<Value<Instr>>, usize), DecodeError>)
    requires
        pos <= end <= input@.len(),
    ensures
        r matches Ok((body, _)) ==> forall|j: int|
            0 <= j < body@.len() ==> (#[trigger] body@[j]).start_offset == pos + body_bytes(body@.take(j)).len(),
        r matches Ok((body, p)) ==> {
            &&& pos < p <= end
            &&& input@.subrange(pos as int, p as int) == expr_bytes(body@)
            &&& body_spans(body@, input@)
        },
        forall|s: Seq<Value<Instr>>|
            #![trigger expr_bytes(s)]
            supported_body(s) && starts_with(input@, pos as int, end as int, expr_bytes(s)) ==> (r is Ok && (r->Ok_0).1
                == pos + expr_bytes(s).len()),
    decreases end - pos, 1int,
{
    let mut body: Vec<Value<Instr>> = Vec::new();
    let mut p = pos;
    loop
        invariant
            pos <= p <= end <= input@.len(),
            input@.subrange(pos as int, p as int) == body_bytes(body@),
            forall|j: int|
                0 <= j < body@.len() ==> (#[trigger] body@[j]).start_offset == pos + body_bytes(body@.take(j)).len(),
            body_spans(body@, input@),
            forall|s: Seq<Value<Instr>>|
                #![trigger expr_bytes(s)]
                supported_body(s) && starts_with(input@, pos as int, end as int, expr_bytes(s)) ==> (body@.len()
                    <= s.len() && p == pos + body_bytes(s.take(body@.len() as int)).len()),
        decreases end - p,
    {
        let ghost k = body@.len() as int;
        if p >= end {
            proof {
                assert forall|s: Seq<Value<Instr>>|
                    #![trigger expr_bytes(s)]
                    !(supported_body(s) && starts_with(input@, pos as int, end as int, expr_bytes(s))) by {
                    if supported_body(s) && starts_with(input@, pos as int, end as int, expr_bytes(s)) {
                        assert(s.take(s.len() as int) =~= s);
                        if k < s.len() {
                            lemma_body_bytes_at(s, k);
                            assert(s.take(k) =~= s.take(k));
                        } else {
                            assert(s.take(k) =~= s);
                        }
                    }
                }
            }
            return Err(DecodeError::UnexpectedEnd);
        }
        if input[p] == 0x0b {
            proof {
                lemma_subrange_concat(input@, pos as int, p as int, p + 1);
                assert forall|s: Seq<Value<Instr>>|
                    #![trigger expr_bytes(s)]
                    supported_body(s) && starts_with(input@, pos as int, end as int, expr_bytes(s)) implies p + 1 == pos
                        + expr_bytes(s).len() by {
                    if k < s.len() {
                        lemma_body_bytes_at(s, k);
                        lemma_body_bytes_append(s.take(k), s.skip(k));
                        assert(s =~= s.take(k) + s.skip(k));
                        assert(s.skip(k) =~= seq![s[k]] + s.skip(k + 1));
                        lemma_body_bytes_append(seq![s[k]], s.skip(k + 1));
                        assert(seq![s[k]].drop_last() =~= Seq::<Value<Instr>>::empty());
                        assert(body_bytes(seq![s[k]]) =~= instr_bytes(s[k].value));
                        lemma_dispatch(s[k].value);
                        let eb = expr_bytes(s);
                        assert(eb == body_bytes(s.take(k)) + body_bytes(s.skip(k)) + seq![0x0bu8]);
                        assert(eb[body_bytes(s.take(k)).len() as int] == instr_bytes(s[k].value)[0]);
                        assert(input@.subrange(pos as int, pos + eb.len())[p - pos] == input@[p as int]);
                    } else {
                        assert(s.take(k) =~= s);
                    }
                }
            }
            assert(input@.subrange(p as int, p + 1) =~= seq![0x0bu8]);
            return Ok((body, p + 1));
        }
        match decode_instr(input, p, end) {
            Ok((v, q)) => {
                proof {
                    lemma_subrange_concat(input@, pos as int, p as int, q as int);
                    lemma_body_spans_push(body@, v, input@);
                    assert forall|s: Seq<Value<Instr>>|
                        #![trigger expr_bytes(s)]
                        supported_body(s) && starts_with(input@, pos as int, end as int, expr_bytes(s)) implies (k + 1
                            <= s.len() && q == pos + body_bytes(s.take(k + 1)).len()) by {
                        lemma_expr_step(input@, pos as int, end as int, p as int, s, k);
                    }
                }
                proof {
                    assert forall|j: int| 0 <= j < body@.len() implies body@.push(v).take(j) == body@.take(j) by {
                        assert(body@.push(v).take(j) =~= body@.take(j));
                    }
                    assert(body@.push(v).take(k) =~= body@);
                }
                body.push(v);
                p = q;
            },
            Err(e) => {
                proof {
                    assert forall|s: Seq<Value<Instr>>|
                        #![trigger expr_bytes(s)]
                        !(supported_body(s) && starts_with(input@, pos as int, end as int, expr_bytes(s))) by {
                        if supported_body(s) && starts_with(input@, pos as int, end as int, expr_bytes(s)) {
                            lemma_expr_step(input@, pos as int, end as int, p as int, s, k);
                        }
                    }
                }
                return Err(e);
            },
        }
    }
}

/// In an expression whose first `k` instructions end at `p`, with a byte
/// other than `end` at `p`, instruction `k` starts at `p`.
proof fn lemma_expr_step(input: Seq<u8>, pos: int, end: int, p: int, s: Seq<Value<Instr>>, k: int)
    requires
        0 <= pos <= p < end <= input.len(),
        input[p] != 0x0b,
        supported_body(s),
        starts_with(input, pos, end, expr_bytes(s)),
        0 <= k <= s.len(),
        p == pos + body_bytes(s.take(k)).len(),
    ensures
        k < s.len(),
        supported_instr(s[k].value),
        starts_with(input, p, end, instr_bytes(s[k].value)),
        body_bytes(s.take(k + 1)) == body_bytes(s.take(k)) + instr_bytes(s[k].value),
{
    if k == s.len() {
        assert(s.take(k) =~= s);
        let eb = expr_bytes(s);
        assert(eb[body_bytes(s).len() as int] == 0x0b);
        assert(input.subrange(pos, pos + eb.len())[p - pos] == input[p]);
    }
    lemma_body_bytes_at(s, k);
    lemma_body_bytes_append(s.take(k + 1), s.skip(k + 1));
    assert(s =~= s.take(k + 1) + s.skip(k + 1));
    assert(expr_bytes(s) =~= body_bytes(s.take(k)) + (instr_bytes(s[k].value) + (body_bytes(s.skip(k + 1))
        + seq![0x0bu8])));
    lemma_starts_with_split(input, pos, end, body_bytes(s.take(k)), instr_bytes(s[k].value) + (body_bytes(
        s.skip(k + 1),
    ) + seq![0x0bu8]));
    lemma_starts_with_split(input, p, end, instr_bytes(s[k].value), body_bytes(s.skip(k + 1)) + seq![0x0bu8]);
}

/// A memory's initial size keeps its span, so that it can be patched in place.
pub open spec fn memory_spans(m: Memory, input: Seq<u8>) -> bool {
    span_holds(m.initial_memory, input, uleb(m.initial_memory.value as nat))
}

pub open spec fn import_spans(i: Import, input: Seq<u8>) -> bool {
    match i.import_type {
        ImportType::Memory(m) => memory_spans(m, input),
        _ => true,
    }
}

pub open spec fn global_spans(g: Global, input: Seq<u8>) -> bool {
    body_spans(g.expr@, input)
}

/// The size prefix of a body holds its length; the body's span holds its
/// expression.
pub open spec fn code_spans(c: Code, input: Seq<u8>) -> bool {
    &&& span_holds(c.size, input, uleb(c.size.value as nat))
    &&& c.size.value == code_inner_bytes(c).len()
    &&& span_holds(c.body, input, expr_bytes(c.body.value@))
    &&& body_spans(c.body.value@, input)
}

pub open spec fn data_spans(d: DataSegment, input: Seq<u8>) -> bool {
    &&& span_holds(d.offset, input, expr_bytes(d.offset.value@))
    &&& body_spans(d.offset.value@, input)
    &&& data_offset_literal(d)
}

/// The declared size of a section holds the length of its payload; the
/// entries of the section keep their spans.
pub open spec fn section_spans(s: Section, input: Seq<u8>) -> bool {
    match s {
        Section::Unknown(_, size, raw) => size == raw@.len(),
        Section::Type(size, _) | Section::Func(size, _) | Section::Table(size, _) | Section::Export(size, _) => {
            &&& span_holds(size, input, uleb(size.value as nat))
            &&& size.value == section_payload(s).len()
        },
        Section::Import(size, v) => {
            &&& span_holds(size, input, uleb(size.value as nat))
            &&& size.value == section_payload(s).len()
            &&& forall|j: int| 0 <= j < v@.len() ==> #[trigger] import_spans(v@[j], input)
        },
        Section::Memory(size, v) => {
            &&& span_holds(size, input, uleb(size.value as nat))
            &&& size.value == section_payload(s).len()
            &&& forall|j: int| 0 <= j < v@.len() ==> #[trigger] memory_spans(v@[j], input)
        },
        Section::Global(size, v) => {
            &&& span_holds(size, input, uleb(size.value as nat))
            &&& size.value == section_payload(s).len()
            &&& forall|j: int| 0 <= j < v@.len() ==> #[trigger] global_spans(v@[j], input)
        },
        Section::Code(size, v) => {
            &&& span_holds(size, input, uleb(size.value as nat))
            &&& size.value == section_payload(s).len()
            &&& forall|j: int| 0 <= j < v@.len() ==> #[trigger] code_spans(v@[j], input)
        },
        Section::Data(size, v) => {
            &&& span_holds(size, input, uleb(size.value as nat))
            &&& size.value == section_payload(s).len()
            &&& forall|j: int| 0 <= j < v@.len() ==> #[trigger] data_spans(v@[j], input)
        },
    }
}

/// Every section of `m` keeps the spans it was decoded from.
pub open spec fn module_spans(m: Module, input: Seq<u8>) -> bool {
    forall|j: int| 0 <= j < m.sections@.len() ==> #[trigger] section_spans(m.sections@[j], input)
}

fn decode_valtype(input: &[u8], pos: usize, end: usize) -> (r: Result<(ValueType, usize), DecodeError>)
    requires
        pos <= end <= input@.len(),
    ensures
        r matches Ok((v, p)) ==> pos < p <= end && input@.subrange(pos as int, p as int) == valtype_bytes(v),
        forall|x: ValueType|
            #![trigger valtype_bytes(x)]
            starts_with(input@, pos as int, end as int, valtype_bytes(x)) ==> (r is Ok && (r->Ok_0).1 == pos + valtype_bytes(x).len()),
{
    let (b, p) = read_byte(input, pos, end)?;
    proof {
        assert forall|x: ValueType|
            #![trigger valtype_bytes(x)]
            starts_with(input@, pos as int, end as int, valtype_bytes(x)) implies b == valtype_byte(x) by {
            assert(input@.subrange(pos as int, pos + 1)[0] == input@[pos as int]);
            assert(input@.subrange(pos as int, p as int)[0] == b);
        }
    }
    let v = if b == 0x7f {
        ValueType::NumType(NumType::I32)
    } else if b == 0x7e {
        ValueType::NumType(NumType::I64)
    } else if b == 0x7d {
        ValueType::NumType(NumType::F32)
    } else if b == 0x7c {
        ValueType::NumType(NumType::F64)
    } else {
        return Err(DecodeError::UnsupportedValueType(b));
    };
    Ok((v, p))
}


fn decode_type(input: &[u8], pos: usize, end: usize) -> (r: Result<(Type, usize), DecodeError>)
    requires
        pos <= end <= input@.len(),
    ensures
        r matches Ok((v, p)) ==> pos < p <= end && input@.subrange(pos as int, p as int) == type_bytes(v),
        forall|x: Type|
            #![trigger type_bytes(x)]
            supported_type(x) && starts_with(input@, pos as int, end as int, type_bytes(x)) ==> (r is Ok && (r->Ok_0).1 == pos + type_bytes(x).len()),
{
    let (tag, p) = read_byte(input, pos, end)?;
    proof {
        assert forall|x: Type|
            #![trigger type_bytes(x)]
            supported_type(x) && starts_with(input@, pos as int, end as int, type_bytes(x)) implies {
                &&& tag == 0x60
                &&& supported_valtypes(x.params@) && supported_valtypes(x.results@)
                &&& starts_with(input@, p as int, end as int, valtypes_bytes(x.params@))
                &&& starts_with(input@, p + valtypes_bytes(x.params@).len(), end as int, valtypes_bytes(x.results@))
                &&& type_bytes(x).len() == 1 + valtypes_bytes(x.params@).len() + valtypes_bytes(x.results@).len()
            } by {
            assert(type_bytes(x) =~= seq![0x60u8] + (valtypes_bytes(x.params@) + valtypes_bytes(x.results@)));
            lemma_starts_with_split(input@, pos as int, end as int, seq![0x60u8], valtypes_bytes(x.params@) + valtypes_bytes(x.results@));
            lemma_starts_with_split(input@, p as int, end as int, valtypes_bytes(x.params@), valtypes_bytes(x.results@));
            assert(input@.subrange(pos as int, p as int)[0] == tag);
        }
    }
    if tag != 0x60 {
        return Err(DecodeError::UnsupportedForm(tag));
    }
    let (params, p2) = decode_valtypes(input, p, end)?;
    let (results, q) = decode_valtypes(input, p2, end)?;
    proof {
        lemma_subrange_concat(input@, pos as int, p as int, p2 as int);
        lemma_subrange_concat(input@, pos as int, p2 as int, q as int);
    }
    let t = Type { params, results };
    assert(input@.subrange(pos as int, q as int) =~= type_bytes(t));
    Ok((t, q))
}


/// A limits flag, a minimum (with its span) and an optional maximum.
fn decode_limits(input: &[u8], pos: usize, end: usize) -> (r: Result<(Value<u32>, Option<u32>, usize), DecodeError>)
    requires
        pos <= end <= input@.len(),
    ensures
        r matches Ok((min, _, _)) ==> min.start_offset == pos + 1,
        r matches Ok((min, max, p)) ==> {
            &&& pos < p <= end
            &&& input@.subrange(pos as int, p as int) == limits_bytes(min.value, max)
            &&& span_holds(min, input@, uleb(min.value as nat))
        },
        forall|min: u32, max: Option<u32>|
            #![trigger limits_bytes(min, max)]
            starts_with(input@, pos as int, end as int, limits_bytes(min, max)) ==> (r is Ok && (r->Ok_0).2 == pos
                + limits_bytes(min, max).len() && (r->Ok_0).0.value == min && (r->Ok_0).1 == max),
{
    let (flag, p) = read_byte(input, pos, end)?;
    proof {
        assert forall|min: u32, max: Option<u32>|
            #![trigger limits_bytes(min, max)]
            starts_with(input@, pos as int, end as int, limits_bytes(min, max)) implies {
                &&& flag == (if max is Some { 1u8 } else { 0u8 })
                &&& starts_with(input@, p as int, end as int, uleb(min as nat))
                &&& (max matches Some(m) ==> starts_with(input@, p + uleb(min as nat).len(), end as int, uleb(m as nat)))
                &&& limits_bytes(min, max).len() == 1 + uleb(min as nat).len() + (match max {
                    Some(m) => uleb(m as nat).len(),
                    None => 0,
                })
            } by {
            assert(input@.subrange(pos as int, p as int)[0] == flag);
            match max {
                None => {
                    lemma_starts_with_split(input@, pos as int, end as int, seq![0x00u8], uleb(min as nat));
                },
                Some(m) => {
                    assert(limits_bytes(min, max) =~= seq![0x01u8] + (uleb(min as nat) + uleb(m as nat)));
                    lemma_starts_with_split(input@, pos as int, end as int, seq![0x01u8], uleb(min as nat) + uleb(m as nat));
                    lemma_starts_with_split(input@, p as int, end as int, uleb(min as nat), uleb(m as nat));
                },
            }
        }
    }
    if flag != 0 && flag != 1 {
        return Err(DecodeError::UnsupportedForm(flag));
    }
    let (min, p2) = read_u32(input, p, end)?;
    let min = Value { value: min, start_offset: p, end_offset: p2 };
    proof { lemma_subrange_concat(input@, pos as int, p as int, p2 as int); }
    if flag == 0 {
        assert(input@.subrange(pos as int, p2 as int) =~= limits_bytes(min.value, None));
        Ok((min, None, p2))
    } else {
        let (max, q) = read_u32(input, p2, end)?;
        proof { lemma_subrange_concat(input@, pos as int, p2 as int, q as int); }
        assert(input@.subrange(pos as int, q as int) =~= limits_bytes(min.value, Some(max)));
        Ok((min, Some(max), q))
    }
}


fn decode_table(input: &[u8], pos: usize, end: usize) -> (r: Result<(Table, usize), DecodeError>)
    requires
        pos <= end <= input@.len(),
    ensures
        r matches Ok((v, p)) ==> pos < p <= end && input@.subrange(pos as int, p as int) == table_bytes(v),
        forall|x: Table|
            #![trigger table_bytes(x)]
            starts_with(input@, pos as int, end as int, table_bytes(x)) ==> (r is Ok && (r->Ok_0).1 == pos + table_bytes(x).len()),
{
    let (b, p) = read_byte(input, pos, end)?;
    proof {
        assert forall|x: Table|
            #![trigger table_bytes(x)]
            starts_with(input@, pos as int, end as int, table_bytes(x)) implies {
                &&& b == reftype_byte(x.reftype)
                &&& starts_with(input@, p as int, end as int, limits_bytes(x.limits.min, x.limits.max))
            } by {
            lemma_starts_with_split(input@, pos as int, end as int, seq![reftype_byte(x.reftype)], limits_bytes(x.limits.min, x.limits.max));
            assert(input@.subrange(pos as int, p as int)[0] == b);
        }
    }
    let reftype = if b == 0x70 {
        Reftype::Func
    } else if b == 0x6f {
        Reftype::Extern
    } else {
        return Err(DecodeError::UnsupportedForm(b));
    };
    let (min, max, q) = decode_limits(input, p, end)?;
    proof { lemma_subrange_concat(input@, pos as int, p as int, q as int); }
    let t = Table { reftype, limits: Limits { min: min.value, max } };
    assert(input@.subrange(pos as int, q as int) =~= table_bytes(t));
    Ok((t, q))
}


fn decode_memory(input: &[u8], pos: usize, end: usize) -> (r: Result<(Memory, usize), DecodeError>)
    requires
        pos <= end <= input@.len(),
    ensures
        r matches Ok((v, _)) ==> memory_at(v, pos as int),
        r matches Ok((v, p)) ==> {
            &&& pos < p <= end
            &&& input@.subrange(pos as int, p as int) == memory_bytes(v)
            &&& memory_spans(v, input@)
        },
        forall|x: Memory|
            #![trigger memory_bytes(x)]
            starts_with(input@, pos as int, end as int, memory_bytes(x)) ==> (r is Ok && (r->Ok_0).1 == pos + memory_bytes(x).len()),
{
    let (min, max, q) = decode_limits(input, pos, end)?;
    proof {
        assert forall|x: Memory|
            #![trigger memory_bytes(x)]
            starts_with(input@, pos as int, end as int, memory_bytes(x)) implies starts_with(
                input@,
                pos as int,
                end as int,
                limits_bytes(x.initial_memory.value, x.max),
            ) by {}
    }
    Ok((Memory { initial_memory: min, max }, q))
}


fn decode_global_type(input: &[u8], pos: usize, end: usize) -> (r: Result<(GlobalType, usize), DecodeError>)
    requires
        pos <= end <= input@.len(),
    ensures
        r matches Ok((v, p)) ==> pos < p <= end && input@.subrange(pos as int, p as int) == global_type_bytes(v),
        forall|x: GlobalType|
            #![trigger global_type_bytes(x)]
            starts_with(input@, pos as int, end as int, global_type_bytes(x)) ==> (r is Ok && (r->Ok_0).1 == pos + global_type_bytes(x).len()),
{
    proof {
        assert forall|x: GlobalType|
            #![trigger global_type_bytes(x)]
            starts_with(input@, pos as int, end as int, global_type_bytes(x)) implies starts_with(input@, pos as int, end as int, valtype_bytes(x.valtype)) by {
            assert(global_type_bytes(x) =~= valtype_bytes(x.valtype) + seq![if x.mutable { 1u8 } else { 0u8 }]);
            lemma_starts_with_split(input@, pos as int, end as int, valtype_bytes(x.valtype), seq![if x.mutable { 1u8 } else { 0u8 }]);
        }
    }
    let (valtype, p) = decode_valtype(input, pos, end)?;
    proof {
        assert forall|x: GlobalType|
            #![trigger global_type_bytes(x)]
            starts_with(input@, pos as int, end as int, global_type_bytes(x)) implies {
                &&& starts_with(input@, pos as int, end as int, valtype_bytes(x.valtype))
                &&& p == pos + 1 && p < end
                &&& input@[p as int] == (if x.mutable { 1u8 } else { 0u8 })
            } by {
            assert(global_type_bytes(x) =~= valtype_bytes(x.valtype) + seq![if x.mutable { 1u8 } else { 0u8 }]);
            lemma_starts_with_split(input@, pos as int, end as int, valtype_bytes(x.valtype), seq![if x.mutable { 1u8 } else { 0u8 }]);
            assert(input@.subrange(pos + 1, pos + 2)[0] == input@[pos + 1]);
        }
    }
    let (m, q) = read_byte(input, p, end)?;
    assert(input@.subrange(p as int, q as int)[0] == m);
    if m != 0 && m != 1 {
        return Err(DecodeError::UnsupportedForm(m));
    }
    proof { lemma_subrange_concat(input@, pos as int, p as int, q as int); }
    let g = GlobalType { valtype, mutable: m == 1 };
    assert(input@.subrange(pos as int, q as int) =~= global_type_bytes(g));
    Ok((g, q))
}


fn decode_global(input: &[u8], pos: usize, end: usize) -> (r: Result<(Global, usize), DecodeError>)
    requires
        pos <= end <= input@.len(),
    ensures
        r matches Ok((v, p)) ==> {
            &&& pos < p <= end
            &&& input@.subrange(pos as int, p as int) == global_bytes(v)
            &&& global_spans(v, input@)
        },
        forall|x: Global|
            #![trigger global_bytes(x)]
            supported_global(x) && starts_with(input@, pos as int, end as int, global_bytes(x)) ==> (r is Ok && (r->Ok_0).1 == pos + global_bytes(x).len()),
{
    proof {
        assert forall|x: Global|
            #![trigger global_bytes(x)]
            supported_global(x) && starts_with(input@, pos as int, end as int, global_bytes(x)) implies starts_with(input@, pos as int, end as int, global_type_bytes(x.global_type)) by {
            lemma_starts_with_split(input@, pos as int, end as int, global_type_bytes(x.global_type), expr_bytes(x.expr@));
        }
    }
    let (global_type, p) = decode_global_type(input, pos, end)?;
    proof {
        assert forall|x: Global|
            #![trigger global_bytes(x)]
            supported_global(x) && starts_with(input@, pos as int, end as int, global_bytes(x)) implies {
                &&& starts_with(input@, pos as int, end as int, global_type_bytes(x.global_type))
                &&& starts_with(input@, pos + global_type_bytes(x.global_type).len(), end as int, expr_bytes(x.expr@))
            } by {
            lemma_starts_with_split(input@, pos as int, end as int, global_type_bytes(x.global_type), expr_bytes(x.expr@));
        }
    }
    let (expr, q) = decode_expr(input, p, end)?;
    proof { lemma_subrange_concat(input@, pos as int, p as int, q as int); }
    let g = Global { global_type, expr };
    Ok((g, q))
}


#[verifier::spinoff_prover]
#[verifier::rlimit(100)]
fn decode_import(input: &[u8], pos: usize, end: usize) -> (r: Result<(Import, usize), DecodeError>)
    requires
        pos <= end <= input@.len(),
    ensures
        r matches Ok((v, _)) ==> import_at(v, pos as int),
        r matches Ok((v, p)) ==> {
            &&& pos < p <= end
            &&& input@.subrange(pos as int, p as int) == import_bytes(v)
            &&& import_spans(v, input@)
        },
        forall|x: Import|
            #![trigger import_bytes(x)]
            supported_import(x) && starts_with(input@, pos as int, end as int, import_bytes(x)) ==> (r is Ok && (r->Ok_0).1 == pos + import_bytes(x).len()),
{
    proof {
        assert forall|x: Import|
            #![trigger import_bytes(x)]
            supported_import(x) && starts_with(input@, pos as int, end as int, import_bytes(x)) implies starts_with(
                input@,
                pos as int,
                end as int,
                name_bytes(x.module@),
            ) by {
            assert(import_bytes(x) =~= name_bytes(x.module@) + (name_bytes(x.name@) + import_type_bytes(x.import_type)));
            lemma_starts_with_split(input@, pos as int, end as int, name_bytes(x.module@), name_bytes(x.name@) + import_type_bytes(x.import_type));
        }
    }
    let (module, p) = read_name(input, pos, end)?;
    proof {
        assert forall|x: Import|
            #![trigger import_bytes(x)]
            supported_import(x) && starts_with(input@, pos as int, end as int, import_bytes(x)) implies starts_with(
                input@,
                p as int,
                end as int,
                name_bytes(x.name@),
            ) && starts_with(input@, p + name_bytes(x.name@).len(), end as int, import_type_bytes(x.import_type)) by {
            assert(import_bytes(x) =~= name_bytes(x.module@) + (name_bytes(x.name@) + import_type_bytes(x.import_type)));
            lemma_starts_with_split(input@, pos as int, end as int, name_bytes(x.module@), name_bytes(x.name@) + import_type_bytes(x.import_type));
            lemma_starts_with_split(input@, p as int, end as int, name_bytes(x.name@), import_type_bytes(x.import_type));
        }
    }
    let (name, p2) = read_name(input, p, end)?;
    proof {
        assert forall|x: Import|
            #![trigger import_bytes(x)]
            supported_import(x) && starts_with(input@, pos as int, end as int, import_bytes(x)) implies import_type_fits(
                input@,
                p2 as int,
                end as int,
                x.import_type,
            ) by {
            lemma_import_type_parts(input@, p2 as int, end as int, x.import_type);
        }
    }
    let (kind, p3) = read_byte(input, p2, end)?;
    assert(input@.subrange(p2 as int, p3 as int)[0] == kind);
    let (import_type, q): (ImportType, usize) = if kind == 0 {
        let (x, q) = read_u32(input, p3, end)?;
        (ImportType::Func(x), q)
    } else if kind == 1 {
        let (t, q) = decode_table(input, p3, end)?;
        (ImportType::Table(t), q)
    } else if kind == 2 {
        let (m, q) = decode_memory(input, p3, end)?;
        (ImportType::Memory(m), q)
    } else if kind == 3 {
        let (g, q) = decode_global_type(input, p3, end)?;
        (ImportType::Global(g), q)
    } else {
        return Err(DecodeError::UnsupportedForm(kind));
    };
    proof {
        lemma_subrange_concat(input@, p2 as int, p3 as int, q as int);
        lemma_subrange_concat(input@, p as int, p2 as int, q as int);
        lemma_subrange_concat(input@, pos as int, p as int, q as int);
    }
    assert(input@.subrange(p2 as int, q as int) =~= import_type_bytes(import_type));
    let i = Import { module, name, import_type };
    assert(input@.subrange(pos as int, q as int) =~= import_bytes(i));
    Ok((i, q))
}


fn decode_export(input: &[u8], pos: usize, end: usize) -> (r: Result<(Export, usize), DecodeError>)
    requires
        pos <= end <= input@.len(),
    ensures
        r matches Ok((v, p)) ==> pos < p <= end && input@.subrange(pos as int, p as int) == export_bytes(v),
        forall|x: Export|
            #![trigger export_bytes(x)]
            supported_export(x) && starts_with(input@, pos as int, end as int, export_bytes(x)) ==> (r is Ok && (r->Ok_0).1 == pos + export_bytes(x).len()),
{
    proof {
        assert forall|x: Export|
            #![trigger export_bytes(x)]
            supported_export(x) && starts_with(input@, pos as int, end as int, export_bytes(x)) implies starts_with(input@, pos as int, end as int, name_bytes(x.name@)) by {
            lemma_starts_with_split(input@, pos as int, end as int, name_bytes(x.name@), export_descr_bytes(x.descr));
        }
    }
    let (name, p) = read_name(input, pos, end)?;
    proof {
        assert forall|x: Export|
            #![trigger export_bytes(x)]
            supported_export(x) && starts_with(input@, pos as int, end as int, export_bytes(x)) implies {
                &&& starts_with(input@, pos as int, end as int, name_bytes(x.name@))
                &&& starts_with(input@, pos + name_bytes(x.name@).len(), end as int, export_descr_bytes(x.descr))
            } by {
            lemma_starts_with_split(input@, pos as int, end as int, name_bytes(x.name@), export_descr_bytes(x.descr));
        }
    }
    let (kind, p2) = read_byte(input, p, end)?;
    proof {
        assert forall|x: Export|
            #![trigger export_bytes(x)]
            supported_export(x) && starts_with(input@, pos as int, end as int, export_bytes(x)) implies {
                &&& kind <= 3
                &&& starts_with(input@, p2 as int, end as int, uleb(export_index(x.descr) as nat))
                &&& export_bytes(x).len() == name_bytes(x.name@).len() + 1 + uleb(export_index(x.descr) as nat).len()
            } by {
            let d = export_descr_bytes(x.descr);
            assert(d =~= seq![d[0]] + uleb(export_index(x.descr) as nat));
            lemma_starts_with_split(input@, p as int, end as int, seq![d[0]], uleb(export_index(x.descr) as nat));
            assert(input@.subrange(p as int, p2 as int)[0] == kind);
        }
    }
    let (x, q) = read_u32(input, p2, end)?;
    let descr = if kind == 0 {
        ExportDescr::Func(x)
    } else if kind == 1 {
        ExportDescr::Table(x)
    } else if kind == 2 {
        ExportDescr::Memory(x)
    } else if kind == 3 {
        ExportDescr::Global(x)
    } else {
        return Err(DecodeError::UnsupportedForm(kind));
    };
    proof {
        lemma_subrange_concat(input@, p as int, p2 as int, q as int);
        lemma_subrange_concat(input@, pos as int, p as int, q as int);
    }
    let e = Export { name, descr };
    assert(input@.subrange(pos as int, q as int) =~= export_bytes(e));
    Ok((e, q))
}


fn decode_local(input: &[u8], pos: usize, end: usize) -> (r: Result<(CodeLocal, usize), DecodeError>)
    requires
        pos <= end <= input@.len(),
    ensures
        r matches Ok((v, p)) ==> pos < p <= end && input@.subrange(pos as int, p as int) == local_bytes(v),
        forall|x: CodeLocal|
            #![trigger local_bytes(x)]
            starts_with(input@, pos as int, end as int, local_bytes(x)) ==> (r is Ok && (r->Ok_0).1 == pos + local_bytes(x).len()),
{
    proof {
        assert forall|x: CodeLocal|
            #![trigger local_bytes(x)]
            starts_with(input@, pos as int, end as int, local_bytes(x)) implies starts_with(input@, pos as int, end as int, uleb(x.count as nat)) by {
            assert(local_bytes(x) =~= uleb(x.count as nat) + valtype_bytes(x.value_type));
            lemma_starts_with_split(input@, pos as int, end as int, uleb(x.count as nat), valtype_bytes(x.value_type));
        }
    }
    let (count, p) = read_u32(input, pos, end)?;
    proof {
        assert forall|x: CodeLocal|
            #![trigger local_bytes(x)]
            starts_with(input@, pos as int, end as int, local_bytes(x)) implies {
                &&& starts_with(input@, pos as int, end as int, uleb(x.count as nat))
                &&& starts_with(input@, pos + uleb(x.count as nat).len(), end as int, valtype_bytes(x.value_type))
            } by {
            assert(local_bytes(x) =~= uleb(x.count as nat) + valtype_bytes(x.value_type));
            lemma_starts_with_split(input@, pos as int, end as int, uleb(x.count as nat), valtype_bytes(x.value_type));
        }
    }
    let (value_type, q) = decode_valtype(input, p, end)?;
    proof { lemma_subrange_concat(input@, pos as int, p as int, q as int); }
    let l = CodeLocal { count, value_type };
    assert(input@.subrange(pos as int, q as int) =~= local_bytes(l));
    Ok((l, q))
}


/// One function body: its size, then locals and expression filling exactly
/// that size.
fn decode_code(input: &[u8], pos: usize, end: usize) -> (r: Result<(Code, usize), DecodeError>)
    requires
        pos <= end <= input@.len(),
    ensures
        r matches Ok((v, _)) ==> code_at_pos(v, pos as int),
        r matches Ok((v, p)) ==> {
            &&& pos < p <= end
            &&& input@.subrange(pos as int, p as int) == code_bytes(v)
            &&& code_spans(v, input@)
        },
        forall|x: Code|
            #![trigger code_bytes(x)]
            supported_code(x) && starts_with(input@, pos as int, end as int, code_bytes(x)) ==> (r is Ok && (r->Ok_0).1 == pos + code_bytes(x).len()),
{
    proof {
        assert forall|x: Code|
            #![trigger code_bytes(x)]
            supported_code(x) && starts_with(input@, pos as int, end as int, code_bytes(x)) implies starts_with(
                input@,
                pos as int,
                end as int,
                uleb(((code_inner_bytes(x).len() as u32) as nat)),
            ) by {
            lemma_starts_with_split(input@, pos as int, end as int, uleb(code_inner_bytes(x).len()), code_inner_bytes(x));
            assert(uleb(code_inner_bytes(x).len()) == uleb(((code_inner_bytes(x).len() as u32) as nat)));
        }
    }
    let (size, p) = read_u32(input, pos, end)?;
    proof {
        assert forall|x: Code|
            #![trigger code_bytes(x)]
            supported_code(x) && starts_with(input@, pos as int, end as int, code_bytes(x)) implies {
                &&& size == code_inner_bytes(x).len()
                &&& p + size <= end
                &&& starts_with(input@, p as int, p + size, locals_bytes(x.locals@))
                &&& starts_with(input@, p + locals_bytes(x.locals@).len(), p + size, expr_bytes(x.body.value@))
                &&& code_inner_bytes(x).len() == locals_bytes(x.locals@).len() + expr_bytes(x.body.value@).len()
            } by {
            let inner = code_inner_bytes(x);
            lemma_starts_with_split(input@, pos as int, end as int, uleb(inner.len()), inner);
            assert(uleb(inner.len()) == uleb(((inner.len() as u32) as nat)));
            assert(inner =~= locals_bytes(x.locals@) + expr_bytes(x.body.value@));
            lemma_starts_with_split(input@, p as int, p + size, locals_bytes(x.locals@), expr_bytes(x.body.value@));
        }
    }
    let (_, body_end) = read_bytes(input, p, end, size as usize)?;
    let (locals, p2) = decode_locals(input, p, body_end)?;
    let (expr, q) = decode_expr(input, p2, body_end)?;
    if q != body_end {
        return Err(DecodeError::SizeMismatch);
    }
    proof {
        lemma_subrange_concat(input@, p as int, p2 as int, q as int);
        lemma_subrange_concat(input@, pos as int, p as int, q as int);
    }
    let c = Code {
        size: Value { value: size, start_offset: pos, end_offset: p },
        locals,
        body: Value { value: expr, start_offset: p2, end_offset: q },
    };
    assert(input@.subrange(p as int, q as int) =~= code_inner_bytes(c));
    Ok((c, q))
}


/// An active data segment of memory 0 whose offset is a literal.
fn decode_data(input: &[u8], pos: usize, end: usize) -> (r: Result<(DataSegment, usize), DecodeError>)
    requires
        pos <= end <= input@.len(),
    ensures
        r matches Ok((v, p)) ==> {
            &&& pos < p <= end
            &&& input@.subrange(pos as int, p as int) == data_bytes(v)
            &&& data_spans(v, input@)
        },
        forall|x: DataSegment|
            #![trigger data_bytes(x)]
            supported_data(x) && starts_with(input@, pos as int, end as int, data_bytes(x)) ==> (r is Ok && (r->Ok_0).1 == pos + data_bytes(x).len()),
{
    proof {
        assert forall|x: DataSegment|
            #![trigger data_bytes(x)]
            supported_data(x) && starts_with(input@, pos as int, end as int, data_bytes(x)) implies data_fits(
                input@,
                pos as int,
                end as int,
                x,
            ) by {
            lemma_data_parts(input@, pos as int, end as int, x);
        }
    }
    let (flag, p) = read_byte(input, pos, end)?;
    assert(input@.subrange(pos as int, p as int)[0] == flag);
    if flag != 0 {
        return Err(DecodeError::UnsupportedForm(flag));
    }
    let (op, p1) = read_byte(input, p, end)?;
    assert(input@.subrange(p as int, p1 as int)[0] == op);
    if op != 0x41 {
        return Err(DecodeError::NonLiteralOffset);
    }
    let (v, p2) = read_i64(input, p1, end)?;
    let (close, p3) = read_byte(input, p2, end)?;
    assert(input@.subrange(p2 as int, p3 as int)[0] == close);
    if close != 0x0b {
        return Err(DecodeError::NonLiteralOffset);
    }
    let expr = vec![Value { value: Instr::i32_const(v), start_offset: p, end_offset: p2 }];
    proof {
        lemma_subrange_concat(input@, p as int, p1 as int, p2 as int);
        lemma_subrange_concat(input@, p as int, p2 as int, p3 as int);
        let e = expr@;
        assert(e.drop_last() =~= Seq::<Value<Instr>>::empty());
        reveal_with_fuel(body_bytes, 2);
        reveal_with_fuel(body_spans, 2);
        assert(body_bytes(e) =~= instr_bytes(Instr::i32_const(v)));
        assert(instr_bytes(Instr::i32_const(v)) =~= seq![0x41u8] + sleb(v as int));
        assert(input@.subrange(p as int, p2 as int) =~= instr_bytes(Instr::i32_const(v)));
        assert(instr_spans(e[0], input@));
        assert(body_spans(e, input@));
        assert(input@.subrange(p as int, p3 as int) =~= expr_bytes(e));
    }
    let (bytes, q) = read_name(input, p3, end)?;
    proof {
        lemma_subrange_concat(input@, pos as int, p as int, p3 as int);
        lemma_subrange_concat(input@, pos as int, p3 as int, q as int);
    }
    let d = DataSegment { offset: Value { value: expr, start_offset: p, end_offset: p3 }, bytes };
    assert(input@.subrange(pos as int, q as int) =~= data_bytes(d));
    Ok((d, q))
}


/// A vector's bytes start with its length.
proof fn lemma_vec_head<T>(input: Seq<u8>, pos: int, end: int, s: Seq<T>, f: spec_fn(T) -> Seq<u8>)
    requires
        0 <= pos,
        end <= input.len(),
        s.len() <= u32::MAX,
        starts_with(input, pos, end, vec_bytes(s, f)),
    ensures
        starts_with(input, pos, end, uleb(((s.len() as u32) as nat))),
        uleb(s.len()) == uleb(((s.len() as u32) as nat)),
{
    lemma_starts_with_split(input, pos, end, uleb(s.len()), concat_map(s, f));
}

/// Entry `k` of a vector follows its length and the entries before it.
proof fn lemma_vec_item<T>(input: Seq<u8>, pos: int, end: int, s: Seq<T>, k: int, f: spec_fn(T) -> Seq<u8>)
    requires
        0 <= pos,
        end <= input.len(),
        0 <= k < s.len(),
        starts_with(input, pos, end, vec_bytes(s, f)),
    ensures
        starts_with(input, pos + uleb(s.len()).len() + concat_map(s.take(k), f).len(), end, f(s[k])),
        concat_map(s.take(k + 1), f) == concat_map(s.take(k), f) + f(s[k]),
{
    lemma_concat_map_at(s, k, f);
    let a = uleb(s.len()) + concat_map(s.take(k), f);
    assert(vec_bytes(s, f) =~= a + (f(s[k]) + concat_map(s.skip(k + 1), f)));
    lemma_starts_with_split(input, pos, end, a, f(s[k]) + concat_map(s.skip(k + 1), f));
    lemma_starts_with_split(input, pos + a.len(), end, f(s[k]), concat_map(s.skip(k + 1), f));
}

/// The index an export names.
pub open spec fn export_index(d: ExportDescr) -> u32 {
    match d {
        ExportDescr::Func(x) | ExportDescr::Table(x) | ExportDescr::Memory(x) | ExportDescr::Global(x) => x,
    }
}

/// Where the parts of an import's description lie, if it starts at `p`.
pub open spec fn import_type_fits(input: Seq<u8>, p: int, end: int, t: ImportType) -> bool {
    &&& p < end
    &&& input[p] == import_type_bytes(t)[0]
    &&& match t {
        ImportType::Func(x) => starts_with(input, p + 1, end, uleb(x as nat)),
        ImportType::Table(tb) => starts_with(input, p + 1, end, table_bytes(tb)),
        ImportType::Memory(m) => starts_with(input, p + 1, end, memory_bytes(m)),
        ImportType::Global(g) => starts_with(input, p + 1, end, global_type_bytes(g)),
    }
}

proof fn lemma_import_type_parts(input: Seq<u8>, p: int, end: int, t: ImportType)
    requires
        0 <= p,
        end <= input.len(),
        starts_with(input, p, end, import_type_bytes(t)),
    ensures
        import_type_fits(input, p, end, t),
{
    let b = import_type_bytes(t);
    let rest = b.subrange(1, b.len() as int);
    assert(b =~= seq![b[0]] + rest);
    lemma_starts_with_split(input, p, end, seq![b[0]], rest);
    assert(input.subrange(p, p + 1)[0] == input[p]);
    match t {
        ImportType::Func(x) => assert(rest =~= uleb(x as nat)),
        ImportType::Table(tb) => assert(rest =~= table_bytes(tb)),
        ImportType::Memory(m) => assert(rest =~= memory_bytes(m)),
        ImportType::Global(g) => assert(rest =~= global_type_bytes(g)),
    }
}

/// Where the parts of a literal-offset data segment lie, if it starts at `pos`.
pub open spec fn data_fits(input: Seq<u8>, pos: int, end: int, d: DataSegment) -> bool {
    let v = (d.offset.value@[0].value)->i32_const_0;
    &&& pos + 2 <= end
    &&& input[pos] == 0 && input[pos + 1] == 0x41
    &&& starts_with(input, pos + 2, end, sleb(v as int))
    &&& pos + 2 + sleb(v as int).len() < end && input[pos + 2 + sleb(v as int).len()] == 0x0b
    &&& starts_with(input, pos + 3 + sleb(v as int).len(), end, name_bytes(d.bytes@))
    &&& data_bytes(d).len() == 3 + sleb(v as int).len() + name_bytes(d.bytes@).len()
}

proof fn lemma_data_parts(input: Seq<u8>, pos: int, end: int, d: DataSegment)
    requires
        0 <= pos,
        end <= input.len(),
        supported_data(d),
        starts_with(input, pos, end, data_bytes(d)),
    ensures
        data_fits(input, pos, end, d),
{
    let v = (d.offset.value@[0].value)->i32_const_0;
    let e = d.offset.value@;
    assert(e.drop_last() =~= Seq::<Value<Instr>>::empty());
    reveal_with_fuel(body_bytes, 2);
    assert(body_bytes(e) =~= instr_bytes(Instr::i32_const(v)));
    let sl = sleb(v as int);
    assert(data_bytes(d) =~= seq![0x00u8, 0x41u8] + (sl + (seq![0x0bu8] + name_bytes(d.bytes@))));
    lemma_starts_with_split(input, pos, end, seq![0x00u8, 0x41u8], sl + (seq![0x0bu8] + name_bytes(d.bytes@)));
    lemma_starts_with_split(input, pos + 2, end, sl, seq![0x0bu8] + name_bytes(d.bytes@));
    lemma_starts_with_split(input, pos + 2 + sl.len(), end, seq![0x0bu8], name_bytes(d.bytes@));
    assert(input.subrange(pos, pos + 2)[0] == input[pos]);
    assert(input.subrange(pos, pos + 2)[1] == input[pos + 1]);
    assert(input.subrange(pos + 2 + sl.len(), pos + 3 + sl.len())[0] == input[pos + 2 + sl.len()]);
}

/// A memory decoded at `pos`: its initial size follows the limits flag.
pub open spec fn memory_at(m: Memory, pos: int) -> bool {
    m.initial_memory.start_offset == pos + 1
}

/// An import decoded at `pos`: an imported memory follows the two names and
/// the kind byte.
pub open spec fn import_at(i: Import, pos: int) -> bool {
    i.import_type is Memory ==> memory_at(i.import_type->Memory_0, pos + name_bytes(i.module@).len()
        + name_bytes(i.name@).len() + 1)
}

/// A body decoded at `pos`: its size prefix starts there, and its
/// expression follows the locals.
pub open spec fn code_at_pos(c: Code, pos: int) -> bool {
    &&& c.size.start_offset == pos
    &&& c.body.start_offset == c.size.end_offset + locals_bytes(c.locals@).len()
}

/// Entry `j` of `v` sits after the vector's length and the entries before it.
pub open spec fn entry_pos<T>(v: Seq<T>, start: int, j: int, f: spec_fn(T) -> Seq<u8>) -> int {
    start + uleb(v.len()).len() + concat_map(v.take(j), f).len()
}

/// A section decoded at `pos`: its size prefix follows the id byte, and the
/// entries that keep spans sit where they were read.
pub open spec fn section_at(s: Section, pos: int) -> bool {
    match s {
        Section::Unknown(..) => true,
        Section::Memory(size, v) => size.start_offset == pos + 1 && forall|j: int|
            0 <= j < v@.len() ==> memory_at(#[trigger] v@[j], entry_pos(v@, size.end_offset as int, j, |x: Memory| memory_bytes(x))),
        Section::Import(size, v) => size.start_offset == pos + 1 && forall|j: int|
            0 <= j < v@.len() ==> import_at(#[trigger] v@[j], entry_pos(v@, size.end_offset as int, j, |x: Import| import_bytes(x))),
        Section::Code(size, v) => size.start_offset == pos + 1 && forall|j: int|
            0 <= j < v@.len() ==> code_at_pos(#[trigger] v@[j], entry_pos(v@, size.end_offset as int, j, |x: Code| code_bytes(x))),
        Section::Type(size, _) | Section::Func(size, _) | Section::Table(size, _) | Section::Global(size, _)
        | Section::Export(size, _) | Section::Data(size, _) => size.start_offset == pos + 1,
    }
}

pub open spec fn supported_type(t: Type) -> bool {
    t.params@.len() <= u32::MAX && t.results@.len() <= u32::MAX
}

pub open spec fn supported_import(i: Import) -> bool {
    i.module@.len() <= u32::MAX && i.name@.len() <= u32::MAX
}

pub open spec fn supported_export(e: Export) -> bool {
    e.name@.len() <= u32::MAX
}

pub open spec fn supported_global(g: Global) -> bool {
    supported_body(g.expr@)
}

/// A body the decoder reads back: 32-bit lengths, and a size that fits.
pub open spec fn supported_code(c: Code) -> bool {
    &&& c.locals@.len() <= u32::MAX
    &&& supported_body(c.body.value@)
    &&& code_inner_bytes(c).len() <= u32::MAX
}

/// A data segment the decoder reads back: a literal offset and a 32-bit length.
pub open spec fn supported_data(d: DataSegment) -> bool {
    data_offset_literal(d) && d.bytes@.len() <= u32::MAX
}

/// The bytes of a vector of entries.
pub open spec fn valtypes_bytes(s: Seq<ValueType>) -> Seq<u8> {
    vec_bytes(s, |x: ValueType| valtype_bytes(x))
}

/// A vector the decoder reads back: a 32-bit length and supported entries.
pub open spec fn supported_valtypes(s: Seq<ValueType>) -> bool {
    s.len() <= u32::MAX
}

fn decode_valtypes(input: &[u8], pos: usize, end: usize) -> (r: Result<(Vec<ValueType>, usize), DecodeError>)
    requires
        pos <= end <= input@.len(),
    ensures
        r matches Ok((v, p)) ==> {
            &&& pos < p <= end
            &&& input@.subrange(pos as int, p as int) == vec_bytes(v@, |x: ValueType| valtype_bytes(x))
        },
        forall|s: Seq<ValueType>|
            #![trigger valtypes_bytes(s)]
            supported_valtypes(s) && starts_with(input@, pos as int, end as int, valtypes_bytes(s)) ==> (r is Ok && (r->Ok_0).1 == pos + valtypes_bytes(s).len()),
{
    let (n, p) = match read_u32(input, pos, end) {
        Ok(t) => t,
        Err(e) => {
            proof {
                assert forall|s: Seq<ValueType>| #![trigger valtypes_bytes(s)] !(supported_valtypes(s) && starts_with(input@, pos as int, end as int, valtypes_bytes(s))) by {
                    if supported_valtypes(s) && starts_with(input@, pos as int, end as int, valtypes_bytes(s)) {
                        lemma_vec_head(input@, pos as int, end as int, s, |x: ValueType| valtype_bytes(x));
                    }
                }
            }
            return Err(e);
        },
    };
    proof {
        assert forall|s: Seq<ValueType>| #![trigger valtypes_bytes(s)] supported_valtypes(s) && starts_with(input@, pos as int, end as int, valtypes_bytes(s)) implies n == s.len() && p == pos + uleb(s.len()).len() by {
            lemma_vec_head(input@, pos as int, end as int, s, |x: ValueType| valtype_bytes(x));
        }
    }
    let mut items: Vec<ValueType> = Vec::new();
    let mut q = p;
    let mut failed: Option<DecodeError> = None;
    while items.len() < n as usize && failed.is_none()
        invariant
            pos < p <= q <= end <= input@.len(),
            items@.len() <= n,
            input@.subrange(pos as int, p as int) == uleb(n as nat),
            input@.subrange(p as int, q as int) == concat_map(items@, |x: ValueType| valtype_bytes(x)),
            failed is Some ==> forall|s: Seq<ValueType>| #![trigger valtypes_bytes(s)] !(supported_valtypes(s) && starts_with(input@, pos as int, end as int, valtypes_bytes(s))),
            forall|s: Seq<ValueType>|
                #![trigger valtypes_bytes(s)]
                supported_valtypes(s) && starts_with(input@, pos as int, end as int, valtypes_bytes(s)) ==> (n == s.len() && p == pos + uleb(s.len()).len() && q == p + concat_map(
                    s.take(items@.len() as int),
                    |x: ValueType| valtype_bytes(x),
                ).len()),
        decreases n - items@.len() + (if failed is None { 1int } else { 0int }),
    {
        let k = items.len();
        match decode_valtype(input, q, end) {
            Ok((x, q2)) => {
                proof {
                    lemma_subrange_concat(input@, p as int, q as int, q2 as int);
                    lemma_concat_map_push(items@.push(x), k as int, |x: ValueType| valtype_bytes(x));
                    assert(items@.push(x).subrange(0, k as int) =~= items@);
                    assert(items@.push(x).subrange(0, k as int + 1) =~= items@.push(x));
                    assert forall|s: Seq<ValueType>|
                        #![trigger valtypes_bytes(s)]
                        supported_valtypes(s) && starts_with(input@, pos as int, end as int, valtypes_bytes(s)) implies q2 == p + concat_map(s.take(k + 1), |x: ValueType| valtype_bytes(x)).len() by {
                        lemma_vec_item(input@, pos as int, end as int, s, k as int, |x: ValueType| valtype_bytes(x));
                        assert((|x: ValueType| valtype_bytes(x))(s[k as int]) == valtype_bytes(s[k as int]));
                    }
                }
                items.push(x);
                q = q2;
            },
            Err(e) => {
                proof {
                    assert forall|s: Seq<ValueType>| #![trigger valtypes_bytes(s)] !(supported_valtypes(s) && starts_with(input@, pos as int, end as int, valtypes_bytes(s))) by {
                        if supported_valtypes(s) && starts_with(input@, pos as int, end as int, valtypes_bytes(s)) {
                            lemma_vec_item(input@, pos as int, end as int, s, k as int, |x: ValueType| valtype_bytes(x));
                            assert((|x: ValueType| valtype_bytes(x))(s[k as int]) == valtype_bytes(s[k as int]));
                        }
                    }
                }
                failed = Some(e);
            },
        }
    }
    match failed {
        Some(e) => Err(e),
        None => {
            proof {
                lemma_subrange_concat(input@, pos as int, p as int, q as int);
                assert forall|s: Seq<ValueType>| #![trigger valtypes_bytes(s)] supported_valtypes(s) && starts_with(input@, pos as int, end as int, valtypes_bytes(s)) implies q == pos + valtypes_bytes(s).len() by {
                    assert(s.take(n as int) =~= s);
                }
            }
            assert(n == items@.len());
            Ok((items, q))
        },
    }
}

/// The bytes of a vector of entries.
pub open spec fn locals_bytes(s: Seq<CodeLocal>) -> Seq<u8> {
    vec_bytes(s, |x: CodeLocal| local_bytes(x))
}

/// A vector the decoder reads back: a 32-bit length and supported entries.
pub open spec fn supported_locals(s: Seq<CodeLocal>) -> bool {
    s.len() <= u32::MAX
}

fn decode_locals(input: &[u8], pos: usize, end: usize) -> (r: Result<(Vec<CodeLocal>, usize), DecodeError>)
    requires
        pos <= end <= input@.len(),
    ensures
        r matches Ok((v, p)) ==> {
            &&& pos < p <= end
            &&& input@.subrange(pos as int, p as int) == vec_bytes(v@, |x: CodeLocal| local_bytes(x))
        },
        forall|s: Seq<CodeLocal>|
            #![trigger locals_bytes(s)]
            supported_locals(s) && starts_with(input@, pos as int, end as int, locals_bytes(s)) ==> (r is Ok && (r->Ok_0).1 == pos + locals_bytes(s).len()),
{
    let (n, p) = match read_u32(input, pos, end) {
        Ok(t) => t,
        Err(e) => {
            proof {
                assert forall|s: Seq<CodeLocal>| #![trigger locals_bytes(s)] !(supported_locals(s) && starts_with(input@, pos as int, end as int, locals_bytes(s))) by {
                    if supported_locals(s) && starts_with(input@, pos as int, end as int, locals_bytes(s)) {
                        lemma_vec_head(input@, pos as int, end as int, s, |x: CodeLocal| local_bytes(x));
                    }
                }
            }
            return Err(e);
        },
    };
    proof {
        assert forall|s: Seq<CodeLocal>| #![trigger locals_bytes(s)] supported_locals(s) && starts_with(input@, pos as int, end as int, locals_bytes(s)) implies n == s.len() && p == pos + uleb(s.len()).len() by {
            lemma_vec_head(input@, pos as int, end as int, s, |x: CodeLocal| local_bytes(x));
        }
    }
    let mut items: Vec<CodeLocal> = Vec::new();
    let mut q = p;
    let mut failed: Option<DecodeError> = None;
    while items.len() < n as usize && failed.is_none()
        invariant
            pos < p <= q <= end <= input@.len(),
            items@.len() <= n,
            input@.subrange(pos as int, p as int) == uleb(n as nat),
            input@.subrange(p as int, q as int) == concat_map(items@, |x: CodeLocal| local_bytes(x)),
            failed is Some ==> forall|s: Seq<CodeLocal>| #![trigger locals_bytes(s)] !(supported_locals(s) && starts_with(input@, pos as int, end as int, locals_bytes(s))),
            forall|s: Seq<CodeLocal>|
                #![trigger locals_bytes(s)]
                supported_locals(s) && starts_with(input@, pos as int, end as int, locals_bytes(s)) ==> (n == s.len() && p == pos + uleb(s.len()).len() && q == p + concat_map(
                    s.take(items@.len() as int),
                    |x: CodeLocal| local_bytes(x),
                ).len()),
        decreases n - items@.len() + (if failed is None { 1int } else { 0int }),
    {
        let k = items.len();
        match decode_local(input, q, end) {
            Ok((x, q2)) => {
                proof {
                    lemma_subrange_concat(input@, p as int, q as int, q2 as int);
                    lemma_concat_map_push(items@.push(x), k as int, |x: CodeLocal| local_bytes(x));
                    assert(items@.push(x).subrange(0, k as int) =~= items@);
                    assert(items@.push(x).subrange(0, k as int + 1) =~= items@.push(x));
                    assert forall|s: Seq<CodeLocal>|
                        #![trigger locals_bytes(s)]
                        supported_locals(s) && starts_with(input@, pos as int, end as int, locals_bytes(s)) implies q2 == p + concat_map(s.take(k + 1), |x: CodeLocal| local_bytes(x)).len() by {
                        lemma_vec_item(input@, pos as int, end as int, s, k as int, |x: CodeLocal| local_bytes(x));
                        assert((|x: CodeLocal| local_bytes(x))(s[k as int]) == local_bytes(s[k as int]));
                    }
                }
                items.push(x);
                q = q2;
            },
            Err(e) => {
                proof {
                    assert forall|s: Seq<CodeLocal>| #![trigger locals_bytes(s)] !(supported_locals(s) && starts_with(input@, pos as int, end as int, locals_bytes(s))) by {
                        if supported_locals(s) && starts_with(input@, pos as int, end as int, locals_bytes(s)) {
                            lemma_vec_item(input@, pos as int, end as int, s, k as int, |x: CodeLocal| local_bytes(x));
                            assert((|x: CodeLocal| local_bytes(x))(s[k as int]) == local_bytes(s[k as int]));
                        }
                    }
                }
                failed = Some(e);
            },
        }
    }
    match failed {
        Some(e) => Err(e),
        None => {
            proof {
                lemma_subrange_concat(input@, pos as int, p as int, q as int);
                assert forall|s: Seq<CodeLocal>| #![trigger locals_bytes(s)] supported_locals(s) && starts_with(input@, pos as int, end as int, locals_bytes(s)) implies q == pos + locals_bytes(s).len() by {
                    assert(s.take(n as int) =~= s);
                }
            }
            assert(n == items@.len());
            Ok((items, q))
        },
    }
}

/// The bytes of a vector of entries.
pub open spec fn types_bytes(s: Seq<Type>) -> Seq<u8> {
    vec_bytes(s, |x: Type| type_bytes(x))
}

/// A vector the decoder reads back: a 32-bit length and supported entries.
pub open spec fn supported_types(s: Seq<Type>) -> bool {
    s.len() <= u32::MAX && forall|k: int| 0 <= k < s.len() ==> supported_type(#[trigger] s[k])
}

fn decode_types(input: &[u8], pos: usize, end: usize) -> (r: Result<(Vec<Type>, usize), DecodeError>)
    requires
        pos <= end <= input@.len(),
    ensures
        r matches Ok((v, p)) ==> {
            &&& pos < p <= end
            &&& input@.subrange(pos as int, p as int) == vec_bytes(v@, |x: Type| type_bytes(x))
        },
        forall|s: Seq<Type>|
            #![trigger types_bytes(s)]
            supported_types(s) && starts_with(input@, pos as int, end as int, types_bytes(s)) ==> (r is Ok && (r->Ok_0).1 == pos + types_bytes(s).len()),
{
    let (n, p) = match read_u32(input, pos, end) {
        Ok(t) => t,
        Err(e) => {
            proof {
                assert forall|s: Seq<Type>| #![trigger types_bytes(s)] !(supported_types(s) && starts_with(input@, pos as int, end as int, types_bytes(s))) by {
                    if supported_types(s) && starts_with(input@, pos as int, end as int, types_bytes(s)) {
                        lemma_vec_head(input@, pos as int, end as int, s, |x: Type| type_bytes(x));
                    }
                }
            }
            return Err(e);
        },
    };
    proof {
        assert forall|s: Seq<Type>| #![trigger types_bytes(s)] supported_types(s) && starts_with(input@, pos as int, end as int, types_bytes(s)) implies n == s.len() && p == pos + uleb(s.len()).len() by {
            lemma_vec_head(input@, pos as int, end as int, s, |x: Type| type_bytes(x));
        }
    }
    let mut items: Vec<Type> = Vec::new();
    let mut q = p;
    let mut failed: Option<DecodeError> = None;
    while items.len() < n as usize && failed.is_none()
        invariant
            pos < p <= q <= end <= input@.len(),
            items@.len() <= n,
            input@.subrange(pos as int, p as int) == uleb(n as nat),
            input@.subrange(p as int, q as int) == concat_map(items@, |x: Type| type_bytes(x)),
            failed is Some ==> forall|s: Seq<Type>| #![trigger types_bytes(s)] !(supported_types(s) && starts_with(input@, pos as int, end as int, types_bytes(s))),
            forall|s: Seq<Type>|
                #![trigger types_bytes(s)]
                supported_types(s) && starts_with(input@, pos as int, end as int, types_bytes(s)) ==> (n == s.len() && p == pos + uleb(s.len()).len() && q == p + concat_map(
                    s.take(items@.len() as int),
                    |x: Type| type_bytes(x),
                ).len()),
        decreases n - items@.len() + (if failed is None { 1int } else { 0int }),
    {
        let k = items.len();
        match decode_type(input, q, end) {
            Ok((x, q2)) => {
                proof {
                    lemma_subrange_concat(input@, p as int, q as int, q2 as int);
                    lemma_concat_map_push(items@.push(x), k as int, |x: Type| type_bytes(x));
                    assert(items@.push(x).subrange(0, k as int) =~= items@);
                    assert(items@.push(x).subrange(0, k as int + 1) =~= items@.push(x));
                    assert forall|s: Seq<Type>|
                        #![trigger types_bytes(s)]
                        supported_types(s) && starts_with(input@, pos as int, end as int, types_bytes(s)) implies q2 == p + concat_map(s.take(k + 1), |x: Type| type_bytes(x)).len() by {
                        lemma_vec_item(input@, pos as int, end as int, s, k as int, |x: Type| type_bytes(x));
                        assert((|x: Type| type_bytes(x))(s[k as int]) == type_bytes(s[k as int]));
                    }
                }
                items.push(x);
                q = q2;
            },
            Err(e) => {
                proof {
                    assert forall|s: Seq<Type>| #![trigger types_bytes(s)] !(supported_types(s) && starts_with(input@, pos as int, end as int, types_bytes(s))) by {
                        if supported_types(s) && starts_with(input@, pos as int, end as int, types_bytes(s)) {
                            lemma_vec_item(input@, pos as int, end as int, s, k as int, |x: Type| type_bytes(x));
                            assert((|x: Type| type_bytes(x))(s[k as int]) == type_bytes(s[k as int]));
                        }
                    }
                }
                failed = Some(e);
            },
        }
    }
    match failed {
        Some(e) => Err(e),
        None => {
            proof {
                lemma_subrange_concat(input@, pos as int, p as int, q as int);
                assert forall|s: Seq<Type>| #![trigger types_bytes(s)] supported_types(s) && starts_with(input@, pos as int, end as int, types_bytes(s)) implies q == pos + types_bytes(s).len() by {
                    assert(s.take(n as int) =~= s);
                }
            }
            assert(n == items@.len());
            Ok((items, q))
        },
    }
}

/// The bytes of a vector of entries.
pub open spec fn imports_bytes(s: Seq<Import>) -> Seq<u8> {
    vec_bytes(s, |x: Import| import_bytes(x))
}

/// A vector the decoder reads back: a 32-bit length and supported entries.
pub open spec fn supported_imports(s: Seq<Import>) -> bool {
    s.len() <= u32::MAX && forall|k: int| 0 <= k < s.len() ==> supported_import(#[trigger] s[k])
}

fn decode_imports(input: &[u8], pos: usize, end: usize) -> (r: Result<(Vec<Import>, usize), DecodeError>)
    requires
        pos <= end <= input@.len(),
    ensures
        r matches Ok((v, _)) ==> forall|j: int| 0 <= j < v@.len() ==> import_at(#[trigger] v@[j], entry_pos(v@, pos as int, j, |x: Import| import_bytes(x))),
        r matches Ok((v, p)) ==> {
            &&& pos < p <= end
            &&& input@.subrange(pos as int, p as int) == vec_bytes(v@, |x: Import| import_bytes(x))
            &&& forall|j: int| 0 <= j < v@.len() ==> #[trigger] import_spans(v@[j], input@)
        },
        forall|s: Seq<Import>|
            #![trigger imports_bytes(s)]
            supported_imports(s) && starts_with(input@, pos as int, end as int, imports_bytes(s)) ==> (r is Ok && (r->Ok_0).1 == pos + imports_bytes(s).len()),
{
    let (n, p) = match read_u32(input, pos, end) {
        Ok(t) => t,
        Err(e) => {
            proof {
                assert forall|s: Seq<Import>| #![trigger imports_bytes(s)] !(supported_imports(s) && starts_with(input@, pos as int, end as int, imports_bytes(s))) by {
                    if supported_imports(s) && starts_with(input@, pos as int, end as int, imports_bytes(s)) {
                        lemma_vec_head(input@, pos as int, end as int, s, |x: Import| import_bytes(x));
                    }
                }
            }
            return Err(e);
        },
    };
    proof {
        assert forall|s: Seq<Import>| #![trigger imports_bytes(s)] supported_imports(s) && starts_with(input@, pos as int, end as int, imports_bytes(s)) implies n == s.len() && p == pos + uleb(s.len()).len() by {
            lemma_vec_head(input@, pos as int, end as int, s, |x: Import| import_bytes(x));
        }
    }
    let mut items: Vec<Import> = Vec::new();
    let mut q = p;
    let mut failed: Option<DecodeError> = None;
    while items.len() < n as usize && failed.is_none()
        invariant
            pos < p <= q <= end <= input@.len(),
            items@.len() <= n,
            forall|j: int| 0 <= j < items@.len() ==> import_at(#[trigger] items@[j], p + concat_map(items@.take(j), |x: Import| import_bytes(x)).len()),
            input@.subrange(pos as int, p as int) == uleb(n as nat),
            input@.subrange(p as int, q as int) == concat_map(items@, |x: Import| import_bytes(x)),
                forall|j: int| 0 <= j < items@.len() ==> #[trigger] import_spans(items@[j], input@),
            failed is Some ==> forall|s: Seq<Import>| #![trigger imports_bytes(s)] !(supported_imports(s) && starts_with(input@, pos as int, end as int, imports_bytes(s))),
            forall|s: Seq<Import>|
                #![trigger imports_bytes(s)]
                supported_imports(s) && starts_with(input@, pos as int, end as int, imports_bytes(s)) ==> (n == s.len() && p == pos + uleb(s.len()).len() && q == p + concat_map(
                    s.take(items@.len() as int),
                    |x: Import| import_bytes(x),
                ).len()),
        decreases n - items@.len() + (if failed is None { 1int } else { 0int }),
    {
        let k = items.len();
        match decode_import(input, q, end) {
            Ok((x, q2)) => {
                proof {
                    lemma_subrange_concat(input@, p as int, q as int, q2 as int);
                    lemma_concat_map_push(items@.push(x), k as int, |x: Import| import_bytes(x));
                    assert(items@.push(x).subrange(0, k as int) =~= items@);
                    assert(items@.push(x).subrange(0, k as int + 1) =~= items@.push(x));
                    assert forall|s: Seq<Import>|
                        #![trigger imports_bytes(s)]
                        supported_imports(s) && starts_with(input@, pos as int, end as int, imports_bytes(s)) implies q2 == p + concat_map(s.take(k + 1), |x: Import| import_bytes(x)).len() by {
                        lemma_vec_item(input@, pos as int, end as int, s, k as int, |x: Import| import_bytes(x));
                        assert((|x: Import| import_bytes(x))(s[k as int]) == import_bytes(s[k as int]));
                    }
                }
                proof {
                    assert forall|j: int| 0 <= j < items@.len() implies items@.push(x).take(j) == items@.take(j) by {
                        assert(items@.push(x).take(j) =~= items@.take(j));
                    }
                    assert(items@.push(x).take(k as int) =~= items@);
                }
                items.push(x);
                q = q2;
            },
            Err(e) => {
                proof {
                    assert forall|s: Seq<Import>| #![trigger imports_bytes(s)] !(supported_imports(s) && starts_with(input@, pos as int, end as int, imports_bytes(s))) by {
                        if supported_imports(s) && starts_with(input@, pos as int, end as int, imports_bytes(s)) {
                            lemma_vec_item(input@, pos as int, end as int, s, k as int, |x: Import| import_bytes(x));
                            assert((|x: Import| import_bytes(x))(s[k as int]) == import_bytes(s[k as int]));
                        }
                    }
                }
                failed = Some(e);
            },
        }
    }
    match failed {
        Some(e) => Err(e),
        None => {
            proof {
                lemma_subrange_concat(input@, pos as int, p as int, q as int);
                assert forall|s: Seq<Import>| #![trigger imports_bytes(s)] supported_imports(s) && starts_with(input@, pos as int, end as int, imports_bytes(s)) implies q == pos + imports_bytes(s).len() by {
                    assert(s.take(n as int) =~= s);
                }
            }
            assert(n == items@.len());
            assert(p == pos + uleb(items@.len()).len());
            Ok((items, q))
        },
    }
}

/// The bytes of a vector of entries.
pub open spec fn funcs_bytes(s: Seq<u32>) -> Seq<u8> {
    vec_bytes(s, |x: u32| u32_bytes(x))
}

/// A vector the decoder reads back: a 32-bit length and supported entries.
pub open spec fn supported_funcs(s: Seq<u32>) -> bool {
    s.len() <= u32::MAX
}

fn decode_funcs(input: &[u8], pos: usize, end: usize) -> (r: Result<(Vec<u32>, usize), DecodeError>)
    requires
        pos <= end <= input@.len(),
    ensures
        r matches Ok((v, p)) ==> {
            &&& pos < p <= end
            &&& input@.subrange(pos as int, p as int) == vec_bytes(v@, |x: u32| u32_bytes(x))
        },
        forall|s: Seq<u32>|
            #![trigger funcs_bytes(s)]
            supported_funcs(s) && starts_with(input@, pos as int, end as int, funcs_bytes(s)) ==> (r is Ok && (r->Ok_0).1 == pos + funcs_bytes(s).len()),
{
    let (n, p) = match read_u32(input, pos, end) {
        Ok(t) => t,
        Err(e) => {
            proof {
                assert forall|s: Seq<u32>| #![trigger funcs_bytes(s)] !(supported_funcs(s) && starts_with(input@, pos as int, end as int, funcs_bytes(s))) by {
                    if supported_funcs(s) && starts_with(input@, pos as int, end as int, funcs_bytes(s)) {
                        lemma_vec_head(input@, pos as int, end as int, s, |x: u32| u32_bytes(x));
                    }
                }
            }
            return Err(e);
        },
    };
    proof {
        assert forall|s: Seq<u32>| #![trigger funcs_bytes(s)] supported_funcs(s) && starts_with(input@, pos as int, end as int, funcs_bytes(s)) implies n == s.len() && p == pos + uleb(s.len()).len() by {
            lemma_vec_head(input@, pos as int, end as int, s, |x: u32| u32_bytes(x));
        }
    }
    let mut items: Vec<u32> = Vec::new();
    let mut q = p;
    let mut failed: Option<DecodeError> = None;
    while items.len() < n as usize && failed.is_none()
        invariant
            pos < p <= q <= end <= input@.len(),
            items@.len() <= n,
            input@.subrange(pos as int, p as int) == uleb(n as nat),
            input@.subrange(p as int, q as int) == concat_map(items@, |x: u32| u32_bytes(x)),
            failed is Some ==> forall|s: Seq<u32>| #![trigger funcs_bytes(s)] !(supported_funcs(s) && starts_with(input@, pos as int, end as int, funcs_bytes(s))),
            forall|s: Seq<u32>|
                #![trigger funcs_bytes(s)]
                supported_funcs(s) && starts_with(input@, pos as int, end as int, funcs_bytes(s)) ==> (n == s.len() && p == pos + uleb(s.len()).len() && q == p + concat_map(
                    s.take(items@.len() as int),
                    |x: u32| u32_bytes(x),
                ).len()),
        decreases n - items@.len() + (if failed is None { 1int } else { 0int }),
    {
        let k = items.len();
        match read_u32(input, q, end) {
            Ok((x, q2)) => {
                proof {
                    lemma_subrange_concat(input@, p as int, q as int, q2 as int);
                    lemma_concat_map_push(items@.push(x), k as int, |x: u32| u32_bytes(x));
                    assert(items@.push(x).subrange(0, k as int) =~= items@);
                    assert(items@.push(x).subrange(0, k as int + 1) =~= items@.push(x));
                    assert forall|s: Seq<u32>|
                        #![trigger funcs_bytes(s)]
                        supported_funcs(s) && starts_with(input@, pos as int, end as int, funcs_bytes(s)) implies q2 == p + concat_map(s.take(k + 1), |x: u32| u32_bytes(x)).len() by {
                        lemma_vec_item(input@, pos as int, end as int, s, k as int, |x: u32| u32_bytes(x));
                        assert((|x: u32| u32_bytes(x))(s[k as int]) == u32_bytes(s[k as int]));
                            assert(u32_bytes(s[k as int]) == uleb(s[k as int] as nat));
                    }
                }
                items.push(x);
                q = q2;
            },
            Err(e) => {
                proof {
                    assert forall|s: Seq<u32>| #![trigger funcs_bytes(s)] !(supported_funcs(s) && starts_with(input@, pos as int, end as int, funcs_bytes(s))) by {
                        if supported_funcs(s) && starts_with(input@, pos as int, end as int, funcs_bytes(s)) {
                            lemma_vec_item(input@, pos as int, end as int, s, k as int, |x: u32| u32_bytes(x));
                            assert((|x: u32| u32_bytes(x))(s[k as int]) == u32_bytes(s[k as int]));
                            assert(u32_bytes(s[k as int]) == uleb(s[k as int] as nat));
                        }
                    }
                }
                failed = Some(e);
            },
        }
    }
    match failed {
        Some(e) => Err(e),
        None => {
            proof {
                lemma_subrange_concat(input@, pos as int, p as int, q as int);
                assert forall|s: Seq<u32>| #![trigger funcs_bytes(s)] supported_funcs(s) && starts_with(input@, pos as int, end as int, funcs_bytes(s)) implies q == pos + funcs_bytes(s).len() by {
                    assert(s.take(n as int) =~= s);
                }
            }
            assert(n == items@.len());
            Ok((items, q))
        },
    }
}

/// The bytes of a vector of entries.
pub open spec fn tables_bytes(s: Seq<Table>) -> Seq<u8> {
    vec_bytes(s, |x: Table| table_bytes(x))
}

/// A vector the decoder reads back: a 32-bit length and supported entries.
pub open spec fn supported_tables(s: Seq<Table>) -> bool {
    s.len() <= u32::MAX
}

fn decode_tables(input: &[u8], pos: usize, end: usize) -> (r: Result<(Vec<Table>, usize), DecodeError>)
    requires
        pos <= end <= input@.len(),
    ensures
        r matches Ok((v, p)) ==> {
            &&& pos < p <= end
            &&& input@.subrange(pos as int, p as int) == vec_bytes(v@, |x: Table| table_bytes(x))
        },
        forall|s: Seq<Table>|
            #![trigger tables_bytes(s)]
            supported_tables(s) && starts_with(input@, pos as int, end as int, tables_bytes(s)) ==> (r is Ok && (r->Ok_0).1 == pos + tables_bytes(s).len()),
{
    let (n, p) = match read_u32(input, pos, end) {
        Ok(t) => t,
        Err(e) => {
            proof {
                assert forall|s: Seq<Table>| #![trigger tables_bytes(s)] !(supported_tables(s) && starts_with(input@, pos as int, end as int, tables_bytes(s))) by {
                    if supported_tables(s) && starts_with(input@, pos as int, end as int, tables_bytes(s)) {
                        lemma_vec_head(input@, pos as int, end as int, s, |x: Table| table_bytes(x));
                    }
                }
            }
            return Err(e);
        },
    };
    proof {
        assert forall|s: Seq<Table>| #![trigger tables_bytes(s)] supported_tables(s) && starts_with(input@, pos as int, end as int, tables_bytes(s)) implies n == s.len() && p == pos + uleb(s.len()).len() by {
            lemma_vec_head(input@, pos as int, end as int, s, |x: Table| table_bytes(x));
        }
    }
    let mut items: Vec<Table> = Vec::new();
    let mut q = p;
    let mut failed: Option<DecodeError> = None;
    while items.len() < n as usize && failed.is_none()
        invariant
            pos < p <= q <= end <= input@.len(),
            items@.len() <= n,
            input@.subrange(pos as int, p as int) == uleb(n as nat),
            input@.subrange(p as int, q as int) == concat_map(items@, |x: Table| table_bytes(x)),
            failed is Some ==> forall|s: Seq<Table>| #![trigger tables_bytes(s)] !(supported_tables(s) && starts_with(input@, pos as int, end as int, tables_bytes(s))),
            forall|s: Seq<Table>|
                #![trigger tables_bytes(s)]
                supported_tables(s) && starts_with(input@, pos as int, end as int, tables_bytes(s)) ==> (n == s.len() && p == pos + uleb(s.len()).len() && q == p + concat_map(
                    s.take(items@.len() as int),
                    |x: Table| table_bytes(x),
                ).len()),
        decreases n - items@.len() + (if failed is None { 1int } else { 0int }),
    {
        let k = items.len();
        match decode_table(input, q, end) {
            Ok((x, q2)) => {
                proof {
                    lemma_subrange_concat(input@, p as int, q as int, q2 as int);
                    lemma_concat_map_push(items@.push(x), k as int, |x: Table| table_bytes(x));
                    assert(items@.push(x).subrange(0, k as int) =~= items@);
                    assert(items@.push(x).subrange(0, k as int + 1) =~= items@.push(x));
                    assert forall|s: Seq<Table>|
                        #![trigger tables_bytes(s)]
                        supported_tables(s) && starts_with(input@, pos as int, end as int, tables_bytes(s)) implies q2 == p + concat_map(s.take(k + 1), |x: Table| table_bytes(x)).len() by {
                        lemma_vec_item(input@, pos as int, end as int, s, k as int, |x: Table| table_bytes(x));
                        assert((|x: Table| table_bytes(x))(s[k as int]) == table_bytes(s[k as int]));
                    }
                }
                items.push(x);
                q = q2;
            },
            Err(e) => {
                proof {
                    assert forall|s: Seq<Table>| #![trigger tables_bytes(s)] !(supported_tables(s) && starts_with(input@, pos as int, end as int, tables_bytes(s))) by {
                        if supported_tables(s) && starts_with(input@, pos as int, end as int, tables_bytes(s)) {
                            lemma_vec_item(input@, pos as int, end as int, s, k as int, |x: Table| table_bytes(x));
                            assert((|x: Table| table_bytes(x))(s[k as int]) == table_bytes(s[k as int]));
                        }
                    }
                }
                failed = Some(e);
            },
        }
    }
    match failed {
        Some(e) => Err(e),
        None => {
            proof {
                lemma_subrange_concat(input@, pos as int, p as int, q as int);
                assert forall|s: Seq<Table>| #![trigger tables_bytes(s)] supported_tables(s) && starts_with(input@, pos as int, end as int, tables_bytes(s)) implies q == pos + tables_bytes(s).len() by {
                    assert(s.take(n as int) =~= s);
                }
            }
            assert(n == items@.len());
            Ok((items, q))
        },
    }
}

/// The bytes of a vector of entries.
pub open spec fn memories_bytes(s: Seq<Memory>) -> Seq<u8> {
    vec_bytes(s, |x: Memory| memory_bytes(x))
}

/// A vector the decoder reads back: a 32-bit length and supported entries.
pub open spec fn supported_memories(s: Seq<Memory>) -> bool {
    s.len() <= u32::MAX
}

fn decode_memories(input: &[u8], pos: usize, end: usize) -> (r: Result<(Vec<Memory>, usize), DecodeError>)
    requires
        pos <= end <= input@.len(),
    ensures
        r matches Ok((v, _)) ==> forall|j: int| 0 <= j < v@.len() ==> memory_at(#[trigger] v@[j], entry_pos(v@, pos as int, j, |x: Memory| memory_bytes(x))),
        r matches Ok((v, p)) ==> {
            &&& pos < p <= end
            &&& input@.subrange(pos as int, p as int) == vec_bytes(v@, |x: Memory| memory_bytes(x))
            &&& forall|j: int| 0 <= j < v@.len() ==> #[trigger] memory_spans(v@[j], input@)
        },
        forall|s: Seq<Memory>|
            #![trigger memories_bytes(s)]
            supported_memories(s) && starts_with(input@, pos as int, end as int, memories_bytes(s)) ==> (r is Ok && (r->Ok_0).1 == pos + memories_bytes(s).len()),
{
    let (n, p) = match read_u32(input, pos, end) {
        Ok(t) => t,
        Err(e) => {
            proof {
                assert forall|s: Seq<Memory>| #![trigger memories_bytes(s)] !(supported_memories(s) && starts_with(input@, pos as int, end as int, memories_bytes(s))) by {
                    if supported_memories(s) && starts_with(input@, pos as int, end as int, memories_bytes(s)) {
                        lemma_vec_head(input@, pos as int, end as int, s, |x: Memory| memory_bytes(x));
                    }
                }
            }
            return Err(e);
        },
    };
    proof {
        assert forall|s: Seq<Memory>| #![trigger memories_bytes(s)] supported_memories(s) && starts_with(input@, pos as int, end as int, memories_bytes(s)) implies n == s.len() && p == pos + uleb(s.len()).len() by {
            lemma_vec_head(input@, pos as int, end as int, s, |x: Memory| memory_bytes(x));
        }
    }
    let mut items: Vec<Memory> = Vec::new();
    let mut q = p;
    let mut failed: Option<DecodeError> = None;
    while items.len() < n as usize && failed.is_none()
        invariant
            pos < p <= q <= end <= input@.len(),
            items@.len() <= n,
            forall|j: int| 0 <= j < items@.len() ==> memory_at(#[trigger] items@[j], p + concat_map(items@.take(j), |x: Memory| memory_bytes(x)).len()),
            input@.subrange(pos as int, p as int) == uleb(n as nat),
            input@.subrange(p as int, q as int) == concat_map(items@, |x: Memory| memory_bytes(x)),
                forall|j: int| 0 <= j < items@.len() ==> #[trigger] memory_spans(items@[j], input@),
            failed is Some ==> forall|s: Seq<Memory>| #![trigger memories_bytes(s)] !(supported_memories(s) && starts_with(input@, pos as int, end as int, memories_bytes(s))),
            forall|s: Seq<Memory>|
                #![trigger memories_bytes(s)]
                supported_memories(s) && starts_with(input@, pos as int, end as int, memories_bytes(s)) ==> (n == s.len() && p == pos + uleb(s.len()).len() && q == p + concat_map(
                    s.take(items@.len() as int),
                    |x: Memory| memory_bytes(x),
                ).len()),
        decreases n - items@.len() + (if failed is None { 1int } else { 0int }),
    {
        let k = items.len();
        match decode_memory(input, q, end) {
            Ok((x, q2)) => {
                proof {
                    lemma_subrange_concat(input@, p as int, q as int, q2 as int);
                    lemma_concat_map_push(items@.push(x), k as int, |x: Memory| memory_bytes(x));
                    assert(items@.push(x).subrange(0, k as int) =~= items@);
                    assert(items@.push(x).subrange(0, k as int + 1) =~= items@.push(x));
                    assert forall|s: Seq<Memory>|
                        #![trigger memories_bytes(s)]
                        supported_memories(s) && starts_with(input@, pos as int, end as int, memories_bytes(s)) implies q2 == p + concat_map(s.take(k + 1), |x: Memory| memory_bytes(x)).len() by {
                        lemma_vec_item(input@, pos as int, end as int, s, k as int, |x: Memory| memory_bytes(x));
                        assert((|x: Memory| memory_bytes(x))(s[k as int]) == memory_bytes(s[k as int]));
                    }
                }
                proof {
                    assert forall|j: int| 0 <= j < items@.len() implies items@.push(x).take(j) == items@.take(j) by {
                        assert(items@.push(x).take(j) =~= items@.take(j));
                    }
                    assert(items@.push(x).take(k as int) =~= items@);
                }
                items.push(x);
                q = q2;
            },
            Err(e) => {
                proof {
                    assert forall|s: Seq<Memory>| #![trigger memories_bytes(s)] !(supported_memories(s) && starts_with(input@, pos as int, end as int, memories_bytes(s))) by {
                        if supported_memories(s) && starts_with(input@, pos as int, end as int, memories_bytes(s)) {
                            lemma_vec_item(input@, pos as int, end as int, s, k as int, |x: Memory| memory_bytes(x));
                            assert((|x: Memory| memory_bytes(x))(s[k as int]) == memory_bytes(s[k as int]));
                        }
                    }
                }
                failed = Some(e);
            },
        }
    }
    match failed {
        Some(e) => Err(e),
        None => {
            proof {
                lemma_subrange_concat(input@, pos as int, p as int, q as int);
                assert forall|s: Seq<Memory>| #![trigger memories_bytes(s)] supported_memories(s) && starts_with(input@, pos as int, end as int, memories_bytes(s)) implies q == pos + memories_bytes(s).len() by {
                    assert(s.take(n as int) =~= s);
                }
            }
            assert(n == items@.len());
            assert(p == pos + uleb(items@.len()).len());
            Ok((items, q))
        },
    }
}

/// The bytes of a vector of entries.
pub open spec fn globals_bytes(s: Seq<Global>) -> Seq<u8> {
    vec_bytes(s, |x: Global| global_bytes(x))
}

/// A vector the decoder reads back: a 32-bit length and supported entries.
pub open spec fn supported_globals(s: Seq<Global>) -> bool {
    s.len() <= u32::MAX && forall|k: int| 0 <= k < s.len() ==> supported_global(#[trigger] s[k])
}

fn decode_globals(input: &[u8], pos: usize, end: usize) -> (r: Result<(Vec<Global>, usize), DecodeError>)
    requires
        pos <= end <= input@.len(),
    ensures
        r matches Ok((v, p)) ==> {
            &&& pos < p <= end
            &&& input@.subrange(pos as int, p as int) == vec_bytes(v@, |x: Global| global_bytes(x))
            &&& forall|j: int| 0 <= j < v@.len() ==> #[trigger] global_spans(v@[j], input@)
        },
        forall|s: Seq<Global>|
            #![trigger globals_bytes(s)]
            supported_globals(s) && starts_with(input@, pos as int, end as int, globals_bytes(s)) ==> (r is Ok && (r->Ok_0).1 == pos + globals_bytes(s).len()),
{
    let (n, p) = match read_u32(input, pos, end) {
        Ok(t) => t,
        Err(e) => {
            proof {
                assert forall|s: Seq<Global>| #![trigger globals_bytes(s)] !(supported_globals(s) && starts_with(input@, pos as int, end as int, globals_bytes(s))) by {
                    if supported_globals(s) && starts_with(input@, pos as int, end as int, globals_bytes(s)) {
                        lemma_vec_head(input@, pos as int, end as int, s, |x: Global| global_bytes(x));
                    }
                }
            }
            return Err(e);
        },
    };
    proof {
        assert forall|s: Seq<Global>| #![trigger globals_bytes(s)] supported_globals(s) && starts_with(input@, pos as int, end as int, globals_bytes(s)) implies n == s.len() && p == pos + uleb(s.len()).len() by {
            lemma_vec_head(input@, pos as int, end as int, s, |x: Global| global_bytes(x));
        }
    }
    let mut items: Vec<Global> = Vec::new();
    let mut q = p;
    let mut failed: Option<DecodeError> = None;
    while items.len() < n as usize && failed.is_none()
        invariant
            pos < p <= q <= end <= input@.len(),
            items@.len() <= n,
            input@.subrange(pos as int, p as int) == uleb(n as nat),
            input@.subrange(p as int, q as int) == concat_map(items@, |x: Global| global_bytes(x)),
                forall|j: int| 0 <= j < items@.len() ==> #[trigger] global_spans(items@[j], input@),
            failed is Some ==> forall|s: Seq<Global>| #![trigger globals_bytes(s)] !(supported_globals(s) && starts_with(input@, pos as int, end as int, globals_bytes(s))),
            forall|s: Seq<Global>|
                #![trigger globals_bytes(s)]
                supported_globals(s) && starts_with(input@, pos as int, end as int, globals_bytes(s)) ==> (n == s.len() && p == pos + uleb(s.len()).len() && q == p + concat_map(
                    s.take(items@.len() as int),
                    |x: Global| global_bytes(x),
                ).len()),
        decreases n - items@.len() + (if failed is None { 1int } else { 0int }),
    {
        let k = items.len();
        match decode_global(input, q, end) {
            Ok((x, q2)) => {
                proof {
                    lemma_subrange_concat(input@, p as int, q as int, q2 as int);
                    lemma_concat_map_push(items@.push(x), k as int, |x: Global| global_bytes(x));
                    assert(items@.push(x).subrange(0, k as int) =~= items@);
                    assert(items@.push(x).subrange(0, k as int + 1) =~= items@.push(x));
                    assert forall|s: Seq<Global>|
                        #![trigger globals_bytes(s)]
                        supported_globals(s) && starts_with(input@, pos as int, end as int, globals_bytes(s)) implies q2 == p + concat_map(s.take(k + 1), |x: Global| global_bytes(x)).len() by {
                        lemma_vec_item(input@, pos as int, end as int, s, k as int, |x: Global| global_bytes(x));
                        assert((|x: Global| global_bytes(x))(s[k as int]) == global_bytes(s[k as int]));
                    }
                }
                items.push(x);
                q = q2;
            },
            Err(e) => {
                proof {
                    assert forall|s: Seq<Global>| #![trigger globals_bytes(s)] !(supported_globals(s) && starts_with(input@, pos as int, end as int, globals_bytes(s))) by {
                        if supported_globals(s) && starts_with(input@, pos as int, end as int, globals_bytes(s)) {
                            lemma_vec_item(input@, pos as int, end as int, s, k as int, |x: Global| global_bytes(x));
                            assert((|x: Global| global_bytes(x))(s[k as int]) == global_bytes(s[k as int]));
                        }
                    }
                }
                failed = Some(e);
            },
        }
    }
    match failed {
        Some(e) => Err(e),
        None => {
            proof {
                lemma_subrange_concat(input@, pos as int, p as int, q as int);
                assert forall|s: Seq<Global>| #![trigger globals_bytes(s)] supported_globals(s) && starts_with(input@, pos as int, end as int, globals_bytes(s)) implies q == pos + globals_bytes(s).len() by {
                    assert(s.take(n as int) =~= s);
                }
            }
            assert(n == items@.len());
            Ok((items, q))
        },
    }
}

/// The bytes of a vector of entries.
pub open spec fn exports_bytes(s: Seq<Export>) -> Seq<u8> {
    vec_bytes(s, |x: Export| export_bytes(x))
}

/// A vector the decoder reads back: a 32-bit length and supported entries.
pub open spec fn supported_exports(s: Seq<Export>) -> bool {
    s.len() <= u32::MAX && forall|k: int| 0 <= k < s.len() ==> supported_export(#[trigger] s[k])
}

fn decode_exports(input: &[u8], pos: usize, end: usize) -> (r: Result<(Vec<Export>, usize), DecodeError>)
    requires
        pos <= end <= input@.len(),
    ensures
        r matches Ok((v, p)) ==> {
            &&& pos < p <= end
            &&& input@.subrange(pos as int, p as int) == vec_bytes(v@, |x: Export| export_bytes(x))
        },
        forall|s: Seq<Export>|
            #![trigger exports_bytes(s)]
            supported_exports(s) && starts_with(input@, pos as int, end as int, exports_bytes(s)) ==> (r is Ok && (r->Ok_0).1 == pos + exports_bytes(s).len()),
{
    let (n, p) = match read_u32(input, pos, end) {
        Ok(t) => t,
        Err(e) => {
            proof {
                assert forall|s: Seq<Export>| #![trigger exports_bytes(s)] !(supported_exports(s) && starts_with(input@, pos as int, end as int, exports_bytes(s))) by {
                    if supported_exports(s) && starts_with(input@, pos as int, end as int, exports_bytes(s)) {
                        lemma_vec_head(input@, pos as int, end as int, s, |x: Export| export_bytes(x));
                    }
                }
            }
            return Err(e);
        },
    };
    proof {
        assert forall|s: Seq<Export>| #![trigger exports_bytes(s)] supported_exports(s) && starts_with(input@, pos as int, end as int, exports_bytes(s)) implies n == s.len() && p == pos + uleb(s.len()).len() by {
            lemma_vec_head(input@, pos as int, end as int, s, |x: Export| export_bytes(x));
        }
    }
    let mut items: Vec<Export> = Vec::new();
    let mut q = p;
    let mut failed: Option<DecodeError> = None;
    while items.len() < n as usize && failed.is_none()
        invariant
            pos < p <= q <= end <= input@.len(),
            items@.len() <= n,
            input@.subrange(pos as int, p as int) == uleb(n as nat),
            input@.subrange(p as int, q as int) == concat_map(items@, |x: Export| export_bytes(x)),
            failed is Some ==> forall|s: Seq<Export>| #![trigger exports_bytes(s)] !(supported_exports(s) && starts_with(input@, pos as int, end as int, exports_bytes(s))),
            forall|s: Seq<Export>|
                #![trigger exports_bytes(s)]
                supported_exports(s) && starts_with(input@, pos as int, end as int, exports_bytes(s)) ==> (n == s.len() && p == pos + uleb(s.len()).len() && q == p + concat_map(
                    s.take(items@.len() as int),
                    |x: Export| export_bytes(x),
                ).len()),
        decreases n - items@.len() + (if failed is None { 1int } else { 0int }),
    {
        let k = items.len();
        match decode_export(input, q, end) {
            Ok((x, q2)) => {
                proof {
                    lemma_subrange_concat(input@, p as int, q as int, q2 as int);
                    lemma_concat_map_push(items@.push(x), k as int, |x: Export| export_bytes(x));
                    assert(items@.push(x).subrange(0, k as int) =~= items@);
                    assert(items@.push(x).subrange(0, k as int + 1) =~= items@.push(x));
                    assert forall|s: Seq<Export>|
                        #![trigger exports_bytes(s)]
                        supported_exports(s) && starts_with(input@, pos as int, end as int, exports_bytes(s)) implies q2 == p + concat_map(s.take(k + 1), |x: Export| export_bytes(x)).len() by {
                        lemma_vec_item(input@, pos as int, end as int, s, k as int, |x: Export| export_bytes(x));
                        assert((|x: Export| export_bytes(x))(s[k as int]) == export_bytes(s[k as int]));
                    }
                }
                items.push(x);
                q = q2;
            },
            Err(e) => {
                proof {
                    assert forall|s: Seq<Export>| #![trigger exports_bytes(s)] !(supported_exports(s) && starts_with(input@, pos as int, end as int, exports_bytes(s))) by {
                        if supported_exports(s) && starts_with(input@, pos as int, end as int, exports_bytes(s)) {
                            lemma_vec_item(input@, pos as int, end as int, s, k as int, |x: Export| export_bytes(x));
                            assert((|x: Export| export_bytes(x))(s[k as int]) == export_bytes(s[k as int]));
                        }
                    }
                }
                failed = Some(e);
            },
        }
    }
    match failed {
        Some(e) => Err(e),
        None => {
            proof {
                lemma_subrange_concat(input@, pos as int, p as int, q as int);
                assert forall|s: Seq<Export>| #![trigger exports_bytes(s)] supported_exports(s) && starts_with(input@, pos as int, end as int, exports_bytes(s)) implies q == pos + exports_bytes(s).len() by {
                    assert(s.take(n as int) =~= s);
                }
            }
            assert(n == items@.len());
            Ok((items, q))
        },
    }
}

/// The bytes of a vector of entries.
pub open spec fn codes_bytes(s: Seq<Code>) -> Seq<u8> {
    vec_bytes(s, |x: Code| code_bytes(x))
}

/// A vector the decoder reads back: a 32-bit length and supported entries.
pub open spec fn supported_codes(s: Seq<Code>) -> bool {
    s.len() <= u32::MAX && forall|k: int| 0 <= k < s.len() ==> supported_code(#[trigger] s[k])
}

fn decode_codes(input: &[u8], pos: usize, end: usize) -> (r: Result<(Vec<Code>, usize), DecodeError>)
    requires
        pos <= end <= input@.len(),
    ensures
        r matches Ok((v, _)) ==> forall|j: int| 0 <= j < v@.len() ==> code_at_pos(#[trigger] v@[j], entry_pos(v@, pos as int, j, |x: Code| code_bytes(x))),
        r matches Ok((v, p)) ==> {
            &&& pos < p <= end
            &&& input@.subrange(pos as int, p as int) == vec_bytes(v@, |x: Code| code_bytes(x))
            &&& forall|j: int| 0 <= j < v@.len() ==> #[trigger] code_spans(v@[j], input@)
        },
        forall|s: Seq<Code>|
            #![trigger codes_bytes(s)]
            supported_codes(s) && starts_with(input@, pos as int, end as int, codes_bytes(s)) ==> (r is Ok && (r->Ok_0).1 == pos + codes_bytes(s).len()),
{
    let (n, p) = match read_u32(input, pos, end) {
        Ok(t) => t,
        Err(e) => {
            proof {
                assert forall|s: Seq<Code>| #![trigger codes_bytes(s)] !(supported_codes(s) && starts_with(input@, pos as int, end as int, codes_bytes(s))) by {
                    if supported_codes(s) && starts_with(input@, pos as int, end as int, codes_bytes(s)) {
                        lemma_vec_head(input@, pos as int, end as int, s, |x: Code| code_bytes(x));
                    }
                }
            }
            return Err(e);
        },
    };
    proof {
        assert forall|s: Seq<Code>| #![trigger codes_bytes(s)] supported_codes(s) && starts_with(input@, pos as int, end as int, codes_bytes(s)) implies n == s.len() && p == pos + uleb(s.len()).len() by {
            lemma_vec_head(input@, pos as int, end as int, s, |x: Code| code_bytes(x));
        }
    }
    let mut items: Vec<Code> = Vec::new();
    let mut q = p;
    let mut failed: Option<DecodeError> = None;
    while items.len() < n as usize && failed.is_none()
        invariant
            pos < p <= q <= end <= input@.len(),
            items@.len() <= n,
            forall|j: int| 0 <= j < items@.len() ==> code_at_pos(#[trigger] items@[j], p + concat_map(items@.take(j), |x: Code| code_bytes(x)).len()),
            input@.subrange(pos as int, p as int) == uleb(n as nat),
            input@.subrange(p as int, q as int) == concat_map(items@, |x: Code| code_bytes(x)),
                forall|j: int| 0 <= j < items@.len() ==> #[trigger] code_spans(items@[j], input@),
            failed is Some ==> forall|s: Seq<Code>| #![trigger codes_bytes(s)] !(supported_codes(s) && starts_with(input@, pos as int, end as int, codes_bytes(s))),
            forall|s: Seq<Code>|
                #![trigger codes_bytes(s)]
                supported_codes(s) && starts_with(input@, pos as int, end as int, codes_bytes(s)) ==> (n == s.len() && p == pos + uleb(s.len()).len() && q == p + concat_map(
                    s.take(items@.len() as int),
                    |x: Code| code_bytes(x),
                ).len()),
        decreases n - items@.len() + (if failed is None { 1int } else { 0int }),
    {
        let k = items.len();
        match decode_code(input, q, end) {
            Ok((x, q2)) => {
                proof {
                    lemma_subrange_concat(input@, p as int, q as int, q2 as int);
                    lemma_concat_map_push(items@.push(x), k as int, |x: Code| code_bytes(x));
                    assert(items@.push(x).subrange(0, k as int) =~= items@);
                    assert(items@.push(x).subrange(0, k as int + 1) =~= items@.push(x));
                    assert forall|s: Seq<Code>|
                        #![trigger codes_bytes(s)]
                        supported_codes(s) && starts_with(input@, pos as int, end as int, codes_bytes(s)) implies q2 == p + concat_map(s.take(k + 1), |x: Code| code_bytes(x)).len() by {
                        lemma_vec_item(input@, pos as int, end as int, s, k as int, |x: Code| code_bytes(x));
                        assert((|x: Code| code_bytes(x))(s[k as int]) == code_bytes(s[k as int]));
                    }
                }
                proof {
                    assert forall|j: int| 0 <= j < items@.len() implies items@.push(x).take(j) == items@.take(j) by {
                        assert(items@.push(x).take(j) =~= items@.take(j));
                    }
                    assert(items@.push(x).take(k as int) =~= items@);
                }
                items.push(x);
                q = q2;
            },
            Err(e) => {
                proof {
                    assert forall|s: Seq<Code>| #![trigger codes_bytes(s)] !(supported_codes(s) && starts_with(input@, pos as int, end as int, codes_bytes(s))) by {
                        if supported_codes(s) && starts_with(input@, pos as int, end as int, codes_bytes(s)) {
                            lemma_vec_item(input@, pos as int, end as int, s, k as int, |x: Code| code_bytes(x));
                            assert((|x: Code| code_bytes(x))(s[k as int]) == code_bytes(s[k as int]));
                        }
                    }
                }
                failed = Some(e);
            },
        }
    }
    match failed {
        Some(e) => Err(e),
        None => {
            proof {
                lemma_subrange_concat(input@, pos as int, p as int, q as int);
                assert forall|s: Seq<Code>| #![trigger codes_bytes(s)] supported_codes(s) && starts_with(input@, pos as int, end as int, codes_bytes(s)) implies q == pos + codes_bytes(s).len() by {
                    assert(s.take(n as int) =~= s);
                }
            }
            assert(n == items@.len());
            assert(p == pos + uleb(items@.len()).len());
            Ok((items, q))
        },
    }
}

/// The bytes of a vector of entries.
pub open spec fn datas_bytes(s: Seq<DataSegment>) -> Seq<u8> {
    vec_bytes(s, |x: DataSegment| data_bytes(x))
}

/// A vector the decoder reads back: a 32-bit length and supported entries.
pub open spec fn supported_datas(s: Seq<DataSegment>) -> bool {
    s.len() <= u32::MAX && forall|k: int| 0 <= k < s.len() ==> supported_data(#[trigger] s[k])
}

fn decode_datas(input: &[u8], pos: usize, end: usize) -> (r: Result<(Vec<DataSegment>, usize), DecodeError>)
    requires
        pos <= end <= input@.len(),
    ensures
        r matches Ok((v, p)) ==> {
            &&& pos < p <= end
            &&& input@.subrange(pos as int, p as int) == vec_bytes(v@, |x: DataSegment| data_bytes(x))
            &&& forall|j: int| 0 <= j < v@.len() ==> #[trigger] data_spans(v@[j], input@)
        },
        forall|s: Seq<DataSegment>|
            #![trigger datas_bytes(s)]
            supported_datas(s) && starts_with(input@, pos as int, end as int, datas_bytes(s)) ==> (r is Ok && (r->Ok_0).1 == pos + datas_bytes(s).len()),
{
    let (n, p) = match read_u32(input, pos, end) {
        Ok(t) => t,
        Err(e) => {
            proof {
                assert forall|s: Seq<DataSegment>| #![trigger datas_bytes(s)] !(supported_datas(s) && starts_with(input@, pos as int, end as int, datas_bytes(s))) by {
                    if supported_datas(s) && starts_with(input@, pos as int, end as int, datas_bytes(s)) {
                        lemma_vec_head(input@, pos as int, end as int, s, |x: DataSegment| data_bytes(x));
                    }
                }
            }
            return Err(e);
        },
    };
    proof {
        assert forall|s: Seq<DataSegment>| #![trigger datas_bytes(s)] supported_datas(s) && starts_with(input@, pos as int, end as int, datas_bytes(s)) implies n == s.len() && p == pos + uleb(s.len()).len() by {
            lemma_vec_head(input@, pos as int, end as int, s, |x: DataSegment| data_bytes(x));
        }
    }
    let mut items: Vec<DataSegment> = Vec::new();
    let mut q = p;
    let mut failed: Option<DecodeError> = None;
    while items.len() < n as usize && failed.is_none()
        invariant
            pos < p <= q <= end <= input@.len(),
            items@.len() <= n,
            input@.subrange(pos as int, p as int) == uleb(n as nat),
            input@.subrange(p as int, q as int) == concat_map(items@, |x: DataSegment| data_bytes(x)),
                forall|j: int| 0 <= j < items@.len() ==> #[trigger] data_spans(items@[j], input@),
            failed is Some ==> forall|s: Seq<DataSegment>| #![trigger datas_bytes(s)] !(supported_datas(s) && starts_with(input@, pos as int, end as int, datas_bytes(s))),
            forall|s: Seq<DataSegment>|
                #![trigger datas_bytes(s)]
                supported_datas(s) && starts_with(input@, pos as int, end as int, datas_bytes(s)) ==> (n == s.len() && p == pos + uleb(s.len()).len() && q == p + concat_map(
                    s.take(items@.len() as int),
                    |x: DataSegment| data_bytes(x),
                ).len()),
        decreases n - items@.len() + (if failed is None { 1int } else { 0int }),
    {
        let k = items.len();
        match decode_data(input, q, end) {
            Ok((x, q2)) => {
                proof {
                    lemma_subrange_concat(input@, p as int, q as int, q2 as int);
                    lemma_concat_map_push(items@.push(x), k as int, |x: DataSegment| data_bytes(x));
                    assert(items@.push(x).subrange(0, k as int) =~= items@);
                    assert(items@.push(x).subrange(0, k as int + 1) =~= items@.push(x));
                    assert forall|s: Seq<DataSegment>|
                        #![trigger datas_bytes(s)]
                        supported_datas(s) && starts_with(input@, pos as int, end as int, datas_bytes(s)) implies q2 == p + concat_map(s.take(k + 1), |x: DataSegment| data_bytes(x)).len() by {
                        lemma_vec_item(input@, pos as int, end as int, s, k as int, |x: DataSegment| data_bytes(x));
                        assert((|x: DataSegment| data_bytes(x))(s[k as int]) == data_bytes(s[k as int]));
                    }
                }
                items.push(x);
                q = q2;
            },
            Err(e) => {
                proof {
                    assert forall|s: Seq<DataSegment>| #![trigger datas_bytes(s)] !(supported_datas(s) && starts_with(input@, pos as int, end as int, datas_bytes(s))) by {
                        if supported_datas(s) && starts_with(input@, pos as int, end as int, datas_bytes(s)) {
                            lemma_vec_item(input@, pos as int, end as int, s, k as int, |x: DataSegment| data_bytes(x));
                            assert((|x: DataSegment| data_bytes(x))(s[k as int]) == data_bytes(s[k as int]));
                        }
                    }
                }
                failed = Some(e);
            },
        }
    }
    match failed {
        Some(e) => Err(e),
        None => {
            proof {
                lemma_subrange_concat(input@, pos as int, p as int, q as int);
                assert forall|s: Seq<DataSegment>| #![trigger datas_bytes(s)] supported_datas(s) && starts_with(input@, pos as int, end as int, datas_bytes(s)) implies q == pos + datas_bytes(s).len() by {
                    assert(s.take(n as int) =~= s);
                }
            }
            assert(n == items@.len());
            Ok((items, q))
        },
    }
}


/// A section the decoder reads back: a payload whose length fits 32 bits,
/// supported entries, and an unrecognised section under an id of its own.
pub open spec fn supported_section(s: Section) -> bool {
    &&& section_payload(s).len() <= u32::MAX
    &&& match s {
        Section::Type(_, v) => supported_types(v@),
        Section::Import(_, v) => supported_imports(v@),
        Section::Func(_, v) => supported_funcs(v@),
        Section::Table(_, v) => supported_tables(v@),
        Section::Memory(_, v) => supported_memories(v@),
        Section::Global(_, v) => supported_globals(v@),
        Section::Export(_, v) => supported_exports(v@),
        Section::Code(_, v) => supported_codes(v@),
        Section::Data(_, v) => supported_datas(v@),
        Section::Unknown(id, _, _) => !(id == 1 || id == 2 || id == 3 || id == 4 || id == 5 || id == 6 || id == 7
            || id == 10 || id == 11),
    }
}

/// A module the decoder reads back: every section is supported.
pub open spec fn supported_module(m: Module) -> bool {
    forall|j: int| 0 <= j < m.sections@.len() ==> supported_section(#[trigger] m.sections@[j])
}

/// Where the parts of a section lie, if it starts at `pos`.
pub open spec fn section_fits(input: Seq<u8>, pos: int, end: int, x: Section) -> bool {
    let l = section_payload(x).len();
    let ul = uleb(l).len();
    &&& pos < end
    &&& input[pos] == section_id(x)
    &&& starts_with(input, pos + 1, end, uleb(((l as u32) as nat)))
    &&& uleb(((l as u32) as nat)).len() == ul
    &&& pos + 1 + ul + l <= end
    &&& starts_with(input, pos + 1 + ul, pos + 1 + ul + l, section_payload(x))
    &&& section_bytes(x).len() == 1 + ul + l
}

proof fn lemma_section_parts(input: Seq<u8>, pos: int, end: int, x: Section)
    requires
        0 <= pos,
        end <= input.len(),
        supported_section(x),
        starts_with(input, pos, end, section_bytes(x)),
    ensures
        section_fits(input, pos, end, x),
{
    let pl = section_payload(x);
    let u = uleb(pl.len());
    assert(u == uleb(((pl.len() as u32) as nat)));
    assert(section_bytes(x) =~= seq![section_id(x)] + (u + pl));
    lemma_starts_with_split(input, pos, end, seq![section_id(x)], u + pl);
    lemma_starts_with_split(input, pos + 1, end, u, pl);
    assert(input.subrange(pos, pos + 1)[0] == input[pos]);
    let a = pos + 1 + u.len();
    assert(input.subrange(a, a + pl.len()) == pl);
}

/// One section: id, declared size, and a payload that must fill exactly that
/// size. Unrecognised ids keep their payload as raw bytes. Any supported
/// section is read back, exactly over its bytes.
#[verifier::spinoff_prover]
#[verifier::rlimit(100)]
fn decode_section(input: &[u8], pos: usize, end: usize) -> (r: Result<(Section, usize), DecodeError>)
    requires
        pos <= end <= input@.len(),
    ensures
        r matches Ok((sec, p)) ==> (sec is Unknown <==> !(input@[pos as int] == 1 || input@[pos as int] == 2
            || input@[pos as int] == 3 || input@[pos as int] == 4 || input@[pos as int] == 5 || input@[pos as int] == 6
            || input@[pos as int] == 7 || input@[pos as int] == 10 || input@[pos as int] == 11)),
        r matches Ok((sec, p)) ==> (sec matches Section::Unknown(id, size, raw) ==> id == input@[pos as int]
            && raw@ == input@.subrange(p - raw@.len(), p as int) && size == raw@.len()),
        r matches Ok((s, _)) ==> section_at(s, pos as int),
        r matches Ok((s, p)) ==> {
            &&& pos < p <= end
            &&& input@.subrange(pos as int, p as int) == section_bytes(s)
            &&& section_spans(s, input@)
        },
        forall|x: Section|
            #![trigger section_bytes(x)]
            supported_section(x) && starts_with(input@, pos as int, end as int, section_bytes(x)) ==> (r is Ok && (r->Ok_0).1
                == pos + section_bytes(x).len()),
{
    proof {
        assert forall|x: Section|
            #![trigger section_bytes(x)]
            supported_section(x) && starts_with(input@, pos as int, end as int, section_bytes(x)) implies {
                &&& section_fits(input@, pos as int, end as int, x)
                &&& (x is Type ==> section_payload(x) == types_bytes((x->Type_1)@))
                &&& (x is Import ==> section_payload(x) == imports_bytes((x->Import_1)@))
                &&& (x is Func ==> section_payload(x) == funcs_bytes((x->Func_1)@))
                &&& (x is Table ==> section_payload(x) == tables_bytes((x->Table_1)@))
                &&& (x is Memory ==> section_payload(x) == memories_bytes((x->Memory_1)@))
                &&& (x is Global ==> section_payload(x) == globals_bytes((x->Global_1)@))
                &&& (x is Export ==> section_payload(x) == exports_bytes((x->Export_1)@))
                &&& (x is Code ==> section_payload(x) == codes_bytes((x->Code_1)@))
                &&& (x is Data ==> section_payload(x) == datas_bytes((x->Data_1)@))
            } by {
            lemma_section_parts(input@, pos as int, end as int, x);
        }
    }
    let (id, p) = read_byte(input, pos, end)?;
    assert(input@.subrange(pos as int, p as int)[0] == id);
    let (size, p2) = read_u32(input, p, end)?;
    let (raw, body_end) = read_bytes(input, p2, end, size as usize)?;
    let size_v = Value { value: size, start_offset: p, end_offset: p2 };
    let (section, q): (Section, usize) =     if id == 1 {
        let (v, q) = decode_types(input, p2, body_end)?;
        (Section::Type(size_v, v), q)
    } else if id == 2 {
        let (v, q) = decode_imports(input, p2, body_end)?;
        (Section::Import(size_v, v), q)
    } else if id == 3 {
        let (v, q) = decode_funcs(input, p2, body_end)?;
        (Section::Func(size_v, v), q)
    } else if id == 4 {
        let (v, q) = decode_tables(input, p2, body_end)?;
        (Section::Table(size_v, v), q)
    } else if id == 5 {
        let (v, q) = decode_memories(input, p2, body_end)?;
        (Section::Memory(size_v, v), q)
    } else if id == 6 {
        let (v, q) = decode_globals(input, p2, body_end)?;
        (Section::Global(size_v, v), q)
    } else if id == 7 {
        let (v, q) = decode_exports(input, p2, body_end)?;
        (Section::Export(size_v, v), q)
    } else if id == 10 {
        let (v, q) = decode_codes(input, p2, body_end)?;
        (Section::Code(size_v, v), q)
    } else if id == 11 {
        let (v, q) = decode_datas(input, p2, body_end)?;
        (Section::Data(size_v, v), q)
    } else {
        (Section::Unknown(id, size, slice_to_vec(raw)), body_end)
    };
    if q != body_end {
        return Err(DecodeError::SizeMismatch);
    }
    proof {
        lemma_subrange_concat(input@, p as int, p2 as int, q as int);
        lemma_subrange_concat(input@, pos as int, p as int, q as int);
    }
    assert(section_payload(section) == input@.subrange(p2 as int, q as int));
    assert(input@.subrange(pos as int, q as int) =~= section_bytes(section));
    Ok((section, q))
}

/// Decodes a whole module: the header, then sections until the input is
/// exhausted. A decoded module re-encodes to exactly its input, and every
/// node keeps the span it was decoded from.
#[verifier::spinoff_prover]
#[verifier::rlimit(100)]
pub fn decode(input: &[u8]) -> (r: Result<Module, DecodeError>)
    ensures
        r matches Ok(m) ==> forall|j: int|
            0 <= j < m.sections@.len() ==> section_at(#[trigger] m.sections@[j], 8 + concat_map(
                m.sections@.take(j),
                |s: Section| section_bytes(s),
            ).len() as int),
        r matches Ok(m) ==> module_bytes(m) == input@ && module_spans(m, input@),
        input@.len() < 8 ==> r is Err,
        input@.len() >= 4 && input@.subrange(0, 4) != magic_and_version().subrange(0, 4)
            ==> r == Err::<Module, DecodeError>(DecodeError::BadMagic),
        input@.len() >= 8 && input@.subrange(0, 4) == magic_and_version().subrange(0, 4)
            && input@.subrange(4, 8) != magic_and_version().subrange(4, 8)
            ==> r == Err::<Module, DecodeError>(DecodeError::UnsupportedVersion),
        input@ == magic_and_version() ==> (r matches Ok(m) && m.sections@.len() == 0),
        forall|m: Module|
            #![trigger module_bytes(m)]
            supported_module(m) && module_bytes(m) == input@ ==> r is Ok,
{
    proof {
        assert forall|m: Module|
            #![trigger module_bytes(m)]
            supported_module(m) && module_bytes(m) == input@ implies input@.len() >= 8 && input@.subrange(0, 4)
                == magic_and_version().subrange(0, 4) && input@.subrange(4, 8) == magic_and_version().subrange(4, 8) by {
            let c = concat_map(m.sections@, |s: Section| section_bytes(s));
            assert(input@.subrange(0, 4) =~= (magic_and_version() + c).subrange(0, 4));
            assert(input@.subrange(4, 8) =~= (magic_and_version() + c).subrange(4, 8));
        }
    }
    let len = input.len();
    let magic: Vec<u8> = vec![0x00u8, 0x61u8, 0x73u8, 0x6du8];
    let version: Vec<u8> = vec![0x01u8, 0x00u8, 0x00u8, 0x00u8];
    assert(magic@ =~= magic_and_version().subrange(0, 4));
    assert(version@ =~= magic_and_version().subrange(4, 8));
    if len < 4 {
        return Err(DecodeError::UnexpectedEnd);
    }
    if !starts_with_at(input, 0, &magic) {
        return Err(DecodeError::BadMagic);
    }
    if len < 8 {
        return Err(DecodeError::UnexpectedEnd);
    }
    if !starts_with_at(input, 4, &version) {
        return Err(DecodeError::UnsupportedVersion);
    }
    proof { lemma_subrange_concat(input@, 0, 4, 8); }
    assert(input@.subrange(0, 8) =~= magic_and_version());
    let mut sections: Vec<Section> = Vec::new();
    let mut p: usize = 8;
    while p < len
        invariant
            8 <= p <= len == input@.len(),
            input@.subrange(0, 4) == magic_and_version().subrange(0, 4),
            input@.subrange(4, 8) == magic_and_version().subrange(4, 8),
            input@.subrange(0, p as int) == magic_and_version() + concat_map(sections@, |s: Section| section_bytes(s)),
            forall|j: int|
                0 <= j < sections@.len() ==> section_at(#[trigger] sections@[j], 8 + concat_map(
                    sections@.take(j),
                    |s: Section| section_bytes(s),
                ).len() as int),
            forall|j: int| 0 <= j < sections@.len() ==> #[trigger] section_spans(sections@[j], input@),
            forall|m: Module|
                #![trigger module_bytes(m)]
                supported_module(m) && module_bytes(m) == input@ ==> (sections@.len() <= m.sections@.len() && p == 8
                    + concat_map(m.sections@.take(sections@.len() as int), |s: Section| section_bytes(s)).len()),
        decreases len - p,
    {
        let ghost k = sections@.len() as int;
        proof {
            assert forall|m: Module|
                #![trigger module_bytes(m)]
                supported_module(m) && module_bytes(m) == input@ implies k < m.sections@.len() && supported_section(
                    m.sections@[k],
                ) && starts_with(input@, p as int, len as int, section_bytes(m.sections@[k])) && concat_map(
                    m.sections@.take(k + 1),
                    |s: Section| section_bytes(s),
                ).len() == p - 8 + section_bytes(m.sections@[k]).len() by {
                let ss = m.sections@;
                if k == ss.len() {
                    assert(ss.take(k) =~= ss);
                }
                lemma_concat_map_at(ss, k, |s: Section| section_bytes(s));
                let a = magic_and_version() + concat_map(ss.take(k), |s: Section| section_bytes(s));
                assert(module_bytes(m) =~= a + (section_bytes(ss[k]) + concat_map(ss.skip(k + 1), |s: Section| section_bytes(s))));
                assert(input@.subrange(0, input@.len() as int) =~= input@);
                lemma_starts_with_split(input@, 0, len as int, a, section_bytes(ss[k]) + concat_map(ss.skip(k + 1), |s: Section| section_bytes(s)));
                lemma_starts_with_split(input@, p as int, len as int, section_bytes(ss[k]), concat_map(ss.skip(k + 1), |s: Section| section_bytes(s)));
            }
        }
        let (s, q) = match decode_section(input, p, len) {
            Ok(t) => t,
            Err(e) => {
                return Err(e);
            },
        };
        proof {
            lemma_subrange_concat(input@, 0, p as int, q as int);
            lemma_concat_map_push(sections@.push(s), sections@.len() as int, |s: Section| section_bytes(s));
            assert(sections@.push(s).subrange(0, sections@.len() as int) =~= sections@);
            assert(sections@.push(s).subrange(0, sections@.len() as int + 1) =~= sections@.push(s));
        }
        proof {
            assert forall|j: int| 0 <= j < sections@.len() implies sections@.push(s).take(j) == sections@.take(j) by {
                assert(sections@.push(s).take(j) =~= sections@.take(j));
            }
            assert(sections@.push(s).take(sections@.len() as int) =~= sections@);
        }
        sections.push(s);
        p = q;
    }
    assert(input@.subrange(0, p as int) =~= input@);
    Ok(Module { sections })
}

} // verus!
