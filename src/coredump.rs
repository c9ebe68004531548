//! The coredump pass. Each function gets, before every `unreachable`, code
//! that records its frame through a `set_frame` helper and returns, and after
//! every call, a check of an `is_unwinding` global that records the frame
//! and keeps unwinding (or, in an exported function, writes the coredump and
//! traps). The frame layout in guest memory is the helpers' business:
//!
//! | number of frames (u32) | next frame offset (u32) | frame* |
//!
//! where a frame is | function index (u32) | count of values (u32) | value* (u32) |.
use vstd::prelude::*;
use crate::ast::{
    Code, CodeLocal, DataSegment, ExportDescr, Global, GlobalType, Import, Instr, Module, NumType,
    Section, Type, Value,
    ValueType,
};
use crate::model::{
    func_import_types, bytes_eq, codes_of, exports_func, exports_of, flat_locals, flat_map, func_count, func_import_count, func_types,
    funcs_of, global_count, globals_of, imports_of, locals_flatten, types_of,
};
use crate::parser::DecodeError;
use crate::encoding::{body_bytes, code_bytes, instr_bytes};
use vstd::string::StringSliceAdditionalSpecFns;
use crate::traverse::{InstrEdits, Visitor, VisitorContext, fresh, is_block, section_walked, traverse, walked_from};

verus! {

/// Copies the immediates of a leaf instruction; `None` for a block, a loop,
/// an `if` or a branch table.
fn copy_leaf(i: &Instr) -> (r: Option<Instr>)
    ensures
        r is Some <==> copyable(*i),
        r matches Some(j) ==> j == *i,
{
    match i {
        Instr::unreachable => Some(Instr::unreachable),
        Instr::nop => Some(Instr::nop),
        Instr::Block(..) => None,
        Instr::Loop(..) => None,
        Instr::If(..) => None,
        Instr::else_end => Some(Instr::else_end),
        Instr::br(a) => Some(Instr::br(*a)),
        Instr::br_if(a) => Some(Instr::br_if(*a)),
        Instr::br_table(..) => None,
        Instr::Return => Some(Instr::Return),
        Instr::call(a) => Some(Instr::call(*a)),
        Instr::call_indirect(a, b) => Some(Instr::call_indirect(*a, *b)),
        Instr::drop => Some(Instr::drop),
        Instr::select => Some(Instr::select),
        Instr::local_get(a) => Some(Instr::local_get(*a)),
        Instr::local_set(a) => Some(Instr::local_set(*a)),
        Instr::local_tee(a) => Some(Instr::local_tee(*a)),
        Instr::global_get(a) => Some(Instr::global_get(*a)),
        Instr::global_set(a) => Some(Instr::global_set(*a)),
        Instr::table_get(a) => Some(Instr::table_get(*a)),
        Instr::table_set(a) => Some(Instr::table_set(*a)),
        Instr::i32_load(a, b) => Some(Instr::i32_load(*a, *b)),
        Instr::i64_load(a, b) => Some(Instr::i64_load(*a, *b)),
        Instr::f32_load(a, b) => Some(Instr::f32_load(*a, *b)),
        Instr::f64_load(a, b) => Some(Instr::f64_load(*a, *b)),
        Instr::i32_load8_s(a, b) => Some(Instr::i32_load8_s(*a, *b)),
        Instr::i32_load8_u(a, b) => Some(Instr::i32_load8_u(*a, *b)),
        Instr::i32_load16_s(a, b) => Some(Instr::i32_load16_s(*a, *b)),
        Instr::i32_load16_u(a, b) => Some(Instr::i32_load16_u(*a, *b)),
        Instr::i64_load8_s(a, b) => Some(Instr::i64_load8_s(*a, *b)),
        Instr::i64_load8_u(a, b) => Some(Instr::i64_load8_u(*a, *b)),
        Instr::i64_load16_s(a, b) => Some(Instr::i64_load16_s(*a, *b)),
        Instr::i64_load16_u(a, b) => Some(Instr::i64_load16_u(*a, *b)),
        Instr::i64_load32_s(a, b) => Some(Instr::i64_load32_s(*a, *b)),
        Instr::i64_load32_u(a, b) => Some(Instr::i64_load32_u(*a, *b)),
        Instr::i32_store(a, b) => Some(Instr::i32_store(*a, *b)),
        Instr::i64_store(a, b) => Some(Instr::i64_store(*a, *b)),
        Instr::f32_store(a, b) => Some(Instr::f32_store(*a, *b)),
        Instr::f64_store(a, b) => Some(Instr::f64_store(*a, *b)),
        Instr::i32_store8(a, b) => Some(Instr::i32_store8(*a, *b)),
        Instr::i32_store16(a, b) => Some(Instr::i32_store16(*a, *b)),
        Instr::i64_store8(a, b) => Some(Instr::i64_store8(*a, *b)),
        Instr::i64_store16(a, b) => Some(Instr::i64_store16(*a, *b)),
        Instr::i64_store32(a, b) => Some(Instr::i64_store32(*a, *b)),
        Instr::memory_size(a) => Some(Instr::memory_size(*a)),
        Instr::memory_grow(a) => Some(Instr::memory_grow(*a)),
        Instr::i32_const(a) => Some(Instr::i32_const(*a)),
        Instr::i64_const(a) => Some(Instr::i64_const(*a)),
        Instr::f32_const(a) => Some(Instr::f32_const(*a)),
        Instr::f64_const(a) => Some(Instr::f64_const(*a)),
        Instr::i32_eqz => Some(Instr::i32_eqz),
        Instr::i32_eq => Some(Instr::i32_eq),
        Instr::i32_ne => Some(Instr::i32_ne),
        Instr::i32_lt_s => Some(Instr::i32_lt_s),
        Instr::i32_lt_u => Some(Instr::i32_lt_u),
        Instr::i32_gt_s => Some(Instr::i32_gt_s),
        Instr::i32_gt_u => Some(Instr::i32_gt_u),
        Instr::i32_le_s => Some(Instr::i32_le_s),
        Instr::i32_le_u => Some(Instr::i32_le_u),
        Instr::i32_ge_s => Some(Instr::i32_ge_s),
        Instr::i32_ge_u => Some(Instr::i32_ge_u),
        Instr::i64_eqz => Some(Instr::i64_eqz),
        Instr::i64_eq => Some(Instr::i64_eq),
        Instr::i64_ne => Some(Instr::i64_ne),
        Instr::i64_lt_s => Some(Instr::i64_lt_s),
        Instr::i64_lt_u => Some(Instr::i64_lt_u),
        Instr::i64_gt_s => Some(Instr::i64_gt_s),
        Instr::i64_gt_u => Some(Instr::i64_gt_u),
        Instr::i64_le_s => Some(Instr::i64_le_s),
        Instr::i64_le_u => Some(Instr::i64_le_u),
        Instr::i64_ge_s => Some(Instr::i64_ge_s),
        Instr::i64_ge_u => Some(Instr::i64_ge_u),
        Instr::f32_eq => Some(Instr::f32_eq),
        Instr::f32_ne => Some(Instr::f32_ne),
        Instr::f32_lt => Some(Instr::f32_lt),
        Instr::f32_gt => Some(Instr::f32_gt),
        Instr::f32_le => Some(Instr::f32_le),
        Instr::f32_ge => Some(Instr::f32_ge),
        Instr::f64_eq => Some(Instr::f64_eq),
        Instr::f64_ne => Some(Instr::f64_ne),
        Instr::f64_lt => Some(Instr::f64_lt),
        Instr::f64_gt => Some(Instr::f64_gt),
        Instr::f64_le => Some(Instr::f64_le),
        Instr::f64_ge => Some(Instr::f64_ge),
        Instr::i32_clz => Some(Instr::i32_clz),
        Instr::i32_ctz => Some(Instr::i32_ctz),
        Instr::i32_popcnt => Some(Instr::i32_popcnt),
        Instr::i32_add => Some(Instr::i32_add),
        Instr::i32_sub => Some(Instr::i32_sub),
        Instr::i32_mul => Some(Instr::i32_mul),
        Instr::i32_div_s => Some(Instr::i32_div_s),
        Instr::i32_div_u => Some(Instr::i32_div_u),
        Instr::i32_rem_s => Some(Instr::i32_rem_s),
        Instr::i32_rem_u => Some(Instr::i32_rem_u),
        Instr::i32_and => Some(Instr::i32_and),
        Instr::i32_or => Some(Instr::i32_or),
        Instr::i32_xor => Some(Instr::i32_xor),
        Instr::i32_shl => Some(Instr::i32_shl),
        Instr::i32_shr_s => Some(Instr::i32_shr_s),
        Instr::i32_shr_u => Some(Instr::i32_shr_u),
        Instr::i32_rotl => Some(Instr::i32_rotl),
        Instr::i32_rotr => Some(Instr::i32_rotr),
        Instr::i64_clz => Some(Instr::i64_clz),
        Instr::i64_ctz => Some(Instr::i64_ctz),
        Instr::i64_popcnt => Some(Instr::i64_popcnt),
        Instr::i64_add => Some(Instr::i64_add),
        Instr::i64_sub => Some(Instr::i64_sub),
        Instr::i64_mul => Some(Instr::i64_mul),
        Instr::i64_div_s => Some(Instr::i64_div_s),
        Instr::i64_div_u => Some(Instr::i64_div_u),
        Instr::i64_rem_s => Some(Instr::i64_rem_s),
        Instr::i64_rem_u => Some(Instr::i64_rem_u),
        Instr::i64_and => Some(Instr::i64_and),
        Instr::i64_or => Some(Instr::i64_or),
        Instr::i64_xor => Some(Instr::i64_xor),
        Instr::i64_shl => Some(Instr::i64_shl),
        Instr::i64_shr_s => Some(Instr::i64_shr_s),
        Instr::i64_shr_u => Some(Instr::i64_shr_u),
        Instr::i64_rotl => Some(Instr::i64_rotl),
        Instr::i64_rotr => Some(Instr::i64_rotr),
        Instr::f32_abs => Some(Instr::f32_abs),
        Instr::f32_neg => Some(Instr::f32_neg),
        Instr::f32_ceil => Some(Instr::f32_ceil),
        Instr::f32_floor => Some(Instr::f32_floor),
        Instr::f32_trunc => Some(Instr::f32_trunc),
        Instr::f32_nearest => Some(Instr::f32_nearest),
        Instr::f32_sqrt => Some(Instr::f32_sqrt),
        Instr::f32_add => Some(Instr::f32_add),
        Instr::f32_sub => Some(Instr::f32_sub),
        Instr::f32_mul => Some(Instr::f32_mul),
        Instr::f32_div => Some(Instr::f32_div),
        Instr::f32_min => Some(Instr::f32_min),
        Instr::f32_max => Some(Instr::f32_max),
        Instr::f32_copysign => Some(Instr::f32_copysign),
        Instr::f64_abs => Some(Instr::f64_abs),
        Instr::f64_neg => Some(Instr::f64_neg),
        Instr::f64_ceil => Some(Instr::f64_ceil),
        Instr::f64_floor => Some(Instr::f64_floor),
        Instr::f64_trunc => Some(Instr::f64_trunc),
        Instr::f64_nearest => Some(Instr::f64_nearest),
        Instr::f64_sqrt => Some(Instr::f64_sqrt),
        Instr::f64_add => Some(Instr::f64_add),
        Instr::f64_sub => Some(Instr::f64_sub),
        Instr::f64_mul => Some(Instr::f64_mul),
        Instr::f64_div => Some(Instr::f64_div),
        Instr::f64_min => Some(Instr::f64_min),
        Instr::f64_max => Some(Instr::f64_max),
        Instr::f64_copysign => Some(Instr::f64_copysign),
        Instr::i32_wrap_i64 => Some(Instr::i32_wrap_i64),
        Instr::i32_trunc_f32_s => Some(Instr::i32_trunc_f32_s),
        Instr::i32_trunc_f32_u => Some(Instr::i32_trunc_f32_u),
        Instr::i32_trunc_f64_s => Some(Instr::i32_trunc_f64_s),
        Instr::i32_trunc_f64_u => Some(Instr::i32_trunc_f64_u),
        Instr::i64_extend_i32_s => Some(Instr::i64_extend_i32_s),
        Instr::i64_extend_i32_u => Some(Instr::i64_extend_i32_u),
        Instr::i64_trunc_f32_s => Some(Instr::i64_trunc_f32_s),
        Instr::i64_trunc_f32_u => Some(Instr::i64_trunc_f32_u),
        Instr::i64_trunc_f64_s => Some(Instr::i64_trunc_f64_s),
        Instr::i64_trunc_f64_u => Some(Instr::i64_trunc_f64_u),
        Instr::f32_convert_i32_s => Some(Instr::f32_convert_i32_s),
        Instr::f32_convert_i32_u => Some(Instr::f32_convert_i32_u),
        Instr::f32_convert_i64_s => Some(Instr::f32_convert_i64_s),
        Instr::f32_convert_i64_u => Some(Instr::f32_convert_i64_u),
        Instr::f32_demote_f64 => Some(Instr::f32_demote_f64),
        Instr::f64_convert_i32_s => Some(Instr::f64_convert_i32_s),
        Instr::f64_convert_i32_u => Some(Instr::f64_convert_i32_u),
        Instr::f64_convert_i64_s => Some(Instr::f64_convert_i64_s),
        Instr::f64_convert_i64_u => Some(Instr::f64_convert_i64_u),
        Instr::f64_promote_f32 => Some(Instr::f64_promote_f32),
        Instr::i32_reinterpret_f32 => Some(Instr::i32_reinterpret_f32),
        Instr::i64_reinterpret_f64 => Some(Instr::i64_reinterpret_f64),
        Instr::f32_reinterpret_i32 => Some(Instr::f32_reinterpret_i32),
        Instr::f64_reinterpret_i64 => Some(Instr::f64_reinterpret_i64),
        Instr::i32_extend8_s => Some(Instr::i32_extend8_s),
        Instr::i32_extend16_s => Some(Instr::i32_extend16_s),
        Instr::i64_extend8_s => Some(Instr::i64_extend8_s),
        Instr::i64_extend16_s => Some(Instr::i64_extend16_s),
        Instr::i64_extend32_s => Some(Instr::i64_extend32_s),
    }
}

/// An instruction whose copy is the same value: no nested vector.
pub open spec fn copyable(i: Instr) -> bool {
    !is_block(i) && !(i is br_table)
}

/// `s` holds copyable instructions built in memory.
pub open spec fn prebuilt(s: Seq<Value<Instr>>) -> bool {
    forall|k: int| 0 <= k < s.len() ==> #[trigger] s[k] == fresh(s[k].value) && copyable(s[k].value)
}

/// The instructions of `s`.
pub open spec fn instrs_of(s: Seq<Value<Instr>>) -> Seq<Instr> {
    s.map_values(|v: Value<Instr>| v.value)
}

/// A copy of a prebuilt sequence, if it is one.
fn copy_prebuilt(s: &Vec<Value<Instr>>) -> (r: Option<Vec<Value<Instr>>>)
    ensures
        r is Some <==> prebuilt(s@),
        r matches Some(v) ==> v@ == s@,
{
    let mut out: Vec<Value<Instr>> = Vec::new();
    let mut k: usize = 0;
    while k < s.len()
        invariant
            k <= s@.len(),
            out@ == s@.take(k as int),
            prebuilt(s@.take(k as int)),
        decreases s.len() - k,
    {
        if s[k].start_offset != 0 || s[k].end_offset != 0 {
            assert(!(s@[k as int] == fresh(s@[k as int].value)));
            return None;
        }
        match copy_leaf(&s[k].value) {
            Some(i) => {
                out.push(Value::new(i));
            },
            None => {
                return None;
            },
        }
        k += 1;
        assert(out@ =~= s@.take(k as int));
        assert forall|j: int| 0 <= j < k implies #[trigger] s@.take(k as int)[j] == fresh(s@.take(k as int)[j].value)
            && copyable(s@.take(k as int)[j].value) by {
            if j < k - 1 {
                assert(s@.take(k as int)[j] == s@.take(k - 1)[j]);
            }
        }
    }
    assert(s@.take(k as int) =~= s@);
    Some(out)
}

/// What the pass records of one function.
pub struct FrameInfo {
    /// The number of its parameters.
    pub params: u32,
    /// Its result types.
    pub results: Vec<ValueType>,
    /// Its first locals, one entry per local (at most fifteen are recorded).
    pub locals: Vec<ValueType>,
    /// Whether it is exported, the edge of the module.
    pub exported: bool,
}

/// The count of values a frame of `info` records: one per parameter and per
/// recorded local.
pub open spec fn recorded_count(info: FrameInfo) -> nat {
    (info.params + if info.locals@.len() < 15 { info.locals@.len() } else { 15 }) as nat
}

/// Placeholder values for the parameters, which are not recorded.
pub open spec fn param_fillers(n: nat) -> Seq<Instr> {
    Seq::new(n, |i: int| Instr::i32_const((669 + i) as i64))
}

/// The conversion of a local of type `t` to an `i32`.
pub open spec fn to_i32(t: ValueType) -> Seq<Instr> {
    match t {
        ValueType::NumType(NumType::I32) => Seq::empty(),
        ValueType::NumType(NumType::I64) => seq![Instr::i32_wrap_i64],
        ValueType::NumType(NumType::F32) => seq![Instr::i32_trunc_f32_u],
        ValueType::NumType(NumType::F64) => seq![Instr::i32_trunc_f64_u],
    }
}

/// Reads of the locals `ls`, numbered from `base`, each converted to `i32`.
pub open spec fn local_reads(ls: Seq<ValueType>, base: nat) -> Seq<Instr>
    decreases ls.len(),
{
    if ls.len() == 0 {
        Seq::empty()
    } else {
        local_reads(ls.drop_last(), base) + seq![Instr::local_get((base + ls.len() - 1) as u32)] + to_i32(ls.last())
    }
}

/// The instructions that record a frame of function `f` through `set_frame`.
pub open spec fn frame_record(info: FrameInfo, f: u32, set_frame: u32) -> Seq<Instr> {
    let n = if info.locals@.len() < 15 { info.locals@.len() } else { 15 };
    seq![Instr::i32_const(f as i64)] + param_fillers(info.params as nat) + local_reads(info.locals@.take(n as int), info.params as nat)
        + seq![Instr::call(set_frame)]
}

/// A value of type `t` that only fills the stack: 666 at a trap, 667 while
/// unwinding.
pub open spec fn filler(t: ValueType, unwinding: bool) -> Instr {
    match t {
        ValueType::NumType(NumType::I32) => Instr::i32_const(if unwinding { 667 } else { 666 }),
        ValueType::NumType(NumType::I64) => Instr::i64_const(if unwinding { 667 } else { 666 }),
        ValueType::NumType(NumType::F32) => Instr::f32_const(if unwinding { 0x4426_c000 } else { 0x4426_8000 }),
        ValueType::NumType(NumType::F64) => Instr::f64_const(
            if unwinding { 0x4084_d800_0000_0000 } else { 0x4084_d000_0000_0000 },
        ),
    }
}

pub open spec fn fillers(rs: Seq<ValueType>, unwinding: bool) -> Seq<Instr> {
    rs.map_values(|t: ValueType| filler(t, unwinding))
}

/// What stands before an `unreachable`: the call that starts unwinding, the
/// frame record, and values for the function's results (the `unreachable`
/// itself becomes a `return`).
pub open spec fn trap_code(info: FrameInfo, f: u32, set_frame: u32, shim: u32) -> Seq<Instr> {
    seq![Instr::call(shim)] + frame_record(info, f, set_frame) + fillers(info.results@, false)
}

/// The body of the check after a call, taken while unwinding: the frame
/// record, then the coredump and a trap in an exported function, or values
/// for the results and a `return` in another one.
pub open spec fn unwind_code(info: FrameInfo, f: u32, set_frame: u32, write_coredump: u32) -> Seq<Instr> {
    frame_record(info, f, set_frame) + if info.exported {
        seq![Instr::call(write_coredump), Instr::unreachable]
    } else {
        fillers(info.results@, true) + seq![Instr::Return]
    }
}

fn push_fresh(v: &mut Vec<Value<Instr>>, i: Instr)
    ensures
        final(v)@ == old(v)@.push(fresh(i)),
        instrs_of(final(v)@) == instrs_of(old(v)@).push(i),
        prebuilt(old(v)@) && copyable(i) ==> prebuilt(final(v)@),
{
    v.push(Value::new(i));
    assert(instrs_of(v@) =~= instrs_of(old(v)@).push(i));
    proof {
        if prebuilt(old(v)@) && copyable(i) {
            assert forall|k: int| 0 <= k < v@.len() implies #[trigger] v@[k] == fresh(v@[k].value) && copyable(v@[k].value) by {
                if k < old(v)@.len() {
                    assert(v@[k] == old(v)@[k]);
                }
            }
        }
    }
}

fn filler_of(t: &ValueType, unwinding: bool) -> (r: Instr)
    ensures
        r == filler(*t, unwinding),
{
    match t {
        ValueType::NumType(NumType::I32) => Instr::i32_const(if unwinding { 667 } else { 666 }),
        ValueType::NumType(NumType::I64) => Instr::i64_const(if unwinding { 667 } else { 666 }),
        ValueType::NumType(NumType::F32) => Instr::f32_const(if unwinding { 0x4426_c000 } else { 0x4426_8000 }),
        ValueType::NumType(NumType::F64) => Instr::f64_const(
            if unwinding { 0x4084_d800_0000_0000 } else { 0x4084_d000_0000_0000 },
        ),
    }
}

fn push_fillers(v: &mut Vec<Value<Instr>>, rs: &Vec<ValueType>, unwinding: bool)
    ensures
        instrs_of(final(v)@) == instrs_of(old(v)@) + fillers(rs@, unwinding),
        prebuilt(old(v)@) ==> prebuilt(final(v)@),
{
    let mut k: usize = 0;
    while k < rs.len()
        invariant
            k <= rs@.len(),
            instrs_of(v@) == instrs_of(old(v)@) + fillers(rs@.take(k as int), unwinding),
            prebuilt(old(v)@) ==> prebuilt(v@),
        decreases rs.len() - k,
    {
        push_fresh(v, filler_of(&rs[k], unwinding));
        k += 1;
        assert(fillers(rs@.take(k as int), unwinding) =~= fillers(rs@.take(k - 1), unwinding).push(filler(rs@[k - 1], unwinding)));
        assert(instrs_of(v@) =~= instrs_of(old(v)@) + fillers(rs@.take(k as int), unwinding));
    }
    assert(rs@.take(rs@.len() as int) =~= rs@);
}

fn push_frame_record(v: &mut Vec<Value<Instr>>, info: &FrameInfo, f: u32, set_frame: u32)
    requires
        info.params + 15 < u32::MAX,
    ensures
        instrs_of(final(v)@) == instrs_of(old(v)@) + frame_record(*info, f, set_frame),
        prebuilt(old(v)@) ==> prebuilt(final(v)@),
{
    push_fresh(v, Instr::i32_const(f as i64));
    let ghost after_head = v@;
    let mut i: u32 = 0;
    while i < info.params
        invariant
            i <= info.params,
            instrs_of(v@) == instrs_of(after_head) + param_fillers(i as nat),
            prebuilt(old(v)@) ==> prebuilt(v@),
            instrs_of(after_head) == instrs_of(old(v)@) + seq![Instr::i32_const(f as i64)],
            prebuilt(old(v)@) ==> prebuilt(after_head),
        decreases info.params - i,
    {
        push_fresh(v, Instr::i32_const(669 + i as i64));
        i += 1;
        assert(param_fillers(i as nat) =~= param_fillers((i - 1) as nat).push(Instr::i32_const((669 + i - 1) as i64)));
        assert(instrs_of(v@) =~= instrs_of(after_head) + param_fillers(i as nat));
    }
    let ghost after_params = v@;
    let n: usize = if info.locals.len() < 15 { info.locals.len() } else { 15 };
    let mut k: usize = 0;
    while k < n
        invariant
            k <= n <= info.locals@.len(),
            n <= 15,
            info.params + 15 < u32::MAX,
            instrs_of(v@) == instrs_of(after_params) + local_reads(info.locals@.take(k as int), info.params as nat),
            prebuilt(old(v)@) ==> prebuilt(v@),
        decreases n - k,
    {
        push_fresh(v, Instr::local_get(info.params + k as u32));
        let ghost mid = v@;
        match info.locals[k] {
            ValueType::NumType(NumType::I64) => push_fresh(v, Instr::i32_wrap_i64),
            ValueType::NumType(NumType::F32) => push_fresh(v, Instr::i32_trunc_f32_u),
            ValueType::NumType(NumType::F64) => push_fresh(v, Instr::i32_trunc_f64_u),
            ValueType::NumType(NumType::I32) => {},
        }
        assert(instrs_of(v@) =~= instrs_of(mid) + to_i32(info.locals@[k as int]));
        k += 1;
        assert(info.locals@.take(k as int).drop_last() =~= info.locals@.take(k - 1));
        assert(info.locals@.take(k as int).last() == info.locals@[k - 1]);
        assert(instrs_of(v@) =~= instrs_of(after_params) + local_reads(info.locals@.take(k as int), info.params as nat));
    }
    push_fresh(v, Instr::call(set_frame));
    assert(instrs_of(v@) =~= instrs_of(old(v)@) + frame_record(*info, f, set_frame));
}

/// The coredump pass over a module whose helpers are in place.
pub struct CoredumpTransform {
    /// The global that is set while the stack unwinds.
    pub is_unwinding: u32,
    /// The function that starts unwinding.
    pub unreachable_shim: u32,
    /// The function that writes the coredump.
    pub write_coredump: u32,
    /// The `set_frame` helper for each count of recorded values.
    pub set_frame_funcs: Vec<u32>,
    /// Per function index, the code that goes before an `unreachable`.
    pub trap_code: Vec<Vec<Value<Instr>>>,
    /// Per function index, the body of the check that follows a call.
    pub unwind_code: Vec<Vec<Value<Instr>>>,
}

impl CoredumpTransform {
    /// The pass's own helpers are left as they are.
    pub open spec fn is_helper(&self, f: u32) -> bool {
        self.set_frame_funcs@.contains(f) || f == self.unreachable_shim
    }

    fn helper(&self, f: u32) -> (r: bool)
        ensures
            r == self.is_helper(f),
    {
        if f == self.unreachable_shim {
            return true;
        }
        let mut k: usize = 0;
        while k < self.set_frame_funcs.len()
            invariant
                k <= self.set_frame_funcs@.len(),
                forall|j: int| 0 <= j < k ==> self.set_frame_funcs@[j] != f,
            decreases self.set_frame_funcs.len() - k,
        {
            if self.set_frame_funcs[k] == f {
                return true;
            }
            k += 1;
        }
        false
    }
}

impl Visitor for CoredumpTransform {
    open spec fn new_section(&self, m: Module) -> Option<Section> {
        None
    }

    fn visit_module<'a>(&self, ctx: &mut VisitorContext<'a, Module>) {
    }

    open spec fn new_imports(&self, entries: Seq<Import>) -> Seq<Import> {
        Seq::empty()
    }

    fn visit_import_section<'a>(&self, ctx: &mut VisitorContext<'a, Vec<Import>>) {
        assert(flat_map(ctx.queued_before(), |x: Vec<Import>| x@) =~= Seq::<Import>::empty());
    }

    open spec fn new_types(&self, entries: Seq<Type>) -> Seq<Type> {
        Seq::empty()
    }

    fn visit_type_section<'a>(&self, ctx: &mut VisitorContext<'a, Vec<Type>>) {
        assert(flat_map(ctx.queued_after(), |x: Vec<Type>| x@) =~= Seq::<Type>::empty());
    }

    open spec fn new_funcs(&self, entries: Seq<u32>) -> Seq<u32> {
        Seq::empty()
    }

    fn visit_func_section<'a>(&self, ctx: &mut VisitorContext<'a, Vec<u32>>) {
        assert(flat_map(ctx.queued_after(), |x: Vec<u32>| x@) =~= Seq::<u32>::empty());
    }

    open spec fn new_codes(&self, entries: Seq<Code>) -> Seq<Code> {
        Seq::empty()
    }

    fn visit_code_section<'a>(&self, ctx: &mut VisitorContext<'a, Vec<Code>>) {
        assert(flat_map(ctx.queued_after(), |x: Vec<Code>| x@) =~= Seq::<Code>::empty());
    }

    open spec fn new_datas(&self, entries: Seq<DataSegment>) -> Seq<DataSegment> {
        Seq::empty()
    }

    fn visit_data_section<'a>(&self, ctx: &mut VisitorContext<'a, Vec<DataSegment>>) {
        assert(flat_map(ctx.queued_after(), |x: Vec<DataSegment>| x@) =~= Seq::<DataSegment>::empty());
    }

    open spec fn instr_edits(&self, funcidx: u32, instr: Instr) -> InstrEdits {
        let none: InstrEdits = (Seq::empty(), None, Seq::empty(), false);
        if self.is_helper(funcidx) || funcidx >= self.trap_code@.len() || funcidx >= self.unwind_code@.len() {
            none
        } else if instr is unreachable {
            if prebuilt(self.trap_code@[funcidx as int]@) {
                (instrs_of(self.trap_code@[funcidx as int]@), Some(Instr::Return), Seq::empty(), true)
            } else {
                none
            }
        } else if instr is call || instr is call_indirect {
            if prebuilt(self.unwind_code@[funcidx as int]@) {
                (
                    Seq::empty(),
                    None,
                    seq![Instr::global_get(self.is_unwinding), Instr::If(0x40, self.unwind_code@[funcidx as int])],
                    false,
                )
            } else {
                none
            }
        } else {
            none
        }
    }

    fn visit_instr<'a>(&self, ctx: &mut VisitorContext<'a, Value<Instr>>) {
        let funcidx = match ctx.curr_funcidx() {
            Some(f) => f,
            None => 0,
        };
        // Our own helpers are not transformed.
        if self.helper(funcidx) || funcidx as usize >= self.trap_code.len() || funcidx as usize
            >= self.unwind_code.len() {
            return;
        }
        if matches!(ctx.node().value, Instr::unreachable) {
            // Record the frame, start unwinding and return: the rest of the
            // list cannot be reached.
            match copy_prebuilt(&self.trap_code[funcidx as usize]) {
                Some(code) => {
                    ctx.insert_nodes_before_all(code);
                    ctx.replace_node(Instr::Return);
                    ctx.stop_traversal();
                    proof {
                        let s = self.trap_code@[funcidx as int]@;
                        assert forall|k: int| 0 <= k < s.len() implies crate::traverse::built_as(
                            #[trigger] ctx.queued_before()[k],
                            instrs_of(s)[k],
                        ) by {
                            assert(s[k] == fresh(s[k].value));
                        }
                    }
                },
                None => {},
            }
        } else if matches!(ctx.node().value, Instr::call(_) | Instr::call_indirect(..)) {
            // After each call, keep unwinding if the callee started to.
            match copy_prebuilt(&self.unwind_code[funcidx as usize]) {
                Some(body) => {
                    ctx.insert_node_after(Instr::global_get(self.is_unwinding));
                    ctx.insert_node_after(Instr::If(0x40, body));
                },
                None => {},
            }
        }
    }
}

/// Copies of instructions of another module.
fn clone_instr(i: &Instr) -> (r: Instr)
    ensures
        instr_bytes(r) == instr_bytes(*i),
    decreases i, 1int,
{
    let r = match i {
        Instr::unreachable => Instr::unreachable,
        Instr::nop => Instr::nop,
        Instr::Block(bt, body) => Instr::Block(*bt, clone_body(body)),
        Instr::Loop(bt, body) => Instr::Loop(*bt, clone_body(body)),
        Instr::If(bt, body) => Instr::If(*bt, clone_body(body)),
        Instr::else_end => Instr::else_end,
        Instr::br(a) => Instr::br(*a),
        Instr::br_if(a) => Instr::br_if(*a),
        Instr::br_table(targets, default) => Instr::br_table(copy_u32s(targets), *default),
        Instr::Return => Instr::Return,
        Instr::call(a) => Instr::call(*a),
        Instr::call_indirect(a, b) => Instr::call_indirect(*a, *b),
        Instr::drop => Instr::drop,
        Instr::select => Instr::select,
        Instr::local_get(a) => Instr::local_get(*a),
        Instr::local_set(a) => Instr::local_set(*a),
        Instr::local_tee(a) => Instr::local_tee(*a),
        Instr::global_get(a) => Instr::global_get(*a),
        Instr::global_set(a) => Instr::global_set(*a),
        Instr::table_get(a) => Instr::table_get(*a),
        Instr::table_set(a) => Instr::table_set(*a),
        Instr::i32_load(a, b) => Instr::i32_load(*a, *b),
        Instr::i64_load(a, b) => Instr::i64_load(*a, *b),
        Instr::f32_load(a, b) => Instr::f32_load(*a, *b),
        Instr::f64_load(a, b) => Instr::f64_load(*a, *b),
        Instr::i32_load8_s(a, b) => Instr::i32_load8_s(*a, *b),
        Instr::i32_load8_u(a, b) => Instr::i32_load8_u(*a, *b),
        Instr::i32_load16_s(a, b) => Instr::i32_load16_s(*a, *b),
        Instr::i32_load16_u(a, b) => Instr::i32_load16_u(*a, *b),
        Instr::i64_load8_s(a, b) => Instr::i64_load8_s(*a, *b),
        Instr::i64_load8_u(a, b) => Instr::i64_load8_u(*a, *b),
        Instr::i64_load16_s(a, b) => Instr::i64_load16_s(*a, *b),
        Instr::i64_load16_u(a, b) => Instr::i64_load16_u(*a, *b),
        Instr::i64_load32_s(a, b) => Instr::i64_load32_s(*a, *b),
        Instr::i64_load32_u(a, b) => Instr::i64_load32_u(*a, *b),
        Instr::i32_store(a, b) => Instr::i32_store(*a, *b),
        Instr::i64_store(a, b) => Instr::i64_store(*a, *b),
        Instr::f32_store(a, b) => Instr::f32_store(*a, *b),
        Instr::f64_store(a, b) => Instr::f64_store(*a, *b),
        Instr::i32_store8(a, b) => Instr::i32_store8(*a, *b),
        Instr::i32_store16(a, b) => Instr::i32_store16(*a, *b),
        Instr::i64_store8(a, b) => Instr::i64_store8(*a, *b),
        Instr::i64_store16(a, b) => Instr::i64_store16(*a, *b),
        Instr::i64_store32(a, b) => Instr::i64_store32(*a, *b),
        Instr::memory_size(a) => Instr::memory_size(*a),
        Instr::memory_grow(a) => Instr::memory_grow(*a),
        Instr::i32_const(a) => Instr::i32_const(*a),
        Instr::i64_const(a) => Instr::i64_const(*a),
        Instr::f32_const(a) => Instr::f32_const(*a),
        Instr::f64_const(a) => Instr::f64_const(*a),
        Instr::i32_eqz => Instr::i32_eqz,
        Instr::i32_eq => Instr::i32_eq,
        Instr::i32_ne => Instr::i32_ne,
        Instr::i32_lt_s => Instr::i32_lt_s,
        Instr::i32_lt_u => Instr::i32_lt_u,
        Instr::i32_gt_s => Instr::i32_gt_s,
        Instr::i32_gt_u => Instr::i32_gt_u,
        Instr::i32_le_s => Instr::i32_le_s,
        Instr::i32_le_u => Instr::i32_le_u,
        Instr::i32_ge_s => Instr::i32_ge_s,
        Instr::i32_ge_u => Instr::i32_ge_u,
        Instr::i64_eqz => Instr::i64_eqz,
        Instr::i64_eq => Instr::i64_eq,
        Instr::i64_ne => Instr::i64_ne,
        Instr::i64_lt_s => Instr::i64_lt_s,
        Instr::i64_lt_u => Instr::i64_lt_u,
        Instr::i64_gt_s => Instr::i64_gt_s,
        Instr::i64_gt_u => Instr::i64_gt_u,
        Instr::i64_le_s => Instr::i64_le_s,
        Instr::i64_le_u => Instr::i64_le_u,
        Instr::i64_ge_s => Instr::i64_ge_s,
        Instr::i64_ge_u => Instr::i64_ge_u,
        Instr::f32_eq => Instr::f32_eq,
        Instr::f32_ne => Instr::f32_ne,
        Instr::f32_lt => Instr::f32_lt,
        Instr::f32_gt => Instr::f32_gt,
        Instr::f32_le => Instr::f32_le,
        Instr::f32_ge => Instr::f32_ge,
        Instr::f64_eq => Instr::f64_eq,
        Instr::f64_ne => Instr::f64_ne,
        Instr::f64_lt => Instr::f64_lt,
        Instr::f64_gt => Instr::f64_gt,
        Instr::f64_le => Instr::f64_le,
        Instr::f64_ge => Instr::f64_ge,
        Instr::i32_clz => Instr::i32_clz,
        Instr::i32_ctz => Instr::i32_ctz,
        Instr::i32_popcnt => Instr::i32_popcnt,
        Instr::i32_add => Instr::i32_add,
        Instr::i32_sub => Instr::i32_sub,
        Instr::i32_mul => Instr::i32_mul,
        Instr::i32_div_s => Instr::i32_div_s,
        Instr::i32_div_u => Instr::i32_div_u,
        Instr::i32_rem_s => Instr::i32_rem_s,
        Instr::i32_rem_u => Instr::i32_rem_u,
        Instr::i32_and => Instr::i32_and,
        Instr::i32_or => Instr::i32_or,
        Instr::i32_xor => Instr::i32_xor,
        Instr::i32_shl => Instr::i32_shl,
        Instr::i32_shr_s => Instr::i32_shr_s,
        Instr::i32_shr_u => Instr::i32_shr_u,
        Instr::i32_rotl => Instr::i32_rotl,
        Instr::i32_rotr => Instr::i32_rotr,
        Instr::i64_clz => Instr::i64_clz,
        Instr::i64_ctz => Instr::i64_ctz,
        Instr::i64_popcnt => Instr::i64_popcnt,
        Instr::i64_add => Instr::i64_add,
        Instr::i64_sub => Instr::i64_sub,
        Instr::i64_mul => Instr::i64_mul,
        Instr::i64_div_s => Instr::i64_div_s,
        Instr::i64_div_u => Instr::i64_div_u,
        Instr::i64_rem_s => Instr::i64_rem_s,
        Instr::i64_rem_u => Instr::i64_rem_u,
        Instr::i64_and => Instr::i64_and,
        Instr::i64_or => Instr::i64_or,
        Instr::i64_xor => Instr::i64_xor,
        Instr::i64_shl => Instr::i64_shl,
        Instr::i64_shr_s => Instr::i64_shr_s,
        Instr::i64_shr_u => Instr::i64_shr_u,
        Instr::i64_rotl => Instr::i64_rotl,
        Instr::i64_rotr => Instr::i64_rotr,
        Instr::f32_abs => Instr::f32_abs,
        Instr::f32_neg => Instr::f32_neg,
        Instr::f32_ceil => Instr::f32_ceil,
        Instr::f32_floor => Instr::f32_floor,
        Instr::f32_trunc => Instr::f32_trunc,
        Instr::f32_nearest => Instr::f32_nearest,
        Instr::f32_sqrt => Instr::f32_sqrt,
        Instr::f32_add => Instr::f32_add,
        Instr::f32_sub => Instr::f32_sub,
        Instr::f32_mul => Instr::f32_mul,
        Instr::f32_div => Instr::f32_div,
        Instr::f32_min => Instr::f32_min,
        Instr::f32_max => Instr::f32_max,
        Instr::f32_copysign => Instr::f32_copysign,
        Instr::f64_abs => Instr::f64_abs,
        Instr::f64_neg => Instr::f64_neg,
        Instr::f64_ceil => Instr::f64_ceil,
        Instr::f64_floor => Instr::f64_floor,
        Instr::f64_trunc => Instr::f64_trunc,
        Instr::f64_nearest => Instr::f64_nearest,
        Instr::f64_sqrt => Instr::f64_sqrt,
        Instr::f64_add => Instr::f64_add,
        Instr::f64_sub => Instr::f64_sub,
        Instr::f64_mul => Instr::f64_mul,
        Instr::f64_div => Instr::f64_div,
        Instr::f64_min => Instr::f64_min,
        Instr::f64_max => Instr::f64_max,
        Instr::f64_copysign => Instr::f64_copysign,
        Instr::i32_wrap_i64 => Instr::i32_wrap_i64,
        Instr::i32_trunc_f32_s => Instr::i32_trunc_f32_s,
        Instr::i32_trunc_f32_u => Instr::i32_trunc_f32_u,
        Instr::i32_trunc_f64_s => Instr::i32_trunc_f64_s,
        Instr::i32_trunc_f64_u => Instr::i32_trunc_f64_u,
        Instr::i64_extend_i32_s => Instr::i64_extend_i32_s,
        Instr::i64_extend_i32_u => Instr::i64_extend_i32_u,
        Instr::i64_trunc_f32_s => Instr::i64_trunc_f32_s,
        Instr::i64_trunc_f32_u => Instr::i64_trunc_f32_u,
        Instr::i64_trunc_f64_s => Instr::i64_trunc_f64_s,
        Instr::i64_trunc_f64_u => Instr::i64_trunc_f64_u,
        Instr::f32_convert_i32_s => Instr::f32_convert_i32_s,
        Instr::f32_convert_i32_u => Instr::f32_convert_i32_u,
        Instr::f32_convert_i64_s => Instr::f32_convert_i64_s,
        Instr::f32_convert_i64_u => Instr::f32_convert_i64_u,
        Instr::f32_demote_f64 => Instr::f32_demote_f64,
        Instr::f64_convert_i32_s => Instr::f64_convert_i32_s,
        Instr::f64_convert_i32_u => Instr::f64_convert_i32_u,
        Instr::f64_convert_i64_s => Instr::f64_convert_i64_s,
        Instr::f64_convert_i64_u => Instr::f64_convert_i64_u,
        Instr::f64_promote_f32 => Instr::f64_promote_f32,
        Instr::i32_reinterpret_f32 => Instr::i32_reinterpret_f32,
        Instr::i64_reinterpret_f64 => Instr::i64_reinterpret_f64,
        Instr::f32_reinterpret_i32 => Instr::f32_reinterpret_i32,
        Instr::f64_reinterpret_i64 => Instr::f64_reinterpret_i64,
        Instr::i32_extend8_s => Instr::i32_extend8_s,
        Instr::i32_extend16_s => Instr::i32_extend16_s,
        Instr::i64_extend8_s => Instr::i64_extend8_s,
        Instr::i64_extend16_s => Instr::i64_extend16_s,
        Instr::i64_extend32_s => Instr::i64_extend32_s,
    };
    assert(instr_bytes(r) =~= instr_bytes(*i));
    r
}

fn clone_body(body: &Vec<Value<Instr>>) -> (r: Vec<Value<Instr>>)
    ensures
        body_bytes(r@) == body_bytes(body@),
    decreases body, 0int,
{
    let mut out: Vec<Value<Instr>> = Vec::new();
    let mut k: usize = 0;
    while k < body.len()
        invariant
            k <= body@.len(),
            body_bytes(out@) == body_bytes(body@.subrange(0, k as int)),
        decreases body.len() - k,
    {
        assert(decreases_to!(body => body@[k as int].value));
        proof { crate::encoding::lemma_body_bytes_push(body@, k as int); }
        let v = &body[k];
        let y = Value { value: clone_instr(&v.value), start_offset: v.start_offset, end_offset: v.end_offset };
        let ghost before = out@;
        out.push(y);
        assert(out@.drop_last() =~= before);
        k += 1;
    }
    assert(body@.subrange(0, k as int) =~= body@);
    out
}

fn copy_u32s(v: &Vec<u32>) -> (r: Vec<u32>)
    ensures
        r@ == v@,
{
    let mut out: Vec<u32> = Vec::new();
    let mut k: usize = 0;
    while k < v.len()
        invariant
            k <= v@.len(),
            out@ == v@.take(k as int),
        decreases v.len() - k,
    {
        out.push(v[k]);
        k += 1;
        assert(out@ =~= v@.take(k as int));
    }
    assert(v@.take(k as int) =~= v@);
    out
}

fn clone_code(c: &Code) -> (r: Code)
    ensures
        code_bytes(r) == code_bytes(*c),
{
    let mut locals: Vec<CodeLocal> = Vec::new();
    let mut k: usize = 0;
    while k < c.locals.len()
        invariant
            k <= c.locals@.len(),
            locals@ == c.locals@.take(k as int),
        decreases c.locals.len() - k,
    {
        locals.push(c.locals[k]);
        k += 1;
        assert(locals@ =~= c.locals@.take(k as int));
    }
    assert(c.locals@.take(k as int) =~= c.locals@);
    Code { size: c.size, locals, body: Value { value: clone_body(&c.body.value), start_offset: c.body.start_offset, end_offset: c.body.end_offset } }
}

/// Why the coredump pass could not run.
#[derive(Debug, Clone, Copy, PartialEq, Eq, Structural)]
pub enum CoredumpError {
    /// The runtime module does not export a helper the pass needs.
    MissingRuntimeExport,
    /// A function records more values than any `set_frame` helper takes.
    UnsupportedLocalCount(u32),
    /// A function refers to a type or body that the module lacks.
    MalformedModule,
}

/// The number of `set_frame` helpers: one per count of recorded values.
pub const SET_FRAME_HELPERS: u32 = 30;

/// Decodes the runtime module that provides the helpers.
pub fn get_runtime(contents: &[u8]) -> (r: Result<Module, DecodeError>)
    ensures
        r matches Ok(m) ==> crate::encoding::module_bytes(m) == contents@,
        forall|m: Module|
            #![trigger crate::encoding::module_bytes(m)]
            crate::parser::supported_module(m) && crate::encoding::module_bytes(m) == contents@ ==> r is Ok,
{
    crate::parser::decode(contents)
}

/// The name `set_frame<i>` of a helper.
pub open spec fn helper_name(i: nat) -> Seq<u8> {
    seq![0x73u8, 0x65u8, 0x74u8, 0x5fu8, 0x66u8, 0x72u8, 0x61u8, 0x6du8, 0x65u8] + (if i >= 10 {
        seq![(0x30 + i / 10) as u8]
    } else {
        Seq::empty()
    }) + seq![(0x30 + i % 10) as u8]
}

/// The name `write_coredump`.
pub open spec fn write_coredump_name() -> Seq<u8> {
    seq![0x77u8, 0x72u8, 0x69u8, 0x74u8, 0x65u8, 0x5fu8, 0x63u8, 0x6fu8, 0x72u8, 0x65u8, 0x64u8, 0x75u8, 0x6du8, 0x70u8]
}

/// `m` exports a function with a body under `name`.
pub open spec fn provides(m: Module, name: Seq<u8>) -> bool {
    exists|j: int|
        0 <= j < exports_of(m).len() && (#[trigger] exports_of(m)[j]).name@ == name && exports_of(m)[j].descr is Func
            && func_import_count(m) <= (exports_of(m)[j].descr->Func_0) && (exports_of(m)[j].descr->Func_0)
            - func_import_count(m) < codes_of(m).len()
}

/// `c` encodes exactly as the body of a function that `m` exports under `name`.
pub open spec fn copied_from(m: Module, name: Seq<u8>, c: Code) -> bool {
    exists|j: int|
        0 <= j < exports_of(m).len() && (#[trigger] exports_of(m)[j]).name@ == name && exports_of(m)[j].descr is Func
            && func_import_count(m) <= (exports_of(m)[j].descr->Func_0) && (exports_of(m)[j].descr->Func_0)
            - func_import_count(m) < codes_of(m).len() && code_bytes(c) == code_bytes(
            codes_of(m)[(exports_of(m)[j].descr->Func_0) - func_import_count(m)],
        )
}

/// The runtime lacks one of the helpers the pass copies.
pub open spec fn helpers_missing(runtime: Module) -> bool {
    (exists|i: nat| i < 30 && !provides(runtime, #[trigger] helper_name(i))) || !provides(runtime, write_coredump_name())
}

fn set_frame_name(i: u32) -> (r: Vec<u8>)
    requires
        i < 100,
    ensures
        r@ == helper_name(i as nat),
{
    let prefix = "set_frame";
    proof {
        reveal_strlit("set_frame");
        assert(vstd::string::is_ascii(prefix));
        vstd::string::is_ascii_spec_bytes(prefix);
    }
    let mut name: Vec<u8> = vstd::slice::slice_to_vec(prefix.as_bytes());
    assert(name@ =~= seq![0x73u8, 0x65u8, 0x74u8, 0x5fu8, 0x66u8, 0x72u8, 0x61u8, 0x6du8, 0x65u8]);
    if i >= 10 {
        name.push(0x30u8 + (i / 10) as u8);
    }
    name.push(0x30u8 + (i % 10) as u8);
    assert(name@ =~= helper_name(i as nat));
    name
}

/// A copy of the body of the function with a body exported as `name`.
fn runtime_body(m: &Module, name: &[u8]) -> (r: Option<Code>)
    requires
        imports_of(*m).len() <= 0xffff_ffff,
    ensures
        r is Some <==> provides(*m, name@),
        r matches Some(c) ==> copied_from(*m, name@, c),
{
    let (_, imported) = m.func_type_indices();
    let ghost s = m.sections@;
    let ghost g = |x: Section| crate::model::section_exports(x);
    let ghost all = exports_of(*m);
    let mut j: usize = 0;
    while j < m.sections.len()
        invariant
            j <= s.len(),
            s == m.sections@,
            imported == func_import_count(*m),
            g == (|x: Section| crate::model::section_exports(x)),
            all == flat_map(s, g),
            all == exports_of(*m),
            flat_map(s.take(j as int), g).len() <= all.len(),
            all.take(flat_map(s.take(j as int), g).len() as int) == flat_map(s.take(j as int), g),
            forall|i: int| 0 <= i < flat_map(s.take(j as int), g).len() ==> !(#[trigger] all[i].name@ == name@
                && all[i].descr is Func && imported <= (all[i].descr->Func_0) && (all[i].descr->Func_0) - imported
                < codes_of(*m).len()),
        decreases s.len() - j,
    {
        proof {
            crate::model::lemma_flat_map_push(s, j as int, g);
            crate::model::lemma_flat_map_append(s.take(j + 1), s.skip(j + 1), g);
            assert(s =~= s.take(j + 1) + s.skip(j + 1));
            assert(all.take(flat_map(s.take(j + 1), g).len() as int) =~= flat_map(s.take(j + 1), g));
        }
        match &m.sections[j] {
            Section::Export(_, exports) => {
                let ghost seen = flat_map(s.take(j as int), g);
                let mut k: usize = 0;
                while k < exports.len()
                    invariant
                        k <= exports@.len(),
                        g(s[j as int]) == exports@,
                        imported == func_import_count(*m),
                        seen + exports@ == flat_map(s.take(j + 1), g),
                        all.take((seen + exports@).len() as int) == seen + exports@,
                        all == exports_of(*m),
                        (seen + exports@).len() <= all.len(),
                        forall|i: int| 0 <= i < seen.len() + k ==> !(#[trigger] all[i].name@ == name@
                            && all[i].descr is Func && imported <= (all[i].descr->Func_0) && (all[i].descr->Func_0)
                            - imported < codes_of(*m).len()),
                    decreases exports.len() - k,
                {
                    proof {
                        assert((seen + exports@)[seen.len() + k] == exports@[k as int]);
                        assert(all.take((seen + exports@).len() as int)[seen.len() + k] == all[seen.len() + k]);
                    }
                    match exports[k].descr {
                        ExportDescr::Func(f) => {
                            if (f as usize) >= imported && bytes_eq(&exports[k].name, name) {
                                match m.code_at(f as usize - imported) {
                                    Some(c) => {
                                        let copy = clone_code(c);
                                        assert(all[seen.len() + k] == exports@[k as int]);
                                        assert(copied_from(*m, name@, copy));
                                        return Some(copy);
                                    },
                                    None => {},
                                }
                            }
                        },
                        _ => {},
                    }
                    k += 1;
                }
            },
            _ => {},
        }
        j += 1;
    }
    assert(s.take(s.len() as int) =~= s);
    None
}


/// An instruction that the pass records a frame at: a trap or a call, at any
/// depth.
pub open spec fn instr_needs_frame(x: Value<Instr>) -> bool
    decreases x, 0int,
{
    match x.value {
        Instr::unreachable | Instr::call(_) | Instr::call_indirect(..) => true,
        Instr::Block(_, b) => needs_frame(b@),
        Instr::Loop(_, b) => needs_frame(b@),
        Instr::If(_, b) => needs_frame(b@),
        _ => false,
    }
}

/// `s` holds a trap or a call, at any depth.
pub open spec fn needs_frame(s: Seq<Value<Instr>>) -> bool
    decreases s, 1int,
{
    exists|k: int| 0 <= k < s.len() && instr_needs_frame(#[trigger] s[k])
}

/// Whether `body` holds a trap or a call, at any depth.
fn body_needs_frame(body: &Vec<Value<Instr>>) -> (r: bool)
    ensures
        r == needs_frame(body@),
    decreases body@,
{
    let mut k: usize = 0;
    while k < body.len()
        invariant
            k <= body@.len(),
            forall|j: int| 0 <= j < k ==> !instr_needs_frame(#[trigger] body@[j]),
        decreases body.len() - k,
    {
        proof { crate::traverse::lemma_nested_decreases(body@, k as int); }
        let found = match &body[k].value {
            Instr::unreachable | Instr::call(_) | Instr::call_indirect(..) => true,
            Instr::Block(_, b) | Instr::Loop(_, b) | Instr::If(_, b) => body_needs_frame(b),
            _ => false,
        };
        if found {
            assert(instr_needs_frame(body@[k as int]));
            return true;
        }
        k += 1;
    }
    false
}

/// Defined function `f` of `m` has a body that holds a trap or a call.
pub open spec fn frame_needed(m: Module, f: int) -> bool {
    let k = f - func_import_count(m);
    0 <= k < codes_of(m).len() && needs_frame(codes_of(m)[k].body.value@)
}

/// The number of locals a frame records: at most fifteen.
pub open spec fn recorded_locals(n: nat) -> nat {
    if n < 15 { n } else { 15 }
}

/// Defined function `f` of `m` has a type and a body, and records fewer
/// values than there are `set_frame` helpers.
pub open spec fn frame_ok(m: Module, f: int) -> bool {
    let ti = func_types(m)[f];
    let k = f - func_import_count(m);
    &&& ti < types_of(m).len()
    &&& k < codes_of(m).len()
    &&& types_of(m)[ti as int].params@.len() + recorded_locals(flat_locals(codes_of(m)[k].locals@).len()) < 30
}

/// `info` is what the pass records of defined function `f` of `m`.
pub open spec fn frame_matches(info: FrameInfo, m: Module, f: int) -> bool {
    let t = types_of(m)[func_types(m)[f] as int];
    let ls = flat_locals(codes_of(m)[f - func_import_count(m)].locals@);
    &&& info.params == t.params@.len()
    &&& info.results@ == t.results@
    &&& info.locals@ == ls.take(recorded_locals(ls.len()) as int)
    &&& info.exported == exports_func(m, f as u32)
}

/// `b` keeps the imports, exports, types, function types and bodies of `a`,
/// possibly followed by more.
pub open spec fn keeps_functions(a: Module, b: Module) -> bool {
    &&& imports_of(b) == imports_of(a)
    &&& exports_of(b) == exports_of(a)
    &&& types_of(b).len() >= types_of(a).len() && types_of(b).take(types_of(a).len() as int) == types_of(a)
    &&& funcs_of(b).len() >= funcs_of(a).len() && funcs_of(b).take(funcs_of(a).len() as int) == funcs_of(a)
    &&& codes_of(b).len() >= codes_of(a).len() && codes_of(b).take(codes_of(a).len() as int) == codes_of(a)
}

proof fn lemma_push_prefix<T>(s: Seq<T>, e: T, l: int)
    requires
        0 <= l <= s.len(),
    ensures
        s.push(e).take(l) == s.take(l),
{
    assert(s.push(e).take(l) =~= s.take(l));
}

/// A function of `a` kept in `b` is recorded alike in both.
proof fn lemma_frame_kept(a: Module, b: Module, f: int, info: FrameInfo)
    requires
        keeps_functions(a, b),
        func_import_count(a) <= f < func_count(a),
        frame_ok(a, f),
    ensures
        frame_ok(b, f),
        frame_matches(info, b, f) ==> frame_matches(info, a, f),
{
    let ia = func_import_types(imports_of(a));
    crate::model::lemma_func_import_types_len(imports_of(a));
    assert(func_types(a)[f] == func_types(b)[f]) by {
        if f >= ia.len() {
            assert(funcs_of(b).take(funcs_of(a).len() as int)[f - ia.len()] == funcs_of(b)[f - ia.len()]);
        }
    }
    let ti = func_types(a)[f] as int;
    assert(types_of(b).take(types_of(a).len() as int)[ti] == types_of(b)[ti]);
    let k = f - func_import_count(a);
    assert(codes_of(b).take(codes_of(a).len() as int)[k] == codes_of(b)[k]);
}

/// What the pass records of function `f` of `m`, if it has a body.
fn frame_info(m: &Module, types: &Vec<u32>, imported: usize, f: usize) -> (r: Result<Option<FrameInfo>, CoredumpError>)
    requires
        types@ == func_types(*m),
        imported == func_import_count(*m),
    ensures
        r matches Ok(Some(info)) ==> info.params < 30 && info.locals@.len() <= 15 && info.params + info.locals@.len() < 30,
        !(imported <= f < types@.len() && f < 0xffff_ffff) ==> r == Ok::<Option<FrameInfo>, CoredumpError>(None),
        imported <= f < types@.len() && f < 0xffff_ffff ==> (r is Ok <==> frame_ok(*m, f as int)) && (r is Ok
            ==> r->Ok_0 is Some),
        r matches Ok(Some(info)) ==> frame_matches(info, *m, f as int),
{
    if f < imported || f >= types.len() || f >= 0xffff_ffff {
        return Ok(None);
    }
    let t = match m.type_at(types[f]) {
        Some(t) => t,
        None => {
            return Err(CoredumpError::MalformedModule);
        },
    };
    let code = match m.code_at(f - imported) {
        Some(c) => c,
        None => {
            return Err(CoredumpError::MalformedModule);
        },
    };
    let locals = locals_flatten(&code.locals, 15);
    let count: u32 = if t.params.len() >= 0xffff { 0xffff_ffff } else { (t.params.len() + locals.len()) as u32 };
    if count >= SET_FRAME_HELPERS {
        return Err(CoredumpError::UnsupportedLocalCount(count));
    }
    let mut results: Vec<ValueType> = Vec::new();
    let mut k: usize = 0;
    while k < t.results.len()
        invariant
            k <= t.results@.len(),
            results@ == t.results@.take(k as int),
        decreases t.results.len() - k,
    {
        results.push(t.results[k]);
        k += 1;
        assert(results@ =~= t.results@.take(k as int));
    }
    assert(t.results@.take(k as int) =~= t.results@);
    Ok(Some(FrameInfo { params: t.params.len() as u32, results, locals, exported: m.is_func_exported(f as u32) }))
}

/// The trap code of a function with frame `info`.
fn build_trap_code(info: &FrameInfo, f: u32, set_frame: u32, shim: u32) -> (r: Vec<Value<Instr>>)
    requires
        info.params < 30,
    ensures
        prebuilt(r@),
        instrs_of(r@) == trap_code(*info, f, set_frame, shim),
{
    let mut v: Vec<Value<Instr>> = Vec::new();
    assert(prebuilt(v@));
    push_fresh(&mut v, Instr::call(shim));
    assert(instrs_of(v@) =~= seq![Instr::call(shim)]);
    push_frame_record(&mut v, info, f, set_frame);
    push_fillers(&mut v, &info.results, false);
    v
}

/// The unwinding check's body for a function with frame `info`.
fn build_unwind_code(info: &FrameInfo, f: u32, set_frame: u32, write_coredump: u32) -> (r: Vec<Value<Instr>>)
    requires
        info.params < 30,
    ensures
        prebuilt(r@),
        instrs_of(r@) == unwind_code(*info, f, set_frame, write_coredump),
{
    let mut v: Vec<Value<Instr>> = Vec::new();
    assert(prebuilt(v@));
    assert(instrs_of(v@) =~= Seq::<Instr>::empty());
    push_frame_record(&mut v, info, f, set_frame);
    if info.exported {
        // At the edge of the module: write the coredump and trap.
        push_fresh(&mut v, Instr::call(write_coredump));
        push_fresh(&mut v, Instr::unreachable);
    } else {
        push_fillers(&mut v, &info.results, true);
        push_fresh(&mut v, Instr::Return);
    }
    assert(instrs_of(v@) =~= unwind_code(*info, f, set_frame, write_coredump));
    v
}

/// A type without parameters or results.
pub open spec fn empty_type(t: Type) -> bool {
    t.params@.len() == 0 && t.results@.len() == 0
}

/// The type of `set_frame<i>`: the function index and `i` recorded values,
/// all `i32`, and no results.
pub open spec fn set_frame_type(t: Type, i: int) -> bool {
    t.params@ == Seq::new((i + 1) as nat, |k: int| ValueType::NumType(NumType::I32)) && t.results@.len() == 0
}

/// `s` with one more item, and its parts.
pub proof fn lemma_skip_push<T>(s: Seq<T>, e: T, l: int)
    requires
        0 <= l <= s.len(),
    ensures
        s.push(e).skip(l) == s.skip(l).push(e),
        s.push(e).take(l) == s.take(l),
{
    assert(s.push(e).skip(l) =~= s.skip(l).push(e));
    assert(s.push(e).take(l) =~= s.take(l));
}

/// `mid` is `m` with the first `n` of the pass's 32 functions appended, and
/// the `is_unwinding` global (a mutable `i32` starting at 0): function `k` of
/// them has type `k` of the appended types. They are the shim, of type
/// `[] -> []`, which sets the global; `set_frame0` to `set_frame29`, whose
/// bodies are those of the runtime's helpers; and `write_coredump`, likewise
/// copied, of type `[] -> []`. Everything else is kept.
pub open spec fn pieces_added(m: Module, mid: Module, runtime: Module, n: int) -> bool {
    let tn = types_of(m).len() as int;
    let nt = types_of(mid).skip(tn);
    let nf = funcs_of(mid).skip(funcs_of(m).len() as int);
    let nc = codes_of(mid).skip(codes_of(m).len() as int);
    &&& keeps_functions(m, mid)
    &&& globals_of(mid).len() == globals_of(m).len() + 1
    &&& globals_of(mid).take(globals_of(m).len() as int) == globals_of(m)
    &&& globals_of(mid).last().global_type == (GlobalType { valtype: ValueType::NumType(NumType::I32), mutable: true })
    &&& globals_of(mid).last().expr@ == seq![fresh(Instr::i32_const(0))]
    &&& nt.len() == n && nf.len() == n && nc.len() == n
    &&& forall|i: int| 0 <= i < n ==> #[trigger] nf[i] == tn + i
    &&& n >= 1 ==> empty_type(nt[0]) && nc[0].locals@.len() == 0 && nc[0].body.value@ == seq![
        fresh(Instr::i32_const(1)),
        fresh(Instr::global_set(global_count(m) as u32)),
    ]
    &&& forall|i: int| 1 <= i < n && i <= 30 ==> set_frame_type(#[trigger] nt[i], i - 1)
    &&& forall|i: int| 1 <= i < n && i <= 30 ==> copied_from(runtime, helper_name((i - 1) as nat), #[trigger] nc[i])
    &&& n == 32 ==> empty_type(nt[31]) && copied_from(runtime, write_coredump_name(), nc[31])
}

/// All 32 functions of the pass are appended.
pub open spec fn helpers_added(m: Module, mid: Module, runtime: Module) -> bool {
    pieces_added(m, mid, runtime, 32)
}

/// The code the pass inserts in function `f` is built from `info`, the frame
/// `f` has in `m`: before a trap its frame record and fillers, after a call
/// the unwinding check, both through the `set_frame` helper for its count.
pub open spec fn recorded(v: CoredumpTransform, m: Module, f: int, info: FrameInfo) -> bool {
    let set_frame = v.set_frame_funcs@[info.params + info.locals@.len()];
    &&& frame_matches(info, m, f)
    &&& f < v.trap_code@.len() && f < v.unwind_code@.len()
    &&& prebuilt(v.trap_code@[f]@) && prebuilt(v.unwind_code@[f]@)
    &&& instrs_of(v.trap_code@[f]@) == trap_code(info, f as u32, set_frame, v.unreachable_shim)
    &&& instrs_of(v.unwind_code@[f]@) == unwind_code(info, f as u32, set_frame, v.write_coredump)
}

/// The code inserted in `f` is built from the frame `f` has in `m`.
pub open spec fn recorded_frame(v: CoredumpTransform, m: Module, f: int) -> bool {
    exists|info: FrameInfo| #[trigger] recorded(v, m, f, info)
}

/// Adds the helpers (the `is_unwinding` global, the shim that sets it, the
/// runtime's `set_frame0` to `set_frame29` and `write_coredump`) and walks the
/// module with the pass. Gives the pass as it ran. Fails, changing nothing,
/// when the runtime lacks a helper or a function records too many values.
pub fn transform(module: &mut Module, runtime: &Module) -> (r: Result<CoredumpTransform, CoredumpError>)
    requires
        imports_of(*old(module)).len() + funcs_of(*old(module)).len() + 32 < 0xffff_ffff,
        imports_of(*old(module)).len() + globals_of(*old(module)).len() + 1 < 0xffff_ffff,
        types_of(*old(module)).len() + 32 < 0xffff_ffff,
        imports_of(*runtime).len() <= 0xffff_ffff,
    ensures
        r is Err <==> helpers_missing(*runtime) || funcs_of(*old(module)).len() != codes_of(*old(module)).len()
            || exists|f: int|
            func_import_count(*old(module)) <= f < func_count(*old(module)) && frame_needed(*old(module), f)
                && !#[trigger] frame_ok(*old(module), f),
        r is Err ==> *final(module) == *old(module),
        r matches Ok(v) ==> {
            &&& v.is_unwinding == global_count(*old(module))
            &&& v.unreachable_shim == func_count(*old(module))
            &&& v.set_frame_funcs@.len() == 30
            &&& forall|i: int| 0 <= i < 30 ==> #[trigger] v.set_frame_funcs@[i] == func_count(*old(module)) + 1 + i
            &&& v.write_coredump == func_count(*old(module)) + 31
            &&& exists|mid: Module|
                #![trigger helpers_added(*old(module), mid, *runtime)]
                helpers_added(*old(module), mid, *runtime) && walked_from(v, mid.sections@, *final(module))
                    && recorded_frame(v, mid, v.write_coredump as int)
                    && imports_of(*final(module)) == imports_of(mid) && types_of(*final(module)) == types_of(mid)
                    && funcs_of(*final(module)) == funcs_of(mid)
            &&& funcs_of(*final(module)).len() == funcs_of(*old(module)).len() + 32
            &&& codes_of(*final(module)).len() == codes_of(*old(module)).len() + 32
            &&& types_of(*final(module)).len() == types_of(*old(module)).len() + 32
            &&& imports_of(*final(module)).len() == imports_of(*old(module)).len()
            &&& forall|f: int|
                func_import_count(*old(module)) <= f < func_count(*old(module)) && frame_needed(*old(module), f)
                    ==> #[trigger] recorded_frame(
                    v,
                    *old(module),
                    f,
                )
        },
{
    // Everything that can fail is looked up before the module changes.
    let mut helpers: Vec<Code> = Vec::new();
    let mut i: u32 = 0;
    while i < SET_FRAME_HELPERS
        invariant
            i <= 30,
            helpers@.len() == i,
            imports_of(*runtime).len() <= 0xffff_ffff,
            forall|k: nat| k < i ==> provides(*runtime, #[trigger] helper_name(k)),
            forall|k: int| 0 <= k < i ==> copied_from(*runtime, helper_name(k as nat), #[trigger] helpers@[k]),
        decreases 30 - i,
    {
        let name = set_frame_name(i);
        let code = match runtime_body(runtime, name.as_slice()) {
            Some(c) => c,
            None => {
                assert(!provides(*runtime, helper_name(i as nat)));
                return Err(CoredumpError::MissingRuntimeExport);
            },
        };
        let ghost before = helpers@;
        helpers.push(code);
        proof {
            assert forall|k: int| 0 <= k < i + 1 implies copied_from(*runtime, helper_name(k as nat), #[trigger] helpers@[k]) by {
                if k < i {
                    assert(helpers@[k] == before[k]);
                }
            }
        }
        i += 1;
    }
    let ghost helpers0 = helpers@;
    let write_str = "write_coredump";
    proof {
        reveal_strlit("write_coredump");
        assert(vstd::string::is_ascii(write_str));
        vstd::string::is_ascii_spec_bytes(write_str);
        assert(write_str.spec_bytes() =~= write_coredump_name());
    }
    let write_body = match runtime_body(runtime, write_str.as_bytes()) {
        Some(c) => c,
        None => {
            return Err(CoredumpError::MissingRuntimeExport);
        },
    };
    assert(!helpers_missing(*runtime));
    // Each defined function has its body, and each body its function.
    let defined = module.defined_func_count() as usize;
    if module.code_at(defined).is_some() || (defined > 0 && module.code_at(defined - 1).is_none()) {
        return Err(CoredumpError::MalformedModule);
    }
    {
        let (types, imported) = module.func_type_indices();
        proof {
            crate::model::lemma_count_imports_le_len(imports_of(*module));
            crate::model::lemma_func_import_types_len(imports_of(*module));
        }
        let mut f: usize = imported;
        while f < types.len()
            invariant
                types@ == func_types(*module),
                imported == func_import_count(*module),
                imported <= f,
                *module == *old(module),
                func_types(*module).len() < 0xffff_ffff,
                types@.len() == func_count(*module),
                funcs_of(*module).len() == codes_of(*module).len(),
                forall|g: int| imported <= g < f ==> frame_needed(*module, g) ==> frame_ok(*module, g),
            decreases types.len() - f,
        {
            // Only a function with a trap or a call asks for a helper.
            let needed = match module.code_at(f - imported) {
                Some(code) => body_needs_frame(&code.body.value),
                None => false,
            };
            if needed {
                match frame_info(module, &types, imported, f) {
                    Ok(_) => {},
                    Err(e) => {
                        return Err(e);
                    },
                }
            }
            f += 1;
        }
    }
    let ghost m0 = *module;
    assert(forall|g: int| func_import_count(m0) <= g < func_count(m0) ==> frame_needed(m0, g) ==> frame_ok(m0, g));

    let global = Global {
        global_type: GlobalType { valtype: ValueType::NumType(NumType::I32), mutable: true },
        expr: vec![Value::new(Instr::i32_const(0))],
    };
    assert(global.expr@ =~= seq![fresh(Instr::i32_const(0))]);
    let ghost g2 = global;
    let is_unwinding = module.add_global(global);
    proof {
        lemma_skip_push(globals_of(m0), g2, globals_of(m0).len() as int);
        assert(globals_of(m0).take(globals_of(m0).len() as int) =~= globals_of(m0));
    }

    let ghost mg = *module;
    let empty_type = module.add_type(Type { params: Vec::new(), results: Vec::new() });
    proof { lemma_push_prefix(types_of(mg), types_of(*module).last(), types_of(m0).len() as int); assert(types_of(*module) =~= types_of(mg).push(types_of(*module).last())); }
    let ghost mt = *module;
    let shim_body = vec![Value::new(Instr::i32_const(1)), Value::new(Instr::global_set(is_unwinding))];
    assert(shim_body@ =~= seq![fresh(Instr::i32_const(1)), fresh(Instr::global_set(global_count(m0) as u32))]);
    let shim = Code { locals: Vec::new(), size: Value::new(0), body: Value::new(shim_body) };
    let ghost shim2 = shim;
    let unreachable_shim = module.add_function(shim, empty_type);
    proof {
        lemma_push_prefix(funcs_of(mt), empty_type, funcs_of(m0).len() as int);
        lemma_push_prefix(codes_of(mt), codes_of(*module).last(), codes_of(m0).len() as int);
        assert(codes_of(*module) =~= codes_of(mt).push(codes_of(*module).last()));
        assert(types_of(m0).take(types_of(m0).len() as int) =~= types_of(m0));
        assert(funcs_of(m0).take(funcs_of(m0).len() as int) =~= funcs_of(m0));
        assert(codes_of(m0).take(codes_of(m0).len() as int) =~= codes_of(m0));
        assert(keeps_functions(m0, *module));
        lemma_skip_push(types_of(mg), types_of(*module).last(), types_of(m0).len() as int);
        lemma_skip_push(funcs_of(mt), empty_type, funcs_of(m0).len() as int);
        lemma_skip_push(codes_of(mt), shim2, codes_of(m0).len() as int);
        assert(types_of(mg).skip(types_of(m0).len() as int) =~= Seq::<Type>::empty());
        assert(funcs_of(mt).skip(funcs_of(m0).len() as int) =~= Seq::<u32>::empty());
        assert(codes_of(mt).skip(codes_of(m0).len() as int) =~= Seq::<Code>::empty());
        assert(pieces_added(m0, *module, *runtime, 1));
    }

    let mut set_frame_funcs: Vec<u32> = Vec::new();
    let mut helpers = helpers;
    let mut rev: Vec<Code> = Vec::new();
    while helpers.len() > 0
        invariant
            rev@.len() + helpers@.len() == 30,
            helpers@ == helpers0.take(helpers@.len() as int),
            helpers0.len() == 30,
            forall|k: int| 0 <= k < rev@.len() ==> #[trigger] rev@[k] == helpers0[29 - k],
        decreases helpers.len(),
    {
        let ghost hb = helpers@;
        let c = helpers.pop().unwrap();
        assert(hb[hb.len() - 1] == helpers0[hb.len() - 1]);
        rev.push(c);
        assert(helpers@ =~= helpers0.take(helpers@.len() as int));
    }
    let mut i: u32 = 0;
    while i < SET_FRAME_HELPERS
        invariant
            i <= 30,
            rev@.len() == 30 - i,
            set_frame_funcs@.len() == i,
            forall|k: int| 0 <= k < i ==> #[trigger] set_frame_funcs@[k] == func_count(m0) + 1 + k,
            func_count(*module) == func_count(m0) + 1 + i,
            pieces_added(m0, *module, *runtime, 1 + i),
            helpers0.len() == 30,
            forall|k: int| 0 <= k < 30 ==> copied_from(*runtime, helper_name(k as nat), #[trigger] helpers0[k]),
            forall|k: int| 0 <= k < rev@.len() ==> #[trigger] rev@[k] == helpers0[29 - k],
            m0 == *old(module),
            !helpers_missing(*runtime),
            forall|g: int| func_import_count(m0) <= g < func_count(m0) ==> frame_needed(m0, g) ==> frame_ok(m0, g),
            funcs_of(m0).len() == codes_of(m0).len(),
            imports_of(*module) == imports_of(m0),
            keeps_functions(m0, *module),
            imports_of(m0).len() + funcs_of(m0).len() + 32 < 0xffff_ffff,
            types_of(m0).len() + 32 < 0xffff_ffff,
            codes_of(*module).len() == codes_of(m0).len() + 1 + i,
            funcs_of(*module).len() == funcs_of(m0).len() + 1 + i,
            types_of(*module).len() == types_of(m0).len() + 1 + i,
        decreases 30 - i,
    {
        // set_frame<i> takes the function index and `i` recorded values.
        let mut params: Vec<ValueType> = vec![ValueType::NumType(NumType::I32)];
        let mut k: u32 = 0;
        assert(params@ =~= Seq::new(1, |j: int| ValueType::NumType(NumType::I32)));
        while k < i
            invariant
                k <= i,
                params@ == Seq::new((k + 1) as nat, |j: int| ValueType::NumType(NumType::I32)),
            decreases i - k,
        {
            params.push(ValueType::NumType(NumType::I32));
            k += 1;
            assert(params@ =~= Seq::new((k + 1) as nat, |j: int| ValueType::NumType(NumType::I32)));
        }
        let ghost before = *module;
        let ft = Type { params, results: Vec::new() };
        let ghost ft2 = ft;
        assert(set_frame_type(ft2, i as int));
        let ghost ma = *module;
        let typeidx = module.add_type(ft);
        proof {
            assert(types_of(*module) =~= types_of(ma).push(types_of(*module).last()));
            lemma_push_prefix(types_of(ma), types_of(*module).last(), types_of(m0).len() as int);
        }
        let ghost rb = rev@;
        let code = rev.pop().unwrap();
        assert(code == helpers0[i as int]) by {
            assert(rb[rb.len() - 1] == helpers0[29 - (rb.len() - 1)]);
        }
        let ghost code2 = code;
        let ghost mb = *module;
        let funcidx = module.add_function(code, typeidx);
        proof {
            lemma_push_prefix(funcs_of(mb), typeidx, funcs_of(m0).len() as int);
            assert(codes_of(*module) =~= codes_of(mb).push(codes_of(*module).last()));
            lemma_push_prefix(codes_of(mb), codes_of(*module).last(), codes_of(m0).len() as int);
            lemma_skip_push(types_of(before), ft2, types_of(m0).len() as int);
            lemma_skip_push(funcs_of(mb), typeidx, funcs_of(m0).len() as int);
            lemma_skip_push(codes_of(mb), code2, codes_of(m0).len() as int);
            assert(codes_of(*module) == codes_of(mb).push(code2));
            assert(pieces_added(m0, *module, *runtime, 2 + i));
        }
        set_frame_funcs.push(funcidx);
        i += 1;
    }

    let ghost mc = *module;
    let wt = Type { params: Vec::new(), results: Vec::new() };
    let ghost wt2 = wt;
    let ghost write2 = write_body;
    let write_type = module.add_type(wt);
    proof {
        assert(types_of(*module) =~= types_of(mc).push(types_of(*module).last()));
        lemma_push_prefix(types_of(mc), types_of(*module).last(), types_of(m0).len() as int);
    }
    let ghost md = *module;
    let write_coredump = module.add_function(write_body, write_type);
    proof {
        lemma_push_prefix(funcs_of(md), write_type, funcs_of(m0).len() as int);
        assert(codes_of(*module) =~= codes_of(md).push(codes_of(*module).last()));
        lemma_push_prefix(codes_of(md), codes_of(*module).last(), codes_of(m0).len() as int);
        assert(keeps_functions(m0, *module));
        lemma_skip_push(types_of(mc), wt2, types_of(m0).len() as int);
        lemma_skip_push(funcs_of(md), write_type, funcs_of(m0).len() as int);
        lemma_skip_push(codes_of(md), write2, codes_of(m0).len() as int);
        assert(codes_of(*module) == codes_of(md).push(write2));
        assert(helpers_added(m0, *module, *runtime));
    }
    let ghost m1 = *module;
    let ghost wc: int = (func_count(m0) + 31) as int;
    proof {
        let tn = types_of(m0).len() as int;
        crate::model::lemma_func_import_types_len(imports_of(m1));
        crate::model::lemma_func_import_types_len(imports_of(m0));
        let fl = funcs_of(m0).len() as int;
        assert(funcs_of(m1).skip(fl)[31] == funcs_of(m1)[fl + 31]);
        assert(func_types(m1)[wc] == funcs_of(m1)[fl + 31]);
        assert(types_of(m1).skip(tn)[31] == types_of(m1)[tn + 31]);
        assert(frame_ok(m1, wc));
    }

    let (types, imported) = module.func_type_indices();
    let mut visitor = CoredumpTransform {
        is_unwinding,
        unreachable_shim,
        write_coredump,
        set_frame_funcs,
        trap_code: Vec::new(),
        unwind_code: Vec::new(),
    };
    let ghost mut infos: Seq<FrameInfo> = Seq::empty();
    let mut f: usize = 0;
    while f < types.len()
        invariant
            *module == m1,
            keeps_functions(m0, m1),
            func_count(m0) + 32 < 0xffff_ffff,
            infos.len() == f,
            wc == func_count(m0) + 31,
            frame_ok(m1, wc),
            f > wc ==> recorded(visitor, m1, wc, infos[wc]),
            visitor.trap_code@.len() == f,
            visitor.unwind_code@.len() == f,
            forall|g: int| func_import_count(m0) <= g < f && g < func_count(m0) && frame_needed(m0, g) ==> #[trigger] recorded(visitor, m0, g, infos[g]),
            types@ == func_types(*module),
            imported == func_import_count(*module),
            m0 == *old(module),
            !helpers_missing(*runtime),
            forall|g: int| func_import_count(m0) <= g < func_count(m0) ==> frame_needed(m0, g) ==> frame_ok(m0, g),
            funcs_of(m0).len() == codes_of(m0).len(),
            visitor.is_unwinding == global_count(m0),
            visitor.unreachable_shim == func_count(m0),
            visitor.set_frame_funcs@.len() == 30,
            forall|k: int| 0 <= k < 30 ==> #[trigger] visitor.set_frame_funcs@[k] == func_count(m0) + 1 + k,
            visitor.write_coredump == func_count(m0) + 31,
        decreases types.len() - f,
    {
        let ghost mut this: FrameInfo = arbitrary();
        proof {
            if func_import_count(m0) <= f < func_count(m0) && frame_needed(m0, f as int) {
                assert forall|k: int| 0 <= k < 30 implies visitor.set_frame_funcs@[k] != f by {}
                assert(!visitor.set_frame_funcs@.contains(f as u32));
                lemma_frame_kept(m0, m1, f as int, arbitrary());
                crate::model::lemma_count_imports_le_len(imports_of(m0));
                crate::model::lemma_func_import_types_len(imports_of(m1));
            }
        }
        let entry = if f < 0xffff_ffff && !visitor.helper(f as u32) {
            match frame_info(module, &types, imported, f) {
                Ok(Some(info)) => {
                    proof {
                        this = info;
                        if func_import_count(m0) <= f < func_count(m0) && frame_needed(m0, f as int) {
                            lemma_frame_kept(m0, m1, f as int, info);
                        }
                        if f == wc {
                            assert(frame_matches(info, m1, wc));
                        }
                    }
                    let count = info.params as usize + info.locals.len();
                    let set_frame = visitor.set_frame_funcs[count];
                    (
                        build_trap_code(&info, f as u32, set_frame, visitor.unreachable_shim),
                        build_unwind_code(&info, f as u32, set_frame, visitor.write_coredump),
                    )
                },
                _ => (Vec::new(), Vec::new()),
            }
        } else {
            (Vec::new(), Vec::new())
        };
        let ghost vis0 = visitor;
        let ghost infos0 = infos;
        visitor.trap_code.push(entry.0);
        visitor.unwind_code.push(entry.1);
        proof {
            infos = infos.push(this);
            assert forall|g: int| func_import_count(m0) <= g < f + 1 && g < func_count(m0) && frame_needed(m0, g) implies #[trigger] recorded(
                visitor,
                m0,
                g,
                infos[g],
            ) by {
                if g < f {
                    assert(recorded(vis0, m0, g, infos0[g]));
                    assert(infos[g] == infos0[g]);
                    assert(visitor.trap_code@[g] == vis0.trap_code@[g]);
                    assert(visitor.unwind_code@[g] == vis0.unwind_code@[g]);
                } else {
                    assert(infos[g] == this);
                    assert(visitor.trap_code@[g] == entry.0);
                    assert(visitor.unwind_code@[g] == entry.1);
                }
            }
            if f + 1 > wc {
                if f == wc {
                    assert(visitor.trap_code@[wc] == entry.0);
                    assert(visitor.unwind_code@[wc] == entry.1);
                    assert(infos[wc] == this);
                } else {
                    assert(recorded(vis0, m1, wc, infos0[wc]));
                    assert(visitor.trap_code@[wc] == vis0.trap_code@[wc]);
                    assert(visitor.unwind_code@[wc] == vis0.unwind_code@[wc]);
                    assert(infos[wc] == infos0[wc]);
                }
                assert(recorded(visitor, m1, wc, infos[wc]));
            }
        }
        f += 1;
    }
    proof {
        assert forall|g: int| func_import_count(m0) <= g < func_count(m0) && frame_needed(m0, g) implies #[trigger] recorded_frame(
            visitor,
            m0,
            g,
        ) by {
            assert(recorded(visitor, m0, g, infos[g]));
        }
    }
    traverse(module, &visitor);
    proof {
        let n = module.sections@.len();
        let w = choose|w: Seq<Section>|
            #![trigger w.take(m1.sections@.len() as int)]
            w.len() == n && w.take(m1.sections@.len() as int) == m1.sections@ && forall|j: int|
                0 <= j < w.len() ==> section_walked(visitor, #[trigger] w[j], module.sections@[j], *module, j);
        assert(walked_from(visitor, w, *module));
        assert(w == m1.sections@);
        crate::traverse::lemma_walk_keeps_counts(visitor, w, *module);
        crate::traverse::lemma_walk_keeps_entries(visitor, w, *module);
        assert(helpers_added(m0, m1, *runtime));
        assert(recorded(visitor, m1, wc, infos[wc]));
        assert(recorded_frame(visitor, m1, visitor.write_coredump as int));
    }
    Ok(visitor)
}

} // verus!
