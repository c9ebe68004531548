//! Decode a binary module of the stack-machine bytecode format into an
//! editable tree, let passes edit the tree, and write it back: either by
//! regenerating the whole binary or by patching single values in place.
pub mod leb;
pub mod ast;
pub mod encoding;
pub mod printer;
pub mod parser;
pub mod model;
pub mod traverse;
pub mod wasi;
pub mod instrument;
pub mod patch;

use vstd::prelude::*;
use crate::ast::{Instr, Value};
use crate::encoding::instr_bytes;
use crate::leb::{uleb, write_unsigned};

verus! {

/// A value that can be written back over its source bytes.
pub trait ToBytes {
    spec fn bytes_of(&self) -> Seq<u8>;

    fn to_bytes(&self) -> (r: Vec<u8>)
        ensures
            r@ == self.bytes_of(),
    ;
}

impl ToBytes for u32 {
    open spec fn bytes_of(&self) -> Seq<u8> {
        uleb(*self as nat)
    }

    fn to_bytes(&self) -> (r: Vec<u8>) {
        let mut buffer: Vec<u8> = Vec::new();
        write_unsigned(&mut buffer, *self as u64);
        buffer
    }
}

impl ToBytes for Instr {
    open spec fn bytes_of(&self) -> Seq<u8> {
        instr_bytes(*self)
    }

    fn to_bytes(&self) -> (r: Vec<u8>) {
        let mut buffer: Vec<u8> = Vec::new();
        crate::printer::write_instr(&mut buffer, self);
        buffer
    }
}

/// `b` with the bytes `[start, end)` replaced by `new`.
pub open spec fn splice(b: Seq<u8>, start: int, end: int, new: Seq<u8>) -> Seq<u8> {
    b.take(start) + new + b.skip(end)
}

/// Replaces the source bytes of `old_value` in `input` by the encoding of
/// `new_value`, and returns how much longer the buffer got (negative if it
/// got shorter).
pub fn update_value<T: ToBytes>(input: &mut Vec<u8>, old_value: &Value<T>, new_value: T) -> (delta: i64)
    requires
        old_value.start_offset <= old_value.end_offset <= old(input)@.len(),
        old(input)@.len() <= i64::MAX,
        new_value.bytes_of().len() <= i64::MAX,
    ensures
        final(input)@ == splice(
            old(input)@,
            old_value.start_offset as int,
            old_value.end_offset as int,
            new_value.bytes_of(),
        ),
        delta == new_value.bytes_of().len() - (old_value.end_offset - old_value.start_offset),
{
    let start = old_value.start_offset;
    let end = old_value.end_offset;
    let new_bytes = new_value.to_bytes();
    let mut out: Vec<u8> = Vec::new();
    let mut j: usize = 0;
    while j < start
        invariant
            j <= start <= end <= input@.len(),
            out@ == input@.take(j as int),
        decreases start - j,
    {
        out.push(input[j]);
        j += 1;
        assert(out@ =~= input@.take(j as int));
    }
    let mut k: usize = 0;
    while k < new_bytes.len()
        invariant
            k <= new_bytes@.len(),
            out@ == input@.take(start as int) + new_bytes@.take(k as int),
        decreases new_bytes.len() - k,
    {
        out.push(new_bytes[k]);
        k += 1;
        assert(out@ =~= input@.take(start as int) + new_bytes@.take(k as int));
    }
    assert(new_bytes@.take(new_bytes@.len() as int) =~= new_bytes@);
    let mut j: usize = end;
    while j < input.len()
        invariant
            start <= end <= j <= input@.len(),
            out@ == input@.take(start as int) + new_bytes@ + input@.subrange(end as int, j as int),
        decreases input.len() - j,
    {
        out.push(input[j]);
        j += 1;
        assert(out@ =~= input@.take(start as int) + new_bytes@ + input@.subrange(end as int, j as int));
    }
    assert(input@.subrange(end as int, j as int) =~= input@.skip(end as int));
    let delta = new_bytes.len() as i64 - (end - start) as i64;
    *input = out;
    delta
}

} // verus!
pub mod coredump;
