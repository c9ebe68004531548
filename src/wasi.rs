//! Helpers for a host that offers the `fd_write` call: an I/O vector laid out
//! in guest memory, and the instructions that write it to standard output.
use vstd::prelude::*;
use crate::ast::{Instr, Value};
use crate::encoding::le32;
use crate::traverse::fresh;
use vstd::string::StringSliceAdditionalSpecFns;

verus! {

fn push_le32(bytes: &mut Vec<u8>, v: u32)
    ensures
        final(bytes)@ == old(bytes)@ + le32(v),
{
    bytes.push((v & 0xff) as u8);
    bytes.push(((v >> 8u32) & 0xff) as u8);
    bytes.push(((v >> 16u32) & 0xff) as u8);
    bytes.push(((v >> 24u32) & 0xff) as u8);
    assert(bytes@ =~= old(bytes)@ + le32(v));
}

/// An I/O vector to be placed at `offset`: the address of the text (right
/// after the vector's two words), its length, then the text itself.
pub fn str(offset: u32, text: &str) -> (r: Vec<u8>)
    requires
        offset + 8 <= u32::MAX,
        text.spec_bytes().len() <= u32::MAX,
    ensures
        r@ == le32((offset + 8) as u32) + le32(text.spec_bytes().len() as u32) + text.spec_bytes(),
{
    let t = text.as_bytes();
    let mut bytes: Vec<u8> = Vec::new();
    push_le32(&mut bytes, offset + 8);
    push_le32(&mut bytes, t.len() as u32);
    let ghost head = bytes@;
    let mut j: usize = 0;
    while j < t.len()
        invariant
            j <= t@.len(),
            bytes@ == head + t@.take(j as int),
        decreases t.len() - j,
    {
        bytes.push(t[j]);
        j += 1;
        assert(bytes@ =~= head + t@.take(j as int));
    }
    assert(t@.take(t@.len() as int) =~= t@);
    bytes
}

/// Instructions that write the I/O vector at `ptr` to standard output
/// through the imported function `fd_write`, and drop the result.
pub fn print(fd_write: u32, ptr: u32) -> (r: Vec<Value<Instr>>)
    ensures
        r@ == seq![
            fresh(Instr::i32_const(1)),
            fresh(Instr::i32_const(ptr as i64)),
            fresh(Instr::i32_const(1)),
            fresh(Instr::i32_const(1020)),
            fresh(Instr::call(fd_write)),
            fresh(Instr::drop),
        ],
{
    let r = vec![
        Value::new(Instr::i32_const(1)),
        Value::new(Instr::i32_const(ptr as i64)),
        Value::new(Instr::i32_const(1)),
        Value::new(Instr::i32_const(1020)),
        Value::new(Instr::call(fd_write)),
        Value::new(Instr::drop),
    ];
    assert(r@ =~= seq![
            fresh(Instr::i32_const(1)),
            fresh(Instr::i32_const(ptr as i64)),
            fresh(Instr::i32_const(1)),
            fresh(Instr::i32_const(1020)),
            fresh(Instr::call(fd_write)),
            fresh(Instr::drop),
        ]);
    r
}

} // verus!
