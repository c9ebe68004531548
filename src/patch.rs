//! In-place edits of a decoded buffer: the initial size of a memory, with the
//! enclosing section's size prefix adjusted by the change in length.
use vstd::prelude::*;
use crate::ast::{Import, ImportType, Memory, Module, Section, Value};
use crate::leb::{lemma_uleb_len_u32, uleb};
use crate::parser::{import_spans, memory_spans, module_spans, section_spans, span_holds};
use crate::{splice, update_value};

verus! {

/// Why an in-place edit was refused.
#[derive(Debug, Clone, Copy, PartialEq, Eq, Structural)]
pub enum EditError {
    /// A size prefix does not precede the value it covers, or the two edited
    /// memories are not in buffer order.
    InvalidSpans,
    /// The adjusted section size would leave the range 1..=u32::MAX.
    SizeOutOfRange,
}

/// The first memory of the first Memory section that declares one, with
/// that section's size.
pub open spec fn main_memory_of(s: Seq<Section>) -> Option<(Memory, Value<u32>)>
    decreases s.len(),
{
    if s.len() == 0 {
        None
    } else if s[0] is Memory && (s[0] -> Memory_1)@.len() > 0 {
        Some(((s[0] -> Memory_1)@[0], s[0] -> Memory_0))
    } else {
        main_memory_of(s.drop_first())
    }
}

/// The first imported memory in `v`.
pub open spec fn memory_import_in(v: Seq<Import>) -> Option<Memory>
    decreases v.len(),
{
    if v.len() == 0 {
        None
    } else if v[0].import_type is Memory {
        Some(v[0].import_type -> Memory_0)
    } else {
        memory_import_in(v.drop_first())
    }
}

/// The first imported memory of the module, with its Import section's size.
pub open spec fn memory_import_of(s: Seq<Section>) -> Option<(Memory, Value<u32>)>
    decreases s.len(),
{
    if s.len() == 0 {
        None
    } else if s[0] is Import && memory_import_in((s[0] -> Import_1)@) is Some {
        Some((memory_import_in((s[0] -> Import_1)@)->0, s[0] -> Import_0))
    } else {
        memory_import_of(s.drop_first())
    }
}

/// How much longer the encoding of a memory's initial size gets.
pub open spec fn growth(min: Value<u32>, new_min: u32) -> int {
    uleb(new_min as nat).len() - uleb(min.value as nat).len()
}

/// `b` with the initial size at `min` set to `new_min` and, where its length
/// changed, the size prefix at `size` adjusted by the difference.
pub open spec fn patched(b: Seq<u8>, min: Value<u32>, size: Value<u32>, new_min: u32) -> Seq<u8> {
    let b1 = splice(b, min.start_offset as int, min.end_offset as int, uleb(new_min as nat));
    if growth(min, new_min) == 0 {
        b1
    } else {
        splice(b1, size.start_offset as int, size.end_offset as int, uleb((size.value + growth(min, new_min)) as nat))
    }
}

/// The patch of one memory can be made: the size prefix comes first and the
/// adjusted size stays in range.
pub open spec fn patchable(b: Seq<u8>, min: Value<u32>, size: Value<u32>, new_min: u32) -> bool {
    &&& span_holds(min, b, uleb(min.value as nat))
    &&& span_holds(size, b, uleb(size.value as nat))
    &&& size.end_offset <= min.start_offset
    &&& 1 <= size.value + growth(min, new_min) <= u32::MAX
}

/// Both patches can be made: each size prefix precedes its value and stays
/// in range, and an imported memory lies before the main memory's section.
pub open spec fn edit_allowed(s: Seq<Section>, new_min: u32) -> bool {
    &&& (main_memory_of(s) matches Some((m, size)) ==> size.end_offset <= m.initial_memory.start_offset
        && 1 <= size.value + growth(m.initial_memory, new_min) <= u32::MAX)
    &&& (memory_import_of(s) matches Some((m, size)) ==> {
        &&& size.end_offset <= m.initial_memory.start_offset
        &&& 1 <= size.value + growth(m.initial_memory, new_min) <= u32::MAX
        &&& (main_memory_of(s) matches Some((_, main_size)) ==> m.initial_memory.end_offset
            <= main_size.start_offset)
    })
}

/// Finds the main memory and its section's size.
pub fn get_main_memory(module: &Module) -> (r: Option<(Memory, Value<u32>)>)
    ensures
        r == main_memory_of(module.sections@),
{
    let ghost s = module.sections@;
    assert(s.skip(0) =~= s);
    let mut j: usize = 0;
    while j < module.sections.len()
        invariant
            j <= s.len(),
            s == module.sections@,
            main_memory_of(s.skip(j as int)) == main_memory_of(s),
        decreases s.len() - j,
    {
        assert(s.skip(j as int)[0] == s[j as int]);
        assert(s.skip(j as int).drop_first() =~= s.skip(j + 1));
        match &module.sections[j] {
            Section::Memory(size, memories) => {
                if memories.len() > 0 {
                    return Some((memories[0], *size));
                }
            },
            _ => {},
        }
        j += 1;
    }
    assert(s.skip(j as int) =~= Seq::<Section>::empty());
    None
}

fn memory_import(v: &Vec<Import>) -> (r: Option<Memory>)
    ensures
        r == memory_import_in(v@),
{
    let mut k: usize = 0;
    assert(v@.skip(0) =~= v@);
    while k < v.len()
        invariant
            k <= v@.len(),
            memory_import_in(v@.skip(k as int)) == memory_import_in(v@),
        decreases v.len() - k,
    {
        assert(v@.skip(k as int)[0] == v@[k as int]);
        assert(v@.skip(k as int).drop_first() =~= v@.skip(k + 1));
        match &v[k].import_type {
            ImportType::Memory(m) => {
                return Some(*m);
            },
            _ => {},
        }
        k += 1;
    }
    assert(v@.skip(k as int) =~= Seq::<Import>::empty());
    None
}

/// Finds the first imported memory and its Import section's size.
pub fn get_memory_import(module: &Module) -> (r: Option<(Memory, Value<u32>)>)
    ensures
        r == memory_import_of(module.sections@),
{
    let ghost s = module.sections@;
    assert(s.skip(0) =~= s);
    let mut j: usize = 0;
    while j < module.sections.len()
        invariant
            j <= s.len(),
            s == module.sections@,
            memory_import_of(s.skip(j as int)) == memory_import_of(s),
        decreases s.len() - j,
    {
        assert(s.skip(j as int)[0] == s[j as int]);
        assert(s.skip(j as int).drop_first() =~= s.skip(j + 1));
        match &module.sections[j] {
            Section::Import(size, imports) => {
                match memory_import(imports) {
                    Some(m) => {
                        return Some((m, *size));
                    },
                    None => {},
                }
            },
            _ => {},
        }
        j += 1;
    }
    assert(s.skip(j as int) =~= Seq::<Section>::empty());
    None
}

/// Sets the initial size of one memory and adjusts the size prefix of its
/// section, innermost first. Bytes before the size prefix are kept.
fn patch_memory(input: &mut Vec<u8>, min: &Value<u32>, size: &Value<u32>, new_min: u32)
    requires
        patchable(old(input)@, *min, *size, new_min),
        old(input)@.len() <= 0x1_0000_0000_0040,
    ensures
        final(input)@ == patched(old(input)@, *min, *size, new_min),
        final(input)@.len() <= old(input)@.len() + 8,
        final(input)@.take(size.start_offset as int) == old(input)@.take(size.start_offset as int),
{
    let ghost b = input@;
    proof {
        lemma_uleb_len_u32(new_min as nat);
        lemma_uleb_len_u32(min.value as nat);
        lemma_uleb_len_u32(size.value as nat);
    }
    let delta = update_value(input, min, new_min);
    assert(input@.take(size.start_offset as int) =~= b.take(size.start_offset as int));
    if delta != 0 {
        assert(input@.subrange(size.start_offset as int, size.end_offset as int) =~= b.subrange(
            size.start_offset as int,
            size.end_offset as int,
        ));
        let new_size = (size.value as i64 + delta) as u32;
        proof { lemma_uleb_len_u32(new_size as nat); }
        update_value(input, size, new_size);
        assert(input@.take(size.start_offset as int) =~= b.take(size.start_offset as int));
    }
}

/// Sets the initial size, in pages, of the main memory and of an imported
/// memory, patching the buffer they were decoded from; each enclosing
/// section's size prefix is adjusted by the change in length. Where either
/// patch cannot be made, the buffer is left as it was.
pub fn edit_memory(input: &mut Vec<u8>, module: &Module, initial_memory: u32) -> (r: Result<(), EditError>)
    requires
        module_spans(*module, old(input)@),
        old(input)@.len() <= 0x1_0000_0000_0000,
    ensures
        r is Ok <==> edit_allowed(module.sections@, initial_memory),
        r is Err ==> final(input)@ == old(input)@,
        r is Ok ==> final(input)@ == match memory_import_of(module.sections@) {
            Some((mem, size)) => patched(
                match main_memory_of(module.sections@) {
                    Some((m, s)) => patched(old(input)@, m.initial_memory, s, initial_memory),
                    None => old(input)@,
                },
                mem.initial_memory,
                size,
                initial_memory,
            ),
            None => match main_memory_of(module.sections@) {
                Some((m, s)) => patched(old(input)@, m.initial_memory, s, initial_memory),
                None => old(input)@,
            },
        },
{
    let main = get_main_memory(module);
    let import = get_memory_import(module);
    proof {
        lemma_main_memory_spans(module.sections@, input@);
        lemma_memory_import_spans(module.sections@, input@);
    }
    match main {
        Some((mem, size)) => {
            if !(size.end_offset <= mem.initial_memory.start_offset) {
                return Err(EditError::InvalidSpans);
            }
            if !size_in_range(&mem.initial_memory, &size, initial_memory) {
                return Err(EditError::SizeOutOfRange);
            }
        },
        None => {},
    }
    match import {
        Some((mem, size)) => {
            if !(size.end_offset <= mem.initial_memory.start_offset) {
                return Err(EditError::InvalidSpans);
            }
            if !size_in_range(&mem.initial_memory, &size, initial_memory) {
                return Err(EditError::SizeOutOfRange);
            }
            match main {
                Some((_, main_size)) => {
                    if !(mem.initial_memory.end_offset <= main_size.start_offset) {
                        return Err(EditError::InvalidSpans);
                    }
                },
                None => {},
            }
        },
        None => {},
    }
    let ghost b0 = input@;
    match main {
        Some((mem, size)) => {
            patch_memory(input, &mem.initial_memory, &size, initial_memory);
        },
        None => {},
    }
    match import {
        Some((mem, size)) => {
            proof {
                match main {
                    Some((_, main_size)) => {
                        assert(input@.take(main_size.start_offset as int) == b0.take(main_size.start_offset as int));
                        assert(input@.subrange(mem.initial_memory.start_offset as int, mem.initial_memory.end_offset as int)
                            =~= b0.subrange(mem.initial_memory.start_offset as int, mem.initial_memory.end_offset as int));
                        assert(input@.subrange(size.start_offset as int, size.end_offset as int)
                            =~= b0.subrange(size.start_offset as int, size.end_offset as int));
                    },
                    None => {},
                }
            }
            patch_memory(input, &mem.initial_memory, &size, initial_memory);
        },
        None => {},
    }
    Ok(())
}

/// Whether the size prefix adjusted for a new initial size stays in range.
fn size_in_range(min: &Value<u32>, size: &Value<u32>, new_min: u32) -> (r: bool)
    ensures
        r == (1 <= size.value + growth(*min, new_min) <= u32::MAX),
{
    let mut a: Vec<u8> = Vec::new();
    crate::leb::write_unsigned(&mut a, new_min as u64);
    let mut b: Vec<u8> = Vec::new();
    crate::leb::write_unsigned(&mut b, min.value as u64);
    proof {
        lemma_uleb_len_u32(new_min as nat);
        lemma_uleb_len_u32(min.value as nat);
    }
    let n = size.value as i64 + a.len() as i64 - b.len() as i64;
    1 <= n && n <= 0xffff_ffff
}


proof fn lemma_main_memory_spans(s: Seq<Section>, b: Seq<u8>)
    requires
        forall|j: int| 0 <= j < s.len() ==> #[trigger] section_spans(s[j], b),
    ensures
        main_memory_of(s) matches Some((m, size)) ==> span_holds(m.initial_memory, b, uleb(m.initial_memory.value as nat))
            && span_holds(size, b, uleb(size.value as nat)),
    decreases s.len(),
{
    if s.len() > 0 {
        assert(section_spans(s[0], b));
        if !(s[0] is Memory && (s[0] -> Memory_1)@.len() > 0) {
            assert forall|j: int| 0 <= j < s.drop_first().len() implies #[trigger] section_spans(s.drop_first()[j], b) by {
                assert(section_spans(s[j + 1], b));
            }
            lemma_main_memory_spans(s.drop_first(), b);
        } else {
            assert(memory_spans((s[0] -> Memory_1)@[0], b));
        }
    }
}

proof fn lemma_import_memory_spans(v: Seq<Import>, b: Seq<u8>)
    requires
        forall|j: int| 0 <= j < v.len() ==> #[trigger] import_spans(v[j], b),
    ensures
        memory_import_in(v) matches Some(m) ==> memory_spans(m, b),
    decreases v.len(),
{
    if v.len() > 0 {
        assert(import_spans(v[0], b));
        if !(v[0].import_type is Memory) {
            assert forall|j: int| 0 <= j < v.drop_first().len() implies #[trigger] import_spans(v.drop_first()[j], b) by {
                assert(import_spans(v[j + 1], b));
            }
            lemma_import_memory_spans(v.drop_first(), b);
        }
    }
}

proof fn lemma_memory_import_spans(s: Seq<Section>, b: Seq<u8>)
    requires
        forall|j: int| 0 <= j < s.len() ==> #[trigger] section_spans(s[j], b),
    ensures
        memory_import_of(s) matches Some((m, size)) ==> span_holds(m.initial_memory, b, uleb(m.initial_memory.value as nat))
            && span_holds(size, b, uleb(size.value as nat)),
    decreases s.len(),
{
    if s.len() > 0 {
        assert(section_spans(s[0], b));
        if !(s[0] is Import && memory_import_in((s[0] -> Import_1)@) is Some) {
            assert forall|j: int| 0 <= j < s.drop_first().len() implies #[trigger] section_spans(s.drop_first()[j], b) by {
                assert(section_spans(s[j + 1], b));
            }
            lemma_memory_import_spans(s.drop_first(), b);
        } else {
            lemma_import_memory_spans((s[0] -> Import_1)@, b);
        }
    }
}

} // verus!
