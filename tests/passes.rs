use wasm_edit::ast::{Instr, Module, Section, Value};
use wasm_edit::instrument::{transform, InstrumentError, MemoryInstrument};
use wasm_edit::parser::decode;
use wasm_edit::printer::encode;
use wasm_edit::traverse::{prepend, traverse, VisitorContext};
use wasm_edit::wasi;

fn uleb(v: u64) -> Vec<u8> {
    let mut b = Vec::new();
    leb128::write::unsigned(&mut b, v).unwrap();
    b
}

fn section(id: u8, payload: &[u8]) -> Vec<u8> {
    let mut b = vec![id];
    b.extend(uleb(payload.len() as u64));
    b.extend_from_slice(payload);
    b
}

fn sized(payload: &[u8]) -> Vec<u8> {
    let mut b = uleb(payload.len() as u64);
    b.extend_from_slice(payload);
    b
}

fn module(sections: &[Vec<u8>]) -> Vec<u8> {
    let mut b = vec![0x00, 0x61, 0x73, 0x6d, 0x01, 0x00, 0x00, 0x00];
    for s in sections {
        b.extend_from_slice(s);
    }
    b
}

fn growing_module() -> Module {
    let mut import = vec![0x01];
    import.extend(sized(b"wasi_snapshot_preview1"));
    import.extend(sized(b"fd_write"));
    import.extend([0x00, 0x00]);
    let body0 = vec![0x00, 0x41, 0x01, 0x40, 0x00, 0x1a, 0x0b];
    let body1 = vec![0x00, 0x02, 0x40, 0x41, 0x01, 0x40, 0x00, 0x1a, 0x0b, 0x0b];
    let mut codes = vec![0x02];
    codes.extend(sized(&body0));
    codes.extend(sized(&body1));
    let bytes = module(&[
        section(1, &[0x02, 0x60, 0x04, 0x7f, 0x7f, 0x7f, 0x7f, 0x01, 0x7f, 0x60, 0x00, 0x00]),
        section(2, &import),
        section(3, &[0x02, 0x01, 0x01]),
        section(5, &[0x01, 0x00, 0x01]),
        section(10, &codes),
    ]);
    decode(&bytes).unwrap()
}

fn count_grow(body: &[Value<Instr>]) -> usize {
    let mut n = 0;
    for i in body {
        match &i.value {
            Instr::memory_grow(_) => n += 1,
            Instr::Block(_, b) | Instr::Loop(_, b) | Instr::If(_, b) => n += count_grow(b),
            _ => {}
        }
    }
    n
}

fn count_calls(body: &[Value<Instr>], target: u32) -> usize {
    let mut n = 0;
    for i in body {
        match &i.value {
            Instr::call(x) if *x == target => n += 1,
            Instr::Block(_, b) | Instr::Loop(_, b) | Instr::If(_, b) => n += count_calls(b, target),
            _ => {}
        }
    }
    n
}

fn codes(m: &Module) -> &Vec<wasm_edit::ast::Code> {
    for s in &m.sections {
        if let Section::Code(_, c) = s {
            return c;
        }
    }
    panic!("no code section")
}

#[test]
fn instrument_replaces_memory_grow() {
    let mut m = growing_module();
    let wrapper = transform(&mut m).unwrap();
    assert_eq!(wrapper, 3);
    let c = codes(&m);
    assert_eq!(c.len(), 3);
    assert_eq!(count_grow(&c[0].body.value), 0);
    assert_eq!(count_grow(&c[1].body.value), 0);
    assert_eq!(count_calls(&c[0].body.value, wrapper), 1);
    assert_eq!(count_calls(&c[1].body.value, wrapper), 1);
    assert_eq!(count_grow(&c[2].body.value), 1);
    assert_eq!(count_calls(&c[2].body.value, 0), 1);
    let again = decode(&encode(&m)).unwrap();
    assert_eq!(codes(&again).len(), 3);
}

#[test]
fn instrument_wrapper_layout() {
    let mut m = growing_module();
    let wrapper = transform(&mut m).unwrap();
    let c = codes(&m);
    let body = &c[2].body.value;
    assert!(matches!(body[0].value, Instr::i32_const(1)));
    assert!(matches!(body[1].value, Instr::i32_const(36)));
    assert!(matches!(body[4].value, Instr::call(0)));
    assert!(matches!(body[7].value, Instr::memory_grow(0)));
    assert_eq!(m.defined_func_count() + m.func_import_count(), wrapper + 1);
    let data = m.sections.iter().find_map(|s| match s {
        Section::Data(_, d) => Some(d),
        _ => None,
    });
    let seg = &data.unwrap()[0];
    assert_eq!(seg.compute_offset(), 36);
    assert_eq!(&seg.bytes[0..4], &44u32.to_le_bytes());
    assert_eq!(&seg.bytes[4..8], &19u32.to_le_bytes());
    assert_eq!(&seg.bytes[8..], b"called memory.grow\n");
}

#[test]
fn instrument_twice_keeps_one_raw_grow() {
    let mut m = growing_module();
    let first = transform(&mut m).unwrap();
    let second = transform(&mut m).unwrap();
    assert_eq!(second, first + 1);
    let c = codes(&m);
    let total: usize = c.iter().map(|code| count_grow(&code.body.value)).sum();
    assert_eq!(total, 1);
    assert_eq!(count_grow(&c[3].body.value), 1);
    assert_eq!(count_calls(&c[2].body.value, second), 1);
}

#[test]
fn instrument_needs_fd_write() {
    let bytes = module(&[section(3, &[0x00])]);
    let mut m = decode(&bytes).unwrap();
    assert_eq!(transform(&mut m), Err(InstrumentError::MissingFdWrite));
    assert_eq!(encode(&m), bytes);
}

#[test]
fn traverse_skips_the_wrapper_index() {
    let mut m = growing_module();
    let visitor = MemoryInstrument::new(2);
    traverse(&mut m, &visitor);
    let c = codes(&m);
    assert_eq!(count_grow(&c[0].body.value), 0);
    assert_eq!(count_grow(&c[1].body.value), 1);
}

#[test]
fn visitor_context_queues_edits() {
    let node = Value::new(Instr::nop);
    let mut ctx = VisitorContext::new(&node);
    assert!(ctx.curr_funcidx().is_none());
    ctx.insert_node_before(Instr::i32_const(1));
    ctx.insert_node_after(Instr::drop);
    ctx.replace_node(Instr::unreachable);
    assert_eq!(ctx.inserted_before().len(), 1);
    assert_eq!(ctx.inserted_after().len(), 1);
    assert!(matches!(ctx.replacement(), Some(Value { value: Instr::unreachable, start_offset: 0, end_offset: 0 })));
    assert!(!ctx.is_stopped());
    ctx.stop_traversal();
    assert!(ctx.is_stopped());
}

#[test]
fn visitor_context_for_sections() {
    let entries: Vec<u32> = vec![1, 2];
    let mut ctx = VisitorContext::new(&entries);
    ctx.insert_node_after(3);
    assert_eq!(ctx.inserted_after(), &vec![vec![3]]);
    assert!(ctx.inserted_before().is_empty());
    let m = Module { sections: vec![] };
    let mut mctx = VisitorContext::new(&m);
    mctx.insert_new_section(Section::Unknown(0, 0, vec![]));
    assert!(mctx.new_section().is_some());
    assert_eq!(mctx.node().sections.len(), 0);
}

#[test]
fn prepend_puts_entries_first() {
    assert_eq!(prepend(vec![3, 4], vec![1, 2]), vec![1, 2, 3, 4]);
}

#[test]
fn wasi_iovec_layout() {
    let bytes = wasi::str(100, "hi\n");
    assert_eq!(bytes, vec![108, 0, 0, 0, 3, 0, 0, 0, b'h', b'i', b'\n']);
}

#[test]
fn wasi_print_sequence() {
    let instrs = wasi::print(7, 64);
    assert_eq!(instrs.len(), 6);
    assert!(matches!(instrs[1].value, Instr::i32_const(64)));
    assert!(matches!(instrs[3].value, Instr::i32_const(1020)));
    assert!(matches!(instrs[4].value, Instr::call(7)));
    assert!(matches!(instrs[5].value, Instr::drop));
}
