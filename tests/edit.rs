use wasm_edit::ast::{
    Code, DataSegment, Global, GlobalType, Instr, Module, NumType, Section, Type, Value, ValueType,
};
use wasm_edit::ast::CodeLocal;
use wasm_edit::model::locals_flatten;
use wasm_edit::parser::decode;
use wasm_edit::patch::{edit_memory, get_main_memory, get_memory_import};
use wasm_edit::printer::encode;
use wasm_edit::update_value;

fn uleb(v: u64) -> Vec<u8> {
    let mut b = Vec::new();
    leb128::write::unsigned(&mut b, v).unwrap();
    b
}

fn section(id: u8, payload: &[u8]) -> Vec<u8> {
    let mut b = vec![id];
    b.extend(uleb(payload.len() as u64));
    b.extend_from_slice(payload);
    b
}

fn sized(payload: &[u8]) -> Vec<u8> {
    let mut b = uleb(payload.len() as u64);
    b.extend_from_slice(payload);
    b
}

fn module(sections: &[Vec<u8>]) -> Vec<u8> {
    let mut b = vec![0x00, 0x61, 0x73, 0x6d, 0x01, 0x00, 0x00, 0x00];
    for s in sections {
        b.extend_from_slice(s);
    }
    b
}

fn memory_module(min: u32) -> Vec<u8> {
    let mut payload = vec![0x01, 0x00];
    payload.extend(uleb(min as u64));
    let types = section(1, &[0x01, 0x60, 0x00, 0x00]);
    let funcs = section(3, &[0x01, 0x00]);
    let codes = section(10, &[0x01, 0x02, 0x00, 0x0b]);
    module(&[types, funcs, section(5, &payload), codes])
}

fn memory_section_size(m: &Module) -> u32 {
    match get_main_memory(m) {
        Some((_, size)) => size.value,
        None => panic!("no memory"),
    }
}

#[test]
fn memory_patch_one_to_ten() {
    let mut bytes = memory_module(1);
    let m = decode(&bytes).unwrap();
    let old_size = memory_section_size(&m);
    edit_memory(&mut bytes, &m, 10).unwrap();
    let patched = decode(&bytes).unwrap();
    let (mem, size) = get_main_memory(&patched).unwrap();
    assert_eq!(mem.initial_memory.value, 10);
    let delta = uleb(10).len() as i64 - uleb(1).len() as i64;
    assert_eq!(size.value as i64, old_size as i64 + delta);
    assert_eq!(bytes, memory_module(10));
}

#[test]
fn memory_patch_grows_section_size() {
    let mut bytes = memory_module(1);
    let m = decode(&bytes).unwrap();
    let old_size = memory_section_size(&m);
    edit_memory(&mut bytes, &m, 300).unwrap();
    let patched = decode(&bytes).unwrap();
    let (mem, size) = get_main_memory(&patched).unwrap();
    assert_eq!(mem.initial_memory.value, 300);
    assert_eq!(size.value, old_size + 1);
    assert_eq!(bytes, memory_module(300));
}

#[test]
fn memory_patch_shrinks_section_size() {
    let mut bytes = memory_module(70000);
    let m = decode(&bytes).unwrap();
    let old_size = memory_section_size(&m);
    edit_memory(&mut bytes, &m, 2).unwrap();
    let patched = decode(&bytes).unwrap();
    assert_eq!(memory_section_size(&patched), old_size - 2);
    assert_eq!(bytes, memory_module(2));
}

#[test]
fn memory_import_patch() {
    let mut import = vec![0x01];
    import.extend(sized(b"env"));
    import.extend(sized(b"memory"));
    import.extend([0x02, 0x00, 0x01]);
    let mut bytes = module(&[section(2, &import)]);
    let m = decode(&bytes).unwrap();
    assert!(get_main_memory(&m).is_none());
    let (mem, _) = get_memory_import(&m).unwrap();
    assert_eq!(mem.initial_memory.value, 1);
    edit_memory(&mut bytes, &m, 200).unwrap();
    let patched = decode(&bytes).unwrap();
    let (mem, size) = get_memory_import(&patched).unwrap();
    assert_eq!(mem.initial_memory.value, 200);
    assert_eq!(size.value as usize, import.len() + 1);
}

#[test]
fn memory_patch_without_memory_keeps_buffer() {
    let mut bytes = module(&[section(3, &[0x00])]);
    let m = decode(&bytes).unwrap();
    let before = bytes.clone();
    edit_memory(&mut bytes, &m, 10).unwrap();
    assert_eq!(bytes, before);
}

#[test]
fn update_value_splices_and_reports_delta() {
    let mut bytes = vec![1, 2, 0x80, 0x01, 3];
    let old = Value { value: 128u32, start_offset: 2, end_offset: 4 };
    let delta = update_value(&mut bytes, &old, 5u32);
    assert_eq!(delta, -1);
    assert_eq!(bytes, vec![1, 2, 5, 3]);
    let old = Value { value: 5u32, start_offset: 2, end_offset: 3 };
    let delta = update_value(&mut bytes, &old, 300u32);
    assert_eq!(delta, 1);
    assert_eq!(bytes, vec![1, 2, 0xac, 0x02, 3]);
}

#[test]
fn update_value_with_instruction() {
    let mut bytes = vec![0x10, 0x01, 0x0b];
    let old = Value { value: Instr::call(1), start_offset: 0, end_offset: 2 };
    let delta = update_value(&mut bytes, &old, Instr::call(200));
    assert_eq!(delta, 1);
    assert_eq!(bytes, vec![0x10, 0xc8, 0x01, 0x0b]);
}

fn empty_code() -> Code {
    Code { size: Value::new(0), locals: vec![], body: Value::new(vec![Value::new(Instr::nop)]) }
}

fn two_imports_module() -> Module {
    let mut import = vec![0x03];
    for (name, kind) in [(&b"f"[..], 0x00u8), (&b"g"[..], 0x00), (&b"v"[..], 0x03)] {
        import.extend(sized(b"env"));
        import.extend(sized(name));
        if kind == 0x00 {
            import.extend([0x00, 0x00]);
        } else {
            import.extend([0x03, 0x7f, 0x00]);
        }
    }
    let bytes = module(&[
        section(1, &[0x01, 0x60, 0x00, 0x00]),
        section(2, &import),
        section(3, &[0x01, 0x00]),
        section(10, &[0x01, 0x02, 0x00, 0x0b]),
    ]);
    decode(&bytes).unwrap()
}

#[test]
fn add_function_indices_follow_imports() {
    let mut m = two_imports_module();
    let a = m.add_function(empty_code(), 0);
    let b = m.add_function(empty_code(), 0);
    let c = m.add_function(empty_code(), 0);
    assert_eq!((a, b, c), (3, 4, 5));
    match &m.sections[2] {
        Section::Func(_, funcs) => assert_eq!(funcs.len(), 4),
        other => panic!("unexpected section {:?}", other),
    }
    let again = decode(&encode(&m)).unwrap();
    assert_eq!(again.func_import_count(), 2);
    assert_eq!(again.defined_func_count(), 4);
}

#[test]
fn add_function_creates_sections() {
    let mut m = decode(&module(&[])).unwrap();
    let t = m.add_type(Type { params: vec![], results: vec![] });
    assert_eq!(t, 0);
    let f = m.add_function(empty_code(), t);
    assert_eq!(f, 0);
    assert!(matches!(m.sections[0], Section::Type(..)));
    assert!(matches!(m.sections[1], Section::Func(..)));
    assert!(matches!(m.sections[2], Section::Code(..)));
    let bytes = encode(&m);
    assert_eq!(
        bytes,
        module(&[
            section(1, &[0x01, 0x60, 0x00, 0x00]),
            section(3, &[0x01, 0x00]),
            section(10, &[0x01, 0x03, 0x00, 0x01, 0x0b]),
        ])
    );
}

#[test]
fn add_type_does_not_merge() {
    let mut m = two_imports_module();
    let t = Type { params: vec![ValueType::NumType(NumType::I32)], results: vec![] };
    let a = m.add_type(t.clone());
    let b = m.add_type(t);
    assert_eq!((a, b), (1, 2));
    assert_eq!(m.type_count(), 3);
}

#[test]
fn add_global_counts_imported_globals() {
    let mut m = two_imports_module();
    let g = Global {
        global_type: GlobalType { valtype: ValueType::NumType(NumType::I32), mutable: true },
        expr: vec![Value::new(Instr::i32_const(0))],
    };
    assert_eq!(m.add_global(g), 1);
    assert_eq!(m.defined_global_count(), 1);
    assert_eq!(m.global_import_count(), 1);
}

#[test]
fn add_data_returns_range() {
    let mut m = two_imports_module();
    let (start, end) = m.add_data(36, vec![1, 2, 3, 4]);
    assert_eq!((start, end), (36, 40));
    let again = decode(&encode(&m)).unwrap();
    match again.sections.last().unwrap() {
        Section::Data(_, segs) => {
            let seg: &DataSegment = &segs[0];
            assert_eq!(seg.compute_offset(), 36);
            assert_eq!(seg.bytes, vec![1, 2, 3, 4]);
        }
        other => panic!("unexpected section {:?}", other),
    }
}

#[test]
fn find_import_by_name() {
    let m = two_imports_module();
    assert_eq!(m.find_import(b"f"), Some(0));
    assert_eq!(m.find_import(b"g"), Some(1));
    assert_eq!(m.find_import(b"v"), None);
    assert_eq!(m.find_import(b"fd_write"), None);
}

#[test]
fn locals_flatten_one_entry_per_local() {
    let i32t = ValueType::NumType(NumType::I32);
    let i64t = ValueType::NumType(NumType::I64);
    let locals = vec![CodeLocal { count: 2, value_type: i32t }, CodeLocal { count: 1, value_type: i64t }];
    assert_eq!(locals_flatten(&locals, 15), vec![i32t, i32t, i64t]);
    assert_eq!(locals_flatten(&locals, 2), vec![i32t, i32t]);
    assert_eq!(locals_flatten(&vec![], 15), vec![]);
}
