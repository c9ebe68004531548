use wasm_edit::ast::{Instr, Section, Value};
use wasm_edit::parser::{decode, DecodeError};
use wasm_edit::printer::encode;
use wasm_edit::ToBytes;

fn uleb(v: u64) -> Vec<u8> {
    let mut b = Vec::new();
    leb128::write::unsigned(&mut b, v).unwrap();
    b
}

fn section(id: u8, payload: &[u8]) -> Vec<u8> {
    let mut b = vec![id];
    b.extend(uleb(payload.len() as u64));
    b.extend_from_slice(payload);
    b
}

fn sized(payload: &[u8]) -> Vec<u8> {
    let mut b = uleb(payload.len() as u64);
    b.extend_from_slice(payload);
    b
}

fn module(sections: &[Vec<u8>]) -> Vec<u8> {
    let mut b = vec![0x00, 0x61, 0x73, 0x6d, 0x01, 0x00, 0x00, 0x00];
    for s in sections {
        b.extend_from_slice(s);
    }
    b
}

fn code_section(bodies: &[Vec<u8>]) -> Vec<u8> {
    let mut payload = uleb(bodies.len() as u64);
    for body in bodies {
        payload.extend(sized(body));
    }
    section(10, &payload)
}

fn sample() -> Vec<u8> {
    let types = section(1, &[0x02, 0x60, 0x00, 0x00, 0x60, 0x01, 0x7f, 0x01, 0x7f]);
    let mut import = vec![0x01];
    import.extend(sized(b"wasi"));
    import.extend(sized(b"fd_write"));
    import.extend([0x00, 0x01]);
    let imports = section(2, &import);
    let funcs = section(3, &[0x02, 0x00, 0x01]);
    let tables = section(4, &[0x01, 0x70, 0x01, 0x01, 0x02]);
    let memory = section(5, &[0x01, 0x00, 0x01]);
    let globals = section(6, &[0x01, 0x7f, 0x01, 0x41, 0x00, 0x0b]);
    let mut export = vec![0x01];
    export.extend(sized(b"main"));
    export.extend([0x00, 0x01]);
    let exports = section(7, &export);
    let body0 = vec![
        0x01, 0x02, 0x7f, // two i32 locals
        0x02, 0x40, 0x41, 0x05, 0x1a, 0x0b, // block: i32.const 5, drop
        0x02, 0x40, 0x41, 0x00, 0x0e, 0x01, 0x00, 0x00, 0x0b, // block: br_table
        0x41, 0x01, 0x04, 0x40, 0x01, 0x05, 0x01, 0x0b, // if / else
        0x43, 0x00, 0x00, 0x80, 0x3f, 0x1a, // f32.const 1.0, drop
        0x44, 0x00, 0x00, 0x00, 0x00, 0x00, 0x00, 0xf0, 0x3f, 0x1a, // f64.const 1.0, drop
        0x42, 0x80, 0x80, 0x80, 0x80, 0x80, 0x80, 0x80, 0x80, 0x80, 0x7f, 0x1a, // i64.const min
        0x20, 0x00, 0x28, 0x02, 0x04, 0x21, 0x01, // local.get 0, i32.load, local.set 1
        0x3f, 0x00, 0x1a, // memory.size, drop
        0x0b,
    ];
    let body1 = vec![0x00, 0x20, 0x00, 0x40, 0x00, 0x0b];
    let codes = code_section(&[body0, body1]);
    let data = section(11, &[0x01, 0x00, 0x41, 0x08, 0x0b, 0x03, b'a', b'b', b'c']);
    let custom = section(0, &[0x01, b'x', 0x01, 0x02]);
    module(&[types, imports, funcs, tables, memory, globals, exports, codes, data, custom])
}

#[test]
fn round_trip_sample_module() {
    let bytes = sample();
    let m = decode(&bytes).unwrap();
    assert_eq!(m.sections.len(), 10);
    assert_eq!(encode(&m), bytes);
}

#[test]
fn round_trip_header_only() {
    let bytes = module(&[]);
    let m = decode(&bytes).unwrap();
    assert_eq!(m.sections.len(), 0);
    assert_eq!(encode(&m), bytes);
}

#[test]
fn unknown_section_kept_raw() {
    let bytes = sample();
    let m = decode(&bytes).unwrap();
    match &m.sections[9] {
        Section::Unknown(id, size, raw) => {
            assert_eq!(*id, 0);
            assert_eq!(*size, 4);
            assert_eq!(raw, &vec![0x01, b'x', 0x01, 0x02]);
        }
        other => panic!("unexpected section {:?}", other),
    }
}

#[test]
fn start_section_kept_raw() {
    let bytes = module(&[section(8, &[0x00])]);
    let m = decode(&bytes).unwrap();
    assert!(matches!(&m.sections[0], Section::Unknown(8, 1, raw) if raw == &vec![0x00]));
    assert_eq!(encode(&m), bytes);
}

#[test]
fn spans_of_memory_and_sizes() {
    let bytes = sample();
    let m = decode(&bytes).unwrap();
    match &m.sections[4] {
        Section::Memory(size, mems) => {
            assert_eq!(size.value, 3);
            assert_eq!(&bytes[size.start_offset..size.end_offset], &[0x03]);
            let min = &mems[0].initial_memory;
            assert_eq!(min.value, 1);
            assert_eq!(&bytes[min.start_offset..min.end_offset], &[0x01]);
            assert_eq!(mems[0].max, None);
        }
        other => panic!("unexpected section {:?}", other),
    }
}

#[test]
fn spans_of_instructions() {
    let bytes = sample();
    let m = decode(&bytes).unwrap();
    match &m.sections[7] {
        Section::Code(_, codes) => {
            let body = &codes[1].body.value;
            assert_eq!(body.len(), 2);
            assert!(matches!(body[0].value, Instr::local_get(0)));
            assert_eq!(&bytes[body[0].start_offset..body[0].end_offset], &[0x20, 0x00]);
            assert!(matches!(body[1].value, Instr::memory_grow(0)));
            assert_eq!(&bytes[body[1].start_offset..body[1].end_offset], &[0x40, 0x00]);
            let first = &codes[0].body.value[0];
            assert_eq!(&bytes[first.start_offset..first.end_offset], &[0x02, 0x40, 0x41, 0x05, 0x1a, 0x0b]);
            match &first.value {
                Instr::Block(0x40, nested) => {
                    assert_eq!(nested.len(), 2);
                    assert!(matches!(nested[0].value, Instr::i32_const(5)));
                    assert!(matches!(nested[1].value, Instr::drop));
                }
                other => panic!("unexpected instruction {:?}", other),
            }
            assert_eq!(codes[0].locals.len(), 1);
            assert_eq!(codes[0].locals[0].count, 2);
        }
        other => panic!("unexpected section {:?}", other),
    }
}

#[test]
fn immediates_decoded() {
    let bytes = sample();
    let m = decode(&bytes).unwrap();
    match &m.sections[7] {
        Section::Code(_, codes) => {
            let body = &codes[0].body.value;
            match &body[3].value {
                Instr::If(0x40, nested) => {
                    assert!(matches!(nested[0].value, Instr::nop));
                    assert!(matches!(nested[1].value, Instr::else_end));
                    assert!(matches!(nested[2].value, Instr::nop));
                }
                other => panic!("unexpected instruction {:?}", other),
            }
            assert!(matches!(body[4].value, Instr::f32_const(0x3f80_0000)));
            assert!(matches!(body[6].value, Instr::f64_const(0x3ff0_0000_0000_0000)));
            assert!(matches!(body[8].value, Instr::i64_const(i64::MIN)));
            assert!(matches!(body[11].value, Instr::i32_load(2, 4)));
            match &body[1].value {
                Instr::Block(_, nested) => {
                    assert!(matches!(&nested[1].value, Instr::br_table(targets, 0) if targets == &vec![0]));
                }
                other => panic!("unexpected instruction {:?}", other),
            }
        }
        other => panic!("unexpected section {:?}", other),
    }
}

#[test]
fn bad_magic() {
    let mut bytes = sample();
    bytes[1] = b'b';
    assert_eq!(decode(&bytes).unwrap_err(), DecodeError::BadMagic);
}

#[test]
fn bad_version() {
    let mut bytes = sample();
    bytes[4] = 2;
    assert_eq!(decode(&bytes).unwrap_err(), DecodeError::UnsupportedVersion);
}

#[test]
fn truncated_header() {
    assert_eq!(decode(&[0x00, 0x61, 0x73]).unwrap_err(), DecodeError::UnexpectedEnd);
    assert_eq!(decode(&[0x00, 0x61, 0x73, 0x6d, 0x01]).unwrap_err(), DecodeError::UnexpectedEnd);
}

#[test]
fn truncated_section() {
    let bytes = sample();
    let cut = &bytes[..bytes.len() - 2];
    assert_eq!(decode(cut).unwrap_err(), DecodeError::UnexpectedEnd);
}

#[test]
fn unknown_opcode() {
    let bytes = module(&[code_section(&[vec![0x00, 0xfe, 0x0b]])]);
    assert_eq!(decode(&bytes).unwrap_err(), DecodeError::UnknownOpcode(0xfe));
}

#[test]
fn non_minimal_integer() {
    let bytes = module(&[section(3, &[0x81, 0x00, 0x00])]);
    assert_eq!(decode(&bytes).unwrap_err(), DecodeError::InvalidInteger);
}

#[test]
fn integer_too_large() {
    let bytes = module(&[section(3, &[0x01, 0x80, 0x80, 0x80, 0x80, 0x10])]);
    assert_eq!(decode(&bytes).unwrap_err(), DecodeError::InvalidInteger);
}

#[test]
fn size_mismatch() {
    let bytes = module(&[section(3, &[0x01, 0x00, 0x00])]);
    assert_eq!(decode(&bytes).unwrap_err(), DecodeError::SizeMismatch);
}

#[test]
fn non_literal_data_offset() {
    let bytes = module(&[section(11, &[0x01, 0x00, 0x23, 0x00, 0x0b, 0x00])]);
    assert_eq!(decode(&bytes).unwrap_err(), DecodeError::NonLiteralOffset);
}

#[test]
fn unsupported_value_type() {
    let bytes = module(&[section(1, &[0x01, 0x60, 0x01, 0x7b, 0x00])]);
    assert_eq!(decode(&bytes).unwrap_err(), DecodeError::UnsupportedValueType(0x7b));
}

#[test]
fn unsupported_limits() {
    let bytes = module(&[section(5, &[0x01, 0x03, 0x01])]);
    assert_eq!(decode(&bytes).unwrap_err(), DecodeError::UnsupportedForm(0x03));
}

#[test]
fn varint_bytes() {
    assert_eq!(624485u32.to_bytes(), vec![0xe5, 0x8e, 0x26]);
    assert_eq!(0u32.to_bytes(), vec![0x00]);
    assert_eq!(127u32.to_bytes(), vec![0x7f]);
    assert_eq!(128u32.to_bytes(), vec![0x80, 0x01]);
    assert_eq!(u32::MAX.to_bytes(), vec![0xff, 0xff, 0xff, 0xff, 0x0f]);
}

#[test]
fn signed_varint_bytes() {
    assert_eq!(Instr::i32_const(-123456).to_bytes(), vec![0x41, 0xc0, 0xbb, 0x78]);
    assert_eq!(Instr::i32_const(-1).to_bytes(), vec![0x41, 0x7f]);
    assert_eq!(Instr::i32_const(63).to_bytes(), vec![0x41, 0x3f]);
    assert_eq!(Instr::i32_const(64).to_bytes(), vec![0x41, 0xc0, 0x00]);
    assert_eq!(Instr::i32_const(-64).to_bytes(), vec![0x41, 0x40]);
    assert_eq!(Instr::i32_const(-65).to_bytes(), vec![0x41, 0xbf, 0x7f]);
}

#[test]
fn varint_round_trip_through_decoder() {
    for v in [0i64, 1, -1, 63, 64, -64, -65, 1 << 40, i64::MAX, i64::MIN] {
        let mut body = vec![0x00, 0x42];
        leb128::write::signed(&mut body, v).unwrap();
        body.extend([0x1a, 0x0b]);
        let bytes = module(&[code_section(&[body])]);
        let m = decode(&bytes).unwrap();
        match &m.sections[0] {
            Section::Code(_, codes) => assert!(matches!(codes[0].body.value[0].value, Instr::i64_const(x) if x == v)),
            other => panic!("unexpected section {:?}", other),
        }
        assert_eq!(encode(&m), bytes);
    }
    for v in [0u64, 1, 127, 128, 16384, u32::MAX as u64] {
        let mut payload = vec![0x01];
        payload.extend(uleb(v));
        let bytes = module(&[section(3, &payload)]);
        let m = decode(&bytes).unwrap();
        assert!(matches!(&m.sections[0], Section::Func(_, idx) if idx == &vec![v as u32]));
        assert_eq!(encode(&m), bytes);
    }
}

#[test]
fn nested_instruction_bytes() {
    let i = Instr::Loop(0x40, vec![Value::new(Instr::br(0)), Value::new(Instr::call_indirect(1, 0))]);
    assert_eq!(i.to_bytes(), vec![0x03, 0x40, 0x0c, 0x00, 0x11, 0x01, 0x00, 0x0b]);
    assert_eq!(Instr::f64_const(0x3ff0_0000_0000_0000).to_bytes(), vec![0x44, 0, 0, 0, 0, 0, 0, 0xf0, 0x3f]);
}

#[test]
fn lookups_on_sample() {
    let m = decode(&sample()).unwrap();
    assert!(m.is_func_exported(1));
    assert!(!m.is_func_exported(0));
    assert!(!m.is_func_exported(2));
    assert_eq!(m.func_type_indices(), (vec![1, 0, 1], 1));
    let t = m.type_at(1).unwrap();
    assert_eq!(t.params.len(), 1);
    assert_eq!(t.results.len(), 1);
    assert!(m.type_at(2).is_none());
    assert_eq!(m.code_at(1).unwrap().body.value.len(), 2);
    assert!(m.code_at(2).is_none());
}
