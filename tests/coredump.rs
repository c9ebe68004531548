use wasm_edit::ast::{Instr, Module, Section, Value};
use wasm_edit::coredump::{get_runtime, transform, CoredumpError};
use wasm_edit::parser::decode;
use wasm_edit::printer::encode;

fn uleb(v: u64) -> Vec<u8> {
    let mut b = Vec::new();
    leb128::write::unsigned(&mut b, v).unwrap();
    b
}

fn section(id: u8, payload: &[u8]) -> Vec<u8> {
    let mut b = vec![id];
    b.extend(uleb(payload.len() as u64));
    b.extend_from_slice(payload);
    b
}

fn sized(payload: &[u8]) -> Vec<u8> {
    let mut b = uleb(payload.len() as u64);
    b.extend_from_slice(payload);
    b
}

fn module(sections: &[Vec<u8>]) -> Vec<u8> {
    let mut b = vec![0x00, 0x61, 0x73, 0x6d, 0x01, 0x00, 0x00, 0x00];
    for s in sections {
        b.extend_from_slice(s);
    }
    b
}

/// A runtime exporting set_frame0..29 and write_coredump, each `nop`.
fn runtime_bytes() -> Vec<u8> {
    let n = 31u64;
    let mut funcs = uleb(n);
    let mut exports = uleb(n);
    let mut codes = uleb(n);
    for i in 0..n {
        funcs.push(0x00);
        let name = if i < 30 { format!("set_frame{}", i) } else { "write_coredump".to_string() };
        exports.extend(sized(name.as_bytes()));
        exports.push(0x00);
        exports.extend(uleb(i));
        codes.extend(sized(&[0x00, 0x01, 0x0b]));
    }
    module(&[
        section(1, &[0x01, 0x60, 0x00, 0x00]),
        section(3, &funcs),
        section(7, &exports),
        section(10, &codes),
    ])
}

/// Function A (index 0) traps; function B (index 1, exported) calls A.
fn two_functions() -> Vec<u8> {
    let mut export = vec![0x01];
    export.extend(sized(b"b"));
    export.extend([0x00, 0x01]);
    let mut codes = vec![0x02];
    codes.extend(sized(&[0x00, 0x00, 0x0b]));
    codes.extend(sized(&[0x00, 0x10, 0x00, 0x0b]));
    module(&[
        section(1, &[0x01, 0x60, 0x00, 0x00]),
        section(3, &[0x02, 0x00, 0x00]),
        section(7, &export),
        section(10, &codes),
    ])
}

fn codes(m: &Module) -> &Vec<wasm_edit::ast::Code> {
    for s in &m.sections {
        if let Section::Code(_, c) = s {
            return c;
        }
    }
    panic!("no code section")
}

fn values(body: &[Value<Instr>]) -> Vec<String> {
    body.iter().map(|v| format!("{:?}", v.value)).collect()
}

#[test]
fn coredump_helpers_indices() {
    let runtime = get_runtime(&runtime_bytes()).unwrap();
    let mut m = decode(&two_functions()).unwrap();
    let pass = transform(&mut m, &runtime).unwrap();
    assert_eq!(pass.is_unwinding, 0);
    assert_eq!(pass.unreachable_shim, 2);
    assert_eq!(pass.set_frame_funcs.len(), 30);
    assert_eq!(pass.set_frame_funcs[0], 3);
    assert_eq!(pass.set_frame_funcs[29], 32);
    assert_eq!(pass.write_coredump, 33);
    assert_eq!(codes(&m).len(), 34);
}

#[test]
fn coredump_trap_records_frame_and_returns() {
    let runtime = get_runtime(&runtime_bytes()).unwrap();
    let mut m = decode(&two_functions()).unwrap();
    let pass = transform(&mut m, &runtime).unwrap();
    let a = &codes(&m)[0].body.value;
    assert_eq!(
        values(a),
        vec![
            format!("{:?}", Instr::call(pass.unreachable_shim)),
            format!("{:?}", Instr::i32_const(0)),
            format!("{:?}", Instr::call(pass.set_frame_funcs[0])),
            format!("{:?}", Instr::Return),
        ]
    );
}

#[test]
fn coredump_call_checks_unwinding_at_the_edge() {
    let runtime = get_runtime(&runtime_bytes()).unwrap();
    let mut m = decode(&two_functions()).unwrap();
    let pass = transform(&mut m, &runtime).unwrap();
    let b = &codes(&m)[1].body.value;
    assert_eq!(b.len(), 3);
    assert!(matches!(b[0].value, Instr::call(0)));
    assert!(matches!(b[1].value, Instr::global_get(g) if g == pass.is_unwinding));
    match &b[2].value {
        Instr::If(0x40, body) => assert_eq!(
            values(body),
            vec![
                format!("{:?}", Instr::i32_const(1)),
                format!("{:?}", Instr::call(pass.set_frame_funcs[0])),
                format!("{:?}", Instr::call(pass.write_coredump)),
                format!("{:?}", Instr::unreachable),
            ]
        ),
        other => panic!("unexpected instruction {:?}", other),
    }
    let again = decode(&encode(&m)).unwrap();
    assert_eq!(codes(&again).len(), 34);
}

#[test]
fn coredump_records_locals_and_fills_results() {
    // (i32) -> i64 with locals i64, f32; calls itself, not exported.
    let mut codes_payload = vec![0x01];
    codes_payload.extend(sized(&[0x02, 0x01, 0x7e, 0x01, 0x7d, 0x10, 0x00, 0x42, 0x00, 0x0b]));
    let bytes = module(&[
        section(1, &[0x01, 0x60, 0x01, 0x7f, 0x01, 0x7e]),
        section(3, &[0x01, 0x00]),
        section(10, &codes_payload),
    ]);
    let runtime = get_runtime(&runtime_bytes()).unwrap();
    let mut m = decode(&bytes).unwrap();
    let pass = transform(&mut m, &runtime).unwrap();
    let body = &codes(&m)[0].body.value;
    match &body[2].value {
        Instr::If(0x40, check) => assert_eq!(
            values(check),
            vec![
                format!("{:?}", Instr::i32_const(0)),
                format!("{:?}", Instr::i32_const(669)),
                format!("{:?}", Instr::local_get(1)),
                format!("{:?}", Instr::i32_wrap_i64),
                format!("{:?}", Instr::local_get(2)),
                format!("{:?}", Instr::i32_trunc_f32_u),
                format!("{:?}", Instr::call(pass.set_frame_funcs[3])),
                format!("{:?}", Instr::i64_const(667)),
                format!("{:?}", Instr::Return),
            ]
        ),
        other => panic!("unexpected instruction {:?}", other),
    }
}

#[test]
fn coredump_needs_runtime_helpers() {
    let runtime = decode(&module(&[])).unwrap();
    let bytes = two_functions();
    let mut m = decode(&bytes).unwrap();
    assert!(matches!(transform(&mut m, &runtime), Err(CoredumpError::MissingRuntimeExport)));
    assert_eq!(encode(&m), bytes);
}

#[test]
fn coredump_rejects_too_many_values() {
    let mut ty = vec![0x01, 0x60, 30];
    ty.extend(std::iter::repeat(0x7f).take(30));
    ty.push(0x00);
    let bytes = module(&[
        section(1, &ty),
        section(3, &[0x01, 0x00]),
        section(10, &[0x01, 0x03, 0x00, 0x00, 0x0b]),
    ]);
    let runtime = get_runtime(&runtime_bytes()).unwrap();
    let mut m = decode(&bytes).unwrap();
    assert!(matches!(transform(&mut m, &runtime), Err(CoredumpError::UnsupportedLocalCount(30))));
    assert_eq!(encode(&m), bytes);
}

#[test]
fn coredump_accepts_large_frames_without_traps_or_calls() {
    let mut ty = vec![0x01, 0x60, 30];
    ty.extend(std::iter::repeat(0x7f).take(30));
    ty.push(0x00);
    let bytes = module(&[
        section(1, &ty),
        section(3, &[0x01, 0x00]),
        section(10, &[0x01, 0x02, 0x00, 0x0b]),
    ]);
    let runtime = get_runtime(&runtime_bytes()).unwrap();
    let mut m = decode(&bytes).unwrap();
    let pass = transform(&mut m, &runtime).unwrap();
    assert_eq!(pass.write_coredump, 32);
    assert!(codes(&m)[0].body.value.is_empty());
}

#[test]
fn coredump_rejects_functions_without_bodies() {
    let bytes = module(&[section(1, &[0x01, 0x60, 0x00, 0x00]), section(3, &[0x01, 0x00])]);
    let runtime = get_runtime(&runtime_bytes()).unwrap();
    let mut m = decode(&bytes).unwrap();
    assert!(matches!(transform(&mut m, &runtime), Err(CoredumpError::MalformedModule)));
    assert_eq!(encode(&m), bytes);
}
