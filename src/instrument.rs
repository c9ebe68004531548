//! The memory-growth pass: every `memory.grow` outside one injected wrapper
//! becomes a call to the wrapper, which reports the growth through
//! `fd_write` and then grows the memory itself.
use vstd::prelude::*;
use crate::ast::{Code, DataSegment, Import, Instr, Module, NumType, Section, Type, Value, ValueType};
use crate::encoding::le32;
use vstd::string::StringSliceAdditionalSpecFns;
use crate::model::{
    codes_of, count_func_imports, datas_of, exports_of, flat_map, func_count, funcs_of, globals_of, imports_of, types_of,
};
use crate::traverse::{
    InstrEdits, Visitor, VisitorContext, applied, body_funcidx, code_walked, flatten, fresh, is_block, piece_ok,
    rewritten, section_walked, stopped_before, traverse, walked_from,
};

verus! {

pub struct MemoryInstrument {
    /// The index of the wrapper function.
    instrument_func: u32,
}

impl MemoryInstrument {
    /// The wrapper is a function the pass allocated: never function 0, which
    /// exists before the pass (the `fd_write` import or an earlier function).
    #[verifier::type_invariant]
    spec fn allocated(self) -> bool {
        self.instrument_func > 0
    }

    /// The index of the wrapper function.
    pub closed spec fn wrapper(self) -> u32 {
        self.instrument_func
    }

    /// The pass for the wrapper at `instrument_func`.
    pub fn new(instrument_func: u32) -> (r: Self)
        requires
            instrument_func > 0,
        ensures
            r.wrapper() == instrument_func,
    {
        MemoryInstrument { instrument_func }
    }

    /// The index of the wrapper function.
    pub fn instrument_func(&self) -> (r: u32)
        ensures
            r == self.wrapper(),
    {
        self.instrument_func
    }
}

impl Visitor for MemoryInstrument {
    open spec fn new_section(&self, m: Module) -> Option<Section> {
        None
    }

    fn visit_module<'a>(&self, ctx: &mut VisitorContext<'a, Module>) {
    }

    open spec fn new_imports(&self, entries: Seq<Import>) -> Seq<Import> {
        Seq::empty()
    }

    fn visit_import_section<'a>(&self, ctx: &mut VisitorContext<'a, Vec<Import>>) {
        assert(flat_map(ctx.queued_before(), |x: Vec<Import>| x@) =~= Seq::<Import>::empty());
    }

    open spec fn new_types(&self, entries: Seq<Type>) -> Seq<Type> {
        Seq::empty()
    }

    fn visit_type_section<'a>(&self, ctx: &mut VisitorContext<'a, Vec<Type>>) {
        assert(flat_map(ctx.queued_after(), |x: Vec<Type>| x@) =~= Seq::<Type>::empty());
    }

    open spec fn new_funcs(&self, entries: Seq<u32>) -> Seq<u32> {
        Seq::empty()
    }

    fn visit_func_section<'a>(&self, ctx: &mut VisitorContext<'a, Vec<u32>>) {
        assert(flat_map(ctx.queued_after(), |x: Vec<u32>| x@) =~= Seq::<u32>::empty());
    }

    open spec fn new_codes(&self, entries: Seq<Code>) -> Seq<Code> {
        Seq::empty()
    }

    fn visit_code_section<'a>(&self, ctx: &mut VisitorContext<'a, Vec<Code>>) {
        assert(flat_map(ctx.queued_after(), |x: Vec<Code>| x@) =~= Seq::<Code>::empty());
    }

    open spec fn new_datas(&self, entries: Seq<DataSegment>) -> Seq<DataSegment> {
        Seq::empty()
    }

    fn visit_data_section<'a>(&self, ctx: &mut VisitorContext<'a, Vec<DataSegment>>) {
        assert(flat_map(ctx.queued_after(), |x: Vec<DataSegment>| x@) =~= Seq::<DataSegment>::empty());
    }

    open spec fn instr_edits(&self, funcidx: u32, instr: Instr) -> InstrEdits {
        if instr is memory_grow && funcidx != self.wrapper() {
            (Seq::empty(), Some(Instr::call(self.wrapper())), Seq::empty(), false)
        } else {
            (Seq::empty(), None, Seq::empty(), false)
        }
    }

    fn visit_instr<'a>(&self, ctx: &mut VisitorContext<'a, Value<Instr>>) {
        let funcidx = match ctx.curr_funcidx() {
            Some(f) => f,
            None => 0,
        };
        if matches!(ctx.node().value, Instr::memory_grow(_)) && funcidx != self.instrument_func {
            // Every call site but the wrapper's own calls the wrapper.
            ctx.replace_node(Instr::call(self.instrument_func));
        }
    }
}

/// No `memory.grow` stands in `s`, at any depth.
pub open spec fn grow_free(s: Seq<Value<Instr>>) -> bool
    decreases s, 1int,
{
    forall|i: int| 0 <= i < s.len() ==> instr_grow_free(#[trigger] s[i])
}

pub open spec fn instr_grow_free(x: Value<Instr>) -> bool
    decreases x, 0int,
{
    match x.value {
        Instr::memory_grow(_) => false,
        Instr::Block(_, b) => grow_free(b@),
        Instr::Loop(_, b) => grow_free(b@),
        Instr::If(_, b) => grow_free(b@),
        _ => true,
    }
}

proof fn lemma_flatten_grow_free(pieces: Seq<Seq<Value<Instr>>>)
    requires
        forall|i: int| 0 <= i < pieces.len() ==> grow_free(#[trigger] pieces[i]),
    ensures
        grow_free(flatten(pieces)),
    decreases pieces.len(),
{
    if pieces.len() > 0 {
        lemma_flatten_grow_free(pieces.drop_last());
        let a = flatten(pieces.drop_last());
        let b = pieces.last();
        assert(flatten(pieces) == a + b);
        assert forall|i: int| 0 <= i < (a + b).len() implies instr_grow_free(#[trigger] (a + b)[i]) by {
            if i < a.len() {
                assert((a + b)[i] == a[i]);
            } else {
                assert((a + b)[i] == b[i - a.len()]);
            }
        }
    } else {
        assert(flatten(pieces) =~= Seq::<Value<Instr>>::empty());
    }
}

/// Outside the wrapper, the pass leaves no `memory.grow` in a walked list.
pub proof fn lemma_walked_grow_free(v: MemoryInstrument, f: u32, old: Seq<Value<Instr>>, new: Seq<Value<Instr>>)
    requires
        rewritten(v, f, old, new),
        f != v.wrapper(),
    ensures
        grow_free(new),
    decreases old,
{
    let pieces = choose|pieces: Seq<Seq<Value<Instr>>>|
        #![trigger flatten(pieces)]
        pieces.len() == old.len() && new == flatten(pieces) && forall|i: int|
            0 <= i < old.len() ==> piece_ok(v, f, #[trigger] old[i], pieces[i], stopped_before(v, f, old, i));
    assert forall|i: int| 0 <= i < pieces.len() implies grow_free(#[trigger] pieces[i]) by {
        assert(piece_ok(v, f, old[i], pieces[i], stopped_before(v, f, old, i)));
        assert(!stopped_before(v, f, old, i));
        let x = old[i];
        assert(decreases_to!(old => old[i]));
        match x.value {
            Instr::Block(_, b) => {
                match pieces[i][0].value {
                    Instr::Block(_, b2) => {
                        lemma_walked_grow_free(v, f, b@, b2@);
                    },
                    _ => {},
                }
                assert(instr_grow_free(pieces[i][0]));
            },
            Instr::Loop(_, b) => {
                match pieces[i][0].value {
                    Instr::Loop(_, b2) => {
                        lemma_walked_grow_free(v, f, b@, b2@);
                    },
                    _ => {},
                }
                assert(instr_grow_free(pieces[i][0]));
            },
            Instr::If(_, b) => {
                match pieces[i][0].value {
                    Instr::If(_, b2) => {
                        lemma_walked_grow_free(v, f, b@, b2@);
                    },
                    _ => {},
                }
                assert(instr_grow_free(pieces[i][0]));
            },
            _ => {
                assert(applied(pieces[i], x, v.instr_edits(f, x.value)));
                assert(pieces[i].len() == 1);
                assert(instr_grow_free(pieces[i][0]));
            },
        }
    }
    lemma_flatten_grow_free(pieces);
}

/// Every body of `m` but those with index `w` is free of `memory.grow`.
pub open spec fn grow_free_outside(m: Module, w: u32) -> bool {
    forall|j: int, k: int|
        #![trigger body_funcidx(m, j, k)]
        0 <= j < m.sections@.len() && m.sections@[j] is Code && 0 <= k < (m.sections@[j] -> Code_1)@.len()
            && body_funcidx(m, j, k) != w ==> grow_free((m.sections@[j] -> Code_1)@[k].body.value@)
}

/// The bytes of the name `fd_write`.
pub open spec fn fd_write_name() -> Seq<u8> {
    seq![0x66u8, 0x64u8, 0x5fu8, 0x77u8, 0x72u8, 0x69u8, 0x74u8, 0x65u8]
}

/// `imports` hold a function named `name`.
pub open spec fn imports_function(imports: Seq<Import>, name: Seq<u8>) -> bool {
    exists|j: int| 0 <= j < imports.len() && (#[trigger] imports[j]).import_type is Func && imports[j].name@ == name
}

/// The bytes of the message `called memory.grow\n`.
pub open spec fn message_bytes() -> Seq<u8> {
    seq![0x63u8, 0x61u8, 0x6cu8, 0x6cu8, 0x65u8, 0x64u8, 0x20u8, 0x6du8, 0x65u8, 0x6du8, 0x6fu8, 0x72u8, 0x79u8,
        0x2eu8, 0x67u8, 0x72u8, 0x6fu8, 0x77u8, 0x0au8]
}

/// `x` is the index of the first imported function named `name`.
pub open spec fn first_import_named(imports: Seq<Import>, name: Seq<u8>, x: u32) -> bool {
    exists|j: int|
        0 <= j < imports.len() && (#[trigger] imports[j]).name@ == name && imports[j].import_type is Func
            && x == count_func_imports(imports.take(j)) && forall|i: int|
            0 <= i < j && (#[trigger] imports[i]).import_type is Func ==> imports[i].name@ != name
}

/// The wrapper's instructions: write the message through `fd_write`, then
/// grow the memory by the requested pages.
pub open spec fn wrapper_body(fd_write: u32) -> Seq<Value<Instr>> {
    seq![
        fresh(Instr::i32_const(1)),
        fresh(Instr::i32_const(36)),
        fresh(Instr::i32_const(1)),
        fresh(Instr::i32_const(0)),
        fresh(Instr::call(fd_write)),
        fresh(Instr::drop),
        fresh(Instr::local_get(0)),
        fresh(Instr::memory_grow(0)),
    ]
}

/// `mid` is `m` with the pass's pieces appended and nothing else changed: a
/// data segment at offset 36 holding the I/O vector of the message, the type
/// `(i32) -> i32`, and the wrapper of that type.
pub open spec fn wrapper_added(m: Module, mid: Module, fd_write: u32) -> bool {
    &&& imports_of(mid) == imports_of(m)
    &&& exports_of(mid) == exports_of(m)
    &&& globals_of(mid) == globals_of(m)
    &&& types_of(mid).len() == types_of(m).len() + 1
    &&& types_of(mid).take(types_of(m).len() as int) == types_of(m)
    &&& types_of(mid).last().params@ == seq![ValueType::NumType(NumType::I32)]
    &&& types_of(mid).last().results@ == seq![ValueType::NumType(NumType::I32)]
    &&& funcs_of(mid) == funcs_of(m).push(types_of(m).len() as u32)
    &&& codes_of(mid).len() == codes_of(m).len() + 1
    &&& codes_of(mid).take(codes_of(m).len() as int) == codes_of(m)
    &&& codes_of(mid).last().locals@.len() == 0
    &&& codes_of(mid).last().body.value@ == wrapper_body(fd_write)
    &&& datas_of(mid).len() == datas_of(m).len() + 1
    &&& datas_of(mid).take(datas_of(m).len() as int) == datas_of(m)
    &&& datas_of(mid).last().offset.value@ == seq![fresh(Instr::i32_const(36))]
    &&& datas_of(mid).last().bytes@ == le32(44) + le32(19) + message_bytes()
}

/// The wrapper's own body, which holds no block, is left exactly as it is by
/// the walk: the pass queues nothing inside the wrapper.
pub proof fn lemma_own_body_kept(v: MemoryInstrument, old: Seq<Value<Instr>>, new: Seq<Value<Instr>>)
    requires
        rewritten(v, v.wrapper(), old, new),
        forall|k: int| 0 <= k < old.len() ==> !is_block(#[trigger] old[k].value),
    ensures
        new == old,
{
    let f = v.wrapper();
    let pieces = choose|pieces: Seq<Seq<Value<Instr>>>|
        #![trigger flatten(pieces)]
        pieces.len() == old.len() && new == flatten(pieces) && forall|i: int|
            0 <= i < old.len() ==> piece_ok(v, f, #[trigger] old[i], pieces[i], stopped_before(v, f, old, i));
    assert forall|i: int| 0 <= i < pieces.len() implies #[trigger] pieces[i] == seq![old[i]] by {
        assert(piece_ok(v, f, old[i], pieces[i], stopped_before(v, f, old, i)));
        assert(!is_block(old[i].value));
        if !stopped_before(v, f, old, i) {
            assert(applied(pieces[i], old[i], v.instr_edits(f, old[i].value)));
            assert(pieces[i] =~= seq![old[i]]);
        }
    }
    lemma_flatten_singletons(pieces, old);
}

proof fn lemma_flatten_singletons(pieces: Seq<Seq<Value<Instr>>>, s: Seq<Value<Instr>>)
    requires
        pieces.len() == s.len(),
        forall|i: int| 0 <= i < pieces.len() ==> #[trigger] pieces[i] == seq![s[i]],
    ensures
        flatten(pieces) == s,
    decreases s.len(),
{
    if s.len() == 0 {
        assert(flatten(pieces) =~= s);
    } else {
        lemma_flatten_singletons(pieces.drop_last(), s.drop_last());
        assert(pieces[pieces.len() - 1] == seq![s[s.len() - 1]]);
        assert(flatten(pieces) =~= s);
    }
}

/// The pass for the wrapper at `w`.
pub closed spec fn pass_for(w: u32) -> MemoryInstrument {
    MemoryInstrument { instrument_func: w }
}

pub proof fn lemma_pass_for(w: u32)
    ensures
        pass_for(w).wrapper() == w,
{
}

/// An imported function counts in the function space: it is not empty.
proof fn lemma_import_counted(imports: Seq<Import>, name: Seq<u8>, x: u32)
    requires
        first_import_named(imports, name, x),
    ensures
        count_func_imports(imports) >= 1,
    decreases imports.len(),
{
    let j = choose|j: int|
        0 <= j < imports.len() && (#[trigger] imports[j]).name@ == name && imports[j].import_type is Func
            && x == count_func_imports(imports.take(j)) && forall|i: int|
            0 <= i < j && (#[trigger] imports[i]).import_type is Func ==> imports[i].name@ != name;
    lemma_func_import_pos(imports, j);
}

proof fn lemma_func_import_pos(imports: Seq<Import>, j: int)
    requires
        0 <= j < imports.len(),
        imports[j].import_type is Func,
    ensures
        count_func_imports(imports) >= 1,
    decreases imports.len(),
{
    if j < imports.len() - 1 {
        lemma_func_import_pos(imports.drop_last(), j);
    }
}

/// Why the memory-growth pass could not run.
#[derive(Debug, Clone, Copy, PartialEq, Eq, Structural)]
pub enum InstrumentError {
    /// The module imports no function named `fd_write`.
    MissingFdWrite,
}

/// Injects the wrapper (after a data segment with its message and a type
/// `(i32) -> i32`) and walks the module with `MemoryInstrument`. Gives the
/// wrapper's index; afterwards no body but the wrapper's holds a
/// `memory.grow`. Fails, changing nothing, when `fd_write` is not imported.
pub fn transform(module: &mut Module) -> (r: Result<u32, InstrumentError>)
    requires
        imports_of(*old(module)).len() + funcs_of(*old(module)).len() < 0xffff_ffff,
        types_of(*old(module)).len() < 0xffff_ffff,
    ensures
        r is Err <==> !imports_function(imports_of(*old(module)), fd_write_name()),
        r is Err ==> *final(module) == *old(module),
        r matches Ok(w) ==> {
            &&& w == func_count(*old(module))
            &&& grow_free_outside(*final(module), w)
            &&& imports_of(*final(module)) == imports_of(*old(module))
            &&& funcs_of(*final(module)) == funcs_of(*old(module)).push(types_of(*old(module)).len() as u32)
            &&& types_of(*final(module)).len() == types_of(*old(module)).len() + 1
            &&& types_of(*final(module)).take(types_of(*old(module)).len() as int) == types_of(*old(module))
            &&& types_of(*final(module)).last().params@ == seq![ValueType::NumType(NumType::I32)]
            &&& types_of(*final(module)).last().results@ == seq![ValueType::NumType(NumType::I32)]
            &&& exists|mid: Module, fd: u32|
                #![trigger wrapper_added(*old(module), mid, fd)]
                first_import_named(imports_of(*old(module)), fd_write_name(), fd) && wrapper_added(*old(module), mid, fd)
                    && walked_from(pass_for(w), mid.sections@, *final(module))
        },
{
    let fd_write_str = "fd_write";
    proof {
        reveal_strlit("fd_write");
        assert(vstd::string::is_ascii(fd_write_str));
        vstd::string::is_ascii_spec_bytes(fd_write_str);
        assert(fd_write_str.spec_bytes() =~= fd_write_name());
    }
    let fd_write = match module.find_import(fd_write_str.as_bytes()) {
        Some(f) => f,
        None => {
            return Err(InstrumentError::MissingFdWrite);
        },
    };
    let ghost m0 = *module;
    let message = "called memory.grow\n";
    proof {
        reveal_strlit("called memory.grow\n");
        assert(vstd::string::is_ascii(message));
        vstd::string::is_ascii_spec_bytes(message);
        assert(message.spec_bytes() =~= message_bytes());
    }
    let text = crate::wasi::str(36, message);
    let (text_offset, _text_end) = module.add_data(36, text);
    let ghost m_data = *module;
    let t = Type {
        params: vec![ValueType::NumType(NumType::I32)],
        results: vec![ValueType::NumType(NumType::I32)],
    };
    let ghost t2 = t;
    assert(t.params@ =~= seq![ValueType::NumType(NumType::I32)]);
    assert(t.results@ =~= seq![ValueType::NumType(NumType::I32)]);
    let typeidx = module.add_type(t);
    assert(typeidx == types_of(m0).len());
    assert(types_of(*module) == types_of(m0).push(t2));
    let body = vec![
        Value::new(Instr::i32_const(1)),
        Value::new(Instr::i32_const(text_offset as i64)),
        Value::new(Instr::i32_const(1)),
        Value::new(Instr::i32_const(0)),
        Value::new(Instr::call(fd_write)),
        Value::new(Instr::drop),
        Value::new(Instr::local_get(0)),
        Value::new(Instr::memory_grow(0)),
    ];
    assert(body@ =~= wrapper_body(fd_write));
    let func = Code { locals: Vec::new(), size: Value::new(0), body: Value::new(body) };
    let ghost func2 = func;
    let instrument_func = module.add_function(func, typeidx);
    assert(funcs_of(*module) == funcs_of(m0).push(typeidx));
    assert(imports_of(*module) == imports_of(m0));
    assert(types_of(*module) == types_of(m0).push(t2));
    proof { lemma_import_counted(imports_of(m0), fd_write_name(), fd_write); }
    let visitor = MemoryInstrument::new(instrument_func);
    let ghost mpre = *module;
    traverse(module, &visitor);
    proof {
        let fin = *module;
        let n = fin.sections@.len();
        let wf = choose|wf: Seq<Section>|
            #![trigger wf.take(mpre.sections@.len() as int)]
            wf.len() == n && wf.take(mpre.sections@.len() as int) == mpre.sections@ && forall|j: int|
                0 <= j < wf.len() ==> section_walked(visitor, #[trigger] wf[j], fin.sections@[j], fin, j);
        assert forall|j: int, k: int|
            #![trigger body_funcidx(fin, j, k)]
            0 <= j < fin.sections@.len() && fin.sections@[j] is Code && 0 <= k < (fin.sections@[j] -> Code_1)@.len()
                && body_funcidx(fin, j, k) != instrument_func implies grow_free((fin.sections@[j] -> Code_1)@[k].body.value@) by {
            assert(section_walked(visitor, wf[j], fin.sections@[j], fin, j));
            let y = fin.sections@[j] -> Code_1;
            let x = wf[j] -> Code_1;
            let grown = x@ + visitor.new_codes(x@);
            assert(code_walked(visitor, grown[k], y@[k], body_funcidx(fin, j, k)));
            lemma_walked_grow_free(visitor, body_funcidx(fin, j, k), grown[k].body.value@, y@[k].body.value@);
        }
        assert(walked_from(visitor, wf, fin));
        assert(visitor == pass_for(instrument_func));
        assert(grow_free_outside(fin, instrument_func));
        assert(codes_of(mpre) == codes_of(m0).push(func2));
        assert(codes_of(mpre).take(codes_of(m0).len() as int) =~= codes_of(m0));
        assert(datas_of(mpre) == datas_of(m_data));
        assert(types_of(mpre).take(types_of(m0).len() as int) =~= types_of(m0));
        assert(wrapper_added(m0, mpre, fd_write));
        assert(walked_from(pass_for(instrument_func), mpre.sections@, fin));
        assert(wf == mpre.sections@);
        crate::traverse::lemma_walk_keeps_entries(visitor, wf, fin);
        assert(types_of(fin).take(types_of(m0).len() as int) =~= types_of(m0));
    }
    Ok(instrument_func)
}

} // verus!
