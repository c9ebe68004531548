//! The traversal engine: a single walk over the module in which passes look
//! at nodes and queue edits. The edits of a list are applied to a new list
//! built alongside the walk, never to the list being walked.
use vstd::prelude::*;
use crate::ast::{Code, DataSegment, Import, Instr, Module, Section, Type, Value};
use crate::model::{
    count_func_imports, flat_map, lemma_flat_map_push, section_codes, section_funcs, section_imports, section_types,
};

verus! {

/// A view of one node and the edits queued at it.
pub struct VisitorContext<'a, T> {
    insert_nodes_after: Vec<T>,
    insert_nodes_before: Vec<T>,
    replace_node: Option<T>,
    insert_new_section: Option<Section>,
    stop: bool,
    curr_funcidx: Option<u32>,
    node: &'a T,
}

impl<'a, T> VisitorContext<'a, T> {
    pub closed spec fn queued_after(&self) -> Seq<T> {
        self.insert_nodes_after@
    }

    pub closed spec fn queued_before(&self) -> Seq<T> {
        self.insert_nodes_before@
    }

    pub closed spec fn queued_replacement(&self) -> Option<T> {
        self.replace_node
    }

    pub closed spec fn queued_section(&self) -> Option<Section> {
        self.insert_new_section
    }

    pub closed spec fn stopped(&self) -> bool {
        self.stop
    }

    /// The node this context views.
    pub closed spec fn current(&self) -> T {
        *self.node
    }

    /// The index of the function that holds the node, if it is in one.
    pub closed spec fn funcidx(&self) -> Option<u32> {
        self.curr_funcidx
    }

    /// The node this context views.
    pub fn node(&self) -> (r: &'a T)
        ensures
            *r == self.current(),
    {
        self.node
    }

    /// The index of the function that holds the node, if it is in one.
    pub fn curr_funcidx(&self) -> (r: Option<u32>)
        ensures
            r == self.funcidx(),
    {
        self.curr_funcidx
    }

    /// The nodes queued to go before this one.
    pub fn inserted_before(&self) -> (r: &Vec<T>)
        ensures
            r@ == self.queued_before(),
    {
        &self.insert_nodes_before
    }

    /// The nodes queued to go after this one.
    pub fn inserted_after(&self) -> (r: &Vec<T>)
        ensures
            r@ == self.queued_after(),
    {
        &self.insert_nodes_after
    }

    /// The queued replacement of this node.
    pub fn replacement(&self) -> (r: &Option<T>)
        ensures
            *r == self.queued_replacement(),
    {
        &self.replace_node
    }

    /// The queued new section.
    pub fn new_section(&self) -> (r: &Option<Section>)
        ensures
            *r == self.queued_section(),
    {
        &self.insert_new_section
    }

    /// Whether the rest of the list is to be left unvisited.
    pub fn is_stopped(&self) -> (r: bool)
        ensures
            r == self.stopped(),
    {
        self.stop
    }

    /// Nothing is queued yet.
    pub open spec fn is_fresh(&self) -> bool {
        &&& self.queued_after().len() == 0
        &&& self.queued_before().len() == 0
        &&& self.queued_replacement() is None
        &&& self.queued_section() is None
        &&& !self.stopped()
    }

    /// A context for `node` with nothing queued.
    pub fn new(node: &'a T) -> (r: Self)
        ensures
            r.is_fresh(),
            r.current() == *node,
            r.funcidx() is None,
    {
        VisitorContext {
            node,
            insert_nodes_after: Vec::new(),
            insert_nodes_before: Vec::new(),
            insert_new_section: None,
            replace_node: None,
            stop: false,
            curr_funcidx: None,
        }
    }
}

impl<'a> VisitorContext<'a, Module> {
    /// Queues a section to append to the module.
    pub fn insert_new_section(&mut self, new_node: Section)
        ensures
            final(self).queued_section() == Some(new_node),
            final(self).queued_after() == old(self).queued_after(),
            final(self).queued_before() == old(self).queued_before(),
            final(self).queued_replacement() == old(self).queued_replacement(),
            final(self).stopped() == old(self).stopped(),
            final(self).current() == old(self).current(),
            final(self).funcidx() == old(self).funcidx(),
    {
        self.insert_new_section = Some(new_node);
    }
}

// Each section container allows the one edit its kind supports: imports
// are only added in front (already referenced indices stay put), the other
// growable sections only at their end. Other edits cannot be written.
impl<'a> VisitorContext<'a, Vec<Import>> {
    /// Queues an import to add before the existing imports.
    pub fn insert_node_before(&mut self, new_node: Import)
        ensures
            final(self).queued_before().len() == old(self).queued_before().len() + 1,
            final(self).queued_before().drop_last() == old(self).queued_before(),
            final(self).queued_before().last()@ == seq![new_node],
            final(self).queued_after() == old(self).queued_after(),
            final(self).current() == old(self).current(),
            final(self).funcidx() == old(self).funcidx(),
    {
        self.insert_nodes_before.push(vec![new_node]);
        assert(self.insert_nodes_before@.drop_last() =~= old(self).insert_nodes_before@);
    }
}

impl<'a> VisitorContext<'a, Vec<Type>> {
    /// Queues a type to add after the existing entries of the section.
    pub fn insert_node_after(&mut self, new_node: Type)
        ensures
            final(self).queued_after().len() == old(self).queued_after().len() + 1,
            final(self).queued_after().drop_last() == old(self).queued_after(),
            final(self).queued_after().last()@ == seq![new_node],
            final(self).queued_before() == old(self).queued_before(),
            final(self).current() == old(self).current(),
            final(self).funcidx() == old(self).funcidx(),
    {
        self.insert_nodes_after.push(vec![new_node]);
        assert(self.insert_nodes_after@.drop_last() =~= old(self).insert_nodes_after@);
    }
}

impl<'a> VisitorContext<'a, Vec<u32>> {
    /// Queues a function's type index to add after the existing entries of the section.
    pub fn insert_node_after(&mut self, new_node: u32)
        ensures
            final(self).queued_after().len() == old(self).queued_after().len() + 1,
            final(self).queued_after().drop_last() == old(self).queued_after(),
            final(self).queued_after().last()@ == seq![new_node],
            final(self).queued_before() == old(self).queued_before(),
            final(self).current() == old(self).current(),
            final(self).funcidx() == old(self).funcidx(),
    {
        self.insert_nodes_after.push(vec![new_node]);
        assert(self.insert_nodes_after@.drop_last() =~= old(self).insert_nodes_after@);
    }
}

impl<'a> VisitorContext<'a, Vec<Code>> {
    /// Queues a body to add after the existing entries of the section.
    pub fn insert_node_after(&mut self, new_node: Code)
        ensures
            final(self).queued_after().len() == old(self).queued_after().len() + 1,
            final(self).queued_after().drop_last() == old(self).queued_after(),
            final(self).queued_after().last()@ == seq![new_node],
            final(self).queued_before() == old(self).queued_before(),
            final(self).current() == old(self).current(),
            final(self).funcidx() == old(self).funcidx(),
    {
        self.insert_nodes_after.push(vec![new_node]);
        assert(self.insert_nodes_after@.drop_last() =~= old(self).insert_nodes_after@);
    }
}

impl<'a> VisitorContext<'a, Vec<DataSegment>> {
    /// Queues a data segment to add after the existing entries of the section.
    pub fn insert_node_after(&mut self, new_node: DataSegment)
        ensures
            final(self).queued_after().len() == old(self).queued_after().len() + 1,
            final(self).queued_after().drop_last() == old(self).queued_after(),
            final(self).queued_after().last()@ == seq![new_node],
            final(self).queued_before() == old(self).queued_before(),
            final(self).current() == old(self).current(),
            final(self).funcidx() == old(self).funcidx(),
    {
        self.insert_nodes_after.push(vec![new_node]);
        assert(self.insert_nodes_after@.drop_last() =~= old(self).insert_nodes_after@);
    }
}

/// A node built in memory, not tied to source bytes.
pub open spec fn fresh(i: Instr) -> Value<Instr> {
    Value { value: i, start_offset: 0, end_offset: 0 }
}

impl<'a> VisitorContext<'a, Value<Instr>> {
    /// Queues an instruction to insert after this one.
    pub fn insert_node_after(&mut self, new_node: Instr)
        ensures
            final(self).queued_after() == old(self).queued_after().push(fresh(new_node)),
            final(self).queued_before() == old(self).queued_before(),
            final(self).queued_replacement() == old(self).queued_replacement(),
            final(self).stopped() == old(self).stopped(),
            final(self).current() == old(self).current(),
            final(self).funcidx() == old(self).funcidx(),
    {
        self.insert_nodes_after.push(Value::new(new_node));
    }

    /// Queues an instruction to insert before this one.
    pub fn insert_node_before(&mut self, new_node: Instr)
        ensures
            final(self).queued_before() == old(self).queued_before().push(fresh(new_node)),
            final(self).queued_after() == old(self).queued_after(),
            final(self).queued_replacement() == old(self).queued_replacement(),
            final(self).stopped() == old(self).stopped(),
            final(self).current() == old(self).current(),
            final(self).funcidx() == old(self).funcidx(),
    {
        self.insert_nodes_before.push(Value::new(new_node));
    }

    /// Replaces this instruction; the replacement has no source span.
    pub fn replace_node(&mut self, new_node: Instr)
        ensures
            final(self).queued_replacement() == Some(fresh(new_node)),
            final(self).queued_after() == old(self).queued_after(),
            final(self).queued_before() == old(self).queued_before(),
            final(self).stopped() == old(self).stopped(),
            final(self).current() == old(self).current(),
            final(self).funcidx() == old(self).funcidx(),
    {
        self.replace_node = Some(Value::new(new_node));
    }

    /// Queues instructions, in order, to insert before this one.
    pub fn insert_nodes_before_all(&mut self, nodes: Vec<Value<Instr>>)
        ensures
            final(self).queued_before() == old(self).queued_before() + nodes@,
            final(self).queued_after() == old(self).queued_after(),
            final(self).queued_replacement() == old(self).queued_replacement(),
            final(self).stopped() == old(self).stopped(),
            final(self).current() == old(self).current(),
            final(self).funcidx() == old(self).funcidx(),
    {
        let mut nodes = nodes;
        self.insert_nodes_before.append(&mut nodes);
    }

    /// Leaves the rest of this instruction list unvisited.
    pub fn stop_traversal(&mut self)
        ensures
            final(self).stopped(),
            final(self).queued_replacement() == old(self).queued_replacement(),
            final(self).queued_after() == old(self).queued_after(),
            final(self).queued_before() == old(self).queued_before(),
            final(self).current() == old(self).current(),
            final(self).funcidx() == old(self).funcidx(),
    {
        self.stop = true;
    }
}

/// A pass. Its hooks are called during `traverse`; what it queues at an
/// instruction is a function of the instruction and the index of the
/// function that holds it.
pub trait Visitor {
    /// The edits queued at `instr` in function `funcidx`: instructions to
    /// insert before it, a replacement, instructions to insert after it, and
    /// whether the rest of the list is left unvisited.
    spec fn instr_edits(&self, funcidx: u32, instr: Instr) -> InstrEdits;

    fn visit_instr<'a>(&self, ctx: &mut VisitorContext<'a, Value<Instr>>)
        requires
            old(ctx).is_fresh(),
            old(ctx).funcidx() is Some,
        ensures
            queued_as(*final(ctx), self.instr_edits(old(ctx).funcidx()->0, old(ctx).current().value)),
    ;

    fn visit_func<'a>(&self, ctx: &mut VisitorContext<'a, Code>) {
    }

    /// The section `visit_module` queues for module `m`, if any.
    spec fn new_section(&self, m: Module) -> Option<Section>;

    fn visit_module<'a>(&self, ctx: &mut VisitorContext<'a, Module>)
        requires
            old(ctx).is_fresh(),
        ensures
            final(ctx).queued_section() == self.new_section(old(ctx).current()),
    ;

    /// The entries `visit_import_section` queues for a section holding `entries`.
    spec fn new_imports(&self, entries: Seq<Import>) -> Seq<Import>;

    fn visit_import_section<'a>(&self, ctx: &mut VisitorContext<'a, Vec<Import>>)
        requires
            old(ctx).is_fresh(),
        ensures
            flat_map(final(ctx).queued_before(), |x: Vec<Import>| x@) == self.new_imports(old(ctx).current()@),
    ;

    /// The entries `visit_type_section` queues for a section holding `entries`.
    spec fn new_types(&self, entries: Seq<Type>) -> Seq<Type>;

    fn visit_type_section<'a>(&self, ctx: &mut VisitorContext<'a, Vec<Type>>)
        requires
            old(ctx).is_fresh(),
        ensures
            flat_map(final(ctx).queued_after(), |x: Vec<Type>| x@) == self.new_types(old(ctx).current()@),
    ;

    /// The entries `visit_func_section` queues for a section holding `entries`.
    spec fn new_funcs(&self, entries: Seq<u32>) -> Seq<u32>;

    fn visit_func_section<'a>(&self, ctx: &mut VisitorContext<'a, Vec<u32>>)
        requires
            old(ctx).is_fresh(),
        ensures
            flat_map(final(ctx).queued_after(), |x: Vec<u32>| x@) == self.new_funcs(old(ctx).current()@),
    ;

    /// The entries `visit_code_section` queues for a section holding `entries`.
    spec fn new_codes(&self, entries: Seq<Code>) -> Seq<Code>;

    fn visit_code_section<'a>(&self, ctx: &mut VisitorContext<'a, Vec<Code>>)
        requires
            old(ctx).is_fresh(),
        ensures
            flat_map(final(ctx).queued_after(), |x: Vec<Code>| x@) == self.new_codes(old(ctx).current()@),
    ;

    /// The entries `visit_data_section` queues for a section holding `entries`.
    spec fn new_datas(&self, entries: Seq<DataSegment>) -> Seq<DataSegment>;

    fn visit_data_section<'a>(&self, ctx: &mut VisitorContext<'a, Vec<DataSegment>>)
        requires
            old(ctx).is_fresh(),
        ensures
            flat_map(final(ctx).queued_after(), |x: Vec<DataSegment>| x@) == self.new_datas(old(ctx).current()@),
    ;
}

/// Instructions to insert before, a replacement, instructions to insert
/// after, and whether the walk of the list stops.
pub type InstrEdits = (Seq<Instr>, Option<Instr>, Seq<Instr>, bool);

/// Two instructions agree: equal, except that the body of a block, loop or
/// `if` is compared by its view (a body built anew is not the same vector).
pub open spec fn same_instr(a: Instr, b: Instr) -> bool {
    match a {
        Instr::Block(t, v) => b matches Instr::Block(t2, v2) && t == t2 && v@ == v2@,
        Instr::Loop(t, v) => b matches Instr::Loop(t2, v2) && t == t2 && v@ == v2@,
        Instr::If(t, v) => b matches Instr::If(t2, v2) && t == t2 && v@ == v2@,
        _ => a == b,
    }
}

/// A node built for the instruction `i`, not tied to source bytes.
pub open spec fn built_as(y: Value<Instr>, i: Instr) -> bool {
    y.start_offset == 0 && y.end_offset == 0 && same_instr(i, y.value)
}

/// `s` holds nodes built for the instructions `e`, in order.
pub open spec fn all_built_as(s: Seq<Value<Instr>>, e: Seq<Instr>) -> bool {
    s.len() == e.len() && forall|k: int| 0 <= k < s.len() ==> built_as(#[trigger] s[k], e[k])
}

/// A context holds exactly the edits `e`.
pub open spec fn queued_as<'a>(ctx: VisitorContext<'a, Value<Instr>>, e: InstrEdits) -> bool {
    &&& all_built_as(ctx.queued_before(), e.0)
    &&& all_built_as(ctx.queued_after(), e.2)
    &&& match e.1 {
        Some(i) => ctx.queued_replacement() matches Some(y) && built_as(y, i),
        None => ctx.queued_replacement() is None,
    }
    &&& ctx.stopped() == e.3
}

/// The lists of `p`, one after another.
pub open spec fn flatten(p: Seq<Seq<Value<Instr>>>) -> Seq<Value<Instr>> {
    flat_map(p, |x: Seq<Value<Instr>>| x)
}

pub open spec fn is_block(i: Instr) -> bool {
    i is Block || i is Loop || i is If
}

/// What a leaf instruction `x` becomes under the edits `e`: the nodes built
/// for the instructions to insert before it, its replacement (or `x`
/// itself), and the nodes built for the instructions to insert after it.
pub open spec fn applied(piece: Seq<Value<Instr>>, x: Value<Instr>, e: InstrEdits) -> bool {
    let b = e.0.len();
    &&& piece.len() == b + 1 + e.2.len()
    &&& all_built_as(piece.take(b as int), e.0)
    &&& match e.1 {
        Some(i) => built_as(piece[b as int], i),
        None => piece[b as int] == x,
    }
    &&& all_built_as(piece.skip(b as int + 1), e.2)
}

/// A leaf before position `i` of `s` stopped the walk of `s`.
pub open spec fn stopped_before<V: Visitor>(v: V, f: u32, s: Seq<Value<Instr>>, i: int) -> bool {
    exists|j: int| 0 <= j < i && !is_block(s[j].value) && #[trigger] v.instr_edits(f, s[j].value).3
}

/// What one element `x` of a list becomes: itself once the walk of the list
/// has stopped; a block with the same head and its body rewritten; or the
/// leaf with the pass's edits applied.
pub open spec fn piece_ok<V: Visitor>(v: V, f: u32, x: Value<Instr>, piece: Seq<Value<Instr>>, stopped: bool) -> bool
    decreases x, 0int,
{
    if stopped {
        piece == seq![x]
    } else {
        match x.value {
            Instr::Block(bt, b) => piece.len() == 1 && piece[0].start_offset == x.start_offset
                && piece[0].end_offset == x.end_offset && (match piece[0].value {
                Instr::Block(bt2, b2) => bt2 == bt && rewritten(v, f, b@, b2@),
                _ => false,
            }),
            Instr::Loop(bt, b) => piece.len() == 1 && piece[0].start_offset == x.start_offset
                && piece[0].end_offset == x.end_offset && (match piece[0].value {
                Instr::Loop(bt2, b2) => bt2 == bt && rewritten(v, f, b@, b2@),
                _ => false,
            }),
            Instr::If(bt, b) => piece.len() == 1 && piece[0].start_offset == x.start_offset
                && piece[0].end_offset == x.end_offset && (match piece[0].value {
                Instr::If(bt2, b2) => bt2 == bt && rewritten(v, f, b@, b2@),
                _ => false,
            }),
            _ => applied(piece, x, v.instr_edits(f, x.value)),
        }
    }
}

/// `new` is `old` walked by pass `v` inside function `f`: each element of
/// `old` in order becomes one piece of `new`.
pub open spec fn rewritten<V: Visitor>(v: V, f: u32, old: Seq<Value<Instr>>, new: Seq<Value<Instr>>) -> bool
    decreases old, 1int,
{
    exists|pieces: Seq<Seq<Value<Instr>>>|
        #![trigger flatten(pieces)]
        pieces.len() == old.len() && new == flatten(pieces) && forall|i: int|
            0 <= i < old.len() ==> piece_ok(v, f, #[trigger] old[i], pieces[i], stopped_before(v, f, old, i))
}

pub proof fn lemma_nested_decreases(s: Seq<Value<Instr>>, i: int)
    requires
        0 <= i < s.len(),
    ensures
        match s[i].value {
            Instr::Block(_, b) => decreases_to!(s => b@),
            Instr::Loop(_, b) => decreases_to!(s => b@),
            Instr::If(_, b) => decreases_to!(s => b@),
            _ => true,
        },
{
    assert(decreases_to!(s => s[i]));
    assert(decreases_to!(s[i] => s[i].value));
    match s[i].value {
        Instr::Block(_, b) => {
            assert(decreases_to!(s[i].value => b));
            assert(decreases_to!(b => b@));
        },
        Instr::Loop(_, b) => {
            assert(decreases_to!(s[i].value => b));
            assert(decreases_to!(b => b@));
        },
        Instr::If(_, b) => {
            assert(decreases_to!(s[i].value => b));
            assert(decreases_to!(b => b@));
        },
        _ => {},
    }
}

/// Walks an instruction list of function `funcidx`: nested bodies first
/// where they stand, then the pass's edits at each leaf, until a leaf stops
/// the walk of this list.
pub fn visit_expr<V: Visitor>(visitor: &V, body: Vec<Value<Instr>>, funcidx: u32) -> (r: Vec<Value<Instr>>)
    ensures
        rewritten(*visitor, funcidx, body@, r@),
    decreases body@,
{
    let ghost orig = body@;
    let n = body.len();
    let mut work = body;
    let mut rev: Vec<Value<Instr>> = Vec::new();
    while work.len() > 0
        invariant
            rev@.len() + work@.len() == n == orig.len(),
            work@ == orig.take(work@.len() as int),
            forall|k: int| 0 <= k < rev@.len() ==> #[trigger] rev@[k] == orig[n - 1 - k],
        decreases work.len(),
    {
        let ghost w = work@;
        let x = work.pop().unwrap();
        assert(w[w.len() - 1] == orig[w.len() - 1]);
        rev.push(x);
        assert(work@ =~= orig.take(work@.len() as int));
    }
    let mut out: Vec<Value<Instr>> = Vec::new();
    let mut stopped = false;
    let ghost mut pieces: Seq<Seq<Value<Instr>>> = Seq::empty();
    let mut i: usize = 0;
    while rev.len() > 0
        invariant
            i + rev@.len() == n == orig.len(),
            orig == body@,
            forall|k: int| 0 <= k < rev@.len() ==> #[trigger] rev@[k] == orig[n - 1 - k],
            pieces.len() == i,
            out@ == flatten(pieces),
            forall|k: int|
                0 <= k < i ==> piece_ok(*visitor, funcidx, #[trigger] orig[k], pieces[k], stopped_before(*visitor, funcidx, orig, k)),
            stopped == stopped_before(*visitor, funcidx, orig, i as int),
        decreases rev.len(),
    {
        let ghost r0 = rev@;
        let x = rev.pop().unwrap();
        assert(x == orig[i as int]) by {
            assert(r0[r0.len() - 1] == orig[n - 1 - (r0.len() - 1)]);
        }
        let ghost out0 = out@;
        let ghost piece: Seq<Value<Instr>>;
        if stopped {
            out.push(x);
            proof {
                piece = seq![x];
                assert(stopped_before(*visitor, funcidx, orig, i + 1));
            }
        } else if matches!(x.value, Instr::Block(..) | Instr::Loop(..) | Instr::If(..)) {
            assert(orig[i as int] == x);
            assert(orig[i as int].value == x.value);
            proof { lemma_nested_decreases(orig, i as int); }
            let Value { value, start_offset, end_offset } = x;
            let new_value = match value {
                Instr::Block(bt, b) => {
                    assert(orig[i as int].value == Instr::Block(bt, b));
                    assert(decreases_to!(orig => b@));
                    Instr::Block(bt, visit_expr(visitor, b, funcidx))
                },
                Instr::Loop(bt, b) => {
                    assert(orig[i as int].value == Instr::Loop(bt, b));
                    assert(decreases_to!(orig => b@));
                    Instr::Loop(bt, visit_expr(visitor, b, funcidx))
                },
                Instr::If(bt, b) => {
                    assert(orig[i as int].value == Instr::If(bt, b));
                    assert(decreases_to!(orig => b@));
                    Instr::If(bt, visit_expr(visitor, b, funcidx))
                },
                other => other,
            };
            let y = Value { value: new_value, start_offset, end_offset };
            out.push(y);
            proof {
                piece = seq![y];
                assert(!stopped_before(*visitor, funcidx, orig, i + 1)) by {
                    if stopped_before(*visitor, funcidx, orig, i + 1) {
                        let j = choose|j: int| 0 <= j < i + 1 && !is_block(orig[j].value)
                            && #[trigger] visitor.instr_edits(funcidx, orig[j].value).3;
                        assert(j != i);
                    }
                }
            }
        } else {
            let mut ctx = VisitorContext::new(&x);
            ctx.curr_funcidx = Some(funcidx);
            visitor.visit_instr(&mut ctx);
            let ghost e = visitor.instr_edits(funcidx, x.value);
            let VisitorContext { mut insert_nodes_before, replace_node, mut insert_nodes_after, stop, .. } = ctx;
            let ghost before_nodes = insert_nodes_before@;
            let ghost after_nodes = insert_nodes_after@;
            let ghost middle = if replace_node is Some { replace_node->0 } else { x };
            out.append(&mut insert_nodes_before);
            match replace_node {
                Some(y) => out.push(y),
                None => out.push(x),
            }
            out.append(&mut insert_nodes_after);
            proof {
                piece = before_nodes + seq![middle] + after_nodes;
                assert(piece.take(before_nodes.len() as int) =~= before_nodes);
                assert(piece.skip(before_nodes.len() as int + 1) =~= after_nodes);
                assert(piece[before_nodes.len() as int] == middle);
                assert(applied(piece, x, e));
                assert(out@ =~= out0 + piece);
                if stop {
                    assert(stopped_before(*visitor, funcidx, orig, i + 1));
                } else {
                    assert(!stopped_before(*visitor, funcidx, orig, i + 1)) by {
                        if stopped_before(*visitor, funcidx, orig, i + 1) {
                            let j = choose|j: int| 0 <= j < i + 1 && !is_block(orig[j].value)
                                && #[trigger] visitor.instr_edits(funcidx, orig[j].value).3;
                            assert(j != i);
                        }
                    }
                }
            }
            stopped = stop;
        }
        proof {
            assert(out@ =~= out0 + piece);
            assert(pieces.push(piece).drop_last() =~= pieces);
            pieces = pieces.push(piece);
            assert(piece_ok(*visitor, funcidx, orig[i as int], pieces[i as int], stopped_before(*visitor, funcidx, orig, i as int)));
        }
        i += 1;
    }
    assert(rewritten(*visitor, funcidx, orig, out@));
    out
}

/// The index of the `k`-th body of the code section at `j` of `m`: the
/// imported functions and bodies before it, modulo the width of an index.
pub open spec fn body_funcidx(m: Module, j: int, k: int) -> u32 {
    funcidx_after(m.sections@.take(j), k)
}

/// The index of the `k`-th body after the sections `prefix`.
pub open spec fn funcidx_after(prefix: Seq<Section>, k: int) -> u32 {
    ((count_func_imports(flat_map(prefix, |s: Section| section_imports(s)))
        + flat_map(prefix, |s: Section| section_codes(s)).len() + k) % 0x1_0000_0000) as u32
}

/// What the walk does to one section, the one at `j` of the walked module
/// `m`: growth sections keep their entries and gain the queued ones (imports
/// in front, the others behind); every body in a code section, old or added,
/// is rewritten by the pass with its function index; other sections are kept.
pub open spec fn section_walked<V: Visitor>(v: V, a: Section, b: Section, m: Module, j: int) -> bool {
    section_walked_after(v, a, b, m.sections@.take(j))
}

/// `section_walked` for the section that follows `prefix`.
pub open spec fn section_walked_after<V: Visitor>(v: V, a: Section, b: Section, prefix: Seq<Section>) -> bool {
    match a {
        Section::Import(size, x) => b matches Section::Import(size2, y) && size2 == size && y@ == v.new_imports(x@) + x@,
        Section::Type(size, x) => b matches Section::Type(size2, y) && size2 == size && y@ == x@ + v.new_types(x@),
        Section::Func(size, x) => b matches Section::Func(size2, y) && size2 == size && y@ == x@ + v.new_funcs(x@),
        Section::Data(size, x) => b matches Section::Data(size2, y) && size2 == size && y@ == x@ + v.new_datas(x@),
        Section::Code(size, x) => b matches Section::Code(size2, y) && size2 == size && y@.len() == x@.len()
            + v.new_codes(x@).len() && forall|k: int|
            0 <= k < y@.len() ==> code_walked(v, #[trigger] (x@ + v.new_codes(x@))[k], y@[k], funcidx_after(prefix, k)),
        _ => b == a,
    }
}

/// A body rewritten by the pass; its locals and spans are kept.
pub open spec fn code_walked<V: Visitor>(v: V, a: Code, b: Code, f: u32) -> bool {
    &&& b.size == a.size
    &&& b.locals == a.locals
    &&& b.body.start_offset == a.body.start_offset
    &&& b.body.end_offset == a.body.end_offset
    &&& rewritten(v, f, a.body.value@, b.body.value@)
}

/// `s` followed by `v`.
pub fn prepend<T>(v: Vec<T>, s: Vec<T>) -> (r: Vec<T>)
    ensures
        r@ == s@ + v@,
{
    let mut tmp = s;
    let mut v = v;
    tmp.append(&mut v);
    tmp
}

/// The queued entries, one list after another.
fn concat_queued<T>(q: Vec<Vec<T>>) -> (r: Vec<T>)
    ensures
        r@ == flat_map(q@, |x: Vec<T>| x@),
{
    let ghost q0 = q@;
    let mut q = q;
    let mut r: Vec<T> = Vec::new();
    while q.len() > 0
        invariant
            q@ == q0.take(q@.len() as int),
            q@.len() <= q0.len(),
            flat_map(q0, |x: Vec<T>| x@) == flat_map(q@, |x: Vec<T>| x@) + r@,
        decreases q.len(),
    {
        let ghost before = q@;
        let mut last = q.pop().unwrap();
        assert(before.drop_last() =~= q@);
        let ghost l = last@;
        last.append(&mut r);
        r = last;
        assert(q@ =~= q0.take(q@.len() as int));
        assert(flat_map(before, |x: Vec<T>| x@) == flat_map(q@, |x: Vec<T>| x@) + l);
        assert(flat_map(q0, |x: Vec<T>| x@) =~= flat_map(q@, |x: Vec<T>| x@) + r@);
    }
    assert(flat_map(q@, |x: Vec<T>| x@) =~= Seq::<T>::empty());
    assert(flat_map(q0, |x: Vec<T>| x@) =~= r@);
    r
}

/// Concatenations of pointwise equally long images are equally long.
pub proof fn lemma_flat_map_len_pointwise<A, B>(s1: Seq<A>, s2: Seq<A>, f: spec_fn(A) -> Seq<B>)
    requires
        s1.len() == s2.len(),
        forall|j: int| 0 <= j < s1.len() ==> (#[trigger] f(s1[j])).len() == f(s2[j]).len(),
    ensures
        flat_map(s1, f).len() == flat_map(s2, f).len(),
    decreases s1.len(),
{
    if s1.len() > 0 {
        lemma_flat_map_len_pointwise(s1.drop_last(), s2.drop_last(), f);
        assert(f(s1[s1.len() - 1]).len() == f(s2[s2.len() - 1]).len());
    }
}

/// A pass whose section hooks queue nothing keeps the number of types,
/// imports, functions and bodies of the module it walks.
pub proof fn lemma_walk_keeps_counts<V: Visitor>(v: V, w: Seq<Section>, m: Module)
    requires
        walked_from(v, w, m),
        forall|e: Seq<Import>| #[trigger] v.new_imports(e) == Seq::<Import>::empty(),
        forall|e: Seq<Type>| #[trigger] v.new_types(e) == Seq::<Type>::empty(),
        forall|e: Seq<u32>| #[trigger] v.new_funcs(e) == Seq::<u32>::empty(),
        forall|e: Seq<Code>| #[trigger] v.new_codes(e) == Seq::<Code>::empty(),
    ensures
        crate::model::funcs_of(m).len() == flat_map(w, |s: Section| section_funcs(s)).len(),
        crate::model::codes_of(m).len() == flat_map(w, |s: Section| section_codes(s)).len(),
        crate::model::types_of(m).len() == flat_map(w, |s: Section| section_types(s)).len(),
        crate::model::imports_of(m).len() == flat_map(w, |s: Section| section_imports(s)).len(),
{
    let ms = m.sections@;
    assert forall|j: int| 0 <= j < w.len() implies {
        &&& section_funcs(w[j]).len() == section_funcs(ms[j]).len()
        &&& section_codes(w[j]).len() == section_codes(ms[j]).len()
        &&& section_types(w[j]).len() == section_types(ms[j]).len()
        &&& section_imports(w[j]).len() == section_imports(ms[j]).len()
    } by {
        assert(section_walked(v, w[j], ms[j], m, j));
        match w[j] {
            Section::Import(_, x) => {
                assert(v.new_imports(x@) == Seq::<Import>::empty());
            },
            Section::Type(_, x) => {
                assert(v.new_types(x@) == Seq::<Type>::empty());
            },
            Section::Func(_, x) => {
                assert(v.new_funcs(x@) == Seq::<u32>::empty());
            },
            Section::Code(_, x) => {
                assert(v.new_codes(x@) == Seq::<Code>::empty());
            },
            _ => {},
        }
    }
    lemma_flat_map_len_pointwise(w, ms, |s: Section| section_funcs(s));
    lemma_flat_map_len_pointwise(w, ms, |s: Section| section_codes(s));
    lemma_flat_map_len_pointwise(w, ms, |s: Section| section_types(s));
    lemma_flat_map_len_pointwise(w, ms, |s: Section| section_imports(s));
}

/// Concatenations of pointwise equal images are equal.
pub proof fn lemma_flat_map_pointwise<A, B>(s1: Seq<A>, s2: Seq<A>, f: spec_fn(A) -> Seq<B>)
    requires
        s1.len() == s2.len(),
        forall|j: int| 0 <= j < s1.len() ==> #[trigger] f(s1[j]) == f(s2[j]),
    ensures
        flat_map(s1, f) == flat_map(s2, f),
    decreases s1.len(),
{
    if s1.len() > 0 {
        lemma_flat_map_pointwise(s1.drop_last(), s2.drop_last(), f);
        assert(f(s1[s1.len() - 1]) == f(s2[s2.len() - 1]));
    }
}

/// A pass whose section hooks queue nothing keeps the types, imports and
/// function types of the module it walks.
pub proof fn lemma_walk_keeps_entries<V: Visitor>(v: V, w: Seq<Section>, m: Module)
    requires
        walked_from(v, w, m),
        forall|e: Seq<Import>| #[trigger] v.new_imports(e) == Seq::<Import>::empty(),
        forall|e: Seq<Type>| #[trigger] v.new_types(e) == Seq::<Type>::empty(),
        forall|e: Seq<u32>| #[trigger] v.new_funcs(e) == Seq::<u32>::empty(),
    ensures
        crate::model::funcs_of(m) == flat_map(w, |s: Section| section_funcs(s)),
        crate::model::types_of(m) == flat_map(w, |s: Section| section_types(s)),
        crate::model::imports_of(m) == flat_map(w, |s: Section| section_imports(s)),
{
    let ms = m.sections@;
    assert forall|j: int| 0 <= j < w.len() implies {
        &&& section_funcs(w[j]) == section_funcs(ms[j])
        &&& section_types(w[j]) == section_types(ms[j])
        &&& section_imports(w[j]) == section_imports(ms[j])
    } by {
        assert(section_walked(v, w[j], ms[j], m, j));
        match w[j] {
            Section::Import(_, x) => {
                assert(v.new_imports(x@) == Seq::<Import>::empty());
                assert(v.new_imports(x@) + x@ =~= x@);
            },
            Section::Type(_, x) => {
                assert(v.new_types(x@) == Seq::<Type>::empty());
                assert(x@ + v.new_types(x@) =~= x@);
            },
            Section::Func(_, x) => {
                assert(v.new_funcs(x@) == Seq::<u32>::empty());
                assert(x@ + v.new_funcs(x@) =~= x@);
            },
            _ => {},
        }
    }
    lemma_flat_map_pointwise(ms, w, |s: Section| section_funcs(s));
    lemma_flat_map_pointwise(ms, w, |s: Section| section_types(s));
    lemma_flat_map_pointwise(ms, w, |s: Section| section_imports(s));
}

/// `m` is the result of walking sections `w` with pass `v`, section by section.
pub open spec fn walked_from<V: Visitor>(v: V, w: Seq<Section>, m: Module) -> bool {
    w.len() == m.sections@.len() && forall|j: int|
        0 <= j < w.len() ==> section_walked(v, #[trigger] w[j], m.sections@[j], m, j)
}

/// Walks a module with a pass: first the module hook, whose queued section
/// is appended; then each section in order. Growth sections get the entries
/// their hooks queue; each function body, those added by the code section
/// hook included, is walked with the index of its function.
pub fn traverse<V: Visitor>(module: &mut Module, visitor: &V)
    ensures
        old(module).sections@.len() <= final(module).sections@.len() <= old(module).sections@.len() + 1,
        exists|walked_from: Seq<Section>|
            #![trigger walked_from.take(old(module).sections@.len() as int)]
            walked_from.len() == final(module).sections@.len() && walked_from.take(
                old(module).sections@.len() as int,
            ) == old(module).sections@ && walked_from == old(module).sections@ + match visitor.new_section(
                *old(module),
            ) {
                Some(s) => seq![s],
                None => Seq::empty(),
            } && forall|j: int|
                0 <= j < walked_from.len() ==> section_walked(
                    *visitor,
                    #[trigger] walked_from[j],
                    final(module).sections@[j],
                    *final(module),
                    j,
                ),
{
    let queued = {
        let mut ctx = VisitorContext::new(&*module);
        visitor.visit_module(&mut ctx);
        ctx.insert_new_section
    };
    match queued {
        Some(s) => module.sections.push(s),
        None => {},
    }
    let ghost walked_from = module.sections@;
    assert(walked_from =~= old(module).sections@ + match visitor.new_section(*old(module)) {
        Some(s) => seq![s],
        None => Seq::empty(),
    });
    assert(walked_from.take(old(module).sections@.len() as int) =~= old(module).sections@);
    let n = module.sections.len();
    let mut curr_funcidx: u32 = 0;
    let mut j: usize = 0;
    while j < n
        invariant
            n == module.sections@.len() == walked_from.len(),
            j <= n,
            curr_funcidx == funcidx_after(module.sections@.take(j as int), 0),
            forall|k: int| j <= k < n ==> module.sections@[k] == walked_from[k],
            forall|k: int|
                0 <= k < j ==> section_walked(*visitor, #[trigger] walked_from[k], module.sections@[k], *module, k),
        decreases n - j,
    {
        let ghost before = *module;
        let ghost prefix = module.sections@.take(j as int);
        let ghost fi = |s: Section| section_imports(s);
        let ghost fc = |s: Section| section_codes(s);
        proof {
            lemma_flat_map_push(module.sections@, j as int, fi);
            lemma_flat_map_push(module.sections@, j as int, fc);
        }
        let next = walk_section(&mut module.sections[j], visitor, curr_funcidx, Ghost(prefix));
        proof {
            assert(module.sections@.take(j as int) =~= prefix);
            assert forall|k: int| 0 <= k < j implies section_walked(*visitor, #[trigger] walked_from[k], module.sections@[k], *module, k) by {
                assert(module.sections@.take(k) =~= before.sections@.take(k));
                assert(module.sections@[k] == before.sections@[k]);
            }
            assert(module.sections@.take(j + 1) =~= prefix.push(module.sections@[j as int]));
            lemma_flat_map_push(module.sections@, j as int, fi);
            lemma_flat_map_push(module.sections@, j as int, fc);
        }
        curr_funcidx = next;
        j += 1;
    }
}

proof fn lemma_wrap_step(x: int, c: u32)
    requires
        x >= 0,
        c == (x % 0x1_0000_0000) as u32,
    ensures
        c.wrapping_add(1) == ((x + 1) % 0x1_0000_0000) as u32,
{
    assert(((c as int + 1) % 0x1_0000_0000) == ((x + 1) % 0x1_0000_0000)) by (nonlinear_arith)
        requires c as int == x % 0x1_0000_0000, x >= 0;
}

/// Walks one section, the one after `prefix`, whose first function index is
/// `funcidx`; gives the index after it.
fn walk_section<V: Visitor>(section: &mut Section, visitor: &V, funcidx: u32, prefix: Ghost<Seq<Section>>) -> (r: u32)
    requires
        funcidx == funcidx_after(prefix@, 0),
    ensures
        section_walked_after(*visitor, *old(section), *final(section), prefix@),
        r == funcidx_after(prefix@.push(*final(section)), 0),
{
    let ghost base_i = flat_map(prefix@, |s: Section| section_imports(s));
    let ghost base_c = flat_map(prefix@, |s: Section| section_codes(s)).len();
    let mut curr = funcidx;
    assert(base_i + Seq::<Import>::empty() =~= base_i);
    assert(base_i + Seq::<Import>::empty().take(0) =~= base_i);
    match section {
        Section::Import(_, v) => {
            let queued = {
                let mut ctx = VisitorContext::new(&*v);
                visitor.visit_import_section(&mut ctx);
                ctx.insert_nodes_before
            };
            let front = concat_queued(queued);
            let mut existing: Vec<Import> = Vec::new();
            std::mem::swap(&mut existing, v);
            *v = prepend(existing, front);
            let mut k: usize = 0;
            while k < v.len()
                invariant
                    k <= v@.len(),
                    curr == ((count_func_imports(base_i + v@.take(k as int)) + base_c) % 0x1_0000_0000) as u32,
                decreases v.len() - k,
            {
                proof {
                    assert((base_i + v@.take(k + 1)).drop_last() =~= base_i + v@.take(k as int));
                }
                if matches!(v[k].import_type, crate::ast::ImportType::Func(_)) {
                    proof { lemma_wrap_step((count_func_imports(base_i + v@.take(k as int)) + base_c) as int, curr); }
                    curr = curr.wrapping_add(1);
                }
                k += 1;
            }
            proof {
                assert(v@.take(v@.len() as int) =~= v@);
            }
            assert(curr == ((count_func_imports(base_i + v@) + base_c) % 0x1_0000_0000) as u32);
        },
        Section::Type(_, v) => {
            let queued = {
                let mut ctx = VisitorContext::new(&*v);
                visitor.visit_type_section(&mut ctx);
                ctx.insert_nodes_after
            };
            let mut tail = concat_queued(queued);
            v.append(&mut tail);
        },
        Section::Func(_, v) => {
            let queued = {
                let mut ctx = VisitorContext::new(&*v);
                visitor.visit_func_section(&mut ctx);
                ctx.insert_nodes_after
            };
            let mut tail = concat_queued(queued);
            v.append(&mut tail);
        },
        Section::Data(_, v) => {
            let queued = {
                let mut ctx = VisitorContext::new(&*v);
                visitor.visit_data_section(&mut ctx);
                ctx.insert_nodes_after
            };
            let mut tail = concat_queued(queued);
            v.append(&mut tail);
        },
        Section::Code(_, codes) => {
            let queued = {
                let mut ctx = VisitorContext::new(&*codes);
                visitor.visit_code_section(&mut ctx);
                ctx.insert_nodes_after
            };
            let mut tail = concat_queued(queued);
            codes.append(&mut tail);
            let ghost grown = codes@;
            let mut k: usize = 0;
            while k < codes.len()
                invariant
                    k <= codes@.len() == grown.len(),
                    curr == ((count_func_imports(base_i) + base_c + k) % 0x1_0000_0000) as u32,
                    base_i == flat_map(prefix@, |s: Section| section_imports(s)),
                    base_c == flat_map(prefix@, |s: Section| section_codes(s)).len(),
                    forall|i: int| k <= i < grown.len() ==> codes@[i] == grown[i],
                    forall|i: int|
                        0 <= i < k ==> code_walked(*visitor, #[trigger] grown[i], codes@[i], funcidx_after(prefix@, i)),
                decreases codes.len() - k,
            {
                {
                    let mut ctx = VisitorContext::new(&codes[k]);
                    ctx.curr_funcidx = Some(curr);
                    visitor.visit_func(&mut ctx);
                }
                assert(curr == funcidx_after(prefix@, k as int));
                let ghost c0 = codes@[k as int];
                let mut body: Vec<Value<Instr>> = Vec::new();
                std::mem::swap(&mut body, &mut codes[k].body.value);
                let mut new_body = visit_expr(visitor, body, curr);
                std::mem::swap(&mut new_body, &mut codes[k].body.value);
                assert(codes@[k as int].size == c0.size);
                assert(codes@[k as int].locals == c0.locals);
                assert(code_walked(*visitor, grown[k as int], codes@[k as int], funcidx_after(prefix@, k as int)));
                proof { lemma_wrap_step((count_func_imports(base_i) + base_c + k) as int, curr); }
                curr = curr.wrapping_add(1);
                k += 1;
            }
        },
        _ => {},
    }
    proof {
        let p2 = prefix@.push(*section);
        assert(p2.drop_last() =~= prefix@);
        assert(flat_map(p2, |s: Section| section_imports(s)) == base_i + section_imports(*section));
        assert(flat_map(p2, |s: Section| section_codes(s)) == flat_map(prefix@, |s: Section| section_codes(s)) + section_codes(*section));
        if !(*section is Import) {
            assert(base_i + section_imports(*section) =~= base_i);
        }
    }
    curr
}

} // verus!
