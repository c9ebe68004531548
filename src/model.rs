//! Index spaces of a module and the operations that grow it. An index space
//! is the concatenation, in section order, of the entries of every section of
//! one kind; imported functions and globals come before defined ones.
use vstd::prelude::*;
use crate::ast::{
    Code, CodeLocal, DataSegment, Export, ExportDescr, Global, Import, ImportType, Instr, Module, Section,
    Type, Value, ValueType,
};

verus! {

/// The concatenation of `f` over the items of `s`, in order.
pub open spec fn flat_map<A, B>(s: Seq<A>, f: spec_fn(A) -> Seq<B>) -> Seq<B>
    decreases s.len(),
{
    if s.len() == 0 {
        Seq::empty()
    } else {
        flat_map(s.drop_last(), f) + f(s.last())
    }
}

pub proof fn lemma_flat_map_push<A, B>(s: Seq<A>, j: int, f: spec_fn(A) -> Seq<B>)
    requires
        0 <= j < s.len(),
    ensures
        flat_map(s.take(j + 1), f) == flat_map(s.take(j), f) + f(s[j]),
{
    assert(s.take(j + 1).drop_last() =~= s.take(j));
}

pub proof fn lemma_flat_map_append<A, B>(a: Seq<A>, b: Seq<A>, f: spec_fn(A) -> Seq<B>)
    ensures
        flat_map(a + b, f) == flat_map(a, f) + flat_map(b, f),
    decreases b.len(),
{
    if b.len() == 0 {
        assert(a + b =~= a);
        assert(flat_map(a, f) + flat_map(b, f) =~= flat_map(a, f));
    } else {
        lemma_flat_map_append(a, b.drop_last(), f);
        assert((a + b).drop_last() =~= a + b.drop_last());
        assert(flat_map(a + b, f) =~= flat_map(a, f) + flat_map(b, f));
    }
}

/// Splits a concatenation around position `i`.
pub proof fn lemma_flat_map_split<A, B>(s: Seq<A>, i: int, f: spec_fn(A) -> Seq<B>)
    requires
        0 <= i < s.len(),
    ensures
        flat_map(s, f) == flat_map(s.take(i), f) + f(s[i]) + flat_map(s.skip(i + 1), f),
{
    assert(s =~= s.take(i + 1) + s.skip(i + 1));
    lemma_flat_map_append(s.take(i + 1), s.skip(i + 1), f);
    lemma_flat_map_push(s, i, f);
}

/// Replacing the item at `i` by one whose image is `y` changes only that part
/// of the concatenation.
pub proof fn lemma_flat_map_update<A, B>(s: Seq<A>, i: int, x: A, f: spec_fn(A) -> Seq<B>)
    requires
        0 <= i < s.len(),
    ensures
        flat_map(s.update(i, x), f) == flat_map(s.take(i), f) + f(x) + flat_map(s.skip(i + 1), f),
        flat_map(s, f) == flat_map(s.take(i), f) + f(s[i]) + flat_map(s.skip(i + 1), f),
{
    lemma_flat_map_split(s, i, f);
    lemma_flat_map_split(s.update(i, x), i, f);
    assert(s.update(i, x).take(i) =~= s.take(i));
    assert(s.update(i, x).skip(i + 1) =~= s.skip(i + 1));
}

/// Inserting an item with an empty image leaves the concatenation as it was.
pub proof fn lemma_flat_map_insert_empty<A, B>(s: Seq<A>, i: int, x: A, f: spec_fn(A) -> Seq<B>)
    requires
        0 <= i <= s.len(),
        f(x).len() == 0,
    ensures
        flat_map(s.insert(i, x), f) == flat_map(s, f),
{
    assert(s.insert(i, x) =~= s.take(i) + seq![x] + s.skip(i));
    assert(s =~= s.take(i) + s.skip(i));
    lemma_flat_map_append(s.take(i) + seq![x], s.skip(i), f);
    lemma_flat_map_append(s.take(i), seq![x], f);
    lemma_flat_map_append(s.take(i), s.skip(i), f);
    assert(seq![x].drop_last() =~= Seq::<A>::empty());
    assert(flat_map(Seq::<A>::empty(), f) =~= Seq::<B>::empty());
    assert(seq![x].last() == x);
    assert(flat_map(seq![x], f) =~= f(x));
    assert(flat_map(s.take(i), f) + f(x) =~= flat_map(s.take(i), f));
}

/// The kind of a section: the id of a recognised one, 0 for the others.
pub open spec fn kind(s: Section) -> u8 {
    match s {
        Section::Type(..) => 1,
        Section::Import(..) => 2,
        Section::Func(..) => 3,
        Section::Table(..) => 4,
        Section::Memory(..) => 5,
        Section::Global(..) => 6,
        Section::Export(..) => 7,
        Section::Code(..) => 10,
        Section::Data(..) => 11,
        Section::Unknown(..) => 0,
    }
}

pub open spec fn section_types(s: Section) -> Seq<Type> {
    match s {
        Section::Type(_, v) => v@,
        _ => Seq::empty(),
    }
}

pub open spec fn section_imports(s: Section) -> Seq<Import> {
    match s {
        Section::Import(_, v) => v@,
        _ => Seq::empty(),
    }
}

pub open spec fn section_funcs(s: Section) -> Seq<u32> {
    match s {
        Section::Func(_, v) => v@,
        _ => Seq::empty(),
    }
}

pub open spec fn section_globals(s: Section) -> Seq<Global> {
    match s {
        Section::Global(_, v) => v@,
        _ => Seq::empty(),
    }
}

pub open spec fn section_exports(s: Section) -> Seq<Export> {
    match s {
        Section::Export(_, v) => v@,
        _ => Seq::empty(),
    }
}

pub open spec fn section_codes(s: Section) -> Seq<Code> {
    match s {
        Section::Code(_, v) => v@,
        _ => Seq::empty(),
    }
}

pub open spec fn section_datas(s: Section) -> Seq<DataSegment> {
    match s {
        Section::Data(_, v) => v@,
        _ => Seq::empty(),
    }
}

/// The type space.
pub open spec fn types_of(m: Module) -> Seq<Type> {
    flat_map(m.sections@, |s: Section| section_types(s))
}

pub open spec fn imports_of(m: Module) -> Seq<Import> {
    flat_map(m.sections@, |s: Section| section_imports(s))
}

/// The type index of each defined function, in order.
pub open spec fn funcs_of(m: Module) -> Seq<u32> {
    flat_map(m.sections@, |s: Section| section_funcs(s))
}

pub open spec fn globals_of(m: Module) -> Seq<Global> {
    flat_map(m.sections@, |s: Section| section_globals(s))
}

pub open spec fn exports_of(m: Module) -> Seq<Export> {
    flat_map(m.sections@, |s: Section| section_exports(s))
}

pub open spec fn codes_of(m: Module) -> Seq<Code> {
    flat_map(m.sections@, |s: Section| section_codes(s))
}

pub open spec fn datas_of(m: Module) -> Seq<DataSegment> {
    flat_map(m.sections@, |s: Section| section_datas(s))
}

/// How many of `imports` are functions.
pub open spec fn count_func_imports(imports: Seq<Import>) -> nat
    decreases imports.len(),
{
    if imports.len() == 0 {
        0
    } else {
        count_func_imports(imports.drop_last()) + if imports.last().import_type is Func { 1nat } else { 0nat }
    }
}

/// How many of `imports` are globals.
pub open spec fn count_global_imports(imports: Seq<Import>) -> nat
    decreases imports.len(),
{
    if imports.len() == 0 {
        0
    } else {
        count_global_imports(imports.drop_last()) + if imports.last().import_type is Global { 1nat } else { 0nat }
    }
}

/// The number of imported functions: the first index of a defined function.
pub open spec fn func_import_count(m: Module) -> nat {
    count_func_imports(imports_of(m))
}

/// The size of the function index space.
pub open spec fn func_count(m: Module) -> nat {
    func_import_count(m) + funcs_of(m).len()
}

/// The size of the global index space.
pub open spec fn global_count(m: Module) -> nat {
    count_global_imports(imports_of(m)) + globals_of(m).len()
}

/// All projections but `f`'s own kind see the same entries before and after
/// the section at `i` is replaced by one of the same kind.
pub open spec fn projections_agree(a: Module, b: Module, k: u8) -> bool {
    &&& (k != 1 ==> types_of(a) == types_of(b))
    &&& (k != 2 ==> imports_of(a) == imports_of(b))
    &&& (k != 3 ==> funcs_of(a) == funcs_of(b))
    &&& (k != 6 ==> globals_of(a) == globals_of(b))
    &&& (k != 7 ==> exports_of(a) == exports_of(b))
    &&& (k != 10 ==> codes_of(a) == codes_of(b))
    &&& (k != 11 ==> datas_of(a) == datas_of(b))
}

pub proof fn lemma_flat_map_all_empty<A, B>(s: Seq<A>, f: spec_fn(A) -> Seq<B>)
    requires
        forall|j: int| 0 <= j < s.len() ==> #[trigger] f(s[j]).len() == 0,
    ensures
        flat_map(s, f) == Seq::<B>::empty(),
    decreases s.len(),
{
    if s.len() > 0 {
        lemma_flat_map_all_empty(s.drop_last(), f);
        assert(f(s[s.len() - 1]).len() == 0);
        assert(flat_map(s, f) =~= Seq::<B>::empty());
    }
}

/// Replacing section `i` by a section `x` of the same kind, with no section of
/// that kind after `i`, changes only that kind's entries, and those by the
/// difference between the two sections.
pub proof fn lemma_replace_last_of_kind(m: Module, m2: Module, i: int, x: Section)
    requires
        0 <= i < m.sections@.len(),
        kind(m.sections@[i]) == kind(x),
        m2.sections@ == m.sections@.update(i, x),
        forall|j: int| i < j < m.sections@.len() ==> kind(#[trigger] m.sections@[j]) != kind(x),
    ensures
        projections_agree(m, m2, kind(x)),
        kind(x) == 1 ==> types_of(m2) == flat_map(m.sections@.take(i), |s: Section| section_types(s)) + section_types(x)
            && types_of(m) == flat_map(m.sections@.take(i), |s: Section| section_types(s)) + section_types(m.sections@[i]),
        kind(x) == 3 ==> funcs_of(m2) == flat_map(m.sections@.take(i), |s: Section| section_funcs(s)) + section_funcs(x)
            && funcs_of(m) == flat_map(m.sections@.take(i), |s: Section| section_funcs(s)) + section_funcs(m.sections@[i]),
        kind(x) == 6 ==> globals_of(m2) == flat_map(m.sections@.take(i), |s: Section| section_globals(s)) + section_globals(x)
            && globals_of(m) == flat_map(m.sections@.take(i), |s: Section| section_globals(s)) + section_globals(m.sections@[i]),
        kind(x) == 10 ==> codes_of(m2) == flat_map(m.sections@.take(i), |s: Section| section_codes(s)) + section_codes(x)
            && codes_of(m) == flat_map(m.sections@.take(i), |s: Section| section_codes(s)) + section_codes(m.sections@[i]),
        kind(x) == 11 ==> datas_of(m2) == flat_map(m.sections@.take(i), |s: Section| section_datas(s)) + section_datas(x)
            && datas_of(m) == flat_map(m.sections@.take(i), |s: Section| section_datas(s)) + section_datas(m.sections@[i]),
{
    let s = m.sections@;
    lemma_flat_map_update(s, i, x, |s: Section| section_types(s));
    lemma_flat_map_update(s, i, x, |s: Section| section_imports(s));
    lemma_flat_map_update(s, i, x, |s: Section| section_funcs(s));
    lemma_flat_map_update(s, i, x, |s: Section| section_globals(s));
    lemma_flat_map_update(s, i, x, |s: Section| section_exports(s));
    lemma_flat_map_update(s, i, x, |s: Section| section_codes(s));
    lemma_flat_map_update(s, i, x, |s: Section| section_datas(s));
    let rest = s.skip(i + 1);
    assert forall|j: int| 0 <= j < rest.len() implies kind(#[trigger] rest[j]) != kind(x) by {
        assert(rest[j] == s[i + 1 + j]);
    }
    if kind(x) == 1 {
        assert forall|j: int| 0 <= j < rest.len() implies (#[trigger] section_types(rest[j])).len() == 0 by {
            assert(kind(rest[j]) != 1);
        }
        lemma_flat_map_all_empty(rest, |s: Section| section_types(s));
        assert(types_of(m2) =~= flat_map(s.take(i), |s: Section| section_types(s)) + section_types(x));
        assert(types_of(m) =~= flat_map(s.take(i), |s: Section| section_types(s)) + section_types(s[i]));
    }
    if kind(x) == 3 {
        assert forall|j: int| 0 <= j < rest.len() implies (#[trigger] section_funcs(rest[j])).len() == 0 by {
            assert(kind(rest[j]) != 3);
        }
        lemma_flat_map_all_empty(rest, |s: Section| section_funcs(s));
        assert(funcs_of(m2) =~= flat_map(s.take(i), |s: Section| section_funcs(s)) + section_funcs(x));
        assert(funcs_of(m) =~= flat_map(s.take(i), |s: Section| section_funcs(s)) + section_funcs(s[i]));
    }
    if kind(x) == 6 {
        assert forall|j: int| 0 <= j < rest.len() implies (#[trigger] section_globals(rest[j])).len() == 0 by {
            assert(kind(rest[j]) != 6);
        }
        lemma_flat_map_all_empty(rest, |s: Section| section_globals(s));
        assert(globals_of(m2) =~= flat_map(s.take(i), |s: Section| section_globals(s)) + section_globals(x));
        assert(globals_of(m) =~= flat_map(s.take(i), |s: Section| section_globals(s)) + section_globals(s[i]));
    }
    if kind(x) == 10 {
        assert forall|j: int| 0 <= j < rest.len() implies (#[trigger] section_codes(rest[j])).len() == 0 by {
            assert(kind(rest[j]) != 10);
        }
        lemma_flat_map_all_empty(rest, |s: Section| section_codes(s));
        assert(codes_of(m2) =~= flat_map(s.take(i), |s: Section| section_codes(s)) + section_codes(x));
        assert(codes_of(m) =~= flat_map(s.take(i), |s: Section| section_codes(s)) + section_codes(s[i]));
    }
    if kind(x) == 11 {
        assert forall|j: int| 0 <= j < rest.len() implies (#[trigger] section_datas(rest[j])).len() == 0 by {
            assert(kind(rest[j]) != 11);
        }
        lemma_flat_map_all_empty(rest, |s: Section| section_datas(s));
        assert(datas_of(m2) =~= flat_map(s.take(i), |s: Section| section_datas(s)) + section_datas(x));
        assert(datas_of(m) =~= flat_map(s.take(i), |s: Section| section_datas(s)) + section_datas(s[i]));
    }
}

/// `b` is `a` with possibly one empty section of kind `k` inserted, then one
/// section of kind `k` replaced: every other section is kept, in order.
pub open spec fn changes_one_section(a: Seq<Section>, b: Seq<Section>, k: u8) -> bool {
    exists|mid: Seq<Section>, i: int|
        #![trigger mid.update(i, b[i])]
        (mid == a || exists|p: int, x: Section| 0 <= p <= a.len() && kind(x) == k && mid == #[trigger] a.insert(p, x))
            && 0 <= i < mid.len() && kind(mid[i]) == k && b == mid.update(i, b[i])
}

/// The position of a section id in the order the format prescribes; 0 for
/// custom and unrecognised ids, which may stand anywhere.
pub open spec fn order_rank(id: u8) -> int {
    if 1 <= id <= 9 {
        id as int
    } else if id == 12 {
        10
    } else if id == 10 {
        11
    } else if id == 11 {
        12
    } else {
        0
    }
}

fn rank_of(id: u8) -> (r: u8)
    ensures
        r as int == order_rank(id),
{
    if 1 <= id && id <= 9 {
        id
    } else if id == 12 {
        10
    } else if id == 10 {
        11
    } else if id == 11 {
        12
    } else {
        0
    }
}

fn kind_of(s: &Section) -> (r: u8)
    ensures
        r == kind(*s),
{
    match s {
        Section::Type(..) => 1,
        Section::Import(..) => 2,
        Section::Func(..) => 3,
        Section::Table(..) => 4,
        Section::Memory(..) => 5,
        Section::Global(..) => 6,
        Section::Export(..) => 7,
        Section::Code(..) => 10,
        Section::Data(..) => 11,
        Section::Unknown(..) => 0,
    }
}

fn id_of(s: &Section) -> (r: u8)
    ensures
        r == crate::encoding::section_id(*s),
{
    match s {
        Section::Unknown(id, _, _) => *id,
        _ => kind_of(s),
    }
}

/// An empty section of a growable kind.
fn empty_section(k: u8) -> (r: Section)
    requires
        k == 1 || k == 2 || k == 3 || k == 6 || k == 7 || k == 10 || k == 11,
    ensures
        kind(r) == k,
        section_types(r).len() == 0,
        section_imports(r).len() == 0,
        section_funcs(r).len() == 0,
        section_globals(r).len() == 0,
        section_exports(r).len() == 0,
        section_codes(r).len() == 0,
        section_datas(r).len() == 0,
{
    let size = Value::new(0u32);
    if k == 1 {
        Section::Type(size, Vec::new())
    } else if k == 2 {
        Section::Import(size, Vec::new())
    } else if k == 3 {
        Section::Func(size, Vec::new())
    } else if k == 6 {
        Section::Global(size, Vec::new())
    } else if k == 7 {
        Section::Export(size, Vec::new())
    } else if k == 10 {
        Section::Code(size, Vec::new())
    } else {
        Section::Data(size, Vec::new())
    }
}

impl Module {
    /// Where a new section of kind `k` keeps the prescribed order: before the
    /// first section that must follow it.
    fn insert_position(&self, k: u8) -> (r: usize)
        ensures
            r <= self.sections@.len(),
            forall|j: int| 0 <= j < r ==> order_rank(crate::encoding::section_id(#[trigger] self.sections@[j])) <= order_rank(k),
            r < self.sections@.len() ==> order_rank(crate::encoding::section_id(self.sections@[r as int])) > order_rank(k),
    {
        let rk = rank_of(k);
        let mut j: usize = 0;
        while j < self.sections.len()
            invariant
                j <= self.sections@.len(),
                rk as int == order_rank(k),
                forall|i: int| 0 <= i < j ==> order_rank(crate::encoding::section_id(#[trigger] self.sections@[i])) <= order_rank(k),
            decreases self.sections.len() - j,
        {
            if rank_of(id_of(&self.sections[j])) > rk {
                return j;
            }
            j += 1;
        }
        j
    }

    /// The index of the last section of kind `k`, after adding an empty one in
    /// its place in the order if there was none. No entry of any kind changes.
    fn last_section_of_kind(&mut self, k: u8) -> (i: usize)
        requires
            k == 1 || k == 2 || k == 3 || k == 6 || k == 7 || k == 10 || k == 11,
        ensures
            i < final(self).sections@.len(),
            kind(final(self).sections@[i as int]) == k,
            forall|j: int| i < j < final(self).sections@.len() ==> kind(#[trigger] final(self).sections@[j]) != k,
            projections_agree(*old(self), *final(self), 0),
            final(self).sections@ == old(self).sections@ || exists|p: int, x: Section|
                0 <= p <= old(self).sections@.len() && kind(x) == k && final(self).sections@
                    == #[trigger] old(self).sections@.insert(p, x),
    {
        let mut j: usize = self.sections.len();
        while j > 0
            invariant
                j <= self.sections@.len(),
                forall|i: int| j <= i < self.sections@.len() ==> kind(#[trigger] self.sections@[i]) != k,
            decreases j,
        {
            if kind_of(&self.sections[j - 1]) == k {
                return j - 1;
            }
            j -= 1;
        }
        let pos = self.insert_position(k);
        let x = empty_section(k);
        let ghost s = self.sections@;
        self.sections.insert(pos, x);
        proof {
            lemma_flat_map_insert_empty(s, pos as int, x, |s: Section| section_types(s));
            lemma_flat_map_insert_empty(s, pos as int, x, |s: Section| section_imports(s));
            lemma_flat_map_insert_empty(s, pos as int, x, |s: Section| section_funcs(s));
            lemma_flat_map_insert_empty(s, pos as int, x, |s: Section| section_globals(s));
            lemma_flat_map_insert_empty(s, pos as int, x, |s: Section| section_exports(s));
            lemma_flat_map_insert_empty(s, pos as int, x, |s: Section| section_codes(s));
            lemma_flat_map_insert_empty(s, pos as int, x, |s: Section| section_datas(s));
            assert forall|j: int| pos < j < self.sections@.len() implies kind(#[trigger] self.sections@[j]) != k by {
                assert(self.sections@[j] == s[j - 1]);
            }
        }
        pos
    }
}

/// What adding a function does: it gets the next index of the function space,
/// its type index and body are appended, and nothing else changes.
pub open spec fn add_function_effect(before: Module, after: Module, code: Code, typeidx: u32, r: u32) -> bool {
    &&& r == func_count(before)
    &&& funcs_of(after) == funcs_of(before).push(typeidx)
    &&& codes_of(after) == codes_of(before).push(code)
    &&& imports_of(after) == imports_of(before)
    &&& types_of(after) == types_of(before)
    &&& globals_of(after) == globals_of(before)
    &&& exports_of(after) == exports_of(before)
    &&& datas_of(after) == datas_of(before)
}

/// Functions added one after another get consecutive indices, the first
/// right after the imported functions and those already defined.
pub proof fn lemma_add_function_indices(
    m0: Module,
    m1: Module,
    m2: Module,
    m3: Module,
    c1: Code,
    c2: Code,
    c3: Code,
    t1: u32,
    t2: u32,
    t3: u32,
    r1: u32,
    r2: u32,
    r3: u32,
)
    requires
        add_function_effect(m0, m1, c1, t1, r1),
        add_function_effect(m1, m2, c2, t2, r2),
        add_function_effect(m2, m3, c3, t3, r3),
    ensures
        r1 == func_import_count(m0) + funcs_of(m0).len(),
        r2 == r1 + 1,
        r3 == r2 + 1,
        func_import_count(m3) == func_import_count(m0),
{
}

pub proof fn lemma_count_imports_le_len(s: Seq<Import>)
    ensures
        count_func_imports(s) <= s.len(),
        count_global_imports(s) <= s.len(),
    decreases s.len(),
{
    if s.len() > 0 {
        lemma_count_imports_le_len(s.drop_last());
    }
}

impl Module {
    /// The size of the type space.
    pub fn type_count(&self) -> (r: u32)
        requires
            types_of(*self).len() <= 0xffff_ffff,
        ensures
            r == types_of(*self).len(),
    {
        let ghost s = self.sections@;
        let mut n: u32 = 0;
        let mut j: usize = 0;
        while j < self.sections.len()
            invariant
                j <= s.len(),
                s == self.sections@,
                types_of(*self).len() <= 0xffff_ffff,
                n == flat_map(s.take(j as int), |x: Section| section_types(x)).len(),
            decreases s.len() - j,
        {
            proof {
                lemma_flat_map_push(s, j as int, |x: Section| section_types(x));
                lemma_flat_map_append(s.take(j + 1), s.skip(j + 1), |x: Section| section_types(x));
                assert(s =~= s.take(j + 1) + s.skip(j + 1));
            }
            match &self.sections[j] {
                Section::Type(_, v) => {
                    n = n + v.len() as u32;
                },
                _ => {},
            }
            j += 1;
        }
        assert(s.take(s.len() as int) =~= s);
        n
    }

    /// The number of defined functions.
    pub fn defined_func_count(&self) -> (r: u32)
        requires
            funcs_of(*self).len() <= 0xffff_ffff,
        ensures
            r == funcs_of(*self).len(),
    {
        let ghost s = self.sections@;
        let mut n: u32 = 0;
        let mut j: usize = 0;
        while j < self.sections.len()
            invariant
                j <= s.len(),
                s == self.sections@,
                funcs_of(*self).len() <= 0xffff_ffff,
                n == flat_map(s.take(j as int), |x: Section| section_funcs(x)).len(),
            decreases s.len() - j,
        {
            proof {
                lemma_flat_map_push(s, j as int, |x: Section| section_funcs(x));
                lemma_flat_map_append(s.take(j + 1), s.skip(j + 1), |x: Section| section_funcs(x));
                assert(s =~= s.take(j + 1) + s.skip(j + 1));
            }
            match &self.sections[j] {
                Section::Func(_, v) => {
                    n = n + v.len() as u32;
                },
                _ => {},
            }
            j += 1;
        }
        assert(s.take(s.len() as int) =~= s);
        n
    }

    /// The number of defined globals.
    pub fn defined_global_count(&self) -> (r: u32)
        requires
            globals_of(*self).len() <= 0xffff_ffff,
        ensures
            r == globals_of(*self).len(),
    {
        let ghost s = self.sections@;
        let mut n: u32 = 0;
        let mut j: usize = 0;
        while j < self.sections.len()
            invariant
                j <= s.len(),
                s == self.sections@,
                globals_of(*self).len() <= 0xffff_ffff,
                n == flat_map(s.take(j as int), |x: Section| section_globals(x)).len(),
            decreases s.len() - j,
        {
            proof {
                lemma_flat_map_push(s, j as int, |x: Section| section_globals(x));
                lemma_flat_map_append(s.take(j + 1), s.skip(j + 1), |x: Section| section_globals(x));
                assert(s =~= s.take(j + 1) + s.skip(j + 1));
            }
            match &self.sections[j] {
                Section::Global(_, v) => {
                    n = n + v.len() as u32;
                },
                _ => {},
            }
            j += 1;
        }
        assert(s.take(s.len() as int) =~= s);
        n
    }

    /// The number of imported functions.
    pub fn func_import_count(&self) -> (r: u32)
        requires
            imports_of(*self).len() <= 0xffff_ffff,
        ensures
            r == count_func_imports(imports_of(*self)),
    {
        let ghost s = self.sections@;
        let ghost f = |x: Section| section_imports(x);
        let mut n: u32 = 0;
        let mut j: usize = 0;
        while j < self.sections.len()
            invariant
                j <= s.len(),
                s == self.sections@,
                f == (|x: Section| section_imports(x)),
                imports_of(*self).len() <= 0xffff_ffff,
                n == count_func_imports(flat_map(s.take(j as int), f)),
            decreases s.len() - j,
        {
            proof {
                lemma_flat_map_push(s, j as int, f);
                lemma_flat_map_append(s.take(j + 1), s.skip(j + 1), f);
                assert(s =~= s.take(j + 1) + s.skip(j + 1));
            }
            match &self.sections[j] {
                Section::Import(_, v) => {
                    let ghost seen = flat_map(s.take(j as int), f);
                    let mut k: usize = 0;
                    while k < v.len()
                        invariant
                            k <= v@.len(),
                            f(s[j as int]) == v@,
                            seen + v@ == flat_map(s.take(j + 1), f),
                            flat_map(s.take(j + 1), f).len() <= 0xffff_ffff,
                            n == count_func_imports(seen + v@.take(k as int)),
                        decreases v.len() - k,
                    {
                        proof {
                            assert((seen + v@.take(k + 1)).drop_last() =~= seen + v@.take(k as int));
                            lemma_count_imports_le_len(seen + v@.take(k + 1));
                        }
                        if matches!(v[k].import_type, ImportType::Func(_)) {
                            n = n + 1;
                        }
                        k += 1;
                    }
                    assert(v@.take(v@.len() as int) =~= v@);
                },
                _ => {},
            }
            j += 1;
        }
        assert(s.take(s.len() as int) =~= s);
        n
    }

    /// The number of imported globals.
    pub fn global_import_count(&self) -> (r: u32)
        requires
            imports_of(*self).len() <= 0xffff_ffff,
        ensures
            r == count_global_imports(imports_of(*self)),
    {
        let ghost s = self.sections@;
        let ghost f = |x: Section| section_imports(x);
        let mut n: u32 = 0;
        let mut j: usize = 0;
        while j < self.sections.len()
            invariant
                j <= s.len(),
                s == self.sections@,
                f == (|x: Section| section_imports(x)),
                imports_of(*self).len() <= 0xffff_ffff,
                n == count_global_imports(flat_map(s.take(j as int), f)),
            decreases s.len() - j,
        {
            proof {
                lemma_flat_map_push(s, j as int, f);
                lemma_flat_map_append(s.take(j + 1), s.skip(j + 1), f);
                assert(s =~= s.take(j + 1) + s.skip(j + 1));
            }
            match &self.sections[j] {
                Section::Import(_, v) => {
                    let ghost seen = flat_map(s.take(j as int), f);
                    let mut k: usize = 0;
                    while k < v.len()
                        invariant
                            k <= v@.len(),
                            f(s[j as int]) == v@,
                            seen + v@ == flat_map(s.take(j + 1), f),
                            flat_map(s.take(j + 1), f).len() <= 0xffff_ffff,
                            n == count_global_imports(seen + v@.take(k as int)),
                        decreases v.len() - k,
                    {
                        proof {
                            assert((seen + v@.take(k + 1)).drop_last() =~= seen + v@.take(k as int));
                            lemma_count_imports_le_len(seen + v@.take(k + 1));
                        }
                        if matches!(v[k].import_type, ImportType::Global(_)) {
                            n = n + 1;
                        }
                        k += 1;
                    }
                    assert(v@.take(v@.len() as int) =~= v@);
                },
                _ => {},
            }
            j += 1;
        }
        assert(s.take(s.len() as int) =~= s);
        n
    }

    /// Appends a function type and returns its index. Structurally equal types
    /// are not merged.
    pub fn add_type(&mut self, t: Type) -> (r: u32)
        requires
            types_of(*old(self)).len() < 0xffff_ffff,
        ensures
            changes_one_section(old(self).sections@, final(self).sections@, 1),
            r == types_of(*old(self)).len(),
            types_of(*final(self)) == types_of(*old(self)).push(t),
            projections_agree(*old(self), *final(self), 1),
    {
        let r = self.type_count();
        let i = self.last_section_of_kind(1);
        let ghost m1 = *self;
        let ghost t2 = t;
        match &mut self.sections[i] {
            Section::Type(_, v) => {
                v.push(t);
            },
            _ => {},
        }
        proof {
            lemma_replace_last_of_kind(m1, *self, i as int, self.sections@[i as int]);
            assert(self.sections@ == m1.sections@.update(i as int, self.sections@[i as int]));
            assert(section_types(self.sections@[i as int]) == section_types(m1.sections@[i as int]).push(t2));
            assert(types_of(*self) =~= types_of(m1).push(t2));
        }
        r
    }

    /// Appends a function (its type index to the function section, its body to
    /// the code section) and returns its index in the function space, which
    /// counts the imported functions first.
    pub fn add_function(&mut self, code: Code, typeidx: u32) -> (r: u32)
        requires
            imports_of(*old(self)).len() + funcs_of(*old(self)).len() < 0xffff_ffff,
        ensures
            exists|mid: Seq<Section>| changes_one_section(old(self).sections@, mid, 3) && #[trigger] changes_one_section(mid, final(self).sections@, 10),
            add_function_effect(*old(self), *final(self), code, typeidx, r),
    {
        proof { lemma_count_imports_le_len(imports_of(*self)); }
        let r = self.func_import_count() + self.defined_func_count();
        let ghost code2 = code;
        let ghost m0 = *self;
        let i = self.last_section_of_kind(3);
        let ghost m1 = *self;
        match &mut self.sections[i] {
            Section::Func(_, v) => {
                v.push(typeidx);
            },
            _ => {},
        }
        proof {
            lemma_replace_last_of_kind(m1, *self, i as int, self.sections@[i as int]);
            assert(self.sections@ == m1.sections@.update(i as int, self.sections@[i as int]));
            assert(changes_one_section(old(self).sections@, self.sections@, 3));
        }
        let ghost after_func = self.sections@;
        proof {
            assert(funcs_of(*self) =~= funcs_of(m1).push(typeidx));
        }
        let c = self.last_section_of_kind(10);
        let ghost m2 = *self;
        match &mut self.sections[c] {
            Section::Code(_, v) => {
                v.push(code);
            },
            _ => {},
        }
        proof {
            lemma_replace_last_of_kind(m2, *self, c as int, self.sections@[c as int]);
            assert(self.sections@ == m2.sections@.update(c as int, self.sections@[c as int]));
            assert(changes_one_section(after_func, self.sections@, 10));
            assert(codes_of(*self) =~= codes_of(m2).push(code2));
            assert(add_function_effect(m0, *self, code2, typeidx, r));
        }
        r
    }

    /// Appends a global and returns its index in the global space, which
    /// counts the imported globals first.
    pub fn add_global(&mut self, global: Global) -> (r: u32)
        requires
            imports_of(*old(self)).len() + globals_of(*old(self)).len() < 0xffff_ffff,
        ensures
            changes_one_section(old(self).sections@, final(self).sections@, 6),
            r == global_count(*old(self)),
            globals_of(*final(self)) == globals_of(*old(self)).push(global),
            projections_agree(*old(self), *final(self), 6),
    {
        proof { lemma_count_imports_le_len(imports_of(*self)); }
        let r = self.global_import_count() + self.defined_global_count();
        let ghost g2 = global;
        let i = self.last_section_of_kind(6);
        let ghost m1 = *self;
        match &mut self.sections[i] {
            Section::Global(_, v) => {
                v.push(global);
            },
            _ => {},
        }
        proof {
            lemma_replace_last_of_kind(m1, *self, i as int, self.sections@[i as int]);
            assert(self.sections@ == m1.sections@.update(i as int, self.sections@[i as int]));
            assert(globals_of(*self) =~= globals_of(m1).push(g2));
        }
        r
    }

    /// Appends an active data segment placing `bytes` at `offset` in memory 0,
    /// and returns the range `(offset, offset + len)` that it fills.
    pub fn add_data(&mut self, offset: u32, bytes: Vec<u8>) -> (r: (u32, u32))
        requires
            offset + bytes@.len() <= 0x7fff_ffff,
        ensures
            changes_one_section(old(self).sections@, final(self).sections@, 11),
            r.0 == offset,
            r.1 == offset + bytes@.len(),
            datas_of(*final(self)).len() == datas_of(*old(self)).len() + 1,
            datas_of(*final(self)).take(datas_of(*old(self)).len() as int) == datas_of(*old(self)),
            datas_of(*final(self)).last().offset.value@ == seq![(Value { value: Instr::i32_const(offset as i64), start_offset: 0, end_offset: 0 })],
            datas_of(*final(self)).last().bytes@ == bytes@,
            projections_agree(*old(self), *final(self), 11),
    {
        let end = offset + bytes.len() as u32;
        let expr = vec![Value::new(Instr::i32_const(offset as i64))];
        let seg = DataSegment { offset: Value::new(expr), bytes };
        let ghost seg2 = seg;
        let i = self.last_section_of_kind(11);
        let ghost m1 = *self;
        match &mut self.sections[i] {
            Section::Data(_, v) => {
                v.push(seg);
            },
            _ => {},
        }
        proof {
            lemma_replace_last_of_kind(m1, *self, i as int, self.sections@[i as int]);
            assert(self.sections@ == m1.sections@.update(i as int, self.sections@[i as int]));
            assert(datas_of(*self) =~= datas_of(m1).push(seg2));
        }
        (offset, end)
    }
}

impl Module {
    /// The index in the function space of the first imported function named
    /// `name`, if there is one.
    pub fn find_import(&self, name: &[u8]) -> (r: Option<u32>)
        requires
            imports_of(*self).len() <= 0xffff_ffff,
        ensures
            r matches Some(x) ==> exists|j: int|
                0 <= j < imports_of(*self).len() && #[trigger] imports_of(*self)[j].name@ == name@
                    && imports_of(*self)[j].import_type is Func
                    && x == count_func_imports(imports_of(*self).take(j))
                    && forall|i: int| 0 <= i < j && (#[trigger] imports_of(*self)[i]).import_type is Func
                        ==> imports_of(*self)[i].name@ != name@,
            r is None ==> forall|j: int|
                0 <= j < imports_of(*self).len() && (#[trigger] imports_of(*self)[j]).import_type is Func
                    ==> imports_of(*self)[j].name@ != name@,
    {
        let ghost s = self.sections@;
        let ghost f = |x: Section| section_imports(x);
        let ghost all = imports_of(*self);
        let mut n: u32 = 0;
        let mut j: usize = 0;
        while j < self.sections.len()
            invariant
                j <= s.len(),
                s == self.sections@,
                f == (|x: Section| section_imports(x)),
                all == flat_map(s, f),
                all == imports_of(*self),
                all.len() <= 0xffff_ffff,
                flat_map(s.take(j as int), f).len() <= all.len(),
                all.take(flat_map(s.take(j as int), f).len() as int) == flat_map(s.take(j as int), f),
                n == count_func_imports(flat_map(s.take(j as int), f)),
                forall|i: int|
                    0 <= i < flat_map(s.take(j as int), f).len() && (#[trigger] all[i]).import_type is Func
                        ==> all[i].name@ != name@,
            decreases s.len() - j,
        {
            proof {
                lemma_flat_map_push(s, j as int, f);
                lemma_flat_map_append(s.take(j + 1), s.skip(j + 1), f);
                assert(s =~= s.take(j + 1) + s.skip(j + 1));
                assert(all.take(flat_map(s.take(j + 1), f).len() as int) =~= flat_map(s.take(j + 1), f));
            }
            match &self.sections[j] {
                Section::Import(_, v) => {
                    let ghost seen = flat_map(s.take(j as int), f);
                    let mut k: usize = 0;
                    while k < v.len()
                        invariant
                            k <= v@.len(),
                            f(s[j as int]) == v@,
                            seen + v@ == flat_map(s.take(j + 1), f),
                            all.take((seen + v@).len() as int) == seen + v@,
                            all == imports_of(*self),
                            all.len() <= 0xffff_ffff,
                            (seen + v@).len() <= all.len(),
                            n == count_func_imports(seen + v@.take(k as int)),
                            forall|i: int|
                                0 <= i < seen.len() + k && (#[trigger] all[i]).import_type is Func
                                    ==> all[i].name@ != name@,
                        decreases v.len() - k,
                    {
                        proof {
                            assert((seen + v@.take(k + 1)).drop_last() =~= seen + v@.take(k as int));
                            lemma_count_imports_le_len(seen + v@.take(k + 1));
                            assert((seen + v@)[seen.len() + k] == v@[k as int]);
                            assert(all.take((seen + v@).len() as int)[seen.len() + k] == all[seen.len() + k]);
                            assert(all[seen.len() + k] == v@[k as int]);
                            assert(all.take(seen.len() + k) =~= all.take((seen + v@).len() as int).take(seen.len() + k));
                            assert((seen + v@).take(seen.len() + k) =~= seen + v@.take(k as int));
                            assert(all.take(seen.len() + k) =~= seen + v@.take(k as int));
                        }
                        if matches!(v[k].import_type, ImportType::Func(_)) {
                            if bytes_eq(&v[k].name, name) {
                                assert(all[seen.len() + k].name@ == name@);
                                return Some(n);
                            }
                            n = n + 1;
                        }
                        k += 1;
                    }
                    assert(v@.take(v@.len() as int) =~= v@);
                },
                _ => {},
            }
            j += 1;
        }
        assert(s.take(s.len() as int) =~= s);
        None
    }
}

pub(crate) fn bytes_eq(a: &Vec<u8>, b: &[u8]) -> (r: bool)
    ensures
        r == (a@ == b@),
{
    if a.len() != b.len() {
        return false;
    }
    let mut j: usize = 0;
    while j < a.len()
        invariant
            j <= a@.len() == b@.len(),
            a@.take(j as int) == b@.take(j as int),
        decreases a.len() - j,
    {
        if a[j] != b[j] {
            assert(a@[j as int] != b@[j as int]);
            return false;
        }
        j += 1;
        assert(a@.take(j as int) =~= b@.take(j as int));
    }
    assert(a@ =~= a@.take(j as int));
    assert(b@ =~= b@.take(j as int));
    true
}

/// The type index of each imported function, in order.
pub open spec fn func_import_types(imports: Seq<Import>) -> Seq<u32>
    decreases imports.len(),
{
    if imports.len() == 0 {
        Seq::empty()
    } else {
        func_import_types(imports.drop_last()) + match imports.last().import_type {
            ImportType::Func(t) => seq![t],
            _ => Seq::empty(),
        }
    }
}

/// The type index of every function of `m`, imported ones first.
pub open spec fn func_types(m: Module) -> Seq<u32> {
    func_import_types(imports_of(m)) + funcs_of(m)
}

/// The locals of a body, one entry per local.
pub open spec fn flat_locals(ls: Seq<CodeLocal>) -> Seq<ValueType> {
    flat_map(ls, |l: CodeLocal| Seq::new(l.count as nat, |i: int| l.value_type))
}

/// `m` exports function `f`.
pub open spec fn exports_func(m: Module, f: u32) -> bool {
    exists|j: int| 0 <= j < exports_of(m).len() && (#[trigger] exports_of(m)[j]).descr == ExportDescr::Func(f)
}

pub proof fn lemma_func_import_types_len(imports: Seq<Import>)
    ensures
        func_import_types(imports).len() == count_func_imports(imports),
    decreases imports.len(),
{
    if imports.len() > 0 {
        lemma_func_import_types_len(imports.drop_last());
    }
}

/// The types of the first `limit` locals of `locals`, one entry per local.
pub fn locals_flatten(locals: &Vec<CodeLocal>, limit: usize) -> (r: Vec<ValueType>)
    ensures
        r@ == flat_locals(locals@).take(
            if limit < flat_locals(locals@).len() { limit as int } else { flat_locals(locals@).len() as int },
        ),
{
    let ghost f = |l: CodeLocal| Seq::new(l.count as nat, |i: int| l.value_type);
    let ghost all = flat_locals(locals@);
    let mut out: Vec<ValueType> = Vec::new();
    let mut k: usize = 0;
    while k < locals.len() && out.len() < limit
        invariant
            k <= locals@.len(),
            f == (|l: CodeLocal| Seq::new(l.count as nat, |i: int| l.value_type)),
            all == flat_map(locals@, f),
            out@.len() <= limit,
            out@.len() <= flat_map(locals@.take(k as int), f).len(),
            out@ == flat_map(locals@.take(k as int), f).take(out@.len() as int),
            out@.len() < limit ==> out@ == flat_map(locals@.take(k as int), f),
        decreases locals.len() - k,
    {
        let ghost base = flat_map(locals@.take(k as int), f);
        proof { lemma_flat_map_push(locals@, k as int, f); }
        let mut n: u32 = 0;
        while n < locals[k].count && out.len() < limit
            invariant
                k < locals@.len(),
                out@.len() <= limit,
                n <= locals@[k as int].count,
                out@ == base + Seq::new(n as nat, |i: int| locals@[k as int].value_type),
                base + f(locals@[k as int]) == flat_map(locals@.take(k + 1), f),
                f(locals@[k as int]) == Seq::new(locals@[k as int].count as nat, |i: int| locals@[k as int].value_type),
            decreases locals[k as int].count - n,
        {
            out.push(locals[k].value_type);
            n += 1;
            assert(out@ =~= base + Seq::new(n as nat, |i: int| locals@[k as int].value_type));
        }
        proof {
            let full = flat_map(locals@.take(k + 1), f);
            assert(out@ =~= full.take(out@.len() as int));
            if out@.len() < limit {
                assert(n == locals@[k as int].count);
                assert(out@ =~= full);
            }
        }
        k += 1;
    }
    proof {
        let a = flat_map(locals@.take(k as int), f);
        lemma_flat_map_append(locals@.take(k as int), locals@.skip(k as int), f);
        assert(locals@ =~= locals@.take(k as int) + locals@.skip(k as int));
        assert(all == a + flat_map(locals@.skip(k as int), f));
        assert(a.take(out@.len() as int) =~= all.take(out@.len() as int));
        if out@.len() < limit {
            assert(locals@.take(k as int) =~= locals@);
            assert(all.take(all.len() as int) =~= all);
        }
    }
    out
}

impl Module {
    /// The type with index `t` of the type space.
    pub fn type_at(&self, t: u32) -> (r: Option<&Type>)
        ensures
            r matches Some(x) ==> t < types_of(*self).len() && *x == types_of(*self)[t as int],
            r is None ==> t >= types_of(*self).len(),
    {
        let ghost s = self.sections@;
        let ghost f = |x: Section| section_types(x);
        let mut seen: usize = 0;
        let mut j: usize = 0;
        while j < self.sections.len()
            invariant
                j <= s.len(),
                s == self.sections@,
                f == (|x: Section| section_types(x)),
                seen == flat_map(s.take(j as int), f).len(),
                seen <= t,
            decreases s.len() - j,
        {
            proof { lemma_flat_map_push(s, j as int, f); }
            match &self.sections[j] {
                Section::Type(_, types) => {
                    let off = t as usize - seen;
                    if off < types.len() {
                        proof { lemma_flat_map_split(s, j as int, f); }
                        return Some(&types[off]);
                    }
                    seen = seen + types.len();
                },
                _ => {},
            }
            j += 1;
        }
        assert(s.take(j as int) =~= s);
        None
    }

    /// The body of the `k`-th defined function.
    pub fn code_at(&self, k: usize) -> (r: Option<&Code>)
        ensures
            r matches Some(x) ==> k < codes_of(*self).len() && *x == codes_of(*self)[k as int],
            r is None ==> k >= codes_of(*self).len(),
    {
        let ghost s = self.sections@;
        let ghost f = |x: Section| section_codes(x);
        let mut seen: usize = 0;
        let mut j: usize = 0;
        while j < self.sections.len()
            invariant
                j <= s.len(),
                s == self.sections@,
                f == (|x: Section| section_codes(x)),
                seen == flat_map(s.take(j as int), f).len(),
                seen <= k,
            decreases s.len() - j,
        {
            proof { lemma_flat_map_push(s, j as int, f); }
            match &self.sections[j] {
                Section::Code(_, codes) => {
                    let off = k - seen;
                    if off < codes.len() {
                        proof { lemma_flat_map_split(s, j as int, f); }
                        return Some(&codes[off]);
                    }
                    seen = seen + codes.len();
                },
                _ => {},
            }
            j += 1;
        }
        assert(s.take(j as int) =~= s);
        None
    }

    /// Whether function `f` is exported.
    pub fn is_func_exported(&self, f: u32) -> (r: bool)
        ensures
            r == exports_func(*self, f),
    {
        let ghost s = self.sections@;
        let ghost g = |x: Section| section_exports(x);
        let ghost all = exports_of(*self);
        let mut j: usize = 0;
        while j < self.sections.len()
            invariant
                j <= s.len(),
                s == self.sections@,
                g == (|x: Section| section_exports(x)),
                all == flat_map(s, g),
                all == exports_of(*self),
                flat_map(s.take(j as int), g).len() <= all.len(),
                all.take(flat_map(s.take(j as int), g).len() as int) == flat_map(s.take(j as int), g),
                forall|i: int| 0 <= i < flat_map(s.take(j as int), g).len() ==> (#[trigger] all[i]).descr != ExportDescr::Func(f),
            decreases s.len() - j,
        {
            proof {
                lemma_flat_map_push(s, j as int, g);
                lemma_flat_map_append(s.take(j + 1), s.skip(j + 1), g);
                assert(s =~= s.take(j + 1) + s.skip(j + 1));
                assert(all.take(flat_map(s.take(j + 1), g).len() as int) =~= flat_map(s.take(j + 1), g));
            }
            match &self.sections[j] {
                Section::Export(_, exports) => {
                    let ghost seen = flat_map(s.take(j as int), g);
                    let mut k: usize = 0;
                    while k < exports.len()
                        invariant
                            k <= exports@.len(),
                            g(s[j as int]) == exports@,
                            seen + exports@ == flat_map(s.take(j + 1), g),
                            all.take((seen + exports@).len() as int) == seen + exports@,
                            all == exports_of(*self),
                            (seen + exports@).len() <= all.len(),
                            forall|i: int| 0 <= i < seen.len() + k ==> (#[trigger] all[i]).descr != ExportDescr::Func(f),
                        decreases exports.len() - k,
                    {
                        proof {
                            assert((seen + exports@)[seen.len() + k] == exports@[k as int]);
                            assert(all.take((seen + exports@).len() as int)[seen.len() + k] == all[seen.len() + k]);
                        }
                        if exports[k].descr == ExportDescr::Func(f) {
                            return true;
                        }
                        k += 1;
                    }
                },
                _ => {},
            }
            j += 1;
        }
        assert(s.take(s.len() as int) =~= s);
        false
    }

    /// The type index of every function, imported ones first, and the number
    /// of imported functions.
    pub fn func_type_indices(&self) -> (r: (Vec<u32>, usize))
        ensures
            r.0@ == func_types(*self),
            r.1 == func_import_count(*self),
    {
        let ghost s = self.sections@;
        let ghost fi = |x: Section| section_imports(x);
        let ghost ff = |x: Section| section_funcs(x);
        let mut out: Vec<u32> = Vec::new();
        let mut j: usize = 0;
        while j < self.sections.len()
            invariant
                j <= s.len(),
                s == self.sections@,
                fi == (|x: Section| section_imports(x)),
                out@ == func_import_types(flat_map(s.take(j as int), fi)),
            decreases s.len() - j,
        {
            proof { lemma_flat_map_push(s, j as int, fi); }
            match &self.sections[j] {
                Section::Import(_, imports) => {
                    let ghost seen = flat_map(s.take(j as int), fi);
                    let mut k: usize = 0;
                    while k < imports.len()
                        invariant
                            k <= imports@.len(),
                            fi(s[j as int]) == imports@,
                            out@ == func_import_types(seen + imports@.take(k as int)),
                        decreases imports.len() - k,
                    {
                        proof {
                            assert((seen + imports@.take(k + 1)).drop_last() =~= seen + imports@.take(k as int));
                        }
                        match imports[k].import_type {
                            ImportType::Func(t) => out.push(t),
                            _ => {},
                        }
                        k += 1;
                        assert(out@ =~= func_import_types(seen + imports@.take(k as int)));
                    }
                    assert(imports@.take(k as int) =~= imports@);
                },
                _ => {
                    assert(flat_map(s.take(j as int), fi) + fi(s[j as int]) =~= flat_map(s.take(j as int), fi));
                },
            }
            j += 1;
        }
        assert(s.take(j as int) =~= s);
        let imported = out.len();
        proof { lemma_func_import_types_len(imports_of(*self)); }
        let ghost head = out@;
        let mut j: usize = 0;
        while j < self.sections.len()
            invariant
                j <= s.len(),
                s == self.sections@,
                ff == (|x: Section| section_funcs(x)),
                out@ == head + flat_map(s.take(j as int), ff),
            decreases s.len() - j,
        {
            proof { lemma_flat_map_push(s, j as int, ff); }
            match &self.sections[j] {
                Section::Func(_, funcs) => {
                    let ghost before = out@;
                    let mut k: usize = 0;
                    while k < funcs.len()
                        invariant
                            k <= funcs@.len(),
                            out@ == before + funcs@.take(k as int),
                        decreases funcs.len() - k,
                    {
                        out.push(funcs[k]);
                        k += 1;
                        assert(out@ =~= before + funcs@.take(k as int));
                    }
                    assert(funcs@.take(k as int) =~= funcs@);
                    assert(out@ =~= head + flat_map(s.take(j + 1), ff));
                },
                _ => {
                    assert(out@ =~= head + flat_map(s.take(j + 1), ff));
                },
            }
            j += 1;
        }
        assert(s.take(j as int) =~= s);
        (out, imported)
    }
}

} // verus!
