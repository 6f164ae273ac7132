//! From a program to the text of its LLVM module.

use vstd::prelude::*;
use crate::ctx::{first_size, EmitContext, Measured};
use crate::error::{says, LlvmError};
use crate::function::{declare_function, declares, define_code, define_fault, define_function};
use crate::ir::{IRFunction, IRFunctionParam};
use crate::layout::enum_order::{enums_in_dependency_order, in_dependency_order};
use crate::layout::wire_contract::{assert_wire_enum_order, contract_fault, wire_contract};
use crate::llvm::{Body, Code, LType};
use crate::native::{
    canonical_ir, has_llvm_name, measure, pinned, pinned_text, refused, size_under, takes_llvm_name,
    verify_module,
};
use crate::print::module::{codes, module_text, print_module};
use crate::text::same;

verus! {

/// A program: the tables that its types and names refer to, and its
/// functions. Compiling it completes the tables.
#[derive(Debug)]
pub struct IRProgram {
    pub tables: EmitContext,
    pub functions: Vec<IRFunction>,
}

/// A script: a program whose statements are one of its functions.
#[derive(Debug)]
pub struct IRScript {
    pub program: IRProgram,
}

/// The variants of the first `k` enums of an order.
pub open spec fn variant_types(c: &EmitContext, order: Seq<usize>, k: nat) -> Seq<LType>
    decreases k,
{
    if k == 0 {
        Seq::empty()
    } else {
        let decl = c.enums@[order[k - 1] as int];
        variant_types(c, order, (k - 1) as nat) + Seq::new(
            decl.variants@.len(),
            |i: int| LType::Variant(decl.symbol, decl.variants@[i].tag.0),
        )
    }
}

/// The types that need no declaration.
pub open spec fn builtin_types() -> Seq<LType> {
    seq![
        LType::I1,
        LType::I8,
        LType::I16,
        LType::I32,
        LType::I64,
        LType::F32,
        LType::F64,
        LType::Ptr,
        LType::List,
        LType::Table,
        LType::Closure,
    ]
}

/// The types that the tables declare.
pub open spec fn declared_types(c: &EmitContext) -> Seq<LType> {
    Seq::new(c.structs@.len(), |i: int| LType::Struct(c.structs@[i].symbol)) + Seq::new(
        c.enums@.len(),
        |i: int| LType::Enum(c.enums@[i].symbol),
    ) + Seq::new(c.unions@.len(), |i: int| LType::Union(i as usize)) + Seq::new(
        c.tuples@.len(),
        |i: int| LType::Tuple(i as usize),
    ) + Seq::new(c.envs@.len(), |i: int| LType::Env(i as usize))
}

/// The envelopes that a function may send: one for each parameter.
pub open spec fn envelopes(params: Seq<IRFunctionParam>) -> Seq<LType> {
    Seq::new(params.len(), |i: int| LType::Envelope(params[i].ty))
}

/// The envelopes that the first `k` functions may send.
pub open spec fn all_envelopes(functions: Seq<IRFunction>, k: nat) -> Seq<LType>
    decreases k,
{
    if k == 0 {
        Seq::empty()
    } else {
        all_envelopes(functions, (k - 1) as nat) + envelopes(functions[k - 1].params@)
    }
}

/// Every type whose size a compile asks for, the variants of enums first
/// and in dependency order.
pub open spec fn sized_types(c: &EmitContext, functions: Seq<IRFunction>, order: Seq<usize>) -> Seq<
    LType,
> {
    variant_types(c, order, order.len()) + builtin_types() + declared_types(c) + all_envelopes(
        functions,
        functions.len(),
    )
}

fn list_sized_types(c: &EmitContext, functions: &Vec<IRFunction>, order: &Vec<usize>) -> (r: Vec<LType>)
    requires
        forall|i: int| 0 <= i < order@.len() ==> (#[trigger] order@[i]) < c.enums@.len(),
    ensures
        r@ == sized_types(c, functions@, order@),
{
    let mut out: Vec<LType> = Vec::new();
    assert(out@ =~= variant_types(c, order@, 0));
    let mut i: usize = 0;
    while i < order.len()
        invariant
            i <= order@.len(),
            forall|j: int| 0 <= j < order@.len() ==> (#[trigger] order@[j]) < c.enums@.len(),
            out@ == variant_types(c, order@, i as nat),
        decreases order@.len() - i,
    {
        let decl = &c.enums[order[i]];
        let ghost before = out@;
        let ghost tail = Seq::new(
            decl.variants@.len(),
            |n: int| LType::Variant(decl.symbol, decl.variants@[n].tag.0),
        );
        let mut j: usize = 0;
        while j < decl.variants.len()
            invariant
                j <= decl.variants@.len(),
                tail == Seq::new(
                    decl.variants@.len(),
                    |n: int| LType::Variant(decl.symbol, decl.variants@[n].tag.0),
                ),
                out@ == before + tail.subrange(0, j as int),
            decreases decl.variants@.len() - j,
        {
            out.push(LType::Variant(decl.symbol, decl.variants[j].tag.0));
            j = j + 1;
            assert(out@ =~= before + tail.subrange(0, j as int));
        }
        assert(tail.subrange(0, tail.len() as int) =~= tail);
        i = i + 1;
    }
    let ghost variants = out@;
    let mut builtin: Vec<LType> = vec![
        LType::I1,
        LType::I8,
        LType::I16,
        LType::I32,
        LType::I64,
        LType::F32,
        LType::F64,
        LType::Ptr,
        LType::List,
        LType::Table,
        LType::Closure,
    ];
    assert(builtin@ =~= builtin_types());
    out.append(&mut builtin);
    let mut declared = list_declared(c);
    out.append(&mut declared);
    let ghost fixed = variants + builtin_types() + declared_types(c);
    assert(out@ =~= fixed);
    let mut k: usize = 0;
    assert(out@ =~= fixed + all_envelopes(functions@, 0));
    while k < functions.len()
        invariant
            k <= functions@.len(),
            out@ == fixed + all_envelopes(functions@, k as nat),
        decreases functions@.len() - k,
    {
        let params = &functions[k].params;
        let ghost before = out@;
        let mut j: usize = 0;
        while j < params.len()
            invariant
                j <= params@.len(),
                out@ == before + envelopes(params@).subrange(0, j as int),
            decreases params@.len() - j,
        {
            out.push(LType::Envelope(params[j].ty));
            j = j + 1;
            assert(out@ =~= before + envelopes(params@).subrange(0, j as int));
        }
        assert(envelopes(params@).subrange(0, params@.len() as int) =~= envelopes(params@));
        k = k + 1;
        assert(out@ =~= fixed + all_envelopes(functions@, k as nat));
    }
    out
}

fn list_declared(c: &EmitContext) -> (r: Vec<LType>)
    ensures
        r@ == declared_types(c),
{
    let mut out: Vec<LType> = Vec::new();
    let ghost s = Seq::new(c.structs@.len(), |i: int| LType::Struct(c.structs@[i].symbol));
    let mut i: usize = 0;
    while i < c.structs.len()
        invariant
            i <= c.structs@.len(),
            s == Seq::new(c.structs@.len(), |n: int| LType::Struct(c.structs@[n].symbol)),
            out@ == s.subrange(0, i as int),
        decreases c.structs@.len() - i,
    {
        out.push(LType::Struct(c.structs[i].symbol));
        i = i + 1;
        assert(out@ =~= s.subrange(0, i as int));
    }
    let ghost e = Seq::new(c.enums@.len(), |i: int| LType::Enum(c.enums@[i].symbol));
    assert(out@ =~= s + e.subrange(0, 0));
    i = 0;
    while i < c.enums.len()
        invariant
            i <= c.enums@.len(),
            e == Seq::new(c.enums@.len(), |n: int| LType::Enum(c.enums@[n].symbol)),
            out@ == s + e.subrange(0, i as int),
        decreases c.enums@.len() - i,
    {
        out.push(LType::Enum(c.enums[i].symbol));
        i = i + 1;
        assert(out@ =~= s + e.subrange(0, i as int));
    }
    let ghost u = Seq::new(c.unions@.len(), |i: int| LType::Union(i as usize));
    let ghost se = s + e;
    assert(out@ =~= se + u.subrange(0, 0));
    i = 0;
    while i < c.unions.len()
        invariant
            i <= c.unions@.len(),
            u == Seq::new(c.unions@.len(), |n: int| LType::Union(n as usize)),
            out@ == se + u.subrange(0, i as int),
        decreases c.unions@.len() - i,
    {
        out.push(LType::Union(i));
        i = i + 1;
        assert(out@ =~= se + u.subrange(0, i as int));
    }
    let ghost t = Seq::new(c.tuples@.len(), |i: int| LType::Tuple(i as usize));
    let ghost seu = se + u;
    assert(out@ =~= seu + t.subrange(0, 0));
    i = 0;
    while i < c.tuples.len()
        invariant
            i <= c.tuples@.len(),
            t == Seq::new(c.tuples@.len(), |n: int| LType::Tuple(n as usize)),
            out@ == seu + t.subrange(0, i as int),
        decreases c.tuples@.len() - i,
    {
        out.push(LType::Tuple(i));
        i = i + 1;
        assert(out@ =~= seu + t.subrange(0, i as int));
    }
    let ghost v = Seq::new(c.envs@.len(), |i: int| LType::Env(i as usize));
    let ghost seut = seu + t;
    assert(out@ =~= seut + v.subrange(0, 0));
    i = 0;
    while i < c.envs.len()
        invariant
            i <= c.envs@.len(),
            v == Seq::new(c.envs@.len(), |n: int| LType::Env(n as usize)),
            out@ == seut + v.subrange(0, i as int),
        decreases c.envs@.len() - i,
    {
        out.push(LType::Env(i));
        i = i + 1;
        assert(out@ =~= seut + v.subrange(0, i as int));
    }
    assert(out@ =~= declared_types(c));
    out
}

/// The types that have been measured.
pub open spec fn measured_types(measured: Seq<Measured>) -> Seq<LType> {
    Seq::new(measured.len(), |i: int| measured[i].ty)
}

/// Records the size of a type.
pub fn record_size(c: &mut EmitContext, ty: LType, bytes: u64)
    ensures
        final(c).measured@ == old(c).measured@.push(Measured { ty, bytes }),
        *final(c) == (EmitContext { measured: final(c).measured, ..*old(c) }),
{
    c.measured.push(Measured { ty, bytes });
}

/// The tables as they stood when the `i`-th size was taken: with the sizes
/// before it.
pub open spec fn stood(c: &EmitContext, t: EmitContext, measured: Seq<Measured>, i: int) -> bool {
    t.measured@ == measured.subrange(0, i) && t == (EmitContext { measured: t.measured, ..*c })
}

/// The `i`-th size is what LLVM gives the type under a data layout, with
/// the tables as they stood when it was taken.
pub open spec fn is_size(c: &EmitContext, measured: Seq<Measured>, layout: Seq<char>, i: int) -> bool {
    exists|t: EmitContext| #[trigger]
        stood(c, t, measured, i) && measured[i].bytes == size_under(&t, measured[i].ty, layout)
}

/// Every size is what LLVM gives the type under a data layout.
pub open spec fn has_sizes(c: &EmitContext, measured: Seq<Measured>, layout: Seq<char>) -> bool {
    forall|i: int| 0 <= i < measured.len() ==> #[trigger] is_size(c, measured, layout, i)
}

/// The tables have the sizes of the types that a compile asks for, taken
/// under a data layout, the enums behind those that they hold by value.
pub open spec fn is_measured(
    c: &EmitContext,
    functions: Seq<IRFunction>,
    measured: Seq<Measured>,
    layout: Seq<char>,
) -> bool {
    &&& exists|index: Seq<usize>, order: Seq<usize>| #[trigger]
        in_dependency_order(c, index, order) && measured_types(measured) == sized_types(
            c,
            functions,
            order,
        )
    &&& has_sizes(c, measured, layout)
}

/// The first size of a type is at its place.
proof fn first_size_found(measured: Seq<Measured>, ty: LType, i: nat) -> (j: int)
    requires
        exists|k: int| i <= k < measured.len() && (#[trigger] measured[k]).ty == ty,
    ensures
        i <= j < measured.len(),
        measured[j].ty == ty,
        first_size(measured, ty, i) == measured[j].bytes,
    decreases measured.len() - i,
{
    if measured[i as int].ty == ty {
        i as int
    } else {
        first_size_found(measured, ty, i + 1)
    }
}

/// Every size that emitted code is made with is the size that LLVM gives
/// the type, under the layout that the sizes were taken under.
pub proof fn sizes_are_llvms(c: &EmitContext, d: &EmitContext, layout: Seq<char>, ty: LType)
    requires
        has_sizes(c, d.measured@, layout),
        measured_types(d.measured@).contains(ty),
    ensures
        exists|i: int, t: EmitContext| #[trigger]
            stood(c, t, d.measured@, i) && d.abi(ty) == size_under(&t, ty, layout),
{
    let k = choose|k: int| 0 <= k < d.measured@.len() && measured_types(d.measured@)[k] == ty;
    assert(d.measured@[k].ty == ty);
    let j = first_size_found(d.measured@, ty, 0);
    assert(is_size(c, d.measured@, layout, j));
}

/// Takes in what a type was measured as, where it was measured under the
/// layout of the types before it. The layout comes back.
pub fn take_size(c: &mut EmitContext, ty: LType, before: Option<String>, size: (u64, String)) -> (r: Result<
    String,
    LlvmError,
>)
    ensures
        match r {
            Ok(layout) => {
                &&& layout == size.1
                &&& before matches Some(l) ==> l@ == layout@
                &&& final(c).measured@ == old(c).measured@.push(Measured { ty, bytes: size.0 })
            },
            Err(e) => {
                &&& e is ObjectEmit
                &&& before matches Some(l) && l@ != size.1@
                &&& final(c).measured@ == old(c).measured@
            },
        },
        *final(c) == (EmitContext { measured: final(c).measured, ..*old(c) }),
{
    let (bytes, layout) = size;
    if let Some(l) = before {
        if !same(l.as_str(), layout.as_str()) {
            return Err(LlvmError::ObjectEmit("the data layout has changed".to_owned()));
        }
    }
    record_size(c, ty, bytes);
    Ok(layout)
}

/// One more size keeps the others.
proof fn one_more_size(c: &EmitContext, t: EmitContext, ty: LType, bytes: u64, layout: Seq<char>)
    requires
        has_sizes(c, t.measured@, layout),
        t == (EmitContext { measured: t.measured, ..*c }),
        bytes == size_under(&t, ty, layout),
    ensures
        has_sizes(c, t.measured@.push(Measured { ty, bytes }), layout),
{
    let before = t.measured@;
    let after = before.push(Measured { ty, bytes });
    assert forall|i: int| 0 <= i < after.len() implies #[trigger] is_size(c, after, layout, i) by {
        assert(after.subrange(0, i) =~= before.subrange(0, i));
        if i < before.len() {
            assert(is_size(c, before, layout, i));
            let u = choose|u: EmitContext| #[trigger]
                stood(c, u, before, i) && before[i].bytes == size_under(&u, before[i].ty, layout);
            assert(stood(c, u, after, i));
        } else {
            assert(before.subrange(0, i) =~= before);
            assert(stood(c, t, after, i));
        }
    }
}

/// Measures every type whose size a compile asks for, on this machine, and
/// gives back the data layout. An enum is measured behind those that it
/// holds by value.
pub fn measure_types(c: &mut EmitContext, functions: &Vec<IRFunction>) -> (r: Result<String, LlvmError>)
    requires
        old(c).enums@.len() < usize::MAX,
    ensures
        match r {
            Ok(layout) => is_measured(old(c), functions@, final(c).measured@, layout@),
            Err(e) => e is ObjectEmit,
        },
        *final(c) == (EmitContext { measured: final(c).measured, ..*old(c) }),
{
    let order = enums_in_dependency_order(c);
    let ghost index = choose|index: Seq<usize>| #[trigger] in_dependency_order(c, index, order@);
    assert forall|i: int| 0 <= i < order@.len() implies (#[trigger] order@[i]) < c.enums@.len() by {
        let enums = crate::layout::enum_order::indexed(c.enums@, index);
        let o = crate::layout::topo::dependency_order(
            crate::layout::enum_order::enum_graph(c, enums),
        );
        assert(o.contains(o[i]));
    }
    let types = list_sized_types(c, functions, &order);
    c.measured = Vec::new();
    assert(measured_types(c.measured@) =~= types@.subrange(0, 0));
    let mut layout: Option<String> = None;
    let mut i: usize = 0;
    while i < types.len()
        invariant
            i <= types@.len(),
            measured_types(c.measured@) == types@.subrange(0, i as int),
            *c == (EmitContext { measured: c.measured, ..*old(c) }),
            match layout {
                Some(l) => has_sizes(old(c), c.measured@, l@),
                None => i == 0,
            },
        decreases types@.len() - i,
    {
        let ghost t = *c;
        let size = measure(c, types[i])?;
        proof {
            if layout is None {
                assert(c.measured@.len() == measured_types(c.measured@).len());
            }
            if layout is None || layout->0@ == size.1@ {
                assert(has_sizes(old(c), t.measured@, size.1@));
                one_more_size(old(c), t, types@[i as int], size.0, size.1@);
            }
        }
        layout = Some(take_size(c, types[i], layout, size)?);
        assert(measured_types(c.measured@) =~= measured_types(t.measured@).push(types@[i as int]));
        i = i + 1;
        assert(measured_types(c.measured@) =~= types@.subrange(0, i as int));
    }
    assert(types@.subrange(0, types@.len() as int) =~= types@);
    assert(in_dependency_order(old(c), index, order@));
    match layout {
        Some(layout) => Ok(layout),
        None => {
            proof {
                assert(types@.len() >= builtin_types().len());
            }
            Err(LlvmError::ObjectEmit("nothing to measure".to_owned()))
        },
    }
}

/// Every function is declared, in order.
pub open spec fn all_declared(c: &EmitContext, functions: Seq<IRFunction>) -> bool {
    &&& c.declared@.len() == functions.len()
    &&& forall|i: int|
        0 <= i < functions.len() ==> declares(
            c,
            c.declared@.subrange(0, i),
            &#[trigger] functions[i],
            c.declared@[i],
        )
}

/// Declares every function.
pub fn declare_all(c: &mut EmitContext, functions: &Vec<IRFunction>)
    ensures
        all_declared(final(c), functions@),
        *final(c) == (EmitContext { declared: final(c).declared, ..*old(c) }),
{
    c.declared = Vec::new();
    let mut i: usize = 0;
    while i < functions.len()
        invariant
            i <= functions@.len(),
            c.declared@.len() == i,
            *c == (EmitContext { declared: c.declared, ..*old(c) }),
            forall|j: int|
                0 <= j < i ==> declares(
                    c,
                    c.declared@.subrange(0, j),
                    &#[trigger] functions@[j],
                    c.declared@[j],
                ),
        decreases functions@.len() - i,
    {
        let ghost before = *c;
        let _k: usize = declare_function(c, &functions[i]);
        assert forall|j: int| 0 <= j < i + 1 implies declares(
            c,
            c.declared@.subrange(0, j),
            &#[trigger] functions@[j],
            c.declared@[j],
        ) by {
            assert(c.declared@.subrange(0, j) =~= before.declared@.subrange(0, j));
            if j < i {
                assert(c.declared@.subrange(0, i as int)[j] == c.declared@[j]);
            }
        }
        i = i + 1;
    }
}

/// The bodies of the first `k` functions, where every one has one.
pub open spec fn all_codes(c: &EmitContext, functions: Seq<IRFunction>, k: nat) -> Option<Seq<Code>>
    decreases k,
{
    if k == 0 {
        Some(Seq::empty())
    } else {
        match (all_codes(c, functions, (k - 1) as nat), define_code(c, &functions[k - 1])) {
            (Some(done), Some(code)) => Some(done.push(code)),
            _ => None,
        }
    }
}

proof fn failed_codes_stay(c: &EmitContext, functions: Seq<IRFunction>, n: nat, m: nat)
    requires
        n <= m,
        all_codes(c, functions, n) is None,
    ensures
        all_codes(c, functions, m) is None,
    decreases m - n,
{
    if n < m {
        failed_codes_stay(c, functions, n, (m - 1) as nat);
    }
}

/// The functions before the `k`-th can be emitted, and it cannot.
pub open spec fn functions_fail_at(c: &EmitContext, functions: Seq<IRFunction>, k: nat, e: LlvmError) -> bool {
    &&& k < functions.len()
    &&& all_codes(c, functions, k) is Some
    &&& define_code(c, &functions[k as int]) is None
    &&& define_fault(c, &functions[k as int], e)
}

/// What is said of the first function that cannot be emitted.
pub open spec fn functions_fault(c: &EmitContext, functions: Seq<IRFunction>, e: LlvmError) -> bool {
    exists|k: nat| #[trigger] functions_fail_at(c, functions, k, e)
}

/// Emits the body of every function.
pub fn define_all(c: &EmitContext, functions: &Vec<IRFunction>) -> (r: Result<Vec<Body>, LlvmError>)
    ensures
        match r {
            Ok(bodies) => all_codes(c, functions@, functions@.len()) == Some(codes(bodies@))
                && bodies@.len() == functions@.len(),
            Err(e) => all_codes(c, functions@, functions@.len()) is None && e is Codegen
                && functions_fault(c, functions@, e),
        },
{
    let mut bodies: Vec<Body> = Vec::new();
    assert(codes(bodies@) =~= Seq::empty());
    let mut i: usize = 0;
    while i < functions.len()
        invariant
            i <= functions@.len(),
            bodies@.len() == i,
            all_codes(c, functions@, i as nat) == Some(codes(bodies@)),
        decreases functions@.len() - i,
    {
        match define_function(c, &functions[i]) {
            Ok(body) => {
                let ghost before = codes(bodies@);
                bodies.push(body);
                assert(codes(bodies@) =~= before.push(body@));
            },
            Err(e) => {
                proof {
                    assert(functions_fail_at(c, functions@, i as nat, e));
                    failed_codes_stay(c, functions@, (i + 1) as nat, functions@.len());
                }
                return Err(e);
            },
        }
        i = i + 1;
    }
    Ok(bodies)
}

/// The text of a program's module, before LLVM has seen it: none where an
/// enum breaks its wire order, a function goes by a name of LLVM's or a
/// function cannot be emitted.
pub open spec fn program_text(c: &EmitContext, functions: Seq<IRFunction>, app_name: Seq<char>) -> Option<
    Seq<char>,
> {
    if wire_contract(c) && !takes_llvm_name(c.declared@) {
        match all_codes(c, functions, functions.len()) {
            Some(bodies) => Some(module_text(c, bodies, app_name)),
            None => None,
        }
    } else {
        None
    }
}

/// What is said of a program whose module cannot be printed.
pub open spec fn program_fault(c: &EmitContext, functions: Seq<IRFunction>, e: LlvmError) -> bool {
    if !wire_contract(c) {
        contract_fault(c, e)
    } else if takes_llvm_name(c.declared@) {
        says(e, "a function goes by a name of LLVM's own"@)
    } else {
        functions_fault(c, functions, e)
    }
}

/// `r` is what LLVM makes of a program's module, with a data layout.
pub open spec fn compiled(
    c: &EmitContext,
    functions: Seq<IRFunction>,
    app_name: Seq<char>,
    layout: Seq<char>,
    r: Result<String, LlvmError>,
) -> bool {
    match program_text(c, functions, app_name) {
        None => r matches Err(e) && e is Codegen && program_fault(c, functions, e),
        Some(text) => match (canonical_ir(text, app_name), r) {
            (Ok(t), Ok(s)) => s@ == pinned_text(t, layout),
            (Err(m), Err(e)) => says(e, refused(None, m)),
            _ => false,
        },
    }
}

/// Lowers the functions of a program whose tables are complete.
fn lower_declared(c: &EmitContext, functions: &Vec<IRFunction>, app_name: &str) -> (r: Result<
    String,
    LlvmError,
>)
    requires
        c.declared@.len() == functions@.len(),
    ensures
        lowered(c, functions@, app_name@, r),
{
    match assert_wire_enum_order(c) {
        Ok(()) => {},
        Err(e) => {
            return Err(e);
        },
    }
    if has_llvm_name(&c.declared) {
        return Err(LlvmError::Codegen("a function goes by a name of LLVM's own".to_owned()));
    }
    match define_all(c, functions) {
        Ok(bodies) => Ok(print_module(c, &bodies, app_name)),
        Err(e) => Err(e),
    }
}

/// `r` is a program's module, as it goes to LLVM.
pub open spec fn lowered(
    c: &EmitContext,
    functions: Seq<IRFunction>,
    app_name: Seq<char>,
    r: Result<String, LlvmError>,
) -> bool {
    match program_text(c, functions, app_name) {
        None => r matches Err(e) && e is Codegen && program_fault(c, functions, e),
        Some(text) => r matches Ok(t) && t@ == text,
    }
}

/// Lowers a program whose types have been measured: checks the wire
/// orders, declares and defines every function, and prints the module.
pub fn lower_measured(program: &mut IRProgram, app_name: &str) -> (r: Result<String, LlvmError>)
    ensures
        final(program).functions == old(program).functions,
        final(program).tables == (EmitContext {
            declared: final(program).tables.declared,
            ..old(program).tables
        }),
        all_declared(&final(program).tables, old(program).functions@),
        lowered(&final(program).tables, old(program).functions@, app_name@, r),
{
    declare_all(&mut program.tables, &program.functions);
    lower_declared(&program.tables, &program.functions, app_name)
}

/// Compiles a program whose types have been measured: lowers it, hands the
/// module to LLVM and pins a data layout.
pub fn emit_measured(program: &mut IRProgram, app_name: &str, layout: &str) -> (r: Result<
    String,
    LlvmError,
>)
    ensures
        final(program).functions == old(program).functions,
        final(program).tables == (EmitContext {
            declared: final(program).tables.declared,
            ..old(program).tables
        }),
        all_declared(&final(program).tables, old(program).functions@),
        compiled(&final(program).tables, old(program).functions@, app_name@, layout@, r),
{
    let text = lower_measured(program, app_name)?;
    let module = verify_module(text.as_str(), app_name)?;
    Ok(pinned(module.as_str(), layout))
}

/// A module as it goes to LLVM, and the data layout that its sizes are
/// right under.
#[derive(Debug)]
pub struct LoweredModule {
    pub text: String,
    pub layout: String,
}

/// Lowers a program to the module that goes to LLVM, with the sizes that
/// types have on this machine.
pub fn lower_program(program: &mut IRProgram, app_name: &str) -> (r: Result<LoweredModule, LlvmError>)
    requires
        old(program).tables.enums@.len() < usize::MAX,
    ensures
        final(program).functions == old(program).functions,
        final(program).tables == (EmitContext {
            declared: final(program).tables.declared,
            measured: final(program).tables.measured,
            ..old(program).tables
        }),
        r matches Err(LlvmError::ObjectEmit(_)) || {
            &&& all_declared(&final(program).tables, old(program).functions@)
            &&& exists|layout: Seq<char>| #[trigger]
                is_measured(
                    &old(program).tables,
                    old(program).functions@,
                    final(program).tables.measured@,
                    layout,
                ) && match r {
                    Ok(m) => m.layout@ == layout && lowered(
                        &final(program).tables,
                        old(program).functions@,
                        app_name@,
                        Ok(m.text),
                    ),
                    Err(e) => lowered(
                        &final(program).tables,
                        old(program).functions@,
                        app_name@,
                        Err(e),
                    ),
                }
        },
{
    let layout = measure_types(&mut program.tables, &program.functions)?;
    match lower_measured(program, app_name) {
        Ok(text) => Ok(LoweredModule { text, layout }),
        Err(e) => Err(e),
    }
}

/// Compiles a program to the text of its LLVM module, with the sizes that
/// types have on this machine and the data layout that they were taken
/// under. `app_name` names the module, and labels panics of the running
/// program.
pub fn emit_llvm_ir(program: &mut IRProgram, app_name: &str) -> (r: Result<String, LlvmError>)
    requires
        old(program).tables.enums@.len() < usize::MAX,
    ensures
        final(program).functions == old(program).functions,
        final(program).tables == (EmitContext {
            declared: final(program).tables.declared,
            measured: final(program).tables.measured,
            ..old(program).tables
        }),
        r matches Err(LlvmError::ObjectEmit(_)) || {
            &&& all_declared(&final(program).tables, old(program).functions@)
            &&& exists|layout: Seq<char>| #[trigger]
                is_measured(
                    &old(program).tables,
                    old(program).functions@,
                    final(program).tables.measured@,
                    layout,
                ) && compiled(
                    &final(program).tables,
                    old(program).functions@,
                    app_name@,
                    layout,
                    r,
                )
        },
{
    let layout = measure_types(&mut program.tables, &program.functions)?;
    emit_measured(program, app_name, layout.as_str())
}

/// Compiles a script to the text of its LLVM module.
pub fn emit_script_llvm_ir(script: &mut IRScript, app_name: &str) -> (r: Result<String, LlvmError>)
    requires
        old(script).program.tables.enums@.len() < usize::MAX,
    ensures
        final(script).program.functions == old(script).program.functions,
        final(script).program.tables == (EmitContext {
            declared: final(script).program.tables.declared,
            measured: final(script).program.tables.measured,
            ..old(script).program.tables
        }),
        r matches Err(LlvmError::ObjectEmit(_)) || {
            &&& all_declared(&final(script).program.tables, old(script).program.functions@)
            &&& exists|layout: Seq<char>| #[trigger]
                is_measured(
                    &old(script).program.tables,
                    old(script).program.functions@,
                    final(script).program.tables.measured@,
                    layout,
                ) && compiled(
                    &final(script).program.tables,
                    old(script).program.functions@,
                    app_name@,
                    layout,
                    r,
                )
        },
{
    emit_llvm_ir(&mut script.program, app_name)
}

} // verus!
